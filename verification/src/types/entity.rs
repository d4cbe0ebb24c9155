//! Lists of entities that are known by their identifiers.
//!
//! A device keeps its nodes, and a node its properties, in a list in which
//! each entity is found by its identifier. The list keeps the order in which
//! the entities were added; a lookup returns the first entity with the
//! identifier asked for.

use vstd::prelude::*;

use crate::text::{same_text, views};

verus! {

/// The model of an entity that is known by an identifier.
pub trait Identified: Sized {
    /// The identifier of the entity.
    spec fn id(self) -> Seq<char>;

    /// The entity of which nothing is known but its identifier.
    spec fn fresh(id: Seq<char>) -> Self;

    /// A fresh entity has the identifier that it was made with.
    proof fn lemma_fresh_id(id: Seq<char>)
        ensures
            Self::fresh(id).id() == id,
    ;
}

/// An entity that is known by an identifier.
pub trait Entity: View + Sized where Self::V: Identified {
    /// The identifier of the entity.
    fn id(&self) -> (id: &String)
        ensures
            id@ == self@.id(),
    ;

    /// A new entity of which nothing is known but its identifier.
    fn fresh(id: &str) -> (entity: Self)
        ensures
            entity@ == Self::V::fresh(id@),
    ;
}

/// The models of a list of entities.
pub open spec fn view_all<T: View>(v: Seq<T>) -> Seq<T::V> {
    v.map_values(|e: T| e@)
}

/// The identifiers of a list of entities.
pub open spec fn ids_of<E: Identified>(s: Seq<E>) -> Seq<Seq<char>> {
    s.map_values(|e: E| e.id())
}

/// The index of the first entity of `s` with the identifier `id`.
pub open spec fn position<E: Identified>(s: Seq<E>, id: Seq<char>) -> Option<int>
    decreases s.len(),
{
    if s.len() == 0 {
        None
    } else {
        match position(s.drop_last(), id) {
            Some(i) => Some(i),
            None => if s.last().id() == id {
                Some(s.len() - 1)
            } else {
                None
            },
        }
    }
}

/// The first entity of `s` with the identifier `id`.
pub open spec fn lookup<E: Identified>(s: Seq<E>, id: Seq<char>) -> Option<E> {
    match position(s, id) {
        Some(i) => Some(s[i]),
        None => None,
    }
}

/// No two entities of `s` have the same identifier.
pub open spec fn distinct<E: Identified>(s: Seq<E>) -> bool {
    forall|i: int, j: int| 0 <= i < j < s.len() ==> (#[trigger] s[i]).id() != (#[trigger] s[j]).id()
}

/// `s` with a fresh entity added at its end, unless it holds an entity with
/// the identifier `id` already.
pub open spec fn ensure<E: Identified>(s: Seq<E>, id: Seq<char>) -> Seq<E> {
    if position(s, id) is Some {
        s
    } else {
        s.push(E::fresh(id))
    }
}

/// `s` with the first entity that has the identifier `id` replaced by
/// `entity`.
pub open spec fn replace<E: Identified>(s: Seq<E>, id: Seq<char>, entity: E) -> Seq<E> {
    match position(s, id) {
        Some(i) => s.update(i, entity),
        None => s,
    }
}

/// `s` without the first entity that has the identifier `id`.
pub open spec fn without<E: Identified>(s: Seq<E>, id: Seq<char>) -> Seq<E> {
    match position(s, id) {
        Some(i) => s.remove(i),
        None => s,
    }
}

/// The entity of `s` with the identifier `id`, or a fresh one if `s` has
/// none.
pub open spec fn settled<E: Identified>(s: Seq<E>, id: Seq<char>) -> E {
    lookup(ensure(s, id), id)->0
}

/// `s` with `entity` in the place of the entity with the identifier `id`,
/// which is added first if `s` has none.
pub open spec fn amended<E: Identified>(s: Seq<E>, id: Seq<char>, entity: E) -> Seq<E> {
    replace(ensure(s, id), id, entity)
}

/// The entities of `s` whose identifiers are among `ids`, in their order.
pub open spec fn kept<E: Identified>(s: Seq<E>, ids: Seq<Seq<char>>) -> Seq<E>
    decreases s.len(),
{
    if s.len() == 0 {
        Seq::empty()
    } else if ids.contains(s.last().id()) {
        kept(s.drop_last(), ids).push(s.last())
    } else {
        kept(s.drop_last(), ids)
    }
}

/// The identifiers of the entities of `s` that are not among `ids`, in their
/// order.
pub open spec fn dropped<E: Identified>(s: Seq<E>, ids: Seq<Seq<char>>) -> Seq<Seq<char>>
    decreases s.len(),
{
    if s.len() == 0 {
        Seq::empty()
    } else if ids.contains(s.last().id()) {
        dropped(s.drop_last(), ids)
    } else {
        dropped(s.drop_last(), ids).push(s.last().id())
    }
}

/// `s` with a fresh entity added for each of `ids` that names none yet, in
/// the order of `ids`.
pub open spec fn with_all<E: Identified>(s: Seq<E>, ids: Seq<Seq<char>>) -> Seq<E>
    decreases ids.len(),
{
    if ids.len() == 0 {
        s
    } else {
        ensure(with_all(s, ids.drop_last()), ids.last())
    }
}

/// The list that holds an entity for each of `ids` and no other: the
/// entities of `s` that are named among `ids`, in their order, then a fresh
/// entity for each of `ids` that named none, in the order of `ids`.
pub open spec fn restricted<E: Identified>(s: Seq<E>, ids: Seq<Seq<char>>) -> Seq<E> {
    with_all(kept(s, ids), ids)
}

/// The identifiers of the fresh entities of `restricted(s, ids)`.
pub open spec fn added<E: Identified>(s: Seq<E>, ids: Seq<Seq<char>>) -> Seq<Seq<char>> {
    ids_of(restricted(s, ids).skip(kept(s, ids).len() as int))
}

/// What `position` returns: the index of the first entity with the
/// identifier, or `None` where no entity has it.
pub proof fn lemma_position<E: Identified>(s: Seq<E>, id: Seq<char>)
    ensures
        match position(s, id) {
            Some(i) => {
                &&& 0 <= i < s.len()
                &&& s[i].id() == id
                &&& forall|j: int| 0 <= j < i ==> (#[trigger] s[j]).id() != id
            },
            None => forall|j: int| 0 <= j < s.len() ==> (#[trigger] s[j]).id() != id,
        },
    decreases s.len(),
{
    if s.len() > 0 {
        lemma_position(s.drop_last(), id);
        match position(s.drop_last(), id) {
            Some(i) => {
                assert(s.drop_last()[i] == s[i]);
                assert forall|j: int| 0 <= j < i implies (#[trigger] s[j]).id() != id by {
                    assert(s.drop_last()[j] == s[j]);
                }
            },
            None => {
                assert forall|j: int| 0 <= j < s.len() - 1 implies (#[trigger] s[j]).id() != id by {
                    assert(s.drop_last()[j] == s[j]);
                }
            },
        }
    }
}

/// The first index at which an identifier occurs is its position.
pub proof fn lemma_position_is<E: Identified>(s: Seq<E>, id: Seq<char>, i: int)
    requires
        0 <= i < s.len(),
        s[i].id() == id,
        forall|j: int| 0 <= j < i ==> (#[trigger] s[j]).id() != id,
    ensures
        position(s, id) == Some(i),
{
    lemma_position(s, id);
}

/// An identifier that no entity has has no position.
pub proof fn lemma_position_none<E: Identified>(s: Seq<E>, id: Seq<char>)
    requires
        forall|j: int| 0 <= j < s.len() ==> (#[trigger] s[j]).id() != id,
    ensures
        position(s, id) is None,
{
    lemma_position(s, id);
}

/// After `ensure`, the identifier has a position, every entity that was in
/// the list is where it was, and an entity that was added is fresh.
pub proof fn lemma_ensure<E: Identified>(s: Seq<E>, id: Seq<char>)
    ensures
        position(ensure(s, id), id) is Some,
        position(s, id) is Some ==> position(ensure(s, id), id) == position(s, id),
        position(s, id) is None ==> position(ensure(s, id), id) == Some(s.len() as int),
        position(s, id) is None ==> ensure(s, id)[s.len() as int] == E::fresh(id),
        ensure(ensure(s, id), id) == ensure(s, id),
        distinct(s) ==> distinct(ensure(s, id)),
{
    lemma_position(s, id);
    E::lemma_fresh_id(id);
    if position(s, id) is None {
        let t = s.push(E::fresh(id));
        lemma_position_is(t, id, s.len() as int);
    }
}

/// Replacing an entity by one with the same identifier leaves every
/// position as it was.
pub proof fn lemma_replace<E: Identified>(s: Seq<E>, id: Seq<char>, entity: E, other: Seq<char>)
    requires
        entity.id() == id,
    ensures
        position(replace(s, id, entity), other) == position(s, other),
        ids_of(replace(s, id, entity)) == ids_of(s),
        distinct(s) ==> distinct(replace(s, id, entity)),
{
    lemma_position(s, id);
    lemma_position(s, other);
    let t = replace(s, id, entity);
    assert(ids_of(t) =~= ids_of(s)) by {
        assert forall|j: int| 0 <= j < s.len() implies ids_of(t)[j] == ids_of(s)[j] by {}
    }
    assert forall|j: int| 0 <= j < s.len() implies (#[trigger] t[j]).id() == s[j].id() by {}
    match position(s, other) {
        Some(i) => {
            lemma_position_is(t, other, i);
        },
        None => {
            lemma_position_none(t, other);
        },
    }
}

/// The entity that is settled at an identifier has that identifier.
pub proof fn lemma_settled<E: Identified>(s: Seq<E>, id: Seq<char>)
    ensures
        settled(s, id).id() == id,
        position(ensure(s, id), id) is Some,
{
    lemma_ensure(s, id);
    lemma_position(ensure(s, id), id);
}

/// Amending a list twice at the same identifier is amending it once with
/// the second entity, which finds the first in the place of the entity.
/// Amending a list with the entity that it holds only adds that entity where
/// it was missing.
pub proof fn lemma_amended<E: Identified>(s: Seq<E>, id: Seq<char>, entity: E, next: E)
    requires
        entity.id() == id,
        next.id() == id,
    ensures
        settled(s, id).id() == id,
        position(amended(s, id, entity), id) is Some,
        ensure(amended(s, id, entity), id) == amended(s, id, entity),
        settled(amended(s, id, entity), id) == entity,
        amended(amended(s, id, entity), id, next) == amended(s, id, next),
        amended(s, id, settled(s, id)) == ensure(s, id),
        settled(ensure(s, id), id) == settled(s, id),
        amended(ensure(s, id), id, entity) == amended(s, id, entity),
{
    let listed = ensure(s, id);
    lemma_ensure(s, id);
    lemma_position(listed, id);
    let at = position(listed, id)->0;
    let first = amended(s, id, entity);
    lemma_replace(listed, id, entity, id);
    lemma_position(first, id);
    assert(first[at] == entity);
    assert(amended(first, id, next) =~= amended(s, id, next));
    assert(amended(s, id, settled(s, id)) =~= listed);
}

/// Amending a list at one identifier leaves what is found at every other
/// identifier as it was.
pub proof fn lemma_amended_other<E: Identified>(
    s: Seq<E>,
    id: Seq<char>,
    entity: E,
    other: Seq<char>,
)
    requires
        entity.id() == id,
        other != id,
    ensures
        lookup(amended(s, id, entity), other) == lookup(s, other),
        lookup(ensure(s, id), other) == lookup(s, other),
{
    let listed = ensure(s, id);
    E::lemma_fresh_id(id);
    lemma_position(s, other);
    lemma_position(s, id);
    lemma_position(listed, other);
    lemma_position(listed, id);
    lemma_replace(listed, id, entity, other);
    match position(s, other) {
        Some(i) => {
            assert(listed[i] == s[i]);
            lemma_position_is(listed, other, i);
        },
        None => {
            assert forall|j: int| 0 <= j < listed.len() implies (#[trigger] listed[j]).id()
                != other by {
                if j < s.len() {
                    assert(listed[j] == s[j]);
                }
            }
            lemma_position_none(listed, other);
        },
    }
}

/// What `kept` keeps: each entity of the result is an entity of `s` whose
/// identifier is listed, an identifier has a position in the result exactly
/// if it is listed and has one in `s`, and the result has no identifier
/// twice if `s` has none twice.
pub proof fn lemma_kept<E: Identified>(s: Seq<E>, ids: Seq<Seq<char>>)
    ensures
        kept(s, ids).len() <= s.len(),
        forall|j: int|
            0 <= j < kept(s, ids).len() ==> s.contains(#[trigger] kept(s, ids)[j]) && ids.contains(
                kept(s, ids)[j].id(),
            ),
        forall|i: int|
            0 <= i < s.len() && ids.contains(s[i].id()) ==> kept(s, ids).contains(#[trigger] s[i]),
        distinct(s) ==> distinct(kept(s, ids)),
    decreases s.len(),
{
    if s.len() > 0 {
        let init = s.drop_last();
        let k = kept(init, ids);
        let r = kept(s, ids);
        lemma_kept(init, ids);
        assert forall|j: int| 0 <= j < r.len() implies s.contains(#[trigger] r[j]) && ids.contains(
            r[j].id(),
        ) by {
            if j < k.len() {
                assert(r[j] == k[j]);
                assert(init.contains(k[j]));
                let i = choose|i: int| 0 <= i < init.len() && init[i] == k[j];
                assert(s[i] == k[j]);
            } else {
                assert(r[j] == s.last());
                assert(s[s.len() - 1] == s.last());
            }
        }
        assert forall|i: int| 0 <= i < s.len() && ids.contains(s[i].id()) implies r.contains(
            #[trigger] s[i],
        ) by {
            if i < init.len() {
                assert(init[i] == s[i]);
                assert(k.contains(init[i]));
                let j = choose|j: int| 0 <= j < k.len() && k[j] == init[i];
                assert(r[j] == s[i]);
            } else {
                assert(r[r.len() - 1] == s[i]);
            }
        }
        if distinct(s) {
            assert(distinct(init)) by {
                assert forall|a: int, b: int| 0 <= a < b < init.len() implies (#[trigger] init[a]).id()
                    != (#[trigger] init[b]).id() by {
                    assert(init[a] == s[a] && init[b] == s[b]);
                }
            }
            assert forall|a: int, b: int| 0 <= a < b < r.len() implies (#[trigger] r[a]).id() != (
            #[trigger] r[b]).id() by {
                if b < k.len() {
                    assert(r[a] == k[a] && r[b] == k[b]);
                } else {
                    assert(r[b] == s.last());
                    assert(r[a] == k[a]);
                    assert(init.contains(k[a]));
                    let i = choose|i: int| 0 <= i < init.len() && init[i] == k[a];
                    assert(s[i] == k[a]);
                    assert(s[s.len() - 1] == s.last());
                }
            }
        }
    }
}

/// What `with_all` adds: the result starts with `s`, each entity after that
/// is fresh and has a listed identifier, each listed identifier has a
/// position in the result, and the result has no identifier twice if `s` has
/// none twice.
pub proof fn lemma_with_all<E: Identified>(s: Seq<E>, ids: Seq<Seq<char>>)
    ensures
        with_all(s, ids).len() >= s.len(),
        with_all(s, ids).take(s.len() as int) == s,
        forall|j: int|
            s.len() <= j < with_all(s, ids).len() ==> (#[trigger] with_all(s, ids)[j]) == E::fresh(
                with_all(s, ids)[j].id(),
            ) && ids.contains(with_all(s, ids)[j].id()),
        forall|i: int|
            0 <= i < ids.len() ==> position(with_all(s, ids), #[trigger] ids[i]) is Some,
        distinct(s) ==> distinct(with_all(s, ids)),
    decreases ids.len(),
{
    if ids.len() == 0 {
        assert(s.take(s.len() as int) =~= s);
    } else {
        let init = ids.drop_last();
        let w = with_all(s, init);
        let r = with_all(s, ids);
        let id = ids.last();
        lemma_with_all(s, init);
        lemma_ensure(w, id);
        lemma_position(w, id);
        E::lemma_fresh_id(id);
        assert(r.take(s.len() as int) =~= w.take(s.len() as int));
        assert forall|j: int| s.len() <= j < r.len() implies (#[trigger] r[j]) == E::fresh(
            r[j].id(),
        ) && ids.contains(r[j].id()) by {
            if j < w.len() {
                assert(r[j] == w[j]);
                assert(init.contains(w[j].id()));
                let i = choose|i: int| 0 <= i < init.len() && init[i] == w[j].id();
                assert(ids[i] == w[j].id());
            } else {
                assert(r[j] == E::fresh(id));
                assert(ids[ids.len() - 1] == id);
            }
        }
        assert forall|i: int| 0 <= i < ids.len() implies position(r, #[trigger] ids[i]) is Some by {
            if i < init.len() {
                assert(init[i] == ids[i]);
                lemma_position(w, ids[i]);
                lemma_position(r, ids[i]);
                let at = position(w, ids[i])->0;
                assert(r[at] == w[at]);
            }
        }
    }
}

/// What a restricted list holds: each of its entities is an entity of `s` or
/// a fresh one with a listed identifier, and no identifier occurs twice in
/// it if none occurs twice in `s`.
pub proof fn lemma_restricted<E: Identified>(s: Seq<E>, ids: Seq<Seq<char>>)
    ensures
        forall|j: int|
            0 <= j < restricted(s, ids).len() ==> s.contains(#[trigger] restricted(s, ids)[j]) || (
            restricted(s, ids)[j] == E::fresh(restricted(s, ids)[j].id()) && ids.contains(
                restricted(s, ids)[j].id(),
            )),
        distinct(s) ==> distinct(restricted(s, ids)),
{
    let k = kept(s, ids);
    let r = restricted(s, ids);
    lemma_kept(s, ids);
    lemma_with_all(k, ids);
    assert forall|j: int| 0 <= j < r.len() implies s.contains(#[trigger] r[j]) || (r[j] == E::fresh(
        r[j].id(),
    ) && ids.contains(r[j].id())) by {
        if j < k.len() {
            assert(r.take(k.len() as int)[j] == r[j]);
            assert(r[j] == k[j]);
        }
    }
}

/// What is found in a restricted list: an entity that is listed and was
/// held is found as it was, one that is listed and was not held is found
/// fresh, and one that is not listed is not found.
pub proof fn lemma_restricted_lookup<E: Identified>(s: Seq<E>, ids: Seq<Seq<char>>, id: Seq<char>)
    ensures
        lookup(restricted(s, ids), id) == if !ids.contains(id) {
            None
        } else if position(s, id) is Some {
            lookup(s, id)
        } else {
            Some(E::fresh(id))
        },
{
    if ids.contains(id) {
        lemma_restricted_lookup_listed(s, ids, id);
    } else {
        let r = restricted(s, ids);
        lemma_restricted(s, ids);
        lemma_kept(s, ids);
        lemma_with_all(kept(s, ids), ids);
        lemma_position(r, id);
        if position(r, id) is Some {
            let at = position(r, id)->0;
            if at < kept(s, ids).len() {
                assert(r.take(kept(s, ids).len() as int)[at] == r[at]);
                assert(r[at] == kept(s, ids)[at]);
            }
            assert(ids.contains(r[at].id()));
        }
    }
}

/// An entity that is listed and held stays what it is when the list is
/// restricted, and one that is listed but not held becomes a fresh one.
proof fn lemma_restricted_lookup_listed<E: Identified>(
    s: Seq<E>,
    ids: Seq<Seq<char>>,
    id: Seq<char>,
)
    requires
        ids.contains(id),
    ensures
        lookup(restricted(s, ids), id) == if position(s, id) is Some {
            lookup(s, id)
        } else {
            Some(E::fresh(id))
        },
{
    let k = kept(s, ids);
    let r = restricted(s, ids);
    lemma_kept_lookup(s, ids, id);
    lemma_with_all(k, ids);
    lemma_position(k, id);
    lemma_position(r, id);
    lemma_position(s, id);
    let i = choose|i: int| 0 <= i < ids.len() && ids[i] == id;
    assert(position(r, ids[i]) is Some);
    let at = position(r, id)->0;
    assert forall|j: int| 0 <= j < k.len() implies r[j] == k[j] by {
        assert(r.take(k.len() as int)[j] == r[j]);
    }
    if position(k, id) is Some {
        let pk = position(k, id)->0;
        assert(r[pk] == k[pk]);
        if at < pk {
            assert(r[at] == k[at]);
        }
    } else {
        if at < k.len() {
            assert(r[at] == k[at]);
        }
    }
}

/// The first entity with a listed identifier is the same before and after
/// `kept`.
pub proof fn lemma_kept_lookup<E: Identified>(s: Seq<E>, ids: Seq<Seq<char>>, id: Seq<char>)
    requires
        ids.contains(id),
    ensures
        lookup(kept(s, ids), id) == lookup(s, id),
    decreases s.len(),
{
    if s.len() > 0 {
        let init = s.drop_last();
        lemma_kept_lookup(init, ids, id);
        lemma_position(init, id);
        lemma_position(kept(init, ids), id);
        lemma_position(s, id);
        lemma_position(kept(s, ids), id);
        let k = kept(init, ids);
        let r = kept(s, ids);
        match position(init, id) {
            Some(i) => {
                let pk = position(k, id)->0;
                assert(init[i] == s[i]);
                assert(r[pk] == k[pk]);
                assert(position(s, id) == Some(i));
                assert forall|j: int| 0 <= j < pk implies (#[trigger] r[j]).id() != id by {
                    assert(r[j] == k[j]);
                }
                lemma_position_is(r, id, pk);
            },
            None => {
                assert(position(k, id) is None);
                if s.last().id() == id {
                    assert forall|j: int| 0 <= j < k.len() implies (#[trigger] r[j]).id() != id by {
                        assert(r[j] == k[j]);
                    }
                    lemma_position_is(r, id, k.len() as int);
                } else {
                    assert forall|j: int| 0 <= j < r.len() implies (#[trigger] r[j]).id() != id by {
                        if j < k.len() {
                            assert(r[j] == k[j]);
                        }
                    }
                    lemma_position_none(r, id);
                }
            },
        }
    }
}

/// Restricting a list to the same identifiers twice gives what restricting
/// it once gives.
pub proof fn lemma_restricted_idempotent<E: Identified>(s: Seq<E>, ids: Seq<Seq<char>>)
    ensures
        restricted(restricted(s, ids), ids) == restricted(s, ids),
{
    let k = kept(s, ids);
    let r = restricted(s, ids);
    lemma_kept(s, ids);
    lemma_with_all(k, ids);
    assert forall|j: int| 0 <= j < r.len() implies ids.contains((#[trigger] r[j]).id()) by {
        if j < k.len() {
            assert(r.take(k.len() as int)[j] == r[j]);
            assert(r[j] == k[j]);
        }
    }
    lemma_kept_all(r, ids);
    lemma_with_all_present(r, ids);
}

/// A list whose identifiers are all listed is kept whole.
pub proof fn lemma_kept_all<E: Identified>(s: Seq<E>, ids: Seq<Seq<char>>)
    requires
        forall|j: int| 0 <= j < s.len() ==> ids.contains((#[trigger] s[j]).id()),
    ensures
        kept(s, ids) == s,
    decreases s.len(),
{
    if s.len() > 0 {
        let init = s.drop_last();
        assert forall|j: int| 0 <= j < init.len() implies ids.contains((#[trigger] init[j]).id()) by {
            assert(init[j] == s[j]);
        }
        lemma_kept_all(init, ids);
        assert(s[s.len() - 1] == s.last());
        assert(init.push(s.last()) =~= s);
    } else {
        assert(kept(s, ids) =~= s);
    }
}

/// Nothing is added to a list that holds an entity for each identifier
/// listed.
pub proof fn lemma_with_all_present<E: Identified>(s: Seq<E>, ids: Seq<Seq<char>>)
    requires
        forall|i: int| 0 <= i < ids.len() ==> position(s, #[trigger] ids[i]) is Some,
    ensures
        with_all(s, ids) == s,
    decreases ids.len(),
{
    if ids.len() > 0 {
        let init = ids.drop_last();
        assert forall|i: int| 0 <= i < init.len() implies position(s, #[trigger] init[i]) is Some by {
            assert(init[i] == ids[i]);
        }
        lemma_with_all_present(s, init);
        assert(ids[ids.len() - 1] == ids.last());
    }
}

/// The index of the first entity of `v` with the identifier `id`.
pub fn find<T: Entity>(v: &Vec<T>, id: &str) -> (at: Option<usize>) where T::V: Identified
    ensures
        match at {
            Some(i) => i < v.len() && position(view_all(v@), id@) == Some(i as int),
            None => position(view_all(v@), id@) is None,
        },
{
    let mut i: usize = 0;
    while i < v.len()
        invariant
            i <= v.len(),
            forall|j: int| 0 <= j < i ==> (#[trigger] view_all(v@)[j]).id() != id@,
        decreases v.len() - i,
    {
        if same_text(v[i].id().as_str(), id) {
            proof {
                lemma_position_is(view_all(v@), id@, i as int);
            }
            return Some(i);
        }
        i = i + 1;
    }
    proof {
        lemma_position_none(view_all(v@), id@);
    }
    None
}

/// Finds the first entity of `v` with the identifier `id`, adding a fresh
/// one at the end if there is none. Returns its index, and whether it was
/// added.
pub fn find_or_add<T: Entity>(v: &mut Vec<T>, id: &str) -> (found: (usize, bool)) where
    T::V: Identified,

    ensures
        view_all(final(v)@) == ensure(view_all(old(v)@), id@),
        found.0 < final(v).len(),
        position(view_all(final(v)@), id@) == Some(found.0 as int),
        found.1 == (position(view_all(old(v)@), id@) is None),
        view_all(final(v)@)[found.0 as int].id() == id@,
{
    match find(v, id) {
        Some(i) => {
            proof {
                lemma_position(view_all(v@), id@);
            }
            (i, false)
        },
        None => {
            let entity = T::fresh(id);
            let ghost before = view_all(v@);
            v.push(entity);
            proof {
                assert(view_all(v@) =~= before.push(entity@));
                T::V::lemma_fresh_id(id@);
                lemma_position(before, id@);
                lemma_position(view_all(v@), id@);
                lemma_position_is(view_all(v@), id@, before.len() as int);
            }
            (v.len() - 1, true)
        },
    }
}

/// Whether `id` is among `ids`.
pub fn listed(ids: &Vec<String>, id: &str) -> (found: bool)
    ensures
        found == views(ids@).contains(id@),
{
    let mut i: usize = 0;
    while i < ids.len()
        invariant
            i <= ids.len(),
            forall|j: int| 0 <= j < i ==> (#[trigger] views(ids@)[j]) != id@,
        decreases ids.len() - i,
    {
        if same_text(ids[i].as_str(), id) {
            proof {
                assert(views(ids@)[i as int] == id@);
            }
            return true;
        }
        i = i + 1;
    }
    false
}

/// Restricts a list of entities to those named by `ids`, and adds a fresh
/// entity for each of `ids` that names none. Returns the new list, the
/// identifiers of the entities that were left out, and the identifiers of
/// those that were added.
pub fn restrict<T: Entity>(v: Vec<T>, ids: &Vec<String>) -> (r: (Vec<T>, Vec<String>, Vec<String>))
    where T::V: Identified
    ensures
        view_all(r.0@) == restricted(view_all(v@), views(ids@)),
        views(r.1@) == dropped(view_all(v@), views(ids@)),
        views(r.2@) == added(view_all(v@), views(ids@)),
{
    let ghost given = view_all(v@);
    let ghost names = views(ids@);
    let mut entities: Vec<T> = Vec::new();
    let mut removed: Vec<String> = Vec::new();
    proof {
        assert(given.take(0) =~= Seq::<T::V>::empty());
        assert(view_all(entities@) =~= kept(given.take(0), names));
        assert(views(removed@) =~= dropped(given.take(0), names));
    }
    for entity in it: v
        invariant
            it.seq() == v@,
            given == view_all(v@),
            names == views(ids@),
            view_all(entities@) == kept(given.take(it.index()), names),
            views(removed@) == dropped(given.take(it.index()), names),
    {
        proof {
            let next = given.take(it.index() + 1);
            assert(next.drop_last() =~= given.take(it.index()));
            assert(next.last() == entity@);
        }
        if listed(ids, entity.id().as_str()) {
            proof {
                assert(view_all(entities@.push(entity)) =~= view_all(entities@).push(entity@));
            }
            entities.push(entity);
        } else {
            let id = entity.id().clone();
            proof {
                assert(views(removed@.push(id)) =~= views(removed@).push(id@));
            }
            removed.push(id);
        }
    }
    proof {
        assert(given.take(v@.len() as int) =~= given);
    }
    let ghost base = view_all(entities@);
    let mut created: Vec<String> = Vec::new();
    let mut i: usize = 0;
    proof {
        assert(names.take(0) =~= Seq::<Seq<char>>::empty());
        assert(view_all(entities@).skip(base.len() as int) =~= Seq::<T::V>::empty());
        assert(views(created@) =~= ids_of(view_all(entities@).skip(base.len() as int)));
    }
    while i < ids.len()
        invariant
            i <= ids.len(),
            names == views(ids@),
            base == kept(given, names),
            view_all(entities@) == with_all(base, names.take(i as int)),
            base.len() <= entities.len(),
            views(created@) == ids_of(view_all(entities@).skip(base.len() as int)),
        decreases ids.len() - i,
    {
        proof {
            assert(names.take(i + 1).drop_last() =~= names.take(i as int));
            assert(names.take(i + 1).last() == ids@[i as int]@);
        }
        let ghost before = view_all(entities@);
        let (_, fresh) = find_or_add(&mut entities, ids[i].as_str());
        if fresh {
            let id = ids[i].clone();
            proof {
                let after = view_all(entities@);
                lemma_position(before, id@);
                let fresh_id = after[before.len() as int].id();
                assert(fresh_id == id@);
                assert(after.skip(base.len() as int) =~= before.skip(base.len() as int).push(
                    after[before.len() as int],
                ));
                assert(ids_of(after.skip(base.len() as int)) =~= ids_of(
                    before.skip(base.len() as int),
                ).push(id@));
                assert(views(created@.push(id)) =~= views(created@).push(id@));
            }
            created.push(id);
        }
        i = i + 1;
    }
    proof {
        assert(names.take(ids.len() as int) =~= names);
    }
    (entities, removed, created)
}

} // verus!
