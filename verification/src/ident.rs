//! The grammar of topic identifiers.
//!
//! Devices, nodes and properties are each named by one topic segment: a
//! non-empty run of lowercase letters, digits and hyphens that neither starts
//! nor ends with a hyphen.

use vstd::prelude::*;

use crate::text::{chars_of, views};

verus! {

/// Whether `c` may occur in an identifier.
pub open spec fn is_id_char(c: char) -> bool {
    ('a' <= c && c <= 'z') || ('0' <= c && c <= '9') || c == '-'
}

/// Whether `s` is a legal identifier.
pub open spec fn is_valid_id(s: Seq<char>) -> bool {
    &&& s.len() > 0
    &&& forall|i: int| 0 <= i < s.len() ==> is_id_char(#[trigger] s[i])
    &&& s.first() != '-'
    &&& s.last() != '-'
}

/// A legal identifier contains neither a topic separator nor a list
/// separator, and does not start like an attribute.
pub proof fn lemma_valid_id_is_plain(s: Seq<char>)
    requires
        is_valid_id(s),
    ensures
        !s.contains('/'),
        !s.contains(','),
        s.first() != '$',
{
    if s.contains('/') {
        let i = choose|i: int| 0 <= i < s.len() && s[i] == '/';
        assert(is_id_char(s[i]));
    }
    if s.contains(',') {
        let i = choose|i: int| 0 <= i < s.len() && s[i] == ',';
        assert(is_id_char(s[i]));
    }
    assert(is_id_char(s[0]));
}

/// The first of `ids` that is not a legal identifier.
pub open spec fn first_invalid(ids: Seq<Seq<char>>) -> Option<Seq<char>>
    decreases ids.len(),
{
    if ids.len() == 0 {
        None
    } else {
        match first_invalid(ids.drop_last()) {
            Some(id) => Some(id),
            None => if is_valid_id(ids.last()) {
                None
            } else {
                Some(ids.last())
            },
        }
    }
}

/// How `first_invalid` goes on when one more identifier follows.
pub proof fn lemma_first_invalid_push(ids: Seq<Seq<char>>, id: Seq<char>)
    ensures
        first_invalid(ids.push(id)) == match first_invalid(ids) {
            Some(bad) => Some(bad),
            None => if is_valid_id(id) {
                None
            } else {
                Some(id)
            },
        },
{
    assert(ids.push(id).drop_last() =~= ids);
}

/// Where `first_invalid` finds nothing, every identifier is legal.
pub proof fn lemma_all_valid(ids: Seq<Seq<char>>)
    requires
        first_invalid(ids) is None,
    ensures
        forall|i: int| 0 <= i < ids.len() ==> is_valid_id(#[trigger] ids[i]),
    decreases ids.len(),
{
    if ids.len() > 0 {
        lemma_all_valid(ids.drop_last());
        assert forall|i: int| 0 <= i < ids.len() implies is_valid_id(#[trigger] ids[i]) by {
            if i < ids.len() - 1 {
                assert(ids.drop_last()[i] == ids[i]);
            }
        }
    }
}

/// Whether `c` may occur in an identifier.
pub fn id_char(c: char) -> (ok: bool)
    ensures
        ok == is_id_char(c),
{
    ('a' <= c && c <= 'z') || ('0' <= c && c <= '9') || c == '-'
}

/// Checks `id` against the identifier grammar.
pub fn is_valid(id: &str) -> (ok: bool)
    ensures
        ok == is_valid_id(id@),
{
    let chars = chars_of(id);
    let n = chars.len();
    if n == 0 {
        return false;
    }
    if chars[0] == '-' || chars[n - 1] == '-' {
        return false;
    }
    let mut i: usize = 0;
    while i < n
        invariant
            chars@ == id@,
            n == chars.len(),
            i <= n,
            forall|j: int| 0 <= j < i ==> is_id_char(#[trigger] chars@[j]),
        decreases n - i,
    {
        if !id_char(chars[i]) {
            return false;
        }
        i = i + 1;
    }
    true
}

/// Finds the first of `ids` that is not a legal identifier.
pub fn find_invalid(ids: &Vec<String>) -> (bad: Option<usize>)
    ensures
        match bad {
            Some(i) => i < ids.len() && first_invalid(views(ids@)) == Some(ids[i as int]@),
            None => first_invalid(views(ids@)) is None,
        },
{
    let ghost names = views(ids@);
    let mut i: usize = 0;
    proof {
        assert(names.take(0) =~= Seq::<Seq<char>>::empty());
    }
    while i < ids.len()
        invariant
            i <= ids.len(),
            names == views(ids@),
            first_invalid(names.take(i as int)) is None,
        decreases ids.len() - i,
    {
        proof {
            assert(names.take(i + 1).drop_last() =~= names.take(i as int));
            assert(names.take(i + 1).last() == ids[i as int]@);
        }
        if !is_valid(ids[i].as_str()) {
            proof {
                lemma_first_invalid_found(names, i + 1);
            }
            return Some(i);
        }
        i = i + 1;
    }
    proof {
        assert(names.take(ids.len() as int) =~= names);
    }
    None
}

/// An illegal identifier that is found among the first `n` of `ids` is the
/// first illegal one of them all.
proof fn lemma_first_invalid_found(ids: Seq<Seq<char>>, n: int)
    requires
        0 <= n <= ids.len(),
        first_invalid(ids.take(n)) is Some,
    ensures
        first_invalid(ids) == first_invalid(ids.take(n)),
    decreases ids.len() - n,
{
    if n == ids.len() {
        assert(ids.take(n) =~= ids);
    } else {
        assert(ids.take(n + 1).drop_last() =~= ids.take(n));
        lemma_first_invalid_found(ids, n + 1);
    }
}

} // verus!
