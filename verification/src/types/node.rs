//! Nodes of a device.

use vstd::prelude::*;

use crate::error::{opt_error_view, Error, ErrorKind, ErrorView};
use crate::ident::{find_invalid, first_invalid, is_valid_id, lemma_all_valid};
use crate::text::{opt_view, split, split_text, views};
use crate::types::entity::{
    added, amended, distinct, dropped, ensure, find, find_or_add, lemma_amended,
    lemma_amended_other, lemma_ensure,
    lemma_settled,
    lemma_position, lemma_replace, lemma_restricted, lemma_restricted_idempotent,
    lemma_restricted_lookup, lookup,
    position, replace, restrict, restricted, settled, view_all, Entity, Identified,
};
use crate::types::property::{lemma_property_after, Property, PropertyAttribute, PropertyView};

verus! {

/// A node of a device.
///
/// All attributes are required, but may not be known yet when the node is
/// first heard of.
#[derive(Clone, Debug, PartialEq, Eq)]
pub struct Node {
    /// The identifier of the node, unique within its device.
    pub id: String,
    /// The human-readable name of the node.
    pub name: Option<String>,
    /// The type of the node: any text.
    pub node_type: Option<String>,
    /// The properties of the node, each found by its identifier. There
    /// should be at least one. Where two have the same identifier, the first
    /// is the one that is found; a controller never holds such a node.
    pub properties: Vec<Property>,
}

/// The attributes of a node that a topic can address.
#[derive(Clone, Copy, Debug, PartialEq, Eq, Structural)]
pub enum NodeAttribute {
    Name,
    Type,
    /// The identifiers of the node's properties, with commas between them.
    Properties,
}

/// What a [`Node`] holds.
pub struct NodeView {
    pub id: Seq<char>,
    pub name: Option<Seq<char>>,
    pub node_type: Option<Seq<char>>,
    pub properties: Seq<PropertyView>,
}

impl View for Node {
    type V = NodeView;

    open spec fn view(&self) -> NodeView {
        NodeView {
            id: self.id@,
            name: opt_view(self.name),
            node_type: opt_view(self.node_type),
            properties: view_all(self.properties@),
        }
    }
}

impl NodeView {
    /// The node `id` of which nothing has been announced.
    pub open spec fn new(id: Seq<char>) -> NodeView {
        NodeView { id, name: None, node_type: None, properties: Seq::empty() }
    }

    /// Whether the required attributes of the node and of its properties are
    /// known: the name, the type, and at least one property, all of them
    /// complete.
    pub open spec fn complete(self) -> bool {
        &&& self.name is Some
        &&& self.node_type is Some
        &&& self.properties.len() > 0
        &&& forall|i: int| 0 <= i < self.properties.len() ==> (#[trigger] self.properties[i]).complete()
    }

    /// Whether the node and its properties have legal identifiers, and no two
    /// properties the same.
    pub open spec fn well_formed(self) -> bool {
        &&& is_valid_id(self.id)
        &&& distinct(self.properties)
        &&& forall|i: int|
            0 <= i < self.properties.len() ==> is_valid_id((#[trigger] self.properties[i]).id)
    }

    /// The node after `payload` was announced for `attribute`.
    ///
    /// A name or a type is taken as it is. A list of properties makes the
    /// node hold a property for each identifier listed and no other:
    /// properties that are listed stay as they are, and one that is listed
    /// but not known yet is added with nothing known of it. A list of which
    /// one piece is not a legal identifier gives an error that holds that
    /// piece.
    pub open spec fn with(self, attribute: NodeAttribute, payload: Seq<char>) -> Result<
        NodeView,
        ErrorView,
    > {
        match attribute {
            NodeAttribute::Name => Ok(NodeView { name: Some(payload), ..self }),
            NodeAttribute::Type => Ok(NodeView { node_type: Some(payload), ..self }),
            NodeAttribute::Properties => match first_invalid(split(payload, ',')) {
                Some(id) => Err(ErrorView { kind: ErrorKind::InvalidIdentifier, input: id }),
                None => Ok(
                    NodeView {
                        properties: restricted(self.properties, split(payload, ',')),
                        ..self
                    },
                ),
            },
        }
    }

    /// The identifiers of the properties that leave the node when `payload`
    /// is announced for `attribute`.
    pub open spec fn removed_by(self, attribute: NodeAttribute, payload: Seq<char>) -> Seq<
        Seq<char>,
    > {
        if attribute == NodeAttribute::Properties && self.with(attribute, payload) is Ok {
            dropped(self.properties, split(payload, ','))
        } else {
            Seq::empty()
        }
    }

    /// The identifiers of the properties that are added to the node when
    /// `payload` is announced for `attribute`.
    pub open spec fn added_by(self, attribute: NodeAttribute, payload: Seq<char>) -> Seq<
        Seq<char>,
    > {
        if attribute == NodeAttribute::Properties && self.with(attribute, payload) is Ok {
            added(self.properties, split(payload, ','))
        } else {
            Seq::empty()
        }
    }

    /// The node with the property `property_id` added, with nothing known of
    /// it, unless the node has it already.
    pub open spec fn with_property(self, property_id: Seq<char>) -> NodeView {
        NodeView { properties: ensure(self.properties, property_id), ..self }
    }

    /// The node after `payload` was announced for `attribute` of its property
    /// `property_id`, and the error of that announcement. The property is
    /// added first if the node has none of that identifier; on an error it
    /// stays as it was, or as it was added.
    pub open spec fn with_property_attribute(
        self,
        property_id: Seq<char>,
        attribute: PropertyAttribute,
        payload: Seq<char>,
    ) -> (NodeView, Option<ErrorView>) {
        let node = self.with_property(property_id);
        match lookup(node.properties, property_id) {
            Some(property) => match property.with(attribute, payload) {
                Ok(property) => (
                    NodeView { properties: replace(node.properties, property_id, property), ..node },
                    None,
                ),
                Err(error) => (node, Some(error)),
            },
            None => (node, None),
        }
    }
}

impl NodeView {
    /// The node after `payload` was announced for `attribute`, whether the
    /// payload was taken or not: a payload that gives an error leaves the
    /// node as it was.
    pub open spec fn after(self, attribute: NodeAttribute, payload: Seq<char>) -> NodeView {
        match self.with(attribute, payload) {
            Ok(node) => node,
            Err(_) => self,
        }
    }
}

impl Identified for NodeView {
    open spec fn id(self) -> Seq<char> {
        self.id
    }

    open spec fn fresh(id: Seq<char>) -> NodeView {
        NodeView::new(id)
    }

    proof fn lemma_fresh_id(id: Seq<char>) {
    }
}

/// Two empty lists of identifiers.
pub(crate) fn no_changes() -> (changes: (Vec<String>, Vec<String>))
    ensures
        views(changes.0@) == Seq::<Seq<char>>::empty(),
        views(changes.1@) == Seq::<Seq<char>>::empty(),
{
    let removed: Vec<String> = Vec::new();
    let created: Vec<String> = Vec::new();
    proof {
        assert(views(removed@) =~= Seq::<Seq<char>>::empty());
        assert(views(created@) =~= Seq::<Seq<char>>::empty());
    }
    (removed, created)
}

impl Node {
    /// Creates the node `id`, with nothing known of it yet.
    pub fn new(id: &str) -> (node: Node)
        ensures
            node@ == NodeView::new(id@),
    {
        let node = Node { id: id.to_owned(), name: None, node_type: None, properties: Vec::new() };
        assert(node@.properties =~= Seq::empty());
        node
    }

    /// Returns whether the required attributes of the node and of its
    /// properties are known.
    pub fn has_required_attributes(&self) -> (complete: bool)
        ensures
            complete == self@.complete(),
    {
        if self.name.is_none() || self.node_type.is_none() || self.properties.len() == 0 {
            return false;
        }
        let mut i: usize = 0;
        while i < self.properties.len()
            invariant
                i <= self.properties.len(),
                forall|j: int| 0 <= j < i ==> (#[trigger] self@.properties[j]).complete(),
            decreases self.properties.len() - i,
        {
            if !self.properties[i].has_required_attributes() {
                assert(!self@.properties[i as int].complete());
                return false;
            }
            i = i + 1;
        }
        true
    }

    /// The property `id` of the node, if it has one.
    pub fn property(&self, id: &str) -> (property: Option<&Property>)
        ensures
            match lookup(self@.properties, id@) {
                Some(found) => property matches Some(p) && p@ == found,
                None => property is None,
            },
    {
        match find(&self.properties, id) {
            Some(i) => Some(&self.properties[i]),
            None => None,
        }
    }

    /// Records that `payload` was announced for `attribute`. Returns the
    /// identifiers of the properties that left the node and of those that
    /// were added to it. On an error the node is left as it was.
    pub fn set_attribute(&mut self, attribute: NodeAttribute, payload: &str) -> (result: Result<
        (Vec<String>, Vec<String>),
        Error,
    >)
        ensures
            match old(self)@.with(attribute, payload@) {
                Ok(node) => {
                    &&& final(self)@ == node
                    &&& result matches Ok(changes)
                    &&& views(changes.0@) == old(self)@.removed_by(attribute, payload@)
                    &&& views(changes.1@) == old(self)@.added_by(attribute, payload@)
                },
                Err(error) => result matches Err(e) && e@ == error && final(self)@ == old(self)@,
            },
    {
        match attribute {
            NodeAttribute::Name => {
                self.name = Some(payload.to_owned());
            },
            NodeAttribute::Type => {
                self.node_type = Some(payload.to_owned());
            },
            NodeAttribute::Properties => {
                let ids = split_text(payload, ',');
                match find_invalid(&ids) {
                    Some(i) => {
                        return Err(Error::new(ErrorKind::InvalidIdentifier, ids[i].as_str()));
                    },
                    None => {},
                }
                let mut properties: Vec<Property> = Vec::new();
                core::mem::swap(&mut self.properties, &mut properties);
                let (properties, removed, created) = restrict(properties, &ids);
                self.properties = properties;
                return Ok((removed, created));
            },
        }
        Ok(no_changes())
    }

    /// Records that `payload` was announced for `attribute` of the property
    /// `property_id`, which is added first if the node has none of that
    /// identifier. Returns whether the property was added, and the error of
    /// the announcement if there was one.
    pub fn set_property_attribute(
        &mut self,
        property_id: &str,
        attribute: PropertyAttribute,
        payload: &str,
    ) -> (result: (bool, Option<Error>))
        ensures
            final(self)@ == old(self)@.with_property_attribute(property_id@, attribute, payload@).0,
            opt_error_view(result.1) == old(self)@.with_property_attribute(
                property_id@,
                attribute,
                payload@,
            ).1,
            result.0 == (position(old(self)@.properties, property_id@) is None),
    {
        let ghost before = self@;
        let (i, created) = find_or_add(&mut self.properties, property_id);
        let ghost listed = view_all(self.properties@);
        proof {
            assert(self@ == before.with_property(property_id@));
            lemma_position(listed, property_id@);
        }
        let result = self.properties[i].set_attribute(attribute, payload);
        proof {
            assert(view_all(self.properties@) =~= listed.update(i as int, self.properties[i as int]@));
        }
        match result {
            Ok(()) => (created, None),
            Err(error) => {
                proof {
                    assert(view_all(self.properties@) =~= listed);
                }
                (created, Some(error))
            },
        }
    }
}

impl Entity for Node {
    fn id(&self) -> (id: &String) {
        &self.id
    }

    fn fresh(id: &str) -> (node: Node) {
        Node::new(id)
    }
}

/// An announcement for an attribute of a well-formed node leaves it
/// well-formed, with the identifier that it had.
pub proof fn lemma_node_with_well_formed(
    node: NodeView,
    attribute: NodeAttribute,
    payload: Seq<char>,
)
    requires
        node.well_formed(),
    ensures
        node.with(attribute, payload) matches Ok(after) ==> after.well_formed() && after.id
            == node.id,
{
    if attribute == NodeAttribute::Properties && node.with(attribute, payload) is Ok {
        let ids = split(payload, ',');
        let after = restricted(node.properties, ids);
        lemma_all_valid(ids);
        lemma_restricted(node.properties, ids);
        assert forall|j: int| 0 <= j < after.len() implies is_valid_id((#[trigger] after[j]).id) by {
            if node.properties.contains(after[j]) {
                let i = choose|i: int|
                    0 <= i < node.properties.len() && node.properties[i] == after[j];
                assert(is_valid_id(node.properties[i].id));
            } else {
                let i = choose|i: int| 0 <= i < ids.len() && ids[i] == after[j].id();
                assert(is_valid_id(ids[i]));
            }
        }
    }
}

/// An announcement for an attribute of a property of a well-formed node
/// leaves the node well-formed, with the identifier that it had, if the
/// identifier of the property is legal.
pub proof fn lemma_node_with_property_attribute_well_formed(
    node: NodeView,
    property_id: Seq<char>,
    attribute: PropertyAttribute,
    payload: Seq<char>,
)
    requires
        node.well_formed(),
        is_valid_id(property_id),
    ensures
        node.with_property_attribute(property_id, attribute, payload).0.well_formed(),
        node.with_property_attribute(property_id, attribute, payload).0.id == node.id,
{
    let listed = ensure(node.properties, property_id);
    lemma_ensure(node.properties, property_id);
    lemma_position(node.properties, property_id);
    lemma_position(listed, property_id);
    assert forall|j: int| 0 <= j < listed.len() implies is_valid_id((#[trigger] listed[j]).id) by {
        if j < node.properties.len() {
            assert(listed[j] == node.properties[j]);
        }
    }
    let property = lookup(listed, property_id)->0;
    match property.with(attribute, payload) {
        Ok(changed) => {
            let after = replace(listed, property_id, changed);
            lemma_replace(listed, property_id, changed, property_id);
            assert forall|j: int| 0 <= j < after.len() implies is_valid_id(
                (#[trigger] after[j]).id,
            ) by {
                assert(is_valid_id(listed[j].id));
            }
        },
        Err(_) => {},
    }
}

/// An announcement leaves the identifier of a node as it was, and making the
/// same announcement twice leaves the node as the first left it.
pub proof fn lemma_node_after(node: NodeView, attribute: NodeAttribute, payload: Seq<char>)
    ensures
        node.after(attribute, payload).id == node.id,
        node.after(attribute, payload).after(attribute, payload) == node.after(attribute, payload),
{
    if attribute == NodeAttribute::Properties {
        lemma_restricted_idempotent(node.properties, split(payload, ','));
    }
}

/// What an announcement for a property does to a node: the property is
/// added if it is missing, and takes the announcement.
pub proof fn lemma_node_with_property_attribute(
    node: NodeView,
    property_id: Seq<char>,
    attribute: PropertyAttribute,
    payload: Seq<char>,
)
    ensures
        node.with_property_attribute(property_id, attribute, payload).0 == (NodeView {
            properties: amended(
                node.properties,
                property_id,
                settled(node.properties, property_id).after(attribute, payload),
            ),
            ..node
        }),
{
    let property = settled(node.properties, property_id);
    lemma_settled(node.properties, property_id);
    lemma_amended(node.properties, property_id, property, property);
}

/// What two announcements for the same property do to a node, one after
/// the other: the property is added if it is missing, and takes both.
pub proof fn lemma_node_with_property_attribute_twice(
    node: NodeView,
    property_id: Seq<char>,
    first: PropertyAttribute,
    first_payload: Seq<char>,
    second: PropertyAttribute,
    second_payload: Seq<char>,
)
    ensures
        node.with_property_attribute(property_id, first, first_payload).0.with_property_attribute(
            property_id,
            second,
            second_payload,
        ).0 == (NodeView {
            properties: amended(
                node.properties,
                property_id,
                settled(node.properties, property_id).after(first, first_payload).after(
                    second,
                    second_payload,
                ),
            ),
            ..node
        }),
{
    let property = settled(node.properties, property_id);
    let once = property.after(first, first_payload);
    let twice = once.after(second, second_payload);
    let middle = node.with_property_attribute(property_id, first, first_payload).0;
    lemma_node_with_property_attribute(node, property_id, first, first_payload);
    lemma_node_with_property_attribute(middle, property_id, second, second_payload);
    lemma_property_after(property, first, first_payload, second, second_payload);
    lemma_property_after(once, second, second_payload, first, first_payload);
    lemma_settled(node.properties, property_id);
    lemma_amended(node.properties, property_id, property, property);
    lemma_amended(node.properties, property_id, once, twice);
}

/// What a list of properties does to a node: a property that is listed and
/// was known stays as it was, one that is listed and was not known is added
/// with nothing known of it, and one that is not listed leaves the node.
pub proof fn lemma_node_listed_properties(node: NodeView, payload: Seq<char>, id: Seq<char>)
    requires
        node.with(NodeAttribute::Properties, payload) is Ok,
    ensures
        lookup(node.with(NodeAttribute::Properties, payload)->Ok_0.properties, id) == if !split(
            payload,
            ',',
        ).contains(id) {
            None
        } else if position(node.properties, id) is Some {
            lookup(node.properties, id)
        } else {
            Some(PropertyView::new(id))
        },
{
    lemma_restricted_lookup(node.properties, split(payload, ','), id);
}

/// An announcement for a property reaches that property and no other: the
/// property is found afterwards as it was, or as a fresh one, with the
/// announcement taken; every other property is found as it was; and the
/// name and the type of the node are as they were.
pub proof fn lemma_node_with_property_attribute_reach(
    node: NodeView,
    property_id: Seq<char>,
    attribute: PropertyAttribute,
    payload: Seq<char>,
    other: Seq<char>,
)
    ensures
        lookup(
            node.with_property_attribute(property_id, attribute, payload).0.properties,
            property_id,
        ) == Some(settled(node.properties, property_id).after(attribute, payload)),
        other != property_id ==> lookup(
            node.with_property_attribute(property_id, attribute, payload).0.properties,
            other,
        ) == lookup(node.properties, other),
        node.with_property_attribute(property_id, attribute, payload).0.name == node.name,
        node.with_property_attribute(property_id, attribute, payload).0.node_type
            == node.node_type,
        node.with_property_attribute(property_id, attribute, payload).0.id == node.id,
{
    let changed = settled(node.properties, property_id).after(attribute, payload);
    lemma_node_with_property_attribute(node, property_id, attribute, payload);
    lemma_settled(node.properties, property_id);
    lemma_amended(node.properties, property_id, changed, changed);
    if other != property_id {
        lemma_amended_other(node.properties, property_id, changed, other);
    }
}

} // verus!
