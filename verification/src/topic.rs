//! Routing of topics to the attributes they address.
//!
//! A topic is taken relative to the base topic: its first segment names a
//! device. The segments after it name an attribute of the device, or a node
//! and an attribute of the node, or a node, a property and an attribute of
//! the property. The topic of a node and a property alone carries the value
//! of the property.

use vstd::prelude::*;
use vstd::string::*;

use crate::error::{Error, ErrorKind, ErrorView};
use crate::ident::{
    first_invalid, is_valid, is_valid_id, lemma_first_invalid_push, lemma_valid_id_is_plain,
};
use crate::text::{
    lemma_split_concat, lemma_split_without_sep, same_text, split, split_text, views,
};
use crate::types::device::DeviceAttribute;
use crate::types::node::NodeAttribute;
use crate::types::property::PropertyAttribute;

verus! {

/// The attribute that a topic addresses, and the entity that has it.
#[derive(Clone, Debug, PartialEq, Eq)]
pub enum Route {
    /// An attribute of a device.
    Device { device: String, attribute: DeviceAttribute },
    /// An attribute of a node.
    Node { device: String, node: String, attribute: NodeAttribute },
    /// An attribute of a property, or its value.
    Property { device: String, node: String, property: String, attribute: PropertyAttribute },
}

/// What a [`Route`] holds.
pub enum RouteView {
    Device { device: Seq<char>, attribute: DeviceAttribute },
    Node { device: Seq<char>, node: Seq<char>, attribute: NodeAttribute },
    Property {
        device: Seq<char>,
        node: Seq<char>,
        property: Seq<char>,
        attribute: PropertyAttribute,
    },
}

impl View for Route {
    type V = RouteView;

    open spec fn view(&self) -> RouteView {
        match *self {
            Route::Device { device, attribute } => RouteView::Device { device: device@, attribute },
            Route::Node { device, node, attribute } => RouteView::Node {
                device: device@,
                node: node@,
                attribute,
            },
            Route::Property { device, node, property, attribute } => RouteView::Property {
                device: device@,
                node: node@,
                property: property@,
                attribute,
            },
        }
    }
}

/// The view of an optional route.
pub open spec fn opt_route_view(route: Option<Route>) -> Option<RouteView> {
    match route {
        Some(route) => Some(route@),
        None => None,
    }
}

impl RouteView {
    /// The identifier of the device that the route leads to.
    pub open spec fn device(self) -> Seq<char> {
        match self {
            RouteView::Device { device, .. } => device,
            RouteView::Node { device, .. } => device,
            RouteView::Property { device, .. } => device,
        }
    }

    /// The identifiers on the route, from the device down.
    pub open spec fn ids(self) -> Seq<Seq<char>> {
        match self {
            RouteView::Device { device, .. } => seq![device],
            RouteView::Node { device, node, .. } => seq![device, node],
            RouteView::Property { device, node, property, .. } => seq![device, node, property],
        }
    }
}

/// Whether the segment `s` names an attribute rather than an entity.
pub open spec fn is_attribute(s: Seq<char>) -> bool {
    s.len() > 0 && s[0] == '$'
}

/// The attribute of a device that the segments `s` name.
pub open spec fn device_attribute_of(s: Seq<Seq<char>>) -> Option<DeviceAttribute> {
    if s.len() == 1 {
        if s[0] == "$homie"@ {
            Some(DeviceAttribute::Homie)
        } else if s[0] == "$name"@ {
            Some(DeviceAttribute::Name)
        } else if s[0] == "$state"@ {
            Some(DeviceAttribute::State)
        } else if s[0] == "$implementation"@ {
            Some(DeviceAttribute::Implementation)
        } else if s[0] == "$extensions"@ {
            Some(DeviceAttribute::Extensions)
        } else if s[0] == "$nodes"@ {
            Some(DeviceAttribute::Nodes)
        } else if s[0] == "$localip"@ {
            Some(DeviceAttribute::LocalIp)
        } else if s[0] == "$mac"@ {
            Some(DeviceAttribute::Mac)
        } else {
            None
        }
    } else if s.len() == 2 && s[0] == "$fw"@ {
        if s[1] == "name"@ {
            Some(DeviceAttribute::FirmwareName)
        } else if s[1] == "version"@ {
            Some(DeviceAttribute::FirmwareVersion)
        } else {
            None
        }
    } else if s.len() == 2 && s[0] == "$stats"@ {
        if s[1] == "interval"@ {
            Some(DeviceAttribute::StatsInterval)
        } else if s[1] == "uptime"@ {
            Some(DeviceAttribute::StatsUptime)
        } else if s[1] == "signal"@ {
            Some(DeviceAttribute::StatsSignal)
        } else if s[1] == "cputemp"@ {
            Some(DeviceAttribute::StatsCputemp)
        } else if s[1] == "cpuload"@ {
            Some(DeviceAttribute::StatsCpuload)
        } else if s[1] == "battery"@ {
            Some(DeviceAttribute::StatsBattery)
        } else if s[1] == "freeheap"@ {
            Some(DeviceAttribute::StatsFreeheap)
        } else if s[1] == "supply"@ {
            Some(DeviceAttribute::StatsSupply)
        } else {
            None
        }
    } else {
        None
    }
}

/// The attribute of a node that the segment `s` names.
pub open spec fn node_attribute_of(s: Seq<char>) -> Option<NodeAttribute> {
    if s == "$name"@ {
        Some(NodeAttribute::Name)
    } else if s == "$type"@ {
        Some(NodeAttribute::Type)
    } else if s == "$properties"@ {
        Some(NodeAttribute::Properties)
    } else {
        None
    }
}

/// The attribute of a property that the segment `s` names.
pub open spec fn property_attribute_of(s: Seq<char>) -> Option<PropertyAttribute> {
    if s == "$name"@ {
        Some(PropertyAttribute::Name)
    } else if s == "$datatype"@ {
        Some(PropertyAttribute::Datatype)
    } else if s == "$settable"@ {
        Some(PropertyAttribute::Settable)
    } else if s == "$retained"@ {
        Some(PropertyAttribute::Retained)
    } else if s == "$unit"@ {
        Some(PropertyAttribute::Unit)
    } else if s == "$format"@ {
        Some(PropertyAttribute::Format)
    } else {
        None
    }
}

/// The route that topic segments of a known shape describe, with whatever
/// stands in the places of the identifiers.
///
/// The first segment stands for the device. Where the second segment names
/// an attribute, the segments after the first must name an attribute of a
/// device. Otherwise three segments are a node and one of its attributes, or
/// a node and a property; four segments are a node, a property and one of
/// its attributes.
pub open spec fn shape_of(s: Seq<Seq<char>>) -> Option<RouteView> {
    if s.len() >= 2 && is_attribute(s[1]) {
        match device_attribute_of(s.skip(1)) {
            Some(attribute) => Some(RouteView::Device { device: s[0], attribute }),
            None => None,
        }
    } else if s.len() == 3 && is_attribute(s[2]) {
        match node_attribute_of(s[2]) {
            Some(attribute) => Some(RouteView::Node { device: s[0], node: s[1], attribute }),
            None => None,
        }
    } else if s.len() == 3 {
        Some(
            RouteView::Property {
                device: s[0],
                node: s[1],
                property: s[2],
                attribute: PropertyAttribute::Value,
            },
        )
    } else if s.len() == 4 {
        match property_attribute_of(s[3]) {
            Some(attribute) => Some(
                RouteView::Property { device: s[0], node: s[1], property: s[2], attribute },
            ),
            None => None,
        }
    } else {
        None
    }
}

/// Where `topic` leads: to an attribute, nowhere if the topic has none of
/// the known shapes, or to an error if it has one but an identifier in it is
/// malformed. The error holds the first malformed identifier.
pub open spec fn route_of(topic: Seq<char>) -> Result<Option<RouteView>, ErrorView> {
    match shape_of(split(topic, '/')) {
        None => Ok(None),
        Some(route) => match first_invalid(route.ids()) {
            Some(id) => Err(ErrorView { kind: ErrorKind::InvalidIdentifier, input: id }),
            None => Ok(Some(route)),
        },
    }
}

/// The topic on which the value of a property is published.
pub open spec fn value_topic(device: Seq<char>, node: Seq<char>, property: Seq<char>) -> Seq<
    char,
> {
    device + seq!['/'] + node + seq!['/'] + property
}

/// The topic on which an attribute of a property is published. `name` is
/// the name of the attribute, such as `$datatype`.
pub open spec fn attribute_topic(
    device: Seq<char>,
    node: Seq<char>,
    property: Seq<char>,
    name: Seq<char>,
) -> Seq<char> {
    value_topic(device, node, property) + seq!['/'] + name
}

/// The topic on which a controller asks for a property to be set.
pub open spec fn set_topic(device: Seq<char>, node: Seq<char>, property: Seq<char>) -> Seq<char> {
    value_topic(device, node, property) + "/set"@
}

/// Whether the segment `s` names an attribute rather than an entity.
fn names_attribute(s: &String) -> (yes: bool)
    ensures
        yes == is_attribute(s@),
{
    s.as_str().unicode_len() > 0 && s.as_str().get_char(0) == '$'
}

/// The attribute of a device that the segments after the first name.
fn device_attribute(segments: &Vec<String>) -> (attribute: Option<DeviceAttribute>)
    requires
        segments.len() >= 1,
    ensures
        attribute == device_attribute_of(views(segments@).skip(1)),
{
    let ghost s = views(segments@).skip(1);
    if segments.len() == 2 {
        let a = segments[1].as_str();
        assert(s[0] == a@);
        if same_text(a, "$homie") {
            Some(DeviceAttribute::Homie)
        } else if same_text(a, "$name") {
            Some(DeviceAttribute::Name)
        } else if same_text(a, "$state") {
            Some(DeviceAttribute::State)
        } else if same_text(a, "$implementation") {
            Some(DeviceAttribute::Implementation)
        } else if same_text(a, "$extensions") {
            Some(DeviceAttribute::Extensions)
        } else if same_text(a, "$nodes") {
            Some(DeviceAttribute::Nodes)
        } else if same_text(a, "$localip") {
            Some(DeviceAttribute::LocalIp)
        } else if same_text(a, "$mac") {
            Some(DeviceAttribute::Mac)
        } else {
            None
        }
    } else if segments.len() == 3 {
        let group = segments[1].as_str();
        let a = segments[2].as_str();
        assert(s[0] == group@);
        assert(s[1] == a@);
        if same_text(group, "$fw") {
            if same_text(a, "name") {
                Some(DeviceAttribute::FirmwareName)
            } else if same_text(a, "version") {
                Some(DeviceAttribute::FirmwareVersion)
            } else {
                None
            }
        } else if same_text(group, "$stats") {
            if same_text(a, "interval") {
                Some(DeviceAttribute::StatsInterval)
            } else if same_text(a, "uptime") {
                Some(DeviceAttribute::StatsUptime)
            } else if same_text(a, "signal") {
                Some(DeviceAttribute::StatsSignal)
            } else if same_text(a, "cputemp") {
                Some(DeviceAttribute::StatsCputemp)
            } else if same_text(a, "cpuload") {
                Some(DeviceAttribute::StatsCpuload)
            } else if same_text(a, "battery") {
                Some(DeviceAttribute::StatsBattery)
            } else if same_text(a, "freeheap") {
                Some(DeviceAttribute::StatsFreeheap)
            } else if same_text(a, "supply") {
                Some(DeviceAttribute::StatsSupply)
            } else {
                None
            }
        } else {
            None
        }
    } else {
        None
    }
}

/// The attribute of a node that the segment `s` names.
fn node_attribute(s: &str) -> (attribute: Option<NodeAttribute>)
    ensures
        attribute == node_attribute_of(s@),
{
    if same_text(s, "$name") {
        Some(NodeAttribute::Name)
    } else if same_text(s, "$type") {
        Some(NodeAttribute::Type)
    } else if same_text(s, "$properties") {
        Some(NodeAttribute::Properties)
    } else {
        None
    }
}

/// The attribute of a property that the segment `s` names.
fn property_attribute(s: &str) -> (attribute: Option<PropertyAttribute>)
    ensures
        attribute == property_attribute_of(s@),
{
    if same_text(s, "$name") {
        Some(PropertyAttribute::Name)
    } else if same_text(s, "$datatype") {
        Some(PropertyAttribute::Datatype)
    } else if same_text(s, "$settable") {
        Some(PropertyAttribute::Settable)
    } else if same_text(s, "$retained") {
        Some(PropertyAttribute::Retained)
    } else if same_text(s, "$unit") {
        Some(PropertyAttribute::Unit)
    } else if same_text(s, "$format") {
        Some(PropertyAttribute::Format)
    } else {
        None
    }
}

/// The route that topic segments of a known shape describe.
fn shape(segments: &Vec<String>) -> (route: Option<Route>)
    ensures
        opt_route_view(route) == shape_of(views(segments@)),
{
    let ghost s = views(segments@);
    let n = segments.len();
    if n >= 2 && names_attribute(&segments[1]) {
        assert(s[1] == segments[1]@);
        match device_attribute(segments) {
            Some(attribute) => Some(Route::Device { device: segments[0].clone(), attribute }),
            None => None,
        }
    } else if n == 3 && names_attribute(&segments[2]) {
        assert(s[2] == segments[2]@);
        match node_attribute(segments[2].as_str()) {
            Some(attribute) => Some(
                Route::Node { device: segments[0].clone(), node: segments[1].clone(), attribute },
            ),
            None => None,
        }
    } else if n == 3 {
        assert(s[1] == segments[1]@);
        assert(s[2] == segments[2]@);
        Some(
            Route::Property {
                device: segments[0].clone(),
                node: segments[1].clone(),
                property: segments[2].clone(),
                attribute: PropertyAttribute::Value,
            },
        )
    } else if n == 4 {
        assert(s[1] == segments[1]@);
        assert(s[3] == segments[3]@);
        match property_attribute(segments[3].as_str()) {
            Some(attribute) => Some(
                Route::Property {
                    device: segments[0].clone(),
                    node: segments[1].clone(),
                    property: segments[2].clone(),
                    attribute,
                },
            ),
            None => None,
        }
    } else {
        if n >= 2 {
            assert(s[1] == segments[1]@);
        }
        None
    }
}

/// Routes a topic. Returns `Ok(None)` for a topic that has none of the known
/// shapes, and an error for one that has a known shape but holds a malformed
/// identifier.
pub fn route(topic: &str) -> (routed: Result<Option<Route>, Error>)
    ensures
        match route_of(topic@) {
            Ok(route) => routed matches Ok(r) && opt_route_view(r) == route,
            Err(error) => routed matches Err(e) && e@ == error,
        },
{
    let segments = split_text(topic, '/');
    match shape(&segments) {
        None => Ok(None),
        Some(found) => {
            let bad = match &found {
                Route::Device { device, .. } => {
                    proof {
                        lemma_first_invalid_push(Seq::empty(), device@);
                        assert(found@.ids() =~= Seq::<Seq<char>>::empty().push(device@));
                    }
                    if !is_valid(device.as_str()) {
                        Some(device.clone())
                    } else {
                        None
                    }
                },
                Route::Node { device, node, .. } => {
                    proof {
                        lemma_first_invalid_push(Seq::empty(), device@);
                        lemma_first_invalid_push(seq![device@], node@);
                        assert(seq![device@] =~= Seq::<Seq<char>>::empty().push(device@));
                        assert(found@.ids() =~= seq![device@].push(node@));
                    }
                    if !is_valid(device.as_str()) {
                        Some(device.clone())
                    } else if !is_valid(node.as_str()) {
                        Some(node.clone())
                    } else {
                        None
                    }
                },
                Route::Property { device, node, property, .. } => {
                    proof {
                        lemma_first_invalid_push(Seq::empty(), device@);
                        lemma_first_invalid_push(seq![device@], node@);
                        lemma_first_invalid_push(seq![device@, node@], property@);
                        assert(seq![device@] =~= Seq::<Seq<char>>::empty().push(device@));
                        assert(seq![device@, node@] =~= seq![device@].push(node@));
                        assert(found@.ids() =~= seq![device@, node@].push(property@));
                    }
                    if !is_valid(device.as_str()) {
                        Some(device.clone())
                    } else if !is_valid(node.as_str()) {
                        Some(node.clone())
                    } else if !is_valid(property.as_str()) {
                        Some(property.clone())
                    } else {
                        None
                    }
                },
            };
            match bad {
                Some(id) => Err(Error { kind: ErrorKind::InvalidIdentifier, input: id }),
                None => Ok(Some(found)),
            }
        },
    }
}

/// Writes the topic on which a controller asks for a property to be set.
pub fn compose_set_topic(device: &str, node: &str, property: &str) -> (topic: String)
    ensures
        topic@ == set_topic(device@, node@, property@),
{
    proof {
        reveal_strlit("/");
        assert("/"@ =~= seq!['/']);
    }
    let topic = device.to_owned().concat("/").concat(node).concat("/").concat(property).concat(
        "/set",
    );
    proof {
        assert(topic@ =~= set_topic(device@, node@, property@));
    }
    topic
}

/// The name of an attribute of a property holds no topic separator.
proof fn lemma_attribute_name_is_plain(name: Seq<char>)
    requires
        property_attribute_of(name) is Some,
    ensures
        !name.contains('/'),
{
    reveal_strlit("$name");
    reveal_strlit("$datatype");
    reveal_strlit("$settable");
    reveal_strlit("$retained");
    reveal_strlit("$unit");
    reveal_strlit("$format");
    if name.contains('/') {
        let i = choose|i: int| 0 <= i < name.len() && name[i] == '/';
        assert(name[i] == '/');
    }
}

/// The segments of the topic of a property's value are the identifiers of
/// the device, the node and the property.
proof fn lemma_value_topic_segments(device: Seq<char>, node: Seq<char>, property: Seq<char>)
    requires
        is_valid_id(device),
        is_valid_id(node),
        is_valid_id(property),
    ensures
        split(value_topic(device, node, property), '/') == seq![device, node, property],
{
    lemma_valid_id_is_plain(device);
    lemma_valid_id_is_plain(node);
    lemma_valid_id_is_plain(property);
    lemma_split_without_sep(device, '/');
    lemma_split_without_sep(node, '/');
    lemma_split_without_sep(property, '/');
    lemma_split_concat(node, property, '/');
    lemma_split_concat(device, node + seq!['/'] + property, '/');
    assert(value_topic(device, node, property) =~= device + seq!['/'] + (node + seq!['/']
        + property));
    assert(seq![device] + (seq![node] + seq![property]) =~= seq![device, node, property]);
}

/// The identifiers of a device, a node and a property, none of them
/// malformed, hold no malformed identifier.
proof fn lemma_route_ids_valid(device: Seq<char>, node: Seq<char>, property: Seq<char>)
    requires
        is_valid_id(device),
        is_valid_id(node),
        is_valid_id(property),
    ensures
        first_invalid(seq![device, node, property]) is None,
{
    lemma_first_invalid_push(Seq::empty(), device);
    lemma_first_invalid_push(seq![device], node);
    lemma_first_invalid_push(seq![device, node], property);
    assert(seq![device] =~= Seq::<Seq<char>>::empty().push(device));
    assert(seq![device, node] =~= seq![device].push(node));
    assert(seq![device, node, property] =~= seq![device, node].push(property));
}

/// The topic of a property's value leads to the value of that property.
pub proof fn lemma_value_topic_route(device: Seq<char>, node: Seq<char>, property: Seq<char>)
    requires
        is_valid_id(device),
        is_valid_id(node),
        is_valid_id(property),
    ensures
        route_of(value_topic(device, node, property)) == Ok::<Option<RouteView>, ErrorView>(
            Some(
                RouteView::Property { device, node, property, attribute: PropertyAttribute::Value },
            ),
        ),
{
    lemma_value_topic_segments(device, node, property);
    lemma_route_ids_valid(device, node, property);
    lemma_valid_id_is_plain(node);
    lemma_valid_id_is_plain(property);
}

/// The topic of an attribute of a property leads to that attribute.
pub proof fn lemma_attribute_topic_route(
    device: Seq<char>,
    node: Seq<char>,
    property: Seq<char>,
    name: Seq<char>,
)
    requires
        is_valid_id(device),
        is_valid_id(node),
        is_valid_id(property),
        property_attribute_of(name) is Some,
    ensures
        route_of(attribute_topic(device, node, property, name)) == Ok::<
            Option<RouteView>,
            ErrorView,
        >(
            Some(
                RouteView::Property {
                    device,
                    node,
                    property,
                    attribute: property_attribute_of(name)->0,
                },
            ),
        ),
{
    lemma_value_topic_segments(device, node, property);
    lemma_route_ids_valid(device, node, property);
    lemma_valid_id_is_plain(node);
    lemma_attribute_name_is_plain(name);
    lemma_split_without_sep(name, '/');
    lemma_split_concat(value_topic(device, node, property), name, '/');
    assert(seq![device, node, property] + seq![name] =~= seq![device, node, property, name]);
}

} // verus!
