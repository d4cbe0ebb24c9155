//! The model of all devices that have been heard of, and the updates that
//! build it.
//!
//! The controller is told of each message that arrives under the base topic.
//! It routes the topic to the attribute that it addresses, adds the device,
//! node and property on the way if they are new, parses the payload, and
//! assigns what it denotes to that attribute and to nothing else.

use vstd::prelude::*;

use crate::error::{opt_error_view, Error, ErrorKind, ErrorView};
use crate::event::{
    event_views, nodes_added, nodes_removed, properties_added, properties_removed, push_event,
    push_node_events, push_property_events, ChangeEvent, ChangeEventView,
};
use crate::ident::{first_invalid, is_valid_id, lemma_all_valid};
use crate::text::views;
use crate::topic::{
    attribute_topic, compose_set_topic, lemma_attribute_topic_route, lemma_value_topic_route,
    property_attribute_of, route, route_of, set_topic, value_topic, Route, RouteView,
};
use crate::types::device::{
    lemma_device_after, lemma_device_with_node_attribute,
    lemma_device_with_node_attribute_idempotent, lemma_device_with_node_attribute_well_formed,
    lemma_device_with_property_attribute, lemma_device_with_property_attribute_reach,
    lemma_device_with_property_attribute_twice,
    lemma_device_with_property_attribute_well_formed, lemma_device_with_well_formed,
    lemma_only_name_and_datatype_complete, Device, DeviceAttribute, DeviceView,
};
use crate::types::entity::{
    amended, distinct, ensure, find, find_or_add, lemma_amended, lemma_amended_other,
    lemma_ensure, lemma_position,
    lemma_position_none, lemma_replace, lemma_settled, lookup, position, replace, settled,
    view_all, without,
};
use crate::types::node::{
    lemma_node_with_property_attribute, lemma_node_with_property_attribute_reach,
    lemma_node_with_property_attribute_twice, NodeAttribute,
};
use crate::types::property::{lemma_property_after, PropertyAttribute, PropertyView};

verus! {

/// What an update does: the devices after it, the changes to announce, and
/// the error to report.
pub struct Applied {
    pub devices: Seq<DeviceView>,
    pub events: Seq<ChangeEventView>,
    pub diagnostic: Option<ErrorView>,
}

/// A request to publish a message.
#[derive(Clone, Debug, PartialEq, Eq)]
pub struct PublishRequest {
    pub topic: String,
    pub payload: String,
}

/// What a [`PublishRequest`] holds.
pub struct PublishRequestView {
    pub topic: Seq<char>,
    pub payload: Seq<char>,
}

impl View for PublishRequest {
    type V = PublishRequestView;

    open spec fn view(&self) -> PublishRequestView {
        PublishRequestView { topic: self.topic@, payload: self.payload@ }
    }
}

/// The changes that an update made, and the error that it met.
#[derive(Clone, Debug, PartialEq, Eq)]
pub struct Update {
    /// The changes to announce, in the order in which they were made.
    pub events: Vec<ChangeEvent>,
    /// The error of the update: a malformed identifier in the topic, or a
    /// payload that denotes no value of the attribute's type.
    pub diagnostic: Option<Error>,
}

/// Whether every device, node and property has a legal identifier, no two
/// devices have the same, nor two nodes of a device, nor two properties of a
/// node.
pub open spec fn well_formed(devices: Seq<DeviceView>) -> bool {
    &&& distinct(devices)
    &&& forall|i: int| 0 <= i < devices.len() ==> (#[trigger] devices[i]).well_formed()
}

/// `event` if `wanted`, and nothing otherwise.
pub open spec fn event_if(wanted: bool, event: ChangeEventView) -> Seq<ChangeEventView> {
    if wanted {
        seq![event]
    } else {
        Seq::empty()
    }
}

/// What the announcement of `payload` for `attribute` of the device `id`
/// does to `devices`.
pub open spec fn apply_to_device(
    devices: Seq<DeviceView>,
    id: Seq<char>,
    attribute: DeviceAttribute,
    payload: Seq<char>,
) -> Applied {
    let listed = ensure(devices, id);
    let before = lookup(listed, id)->0;
    let device_added = event_if(
        position(devices, id) is None,
        ChangeEventView::DeviceAdded { device: id },
    );
    match before.with(attribute, payload) {
        Ok(after) => Applied {
            devices: replace(listed, id, after),
            events: device_added + nodes_removed(id, before.removed_by(attribute, payload))
                + nodes_added(id, before.added_by(attribute, payload))
                + seq![ChangeEventView::DeviceChanged { device: id }],
            diagnostic: None,
        },
        Err(error) => Applied { devices: listed, events: device_added, diagnostic: Some(error) },
    }
}

/// The events of an announcement for a node that was taken: one for each
/// property that left the node, then one for each that was added to it, then
/// that the node has changed.
pub open spec fn node_changes(
    id: Seq<char>,
    node: Seq<char>,
    removed: Seq<Seq<char>>,
    added: Seq<Seq<char>>,
) -> Seq<ChangeEventView> {
    properties_removed(id, node, removed) + properties_added(id, node, added)
        + seq![ChangeEventView::NodeChanged { device: id, node }]
}

/// What the announcement of `payload` for `attribute` of the node `node` of
/// the device `id` does to `devices`.
pub open spec fn apply_to_node(
    devices: Seq<DeviceView>,
    id: Seq<char>,
    node: Seq<char>,
    attribute: NodeAttribute,
    payload: Seq<char>,
) -> Applied {
    let listed = ensure(devices, id);
    let before = lookup(listed, id)->0;
    let device_added = event_if(
        position(devices, id) is None,
        ChangeEventView::DeviceAdded { device: id },
    );
    let (after, error) = before.with_node_attribute(node, attribute, payload);
    let node_before = lookup(before.with_node(node).nodes, node)->0;
    let node_added = event_if(
        position(before.nodes, node) is None,
        ChangeEventView::NodeAdded { device: id, node },
    );
    let changed = if error is None {
        node_changes(
            id,
            node,
            node_before.removed_by(attribute, payload),
            node_before.added_by(attribute, payload),
        )
    } else {
        Seq::empty()
    };
    Applied {
        devices: replace(listed, id, after),
        events: device_added + node_added + changed + event_if(
            !before.complete() && after.complete(),
            ChangeEventView::DeviceChanged { device: id },
        ),
        diagnostic: error,
    }
}

/// What the announcement of `payload` for `attribute` of the property
/// `property` of the node `node` of the device `id` does to `devices`.
pub open spec fn apply_to_property(
    devices: Seq<DeviceView>,
    id: Seq<char>,
    node: Seq<char>,
    property: Seq<char>,
    attribute: PropertyAttribute,
    payload: Seq<char>,
) -> Applied {
    let listed = ensure(devices, id);
    let before = lookup(listed, id)->0;
    let device_added = event_if(
        position(devices, id) is None,
        ChangeEventView::DeviceAdded { device: id },
    );
    let (after, error) = before.with_property_attribute(node, property, attribute, payload);
    let node_before = lookup(before.with_node(node).nodes, node)->0;
    let node_added = event_if(
        position(before.nodes, node) is None,
        ChangeEventView::NodeAdded { device: id, node },
    );
    let property_added = event_if(
        position(node_before.properties, property) is None,
        ChangeEventView::PropertyAdded { device: id, node, property },
    );
    let changed = event_if(
        error is None,
        ChangeEventView::PropertyChanged { device: id, node, property },
    );
    Applied {
        devices: replace(listed, id, after),
        events: device_added + node_added + property_added + changed + event_if(
            !before.complete() && after.complete(),
            ChangeEventView::DeviceChanged { device: id },
        ),
        diagnostic: error,
    }
}

/// What the announcement of `payload` for the attribute at the end of
/// `route` does to `devices`.
///
/// The device, the node and the property on the route are added first, with
/// nothing known of them, where there is none with that identifier: each
/// gives an event that it was added. Then the payload is parsed. If it
/// denotes a value of the attribute's type, the attribute is given that
/// value, which gives an event that the entity at the end of the route has
/// changed; a list of nodes or of properties gives, before that event, one
/// event for each entity that it removes, then one for each that it adds.
/// If it denotes none, the error is reported and nothing more is changed.
/// At the end, an update below a device that made the device complete
/// gives an event that the device has changed.
pub open spec fn apply_route(
    devices: Seq<DeviceView>,
    route: RouteView,
    payload: Seq<char>,
) -> Applied {
    match route {
        RouteView::Device { device, attribute } => apply_to_device(
            devices,
            device,
            attribute,
            payload,
        ),
        RouteView::Node { device, node, attribute } => apply_to_node(
            devices,
            device,
            node,
            attribute,
            payload,
        ),
        RouteView::Property { device, node, property, attribute } => apply_to_property(
            devices,
            device,
            node,
            property,
            attribute,
            payload,
        ),
    }
}

/// What the message `payload` on `topic` does to `devices`. A topic of no
/// known shape does nothing. A topic of a known shape with a malformed
/// identifier does nothing but report the error.
pub open spec fn apply(devices: Seq<DeviceView>, topic: Seq<char>, payload: Seq<char>) -> Applied {
    match route_of(topic) {
        Ok(Some(route)) => apply_route(devices, route, payload),
        Ok(None) => Applied { devices, events: Seq::empty(), diagnostic: None },
        Err(error) => Applied { devices, events: Seq::empty(), diagnostic: Some(error) },
    }
}

/// What the removal of the device `id` does to `devices`: the device leaves
/// with all that it holds, which gives one event. Where there is no such
/// device nothing happens.
pub open spec fn remove(devices: Seq<DeviceView>, id: Seq<char>) -> Applied {
    Applied {
        devices: without(devices, id),
        events: event_if(
            position(devices, id) is Some,
            ChangeEventView::DeviceRemoved { device: id },
        ),
        diagnostic: None,
    }
}

/// The error that no entity has the identifier `id`.
pub open spec fn unknown_entity(id: Seq<char>) -> ErrorView {
    ErrorView { kind: ErrorKind::UnknownEntity, input: id }
}

/// The request that sets the property `property` of the node `node` of the
/// device `device` to `value`, or the error of asking for it: the first of
/// the three identifiers that names nothing, or the property if it cannot be
/// set.
pub open spec fn set_request(
    devices: Seq<DeviceView>,
    device: Seq<char>,
    node: Seq<char>,
    property: Seq<char>,
    value: Seq<char>,
) -> Result<PublishRequestView, ErrorView> {
    match lookup(devices, device) {
        None => Err(unknown_entity(device)),
        Some(found) => match lookup(found.nodes, node) {
            None => Err(unknown_entity(node)),
            Some(found) => match lookup(found.properties, property) {
                None => Err(unknown_entity(property)),
                Some(found) => if found.settable {
                    Ok(
                        PublishRequestView {
                            topic: set_topic(device, node, property),
                            payload: value,
                        },
                    )
                } else {
                    Err(ErrorView { kind: ErrorKind::PropertyNotSettable, input: property })
                },
            },
        },
    }
}

/// The model of all devices that have been heard of.
#[derive(Debug)]
pub struct Controller {
    devices: Vec<Device>,
}

impl View for Controller {
    type V = Seq<DeviceView>;

    closed spec fn view(&self) -> Seq<DeviceView> {
        view_all(self.devices@)
    }
}

impl Controller {
    #[verifier::type_invariant]
    spec fn consistent(self) -> bool {
        well_formed(view_all(self.devices@))
    }

    /// The model in which no device has been heard of.
    pub fn new() -> (controller: Controller)
        ensures
            controller@ == Seq::<DeviceView>::empty(),
    {
        let controller = Controller { devices: Vec::new() };
        assert(controller@ =~= Seq::<DeviceView>::empty());
        controller
    }

    /// The devices of the model.
    pub fn snapshot(&self) -> (devices: &Vec<Device>)
        ensures
            view_all(devices@) == self@,
            well_formed(self@),
    {
        proof {
            use_type_invariant(self);
        }
        &self.devices
    }

    /// The device `id`, if it has been heard of.
    pub fn device(&self, id: &str) -> (device: Option<&Device>)
        ensures
            match lookup(self@, id@) {
                Some(found) => device matches Some(d) && d@ == found,
                None => device is None,
            },
    {
        match find(&self.devices, id) {
            Some(i) => Some(&self.devices[i]),
            None => None,
        }
    }

    /// Records the message `payload` that arrived on `topic`, which is taken
    /// relative to the base topic. Returns the changes that it made and the
    /// error that it met. Whether the message was retained makes no
    /// difference.
    pub fn apply_update(&mut self, topic: &str, payload: &str, _retained: bool) -> (update: Update)
        ensures
            final(self)@ == apply(old(self)@, topic@, payload@).devices,
            event_views(update.events@) == apply(old(self)@, topic@, payload@).events,
            opt_error_view(update.diagnostic) == apply(old(self)@, topic@, payload@).diagnostic,
    {
        let mut events: Vec<ChangeEvent> = Vec::new();
        proof {
            assert(event_views(events@) =~= Seq::<ChangeEventView>::empty());
            use_type_invariant(&*self);
        }
        let target = match route(topic) {
            Ok(Some(target)) => target,
            Ok(None) => {
                return Update { events, diagnostic: None };
            },
            Err(error) => {
                return Update { events, diagnostic: Some(error) };
            },
        };
        proof {
            lemma_apply_route_well_formed(self@, target@, payload@);
        }
        let mut devices: Vec<Device> = Vec::new();
        core::mem::swap(&mut self.devices, &mut devices);
        let diagnostic = match &target {
            Route::Device { device, attribute } => advance_device(
                &mut devices,
                &mut events,
                device,
                *attribute,
                payload,
            ),
            Route::Node { device, node, attribute } => advance_node(
                &mut devices,
                &mut events,
                device,
                node,
                *attribute,
                payload,
            ),
            Route::Property { device, node, property, attribute } => advance_property(
                &mut devices,
                &mut events,
                device,
                node,
                property,
                *attribute,
                payload,
            ),
        };
        self.devices = devices;
        Update { events, diagnostic }
    }

    /// Removes the device `id` with its nodes and their properties. Returns
    /// the change to announce, if there was such a device.
    pub fn notify_device_removed(&mut self, id: &str) -> (events: Vec<ChangeEvent>)
        ensures
            final(self)@ == remove(old(self)@, id@).devices,
            event_views(events@) == remove(old(self)@, id@).events,
    {
        let mut events: Vec<ChangeEvent> = Vec::new();
        proof {
            assert(event_views(events@) =~= Seq::<ChangeEventView>::empty());
            use_type_invariant(&*self);
            lemma_remove_well_formed(self@, id@);
        }
        match find(&self.devices, id) {
            Some(i) => {
                let mut devices: Vec<Device> = Vec::new();
                core::mem::swap(&mut self.devices, &mut devices);
                let ghost listed = view_all(devices@);
                devices.remove(i);
                proof {
                    assert(view_all(devices@) =~= listed.remove(i as int));
                }
                self.devices = devices;
                push_event(&mut events, ChangeEvent::DeviceRemoved { device: id.to_owned() });
            },
            None => {},
        }
        events
    }

    /// Asks for the property `property` of the node `node` of the device
    /// `device` to be set to `value`. Returns the message to publish. The
    /// model is not changed: the value is taken up when the device announces
    /// it.
    pub fn set_property(&self, device: &str, node: &str, property: &str, value: &str) -> (request:
        Result<PublishRequest, Error>)
        ensures
            match set_request(self@, device@, node@, property@, value@) {
                Ok(expected) => request matches Ok(r) && r@ == expected,
                Err(error) => request matches Err(e) && e@ == error,
            },
    {
        let found_device = match self.device(device) {
            Some(found) => found,
            None => {
                return Err(Error::new(ErrorKind::UnknownEntity, device));
            },
        };
        let found_node = match found_device.node(node) {
            Some(found) => found,
            None => {
                return Err(Error::new(ErrorKind::UnknownEntity, node));
            },
        };
        let found_property = match found_node.property(property) {
            Some(found) => found,
            None => {
                return Err(Error::new(ErrorKind::UnknownEntity, property));
            },
        };
        if !found_property.settable {
            return Err(Error::new(ErrorKind::PropertyNotSettable, property));
        }
        Ok(
            PublishRequest {
                topic: compose_set_topic(device, node, property),
                payload: value.to_owned(),
            },
        )
    }
}

impl Default for Controller {
    fn default() -> (controller: Controller)
        ensures
            controller@ == Seq::<DeviceView>::empty(),
    {
        Controller::new()
    }
}

/// Records `payload` for `attribute` of the device `device`, and adds the
/// changes that this makes to `events`. Returns the error that it met.
fn advance_device(
    devices: &mut Vec<Device>,
    events: &mut Vec<ChangeEvent>,
    device: &String,
    attribute: DeviceAttribute,
    payload: &str,
) -> (diagnostic: Option<Error>)
    ensures
        view_all(final(devices)@) == apply_to_device(
            view_all(old(devices)@),
            device@,
            attribute,
            payload@,
        ).devices,
        event_views(final(events)@) == event_views(old(events)@) + apply_to_device(
            view_all(old(devices)@),
            device@,
            attribute,
            payload@,
        ).events,
        opt_error_view(diagnostic) == apply_to_device(
            view_all(old(devices)@),
            device@,
            attribute,
            payload@,
        ).diagnostic,
{
    let ghost earlier = event_views(events@);
    let ghost expected = apply_to_device(view_all(devices@), device@, attribute, payload@);
    let (i, created) = find_or_add(devices, device.as_str());
    let ghost listed = view_all(devices@);
    proof {
        lemma_position(listed, device@);
    }
    if created {
        push_event(events, ChangeEvent::DeviceAdded { device: device.clone() });
    }
    let result = devices[i].set_attribute(attribute, payload);
    proof {
        assert(view_all(devices@) =~= listed.update(i as int, devices[i as int]@));
    }
    match result {
        Ok((removed, added)) => {
            push_node_events(events, device.as_str(), &removed, true);
            push_node_events(events, device.as_str(), &added, false);
            push_event(events, ChangeEvent::DeviceChanged { device: device.clone() });
            proof {
                assert(event_views(events@) =~= earlier + expected.events);
            }
            None
        },
        Err(error) => {
            proof {
                assert(view_all(devices@) =~= listed);
                assert(event_views(events@) =~= earlier + expected.events);
            }
            Some(error)
        },
    }
}

/// Adds to `events` the events of an announcement for a node that was
/// taken.
fn push_node_changes(
    events: &mut Vec<ChangeEvent>,
    device: &String,
    node: &String,
    removed: &Vec<String>,
    added: &Vec<String>,
)
    ensures
        event_views(final(events)@) == event_views(old(events)@) + node_changes(
            device@,
            node@,
            views(removed@),
            views(added@),
        ),
{
    let ghost earlier = event_views(events@);
    push_property_events(events, device.as_str(), node.as_str(), removed, true);
    push_property_events(events, device.as_str(), node.as_str(), added, false);
    push_event(events, ChangeEvent::NodeChanged { device: device.clone(), node: node.clone() });
    proof {
        assert(event_views(events@) =~= earlier + node_changes(
            device@,
            node@,
            views(removed@),
            views(added@),
        ));
    }
}

/// Records `payload` for `attribute` of the node `node` of the device
/// `device`, and adds the changes that this makes to `events`. Returns the
/// error that it met.
fn advance_node(
    devices: &mut Vec<Device>,
    events: &mut Vec<ChangeEvent>,
    device: &String,
    node: &String,
    attribute: NodeAttribute,
    payload: &str,
) -> (diagnostic: Option<Error>)
    ensures
        view_all(final(devices)@) == apply_to_node(
            view_all(old(devices)@),
            device@,
            node@,
            attribute,
            payload@,
        ).devices,
        event_views(final(events)@) == event_views(old(events)@) + apply_to_node(
            view_all(old(devices)@),
            device@,
            node@,
            attribute,
            payload@,
        ).events,
        opt_error_view(diagnostic) == apply_to_node(
            view_all(old(devices)@),
            device@,
            node@,
            attribute,
            payload@,
        ).diagnostic,
{
    let ghost earlier = event_views(events@);
    let ghost expected = apply_to_node(view_all(devices@), device@, node@, attribute, payload@);
    let (i, created) = find_or_add(devices, device.as_str());
    let ghost listed = view_all(devices@);
    proof {
        lemma_position(listed, device@);
    }
    if created {
        push_event(events, ChangeEvent::DeviceAdded { device: device.clone() });
    }
    let was_complete = devices[i].has_required_attributes();
    let (node_created, result) = devices[i].set_node_attribute(node.as_str(), attribute, payload);
    proof {
        assert(view_all(devices@) =~= listed.update(i as int, devices[i as int]@));
    }
    if node_created {
        push_event(events, ChangeEvent::NodeAdded { device: device.clone(), node: node.clone() });
    }
    let diagnostic = match result {
        Ok((removed, added)) => {
            push_node_changes(events, device, node, &removed, &added);
            None
        },
        Err(error) => Some(error),
    };
    if !was_complete && devices[i].has_required_attributes() {
        push_event(events, ChangeEvent::DeviceChanged { device: device.clone() });
    }
    proof {
        assert(event_views(events@) =~= earlier + expected.events);
    }
    diagnostic
}

/// Records `payload` for `attribute` of the property `property` of the node
/// `node` of the device `device`, and adds the changes that this makes to
/// `events`. Returns the error that it met.
fn advance_property(
    devices: &mut Vec<Device>,
    events: &mut Vec<ChangeEvent>,
    device: &String,
    node: &String,
    property: &String,
    attribute: PropertyAttribute,
    payload: &str,
) -> (diagnostic: Option<Error>)
    ensures
        view_all(final(devices)@) == apply_to_property(
            view_all(old(devices)@),
            device@,
            node@,
            property@,
            attribute,
            payload@,
        ).devices,
        event_views(final(events)@) == event_views(old(events)@) + apply_to_property(
            view_all(old(devices)@),
            device@,
            node@,
            property@,
            attribute,
            payload@,
        ).events,
        opt_error_view(diagnostic) == apply_to_property(
            view_all(old(devices)@),
            device@,
            node@,
            property@,
            attribute,
            payload@,
        ).diagnostic,
{
    let ghost earlier = event_views(events@);
    let ghost expected = apply_to_property(
        view_all(devices@),
        device@,
        node@,
        property@,
        attribute,
        payload@,
    );
    let (i, created) = find_or_add(devices, device.as_str());
    let ghost listed = view_all(devices@);
    proof {
        lemma_position(listed, device@);
    }
    if created {
        push_event(events, ChangeEvent::DeviceAdded { device: device.clone() });
    }
    let ghost before = listed[i as int];
    let counts = match attribute {
        PropertyAttribute::Name => true,
        PropertyAttribute::Datatype => true,
        _ => false,
    };
    let was_complete = !counts || devices[i].has_required_attributes();
    let (node_created, property_created, diagnostic) = devices[i].set_property_attribute(
        node.as_str(),
        property.as_str(),
        attribute,
        payload,
    );
    proof {
        assert(view_all(devices@) =~= listed.update(i as int, devices[i as int]@));
    }
    if node_created {
        push_event(events, ChangeEvent::NodeAdded { device: device.clone(), node: node.clone() });
    }
    if property_created {
        push_event(
            events,
            ChangeEvent::PropertyAdded {
                device: device.clone(),
                node: node.clone(),
                property: property.clone(),
            },
        );
    }
    if diagnostic.is_none() {
        push_event(
            events,
            ChangeEvent::PropertyChanged {
                device: device.clone(),
                node: node.clone(),
                property: property.clone(),
            },
        );
    }
    if !was_complete && devices[i].has_required_attributes() {
        push_event(events, ChangeEvent::DeviceChanged { device: device.clone() });
    }
    proof {
        if !counts && devices[i as int]@.complete() {
            lemma_only_name_and_datatype_complete(before, node@, property@, attribute, payload@);
        }
        assert(event_views(events@) =~= earlier + expected.events);
    }
    diagnostic
}

/// A well-formed list of devices stays well-formed when a device with a
/// legal identifier is added to it.
pub proof fn lemma_ensure_well_formed(devices: Seq<DeviceView>, id: Seq<char>)
    requires
        well_formed(devices),
        is_valid_id(id),
    ensures
        well_formed(ensure(devices, id)),
        lookup(ensure(devices, id), id) is Some,
        lookup(ensure(devices, id), id)->0.well_formed(),
        lookup(ensure(devices, id), id)->0.id == id,
{
    let listed = ensure(devices, id);
    lemma_ensure(devices, id);
    lemma_position(devices, id);
    lemma_position(listed, id);
    assert forall|j: int| 0 <= j < listed.len() implies (#[trigger] listed[j]).well_formed() by {
        if j < devices.len() {
            assert(listed[j] == devices[j]);
        }
    }
}

/// A well-formed list of devices stays well-formed when one of them is
/// replaced by a well-formed device with the same identifier.
pub proof fn lemma_replace_well_formed(devices: Seq<DeviceView>, id: Seq<char>, device: DeviceView)
    requires
        well_formed(devices),
        device.well_formed(),
        device.id == id,
    ensures
        well_formed(replace(devices, id, device)),
{
    let after = replace(devices, id, device);
    lemma_replace(devices, id, device, id);
    lemma_position(devices, id);
    assert forall|j: int| 0 <= j < after.len() implies (#[trigger] after[j]).well_formed() by {
        assert(devices[j].well_formed());
    }
}

/// An update along a route with legal identifiers leaves a well-formed list
/// of devices well-formed.
pub proof fn lemma_apply_route_well_formed(
    devices: Seq<DeviceView>,
    route: RouteView,
    payload: Seq<char>,
)
    requires
        well_formed(devices),
        first_invalid(route.ids()) is None,
    ensures
        well_formed(apply_route(devices, route, payload).devices),
{
    let id = route.device();
    lemma_all_valid(route.ids());
    assert(is_valid_id(route.ids()[0]));
    lemma_ensure_well_formed(devices, id);
    let listed = ensure(devices, id);
    let before = lookup(listed, id)->0;
    match route {
        RouteView::Device { attribute, .. } => {
            lemma_device_with_well_formed(before, attribute, payload);
            match before.with(attribute, payload) {
                Ok(after) => {
                    lemma_replace_well_formed(listed, id, after);
                },
                Err(_) => {},
            }
        },
        RouteView::Node { node, attribute, .. } => {
            assert(is_valid_id(route.ids()[1]));
            lemma_device_with_node_attribute_well_formed(before, node, attribute, payload);
            lemma_replace_well_formed(
                listed,
                id,
                before.with_node_attribute(node, attribute, payload).0,
            );
        },
        RouteView::Property { node, property, attribute, .. } => {
            assert(is_valid_id(route.ids()[1]));
            assert(is_valid_id(route.ids()[2]));
            lemma_device_with_property_attribute_well_formed(
                before,
                node,
                property,
                attribute,
                payload,
            );
            lemma_replace_well_formed(
                listed,
                id,
                before.with_property_attribute(node, property, attribute, payload).0,
            );
        },
    }
}

/// Every update leaves a well-formed list of devices well-formed.
pub proof fn lemma_apply_well_formed(devices: Seq<DeviceView>, topic: Seq<char>, payload: Seq<char>)
    requires
        well_formed(devices),
    ensures
        well_formed(apply(devices, topic, payload).devices),
{
    match route_of(topic) {
        Ok(Some(route)) => {
            lemma_apply_route_well_formed(devices, route, payload);
        },
        _ => {},
    }
}

/// A well-formed list of devices stays well-formed when a device leaves it.
pub proof fn lemma_remove_well_formed(devices: Seq<DeviceView>, id: Seq<char>)
    requires
        well_formed(devices),
    ensures
        well_formed(remove(devices, id).devices),
        position(remove(devices, id).devices, id) is None,
{
    lemma_position(devices, id);
    let after = without(devices, id);
    match position(devices, id) {
        Some(at) => {
            assert forall|j: int| 0 <= j < after.len() implies (#[trigger] after[j]).well_formed()
                && after[j].id != id by {
                if j < at {
                    assert(after[j] == devices[j]);
                } else {
                    assert(after[j] == devices[j + 1]);
                }
            }
            assert forall|a: int, b: int| 0 <= a < b < after.len() implies (#[trigger] after[a]).id
                != (#[trigger] after[b]).id by {
                let x = if a < at {
                    a
                } else {
                    a + 1
                };
                let y = if b < at {
                    b
                } else {
                    b + 1
                };
                assert(after[a] == devices[x]);
                assert(after[b] == devices[y]);
            }
            lemma_position_none(after, id);
        },
        None => {},
    }
}

/// Recording the same message twice leaves the devices as the first
/// recording left them.
pub proof fn lemma_apply_idempotent(devices: Seq<DeviceView>, topic: Seq<char>, payload: Seq<char>)
    ensures
        apply(apply(devices, topic, payload).devices, topic, payload).devices == apply(
            devices,
            topic,
            payload,
        ).devices,
{
    match route_of(topic) {
        Ok(Some(RouteView::Device { device, attribute })) => {
            let before = settled(devices, device);
            let once = before.after(attribute, payload);
            lemma_settled(devices, device);
            lemma_device_after(before, attribute, payload);
            lemma_amended(devices, device, before, once);
            lemma_amended(devices, device, once, once);
            assert(apply_to_device(devices, device, attribute, payload).devices == amended(
                devices,
                device,
                once,
            ));
        },
        Ok(Some(RouteView::Node { device, node, attribute })) => {
            let before = settled(devices, device);
            let once = before.with_node_attribute(node, attribute, payload).0;
            lemma_settled(devices, device);
            lemma_device_with_node_attribute(before, node, attribute, payload);
            lemma_device_with_node_attribute_idempotent(before, node, attribute, payload);
            lemma_amended(devices, device, once, once);
        },
        Ok(Some(RouteView::Property { device, node, property, attribute })) => {
            let before = settled(devices, device);
            let found = settled(before.nodes, node);
            let held = settled(found.properties, property);
            lemma_apply_to_property_twice(
                devices,
                device,
                node,
                property,
                attribute,
                payload,
                attribute,
                payload,
            );
            lemma_device_with_property_attribute_twice(
                before,
                node,
                property,
                attribute,
                payload,
                attribute,
                payload,
            );
            lemma_device_with_property_attribute(before, node, property, attribute, payload);
            lemma_node_with_property_attribute_twice(
                found,
                property,
                attribute,
                payload,
                attribute,
                payload,
            );
            lemma_node_with_property_attribute(found, property, attribute, payload);
            lemma_property_after(held, attribute, payload, attribute, payload);
        },
        _ => {},
    }
}

/// What two announcements for the same property do to the devices, one
/// after the other: the device is added if it is missing, and takes both.
pub proof fn lemma_apply_to_property_twice(
    devices: Seq<DeviceView>,
    id: Seq<char>,
    node: Seq<char>,
    property: Seq<char>,
    first: PropertyAttribute,
    first_payload: Seq<char>,
    second: PropertyAttribute,
    second_payload: Seq<char>,
)
    ensures
        apply_to_property(
            apply_to_property(devices, id, node, property, first, first_payload).devices,
            id,
            node,
            property,
            second,
            second_payload,
        ).devices == amended(
            devices,
            id,
            settled(devices, id).with_property_attribute(
                node,
                property,
                first,
                first_payload,
            ).0.with_property_attribute(node, property, second, second_payload).0,
        ),
        apply_to_property(devices, id, node, property, first, first_payload).devices == amended(
            devices,
            id,
            settled(devices, id).with_property_attribute(node, property, first, first_payload).0,
        ),
{
    let before = settled(devices, id);
    let once = before.with_property_attribute(node, property, first, first_payload).0;
    let twice = once.with_property_attribute(node, property, second, second_payload).0;
    lemma_settled(devices, id);
    lemma_device_with_property_attribute(before, node, property, first, first_payload);
    lemma_device_with_property_attribute(once, node, property, second, second_payload);
    lemma_amended(devices, id, once, twice);
}

/// Announcements for two different attributes of a property can be made in
/// either order: the devices are the same afterwards.
pub proof fn lemma_property_updates_commute(
    devices: Seq<DeviceView>,
    id: Seq<char>,
    node: Seq<char>,
    property: Seq<char>,
    first: PropertyAttribute,
    first_payload: Seq<char>,
    second: PropertyAttribute,
    second_payload: Seq<char>,
)
    requires
        first != second,
    ensures
        apply_to_property(
            apply_to_property(devices, id, node, property, first, first_payload).devices,
            id,
            node,
            property,
            second,
            second_payload,
        ).devices == apply_to_property(
            apply_to_property(devices, id, node, property, second, second_payload).devices,
            id,
            node,
            property,
            first,
            first_payload,
        ).devices,
{
    let device = settled(devices, id);
    let found = settled(device.nodes, node);
    let held = settled(found.properties, property);
    lemma_apply_to_property_twice(
        devices,
        id,
        node,
        property,
        first,
        first_payload,
        second,
        second_payload,
    );
    lemma_apply_to_property_twice(
        devices,
        id,
        node,
        property,
        second,
        second_payload,
        first,
        first_payload,
    );
    lemma_device_with_property_attribute_twice(
        device,
        node,
        property,
        first,
        first_payload,
        second,
        second_payload,
    );
    lemma_device_with_property_attribute_twice(
        device,
        node,
        property,
        second,
        second_payload,
        first,
        first_payload,
    );
    lemma_node_with_property_attribute_twice(
        found,
        property,
        first,
        first_payload,
        second,
        second_payload,
    );
    lemma_node_with_property_attribute_twice(
        found,
        property,
        second,
        second_payload,
        first,
        first_payload,
    );
    lemma_property_after(held, first, first_payload, second, second_payload);
}

/// The data type of a property and its value can be announced in either
/// order: the devices are the same afterwards, and so is the property.
pub proof fn lemma_datatype_and_value_in_either_order(
    devices: Seq<DeviceView>,
    device: Seq<char>,
    node: Seq<char>,
    property: Seq<char>,
    datatype: Seq<char>,
    value: Seq<char>,
)
    requires
        is_valid_id(device),
        is_valid_id(node),
        is_valid_id(property),
    ensures
        apply(
            apply(devices, attribute_topic(device, node, property, "$datatype"@), datatype).devices,
            value_topic(device, node, property),
            value,
        ).devices == apply(
            apply(devices, value_topic(device, node, property), value).devices,
            attribute_topic(device, node, property, "$datatype"@),
            datatype,
        ).devices,
{
    reveal_strlit("$name");
    reveal_strlit("$datatype");
    assert("$datatype"@ != "$name"@) by {
        assert("$datatype"@[1] != "$name"@[1]);
    }
    assert(property_attribute_of("$datatype"@) == Some(PropertyAttribute::Datatype));
    lemma_value_topic_route(device, node, property);
    lemma_attribute_topic_route(device, node, property, "$datatype"@);
    lemma_property_updates_commute(
        devices,
        device,
        node,
        property,
        PropertyAttribute::Datatype,
        datatype,
        PropertyAttribute::Value,
        value,
    );
}

/// An update reaches the device on its route and no other: every other
/// device is found afterwards as it was.
pub proof fn lemma_apply_leaves_other_devices(
    devices: Seq<DeviceView>,
    route: RouteView,
    payload: Seq<char>,
    other: Seq<char>,
)
    requires
        other != route.device(),
    ensures
        lookup(apply_route(devices, route, payload).devices, other) == lookup(devices, other),
{
    let id = route.device();
    let before = settled(devices, id);
    lemma_settled(devices, id);
    match route {
        RouteView::Device { attribute, .. } => {
            let after = before.after(attribute, payload);
            lemma_device_after(before, attribute, payload);
            lemma_amended(devices, id, before, before);
            lemma_amended_other(devices, id, after, other);
        },
        RouteView::Node { node, attribute, .. } => {
            let after = before.with_node_attribute(node, attribute, payload).0;
            lemma_device_with_node_attribute(before, node, attribute, payload);
            lemma_amended_other(devices, id, after, other);
        },
        RouteView::Property { node, property, attribute, .. } => {
            let after = before.with_property_attribute(node, property, attribute, payload).0;
            lemma_device_with_property_attribute(before, node, property, attribute, payload);
            lemma_amended_other(devices, id, after, other);
        },
    }
}

/// The property `property` of the node `node` of the device `device`, if
/// all three are known.
pub open spec fn property_of(
    devices: Seq<DeviceView>,
    device: Seq<char>,
    node: Seq<char>,
    property: Seq<char>,
) -> Option<PropertyView> {
    match lookup(devices, device) {
        Some(found) => match lookup(found.nodes, node) {
            Some(found) => lookup(found.properties, property),
            None => None,
        },
        None => None,
    }
}

/// An announcement for a property is taken by that property: afterwards
/// the property is known, and is what it was before, or a fresh property
/// where it was not known, with the announcement taken.
pub proof fn lemma_apply_to_property_reach(
    devices: Seq<DeviceView>,
    device: Seq<char>,
    node: Seq<char>,
    property: Seq<char>,
    attribute: PropertyAttribute,
    payload: Seq<char>,
)
    ensures
        property_of(
            apply_to_property(devices, device, node, property, attribute, payload).devices,
            device,
            node,
            property,
        ) == Some(
            (match property_of(devices, device, node, property) {
                Some(known) => known,
                None => PropertyView::new(property),
            }).after(attribute, payload),
        ),
{
    let before = settled(devices, device);
    let found = settled(before.nodes, node);
    let after = before.with_property_attribute(node, property, attribute, payload).0;
    lemma_settled(devices, device);
    lemma_settled(before.nodes, node);
    lemma_settled(found.properties, property);
    lemma_ensure(devices, device);
    lemma_ensure(before.nodes, node);
    lemma_ensure(found.properties, property);
    lemma_position(devices, device);
    lemma_position(before.nodes, node);
    lemma_position(found.properties, property);
    lemma_device_with_property_attribute(before, node, property, attribute, payload);
    lemma_amended(devices, device, after, after);
    lemma_device_with_property_attribute_reach(before, node, property, attribute, payload, node);
    lemma_node_with_property_attribute_reach(found, property, attribute, payload, property);
}

} // verus!
