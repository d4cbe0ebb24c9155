//! Notifications of changes to the model.

use vstd::prelude::*;

use crate::text::views;

verus! {

/// A change to the model.
#[derive(Clone, Debug, PartialEq, Eq)]
pub enum ChangeEvent {
    /// A device was heard of for the first time.
    DeviceAdded { device: String },
    /// An attribute of a device was announced, or the device became complete.
    DeviceChanged { device: String },
    /// A device was removed, with its nodes and their properties.
    DeviceRemoved { device: String },
    /// A node was heard of for the first time.
    NodeAdded { device: String, node: String },
    /// An attribute of a node was announced.
    NodeChanged { device: String, node: String },
    /// A node left its device.
    NodeRemoved { device: String, node: String },
    /// A property was heard of for the first time.
    PropertyAdded { device: String, node: String, property: String },
    /// An attribute of a property was announced, or its value.
    PropertyChanged { device: String, node: String, property: String },
    /// A property left its node.
    PropertyRemoved { device: String, node: String, property: String },
}

/// What a [`ChangeEvent`] holds.
pub enum ChangeEventView {
    DeviceAdded { device: Seq<char> },
    DeviceChanged { device: Seq<char> },
    DeviceRemoved { device: Seq<char> },
    NodeAdded { device: Seq<char>, node: Seq<char> },
    NodeChanged { device: Seq<char>, node: Seq<char> },
    NodeRemoved { device: Seq<char>, node: Seq<char> },
    PropertyAdded { device: Seq<char>, node: Seq<char>, property: Seq<char> },
    PropertyChanged { device: Seq<char>, node: Seq<char>, property: Seq<char> },
    PropertyRemoved { device: Seq<char>, node: Seq<char>, property: Seq<char> },
}

impl View for ChangeEvent {
    type V = ChangeEventView;

    open spec fn view(&self) -> ChangeEventView {
        match *self {
            ChangeEvent::DeviceAdded { device } => ChangeEventView::DeviceAdded {
                device: device@,
            },
            ChangeEvent::DeviceChanged { device } => ChangeEventView::DeviceChanged {
                device: device@,
            },
            ChangeEvent::DeviceRemoved { device } => ChangeEventView::DeviceRemoved {
                device: device@,
            },
            ChangeEvent::NodeAdded { device, node } => ChangeEventView::NodeAdded {
                device: device@,
                node: node@,
            },
            ChangeEvent::NodeChanged { device, node } => ChangeEventView::NodeChanged {
                device: device@,
                node: node@,
            },
            ChangeEvent::NodeRemoved { device, node } => ChangeEventView::NodeRemoved {
                device: device@,
                node: node@,
            },
            ChangeEvent::PropertyAdded { device, node, property } => ChangeEventView::PropertyAdded {
                device: device@,
                node: node@,
                property: property@,
            },
            ChangeEvent::PropertyChanged {
                device,
                node,
                property,
            } => ChangeEventView::PropertyChanged {
                device: device@,
                node: node@,
                property: property@,
            },
            ChangeEvent::PropertyRemoved {
                device,
                node,
                property,
            } => ChangeEventView::PropertyRemoved {
                device: device@,
                node: node@,
                property: property@,
            },
        }
    }
}

/// The views of a sequence of events.
pub open spec fn event_views(events: Seq<ChangeEvent>) -> Seq<ChangeEventView> {
    events.map_values(|e: ChangeEvent| e@)
}

/// One event for each of `nodes`: that the node left `device`.
pub open spec fn nodes_removed(device: Seq<char>, nodes: Seq<Seq<char>>) -> Seq<ChangeEventView> {
    nodes.map_values(|node: Seq<char>| ChangeEventView::NodeRemoved { device, node })
}

/// One event for each of `nodes`: that the node was added to `device`.
pub open spec fn nodes_added(device: Seq<char>, nodes: Seq<Seq<char>>) -> Seq<ChangeEventView> {
    nodes.map_values(|node: Seq<char>| ChangeEventView::NodeAdded { device, node })
}

/// One event for each of `properties`: that the property left `node`.
pub open spec fn properties_removed(
    device: Seq<char>,
    node: Seq<char>,
    properties: Seq<Seq<char>>,
) -> Seq<ChangeEventView> {
    properties.map_values(
        |property: Seq<char>| ChangeEventView::PropertyRemoved { device, node, property },
    )
}

/// One event for each of `properties`: that the property was added to `node`.
pub open spec fn properties_added(
    device: Seq<char>,
    node: Seq<char>,
    properties: Seq<Seq<char>>,
) -> Seq<ChangeEventView> {
    properties.map_values(
        |property: Seq<char>| ChangeEventView::PropertyAdded { device, node, property },
    )
}

/// Adds `event` at the end of `events`.
pub fn push_event(events: &mut Vec<ChangeEvent>, event: ChangeEvent)
    ensures
        event_views(final(events)@) == event_views(old(events)@).push(event@),
{
    proof {
        assert(event_views(events@.push(event)) =~= event_views(events@).push(event@));
    }
    events.push(event);
}

/// Adds to `events` that each of `nodes` left `device`, or was added to it.
pub fn push_node_events(
    events: &mut Vec<ChangeEvent>,
    device: &str,
    nodes: &Vec<String>,
    removed: bool,
)
    ensures
        event_views(final(events)@) == event_views(old(events)@) + (if removed {
            nodes_removed(device@, views(nodes@))
        } else {
            nodes_added(device@, views(nodes@))
        }),
{
    let ghost all = if removed {
        nodes_removed(device@, views(nodes@))
    } else {
        nodes_added(device@, views(nodes@))
    };
    let ghost before = event_views(events@);
    let mut i: usize = 0;
    proof {
        assert(before + all.take(0) =~= before);
    }
    while i < nodes.len()
        invariant
            i <= nodes.len(),
            all == (if removed {
                nodes_removed(device@, views(nodes@))
            } else {
                nodes_added(device@, views(nodes@))
            }),
            event_views(events@) == before + all.take(i as int),
        decreases nodes.len() - i,
    {
        let event = if removed {
            ChangeEvent::NodeRemoved { device: device.to_owned(), node: nodes[i].clone() }
        } else {
            ChangeEvent::NodeAdded { device: device.to_owned(), node: nodes[i].clone() }
        };
        proof {
            assert(event@ == all[i as int]);
            assert((before + all.take(i as int)).push(all[i as int]) =~= before + all.take(i + 1));
        }
        push_event(events, event);
        i = i + 1;
    }
    proof {
        assert(all.take(nodes.len() as int) =~= all);
    }
}

/// Adds to `events` that each of `properties` left `node`, or was added to
/// it.
pub fn push_property_events(
    events: &mut Vec<ChangeEvent>,
    device: &str,
    node: &str,
    properties: &Vec<String>,
    removed: bool,
)
    ensures
        event_views(final(events)@) == event_views(old(events)@) + (if removed {
            properties_removed(device@, node@, views(properties@))
        } else {
            properties_added(device@, node@, views(properties@))
        }),
{
    let ghost all = if removed {
        properties_removed(device@, node@, views(properties@))
    } else {
        properties_added(device@, node@, views(properties@))
    };
    let ghost before = event_views(events@);
    let mut i: usize = 0;
    proof {
        assert(before + all.take(0) =~= before);
    }
    while i < properties.len()
        invariant
            i <= properties.len(),
            all == (if removed {
                properties_removed(device@, node@, views(properties@))
            } else {
                properties_added(device@, node@, views(properties@))
            }),
            event_views(events@) == before + all.take(i as int),
        decreases properties.len() - i,
    {
        let event = if removed {
            ChangeEvent::PropertyRemoved {
                device: device.to_owned(),
                node: node.to_owned(),
                property: properties[i].clone(),
            }
        } else {
            ChangeEvent::PropertyAdded {
                device: device.to_owned(),
                node: node.to_owned(),
                property: properties[i].clone(),
            }
        };
        proof {
            assert(event@ == all[i as int]);
            assert((before + all.take(i as int)).push(all[i as int]) =~= before + all.take(i + 1));
        }
        push_event(events, event);
        i = i + 1;
    }
    proof {
        assert(all.take(properties.len() as int) =~= all);
    }
}

} // verus!
