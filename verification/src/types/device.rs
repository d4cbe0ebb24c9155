//! Devices.

use vstd::prelude::*;

use crate::error::{opt_error_view, Error, ErrorKind, ErrorView};
use crate::ident::{find_invalid, first_invalid, is_valid_id, lemma_all_valid};
use crate::scalar::{
    is_real, is_real_text, parse_signed, parse_unsigned, signed_of, unsigned_of,
};
use crate::text::{opt_view, split, split_text, views};
use crate::types::entity::{
    added, amended, distinct, dropped, ensure, find, find_or_add, lemma_amended,
    lemma_amended_other, lemma_ensure,
    lemma_position, lemma_replace, lemma_restricted, lemma_restricted_idempotent,
    lemma_restricted_lookup, lemma_settled,
    lookup, position, replace, restrict, restricted, settled, view_all, Entity, Identified,
};
use crate::types::extension::{extension_views, Extension, ExtensionView};
use crate::types::node::{
    lemma_node_after, lemma_node_with_property_attribute,
    lemma_node_with_property_attribute_well_formed, lemma_node_with_well_formed, no_changes,
    Node, NodeAttribute, NodeView,
};
use crate::types::property::PropertyAttribute;
use crate::types::state::State;

verus! {

/// A device that has been heard of.
///
/// The name and the state are required, but may not be known yet when the
/// device is first heard of. The other attributes are optional.
#[derive(Clone, Debug, PartialEq, Eq)]
pub struct Device {
    /// The identifier of the device, unique under the base topic.
    pub id: String,
    /// The version of the convention that the device implements. Empty until
    /// the device announces it.
    pub homie_version: String,
    /// The human-readable name of the device.
    pub name: Option<String>,
    /// The state of the device in its lifecycle.
    pub state: State,
    /// An identifier of the implementation that the device runs.
    pub implementation: Option<String>,
    /// The nodes of the device, each found by its identifier. Where two have
    /// the same identifier, the first is the one that is found; a controller
    /// never holds such a device.
    pub nodes: Vec<Node>,
    /// The extensions of the convention that the device implements.
    pub extensions: Vec<Extension>,
    /// The address of the device on the local network.
    pub local_ip: Option<String>,
    /// The hardware address of the device's network interface.
    pub mac: Option<String>,
    /// The name of the firmware that the device runs.
    pub firmware_name: Option<String>,
    /// The version of the firmware that the device runs.
    pub firmware_version: Option<String>,
    /// The interval at which the device refreshes its statistics, in seconds.
    pub stats_interval: Option<u64>,
    /// The time since the device booted, in seconds.
    pub stats_uptime: Option<u64>,
    /// The signal strength of the device, in percent.
    pub stats_signal: Option<i64>,
    /// The temperature of the device's processor in degrees Celsius: the
    /// text of a real number.
    pub stats_cputemp: Option<String>,
    /// The load of the device's processor, in percent.
    pub stats_cpuload: Option<i64>,
    /// The battery level of the device, in percent.
    pub stats_battery: Option<i64>,
    /// The free heap space of the device, in bytes.
    pub stats_freeheap: Option<u64>,
    /// The supply voltage of the device in volts: the text of a real number.
    pub stats_supply: Option<String>,
}

/// The attributes of a device that a topic can address.
#[derive(Clone, Copy, Debug, PartialEq, Eq, Structural)]
pub enum DeviceAttribute {
    /// The version of the convention that the device implements.
    Homie,
    Name,
    State,
    Implementation,
    /// The descriptions of the device's extensions, with commas between them.
    Extensions,
    /// The identifiers of the device's nodes, with commas between them.
    Nodes,
    LocalIp,
    Mac,
    FirmwareName,
    FirmwareVersion,
    StatsInterval,
    StatsUptime,
    StatsSignal,
    StatsCputemp,
    StatsCpuload,
    StatsBattery,
    StatsFreeheap,
    StatsSupply,
}

/// What a [`Device`] holds.
pub struct DeviceView {
    pub id: Seq<char>,
    pub homie_version: Seq<char>,
    pub name: Option<Seq<char>>,
    pub state: State,
    pub implementation: Option<Seq<char>>,
    pub nodes: Seq<NodeView>,
    pub extensions: Seq<ExtensionView>,
    pub local_ip: Option<Seq<char>>,
    pub mac: Option<Seq<char>>,
    pub firmware_name: Option<Seq<char>>,
    pub firmware_version: Option<Seq<char>>,
    pub stats_interval: Option<u64>,
    pub stats_uptime: Option<u64>,
    pub stats_signal: Option<i64>,
    pub stats_cputemp: Option<Seq<char>>,
    pub stats_cpuload: Option<i64>,
    pub stats_battery: Option<i64>,
    pub stats_freeheap: Option<u64>,
    pub stats_supply: Option<Seq<char>>,
}

impl View for Device {
    type V = DeviceView;

    open spec fn view(&self) -> DeviceView {
        DeviceView {
            id: self.id@,
            homie_version: self.homie_version@,
            name: opt_view(self.name),
            state: self.state,
            implementation: opt_view(self.implementation),
            nodes: view_all(self.nodes@),
            extensions: extension_views(self.extensions@),
            local_ip: opt_view(self.local_ip),
            mac: opt_view(self.mac),
            firmware_name: opt_view(self.firmware_name),
            firmware_version: opt_view(self.firmware_version),
            stats_interval: self.stats_interval,
            stats_uptime: self.stats_uptime,
            stats_signal: self.stats_signal,
            stats_cputemp: opt_view(self.stats_cputemp),
            stats_cpuload: self.stats_cpuload,
            stats_battery: self.stats_battery,
            stats_freeheap: self.stats_freeheap,
            stats_supply: opt_view(self.stats_supply),
        }
    }
}

/// The extensions that the pieces of `pieces` describe, or the first piece
/// that describes none.
pub open spec fn parse_extensions(pieces: Seq<Seq<char>>) -> Result<Seq<ExtensionView>, Seq<char>>
    decreases pieces.len(),
{
    if pieces.len() == 0 {
        Ok(Seq::empty())
    } else {
        match parse_extensions(pieces.drop_last()) {
            Ok(extensions) => match ExtensionView::parse(pieces.last()) {
                Some(extension) => Ok(extensions.push(extension)),
                None => Err(pieces.last()),
            },
            Err(piece) => Err(piece),
        }
    }
}

/// The error of a payload that denotes no number.
pub open spec fn invalid_scalar(payload: Seq<char>) -> ErrorView {
    ErrorView { kind: ErrorKind::InvalidScalar, input: payload }
}

impl DeviceView {
    /// The device `id` of which nothing has been announced but the version of
    /// the convention that it implements.
    pub open spec fn new(id: Seq<char>, homie_version: Seq<char>) -> DeviceView {
        DeviceView {
            id,
            homie_version,
            name: None,
            state: State::Unknown,
            implementation: None,
            nodes: Seq::empty(),
            extensions: Seq::empty(),
            local_ip: None,
            mac: None,
            firmware_name: None,
            firmware_version: None,
            stats_interval: None,
            stats_uptime: None,
            stats_signal: None,
            stats_cputemp: None,
            stats_cpuload: None,
            stats_battery: None,
            stats_freeheap: None,
            stats_supply: None,
        }
    }

    /// Whether the required attributes of the device, of its nodes and of
    /// their properties are known: the name, a state other than `Unknown`,
    /// and every node complete.
    pub open spec fn complete(self) -> bool {
        &&& self.name is Some
        &&& self.state != State::Unknown
        &&& forall|i: int| 0 <= i < self.nodes.len() ==> (#[trigger] self.nodes[i]).complete()
    }

    /// Whether the device, its nodes and their properties have legal
    /// identifiers, no two nodes the same and no two properties of a node the
    /// same.
    pub open spec fn well_formed(self) -> bool {
        &&& is_valid_id(self.id)
        &&& distinct(self.nodes)
        &&& forall|i: int| 0 <= i < self.nodes.len() ==> (#[trigger] self.nodes[i]).well_formed()
    }

    /// The device after `payload` was announced for `attribute`: that
    /// attribute holds what the payload denotes and the others are as they
    /// were.
    ///
    /// Texts are taken as they are. A state, a list of extensions and a
    /// number are parsed, and a payload that denotes none gives an error
    /// that holds the payload, or the piece of the list that describes no
    /// extension. A real number is kept as its text. A list of nodes makes
    /// the device hold a node for each identifier listed and no other: nodes
    /// that are listed stay as they are, and one that is listed but not known
    /// yet is added with nothing known of it. A list of which one piece is
    /// not a legal identifier gives an error that holds that piece.
    pub open spec fn with(self, attribute: DeviceAttribute, payload: Seq<char>) -> Result<
        DeviceView,
        ErrorView,
    > {
        match attribute {
            DeviceAttribute::Homie => Ok(DeviceView { homie_version: payload, ..self }),
            DeviceAttribute::Name => Ok(DeviceView { name: Some(payload), ..self }),
            DeviceAttribute::State => match State::from_text(payload) {
                Some(state) => Ok(DeviceView { state, ..self }),
                None => Err(ErrorView { kind: ErrorKind::InvalidState, input: payload }),
            },
            DeviceAttribute::Implementation => Ok(
                DeviceView { implementation: Some(payload), ..self },
            ),
            DeviceAttribute::Extensions => match parse_extensions(split(payload, ',')) {
                Ok(extensions) => Ok(DeviceView { extensions, ..self }),
                Err(piece) => Err(ErrorView { kind: ErrorKind::InvalidExtension, input: piece }),
            },
            DeviceAttribute::Nodes => match first_invalid(split(payload, ',')) {
                Some(id) => Err(ErrorView { kind: ErrorKind::InvalidIdentifier, input: id }),
                None => Ok(
                    DeviceView { nodes: restricted(self.nodes, split(payload, ',')), ..self },
                ),
            },
            DeviceAttribute::LocalIp => Ok(DeviceView { local_ip: Some(payload), ..self }),
            DeviceAttribute::Mac => Ok(DeviceView { mac: Some(payload), ..self }),
            DeviceAttribute::FirmwareName => Ok(
                DeviceView { firmware_name: Some(payload), ..self },
            ),
            DeviceAttribute::FirmwareVersion => Ok(
                DeviceView { firmware_version: Some(payload), ..self },
            ),
            DeviceAttribute::StatsInterval => match unsigned_of(payload) {
                Some(seconds) => Ok(DeviceView { stats_interval: Some(seconds), ..self }),
                None => Err(invalid_scalar(payload)),
            },
            DeviceAttribute::StatsUptime => match unsigned_of(payload) {
                Some(seconds) => Ok(DeviceView { stats_uptime: Some(seconds), ..self }),
                None => Err(invalid_scalar(payload)),
            },
            DeviceAttribute::StatsSignal => match signed_of(payload) {
                Some(percent) => Ok(DeviceView { stats_signal: Some(percent), ..self }),
                None => Err(invalid_scalar(payload)),
            },
            DeviceAttribute::StatsCputemp => if is_real_text(payload) {
                Ok(DeviceView { stats_cputemp: Some(payload), ..self })
            } else {
                Err(invalid_scalar(payload))
            },
            DeviceAttribute::StatsCpuload => match signed_of(payload) {
                Some(percent) => Ok(DeviceView { stats_cpuload: Some(percent), ..self }),
                None => Err(invalid_scalar(payload)),
            },
            DeviceAttribute::StatsBattery => match signed_of(payload) {
                Some(percent) => Ok(DeviceView { stats_battery: Some(percent), ..self }),
                None => Err(invalid_scalar(payload)),
            },
            DeviceAttribute::StatsFreeheap => match unsigned_of(payload) {
                Some(bytes) => Ok(DeviceView { stats_freeheap: Some(bytes), ..self }),
                None => Err(invalid_scalar(payload)),
            },
            DeviceAttribute::StatsSupply => if is_real_text(payload) {
                Ok(DeviceView { stats_supply: Some(payload), ..self })
            } else {
                Err(invalid_scalar(payload))
            },
        }
    }

    /// The identifiers of the nodes that leave the device when `payload` is
    /// announced for `attribute`.
    pub open spec fn removed_by(self, attribute: DeviceAttribute, payload: Seq<char>) -> Seq<
        Seq<char>,
    > {
        if attribute == DeviceAttribute::Nodes && self.with(attribute, payload) is Ok {
            dropped(self.nodes, split(payload, ','))
        } else {
            Seq::empty()
        }
    }

    /// The identifiers of the nodes that are added to the device when
    /// `payload` is announced for `attribute`.
    pub open spec fn added_by(self, attribute: DeviceAttribute, payload: Seq<char>) -> Seq<
        Seq<char>,
    > {
        if attribute == DeviceAttribute::Nodes && self.with(attribute, payload) is Ok {
            added(self.nodes, split(payload, ','))
        } else {
            Seq::empty()
        }
    }

    /// The device with the node `node_id` added, with nothing known of it,
    /// unless the device has it already.
    pub open spec fn with_node(self, node_id: Seq<char>) -> DeviceView {
        DeviceView { nodes: ensure(self.nodes, node_id), ..self }
    }

    /// The device after `payload` was announced for `attribute` of its node
    /// `node_id`, and the error of that announcement. The node is added first
    /// if the device has none of that identifier; on an error it stays as it
    /// was, or as it was added.
    pub open spec fn with_node_attribute(
        self,
        node_id: Seq<char>,
        attribute: NodeAttribute,
        payload: Seq<char>,
    ) -> (DeviceView, Option<ErrorView>) {
        let device = self.with_node(node_id);
        match lookup(device.nodes, node_id) {
            Some(node) => match node.with(attribute, payload) {
                Ok(node) => (
                    DeviceView { nodes: replace(device.nodes, node_id, node), ..device },
                    None,
                ),
                Err(error) => (device, Some(error)),
            },
            None => (device, None),
        }
    }

    /// The device after `payload` was announced for `attribute` of the
    /// property `property_id` of its node `node_id`, and the error of that
    /// announcement. The node and the property are added first where the
    /// device has none of that identifier; on an error they stay as they
    /// were, or as they were added.
    pub open spec fn with_property_attribute(
        self,
        node_id: Seq<char>,
        property_id: Seq<char>,
        attribute: PropertyAttribute,
        payload: Seq<char>,
    ) -> (DeviceView, Option<ErrorView>) {
        let device = self.with_node(node_id);
        match lookup(device.nodes, node_id) {
            Some(node) => {
                let (node, error) = node.with_property_attribute(property_id, attribute, payload);
                (DeviceView { nodes: replace(device.nodes, node_id, node), ..device }, error)
            },
            None => (device, None),
        }
    }
}

impl DeviceView {
    /// The device after `payload` was announced for `attribute`, whether the
    /// payload was taken or not: a payload that gives an error leaves the
    /// device as it was.
    pub open spec fn after(self, attribute: DeviceAttribute, payload: Seq<char>) -> DeviceView {
        match self.with(attribute, payload) {
            Ok(device) => device,
            Err(_) => self,
        }
    }
}

impl Identified for DeviceView {
    open spec fn id(self) -> Seq<char> {
        self.id
    }

    open spec fn fresh(id: Seq<char>) -> DeviceView {
        DeviceView::new(id, Seq::empty())
    }

    proof fn lemma_fresh_id(id: Seq<char>) {
    }
}

/// Parses the descriptions of extensions. On an error, returns the index of
/// the first piece that describes none.
fn parse_all(pieces: &Vec<String>) -> (parsed: Result<Vec<Extension>, usize>)
    ensures
        match parse_extensions(views(pieces@)) {
            Ok(extensions) => parsed matches Ok(v) && extension_views(v@) == extensions,
            Err(piece) => parsed matches Err(i) && i < pieces.len() && pieces[i as int]@ == piece,
        },
{
    let ghost texts = views(pieces@);
    let mut extensions: Vec<Extension> = Vec::new();
    let mut i: usize = 0;
    proof {
        assert(texts.take(0) =~= Seq::<Seq<char>>::empty());
        assert(extension_views(extensions@) =~= Seq::<ExtensionView>::empty());
    }
    while i < pieces.len()
        invariant
            i <= pieces.len(),
            texts == views(pieces@),
            parse_extensions(texts.take(i as int)) == Ok::<Seq<ExtensionView>, Seq<char>>(
                extension_views(extensions@),
            ),
        decreases pieces.len() - i,
    {
        proof {
            assert(texts.take(i + 1).drop_last() =~= texts.take(i as int));
            assert(texts.take(i + 1).last() == pieces[i as int]@);
        }
        match Extension::from_str(pieces[i].as_str()) {
            Ok(extension) => {
                proof {
                    assert(extension_views(extensions@.push(extension)) =~= extension_views(
                        extensions@,
                    ).push(extension@));
                }
                extensions.push(extension);
            },
            Err(_) => {
                proof {
                    lemma_extension_error_found(texts, i + 1);
                }
                return Err(i);
            },
        }
        i = i + 1;
    }
    proof {
        assert(texts.take(pieces.len() as int) =~= texts);
    }
    Ok(extensions)
}

/// A piece that describes no extension and is found among the first `n` of
/// `pieces` is the first such piece of them all.
proof fn lemma_extension_error_found(pieces: Seq<Seq<char>>, n: int)
    requires
        0 <= n <= pieces.len(),
        parse_extensions(pieces.take(n)) is Err,
    ensures
        parse_extensions(pieces) == parse_extensions(pieces.take(n)),
    decreases pieces.len() - n,
{
    if n == pieces.len() {
        assert(pieces.take(n) =~= pieces);
    } else {
        assert(pieces.take(n + 1).drop_last() =~= pieces.take(n));
        lemma_extension_error_found(pieces, n + 1);
    }
}

impl Device {
    /// Creates the device `id`, of which nothing is known yet but the version
    /// of the convention that it implements.
    pub fn new(id: &str, homie_version: &str) -> (device: Device)
        ensures
            device@ == DeviceView::new(id@, homie_version@),
            !device@.complete(),
    {
        let device = Device {
            id: id.to_owned(),
            homie_version: homie_version.to_owned(),
            name: None,
            state: State::Unknown,
            implementation: None,
            nodes: Vec::new(),
            extensions: Vec::default(),
            local_ip: None,
            mac: None,
            firmware_name: None,
            firmware_version: None,
            stats_interval: None,
            stats_uptime: None,
            stats_signal: None,
            stats_cputemp: None,
            stats_cpuload: None,
            stats_battery: None,
            stats_freeheap: None,
            stats_supply: None,
        };
        proof {
            assert(device@.nodes =~= Seq::empty());
            assert(device@.extensions =~= Seq::empty());
        }
        device
    }

    /// Returns whether the required attributes of the device, of its nodes
    /// and of their properties are known.
    pub fn has_required_attributes(&self) -> (complete: bool)
        ensures
            complete == self@.complete(),
    {
        if self.name.is_none() {
            return false;
        }
        match self.state {
            State::Unknown => {
                return false;
            },
            _ => {},
        }
        let mut i: usize = 0;
        while i < self.nodes.len()
            invariant
                i <= self.nodes.len(),
                forall|j: int| 0 <= j < i ==> (#[trigger] self@.nodes[j]).complete(),
            decreases self.nodes.len() - i,
        {
            if !self.nodes[i].has_required_attributes() {
                assert(!self@.nodes[i as int].complete());
                return false;
            }
            i = i + 1;
        }
        true
    }

    /// The node `id` of the device, if it has one.
    pub fn node(&self, id: &str) -> (node: Option<&Node>)
        ensures
            match lookup(self@.nodes, id@) {
                Some(found) => node matches Some(n) && n@ == found,
                None => node is None,
            },
    {
        match find(&self.nodes, id) {
            Some(i) => Some(&self.nodes[i]),
            None => None,
        }
    }

    /// Records that `payload` was announced for `attribute`. Returns the
    /// identifiers of the nodes that left the device and of those that were
    /// added to it. On an error the device is left as it was.
    pub fn set_attribute(&mut self, attribute: DeviceAttribute, payload: &str) -> (result: Result<
        (Vec<String>, Vec<String>),
        Error,
    >)
        ensures
            match old(self)@.with(attribute, payload@) {
                Ok(device) => {
                    &&& final(self)@ == device
                    &&& result matches Ok(changes)
                    &&& views(changes.0@) == old(self)@.removed_by(attribute, payload@)
                    &&& views(changes.1@) == old(self)@.added_by(attribute, payload@)
                },
                Err(error) => result matches Err(e) && e@ == error && final(self)@ == old(self)@,
            },
    {
        match attribute {
            DeviceAttribute::Homie => {
                self.homie_version = payload.to_owned();
            },
            DeviceAttribute::Name => {
                self.name = Some(payload.to_owned());
            },
            DeviceAttribute::State => match State::from_str(payload) {
                Ok(state) => {
                    self.state = state;
                },
                Err(_) => {
                    return Err(Error::new(ErrorKind::InvalidState, payload));
                },
            },
            DeviceAttribute::Implementation => {
                self.implementation = Some(payload.to_owned());
            },
            DeviceAttribute::Extensions => {
                let pieces = split_text(payload, ',');
                match parse_all(&pieces) {
                    Ok(extensions) => {
                        self.extensions = extensions;
                    },
                    Err(i) => {
                        return Err(Error::new(ErrorKind::InvalidExtension, pieces[i].as_str()));
                    },
                }
            },
            DeviceAttribute::Nodes => {
                let ids = split_text(payload, ',');
                match find_invalid(&ids) {
                    Some(i) => {
                        return Err(Error::new(ErrorKind::InvalidIdentifier, ids[i].as_str()));
                    },
                    None => {},
                }
                let mut nodes: Vec<Node> = Vec::new();
                core::mem::swap(&mut self.nodes, &mut nodes);
                let (nodes, removed, created) = restrict(nodes, &ids);
                self.nodes = nodes;
                return Ok((removed, created));
            },
            DeviceAttribute::LocalIp => {
                self.local_ip = Some(payload.to_owned());
            },
            DeviceAttribute::Mac => {
                self.mac = Some(payload.to_owned());
            },
            DeviceAttribute::FirmwareName => {
                self.firmware_name = Some(payload.to_owned());
            },
            DeviceAttribute::FirmwareVersion => {
                self.firmware_version = Some(payload.to_owned());
            },
            DeviceAttribute::StatsInterval => match parse_unsigned(payload) {
                Some(seconds) => {
                    self.stats_interval = Some(seconds);
                },
                None => {
                    return Err(Error::new(ErrorKind::InvalidScalar, payload));
                },
            },
            DeviceAttribute::StatsUptime => match parse_unsigned(payload) {
                Some(seconds) => {
                    self.stats_uptime = Some(seconds);
                },
                None => {
                    return Err(Error::new(ErrorKind::InvalidScalar, payload));
                },
            },
            DeviceAttribute::StatsSignal => match parse_signed(payload) {
                Some(percent) => {
                    self.stats_signal = Some(percent);
                },
                None => {
                    return Err(Error::new(ErrorKind::InvalidScalar, payload));
                },
            },
            DeviceAttribute::StatsCputemp => {
                if !is_real(payload) {
                    return Err(Error::new(ErrorKind::InvalidScalar, payload));
                }
                self.stats_cputemp = Some(payload.to_owned());
            },
            DeviceAttribute::StatsCpuload => match parse_signed(payload) {
                Some(percent) => {
                    self.stats_cpuload = Some(percent);
                },
                None => {
                    return Err(Error::new(ErrorKind::InvalidScalar, payload));
                },
            },
            DeviceAttribute::StatsBattery => match parse_signed(payload) {
                Some(percent) => {
                    self.stats_battery = Some(percent);
                },
                None => {
                    return Err(Error::new(ErrorKind::InvalidScalar, payload));
                },
            },
            DeviceAttribute::StatsFreeheap => match parse_unsigned(payload) {
                Some(bytes) => {
                    self.stats_freeheap = Some(bytes);
                },
                None => {
                    return Err(Error::new(ErrorKind::InvalidScalar, payload));
                },
            },
            DeviceAttribute::StatsSupply => {
                if !is_real(payload) {
                    return Err(Error::new(ErrorKind::InvalidScalar, payload));
                }
                self.stats_supply = Some(payload.to_owned());
            },
        }
        Ok(no_changes())
    }

    /// Records that `payload` was announced for `attribute` of the node
    /// `node_id`, which is added first if the device has none of that
    /// identifier. Returns whether the node was added and, unless the
    /// announcement gave an error, the identifiers of the properties that
    /// left the node and of those that were added to it.
    pub fn set_node_attribute(
        &mut self,
        node_id: &str,
        attribute: NodeAttribute,
        payload: &str,
    ) -> (result: (bool, Result<(Vec<String>, Vec<String>), Error>))
        ensures
            final(self)@ == old(self)@.with_node_attribute(node_id@, attribute, payload@).0,
            result.0 == (position(old(self)@.nodes, node_id@) is None),
            match old(self)@.with_node_attribute(node_id@, attribute, payload@).1 {
                Some(error) => result.1 matches Err(e) && e@ == error,
                None => {
                    let node = lookup(old(self)@.with_node(node_id@).nodes, node_id@)->0;
                    &&& result.1 matches Ok(changes)
                    &&& views(changes.0@) == node.removed_by(attribute, payload@)
                    &&& views(changes.1@) == node.added_by(attribute, payload@)
                },
            },
    {
        let ghost before = self@;
        let (i, created) = find_or_add(&mut self.nodes, node_id);
        let ghost listed = view_all(self.nodes@);
        proof {
            assert(self@ == before.with_node(node_id@));
            lemma_position(listed, node_id@);
        }
        let result = self.nodes[i].set_attribute(attribute, payload);
        proof {
            assert(view_all(self.nodes@) =~= listed.update(i as int, self.nodes[i as int]@));
            if result is Err {
                assert(view_all(self.nodes@) =~= listed);
            }
        }
        (created, result)
    }

    /// Records that `payload` was announced for `attribute` of the property
    /// `property_id` of the node `node_id`. The node and the property are
    /// added first where the device has none of that identifier. Returns
    /// whether the node was added, whether the property was added, and the
    /// error of the announcement if there was one.
    pub fn set_property_attribute(
        &mut self,
        node_id: &str,
        property_id: &str,
        attribute: PropertyAttribute,
        payload: &str,
    ) -> (result: (bool, bool, Option<Error>))
        ensures
            final(self)@ == old(self)@.with_property_attribute(
                node_id@,
                property_id@,
                attribute,
                payload@,
            ).0,
            opt_error_view(result.2) == old(self)@.with_property_attribute(
                node_id@,
                property_id@,
                attribute,
                payload@,
            ).1,
            result.0 == (position(old(self)@.nodes, node_id@) is None),
            result.1 == (position(
                lookup(old(self)@.with_node(node_id@).nodes, node_id@)->0.properties,
                property_id@,
            ) is None),
    {
        let ghost before = self@;
        let (i, node_created) = find_or_add(&mut self.nodes, node_id);
        let ghost listed = view_all(self.nodes@);
        proof {
            assert(self@ == before.with_node(node_id@));
            lemma_position(listed, node_id@);
        }
        let (property_created, error) = self.nodes[i].set_property_attribute(
            property_id,
            attribute,
            payload,
        );
        proof {
            assert(view_all(self.nodes@) =~= listed.update(i as int, self.nodes[i as int]@));
        }
        (node_created, property_created, error)
    }
}

impl Entity for Device {
    fn id(&self) -> (id: &String) {
        &self.id
    }

    fn fresh(id: &str) -> (device: Device) {
        proof {
            reveal_strlit("");
            assert(""@ =~= Seq::<char>::empty());
        }
        Device::new(id, "")
    }
}

/// An announcement for an attribute of a well-formed device leaves it
/// well-formed, with the identifier that it had.
pub proof fn lemma_device_with_well_formed(
    device: DeviceView,
    attribute: DeviceAttribute,
    payload: Seq<char>,
)
    requires
        device.well_formed(),
    ensures
        device.with(attribute, payload) matches Ok(after) ==> after.well_formed() && after.id
            == device.id,
{
    if attribute == DeviceAttribute::Nodes && device.with(attribute, payload) is Ok {
        let ids = split(payload, ',');
        let after = restricted(device.nodes, ids);
        lemma_all_valid(ids);
        lemma_restricted(device.nodes, ids);
        assert forall|j: int| 0 <= j < after.len() implies (#[trigger] after[j]).well_formed() by {
            if device.nodes.contains(after[j]) {
                let i = choose|i: int| 0 <= i < device.nodes.len() && device.nodes[i] == after[j];
                assert(device.nodes[i].well_formed());
            } else {
                let i = choose|i: int| 0 <= i < ids.len() && ids[i] == after[j].id();
                assert(is_valid_id(ids[i]));
            }
        }
    }
}

/// A well-formed device stays well-formed, with the identifier that it had,
/// when a node with a legal identifier is added to it.
pub proof fn lemma_device_with_node_well_formed(device: DeviceView, node_id: Seq<char>)
    requires
        device.well_formed(),
        is_valid_id(node_id),
    ensures
        device.with_node(node_id).well_formed(),
        device.with_node(node_id).id == device.id,
        lookup(device.with_node(node_id).nodes, node_id) is Some,
        lookup(device.with_node(node_id).nodes, node_id)->0.well_formed(),
        lookup(device.with_node(node_id).nodes, node_id)->0.id == node_id,
{
    let listed = ensure(device.nodes, node_id);
    lemma_ensure(device.nodes, node_id);
    lemma_position(device.nodes, node_id);
    lemma_position(listed, node_id);
    assert forall|j: int| 0 <= j < listed.len() implies (#[trigger] listed[j]).well_formed() by {
        if j < device.nodes.len() {
            assert(listed[j] == device.nodes[j]);
        }
    }
}

/// An announcement for an attribute of a node of a well-formed device leaves
/// the device well-formed, with the identifier that it had, if the
/// identifier of the node is legal.
pub proof fn lemma_device_with_node_attribute_well_formed(
    device: DeviceView,
    node_id: Seq<char>,
    attribute: NodeAttribute,
    payload: Seq<char>,
)
    requires
        device.well_formed(),
        is_valid_id(node_id),
    ensures
        device.with_node_attribute(node_id, attribute, payload).0.well_formed(),
        device.with_node_attribute(node_id, attribute, payload).0.id == device.id,
{
    lemma_device_with_node_well_formed(device, node_id);
    let listed = device.with_node(node_id).nodes;
    let node = lookup(listed, node_id)->0;
    lemma_node_with_well_formed(node, attribute, payload);
    match node.with(attribute, payload) {
        Ok(changed) => {
            let after = replace(listed, node_id, changed);
            lemma_replace(listed, node_id, changed, node_id);
            lemma_position(listed, node_id);
            assert forall|j: int| 0 <= j < after.len() implies (#[trigger] after[j]).well_formed() by {
                assert(listed[j].well_formed());
            }
        },
        Err(_) => {},
    }
}

/// An announcement for an attribute of a property of a well-formed device
/// leaves the device well-formed, with the identifier that it had, if the
/// identifiers of the node and of the property are legal.
pub proof fn lemma_device_with_property_attribute_well_formed(
    device: DeviceView,
    node_id: Seq<char>,
    property_id: Seq<char>,
    attribute: PropertyAttribute,
    payload: Seq<char>,
)
    requires
        device.well_formed(),
        is_valid_id(node_id),
        is_valid_id(property_id),
    ensures
        device.with_property_attribute(node_id, property_id, attribute, payload).0.well_formed(),
        device.with_property_attribute(node_id, property_id, attribute, payload).0.id == device.id,
{
    lemma_device_with_node_well_formed(device, node_id);
    let listed = device.with_node(node_id).nodes;
    let node = lookup(listed, node_id)->0;
    lemma_node_with_property_attribute_well_formed(node, property_id, attribute, payload);
    let changed = node.with_property_attribute(property_id, attribute, payload).0;
    let after = replace(listed, node_id, changed);
    lemma_replace(listed, node_id, changed, node_id);
    lemma_position(listed, node_id);
    assert forall|j: int| 0 <= j < after.len() implies (#[trigger] after[j]).well_formed() by {
        assert(listed[j].well_formed());
    }
}

/// A device with a node that is not complete is not complete. So a device
/// to which a node is added, of which nothing is known yet, is not complete,
/// and neither is a device of which nothing is known yet.
pub proof fn lemma_incomplete_node_makes_incomplete(device: DeviceView, node_id: Seq<char>)
    ensures
        !DeviceView::new(device.id, device.homie_version).complete(),
        forall|i: int|
            0 <= i < device.nodes.len() && !(#[trigger] device.nodes[i]).complete()
                ==> !device.complete(),
        position(device.nodes, node_id) is None ==> !device.with_node(node_id).complete(),
        device.complete() ==> device.name is Some && device.state != State::Unknown,
{
    if position(device.nodes, node_id) is None {
        let added = device.with_node(node_id);
        assert(added.nodes[device.nodes.len() as int] == NodeView::new(node_id));
        assert(!added.nodes[device.nodes.len() as int].complete());
    }
}

/// An announcement leaves the identifier of a device as it was, and making
/// the same announcement twice leaves the device as the first left it.
pub proof fn lemma_device_after(device: DeviceView, attribute: DeviceAttribute, payload: Seq<char>)
    ensures
        device.after(attribute, payload).id == device.id,
        device.after(attribute, payload).after(attribute, payload) == device.after(
            attribute,
            payload,
        ),
{
    if attribute == DeviceAttribute::Nodes {
        lemma_restricted_idempotent(device.nodes, split(payload, ','));
    }
}

/// What an announcement for a node does to a device: the node is added if
/// it is missing, and takes the announcement.
pub proof fn lemma_device_with_node_attribute(
    device: DeviceView,
    node_id: Seq<char>,
    attribute: NodeAttribute,
    payload: Seq<char>,
)
    ensures
        device.with_node_attribute(node_id, attribute, payload).0 == (DeviceView {
            nodes: amended(
                device.nodes,
                node_id,
                settled(device.nodes, node_id).after(attribute, payload),
            ),
            ..device
        }),
{
    let node = settled(device.nodes, node_id);
    lemma_settled(device.nodes, node_id);
    lemma_amended(device.nodes, node_id, node, node);
}

/// Making the same announcement for a node twice leaves the device as the
/// first left it.
pub proof fn lemma_device_with_node_attribute_idempotent(
    device: DeviceView,
    node_id: Seq<char>,
    attribute: NodeAttribute,
    payload: Seq<char>,
)
    ensures
        device.with_node_attribute(node_id, attribute, payload).0.with_node_attribute(
            node_id,
            attribute,
            payload,
        ).0 == device.with_node_attribute(node_id, attribute, payload).0,
{
    let node = settled(device.nodes, node_id);
    let once = node.after(attribute, payload);
    let middle = device.with_node_attribute(node_id, attribute, payload).0;
    lemma_device_with_node_attribute(device, node_id, attribute, payload);
    lemma_device_with_node_attribute(middle, node_id, attribute, payload);
    lemma_node_after(node, attribute, payload);
    lemma_settled(device.nodes, node_id);
    lemma_amended(device.nodes, node_id, once, once);
}

/// What an announcement for a property does to a device: the node is added
/// if it is missing, and takes the announcement for its property.
pub proof fn lemma_device_with_property_attribute(
    device: DeviceView,
    node_id: Seq<char>,
    property_id: Seq<char>,
    attribute: PropertyAttribute,
    payload: Seq<char>,
)
    ensures
        device.with_property_attribute(node_id, property_id, attribute, payload).0 == (DeviceView {
            nodes: amended(
                device.nodes,
                node_id,
                settled(device.nodes, node_id).with_property_attribute(
                    property_id,
                    attribute,
                    payload,
                ).0,
            ),
            ..device
        }),
{
    lemma_settled(device.nodes, node_id);
}

/// What two announcements for the same property do to a device, one after
/// the other: the node is added if it is missing, and takes both.
pub proof fn lemma_device_with_property_attribute_twice(
    device: DeviceView,
    node_id: Seq<char>,
    property_id: Seq<char>,
    first: PropertyAttribute,
    first_payload: Seq<char>,
    second: PropertyAttribute,
    second_payload: Seq<char>,
)
    ensures
        device.with_property_attribute(
            node_id,
            property_id,
            first,
            first_payload,
        ).0.with_property_attribute(node_id, property_id, second, second_payload).0 == (DeviceView {
            nodes: amended(
                device.nodes,
                node_id,
                settled(device.nodes, node_id).with_property_attribute(
                    property_id,
                    first,
                    first_payload,
                ).0.with_property_attribute(property_id, second, second_payload).0,
            ),
            ..device
        }),
{
    let node = settled(device.nodes, node_id);
    let once = node.with_property_attribute(property_id, first, first_payload).0;
    let twice = once.with_property_attribute(property_id, second, second_payload).0;
    let middle = device.with_property_attribute(node_id, property_id, first, first_payload).0;
    lemma_device_with_property_attribute(device, node_id, property_id, first, first_payload);
    lemma_device_with_property_attribute(middle, node_id, property_id, second, second_payload);
    lemma_node_with_property_attribute(node, property_id, first, first_payload);
    lemma_node_with_property_attribute(once, property_id, second, second_payload);
    lemma_settled(device.nodes, node_id);
    lemma_amended(device.nodes, node_id, once, twice);
}

/// Only the name and the data type of a property count for completeness: an
/// announcement for another attribute of a property, or of its value, does
/// not make complete a device that was incomplete.
pub proof fn lemma_only_name_and_datatype_complete(
    device: DeviceView,
    node_id: Seq<char>,
    property_id: Seq<char>,
    attribute: PropertyAttribute,
    payload: Seq<char>,
)
    requires
        attribute != PropertyAttribute::Name,
        attribute != PropertyAttribute::Datatype,
        device.with_property_attribute(node_id, property_id, attribute, payload).0.complete(),
    ensures
        device.complete(),
{
    let after = device.with_property_attribute(node_id, property_id, attribute, payload).0;
    let node = settled(device.nodes, node_id);
    let property = settled(node.properties, property_id);
    let changed_property = property.after(attribute, payload);
    let changed_node = node.with_property_attribute(property_id, attribute, payload).0;
    lemma_device_with_property_attribute(device, node_id, property_id, attribute, payload);
    lemma_node_with_property_attribute(node, property_id, attribute, payload);
    lemma_settled(device.nodes, node_id);
    lemma_settled(node.properties, property_id);
    lemma_ensure(device.nodes, node_id);
    lemma_ensure(node.properties, property_id);
    let nodes = ensure(device.nodes, node_id);
    let properties = ensure(node.properties, property_id);
    lemma_position(nodes, node_id);
    lemma_position(properties, property_id);
    let k = position(nodes, node_id)->0;
    let i = position(properties, property_id)->0;
    assert(after.nodes[k] == changed_node);
    assert(changed_node.complete());
    assert(changed_node.properties[i] == changed_property);
    assert(changed_property.complete());
    assert(property.complete());
    assert(properties == node.properties);
    assert forall|j: int| 0 <= j < node.properties.len() implies (
    #[trigger] node.properties[j]).complete() by {
        if j != i {
            assert(changed_node.properties[j] == node.properties[j]);
        }
    }
    assert(node.complete());
    assert(nodes == device.nodes);
    assert forall|j: int| 0 <= j < device.nodes.len() implies (
    #[trigger] device.nodes[j]).complete() by {
        if j != k {
            assert(after.nodes[j] == device.nodes[j]);
        }
    }
}

/// What a list of nodes does to a device: a node that is listed and was
/// known stays as it was, one that is listed and was not known is added with
/// nothing known of it, and one that is not listed leaves the device.
pub proof fn lemma_device_listed_nodes(device: DeviceView, payload: Seq<char>, id: Seq<char>)
    requires
        device.with(DeviceAttribute::Nodes, payload) is Ok,
    ensures
        lookup(device.with(DeviceAttribute::Nodes, payload)->Ok_0.nodes, id) == if !split(
            payload,
            ',',
        ).contains(id) {
            None
        } else if position(device.nodes, id) is Some {
            lookup(device.nodes, id)
        } else {
            Some(NodeView::new(id))
        },
{
    lemma_restricted_lookup(device.nodes, split(payload, ','), id);
}

/// An announcement for a node reaches that node and no other: the node is
/// found afterwards as it was, or as a fresh one, with the announcement
/// taken, and every other node is found as it was.
pub proof fn lemma_device_with_node_attribute_reach(
    device: DeviceView,
    node_id: Seq<char>,
    attribute: NodeAttribute,
    payload: Seq<char>,
    other: Seq<char>,
)
    ensures
        lookup(device.with_node_attribute(node_id, attribute, payload).0.nodes, node_id) == Some(
            settled(device.nodes, node_id).after(attribute, payload),
        ),
        other != node_id ==> lookup(
            device.with_node_attribute(node_id, attribute, payload).0.nodes,
            other,
        ) == lookup(device.nodes, other),
        (DeviceView { nodes: device.nodes, ..device.with_node_attribute(
            node_id,
            attribute,
            payload,
        ).0 }) == device,
{
    let changed = settled(device.nodes, node_id).after(attribute, payload);
    lemma_device_with_node_attribute(device, node_id, attribute, payload);
    lemma_settled(device.nodes, node_id);
    lemma_node_after(settled(device.nodes, node_id), attribute, payload);
    lemma_amended(device.nodes, node_id, changed, changed);
    if other != node_id {
        lemma_amended_other(device.nodes, node_id, changed, other);
    }
}

/// An announcement for a property reaches the node of that property and no
/// other: the node is found afterwards as it was, or as a fresh one, with
/// the announcement taken by its property, and every other node is found as
/// it was.
pub proof fn lemma_device_with_property_attribute_reach(
    device: DeviceView,
    node_id: Seq<char>,
    property_id: Seq<char>,
    attribute: PropertyAttribute,
    payload: Seq<char>,
    other: Seq<char>,
)
    ensures
        lookup(
            device.with_property_attribute(node_id, property_id, attribute, payload).0.nodes,
            node_id,
        ) == Some(
            settled(device.nodes, node_id).with_property_attribute(
                property_id,
                attribute,
                payload,
            ).0,
        ),
        other != node_id ==> lookup(
            device.with_property_attribute(node_id, property_id, attribute, payload).0.nodes,
            other,
        ) == lookup(device.nodes, other),
        (DeviceView { nodes: device.nodes, ..device.with_property_attribute(
            node_id,
            property_id,
            attribute,
            payload,
        ).0 }) == device,
{
    let node = settled(device.nodes, node_id);
    let changed = node.with_property_attribute(property_id, attribute, payload).0;
    lemma_device_with_property_attribute(device, node_id, property_id, attribute, payload);
    lemma_settled(device.nodes, node_id);
    lemma_node_with_property_attribute(node, property_id, attribute, payload);
    lemma_amended(device.nodes, node_id, changed, changed);
    if other != node_id {
        lemma_amended_other(device.nodes, node_id, changed, other);
    }
}

} // verus!
