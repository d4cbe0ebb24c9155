//! Properties of a node.

use vstd::prelude::*;

use crate::error::{Error, ErrorKind, ErrorView};
use crate::scalar::{boolean_of, parse_boolean};
use crate::text::opt_view;
use crate::types::datatype::Datatype;
use crate::types::entity::{Entity, Identified};

verus! {

/// A property of a node.
///
/// The name and the data type are required, but may not be known yet when
/// the property is first heard of. The other attributes are optional.
#[derive(Clone, Debug, PartialEq, Eq)]
pub struct Property {
    /// The identifier of the property, unique within its node.
    pub id: String,
    /// The human-readable name of the property.
    pub name: Option<String>,
    /// The data type of the property's values.
    pub datatype: Option<Datatype>,
    /// Whether a controller can set the property. False unless announced.
    pub settable: bool,
    /// Whether the value of the property is retained. True unless announced
    /// otherwise.
    pub retained: bool,
    /// The unit of the property's values.
    pub unit: Option<String>,
    /// The format of the property's values.
    pub format: Option<String>,
    /// The latest value of the property, as it was announced.
    pub value: Option<String>,
}

/// The attributes of a property that a topic can address.
#[derive(Clone, Copy, Debug, PartialEq, Eq, Structural)]
pub enum PropertyAttribute {
    Name,
    Datatype,
    Settable,
    Retained,
    Unit,
    Format,
    /// The value of the property, which is published on the property's own
    /// topic.
    Value,
}

/// What a [`Property`] holds.
pub struct PropertyView {
    pub id: Seq<char>,
    pub name: Option<Seq<char>>,
    pub datatype: Option<Datatype>,
    pub settable: bool,
    pub retained: bool,
    pub unit: Option<Seq<char>>,
    pub format: Option<Seq<char>>,
    pub value: Option<Seq<char>>,
}

impl View for Property {
    type V = PropertyView;

    open spec fn view(&self) -> PropertyView {
        PropertyView {
            id: self.id@,
            name: opt_view(self.name),
            datatype: self.datatype,
            settable: self.settable,
            retained: self.retained,
            unit: opt_view(self.unit),
            format: opt_view(self.format),
            value: opt_view(self.value),
        }
    }
}

impl PropertyView {
    /// The property `id` of which nothing has been announced.
    pub open spec fn new(id: Seq<char>) -> PropertyView {
        PropertyView {
            id,
            name: None,
            datatype: None,
            settable: false,
            retained: true,
            unit: None,
            format: None,
            value: None,
        }
    }

    /// Whether the required attributes of the property are known.
    pub open spec fn complete(self) -> bool {
        self.name is Some && self.datatype is Some
    }

    /// The property after `payload` was announced for `attribute`: that
    /// attribute holds what the payload denotes and the others are as they
    /// were. A payload that denotes no value of the attribute's type gives an
    /// error that holds the payload.
    pub open spec fn with(self, attribute: PropertyAttribute, payload: Seq<char>) -> Result<
        PropertyView,
        ErrorView,
    > {
        match attribute {
            PropertyAttribute::Name => Ok(PropertyView { name: Some(payload), ..self }),
            PropertyAttribute::Datatype => match Datatype::from_text(payload) {
                Some(datatype) => Ok(PropertyView { datatype: Some(datatype), ..self }),
                None => Err(ErrorView { kind: ErrorKind::InvalidDatatype, input: payload }),
            },
            PropertyAttribute::Settable => match boolean_of(payload) {
                Some(settable) => Ok(PropertyView { settable, ..self }),
                None => Err(ErrorView { kind: ErrorKind::InvalidScalar, input: payload }),
            },
            PropertyAttribute::Retained => match boolean_of(payload) {
                Some(retained) => Ok(PropertyView { retained, ..self }),
                None => Err(ErrorView { kind: ErrorKind::InvalidScalar, input: payload }),
            },
            PropertyAttribute::Unit => Ok(PropertyView { unit: Some(payload), ..self }),
            PropertyAttribute::Format => Ok(PropertyView { format: Some(payload), ..self }),
            PropertyAttribute::Value => Ok(PropertyView { value: Some(payload), ..self }),
        }
    }
}

impl PropertyView {
    /// The property after `payload` was announced for `attribute`, whether
    /// the payload was taken or not: a payload that gives an error leaves the
    /// property as it was.
    pub open spec fn after(self, attribute: PropertyAttribute, payload: Seq<char>) -> PropertyView {
        match self.with(attribute, payload) {
            Ok(property) => property,
            Err(_) => self,
        }
    }
}

impl Identified for PropertyView {
    open spec fn id(self) -> Seq<char> {
        self.id
    }

    open spec fn fresh(id: Seq<char>) -> PropertyView {
        PropertyView::new(id)
    }

    proof fn lemma_fresh_id(id: Seq<char>) {
    }
}

impl Property {
    /// Creates the property `id`, with nothing known of it yet.
    pub fn new(id: &str) -> (property: Property)
        ensures
            property@ == PropertyView::new(id@),
    {
        Property {
            id: id.to_owned(),
            name: None,
            datatype: None,
            settable: false,
            retained: true,
            unit: None,
            format: None,
            value: None,
        }
    }

    /// Returns whether the required attributes of the property are known.
    pub fn has_required_attributes(&self) -> (complete: bool)
        ensures
            complete == self@.complete(),
    {
        self.name.is_some() && self.datatype.is_some()
    }

    /// Records that `payload` was announced for `attribute`. On an error the
    /// property is left as it was.
    pub fn set_attribute(&mut self, attribute: PropertyAttribute, payload: &str) -> (result: Result<
        (),
        Error,
    >)
        ensures
            match old(self)@.with(attribute, payload@) {
                Ok(property) => result is Ok && final(self)@ == property,
                Err(error) => result matches Err(e) && e@ == error && final(self)@ == old(self)@,
            },
    {
        match attribute {
            PropertyAttribute::Name => {
                self.name = Some(payload.to_owned());
            },
            PropertyAttribute::Datatype => match Datatype::from_str(payload) {
                Ok(datatype) => {
                    self.datatype = Some(datatype);
                },
                Err(_) => {
                    return Err(Error::new(ErrorKind::InvalidDatatype, payload));
                },
            },
            PropertyAttribute::Settable => match parse_boolean(payload) {
                Some(settable) => {
                    self.settable = settable;
                },
                None => {
                    return Err(Error::new(ErrorKind::InvalidScalar, payload));
                },
            },
            PropertyAttribute::Retained => match parse_boolean(payload) {
                Some(retained) => {
                    self.retained = retained;
                },
                None => {
                    return Err(Error::new(ErrorKind::InvalidScalar, payload));
                },
            },
            PropertyAttribute::Unit => {
                self.unit = Some(payload.to_owned());
            },
            PropertyAttribute::Format => {
                self.format = Some(payload.to_owned());
            },
            PropertyAttribute::Value => {
                self.value = Some(payload.to_owned());
            },
        }
        Ok(())
    }
}

impl Entity for Property {
    fn id(&self) -> (id: &String) {
        &self.id
    }

    fn fresh(id: &str) -> (property: Property) {
        Property::new(id)
    }
}

/// An announcement leaves the identifier of a property as it was. Making
/// the same announcement twice leaves the property as the first left it.
/// Announcements for two different attributes can be made in either order:
/// the property is the same afterwards.
pub proof fn lemma_property_after(
    property: PropertyView,
    first: PropertyAttribute,
    first_payload: Seq<char>,
    second: PropertyAttribute,
    second_payload: Seq<char>,
)
    ensures
        property.after(first, first_payload).id == property.id,
        property.after(first, first_payload).after(first, first_payload) == property.after(
            first,
            first_payload,
        ),
        first != second ==> property.after(first, first_payload).after(second, second_payload)
            == property.after(second, second_payload).after(first, first_payload),
{
}

} // verus!
