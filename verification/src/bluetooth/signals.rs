//! Reading of the signals of the message bus.
//!
//! The signals are values of the `dbus` crate, decoded from the messages of
//! the bus before they come here. What they hold is named here, and read
//! through the functions of that crate: nothing in this file is proved.

use dbus::arg::prop_cast;
use dbus::nonblock::stdintf::org_freedesktop_dbus::{
    ObjectManagerInterfacesAdded, PropertiesPropertiesChanged,
};
use vstd::prelude::*;

verus! {

/// `PropertiesPropertiesChanged` of `dbus`: the signal that properties of an
/// object have changed.
#[verifier::external_type_specification]
#[verifier::external_body]
pub struct ExPropertiesPropertiesChanged(
    dbus::nonblock::stdintf::org_freedesktop_dbus::PropertiesPropertiesChanged,
);

/// `ObjectManagerInterfacesAdded` of `dbus`: the signal that an object has
/// new interfaces.
#[verifier::external_type_specification]
#[verifier::external_body]
pub struct ExObjectManagerInterfacesAdded(
    dbus::nonblock::stdintf::org_freedesktop_dbus::ObjectManagerInterfacesAdded,
);

/// The name of the interface whose properties `changed` is about.
pub uninterp spec fn interface_name(changed: PropertiesPropertiesChanged) -> Seq<char>;

/// The new value of the property `key` in `changed`, if it is there and is
/// a truth value.
pub uninterp spec fn boolean_property(
    changed: PropertiesPropertiesChanged,
    key: Seq<char>,
) -> Option<bool>;

/// The new value of the property `key` in `changed`, if it is there and is
/// a signed integer of 16 bits.
pub uninterp spec fn short_property(
    changed: PropertiesPropertiesChanged,
    key: Seq<char>,
) -> Option<i16>;

/// The new value of the property `key` in `changed`, if it is there and is
/// an array of bytes.
pub uninterp spec fn bytes_property(
    changed: PropertiesPropertiesChanged,
    key: Seq<char>,
) -> Option<Seq<u8>>;

/// The path of the object that has the new interfaces of `added`.
pub uninterp spec fn added_object(added: ObjectManagerInterfacesAdded) -> Seq<char>;

/// Whether `name` is among the new interfaces of `added`.
pub uninterp spec fn has_interface(added: ObjectManagerInterfacesAdded, name: Seq<char>) -> bool;

/// The view of optional bytes.
pub open spec fn opt_bytes_view(bytes: Option<Vec<u8>>) -> Option<Seq<u8>> {
    match bytes {
        Some(bytes) => Some(bytes@),
        None => None,
    }
}

/// The field `interface_name` of `PropertiesPropertiesChanged`.
#[verifier::external_body]
pub(crate) fn interface_name_of(changed: &PropertiesPropertiesChanged) -> (name: String)
    ensures
        name@ == interface_name(*changed),
{
    changed.interface_name.clone()
}

/// `prop_cast` of `dbus` to `bool`, on the changed properties of `changed`:
/// the value of the property `key`, if it is there and of that type.
#[verifier::external_body]
pub(crate) fn boolean_of(changed: &PropertiesPropertiesChanged, key: &str) -> (value: Option<bool>)
    ensures
        value == boolean_property(*changed, key@),
{
    prop_cast::<bool>(&changed.changed_properties, key).copied()
}

/// `prop_cast` of `dbus` to `i16`, on the changed properties of `changed`:
/// the value of the property `key`, if it is there and of that type.
#[verifier::external_body]
pub(crate) fn short_of(changed: &PropertiesPropertiesChanged, key: &str) -> (value: Option<i16>)
    ensures
        value == short_property(*changed, key@),
{
    prop_cast::<i16>(&changed.changed_properties, key).copied()
}

/// `prop_cast` of `dbus` to `Vec<u8>`, on the changed properties of
/// `changed`: the value of the property `key`, if it is there and of that
/// type.
#[verifier::external_body]
pub(crate) fn bytes_of(changed: &PropertiesPropertiesChanged, key: &str) -> (value: Option<
    Vec<u8>,
>)
    ensures
        opt_bytes_view(value) == bytes_property(*changed, key@),
{
    prop_cast::<Vec<u8>>(&changed.changed_properties, key).cloned()
}

/// The field `object` of `ObjectManagerInterfacesAdded`, as text.
#[verifier::external_body]
pub(crate) fn added_object_of(added: &ObjectManagerInterfacesAdded) -> (path: String)
    ensures
        path@ == added_object(*added),
{
    (*added.object).to_owned()
}

/// Whether the field `interfaces` of `ObjectManagerInterfacesAdded` has the
/// key `name`.
#[verifier::external_body]
pub(crate) fn has_interface_named(added: &ObjectManagerInterfacesAdded, name: &str) -> (has: bool)
    ensures
        has == has_interface(*added, name@),
{
    added.interfaces.contains_key(name)
}

} // verus!
