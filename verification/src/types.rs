//! The entity model: devices, their nodes and properties, and the values of
//! their attributes.

pub mod datatype;
pub mod device;
pub mod entity;
pub mod extension;
pub mod node;
pub mod property;
pub mod state;

pub use self::datatype::{Datatype, ParseDatatypeError};
pub use self::device::{Device, DeviceAttribute, DeviceView};
pub use self::extension::{Extension, ExtensionView, ParseExtensionError};
pub use self::node::{Node, NodeAttribute, NodeView};
pub use self::property::{Property, PropertyAttribute, PropertyView};
pub use self::state::{ParseStateError, State};
