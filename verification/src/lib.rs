//! A controller for devices that follow the Homie convention: it builds a
//! model of the devices, nodes and properties that announce themselves
//! attribute by attribute on a message bus.
//!
//! [`controller`] holds the model and records the messages. [`topic`] routes
//! a topic to the attribute that it addresses, [`types`] holds the entities
//! and the parsers of their attributes, [`scalar`] the parsers of numbers,
//! [`ident`] the grammar of identifiers, and [`event`] the notifications of
//! changes. [`bluetooth`] reads the events of Bluetooth adapters and devices
//! from the signals of the Bluetooth service.

pub mod bluetooth;
pub mod controller;
pub mod error;
pub mod event;
pub mod ident;
pub mod scalar;
pub mod text;
pub mod topic;
pub mod types;
