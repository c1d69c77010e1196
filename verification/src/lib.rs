//! State tracking and event dispatch for a Bluetooth Low Energy central:
//! device addresses, merged advertisement properties, a registry of the
//! peripherals seen so far, and a broadcast of lifecycle events.

pub mod adapter_manager;
pub mod address;
pub mod characteristic;
pub mod dispatcher;
pub mod error;
pub mod event;
pub mod laws;
pub mod merge;
pub mod notifications;
pub mod properties;
pub mod registry;

pub use adapter_manager::AdapterManager;
pub use address::{AddressType, BDAddr, ParseBDAddrError};
pub use characteristic::{CharPropFlags, Characteristic, ValueNotification, WriteType};
pub use dispatcher::EventDispatcher;
pub use error::Error;
pub use event::CentralEvent;
pub use merge::MergeChanges;
pub use notifications::NotificationRouter;
pub use properties::{AdvertisementReport, PeripheralProperties};
pub use registry::{DeviceRecord, DeviceRegistry};
