//! The logic of native BLE advertisement scanning, verified.
//!
//! A scan hears advertisements of the same devices again and again, through an
//! interface that differs from one operating system to the next. This crate says
//! what the events of each interface mean ([`bluez`], [`core_bluetooth`], [`winrt`]),
//! merges the advertisements of each device ([`advertisement`]), decides how long a
//! scan waits and when it ends ([`clock`]) and makes the report of it ([`report`]).
//! It does no input or output itself. What its functions promise together, in terms
//! of what goes in and what comes out, stands in [`laws`].

pub mod address;
pub mod advertisement;
pub mod bluez;
pub mod clock;
pub mod core_bluetooth;
pub mod error;
pub mod laws;
pub mod observer;
pub mod payload;
pub mod report;
pub mod text;
pub mod winrt;

pub use address::AddressType;
pub use advertisement::{Advertisement, AdvertisementSet, RawAdvertisement};
pub use error::Error;
pub use observer::{NoopObserver, ScanObserver};
pub use payload::{ManufacturerData, ServiceData};
pub use report::{AdapterReport, ScanReport};
