//! What the library promises, stated of what goes into its functions and what comes
//! out of them, character by character and item by item.

pub mod address;
pub mod advertisement;
pub mod bluez;
pub mod clock;
pub mod core_bluetooth;
pub mod list;
pub mod payload;
pub mod report;
pub mod text;
pub mod winrt;
