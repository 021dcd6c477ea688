//! Bring-up and streaming support for a USB3 ADC front end: boot image loading with
//! verified write/readback, device commands, sample transform, rate measurement and
//! the bookkeeping of the bulk reads kept in flight.
pub mod image;
pub mod loader;
pub mod measure;
pub mod memory;
pub mod rx888;
pub mod samples;
pub mod stream;
pub mod usb;
