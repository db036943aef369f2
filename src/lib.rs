//! Locating and patching the PCI Express Link Control register inside a raw
//! capture of a device's configuration space.

pub mod capability;
pub mod cli;
pub mod register;
