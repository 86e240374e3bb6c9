//! Emulation of the PCI MSI capability structure, and the bookkeeping that keeps
//! a GSI routing table in step with what the guest writes into it.

pub mod cap;
pub mod config;
