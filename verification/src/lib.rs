//! An interactive portfolio tracker's verified core: the asset model, the
//! summary arithmetic, the exact decimal formatting of money and percent
//! changes, the command parser of the interactive loop, and the persistence
//! codec with its round-trip guarantee.

pub mod asset;
pub mod codec;
pub mod commands;
pub mod digits;
pub mod portfolio;
pub mod report;
