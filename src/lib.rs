//! A minimal cross-consensus message virtual machine: locations, assets, the
//! holding register, the instruction interpreter and a composing façade.

pub mod asset;
pub mod error;
pub mod executor;
pub mod filters;
pub mod holding;
pub mod instruction;
pub mod location;
pub mod order;
pub mod pallet_xcm;
