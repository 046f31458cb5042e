//! Decoding of PCI configuration space and the views built on it.
use vstd::prelude::*;

pub mod bits;
pub mod browser;
pub mod capability;
pub mod cli;
pub mod color;
pub mod config;
pub mod decoders;
pub mod details;
pub mod device;
pub mod error;
pub mod field;
pub mod header;
pub mod json;
pub mod labels;
pub mod model;
pub mod names;
pub mod order;
pub mod output;
pub mod reader;
pub mod scan;
pub mod segments;
pub mod styled;
pub mod text;
pub mod tree;

verus! {
} // verus!
