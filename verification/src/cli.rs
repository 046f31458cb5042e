//! The commands of the command-line tool, as plain values.
use vstd::prelude::*;
use crate::color::ColorMode;
use crate::config::ConfigReadLevel;
use crate::device::PciAddress;

verus! {

/// The command line: a command and when to color the output.
#[derive(Debug)]
pub struct Cli {
    pub command: Command,
    pub color: ColorMode,
}

/// What the tool is asked to do.
#[derive(Debug)]
pub enum Command {
    /// List every device.
    List { format: OutputFormat },
    /// Show one device, with its configuration space when a level is given.
    Show { address: PciAddress, config: Option<ConfigLevel>, format: OutputFormat },
    /// Show the devices as a tree of buses and bridges.
    Tree { format: OutputFormat },
}

/// The form of the output.
#[derive(Clone, Copy, Debug, PartialEq, Eq, Structural)]
pub enum OutputFormat {
    Text,
    Json,
}

/// How much configuration space to show.
#[derive(Clone, Copy, Debug, PartialEq, Eq, Structural)]
pub enum ConfigLevel {
    Header,
    Standard,
    Extended,
}

impl From<ConfigLevel> for ConfigReadLevel {
    fn from(level: ConfigLevel) -> (r: Self) {
        match level {
            ConfigLevel::Header => ConfigReadLevel::Header,
            ConfigLevel::Standard => ConfigReadLevel::Standard,
            ConfigLevel::Extended => ConfigReadLevel::Extended,
        }
    }
}

impl vstd::std_specs::convert::FromSpecImpl<ConfigLevel> for ConfigReadLevel {
    open spec fn obeys_from_spec() -> bool {
        true
    }

    open spec fn from_spec(level: ConfigLevel) -> ConfigReadLevel {
        match level {
            ConfigLevel::Header => ConfigReadLevel::Header,
            ConfigLevel::Standard => ConfigReadLevel::Standard,
            ConfigLevel::Extended => ConfigReadLevel::Extended,
        }
    }
}

} // verus!
