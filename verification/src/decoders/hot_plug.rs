//! Hot-plug capability.
use vstd::prelude::*;
use crate::config::ConfigSpaceSnapshot;

verus! {

/// The decoded registers of a hot plug capability.
#[derive(Clone, Copy, Debug, PartialEq, Eq)]
pub struct HotPlugCapability {
    pub hot_plug_capable: bool,
}

/// The presence of the capability is taken as sufficient evidence, as lspci does.
pub fn decode_hot_plug(_snapshot: &ConfigSpaceSnapshot, _offset: u16) -> (r: Option<HotPlugCapability>)
    ensures
        r == Some(HotPlugCapability { hot_plug_capable: true }),
{
    Some(HotPlugCapability { hot_plug_capable: true })
}

} // verus!
