//! Alternative routing-ID interpretation capability.
use vstd::prelude::*;
use crate::config::ConfigSpaceSnapshot;
use super::read_word;

verus! {

/// The decoded registers of an alternative routing-ID interpretation capability.
#[derive(Clone, Copy, Debug, PartialEq, Eq)]
pub struct AriCapability {
    pub capability: u16,
    pub control: u16,
}

/// The ARI capability at `offset`, if its registers were read.
pub open spec fn ari_spec(snapshot: ConfigSpaceSnapshot, offset: u16) -> Option<AriCapability> {
    let base = offset as int;
    match (snapshot.word_at(base + 4), snapshot.word_at(base + 6)) {
        (Some(capability), Some(control)) => Some(AriCapability { capability, control }),
        _ => None,
    }
}

/// The ARI capability: its capability word at offset + 4 and its control
/// word at offset + 6, as they were read.
pub proof fn lemma_ari_registers(snapshot: ConfigSpaceSnapshot, offset: u16)
    requires
        ari_spec(snapshot, offset) is Some,
    ensures
        snapshot.word_at(offset + 4) is Some,
        snapshot.word_at(offset + 6) is Some,
        ({
            let c = ari_spec(snapshot, offset).unwrap();
            let capability = snapshot.word_at(offset + 4).unwrap();
            let control = snapshot.word_at(offset + 6).unwrap();
            &&& c.capability == capability
            &&& c.control == control
        }),
{
    let capability = snapshot.word_at(offset + 4).unwrap();
    let control = snapshot.word_at(offset + 6).unwrap();
}

/// Decodes the alternative routing-ID interpretation capability at `offset` from the snapshot; `None` when
/// the registers it needs were not all read.
pub fn decode_ari(snapshot: &ConfigSpaceSnapshot, offset: u16) -> (r: Option<AriCapability>)
    requires
        snapshot.wf(),
    ensures
        r == ari_spec(*snapshot, offset),
{
    let base = offset as u32;
    let capability = read_word(snapshot, base + 4).ok()?;
    let control = read_word(snapshot, base + 6).ok()?;

    Some(AriCapability { capability, control })
}

} // verus!
