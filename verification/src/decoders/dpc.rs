//! Downstream port containment capability.
use vstd::prelude::*;
use crate::bits::{bits_of, flag_of, byte_field16, byte_field32, flag16};
use crate::config::ConfigSpaceSnapshot;
use super::{read_dword, read_word};

verus! {

/// The decoded registers of a downstream port containment capability.
#[derive(Clone, Copy, Debug, PartialEq, Eq)]
pub struct DpcCapability {
    pub interrupt_message_number: u8,
    pub rp_pio_extensions: bool,
    pub poisoned_tlp_blocking_capable: bool,
    pub software_trigger_capable: bool,
    pub rp_pio_log_size: u8,
    pub dl_active_error_capable: bool,
    pub trigger_enable: u8,
    pub completion_control: bool,
    pub interrupt_enable: bool,
    pub err_cor_enable: bool,
    pub poisoned_tlp_blocking_enable: bool,
    pub software_trigger: bool,
    pub dl_active_error_enable: bool,
    pub trigger_status: bool,
    pub trigger_reason: u8,
    pub interrupt_status: bool,
    pub rp_busy: bool,
    pub trigger_extension: u8,
    pub rp_pio_error_pointer: u8,
    pub error_source_id: u16,
    pub rp_pio_first_error_pointer: Option<u8>,
    pub rp_pio_status: Option<u32>,
}

/// The DPC capability described by its registers; the RP PIO registers are
/// present only when the capability register announces the extensions.
pub open spec fn dpc_layout(
    capability: u16,
    control: u16,
    status: u16,
    error_source_id: u16,
    rp_pio_first_error_pointer: Option<u8>,
    rp_pio_status: Option<u32>,
) -> DpcCapability {
    DpcCapability {
        interrupt_message_number: bits_of(capability as int, 0, 5) as u8,
        rp_pio_extensions: flag_of(capability as int, 5),
        poisoned_tlp_blocking_capable: flag_of(capability as int, 6),
        software_trigger_capable: flag_of(capability as int, 7),
        rp_pio_log_size: bits_of(capability as int, 8, 4) as u8,
        dl_active_error_capable: flag_of(capability as int, 12),
        trigger_enable: bits_of(control as int, 0, 2) as u8,
        completion_control: flag_of(control as int, 2),
        interrupt_enable: flag_of(control as int, 3),
        err_cor_enable: flag_of(control as int, 4),
        poisoned_tlp_blocking_enable: flag_of(control as int, 5),
        software_trigger: flag_of(control as int, 6),
        dl_active_error_enable: flag_of(control as int, 7),
        trigger_status: flag_of(status as int, 0),
        trigger_reason: bits_of(status as int, 1, 2) as u8,
        interrupt_status: flag_of(status as int, 3),
        rp_busy: flag_of(status as int, 4),
        trigger_extension: bits_of(status as int, 5, 2) as u8,
        rp_pio_error_pointer: bits_of(status as int, 8, 6) as u8,
        error_source_id,
        rp_pio_first_error_pointer,
        rp_pio_status,
    }
}

/// The DPC capability at `offset`, if its registers were read.
pub open spec fn dpc_spec(snapshot: ConfigSpaceSnapshot, offset: u16) -> Option<DpcCapability> {
    let base = offset as int;
    match (snapshot.word_at(base + 4), snapshot.word_at(base + 6), snapshot.word_at(base + 8), snapshot.word_at(base + 10)) {
        (Some(capability), Some(control), Some(status), Some(source)) =>
            if flag_of(capability as int, 5) {
                match (snapshot.dword_at(base + 12), snapshot.dword_at(base + 16)) {
                    (Some(first), Some(pio_status)) => Some(dpc_layout(capability, control, status, source,
                        Some(bits_of(first as int, 0, 6) as u8), Some(pio_status))),
                    _ => None,
                }
            } else {
                Some(dpc_layout(capability, control, status, source, None, None))
            },
        _ => None,
    }
}

/// The DPC registers by their masks: from the capability word, the
/// interrupt message number (bits 4:0), RP PIO extensions (0x0020) and the
/// other capability flags; from the control and status words, their flags
/// and fields.
pub proof fn lemma_dpc_bits(capability: u16, control: u16, status: u16, error_source_id: u16,
    first: Option<u8>, pio: Option<u32>)
    ensures
        ({
            let c = dpc_layout(capability, control, status, error_source_id, first, pio);
            &&& c.interrupt_message_number as u16 == capability & 0x001f
            &&& c.rp_pio_extensions == (capability & 0x0020 != 0)
            &&& c.poisoned_tlp_blocking_capable == (capability & 0x0040 != 0)
            &&& c.software_trigger_capable == (capability & 0x0080 != 0)
            &&& c.rp_pio_log_size as u16 == (capability >> 8) & 0x000f
            &&& c.dl_active_error_capable == (capability & 0x1000 != 0)
            &&& c.trigger_enable as u16 == control & 0x0003
            &&& c.completion_control == (control & 0x0004 != 0)
            &&& c.interrupt_enable == (control & 0x0008 != 0)
            &&& c.err_cor_enable == (control & 0x0010 != 0)
            &&& c.poisoned_tlp_blocking_enable == (control & 0x0020 != 0)
            &&& c.software_trigger == (control & 0x0040 != 0)
            &&& c.dl_active_error_enable == (control & 0x0080 != 0)
            &&& c.trigger_status == (status & 0x0001 != 0)
            &&& c.trigger_reason as u16 == (status >> 1) & 0x0003
            &&& c.interrupt_status == (status & 0x0008 != 0)
            &&& c.rp_busy == (status & 0x0010 != 0)
            &&& c.trigger_extension as u16 == (status >> 5) & 0x0003
            &&& c.rp_pio_error_pointer as u16 == (status >> 8) & 0x003f
            &&& c.error_source_id == error_source_id
        }),
{
    vstd::bits::lemma_low_bits_mask_values();
    vstd::arithmetic::power2::lemma2_to64();
    crate::bits::lemma_masks16();
    crate::bits::lemma_field16_shift_mask(capability, 0, 5);
    crate::bits::lemma_flag16_mask(capability, 5);
    crate::bits::lemma_flag16_mask(capability, 6);
    crate::bits::lemma_flag16_mask(capability, 7);
    crate::bits::lemma_field16_shift_mask(capability, 8, 4);
    crate::bits::lemma_flag16_mask(capability, 12);
    crate::bits::lemma_field16_shift_mask(control, 0, 2);
    crate::bits::lemma_flag16_mask(control, 2);
    crate::bits::lemma_flag16_mask(control, 3);
    crate::bits::lemma_flag16_mask(control, 4);
    crate::bits::lemma_flag16_mask(control, 5);
    crate::bits::lemma_flag16_mask(control, 6);
    crate::bits::lemma_flag16_mask(control, 7);
    crate::bits::lemma_flag16_mask(status, 0);
    crate::bits::lemma_field16_shift_mask(status, 1, 2);
    crate::bits::lemma_flag16_mask(status, 3);
    crate::bits::lemma_flag16_mask(status, 4);
    crate::bits::lemma_field16_shift_mask(status, 5, 2);
    crate::bits::lemma_field16_shift_mask(status, 8, 6);
}

/// Where the DPC capability's registers are: the capability, control,
/// status and error source id words at offset + 4, + 6, + 8 and + 10; the
/// RP PIO first error pointer (bits 5:0 of the dword at offset + 12) and
/// status (the dword at offset + 16) exactly when the capability word
/// announces the RP PIO extensions (0x0020).
pub proof fn lemma_dpc_registers(snapshot: ConfigSpaceSnapshot, offset: u16)
    requires
        dpc_spec(snapshot, offset) is Some,
    ensures
        snapshot.word_at(offset + 4) is Some,
        snapshot.word_at(offset + 6) is Some,
        snapshot.word_at(offset + 8) is Some,
        snapshot.word_at(offset + 10) is Some,
        ({
            let c = dpc_spec(snapshot, offset).unwrap();
            let capability = snapshot.word_at(offset + 4).unwrap();
            let control = snapshot.word_at(offset + 6).unwrap();
            let status = snapshot.word_at(offset + 8).unwrap();
            let error_source_id = snapshot.word_at(offset + 10).unwrap();
            &&& c == dpc_layout(capability, control, status, error_source_id, c.rp_pio_first_error_pointer, c.rp_pio_status)
            &&& c.rp_pio_extensions == (capability & 0x0020 != 0)
            &&& c.rp_pio_extensions ==> {
                &&& snapshot.dword_at(offset + 12) matches Some(first)
                    && c.rp_pio_first_error_pointer == Some((first & 0x0000_003f) as u8)
                &&& snapshot.dword_at(offset + 16) matches Some(pio) && c.rp_pio_status == Some(pio)
            }
            &&& !c.rp_pio_extensions ==> c.rp_pio_first_error_pointer is None && c.rp_pio_status is None
        }),
{
    vstd::bits::lemma_low_bits_mask_values();
    vstd::arithmetic::power2::lemma2_to64();
    crate::bits::lemma_masks16();
    let capability = snapshot.word_at(offset + 4).unwrap();
    crate::bits::lemma_flag16_mask(capability, 5);
    if let Some(first) = snapshot.dword_at(offset + 12) {
        crate::bits::lemma_field32_shift_mask(first, 0, 6);
    }
}

/// Decodes the downstream port containment capability at `offset` from the snapshot; `None` when
/// the registers it needs were not all read.
pub fn decode_dpc(snapshot: &ConfigSpaceSnapshot, offset: u16) -> (r: Option<DpcCapability>)
    requires
        snapshot.wf(),
    ensures
        r == dpc_spec(*snapshot, offset),
{
    let base = offset as u32;
    let capability = read_word(snapshot, base + 4).ok()?;
    let control = read_word(snapshot, base + 6).ok()?;
    let status = read_word(snapshot, base + 8).ok()?;
    let error_source_id = read_word(snapshot, base + 10).ok()?;

    let rp_pio_extensions = flag16(capability, 5);
    let (rp_pio_first_error_pointer, rp_pio_status) = if rp_pio_extensions {
        let first = read_dword(snapshot, base + 12).ok()?;
        let status = read_dword(snapshot, base + 16).ok()?;
        (Some(byte_field32(first, 0, 6)), Some(status))
    } else {
        (None, None)
    };

    Some(DpcCapability {
        interrupt_message_number: byte_field16(capability, 0, 5),
        rp_pio_extensions,
        poisoned_tlp_blocking_capable: flag16(capability, 6),
        software_trigger_capable: flag16(capability, 7),
        rp_pio_log_size: byte_field16(capability, 8, 4),
        dl_active_error_capable: flag16(capability, 12),
        trigger_enable: byte_field16(control, 0, 2),
        completion_control: flag16(control, 2),
        interrupt_enable: flag16(control, 3),
        err_cor_enable: flag16(control, 4),
        poisoned_tlp_blocking_enable: flag16(control, 5),
        software_trigger: flag16(control, 6),
        dl_active_error_enable: flag16(control, 7),
        trigger_status: flag16(status, 0),
        trigger_reason: byte_field16(status, 1, 2),
        interrupt_status: flag16(status, 3),
        rp_busy: flag16(status, 4),
        trigger_extension: byte_field16(status, 5, 2),
        rp_pio_error_pointer: byte_field16(status, 8, 6),
        error_source_id,
        rp_pio_first_error_pointer,
        rp_pio_status,
    })
}

} // verus!
