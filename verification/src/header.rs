//! Registers of the common configuration header.
use vstd::prelude::*;
use crate::bits::{bits_of, flag_of, byte_field16, field32, flag16, flag32,
    lemma_field16_shift_mask, lemma_field32_shift_mask, lemma_flag16_mask, lemma_flag32_mask, lemma_masks16};
use crate::config::ConfigSpaceSnapshot;
use crate::decoders::{read_dword, read_word};
use crate::field::{PciField, PciFieldUnavailableReason};

verus! {

#[derive(Clone, Copy, Debug, PartialEq, Eq)]
pub struct CommandRegister {
    pub io_space: bool,
    pub memory_space: bool,
    pub bus_master: bool,
    pub special_cycle: bool,
    pub mem_write_invalidate: bool,
    pub vga_palette_snoop: bool,
    pub parity_error_response: bool,
    pub stepping: bool,
    pub serr_enable: bool,
    pub fast_back_to_back: bool,
    pub interrupt_disable: bool,
}

#[derive(Clone, Copy, Debug, PartialEq, Eq)]
pub struct StatusRegister {
    pub interrupt_status: bool,
    pub capabilities_list: bool,
    pub capable_66mhz: bool,
    pub udf: bool,
    pub capable_fast_back_to_back: bool,
    pub master_parity_error: bool,
    /// 0 = fast, 1 = medium, 2 = slow
    pub devsel_timing: u8,
    pub signaled_target_abort: bool,
    pub received_target_abort: bool,
    pub received_master_abort: bool,
    pub signaled_system_error: bool,
    pub detected_parity_error: bool,
}

#[derive(Clone, Copy, Debug, PartialEq, Eq, Structural)]
pub enum PciBarKind {
    Io,
    Memory,
}

#[derive(Clone, Copy, Debug, PartialEq, Eq, Structural)]
pub struct PciBarType {
    pub kind: PciBarKind,
    pub is_64_bit: bool,
    pub prefetchable: bool,
}

/// The command register's bits.
pub open spec fn command_layout(word: u16) -> CommandRegister {
    CommandRegister {
        io_space: flag_of(word as int, 0),
        memory_space: flag_of(word as int, 1),
        bus_master: flag_of(word as int, 2),
        special_cycle: flag_of(word as int, 3),
        mem_write_invalidate: flag_of(word as int, 4),
        vga_palette_snoop: flag_of(word as int, 5),
        parity_error_response: flag_of(word as int, 6),
        stepping: flag_of(word as int, 7),
        serr_enable: flag_of(word as int, 8),
        fast_back_to_back: flag_of(word as int, 9),
        interrupt_disable: flag_of(word as int, 10),
    }
}

/// The status register's bits.
pub open spec fn status_layout(word: u16) -> StatusRegister {
    StatusRegister {
        interrupt_status: flag_of(word as int, 3),
        capabilities_list: flag_of(word as int, 4),
        capable_66mhz: flag_of(word as int, 5),
        udf: flag_of(word as int, 6),
        capable_fast_back_to_back: flag_of(word as int, 7),
        master_parity_error: flag_of(word as int, 8),
        devsel_timing: bits_of(word as int, 9, 2) as u8,
        signaled_target_abort: flag_of(word as int, 11),
        received_target_abort: flag_of(word as int, 12),
        received_master_abort: flag_of(word as int, 13),
        signaled_system_error: flag_of(word as int, 14),
        detected_parity_error: flag_of(word as int, 15),
    }
}

/// The type of a base address register: bit 0 marks an I/O BAR; a memory
/// BAR is 64 bits wide when bits 1..2 hold 2 and prefetchable when bit 3 is set.
pub open spec fn bar_type_layout(bar: u32) -> PciBarType {
    if flag_of(bar as int, 0) {
        PciBarType { kind: PciBarKind::Io, is_64_bit: false, prefetchable: false }
    } else {
        PciBarType {
            kind: PciBarKind::Memory,
            is_64_bit: bits_of(bar as int, 1, 2) == 2,
            prefetchable: flag_of(bar as int, 3),
        }
    }
}

pub fn decode_command(word: u16) -> (r: CommandRegister)
    ensures
        r == command_layout(word),
{
    CommandRegister {
        io_space: flag16(word, 0),
        memory_space: flag16(word, 1),
        bus_master: flag16(word, 2),
        special_cycle: flag16(word, 3),
        mem_write_invalidate: flag16(word, 4),
        vga_palette_snoop: flag16(word, 5),
        parity_error_response: flag16(word, 6),
        stepping: flag16(word, 7),
        serr_enable: flag16(word, 8),
        fast_back_to_back: flag16(word, 9),
        interrupt_disable: flag16(word, 10),
    }
}

pub fn decode_status(word: u16) -> (r: StatusRegister)
    ensures
        r == status_layout(word),
{
    StatusRegister {
        interrupt_status: flag16(word, 3),
        capabilities_list: flag16(word, 4),
        capable_66mhz: flag16(word, 5),
        udf: flag16(word, 6),
        capable_fast_back_to_back: flag16(word, 7),
        master_parity_error: flag16(word, 8),
        devsel_timing: byte_field16(word, 9, 2),
        signaled_target_abort: flag16(word, 11),
        received_target_abort: flag16(word, 12),
        received_master_abort: flag16(word, 13),
        signaled_system_error: flag16(word, 14),
        detected_parity_error: flag16(word, 15),
    }
}

pub fn decode_bar_type(bar: u32) -> (r: PciBarType)
    ensures
        r == bar_type_layout(bar),
{
    if flag32(bar, 0) {
        PciBarType { kind: PciBarKind::Io, is_64_bit: false, prefetchable: false }
    } else {
        PciBarType {
            kind: PciBarKind::Memory,
            is_64_bit: field32(bar, 1, 2) == 2,
            prefetchable: flag32(bar, 3),
        }
    }
}

/// The command register's bits by their masks: I/O space 0x0001, memory
/// space 0x0002, bus master 0x0004, special cycles 0x0008, memory write
/// and invalidate 0x0010, VGA palette snoop 0x0020, parity error response
/// 0x0040, stepping 0x0080, SERR# 0x0100, fast back-to-back 0x0200,
/// interrupt disable 0x0400.
pub proof fn lemma_command_bits(word: u16)
    ensures
        command_layout(word).io_space == (word & 0x0001 != 0),
        command_layout(word).memory_space == (word & 0x0002 != 0),
        command_layout(word).bus_master == (word & 0x0004 != 0),
        command_layout(word).special_cycle == (word & 0x0008 != 0),
        command_layout(word).mem_write_invalidate == (word & 0x0010 != 0),
        command_layout(word).vga_palette_snoop == (word & 0x0020 != 0),
        command_layout(word).parity_error_response == (word & 0x0040 != 0),
        command_layout(word).stepping == (word & 0x0080 != 0),
        command_layout(word).serr_enable == (word & 0x0100 != 0),
        command_layout(word).fast_back_to_back == (word & 0x0200 != 0),
        command_layout(word).interrupt_disable == (word & 0x0400 != 0),
{
    lemma_masks16();
    lemma_flag16_mask(word, 0);
    lemma_flag16_mask(word, 1);
    lemma_flag16_mask(word, 2);
    lemma_flag16_mask(word, 3);
    lemma_flag16_mask(word, 4);
    lemma_flag16_mask(word, 5);
    lemma_flag16_mask(word, 6);
    lemma_flag16_mask(word, 7);
    lemma_flag16_mask(word, 8);
    lemma_flag16_mask(word, 9);
    lemma_flag16_mask(word, 10);
}

/// The status register's bits by their masks: interrupt status 0x0008,
/// capabilities list 0x0010, 66 MHz 0x0020, UDF 0x0040, fast back-to-back
/// 0x0080, master data parity error 0x0100, DEVSEL timing in bits 10:9,
/// signaled target abort 0x0800, received target abort 0x1000, received
/// master abort 0x2000, signaled system error 0x4000, detected parity
/// error 0x8000.
pub proof fn lemma_status_bits(word: u16)
    ensures
        status_layout(word).interrupt_status == (word & 0x0008 != 0),
        status_layout(word).capabilities_list == (word & 0x0010 != 0),
        status_layout(word).capable_66mhz == (word & 0x0020 != 0),
        status_layout(word).udf == (word & 0x0040 != 0),
        status_layout(word).capable_fast_back_to_back == (word & 0x0080 != 0),
        status_layout(word).master_parity_error == (word & 0x0100 != 0),
        status_layout(word).devsel_timing as u16 == (word >> 9) & 0x0003,
        status_layout(word).signaled_target_abort == (word & 0x0800 != 0),
        status_layout(word).received_target_abort == (word & 0x1000 != 0),
        status_layout(word).received_master_abort == (word & 0x2000 != 0),
        status_layout(word).signaled_system_error == (word & 0x4000 != 0),
        status_layout(word).detected_parity_error == (word & 0x8000 != 0),
{
    lemma_masks16();
    lemma_flag16_mask(word, 3);
    lemma_flag16_mask(word, 4);
    lemma_flag16_mask(word, 5);
    lemma_flag16_mask(word, 6);
    lemma_flag16_mask(word, 7);
    lemma_flag16_mask(word, 8);
    lemma_field16_shift_mask(word, 9, 2);
    vstd::bits::lemma_low_bits_mask_values();
    vstd::arithmetic::power2::lemma2_to64();
    lemma_flag16_mask(word, 11);
    lemma_flag16_mask(word, 12);
    lemma_flag16_mask(word, 13);
    lemma_flag16_mask(word, 14);
    lemma_flag16_mask(word, 15);
}

/// The type of a base address register by its masks: an I/O BAR when bit
/// 0 is set; otherwise a memory BAR, 64 bits wide when bits 2:1 hold 2,
/// prefetchable when bit 3 (0x8) is set.
pub proof fn lemma_bar_type_bits(bar: u32)
    ensures
        (bar_type_layout(bar).kind == PciBarKind::Io) == (bar & 0x1 != 0),
        bar & 0x1 != 0 ==> !bar_type_layout(bar).is_64_bit && !bar_type_layout(bar).prefetchable,
        bar & 0x1 == 0 ==> bar_type_layout(bar).is_64_bit == ((bar >> 1) & 0x3 == 0x2),
        bar & 0x1 == 0 ==> bar_type_layout(bar).prefetchable == (bar & 0x8 != 0),
{
    lemma_flag32_mask(bar, 0);
    lemma_flag32_mask(bar, 3);
    lemma_field32_shift_mask(bar, 1, 2);
    vstd::bits::lemma_low_bits_mask_values();
    assert(1u32 << 0u32 == 0x1u32 && 1u32 << 3u32 == 0x8u32) by (bit_vector);
}

/// Reads a header word, reporting a read error when its bytes are missing.
pub fn read_word_field(snapshot: &ConfigSpaceSnapshot, offset: u32) -> (r: Result<u16, PciFieldUnavailableReason>)
    requires
        snapshot.wf(),
    ensures
        match snapshot.word_at(offset as int) {
            Some(w) => r == Ok::<u16, PciFieldUnavailableReason>(w),
            None => r == Err::<u16, PciFieldUnavailableReason>(PciFieldUnavailableReason::ReadError),
        },
{
    match read_word(snapshot, offset) {
        Ok(word) => Ok(word),
        Err(_) => Err(PciFieldUnavailableReason::ReadError),
    }
}

/// The command register (offset 0x04) of a snapshot.
pub fn command_field(snapshot: &ConfigSpaceSnapshot) -> (r: PciField<CommandRegister>)
    requires
        snapshot.wf(),
    ensures
        r == match snapshot.word_at(0x04) {
            Some(w) => PciField::Available(command_layout(w)),
            None => PciField::Unavailable { reason: PciFieldUnavailableReason::ReadError },
        },
{
    match read_word_field(snapshot, 0x04) {
        Ok(word) => PciField::Available(decode_command(word)),
        Err(reason) => PciField::Unavailable { reason },
    }
}

/// The status register (offset 0x06) of a snapshot.
pub fn status_field(snapshot: &ConfigSpaceSnapshot) -> (r: PciField<StatusRegister>)
    requires
        snapshot.wf(),
    ensures
        r == match snapshot.word_at(0x06) {
            Some(w) => PciField::Available(status_layout(w)),
            None => PciField::Unavailable { reason: PciFieldUnavailableReason::ReadError },
        },
{
    match read_word_field(snapshot, 0x06) {
        Ok(word) => PciField::Available(decode_status(word)),
        Err(reason) => PciField::Unavailable { reason },
    }
}

/// The type of base address register `index`, read at 0x10 + 4 * index.
pub fn bar_type_field(snapshot: &ConfigSpaceSnapshot, index: u8) -> (r: Option<PciBarType>)
    requires
        snapshot.wf(),
    ensures
        r == match snapshot.dword_at(0x10 + 4 * index) {
            Some(bar) => Some(bar_type_layout(bar)),
            None => None,
        },
{
    let bar = read_dword(snapshot, 0x10 + (index as u32) * 4).ok()?;
    Some(decode_bar_type(bar))
}

} // verus!
