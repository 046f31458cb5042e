//! Single root I/O virtualization capability.
use vstd::prelude::*;
use crate::bits::{bits_of, flag_of, field32, flag32, lemma_field32_shift_mask, lemma_flag32_mask};
use crate::config::ConfigSpaceSnapshot;
use super::{read_dword, read_word};

verus! {

#[derive(Clone, Copy, Debug, PartialEq, Eq, Structural)]
pub enum SriovVfBarKind {
    Io,
    Memory,
}

#[derive(Clone, Copy, Debug, PartialEq, Eq)]
pub struct SriovVfBar {
    pub kind: SriovVfBarKind,
    pub is_64_bit: bool,
    pub prefetchable: bool,
    pub address: u64,
}

/// The decoded registers of an SR-IOV capability.
#[derive(Clone, Copy, Debug, PartialEq, Eq)]
pub struct SriovCapability {
    pub capabilities: u32,
    pub control: u16,
    pub status: u16,
    pub initial_vfs: u16,
    pub total_vfs: u16,
    pub num_vfs: u16,
    pub function_dependency_link: u16,
    pub vf_offset: u16,
    pub vf_stride: u16,
    pub vf_device_id: u16,
    pub supported_page_sizes: u32,
    pub system_page_size: u32,
    pub vf_bars: [Option<SriovVfBar>; 6],
    pub migration_state_array_offset: u32,
    pub migration_state_array_size: u32,
}

/// An I/O BAR: its address is the register without the two low flag bits.
pub open spec fn vf_io_bar(raw: u32) -> SriovVfBar {
    SriovVfBar {
        kind: SriovVfBarKind::Io,
        is_64_bit: false,
        prefetchable: false,
        address: (raw - bits_of(raw as int, 0, 2)) as u64,
    }
}

/// A memory BAR: its address is the register without the four low flag
/// bits, plus `high` as the upper half of a 64-bit address.
pub open spec fn vf_memory_bar(raw: u32, high: u32) -> SriovVfBar {
    SriovVfBar {
        kind: SriovVfBarKind::Memory,
        is_64_bit: bits_of(raw as int, 1, 2) == 2,
        prefetchable: flag_of(raw as int, 3),
        address: (raw - bits_of(raw as int, 0, 4) + high as int * 0x1_0000_0000) as u64,
    }
}

/// The VF BARs described by the six BAR registers from index `i` on. A 64-bit
/// memory BAR takes the next register as its upper half, which then describes
/// no BAR of its own; a 64-bit BAR in the last register has no upper half.
pub open spec fn vf_bars_from(raws: Seq<u32>, i: int) -> Seq<Option<SriovVfBar>>
    decreases 6 - i,
{
    if i < 0 || i >= 6 {
        Seq::empty()
    } else if flag_of(raws[i] as int, 0) {
        seq![Some(vf_io_bar(raws[i]))] + vf_bars_from(raws, i + 1)
    } else if bits_of(raws[i] as int, 1, 2) == 2 && i + 1 < 6 {
        seq![Some(vf_memory_bar(raws[i], raws[i + 1])), None] + vf_bars_from(raws, i + 2)
    } else {
        seq![Some(vf_memory_bar(raws[i], 0))] + vf_bars_from(raws, i + 1)
    }
}

pub proof fn lemma_vf_bars_len(raws: Seq<u32>, i: int)
    requires
        0 <= i <= 6,
    ensures
        vf_bars_from(raws, i).len() == 6 - i,
    decreases 6 - i,
{
    if i < 6 {
        if flag_of(raws[i] as int, 0) {
            lemma_vf_bars_len(raws, i + 1);
        } else if bits_of(raws[i] as int, 1, 2) == 2 && i + 1 < 6 {
            lemma_vf_bars_len(raws, i + 2);
        } else {
            lemma_vf_bars_len(raws, i + 1);
        }
    }
}

/// The six VF BAR registers of the capability at `base`.
pub open spec fn sriov_raw_bars(snapshot: ConfigSpaceSnapshot, base: int) -> Seq<u32> {
    Seq::new(6, |i: int| snapshot.dword_at(base + 0x24 + 4 * i).unwrap())
}

/// Whether every register of the capability at `base` was read.
pub open spec fn sriov_readable(snapshot: ConfigSpaceSnapshot, base: int) -> bool {
    &&& snapshot.dword_at(base + 0x04) is Some
    &&& snapshot.word_at(base + 0x08) is Some
    &&& snapshot.word_at(base + 0x0a) is Some
    &&& snapshot.word_at(base + 0x0c) is Some
    &&& snapshot.word_at(base + 0x0e) is Some
    &&& snapshot.word_at(base + 0x10) is Some
    &&& snapshot.word_at(base + 0x12) is Some
    &&& snapshot.word_at(base + 0x14) is Some
    &&& snapshot.word_at(base + 0x16) is Some
    &&& snapshot.word_at(base + 0x1a) is Some
    &&& snapshot.dword_at(base + 0x1c) is Some
    &&& snapshot.dword_at(base + 0x20) is Some
    &&& forall|i: int| 0 <= i < 6 ==> (#[trigger] snapshot.dword_at(base + 0x24 + 4 * i)) is Some
    &&& snapshot.dword_at(base + 0x40) is Some
    &&& snapshot.dword_at(base + 0x44) is Some
}

/// Whether `r` is the SR-IOV capability at `offset`.
pub open spec fn sriov_matches(snapshot: ConfigSpaceSnapshot, offset: u16, r: Option<SriovCapability>) -> bool {
    let base = offset as int;
    if sriov_readable(snapshot, base) {
        &&& r is Some
        &&& r.unwrap().capabilities == snapshot.dword_at(base + 0x04).unwrap()
        &&& r.unwrap().control == snapshot.word_at(base + 0x08).unwrap()
        &&& r.unwrap().status == snapshot.word_at(base + 0x0a).unwrap()
        &&& r.unwrap().initial_vfs == snapshot.word_at(base + 0x0c).unwrap()
        &&& r.unwrap().total_vfs == snapshot.word_at(base + 0x0e).unwrap()
        &&& r.unwrap().num_vfs == snapshot.word_at(base + 0x10).unwrap()
        &&& r.unwrap().function_dependency_link == snapshot.word_at(base + 0x12).unwrap()
        &&& r.unwrap().vf_offset == snapshot.word_at(base + 0x14).unwrap()
        &&& r.unwrap().vf_stride == snapshot.word_at(base + 0x16).unwrap()
        &&& r.unwrap().vf_device_id == snapshot.word_at(base + 0x1a).unwrap()
        &&& r.unwrap().supported_page_sizes == snapshot.dword_at(base + 0x1c).unwrap()
        &&& r.unwrap().system_page_size == snapshot.dword_at(base + 0x20).unwrap()
        &&& r.unwrap().vf_bars@ == vf_bars_from(sriov_raw_bars(snapshot, base), 0)
        &&& r.unwrap().migration_state_array_offset == snapshot.dword_at(base + 0x40).unwrap()
        &&& r.unwrap().migration_state_array_size == snapshot.dword_at(base + 0x44).unwrap()
    } else {
        r is None
    }
}

/// The SR-IOV registers by their offsets from the capability: the
/// capabilities dword at 0x04, control at 0x08, status at 0x0a, initial
/// VFs at 0x0c, total VFs at 0x0e, number of VFs at 0x10, function
/// dependency link at 0x12, first VF offset at 0x14, VF stride at 0x16, VF
/// device id at 0x1a, supported page sizes at 0x1c, system page size at
/// 0x20, the VF BARs from 0x24 on, and the migration state array offset
/// and size at 0x40 and 0x44; the capability is decoded exactly when all
/// of them were read.
pub proof fn lemma_sriov_registers(snapshot: ConfigSpaceSnapshot, offset: u16, r: Option<SriovCapability>)
    requires
        sriov_matches(snapshot, offset, r),
    ensures
        r is Some <==> sriov_readable(snapshot, offset as int),
        r matches Some(c) ==> {
            &&& snapshot.dword_at(offset + 0x04) == Some(c.capabilities)
            &&& snapshot.word_at(offset + 0x08) == Some(c.control)
            &&& snapshot.word_at(offset + 0x0a) == Some(c.status)
            &&& snapshot.word_at(offset + 0x0c) == Some(c.initial_vfs)
            &&& snapshot.word_at(offset + 0x0e) == Some(c.total_vfs)
            &&& snapshot.word_at(offset + 0x10) == Some(c.num_vfs)
            &&& snapshot.word_at(offset + 0x12) == Some(c.function_dependency_link)
            &&& snapshot.word_at(offset + 0x14) == Some(c.vf_offset)
            &&& snapshot.word_at(offset + 0x16) == Some(c.vf_stride)
            &&& snapshot.word_at(offset + 0x1a) == Some(c.vf_device_id)
            &&& snapshot.dword_at(offset + 0x1c) == Some(c.supported_page_sizes)
            &&& snapshot.dword_at(offset + 0x20) == Some(c.system_page_size)
            &&& snapshot.dword_at(offset + 0x40) == Some(c.migration_state_array_offset)
            &&& snapshot.dword_at(offset + 0x44) == Some(c.migration_state_array_size)
        },
{
}

/// A VF BAR by its masks: an I/O BAR's address is the register without its
/// two low bits; a memory BAR is 64 bits wide when bits 2:1 hold 2,
/// prefetchable when bit 3 is set, and its address is the register without
/// its four low bits, with `high` as the upper half.
pub proof fn lemma_vf_bar_bits(raw: u32, high: u32)
    ensures
        vf_io_bar(raw).address == (raw & 0xffff_fffc) as u64,
        vf_memory_bar(raw, high).is_64_bit == ((raw >> 1) & 0x3 == 0x2),
        vf_memory_bar(raw, high).prefetchable == (raw & 0x8 != 0),
        vf_memory_bar(raw, high).address == ((raw & 0xffff_fff0) as u64) | ((high as u64) << 32u64),
{
    vstd::bits::lemma_low_bits_mask_values();
    vstd::arithmetic::power2::lemma2_to64();
    lemma_field32_shift_mask(raw, 0, 2);
    lemma_field32_shift_mask(raw, 0, 4);
    lemma_field32_shift_mask(raw, 1, 2);
    lemma_flag32_mask(raw, 3);
    assert(1u32 << 3u32 == 0x8u32) by (bit_vector);
    assert(raw - (raw & 0x3u32) == raw & 0xffff_fffcu32 && raw - (raw & 0xfu32) == raw & 0xffff_fff0u32) by (bit_vector);
    let lo: u64 = (raw & 0xffff_fff0u32) as u64;
    let hi: u64 = high as u64;
    assert(lo < 0x1_0000_0000u64 && hi < 0x1_0000_0000u64);
    assert(lo | (hi << 32u64) == lo + hi * 0x1_0000_0000u64) by (bit_vector)
        requires
            lo < 0x1_0000_0000u64,
            hi < 0x1_0000_0000u64,
    ;
}

/// Decodes the VF BARs from the six BAR registers.
pub fn decode_vf_bars(raw_bars: &Vec<u32>) -> (r: [Option<SriovVfBar>; 6])
    requires
        raw_bars@.len() == 6,
    ensures
        r@ == vf_bars_from(raw_bars@, 0),
{
    let mut vf_bars: Vec<Option<SriovVfBar>> = Vec::new();
    let mut index: usize = 0;
    proof {
        lemma_vf_bars_len(raw_bars@, 0);
    }
    while index < 6
        invariant
            raw_bars@.len() == 6,
            index <= 6,
            vf_bars@.len() == index,
            vf_bars@ + vf_bars_from(raw_bars@, index as int) =~= vf_bars_from(raw_bars@, 0),
        decreases 6 - index,
    {
        let raw = raw_bars[index];
        let ghost rest = vf_bars_from(raw_bars@, index as int);
        if flag32(raw, 0) {
            let low = field32(raw, 0, 2);
            proof {
                crate::bits::lemma_low_bits_le(raw as int, 2);
            }
            vf_bars.push(Some(SriovVfBar {
                kind: SriovVfBarKind::Io,
                is_64_bit: false,
                prefetchable: false,
                address: (raw - low) as u64,
            }));
            proof {
                assert(rest == seq![Some(vf_io_bar(raw))] + vf_bars_from(raw_bars@, index + 1));
            }
            index = index + 1;
        } else {
            let is_64_bit = field32(raw, 1, 2) == 2;
            let prefetchable = flag32(raw, 3);
            let low = field32(raw, 0, 4);
            proof {
                crate::bits::lemma_low_bits_le(raw as int, 4);
            }
            let base_address = (raw - low) as u64;
            if is_64_bit && index + 1 < 6 {
                let high = raw_bars[index + 1];
                vf_bars.push(Some(SriovVfBar {
                    kind: SriovVfBarKind::Memory,
                    is_64_bit,
                    prefetchable,
                    address: base_address + (high as u64) * 0x1_0000_0000,
                }));
                vf_bars.push(None);
                proof {
                    assert(rest == seq![Some(vf_memory_bar(raw, high)), None] + vf_bars_from(raw_bars@, index + 2));
                }
                index = index + 2;
            } else {
                vf_bars.push(Some(SriovVfBar {
                    kind: SriovVfBarKind::Memory,
                    is_64_bit,
                    prefetchable,
                    address: base_address,
                }));
                proof {
                    assert(rest == seq![Some(vf_memory_bar(raw, 0))] + vf_bars_from(raw_bars@, index + 1));
                }
                index = index + 1;
            }
        }
    }
    proof {
        assert(vf_bars_from(raw_bars@, 6) =~= Seq::empty());
    }
    let bars = [vf_bars[0], vf_bars[1], vf_bars[2], vf_bars[3], vf_bars[4], vf_bars[5]];
    proof {
        assert(bars@ =~= vf_bars@);
    }
    bars
}

/// Decodes the SR-IOV capability at `offset` from the snapshot; `None` when
/// the registers it needs were not all read.
pub fn decode_sriov(snapshot: &ConfigSpaceSnapshot, offset: u16) -> (r: Option<SriovCapability>)
    requires
        snapshot.wf(),
    ensures
        sriov_matches(*snapshot, offset, r),
{
    let base = offset as u32;

    let capabilities = read_dword(snapshot, base + 0x04).ok()?;
    let control = read_word(snapshot, base + 0x08).ok()?;
    let status = read_word(snapshot, base + 0x0a).ok()?;
    let initial_vfs = read_word(snapshot, base + 0x0c).ok()?;
    let total_vfs = read_word(snapshot, base + 0x0e).ok()?;
    let num_vfs = read_word(snapshot, base + 0x10).ok()?;
    let function_dependency_link = read_word(snapshot, base + 0x12).ok()?;
    let vf_offset = read_word(snapshot, base + 0x14).ok()?;
    let vf_stride = read_word(snapshot, base + 0x16).ok()?;
    let vf_device_id = read_word(snapshot, base + 0x1a).ok()?;
    let supported_page_sizes = read_dword(snapshot, base + 0x1c).ok()?;
    let system_page_size = read_dword(snapshot, base + 0x20).ok()?;

    let mut raw_bars: Vec<u32> = Vec::new();
    let mut index: u32 = 0;
    while index < 6
        invariant
            snapshot.wf(),
            base == offset as u32,
            index <= 6,
            raw_bars@ =~= sriov_raw_bars(*snapshot, base as int).take(index as int),
            forall|i: int| 0 <= i < index ==> (#[trigger] snapshot.dword_at(base + 0x24 + 4 * i)) is Some,
        decreases 6 - index,
    {
        let bar = match read_dword(snapshot, base + 0x24 + index * 4) {
            Ok(bar) => bar,
            Err(_) => {
                proof {
                    assert(snapshot.dword_at(base + 0x24 + 4 * index) is None);
                    assert(!sriov_readable(*snapshot, base as int));
                }
                return None;
            },
        };
        raw_bars.push(bar);
        index = index + 1;
    }
    proof {
        assert(raw_bars@ =~= sriov_raw_bars(*snapshot, base as int));
    }
    let vf_bars = decode_vf_bars(&raw_bars);

    let migration_state_array_offset = read_dword(snapshot, base + 0x40).ok()?;
    let migration_state_array_size = read_dword(snapshot, base + 0x44).ok()?;

    Some(SriovCapability {
        capabilities,
        control,
        status,
        initial_vfs,
        total_vfs,
        num_vfs,
        function_dependency_link,
        vf_offset,
        vf_stride,
        vf_device_id,
        supported_page_sizes,
        system_page_size,
        vf_bars,
        migration_state_array_offset,
        migration_state_array_size,
    })
}

} // verus!
