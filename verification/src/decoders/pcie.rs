//! PCI Express capability.
use vstd::prelude::*;
use crate::bits::{bits_of, flag_of, byte_field16, byte_field32, flag16, flag32, word_field32,
    lemma_field16_shift_mask, lemma_field32_shift_mask, lemma_flag16_mask, lemma_flag32_mask, lemma_masks16, lemma_masks32};
use crate::config::ConfigSpaceSnapshot;
use super::{read_dword, read_word};

verus! {

/// The device/port type of a root port.
pub const ROOT_PORT: u8 = 4;

#[derive(Clone, Copy, Debug, PartialEq, Eq)]
pub struct PcieDeviceCap {
    pub max_payload: u8,
    pub phantom_functions: u8,
    pub extended_tag: bool,
    pub l0s_latency: u8,
    pub l1_latency: u8,
    pub role_based_error: bool,
    pub attention_button: bool,
    pub attention_indicator: bool,
    pub power_indicator: bool,
    pub flreset: bool,
    pub slot_power_limit: u8,
    pub slot_power_limit_scale: u8,
}

#[derive(Clone, Copy, Debug, PartialEq, Eq)]
pub struct PcieDeviceCtl {
    pub corr_err: bool,
    pub non_fatal_err: bool,
    pub fatal_err: bool,
    pub unsup_req: bool,
    pub relaxed_ordering: bool,
    pub max_payload: u8,
    pub extended_tag: bool,
    pub phantom_functions: bool,
    pub aux_power: bool,
    pub no_snoop: bool,
    pub max_read_req: u8,
    pub bridge_config_retry: bool,
}

#[derive(Clone, Copy, Debug, PartialEq, Eq)]
pub struct PcieDeviceSta {
    pub corr_err: bool,
    pub non_fatal_err: bool,
    pub fatal_err: bool,
    pub unsup_req: bool,
    pub aux_power: bool,
    pub trans_pending: bool,
}

#[derive(Clone, Copy, Debug, PartialEq, Eq)]
pub struct PcieLinkCap {
    pub max_speed: u8,
    pub max_width: u8,
    pub aspm: u8,
    pub l0s_exit_latency: u8,
    pub l1_exit_latency: u8,
    pub clock_pm: bool,
    pub surprise_down: bool,
    pub dll_active: bool,
    pub link_bw_notif: bool,
    pub aspm_opt_compliance: bool,
    pub port_number: u8,
}

#[derive(Clone, Copy, Debug, PartialEq, Eq)]
pub struct PcieLinkCtl {
    pub aspm: u8,
    pub rcb: bool,
    pub link_disable: bool,
    pub retrain: bool,
    pub common_clock: bool,
    pub extended_synch: bool,
    pub clock_pm: bool,
    pub autonomous_width_disable: bool,
    pub bw_interrupt: bool,
    pub autonomous_bw_interrupt: bool,
}

#[derive(Clone, Copy, Debug, PartialEq, Eq)]
pub struct PcieLinkSta {
    pub speed: u8,
    pub width: u8,
    pub tr_err: bool,
    pub training: bool,
    pub slot_clock: bool,
    pub dll_active: bool,
    pub bw_management: bool,
    pub autonomous_bw: bool,
}

#[derive(Clone, Copy, Debug, PartialEq, Eq)]
pub struct PcieSlotCap {
    pub attention_button: bool,
    pub power_controller: bool,
    pub mrl: bool,
    pub attention_indicator: bool,
    pub power_indicator: bool,
    pub hotplug_surprise: bool,
    pub hotplug_capable: bool,
    pub slot_power_limit: u8,
    pub slot_power_limit_scale: u8,
    pub electromechanical: bool,
    pub no_command_completed: bool,
    pub physical_slot_number: u16,
}

#[derive(Clone, Copy, Debug, PartialEq, Eq)]
pub struct PcieSlotCtl {
    pub attention_button_enable: bool,
    pub power_fault_detect: bool,
    pub mrl_sensor: bool,
    pub presence_detect: bool,
    pub command_completed: bool,
    pub hotplug_interrupt: bool,
    pub attention_indicator: u8,
    pub power_indicator: u8,
    pub power_controller_control: bool,
    pub power_interlock: bool,
    pub dll_state_changed: bool,
}

#[derive(Clone, Copy, Debug, PartialEq, Eq)]
pub struct PcieSlotSta {
    pub attention_button: bool,
    pub power_fault: bool,
    pub mrl_sensor: bool,
    pub presence_detect: bool,
    pub command_completed: bool,
    pub mrl_state: bool,
    pub presence_state: bool,
    pub power_interlock: bool,
    pub dll_state: bool,
}

#[derive(Clone, Copy, Debug, PartialEq, Eq)]
pub struct PcieRootCtl {
    pub serr_corr: bool,
    pub serr_non_fatal: bool,
    pub serr_fatal: bool,
    pub pme_interrupt: bool,
    pub crs_visible: bool,
}

#[derive(Clone, Copy, Debug, PartialEq, Eq)]
pub struct PcieRootSta {
    pub pme_requester_id: u16,
    pub pme_status: bool,
    pub pme_pending: bool,
}

#[derive(Clone, Copy, Debug, PartialEq, Eq)]
pub struct PcieDeviceCap2 {
    pub completion_timeout_ranges: u8,
    pub completion_timeout_disable: bool,
    pub ari: bool,
    pub atomic_op_routing: bool,
    pub atomic_32: bool,
    pub atomic_64: bool,
    pub atomic_128_cas: bool,
    pub no_ro_pr_pr_passing: bool,
    pub ltr: bool,
    pub tph_completer: u8,
    pub ten_bit_tag_completer: bool,
    pub ten_bit_tag_requester: bool,
    pub obff: u8,
    pub ext_fmt: bool,
    pub ee_tlp_prefix: bool,
}

#[derive(Clone, Copy, Debug, PartialEq, Eq)]
pub struct PcieDeviceCtl2 {
    pub completion_timeout: u8,
    pub completion_timeout_disable: bool,
    pub ari: bool,
    pub atomic_op_requester: bool,
    pub atomic_op_egress_blocking: bool,
    pub ido_request: bool,
    pub ido_completion: bool,
    pub ltr: bool,
    pub ten_bit_tag_requester: bool,
    pub obff: u8,
    pub ee_tlp_prefix_blocking: bool,
}

#[derive(Clone, Copy, Debug, PartialEq, Eq)]
pub struct PcieLinkCtl2 {
    pub target_speed: u8,
    pub compliance_de_emphasis: bool,
    pub transmit_margin: u8,
    pub enter_modified_compliance: bool,
    pub compliance_sos: bool,
    pub compliance_preset: u8,
}

#[derive(Clone, Copy, Debug, PartialEq, Eq)]
pub struct PcieLinkSta2 {
    pub current_de_emphasis: bool,
    pub equalization_complete: bool,
    pub equalization_phase1: bool,
    pub equalization_phase2: bool,
    pub equalization_phase3: bool,
    pub equalization_request: bool,
    pub retimer_presence: u8,
    pub crosslink_resolution: u8,
}

/// The layout of the register decoded as [`PcieDeviceCap`].
pub open spec fn dev_cap_layout(raw: u32) -> PcieDeviceCap {
    PcieDeviceCap {
        max_payload: bits_of(raw as int, 0, 3) as u8,
        phantom_functions: bits_of(raw as int, 3, 2) as u8,
        extended_tag: flag_of(raw as int, 5),
        l0s_latency: bits_of(raw as int, 6, 3) as u8,
        l1_latency: bits_of(raw as int, 9, 3) as u8,
        role_based_error: flag_of(raw as int, 15),
        attention_button: flag_of(raw as int, 16),
        attention_indicator: flag_of(raw as int, 17),
        power_indicator: flag_of(raw as int, 18),
        flreset: flag_of(raw as int, 28),
        slot_power_limit: bits_of(raw as int, 18, 8) as u8,
        slot_power_limit_scale: bits_of(raw as int, 26, 2) as u8,
    }
}

fn decode_dev_cap(raw: u32) -> (r: PcieDeviceCap)
    ensures
        r == dev_cap_layout(raw),
{
    PcieDeviceCap {
        max_payload: byte_field32(raw, 0, 3),
        phantom_functions: byte_field32(raw, 3, 2),
        extended_tag: flag32(raw, 5),
        l0s_latency: byte_field32(raw, 6, 3),
        l1_latency: byte_field32(raw, 9, 3),
        role_based_error: flag32(raw, 15),
        attention_button: flag32(raw, 16),
        attention_indicator: flag32(raw, 17),
        power_indicator: flag32(raw, 18),
        flreset: flag32(raw, 28),
        slot_power_limit: byte_field32(raw, 18, 8),
        slot_power_limit_scale: byte_field32(raw, 26, 2),
    }
}

/// The layout of the register decoded as [`PcieDeviceCtl`].
pub open spec fn dev_ctl_layout(raw: u16) -> PcieDeviceCtl {
    PcieDeviceCtl {
        corr_err: flag_of(raw as int, 0),
        non_fatal_err: flag_of(raw as int, 1),
        fatal_err: flag_of(raw as int, 2),
        unsup_req: flag_of(raw as int, 3),
        relaxed_ordering: flag_of(raw as int, 4),
        max_payload: bits_of(raw as int, 5, 3) as u8,
        extended_tag: flag_of(raw as int, 8),
        phantom_functions: flag_of(raw as int, 9),
        aux_power: flag_of(raw as int, 10),
        no_snoop: flag_of(raw as int, 11),
        max_read_req: bits_of(raw as int, 12, 3) as u8,
        bridge_config_retry: flag_of(raw as int, 15),
    }
}

fn decode_dev_ctl(raw: u16) -> (r: PcieDeviceCtl)
    ensures
        r == dev_ctl_layout(raw),
{
    PcieDeviceCtl {
        corr_err: flag16(raw, 0),
        non_fatal_err: flag16(raw, 1),
        fatal_err: flag16(raw, 2),
        unsup_req: flag16(raw, 3),
        relaxed_ordering: flag16(raw, 4),
        max_payload: byte_field16(raw, 5, 3),
        extended_tag: flag16(raw, 8),
        phantom_functions: flag16(raw, 9),
        aux_power: flag16(raw, 10),
        no_snoop: flag16(raw, 11),
        max_read_req: byte_field16(raw, 12, 3),
        bridge_config_retry: flag16(raw, 15),
    }
}

/// The layout of the register decoded as [`PcieDeviceSta`].
pub open spec fn dev_sta_layout(raw: u16) -> PcieDeviceSta {
    PcieDeviceSta {
        corr_err: flag_of(raw as int, 0),
        non_fatal_err: flag_of(raw as int, 1),
        fatal_err: flag_of(raw as int, 2),
        unsup_req: flag_of(raw as int, 3),
        aux_power: flag_of(raw as int, 4),
        trans_pending: flag_of(raw as int, 5),
    }
}

fn decode_dev_sta(raw: u16) -> (r: PcieDeviceSta)
    ensures
        r == dev_sta_layout(raw),
{
    PcieDeviceSta {
        corr_err: flag16(raw, 0),
        non_fatal_err: flag16(raw, 1),
        fatal_err: flag16(raw, 2),
        unsup_req: flag16(raw, 3),
        aux_power: flag16(raw, 4),
        trans_pending: flag16(raw, 5),
    }
}

/// The layout of the register decoded as [`PcieLinkCap`].
pub open spec fn lnk_cap_layout(raw: u32) -> PcieLinkCap {
    PcieLinkCap {
        max_speed: bits_of(raw as int, 0, 4) as u8,
        max_width: bits_of(raw as int, 4, 6) as u8,
        aspm: bits_of(raw as int, 10, 2) as u8,
        l0s_exit_latency: bits_of(raw as int, 12, 3) as u8,
        l1_exit_latency: bits_of(raw as int, 15, 3) as u8,
        clock_pm: flag_of(raw as int, 18),
        surprise_down: flag_of(raw as int, 19),
        dll_active: flag_of(raw as int, 20),
        link_bw_notif: flag_of(raw as int, 21),
        aspm_opt_compliance: flag_of(raw as int, 22),
        port_number: bits_of(raw as int, 24, 8) as u8,
    }
}

fn decode_lnk_cap(raw: u32) -> (r: PcieLinkCap)
    ensures
        r == lnk_cap_layout(raw),
{
    PcieLinkCap {
        max_speed: byte_field32(raw, 0, 4),
        max_width: byte_field32(raw, 4, 6),
        aspm: byte_field32(raw, 10, 2),
        l0s_exit_latency: byte_field32(raw, 12, 3),
        l1_exit_latency: byte_field32(raw, 15, 3),
        clock_pm: flag32(raw, 18),
        surprise_down: flag32(raw, 19),
        dll_active: flag32(raw, 20),
        link_bw_notif: flag32(raw, 21),
        aspm_opt_compliance: flag32(raw, 22),
        port_number: byte_field32(raw, 24, 8),
    }
}

/// The layout of the register decoded as [`PcieLinkCtl`].
pub open spec fn lnk_ctl_layout(raw: u16) -> PcieLinkCtl {
    PcieLinkCtl {
        aspm: bits_of(raw as int, 0, 2) as u8,
        rcb: flag_of(raw as int, 3),
        link_disable: flag_of(raw as int, 4),
        retrain: flag_of(raw as int, 5),
        common_clock: flag_of(raw as int, 6),
        extended_synch: flag_of(raw as int, 7),
        clock_pm: flag_of(raw as int, 8),
        autonomous_width_disable: flag_of(raw as int, 9),
        bw_interrupt: flag_of(raw as int, 10),
        autonomous_bw_interrupt: flag_of(raw as int, 11),
    }
}

fn decode_lnk_ctl(raw: u16) -> (r: PcieLinkCtl)
    ensures
        r == lnk_ctl_layout(raw),
{
    PcieLinkCtl {
        aspm: byte_field16(raw, 0, 2),
        rcb: flag16(raw, 3),
        link_disable: flag16(raw, 4),
        retrain: flag16(raw, 5),
        common_clock: flag16(raw, 6),
        extended_synch: flag16(raw, 7),
        clock_pm: flag16(raw, 8),
        autonomous_width_disable: flag16(raw, 9),
        bw_interrupt: flag16(raw, 10),
        autonomous_bw_interrupt: flag16(raw, 11),
    }
}

/// The layout of the register decoded as [`PcieLinkSta`].
pub open spec fn lnk_sta_layout(raw: u16) -> PcieLinkSta {
    PcieLinkSta {
        speed: bits_of(raw as int, 0, 4) as u8,
        width: bits_of(raw as int, 4, 6) as u8,
        tr_err: flag_of(raw as int, 10),
        training: flag_of(raw as int, 11),
        slot_clock: flag_of(raw as int, 12),
        dll_active: flag_of(raw as int, 13),
        bw_management: flag_of(raw as int, 14),
        autonomous_bw: flag_of(raw as int, 15),
    }
}

fn decode_lnk_sta(raw: u16) -> (r: PcieLinkSta)
    ensures
        r == lnk_sta_layout(raw),
{
    PcieLinkSta {
        speed: byte_field16(raw, 0, 4),
        width: byte_field16(raw, 4, 6),
        tr_err: flag16(raw, 10),
        training: flag16(raw, 11),
        slot_clock: flag16(raw, 12),
        dll_active: flag16(raw, 13),
        bw_management: flag16(raw, 14),
        autonomous_bw: flag16(raw, 15),
    }
}

/// The layout of the register decoded as [`PcieSlotCap`].
pub open spec fn slot_cap_layout(raw: u32) -> PcieSlotCap {
    PcieSlotCap {
        attention_button: flag_of(raw as int, 0),
        power_controller: flag_of(raw as int, 1),
        mrl: flag_of(raw as int, 2),
        attention_indicator: flag_of(raw as int, 3),
        power_indicator: flag_of(raw as int, 4),
        hotplug_surprise: flag_of(raw as int, 5),
        hotplug_capable: flag_of(raw as int, 6),
        slot_power_limit: bits_of(raw as int, 7, 8) as u8,
        slot_power_limit_scale: bits_of(raw as int, 15, 2) as u8,
        electromechanical: flag_of(raw as int, 17),
        no_command_completed: flag_of(raw as int, 18),
        physical_slot_number: bits_of(raw as int, 19, 13) as u16,
    }
}

fn decode_slot_cap(raw: u32) -> (r: PcieSlotCap)
    ensures
        r == slot_cap_layout(raw),
{
    PcieSlotCap {
        attention_button: flag32(raw, 0),
        power_controller: flag32(raw, 1),
        mrl: flag32(raw, 2),
        attention_indicator: flag32(raw, 3),
        power_indicator: flag32(raw, 4),
        hotplug_surprise: flag32(raw, 5),
        hotplug_capable: flag32(raw, 6),
        slot_power_limit: byte_field32(raw, 7, 8),
        slot_power_limit_scale: byte_field32(raw, 15, 2),
        electromechanical: flag32(raw, 17),
        no_command_completed: flag32(raw, 18),
        physical_slot_number: word_field32(raw, 19, 13),
    }
}

/// The layout of the register decoded as [`PcieSlotCtl`].
pub open spec fn slot_ctl_layout(raw: u16) -> PcieSlotCtl {
    PcieSlotCtl {
        attention_button_enable: flag_of(raw as int, 0),
        power_fault_detect: flag_of(raw as int, 1),
        mrl_sensor: flag_of(raw as int, 2),
        presence_detect: flag_of(raw as int, 3),
        command_completed: flag_of(raw as int, 4),
        hotplug_interrupt: flag_of(raw as int, 5),
        attention_indicator: bits_of(raw as int, 6, 2) as u8,
        power_indicator: bits_of(raw as int, 8, 2) as u8,
        power_controller_control: flag_of(raw as int, 10),
        power_interlock: flag_of(raw as int, 11),
        dll_state_changed: flag_of(raw as int, 12),
    }
}

fn decode_slot_ctl(raw: u16) -> (r: PcieSlotCtl)
    ensures
        r == slot_ctl_layout(raw),
{
    PcieSlotCtl {
        attention_button_enable: flag16(raw, 0),
        power_fault_detect: flag16(raw, 1),
        mrl_sensor: flag16(raw, 2),
        presence_detect: flag16(raw, 3),
        command_completed: flag16(raw, 4),
        hotplug_interrupt: flag16(raw, 5),
        attention_indicator: byte_field16(raw, 6, 2),
        power_indicator: byte_field16(raw, 8, 2),
        power_controller_control: flag16(raw, 10),
        power_interlock: flag16(raw, 11),
        dll_state_changed: flag16(raw, 12),
    }
}

/// The layout of the register decoded as [`PcieSlotSta`].
pub open spec fn slot_sta_layout(raw: u16) -> PcieSlotSta {
    PcieSlotSta {
        attention_button: flag_of(raw as int, 0),
        power_fault: flag_of(raw as int, 1),
        mrl_sensor: flag_of(raw as int, 2),
        presence_detect: flag_of(raw as int, 3),
        command_completed: flag_of(raw as int, 4),
        mrl_state: flag_of(raw as int, 5),
        presence_state: flag_of(raw as int, 6),
        power_interlock: flag_of(raw as int, 7),
        dll_state: flag_of(raw as int, 8),
    }
}

fn decode_slot_sta(raw: u16) -> (r: PcieSlotSta)
    ensures
        r == slot_sta_layout(raw),
{
    PcieSlotSta {
        attention_button: flag16(raw, 0),
        power_fault: flag16(raw, 1),
        mrl_sensor: flag16(raw, 2),
        presence_detect: flag16(raw, 3),
        command_completed: flag16(raw, 4),
        mrl_state: flag16(raw, 5),
        presence_state: flag16(raw, 6),
        power_interlock: flag16(raw, 7),
        dll_state: flag16(raw, 8),
    }
}

/// The layout of the register decoded as [`PcieRootCtl`].
pub open spec fn root_ctl_layout(raw: u16) -> PcieRootCtl {
    PcieRootCtl {
        serr_corr: flag_of(raw as int, 0),
        serr_non_fatal: flag_of(raw as int, 1),
        serr_fatal: flag_of(raw as int, 2),
        pme_interrupt: flag_of(raw as int, 3),
        crs_visible: flag_of(raw as int, 4),
    }
}

fn decode_root_ctl(raw: u16) -> (r: PcieRootCtl)
    ensures
        r == root_ctl_layout(raw),
{
    PcieRootCtl {
        serr_corr: flag16(raw, 0),
        serr_non_fatal: flag16(raw, 1),
        serr_fatal: flag16(raw, 2),
        pme_interrupt: flag16(raw, 3),
        crs_visible: flag16(raw, 4),
    }
}

/// The layout of the register decoded as [`PcieRootSta`].
pub open spec fn root_sta_layout(raw: u32) -> PcieRootSta {
    PcieRootSta {
        pme_requester_id: bits_of(raw as int, 0, 16) as u16,
        pme_status: flag_of(raw as int, 16),
        pme_pending: flag_of(raw as int, 17),
    }
}

fn decode_root_sta(raw: u32) -> (r: PcieRootSta)
    ensures
        r == root_sta_layout(raw),
{
    PcieRootSta {
        pme_requester_id: word_field32(raw, 0, 16),
        pme_status: flag32(raw, 16),
        pme_pending: flag32(raw, 17),
    }
}

/// The layout of the register decoded as [`PcieDeviceCap2`].
pub open spec fn dev_cap2_layout(raw: u32) -> PcieDeviceCap2 {
    PcieDeviceCap2 {
        completion_timeout_ranges: bits_of(raw as int, 0, 4) as u8,
        completion_timeout_disable: flag_of(raw as int, 4),
        ari: flag_of(raw as int, 5),
        atomic_op_routing: flag_of(raw as int, 6),
        atomic_32: flag_of(raw as int, 7),
        atomic_64: flag_of(raw as int, 8),
        atomic_128_cas: flag_of(raw as int, 9),
        no_ro_pr_pr_passing: flag_of(raw as int, 10),
        ltr: flag_of(raw as int, 11),
        tph_completer: bits_of(raw as int, 12, 2) as u8,
        ten_bit_tag_completer: flag_of(raw as int, 16),
        ten_bit_tag_requester: flag_of(raw as int, 17),
        obff: bits_of(raw as int, 18, 2) as u8,
        ext_fmt: flag_of(raw as int, 20),
        ee_tlp_prefix: flag_of(raw as int, 21),
    }
}

fn decode_dev_cap2(raw: u32) -> (r: PcieDeviceCap2)
    ensures
        r == dev_cap2_layout(raw),
{
    PcieDeviceCap2 {
        completion_timeout_ranges: byte_field32(raw, 0, 4),
        completion_timeout_disable: flag32(raw, 4),
        ari: flag32(raw, 5),
        atomic_op_routing: flag32(raw, 6),
        atomic_32: flag32(raw, 7),
        atomic_64: flag32(raw, 8),
        atomic_128_cas: flag32(raw, 9),
        no_ro_pr_pr_passing: flag32(raw, 10),
        ltr: flag32(raw, 11),
        tph_completer: byte_field32(raw, 12, 2),
        ten_bit_tag_completer: flag32(raw, 16),
        ten_bit_tag_requester: flag32(raw, 17),
        obff: byte_field32(raw, 18, 2),
        ext_fmt: flag32(raw, 20),
        ee_tlp_prefix: flag32(raw, 21),
    }
}

/// The layout of the register decoded as [`PcieDeviceCtl2`].
pub open spec fn dev_ctl2_layout(raw: u16) -> PcieDeviceCtl2 {
    PcieDeviceCtl2 {
        completion_timeout: bits_of(raw as int, 0, 4) as u8,
        completion_timeout_disable: flag_of(raw as int, 4),
        ari: flag_of(raw as int, 5),
        atomic_op_requester: flag_of(raw as int, 6),
        atomic_op_egress_blocking: flag_of(raw as int, 7),
        ido_request: flag_of(raw as int, 8),
        ido_completion: flag_of(raw as int, 9),
        ltr: flag_of(raw as int, 10),
        ten_bit_tag_requester: flag_of(raw as int, 12),
        obff: bits_of(raw as int, 13, 2) as u8,
        ee_tlp_prefix_blocking: flag_of(raw as int, 15),
    }
}

fn decode_dev_ctl2(raw: u16) -> (r: PcieDeviceCtl2)
    ensures
        r == dev_ctl2_layout(raw),
{
    PcieDeviceCtl2 {
        completion_timeout: byte_field16(raw, 0, 4),
        completion_timeout_disable: flag16(raw, 4),
        ari: flag16(raw, 5),
        atomic_op_requester: flag16(raw, 6),
        atomic_op_egress_blocking: flag16(raw, 7),
        ido_request: flag16(raw, 8),
        ido_completion: flag16(raw, 9),
        ltr: flag16(raw, 10),
        ten_bit_tag_requester: flag16(raw, 12),
        obff: byte_field16(raw, 13, 2),
        ee_tlp_prefix_blocking: flag16(raw, 15),
    }
}

/// The layout of the register decoded as [`PcieLinkCtl2`].
pub open spec fn lnk_ctl2_layout(raw: u16) -> PcieLinkCtl2 {
    PcieLinkCtl2 {
        target_speed: bits_of(raw as int, 0, 4) as u8,
        compliance_de_emphasis: flag_of(raw as int, 4),
        transmit_margin: bits_of(raw as int, 7, 2) as u8,
        enter_modified_compliance: flag_of(raw as int, 7),
        compliance_sos: flag_of(raw as int, 8),
        compliance_preset: bits_of(raw as int, 9, 4) as u8,
    }
}

fn decode_lnk_ctl2(raw: u16) -> (r: PcieLinkCtl2)
    ensures
        r == lnk_ctl2_layout(raw),
{
    PcieLinkCtl2 {
        target_speed: byte_field16(raw, 0, 4),
        compliance_de_emphasis: flag16(raw, 4),
        transmit_margin: byte_field16(raw, 7, 2),
        enter_modified_compliance: flag16(raw, 7),
        compliance_sos: flag16(raw, 8),
        compliance_preset: byte_field16(raw, 9, 4),
    }
}

/// The layout of the register decoded as [`PcieLinkSta2`].
pub open spec fn lnk_sta2_layout(raw: u16) -> PcieLinkSta2 {
    PcieLinkSta2 {
        current_de_emphasis: flag_of(raw as int, 0),
        equalization_complete: flag_of(raw as int, 1),
        equalization_phase1: flag_of(raw as int, 2),
        equalization_phase2: flag_of(raw as int, 3),
        equalization_phase3: flag_of(raw as int, 4),
        equalization_request: flag_of(raw as int, 5),
        retimer_presence: bits_of(raw as int, 6, 2) as u8,
        crosslink_resolution: bits_of(raw as int, 9, 2) as u8,
    }
}

fn decode_lnk_sta2(raw: u16) -> (r: PcieLinkSta2)
    ensures
        r == lnk_sta2_layout(raw),
{
    PcieLinkSta2 {
        current_de_emphasis: flag16(raw, 0),
        equalization_complete: flag16(raw, 1),
        equalization_phase1: flag16(raw, 2),
        equalization_phase2: flag16(raw, 3),
        equalization_phase3: flag16(raw, 4),
        equalization_request: flag16(raw, 5),
        retimer_presence: byte_field16(raw, 6, 2),
        crosslink_resolution: byte_field16(raw, 9, 2),
    }
}

/// The decoded registers of a PCI Express capability.
#[derive(Clone, Copy, Debug, PartialEq, Eq)]
pub struct PcieCapability {
    pub version: u8,
    pub device_type: u8,
    pub slot_implemented: bool,
    pub interrupt_message_number: u8,
    pub dev_cap: PcieDeviceCap,
    pub dev_ctl: PcieDeviceCtl,
    pub dev_sta: PcieDeviceSta,
    pub lnk_cap: PcieLinkCap,
    pub lnk_ctl: PcieLinkCtl,
    pub lnk_sta: PcieLinkSta,
    pub slot_cap: Option<PcieSlotCap>,
    pub slot_ctl: Option<PcieSlotCtl>,
    pub slot_sta: Option<PcieSlotSta>,
    pub root_ctl: Option<PcieRootCtl>,
    pub root_sta: Option<PcieRootSta>,
    pub dev_cap2: Option<PcieDeviceCap2>,
    pub dev_ctl2: Option<PcieDeviceCtl2>,
    pub lnk_ctl2: Option<PcieLinkCtl2>,
    pub lnk_sta2: Option<PcieLinkSta2>,
}

/// The slot registers, present when the flags announce an implemented slot.
pub open spec fn pcie_slot_spec(snapshot: ConfigSpaceSnapshot, base: int, flags: u16)
    -> Option<(Option<PcieSlotCap>, Option<PcieSlotCtl>, Option<PcieSlotSta>)>
{
    if flag_of(flags as int, 8) {
        match (snapshot.dword_at(base + 0x14), snapshot.word_at(base + 0x18), snapshot.word_at(base + 0x1a)) {
            (Some(cap), Some(ctl), Some(sta)) =>
                Some((Some(slot_cap_layout(cap)), Some(slot_ctl_layout(ctl)), Some(slot_sta_layout(sta)))),
            _ => None,
        }
    } else {
        Some((None, None, None))
    }
}

/// The root port registers, present when the device is a root port.
pub open spec fn pcie_root_spec(snapshot: ConfigSpaceSnapshot, base: int, flags: u16)
    -> Option<(Option<PcieRootCtl>, Option<PcieRootSta>)>
{
    if bits_of(flags as int, 4, 4) == ROOT_PORT {
        match (snapshot.word_at(base + 0x1c), snapshot.dword_at(base + 0x20)) {
            (Some(ctl), Some(sta)) => Some((Some(root_ctl_layout(ctl)), Some(root_sta_layout(sta)))),
            _ => None,
        }
    } else {
        Some((None, None))
    }
}

/// The second set of device and link registers, present from version 2 on.
pub open spec fn pcie_v2_spec(snapshot: ConfigSpaceSnapshot, base: int, flags: u16)
    -> Option<(Option<PcieDeviceCap2>, Option<PcieDeviceCtl2>, Option<PcieLinkCtl2>, Option<PcieLinkSta2>)>
{
    if bits_of(flags as int, 0, 4) >= 2 {
        match (snapshot.dword_at(base + 0x24), snapshot.word_at(base + 0x28), snapshot.word_at(base + 0x30), snapshot.word_at(base + 0x32)) {
            (Some(cap2), Some(ctl2), Some(lctl2), Some(lsta2)) => Some((
                Some(dev_cap2_layout(cap2)),
                Some(dev_ctl2_layout(ctl2)),
                Some(lnk_ctl2_layout(lctl2)),
                Some(lnk_sta2_layout(lsta2)),
            )),
            _ => None,
        }
    } else {
        Some((None, None, None, None))
    }
}

/// The PCI Express capability at `offset`, if every register that its flags
/// call for was read.
pub open spec fn pcie_spec(snapshot: ConfigSpaceSnapshot, offset: u16) -> Option<PcieCapability> {
    let base = offset as int;
    match (
        snapshot.word_at(base + 2),
        snapshot.dword_at(base + 4),
        snapshot.word_at(base + 8),
        snapshot.word_at(base + 0x0a),
        snapshot.dword_at(base + 0x0c),
        snapshot.word_at(base + 0x10),
        snapshot.word_at(base + 0x12),
    ) {
        (Some(flags), Some(dev_cap), Some(dev_ctl), Some(dev_sta), Some(lnk_cap), Some(lnk_ctl), Some(lnk_sta)) =>
            match (pcie_slot_spec(snapshot, base, flags), pcie_root_spec(snapshot, base, flags), pcie_v2_spec(snapshot, base, flags)) {
                (Some(slot), Some(root), Some(v2)) => Some(PcieCapability {
                    version: bits_of(flags as int, 0, 4) as u8,
                    device_type: bits_of(flags as int, 4, 4) as u8,
                    slot_implemented: flag_of(flags as int, 8),
                    interrupt_message_number: bits_of(flags as int, 9, 5) as u8,
                    dev_cap: dev_cap_layout(dev_cap),
                    dev_ctl: dev_ctl_layout(dev_ctl),
                    dev_sta: dev_sta_layout(dev_sta),
                    lnk_cap: lnk_cap_layout(lnk_cap),
                    lnk_ctl: lnk_ctl_layout(lnk_ctl),
                    lnk_sta: lnk_sta_layout(lnk_sta),
                    slot_cap: slot.0,
                    slot_ctl: slot.1,
                    slot_sta: slot.2,
                    root_ctl: root.0,
                    root_sta: root.1,
                    dev_cap2: v2.0,
                    dev_ctl2: v2.1,
                    lnk_ctl2: v2.2,
                    lnk_sta2: v2.3,
                }),
                _ => None,
            },
        _ => None,
    }
}

/// The Device Capabilities register by its masks.
pub proof fn lemma_dev_cap_bits(w: u32)
    ensures
        ({
            let c = dev_cap_layout(w);
            &&& c.max_payload as u32 == w & 0x0000_0007
            &&& c.phantom_functions as u32 == (w >> 3) & 0x0000_0003
            &&& c.extended_tag == (w & 0x0000_0020 != 0)
            &&& c.l0s_latency as u32 == (w >> 6) & 0x0000_0007
            &&& c.l1_latency as u32 == (w >> 9) & 0x0000_0007
            &&& c.role_based_error == (w & 0x0000_8000 != 0)
            &&& c.attention_button == (w & 0x0001_0000 != 0)
            &&& c.attention_indicator == (w & 0x0002_0000 != 0)
            &&& c.power_indicator == (w & 0x0004_0000 != 0)
            &&& c.flreset == (w & 0x1000_0000 != 0)
            &&& c.slot_power_limit as u32 == (w >> 18) & 0x0000_00ff
            &&& c.slot_power_limit_scale as u32 == (w >> 26) & 0x0000_0003
        }),
{
    vstd::bits::lemma_low_bits_mask_values();
    vstd::arithmetic::power2::lemma2_to64();
    lemma_masks32();
    lemma_field32_shift_mask(w, 0, 3);
    lemma_field32_shift_mask(w, 3, 2);
    lemma_flag32_mask(w, 5);
    lemma_field32_shift_mask(w, 6, 3);
    lemma_field32_shift_mask(w, 9, 3);
    lemma_flag32_mask(w, 15);
    lemma_flag32_mask(w, 16);
    lemma_flag32_mask(w, 17);
    lemma_flag32_mask(w, 18);
    lemma_flag32_mask(w, 28);
    lemma_field32_shift_mask(w, 18, 8);
    lemma_field32_shift_mask(w, 26, 2);
}

/// The Device Control register by its masks: max payload size in bits
/// 7:5, max read request size in bits 14:12.
pub proof fn lemma_dev_ctl_bits(w: u16)
    ensures
        ({
            let c = dev_ctl_layout(w);
            &&& c.corr_err == (w & 0x0001 != 0)
            &&& c.non_fatal_err == (w & 0x0002 != 0)
            &&& c.fatal_err == (w & 0x0004 != 0)
            &&& c.unsup_req == (w & 0x0008 != 0)
            &&& c.relaxed_ordering == (w & 0x0010 != 0)
            &&& c.max_payload as u16 == (w >> 5) & 0x0007
            &&& c.extended_tag == (w & 0x0100 != 0)
            &&& c.phantom_functions == (w & 0x0200 != 0)
            &&& c.aux_power == (w & 0x0400 != 0)
            &&& c.no_snoop == (w & 0x0800 != 0)
            &&& c.max_read_req as u16 == (w >> 12) & 0x0007
            &&& c.bridge_config_retry == (w & 0x8000 != 0)
        }),
{
    vstd::bits::lemma_low_bits_mask_values();
    vstd::arithmetic::power2::lemma2_to64();
    lemma_masks16();
    lemma_flag16_mask(w, 0);
    lemma_flag16_mask(w, 1);
    lemma_flag16_mask(w, 2);
    lemma_flag16_mask(w, 3);
    lemma_flag16_mask(w, 4);
    lemma_field16_shift_mask(w, 5, 3);
    lemma_flag16_mask(w, 8);
    lemma_flag16_mask(w, 9);
    lemma_flag16_mask(w, 10);
    lemma_flag16_mask(w, 11);
    lemma_field16_shift_mask(w, 12, 3);
    lemma_flag16_mask(w, 15);
}

/// The Device Status register by its masks.
pub proof fn lemma_dev_sta_bits(w: u16)
    ensures
        ({
            let c = dev_sta_layout(w);
            &&& c.corr_err == (w & 0x0001 != 0)
            &&& c.non_fatal_err == (w & 0x0002 != 0)
            &&& c.fatal_err == (w & 0x0004 != 0)
            &&& c.unsup_req == (w & 0x0008 != 0)
            &&& c.aux_power == (w & 0x0010 != 0)
            &&& c.trans_pending == (w & 0x0020 != 0)
        }),
{
    lemma_masks16();
    lemma_flag16_mask(w, 0);
    lemma_flag16_mask(w, 1);
    lemma_flag16_mask(w, 2);
    lemma_flag16_mask(w, 3);
    lemma_flag16_mask(w, 4);
    lemma_flag16_mask(w, 5);
}

/// The Link Capabilities register by its masks.
pub proof fn lemma_lnk_cap_bits(w: u32)
    ensures
        ({
            let c = lnk_cap_layout(w);
            &&& c.max_speed as u32 == w & 0x0000_000f
            &&& c.max_width as u32 == (w >> 4) & 0x0000_003f
            &&& c.aspm as u32 == (w >> 10) & 0x0000_0003
            &&& c.l0s_exit_latency as u32 == (w >> 12) & 0x0000_0007
            &&& c.l1_exit_latency as u32 == (w >> 15) & 0x0000_0007
            &&& c.clock_pm == (w & 0x0004_0000 != 0)
            &&& c.surprise_down == (w & 0x0008_0000 != 0)
            &&& c.dll_active == (w & 0x0010_0000 != 0)
            &&& c.link_bw_notif == (w & 0x0020_0000 != 0)
            &&& c.aspm_opt_compliance == (w & 0x0040_0000 != 0)
            &&& c.port_number as u32 == (w >> 24) & 0x0000_00ff
        }),
{
    vstd::bits::lemma_low_bits_mask_values();
    vstd::arithmetic::power2::lemma2_to64();
    lemma_masks32();
    lemma_field32_shift_mask(w, 0, 4);
    lemma_field32_shift_mask(w, 4, 6);
    lemma_field32_shift_mask(w, 10, 2);
    lemma_field32_shift_mask(w, 12, 3);
    lemma_field32_shift_mask(w, 15, 3);
    lemma_flag32_mask(w, 18);
    lemma_flag32_mask(w, 19);
    lemma_flag32_mask(w, 20);
    lemma_flag32_mask(w, 21);
    lemma_flag32_mask(w, 22);
    lemma_field32_shift_mask(w, 24, 8);
}

/// The Link Control register by its masks.
pub proof fn lemma_lnk_ctl_bits(w: u16)
    ensures
        ({
            let c = lnk_ctl_layout(w);
            &&& c.aspm as u16 == w & 0x0003
            &&& c.rcb == (w & 0x0008 != 0)
            &&& c.link_disable == (w & 0x0010 != 0)
            &&& c.retrain == (w & 0x0020 != 0)
            &&& c.common_clock == (w & 0x0040 != 0)
            &&& c.extended_synch == (w & 0x0080 != 0)
            &&& c.clock_pm == (w & 0x0100 != 0)
            &&& c.autonomous_width_disable == (w & 0x0200 != 0)
            &&& c.bw_interrupt == (w & 0x0400 != 0)
            &&& c.autonomous_bw_interrupt == (w & 0x0800 != 0)
        }),
{
    vstd::bits::lemma_low_bits_mask_values();
    vstd::arithmetic::power2::lemma2_to64();
    lemma_masks16();
    lemma_field16_shift_mask(w, 0, 2);
    lemma_flag16_mask(w, 3);
    lemma_flag16_mask(w, 4);
    lemma_flag16_mask(w, 5);
    lemma_flag16_mask(w, 6);
    lemma_flag16_mask(w, 7);
    lemma_flag16_mask(w, 8);
    lemma_flag16_mask(w, 9);
    lemma_flag16_mask(w, 10);
    lemma_flag16_mask(w, 11);
}

/// The Link Status register by its masks.
pub proof fn lemma_lnk_sta_bits(w: u16)
    ensures
        ({
            let c = lnk_sta_layout(w);
            &&& c.speed as u16 == w & 0x000f
            &&& c.width as u16 == (w >> 4) & 0x003f
            &&& c.tr_err == (w & 0x0400 != 0)
            &&& c.training == (w & 0x0800 != 0)
            &&& c.slot_clock == (w & 0x1000 != 0)
            &&& c.dll_active == (w & 0x2000 != 0)
            &&& c.bw_management == (w & 0x4000 != 0)
            &&& c.autonomous_bw == (w & 0x8000 != 0)
        }),
{
    vstd::bits::lemma_low_bits_mask_values();
    vstd::arithmetic::power2::lemma2_to64();
    lemma_masks16();
    lemma_field16_shift_mask(w, 0, 4);
    lemma_field16_shift_mask(w, 4, 6);
    lemma_flag16_mask(w, 10);
    lemma_flag16_mask(w, 11);
    lemma_flag16_mask(w, 12);
    lemma_flag16_mask(w, 13);
    lemma_flag16_mask(w, 14);
    lemma_flag16_mask(w, 15);
}

/// The Slot Capabilities register by its masks.
pub proof fn lemma_slot_cap_bits(w: u32)
    ensures
        ({
            let c = slot_cap_layout(w);
            &&& c.attention_button == (w & 0x0000_0001 != 0)
            &&& c.power_controller == (w & 0x0000_0002 != 0)
            &&& c.mrl == (w & 0x0000_0004 != 0)
            &&& c.attention_indicator == (w & 0x0000_0008 != 0)
            &&& c.power_indicator == (w & 0x0000_0010 != 0)
            &&& c.hotplug_surprise == (w & 0x0000_0020 != 0)
            &&& c.hotplug_capable == (w & 0x0000_0040 != 0)
            &&& c.slot_power_limit as u32 == (w >> 7) & 0x0000_00ff
            &&& c.slot_power_limit_scale as u32 == (w >> 15) & 0x0000_0003
            &&& c.electromechanical == (w & 0x0002_0000 != 0)
            &&& c.no_command_completed == (w & 0x0004_0000 != 0)
            &&& c.physical_slot_number as u32 == (w >> 19) & 0x0000_1fff
        }),
{
    vstd::bits::lemma_low_bits_mask_values();
    vstd::arithmetic::power2::lemma2_to64();
    lemma_masks32();
    lemma_flag32_mask(w, 0);
    lemma_flag32_mask(w, 1);
    lemma_flag32_mask(w, 2);
    lemma_flag32_mask(w, 3);
    lemma_flag32_mask(w, 4);
    lemma_flag32_mask(w, 5);
    lemma_flag32_mask(w, 6);
    lemma_field32_shift_mask(w, 7, 8);
    lemma_field32_shift_mask(w, 15, 2);
    lemma_flag32_mask(w, 17);
    lemma_flag32_mask(w, 18);
    lemma_field32_shift_mask(w, 19, 13);
}

/// The Slot Control register by its masks.
pub proof fn lemma_slot_ctl_bits(w: u16)
    ensures
        ({
            let c = slot_ctl_layout(w);
            &&& c.attention_button_enable == (w & 0x0001 != 0)
            &&& c.power_fault_detect == (w & 0x0002 != 0)
            &&& c.mrl_sensor == (w & 0x0004 != 0)
            &&& c.presence_detect == (w & 0x0008 != 0)
            &&& c.command_completed == (w & 0x0010 != 0)
            &&& c.hotplug_interrupt == (w & 0x0020 != 0)
            &&& c.attention_indicator as u16 == (w >> 6) & 0x0003
            &&& c.power_indicator as u16 == (w >> 8) & 0x0003
            &&& c.power_controller_control == (w & 0x0400 != 0)
            &&& c.power_interlock == (w & 0x0800 != 0)
            &&& c.dll_state_changed == (w & 0x1000 != 0)
        }),
{
    vstd::bits::lemma_low_bits_mask_values();
    vstd::arithmetic::power2::lemma2_to64();
    lemma_masks16();
    lemma_flag16_mask(w, 0);
    lemma_flag16_mask(w, 1);
    lemma_flag16_mask(w, 2);
    lemma_flag16_mask(w, 3);
    lemma_flag16_mask(w, 4);
    lemma_flag16_mask(w, 5);
    lemma_field16_shift_mask(w, 6, 2);
    lemma_field16_shift_mask(w, 8, 2);
    lemma_flag16_mask(w, 10);
    lemma_flag16_mask(w, 11);
    lemma_flag16_mask(w, 12);
}

/// The Slot Status register by its masks.
pub proof fn lemma_slot_sta_bits(w: u16)
    ensures
        ({
            let c = slot_sta_layout(w);
            &&& c.attention_button == (w & 0x0001 != 0)
            &&& c.power_fault == (w & 0x0002 != 0)
            &&& c.mrl_sensor == (w & 0x0004 != 0)
            &&& c.presence_detect == (w & 0x0008 != 0)
            &&& c.command_completed == (w & 0x0010 != 0)
            &&& c.mrl_state == (w & 0x0020 != 0)
            &&& c.presence_state == (w & 0x0040 != 0)
            &&& c.power_interlock == (w & 0x0080 != 0)
            &&& c.dll_state == (w & 0x0100 != 0)
        }),
{
    lemma_masks16();
    lemma_flag16_mask(w, 0);
    lemma_flag16_mask(w, 1);
    lemma_flag16_mask(w, 2);
    lemma_flag16_mask(w, 3);
    lemma_flag16_mask(w, 4);
    lemma_flag16_mask(w, 5);
    lemma_flag16_mask(w, 6);
    lemma_flag16_mask(w, 7);
    lemma_flag16_mask(w, 8);
}

/// The Root Control register by its masks.
pub proof fn lemma_root_ctl_bits(w: u16)
    ensures
        ({
            let c = root_ctl_layout(w);
            &&& c.serr_corr == (w & 0x0001 != 0)
            &&& c.serr_non_fatal == (w & 0x0002 != 0)
            &&& c.serr_fatal == (w & 0x0004 != 0)
            &&& c.pme_interrupt == (w & 0x0008 != 0)
            &&& c.crs_visible == (w & 0x0010 != 0)
        }),
{
    lemma_masks16();
    lemma_flag16_mask(w, 0);
    lemma_flag16_mask(w, 1);
    lemma_flag16_mask(w, 2);
    lemma_flag16_mask(w, 3);
    lemma_flag16_mask(w, 4);
}

/// The Root Status register by its masks.
pub proof fn lemma_root_sta_bits(w: u32)
    ensures
        ({
            let c = root_sta_layout(w);
            &&& c.pme_requester_id as u32 == w & 0x0000_ffff
            &&& c.pme_status == (w & 0x0001_0000 != 0)
            &&& c.pme_pending == (w & 0x0002_0000 != 0)
        }),
{
    vstd::bits::lemma_low_bits_mask_values();
    vstd::arithmetic::power2::lemma2_to64();
    lemma_masks32();
    lemma_field32_shift_mask(w, 0, 16);
    lemma_flag32_mask(w, 16);
    lemma_flag32_mask(w, 17);
}

/// The Device Capabilities 2 register by its masks.
pub proof fn lemma_dev_cap2_bits(w: u32)
    ensures
        ({
            let c = dev_cap2_layout(w);
            &&& c.completion_timeout_ranges as u32 == w & 0x0000_000f
            &&& c.completion_timeout_disable == (w & 0x0000_0010 != 0)
            &&& c.ari == (w & 0x0000_0020 != 0)
            &&& c.atomic_op_routing == (w & 0x0000_0040 != 0)
            &&& c.atomic_32 == (w & 0x0000_0080 != 0)
            &&& c.atomic_64 == (w & 0x0000_0100 != 0)
            &&& c.atomic_128_cas == (w & 0x0000_0200 != 0)
            &&& c.no_ro_pr_pr_passing == (w & 0x0000_0400 != 0)
            &&& c.ltr == (w & 0x0000_0800 != 0)
            &&& c.tph_completer as u32 == (w >> 12) & 0x0000_0003
            &&& c.ten_bit_tag_completer == (w & 0x0001_0000 != 0)
            &&& c.ten_bit_tag_requester == (w & 0x0002_0000 != 0)
            &&& c.obff as u32 == (w >> 18) & 0x0000_0003
            &&& c.ext_fmt == (w & 0x0010_0000 != 0)
            &&& c.ee_tlp_prefix == (w & 0x0020_0000 != 0)
        }),
{
    vstd::bits::lemma_low_bits_mask_values();
    vstd::arithmetic::power2::lemma2_to64();
    lemma_masks32();
    lemma_field32_shift_mask(w, 0, 4);
    lemma_flag32_mask(w, 4);
    lemma_flag32_mask(w, 5);
    lemma_flag32_mask(w, 6);
    lemma_flag32_mask(w, 7);
    lemma_flag32_mask(w, 8);
    lemma_flag32_mask(w, 9);
    lemma_flag32_mask(w, 10);
    lemma_flag32_mask(w, 11);
    lemma_field32_shift_mask(w, 12, 2);
    lemma_flag32_mask(w, 16);
    lemma_flag32_mask(w, 17);
    lemma_field32_shift_mask(w, 18, 2);
    lemma_flag32_mask(w, 20);
    lemma_flag32_mask(w, 21);
}

/// The Device Control 2 register by its masks.
pub proof fn lemma_dev_ctl2_bits(w: u16)
    ensures
        ({
            let c = dev_ctl2_layout(w);
            &&& c.completion_timeout as u16 == w & 0x000f
            &&& c.completion_timeout_disable == (w & 0x0010 != 0)
            &&& c.ari == (w & 0x0020 != 0)
            &&& c.atomic_op_requester == (w & 0x0040 != 0)
            &&& c.atomic_op_egress_blocking == (w & 0x0080 != 0)
            &&& c.ido_request == (w & 0x0100 != 0)
            &&& c.ido_completion == (w & 0x0200 != 0)
            &&& c.ltr == (w & 0x0400 != 0)
            &&& c.ten_bit_tag_requester == (w & 0x1000 != 0)
            &&& c.obff as u16 == (w >> 13) & 0x0003
            &&& c.ee_tlp_prefix_blocking == (w & 0x8000 != 0)
        }),
{
    vstd::bits::lemma_low_bits_mask_values();
    vstd::arithmetic::power2::lemma2_to64();
    lemma_masks16();
    lemma_field16_shift_mask(w, 0, 4);
    lemma_flag16_mask(w, 4);
    lemma_flag16_mask(w, 5);
    lemma_flag16_mask(w, 6);
    lemma_flag16_mask(w, 7);
    lemma_flag16_mask(w, 8);
    lemma_flag16_mask(w, 9);
    lemma_flag16_mask(w, 10);
    lemma_flag16_mask(w, 12);
    lemma_field16_shift_mask(w, 13, 2);
    lemma_flag16_mask(w, 15);
}

/// The Link Control 2 register by its masks.
pub proof fn lemma_lnk_ctl2_bits(w: u16)
    ensures
        ({
            let c = lnk_ctl2_layout(w);
            &&& c.target_speed as u16 == w & 0x000f
            &&& c.compliance_de_emphasis == (w & 0x0010 != 0)
            &&& c.transmit_margin as u16 == (w >> 7) & 0x0003
            &&& c.enter_modified_compliance == (w & 0x0080 != 0)
            &&& c.compliance_sos == (w & 0x0100 != 0)
            &&& c.compliance_preset as u16 == (w >> 9) & 0x000f
        }),
{
    vstd::bits::lemma_low_bits_mask_values();
    vstd::arithmetic::power2::lemma2_to64();
    lemma_masks16();
    lemma_field16_shift_mask(w, 0, 4);
    lemma_flag16_mask(w, 4);
    lemma_field16_shift_mask(w, 7, 2);
    lemma_flag16_mask(w, 7);
    lemma_flag16_mask(w, 8);
    lemma_field16_shift_mask(w, 9, 4);
}

/// The Link Status 2 register by its masks.
pub proof fn lemma_lnk_sta2_bits(w: u16)
    ensures
        ({
            let c = lnk_sta2_layout(w);
            &&& c.current_de_emphasis == (w & 0x0001 != 0)
            &&& c.equalization_complete == (w & 0x0002 != 0)
            &&& c.equalization_phase1 == (w & 0x0004 != 0)
            &&& c.equalization_phase2 == (w & 0x0008 != 0)
            &&& c.equalization_phase3 == (w & 0x0010 != 0)
            &&& c.equalization_request == (w & 0x0020 != 0)
            &&& c.retimer_presence as u16 == (w >> 6) & 0x0003
            &&& c.crosslink_resolution as u16 == (w >> 9) & 0x0003
        }),
{
    vstd::bits::lemma_low_bits_mask_values();
    vstd::arithmetic::power2::lemma2_to64();
    lemma_masks16();
    lemma_flag16_mask(w, 0);
    lemma_flag16_mask(w, 1);
    lemma_flag16_mask(w, 2);
    lemma_flag16_mask(w, 3);
    lemma_flag16_mask(w, 4);
    lemma_flag16_mask(w, 5);
    lemma_field16_shift_mask(w, 6, 2);
    lemma_field16_shift_mask(w, 9, 2);
}

/// Where the device part of a decoded PCI Express capability comes from,
/// by register offset and mask. The flags word at offset + 2 gives the
/// version (bits 3:0), the device/port type (bits 7:4), the slot flag
/// (0x0100) and the interrupt message number (bits 13:9). The Device
/// Control word at offset + 8 gives the max payload size (bits 7:5) and
/// the max read request size (bits 14:12); it, the Device Capabilities
/// dword at offset + 4 and the Device Status word at offset + 0x0a are
/// decoded as [`lemma_dev_ctl_bits`], [`lemma_dev_cap_bits`] and
/// [`lemma_dev_sta_bits`] state.
pub proof fn lemma_pcie_device_registers(snapshot: ConfigSpaceSnapshot, offset: u16)
    requires
        pcie_spec(snapshot, offset) is Some,
    ensures
        snapshot.word_at(offset + 2) is Some,
        snapshot.dword_at(offset + 4) is Some,
        snapshot.word_at(offset + 8) is Some,
        snapshot.word_at(offset + 0x0a) is Some,
        ({
            let c = pcie_spec(snapshot, offset).unwrap();
            let flags = snapshot.word_at(offset + 2).unwrap();
            &&& c.version as u16 == flags & 0x000f
            &&& c.device_type as u16 == (flags >> 4) & 0x000f
            &&& c.slot_implemented == (flags & 0x0100 != 0)
            &&& c.interrupt_message_number as u16 == (flags >> 9) & 0x001f
        }),
        pcie_spec(snapshot, offset).unwrap().dev_cap == dev_cap_layout(snapshot.dword_at(offset + 4).unwrap()),
        pcie_spec(snapshot, offset).unwrap().dev_ctl == dev_ctl_layout(snapshot.word_at(offset + 8).unwrap()),
        pcie_spec(snapshot, offset).unwrap().dev_ctl.max_payload as u16 == (snapshot.word_at(offset + 8).unwrap() >> 5) & 0x0007,
        pcie_spec(snapshot, offset).unwrap().dev_ctl.max_read_req as u16 == (snapshot.word_at(offset + 8).unwrap() >> 12) & 0x0007,
        pcie_spec(snapshot, offset).unwrap().dev_sta == dev_sta_layout(snapshot.word_at(offset + 0x0a).unwrap()),
{
    vstd::bits::lemma_low_bits_mask_values();
    vstd::arithmetic::power2::lemma2_to64();
    lemma_masks16();
    let flags = snapshot.word_at(offset + 2).unwrap();
    lemma_field16_shift_mask(flags, 0, 4);
    lemma_field16_shift_mask(flags, 4, 4);
    lemma_flag16_mask(flags, 8);
    lemma_field16_shift_mask(flags, 9, 5);
    lemma_dev_ctl_bits(snapshot.word_at(offset + 8).unwrap());
}

/// Where the link, slot, root port and second-version registers of a
/// decoded PCI Express capability come from: Link Capabilities at offset +
/// 0x0c, Link Control at + 0x10, Link Status at + 0x12; when the slot flag
/// is set, Slot Capabilities, Control and Status at + 0x14, + 0x18 and +
/// 0x1a; for a root port (type 4), Root Control at + 0x1c and Root Status
/// at + 0x20; from version 2 on, Device Capabilities 2 at + 0x24, Device
/// Control 2 at + 0x28, Link Control 2 at + 0x30 and Link Status 2 at +
/// 0x32. Registers that do not apply are absent.
pub proof fn lemma_pcie_register_offsets(snapshot: ConfigSpaceSnapshot, offset: u16)
    requires
        pcie_spec(snapshot, offset) is Some,
    ensures
        ({
            let c = pcie_spec(snapshot, offset).unwrap();
            let o = offset as int;
            &&& snapshot.dword_at(o + 0x0c) matches Some(w) && c.lnk_cap == lnk_cap_layout(w)
            &&& snapshot.word_at(o + 0x10) matches Some(w) && c.lnk_ctl == lnk_ctl_layout(w)
            &&& snapshot.word_at(o + 0x12) matches Some(w) && c.lnk_sta == lnk_sta_layout(w)
            &&& c.slot_implemented ==> {
                &&& snapshot.dword_at(o + 0x14) matches Some(w) && c.slot_cap == Some(slot_cap_layout(w))
                &&& snapshot.word_at(o + 0x18) matches Some(w) && c.slot_ctl == Some(slot_ctl_layout(w))
                &&& snapshot.word_at(o + 0x1a) matches Some(w) && c.slot_sta == Some(slot_sta_layout(w))
            }
            &&& !c.slot_implemented ==> c.slot_cap is None && c.slot_ctl is None && c.slot_sta is None
            &&& c.device_type == 4 ==> {
                &&& snapshot.word_at(o + 0x1c) matches Some(w) && c.root_ctl == Some(root_ctl_layout(w))
                &&& snapshot.dword_at(o + 0x20) matches Some(w) && c.root_sta == Some(root_sta_layout(w))
            }
            &&& c.device_type != 4 ==> c.root_ctl is None && c.root_sta is None
            &&& c.version >= 2 ==> {
                &&& snapshot.dword_at(o + 0x24) matches Some(w) && c.dev_cap2 == Some(dev_cap2_layout(w))
                &&& snapshot.word_at(o + 0x28) matches Some(w) && c.dev_ctl2 == Some(dev_ctl2_layout(w))
                &&& snapshot.word_at(o + 0x30) matches Some(w) && c.lnk_ctl2 == Some(lnk_ctl2_layout(w))
                &&& snapshot.word_at(o + 0x32) matches Some(w) && c.lnk_sta2 == Some(lnk_sta2_layout(w))
            }
            &&& c.version < 2 ==> c.dev_cap2 is None && c.dev_ctl2 is None && c.lnk_ctl2 is None && c.lnk_sta2 is None
        }),
{
    let flags = snapshot.word_at(offset + 2).unwrap();
    vstd::arithmetic::power2::lemma2_to64();
    crate::bits::lemma_bits_of_bound(flags as int, 0, 4);
    crate::bits::lemma_bits_of_bound(flags as int, 4, 4);
}

/// Decodes the PCI Express capability at `offset` from the snapshot; `None` when
/// the registers it needs were not all read.
pub fn decode_pcie(snapshot: &ConfigSpaceSnapshot, offset: u16) -> (r: Option<PcieCapability>)
    requires
        snapshot.wf(),
    ensures
        r == pcie_spec(*snapshot, offset),
{
    let base = offset as u32;

    let flags = read_word(snapshot, base + 2).ok()?;
    let version = byte_field16(flags, 0, 4);
    let device_type = byte_field16(flags, 4, 4);
    let slot_implemented = flag16(flags, 8);

    let dev_cap_raw = read_dword(snapshot, base + 4).ok()?;
    let dev_ctl_raw = read_word(snapshot, base + 8).ok()?;
    let dev_sta_raw = read_word(snapshot, base + 0x0a).ok()?;
    let lnk_cap_raw = read_dword(snapshot, base + 0x0c).ok()?;
    let lnk_ctl_raw = read_word(snapshot, base + 0x10).ok()?;
    let lnk_sta_raw = read_word(snapshot, base + 0x12).ok()?;

    let (slot_cap, slot_ctl, slot_sta) = if slot_implemented {
        let cap = read_dword(snapshot, base + 0x14).ok()?;
        let ctl = read_word(snapshot, base + 0x18).ok()?;
        let sta = read_word(snapshot, base + 0x1a).ok()?;
        (Some(decode_slot_cap(cap)), Some(decode_slot_ctl(ctl)), Some(decode_slot_sta(sta)))
    } else {
        (None, None, None)
    };

    let (root_ctl, root_sta) = if device_type == ROOT_PORT {
        let ctl = read_word(snapshot, base + 0x1c).ok()?;
        let sta = read_dword(snapshot, base + 0x20).ok()?;
        (Some(decode_root_ctl(ctl)), Some(decode_root_sta(sta)))
    } else {
        (None, None)
    };

    let (dev_cap2, dev_ctl2, lnk_ctl2, lnk_sta2) = if version >= 2 {
        let cap2 = read_dword(snapshot, base + 0x24).ok()?;
        let ctl2 = read_word(snapshot, base + 0x28).ok()?;
        let lnk_ctl2_raw = read_word(snapshot, base + 0x30).ok()?;
        let lnk_sta2_raw = read_word(snapshot, base + 0x32).ok()?;
        (
            Some(decode_dev_cap2(cap2)),
            Some(decode_dev_ctl2(ctl2)),
            Some(decode_lnk_ctl2(lnk_ctl2_raw)),
            Some(decode_lnk_sta2(lnk_sta2_raw)),
        )
    } else {
        (None, None, None, None)
    };

    Some(PcieCapability {
        version,
        device_type,
        slot_implemented,
        interrupt_message_number: byte_field16(flags, 9, 5),
        dev_cap: decode_dev_cap(dev_cap_raw),
        dev_ctl: decode_dev_ctl(dev_ctl_raw),
        dev_sta: decode_dev_sta(dev_sta_raw),
        lnk_cap: decode_lnk_cap(lnk_cap_raw),
        lnk_ctl: decode_lnk_ctl(lnk_ctl_raw),
        lnk_sta: decode_lnk_sta(lnk_sta_raw),
        slot_cap,
        slot_ctl,
        slot_sta,
        root_ctl,
        root_sta,
        dev_cap2,
        dev_ctl2,
        lnk_ctl2,
        lnk_sta2,
    })
}

} // verus!
