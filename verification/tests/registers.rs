use m4_gdb_bridge::bits::{get_bit, get_field, set_bit, set_field};
use m4_gdb_bridge::registers::{Aircr, Dcrdr, Dcrsr, Demcr, Dhcsr, FpCompX, FpCtrl};

#[test]
fn breakpoint_register_value() {
    // Check that the register configuration for the FPBU is
    // calculated correctly.
    //
    // See ARMv7 Architecture Reference Manual, Section C1.11.5
    let address: u32 = 0x0800_09A4;

    let reg = FpCompX::breakpoint_configuration(address);
    let reg_val: u32 = reg.into();

    assert_eq!(0x4800_09A5, reg_val);
}

#[test]
fn breakpoint_on_upper_half_word() {
    let reg = FpCompX::breakpoint_configuration(0x0800_09A6);
    assert_eq!(u32::from(reg), 0x8800_09A5);
    assert_eq!(reg.replace(), 0b10);
    assert_eq!(reg.comp(), 0x0800_09A4 >> 2);
    assert!(reg.enable());
}

#[test]
fn breakpoint_address_is_cut_to_bits_28_to_2() {
    let reg = FpCompX::breakpoint_configuration(0xFFFF_FFFF);
    assert_eq!(u32::from(reg), 0x9FFF_FFFD);
    let reg = FpCompX::breakpoint_configuration(0);
    assert_eq!(u32::from(reg), 0x4000_0001);
}

#[test]
fn words_round_trip_through_every_register() {
    for word in [0u32, 1, 0xA05F_0003, 0x8000_0000, 0xDEAD_BEEF, 0xFFFF_FFFF] {
        assert_eq!(u32::from(Dhcsr::from(word)), word);
        assert_eq!(u32::from(Dcrsr::from(word)), word);
        assert_eq!(u32::from(Dcrdr::from(word)), word);
        assert_eq!(u32::from(Aircr::from(word)), word);
        assert_eq!(u32::from(Demcr::from(word)), word);
        assert_eq!(u32::from(FpCtrl::from(word)), word);
        assert_eq!(u32::from(FpCompX::from(word)), word);
    }
}

#[test]
fn enable_write_on_a_fresh_dhcsr() {
    let mut value = Dhcsr::from(0);
    value.enable_write();
    let word: u32 = value.into();
    assert_eq!(word >> 16, 0xA05F);
    assert_eq!(word & 0xFFFF, 0);
}

#[test]
fn enable_write_replaces_the_status_bits_and_keeps_the_control_bits() {
    let mut value = Dhcsr::from(0xFFFF_002B);
    value.enable_write();
    assert_eq!(u32::from(value), 0xA05F_002B);
}

#[test]
fn dhcsr_fields() {
    let value = Dhcsr::from(0x0203_0000);
    assert!(value.s_reset_st());
    assert!(!value.s_retire_st());
    assert!(value.s_halt());
    assert!(value.s_regrdy());
    assert!(!value.s_lockup());
    assert!(!value.s_sleep());
    let mut value = Dhcsr::from(0);
    value.set_c_step(true);
    value.set_c_halt(false);
    value.set_c_debugen(true);
    value.set_c_maskints(true);
    assert!(value.c_step() && value.c_debugen() && value.c_maskings() && !value.c_halt());
    value.set_c_snapstall(true);
    assert!(value.c_snapstall());
    assert_eq!(u32::from(value), 0x2D);
    value.set_c_step(false);
    assert_eq!(u32::from(value), 0x29);
}

#[test]
fn vectkey_is_not_what_vectkeystat_looks_for() {
    let mut value = Aircr::from(0);
    value.vectkey();
    assert_eq!(u32::from(value), 0x05FA_0000);
    assert_eq!(value.get_vectkeystat(), 0x05FA);
    assert!(!value.vectkeystat());
    assert!(Aircr::from(0xFA05_0000).vectkeystat());
    assert!(Aircr::from(0xFA05_8704).vectkeystat());
    assert!(!Aircr::from(0x0000_FA05).vectkeystat());
}

#[test]
fn aircr_fields() {
    let mut value = Aircr::from(0);
    value.vectkey();
    value.set_sysresetreq(true);
    assert_eq!(u32::from(value), 0x05FA_0004);
    value.set_prigroup(0b101);
    assert_eq!(value.prigroup(), 0b101);
    value.set_prigroup(0xFF);
    assert_eq!(value.prigroup(), 0b111);
    assert_eq!(u32::from(value), 0x05FA_0704);
    assert!(value.sysresetreq() && !value.vectreset() && !value.vectclractive());
    assert!(!value.endianness());
}

#[test]
fn dcrsr_selector_is_seven_bits_wide() {
    let mut value = Dcrsr::from(0);
    value.set_regwnr(true);
    value.set_regsel(0x10);
    assert_eq!(u32::from(value), 0x0001_0010);
    value.set_regsel(0xFF);
    assert_eq!(u32::from(value), 0x0001_007F);
    value.set_regwnr(false);
    assert_eq!(u32::from(value), 0x7F);
}

#[test]
fn demcr_fields() {
    let mut value = Demcr::from(0);
    value.set_vc_corereset(true);
    assert_eq!(u32::from(value), 1);
    value.set_trcena(true);
    assert_eq!(u32::from(value), 0x0100_0001);
    assert!(value.vc_corereset() && value.trcena() && !value.vc_harderr());
    value.set_vc_corereset(false);
    assert_eq!(u32::from(value), 0x0100_0000);
    let all = Demcr::from(0x010F_07F1);
    assert!(all.mon_req() && all.mon_step() && all.mon_pend() && all.mon_en());
    assert!(all.vc_harderr() && all.vc_interr() && all.vc_buserr() && all.vc_staterr());
    assert!(all.vc_chkerr() && all.vc_nocperr() && all.vc_mmerr());
}

#[test]
fn num_code_joins_its_two_parts() {
    assert_eq!(FpCtrl::from(0x0000_0060).num_code(), 6);
    assert_eq!(FpCtrl::from(0x0000_7000).num_code(), 0x70);
    assert_eq!(FpCtrl::from(0x0000_70F0).num_code(), 127);
    assert_eq!(FpCtrl::from(0xFFFF_8F0F).num_code(), 0);
    assert_eq!(FpCtrl::from(0x1000_0260).rev(), 1);
    assert_eq!(FpCtrl::from(0x1000_0260).num_lit(), 2);
    let mut value = FpCtrl::from(0);
    value.set_key(true);
    value.set_enable(true);
    assert_eq!(u32::from(value), 3);
    assert!(value.enable());
}

#[test]
fn register_addresses() {
    assert_eq!(Dhcsr::ADDRESS, 0xE000_EDF0);
    assert_eq!(Dcrsr::ADDRESS, 0xE000_EDF4);
    assert_eq!(Dcrdr::ADDRESS, 0xE000_EDF8);
    assert_eq!(Aircr::ADDRESS, 0xE000_ED0C);
    assert_eq!(Demcr::ADDRESS, 0xE000_EDFC);
    assert_eq!(FpCtrl::ADDRESS, 0xE000_2000);
    assert_eq!(FpCompX::ADDRESS, 0xE000_2008);
    assert_eq!(Dhcsr::NAME, "DHCSR");
}

#[test]
fn bits_and_fields_of_a_word() {
    assert!(get_bit(0x8000_0000, 31));
    assert!(!get_bit(0x7FFF_FFFF, 31));
    assert_eq!(set_bit(0, 5, true), 0x20);
    assert_eq!(set_bit(0xFF, 0, false), 0xFE);
    assert_eq!(get_field(0xABCD_1234, 31, 16), 0xABCD);
    assert_eq!(get_field(0xABCD_1234, 31, 0), 0xABCD_1234);
    assert_eq!(get_field(0xABCD_1234, 7, 4), 3);
    assert_eq!(set_field(0xFFFF_FFFF, 11, 4, 0), 0xFFFF_F00F);
    assert_eq!(set_field(0, 11, 4, 0x1FF), 0xFF0);
    assert_eq!(set_field(0x1234_5678, 31, 0, 0x9ABC_DEF0), 0x9ABC_DEF0);
}
