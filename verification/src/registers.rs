//! The debug registers of the core, each a 32-bit word with named bit fields.
//!
//! A register value is the plain word. The accessors name the bit positions
//! of the architecture; their contracts are stated with [`bit`] and [`field`].
use crate::bits::{bit, field, get_bit, get_field, set_bit, set_field, with_bit, with_field};
use vstd::prelude::*;
use vstd::std_specs::convert::{FromSpec, FromSpecImpl};

verus! {

/// The key that bits 31:16 of a DHCSR write must hold.
pub const DHCSR_DEBUG_KEY: u32 = 0xA05F;

/// The key that bits 31:16 of an AIRCR write must hold.
pub const AIRCR_VECTKEY: u32 = 0x05FA;

/// What bits 31:16 of AIRCR hold when the register is read.
pub const AIRCR_VECTKEYSTAT: u32 = 0xFA05;

/// REPLACE for a breakpoint at `address`: 1 matches the lower half-word of
/// the compared word, 2 the upper one.
pub open spec fn replace_for(address: u32) -> u32 {
    if address & 0x3 == 0 {
        1
    } else {
        2
    }
}

/// The comparator word for a breakpoint at `address`, field by field.
pub open spec fn breakpoint_word(address: u32) -> u32 {
    with_bit(
        with_field(with_field(0, 31, 30, replace_for(address)), 28, 2, (address & 0x1fff_fffc) >> 2),
        0,
        true,
    )
}

/// NUM_CODE of an FP_CTRL word.
pub open spec fn num_code_of(word: u32) -> u32 {
    (field(word, 14, 12) << 4) | field(word, 7, 4)
}

/// Debug Halting Control and Status Register.
///
/// Bits 15:0 control the core; bits 31:16 report status when read and must
/// hold the debug key when written.
#[derive(Clone, Copy, Debug)]
pub struct Dhcsr(pub u32);

impl Dhcsr {
    /// Where the register is mapped.
    pub const ADDRESS: u32 = 0xE000_EDF0;

    /// The name of the register in the architecture manual.
    pub const NAME: &'static str = "DHCSR";

    /// S_RESET_ST: the core was reset since the last read. Reads bit 25.
    pub fn s_reset_st(&self) -> (r: bool)
        ensures
            r == bit(self.0, 25),
    {
        get_bit(self.0, 25)
    }

    /// S_RETIRE_ST: an instruction completed since the last read. Reads bit 24.
    pub fn s_retire_st(&self) -> (r: bool)
        ensures
            r == bit(self.0, 24),
    {
        get_bit(self.0, 24)
    }

    /// S_LOCKUP: the core is locked up. Reads bit 19.
    pub fn s_lockup(&self) -> (r: bool)
        ensures
            r == bit(self.0, 19),
    {
        get_bit(self.0, 19)
    }

    /// S_SLEEP: the core is sleeping. Reads bit 18.
    pub fn s_sleep(&self) -> (r: bool)
        ensures
            r == bit(self.0, 18),
    {
        get_bit(self.0, 18)
    }

    /// S_HALT: the core is halted. Reads bit 17.
    pub fn s_halt(&self) -> (r: bool)
        ensures
            r == bit(self.0, 17),
    {
        get_bit(self.0, 17)
    }

    /// S_REGRDY: the last core register transfer is complete. Reads bit 16.
    pub fn s_regrdy(&self) -> (r: bool)
        ensures
            r == bit(self.0, 16),
    {
        get_bit(self.0, 16)
    }

    /// C_SNAPSTALL: force entry to debug state past a stalled access. Reads bit 5.
    pub fn c_snapstall(&self) -> (r: bool)
        ensures
            r == bit(self.0, 5),
    {
        get_bit(self.0, 5)
    }

    /// C_SNAPSTALL: force entry to debug state past a stalled access. Writes bit 5 and keeps the rest.
    pub fn set_c_snapstall(&mut self, value: bool)
        ensures
            final(self).0 == with_bit(old(self).0, 5, value),
    {
        self.0 = set_bit(self.0, 5, value);
    }

    /// C_MASKINTS: mask interrupts while stepping or running in debug. Reads bit 3.
    pub fn c_maskings(&self) -> (r: bool)
        ensures
            r == bit(self.0, 3),
    {
        get_bit(self.0, 3)
    }

    /// C_MASKINTS: mask interrupts while stepping or running in debug. Writes bit 3 and keeps the rest.
    pub fn set_c_maskints(&mut self, value: bool)
        ensures
            final(self).0 == with_bit(old(self).0, 3, value),
    {
        self.0 = set_bit(self.0, 3, value);
    }

    /// C_STEP: single-step the core. Reads bit 2.
    pub fn c_step(&self) -> (r: bool)
        ensures
            r == bit(self.0, 2),
    {
        get_bit(self.0, 2)
    }

    /// C_STEP: single-step the core. Writes bit 2 and keeps the rest.
    pub fn set_c_step(&mut self, value: bool)
        ensures
            final(self).0 == with_bit(old(self).0, 2, value),
    {
        self.0 = set_bit(self.0, 2, value);
    }

    /// C_HALT: halt the core. Reads bit 1.
    pub fn c_halt(&self) -> (r: bool)
        ensures
            r == bit(self.0, 1),
    {
        get_bit(self.0, 1)
    }

    /// C_HALT: halt the core. Writes bit 1 and keeps the rest.
    pub fn set_c_halt(&mut self, value: bool)
        ensures
            final(self).0 == with_bit(old(self).0, 1, value),
    {
        self.0 = set_bit(self.0, 1, value);
    }

    /// C_DEBUGEN: enable halting debug. Reads bit 0.
    pub fn c_debugen(&self) -> (r: bool)
        ensures
            r == bit(self.0, 0),
    {
        get_bit(self.0, 0)
    }

    /// C_DEBUGEN: enable halting debug. Writes bit 0 and keeps the rest.
    pub fn set_c_debugen(&mut self, value: bool)
        ensures
            final(self).0 == with_bit(old(self).0, 0, value),
    {
        self.0 = set_bit(self.0, 0, value);
    }

    /// Puts the debug key into bits 31:16 and keeps bits 15:0. The core
    /// ignores a write to this register whose upper half is not the key.
    pub fn enable_write(&mut self)
        ensures
            final(self).0 == with_field(old(self).0, 31, 16, DHCSR_DEBUG_KEY),
            field(final(self).0, 31, 16) == DHCSR_DEBUG_KEY,
            field(final(self).0, 15, 0) == field(old(self).0, 15, 0),
    {
        let before: u32 = self.0;
        self.0 &= !(0xffffu32 << 16);
        self.0 |= 0xa05fu32 << 16;
        proof {
            lemma_key_in_upper_half(before, 0xa05f);
        }
    }
}

impl From<u32> for Dhcsr {
    fn from(value: u32) -> (r: Self) {
        Self(value)
    }
}

impl FromSpecImpl<u32> for Dhcsr {
    open spec fn obeys_from_spec() -> bool {
        true
    }

    open spec fn from_spec(value: u32) -> Self {
        Dhcsr(value)
    }
}

impl From<Dhcsr> for u32 {
    fn from(value: Dhcsr) -> (r: Self) {
        value.0
    }
}

impl FromSpecImpl<Dhcsr> for u32 {
    open spec fn obeys_from_spec() -> bool {
        true
    }

    open spec fn from_spec(value: Dhcsr) -> Self {
        value.0
    }
}

/// Debug Core Register Selector Register.
#[derive(Clone, Copy, Debug)]
pub struct Dcrsr(pub u32);

impl Dcrsr {
    /// Where the register is mapped.
    pub const ADDRESS: u32 = 0xE000_EDF4;

    /// The name of the register in the architecture manual.
    pub const NAME: &'static str = "DCRSR";

    /// REGWNR: the transfer is a write when set, a read when clear. Writes bit 16 and keeps the rest.
    pub fn set_regwnr(&mut self, value: bool)
        ensures
            final(self).0 == with_bit(old(self).0, 16, value),
    {
        self.0 = set_bit(self.0, 16, value);
    }

    /// REGSEL: which core register is transferred. Writes the low bits of `value` to bits 6:0 and keeps
    /// the rest.
    pub fn set_regsel(&mut self, value: u32)
        ensures
            final(self).0 == with_field(old(self).0, 6, 0, value),
    {
        self.0 = set_field(self.0, 6, 0, value);
    }
}

impl From<u32> for Dcrsr {
    fn from(value: u32) -> (r: Self) {
        Self(value)
    }
}

impl FromSpecImpl<u32> for Dcrsr {
    open spec fn obeys_from_spec() -> bool {
        true
    }

    open spec fn from_spec(value: u32) -> Self {
        Dcrsr(value)
    }
}

impl From<Dcrsr> for u32 {
    fn from(value: Dcrsr) -> (r: Self) {
        value.0
    }
}

impl FromSpecImpl<Dcrsr> for u32 {
    open spec fn obeys_from_spec() -> bool {
        true
    }

    open spec fn from_spec(value: Dcrsr) -> Self {
        value.0
    }
}

/// Debug Core Register Data Register: the word that a core register
/// transfer carries.
#[derive(Clone, Copy, Debug)]
pub struct Dcrdr(pub u32);

impl Dcrdr {
    /// Where the register is mapped.
    pub const ADDRESS: u32 = 0xE000_EDF8;

    /// The name of the register in the architecture manual.
    pub const NAME: &'static str = "DCRDR";
}

impl From<u32> for Dcrdr {
    fn from(value: u32) -> (r: Self) {
        Self(value)
    }
}

impl FromSpecImpl<u32> for Dcrdr {
    open spec fn obeys_from_spec() -> bool {
        true
    }

    open spec fn from_spec(value: u32) -> Self {
        Dcrdr(value)
    }
}

impl From<Dcrdr> for u32 {
    fn from(value: Dcrdr) -> (r: Self) {
        value.0
    }
}

impl FromSpecImpl<Dcrdr> for u32 {
    open spec fn obeys_from_spec() -> bool {
        true
    }

    open spec fn from_spec(value: Dcrdr) -> Self {
        value.0
    }
}

/// Application Interrupt and Reset Control Register.
#[derive(Clone, Copy, Debug)]
pub struct Aircr(pub u32);

impl Aircr {
    /// Where the register is mapped.
    pub const ADDRESS: u32 = 0xE000_ED0C;

    /// The name of the register in the architecture manual.
    pub const NAME: &'static str = "AIRCR";

    /// VECTKEY when written, VECTKEYSTAT when read. Reads bits 31:16.
    pub fn get_vectkeystat(&self) -> (r: u32)
        ensures
            r == field(self.0, 31, 16),
    {
        get_field(self.0, 31, 16)
    }

    /// VECTKEY when written, VECTKEYSTAT when read. Writes the low bits of `value` to bits 31:16 and keeps
    /// the rest.
    pub fn set_vectkey(&mut self, value: u32)
        ensures
            final(self).0 == with_field(old(self).0, 31, 16, value),
    {
        self.0 = set_field(self.0, 31, 16, value);
    }

    /// ENDIANNESS: the data endianness of the core. Reads bit 15.
    pub fn endianness(&self) -> (r: bool)
        ensures
            r == bit(self.0, 15),
    {
        get_bit(self.0, 15)
    }

    /// ENDIANNESS: the data endianness of the core. Writes bit 15 and keeps the rest.
    pub fn set_endianness(&mut self, value: bool)
        ensures
            final(self).0 == with_bit(old(self).0, 15, value),
    {
        self.0 = set_bit(self.0, 15, value);
    }

    /// PRIGROUP: how priorities split into group and subpriority. Reads bits 10:8.
    pub fn prigroup(&self) -> (r: u32)
        ensures
            r == field(self.0, 10, 8),
    {
        get_field(self.0, 10, 8)
    }

    /// PRIGROUP: how priorities split into group and subpriority. Writes the low bits of `value` to bits 10:8 and keeps
    /// the rest.
    pub fn set_prigroup(&mut self, value: u32)
        ensures
            final(self).0 == with_field(old(self).0, 10, 8, value),
    {
        self.0 = set_field(self.0, 10, 8, value);
    }

    /// SYSRESETREQ: request a system reset. Reads bit 2.
    pub fn sysresetreq(&self) -> (r: bool)
        ensures
            r == bit(self.0, 2),
    {
        get_bit(self.0, 2)
    }

    /// SYSRESETREQ: request a system reset. Writes bit 2 and keeps the rest.
    pub fn set_sysresetreq(&mut self, value: bool)
        ensures
            final(self).0 == with_bit(old(self).0, 2, value),
    {
        self.0 = set_bit(self.0, 2, value);
    }

    /// VECTCLRACTIVE: clear the state of all exceptions. Reads bit 1.
    pub fn vectclractive(&self) -> (r: bool)
        ensures
            r == bit(self.0, 1),
    {
        get_bit(self.0, 1)
    }

    /// VECTCLRACTIVE: clear the state of all exceptions. Writes bit 1 and keeps the rest.
    pub fn set_vectclractive(&mut self, value: bool)
        ensures
            final(self).0 == with_bit(old(self).0, 1, value),
    {
        self.0 = set_bit(self.0, 1, value);
    }

    /// VECTRESET: request a local reset. Reads bit 0.
    pub fn vectreset(&self) -> (r: bool)
        ensures
            r == bit(self.0, 0),
    {
        get_bit(self.0, 0)
    }

    /// VECTRESET: request a local reset. Writes bit 0 and keeps the rest.
    pub fn set_vectreset(&mut self, value: bool)
        ensures
            final(self).0 == with_bit(old(self).0, 0, value),
    {
        self.0 = set_bit(self.0, 0, value);
    }

    /// Puts the write key 0x05FA into bits 31:16 and keeps bits 15:0.
    pub fn vectkey(&mut self)
        ensures
            final(self).0 == with_field(old(self).0, 31, 16, AIRCR_VECTKEY),
            field(final(self).0, 31, 16) == AIRCR_VECTKEY,
            field(final(self).0, 15, 0) == field(old(self).0, 15, 0),
    {
        let before: u32 = self.0;
        self.set_vectkey(0x05FA);
        proof {
            lemma_key_in_upper_half(before, 0x05FA);
        }
    }

    /// Whether bits 31:16 hold 0xFA05, the value that the core returns there
    /// on a read.
    pub fn vectkeystat(&self) -> (r: bool)
        ensures
            r == (field(self.0, 31, 16) == AIRCR_VECTKEYSTAT),
    {
        self.get_vectkeystat() == 0xFA05
    }
}

impl From<u32> for Aircr {
    fn from(value: u32) -> (r: Self) {
        Self(value)
    }
}

impl FromSpecImpl<u32> for Aircr {
    open spec fn obeys_from_spec() -> bool {
        true
    }

    open spec fn from_spec(value: u32) -> Self {
        Aircr(value)
    }
}

impl From<Aircr> for u32 {
    fn from(value: Aircr) -> (r: Self) {
        value.0
    }
}

impl FromSpecImpl<Aircr> for u32 {
    open spec fn obeys_from_spec() -> bool {
        true
    }

    open spec fn from_spec(value: Aircr) -> Self {
        value.0
    }
}

/// Debug Exception and Monitor Control Register.
#[derive(Clone, Copy, Debug)]
pub struct Demcr(pub u32);

impl Demcr {
    /// Where the register is mapped.
    pub const ADDRESS: u32 = 0xE000_EDFC;

    /// The name of the register in the architecture manual.
    pub const NAME: &'static str = "DEMCR";

    /// TRCENA: global enable for the DWT and ITM features. Reads bit 24.
    pub fn trcena(&self) -> (r: bool)
        ensures
            r == bit(self.0, 24),
    {
        get_bit(self.0, 24)
    }

    /// TRCENA: global enable for the DWT and ITM features. Writes bit 24 and keeps the rest.
    pub fn set_trcena(&mut self, value: bool)
        ensures
            final(self).0 == with_bit(old(self).0, 24, value),
    {
        self.0 = set_bit(self.0, 24, value);
    }

    /// MON_REQ: the DebugMonitor semaphore bit. Reads bit 19.
    pub fn mon_req(&self) -> (r: bool)
        ensures
            r == bit(self.0, 19),
    {
        get_bit(self.0, 19)
    }

    /// MON_REQ: the DebugMonitor semaphore bit. Writes bit 19 and keeps the rest.
    pub fn set_mon_req(&mut self, value: bool)
        ensures
            final(self).0 == with_bit(old(self).0, 19, value),
    {
        self.0 = set_bit(self.0, 19, value);
    }

    /// MON_STEP: step the processor by a DebugMonitor exception. Reads bit 18.
    pub fn mon_step(&self) -> (r: bool)
        ensures
            r == bit(self.0, 18),
    {
        get_bit(self.0, 18)
    }

    /// MON_STEP: step the processor by a DebugMonitor exception. Writes bit 18 and keeps the rest.
    pub fn set_mon_step(&mut self, value: bool)
        ensures
            final(self).0 == with_bit(old(self).0, 18, value),
    {
        self.0 = set_bit(self.0, 18, value);
    }

    /// MON_PEND: the pending state of the DebugMonitor exception. Reads bit 17.
    pub fn mon_pend(&self) -> (r: bool)
        ensures
            r == bit(self.0, 17),
    {
        get_bit(self.0, 17)
    }

    /// MON_PEND: the pending state of the DebugMonitor exception. Writes bit 17 and keeps the rest.
    pub fn set_mon_pend(&mut self, value: bool)
        ensures
            final(self).0 == with_bit(old(self).0, 17, value),
    {
        self.0 = set_bit(self.0, 17, value);
    }

    /// MON_EN: enable the DebugMonitor exception. Reads bit 16.
    pub fn mon_en(&self) -> (r: bool)
        ensures
            r == bit(self.0, 16),
    {
        get_bit(self.0, 16)
    }

    /// MON_EN: enable the DebugMonitor exception. Writes bit 16 and keeps the rest.
    pub fn set_mon_en(&mut self, value: bool)
        ensures
            final(self).0 == with_bit(old(self).0, 16, value),
    {
        self.0 = set_bit(self.0, 16, value);
    }

    /// VC_HARDERR: halt on a HardFault exception. Reads bit 10.
    pub fn vc_harderr(&self) -> (r: bool)
        ensures
            r == bit(self.0, 10),
    {
        get_bit(self.0, 10)
    }

    /// VC_HARDERR: halt on a HardFault exception. Writes bit 10 and keeps the rest.
    pub fn set_vc_harderr(&mut self, value: bool)
        ensures
            final(self).0 == with_bit(old(self).0, 10, value),
    {
        self.0 = set_bit(self.0, 10, value);
    }

    /// VC_INTERR: halt on a fault during exception entry or return. Reads bit 9.
    pub fn vc_interr(&self) -> (r: bool)
        ensures
            r == bit(self.0, 9),
    {
        get_bit(self.0, 9)
    }

    /// VC_INTERR: halt on a fault during exception entry or return. Writes bit 9 and keeps the rest.
    pub fn set_vc_interr(&mut self, value: bool)
        ensures
            final(self).0 == with_bit(old(self).0, 9, value),
    {
        self.0 = set_bit(self.0, 9, value);
    }

    /// VC_BUSERR: halt on a BusFault exception. Reads bit 8.
    pub fn vc_buserr(&self) -> (r: bool)
        ensures
            r == bit(self.0, 8),
    {
        get_bit(self.0, 8)
    }

    /// VC_BUSERR: halt on a BusFault exception. Writes bit 8 and keeps the rest.
    pub fn set_vc_buserr(&mut self, value: bool)
        ensures
            final(self).0 == with_bit(old(self).0, 8, value),
    {
        self.0 = set_bit(self.0, 8, value);
    }

    /// VC_STATERR: halt on a UsageFault caused by a state error. Reads bit 7.
    pub fn vc_staterr(&self) -> (r: bool)
        ensures
            r == bit(self.0, 7),
    {
        get_bit(self.0, 7)
    }

    /// VC_STATERR: halt on a UsageFault caused by a state error. Writes bit 7 and keeps the rest.
    pub fn set_vc_staterr(&mut self, value: bool)
        ensures
            final(self).0 == with_bit(old(self).0, 7, value),
    {
        self.0 = set_bit(self.0, 7, value);
    }

    /// VC_CHKERR: halt on a UsageFault caused by a checking error. Reads bit 6.
    pub fn vc_chkerr(&self) -> (r: bool)
        ensures
            r == bit(self.0, 6),
    {
        get_bit(self.0, 6)
    }

    /// VC_CHKERR: halt on a UsageFault caused by a checking error. Writes bit 6 and keeps the rest.
    pub fn set_vc_chkerr(&mut self, value: bool)
        ensures
            final(self).0 == with_bit(old(self).0, 6, value),
    {
        self.0 = set_bit(self.0, 6, value);
    }

    /// VC_NOCPERR: halt on a UsageFault caused by a coprocessor access. Reads bit 5.
    pub fn vc_nocperr(&self) -> (r: bool)
        ensures
            r == bit(self.0, 5),
    {
        get_bit(self.0, 5)
    }

    /// VC_NOCPERR: halt on a UsageFault caused by a coprocessor access. Writes bit 5 and keeps the rest.
    pub fn set_vc_nocperr(&mut self, value: bool)
        ensures
            final(self).0 == with_bit(old(self).0, 5, value),
    {
        self.0 = set_bit(self.0, 5, value);
    }

    /// VC_MMERR: halt on a MemManage exception. Reads bit 4.
    pub fn vc_mmerr(&self) -> (r: bool)
        ensures
            r == bit(self.0, 4),
    {
        get_bit(self.0, 4)
    }

    /// VC_MMERR: halt on a MemManage exception. Writes bit 4 and keeps the rest.
    pub fn set_vc_mmerr(&mut self, value: bool)
        ensures
            final(self).0 == with_bit(old(self).0, 4, value),
    {
        self.0 = set_bit(self.0, 4, value);
    }

    /// VC_CORERESET: halt the core when it leaves reset. Reads bit 0.
    pub fn vc_corereset(&self) -> (r: bool)
        ensures
            r == bit(self.0, 0),
    {
        get_bit(self.0, 0)
    }

    /// VC_CORERESET: halt the core when it leaves reset. Writes bit 0 and keeps the rest.
    pub fn set_vc_corereset(&mut self, value: bool)
        ensures
            final(self).0 == with_bit(old(self).0, 0, value),
    {
        self.0 = set_bit(self.0, 0, value);
    }
}

impl From<u32> for Demcr {
    fn from(value: u32) -> (r: Self) {
        Self(value)
    }
}

impl FromSpecImpl<u32> for Demcr {
    open spec fn obeys_from_spec() -> bool {
        true
    }

    open spec fn from_spec(value: u32) -> Self {
        Demcr(value)
    }
}

impl From<Demcr> for u32 {
    fn from(value: Demcr) -> (r: Self) {
        value.0
    }
}

impl FromSpecImpl<Demcr> for u32 {
    open spec fn obeys_from_spec() -> bool {
        true
    }

    open spec fn from_spec(value: Demcr) -> Self {
        value.0
    }
}

/// Flash Patch Control Register.
#[derive(Clone, Copy, Debug)]
pub struct FpCtrl(pub u32);

impl FpCtrl {
    /// Where the register is mapped.
    pub const ADDRESS: u32 = 0xE000_2000;

    /// The name of the register in the architecture manual.
    pub const NAME: &'static str = "FP_CTRL";

    /// REV: the revision of the flash patch and breakpoint unit. Reads bits 31:28.
    pub fn rev(&self) -> (r: u32)
        ensures
            r == field(self.0, 31, 28),
    {
        get_field(self.0, 31, 28)
    }

    /// NUM_CODE[6:4]: the high bits of the number of code comparators. Reads bits 14:12.
    pub(crate) fn num_code_1(&self) -> (r: u32)
        ensures
            r == field(self.0, 14, 12),
    {
        get_field(self.0, 14, 12)
    }

    /// NUM_LIT: the number of literal comparators. Reads bits 11:8.
    pub fn num_lit(&self) -> (r: u32)
        ensures
            r == field(self.0, 11, 8),
    {
        get_field(self.0, 11, 8)
    }

    /// NUM_CODE[3:0]: the low bits of the number of code comparators. Reads bits 7:4.
    pub(crate) fn num_code_0(&self) -> (r: u32)
        ensures
            r == field(self.0, 7, 4),
    {
        get_field(self.0, 7, 4)
    }

    /// KEY: must be set for a write to take effect. Writes bit 1 and keeps the rest.
    pub fn set_key(&mut self, value: bool)
        ensures
            final(self).0 == with_bit(old(self).0, 1, value),
    {
        self.0 = set_bit(self.0, 1, value);
    }

    /// ENABLE: the unit is enabled. Reads bit 0.
    pub fn enable(&self) -> (r: bool)
        ensures
            r == bit(self.0, 0),
    {
        get_bit(self.0, 0)
    }

    /// ENABLE: the unit is enabled. Writes bit 0 and keeps the rest.
    pub fn set_enable(&mut self, value: bool)
        ensures
            final(self).0 == with_bit(old(self).0, 0, value),
    {
        self.0 = set_bit(self.0, 0, value);
    }

    /// NUM_CODE: the number of code comparators, that is of breakpoint units.
    /// Its bits 6:4 stand in bits 14:12 of the register, its bits 3:0 in bits
    /// 7:4.
    pub fn num_code(&self) -> (r: u32)
        ensures
            r == num_code_of(self.0),
            r == field(self.0, 14, 12) * 16 + field(self.0, 7, 4),
            r <= 127,
    {
        proof {
            lemma_num_code(self.0);
        }
        (self.num_code_1() << 4) | self.num_code_0()
    }
}

impl From<u32> for FpCtrl {
    fn from(value: u32) -> (r: Self) {
        Self(value)
    }
}

impl FromSpecImpl<u32> for FpCtrl {
    open spec fn obeys_from_spec() -> bool {
        true
    }

    open spec fn from_spec(value: u32) -> Self {
        FpCtrl(value)
    }
}

impl From<FpCtrl> for u32 {
    fn from(value: FpCtrl) -> (r: Self) {
        value.0
    }
}

impl FromSpecImpl<FpCtrl> for u32 {
    open spec fn obeys_from_spec() -> bool {
        true
    }

    open spec fn from_spec(value: FpCtrl) -> Self {
        value.0
    }
}

/// Flash Patch Comparator Register, one for each breakpoint unit.
#[derive(Clone, Copy, Debug)]
pub struct FpCompX(pub u32);

impl FpCompX {
    /// Where the register is mapped.
    pub const ADDRESS: u32 = 0xE000_2008;

    /// The name of the register in the architecture manual.
    pub const NAME: &'static str = "FP_COMP";

    /// REPLACE: which half-word of the compared word breaks. Reads bits 31:30.
    pub fn replace(&self) -> (r: u32)
        ensures
            r == field(self.0, 31, 30),
    {
        get_field(self.0, 31, 30)
    }

    /// REPLACE: which half-word of the compared word breaks. Writes the low bits of `value` to bits 31:30 and keeps
    /// the rest.
    pub fn set_replace(&mut self, value: u32)
        ensures
            final(self).0 == with_field(old(self).0, 31, 30, value),
    {
        self.0 = set_field(self.0, 31, 30, value);
    }

    /// COMP: bits 28:2 of the address to compare with. Reads bits 28:2.
    pub fn comp(&self) -> (r: u32)
        ensures
            r == field(self.0, 28, 2),
    {
        get_field(self.0, 28, 2)
    }

    /// COMP: bits 28:2 of the address to compare with. Writes the low bits of `value` to bits 28:2 and keeps
    /// the rest.
    pub fn set_comp(&mut self, value: u32)
        ensures
            final(self).0 == with_field(old(self).0, 28, 2, value),
    {
        self.0 = set_field(self.0, 28, 2, value);
    }

    /// ENABLE: the comparator is enabled. Reads bit 0.
    pub fn enable(&self) -> (r: bool)
        ensures
            r == bit(self.0, 0),
    {
        get_bit(self.0, 0)
    }

    /// ENABLE: the comparator is enabled. Writes bit 0 and keeps the rest.
    pub fn set_enable(&mut self, value: bool)
        ensures
            final(self).0 == with_bit(old(self).0, 0, value),
    {
        self.0 = set_bit(self.0, 0, value);
    }

    /// The comparator word that enables a breakpoint at `address`: COMP holds
    /// bits 28:2 of the address, REPLACE selects the lower half-word when the
    /// address is a multiple of four and the upper one otherwise, and ENABLE
    /// is set.
    pub fn breakpoint_configuration(address: u32) -> (reg: Self)
        ensures
            reg.0 == breakpoint_word(address),
            field(reg.0, 28, 2) == (address & 0x1fff_fffc) >> 2,
            field(reg.0, 31, 30) == replace_for(address),
            bit(reg.0, 0),
            reg.0 == (address & 0x1fff_fffc) | (replace_for(address) << 30) | 1,
    {
        let mut reg = FpCompX::from(0);

        let comp_val: u32 = (address & 0x1f_ff_ff_fc) >> 2;

        // the replace value decides whether the upper or the lower half-word
        // is matched
        let replace_val: u32 = if (address & 0x3) == 0 {
            0b01
        } else {
            0b10
        };

        reg.set_replace(replace_val);
        reg.set_comp(comp_val);
        reg.set_enable(true);
        proof {
            lemma_breakpoint_word(address);
        }

        reg
    }
}

impl From<u32> for FpCompX {
    fn from(value: u32) -> (r: Self) {
        Self(value)
    }
}

impl FromSpecImpl<u32> for FpCompX {
    open spec fn obeys_from_spec() -> bool {
        true
    }

    open spec fn from_spec(value: u32) -> Self {
        FpCompX(value)
    }
}

impl From<FpCompX> for u32 {
    fn from(value: FpCompX) -> (r: Self) {
        value.0
    }
}

impl FromSpecImpl<FpCompX> for u32 {
    open spec fn obeys_from_spec() -> bool {
        true
    }

    open spec fn from_spec(value: FpCompX) -> Self {
        value.0
    }
}

/// Writing a 16-bit key to bits 31:16 gives a word whose upper half is the
/// key and whose lower half is unchanged.
pub proof fn lemma_key_in_upper_half(word: u32, key: u32)
    requires
        key <= 0xffff,
    ensures
        with_field(word, 31, 16, key) == (word & !(0xffffu32 << 16)) | (key << 16),
        field(with_field(word, 31, 16, key), 31, 16) == key,
        field(with_field(word, 31, 16, key), 15, 0) == field(word, 15, 0),
{
    assert(((word & !((0xffff_ffffu32 >> 16u32) << 16u32)) | ((key & (0xffff_ffffu32 >> 16u32))
        << 16u32)) == (word & !(0xffffu32 << 16)) | (key << 16)) by (bit_vector)
        requires
            key <= 0xffff,
    ;
    assert((((word & !(0xffffu32 << 16)) | (key << 16)) >> 16u32) & (0xffff_ffffu32 >> 16u32)
        == key) by (bit_vector)
        requires
            key <= 0xffff,
    ;
    assert((((word & !(0xffffu32 << 16)) | (key << 16)) >> 0u32) & (0xffff_ffffu32 >> 16u32) == (
    word >> 0u32) & (0xffff_ffffu32 >> 16u32)) by (bit_vector)
        requires
            key <= 0xffff,
    ;
}

/// NUM_CODE is seven bits wide: sixteen times bits 14:12 plus bits 7:4.
pub proof fn lemma_num_code(word: u32)
    ensures
        num_code_of(word) == field(word, 14, 12) * 16 + field(word, 7, 4),
        num_code_of(word) <= 127,
{
    let high: u32 = field(word, 14, 12);
    let low: u32 = field(word, 7, 4);
    assert(high <= 7) by (bit_vector)
        requires
            high == (word >> 12u32) & (0xffff_ffffu32 >> 29u32),
    ;
    assert(low <= 15) by (bit_vector)
        requires
            low == (word >> 4u32) & (0xffff_ffffu32 >> 28u32),
    ;
    assert((high << 4) | low == high * 16 + low) by (bit_vector)
        requires
            high <= 7,
            low <= 15,
    ;
}

/// The comparator word in closed form, and its three fields.
pub proof fn lemma_breakpoint_word(address: u32)
    ensures
        breakpoint_word(address) == (address & 0x1fff_fffc) | (replace_for(address) << 30) | 1,
        field(breakpoint_word(address), 28, 2) == (address & 0x1fff_fffc) >> 2,
        field(breakpoint_word(address), 31, 30) == replace_for(address),
        bit(breakpoint_word(address), 0),
{
    let r: u32 = replace_for(address);
    let w: u32 = breakpoint_word(address);
    assert(w == ((((0u32 & !((0xffff_ffffu32 >> 30u32) << 30u32)) | ((r & (0xffff_ffffu32 >> 30u32))
        << 30u32)) & !((0xffff_ffffu32 >> 5u32) << 2u32)) | ((((address & 0x1fff_fffc) >> 2u32) & (
    0xffff_ffffu32 >> 5u32)) << 2u32)) | (1u32 << 0u32));
    assert(((((0u32 & !((0xffff_ffffu32 >> 30u32) << 30u32)) | ((r & (0xffff_ffffu32 >> 30u32))
        << 30u32)) & !((0xffff_ffffu32 >> 5u32) << 2u32)) | ((((address & 0x1fff_fffc) >> 2u32) & (
    0xffff_ffffu32 >> 5u32)) << 2u32)) | (1u32 << 0u32) == (address & 0x1fff_fffc) | (r << 30) | 1)
        by (bit_vector)
        requires
            r == 1 || r == 2,
    ;
    assert(((((address & 0x1fff_fffc) | (r << 30) | 1) >> 2u32) & (0xffff_ffffu32 >> 5u32)) == (
    address & 0x1fff_fffc) >> 2) by (bit_vector)
        requires
            r == 1 || r == 2,
    ;
    assert(((((address & 0x1fff_fffc) | (r << 30) | 1) >> 30u32) & (0xffff_ffffu32 >> 30u32)) == r)
        by (bit_vector)
        requires
            r == 1 || r == 2,
    ;
    assert(((((address & 0x1fff_fffc) | (r << 30) | 1) >> 0u32) & 1) == 1) by (bit_vector);
}

/// A register made from a word gives that word back: the conversions between
/// a register type and `u32` lose nothing, for every register.
pub proof fn lemma_word_round_trip(word: u32)
    ensures
        <u32 as FromSpec<Dhcsr>>::from_spec(<Dhcsr as FromSpec<u32>>::from_spec(word)) == word,
        <u32 as FromSpec<Dcrsr>>::from_spec(<Dcrsr as FromSpec<u32>>::from_spec(word)) == word,
        <u32 as FromSpec<Dcrdr>>::from_spec(<Dcrdr as FromSpec<u32>>::from_spec(word)) == word,
        <u32 as FromSpec<Aircr>>::from_spec(<Aircr as FromSpec<u32>>::from_spec(word)) == word,
        <u32 as FromSpec<Demcr>>::from_spec(<Demcr as FromSpec<u32>>::from_spec(word)) == word,
        <u32 as FromSpec<FpCtrl>>::from_spec(<FpCtrl as FromSpec<u32>>::from_spec(word)) == word,
        <u32 as FromSpec<FpCompX>>::from_spec(<FpCompX as FromSpec<u32>>::from_spec(word)) == word,
{
}

/// A word that carries the AIRCR write key does not pass for a read-back:
/// the key written (0x05FA) is not the status that a read returns (0xFA05).
pub proof fn lemma_vectkey_is_not_vectkeystat(word: u32)
    ensures
        field(with_field(word, 31, 16, AIRCR_VECTKEY), 31, 16) != AIRCR_VECTKEYSTAT,
{
    lemma_key_in_upper_half(word, AIRCR_VECTKEY);
}

} // verus!
