//! PCI enumeration: which functions of bus 0 to look at, and what their base address
//! registers say.
//!
//! Access to configuration space is left to the caller. The walk over the bus and the
//! probe of a register say which access comes next and take what was read.
use vstd::prelude::*;

verus! {

/// The ports of the configuration mechanism.
pub const CONFIG_ADDR: u16 = 0xCF8;

pub const CONFIG_DATA: u16 = 0xCFC;

/// The vendor of virtio devices.
pub const VIRTIO_VENDOR: u16 = 0x1AF4;

/// The class of mass storage.
pub const CLASS_STORAGE: u8 = 0x01;

/// The vendor that an empty slot reads as.
pub const NO_VENDOR: u16 = 0xFFFF;

/// Registers of a function.
pub const REG_ID: u8 = 0x00;

pub const REG_CLASS: u8 = 0x08;

pub const REG_HEADER: u8 = 0x0C;

pub const REG_BAR0: u8 = 0x10;

/// Slots on a bus, functions in a slot, base address registers of a function.
pub const SLOTS: u8 = 32;

pub const FUNCTIONS: u8 = 8;

pub const BARS: u8 = 6;

/// The address of a configuration word: the enable bit, then bus, slot, function and
/// the register, cut to a multiple of four.
pub open spec fn config_address(bus: u8, dev: u8, func: u8, off: u8) -> int {
    0x8000_0000 + bus * 0x1_0000 + dev * 0x800 + func * 0x100 + (off - off % 4)
}

/// The address of a configuration word.
pub fn cfg_addr(bus: u8, dev: u8, func: u8, off: u8) -> (r: u32)
    ensures
        r == 0x8000_0000 | ((bus as u32) << 16) | ((dev as u32) << 11) | ((func as u32) << 8) | ((
        off as u32) & 0xFC),
        dev < SLOTS && func < FUNCTIONS ==> r == config_address(bus, dev, func, off),
{
    assert(dev < 32 && func < 8 ==> 0x8000_0000u32 | ((bus as u32) << 16) | ((dev as u32) << 11) | ((
    func as u32) << 8) | ((off as u32) & 0xFC) == 0x8000_0000u32 + bus * 0x1_0000 + dev * 0x800
        + func * 0x100 + (off - off % 4)) by (bit_vector);
    0x8000_0000 | ((bus as u32) << 16) | ((dev as u32) << 11) | ((func as u32) << 8) | ((off as u32)
        & 0xFC)
}

/// A base address register. One of size 0 is not there.
#[derive(Clone, Copy, Debug, PartialEq, Eq, Structural)]
pub struct Bar {
    pub base: u64,
    pub size: u64,
    pub is_io: bool,
    pub is_64: bool,
}

/// One access to a configuration word of the function that is probed.
#[derive(Clone, Copy, Debug, PartialEq, Eq, Structural)]
pub enum CfgOp {
    Read(u8),
    Write(u8, u32),
}

/// How far a probe is.
#[derive(Clone, Copy, Debug, PartialEq, Eq, Structural)]
pub enum ProbeStage {
    ReadRaw,
    WriteOnes,
    ReadBack,
    Restore,
    ReadRawHigh,
    WriteOnesHigh,
    ReadBackHigh,
    RestoreHigh,
    Done,
}

/// The probe of a base address register: all ones are written, what comes back tells
/// the size, and the register is restored at once. A 64-bit register takes two words.
#[derive(Clone, Copy, Debug, PartialEq, Eq, Structural)]
pub struct BarProbe {
    pub off: u8,
    pub stage: ProbeStage,
    pub raw: u32,
    pub lo: u32,
    pub raw_high: u32,
    pub high: u32,
}

/// The register is in I/O space.
pub open spec fn raw_is_io(raw: u32) -> bool {
    raw & 0x1 != 0
}

/// The register is a memory register of two words.
pub open spec fn raw_is_64(raw: u32) -> bool {
    !raw_is_io(raw) && (raw >> 1) & 0x3 == 0x2
}

/// The two's complement of a 32-bit word.
pub open spec fn negated32(x: u32) -> u32 {
    if x == 0 {
        0
    } else {
        (0x1_0000_0000 - x) as u32
    }
}

/// The two's complement of a 64-bit word.
pub open spec fn negated64(x: u64) -> u64 {
    if x == 0 {
        0
    } else {
        (0x1_0000_0000_0000_0000 - x) as u64
    }
}

/// What a register's words say: `raw` and `raw_high` as they were, `lo` and `high` as they
/// read back. The size is the lowest address bit that can be set.
pub open spec fn bar_of(raw: u32, lo: u32, raw_high: u32, high: u32) -> Bar {
    if raw == 0 {
        Bar { base: 0, size: 0, is_io: false, is_64: false }
    } else if raw_is_io(raw) {
        Bar {
            base: (raw & 0xFFFF_FFFC) as u64,
            size: negated32(lo & 0xFFFF_FFFC) as u64,
            is_io: true,
            is_64: false,
        }
    } else if raw_is_64(raw) {
        Bar {
            base: ((raw & 0xFFFF_FFF0) + raw_high * 0x1_0000_0000) as u64,
            size: negated64(((lo & 0xFFFF_FFF0) + high * 0x1_0000_0000) as u64),
            is_io: false,
            is_64: true,
        }
    } else {
        Bar {
            base: (raw & 0xFFFF_FFF0) as u64,
            size: negated32(lo & 0xFFFF_FFF0) as u64,
            is_io: false,
            is_64: false,
        }
    }
}

/// Inverting and adding one negates.
proof fn lemma_negate(x: u32, y: u64)
    by (bit_vector)
    ensures
        (!x == 0xFFFF_FFFF) == (x == 0),
        x != 0 ==> !x + 1 == 0x1_0000_0000 - x,
        (!y == 0xFFFF_FFFF_FFFF_FFFF) == (y == 0),
        y != 0 ==> !y + 1 == 0x1_0000_0000_0000_0000 - y,
{
}

/// Joining two words adds the upper one at its weight.
proof fn lemma_join_words(lo: u32, hi: u32)
    by (bit_vector)
    ensures
        ((lo & 0xFFFF_FFF0) as u64) | ((hi as u64) << 32) == (lo & 0xFFFF_FFF0) + hi * 0x1_0000_0000,
{
}

impl BarProbe {
    /// The probe is of a register of a function.
    pub open spec fn wf(self) -> bool {
        &&& REG_BAR0 <= self.off <= REG_BAR0 + 20
        &&& match self.stage {
            ProbeStage::ReadRaw => true,
            ProbeStage::Done => true,
            ProbeStage::WriteOnes | ProbeStage::ReadBack | ProbeStage::Restore => self.raw != 0,
            _ => self.raw != 0 && raw_is_64(self.raw),
        }
    }

    /// The access that comes next.
    pub open spec fn next_op(self) -> Option<CfgOp> {
        match self.stage {
            ProbeStage::ReadRaw => Some(CfgOp::Read(self.off)),
            ProbeStage::WriteOnes => Some(CfgOp::Write(self.off, 0xFFFF_FFFF)),
            ProbeStage::ReadBack => Some(CfgOp::Read(self.off)),
            ProbeStage::Restore => Some(CfgOp::Write(self.off, self.raw)),
            ProbeStage::ReadRawHigh => Some(CfgOp::Read((self.off + 4) as u8)),
            ProbeStage::WriteOnesHigh => Some(CfgOp::Write((self.off + 4) as u8, 0xFFFF_FFFF)),
            ProbeStage::ReadBackHigh => Some(CfgOp::Read((self.off + 4) as u8)),
            ProbeStage::RestoreHigh => Some(CfgOp::Write((self.off + 4) as u8, self.raw_high)),
            ProbeStage::Done => None,
        }
    }

    /// The probe after the access, which read `value` if it was a read.
    pub open spec fn after(self, value: u32) -> BarProbe {
        match self.stage {
            ProbeStage::ReadRaw => BarProbe {
                raw: value,
                stage: if value == 0 {
                    ProbeStage::Done
                } else {
                    ProbeStage::WriteOnes
                },
                ..self
            },
            ProbeStage::WriteOnes => BarProbe { stage: ProbeStage::ReadBack, ..self },
            ProbeStage::ReadBack => BarProbe { lo: value, stage: ProbeStage::Restore, ..self },
            ProbeStage::Restore => BarProbe {
                stage: if raw_is_64(self.raw) {
                    ProbeStage::ReadRawHigh
                } else {
                    ProbeStage::Done
                },
                ..self
            },
            ProbeStage::ReadRawHigh => BarProbe {
                raw_high: value,
                stage: ProbeStage::WriteOnesHigh,
                ..self
            },
            ProbeStage::WriteOnesHigh => BarProbe { stage: ProbeStage::ReadBackHigh, ..self },
            ProbeStage::ReadBackHigh => BarProbe {
                high: value,
                stage: ProbeStage::RestoreHigh,
                ..self
            },
            ProbeStage::RestoreHigh => BarProbe { stage: ProbeStage::Done, ..self },
            ProbeStage::Done => self,
        }
    }

    /// The access that comes next, or `None` when the probe is done.
    pub fn op(&self) -> (r: Option<CfgOp>)
        requires
            self.wf(),
        ensures
            r == self.next_op(),
    {
        match self.stage {
            ProbeStage::ReadRaw => Some(CfgOp::Read(self.off)),
            ProbeStage::WriteOnes => Some(CfgOp::Write(self.off, 0xFFFF_FFFF)),
            ProbeStage::ReadBack => Some(CfgOp::Read(self.off)),
            ProbeStage::Restore => Some(CfgOp::Write(self.off, self.raw)),
            ProbeStage::ReadRawHigh => Some(CfgOp::Read(self.off + 4)),
            ProbeStage::WriteOnesHigh => Some(CfgOp::Write(self.off + 4, 0xFFFF_FFFF)),
            ProbeStage::ReadBackHigh => Some(CfgOp::Read(self.off + 4)),
            ProbeStage::RestoreHigh => Some(CfgOp::Write(self.off + 4, self.raw_high)),
            ProbeStage::Done => None,
        }
    }

    /// Takes the outcome of the access: what was read, or any value after a write.
    pub fn advance(&mut self, value: u32)
        requires
            old(self).wf(),
        ensures
            final(self).wf(),
            *final(self) == old(self).after(value),
    {
        match self.stage {
            ProbeStage::ReadRaw => {
                self.raw = value;
                self.stage = if value == 0 {
                    ProbeStage::Done
                } else {
                    ProbeStage::WriteOnes
                };
            },
            ProbeStage::WriteOnes => {
                self.stage = ProbeStage::ReadBack;
            },
            ProbeStage::ReadBack => {
                self.lo = value;
                self.stage = ProbeStage::Restore;
            },
            ProbeStage::Restore => {
                self.stage = if self.raw & 0x1 == 0 && (self.raw >> 1) & 0x3 == 0x2 {
                    ProbeStage::ReadRawHigh
                } else {
                    ProbeStage::Done
                };
            },
            ProbeStage::ReadRawHigh => {
                self.raw_high = value;
                self.stage = ProbeStage::WriteOnesHigh;
            },
            ProbeStage::WriteOnesHigh => {
                self.stage = ProbeStage::ReadBackHigh;
            },
            ProbeStage::ReadBackHigh => {
                self.high = value;
                self.stage = ProbeStage::RestoreHigh;
            },
            ProbeStage::RestoreHigh => {
                self.stage = ProbeStage::Done;
            },
            ProbeStage::Done => {},
        }
    }

    /// What the register says, once the probe is done.
    pub fn bar(&self) -> (r: Bar)
        requires
            self.stage == ProbeStage::Done,
        ensures
            r == bar_of(self.raw, self.lo, self.raw_high, self.high),
    {
        let raw: u32 = self.raw;
        if raw == 0 {
            return Bar { base: 0, size: 0, is_io: false, is_64: false };
        }
        if raw & 0x1 != 0 {
            let mask: u32 = self.lo & 0xFFFF_FFFC;
            proof {
                lemma_negate(mask, 0);
            }
            let size: u32 = (!mask).wrapping_add(1);
            return Bar {
                base: (raw & 0xFFFF_FFFC) as u64,
                size: size as u64,
                is_io: true,
                is_64: false,
            };
        }
        let is_64 = ((raw >> 1) & 0x3) == 0x2;
        if is_64 {
            let base: u64 = ((raw & 0xFFFF_FFF0) as u64) | ((self.raw_high as u64) << 32);
            let mask: u64 = ((self.lo & 0xFFFF_FFF0) as u64) | ((self.high as u64) << 32);
            proof {
                lemma_join_words(raw, self.raw_high);
                lemma_join_words(self.lo, self.high);
                lemma_negate(0, mask);
            }
            let size: u64 = (!mask).wrapping_add(1);
            Bar { base, size, is_io: false, is_64: true }
        } else {
            let mask: u32 = self.lo & 0xFFFF_FFF0;
            proof {
                lemma_negate(mask, 0);
            }
            let size: u32 = (!mask).wrapping_add(1);
            Bar { base: (raw & 0xFFFF_FFF0) as u64, size: size as u64, is_io: false, is_64: false }
        }
    }
}

/// Starts to probe base address register `i`.
pub fn bar_info(i: u8) -> (r: BarProbe)
    requires
        i < BARS,
    ensures
        r.wf(),
        r == (BarProbe {
            off: (REG_BAR0 + i * 4) as u8,
            stage: ProbeStage::ReadRaw,
            raw: 0,
            lo: 0,
            raw_high: 0,
            high: 0,
        }),
{
    BarProbe {
        off: REG_BAR0 + i * 4,
        stage: ProbeStage::ReadRaw,
        raw: 0,
        lo: 0,
        raw_high: 0,
        high: 0,
    }
}

/// The register to probe after register `i`: a 64-bit one has taken two.
pub fn next_bar(i: u8, bar: &Bar) -> (r: u8)
    requires
        i < BARS,
    ensures
        r == i + if bar.is_64 {
            2int
        } else {
            1
        },
{
    i + if bar.is_64 {
        2
    } else {
        1
    }
}

/// What is known of a function.
#[derive(Clone, Copy, Debug, PartialEq, Eq, Structural)]
pub struct PciFunction {
    pub dev: u8,
    pub func: u8,
    pub vendor: u16,
    pub device: u16,
    pub class: u8,
    pub subclass: u8,
    pub header: u8,
}

impl PciFunction {
    /// The function is a disk.
    pub open spec fn is_disk(self) -> bool {
        self.vendor == VIRTIO_VENDOR && self.class == CLASS_STORAGE
    }

    /// Whether the function has base address registers: only a general device has.
    pub fn has_bars(&self) -> (r: bool)
        ensures
            r == (self.header % 128 == 0),
    {
        proof {
            lemma_header_bits(self.header);
        }
        self.header & 0x7F == 0
    }

    /// Whether the function is a virtio disk.
    pub fn is_virtio_blk(&self) -> (r: bool)
        ensures
            r == self.is_disk(),
    {
        self.vendor == VIRTIO_VENDOR && self.class == CLASS_STORAGE
    }
}

/// Takes the identification, class and header words of a function apart.
pub fn describe(dev: u8, func: u8, id: u32, class_word: u32, header_word: u32) -> (r: PciFunction)
    ensures
        r == (PciFunction {
            dev,
            func,
            vendor: (id % 0x1_0000) as u16,
            device: (id / 0x1_0000) as u16,
            class: (class_word / 0x100_0000) as u8,
            subclass: (class_word / 0x1_0000 % 0x100) as u8,
            header: (header_word / 0x1_0000 % 0x100) as u8,
        }),
{
    proof {
        lemma_word_parts(id);
        lemma_word_parts(class_word);
        lemma_word_parts(header_word);
    }
    PciFunction {
        dev,
        func,
        vendor: (id & 0xFFFF) as u16,
        device: (id >> 16) as u16,
        class: ((class_word >> 24) & 0xFF) as u8,
        subclass: ((class_word >> 16) & 0xFF) as u8,
        header: ((header_word >> 16) & 0xFF) as u8,
    }
}

/// Shifting and masking a word takes it apart.
proof fn lemma_word_parts(w: u32)
    by (bit_vector)
    ensures
        w & 0xFFFF == w % 0x1_0000,
        w >> 16 == w / 0x1_0000,
        (w >> 24) & 0xFF == w / 0x100_0000,
        (w >> 16) & 0xFF == w / 0x1_0000 % 0x100,
{
}

/// The kind of a header, and the bit for a slot with several functions.
proof fn lemma_header_bits(h: u8)
    by (bit_vector)
    ensures
        (h & 0x7F == 0) == (h % 128 == 0),
        (h & 0x80 == 0) == (h < 0x80),
{
}

/// The place of a function on the bus.
#[derive(Clone, Copy, Debug, PartialEq, Eq, Structural)]
pub struct Scanner {
    pub dev: u8,
    pub func: u8,
}

/// The place after this one, in the same slot if `stay` is set and the slot has more
/// functions, else the first of the next slot.
pub open spec fn place_after(at: Scanner, stay: bool) -> Scanner {
    if stay && at.func + 1 < FUNCTIONS {
        Scanner { dev: at.dev, func: (at.func + 1) as u8 }
    } else {
        Scanner { dev: (at.dev + 1) as u8, func: 0 }
    }
}

/// Whether the walk stays in the slot: behind an absent function if it was not the
/// first, and behind a present one if it was not the first or the slot has several.
pub open spec fn stays(func: u8, present: bool, header: u8) -> bool {
    func != 0 || (present && header >= 0x80)
}

impl Scanner {
    pub open spec fn wf(self) -> bool {
        self.dev <= SLOTS && self.func < FUNCTIONS && (self.dev == SLOTS ==> self.func == 0)
    }

    /// The function to look at, as slot and number, or `None` when all were looked at.
    pub fn place(&self) -> (r: Option<(u8, u8)>)
        ensures
            r == if self.dev < SLOTS {
                Some((self.dev, self.func))
            } else {
                None
            },
    {
        if self.dev < SLOTS {
            Some((self.dev, self.func))
        } else {
            None
        }
    }

    /// Goes on to the next function, given whether there is a function here, by the
    /// identification word, and its header.
    pub fn advance(&mut self, id: u32, header: u8)
        requires
            old(self).wf(),
            old(self).dev < SLOTS,
        ensures
            final(self).wf(),
            *final(self) == place_after(
                *old(self),
                stays(old(self).func, id % 0x1_0000 != NO_VENDOR, header),
            ),
    {
        proof {
            lemma_word_parts(id);
            lemma_header_bits(header);
        }
        let vendor: u16 = (id & 0xFFFF) as u16;
        let stay = if vendor == NO_VENDOR {
            self.func != 0
        } else {
            !(self.func == 0 && (header & 0x80) == 0)
        };
        if stay && self.func + 1 < FUNCTIONS {
            self.func = self.func + 1;
        } else {
            self.dev = self.dev + 1;
            self.func = 0;
        }
    }
}

/// Starts to walk over bus 0.
pub fn scan() -> (r: Scanner)
    ensures
        r.wf(),
        r == (Scanner { dev: 0, func: 0 }),
{
    Scanner { dev: 0, func: 0 }
}

/// What a bus holds: which functions are there, and their headers.
pub struct Bus {
    pub present: Map<(int, int), bool>,
    pub header: Map<(int, int), u8>,
}

/// The place of the walk after `n` steps over this bus.
pub open spec fn place_at(bus: Bus, n: nat) -> Scanner
    decreases n,
{
    if n == 0 {
        Scanner { dev: 0, func: 0 }
    } else {
        let at = place_at(bus, (n - 1) as nat);
        if at.dev >= SLOTS {
            at
        } else {
            let key = (at.dev as int, at.func as int);
            place_after(at, stays(at.func, bus.present[key], bus.header[key]))
        }
    }
}

/// The function is to be looked at: it is the first of its slot, or the first is there
/// and says that the slot has several.
pub open spec fn to_visit(bus: Bus, dev: int, func: int) -> bool {
    func == 0 || (bus.present[(dev, 0int)] && bus.header[(dev, 0int)] >= 0x80)
}

/// The walk looks only at functions that are to be looked at.
pub proof fn law_scan_visits_only_what_may_be_there(bus: Bus, n: nat)
    ensures
        place_at(bus, n).wf(),
        place_at(bus, n).dev < SLOTS ==> to_visit(
            bus,
            place_at(bus, n).dev as int,
            place_at(bus, n).func as int,
        ),
    decreases n,
{
    if n > 0 {
        law_scan_visits_only_what_may_be_there(bus, (n - 1) as nat);
    }
}

/// The walk looks at every function that is to be looked at.
pub proof fn law_scan_visits_everything(bus: Bus, dev: int, func: int) -> (n: nat)
    requires
        0 <= dev < SLOTS,
        0 <= func < FUNCTIONS,
        to_visit(bus, dev, func),
    ensures
        place_at(bus, n) == (Scanner { dev: dev as u8, func: func as u8 }),
    decreases dev * 8 + func,
{
    if dev == 0 && func == 0 {
        0
    } else if func > 0 {
        let m = law_scan_visits_everything(bus, dev, func - 1);
        assert(place_at(bus, m + 1) == (Scanner { dev: dev as u8, func: func as u8 }));
        m + 1
    } else if to_visit(bus, dev - 1, 7) {
        let m = law_scan_visits_everything(bus, dev - 1, 7);
        assert(place_at(bus, m + 1) == (Scanner { dev: dev as u8, func: 0 }));
        m + 1
    } else {
        let m = law_scan_visits_everything(bus, dev - 1, 0);
        assert(place_at(bus, m + 1) == (Scanner { dev: dev as u8, func: 0 }));
        m + 1
    }
}

/// A probe leaves every word as it found it: when it is done, the last value written to
/// a word is the one that was read from it before anything was written.
pub proof fn law_probe_restores(off: u8, raw: u32, lo: u32, raw_high: u32, high: u32, any: u32)
    requires
        REG_BAR0 <= off <= REG_BAR0 + 20,
        raw != 0,
    ensures
        ({
            let p0 = BarProbe {
                off,
                stage: ProbeStage::ReadRaw,
                raw: 0,
                lo: 0,
                raw_high: 0,
                high: 0,
            };
            let p3 = p0.after(raw).after(any).after(lo);
            let p4 = p3.after(any);
            let p7 = p4.after(raw_high).after(any).after(high);
            let p8 = p7.after(any);
            &&& p3.next_op() == Some(CfgOp::Write(off, raw))
            &&& !raw_is_64(raw) ==> p4.stage == ProbeStage::Done && p4.next_op() is None
            &&& raw_is_64(raw) ==> p7.next_op() == Some(CfgOp::Write((off + 4) as u8, raw_high))
                && p8.stage == ProbeStage::Done
            &&& raw_is_64(raw) ==> p8.raw == raw && p8.lo == lo && p8.raw_high == raw_high
                && p8.high == high
        }),
{
}

/// The parts of a base address register, by arithmetic.
proof fn lemma_register_parts(x: u32)
    by (bit_vector)
    ensures
        x & 0x1 != 0 <==> x % 2 == 1,
        (x >> 1) & 0x3 == 0x2 <==> x / 2 % 4 == 2,
        x & 0xFFFF_FFFC == x - x % 4,
        x & 0xFFFF_FFF0 == x - x % 16,
{
}

/// The size of a register is found. A device lets the address bits of a register be set only
/// above its size, so that with all bits written the address that reads back is the size below
/// the end of the address range. From what reads back, the size is exactly that, for ports,
/// for memory registers of one word, and for those of two words; and the base is the address
/// that stood in the register before.
pub proof fn law_size_is_found(raw: u32, lo: u32, raw_high: u32, high: u32, size: int)
    requires
        raw != 0,
        0 < size,
    ensures
        ({
            let bar = bar_of(raw, lo, raw_high, high);
            let io = raw % 2 == 1;
            let wide = !io && raw / 2 % 4 == 2;
            &&& bar.is_io == io
            &&& bar.is_64 == wide
            &&& io ==> bar.base == raw - raw % 4
            &&& io && 0 < lo - lo % 4 == 0x1_0000_0000 - size ==> bar.size == size
            &&& !io && !wide ==> bar.base == raw - raw % 16
            &&& !io && !wide && 0 < lo - lo % 16 == 0x1_0000_0000 - size ==> bar.size == size
            &&& wide ==> bar.base == raw - raw % 16 + raw_high * 0x1_0000_0000
            &&& wide && 0 < lo - lo % 16 + high * 0x1_0000_0000 == 0x1_0000_0000_0000_0000 - size
                ==> bar.size == size
            &&& io && lo - lo % 4 == 0 ==> bar.size == 0
            &&& !io && !wide && lo - lo % 16 == 0 ==> bar.size == 0
            &&& wide && lo - lo % 16 == 0 && high == 0 ==> bar.size == 0
        }),
        bar_of(0, lo, raw_high, high).size == 0,
        bar_of(0, lo, raw_high, high).base == 0,
        !bar_of(0, lo, raw_high, high).is_io,
        !bar_of(0, lo, raw_high, high).is_64,
{
    lemma_register_parts(raw);
    lemma_register_parts(lo);
    assert(0 <= (raw & 0xFFFF_FFF0) + raw_high * 0x1_0000_0000 <= u64::MAX);
    assert(0 <= (lo & 0xFFFF_FFF0) + high * 0x1_0000_0000 <= u64::MAX);
}

/// How a register is probed: it is read, written with all bits set, read back and written as it
/// was; a register of two words has the same done to the word behind it; and a register that
/// reads as zero is left alone. What was read is what the register is judged by.
pub proof fn law_probe_goes_step_by_step(
    p: BarProbe,
    raw: u32,
    a: u32,
    lo: u32,
    b: u32,
    raw_high: u32,
    c: u32,
    high: u32,
    d: u32,
)
    requires
        p.wf(),
        p.stage == ProbeStage::ReadRaw,
    ensures
        ({
            let p1 = p.after(raw);
            let p2 = p1.after(a);
            let p3 = p2.after(lo);
            let p4 = p3.after(b);
            let p5 = p4.after(raw_high);
            let p6 = p5.after(c);
            let p7 = p6.after(high);
            let p8 = p7.after(d);
            let next = (p.off + 4) as u8;
            &&& p.next_op() == Some(CfgOp::Read(p.off))
            &&& raw == 0 ==> p1.next_op() is None && p1.stage == ProbeStage::Done && p1.raw == 0
            &&& raw != 0 ==> {
                &&& p1.next_op() == Some(CfgOp::Write(p.off, 0xffff_ffff))
                &&& p2.next_op() == Some(CfgOp::Read(p.off))
                &&& p3.next_op() == Some(CfgOp::Write(p.off, raw))
                &&& p4.raw == raw && p4.lo == lo
            }
            &&& raw != 0 && !(raw % 2 == 0 && raw / 2 % 4 == 2) ==> p4.next_op() is None && p4.stage
                == ProbeStage::Done
            &&& raw != 0 && raw % 2 == 0 && raw / 2 % 4 == 2 ==> {
                &&& p4.next_op() == Some(CfgOp::Read(next))
                &&& p5.next_op() == Some(CfgOp::Write(next, 0xffff_ffff))
                &&& p6.next_op() == Some(CfgOp::Read(next))
                &&& p7.next_op() == Some(CfgOp::Write(next, raw_high))
                &&& p8.next_op() is None && p8.stage == ProbeStage::Done
                &&& p8.raw == raw && p8.lo == lo && p8.raw_high == raw_high && p8.high == high
            }
        }),
{
    lemma_register_parts(raw);
}

/// How the walk goes on: behind the first function of a slot to the next function if the first
/// is there and its header says that there are several, and to the next slot otherwise; behind
/// any other function to the next, whether or not it is there; and behind the eighth to the
/// next slot.
pub proof fn law_walk_goes_function_by_function(at: Scanner, present: bool, header: u8)
    requires
        at.dev < 32,
        at.func < 8,
    ensures
        ({
            let next = place_after(at, stays(at.func, present, header));
            let several = at.func != 0 || present && header >= 128;
            &&& several && at.func < 7 ==> next.dev == at.dev && next.func == at.func + 1
            &&& !several || at.func == 7 ==> next.dev == at.dev + 1 && next.func == 0
        }),
        SLOTS == 32,
        FUNCTIONS == 8,
        BARS == 6,
        NO_VENDOR == 0xffff,
{
}

/// A disk is known by its vendor and its class, whatever the rest.
pub proof fn law_disk_is_known_by_vendor_and_class(f: PciFunction)
    ensures
        f.is_disk() <==> f.vendor == 0x1af4 && f.class == 1,
{
}

/// Words of a configuration space have addresses of their own, and all four bytes of a word
/// have the same: bus, slot, function and word can be read off the address.
pub proof fn law_words_have_addresses(bus: u8, dev: u8, func: u8, off: u8)
    requires
        dev < 32,
        func < 8,
    ensures
        0x8000_0000 <= config_address(bus, dev, func, off) < 0x8100_0000,
        config_address(bus, dev, func, off) % 4 == 0,
        config_address(bus, dev, func, off) % 256 == off - off % 4,
        config_address(bus, dev, func, off) / 256 % 8 == func,
        config_address(bus, dev, func, off) / 2048 % 32 == dev,
        config_address(bus, dev, func, off) / 65536 % 256 == bus,
{
    let a = config_address(bus, dev, func, off);
    let w = off - off % 4;
    let q = 0x80_0000 + bus * 256 + dev * 8 + func;
    let r = 0x10_0000 + bus * 32 + dev;
    let s = 0x8000 + bus;
    let t = 0x2000_0000 + bus * 0x4000 + dev * 0x200 + func * 0x40 + off / 4;
    vstd::arithmetic::div_mod::lemma_fundamental_div_mod_converse(a, 256, q, w);
    vstd::arithmetic::div_mod::lemma_fundamental_div_mod_converse(q, 8, r, func as int);
    vstd::arithmetic::div_mod::lemma_fundamental_div_mod_converse(a, 2048, r, func * 256 + w);
    vstd::arithmetic::div_mod::lemma_fundamental_div_mod_converse(r, 32, s, dev as int);
    vstd::arithmetic::div_mod::lemma_fundamental_div_mod_converse(a, 65536, s, dev * 2048 + func * 256 + w);
    vstd::arithmetic::div_mod::lemma_fundamental_div_mod_converse(s, 256, 0x80, bus as int);
    vstd::arithmetic::div_mod::lemma_fundamental_div_mod_converse(a, 4, t, 0);
}

/// Where a function is identified: the configuration space is reached through two ports, and
/// identification, class, header and the six base address registers stand at fixed places in
/// it.
pub proof fn law_places_in_configuration_space(i: u8)
    requires
        i < 6,
    ensures
        CONFIG_ADDR == 0xCF8,
        CONFIG_DATA == CONFIG_ADDR + 4,
        REG_ID == 0,
        REG_CLASS == 8,
        REG_HEADER == 12,
        REG_BAR0 + i * 4 == 16 + 4 * i,
{
}

} // verus!
