//! The virtio disk: how it is brought up, how a request is laid out in its queue, and
//! when a request is done.
//!
//! Access to the device and to the queue's memory is left to the caller. The functions
//! here say what to write and read, and take what was read. Every address that the
//! device is told is a physical one.
use crate::capspace::DeviceQueueDesc;
use vstd::prelude::*;

verus! {

/// Kinds of configuration window.
pub const VIRTIO_PCI_CAP_COMMON_CFG: u8 = 1;

pub const VIRTIO_PCI_CAP_NOTIFY_CFG: u8 = 2;

pub const VIRTIO_PCI_CAP_DEVICE_CFG: u8 = 4;

/// Where configuration space says where the list of capabilities starts.
pub const REG_CAPABILITIES: u16 = 0x34;

/// The capability id that describes a window.
pub const PCI_CAP_ID_VNDR: u8 = 0x09;

/// Capabilities that are looked at before the list is given up.
pub const MAX_CAPS: u32 = 48;

/// Fields of the common configuration window.
pub const CC_DEVICE_FEATURE_SELECT: u64 = 0x00;

pub const CC_DEVICE_FEATURE: u64 = 0x04;

pub const CC_DRIVER_FEATURE_SELECT: u64 = 0x08;

pub const CC_DRIVER_FEATURE: u64 = 0x0C;

pub const CC_DEVICE_STATUS: u64 = 0x14;

pub const CC_QUEUE_SELECT: u64 = 0x16;

pub const CC_QUEUE_SIZE: u64 = 0x18;

pub const CC_QUEUE_ENABLE: u64 = 0x1C;

pub const CC_QUEUE_NOTIFY_OFF: u64 = 0x1E;

pub const CC_QUEUE_DESC: u64 = 0x20;

pub const CC_QUEUE_DRIVER: u64 = 0x28;

pub const CC_QUEUE_DEVICE: u64 = 0x30;

/// Values of the device status as the driver takes the device over.
pub const STATUS_RESET: u8 = 0;

pub const STATUS_ACK: u8 = 1;

pub const STATUS_DRIVER: u8 = 3;

pub const STATUS_FEATURES_OK: u8 = 11;

pub const STATUS_DRIVER_OK: u8 = 15;

/// The bit of the device status that says that the features were accepted.
pub const S_FEATURES_OK: u8 = 8;

/// The bit, in the upper feature word, that a modern device offers.
pub const VIRTIO_F_VERSION_1_HI: u32 = 1;

/// The bit, in the lower feature word, of a device with a cache that can be flushed.
pub const VIRTIO_BLK_F_FLUSH_BIT: u32 = 0x200;

/// Descriptor flags: another one follows, and the device writes the buffer.
pub const VIRTQ_DESC_F_NEXT: u16 = 1;

pub const VIRTQ_DESC_F_WRITE: u16 = 2;

/// Kinds of request: read, write and flush.
pub const VIRTIO_BLK_T_IN: u32 = 0;

pub const VIRTIO_BLK_T_OUT: u32 = 1;

pub const VIRTIO_BLK_T_FLUSH: u32 = 4;

/// Bytes in a sector.
pub const SECTOR: u32 = 512;

/// The largest queue that is asked for.
pub const QSIZE: u16 = 128;

/// How often the device is asked before it is given up.
pub const POLL_LIMIT: u64 = 50_000_000;

/// The sector for the round trip at boot, far from the store.
pub const SMOKE_LBA: u64 = 32_760;

/// The windows of the device: where they are mapped, and where the notification window
/// is in physical memory.
#[derive(Clone, Copy, Debug, PartialEq, Eq, Structural)]
pub struct Windows {
    pub common: u64,
    pub notify_base: u64,
    pub notify_phys: u64,
    pub notify_mul: u32,
    pub device_cfg: u64,
}

/// The walk over the device's capability list. The list is followed for a bounded
/// number of steps, so that one that goes round in circles does no harm.
#[derive(Clone, Copy, Debug, PartialEq, Eq, Structural)]
pub struct CapWalk {
    pub cap: u16,
    pub steps: u32,
    pub windows: Windows,
}

/// A capability pointer without its two lowest bits.
pub open spec fn cap_pointer(p: u8) -> u16 {
    (p - p % 4) as u16
}

/// Masking cuts the two lowest bits.
proof fn lemma_cap_pointer(p: u8)
    by (bit_vector)
    ensures
        p & 0xFC == p - p % 4,
{
}

/// No window was found yet.
pub open spec fn no_windows() -> Windows {
    Windows { common: 0, notify_base: 0, notify_phys: 0, notify_mul: 0, device_cfg: 0 }
}

impl CapWalk {
    /// There is a capability to look at.
    pub open spec fn goes_on(self) -> bool {
        self.cap != 0 && self.steps < MAX_CAPS
    }

    /// The walk with a window that the capability describes.
    pub open spec fn noted(self, cfg_type: u8, va: u64, phys: u64, mul: u32) -> CapWalk {
        CapWalk {
            windows: if cfg_type == VIRTIO_PCI_CAP_COMMON_CFG {
                Windows { common: va, ..self.windows }
            } else if cfg_type == VIRTIO_PCI_CAP_NOTIFY_CFG {
                Windows { notify_base: va, notify_phys: phys, notify_mul: mul, ..self.windows }
            } else if cfg_type == VIRTIO_PCI_CAP_DEVICE_CFG {
                Windows { device_cfg: va, ..self.windows }
            } else {
                self.windows
            },
            ..self
        }
    }

    /// The walk at the next capability.
    pub open spec fn moved(self, next: u8) -> CapWalk {
        CapWalk { cap: cap_pointer(next), steps: (self.steps + 1) as u32, ..self }
    }

    /// The windows that are needed were found.
    pub open spec fn complete(self) -> bool {
        self.windows.common != 0 && self.windows.notify_base != 0
    }

    /// Starts at the pointer that the device gives.
    pub fn start(pointer: u8) -> (r: CapWalk)
        ensures
            r == (CapWalk { cap: cap_pointer(pointer), steps: 0, windows: no_windows() }),
    {
        proof {
            lemma_cap_pointer(pointer);
        }
        CapWalk {
            cap: (pointer & 0xFC) as u16,
            steps: 0,
            windows: Windows {
                common: 0,
                notify_base: 0,
                notify_phys: 0,
                notify_mul: 0,
                device_cfg: 0,
            },
        }
    }

    /// The capability to look at, or `None` at the end of the list.
    pub fn at(&self) -> (r: Option<u16>)
        ensures
            r == if self.goes_on() {
                Some(self.cap)
            } else {
                None
            },
    {
        if self.cap != 0 && self.steps < MAX_CAPS {
            Some(self.cap)
        } else {
            None
        }
    }

    /// Takes a window that the capability describes. `mul` counts for the notification
    /// window only; kinds that are not needed are passed over.
    pub fn note_window(&mut self, cfg_type: u8, va: u64, phys: u64, mul: u32)
        ensures
            *final(self) == old(self).noted(cfg_type, va, phys, mul),
    {
        if cfg_type == VIRTIO_PCI_CAP_COMMON_CFG {
            self.windows.common = va;
        } else if cfg_type == VIRTIO_PCI_CAP_NOTIFY_CFG {
            self.windows.notify_base = va;
            self.windows.notify_phys = phys;
            self.windows.notify_mul = mul;
        } else if cfg_type == VIRTIO_PCI_CAP_DEVICE_CFG {
            self.windows.device_cfg = va;
        }
    }

    /// Goes on to the next capability.
    pub fn advance(&mut self, next: u8)
        requires
            old(self).steps < MAX_CAPS,
        ensures
            *final(self) == old(self).moved(next),
    {
        proof {
            lemma_cap_pointer(next);
        }
        self.cap = (next & 0xFC) as u16;
        self.steps = self.steps + 1;
    }

    /// The windows, if those that are needed were found.
    pub fn finish(&self) -> (r: Option<Windows>)
        ensures
            r == if self.complete() {
                Some(self.windows)
            } else {
                None
            },
    {
        if self.windows.common == 0 || self.windows.notify_base == 0 {
            None
        } else {
            Some(self.windows)
        }
    }
}

/// Why the device could not be brought up.
#[derive(Clone, Copy, Debug, PartialEq, Eq, Structural)]
pub enum InitFailure {
    NoDevice,
    NotMapped,
    NoWindows,
    ResetTimeout,
    NotModern,
    FeaturesRejected,
    NoQueue,
    NoMemory,
}

/// How far the device is.
#[derive(Clone, Copy, Debug, PartialEq, Eq, Structural)]
pub enum InitStage {
    EnableMaster,
    FirstCap,
    CapId,
    CapNext,
    CapKind,
    CapBar,
    CapOffset,
    CapLength,
    WindowBase,
    MapWindow,
    NotifyMul,
    Reset,
    AwaitReset,
    Acknowledge,
    Driver,
    SelectLow,
    ReadLow,
    SelectHigh,
    ReadHigh,
    SelectDriverLow,
    WriteDriverLow,
    SelectDriverHigh,
    WriteDriverHigh,
    OfferFeatures,
    ConfirmFeatures,
    SelectQueue,
    ReadQueueSize,
    WriteQueueSize,
    DescFrame,
    AvailFrame,
    UsedFrame,
    BufferFrame,
    WriteDesc,
    WriteAvail,
    WriteUsed,
    ReadNotifyOff,
    EnableQueue,
    DriverOk,
    Ready,
    Failed(InitFailure),
}

/// What to do next. Offsets of `CfgRead` are into the device's configuration space, the
/// others into the common configuration window.
#[derive(Clone, Copy, Debug, PartialEq, Eq, Structural)]
pub enum InitOp {
    /// Let the device access memory.
    EnableBusMaster,
    CfgRead8(u16),
    CfgRead32(u16),
    /// Find out where this base address register points.
    BarBase(u8),
    /// Map this range of physical memory for device access.
    MapRange(u64, u64),
    Read8(u64),
    Read16(u64),
    Read32(u64),
    Write8(u64, u8),
    Write16(u64, u16),
    Write32(u64, u32),
    Write64(u64, u64),
    /// Take a frame and clear it.
    TakeFrame,
    Ready,
    Failed(InitFailure),
}

/// What came of it: what was read, which frame was taken, where a register points or a
/// range was mapped. A write tells nothing.
#[derive(Clone, Copy, Debug, PartialEq, Eq, Structural)]
pub enum InitEvent {
    Wrote,
    Read(u32),
    Frame(u64),
    NoFrame,
    Address(u64),
    NotMapped,
}

/// A capability of the device, as far as it was read, and where its window is.
#[derive(Clone, Copy, Debug, PartialEq, Eq, Structural)]
pub struct CapRecord {
    pub id: u8,
    pub next: u8,
    pub kind: u8,
    pub bar: u8,
    pub offset: u32,
    pub length: u32,
    pub phys: u64,
    pub va: u64,
}

/// The device as it is brought up.
#[derive(Clone, Copy, Debug, PartialEq, Eq, Structural)]
pub struct DeviceInit {
    pub stage: InitStage,
    pub dev: u8,
    pub func: u8,
    pub walk: CapWalk,
    pub record: CapRecord,
    pub polls: u64,
    pub driver_low: u32,
    pub qsize: u16,
    pub notify_off: u16,
    pub desc_phys: u64,
    pub avail_phys: u64,
    pub used_phys: u64,
    pub buf_phys: u64,
}

/// The features that the driver accepts of those offered in the lower word.
pub open spec fn accepted_low(offered: u32) -> u32 {
    offered & VIRTIO_BLK_F_FLUSH_BIT
}

/// The queue size for a device that allows up to `max`.
pub open spec fn queue_size(max: u16) -> u16 {
    if max < QSIZE {
        max
    } else {
        QSIZE
    }
}

/// The value of a read, or 0.
pub open spec fn read_value(ev: InitEvent) -> u32 {
    match ev {
        InitEvent::Read(v) => v,
        _ => 0,
    }
}

/// The address that came back, or 0.
pub open spec fn address_value(ev: InitEvent) -> u64 {
    match ev {
        InitEvent::Address(a) => a,
        _ => 0,
    }
}

/// The stage in which a walk goes on: at the next capability, or, at the end of the list,
/// with the reset if the windows were found.
pub open spec fn walk_stage(w: CapWalk) -> InitStage {
    if w.goes_on() {
        InitStage::CapId
    } else if w.complete() {
        InitStage::Reset
    } else {
        InitStage::Failed(InitFailure::NoWindows)
    }
}

/// Nothing of a capability was read.
pub open spec fn no_record() -> CapRecord {
    CapRecord { id: 0, next: 0, kind: 0, bar: 0, offset: 0, length: 0, phys: 0, va: 0 }
}

/// The device at the start: at slot and function `found`, if there is one.
pub open spec fn started(found: Option<(u8, u8)>) -> DeviceInit {
    DeviceInit {
        stage: match found {
            Some(_) => InitStage::EnableMaster,
            None => InitStage::Failed(InitFailure::NoDevice),
        },
        dev: match found {
            Some(at) => at.0,
            None => 0,
        },
        func: match found {
            Some(at) => at.1,
            None => 0,
        },
        walk: CapWalk { cap: 0, steps: 0, windows: no_windows() },
        record: no_record(),
        polls: 0,
        driver_low: 0,
        qsize: 0,
        notify_off: 0,
        desc_phys: 0,
        avail_phys: 0,
        used_phys: 0,
        buf_phys: 0,
    }
}

/// The stage after a frame was taken, or was not.
pub open spec fn frame_stage(ev: InitEvent, next: InitStage) -> InitStage {
    if ev is Frame {
        next
    } else {
        InitStage::Failed(InitFailure::NoMemory)
    }
}

/// The address of the frame that was taken, or 0.
pub open spec fn frame_address(ev: InitEvent) -> u64 {
    match ev {
        InitEvent::Frame(f) => (f * 4096) as u64,
        _ => 0,
    }
}

impl DeviceInit {
    /// A capability is being read.
    pub open spec fn reads_cap(self) -> bool {
        match self.stage {
            InitStage::CapId | InitStage::CapNext | InitStage::CapKind | InitStage::CapBar
            | InitStage::CapOffset | InitStage::CapLength | InitStage::WindowBase
            | InitStage::MapWindow | InitStage::NotifyMul => true,
            _ => false,
        }
    }

    /// While a capability is read, it is one in configuration space, and the walk has not
    /// taken all of its steps.
    pub open spec fn wf(self) -> bool {
        self.reads_cap() ==> self.walk.goes_on() && self.walk.cap <= 0xFC
    }

    /// An outcome that can be taken: a frame has an address, and so has a window.
    pub open spec fn accepts(self, ev: InitEvent) -> bool {
        &&& ev matches InitEvent::Frame(f) ==> crate::memory::addressable(f as int)
        &&& self.stage == InitStage::WindowBase ==> address_value(ev) + self.record.offset
            <= u64::MAX
    }

    /// The device with the walk gone on from the capability that was read.
    pub open spec fn past_cap(self, w: CapWalk, record: CapRecord) -> DeviceInit {
        let on = w.moved(record.next);
        DeviceInit { stage: walk_stage(on), walk: on, record, ..self }
    }

    /// What to do next.
    pub open spec fn next_op(self) -> InitOp {
        match self.stage {
            InitStage::EnableMaster => InitOp::EnableBusMaster,
            InitStage::FirstCap => InitOp::CfgRead8(REG_CAPABILITIES),
            InitStage::CapId => InitOp::CfgRead8(self.walk.cap),
            InitStage::CapNext => InitOp::CfgRead8((self.walk.cap + 1) as u16),
            InitStage::CapKind => InitOp::CfgRead8((self.walk.cap + 3) as u16),
            InitStage::CapBar => InitOp::CfgRead8((self.walk.cap + 4) as u16),
            InitStage::CapOffset => InitOp::CfgRead32((self.walk.cap + 8) as u16),
            InitStage::CapLength => InitOp::CfgRead32((self.walk.cap + 12) as u16),
            InitStage::WindowBase => InitOp::BarBase(self.record.bar),
            InitStage::MapWindow => InitOp::MapRange(
                self.record.phys,
                self.record.length as u64,
            ),
            InitStage::NotifyMul => InitOp::CfgRead32((self.walk.cap + 16) as u16),
            InitStage::Reset => InitOp::Write8(CC_DEVICE_STATUS, STATUS_RESET),
            InitStage::AwaitReset => InitOp::Read8(CC_DEVICE_STATUS),
            InitStage::Acknowledge => InitOp::Write8(CC_DEVICE_STATUS, STATUS_ACK),
            InitStage::Driver => InitOp::Write8(CC_DEVICE_STATUS, STATUS_DRIVER),
            InitStage::SelectLow => InitOp::Write32(CC_DEVICE_FEATURE_SELECT, 0),
            InitStage::ReadLow => InitOp::Read32(CC_DEVICE_FEATURE),
            InitStage::SelectHigh => InitOp::Write32(CC_DEVICE_FEATURE_SELECT, 1),
            InitStage::ReadHigh => InitOp::Read32(CC_DEVICE_FEATURE),
            InitStage::SelectDriverLow => InitOp::Write32(CC_DRIVER_FEATURE_SELECT, 0),
            InitStage::WriteDriverLow => InitOp::Write32(CC_DRIVER_FEATURE, self.driver_low),
            InitStage::SelectDriverHigh => InitOp::Write32(CC_DRIVER_FEATURE_SELECT, 1),
            InitStage::WriteDriverHigh => InitOp::Write32(
                CC_DRIVER_FEATURE,
                VIRTIO_F_VERSION_1_HI,
            ),
            InitStage::OfferFeatures => InitOp::Write8(CC_DEVICE_STATUS, STATUS_FEATURES_OK),
            InitStage::ConfirmFeatures => InitOp::Read8(CC_DEVICE_STATUS),
            InitStage::SelectQueue => InitOp::Write16(CC_QUEUE_SELECT, 0),
            InitStage::ReadQueueSize => InitOp::Read16(CC_QUEUE_SIZE),
            InitStage::WriteQueueSize => InitOp::Write16(CC_QUEUE_SIZE, self.qsize),
            InitStage::DescFrame => InitOp::TakeFrame,
            InitStage::AvailFrame => InitOp::TakeFrame,
            InitStage::UsedFrame => InitOp::TakeFrame,
            InitStage::BufferFrame => InitOp::TakeFrame,
            InitStage::WriteDesc => InitOp::Write64(CC_QUEUE_DESC, self.desc_phys),
            InitStage::WriteAvail => InitOp::Write64(CC_QUEUE_DRIVER, self.avail_phys),
            InitStage::WriteUsed => InitOp::Write64(CC_QUEUE_DEVICE, self.used_phys),
            InitStage::ReadNotifyOff => InitOp::Read16(CC_QUEUE_NOTIFY_OFF),
            InitStage::EnableQueue => InitOp::Write16(CC_QUEUE_ENABLE, 1),
            InitStage::DriverOk => InitOp::Write8(CC_DEVICE_STATUS, STATUS_DRIVER_OK),
            InitStage::Ready => InitOp::Ready,
            InitStage::Failed(f) => InitOp::Failed(f),
        }
    }

    /// The device after what came of it.
    pub open spec fn after(self, ev: InitEvent) -> DeviceInit {
        let v = read_value(ev);
        let byte = (v % 0x100) as u8;
        let rec = self.record;
        match self.stage {
            InitStage::EnableMaster => DeviceInit { stage: InitStage::FirstCap, ..self },
            InitStage::FirstCap => {
                let walk = CapWalk { cap: cap_pointer(byte), steps: 0, windows: no_windows() };
                DeviceInit { stage: walk_stage(walk), walk, ..self }
            },
            InitStage::CapId => DeviceInit {
                stage: InitStage::CapNext,
                record: CapRecord { id: byte, ..rec },
                ..self
            },
            InitStage::CapNext => {
                let record = CapRecord { next: byte, ..rec };
                if rec.id == PCI_CAP_ID_VNDR {
                    DeviceInit { stage: InitStage::CapKind, record, ..self }
                } else {
                    self.past_cap(self.walk, record)
                }
            },
            InitStage::CapKind => DeviceInit {
                stage: InitStage::CapBar,
                record: CapRecord { kind: byte, ..rec },
                ..self
            },
            InitStage::CapBar => DeviceInit {
                stage: InitStage::CapOffset,
                record: CapRecord { bar: byte, ..rec },
                ..self
            },
            InitStage::CapOffset => DeviceInit {
                stage: InitStage::CapLength,
                record: CapRecord { offset: v, ..rec },
                ..self
            },
            InitStage::CapLength => DeviceInit {
                stage: InitStage::WindowBase,
                record: CapRecord { length: v, ..rec },
                ..self
            },
            InitStage::WindowBase => DeviceInit {
                stage: InitStage::MapWindow,
                record: CapRecord { phys: (address_value(ev) + rec.offset) as u64, ..rec },
                ..self
            },
            InitStage::MapWindow => {
                let record = CapRecord { va: address_value(ev), ..rec };
                if !(ev is Address) {
                    DeviceInit { stage: InitStage::Failed(InitFailure::NotMapped), ..self }
                } else if rec.kind == VIRTIO_PCI_CAP_NOTIFY_CFG {
                    DeviceInit { stage: InitStage::NotifyMul, record, ..self }
                } else {
                    self.past_cap(self.walk.noted(rec.kind, record.va, rec.phys, 0), record)
                }
            },
            InitStage::NotifyMul => self.past_cap(
                self.walk.noted(rec.kind, rec.va, rec.phys, v),
                rec,
            ),
            InitStage::Reset => DeviceInit { stage: InitStage::AwaitReset, ..self },
            InitStage::AwaitReset => if v == 0 {
                DeviceInit { stage: InitStage::Acknowledge, ..self }
            } else if self.polls >= POLL_LIMIT {
                DeviceInit { stage: InitStage::Failed(InitFailure::ResetTimeout), ..self }
            } else {
                DeviceInit { polls: (self.polls + 1) as u64, ..self }
            },
            InitStage::Acknowledge => DeviceInit { stage: InitStage::Driver, ..self },
            InitStage::Driver => DeviceInit { stage: InitStage::SelectLow, ..self },
            InitStage::SelectLow => DeviceInit { stage: InitStage::ReadLow, ..self },
            InitStage::ReadLow => DeviceInit {
                stage: InitStage::SelectHigh,
                driver_low: accepted_low(v),
                ..self
            },
            InitStage::SelectHigh => DeviceInit { stage: InitStage::ReadHigh, ..self },
            InitStage::ReadHigh => if v % 2 == 0 {
                DeviceInit { stage: InitStage::Failed(InitFailure::NotModern), ..self }
            } else {
                DeviceInit { stage: InitStage::SelectDriverLow, ..self }
            },
            InitStage::SelectDriverLow => DeviceInit { stage: InitStage::WriteDriverLow, ..self },
            InitStage::WriteDriverLow => DeviceInit { stage: InitStage::SelectDriverHigh, ..self },
            InitStage::SelectDriverHigh => DeviceInit { stage: InitStage::WriteDriverHigh, ..self },
            InitStage::WriteDriverHigh => DeviceInit { stage: InitStage::OfferFeatures, ..self },
            InitStage::OfferFeatures => DeviceInit { stage: InitStage::ConfirmFeatures, ..self },
            InitStage::ConfirmFeatures => if v / 8 % 2 == 0 {
                DeviceInit { stage: InitStage::Failed(InitFailure::FeaturesRejected), ..self }
            } else {
                DeviceInit { stage: InitStage::SelectQueue, ..self }
            },
            InitStage::SelectQueue => DeviceInit { stage: InitStage::ReadQueueSize, ..self },
            InitStage::ReadQueueSize => if v % 0x1_0000 == 0 {
                DeviceInit { stage: InitStage::Failed(InitFailure::NoQueue), ..self }
            } else {
                DeviceInit {
                    stage: InitStage::WriteQueueSize,
                    qsize: queue_size((v % 0x1_0000) as u16),
                    ..self
                }
            },
            InitStage::WriteQueueSize => DeviceInit { stage: InitStage::DescFrame, ..self },
            InitStage::DescFrame => DeviceInit {
                stage: frame_stage(ev, InitStage::AvailFrame),
                desc_phys: frame_address(ev),
                ..self
            },
            InitStage::AvailFrame => DeviceInit {
                stage: frame_stage(ev, InitStage::UsedFrame),
                avail_phys: frame_address(ev),
                ..self
            },
            InitStage::UsedFrame => DeviceInit {
                stage: frame_stage(ev, InitStage::BufferFrame),
                used_phys: frame_address(ev),
                ..self
            },
            InitStage::BufferFrame => DeviceInit {
                stage: frame_stage(ev, InitStage::WriteDesc),
                buf_phys: frame_address(ev),
                ..self
            },
            InitStage::WriteDesc => DeviceInit { stage: InitStage::WriteAvail, ..self },
            InitStage::WriteAvail => DeviceInit { stage: InitStage::WriteUsed, ..self },
            InitStage::WriteUsed => DeviceInit { stage: InitStage::ReadNotifyOff, ..self },
            InitStage::ReadNotifyOff => DeviceInit {
                stage: InitStage::EnableQueue,
                notify_off: (v % 0x1_0000) as u16,
                ..self
            },
            InitStage::EnableQueue => DeviceInit { stage: InitStage::DriverOk, ..self },
            InitStage::DriverOk => DeviceInit { stage: InitStage::Ready, ..self },
            InitStage::Ready => self,
            InitStage::Failed(_) => self,
        }
    }

    /// What to do next.
    pub fn op(&self) -> (r: InitOp)
        requires
            self.wf(),
        ensures
            r == self.next_op(),
    {
        match self.stage {
            InitStage::EnableMaster => InitOp::EnableBusMaster,
            InitStage::FirstCap => InitOp::CfgRead8(REG_CAPABILITIES),
            InitStage::CapId => InitOp::CfgRead8(self.walk.cap),
            InitStage::CapNext => InitOp::CfgRead8(self.walk.cap + 1),
            InitStage::CapKind => InitOp::CfgRead8(self.walk.cap + 3),
            InitStage::CapBar => InitOp::CfgRead8(self.walk.cap + 4),
            InitStage::CapOffset => InitOp::CfgRead32(self.walk.cap + 8),
            InitStage::CapLength => InitOp::CfgRead32(self.walk.cap + 12),
            InitStage::WindowBase => InitOp::BarBase(self.record.bar),
            InitStage::MapWindow => InitOp::MapRange(
                self.record.phys,
                self.record.length as u64,
            ),
            InitStage::NotifyMul => InitOp::CfgRead32(self.walk.cap + 16),
            InitStage::Reset => InitOp::Write8(CC_DEVICE_STATUS, STATUS_RESET),
            InitStage::AwaitReset => InitOp::Read8(CC_DEVICE_STATUS),
            InitStage::Acknowledge => InitOp::Write8(CC_DEVICE_STATUS, STATUS_ACK),
            InitStage::Driver => InitOp::Write8(CC_DEVICE_STATUS, STATUS_DRIVER),
            InitStage::SelectLow => InitOp::Write32(CC_DEVICE_FEATURE_SELECT, 0),
            InitStage::ReadLow => InitOp::Read32(CC_DEVICE_FEATURE),
            InitStage::SelectHigh => InitOp::Write32(CC_DEVICE_FEATURE_SELECT, 1),
            InitStage::ReadHigh => InitOp::Read32(CC_DEVICE_FEATURE),
            InitStage::SelectDriverLow => InitOp::Write32(CC_DRIVER_FEATURE_SELECT, 0),
            InitStage::WriteDriverLow => InitOp::Write32(CC_DRIVER_FEATURE, self.driver_low),
            InitStage::SelectDriverHigh => InitOp::Write32(CC_DRIVER_FEATURE_SELECT, 1),
            InitStage::WriteDriverHigh => InitOp::Write32(
                CC_DRIVER_FEATURE,
                VIRTIO_F_VERSION_1_HI,
            ),
            InitStage::OfferFeatures => InitOp::Write8(CC_DEVICE_STATUS, STATUS_FEATURES_OK),
            InitStage::ConfirmFeatures => InitOp::Read8(CC_DEVICE_STATUS),
            InitStage::SelectQueue => InitOp::Write16(CC_QUEUE_SELECT, 0),
            InitStage::ReadQueueSize => InitOp::Read16(CC_QUEUE_SIZE),
            InitStage::WriteQueueSize => InitOp::Write16(CC_QUEUE_SIZE, self.qsize),
            InitStage::DescFrame => InitOp::TakeFrame,
            InitStage::AvailFrame => InitOp::TakeFrame,
            InitStage::UsedFrame => InitOp::TakeFrame,
            InitStage::BufferFrame => InitOp::TakeFrame,
            InitStage::WriteDesc => InitOp::Write64(CC_QUEUE_DESC, self.desc_phys),
            InitStage::WriteAvail => InitOp::Write64(CC_QUEUE_DRIVER, self.avail_phys),
            InitStage::WriteUsed => InitOp::Write64(CC_QUEUE_DEVICE, self.used_phys),
            InitStage::ReadNotifyOff => InitOp::Read16(CC_QUEUE_NOTIFY_OFF),
            InitStage::EnableQueue => InitOp::Write16(CC_QUEUE_ENABLE, 1),
            InitStage::DriverOk => InitOp::Write8(CC_DEVICE_STATUS, STATUS_DRIVER_OK),
            InitStage::Ready => InitOp::Ready,
            InitStage::Failed(f) => InitOp::Failed(f),
        }
    }

    /// Lets the walk go on from the capability that was read.
    fn pass_cap(&mut self)
        requires
            old(self).walk.steps < MAX_CAPS,
        ensures
            *final(self) == old(self).past_cap(old(self).walk, old(self).record),
            final(self).wf(),
    {
        let next: u8 = self.record.next;
        self.walk.advance(next);
        self.stage = stage_of(&self.walk);
    }

    /// Takes what came of it. A frame must have an address, and so must a window.
    pub fn advance(&mut self, ev: InitEvent)
        requires
            old(self).wf(),
            old(self).accepts(ev),
        ensures
            *final(self) == old(self).after(ev),
            final(self).wf(),
    {
        let v: u32 = match ev {
            InitEvent::Read(v) => v,
            _ => 0,
        };
        let (frame_phys, has_frame): (u64, bool) = match ev {
            InitEvent::Frame(f) => (f * 4096, true),
            _ => (0, false),
        };
        let addr: u64 = match ev {
            InitEvent::Address(a) => a,
            _ => 0,
        };
        proof {
            lemma_read_bits(v);
        }
        let byte: u8 = (v & 0xFF) as u8;
        match self.stage {
            InitStage::EnableMaster => {
                self.stage = InitStage::FirstCap;
            },
            InitStage::FirstCap => {
                self.walk = CapWalk::start(byte);
                self.stage = stage_of(&self.walk);
            },
            InitStage::CapId => {
                self.record.id = byte;
                self.stage = InitStage::CapNext;
            },
            InitStage::CapNext => {
                self.record.next = byte;
                if self.record.id == PCI_CAP_ID_VNDR {
                    self.stage = InitStage::CapKind;
                } else {
                    self.pass_cap();
                }
            },
            InitStage::CapKind => {
                self.record.kind = byte;
                self.stage = InitStage::CapBar;
            },
            InitStage::CapBar => {
                self.record.bar = byte;
                self.stage = InitStage::CapOffset;
            },
            InitStage::CapOffset => {
                self.record.offset = v;
                self.stage = InitStage::CapLength;
            },
            InitStage::CapLength => {
                self.record.length = v;
                self.stage = InitStage::WindowBase;
            },
            InitStage::WindowBase => {
                self.record.phys = addr + self.record.offset as u64;
                self.stage = InitStage::MapWindow;
            },
            InitStage::MapWindow => {
                if let InitEvent::Address(va) = ev {
                    self.record.va = va;
                    if self.record.kind == VIRTIO_PCI_CAP_NOTIFY_CFG {
                        self.stage = InitStage::NotifyMul;
                    } else {
                        let rec = self.record;
                        self.walk.note_window(rec.kind, rec.va, rec.phys, 0);
                        self.pass_cap();
                    }
                } else {
                    self.stage = InitStage::Failed(InitFailure::NotMapped);
                }
            },
            InitStage::NotifyMul => {
                let rec = self.record;
                self.walk.note_window(rec.kind, rec.va, rec.phys, v);
                self.pass_cap();
            },
            InitStage::Reset => {
                self.stage = InitStage::AwaitReset;
            },
            InitStage::AwaitReset => {
                if v == 0 {
                    self.stage = InitStage::Acknowledge;
                } else if self.polls >= POLL_LIMIT {
                    self.stage = InitStage::Failed(InitFailure::ResetTimeout);
                } else {
                    self.polls = self.polls + 1;
                }
            },
            InitStage::Acknowledge => {
                self.stage = InitStage::Driver;
            },
            InitStage::Driver => {
                self.stage = InitStage::SelectLow;
            },
            InitStage::SelectLow => {
                self.stage = InitStage::ReadLow;
            },
            InitStage::ReadLow => {
                self.driver_low = v & VIRTIO_BLK_F_FLUSH_BIT;
                self.stage = InitStage::SelectHigh;
            },
            InitStage::SelectHigh => {
                self.stage = InitStage::ReadHigh;
            },
            InitStage::ReadHigh => {
                self.stage = if v & VIRTIO_F_VERSION_1_HI == 0 {
                    InitStage::Failed(InitFailure::NotModern)
                } else {
                    InitStage::SelectDriverLow
                };
            },
            InitStage::SelectDriverLow => {
                self.stage = InitStage::WriteDriverLow;
            },
            InitStage::WriteDriverLow => {
                self.stage = InitStage::SelectDriverHigh;
            },
            InitStage::SelectDriverHigh => {
                self.stage = InitStage::WriteDriverHigh;
            },
            InitStage::WriteDriverHigh => {
                self.stage = InitStage::OfferFeatures;
            },
            InitStage::OfferFeatures => {
                self.stage = InitStage::ConfirmFeatures;
            },
            InitStage::ConfirmFeatures => {
                self.stage = if v & (S_FEATURES_OK as u32) == 0 {
                    InitStage::Failed(InitFailure::FeaturesRejected)
                } else {
                    InitStage::SelectQueue
                };
            },
            InitStage::SelectQueue => {
                self.stage = InitStage::ReadQueueSize;
            },
            InitStage::ReadQueueSize => {
                let max: u16 = (v & 0xFFFF) as u16;
                if max == 0 {
                    self.stage = InitStage::Failed(InitFailure::NoQueue);
                } else {
                    self.qsize = if max < QSIZE {
                        max
                    } else {
                        QSIZE
                    };
                    self.stage = InitStage::WriteQueueSize;
                }
            },
            InitStage::WriteQueueSize => {
                self.stage = InitStage::DescFrame;
            },
            InitStage::DescFrame => {
                self.desc_phys = frame_phys;
                self.stage = if has_frame {
                    InitStage::AvailFrame
                } else {
                    InitStage::Failed(InitFailure::NoMemory)
                };
            },
            InitStage::AvailFrame => {
                self.avail_phys = frame_phys;
                self.stage = if has_frame {
                    InitStage::UsedFrame
                } else {
                    InitStage::Failed(InitFailure::NoMemory)
                };
            },
            InitStage::UsedFrame => {
                self.used_phys = frame_phys;
                self.stage = if has_frame {
                    InitStage::BufferFrame
                } else {
                    InitStage::Failed(InitFailure::NoMemory)
                };
            },
            InitStage::BufferFrame => {
                self.buf_phys = frame_phys;
                self.stage = if has_frame {
                    InitStage::WriteDesc
                } else {
                    InitStage::Failed(InitFailure::NoMemory)
                };
            },
            InitStage::WriteDesc => {
                self.stage = InitStage::WriteAvail;
            },
            InitStage::WriteAvail => {
                self.stage = InitStage::WriteUsed;
            },
            InitStage::WriteUsed => {
                self.stage = InitStage::ReadNotifyOff;
            },
            InitStage::ReadNotifyOff => {
                self.notify_off = (v & 0xFFFF) as u16;
                self.stage = InitStage::EnableQueue;
            },
            InitStage::EnableQueue => {
                self.stage = InitStage::DriverOk;
            },
            InitStage::DriverOk => {
                self.stage = InitStage::Ready;
            },
            InitStage::Ready => {},
            InitStage::Failed(_) => {},
        }
    }
}

/// The bits of a word that was read.
proof fn lemma_read_bits(v: u32)
    by (bit_vector)
    ensures
        v & 1 == v % 2,
        (v & 8 == 0) == (v / 8 % 2 == 0),
        v & 0xFFFF == v % 0x1_0000,
        v & 0xFF == v % 0x100,
{
}

/// The stage in which the walk goes on.
fn stage_of(w: &CapWalk) -> (r: InitStage)
    ensures
        r == walk_stage(*w),
{
    if w.at().is_some() {
        InitStage::CapId
    } else if w.finish().is_some() {
        InitStage::Reset
    } else {
        InitStage::Failed(InitFailure::NoWindows)
    }
}

/// Starts to bring up the disk at slot and function `found`. Without a disk that fails at
/// once.
pub fn init(found: Option<(u8, u8)>) -> (r: DeviceInit)
    ensures
        r == started(found),
        r.wf(),
{
    let (dev, func, stage) = match found {
        Some((dev, func)) => (dev, func, InitStage::EnableMaster),
        None => (0u8, 0u8, InitStage::Failed(InitFailure::NoDevice)),
    };
    DeviceInit {
        stage,
        dev,
        func,
        walk: CapWalk {
            cap: 0,
            steps: 0,
            windows: Windows {
                common: 0,
                notify_base: 0,
                notify_phys: 0,
                notify_mul: 0,
                device_cfg: 0,
            },
        },
        record: CapRecord {
            id: 0,
            next: 0,
            kind: 0,
            bar: 0,
            offset: 0,
            length: 0,
            phys: 0,
            va: 0,
        },
        polls: 0,
        driver_low: 0,
        qsize: 0,
        notify_off: 0,
        desc_phys: 0,
        avail_phys: 0,
        used_phys: 0,
        buf_phys: 0,
    }
}

/// The disk, once it is up. Addresses that end in `phys` are for the device, the others
/// are where the kernel finds the same memory.
#[derive(Clone, Copy, Debug, PartialEq, Eq, Structural)]
pub struct VirtioBlk {
    pub present: bool,
    pub common: u64,
    pub notify_base: u64,
    pub notify_phys: u64,
    pub notify_mul: u32,
    pub notify_off: u16,
    pub desc: u64,
    pub avail: u64,
    pub used: u64,
    pub desc_phys: u64,
    pub avail_phys: u64,
    pub used_phys: u64,
    pub hdr_phys: u64,
    pub data_phys: u64,
    pub status_phys: u64,
    pub hdr: u64,
    pub data: u64,
    pub status: u64,
    pub qsize: u16,
    pub flush_ok: bool,
}

impl VirtioBlk {
    /// A disk that is present has a queue, and the addresses of the queue and of the
    /// doorbell fit a machine word.
    pub open spec fn wf(self) -> bool {
        self.present ==> {
            &&& 1 <= self.qsize <= QSIZE
            &&& self.avail + 4096 <= u64::MAX
            &&& self.notify_base + self.notify_off * self.notify_mul <= u64::MAX
            &&& self.notify_phys + self.notify_off * self.notify_mul <= u64::MAX
        }
    }

    /// No disk.
    pub fn absent() -> (r: VirtioBlk)
        ensures
            r.wf(),
            r == (VirtioBlk {
                present: false,
                common: 0,
                notify_base: 0,
                notify_phys: 0,
                notify_mul: 0,
                notify_off: 0,
                desc: 0,
                avail: 0,
                used: 0,
                desc_phys: 0,
                avail_phys: 0,
                used_phys: 0,
                hdr_phys: 0,
                data_phys: 0,
                status_phys: 0,
                hdr: 0,
                data: 0,
                status: 0,
                qsize: 0,
                flush_ok: false,
            }),
    {
        VirtioBlk {
            present: false,
            common: 0,
            notify_base: 0,
            notify_phys: 0,
            notify_mul: 0,
            notify_off: 0,
            desc: 0,
            avail: 0,
            used: 0,
            desc_phys: 0,
            avail_phys: 0,
            used_phys: 0,
            hdr_phys: 0,
            data_phys: 0,
            status_phys: 0,
            hdr: 0,
            data: 0,
            status: 0,
            qsize: 0,
            flush_ok: false,
        }
    }
}

/// The frames and the doorbell of a device that is up are within reach: they have
/// addresses in the direct map, and the doorbell has one in its window.
pub open spec fn reachable(hhdm: u64, w: Windows, d: DeviceInit) -> bool {
    &&& hhdm + d.desc_phys + 4096 <= u64::MAX
    &&& hhdm + d.avail_phys + 4096 <= u64::MAX
    &&& hhdm + d.used_phys + 4096 <= u64::MAX
    &&& hhdm + d.buf_phys + 4096 <= u64::MAX
    &&& w.notify_base + d.notify_off * w.notify_mul <= u64::MAX
    &&& w.notify_phys + d.notify_off * w.notify_mul <= u64::MAX
}

/// The disk, from what was found out while it was brought up. Header, data and status
/// of a request share one frame.
pub fn attach(hhdm: u64, w: &Windows, d: &DeviceInit) -> (r: VirtioBlk)
    requires
        1 <= d.qsize <= QSIZE,
        reachable(hhdm, *w, *d),
    ensures
        r.wf(),
        r == (VirtioBlk {
            present: true,
            common: w.common,
            notify_base: w.notify_base,
            notify_phys: w.notify_phys,
            notify_mul: w.notify_mul,
            notify_off: d.notify_off,
            desc: (hhdm + d.desc_phys) as u64,
            avail: (hhdm + d.avail_phys) as u64,
            used: (hhdm + d.used_phys) as u64,
            desc_phys: d.desc_phys,
            avail_phys: d.avail_phys,
            used_phys: d.used_phys,
            hdr_phys: d.buf_phys,
            data_phys: (d.buf_phys + 512) as u64,
            status_phys: (d.buf_phys + 1024) as u64,
            hdr: (hhdm + d.buf_phys) as u64,
            data: (hhdm + d.buf_phys + 512) as u64,
            status: (hhdm + d.buf_phys + 1024) as u64,
            qsize: d.qsize,
            flush_ok: d.driver_low != 0,
        }),
{
    let buf: u64 = hhdm + d.buf_phys;
    VirtioBlk {
        present: true,
        common: w.common,
        notify_base: w.notify_base,
        notify_phys: w.notify_phys,
        notify_mul: w.notify_mul,
        notify_off: d.notify_off,
        desc: hhdm + d.desc_phys,
        avail: hhdm + d.avail_phys,
        used: hhdm + d.used_phys,
        desc_phys: d.desc_phys,
        avail_phys: d.avail_phys,
        used_phys: d.used_phys,
        hdr_phys: d.buf_phys,
        data_phys: d.buf_phys + 512,
        status_phys: d.buf_phys + 1024,
        hdr: buf,
        data: buf + 512,
        status: buf + 1024,
        qsize: d.qsize,
        flush_ok: d.driver_low != 0,
    }
}

/// Where the doorbell is, from the start of its window.
fn doorbell_offset(v: &VirtioBlk) -> (r: u64)
    ensures
        r == v.notify_off * v.notify_mul,
{
    let off: u64 = v.notify_off as u64;
    let mul: u64 = v.notify_mul as u64;
    assert(off * mul <= 0xffff * 0xffff_ffff) by (nonlinear_arith)
        requires
            off <= 0xffff,
            mul <= 0xffff_ffff,
    ;
    off * mul
}

/// The queue of a disk that is present, by physical addresses.
pub fn device_queue_desc(v: &VirtioBlk) -> (r: Option<DeviceQueueDesc>)
    requires
        v.wf(),
    ensures
        r == if v.present {
            Some(
                DeviceQueueDesc {
                    desc_phys: v.desc_phys,
                    avail_phys: v.avail_phys,
                    used_phys: v.used_phys,
                    buf_phys: v.hdr_phys,
                    doorbell_phys: (v.notify_phys + v.notify_off * v.notify_mul) as u64,
                    qsize: v.qsize,
                },
            )
        } else {
            None
        },
{
    if !v.present {
        return None;
    }
    Some(
        DeviceQueueDesc {
            desc_phys: v.desc_phys,
            avail_phys: v.avail_phys,
            used_phys: v.used_phys,
            buf_phys: v.hdr_phys,
            doorbell_phys: v.notify_phys + doorbell_offset(v),
            qsize: v.qsize,
        },
    )
}

/// A buffer descriptor.
#[derive(Clone, Copy, Debug, PartialEq, Eq, Structural)]
pub struct Desc {
    pub addr: u64,
    pub len: u32,
    pub flags: u16,
    pub next: u16,
}

impl Desc {
    /// The descriptor as the two words that stand in the table: the address, then length,
    /// flags and the next descriptor.
    pub open spec fn laid_words(self) -> Seq<u64> {
        seq![
            self.addr,
            (self.len + self.flags * 0x1_0000_0000 + self.next * 0x1_0000_0000_0000) as u64,
        ]
    }

    /// The descriptor as the two words that stand in the table.
    pub fn words(&self) -> (r: [u64; 2])
        ensures
            r@ == self.laid_words(),
    {
        let w: [u64; 2] = [
            self.addr,
            self.len as u64 + self.flags as u64 * 0x1_0000_0000 + self.next as u64
                * 0x1_0000_0000_0000,
        ];
        assert(w@ =~= self.laid_words());
        w
    }
}

/// The descriptors of a request: the header, the data unless there is none, and the
/// status. The device writes the status always, and the data if it is a read.
pub open spec fn request_chain(v: VirtioBlk, req_type: u32, has_data: bool) -> Seq<Desc> {
    let header = Desc { addr: v.hdr_phys, len: 16, flags: VIRTQ_DESC_F_NEXT, next: 1 };
    let status = Desc { addr: v.status_phys, len: 1, flags: VIRTQ_DESC_F_WRITE, next: 0 };
    if has_data {
        let data = Desc {
            addr: v.data_phys,
            len: SECTOR,
            flags: if req_type == VIRTIO_BLK_T_IN {
                3
            } else {
                VIRTQ_DESC_F_NEXT
            },
            next: 2,
        };
        seq![header, data, status]
    } else {
        seq![header, status]
    }
}

/// A request that is ready for the device. The caller writes the header, sets the status
/// byte, writes the descriptors, puts descriptor 0 into the ring, publishes the index
/// and rings the doorbell, in this order.
#[derive(Debug)]
pub struct Submission {
    /// The two words of the header: the kind of request, and the sector.
    pub header: [u64; 2],
    pub chain: Vec<Desc>,
    /// Where the ring entry for the first descriptor goes.
    pub ring_addr: u64,
    /// Where the index is published, and which.
    pub index_addr: u64,
    pub target: u16,
    pub doorbell: u64,
}

/// The status byte before the device has written it.
pub const STATUS_PENDING: u8 = 0xFF;

/// The index that follows, going round.
pub open spec fn next_index(i: u16) -> u16 {
    if i == u16::MAX {
        0
    } else {
        (i + 1) as u16
    }
}

impl Submission {
    /// The request is laid out for this disk, whose ring stands at `avail_idx`.
    pub open spec fn laid_out(
        self,
        v: VirtioBlk,
        req_type: u32,
        lba: u64,
        has_data: bool,
        avail_idx: u16,
    ) -> bool {
        &&& self.header@ == seq![req_type as u64, lba]
        &&& self.chain@ == request_chain(v, req_type, has_data)
        &&& self.ring_addr == v.avail + 4 + (avail_idx % v.qsize) * 2
        &&& self.index_addr == v.avail + 2
        &&& self.target == next_index(avail_idx)
        &&& self.doorbell == v.notify_base + v.notify_off * v.notify_mul
    }
}

/// Lays a request out. Answers `None` when the disk is not present.
pub fn submit(v: &VirtioBlk, req_type: u32, lba: u64, has_data: bool, avail_idx: u16) -> (r: Option<
    Submission,
>)
    requires
        v.wf(),
    ensures
        match r {
            Some(sub) => v.present && sub.laid_out(*v, req_type, lba, has_data, avail_idx),
            None => !v.present,
        },
{
    if !v.present {
        return None;
    }
    let mut chain: Vec<Desc> = Vec::new();
    chain.push(Desc { addr: v.hdr_phys, len: 16, flags: VIRTQ_DESC_F_NEXT, next: 1 });
    if has_data {
        let flags: u16 = if req_type == VIRTIO_BLK_T_IN {
            VIRTQ_DESC_F_NEXT | VIRTQ_DESC_F_WRITE
        } else {
            VIRTQ_DESC_F_NEXT
        };
        assert(1u16 | 2 == 3) by (bit_vector);
        chain.push(Desc { addr: v.data_phys, len: SECTOR, flags, next: 2 });
    }
    chain.push(Desc { addr: v.status_phys, len: 1, flags: VIRTQ_DESC_F_WRITE, next: 0 });
    assert(chain@ =~= request_chain(*v, req_type, has_data));
    let slot: u16 = avail_idx % v.qsize;
    let target: u16 = avail_idx.wrapping_add(1);
    let header: [u64; 2] = [req_type as u64, lba];
    assert(header@ =~= seq![req_type as u64, lba]);
    Some(
        Submission {
            header,
            chain,
            ring_addr: v.avail + 4 + (slot as u64) * 2,
            index_addr: v.avail + 2,
            target,
            doorbell: v.notify_base + doorbell_offset(v),
        },
    )
}

/// What asking whether a request is done tells.
#[derive(Clone, Copy, Debug, PartialEq, Eq, Structural)]
pub enum Poll {
    Done,
    Again,
    /// The device was asked too often and is given up.
    TimedOut,
}

/// Judges the index that the device has published after it was asked `polls` times
/// before: the request is done when it is exactly the one that was awaited. A device
/// that is given up is not present any more, so that an answer that comes late is not
/// taken for another request's.
pub fn poll(v: &mut VirtioBlk, target: u16, used_idx: u16, polls: u64) -> (r: Poll)
    requires
        old(v).wf(),
    ensures
        final(v).wf(),
        r == if used_idx == target {
            Poll::Done
        } else if polls >= POLL_LIMIT {
            Poll::TimedOut
        } else {
            Poll::Again
        },
        *final(v) == if r == Poll::TimedOut {
            VirtioBlk { present: false, ..*old(v) }
        } else {
            *old(v)
        },
{
    if used_idx == target {
        return Poll::Done;
    }
    if polls >= POLL_LIMIT {
        v.present = false;
        return Poll::TimedOut;
    }
    Poll::Again
}

/// Whether the device reports success.
pub fn succeeded(status: u8) -> (r: bool)
    ensures
        r == (status == 0),
{
    status == 0
}

/// Lays out the read of a sector into the data buffer.
pub fn read_sector(v: &VirtioBlk, lba: u64, avail_idx: u16) -> (r: Option<Submission>)
    requires
        v.wf(),
    ensures
        match r {
            Some(sub) => v.present && sub.laid_out(*v, VIRTIO_BLK_T_IN, lba, true, avail_idx),
            None => !v.present,
        },
{
    submit(v, VIRTIO_BLK_T_IN, lba, true, avail_idx)
}

/// Lays out the write of a sector from the data buffer.
pub fn write_sector(v: &VirtioBlk, lba: u64, avail_idx: u16) -> (r: Option<Submission>)
    requires
        v.wf(),
    ensures
        match r {
            Some(sub) => v.present && sub.laid_out(*v, VIRTIO_BLK_T_OUT, lba, true, avail_idx),
            None => !v.present,
        },
{
    submit(v, VIRTIO_BLK_T_OUT, lba, true, avail_idx)
}

/// What a flush takes.
#[derive(Debug)]
pub enum FlushPlan {
    /// There is no disk.
    Fails,
    /// The disk has no cache: what was written is written.
    Nothing,
    Submit(Submission),
}

/// Lays out a flush of the disk's cache, if it has one.
pub fn flush(v: &VirtioBlk, avail_idx: u16) -> (r: FlushPlan)
    requires
        v.wf(),
    ensures
        match r {
            FlushPlan::Fails => !v.present,
            FlushPlan::Nothing => v.present && !v.flush_ok,
            FlushPlan::Submit(sub) => v.present && v.flush_ok && sub.laid_out(
                *v,
                VIRTIO_BLK_T_FLUSH,
                0,
                false,
                avail_idx,
            ),
        },
{
    if !v.present {
        return FlushPlan::Fails;
    }
    if !v.flush_ok {
        return FlushPlan::Nothing;
    }
    match submit(v, VIRTIO_BLK_T_FLUSH, 0, false, avail_idx) {
        Some(sub) => FlushPlan::Submit(sub),
        None => FlushPlan::Fails,
    }
}

/// The bytes for the round trip at boot.
pub open spec fn smoke_bytes() -> Seq<u8> {
    Seq::new(512, |i: int| ((i % 256) as u8) ^ 0xA5)
}

/// The bytes for the round trip at boot.
pub fn smoke_pattern() -> (r: [u8; 512])
    ensures
        r@ == smoke_bytes(),
{
    let mut buf: [u8; 512] = [0; 512];
    let mut i: usize = 0;
    while i < 512
        invariant
            i <= 512,
            forall|j: int| 0 <= j < i ==> #[trigger] buf@[j] == ((j % 256) as u8) ^ 0xA5,
        decreases 512 - i,
    {
        buf[i] = ((i % 256) as u8) ^ 0xA5;
        i = i + 1;
    }
    assert(buf@ =~= smoke_bytes());
    buf
}

/// What the round trip at boot writes: the sector, which is far from the store, and its
/// bytes. It is the only one that is written.
pub fn smoke_write() -> (r: (u64, [u8; 512]))
    ensures
        r.0 == SMOKE_LBA,
        r.1@ == smoke_bytes(),
{
    (SMOKE_LBA, smoke_pattern())
}

/// What the round trip at boot reads: the sector that was written, once it was.
pub fn smoke_read(wrote: bool) -> (r: Option<u64>)
    ensures
        r == if wrote {
            Some(SMOKE_LBA)
        } else {
            None
        },
{
    if wrote {
        Some(SMOKE_LBA)
    } else {
        None
    }
}

/// Judges the round trip at boot: the write and the read went well, and what was read is
/// what was written.
pub fn smoke_test(wrote: bool, read: Option<[u8; 512]>) -> (r: bool)
    ensures
        r == (wrote && read is Some && read->0@ == smoke_bytes()),
{
    let want = smoke_pattern();
    match read {
        Some(got) => {
            let mut same = true;
            let mut i: usize = 0;
            while i < 512
                invariant
                    i <= 512,
                    want@ == smoke_bytes(),
                    same == (forall|j: int| 0 <= j < i ==> #[trigger] got@[j] == want@[j]),
                decreases 512 - i,
            {
                if got[i] != want[i] {
                    same = false;
                }
                i = i + 1;
            }
            proof {
                if same {
                    assert(got@ =~= smoke_bytes());
                }
            }
            wrote && same
        },
        None => false,
    }
}

/// A request is well formed for the device: every descriptor but the last one names the
/// one after it, what the device reads comes before what it writes, and the device
/// writes the data if and only if the request is a read.
pub proof fn law_chain_is_well_formed(v: VirtioBlk, req_type: u32, has_data: bool, i: int)
    requires
        0 <= i < request_chain(v, req_type, has_data).len(),
    ensures
        ({
            let chain = request_chain(v, req_type, has_data);
            let last = chain.len() - 1;
            &&& i < last ==> chain[i].flags % 2 == 1 && chain[i].next == i + 1
            &&& i == last ==> chain[i].flags == VIRTQ_DESC_F_WRITE && chain[i].len == 1
            &&& i == 0 ==> chain[i].flags == VIRTQ_DESC_F_NEXT && chain[i].len == 16
            &&& has_data ==> chain.len() == 3 && chain[1].len == SECTOR && (chain[1].flags >= 2)
                == (req_type == VIRTIO_BLK_T_IN)
            &&& !has_data ==> chain.len() == 2
        }),
{
}

/// The device after a sequence of outcomes.
#[verifier::opaque]
pub open spec fn init_after(d: DeviceInit, events: Seq<InitEvent>) -> DeviceInit
    decreases events.len(),
{
    if events.len() == 0 {
        d
    } else {
        init_after(d, events.drop_last()).after(events.last())
    }
}

/// What has been settled when a stage of the bring-up is reached: the windows are known
/// from the reset on, and the queue has a size from when it is written.
pub open spec fn init_settled(d: DeviceInit) -> bool {
    &&& d.wf()
    &&& d.polls <= POLL_LIMIT
    &&& d.walk.steps <= MAX_CAPS
    &&& match d.stage {
        InitStage::EnableMaster | InitStage::FirstCap | InitStage::Failed(_) => true,
        _ => d.reads_cap() || d.walk.complete(),
    }
    &&& match d.stage {
        InitStage::WriteQueueSize | InitStage::DescFrame | InitStage::AvailFrame
        | InitStage::UsedFrame | InitStage::BufferFrame | InitStage::WriteDesc
        | InitStage::WriteAvail | InitStage::WriteUsed | InitStage::ReadNotifyOff
        | InitStage::EnableQueue | InitStage::DriverOk | InitStage::Ready => 1 <= d.qsize <= QSIZE,
        _ => true,
    }
}

/// Whatever the device answers, it is declared ready only with its windows found and with
/// a queue of a size between one and the largest that is asked for. Its capabilities are
/// followed, and its reset is awaited, a bounded number of times. Where no device was
/// found, nothing but that failure comes of it.
pub proof fn law_ready_device_has_a_queue(events: Seq<InitEvent>, found: Option<(u8, u8)>)
    ensures
        init_settled(init_after(started(found), events)),
        found is None ==> init_after(started(found), events) == started(found),
    decreases events.len(),
{
    reveal(init_after);
    if events.len() > 0 {
        law_ready_device_has_a_queue(events.drop_last(), found);
    }
}

/// What is found out about a capability that describes a window: its fields, where its
/// register points, where its window was mapped and, for the notification window, `mul`.
pub open spec fn window_answers(
    next: u8,
    kind: u8,
    bar: u8,
    offset: u32,
    length: u32,
    base: u64,
    va: u64,
    mul: u32,
) -> Seq<InitEvent> {
    let answers = seq![
        InitEvent::Read(PCI_CAP_ID_VNDR as u32),
        InitEvent::Read(next as u32),
        InitEvent::Read(kind as u32),
        InitEvent::Read(bar as u32),
        InitEvent::Read(offset),
        InitEvent::Read(length),
        InitEvent::Address(base),
        InitEvent::Address(va),
    ];
    if kind == VIRTIO_PCI_CAP_NOTIFY_CFG {
        answers.push(InitEvent::Read(mul))
    } else {
        answers
    }
}

/// Where the walk stands at a capability that describes a window, and the window can be
/// mapped, the window is taken with the address it was mapped at, and the walk goes on
/// with the next capability.
pub proof fn law_window_is_taken(
    d: DeviceInit,
    next: u8,
    kind: u8,
    bar: u8,
    offset: u32,
    length: u32,
    base: u64,
    va: u64,
    mul: u32,
)
    requires
        d.stage == InitStage::CapId,
        base + offset <= u64::MAX,
    ensures
        init_after(d, window_answers(next, kind, bar, offset, length, base, va, mul))
            == d.past_cap(
            d.walk.noted(kind, va, (base + offset) as u64, mul),
            CapRecord {
                id: PCI_CAP_ID_VNDR,
                next,
                kind,
                bar,
                offset,
                length,
                phys: (base + offset) as u64,
                va,
            },
        ),
{
    let p0 = Seq::<InitEvent>::empty();
    assert(init_after(d, p0) == d) by {
        reveal(init_after);
    }
    let r1 = CapRecord { id: PCI_CAP_ID_VNDR, ..d.record };
    let d1 = DeviceInit { stage: InitStage::CapNext, record: r1, ..d };
    let p1 = lemma_step(d, p0, d, InitEvent::Read(PCI_CAP_ID_VNDR as u32), d1);
    let r2 = CapRecord { next, ..r1 };
    let d2 = DeviceInit { stage: InitStage::CapKind, record: r2, ..d };
    let p2 = lemma_step(d, p1, d1, InitEvent::Read(next as u32), d2);
    let r3 = CapRecord { kind, ..r2 };
    let d3 = DeviceInit { stage: InitStage::CapBar, record: r3, ..d };
    let p3 = lemma_step(d, p2, d2, InitEvent::Read(kind as u32), d3);
    let r4 = CapRecord { bar, ..r3 };
    let d4 = DeviceInit { stage: InitStage::CapOffset, record: r4, ..d };
    let p4 = lemma_step(d, p3, d3, InitEvent::Read(bar as u32), d4);
    let r5 = CapRecord { offset, ..r4 };
    let d5 = DeviceInit { stage: InitStage::CapLength, record: r5, ..d };
    let p5 = lemma_step(d, p4, d4, InitEvent::Read(offset), d5);
    let r6 = CapRecord { length, ..r5 };
    let d6 = DeviceInit { stage: InitStage::WindowBase, record: r6, ..d };
    let p6 = lemma_step(d, p5, d5, InitEvent::Read(length), d6);
    let r7 = CapRecord { phys: (base + offset) as u64, ..r6 };
    let d7 = DeviceInit { stage: InitStage::MapWindow, record: r7, ..d };
    let p7 = lemma_step(d, p6, d6, InitEvent::Address(base), d7);
    let r8 = CapRecord { va, ..r7 };
    let taken = d.past_cap(d.walk.noted(kind, va, r7.phys, mul), r8);
    if kind == VIRTIO_PCI_CAP_NOTIFY_CFG {
        let d8 = DeviceInit { stage: InitStage::NotifyMul, record: r8, ..d };
        let p8 = lemma_step(d, p7, d7, InitEvent::Address(va), d8);
        let p9 = lemma_step(d, p8, d8, InitEvent::Read(mul), taken);
        assert(p9 =~= window_answers(next, kind, bar, offset, length, base, va, mul));
    } else {
        let p8 = lemma_step(d, p7, d7, InitEvent::Address(va), taken);
        assert(p8 =~= window_answers(next, kind, bar, offset, length, base, va, mul));
    }
}

/// What a device answers that is fit for use: `busy` while its reset is not done, then its
/// features, its status, the size of its queue and where its doorbell is; and the frames
/// that are taken in between.
pub open spec fn fit_answers(
    busy: Seq<u32>,
    low: u32,
    high: u32,
    status: u32,
    max: u32,
    frames: (u64, u64, u64, u64),
    doorbell: u32,
) -> Seq<InitEvent> {
    seq![InitEvent::Wrote] + Seq::new(busy.len(), |i: int| InitEvent::Read(busy[i]))
        + answers_after_reset(low, high, status, max, frames, doorbell)
}

/// Those of them that come from when the reset is done.
pub open spec fn answers_after_reset(
    low: u32,
    high: u32,
    status: u32,
    max: u32,
    frames: (u64, u64, u64, u64),
    doorbell: u32,
) -> Seq<InitEvent> {
    let wrote = InitEvent::Wrote;
    seq![
        InitEvent::Read(0),
        wrote,
        wrote,
        wrote,
        InitEvent::Read(low),
        wrote,
        InitEvent::Read(high),
        wrote,
        wrote,
        wrote,
        wrote,
        wrote,
        InitEvent::Read(status),
        wrote,
        InitEvent::Read(max),
        wrote,
        InitEvent::Frame(frames.0),
        InitEvent::Frame(frames.1),
        InitEvent::Frame(frames.2),
        InitEvent::Frame(frames.3),
        wrote,
        wrote,
        wrote,
        InitEvent::Read(doorbell),
        wrote,
        wrote,
    ]
}

/// Outcomes one after the other.
proof fn lemma_init_after_joins(d: DeviceInit, first: Seq<InitEvent>, rest: Seq<InitEvent>)
    ensures
        init_after(d, first + rest) == init_after(init_after(d, first), rest),
    decreases rest.len(),
{
    reveal(init_after);
    if rest.len() == 0 {
        assert(first + rest =~= first);
    } else {
        lemma_init_after_joins(d, first, rest.drop_last());
        assert((first + rest).drop_last() =~= first + rest.drop_last());
    }
}

/// One more outcome.
proof fn lemma_step(
    d: DeviceInit,
    so_far: Seq<InitEvent>,
    at: DeviceInit,
    ev: InitEvent,
    next: DeviceInit,
) -> (r: Seq<InitEvent>)
    requires
        init_after(d, so_far) == at,
        at.after(ev) == next,
    ensures
        r == so_far.push(ev),
        init_after(d, r) == next,
{
    reveal(init_after);
    assert(so_far.push(ev).drop_last() =~= so_far);
    so_far.push(ev)
}

/// A device whose reset is not done is asked again.
proof fn lemma_busy_device_is_awaited(d: DeviceInit, busy: Seq<u32>)
    requires
        d.stage == InitStage::AwaitReset,
        d.polls + busy.len() <= POLL_LIMIT,
        forall|i: int| 0 <= i < busy.len() ==> #[trigger] busy[i] != 0,
    ensures
        init_after(d, Seq::new(busy.len(), |i: int| InitEvent::Read(busy[i]))) == (DeviceInit {
            polls: (d.polls + busy.len()) as u64,
            ..d
        }),
    decreases busy.len(),
{
    reveal(init_after);
    let events = Seq::new(busy.len(), |i: int| InitEvent::Read(busy[i]));
    if busy.len() > 0 {
        let rest = busy.drop_last();
        lemma_busy_device_is_awaited(d, rest);
        assert(events.drop_last() =~= Seq::new(rest.len(), |i: int| InitEvent::Read(rest[i])));
        assert(events.last() == InitEvent::Read(busy.last()));
    }
}

/// A device that is fit for use comes up: it finishes its reset in time, is a modern one,
/// keeps the features that were accepted and has a queue, and there are frames. It is then
/// ready, with the part of its features that the driver knows, a queue no larger than the
/// driver wants, and each frame where it was asked for.
pub proof fn law_fit_device_comes_up(
    d: DeviceInit,
    busy: Seq<u32>,
    low: u32,
    high: u32,
    status: u32,
    max: u32,
    frames: (u64, u64, u64, u64),
    doorbell: u32,
)
    requires
        d.stage == InitStage::Reset,
        d.polls + busy.len() <= POLL_LIMIT,
        forall|i: int| 0 <= i < busy.len() ==> #[trigger] busy[i] != 0,
        high % 2 == 1,
        status / 8 % 2 == 1,
        max % 0x1_0000 != 0,
    ensures
        init_after(d, fit_answers(busy, low, high, status, max, frames, doorbell)) == (DeviceInit {
            stage: InitStage::Ready,
            polls: (d.polls + busy.len()) as u64,
            driver_low: accepted_low(low),
            qsize: queue_size((max % 0x1_0000) as u16),
            notify_off: (doorbell % 0x1_0000) as u16,
            desc_phys: (frames.0 * 4096) as u64,
            avail_phys: (frames.1 * 4096) as u64,
            used_phys: (frames.2 * 4096) as u64,
            buf_phys: (frames.3 * 4096) as u64,
            ..d
        }),
{
    let first = seq![InitEvent::Wrote];
    let reads = Seq::new(busy.len(), |i: int| InitEvent::Read(busy[i]));
    let reset = DeviceInit { stage: InitStage::AwaitReset, ..d };
    assert(init_after(d, Seq::empty()) == d) by {
        reveal(init_after);
    }
    let p = lemma_step(d, Seq::empty(), d, InitEvent::Wrote, reset);
    assert(p =~= first);
    lemma_init_after_joins(d, first, reads);
    lemma_busy_device_is_awaited(reset, busy);
    lemma_init_after_joins(
        d,
        first + reads,
        answers_after_reset(low, high, status, max, frames, doorbell),
    );
    let waited = DeviceInit { polls: (d.polls + busy.len()) as u64, ..reset };
    lemma_reset_device_comes_up(waited, low, high, status, max, frames, doorbell);
}

/// The same from when the reset is done.
proof fn lemma_reset_device_comes_up(
    d: DeviceInit,
    low: u32,
    high: u32,
    status: u32,
    max: u32,
    frames: (u64, u64, u64, u64),
    doorbell: u32,
)
    requires
        d.stage == InitStage::AwaitReset,
        high % 2 == 1,
        status / 8 % 2 == 1,
        max % 0x1_0000 != 0,
    ensures
        init_after(d, answers_after_reset(low, high, status, max, frames, doorbell))
            == (DeviceInit {
                stage: InitStage::Ready,
                driver_low: accepted_low(low),
                qsize: queue_size((max % 0x1_0000) as u16),
                notify_off: (doorbell % 0x1_0000) as u16,
                desc_phys: (frames.0 * 4096) as u64,
                avail_phys: (frames.1 * 4096) as u64,
                used_phys: (frames.2 * 4096) as u64,
                buf_phys: (frames.3 * 4096) as u64,
                ..d
            }),
{
    let wrote = InitEvent::Wrote;
    let p0 = Seq::<InitEvent>::empty();
    assert(init_after(d, p0) == d) by {
        reveal(init_after);
    }
    let d1 = DeviceInit { stage: InitStage::Acknowledge, ..d };
    let p1 = lemma_step(d, p0, d, InitEvent::Read(0), d1);
    let d2 = DeviceInit { stage: InitStage::Driver, ..d1 };
    let p2 = lemma_step(d, p1, d1, wrote, d2);
    let d3 = DeviceInit { stage: InitStage::SelectLow, ..d2 };
    let p3 = lemma_step(d, p2, d2, wrote, d3);
    let d4 = DeviceInit { stage: InitStage::ReadLow, ..d3 };
    let p4 = lemma_step(d, p3, d3, wrote, d4);
    let d5 = DeviceInit { stage: InitStage::SelectHigh, driver_low: accepted_low(low), ..d4 };
    let p5 = lemma_step(d, p4, d4, InitEvent::Read(low), d5);
    let d6 = DeviceInit { stage: InitStage::ReadHigh, ..d5 };
    let p6 = lemma_step(d, p5, d5, wrote, d6);
    let d7 = DeviceInit { stage: InitStage::SelectDriverLow, ..d6 };
    let p7 = lemma_step(d, p6, d6, InitEvent::Read(high), d7);
    let d8 = DeviceInit { stage: InitStage::WriteDriverLow, ..d7 };
    let p8 = lemma_step(d, p7, d7, wrote, d8);
    let d9 = DeviceInit { stage: InitStage::SelectDriverHigh, ..d8 };
    let p9 = lemma_step(d, p8, d8, wrote, d9);
    let d10 = DeviceInit { stage: InitStage::WriteDriverHigh, ..d9 };
    let p10 = lemma_step(d, p9, d9, wrote, d10);
    let d11 = DeviceInit { stage: InitStage::OfferFeatures, ..d10 };
    let p11 = lemma_step(d, p10, d10, wrote, d11);
    let d12 = DeviceInit { stage: InitStage::ConfirmFeatures, ..d11 };
    let p12 = lemma_step(d, p11, d11, wrote, d12);
    let d13 = DeviceInit { stage: InitStage::SelectQueue, ..d12 };
    let p13 = lemma_step(d, p12, d12, InitEvent::Read(status), d13);
    let d14 = DeviceInit { stage: InitStage::ReadQueueSize, ..d13 };
    let p14 = lemma_step(d, p13, d13, wrote, d14);
    let d15 = DeviceInit { stage: InitStage::WriteQueueSize, qsize: queue_size((max % 0x1_0000) as u16), ..d14 };
    let p15 = lemma_step(d, p14, d14, InitEvent::Read(max), d15);
    let d16 = DeviceInit { stage: InitStage::DescFrame, ..d15 };
    let p16 = lemma_step(d, p15, d15, wrote, d16);
    let d17 = DeviceInit { stage: InitStage::AvailFrame, desc_phys: (frames.0 * 4096) as u64, ..d16 };
    let p17 = lemma_step(d, p16, d16, InitEvent::Frame(frames.0), d17);
    let d18 = DeviceInit { stage: InitStage::UsedFrame, avail_phys: (frames.1 * 4096) as u64, ..d17 };
    let p18 = lemma_step(d, p17, d17, InitEvent::Frame(frames.1), d18);
    let d19 = DeviceInit { stage: InitStage::BufferFrame, used_phys: (frames.2 * 4096) as u64, ..d18 };
    let p19 = lemma_step(d, p18, d18, InitEvent::Frame(frames.2), d19);
    let d20 = DeviceInit { stage: InitStage::WriteDesc, buf_phys: (frames.3 * 4096) as u64, ..d19 };
    let p20 = lemma_step(d, p19, d19, InitEvent::Frame(frames.3), d20);
    let d21 = DeviceInit { stage: InitStage::WriteAvail, ..d20 };
    let p21 = lemma_step(d, p20, d20, wrote, d21);
    let d22 = DeviceInit { stage: InitStage::WriteUsed, ..d21 };
    let p22 = lemma_step(d, p21, d21, wrote, d22);
    let d23 = DeviceInit { stage: InitStage::ReadNotifyOff, ..d22 };
    let p23 = lemma_step(d, p22, d22, wrote, d23);
    let d24 = DeviceInit { stage: InitStage::EnableQueue, notify_off: (doorbell % 0x1_0000) as u16, ..d23 };
    let p24 = lemma_step(d, p23, d23, InitEvent::Read(doorbell), d24);
    let d25 = DeviceInit { stage: InitStage::DriverOk, ..d24 };
    let p25 = lemma_step(d, p24, d24, wrote, d25);
    let d26 = DeviceInit { stage: InitStage::Ready, ..d25 };
    let p26 = lemma_step(d, p25, d25, wrote, d26);
    assert(p26 =~= answers_after_reset(low, high, status, max, frames, doorbell));
}

/// The driver declares itself ready only behind a modern device: each of the steps before
/// is reached only by the answer that allows it.
pub proof fn law_device_is_checked_before_use(d: DeviceInit, ev: InitEvent)
    ensures
        d.after(ev).stage == InitStage::SelectDriverLow ==> d.stage == InitStage::ReadHigh
            && read_value(ev) % 2 == 1,
        d.after(ev).stage == InitStage::SelectQueue ==> d.stage == InitStage::ConfirmFeatures
            && read_value(ev) / 8 % 2 == 1,
        d.after(ev).stage == InitStage::WriteDesc ==> d.stage == InitStage::BufferFrame
            && ev is Frame,
        d.after(ev).stage == InitStage::DriverOk ==> d.stage == InitStage::EnableQueue,
        d.after(ev).stage == InitStage::Ready && d.stage != InitStage::Ready ==> d.stage
            == InitStage::DriverOk,
{
}

/// Bit facts about the feature for flushing and the bytes of the round trip.
proof fn lemma_masks(word: u32, b: u8)
    by (bit_vector)
    ensures
        word & 0x200 == if word / 512 % 2 == 1 {
            512u32
        } else {
            0u32
        },
        (b ^ 0xA5) ^ 0xA5 == b,
        (0u8 ^ 0xA5) == 0xA5,
{
}

/// A pointer into the capability list is cut to a multiple of four; zero ends the list, and so
/// does the forty-eighth capability. Each capability counts once.
pub proof fn law_list_is_followed(w: CapWalk, p: u8)
    requires
        w.steps <= 48,
    ensures
        cap_pointer(p) == p / 4 * 4,
        w.moved(p).cap == p / 4 * 4,
        w.moved(p).steps == w.steps + 1,
        w.moved(p).windows == w.windows,
        w.goes_on() <==> w.cap != 0 && w.steps < 48,
        w.complete() <==> w.windows.common != 0 && w.windows.notify_base != 0,
        walk_stage(w) == if w.cap != 0 && w.steps < 48 {
            InitStage::CapId
        } else if w.windows.common != 0 && w.windows.notify_base != 0 {
            InitStage::Reset
        } else {
            InitStage::Failed(InitFailure::NoWindows)
        },
{
}

/// A capability notes the window that it describes, and leaves the other windows as they are.
pub proof fn law_each_kind_has_its_window(w: CapWalk, kind: u8, va: u64, phys: u64, mul: u32)
    ensures
        ({
            let n = w.noted(kind, va, phys, mul).windows;
            let o = w.windows;
            &&& n.common == if kind == 1 {
                va
            } else {
                o.common
            }
            &&& n.notify_base == if kind == 2 {
                va
            } else {
                o.notify_base
            }
            &&& n.notify_phys == if kind == 2 {
                phys
            } else {
                o.notify_phys
            }
            &&& n.notify_mul == if kind == 2 {
                mul
            } else {
                o.notify_mul
            }
            &&& n.device_cfg == if kind == 4 {
                va
            } else {
                o.device_cfg
            }
        }),
        w.noted(kind, va, phys, mul).cap == w.cap,
        w.noted(kind, va, phys, mul).steps == w.steps,
{
}

/// How a capability is read: first its id and the pointer to the next one. One that describes
/// no window is left at once, with the windows as they are.
pub proof fn law_capability_is_read(d: DeviceInit, id: u32, next: u32)
    requires
        d.stage == InitStage::CapId,
        d.walk.cap <= 0xfc,
        d.walk.steps < 48,
        id < 256,
        next < 256,
    ensures
        ({
            let d1 = d.after(InitEvent::Read(id));
            let d2 = d1.after(InitEvent::Read(next));
            &&& d.next_op() == InitOp::CfgRead8(d.walk.cap)
            &&& d1.next_op() == InitOp::CfgRead8((d.walk.cap + 1) as u16)
            &&& id != 9 ==> {
                &&& d2.walk.cap == next / 4 * 4
                &&& d2.walk.steps == d.walk.steps + 1
                &&& d2.walk.windows == d.walk.windows
                &&& d2.stage == walk_stage(d2.walk)
            }
            &&& id == 9 ==> {
                &&& d2.stage == InitStage::CapKind
                &&& d2.walk == d.walk
                &&& d2.record.next == next
            }
        }),
{
}

/// How a capability that describes a window is read on: its kind, register, offset and length
/// follow, from their places in it; the register is asked where it points, and as many bytes as
/// the length says are mapped from the offset behind it on.
pub proof fn law_window_is_read_field_by_field(
    d: DeviceInit,
    kind: u32,
    bar: u32,
    offset: u32,
    length: u32,
    base: u64,
)
    requires
        d.stage == InitStage::CapKind,
        d.walk.cap <= 0xfc,
        kind < 256,
        bar < 256,
        base + offset <= u64::MAX,
    ensures
        ({
            let cap = d.walk.cap;
            let d3 = d.after(InitEvent::Read(kind));
            let d4 = d3.after(InitEvent::Read(bar));
            let d5 = d4.after(InitEvent::Read(offset));
            let d6 = d5.after(InitEvent::Read(length));
            let d7 = d6.after(InitEvent::Address(base));
            &&& d.next_op() == InitOp::CfgRead8((cap + 3) as u16)
            &&& d3.next_op() == InitOp::CfgRead8((cap + 4) as u16)
            &&& d4.next_op() == InitOp::CfgRead32((cap + 8) as u16)
            &&& d5.next_op() == InitOp::CfgRead32((cap + 12) as u16)
            &&& d6.next_op() == InitOp::BarBase(bar as u8)
            &&& d7.next_op() == InitOp::MapRange((base + offset) as u64, length as u64)
            &&& d7.stage == InitStage::MapWindow
            &&& d7.walk == d.walk
            &&& d7.record.kind == kind
            &&& d7.record.phys == base + offset
            &&& d7.record.next == d.record.next
        }),
{
    let r3 = CapRecord { kind: kind as u8, ..d.record };
    let d3 = d.after(InitEvent::Read(kind));
    assert(d3 == (DeviceInit { stage: InitStage::CapBar, record: r3, ..d }));
    let r4 = CapRecord { bar: bar as u8, ..r3 };
    let d4 = d3.after(InitEvent::Read(bar));
    assert(d4 == (DeviceInit { stage: InitStage::CapOffset, record: r4, ..d }));
    let r5 = CapRecord { offset, ..r4 };
    let d5 = d4.after(InitEvent::Read(offset));
    assert(d5 == (DeviceInit { stage: InitStage::CapLength, record: r5, ..d }));
    let r6 = CapRecord { length, ..r5 };
    let d6 = d5.after(InitEvent::Read(length));
    assert(d6 == (DeviceInit { stage: InitStage::WindowBase, record: r6, ..d }));
}

/// What comes of mapping a window: it is noted with the address that it was mapped at, for the
/// notification window with one more word that is read behind the others, and the walk goes on
/// with the next capability. A window that cannot be mapped ends the bring-up.
pub proof fn law_window_is_noted(d: DeviceInit, va: u64, mul: u32)
    requires
        d.stage == InitStage::MapWindow,
        d.walk.cap <= 0xfc,
        d.walk.steps < 48,
    ensures
        ({
            let d8 = d.after(InitEvent::Address(va));
            let d9 = d8.after(InitEvent::Read(mul));
            let o = d.walk.windows;
            &&& d.after(InitEvent::NotMapped).next_op() == InitOp::Failed(InitFailure::NotMapped)
            &&& d.record.kind == 2 ==> {
                &&& d8.next_op() == InitOp::CfgRead32((d.walk.cap + 16) as u16)
                &&& d9.walk.windows.notify_base == va
                &&& d9.walk.windows.notify_phys == d.record.phys
                &&& d9.walk.windows.notify_mul == mul
                &&& d9.walk.windows.common == o.common
                &&& d9.walk.windows.device_cfg == o.device_cfg
                &&& d9.walk.cap == d.record.next / 4 * 4
                &&& d9.walk.steps == d.walk.steps + 1
                &&& d9.stage == walk_stage(d9.walk)
            }
            &&& d.record.kind != 2 ==> {
                &&& d8.walk.windows.common == if d.record.kind == 1 {
                    va
                } else {
                    o.common
                }
                &&& d8.walk.windows.notify_base == o.notify_base
                &&& d8.walk.windows.notify_phys == o.notify_phys
                &&& d8.walk.windows.notify_mul == o.notify_mul
                &&& d8.walk.cap == d.record.next / 4 * 4
                &&& d8.walk.steps == d.walk.steps + 1
                &&& d8.stage == walk_stage(d8.walk)
            }
        }),
{
    if d.record.kind == 2 {
        assert(d.after(InitEvent::Address(va)) == (DeviceInit {
            stage: InitStage::NotifyMul,
            record: CapRecord { va, ..d.record },
            ..d
        }));
    }
}

/// How the device is taken over, up to its features: it is reset, and asked until the reset is
/// done or it was asked too often; it is told that it was seen and that there is a driver; the
/// features that it offers are read, word by word, and of the lower word only the one for
/// flushing is accepted. A device that is not modern is given up.
pub proof fn law_device_is_taken_over(d: DeviceInit, busy: u32, low: u32, high: u32)
    requires
        d.stage == InitStage::Reset,
        d.polls <= 50_000_000,
    ensures
        ({
            let wrote = InitEvent::Wrote;
            let d1 = d.after(wrote);
            let d2 = d1.after(InitEvent::Read(0));
            let d3 = d2.after(wrote);
            let d4 = d3.after(wrote);
            let d5 = d4.after(wrote);
            let d6 = d5.after(InitEvent::Read(low));
            let d7 = d6.after(wrote);
            let d8 = d7.after(InitEvent::Read(high));
            let d9 = d8.after(wrote);
            &&& d.next_op() == InitOp::Write8(0x14, 0)
            &&& d1.next_op() == InitOp::Read8(0x14)
            &&& busy != 0 && d.polls < 50_000_000 ==> {
                &&& d1.after(InitEvent::Read(busy)).next_op() == InitOp::Read8(0x14)
                &&& d1.after(InitEvent::Read(busy)).polls == d.polls + 1
            }
            &&& busy != 0 && d.polls == 50_000_000 ==> d1.after(InitEvent::Read(busy)).next_op()
                == InitOp::Failed(InitFailure::ResetTimeout)
            &&& d2.next_op() == InitOp::Write8(0x14, 1)
            &&& d3.next_op() == InitOp::Write8(0x14, 3)
            &&& d4.next_op() == InitOp::Write32(0x00, 0)
            &&& d5.next_op() == InitOp::Read32(0x04)
            &&& d6.next_op() == InitOp::Write32(0x00, 1)
            &&& d7.next_op() == InitOp::Read32(0x04)
            &&& high % 2 == 0 ==> d8.next_op() == InitOp::Failed(InitFailure::NotModern)
            &&& high % 2 == 1 ==> {
                &&& d8.next_op() == InitOp::Write32(0x08, 0)
                &&& d9.next_op() == InitOp::Write32(
                    0x0c,
                    if low / 512 % 2 == 1 {
                        512
                    } else {
                        0
                    },
                )
            }
        }),
        accepted_low(low) == if low / 512 % 2 == 1 {
            512u32
        } else {
            0
        },
{
    lemma_masks(low, 0);
}

/// How the features are settled: the upper word is answered with the modern device alone, and
/// the device must confirm. Then the first queue is selected, and it gets its size, which is
/// what the device allows, but no more than 128.
pub proof fn law_features_are_settled(d: DeviceInit, status: u32, max: u32)
    requires
        d.stage == InitStage::WriteDriverLow,
    ensures
        ({
            let wrote = InitEvent::Wrote;
            let d1 = d.after(wrote);
            let d2 = d1.after(wrote);
            let d3 = d2.after(wrote);
            let d4 = d3.after(wrote);
            let d5 = d4.after(InitEvent::Read(status));
            let d6 = d5.after(wrote);
            let d7 = d6.after(InitEvent::Read(max));
            &&& d.next_op() == InitOp::Write32(0x0c, d.driver_low)
            &&& d1.next_op() == InitOp::Write32(0x08, 1)
            &&& d2.next_op() == InitOp::Write32(0x0c, 1)
            &&& d3.next_op() == InitOp::Write8(0x14, 11)
            &&& d4.next_op() == InitOp::Read8(0x14)
            &&& status / 8 % 2 == 0 ==> d5.next_op() == InitOp::Failed(
                InitFailure::FeaturesRejected,
            )
            &&& status / 8 % 2 == 1 ==> {
                &&& d5.next_op() == InitOp::Write16(0x16, 0)
                &&& d6.next_op() == InitOp::Read16(0x18)
                &&& max % 65536 == 0 ==> d7.next_op() == InitOp::Failed(InitFailure::NoQueue)
                &&& max % 65536 != 0 ==> {
                    &&& d7.stage == InitStage::WriteQueueSize
                    &&& d7.qsize == if max % 65536 < 128 {
                        max % 65536
                    } else {
                        128
                    }
                    &&& d7.next_op() == InitOp::Write16(0x18, d7.qsize)
                    &&& d7.walk == d.walk
                    &&& d7.driver_low == d.driver_low
                }
            }
        }),
{
    let wrote = InitEvent::Wrote;
    let d1 = d.after(wrote);
    assert(d1 == (DeviceInit { stage: InitStage::SelectDriverHigh, ..d }));
    let d2 = d1.after(wrote);
    assert(d2 == (DeviceInit { stage: InitStage::WriteDriverHigh, ..d }));
    let d3 = d2.after(wrote);
    assert(d3 == (DeviceInit { stage: InitStage::OfferFeatures, ..d }));
    let d4 = d3.after(wrote);
    assert(d4 == (DeviceInit { stage: InitStage::ConfirmFeatures, ..d }));
    if status / 8 % 2 == 1 {
        let d5 = d4.after(InitEvent::Read(status));
        assert(d5 == (DeviceInit { stage: InitStage::SelectQueue, ..d }));
        assert(d5.after(wrote) == (DeviceInit { stage: InitStage::ReadQueueSize, ..d }));
    }
}

/// Four frames are taken for the queue, for its three rings and for the requests, and their
/// addresses are kept. The bring-up fails if one cannot be had.
pub proof fn law_queue_gets_its_frames(
    d: DeviceInit,
    desc: u64,
    avail: u64,
    used: u64,
    buf: u64,
)
    requires
        d.stage == InitStage::WriteQueueSize,
        desc * 4096 <= u64::MAX,
        avail * 4096 <= u64::MAX,
        used * 4096 <= u64::MAX,
        buf * 4096 <= u64::MAX,
    ensures
        ({
            let d1 = d.after(InitEvent::Wrote);
            let d2 = d1.after(InitEvent::Frame(desc));
            let d3 = d2.after(InitEvent::Frame(avail));
            let d4 = d3.after(InitEvent::Frame(used));
            let d5 = d4.after(InitEvent::Frame(buf));
            let none = InitEvent::NoFrame;
            let no_memory = InitOp::Failed(InitFailure::NoMemory);
            &&& d1.next_op() == InitOp::TakeFrame
            &&& d1.after(none).next_op() == no_memory
            &&& d2.next_op() == InitOp::TakeFrame
            &&& d2.after(none).next_op() == no_memory
            &&& d3.next_op() == InitOp::TakeFrame
            &&& d3.after(none).next_op() == no_memory
            &&& d4.next_op() == InitOp::TakeFrame
            &&& d4.after(none).next_op() == no_memory
            &&& d5.stage == InitStage::WriteDesc
            &&& d5.desc_phys == desc * 4096
            &&& d5.avail_phys == avail * 4096
            &&& d5.used_phys == used * 4096
            &&& d5.buf_phys == buf * 4096
            &&& d5.qsize == d.qsize
            &&& d5.driver_low == d.driver_low
            &&& d5.walk == d.walk
        }),
{
    let d1 = d.after(InitEvent::Wrote);
    assert(d1 == (DeviceInit { stage: InitStage::DescFrame, ..d }));
    let d2 = d1.after(InitEvent::Frame(desc));
    let e2 = DeviceInit { desc_phys: (desc * 4096) as u64, ..d };
    assert(d2 == (DeviceInit { stage: InitStage::AvailFrame, ..e2 }));
    let d3 = d2.after(InitEvent::Frame(avail));
    let e3 = DeviceInit { avail_phys: (avail * 4096) as u64, ..e2 };
    assert(d3 == (DeviceInit { stage: InitStage::UsedFrame, ..e3 }));
    let d4 = d3.after(InitEvent::Frame(used));
    let e4 = DeviceInit { used_phys: (used * 4096) as u64, ..e3 };
    assert(d4 == (DeviceInit { stage: InitStage::BufferFrame, ..e4 }));
}

/// How the queue is started: the device is told the addresses of the three rings and asked for
/// its doorbell; the queue is enabled, and the device is started last.
pub proof fn law_queue_is_started(d: DeviceInit, doorbell: u32)
    requires
        d.stage == InitStage::WriteDesc,
    ensures
        ({
            let wrote = InitEvent::Wrote;
            let d1 = d.after(wrote);
            let d2 = d1.after(wrote);
            let d3 = d2.after(wrote);
            let d4 = d3.after(InitEvent::Read(doorbell));
            let d5 = d4.after(wrote);
            let d6 = d5.after(wrote);
            &&& d.next_op() == InitOp::Write64(0x20, d.desc_phys)
            &&& d1.next_op() == InitOp::Write64(0x28, d.avail_phys)
            &&& d2.next_op() == InitOp::Write64(0x30, d.used_phys)
            &&& d3.next_op() == InitOp::Read16(0x1e)
            &&& d4.next_op() == InitOp::Write16(0x1c, 1)
            &&& d5.next_op() == InitOp::Write8(0x14, 15)
            &&& d6.next_op() == InitOp::Ready
            &&& d6.notify_off == doorbell % 65536
            &&& d6.qsize == d.qsize
            &&& d6.desc_phys == d.desc_phys
            &&& d6.avail_phys == d.avail_phys
            &&& d6.used_phys == d.used_phys
            &&& d6.buf_phys == d.buf_phys
            &&& d6.driver_low == d.driver_low
            &&& d6.walk == d.walk
        }),
{
    let wrote = InitEvent::Wrote;
    let d1 = d.after(wrote);
    assert(d1 == (DeviceInit { stage: InitStage::WriteAvail, ..d }));
    let d2 = d1.after(wrote);
    assert(d2 == (DeviceInit { stage: InitStage::WriteUsed, ..d }));
    let d3 = d2.after(wrote);
    assert(d3 == (DeviceInit { stage: InitStage::ReadNotifyOff, ..d }));
    let d4 = d3.after(InitEvent::Read(doorbell));
    let e4 = DeviceInit { notify_off: (doorbell % 65536) as u16, ..d };
    assert(d4 == (DeviceInit { stage: InitStage::EnableQueue, ..e4 }));
    let d5 = d4.after(wrote);
    assert(d5 == (DeviceInit { stage: InitStage::DriverOk, ..e4 }));
}

/// The bring-up starts by letting the device access memory and reading where its capabilities
/// start. Without a device it has failed before it starts.
pub proof fn law_bring_up_starts(at: (u8, u8), pointer: u32)
    requires
        pointer < 256,
    ensures
        ({
            let d = started(Some(at));
            let d1 = d.after(InitEvent::Wrote);
            let d2 = d1.after(InitEvent::Read(pointer));
            &&& d.dev == at.0
            &&& d.func == at.1
            &&& d.polls == 0
            &&& d.next_op() == InitOp::EnableBusMaster
            &&& d1.next_op() == InitOp::CfgRead8(0x34)
            &&& d2.walk.cap == pointer / 4 * 4
            &&& d2.walk.steps == 0
            &&& d2.walk.windows.common == 0
            &&& d2.walk.windows.notify_base == 0
            &&& d2.stage == walk_stage(d2.walk)
        }),
        started(None).next_op() == InitOp::Failed(InitFailure::NoDevice),
{
}

/// The second word of a descriptor holds length, flags and the next descriptor side by side, so
/// that each can be read off it.
pub proof fn law_descriptor_fields_stand_side_by_side(d: Desc)
    ensures
        d.laid_words().len() == 2,
        d.laid_words()[0] == d.addr,
        d.laid_words()[1] % 0x1_0000_0000 == d.len,
        d.laid_words()[1] / 0x1_0000_0000 % 0x1_0000 == d.flags,
        d.laid_words()[1] / 0x1_0000_0000_0000 == d.next,
{
    let w = d.len + d.flags * 0x1_0000_0000 + d.next * 0x1_0000_0000_0000;
    let upper = d.flags + d.next * 0x1_0000;
    assert(0 <= w <= u64::MAX);
    vstd::arithmetic::div_mod::lemma_fundamental_div_mod_converse(w, 0x1_0000_0000, upper, d.len as int);
    vstd::arithmetic::div_mod::lemma_fundamental_div_mod_converse(upper, 0x1_0000, d.next as int, d.flags as int);
    vstd::arithmetic::div_mod::lemma_fundamental_div_mod_converse(
        w,
        0x1_0000_0000_0000,
        d.next as int,
        d.len + d.flags * 0x1_0000_0000,
    );
}

/// Where the parts of a request are and who writes them: the device reads the header, writes
/// the status byte, and writes the sector if and only if it is to be read from the disk.
pub proof fn law_request_names_its_buffers(v: VirtioBlk, req_type: u32)
    ensures
        ({
            let c = request_chain(v, req_type, true);
            &&& c.len() == 3
            &&& c[0] == (Desc { addr: v.hdr_phys, len: 16, flags: 1, next: 1 })
            &&& c[1].addr == v.data_phys
            &&& c[1].len == 512
            &&& c[1].next == 2
            &&& c[1].flags == if req_type == 0 {
                3u16
            } else {
                1
            }
            &&& c[2] == (Desc { addr: v.status_phys, len: 1, flags: 2, next: 0 })
        }),
        ({
            let c = request_chain(v, req_type, false);
            &&& c.len() == 2
            &&& c[0] == (Desc { addr: v.hdr_phys, len: 16, flags: 1, next: 1 })
            &&& c[1] == (Desc { addr: v.status_phys, len: 1, flags: 2, next: 0 })
        }),
        VIRTIO_BLK_T_IN == 0,
        VIRTIO_BLK_T_OUT == 1,
        VIRTIO_BLK_T_FLUSH == 4,
        SECTOR == 512,
        QSIZE == 128,
        STATUS_PENDING == 0xff,
        POLL_LIMIT == 50_000_000,
        SMOKE_LBA == 32_760,
{
}

/// Where a request is put: the kind and the whole sector number stand in the header, the ring
/// entry goes to the place that the index has in the ring, within the ring, and the index that
/// is published is the next one, going round after the last.
pub proof fn law_request_is_put_in_its_place(
    s: Submission,
    v: VirtioBlk,
    req_type: u32,
    lba: u64,
    has_data: bool,
    avail_idx: u16,
)
    requires
        v.present,
        v.wf(),
        s.laid_out(v, req_type, lba, has_data, avail_idx),
    ensures
        s.header@[0] == req_type,
        s.header@[1] == lba,
        s.chain@ == request_chain(v, req_type, has_data),
        s.ring_addr == v.avail + 4 + 2 * (avail_idx as int % v.qsize as int),
        v.avail + 4 <= s.ring_addr < v.avail + 4 + 2 * v.qsize,
        s.index_addr == v.avail + 2,
        s.target == (avail_idx + 1) % 65536,
        next_index(avail_idx) == (avail_idx + 1) % 65536,
        s.doorbell == v.notify_base + v.notify_off * v.notify_mul,
{
}

/// A queue is as large as the device allows, but no larger than 128; a frame number stands for
/// the address of the frame.
pub proof fn law_queue_is_no_larger_than_allowed(max: u16, other: u16, frame: u64)
    requires
        frame * 4096 <= u64::MAX,
    ensures
        queue_size(max) <= max,
        queue_size(max) <= 128,
        other <= max && other <= 128 ==> other <= queue_size(max),
        frame_address(InitEvent::Frame(frame)) == frame * 4096,
        frame_address(InitEvent::NoFrame) == 0,
{
}

/// The bytes of the round trip are a counter with some bits turned over: they all differ from
/// one byte to the next, and turning the bits back gives the counter.
pub proof fn law_round_trip_bytes_count(i: int)
    requires
        0 <= i < 512,
    ensures
        smoke_bytes().len() == 512,
        smoke_bytes()[i] ^ 0xA5 == i % 256,
        smoke_bytes()[0] == 0xA5,
{
    lemma_masks(0, (i % 256) as u8);
}

} // verus!
