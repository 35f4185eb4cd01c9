//! The virtio disk, with a device that is played by the test.
use cairn::virtio_blk::{
    attach, device_queue_desc, flush, init, poll, read_sector, smoke_pattern, smoke_read,
    smoke_test, smoke_write, submit, succeeded, write_sector, CapWalk, Desc, DeviceInit, FlushPlan, InitEvent, InitFailure, InitOp,
    InitStage, Poll, VirtioBlk, Windows, CC_DEVICE_FEATURE, CC_DEVICE_STATUS, CC_QUEUE_NOTIFY_OFF,
    CC_QUEUE_SIZE, MAX_CAPS, POLL_LIMIT, VIRTIO_BLK_T_FLUSH, VIRTIO_BLK_T_IN,
};

/// A device with these properties.
struct Device {
    low: u32,
    high: u32,
    keeps_features: bool,
    max_queue: u16,
    frames: u64,
    selected: u32,
    status: u8,
    maps: bool,
    config: [u8; 256],
    log: Vec<InitOp>,
}

/// A capability that describes a window behind register 4.
fn window(config: &mut [u8; 256], cap: usize, next: u8, kind: u8, offset: u32) {
    config[cap] = 9;
    config[cap + 1] = next;
    config[cap + 3] = kind;
    config[cap + 4] = 4;
    config[cap + 8..cap + 12].copy_from_slice(&offset.to_le_bytes());
    config[cap + 12..cap + 16].copy_from_slice(&0x1000u32.to_le_bytes());
}

/// Configuration space with the three windows, and a capability of another kind.
fn config() -> [u8; 256] {
    let mut c = [0; 256];
    c[0x34] = 0x40;
    window(&mut c, 0x40, 0x50, 1, 0);
    c[0x50] = 0x11;
    c[0x51] = 0x60;
    window(&mut c, 0x60, 0x74, 2, 0x3000);
    c[0x70] = 4;
    window(&mut c, 0x74, 0, 4, 0x2000);
    c
}

fn modern() -> Device {
    Device {
        low: 0x0000_FE54,
        high: 1,
        keeps_features: true,
        max_queue: 256,
        frames: 4,
        selected: 0,
        status: 0,
        maps: true,
        config: config(),
        log: Vec::new(),
    }
}

impl Device {
    fn answer(&mut self, op: InitOp) -> InitEvent {
        self.log.push(op);
        match op {
            InitOp::Write32(0, v) => {
                self.selected = v;
                InitEvent::Wrote
            }
            InitOp::Write8(CC_DEVICE_STATUS, v) => {
                self.status = if self.keeps_features { v } else { v & !8 };
                InitEvent::Wrote
            }
            InitOp::CfgRead8(off) => InitEvent::Read(self.config[off as usize] as u32),
            InitOp::CfgRead32(off) => {
                let at = off as usize;
                let c = &self.config;
                InitEvent::Read(u32::from_le_bytes([c[at], c[at + 1], c[at + 2], c[at + 3]]))
            }
            InitOp::BarBase(4) => InitEvent::Address(0xFE00_0000),
            InitOp::MapRange(phys, 0x1000) if self.maps => {
                InitEvent::Address(phys - 0xFE00_0000 + 0x9000_0000)
            }
            InitOp::MapRange(_, _) => InitEvent::NotMapped,
            InitOp::Read8(CC_DEVICE_STATUS) => InitEvent::Read(self.status as u32),
            InitOp::Read32(CC_DEVICE_FEATURE) => {
                InitEvent::Read(if self.selected == 0 { self.low } else { self.high })
            }
            InitOp::Read16(CC_QUEUE_SIZE) => InitEvent::Read(self.max_queue as u32),
            InitOp::Read16(CC_QUEUE_NOTIFY_OFF) => InitEvent::Read(3),
            InitOp::TakeFrame => {
                if self.frames == 0 {
                    return InitEvent::NoFrame;
                }
                self.frames -= 1;
                InitEvent::Frame(10 + self.frames)
            }
            _ => InitEvent::Wrote,
        }
    }

    fn bring_up(&mut self) -> DeviceInit {
        let mut d = init(Some((3, 0)));
        loop {
            match d.op() {
                InitOp::Ready | InitOp::Failed(_) => return d,
                op => {
                    let ev = self.answer(op);
                    d.advance(ev);
                }
            }
        }
    }
}

fn windows() -> Windows {
    Windows {
        common: 0x9000_0000,
        notify_base: 0x9000_3000,
        notify_phys: 0xFE00_3000,
        notify_mul: 4,
        device_cfg: 0x9000_2000,
    }
}

fn disk() -> VirtioBlk {
    attach(0x1_0000_0000, &windows(), &modern().bring_up())
}

#[test]
fn device_is_brought_up() {
    let mut dev = modern();
    let d = dev.bring_up();
    assert_eq!(d.stage, InitStage::Ready);
    assert_eq!((d.dev, d.func, d.walk.windows), (3, 0, windows()));
    assert_eq!((d.qsize, d.notify_off, d.driver_low), (128, 3, 0x200));
    assert_eq!((d.desc_phys, d.avail_phys, d.used_phys, d.buf_phys), (0xD000, 0xC000, 0xB000, 0xA000));
    assert_eq!(dev.status, 15);
    // The queue is told physical addresses, and enabled before the driver is ready.
    let tail: Vec<InitOp> = dev.log[dev.log.len() - 6..].to_vec();
    assert_eq!(
        tail,
        vec![
            InitOp::Write64(0x20, 0xD000),
            InitOp::Write64(0x28, 0xC000),
            InitOp::Write64(0x30, 0xB000),
            InitOp::Read16(0x1E),
            InitOp::Write16(0x1C, 1),
            InitOp::Write8(0x14, 15)
        ]
    );
    assert_eq!(dev.log[..3], [InitOp::EnableBusMaster, InitOp::CfgRead8(0x34), InitOp::CfgRead8(0x40)]);
    assert!(dev.log.contains(&InitOp::MapRange(0xFE00_3000, 0x1000)));
    // The device is touched only once its windows are known.
    let reset = dev.log.iter().position(|op| *op == InitOp::Write8(0x14, 0)).unwrap();
    assert_eq!(dev.log[reset - 1], InitOp::MapRange(0xFE00_2000, 0x1000));
    let mut small = modern();
    small.max_queue = 16;
    small.low = 0;
    let d = small.bring_up();
    assert_eq!((d.qsize, d.driver_low), (16, 0));
}

#[test]
fn bring_up_failures() {
    let mut d = modern();
    d.high = 0;
    assert_eq!(d.bring_up().stage, InitStage::Failed(InitFailure::NotModern));
    let mut d = modern();
    d.keeps_features = false;
    assert_eq!(d.bring_up().stage, InitStage::Failed(InitFailure::FeaturesRejected));
    let mut d = modern();
    d.max_queue = 0;
    assert_eq!(d.bring_up().stage, InitStage::Failed(InitFailure::NoQueue));
    let mut d = modern();
    d.frames = 3;
    assert_eq!(d.bring_up().stage, InitStage::Failed(InitFailure::NoMemory));
    let d = init(None);
    assert_eq!(d.op(), InitOp::Failed(InitFailure::NoDevice));
    let mut d = modern();
    d.maps = false;
    assert_eq!(d.bring_up().stage, InitStage::Failed(InitFailure::NotMapped));
    let mut d = modern();
    d.config[0x34] = 0;
    assert_eq!(d.bring_up().stage, InitStage::Failed(InitFailure::NoWindows));
    let mut d = modern();
    d.config[0x51] = 0;
    assert_eq!(d.bring_up().stage, InitStage::Failed(InitFailure::NoWindows));
    // A list that goes round in circles is given up after a bounded number of steps.
    let mut d = modern();
    d.config[0x41] = 0x40;
    let failed = d.bring_up();
    assert_eq!(failed.stage, InitStage::Failed(InitFailure::NoWindows));
    assert_eq!(failed.walk.steps, MAX_CAPS);
    // A device that never resets is asked a bounded number of times.
    let mut dev = modern();
    let mut d = init(Some((3, 0)));
    while d.stage != InitStage::AwaitReset {
        let ev = dev.answer(d.op());
        d.advance(ev);
    }
    d.polls = POLL_LIMIT - 1;
    d.advance(InitEvent::Read(1));
    assert_eq!(d.stage, InitStage::AwaitReset);
    d.advance(InitEvent::Read(1));
    assert_eq!(d.stage, InitStage::Failed(InitFailure::ResetTimeout));
    d.advance(InitEvent::Read(0));
    assert_eq!(d.op(), InitOp::Failed(InitFailure::ResetTimeout));
}

#[test]
fn windows_are_found() {
    let mut w = CapWalk::start(0x43);
    assert_eq!(w.at(), Some(0x40));
    w.note_window(1, 0x1000, 0x2000, 9);
    assert_eq!(w.finish(), None);
    w.advance(0x50);
    w.note_window(2, 0x3000, 0x4000, 4);
    w.note_window(4, 0x5000, 0x6000, 7);
    w.note_window(5, 0x7000, 0x8000, 7);
    w.advance(0x03);
    assert_eq!(w.at(), None);
    assert_eq!(
        w.finish(),
        Some(Windows {
            common: 0x1000,
            notify_base: 0x3000,
            notify_phys: 0x4000,
            notify_mul: 4,
            device_cfg: 0x5000
        })
    );
    // A list that goes round in circles ends.
    let mut w = CapWalk::start(0x40);
    let mut n = 0;
    while w.at().is_some() {
        w.advance(0x40);
        n += 1;
    }
    assert_eq!(n, MAX_CAPS);
}

#[test]
fn requests_are_laid_out() {
    let v = disk();
    assert_eq!((v.desc, v.avail, v.used), (0x1_0000_D000, 0x1_0000_C000, 0x1_0000_B000));
    assert_eq!((v.hdr, v.data, v.status), (0x1_0000_A000, 0x1_0000_A200, 0x1_0000_A400));
    let r = read_sector(&v, 77, 130).unwrap();
    assert_eq!(r.header, [0, 77]);
    assert_eq!(
        r.chain,
        vec![
            Desc { addr: 0xA000, len: 16, flags: 1, next: 1 },
            Desc { addr: 0xA200, len: 512, flags: 3, next: 2 },
            Desc { addr: 0xA400, len: 1, flags: 2, next: 0 }
        ]
    );
    assert_eq!(r.chain[1].words(), [0xA200, 0x0002_0003_0000_0200]);
    // The ring has 128 entries, so entry 130 is the third.
    assert_eq!(r.ring_addr, 0x1_0000_C000 + 4 + 2 * 2);
    assert_eq!((r.index_addr, r.target), (0x1_0000_C002, 131));
    assert_eq!(r.doorbell, 0x9000_3000 + 12);
    let w = write_sector(&v, 78, u16::MAX).unwrap();
    assert_eq!((w.header, w.chain[1].flags, w.target), ([1, 78], 1, 0));
    match flush(&v, 0) {
        FlushPlan::Submit(f) => {
            assert_eq!(f.header, [VIRTIO_BLK_T_FLUSH as u64, 0]);
            assert_eq!(f.chain.len(), 2);
            assert_eq!(f.chain[1], Desc { addr: 0xA400, len: 1, flags: 2, next: 0 });
        }
        _ => panic!("no flush"),
    }
    let q = device_queue_desc(&v).unwrap();
    assert_eq!((q.buf_phys, q.doorbell_phys, q.qsize), (0xA000, 0xFE00_300C, 128));
}

#[test]
fn absent_disk_takes_no_requests() {
    let v = VirtioBlk::absent();
    assert!(submit(&v, VIRTIO_BLK_T_IN, 0, true, 0).is_none());
    assert!(read_sector(&v, 0, 0).is_none() && write_sector(&v, 0, 0).is_none());
    assert!(matches!(flush(&v, 0), FlushPlan::Fails));
    assert_eq!(device_queue_desc(&v), None);
    let plain = VirtioBlk { flush_ok: false, ..disk() };
    assert!(matches!(flush(&plain, 0), FlushPlan::Nothing));
}

#[test]
fn completion_is_exact() {
    let mut v = disk();
    assert_eq!(poll(&mut v, 5, 4, 0), Poll::Again);
    assert_eq!(poll(&mut v, 5, 6, POLL_LIMIT - 1), Poll::Again);
    assert_eq!(poll(&mut v, 5, 5, POLL_LIMIT), Poll::Done);
    assert!(v.present);
    assert_eq!(poll(&mut v, 5, 4, POLL_LIMIT), Poll::TimedOut);
    assert!(!v.present);
    assert!(read_sector(&v, 0, 0).is_none());
    assert!(succeeded(0) && !succeeded(1) && !succeeded(0xFF));
}

#[test]
fn round_trip_at_boot() {
    let p = smoke_pattern();
    assert_eq!((p[0], p[1], p[255], p[256]), (0xA5, 0xA4, 0x5A, 0xA5));
    assert_eq!(smoke_write(), (32_760, p));
    assert_eq!((smoke_read(true), smoke_read(false)), (Some(32_760), None));
    assert!(smoke_test(true, Some(p)));
    assert!(!smoke_test(false, Some(p)));
    assert!(!smoke_test(true, None));
    let mut other = p;
    other[511] ^= 1;
    assert!(!smoke_test(true, Some(other)));
}
