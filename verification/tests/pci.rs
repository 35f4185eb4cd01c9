//! PCI enumeration over a configuration space that is kept in memory.
use cairn::pci::{
    bar_info, cfg_addr, describe, next_bar, scan, Bar, CfgOp, PciFunction, BARS, CLASS_STORAGE,
    VIRTIO_VENDOR,
};

/// The words of one function, with the bits of each register that can be set.
struct Function {
    words: Vec<u32>,
    writable: Vec<u32>,
}

impl Function {
    fn new() -> Function {
        Function { words: vec![0; 16], writable: vec![0; 16] }
    }

    fn bar(&mut self, i: usize, value: u32, writable: u32) {
        self.words[4 + i] = value;
        self.writable[4 + i] = writable;
    }

    fn access(&mut self, op: CfgOp) -> u32 {
        match op {
            CfgOp::Read(off) => self.words[off as usize / 4],
            CfgOp::Write(off, v) => {
                let i = off as usize / 4;
                self.words[i] = (v & self.writable[i]) | (self.words[i] & !self.writable[i]);
                0
            }
        }
    }

    fn probe(&mut self, i: u8) -> Bar {
        let mut p = bar_info(i);
        while let Some(op) = p.op() {
            let v = self.access(op);
            p.advance(v);
        }
        p.bar()
    }
}

#[test]
fn configuration_addresses() {
    assert_eq!(cfg_addr(0, 0, 0, 0), 0x8000_0000);
    assert_eq!(cfg_addr(1, 2, 3, 0x13), 0x8001_1310);
    assert_eq!(cfg_addr(255, 31, 7, 0xFF), 0x80FF_FFFC);
    // A slot out of range runs into the bus number.
    assert_eq!(cfg_addr(0, 32, 0, 0), 0x8001_0000);
}

#[test]
fn registers_are_sized_and_restored() {
    let mut f = Function::new();
    f.bar(0, 0xC041, 0xFFFF_FFC0);
    f.bar(1, 0xFEBD_1000, 0xFFFF_F000);
    f.bar(2, 0, 0);
    f.bar(4, 0x0000_400C, 0xFFFF_C000);
    f.words[9] = 0x7;
    f.writable[9] = 0xFFFF_FFFF;
    let before = f.words.clone();
    assert_eq!(f.probe(0), Bar { base: 0xC040, size: 0x40, is_io: true, is_64: false });
    assert_eq!(f.probe(1), Bar { base: 0xFEBD_1000, size: 0x1000, is_io: false, is_64: false });
    assert_eq!(f.probe(2), Bar { base: 0, size: 0, is_io: false, is_64: false });
    let wide = f.probe(4);
    assert_eq!(wide, Bar { base: 0x7_0000_4000, size: 0x4000, is_io: false, is_64: true });
    assert_eq!(f.words, before);
    assert_eq!(next_bar(4, &wide), BARS);
    assert_eq!(next_bar(4, &Bar { base: 0, size: 0, is_io: false, is_64: false }), 5);
    // Nothing that can be set: the register is not there.
    let mut dead = Function::new();
    dead.bar(0, 0x1, 0);
    assert_eq!(dead.probe(0).size, 0);
}

#[test]
fn functions_are_described() {
    let f = describe(3, 1, 0x1042_1AF4, 0x0100_0001, 0x0080_0000);
    assert_eq!(
        f,
        PciFunction {
            dev: 3,
            func: 1,
            vendor: VIRTIO_VENDOR,
            device: 0x1042,
            class: CLASS_STORAGE,
            subclass: 0,
            header: 0x80
        }
    );
    assert!(f.has_bars() && f.is_virtio_blk());
    let bridge = describe(0, 0, 0x29C0_8086, 0x0604_0000, 0x0081_0000);
    assert!(!bridge.has_bars() && !bridge.is_virtio_blk());
    assert_eq!((bridge.class, bridge.subclass), (6, 4));
    let net = describe(0, 0, 0x1000_1AF4, 0x0200_0000, 0);
    assert!(!net.is_virtio_blk());
}

#[test]
fn the_walk_skips_what_cannot_be_there() {
    // Slot 0 has one function, slot 3 several, of which number 2 is absent.
    let header = |dev: u8, func: u8| if dev == 3 && func == 0 { 0x80u8 } else { 0 };
    let present = |dev: u8, func: u8| (dev == 0 && func == 0) || (dev == 3 && func != 2);
    let mut visited = Vec::new();
    let mut s = scan();
    while let Some((dev, func)) = s.place() {
        visited.push((dev, func));
        let id = if present(dev, func) { 0x1042_1AF4 } else { 0xFFFF_FFFF };
        s.advance(id, header(dev, func));
    }
    let mut want: Vec<(u8, u8)> = Vec::new();
    for dev in 0..32 {
        want.push((dev, 0));
        if dev == 3 {
            for func in 1..8 {
                want.push((3, func));
            }
        }
    }
    assert_eq!(visited, want);
    assert_eq!(s.place(), None);
}
