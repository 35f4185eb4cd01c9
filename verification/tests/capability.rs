//! Capability entries, object tables and capability tables.
use cairn::capability::{CapEntry, ObjectKind, Rights};
use cairn::table::{CapTable, ObjectTable, Status, CAP_TABLE_SLOTS, OBJECT_TABLE_SIZE};

fn rights(bits: u16) -> Rights {
    Rights::from_bits_truncate(bits)
}

fn kind(tag: u16) -> ObjectKind {
    ObjectKind::from_raw(tag)
}

#[test]
fn encode_decode_roundtrip_lossless() {
    let cases: &[(u64, u16, u32, u16, u16)] = &[
        (0, 0, 0, 0, 0),
        (0x0000_FFFF_FFFF_FFFF, 0x00FF, 0xFFFF_FFFF, 11, 0xABCD),
        (1, rights(Rights::INVOKE).bits(), 42, kind(ObjectKind::ENDPOINT).raw(), 7),
        (
            123456789,
            (rights(Rights::READ) | rights(Rights::DELEGATE) | rights(Rights::SEAL)).bits(),
            1,
            kind(ObjectKind::MEMORY).raw(),
            0xFFFF,
        ),
    ];

    for &(oid, rbits, ep, tag, bd) in cases {
        let cap = CapEntry {
            object_id: oid,
            rights: Rights::from_bits_truncate(rbits),
            epoch: ep,
            type_tag: ObjectKind::from_raw(tag),
            badge: bd,
        };
        let enc = cap.encode();
        let dec = CapEntry::decode(enc);
        assert_eq!(cap, dec, "roundtrip failed for {:?}", cap);
        assert_eq!(enc, dec.encode());
    }
}

#[test]
fn encode_places_every_field() {
    let cap = CapEntry {
        object_id: 0xFFFF_0000_0000_0005,
        rights: rights(Rights::READ | Rights::SEAL),
        epoch: 0x0102_0304,
        type_tag: kind(ObjectKind::EXTENT),
        badge: 0xBEEF,
    };
    assert_eq!(cap.encode(), 0xBEEF_0008_0102_0304_0081_0000_0000_0005);
    // Reserved rights are dropped when a value is taken apart.
    let dec = CapEntry::decode(0x0000_0000_0000_0000_FF01_0000_0000_0000);
    assert_eq!(dec.rights.bits(), 0x01);
    assert_eq!(dec.object_id, 0);
}

#[test]
fn rights_operations() {
    assert_eq!(rights(0xFFFF).bits(), 0x00FF);
    assert_eq!(Rights::all().bits(), 0xFF);
    assert_eq!(Rights::empty().bits(), 0);
    let mut r = rights(Rights::READ);
    r.insert(rights(Rights::WRITE | Rights::MAP));
    assert_eq!(r.bits(), 0x23);
    r.remove(rights(Rights::READ | Rights::GRANT_CAP));
    assert_eq!(r.bits(), 0x22);
    assert!(r.contains(rights(Rights::WRITE)));
    assert!(r.contains(Rights::empty()));
    assert!(!r.contains(rights(Rights::WRITE | Rights::REVOKE)));
    assert_eq!((r & rights(Rights::MAP)).bits(), 0x20);
    assert_eq!((r | rights(Rights::SEAL)).bits(), 0xA2);
}

#[test]
fn i2_revocation_completeness() {
    let mut ot = ObjectTable::new();
    let oid = ot.create_object(kind(ObjectKind::NOTIFICATION)).expect("create");

    let mut ct = CapTable::new();
    let cptr = ct
        .mint(&ot, oid, rights(Rights::INVOKE) | rights(Rights::READ), 0x42)
        .expect("mint");

    // Pre-revoke invoke works (if we ask for rights the cap has).
    assert_eq!(ct.invoke(&ot, cptr, 1, rights(Rights::INVOKE)), Status::Success);

    // Revoke the object (epoch bump).
    assert_eq!(ot.revoke(oid), Status::Success);

    // Now the old cap must be revoked for any invoke attempt.
    assert_eq!(
        ct.invoke(&ot, cptr, 1, rights(Rights::INVOKE)),
        Status::ErrRevoked
    );
    assert_eq!(
        ct.invoke(&ot, cptr, 99, rights(Rights::READ) | rights(Rights::INVOKE)),
        Status::ErrRevoked
    );

    // A freshly minted cap after revoke works again (new epoch).
    let cptr2 = ct
        .mint(&ot, oid, rights(Rights::INVOKE), 0x99)
        .expect("mint after revoke");
    assert_eq!(ct.invoke(&ot, cptr2, 1, rights(Rights::INVOKE)), Status::Success);
}

#[test]
fn i3_no_rights_amplification() {
    // Pure bitwise property (covers every possible mask/parent pair).
    for p in 0u16..=0xFFFF {
        for m in 0u16..=0xFFFF {
            let parent = Rights::from_bits_truncate(p);
            let mask = Rights::from_bits_truncate(m);
            let child = parent & mask;
            assert_eq!(
                child.bits() & parent.bits(),
                child.bits(),
                "amplification: parent={:04x} mask={:04x} child={:04x}",
                p,
                m,
                child.bits()
            );
        }
    }

    // End-to-end via delegate (when preconditions allow).
    let mut ot = ObjectTable::new();
    let oid = ot.create_object(kind(ObjectKind::DOMAIN)).expect("obj");

    let mut src = CapTable::new();
    let mut dst = CapTable::new();

    let parent = rights(Rights::READ) | rights(Rights::WRITE) | rights(Rights::DELEGATE) | rights(Rights::MAP);
    let src_cptr = src.mint(&ot, oid, parent, 1).expect("mint src");

    // mask tries to add INVOKE (which parent does not have) — must not appear in child.
    let mask = rights(Rights::READ) | rights(Rights::INVOKE);
    let dst_cptr = src
        .delegate(&ot, src_cptr, mask, 0xBEEF, &mut dst)
        .expect("delegate");

    let child = dst.lookup(dst_cptr, &ot).expect("child live");
    assert!(!child.rights.contains(rights(Rights::INVOKE)));
    assert!(child.rights.contains(rights(Rights::READ)));
    assert!(!child.rights.contains(rights(Rights::WRITE))); // not in mask
    assert_eq!(child.badge, 0xBEEF);
    // Subset check
    assert!((child.rights.bits() & parent.bits()) == child.rights.bits());
}

#[test]
fn i4_fresh_mint_invoke_iff_invoke_right() {
    let mut ot = ObjectTable::new();
    let oid = ot.create_object(kind(ObjectKind::ENDPOINT)).expect("obj");

    let mut ct = CapTable::new();

    let with_invoke = rights(Rights::INVOKE) | rights(Rights::GRANT_CAP);
    let without = rights(Rights::READ) | rights(Rights::WRITE) | rights(Rights::DELEGATE);

    let c_ok = ct.mint(&ot, oid, with_invoke, 10).expect("mint ok");
    let c_bad = ct.mint(&ot, oid, without, 11).expect("mint bad");

    assert_eq!(ct.invoke(&ot, c_ok, 0, rights(Rights::INVOKE)), Status::Success);
    assert_eq!(ct.invoke(&ot, c_bad, 0, rights(Rights::INVOKE)), Status::ErrRights);

    // Even if cap has INVOKE, asking for extra rights it doesn't hold fails.
    assert_eq!(
        ct.invoke(&ot, c_ok, 0, rights(Rights::INVOKE) | rights(Rights::SEAL)),
        Status::ErrRights
    );
}

#[test]
fn seal_clears_delegate_monotonically() {
    let mut ot = ObjectTable::new();
    let oid = ot.create_object(kind(ObjectKind::CAP_TABLE)).expect("obj");

    let mut ct = CapTable::new();
    let cptr = ct
        .mint(&ot, oid, rights(Rights::DELEGATE) | rights(Rights::INVOKE), 0)
        .expect("mint");

    assert!(ct.lookup(cptr, &ot).unwrap().rights.contains(rights(Rights::DELEGATE)));

    assert_eq!(ct.seal(cptr), Status::Success);
    let after = ct.lookup(cptr, &ot).unwrap();
    assert!(!after.rights.contains(rights(Rights::DELEGATE)));
    assert!(after.rights.contains(rights(Rights::INVOKE))); // other rights preserved

    // Idempotent.
    assert_eq!(ct.seal(cptr), Status::Success);

    // And what is sealed cannot be handed on.
    let mut dst = CapTable::new();
    assert_eq!(
        ct.delegate(&ot, cptr, Rights::all(), 0, &mut dst),
        Err(Status::ErrRights)
    );
}

#[test]
fn bad_cptr_and_type_errors() {
    let mut ot = ObjectTable::new();
    let oid = ot.create_object(kind(ObjectKind::IRQ_HANDLER)).expect("obj");

    let mut ct = CapTable::new();
    let cptr = ct.mint(&ot, oid, rights(Rights::INVOKE), 0).expect("mint");

    assert_eq!(ct.invoke(&ot, 0xFFFF, 0, rights(Rights::INVOKE)), Status::ErrBadCPtr);
    assert_eq!(ct.lookup(0xFFFF, &ot), Err(Status::ErrBadCPtr));

    // Manually corrupt the slot's type (simulating bad kernel state — should never happen).
    if let Some(e) = &mut ct.slots[cptr as usize] {
        e.type_tag = ObjectKind::from_raw(0xFFFF);
    }
    assert_eq!(ct.invoke(&ot, cptr, 0, rights(Rights::INVOKE)), Status::ErrType);
}

#[test]
fn object_ids_are_taken_lowest_first() {
    let mut ot = ObjectTable::new();
    for i in 0..OBJECT_TABLE_SIZE as u64 {
        assert_eq!(ot.create_object(kind(ObjectKind::MEMORY)), Some(i));
    }
    assert_eq!(ot.create_object(kind(ObjectKind::MEMORY)), None);
    ot.destroy_object(17);
    assert!(!ot.metas[17].present);
    assert_eq!(ot.revoke(17), Status::ErrBadCPtr);
    assert_eq!(ot.revoke(5000), Status::ErrBadCPtr);
    ot.destroy_object(5000);
    assert_eq!(ot.create_object(kind(ObjectKind::ENDPOINT)), Some(17));
    assert_eq!(ot.metas[17].kind, kind(ObjectKind::ENDPOINT));
    assert_eq!(ot.metas[17].current_epoch, 0);
}

#[test]
fn last_epoch_retires_the_object() {
    let mut ot = ObjectTable::new();
    let oid = ot.create_object(kind(ObjectKind::MEMORY)).unwrap();
    let mut ct = CapTable::new();
    let first = ct.mint(&ot, oid, Rights::all(), 0).unwrap();
    ot.metas[0].current_epoch = u32::MAX - 1;
    assert_eq!(ot.revoke(oid), Status::Success);
    assert_eq!(ot.metas[0].current_epoch, u32::MAX);
    let last = ct.mint(&ot, oid, Rights::all(), 0).unwrap();
    assert_eq!(ct.invoke(&ot, last, 0, rights(Rights::INVOKE)), Status::Success);
    assert_eq!(ot.revoke(oid), Status::Success);
    assert!(!ot.metas[0].present);
    assert_eq!(ct.lookup(first, &ot), Err(Status::ErrRevoked));
    assert_eq!(ct.lookup(last, &ot), Err(Status::ErrRevoked));
    assert_eq!(ot.revoke(oid), Status::ErrBadCPtr);
    assert_eq!(ct.mint(&ot, oid, Rights::all(), 0), Err(Status::ErrBadCPtr));
    ot.destroy_object(oid);
    assert_eq!(ot.create_object(kind(ObjectKind::MEMORY)), Some(1));
    assert_eq!(ct.lookup(first, &ot), Err(Status::ErrRevoked));
}

#[test]
fn full_tables_refuse() {
    let mut ot = ObjectTable::new();
    let oid = ot.create_object(kind(ObjectKind::MEMORY)).unwrap();
    let mut ct = CapTable::new();
    assert_eq!(ct.mint(&ot, 3, Rights::all(), 0), Err(Status::ErrBadCPtr));
    assert_eq!(ct.mint(&ot, 1 << 40, Rights::all(), 0), Err(Status::ErrBadCPtr));
    for i in 0..CAP_TABLE_SLOTS as u16 {
        assert_eq!(ct.mint(&ot, oid, Rights::all(), 0), Ok(i));
    }
    assert_eq!(ct.mint(&ot, oid, Rights::all(), 0), Err(Status::ErrBadCPtr));
    // Delegation into a full table fails, out of it into a free one it works.
    let mut src = CapTable::new();
    let s = src.mint(&ot, oid, Rights::all(), 0).unwrap();
    assert_eq!(src.delegate(&ot, s, Rights::all(), 0, &mut ct), Err(Status::ErrBadCPtr));
    ct.slots[200] = None;
    assert_eq!(src.delegate(&ot, s, Rights::all(), 9, &mut ct), Ok(200));
    assert_eq!(ct.seal(300), Status::ErrBadCPtr);
    assert_eq!(CapTable::new().seal(0), Status::ErrBadCPtr);
}

#[test]
fn delegation_asks_for_the_right_before_validity() {
    let mut ot = ObjectTable::new();
    let oid = ot.create_object(kind(ObjectKind::MEMORY)).unwrap();
    let mut src = CapTable::new();
    let mut dst = CapTable::new();
    let sealed = src.mint(&ot, oid, rights(Rights::INVOKE), 0).unwrap();
    let open = src.mint(&ot, oid, rights(Rights::INVOKE | Rights::DELEGATE), 0).unwrap();
    ot.revoke(oid);
    assert_eq!(src.delegate(&ot, sealed, Rights::all(), 0, &mut dst), Err(Status::ErrRights));
    assert_eq!(src.delegate(&ot, open, Rights::all(), 0, &mut dst), Err(Status::ErrRevoked));
    assert_eq!(src.delegate(&ot, 77, Rights::all(), 0, &mut dst), Err(Status::ErrBadCPtr));
    ot.destroy_object(oid);
    // The epoch has moved on, so that is what is reported.
    assert_eq!(src.delegate(&ot, open, Rights::all(), 0, &mut dst), Err(Status::ErrRevoked));
    // An object that is gone at the same epoch is of the wrong type.
    let oid2 = ot.create_object(kind(ObjectKind::MEMORY)).unwrap();
    let c = src.mint(&ot, oid2, Rights::all(), 0).unwrap();
    ot.destroy_object(oid2);
    assert_eq!(src.lookup(c, &ot), Err(Status::ErrType));
    // An entry that names no object at all is a bad pointer.
    if let Some(e) = &mut src.slots[c as usize] {
        e.object_id = 1 << 40;
    }
    assert_eq!(src.invoke(&ot, c, 0, Rights::empty()), Status::ErrBadCPtr);
    assert_eq!(Status::ErrMethod.code(), 5);
    assert_eq!(Status::Success.code(), 0);
}
