//! Capability entries and the rights they carry.
//!
//! A capability is a 128-bit value:
//!
//! | bits         | field       |
//! |--------------|-------------|
//! | `[0, 48)`    | `object_id` |
//! | `[48, 64)`   | `rights`    |
//! | `[64, 96)`   | `epoch`     |
//! | `[96, 112)`  | `type_tag`  |
//! | `[112, 128)` | `badge`     |
use vstd::prelude::*;

verus! {

/// A set of rights, one bit each. Bits 8 to 15 are reserved and stay clear in
/// every set that this module builds.
#[derive(Clone, Copy, Debug, Default, PartialEq, Eq, Hash, Structural)]
pub struct Rights {
    pub bits: u16,
}

impl Rights {
    pub const READ: u16 = 0x01;
    pub const WRITE: u16 = 0x02;
    pub const INVOKE: u16 = 0x04;
    pub const DELEGATE: u16 = 0x08;
    pub const REVOKE: u16 = 0x10;
    pub const MAP: u16 = 0x20;
    pub const GRANT_CAP: u16 = 0x40;
    pub const SEAL: u16 = 0x80;
    /// Every right that is defined.
    pub const KNOWN: u16 = 0xFF;

    /// Only defined rights are present.
    pub open spec fn wf(self) -> bool {
        self.bits & Self::KNOWN == self.bits
    }

    /// The set of the defined rights among `bits`.
    pub open spec fn of(bits: u16) -> Rights {
        Rights { bits: bits & Self::KNOWN }
    }

    /// Every right of `other` is in `self`.
    pub open spec fn includes(self, other: Rights) -> bool {
        self.bits & other.bits == other.bits
    }

    /// The rights in both sets.
    pub open spec fn meet(self, other: Rights) -> Rights {
        Rights { bits: self.bits & other.bits }
    }

    /// The rights in either set.
    pub open spec fn join(self, other: Rights) -> Rights {
        Rights { bits: self.bits | other.bits }
    }

    /// The rights of `self` that are not in `other`.
    pub open spec fn without(self, other: Rights) -> Rights {
        Rights { bits: self.bits & !other.bits }
    }

    /// The raw bits of the set.
    pub fn bits(&self) -> (r: u16)
        ensures
            r == self.bits,
    {
        self.bits
    }

    /// The set with no right in it.
    pub fn empty() -> (r: Rights)
        ensures
            r.bits == 0,
            r.wf(),
    {
        proof {
            lemma_known(0);
        }
        Rights { bits: 0 }
    }

    /// The set of all defined rights.
    pub fn all() -> (r: Rights)
        ensures
            r.bits == Self::KNOWN,
            r.wf(),
    {
        proof {
            lemma_known(0);
        }
        Rights { bits: Self::KNOWN }
    }

    /// Keeps the defined rights among `bits` and drops the reserved ones.
    pub fn from_bits_truncate(bits: u16) -> (r: Rights)
        ensures
            r == Self::of(bits),
            r.wf(),
    {
        proof {
            lemma_known(bits);
        }
        Rights { bits: bits & Self::KNOWN }
    }

    /// Whether every right of `other` is in the set.
    pub fn contains(&self, other: Rights) -> (r: bool)
        ensures
            r == self.includes(other),
    {
        self.bits & other.bits == other.bits
    }

    /// Adds the rights of `other`.
    pub fn insert(&mut self, other: Rights)
        ensures
            *final(self) == old(self).join(other),
    {
        self.bits = self.bits | other.bits;
    }

    /// Takes the rights of `other` away.
    pub fn remove(&mut self, other: Rights)
        ensures
            *final(self) == old(self).without(other),
    {
        self.bits = self.bits & !other.bits;
    }
}

/// What is cut to the defined rights stays as it is when it is cut again.
proof fn lemma_known(bits: u16)
    by (bit_vector)
    ensures
        (bits & 0xFF) & 0xFF == bits & 0xFF,
        0u16 & 0xFF == 0,
        0xFFu16 & 0xFF == 0xFF,
{
}

impl core::ops::BitAnd for Rights {
    type Output = Rights;

    fn bitand(self, rhs: Rights) -> (r: Rights) {
        Rights { bits: self.bits & rhs.bits }
    }
}

impl vstd::std_specs::ops::BitAndSpecImpl for Rights {
    open spec fn obeys_bitand_spec() -> bool {
        true
    }

    open spec fn bitand_req(self, rhs: Rights) -> bool {
        true
    }

    open spec fn bitand_spec(self, rhs: Rights) -> Rights {
        self.meet(rhs)
    }
}

impl core::ops::BitOr for Rights {
    type Output = Rights;

    fn bitor(self, rhs: Rights) -> (r: Rights) {
        Rights { bits: self.bits | rhs.bits }
    }
}

impl vstd::std_specs::ops::BitOrSpecImpl for Rights {
    open spec fn obeys_bitor_spec() -> bool {
        true
    }

    open spec fn bitor_req(self, rhs: Rights) -> bool {
        true
    }

    open spec fn bitor_spec(self, rhs: Rights) -> Rights {
        self.join(rhs)
    }
}

/// The kind of an object, as a 16-bit tag.
#[derive(Clone, Copy, Debug, Default, PartialEq, Eq, Hash, Structural)]
pub struct ObjectKind {
    pub tag: u16,
}

impl ObjectKind {
    pub const NULL: u16 = 0;
    pub const UNTYPED: u16 = 1;
    pub const MEMORY: u16 = 2;
    pub const ADDRESS_SPACE: u16 = 3;
    pub const DOMAIN: u16 = 4;
    pub const ENDPOINT: u16 = 5;
    pub const NOTIFICATION: u16 = 6;
    pub const TIME_SLICE: u16 = 7;
    pub const EXTENT: u16 = 8;
    pub const DEVICE_QUEUE: u16 = 9;
    pub const CAP_TABLE: u16 = 10;
    pub const IRQ_HANDLER: u16 = 11;

    /// The tag as a number.
    pub fn raw(self) -> (r: u16)
        ensures
            r == self.tag,
    {
        self.tag
    }

    /// The kind with tag `v`, whether or not it is one of the named ones.
    pub fn from_raw(v: u16) -> (r: ObjectKind)
        ensures
            r.tag == v,
    {
        ObjectKind { tag: v }
    }
}

/// A capability as the kernel keeps it in a slot of a capability table.
#[derive(Clone, Copy, Debug, Default, PartialEq, Eq, Hash, Structural)]
pub struct CapEntry {
    pub object_id: u64,
    pub rights: Rights,
    pub epoch: u32,
    pub type_tag: ObjectKind,
    pub badge: u16,
}

impl CapEntry {
    /// The fields fit the 128-bit layout: the object id has 48 bits and only
    /// defined rights are present.
    pub open spec fn representable(self) -> bool {
        self.object_id < 0x1_0000_0000_0000 && self.rights.wf()
    }

    /// The 128-bit layout as a number: each field stands at the weight of its
    /// lowest bit, and the object id is cut to 48 bits.
    pub open spec fn layout(self) -> int {
        self.object_id % 0x1_0000_0000_0000
            + self.rights.bits * 0x1_0000_0000_0000
            + self.epoch * 0x1_0000_0000_0000_0000
            + self.type_tag.tag * 0x1_0000_0000_0000_0000_0000_0000
            + self.badge * 0x1_0000_0000_0000_0000_0000_0000_0000
    }

    /// The entry that a 128-bit value stands for: every field is the digit group
    /// at its weight, and reserved rights are dropped.
    pub open spec fn from_layout(val: u128) -> CapEntry {
        CapEntry {
            object_id: (val % 0x1_0000_0000_0000) as u64,
            rights: Rights::of((val / 0x1_0000_0000_0000 % 0x1_0000) as u16),
            epoch: (val / 0x1_0000_0000_0000_0000 % 0x1_0000_0000) as u32,
            type_tag: ObjectKind {
                tag: (val / 0x1_0000_0000_0000_0000_0000_0000 % 0x1_0000) as u16,
            },
            badge: (val / 0x1_0000_0000_0000_0000_0000_0000_0000 % 0x1_0000) as u16,
        }
    }

    /// Packs the entry into its 128-bit layout.
    pub fn encode(&self) -> (r: u128)
        ensures
            r == self.layout(),
    {
        let oid: u128 = (self.object_id & 0x0000_FFFF_FFFF_FFFF) as u128;
        let r: u128 = (self.rights.bits() as u128) << 48;
        let ep: u128 = (self.epoch as u128) << 64;
        let tt: u128 = (self.type_tag.raw() as u128) << 96;
        let bd: u128 = (self.badge as u128) << 112;
        proof {
            lemma_pack(
                self.object_id,
                self.rights.bits,
                self.epoch,
                self.type_tag.tag,
                self.badge,
            );
        }
        oid | r | ep | tt | bd
    }

    /// Unpacks a 128-bit value.
    pub fn decode(val: u128) -> (r: CapEntry)
        ensures
            r == Self::from_layout(val),
            r.representable(),
    {
        let object_id: u128 = val & 0x0000_FFFF_FFFF_FFFF;
        let rights = Rights::from_bits_truncate(((val >> 48) & 0xFFFF) as u16);
        let epoch: u32 = ((val >> 64) & 0xFFFF_FFFF) as u32;
        let type_tag = ObjectKind::from_raw(((val >> 96) & 0xFFFF) as u16);
        let badge: u16 = ((val >> 112) & 0xFFFF) as u16;
        proof {
            lemma_unpack(val);
        }
        CapEntry { object_id: object_id as u64, rights, epoch, type_tag, badge }
    }
}

/// Or-ing the shifted fields adds up their weighted values.
proof fn lemma_pack(oid: u64, rights: u16, epoch: u32, tag: u16, badge: u16)
    by (bit_vector)
    ensures
        ((oid & 0x0000_FFFF_FFFF_FFFF) as u128) | ((rights as u128) << 48) | ((epoch as u128) << 64)
            | ((tag as u128) << 96) | ((badge as u128) << 112) == oid % 0x1_0000_0000_0000 + rights
            * 0x1_0000_0000_0000 + epoch * 0x1_0000_0000_0000_0000 + tag
            * 0x1_0000_0000_0000_0000_0000_0000 + badge
            * 0x1_0000_0000_0000_0000_0000_0000_0000,
{
}

/// Shifting and masking picks the digit group at a field's weight.
proof fn lemma_unpack(val: u128)
    by (bit_vector)
    ensures
        val & 0x0000_FFFF_FFFF_FFFF == val % 0x1_0000_0000_0000,
        (val >> 48) & 0xFFFF == val / 0x1_0000_0000_0000 % 0x1_0000,
        (val >> 64) & 0xFFFF_FFFF == val / 0x1_0000_0000_0000_0000 % 0x1_0000_0000,
        (val >> 96) & 0xFFFF == val / 0x1_0000_0000_0000_0000_0000_0000 % 0x1_0000,
        (val >> 112) & 0xFFFF == val / 0x1_0000_0000_0000_0000_0000_0000_0000 % 0x1_0000,
{
}

/// Shifting and masking the packed fields gives the fields back.
proof fn lemma_fields(oid: u64, rights: u16, epoch: u32, tag: u16, badge: u16, wire: u128)
    by (bit_vector)
    requires
        oid < 0x1_0000_0000_0000,
        wire == ((oid & 0x0000_FFFF_FFFF_FFFF) as u128) | ((rights as u128) << 48) | ((epoch as u128)
            << 64) | ((tag as u128) << 96) | ((badge as u128) << 112),
    ensures
        wire & 0x0000_FFFF_FFFF_FFFF == oid as u128,
        (wire >> 48) & 0xFFFF == rights as u128,
        (wire >> 64) & 0xFFFF_FFFF == epoch as u128,
        (wire >> 96) & 0xFFFF == tag as u128,
        (wire >> 112) & 0xFFFF == badge as u128,
{
}

/// Decoding what `encode` gives back yields the entry itself, for every entry
/// that the layout can represent.
pub proof fn law_decode_of_encode(e: CapEntry, wire: u128)
    requires
        e.representable(),
        wire == e.layout(),
    ensures
        CapEntry::from_layout(wire) == e,
{
    lemma_pack(e.object_id, e.rights.bits, e.epoch, e.type_tag.tag, e.badge);
    lemma_unpack(wire);
    lemma_fields(e.object_id, e.rights.bits, e.epoch, e.type_tag.tag, e.badge, wire);
}

/// Whatever entry is encoded, decoding and encoding once more gives the same
/// 128 bits, as long as only defined rights are present.
pub proof fn law_encode_is_stable(e: CapEntry, wire: u128)
    requires
        e.rights.wf(),
        wire == e.layout(),
    ensures
        CapEntry::from_layout(wire).layout() == wire,
{
    let cut = CapEntry { object_id: (e.object_id % 0x1_0000_0000_0000) as u64, ..e };
    law_decode_of_encode(cut, wire);
}

/// Masking rights never adds one: the meet of two sets is in both of them.
pub proof fn law_meet_never_amplifies(parent: Rights, mask: Rights)
    ensures
        parent.includes(parent.meet(mask)),
        mask.includes(parent.meet(mask)),
        parent.wf() ==> parent.meet(mask).wf(),
{
    lemma_meet(parent.bits, mask.bits);
}

/// The common bits of two words are in both of them.
proof fn lemma_meet(p: u16, m: u16)
    by (bit_vector)
    ensures
        p & (p & m) == p & m,
        m & (p & m) == p & m,
        p & 0xFF == p ==> (p & m) & 0xFF == p & m,
{
}

/// What the operations on sets of rights mean, right by right: the meet has a right if both
/// sets have it, the join if one of them has it, and taking a set away leaves a right if it
/// is not in that set. A set of rights holds defined rights only, which are the lowest eight
/// bits.
pub proof fn law_rights_go_bit_by_bit(a: Rights, b: Rights, bits: u16, k: u16)
    requires
        k < 16,
    ensures
        (a.meet(b).bits >> k) & 1 == 1 <==> (a.bits >> k) & 1 == 1 && (b.bits >> k) & 1 == 1,
        (a.join(b).bits >> k) & 1 == 1 <==> (a.bits >> k) & 1 == 1 || (b.bits >> k) & 1 == 1,
        (a.without(b).bits >> k) & 1 == 1 <==> (a.bits >> k) & 1 == 1 && (b.bits >> k) & 1 != 1,
        (Rights::of(bits).bits >> k) & 1 == 1 <==> k < 8 && (bits >> k) & 1 == 1,
        Rights::of(bits).bits == bits % 256,
        a.wf() <==> a.bits < 256,
        a.includes(b) ==> (b.bits >> k) & 1 == 1 ==> (a.bits >> k) & 1 == 1,
        a.includes(b) <==> b.without(a).bits == 0,
{
    lemma_bit_by_bit(a.bits, b.bits, bits, k);
}

proof fn lemma_bit_by_bit(a: u16, b: u16, c: u16, k: u16)
    by (bit_vector)
    requires
        k < 16,
    ensures
        ((a & b) >> k) & 1 == 1 <==> (a >> k) & 1 == 1 && (b >> k) & 1 == 1,
        ((a | b) >> k) & 1 == 1 <==> (a >> k) & 1 == 1 || (b >> k) & 1 == 1,
        ((a & !b) >> k) & 1 == 1 <==> (a >> k) & 1 == 1 && (b >> k) & 1 != 1,
        ((c & 0xFF) >> k) & 1 == 1 <==> k < 8 && (c >> k) & 1 == 1,
        c & 0xFF == c % 256,
        a & 0xFF == a <==> a < 256,
        a & b == b ==> (b >> k) & 1 == 1 ==> (a >> k) & 1 == 1,
        a & b != b ==> b & !a != 0,
        a & b == b ==> b & !a == 0,
{
}

/// The rights are single bits, and every defined right is one of them.
pub proof fn law_rights_have_their_bits()
    ensures
        Rights::READ == 1,
        Rights::WRITE == 2,
        Rights::INVOKE == 4,
        Rights::DELEGATE == 8,
        Rights::REVOKE == 16,
        Rights::MAP == 32,
        Rights::GRANT_CAP == 64,
        Rights::SEAL == 128,
        Rights::KNOWN == 1 + 2 + 4 + 8 + 16 + 32 + 64 + 128,
{
}

/// A 128-bit value is made up of the fields of the entry that it stands for: the object id
/// takes the lowest 48 bits, then come 16 bits for the rights, of which the upper eight are
/// dropped, 32 for the epoch, 16 for the kind and 16 for the badge.
pub proof fn law_value_is_made_up_of_its_fields(val: u128) -> (reserved: int)
    ensures
        0 <= reserved < 256,
        ({
            let e = CapEntry::from_layout(val);
            &&& e.object_id < 0x1_0000_0000_0000
            &&& e.rights.bits < 256
            &&& val == e.object_id + (e.rights.bits + 256 * reserved) * 0x1_0000_0000_0000
                + e.epoch * 0x1_0000_0000_0000_0000 + e.type_tag.tag
                * 0x1_0000_0000_0000_0000_0000_0000 + e.badge
                * 0x1_0000_0000_0000_0000_0000_0000_0000
        }),
{
    let v = val as int;
    let raw = (val / 0x1_0000_0000_0000 % 0x1_0000) as u16;
    lemma_bit_by_bit(0, 0, raw, 0);
    vstd::arithmetic::div_mod::lemma_div_denominator(v, 0x1_0000_0000_0000, 0x1_0000);
    vstd::arithmetic::div_mod::lemma_div_denominator(v, 0x1_0000_0000_0000_0000, 0x1_0000_0000);
    vstd::arithmetic::div_mod::lemma_div_denominator(v, 0x1_0000_0000_0000_0000_0000_0000, 0x1_0000);
    lemma_quotient(v, 0x1_0000_0000_0000);
    lemma_quotient(v / 0x1_0000_0000_0000, 0x1_0000);
    lemma_quotient(v / 0x1_0000_0000_0000_0000, 0x1_0000_0000);
    lemma_quotient(v / 0x1_0000_0000_0000_0000_0000_0000, 0x1_0000);
    raw as int / 256
}

/// Every field of an entry can be read off its layout, whatever the other fields hold.
pub proof fn law_fields_stand_side_by_side(e: CapEntry)
    ensures
        0 <= e.layout() < 0x1_0000_0000_0000_0000_0000_0000_0000_0000int,
        e.layout() % 0x1_0000_0000_0000 == e.object_id % 0x1_0000_0000_0000,
        e.layout() / 0x1_0000_0000_0000 % 0x1_0000 == e.rights.bits,
        e.layout() / 0x1_0000_0000_0000_0000 % 0x1_0000_0000 == e.epoch,
        e.layout() / 0x1_0000_0000_0000_0000_0000_0000 % 0x1_0000 == e.type_tag.tag,
        e.layout() / 0x1_0000_0000_0000_0000_0000_0000_0000 == e.badge,
{
    let l = e.layout();
    let id = e.object_id as int % 0x1_0000_0000_0000;
    let badge = e.badge as int;
    let tag = e.type_tag.tag as int;
    let epoch = e.epoch as int;
    let rights = e.rights.bits as int;
    let above_tag = tag + badge * 0x1_0000;
    let above_epoch = epoch + above_tag * 0x1_0000_0000;
    let above_rights = rights + above_epoch * 0x1_0000;
    let below_badge = id + rights * 0x1_0000_0000_0000 + epoch * 0x1_0000_0000_0000_0000 + tag
        * 0x1_0000_0000_0000_0000_0000_0000;
    let below_tag = id + rights * 0x1_0000_0000_0000 + epoch * 0x1_0000_0000_0000_0000;
    let below_epoch = id + rights * 0x1_0000_0000_0000;
    vstd::arithmetic::div_mod::lemma_fundamental_div_mod_converse(l, 0x1_0000_0000_0000, above_rights, id);
    vstd::arithmetic::div_mod::lemma_fundamental_div_mod_converse(above_rights, 0x1_0000, above_epoch, rights);
    vstd::arithmetic::div_mod::lemma_fundamental_div_mod_converse(l, 0x1_0000_0000_0000_0000, above_epoch, below_epoch);
    vstd::arithmetic::div_mod::lemma_fundamental_div_mod_converse(above_epoch, 0x1_0000_0000, above_tag, epoch);
    vstd::arithmetic::div_mod::lemma_fundamental_div_mod_converse(
        l,
        0x1_0000_0000_0000_0000_0000_0000,
        above_tag,
        below_tag,
    );
    vstd::arithmetic::div_mod::lemma_fundamental_div_mod_converse(above_tag, 0x1_0000, badge, tag);
    vstd::arithmetic::div_mod::lemma_fundamental_div_mod_converse(
        l,
        0x1_0000_0000_0000_0000_0000_0000_0000,
        badge,
        below_badge,
    );
}

/// A number is its quotient times the divisor, and the remainder.
proof fn lemma_quotient(v: int, d: int)
    requires
        0 < d,
    ensures
        v == d * (v / d) + v % d,
{
    vstd::arithmetic::div_mod::lemma_fundamental_div_mod(v, d);
}

/// Every kind of object has a number of its own.
pub proof fn law_kinds_have_their_numbers()
    ensures
        ObjectKind::NULL == 0,
        ObjectKind::UNTYPED == 1,
        ObjectKind::MEMORY == 2,
        ObjectKind::ADDRESS_SPACE == 3,
        ObjectKind::DOMAIN == 4,
        ObjectKind::ENDPOINT == 5,
        ObjectKind::NOTIFICATION == 6,
        ObjectKind::TIME_SLICE == 7,
        ObjectKind::EXTENT == 8,
        ObjectKind::DEVICE_QUEUE == 9,
        ObjectKind::CAP_TABLE == 10,
        ObjectKind::IRQ_HANDLER == 11,
{
}

} // verus!
