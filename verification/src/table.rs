//! The object table and the capability tables.
//!
//! Objects live in one [`ObjectTable`]; each holds a kind and a current epoch.
//! A [`CapTable`] holds the capabilities of one domain, and a capability pointer
//! is an index into it. A capability is valid while its kind and its epoch are
//! those of its object, so that raising an object's epoch revokes all of its
//! capabilities at once. An object whose epochs are used up is retired with its
//! next revocation, and its id is never handed out again, so that no capability
//! comes back to life.
use crate::capability::{CapEntry, ObjectKind, Rights};
use vstd::prelude::*;

verus! {

/// Slots in a capability table.
pub const CAP_TABLE_SLOTS: usize = 256;

/// Objects in the object table.
pub const OBJECT_TABLE_SIZE: usize = 1024;

/// The kind of an object id that was retired. No object is of this kind.
pub const RETIRED_TAG: u16 = 0xFFFE;

/// What the object table knows of one object.
#[derive(Clone, Copy, Debug, PartialEq, Eq, Structural)]
pub struct ObjectMeta {
    pub kind: ObjectKind,
    pub current_epoch: u32,
    pub present: bool,
}

/// All objects, by object id.
pub struct ObjectTable {
    pub metas: [ObjectMeta; OBJECT_TABLE_SIZE],
}

impl View for ObjectTable {
    type V = Seq<ObjectMeta>;

    open spec fn view(&self) -> Seq<ObjectMeta> {
        self.metas@
    }
}

/// What an operation on a capability answers.
#[derive(Clone, Copy, Debug, PartialEq, Eq, Structural)]
pub enum Status {
    Success,
    ErrBadCPtr,
    ErrRevoked,
    ErrType,
    ErrRights,
    ErrMethod,
}

impl Status {
    /// The number that stands for the status in a register.
    pub open spec fn number(self) -> u64 {
        match self {
            Status::Success => 0,
            Status::ErrBadCPtr => 1,
            Status::ErrRevoked => 2,
            Status::ErrType => 3,
            Status::ErrRights => 4,
            Status::ErrMethod => 5,
        }
    }

    /// The number that stands for the status in a register.
    pub fn code(self) -> (r: u64)
        ensures
            r == self.number(),
    {
        match self {
            Status::Success => 0,
            Status::ErrBadCPtr => 1,
            Status::ErrRevoked => 2,
            Status::ErrType => 3,
            Status::ErrRights => 4,
            Status::ErrMethod => 5,
        }
    }
}

/// The capabilities of one domain, by capability pointer.
pub struct CapTable {
    pub slots: [Option<CapEntry>; CAP_TABLE_SLOTS],
}

impl View for CapTable {
    type V = Seq<Option<CapEntry>>;

    open spec fn view(&self) -> Seq<Option<CapEntry>> {
        self.slots@
    }
}

/// There is an object with this id.
pub open spec fn object_present(objects: Seq<ObjectMeta>, id: u64) -> bool {
    id < OBJECT_TABLE_SIZE && objects[id as int].present
}

/// The id was retired.
pub open spec fn retired(m: ObjectMeta) -> bool {
    !m.present && m.kind.tag == RETIRED_TAG
}

/// A new object may take this id.
pub open spec fn id_free(m: ObjectMeta) -> bool {
    !m.present && !retired(m)
}

/// The object ids below `n` are all taken.
pub open spec fn objects_taken_below(objects: Seq<ObjectMeta>, n: int) -> bool {
    forall|j: int| 0 <= j < n ==> !id_free(#[trigger] objects[j])
}

/// The slots below `n` are all taken.
pub open spec fn slots_taken_below(slots: Seq<Option<CapEntry>>, n: int) -> bool {
    forall|j: int| 0 <= j < n ==> (#[trigger] slots[j]) is Some
}

/// `i` is the lowest free slot.
pub open spec fn is_lowest_free(slots: Seq<Option<CapEntry>>, i: int) -> bool {
    &&& 0 <= i < slots.len()
    &&& slots[i] is None
    &&& slots_taken_below(slots, i)
}

/// Whether an entry is valid, and if not, why: the object is out of range, the
/// epoch has moved on or its id was retired, or the object is gone or of another kind.
pub open spec fn entry_status(objects: Seq<ObjectMeta>, e: CapEntry) -> Status {
    if e.object_id >= OBJECT_TABLE_SIZE {
        Status::ErrBadCPtr
    } else {
        let meta = objects[e.object_id as int];
        if e.epoch != meta.current_epoch || retired(meta) {
            Status::ErrRevoked
        } else if !meta.present || e.type_tag != meta.kind {
            Status::ErrType
        } else {
            Status::Success
        }
    }
}

/// The capability pointer names a filled slot.
pub open spec fn names_entry(slots: Seq<Option<CapEntry>>, cptr: u16) -> bool {
    cptr < slots.len() && slots[cptr as int] is Some
}

/// Whether the slot that `cptr` names holds a valid entry, and if not, why.
pub open spec fn slot_status(
    slots: Seq<Option<CapEntry>>,
    objects: Seq<ObjectMeta>,
    cptr: u16,
) -> Status {
    if !names_entry(slots, cptr) {
        Status::ErrBadCPtr
    } else {
        entry_status(objects, slots[cptr as int]->0)
    }
}

/// What invoking `cptr` answers when the method needs the rights `required`.
pub open spec fn invoke_status(
    slots: Seq<Option<CapEntry>>,
    objects: Seq<ObjectMeta>,
    cptr: u16,
    required: Rights,
) -> Status {
    let status = slot_status(slots, objects, cptr);
    if status == Status::Success && !slots[cptr as int]->0.rights.includes(required) {
        Status::ErrRights
    } else {
        status
    }
}

/// Why `cptr` may not be delegated, or `Success`. The right to delegate is asked for
/// before the entry's validity.
pub open spec fn delegate_status(
    slots: Seq<Option<CapEntry>>,
    objects: Seq<ObjectMeta>,
    cptr: u16,
) -> Status {
    if !names_entry(slots, cptr) {
        Status::ErrBadCPtr
    } else if !slots[cptr as int]->0.rights.includes(Rights::of(Rights::DELEGATE)) {
        Status::ErrRights
    } else {
        entry_status(objects, slots[cptr as int]->0)
    }
}

/// The entry that delegating `parent` under `mask` hands out.
pub open spec fn delegated(parent: CapEntry, mask: Rights, badge: u16) -> CapEntry {
    CapEntry { rights: parent.rights.meet(mask), badge, ..parent }
}

/// The entry that minting a capability to object `id` writes.
pub open spec fn minted(objects: Seq<ObjectMeta>, id: u64, rights: Rights, badge: u16) -> CapEntry {
    CapEntry {
        object_id: id,
        rights,
        epoch: objects[id as int].current_epoch,
        type_tag: objects[id as int].kind,
        badge,
    }
}

/// The entry after sealing: all but the right to delegate.
pub open spec fn sealed(e: CapEntry) -> CapEntry {
    CapEntry { rights: e.rights.without(Rights::of(Rights::DELEGATE)), ..e }
}

/// The object after one revocation: its epoch is one higher, or, after the last
/// epoch, its id is retired.
pub open spec fn revoked(m: ObjectMeta) -> ObjectMeta {
    if m.current_epoch == u32::MAX {
        ObjectMeta { kind: ObjectKind { tag: RETIRED_TAG }, current_epoch: 0, present: false }
    } else {
        ObjectMeta { current_epoch: (m.current_epoch + 1) as u32, ..m }
    }
}

/// What is left of an object that was taken out of the table.
pub open spec fn destroyed(m: ObjectMeta) -> ObjectMeta {
    if retired(m) {
        m
    } else {
        ObjectMeta { kind: ObjectKind { tag: ObjectKind::NULL }, present: false, ..m }
    }
}

/// A capability of this epoch was revoked.
pub open spec fn outdated(m: ObjectMeta, epoch: u32) -> bool {
    retired(m) || epoch < m.current_epoch
}

/// `slots` became `after` by writing `e` to the lowest free slot, `cptr`.
pub open spec fn inserted(
    slots: Seq<Option<CapEntry>>,
    after: Seq<Option<CapEntry>>,
    cptr: u16,
    e: CapEntry,
) -> bool {
    is_lowest_free(slots, cptr as int) && after == slots.update(cptr as int, Some(e))
}

impl ObjectTable {
    /// A table without objects.
    pub fn new() -> (r: ObjectTable)
        ensures
            forall|i: int|
                0 <= i < OBJECT_TABLE_SIZE ==> #[trigger] r@[i] == (ObjectMeta {
                    kind: ObjectKind { tag: ObjectKind::NULL },
                    current_epoch: 0,
                    present: false,
                }),
    {
        let absent = ObjectMeta {
            kind: ObjectKind::from_raw(ObjectKind::NULL),
            current_epoch: 0,
            present: false,
        };
        ObjectTable { metas: [absent; OBJECT_TABLE_SIZE] }
    }

    /// Takes the lowest free object id for an object of this kind, at epoch 0. An id
    /// that was retired is not free. Answers `None` when all ids are taken.
    pub fn create_object(&mut self, kind: ObjectKind) -> (r: Option<u64>)
        ensures
            match r {
                Some(id) => {
                    &&& id < OBJECT_TABLE_SIZE
                    &&& id_free(old(self)@[id as int])
                    &&& objects_taken_below(old(self)@, id as int)
                    &&& final(self)@ == old(self)@.update(
                        id as int,
                        ObjectMeta { kind, current_epoch: 0, present: true },
                    )
                },
                None => {
                    &&& objects_taken_below(old(self)@, OBJECT_TABLE_SIZE as int)
                    &&& *final(self) == *old(self)
                },
            },
    {
        let mut i: usize = 0;
        while i < OBJECT_TABLE_SIZE
            invariant
                i <= OBJECT_TABLE_SIZE,
                *self == *old(self),
                objects_taken_below(self@, i as int),
            decreases OBJECT_TABLE_SIZE - i,
        {
            if !self.metas[i].present && !is_retired(self.metas[i]) {
                self.metas[i] = ObjectMeta { kind, current_epoch: 0, present: true };
                return Some(i as u64);
            }
            i = i + 1;
        }
        None
    }

    /// Raises the object's epoch, which invalidates every capability to it at
    /// once. After the last epoch the object's id is retired instead of counting
    /// from the start again. Answers `ErrBadCPtr` when there is no such object.
    pub fn revoke(&mut self, object_id: u64) -> (r: Status)
        ensures
            r == (if object_present(old(self)@, object_id) {
                Status::Success
            } else {
                Status::ErrBadCPtr
            }),
            r == Status::Success ==> final(self)@ == old(self)@.update(
                object_id as int,
                revoked(old(self)@[object_id as int]),
            ),
            r != Status::Success ==> *final(self) == *old(self),
    {
        if object_id >= OBJECT_TABLE_SIZE as u64 || !self.metas[object_id as usize].present {
            return Status::ErrBadCPtr;
        }
        let meta = self.metas[object_id as usize];
        self.metas[object_id as usize] = if meta.current_epoch == u32::MAX {
            ObjectMeta {
                kind: ObjectKind::from_raw(RETIRED_TAG),
                current_epoch: 0,
                present: false,
            }
        } else {
            ObjectMeta {
                kind: meta.kind,
                current_epoch: meta.current_epoch + 1,
                present: meta.present,
            }
        };
        Status::Success
    }

    /// Takes the object out of the table. An id that is out of range or was retired
    /// changes nothing.
    pub fn destroy_object(&mut self, object_id: u64)
        ensures
            object_id < OBJECT_TABLE_SIZE ==> final(self)@ == old(self)@.update(
                object_id as int,
                destroyed(old(self)@[object_id as int]),
            ),
            object_id >= OBJECT_TABLE_SIZE ==> *final(self) == *old(self),
    {
        if object_id < OBJECT_TABLE_SIZE as u64 {
            let meta = self.metas[object_id as usize];
            if !is_retired(meta) {
                self.metas[object_id as usize] =
                    ObjectMeta {
                        kind: ObjectKind::from_raw(ObjectKind::NULL),
                        current_epoch: meta.current_epoch,
                        present: false,
                    };
            }
            assert(self@ =~= old(self)@.update(
                object_id as int,
                destroyed(old(self)@[object_id as int]),
            ));
        }
    }
}

/// Whether the id was retired.
fn is_retired(meta: ObjectMeta) -> (r: bool)
    ensures
        r == retired(meta),
{
    !meta.present && meta.kind.raw() == RETIRED_TAG
}

/// Whether the entry is valid, and if not, why.
fn check_entry(ot: &ObjectTable, entry: CapEntry) -> (r: Status)
    ensures
        r == entry_status(ot@, entry),
{
    if entry.object_id >= OBJECT_TABLE_SIZE as u64 {
        return Status::ErrBadCPtr;
    }
    let meta = ot.metas[entry.object_id as usize];
    if !meta.present || entry.type_tag != meta.kind || entry.epoch != meta.current_epoch {
        if entry.epoch != meta.current_epoch || is_retired(meta) {
            return Status::ErrRevoked;
        }
        return Status::ErrType;
    }
    Status::Success
}

impl CapTable {
    /// A table with all slots free.
    pub fn new() -> (r: CapTable)
        ensures
            forall|i: int| 0 <= i < CAP_TABLE_SLOTS ==> #[trigger] r@[i] is None,
    {
        CapTable { slots: [None; CAP_TABLE_SLOTS] }
    }

    /// The lowest free slot.
    fn lowest_free(&self) -> (r: Option<usize>)
        ensures
            match r {
                Some(i) => i < CAP_TABLE_SLOTS && is_lowest_free(self@, i as int),
                None => slots_taken_below(self@, CAP_TABLE_SLOTS as int),
            },
    {
        let mut i: usize = 0;
        while i < CAP_TABLE_SLOTS
            invariant
                i <= CAP_TABLE_SLOTS,
                slots_taken_below(self@, i as int),
            decreases CAP_TABLE_SLOTS - i,
        {
            if self.slots[i].is_none() {
                return Some(i);
            }
            i = i + 1;
        }
        None
    }

    /// Writes a capability to an existing object into the lowest free slot. It
    /// captures the object's kind and current epoch and holds the rights given.
    /// Answers `ErrBadCPtr` when no slot is free or there is no such object.
    pub fn mint(&mut self, ot: &ObjectTable, object_id: u64, rights: Rights, badge: u16) -> (r:
        Result<u16, Status>)
        ensures
            match r {
                Ok(cptr) => {
                    &&& object_present(ot@, object_id)
                    &&& inserted(
                        old(self)@,
                        final(self)@,
                        cptr,
                        minted(ot@, object_id, rights, badge),
                    )
                },
                Err(status) => {
                    &&& status == Status::ErrBadCPtr
                    &&& *final(self) == *old(self)
                    &&& !object_present(ot@, object_id) || slots_taken_below(
                        old(self)@,
                        CAP_TABLE_SLOTS as int,
                    )
                },
            },
    {
        let slot = match self.lowest_free() {
            Some(i) => i,
            None => {
                return Err(Status::ErrBadCPtr);
            },
        };
        if object_id >= OBJECT_TABLE_SIZE as u64 || !ot.metas[object_id as usize].present {
            return Err(Status::ErrBadCPtr);
        }
        let meta = ot.metas[object_id as usize];
        let entry = CapEntry {
            object_id,
            rights,
            epoch: meta.current_epoch,
            type_tag: meta.kind,
            badge,
        };
        self.slots[slot] = Some(entry);
        Ok(slot as u16)
    }

    /// Validates a capability and asks for the rights that a method needs.
    pub fn invoke(&self, ot: &ObjectTable, cptr: u16, _method: u16, required_rights: Rights) -> (r:
        Status)
        ensures
            r == invoke_status(self@, ot@, cptr, required_rights),
    {
        let idx: usize = cptr as usize;
        if idx >= CAP_TABLE_SLOTS {
            return Status::ErrBadCPtr;
        }
        let entry = match self.slots[idx] {
            Some(e) => e,
            None => {
                return Status::ErrBadCPtr;
            },
        };
        let status = check_entry(ot, entry);
        if status != Status::Success {
            return status;
        }
        if !entry.rights.contains(required_rights) {
            return Status::ErrRights;
        }
        Status::Success
    }

    /// The entry that delegating a capability hands out, with only the rights of
    /// `mask` left. The capability must carry the right to delegate and be valid.
    pub fn derive(&self, ot: &ObjectTable, src_cptr: u16, mask: Rights, badge: u16) -> (r: Result<
        CapEntry,
        Status,
    >)
        ensures
            match r {
                Ok(e) => {
                    &&& delegate_status(self@, ot@, src_cptr) == Status::Success
                    &&& e == delegated(self@[src_cptr as int]->0, mask, badge)
                },
                Err(status) => status != Status::Success && status == delegate_status(
                    self@,
                    ot@,
                    src_cptr,
                ),
            },
    {
        let src_idx: usize = src_cptr as usize;
        if src_idx >= CAP_TABLE_SLOTS {
            return Err(Status::ErrBadCPtr);
        }
        let entry = match self.slots[src_idx] {
            Some(e) => e,
            None => {
                return Err(Status::ErrBadCPtr);
            },
        };
        if !entry.rights.contains(Rights::from_bits_truncate(Rights::DELEGATE)) {
            return Err(Status::ErrRights);
        }
        let status = check_entry(ot, entry);
        if status != Status::Success {
            return Err(status);
        }
        Ok(
            CapEntry {
                object_id: entry.object_id,
                rights: entry.rights & mask,
                epoch: entry.epoch,
                type_tag: entry.type_tag,
                badge,
            },
        )
    }

    /// Writes an entry into the lowest free slot. Answers `ErrBadCPtr` when no slot
    /// is free.
    pub fn insert(&mut self, entry: CapEntry) -> (r: Result<u16, Status>)
        ensures
            match r {
                Ok(cptr) => inserted(old(self)@, final(self)@, cptr, entry),
                Err(status) => {
                    &&& status == Status::ErrBadCPtr
                    &&& slots_taken_below(old(self)@, CAP_TABLE_SLOTS as int)
                    &&& *final(self) == *old(self)
                },
            },
    {
        match self.lowest_free() {
            Some(slot) => {
                self.slots[slot] = Some(entry);
                Ok(slot as u16)
            },
            None => Err(Status::ErrBadCPtr),
        }
    }

    /// Copies a capability to another table, with only the rights of `mask` left.
    /// The source must carry the right to delegate and be valid.
    pub fn delegate(
        &self,
        ot: &ObjectTable,
        src_cptr: u16,
        mask: Rights,
        badge: u16,
        dst_table: &mut CapTable,
    ) -> (r: Result<u16, Status>)
        ensures
            match r {
                Ok(cptr) => {
                    &&& delegate_status(self@, ot@, src_cptr) == Status::Success
                    &&& inserted(
                        old(dst_table)@,
                        final(dst_table)@,
                        cptr,
                        delegated(self@[src_cptr as int]->0, mask, badge),
                    )
                },
                Err(status) => {
                    &&& *final(dst_table) == *old(dst_table)
                    &&& if delegate_status(self@, ot@, src_cptr) != Status::Success {
                        status == delegate_status(self@, ot@, src_cptr)
                    } else {
                        &&& status == Status::ErrBadCPtr
                        &&& slots_taken_below(old(dst_table)@, CAP_TABLE_SLOTS as int)
                    }
                },
            },
    {
        match self.derive(ot, src_cptr, mask, badge) {
            Ok(child) => dst_table.insert(child),
            Err(status) => Err(status),
        }
    }

    /// Takes the right to delegate, and only that, away from a capability.
    pub fn seal(&mut self, cptr: u16) -> (r: Status)
        ensures
            r == (if names_entry(old(self)@, cptr) {
                Status::Success
            } else {
                Status::ErrBadCPtr
            }),
            r == Status::Success ==> final(self)@ == old(self)@.update(
                cptr as int,
                Some(sealed(old(self)@[cptr as int]->0)),
            ),
            r != Status::Success ==> *final(self) == *old(self),
    {
        let idx: usize = cptr as usize;
        if idx >= CAP_TABLE_SLOTS {
            return Status::ErrBadCPtr;
        }
        match self.slots[idx] {
            Some(e) => {
                let mut entry = e;
                entry.rights.remove(Rights::from_bits_truncate(Rights::DELEGATE));
                self.slots[idx] = Some(entry);
                Status::Success
            },
            None => Status::ErrBadCPtr,
        }
    }

    /// Validates a capability and gives its entry.
    pub fn lookup(&self, cptr: u16, ot: &ObjectTable) -> (r: Result<CapEntry, Status>)
        ensures
            match r {
                Ok(e) => slot_status(self@, ot@, cptr) == Status::Success && self@[cptr as int] == Some(
                    e,
                ),
                Err(status) => status != Status::Success && status == slot_status(self@, ot@, cptr),
            },
    {
        let idx: usize = cptr as usize;
        if idx >= CAP_TABLE_SLOTS {
            return Err(Status::ErrBadCPtr);
        }
        let entry = match self.slots[idx] {
            Some(e) => e,
            None => {
                return Err(Status::ErrBadCPtr);
            },
        };
        let status = check_entry(ot, entry);
        if status != Status::Success {
            return Err(status);
        }
        Ok(entry)
    }
}

/// A capability passes an invocation only if its slot is filled, its object is
/// there with the same kind and the same epoch, and it carries the rights that
/// were asked for.
pub proof fn law_invoke_needs_a_valid_entry(
    slots: Seq<Option<CapEntry>>,
    objects: Seq<ObjectMeta>,
    cptr: u16,
    required: Rights,
)
    ensures
        invoke_status(slots, objects, cptr, required) == Status::Success <==> {
            &&& names_entry(slots, cptr)
            &&& object_present(objects, slots[cptr as int]->0.object_id)
            &&& slots[cptr as int]->0.type_tag
                == objects[slots[cptr as int]->0.object_id as int].kind
            &&& slots[cptr as int]->0.epoch
                == objects[slots[cptr as int]->0.object_id as int].current_epoch
            &&& slots[cptr as int]->0.rights.includes(required)
        },
{
}

/// Revocation is complete: once an object is revoked, every capability to it that
/// was minted before is answered `ErrRevoked`, whatever table it stands in and
/// whatever rights are asked for.
pub proof fn law_revocation_is_complete(
    before: Seq<ObjectMeta>,
    after: Seq<ObjectMeta>,
    id: u64,
    slots: Seq<Option<CapEntry>>,
    cptr: u16,
    required: Rights,
)
    requires
        before.len() == OBJECT_TABLE_SIZE,
        object_present(before, id),
        after == before.update(id as int, revoked(before[id as int])),
        names_entry(slots, cptr),
        slots[cptr as int]->0.object_id == id,
        slots[cptr as int]->0.epoch <= before[id as int].current_epoch,
    ensures
        outdated(after[id as int], slots[cptr as int]->0.epoch),
        slot_status(slots, after, cptr) == Status::ErrRevoked,
        invoke_status(slots, after, cptr, required) == Status::ErrRevoked,
        after[id as int].current_epoch != before[id as int].current_epoch,
{
}

/// Revocation lasts: a capability that was revoked is answered `ErrRevoked`, and
/// further revocations leave it revoked, however many there are. An id that was
/// retired stays so: it is neither free, nor revoked or destroyed to any effect.
pub proof fn law_revocation_lasts(
    objects: Seq<ObjectMeta>,
    id: u64,
    slots: Seq<Option<CapEntry>>,
    cptr: u16,
    required: Rights,
)
    requires
        id < OBJECT_TABLE_SIZE,
        names_entry(slots, cptr),
        slots[cptr as int]->0.object_id == id,
        outdated(objects[id as int], slots[cptr as int]->0.epoch),
    ensures
        invoke_status(slots, objects, cptr, required) == Status::ErrRevoked,
        object_present(objects, id) ==> outdated(
            revoked(objects[id as int]),
            slots[cptr as int]->0.epoch,
        ),
        retired(objects[id as int]) ==> !object_present(objects, id) && !id_free(
            objects[id as int],
        ) && destroyed(objects[id as int]) == objects[id as int],
{
}

/// Revoking one object leaves every capability to another object as it was.
pub proof fn law_revocation_is_confined(
    before: Seq<ObjectMeta>,
    after: Seq<ObjectMeta>,
    id: u64,
    slots: Seq<Option<CapEntry>>,
    cptr: u16,
    required: Rights,
)
    requires
        before.len() == OBJECT_TABLE_SIZE,
        object_present(before, id),
        after == before.update(id as int, revoked(before[id as int])),
        names_entry(slots, cptr),
        slots[cptr as int]->0.object_id != id,
    ensures
        invoke_status(slots, after, cptr, required) == invoke_status(slots, before, cptr, required),
{
}

/// A capability that was just minted passes an invocation if and only if it
/// carries the rights that are asked for.
pub proof fn law_fresh_mint_needs_only_the_right(
    objects: Seq<ObjectMeta>,
    before: Seq<Option<CapEntry>>,
    after: Seq<Option<CapEntry>>,
    id: u64,
    rights: Rights,
    badge: u16,
    cptr: u16,
    required: Rights,
)
    requires
        object_present(objects, id),
        inserted(before, after, cptr, minted(objects, id, rights, badge)),
    ensures
        invoke_status(after, objects, cptr, required) == if rights.includes(required) {
            Status::Success
        } else {
            Status::ErrRights
        },
{
}

/// Delegation never amplifies: what arrives in the other table names the same
/// object at the same epoch, is valid, and holds no right that the source lacks
/// or that the mask leaves out.
pub proof fn law_delegate_never_amplifies(
    objects: Seq<ObjectMeta>,
    src: Seq<Option<CapEntry>>,
    before: Seq<Option<CapEntry>>,
    after: Seq<Option<CapEntry>>,
    src_cptr: u16,
    mask: Rights,
    badge: u16,
    cptr: u16,
)
    requires
        delegate_status(src, objects, src_cptr) == Status::Success,
        inserted(before, after, cptr, delegated(src[src_cptr as int]->0, mask, badge)),
    ensures
        slot_status(after, objects, cptr) == Status::Success,
        src[src_cptr as int]->0.rights.includes(after[cptr as int]->0.rights),
        mask.includes(after[cptr as int]->0.rights),
        after[cptr as int]->0.object_id == src[src_cptr as int]->0.object_id,
        after[cptr as int]->0.epoch == src[src_cptr as int]->0.epoch,
        after[cptr as int]->0.badge == badge,
{
    crate::capability::law_meet_never_amplifies(src[src_cptr as int]->0.rights, mask);
}

/// Sealing only takes the right to delegate away: no right is gained, every other
/// right stays, sealing again changes nothing, and a sealed capability is refused
/// delegation.
pub proof fn law_seal_is_monotone(
    objects: Seq<ObjectMeta>,
    before: Seq<Option<CapEntry>>,
    after: Seq<Option<CapEntry>>,
    cptr: u16,
    right: Rights,
)
    requires
        names_entry(before, cptr),
        after == before.update(cptr as int, Some(sealed(before[cptr as int]->0))),
        right.wf(),
        right.bits & Rights::DELEGATE == 0,
    ensures
        before[cptr as int]->0.rights.includes(after[cptr as int]->0.rights),
        after[cptr as int]->0.rights.includes(right)
            == before[cptr as int]->0.rights.includes(right),
        sealed(after[cptr as int]->0) == after[cptr as int]->0,
        delegate_status(after, objects, cptr) == Status::ErrRights,
{
    let b = before[cptr as int]->0.rights.bits;
    let r = right.bits;
    lemma_clear_delegate(b, r);
}

/// Bit facts about clearing the right to delegate.
proof fn lemma_clear_delegate(b: u16, r: u16)
    by (bit_vector)
    ensures
        b & (b & !(0x08u16 & 0xFF)) == b & !(0x08u16 & 0xFF),
        r & 0x08 == 0 ==> ((b & !(0x08u16 & 0xFF)) & r == r) == (b & r == r),
        (b & !(0x08u16 & 0xFF)) & !(0x08u16 & 0xFF) == b & !(0x08u16 & 0xFF),
        (b & !(0x08u16 & 0xFF)) & (0x08u16 & 0xFF) != 0x08u16 & 0xFF,
        0x08u16 & 0xFF == 0x08,
        b & 0x08 == 0x08 ==> b & !(0x08u16 & 0xFF) == b - 0x08,
        b & 0x08 != 0x08 ==> b & !(0x08u16 & 0xFF) == b,
{
}

/// What is wrong with a capability that is not valid. A pointer that names no filled slot,
/// or a slot that names no object, is bad. An entry of another epoch than its object, or
/// whose object id was retired, is revoked. An entry whose object is gone or is of another
/// kind has the wrong type. All others are valid.
pub proof fn law_every_fault_has_its_status(
    slots: Seq<Option<CapEntry>>,
    objects: Seq<ObjectMeta>,
    cptr: u16,
)
    ensures
        ({
            let e = slots[cptr as int]->0;
            let m = objects[e.object_id as int];
            let named = cptr < slots.len() && slots[cptr as int] is Some && e.object_id < 1024;
            let retired = !m.present && m.kind.tag == 0xfffe;
            let status = slot_status(slots, objects, cptr);
            &&& status == Status::ErrBadCPtr <==> !named
            &&& status == Status::ErrRevoked <==> named && (e.epoch != m.current_epoch || retired)
            &&& status == Status::ErrType <==> named && e.epoch == m.current_epoch && !retired && (
            !m.present || e.type_tag.tag != m.kind.tag)
            &&& status == Status::Success <==> named && e.epoch == m.current_epoch && m.present
                && e.type_tag.tag == m.kind.tag
        }),
{
}

/// An invocation asks for every right that is required, and says so only of a capability that
/// is valid. A delegation asks for the right to delegate first.
pub proof fn law_rights_are_asked_for(
    slots: Seq<Option<CapEntry>>,
    objects: Seq<ObjectMeta>,
    cptr: u16,
    required: Rights,
)
    ensures
        ({
            let bits = slots[cptr as int]->0.rights.bits;
            let valid = slot_status(slots, objects, cptr);
            let filled = cptr < slots.len() && slots[cptr as int] is Some;
            &&& invoke_status(slots, objects, cptr, required) == if valid == Status::Success && bits
                & required.bits != required.bits {
                Status::ErrRights
            } else {
                valid
            }
            &&& delegate_status(slots, objects, cptr) == if filled && bits & 0x08 != 0x08 {
                Status::ErrRights
            } else {
                valid
            }
        }),
{
    lemma_clear_delegate(slots[cptr as int]->0.rights.bits, 0);
}

/// A new entry goes to the lowest slot that is free, and every other slot stays as it is.
pub proof fn law_lowest_free_slot_is_filled(
    before: Seq<Option<CapEntry>>,
    after: Seq<Option<CapEntry>>,
    cptr: u16,
    e: CapEntry,
    i: int,
)
    requires
        inserted(before, after, cptr, e),
        0 <= i < before.len(),
    ensures
        cptr < before.len(),
        after.len() == before.len(),
        before[cptr as int] is None,
        after[cptr as int] == Some(e),
        before[i] is None ==> cptr <= i,
        i != cptr ==> after[i] == before[i],
{
}

/// A table counts as full if and only if no slot is free.
pub proof fn law_full_table_has_no_free_slot(slots: Seq<Option<CapEntry>>, i: int)
    requires
        slots.len() == 256,
        0 <= i < 256,
    ensures
        slots[i] is None ==> !slots_taken_below(slots, CAP_TABLE_SLOTS as int),
        slots_taken_below(slots, CAP_TABLE_SLOTS as int) || exists|c: int|
            0 <= c < 256 && slots[c] is None && #[trigger] is_lowest_free(slots, c),
{
    if !slots_taken_below(slots, CAP_TABLE_SLOTS as int) {
        let j = choose|j: int| 0 <= j < CAP_TABLE_SLOTS && !((#[trigger] slots[j]) is Some);
        lemma_some_lowest_free(slots, j);
    }
}

/// At or below a free slot stands the lowest one.
proof fn lemma_some_lowest_free(slots: Seq<Option<CapEntry>>, j: int)
    requires
        0 <= j < slots.len(),
        slots[j] is None,
    ensures
        exists|c: int| 0 <= c <= j && slots[c] is None && #[trigger] is_lowest_free(slots, c),
    decreases j,
{
    if slots_taken_below(slots, j) {
        assert(is_lowest_free(slots, j));
    } else {
        let k = choose|k: int| 0 <= k < j && !((#[trigger] slots[k]) is Some);
        lemma_some_lowest_free(slots, k);
    }
}

/// An object id is free if no object has it and it was not retired; the ids below a limit are
/// all taken if none of them is free.
pub proof fn law_free_ids(objects: Seq<ObjectMeta>, n: int, i: int)
    requires
        0 <= i < n <= objects.len(),
    ensures
        id_free(objects[i]) <==> !objects[i].present && objects[i].kind.tag != 0xfffe,
        objects_taken_below(objects, n) ==> !id_free(objects[i]),
        objects_taken_below(objects, n) <==> objects_taken_below(objects, n - 1) && (objects[n
            - 1].present || objects[n - 1].kind.tag == 0xfffe),
        objects_taken_below(objects, 0),
{
}

/// A capability is minted to the object as it is now: with its kind and its epoch, and with
/// the rights and the badge that were asked for.
pub proof fn law_minted_as_asked(objects: Seq<ObjectMeta>, id: u64, rights: Rights, badge: u16)
    ensures
        minted(objects, id, rights, badge).object_id == id,
        minted(objects, id, rights, badge).rights == rights,
        minted(objects, id, rights, badge).badge == badge,
        minted(objects, id, rights, badge).epoch == objects[id as int].current_epoch,
        minted(objects, id, rights, badge).type_tag == objects[id as int].kind,
        object_present(objects, id) <==> id < 1024 && objects[id as int].present,
{
}

/// Delegating hands on every right that the source has and the mask admits, and no other; the
/// capability names the same object, at the same epoch and of the same kind, and bears the
/// badge that was asked for.
pub proof fn law_delegated_as_asked(parent: CapEntry, mask: Rights, badge: u16)
    ensures
        delegated(parent, mask, badge).object_id == parent.object_id,
        delegated(parent, mask, badge).epoch == parent.epoch,
        delegated(parent, mask, badge).type_tag == parent.type_tag,
        delegated(parent, mask, badge).badge == badge,
        delegated(parent, mask, badge).rights.bits == parent.rights.bits & mask.bits,
{
}

/// Sealing leaves all of an entry but the right to delegate.
pub proof fn law_sealed_entry_names_the_same(e: CapEntry)
    ensures
        sealed(e).object_id == e.object_id,
        sealed(e).epoch == e.epoch,
        sealed(e).type_tag == e.type_tag,
        sealed(e).badge == e.badge,
        sealed(e).rights.bits == if e.rights.bits & 0x08 == 0x08 {
            e.rights.bits - 0x08
        } else {
            e.rights.bits as int
        },
{
    lemma_clear_delegate(e.rights.bits, 0);
}

/// Revoking an object raises its epoch by one and leaves it as it is otherwise. Only at the
/// last epoch it takes the object away and retires its id. An object that is destroyed leaves
/// its id free and its epoch standing.
pub proof fn law_epochs_go_up_by_one(m: ObjectMeta)
    ensures
        m.current_epoch < 0xffff_ffff ==> revoked(m).current_epoch == m.current_epoch + 1
            && revoked(m).present == m.present && revoked(m).kind == m.kind,
        m.current_epoch == 0xffff_ffff ==> !revoked(m).present && !id_free(revoked(m)),
        !destroyed(m).present,
        destroyed(m).current_epoch == m.current_epoch,
        !(!m.present && m.kind.tag == 0xfffe) ==> id_free(destroyed(m)),
{
}

/// Every status has a number of its own, and success is zero.
pub proof fn law_status_numbers(a: Status, b: Status)
    ensures
        a.number() == b.number() <==> a == b,
        a.number() == 0 <==> a == Status::Success,
        a.number() == 1 <==> a == Status::ErrBadCPtr,
        a.number() == 2 <==> a == Status::ErrRevoked,
        a.number() == 3 <==> a == Status::ErrType,
        a.number() == 4 <==> a == Status::ErrRights,
        a.number() == 5 <==> a == Status::ErrMethod,
{
}

} // verus!
