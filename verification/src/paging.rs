//! Page tables: the walk to the entry of a page, and what is written there.
//!
//! Tables are read and written by the caller. A walk says where the next entry is and
//! takes what was read.
use crate::capspace::PageMap;
use crate::memory::{allocate_frame, Memory};
use vstd::prelude::*;

verus! {

/// The bits of an entry that hold an address.
pub const ADDRESS_BITS: u64 = 0x000f_ffff_ffff_f000;

/// The bits of an entry for a page that is present and can be written.
pub const PRESENT_WRITABLE: u64 = 0x3;

/// The level of the topmost table.
pub const TOP_LEVEL: u8 = 4;

/// The entry is in use.
pub open spec fn entry_present(e: u64) -> bool {
    e % 2 == 1
}

/// The entry stands for a large page rather than a table.
pub open spec fn entry_huge(e: u64) -> bool {
    e / 128 % 2 == 1
}

/// The address that the entry holds.
pub open spec fn entry_address(e: u64) -> u64 {
    e & ADDRESS_BITS
}

/// How much memory one entry of a table at this level stands for.
pub open spec fn level_span(level: int) -> int {
    if level == 4 {
        0x80_0000_0000
    } else if level == 3 {
        0x4000_0000
    } else if level == 2 {
        0x20_0000
    } else {
        0x1000
    }
}

/// Which entry of a table at this level is for the address.
pub open spec fn table_index(va: u64, level: int) -> int {
    va as int / level_span(level) % 512
}

/// The address rounded down to a page.
pub open spec fn page_start(va: u64) -> u64 {
    (va - va % 4096) as u64
}

/// Bit facts about addresses.
proof fn lemma_address_bits(va: u64)
    by (bit_vector)
    ensures
        va & !0xfffu64 == va - va % 4096,
        (va >> 39) & 0x1ff == va / 0x80_0000_0000 % 512,
        (va >> 30) & 0x1ff == va / 0x4000_0000 % 512,
        (va >> 21) & 0x1ff == va / 0x20_0000 % 512,
        (va >> 12) & 0x1ff == va / 0x1000 % 512,
        va & 1 == va % 2,
        ((va >> 7) & 1 == 1) == (va / 128 % 2 == 1),
        va & 0x000f_ffff_ffff_f000 <= 0x000f_ffff_ffff_f000,
{
}

/// Bit facts about the entry of a fresh frame.
proof fn lemma_leaf_bits(addr: u64)
    by (bit_vector)
    requires
        addr % 4096 == 0,
        addr <= 0x000f_ffff_ffff_f000,
    ensures
        (addr | 0x3) % 2 == 1,
        (addr | 0x3) & 0x000f_ffff_ffff_f000 == addr,
{
}

/// Rounds an address down to a page.
pub fn page_of(va: u64) -> (r: u64)
    ensures
        r == page_start(va),
{
    proof {
        lemma_address_bits(va);
    }
    va & !0xfff
}

/// A walk down the tables to the entry for an address.
#[derive(Clone, Copy, Debug, PartialEq, Eq, Structural)]
pub struct TableWalk {
    pub va: u64,
    /// The table that is looked at, and its level.
    pub table: u64,
    pub level: u8,
}

/// What an entry says to a walk.
#[derive(Clone, Copy, Debug, PartialEq, Eq, Structural)]
pub enum WalkStep {
    NotPresent,
    Huge,
    /// The walk goes on in this table; at the lowest level it is the page.
    Next(u64),
}

/// What an entry says to a walk.
pub open spec fn step_of(e: u64) -> WalkStep {
    if !entry_present(e) {
        WalkStep::NotPresent
    } else if entry_huge(e) {
        WalkStep::Huge
    } else {
        WalkStep::Next(entry_address(e))
    }
}

/// What an entry says to a walk.
pub fn examine(e: u64) -> (r: WalkStep)
    ensures
        r == step_of(e),
{
    proof {
        lemma_address_bits(e);
    }
    if e & 1 == 0 {
        return WalkStep::NotPresent;
    }
    if (e >> 7) & 1 == 1 {
        return WalkStep::Huge;
    }
    WalkStep::Next(e & ADDRESS_BITS)
}

impl TableWalk {
    pub open spec fn wf(self) -> bool {
        1 <= self.level <= TOP_LEVEL
    }

    /// Where the entry is that is looked at.
    pub open spec fn slot(self) -> int {
        self.table + table_index(self.va, self.level as int) * 8
    }

    /// Which entry of the table is looked at.
    pub fn index(&self) -> (r: u64)
        requires
            self.wf(),
        ensures
            r == table_index(self.va, self.level as int),
            r < 512,
    {
        let va: u64 = self.va;
        proof {
            lemma_address_bits(va);
        }
        match self.level {
            4 => (va >> 39) & 0x1ff,
            3 => (va >> 30) & 0x1ff,
            2 => (va >> 21) & 0x1ff,
            _ => (va >> 12) & 0x1ff,
        }
    }

    /// Where the entry is that is looked at, in the direct map.
    pub fn entry_addr(&self, hhdm: u64) -> (r: u64)
        requires
            self.wf(),
            hhdm + self.table + 4096 <= u64::MAX,
        ensures
            r == hhdm + self.slot(),
    {
        hhdm + self.table + self.index() * 8
    }

    /// Takes an entry and goes down to the table that it names. Answers no, and stays, if
    /// there is none: the entry is not present, or stands for a large page.
    pub fn descend(&mut self, e: u64) -> (r: bool)
        requires
            old(self).wf(),
            old(self).level > 1,
        ensures
            final(self).wf(),
            r == (step_of(e) is Next),
            *final(self) == if r {
                TableWalk {
                    va: old(self).va,
                    table: entry_address(e),
                    level: (old(self).level - 1) as u8,
                }
            } else {
                *old(self)
            },
    {
        match examine(e) {
            WalkStep::Next(table) => {
                self.table = table;
                self.level = self.level - 1;
                true
            },
            _ => false,
        }
    }
}

/// What is reported of one level of a walk.
#[derive(Clone, Copy, Debug, PartialEq, Eq, Structural)]
pub struct LevelReport {
    pub level: u8,
    pub index: u64,
    pub entry: u64,
    pub present: bool,
    pub huge: bool,
    pub phys: u64,
}

/// How a walk ends.
#[derive(Clone, Copy, Debug, PartialEq, Eq, Structural)]
pub enum WalkEnd {
    NotPresent,
    Huge,
    /// The address is on a page of the ordinary size.
    Mapped,
}

/// The report of the level at which a walk is, with this entry there.
pub open spec fn level_report(w: TableWalk, e: u64) -> LevelReport {
    LevelReport {
        level: w.level,
        index: table_index(w.va, w.level as int) as u64,
        entry: e,
        present: entry_present(e),
        huge: entry_huge(e),
        phys: entry_address(e),
    }
}

/// Whether a walk ends at this entry, and how.
pub open spec fn walk_end(level: u8, e: u64) -> Option<WalkEnd> {
    match step_of(e) {
        WalkStep::NotPresent => Some(WalkEnd::NotPresent),
        WalkStep::Huge => Some(WalkEnd::Huge),
        WalkStep::Next(_) => if level == 1 {
            Some(WalkEnd::Mapped)
        } else {
            None
        },
    }
}

/// Starts a walk for an address, at the topmost table, to report each level.
pub fn dump_walk(top_table: u64, va: u64) -> (r: TableWalk)
    ensures
        r.wf(),
        r == (TableWalk { va, table: top_table, level: TOP_LEVEL }),
{
    TableWalk { va, table: top_table, level: TOP_LEVEL }
}

/// Takes the entry at a level of a walk: gives the report of the level and whether the
/// walk ends there. If it does not, the walk is at the next level.
pub fn dump_level(w: &mut TableWalk, e: u64) -> (r: (LevelReport, Option<WalkEnd>))
    requires
        old(w).wf(),
    ensures
        final(w).wf(),
        r.0 == level_report(*old(w), e),
        r.1 == walk_end(old(w).level, e),
        *final(w) == if r.1 is None {
            TableWalk {
                va: old(w).va,
                table: entry_address(e),
                level: (old(w).level - 1) as u8,
            }
        } else {
            *old(w)
        },
{
    proof {
        lemma_address_bits(e);
    }
    let report = LevelReport {
        level: w.level,
        index: w.index(),
        entry: e,
        present: e & 1 == 1,
        huge: (e >> 7) & 1 == 1,
        phys: e & ADDRESS_BITS,
    };
    let end = match examine(e) {
        WalkStep::NotPresent => Some(WalkEnd::NotPresent),
        WalkStep::Huge => Some(WalkEnd::Huge),
        WalkStep::Next(_) => {
            if w.level == 1 {
                Some(WalkEnd::Mapped)
            } else {
                let _ = w.descend(e);
                None
            }
        },
    };
    (report, end)
}

/// The entry for a page that is not mapped.
pub const UNMAPPED: u64 = 0;

/// The entry that maps a frame, present and writable.
pub open spec fn leaf_entry(frame: u64) -> u64 {
    ((frame * 4096) as u64) | PRESENT_WRITABLE
}

/// What a job is for.
#[derive(Clone, Copy, Debug, PartialEq, Eq, Structural)]
pub enum JobKind {
    MapPage,
    UnmapPage,
}

/// How far a job is.
#[derive(Clone, Copy, Debug, PartialEq, Eq, Structural)]
pub enum JobStage {
    Read,
    TakeFrame,
    Write(u64),
    Flush,
    Clear,
    Done(bool),
}

/// A job on one page: the walk to its lowest entry, and what is written there. The tables
/// above must be there; a job makes none.
#[derive(Clone, Copy, Debug, PartialEq, Eq, Structural)]
pub struct PageJob {
    pub walk: TableWalk,
    pub kind: JobKind,
    pub stage: JobStage,
}

/// What to do next for a job. Entries are named by their address in the direct map.
#[derive(Clone, Copy, Debug, PartialEq, Eq, Structural)]
pub enum PageOp {
    ReadEntry(u64),
    TakeFrame,
    WriteEntry(u64, u64),
    /// The processor is to forget what it knows of the page.
    Flush(u64),
    /// The page is to be filled with zeroes.
    ClearPage(u64),
    /// The job is done: whether the page is now as it should be.
    Done(bool),
}

/// What came of it.
#[derive(Clone, Copy, Debug, PartialEq, Eq, Structural)]
pub enum PageEvent {
    Entry(u64),
    Frame(u64),
    NoFrame,
    Did,
}

impl PageJob {
    /// The lowest level is reached before anything is written.
    pub open spec fn wf(self) -> bool {
        &&& self.walk.wf()
        &&& match self.stage {
            JobStage::Read => self.walk.level > 1 || self.kind == JobKind::MapPage,
            JobStage::Done(_) => true,
            _ => self.walk.level == 1,
        }
    }

    /// What to do next.
    pub open spec fn next_op(self, hhdm: u64) -> PageOp {
        match self.stage {
            JobStage::Read => PageOp::ReadEntry((hhdm + self.walk.slot()) as u64),
            JobStage::TakeFrame => PageOp::TakeFrame,
            JobStage::Write(e) => PageOp::WriteEntry((hhdm + self.walk.slot()) as u64, e),
            JobStage::Flush => PageOp::Flush(self.walk.va),
            JobStage::Clear => PageOp::ClearPage(self.walk.va),
            JobStage::Done(ok) => PageOp::Done(ok),
        }
    }

    /// The job after what came of it.
    pub open spec fn after(self, ev: PageEvent) -> PageJob {
        match self.stage {
            JobStage::Read => {
                let e = match ev {
                    PageEvent::Entry(e) => e,
                    _ => UNMAPPED,
                };
                if self.walk.level == 1 {
                    PageJob {
                        stage: if entry_present(e) {
                            JobStage::Done(true)
                        } else {
                            JobStage::TakeFrame
                        },
                        ..self
                    }
                } else {
                    match step_of(e) {
                        WalkStep::Next(table) => PageJob {
                            walk: TableWalk {
                                va: self.walk.va,
                                table,
                                level: (self.walk.level - 1) as u8,
                            },
                            stage: if self.walk.level == 2 && self.kind == JobKind::UnmapPage {
                                JobStage::Write(UNMAPPED)
                            } else {
                                JobStage::Read
                            },
                            ..self
                        },
                        _ => PageJob { stage: JobStage::Done(false), ..self },
                    }
                }
            },
            JobStage::TakeFrame => PageJob {
                stage: match ev {
                    PageEvent::Frame(f) => JobStage::Write(leaf_entry(f)),
                    _ => JobStage::Done(false),
                },
                ..self
            },
            JobStage::Write(_) => PageJob { stage: JobStage::Flush, ..self },
            JobStage::Flush => PageJob {
                stage: if self.kind == JobKind::MapPage {
                    JobStage::Clear
                } else {
                    JobStage::Done(true)
                },
                ..self
            },
            JobStage::Clear => PageJob { stage: JobStage::Done(true), ..self },
            JobStage::Done(_) => self,
        }
    }

    /// What to do next.
    pub fn op(&self, hhdm: u64) -> (r: PageOp)
        requires
            self.wf(),
            hhdm + self.walk.table + 4096 <= u64::MAX,
        ensures
            r == self.next_op(hhdm),
    {
        match self.stage {
            JobStage::Read => PageOp::ReadEntry(self.walk.entry_addr(hhdm)),
            JobStage::TakeFrame => PageOp::TakeFrame,
            JobStage::Write(e) => PageOp::WriteEntry(self.walk.entry_addr(hhdm), e),
            JobStage::Flush => PageOp::Flush(self.walk.va),
            JobStage::Clear => PageOp::ClearPage(self.walk.va),
            JobStage::Done(ok) => PageOp::Done(ok),
        }
    }

    /// Takes what came of it. A frame must have an address that an entry can hold.
    pub fn advance(&mut self, ev: PageEvent)
        requires
            old(self).wf(),
            ev matches PageEvent::Frame(f) ==> f * 4096 <= ADDRESS_BITS,
        ensures
            final(self).wf(),
            *final(self) == old(self).after(ev),
    {
        match self.stage {
            JobStage::Read => {
                let e: u64 = match ev {
                    PageEvent::Entry(e) => e,
                    _ => UNMAPPED,
                };
                if self.walk.level == 1 {
                    proof {
                        lemma_address_bits(e);
                    }
                    self.stage = if e & 1 == 1 {
                        JobStage::Done(true)
                    } else {
                        JobStage::TakeFrame
                    };
                } else if self.walk.descend(e) {
                    if self.walk.level == 1 && matches!(self.kind, JobKind::UnmapPage) {
                        self.stage = JobStage::Write(UNMAPPED);
                    }
                } else {
                    self.stage = JobStage::Done(false);
                }
            },
            JobStage::TakeFrame => {
                self.stage = match ev {
                    PageEvent::Frame(f) => JobStage::Write((f * 4096) | PRESENT_WRITABLE),
                    _ => JobStage::Done(false),
                };
            },
            JobStage::Write(_) => {
                self.stage = JobStage::Flush;
            },
            JobStage::Flush => {
                self.stage = match self.kind {
                    JobKind::MapPage => JobStage::Clear,
                    JobKind::UnmapPage => JobStage::Done(true),
                };
            },
            JobStage::Clear => {
                self.stage = JobStage::Done(true);
            },
            JobStage::Done(_) => {},
        }
    }
}

/// A job for the page of an address, before its first step.
pub open spec fn job_start(top_table: u64, va: u64, kind: JobKind) -> PageJob {
    PageJob {
        walk: TableWalk { va: page_start(va), table: top_table, level: TOP_LEVEL },
        kind,
        stage: JobStage::Read,
    }
}

/// Starts to map the page of an address to a fresh frame, filled with zeroes. A page that
/// is mapped already stays as it is.
pub fn manual_map(top_table: u64, va: u64) -> (r: PageJob)
    ensures
        r.wf(),
        r == job_start(top_table, va, JobKind::MapPage),
{
    PageJob {
        walk: TableWalk { va: page_of(va), table: top_table, level: TOP_LEVEL },
        kind: JobKind::MapPage,
        stage: JobStage::Read,
    }
}

/// Starts to unmap the page of an address, so that touching it faults. Its frame is not
/// given back.
pub fn unmap_page(top_table: u64, va: u64) -> (r: PageJob)
    ensures
        r.wf(),
        r == job_start(top_table, va, JobKind::UnmapPage),
{
    PageJob {
        walk: TableWalk { va: page_of(va), table: top_table, level: TOP_LEVEL },
        kind: JobKind::UnmapPage,
        stage: JobStage::Read,
    }
}

/// What it takes to have a page mapped.
#[derive(Clone, Copy, Debug, PartialEq, Eq, Structural)]
pub enum OnePage {
    AlreadyMapped,
    NoFrame,
    /// The page is to be mapped like this and filled with zeroes.
    MapTo(PageMap),
}

/// Sees to it that the page of an address is mapped, given whether it is: if not, it takes a
/// frame for it.
pub fn map_one_page(mem: &mut Memory, addr: u64, is_mapped: bool) -> (r: OnePage)
    requires
        old(mem).wf(),
    ensures
        final(mem).wf(),
        final(mem).hhdm_offset == old(mem).hhdm_offset,
        if is_mapped {
            r == OnePage::AlreadyMapped && *final(mem) == *old(mem)
        } else if old(mem).frames() == Set::<int>::empty() {
            r == OnePage::NoFrame && *final(mem) == *old(mem)
        } else {
            exists|frame: u64|
                {
                    &&& #[trigger] crate::memory::takes_lowest(
                        old(mem).frames(),
                        frame as int,
                        final(mem).frames(),
                    )
                    &&& r == OnePage::MapTo(
                        PageMap {
                            va: page_start(addr),
                            phys: (frame * 4096) as u64,
                            writable: true,
                            executable: true,
                            no_cache: false,
                        },
                    )
                }
        },
{
    if is_mapped {
        return OnePage::AlreadyMapped;
    }
    match allocate_frame(mem) {
        Some(frame) => {
            assert(old(mem).frames().contains(frame as int));
            OnePage::MapTo(
                PageMap {
                    va: page_of(addr),
                    phys: frame * 4096,
                    writable: true,
                    executable: true,
                    no_cache: false,
                },
            )
        },
        None => OnePage::NoFrame,
    }
}

/// A page of device registers: both addresses rounded down to pages, writable, not cached
/// and not executable.
pub fn map_mmio(virt: u64, phys: u64) -> (r: PageMap)
    ensures
        r == (PageMap {
            va: page_start(virt),
            phys: page_start(phys),
            writable: true,
            executable: false,
            no_cache: true,
        }),
{
    PageMap {
        va: page_of(virt),
        phys: page_of(phys),
        writable: true,
        executable: false,
        no_cache: true,
    }
}

/// What physical memory holds, by the address of each entry.
pub type Tables = Map<int, u64>;

/// The walk after `n` levels, or `None` if it ends before.
pub open spec fn walked(t: Tables, top: u64, va: u64, n: nat) -> Option<TableWalk>
    decreases n,
{
    if n == 0 {
        Some(TableWalk { va, table: top, level: TOP_LEVEL })
    } else {
        match walked(t, top, va, (n - 1) as nat) {
            Some(w) => match step_of(t[w.slot()]) {
                WalkStep::Next(table) => Some(
                    TableWalk { va, table, level: (w.level - 1) as u8 },
                ),
                _ => None,
            },
            None => None,
        }
    }
}

/// Where the lowest entry for an address is, if the tables above it are there.
pub open spec fn leaf_slot(t: Tables, top: u64, va: u64) -> Option<int> {
    match walked(t, top, va, 3) {
        Some(w) => Some(w.slot()),
        None => None,
    }
}

/// The page that an address is mapped to, if it is.
pub open spec fn mapped_page(t: Tables, top: u64, va: u64) -> Option<u64> {
    match leaf_slot(t, top, va) {
        Some(slot) => if entry_present(t[slot]) {
            Some(entry_address(t[slot]))
        } else {
            None
        },
        None => None,
    }
}

/// The walk for an address does not read this entry on its way to the lowest table.
pub open spec fn off_path(t: Tables, top: u64, va: u64, slot: int) -> bool {
    forall|n: nat|
        n < 3 && (#[trigger] walked(t, top, va, n)) is Some ==> walked(t, top, va, n)->0.slot()
            != slot
}

/// Writing an entry that a walk does not read does not change the walk.
proof fn lemma_walk_unchanged(t: Tables, top: u64, va: u64, slot: int, e: u64, n: nat)
    requires
        off_path(t, top, va, slot),
        n <= 3,
    ensures
        walked(t.insert(slot, e), top, va, n) == walked(t, top, va, n),
    decreases n,
{
    if n > 0 {
        lemma_walk_unchanged(t, top, va, slot, e, (n - 1) as nat);
        assert(walked(t, top, va, (n - 1) as nat) is Some ==> walked(
            t,
            top,
            va,
            (n - 1) as nat,
        )->0.slot() != slot);
    }
}

/// A page whose lowest entry is written with a frame is mapped to that frame, as long as
/// the entry is not also one of those above it.
pub proof fn law_mapped_page_is_the_frame(t: Tables, top: u64, va: u64, slot: int, frame: u64)
    requires
        leaf_slot(t, top, va) == Some(slot),
        off_path(t, top, va, slot),
        frame * 4096 <= ADDRESS_BITS,
    ensures
        mapped_page(t.insert(slot, leaf_entry(frame)), top, va) == Some((frame * 4096) as u64),
{
    let e = leaf_entry(frame);
    lemma_walk_unchanged(t, top, va, slot, e, 3);
    lemma_leaf_bits((frame * 4096) as u64);
}

/// A page whose lowest entry is cleared is not mapped any more.
pub proof fn law_unmapped_page_is_gone(t: Tables, top: u64, va: u64, slot: int)
    requires
        leaf_slot(t, top, va) == Some(slot),
        off_path(t, top, va, slot),
    ensures
        mapped_page(t.insert(slot, UNMAPPED), top, va) is None,
{
    lemma_walk_unchanged(t, top, va, slot, UNMAPPED, 3);
}

/// Writing the entry of one page leaves every other page as it was whose walk does not
/// read that entry.
pub proof fn law_other_pages_stay(t: Tables, top: u64, va: u64, slot: int, e: u64)
    requires
        off_path(t, top, va, slot),
        leaf_slot(t, top, va) != Some(slot),
    ensures
        mapped_page(t.insert(slot, e), top, va) == mapped_page(t, top, va),
{
    lemma_walk_unchanged(t, top, va, slot, e, 3);
}

/// The tables and the job after one step, with `frame` the frame that is there to take, if
/// any.
pub open spec fn job_step(t: Tables, job: PageJob, frame: Option<u64>) -> (Tables, PageJob) {
    match job.stage {
        JobStage::Read => (t, job.after(PageEvent::Entry(t[job.walk.slot()]))),
        JobStage::TakeFrame => (
            t,
            job.after(
                match frame {
                    Some(f) => PageEvent::Frame(f),
                    None => PageEvent::NoFrame,
                },
            ),
        ),
        JobStage::Write(e) => (t.insert(job.walk.slot(), e), job.after(PageEvent::Did)),
        _ => (t, job.after(PageEvent::Did)),
    }
}

/// The tables and the job after `n` steps.
pub open spec fn job_run(t: Tables, job: PageJob, frame: Option<u64>, n: nat) -> (Tables, PageJob)
    decreases n,
{
    if n == 0 {
        (t, job)
    } else {
        let (t1, job1) = job_run(t, job, frame, (n - 1) as nat);
        job_step(t1, job1, frame)
    }
}

/// The steps that a job takes at most.
pub const JOB_STEPS: u64 = 8;

/// The walk of a job reads the entries that lead to the page.
proof fn lemma_job_walks(t: Tables, top: u64, va: u64, kind: JobKind, frame: Option<u64>, n: nat)
    requires
        n <= 3,
        va == page_start(va),
    ensures
        ({
            let (t2, job) = job_run(t, job_start(top, va, kind), frame, n);
            &&& t2 == t
            &&& match walked(t, top, va, n) {
                Some(w) => {
                    &&& job.walk == w
                    &&& w.level == 4 - n
                    &&& w.va == va
                    &&& job.kind == kind
                    &&& job.stage == if n == 3 && kind == JobKind::UnmapPage {
                        JobStage::Write(UNMAPPED)
                    } else {
                        JobStage::Read
                    }
                },
                None => job.stage == JobStage::Done(false),
            }
        }),
    decreases n,
{
    if n > 0 {
        lemma_job_walks(t, top, va, kind, frame, (n - 1) as nat);
    }
}

/// A job that is done stays done.
proof fn lemma_done_stays(t: Tables, job: PageJob, frame: Option<u64>, m: nat, n: nat)
    requires
        m <= n,
        job_run(t, job, frame, m).1.stage is Done,
    ensures
        job_run(t, job, frame, n) == job_run(t, job, frame, m),
    decreases n,
{
    if m < n {
        lemma_done_stays(t, job, frame, m, (n - 1) as nat);
    }
}

/// A job to map a page ends well if and only if the tables above it are there and it is
/// mapped already or a frame is there. It then is mapped, to what it was or to the frame.
/// If it ends badly no entry was changed. As for the law of a single entry, the entry of
/// the page is not one of those above it.
pub proof fn law_map_job_maps(t: Tables, top: u64, va: u64, frame: Option<u64>)
    requires
        leaf_slot(t, top, page_start(va)) matches Some(slot) ==> off_path(
            t,
            top,
            page_start(va),
            slot,
        ),
        frame matches Some(f) ==> f * 4096 <= ADDRESS_BITS,
    ensures
        ({
            let page = page_start(va);
            let (t2, job) = job_run(t, job_start(top, va, JobKind::MapPage), frame, JOB_STEPS as nat);
            let was = mapped_page(t, top, page);
            &&& job.stage == JobStage::Done(
                leaf_slot(t, top, page) is Some && (was is Some || frame is Some),
            )
            &&& was is Some ==> t2 == t
            &&& job.stage == JobStage::Done(false) ==> t2 == t
            &&& job.stage == JobStage::Done(true) && was is None ==> mapped_page(t2, top, page)
                == Some((frame->0 * 4096) as u64)
        }),
{
    let page = page_start(va);
    let start = job_start(top, va, JobKind::MapPage);
    assert(page_start(page) == page);
    assert(start == job_start(top, page, JobKind::MapPage));
    lemma_job_walks(t, top, page, JobKind::MapPage, frame, 3);
    match walked(t, top, page, 3) {
        None => {
            lemma_done_stays(t, start, frame, 3, JOB_STEPS as nat);
        },
        Some(w) => {
            let slot = w.slot();
            assert(job_run(t, start, frame, 4) == job_step(t, job_run(t, start, frame, 3).1, frame));
            if entry_present(t[slot]) {
                lemma_done_stays(t, start, frame, 4, JOB_STEPS as nat);
            } else {
                let j4 = job_run(t, start, frame, 4).1;
                assert(j4.stage == JobStage::TakeFrame);
                assert(job_run(t, start, frame, 5) == job_step(t, j4, frame));
                match frame {
                    None => {
                        lemma_done_stays(t, start, frame, 5, JOB_STEPS as nat);
                    },
                    Some(f) => {
                        let j5 = job_run(t, start, frame, 5).1;
                        let t6 = t.insert(slot, leaf_entry(f));
                        assert(job_run(t, start, frame, 6) == job_step(t, j5, frame));
                        let j6 = job_run(t, start, frame, 6).1;
                        assert(job_run(t, start, frame, 7) == job_step(t6, j6, frame));
                        let j7 = job_run(t, start, frame, 7).1;
                        assert(job_run(t, start, frame, 8) == job_step(t6, j7, frame));
                        law_mapped_page_is_the_frame(t, top, page, slot, f);
                    },
                }
            }
        },
    }
}

/// A job to unmap a page ends well if and only if the tables above it are there, and the
/// page then is not mapped. If it ends badly no entry was changed.
pub proof fn law_unmap_job_unmaps(t: Tables, top: u64, va: u64, frame: Option<u64>)
    requires
        leaf_slot(t, top, page_start(va)) matches Some(slot) ==> off_path(
            t,
            top,
            page_start(va),
            slot,
        ),
    ensures
        ({
            let page = page_start(va);
            let (t2, job) = job_run(t, job_start(top, va, JobKind::UnmapPage), frame, JOB_STEPS as nat);
            &&& job.stage == JobStage::Done(leaf_slot(t, top, page) is Some)
            &&& mapped_page(t2, top, page) is None
            &&& job.stage == JobStage::Done(false) ==> t2 == t
        }),
{
    let page = page_start(va);
    let start = job_start(top, va, JobKind::UnmapPage);
    assert(page_start(page) == page);
    assert(start == job_start(top, page, JobKind::UnmapPage));
    lemma_job_walks(t, top, page, JobKind::UnmapPage, frame, 3);
    match walked(t, top, page, 3) {
        None => {
            lemma_done_stays(t, start, frame, 3, JOB_STEPS as nat);
        },
        Some(w) => {
            let slot = w.slot();
            let j3 = job_run(t, start, frame, 3).1;
            let t4 = t.insert(slot, UNMAPPED);
            assert(job_run(t, start, frame, 4) == job_step(t, j3, frame));
            let j4 = job_run(t, start, frame, 4).1;
            assert(job_run(t, start, frame, 5) == job_step(t4, j4, frame));
            lemma_done_stays(t, start, frame, 5, JOB_STEPS as nat);
            law_unmapped_page_is_gone(t, top, page, slot);
        },
    }
}

/// The four indices of a walk name the page: each is the number of an entry in a table of
/// 512, and put together at the weights of their levels they give the low 48 bits of the
/// address, up to the page.
pub proof fn law_indices_name_the_page(va: u64)
    ensures
        forall|level: int| 0 <= #[trigger] table_index(va, level) < 512,
        table_index(va, 4) * 0x80_0000_0000 + table_index(va, 3) * 0x4000_0000 + table_index(va, 2)
            * 0x20_0000 + table_index(va, 1) * 0x1000 == va % 0x1_0000_0000_0000 - va % 0x1000,
{
    lemma_split_address(va);
}

/// An address is made up of its indices and the place in its page.
proof fn lemma_split_address(va: u64)
    by (bit_vector)
    ensures
        va / 0x80_0000_0000 % 512 * 0x80_0000_0000 + va / 0x4000_0000 % 512 * 0x4000_0000 + va
            / 0x20_0000 % 512 * 0x20_0000 + va / 0x1000 % 512 * 0x1000 == va % 0x1_0000_0000_0000
            - va % 0x1000,
{
}

/// Two addresses whose walks read the same four entries of the same tables are on the same
/// page, as far as the hardware tells addresses apart.
pub proof fn law_other_pages_have_other_indices(a: u64, b: u64)
    requires
        forall|level: int|
            1 <= level <= 4 ==> #[trigger] table_index(a, level) == table_index(b, level),
    ensures
        a % 0x1_0000_0000_0000 - a % 0x1000 == b % 0x1_0000_0000_0000 - b % 0x1000,
{
    law_indices_name_the_page(a);
    law_indices_name_the_page(b);
    assert(table_index(a, 4) == table_index(b, 4));
    assert(table_index(a, 3) == table_index(b, 3));
    assert(table_index(a, 2) == table_index(b, 2));
    assert(table_index(a, 1) == table_index(b, 1));
}

/// A walk reads one of the 512 entries of the table it is at, of eight bytes each: the one
/// with the index of its level.
pub proof fn law_walk_reads_an_entry_of_its_table(w: TableWalk)
    ensures
        w.table <= w.slot() <= w.table + 0xff8,
        (w.slot() - w.table) % 8 == 0,
        (w.slot() - w.table) / 8 == table_index(w.va, w.level as int),
{
}

/// What an entry says. It counts if its lowest bit is set, it stands for a large page if the
/// bit of weight 128 is set, and it holds the address whose bits 12 to 51 are its own.
pub proof fn law_entry_bits_mean(e: u64)
    ensures
        step_of(e) == WalkStep::NotPresent <==> e % 2 == 0,
        step_of(e) == WalkStep::Huge <==> e % 2 == 1 && e / 128 % 2 == 1,
        step_of(e) matches WalkStep::Next(a) ==> a == e % 0x10_0000_0000_0000 - e % 0x1000,
        entry_present(e) <==> e % 2 == 1,
        entry_huge(e) <==> e / 128 % 2 == 1,
        entry_address(e) == e % 0x10_0000_0000_0000 - e % 0x1000,
{
    lemma_entry_address(e, 0);
}

/// Masking an entry leaves its address; adding the two lowest bits to a page's address
/// leaves the address.
proof fn lemma_entry_address(e: u64, page: u64)
    by (bit_vector)
    ensures
        e & 0x000f_ffff_ffff_f000 == e % 0x10_0000_0000_0000 - e % 0x1000,
        page % 0x1000 == 0 ==> page | 0x3 == page + 3,
{
}

/// The entry for a frame is present and writable, is not for user code and not a large page,
/// and leads to the frame, for every frame that has an address of 52 bits.
pub proof fn law_entry_leads_to_its_frame(frame: u64)
    requires
        frame < 0x100_0000_0000,
    ensures
        leaf_entry(frame) == frame * 4096 + 3,
        step_of(leaf_entry(frame)) == WalkStep::Next((frame * 4096) as u64),
        entry_address(leaf_entry(frame)) == frame * 4096,
{
    let e = leaf_entry(frame);
    lemma_entry_address(e, (frame * 4096) as u64);
    assert(e % 0x1000 == 3);
    assert(e / 128 % 2 == 0);
}

/// The page of an address starts at a multiple of 4096 and holds the address.
pub proof fn law_page_holds_its_address(va: u64)
    ensures
        page_start(va) % 4096 == 0,
        page_start(va) <= va < page_start(va) + 4096,
{
}

/// A job never leaves its page: whatever the tables hold, at every step what it flushes or
/// clears is the page of the address it was started for, and every entry that it reads or
/// writes is the one of its walk, in the direct map.
pub proof fn law_job_stays_with_its_page(
    t: Tables,
    top: u64,
    va: u64,
    kind: JobKind,
    frame: Option<u64>,
    hhdm: u64,
    n: nat,
)
    ensures
        ({
            let job = job_run(t, job_start(top, va, kind), frame, n).1;
            let page = va - va % 4096;
            &&& job.walk.va == page
            &&& job.kind == kind
            &&& match job.next_op(hhdm) {
                PageOp::Flush(p) => p == page && job.stage == JobStage::Flush,
                PageOp::ClearPage(p) => p == page && job.stage == JobStage::Clear,
                PageOp::ReadEntry(a) => a == (hhdm + job.walk.slot()) as u64,
                PageOp::WriteEntry(a, e) => a == (hhdm + job.walk.slot()) as u64 && job.stage
                    == JobStage::Write(e),
                PageOp::TakeFrame => job.stage == JobStage::TakeFrame,
                PageOp::Done(ok) => job.stage == JobStage::Done(ok),
            }
        }),
    decreases n,
{
    if n > 0 {
        law_job_stays_with_its_page(t, top, va, kind, frame, hhdm, (n - 1) as nat);
    }
}

/// No write goes unnoticed by the processor: after an entry was written the page is flushed
/// next, and only then is the job done; a page that was mapped is cleared in between.
pub proof fn law_write_is_followed_by_a_flush(job: PageJob, e: u64, ev: PageEvent, ev2: PageEvent)
    requires
        job.stage == JobStage::Write(e),
    ensures
        job.after(ev).stage == JobStage::Flush,
        job.kind == JobKind::UnmapPage ==> job.after(ev).after(ev2).stage == JobStage::Done(true),
        job.kind == JobKind::MapPage ==> job.after(ev).after(ev2).stage == JobStage::Clear,
        job.kind == JobKind::MapPage ==> job.after(ev).after(ev2).after(ev2).stage
            == JobStage::Done(true),
{
}

/// The report of a level says what its entry says, and a walk ends where an entry leads
/// nowhere, at a large page, or at the lowest level.
pub proof fn law_report_says_what_the_entry_says(w: TableWalk, e: u64)
    requires
        w.wf(),
    ensures
        ({
            let r = level_report(w, e);
            &&& r.level == w.level
            &&& w.table + 8 * r.index == w.slot()
            &&& r.entry == e
            &&& r.present == (e % 2 == 1)
            &&& r.huge == (e / 128 % 2 == 1)
            &&& r.phys == e % 0x10_0000_0000_0000 - e % 0x1000
        }),
        walk_end(w.level, e) == if e % 2 == 0 {
            Some(WalkEnd::NotPresent)
        } else if e / 128 % 2 == 1 {
            Some(WalkEnd::Huge)
        } else if w.level == 1 {
            Some(WalkEnd::Mapped)
        } else {
            None
        },
{
    law_entry_bits_mean(e);
}

/// A job makes no tables: where the walk finds a table missing, or a large page in its place, it
/// ends without having written anything. Where there is a table the walk goes on in it, one
/// level lower and for the same address.
pub proof fn law_job_makes_no_tables(job: PageJob, e: u64, hhdm: u64)
    requires
        job.wf(),
        job.stage == JobStage::Read,
        job.walk.level > 1,
    ensures
        ({
            let next = job.after(PageEvent::Entry(e));
            let table = e % 2 == 1 && e / 128 % 2 == 0;
            &&& !table ==> next.next_op(hhdm) == PageOp::Done(false)
            &&& table ==> {
                &&& next.walk.level == job.walk.level - 1
                &&& next.walk.va == job.walk.va
                &&& next.walk.table == entry_address(e)
                &&& next.kind == job.kind
                &&& job.kind == JobKind::UnmapPage && job.walk.level == 2 ==> next.next_op(hhdm)
                    == PageOp::WriteEntry((hhdm + next.walk.slot()) as u64, 0)
                &&& !(job.kind == JobKind::UnmapPage && job.walk.level == 2) ==> next.next_op(hhdm)
                    == PageOp::ReadEntry((hhdm + next.walk.slot()) as u64)
            }
        }),
{
    law_entry_bits_mean(e);
}

/// A page that is there is left as it is; for one that is not, a frame is taken. Without a frame
/// the page stays as it is.
pub proof fn law_page_that_is_there_is_left(job: PageJob, e: u64, frame: u64, hhdm: u64)
    requires
        job.stage == JobStage::Read,
        job.walk.level == 1,
    ensures
        ({
            let next = job.after(PageEvent::Entry(e));
            &&& e % 2 == 1 ==> next.next_op(hhdm) == PageOp::Done(true)
            &&& e % 2 == 0 ==> {
                &&& next.next_op(hhdm) == PageOp::TakeFrame
                &&& next.after(PageEvent::NoFrame).next_op(hhdm) == PageOp::Done(false)
                &&& next.after(PageEvent::Frame(frame)).next_op(hhdm) == PageOp::WriteEntry(
                    (hhdm + job.walk.slot()) as u64,
                    leaf_entry(frame),
                )
            }
        }),
{
    law_entry_bits_mean(e);
}

} // verus!
