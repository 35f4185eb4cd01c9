//! The segments: in which order they stand in the descriptor table, and the selectors
//! that follow from it.
//!
//! `syscall` and `sysret` fix the order: the kernel's stack segment follows its code
//! segment, and the user's code segment follows the user's stack segment.
use vstd::prelude::*;
use x86_64::structures::gdt::{Descriptor, GlobalDescriptorTable};
use x86_64::structures::tss::TaskStateSegment;

verus! {

/// Which stack of the task state segment the double fault handler runs on.
pub const DOUBLE_FAULT_IST_INDEX: u16 = 0;

/// Which stack of the task state segment the page fault handler runs on.
pub const PAGE_FAULT_IST_INDEX: u16 = 1;

/// Entries that a descriptor table has room for.
pub const GDT_ENTRIES: usize = 8;

/// The descriptor table of the `x86_64` crate, taken as it is.
#[verifier::external_type_specification]
#[verifier::external_body]
pub struct ExGlobalDescriptorTable<const MAX: usize>(GlobalDescriptorTable<MAX>);

/// The task state segment of the `x86_64` crate, taken as it is.
#[verifier::external_type_specification]
#[verifier::external_body]
pub struct ExTaskStateSegment(TaskStateSegment);

/// The entries that a descriptor table holds, the null entry first.
pub uninterp spec fn gdt_entries(gdt: GlobalDescriptorTable<8>) -> Seq<u64>;

/// A segment descriptor: one word for a code or data segment, two for a system segment.
#[derive(Clone, Copy, Debug, PartialEq, Eq, Structural)]
pub enum Segment {
    User(u64),
    System(u64, u64),
}

/// The words of a descriptor.
pub open spec fn segment_words(s: Segment) -> Seq<u64> {
    match s {
        Segment::User(w) => seq![w],
        Segment::System(lo, hi) => seq![lo, hi],
    }
}

/// The privilege level that a descriptor's first word names.
pub open spec fn segment_ring(word: u64) -> int {
    word as int / 0x2000_0000_0000 % 4
}

/// The selector for entry `index` at a privilege level.
pub open spec fn selector(index: int, ring: int) -> int {
    index * 8 + ring
}

/// `GlobalDescriptorTable::new`: a table with the null entry and nothing else.
#[verifier::external_body]
fn gdt_new() -> (r: GlobalDescriptorTable<8>)
    ensures
        gdt_entries(r) == seq![0u64],
{
    GlobalDescriptorTable::new()
}

/// `GlobalDescriptorTable::append`: the words of the descriptor follow the entries that
/// are there, and the selector names the first of them at the descriptor's privilege
/// level. It panics if the words do not fit.
#[verifier::external_body]
fn gdt_append(gdt: &mut GlobalDescriptorTable<8>, segment: Segment) -> (r: u16)
    requires
        gdt_entries(*old(gdt)).len() + segment_words(segment).len() <= GDT_ENTRIES,
    ensures
        gdt_entries(*final(gdt)) == gdt_entries(*old(gdt)) + segment_words(segment),
        r == selector(
            gdt_entries(*old(gdt)).len() as int,
            segment_ring(segment_words(segment)[0]),
        ),
{
    let descriptor = match segment {
        Segment::User(w) => Descriptor::UserSegment(w),
        Segment::System(lo, hi) => Descriptor::SystemSegment(lo, hi),
    };
    gdt.append(descriptor).0
}

/// `Descriptor::kernel_code_segment`: a flat 64-bit code segment for the kernel.
#[verifier::external_body]
fn kernel_code_segment() -> (r: Segment)
    ensures
        r == Segment::User(0x00af_9b00_0000_ffff),
{
    match Descriptor::kernel_code_segment() {
        Descriptor::UserSegment(w) => Segment::User(w),
        Descriptor::SystemSegment(lo, hi) => Segment::System(lo, hi),
    }
}

/// `Descriptor::kernel_data_segment`: a flat data segment for the kernel.
#[verifier::external_body]
fn kernel_data_segment() -> (r: Segment)
    ensures
        r == Segment::User(0x00cf_9300_0000_ffff),
{
    match Descriptor::kernel_data_segment() {
        Descriptor::UserSegment(w) => Segment::User(w),
        Descriptor::SystemSegment(lo, hi) => Segment::System(lo, hi),
    }
}

/// `Descriptor::user_data_segment`: a flat data segment for user code.
#[verifier::external_body]
fn user_data_segment() -> (r: Segment)
    ensures
        r == Segment::User(0x00cf_f300_0000_ffff),
{
    match Descriptor::user_data_segment() {
        Descriptor::UserSegment(w) => Segment::User(w),
        Descriptor::SystemSegment(lo, hi) => Segment::System(lo, hi),
    }
}

/// `Descriptor::user_code_segment`: a flat 64-bit code segment for user code.
#[verifier::external_body]
fn user_code_segment() -> (r: Segment)
    ensures
        r == Segment::User(0x00af_fb00_0000_ffff),
{
    match Descriptor::user_code_segment() {
        Descriptor::UserSegment(w) => Segment::User(w),
        Descriptor::SystemSegment(lo, hi) => Segment::System(lo, hi),
    }
}

/// The words of a system segment for a task state segment: present, for the kernel, of the
/// kind that is available in 64-bit mode, at least as long as a task state segment, and
/// with the upper half of an address as its second word.
pub open spec fn is_task_segment(lo: u64, hi: u64) -> bool {
    &&& lo as int / 0x100_0000_0000 % 0x100 == 0x89
    &&& lo as int / 0x1_0000_0000_0000 % 0x100 == 0
    &&& lo % 0x1_0000 >= 103
    &&& hi <= u32::MAX
}

/// `Descriptor::tss_segment`: a system segment for the task state segment. The rest of its
/// words is the address of the task state segment, of which nothing is said here: to
/// Verus a reference has no address.
#[verifier::external_body]
fn tss_segment(tss: &'static TaskStateSegment) -> (r: Segment)
    ensures
        r is System,
        is_task_segment(segment_words(r)[0], segment_words(r)[1]),
{
    match Descriptor::tss_segment(tss) {
        Descriptor::UserSegment(w) => Segment::User(w),
        Descriptor::SystemSegment(lo, hi) => Segment::System(lo, hi),
    }
}

/// The selectors of the segments.
#[derive(Clone, Copy, Debug, PartialEq, Eq, Structural)]
pub struct GdtSelectors {
    pub code_selector: u16,
    pub data_selector: u16,
    pub user_code_selector: u16,
    pub user_data_selector: u16,
    pub tss_selector: u16,
}

/// The selectors fit `syscall` and `sysret`: the kernel's stack selector is one entry
/// behind its code selector, and of the user's, both at user privilege, the code selector
/// is one entry behind the stack selector.
pub open spec fn fits_syscall(s: GdtSelectors) -> bool {
    &&& s.data_selector == s.code_selector + 8
    &&& s.code_selector % 4 == 0
    &&& s.user_code_selector == s.user_data_selector + 8
    &&& s.user_data_selector % 4 == 3
}

/// The entries in front of the task state segment: the null entry, the kernel's code and
/// data, the user's data and code.
pub open spec fn flat_entries() -> Seq<u64> {
    seq![
        0u64,
        0x00af_9b00_0000_ffff,
        0x00cf_9300_0000_ffff,
        0x00cf_f300_0000_ffff,
        0x00af_fb00_0000_ffff,
    ]
}

/// Builds the descriptor table around the descriptor of a task state segment: behind the
/// kernel's code and data and the user's data and code stand the words of `task`.
pub fn build_with(task: Segment) -> (r: (GlobalDescriptorTable<8>, GdtSelectors))
    requires
        task is System,
    ensures
        gdt_entries(r.0) == flat_entries() + segment_words(task),
        r.1.code_selector == 0x08,
        r.1.data_selector == 0x10,
        r.1.user_data_selector == 0x1b,
        r.1.user_code_selector == 0x23,
        r.1.tss_selector == selector(5, segment_ring(segment_words(task)[0])),
        fits_syscall(r.1),
{
    let mut gdt = gdt_new();
    let code_selector: u16 = gdt_append(&mut gdt, kernel_code_segment());
    let data_selector: u16 = gdt_append(&mut gdt, kernel_data_segment());
    let user_data_selector: u16 = gdt_append(&mut gdt, user_data_segment());
    let user_code_selector: u16 = gdt_append(&mut gdt, user_code_segment());
    assert(gdt_entries(gdt) =~= flat_entries());
    let tss_selector: u16 = gdt_append(&mut gdt, task);
    (
        gdt,
        GdtSelectors {
            code_selector,
            data_selector,
            user_code_selector,
            user_data_selector,
            tss_selector,
        },
    )
}

/// Builds the descriptor table: the kernel's code and data, the user's data and code,
/// and the task state segment, which takes two entries.
pub fn build(tss: &'static TaskStateSegment) -> (r: (GlobalDescriptorTable<8>, GdtSelectors))
    ensures
        gdt_entries(r.0).len() == 7,
        gdt_entries(r.0).take(5) == flat_entries(),
        is_task_segment(gdt_entries(r.0)[5], gdt_entries(r.0)[6]),
        r.1 == (GdtSelectors {
            code_selector: 0x08,
            data_selector: 0x10,
            user_data_selector: 0x1b,
            user_code_selector: 0x23,
            tss_selector: 0x28,
        }),
        fits_syscall(r.1),
{
    let r = build_with(tss_segment(tss));
    assert(gdt_entries(r.0).take(5) =~= flat_entries());
    r
}

/// The kernel's code and stack selectors.
pub fn kernel_selectors(s: &GdtSelectors) -> (r: (u16, u16))
    ensures
        r == (s.code_selector, s.data_selector),
{
    (s.code_selector, s.data_selector)
}

/// The user's code and stack selectors, at user privilege.
pub fn user_selectors(s: &GdtSelectors) -> (r: (u16, u16))
    ensures
        r == (s.user_code_selector | 3, s.user_data_selector | 3),
        s.user_code_selector % 4 == 3 ==> r.0 == s.user_code_selector,
        s.user_data_selector % 4 == 3 ==> r.1 == s.user_data_selector,
{
    proof {
        lemma_user_privilege(s.user_code_selector);
        lemma_user_privilege(s.user_data_selector);
    }
    (s.user_code_selector | 3, s.user_data_selector | 3)
}

/// A selector at user privilege stays as it is when its privilege is set to that.
proof fn lemma_user_privilege(s: u16)
    by (bit_vector)
    ensures
        s % 4 == 3 ==> s | 3 == s,
{
}

/// The descriptors in front of the task state segment are flat, present segments: the null
/// entry, code and data for the kernel, and data and code for user code. Only code is
/// executable, and only it is for 64-bit mode. No code can be entered from a lower privilege
/// level than its own.
pub proof fn law_segments_are_flat(i: int)
    requires
        1 <= i < 5,
    ensures
        flat_entries().len() == 5,
        flat_entries()[0] == 0,
        ({
            let w = flat_entries()[i] as int;
            let access = w / 0x100_0000_0000 % 0x100;
            let flags = w / 0x10_0000_0000_0000 % 0x10;
            let code = i == 1 || i == 4;
            &&& w % 0x1_0000 == 0xffff
            &&& w / 0x1_0000 % 0x100_0000 == 0
            &&& w / 0x1_0000_0000_0000 % 0x10 == 0xf
            &&& w / 0x100_0000_0000_0000 == 0
            &&& access / 128 == 1
            &&& segment_ring(flat_entries()[i]) == access / 32 % 4
            &&& segment_ring(flat_entries()[i]) == if i <= 2 {
                0int
            } else {
                3
            }
            &&& access / 16 % 2 == 1
            &&& (access / 8 % 2 == 1) == code
            &&& access / 4 % 2 == 0
            &&& access / 2 % 2 == 1
            &&& access % 2 == 1
            &&& flags == if code {
                0xaint
            } else {
                0xc
            }
        }),
        selector(i, segment_ring(flat_entries()[i])) / 8 == i,
        selector(i, segment_ring(flat_entries()[i])) % 4 == segment_ring(flat_entries()[i]),
{
}

} // verus!
