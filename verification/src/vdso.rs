//! The boot page-table entries that map the vDSO: its data pages and then
//! its text pages, one 4 KiB entry each, in a last-level Sv39 table.
use vstd::prelude::*;

verus! {

/// Bytes per page.
pub const PAGE_BYTES: u64 = 4096;
/// Entries in a page table.
pub const TABLE_ENTRIES: u64 = 512;
/// Flags of a data page: valid, readable, writable, global, accessed,
/// dirty; not executable.
pub const DATA_FLAGS: u64 = 0xe7;
/// Flags of a text page: valid, readable, writable, executable, global,
/// accessed, dirty (the text writes some globals of its own).
pub const TEXT_FLAGS: u64 = 0xef;
/// Flags of an entry pointing to the next-level table: valid only.
pub const TABLE_FLAGS: u64 = 0x1;

/// The Sv39 entry mapping the page at physical address `addr` with `flags`.
pub open spec fn pte(addr: u64, flags: u64) -> u64 {
    (addr >> 2u64) | flags
}

/// How many pages start in `[a, b)` at `a`, `a + 4096`, ...
pub open spec fn pages_in(a: u64, b: u64) -> nat {
    if a < b {
        ((b - a + PAGE_BYTES - 1) / (PAGE_BYTES as int)) as nat
    } else {
        0
    }
}

/// The entries of the pages starting in `[a, b)`, each with `flags`.
pub open spec fn range_ptes(a: u64, b: u64, flags: u64) -> Seq<u64> {
    Seq::new(pages_in(a, b), |i: int| pte((a + i * PAGE_BYTES) as u64, flags))
}

/// The entries that map the vDSO: the data pages of `[sdata, edata)`, then
/// the text pages of `[base, end)`.
pub open spec fn vdso_ptes(sdata: u64, edata: u64, base: u64, end: u64) -> Seq<u64> {
    range_ptes(sdata, edata, DATA_FLAGS) + range_ptes(base, end, TEXT_FLAGS)
}

/// The entry pointing to the next-level table at physical address `addr`.
pub fn table_entry(addr: u64) -> (e: u64)
    ensures
        e == pte(addr, TABLE_FLAGS),
{
    (addr >> 2u64) | TABLE_FLAGS
}

/// How many pages start in `[a, b)`.
fn count_pages(a: u64, b: u64) -> (n: u64)
    ensures
        n == pages_in(a, b),
        a < b ==> n > 0 && (n - 1) * PAGE_BYTES < b - a,
{
    if a >= b {
        return 0;
    }
    let d = b - a;
    let n = d / PAGE_BYTES + if d % PAGE_BYTES != 0 { 1u64 } else { 0u64 };
    assert(n == (d + PAGE_BYTES - 1) / (PAGE_BYTES as int)) by (nonlinear_arith)
        requires
            n == d / 4096 + if d % 4096 != 0 { 1int } else { 0int },
            d > 0,
    ;
    assert((n - 1) * 4096 < d) by (nonlinear_arith)
        requires
            n == d / 4096 + if d % 4096 != 0 { 1int } else { 0int },
            d > 0,
    ;
    n
}

/// Appends the entries of the pages starting in `[a, b)` with `flags`.
fn push_range(v: &mut Vec<u64>, a: u64, b: u64, flags: u64)
    ensures
        final(v)@ == old(v)@ + range_ptes(a, b, flags),
{
    let n = count_pages(a, b);
    let ghost v0 = v@;
    let mut i: u64 = 0;
    while i < n
        invariant
            n == pages_in(a, b),
            a < b ==> (n - 1) * PAGE_BYTES < b - a,
            i <= n,
            v@ == v0 + range_ptes(a, b, flags).take(i as int),
        decreases n - i,
    {
        assert(i * PAGE_BYTES <= (n - 1) * PAGE_BYTES) by (nonlinear_arith)
            requires
                i < n,
        ;
        let addr = a + i * PAGE_BYTES;
        v.push((addr >> 2u64) | flags);
        assert(range_ptes(a, b, flags).take(i + 1) =~= range_ptes(a, b, flags).take(i as int).push(
            pte(addr, flags),
        ));
        i = i + 1;
    }
    assert(range_ptes(a, b, flags).take(n as int) =~= range_ptes(a, b, flags));
}

/// The entries of the last-level table that maps the vDSO: its data pages
/// `[sdata, edata)` without execute permission, then its text pages
/// `[base, end)` with it; all must fit in one table.
pub fn vdso_page_entries(sdata: u64, edata: u64, base: u64, end: u64) -> (v: Vec<u64>)
    requires
        pages_in(sdata, edata) + pages_in(base, end) <= TABLE_ENTRIES,
    ensures
        v@ == vdso_ptes(sdata, edata, base, end),
        v@.len() <= TABLE_ENTRIES,
{
    let mut v: Vec<u64> = Vec::new();
    push_range(&mut v, sdata, edata, DATA_FLAGS);
    push_range(&mut v, base, end, TEXT_FLAGS);
    assert(v@ =~= vdso_ptes(sdata, edata, base, end));
    v
}

} // verus!
