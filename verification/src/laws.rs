//! The laws of the dispatch core, stated and proved over the models that
//! the executable contracts use.

use vstd::prelude::*;
use crate::bus::{
    entries_sorted, insert_pos, lemma_insert_pos_is, lemma_match_idx, lemma_match_idx_is,
    lemma_match_idx_ranges, match_idx, spec_register, Bus, Device,
};
use crate::ram::{Ram, PAGE_SIZE};
use crate::range::MemoryRange;

verus! {

/// No address lies in two registered ranges: along the sorted registry,
/// each range ends at or before the next one begins.
pub open spec fn ranges_disjoint(s: Seq<(MemoryRange, Device)>) -> bool {
    forall|i: int, j: int|
        0 <= i < j < s.len()
            ==> (#[trigger] s[i]).0.base_address + s[i].0.size
                <= (#[trigger] s[j]).0.base_address
}

/// Containment: with pairwise disjoint ranges, every address of a
/// registered range `[base, base + size)` dispatches to exactly that
/// entry — and the dispatcher then hands the owning device the local
/// offset `addr - base`. Overlapping registries are excluded here: on
/// them dispatch resolves to the containing range with the largest base.
pub proof fn lemma_dispatch_owner(s: Seq<(MemoryRange, Device)>, i: int, addr: u64)
    requires
        entries_sorted(s),
        ranges_disjoint(s),
        0 <= i < s.len(),
        s[i].0.spec_contains(addr),
    ensures
        match_idx(s, addr) == i,
{
    assert forall|j: int| i < j < s.len() implies !(#[trigger] s[j]).0.spec_contains(
        addr,
    ) by {
        assert(s[i].0.base_address + s[i].0.size <= s[j].0.base_address);
    }
    lemma_match_idx_is(s, addr, i);
}

/// Round-trip, leaf case: after a successful write of `data` at `off`,
/// reading `data.len()` bytes at `off` is accepted and returns `data`.
pub proof fn lemma_ram_write_then_read(pre: Ram, post: Ram, off: u64, data: Seq<u8>)
    requires
        pre.write_rel(post, off, data),
    ensures
        Device::Leaf(post).access_ok(off, data.len()),
        Device::Leaf(post).window(off, data.len()) == data,
{
    assert(Device::Leaf(post).window(off, data.len()) =~= data);
}

/// Round-trip: a device rewritten by a successful write of `data` at
/// `off` accepts a read of `data.len()` bytes at `off` and returns
/// exactly `data`.
pub proof fn lemma_write_then_read(pre: Device, post: Device, off: u64, data: Seq<u8>)
    requires
        pre.wf(),
        pre.write_rel(post, off, data),
    ensures
        post.access_ok(off, data.len()),
        post.window(off, data.len()) == data,
    decreases pre,
{
    match (pre, post) {
        (Device::Leaf(r1), Device::Leaf(r2)) => {
            lemma_ram_write_then_read(r1, r2, off, data);
        },
        (Device::Composite(b1), Device::Composite(b2)) => {
            lemma_bus_write_then_read(b1, b2, off, data);
        },
        _ => {},
    }
}

/// Round-trip through a registry: as [`lemma_write_then_read`], at the
/// level of a bus and a global address.
pub proof fn lemma_bus_write_then_read(pre: Bus, post: Bus, addr: u64, data: Seq<u8>)
    requires
        pre.wf(),
        pre.write_rel(post, addr, data),
    ensures
        post.access_ok(addr, data.len()),
        post.window(addr, data.len()) == data,
    decreases pre,
{
    let i = match_idx(pre.entries@, addr);
    lemma_match_idx_ranges(pre.entries@, post.entries@, addr);
    lemma_write_then_read(
        pre.entries@[i].1,
        post.entries@[i].1,
        (addr - pre.entries@[i].0.base_address) as u64,
        data,
    );
}

/// Frame, leaf case: a successful write leaves every window disjoint
/// from the written interval exactly as it was.
pub proof fn lemma_ram_write_frame(
    pre: Ram,
    post: Ram,
    off: u64,
    data: Seq<u8>,
    off2: u64,
    len2: nat,
)
    requires
        pre.write_rel(post, off, data),
        off2 + len2 <= off || off + data.len() <= off2,
        off2 + len2 <= u64::MAX + 1,
    ensures
        Device::Leaf(post).access_ok(off2, len2) == Device::Leaf(pre).access_ok(off2, len2),
        Device::Leaf(post).window(off2, len2) == Device::Leaf(pre).window(off2, len2),
{
    assert(Device::Leaf(post).window(off2, len2) =~= Device::Leaf(pre).window(off2, len2));
}

/// Frame: a successful write of `data` at `off` neither changes whether a
/// window disjoint from `[off, off + data.len())` is accepted, nor what
/// it reads.
pub proof fn lemma_write_frame(
    pre: Device,
    post: Device,
    off: u64,
    data: Seq<u8>,
    off2: u64,
    len2: nat,
)
    requires
        pre.wf(),
        pre.write_rel(post, off, data),
        off2 + len2 <= off || off + data.len() <= off2,
        off2 + len2 <= u64::MAX + 1,
    ensures
        post.access_ok(off2, len2) == pre.access_ok(off2, len2),
        post.window(off2, len2) == pre.window(off2, len2),
    decreases pre,
{
    match (pre, post) {
        (Device::Leaf(r1), Device::Leaf(r2)) => {
            lemma_ram_write_frame(r1, r2, off, data, off2, len2);
        },
        (Device::Composite(b1), Device::Composite(b2)) => {
            lemma_bus_write_frame(b1, b2, off, data, off2, len2);
        },
        _ => {},
    }
}

/// Frame through a registry: as [`lemma_write_frame`], at the level of a
/// bus and two global addresses.
pub proof fn lemma_bus_write_frame(
    pre: Bus,
    post: Bus,
    addr: u64,
    data: Seq<u8>,
    addr2: u64,
    len2: nat,
)
    requires
        pre.wf(),
        pre.write_rel(post, addr, data),
        addr2 + len2 <= addr || addr + data.len() <= addr2,
        addr2 + len2 <= u64::MAX + 1,
    ensures
        post.access_ok(addr2, len2) == pre.access_ok(addr2, len2),
        post.window(addr2, len2) == pre.window(addr2, len2),
    decreases pre,
{
    let i = match_idx(pre.entries@, addr);
    lemma_match_idx_ranges(pre.entries@, post.entries@, addr2);
    let j = match_idx(pre.entries@, addr2);
    lemma_match_idx(pre.entries@, addr2);
    if j >= 0 {
        if j == i {
            let base = pre.entries@[i].0.base_address;
            lemma_match_idx(pre.entries@, addr);
            assert(pre.entries@[i].0.spec_contains(addr));
            assert(pre.entries@[j].0.spec_contains(addr2));
            lemma_write_frame(
                pre.entries@[i].1,
                post.entries@[i].1,
                (addr - base) as u64,
                data,
                (addr2 - base) as u64,
                len2,
            );
        } else {
            assert(post.entries@[j] == pre.entries@[j]);
        }
    }
}

/// Same-base collision: registering a second device at an already
/// registered base — whatever either size is — leaves the registry
/// exactly as if only the second registration had happened. This is the
/// intended registry semantics: the key is the base alone.
pub proof fn lemma_same_base_replaces(
    s: Seq<(MemoryRange, Device)>,
    base: u64,
    size1: u64,
    d1: Device,
    size2: u64,
    d2: Device,
)
    ensures
        spec_register(
            spec_register(s, MemoryRange { base_address: base, size: size1 }, d1),
            MemoryRange { base_address: base, size: size2 },
            d2,
        ) == spec_register(s, MemoryRange { base_address: base, size: size2 }, d2),
{
    let r1 = MemoryRange { base_address: base, size: size1 };
    let r2 = MemoryRange { base_address: base, size: size2 };
    let p = insert_pos(s, base);
    lemma_insert_pos_props(s, base);
    let s1 = spec_register(s, r1, d1);
    lemma_insert_pos_is(s1, base, p);
    if p < s.len() && s[p].0.base_address == base {
        assert(spec_register(s1, r2, d2) =~= spec_register(s, r2, d2));
    } else {
        assert(spec_register(s1, r2, d2) =~= spec_register(s, r2, d2));
    }
}

/// What `insert_pos` finds: every base before it is below `base`, and the
/// base at it (if any) is not.
pub proof fn lemma_insert_pos_props(s: Seq<(MemoryRange, Device)>, base: u64)
    ensures
        0 <= insert_pos(s, base) <= s.len(),
        forall|j: int|
            0 <= j < insert_pos(s, base) ==> (#[trigger] s[j]).0.base_address < base,
        insert_pos(s, base) < s.len() ==> s[insert_pos(s, base)].0.base_address >= base,
    decreases s.len(),
{
    if s.len() > 0 && s.first().0.base_address < base {
        lemma_insert_pos_props(s.drop_first(), base);
        assert forall|j: int|
            0 <= j < insert_pos(s, base) implies (#[trigger] s[j]).0.base_address < base by {
            if j > 0 {
                assert(s.drop_first()[j - 1] == s[j]);
            }
        }
    }
}

/// Sparse allocation: a never-touched store reads as zero everywhere.
pub proof fn lemma_fresh_reads_zero(r: Ram, off: u64, len: nat)
    requires
        r.pages@.dom() == Set::<u64>::empty(),
    ensures
        Device::Leaf(r).window(off, len) == Seq::new(len, |j: int| 0u8),
{
    assert(Device::Leaf(r).window(off, len) =~= Seq::new(len, |j: int| 0u8));
}

/// Sparse allocation: a successful write that stays on one page allocates
/// at most that page and touches no byte of any other page.
pub proof fn lemma_sparse_write_one_page(pre: Ram, post: Ram, off: u64, data: Seq<u8>)
    requires
        pre.write_rel(post, off, data),
        data.len() > 0,
        off / PAGE_SIZE == (off + data.len() - 1) / (PAGE_SIZE as int),
    ensures
        post.pages@.dom().subset_of(pre.pages@.dom().insert(off / PAGE_SIZE)),
        forall|o: u64|
            o / PAGE_SIZE != off / PAGE_SIZE ==> #[trigger] post.byte_at(o) == pre.byte_at(o),
{
    assert forall|o: u64|
        o / PAGE_SIZE != off / PAGE_SIZE implies #[trigger] post.byte_at(o) == pre.byte_at(
        o,
    ) by {
        if off <= o < off + data.len() {
            vstd::arithmetic::div_mod::lemma_div_is_ordered(off as int, o as int, PAGE_SIZE as int);
            vstd::arithmetic::div_mod::lemma_div_is_ordered(
                o as int,
                off + data.len() - 1,
                PAGE_SIZE as int,
            );
        }
    }
}

/// Sparse allocation: a window none of whose covering pages was ever
/// touched reads as zero, whatever else the store holds.
pub proof fn lemma_untouched_window_reads_zero(r: Ram, off: u64, len: nat)
    requires
        off + len <= u64::MAX + 1,
        forall|pid: u64|
            off / PAGE_SIZE <= pid <= (off + len - 1) / (PAGE_SIZE as int)
                ==> !(#[trigger] r.pages@.dom().contains(pid)),
    ensures
        Device::Leaf(r).window(off, len) == Seq::new(len, |j: int| 0u8),
{
    assert forall|j: int| 0 <= j < len implies #[trigger] r.byte_at((off + j) as u64) == 0 by {
        vstd::arithmetic::div_mod::lemma_div_is_ordered(off as int, off + j, PAGE_SIZE as int);
        vstd::arithmetic::div_mod::lemma_div_is_ordered(off + j, off + len - 1, PAGE_SIZE as int);
        assert(!r.pages@.dom().contains(((off + j) as u64) / PAGE_SIZE));
    }
    assert(Device::Leaf(r).window(off, len) =~= Seq::new(len, |j: int| 0u8));
}

/// Nesting, the write direction: with `b` registered in the parent at
/// `(x, s)` and disjoint ranges, a write at global `x + k` (`k < s`)
/// rewrites the parent exactly when the same write at local `k` rewrites
/// `b` — the parent's other entries and the entry's range unchanged.
pub proof fn lemma_nested_bus_write(
    p: Bus,
    post: Bus,
    i: int,
    b: Bus,
    b2: Bus,
    x: u64,
    s: u64,
    k: u64,
    data: Seq<u8>,
)
    requires
        p.wf(),
        ranges_disjoint(p.entries@),
        0 <= i < p.entries@.len(),
        p.entries@[i].0 == (MemoryRange { base_address: x, size: s }),
        p.entries@[i].1 == Device::Composite(b),
        post.entries@.len() == p.entries@.len(),
        forall|j: int| 0 <= j < p.entries@.len() && j != i ==> post.entries@[j] == #[trigger] p.entries@[j],
        post.entries@[i].0 == p.entries@[i].0,
        post.entries@[i].1 == Device::Composite(b2),
        k < s,
        x + k <= u64::MAX,
    ensures
        p.write_rel(post, (x + k) as u64, data) == b.write_rel(b2, k, data),
{
    assert(p.entries@[i].0.spec_contains((x + k) as u64));
    lemma_dispatch_owner(p.entries@, i, (x + k) as u64);
}

/// Nesting: once a bus `b` stands registered in a parent at `(x, s)` and
/// ranges are disjoint, accessing global address `x + k` (`k < s`) on the
/// parent accepts and reads exactly what accessing local address `k` on
/// `b` directly does.
pub proof fn lemma_nested_bus(p: Bus, i: int, b: Bus, x: u64, s: u64, k: u64, len: nat)
    requires
        p.wf(),
        ranges_disjoint(p.entries@),
        0 <= i < p.entries@.len(),
        p.entries@[i].0 == (MemoryRange { base_address: x, size: s }),
        p.entries@[i].1 == Device::Composite(b),
        k < s,
        x + k <= u64::MAX,
    ensures
        p.access_ok((x + k) as u64, len) == b.access_ok(k, len),
        p.window((x + k) as u64, len) == b.window(k, len),
{
    assert(p.entries@[i].0.spec_contains((x + k) as u64));
    lemma_dispatch_owner(p.entries@, i, (x + k) as u64);
}

} // verus!
