//! Region discovery: reads the memory nodes out of a flattened
//! devicetree blob and registers one sparse store per region.

use vstd::prelude::*;
use crate::bus::{spec_register, Bus, Device};
use crate::dtb::{check_blob, fdt_safe};
use crate::ram::Ram;
use crate::range::MemoryRange;

verus! {

/// The memory regions — `(starting_address, size)`, one per `/memory`
/// node, first `reg` entry of each — that a devicetree blob describes,
/// or none when the blob does not parse or a node lacks a usable `reg`.
/// The outcome depends on the bytes alone on the 64-bit targets this
/// crate is built for; the parser goes through `usize`, so a build for
/// a narrower pointer width would truncate wide cells differently and
/// is outside this name's claim.
pub uninterp spec fn memory_regions_of(blob: Seq<u8>) -> Option<Seq<(u64, u64)>>;

/// Relies on fdt::Fdt::new, fdt::Fdt::find_all_nodes and
/// fdt::node::FdtNode::reg: parsing a devicetree blob and enumerating the
/// `/memory` nodes' first `reg` entries is deterministic in the bytes.
/// Those parse paths abort on some malformed blobs that get past the
/// header check — unvalidated block ranges, a missing or misshapen root
/// node, property lengths past the block, names without a NUL terminator
/// or with non-UTF-8 bytes, cell-size properties with values shorter
/// than their four-byte decode — so [`fdt_safe`] is required: it admits
/// only blobs on which every one of those paths stays in bounds and
/// returns.
#[verifier::external_body]
fn parse_memory_regions(blob: &Vec<u8>) -> (r: Option<Vec<(u64, u64)>>)
    requires
        fdt_safe(blob@),
    ensures
        match r {
            Some(v) => memory_regions_of(blob@) == Some(v@),
            None => memory_regions_of(blob@) is None,
        },
{
    let fdt = match fdt::Fdt::new(blob.as_slice()) {
        Ok(f) => f,
        Err(_) => return None,
    };
    let mut v: Vec<(u64, u64)> = Vec::new();
    for node in fdt.find_all_nodes("/memory") {
        let reg = node.reg()?.next()?;
        v.push((reg.starting_address as u64, reg.size? as u64));
    }
    Some(v)
}

/// A store fresh out of [`Ram::new`]: the given size, nothing touched.
pub open spec fn fresh_store(d: Device, size: u64) -> bool {
    match d {
        Device::Leaf(r) => r.wf() && r.size == size && r.pages@.dom() == Set::<u64>::empty(),
        Device::Composite(_) => false,
    }
}

/// How discovery relates the registry before to the registry after:
/// one fresh store registered per region, in order.
pub open spec fn populate_rel(
    pre: Seq<(MemoryRange, Device)>,
    post: Seq<(MemoryRange, Device)>,
    rs: Seq<(u64, u64)>,
) -> bool
    decreases rs.len(),
{
    if rs.len() == 0 {
        post == pre
    } else {
        exists|d: Device|
            #[trigger] fresh_store(d, rs.first().1) && populate_rel(
                spec_register(
                    pre,
                    MemoryRange { base_address: rs.first().0, size: rs.first().1 },
                    d,
                ),
                post,
                rs.drop_first(),
            )
    }
}

/// Registering one more region extends the discovery relation.
proof fn lemma_populate_rel_step(
    start: Seq<(MemoryRange, Device)>,
    mid: Seq<(MemoryRange, Device)>,
    post: Seq<(MemoryRange, Device)>,
    rs: Seq<(u64, u64)>,
    region: (u64, u64),
    d: Device,
)
    requires
        populate_rel(start, mid, rs),
        fresh_store(d, region.1),
        post == spec_register(
            mid,
            MemoryRange { base_address: region.0, size: region.1 },
            d,
        ),
    ensures
        populate_rel(start, post, rs.push(region)),
    decreases rs.len(),
{
    let rs2 = rs.push(region);
    if rs.len() == 0 {
        assert(rs2.drop_first() =~= Seq::<(u64, u64)>::empty());
        assert(fresh_store(d, rs2.first().1) && populate_rel(
            spec_register(
                start,
                MemoryRange { base_address: rs2.first().0, size: rs2.first().1 },
                d,
            ),
            post,
            rs2.drop_first(),
        ));
    } else {
        let d0 = choose|d0: Device|
            #[trigger] fresh_store(d0, rs.first().1) && populate_rel(
                spec_register(
                    start,
                    MemoryRange { base_address: rs.first().0, size: rs.first().1 },
                    d0,
                ),
                mid,
                rs.drop_first(),
            );
        lemma_populate_rel_step(
            spec_register(
                start,
                MemoryRange { base_address: rs.first().0, size: rs.first().1 },
                d0,
            ),
            mid,
            post,
            rs.drop_first(),
            region,
            d,
        );
        assert(rs2.drop_first() =~= rs.drop_first().push(region));
        assert(fresh_store(d0, rs2.first().1) && populate_rel(
            spec_register(
                start,
                MemoryRange { base_address: rs2.first().0, size: rs2.first().1 },
                d0,
            ),
            post,
            rs2.drop_first(),
        ));
    }
}

/// Enumerates the memory regions of a devicetree blob and registers a
/// fresh sparse store of each region's size at its starting address.
/// Returns how many regions were registered, or `None` — registering
/// nothing — when the blob fails the structural check ([`fdt_safe`]) or
/// does not describe usable memory regions.
pub fn discover_and_register(bus: &mut Bus, blob: &Vec<u8>) -> (r: Option<usize>)
    requires
        old(bus).wf(),
    ensures
        final(bus).wf(),
        match r {
            Some(n) => fdt_safe(blob@) && (memory_regions_of(blob@) matches Some(rs)
                && n == rs.len()
                && populate_rel(old(bus).entries@, final(bus).entries@, rs)),
            None => (!fdt_safe(blob@) || memory_regions_of(blob@) is None) && *final(bus)
                == *old(bus),
        },
{
    if !check_blob(blob) {
        return None;
    }
    let regions = match parse_memory_regions(blob) {
        Some(v) => v,
        None => {
            return None;
        },
    };
    let n = regions.len();
    proof {
        assert(regions@.take(0) =~= Seq::<(u64, u64)>::empty());
    }
    let mut idx: usize = 0;
    while idx < n
        invariant
            bus.wf(),
            idx <= n,
            n == regions@.len(),
            populate_rel(old(bus).entries@, bus.entries@, regions@.take(idx as int)),
        decreases n - idx,
    {
        let base = regions[idx].0;
        let size = regions[idx].1;
        let dev = Device::Leaf(Ram::new(size));
        let ghost mid = bus.entries@;
        bus.register(dev, base, size);
        proof {
            lemma_populate_rel_step(
                old(bus).entries@,
                mid,
                bus.entries@,
                regions@.take(idx as int),
                regions@[idx as int],
                dev,
            );
            assert(regions@.take(idx + 1) =~= regions@.take(idx as int).push(
                regions@[idx as int],
            ));
        }
        idx = idx + 1;
    }
    proof {
        assert(regions@.take(n as int) =~= regions@);
    }
    Some(n)
}

} // verus!
