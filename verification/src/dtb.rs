//! Conservative structural validation of flattened devicetree blobs.
//!
//! The fdt crate's parser aborts on malformed input that gets past its
//! header check: block ranges are sliced unvalidated, a missing root
//! node, a property length past the block, a name without a NUL or with
//! non-UTF-8 bytes, a property after a child node, a `#address-cells`
//! or `#size-cells` property whose value is shorter than the four bytes
//! its decoder expects — all panic. This module accepts only blobs on
//! which those parse paths provably stay in bounds and well formed, so
//! the trusted call can require [`fdt_safe`] and never abort. The check
//! is conservative: it rejects some blobs the parser could handle (NOP
//! tokens, non-ASCII names, nesting beyond 32 levels, a short cell-size
//! value on a node whose cell sizes are never consulted), and rejecting
//! costs only a `None`.

use vstd::prelude::*;

verus! {

/// The big-endian 32-bit value at byte offset `i`.
pub open spec fn be32_at(s: Seq<u8>, i: int) -> int {
    s[i] * 0x1000000 + s[i + 1] * 0x10000 + s[i + 2] * 0x100 + s[i + 3]
}

/// `n` rounded up to a multiple of four — how the parser pads names and
/// property values.
pub open spec fn round_up4(n: int) -> int {
    if n % 4 == 0 {
        n
    } else {
        n + (4 - n % 4)
    }
}

/// The offset of the first NUL byte in `[i, end)`, or `end` if none.
pub open spec fn first_nul(s: Seq<u8>, i: int, end: int) -> int
    decreases end - i,
{
    if i >= end {
        end
    } else if s[i] == 0 {
        i
    } else {
        first_nul(s, i + 1, end)
    }
}

/// Every byte of `[i, j)` is ASCII — enough for the parser's UTF-8
/// decoding of names to succeed.
pub open spec fn all_ascii(s: Seq<u8>, i: int, j: int) -> bool {
    forall|k: int| i <= k < j ==> (#[trigger] s[k]) < 0x80
}

/// A property-name offset the parser can resolve: inside the strings
/// block `[soff, send)`, NUL-terminated before the block ends, ASCII.
pub open spec fn prop_name_ok(s: Seq<u8>, soff: int, send: int, nameoff: int) -> bool {
    &&& soff + nameoff < send
    &&& first_nul(s, soff + nameoff, send) < send
    &&& all_ascii(s, soff + nameoff, first_nul(s, soff + nameoff, send))
}

/// The bytes of the property name `#address-cells`.
pub open spec fn addr_cells_name() -> Seq<u8> {
    seq![35u8, 97, 100, 100, 114, 101, 115, 115, 45, 99, 101, 108, 108, 115]
}

/// The bytes of the property name `#size-cells`.
pub open spec fn size_cells_name() -> Seq<u8> {
    seq![35u8, 115, 105, 122, 101, 45, 99, 101, 108, 108, 115]
}

/// Whether the name bytes `[start, end_nul)` spell `#address-cells` or
/// `#size-cells` — the two properties whose values the parser decodes
/// with a four-byte read it expects to succeed.
pub open spec fn is_cells_name(s: Seq<u8>, start: int, end_nul: int) -> bool {
    s.subrange(start, end_nul) == addr_cells_name() || s.subrange(start, end_nul)
        == size_cells_name()
}

/// `n`, stopped at `end`.
pub open spec fn clamp_at(n: int, end: int) -> int {
    if n > end {
        end
    } else {
        n
    }
}

/// One well-formed node tree read from position `pos` of the structure
/// block `[.., end)`: a begin-node token with a terminated ASCII name
/// (empty at the root), then properties, then child nodes, then an
/// end-node token. `in_props` says whether a property token may come
/// next — the parser asserts this order. Validation stops at the token
/// that closes the root: the parse paths never read past it.
pub open spec fn walk_ok(
    s: Seq<u8>,
    pos: int,
    end: int,
    depth: int,
    in_props: bool,
    soff: int,
    send: int,
) -> bool
    decreases end - pos,
{
    if pos + 4 > end {
        false
    } else {
        let tag = be32_at(s, pos);
        if tag == 1 {
            let nstart = pos + 4;
            let k = first_nul(s, nstart, end);
            &&& depth < 32
            &&& nstart <= k < end
            &&& all_ascii(s, nstart, k)
            &&& (depth > 0 || k == nstart)
            &&& walk_ok(
                s,
                clamp_at(nstart + round_up4(k - nstart + 1), end),
                end,
                depth + 1,
                true,
                soff,
                send,
            )
        } else if tag == 3 {
            let nameoff = be32_at(s, pos + 8);
            &&& in_props
            &&& pos + 12 <= end
            &&& pos + 12 + be32_at(s, pos + 4) <= end
            &&& prop_name_ok(s, soff, send, nameoff)
            &&& (is_cells_name(s, soff + nameoff, first_nul(s, soff + nameoff, send))
                ==> be32_at(s, pos + 4) >= 4)
            &&& walk_ok(
                s,
                clamp_at(pos + 12 + round_up4(be32_at(s, pos + 4)), end),
                end,
                depth,
                true,
                soff,
                send,
            )
        } else if tag == 2 {
            depth > 0 && (depth == 1 || walk_ok(s, pos + 4, end, depth - 1, false, soff, send))
        } else {
            false
        }
    }
}

/// A blob every parse path of the region-discovery calls stays safe on:
/// full header with the right magic, total size and both block ranges
/// within the buffer, and a well-formed structure block whose root node
/// has the empty name.
pub open spec fn fdt_safe(blob: Seq<u8>) -> bool {
    let len = blob.len() as int;
    &&& len >= 40
    &&& be32_at(blob, 0) == 0xD00DFEED
    &&& be32_at(blob, 4) <= len
    &&& be32_at(blob, 8) + be32_at(blob, 36) <= len
    &&& be32_at(blob, 12) + be32_at(blob, 32) <= len
    &&& walk_ok(
        blob,
        be32_at(blob, 8),
        be32_at(blob, 8) + be32_at(blob, 36),
        0,
        false,
        be32_at(blob, 12),
        be32_at(blob, 12) + be32_at(blob, 32),
    )
}

/// Reads the big-endian 32-bit value at `i`.
fn read_be32(blob: &Vec<u8>, i: usize) -> (r: u64)
    requires
        i + 4 <= blob@.len() <= usize::MAX,
    ensures
        r == be32_at(blob@, i as int),
        r < 0x100000000,
{
    (blob[i] as u64) * 0x1000000 + (blob[i + 1] as u64) * 0x10000 + (blob[i + 2] as u64) * 0x100
        + (blob[i + 3] as u64)
}

/// Finds the first NUL byte in `[from, end)`, or `end` if none.
fn find_nul(blob: &Vec<u8>, from: usize, end: usize) -> (r: usize)
    requires
        from <= end <= blob@.len() <= usize::MAX,
    ensures
        r == first_nul(blob@, from as int, end as int),
        from <= r <= end,
{
    let mut i = from;
    while i < end
        invariant
            from <= i <= end <= blob@.len(),
            first_nul(blob@, from as int, end as int) == first_nul(blob@, i as int, end as int),
        decreases end - i,
    {
        if blob[i] == 0 {
            return i;
        }
        i = i + 1;
    }
    end
}

/// Whether every byte of `[from, to)` is ASCII.
fn ascii_range(blob: &Vec<u8>, from: usize, to: usize) -> (b: bool)
    requires
        from <= to <= blob@.len() <= usize::MAX,
    ensures
        b == all_ascii(blob@, from as int, to as int),
{
    let mut i = from;
    while i < to
        invariant
            from <= i <= to <= blob@.len(),
            forall|k: int| from <= k < i ==> (#[trigger] blob@[k]) < 0x80,
        decreases to - i,
    {
        if blob[i] >= 0x80 {
            return false;
        }
        i = i + 1;
    }
    true
}

/// `n` rounded up to a multiple of four.
fn round4(n: u64) -> (r: u64)
    requires
        n <= u64::MAX - 3,
    ensures
        r == round_up4(n as int),
        n <= r <= n + 3,
{
    let rem = n % 4;
    if rem == 0 {
        n
    } else {
        n + (4 - rem)
    }
}

/// Whether `blob[start..end_nul]` equals `pat`.
fn range_matches(blob: &Vec<u8>, start: usize, end_nul: usize, pat: &Vec<u8>) -> (b: bool)
    requires
        start <= end_nul <= blob@.len() <= usize::MAX,
    ensures
        b == (blob@.subrange(start as int, end_nul as int) == pat@),
{
    if end_nul - start != pat.len() {
        return false;
    }
    let n = pat.len();
    let mut i: usize = 0;
    while i < n
        invariant
            n == pat@.len(),
            start + n == end_nul,
            end_nul <= blob@.len() <= usize::MAX,
            i <= n,
            forall|k: int| 0 <= k < i ==> (#[trigger] blob@[start + k]) == pat@[k],
        decreases n - i,
    {
        if blob[start + i] != pat[i] {
            proof {
                assert(blob@.subrange(start as int, end_nul as int)[i as int] != pat@[i as int]);
            }
            return false;
        }
        i = i + 1;
    }
    proof {
        assert forall|k: int|
            0 <= k < pat@.len() implies blob@.subrange(start as int, end_nul as int)[k]
            == pat@[k] by {
            assert(blob@[start + k] == pat@[k]);
        }
        assert(blob@.subrange(start as int, end_nul as int) =~= pat@);
    }
    true
}

/// Whether the name bytes `[start, end_nul)` spell `#address-cells` or
/// `#size-cells`.
fn cells_name_match(blob: &Vec<u8>, start: usize, end_nul: usize) -> (b: bool)
    requires
        start <= end_nul <= blob@.len() <= usize::MAX,
    ensures
        b == is_cells_name(blob@, start as int, end_nul as int),
{
    let mut addr: Vec<u8> = Vec::new();
    addr.push(35);
    addr.push(97);
    addr.push(100);
    addr.push(100);
    addr.push(114);
    addr.push(101);
    addr.push(115);
    addr.push(115);
    addr.push(45);
    addr.push(99);
    addr.push(101);
    addr.push(108);
    addr.push(108);
    addr.push(115);
    proof {
        assert(addr@ =~= addr_cells_name());
    }
    if range_matches(blob, start, end_nul, &addr) {
        return true;
    }
    let mut size: Vec<u8> = Vec::new();
    size.push(35);
    size.push(115);
    size.push(105);
    size.push(122);
    size.push(101);
    size.push(45);
    size.push(99);
    size.push(101);
    size.push(108);
    size.push(108);
    size.push(115);
    proof {
        assert(size@ =~= size_cells_name());
    }
    range_matches(blob, start, end_nul, &size)
}

/// Decides [`fdt_safe`]: whether the blob is structurally safe to hand
/// to the devicetree parser.
pub fn check_blob(blob: &Vec<u8>) -> (b: bool)
    ensures
        b == fdt_safe(blob@),
{
    if blob.len() < 40 {
        return false;
    }
    let len = blob.len() as u64;
    if read_be32(blob, 0) != 0xD00DFEED {
        return false;
    }
    if read_be32(blob, 4) > len {
        return false;
    }
    let off_s = read_be32(blob, 8);
    let size_s = read_be32(blob, 36);
    if off_s + size_s > len {
        return false;
    }
    let soff64 = read_be32(blob, 12);
    let ssize = read_be32(blob, 32);
    if soff64 + ssize > len {
        return false;
    }
    let end = (off_s + size_s) as usize;
    let soff = soff64 as usize;
    let send = (soff64 + ssize) as usize;

    let mut pos = off_s as usize;
    let mut depth: u64 = 0;
    let mut in_props = false;
    loop
        invariant
            pos <= end <= blob@.len() <= usize::MAX,
            soff <= send <= blob@.len(),
            soff == soff64,
            send == soff64 + ssize,
            soff64 < 0x100000000,
            ssize < 0x100000000,
            depth <= 32,
            fdt_safe(blob@) == walk_ok(
                blob@,
                pos as int,
                end as int,
                depth as int,
                in_props,
                soff as int,
                send as int,
            ),
        decreases end - pos,
    {
        if end - pos < 4 {
            return false;
        }
        let tag = read_be32(blob, pos);
        if tag == 1 {
            if depth >= 32 {
                return false;
            }
            let nstart = pos + 4;
            let k = find_nul(blob, nstart, end);
            if k == end {
                return false;
            }
            if !ascii_range(blob, nstart, k) {
                return false;
            }
            if depth == 0 && k != nstart {
                return false;
            }
            let adv = round4((k - nstart) as u64 + 1);
            let np = if adv > (end - nstart) as u64 {
                end
            } else {
                nstart + adv as usize
            };
            proof {
                assert(np == clamp_at(nstart + round_up4(k - nstart + 1), end as int));
            }
            pos = np;
            depth = depth + 1;
            in_props = true;
        } else if tag == 3 {
            if !in_props {
                return false;
            }
            if end - pos < 12 {
                return false;
            }
            let dlen = read_be32(blob, pos + 4);
            let noff = read_be32(blob, pos + 8);
            let body = pos + 12;
            if dlen > (end - body) as u64 {
                return false;
            }
            if soff64 + noff >= send as u64 {
                return false;
            }
            let pstart = (soff64 + noff) as usize;
            let pk = find_nul(blob, pstart, send);
            if pk == send {
                return false;
            }
            if !ascii_range(blob, pstart, pk) {
                return false;
            }
            if dlen < 4 && cells_name_match(blob, pstart, pk) {
                return false;
            }
            let adv = round4(dlen);
            let np = if adv > (end - body) as u64 {
                end
            } else {
                body + adv as usize
            };
            proof {
                assert(np == clamp_at(
                    pos + 12 + round_up4(be32_at(blob@, pos + 4)),
                    end as int,
                ));
            }
            pos = np;
        } else if tag == 2 {
            if depth == 0 {
                return false;
            }
            if depth == 1 {
                return true;
            }
            depth = depth - 1;
            in_props = false;
            pos = pos + 4;
        } else {
            return false;
        }
    }
}

} // verus!
