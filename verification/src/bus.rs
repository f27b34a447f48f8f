//! The registry and dispatcher: an ordered collection of
//! `(MemoryRange, Device)` pairs in one global address space.

use vstd::prelude::*;
use crate::error::Error;
use crate::ram::Ram;
use crate::range::MemoryRange;

verus! {

/// A capability with byte-range read/write at a device-local offset:
/// either a terminal sparse store, or a nested bus (a bridge).
#[derive(Debug)]
pub enum Device {
    Leaf(Ram),
    Composite(Bus),
}

/// An ordered registry mapping address ranges to owned devices. Entries
/// are kept sorted by `base_address`, one entry per base. A `Bus` is
/// itself a `Device`, so buses nest.
#[derive(Debug)]
pub struct Bus {
    pub entries: Vec<(MemoryRange, Device)>,
}

/// Bases strictly increase along the registry.
pub open spec fn entries_sorted(s: Seq<(MemoryRange, Device)>) -> bool {
    forall|i: int, j: int|
        0 <= i < j < s.len()
            ==> (#[trigger] s[i]).0.base_address < (#[trigger] s[j]).0.base_address
}

/// The index the dispatcher picks for `addr`: scanning from the largest
/// base downward, the first entry whose range contains `addr`; `-1` when
/// no entry contains it. With sorted entries this visits exactly the
/// predecessor subset (a range whose base exceeds `addr` cannot contain
/// it), and with overlapping ranges the entry with the largest base wins —
/// the registry's documented tie-break.
pub open spec fn match_idx(s: Seq<(MemoryRange, Device)>, addr: u64) -> int
    decreases s.len(),
{
    if s.len() == 0 {
        -1
    } else if s.last().0.spec_contains(addr) {
        s.len() - 1
    } else {
        match_idx(s.drop_last(), addr)
    }
}

/// What `match_idx` returns: an in-range index of a containing entry with
/// no containing entry above it, or `-1` under no containing entry at all.
pub proof fn lemma_match_idx(s: Seq<(MemoryRange, Device)>, addr: u64)
    ensures
        -1 <= match_idx(s, addr) < s.len(),
        match_idx(s, addr) >= 0 ==> s[match_idx(s, addr)].0.spec_contains(addr),
        forall|j: int|
            match_idx(s, addr) < j < s.len() ==> !(#[trigger] s[j]).0.spec_contains(addr),
    decreases s.len(),
{
    if s.len() > 0 && !s.last().0.spec_contains(addr) {
        lemma_match_idx(s.drop_last(), addr);
        assert forall|j: int|
            match_idx(s, addr) < j < s.len() implies !(#[trigger] s[j]).0.spec_contains(
            addr,
        ) by {
            if j < s.len() - 1 {
                assert(s.drop_last()[j] == s[j]);
            } else {
                assert(s[j] == s.last());
            }
        }
    }
}

/// The converse: an index with those two properties is the match.
pub proof fn lemma_match_idx_is(s: Seq<(MemoryRange, Device)>, addr: u64, i: int)
    requires
        0 <= i < s.len(),
        s[i].0.spec_contains(addr),
        forall|j: int| i < j < s.len() ==> !(#[trigger] s[j]).0.spec_contains(addr),
    ensures
        match_idx(s, addr) == i,
    decreases s.len(),
{
    if i < s.len() - 1 {
        lemma_match_idx_is(s.drop_last(), addr, i);
    }
}

/// `match_idx` only looks at the ranges, never at the devices.
pub proof fn lemma_match_idx_ranges(
    s1: Seq<(MemoryRange, Device)>,
    s2: Seq<(MemoryRange, Device)>,
    addr: u64,
)
    requires
        s1.len() == s2.len(),
        forall|j: int| 0 <= j < s1.len() ==> (#[trigger] s1[j]).0 == (#[trigger] s2[j]).0,
    ensures
        match_idx(s1, addr) == match_idx(s2, addr),
    decreases s1.len(),
{
    if s1.len() > 0 {
        lemma_match_idx_ranges(s1.drop_last(), s2.drop_last(), addr);
    }
}

/// Where a new entry with base `base` lands in `s`: the first index whose
/// base is not below `base`.
pub open spec fn insert_pos(s: Seq<(MemoryRange, Device)>, base: u64) -> int
    decreases s.len(),
{
    if s.len() == 0 {
        0
    } else if s.first().0.base_address < base {
        1 + insert_pos(s.drop_first(), base)
    } else {
        0
    }
}

/// An index below which every base is smaller and at which (if any) the
/// base is not, is the insert position.
pub proof fn lemma_insert_pos_is(s: Seq<(MemoryRange, Device)>, base: u64, p: int)
    requires
        0 <= p <= s.len(),
        forall|j: int| 0 <= j < p ==> (#[trigger] s[j]).0.base_address < base,
        p < s.len() ==> s[p].0.base_address >= base,
    ensures
        insert_pos(s, base) == p,
    decreases s.len(),
{
    if s.len() > 0 && s.first().0.base_address < base {
        lemma_insert_pos_is(s.drop_first(), base, p - 1);
    }
}

/// What `register` does to the registry: replace the entry whose base
/// equals the new base, or insert a new entry at its sorted position.
/// Size is never compared: an entry with the same base but another size
/// is replaced all the same, and the prior device is dropped.
pub open spec fn spec_register(
    s: Seq<(MemoryRange, Device)>,
    r: MemoryRange,
    d: Device,
) -> Seq<(MemoryRange, Device)> {
    let p = insert_pos(s, r.base_address);
    if p < s.len() && s[p].0.base_address == r.base_address {
        s.update(p, (r, d))
    } else {
        s.insert(p, (r, d))
    }
}

impl Device {
    /// Every store and every nested registry is well formed.
    pub open spec fn wf(self) -> bool
        decreases self,
    {
        match self {
            Device::Leaf(ram) => ram.wf(),
            Device::Composite(bus) => bus.wf(),
        }
    }

    /// Whether a read or write of `len` bytes at device-local offset `off`
    /// succeeds: within the store's bounds at a leaf, and dispatched to a
    /// registered device that itself accepts the window in a nested bus.
    pub open spec fn access_ok(self, off: u64, len: nat) -> bool
        decreases self,
    {
        match self {
            Device::Leaf(ram) => off + len <= ram.size,
            Device::Composite(bus) => bus.access_ok(off, len),
        }
    }

    /// The `len` bytes a successful read at `off` returns.
    pub open spec fn window(self, off: u64, len: nat) -> Seq<u8>
        decreases self,
    {
        match self {
            Device::Leaf(ram) => Seq::new(len, |j: int| ram.byte_at((off + j) as u64)),
            Device::Composite(bus) => bus.window(off, len),
        }
    }

    /// How a successful write of `data` at `off` relates the device before
    /// to the device after: the dispatched path is rewritten down to one
    /// store, everything off that path is untouched.
    pub open spec fn write_rel(self, post: Device, off: u64, data: Seq<u8>) -> bool
        decreases self,
    {
        match (self, post) {
            (Device::Leaf(r1), Device::Leaf(r2)) => r1.write_rel(r2, off, data),
            (Device::Composite(b1), Device::Composite(b2)) => b1.write_rel(b2, off, data),
            _ => false,
        }
    }

    /// Fills `buf` from device-local offsets `[off, off + buf.len())`, or
    /// fails with `InvalidAccess` — leaving `buf` untouched — when the
    /// window is not accepted. Never mutates any storage.
    pub fn read(&self, off: u64, buf: &mut Vec<u8>) -> (r: Result<(), Error>)
        requires
            self.wf(),
        ensures
            final(buf)@.len() == old(buf)@.len(),
            match r {
                Ok(()) => self.access_ok(off, old(buf)@.len() as nat) && final(buf)@
                    == self.window(off, old(buf)@.len() as nat),
                Err(e) => e == Error::InvalidAccess && !self.access_ok(
                    off,
                    old(buf)@.len() as nat,
                ) && final(buf)@ == old(buf)@,
            },
        decreases self,
    {
        match self {
            Device::Leaf(ram) => {
                let r = ram.read(off, buf);
                proof {
                    if r is Ok {
                        assert(buf@ =~= self.window(off, old(buf)@.len() as nat));
                    }
                }
                r
            },
            Device::Composite(bus) => bus.read(off, buf),
        }
    }

    /// Whether a read or write of `len` bytes at device-local offset `off`
    /// would be accepted.
    pub fn can_access(&self, off: u64, len: usize) -> (b: bool)
        requires
            self.wf(),
        ensures
            b == self.access_ok(off, len as nat),
        decreases self,
    {
        match self {
            Device::Leaf(ram) => len as u64 <= ram.size && off <= ram.size - len as u64,
            Device::Composite(bus) => bus.can_access(off, len),
        }
    }

    /// Writes all of `buf` at device-local offsets `[off, off + buf.len())`,
    /// or fails with `InvalidAccess` leaving every byte of storage
    /// unchanged. A failed write mutates nothing.
    pub fn write(&mut self, off: u64, buf: &Vec<u8>) -> (r: Result<(), Error>)
        requires
            old(self).wf(),
        ensures
            final(self).wf(),
            match r {
                Ok(()) => old(self).access_ok(off, buf@.len() as nat) && old(
                    self,
                ).write_rel(*final(self), off, buf@),
                Err(e) => e == Error::InvalidAccess && !old(self).access_ok(
                    off,
                    buf@.len() as nat,
                ) && *final(self) == *old(self),
            },
        decreases *old(self),
    {
        match self {
            Device::Leaf(ram) => ram.write(off, buf),
            Device::Composite(bus) => bus.write(off, buf),
        }
    }
}

impl Bus {
    pub open spec fn wf(self) -> bool
        decreases self,
    {
        &&& entries_sorted(self.entries@)
        &&& forall|i: int|
            0 <= i < self.entries@.len() ==> (#[trigger] self.entries@[i]).1.wf()
    }

    /// Dispatch succeeds and the owning device accepts the translated
    /// window.
    pub open spec fn access_ok(self, addr: u64, len: nat) -> bool
        decreases self,
    {
        let i = match_idx(self.entries@, addr);
        &&& 0 <= i < self.entries@.len()
        &&& self.entries@[i].1.access_ok(
            (addr - self.entries@[i].0.base_address) as u64,
            len,
        )
    }

    /// The bytes a successful read of `len` bytes at `addr` returns: the
    /// dispatched device's window at the translated offset.
    pub open spec fn window(self, addr: u64, len: nat) -> Seq<u8>
        decreases self,
    {
        let i = match_idx(self.entries@, addr);
        if 0 <= i < self.entries@.len() {
            self.entries@[i].1.window((addr - self.entries@[i].0.base_address) as u64, len)
        } else {
            Seq::empty()
        }
    }

    /// How a successful write relates the registry before to the registry
    /// after: every entry keeps its range, every entry but the dispatched
    /// one is untouched, and the dispatched device is rewritten by the
    /// translated write.
    pub open spec fn write_rel(self, post: Bus, addr: u64, data: Seq<u8>) -> bool
        decreases self,
    {
        let i = match_idx(self.entries@, addr);
        &&& 0 <= i < self.entries@.len()
        &&& post.entries@.len() == self.entries@.len()
        &&& forall|j: int|
            0 <= j < self.entries@.len() && j != i
                ==> post.entries@[j] == #[trigger] self.entries@[j]
        &&& post.entries@[i].0 == self.entries@[i].0
        &&& self.entries@[i].1.write_rel(
            post.entries@[i].1,
            (addr - self.entries@[i].0.base_address) as u64,
            data,
        )
    }

    /// An empty registry.
    pub fn new() -> (r: Bus)
        ensures
            r.wf(),
            r.entries@.len() == 0,
    {
        Bus { entries: Vec::new() }
    }

    /// Inserts `(MemoryRange { base_address, size }, device)` into the
    /// registry. If an entry with the same base already exists it is
    /// replaced — size is not compared, and the prior device and its
    /// storage are dropped. Ranges are not checked for overlap; on
    /// overlapping ranges dispatch resolves to the largest containing
    /// base (see [`match_idx`]).
    pub fn register(&mut self, device: Device, base_address: u64, size: u64)
        requires
            old(self).wf(),
            device.wf(),
        ensures
            final(self).wf(),
            final(self).entries@ == spec_register(
                old(self).entries@,
                MemoryRange { base_address, size },
                device,
            ),
    {
        let rng = MemoryRange { base_address, size };
        let n = self.entries.len();
        let mut i: usize = 0;
        while i < n && self.entries[i].0.base_address < base_address
            invariant
                i <= n,
                n == self.entries@.len(),
                forall|j: int|
                    0 <= j < i ==> (#[trigger] self.entries@[j]).0.base_address
                        < base_address,
            decreases n - i,
        {
            i = i + 1;
        }
        proof {
            lemma_insert_pos_is(self.entries@, base_address, i as int);
        }
        if i < n && self.entries[i].0.base_address == base_address {
            let ghost pre = self.entries@;
            let _ = self.entries.remove(i);
            self.entries.insert(i, (rng, device));
            proof {
                assert(self.entries@ =~= pre.update(i as int, (rng, device)));
            }
        } else {
            self.entries.insert(i, (rng, device));
        }
    }

    /// Locates the entry owning `addr`: the range with the largest base
    /// whose interval contains `addr`, scanning the predecessor subset
    /// from the largest base downward. Returns the owning range and its
    /// index, or `InvalidAccess` when no registered range contains `addr`.
    pub fn get_device(&self, addr: u64) -> (r: Result<(MemoryRange, usize), Error>)
        ensures
            match r {
                Ok(pair) => {
                    &&& match_idx(self.entries@, addr) == pair.1
                    &&& pair.1 < self.entries@.len()
                    &&& self.entries@[pair.1 as int].0 == pair.0
                    &&& pair.0.spec_contains(addr)
                },
                Err(e) => e == Error::InvalidAccess && match_idx(self.entries@, addr) == -1,
            },
    {
        let n = self.entries.len();
        let mut i = n;
        while i > 0
            invariant
                i <= n,
                n == self.entries@.len(),
                forall|j: int|
                    i <= j < n ==> !(#[trigger] self.entries@[j]).0.spec_contains(addr),
            decreases i,
        {
            i = i - 1;
            if self.entries[i].0.contains(addr) {
                proof {
                    lemma_match_idx_is(self.entries@, addr, i as int);
                }
                return Ok((self.entries[i].0, i));
            }
        }
        proof {
            lemma_match_idx(self.entries@, addr);
        }
        Err(Error::InvalidAccess)
    }

    /// Fills `buf` from global addresses `[addr, addr + buf.len())`:
    /// dispatches `addr` to the owning device and forwards the whole
    /// window at the translated offset. Fails with `InvalidAccess` —
    /// leaving `buf` untouched — when no range contains `addr` or the
    /// owning device rejects the window. Never mutates any storage.
    pub fn read(&self, addr: u64, buf: &mut Vec<u8>) -> (r: Result<(), Error>)
        requires
            self.wf(),
        ensures
            final(buf)@.len() == old(buf)@.len(),
            match r {
                Ok(()) => self.access_ok(addr, old(buf)@.len() as nat) && final(buf)@
                    == self.window(addr, old(buf)@.len() as nat),
                Err(e) => e == Error::InvalidAccess && !self.access_ok(
                    addr,
                    old(buf)@.len() as nat,
                ) && final(buf)@ == old(buf)@,
            },
        decreases self,
    {
        match self.get_device(addr) {
            Err(e) => Err(e),
            Ok((rng, i)) => {
                let local = addr - rng.base_address;
                self.entries[i].1.read(local, buf)
            },
        }
    }

    /// Writes all of `buf` at global addresses `[addr, addr + buf.len())`:
    /// dispatches `addr` to the owning device and forwards the whole
    /// window at the translated offset. Fails with `InvalidAccess` when no
    /// range contains `addr` or the owning device rejects the window; a
    /// failed write changes nothing, and a successful one never touches
    /// the registry or any other device.
    pub fn write(&mut self, addr: u64, buf: &Vec<u8>) -> (r: Result<(), Error>)
        requires
            old(self).wf(),
        ensures
            final(self).wf(),
            final(self).entries@.len() == old(self).entries@.len(),
            forall|j: int|
                0 <= j < old(self).entries@.len()
                    ==> (#[trigger] final(self).entries@[j]).0 == old(self).entries@[j].0,
            match r {
                Ok(()) => old(self).access_ok(addr, buf@.len() as nat) && old(
                    self,
                ).write_rel(*final(self), addr, buf@),
                Err(e) => e == Error::InvalidAccess && !old(self).access_ok(
                    addr,
                    buf@.len() as nat,
                ) && *final(self) == *old(self),
            },
        decreases *old(self),
    {
        match self.get_device(addr) {
            Err(e) => Err(e),
            Ok((rng, i)) => {
                let local = addr - rng.base_address;
                if !self.entries[i].1.can_access(local, buf.len()) {
                    return Err(Error::InvalidAccess);
                }
                let (mr, mut dev) = self.entries.remove(i);
                let res = dev.write(local, buf);
                self.entries.insert(i, (mr, dev));
                proof {
                    assert(res is Ok);
                    assert(self.entries@ =~= old(self).entries@.update(
                        i as int,
                        self.entries@[i as int],
                    ));
                    assert(old(self).write_rel(*self, addr, buf@));
                }
                res
            },
        }
    }

    /// Whether a read or write of `len` bytes at `addr` would be accepted:
    /// some registered range contains `addr` and the owning device accepts
    /// the translated window.
    pub fn can_access(&self, addr: u64, len: usize) -> (b: bool)
        requires
            self.wf(),
        ensures
            b == self.access_ok(addr, len as nat),
        decreases self,
    {
        match self.get_device(addr) {
            Err(_) => false,
            Ok((rng, i)) => self.entries[i].1.can_access(addr - rng.base_address, len),
        }
    }
}

} // verus!
