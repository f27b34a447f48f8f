//! A lazily-paged, zero-filled sparse backing store.

use vstd::prelude::*;
use vstd::pervasive::VecAdditionalExecFns;
use std::collections::HashMap;
use crate::error::Error;

verus! {

/// Size in bytes of one backing page.
pub const PAGE_SIZE: u64 = 4096;

/// A sparse store: a map from page id to a fixed-length page buffer.
/// A page is allocated, zero-filled, on first write; an offset whose page
/// was never touched reads as zero. Backing memory is therefore
/// proportional to the number of touched pages, not to `size`.
#[derive(Debug)]
pub struct Ram {
    /// Number of addressable bytes; offsets at or past `size` are rejected.
    pub size: u64,
    /// Touched pages, keyed by `offset / PAGE_SIZE`; every value has
    /// length `PAGE_SIZE`.
    pub pages: HashMap<u64, Vec<u8>>,
}

impl Ram {
    /// Every allocated page buffer has exactly `PAGE_SIZE` bytes.
    pub open spec fn wf(self) -> bool {
        forall|pid: u64| self.pages@.contains_key(pid)
            ==> (#[trigger] self.pages@[pid])@.len() == PAGE_SIZE
    }

    /// The byte stored at `off`: the byte of the owning page if that page
    /// was ever touched, zero otherwise.
    pub open spec fn byte_at(self, off: u64) -> u8 {
        if self.pages@.contains_key(off / PAGE_SIZE) {
            self.pages@[off / PAGE_SIZE]@[(off % PAGE_SIZE) as int]
        } else {
            0
        }
    }

    /// How a successful write of `data` at `off` relates the store before
    /// (`self`) to the store after (`post`): bytes of `[off, off + len)`
    /// come from `data`, every other byte is unchanged, and the only pages
    /// that may newly exist are the ones the written interval touches.
    pub open spec fn write_rel(self, post: Ram, off: u64, data: Seq<u8>) -> bool {
        &&& post.size == self.size
        &&& off + data.len() <= self.size
        &&& forall|o: u64|
            #[trigger] post.byte_at(o) == if off <= o < off + data.len() {
                data[o - off]
            } else {
                self.byte_at(o)
            }
        &&& forall|pid: u64| #[trigger] post.pages@.dom().contains(pid)
            ==> self.pages@.dom().contains(pid)
                || (data.len() > 0 && off / PAGE_SIZE <= pid
                    <= (off + data.len() - 1) / (PAGE_SIZE as int))
    }

    /// An empty store: no page allocated, every byte zero.
    pub fn new(size: u64) -> (r: Ram)
        ensures
            r.wf(),
            r.size == size,
            r.pages@.dom() == Set::<u64>::empty(),
            forall|o: u64| #[trigger] r.byte_at(o) == 0,
    {
        let r = Ram { size, pages: HashMap::new() };
        proof {
            assert(r.pages@.dom() =~= Set::<u64>::empty());
        }
        r
    }

    /// The byte at `off`, zero if its page was never touched.
    pub fn read_byte(&self, off: u64) -> (b: u8)
        requires
            self.wf(),
        ensures
            b == self.byte_at(off),
    {
        let pid = off / PAGE_SIZE;
        let po = (off % PAGE_SIZE) as usize;
        match self.pages.get(&pid) {
            Some(page) => page[po],
            None => 0,
        }
    }

    /// Writes one byte, allocating the owning page if it was never touched.
    fn write_byte(&mut self, off: u64, b: u8)
        requires
            old(self).wf(),
        ensures
            final(self).wf(),
            final(self).size == old(self).size,
            final(self).pages@.dom() == old(self).pages@.dom().insert(off / PAGE_SIZE),
            forall|o: u64|
                #[trigger] final(self).byte_at(o) == if o == off {
                    b
                } else {
                    old(self).byte_at(o)
                },
    {
        let pid = off / PAGE_SIZE;
        let po = (off % PAGE_SIZE) as usize;
        let mut page = match self.pages.remove(&pid) {
            Some(p) => p,
            None => zero_page(),
        };
        page.set(po, b);
        self.pages.insert(pid, page);
        proof {
            assert(final(self).pages@.dom() =~= old(self).pages@.dom().insert(off / PAGE_SIZE));
            assert forall|o: u64|
                #[trigger] final(self).byte_at(o) == if o == off {
                    b
                } else {
                    old(self).byte_at(o)
                } by {
                lemma_page_id_unique(o, off);
            }
        }
    }

    /// Fills `buf` from `[off, off + buf.len())`, or fails without touching
    /// `buf` when the window does not fit in `[0, size)`. A window may span
    /// any number of pages. Never allocates: untouched pages read as zero.
    pub fn read(&self, off: u64, buf: &mut Vec<u8>) -> (r: Result<(), Error>)
        requires
            self.wf(),
        ensures
            final(buf)@.len() == old(buf)@.len(),
            match r {
                Ok(()) => off + old(buf)@.len() <= self.size && forall|j: int|
                    0 <= j < old(buf)@.len()
                        ==> final(buf)@[j] == self.byte_at((off + j) as u64),
                Err(e) => e == Error::InvalidAccess && off + old(buf)@.len() > self.size
                    && final(buf)@ == old(buf)@,
            },
    {
        let len = buf.len() as u64;
        if len > self.size || off > self.size - len {
            return Err(Error::InvalidAccess);
        }
        let mut j: usize = 0;
        while j < buf.len()
            invariant
                self.wf(),
                j <= buf@.len(),
                buf@.len() == old(buf)@.len(),
                off + buf@.len() <= self.size,
                forall|k: int| 0 <= k < j ==> buf@[k] == self.byte_at((off + k) as u64),
            decreases buf@.len() - j,
        {
            let b = self.read_byte(off + j as u64);
            buf.set(j, b);
            j = j + 1;
        }
        Ok(())
    }

    /// Writes all of `buf` to `[off, off + buf.len())`, or fails without
    /// changing anything when the window does not fit in `[0, size)`. A
    /// window may span any number of pages; each touched page is allocated,
    /// zero-filled, on first touch.
    pub fn write(&mut self, off: u64, buf: &Vec<u8>) -> (r: Result<(), Error>)
        requires
            old(self).wf(),
        ensures
            final(self).wf(),
            final(self).size == old(self).size,
            match r {
                Ok(()) => old(self).write_rel(*final(self), off, buf@),
                Err(e) => e == Error::InvalidAccess && off + buf@.len() > old(self).size
                    && *final(self) == *old(self),
            },
    {
        let len = buf.len() as u64;
        if len > self.size || off > self.size - len {
            return Err(Error::InvalidAccess);
        }
        let mut j: usize = 0;
        while j < buf.len()
            invariant
                self.wf(),
                self.size == old(self).size,
                j <= buf@.len(),
                off + buf@.len() <= self.size,
                forall|o: u64|
                    #[trigger] self.byte_at(o) == if off <= o < off + j {
                        buf@[o - off]
                    } else {
                        old(self).byte_at(o)
                    },
                forall|pid: u64| #[trigger] self.pages@.dom().contains(pid)
                    ==> old(self).pages@.dom().contains(pid)
                        || (j > 0 && off / PAGE_SIZE <= pid
                            <= (off + j - 1) / (PAGE_SIZE as int)),
            decreases buf@.len() - j,
        {
            self.write_byte(off + j as u64, buf[j]);
            proof {
                vstd::arithmetic::div_mod::lemma_div_is_ordered(
                    off as int,
                    off + j,
                    PAGE_SIZE as int,
                );
            }
            j = j + 1;
        }
        Ok(())
    }

    /// Looks up — lazily allocating and zero-filling on first touch — the
    /// page holding `ptr`, and returns a copy of its `len`-byte window
    /// starting at `ptr`'s offset within the page. A single page cannot
    /// satisfy a window that crosses its end, so the window must stay
    /// within `PAGE_SIZE`; `read` and `write` split such requests instead.
    pub fn page_slice(&mut self, ptr: u64, len: u64) -> (r: Vec<u8>)
        requires
            old(self).wf(),
            ptr % PAGE_SIZE + len <= PAGE_SIZE,
        ensures
            final(self).wf(),
            final(self).size == old(self).size,
            final(self).pages@.dom() == old(self).pages@.dom().insert(ptr / PAGE_SIZE),
            forall|o: u64| #[trigger] final(self).byte_at(o) == old(self).byte_at(o),
            r@.len() == len,
            forall|j: int| 0 <= j < len ==> r@[j] == old(self).byte_at((ptr + j) as u64),
    {
        let pid = ptr / PAGE_SIZE;
        let po = (ptr % PAGE_SIZE) as usize;
        if !self.pages.contains_key(&pid) {
            self.pages.insert(pid, zero_page());
        }
        proof {
            assert(final(self).pages@.dom() =~= old(self).pages@.dom().insert(pid));
        }
        let page = match self.pages.get(&pid) {
            Some(p) => p,
            None => unreached(),
        };
        let mut r: Vec<u8> = Vec::new();
        let mut j: usize = 0;
        while j < len as usize
            invariant
                j <= len,
                po == ptr % PAGE_SIZE,
                po + len <= PAGE_SIZE,
                page@.len() == PAGE_SIZE,
                r@.len() == j,
                forall|k: int| 0 <= k < j ==> r@[k] == page@[po + k],
            decreases len - j,
        {
            r.push(page[po + j]);
            j = j + 1;
        }
        proof {
            assert forall|k: int| 0 <= k < len implies r@[k] == old(self).byte_at(
                (ptr + k) as u64,
            ) by {
                lemma_window_in_page(ptr, k);
            }
        }
        r
    }

    /// The number of touched pages; backing memory is proportional to
    /// this, not to `size`.
    pub fn page_count(&self) -> (n: usize)
        ensures
            n == self.pages@.dom().len(),
    {
        self.pages.len()
    }
}

/// An address within the page window of `ptr` keeps `ptr`'s page id, and
/// its page offset advances by the distance from `ptr`.
proof fn lemma_window_in_page(ptr: u64, k: int)
    requires
        0 <= k,
        ptr % PAGE_SIZE + k < PAGE_SIZE,
    ensures
        ((ptr + k) as u64) / PAGE_SIZE == ptr / PAGE_SIZE,
        ((ptr + k) as u64) % PAGE_SIZE == ptr % PAGE_SIZE + k,
{
    vstd::arithmetic::div_mod::lemma_fundamental_div_mod(ptr as int, PAGE_SIZE as int);
    vstd::arithmetic::div_mod::lemma_fundamental_div_mod_converse(
        ptr + k,
        PAGE_SIZE as int,
        (ptr / PAGE_SIZE) as int,
        ptr % PAGE_SIZE + k,
    );
}

/// Same page id and same page offset pin down the address.
proof fn lemma_page_id_unique(a: u64, b: u64)
    ensures
        a / PAGE_SIZE == b / PAGE_SIZE && a % PAGE_SIZE == b % PAGE_SIZE ==> a == b,
{
    vstd::arithmetic::div_mod::lemma_fundamental_div_mod(a as int, PAGE_SIZE as int);
    vstd::arithmetic::div_mod::lemma_fundamental_div_mod(b as int, PAGE_SIZE as int);
}

/// A fresh all-zero page buffer.
fn zero_page() -> (p: Vec<u8>)
    ensures
        p@.len() == PAGE_SIZE,
        forall|i: int| 0 <= i < p@.len() ==> p@[i] == 0u8,
{
    let mut p: Vec<u8> = Vec::new();
    while p.len() < PAGE_SIZE as usize
        invariant
            p@.len() <= PAGE_SIZE,
            forall|i: int| 0 <= i < p@.len() ==> p@[i] == 0u8,
        decreases PAGE_SIZE - p@.len(),
    {
        p.push(0u8);
    }
    p
}

} // verus!
