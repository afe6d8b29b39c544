use std::collections::HashMap;
use vstd::prelude::*;

use crate::config::{page_count, page_index, page_offset, pages_for, MEMORY_FRAMES, PAGE_SIZE};

verus! {

broadcast use vstd::std_specs::hash::group_hash_axioms;

/// Permission flags of a mapped page, kept as a bit set:
/// bit 1 Read, bit 2 Write, bit 3 Execute, bit 4 UserAccessible (bit 0 is reserved).
#[derive(Clone, Copy, Debug, PartialEq, Eq, Structural)]
pub struct MapPermission {
    pub bits: u8,
}

impl MapPermission {
    pub open spec fn is_readable(self) -> bool {
        (self.bits / 2) % 2 == 1
    }

    pub open spec fn is_writable(self) -> bool {
        (self.bits / 4) % 2 == 1
    }

    pub open spec fn is_executable(self) -> bool {
        (self.bits / 8) % 2 == 1
    }

    pub open spec fn is_user(self) -> bool {
        (self.bits / 16) % 2 == 1
    }

    /// Whether user code may read (or, with `write`, write) a page with these flags.
    pub open spec fn allows(self, write: bool) -> bool {
        self.is_user() && if write {
            self.is_writable()
        } else {
            self.is_readable()
        }
    }

    /// Turns a user request of Read (bit 0), Write (bit 1) and Execute (bit 2)
    /// into page flags: request bit `i` becomes flag bit `i + 1`, and
    /// UserAccessible is always added.
    pub fn from_port(port: usize) -> (r: MapPermission)
        requires
            1 <= port <= 7,
        ensures
            r == port_permission(port as int),
            r.is_readable() == (port % 2 == 1),
            r.is_writable() == ((port / 2) % 2 == 1),
            r.is_executable() == (port / 4 == 1),
            r.is_user(),
    {
        MapPermission { bits: (port as u8) * 2 + 16 }
    }

    pub fn readable(&self) -> (r: bool)
        ensures
            r == self.is_readable(),
    {
        (self.bits / 2) % 2 == 1
    }

    pub fn writable(&self) -> (r: bool)
        ensures
            r == self.is_writable(),
    {
        (self.bits / 4) % 2 == 1
    }

    pub fn user(&self) -> (r: bool)
        ensures
            r == self.is_user(),
    {
        (self.bits / 16) % 2 == 1
    }
}

/// The page flags that a valid 3-bit request `port` stands for.
pub open spec fn port_permission(port: int) -> MapPermission {
    MapPermission { bits: (port * 2 + 16) as u8 }
}

/// Flags of heap pages: Read, Write and UserAccessible.
pub const HEAP_PERMISSION_BITS: u8 = 22;

pub open spec fn heap_permission() -> MapPermission {
    MapPermission { bits: HEAP_PERMISSION_BITS }
}

/// One page-table entry: the physical frame that backs a virtual page, and its flags.
#[derive(Clone, Copy, Debug, PartialEq, Eq, Structural)]
pub struct PageTableEntry {
    pub ppn: usize,
    pub perm: MapPermission,
}

/// The flags of every mapped page, keyed by virtual page number.
pub open spec fn regions_of(pages: Map<usize, PageTableEntry>) -> Map<usize, MapPermission> {
    pages.map_values(|e: PageTableEntry| e.perm)
}

/// No page of `[s, e)` is mapped.
pub open spec fn range_free(regions: Map<usize, MapPermission>, s: int, e: int) -> bool {
    forall|v: usize| s <= v < e ==> !#[trigger] regions.contains_key(v)
}

/// Every page of `[s, e)` is mapped.
pub open spec fn range_full(regions: Map<usize, MapPermission>, s: int, e: int) -> bool {
    forall|v: usize| s <= v < e ==> #[trigger] regions.contains_key(v)
}

/// `regions` with every page of `[s, e)` mapped with `perm`.
pub open spec fn with_range(regions: Map<usize, MapPermission>, s: int, e: int, perm: MapPermission) -> Map<
    usize,
    MapPermission,
> {
    Map::new(
        |v: usize| regions.contains_key(v) || (s <= v < e),
        |v: usize|
            if s <= v < e {
                perm
            } else {
                regions[v]
            },
    )
}

/// `regions` with every page of `[s, e)` removed.
pub open spec fn without_range(regions: Map<usize, MapPermission>, s: int, e: int) -> Map<
    usize,
    MapPermission,
> {
    Map::new(|v: usize| regions.contains_key(v) && !(s <= v < e), |v: usize| regions[v])
}

/// Physical address of virtual byte `va`, through the entry of its page.
pub open spec fn phys_addr(pages: Map<usize, PageTableEntry>, va: int) -> int {
    pages[page_index(va) as usize].ppn * PAGE_SIZE + page_offset(va)
}

/// Every page that holds a byte of `[va, va + len)` is mapped and allows the access.
pub open spec fn span_ok(pages: Map<usize, PageTableEntry>, va: int, len: int, write: bool) -> bool {
    len == 0 || (va + len - 1 <= usize::MAX && forall|v: usize|
        page_index(va) <= v <= page_index(va + len - 1) ==> (#[trigger] pages.contains_key(v))
            && pages[v].perm.allows(write))
}

/// First virtual byte of the `i`-th page-sized piece of `[va, va + len)`.
pub open spec fn piece_start(va: int, i: int) -> int {
    if i == 0 {
        va
    } else {
        (page_index(va) + i) * PAGE_SIZE
    }
}

/// One past the last virtual byte of the `i`-th piece of `[va, va + len)`.
pub open spec fn piece_end(va: int, len: int, i: int) -> int {
    let page_end = (page_index(va) + i + 1) * PAGE_SIZE;
    if page_end < va + len {
        page_end
    } else {
        va + len
    }
}

/// Number of pages that `[va, va + len)` touches.
pub open spec fn piece_count(va: int, len: int) -> int {
    if len == 0 {
        0
    } else {
        page_index(va + len - 1) - page_index(va) + 1
    }
}

/// The physical ranges, as (address, length), that back `[va, va + len)`, in order.
pub open spec fn pieces(pages: Map<usize, PageTableEntry>, va: int, len: int) -> Seq<(usize, usize)> {
    Seq::new(
        piece_count(va, len) as nat,
        |i: int|
            (
                phys_addr(pages, piece_start(va, i)) as usize,
                (piece_end(va, len, i) - piece_start(va, i)) as usize,
            ),
    )
}

/// A task's address space: its page table and the physical frames behind it.
/// Frame `k` occupies bytes `[k * PAGE_SIZE, (k + 1) * PAGE_SIZE)` of `frames`;
/// frames are handed out in order and never shared between two pages.
pub struct AddressSpace {
    pub page_table: HashMap<usize, PageTableEntry>,
    pub frames: Vec<u8>,
    pub heap_bottom: usize,
    pub program_brk: usize,
}

impl AddressSpace {
    pub open spec fn pages(&self) -> Map<usize, PageTableEntry> {
        self.page_table@
    }

    pub open spec fn regions(&self) -> Map<usize, MapPermission> {
        regions_of(self.page_table@)
    }

    pub open spec fn mem(&self) -> Seq<u8> {
        self.frames@
    }

    pub open spec fn frame_count(&self) -> int {
        self.frames@.len() as int / PAGE_SIZE as int
    }

    pub open spec fn wf(&self) -> bool {
        &&& self.frames@.len() as int % PAGE_SIZE as int == 0
        &&& self.frame_count() <= MEMORY_FRAMES
        &&& forall|v: usize| #[trigger]
            self.page_table@.contains_key(v) ==> self.page_table@[v].ppn < self.frame_count()
        &&& forall|v1: usize, v2: usize|
            #[trigger] self.page_table@.contains_key(v1) && #[trigger] self.page_table@.contains_key(v2)
                && v1 != v2 ==> self.page_table@[v1].ppn != self.page_table@[v2].ppn
        &&& self.heap_bottom % PAGE_SIZE == 0
        &&& self.heap_bottom <= self.program_brk
    }

    /// An empty address space whose heap starts, empty, at `heap_bottom`.
    pub fn new(heap_bottom: usize) -> (r: AddressSpace)
        requires
            heap_bottom % PAGE_SIZE == 0,
        ensures
            r.wf(),
            r.regions() == Map::<usize, MapPermission>::empty(),
            r.mem().len() == 0,
            r.heap_bottom == heap_bottom,
            r.program_brk == heap_bottom,
    {
        let r = AddressSpace {
            page_table: HashMap::new(),
            frames: Vec::new(),
            heap_bottom,
            program_brk: heap_bottom,
        };
        assert(r.regions() =~= Map::<usize, MapPermission>::empty());
        r
    }

    /// Whether no page of `[s, e)` is mapped.
    pub fn is_range_free(&self, s: usize, e: usize) -> (r: bool)
        ensures
            r == range_free(self.regions(), s as int, e as int),
    {
        let mut v = s;
        while v < e
            invariant
                s <= v,
                forall|u: usize| s <= u < v ==> !#[trigger] self.page_table@.contains_key(u),
            decreases e - v,
        {
            if self.page_table.contains_key(&v) {
                assert(self.regions().contains_key(v));
                return false;
            }
            v = v + 1;
        }
        assert(forall|u: usize| #[trigger] self.regions().contains_key(u) == self.page_table@.contains_key(u));
        true
    }

    /// Whether every page of `[s, e)` is mapped.
    pub fn is_range_full(&self, s: usize, e: usize) -> (r: bool)
        ensures
            r == range_full(self.regions(), s as int, e as int),
    {
        let mut v = s;
        while v < e
            invariant
                s <= v,
                forall|u: usize| s <= u < v ==> #[trigger] self.page_table@.contains_key(u),
            decreases e - v,
        {
            if !self.page_table.contains_key(&v) {
                assert(!self.regions().contains_key(v));
                return false;
            }
            v = v + 1;
        }
        assert(forall|u: usize| #[trigger] self.regions().contains_key(u) == self.page_table@.contains_key(u));
        true
    }

    /// Whether `count` more frames fit in physical memory.
    pub open spec fn frames_available(&self, count: int) -> bool {
        self.frame_count() + count <= MEMORY_FRAMES
    }

    /// Maps every page of `[s, e)` with `perm`, each on a fresh frame.
    /// Fails, changing nothing, when a page of the range is already mapped or
    /// physical memory has too few frames left.
    pub fn map_area(&mut self, s: usize, e: usize, perm: MapPermission) -> (r: bool)
        requires
            old(self).wf(),
            s <= e,
        ensures
            final(self).wf(),
            r == (range_free(old(self).regions(), s as int, e as int) && old(self).frames_available(
                e - s,
            )),
            final(self).regions() == if r {
                with_range(old(self).regions(), s as int, e as int, perm)
            } else {
                old(self).regions()
            },
            forall|u: usize| #[trigger]
                old(self).pages().contains_key(u) ==> final(self).pages()[u] == old(self).pages()[u],
            final(self).mem().len() >= old(self).mem().len(),
            final(self).mem().subrange(0, old(self).mem().len() as int) == old(self).mem(),
            !r ==> final(self).pages() == old(self).pages() && final(self).mem() == old(self).mem(),
            final(self).heap_bottom == old(self).heap_bottom,
            final(self).program_brk == old(self).program_brk,
    {
        if !self.is_range_free(s, e) {
            return false;
        }
        if e - s > MEMORY_FRAMES - self.frames.len() / PAGE_SIZE {
            return false;
        }
        let ghost old_pt = self.page_table@;
        let ghost old_mem = self.frames@;
        let ghost old_count = self.frame_count();
        let mut v = s;
        while v < e
            invariant
                s <= v <= e,
                self.wf(),
                self.heap_bottom == old(self).heap_bottom,
                self.program_brk == old(self).program_brk,
                old_pt == old(self).page_table@,
                old_mem == old(self).frames@,
                old_count == old(self).frame_count(),
                old_count + (e - s) <= MEMORY_FRAMES,
                range_free(regions_of(old_pt), s as int, e as int),
                self.frame_count() == old_count + (v - s),
                self.frames@.len() >= old_mem.len(),
                self.frames@.subrange(0, old_mem.len() as int) == old_mem,
                forall|u: usize| #[trigger]
                    self.page_table@.contains_key(u) <==> (old_pt.contains_key(u) || (s <= u < v)),
                forall|u: usize| #[trigger]
                    old_pt.contains_key(u) ==> self.page_table@[u] == old_pt[u],
                forall|u: usize| s <= u < v ==> (#[trigger] self.page_table@[u]).perm == perm,
            decreases e - v,
        {
            assert(!regions_of(old_pt).contains_key(v));
            let ppn = self.frames.len() / PAGE_SIZE;
            let new_len = self.frames.len() + PAGE_SIZE;
            self.frames.resize(new_len, 0u8);
            self.page_table.insert(v, PageTableEntry { ppn, perm });
            v = v + 1;
        }
        assert(self.regions() =~= with_range(regions_of(old_pt), s as int, e as int, perm));
        true
    }

    /// Removes every page of `[s, e)`. Fails, changing nothing, when a page of
    /// the range is not mapped.
    pub fn unmap_area(&mut self, s: usize, e: usize) -> (r: bool)
        requires
            old(self).wf(),
        ensures
            final(self).wf(),
            r == range_full(old(self).regions(), s as int, e as int),
            final(self).regions() == if r {
                without_range(old(self).regions(), s as int, e as int)
            } else {
                old(self).regions()
            },
            forall|u: usize| #[trigger]
                final(self).pages().contains_key(u) ==> final(self).pages()[u] == old(self).pages()[u],
            final(self).mem() == old(self).mem(),
            !r ==> final(self).pages() == old(self).pages(),
            final(self).heap_bottom == old(self).heap_bottom,
            final(self).program_brk == old(self).program_brk,
    {
        if !self.is_range_full(s, e) {
            return false;
        }
        let ghost old_pt = self.page_table@;
        let mut v = s;
        while v < e
            invariant
                s <= v,
                v <= e || v == s,
                self.wf(),
                self.heap_bottom == old(self).heap_bottom,
                self.program_brk == old(self).program_brk,
                self.frames@ == old(self).frames@,
                old_pt == old(self).page_table@,
                forall|u: usize| #[trigger]
                    self.page_table@.contains_key(u) <==> (old_pt.contains_key(u) && !(s <= u < v)),
                forall|u: usize| #[trigger]
                    self.page_table@.contains_key(u) ==> self.page_table@[u] == old_pt[u],
            decreases e - v,
        {
            self.page_table.remove(&v);
            v = v + 1;
        }
        assert(self.regions() =~= without_range(regions_of(old_pt), s as int, e as int));
        true
    }

    /// The physical ranges behind the virtual span `[va, va + len)`, one per
    /// page it touches, in order of virtual address; `None` when a page of the
    /// span is unmapped or does not allow the access (a write when `write`).
    pub fn translate(&self, va: usize, len: usize, write: bool) -> (r: Option<Vec<(usize, usize)>>)
        requires
            self.wf(),
        ensures
            r is Some <==> span_ok(self.pages(), va as int, len as int, write),
            r matches Some(ranges) ==> ranges@ == pieces(self.pages(), va as int, len as int),
    {
        if len == 0 {
            let out: Vec<(usize, usize)> = Vec::new();
            assert(out@ =~= pieces(self.pages(), va as int, len as int));
            return Some(out);
        }
        if va > usize::MAX - (len - 1) {
            return None;
        }
        let last = va + (len - 1);
        let first_vpn = va / PAGE_SIZE;
        let last_vpn = last / PAGE_SIZE;
        let ghost pages = self.page_table@;
        let ghost want = pieces(pages, va as int, len as int);
        let mut out: Vec<(usize, usize)> = Vec::new();
        let mut vpn = first_vpn;
        while vpn <= last_vpn
            invariant
                first_vpn <= vpn <= last_vpn + 1,
                first_vpn == va / PAGE_SIZE,
                last_vpn == last / PAGE_SIZE,
                last == va + len - 1,
                len > 0,
                self.wf(),
                pages == self.page_table@,
                want == pieces(pages, va as int, len as int),
                want.len() == last_vpn - first_vpn + 1,
                out@ == want.subrange(0, vpn - first_vpn),
                forall|u: usize| first_vpn <= u < vpn ==> #[trigger] pages.contains_key(u),
                forall|u: usize| first_vpn <= u < vpn ==> (#[trigger] pages[u]).perm.allows(write),
            decreases last_vpn + 1 - vpn,
        {
            let entry = match self.page_table.get(&vpn) {
                Some(entry) => *entry,
                None => {
                    return None;
                },
            };
            let ok = entry.perm.user() && if write {
                entry.perm.writable()
            } else {
                entry.perm.readable()
            };
            if !ok {
                return None;
            }
            let start = if vpn == first_vpn {
                va
            } else {
                vpn * PAGE_SIZE
            };
            let n = if vpn == last_vpn {
                last - start + 1
            } else {
                vpn * PAGE_SIZE + PAGE_SIZE - start
            };
            let pa = entry.ppn * PAGE_SIZE + start % PAGE_SIZE;
            let ghost i = vpn - first_vpn;
            assert(pages.contains_key(vpn) && pages[vpn].perm.allows(write));
            assert(start == piece_start(va as int, i));
            assert(start + n == piece_end(va as int, len as int, i));
            assert(page_index(start as int) == vpn);
            out.push((pa, n));
            assert(out@ =~= want.subrange(0, vpn + 1 - first_vpn));
            vpn = vpn + 1;
        }
        assert(out@ =~= want);
        Some(out)
    }

    /// Whether moving the program break by `size` bytes can be done: the
    /// break stays at or above the heap bottom, and the heap pages gained are
    /// free (with frames to back them) or the pages given back are mapped.
    pub open spec fn brk_ok(&self, size: int) -> bool {
        let new_brk = self.program_brk + size;
        let old_end = pages_for(self.program_brk as int);
        let new_end = pages_for(new_brk);
        &&& self.heap_bottom <= new_brk <= usize::MAX
        &&& if size >= 0 {
            range_free(self.regions(), old_end, new_end) && self.frames_available(new_end - old_end)
        } else {
            range_full(self.regions(), new_end, old_end)
        }
    }

    /// The regions once the program break has moved by `size` bytes.
    pub open spec fn regions_after_brk(&self, size: int) -> Map<usize, MapPermission> {
        let old_end = pages_for(self.program_brk as int);
        let new_end = pages_for(self.program_brk + size);
        if size >= 0 {
            with_range(self.regions(), old_end, new_end, heap_permission())
        } else {
            without_range(self.regions(), new_end, old_end)
        }
    }

    /// Moves the program break by `size` bytes, mapping or unmapping the heap
    /// pages that this gains or gives back. Returns the old break, or `None`,
    /// changing nothing, when the move cannot be done.
    pub fn change_program_brk(&mut self, size: i32) -> (r: Option<usize>)
        requires
            old(self).wf(),
        ensures
            final(self).wf(),
            r is Some <==> old(self).brk_ok(size as int),
            r matches Some(b) ==> b == old(self).program_brk && final(self).program_brk
                == old(self).program_brk + size && final(self).regions() == old(self).regions_after_brk(
                size as int,
            ),
            r is None ==> final(self).pages() == old(self).pages() && final(self).mem() == old(self).mem()
                && final(self).program_brk == old(self).program_brk,
            final(self).heap_bottom == old(self).heap_bottom,
    {
        let old_brk = self.program_brk;
        let new_brk = if size >= 0 {
            let grow = size as usize;
            if old_brk > usize::MAX - grow {
                return None;
            }
            old_brk + grow
        } else {
            let shrink = (0i64 - size as i64) as usize;
            if old_brk - self.heap_bottom < shrink {
                return None;
            }
            old_brk - shrink
        };
        let old_end = page_count(old_brk);
        let new_end = page_count(new_brk);
        let ok = if size >= 0 {
            self.map_area(old_end, new_end, MapPermission { bits: HEAP_PERMISSION_BITS })
        } else {
            self.unmap_area(new_end, old_end)
        };
        if !ok {
            return None;
        }
        self.program_brk = new_brk;
        Some(old_brk)
    }
}

} // verus!
