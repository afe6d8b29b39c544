use vstd::prelude::*;

use crate::config::{page_index, page_offset, MEMORY_FRAMES, PAGE_SIZE};
use crate::mm::{
    phys_addr, piece_count, piece_end, piece_start, pieces, span_ok, AddressSpace, PageTableEntry,
};

verus! {

/// The byte positions that a list of (address, length) ranges covers, range by range.
pub open spec fn flat(ranges: Seq<(usize, usize)>) -> Seq<int>
    decreases ranges.len(),
{
    if ranges.len() == 0 {
        Seq::empty()
    } else {
        let last = ranges.last();
        flat(ranges.drop_last()) + Seq::new(last.1 as nat, |j: int| last.0 + j)
    }
}

/// `mem` after writing `src[k]` at position `at[k]`, for `k` in increasing order.
pub open spec fn scatter(mem: Seq<u8>, src: Seq<u8>, at: Seq<int>) -> Seq<u8>
    decreases at.len(),
{
    if at.len() == 0 {
        mem
    } else {
        scatter(mem, src, at.drop_last()).update(at.last(), src[at.len() - 1])
    }
}

/// Physical positions of the bytes of `[va, va + len)`, in order.
pub open spec fn user_span(pages: Map<usize, PageTableEntry>, va: int, len: int) -> Seq<int> {
    Seq::new(len as nat, |k: int| phys_addr(pages, va + k))
}

/// The bytes of `[va, va + len)` as `mem` holds them.
pub open spec fn read_span(mem: Seq<u8>, pages: Map<usize, PageTableEntry>, va: int, len: int) -> Seq<
    u8,
> {
    Seq::new(len as nat, |k: int| mem[phys_addr(pages, va + k)])
}

proof fn lemma_flat_prefix(r: Seq<(usize, usize)>, m: int)
    requires
        0 <= m <= r.len(),
    ensures
        flat(r.take(m)).len() <= flat(r).len(),
        flat(r).take(flat(r.take(m)).len() as int) == flat(r.take(m)),
    decreases r.len(),
{
    if m == r.len() {
        assert(r.take(m) =~= r);
        assert(flat(r).take(flat(r).len() as int) =~= flat(r));
    } else {
        lemma_flat_prefix(r.drop_last(), m);
        assert(r.drop_last().take(m) =~= r.take(m));
        assert(flat(r).take(flat(r.take(m)).len() as int) =~= flat(r.take(m)));
    }
}

proof fn lemma_flat_step(r: Seq<(usize, usize)>, i: int)
    requires
        0 <= i < r.len(),
    ensures
        flat(r.take(i + 1)) == flat(r.take(i)) + Seq::new(r[i].1 as nat, |j: int| r[i].0 + j),
{
    assert(r.take(i + 1).drop_last() =~= r.take(i));
}

proof fn lemma_scatter_push(mem: Seq<u8>, src: Seq<u8>, at: Seq<int>, x: int)
    ensures
        scatter(mem, src, at.push(x)) == scatter(mem, src, at).update(x, src[at.len() as int]),
{
    assert(at.push(x).drop_last() =~= at);
}

proof fn lemma_scatter_len(mem: Seq<u8>, src: Seq<u8>, at: Seq<int>)
    requires
        forall|k: int| 0 <= k < at.len() ==> 0 <= #[trigger] at[k] < mem.len(),
    ensures
        scatter(mem, src, at).len() == mem.len(),
    decreases at.len(),
{
    if at.len() > 0 {
        let prev = at.drop_last();
        assert forall|k: int| 0 <= k < prev.len() implies 0 <= #[trigger] prev[k] < mem.len() by {
            assert(prev[k] == at[k]);
        }
        lemma_scatter_len(mem, src, prev);
    }
}

/// Where no position repeats, each written byte is found at its position,
/// and every other byte is untouched.
proof fn lemma_scatter_injective(mem: Seq<u8>, src: Seq<u8>, at: Seq<int>)
    requires
        at.len() <= src.len(),
        forall|k: int| 0 <= k < at.len() ==> 0 <= #[trigger] at[k] < mem.len(),
        forall|k1: int, k2: int|
            0 <= k1 < at.len() && 0 <= k2 < at.len() && k1 != k2 ==> #[trigger] at[k1] != #[trigger] at[k2],
    ensures
        scatter(mem, src, at).len() == mem.len(),
        forall|k: int| 0 <= k < at.len() ==> #[trigger] scatter(mem, src, at)[at[k]] == src[k],
        forall|p: int|
            0 <= p < mem.len() && (forall|k: int| 0 <= k < at.len() ==> at[k] != p) ==> #[trigger] scatter(
                mem,
                src,
                at,
            )[p] == mem[p],
    decreases at.len(),
{
    lemma_scatter_len(mem, src, at);
    if at.len() > 0 {
        let prev = at.drop_last();
        assert forall|k1: int, k2: int|
            0 <= k1 < prev.len() && 0 <= k2 < prev.len() && k1 != k2 implies #[trigger] prev[k1]
            != #[trigger] prev[k2] by {
            assert(prev[k1] == at[k1] && prev[k2] == at[k2]);
        }
        assert forall|k: int| 0 <= k < prev.len() implies 0 <= #[trigger] prev[k] < mem.len() by {
            assert(prev[k] == at[k]);
        }
        lemma_scatter_injective(mem, src, prev);
        assert forall|k: int| 0 <= k < at.len() implies #[trigger] scatter(mem, src, at)[at[k]]
            == src[k] by {
            if k < at.len() - 1 {
                assert(prev[k] == at[k]);
                assert(at[k] != at[at.len() - 1]);
            }
        }
        assert forall|p: int|
            0 <= p < mem.len() && (forall|k: int| 0 <= k < at.len() ==> at[k] != p) implies #[trigger] scatter(
            mem,
            src,
            at,
        )[p] == mem[p] by {
            assert(at[at.len() - 1] != p);
            assert forall|k: int| 0 <= k < prev.len() implies prev[k] != p by {
                assert(prev[k] == at[k]);
            }
        }
    }
}

/// Writes `src` byte by byte into `mem`, filling the ranges of `dst` in order
/// and moving to the next range exactly when the current one is full.
pub fn write_u8_slice(mem: &mut Vec<u8>, src: &[u8], dst: &Vec<(usize, usize)>)
    requires
        flat(dst@).len() == src@.len(),
        forall|k: int| 0 <= k < flat(dst@).len() ==> 0 <= #[trigger] flat(dst@)[k] < old(mem)@.len(),
    ensures
        final(mem)@ == scatter(old(mem)@, src@, flat(dst@)),
{
    let ghost whole = flat(dst@);
    let mut s: usize = 0;
    let mut i: usize = 0;
    while i < dst.len()
        invariant
            i <= dst@.len(),
            whole == flat(dst@),
            whole.len() == src@.len(),
            forall|k: int| 0 <= k < whole.len() ==> 0 <= #[trigger] whole[k] < old(mem)@.len(),
            mem@.len() == old(mem)@.len(),
            s == flat(dst@.take(i as int)).len(),
            mem@ == scatter(old(mem)@, src@, flat(dst@.take(i as int))),
        decreases dst@.len() - i,
    {
        let (pa, n) = dst[i];
        let ghost done = flat(dst@.take(i as int));
        proof {
            lemma_flat_step(dst@, i as int);
            lemma_flat_prefix(dst@, i + 1);
        }
        let mut j: usize = 0;
        while j < n
            invariant
                j <= n,
                (pa, n) == dst@[i as int],
                i < dst@.len(),
                whole == flat(dst@),
                whole.len() == src@.len(),
                forall|k: int| 0 <= k < whole.len() ==> 0 <= #[trigger] whole[k] < old(mem)@.len(),
                done == flat(dst@.take(i as int)),
                flat(dst@.take(i + 1)) == done + Seq::new(n as nat, |x: int| pa + x),
                flat(dst@.take(i + 1)).len() <= whole.len(),
                whole.take(flat(dst@.take(i + 1)).len() as int) == flat(dst@.take(i + 1)),
                mem@.len() == old(mem)@.len(),
                s == done.len() + j,
                mem@ == scatter(old(mem)@, src@, done + Seq::new(j as nat, |x: int| pa + x)),
            decreases n - j,
        {
            let ghost part = flat(dst@.take(i + 1));
            assert(part[s as int] == pa + j);
            assert(whole[s as int] == part[s as int]);
            assert(pa + j < mem@.len());
            proof {
                lemma_scatter_push(old(mem)@, src@, done + Seq::new(j as nat, |x: int| pa + x), pa + j);
                assert((done + Seq::new(j as nat, |x: int| pa + x)).push(pa + j) =~= done + Seq::new(
                    (j + 1) as nat,
                    |x: int| pa + x,
                ));
            }
            let _ = mem.len();
            let at = pa + j;
            mem.set(at, src[s]);
            s = s + 1;
            j = j + 1;
        }
        assert(done + Seq::new(n as nat, |x: int| pa + x) == flat(dst@.take(i + 1)));
        i = i + 1;
    }
    assert(dst@.take(dst@.len() as int) =~= dst@);
}

/// Facts about the `i`-th piece of a span: where it starts and ends, and that it stays in one page.
proof fn lemma_piece(va: int, len: int, i: int)
    requires
        0 <= va,
        0 < len,
        0 <= i < piece_count(va, len),
    ensures
        piece_start(va, 0) == va,
        va <= piece_start(va, i) < piece_end(va, len, i) <= va + len,
        piece_end(va, len, i) - piece_start(va, i) <= PAGE_SIZE,
        page_index(piece_start(va, i)) == page_index(va) + i,
        forall|j: int|
            0 <= j < piece_end(va, len, i) - piece_start(va, i) ==> #[trigger] page_index(piece_start(va, i) + j)
                == page_index(piece_start(va, i)) && #[trigger] page_offset(piece_start(va, i) + j) == page_offset(
                piece_start(va, i),
            ) + j,
        i + 1 < piece_count(va, len) ==> piece_start(va, i + 1) == piece_end(va, len, i),
        i + 1 == piece_count(va, len) ==> piece_end(va, len, i) == va + len,
{
    let s = piece_start(va, i);
    let e = piece_end(va, len, i);
    let page = page_index(va) + i;
    assert(page * PAGE_SIZE <= s < (page + 1) * PAGE_SIZE);
    assert(e <= (page + 1) * PAGE_SIZE);
    assert forall|j: int| 0 <= j < e - s implies #[trigger] page_index(s + j) == page_index(s) && page_offset(
        s + j,
    ) == page_offset(s) + j by {
        assert(page * PAGE_SIZE <= s + j < (page + 1) * PAGE_SIZE);
    }
}

proof fn lemma_flat_pieces_take(pages: Map<usize, PageTableEntry>, va: int, len: int, m: int)
    requires
        0 <= va,
        0 < len,
        0 <= m <= piece_count(va, len),
        va + len - 1 <= usize::MAX,
        forall|v: usize| #[trigger] pages.contains_key(v) ==> pages[v].ppn < MEMORY_FRAMES,
        forall|v: usize|
            page_index(va) <= v <= page_index(va + len - 1) ==> #[trigger] pages.contains_key(v),
    ensures
        flat(pieces(pages, va, len).take(m)) == user_span(
            pages,
            va,
            if m == 0 {
                0
            } else {
                piece_end(va, len, m - 1) - va
            },
        ),
    decreases m,
{
    let ps = pieces(pages, va, len);
    if m > 0 {
        let i = m - 1;
        lemma_flat_pieces_take(pages, va, len, i);
        lemma_flat_step(ps, i);
        lemma_piece(va, len, i);
        if i > 0 {
            lemma_piece(va, len, i - 1);
        }
        let s = piece_start(va, i);
        let e = piece_end(va, len, i);
        let v = page_index(s) as usize;
        assert(pages.contains_key(v));
        assert(page_offset(s) < PAGE_SIZE);
        assert(phys_addr(pages, s) < MEMORY_FRAMES * PAGE_SIZE) by (nonlinear_arith)
            requires
                phys_addr(pages, s) == pages[v].ppn * PAGE_SIZE + page_offset(s),
                pages[v].ppn < MEMORY_FRAMES,
                page_offset(s) < PAGE_SIZE,
        ;
        assert(ps[i].0 == phys_addr(pages, s));
        assert(ps[i].1 == e - s);
        let before = if i == 0 {
            0
        } else {
            piece_end(va, len, i - 1) - va
        };
        assert(before == s - va);
        assert(flat(ps.take(m)) =~= user_span(pages, va, e - va)) by {
            assert forall|j: int| 0 <= j < e - s implies ps[i].0 + j == #[trigger] phys_addr(pages, s + j) by {
                assert(page_index(s + j) == page_index(s));
            }
        }
    }
}

/// The ranges that `translate` gives cover the span's bytes one by one, in order.
proof fn lemma_flat_pieces(pages: Map<usize, PageTableEntry>, va: int, len: int)
    requires
        0 <= va,
        va + len - 1 <= usize::MAX,
        0 <= len,
        forall|v: usize| #[trigger] pages.contains_key(v) ==> pages[v].ppn < MEMORY_FRAMES,
        len == 0 || forall|v: usize|
            page_index(va) <= v <= page_index(va + len - 1) ==> #[trigger] pages.contains_key(v),
    ensures
        flat(pieces(pages, va, len)) == user_span(pages, va, len),
{
    let ps = pieces(pages, va, len);
    if len == 0 {
        assert(ps =~= Seq::<(usize, usize)>::empty());
        assert(user_span(pages, va, len) =~= Seq::<int>::empty());
    } else {
        let c = piece_count(va, len);
        lemma_flat_pieces_take(pages, va, len, c);
        lemma_piece(va, len, c - 1);
        assert(ps.take(c) =~= ps);
    }
}

/// Distinct bytes of a mapped span sit at distinct physical positions, all inside memory.
proof fn lemma_span_injective(space: &AddressSpace, va: int, len: int)
    requires
        space.wf(),
        0 <= va,
        span_ok(space.pages(), va, len, true) || span_ok(space.pages(), va, len, false),
    ensures
        forall|k: int|
            0 <= k < len ==> 0 <= #[trigger] user_span(space.pages(), va, len)[k] < space.mem().len(),
        forall|k1: int, k2: int|
            0 <= k1 < len && 0 <= k2 < len && k1 != k2 ==> #[trigger] user_span(space.pages(), va, len)[k1]
                != #[trigger] user_span(space.pages(), va, len)[k2],
{
    let pages = space.pages();
    let at = user_span(pages, va, len);
    let fc = space.frame_count();
    assert(space.mem().len() == fc * PAGE_SIZE);
    assert forall|k: int| 0 <= k < len implies 0 <= #[trigger] at[k] < space.mem().len() by {
        let v = page_index(va + k) as usize;
        assert(pages.contains_key(v));
        let p = pages[v].ppn as int;
        let o = page_offset(va + k);
        assert(0 <= p * PAGE_SIZE + o < fc * PAGE_SIZE) by (nonlinear_arith)
            requires
                0 <= p < fc,
                0 <= o < PAGE_SIZE,
        ;
    }
    assert forall|k1: int, k2: int|
        0 <= k1 < len && 0 <= k2 < len && k1 != k2 implies #[trigger] at[k1] != #[trigger] at[k2] by {
        let v1 = page_index(va + k1) as usize;
        let v2 = page_index(va + k2) as usize;
        assert(pages.contains_key(v1) && pages.contains_key(v2));
        let p1 = pages[v1].ppn as int;
        let p2 = pages[v2].ppn as int;
        let o1 = page_offset(va + k1);
        let o2 = page_offset(va + k2);
        if v1 == v2 {
            assert(o1 != o2);
        } else {
            assert(p1 != p2);
            assert(p1 * PAGE_SIZE + o1 != p2 * PAGE_SIZE + o2) by (nonlinear_arith)
                requires
                    p1 != p2,
                    0 <= o1 < PAGE_SIZE,
                    0 <= o2 < PAGE_SIZE,
            ;
        }
    }
}

/// A value copied out to a span of user memory reads back unchanged from
/// the same span, wherever page boundaries fall inside it.
pub proof fn lemma_copy_out_read_back(space: &AddressSpace, va: int, bytes: Seq<u8>)
    requires
        space.wf(),
        0 <= va,
        span_ok(space.pages(), va, bytes.len() as int, true),
    ensures
        read_span(
            scatter(space.mem(), bytes, user_span(space.pages(), va, bytes.len() as int)),
            space.pages(),
            va,
            bytes.len() as int,
        ) == bytes,
{
    let at = user_span(space.pages(), va, bytes.len() as int);
    lemma_span_injective(space, va, bytes.len() as int);
    lemma_scatter_injective(space.mem(), bytes, at);
    let back = read_span(
        scatter(space.mem(), bytes, at),
        space.pages(),
        va,
        bytes.len() as int,
    );
    assert forall|k: int| 0 <= k < bytes.len() implies back[k] == bytes[k] by {
        assert(at[k] == phys_addr(space.pages(), va + k));
    }
    assert(back =~= bytes);
}

/// Reads the bytes of the ranges of `src` from `mem`, range by range.
pub fn read_u8_slice(mem: &Vec<u8>, src: &Vec<(usize, usize)>) -> (r: Vec<u8>)
    requires
        forall|k: int| 0 <= k < flat(src@).len() ==> 0 <= #[trigger] flat(src@)[k] < mem@.len(),
    ensures
        r@ == Seq::new(flat(src@).len(), |k: int| mem@[flat(src@)[k]]),
{
    let ghost whole = flat(src@);
    let mut out: Vec<u8> = Vec::new();
    let mut i: usize = 0;
    while i < src.len()
        invariant
            i <= src@.len(),
            whole == flat(src@),
            forall|k: int| 0 <= k < whole.len() ==> 0 <= #[trigger] whole[k] < mem@.len(),
            out@ == Seq::new(flat(src@.take(i as int)).len(), |k: int| mem@[whole[k]]),
            flat(src@.take(i as int)).len() <= whole.len(),
        decreases src@.len() - i,
    {
        let (pa, n) = src[i];
        let ghost done = flat(src@.take(i as int));
        proof {
            lemma_flat_step(src@, i as int);
            lemma_flat_prefix(src@, i + 1);
        }
        let mut j: usize = 0;
        while j < n
            invariant
                j <= n,
                (pa, n) == src@[i as int],
                i < src@.len(),
                whole == flat(src@),
                forall|k: int| 0 <= k < whole.len() ==> 0 <= #[trigger] whole[k] < mem@.len(),
                done == flat(src@.take(i as int)),
                flat(src@.take(i + 1)) == done + Seq::new(n as nat, |x: int| pa + x),
                flat(src@.take(i + 1)).len() <= whole.len(),
                whole.take(flat(src@.take(i + 1)).len() as int) == flat(src@.take(i + 1)),
                out@ == Seq::new((done.len() + j) as nat, |k: int| mem@[whole[k]]),
            decreases n - j,
        {
            let ghost part = flat(src@.take(i + 1));
            let ghost s = done.len() + j;
            assert(part[s] == pa + j);
            assert(whole[s] == part[s]);
            let mem_len = mem.len();
            assert(pa + j < mem_len);
            out.push(mem[pa + j]);
            assert(out@ =~= Seq::new((done.len() + j + 1) as nat, |k: int| mem@[whole[k]]));
            j = j + 1;
        }
        assert(done + Seq::new(n as nat, |x: int| pa + x) == flat(src@.take(i + 1)));
        i = i + 1;
    }
    assert(src@.take(src@.len() as int) =~= src@);
    assert(out@ =~= Seq::new(whole.len(), |k: int| mem@[whole[k]]));
    out
}

impl AddressSpace {
    /// Copies `src` into the user span that starts at `va`. Fails, changing
    /// nothing, when a page of the span is unmapped or not writable by the user.
    pub fn copy_out(&mut self, va: usize, src: &[u8]) -> (r: bool)
        requires
            old(self).wf(),
        ensures
            final(self).wf(),
            r == span_ok(old(self).pages(), va as int, src@.len() as int, true),
            final(self).pages() == old(self).pages(),
            final(self).heap_bottom == old(self).heap_bottom,
            final(self).program_brk == old(self).program_brk,
            final(self).mem() == if r {
                scatter(old(self).mem(), src@, user_span(old(self).pages(), va as int, src@.len() as int))
            } else {
                old(self).mem()
            },
            r ==> read_span(final(self).mem(), final(self).pages(), va as int, src@.len() as int)
                == src@,
    {
        match self.translate(va, src.len(), true) {
            None => false,
            Some(ranges) => {
                proof {
                    lemma_flat_pieces(self.pages(), va as int, src@.len() as int);
                    lemma_span_injective(self, va as int, src@.len() as int);
                    lemma_copy_out_read_back(self, va as int, src@);
                    lemma_scatter_len(
                        self.mem(),
                        src@,
                        user_span(self.pages(), va as int, src@.len() as int),
                    );
                }
                write_u8_slice(&mut self.frames, src, &ranges);
                true
            },
        }
    }

    /// The bytes of the user span `[va, va + len)`; `None` when a page of the
    /// span is unmapped or not readable by the user.
    pub fn copy_in(&self, va: usize, len: usize) -> (r: Option<Vec<u8>>)
        requires
            self.wf(),
        ensures
            r is Some <==> span_ok(self.pages(), va as int, len as int, false),
            r matches Some(bytes) ==> bytes@ == read_span(self.mem(), self.pages(), va as int, len as int),
    {
        match self.translate(va, len, false) {
            None => None,
            Some(ranges) => {
                proof {
                    lemma_flat_pieces(self.pages(), va as int, len as int);
                    lemma_span_injective(self, va as int, len as int);
                }
                let bytes = read_u8_slice(&self.frames, &ranges);
                assert(bytes@ =~= read_span(self.mem(), self.pages(), va as int, len as int));
                Some(bytes)
            },
        }
    }
}

} // verus!
