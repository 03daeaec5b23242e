//! General-purpose fallback heap: a first-fit allocator over a list of free
//! regions, used for requests that no fixed size class can satisfy and for
//! carving fresh class blocks.
//!
//! The heap owns one contiguous window of addresses once initialised. Its
//! free store is kept as a list of regions sorted by address, pairwise
//! disjoint, at word (eight-byte) granularity; freeing coalesces a returned
//! region with its neighbours.

use vstd::prelude::*;
use vstd::arithmetic::div_mod::{
    lemma_add_mod_noop, lemma_fundamental_div_mod, lemma_fundamental_div_mod_converse_mod,
    lemma_mod_division_less_than_divisor, lemma_mod_multiples_basic, lemma_sub_mod_noop,
};

verus! {

/// No window may reach past this address; keeps every address computation
/// comfortably inside `usize` on any machine the kernel targets.
pub const WINDOW_LIMIT: usize = 0x4000_0000;

/// Word size of the machine: the granularity of the free store.
pub const WORD: usize = 8;

/// One free region of the fallback heap: `len` bytes starting at `addr`.
#[derive(Debug, Clone, Copy, PartialEq, Eq, Structural)]
pub struct Region {
    pub addr: usize,
    pub len: usize,
}

/// The least multiple of `align` that is at least `a`.
pub open spec fn round_up(a: int, align: int) -> int
    recommends
        a >= 0,
        align >= 1,
{
    ((a + align - 1) / align) * align
}

/// `round_up` lands in `[a, a + align)` and is a multiple of `align`.
pub proof fn lemma_round_up(a: int, align: int)
    requires
        a >= 0,
        align >= 1,
    ensures
        a <= round_up(a, align) < a + align,
        round_up(a, align) % align == 0,
{
    lemma_fundamental_div_mod(a + align - 1, align);
    lemma_mod_division_less_than_divisor(a + align - 1, align);
    lemma_mod_multiples_basic((a + align - 1) / align, align);
    let q = (a + align - 1) / align;
    let r = (a + align - 1) % align;
    assert(q * align == a + align - 1 - r) by (nonlinear_arith)
        requires
            a + align - 1 == align * q + r,
    ;
}

/// No multiple of `align` lies between `a` and `round_up(a, align)`:
/// any aligned `p >= a` is at least the rounding.
pub proof fn lemma_round_up_le(a: int, p: int, align: int)
    requires
        a >= 0,
        align >= 1,
        a <= p,
        p % align == 0,
    ensures
        round_up(a, align) <= p,
{
    lemma_round_up(a, align);
    let q = (a + align - 1) / align;
    let m = p / align;
    lemma_fundamental_div_mod(p, align);
    assert(p == align * m);
    if p < q * align {
        assert(align * m < align * q);
        assert(m < q) by (nonlinear_arith)
            requires
                align * m < align * q,
                align >= 1,
        ;
        assert(p <= q * align - align) by (nonlinear_arith)
            requires
                m <= q - 1,
                align >= 1,
                p == align * m,
        ;
        assert(q * align < a + align);
        assert(p < a);
    }
}

/// A region is well formed for the window `[start, end)`.
pub open spec fn region_ok(r: Region, start: int, end: int) -> bool {
    &&& r.len > 0
    &&& r.addr as int % (WORD as int) == 0
    &&& r.len as int % (WORD as int) == 0
    &&& start <= r.addr
    &&& r.addr + r.len <= end
}

/// The free store is sorted by address and pairwise disjoint, every region
/// well formed for the window.
pub open spec fn regions_wf(rs: Seq<Region>, start: int, end: int) -> bool {
    &&& forall|i: int| 0 <= i < rs.len() ==> region_ok(#[trigger] rs[i], start, end)
    &&& forall|i: int, j: int|
        #![trigger rs[i], rs[j]]
        0 <= i < j < rs.len() ==> rs[i].addr + rs[i].len <= rs[j].addr
}

/// Address at which a request of the given alignment would be placed in `r`.
pub open spec fn fit_addr(r: Region, align: int) -> int {
    round_up(r.addr as int, align)
}

/// Whether a request of `size` bytes at alignment `align` fits in `r`.
pub open spec fn region_fits(r: Region, size: int, align: int) -> bool {
    fit_addr(r, align) + size <= r.addr + r.len
}

/// Index of the first region that fits the request, if any: the first-fit
/// search rule.
pub open spec fn spec_first_fit(rs: Seq<Region>, size: int, align: int) -> Option<int>
    decreases rs.len(),
{
    if rs.len() == 0 {
        None
    } else if region_fits(rs[0], size, align) {
        Some(0int)
    } else {
        match spec_first_fit(rs.skip(1), size, align) {
            Some(i) => Some(i + 1),
            None => None,
        }
    }
}

/// The first-fit index is a valid index of a fitting region, and no earlier
/// region fits.
pub proof fn lemma_first_fit_ok(rs: Seq<Region>, size: int, align: int)
    ensures
        match spec_first_fit(rs, size, align) {
            Some(i) => 0 <= i < rs.len() && region_fits(rs[i], size, align) && forall|j: int|
                0 <= j < i ==> !region_fits(#[trigger] rs[j], size, align),
            None => forall|j: int| 0 <= j < rs.len() ==> !region_fits(#[trigger] rs[j], size, align),
        },
    decreases rs.len(),
{
    if rs.len() > 0 && !region_fits(rs[0], size, align) {
        let tail = rs.skip(1);
        lemma_first_fit_ok(tail, size, align);
        assert(forall|j: int| 0 <= j < tail.len() ==> #[trigger] tail[j] == rs[j + 1]);
        match spec_first_fit(tail, size, align) {
            Some(i) => {
                assert(spec_first_fit(rs, size, align) == Some(i + 1));
                assert(rs[i + 1] == tail[i]);
                assert forall|j: int| 0 <= j < i + 1 implies !region_fits(
                    #[trigger] rs[j],
                    size,
                    align,
                ) by {
                    if j > 0 {
                        assert(rs[j] == tail[j - 1]);
                    }
                }
            },
            None => {
                assert forall|j: int| 0 <= j < rs.len() implies !region_fits(
                    #[trigger] rs[j],
                    size,
                    align,
                ) by {
                    if j > 0 {
                        assert(rs[j] == tail[j - 1]);
                    }
                }
            },
        }
    }
}

/// If any region fits, the first-fit search succeeds.
pub proof fn lemma_first_fit_finds(rs: Seq<Region>, size: int, align: int, i: int)
    requires
        0 <= i < rs.len(),
        region_fits(rs[i], size, align),
    ensures
        spec_first_fit(rs, size, align) is Some,
{
    lemma_first_fit_ok(rs, size, align);
}

/// The free store after carving `[p, p + size)` out of region `i`: the parts
/// of the region before and after the carved range stay, if nonempty.
pub open spec fn spec_carve(rs: Seq<Region>, i: int, p: int, size: int) -> Seq<Region>
    recommends
        0 <= i < rs.len(),
        rs[i].addr <= p,
        p + size <= rs[i].addr + rs[i].len,
{
    let left = Region { addr: rs[i].addr, len: (p - rs[i].addr) as usize };
    let right = Region { addr: (p + size) as usize, len: (rs[i].addr + rs[i].len - p - size) as usize };
    let middle = if left.len > 0 && right.len > 0 {
        seq![left, right]
    } else if left.len > 0 {
        seq![left]
    } else if right.len > 0 {
        seq![right]
    } else {
        Seq::<Region>::empty()
    };
    rs.take(i) + middle + rs.skip(i + 1)
}

/// Number of regions whose address lies strictly below `addr`; where a
/// region freed at `addr` is spliced into the sorted free store.
pub open spec fn insert_pos(rs: Seq<Region>, addr: int) -> int
    decreases rs.len(),
{
    if rs.len() == 0 {
        0
    } else if rs[0].addr < addr {
        1 + insert_pos(rs.skip(1), addr)
    } else {
        0
    }
}

pub proof fn lemma_insert_pos(rs: Seq<Region>, addr: int)
    ensures
        0 <= insert_pos(rs, addr) <= rs.len(),
        forall|j: int| 0 <= j < insert_pos(rs, addr) ==> (#[trigger] rs[j]).addr < addr,
        insert_pos(rs, addr) < rs.len() ==> rs[insert_pos(rs, addr)].addr >= addr,
    decreases rs.len(),
{
    if rs.len() > 0 && rs[0].addr < addr {
        let tail = rs.skip(1);
        lemma_insert_pos(tail, addr);
        assert(forall|j: int| 0 <= j < tail.len() ==> #[trigger] tail[j] == rs[j + 1]);
        let ip = insert_pos(rs, addr);
        assert(ip == 1 + insert_pos(tail, addr));
        assert forall|j: int| 0 <= j < ip implies (#[trigger] rs[j]).addr < addr by {
            if j > 0 {
                assert(rs[j] == tail[j - 1]);
            }
        }
        if ip < rs.len() {
            assert(rs[ip] == tail[ip - 1]);
        }
    }
}

/// Every region of a carved store lies inside some region of the old store.
pub proof fn lemma_carve_within(rs: Seq<Region>, i: int, p: int, size: int)
    requires
        0 <= i < rs.len(),
        rs[i].addr <= p,
        p + size <= rs[i].addr + rs[i].len,
        0 <= size,
        rs[i].addr + rs[i].len <= WINDOW_LIMIT,
    ensures
        forall|a: int|
            0 <= a < spec_carve(rs, i, p, size).len() ==> exists|b: int|
                0 <= b < rs.len() && rs[b].addr <= (#[trigger] spec_carve(rs, i, p, size)[a]).addr
                    && spec_carve(rs, i, p, size)[a].addr + spec_carve(rs, i, p, size)[a].len
                    <= rs[b].addr + rs[b].len,
{
    let carved = spec_carve(rs, i, p, size);
    let (middle, m) = lemma_carve_shape(rs, i, p, size);
    assert forall|a: int| 0 <= a < carved.len() implies exists|b: int|
        0 <= b < rs.len() && rs[b].addr <= (#[trigger] carved[a]).addr && carved[a].addr
            + carved[a].len <= rs[b].addr + rs[b].len by {
        if a < i {
            assert(carved[a] == rs[a]);
            assert(rs[a].addr <= carved[a].addr && carved[a].addr + carved[a].len <= rs[a].addr
                + rs[a].len);
        } else if a >= i + m {
            assert(carved[a] == rs[a - m + 1]);
            let b = a - m + 1;
            assert(rs[b].addr <= carved[a].addr && carved[a].addr + carved[a].len <= rs[b].addr
                + rs[b].len);
        } else {
            assert(rs[i].addr <= carved[a].addr && carved[a].addr + carved[a].len <= rs[i].addr
                + rs[i].len);
        }
    }
}

/// Shape of a carved store: the regions before and after the carved one are
/// kept, and in its place stand the at most two remainders, each inside it.
proof fn lemma_carve_shape(rs: Seq<Region>, i: int, p: int, size: int) -> (r: (Seq<Region>, int))
    requires
        0 <= i < rs.len(),
        rs[i].addr <= p,
        p + size <= rs[i].addr + rs[i].len,
        0 <= size,
        rs[i].addr + rs[i].len <= WINDOW_LIMIT,
    ensures
        ({
            let carved = spec_carve(rs, i, p, size);
            let (middle, m) = r;
            &&& m == middle.len()
            &&& 0 <= m <= 2
            &&& carved == rs.take(i) + middle + rs.skip(i + 1)
            &&& carved.len() == rs.len() - 1 + m
            &&& forall|a: int| 0 <= a < i ==> #[trigger] carved[a] == rs[a]
            &&& forall|a: int| i + m <= a < carved.len() ==> #[trigger] carved[a] == rs[a - m + 1]
            &&& forall|a: int|
                i <= a < i + m ==> rs[i].addr <= (#[trigger] carved[a]).addr && carved[a].addr
                    + carved[a].len <= rs[i].addr + rs[i].len && ((carved[a].addr == rs[i].addr
                    && carved[a].addr + carved[a].len == p) || (carved[a].addr == p + size
                    && carved[a].addr + carved[a].len == rs[i].addr + rs[i].len))
        }),
{
    let carved = spec_carve(rs, i, p, size);
    let left = Region { addr: rs[i].addr, len: (p - rs[i].addr) as usize };
    let right = Region {
        addr: (p + size) as usize,
        len: (rs[i].addr + rs[i].len - p - size) as usize,
    };
    let middle = if left.len > 0 && right.len > 0 {
        seq![left, right]
    } else if left.len > 0 {
        seq![left]
    } else if right.len > 0 {
        seq![right]
    } else {
        Seq::<Region>::empty()
    };
    assert(carved == rs.take(i) + middle + rs.skip(i + 1));
    (middle, middle.len() as int)
}

/// The carved range is disjoint from every region of the carved store.
pub proof fn lemma_carve_disjoint(rs: Seq<Region>, i: int, p: int, size: int, start: int, end: int)
    requires
        regions_wf(rs, start, end),
        0 <= i < rs.len(),
        rs[i].addr <= p,
        p + size <= rs[i].addr + rs[i].len,
        0 <= size,
        0 <= start,
        end <= WINDOW_LIMIT,
    ensures
        forall|a: int|
            0 <= a < spec_carve(rs, i, p, size).len() ==> p + size <= (#[trigger] spec_carve(
                rs,
                i,
                p,
                size,
            )[a]).addr || spec_carve(rs, i, p, size)[a].addr + spec_carve(rs, i, p, size)[a].len
                <= p,
{
    assert(region_ok(rs[i], start, end));
    let carved = spec_carve(rs, i, p, size);
    let (middle, m) = lemma_carve_shape(rs, i, p, size);
    assert forall|a: int| 0 <= a < carved.len() implies p + size <= (#[trigger] carved[a]).addr
        || carved[a].addr + carved[a].len <= p by {
        if a < i {
            assert(carved[a] == rs[a]);
            assert(rs[a].addr + rs[a].len <= rs[i].addr);
        } else if a >= i + m {
            assert(carved[a] == rs[a - m + 1]);
            assert(rs[i].addr + rs[i].len <= rs[a - m + 1].addr);
        } else {
            assert(carved[a].addr == rs[i].addr || carved[a].addr == p + size);
            assert(carved[a].addr + carved[a].len == p || carved[a].addr + carved[a].len
                == rs[i].addr + rs[i].len);
        }
    }
}

/// A range disjoint from every region and from the returned range stays
/// disjoint from every region after the return.
pub proof fn lemma_insert_disjoint(
    rs: Seq<Region>,
    addr: int,
    size: int,
    start: int,
    end: int,
    c: int,
    cs: int,
)
    requires
        regions_wf(rs, start, end),
        size >= 1,
        cs >= 1,
        0 <= start <= addr,
        addr + size <= end <= WINDOW_LIMIT,
        forall|j: int|
            0 <= j < rs.len() ==> addr + size <= (#[trigger] rs[j]).addr || rs[j].addr + rs[j].len
                <= addr,
        forall|j: int|
            0 <= j < rs.len() ==> c + cs <= (#[trigger] rs[j]).addr || rs[j].addr + rs[j].len <= c,
        c + cs <= addr || addr + size <= c,
    ensures
        forall|a: int|
            0 <= a < spec_insert(rs, addr, size).len() ==> c + cs <= (#[trigger] spec_insert(
                rs,
                addr,
                size,
            )[a]).addr || spec_insert(rs, addr, size)[a].addr + spec_insert(rs, addr, size)[a].len
                <= c,
{
    lemma_insert_pos(rs, addr);
    let i = insert_pos(rs, addr);
    let ins = spec_insert(rs, addr, size);
    let merge_l = i > 0 && rs[i - 1].addr + rs[i - 1].len == addr;
    let merge_r = i < rs.len() && addr + size == rs[i].addr;
    let fresh = if merge_l && merge_r {
        Region { addr: rs[i - 1].addr, len: (rs[i - 1].len + size + rs[i].len) as usize }
    } else if merge_l {
        Region { addr: rs[i - 1].addr, len: (rs[i - 1].len + size) as usize }
    } else if merge_r {
        Region { addr: addr as usize, len: (size + rs[i].len) as usize }
    } else {
        Region { addr: addr as usize, len: size as usize }
    };
    let lo = if merge_l { i - 1 } else { i };
    let hi = if merge_r { i + 1 } else { i };
    if merge_l {
        assert(region_ok(rs[i - 1], start, end));
    }
    if merge_r {
        assert(region_ok(rs[i], start, end));
    }
    assert(ins =~= rs.take(lo) + seq![fresh] + rs.skip(hi));
    assert(ins.len() == lo + 1 + rs.len() - hi);
    assert(forall|a: int| 0 <= a < lo ==> #[trigger] ins[a] == rs[a]);
    assert(ins[lo] == fresh);
    assert(forall|a: int| lo < a < ins.len() ==> #[trigger] ins[a] == rs[a - lo - 1 + hi]);
    assert forall|a: int| 0 <= a < ins.len() implies c + cs <= (#[trigger] ins[a]).addr
        || ins[a].addr + ins[a].len <= c by {
        if a < lo {
            assert(ins[a] == rs[a]);
        } else if a > lo {
            assert(ins[a] == rs[a - lo - 1 + hi]);
        } else {
            // the fresh region is the contiguous hull of the returned range
            // and the neighbours it merged with
            if merge_l {
                assert(region_ok(rs[i - 1], start, end));
            }
            if merge_r {
                assert(region_ok(rs[i], start, end));
            }
            if c + cs <= addr {
                if merge_l {
                    assert(c + cs <= rs[i - 1].addr || rs[i - 1].addr + rs[i - 1].len <= c);
                    assert(c + cs <= rs[i - 1].addr);
                }
            } else {
                assert(addr + size <= c);
                if merge_r {
                    assert(c + cs <= rs[i].addr || rs[i].addr + rs[i].len <= c);
                    assert(rs[i].addr + rs[i].len <= c);
                }
            }
        }
    }
}

/// The free store after returning `[addr, addr + size)`: the range is merged
/// with the region ending at `addr` and the region starting at `addr + size`,
/// where those exist.
pub open spec fn spec_insert(rs: Seq<Region>, addr: int, size: int) -> Seq<Region> {
    let i = insert_pos(rs, addr);
    let merge_left = i > 0 && rs[i - 1].addr + rs[i - 1].len == addr;
    let merge_right = i < rs.len() && addr + size == rs[i].addr;
    if merge_left && merge_right {
        rs.take(i - 1) + seq![
            Region {
                addr: rs[i - 1].addr,
                len: (rs[i - 1].len + size + rs[i].len) as usize,
            },
        ] + rs.skip(i + 1)
    } else if merge_left {
        rs.take(i - 1) + seq![Region { addr: rs[i - 1].addr, len: (rs[i - 1].len + size) as usize }]
            + rs.skip(i)
    } else if merge_right {
        rs.take(i) + seq![Region { addr: addr as usize, len: (size + rs[i].len) as usize }] + rs.skip(
            i + 1,
        )
    } else {
        rs.take(i) + seq![Region { addr: addr as usize, len: size as usize }] + rs.skip(i)
    }
}

/// The fallback heap itself: its window bounds and its sorted free store.
pub struct FallbackHeap {
    pub bottom: usize,
    pub top: usize,
    pub regions: Vec<Region>,
}

impl FallbackHeap {
    /// The heap's free store is well formed for its window, and the window
    /// sits at word granularity below the address limit.
    pub open spec fn wf(self) -> bool {
        &&& WORD <= self.bottom <= self.top <= WINDOW_LIMIT
        &&& self.bottom as int % (WORD as int) == 0
        &&& self.top as int % (WORD as int) == 0
        &&& regions_wf(self.regions@, self.bottom as int, self.top as int)
    }

    /// An empty heap that owns no memory.
    pub fn empty() -> (h: FallbackHeap)
        ensures
            h.wf(),
            h.regions@ =~= Seq::<Region>::empty(),
            h.bottom == WORD,
            h.top == WORD,
    {
        FallbackHeap { bottom: WORD, top: WORD, regions: Vec::new() }
    }

    /// Bind the heap to the window `[start, start + size)`; the whole window
    /// becomes one free region. To be called exactly once, on an empty heap.
    pub fn init(&mut self, start: usize, size: usize)
        requires
            old(self).regions@.len() == 0,
            WORD <= start,
            start as int % (WORD as int) == 0,
            size as int % (WORD as int) == 0,
            start + size <= WINDOW_LIMIT,
        ensures
            final(self).wf(),
            final(self).bottom == start,
            final(self).top == start + size,
            size > 0 ==> final(self).regions@ =~= seq![Region { addr: start, len: size }],
            size == 0 ==> final(self).regions@ =~= Seq::<Region>::empty(),
    {
        self.bottom = start;
        self.top = start + size;
        if size > 0 {
            self.regions.push(Region { addr: start, len: size });
        }
    }

    /// Carving a fitting request out of region `i` keeps the free store well
    /// formed, and the carved range lies inside that region, aligned.
    pub proof fn lemma_carve_wf(rs: Seq<Region>, i: int, p: int, size: int, align: int, start: int, end: int)
        requires
            regions_wf(rs, start, end),
            0 <= i < rs.len(),
            WORD <= size,
            size % (WORD as int) == 0,
            WORD <= align,
            align % (WORD as int) == 0,
            0 <= start,
            end <= WINDOW_LIMIT,
            p == fit_addr(rs[i], align),
            region_fits(rs[i], size, align),
        ensures
            regions_wf(spec_carve(rs, i, p, size), start, end),
            rs[i].addr <= p,
            p + size <= rs[i].addr + rs[i].len,
            p % align == 0,
            p % (WORD as int) == 0,
    {
        assert(region_ok(rs[i], start, end));
        lemma_round_up(rs[i].addr as int, align);
        Self::lemma_mod_sub(p, align, WORD as int);
        let carved = spec_carve(rs, i, p, size);
        let left = Region { addr: rs[i].addr, len: (p - rs[i].addr) as usize };
        let right = Region {
            addr: (p + size) as usize,
            len: (rs[i].addr + rs[i].len - p - size) as usize,
        };
        assert(left.len == p - rs[i].addr);
        assert(right.addr == p + size && right.len == rs[i].addr + rs[i].len - p - size);
        assert(left.len as int % (WORD as int) == 0) by {
            lemma_sub_mod_noop(p, rs[i].addr as int, WORD as int);
        }
        assert((p + size) % (WORD as int) == 0) by {
            lemma_add_mod_noop(p, size, WORD as int);
        }
        assert(right.len as int % (WORD as int) == 0) by {
            lemma_add_mod_noop(rs[i].addr as int, rs[i].len as int, WORD as int);
            lemma_sub_mod_noop(rs[i].addr + rs[i].len, p + size, WORD as int);
        }
        assert(region_ok(left, start, end) || left.len == 0);
        assert(region_ok(right, start, end) || right.len == 0);
        let middle = if left.len > 0 && right.len > 0 {
            seq![left, right]
        } else if left.len > 0 {
            seq![left]
        } else if right.len > 0 {
            seq![right]
        } else {
            Seq::<Region>::empty()
        };
        let m = middle.len() as int;
        assert(carved == rs.take(i) + middle + rs.skip(i + 1));
        assert(carved.len() == rs.len() - 1 + m);
        assert(forall|a: int| 0 <= a < i ==> #[trigger] carved[a] == rs[a]);
        assert(forall|a: int| i + m <= a < carved.len() ==> #[trigger] carved[a] == rs[a - m + 1]);
        assert(forall|a: int|
            i <= a < i + m ==> #[trigger] carved[a] == middle[a - i] && region_ok(
                carved[a],
                start,
                end,
            ) && rs[i].addr <= carved[a].addr && carved[a].addr + carved[a].len <= rs[i].addr
                + rs[i].len);
        assert forall|a: int| 0 <= a < carved.len() implies region_ok(
            #[trigger] carved[a],
            start,
            end,
        ) by {}
        assert forall|a: int, b: int|
            #![trigger carved[a], carved[b]]
            0 <= a < b < carved.len() implies carved[a].addr + carved[a].len <= carved[b].addr by {
            if a < i && b >= i + m {
                assert(carved[a] == rs[a] && carved[b] == rs[b - m + 1]);
            }
        }
    }

    /// First-fit allocation of `size` bytes at alignment `align`, both at
    /// word granularity. Returns the placement address inside the first
    /// region that can hold the request, carving it out of the free store;
    /// returns nothing exactly when no region fits.
    pub fn allocate_first_fit(&mut self, size: usize, align: usize) -> (r: Option<usize>)
        requires
            old(self).wf(),
            WORD <= size <= WINDOW_LIMIT,
            size as int % (WORD as int) == 0,
            WORD <= align <= WINDOW_LIMIT,
            align as int % (WORD as int) == 0,
        ensures
            final(self).wf(),
            final(self).bottom == old(self).bottom,
            final(self).top == old(self).top,
            match r {
                Some(p) => {
                    let i = spec_first_fit(old(self).regions@, size as int, align as int)->Some_0;
                    &&& spec_first_fit(old(self).regions@, size as int, align as int) is Some
                    &&& p == fit_addr(old(self).regions@[i], align as int)
                    &&& p as int % (align as int) == 0
                    &&& old(self).regions@[i].addr <= p
                    &&& p + size <= old(self).regions@[i].addr + old(self).regions@[i].len
                    &&& final(self).regions@ == spec_carve(
                        old(self).regions@,
                        i,
                        p as int,
                        size as int,
                    )
                },
                None => {
                    &&& spec_first_fit(old(self).regions@, size as int, align as int) is None
                    &&& final(self).regions@ == old(self).regions@
                },
            },
    {
        let ghost rs = self.regions@;
        let mut i: usize = 0;
        loop
            invariant
                self.wf(),
                self == old(self),
                rs == self.regions@,
                i <= rs.len(),
                WORD <= size <= WINDOW_LIMIT,
                size as int % (WORD as int) == 0,
                WORD <= align <= WINDOW_LIMIT,
                align as int % (WORD as int) == 0,
                forall|j: int|
                    0 <= j < i ==> !region_fits(#[trigger] rs[j], size as int, align as int),
            ensures
                self.wf(),
                self == old(self),
                rs == self.regions@,
                i <= rs.len(),
                WORD <= size <= WINDOW_LIMIT,
                size as int % (WORD as int) == 0,
                WORD <= align <= WINDOW_LIMIT,
                align as int % (WORD as int) == 0,
                forall|j: int|
                    0 <= j < i ==> !region_fits(#[trigger] rs[j], size as int, align as int),
                i < rs.len() ==> region_fits(rs[i as int], size as int, align as int),
            decreases rs.len() - i,
        {
            if i == self.regions.len() {
                break;
            }
            let reg = self.regions[i];
            proof {
                assert(region_ok(rs[i as int], self.bottom as int, self.top as int));
                lemma_round_up(reg.addr as int, align as int);
            }
            // placement address for this region
            let p = ((reg.addr + align - 1) / align) * align;
            if p + size <= reg.addr + reg.len {
                break;
            }
            i += 1;
        }
        proof {
            lemma_first_fit_ok(rs, size as int, align as int);
        }
        if i == self.regions.len() {
            return None;
        }
        let reg = self.regions[i];
        proof {
            assert(region_ok(rs[i as int], self.bottom as int, self.top as int));
            lemma_round_up(reg.addr as int, align as int);
            Self::lemma_carve_wf(
                rs,
                i as int,
                fit_addr(rs[i as int], align as int),
                size as int,
                align as int,
                self.bottom as int,
                self.top as int,
            );
        }
        let p = ((reg.addr + align - 1) / align) * align;
        let ghost gi = i as int;
        let ghost gp = p as int;
        // carve [p, p + size) out of region i
        let left_len = p - reg.addr;
        let right_len = reg.addr + reg.len - p - size;
        self.regions.remove(i);
        let mut at = i;
        if left_len > 0 {
            self.regions.insert(at, Region { addr: reg.addr, len: left_len });
            at += 1;
        }
        if right_len > 0 {
            self.regions.insert(at, Region { addr: p + size, len: right_len });
        }
        proof {
            assert(self.regions@ =~= spec_carve(rs, gi, gp, size as int));
        }
        Some(p)
    }

    /// A multiple of a multiple of `w` is a multiple of `w`; used for
    /// placement addresses, whose alignment is itself word-aligned.
    proof fn lemma_mod_sub(p: int, align: int, w: int)
        requires
            w >= 1,
            align >= 1,
            p % align == 0,
            align % w == 0,
        ensures
            p % w == 0,
    {
        let q = p / align;
        let m = align / w;
        lemma_fundamental_div_mod(p, align);
        lemma_fundamental_div_mod(align, w);
        assert(p == align * q);
        assert(align == w * m);
        assert(p == w * (m * q)) by (nonlinear_arith)
            requires
                p == align * q,
                align == w * m,
        ;
        lemma_fundamental_div_mod_converse_mod(p, w, m * q, 0);
    }

    /// Return `[addr, addr + size)` to the free store, coalescing with the
    /// neighbouring regions where they touch.
    pub fn deallocate(&mut self, addr: usize, size: usize)
        requires
            old(self).wf(),
            WORD <= size,
            addr as int % (WORD as int) == 0,
            size as int % (WORD as int) == 0,
            old(self).bottom <= addr,
            addr + size <= old(self).top,
            forall|j: int|
                0 <= j < old(self).regions@.len() ==> addr + size <= (#[trigger] old(
                    self,
                ).regions@[j]).addr || old(self).regions@[j].addr + old(self).regions@[j].len
                    <= addr,
        ensures
            final(self).wf(),
            final(self).bottom == old(self).bottom,
            final(self).top == old(self).top,
            final(self).regions@ == spec_insert(old(self).regions@, addr as int, size as int),
            exists|j: int|
                0 <= j < final(self).regions@.len() && (#[trigger] final(self).regions@[j]).addr
                    <= addr && addr + size <= final(self).regions@[j].addr
                    + final(self).regions@[j].len,
    {
        let ghost rs = self.regions@;
        proof {
            lemma_insert_pos(rs, addr as int);
        }
        let mut i: usize = 0;
        loop
            invariant
                self == old(self),
                rs == self.regions@,
                i <= rs.len(),
                forall|j: int| 0 <= j < i ==> (#[trigger] rs[j]).addr < addr,
            ensures
                i == insert_pos(rs, addr as int),
            decreases rs.len() - i,
        {
            proof {
                lemma_insert_pos(rs, addr as int);
            }
            if i == self.regions.len() {
                proof {
                    let ip = insert_pos(rs, addr as int);
                    if ip < i {
                        assert(rs[ip].addr < addr);
                    }
                }
                break;
            }
            if self.regions[i].addr >= addr {
                proof {
                    let ip = insert_pos(rs, addr as int);
                    if ip < i {
                        assert(rs[ip].addr < addr);
                    }
                    if ip > i {
                        assert(rs[i as int].addr < addr);
                    }
                }
                break;
            }
            i += 1;
        }
        let ghost gi = i as int;
        let merge_left = i > 0 && {
            let prev = self.regions[i - 1];
            prev.addr + prev.len == addr
        };
        let merge_right = i < self.regions.len() && addr + size == self.regions[i].addr;
        if merge_left && merge_right {
            let prev = self.regions[i - 1];
            let next = self.regions[i];
            let merged = Region { addr: prev.addr, len: prev.len + size + next.len };
            self.regions[i - 1] = merged;
            self.regions.remove(i);
        } else if merge_left {
            let prev = self.regions[i - 1];
            self.regions[i - 1] = Region { addr: prev.addr, len: prev.len + size };
        } else if merge_right {
            let next = self.regions[i];
            self.regions[i] = Region { addr, len: size + next.len };
        } else {
            self.regions.insert(i, Region { addr, len: size });
        }
        proof {
            let inserted = spec_insert(rs, addr as int, size as int);
            let merge_l = gi > 0 && rs[gi - 1].addr + rs[gi - 1].len == addr;
            let merge_r = gi < rs.len() && addr + size == rs[gi].addr;
            if merge_l && merge_r {
                assert(self.regions@ =~= inserted);
            } else if merge_l {
                assert(self.regions@ =~= inserted);
            } else if merge_r {
                assert(self.regions@ =~= inserted);
            } else {
                assert(self.regions@ =~= inserted);
            }
            Self::lemma_insert_wf(
                rs,
                addr as int,
                size as int,
                self.bottom as int,
                self.top as int,
            );
        }
    }

    /// Returning a range that is disjoint from every region keeps the free
    /// store well formed, and afterwards one region covers the whole range.
    pub proof fn lemma_insert_wf(rs: Seq<Region>, addr: int, size: int, start: int, end: int)
        requires
            regions_wf(rs, start, end),
            WORD <= size,
            addr % (WORD as int) == 0,
            size % (WORD as int) == 0,
            start <= addr,
            addr + size <= end,
            0 <= start,
            end <= WINDOW_LIMIT,
            forall|j: int|
                0 <= j < rs.len() ==> addr + size <= (#[trigger] rs[j]).addr || rs[j].addr
                    + rs[j].len <= addr,
        ensures
            regions_wf(spec_insert(rs, addr, size), start, end),
            exists|j: int|
                0 <= j < spec_insert(rs, addr, size).len() && (#[trigger] spec_insert(
                    rs,
                    addr,
                    size,
                )[j]).addr <= addr && addr + size <= spec_insert(rs, addr, size)[j].addr
                    + spec_insert(rs, addr, size)[j].len,
    {
        lemma_insert_pos(rs, addr);
        let i = insert_pos(rs, addr);
        let ins = spec_insert(rs, addr, size);
        assert forall|j: int| 0 <= j < i implies (#[trigger] rs[j]).addr + rs[j].len <= addr by {
            assert(rs[j].addr < addr);
            assert(region_ok(rs[j], start, end));
        }
        assert forall|j: int| i <= j < rs.len() implies addr + size <= (#[trigger] rs[j]).addr by {
            assert(region_ok(rs[j], start, end));
            if i < rs.len() {
                assert(rs[i].addr >= addr);
                if j > i {
                    assert(rs[i].addr + rs[i].len <= rs[j].addr);
                }
            }
        }
        let merge_l = i > 0 && rs[i - 1].addr + rs[i - 1].len == addr;
        let merge_r = i < rs.len() && addr + size == rs[i].addr;
        let fresh = if merge_l && merge_r {
            Region { addr: rs[i - 1].addr, len: (rs[i - 1].len + size + rs[i].len) as usize }
        } else if merge_l {
            Region { addr: rs[i - 1].addr, len: (rs[i - 1].len + size) as usize }
        } else if merge_r {
            Region { addr: addr as usize, len: (size + rs[i].len) as usize }
        } else {
            Region { addr: addr as usize, len: size as usize }
        };
        let lo = if merge_l { i - 1 } else { i };
        let hi = if merge_r { i + 1 } else { i };
        assert(ins =~= rs.take(lo) + seq![fresh] + rs.skip(hi));
        assert(ins.len() == lo + 1 + rs.len() - hi);
        assert(forall|a: int| 0 <= a < lo ==> #[trigger] ins[a] == rs[a]);
        assert(ins[lo] == fresh);
        assert(forall|a: int| lo < a < ins.len() ==> #[trigger] ins[a] == rs[a - lo - 1 + hi]);
        assert(region_ok(fresh, start, end)) by {
            lemma_add_mod_noop(addr, size, WORD as int);
            if merge_l {
                assert(region_ok(rs[i - 1], start, end));
            }
            if merge_r {
                assert(region_ok(rs[i], start, end));
            }
        }
        assert(fresh.addr <= addr && addr + size <= fresh.addr + fresh.len);
        assert forall|a: int| 0 <= a < ins.len() implies region_ok(#[trigger] ins[a], start, end) by {
        }
        assert forall|a: int, b: int|
            #![trigger ins[a], ins[b]]
            0 <= a < b < ins.len() implies ins[a].addr + ins[a].len <= ins[b].addr by {
            if a < lo && b > lo {
                assert(ins[a] == rs[a] && ins[b] == rs[b - lo - 1 + hi]);
            }
            if a == lo && b > lo {
                assert(ins[b] == rs[b - lo - 1 + hi]);
                assert(fresh.addr + fresh.len <= addr + size || fresh.addr + fresh.len == rs[i].addr
                    + rs[i].len);
            }
            if b == lo && a < lo {
                assert(ins[a] == rs[a]);
                assert(fresh.addr == addr || fresh.addr == rs[i - 1].addr);
            }
        }
        assert(0 <= lo < ins.len());
    }
}

} // verus!
