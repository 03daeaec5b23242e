//! The fixed-size-blocks allocator: the kernel's dynamic memory service.
//!
//! A request is classed by the smallest power-of-two block size that holds
//! both its size and its alignment; each class keeps a singly-linked free
//! list whose link is stored inside the freed block itself. Requests too
//! large for any class, and fresh blocks for empty classes, go to the
//! general fallback heap. Memory handed to a class is never returned to
//! another class or to the fallback heap.
//!
//! The heap window is modelled explicitly as a vector of words, so the
//! intrusive links are real stores into the window and their disjointness
//! from every other free block is part of the allocator's invariant.

use vstd::prelude::*;
use vstd::arithmetic::div_mod::{
    lemma_div_denominator, lemma_fundamental_div_mod, lemma_mod_multiples_basic, lemma_sub_mod_noop,
};
use crate::fallback::{
    fit_addr, lemma_carve_disjoint, lemma_carve_within, lemma_first_fit_finds, lemma_first_fit_ok,
    lemma_insert_disjoint, lemma_round_up, lemma_round_up_le, region_fits, region_ok, regions_wf,
    round_up, spec_carve, spec_first_fit, spec_insert, FallbackHeap, Region, WINDOW_LIMIT, WORD,
};

verus! {

/// Number of size classes.
pub const BLOCK_CLASS_COUNT: usize = 9;

/// Block size of class `k`: ascending powers of two from 8 to 2048 bytes.
/// Each block is aligned to its own size, so the power-of-two sizes double
/// as the class alignments; the smallest class still holds one link word.
pub open spec fn spec_block_size(k: int) -> int {
    if k == 0 {
        8
    } else if k == 1 {
        16
    } else if k == 2 {
        32
    } else if k == 3 {
        64
    } else if k == 4 {
        128
    } else if k == 5 {
        256
    } else if k == 6 {
        512
    } else if k == 7 {
        1024
    } else {
        2048
    }
}

/// Largest class size: anything above this bypasses classing.
pub const LARGEST_BLOCK_SIZE: usize = 2048;

/// Block size of class `k`.
pub fn block_size(k: usize) -> (s: usize)
    requires
        k < BLOCK_CLASS_COUNT,
    ensures
        s == spec_block_size(k as int),
        WORD <= s <= LARGEST_BLOCK_SIZE,
        s as int % (WORD as int) == 0,
{
    match k {
        0 => 8,
        1 => 16,
        2 => 32,
        3 => 64,
        4 => 128,
        5 => 256,
        6 => 512,
        7 => 1024,
        _ => 2048,
    }
}

/// Whether `n` is a power of two.
pub open spec fn is_pow2(n: int) -> bool
    decreases n,
{
    if n <= 0 {
        false
    } else if n == 1 {
        true
    } else {
        n % 2 == 0 && is_pow2(n / 2)
    }
}

/// A power of two of at least one word is a multiple of the word size.
pub proof fn lemma_pow2_word_multiple(n: int)
    requires
        is_pow2(n),
        n >= WORD,
    ensures
        n % (WORD as int) == 0,
{
    let h = n / 2;
    let q = n / 4;
    let e = n / 8;
    assert(n % 2 == 0 && is_pow2(h));
    lemma_fundamental_div_mod(n, 2);
    assert(n == 2 * h);
    assert(h >= 4 && h % 2 == 0 && is_pow2(h / 2));
    lemma_fundamental_div_mod(h, 2);
    lemma_div_denominator(n, 2, 2);
    assert(q == h / 2);
    assert(h == 2 * q);
    assert(q >= 2 && q % 2 == 0);
    lemma_fundamental_div_mod(q, 2);
    lemma_div_denominator(n, 4, 2);
    assert(e == q / 2);
    assert(q == 2 * e);
    assert(n == 8 * e);
    lemma_mod_multiples_basic(e, 8);
}

/// The shape of an allocation request: a byte size and a power-of-two
/// alignment. The alignment divides the addresses the request may be
/// placed at.
#[derive(Debug, Clone, Copy, PartialEq, Eq, Structural)]
pub struct Layout {
    pub size: usize,
    pub align: usize,
}

impl Layout {
    /// A valid request: the alignment is a power of two and both measures
    /// stay within the address range this kernel model serves.
    pub open spec fn wf(self) -> bool {
        &&& is_pow2(self.align as int)
        &&& self.align <= WINDOW_LIMIT
        &&& self.size <= WINDOW_LIMIT - WORD
    }

    /// Build a layout, checking the alignment is a power of two and the
    /// measures are within range; returns nothing exactly on invalid input.
    pub fn from_size_align(size: usize, align: usize) -> (r: Option<Layout>)
        ensures
            match r {
                Some(l) => l == (Layout { size, align }) && l.wf(),
                None => !(Layout { size, align }).wf(),
            },
    {
        if is_power_of_two(align) && align <= WINDOW_LIMIT && size <= WINDOW_LIMIT - WORD {
            Some(Layout { size, align })
        } else {
            None
        }
    }
}

/// Whether `n` is a power of two, by repeated halving.
pub fn is_power_of_two(n: usize) -> (b: bool)
    ensures
        b == is_pow2(n as int),
{
    if n == 0 {
        return false;
    }
    let mut m = n;
    while m > 1 && m % 2 == 0
        invariant
            m >= 1,
            is_pow2(n as int) == is_pow2(m as int),
        decreases m,
    {
        m = m / 2;
    }
    m == 1
}

/// The size a request must be served at: the larger of its size and its
/// alignment (a block aligned to its own size covers both).
pub open spec fn required_size(l: Layout) -> int {
    if l.size < l.align {
        l.align as int
    } else {
        l.size as int
    }
}

/// The class a request falls in: the smallest class that holds its
/// required size, or none when even the largest class is too small.
pub open spec fn spec_list_index(l: Layout) -> Option<int> {
    let r = required_size(l);
    if r <= 8 {
        Some(0int)
    } else if r <= 16 {
        Some(1int)
    } else if r <= 32 {
        Some(2int)
    } else if r <= 64 {
        Some(3int)
    } else if r <= 128 {
        Some(4int)
    } else if r <= 256 {
        Some(5int)
    } else if r <= 512 {
        Some(6int)
    } else if r <= 1024 {
        Some(7int)
    } else if r <= 2048 {
        Some(8int)
    } else {
        None
    }
}

/// Choose the size class for a request: the smallest class whose block
/// size is at least `max(size, align)`; none when the request exceeds the
/// largest class.
pub fn list_index(layout: &Layout) -> (r: Option<usize>)
    ensures
        match r {
            Some(k) => {
                &&& spec_list_index(*layout) == Some(k as int)
                &&& k < BLOCK_CLASS_COUNT
                &&& spec_block_size(k as int) >= required_size(*layout)
                &&& forall|j: int| 0 <= j < k ==> spec_block_size(j) < required_size(*layout)
            },
            None => {
                &&& spec_list_index(*layout) is None
                &&& required_size(*layout) > LARGEST_BLOCK_SIZE
            },
        },
{
    let required = if layout.size < layout.align {
        layout.align
    } else {
        layout.size
    };
    if required <= 8 {
        Some(0)
    } else if required <= 16 {
        Some(1)
    } else if required <= 32 {
        Some(2)
    } else if required <= 64 {
        Some(3)
    } else if required <= 128 {
        Some(4)
    } else if required <= 256 {
        Some(5)
    } else if required <= 512 {
        Some(6)
    } else if required <= 1024 {
        Some(7)
    } else if required <= 2048 {
        Some(8)
    } else {
        None
    }
}

/// The caller-supplied heap window, modelled as `start` plus one machine
/// word per eight bytes. All addresses the allocator speaks of fall inside
/// `[start, start + 8 * words.len())`.
pub struct HeapWindow {
    pub start: usize,
    pub words: Vec<u64>,
}

impl HeapWindow {
    /// The window sits at word granularity, above the null page, below the
    /// address limit.
    pub open spec fn wf(self) -> bool {
        &&& WORD <= self.start
        &&& self.start as int % (WORD as int) == 0
        &&& self.start + self.words@.len() * WORD <= WINDOW_LIMIT
    }

    /// One past the last address of the window.
    pub open spec fn end(self) -> int {
        self.start + self.words@.len() * WORD
    }

    /// Index into `words` of the word at address `addr`.
    pub open spec fn word_index(self, addr: int) -> int {
        (addr - self.start) / (WORD as int)
    }

    /// The window holds a whole word at `addr`.
    pub open spec fn contains_word(self, addr: int) -> bool {
        &&& self.start <= addr
        &&& addr + WORD <= self.end()
        &&& addr % (WORD as int) == 0
    }

    /// An in-window word address maps to an in-range word index, and
    /// distinct word addresses map to distinct indices.
    pub proof fn lemma_word_index(self, addr: int)
        requires
            self.wf(),
            self.contains_word(addr),
        ensures
            0 <= self.word_index(addr) < self.words@.len(),
            addr == self.start + self.word_index(addr) * WORD,
    {
        let d = addr - self.start;
        assert(d % (WORD as int) == 0) by {
            lemma_sub_mod_noop(addr, self.start as int, WORD as int);
        }
        lemma_fundamental_div_mod(d, WORD as int);
        assert(d == (WORD as int) * (d / (WORD as int)));
        let i = d / (WORD as int);
        assert(WORD * i == d);
        assert(i < self.words@.len()) by (nonlinear_arith)
            requires
                WORD * i == d,
                d + WORD <= self.words@.len() * WORD,
                WORD >= 1,
        ;
        assert(i >= 0) by (nonlinear_arith)
            requires
                WORD * i == d,
                d >= 0,
                WORD >= 1,
        ;
    }

    /// An empty window.
    pub fn empty() -> (w: HeapWindow)
        ensures
            w.wf(),
            w.start == WORD,
            w.words@.len() == 0,
    {
        HeapWindow { start: WORD, words: Vec::new() }
    }

    /// Model the caller-mapped window `[start, start + size)`, zeroed.
    pub fn bind(start: usize, size: usize) -> (w: HeapWindow)
        requires
            WORD <= start,
            start as int % (WORD as int) == 0,
            size as int % (WORD as int) == 0,
            start + size <= WINDOW_LIMIT,
        ensures
            w.wf(),
            w.start == start,
            w.end() == start + size,
            w.words@ =~= Seq::new((size / WORD) as nat, |i: int| 0u64),
    {
        let n = size / WORD;
        proof {
            lemma_fundamental_div_mod(size as int, WORD as int);
        }
        let words = vec![0u64; n];
        proof {
            assert(words@ =~= Seq::new((size / WORD) as nat, |i: int| 0u64));
        }
        HeapWindow { start, words }
    }

    /// Read the word at address `addr`.
    pub fn read_word(&self, addr: usize) -> (v: u64)
        requires
            self.wf(),
            self.contains_word(addr as int),
        ensures
            v == self.words@[self.word_index(addr as int)],
    {
        proof {
            self.lemma_word_index(addr as int);
        }
        self.words[(addr - self.start) / WORD]
    }

    /// Write the word at address `addr`; no other word changes.
    pub fn write_word(&mut self, addr: usize, v: u64)
        requires
            old(self).wf(),
            old(self).contains_word(addr as int),
        ensures
            final(self).start == old(self).start,
            final(self).words@ == old(self).words@.update(
                old(self).word_index(addr as int),
                v,
            ),
    {
        proof {
            self.lemma_word_index(addr as int);
        }
        let i = (addr - self.start) / WORD;
        self.words[i] = v;
    }
}

/// Two byte ranges do not overlap.
pub open spec fn ranges_disjoint(a1: int, s1: int, a2: int, s2: int) -> bool {
    a1 + s1 <= a2 || a2 + s2 <= a1
}

/// A free block of class `k` is well placed: inside the window, aligned to
/// its own (power-of-two) block size, and at word granularity.
pub open spec fn block_ok(addr: int, k: int, start: int, end: int) -> bool {
    &&& start <= addr
    &&& addr + spec_block_size(k) <= end
    &&& addr % spec_block_size(k) == 0
    &&& addr % (WORD as int) == 0
}

/// The allocator's abstract state: the per-class free lists, the fallback
/// heap's free store, and the bounds of the heap window.
#[verifier::ext_equal]
pub struct AllocState {
    pub lists: Seq<Seq<usize>>,
    pub regions: Seq<Region>,
    pub start: int,
    pub end: int,
}

/// The allocator's invariant over its abstract state: one free list per
/// class, everything inside the window, every free block aligned to its
/// class size, and all free memory pairwise disjoint — each byte of the
/// window is owned by at most one free block or region.
pub open spec fn state_wf(s: AllocState) -> bool {
    &&& s.lists.len() == BLOCK_CLASS_COUNT
    &&& WORD <= s.start <= s.end <= WINDOW_LIMIT
    &&& s.start % (WORD as int) == 0
    &&& s.end % (WORD as int) == 0
    &&& regions_wf(s.regions, s.start, s.end)
    &&& forall|k: int, i: int|
        0 <= k < BLOCK_CLASS_COUNT && 0 <= i < s.lists[k].len() ==> block_ok(
            #[trigger] s.lists[k][i] as int,
            k,
            s.start,
            s.end,
        )
    &&& forall|k1: int, i1: int, k2: int, i2: int|
        #![trigger s.lists[k1][i1], s.lists[k2][i2]]
        0 <= k1 < BLOCK_CLASS_COUNT && 0 <= i1 < s.lists[k1].len() && 0 <= k2 < BLOCK_CLASS_COUNT
            && 0 <= i2 < s.lists[k2].len() && (k1 != k2 || i1 != i2) ==> ranges_disjoint(
            s.lists[k1][i1] as int,
            spec_block_size(k1),
            s.lists[k2][i2] as int,
            spec_block_size(k2),
        )
    &&& forall|k: int, i: int, j: int|
        #![trigger s.lists[k][i], s.regions[j]]
        0 <= k < BLOCK_CLASS_COUNT && 0 <= i < s.lists[k].len() && 0 <= j < s.regions.len()
            ==> ranges_disjoint(
            s.lists[k][i] as int,
            spec_block_size(k),
            s.regions[j].addr as int,
            s.regions[j].len as int,
        )
}

/// Request size at word granularity, at least one word, as the fallback
/// heap serves it.
pub open spec fn spec_norm_size(l: Layout) -> int {
    if l.size < WORD {
        WORD as int
    } else {
        round_up(l.size as int, WORD as int)
    }
}

/// Request alignment as the fallback heap serves it: at least one word.
pub open spec fn spec_norm_align(l: Layout) -> int {
    if l.align < WORD {
        WORD as int
    } else {
        l.align as int
    }
}

/// The byte span the allocator dedicates to a request: its class's block
/// size, or the word-normalised size for a fallback request.
pub open spec fn spec_span(l: Layout) -> int {
    match spec_list_index(l) {
        Some(k) => spec_block_size(k),
        None => spec_norm_size(l),
    }
}

/// First-fit allocation on the fallback free store: the placement address
/// in the first fitting region, carved out; no change when nothing fits.
pub open spec fn spec_fallback_alloc(rs: Seq<Region>, size: int, align: int) -> (Seq<Region>, Option<
    int,
>) {
    match spec_first_fit(rs, size, align) {
        Some(i) => {
            let p = fit_addr(rs[i], align);
            (spec_carve(rs, i, p, size), Some(p))
        },
        None => (rs, None),
    }
}

/// What one allocation does to the abstract state. A classed request pops
/// its class's free-list head when the list is nonempty and otherwise
/// carves a fresh block of exactly the class's size and alignment from the
/// fallback heap; a request beyond the largest class goes to the fallback
/// heap directly, at word-normalised size and alignment, and never touches
/// a class list.
pub open spec fn spec_alloc(s: AllocState, l: Layout) -> (AllocState, Option<int>) {
    match spec_list_index(l) {
        Some(k) => {
            if s.lists[k].len() > 0 {
                (
                    AllocState {
                        lists: s.lists.update(k, s.lists[k].skip(1)),
                        regions: s.regions,
                        start: s.start,
                        end: s.end,
                    },
                    Some(s.lists[k][0] as int),
                )
            } else {
                let (rs, r) = spec_fallback_alloc(
                    s.regions,
                    spec_block_size(k),
                    spec_block_size(k),
                );
                (AllocState { lists: s.lists, regions: rs, start: s.start, end: s.end }, r)
            }
        },
        None => {
            let (rs, r) = spec_fallback_alloc(s.regions, spec_norm_size(l), spec_norm_align(l));
            (AllocState { lists: s.lists, regions: rs, start: s.start, end: s.end }, r)
        },
    }
}

/// What one deallocation does to the abstract state: a classed block is
/// pushed onto its class's free list — never returned to the fallback heap
/// or another class — and a fallback block rejoins the fallback free store,
/// coalescing with its neighbours.
pub open spec fn spec_dealloc(s: AllocState, p: int, l: Layout) -> AllocState {
    match spec_list_index(l) {
        Some(k) => AllocState {
            lists: s.lists.update(k, seq![p as usize] + s.lists[k]),
            regions: s.regions,
            start: s.start,
            end: s.end,
        },
        None => AllocState {
            lists: s.lists,
            regions: spec_insert(s.regions, p, spec_norm_size(l)),
            start: s.start,
            end: s.end,
        },
    }
}

/// The caller's duty at deallocation, with the layout it allocated with:
/// the block lies in the window where the allocator placed it, and is not
/// already free. The allocator keeps no per-block record and cannot check
/// this; a violation is what silently corrupts a free list, so it is ruled
/// out here.
pub open spec fn dealloc_safe(s: AllocState, addr: int, l: Layout) -> bool {
    let span = spec_span(l);
    &&& s.start <= addr
    &&& addr + span <= s.end
    &&& addr % (WORD as int) == 0
    &&& (match spec_list_index(l) {
        Some(k) => addr % spec_block_size(k) == 0,
        None => true,
    })
    &&& forall|k: int, i: int|
        0 <= k < BLOCK_CLASS_COUNT && 0 <= i < s.lists[k].len() ==> ranges_disjoint(
            addr,
            span,
            #[trigger] s.lists[k][i] as int,
            spec_block_size(k),
        )
    &&& forall|j: int|
        0 <= j < s.regions.len() ==> ranges_disjoint(
            addr,
            span,
            (#[trigger] s.regions[j]).addr as int,
            s.regions[j].len as int,
        )
}

/// The fixed-size-blocks allocator. One free-list head per size class; the
/// links live inside the freed blocks, in the heap window; the fallback
/// heap backs everything else. The ghost `free_lists` names the blocks each
/// intrusive list holds.
///
/// In the running kernel one busy-wait lock guards this whole structure and
/// every call path takes it on entry and releases it on every exit; here
/// that mutual exclusion is what `&mut self` grants. The companion rule —
/// interrupt handlers never allocate, so the lock can never be taken twice
/// on one core — is kept structurally: no handler in this library receives
/// the allocator.
pub struct FixedSizeBlockAllocator {
    pub heads: Vec<usize>,
    pub free_lists: Ghost<Seq<Seq<usize>>>,
    pub fallback: FallbackHeap,
    pub window: HeapWindow,
    pub initialized: bool,
}

impl View for FixedSizeBlockAllocator {
    type V = AllocState;

    open spec fn view(&self) -> AllocState {
        AllocState {
            lists: self.free_lists@,
            regions: self.fallback.regions@,
            start: self.window.start as int,
            end: self.window.end(),
        }
    }
}

impl FixedSizeBlockAllocator {
    /// The intrusive list of class `k` matches its ghost contents: the head
    /// names the first block, and each free block's first word names the
    /// next block, zero at the end.
    pub open spec fn chain_ok(self, k: int) -> bool {
        let l = self.free_lists@[k];
        &&& (self.heads@[k] as int) == (if l.len() == 0 {
            0int
        } else {
            l[0] as int
        })
        &&& forall|i: int|
            0 <= i < l.len() ==> self.window.words@[self.window.word_index(
                #[trigger] l[i] as int,
            )] == (if i + 1 < l.len() {
                l[i + 1] as u64
            } else {
                0u64
            })
    }

    /// The allocator's full invariant: the abstract state is well formed,
    /// the window and fallback heap agree on the window bounds, and every
    /// class's intrusive list realises its ghost contents.
    pub open spec fn wf(self) -> bool {
        &&& self.heads@.len() == BLOCK_CLASS_COUNT
        &&& self.free_lists@.len() == BLOCK_CLASS_COUNT
        &&& self.window.wf()
        &&& self.fallback.wf()
        &&& self.fallback.bottom == self.window.start
        &&& self.fallback.top as int == self.window.end()
        &&& state_wf(self@)
        &&& forall|k: int| 0 <= k < BLOCK_CLASS_COUNT ==> self.chain_ok(k)
    }

    /// An empty allocator bound to no memory.
    pub fn new() -> (a: FixedSizeBlockAllocator)
        ensures
            a.wf(),
            !a.initialized,
            forall|k: int| 0 <= k < BLOCK_CLASS_COUNT ==> a@.lists[k].len() == 0,
            a@.regions.len() == 0,
    {
        let heads = vec![0usize; BLOCK_CLASS_COUNT];
        let ghost lists = Seq::new(BLOCK_CLASS_COUNT as nat, |k: int| Seq::<usize>::empty());
        let a = FixedSizeBlockAllocator {
            heads,
            free_lists: Ghost(lists),
            fallback: FallbackHeap::empty(),
            window: HeapWindow::empty(),
            initialized: false,
        };
        proof {
            assert forall|k: int| 0 <= k < BLOCK_CLASS_COUNT implies a.chain_ok(k) by {}
        }
        a
    }

    /// Bind the allocator to the caller-mapped, unused window
    /// `[heap_start, heap_start + heap_size)`. Must be called exactly once,
    /// before any allocation; the whole window initially belongs to the
    /// fallback heap.
    pub fn init(&mut self, heap_start: usize, heap_size: usize)
        requires
            old(self).wf(),
            !old(self).initialized,
            forall|k: int| 0 <= k < BLOCK_CLASS_COUNT ==> old(self)@.lists[k].len() == 0,
            old(self)@.regions.len() == 0,
            WORD <= heap_start,
            heap_start as int % (WORD as int) == 0,
            heap_size as int % (WORD as int) == 0,
            heap_start + heap_size <= WINDOW_LIMIT,
        ensures
            final(self).wf(),
            final(self).initialized,
            final(self)@.start == heap_start,
            final(self)@.end == heap_start + heap_size,
            forall|k: int| 0 <= k < BLOCK_CLASS_COUNT ==> final(self)@.lists[k] == old(
                self,
            )@.lists[k],
            heap_size > 0 ==> final(self)@.regions =~= seq![
                Region { addr: heap_start, len: heap_size },
            ],
            heap_size == 0 ==> final(self)@.regions =~= Seq::<Region>::empty(),
    {
        self.window = HeapWindow::bind(heap_start, heap_size);
        self.fallback.init(heap_start, heap_size);
        self.initialized = true;
        proof {
            assert forall|k: int| 0 <= k < BLOCK_CLASS_COUNT implies self.chain_ok(k) by {
                assert(old(self).chain_ok(k));
                assert(self.free_lists@[k].len() == 0);
            }
        }
    }

    /// Request size as the fallback heap serves it.
    fn norm_size(layout: &Layout) -> (ns: usize)
        requires
            layout.wf(),
        ensures
            ns == spec_norm_size(*layout),
            WORD <= ns <= WINDOW_LIMIT,
            ns as int % (WORD as int) == 0,
    {
        if layout.size < WORD {
            proof {
                lemma_round_up(WORD as int, WORD as int);
            }
            WORD
        } else {
            proof {
                lemma_round_up(layout.size as int, WORD as int);
            }
            ((layout.size + WORD - 1) / WORD) * WORD
        }
    }

    /// Request alignment as the fallback heap serves it.
    fn norm_align(layout: &Layout) -> (na: usize)
        requires
            layout.wf(),
        ensures
            na == spec_norm_align(*layout),
            WORD <= na <= WINDOW_LIMIT,
            na as int % (WORD as int) == 0,
    {
        if layout.align < WORD {
            WORD
        } else {
            proof {
                lemma_pow2_word_multiple(layout.align as int);
            }
            layout.align
        }
    }

    /// Carving a fitting request from the fallback store preserves the
    /// allocator's abstract invariant, and the carved range is fresh:
    /// inside the window, aligned, and disjoint from everything still free.
    proof fn lemma_alloc_carve(s0: AllocState, size: int, align: int)
        requires
            state_wf(s0),
            WORD <= size,
            size % (WORD as int) == 0,
            WORD <= align,
            align % (WORD as int) == 0,
            spec_first_fit(s0.regions, size, align) is Some,
        ensures
            ({
                let i = spec_first_fit(s0.regions, size, align)->Some_0;
                let p = fit_addr(s0.regions[i], align);
                let s1 = AllocState {
                    lists: s0.lists,
                    regions: spec_carve(s0.regions, i, p, size),
                    start: s0.start,
                    end: s0.end,
                };
                &&& state_wf(s1)
                &&& s0.start <= p
                &&& p + size <= s0.end
                &&& p % align == 0
                &&& p % (WORD as int) == 0
                &&& forall|k: int, i2: int|
                    0 <= k < BLOCK_CLASS_COUNT && 0 <= i2 < s1.lists[k].len() ==> ranges_disjoint(
                        p,
                        size,
                        #[trigger] s1.lists[k][i2] as int,
                        spec_block_size(k),
                    )
                &&& forall|j: int|
                    0 <= j < s1.regions.len() ==> ranges_disjoint(
                        p,
                        size,
                        (#[trigger] s1.regions[j]).addr as int,
                        s1.regions[j].len as int,
                    )
            }),
    {
        let rs = s0.regions;
        lemma_first_fit_ok(rs, size, align);
        let i = spec_first_fit(rs, size, align)->Some_0;
        let p = fit_addr(rs[i], align);
        assert(region_ok(rs[i], s0.start, s0.end));
        lemma_round_up(rs[i].addr as int, align);
        FallbackHeap::lemma_carve_wf(rs, i, p, size, align, s0.start, s0.end);
        lemma_carve_within(rs, i, p, size);
        lemma_carve_disjoint(rs, i, p, size, s0.start, s0.end);
        let carved = spec_carve(rs, i, p, size);
        let s1 = AllocState { lists: s0.lists, regions: carved, start: s0.start, end: s0.end };
        // every new region lies within an old one, so the class blocks stay
        // disjoint from the whole free store
        assert forall|k: int, i2: int, j: int|
            #![trigger s1.lists[k][i2], s1.regions[j]]
            0 <= k < BLOCK_CLASS_COUNT && 0 <= i2 < s1.lists[k].len() && 0 <= j
                < s1.regions.len() implies ranges_disjoint(
            s1.lists[k][i2] as int,
            spec_block_size(k),
            s1.regions[j].addr as int,
            s1.regions[j].len as int,
        ) by {
            let b = choose|b: int|
                0 <= b < rs.len() && rs[b].addr <= carved[j].addr && carved[j].addr + carved[j].len
                    <= rs[b].addr + rs[b].len;
            assert(ranges_disjoint(
                s0.lists[k][i2] as int,
                spec_block_size(k),
                rs[b].addr as int,
                rs[b].len as int,
            ));
        }
        // the carved range was part of region i, which is disjoint from
        // every class block
        assert forall|k: int, i2: int|
            0 <= k < BLOCK_CLASS_COUNT && 0 <= i2 < s1.lists[k].len() implies ranges_disjoint(
            p,
            size,
            #[trigger] s1.lists[k][i2] as int,
            spec_block_size(k),
        ) by {
            assert(ranges_disjoint(
                s0.lists[k][i2] as int,
                spec_block_size(k),
                rs[i].addr as int,
                rs[i].len as int,
            ));
        }
    }

    /// Service an allocation request. A classed request pops its class's
    /// free list in constant time when a block is ready, and otherwise
    /// carves one fresh block of exactly the class's size and alignment
    /// from the fallback heap; a request beyond the largest class is served
    /// by the fallback heap's first-fit search alone and touches no class
    /// list. Returns no address exactly when the fallback heap has no
    /// fitting region — exhaustion, which the surrounding kernel treats as
    /// fatal.
    pub fn allocate(&mut self, layout: Layout) -> (r: Option<usize>)
        requires
            old(self).wf(),
            old(self).initialized,
            layout.wf(),
        ensures
            final(self).wf(),
            final(self).initialized,
            final(self).window.start == old(self).window.start,
            final(self).window.words@ == old(self).window.words@,
            final(self).heads@.len() == BLOCK_CLASS_COUNT,
            final(self)@ == spec_alloc(old(self)@, layout).0,
            (match r {
                Some(p) => spec_alloc(old(self)@, layout).1 == Some(p as int),
                None => spec_alloc(old(self)@, layout).1 is None,
            }),
            // a classed block is aligned to its class's size; a fallback
            // block to the normalised alignment
            (match (r, spec_list_index(layout)) {
                (Some(p), Some(k)) => p as int % spec_block_size(k) == 0,
                (Some(p), None) => p as int % spec_norm_align(layout) == 0,
                (None, _) => true,
            }),
            // a returned block is fresh: the matching deallocation is safe
            (match r {
                Some(p) => dealloc_safe(final(self)@, p as int, layout),
                None => true,
            }),
            // a request beyond the largest class touches only the fallback
            // heap, never a size-class free list
            spec_list_index(layout) is None ==> final(self)@.lists == old(self)@.lists,
    {
        let ghost s0 = self@;
        match list_index(&layout) {
            Some(k) => {
                let ghost gk = k as int;
                let head = self.heads[k];
                if head != 0 {
                    let ghost l = self.free_lists@[gk];
                    proof {
                        assert(self.chain_ok(gk));
                        assert(l.len() > 0);
                        assert(head == l[0]);
                        assert(block_ok(l[0] as int, gk, s0.start, s0.end));
                        self.window.lemma_word_index(head as int);
                    }
                    let next64 = self.window.read_word(head);
                    let next = next64 as usize;
                    self.heads[k] = next;
                    proof {
                        self.free_lists@ = s0.lists.update(gk, l.skip(1));
                    }
                    proof {
                        let lt = l.skip(1);
                        assert(forall|i: int| 0 <= i < lt.len() ==> #[trigger] lt[i] == l[i + 1]);
                        if l.len() > 1 {
                            assert(block_ok(l[1] as int, gk, s0.start, s0.end));
                            assert(next == l[1]);
                        } else {
                            assert(next == 0);
                        }
                        assert forall|k2: int| 0 <= k2 < BLOCK_CLASS_COUNT implies self.chain_ok(
                            k2,
                        ) by {
                            assert(old(self).chain_ok(k2));
                            if k2 == gk {
                                assert forall|i: int| 0 <= i < lt.len() implies
                                    self.window.words@[self.window.word_index(
                                    #[trigger] lt[i] as int,
                                )] == (if i + 1 < lt.len() {
                                    lt[i + 1] as u64
                                } else {
                                    0u64
                                }) by {
                                    assert(lt[i] == l[i + 1]);
                                }
                            }
                        }
                        assert(self@ =~= spec_alloc(s0, layout).0);
                        // freshness of the popped head against what remains
                        assert forall|k2: int, i2: int|
                            0 <= k2 < BLOCK_CLASS_COUNT && 0 <= i2
                                < self@.lists[k2].len() implies ranges_disjoint(
                            head as int,
                            spec_block_size(gk),
                            #[trigger] self@.lists[k2][i2] as int,
                            spec_block_size(k2),
                        ) by {
                            if k2 == gk {
                                assert(self@.lists[k2][i2] == l[i2 + 1]);
                                assert(ranges_disjoint(
                                    l[0] as int,
                                    spec_block_size(gk),
                                    l[i2 + 1] as int,
                                    spec_block_size(gk),
                                ));
                            } else {
                                assert(ranges_disjoint(
                                    l[0] as int,
                                    spec_block_size(gk),
                                    s0.lists[k2][i2] as int,
                                    spec_block_size(k2),
                                ));
                            }
                        }
                    }
                    Some(head)
                } else {
                    proof {
                        assert(self.chain_ok(gk));
                        if s0.lists[gk].len() > 0 {
                            assert(block_ok(s0.lists[gk][0] as int, gk, s0.start, s0.end));
                        }
                        assert(s0.lists[gk].len() == 0);
                    }
                    let bs = block_size(k);
                    let p = self.fallback.allocate_first_fit(bs, bs);
                    proof {
                        if p is Some {
                            Self::lemma_alloc_carve(s0, bs as int, bs as int);
                        }
                        assert(self@ =~= spec_alloc(s0, layout).0);
                        assert forall|k2: int| 0 <= k2 < BLOCK_CLASS_COUNT implies self.chain_ok(
                            k2,
                        ) by {
                            assert(old(self).chain_ok(k2));
                        }
                    }
                    p
                }
            },
            None => {
                let ns = Self::norm_size(&layout);
                let na = Self::norm_align(&layout);
                let p = self.fallback.allocate_first_fit(ns, na);
                proof {
                    if p is Some {
                        Self::lemma_alloc_carve(s0, ns as int, na as int);
                    }
                    assert(self@ =~= spec_alloc(s0, layout).0);
                    assert forall|k2: int| 0 <= k2 < BLOCK_CLASS_COUNT implies self.chain_ok(
                        k2,
                    ) by {
                        assert(old(self).chain_ok(k2));
                    }
                }
                p
            },
        }
    }

    /// Return a block to the allocator, with the same layout it was
    /// allocated with — the allocator stores no per-block record, so this
    /// correspondence is the caller's contract, stated in `dealloc_safe`.
    /// A classed block is pushed onto its class's free list, the link
    /// stored in the block's own first word (it fits: every class holds at
    /// least one word); memory once classed is never given back to the
    /// fallback heap. A fallback block rejoins the fallback free store.
    pub fn dealloc(&mut self, addr: usize, layout: Layout)
        requires
            old(self).wf(),
            old(self).initialized,
            layout.wf(),
            dealloc_safe(old(self)@, addr as int, layout),
        ensures
            final(self).wf(),
            final(self).initialized,
            final(self).window.start == old(self).window.start,
            final(self)@ == spec_dealloc(old(self)@, addr as int, layout),
            final(self).heads@.len() == BLOCK_CLASS_COUNT,
            // the only memory the allocator itself touches is the freed
            // block's first word, which now holds the free-list link
            (match spec_list_index(layout) {
                Some(k) => final(self).window.words@ == old(self).window.words@.update(
                    old(self).window.word_index(addr as int),
                    old(self).heads@[k] as u64,
                ),
                None => final(self).window.words@ == old(self).window.words@,
            }),
    {
        let ghost s0 = self@;
        match list_index(&layout) {
            Some(k) => {
                let ghost gk = k as int;
                let ghost l = self.free_lists@[gk];
                proof {
                    assert(self.chain_ok(gk));
                    self.window.lemma_word_index(addr as int);
                }
                let head = self.heads[k];
                self.window.write_word(addr, head as u64);
                self.heads[k] = addr;
                proof {
                    self.free_lists@ = s0.lists.update(gk, seq![addr] + l);
                }
                proof {
                    let ln = seq![addr] + l;
                    assert(ln[0] == addr);
                    assert(forall|i: int| 1 <= i < ln.len() ==> #[trigger] ln[i] == l[i - 1]);
                    // distinct free blocks occupy distinct words, so the
                    // written link disturbs no other chain
                    assert forall|k2: int, i2: int|
                        0 <= k2 < BLOCK_CLASS_COUNT && 0 <= i2
                            < s0.lists[k2].len() implies self.window.words@[self.window.word_index(
                        #[trigger] s0.lists[k2][i2] as int,
                    )] == old(self).window.words@[self.window.word_index(
                        s0.lists[k2][i2] as int,
                    )] by {
                        let b = s0.lists[k2][i2] as int;
                        assert(ranges_disjoint(addr as int, spec_span(layout), b, spec_block_size(k2)));
                        assert(block_ok(b, k2, s0.start, s0.end));
                        old(self).window.lemma_word_index(b);
                        old(self).window.lemma_word_index(addr as int);
                        assert(b != addr as int);
                        assert(self.window.word_index(b) != self.window.word_index(addr as int));
                    }
                    assert forall|k2: int| 0 <= k2 < BLOCK_CLASS_COUNT implies self.chain_ok(
                        k2,
                    ) by {
                        assert(old(self).chain_ok(k2));
                        if k2 == gk {
                            assert(self.heads@[gk] == addr);
                            assert(self.window.words@[self.window.word_index(addr as int)]
                                == head as u64);
                            assert forall|i: int| 0 <= i < ln.len() implies
                                self.window.words@[self.window.word_index(
                                #[trigger] ln[i] as int,
                            )] == (if i + 1 < ln.len() {
                                ln[i + 1] as u64
                            } else {
                                0u64
                            }) by {
                                if i > 0 {
                                    assert(ln[i] == l[i - 1]);
                                    assert(old(self).window.words@[old(
                                        self,
                                    ).window.word_index(l[i - 1] as int)] == (if i < l.len() {
                                        l[i] as u64
                                    } else {
                                        0u64
                                    }));
                                } else {
                                    if l.len() > 0 {
                                        assert(head == l[0]);
                                    } else {
                                        assert(head == 0);
                                    }
                                }
                            }
                        }
                    }
                    // the freed block is well placed and disjoint from all
                    // free memory, so the abstract invariant is restored
                    assert(block_ok(addr as int, gk, s0.start, s0.end));
                    assert(self@ =~= spec_dealloc(s0, addr as int, layout));
                }
            },
            None => {
                let ns = Self::norm_size(&layout);
                proof {
                    assert forall|j: int| 0 <= j < s0.regions.len() implies addr + ns <= (
                    #[trigger] s0.regions[j]).addr || s0.regions[j].addr + s0.regions[j].len
                        <= addr by {
                        assert(ranges_disjoint(
                            addr as int,
                            spec_span(layout),
                            s0.regions[j].addr as int,
                            s0.regions[j].len as int,
                        ));
                    }
                }
                self.fallback.deallocate(addr, ns);
                proof {
                    // the coalesced free store stays disjoint from every
                    // class block
                    assert forall|k2: int, i2: int, j: int|
                        #![trigger self@.lists[k2][i2], self@.regions[j]]
                        0 <= k2 < BLOCK_CLASS_COUNT && 0 <= i2 < self@.lists[k2].len() && 0 <= j
                            < self@.regions.len() implies ranges_disjoint(
                        self@.lists[k2][i2] as int,
                        spec_block_size(k2),
                        self@.regions[j].addr as int,
                        self@.regions[j].len as int,
                    ) by {
                        assert(block_ok(s0.lists[k2][i2] as int, k2, s0.start, s0.end));
                        lemma_insert_disjoint(
                            s0.regions,
                            addr as int,
                            ns as int,
                            s0.start,
                            s0.end,
                            s0.lists[k2][i2] as int,
                            spec_block_size(k2),
                        );
                    }
                    assert forall|k2: int| 0 <= k2 < BLOCK_CLASS_COUNT implies self.chain_ok(
                        k2,
                    ) by {
                        assert(old(self).chain_ok(k2));
                    }
                    assert(self@ =~= spec_dealloc(s0, addr as int, layout));
                }
            },
        }
    }
}

/// Law: a successful allocation followed by its matching deallocation
/// leaves the allocator able to satisfy the same request again — repeated
/// allocate–deallocate cycles never report exhaustion while the raw heap
/// can still serve the request, because a round trip leaks no capacity.
pub proof fn lemma_no_capacity_leak(s: AllocState, l: Layout)
    requires
        state_wf(s),
        l.wf(),
        spec_alloc(s, l).1 is Some,
    ensures
        spec_alloc(spec_dealloc(spec_alloc(s, l).0, spec_alloc(s, l).1->Some_0, l), l).1 is Some,
{
    let (s1, r) = spec_alloc(s, l);
    let p = r->Some_0;
    let s2 = spec_dealloc(s1, p, l);
    match spec_list_index(l) {
        Some(k) => {
            // the freed block heads class k's list, so the next allocation
            // pops it straight back
            assert(s2.lists == s1.lists.update(k, seq![p as usize] + s1.lists[k]));
            assert(s2.lists[k].len() > 0);
        },
        None => {
            let ns = spec_norm_size(l);
            let na = spec_norm_align(l);
            assert(WORD <= ns && ns % (WORD as int) == 0) by {
                if l.size >= WORD {
                    lemma_round_up(l.size as int, WORD as int);
                }
            }
            assert(WORD <= na && na % (WORD as int) == 0) by {
                if l.align >= WORD {
                    lemma_pow2_word_multiple(l.align as int);
                }
            }
            let rs = s.regions;
            lemma_first_fit_ok(rs, ns, na);
            let i = spec_first_fit(rs, ns, na)->Some_0;
            assert(p == fit_addr(rs[i], na));
            assert(region_ok(rs[i], s.start, s.end));
            lemma_round_up(rs[i].addr as int, na);
            FallbackHeap::lemma_carve_wf(rs, i, p, ns, na, s.start, s.end);
            lemma_carve_disjoint(rs, i, p, ns, s.start, s.end);
            assert(s1.regions == spec_carve(rs, i, p, ns));
            // returning the block yields a region that covers it whole
            FallbackHeap::lemma_insert_wf(s1.regions, p, ns, s.start, s.end);
            assert(s2.regions == spec_insert(s1.regions, p, ns));
            let j = choose|j: int|
                0 <= j < s2.regions.len() && (#[trigger] s2.regions[j]).addr <= p && p + ns
                    <= s2.regions[j].addr + s2.regions[j].len;
            // the covering region fits the same request again: its first
            // aligned address is no later than the freed block's
            assert(region_ok(s2.regions[j], s.start, s.end));
            lemma_round_up_le(s2.regions[j].addr as int, p, na);
            assert(region_fits(s2.regions[j], ns, na));
            lemma_first_fit_finds(s2.regions, ns, na, j);
        },
    }
}

} // verus!
