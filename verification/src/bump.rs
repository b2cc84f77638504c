//! Boot-only bump allocator: hands out typed, aligned, individually
//! initialized allocations from a single fixed scratch range, and never
//! reclaims anything.
//!
//! The allocator is modelled over the addresses of the scratch range: it
//! owns the free byte range `[base, end)`, bumps `base` past every
//! allocation, and materializes each allocation's elements. Exhaustion is
//! reported, never silently wrapped: no allocation ever extends past `end`.

use vstd::arithmetic::div_mod::lemma_fundamental_div_mod;
use vstd::arithmetic::div_mod::lemma_mod_bound;
use vstd::arithmetic::div_mod::lemma_mod_multiples_basic;
use vstd::arithmetic::div_mod::lemma_small_mod;
use vstd::arithmetic::mul::lemma_mul_inequality;
use vstd::layout::align_of;
use vstd::layout::size_of;
use vstd::prelude::*;

verus! {

/// Bytes wasted in front of an allocation at `addr` to reach `align`.
pub open spec fn align_pad(addr: int, align: int) -> int {
    if align <= 0 {
        0
    } else {
        (align - addr % align) % align
    }
}

/// First aligned address at or past `base`.
pub open spec fn alloc_start(base: int, align: int) -> int {
    base + align_pad(base, align)
}

/// First free address after allocating `n` elements of `size` bytes at the
/// first `align`-aligned address at or past `base`.
pub open spec fn alloc_end(base: int, n: int, size: int, align: int) -> int {
    alloc_start(base, align) + n * size
}

/// `n` elements of `size` bytes, aligned to `align`, fit into the free
/// range `[base, end)`.
pub open spec fn alloc_fits(base: int, end: int, n: int, size: int, align: int) -> bool {
    align_pad(base, align) + n * size <= end - base
}

/// The first aligned address is aligned, and the padding is small.
proof fn lemma_alloc_start_aligned(base: int, align: int)
    requires
        0 <= base,
        1 <= align,
    ensures
        0 <= align_pad(base, align) < align,
        alloc_start(base, align) % align == 0,
{
    let m = base % align;
    lemma_fundamental_div_mod(base, align);
    let q = base / align;
    if m == 0 {
        lemma_small_mod(0, align as nat);
        assert(align_pad(base, align) == (align - 0) % align);
        lemma_mod_multiples_basic(1, align);
        assert(align % align == 0) by {
            assert(1 * align == align);
        }
        assert(align * q == q * align) by (nonlinear_arith);
        assert(alloc_start(base, align) == q * align);
        lemma_mod_multiples_basic(q, align);
    } else {
        lemma_small_mod((align - m) as nat, align as nat);
        assert(align_pad(base, align) == align - m);
        assert((q + 1) * align == q * align + align) by (nonlinear_arith);
        assert(align * q == q * align) by (nonlinear_arith);
        assert(alloc_start(base, align) == (q + 1) * align) by {
            assert(base == q * align + m);
        }
        lemma_mod_multiples_basic(q + 1, align);
    }
}

/// One allocation out of the scratch range: the address its elements start
/// at, and the elements themselves, contiguous in ascending address order.
pub struct Block<T> {
    pub addr: usize,
    pub items: Vec<T>,
}

impl<T> Block<T> {
    /// Model address of element `i`: `i` element sizes past the start.
    pub open spec fn element_addr(self, i: int) -> int {
        self.addr + i * size_of::<T>()
    }
}

/// One single-value allocation out of the scratch range.
pub struct Slot<T> {
    pub addr: usize,
    pub item: T,
}

/// The boot-time allocator: owns the free byte range `[base, end)` of the
/// scratch area and only ever moves `base` forward.
pub struct BumpPointer {
    pub base: usize,
    pub end: usize,
}

impl BumpPointer {
    /// The free range is a range.
    pub open spec fn wf(self) -> bool {
        self.base <= self.end
    }

    /// Wraps the scratch range starting at address `start`, `size` bytes long.
    pub fn new(start: usize, size: usize) -> (r: BumpPointer)
        requires
            start + size <= usize::MAX,
        ensures
            r.wf(),
            r.base == start,
            r.end == start + size,
    {
        BumpPointer { base: start, end: start + size }
    }

    /// Claims the aligned byte range for `n` elements of `size` bytes, or
    /// reports exhaustion and changes nothing.
    fn reserve(&mut self, n: usize, size: usize, align: usize) -> (r: Option<usize>)
        requires
            old(self).wf(),
            1 <= align,
        ensures
            final(self).wf(),
            final(self).end == old(self).end,
            r is Some <==> alloc_fits(
                old(self).base as int,
                old(self).end as int,
                n as int,
                size as int,
                align as int,
            ),
            r is None ==> *final(self) == *old(self),
            r matches Some(addr) ==> {
                &&& addr == alloc_start(old(self).base as int, align as int)
                &&& addr as int % align as int == 0
                &&& old(self).base <= addr
                &&& final(self).base == addr + n * size
            },
    {
        proof {
            lemma_alloc_start_aligned(self.base as int, align as int);
        }
        let avail = self.end - self.base;
        let pad = (align - self.base % align) % align;
        if pad > avail {
            return None;
        }
        let addr = self.base + pad;
        let room = avail - pad;
        if size > 0 {
            let max_n = room / size;
            if n > max_n {
                proof {
                    let s = size as int;
                    let q = room as int / s;
                    lemma_fundamental_div_mod(room as int, s);
                    lemma_mod_bound(room as int, s);
                    lemma_mul_inequality(q + 1, n as int, s);
                    assert((q + 1) * s == q * s + s) by (nonlinear_arith);
                    assert(s * q == q * s) by (nonlinear_arith);
                }
                assert(n * size > room);
                return None;
            }
            proof {
                let s = size as int;
                let q = room as int / s;
                lemma_fundamental_div_mod(room as int, s);
                lemma_mod_bound(room as int, s);
                lemma_mul_inequality(n as int, q, s);
                assert(s * q == q * s) by (nonlinear_arith);
            }
            assert(n * size <= room);
            let bytes = n * size;
            self.base = addr + bytes;
            Some(addr)
        } else {
            assert(n * size == 0) by {
                assert(n * 0 == 0);
            }
            self.base = addr;
            Some(addr)
        }
    }

    /// Allocates space for `n` contiguous elements of `T`, aligned for `T`,
    /// element `i` initialized to `init(i)`. Succeeds exactly when the
    /// aligned request fits in the remaining scratch space; on exhaustion
    /// nothing is allocated.
    pub fn gimme_n<T, F: Fn(usize) -> T>(&mut self, n: usize, init: F) -> (r: Option<Block<T>>)
        requires
            old(self).wf(),
            forall|i: usize| i < n ==> call_requires(init, (i,)),
        ensures
            final(self).wf(),
            final(self).end == old(self).end,
            r is Some <==> alloc_fits(
                old(self).base as int,
                old(self).end as int,
                n as int,
                size_of::<T>() as int,
                align_of::<T>() as int,
            ),
            r is None ==> *final(self) == *old(self),
            r matches Some(b) ==> {
                &&& b.addr == alloc_start(old(self).base as int, align_of::<T>() as int)
                &&& b.addr as int % align_of::<T>() as int == 0
                &&& old(self).base <= b.addr
                &&& final(self).base == b.element_addr(n as int)
                &&& b.items@.len() == n
                &&& forall|i: int|
                    0 <= i < n ==> call_ensures(init, ((i as usize),), #[trigger] b.items@[i])
            },
    {
        vstd::layout::layout_for_type_is_valid::<T>();
        let size = core::mem::size_of::<T>();
        let align = core::mem::align_of::<T>();
        match self.reserve(n, size, align) {
            None => None,
            Some(addr) => {
                let mut items: Vec<T> = Vec::new();
                let mut i: usize = 0;
                while i < n
                    invariant
                        i <= n,
                        items@.len() == i,
                        forall|q: usize| q < n ==> call_requires(init, (q,)),
                        forall|q: int|
                            0 <= q < i ==> call_ensures(init, ((q as usize),), #[trigger] items@[q]),
                    decreases n - i,
                {
                    let item = init(i);
                    items.push(item);
                    i = i + 1;
                }
                Some(Block { addr, items })
            },
        }
    }

    /// Allocates space for one `T`, aligned for `T`, holding `value`.
    /// Succeeds exactly when the aligned value fits in the remaining
    /// scratch space; on exhaustion nothing is allocated.
    pub fn gimme<T>(&mut self, value: T) -> (r: Option<Slot<T>>)
        requires
            old(self).wf(),
        ensures
            final(self).wf(),
            final(self).end == old(self).end,
            r is Some <==> alloc_fits(
                old(self).base as int,
                old(self).end as int,
                1,
                size_of::<T>() as int,
                align_of::<T>() as int,
            ),
            r is None ==> *final(self) == *old(self),
            r matches Some(s) ==> {
                &&& s.addr == alloc_start(old(self).base as int, align_of::<T>() as int)
                &&& s.addr as int % align_of::<T>() as int == 0
                &&& old(self).base <= s.addr
                &&& final(self).base == s.addr + size_of::<T>()
                &&& s.item == value
            },
    {
        vstd::layout::layout_for_type_is_valid::<T>();
        let size = core::mem::size_of::<T>();
        let align = core::mem::align_of::<T>();
        match self.reserve(1, size, align) {
            None => None,
            Some(addr) => {
                assert(1 * size_of::<T>() == size_of::<T>() as int);
                Some(Slot { addr, item: value })
            },
        }
    }
}

} // verus!
