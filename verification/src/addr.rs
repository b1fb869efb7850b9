//! Typed page-aligned addresses.
//!
//! A `Frame` is a physical address aligned to one of the three supported
//! page sizes; a `Page` is its virtual counterpart. Constructing either
//! from an unaligned address is a caller error, so the constructors demand
//! alignment up front and the well-formedness predicates record it.

use vstd::prelude::*;

verus! {


/// The three page sizes the address-translation hardware supports.
#[derive(Clone, Copy, Debug, PartialEq, Eq, Structural)]
pub enum PageSize {
    Size4K,
    Size2M,
    Size1G,
}

impl PageSize {
    /// Base-two logarithm of the size in bytes.
    pub open spec fn spec_log_bytes(self) -> nat {
        match self {
            PageSize::Size4K => 12,
            PageSize::Size2M => 21,
            PageSize::Size1G => 30,
        }
    }

    /// Size in bytes.
    pub open spec fn spec_bytes(self) -> nat {
        match self {
            PageSize::Size4K => 0x1000,
            PageSize::Size2M => 0x20_0000,
            PageSize::Size1G => 0x4000_0000,
        }
    }

    pub fn log_bytes(self) -> (r: u64)
        ensures
            r == self.spec_log_bytes(),
    {
        match self {
            PageSize::Size4K => 12,
            PageSize::Size2M => 21,
            PageSize::Size1G => 30,
        }
    }

    pub fn bytes(self) -> (r: u64)
        ensures
            r == self.spec_bytes(),
            r == (1u64 << self.spec_log_bytes()),
    {
        proof {
            assert((1u64 << 12) == 0x1000 && (1u64 << 21) == 0x20_0000 && (1u64 << 30)
                == 0x4000_0000) by (bit_vector);
        }
        match self {
            PageSize::Size4K => 0x1000,
            PageSize::Size2M => 0x20_0000,
            PageSize::Size1G => 0x4000_0000,
        }
    }

    /// How many 4K frames one page of this size spans.
    pub open spec fn spec_frames_4k(self) -> nat {
        match self {
            PageSize::Size4K => 1,
            PageSize::Size2M => 0x200,
            PageSize::Size1G => 0x40000,
        }
    }

    pub fn frames_4k(self) -> (r: u64)
        ensures
            r == self.spec_frames_4k(),
            r * 0x1000 == self.spec_bytes(),
    {
        match self {
            PageSize::Size4K => 1,
            PageSize::Size2M => 0x200,
            PageSize::Size1G => 0x40000,
        }
    }
}

/// `a` is a multiple of `n` (with `n` nonzero).
pub open spec fn spec_aligned(a: u64, n: nat) -> bool {
    n > 0 && a as int % n as int == 0
}

pub fn is_aligned(a: u64, n: u64) -> (r: bool)
    requires
        n > 0,
    ensures
        r == spec_aligned(a, n as nat),
{
    a % n == 0
}

/// Round `a` down to a multiple of `n`.
pub fn align_down(a: u64, n: u64) -> (r: u64)
    requires
        n > 0,
    ensures
        spec_aligned(r, n as nat),
        r <= a,
        a - r < n,
        r == a - a % n,
{
    proof {
        assert(0 <= a as int % n as int <= a as int && (a as int - a as int % n as int)
            % n as int == 0) by (nonlinear_arith)
            requires
                n > 0,
                a >= 0,
        ;
    }
    a - a % n
}

/// Mathematical version of `align_up`.
pub open spec fn spec_align_up(a: int, n: nat) -> int {
    if a % n as int == 0 {
        a
    } else {
        a + n - a % n as int
    }
}

/// Round `a` up to a multiple of `n`.
pub fn align_up(a: u64, n: u64) -> (r: u64)
    requires
        n > 0,
        a + n - 1 <= u64::MAX,
    ensures
        spec_aligned(r, n as nat),
        a <= r,
        r - a < n,
        r == spec_align_up(a as int, n as nat),
{
    let m = a % n;
    proof {
        assert(a as int % n as int == 0 ==> spec_aligned(a, n as nat));
        assert(a as int % n as int != 0 ==> (a as int + (n as int - a as int % n as int))
            % n as int == 0) by (nonlinear_arith)
            requires
                n > 0,
        ;
    }
    if m == 0 {
        a
    } else {
        a + (n - m)
    }
}

/// A page-aligned physical address together with its page size.
#[derive(Clone, Copy, Debug, PartialEq, Eq, Structural)]
pub struct Frame {
    pub size: PageSize,
    pub base: u64,
}

impl Frame {
    /// Alignment invariant: the base is a multiple of the page size.
    pub open spec fn wf(self) -> bool {
        spec_aligned(self.base, self.size.spec_bytes())
    }

    /// Construct a frame from an aligned physical address. An unaligned
    /// address is a caller error, ruled out by the precondition.
    pub fn new(size: PageSize, base: u64) -> (r: Frame)
        requires
            spec_aligned(base, size.spec_bytes()),
        ensures
            r == (Frame { size, base }),
            r.wf(),
    {
        Frame { size, base }
    }

    pub fn start(self) -> (r: u64)
        ensures
            r == self.base,
    {
        self.base
    }
}

/// A page-aligned virtual address together with its page size.
#[derive(Clone, Copy, Debug, PartialEq, Eq, Structural)]
pub struct Page {
    pub size: PageSize,
    pub base: u64,
}

impl Page {
    /// Alignment invariant: the base is a multiple of the page size.
    pub open spec fn wf(self) -> bool {
        spec_aligned(self.base, self.size.spec_bytes())
    }

    /// Construct a page from an aligned virtual address. An unaligned
    /// address is a caller error, ruled out by the precondition.
    pub fn new(size: PageSize, base: u64) -> (r: Page)
        requires
            spec_aligned(base, size.spec_bytes()),
        ensures
            r == (Page { size, base }),
            r.wf(),
    {
        Page { size, base }
    }

    pub fn start(self) -> (r: u64)
        ensures
            r == self.base,
    {
        self.base
    }

    /// The page of the given size that contains `a`.
    pub fn containing(size: PageSize, a: u64) -> (r: Page)
        ensures
            r.size == size,
            r.wf(),
            r.base <= a < r.base + size.spec_bytes(),
    {
        let b = size.bytes();
        Page { size, base: align_down(a, b) }
    }

    /// The `n`-th page after `self`: stepping forward by whole pages.
    pub fn forward(self, n: u64) -> (r: Page)
        requires
            self.wf(),
            self.base + n * self.size.spec_bytes() <= u64::MAX,
        ensures
            r.size == self.size,
            r.base == self.base + n * self.size.spec_bytes(),
            r.wf(),
    {
        let b = self.size.bytes();
        proof {
            lemma_mul_mod_zero(n as int, b as int);
            lemma_mod_add_zero(self.base as int, (n * b) as int, b as int);
        }
        Page { size: self.size, base: self.base + n * b }
    }
}

/// A multiple of `m` plus a multiple of `m` is a multiple of `m`.
pub proof fn lemma_mod_add_zero(a: int, b: int, m: int)
    requires
        m > 0,
        a % m == 0,
        b % m == 0,
    ensures
        (a + b) % m == 0,
{
    vstd::arithmetic::div_mod::lemma_add_mod_noop(a, b, m);
    vstd::arithmetic::div_mod::lemma_small_mod(0, m as nat);
}

/// `n * m` is a multiple of `m`.
proof fn lemma_mul_mod_zero(n: int, m: int)
    requires
        m > 0,
    ensures
        (n * m) % m == 0,
{
    assert((n * m) % m == 0) by (nonlinear_arith)
        requires
            m > 0,
    ;
}

/// Cache maintenance over a virtual range works on 64-byte lines: the range
/// is widened to line boundaries before the architecture-specific clean and
/// invalidate sequence is issued by the platform layer. This computes the
/// widened range.
pub fn flush_cache(start: u64, end: u64) -> (r: (u64, u64))
    requires
        start <= end,
        end + 63 <= u64::MAX,
    ensures
        spec_aligned(r.0, 64),
        spec_aligned(r.1, 64),
        r.0 <= start,
        start - r.0 < 64,
        end <= r.1,
        r.1 - end < 64,
{
    let lo = align_down(start, 64);
    let hi = align_up(end, 64);
    (lo, hi)
}

} // verus!
