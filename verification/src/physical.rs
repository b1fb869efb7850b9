//! The physical frame allocator.
//!
//! At boot the kernel absorbs the ranges of conventional RAM handed over by
//! the loader; afterwards every frame it ever returns comes from that pool.
//! Free memory is kept as a sorted list of disjoint, maximal, 4K-aligned
//! address ranges, and allocation prefers the lowest aligned fit. The
//! well-formedness predicate carries the conservation invariant: free bytes
//! plus outstanding frames always add up to what `init` absorbed.

use vstd::prelude::*;

verus! {

use vstd::pervasive::VecAdditionalExecFns;

use crate::addr::{align_up, spec_align_up, spec_aligned, Frame, PageSize};
use crate::error::KernelError;

/// One past the highest physical address the allocator will manage.
pub const MAX_PHYS: u64 = 0x1_0000_0000_0000;

/// Ranges are well formed when each is a nonempty, 4K-aligned slice of the
/// physical address space below `MAX_PHYS`, and the list is sorted with a
/// gap between neighbours (so every maximal free region is a single entry).
pub open spec fn ranges_wf(s: Seq<(u64, u64)>) -> bool {
    &&& forall|i: int|
        0 <= i < s.len() ==> {
            &&& (#[trigger] s[i]).0 < s[i].1
            &&& spec_aligned(s[i].0, 0x1000)
            &&& spec_aligned(s[i].1, 0x1000)
            &&& s[i].1 <= MAX_PHYS
        }
    &&& forall|i: int| 0 <= i && i + 1 < s.len() ==> (#[trigger] s[i]).1 < s[i + 1].0
}

/// Total number of free bytes described by a range list.
pub open spec fn spec_free_bytes(s: Seq<(u64, u64)>) -> int
    decreases s.len(),
{
    if s.len() == 0 {
        0
    } else {
        (s[0].1 - s[0].0) + spec_free_bytes(s.drop_first())
    }
}

proof fn lemma_free_bytes_concat(a: Seq<(u64, u64)>, b: Seq<(u64, u64)>)
    ensures
        spec_free_bytes(a + b) == spec_free_bytes(a) + spec_free_bytes(b),
    decreases a.len(),
{
    if a.len() == 0 {
        assert(a + b =~= b);
    } else {
        assert((a + b).drop_first() =~= a.drop_first() + b);
        lemma_free_bytes_concat(a.drop_first(), b);
    }
}

/// Split the byte count of a range list around entry `i`.
proof fn lemma_free_bytes_decompose(s: Seq<(u64, u64)>, i: int)
    requires
        0 <= i < s.len(),
    ensures
        spec_free_bytes(s) == spec_free_bytes(s.subrange(0, i)) + (s[i].1 - s[i].0)
            + spec_free_bytes(s.subrange(i + 1, s.len() as int)),
{
    let left = s.subrange(0, i);
    let mid = s.subrange(i, i + 1);
    let right = s.subrange(i + 1, s.len() as int);
    assert(s =~= left + (mid + right));
    lemma_free_bytes_concat(left, mid + right);
    lemma_free_bytes_concat(mid, right);
    assert(mid.drop_first() =~= Seq::<(u64, u64)>::empty());
    assert(spec_free_bytes(Seq::<(u64, u64)>::empty()) == 0);
    assert(mid[0] == s[i]);
    assert(spec_free_bytes(mid) == s[i].1 - s[i].0);
}

/// Byte counts are nonnegative whenever each range is forward.
proof fn lemma_free_bytes_nonneg(s: Seq<(u64, u64)>)
    requires
        forall|i: int| 0 <= i < s.len() ==> (#[trigger] s[i]).0 <= s[i].1,
    ensures
        spec_free_bytes(s) >= 0,
    decreases s.len(),
{
    if s.len() > 0 {
        lemma_free_bytes_nonneg(s.drop_first());
    }
}

/// Alignment to a multiple carries down to the divisor.
pub proof fn lemma_aligned_multiple(a: u64, big: nat, small: nat)
    requires
        spec_aligned(a, big),
        small > 0,
        big % small == 0,
    ensures
        spec_aligned(a, small),
{
    let q1 = a as int / big as int;
    let q2 = big as int / small as int;
    vstd::arithmetic::div_mod::lemma_fundamental_div_mod(a as int, big as int);
    vstd::arithmetic::div_mod::lemma_fundamental_div_mod(big as int, small as int);
    assert(a as int == (small as int * q2) * q1);
    vstd::arithmetic::mul::lemma_mul_is_associative(small as int, q2, q1);
    vstd::arithmetic::mul::lemma_mul_is_commutative(small as int, q2 * q1);
    vstd::arithmetic::div_mod::lemma_mod_multiples_basic(q2 * q1, small as int);
}

/// The lowest aligned fit of `bytes` bytes in a sorted free-range list, if
/// any range can hold one.
pub open spec fn spec_first_fit(s: Seq<(u64, u64)>, bytes: nat) -> Option<u64>
    decreases s.len(),
{
    if s.len() == 0 {
        None
    } else {
        let cand = spec_align_up(s[0].0 as int, bytes);
        if cand + bytes <= s[0].1 {
            Some(cand as u64)
        } else {
            spec_first_fit(s.drop_first(), bytes)
        }
    }
}

/// Replacing the entries `[i, i2)` of a range list by a run of pieces
/// changes the byte count by the difference of the two runs.
proof fn lemma_splice_bytes(s: Seq<(u64, u64)>, i: int, i2: int, p: Seq<(u64, u64)>)
    requires
        0 <= i <= i2 <= s.len(),
    ensures
        spec_free_bytes(s.subrange(0, i) + p + s.subrange(i2, s.len() as int))
            == spec_free_bytes(s) - spec_free_bytes(s.subrange(i, i2)) + spec_free_bytes(p),
{
    let left = s.subrange(0, i);
    let mid = s.subrange(i, i2);
    let right = s.subrange(i2, s.len() as int);
    assert(s =~= left + mid + right);
    lemma_free_bytes_concat(left + mid, right);
    lemma_free_bytes_concat(left, mid);
    lemma_free_bytes_concat(left + p, right);
    lemma_free_bytes_concat(left, p);
}

/// Replacing the entries `[i, i2)` of a well-formed range list by a run of
/// pieces that fits strictly between the neighbours keeps the list well
/// formed.
#[verifier::rlimit(100)]
proof fn lemma_splice_wf(s: Seq<(u64, u64)>, i: int, i2: int, p: Seq<(u64, u64)>)
    requires
        ranges_wf(s),
        0 <= i <= i2 <= s.len(),
        forall|j: int|
            0 <= j < p.len() ==> {
                &&& (#[trigger] p[j]).0 < p[j].1
                &&& spec_aligned(p[j].0, 0x1000)
                &&& spec_aligned(p[j].1, 0x1000)
                &&& p[j].1 <= MAX_PHYS
            },
        forall|j: int| 0 <= j && j + 1 < p.len() ==> (#[trigger] p[j]).1 < p[j + 1].0,
        i > 0 && p.len() > 0 ==> s[i - 1].1 < p[0].0,
        i2 < s.len() && p.len() > 0 ==> p[p.len() - 1].1 < s[i2].0,
        i > 0 && p.len() == 0 && i2 < s.len() ==> s[i - 1].1 < s[i2].0,
    ensures
        ranges_wf(s.subrange(0, i) + p + s.subrange(i2, s.len() as int)),
{
    let t = s.subrange(0, i) + p + s.subrange(i2, s.len() as int);
    assert forall|j: int|
        0 <= j < t.len() implies {
        &&& (#[trigger] t[j]).0 < t[j].1
        &&& spec_aligned(t[j].0, 0x1000)
        &&& spec_aligned(t[j].1, 0x1000)
        &&& t[j].1 <= MAX_PHYS
    } by {
        if j < i {
            assert(t[j] == s[j]);
        } else if j < i + p.len() {
            assert(t[j] == p[j - i]);
        } else {
            assert(t[j] == s[j - i - p.len() + i2]);
        }
    }
    assert forall|j: int| 0 <= j && j + 1 < t.len() implies (#[trigger] t[j]).1 < t[j + 1].0 by {
        let pl = p.len() as int;
        if j + 1 < i {
            assert(t[j] == s[j] && t[j + 1] == s[j + 1]);
        } else if j + 1 == i {
            // `t[j]` is `s[i - 1]`; the successor is the first piece or the
            // entry after the replaced run.
            if pl > 0 {
                assert(t[j] == s[i - 1] && t[j + 1] == p[0]);
            } else {
                assert(t[j] == s[i - 1] && t[j + 1] == s[i2]);
            }
        } else if j + 1 < i + pl {
            assert(t[j] == p[j - i] && t[j + 1] == p[j + 1 - i]);
        } else if j + 1 == i + pl {
            if pl > 0 {
                assert(t[j] == p[pl - 1] && t[j + 1] == s[i2]);
            } else {
                assert(t[j] == s[i - 1] && t[j + 1] == s[i2]);
            }
        } else {
            assert(t[j] == s[j - i - pl + i2] && t[j + 1] == s[j + 1 - i - pl + i2]);
            assert(j - i - pl + i2 + 1 == j + 1 - i - pl + i2);
        }
    }
}

/// Both halves of the splice fact at once.
#[verifier::rlimit(100)]
proof fn lemma_splice(s: Seq<(u64, u64)>, i: int, i2: int, p: Seq<(u64, u64)>)
    requires
        ranges_wf(s),
        0 <= i <= i2 <= s.len(),
        forall|j: int|
            0 <= j < p.len() ==> {
                &&& (#[trigger] p[j]).0 < p[j].1
                &&& spec_aligned(p[j].0, 0x1000)
                &&& spec_aligned(p[j].1, 0x1000)
                &&& p[j].1 <= MAX_PHYS
            },
        forall|j: int| 0 <= j && j + 1 < p.len() ==> (#[trigger] p[j]).1 < p[j + 1].0,
        i > 0 && p.len() > 0 ==> s[i - 1].1 < p[0].0,
        i2 < s.len() && p.len() > 0 ==> p[p.len() - 1].1 < s[i2].0,
        i > 0 && p.len() == 0 && i2 < s.len() ==> s[i - 1].1 < s[i2].0,
    ensures
        ranges_wf(s.subrange(0, i) + p + s.subrange(i2, s.len() as int)),
        spec_free_bytes(s.subrange(0, i) + p + s.subrange(i2, s.len() as int))
            == spec_free_bytes(s) - spec_free_bytes(s.subrange(i, i2)) + spec_free_bytes(p),
{
    lemma_splice_wf(s, i, i2, p);
    lemma_splice_bytes(s, i, i2, p);
}

/// The free pieces left of entry `i` after the block `[cand, ns)` is cut
/// out of it.
pub open spec fn carve_pieces(s: Seq<(u64, u64)>, i: int, cand: u64, ns: u64) -> Seq<(u64, u64)> {
    if cand == s[i].0 && ns == s[i].1 {
        Seq::<(u64, u64)>::empty()
    } else if cand == s[i].0 {
        seq![(ns, s[i].1)]
    } else if ns == s[i].1 {
        seq![(s[i].0, cand)]
    } else {
        seq![(s[i].0, cand), (ns, s[i].1)]
    }
}

/// Carving an aligned block out of entry `i` leaves a well-formed list and
/// removes exactly the block's bytes.
#[verifier::rlimit(100)]
proof fn lemma_carve_shape(s: Seq<(u64, u64)>, i: int, cand: u64, ns: u64, b: nat)
    requires
        ranges_wf(s),
        0 <= i < s.len(),
        b == 0x1000 || b == 0x20_0000 || b == 0x4000_0000,
        cand as int == spec_align_up(s[i].0 as int, b),
        spec_aligned(cand, b),
        s[i].0 <= cand,
        ns == cand + b,
        ns <= s[i].1,
    ensures
        ranges_wf(s.subrange(0, i) + carve_pieces(s, i, cand, ns) + s.subrange(
            i + 1,
            s.len() as int,
        )),
        spec_free_bytes(s.subrange(0, i) + carve_pieces(s, i, cand, ns) + s.subrange(
            i + 1,
            s.len() as int,
        )) == spec_free_bytes(s) - b,
{
    let p = carve_pieces(s, i, cand, ns);
    lemma_aligned_multiple(cand, b, 0x1000);
    assert(spec_aligned(ns, b)) by {
        crate::addr::lemma_mod_add_zero(cand as int, b as int, b as int);
        vstd::arithmetic::div_mod::lemma_mod_self_0(b as int);
    }
    lemma_aligned_multiple(ns, b, 0x1000);
    assert forall|j: int|
        0 <= j < p.len() implies {
        &&& (#[trigger] p[j]).0 < p[j].1
        &&& spec_aligned(p[j].0, 0x1000)
        &&& spec_aligned(p[j].1, 0x1000)
        &&& p[j].1 <= MAX_PHYS
    } by {
        assert(p[j] == (s[i].0, cand) || p[j] == (ns, s[i].1));
    }
    assert forall|j: int| 0 <= j && j + 1 < p.len() implies (#[trigger] p[j]).1 < p[j + 1].0 by {
        assert(p[j] == (s[i].0, cand) && p[j + 1] == (ns, s[i].1));
    }
    lemma_splice(s, i, i + 1, p);
    assert(spec_free_bytes(Seq::<(u64, u64)>::empty()) == 0);
    assert(s.subrange(i, i + 1).drop_first() =~= Seq::<(u64, u64)>::empty());
    assert(s.subrange(i, i + 1)[0] == s[i]);
    assert(spec_free_bytes(s.subrange(i, i + 1)) == s[i].1 - s[i].0);
    if p.len() == 1 {
        assert(p.drop_first() =~= Seq::<(u64, u64)>::empty());
        assert(spec_free_bytes(p) == p[0].1 - p[0].0);
    } else if p.len() == 2 {
        assert(p.drop_first().drop_first() =~= Seq::<(u64, u64)>::empty());
        assert(p.drop_first() =~= seq![(ns, s[i].1)]);
        assert(spec_free_bytes(p.drop_first()) == s[i].1 - ns);
    }
    assert(spec_free_bytes(p) == (s[i].1 - s[i].0) - b);
}

/// Byte counts of lists of at most two ranges, written out.
proof fn lemma_free_bytes_small(s: Seq<(u64, u64)>)
    requires
        s.len() <= 2,
    ensures
        s.len() == 0 ==> spec_free_bytes(s) == 0,
        s.len() == 1 ==> spec_free_bytes(s) == s[0].1 - s[0].0,
        s.len() == 2 ==> spec_free_bytes(s) == (s[0].1 - s[0].0) + (s[1].1 - s[1].0),
{
    assert(spec_free_bytes(Seq::<(u64, u64)>::empty()) == 0);
    if s.len() == 1 {
        assert(s.drop_first() =~= Seq::<(u64, u64)>::empty());
        assert(spec_free_bytes(s) == (s[0].1 - s[0].0) + spec_free_bytes(s.drop_first()));
    } else if s.len() == 2 {
        let d = s.drop_first();
        assert(d.drop_first() =~= Seq::<(u64, u64)>::empty());
        assert(d[0] == s[1]);
        assert(spec_free_bytes(d) == (d[0].1 - d[0].0) + spec_free_bytes(d.drop_first()));
        assert(spec_free_bytes(s) == (s[0].1 - s[0].0) + spec_free_bytes(d));
    }
}

/// Returning the block `[lo, hi)` to the list, merged with any directly
/// neighbouring range, keeps the list well formed and adds exactly the
/// block's bytes.
#[verifier::rlimit(100)]
proof fn lemma_release_shape(
    s: Seq<(u64, u64)>,
    j: int,
    lo: u64,
    hi: u64,
    a: int,
    bb: int,
    lo2: u64,
    hi2: u64,
)
    requires
        ranges_wf(s),
        0 <= j <= s.len(),
        lo < hi,
        spec_aligned(lo, 0x1000),
        spec_aligned(hi, 0x1000),
        hi <= MAX_PHYS,
        forall|k: int| 0 <= k < s.len() ==> hi <= (#[trigger] s[k]).0 || s[k].1 <= lo,
        forall|k: int| 0 <= k < j ==> (#[trigger] s[k]).0 <= lo,
        j < s.len() ==> s[j].0 > lo,
        a == if j > 0 && s[j - 1].1 == lo {
            j - 1
        } else {
            j
        },
        bb == if j < s.len() && hi == s[j].0 {
            j + 1
        } else {
            j
        },
        lo2 == if j > 0 && s[j - 1].1 == lo {
            s[j - 1].0
        } else {
            lo
        },
        hi2 == if j < s.len() && hi == s[j].0 {
            s[j].1
        } else {
            hi
        },
    ensures
        ranges_wf(s.subrange(0, a) + seq![(lo2, hi2)] + s.subrange(bb, s.len() as int)),
        spec_free_bytes(s.subrange(0, a) + seq![(lo2, hi2)] + s.subrange(bb, s.len() as int))
            == spec_free_bytes(s) + (hi - lo),
{
    let ml = j > 0 && s[j - 1].1 == lo;
    let mr = j < s.len() && hi == s[j].0;
    assert(j > 0 ==> s[j - 1].1 <= lo);
    lemma_free_bytes_small(s.subrange(a, bb));
    lemma_free_bytes_small(seq![(lo2, hi2)]);
    lemma_splice(s, a, bb, seq![(lo2, hi2)]);
    let c = s.subrange(a, bb);
    if ml && mr {
        assert(c.len() == 2 && c[0] == s[a] && c[1] == s[a + 1]);
    } else if ml || mr {
        assert(c.len() == 1 && c[0] == s[a]);
    } else {
        assert(c.len() == 0);
    }
}

/// Owns all conventional RAM and hands out / reclaims frames of any of the
/// three page sizes.
pub struct PhysicalMemory {
    /// Sorted, disjoint, maximal free ranges.
    pub ranges: Vec<(u64, u64)>,
    /// 4K frames currently handed out.
    pub outstanding: u64,
    /// Bytes absorbed at `init`.
    pub initial_bytes: u64,
}

impl PhysicalMemory {
    pub open spec fn spec_ranges(self) -> Seq<(u64, u64)> {
        self.ranges@
    }

    pub open spec fn spec_outstanding(self) -> int {
        self.outstanding as int
    }

    pub open spec fn spec_initial_bytes(self) -> int {
        self.initial_bytes as int
    }

    /// Frame conservation: what is free plus what is handed out is exactly
    /// what `init` absorbed.
    pub open spec fn wf(self) -> bool {
        &&& ranges_wf(self.ranges@)
        &&& spec_free_bytes(self.ranges@) + self.outstanding * 0x1000 == self.initial_bytes
    }

    /// An allocator that owns nothing yet.
    pub fn new() -> (r: PhysicalMemory)
        ensures
            r.wf(),
            r.spec_ranges().len() == 0,
            r.spec_outstanding() == 0,
            r.spec_initial_bytes() == 0,
    {
        PhysicalMemory { ranges: Vec::new(), outstanding: 0, initial_bytes: 0 }
    }

    /// Absorb the free physical ranges handed over at boot. Subsequent
    /// operations only ever return frames from this union.
    pub fn init(&mut self, frames: Vec<(u64, u64)>)
        requires
            old(self).spec_ranges().len() == 0,
            old(self).spec_outstanding() == 0,
            ranges_wf(frames@),
        ensures
            final(self).wf(),
            final(self).spec_ranges() == frames@,
            final(self).spec_outstanding() == 0,
            final(self).spec_initial_bytes() == spec_free_bytes(frames@),
    {
        let mut total: u64 = 0;
        let mut i: usize = 0;
        while i < frames.len()
            invariant
                0 <= i <= frames.len(),
                ranges_wf(frames@),
                total == spec_free_bytes(frames@.subrange(0, i as int)),
                i > 0 ==> total <= frames@[i - 1].1,
                i == 0 ==> total == 0,
            decreases frames.len() - i,
        {
            let (s, e) = frames[i];
            proof {
                lemma_free_bytes_decompose(frames@.subrange(0, i as int + 1), i as int);
                assert(frames@.subrange(0, i as int + 1).subrange(0, i as int) =~= frames@
                    .subrange(0, i as int));
                assert(frames@.subrange(0, i as int + 1).subrange(i as int, i as int + 1)
                    .drop_first() =~= Seq::<(u64, u64)>::empty());
            }
            total = total + (e - s);
            i = i + 1;
        }
        proof {
            assert(frames@.subrange(0, frames@.len() as int) =~= frames@);
        }
        self.ranges = frames;
        self.outstanding = 0;
        self.initial_bytes = total;
    }

    /// Replace free range `i` by the pieces that remain after the block
    /// `[cand, ns)` is cut out of it.
    #[verifier::rlimit(100)]
    fn carve_ranges(&mut self, i: usize, cand: u64, ns: u64)
        requires
            i < old(self).ranges@.len(),
            old(self).ranges@[i as int].0 <= cand,
            cand < ns <= old(self).ranges@[i as int].1,
        ensures
            final(self).ranges@ == old(self).ranges@.subrange(0, i as int) + carve_pieces(
                old(self).ranges@,
                i as int,
                cand,
                ns,
            ) + old(self).ranges@.subrange(i as int + 1, old(self).ranges@.len() as int),
            final(self).outstanding == old(self).outstanding,
            final(self).initial_bytes == old(self).initial_bytes,
    {
        let ghost s = self.ranges@;
        let ghost pieces = carve_pieces(s, i as int, cand, ns);
        let ghost t = s.subrange(0, i as int) + pieces + s.subrange(i as int + 1, s.len() as int);
        let n = self.ranges.len();
        let (s0, e0) = self.ranges[i];
        if cand == s0 && ns == e0 {
            self.ranges.remove(i);
            proof {
                assert(pieces =~= Seq::<(u64, u64)>::empty());
                assert(self.ranges@ =~= t);
            }
        } else if cand == s0 {
            self.ranges.set(i, (ns, e0));
            proof {
                assert(pieces =~= seq![(ns, e0)]);
                assert(self.ranges@ =~= t);
            }
        } else if ns == e0 {
            self.ranges.set(i, (s0, cand));
            proof {
                assert(pieces =~= seq![(s0, cand)]);
                assert(self.ranges@ =~= t);
            }
        } else {
            self.ranges.set(i, (s0, cand));
            let ghost v1 = self.ranges@;
            self.ranges.insert(i + 1, (ns, e0));
            proof {
                assert(pieces =~= seq![(s0, cand), (ns, e0)]);
                assert(self.ranges@ =~= v1.insert(i as int + 1, (ns, e0)));
                assert(self.ranges@ =~= t);
            }
        }
    }

    /// Cut the aligned fit out of free range `i` and account for it.
    #[verifier::rlimit(100)]
    fn carve(&mut self, i: usize, size: PageSize) -> (f: Frame)
        requires
            old(self).wf(),
            i < old(self).ranges@.len(),
            spec_align_up(old(self).ranges@[i as int].0 as int, size.spec_bytes())
                + size.spec_bytes() <= old(self).ranges@[i as int].1,
        ensures
            final(self).wf(),
            final(self).initial_bytes == old(self).initial_bytes,
            f.size == size,
            f.wf(),
            f.base == spec_align_up(old(self).ranges@[i as int].0 as int, size.spec_bytes()),
            spec_free_bytes(final(self).ranges@) == spec_free_bytes(old(self).ranges@)
                - size.spec_bytes(),
            final(self).outstanding == old(self).outstanding + size.spec_frames_4k(),
    {
        let bytes = size.bytes();
        let frames = size.frames_4k();
        let ghost b = size.spec_bytes();
        let (s0, e0) = self.ranges[i];
        let cand = align_up(s0, bytes);
        let ns = cand + bytes;
        let ghost s = self.ranges@;
        proof {
            lemma_carve_shape(s, i as int, cand, ns, b);
        }
        let ghost t = s.subrange(0, i as int) + carve_pieces(s, i as int, cand, ns) + s.subrange(
            i as int + 1,
            s.len() as int,
        );
        self.carve_ranges(i, cand, ns);
        proof {
            assert(spec_free_bytes(t) >= 0) by {
                assert(forall|j: int| 0 <= j < t.len() ==> (#[trigger] t[j]).0 <= t[j].1);
                lemma_free_bytes_nonneg(t);
            }
            assert(spec_free_bytes(t) == spec_free_bytes(s) - b);
            assert(frames * 0x1000 == b);
            assert(self.outstanding * 0x1000 + frames * 0x1000 == self.initial_bytes
                - spec_free_bytes(t));
            assert(self.outstanding + frames <= u64::MAX);
        }
        self.outstanding = self.outstanding + frames;
        Frame::new(size, cand)
    }

    /// How many bytes are still free, from the conservation equation.
    pub fn free_bytes(&self) -> (r: u64)
        requires
            self.wf(),
        ensures
            r == spec_free_bytes(self.ranges@),
    {
        proof {
            lemma_free_nonneg(*self);
        }
        self.initial_bytes - self.outstanding * 0x1000
    }

    /// Allocate one frame of the requested size: the lowest aligned fit in
    /// the free pool. Fails exactly when no free range still holds an
    /// aligned, contiguous region of that many bytes.
    pub fn acquire(&mut self, size: PageSize) -> (r: Option<Frame>)
        requires
            old(self).wf(),
        ensures
            final(self).wf(),
            final(self).initial_bytes == old(self).initial_bytes,
            match r {
                Some(f) => {
                    &&& f.size == size
                    &&& f.wf()
                    &&& Some(f.base) == spec_first_fit(old(self).ranges@, size.spec_bytes())
                    &&& spec_free_bytes(final(self).ranges@) == spec_free_bytes(old(self).ranges@)
                        - size.spec_bytes()
                    &&& final(self).outstanding == old(self).outstanding + size.spec_frames_4k()
                },
                None => {
                    &&& spec_first_fit(old(self).ranges@, size.spec_bytes()) is None
                    &&& final(self).ranges@ == old(self).ranges@
                    &&& final(self).outstanding == old(self).outstanding
                },
            },
    {
        let bytes = size.bytes();
        let frames = size.frames_4k();
        let ghost b = size.spec_bytes();
        proof {
            assert(self.ranges@.skip(0) =~= self.ranges@);
        }
        let mut i: usize = 0;
        while i < self.ranges.len()
            invariant
                0 <= i <= self.ranges.len(),
                self.ranges@ == old(self).ranges@,
                self.outstanding == old(self).outstanding,
                self.initial_bytes == old(self).initial_bytes,
                old(self).wf(),
                bytes == b,
                frames * 0x1000 == b,
                b == size.spec_bytes(),
                spec_first_fit(self.ranges@, b) == spec_first_fit(
                    self.ranges@.skip(i as int),
                    b,
                ),
            decreases self.ranges.len() - i,
        {
            let (s0, e0) = self.ranges[i];
            proof {
                assert(self.ranges@.skip(i as int)[0] == self.ranges@[i as int]);
                assert(self.ranges@.skip(i as int).drop_first() =~= self.ranges@.skip(
                    i as int + 1));
            }
            proof {
                assert(0x1000 <= bytes <= 0x4000_0000);
                assert(s0 < e0 <= MAX_PHYS);
            }
            let cand = align_up(s0, bytes);
            if e0 - s0 >= bytes && cand <= e0 - bytes {
                proof {
                    assert(spec_first_fit(self.ranges@.skip(i as int), b) == Some(cand));
                }
                let f = self.carve(i, size);
                return Some(f);
            }
            i = i + 1;
        }
        proof {
            assert(self.ranges@.skip(self.ranges@.len() as int) =~= Seq::<(u64, u64)>::empty());
        }
        None
    }

    /// Replace the entries `[a, b)` by the single free range `piece`.
    fn splice_ranges(&mut self, a: usize, b: usize, piece: (u64, u64))
        requires
            a <= b <= old(self).ranges@.len(),
            b - a <= 2,
        ensures
            final(self).ranges@ == old(self).ranges@.subrange(0, a as int) + seq![piece]
                + old(self).ranges@.subrange(b as int, old(self).ranges@.len() as int),
            final(self).outstanding == old(self).outstanding,
            final(self).initial_bytes == old(self).initial_bytes,
    {
        let ghost s = self.ranges@;
        let ghost t = s.subrange(0, a as int) + seq![piece] + s.subrange(b as int, s.len() as int);
        let n = self.ranges.len();
        if b == a {
            self.ranges.insert(a, piece);
            proof {
                assert(self.ranges@ =~= t);
            }
        } else if b == a + 1 {
            self.ranges.set(a, piece);
            proof {
                assert(self.ranges@ =~= t);
            }
        } else {
            self.ranges.set(a, piece);
            let ghost v1 = self.ranges@;
            self.ranges.remove(a + 1);
            proof {
                assert(self.ranges@ =~= v1.remove(a as int + 1));
                assert(self.ranges@ =~= t);
            }
        }
    }

    /// Return a frame to the free pool, merging it with any directly
    /// neighbouring free range so that free regions stay maximal. Releasing
    /// a frame that is already free (a double free) or was never handed out
    /// is a fatal caller error, ruled out by the preconditions.
    pub fn release(&mut self, frame: Frame)
        requires
            old(self).wf(),
            frame.wf(),
            frame.base + frame.size.spec_bytes() <= MAX_PHYS,
            forall|j: int|
                0 <= j < old(self).ranges@.len() ==> frame.base + frame.size.spec_bytes() <= (
                #[trigger] old(self).ranges@[j]).0 || old(self).ranges@[j].1 <= frame.base,
            old(self).outstanding >= frame.size.spec_frames_4k(),
        ensures
            final(self).wf(),
            final(self).initial_bytes == old(self).initial_bytes,
            spec_free_bytes(final(self).ranges@) == spec_free_bytes(old(self).ranges@)
                + frame.size.spec_bytes(),
            final(self).outstanding == old(self).outstanding - frame.size.spec_frames_4k(),
    {
        let bytes = frame.size.bytes();
        let frames = frame.size.frames_4k();
        let ghost b = frame.size.spec_bytes();
        let lo = frame.base;
        let hi = frame.base + bytes;
        let ghost s = self.ranges@;
        let n = self.ranges.len();
        let mut j: usize = 0;
        while j < n && self.ranges[j].0 <= lo
            invariant
                0 <= j <= n,
                n == self.ranges@.len(),
                self.ranges@ == s,
                forall|k: int| 0 <= k < j ==> (#[trigger] s[k]).0 <= lo,
            decreases n - j,
        {
            j = j + 1;
        }
        let merge_left = j > 0 && self.ranges[j - 1].1 == lo;
        let merge_right = j < n && hi == self.ranges[j].0;
        let lo2 = if merge_left {
            self.ranges[j - 1].0
        } else {
            lo
        };
        let hi2 = if merge_right {
            self.ranges[j].1
        } else {
            hi
        };
        let a = if merge_left {
            j - 1
        } else {
            j
        };
        let bb = if merge_right {
            j + 1
        } else {
            j
        };
        proof {
            lemma_aligned_multiple(lo, b, 0x1000);
            assert(spec_aligned(hi, 0x1000)) by {
                lemma_aligned_multiple(lo, b, 0x1000);
                crate::addr::lemma_mod_add_zero(lo as int, b as int, 0x1000);
            }
            lemma_release_shape(s, j as int, lo, hi, a as int, bb as int, lo2, hi2);
        }
        self.splice_ranges(a, bb, (lo2, hi2));
        proof {
            assert(spec_free_bytes(self.ranges@) == spec_free_bytes(s) + b);
            assert(frames * 0x1000 == b);
        }
        self.outstanding = self.outstanding - frames;
    }

    /// Like `release`, but the caller's claim to the frame is checked at
    /// run time: returning a frame that overlaps the free pool (a double
    /// free) or that the pool never handed out is reported instead of
    /// assumed away.
    pub fn release_checked(&mut self, frame: Frame) -> (r: Result<(), KernelError>)
        requires
            old(self).wf(),
            frame.wf(),
        ensures
            final(self).wf(),
            final(self).initial_bytes == old(self).initial_bytes,
            r is Ok <==> {
                &&& frame.base + frame.size.spec_bytes() <= MAX_PHYS
                &&& forall|j: int|
                    0 <= j < old(self).ranges@.len() ==> frame.base + frame.size.spec_bytes() <= (
                    #[trigger] old(self).ranges@[j]).0 || old(self).ranges@[j].1 <= frame.base
                &&& old(self).outstanding >= frame.size.spec_frames_4k()
            },
            r is Ok ==> spec_free_bytes(final(self).ranges@) == spec_free_bytes(
                old(self).ranges@,
            ) + frame.size.spec_bytes() && final(self).outstanding == old(self).outstanding
                - frame.size.spec_frames_4k(),
            r is Err ==> final(self).ranges@ == old(self).ranges@ && final(self).outstanding == old(
                self,
            ).outstanding,
    {
        let bytes = frame.size.bytes();
        let frames = frame.size.frames_4k();
        if frame.base > MAX_PHYS - bytes || self.outstanding < frames {
            return Err(KernelError::InvalidArgument);
        }
        let lo = frame.base;
        let hi = frame.base + bytes;
        let n = self.ranges.len();
        let mut j: usize = 0;
        while j < n
            invariant
                0 <= j <= n,
                n == self.ranges@.len(),
                self.wf(),
                self.ranges@ == old(self).ranges@,
                self.outstanding == old(self).outstanding,
                self.initial_bytes == old(self).initial_bytes,
                lo == frame.base,
                hi == frame.base + frame.size.spec_bytes(),
                forall|k: int|
                    0 <= k < j ==> hi <= (#[trigger] self.ranges@[k]).0 || self.ranges@[k].1 <= lo,
            decreases n - j,
        {
            let (s0, e0) = self.ranges[j];
            if !(hi <= s0 || e0 <= lo) {
                return Err(KernelError::InvalidArgument);
            }
            j = j + 1;
        }
        self.release(frame);
        Ok(())
    }
}

/// Free bytes are nonnegative in any well-formed allocator.
pub proof fn lemma_free_nonneg(pm: PhysicalMemory)
    requires
        pm.wf(),
    ensures
        spec_free_bytes(pm.ranges@) >= 0,
{
    assert(forall|j: int| 0 <= j < pm.ranges@.len() ==> (#[trigger] pm.ranges@[j]).0 <= pm.ranges@[j].1);
    lemma_free_bytes_nonneg(pm.ranges@);
}

/// With well-formed ranges, a 4K frame can be had exactly when anything at
/// all is free, and every free range holds at least one 4K frame.
pub proof fn lemma_first_fit_4k(s: Seq<(u64, u64)>)
    requires
        ranges_wf(s),
    ensures
        (spec_first_fit(s, 0x1000) is Some) <==> s.len() > 0,
        s.len() > 0 ==> spec_free_bytes(s) >= 0x1000,
        s.len() == 0 ==> spec_free_bytes(s) == 0,
{
    if s.len() > 0 {
        assert(spec_align_up(s[0].0 as int, 0x1000) == s[0].0);
        assert(s[0].1 - s[0].0 >= 0x1000) by (nonlinear_arith)
            requires
                s[0].0 < s[0].1,
                s[0].0 as int % 0x1000 == 0,
                s[0].1 as int % 0x1000 == 0,
        ;
        assert(forall|j: int|
            0 <= j < s.drop_first().len() ==> (#[trigger] s.drop_first()[j]).0 <= s.drop_first()[j].1);
        lemma_free_bytes_nonneg(s.drop_first());
    }
}

/// A frame held on behalf of several users; the holder gives it back
/// explicitly when the last user is gone. (In the machine the give-back
/// hangs off the reference count; here it is the explicit `release_to`.)
pub struct SharedPhysicalPage {
    pub frame: Frame,
}

impl SharedPhysicalPage {
    pub fn new(frame: Frame) -> (r: SharedPhysicalPage)
        ensures
            r.frame == frame,
    {
        SharedPhysicalPage { frame }
    }

    /// Give the page back to the pool, checked as any release is.
    pub fn release_to(self, pm: &mut PhysicalMemory) -> (r: Result<(), KernelError>)
        requires
            old(pm).wf(),
            self.frame.wf(),
        ensures
            final(pm).wf(),
            final(pm).initial_bytes == old(pm).initial_bytes,
            r is Ok <==> {
                &&& self.frame.base + self.frame.size.spec_bytes() <= MAX_PHYS
                &&& forall|j: int|
                    0 <= j < old(pm).ranges@.len() ==> self.frame.base
                        + self.frame.size.spec_bytes() <= (#[trigger] old(pm).ranges@[j]).0 || old(
                        pm,
                    ).ranges@[j].1 <= self.frame.base
                &&& old(pm).outstanding >= self.frame.size.spec_frames_4k()
            },
            r is Ok ==> spec_free_bytes(final(pm).ranges@) == spec_free_bytes(old(pm).ranges@)
                + self.frame.size.spec_bytes() && final(pm).outstanding == old(pm).outstanding
                - self.frame.size.spec_frames_4k(),
            r is Err ==> final(pm).ranges@ == old(pm).ranges@ && final(pm).outstanding == old(
                pm,
            ).outstanding,
    {
        pm.release_checked(self.frame)
    }
}

/// Frame conservation: across any sequence of `acquire` and `release`
/// calls, the free bytes in the pool plus the bytes of all outstanding
/// frames equal the bytes absorbed at `init`. Both operations preserve
/// well-formedness, so the equation holds in every reachable state.
pub proof fn lemma_frame_conservation(pm: PhysicalMemory)
    requires
        pm.wf(),
    ensures
        spec_free_bytes(pm.ranges@) + pm.outstanding * 0x1000 == pm.initial_bytes,
{
}

} // verus!
