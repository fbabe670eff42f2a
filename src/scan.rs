use vstd::prelude::*;

verus! {

/// Priority of a range of blocks that the wallet still has to scan, in
/// ascending order. `Verify` is the highest.
#[derive(Clone, Copy, Debug, PartialEq, Eq, Structural)]
pub enum ScanPriority {
    Ignored,
    Scanned,
    Historic,
    OpenAdjacent,
    FoundNote,
    ChainTip,
    Verify,
}

impl ScanPriority {
    /// Position of the priority in the ascending order.
    pub open spec fn spec_rank(self) -> nat {
        match self {
            ScanPriority::Ignored => 0,
            ScanPriority::Scanned => 1,
            ScanPriority::Historic => 2,
            ScanPriority::OpenAdjacent => 3,
            ScanPriority::FoundNote => 4,
            ScanPriority::ChainTip => 5,
            ScanPriority::Verify => 6,
        }
    }

    pub fn rank(&self) -> (r: u8)
        ensures
            r as nat == self.spec_rank(),
    {
        match self {
            ScanPriority::Ignored => 0,
            ScanPriority::Scanned => 1,
            ScanPriority::Historic => 2,
            ScanPriority::OpenAdjacent => 3,
            ScanPriority::FoundNote => 4,
            ScanPriority::ChainTip => 5,
            ScanPriority::Verify => 6,
        }
    }

    /// Whether `self` ranks strictly above `other`.
    pub fn outranks(&self, other: &ScanPriority) -> (r: bool)
        ensures
            r == (self.spec_rank() > other.spec_rank()),
    {
        self.rank() > other.rank()
    }
}

/// A half-open interval of block heights `[start, end)` tagged with a priority.
#[derive(Clone, Copy, Debug, PartialEq, Eq, Structural)]
pub struct ScanRange {
    pub start: u32,
    pub end: u32,
    pub priority: ScanPriority,
}

impl ScanRange {
    pub open spec fn wf(self) -> bool {
        self.start <= self.end
    }

    pub open spec fn spec_len(self) -> nat {
        (self.end - self.start) as nat
    }

    /// Builds the range `[start, end)`; an inverted interval is refused.
    pub fn from_parts(start: u32, end: u32, priority: ScanPriority) -> (r: Option<ScanRange>)
        ensures
            r is Some <==> start <= end,
            r is Some ==> r->0 == (ScanRange { start, end, priority }),
    {
        if start <= end {
            Some(ScanRange { start, end, priority })
        } else {
            None
        }
    }

    pub fn is_empty(&self) -> (r: bool)
        ensures
            r == (self.start == self.end),
    {
        self.start == self.end
    }

    pub fn len(&self) -> (r: u32)
        requires
            self.wf(),
        ensures
            r as nat == self.spec_len(),
    {
        self.end - self.start
    }

    /// Splits the range at height `p` into `[start, p)` and `[p, end)`, both
    /// with the priority of `self`; `None` unless `p` lies strictly inside.
    pub fn split_at(&self, p: u32) -> (r: Option<(ScanRange, ScanRange)>)
        ensures
            r is Some <==> self.start < p && p < self.end,
            r is Some ==> r == Some(
                (
                    (ScanRange { start: self.start, end: p, priority: self.priority }),
                    (ScanRange { start: p, end: self.end, priority: self.priority }),
                ),
            ),
    {
        if self.start < p && p < self.end {
            Some(
                (
                    ScanRange { start: self.start, end: p, priority: self.priority },
                    ScanRange { start: p, end: self.end, priority: self.priority },
                ),
            )
        } else {
            None
        }
    }
}

/// The batches that slicing `r` into pieces of `b` blocks gives: a prefix of
/// `b` blocks is cut off the front while more than `b` blocks remain, and what
/// is left forms the last batch. An empty range gives no batch; a size of zero
/// leaves the range whole.
pub open spec fn batches(r: ScanRange, b: nat) -> Seq<ScanRange>
    decreases r.end - r.start,
{
    if r.end <= r.start {
        seq![]
    } else if b > 0 && r.start + b < r.end {
        seq![ScanRange { start: r.start, end: (r.start + b) as u32, priority: r.priority }]
            + batches(ScanRange { start: (r.start + b) as u32, end: r.end, priority: r.priority }, b)
    } else {
        seq![r]
    }
}

/// The batches of each range of `rs`, in order.
pub open spec fn batched(rs: Seq<ScanRange>, b: nat) -> Seq<ScanRange>
    decreases rs.len(),
{
    if rs.len() == 0 {
        seq![]
    } else {
        batched(rs.drop_last(), b) + batches(rs.last(), b)
    }
}

/// Slicing a non-empty range into batches of `b > 0` blocks gives adjacent
/// batches, with no gap and no overlap, that start where the range starts and
/// end where it ends; each keeps the priority, holds at least one block, and
/// every batch but the last holds exactly `b` blocks. The batch at position `i`
/// starts `i * b` blocks into the range.
#[verifier::rlimit(30)]
pub proof fn lemma_batches_partition(r: ScanRange, b: nat)
    requires
        r.start < r.end,
        b > 0,
    ensures
        batches(r, b).len() > 0,
        batches(r, b)[0].start == r.start,
        batches(r, b).last().end == r.end,
        forall|i: int|
            0 <= i < batches(r, b).len() ==> {
                &&& (#[trigger] batches(r, b)[i]).priority == r.priority
                &&& batches(r, b)[i].start < batches(r, b)[i].end
                &&& batches(r, b)[i].start == r.start + i * b
            },
        forall|i: int|
            0 <= i < batches(r, b).len() - 1 ==> {
                &&& (#[trigger] batches(r, b)[i]).end == batches(r, b)[i + 1].start
                &&& batches(r, b)[i].spec_len() == b
            },
    decreases r.end - r.start,
{
    if r.start + b < r.end {
        let head = ScanRange { start: r.start, end: (r.start + b) as u32, priority: r.priority };
        let rest = ScanRange { start: (r.start + b) as u32, end: r.end, priority: r.priority };
        lemma_batches_partition(rest, b);
        let s = batches(r, b);
        let t = batches(rest, b);
        assert(s == seq![head] + t);
        assert forall|i: int| 0 <= i < s.len() implies {
            &&& (#[trigger] s[i]).priority == r.priority
            &&& s[i].start < s[i].end
            &&& s[i].start == r.start + i * b
        } by {
            if i > 0 {
                assert(s[i] == t[i - 1]);
                lemma_step_mul(i, b as int);
            }
        }
        assert forall|i: int| 0 <= i < s.len() - 1 implies {
            &&& (#[trigger] s[i]).end == s[i + 1].start
            &&& s[i].spec_len() == b
        } by {
            if i > 0 {
                assert(s[i] == t[i - 1]);
                assert(s[i + 1] == t[i]);
            }
        }
    }
}

proof fn lemma_step_mul(i: int, b: int)
    ensures
        b + (i - 1) * b == i * b,
{
    assert(b + (i - 1) * b == i * b) by (nonlinear_arith);
}

/// Slices `range` into batches of at most `batch_size` blocks.
pub fn batches_of(range: &ScanRange, batch_size: u32) -> (r: Vec<ScanRange>)
    ensures
        r@ == batches(*range, batch_size as nat),
{
    let mut out: Vec<ScanRange> = Vec::new();
    let mut acc = *range;
    while acc.start < acc.end
        invariant
            acc.end == range.end,
            acc.priority == range.priority,
            out@ + batches(acc, batch_size as nat) == batches(*range, batch_size as nat),
        decreases acc.end - acc.start,
    {
        let cut: u64 = acc.start as u64 + batch_size as u64;
        if batch_size > 0 && cut < acc.end as u64 {
            let (cur, next) = match acc.split_at(cut as u32) {
                Some(pair) => pair,
                None => { return out; },
            };
            proof {
                let s = batches(acc, batch_size as nat);
                assert(s == seq![cur] + batches(next, batch_size as nat));
                assert(out@.push(cur) + batches(next, batch_size as nat) == out@ + s);
            }
            out.push(cur);
            acc = next;
        } else {
            proof {
                assert(batches(acc, batch_size as nat) == seq![acc]);
                assert(batches(ScanRange { start: acc.end, ..acc }, batch_size as nat) == Seq::<ScanRange>::empty());
            }
            out.push(acc);
            acc = ScanRange { start: acc.end, ..acc };
        }
    }
    proof {
        assert(batches(acc, batch_size as nat) == Seq::<ScanRange>::empty());
        assert(out@ + Seq::<ScanRange>::empty() == out@);
    }
    out
}

/// Slices each range of `ranges`, in order, into batches of at most
/// `batch_size` blocks.
pub fn batch_ranges(ranges: &Vec<ScanRange>, batch_size: u32) -> (r: Vec<ScanRange>)
    ensures
        r@ == batched(ranges@, batch_size as nat),
{
    let mut out: Vec<ScanRange> = Vec::new();
    let mut i: usize = 0;
    while i < ranges.len()
        invariant
            i <= ranges@.len(),
            out@ == batched(ranges@.take(i as int), batch_size as nat),
        decreases ranges@.len() - i,
    {
        let mut piece = batches_of(&ranges[i], batch_size);
        proof {
            let t = ranges@.take(i as int + 1);
            assert(t.drop_last() == ranges@.take(i as int));
            assert(t.last() == ranges@[i as int]);
        }
        out.append(&mut piece);
        i = i + 1;
    }
    proof {
        assert(ranges@.take(i as int) == ranges@);
    }
    out
}

} // verus!
