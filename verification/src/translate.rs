//! The position translator: walking a genomic position along the spliced
//! transcript, introns skipped, by a signed number of bases.
use vstd::prelude::*;

use crate::PipelineError;
use crate::bed::{BedRecord, well_formed};

verus! {

/// Exonic bases of exon `k`.
pub open spec fn exon_len(r: BedRecord, k: int) -> int {
    r.exon_end@[k] as int - r.exon_start@[k] as int
}

/// Bases of exon `k` genomically left of `p`.
pub open spec fn exon_clip(r: BedRecord, p: int, k: int) -> int {
    let s = r.exon_start@[k] as int;
    let hi = if (r.exon_end@[k] as int) < p {
        r.exon_end@[k] as int
    } else {
        p
    };
    if hi > s {
        hi - s
    } else {
        0
    }
}

/// Exonic bases left of `p` among the exons before `k`.
pub open spec fn offset_upto(r: BedRecord, p: int, k: int) -> int
    decreases k,
{
    if k <= 0 {
        0
    } else {
        offset_upto(r, p, k - 1) + exon_clip(r, p, k - 1)
    }
}

/// The spliced-transcript offset of genomic position `p`: how many exonic
/// bases lie strictly left of it.
pub open spec fn offset_of(r: BedRecord, p: int) -> int {
    offset_upto(r, p, r.exon_count as int)
}

/// Exonic bases in the exons before `k`.
pub open spec fn sum_len(r: BedRecord, k: int) -> int {
    offset_upto(r, r.tx_end as int, k)
}

/// All exonic bases of the record.
pub open spec fn splice_len(r: BedRecord) -> int {
    sum_len(r, r.exon_count as int)
}

/// Whether `p` lies on the exon chain; each exon's one-past-the-end
/// position is accepted and stands for the same spliced offset as the
/// next exon's start.
pub open spec fn in_chain(r: BedRecord, p: int) -> bool {
    exists|k: int|
        0 <= k < r.exon_count as int && r.exon_start@[k] as int <= p && p <= r.exon_end@[k] as int
}

/// The genomic position of spliced base `t`, scanning from exon `k`.
pub open spec fn pos_at_from(r: BedRecord, t: int, k: int) -> int
    decreases r.exon_count as int - k,
{
    if k < 0 || k >= r.exon_count as int {
        0
    } else if t < exon_len(r, k) {
        r.exon_start@[k] as int + t
    } else {
        pos_at_from(r, t - exon_len(r, k), k + 1)
    }
}

/// The genomic position of spliced offset `t`; the offset one past the
/// last base maps to the last exon's end.
pub open spec fn pos_at(r: BedRecord, t: int) -> int {
    if t == splice_len(r) {
        r.exon_end@[r.exon_count as int - 1] as int
    } else {
        pos_at_from(r, t, 0)
    }
}

/// When a walk of `d` bases from `p` stays on the transcript.
pub open spec fn valid_move(r: BedRecord, p: int, d: int) -> bool {
    in_chain(r, p) && 0 <= offset_of(r, p) + d <= splice_len(r)
}

/// Where a walk of `d` bases from `p` lands.
pub open spec fn splice_move(r: BedRecord, p: int, d: int) -> int {
    pos_at(r, offset_of(r, p) + d)
}

// ---------------------------------------------------------------------------
// Facts about offsets
// ---------------------------------------------------------------------------
pub proof fn lemma_exon_order(r: BedRecord, a: int, b: int)
    requires
        well_formed(r),
        0 <= a < b < r.exon_count as int,
    ensures
        r.exon_end@[a] as int <= r.exon_start@[b] as int,
    decreases b - a,
{
    if a + 1 < b {
        lemma_exon_order(r, a, b - 1);
    }
}

pub proof fn lemma_offset_upto_nonneg(r: BedRecord, p: int, k: int)
    requires
        0 <= k,
    ensures
        offset_upto(r, p, k) >= 0,
    decreases k,
{
    if k > 0 {
        lemma_offset_upto_nonneg(r, p, k - 1);
    }
}

/// Congruence: two cut positions clipping every counted exon alike give
/// the same partial offset.
proof fn lemma_offset_upto_congruent(r: BedRecord, p1: int, p2: int, k: int)
    requires
        0 <= k,
        forall|j: int| 0 <= j < k ==> exon_clip(r, p1, j) == exon_clip(r, p2, j),
    ensures
        offset_upto(r, p1, k) == offset_upto(r, p2, k),
    decreases k,
{
    if k > 0 {
        lemma_offset_upto_congruent(r, p1, p2, k - 1);
    }
}

proof fn lemma_offset_tail_constant(r: BedRecord, p: int, m: int, k: int)
    requires
        0 <= m <= k,
        forall|j: int| m <= j < k ==> exon_clip(r, p, j) == 0,
    ensures
        offset_upto(r, p, k) == offset_upto(r, p, m),
    decreases k - m,
{
    if m < k {
        lemma_offset_tail_constant(r, p, m, k - 1);
    }
}

pub proof fn lemma_sum_len_mono(r: BedRecord, a: int, b: int)
    requires
        well_formed(r),
        0 <= a <= b <= r.exon_count as int,
    ensures
        sum_len(r, a) <= sum_len(r, b),
    decreases b - a,
{
    if a < b {
        lemma_sum_len_mono(r, a, b - 1);
    }
}

pub proof fn lemma_offset_le_total(r: BedRecord, p: int, k: int)
    requires
        well_formed(r),
        0 <= k <= r.exon_count as int,
    ensures
        offset_upto(r, p, k) <= sum_len(r, k),
    decreases k,
{
    if k > 0 {
        lemma_offset_le_total(r, p, k - 1);
    }
}

/// The offset of a position inside (or at the end of) exon `k` is the
/// full length of the exons before it plus its distance into the exon.
pub proof fn lemma_offset_split(r: BedRecord, q: int, k: int)
    requires
        well_formed(r),
        0 <= k < r.exon_count as int,
        r.exon_start@[k] as int <= q <= r.exon_end@[k] as int,
    ensures
        offset_of(r, q) == sum_len(r, k) + (q - r.exon_start@[k] as int),
{
    let n = r.exon_count as int;
    assert forall|j: int| 0 <= j < k implies exon_clip(r, q, j) == exon_clip(
        r,
        r.tx_end as int,
        j,
    ) by {
        lemma_exon_order(r, j, k);
    }
    lemma_offset_upto_congruent(r, q, r.tx_end as int, k);
    assert forall|j: int| k + 1 <= j < n implies exon_clip(r, q, j) == 0 by {
        lemma_exon_order(r, k, j);
    }
    lemma_offset_tail_constant(r, q, k + 1, n);
    assert(offset_of(r, q) == offset_upto(r, q, k + 1));
    assert(offset_upto(r, q, k + 1) == offset_upto(r, q, k) + exon_clip(r, q, k));
}

/// The upper bound of the splice coordinates, reached at the last exon's end.
pub proof fn lemma_offset_at_end(r: BedRecord)
    requires
        well_formed(r),
    ensures
        offset_of(r, r.exon_end@[r.exon_count as int - 1] as int) == splice_len(r),
{
    let n = r.exon_count as int;
    lemma_offset_split(r, r.exon_end@[n - 1] as int, n - 1);
    assert(sum_len(r, n) == sum_len(r, n - 1) + exon_clip(r, r.tx_end as int, n - 1));
}

/// Where `pos_at_from` lands: in a real exon, at the offset asked for.
proof fn lemma_pos_at_from_props(r: BedRecord, t: int, k: int)
    requires
        well_formed(r),
        0 <= k < r.exon_count as int,
        0 <= t,
        sum_len(r, k) + t < splice_len(r),
    ensures
        exists|j: int|
            0 <= j < r.exon_count as int && (#[trigger] r.exon_start@[j]) as int <= pos_at_from(
                r,
                t,
                k,
            ) && pos_at_from(r, t, k) < r.exon_end@[j] as int,
        offset_of(r, pos_at_from(r, t, k)) == sum_len(r, k) + t,
    decreases r.exon_count as int - k,
{
    let n = r.exon_count as int;
    if t < exon_len(r, k) {
        let q = r.exon_start@[k] as int + t;
        lemma_offset_split(r, q, k);
        assert(r.exon_start@[k] as int <= q < r.exon_end@[k] as int);
    } else {
        assert(sum_len(r, k + 1) == sum_len(r, k) + exon_len(r, k));
        if k + 1 == n {
            assert(sum_len(r, k) + t >= splice_len(r));
            assert(false);
        }
        lemma_pos_at_from_props(r, t - exon_len(r, k), k + 1);
    }
}

/// A spliced offset below the total lands on a real base whose offset it is.
pub proof fn lemma_pos_at_props(r: BedRecord, t: int)
    requires
        well_formed(r),
        0 <= t < splice_len(r),
    ensures
        exists|j: int|
            0 <= j < r.exon_count as int && (#[trigger] r.exon_start@[j]) as int <= pos_at(r, t)
                && pos_at(r, t) < r.exon_end@[j] as int,
        offset_of(r, pos_at(r, t)) == t,
        in_chain(r, pos_at(r, t)),
{
    assert(sum_len(r, 0) == 0);
    lemma_pos_at_from_props(r, t, 0);
    let q = pos_at(r, t);
    let j = choose|j: int|
        0 <= j < r.exon_count as int && (#[trigger] r.exon_start@[j]) as int <= q && q
            < r.exon_end@[j] as int;
    assert(r.exon_start@[j] as int <= q <= r.exon_end@[j] as int);
}

/// A base position is recovered from its own offset.
proof fn lemma_pos_at_of_offset_from(r: BedRecord, p: int, k: int, m: int)
    requires
        well_formed(r),
        0 <= k < r.exon_count as int,
        r.exon_start@[k] as int <= p < r.exon_end@[k] as int,
        0 <= m <= k,
    ensures
        pos_at_from(r, offset_of(r, p) - sum_len(r, m), m) == p,
    decreases k - m,
{
    lemma_offset_split(r, p, k);
    let t = offset_of(r, p) - sum_len(r, m);
    if m == k {
        assert(t == p - r.exon_start@[k] as int);
    } else {
        assert(sum_len(r, m + 1) == sum_len(r, m) + exon_len(r, m));
        lemma_sum_len_mono(r, m + 1, k);
        lemma_offset_upto_nonneg(r, r.tx_end as int, m);
        assert(t >= exon_len(r, m));
        lemma_pos_at_of_offset_from(r, p, k, m + 1);
    }
}

pub proof fn lemma_pos_at_of_offset(r: BedRecord, p: int)
    requires
        well_formed(r),
        exists|k: int|
            0 <= k < r.exon_count as int && (#[trigger] r.exon_start@[k]) as int <= p && p
                < r.exon_end@[k] as int,
    ensures
        pos_at(r, offset_of(r, p)) == p,
{
    let k = choose|k: int|
        0 <= k < r.exon_count as int && (#[trigger] r.exon_start@[k]) as int <= p && p
            < r.exon_end@[k] as int;
    lemma_offset_split(r, p, k);
    lemma_sum_len_mono(r, k, k + 1);
    lemma_sum_len_mono(r, k + 1, r.exon_count as int);
    assert(sum_len(r, k + 1) == sum_len(r, k) + exon_len(r, k));
    assert(offset_of(r, p) < splice_len(r));
    assert(sum_len(r, 0) == 0);
    lemma_pos_at_of_offset_from(r, p, k, 0);
}

/// Walking `d` bases and then `d` bases back returns to the start, for any
/// base position on the exon chain and any distance the transcript's
/// spliced span allows in both directions.
#[verifier::rlimit(60)]
pub proof fn lemma_translate_round_trip(r: BedRecord, p: int, d: int)
    requires
        well_formed(r),
        exists|k: int|
            0 <= k < r.exon_count as int && (#[trigger] r.exon_start@[k]) as int <= p && p
                < r.exon_end@[k] as int,
        0 <= offset_of(r, p) + d <= splice_len(r),
    ensures
        valid_move(r, p, d),
        valid_move(r, splice_move(r, p, d), -d),
        splice_move(r, splice_move(r, p, d), -d) == p,
{
    let n = r.exon_count as int;
    let k = choose|k: int|
        0 <= k < n && (#[trigger] r.exon_start@[k]) as int <= p && p < r.exon_end@[k] as int;
    assert(r.exon_start@[k] as int <= p <= r.exon_end@[k] as int);
    assert(in_chain(r, p));
    let t0 = offset_of(r, p);
    let t1 = t0 + d;
    let q = pos_at(r, t1);
    assert(splice_move(r, p, d) == q);
    if t1 == splice_len(r) {
        lemma_offset_at_end(r);
        assert(q == r.exon_end@[n - 1] as int);
        assert(r.exon_start@[n - 1] as int <= q <= r.exon_end@[n - 1] as int);
        assert(in_chain(r, q));
        assert(offset_of(r, q) == t1);
    } else {
        lemma_pos_at_props(r, t1);
        assert(offset_of(r, q) == t1);
        assert(in_chain(r, q));
    }
    lemma_offset_upto_nonneg(r, p, n);
    lemma_offset_le_total(r, p, n);
    assert(0 <= offset_of(r, q) + (-d) <= splice_len(r));
    assert(valid_move(r, q, -d));
    lemma_pos_at_of_offset(r, p);
    assert(pos_at(r, t0) == p);
    assert(splice_move(r, q, -d) == pos_at(r, offset_of(r, q) - d));
    assert(offset_of(r, q) - d == t0);
}

// ---------------------------------------------------------------------------
// Executable walk
// ---------------------------------------------------------------------------
fn offset_exec(r: &BedRecord, p: u32) -> (o: u32)
    requires
        well_formed(*r),
    ensures
        o as int == offset_of(*r, p as int),
{
    let n = r.exon_count as usize;
    let mut acc: u32 = 0;
    let mut k: usize = 0;
    while k < n
        invariant
            0 <= k <= n,
            n == r.exon_count as int,
            well_formed(*r),
            acc as int == offset_upto(*r, p as int, k as int),
        decreases n - k,
    {
        proof {
            lemma_offset_le_total(*r, p as int, k as int + 1);
            lemma_sum_len_mono(*r, k as int + 1, n as int);
            lemma_splice_len_bound(*r);
        }
        let s = r.exon_start[k];
        let hi = if r.exon_end[k] < p {
            r.exon_end[k]
        } else {
            p
        };
        if hi > s {
            acc = acc + (hi - s);
        }
        k = k + 1;
    }
    acc
}

/// The whole spliced span never exceeds the transcript interval.
pub proof fn lemma_splice_len_bound(r: BedRecord)
    requires
        well_formed(r),
    ensures
        splice_len(r) <= r.tx_end as int - r.tx_start as int,
{
    lemma_sum_len_le_end(r, r.exon_count as int);
}

proof fn lemma_sum_len_le_end(r: BedRecord, k: int)
    requires
        well_formed(r),
        0 <= k <= r.exon_count as int,
    ensures
        sum_len(r, k) <= if k == 0 {
            0
        } else {
            r.exon_end@[k - 1] as int - r.tx_start as int
        },
        sum_len(r, k) >= 0,
    decreases k,
{
    if k > 0 {
        lemma_sum_len_le_end(r, k - 1);
    }
}

fn contains_exec(r: &BedRecord, p: u32) -> (b: bool)
    requires
        well_formed(*r),
    ensures
        b == in_chain(*r, p as int),
{
    let n = r.exon_count as usize;
    let mut k: usize = 0;
    while k < n
        invariant
            0 <= k <= n,
            n == r.exon_count as int,
            well_formed(*r),
            forall|j: int|
                0 <= j < k ==> !(r.exon_start@[j] as int <= p as int && p as int <= #[trigger] r.exon_end@[j] as int),
        decreases n - k,
    {
        if r.exon_start[k] <= p && p <= r.exon_end[k] {
            proof {
                assert(0 <= k as int && (k as int) < r.exon_count as int && r.exon_start@[
                    k as int
                ] as int <= p as int && p as int <= r.exon_end@[k as int] as int);
            }
            return true;
        }
        k = k + 1;
    }
    false
}

/// Walks `dist` bases (sign gives the direction) along the spliced
/// transcript from `pos`.  Fails exactly when `pos` is off the exon chain
/// or the walk would run off either end of the transcript.
pub fn move_pos(record: &BedRecord, pos: u32, dist: i32) -> (res: Result<u32, PipelineError>)
    requires
        well_formed(*record),
    ensures
        match res {
            Ok(q) => valid_move(*record, pos as int, dist as int) && q as int == splice_move(
                *record,
                pos as int,
                dist as int,
            ),
            Err(e) => !valid_move(*record, pos as int, dist as int) && e
                == PipelineError::CodonResolution,
        },
{
    let n = record.exon_count as usize;
    if !contains_exec(record, pos) {
        return Err(PipelineError::CodonResolution);
    }
    let off = offset_exec(record, pos);
    let total = offset_exec(record, record.tx_end);
    proof {
        assert(offset_of(*record, record.tx_end as int) == splice_len(*record)) by {
            lemma_offset_upto_congruent(
                *record,
                record.tx_end as int,
                record.tx_end as int,
                record.exon_count as int,
            );
        }
    }
    let t: i64 = off as i64 + dist as i64;
    if t < 0 || t > total as i64 {
        return Err(PipelineError::CodonResolution);
    }
    if t == total as i64 {
        proof {
            lemma_offset_at_end(*record);
        }
        return Ok(record.exon_end[n - 1]);
    }
    let t32: u32 = t as u32;
    let mut k: usize = 0;
    let mut rem: u32 = t32;
    while k < n
        invariant
            0 <= k <= n,
            n == record.exon_count as int,
            well_formed(*record),
            sum_len(*record, k as int) + rem as int == t32 as int,
            t32 < total,
            total as int == splice_len(*record),
            pos_at_from(*record, t32 as int, 0) == pos_at_from(*record, rem as int, k as int),
            valid_move(*record, pos as int, dist as int),
            t32 as int == offset_of(*record, pos as int) + dist as int,
        decreases n - k,
    {
        proof {
            lemma_sum_len_mono(*record, k as int + 1, n as int);
        }
        let len = record.exon_end[k] - record.exon_start[k];
        if rem < len {
            return Ok(record.exon_start[k] + rem);
        }
        proof {
            assert(sum_len(*record, k as int + 1) == sum_len(*record, k as int) + exon_len(
                *record,
                k as int,
            ));
        }
        rem = rem - len;
        k = k + 1;
    }
    // the walk cannot run past the last exon: the target offset is below
    // the spliced total, so some exon above absorbs it
    proof {
        assert(sum_len(*record, n as int) == splice_len(*record));
    }
    Err(PipelineError::CodonResolution)
}

} // verus!
