//! The codon locator: the genomic span(s) of the three coding bases at
//! either end of the coding region, secondary span included when the codon
//! straddles an exon junction.
use vstd::prelude::*;

use crate::bed::{BedRecord, well_formed};
use crate::translate::{
    in_chain, lemma_offset_le_total, lemma_offset_split, lemma_offset_upto_nonneg,
    lemma_sum_len_mono, offset_of, sum_len, valid_move,
};

verus! {

/// A located codon: a primary genomic span, an optional secondary span
/// (genomically right of the primary, non-empty only when the codon is
/// split across a junction), and the index of the exon the primary span
/// lies in.
#[derive(Clone, Copy, PartialEq, Eq, Structural, Debug)]
pub struct Codon {
    pub start: u32,
    pub end: u32,
    pub start2: u32,
    pub end2: u32,
    pub index: u16,
}

/// The bases a codon accounts for across both spans.
pub open spec fn codon_bases(c: Codon) -> int {
    (c.end as int - c.start as int) + (c.end2 as int - c.start2 as int)
}

/// A codon is complete exactly when its spans account for three bases.
pub fn codon_complete(c: &Codon) -> (r: bool)
    ensures
        r == (codon_bases(*c) == 3),
{
    let total: i64 = (c.end as i64 - c.start as i64) + (c.end2 as i64 - c.start2 as i64);
    total == 3
}

// ---------------------------------------------------------------------------
// Finding the exon that holds a position
// ---------------------------------------------------------------------------
/// The first exon index at or after `k` whose half-open interval holds `p`,
/// or `-1`.
pub open spec fn find_exon_from(r: BedRecord, p: int, k: int) -> int
    decreases r.exon_count as int - k,
{
    if k < 0 || k >= r.exon_count as int {
        -1
    } else if r.exon_start@[k] as int <= p && p < r.exon_end@[k] as int {
        k
    } else {
        find_exon_from(r, p, k + 1)
    }
}

/// The exon whose half-open interval holds `p`, or `-1`.
pub open spec fn find_exon(r: BedRecord, p: int) -> int {
    find_exon_from(r, p, 0)
}

pub proof fn lemma_find_exon_props(r: BedRecord, p: int, k: int)
    requires
        0 <= k,
    ensures
        find_exon_from(r, p, k) == -1 || (k <= find_exon_from(r, p, k) < r.exon_count as int
            && r.exon_start@[find_exon_from(r, p, k)] as int <= p && p < r.exon_end@[find_exon_from(
            r,
            p,
            k,
        )] as int),
    decreases r.exon_count as int - k,
{
    if !(k >= r.exon_count as int) && !(r.exon_start@[k] as int <= p && p < r.exon_end@[k] as int) {
        lemma_find_exon_props(r, p, k + 1);
    }
}

fn find_exon_exec(r: &BedRecord, p: u32) -> (res: Option<usize>)
    requires
        well_formed(*r),
    ensures
        match res {
            Some(k) => find_exon(*r, p as int) == k as int,
            None => find_exon(*r, p as int) == -1,
        },
{
    let n = r.exon_count as usize;
    let mut k: usize = 0;
    while k < n
        invariant
            0 <= k <= n,
            n == r.exon_count as int,
            well_formed(*r),
            find_exon(*r, p as int) == find_exon_from(*r, p as int, k as int),
        decreases n - k,
    {
        if r.exon_start[k] <= p && p < r.exon_end[k] {
            return Some(k);
        }
        k = k + 1;
    }
    None
}

// ---------------------------------------------------------------------------
// The first (genomically left) codon
// ---------------------------------------------------------------------------
/// The exon holding the first coding base.
pub open spec fn fc_exon(r: BedRecord) -> int {
    find_exon(r, r.cds_start as int)
}

/// Bases the first coding exon contributes to the first codon.
pub open spec fn fc_avail(r: BedRecord) -> int {
    let i = fc_exon(r);
    let lim = if (r.exon_end@[i] as int) < (r.cds_end as int) {
        r.exon_end@[i] as int
    } else {
        r.cds_end as int
    };
    let a = lim - r.cds_start as int;
    if a > 3 {
        3
    } else {
        a
    }
}

/// Whether the first codon is cut by its exon's end with the coding region
/// continuing into the next exon.
pub open spec fn fc_split(r: BedRecord) -> bool {
    let i = fc_exon(r);
    fc_avail(r) < 3 && r.cds_start as int + fc_avail(r) == r.exon_end@[i] as int && i + 1
        < r.exon_count as int
}

/// Bases the following exon contributes to the first codon.
pub open spec fn fc_avail2(r: BedRecord) -> int {
    let i = fc_exon(r);
    if fc_split(r) {
        let lim = if (r.exon_end@[i + 1] as int) < (r.cds_end as int) {
            r.exon_end@[i + 1] as int
        } else {
            r.cds_end as int
        };
        let a = lim - r.exon_start@[i + 1] as int;
        let need = 3 - fc_avail(r);
        let got = if a < need {
            a
        } else {
            need
        };
        if got > 0 {
            got
        } else {
            0
        }
    } else {
        0
    }
}

/// What `first_codon` returns on a coding record whose first coding base
/// lies on the exon chain.
pub open spec fn first_codon_matches(r: BedRecord, c: Codon) -> bool {
    let i = fc_exon(r);
    &&& c.index as int == i
    &&& c.start == r.cds_start
    &&& c.end as int == r.cds_start as int + fc_avail(r)
    &&& if fc_avail2(r) > 0 {
        c.start2 as int == r.exon_start@[i + 1] as int && c.end2 as int == r.exon_start@[i
            + 1] as int + fc_avail2(r)
    } else {
        c.start2 == 0 && c.end2 == 0
    }
}

/// Locates the codon at the genomic left edge of the coding region: up to
/// three coding bases walked left to right, continuing into the next exon
/// when the first coding exon holds fewer than three.  A record without a
/// coding region gets an empty (never complete) codon; `None` comes exactly
/// when a coding region is advertised but its first base is off the exon
/// chain.
pub fn first_codon(r: &BedRecord) -> (res: Option<Codon>)
    requires
        well_formed(*r),
    ensures
        match res {
            Some(c) => if r.cds_start == r.cds_end {
                c.start == r.cds_start && c.end == r.cds_start && c.start2 == 0 && c.end2 == 0
                    && c.index == 0
            } else {
                fc_exon(*r) >= 0 && first_codon_matches(*r, c)
            },
            None => r.cds_start < r.cds_end && fc_exon(*r) == -1,
        },
{
    if r.cds_start == r.cds_end {
        return Some(Codon { start: r.cds_start, end: r.cds_start, start2: 0, end2: 0, index: 0 });
    }
    let i = match find_exon_exec(r, r.cds_start) {
        Some(i) => i,
        None => { return None },
    };
    proof {
        lemma_find_exon_props(*r, r.cds_start as int, 0);
    }
    let lim = if r.exon_end[i] < r.cds_end {
        r.exon_end[i]
    } else {
        r.cds_end
    };
    let a = lim - r.cds_start;
    let avail = if a > 3 {
        3
    } else {
        a
    };
    let mut c = Codon {
        start: r.cds_start,
        end: r.cds_start + avail,
        start2: 0,
        end2: 0,
        index: i as u16,
    };
    if avail < 3 && r.cds_start + avail == r.exon_end[i] && i + 1 < r.exon_count as usize {
        let s2 = r.exon_start[i + 1];
        let lim2 = if r.exon_end[i + 1] < r.cds_end {
            r.exon_end[i + 1]
        } else {
            r.cds_end
        };
        let need = 3 - avail;
        if lim2 > s2 {
            let a2 = lim2 - s2;
            let got = if a2 < need {
                a2
            } else {
                need
            };
            c.start2 = s2;
            c.end2 = s2 + got;
        }
    }
    Some(c)
}

// ---------------------------------------------------------------------------
// The last (genomically right) codon
// ---------------------------------------------------------------------------
/// The exon holding the last coding base.
pub open spec fn lc_exon(r: BedRecord) -> int {
    find_exon(r, r.cds_end as int - 1)
}

/// The genomic left limit of coding bases inside the last coding exon.
pub open spec fn lc_lo(r: BedRecord) -> int {
    let j = lc_exon(r);
    if (r.exon_start@[j] as int) > (r.cds_start as int) {
        r.exon_start@[j] as int
    } else {
        r.cds_start as int
    }
}

/// Bases the last coding exon contributes to the last codon.
pub open spec fn lc_avail(r: BedRecord) -> int {
    let a = r.cds_end as int - lc_lo(r);
    if a > 3 {
        3
    } else {
        a
    }
}

/// Whether the last codon is cut by its exon's start with the coding
/// region continuing into the previous exon.
pub open spec fn lc_split(r: BedRecord) -> bool {
    let j = lc_exon(r);
    lc_avail(r) < 3 && lc_lo(r) == r.exon_start@[j] as int && j >= 1
}

/// Bases the previous exon contributes to the last codon.
pub open spec fn lc_avail2(r: BedRecord) -> int {
    let j = lc_exon(r);
    if lc_split(r) {
        let lo = if (r.exon_start@[j - 1] as int) > (r.cds_start as int) {
            r.exon_start@[j - 1] as int
        } else {
            r.cds_start as int
        };
        let a = r.exon_end@[j - 1] as int - lo;
        let need = 3 - lc_avail(r);
        let got = if a < need {
            a
        } else {
            need
        };
        if got > 0 {
            got
        } else {
            0
        }
    } else {
        0
    }
}

/// What `last_codon` returns on a coding record whose last coding base
/// lies on the exon chain.
pub open spec fn last_codon_matches(r: BedRecord, c: Codon) -> bool {
    let j = lc_exon(r);
    if lc_avail2(r) > 0 {
        &&& c.index as int == j - 1
        &&& c.start as int == r.exon_end@[j - 1] as int - lc_avail2(r)
        &&& c.end as int == r.exon_end@[j - 1] as int
        &&& c.start2 as int == r.cds_end as int - lc_avail(r)
        &&& c.end2 == r.cds_end
    } else {
        &&& c.index as int == j
        &&& c.start as int == r.cds_end as int - lc_avail(r)
        &&& c.end == r.cds_end
        &&& c.start2 == 0
        &&& c.end2 == 0
    }
}

/// Locates the codon at the genomic right edge of the coding region: up to
/// three coding bases walked right to left, continuing into the previous
/// exon when the last coding exon holds fewer than three.  The primary span
/// is the genomically left one, as for `first_codon`.
pub fn last_codon(r: &BedRecord) -> (res: Option<Codon>)
    requires
        well_formed(*r),
    ensures
        match res {
            Some(c) => if r.cds_start == r.cds_end {
                c.start == r.cds_start && c.end == r.cds_start && c.start2 == 0 && c.end2 == 0
                    && c.index == 0
            } else {
                lc_exon(*r) >= 0 && last_codon_matches(*r, c)
            },
            None => r.cds_start < r.cds_end && lc_exon(*r) == -1,
        },
{
    if r.cds_start == r.cds_end {
        return Some(Codon { start: r.cds_start, end: r.cds_start, start2: 0, end2: 0, index: 0 });
    }
    let j = match find_exon_exec(r, r.cds_end - 1) {
        Some(j) => j,
        None => { return None },
    };
    proof {
        lemma_find_exon_props(*r, r.cds_end as int - 1, 0);
    }
    let lo = if r.exon_start[j] > r.cds_start {
        r.exon_start[j]
    } else {
        r.cds_start
    };
    let a = r.cds_end - lo;
    let avail = if a > 3 {
        3
    } else {
        a
    };
    if avail < 3 && lo == r.exon_start[j] && j >= 1 {
        let lo2 = if r.exon_start[j - 1] > r.cds_start {
            r.exon_start[j - 1]
        } else {
            r.cds_start
        };
        let need = 3 - avail;
        if r.exon_end[j - 1] > lo2 {
            let a2 = r.exon_end[j - 1] - lo2;
            let got = if a2 < need {
                a2
            } else {
                need
            };
            return Some(
                Codon {
                    start: r.exon_end[j - 1] - got,
                    end: r.exon_end[j - 1],
                    start2: r.cds_end - avail,
                    end2: r.cds_end,
                    index: (j - 1) as u16,
                },
            );
        }
    }
    Some(
        Codon {
            start: r.cds_end - avail,
            end: r.cds_end,
            start2: 0,
            end2: 0,
            index: j as u16,
        },
    )
}

// ---------------------------------------------------------------------------
// A complete codon leaves room for the three-base walk that excludes it
// ---------------------------------------------------------------------------
/// A complete first codon guarantees that three bases can be walked
/// forward from the first coding base.
pub proof fn lemma_first_codon_move_ok(r: BedRecord)
    requires
        well_formed(r),
        r.cds_start < r.cds_end,
        fc_exon(r) >= 0,
        fc_avail(r) + fc_avail2(r) == 3,
    ensures
        valid_move(r, r.cds_start as int, 3),
{
    let n = r.exon_count as int;
    let i = fc_exon(r);
    lemma_find_exon_props(r, r.cds_start as int, 0);
    assert(in_chain(r, r.cds_start as int));
    lemma_offset_split(r, r.cds_start as int, i);
    lemma_offset_upto_nonneg(r, r.tx_end as int, i);
    if fc_avail(r) == 3 {
        lemma_sum_len_mono(r, i + 1, n);
        assert(sum_len(r, i + 1) == sum_len(r, i) + tx_end_clip(r, i));
    } else {
        assert(fc_split(r));
        lemma_sum_len_mono(r, i + 2, n);
        assert(sum_len(r, i + 1) == sum_len(r, i) + tx_end_clip(r, i));
        assert(sum_len(r, i + 2) == sum_len(r, i + 1) + tx_end_clip(r, i + 1));
    }
    lemma_offset_upto_nonneg(r, r.cds_start as int, n);
}

/// The contribution of exon `k` clipped at the transcript end: its whole
/// length.
pub open spec fn tx_end_clip(r: BedRecord, k: int) -> int {
    crate::translate::exon_clip(r, r.tx_end as int, k)
}

/// A complete last codon guarantees that three bases can be walked
/// backward from the end of the coding region.
pub proof fn lemma_last_codon_move_ok(r: BedRecord)
    requires
        well_formed(r),
        r.cds_start < r.cds_end,
        lc_exon(r) >= 0,
        lc_avail(r) + lc_avail2(r) == 3,
    ensures
        valid_move(r, r.cds_end as int, -3),
{
    let n = r.exon_count as int;
    let j = lc_exon(r);
    lemma_find_exon_props(r, r.cds_end as int - 1, 0);
    assert(r.exon_start@[j] as int <= r.cds_end as int <= r.exon_end@[j] as int);
    assert(in_chain(r, r.cds_end as int));
    lemma_offset_split(r, r.cds_end as int, j);
    lemma_offset_upto_nonneg(r, r.tx_end as int, j);
    if lc_avail(r) == 3 {
        assert(offset_of(r, r.cds_end as int) >= 3);
    } else {
        assert(lc_split(r));
        lemma_offset_upto_nonneg(r, r.tx_end as int, j - 1);
        assert(sum_len(r, j) == sum_len(r, j - 1) + tx_end_clip(r, j - 1));
        assert(offset_of(r, r.cds_end as int) >= 3);
    }
    lemma_offset_le_total(r, r.cds_end as int, n);
}

} // verus!
