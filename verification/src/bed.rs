//! The record model: one parsed gene-model line, its structural invariant,
//! and the per-exon reading-frame vector derived from the coding region.
use vstd::prelude::*;

use crate::PipelineError;
use crate::Strand;
use crate::text::{
    list_items, list_ok, list_vals, number_val, parse_u32, spec_tokens, split_on_char,
    split_tokens, u32_field,
};

verus! {

/// One gene-model record: a transcript interval, its coding bounds and its
/// exon chain, exons in genomic left-to-right order whatever the strand.
#[derive(Debug)]
pub struct BedRecord {
    pub chrom: String,
    pub tx_start: u32,
    pub tx_end: u32,
    pub name: String,
    pub strand: Strand,
    pub cds_start: u32,
    pub cds_end: u32,
    pub exon_count: u16,
    pub exon_start: Vec<u32>,
    pub exon_end: Vec<u32>,
}

/// The structural invariant every parsed record satisfies: ordered transcript
/// bounds, coding bounds nested inside them, and a sorted, non-overlapping
/// exon chain inside the transcript interval.
pub open spec fn well_formed(r: BedRecord) -> bool {
    &&& r.tx_start < r.tx_end
    &&& r.tx_start <= r.cds_start
    &&& r.cds_start <= r.cds_end
    &&& r.cds_end <= r.tx_end
    &&& r.exon_start@.len() == r.exon_count as int
    &&& r.exon_end@.len() == r.exon_count as int
    &&& r.exon_count >= 1
    &&& forall|i: int|
        0 <= i < r.exon_count as int ==> r.tx_start <= #[trigger] r.exon_start@[i]
            && r.exon_start@[i] < r.exon_end@[i] && r.exon_end@[i] <= r.tx_end
    &&& forall|i: int|
        0 <= i < r.exon_count as int - 1 ==> #[trigger] r.exon_end@[i] <= r.exon_start@[i + 1]
}

/// Exon starts a line describes: the transcript start plus each block offset.
pub open spec fn parsed_starts(line: Seq<char>) -> Seq<int> {
    let f = spec_tokens(line);
    Seq::new(list_items(f[11]).len(), |i: int| number_val(f[1]) + list_vals(f[11])[i])
}

/// Exon ends a line describes: each exon start plus its block size.
pub open spec fn parsed_ends(line: Seq<char>) -> Seq<int> {
    let f = spec_tokens(line);
    Seq::new(list_items(f[11]).len(), |i: int| parsed_starts(line)[i] + list_vals(f[10])[i])
}

/// When a line parses: twelve fields, numeric coordinates that fit,
/// a `+`/`-` strand, block lists matching the block count, and the
/// structural invariant over the decoded values.
pub open spec fn parse_ok(line: Seq<char>) -> bool {
    let f = spec_tokens(line);
    &&& f.len() == 12
    &&& u32_field(f[1])
    &&& u32_field(f[2])
    &&& (f[5] == seq!['+'] || f[5] == seq!['-'])
    &&& u32_field(f[6])
    &&& u32_field(f[7])
    &&& u32_field(f[9])
    &&& 1 <= number_val(f[9]) <= u16::MAX
    &&& list_ok(f[10])
    &&& list_ok(f[11])
    &&& list_items(f[10]).len() == number_val(f[9])
    &&& list_items(f[11]).len() == number_val(f[9])
    &&& parse_ok_structure(line)
}

/// The structural invariant, phrased over the decoded integers of the line.
pub open spec fn parse_ok_structure(line: Seq<char>) -> bool {
    let f = spec_tokens(line);
    let ts = number_val(f[1]);
    let te = number_val(f[2]);
    let cs = number_val(f[6]);
    let ce = number_val(f[7]);
    let xs = parsed_starts(line);
    let xe = parsed_ends(line);
    &&& ts < te
    &&& ts <= cs <= ce <= te
    &&& forall|i: int|
        0 <= i < xs.len() ==> ts <= #[trigger] xs[i] && xs[i] < xe[i] && xe[i] <= te
    &&& forall|i: int| 0 <= i < xs.len() - 1 ==> #[trigger] xe[i] <= xs[i + 1]
}

/// How a parsed record corresponds to its line.
pub open spec fn record_matches(rec: BedRecord, line: Seq<char>) -> bool {
    let f = spec_tokens(line);
    &&& rec.chrom@ == f[0]
    &&& rec.tx_start as int == number_val(f[1])
    &&& rec.tx_end as int == number_val(f[2])
    &&& rec.name@ == f[3]
    &&& (rec.strand == Strand::Plus <==> f[5] == seq!['+'])
    &&& rec.cds_start as int == number_val(f[6])
    &&& rec.cds_end as int == number_val(f[7])
    &&& rec.exon_count as int == number_val(f[9])
    &&& rec.exon_start@.map_values(|v: u32| v as int) == parsed_starts(line)
    &&& rec.exon_end@.map_values(|v: u32| v as int) == parsed_ends(line)
    &&& well_formed(rec)
}

/// Reads one comma-separated block list; `None` when any piece is not a
/// number that fits.
fn parse_list(t: &str) -> (r: Option<Vec<u32>>)
    ensures
        match r {
            Some(v) => list_ok(t@) && v@.map_values(|x: u32| x as int) == list_vals(t@),
            None => !list_ok(t@),
        },
{
    let mut pieces = split_on_char(t, ',');
    proof {
        assert(pieces.deep_view().len() > 0);
        assert(pieces@.len() == pieces.deep_view().len());
    }
    // a trailing separator leaves one empty piece at the end; drop it
    if pieces[pieces.len() - 1].as_str().unicode_len() == 0 {
        let _ = pieces.pop();
    }
    proof {
        assert(pieces.deep_view() =~= list_items(t@));
    }
    let mut out: Vec<u32> = Vec::new();
    let n = pieces.len();
    let mut i: usize = 0;
    while i < n
        invariant
            0 <= i <= n,
            n == pieces@.len(),
            pieces.deep_view() == list_items(t@),
            out@.len() == i as int,
            forall|j: int| 0 <= j < i ==> u32_field(#[trigger] list_items(t@)[j]),
            forall|j: int| 0 <= j < i ==> out@[j] as int == number_val(list_items(t@)[j]),
        decreases n - i,
    {
        proof {
            assert(pieces.deep_view()[i as int] == pieces@[i as int]@);
        }
        match parse_u32(pieces[i].as_str()) {
            Some(v) => {
                out.push(v);
            },
            None => {
                proof {
                    assert(!u32_field(list_items(t@)[i as int]));
                }
                return None;
            },
        }
        i = i + 1;
    }
    proof {
        assert(out@.map_values(|x: u32| x as int) =~= list_vals(t@));
    }
    Some(out)
}

impl BedRecord {
    /// Parses one input line into a record, or rejects it as malformed.
    /// Succeeds exactly on the lines `parse_ok` accepts, and then returns
    /// the record the line describes.
    pub fn parse(line: &str) -> (r: Result<BedRecord, PipelineError>)
        ensures
            match r {
                Ok(rec) => parse_ok(line@) && record_matches(rec, line@),
                Err(e) => !parse_ok(line@) && e == PipelineError::MalformedRecord,
            },
    {
        let fields = split_tokens(line);
        if fields.len() != 12 {
            return Err(PipelineError::MalformedRecord);
        }
        proof {
            let f = spec_tokens(line@);
            assert(fields.deep_view().len() == fields@.len());
            assert(fields@[0]@ == f[0]);
            assert(fields@[1]@ == f[1]);
            assert(fields@[2]@ == f[2]);
            assert(fields@[3]@ == f[3]);
            assert(fields@[5]@ == f[5]);
            assert(fields@[6]@ == f[6]);
            assert(fields@[7]@ == f[7]);
            assert(fields@[9]@ == f[9]);
            assert(fields@[10]@ == f[10]);
            assert(fields@[11]@ == f[11]);
        }
        let tx_start = match parse_u32(fields[1].as_str()) {
            Some(v) => v,
            None => { return Err(PipelineError::MalformedRecord) },
        };
        let tx_end = match parse_u32(fields[2].as_str()) {
            Some(v) => v,
            None => { return Err(PipelineError::MalformedRecord) },
        };
        let strand = if fields[5].as_str().unicode_len() == 1 {
            let c = fields[5].as_str().get_char(0);
            if c == '+' {
                Strand::Plus
            } else if c == '-' {
                Strand::Minus
            } else {
                proof {
                    assert(fields@[5]@ != seq!['+'] && fields@[5]@ != seq!['-']);
                }
                return Err(PipelineError::MalformedRecord);
            }
        } else {
            proof {
                assert(fields@[5]@ != seq!['+'] && fields@[5]@ != seq!['-']);
            }
            return Err(PipelineError::MalformedRecord);
        };
        proof {
            if strand == Strand::Plus {
                assert(fields@[5]@ =~= seq!['+']);
            } else {
                assert(fields@[5]@ =~= seq!['-']);
            }
        }
        let cds_start = match parse_u32(fields[6].as_str()) {
            Some(v) => v,
            None => { return Err(PipelineError::MalformedRecord) },
        };
        let cds_end = match parse_u32(fields[7].as_str()) {
            Some(v) => v,
            None => { return Err(PipelineError::MalformedRecord) },
        };
        let count = match parse_u32(fields[9].as_str()) {
            Some(v) => v,
            None => { return Err(PipelineError::MalformedRecord) },
        };
        if count < 1 || count > 65535 {
            return Err(PipelineError::MalformedRecord);
        }
        let sizes = match parse_list(fields[10].as_str()) {
            Some(v) => v,
            None => { return Err(PipelineError::MalformedRecord) },
        };
        let starts = match parse_list(fields[11].as_str()) {
            Some(v) => v,
            None => { return Err(PipelineError::MalformedRecord) },
        };
        proof {
            let f = spec_tokens(line@);
            assert(sizes@.map_values(|x: u32| x as int).len() == sizes@.len());
            assert(starts@.map_values(|x: u32| x as int).len() == starts@.len());
            assert(list_vals(f[10]).len() == list_items(f[10]).len());
            assert(list_vals(f[11]).len() == list_items(f[11]).len());
            assert(sizes@.len() == list_items(f[10]).len());
            assert(starts@.len() == list_items(f[11]).len());
            assert(parsed_starts(line@).len() == list_items(f[11]).len());
        }
        if sizes.len() != count as usize || starts.len() != count as usize {
            return Err(PipelineError::MalformedRecord);
        }
        if !(tx_start < tx_end && tx_start <= cds_start && cds_start <= cds_end && cds_end
            <= tx_end) {
            return Err(PipelineError::MalformedRecord);
        }
        let n = count as usize;
        let mut exon_start: Vec<u32> = Vec::new();
        let mut exon_end: Vec<u32> = Vec::new();
        let mut i: usize = 0;
        while i < n
            invariant
                0 <= i <= n,
                n == starts@.len(),
                n == sizes@.len(),
                n == parsed_starts(line@).len(),
                starts@.map_values(|x: u32| x as int) == list_vals(spec_tokens(line@)[11]),
                sizes@.map_values(|x: u32| x as int) == list_vals(spec_tokens(line@)[10]),
                tx_start as int == number_val(spec_tokens(line@)[1]),
                tx_end as int == number_val(spec_tokens(line@)[2]),
                exon_start@.len() == i as int,
                exon_end@.len() == i as int,
                forall|j: int|
                    0 <= j < i ==> #[trigger] exon_start@[j] as int == parsed_starts(line@)[j],
                forall|j: int|
                    0 <= j < i ==> #[trigger] exon_end@[j] as int == parsed_ends(line@)[j],
                forall|j: int|
                    0 <= j < i ==> tx_start <= #[trigger] exon_start@[j] && exon_start@[j]
                        < exon_end@[j] && exon_end@[j] <= tx_end,
                forall|j: int|
                    0 <= j < i as int - 1 ==> #[trigger] exon_end@[j] <= exon_start@[j + 1],
            decreases n - i,
        {
            proof {
                assert(starts@.map_values(|x: u32| x as int)[i as int] == starts@[i as int] as int);
                assert(sizes@.map_values(|x: u32| x as int)[i as int] == sizes@[i as int] as int);
            }
            proof {
                let xs = parsed_starts(line@);
                let xe = parsed_ends(line@);
                assert(xs[i as int] == tx_start as int + starts@[i as int] as int);
                assert(xe[i as int] == xs[i as int] + sizes@[i as int] as int);
            }
            let s64: u64 = tx_start as u64 + starts[i] as u64;
            let e64: u64 = s64 + sizes[i] as u64;
            if e64 > tx_end as u64 || sizes[i] == 0 {
                proof {
                    assert(!parse_ok_structure(line@)) by {
                        if parse_ok_structure(line@) {
                            assert(parsed_starts(line@)[i as int] < parsed_ends(line@)[i as int]);
                            assert(parsed_ends(line@)[i as int] <= number_val(
                                spec_tokens(line@)[2],
                            ));
                        }
                    }
                }
                return Err(PipelineError::MalformedRecord);
            }
            let s = s64 as u32;
            let e = e64 as u32;
            if i > 0 && exon_end[i - 1] > s {
                proof {
                    assert(!parse_ok_structure(line@)) by {
                        if parse_ok_structure(line@) {
                            assert(parsed_ends(line@)[i as int - 1] <= parsed_starts(
                                line@,
                            )[i as int]);
                        }
                    }
                }
                return Err(PipelineError::MalformedRecord);
            }
            exon_start.push(s);
            exon_end.push(e);
            i = i + 1;
        }
        let rec = BedRecord {
            chrom: fields[0].clone(),
            tx_start,
            tx_end,
            name: fields[3].clone(),
            strand,
            cds_start,
            cds_end,
            exon_count: count as u16,
            exon_start,
            exon_end,
        };
        proof {
            assert(rec.exon_start@.map_values(|v: u32| v as int) =~= parsed_starts(line@));
            assert(rec.exon_end@.map_values(|v: u32| v as int) =~= parsed_ends(line@));
            assert(forall|j: int|
                0 <= j < rec.exon_count as int ==> #[trigger] rec.exon_start@[j] as int
                    == parsed_starts(line@)[j] && rec.exon_end@[j] as int == parsed_ends(line@)[j]);
            assert(well_formed(rec));
            assert(parse_ok(line@));
        }
        Ok(rec)
    }

    /// Reads just the transcript identifier (the fourth field) of a line,
    /// without a full parse.
    pub fn extract_tx(line: &str) -> (r: Result<String, PipelineError>)
        ensures
            match r {
                Ok(s) => spec_tokens(line@).len() > 3 && s@ == spec_tokens(line@)[3],
                Err(e) => spec_tokens(line@).len() <= 3 && e == PipelineError::MalformedRecord,
            },
    {
        let fields = split_tokens(line);
        if fields.len() > 3 {
            proof {
                assert(fields.deep_view()[3] == fields@[3]@);
            }
            Ok(fields[3].clone())
        } else {
            Err(PipelineError::MalformedRecord)
        }
    }
}

// ---------------------------------------------------------------------------
// Reading frames
// ---------------------------------------------------------------------------
/// How many coding bases exon `i` holds.
pub open spec fn exon_cds_overlap(r: BedRecord, i: int) -> int {
    let lo = if r.exon_start@[i] as int > r.cds_start as int {
        r.exon_start@[i] as int
    } else {
        r.cds_start as int
    };
    let hi = if (r.exon_end@[i] as int) < (r.cds_end as int) {
        r.exon_end@[i] as int
    } else {
        r.cds_end as int
    };
    if hi > lo {
        hi - lo
    } else {
        0
    }
}

/// Coding bases in the exons genomically left of exon `k`.
pub open spec fn cds_before(r: BedRecord, k: int) -> int
    decreases k,
{
    if k <= 0 {
        0
    } else {
        cds_before(r, k - 1) + exon_cds_overlap(r, k - 1)
    }
}

/// All coding bases of the record.
pub open spec fn cds_total(r: BedRecord) -> int {
    cds_before(r, r.exon_count as int)
}

/// Coding bases consumed before exon `i` is reached in transcript order:
/// left-to-right on `+`, right-to-left on `-`.
pub open spec fn frame_consumed(r: BedRecord, i: int) -> int {
    if r.strand == Strand::Plus {
        cds_before(r, i)
    } else {
        cds_total(r) - cds_before(r, i + 1)
    }
}

/// The frame value stored for exon `i`: consumed bases modulo three for a
/// coding exon, and the out-of-band value `3` for a non-coding one.
pub open spec fn frame_of(r: BedRecord, i: int) -> int {
    if exon_cds_overlap(r, i) > 0 {
        frame_consumed(r, i) % 3
    } else {
        3
    }
}

pub proof fn lemma_cds_before_bounds(r: BedRecord, k: int)
    requires
        well_formed(r),
        0 <= k <= r.exon_count as int,
    ensures
        0 <= cds_before(r, k),
        cds_before(r, k) <= r.cds_end as int - r.cds_start as int,
        k >= 1 ==> cds_before(r, k) + r.cds_start as int <= (if (r.exon_end@[k - 1] as int)
            < (r.cds_end as int) {
            r.exon_end@[k - 1] as int
        } else {
            r.cds_end as int
        }) || cds_before(r, k) == 0,
    decreases k,
{
    if k >= 1 {
        lemma_cds_before_bounds(r, k - 1);
    }
}

fn overlap_exec(r: &BedRecord, i: usize) -> (ov: u32)
    requires
        well_formed(*r),
        (i as int) < r.exon_count as int,
    ensures
        ov as int == exon_cds_overlap(*r, i as int),
{
    let lo = if r.exon_start[i] > r.cds_start {
        r.exon_start[i]
    } else {
        r.cds_start
    };
    let hi = if r.exon_end[i] < r.cds_end {
        r.exon_end[i]
    } else {
        r.cds_end
    };
    if hi > lo {
        hi - lo
    } else {
        0
    }
}

impl BedRecord {
    /// The per-exon frame vector: for each coding exon, the coding bases
    /// consumed before it in transcript order, modulo three; `3` marks a
    /// non-coding exon.  The wire-format phase swap (1 and 2 exchanged)
    /// happens later, when a line is formatted.
    pub fn get_frames(&self) -> (r: Vec<u32>)
        requires
            well_formed(*self),
        ensures
            r@.len() == self.exon_count as int,
            forall|i: int| 0 <= i < r@.len() ==> #[trigger] r@[i] as int == frame_of(*self, i),
    {
        let n = self.exon_count as usize;
        let mut total: u32 = 0;
        let mut i: usize = 0;
        while i < n
            invariant
                0 <= i <= n,
                n == self.exon_count as int,
                well_formed(*self),
                total as int == cds_before(*self, i as int),
                total as int <= self.cds_end as int - self.cds_start as int,
            decreases n - i,
        {
            proof {
                lemma_cds_before_bounds(*self, i as int + 1);
            }
            let ov = overlap_exec(self, i);
            total = total + ov;
            i = i + 1;
        }
        let mut frames: Vec<u32> = Vec::new();
        let mut before: u32 = 0;
        let mut i: usize = 0;
        while i < n
            invariant
                0 <= i <= n,
                n == self.exon_count as int,
                well_formed(*self),
                total as int == cds_total(*self),
                before as int == cds_before(*self, i as int),
                before <= total,
                frames@.len() == i as int,
                forall|j: int| 0 <= j < i ==> #[trigger] frames@[j] as int == frame_of(*self, j),
            decreases n - i,
        {
            proof {
                lemma_cds_before_bounds(*self, i as int + 1);
                lemma_cds_before_monotone(*self, i as int + 1, self.exon_count as int);
            }
            let ov = overlap_exec(self, i);
            let frame: u32 = if ov > 0 {
                if self.strand == Strand::Plus {
                    before % 3
                } else {
                    (total - (before + ov)) % 3
                }
            } else {
                3
            };
            frames.push(frame);
            before = before + ov;
            i = i + 1;
        }
        frames
    }
}

pub proof fn lemma_cds_before_monotone(r: BedRecord, a: int, b: int)
    requires
        well_formed(r),
        0 <= a <= b <= r.exon_count as int,
    ensures
        cds_before(r, a) <= cds_before(r, b),
    decreases b - a,
{
    if a < b {
        lemma_cds_before_monotone(r, a, b - 1);
        lemma_cds_before_bounds(r, b - 1);
    }
}

} // verus!
