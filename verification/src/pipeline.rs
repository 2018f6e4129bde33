//! The whole conversion run: parse every record, derive the gene
//! envelopes, emit per-transcript features, order everything, and render.
use vstd::prelude::*;

use crate::PipelineError;
use crate::aggregate::{
    CoordV, combine_maps_par, custom_par_parse, entries_map, env_fold, gene_keys, gene_line_spec,
    track_map,
};
use crate::bed::{BedRecord, parse_ok, record_matches, well_formed};
use crate::convert::{codon_missing, emit_spec, gene_missing, the_gene, to_gxf};
use crate::lines::{Dialect, GxfLine, GxfLineV, line_text};
use crate::sequence::{lines_view, serialize_lines, sort_lines, sorted_adjacent};
use crate::text::{spec_lines, split_lines};
use crate::utils::{IsoPair, pairs_of, pairs_view, parallel_hash_rev};

verus! {

/// Every line of the interval text parses.
pub open spec fn all_parse_ok(ls: Seq<Seq<char>>) -> bool {
    forall|i: int| 0 <= i < ls.len() ==> parse_ok(#[trigger] ls[i])
}

/// Parses every line of an interval text, failing on the first malformed
/// one.
pub fn parallel_parse(s: &str) -> (r: Result<Vec<BedRecord>, PipelineError>)
    ensures
        match r {
            Ok(v) => all_parse_ok(spec_lines(s@)) && v@.len() == spec_lines(s@).len() && forall|
                i: int,
            |
                0 <= i < v@.len() ==> record_matches(#[trigger] v@[i], spec_lines(s@)[i]),
            Err(e) => !all_parse_ok(spec_lines(s@)) && e == PipelineError::MalformedRecord,
        },
{
    let lines = split_lines(s);
    let mut out: Vec<BedRecord> = Vec::new();
    let n = lines.len();
    let mut i: usize = 0;
    while i < n
        invariant
            0 <= i <= n,
            n == lines@.len(),
            lines.deep_view() == spec_lines(s@),
            out@.len() == i as int,
            forall|j: int| 0 <= j < i ==> parse_ok(#[trigger] spec_lines(s@)[j]),
            forall|j: int|
                0 <= j < i ==> record_matches(#[trigger] out@[j], spec_lines(s@)[j]),
        decreases n - i,
    {
        proof {
            assert(lines.deep_view()[i as int] == lines@[i as int]@);
        }
        match BedRecord::parse(lines[i].as_str()) {
            Ok(rec) => {
                out.push(rec);
            },
            Err(e) => {
                return Err(e);
            },
        }
        i = i + 1;
    }
    Ok(out)
}

// ---------------------------------------------------------------------------
// Output-name dialect selection
// ---------------------------------------------------------------------------
/// Whether `s` ends in `suf`.
pub open spec fn has_suffix(s: Seq<char>, suf: Seq<char>) -> bool {
    s.len() >= suf.len() && s.subrange(s.len() - suf.len(), s.len() as int) == suf
}

/// The dialect and compression an output name selects, `None` when the
/// name carries no known extension.
pub open spec fn name_dialect(s: Seq<char>) -> Option<(Dialect, bool)> {
    if has_suffix(s, ".gz"@) {
        let inner = s.take(s.len() - 3);
        if has_suffix(inner, ".gtf"@) {
            Option::Some((Dialect::Gtf, true))
        } else if has_suffix(inner, ".gff"@) || has_suffix(inner, ".gff3"@) {
            Option::Some((Dialect::Gff, true))
        } else {
            Option::None
        }
    } else if has_suffix(s, ".gtf"@) {
        Option::Some((Dialect::Gtf, false))
    } else if has_suffix(s, ".gff"@) || has_suffix(s, ".gff3"@) {
        Option::Some((Dialect::Gff, false))
    } else {
        Option::None
    }
}

fn ends_with(s: &str, suf: &str) -> (r: bool)
    ensures
        r == has_suffix(s@, suf@),
{
    let n = s.unicode_len();
    let m = suf.unicode_len();
    if n < m {
        return false;
    }
    let mut i: usize = 0;
    while i < m
        invariant
            0 <= i <= m,
            m <= n,
            n == s@.len(),
            m == suf@.len(),
            forall|j: int| 0 <= j < i ==> s@[n - m + j] == suf@[j],
        decreases m - i,
    {
        if s.get_char(n - m + i) != suf.get_char(i) {
            proof {
                assert(s@.subrange(n - m, n as int)[i as int] != suf@[i as int]);
            }
            return false;
        }
        i = i + 1;
    }
    proof {
        assert(s@.subrange(n - m, n as int) =~= suf@);
    }
    true
}

/// Reads the dialect and compression off an output file name; an unknown
/// extension is a configuration error.
pub fn dialect_from_name(name: &str) -> (r: Result<(Dialect, bool), PipelineError>)
    ensures
        match r {
            Ok(p) => name_dialect(name@) == Option::Some(p),
            Err(e) => name_dialect(name@) is None && e == PipelineError::UnsupportedFormat,
        },
{
    proof {
        reveal_strlit(".gz");
        reveal_strlit(".gtf");
        reveal_strlit(".gff");
        reveal_strlit(".gff3");
    }
    if ends_with(name, ".gz") {
        let n = name.unicode_len();
        let inner = name.substring_char(0, n - 3);
        proof {
            assert(inner@ =~= name@.take(name@.len() - 3));
        }
        if ends_with(inner, ".gtf") {
            Ok((Dialect::Gtf, true))
        } else if ends_with(inner, ".gff") || ends_with(inner, ".gff3") {
            Ok((Dialect::Gff, true))
        } else {
            Err(PipelineError::UnsupportedFormat)
        }
    } else if ends_with(name, ".gtf") {
        Ok((Dialect::Gtf, false))
    } else if ends_with(name, ".gff") || ends_with(name, ".gff3") {
        Ok((Dialect::Gff, false))
    } else {
        Err(PipelineError::UnsupportedFormat)
    }
}

// ---------------------------------------------------------------------------
// The run
// ---------------------------------------------------------------------------
/// The gene feature lines, one per gene the mapping names, in first-seen
/// order.
pub open spec fn gene_lines_spec(
    iso: Seq<(Seq<char>, Seq<char>)>,
    tm: Map<Seq<char>, CoordV>,
    d: Dialect,
) -> Seq<GxfLineV> {
    Seq::new(
        gene_keys(iso, tm).len(),
        |i: int| gene_line_spec(d, gene_keys(iso, tm)[i], env_fold(iso, tm)[gene_keys(iso, tm)[i]]),
    )
}

/// The per-transcript lines of a record list, concatenated in input
/// order.
pub open spec fn records_lines(
    records: Seq<BedRecord>,
    iso: Seq<(Seq<char>, Seq<char>)>,
    d: Dialect,
) -> Seq<GxfLineV>
    decreases records.len(),
{
    if records.len() == 0 {
        Seq::empty()
    } else {
        records_lines(records.drop_last(), iso, d) + emit_spec(
            records.last(),
            the_gene(iso, records.last()),
            d,
        )
    }
}

/// Everything a run emits before sorting: gene lines first, then each
/// record's features.
pub open spec fn pre_sort_lines(
    records: Seq<BedRecord>,
    iso: Seq<(Seq<char>, Seq<char>)>,
    d: Dialect,
) -> Seq<GxfLineV> {
    gene_lines_spec(iso, track_map(records), d) + records_lines(records, iso, d)
}

/// The isoform pairs a run uses: none when gene lines are disabled.
pub open spec fn run_pairs(iso_text: Option<&str>, no_gene: bool) -> Seq<(Seq<char>, Seq<char>)> {
    if no_gene {
        Seq::empty()
    } else {
        match iso_text {
            Option::Some(t) => pairs_of(spec_lines(t@), true),
            Option::None => Seq::empty(),
        }
    }
}

/// How a successful run's output relates to its inputs: `records` are
/// the parsed lines, and `sorted` is the ordering of the emitted lines
/// the output renders.
#[verifier::opaque]
pub open spec fn run_output(
    records: Seq<BedRecord>,
    sorted: Seq<GxfLineV>,
    bed: Seq<char>,
    iso: Seq<(Seq<char>, Seq<char>)>,
    d: Dialect,
    out: Seq<String>,
) -> bool {
    &&& records.len() == spec_lines(bed).len()
    &&& (forall|i: int|
        0 <= i < records.len() ==> record_matches(#[trigger] records[i], spec_lines(bed)[i]))
    &&& (forall|i: int|
        0 <= i < records.len() ==> !gene_missing(iso, #[trigger] records[i]) && !codon_missing(
            records[i],
        ))
    &&& sorted.to_multiset() == pre_sort_lines(records, iso, d).to_multiset()
    &&& sorted_adjacent(sorted)
    &&& out.len() == sorted.len()
    &&& (forall|i: int| 0 <= i < out.len() ==> (#[trigger] out[i])@ == line_text(sorted[i]))
}

/// How a per-record failure relates to its inputs: the records before
/// `k` emit cleanly, and record `k` is the one that cannot.
#[verifier::opaque]
pub open spec fn run_failure(
    records: Seq<BedRecord>,
    k: int,
    bed: Seq<char>,
    iso: Seq<(Seq<char>, Seq<char>)>,
    e: PipelineError,
) -> bool {
    &&& records.len() == spec_lines(bed).len()
    &&& (forall|i: int|
        0 <= i < records.len() ==> record_matches(#[trigger] records[i], spec_lines(bed)[i]))
    &&& 0 <= k < records.len()
    &&& (forall|j: int|
        0 <= j < k ==> !gene_missing(iso, #[trigger] records[j]) && !codon_missing(records[j]))
    &&& if gene_missing(iso, records[k]) {
        e == PipelineError::MissingGene
    } else {
        codon_missing(records[k]) && e == PipelineError::CodonResolution
    }
}

/// A successful run: some parse of the lines and some ordering of the
/// emitted lines explain the output.
pub open spec fn run_ok(
    bed: Seq<char>,
    iso: Seq<(Seq<char>, Seq<char>)>,
    d: Dialect,
    out: Seq<String>,
) -> bool {
    exists|records: Seq<BedRecord>, sorted: Seq<GxfLineV>|
        #[trigger] run_output(records, sorted, bed, iso, d, out)
}

/// A failed run: exactly one of the three failure classes, in the order
/// the run checks them.
pub open spec fn run_err(
    bed: Seq<char>,
    iso: Seq<(Seq<char>, Seq<char>)>,
    no_gene: bool,
    e: PipelineError,
) -> bool {
    ||| (!no_gene && iso.len() == 0 && e == PipelineError::EmptyIsoformMap)
    ||| ((no_gene || iso.len() > 0) && !all_parse_ok(spec_lines(bed)) && e
        == PipelineError::MalformedRecord)
    ||| ((no_gene || iso.len() > 0) && all_parse_ok(spec_lines(bed)) && exists|
        records: Seq<BedRecord>,
        k: int,
    | #[trigger] run_failure(records, k, bed, iso, e))
}

/// Converts a whole interval text to ordered annotation lines.
///
/// Fails, in this order of checks: when a supplied mapping holds no
/// usable pair; when an interval line is malformed; and per record, in
/// input order, when its gene lookup misses or its codons cannot be
/// resolved.  On success the output renders exactly one permutation of
/// the lines `pre_sort_lines` describes, adjacent lines ordered by the
/// natural-order-then-start comparison.
#[verifier::rlimit(100)]
#[verifier::spinoff_prover]
pub fn convert_to_gxf(bed: &str, isoforms: Option<&str>, dialect: Dialect, no_gene: bool) -> (res:
    Result<Vec<String>, PipelineError>)
    requires
        no_gene || isoforms is Some,
    ensures
        res is Ok ==> (!no_gene ==> run_pairs(isoforms, no_gene).len() > 0) && all_parse_ok(
            spec_lines(bed@),
        ) && run_ok(bed@, run_pairs(isoforms, no_gene), dialect, (res->Ok_0)@),
        res is Err ==> run_err(bed@, run_pairs(isoforms, no_gene), no_gene, res->Err_0),
{
    let ghost iso_pv = run_pairs(isoforms, no_gene);
    let pairs: Vec<IsoPair> = if no_gene {
        Vec::new()
    } else {
        match isoforms {
            Some(t) => {
                let p = parallel_hash_rev(t);
                if p.len() == 0 {
                    return Err(PipelineError::EmptyIsoformMap);
                }
                p
            },
            None => {
                proof {
                    assert(false);
                }
                Vec::new()
            },
        }
    };
    proof {
        assert(pairs_view(pairs@) == iso_pv);
    }
    let records = match parallel_parse(bed) {
        Ok(v) => v,
        Err(e) => { return Err(e) },
    };
    proof {
        assert(forall|j: int|
            0 <= j < records@.len() ==> well_formed(#[trigger] records@[j]));
    }
    let gene_track = custom_par_parse(&records);
    let ghost tm = entries_map(gene_track@);
    let mut all: Vec<GxfLine> = combine_maps_par(&pairs, &gene_track, dialect);
    proof {
        assert(tm == track_map(records@));
        assert(all@.map_values(|l: GxfLine| l@) =~= gene_lines_spec(iso_pv, tm, dialect));
    }
    let n = records.len();
    let mut k: usize = 0;
    while k < n
        invariant
            0 <= k <= n,
            n == records@.len(),
            pairs_view(pairs@) == iso_pv,
            iso_pv == run_pairs(isoforms, no_gene),
            no_gene || iso_pv.len() > 0,
            all_parse_ok(spec_lines(bed@)),
            tm == track_map(records@),
            forall|j: int| 0 <= j < records@.len() ==> well_formed(#[trigger] records@[j]),
            forall|j: int|
                0 <= j < records@.len() ==> record_matches(
                    #[trigger] records@[j],
                    spec_lines(bed@)[j],
                ),
            records@.len() == spec_lines(bed@).len(),
            forall|j: int|
                0 <= j < k ==> !gene_missing(iso_pv, #[trigger] records@[j]) && !codon_missing(
                    records@[j],
                ),
            all@.map_values(|l: GxfLine| l@) == gene_lines_spec(iso_pv, tm, dialect)
                + records_lines(records@.take(k as int), iso_pv, dialect),
        decreases n - k,
    {
        proof {
            assert(records@.take(k + 1).drop_last() =~= records@.take(k as int));
            assert(records@.take(k + 1).last() == records@[k as int]);
        }
        let ghost before = all@.map_values(|l: GxfLine| l@);
        match to_gxf(&records[k], &pairs, dialect) {
            Ok(mut lines) => {
                let ghost got = lines@.map_values(|l: GxfLine| l@);
                all.append(&mut lines);
                proof {
                    assert(all@.map_values(|l: GxfLine| l@) =~= before + got);
                    assert(all@.map_values(|l: GxfLine| l@) =~= gene_lines_spec(iso_pv, tm, dialect)
                        + records_lines(records@.take(k + 1), iso_pv, dialect));
                }
            },
            Err(e) => {
                proof {
                    assert(run_failure(records@, k as int, bed@, iso_pv, e)) by {
                        reveal(run_failure);
                    }
                    assert(run_failure(
                        records@,
                        k as int,
                        bed@,
                        run_pairs(isoforms, no_gene),
                        e,
                    ));
                }
                return Err(e);
            },
        }
        k = k + 1;
    }
    proof {
        assert(records@.take(n as int) =~= records@);
    }
    let sorted = sort_lines(all);
    let out = serialize_lines(&sorted);
    proof {
        assert(lines_view(sorted@).to_multiset() == pre_sort_lines(
            records@,
            iso_pv,
            dialect,
        ).to_multiset());
        assert(forall|i: int|
            0 <= i < out@.len() ==> (#[trigger] out@[i])@ == line_text(lines_view(sorted@)[i]));
        assert(run_output(records@, lines_view(sorted@), bed@, iso_pv, dialect, out@)) by {
            reveal(run_output);
        }
        assert(run_output(
            records@,
            lines_view(sorted@),
            bed@,
            run_pairs(isoforms, no_gene),
            dialect,
            out@,
        ));
        assert(run_ok(bed@, run_pairs(isoforms, no_gene), dialect, out@));
    }
    Ok(out)
}

} // verus!
