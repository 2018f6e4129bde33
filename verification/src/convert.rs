//! The per-transcript feature emitter: one `transcript` line, exon lines
//! interleaved with coding-sequence lines, then the strand-dependent codon
//! features.
use vstd::prelude::*;

use crate::PipelineError;
use crate::Strand;
use crate::bed::{BedRecord, frame_of, well_formed};
use crate::codon::{
    Codon, codon_bases, codon_complete, fc_avail, fc_avail2, fc_exon, first_codon,
    first_codon_matches, last_codon, last_codon_matches, lc_avail, lc_avail2, lc_exon,
    lemma_first_codon_move_ok, lemma_last_codon_move_ok,
};
use crate::lines::{
    Dialect, GxfLine, GxfLineV, build_gff_line, build_gtf_line, cds_emit, cds_hi, cds_lo,
    codon_lines, line_spec, write_codon, write_features,
};
use crate::translate::{move_pos, splice_move};
use crate::utils::{IsoPair, iso_lookup, lookup_gene, pairs_view};

verus! {

/// Whether the genomically-left codon is complete: three bases across its
/// (at most) two spans.
pub open spec fn first_complete(r: BedRecord) -> bool {
    r.cds_start < r.cds_end && fc_avail(r) + fc_avail2(r) == 3
}

/// Whether the genomically-right codon is complete.
pub open spec fn last_complete(r: BedRecord) -> bool {
    r.cds_start < r.cds_end && lc_avail(r) + lc_avail2(r) == 3
}

/// The coding start used for per-exon slicing: pushed three bases along
/// the splice when the record is on `-` and its right-to-left stop codon
/// (the genomically-left codon) is complete.
pub open spec fn adj_cds_start(r: BedRecord) -> int {
    if r.strand == Strand::Minus && first_complete(r) {
        splice_move(r, r.cds_start as int, 3)
    } else {
        r.cds_start as int
    }
}

/// The coding end used for per-exon slicing: pulled three bases back along
/// the splice when the record is on `+` and its stop codon is complete.
pub open spec fn adj_cds_end(r: BedRecord) -> int {
    if r.strand == Strand::Plus && last_complete(r) {
        splice_move(r, r.cds_end as int, -3)
    } else {
        r.cds_end as int
    }
}

/// The line(s) of the genomically-left codon as a feature.
pub open spec fn start_lines(r: BedRecord, gene: Seq<char>, d: Dialect, feature: Seq<char>) -> Seq<
    GxfLineV,
> {
    let i = fc_exon(r);
    let first = line_spec(
        d,
        r,
        gene,
        feature,
        r.cds_start as int,
        r.cds_start as int + fc_avail(r),
        0,
        i,
    );
    if fc_avail2(r) > 0 {
        seq![first, line_spec(
            d,
            r,
            gene,
            feature,
            r.exon_start@[i + 1] as int,
            r.exon_start@[i + 1] as int + fc_avail2(r),
            0,
            i + 1,
        )]
    } else {
        seq![first]
    }
}

/// The line(s) of the genomically-right codon as a feature.
pub open spec fn end_lines(r: BedRecord, gene: Seq<char>, d: Dialect, feature: Seq<char>) -> Seq<
    GxfLineV,
> {
    let j = lc_exon(r);
    if lc_avail2(r) > 0 {
        seq![line_spec(
            d,
            r,
            gene,
            feature,
            r.exon_end@[j - 1] as int - lc_avail2(r),
            r.exon_end@[j - 1] as int,
            0,
            j - 1,
        ), line_spec(
            d,
            r,
            gene,
            feature,
            r.cds_end as int - lc_avail(r),
            r.cds_end as int,
            0,
            j,
        )]
    } else {
        seq![line_spec(
            d,
            r,
            gene,
            feature,
            r.cds_end as int - lc_avail(r),
            r.cds_end as int,
            0,
            j,
        )]
    }
}

/// The codon features, roles assigned by strand: on `+` the left codon
/// starts translation and the right one stops it; on `-` the roles invert.
/// An incomplete codon is skipped entirely.
pub open spec fn codon_tail(r: BedRecord, gene: Seq<char>, d: Dialect) -> Seq<GxfLineV> {
    if r.strand == Strand::Plus {
        (if first_complete(r) {
            start_lines(r, gene, d, "start_codon"@)
        } else {
            Seq::empty()
        }) + (if last_complete(r) {
            end_lines(r, gene, d, "stop_codon"@)
        } else {
            Seq::empty()
        })
    } else {
        (if last_complete(r) {
            end_lines(r, gene, d, "start_codon"@)
        } else {
            Seq::empty()
        }) + (if first_complete(r) {
            start_lines(r, gene, d, "stop_codon"@)
        } else {
            Seq::empty()
        })
    }
}

/// The exon line of exon `i` followed by its coding-sequence line when the
/// exon holds coding bases inside the adjusted bounds.
pub open spec fn exon_block(
    r: BedRecord,
    gene: Seq<char>,
    d: Dialect,
    i: int,
    csa: int,
    cea: int,
) -> Seq<GxfLineV> {
    let ex = line_spec(
        d,
        r,
        gene,
        "exon"@,
        r.exon_start@[i] as int,
        r.exon_end@[i] as int,
        3,
        i,
    );
    if cds_emit(r, i, csa, cea) {
        seq![ex, line_spec(d, r, gene, "CDS"@, cds_lo(r, i, csa), cds_hi(r, i, cea), frame_of(
            r,
            i,
        ), i)]
    } else {
        seq![ex]
    }
}

/// The blocks of the exons before `k`, in genomic order.
pub open spec fn exon_blocks(
    r: BedRecord,
    gene: Seq<char>,
    d: Dialect,
    k: int,
    csa: int,
    cea: int,
) -> Seq<GxfLineV>
    decreases k,
{
    if k <= 0 {
        Seq::empty()
    } else {
        exon_blocks(r, gene, d, k - 1, csa, cea) + exon_block(r, gene, d, k - 1, csa, cea)
    }
}

/// Everything one record emits, in emission order: the transcript line,
/// the exon blocks, the codon features.
pub open spec fn emit_spec(r: BedRecord, gene: Seq<char>, d: Dialect) -> Seq<GxfLineV> {
    seq![line_spec(d, r, gene, "transcript"@, r.tx_start as int, r.tx_end as int, 3, -1)]
        + exon_blocks(r, gene, d, r.exon_count as int, adj_cds_start(r), adj_cds_end(r))
        + codon_tail(r, gene, d)
}

/// A mapping was supplied but holds no gene for this transcript.
pub open spec fn gene_missing(iso: Seq<(Seq<char>, Seq<char>)>, r: BedRecord) -> bool {
    iso.len() > 0 && iso_lookup(iso, r.name@) is None
}

/// The gene name used for a record: the mapped name when a mapping was
/// supplied, the transcript's own identifier otherwise.
pub open spec fn the_gene(iso: Seq<(Seq<char>, Seq<char>)>, r: BedRecord) -> Seq<char> {
    if iso.len() == 0 {
        r.name@
    } else {
        iso_lookup(iso, r.name@).unwrap()
    }
}

/// A coding region is advertised but one of its edge bases is off the
/// exon chain, so no codon can be resolved.
pub open spec fn codon_missing(r: BedRecord) -> bool {
    r.cds_start < r.cds_end && (fc_exon(r) == -1 || lc_exon(r) == -1)
}

/// An incomplete codon never adjusts the coding bounds and never yields
/// a codon feature: with both codons incomplete the codon tail is empty.
pub proof fn lemma_incomplete_codon_unused(r: BedRecord, gene: Seq<char>, d: Dialect)
    ensures
        !first_complete(r) ==> adj_cds_start(r) == r.cds_start as int,
        !last_complete(r) ==> adj_cds_end(r) == r.cds_end as int,
        !first_complete(r) && !last_complete(r) ==> codon_tail(r, gene, d) =~= Seq::<
            GxfLineV,
        >::empty(),
{
}

/// Emits every feature line of one record: fails fast when the gene
/// lookup misses or no codon can be resolved, and otherwise produces
/// exactly the lines `emit_spec` describes.
#[verifier::rlimit(100)]
pub fn to_gxf(bedline: &BedRecord, isoforms: &Vec<IsoPair>, dialect: Dialect) -> (res: Result<
    Vec<GxfLine>,
    PipelineError,
>)
    requires
        well_formed(*bedline),
    ensures
        match res {
            Ok(lines) => !gene_missing(pairs_view(isoforms@), *bedline) && !codon_missing(*bedline)
                && lines@.map_values(|l: GxfLine| l@) == emit_spec(
                *bedline,
                the_gene(pairs_view(isoforms@), *bedline),
                dialect,
            ),
            Err(e) => (gene_missing(pairs_view(isoforms@), *bedline) && e
                == PipelineError::MissingGene) || (!gene_missing(pairs_view(isoforms@), *bedline)
                && codon_missing(*bedline) && e == PipelineError::CodonResolution),
        },
{
    let r = bedline;
    let gene: String = if isoforms.len() == 0 {
        r.name.clone()
    } else {
        match lookup_gene(isoforms, &r.name) {
            Some(g) => g,
            None => { return Err(PipelineError::MissingGene) },
        }
    };
    let fcodon = match first_codon(r) {
        Some(c) => c,
        None => { return Err(PipelineError::CodonResolution) },
    };
    let lcodon = match last_codon(r) {
        Some(c) => c,
        None => { return Err(PipelineError::CodonResolution) },
    };
    let frames = r.get_frames();
    let coding = r.cds_start < r.cds_end;
    proof {
        if coding {
            crate::codon::lemma_find_exon_props(*r, r.cds_end as int - 1, 0);
            crate::codon::lemma_find_exon_props(*r, r.cds_start as int, 0);
            assert(codon_bases(fcodon) == fc_avail(*r) + fc_avail2(*r));
            assert(codon_bases(lcodon) == lc_avail(*r) + lc_avail2(*r));
        } else {
            assert(codon_bases(fcodon) == 0);
            assert(codon_bases(lcodon) == 0);
        }
    }
    let complete_l = codon_complete(&lcodon);
    let complete_f = codon_complete(&fcodon);
    let cds_end_adj: u32 = if r.strand == Strand::Plus && complete_l {
        let stop_edge = if lcodon.start2 < lcodon.end2 {
            lcodon.end2
        } else {
            lcodon.end
        };
        proof {
            assert(stop_edge == r.cds_end);
            lemma_last_codon_move_ok(*r);
        }
        match move_pos(r, stop_edge, -3) {
            Ok(q) => q,
            Err(_) => {
                proof {
                    assert(false);
                }
                return Err(PipelineError::CodonResolution);
            },
        }
    } else {
        r.cds_end
    };
    let cds_start_adj: u32 = if r.strand == Strand::Minus && complete_f {
        proof {
            assert(fcodon.start == r.cds_start);
            lemma_first_codon_move_ok(*r);
        }
        match move_pos(r, fcodon.start, 3) {
            Ok(q) => q,
            Err(_) => {
                proof {
                    assert(false);
                }
                return Err(PipelineError::CodonResolution);
            },
        }
    } else {
        r.cds_start
    };
    proof {
        assert(cds_start_adj as int == adj_cds_start(*r));
        assert(cds_end_adj as int == adj_cds_end(*r));
    }
    let ghost gname = gene@;
    let ghost csa = cds_start_adj as int;
    let ghost cea = cds_end_adj as int;
    let ghost tline = line_spec(
        dialect,
        *r,
        gname,
        "transcript"@,
        r.tx_start as int,
        r.tx_end as int,
        3,
        -1,
    );
    let mut result: Vec<GxfLine> = Vec::new();
    match dialect {
        Dialect::Gff => build_gff_line(r, &gene, "transcript", r.tx_start, r.tx_end, 3, -1,
            &mut result),
        Dialect::Gtf => build_gtf_line(r, &gene, "transcript", r.tx_start, r.tx_end, 3, -1,
            &mut result),
    }
    proof {
        assert(result@.map_values(|l: GxfLine| l@) =~= seq![tline] + exon_blocks(
            *r,
            gname,
            dialect,
            0,
            csa,
            cea,
        ));
    }
    let n = r.exon_count as usize;
    let mut i: usize = 0;
    while i < n
        invariant
            0 <= i <= n,
            n == r.exon_count as int,
            well_formed(*r),
            gname == gene@,
            frames@.len() == n as int,
            forall|j: int| 0 <= j < n ==> #[trigger] frames@[j] as int == frame_of(*r, j),
            result@.map_values(|l: GxfLine| l@) == seq![tline] + exon_blocks(
                *r,
                gname,
                dialect,
                i as int,
                csa,
                cea,
            ),
            csa == cds_start_adj as int,
            cea == cds_end_adj as int,
        decreases n - i,
    {
        let ghost before = result@.map_values(|l: GxfLine| l@);
        match dialect {
            Dialect::Gff => build_gff_line(
                r,
                &gene,
                "exon",
                r.exon_start[i],
                r.exon_end[i],
                3,
                i as i32,
                &mut result,
            ),
            Dialect::Gtf => build_gtf_line(
                r,
                &gene,
                "exon",
                r.exon_start[i],
                r.exon_end[i],
                3,
                i as i32,
                &mut result,
            ),
        }
        proof {
            assert(result@.map_values(|l: GxfLine| l@) =~= before + seq![line_spec(
                dialect,
                *r,
                gname,
                "exon"@,
                r.exon_start@[i as int] as int,
                r.exon_end@[i as int] as int,
                3,
                i as int,
            )]);
        }
        let ghost with_exon = result@.map_values(|l: GxfLine| l@);
        write_features(i, r, &gene, cds_start_adj, cds_end_adj, frames[i], &mut result, dialect);
        proof {
            if cds_emit(*r, i as int, csa, cea) {
                assert(result@.map_values(|l: GxfLine| l@) =~= with_exon + seq![line_spec(
                    dialect,
                    *r,
                    gname,
                    "CDS"@,
                    cds_lo(*r, i as int, csa),
                    cds_hi(*r, i as int, cea),
                    frame_of(*r, i as int),
                    i as int,
                )]);
            } else {
                assert(result@.map_values(|l: GxfLine| l@) =~= with_exon);
            }
            assert(result@.map_values(|l: GxfLine| l@) =~= seq![tline] + exon_blocks(
                *r,
                gname,
                dialect,
                i as int + 1,
                csa,
                cea,
            ));
        }
        i = i + 1;
    }
    proof {
        assert(result@.map_values(|l: GxfLine| l@) == seq![tline] + exon_blocks(
            *r,
            gname,
            dialect,
            r.exon_count as int,
            csa,
            cea,
        ));
    }
    emit_codons(r, &gene, fcodon, lcodon, complete_f, complete_l, &mut result, dialect);
    proof {
        assert(result@.map_values(|l: GxfLine| l@) =~= emit_spec(*r, gname, dialect));
    }
    proof {
        assert(the_gene(pairs_view(isoforms@), *bedline) == gname);
    }
    Ok(result)
}

/// Appends the strand-assigned codon features of one record.
#[verifier::rlimit(100)]
fn emit_codons(
    r: &BedRecord,
    gene: &String,
    fcodon: Codon,
    lcodon: Codon,
    complete_f: bool,
    complete_l: bool,
    result: &mut Vec<GxfLine>,
    dialect: Dialect,
)
    requires
        well_formed(*r),
        complete_f == first_complete(*r),
        complete_l == last_complete(*r),
        first_complete(*r) ==> fc_exon(*r) >= 0 && first_codon_matches(*r, fcodon),
        last_complete(*r) ==> lc_exon(*r) >= 0 && last_codon_matches(*r, lcodon),
    ensures
        final(result)@.map_values(|l: GxfLine| l@) == old(result)@.map_values(|l: GxfLine| l@)
            + codon_tail(*r, gene@, dialect),
{
    let ghost gname = gene@;
    let ghost body = old(result)@.map_values(|l: GxfLine| l@);
    proof {
        if first_complete(*r) {
            crate::codon::lemma_find_exon_props(*r, r.cds_start as int, 0);
            assert(fcodon.start < fcodon.end);
            assert((fcodon.start2 < fcodon.end2) == (fc_avail2(*r) > 0));
        }
        if last_complete(*r) {
            crate::codon::lemma_find_exon_props(*r, r.cds_end as int - 1, 0);
            assert(lcodon.start < lcodon.end);
            assert((lcodon.start2 < lcodon.end2) == (lc_avail2(*r) > 0));
        }
    }
    if r.strand != Strand::Minus {
        if complete_f {
            write_codon(r, gene, "start_codon", fcodon, result, dialect);
            proof {
                assert(codon_lines(dialect, *r, gname, "start_codon"@, fcodon) =~= start_lines(
                    *r,
                    gname,
                    dialect,
                    "start_codon"@,
                ));
            }
        }
        let ghost mid = result@.map_values(|l: GxfLine| l@);
        proof {
            assert(mid =~= body + (if first_complete(*r) {
                start_lines(*r, gname, dialect, "start_codon"@)
            } else {
                Seq::<GxfLineV>::empty()
            }));
        }
        if complete_l {
            write_codon(r, gene, "stop_codon", lcodon, result, dialect);
            proof {
                assert(codon_lines(dialect, *r, gname, "stop_codon"@, lcodon) =~= end_lines(
                    *r,
                    gname,
                    dialect,
                    "stop_codon"@,
                ));
            }
        }
        proof {
            assert(result@.map_values(|l: GxfLine| l@) =~= mid + (if last_complete(*r) {
                end_lines(*r, gname, dialect, "stop_codon"@)
            } else {
                Seq::<GxfLineV>::empty()
            }));
            assert(result@.map_values(|l: GxfLine| l@) =~= body + codon_tail(*r, gname, dialect));
        }
    } else {
        if complete_l {
            write_codon(r, gene, "start_codon", lcodon, result, dialect);
            proof {
                assert(codon_lines(dialect, *r, gname, "start_codon"@, lcodon) =~= end_lines(
                    *r,
                    gname,
                    dialect,
                    "start_codon"@,
                ));
            }
        }
        let ghost mid = result@.map_values(|l: GxfLine| l@);
        proof {
            assert(mid =~= body + (if last_complete(*r) {
                end_lines(*r, gname, dialect, "start_codon"@)
            } else {
                Seq::<GxfLineV>::empty()
            }));
        }
        if complete_f {
            write_codon(r, gene, "stop_codon", fcodon, result, dialect);
            proof {
                assert(codon_lines(dialect, *r, gname, "stop_codon"@, fcodon) =~= start_lines(
                    *r,
                    gname,
                    dialect,
                    "stop_codon"@,
                ));
            }
        }
        proof {
            assert(result@.map_values(|l: GxfLine| l@) =~= mid + (if first_complete(*r) {
                start_lines(*r, gname, dialect, "stop_codon"@)
            } else {
                Seq::<GxfLineV>::empty()
            }));
            assert(result@.map_values(|l: GxfLine| l@) =~= body + codon_tail(*r, gname, dialect));
        }
    }
}

} // verus!
