//! The feature emitter's line builders: one annotation line per feature,
//! with dialect-specific attribute text, and the final tab-separated
//! rendering.
use vstd::prelude::*;

use crate::Strand;
use crate::bed::{BedRecord, well_formed};
use crate::codon::Codon;
use crate::text::{dec_str, str_eq, u32_to_string};

verus! {

/// The two attribute syntaxes a run can emit.
#[derive(Clone, Copy, PartialEq, Eq, Structural, Debug)]
pub enum Dialect {
    /// `key "value";` pairs, space-joined.
    Gtf,
    /// `key=value` pairs, semicolon-joined.
    Gff,
}

/// One emitted annotation line, before sorting and rendering.
#[derive(Debug)]
pub struct GxfLine {
    pub chrom: String,
    pub feature: String,
    /// 1-based inclusive start.
    pub start: u32,
    pub end: u32,
    pub strand: Strand,
    pub phase: String,
    pub attr: String,
}

/// The mathematical image of a line.
#[verifier::ext_equal]
pub ghost struct GxfLineV {
    pub chrom: Seq<char>,
    pub feature: Seq<char>,
    pub start: int,
    pub end: int,
    pub strand: Strand,
    pub phase: Seq<char>,
    pub attr: Seq<char>,
}

impl View for GxfLine {
    type V = GxfLineV;

    open spec fn view(&self) -> GxfLineV {
        GxfLineV {
            chrom: self.chrom@,
            feature: self.feature@,
            start: self.start as int,
            end: self.end as int,
            strand: self.strand,
            phase: self.phase@,
            attr: self.attr@,
        }
    }
}

/// The wire-format phase: consumed-bases modulo three, with one and two
/// exchanged, since the formats state bases *remaining* to the next codon.
pub open spec fn phase_str(frame: int) -> Seq<char> {
    if frame == 0 {
        "0"@
    } else if frame == 1 {
        "2"@
    } else if frame == 2 {
        "1"@
    } else {
        "."@
    }
}

fn phase_literal(frame: u32) -> (r: &'static str)
    ensures
        r@ == phase_str(frame as int),
{
    match frame {
        0 => "0",
        1 => "2",
        2 => "1",
        _ => ".",
    }
}

/// The 1-based exon number in transcript order: ascending genomically on
/// `+`, descending on `-`.
pub open spec fn exon_number(r: BedRecord, exon: int) -> int {
    if r.strand == Strand::Plus {
        exon + 1
    } else {
        r.exon_count as int - exon
    }
}

/// The space-joined `key "value";` attribute text.
pub open spec fn gtf_attr(r: BedRecord, gene: Seq<char>, exon: int) -> Seq<char> {
    let base = "gene_id \""@ + gene + "\"; transcript_id \""@ + r.name@ + "\";"@;
    if exon >= 0 {
        base + " exon_number \""@ + dec_str(exon_number(r, exon)) + "\"; exon_id \""@ + r.name@
            + "."@ + dec_str(exon_number(r, exon)) + "\";"@
    } else {
        base
    }
}

/// The semicolon-joined `key=value` attribute text, with identifiers built
/// from the feature type, the transcript id and the exon number.
pub open spec fn gff_attr(r: BedRecord, gene: Seq<char>, feature: Seq<char>, exon: int) -> Seq<
    char,
> {
    if feature == "transcript"@ {
        "ID="@ + r.name@ + ";Parent="@ + gene + ";gene_id="@ + gene + ";transcript_id="@ + r.name@
    } else if exon >= 0 {
        "ID="@ + feature + ":"@ + r.name@ + "."@ + dec_str(exon_number(r, exon)) + ";Parent="@
            + r.name@ + ";gene_id="@ + gene + ";transcript_id="@ + r.name@ + ";exon_number="@
            + dec_str(exon_number(r, exon))
    } else {
        let prefix = if feature == "five_prime_utr"@ {
            "5UTR"@
        } else {
            "3UTR"@
        };
        "ID="@ + prefix + ":"@ + r.name@ + ";Parent="@ + r.name@ + ";gene_id="@ + gene
            + ";transcript_id="@ + r.name@
    }
}

/// The attribute text of one line in the given dialect.
pub open spec fn attr_spec(
    d: Dialect,
    r: BedRecord,
    gene: Seq<char>,
    feature: Seq<char>,
    exon: int,
) -> Seq<char> {
    match d {
        Dialect::Gtf => gtf_attr(r, gene, exon),
        Dialect::Gff => gff_attr(r, gene, feature, exon),
    }
}

/// The line one builder call appends: coordinates shifted to 1-based
/// inclusive form, the phase encoding applied, the attributes rendered.
pub open spec fn line_spec(
    d: Dialect,
    r: BedRecord,
    gene: Seq<char>,
    feature: Seq<char>,
    s: int,
    e: int,
    frame: int,
    exon: int,
) -> GxfLineV {
    GxfLineV {
        chrom: r.chrom@,
        feature: feature,
        start: s + 1,
        end: e,
        strand: r.strand,
        phase: phase_str(frame),
        attr: attr_spec(d, r, gene, feature, exon),
    }
}

/// The preconditions shared by the two builders: ordered transcript
/// bounds, an exon index inside the chain when one is given, and
/// coordinates that survive the 1-based shift.
pub open spec fn build_pre(r: BedRecord, exon_start: int, exon: int) -> bool {
    &&& r.tx_start < r.tx_end
    &&& exon_start < u32::MAX as int
    &&& exon >= 0 ==> exon < r.exon_count as int
}

/// Builds the exon-number attribute value.
fn exon_number_exec(record: &BedRecord, exon: i32) -> (num: u32)
    requires
        0 <= exon as int,
        (exon as int) < record.exon_count as int,
    ensures
        num as int == exon_number(*record, exon as int),
{
    if record.strand == Strand::Plus {
        exon as u32 + 1
    } else {
        record.exon_count as u32 - exon as u32
    }
}

/// Appends one line in the space-separated dialect.  `frame` above two
/// renders as `.`; a negative `exon` suppresses the exon attributes.
pub fn build_gtf_line(
    record: &BedRecord,
    gene: &String,
    gene_type: &str,
    exon_start: u32,
    exon_end: u32,
    frame: u32,
    exon: i32,
    result: &mut Vec<GxfLine>,
)
    requires
        build_pre(*record, exon_start as int, exon as int),
    ensures
        final(result)@.len() == old(result)@.len() + 1,
        forall|j: int| 0 <= j < old(result)@.len() ==> final(result)@[j] == old(result)@[j],
        final(result)@.last()@ == line_spec(
            Dialect::Gtf,
            *record,
            gene@,
            gene_type@,
            exon_start as int,
            exon_end as int,
            frame as int,
            exon as int,
        ),
{
    let mut attr = String::new();
    attr.append("gene_id \"");
    attr.append(gene.as_str());
    attr.append("\"; transcript_id \"");
    attr.append(record.name.as_str());
    attr.append("\";");
    if exon >= 0 {
        let num = exon_number_exec(record, exon);
        let num_text = u32_to_string(num);
        attr.append(" exon_number \"");
        attr.append(num_text.as_str());
        attr.append("\"; exon_id \"");
        attr.append(record.name.as_str());
        attr.append(".");
        attr.append(num_text.as_str());
        attr.append("\";");
    }
    proof {
        assert(attr@ =~= gtf_attr(*record, gene@, exon as int));
    }
    let line = GxfLine {
        chrom: record.chrom.clone(),
        feature: gene_type.to_owned(),
        start: exon_start + 1,
        end: exon_end,
        strand: record.strand,
        phase: phase_literal(frame).to_owned(),
        attr,
    };
    proof {
        assert(line@ =~= line_spec(
            Dialect::Gtf,
            *record,
            gene@,
            gene_type@,
            exon_start as int,
            exon_end as int,
            frame as int,
            exon as int,
        ));
    }
    result.push(line);
}

/// Appends one line in the equals-separated dialect.  A negative `exon` is
/// accepted only for the feature types the attribute grammar defines
/// without an exon: `transcript` and the two untranslated-region forms.
pub fn build_gff_line(
    record: &BedRecord,
    gene: &String,
    gene_type: &str,
    exon_start: u32,
    exon_end: u32,
    frame: u32,
    exon: i32,
    result: &mut Vec<GxfLine>,
)
    requires
        build_pre(*record, exon_start as int, exon as int),
        exon < 0 ==> gene_type@ == "transcript"@ || gene_type@ == "five_prime_utr"@ || gene_type@
            == "three_prime_utr"@,
    ensures
        final(result)@.len() == old(result)@.len() + 1,
        forall|j: int| 0 <= j < old(result)@.len() ==> final(result)@[j] == old(result)@[j],
        final(result)@.last()@ == line_spec(
            Dialect::Gff,
            *record,
            gene@,
            gene_type@,
            exon_start as int,
            exon_end as int,
            frame as int,
            exon as int,
        ),
{
    let mut attr = String::new();
    if str_eq(gene_type, "transcript") {
        attr.append("ID=");
        attr.append(record.name.as_str());
        attr.append(";Parent=");
        attr.append(gene.as_str());
        attr.append(";gene_id=");
        attr.append(gene.as_str());
        attr.append(";transcript_id=");
        attr.append(record.name.as_str());
    } else if exon >= 0 {
        let num = exon_number_exec(record, exon);
        let num_text = u32_to_string(num);
        attr.append("ID=");
        attr.append(gene_type);
        attr.append(":");
        attr.append(record.name.as_str());
        attr.append(".");
        attr.append(num_text.as_str());
        attr.append(";Parent=");
        attr.append(record.name.as_str());
        attr.append(";gene_id=");
        attr.append(gene.as_str());
        attr.append(";transcript_id=");
        attr.append(record.name.as_str());
        attr.append(";exon_number=");
        attr.append(num_text.as_str());
    } else {
        let prefix = if str_eq(gene_type, "five_prime_utr") {
            "5UTR"
        } else {
            "3UTR"
        };
        attr.append("ID=");
        attr.append(prefix);
        attr.append(":");
        attr.append(record.name.as_str());
        attr.append(";Parent=");
        attr.append(record.name.as_str());
        attr.append(";gene_id=");
        attr.append(gene.as_str());
        attr.append(";transcript_id=");
        attr.append(record.name.as_str());
    }
    proof {
        assert(attr@ =~= gff_attr(*record, gene@, gene_type@, exon as int));
    }
    let line = GxfLine {
        chrom: record.chrom.clone(),
        feature: gene_type.to_owned(),
        start: exon_start + 1,
        end: exon_end,
        strand: record.strand,
        phase: phase_literal(frame).to_owned(),
        attr,
    };
    proof {
        assert(line@ =~= line_spec(
            Dialect::Gff,
            *record,
            gene@,
            gene_type@,
            exon_start as int,
            exon_end as int,
            frame as int,
            exon as int,
        ));
    }
    result.push(line);
}

/// Whether exon `i` yields a coding-sequence line: the exon meets the
/// record's own coding bounds and its intersection with the
/// codon-adjusted bounds is non-empty.
pub open spec fn cds_emit(r: BedRecord, i: int, cds_start: int, cds_end: int) -> bool {
    let es = r.exon_start@[i] as int;
    let ee = r.exon_end@[i] as int;
    &&& (r.cds_start as int) < ee
    &&& es < (r.cds_end as int)
    &&& cds_lo(r, i, cds_start) < cds_hi(r, i, cds_end)
}

/// The left edge of the coding slice of exon `i`.
pub open spec fn cds_lo(r: BedRecord, i: int, cds_start: int) -> int {
    let es = r.exon_start@[i] as int;
    if es > cds_start {
        es
    } else {
        cds_start
    }
}

/// The right edge of the coding slice of exon `i`.
pub open spec fn cds_hi(r: BedRecord, i: int, cds_end: int) -> int {
    let ee = r.exon_end@[i] as int;
    if ee < cds_end {
        ee
    } else {
        cds_end
    }
}

/// Appends the coding-sequence line of exon `i`, when the exon holds
/// coding bases inside the adjusted bounds; otherwise leaves the output
/// untouched.
pub fn write_features(
    i: usize,
    record: &BedRecord,
    gene: &String,
    cds_start: u32,
    cds_end: u32,
    frame: u32,
    result: &mut Vec<GxfLine>,
    dialect: Dialect,
)
    requires
        well_formed(*record),
        (i as int) < record.exon_count as int,
    ensures
        forall|j: int| 0 <= j < old(result)@.len() ==> final(result)@[j] == old(result)@[j],
        cds_emit(*record, i as int, cds_start as int, cds_end as int) ==> final(result)@.len()
            == old(result)@.len() + 1 && final(result)@.last()@ == line_spec(
            dialect,
            *record,
            gene@,
            "CDS"@,
            cds_lo(*record, i as int, cds_start as int),
            cds_hi(*record, i as int, cds_end as int),
            frame as int,
            i as int,
        ),
        !cds_emit(*record, i as int, cds_start as int, cds_end as int) ==> final(result)@ == old(
            result,
        )@,
{
    let exon_start = record.exon_start[i];
    let exon_end = record.exon_end[i];
    if record.cds_start < exon_end && exon_start < record.cds_end {
        let start = if exon_start > cds_start {
            exon_start
        } else {
            cds_start
        };
        let end = if exon_end < cds_end {
            exon_end
        } else {
            cds_end
        };
        if start < end {
            match dialect {
                Dialect::Gff => build_gff_line(
                    record,
                    gene,
                    "CDS",
                    start,
                    end,
                    frame,
                    i as i32,
                    result,
                ),
                Dialect::Gtf => build_gtf_line(
                    record,
                    gene,
                    "CDS",
                    start,
                    end,
                    frame,
                    i as i32,
                    result,
                ),
            }
        }
    }
}

/// The one or two lines a codon feature renders to: the primary span, and
/// the secondary span when the codon straddles a junction.
pub open spec fn codon_lines(
    d: Dialect,
    r: BedRecord,
    gene: Seq<char>,
    feature: Seq<char>,
    c: Codon,
) -> Seq<GxfLineV> {
    let first = line_spec(d, r, gene, feature, c.start as int, c.end as int, 0, c.index as int);
    if c.start2 < c.end2 {
        seq![first, line_spec(
            d,
            r,
            gene,
            feature,
            c.start2 as int,
            c.end2 as int,
            0,
            c.index as int + 1,
        )]
    } else {
        seq![first]
    }
}

/// Appends a codon feature: its primary span, then its secondary span when
/// the codon is split across a junction.
pub fn write_codon(
    record: &BedRecord,
    gene: &String,
    gene_type: &str,
    codon: Codon,
    result: &mut Vec<GxfLine>,
    dialect: Dialect,
)
    requires
        record.tx_start < record.tx_end,
        codon.start < codon.end,
        (codon.index as int) < record.exon_count as int,
        codon.start2 < codon.end2 ==> codon.index as int + 1 < record.exon_count as int,
    ensures
        final(result)@.len() == old(result)@.len() + codon_lines(
            dialect,
            *record,
            gene@,
            gene_type@,
            codon,
        ).len(),
        forall|j: int| 0 <= j < old(result)@.len() ==> final(result)@[j] == old(result)@[j],
        forall|j: int|
            0 <= j < codon_lines(dialect, *record, gene@, gene_type@, codon).len()
                ==> final(result)@[old(result)@.len() + j]@ == codon_lines(
                dialect,
                *record,
                gene@,
                gene_type@,
                codon,
            )[j],
{
    match dialect {
        Dialect::Gff => build_gff_line(
            record,
            gene,
            gene_type,
            codon.start,
            codon.end,
            0,
            codon.index as i32,
            result,
        ),
        Dialect::Gtf => build_gtf_line(
            record,
            gene,
            gene_type,
            codon.start,
            codon.end,
            0,
            codon.index as i32,
            result,
        ),
    }
    if codon.start2 < codon.end2 {
        match dialect {
            Dialect::Gff => build_gff_line(
                record,
                gene,
                gene_type,
                codon.start2,
                codon.end2,
                0,
                codon.index as i32 + 1,
                result,
            ),
            Dialect::Gtf => build_gtf_line(
                record,
                gene,
                gene_type,
                codon.start2,
                codon.end2,
                0,
                codon.index as i32 + 1,
                result,
            ),
        }
    }
}

// ---------------------------------------------------------------------------
// Rendering
// ---------------------------------------------------------------------------
/// The strand column.
pub open spec fn strand_seq(s: Strand) -> Seq<char> {
    if s == Strand::Plus {
        "+"@
    } else {
        "-"@
    }
}

/// The nine tab-separated columns of one rendered line.
pub open spec fn line_text(l: GxfLineV) -> Seq<char> {
    l.chrom + "\t"@ + "bed2gxf"@ + "\t"@ + l.feature + "\t"@ + dec_str(l.start) + "\t"@ + dec_str(
        l.end,
    ) + "\t"@ + "."@ + "\t"@ + strand_seq(l.strand) + "\t"@ + l.phase + "\t"@ + l.attr
}

/// Renders one line to its tab-separated text.
pub fn serialize_line(l: &GxfLine) -> (r: String)
    ensures
        r@ == line_text(l@),
{
    let mut out = String::new();
    out.append(l.chrom.as_str());
    out.append("\t");
    out.append("bed2gxf");
    out.append("\t");
    out.append(l.feature.as_str());
    out.append("\t");
    let start_text = u32_to_string(l.start);
    out.append(start_text.as_str());
    out.append("\t");
    let end_text = u32_to_string(l.end);
    out.append(end_text.as_str());
    out.append("\t");
    out.append(".");
    out.append("\t");
    out.append(l.strand.symbol());
    out.append("\t");
    out.append(l.phase.as_str());
    out.append("\t");
    out.append(l.attr.as_str());
    proof {
        assert(out@ =~= line_text(l@));
    }
    out
}

} // verus!
