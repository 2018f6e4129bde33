//! The gene aggregator: a first-seen coordinate table of the transcripts,
//! and gene-level envelope lines derived by an order-independent
//! min-start/max-end merge over the isoform mapping.
use vstd::prelude::*;
use vstd::pervasive::VecAdditionalExecFns;

use crate::Strand;
use crate::bed::BedRecord;
use crate::lines::{Dialect, GxfLine, GxfLineV, phase_str};
use crate::text::str_eq;
use crate::utils::IsoPair;

verus! {

/// One transcript's coordinates, keyed by its identifier.
pub struct TxEntry {
    pub name: String,
    pub chrom: String,
    pub start: u32,
    pub end: u32,
    pub strand: Strand,
}

/// The mathematical image of a coordinate entry or of a gene envelope.
#[verifier::ext_equal]
pub ghost struct CoordV {
    pub chrom: Seq<char>,
    pub start: int,
    pub end: int,
    pub strand: Strand,
}

/// The coordinates a record contributes.
pub open spec fn rec_coord(r: BedRecord) -> CoordV {
    CoordV { chrom: r.chrom@, start: r.tx_start as int, end: r.tx_end as int, strand: r.strand }
}

/// The coordinates an entry carries.
pub open spec fn entry_coord(e: TxEntry) -> CoordV {
    CoordV { chrom: e.chrom@, start: e.start as int, end: e.end as int, strand: e.strand }
}

/// The coordinate table of a record list: for each transcript identifier,
/// its first-seen coordinates; later duplicates are ignored.
pub open spec fn track_map(rs: Seq<BedRecord>) -> Map<Seq<char>, CoordV>
    decreases rs.len(),
{
    if rs.len() == 0 {
        Map::empty()
    } else {
        let m = track_map(rs.drop_last());
        if m.dom().contains(rs.last().name@) {
            m
        } else {
            m.insert(rs.last().name@, rec_coord(rs.last()))
        }
    }
}

/// An entry list read as a map, first occurrence of a key winning.
pub open spec fn entries_map(es: Seq<TxEntry>) -> Map<Seq<char>, CoordV>
    decreases es.len(),
{
    if es.len() == 0 {
        Map::empty()
    } else {
        let m = entries_map(es.drop_last());
        if m.dom().contains(es.last().name@) {
            m
        } else {
            m.insert(es.last().name@, entry_coord(es.last()))
        }
    }
}

pub proof fn lemma_entries_map_dom(es: Seq<TxEntry>, v: Seq<char>)
    ensures
        entries_map(es).dom().contains(v) <==> (exists|j: int|
            0 <= j < es.len() && (#[trigger] es[j]).name@ == v),
    decreases es.len(),
{
    if es.len() > 0 {
        lemma_entries_map_dom(es.drop_last(), v);
        assert(forall|j: int| 0 <= j < es.len() - 1 ==> es.drop_last()[j] == es[j]);
        if entries_map(es).dom().contains(v) && !entries_map(es.drop_last()).dom().contains(v) {
            assert(es[es.len() - 1].name@ == v);
        }
        if exists|j: int| 0 <= j < es.len() && (#[trigger] es[j]).name@ == v {
            let j = choose|j: int| 0 <= j < es.len() && (#[trigger] es[j]).name@ == v;
            if j < es.len() - 1 {
                assert(es.drop_last()[j].name@ == v);
            }
        }
    }
}

/// Builds the transcript coordinate table: one entry per identifier, the
/// first-seen coordinates kept, later duplicates ignored.
pub fn custom_par_parse(records: &Vec<BedRecord>) -> (r: Vec<TxEntry>)
    requires
        forall|j: int| 0 <= j < records@.len() ==> crate::bed::well_formed(#[trigger] records@[j]),
    ensures
        entries_map(r@) == track_map(records@),
        forall|j: int| 0 <= j < r@.len() ==> (#[trigger] r@[j]).start < u32::MAX,
{
    let mut out: Vec<TxEntry> = Vec::new();
    let n = records.len();
    let mut i: usize = 0;
    while i < n
        invariant
            0 <= i <= n,
            n == records@.len(),
            forall|j: int|
                0 <= j < records@.len() ==> crate::bed::well_formed(#[trigger] records@[j]),
            entries_map(out@) == track_map(records@.take(i as int)),
            forall|j: int| 0 <= j < out@.len() ==> (#[trigger] out@[j]).start < u32::MAX,
        decreases n - i,
    {
        proof {
            assert(records@.take(i + 1).drop_last() =~= records@.take(i as int));
            assert(records@.take(i + 1).last() == records@[i as int]);
        }
        let mut dup = false;
        let m = out.len();
        let mut k: usize = 0;
        while k < m
            invariant
                0 <= k <= m,
                m == out@.len(),
                i < n,
                n == records@.len(),
                dup == exists|j: int|
                    0 <= j < k && (#[trigger] out@[j]).name@ == records@[i as int].name@,
            decreases m - k,
        {
            if str_eq(out[k].name.as_str(), records[i].name.as_str()) {
                dup = true;
            }
            k = k + 1;
        }
        proof {
            lemma_entries_map_dom(out@, records@[i as int].name@);
        }
        if !dup {
            let ghost pre = out@;
            let rec = &records[i];
            out.push(
                TxEntry {
                    name: rec.name.clone(),
                    chrom: rec.chrom.clone(),
                    start: rec.tx_start,
                    end: rec.tx_end,
                    strand: rec.strand,
                },
            );
            proof {
                assert(out@.drop_last() =~= pre);
            }
        }
        proof {
            assert(entries_map(out@) =~= track_map(records@.take(i + 1)));
        }
        i = i + 1;
    }
    proof {
        assert(records@.take(n as int) =~= records@);
    }
    out
}

// ---------------------------------------------------------------------------
// Envelopes
// ---------------------------------------------------------------------------
/// Folds one isoform pair into the envelope map: a matched transcript
/// widens its gene's envelope (min start, max end), or opens it with the
/// transcript's own coordinates; chromosome and strand keep their first
/// writer.
pub open spec fn env_step(
    m: Map<Seq<char>, CoordV>,
    key: Seq<char>,
    gene: Seq<char>,
    track: Map<Seq<char>, CoordV>,
) -> Map<Seq<char>, CoordV> {
    if track.dom().contains(key) {
        let c = track[key];
        if m.dom().contains(gene) {
            let e = m[gene];
            m.insert(
                gene,
                CoordV {
                    chrom: e.chrom,
                    start: if c.start < e.start {
                        c.start
                    } else {
                        e.start
                    },
                    end: if c.end > e.end {
                        c.end
                    } else {
                        e.end
                    },
                    strand: e.strand,
                },
            )
        } else {
            m.insert(gene, c)
        }
    } else {
        m
    }
}

/// The envelope map of a pair list, folded left to right.
pub open spec fn env_fold(
    ps: Seq<(Seq<char>, Seq<char>)>,
    track: Map<Seq<char>, CoordV>,
) -> Map<Seq<char>, CoordV>
    decreases ps.len(),
{
    if ps.len() == 0 {
        Map::empty()
    } else {
        env_step(env_fold(ps.drop_last(), track), ps.last().0, ps.last().1, track)
    }
}

/// The pointwise merge of two envelope maps: min start, max end, and the
/// left map's chromosome and strand where both speak.
pub open spec fn env_merge(a: Map<Seq<char>, CoordV>, b: Map<Seq<char>, CoordV>) -> Map<
    Seq<char>,
    CoordV,
> {
    Map::new(
        |g: Seq<char>| a.dom().contains(g) || b.dom().contains(g),
        |g: Seq<char>|
            if a.dom().contains(g) && b.dom().contains(g) {
                CoordV {
                    chrom: a[g].chrom,
                    start: if b[g].start < a[g].start {
                        b[g].start
                    } else {
                        a[g].start
                    },
                    end: if b[g].end > a[g].end {
                        b[g].end
                    } else {
                        a[g].end
                    },
                    strand: a[g].strand,
                }
            } else if a.dom().contains(g) {
                a[g]
            } else {
                b[g]
            },
    )
}

/// Folding a concatenation equals folding the parts and merging: the
/// partition-local fold followed by the pairwise reduce computes the same
/// envelopes as one sequential pass.
pub proof fn lemma_env_fold_append(
    ps1: Seq<(Seq<char>, Seq<char>)>,
    ps2: Seq<(Seq<char>, Seq<char>)>,
    track: Map<Seq<char>, CoordV>,
)
    ensures
        env_fold(ps1 + ps2, track) =~= env_merge(env_fold(ps1, track), env_fold(ps2, track)),
    decreases ps2.len(),
{
    if ps2.len() == 0 {
        assert(ps1 + ps2 =~= ps1);
        assert(env_merge(env_fold(ps1, track), Map::empty()) =~= env_fold(ps1, track));
    } else {
        lemma_env_fold_append(ps1, ps2.drop_last(), track);
        assert((ps1 + ps2).drop_last() =~= ps1 + ps2.drop_last());
        lemma_env_step_merge(
            env_fold(ps1, track),
            env_fold(ps2.drop_last(), track),
            ps2.last().0,
            ps2.last().1,
            track,
        );
    }
}

proof fn lemma_env_step_merge(
    a: Map<Seq<char>, CoordV>,
    b: Map<Seq<char>, CoordV>,
    key: Seq<char>,
    gene: Seq<char>,
    track: Map<Seq<char>, CoordV>,
)
    ensures
        env_step(env_merge(a, b), key, gene, track) =~= env_merge(a, env_step(b, key, gene, track)),
{
}

/// Merging is commutative wherever the two sides agree on chromosome and
/// strand of the genes they share, so the reduce order cannot change the
/// result.
pub proof fn lemma_env_merge_commutes(a: Map<Seq<char>, CoordV>, b: Map<Seq<char>, CoordV>)
    requires
        forall|g: Seq<char>|
            a.dom().contains(g) && b.dom().contains(g) ==> (#[trigger] a[g]).chrom == b[g].chrom
                && a[g].strand == b[g].strand,
    ensures
        env_merge(a, b) =~= env_merge(b, a),
{
}

/// Merging is associative, so partition boundaries cannot change the
/// result either.
pub proof fn lemma_env_merge_assoc(
    a: Map<Seq<char>, CoordV>,
    b: Map<Seq<char>, CoordV>,
    c: Map<Seq<char>, CoordV>,
)
    ensures
        env_merge(env_merge(a, b), c) =~= env_merge(a, env_merge(b, c)),
{
}

// ---------------------------------------------------------------------------
// Gene lines
// ---------------------------------------------------------------------------
/// The genes that acquire an envelope, in first-seen order of the pair
/// list, matched pairs only.
pub open spec fn gene_keys(
    ps: Seq<(Seq<char>, Seq<char>)>,
    track: Map<Seq<char>, CoordV>,
) -> Seq<Seq<char>>
    decreases ps.len(),
{
    if ps.len() == 0 {
        Seq::empty()
    } else {
        let rest = gene_keys(ps.drop_last(), track);
        if track.dom().contains(ps.last().0) && !rest.contains(ps.last().1) {
            rest + seq![ps.last().1]
        } else {
            rest
        }
    }
}

/// The attribute text of a gene line.
pub open spec fn gene_attr(d: Dialect, gene: Seq<char>) -> Seq<char> {
    match d {
        Dialect::Gff => "ID="@ + gene + ";gene_id="@ + gene,
        Dialect::Gtf => "gene_id \""@ + gene + "\";"@,
    }
}

/// One gene feature line from an envelope.
pub open spec fn gene_line_spec(d: Dialect, gene: Seq<char>, c: CoordV) -> GxfLineV {
    GxfLineV {
        chrom: c.chrom,
        feature: "gene"@,
        start: c.start + 1,
        end: c.end,
        strand: c.strand,
        phase: phase_str(3),
        attr: gene_attr(d, gene),
    }
}

// ---------------------------------------------------------------------------
// The executable fold
// ---------------------------------------------------------------------------
/// One gene's envelope under construction.
pub struct GeneEnv {
    pub gene: String,
    pub chrom: String,
    pub start: u32,
    pub end: u32,
    pub strand: Strand,
}

/// The coordinates an envelope entry carries.
pub open spec fn genv_coord(e: GeneEnv) -> CoordV {
    CoordV { chrom: e.chrom@, start: e.start as int, end: e.end as int, strand: e.strand }
}

/// An envelope list read as a map, first occurrence of a gene winning.
pub open spec fn genv_map(es: Seq<GeneEnv>) -> Map<Seq<char>, CoordV>
    decreases es.len(),
{
    if es.len() == 0 {
        Map::empty()
    } else {
        let m = genv_map(es.drop_last());
        if m.dom().contains(es.last().gene@) {
            m
        } else {
            m.insert(es.last().gene@, genv_coord(es.last()))
        }
    }
}

/// The genes of an envelope list, in order.
pub open spec fn genv_keys(es: Seq<GeneEnv>) -> Seq<Seq<char>> {
    es.map_values(|e: GeneEnv| e.gene@)
}

/// Pairwise-distinct genes.
pub open spec fn genv_distinct(es: Seq<GeneEnv>) -> bool {
    forall|a: int, b: int|
        0 <= a < b < es.len() ==> (#[trigger] es[a]).gene@ != (#[trigger] es[b]).gene@
}

proof fn lemma_genv_dom(es: Seq<GeneEnv>, v: Seq<char>)
    ensures
        genv_map(es).dom().contains(v) <==> (exists|j: int|
            0 <= j < es.len() && (#[trigger] es[j]).gene@ == v),
    decreases es.len(),
{
    if es.len() > 0 {
        lemma_genv_dom(es.drop_last(), v);
        assert(forall|j: int| 0 <= j < es.len() - 1 ==> es.drop_last()[j] == es[j]);
        if genv_map(es).dom().contains(v) && !genv_map(es.drop_last()).dom().contains(v) {
            assert(es[es.len() - 1].gene@ == v);
        }
        if exists|j: int| 0 <= j < es.len() && (#[trigger] es[j]).gene@ == v {
            let j = choose|j: int| 0 <= j < es.len() && (#[trigger] es[j]).gene@ == v;
            if j < es.len() - 1 {
                assert(es.drop_last()[j].gene@ == v);
            }
        }
    }
}

proof fn lemma_genv_update(es: Seq<GeneEnv>, k: int, e: GeneEnv)
    requires
        genv_distinct(es),
        0 <= k < es.len(),
        es[k].gene@ == e.gene@,
    ensures
        genv_map(es.update(k, e)) =~= genv_map(es).insert(e.gene@, genv_coord(e)),
        genv_distinct(es.update(k, e)),
    decreases es.len(),
{
    let es2 = es.update(k, e);
    assert(forall|j: int| 0 <= j < es.len() && j != k ==> es2[j] == es[j]);
    if k == es.len() - 1 {
        assert(es2.drop_last() =~= es.drop_last());
        lemma_genv_dom(es.drop_last(), e.gene@);
        assert(!genv_map(es.drop_last()).dom().contains(e.gene@));
    } else {
        assert(es2.drop_last() =~= es.drop_last().update(k, e));
        assert(forall|j: int| 0 <= j < es.len() - 1 ==> es.drop_last()[j] == es[j]);
        lemma_genv_update(es.drop_last(), k, e);
        assert(es2.last() == es.last());
        assert(es.last().gene@ != e.gene@);
        lemma_genv_dom(es.drop_last(), es.last().gene@);
    }
}

/// Finds the first entry of the coordinate table with the given name; the
/// first entry is the one the table's map semantics keeps.
fn find_track(track: &Vec<TxEntry>, key: &String) -> (r: Option<usize>)
    ensures
        match r {
            Some(j) => j < track@.len() && track@[j as int].name@ == key@ && entries_map(
                track@,
            ).dom().contains(key@) && entries_map(track@)[key@] == entry_coord(track@[j as int]),
            None => !entries_map(track@).dom().contains(key@),
        },
{
    let n = track.len();
    let mut i: usize = 0;
    while i < n
        invariant
            0 <= i <= n,
            n == track@.len(),
            forall|j: int| 0 <= j < i ==> (#[trigger] track@[j]).name@ != key@,
        decreases n - i,
    {
        if str_eq(track[i].name.as_str(), key.as_str()) {
            proof {
                lemma_entries_first(track@, i as int);
            }
            return Some(i);
        }
        i = i + 1;
    }
    proof {
        lemma_entries_map_dom(track@, key@);
    }
    None
}

proof fn lemma_entries_first(es: Seq<TxEntry>, j: int)
    requires
        0 <= j < es.len(),
        forall|j2: int| 0 <= j2 < j ==> (#[trigger] es[j2]).name@ != es[j].name@,
    ensures
        entries_map(es).dom().contains(es[j].name@),
        entries_map(es)[es[j].name@] == entry_coord(es[j]),
    decreases es.len(),
{
    assert(forall|t: int| 0 <= t < es.len() - 1 ==> es.drop_last()[t] == es[t]);
    if j == es.len() - 1 {
        lemma_entries_map_dom(es.drop_last(), es[j].name@);
        if entries_map(es.drop_last()).dom().contains(es[j].name@) {
            let t = choose|t: int|
                0 <= t < es.drop_last().len() && (#[trigger] es.drop_last()[t]).name@ == es[
                    j
                ].name@;
            assert(false);
        }
    } else {
        lemma_entries_first(es.drop_last(), j);
    }
}

/// Derives one gene feature line per gene named by the isoform mapping and
/// present in the coordinate table: the envelope spans the minimum start
/// and maximum end over the gene's transcripts, chromosome and strand
/// taken from the first transcript seen.
pub fn combine_maps_par(
    isoforms: &Vec<IsoPair>,
    gene_track: &Vec<TxEntry>,
    dialect: Dialect,
) -> (r: Vec<GxfLine>)
    requires
        forall|j: int| 0 <= j < gene_track@.len() ==> (#[trigger] gene_track@[j]).start < u32::MAX,
    ensures
        r@.len() == gene_keys(
            crate::utils::pairs_view(isoforms@),
            entries_map(gene_track@),
        ).len(),
        forall|i: int|
            0 <= i < r@.len() ==> (#[trigger] r@[i])@ == gene_line_spec(
                dialect,
                gene_keys(crate::utils::pairs_view(isoforms@), entries_map(gene_track@))[i],
                env_fold(crate::utils::pairs_view(isoforms@), entries_map(gene_track@))[gene_keys(
                    crate::utils::pairs_view(isoforms@),
                    entries_map(gene_track@),
                )[i]],
            ),
{
    let ghost pv = crate::utils::pairs_view(isoforms@);
    let ghost tm = entries_map(gene_track@);
    let mut env: Vec<GeneEnv> = Vec::new();
    let n = isoforms.len();
    let mut i: usize = 0;
    while i < n
        invariant
            0 <= i <= n,
            n == isoforms@.len(),
            pv == crate::utils::pairs_view(isoforms@),
            tm == entries_map(gene_track@),
            genv_map(env@) == env_fold(pv.take(i as int), tm),
            genv_keys(env@) == gene_keys(pv.take(i as int), tm),
            genv_distinct(env@),
            forall|j: int|
                0 <= j < env@.len() ==> genv_map(env@)[(#[trigger] env@[j]).gene@] == genv_coord(
                    env@[j],
                ),
            forall|j: int| 0 <= j < env@.len() ==> (#[trigger] env@[j]).start < u32::MAX,
            forall|j: int|
                0 <= j < gene_track@.len() ==> (#[trigger] gene_track@[j]).start < u32::MAX,
        decreases n - i,
    {
        proof {
            assert(pv.take(i + 1).drop_last() =~= pv.take(i as int));
            assert(pv.take(i + 1).last() == pv[i as int]);
            assert(pv[i as int] == (isoforms@[i as int].key@, isoforms@[i as int].value@));
        }
        let key = &isoforms[i].key;
        let gene = &isoforms[i].value;
        match find_track(gene_track, key) {
            Some(t) => {
                // find this gene's envelope, if it is already open
                let m = env.len();
                let mut k: usize = 0;
                let mut found = false;
                let mut at: usize = 0;
                while k < m
                    invariant
                        0 <= k <= m,
                        m == env@.len(),
                        found ==> at < m && env@[at as int].gene@ == gene@,
                        !found ==> forall|j: int|
                            0 <= j < k ==> (#[trigger] env@[j]).gene@ != gene@,
                    decreases m - k,
                {
                    if str_eq(env[k].gene.as_str(), gene.as_str()) {
                        found = true;
                        at = k;
                        proof {
                            assert(env@[k as int].gene@ == gene@);
                        }
                    }
                    if found {
                        k = m;
                    } else {
                        k = k + 1;
                    }
                }
                proof {
                    lemma_genv_dom(env@, gene@);
                }
                let c_start = gene_track[t].start;
                let c_end = gene_track[t].end;
                if found {
                    let ghost pre_env = env@;
                    let new_start = if c_start < env[at].start {
                        c_start
                    } else {
                        env[at].start
                    };
                    let new_end = if c_end > env[at].end {
                        c_end
                    } else {
                        env[at].end
                    };
                    let updated = GeneEnv {
                        gene: env[at].gene.clone(),
                        chrom: env[at].chrom.clone(),
                        start: new_start,
                        end: new_end,
                        strand: env[at].strand,
                    };
                    proof {
                        lemma_genv_update(env@, at as int, updated);
                    }
                    env.set(at, updated);
                    proof {
                        assert(env@ == pre_env.update(at as int, updated));
                        assert(forall|j: int|
                            0 <= j < env@.len() ==> (#[trigger] env@[j]).gene@ == pre_env[j].gene@);
                        assert(genv_keys(env@) =~= genv_keys(pre_env));
                        assert(gene_keys(pv.take(i as int), tm)[at as int] == gene@);
                        assert(gene_keys(pv.take(i as int), tm).contains(gene@));
                        assert(gene_keys(pv.take(i + 1), tm) =~= gene_keys(pv.take(i as int), tm));
                        let c = tm[key@];
                        let eold = genv_coord(pre_env[at as int]);
                        assert(env_fold(pv.take(i as int), tm)[gene@] == eold);
                        assert(c.start == c_start as int && c.end == c_end as int);
                        assert(genv_coord(updated) =~= (CoordV {
                            chrom: eold.chrom,
                            start: if c.start < eold.start {
                                c.start
                            } else {
                                eold.start
                            },
                            end: if c.end > eold.end {
                                c.end
                            } else {
                                eold.end
                            },
                            strand: eold.strand,
                        }));
                        assert(genv_map(env@) =~= env_fold(pv.take(i + 1), tm));
                    }
                } else {
                    let ghost pre_env = env@;
                    let opened = GeneEnv {
                        gene: gene.clone(),
                        chrom: gene_track[t].chrom.clone(),
                        start: c_start,
                        end: c_end,
                        strand: gene_track[t].strand,
                    };
                    proof {
                        assert(!genv_map(env@).dom().contains(gene@));
                    }
                    env.push(opened);
                    proof {
                        assert(env@.drop_last() =~= pre_env);
                        assert(!gene_keys(pv.take(i as int), tm).contains(gene@)) by {
                            if gene_keys(pv.take(i as int), tm).contains(gene@) {
                                let j = choose|j: int|
                                    0 <= j < gene_keys(pv.take(i as int), tm).len()
                                        && gene_keys(pv.take(i as int), tm)[j] == gene@;
                                assert(genv_keys(pre_env)[j] == gene@);
                                assert(pre_env[j].gene@ == gene@);
                            }
                        }
                        assert(genv_keys(env@) =~= genv_keys(pre_env) + seq![gene@]);
                        assert(gene_keys(pv.take(i + 1), tm) =~= gene_keys(pv.take(i as int), tm)
                            + seq![gene@]);
                        assert(genv_keys(env@) =~= gene_keys(pv.take(i + 1), tm));
                        assert(tm[key@] =~= genv_coord(opened));
                        assert(genv_map(env@) =~= env_fold(pv.take(i as int), tm).insert(
                            gene@,
                            genv_coord(opened),
                        ));
                        assert(genv_map(env@) =~= env_fold(pv.take(i + 1), tm));
                        assert(genv_distinct(env@)) by {
                            assert(forall|j: int|
                                0 <= j < pre_env.len() ==> (#[trigger] env@[j]).gene@ == pre_env[
                                    j
                                ].gene@);
                        }
                    }
                }
            },
            None => {
                proof {
                    assert(gene_keys(pv.take(i + 1), tm) =~= gene_keys(pv.take(i as int), tm));
                    assert(env_fold(pv.take(i + 1), tm) =~= env_fold(pv.take(i as int), tm));
                }
            },
        }
        proof {
            assert(forall|j: int|
                0 <= j < env@.len() ==> genv_map(env@)[(#[trigger] env@[j]).gene@] == genv_coord(
                    env@[j],
                )) by {
                assert forall|j: int| 0 <= j < env@.len() implies genv_map(env@)[(
                #[trigger] env@[j]).gene@] == genv_coord(env@[j]) by {
                    lemma_genv_at(env@, j);
                }
            }
        }
        i = i + 1;
    }
    proof {
        assert(pv.take(n as int) =~= pv);
    }
    // render one line per envelope, in first-seen gene order
    let mut out: Vec<GxfLine> = Vec::new();
    let m = env.len();
    let mut k: usize = 0;
    while k < m
        invariant
            0 <= k <= m,
            m == env@.len(),
            genv_map(env@) == env_fold(pv, tm),
            genv_keys(env@) == gene_keys(pv, tm),
            genv_distinct(env@),
            forall|j: int|
                0 <= j < env@.len() ==> genv_map(env@)[(#[trigger] env@[j]).gene@] == genv_coord(
                    env@[j],
                ),
            forall|j: int| 0 <= j < env@.len() ==> (#[trigger] env@[j]).start < u32::MAX,
            out@.len() == k as int,
            forall|j: int|
                0 <= j < k ==> (#[trigger] out@[j])@ == gene_line_spec(
                    dialect,
                    gene_keys(pv, tm)[j],
                    env_fold(pv, tm)[gene_keys(pv, tm)[j]],
                ),
        decreases m - k,
    {
        let e = &env[k];
        let mut attr = String::new();
        match dialect {
            Dialect::Gff => {
                attr.append("ID=");
                attr.append(e.gene.as_str());
                attr.append(";gene_id=");
                attr.append(e.gene.as_str());
            },
            Dialect::Gtf => {
                attr.append("gene_id \"");
                attr.append(e.gene.as_str());
                attr.append("\";");
            },
        }
        proof {
            assert(attr@ =~= gene_attr(dialect, env@[k as int].gene@));
        }
        let line = GxfLine {
            chrom: e.chrom.clone(),
            feature: "gene".to_owned(),
            start: e.start + 1,
            end: e.end,
            strand: e.strand,
            phase: ".".to_owned(),
            attr,
        };
        proof {
            assert(genv_keys(env@)[k as int] == env@[k as int].gene@);
            assert(line@ =~= gene_line_spec(
                dialect,
                gene_keys(pv, tm)[k as int],
                env_fold(pv, tm)[gene_keys(pv, tm)[k as int]],
            ));
        }
        out.push(line);
        k = k + 1;
    }
    out
}

proof fn lemma_genv_at(es: Seq<GeneEnv>, j: int)
    requires
        genv_distinct(es),
        0 <= j < es.len(),
    ensures
        genv_map(es).dom().contains(es[j].gene@),
        genv_map(es)[es[j].gene@] == genv_coord(es[j]),
    decreases es.len(),
{
    assert(forall|t: int| 0 <= t < es.len() - 1 ==> es.drop_last()[t] == es[t]);
    lemma_genv_dom(es.drop_last(), es[es.len() - 1].gene@);
    if j == es.len() - 1 {
        assert(!genv_map(es.drop_last()).dom().contains(es[j].gene@));
    } else {
        lemma_genv_at(es.drop_last(), j);
    }
}

} // verus!
