//! The isoform mapping and the line-level helpers around the record model:
//! two-column pair extraction, transcript-id listing, and the sequence-name
//! hint.
use vstd::prelude::*;

use crate::PipelineError;
use crate::bed::BedRecord;
use crate::text::{spec_lines, spec_tokens, split_lines, str_eq};

verus! {

/// One `key -> value` association read from a two-column file.
pub struct IsoPair {
    pub key: String,
    pub value: String,
}

/// The pair one line yields: its first two fields, in the given column
/// order; a line with fewer than two fields yields none.
pub open spec fn pair_of(l: Seq<char>, rev: bool) -> Seq<(Seq<char>, Seq<char>)> {
    let t = spec_tokens(l);
    if t.len() >= 2 {
        if rev {
            seq![(t[1], t[0])]
        } else {
            seq![(t[0], t[1])]
        }
    } else {
        Seq::empty()
    }
}

/// All pairs of a text, line by line.
pub open spec fn pairs_of(ls: Seq<Seq<char>>, rev: bool) -> Seq<(Seq<char>, Seq<char>)>
    decreases ls.len(),
{
    if ls.len() == 0 {
        Seq::empty()
    } else {
        pairs_of(ls.drop_last(), rev) + pair_of(ls.last(), rev)
    }
}

/// The view of an association list.
pub open spec fn pairs_view(v: Seq<IsoPair>) -> Seq<(Seq<char>, Seq<char>)> {
    v.map_values(|p: IsoPair| (p.key@, p.value@))
}

fn hash_pairs(s: &str, rev: bool) -> (r: Vec<IsoPair>)
    ensures
        pairs_view(r@) == pairs_of(spec_lines(s@), rev),
{
    let lines = split_lines(s);
    let mut out: Vec<IsoPair> = Vec::new();
    let n = lines.len();
    let mut i: usize = 0;
    while i < n
        invariant
            0 <= i <= n,
            n == lines@.len(),
            lines.deep_view() == spec_lines(s@),
            pairs_view(out@) == pairs_of(spec_lines(s@).take(i as int), rev),
        decreases n - i,
    {
        proof {
            assert(lines.deep_view()[i as int] == lines@[i as int]@);
            assert(spec_lines(s@).take(i + 1).drop_last() =~= spec_lines(s@).take(i as int));
            assert(spec_lines(s@).take(i + 1).last() == spec_lines(s@)[i as int]);
        }
        let toks = crate::text::split_tokens(lines[i].as_str());
        if toks.len() >= 2 {
            proof {
                assert(toks.deep_view()[0] == toks@[0]@);
                assert(toks.deep_view()[1] == toks@[1]@);
            }
            let pair = if rev {
                IsoPair { key: toks[1].clone(), value: toks[0].clone() }
            } else {
                IsoPair { key: toks[0].clone(), value: toks[1].clone() }
            };
            out.push(pair);
        }
        proof {
            assert(pairs_view(out@) =~= pairs_of(spec_lines(s@).take(i + 1), rev));
        }
        i = i + 1;
    }
    proof {
        assert(spec_lines(s@).take(n as int) =~= spec_lines(s@));
    }
    out
}

/// Reads `key value` pairs from a two-column text, first column as key.
pub fn parallel_hash(s: &str) -> (r: Vec<IsoPair>)
    ensures
        pairs_view(r@) == pairs_of(spec_lines(s@), false),
{
    hash_pairs(s, false)
}

/// Reads `value key` pairs from a two-column text: the second column is
/// the key.  This is the isoform-map order, gene name first.
pub fn parallel_hash_rev(s: &str) -> (r: Vec<IsoPair>)
    ensures
        pairs_view(r@) == pairs_of(spec_lines(s@), true),
{
    hash_pairs(s, true)
}

/// The value of the first pair carrying `key`, if any.
pub open spec fn iso_lookup(ps: Seq<(Seq<char>, Seq<char>)>, key: Seq<char>) -> Option<Seq<char>>
    decreases ps.len(),
{
    if ps.len() == 0 {
        Option::None
    } else if ps[0].0 == key {
        Option::Some(ps[0].1)
    } else {
        iso_lookup(ps.drop_first(), key)
    }
}

/// Finds the gene mapped to a transcript: the first matching pair wins.
pub fn lookup_gene(pairs: &Vec<IsoPair>, key: &String) -> (r: Option<String>)
    ensures
        match r {
            Some(v) => iso_lookup(pairs_view(pairs@), key@) == Option::Some(v@),
            None => iso_lookup(pairs_view(pairs@), key@) == Option::<Seq<char>>::None,
        },
{
    proof {
        assert(pairs_view(pairs@).skip(0) =~= pairs_view(pairs@));
    }
    let n = pairs.len();
    let mut i: usize = 0;
    while i < n
        invariant
            0 <= i <= n,
            n == pairs@.len(),
            iso_lookup(pairs_view(pairs@), key@) == iso_lookup(
                pairs_view(pairs@).skip(i as int),
                key@,
            ),
        decreases n - i,
    {
        proof {
            assert(pairs_view(pairs@).skip(i as int)[0] == (pairs@[i as int].key@, pairs@[
                i as int
            ].value@));
            assert(pairs_view(pairs@).skip(i as int).drop_first() =~= pairs_view(pairs@).skip(
                i + 1,
            ));
        }
        if str_eq(pairs[i].key.as_str(), key.as_str()) {
            return Some(pairs[i].value.clone());
        }
        i = i + 1;
    }
    proof {
        assert(pairs_view(pairs@).skip(n as int).len() == 0);
    }
    None
}

// ---------------------------------------------------------------------------
// Transcript ids of a whole text
// ---------------------------------------------------------------------------
/// Whether an equal string appears earlier in the sequence.
pub open spec fn seen_before(xs: Seq<Seq<char>>, i: int) -> bool {
    exists|j: int| 0 <= j < i && xs[j] == xs[i]
}

/// The sequence with later duplicates removed: first occurrences survive,
/// in order.
pub open spec fn dedup_strs(xs: Seq<Seq<char>>) -> Seq<Seq<char>>
    decreases xs.len(),
{
    if xs.len() == 0 {
        Seq::empty()
    } else if seen_before(xs, xs.len() - 1) {
        dedup_strs(xs.drop_last())
    } else {
        dedup_strs(xs.drop_last()) + seq![xs.last()]
    }
}

pub proof fn lemma_dedup_contains(xs: Seq<Seq<char>>, v: Seq<char>)
    ensures
        (exists|i: int| 0 <= i < dedup_strs(xs).len() && dedup_strs(xs)[i] == v) <==> (exists|
            i: int,
        | 0 <= i < xs.len() && xs[i] == v),
    decreases xs.len(),
{
    if xs.len() > 0 {
        let sub = xs.drop_last();
        lemma_dedup_contains(sub, v);
        assert(forall|i: int| 0 <= i < sub.len() ==> #[trigger] sub[i] == xs[i]);
        if exists|i: int| 0 <= i < xs.len() && xs[i] == v {
            let i = choose|i: int| 0 <= i < xs.len() && #[trigger] xs[i] == v;
            if i < xs.len() - 1 {
                assert(sub[i] == v);
                let k = choose|k: int|
                    0 <= k < dedup_strs(sub).len() && #[trigger] dedup_strs(sub)[k] == v;
                assert(dedup_strs(xs)[k] == v);
            } else {
                if seen_before(xs, xs.len() - 1) {
                    let j = choose|j: int|
                        0 <= j < xs.len() - 1 && #[trigger] xs[j] == xs[xs.len() - 1];
                    assert(sub[j] == v);
                    let k = choose|k: int|
                        0 <= k < dedup_strs(sub).len() && #[trigger] dedup_strs(sub)[k] == v;
                    assert(dedup_strs(xs)[k] == v);
                } else {
                    assert(dedup_strs(xs)[dedup_strs(xs).len() - 1] == v);
                }
            }
        }
        if exists|i: int| 0 <= i < dedup_strs(xs).len() && dedup_strs(xs)[i] == v {
            let i = choose|i: int|
                0 <= i < dedup_strs(xs).len() && #[trigger] dedup_strs(xs)[i] == v;
            if i < dedup_strs(sub).len() {
                assert(dedup_strs(sub)[i] == v);
                let j = choose|j: int| 0 <= j < sub.len() && #[trigger] sub[j] == v;
                assert(xs[j] == v);
            } else {
                assert(xs[xs.len() - 1] == v);
            }
        }
    }
}

/// The fourth field of each line that has one, first occurrences only,
/// in input order.
pub open spec fn tx_names(ls: Seq<Seq<char>>) -> Seq<Seq<char>>
    decreases ls.len(),
{
    if ls.len() == 0 {
        Seq::empty()
    } else {
        let t = spec_tokens(ls.last());
        tx_names(ls.drop_last()) + (if t.len() > 3 {
            seq![t[3]]
        } else {
            Seq::empty()
        })
    }
}

/// Lists the transcript identifiers of a whole interval text, in input
/// order, duplicates dropped.  A line with too few fields is malformed.
pub fn extract_tx_from_bed(s: &str) -> (r: Result<Vec<String>, PipelineError>)
    ensures
        match r {
            Ok(v) => (forall|i: int|
                0 <= i < spec_lines(s@).len() ==> spec_tokens(#[trigger] spec_lines(s@)[i]).len()
                    > 3) && v.deep_view() == dedup_strs(tx_names(spec_lines(s@))),
            Err(e) => (exists|i: int|
                0 <= i < spec_lines(s@).len() && spec_tokens(#[trigger] spec_lines(s@)[i]).len()
                    <= 3) && e == PipelineError::MalformedRecord,
        },
{
    let lines = split_lines(s);
    let mut out: Vec<String> = Vec::new();
    let n = lines.len();
    let mut i: usize = 0;
    while i < n
        invariant
            0 <= i <= n,
            n == lines@.len(),
            lines.deep_view() == spec_lines(s@),
            out.deep_view() == dedup_strs(tx_names(spec_lines(s@).take(i as int))),
            forall|j: int|
                0 <= j < i ==> spec_tokens(#[trigger] spec_lines(s@)[j]).len() > 3,
        decreases n - i,
    {
        proof {
            assert(lines.deep_view()[i as int] == lines@[i as int]@);
            assert(spec_lines(s@).take(i + 1).drop_last() =~= spec_lines(s@).take(i as int));
            assert(spec_lines(s@).take(i + 1).last() == spec_lines(s@)[i as int]);
        }
        let name = match BedRecord::extract_tx(lines[i].as_str()) {
            Ok(name) => name,
            Err(e) => { return Err(e) },
        };
        let ghost names_now = tx_names(spec_lines(s@).take(i + 1));
        proof {
            assert(names_now.drop_last() =~= tx_names(spec_lines(s@).take(i as int)));
            assert(names_now.last() == name@);
        }
        // keep only the first occurrence of each identifier
        let mut dup = false;
        let m = out.len();
        let mut k: usize = 0;
        while k < m
            invariant
                0 <= k <= m,
                m == out@.len(),
                dup == exists|j: int| 0 <= j < k && out.deep_view()[j] == name@,
            decreases m - k,
        {
            proof {
                assert(out.deep_view()[k as int] == out@[k as int]@);
            }
            if str_eq(out[k].as_str(), name.as_str()) {
                dup = true;
            }
            k = k + 1;
        }
        proof {
            let prev = tx_names(spec_lines(s@).take(i as int));
            lemma_dedup_contains(prev, name@);
            assert(seen_before(names_now, names_now.len() - 1) == (exists|j: int|
                0 <= j < prev.len() && prev[j] == name@)) by {
                assert(forall|j: int| 0 <= j < prev.len() ==> names_now[j] == prev[j]);
            }
        }
        if !dup {
            out.push(name);
        }
        proof {
            assert(out.deep_view() =~= dedup_strs(names_now));
        }
        i = i + 1;
    }
    proof {
        assert(spec_lines(s@).take(n as int) =~= spec_lines(s@));
    }
    Ok(out)
}

// ---------------------------------------------------------------------------
// Sequence-header hint
// ---------------------------------------------------------------------------
/// Which family of sequence headers to index.
#[derive(Clone, Copy, PartialEq, Eq, Structural, Debug)]
pub enum Hint {
    Reference,
    Query,
}

impl Hint {
    /// Reads a hint; only the two exact lower-case names are accepted.
    pub fn from_str(s: &str) -> (r: Result<Hint, PipelineError>)
        ensures
            match r {
                Ok(h) => (h == Hint::Reference <==> s@ == "reference"@) && (h == Hint::Query <==> s@
                    == "query"@),
                Err(e) => s@ != "reference"@ && s@ != "query"@ && e
                    == PipelineError::MalformedRecord,
            },
    {
        proof {
            reveal_strlit("reference");
            reveal_strlit("query");
            assert("reference"@.len() == 9);
            assert("query"@.len() == 5);
        }
        if str_eq(s, "reference") {
            Ok(Hint::Reference)
        } else if str_eq(s, "query") {
            Ok(Hint::Query)
        } else {
            Err(PipelineError::MalformedRecord)
        }
    }

    /// The upper-case token looked for inside a sequence header.
    pub fn to_str(&self) -> (r: &'static str)
        ensures
            *self == Hint::Reference ==> r@ == "REFERENCE"@,
            *self == Hint::Query ==> r@ == "QUERY"@,
    {
        match self {
            Hint::Reference => "REFERENCE",
            Hint::Query => "QUERY",
        }
    }
}

} // verus!
