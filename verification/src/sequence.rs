//! The output sequencer: one deterministic order over all emitted lines —
//! chromosome tokens by natural order, ties by ascending start — and the
//! final rendering pass.
use vstd::prelude::*;
use vstd::multiset::Multiset;

use crate::lines::{GxfLine, GxfLineV, line_text, serialize_line};

verus! {

broadcast use vstd::seq_lib::group_to_multiset_ensures;

/// The natural-order comparison of two text tokens: digit runs compare by
/// numeric value, so `chr2` comes before `chr10`.  The result depends on
/// the two character sequences alone.
pub uninterp spec fn natural_cmp(a: Seq<char>, b: Seq<char>) -> core::cmp::Ordering;

/// Relies on natord::compare: a case-sensitive natural-order comparison
/// whose result is a function of the two strings alone, and which swaps
/// Less and Greater when its arguments swap.
#[verifier::external_body]
fn natural_compare(a: &str, b: &str) -> (r: core::cmp::Ordering)
    ensures
        r == natural_cmp(a@, b@),
        (r == core::cmp::Ordering::Less) <==> (natural_cmp(b@, a@) == core::cmp::Ordering::Greater),
        (r == core::cmp::Ordering::Equal) <==> (natural_cmp(b@, a@) == core::cmp::Ordering::Equal),
        a@ == b@ ==> r == core::cmp::Ordering::Equal,
{
    natord::compare(a, b)
}

/// The emission order: chromosome first, by natural order; equal
/// chromosome tokens order by ascending start coordinate.
pub open spec fn line_le(a: GxfLineV, b: GxfLineV) -> bool {
    natural_cmp(a.chrom, b.chrom) == core::cmp::Ordering::Less || (natural_cmp(a.chrom, b.chrom)
        == core::cmp::Ordering::Equal && a.start <= b.start)
}

/// The views of a line list.
pub open spec fn lines_view(v: Seq<GxfLine>) -> Seq<GxfLineV> {
    v.map_values(|l: GxfLine| l@)
}

/// Every neighbouring pair is ordered.
pub open spec fn sorted_adjacent(v: Seq<GxfLineV>) -> bool {
    forall|i: int| 0 <= i < v.len() - 1 ==> line_le(#[trigger] v[i], v[i + 1])
}

fn line_gt(a: &GxfLine, b: &GxfLine) -> (r: bool)
    ensures
        r == !line_le(a@, b@),
        r ==> line_le(b@, a@),
{
    let c = natural_compare(a.chrom.as_str(), b.chrom.as_str());
    match c {
        core::cmp::Ordering::Greater => true,
        core::cmp::Ordering::Equal => a.start > b.start,
        core::cmp::Ordering::Less => false,
    }
}

/// Orders the emitted lines: the result is a rearrangement of the input
/// in which every line is followed only by lines it precedes or ties
/// with under the natural-order-then-start comparison.  Ties keep their
/// input order.
pub fn sort_lines(input: Vec<GxfLine>) -> (r: Vec<GxfLine>)
    ensures
        lines_view(r@).to_multiset() == lines_view(input@).to_multiset(),
        sorted_adjacent(lines_view(r@)),
{
    let ghost orig = lines_view(input@).to_multiset();
    let mut rest = input;
    let mut out: Vec<GxfLine> = Vec::new();
    while rest.len() > 0
        invariant
            lines_view(out@).to_multiset().add(lines_view(rest@).to_multiset()) == orig,
            sorted_adjacent(lines_view(out@)),
        decreases rest@.len(),
    {
        let ghost rest_pre = rest@;
        let x = rest.remove(0);
        proof {
            assert(lines_view(rest_pre)[0] == x@);
            assert(lines_view(rest@) =~= lines_view(rest_pre).remove(0));
            assert(lines_view(rest@).to_multiset() =~= lines_view(rest_pre).to_multiset().remove(
                x@,
            ));
        }
        let mut j: usize = out.len();
        loop
            invariant_except_break
                0 <= j <= out@.len(),
                j == out@.len() || line_le(x@, lines_view(out@)[j as int]),
                sorted_adjacent(lines_view(out@)),
            ensures
                0 <= j <= out@.len(),
                j == out@.len() || line_le(x@, lines_view(out@)[j as int]),
                j == 0 || line_le(lines_view(out@)[j - 1], x@),
                sorted_adjacent(lines_view(out@)),
            decreases j,
        {
            if j == 0 {
                break ;
            }
            if !line_gt(&out[j - 1], &x) {
                proof {
                    assert(lines_view(out@)[j - 1] == out@[j - 1]@);
                }
                break ;
            }
            proof {
                assert(lines_view(out@)[j - 1] == out@[j - 1]@);
            }
            j = j - 1;
        }
        let ghost out_pre = lines_view(out@);
        out.insert(j, x);
        proof {
            assert(lines_view(out@) =~= out_pre.insert(j as int, x@));
            assert(lines_view(out@).to_multiset() =~= out_pre.to_multiset().insert(x@));
            assert(sorted_adjacent(lines_view(out@))) by {
                let v = lines_view(out@);
                assert(forall|t: int| 0 <= t < j ==> v[t] == out_pre[t]);
                assert(v[j as int] == x@);
                assert(forall|t: int| j < t < v.len() ==> v[t] == out_pre[t - 1]);
                assert forall|t: int| 0 <= t < v.len() - 1 implies line_le(
                    #[trigger] v[t],
                    v[t + 1],
                ) by {
                    if t + 1 < j {
                        assert(line_le(out_pre[t], out_pre[t + 1]));
                    } else if t + 1 == j {
                        assert(line_le(out_pre[j - 1], x@));
                    } else if t == j {
                        assert(line_le(x@, out_pre[j as int]));
                    } else {
                        assert(line_le(out_pre[t - 1], out_pre[t]));
                    }
                }
            }
            assert(lines_view(out@).to_multiset().add(lines_view(rest@).to_multiset()) =~= orig);
        }
    }
    proof {
        assert(lines_view(rest@).to_multiset() =~= Multiset::<GxfLineV>::empty());
        assert(lines_view(out@).to_multiset() =~= orig);
    }
    out
}

/// Renders every line, in order.
pub fn serialize_lines(v: &Vec<GxfLine>) -> (r: Vec<String>)
    ensures
        r@.len() == v@.len(),
        forall|i: int| 0 <= i < v@.len() ==> (#[trigger] r@[i])@ == line_text(v@[i]@),
{
    let mut out: Vec<String> = Vec::new();
    let n = v.len();
    let mut i: usize = 0;
    while i < n
        invariant
            0 <= i <= n,
            n == v@.len(),
            out@.len() == i as int,
            forall|j: int| 0 <= j < i ==> (#[trigger] out@[j])@ == line_text(v@[j]@),
        decreases n - i,
    {
        let line = serialize_line(&v[i]);
        out.push(line);
        i = i + 1;
    }
    out
}

} // verus!
