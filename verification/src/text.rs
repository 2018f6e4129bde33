//! Text primitives shared by the record parser and the line formatter:
//! whitespace tokenization, single-character splitting, decimal numbers.
use vstd::prelude::*;

verus! {

// ---------------------------------------------------------------------------
// Whitespace tokens
// ---------------------------------------------------------------------------
/// Separators that delimit fields inside one input line.
pub open spec fn is_sep(c: char) -> bool {
    c == ' ' || c == '\t' || c == '\r'
}

/// Length of the maximal non-separator prefix of `s`.
pub open spec fn token_len(s: Seq<char>) -> nat
    decreases s.len(),
{
    if s.len() == 0 || is_sep(s[0]) {
        0
    } else {
        (1 + token_len(s.drop_first())) as nat
    }
}

pub proof fn lemma_token_len(s: Seq<char>)
    ensures
        token_len(s) <= s.len(),
        forall|j: int| 0 <= j < token_len(s) ==> !is_sep(s[j]),
        token_len(s) < s.len() ==> is_sep(s[token_len(s) as int]),
    decreases s.len(),
{
    if s.len() == 0 || is_sep(s[0]) {
    } else {
        lemma_token_len(s.drop_first());
        assert(forall|j: int|
            1 <= j < token_len(s) ==> s[j] == s.drop_first()[j - 1] && !is_sep(s.drop_first()[j
                - 1]));
    }
}

pub proof fn lemma_token_len_is(s: Seq<char>, k: int)
    requires
        0 <= k <= s.len(),
        forall|j: int| 0 <= j < k ==> !is_sep(s[j]),
        k < s.len() ==> is_sep(s[k]),
    ensures
        token_len(s) == k,
    decreases s.len(),
{
    if k == 0 {
    } else {
        assert(!is_sep(s[0]));
        assert(forall|j: int| 0 <= j < k - 1 ==> s.drop_first()[j] == s[j + 1]);
        lemma_token_len_is(s.drop_first(), k - 1);
    }
}

/// The whitespace-separated fields of `s`, in order.
pub open spec fn spec_tokens(s: Seq<char>) -> Seq<Seq<char>>
    decreases s.len(),
    via spec_tokens_decreases
{
    if s.len() == 0 {
        Seq::empty()
    } else if is_sep(s[0]) {
        spec_tokens(s.drop_first())
    } else {
        seq![s.take(token_len(s) as int)] + spec_tokens(s.skip(token_len(s) as int))
    }
}

#[via_fn]
proof fn spec_tokens_decreases(s: Seq<char>) {
    if s.len() > 0 && !is_sep(s[0]) {
        lemma_token_len(s);
        assert(token_len(s) >= 1);
    }
}

fn is_sep_exec(c: char) -> (r: bool)
    ensures
        r == is_sep(c),
{
    c == ' ' || c == '\t' || c == '\r'
}

fn split_tokens_from(s: &str, from: usize) -> (r: Vec<String>)
    requires
        from <= s@.len(),
    ensures
        r.deep_view() == spec_tokens(s@.skip(from as int)),
    decreases s@.len() - from,
{
    let n = s.unicode_len();
    if from == n {
        let r: Vec<String> = Vec::new();
        assert(r.deep_view() =~= spec_tokens(s@.skip(from as int)));
        return r;
    }
    let c = s.get_char(from);
    if is_sep_exec(c) {
        let r = split_tokens_from(s, from + 1);
        proof {
            assert(s@.skip(from as int).drop_first() =~= s@.skip(from + 1));
        }
        return r;
    }
    // scan to the end of the token
    let mut j: usize = from + 1;
    loop
        invariant_except_break
            from < j <= n,
            n == s@.len(),
            forall|t: int| from <= t < j ==> !is_sep(s@[t]),
        ensures
            from < j <= n,
            forall|t: int| from <= t < j ==> !is_sep(s@[t]),
            j == n || is_sep(s@[j as int]),
        decreases n - j,
    {
        if j == n {
            break ;
        }
        let c = s.get_char(j);
        if is_sep_exec(c) {
            break ;
        }
        j = j + 1;
    }
    proof {
        let tail = s@.skip(from as int);
        assert(forall|t: int|
            0 <= t < j - from ==> tail[t] == s@[t + from] && !is_sep(s@[t + from]));
        lemma_token_len_is(tail, j - from);
    }
    let token = s.substring_char(from, j).to_owned();
    let mut rest = split_tokens_from(s, j);
    let mut out: Vec<String> = Vec::new();
    out.push(token);
    out.append(&mut rest);
    proof {
        let tail = s@.skip(from as int);
        assert(tail.take(j - from) =~= s@.subrange(from as int, j as int));
        assert(tail.skip(j - from) =~= s@.skip(j as int));
        assert(out.deep_view() =~= seq![tail.take(token_len(tail) as int)] + spec_tokens(
            tail.skip(token_len(tail) as int),
        ));
    }
    out
}

/// Splits one line into its whitespace-separated fields.
pub fn split_tokens(s: &str) -> (r: Vec<String>)
    ensures
        r.deep_view() == spec_tokens(s@),
{
    let r = split_tokens_from(s, 0);
    proof {
        assert(s@.skip(0) =~= s@);
    }
    r
}

// ---------------------------------------------------------------------------
// Splitting on one fixed character (commas, newlines)
// ---------------------------------------------------------------------------
/// Length of the maximal prefix of `s` free of `sep`.
pub open spec fn run_len(s: Seq<char>, sep: char) -> nat
    decreases s.len(),
{
    if s.len() == 0 || s[0] == sep {
        0
    } else {
        (1 + run_len(s.drop_first(), sep)) as nat
    }
}

pub proof fn lemma_run_len_is(s: Seq<char>, sep: char, k: int)
    requires
        0 <= k <= s.len(),
        forall|j: int| 0 <= j < k ==> s[j] != sep,
        k < s.len() ==> s[k] == sep,
    ensures
        run_len(s, sep) == k,
    decreases s.len(),
{
    if k == 0 {
    } else {
        assert(s[0] != sep);
        assert(forall|j: int| 0 <= j < k - 1 ==> s.drop_first()[j] == s[j + 1]);
        lemma_run_len_is(s.drop_first(), sep, k - 1);
    }
}

pub proof fn lemma_run_len_le(s: Seq<char>, sep: char)
    ensures
        run_len(s, sep) <= s.len(),
    decreases s.len(),
{
    if s.len() > 0 && s[0] != sep {
        lemma_run_len_le(s.drop_first(), sep);
    }
}

/// The pieces of `s` between occurrences of `sep`, empty pieces kept.
pub open spec fn split_on(s: Seq<char>, sep: char) -> Seq<Seq<char>>
    decreases s.len(),
    via split_on_decreases
{
    let k = run_len(s, sep) as int;
    if k == s.len() {
        seq![s]
    } else {
        seq![s.take(k)] + split_on(s.skip(k + 1), sep)
    }
}

#[via_fn]
proof fn split_on_decreases(s: Seq<char>, sep: char) {
    lemma_run_len_le(s, sep);
}

fn split_on_from(s: &str, sep: char, from: usize) -> (r: Vec<String>)
    requires
        from <= s@.len(),
    ensures
        r.deep_view() == split_on(s@.skip(from as int), sep),
    decreases s@.len() - from,
{
    let n = s.unicode_len();
    let mut j: usize = from;
    loop
        invariant_except_break
            from <= j <= n,
            n == s@.len(),
            forall|t: int| from <= t < j ==> s@[t] != sep,
        ensures
            from <= j <= n,
            forall|t: int| from <= t < j ==> s@[t] != sep,
            j == n || s@[j as int] == sep,
        decreases n - j,
    {
        if j == n {
            break ;
        }
        if s.get_char(j) == sep {
            break ;
        }
        j = j + 1;
    }
    proof {
        let tail = s@.skip(from as int);
        assert(forall|t: int| 0 <= t < j - from ==> tail[t] == s@[t + from] && s@[t + from] != sep);
        lemma_run_len_is(tail, sep, j - from);
        assert(tail.take(j - from) =~= s@.subrange(from as int, j as int));
    }
    let piece = s.substring_char(from, j).to_owned();
    if j == n {
        let mut out: Vec<String> = Vec::new();
        out.push(piece);
        proof {
            let tail = s@.skip(from as int);
            assert(tail.take(run_len(tail, sep) as int) =~= tail);
            assert(out.deep_view() =~= seq![tail]);
        }
        out
    } else {
        let mut rest = split_on_from(s, sep, j + 1);
        let mut out: Vec<String> = Vec::new();
        out.push(piece);
        out.append(&mut rest);
        proof {
            let tail = s@.skip(from as int);
            let k = run_len(tail, sep) as int;
            assert(tail.skip(k + 1) =~= s@.skip(j + 1));
            assert(out.deep_view() =~= seq![tail.take(k)] + split_on(tail.skip(k + 1), sep));
        }
        out
    }
}

/// Splits `s` at every occurrence of `sep`, keeping empty pieces.
pub fn split_on_char(s: &str, sep: char) -> (r: Vec<String>)
    ensures
        r.deep_view() == split_on(s@, sep),
{
    let r = split_on_from(s, sep, 0);
    proof {
        assert(s@.skip(0) =~= s@);
    }
    r
}

// ---------------------------------------------------------------------------
// Lines of a text
// ---------------------------------------------------------------------------
/// A line with one trailing carriage return removed.
pub open spec fn strip_cr(l: Seq<char>) -> Seq<char> {
    if l.len() > 0 && l.last() == '\r' {
        l.drop_last()
    } else {
        l
    }
}

/// The lines of a text: pieces between newlines, one final empty piece
/// dropped, one trailing carriage return stripped from each.
pub open spec fn spec_lines(s: Seq<char>) -> Seq<Seq<char>> {
    let p = split_on(s, '\n');
    let q = if p.len() > 0 && p.last().len() == 0 {
        p.drop_last()
    } else {
        p
    };
    q.map_values(|l: Seq<char>| strip_cr(l))
}

/// Splits a text into its lines.
pub fn split_lines(s: &str) -> (r: Vec<String>)
    ensures
        r.deep_view() == spec_lines(s@),
{
    let mut pieces = split_on_char(s, '\n');
    proof {
        assert(pieces.deep_view().len() > 0);
        assert(pieces@.len() == pieces.deep_view().len());
    }
    if pieces[pieces.len() - 1].as_str().unicode_len() == 0 {
        let _ = pieces.pop();
    }
    let ghost q = if split_on(s@, '\n').len() > 0 && split_on(s@, '\n').last().len() == 0 {
        split_on(s@, '\n').drop_last()
    } else {
        split_on(s@, '\n')
    };
    proof {
        assert(pieces.deep_view() =~= q);
    }
    let mut out: Vec<String> = Vec::new();
    let n = pieces.len();
    let mut i: usize = 0;
    while i < n
        invariant
            0 <= i <= n,
            n == pieces@.len(),
            pieces.deep_view() == q,
            out@.len() == i as int,
            forall|j: int| 0 <= j < i ==> (#[trigger] out@[j])@ == strip_cr(q[j]),
        decreases n - i,
    {
        proof {
            assert(pieces.deep_view()[i as int] == pieces@[i as int]@);
        }
        let len = pieces[i].as_str().unicode_len();
        if len > 0 && pieces[i].as_str().get_char(len - 1) == '\r' {
            let trimmed = pieces[i].as_str().substring_char(0, len - 1).to_owned();
            proof {
                assert(trimmed@ =~= strip_cr(q[i as int]));
            }
            out.push(trimmed);
        } else {
            let kept = pieces[i].clone();
            proof {
                assert(kept@ =~= strip_cr(q[i as int]));
            }
            out.push(kept);
        }
        i = i + 1;
    }
    proof {
        assert(forall|j: int| 0 <= j < q.len() ==> #[trigger] out.deep_view()[j] == out@[j]@);
        assert(out.deep_view() =~= q.map_values(|l: Seq<char>| strip_cr(l)));
    }
    out
}

// ---------------------------------------------------------------------------
// Decimal numbers
// ---------------------------------------------------------------------------
pub open spec fn is_digit(c: char) -> bool {
    48 <= c as int && c as int <= 57
}

pub open spec fn digit_val(c: char) -> int {
    c as int - 48
}

/// A non-empty, all-digit character sequence.
pub open spec fn is_number(s: Seq<char>) -> bool {
    s.len() > 0 && forall|i: int| 0 <= i < s.len() ==> is_digit(s[i])
}

/// The value of a digit sequence read in base ten.
pub open spec fn number_val(s: Seq<char>) -> int
    decreases s.len(),
{
    if s.len() == 0 {
        0
    } else {
        number_val(s.drop_last()) * 10 + digit_val(s.last())
    }
}

proof fn lemma_number_val_prefix(s: Seq<char>, k: int)
    requires
        0 <= k <= s.len(),
        forall|i: int| 0 <= i < s.len() ==> is_digit(s[i]),
    ensures
        number_val(s.take(k)) <= number_val(s),
        number_val(s) >= 0,
    decreases s.len() - k,
{
    if k == s.len() {
        assert(s.take(k) =~= s);
        lemma_number_val_nonneg(s);
    } else {
        lemma_number_val_prefix(s, k + 1);
        lemma_number_val_nonneg(s.take(k));
        assert(s.take(k + 1).drop_last() =~= s.take(k));
        assert(s.take(k + 1).last() == s[k]);
        assert(number_val(s.take(k + 1)) == number_val(s.take(k)) * 10 + digit_val(s[k]));
        assert(number_val(s.take(k)) * 10 >= number_val(s.take(k))) by (nonlinear_arith)
            requires
                number_val(s.take(k)) >= 0,
        ;
    }
}

proof fn lemma_number_val_nonneg(s: Seq<char>)
    requires
        forall|i: int| 0 <= i < s.len() ==> is_digit(s[i]),
    ensures
        number_val(s) >= 0,
    decreases s.len(),
{
    if s.len() > 0 {
        assert(forall|i: int| 0 <= i < s.len() - 1 ==> s.drop_last()[i] == s[i]);
        lemma_number_val_nonneg(s.drop_last());
        assert(number_val(s.drop_last()) * 10 >= 0) by (nonlinear_arith)
            requires
                number_val(s.drop_last()) >= 0,
        ;
    }
}

/// Reads a base-ten `u32` from `s`; `None` when `s` is not a number
/// or its value does not fit.
pub fn parse_u32(s: &str) -> (r: Option<u32>)
    ensures
        match r {
            Some(v) => is_number(s@) && v as int == number_val(s@),
            None => !is_number(s@) || number_val(s@) > u32::MAX,
        },
{
    let n = s.unicode_len();
    if n == 0 {
        return None;
    }
    let mut acc: u32 = 0;
    let mut i: usize = 0;
    while i < n
        invariant
            0 <= i <= n,
            n == s@.len(),
            forall|j: int| 0 <= j < i ==> is_digit(s@[j]),
            acc as int == number_val(s@.take(i as int)),
        decreases n - i,
    {
        let c = s.get_char(i);
        let u = c as u32;
        if u < 48 || u > 57 {
            return None;
        }
        let d = u - 48;
        proof {
            assert(s@.take(i + 1).drop_last() =~= s@.take(i as int));
            assert(s@.take(i + 1).last() == s@[i as int]);
        }
        if acc > (u32::MAX - d) / 10 {
            proof {
                assert(acc as int * 10 + d > u32::MAX) by (nonlinear_arith)
                    requires
                        acc as int > (u32::MAX as int - d) / 10,
                        0 <= d <= 9,
                ;
                assert(number_val(s@.take(i + 1)) > u32::MAX);
            }
            // the value can only grow with more digits
            if is_number_exec_check(s, i + 1) {
                proof {
                    assert(forall|j: int| 0 <= j < s@.len() ==> is_digit(s@[j]));
                    lemma_number_val_prefix(s@, i + 1);
                }
                return None;
            } else {
                return None;
            }
        }
        proof {
            assert(acc as int * 10 + d <= u32::MAX) by (nonlinear_arith)
                requires
                    acc as int <= (u32::MAX as int - d) / 10,
                    0 <= d <= 9,
            ;
        }
        acc = acc * 10 + d;
        i = i + 1;
    }
    proof {
        assert(s@.take(n as int) =~= s@);
    }
    Some(acc)
}

/// True when every character from `from` on is a digit.
fn is_number_exec_check(s: &str, from: usize) -> (r: bool)
    requires
        from <= s@.len(),
    ensures
        r == forall|j: int| from <= j < s@.len() ==> is_digit(s@[j]),
{
    let n = s.unicode_len();
    let mut i: usize = from;
    while i < n
        invariant
            from <= i <= n,
            n == s@.len(),
            forall|j: int| from <= j < i ==> is_digit(s@[j]),
        decreases n - i,
    {
        let u = s.get_char(i) as u32;
        if u < 48 || u > 57 {
            return false;
        }
        i = i + 1;
    }
    true
}

/// Character-wise string equality.
pub fn str_eq(a: &str, b: &str) -> (r: bool)
    ensures
        r == (a@ == b@),
{
    let na = a.unicode_len();
    let nb = b.unicode_len();
    if na != nb {
        return false;
    }
    let mut i: usize = 0;
    while i < na
        invariant
            0 <= i <= na,
            na == a@.len(),
            na == b@.len(),
            forall|j: int| 0 <= j < i ==> a@[j] == b@[j],
        decreases na - i,
    {
        if a.get_char(i) != b.get_char(i) {
            return false;
        }
        i = i + 1;
    }
    proof {
        assert(a@ =~= b@);
    }
    true
}

/// A number that fits a `u32`.
pub open spec fn u32_field(t: Seq<char>) -> bool {
    is_number(t) && number_val(t) <= u32::MAX
}

/// The items of a comma-separated list; one trailing comma is tolerated.
pub open spec fn list_items(t: Seq<char>) -> Seq<Seq<char>> {
    let p = split_on(t, ',');
    if p.len() > 0 && p.last().len() == 0 {
        p.drop_last()
    } else {
        p
    }
}

/// Every item of the list is a number that fits a `u32`.
pub open spec fn list_ok(t: Seq<char>) -> bool {
    forall|i: int| 0 <= i < list_items(t).len() ==> u32_field(#[trigger] list_items(t)[i])
}

/// The decoded values of the list, in order.
pub open spec fn list_vals(t: Seq<char>) -> Seq<int> {
    list_items(t).map_values(|x: Seq<char>| number_val(x))
}

/// The digit character for `d`.
pub open spec fn digit_char(d: int) -> char {
    "0123456789"@[d]
}

/// The base-ten rendering of `n`, without sign or padding.
pub open spec fn dec_str(n: int) -> Seq<char>
    decreases n,
{
    if n < 0 {
        Seq::empty()
    } else if n < 10 {
        seq![digit_char(n)]
    } else {
        dec_str(n / 10) + seq![digit_char(n % 10)]
    }
}

fn digit_literal(d: u32) -> (r: &'static str)
    requires
        d < 10,
    ensures
        r@ == seq![digit_char(d as int)],
{
    proof {
        reveal_strlit("0123456789");
        reveal_strlit("0");
        reveal_strlit("1");
        reveal_strlit("2");
        reveal_strlit("3");
        reveal_strlit("4");
        reveal_strlit("5");
        reveal_strlit("6");
        reveal_strlit("7");
        reveal_strlit("8");
        reveal_strlit("9");
    }
    let r = match d {
        0 => "0",
        1 => "1",
        2 => "2",
        3 => "3",
        4 => "4",
        5 => "5",
        6 => "6",
        7 => "7",
        8 => "8",
        _ => "9",
    };
    proof {
        assert(r@ =~= seq![digit_char(d as int)]);
    }
    r
}

/// Renders `n` in base ten.
pub fn u32_to_string(n: u32) -> (r: String)
    ensures
        r@ == dec_str(n as int),
    decreases n,
{
    if n < 10 {
        digit_literal(n).to_owned()
    } else {
        let mut s = u32_to_string(n / 10);
        s.append(digit_literal(n % 10));
        proof {
            assert(s@ =~= dec_str(n as int));
        }
        s
    }
}

} // verus!
