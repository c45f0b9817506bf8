//! Numbers written inside text.

use vstd::prelude::*;
use crate::text::views;

verus! {

/// The runs of decimal digits of a string, left to right, as the regular
/// expression `\d+` finds them.
pub uninterp spec fn digit_runs(s: Seq<char>) -> Seq<Seq<char>>;

/// Relies on `regex::Regex::find_iter` with the pattern `\d+` (which compiles):
/// the matched runs, in order.
#[verifier::external_body]
fn find_digit_runs(s: &str) -> (r: Vec<String>)
    ensures
        views(r@) == digit_runs(s@),
{
    let re = regex::Regex::new(r"\d+").unwrap();
    re.find_iter(s).map(|m| m.as_str().to_string()).collect()
}

pub open spec fn is_ascii_digit(c: char) -> bool {
    '0' <= c && c <= '9'
}

/// The value of a string of ASCII digits.
pub open spec fn digits_value(s: Seq<char>) -> nat
    decreases s.len(),
{
    if s.len() == 0 {
        0
    } else {
        digits_value(s.drop_last()) * 10 + ((s.last() as u32) - ('0' as u32)) as nat
    }
}

/// What `str::parse::<i64>` makes of a run of digits: its value when every
/// digit is an ASCII one and the value fits.
pub open spec fn run_value(s: Seq<char>) -> Option<i64> {
    if s.len() > 0 && (forall|i: int| 0 <= i < s.len() ==> is_ascii_digit(#[trigger] s[i]))
        && digits_value(s) <= i64::MAX {
        Some(digits_value(s) as i64)
    } else {
        None
    }
}

/// The values of the runs that parse, in order.
pub open spec fn run_values(runs: Seq<Seq<char>>) -> Seq<i64>
    decreases runs.len(),
{
    if runs.len() == 0 {
        Seq::empty()
    } else {
        match run_value(runs.last()) {
            Some(v) => run_values(runs.drop_last()).push(v),
            None => run_values(runs.drop_last()),
        }
    }
}

proof fn lemma_digits_prefix(s: Seq<char>, j: int)
    requires
        0 <= j <= s.len(),
        forall|i: int| 0 <= i < s.len() ==> is_ascii_digit(#[trigger] s[i]),
    ensures
        digits_value(s.take(j)) <= digits_value(s),
    decreases s.len(),
{
    if j < s.len() {
        lemma_digits_prefix(s.drop_last(), j);
        assert(s.drop_last().take(j) =~= s.take(j));
    } else {
        assert(s.take(j) =~= s);
    }
}

fn parse_run(s: &str) -> (r: Option<i64>)
    ensures
        r == run_value(s@),
{
    let v = crate::text::chars_of(s);
    if v.len() == 0 {
        return None;
    }
    let mut k: usize = 0;
    while k < v.len()
        invariant
            k <= v@.len(),
            v@ == s@,
            forall|i: int| 0 <= i < k ==> is_ascii_digit(#[trigger] v@[i]),
        decreases v.len() - k,
    {
        if !('0' <= v[k] && v[k] <= '9') {
            assert(!is_ascii_digit(s@[k as int]));
            return None;
        }
        k = k + 1;
    }
    let mut acc: u64 = 0;
    let mut i: usize = 0;
    assert(v@.take(0) =~= Seq::<char>::empty());
    while i < v.len()
        invariant
            i <= v@.len(),
            v@ == s@,
            forall|j: int| 0 <= j < v@.len() ==> is_ascii_digit(#[trigger] v@[j]),
            acc as nat == digits_value(v@.take(i as int)),
            acc <= i64::MAX,
        decreases v.len() - i,
    {
        assert(v@.take(i + 1).drop_last() =~= v@.take(i as int));
        assert(is_ascii_digit(v@[i as int]));
        let d = (v[i] as u32 - '0' as u32) as u64;
        if acc > (i64::MAX as u64 - d) / 10 {
            proof {
                lemma_digits_prefix(v@, i + 1);
            }
            return None;
        }
        acc = acc * 10 + d;
        i = i + 1;
    }
    assert(v@.take(i as int) =~= v@);
    Some(acc as i64)
}

/// The values of the runs of digits `runs` that parse as an `i64`, in order.
pub fn numbers_of_runs(runs: &Vec<String>) -> (r: Vec<i64>)
    ensures
        r@ == run_values(views(runs@)),
{
    let ghost rv = views(runs@);
    let mut out: Vec<i64> = Vec::new();
    let mut i: usize = 0;
    while i < runs.len()
        invariant
            i <= runs@.len(),
            rv == views(runs@),
            out@ == run_values(rv.take(i as int)),
        decreases runs.len() - i,
    {
        assert(rv.take(i + 1).drop_last() =~= rv.take(i as int));
        assert(rv.take(i + 1).last() == runs@[i as int]@);
        match parse_run(runs[i].as_str()) {
            Some(x) => out.push(x),
            None => {},
        }
        i = i + 1;
    }
    assert(rv.take(i as int) =~= rv);
    out
}

/// The integers written in `s`, left to right; runs too large for an `i64` are
/// left out.
pub fn str_strip_numbers(s: &str) -> (r: Vec<i64>)
    ensures
        r@ == run_values(digit_runs(s@)),
{
    numbers_of_runs(&find_digit_runs(s))
}

} // verus!
