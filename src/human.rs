//! Human-readable sizes and shortened display lines.

use vstd::prelude::*;
use crate::text::{append_chars, chars_of, is_space, is_space_char, decimal, decimal_chars, padded_decimal, string_of, zero_padded};

verus! {

/// `1024` to the power `e`.
pub open spec fn pow1024(e: nat) -> nat
    decreases e,
{
    if e == 0 {
        1
    } else {
        1024 * pow1024((e - 1) as nat)
    }
}

/// `10` to the power `d`.
pub open spec fn pow10(d: nat) -> nat
    decreases d,
{
    if d == 0 {
        1
    } else {
        10 * pow10((d - 1) as nat)
    }
}

/// The unit of `bytes`: the largest power of 1024 not above it, at most the fifth (PB).
pub open spec fn unit_exp(bytes: nat) -> nat {
    if bytes >= pow1024(5) {
        5
    } else if bytes >= pow1024(4) {
        4
    } else if bytes >= pow1024(3) {
        3
    } else if bytes >= pow1024(2) {
        2
    } else if bytes >= pow1024(1) {
        1
    } else {
        0
    }
}

/// Decimals shown for a unit: none below MB, one for MB, two from GB on.
pub open spec fn unit_decimals(e: nat) -> nat {
    if e <= 1 {
        0
    } else if e == 2 {
        1
    } else {
        2
    }
}

pub open spec fn unit_suffix(e: nat) -> Seq<char> {
    if e == 0 {
        Seq::empty()
    } else if e == 1 {
        seq!['k', 'B']
    } else if e == 2 {
        seq!['M', 'B']
    } else if e == 3 {
        seq!['G', 'B']
    } else if e == 4 {
        seq!['T', 'B']
    } else {
        seq!['P', 'B']
    }
}

/// `n / d` rounded to the nearest integer, a tie to the even one.
pub open spec fn round_half_even(n: nat, d: nat) -> nat
    recommends
        d > 0,
{
    let q = n / d;
    let r = n % d;
    if 2 * r > d || (2 * r == d && q % 2 == 1) {
        q + 1
    } else {
        q
    }
}

/// The integer `r / 10^d` written with `d` decimals.
pub open spec fn fixed_point(r: nat, d: nat) -> Seq<char> {
    if d == 0 {
        decimal(r)
    } else {
        decimal(r / pow10(d)) + seq!['.'] + zero_padded(decimal(r % pow10(d)), d)
    }
}

/// `bytes` in its unit, rounded to the unit's decimals, followed by the unit.
pub open spec fn human_text(bytes: nat) -> Seq<char> {
    let e = unit_exp(bytes);
    let d = unit_decimals(e);
    fixed_point(round_half_even(bytes * pow10(d), pow1024(e)), d) + unit_suffix(e)
}

proof fn lemma_pow_values()
    ensures
        pow1024(1) == 1024,
        pow1024(2) == 1048576,
        pow1024(3) == 1073741824,
        pow1024(4) == 1099511627776,
        pow1024(5) == 1125899906842624,
        pow10(0) == 1,
        pow10(1) == 10,
        pow10(2) == 100,
{
    reveal_with_fuel(pow1024, 6);
    reveal_with_fuel(pow10, 3);
}

/// Human-readable rendering of a byte count, in 1024-based units.
pub fn human_fine(bytes: u64) -> (r: String)
    ensures
        r@ == human_text(bytes as nat),
{
    proof {
        lemma_pow_values();
    }
    let (e, unit): (u64, u128) = if bytes as u128 >= 1125899906842624 {
        (5, 1125899906842624)
    } else if bytes as u128 >= 1099511627776 {
        (4, 1099511627776)
    } else if bytes >= 1073741824 {
        (3, 1073741824)
    } else if bytes >= 1048576 {
        (2, 1048576)
    } else if bytes >= 1024 {
        (1, 1024)
    } else {
        (0, 1)
    };
    let d: u64 = if e <= 1 {
        0
    } else if e == 2 {
        1
    } else {
        2
    };
    let scale: u128 = if d == 0 {
        1
    } else if d == 1 {
        10
    } else {
        100
    };
    assert(e == unit_exp(bytes as nat));
    assert(unit == pow1024(e as nat));
    assert(scale == pow10(d as nat));
    let n: u128 = bytes as u128 * scale;
    let q: u128 = n / unit;
    let rem: u128 = n % unit;
    let rounded: u128 = if 2 * rem > unit || (2 * rem == unit && q % 2 == 1) {
        q + 1
    } else {
        q
    };
    assert(rounded == round_half_even(bytes as nat * pow10(d as nat), pow1024(e as nat)));
    assert(rounded < 0x1_0000_0000_0000_0000) by (nonlinear_arith)
        requires
            n == bytes as u128 * scale,
            scale <= 100,
            bytes < 0x1_0000_0000_0000_0000,
            q == n / unit,
            rem == n % unit,
            e == 0 ==> unit == 1 && scale == 1,
            e != 0 ==> unit >= 1024,
            rounded <= q + 1,
            rem == 0 ==> rounded == q,
    {
        if e == 0 {
            assert(rem == 0);
        } else {
            assert(q * unit <= n);
            assert(q * 1024 <= n);
        }
    }
    let mut out: Vec<char>;
    if d == 0 {
        out = decimal_chars(rounded as u64);
    } else {
        out = decimal_chars((rounded / scale) as u64);
        out.push('.');
        let frac = padded_decimal((rounded % scale) as u64, d as usize);
        append_chars(&mut out, &frac);
    }
    if e == 1 {
        out.push('k');
    } else if e == 2 {
        out.push('M');
    } else if e == 3 {
        out.push('G');
    } else if e == 4 {
        out.push('T');
    } else if e == 5 {
        out.push('P');
    }
    if e >= 1 {
        out.push('B');
    }
    let ghost suffix = unit_suffix(e as nat);
    assert(out@ =~= human_text(bytes as nat));
    string_of(&out)
}

/// `s` without leading white space.
pub open spec fn trim_start(s: Seq<char>) -> Seq<char>
    decreases s.len(),
{
    if s.len() > 0 && is_space_char(s[0]) {
        trim_start(s.skip(1))
    } else {
        s
    }
}

/// `s` without trailing white space.
pub open spec fn trim_end(s: Seq<char>) -> Seq<char>
    decreases s.len(),
{
    if s.len() > 0 && is_space_char(s.last()) {
        trim_end(s.drop_last())
    } else {
        s
    }
}

/// `s` without white space at either end.
pub open spec fn trimmed(s: Seq<char>) -> Seq<char> {
    trim_end(trim_start(s))
}

/// The mark that stands where a shortened line lost its middle.
pub open spec fn link_mark() -> Seq<char> {
    seq![' ', '\u{26a1}', ' ']
}

/// `s` kept whole when it has at most `max(10, limit)` characters; otherwise its first
/// and last `max(10, limit) / 2` characters, each trimmed, joined by the link mark.
pub open spec fn shrunk(s: Seq<char>, limit: nat) -> Seq<char> {
    let lim = if limit < 10 {
        10
    } else {
        limit
    };
    if s.len() > lim {
        trimmed(s.take((lim / 2) as int)) + link_mark() + trimmed(
            s.skip(s.len() - (lim / 2) as int),
        )
    } else {
        s
    }
}

proof fn lemma_trim_start_from(s: Seq<char>, i: int)
    requires
        0 <= i <= s.len(),
        forall|k: int| 0 <= k < i ==> is_space_char(s[k]),
    ensures
        trim_start(s) == trim_start(s.skip(i)),
    decreases i,
{
    if i > 0 {
        lemma_trim_start_from(s.skip(1), i - 1);
        assert(s.skip(1).skip(i - 1) =~= s.skip(i));
    } else {
        assert(s.skip(0) =~= s);
    }
}

proof fn lemma_trim_end_to(s: Seq<char>, j: int)
    requires
        0 <= j <= s.len(),
        forall|k: int| j <= k < s.len() ==> is_space_char(s[k]),
    ensures
        trim_end(s) == trim_end(s.take(j)),
    decreases s.len() - j,
{
    if j < s.len() {
        assert(s.drop_last().take(j) =~= s.take(j));
        lemma_trim_end_to(s.drop_last(), j);
    } else {
        assert(s.take(j) =~= s);
    }
}

/// The characters `v[from..to]` without white space at either end.
fn trim_range(v: &Vec<char>, from: usize, to: usize) -> (r: Vec<char>)
    requires
        from <= to <= v@.len(),
    ensures
        r@ == trimmed(v@.subrange(from as int, to as int)),
{
    let ghost s = v@.subrange(from as int, to as int);
    let mut i = from;
    while i < to && is_space(v[i])
        invariant
            from <= i <= to,
            to <= v@.len(),
            forall|k: int| from <= k < i ==> is_space_char(v@[k]),
        decreases to - i,
    {
        i = i + 1;
    }
    proof {
        lemma_trim_start_from(s, i - from);
        assert(s.skip(i - from) =~= v@.subrange(i as int, to as int));
    }
    let mut j = to;
    while j > i && is_space(v[j - 1])
        invariant
            from <= i <= j <= to,
            to <= v@.len(),
            forall|k: int| j <= k < to ==> is_space_char(v@[k]),
        decreases j,
    {
        j = j - 1;
    }
    let ghost t = v@.subrange(i as int, to as int);
    proof {
        lemma_trim_end_to(t, j - i);
        assert(t.take(j - i) =~= v@.subrange(i as int, j as int));
        let u = v@.subrange(i as int, j as int);
        if u.len() > 0 {
            assert(!is_space_char(u[0]));
        }
    }
    let mut r: Vec<char> = Vec::new();
    let mut k = i;
    while k < j
        invariant
            i <= k <= j,
            j <= v@.len(),
            r@ == v@.subrange(i as int, k as int),
        decreases j - k,
    {
        r.push(v[k]);
        k = k + 1;
        assert(r@ =~= v@.subrange(i as int, k as int));
    }
    r
}

/// Shortens `s` to about `limit` characters (at least 10) by cutting out its middle.
pub fn str_shrink(s: &str, limit: usize) -> (r: String)
    ensures
        r@ == shrunk(s@, limit as nat),
{
    let v = chars_of(s);
    let lim = if limit < 10 {
        10
    } else {
        limit
    };
    if v.len() > lim {
        let half = lim / 2;
        let mut out = trim_range(&v, 0, half);
        assert(v@.subrange(0, half as int) =~= v@.take(half as int));
        out.push(' ');
        out.push('\u{26a1}');
        out.push(' ');
        let tail = trim_range(&v, v.len() - half, v.len());
        assert(v@.subrange(v@.len() - half, v@.len() as int) =~= v@.skip(v@.len() - half));
        append_chars(&mut out, &tail);
        assert(out@ =~= shrunk(s@, limit as nat));
        string_of(&out)
    } else {
        string_of(&v)
    }
}

} // verus!
