use vstd::prelude::*;

use crate::text::push_char;

verus! {

/// The sign written before a formatted amount: `+` for a non-negative
/// amount when a sign is asked for, `-` for a negative one, else nothing.
/// (`nonneg` and `negative` are the amount's comparisons with zero; both are
/// false for a value that is not a number.)
pub open spec fn sign_prefix(signed: bool, nonneg: bool, negative: bool) -> Seq<char> {
    if signed && nonneg {
        seq!['+']
    } else if negative {
        seq!['-']
    } else {
        Seq::empty()
    }
}

/// Position of the first `.` in `s`, or its length when there is none.
pub open spec fn first_dot(s: Seq<char>) -> nat
    decreases s.len(),
{
    if s.len() == 0 {
        0
    } else if s[0] == '.' {
        0
    } else {
        1 + first_dot(s.drop_first())
    }
}

/// The first `n` characters of `digits`, with a `,` before each character that
/// starts a group of three counted from the right end of `digits`.
pub open spec fn grouped_prefix(digits: Seq<char>, n: nat) -> Seq<char>
    decreases n,
{
    if n == 0 {
        Seq::empty()
    } else {
        let i = n - 1;
        let prev = grouped_prefix(digits, i as nat);
        if i > 0 && (digits.len() - i) % 3 == 0 {
            prev.push(',').push(digits[i])
        } else {
            prev.push(digits[i])
        }
    }
}

/// `digits` with thousands separators.
pub open spec fn grouped(digits: Seq<char>) -> Seq<char> {
    grouped_prefix(digits, digits.len())
}

/// The display form of a formatted absolute amount: the sign, the part
/// before the first `.` with thousands separators, and then `.` with the
/// rest when the rest is not empty.
pub open spec fn thousands_text(
    signed: bool,
    nonneg: bool,
    negative: bool,
    formatted_abs: Seq<char>,
) -> Seq<char> {
    let d = first_dot(formatted_abs);
    let digits = formatted_abs.subrange(0, d as int);
    let frac = if d < formatted_abs.len() {
        formatted_abs.subrange((d + 1) as int, formatted_abs.len() as int)
    } else {
        Seq::empty()
    };
    sign_prefix(signed, nonneg, negative) + grouped(digits) + if frac.len() == 0 {
        Seq::empty()
    } else {
        seq!['.'] + frac
    }
}

proof fn lemma_first_dot(s: Seq<char>)
    ensures
        first_dot(s) <= s.len(),
        forall|k: int| 0 <= k < first_dot(s) ==> s[k] != '.',
        first_dot(s) < s.len() ==> s[first_dot(s) as int] == '.',
    decreases s.len(),
{
    if s.len() > 0 && s[0] != '.' {
        lemma_first_dot(s.drop_first());
        assert forall|k: int| 0 <= k < first_dot(s) implies s[k] != '.' by {
            if k > 0 {
                assert(s[k] == s.drop_first()[k - 1]);
            }
        }
    }
}

fn append_str(out: &mut String, s: &str)
    ensures
        final(out)@ == old(out)@ + s@,
{
    out.append(s);
}

/// Writes a formatted absolute amount for display: the sign (see
/// [`sign_prefix`]), then the digits before the first `.` grouped by three
/// with `,`, then `.` and the digits after it unless there are none.
/// `formatted_abs` is the amount's absolute value as the float formatter
/// writes it, which is always ASCII.
pub fn with_thousands(signed: bool, nonneg: bool, negative: bool, formatted_abs: &str) -> (r:
    String)
    requires
        formatted_abs.is_ascii(),
    ensures
        r@ == thousands_text(signed, nonneg, negative, formatted_abs@),
{
    let ghost s = formatted_abs@;
    let n = formatted_abs.unicode_len();
    let mut d: usize = 0;
    proof {
        lemma_first_dot(s);
    }
    while d < n && formatted_abs.get_char(d) != '.'
        invariant
            d <= n,
            n == s.len(),
            s == formatted_abs@,
            forall|k: int| 0 <= k < d ==> s[k] != '.',
            first_dot(s) <= s.len(),
            forall|k: int| 0 <= k < first_dot(s) ==> s[k] != '.',
            first_dot(s) < s.len() ==> s[first_dot(s) as int] == '.',
        decreases n - d,
    {
        d = d + 1;
    }
    assert(d == first_dot(s));
    let mut out = String::new();
    if signed && nonneg {
        push_char(&mut out, '+');
    } else if negative {
        push_char(&mut out, '-');
    }
    let ghost digits = s.subrange(0, d as int);
    let ghost start = out@;
    let mut i: usize = 0;
    while i < d
        invariant
            i <= d <= n,
            n == s.len(),
            s == formatted_abs@,
            digits == s.subrange(0, d as int),
            out@ == start + grouped_prefix(digits, i as nat),
        decreases d - i,
    {
        let c = formatted_abs.get_char(i);
        if i > 0 && (d - i) % 3 == 0 {
            push_char(&mut out, ',');
        }
        push_char(&mut out, c);
        proof {
            assert(digits[i as int] == c);
            assert(out@ =~= start + grouped_prefix(digits, (i + 1) as nat));
        }
        i = i + 1;
    }
    if d < n && d + 1 < n {
        push_char(&mut out, '.');
        let frac = formatted_abs.substring_char(d + 1, n);
        append_str(&mut out, frac);
    }
    proof {
        let frac = if d < n {
            s.subrange(d + 1, n as int)
        } else {
            Seq::empty()
        };
        if d < n && d + 1 < n {
            assert(out@ =~= sign_prefix(signed, nonneg, negative) + grouped(digits) + (seq!['.']
                + frac));
        } else {
            assert(frac.len() == 0);
            assert(out@ =~= sign_prefix(signed, nonneg, negative) + grouped(digits) + Seq::empty());
        }
    }
    out
}

/// A formatted percentage with `+` in front when the value is not negative.
pub fn with_plus(nonneg: bool, formatted: &str) -> (r: String)
    ensures
        r@ == (if nonneg {
            seq!['+'] + formatted@
        } else {
            formatted@
        }),
{
    let mut out = String::new();
    if nonneg {
        push_char(&mut out, '+');
    }
    append_str(&mut out, formatted);
    proof {
        if !nonneg {
            assert(out@ =~= formatted@);
        }
    }
    out
}

/// `s` with every `,` removed.
pub open spec fn without_commas(s: Seq<char>) -> Seq<char>
    decreases s.len(),
{
    if s.len() == 0 {
        Seq::empty()
    } else if s.last() == ',' {
        without_commas(s.drop_last())
    } else {
        without_commas(s.drop_last()).push(s.last())
    }
}

proof fn lemma_without_commas_push(s: Seq<char>, c: char)
    ensures
        without_commas(s.push(c)) == if c == ',' {
            without_commas(s)
        } else {
            without_commas(s).push(c)
        },
{
    assert(s.push(c).drop_last() =~= s);
}

/// Grouping adds only separators: taking the commas out of the grouped
/// digits gives the digits back.
pub proof fn grouping_keeps_digits(digits: Seq<char>)
    requires
        forall|k: int| 0 <= k < digits.len() ==> digits[k] != ',',
    ensures
        without_commas(grouped(digits)) == digits,
{
    lemma_grouping_prefix(digits, digits.len());
    assert(digits.subrange(0, digits.len() as int) =~= digits);
}

proof fn lemma_grouping_prefix(digits: Seq<char>, n: nat)
    requires
        n <= digits.len(),
        forall|k: int| 0 <= k < digits.len() ==> digits[k] != ',',
    ensures
        without_commas(grouped_prefix(digits, n)) == digits.subrange(0, n as int),
    decreases n,
{
    if n > 0 {
        let i = (n - 1) as nat;
        lemma_grouping_prefix(digits, i);
        let prev = grouped_prefix(digits, i);
        if i > 0 && (digits.len() - i) % 3 == 0 {
            lemma_without_commas_push(prev, ',');
            lemma_without_commas_push(prev.push(','), digits[i as int]);
        } else {
            lemma_without_commas_push(prev, digits[i as int]);
        }
        assert(digits.subrange(0, n as int) =~= digits.subrange(0, i as int).push(digits[i as int]));
    }
}

proof fn lemma_prefix_agrees(digits: Seq<char>, shorter: Seq<char>, m: nat)
    requires
        shorter.len() + 3 == digits.len(),
        shorter == digits.subrange(0, shorter.len() as int),
        m <= shorter.len(),
    ensures
        grouped_prefix(digits, m) == grouped_prefix(shorter, m),
    decreases m,
{
    if m > 0 {
        lemma_prefix_agrees(digits, shorter, (m - 1) as nat);
        let i = m - 1;
        assert(digits[i] == shorter[i]);
        assert((digits.len() - i) % 3 == (shorter.len() - i) % 3);
    }
}

proof fn lemma_short_prefix(digits: Seq<char>, m: nat)
    requires
        digits.len() <= 3,
        m <= digits.len(),
    ensures
        grouped_prefix(digits, m) == digits.subrange(0, m as int),
    decreases m,
{
    if m > 0 {
        lemma_short_prefix(digits, (m - 1) as nat);
        assert(digits.subrange(0, m as int) =~= digits.subrange(0, m - 1).push(digits[m - 1]));
    }
}

/// Thousands separators are placed from the right in groups of three: up
/// to three digits stay as they are, and longer digit strings are the
/// grouping of all but the last three digits, a `,`, and those three.
pub proof fn grouped_from_the_right(digits: Seq<char>)
    ensures
        digits.len() <= 3 ==> grouped(digits) == digits,
        digits.len() > 3 ==> grouped(digits) == grouped(
            digits.subrange(0, digits.len() - 3),
        ) + seq![','] + digits.subrange(digits.len() - 3, digits.len() as int),
{
    let n = digits.len();
    if n <= 3 {
        lemma_short_prefix(digits, n);
        assert(digits.subrange(0, n as int) =~= digits);
    } else {
        let shorter = digits.subrange(0, n - 3);
        lemma_prefix_agrees(digits, shorter, (n - 3) as nat);
        let g0 = grouped_prefix(digits, (n - 3) as nat);
        assert(grouped_prefix(digits, (n - 2) as nat) == g0.push(',').push(digits[n - 3]));
        assert(grouped_prefix(digits, (n - 1) as nat) == g0.push(',').push(digits[n - 3]).push(
            digits[n - 2],
        ));
        assert(grouped(digits) == g0.push(',').push(digits[n - 3]).push(digits[n - 2]).push(
            digits[n - 1],
        ));
        assert(grouped(digits) =~= grouped(shorter) + seq![','] + digits.subrange(
            n - 3,
            n as int,
        ));
    }
}

/// The amount is split at its first `.`: the part before it holds no `.`,
/// and the split point is a `.` unless the text has none.
pub proof fn split_at_first_dot(formatted: Seq<char>)
    ensures
        first_dot(formatted) <= formatted.len(),
        forall|k: int| 0 <= k < first_dot(formatted) ==> formatted[k] != '.',
        first_dot(formatted) < formatted.len() ==> formatted[first_dot(formatted) as int] == '.',
{
    lemma_first_dot(formatted);
}

proof fn lemma_without_commas_concat(x: Seq<char>, y: Seq<char>)
    ensures
        without_commas(x + y) == without_commas(x) + without_commas(y),
    decreases y.len(),
{
    if y.len() == 0 {
        assert(x + y =~= x);
        assert(without_commas(x) + without_commas(y) =~= without_commas(x));
    } else {
        lemma_without_commas_concat(x, y.drop_last());
        assert((x + y).drop_last() =~= x + y.drop_last());
        assert((x + y).last() == y.last());
        if y.last() == ',' {
        } else {
            assert(without_commas(x) + without_commas(y) =~= (without_commas(x) + without_commas(
                y.drop_last(),
            )).push(y.last()));
        }
    }
}

proof fn lemma_without_commas_none(x: Seq<char>)
    requires
        forall|k: int| 0 <= k < x.len() ==> x[k] != ',',
    ensures
        without_commas(x) == x,
    decreases x.len(),
{
    if x.len() > 0 {
        lemma_without_commas_none(x.drop_last());
        assert(x.drop_last().push(x.last()) =~= x);
    }
}

/// Formatting for display changes no digit: without a sign, taking the
/// separators out of the displayed text gives the formatted amount back
/// (unless that amount ends in a lone `.`, which is dropped).
pub proof fn display_keeps_the_amount(formatted: Seq<char>)
    requires
        forall|k: int| 0 <= k < formatted.len() ==> formatted[k] != ',',
        first_dot(formatted) + 1 != formatted.len(),
    ensures
        without_commas(thousands_text(false, true, false, formatted)) == formatted,
        without_commas(thousands_text(false, false, false, formatted)) == formatted,
{
    lemma_first_dot(formatted);
    let d = first_dot(formatted);
    let digits = formatted.subrange(0, d as int);
    grouping_keeps_digits(digits);
    let tail = if d < formatted.len() {
        seq!['.'] + formatted.subrange((d + 1) as int, formatted.len() as int)
    } else {
        Seq::empty()
    };
    lemma_without_commas_none(tail);
    assert(sign_prefix(false, true, false) =~= Seq::<char>::empty());
    assert(sign_prefix(false, false, false) =~= Seq::<char>::empty());
    if d < formatted.len() {
        assert(thousands_text(false, true, false, formatted) =~= Seq::<char>::empty() + grouped(
            digits,
        ) + tail);
        assert(Seq::<char>::empty() + grouped(digits) + tail =~= grouped(digits) + tail);
        lemma_without_commas_concat(grouped(digits), tail);
        assert(digits + tail =~= formatted);
    } else {
        assert(thousands_text(false, true, false, formatted) =~= grouped(digits));
        assert(digits =~= formatted);
    }
}

} // verus!
