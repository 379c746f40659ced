use vstd::prelude::*;

use crate::text::push_char;

verus! {

/// Characters that are copied through unchanged by [`urlencoding`].
pub open spec fn is_unreserved(c: char) -> bool {
    ('A' <= c && c <= 'Z') || ('a' <= c && c <= 'z') || ('0' <= c && c <= '9') || c == '-'
        || c == '_' || c == '.' || c == '~'
}

/// The upper-case hexadecimal digit for a value below 16.
pub open spec fn hex_digit(d: nat) -> char
    recommends
        d < 16,
{
    if d < 10 {
        ((d + 48) as u8) as char
    } else {
        ((d + 55) as u8) as char
    }
}

/// Upper-case hexadecimal notation of `n`, with no leading zeros.
pub open spec fn hex_digits(n: nat) -> Seq<char>
    decreases n,
{
    if n < 16 {
        seq![hex_digit(n)]
    } else {
        hex_digits(n / 16).push(hex_digit(n % 16))
    }
}

/// Upper-case hexadecimal notation of `n`, zero-padded to at least two digits.
pub open spec fn hex_min2(n: nat) -> Seq<char> {
    if n < 16 {
        seq!['0', hex_digit(n)]
    } else {
        hex_digits(n)
    }
}

/// What one character becomes: itself when unreserved, otherwise `%` and
/// the hexadecimal digits of its code point.
pub open spec fn encode_char(c: char) -> Seq<char> {
    if is_unreserved(c) {
        seq![c]
    } else {
        seq!['%'] + hex_min2(c as nat)
    }
}

/// The encoding of a whole character sequence, character by character.
pub open spec fn url_encoded(s: Seq<char>) -> Seq<char>
    decreases s.len(),
{
    if s.len() == 0 {
        Seq::empty()
    } else {
        url_encoded(s.drop_last()) + encode_char(s.last())
    }
}

fn hex_char(d: u32) -> (c: char)
    requires
        d < 16,
    ensures
        c == hex_digit(d as nat),
{
    if d < 10 {
        ((d + 48) as u8) as char
    } else {
        ((d + 55) as u8) as char
    }
}

fn push_hex(out: &mut String, n: u32)
    ensures
        final(out)@ == old(out)@ + hex_digits(n as nat),
    decreases n,
{
    if n >= 16 {
        push_hex(out, n / 16);
    }
    let d = hex_char(n % 16);
    push_char(out, d);
    proof {
        assert(final(out)@ =~= old(out)@ + hex_digits(n as nat));
    }
}

/// Percent-encodes a stock symbol for use in a URL path: unreserved
/// characters stay, every other character becomes `%` followed by the
/// upper-case hexadecimal value of its code point (at least two digits).
pub fn urlencoding(s: &str) -> (r: String)
    ensures
        r@ == url_encoded(s@),
{
    let n = s.unicode_len();
    let mut out = String::new();
    let mut i: usize = 0;
    while i < n
        invariant
            i <= n,
            n == s@.len(),
            out@ == url_encoded(s@.subrange(0, i as int)),
        decreases n - i,
    {
        let c = s.get_char(i);
        let ghost before = out@;
        if ('A' <= c && c <= 'Z') || ('a' <= c && c <= 'z') || ('0' <= c && c <= '9') || c == '-'
            || c == '_' || c == '.' || c == '~' {
            push_char(&mut out, c);
        } else {
            push_char(&mut out, '%');
            let v = c as u32;
            if v < 16 {
                push_char(&mut out, '0');
            }
            push_hex(&mut out, v);
        }
        proof {
            let t = s@.subrange(0, i + 1);
            assert(t.drop_last() =~= s@.subrange(0, i as int));
            assert(t.last() == c);
            assert(out@ =~= before + encode_char(c));
        }
        i = i + 1;
    }
    proof {
        assert(s@.subrange(0, n as int) =~= s@);
    }
    out
}

/// The address of the daily chart (three months, one point per day) of
/// `symbol` in the Yahoo Finance chart API.
pub open spec fn chart_url_text(symbol: Seq<char>) -> Seq<char> {
    "https://query1.finance.yahoo.com/v8/finance/chart/"@ + url_encoded(symbol)
        + "?range=3mo&interval=1d"@
}

/// Builds the chart request address for `symbol`, encoding the symbol.
pub fn chart_url(symbol: &str) -> (r: String)
    ensures
        r@ == chart_url_text(symbol@),
{
    let mut out = String::from_str("https://query1.finance.yahoo.com/v8/finance/chart/");
    let enc = urlencoding(symbol);
    out.append(enc.as_str());
    out.append("?range=3mo&interval=1d");
    out
}

/// Encoding works character by character: the encoding of a concatenation
/// is the concatenation of the encodings.
pub proof fn encoding_splits(a: Seq<char>, b: Seq<char>)
    ensures
        url_encoded(a + b) == url_encoded(a) + url_encoded(b),
    decreases b.len(),
{
    if b.len() == 0 {
        assert(a + b =~= a);
        assert(url_encoded(a) + url_encoded(b) =~= url_encoded(a));
    } else {
        encoding_splits(a, b.drop_last());
        assert((a + b).drop_last() =~= a + b.drop_last());
        assert((a + b).last() == b.last());
        assert(url_encoded(a + b) =~= url_encoded(a) + url_encoded(b));
    }
}

/// A symbol made only of unreserved characters is sent as it is.
pub proof fn unreserved_unchanged(s: Seq<char>)
    requires
        forall|i: int| 0 <= i < s.len() ==> is_unreserved(#[trigger] s[i]),
    ensures
        url_encoded(s) == s,
    decreases s.len(),
{
    if s.len() > 0 {
        unreserved_unchanged(s.drop_last());
        assert(is_unreserved(s[s.len() - 1]));
        assert(url_encoded(s) =~= s);
    }
}

proof fn hex_digit_unreserved(d: nat)
    requires
        d < 16,
    ensures
        is_unreserved(hex_digit(d)),
{
    if d < 10 {
        assert(48 <= d + 48 < 58);
        assert(('0' as int) == 48 && ('9' as int) == 57);
    } else {
        assert(65 <= d + 55 < 71);
        assert(('A' as int) == 65 && ('Z' as int) == 90);
    }
}

proof fn hex_digits_unreserved(n: nat)
    ensures
        forall|i: int| 0 <= i < hex_digits(n).len() ==> is_unreserved(#[trigger] hex_digits(n)[i]),
    decreases n,
{
    if n >= 16 {
        hex_digits_unreserved(n / 16);
        hex_digit_unreserved(n % 16);
        let p = hex_digits(n / 16);
        assert forall|i: int| 0 <= i < hex_digits(n).len() implies is_unreserved(
            #[trigger] hex_digits(n)[i],
        ) by {
            if i < p.len() {
                assert(hex_digits(n)[i] == p[i]);
            }
        }
    } else {
        hex_digit_unreserved(n);
    }
}

/// Every character of an encoded symbol is unreserved or `%`, so the
/// encoding is safe inside a URL path.
pub proof fn encoding_is_url_safe(s: Seq<char>)
    ensures
        forall|i: int|
            0 <= i < url_encoded(s).len() ==> is_unreserved(#[trigger] url_encoded(s)[i])
                || url_encoded(s)[i] == '%',
    decreases s.len(),
{
    if s.len() > 0 {
        encoding_is_url_safe(s.drop_last());
        let c = s.last();
        hex_digits_unreserved(c as nat);
        if (c as nat) < 16 {
            hex_digit_unreserved(c as nat);
            assert(is_unreserved('0'));
        }
        let prev = url_encoded(s.drop_last());
        let e = encode_char(c);
        assert(forall|i: int| 0 <= i < e.len() ==> is_unreserved(#[trigger] e[i]) || e[i] == '%');
        assert forall|i: int| 0 <= i < url_encoded(s).len() implies is_unreserved(
            #[trigger] url_encoded(s)[i],
        ) || url_encoded(s)[i] == '%' by {
            if i < prev.len() {
                assert(url_encoded(s)[i] == prev[i]);
            } else {
                assert(url_encoded(s)[i] == e[i - prev.len()]);
            }
        }
    }
}

/// The RFC 3986 unreserved characters: ASCII letters and digits, `-`, `_`,
/// `.` and `~`.
pub open spec fn rfc3986_unreserved(c: char) -> bool {
    ('A' <= c && c <= 'Z') || ('a' <= c && c <= 'z') || ('0' <= c && c <= '9') || c == '-'
        || c == '_' || c == '.' || c == '~'
}

/// An upper-case hexadecimal digit.
pub open spec fn is_upper_hex_digit(c: char) -> bool {
    ('0' <= c && c <= '9') || ('A' <= c && c <= 'F')
}

/// The number an upper-case hexadecimal digit stands for.
pub open spec fn hex_digit_value(c: char) -> nat {
    if '0' <= c && c <= '9' {
        (c as nat - '0' as nat) as nat
    } else {
        (c as nat - 'A' as nat + 10) as nat
    }
}

/// The number written by a sequence of hexadecimal digits, most
/// significant first.
pub open spec fn hex_value(s: Seq<char>) -> nat
    decreases s.len(),
{
    if s.len() == 0 {
        0
    } else {
        hex_value(s.drop_last()) * 16 + hex_digit_value(s.last())
    }
}

proof fn lemma_hex_digit(d: nat)
    requires
        d < 16,
    ensures
        is_upper_hex_digit(hex_digit(d)),
        hex_digit_value(hex_digit(d)) == d,
        d > 0 ==> hex_digit(d) != '0',
{
    assert(('0' as nat) == 48 && ('9' as nat) == 57 && ('A' as nat) == 65 && ('F' as nat) == 70);
    if d < 10 {
        assert(((d + 48) as u8) as char as nat == d + 48);
    } else {
        assert(((d + 55) as u8) as char as nat == d + 55);
    }
}

proof fn lemma_hex_digits(n: nat)
    ensures
        hex_digits(n).len() >= 1,
        n >= 16 ==> hex_digits(n).len() >= 2,
        forall|i: int| 0 <= i < hex_digits(n).len() ==> is_upper_hex_digit(#[trigger] hex_digits(n)[i]),
        hex_value(hex_digits(n)) == n,
        n > 0 ==> hex_digits(n)[0] != '0',
    decreases n,
{
    if n < 16 {
        lemma_hex_digit(n);
        let t = seq![hex_digit(n)];
        assert(t.drop_last() =~= Seq::<char>::empty());
        assert(t.last() == hex_digit(n));
        assert(hex_value(Seq::<char>::empty()) == 0);
        assert(hex_value(t) == hex_value(t.drop_last()) * 16 + hex_digit_value(t.last()));
    } else {
        lemma_hex_digits(n / 16);
        lemma_hex_digit(n % 16);
        let p = hex_digits(n / 16);
        let h = hex_digits(n);
        assert(h.drop_last() =~= p);
        assert forall|i: int| 0 <= i < h.len() implies is_upper_hex_digit(#[trigger] h[i]) by {
            if i < p.len() {
                assert(h[i] == p[i]);
            }
        }
        assert(h[0] == p[0]);
        assert(h.last() == hex_digit(n % 16));
        assert(hex_value(h) == hex_value(h.drop_last()) * 16 + hex_digit_value(h.last()));
        assert(hex_value(h) == (n / 16) * 16 + n % 16);
    }
}

proof fn lemma_encode_single(c: char)
    ensures
        url_encoded(seq![c]) == encode_char(c),
{
    let s = seq![c];
    assert(s.drop_last() =~= Seq::<char>::empty());
    assert(s.last() == c);
    assert(url_encoded(Seq::<char>::empty()) == Seq::<char>::empty());
    assert(url_encoded(s) == url_encoded(s.drop_last()) + encode_char(s.last()));
    assert(Seq::<char>::empty() + encode_char(c) =~= encode_char(c));
}

/// Every RFC 3986 unreserved character is sent as itself.
pub proof fn unreserved_char_kept(c: char)
    requires
        rfc3986_unreserved(c),
    ensures
        url_encoded(seq![c]) == seq![c],
{
    lemma_encode_single(c);
}

/// Every other character becomes `%` followed by upper-case hexadecimal
/// digits that spell its code point: at least two digits, and no leading
/// zero beyond that.
pub proof fn other_char_escaped(c: char)
    requires
        !rfc3986_unreserved(c),
    ensures
        ({
            let e = url_encoded(seq![c]);
            &&& e.len() >= 3
            &&& e[0] == '%'
            &&& forall|i: int| 1 <= i < e.len() ==> is_upper_hex_digit(#[trigger] e[i])
            &&& hex_value(e.drop_first()) == c as nat
            &&& e.len() > 3 ==> e[1] != '0'
        }),
{
    lemma_encode_single(c);
    let n = c as nat;
    let e = url_encoded(seq![c]);
    assert(e == seq!['%'] + hex_min2(n));
    assert(e.drop_first() =~= hex_min2(n));
    lemma_hex_digits(n);
    if n < 16 {
        lemma_hex_digit(n);
        let t = seq!['0', hex_digit(n)];
        assert(t.drop_last() =~= seq!['0']);
        assert(t.last() == hex_digit(n));
        let z = seq!['0'];
        assert(z.drop_last() =~= Seq::<char>::empty());
        assert(z.last() == '0');
        assert(hex_digit_value('0') == 0);
        assert(hex_value(Seq::<char>::empty()) == 0);
        assert(hex_value(z) == hex_value(z.drop_last()) * 16 + hex_digit_value(z.last()));
        assert(hex_value(t) == hex_value(t.drop_last()) * 16 + hex_digit_value(t.last()));
        assert(hex_value(t) == n);
        assert(e[1] == '0' && e[2] == hex_digit(n));
        assert(is_upper_hex_digit('0'));
    } else {
        assert forall|i: int| 1 <= i < e.len() implies is_upper_hex_digit(#[trigger] e[i]) by {
            assert(e[i] == hex_digits(n)[i - 1]);
        }
        assert(e[1] == hex_digits(n)[0]);
    }
}

} // verus!
