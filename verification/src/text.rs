use vstd::prelude::*;

verus! {

/// The view of an optional text.
pub open spec fn opt_view(s: Option<String>) -> Option<Seq<char>> {
    match s {
        Some(t) => Some(t@),
        None => None,
    }
}


/// Appends one character to a `String`.
///
/// Trusted: calls `String::push`, whose documentation says it appends the
/// given `char` to the end of the string. The contract claims exactly that.
#[verifier::external_body]
pub(crate) fn push_char(s: &mut String, c: char)
    ensures
        final(s)@ == old(s)@.push(c),
{
    s.push(c)
}

/// The upper-case form of a string, as `str::to_uppercase` computes it
/// (Unicode case mapping, which may change the length).
pub uninterp spec fn str_to_uppercase(s: Seq<char>) -> Seq<char>;

/// Trusted: calls `str::to_uppercase`. Its result follows the Unicode
/// uppercase mapping tables, which the contract does not spell out; it only
/// names the result as a function of the characters of `s`.
#[verifier::external_body]
fn to_uppercase(s: &str) -> (r: String)
    ensures
        r@ == str_to_uppercase(s@),
{
    s.to_uppercase()
}

/// The Unicode `White_Space` property, the set that `char::is_whitespace`
/// and `str::trim` use.
pub open spec fn is_white_space(c: char) -> bool {
    ('\u{9}' <= c && c <= '\u{d}') || c == ' ' || c == '\u{85}' || c == '\u{a0}'
        || c == '\u{1680}' || ('\u{2000}' <= c && c <= '\u{200a}') || c == '\u{2028}'
        || c == '\u{2029}' || c == '\u{202f}' || c == '\u{205f}' || c == '\u{3000}'
}

/// Whether `c` is white space in the sense of `char::is_whitespace`.
pub fn is_whitespace(c: char) -> (r: bool)
    ensures
        r == is_white_space(c),
{
    ('\u{9}' <= c && c <= '\u{d}') || c == ' ' || c == '\u{85}' || c == '\u{a0}'
        || c == '\u{1680}' || ('\u{2000}' <= c && c <= '\u{200a}') || c == '\u{2028}'
        || c == '\u{2029}' || c == '\u{202f}' || c == '\u{205f}' || c == '\u{3000}'
}

/// `s` without its leading white space.
pub open spec fn trim_front(s: Seq<char>) -> Seq<char>
    decreases s.len(),
{
    if s.len() > 0 && is_white_space(s[0]) {
        trim_front(s.drop_first())
    } else {
        s
    }
}

/// `s` without its trailing white space.
pub open spec fn trim_back(s: Seq<char>) -> Seq<char>
    decreases s.len(),
{
    if s.len() > 0 && is_white_space(s.last()) {
        trim_back(s.drop_last())
    } else {
        s
    }
}

/// `s` without leading and trailing white space, as `str::trim` gives it.
pub open spec fn trimmed(s: Seq<char>) -> Seq<char> {
    trim_back(trim_front(s))
}

/// Removes leading and trailing white space.
pub fn trim(s: &str) -> (r: String)
    ensures
        r@ == trimmed(s@),
{
    let n = s.unicode_len();
    let mut i: usize = 0;
    proof {
        assert(s@.subrange(0, n as int) =~= s@);
    }
    while i < n && is_whitespace(s.get_char(i))
        invariant
            i <= n,
            n == s@.len(),
            trim_front(s@) == trim_front(s@.subrange(i as int, n as int)),
        decreases n - i,
    {
        proof {
            let t = s@.subrange(i as int, n as int);
            assert(t.drop_first() =~= s@.subrange(i + 1, n as int));
        }
        i = i + 1;
    }
    let mut j: usize = n;
    while j > i && is_whitespace(s.get_char(j - 1))
        invariant
            i <= j <= n,
            n == s@.len(),
            trim_back(s@.subrange(i as int, n as int)) == trim_back(
                s@.subrange(i as int, j as int),
            ),
        decreases j - i,
    {
        proof {
            let t = s@.subrange(i as int, j as int);
            assert(t.drop_last() =~= s@.subrange(i as int, j - 1));
        }
        j = j - 1;
    }
    let sub = s.substring_char(i, j);
    proof {
        let t = s@.subrange(i as int, j as int);
        assert(trim_back(t) == t);
        if i < n {
            assert(!is_white_space(s@[i as int]));
            assert(trim_front(s@.subrange(i as int, n as int)) == s@.subrange(i as int, n as int));
        } else {
            assert(s@.subrange(i as int, n as int).len() == 0);
        }
    }
    String::from_str(sub)
}

/// The characters that a stock symbol may hold.
pub open spec fn is_symbol_char(c: char) -> bool {
    ('A' <= c && c <= 'Z') || ('0' <= c && c <= '9') || c == '.' || c == '-' || c == '^' || c
        == '='
}

/// The longest stock symbol accepted.
pub const MAX_SYMBOL_LEN: usize = 15;

/// A well-formed stock symbol: one to fifteen characters, each an upper-case
/// ASCII letter, a digit, or one of `. - ^ =`.
pub open spec fn is_valid_symbol(s: Seq<char>) -> bool {
    &&& 1 <= s.len() <= MAX_SYMBOL_LEN
    &&& forall|i: int| 0 <= i < s.len() ==> is_symbol_char(#[trigger] s[i])
}

/// Whether `s` is a well-formed stock symbol.
pub fn valid_symbol(s: &str) -> (r: bool)
    ensures
        r == is_valid_symbol(s@),
{
    let n = s.unicode_len();
    if n == 0 || n > MAX_SYMBOL_LEN {
        return false;
    }
    let mut i: usize = 0;
    while i < n
        invariant
            i <= n,
            n == s@.len(),
            forall|k: int| 0 <= k < i ==> is_symbol_char(#[trigger] s@[k]),
        decreases n - i,
    {
        let c = s.get_char(i);
        if !(('A' <= c && c <= 'Z') || ('0' <= c && c <= '9') || c == '.' || c == '-' || c == '^'
            || c == '=') {
            return false;
        }
        i = i + 1;
    }
    true
}

/// What a submitted symbol field becomes: the text (empty when the field is
/// absent), trimmed, then upper-cased.
pub open spec fn normalized_symbol(raw: Option<Seq<char>>) -> Seq<char> {
    str_to_uppercase(
        trimmed(
            match raw {
                Some(s) => s,
                None => Seq::empty(),
            },
        ),
    )
}

/// Normalizes a submitted symbol field: absent counts as empty, then white
/// space is trimmed and the text is upper-cased.
pub fn normalize_symbol(raw: &Option<String>) -> (r: String)
    ensures
        r@ == normalized_symbol(opt_view(*raw)),
{
    let t = match raw {
        Some(s) => trim(s.as_str()),
        None => trim(""),
    };
    proof {
        if raw is None {
            reveal_strlit("");
            assert(trimmed(""@) =~= Seq::<char>::empty()) by {
                assert(""@.len() == 0);
            }
        }
    }
    to_uppercase(t.as_str())
}

/// The symbol named in a request path, upper-cased.
pub fn path_symbol(raw: &str) -> (r: String)
    ensures
        r@ == str_to_uppercase(raw@),
{
    to_uppercase(raw)
}

proof fn lemma_trim_front(s: Seq<char>)
    ensures
        exists|i: int|
            0 <= i <= s.len() && trim_front(s) == s.subrange(i, s.len() as int) && (forall|k: int|
                0 <= k < i ==> is_white_space(#[trigger] s[k])),
        trim_front(s).len() > 0 ==> !is_white_space(trim_front(s)[0]),
    decreases s.len(),
{
    if s.len() > 0 && is_white_space(s[0]) {
        lemma_trim_front(s.drop_first());
        let i = choose|i: int|
            0 <= i <= s.drop_first().len() && trim_front(s.drop_first()) == s.drop_first().subrange(
                i,
                s.drop_first().len() as int,
            ) && (forall|k: int| 0 <= k < i ==> is_white_space(#[trigger] s.drop_first()[k]));
        assert(s.drop_first().subrange(i, s.drop_first().len() as int) =~= s.subrange(
            i + 1,
            s.len() as int,
        ));
        assert forall|k: int| 0 <= k < i + 1 implies is_white_space(#[trigger] s[k]) by {
            if k > 0 {
                assert(s[k] == s.drop_first()[k - 1]);
            }
        }
    } else {
        assert(s.subrange(0, s.len() as int) =~= s);
    }
}

proof fn lemma_trim_back(s: Seq<char>)
    ensures
        trim_back(s).len() <= s.len(),
        trim_back(s) == s.subrange(0, trim_back(s).len() as int),
        trim_back(s).len() > 0 ==> !is_white_space(trim_back(s).last()),
        forall|k: int| trim_back(s).len() <= k < s.len() ==> is_white_space(#[trigger] s[k]),
    decreases s.len(),
{
    if s.len() > 0 && is_white_space(s.last()) {
        lemma_trim_back(s.drop_last());
        let t = trim_back(s.drop_last());
        assert(s.drop_last().subrange(0, t.len() as int) =~= s.subrange(0, t.len() as int));
        assert forall|k: int| t.len() <= k < s.len() implies is_white_space(#[trigger] s[k]) by {
            if k < s.len() - 1 {
                assert(s[k] == s.drop_last()[k]);
            }
        }
    } else {
        assert(s.subrange(0, s.len() as int) =~= s);
    }
}

/// What `trim` leaves neither starts nor ends with white space.
pub proof fn trimmed_is_clean(s: Seq<char>)
    ensures
        trimmed(s).len() > 0 ==> !is_white_space(trimmed(s)[0]) && !is_white_space(
            trimmed(s).last(),
        ),
{
    let f = trim_front(s);
    lemma_trim_front(s);
    lemma_trim_back(f);
    let t = trim_back(f);
    if t.len() > 0 {
        assert(t[0] == f[0]);
    }
}

/// Trimming twice changes nothing more.
pub proof fn trim_is_idempotent(s: Seq<char>)
    ensures
        trimmed(trimmed(s)) == trimmed(s),
{
    let t = trimmed(s);
    trimmed_is_clean(s);
    if t.len() > 0 {
        assert(trim_front(t) == t);
        assert(trim_back(t) == t);
    } else {
        assert(trim_front(t) == t);
        assert(trim_back(t) == t);
    }
}

/// `trim` removes only white space, and only at the two ends: what it
/// leaves is one stretch `s[i..j]` of the text, and everything before `i`
/// and from `j` on is white space.
pub proof fn trim_removes_only_outer_white_space(s: Seq<char>)
    ensures
        exists|i: int, j: int|
            0 <= i <= j <= s.len() && trimmed(s) == s.subrange(i, j) && (forall|k: int|
                0 <= k < i ==> is_white_space(#[trigger] s[k])) && (forall|k: int|
                j <= k < s.len() ==> is_white_space(#[trigger] s[k])),
{
    lemma_trim_front(s);
    let i = choose|i: int|
        0 <= i <= s.len() && trim_front(s) == s.subrange(i, s.len() as int) && (forall|k: int|
            0 <= k < i ==> is_white_space(#[trigger] s[k]));
    let f = trim_front(s);
    lemma_trim_back(f);
    let t = trim_back(f);
    let j = i + t.len();
    assert(t =~= s.subrange(i, j));
    assert forall|k: int| j <= k < s.len() implies is_white_space(#[trigger] s[k]) by {
        assert(s[k] == f[k - i]);
    }
}

/// White space around a submitted symbol does not matter, and an absent
/// field reads as an empty one.
pub proof fn surrounding_space_ignored(a: Seq<char>, s: Seq<char>, b: Seq<char>)
    requires
        forall|k: int| 0 <= k < a.len() ==> is_white_space(#[trigger] a[k]),
        forall|k: int| 0 <= k < b.len() ==> is_white_space(#[trigger] b[k]),
    ensures
        normalized_symbol(Some(a + s + b)) == normalized_symbol(Some(trimmed(s))),
        normalized_symbol(None) == normalized_symbol(Some(Seq::empty())),
{
    lemma_outer_space(a, s, b);
    trim_is_idempotent(s);
}

proof fn lemma_front_space(a: Seq<char>, s: Seq<char>)
    requires
        forall|k: int| 0 <= k < a.len() ==> is_white_space(#[trigger] a[k]),
    ensures
        trim_front(a + s) == trim_front(s),
    decreases a.len(),
{
    if a.len() > 0 {
        assert((a + s).drop_first() =~= a.drop_first() + s);
        assert((a + s)[0] == a[0]);
        lemma_front_space(a.drop_first(), s);
    } else {
        assert(a + s =~= s);
    }
}

proof fn lemma_back_space(s: Seq<char>, b: Seq<char>)
    requires
        forall|k: int| 0 <= k < b.len() ==> is_white_space(#[trigger] b[k]),
    ensures
        trim_back(s + b) == trim_back(s),
    decreases b.len(),
{
    if b.len() > 0 {
        assert((s + b).drop_last() =~= s + b.drop_last());
        assert((s + b).last() == b.last());
        lemma_back_space(s, b.drop_last());
    } else {
        assert(s + b =~= s);
    }
}

proof fn lemma_back_of_front(s: Seq<char>, b: Seq<char>)
    requires
        forall|k: int| 0 <= k < b.len() ==> is_white_space(#[trigger] b[k]),
    ensures
        trimmed(s + b) == trimmed(s),
    decreases s.len(),
{
    if s.len() > 0 && is_white_space(s[0]) {
        assert((s + b).drop_first() =~= s.drop_first() + b);
        assert((s + b)[0] == s[0]);
        lemma_back_of_front(s.drop_first(), b);
    } else if s.len() > 0 {
        assert((s + b)[0] == s[0]);
        lemma_back_space(s, b);
    } else {
        assert(s + b =~= b);
        lemma_front_space(b, Seq::empty());
        assert(b + Seq::<char>::empty() =~= b);
        assert(trim_front(Seq::<char>::empty()) == Seq::<char>::empty());
    }
}

proof fn lemma_outer_space(a: Seq<char>, s: Seq<char>, b: Seq<char>)
    requires
        forall|k: int| 0 <= k < a.len() ==> is_white_space(#[trigger] a[k]),
        forall|k: int| 0 <= k < b.len() ==> is_white_space(#[trigger] b[k]),
    ensures
        trimmed(a + s + b) == trimmed(s),
{
    assert(a + s + b =~= a + (s + b));
    lemma_front_space(a, s + b);
    lemma_back_of_front(s, b);
}

} // verus!
