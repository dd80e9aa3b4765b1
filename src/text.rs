use vstd::prelude::*;
use vstd::string::StrSliceExecFns;

verus! {

/// Unicode White_Space, the set `char::is_whitespace` tests.
pub open spec fn is_space(c: char) -> bool {
    ('\u{9}' <= c && c <= '\u{d}') || c == ' ' || c == '\u{85}' || c == '\u{a0}' || c == '\u{1680}'
        || ('\u{2000}' <= c && c <= '\u{200a}') || c == '\u{2028}' || c == '\u{2029}' || c
        == '\u{202f}' || c == '\u{205f}' || c == '\u{3000}'
}

pub fn is_space_char(c: char) -> (r: bool)
    ensures
        r == is_space(c),
{
    ('\u{9}' <= c && c <= '\u{d}') || c == ' ' || c == '\u{85}' || c == '\u{a0}' || c == '\u{1680}'
        || ('\u{2000}' <= c && c <= '\u{200a}') || c == '\u{2028}' || c == '\u{2029}' || c
        == '\u{202f}' || c == '\u{205f}' || c == '\u{3000}'
}

/// Number of leading white-space characters of `s`.
pub open spec fn lead_spaces(s: Seq<char>) -> int
    decreases s.len(),
{
    if s.len() > 0 && is_space(s[0]) {
        1 + lead_spaces(s.drop_first())
    } else {
        0
    }
}

/// Number of trailing white-space characters of `s`.
pub open spec fn trail_spaces(s: Seq<char>) -> int
    decreases s.len(),
{
    if s.len() > 0 && is_space(s.last()) {
        1 + trail_spaces(s.drop_last())
    } else {
        0
    }
}

/// `s` without leading and trailing white space.
pub open spec fn trim(s: Seq<char>) -> Seq<char> {
    let t = s.skip(lead_spaces(s));
    t.take(t.len() - trail_spaces(t))
}

/// `a` is the lower-case ASCII letter `b` or its upper-case form.
pub open spec fn same_letter(a: char, b: char) -> bool {
    a == b || a as u32 + 32 == b as u32
}

pub fn same_letter_char(a: char, b: char) -> (r: bool)
    requires
        'a' <= b <= 'z',
    ensures
        r == same_letter(a, b),
{
    a == b || (a as u32) + 32 == (b as u32)
}

proof fn lemma_lead_spaces(s: Seq<char>, i: int)
    requires
        0 <= i <= s.len(),
        forall|k: int| 0 <= k < i ==> is_space(#[trigger] s[k]),
        i == s.len() || !is_space(s[i]),
    ensures
        lead_spaces(s) == i,
    decreases i,
{
    if i > 0 {
        let t = s.drop_first();
        assert forall|k: int| 0 <= k < i - 1 implies is_space(#[trigger] t[k]) by {
            assert(t[k] == s[k + 1]);
        }
        lemma_lead_spaces(t, i - 1);
    }
}

proof fn lemma_trail_spaces(s: Seq<char>, j: int)
    requires
        0 <= j <= s.len(),
        forall|k: int| j <= k < s.len() ==> is_space(#[trigger] s[k]),
        j == 0 || !is_space(s[j - 1]),
    ensures
        trail_spaces(s) == s.len() - j,
    decreases s.len() - j,
{
    if j < s.len() {
        let t = s.drop_last();
        assert forall|k: int| j <= k < t.len() implies is_space(#[trigger] t[k]) by {
            assert(t[k] == s[k]);
        }
        lemma_trail_spaces(t, j);
    }
}

/// Character positions `[start, end)` of `s` without surrounding white space.
pub fn trim_bounds(s: &str) -> (r: (usize, usize))
    ensures
        r.0 <= r.1 <= s@.len(),
        s@.subrange(r.0 as int, r.1 as int) == trim(s@),
{
    let n = s.unicode_len();
    let mut i: usize = 0;
    while i < n && is_space_char(s.get_char(i))
        invariant
            n == s@.len(),
            i <= n,
            forall|k: int| 0 <= k < i ==> is_space(#[trigger] s@[k]),
        decreases n - i,
    {
        i = i + 1;
    }
    let mut j: usize = n;
    while j > i && is_space_char(s.get_char(j - 1))
        invariant
            n == s@.len(),
            i <= j <= n,
            forall|k: int| j <= k < n ==> is_space(#[trigger] s@[k]),
        decreases j,
    {
        j = j - 1;
    }
    proof {
        lemma_lead_spaces(s@, i as int);
        let t = s@.skip(i as int);
        assert forall|k: int| j - i <= k < t.len() implies is_space(#[trigger] t[k]) by {
            assert(t[k] == s@[k + i]);
        }
        if j > i {
            assert(t[j - i - 1] == s@[j - 1]);
        }
        lemma_trail_spaces(t, j - i);
        assert(s@.subrange(i as int, j as int) =~= t.take(t.len() - trail_spaces(t)));
    }
    (i, j)
}

/// Relies on std's `ToString` for `char`: the text holding just `c`.
#[verifier::external_body]
pub fn char_text(c: char) -> (r: String)
    ensures
        r@ == seq![c],
{
    c.to_string()
}

/// The character of a decimal digit.
pub open spec fn digit_char(d: int) -> char {
    if d == 0 {
        '0'
    } else if d == 1 {
        '1'
    } else if d == 2 {
        '2'
    } else if d == 3 {
        '3'
    } else if d == 4 {
        '4'
    } else if d == 5 {
        '5'
    } else if d == 6 {
        '6'
    } else if d == 7 {
        '7'
    } else if d == 8 {
        '8'
    } else {
        '9'
    }
}

/// The decimal digits of `n`, most significant first, with no leading zero.
pub open spec fn decimal(n: nat) -> Seq<char>
    decreases n,
{
    if n < 10 {
        seq![digit_char(n as int)]
    } else {
        decimal(n / 10).push(digit_char((n % 10) as int))
    }
}

fn digit_of(d: u64) -> (r: char)
    requires
        d < 10,
    ensures
        r == digit_char(d as int),
{
    if d == 0 {
        '0'
    } else if d == 1 {
        '1'
    } else if d == 2 {
        '2'
    } else if d == 3 {
        '3'
    } else if d == 4 {
        '4'
    } else if d == 5 {
        '5'
    } else if d == 6 {
        '6'
    } else if d == 7 {
        '7'
    } else if d == 8 {
        '8'
    } else {
        '9'
    }
}

/// Append the decimal digits of `n` to `s`.
pub fn append_decimal(s: &mut String, n: u64)
    ensures
        final(s)@ == old(s)@ + decimal(n as nat),
    decreases n,
{
    if n >= 10 {
        append_decimal(s, n / 10);
    }
    let c = char_text(digit_of(n % 10));
    s.append(c.as_str());
    proof {
        if n >= 10 {
            assert(decimal(n as nat) == decimal((n / 10) as nat).push(digit_char((n % 10) as int)));
        }
    }
    assert(final(s)@ =~= old(s)@ + decimal(n as nat));
}

} // verus!
