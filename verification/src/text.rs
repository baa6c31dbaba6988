//! Text helpers shared by the rest of the library: decimal and padded
//! rendering, prefix and substring tests, and the two Unicode-aware std
//! operations (`char::is_alphanumeric`, `str::to_lowercase`) that the
//! naming and matching rules rest on.
use vstd::prelude::*;

verus! {

/// `s` begins with `prefix`.
pub open spec fn has_prefix(s: Seq<char>, prefix: Seq<char>) -> bool {
    prefix.len() <= s.len() && s.subrange(0, prefix.len() as int) == prefix
}

/// `pattern` occurs in `s` at position `i`.
pub open spec fn occurs_at(s: Seq<char>, pattern: Seq<char>, i: int) -> bool {
    0 <= i && i + pattern.len() <= s.len() && s.subrange(i, i + pattern.len()) == pattern
}

/// `pattern` occurs somewhere in `s` (the empty pattern occurs everywhere).
pub open spec fn contains_text(s: Seq<char>, pattern: Seq<char>) -> bool {
    exists|i: int| occurs_at(s, pattern, i)
}

/// The character of a decimal digit.
pub open spec fn digit_char(d: nat) -> char {
    if d == 0 {
        '0'
    } else if d == 1 {
        '1'
    } else if d == 2 {
        '2'
    } else if d == 3 {
        '3'
    } else if d == 4 {
        '4'
    } else if d == 5 {
        '5'
    } else if d == 6 {
        '6'
    } else if d == 7 {
        '7'
    } else if d == 8 {
        '8'
    } else {
        '9'
    }
}

/// The decimal rendering of `n`, without leading zeros (what `{}` prints).
pub open spec fn decimal(n: nat) -> Seq<char>
    decreases n,
{
    if n < 10 {
        seq![digit_char(n)]
    } else {
        decimal(n / 10) + seq![digit_char(n % 10)]
    }
}

/// Padding keeps the text as its start and fills with spaces up to the
/// width; text already as wide is kept whole.
pub proof fn lemma_pad_right_fills_with_spaces(s: Seq<char>, width: nat)
    ensures
        pad_right(s, width).len() == if s.len() < width {
            width as int
        } else {
            s.len() as int
        },
        pad_right(s, width).take(s.len() as int) == s,
        forall|i: int| s.len() <= i < pad_right(s, width).len() ==> #[trigger] pad_right(s, width)[i] == ' ',
{
    assert(pad_right(s, width).take(s.len() as int) =~= s);
}

/// The number the decimal digits `s` spell, most significant first.
pub open spec fn digits_value(s: Seq<char>) -> int
    decreases s.len(),
{
    if s.len() == 0 {
        0
    } else {
        digits_value(s.drop_last()) * 10 + (s.last() as int - '0' as int)
    }
}

/// The decimal rendering of a number is made of digits only, spells the
/// number, and has no leading zero.
pub proof fn lemma_decimal_spells_the_number(n: nat)
    ensures
        decimal(n).len() > 0,
        forall|i: int| 0 <= i < decimal(n).len() ==> '0' <= #[trigger] decimal(n)[i] <= '9',
        digits_value(decimal(n)) == n,
        n >= 10 ==> decimal(n)[0] != '0',
    decreases n,
{
    let d = n % 10;
    assert('0' <= digit_char(d) <= '9' && digit_char(d) as int - '0' as int == d);
    if n >= 10 {
        lemma_decimal_spells_the_number(n / 10);
        let s = decimal(n / 10);
        assert(decimal(n) == s + seq![digit_char(d)]);
        assert((s + seq![digit_char(d)]).drop_last() =~= s);
        assert((s + seq![digit_char(d)]).last() == digit_char(d));
        assert(digits_value(decimal(n)) == digits_value(s) * 10 + d);
        assert(n == (n / 10) * 10 + d);
        if n / 10 >= 10 {
        } else {
            assert(decimal(n / 10) == seq![digit_char(n / 10)]);
            assert(n / 10 >= 1);
            assert(digit_char(n / 10) != '0');
        }
    } else {
        assert(seq![digit_char(n)].drop_last() =~= Seq::<char>::empty());
        assert(digits_value(decimal(n)) == digits_value(Seq::<char>::empty()) * 10 + d);
    }
}

/// `s` followed by spaces up to `width` characters (what `{:<width}` prints).
pub open spec fn pad_right(s: Seq<char>, width: nat) -> Seq<char> {
    if s.len() < width {
        s + Seq::new((width - s.len()) as nat, |i: int| ' ')
    } else {
        s
    }
}

/// What `char::is_alphanumeric` returns for `c` (Unicode Alphabetic or Numeric).
pub uninterp spec fn unicode_alphanumeric(c: char) -> bool;

/// What `str::to_lowercase` returns for `s` (Unicode lowercase mapping).
pub uninterp spec fn unicode_lowercase(s: Seq<char>) -> Seq<char>;

/// Calls std's `String::push`, which appends one character.
#[verifier::external_body]
pub(crate) fn push_char(s: &mut String, c: char)
    ensures
        final(s)@ == old(s)@.push(c),
{
    s.push(c);
}

/// `c` is an ASCII character.
pub open spec fn is_ascii_char(c: char) -> bool {
    (c as u32) < 128
}

/// Every character of `s` is ASCII.
pub open spec fn all_ascii(s: Seq<char>) -> bool {
    forall|i: int| 0 <= i < s.len() ==> is_ascii_char(#[trigger] s[i])
}

/// `c` is an ASCII letter or digit.
pub open spec fn ascii_alphanumeric(c: char) -> bool {
    ('a' <= c && c <= 'z') || ('A' <= c && c <= 'Z') || ('0' <= c && c <= '9')
}

/// `c` with an ASCII capital letter made small.
pub open spec fn ascii_lower_char(c: char) -> char {
    if 'A' <= c && c <= 'Z' {
        ((c as u32) + 32) as char
    } else {
        c
    }
}

/// `s` with every ASCII capital letter made small.
pub open spec fn ascii_lowercase(s: Seq<char>) -> Seq<char> {
    Seq::new(s.len(), |i: int| ascii_lower_char(s[i]))
}

/// Calls std's `char::is_alphanumeric`; the result is named, and stated
/// for ASCII characters, where std's documentation makes it the letters
/// and digits. What it is for other characters (Unicode's Alphabetic and
/// Numeric properties) is left unsaid.
#[verifier::external_body]
pub(crate) fn is_alphanumeric(c: char) -> (r: bool)
    ensures
        r == unicode_alphanumeric(c),
        is_ascii_char(c) ==> (r <==> ascii_alphanumeric(c)),
{
    c.is_alphanumeric()
}

/// Calls std's `str::to_lowercase`; the result is named, and stated for
/// ASCII text, which it returns with `A`..`Z` made `a`..`z` and all else
/// kept. What it does to other characters (Unicode's lowercase mapping,
/// which may change the length) is left unsaid.
#[verifier::external_body]
pub(crate) fn to_lowercase(s: &str) -> (r: String)
    ensures
        r@ == unicode_lowercase(s@),
        all_ascii(s@) ==> r@ == ascii_lowercase(s@),
{
    s.to_lowercase()
}

/// A new `String` holding `s`.
pub fn owned(s: &str) -> (r: String)
    ensures
        r@ == s@,
{
    s.to_owned()
}

/// Appends `s` to `out`.
pub fn push_text(out: &mut String, s: &str)
    ensures
        final(out)@ == old(out)@ + s@,
{
    out.append(s);
}

/// The characters of `s`, one per element.
pub fn chars_of(s: &str) -> (r: Vec<char>)
    ensures
        r@ == s@,
{
    let mut out: Vec<char> = Vec::new();
    for c in it: s.chars()
        invariant
            out@ == it.seq().take(it.index() as int),
    {
        out.push(c);
    }
    out
}

/// The character of the decimal digit `d`.
pub fn digit(d: u64) -> (c: char)
    requires
        d < 10,
    ensures
        c == digit_char(d as nat),
{
    match d {
        0 => '0',
        1 => '1',
        2 => '2',
        3 => '3',
        4 => '4',
        5 => '5',
        6 => '6',
        7 => '7',
        8 => '8',
        _ => '9',
    }
}

/// Appends the decimal rendering of `n` to `out`.
pub fn push_decimal(out: &mut String, n: u64)
    ensures
        final(out)@ == old(out)@ + decimal(n as nat),
    decreases n,
{
    if n >= 10 {
        push_decimal(out, n / 10);
    }
    push_char(out, digit(n % 10));
}

/// The decimal rendering of `n`.
pub fn decimal_string(n: u64) -> (r: String)
    ensures
        r@ == decimal(n as nat),
{
    let mut out = String::new();
    push_decimal(&mut out, n);
    out
}

/// Appends `s`, padded with spaces to `width` characters, to `out`.
pub fn push_padded(out: &mut String, s: &str, width: usize)
    ensures
        final(out)@ == old(out)@ + pad_right(s@, width as nat),
{
    let cs = chars_of(s);
    let ghost start = out@;
    push_text(out, s);
    if cs.len() < width {
        let pad = width - cs.len();
        let mut k: usize = 0;
        while k < pad
            invariant
                k <= pad,
                pad == width - s@.len(),
                out@ == start + s@ + Seq::new(k as nat, |i: int| ' '),
            decreases pad - k,
        {
            push_char(out, ' ');
            k = k + 1;
            assert(out@ == start + s@ + Seq::new(k as nat, |i: int| ' '));
        }
    }
    assert(out@ == start + pad_right(s@, width as nat));
}

/// Whether the characters `s` begin with `prefix`.
pub fn starts_with_chars(s: &[char], prefix: &[char]) -> (r: bool)
    ensures
        r == has_prefix(s@, prefix@),
{
    if prefix.len() > s.len() {
        return false;
    }
    let n = prefix.len();
    for i in 0..n
        invariant
            n == prefix@.len(),
            n <= s@.len(),
            forall|j: int| 0 <= j < i ==> s@[j] == prefix@[j],
    {
        if s[i] != prefix[i] {
            return false;
        }
    }
    assert(s@.subrange(0, n as int) == prefix@);
    true
}

/// Whether `pattern` occurs in `s` at position `i`.
pub fn matches_at(s: &[char], pattern: &[char], i: usize) -> (r: bool)
    ensures
        r == occurs_at(s@, pattern@, i as int),
{
    if i > s.len() || pattern.len() > s.len() - i {
        return false;
    }
    let n = pattern.len();
    let sl = s.len();
    for j in 0..n
        invariant
            n == pattern@.len(),
            sl == s@.len(),
            i + n <= s@.len(),
            forall|k: int| 0 <= k < j ==> s@[i + k] == pattern@[k],
    {
        if s[i + j] != pattern[j] {
            assert(s@.subrange(i as int, i + n)[j as int] != pattern@[j as int]);
            return false;
        }
    }
    assert(s@.subrange(i as int, i + n) == pattern@);
    true
}

/// Whether `pattern` occurs anywhere in `s`.
pub fn contains_chars(s: &[char], pattern: &[char]) -> (r: bool)
    ensures
        r == contains_text(s@, pattern@),
{
    if pattern.len() > s.len() {
        assert forall|i: int| !occurs_at(s@, pattern@, i) by {}
        return false;
    }
    let last = s.len() - pattern.len();
    let mut i: usize = 0;
    loop
        invariant
            last == s@.len() - pattern@.len(),
            i <= last,
            forall|k: int| 0 <= k < i ==> !occurs_at(s@, pattern@, k),
        ensures
            forall|k: int| 0 <= k <= last ==> !occurs_at(s@, pattern@, k),
        decreases last - i,
    {
        if matches_at(s, pattern, i) {
            return true;
        }
        if i == last {
            break;
        }
        i = i + 1;
    }
    assert forall|k: int| !occurs_at(s@, pattern@, k) by {
        if 0 <= k && k <= last {
        }
    }
    false
}

/// Whether the text `s` contains the text `pattern`.
pub fn text_contains(s: &str, pattern: &str) -> (r: bool)
    ensures
        r == contains_text(s@, pattern@),
{
    let a = chars_of(s);
    let b = chars_of(pattern);
    contains_chars(a.as_slice(), b.as_slice())
}

/// Whether the text `s` begins with the text `prefix`.
pub fn text_starts_with(s: &str, prefix: &str) -> (r: bool)
    ensures
        r == has_prefix(s@, prefix@),
{
    let a = chars_of(s);
    let b = chars_of(prefix);
    starts_with_chars(a.as_slice(), b.as_slice())
}

} // verus!
