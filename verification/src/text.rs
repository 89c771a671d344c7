//! Text handling over character sequences: decimal numbers, trimming,
//! prefixes, splitting and path joining, each stated over `Seq<char>`.

use vstd::prelude::*;

verus! {

/// Appends one character to a string.
///
/// Calls `String::push`; the contract claims that the string afterwards is the
/// old one with `c` added at its end, as std documents.
#[verifier::external_body]
pub(crate) fn push_char(s: &mut String, c: char)
    ensures
        final(s)@ == old(s)@.push(c),
{
    s.push(c);
}

/// The character of a decimal digit.
pub open spec fn digit_char(d: int) -> char {
    (48 + d) as char
}

/// The decimal digits of `n`, most significant first, without leading zeros.
pub open spec fn dec_seq(n: nat) -> Seq<char>
    decreases n,
{
    if n < 10 {
        seq![digit_char(n as int)]
    } else {
        dec_seq(n / 10).push(digit_char((n % 10) as int))
    }
}

fn digit_to_char(d: u64) -> (c: char)
    requires
        d < 10,
    ensures
        c == digit_char(d as int),
{
    let b: u8 = 48 + d as u8;
    b as char
}

/// Appends the decimal digits of `n` to `s`.
pub fn push_decimal(s: &mut String, n: u64)
    ensures
        final(s)@ == old(s)@ + dec_seq(n as nat),
    decreases n,
{
    if n >= 10 {
        push_decimal(s, n / 10);
    }
    let c = digit_to_char(n % 10);
    push_char(s, c);
    proof {
        assert(old(s)@ + dec_seq(n as nat) =~= (old(s)@ + dec_seq((n / 10) as nat)).push(c) || n
            < 10);
    }
}

/// The decimal digits of `n` as a string.
pub fn decimal(n: u64) -> (s: String)
    ensures
        s@ == dec_seq(n as nat),
{
    let mut s = String::new();
    push_decimal(&mut s, n);
    assert(s@ =~= dec_seq(n as nat));
    s
}

/// `c` is a decimal digit.
pub open spec fn is_digit(c: char) -> bool {
    '0' <= c <= '9'
}

/// The value of a decimal digit.
pub open spec fn digit_value(c: char) -> nat {
    (c as int - 48) as nat
}

/// The value of a string of decimal digits.
pub open spec fn dec_value(ds: Seq<char>) -> nat
    decreases ds.len(),
{
    if ds.len() == 0 {
        0
    } else {
        dec_value(ds.drop_last()) * 10 + digit_value(ds.last())
    }
}

/// All characters are decimal digits.
pub open spec fn all_digits(ds: Seq<char>) -> bool {
    forall|i: int| 0 <= i < ds.len() ==> is_digit(#[trigger] ds[i])
}

/// The digits that an unsigned integer parse reads: all after one leading `+`.
pub open spec fn unsigned_digits(s: Seq<char>) -> Seq<char> {
    if s.len() > 1 && s[0] == '+' {
        s.skip(1)
    } else {
        s
    }
}

/// What parsing `s` as an unsigned decimal integer no greater than `max` gives:
/// one optional leading `+`, then one or more decimal digits whose value is at
/// most `max`; anything else is `None`.
pub open spec fn parse_unsigned_spec(s: Seq<char>, max: nat) -> Option<nat> {
    let ds = unsigned_digits(s);
    if ds.len() >= 1 && all_digits(ds) && dec_value(ds) <= max {
        Some(dec_value(ds))
    } else {
        None
    }
}

proof fn lemma_dec_value_take_succ(ds: Seq<char>, i: int)
    requires
        0 <= i < ds.len(),
    ensures
        dec_value(ds.take(i + 1)) == dec_value(ds.take(i)) * 10 + digit_value(ds[i]),
{
    assert(ds.take(i + 1).drop_last() =~= ds.take(i));
}

proof fn lemma_dec_value_grows(ds: Seq<char>, i: int, j: int)
    requires
        0 <= i <= j <= ds.len(),
        all_digits(ds),
    ensures
        dec_value(ds.take(i)) <= dec_value(ds.take(j)),
    decreases j - i,
{
    if i < j {
        lemma_dec_value_grows(ds, i, j - 1);
        lemma_dec_value_take_succ(ds, j - 1);
    }
}

/// Parses an unsigned decimal integer no greater than `max`, as std's integer
/// parsing does for unsigned types.
pub fn parse_unsigned(s: &str, max: u64) -> (r: Option<u64>)
    ensures
        match r {
            Some(v) => parse_unsigned_spec(s@, max as nat) == Some(v as nat),
            None => parse_unsigned_spec(s@, max as nat) is None,
        },
{
    let n = s.unicode_len();
    let mut start: usize = 0;
    if n > 1 && s.get_char(0) == '+' {
        start = 1;
    }
    let ghost ds = unsigned_digits(s@);
    assert(ds =~= s@.skip(start as int));
    if start >= n {
        return None;
    }
    let mut value: u64 = 0;
    let mut i: usize = start;
    while i < n
        invariant
            n == s@.len(),
            start <= i <= n,
            start < n,
            ds == s@.skip(start as int),
            ds == unsigned_digits(s@),
            all_digits(ds.take(i - start)),
            value as nat == dec_value(ds.take(i - start)),
            value <= max,
        decreases n - i,
    {
        let c = s.get_char(i);
        assert(c == ds[i - start]);
        if !('0' <= c && c <= '9') {
            assert(!all_digits(ds)) by {
                assert(!is_digit(ds[i - start]));
            }
            return None;
        }
        let d: u64 = (c as u32 - 48) as u64;
        if d > max {
            proof {
                if all_digits(ds) {
                    lemma_dec_value_take_succ(ds, i - start);
                    lemma_dec_value_grows(ds, i - start + 1, ds.len() as int);
                    assert(ds.take(ds.len() as int) =~= ds);
                }
            }
            return None;
        }
        proof {
            lemma_dec_value_take_succ(ds, i - start);
            assert(ds.take(i - start + 1).drop_last() =~= ds.take(i - start));
            assert forall|k: int| 0 <= k < i - start + 1 implies is_digit(
                #[trigger] ds.take(i - start + 1)[k],
            ) by {
                if k < i - start {
                    assert(ds.take(i - start + 1)[k] == ds.take(i - start)[k]);
                }
            }
        }
        if value > (max - d) / 10 {
            proof {
                assert(value * 10 + d > max) by (nonlinear_arith)
                    requires
                        value > (max - d) / 10,
                        d <= 9,
                        d <= max || value > 0,
                ;
                if all_digits(ds) {
                    lemma_dec_value_grows(ds, i - start + 1, ds.len() as int);
                    assert(ds.take(ds.len() as int) =~= ds);
                }
            }
            return None;
        }
        assert(value * 10 + d <= max) by (nonlinear_arith)
            requires
                value <= (max - d) / 10,
                d <= max,
        ;
        value = value * 10 + d;
        i = i + 1;
    }
    assert(ds.take(i - start) =~= ds);
    Some(value)
}


/// Why a text is not an unsigned integer, as std's integer parsing reports it.
#[derive(Debug, Clone, Copy, PartialEq, Eq, Structural)]
pub enum ParseFailure {
    /// The text is empty.
    Empty,
    /// A character is not a decimal digit.
    InvalidDigit,
    /// The number is larger than the type holds.
    TooLarge,
}

/// The first failure met reading the digits from position `i` on: a
/// character that is not a digit, or a prefix whose value is above `max`.
pub open spec fn first_failure(ds: Seq<char>, max: nat, i: int) -> Option<ParseFailure>
    decreases ds.len() - i,
{
    if i < 0 || i >= ds.len() {
        None
    } else if !is_digit(ds[i]) {
        Some(ParseFailure::InvalidDigit)
    } else if dec_value(ds.take(i + 1)) > max {
        Some(ParseFailure::TooLarge)
    } else {
        first_failure(ds, max, i + 1)
    }
}

/// Why `s` does not parse as an unsigned integer no greater than `max`.
pub open spec fn parse_failure_spec(s: Seq<char>, max: nat) -> ParseFailure {
    if s.len() == 0 {
        ParseFailure::Empty
    } else {
        match first_failure(unsigned_digits(s), max, 0) {
            Some(f) => f,
            None => ParseFailure::InvalidDigit,
        }
    }
}

impl ParseFailure {
    /// The text std gives this failure.
    pub open spec fn message_spec(self) -> Seq<char> {
        match self {
            ParseFailure::Empty => "cannot parse integer from empty string"@,
            ParseFailure::InvalidDigit => "invalid digit found in string"@,
            ParseFailure::TooLarge => "number too large to fit in target type"@,
        }
    }

    /// The text std gives this failure.
    pub fn message(&self) -> (s: String)
        ensures
            s@ == self.message_spec(),
    {
        match self {
            ParseFailure::Empty => String::from_str("cannot parse integer from empty string"),
            ParseFailure::InvalidDigit => String::from_str("invalid digit found in string"),
            ParseFailure::TooLarge => String::from_str("number too large to fit in target type"),
        }
    }
}

/// Why a text that does not parse as an unsigned integer no greater than
/// `max` fails.
pub fn parse_failure(s: &str, max: u64) -> (f: ParseFailure)
    requires
        parse_unsigned_spec(s@, max as nat) is None,
    ensures
        f == parse_failure_spec(s@, max as nat),
{
    let n = s.unicode_len();
    if n == 0 {
        return ParseFailure::Empty;
    }
    let mut start: usize = 0;
    if n > 1 && s.get_char(0) == '+' {
        start = 1;
    }
    let ghost ds = unsigned_digits(s@);
    assert(ds =~= s@.skip(start as int));
    let mut value: u64 = 0;
    let mut i: usize = start;
    assert(ds.take(0) =~= Seq::<char>::empty());
    while i < n
        invariant
            n == s@.len(),
            start <= i <= n,
            start < n,
            ds == s@.skip(start as int),
            ds == unsigned_digits(s@),
            all_digits(ds.take(i - start)),
            value as nat == dec_value(ds.take(i - start)),
            value <= max,
            first_failure(ds, max as nat, 0) == first_failure(ds, max as nat, i - start),
        decreases n - i,
    {
        let c = s.get_char(i);
        assert(c == ds[i - start]);
        if !('0' <= c && c <= '9') {
            return ParseFailure::InvalidDigit;
        }
        let d: u64 = (c as u32 - 48) as u64;
        proof {
            lemma_dec_value_take_succ(ds, i - start);
        }
        if d > max || value > (max - d) / 10 {
            proof {
                if d <= max {
                    assert(value * 10 + d > max) by (nonlinear_arith)
                        requires
                            value > (max - d) / 10,
                            d <= 9,
                            d <= max,
                    ;
                }
            }
            return ParseFailure::TooLarge;
        }
        assert(value * 10 + d <= max) by (nonlinear_arith)
            requires
                value <= (max - d) / 10,
                d <= max,
        ;
        proof {
            assert forall|k: int| 0 <= k < i - start + 1 implies is_digit(
                #[trigger] ds.take(i - start + 1)[k],
            ) by {
                if k < i - start {
                    assert(ds.take(i - start + 1)[k] == ds.take(i - start)[k]);
                }
            }
        }
        value = value * 10 + d;
        i = i + 1;
    }
    proof {
        assert(ds.take(i - start) =~= ds);
        assert(ds.len() >= 1);
    }
    ParseFailure::InvalidDigit
}

/// Rust's notion of whitespace (`char::is_whitespace`): the Unicode White_Space property.
pub open spec fn is_whitespace(c: char) -> bool {
    ||| '\t' <= c <= '\r'
    ||| c == ' '
    ||| c == '\u{85}'
    ||| c == '\u{A0}'
    ||| c == '\u{1680}'
    ||| '\u{2000}' <= c <= '\u{200A}'
    ||| c == '\u{2028}'
    ||| c == '\u{2029}'
    ||| c == '\u{202F}'
    ||| c == '\u{205F}'
    ||| c == '\u{3000}'
}

pub fn char_is_whitespace(c: char) -> (b: bool)
    ensures
        b == is_whitespace(c),
{
    ('\t' <= c && c <= '\r') || c == ' ' || c == '\u{85}' || c == '\u{A0}' || c == '\u{1680}' || (
    '\u{2000}' <= c && c <= '\u{200A}') || c == '\u{2028}' || c == '\u{2029}' || c == '\u{202F}'
        || c == '\u{205F}' || c == '\u{3000}'
}

/// `s` without its leading whitespace.
pub open spec fn trim_start_spec(s: Seq<char>) -> Seq<char>
    decreases s.len(),
{
    if s.len() > 0 && is_whitespace(s[0]) {
        trim_start_spec(s.drop_first())
    } else {
        s
    }
}

/// `s` without its trailing whitespace.
pub open spec fn trim_end_spec(s: Seq<char>) -> Seq<char>
    decreases s.len(),
{
    if s.len() > 0 && is_whitespace(s.last()) {
        trim_end_spec(s.drop_last())
    } else {
        s
    }
}

/// `s` without leading and trailing whitespace (what `str::trim` gives).
pub open spec fn trim_spec(s: Seq<char>) -> Seq<char> {
    trim_end_spec(trim_start_spec(s))
}

pub proof fn lemma_trim_start_skip(s: Seq<char>, i: int)
    requires
        0 <= i <= s.len(),
        forall|k: int| 0 <= k < i ==> is_whitespace(#[trigger] s[k]),
    ensures
        trim_start_spec(s) == trim_start_spec(s.skip(i)),
    decreases i,
{
    if i > 0 {
        assert(s.skip(1) =~= s.drop_first());
        lemma_trim_start_skip(s.drop_first(), i - 1);
        assert(s.drop_first().skip(i - 1) =~= s.skip(i));
    } else {
        assert(s.skip(0) =~= s);
    }
}

proof fn lemma_trim_end_take(s: Seq<char>, j: int)
    requires
        0 <= j <= s.len(),
        forall|k: int| j <= k < s.len() ==> is_whitespace(#[trigger] s[k]),
    ensures
        trim_end_spec(s) == trim_end_spec(s.take(j)),
    decreases s.len() - j,
{
    if j < s.len() {
        lemma_trim_end_take(s.drop_last(), j);
        assert(s.drop_last().take(j) =~= s.take(j));
    } else {
        assert(s.take(j) =~= s);
    }
}

/// The part of `s` between `from` and `to` as a string.
pub fn substring(s: &str, from: usize, to: usize) -> (r: String)
    requires
        from <= to <= s@.len(),
    ensures
        r@ == s@.subrange(from as int, to as int),
{
    String::from_str(s.substring_char(from, to))
}

/// `s` without leading and trailing whitespace, as `str::trim` gives it.
pub fn trim(s: &str) -> (r: String)
    ensures
        r@ == trim_spec(s@),
{
    let n = s.unicode_len();
    let mut i: usize = 0;
    while i < n && char_is_whitespace(s.get_char(i))
        invariant
            n == s@.len(),
            i <= n,
            forall|k: int| 0 <= k < i ==> is_whitespace(#[trigger] s@[k]),
        decreases n - i,
    {
        i = i + 1;
    }
    let ghost rest = s@.skip(i as int);
    proof {
        lemma_trim_start_skip(s@, i as int);
        if i < n {
            assert(rest[0] == s@[i as int]);
        }
        assert(trim_start_spec(rest) == rest);
    }
    let mut j: usize = n;
    while j > i && char_is_whitespace(s.get_char(j - 1))
        invariant
            n == s@.len(),
            i <= j <= n,
            rest == s@.skip(i as int),
            forall|k: int| j - i <= k < rest.len() ==> is_whitespace(#[trigger] rest[k]),
        decreases j,
    {
        assert(rest[j - 1 - i] == s@[j - 1]);
        j = j - 1;
    }
    proof {
        lemma_trim_end_take(rest, j - i);
        let t = rest.take(j - i);
        if j > i {
            assert(t.last() == s@[j - 1]);
        }
        assert(trim_end_spec(t) == t);
        assert(t =~= s@.subrange(i as int, j as int));
    }
    substring(s, i, j)
}

/// `s` starts with `p`.
pub open spec fn starts_with_spec(s: Seq<char>, p: Seq<char>) -> bool {
    p.len() <= s.len() && s.take(p.len() as int) == p
}

/// Whether `s` starts with `p`.
pub fn starts_with(s: &str, p: &str) -> (b: bool)
    ensures
        b == starts_with_spec(s@, p@),
{
    let n = s.unicode_len();
    let m = p.unicode_len();
    if m > n {
        return false;
    }
    let mut i: usize = 0;
    while i < m
        invariant
            n == s@.len(),
            m == p@.len(),
            m <= n,
            i <= m,
            forall|k: int| 0 <= k < i ==> s@[k] == p@[k],
        decreases m - i,
    {
        if s.get_char(i) != p.get_char(i) {
            assert(s@.take(m as int)[i as int] != p@[i as int]);
            return false;
        }
        i = i + 1;
    }
    assert(s@.take(m as int) =~= p@);
    true
}

/// Whether two strings hold the same characters.
pub fn str_eq(a: &str, b: &str) -> (r: bool)
    ensures
        r == (a@ == b@),
{
    if a.unicode_len() != b.unicode_len() {
        return false;
    }
    let r = starts_with(a, b);
    assert(a@.take(b@.len() as int) =~= a@);
    r
}

/// `s` with every leading repetition of the non-empty pattern `p` removed
/// (what `str::trim_start_matches` gives for a string pattern).
pub open spec fn trim_start_matches_spec(s: Seq<char>, p: Seq<char>) -> Seq<char>
    decreases s.len(),
{
    if p.len() > 0 && starts_with_spec(s, p) {
        trim_start_matches_spec(s.skip(p.len() as int), p)
    } else {
        s
    }
}

/// Whether `s` holds `p` from position `at` on.
fn matches_at(s: &str, p: &str, at: usize) -> (b: bool)
    requires
        at <= s@.len(),
    ensures
        b == starts_with_spec(s@.skip(at as int), p@),
{
    let n = s.unicode_len();
    let m = p.unicode_len();
    if m > n - at {
        return false;
    }
    let ghost t = s@.skip(at as int);
    let mut i: usize = 0;
    while i < m
        invariant
            n == s@.len(),
            m == p@.len(),
            at + m <= n,
            t == s@.skip(at as int),
            i <= m,
            forall|k: int| 0 <= k < i ==> t[k] == p@[k],
        decreases m - i,
    {
        if s.get_char(at + i) != p.get_char(i) {
            assert(t.take(m as int)[i as int] != p@[i as int]);
            return false;
        }
        i = i + 1;
    }
    assert(t.take(m as int) =~= p@);
    true
}

/// `s` with every leading repetition of the non-empty pattern `p` removed,
/// as `str::trim_start_matches` gives it.
pub fn trim_start_matches(s: &str, p: &str) -> (r: String)
    requires
        p@.len() > 0,
    ensures
        r@ == trim_start_matches_spec(s@, p@),
{
    let n = s.unicode_len();
    let m = p.unicode_len();
    let mut at: usize = 0;
    assert(s@.skip(0) =~= s@);
    while matches_at(s, p, at)
        invariant
            n == s@.len(),
            m == p@.len(),
            m > 0,
            at <= n,
            trim_start_matches_spec(s@, p@) == trim_start_matches_spec(s@.skip(at as int), p@),
        decreases n - at,
    {
        assert(s@.skip(at as int).skip(m as int) =~= s@.skip(at + m));
        at = at + m;
    }
    substring(s, at, n)
}

/// The first position at or after `from` where `s` holds `c`, if any.
pub open spec fn find_from(s: Seq<char>, c: char, from: int) -> Option<int>
    decreases s.len() - from,
{
    if from < 0 || from >= s.len() {
        None
    } else if s[from] == c {
        Some(from)
    } else {
        find_from(s, c, from + 1)
    }
}

/// The first position at or after `from` where `s` holds `c`, if any.
pub fn find_char_from(s: &str, c: char, from: usize) -> (r: Option<usize>)
    ensures
        match r {
            Some(i) => find_from(s@, c, from as int) == Some(i as int),
            None => find_from(s@, c, from as int) is None,
        },
{
    let n = s.unicode_len();
    let mut i: usize = from;
    while i < n
        invariant
            n == s@.len(),
            from <= i,
            find_from(s@, c, from as int) == find_from(s@, c, i as int),
        decreases n - i,
    {
        if s.get_char(i) == c {
            return Some(i);
        }
        i = i + 1;
    }
    None
}

pub proof fn lemma_find_from_props(s: Seq<char>, c: char, from: int)
    requires
        0 <= from,
    ensures
        find_from(s, c, from) matches Some(i) ==> from <= i < s.len() && s[i] == c && forall|
            k: int,
        |
            from <= k < i ==> s[k] != c,
        find_from(s, c, from) is None ==> forall|k: int| from <= k < s.len() ==> s[k] != c,
    decreases s.len() - from,
{
    if from < s.len() && s[from] != c {
        lemma_find_from_props(s, c, from + 1);
    }
}

/// ASCII letters in `c` turned to lower case (what `char::to_ascii_lowercase` gives).
pub open spec fn ascii_lower(c: char) -> char {
    if 'A' <= c <= 'Z' {
        ((c as int) + 32) as char
    } else {
        c
    }
}

/// `s` with its ASCII letters in lower case.
pub open spec fn ascii_lower_seq(s: Seq<char>) -> Seq<char> {
    Seq::new(s.len(), |i: int| ascii_lower(s[i]))
}

/// `s` holds `p` somewhere.
pub open spec fn contains_spec(s: Seq<char>, p: Seq<char>) -> bool {
    exists|i: int| 0 <= i <= s.len() - p.len() && #[trigger] s.subrange(i, i + p.len()) == p
}

/// `s` holds `p` somewhere.
pub fn contains(s: &str, p: &str) -> (b: bool)
    ensures
        b == contains_spec(s@, p@),
{
    let n = s.unicode_len();
    let m = p.unicode_len();
    if m > n {
        return false;
    }
    if m == 0 {
        assert(s@.subrange(0, 0 + p@.len() as int) =~= p@);
        return true;
    }
    let mut i: usize = 0;
    while i <= n - m
        invariant
            n == s@.len(),
            m == p@.len(),
            0 < m <= n,
            forall|k: int| 0 <= k < i ==> #[trigger] s@.subrange(k, k + m) != p@,
        decreases n - m + 1 - i,
    {
        if matches_at(s, p, i) {
            assert(s@.skip(i as int).take(m as int) =~= s@.subrange(i as int, i + m));
            return true;
        }
        assert(s@.skip(i as int).take(m as int) =~= s@.subrange(i as int, i + m));
        i = i + 1;
    }
    false
}

/// `s` with its ASCII letters in lower case, as `str::to_ascii_lowercase` gives it.
pub fn to_ascii_lowercase(s: &str) -> (r: String)
    ensures
        r@ == ascii_lower_seq(s@),
{
    let n = s.unicode_len();
    let mut r = String::new();
    let mut i: usize = 0;
    while i < n
        invariant
            n == s@.len(),
            i <= n,
            r@ == ascii_lower_seq(s@).take(i as int),
        decreases n - i,
    {
        let c = s.get_char(i);
        let l = if 'A' <= c && c <= 'Z' {
            ((c as u32 + 32) as u8) as char
        } else {
            c
        };
        push_char(&mut r, l);
        assert(ascii_lower_seq(s@).take(i + 1) =~= ascii_lower_seq(s@).take(i as int).push(l));
        i = i + 1;
    }
    assert(ascii_lower_seq(s@).take(n as int) =~= ascii_lower_seq(s@));
    r
}

/// A relative component joined onto a path, as `Path::join` does on Unix for a
/// component that does not start with `/`: no separator after an empty base or
/// one that already ends with `/`.
pub open spec fn join_spec(base: Seq<char>, comp: Seq<char>) -> Seq<char> {
    if base.len() == 0 || base.last() == '/' {
        base + comp
    } else {
        base + seq!['/'] + comp
    }
}

/// Joins a relative component that does not start with `/` onto a path.
pub fn join_path(base: &str, comp: &str) -> (r: String)
    requires
        comp@.len() == 0 || comp@[0] != '/',
    ensures
        r@ == join_spec(base@, comp@),
{
    let n = base.unicode_len();
    let mut r = String::from_str(base);
    if n > 0 && base.get_char(n - 1) != '/' {
        push_char(&mut r, '/');
    }
    r.append(comp);
    r
}


/// The decimal digits of a number are digits, at least one, and read back as the number.
pub proof fn lemma_dec_seq(n: nat)
    ensures
        dec_seq(n).len() >= 1,
        all_digits(dec_seq(n)),
        dec_value(dec_seq(n)) == n,
    decreases n,
{
    let d = dec_seq(n);
    let last = digit_char((n % 10) as int);
    assert(last as int == 48 + (n % 10) as int);
    assert(digit_value(last) == n % 10);
    if n < 10 {
        assert(d.drop_last() =~= Seq::<char>::empty());
        assert(d.last() == last);
        assert(dec_value(d) == dec_value(d.drop_last()) * 10 + digit_value(d.last()));
        assert(dec_value(Seq::<char>::empty()) == 0);
    }
    if n >= 10 {
        lemma_dec_seq(n / 10);
        assert(d.drop_last() =~= dec_seq(n / 10));
        assert(d.last() == last);
        assert(dec_value(d) == dec_value(d.drop_last()) * 10 + digit_value(d.last()));
        assert(n == (n / 10) * 10 + n % 10);
        assert forall|i: int| 0 <= i < d.len() implies is_digit(#[trigger] d[i]) by {
            if i < d.len() - 1 {
                assert(d[i] == dec_seq(n / 10)[i]);
            }
        }
    }
}

/// Parsing the decimal digits of a number gives the number back.
pub proof fn lemma_parse_dec_seq(n: nat, max: nat)
    requires
        n <= max,
    ensures
        parse_unsigned_spec(dec_seq(n), max) == Some(n),
{
    lemma_dec_seq(n);
    assert(is_digit(dec_seq(n)[0]));
}

/// Stripping a pattern from the front of text that starts with it once.
pub proof fn lemma_trim_start_matches_once(p: Seq<char>, rest: Seq<char>)
    requires
        p.len() > 0,
        !starts_with_spec(rest, p),
    ensures
        trim_start_matches_spec(p + rest, p) == rest,
{
    let s = p + rest;
    assert(s.take(p.len() as int) =~= p);
    assert(s.skip(p.len() as int) =~= rest);
    assert(trim_start_matches_spec(rest, p) == rest);
    assert(starts_with_spec(s, p));
}

/// Where a character first occurs in a concatenation whose first part lacks it.
pub proof fn lemma_find_from_concat(a: Seq<char>, b: Seq<char>, c: char)
    requires
        forall|k: int| 0 <= k < a.len() ==> a[k] != c,
    ensures
        find_from(a + b, c, 0) == (match find_from(b, c, 0) {
            Some(i) => Some(a.len() + i),
            None => None,
        }),
{
    assert forall|k: int| 0 <= k < a.len() implies (a + b)[k] != c by {
        assert((a + b)[k] == a[k]);
    }
    lemma_find_from_skip(a + b, c, 0, a.len() as int);
    lemma_find_from_offset(a, b, c, 0);
}

pub proof fn lemma_find_from_skip(s: Seq<char>, c: char, from: int, to: int)
    requires
        0 <= from <= to <= s.len(),
        forall|k: int| from <= k < to ==> s[k] != c,
    ensures
        find_from(s, c, from) == find_from(s, c, to),
    decreases to - from,
{
    if from < to {
        lemma_find_from_skip(s, c, from + 1, to);
    }
}

proof fn lemma_find_from_offset(a: Seq<char>, b: Seq<char>, c: char, from: int)
    requires
        0 <= from <= b.len(),
    ensures
        find_from(a + b, c, a.len() + from) == (match find_from(b, c, from) {
            Some(i) => Some(a.len() + i),
            None => None,
        }),
    decreases b.len() - from,
{
    if from < b.len() {
        assert((a + b)[a.len() + from] == b[from]);
        if b[from] != c {
            lemma_find_from_offset(a, b, c, from + 1);
        }
    }
}

/// Decimal digits never hold a given non-digit character.
pub proof fn lemma_dec_seq_lacks(n: nat, c: char)
    requires
        !is_digit(c),
    ensures
        forall|k: int| 0 <= k < dec_seq(n).len() ==> dec_seq(n)[k] != c,
{
    lemma_dec_seq(n);
}

} // verus!
