//! Byte- and text-level helpers shared by the parser and the response
//! writer: ASCII whitespace trimming, ASCII lower-casing, decimal
//! rendering and parsing, byte search, and the two conversions that go
//! through the standard library's UTF-8 machinery.

use vstd::prelude::*;

verus! {

/// ASCII whitespace: space, tab, carriage return, line feed.
pub open spec fn is_ws(b: u8) -> bool {
    b == 32 || b == 9 || b == 13 || b == 10
}

/// The sequence with leading ASCII whitespace removed.
pub open spec fn trim_start(s: Seq<u8>) -> Seq<u8>
    decreases s.len(),
{
    if s.len() > 0 && is_ws(s[0]) {
        trim_start(s.drop_first())
    } else {
        s
    }
}

/// The sequence with trailing ASCII whitespace removed.
pub open spec fn trim_end(s: Seq<u8>) -> Seq<u8>
    decreases s.len(),
{
    if s.len() > 0 && is_ws(s.last()) {
        trim_end(s.drop_last())
    } else {
        s
    }
}

/// The sequence with whitespace removed from both ends.
pub open spec fn spec_trim(s: Seq<u8>) -> Seq<u8> {
    trim_end(trim_start(s))
}

/// Copy of `s[from..to]`.
pub fn subrange_vec(s: &[u8], from: usize, to: usize) -> (r: Vec<u8>)
    requires
        from <= to <= s@.len(),
    ensures
        r@ == s@.subrange(from as int, to as int),
{
    let mut r: Vec<u8> = Vec::new();
    let mut i: usize = from;
    while i < to
        invariant
            from <= i <= to <= s@.len(),
            r@ == s@.subrange(from as int, i as int),
        decreases to - i,
    {
        r.push(s[i]);
        proof {
            assert(r@ =~= s@.subrange(from as int, i + 1));
        }
        i = i + 1;
    }
    r
}

/// Copy of `s` with ASCII whitespace removed from both ends.
#[verifier::loop_isolation(false)]
pub fn trim_bytes(s: &Vec<u8>) -> (r: Vec<u8>)
    ensures
        r@ == spec_trim(s@),
{
    let n = s.len();
    proof {
        assert(s@.subrange(0, n as int) =~= s@);
    }
    let mut lo: usize = 0;
    while lo < n && (s[lo] == 32 || s[lo] == 9 || s[lo] == 13 || s[lo] == 10)
        invariant
            lo <= n,
            trim_start(s@) == trim_start(s@.subrange(lo as int, n as int)),
        decreases n - lo,
    {
        proof {
            assert(s@.subrange(lo as int, n as int).drop_first() =~= s@.subrange(lo + 1, n as int));
        }
        lo = lo + 1;
    }
    proof {
        if lo == n {
            assert(s@.subrange(lo as int, n as int) =~= Seq::<u8>::empty());
        }
        assert(trim_start(s@) == s@.subrange(lo as int, n as int));
    }
    let mut hi: usize = n;
    while hi > lo && (s[hi - 1] == 32 || s[hi - 1] == 9 || s[hi - 1] == 13 || s[hi - 1] == 10)
        invariant
            lo <= hi <= n,
            trim_end(s@.subrange(lo as int, n as int)) == trim_end(s@.subrange(lo as int, hi as int)),
        decreases hi,
    {
        proof {
            assert(s@.subrange(lo as int, hi as int).drop_last() =~= s@.subrange(lo as int, hi - 1));
        }
        hi = hi - 1;
    }
    proof {
        if hi == lo {
            assert(s@.subrange(lo as int, hi as int) =~= Seq::<u8>::empty());
        }
        assert(trim_end(s@.subrange(lo as int, n as int)) == s@.subrange(lo as int, hi as int));
    }
    subrange_vec(s.as_slice(), lo, hi)
}

/// The byte with an ASCII upper-case letter folded to lower case.
pub open spec fn lower_byte(b: u8) -> u8 {
    if 65 <= b <= 90 {
        (b + 32) as u8
    } else {
        b
    }
}

/// The sequence with every ASCII upper-case letter folded to lower case.
pub open spec fn lower_bytes(s: Seq<u8>) -> Seq<u8> {
    Seq::new(s.len(), |i: int| lower_byte(s[i]))
}

/// Copy of `s` with every ASCII upper-case letter folded to lower case.
pub fn ascii_lower(s: &Vec<u8>) -> (r: Vec<u8>)
    ensures
        r@ == lower_bytes(s@),
{
    let n = s.len();
    let mut r: Vec<u8> = Vec::new();
    let mut i: usize = 0;
    while i < n
        invariant
            i <= n,
            n == s@.len(),
            r@ == lower_bytes(s@.subrange(0, i as int)),
        decreases n - i,
    {
        let b = s[i];
        if 65 <= b && b <= 90 {
            r.push(b + 32);
        } else {
            r.push(b);
        }
        proof {
            assert(r@ =~= lower_bytes(s@.subrange(0, i + 1)));
        }
        i = i + 1;
    }
    proof {
        assert(s@.subrange(0, n as int) =~= s@);
    }
    r
}

/// The first position at or after `from` holding byte `b`, if any.
pub open spec fn find_from(s: Seq<u8>, from: int, b: u8) -> Option<int>
    decreases s.len() - from,
{
    if from < 0 || from >= s.len() {
        None
    } else if s[from] == b {
        Some(from)
    } else {
        find_from(s, from + 1, b)
    }
}

/// Scan for the first occurrence of `b` at or after `from`.
#[verifier::loop_isolation(false)]
pub fn find_byte(s: &[u8], from: usize, b: u8) -> (r: Option<usize>)
    requires
        from <= s@.len(),
    ensures
        r == match find_from(s@, from as int, b) {
            Some(i) => Some(i as usize),
            None => None::<usize>,
        },
{
    let n = s.len();
    let mut i: usize = from;
    while i < n
        invariant
            from <= i <= n,
            find_from(s@, from as int, b) == find_from(s@, i as int, b),
        decreases n - i,
    {
        if s[i] == b {
            return Some(i);
        }
        i = i + 1;
    }
    None
}

/// The decimal digit characters of `n`, most significant first.
pub open spec fn spec_digit_char(d: int) -> char {
    if d == 0 { '0' } else if d == 1 { '1' } else if d == 2 { '2' } else if d == 3 { '3' }
    else if d == 4 { '4' } else if d == 5 { '5' } else if d == 6 { '6' } else if d == 7 { '7' }
    else if d == 8 { '8' } else { '9' }
}

/// Decimal rendering of a non-negative integer, without leading zeros
/// (a single `'0'` for zero).
pub open spec fn spec_decimal(n: int) -> Seq<char>
    decreases n,
{
    if n < 10 {
        seq![spec_digit_char(n)]
    } else {
        spec_decimal(n / 10).push(spec_digit_char(n % 10))
    }
}

/// One decimal digit as a string.
fn digit_str(d: usize) -> (r: &'static str)
    requires
        d < 10,
    ensures
        r@ == seq![spec_digit_char(d as int)],
{
    proof {
        reveal_strlit("0");
        reveal_strlit("1");
        reveal_strlit("2");
        reveal_strlit("3");
        reveal_strlit("4");
        reveal_strlit("5");
        reveal_strlit("6");
        reveal_strlit("7");
        reveal_strlit("8");
        reveal_strlit("9");
    }
    let r = if d == 0 { "0" } else if d == 1 { "1" } else if d == 2 { "2" } else if d == 3 { "3" }
    else if d == 4 { "4" } else if d == 5 { "5" } else if d == 6 { "6" } else if d == 7 { "7" }
    else if d == 8 { "8" } else { "9" };
    proof {
        assert(r@ =~= seq![spec_digit_char(d as int)]);
    }
    r
}

/// Render `n` in decimal.
pub fn usize_to_string(n: usize) -> (s: String)
    ensures
        s@ == spec_decimal(n as int),
    decreases n,
{
    if n < 10 {
        String::from_str(digit_str(n))
    } else {
        let mut s = usize_to_string(n / 10);
        s.append(digit_str(n % 10));
        proof {
            assert(spec_decimal((n / 10) as int) + seq![spec_digit_char((n % 10) as int)]
                =~= spec_decimal((n / 10) as int).push(spec_digit_char((n % 10) as int)));
        }
        s
    }
}

/// An ASCII decimal digit.
pub open spec fn is_digit(b: u8) -> bool {
    48 <= b <= 57
}

/// All bytes are ASCII decimal digits.
pub open spec fn all_digits(s: Seq<u8>) -> bool {
    forall|i: int| 0 <= i < s.len() ==> is_digit(#[trigger] s[i])
}

/// The value of a digit sequence read in decimal.
pub open spec fn spec_dec_value(s: Seq<u8>) -> int
    decreases s.len(),
{
    if s.len() == 0 {
        0
    } else {
        spec_dec_value(s.drop_last()) * 10 + (s.last() - 48)
    }
}

proof fn lemma_dec_value_nonneg(s: Seq<u8>)
    requires
        all_digits(s),
    ensures
        spec_dec_value(s) >= 0,
    decreases s.len(),
{
    if s.len() > 0 {
        assert(forall|i: int| 0 <= i < s.len() - 1 ==> #[trigger] s.drop_last()[i] == s[i]);
        lemma_dec_value_nonneg(s.drop_last());
    }
}

/// A digit sequence is worth at least any of its prefixes.
proof fn lemma_dec_value_prefix(s: Seq<u8>, i: int)
    requires
        all_digits(s),
        0 <= i <= s.len(),
    ensures
        spec_dec_value(s.take(i)) <= spec_dec_value(s),
    decreases s.len(),
{
    if i == s.len() {
        assert(s.take(i) =~= s);
    } else {
        assert(forall|j: int| 0 <= j < s.len() - 1 ==> #[trigger] s.drop_last()[j] == s[j]);
        assert(s.drop_last().take(i) =~= s.take(i));
        lemma_dec_value_prefix(s.drop_last(), i);
        lemma_dec_value_nonneg(s.drop_last());
    }
}

/// Parse an unsigned decimal number.  Succeeds exactly on a non-empty,
/// all-digit sequence whose value fits in `usize`.
#[verifier::loop_isolation(false)]
pub fn parse_decimal(s: &Vec<u8>) -> (r: Option<usize>)
    ensures
        match r {
            Some(v) => s@.len() > 0 && all_digits(s@) && v == spec_dec_value(s@),
            None => s@.len() == 0 || !all_digits(s@) || spec_dec_value(s@) > usize::MAX,
        },
{
    let n = s.len();
    if n == 0 {
        return None;
    }
    let mut acc: usize = 0;
    let mut i: usize = 0;
    while i < n
        invariant
            i <= n,
            all_digits(s@.take(i as int)),
            acc == spec_dec_value(s@.take(i as int)),
        decreases n - i,
    {
        let b = s[i];
        if !(48 <= b && b <= 57) {
            return None;
        }
        proof {
            assert(all_digits(s@.take(i + 1)));
            assert(s@.take(i + 1).drop_last() =~= s@.take(i as int));
        }
        let shifted = match acc.checked_mul(10) {
            Some(x) => x,
            None => {
                proof {
                    if all_digits(s@) {
                        lemma_dec_value_prefix(s@, i + 1);
                    }
                }
                return None;
            },
        };
        acc = match shifted.checked_add((b - 48) as usize) {
            Some(x) => x,
            None => {
                proof {
                    if all_digits(s@) {
                        lemma_dec_value_prefix(s@, i + 1);
                    }
                }
                return None;
            },
        };
        i = i + 1;
    }
    proof {
        assert(s@.take(n as int) =~= s@);
    }
    Some(acc)
}

/// Compare two byte strings.
#[verifier::loop_isolation(false)]
pub fn bytes_eq(a: &Vec<u8>, b: &Vec<u8>) -> (r: bool)
    ensures
        r == (a@ == b@),
{
    let n = a.len();
    if n != b.len() {
        return false;
    }
    let mut i: usize = 0;
    while i < n
        invariant
            i <= n,
            forall|j: int| 0 <= j < i ==> a@[j] == b@[j],
        decreases n - i,
    {
        if a[i] != b[i] {
            return false;
        }
        i = i + 1;
    }
    proof {
        assert(a@ =~= b@);
    }
    true
}

/// Every byte is ASCII.
pub open spec fn all_ascii(s: Seq<u8>) -> bool {
    forall|i: int| 0 <= i < s.len() ==> #[trigger] s[i] < 128
}

/// The characters of a sequence of ASCII bytes.
pub open spec fn ascii_chars(s: Seq<u8>) -> Seq<char> {
    Seq::new(s.len(), |i: int| s[i] as char)
}

/// The characters `String::from_utf8_lossy` decodes the given bytes to.
pub uninterp spec fn utf8_lossy_of(b: Seq<u8>) -> Seq<char>;

/// Relies on `String::from_utf8_lossy`: the decoding depends on the bytes
/// alone, and ASCII bytes decode to exactly their own characters.
#[verifier::external_body]
pub(crate) fn bytes_to_string_lossy(b: &Vec<u8>) -> (r: String)
    ensures
        r@ == utf8_lossy_of(b@),
        all_ascii(b@) ==> r@ == ascii_chars(b@),
{
    String::from_utf8_lossy(b.as_slice()).into_owned()
}

/// Every character is ASCII.
pub open spec fn all_ascii_chars(s: Seq<char>) -> bool {
    forall|i: int| 0 <= i < s.len() ==> ((#[trigger] s[i]) as u32) < 128
}

/// The character with an ASCII upper-case letter folded to lower case.
pub open spec fn lower_char(c: char) -> char {
    if 'A' <= c <= 'Z' {
        (((c as u32) + 32) as u8) as char
    } else {
        c
    }
}

/// The sequence with every ASCII upper-case letter folded to lower case.
pub open spec fn ascii_lower_chars(s: Seq<char>) -> Seq<char> {
    Seq::new(s.len(), |i: int| lower_char(s[i]))
}

/// What `str::to_lowercase` returns: a function of the characters alone.
pub uninterp spec fn lower_of(s: Seq<char>) -> Seq<char>;

/// Relies on `str::to_lowercase`: the result depends on the characters
/// alone, and a string of ASCII characters maps to its ASCII lower case.
#[verifier::external_body]
pub(crate) fn to_lowercase(s: &str) -> (r: String)
    ensures
        r@ == lower_of(s@),
        all_ascii_chars(s@) ==> r@ == ascii_lower_chars(s@),
{
    s.to_lowercase()
}

} // verus!
