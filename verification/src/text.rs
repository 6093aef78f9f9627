//! Character-level helpers: decimal formatting and parsing of integers as
//! `std` does it, and Unicode whitespace trimming.
use vstd::prelude::*;

verus! {

/// Appends one character to a string with `String::push`. Claimed: the
/// string afterwards is the one before with `c` added at the end.
#[verifier::external_body]
pub(crate) fn push_char(s: &mut String, c: char)
    ensures
        final(s)@ == old(s)@.push(c),
{
    s.push(c);
}

/// The characters of a string slice, in order.
pub fn chars_of(s: &str) -> (v: Vec<char>)
    ensures
        v@ == s@,
{
    let mut v: Vec<char> = Vec::new();
    for c in it: s.chars()
        invariant
            v@ == it.seq().take(it.index()),
    {
        v.push(c);
    }
    v
}

} // verus!

verus! {

/// The decimal digit character for `d < 10`.
pub open spec fn digit_char(d: nat) -> char {
    (48 + d) as char
}

/// Whether `c` is one of `0`..`9`.
pub open spec fn is_ascii_digit(c: char) -> bool {
    '0' <= c && c <= '9'
}

/// The value of a decimal digit character.
pub open spec fn digit_value(c: char) -> int {
    c as int - 48
}

/// The shortest decimal notation of `n`, without sign.
pub open spec fn decimal(n: nat) -> Seq<char>
    decreases n,
{
    if n < 10 {
        seq![digit_char(n)]
    } else {
        decimal(n / 10).push(digit_char(n % 10))
    }
}

/// How `i32` is written by `Display`: a minus sign for negative values,
/// then the decimal notation of the magnitude.
pub open spec fn i32_decimal(v: i32) -> Seq<char> {
    if v < 0 {
        seq!['-'] + decimal((-v) as nat)
    } else {
        decimal(v as nat)
    }
}

/// `n` zero characters.
pub open spec fn zeros(n: int) -> Seq<char> {
    Seq::new(if n > 0 { n as nat } else { 0 }, |i: int| '0')
}

/// How `format!("{:0w$}", v)` writes an `i32`: the sign first, then zeros
/// up to a total width of `w`, then the digits of the magnitude.
pub open spec fn i32_zero_padded(v: i32, w: nat) -> Seq<char> {
    if v < 0 {
        seq!['-'] + zeros(w - 1 - decimal((-v) as nat).len()) + decimal((-v) as nat)
    } else {
        zeros(w - decimal(v as nat).len()) + decimal(v as nat)
    }
}

/// Appends the decimal notation of `n`.
pub(crate) fn push_decimal(s: &mut String, n: u64)
    ensures
        final(s)@ == old(s)@ + decimal(n as nat),
    decreases n,
{
    if n >= 10 {
        push_decimal(s, n / 10);
    }
    let d: u8 = (n % 10) as u8;
    push_char(s, (48u8 + d) as char);
    assert(final(s)@ =~= old(s)@ + decimal(n as nat));
}

/// The decimal notation of an unsigned integer (`u64::to_string`).
pub fn u64_to_decimal(n: u64) -> (s: String)
    ensures
        s@ == decimal(n as nat),
{
    let mut s = String::new();
    push_decimal(&mut s, n);
    assert(s@ =~= decimal(n as nat));
    s
}

/// The magnitude of an `i32` as a `u64`.
fn magnitude(v: i32) -> (m: u64)
    ensures
        m as int == (if v < 0 { -v } else { v as int }),
{
    if v < 0 {
        let w: i64 = v as i64;
        (-w) as u64
    } else {
        v as u64
    }
}

/// The decimal notation of a signed integer (`i32::to_string`).
pub fn i32_to_decimal(v: i32) -> (s: String)
    ensures
        s@ == i32_decimal(v),
{
    let mut s = String::new();
    if v < 0 {
        push_char(&mut s, '-');
    }
    push_decimal(&mut s, magnitude(v));
    assert(s@ =~= i32_decimal(v));
    s
}

/// Writes `v` as `format!("{:0width$}", v)` does.
pub fn i32_zero_padded_to_string(v: i32, width: usize) -> (s: String)
    ensures
        s@ == i32_zero_padded(v, width as nat),
{
    let m: u64 = magnitude(v);
    let digits = u64_to_decimal(m);
    let mut s = String::new();
    let mut fill: usize = width;
    if v < 0 {
        push_char(&mut s, '-');
        fill = if fill > 0 { fill - 1 } else { 0 };
    }
    let len: usize = digits.as_str().unicode_len();
    let ghost prefix = s@;
    let mut i: usize = len;
    while i < fill
        invariant
            len <= i,
            i == len || i <= fill,
            len == digits@.len(),
            s@ == prefix + zeros(i - len),
        decreases fill - i,
    {
        push_char(&mut s, '0');
        assert(s@ =~= prefix + zeros(i + 1 - len));
        i = i + 1;
    }
    assert(s@ =~= prefix + zeros(fill - len));
    s.append(digits.as_str());
    assert(s@ =~= i32_zero_padded(v, width as nat));
    s
}

} // verus!

verus! {

/// Why a text is not an `i32`, as `core::num::IntErrorKind` tells it.
#[derive(Debug, Clone, Copy, PartialEq, Eq, Structural)]
pub enum IntParseError {
    /// The text is empty.
    Empty,
    /// A character that is not a digit (or a lone sign).
    InvalidDigit,
    /// The number is above `i32::MAX`.
    PosOverflow,
    /// The number is below `i32::MIN`.
    NegOverflow,
}

/// Reads decimal digits from left to right, as `i32::from_str` does: the
/// first character that is not a digit, or the first digit after which the
/// value leaves the `i32` range, decides the error.
pub open spec fn fold_digits(ds: Seq<char>, negative: bool) -> Result<int, IntParseError>
    decreases ds.len(),
{
    if ds.len() == 0 {
        Ok(0)
    } else {
        match fold_digits(ds.drop_last(), negative) {
            Err(e) => Err(e),
            Ok(acc) => {
                if !is_ascii_digit(ds.last()) {
                    Err(IntParseError::InvalidDigit)
                } else {
                    let v = if negative {
                        acc * 10 - digit_value(ds.last())
                    } else {
                        acc * 10 + digit_value(ds.last())
                    };
                    if v < i32::MIN || v > i32::MAX {
                        Err(
                            if negative {
                                IntParseError::NegOverflow
                            } else {
                                IntParseError::PosOverflow
                            },
                        )
                    } else {
                        Ok(v)
                    }
                }
            },
        }
    }
}

/// What `s.parse::<i32>()` returns: an optional `+` or `-`, then at least
/// one decimal digit, with the value in range.
pub open spec fn parse_i32_spec(s: Seq<char>) -> Result<i32, IntParseError> {
    if s.len() == 0 {
        Err(IntParseError::Empty)
    } else if s.len() == 1 && (s[0] == '+' || s[0] == '-') {
        Err(IntParseError::InvalidDigit)
    } else {
        let negative = s[0] == '-';
        let ds = if s[0] == '+' || s[0] == '-' {
            s.skip(1)
        } else {
            s
        };
        match fold_digits(ds, negative) {
            Ok(v) => Ok(v as i32),
            Err(e) => Err(e),
        }
    }
}

/// Parses a decimal `i32` as `str::parse::<i32>` does.
pub fn parse_i32(s: &[char]) -> (r: Result<i32, IntParseError>)
    ensures
        r == parse_i32_spec(s@),
{
    let n: usize = s.len();
    if n == 0 {
        return Err(IntParseError::Empty);
    }
    if n == 1 && (s[0] == '+' || s[0] == '-') {
        return Err(IntParseError::InvalidDigit);
    }
    let negative: bool = s[0] == '-';
    let start: usize = if s[0] == '+' || s[0] == '-' {
        1
    } else {
        0
    };
    let ghost ds = if s@[0] == '+' || s@[0] == '-' {
        s@.skip(1)
    } else {
        s@
    };
    assert(ds =~= s@.skip(start as int));
    let mut acc: i64 = 0;
    let mut i: usize = start;
    while i < n
        invariant
            start <= i <= n,
            n == s@.len(),
            n >= 1,
            !(n == 1 && (s@[0] == '+' || s@[0] == '-')),
            negative == (s@[0] == '-'),
            ds == (if s@[0] == '+' || s@[0] == '-' {
                s@.skip(1)
            } else {
                s@
            }),
            ds == s@.skip(start as int),
            i32::MIN <= acc <= i32::MAX,
            fold_digits(ds.take(i - start), negative) == Ok::<int, IntParseError>(acc as int),
        decreases n - i,
    {
        let c: char = s[i];
        assert(ds.take(i + 1 - start).drop_last() =~= ds.take(i - start));
        assert(ds.take(i + 1 - start).last() == c);
        if !('0' <= c && c <= '9') {
            proof {
                lemma_fold_error_persists(ds, negative, (i + 1 - start) as nat);
            }
            return Err(IntParseError::InvalidDigit);
        }
        let d: i64 = (c as u32 - 48) as i64;
        let v: i64 = if negative {
            acc * 10 - d
        } else {
            acc * 10 + d
        };
        if v < i32::MIN as i64 || v > i32::MAX as i64 {
            proof {
                lemma_fold_error_persists(ds, negative, (i + 1 - start) as nat);
            }
            return Err(
                if negative {
                    IntParseError::NegOverflow
                } else {
                    IntParseError::PosOverflow
                },
            );
        }
        acc = v;
        i = i + 1;
    }
    assert(ds.take(n - start) =~= ds);
    Ok(acc as i32)
}

/// Once the left-to-right reading has failed on a prefix, it fails the same
/// way on the whole text.
pub proof fn lemma_fold_error_persists(ds: Seq<char>, negative: bool, k: nat)
    requires
        k <= ds.len(),
        fold_digits(ds.take(k as int), negative) is Err,
    ensures
        fold_digits(ds, negative) == fold_digits(ds.take(k as int), negative),
    decreases ds.len() - k,
{
    if k < ds.len() {
        assert(ds.take(k + 1 as int).drop_last() =~= ds.take(k as int));
        lemma_fold_error_persists(ds, negative, (k + 1) as nat);
    } else {
        assert(ds.take(k as int) =~= ds);
    }
}

/// `char::is_whitespace`: the characters with the Unicode `White_Space`
/// property.
pub open spec fn is_unicode_whitespace(c: char) -> bool {
    let u = c as u32;
    ||| 0x09 <= u <= 0x0D
    ||| u == 0x20
    ||| u == 0x85
    ||| u == 0xA0
    ||| u == 0x1680
    ||| 0x2000 <= u <= 0x200A
    ||| u == 0x2028
    ||| u == 0x2029
    ||| u == 0x202F
    ||| u == 0x205F
    ||| u == 0x3000
}

/// Whether a character is Unicode whitespace (`char::is_whitespace`).
pub fn is_whitespace(c: char) -> (b: bool)
    ensures
        b == is_unicode_whitespace(c),
{
    let u: u32 = c as u32;
    (0x09 <= u && u <= 0x0D) || u == 0x20 || u == 0x85 || u == 0xA0 || u == 0x1680 || (0x2000 <= u
        && u <= 0x200A) || u == 0x2028 || u == 0x2029 || u == 0x202F || u == 0x205F || u == 0x3000
}

/// `s` without its leading whitespace.
pub open spec fn trim_start(s: Seq<char>) -> Seq<char>
    decreases s.len(),
{
    if s.len() > 0 && is_unicode_whitespace(s[0]) {
        trim_start(s.drop_first())
    } else {
        s
    }
}

/// `s` without its trailing whitespace.
pub open spec fn trim_end(s: Seq<char>) -> Seq<char>
    decreases s.len(),
{
    if s.len() > 0 && is_unicode_whitespace(s.last()) {
        trim_end(s.drop_last())
    } else {
        s
    }
}

/// `str::trim`: leading and trailing whitespace removed.
pub open spec fn trim(s: Seq<char>) -> Seq<char> {
    trim_end(trim_start(s))
}

/// Removes leading and trailing Unicode whitespace, as `str::trim` does.
pub fn trim_chars(s: &[char]) -> (t: Vec<char>)
    ensures
        t@ == trim(s@),
{
    let n: usize = s.len();
    let mut lo: usize = 0;
    assert(s@.skip(0) =~= s@);
    while lo < n && is_whitespace(s[lo])
        invariant
            lo <= n == s@.len(),
            trim_start(s@) == trim_start(s@.skip(lo as int)),
        decreases n - lo,
    {
        assert(s@.skip(lo as int).drop_first() =~= s@.skip(lo + 1));
        lo = lo + 1;
    }
    let ghost front = s@.skip(lo as int);
    assert(trim_start(front) == front);
    let mut hi: usize = n;
    while hi > lo && is_whitespace(s[hi - 1])
        invariant
            lo <= hi <= n == s@.len(),
            front == s@.skip(lo as int),
            trim_end(front) == trim_end(s@.subrange(lo as int, hi as int)),
        decreases hi,
    {
        assert(s@.subrange(lo as int, hi as int).drop_last() =~= s@.subrange(lo as int, hi - 1));
        hi = hi - 1;
    }
    let mut t: Vec<char> = Vec::new();
    let mut k: usize = lo;
    while k < hi
        invariant
            lo <= k <= hi <= n == s@.len(),
            t@ == s@.subrange(lo as int, k as int),
        decreases hi - k,
    {
        t.push(s[k]);
        assert(t@ =~= s@.subrange(lo as int, k + 1));
        k = k + 1;
    }
    assert(front =~= s@.subrange(lo as int, n as int));
    t
}

} // verus!

verus! {

/// Every character of a decimal notation is a digit, and reading it back
/// gives the number.
pub(crate) proof fn lemma_decimal_digits(n: nat)
    ensures
        decimal(n).len() >= 1,
        forall|i: int| 0 <= i < decimal(n).len() ==> #[trigger] is_ascii_digit(decimal(n)[i]),
        n <= i32::MAX ==> fold_digits(decimal(n), false) == Ok::<int, IntParseError>(n as int),
        n <= 0x8000_0000 ==> fold_digits(decimal(n), true) == Ok::<int, IntParseError>(-n),
    decreases n,
{
    if n >= 10 {
        lemma_decimal_digits(n / 10);
        let d = decimal(n);
        assert(d.drop_last() =~= decimal(n / 10));
        assert(d.last() == digit_char(n % 10));
        assert(forall|i: int| 0 <= i < d.len() - 1 ==> d[i] == decimal(n / 10)[i]);
        assert(digit_value(digit_char(n % 10)) == n % 10);
        assert((n / 10) * 10 + n % 10 == n);
    } else {
        let d = decimal(n);
        assert(d.drop_last() =~= Seq::<char>::empty());
        assert(fold_digits(d.drop_last(), false) == Ok::<int, IntParseError>(0));
        assert(fold_digits(d.drop_last(), true) == Ok::<int, IntParseError>(0));
        assert(digit_value(digit_char(n)) == n);
    }
}

/// Law: parsing what `i32::to_string` writes gives back the same value.
pub proof fn lemma_parse_displayed_i32(v: i32)
    ensures
        parse_i32_spec(i32_decimal(v)) == Ok::<i32, IntParseError>(v),
{
    if v < 0 {
        let m: nat = (-v) as nat;
        lemma_decimal_digits(m);
        let s = i32_decimal(v);
        assert(s.skip(1) =~= decimal(m));
        assert(s[0] == '-');
    } else {
        lemma_decimal_digits(v as nat);
        let s = i32_decimal(v);
        assert(is_ascii_digit(s[0]));
    }
}

/// Law: a displayed `i32` has no whitespace to trim.
pub proof fn lemma_displayed_i32_is_trimmed(v: i32)
    ensures
        trim(i32_decimal(v)) == i32_decimal(v),
{
    let s = i32_decimal(v);
    if v < 0 {
        lemma_decimal_digits((-v) as nat);
        assert(s.last() == decimal((-v) as nat).last());
        assert(is_ascii_digit(s.last()));
    } else {
        lemma_decimal_digits(v as nat);
        assert(is_ascii_digit(s[0]));
        assert(is_ascii_digit(s.last()));
    }
}

} // verus!

verus! {

/// The message `core::num::ParseIntError` displays for each kind.
pub open spec fn int_error_text(e: IntParseError) -> Seq<char> {
    match e {
        IntParseError::Empty => "cannot parse integer from empty string"@,
        IntParseError::InvalidDigit => "invalid digit found in string"@,
        IntParseError::PosOverflow => "number too large to fit in target type"@,
        IntParseError::NegOverflow => "number too small to fit in target type"@,
    }
}

impl IntParseError {
    /// The message std displays for this kind of parse failure.
    pub fn message(&self) -> (m: &'static str)
        ensures
            m@ == int_error_text(*self),
    {
        match self {
            IntParseError::Empty => "cannot parse integer from empty string",
            IntParseError::InvalidDigit => "invalid digit found in string",
            IntParseError::PosOverflow => "number too large to fit in target type",
            IntParseError::NegOverflow => "number too small to fit in target type",
        }
    }
}

} // verus!
