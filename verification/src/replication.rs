//! The minutely replication feed of planet.openstreetmap.org: where its
//! state and diffs live, how the state names the latest sequence number,
//! how the feed's own progress is written down and read back, and how a
//! diff is unpacked.
use vstd::prelude::*;
use std::io::Read;

use crate::text::{
    chars_of, i32_decimal, i32_to_decimal, i32_zero_padded, i32_zero_padded_to_string,
    parse_i32, parse_i32_spec, push_char, trim, trim_chars, IntParseError, decimal, zeros,
};

verus! {

/// The root of the replication feed.
pub const REPLICATION_SERVER: &'static str = "https://planet.openstreetmap.org/replication";

/// The line of the state file that names the latest sequence number starts
/// with these characters.
pub const SEQUENCE_PREFIX: &'static str = "sequenceNumber=";

/// Appends the characters `cs[from..to]`.
pub(crate) fn push_slice(s: &mut String, cs: &[char], from: usize, to: usize)
    requires
        from <= to <= cs@.len(),
    ensures
        final(s)@ == old(s)@ + cs@.subrange(from as int, to as int),
{
    let ghost base = s@;
    let mut i: usize = from;
    while i < to
        invariant
            from <= i <= to <= cs@.len(),
            s@ == base + cs@.subrange(from as int, i as int),
        decreases to - i,
    {
        push_char(s, cs[i]);
        assert(s@ =~= base + cs@.subrange(from as int, i + 1));
        i = i + 1;
    }
}

/// `a` followed by `b`.
pub(crate) fn concat(a: &str, b: &str) -> (s: String)
    ensures
        s@ == a@ + b@,
{
    let mut s = String::from_str(a);
    s.append(b);
    s
}

/// The address of the feed's state file.
pub fn state_url() -> (url: String)
    ensures
        url@ == REPLICATION_SERVER@ + "/minute/state.txt"@,
{
    concat(REPLICATION_SERVER, "/minute/state.txt")
}

/// A line with its `\r` removed when the line ended in `\r\n`.
pub open spec fn strip_cr(line: Seq<char>) -> Seq<char> {
    if line.len() > 0 && line.last() == '\r' {
        line.drop_last()
    } else {
        line
    }
}

/// The lines of `s` (read from the current line `cur` on), as `str::lines`
/// gives them: split at `\n`, a `\r` before the `\n` dropped, and no empty
/// line after a final `\n`.
pub open spec fn lines_from(s: Seq<char>, cur: Seq<char>) -> Seq<Seq<char>>
    decreases s.len(),
{
    if s.len() == 0 {
        if cur.len() == 0 {
            seq![]
        } else {
            seq![cur]
        }
    } else if s[0] == '\n' {
        seq![strip_cr(cur)] + lines_from(s.drop_first(), seq![])
    } else {
        lines_from(s.drop_first(), cur.push(s[0]))
    }
}

/// `str::lines`.
pub open spec fn lines(s: Seq<char>) -> Seq<Seq<char>> {
    lines_from(s, seq![])
}

/// Whether `line` begins with `prefix`.
pub open spec fn starts_with(line: Seq<char>, prefix: Seq<char>) -> bool {
    prefix.len() <= line.len() && line.take(prefix.len() as int) == prefix
}

/// The first of `ls` that begins with `prefix`.
pub open spec fn first_with_prefix(ls: Seq<Seq<char>>, prefix: Seq<char>) -> Option<Seq<char>>
    decreases ls.len(),
{
    if ls.len() == 0 {
        None
    } else if starts_with(ls[0], prefix) {
        Some(ls[0])
    } else {
        first_with_prefix(ls.drop_first(), prefix)
    }
}

/// The characters of `s` before its first `=`.
pub open spec fn before_eq(s: Seq<char>) -> Seq<char>
    decreases s.len(),
{
    if s.len() == 0 || s[0] == '=' {
        seq![]
    } else {
        seq![s[0]] + before_eq(s.drop_first())
    }
}

/// Why the state file names no sequence number.
#[derive(Debug, Clone, Copy, PartialEq, Eq, Structural)]
pub enum StateError {
    /// No line starts with `sequenceNumber=`.
    NotFound,
    /// The value on that line is not an `i32`.
    Invalid(IntParseError),
}

/// The sequence number a state file names: on its first line that starts
/// with `sequenceNumber=`, the text between that `=` and the next one (or
/// the end of the line), read as an `i32`.
pub open spec fn state_sequence(body: Seq<char>) -> Result<i32, StateError> {
    match first_with_prefix(lines(body), SEQUENCE_PREFIX@) {
        None => Err(StateError::NotFound),
        Some(line) => match parse_i32_spec(before_eq(line.skip(SEQUENCE_PREFIX@.len() as int))) {
            Ok(v) => Ok(v),
            Err(e) => Err(StateError::Invalid(e)),
        },
    }
}

/// Whether the characters `cs` begin with `prefix`.
fn has_prefix(cs: &Vec<char>, prefix: &Vec<char>) -> (b: bool)
    ensures
        b == starts_with(cs@, prefix@),
{
    if prefix.len() > cs.len() {
        return false;
    }
    let mut i: usize = 0;
    while i < prefix.len()
        invariant
            prefix@.len() <= cs@.len(),
            i <= prefix@.len(),
            forall|j: int| 0 <= j < i ==> cs@[j] == prefix@[j],
        decreases prefix@.len() - i,
    {
        if cs[i] != prefix[i] {
            assert(cs@.take(prefix@.len() as int)[i as int] != prefix@[i as int]);
            return false;
        }
        i = i + 1;
    }
    assert(cs@.take(prefix@.len() as int) =~= prefix@);
    true
}

/// `line` without the `\r` of a `\r\n` ending.
fn strip_cr_exec(line: Vec<char>) -> (r: Vec<char>)
    ensures
        r@ == strip_cr(line@),
{
    let ghost given = line@;
    let mut line = line;
    if line.len() > 0 && line[line.len() - 1] == '\r' {
        line.pop();
        assert(line@ =~= strip_cr(given));
    }
    line
}

/// The first line of `body` that begins with `prefix`.
fn find_prefixed_line(body: &Vec<char>, prefix: &Vec<char>) -> (r: Option<Vec<char>>)
    ensures
        r matches Some(l) ==> first_with_prefix(lines(body@), prefix@) == Some(l@) && starts_with(
            l@,
            prefix@,
        ),
        r is None ==> first_with_prefix(lines(body@), prefix@) is None,
{
    let n: usize = body.len();
    let mut cur: Vec<char> = Vec::new();
    let mut i: usize = 0;
    assert(body@.skip(0) =~= body@);
    while i < n
        invariant
            i <= n == body@.len(),
            first_with_prefix(lines(body@), prefix@) == first_with_prefix(
                lines_from(body@.skip(i as int), cur@),
                prefix@,
            ),
        decreases n - i,
    {
        let c: char = body[i];
        let ghost rest = body@.skip(i as int);
        assert(rest.drop_first() =~= body@.skip(i + 1));
        if c == '\n' {
            let line = strip_cr_exec(cur);
            let ghost tail = lines_from(body@.skip(i + 1), seq![]);
            assert((seq![line@] + tail).drop_first() =~= tail);
            if has_prefix(&line, prefix) {
                return Some(line);
            }
            cur = Vec::new();
            assert(cur@ =~= Seq::<char>::empty());
        } else {
            cur.push(c);
        }
        i = i + 1;
    }
    assert(body@.skip(n as int) =~= Seq::<char>::empty());
    if cur.len() == 0 {
        assert(lines_from(body@.skip(n as int), cur@) == Seq::<Seq<char>>::empty());
        assert(first_with_prefix(Seq::<Seq<char>>::empty(), prefix@) is None);
        None
    } else if has_prefix(&cur, prefix) {
        Some(cur)
    } else {
        assert(lines_from(body@.skip(n as int), cur@) == seq![cur@]);
        assert(seq![cur@].drop_first() =~= Seq::<Seq<char>>::empty());
        assert(first_with_prefix(Seq::<Seq<char>>::empty(), prefix@) is None);
        None
    }
}

/// The characters of `cs[from..]` before the first `=`.
fn before_eq_exec(cs: &Vec<char>, from: usize) -> (r: Vec<char>)
    requires
        from <= cs@.len(),
    ensures
        r@ == before_eq(cs@.skip(from as int)),
{
    let n: usize = cs.len();
    let mut r: Vec<char> = Vec::new();
    let mut i: usize = from;
    while i < n && cs[i] != '='
        invariant
            from <= i <= n == cs@.len(),
            before_eq(cs@.skip(from as int)) == r@ + before_eq(cs@.skip(i as int)),
        decreases n - i,
    {
        assert(cs@.skip(i as int).drop_first() =~= cs@.skip(i + 1));
        r.push(cs[i]);
        assert(before_eq(cs@.skip(from as int)) =~= r@ + before_eq(cs@.skip(i + 1)));
        i = i + 1;
    }
    assert(before_eq(cs@.skip(i as int)) == Seq::<char>::empty());
    assert(r@ + Seq::<char>::empty() =~= r@);
    r
}

/// Reads the latest sequence number out of the feed's state file
/// (`get_remote_latest_changeset_id` after the download).
pub fn parse_state_sequence(body: &str) -> (r: Result<i32, StateError>)
    ensures
        r == state_sequence(body@),
{
    let cs = chars_of(body);
    let prefix = chars_of(SEQUENCE_PREFIX);
    match find_prefixed_line(&cs, &prefix) {
        None => Err(StateError::NotFound),
        Some(line) => {
            let value = before_eq_exec(&line, prefix.len());
            match parse_i32(value.as_slice()) {
                Ok(v) => Ok(v),
                Err(e) => Err(StateError::Invalid(e)),
            }
        },
    }
}

/// What the feed's progress file holds for the last sequence number it
/// finished: its decimal notation (`write_local_latest_changeset_id`).
pub fn sequence_file_content(id: i32) -> (s: String)
    ensures
        s@ == i32_decimal(id),
{
    i32_to_decimal(id)
}

/// The sequence number a progress file holds: its text without surrounding
/// whitespace, read as an `i32` (`get_local_latest_changeset_id` after the
/// read; a file that cannot be read counts as `"0"`).
pub fn parse_sequence_file(content: &str) -> (r: Result<i32, IntParseError>)
    ensures
        r == parse_i32_spec(trim(content@)),
{
    let cs = chars_of(content);
    let t = trim_chars(cs.as_slice());
    parse_i32(t.as_slice())
}

/// Law: what `sequence_file_content` writes, `parse_sequence_file` reads
/// back as the same sequence number.
pub proof fn law_sequence_file_round_trip(id: i32)
    ensures
        parse_i32_spec(trim(i32_decimal(id))) == Ok::<i32, IntParseError>(id),
{
    crate::text::lemma_displayed_i32_is_trimmed(id);
    crate::text::lemma_parse_displayed_i32(id);
}

/// The sequence number written as `format!("{:09}", id)`.
pub open spec fn padded_sequence(id: i32) -> Seq<char> {
    i32_zero_padded(id, 9)
}

/// The address of the diff with sequence number `id`: the nine-character
/// zero-padded number cut into three directory levels of three characters.
pub open spec fn diff_url(id: i32) -> Seq<char> {
    let p = padded_sequence(id);
    REPLICATION_SERVER@ + "/minute/"@ + p.subrange(0, 3) + "/"@ + p.subrange(3, 6) + "/"@
        + p.subrange(6, 9) + ".osc.gz"@
}

proof fn lemma_padded_len(id: i32)
    ensures
        padded_sequence(id).len() >= 9,
{
    if id < 0 {
        assert(zeros(9 - 1 - decimal((-id) as nat).len()).len() >= 8 - decimal((-id) as nat).len());
    } else {
        assert(zeros(9 - decimal(id as nat).len()).len() >= 9 - decimal(id as nat).len());
    }
}

/// The address of the diff with sequence number `id`
/// (`get_changeset_xml_data` before the download).
pub fn changeset_diff_url(id: i32) -> (url: String)
    ensures
        url@ == diff_url(id),
{
    let padded = i32_zero_padded_to_string(id, 9);
    let p = chars_of(padded.as_str());
    proof {
        lemma_padded_len(id);
    }
    let mut url = concat(REPLICATION_SERVER, "/minute/");
    push_slice(&mut url, p.as_slice(), 0, 3);
    url.append("/");
    push_slice(&mut url, p.as_slice(), 3, 6);
    url.append("/");
    push_slice(&mut url, p.as_slice(), 6, 9);
    url.append(".osc.gz");
    url
}

/// `std::io::Error`, carried as an opaque value.
#[verifier::external_type_specification]
#[verifier::external_body]
pub struct ExIoError(std::io::Error);

/// What a gzip stream unpacks to, read as UTF-8 text; `None` where it is no
/// valid gzip stream or does not hold UTF-8.
pub uninterp spec fn gunzip_text(data: Seq<u8>) -> Option<Seq<char>>;

/// Unpacks a gzip stream into text with `flate2::read::GzDecoder` and
/// `Read::read_to_string`. Claimed: it succeeds exactly when `gunzip_text`
/// has a value, and then returns that text. What `gunzip_text` is on given
/// bytes is not stated.
#[verifier::external_body]
fn gunzip_to_string(data: &[u8]) -> (r: Result<String, std::io::Error>)
    ensures
        r is Ok <==> gunzip_text(data@) is Some,
        r matches Ok(s) ==> gunzip_text(data@) == Some(s@),
{
    let mut decoder = flate2::read::GzDecoder::new(data);
    let mut text = String::new();
    match decoder.read_to_string(&mut text) {
        Ok(_) => Ok(text),
        Err(e) => Err(e),
    }
}

/// Why a diff could not be unpacked: the error the gzip reader reported.
#[derive(Debug)]
pub struct DiffError {
    pub error: std::io::Error,
}

/// Unpacks a downloaded diff into its XML text (`get_changeset_xml_data`
/// after the download).
pub fn decode_changeset_diff(data: &[u8]) -> (r: Result<String, DiffError>)
    ensures
        r is Ok <==> gunzip_text(data@) is Some,
        r matches Ok(s) ==> gunzip_text(data@) == Some(s@),
{
    match gunzip_to_string(data) {
        Ok(s) => Ok(s),
        Err(e) => Err(DiffError { error: e }),
    }
}

} // verus!

verus! {

/// `10` to the power `k`.
pub open spec fn pow10(k: nat) -> nat
    decreases k,
{
    if k == 0 {
        1
    } else {
        10 * pow10((k - 1) as nat)
    }
}

proof fn lemma_decimal_len(n: nat, k: nat)
    requires
        1 <= k,
        n < pow10(k),
    ensures
        decimal(n).len() <= k,
    decreases k,
{
    reveal_with_fuel(pow10, 2);
    if n >= 10 {
        assert(k >= 2);
        assert(n / 10 < pow10((k - 1) as nat));
        lemma_decimal_len(n / 10, (k - 1) as nat);
    }
}

proof fn lemma_zeros_fold(k: nat)
    ensures
        crate::text::fold_digits(zeros(k as int), false) == Ok::<int, IntParseError>(0),
    decreases k,
{
    if k > 0 {
        lemma_zeros_fold((k - 1) as nat);
        assert(zeros(k as int).drop_last() =~= zeros(k - 1));
    } else {
        assert(zeros(0) =~= Seq::<char>::empty());
    }
}

proof fn lemma_zero_prefix_fold(k: nat, s: Seq<char>)
    ensures
        crate::text::fold_digits(zeros(k as int) + s, false) == crate::text::fold_digits(s, false),
    decreases s.len(),
{
    if s.len() == 0 {
        lemma_zeros_fold(k);
        assert(zeros(k as int) + s =~= zeros(k as int));
    } else {
        lemma_zero_prefix_fold(k, s.drop_last());
        assert((zeros(k as int) + s).drop_last() =~= zeros(k as int) + s.drop_last());
    }
}

/// A sequence number from zero to 999999999 is padded to exactly nine
/// digits, which read back as the number.
proof fn lemma_padded_reads_back(id: i32)
    requires
        0 <= id < 1_000_000_000,
    ensures
        padded_sequence(id).len() == 9,
        crate::text::fold_digits(padded_sequence(id), false) == Ok::<int, IntParseError>(id as int),
{
    let n = id as nat;
    assert(pow10(9) == 1_000_000_000) by {
        reveal_with_fuel(pow10, 10);
    }
    lemma_decimal_len(n, 9);
    crate::text::lemma_decimal_digits(n);
    lemma_zero_prefix_fold((9 - decimal(n).len()) as nat, decimal(n));
}

/// The three directory parts of a diff address are the nine padded digits.
proof fn lemma_diff_url_parts(id: i32)
    requires
        padded_sequence(id).len() == 9,
    ensures
        ({
            let u = diff_url(id);
            let x = (REPLICATION_SERVER@ + "/minute/"@).len() as int;
            &&& u.subrange(x, x + 3) == padded_sequence(id).subrange(0, 3)
            &&& u.subrange(x + 4, x + 7) == padded_sequence(id).subrange(3, 6)
            &&& u.subrange(x + 8, x + 11) == padded_sequence(id).subrange(6, 9)
        }),
{
    reveal_strlit("/");
    let p = padded_sequence(id);
    let pre = REPLICATION_SERVER@ + "/minute/"@;
    let x = pre.len() as int;
    let u = diff_url(id);
    assert(u =~= pre + p.subrange(0, 3) + "/"@ + p.subrange(3, 6) + "/"@ + p.subrange(6, 9)
        + ".osc.gz"@);
    assert(u.subrange(x, x + 3) =~= p.subrange(0, 3));
    assert(u.subrange(x + 4, x + 7) =~= p.subrange(3, 6));
    assert(u.subrange(x + 8, x + 11) =~= p.subrange(6, 9));
}

/// Law: distinct sequence numbers from zero to 999999999 have distinct diff
/// addresses. (From 1000000000 on the tenth digit is cut off, and
/// addresses repeat.)
pub proof fn law_diff_urls_distinct(a: i32, b: i32)
    requires
        0 <= a < 1_000_000_000,
        0 <= b < 1_000_000_000,
        a != b,
    ensures
        diff_url(a) != diff_url(b),
{
    lemma_padded_reads_back(a);
    lemma_padded_reads_back(b);
    lemma_diff_url_parts(a);
    lemma_diff_url_parts(b);
    if diff_url(a) == diff_url(b) {
        let pa = padded_sequence(a);
        let pb = padded_sequence(b);
        assert(pa =~= pa.subrange(0, 3) + pa.subrange(3, 6) + pa.subrange(6, 9));
        assert(pb =~= pb.subrange(0, 3) + pb.subrange(3, 6) + pb.subrange(6, 9));
        assert(pa == pb);
    }
}

} // verus!
