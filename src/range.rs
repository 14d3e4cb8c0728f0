//! Reading the reply of a range service: lines of `SUFFIX:COUNT`, separated
//! by line feeds, each possibly ending in a carriage return.
use vstd::prelude::*;
use vstd::string::StringSliceAdditionalSpecFns;
use vstd::utf8::encode_utf8;

verus! {

pub const NEWLINE: u8 = 0x0a;

pub const CARRIAGE_RETURN: u8 = 0x0d;

pub const COLON: u8 = 0x3a;

/// Why a reply could not be read.
#[derive(Debug, Clone, Copy, PartialEq, Eq, Structural)]
pub enum RangeError {
    /// A line of the reply is not empty and holds no `:`.
    MalformedLine,
    /// The count on the line for the key is not a decimal number that fits a `usize`.
    BadCount,
}

/// The first index at or after `i` that holds `c`, or the length of `s` when
/// there is none.
pub open spec fn find_from(s: Seq<u8>, c: u8, i: int) -> int
    decreases s.len() - i,
{
    if i >= s.len() {
        s.len() as int
    } else if s[i] == c {
        i
    } else {
        find_from(s, c, i + 1)
    }
}

/// The last index below `i` that holds `c`, or `-1` when there is none.
pub open spec fn find_last_before(s: Seq<u8>, c: u8, i: int) -> int
    decreases i,
{
    if i <= 0 {
        -1
    } else if s[i - 1] == c {
        i - 1
    } else {
        find_last_before(s, c, i - 1)
    }
}

/// A line without its trailing carriage return, if it has one.
pub open spec fn trim_cr(line: Seq<u8>) -> Seq<u8> {
    if line.len() > 0 && line.last() == CARRIAGE_RETURN {
        line.drop_last()
    } else {
        line
    }
}

pub open spec fn is_digit(b: u8) -> bool {
    0x30 <= b <= 0x39
}

pub open spec fn all_digits(s: Seq<u8>) -> bool {
    forall|i: int| 0 <= i < s.len() ==> is_digit(#[trigger] s[i])
}

/// The value of a string of decimal digits.
pub open spec fn decimal_value(s: Seq<u8>) -> nat
    decreases s.len(),
{
    if s.len() == 0 {
        0
    } else {
        decimal_value(s.drop_last()) * 10 + (s.last() - 0x30) as nat
    }
}

/// The count written in a count field.
pub open spec fn count_field(f: Seq<u8>) -> Result<usize, RangeError> {
    if f.len() > 0 && all_digits(f) && decimal_value(f) <= usize::MAX {
        Ok(decimal_value(f) as usize)
    } else {
        Err(RangeError::BadCount)
    }
}

/// Where the first line of `body` ends: at its first line feed, or at its end.
pub open spec fn first_line_end(body: Seq<u8>) -> int {
    find_from(body, NEWLINE, 0)
}

/// The first line of `body`, without its line end.
pub open spec fn first_line(body: Seq<u8>) -> Seq<u8> {
    trim_cr(body.take(first_line_end(body)))
}

/// What follows the first line of `body` and its line feed.
pub open spec fn after_first_line(body: Seq<u8>) -> Seq<u8> {
    if first_line_end(body) >= body.len() {
        Seq::empty()
    } else {
        body.skip(first_line_end(body) + 1)
    }
}

/// The lines of `body`, split at line feeds, each without a trailing carriage
/// return. A line feed at the very end starts no further line.
pub open spec fn lines_of(body: Seq<u8>) -> Seq<Seq<u8>>
    decreases body.len(),
{
    if body.len() == 0 {
        Seq::empty()
    } else {
        proof {
            lemma_find_from_bounds(body, NEWLINE, 0);
        }
        seq![first_line(body)] + lines_of(after_first_line(body))
    }
}

pub open spec fn has_colon(line: Seq<u8>) -> bool {
    find_from(line, COLON, 0) < line.len()
}

/// The part of a line before its first `:`.
pub open spec fn leading_component(line: Seq<u8>) -> Seq<u8> {
    line.take(find_from(line, COLON, 0))
}

/// The part of a line after its last `:`.
pub open spec fn count_component(line: Seq<u8>) -> Seq<u8> {
    line.skip(find_last_before(line, COLON, line.len() as int) + 1)
}

/// A line that a well-formed reply cannot hold: not empty, and without `:`.
pub open spec fn is_malformed(line: Seq<u8>) -> bool {
    line.len() > 0 && !has_colon(line)
}

/// What a line says of `key`: the count after its last `:` when its leading
/// component is `key`, else nothing.
pub open spec fn key_count(line: Seq<u8>, key: Seq<u8>) -> Option<Result<usize, RangeError>> {
    if has_colon(line) && leading_component(line) == key {
        Some(count_field(count_component(line)))
    } else {
        None
    }
}

/// What the first line for `key` among `lines` says, if there is one.
pub open spec fn first_key_count(lines: Seq<Seq<u8>>, key: Seq<u8>) -> Option<Result<usize, RangeError>>
    decreases lines.len(),
{
    if lines.len() == 0 {
        None
    } else {
        match key_count(lines[0], key) {
            Some(v) => Some(v),
            None => first_key_count(lines.drop_first(), key),
        }
    }
}

/// The occurrence count that `body` gives for `key`: malformed when any of
/// its lines is; else what the first line for `key` says; zero when no line
/// is for `key`.
pub open spec fn lookup(body: Seq<u8>, key: Seq<u8>) -> Result<usize, RangeError> {
    let lines = lines_of(body);
    if exists|i: int| 0 <= i < lines.len() && is_malformed(#[trigger] lines[i]) {
        Err(RangeError::MalformedLine)
    } else {
        match first_key_count(lines, key) {
            Some(v) => v,
            None => Ok(0),
        }
    }
}

pub proof fn lemma_find_from_bounds(s: Seq<u8>, c: u8, i: int)
    requires
        0 <= i <= s.len(),
    ensures
        i <= find_from(s, c, i) <= s.len(),
        find_from(s, c, i) < s.len() ==> s[find_from(s, c, i)] == c,
    decreases s.len() - i,
{
    if i < s.len() && s[i] != c {
        lemma_find_from_bounds(s, c, i + 1);
    }
}

/// `m` is the first index at or after `i` that holds `c`.
proof fn lemma_find_from_is(s: Seq<u8>, c: u8, i: int, m: int)
    requires
        0 <= i <= m <= s.len(),
        forall|j: int| i <= j < m ==> s[j] != c,
        m == s.len() || s[m] == c,
    ensures
        find_from(s, c, i) == m,
    decreases m - i,
{
    if i < m {
        lemma_find_from_is(s, c, i + 1, m);
    }
}

/// `k` is the last index below `i` that holds `c`.
proof fn lemma_find_last_is(s: Seq<u8>, c: u8, i: int, k: int)
    requires
        0 <= k < i <= s.len(),
        s[k] == c,
        forall|j: int| k < j < i ==> s[j] != c,
    ensures
        find_last_before(s, c, i) == k,
    decreases i - k,
{
    if k < i - 1 {
        lemma_find_last_is(s, c, i - 1, k);
    }
}

/// The first line for `key` among `a + b` is the first among `a`, or else
/// the first among `b`.
proof fn lemma_first_key_count_append(a: Seq<Seq<u8>>, b: Seq<Seq<u8>>, key: Seq<u8>)
    ensures
        first_key_count(a + b, key) == (match first_key_count(a, key) {
            Some(v) => Some(v),
            None => first_key_count(b, key),
        }),
    decreases a.len(),
{
    if a.len() == 0 {
        assert(a + b =~= b);
    } else {
        assert((a + b).drop_first() =~= a.drop_first() + b);
        lemma_first_key_count_append(a.drop_first(), b, key);
    }
}

/// The first line for `key` is the one at `i`.
proof fn lemma_first_key_count_at(lines: Seq<Seq<u8>>, key: Seq<u8>, i: int)
    requires
        0 <= i < lines.len(),
        forall|j: int| 0 <= j < i ==> key_count(#[trigger] lines[j], key) is None,
        key_count(lines[i], key) is Some,
    ensures
        first_key_count(lines, key) == key_count(lines[i], key),
    decreases i,
{
    if i > 0 {
        assert forall|j: int| 0 <= j < i - 1 implies key_count(
            #[trigger] lines.drop_first()[j],
            key,
        ) is None by {
            assert(lines.drop_first()[j] == lines[j + 1]);
        }
        lemma_first_key_count_at(lines.drop_first(), key, i - 1);
    }
}

/// No line is for `key`.
proof fn lemma_first_key_count_none(lines: Seq<Seq<u8>>, key: Seq<u8>)
    requires
        forall|j: int| 0 <= j < lines.len() ==> key_count(#[trigger] lines[j], key) is None,
    ensures
        first_key_count(lines, key) is None,
    decreases lines.len(),
{
    if lines.len() > 0 {
        assert forall|j: int| 0 <= j < lines.len() - 1 implies key_count(
            #[trigger] lines.drop_first()[j],
            key,
        ) is None by {
            assert(lines.drop_first()[j] == lines[j + 1]);
        }
        lemma_first_key_count_none(lines.drop_first(), key);
    }
}

/// A reply with a line that is not empty and holds no `:` is malformed,
/// wherever that line stands and whatever the key.
pub proof fn lemma_colonless_line_is_malformed(body: Seq<u8>, key: Seq<u8>, i: int)
    requires
        0 <= i < lines_of(body).len(),
        lines_of(body)[i].len() > 0,
        !has_colon(lines_of(body)[i]),
    ensures
        lookup(body, key) == Err::<usize, RangeError>(RangeError::MalformedLine),
{
    assert(is_malformed(lines_of(body)[i]));
}

/// A line `key:digits` says of `key` the count that `digits` spells.
proof fn lemma_key_line_count(key: Seq<u8>, digits: Seq<u8>)
    requires
        forall|i: int| 0 <= i < key.len() ==> key[i] != COLON,
        all_digits(digits),
    ensures
        key_count(key + seq![COLON] + digits, key) == Some(count_field(digits)),
{
    let line = key + seq![COLON] + digits;
    lemma_find_from_is(line, COLON, 0, key.len() as int);
    assert(line.take(key.len() as int) =~= key);
    assert forall|j: int| key.len() < j < line.len() implies line[j] != COLON by {
        assert(is_digit(digits[j - key.len() - 1]));
    }
    lemma_find_last_is(line, COLON, line.len() as int, key.len() as int);
    assert(line.skip(key.len() as int + 1) =~= digits);
}

/// In a reply with no malformed line, when the first line whose leading
/// component is `key` reads `key:digits`, the reply gives for `key` the count
/// that `digits` spells: the number itself when it fits a `usize`.
pub proof fn lemma_first_key_line_decides(body: Seq<u8>, key: Seq<u8>, digits: Seq<u8>, i: int)
    requires
        forall|j: int| 0 <= j < key.len() ==> key[j] != COLON,
        all_digits(digits),
        0 <= i < lines_of(body).len(),
        lines_of(body)[i] == key + seq![COLON] + digits,
        forall|j: int|
            0 <= j < i && has_colon(#[trigger] lines_of(body)[j]) ==> leading_component(
                lines_of(body)[j],
            ) != key,
        forall|j: int|
            0 <= j < lines_of(body).len() && (#[trigger] lines_of(body)[j]).len() > 0 ==> has_colon(
                lines_of(body)[j],
            ),
    ensures
        lookup(body, key) == count_field(digits),
        digits.len() > 0 && decimal_value(digits) <= usize::MAX ==> lookup(body, key) == Ok::<
            usize,
            RangeError,
        >(decimal_value(digits) as usize),
{
    let lines = lines_of(body);
    lemma_key_line_count(key, digits);
    assert forall|j: int| 0 <= j < i implies key_count(#[trigger] lines[j], key) is None by {}
    lemma_first_key_count_at(lines, key, i);
    assert(!exists|j: int| 0 <= j < lines.len() && is_malformed(#[trigger] lines[j]));
}

/// A reply with no malformed line and no line whose leading component is
/// `key` gives zero for `key`; so does an empty reply.
pub proof fn lemma_absent_key_gives_zero(body: Seq<u8>, key: Seq<u8>)
    requires
        forall|j: int|
            0 <= j < lines_of(body).len() && (#[trigger] lines_of(body)[j]).len() > 0 ==> has_colon(
                lines_of(body)[j],
            ),
        forall|j: int|
            0 <= j < lines_of(body).len() && has_colon(#[trigger] lines_of(body)[j])
                ==> leading_component(lines_of(body)[j]) != key,
    ensures
        lookup(body, key) == Ok::<usize, RangeError>(0),
{
    let lines = lines_of(body);
    assert forall|j: int| 0 <= j < lines.len() implies key_count(#[trigger] lines[j], key) is None by {}
    lemma_first_key_count_none(lines, key);
    assert(!exists|j: int| 0 <= j < lines.len() && is_malformed(#[trigger] lines[j]));
}

/// Reads the count in `b[lo..hi]`.
fn parse_count(b: &[u8], lo: usize, hi: usize) -> (r: Result<usize, RangeError>)
    requires
        lo <= hi <= b@.len(),
    ensures
        r == count_field(b@.subrange(lo as int, hi as int)),
{
    let ghost f = b@.subrange(lo as int, hi as int);
    if lo == hi {
        return Err(RangeError::BadCount);
    }
    let mut i: usize = lo;
    let mut v: usize = 0;
    let mut fits = true;
    while i < hi
        invariant
            lo <= i <= hi <= b@.len(),
            f == b@.subrange(lo as int, hi as int),
            all_digits(f.take(i - lo)),
            fits ==> v == decimal_value(f.take(i - lo)),
            !fits ==> decimal_value(f.take(i - lo)) > usize::MAX,
        decreases hi - i,
    {
        let d = b[i];
        if !(0x30 <= d && d <= 0x39) {
            assert(!is_digit(f[i - lo]));
            return Err(RangeError::BadCount);
        }
        let ghost before = f.take(i - lo);
        assert(f.take(i - lo + 1).drop_last() =~= before);
        if fits {
            match v.checked_mul(10) {
                Some(w) => match w.checked_add((d - 0x30) as usize) {
                    Some(x) => {
                        v = x;
                    },
                    None => {
                        fits = false;
                    },
                },
                None => {
                    fits = false;
                },
            }
        }
        i = i + 1;
        assert(all_digits(f.take(i - lo)));
    }
    assert(f.take(i - lo) =~= f);
    if fits {
        Ok(v)
    } else {
        Err(RangeError::BadCount)
    }
}

/// What the line `b[lo..hi]` says of `key`.
fn judge_line(b: &[u8], lo: usize, hi: usize, key: &[u8]) -> (r: Option<Result<usize, RangeError>>)
    requires
        lo <= hi <= b@.len(),
    ensures
        r == (if is_malformed(b@.subrange(lo as int, hi as int)) {
            Some(Err::<usize, RangeError>(RangeError::MalformedLine))
        } else {
            key_count(b@.subrange(lo as int, hi as int), key@)
        }),
{
    let ghost line = b@.subrange(lo as int, hi as int);
    if lo == hi {
        return None;
    }
    let mut c: usize = lo;
    while c < hi && b[c] != COLON
        invariant
            lo <= c <= hi <= b@.len(),
            forall|j: int| lo <= j < c ==> b@[j] != COLON,
        decreases hi - c,
    {
        c = c + 1;
    }
    proof {
        lemma_find_from_is(line, COLON, 0, c - lo);
    }
    if c == hi {
        return Some(Err(RangeError::MalformedLine));
    }
    if c - lo != key.len() {
        return None;
    }
    let mut k: usize = 0;
    while k < key.len()
        invariant
            line == b@.subrange(lo as int, hi as int),
            find_from(line, COLON, 0) == c - lo,
            c - lo == key@.len(),
            lo <= c < hi <= b@.len(),
            0 <= k <= key@.len(),
            forall|j: int| 0 <= j < k ==> b@[lo + j] == key@[j],
        decreases key@.len() - k,
    {
        if b[lo + k] != key[k] {
            assert(line.take(c - lo)[k as int] != key@[k as int]);
            assert(line.take(c - lo) != key@);
            return None;
        }
        k = k + 1;
    }
    assert(line.take(c - lo) =~= key@);
    let mut last: usize = hi - 1;
    while b[last] != COLON
        invariant
            c <= last < hi <= b@.len(),
            b@[c as int] == COLON,
            line == b@.subrange(lo as int, hi as int),
            find_from(line, COLON, 0) == c - lo,
            line.take(c - lo) == key@,
            forall|j: int| last < j < hi ==> b@[j] != COLON,
        decreases last,
    {
        last = last - 1;
    }
    proof {
        lemma_find_last_is(line, COLON, line.len() as int, last - lo);
        assert(line.skip(last - lo + 1) =~= b@.subrange(last + 1, hi as int));
    }
    Some(parse_count(b, last + 1, hi))
}

/// The occurrence count that the reply `body` gives for the digest suffix
/// `suffix`, or why the reply cannot be read.
pub fn count_in_range(body: &str, suffix: &str) -> (r: Result<usize, RangeError>)
    ensures
        r == lookup(encode_utf8(body@), encode_utf8(suffix@)),
{
    let b = body.as_bytes();
    let key = suffix.as_bytes();
    let mut start: usize = 0;
    let mut found: Option<Result<usize, RangeError>> = None;
    let ghost mut seen: Seq<Seq<u8>> = Seq::empty();
    assert(b@.skip(0) =~= b@);
    assert(seen + lines_of(b@) =~= lines_of(b@));
    while start < b.len()
        invariant
            start <= b@.len(),
            b@ == body.spec_bytes(),
            key@ == suffix.spec_bytes(),
            lines_of(b@) == seen + lines_of(b@.skip(start as int)),
            forall|i: int| 0 <= i < seen.len() ==> !is_malformed(#[trigger] seen[i]),
            found == first_key_count(seen, key@),
        decreases b@.len() - start,
    {
        let mut end: usize = start;
        while end < b.len() && b[end] != NEWLINE
            invariant
                start <= end <= b@.len(),
                forall|j: int| start <= j < end ==> b@[j] != NEWLINE,
            decreases b@.len() - end,
        {
            end = end + 1;
        }
        let ghost rest = b@.skip(start as int);
        proof {
            lemma_find_from_is(rest, NEWLINE, 0, end - start);
            assert(rest.take(end - start) =~= b@.subrange(start as int, end as int));
        }
        let mut line_end: usize = end;
        if line_end > start && b[line_end - 1] == CARRIAGE_RETURN {
            line_end = line_end - 1;
        }
        let ghost line = b@.subrange(start as int, line_end as int);
        assert(first_line(rest) =~= line);
        let next: usize = if end == b.len() {
            end
        } else {
            end + 1
        };
        assert(after_first_line(rest) =~= b@.skip(next as int));
        assert(lines_of(rest) == seq![line] + lines_of(b@.skip(next as int)));
        assert(seen + lines_of(rest) =~= seen.push(line) + lines_of(b@.skip(next as int)));
        proof {
            lemma_first_key_count_append(seen, seq![line], key@);
            assert(seen + seq![line] =~= seen.push(line));
            assert(seq![line].drop_first() =~= Seq::<Seq<u8>>::empty());
            assert(first_key_count(Seq::<Seq<u8>>::empty(), key@) is None);
            assert(first_key_count(seq![line], key@) == key_count(line, key@));
        }
        match judge_line(b, start, line_end, key) {
            Some(Err(RangeError::MalformedLine)) => {
                assert(lines_of(b@)[seen.len() as int] == line);
                return Err(RangeError::MalformedLine);
            },
            Some(v) => {
                if found.is_none() {
                    found = Some(v);
                }
            },
            None => {},
        }
        proof {
            seen = seen.push(line);
        }
        start = next;
    }
    assert(b@.skip(start as int) =~= Seq::<u8>::empty());
    assert(seen + Seq::<Seq<u8>>::empty() =~= seen);
    match found {
        Some(v) => v,
        None => Ok(0),
    }
}

} // verus!
