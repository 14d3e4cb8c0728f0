//! The query side of a range lookup: a password's SHA-1 digest in upper-case
//! hex, split into the prefix that is sent and the suffix that is kept.
use sha1::Digest;
use vstd::prelude::*;
use vstd::utf8::{encode_utf8, is_ascii_chars};

verus! {

/// Number of hex digits sent to the range service.
pub const PREFIX_LEN: usize = 5;

/// Number of hex digits in a SHA-1 digest.
pub const HEX_LEN: usize = 40;

/// The SHA-1 digest of a byte string.
pub uninterp spec fn sha1_of(data: Seq<u8>) -> Seq<u8>;

/// The upper-case hex digit for a value below sixteen.
pub open spec fn hex_digit(n: u8) -> char {
    if n < 10 {
        (('0' as u8) + n) as char
    } else {
        (('A' as u8) + (n - 10)) as char
    }
}

/// Two upper-case hex digits per byte, high nibble first.
pub open spec fn upper_hex(b: Seq<u8>) -> Seq<char> {
    Seq::new(
        2 * b.len(),
        |i: int|
            if i % 2 == 0 {
                hex_digit(b[i / 2] / 16)
            } else {
                hex_digit(b[i / 2] % 16)
            },
    )
}

/// The full digest text of a password: upper-case hex of the SHA-1 of its
/// UTF-8 encoding.
pub open spec fn digest_hex(password: Seq<char>) -> Seq<char> {
    upper_hex(sha1_of(encode_utf8(password)))
}

/// The part of the digest text that is sent to the range service.
pub open spec fn prefix_of(password: Seq<char>) -> Seq<char> {
    digest_hex(password).take(PREFIX_LEN as int)
}

/// The part of the digest text that is compared locally.
pub open spec fn suffix_of(password: Seq<char>) -> Seq<char> {
    digest_hex(password).skip(PREFIX_LEN as int)
}

/// Relies on sha1::Sha1::digest: the SHA-1 digest of the input, 20 bytes long.
#[verifier::external_body]
fn sha1_digest(data: &[u8]) -> (r: Vec<u8>)
    ensures
        r@ == sha1_of(data@),
        r@.len() == 20,
{
    sha1::Sha1::digest(data).to_vec()
}

/// Relies on hex::encode_upper: each byte becomes two digits from
/// `0123456789ABCDEF`, high nibble first.
#[verifier::external_body]
fn encode_upper(b: &[u8]) -> (r: String)
    ensures
        r@ == upper_hex(b@),
{
    hex::encode_upper(b)
}

/// A range query for one password: the prefix to send and the suffix to look
/// for in the reply.
pub struct RangeQuery {
    pub prefix: String,
    pub suffix: String,
}

impl RangeQuery {
    /// The query belongs to `password`.
    pub open spec fn is_query_for(&self, password: Seq<char>) -> bool {
        &&& self.prefix@ == prefix_of(password)
        &&& self.suffix@ == suffix_of(password)
    }
}

proof fn lemma_upper_hex_ascii(b: Seq<u8>)
    ensures
        is_ascii_chars(upper_hex(b)),
{
    assert forall|i: int| 0 <= i < upper_hex(b).len() implies '\0' <= #[trigger] upper_hex(
        b,
    )[i] <= '\u{7f}' by {
        let n: u8 = if i % 2 == 0 { b[i / 2] / 16 } else { b[i / 2] % 16 };
        assert(n < 16);
    }
}

/// Hashing the same password twice gives the same split: two queries for one
/// password have the same prefix and the same suffix.
pub proof fn lemma_query_deterministic(password: Seq<char>, a: RangeQuery, b: RangeQuery)
    requires
        a.is_query_for(password),
        b.is_query_for(password),
    ensures
        a.prefix@ == b.prefix@,
        a.suffix@ == b.suffix@,
{
}

/// Hashes `password` and splits the digest text into prefix and suffix.
pub fn range_query(password: &str) -> (q: RangeQuery)
    ensures
        q.is_query_for(password@),
        q.prefix@ + q.suffix@ == digest_hex(password@),
        q.prefix@.len() == PREFIX_LEN,
        q.suffix@.len() == HEX_LEN - PREFIX_LEN,
{
    let bytes = password.as_bytes();
    let sum = sha1_digest(bytes);
    let hex = encode_upper(sum.as_slice());
    proof {
        lemma_upper_hex_ascii(sum@);
        assert(digest_hex(password@) == hex@);
        assert(hex@ + Seq::<char>::empty() =~= hex@);
    }
    let text = hex.as_str();
    let prefix = text.substring_ascii(0, PREFIX_LEN);
    let suffix = text.substring_ascii(PREFIX_LEN, HEX_LEN);
    let q = RangeQuery { prefix: prefix.to_string(), suffix: suffix.to_string() };
    assert(q.prefix@ + q.suffix@ =~= digest_hex(password@));
    q
}

} // verus!
