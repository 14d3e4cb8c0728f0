//! One breach check: the address to ask and what the answer means.
use crate::digest::RangeQuery;
use crate::range::{count_in_range, lookup, RangeError};
use vstd::prelude::*;
use vstd::utf8::encode_utf8;

verus! {

/// The range service; the digest prefix is appended to it.
pub const RANGE_API: &'static str = "https://api.pwnedpasswords.com/range/";

/// Why a check gave no count.
#[derive(Debug, Clone, PartialEq, Eq)]
pub enum CheckError {
    /// No check was asked for the current password.
    NotChecked,
    /// A check is on its way.
    Checking,
    /// The request did not get a reply: connection, name lookup or TLS.
    Network(String),
    /// The service replied with a status other than success.
    HttpStatus(u16),
    /// The reply came but could not be read.
    Unreadable(RangeError),
}

/// A reply of the range service as the transport hands it over.
pub struct HttpReply {
    pub status: u16,
    pub body: String,
}

pub open spec fn is_success(status: u16) -> bool {
    200 <= status <= 299
}

/// What a check concludes from the outcome of its request: the transport's
/// failure, a failing status, or what the body says of `suffix`.
pub open spec fn check_outcome(suffix: Seq<char>, reply: Result<HttpReply, String>) -> Result<usize, CheckError> {
    match reply {
        Err(m) => Err(CheckError::Network(m)),
        Ok(h) => if !is_success(h.status) {
            Err(CheckError::HttpStatus(h.status))
        } else {
            match lookup(encode_utf8(h.body@), encode_utf8(suffix)) {
                Ok(n) => Ok(n),
                Err(e) => Err(CheckError::Unreadable(e)),
            }
        },
    }
}

/// A request that got no reply never yields a count, zero included.
pub proof fn lemma_network_failure_is_error(suffix: Seq<char>, message: String)
    ensures
        check_outcome(suffix, Err(message)) == Err::<usize, CheckError>(CheckError::Network(message)),
        check_outcome(suffix, Err(message)) is Err,
{
}

/// A reply with a failing status never yields a count, zero included.
pub proof fn lemma_failing_status_is_error(suffix: Seq<char>, reply: HttpReply)
    requires
        !is_success(reply.status),
    ensures
        check_outcome(suffix, Ok(reply)) == Err::<usize, CheckError>(CheckError::HttpStatus(reply.status)),
{
}

/// The address that asks for the range of `query`'s prefix.
pub fn range_url(query: &RangeQuery) -> (r: String)
    ensures
        r@ == RANGE_API@ + query.prefix@,
{
    let mut url = String::from_str(RANGE_API);
    url.append(query.prefix.as_str());
    url
}

/// The count, or the reason for its absence, that a request's outcome gives
/// for the digest suffix `suffix`.
pub fn interpret_reply(suffix: &str, reply: Result<HttpReply, String>) -> (r: Result<usize, CheckError>)
    ensures
        r == check_outcome(suffix@, reply),
{
    match reply {
        Err(m) => Err(CheckError::Network(m)),
        Ok(h) => {
            if !(200 <= h.status && h.status <= 299) {
                Err(CheckError::HttpStatus(h.status))
            } else {
                match count_in_range(h.body.as_str(), suffix) {
                    Ok(n) => Ok(n),
                    Err(e) => Err(CheckError::Unreadable(e)),
                }
            }
        },
    }
}

} // verus!
