use password_checker::breach::{interpret_reply, range_url, CheckError, HttpReply};
use password_checker::digest::range_query;
use password_checker::range::{count_in_range, RangeError};
use sha1::Digest;

fn reference_hex(password: &str) -> String {
    hex::encode_upper(sha1::Sha1::digest(password.as_bytes()))
}

fn ok_reply(body: &str) -> Result<HttpReply, String> {
    Ok(HttpReply { status: 200, body: body.to_string() })
}

#[test]
fn password_splits_into_known_prefix_and_suffix() {
    let q = range_query("password");
    assert_eq!(q.prefix, "5BAA6");
    assert_eq!(q.suffix, "1E4C9B93F3F0682250B6CF8331B7EE68FD8");
}

#[test]
fn prefix_and_suffix_rebuild_the_digest() {
    for p in ["password", "", "correct horse battery staple", "pässwörd✓", "a:b\nc"] {
        let q = range_query(p);
        assert_eq!(q.prefix.len(), 5);
        assert_eq!(q.suffix.len(), 35);
        assert_eq!(format!("{}{}", q.prefix, q.suffix), reference_hex(p));
    }
}

#[test]
fn empty_password_digest() {
    let q = range_query("");
    assert_eq!(q.prefix, "DA39A");
    assert_eq!(q.suffix, "3EE5E6B4B0D3255BFEF95601890AFD80709");
}

#[test]
fn hashing_twice_gives_same_split() {
    let a = range_query("hunter2");
    let b = range_query("hunter2");
    assert_eq!(a.prefix, b.prefix);
    assert_eq!(a.suffix, b.suffix);
    let c = range_query("hunter3");
    assert_ne!(format!("{}{}", a.prefix, a.suffix), format!("{}{}", c.prefix, c.suffix));
}

#[test]
fn url_ends_with_prefix() {
    let q = range_query("password");
    assert_eq!(range_url(&q), "https://api.pwnedpasswords.com/range/5BAA6");
}

#[test]
fn matching_line_gives_its_count() {
    let q = range_query("password");
    let body = format!(
        "003D68EB55068C33ACE09247EE4C639306B:3\r\n{}:42\r\n1E4C9B93F3F0682250B6CF8331B7EE68FD9:7\r\n",
        q.suffix
    );
    assert_eq!(interpret_reply(&q.suffix, ok_reply(&body)), Ok(42));
}

#[test]
fn matching_last_line_without_line_end() {
    let q = range_query("password");
    let body = format!("0018A45C4D1DEF81644B54AB7F969B88D65:1\n{}:3861493", q.suffix);
    assert_eq!(interpret_reply(&q.suffix, ok_reply(&body)), Ok(3861493));
}

#[test]
fn no_matching_line_gives_zero() {
    let q = range_query("password");
    let body = "003D68EB55068C33ACE09247EE4C639306B:3\r\n012C192B2F16F82EA0EB9EF18D9D539B0DD:1\r\n";
    assert_eq!(interpret_reply(&q.suffix, ok_reply(body)), Ok(0));
}

#[test]
fn empty_body_gives_zero() {
    let q = range_query("password");
    assert_eq!(interpret_reply(&q.suffix, ok_reply("")), Ok(0));
    assert_eq!(count_in_range("\r\n\n", &q.suffix), Ok(0));
}

#[test]
fn first_matching_line_wins() {
    assert_eq!(count_in_range("AB:1\nABC:2\nABC:3\n", "ABC"), Ok(2));
}

#[test]
fn longer_key_is_not_a_match() {
    assert_eq!(count_in_range("ABCD:9\nAB:4\n", "ABC"), Ok(0));
}

#[test]
fn match_is_case_sensitive() {
    assert_eq!(count_in_range("abc:9\n", "ABC"), Ok(0));
}

#[test]
fn count_after_last_colon() {
    assert_eq!(count_in_range("ABC:x:17\r\n", "ABC"), Ok(17));
}

#[test]
fn network_failure_is_an_error() {
    let q = range_query("password");
    assert_eq!(
        interpret_reply(&q.suffix, Err("connection refused".to_string())),
        Err(CheckError::Network("connection refused".to_string()))
    );
}

#[test]
fn failing_status_is_an_error() {
    let q = range_query("password");
    let reply = Ok(HttpReply { status: 503, body: format!("{}:42\n", q.suffix) });
    assert_eq!(interpret_reply(&q.suffix, reply), Err(CheckError::HttpStatus(503)));
    let reply = Ok(HttpReply { status: 404, body: String::new() });
    assert_eq!(interpret_reply(&q.suffix, reply), Err(CheckError::HttpStatus(404)));
}

#[test]
fn line_without_colon_is_malformed() {
    let q = range_query("password");
    let body = format!("not a range line\r\n{}:42\r\n", q.suffix);
    assert_eq!(
        interpret_reply(&q.suffix, ok_reply(&body)),
        Err(CheckError::Unreadable(RangeError::MalformedLine))
    );
    assert_eq!(count_in_range("garbage", "ABC"), Err(RangeError::MalformedLine));
}

#[test]
fn bad_count_is_an_error() {
    assert_eq!(count_in_range("ABC:12a\n", "ABC"), Err(RangeError::BadCount));
    assert_eq!(count_in_range("ABC:\n", "ABC"), Err(RangeError::BadCount));
    assert_eq!(count_in_range("ABC:+5\n", "ABC"), Err(RangeError::BadCount));
    assert_eq!(count_in_range("ABC:-5\n", "ABC"), Err(RangeError::BadCount));
}

#[test]
fn count_at_usize_limit() {
    let max = format!("ABC:{}\n", usize::MAX);
    assert_eq!(count_in_range(&max, "ABC"), Ok(usize::MAX));
    let over = format!("ABC:{}0\n", usize::MAX);
    assert_eq!(count_in_range(&over, "ABC"), Err(RangeError::BadCount));
    let long = format!("ABC:{}\n", "9".repeat(40));
    assert_eq!(count_in_range(&long, "ABC"), Err(RangeError::BadCount));
}

#[test]
fn leading_zeros_are_read() {
    assert_eq!(count_in_range("ABC:007\n", "ABC"), Ok(7));
    assert_eq!(count_in_range("ABC:0\n", "ABC"), Ok(0));
}

#[test]
fn malformed_line_after_match_is_an_error() {
    let q = range_query("password");
    let body = format!("{}:5\r\nx\r\n", q.suffix);
    assert_eq!(
        interpret_reply(&q.suffix, ok_reply(&body)),
        Err(CheckError::Unreadable(RangeError::MalformedLine))
    );
    assert_eq!(count_in_range("ABC:5\nDEF:1\nno colon here", "ABC"), Err(RangeError::MalformedLine));
}

#[test]
fn malformed_line_without_match_is_not_zero() {
    assert_eq!(count_in_range("DEF:1\r\nbroken\r\n", "ABC"), Err(RangeError::MalformedLine));
}

#[test]
fn malformed_line_wins_over_bad_count() {
    assert_eq!(count_in_range("ABC:zz\nbroken\n", "ABC"), Err(RangeError::MalformedLine));
}
