//! The decisions of the fetch layer: HTTP + Digest authentication. The
//! exchange itself (ureq) runs outside the library, which never looks at the
//! content of an answer here.

pub mod digest;

use vstd::prelude::*;
use crate::error::{AisError, ErrorKind};
use crate::fetch::digest::{parse_challenge, challenge_spec, authorization, authorization_spec};
use crate::text::{chars_of, string_of, append_str, append, dec_u32, dec_spec, zero_pad, pad_zero, chars_eq_str};

verus! {

/// One HTTP answer as the library sees it.
pub struct RawResponse {
    pub status: u16,
    pub www_authenticate: Option<String>,
    pub body: String,
}

/// The request URL of a path on the controller: `http://<host><path>`.
pub fn request_url(host: &str, path_query: &str) -> (r: String)
    ensures
        r@ == "http://"@ + host@ + path_query@,
{
    let mut v = chars_of("http://");
    append_str(&mut v, host);
    append_str(&mut v, path_query);
    string_of(v.as_slice())
}

/// How one request goes out: the URL, whether it is a POST (any other method
/// is sent as a GET), and its headers in order.
pub struct RequestPlan {
    pub url: String,
    pub post: bool,
    pub headers: Vec<(String, String)>,
}

/// The headers of a request: a POST carries the form content type and
/// `X-Requested-With: XMLHttpRequest`; an `Authorization` header comes last
/// when one is given.
pub open spec fn headers_spec(post: bool, auth: Option<Seq<char>>) -> Seq<(Seq<char>, Seq<char>)> {
    let base: Seq<(Seq<char>, Seq<char>)> = if post {
        seq![("Content-Type"@, "application/x-www-form-urlencoded"@), ("X-Requested-With"@, "XMLHttpRequest"@)]
    } else {
        Seq::empty()
    };
    match auth {
        Some(a) => base.push(("Authorization"@, a)),
        None => base,
    }
}

/// The view of a list of headers.
pub open spec fn headers_view(h: Seq<(String, String)>) -> Seq<(Seq<char>, Seq<char>)> {
    h.map_values(|p: (String, String)| (p.0@, p.1@))
}

/// Plans a request of `method` for `path_query` on `host`: only `POST` is
/// sent as a POST, everything else as a GET.
pub fn plan_request(host: &str, method: &str, path_query: &str, auth: Option<&str>) -> (r: RequestPlan)
    ensures
        r.url@ == "http://"@ + host@ + path_query@,
        r.post == (method@ == "POST"@),
        headers_view(r.headers@) == headers_spec(r.post, match auth { Some(a) => Some(a@), None => None }),
{
    let url = request_url(host, path_query);
    let mv = chars_of(method);
    let post = chars_eq_str(mv.as_slice(), "POST");
    let mut headers: Vec<(String, String)> = Vec::new();
    if post {
        headers.push((String::from_str("Content-Type"), String::from_str("application/x-www-form-urlencoded")));
        headers.push((String::from_str("X-Requested-With"), String::from_str("XMLHttpRequest")));
    }
    let ghost base = headers_view(headers@);
    match auth {
        Some(a) => {
            headers.push((String::from_str("Authorization"), String::from_str(a)));
            assert(headers_view(headers@) =~= base.push(("Authorization"@, a@)));
        },
        None => {},
    }
    proof {
        if post {
            assert(base =~= seq![("Content-Type"@, "application/x-www-form-urlencoded"@), ("X-Requested-With"@, "XMLHttpRequest"@)]);
        } else {
            assert(base =~= Seq::<(Seq<char>, Seq<char>)>::empty());
        }
    }
    RequestPlan { url, post, headers }
}

/// The detail of an unexpected status.
pub open spec fn status_detail(status: u16, path_query: Seq<char>) -> Seq<char> {
    "unexpected HTTP "@ + dec_spec(status as nat) + " for "@ + path_query
}

/// The body of a 2xx answer; any other status is an `http_status` error.
pub fn ok_or_status(res: RawResponse, path_query: &str) -> (r: Result<String, AisError>)
    ensures
        200 <= res.status < 300 ==> (r matches Ok(b) && b@ == res.body@),
        !(200 <= res.status < 300) ==> (r matches Err(e) && e.kind == ErrorKind::HttpStatus
            && e.detail@ == status_detail(res.status, path_query@)),
{
    if 200 <= res.status && res.status < 300 {
        Ok(res.body)
    } else {
        let mut d = chars_of("unexpected HTTP ");
        let n = dec_u32(res.status as u32);
        append(&mut d, n.as_slice());
        append_str(&mut d, " for ");
        append_str(&mut d, path_query);
        Err(AisError::new(ErrorKind::HttpStatus, string_of(d.as_slice())))
    }
}

/// What to do after the first answer of a request.
pub enum FirstStep {
    /// The request is over, with this outcome.
    Done(Result<String, AisError>),
    /// Send the request once more with this `Authorization` header.
    Retry(String),
}

/// The nonce count of the one authenticated retry.
pub open spec fn nonce_count() -> Seq<char> {
    "00000001"@
}

/// The first answer decides: a status other than 401 ends the request (see
/// [`ok_or_status`]); a 401 needs a Digest challenge, answered with the
/// `Authorization` header for `cnonce` and nonce count 00000001; a 401
/// without `WWW-Authenticate`, or with a challenge that is not Digest,
/// is `auth_failed`.
pub fn after_first_response(
    first: RawResponse,
    user: &str,
    pass: &str,
    method: &str,
    path_query: &str,
    cnonce: &str,
) -> (r: FirstStep)
    ensures
        first.status != 401 ==> match r {
            FirstStep::Done(Ok(b)) => 200 <= first.status < 300 && b@ == first.body@,
            FirstStep::Done(Err(e)) => !(200 <= first.status < 300) && e.kind == ErrorKind::HttpStatus
                && e.detail@ == status_detail(first.status, path_query@),
            FirstStep::Retry(_) => false,
        },
        first.status == 401 ==> match first.www_authenticate {
            None => r matches FirstStep::Done(Err(e)) && e.kind == ErrorKind::AuthFailed
                && e.detail@ == "401 without WWW-Authenticate for "@ + path_query@,
            Some(h) => match challenge_spec(h@) {
                None => r matches FirstStep::Done(Err(e)) && e.kind == ErrorKind::AuthFailed
                    && e.detail@ == "unsupported auth challenge: "@ + h@,
                Some(c) => r matches FirstStep::Retry(a)
                    && a@ == authorization_spec(user@, pass@, method@, path_query@, c, cnonce@, nonce_count()),
            },
        },
{
    if first.status != 401 {
        return FirstStep::Done(ok_or_status(first, path_query));
    }
    let header = match &first.www_authenticate {
        Some(h) => h,
        None => {
            let mut d = chars_of("401 without WWW-Authenticate for ");
            append_str(&mut d, path_query);
            return FirstStep::Done(Err(AisError::new(ErrorKind::AuthFailed, string_of(d.as_slice()))));
        },
    };
    let challenge = match parse_challenge(header.as_str()) {
        Some(c) => c,
        None => {
            let mut d = chars_of("unsupported auth challenge: ");
            append_str(&mut d, header.as_str());
            return FirstStep::Done(Err(AisError::new(ErrorKind::AuthFailed, string_of(d.as_slice()))));
        },
    };
    FirstStep::Retry(authorization(user, pass, method, path_query, &challenge, cnonce, "00000001"))
}

/// The answer to the authenticated retry: a 401 is `auth_failed`, anything
/// else is read as [`ok_or_status`].
pub fn after_second_response(second: RawResponse, path_query: &str) -> (r: Result<String, AisError>)
    ensures
        second.status == 401 ==> (r matches Err(e) && e.kind == ErrorKind::AuthFailed
            && e.detail@ == "digest authentication rejected for "@ + path_query@),
        second.status != 401 && 200 <= second.status < 300 ==> (r matches Ok(b) && b@ == second.body@),
        second.status != 401 && !(200 <= second.status < 300) ==> (r matches Err(e)
            && e.kind == ErrorKind::HttpStatus && e.detail@ == status_detail(second.status, path_query@)),
{
    if second.status == 401 {
        let mut d = chars_of("digest authentication rejected for ");
        append_str(&mut d, path_query);
        return Err(AisError::new(ErrorKind::AuthFailed, string_of(d.as_slice())));
    }
    ok_or_status(second, path_query)
}

/// The error of a failed exchange: `timeout` when it timed out, `network`
/// otherwise; the detail is the failure's description and the URL.
pub fn transport_error(timed_out: bool, description: &str, url: &str) -> (r: AisError)
    ensures
        r.kind == (if timed_out { ErrorKind::Timeout } else { ErrorKind::Network }),
        r.detail@ == description@ + " ("@ + url@ + ")"@,
{
    let mut d = chars_of(description);
    append_str(&mut d, " (");
    append_str(&mut d, url);
    append_str(&mut d, ")");
    AisError::new(if timed_out { ErrorKind::Timeout } else { ErrorKind::Network }, string_of(d.as_slice()))
}

/// Lower-case hex digit of `d` (`0 <= d < 16`).
pub open spec fn hex_lower(d: int) -> char {
    if d < 10 { ((48 + d) as u8) as char } else { ((87 + d) as u8) as char }
}

/// Lower-case hex of `n` without leading zeros.
pub open spec fn hex_spec(n: nat) -> Seq<char>
    decreases n,
{
    if n < 16 { seq![hex_lower(n as int)] } else { hex_spec(n / 16).push(hex_lower((n % 16) as int)) }
}

fn hex_u64(n: u64) -> (r: Vec<char>)
    ensures
        r@ == hex_spec(n as nat),
    decreases n,
{
    let d = (n % 16) as u8;
    let c = if d < 10 { (48 + d) as char } else { (87 + d) as char };
    if n < 16 {
        let mut r = Vec::new();
        r.push(c);
        r
    } else {
        let mut r = hex_u64(n / 16);
        r.push(c);
        r
    }
}

/// The client nonce: `nanos XOR (pid << 32)` as 16 lower-case hex digits.
pub fn cnonce_from(nanos: u64, pid: u32) -> (r: String)
    ensures
        r@ == zero_pad(hex_spec((nanos ^ ((pid as u64) << 32u64)) as nat), 16),
{
    let x = nanos ^ ((pid as u64) << 32u64);
    let h = hex_u64(x);
    string_of(pad_zero(h, 16).as_slice())
}

} // verus!
