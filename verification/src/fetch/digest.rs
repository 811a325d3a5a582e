//! HTTP Digest authentication (RFC 2617, MD5, qop=auth), written for the
//! controller, which speaks only MD5 + qop=auth (auth-int / SHA-256 are not handled).

use vstd::prelude::*;
use crate::text::{chars_of, string_of, trim, trim_spec, trim_start, trim_start_spec, slice_chars,
    scan_char, lemma_scan_char, starts_with, chars_eq_str, append_str};

verus! {

/// The challenge read from a `WWW-Authenticate: Digest ...` header.
#[derive(Debug, PartialEq, Eq)]
pub struct Challenge {
    pub realm: String,
    pub nonce: String,
    pub opaque: Option<String>,
    pub qop_auth: bool,
}

/// The abstract value of a [`Challenge`].
pub ghost struct ChallengeView {
    pub realm: Seq<char>,
    pub nonce: Seq<char>,
    pub opaque: Option<Seq<char>>,
    pub qop_auth: bool,
}

impl View for Challenge {
    type V = ChallengeView;

    open spec fn view(&self) -> ChallengeView {
        ChallengeView {
            realm: self.realm@,
            nonce: self.nonce@,
            opaque: match self.opaque { Some(o) => Some(o@), None => None },
            qop_auth: self.qop_auth,
        }
    }
}

/// The position after a scan that stopped at `j` on a delimiter (the
/// delimiter is consumed; at the end there is nothing to consume).
pub open spec fn after(s: Seq<char>, j: int) -> int {
    if j < s.len() { j + 1 } else { j }
}

/// The `key="value"` / `key=value` pairs of a comma-separated list, read from
/// position `i` on (commas inside quotes are kept). Each pair: the key is the
/// trimmed text up to `=`; the list ends at an empty key. A quoted value runs to
/// the closing quote and the rest up to the next comma is skipped; a bare value
/// runs to the next comma and is trimmed.
pub open spec fn kv_pairs_from(s: Seq<char>, i: int) -> Seq<(Seq<char>, Seq<char>)>
    decreases s.len() - i,
{
    if i < 0 || i >= s.len() {
        Seq::empty()
    } else {
        let key_end = scan_char(s, '=', i);
        proof { lemma_scan_char(s, '=', i); }
        let key = trim_spec(s.subrange(i, key_end));
        let next = after(s, key_end);
        if key.len() == 0 {
            Seq::empty()
        } else if next < s.len() && s[next] == '"' {
            let q = next + 1;
            proof { lemma_scan_char(s, '"', q); }
            let qend = scan_char(s, '"', q);
            let value = s.subrange(q, qend);
            let skip_from = after(s, qend);
            proof { lemma_scan_char(s, ',', skip_from); }
            let rest = after(s, scan_char(s, ',', skip_from));
            seq![(key, value)] + kv_pairs_from(s, rest)
        } else {
            proof { lemma_scan_char(s, ',', next); }
            let c = scan_char(s, ',', next);
            let value = trim_spec(s.subrange(next, c));
            seq![(key, value)] + kv_pairs_from(s, after(s, c))
        }
    }
}

/// Position of the first `c` in `s` at or after `i`, or `s.len()`.
fn scan(s: &[char], c: char, i: usize) -> (j: usize)
    requires
        i <= s@.len(),
    ensures
        j == scan_char(s@, c, i as int),
        i <= j <= s@.len(),
{
    proof { lemma_scan_char(s@, c, i as int); }
    let mut j = i;
    while j < s.len() && s[j] != c
        invariant
            i <= j <= s@.len(),
            scan_char(s@, c, j as int) == scan_char(s@, c, i as int),
        decreases s@.len() - j,
    {
        j = j + 1;
    }
    j
}

fn after_exec(s: &[char], j: usize) -> (r: usize)
    requires
        j <= s@.len(),
    ensures
        r == after(s@, j as int),
{
    if j < s.len() { j + 1 } else { j }
}

/// Reads the pairs of a comma-separated `key=value` list (see [`kv_pairs_from`]).
fn parse_kv_pairs(s: &[char]) -> (r: Vec<(Vec<char>, Vec<char>)>)
    ensures
        r@.map_values(|p: (Vec<char>, Vec<char>)| (p.0@, p.1@)) == kv_pairs_from(s@, 0),
{
    let mut pairs: Vec<(Vec<char>, Vec<char>)> = Vec::new();
    let mut i: usize = 0;
    loop
        invariant
            i <= s@.len(),
            pairs@.map_values(|p: (Vec<char>, Vec<char>)| (p.0@, p.1@)) + kv_pairs_from(s@, i as int) == kv_pairs_from(s@, 0),
        ensures
            pairs@.map_values(|p: (Vec<char>, Vec<char>)| (p.0@, p.1@)) == kv_pairs_from(s@, 0),
        decreases s@.len() - i,
    {
        let ghost cur = pairs@.map_values(|p: (Vec<char>, Vec<char>)| (p.0@, p.1@));
        if i >= s.len() {
            assert(cur + Seq::empty() =~= cur);
            break;
        }
        let key_end = scan(s, '=', i);
        let key = trim(slice_chars(s, i, key_end).as_slice());
        let next = after_exec(s, key_end);
        if key.len() == 0 {
            assert(cur + Seq::empty() =~= cur);
            break;
        }
        let ghost step_pair: (Seq<char>, Seq<char>);
        let rest;
        if next < s.len() && s[next] == '"' {
            let q = next + 1;
            let qend = scan(s, '"', q);
            let value = slice_chars(s, q, qend);
            let skip_from = after_exec(s, qend);
            let c = scan(s, ',', skip_from);
            rest = after_exec(s, c);
            proof { step_pair = (key@, value@); }
            pairs.push((key, value));
        } else {
            let c = scan(s, ',', next);
            let value = trim(slice_chars(s, next, c).as_slice());
            rest = after_exec(s, c);
            proof { step_pair = (key@, value@); }
            pairs.push((key, value));
        }
        proof {
            assert(kv_pairs_from(s@, i as int) == seq![step_pair] + kv_pairs_from(s@, rest as int));
            assert(pairs@.map_values(|p: (Vec<char>, Vec<char>)| (p.0@, p.1@)) =~= cur.push(step_pair));
            assert(cur.push(step_pair) + kv_pairs_from(s@, rest as int) =~= cur + (seq![step_pair] + kv_pairs_from(s@, rest as int)));
        }
        i = rest;
    }
    pairs
}

/// Whether `s` has a comma-separated piece `s[i..j]` whose trimmed text is `auth`.
pub open spec fn has_auth_piece(s: Seq<char>) -> bool {
    exists|i: int, j: int| piece_at(s, i, j) && trim_spec(#[trigger] s.subrange(i, j)) == "auth"@
}

/// Whether `s[i..j]` is one piece of `s` split at commas.
pub open spec fn piece_at(s: Seq<char>, i: int, j: int) -> bool {
    &&& 0 <= i <= j <= s.len()
    &&& (i == 0 || s[i - 1] == ',')
    &&& (j == s.len() || s[j] == ',')
    &&& forall|k: int| i <= k < j ==> s[k] != ','
}

/// Whether the `qop` value lists `auth` (`value.split(',').any(|q| q.trim() == "auth")`).
fn qop_has_auth(v: &[char]) -> (r: bool)
    ensures
        r == has_auth_piece(v@),
{
    let mut i: usize = 0;
    loop
        invariant
            i <= v@.len(),
            i == 0 || v@[i - 1] == ',',
            forall|a: int, b: int| piece_at(v@, a, b) && a < i ==> trim_spec(#[trigger] v@.subrange(a, b)) != "auth"@,
        decreases v@.len() - i,
    {
        let j = scan(v, ',', i);
        proof { lemma_scan_char(v@, ',', i as int); }
        let piece = trim(slice_chars(v, i, j).as_slice());
        assert(piece_at(v@, i as int, j as int));
        if chars_eq_str(piece.as_slice(), "auth") {
            return true;
        }
        if j >= v.len() {
            assert forall|a: int, b: int| piece_at(v@, a, b) implies trim_spec(#[trigger] v@.subrange(a, b)) != "auth"@ by {
                if a >= i {
                    if a > i { assert(v@[a - 1] != ','); }
                    if b < j { assert(v@[b] != ','); }
                    if b > j { assert(v@[j as int] != ','); }
                }
            }
            return false;
        }
        proof {
            assert forall|a: int, b: int| piece_at(v@, a, b) && a < j + 1 implies trim_spec(#[trigger] v@.subrange(a, b)) != "auth"@ by {
                if a >= i {
                    if a > i { assert(v@[a - 1] != ','); }
                    if b < j { assert(v@[b] != ','); }
                    if b > j { assert(v@[j as int] != ','); }
                }
            }
        }
        i = j + 1;
    }
}

/// The challenge fields set by `pairs` (a later key replaces an earlier one):
/// realm, nonce, opaque and whether `qop` lists `auth`.
pub open spec fn challenge_fields(pairs: Seq<(Seq<char>, Seq<char>)>) -> (Option<Seq<char>>, Option<Seq<char>>, Option<Seq<char>>, bool)
    decreases pairs.len(),
{
    if pairs.len() == 0 {
        (None, None, None, false)
    } else {
        let (r, n, o, q) = challenge_fields(pairs.drop_last());
        let (k, v) = pairs.last();
        if k == "realm"@ {
            (Some(v), n, o, q)
        } else if k == "nonce"@ {
            (r, Some(v), o, q)
        } else if k == "opaque"@ {
            (r, n, Some(v), q)
        } else if k == "qop"@ {
            (r, n, o, has_auth_piece(v))
        } else {
            (r, n, o, q)
        }
    }
}

/// The challenge of a `WWW-Authenticate` header: present when the trimmed
/// header starts with `Digest` and both realm and nonce are given.
pub open spec fn challenge_spec(header: Seq<char>) -> Option<ChallengeView> {
    let t = trim_spec(header);
    if !(6 <= t.len() && t.take(6) == "Digest"@) {
        None
    } else {
        let rest = trim_start_spec(t.skip(6));
        let (r, n, o, q) = challenge_fields(kv_pairs_from(rest, 0));
        match (r, n) {
            (Some(realm), Some(nonce)) => Some(ChallengeView { realm, nonce, opaque: o, qop_auth: q }),
            _ => None,
        }
    }
}

/// Reads a `WWW-Authenticate` header; anything but Digest is `None`.
pub fn parse_challenge(header: &str) -> (r: Option<Challenge>)
    ensures
        match challenge_spec(header@) {
            Some(c) => r matches Some(x) && x@ == c,
            None => r is None,
        },
{
    let hv = chars_of(header);
    let t = trim(hv.as_slice());
    let digest = chars_of("Digest");
    proof { reveal_strlit("Digest"); }
    if !starts_with(t.as_slice(), digest.as_slice()) {
        return None;
    }
    let after_scheme = slice_chars(t.as_slice(), 6, t.len());
    assert(after_scheme@ == t@.skip(6));
    let rest = trim_start(after_scheme.as_slice());
    let pairs = parse_kv_pairs(rest.as_slice());
    let ghost ps = pairs@.map_values(|p: (Vec<char>, Vec<char>)| (p.0@, p.1@));
    let mut realm: Option<Vec<char>> = None;
    let mut nonce: Option<Vec<char>> = None;
    let mut opaque: Option<Vec<char>> = None;
    let mut qop_auth = false;
    let mut i: usize = 0;
    while i < pairs.len()
        invariant
            i <= pairs@.len(),
            ps == pairs@.map_values(|p: (Vec<char>, Vec<char>)| (p.0@, p.1@)),
            challenge_fields(ps.take(i as int)) == (
                match realm { Some(v) => Some(v@), None => None },
                match nonce { Some(v) => Some(v@), None => None },
                match opaque { Some(v) => Some(v@), None => None },
                qop_auth,
            ),
        decreases pairs@.len() - i,
    {
        assert(ps.take(i + 1).drop_last() == ps.take(i as int));
        assert(ps.take(i + 1).last() == (pairs@[i as int].0@, pairs@[i as int].1@));
        let k = &pairs[i].0;
        let v = &pairs[i].1;
        if chars_eq_str(k.as_slice(), "realm") {
            realm = Some(v.clone());
        } else if chars_eq_str(k.as_slice(), "nonce") {
            nonce = Some(v.clone());
        } else if chars_eq_str(k.as_slice(), "opaque") {
            opaque = Some(v.clone());
        } else if chars_eq_str(k.as_slice(), "qop") {
            qop_auth = qop_has_auth(v.as_slice());
        }
        proof {
            if realm is Some { assert(realm.unwrap()@ =~= realm.unwrap()@); }
        }
        i = i + 1;
    }
    assert(ps.take(ps.len() as int) == ps);
    match (realm, nonce) {
        (Some(r), Some(n)) => Some(Challenge {
            realm: string_of(r.as_slice()),
            nonce: string_of(n.as_slice()),
            opaque: match opaque { Some(o) => Some(string_of(o.as_slice())), None => None },
            qop_auth,
        }),
        _ => None,
    }
}

/// Lower-case hex of the MD5 digest of the UTF-8 bytes of `s`.
pub uninterp spec fn md5_hex_spec(s: Seq<char>) -> Seq<char>;

/// `md5::compute` of the UTF-8 bytes of `input`, written as lower-case hex
/// (`{:x}` of the digest: two digits per byte of the 16-byte digest).
#[verifier::external_body]
fn md5_hex(input: &str) -> (r: String)
    ensures
        r@ == md5_hex_spec(input@),
{
    format!("{:x}", md5::compute(input.as_bytes()))
}

/// The `response` digest: MD5 over `HA1:nonce:nc:cnonce:auth:HA2` with
/// qop=auth, else over `HA1:nonce:HA2`, where HA1 = MD5(`user:realm:pass`)
/// and HA2 = MD5(`method:uri`).
pub open spec fn response_spec(user: Seq<char>, pass: Seq<char>, method: Seq<char>, uri: Seq<char>, c: ChallengeView, cnonce: Seq<char>, nc: Seq<char>) -> Seq<char> {
    let ha1 = md5_hex_spec(user + ":"@ + c.realm + ":"@ + pass);
    let ha2 = md5_hex_spec(method + ":"@ + uri);
    if c.qop_auth {
        md5_hex_spec(ha1 + ":"@ + c.nonce + ":"@ + nc + ":"@ + cnonce + ":auth:"@ + ha2)
    } else {
        md5_hex_spec(ha1 + ":"@ + c.nonce + ":"@ + ha2)
    }
}

/// The `Authorization: Digest ...` header value around a `response` digest.
pub open spec fn digest_header_spec(user: Seq<char>, uri: Seq<char>, c: ChallengeView, cnonce: Seq<char>, nc: Seq<char>, response: Seq<char>) -> Seq<char> {
    let base = "Digest username=\""@ + user + "\", realm=\""@ + c.realm + "\", nonce=\""@ + c.nonce
        + "\", uri=\""@ + uri + "\", response=\""@ + response + "\""@;
    let with_qop = if c.qop_auth { base + ", qop=auth, nc="@ + nc + ", cnonce=\""@ + cnonce + "\""@ } else { base };
    match c.opaque {
        Some(o) => with_qop + ", opaque=\""@ + o + "\""@,
        None => with_qop,
    }
}

/// The `Authorization: Digest ...` header value.
pub open spec fn authorization_spec(user: Seq<char>, pass: Seq<char>, method: Seq<char>, uri: Seq<char>, c: ChallengeView, cnonce: Seq<char>, nc: Seq<char>) -> Seq<char> {
    digest_header_spec(user, uri, c, cnonce, nc, response_spec(user, pass, method, uri, c, cnonce, nc))
}

fn join3(a: &str, b: &str, c: &str) -> (r: String)
    ensures
        r@ == a@ + ":"@ + b@ + ":"@ + c@,
{
    let mut v = chars_of(a);
    append_str(&mut v, ":");
    append_str(&mut v, b);
    append_str(&mut v, ":");
    append_str(&mut v, c);
    string_of(v.as_slice())
}

/// Builds the `Authorization: Digest ...` header value. `cnonce` and `nc` are
/// given by the caller.
pub fn authorization(
    user: &str,
    pass: &str,
    method: &str,
    uri: &str,
    challenge: &Challenge,
    cnonce: &str,
    nc: &str,
) -> (r: String)
    ensures
        r@ == authorization_spec(user@, pass@, method@, uri@, challenge@, cnonce@, nc@),
{
    let ha1 = md5_hex(join3(user, challenge.realm.as_str(), pass).as_str());
    let mut m = chars_of(method);
    append_str(&mut m, ":");
    append_str(&mut m, uri);
    let ha2 = md5_hex(string_of(m.as_slice()).as_str());
    let response = if challenge.qop_auth {
        let mut v = chars_of(join3(ha1.as_str(), challenge.nonce.as_str(), nc).as_str());
        append_str(&mut v, ":");
        append_str(&mut v, cnonce);
        append_str(&mut v, ":auth:");
        append_str(&mut v, ha2.as_str());
        md5_hex(string_of(v.as_slice()).as_str())
    } else {
        md5_hex(join3(ha1.as_str(), challenge.nonce.as_str(), ha2.as_str()).as_str())
    };
    digest_header(user, uri, challenge, cnonce, nc, response.as_str())
}

/// Writes the `Authorization: Digest ...` header value around the
/// `response` digest: username, realm, nonce, uri and response, then
/// `qop=auth` with `nc` and `cnonce` when the challenge offers it, then the
/// opaque value when the challenge has one.
pub fn digest_header(user: &str, uri: &str, challenge: &Challenge, cnonce: &str, nc: &str, response: &str) -> (r: String)
    ensures
        r@ == digest_header_spec(user@, uri@, challenge@, cnonce@, nc@, response@),
{
    let mut a = chars_of("Digest username=\"");
    append_str(&mut a, user);
    append_str(&mut a, "\", realm=\"");
    append_str(&mut a, challenge.realm.as_str());
    append_str(&mut a, "\", nonce=\"");
    append_str(&mut a, challenge.nonce.as_str());
    append_str(&mut a, "\", uri=\"");
    append_str(&mut a, uri);
    append_str(&mut a, "\", response=\"");
    append_str(&mut a, response);
    append_str(&mut a, "\"");
    if challenge.qop_auth {
        append_str(&mut a, ", qop=auth, nc=");
        append_str(&mut a, nc);
        append_str(&mut a, ", cnonce=\"");
        append_str(&mut a, cnonce);
        append_str(&mut a, "\"");
    }
    match &challenge.opaque {
        Some(o) => {
            append_str(&mut a, ", opaque=\"");
            append_str(&mut a, o.as_str());
            append_str(&mut a, "\"");
        },
        None => {},
    }
    string_of(a.as_slice())
}

} // verus!

verus! {

/// How the `Authorization` header is put together: the five quoted fields
/// always; `, qop=auth, nc=..., cnonce="..."` right after them exactly when
/// the challenge offers qop=auth, whether or not it has an opaque value; and
/// `, opaque="..."` at the very end exactly when it has one.
pub proof fn lemma_digest_header_parts(
    user: Seq<char>,
    uri: Seq<char>,
    c: ChallengeView,
    cnonce: Seq<char>,
    nc: Seq<char>,
    response: Seq<char>,
)
    ensures
        digest_header_spec(user, uri, ChallengeView { qop_auth: false, opaque: None, ..c }, cnonce, nc, response)
            == "Digest username=\""@ + user + "\", realm=\""@ + c.realm + "\", nonce=\""@ + c.nonce
                + "\", uri=\""@ + uri + "\", response=\""@ + response + "\""@,
        digest_header_spec(user, uri, ChallengeView { qop_auth: true, opaque: None, ..c }, cnonce, nc, response)
            == digest_header_spec(user, uri, ChallengeView { qop_auth: false, opaque: None, ..c }, cnonce, nc, response)
                + ", qop=auth, nc="@ + nc + ", cnonce=\""@ + cnonce + "\""@,
        c.opaque matches Some(o) ==> digest_header_spec(user, uri, c, cnonce, nc, response)
            == digest_header_spec(user, uri, ChallengeView { opaque: None, ..c }, cnonce, nc, response)
                + ", opaque=\""@ + o + "\""@,
{
}

} // verus!
