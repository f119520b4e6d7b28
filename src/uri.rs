//! Accounts given as `otpauth://totp/<label>?secret=<base32>&issuer=<name>`
//! URIs.
//!
//! The `url` crate splits the URI into its parts; what those parts must hold
//! to make an account, and which account they make, is decided here.

use crate::base32::{base32_error, is_ascii_upper_seq, validate_base32, Base32Error};
use crate::token::TokenInfo;
use url::Url;
use vstd::prelude::*;

verus! {

/// The parts of a URI that an account is read from, as characters; the
/// query's name-value pairs are percent-decoded and in their order.
pub struct UriParts {
    pub scheme: Vec<char>,
    pub domain: Option<Vec<char>>,
    pub path: Vec<char>,
    pub query: Vec<(Vec<char>, Vec<char>)>,
}

/// Relies on `String: FromIterator<char>`: the characters, in order.
#[verifier::external_body]
fn string_from_chars(v: &[char]) -> (r: String)
    ensures
        r@ == v@,
{
    v.iter().collect()
}

pub open spec fn pairs_view(q: Seq<(Vec<char>, Vec<char>)>) -> Seq<(Seq<char>, Seq<char>)> {
    q.map_values(|p: (Vec<char>, Vec<char>)| (p.0@, p.1@))
}

/// The value of the first pair named `key`.
pub open spec fn first_value(q: Seq<(Seq<char>, Seq<char>)>, key: Seq<char>) -> Option<Seq<char>>
    decreases q.len(),
{
    if q.len() == 0 {
        None
    } else if q[0].0 == key {
        Some(q[0].1)
    } else {
        first_value(q.drop_first(), key)
    }
}

/// What comes before the first `:`, or all of `p`.
pub open spec fn before_colon(p: Seq<char>) -> Seq<char>
    decreases p.len(),
{
    if p.len() == 0 {
        p
    } else if p[0] == ':' {
        Seq::empty()
    } else {
        seq![p[0]] + before_colon(p.drop_first())
    }
}

pub open spec fn secret_key() -> Seq<char> {
    seq!['s', 'e', 'c', 'r', 'e', 't']
}

pub open spec fn issuer_key() -> Seq<char> {
    seq!['i', 's', 's', 'u', 'e', 'r']
}

pub open spec fn otpauth_scheme() -> Seq<char> {
    seq!['o', 't', 'p', 'a', 'u', 't', 'h']
}

pub open spec fn totp_domain() -> Seq<char> {
    seq!['t', 'o', 't', 'p']
}

pub open spec fn has_leading_slash(path: Seq<char>) -> bool {
    path.len() > 0 && path[0] == '/'
}

/// The parts name a TOTP account and carry a secret.
pub open spec fn is_totp_uri(parts: &UriParts) -> bool {
    &&& parts.scheme@ == otpauth_scheme()
    &&& parts.domain matches Some(d) && d@ == totp_domain()
    &&& first_value(pairs_view(parts.query@), secret_key()) is Some
}

/// The issuer: the `issuer` pair where there is one, else what the label
/// has before its first `:`.
pub open spec fn issuer_of(parts: &UriParts) -> Seq<char> {
    match first_value(pairs_view(parts.query@), issuer_key()) {
        Some(i) => i,
        None => before_colon(parts.path@.drop_first()),
    }
}

pub open spec fn uri_error_message(parts: &UriParts) -> Option<Seq<char>> {
    if !has_leading_slash(parts.path@) {
        Some("path starts with '/'"@)
    } else if !is_totp_uri(parts) {
        Some("Invalid otpauth uri"@)
    } else {
        match base32_error(first_value(pairs_view(parts.query@), secret_key())->0) {
            Some(e) => Some(e.message_spec()),
            None => None,
        }
    }
}

/// `info` is the account that `parts` describe.
pub open spec fn describes(parts: &UriParts, info: TokenInfo) -> bool {
    &&& uri_error_message(parts) is None
    &&& info.label@ == parts.path@.drop_first()
    &&& info.issuer@ == issuer_of(parts)
    &&& is_ascii_upper_seq(first_value(pairs_view(parts.query@), secret_key())->0, info.token@)
}

fn chars_equal(a: &[char], b: &[char]) -> (r: bool)
    ensures
        r == (a@ == b@),
{
    if a.len() != b.len() {
        return false;
    }
    let mut i: usize = 0;
    while i < a.len()
        invariant
            a@.len() == b@.len(),
            i <= a@.len(),
            a@.subrange(0, i as int) == b@.subrange(0, i as int),
        decreases a.len() - i,
    {
        if a[i] != b[i] {
            assert(a@[i as int] != b@[i as int]);
            return false;
        }
        assert(a@.subrange(0, i + 1) == a@.subrange(0, i as int).push(a@[i as int]));
        assert(b@.subrange(0, i + 1) == b@.subrange(0, i as int).push(b@[i as int]));
        i = i + 1;
    }
    assert(a@ == a@.subrange(0, a@.len() as int));
    assert(b@ == b@.subrange(0, b@.len() as int));
    true
}

fn find_value<'a>(q: &'a Vec<(Vec<char>, Vec<char>)>, key: &Vec<char>) -> (r: Option<&'a Vec<char>>)
    ensures
        match r {
            Some(v) => first_value(pairs_view(q@), key@) == Some(v@),
            None => first_value(pairs_view(q@), key@) is None,
        },
{
    let ghost all = pairs_view(q@);
    assert(all.subrange(0, all.len() as int) == all);
    let mut i: usize = 0;
    while i < q.len()
        invariant
            all == pairs_view(q@),
            i <= q@.len(),
            first_value(all, key@) == first_value(all.subrange(i as int, all.len() as int), key@),
        decreases q.len() - i,
    {
        let ghost rest = all.subrange(i as int, all.len() as int);
        assert(rest[0] == all[i as int]);
        if chars_equal(q[i].0.as_slice(), key.as_slice()) {
            return Some(&q[i].1);
        }
        assert(rest.drop_first() == all.subrange(i + 1, all.len() as int));
        i = i + 1;
    }
    None
}

fn prefix_before_colon(p: &[char]) -> (r: Vec<char>)
    ensures
        r@ == before_colon(p@),
{
    let mut out: Vec<char> = Vec::new();
    let mut i: usize = 0;
    assert(p@.subrange(0, p@.len() as int) == p@);
    assert(out@ + before_colon(p@) == before_colon(p@));
    while i < p.len()
        invariant
            i <= p@.len(),
            before_colon(p@) == out@ + before_colon(p@.subrange(i as int, p@.len() as int)),
            !out@.contains(':'),
        decreases p.len() - i,
    {
        let ghost rest = p@.subrange(i as int, p@.len() as int);
        assert(rest[0] == p@[i as int]);
        if p[i] == ':' {
            assert(before_colon(rest) == Seq::<char>::empty());
            assert(out@ + Seq::<char>::empty() == out@);
            return out;
        }
        assert(rest.drop_first() == p@.subrange(i + 1, p@.len() as int));
        assert(out@ + before_colon(rest) == out@.push(p@[i as int]) + before_colon(
            rest.drop_first(),
        ));
        out.push(p[i]);
        i = i + 1;
    }
    assert(p@.subrange(p@.len() as int, p@.len() as int) == Seq::<char>::empty());
    assert(out@ + Seq::<char>::empty() == out@);
    out
}

/// The account that the parts of an `otpauth` URI describe.
///
/// The path must start with `/`; the rest of it is the label. The scheme
/// must be `otpauth`, the domain `totp`, and a `secret` pair must hold valid
/// Base32, which is kept in upper case. The issuer is the `issuer` pair, or
/// else the label up to its first `:`.
pub fn token_info_from_parts(parts: &UriParts) -> (r: Result<TokenInfo, String>)
    ensures
        match r {
            Ok(info) => describes(parts, info),
            Err(m) => uri_error_message(parts) == Some(m@),
        },
{
    if parts.path.len() == 0 || parts.path[0] != '/' {
        proof {
            reveal_strlit("path starts with '/'");
        }
        return Err(String::from_str("path starts with '/'"));
    }
    let label = parts.path.as_slice().split_at(1).1;
    assert(label@ == parts.path@.drop_first());
    let secret_name = vec!['s', 'e', 'c', 'r', 'e', 't'];
    let issuer_name = vec!['i', 's', 's', 'u', 'e', 'r'];
    let scheme_name = vec!['o', 't', 'p', 'a', 'u', 't', 'h'];
    let domain_name = vec!['t', 'o', 't', 'p'];
    let token = find_value(&parts.query, &secret_name);
    let issuer = match find_value(&parts.query, &issuer_name) {
        Some(i) => string_from_chars(i.as_slice()),
        None => string_from_chars(prefix_before_colon(label).as_slice()),
    };
    let scheme_ok = chars_equal(parts.scheme.as_slice(), scheme_name.as_slice());
    let domain_ok = match &parts.domain {
        Some(d) => chars_equal(d.as_slice(), domain_name.as_slice()),
        None => false,
    };
    match token {
        Some(t) => {
            if scheme_ok && domain_ok {
                let text = string_from_chars(t.as_slice());
                match validate_base32(text.as_str()) {
                    Ok(upper) => Ok(
                        TokenInfo { label: string_from_chars(label), issuer, token: upper },
                    ),
                    Err(m) => Err(m),
                }
            } else {
                proof {
                    reveal_strlit("Invalid otpauth uri");
                }
                Err(String::from_str("Invalid otpauth uri"))
            }
        },
        None => {
            proof {
                reveal_strlit("Invalid otpauth uri");
            }
            Err(String::from_str("Invalid otpauth uri"))
        },
    }
}

/// What `url::Url::parse` makes of `raw`: its scheme, its domain, its path
/// and the decoded pairs of its query, or `None` where `raw` is no URL.
pub uninterp spec fn url_parts_of(raw: Seq<char>) -> Option<
    (Seq<char>, Option<Seq<char>>, Seq<char>, Seq<(Seq<char>, Seq<char>)>),
>;

pub open spec fn parts_view(p: UriParts) -> (
    Seq<char>,
    Option<Seq<char>>,
    Seq<char>,
    Seq<(Seq<char>, Seq<char>)>,
) {
    (
        p.scheme@,
        match p.domain {
            Some(d) => Some(d@),
            None => None,
        },
        p.path@,
        pairs_view(p.query@),
    )
}

/// Relies on `url::Url::parse`, with `scheme`, `domain` (the host where it
/// is a domain name), `path` and `query_pairs` (the percent-decoded pairs, in
/// order) of what it returns; the parts depend on the text alone.
#[verifier::external_body]
fn uri_parts(raw: &str) -> (r: Option<UriParts>)
    ensures
        match r {
            Some(p) => url_parts_of(raw@) == Some(parts_view(p)),
            None => url_parts_of(raw@) is None,
        },
{
    Url::parse(raw).ok().map(|u| UriParts {
        scheme: u.scheme().chars().collect(),
        domain: u.domain().map(|d| d.chars().collect()),
        path: u.path().chars().collect(),
        query: u.query_pairs().map(|(k, v)| (k.chars().collect(), v.chars().collect())).collect(),
    })
}

/// Reads an account from an `otpauth://totp/...` URI; see
/// `token_info_from_parts` for what the URI must hold. Text that is no URL
/// gives `Invalid uri`.
pub fn parse_otpauth_uri(raw_uri: &str) -> (r: Result<TokenInfo, String>)
    ensures
        url_parts_of(raw_uri@) is None ==> r is Err && r->Err_0@ == "Invalid uri"@,
        url_parts_of(raw_uri@) is Some ==> exists|p: UriParts|
            url_parts_of(raw_uri@) == Some(parts_view(p)) && match r {
                Ok(info) => describes(&p, info),
                Err(m) => uri_error_message(&p) == Some(m@),
            },
{
    match uri_parts(raw_uri) {
        Some(parts) => token_info_from_parts(&parts),
        None => {
            proof {
                reveal_strlit("Invalid uri");
            }
            Err(String::from_str("Invalid uri"))
        },
    }
}

} // verus!
