//! Remote URLs: `[scheme://]host[:port][/repository]`.
use vstd::prelude::*;
use crate::text::{
    first_index, lemma_first_index, starts_with, trim_start_all, find_char, str_starts_with,
    trim_start_matches,
};

verus! {

/// Port of a TLS connection when the URL names none.
pub const TLS_DEFAULT_PORT: u16 = 443;

/// Port of a plain connection when the URL names none.
pub const PLAIN_DEFAULT_PORT: u16 = 8080;

pub open spec fn is_digit(c: char) -> bool {
    '0' <= c && c <= '9'
}

pub open spec fn all_digits(s: Seq<char>) -> bool {
    forall|i: int| 0 <= i < s.len() ==> #[trigger] is_digit(s[i])
}

/// The number that a string of decimal digits denotes.
pub open spec fn decimal_value(s: Seq<char>) -> nat
    decreases s.len(),
{
    if s.len() == 0 {
        0
    } else {
        decimal_value(s.drop_last()) * 10 + ((s.last() as u32 - 48) as nat)
    }
}

/// The text after an optional leading `+`.
pub open spec fn unsigned_digits(s: Seq<char>) -> Seq<char> {
    if s.len() > 0 && s[0] == '+' {
        s.drop_first()
    } else {
        s
    }
}

/// What `u16`'s `from_str` yields: an optional `+`, then one or more decimal
/// digits whose value fits in 16 bits.
pub open spec fn parse_u16_spec(s: Seq<char>) -> Option<u16> {
    let d = unsigned_digits(s);
    if d.len() > 0 && all_digits(d) && decimal_value(d) <= 65535 {
        Some(decimal_value(d) as u16)
    } else {
        None
    }
}

proof fn lemma_decimal_prefix(s: Seq<char>, k: int)
    requires
        0 <= k <= s.len(),
    ensures
        decimal_value(s.subrange(0, k)) <= decimal_value(s),
    decreases s.len(),
{
    if k < s.len() {
        lemma_decimal_prefix(s.drop_last(), k);
        assert(s.drop_last().subrange(0, k) =~= s.subrange(0, k));
    } else {
        assert(s.subrange(0, k) =~= s);
    }
}

/// Parses a port number as `u16`'s `from_str` does.
pub fn parse_port(s: &str) -> (r: Option<u16>)
    ensures
        r == parse_u16_spec(s@),
{
    let n = s.unicode_len();
    let mut start: usize = 0;
    if n > 0 && s.get_char(0) == '+' {
        start = 1;
    }
    let ghost d = unsigned_digits(s@);
    assert(d =~= s@.subrange(start as int, n as int));
    if start == n {
        return None;
    }
    let mut acc: u32 = 0;
    let mut i: usize = start;
    while i < n
        invariant
            n == s@.len(),
            start <= i <= n,
            d == s@.subrange(start as int, n as int),
            d == unsigned_digits(s@),
            all_digits(s@.subrange(start as int, i as int)),
            acc == decimal_value(s@.subrange(start as int, i as int)),
            acc <= 65535,
        decreases n - i,
    {
        let c = s.get_char(i);
        if !('0' <= c && c <= '9') {
            assert(d[i - start] == c);
            assert(!is_digit(d[i - start]));
            return None;
        }
        let ghost prev = s@.subrange(start as int, i as int);
        let ghost next = s@.subrange(start as int, i + 1);
        assert(next.drop_last() =~= prev);
        assert(next.last() == c);
        acc = acc * 10 + (c as u32 - 48);
        assert(all_digits(next)) by {
            assert forall|j: int| 0 <= j < next.len() implies #[trigger] is_digit(next[j]) by {
                if j < prev.len() {
                    assert(next[j] == prev[j]);
                }
            }
        }
        if acc > 65535 {
            proof {
                assert(next =~= d.subrange(0, i + 1 - start));
                lemma_decimal_prefix(d, i + 1 - start);
            }
            return None;
        }
        i = i + 1;
    }
    assert(s@.subrange(start as int, i as int) =~= d);
    Some(acc as u16)
}

/// The URL without its scheme prefixes.
pub open spec fn clean_url(u: Seq<char>) -> Seq<char> {
    trim_start_all(
        trim_start_all(trim_start_all(trim_start_all(u, "https://"@), "http://"@), "orbits://"@),
        "orbit://"@,
    )
}

/// What follows the first `:` of the cleaned URL.
pub open spec fn after_colon(c: Seq<char>) -> Seq<char> {
    c.subrange(first_index(c, ':') + 1, c.len() as int)
}

/// The port text after the host: up to the first `/` of what follows `:`.
pub open spec fn port_text(rem: Seq<char>) -> Seq<char> {
    if first_index(rem, '/') >= 0 {
        rem.subrange(0, first_index(rem, '/'))
    } else {
        rem
    }
}

/// The port that the URL names explicitly, where it names one that parses.
pub open spec fn explicit_port(u: Seq<char>) -> Option<u16> {
    let c = clean_url(u);
    if first_index(c, ':') >= 0 {
        parse_u16_spec(port_text(after_colon(c)))
    } else {
        None
    }
}

/// Whether a URL asks for TLS: an `https://` or `orbits://` scheme, or an
/// explicit port 443 or 8443.
pub open spec fn requires_tls_spec(u: Seq<char>) -> bool {
    starts_with(u, "https://"@) || starts_with(u, "orbits://"@) || explicit_port(u) == Some(443u16)
        || explicit_port(u) == Some(8443u16)
}

pub open spec fn url_host(u: Seq<char>) -> Seq<char> {
    let c = clean_url(u);
    if first_index(c, ':') >= 0 {
        c.subrange(0, first_index(c, ':'))
    } else if first_index(c, '/') >= 0 {
        c.subrange(0, first_index(c, '/'))
    } else {
        c
    }
}

/// The port, or `None` where the port text is no `u16`.
pub open spec fn url_port(u: Seq<char>) -> Option<u16> {
    let c = clean_url(u);
    if first_index(c, ':') >= 0 {
        let rem = after_colon(c);
        parse_u16_spec(
            if first_index(rem, '/') >= 0 {
                rem.subrange(0, first_index(rem, '/'))
            } else {
                rem
            },
        )
    } else if requires_tls_spec(u) {
        Some(TLS_DEFAULT_PORT)
    } else {
        Some(PLAIN_DEFAULT_PORT)
    }
}

pub open spec fn url_repository(u: Seq<char>) -> Option<Seq<char>> {
    let c = clean_url(u);
    if first_index(c, '/') < 0 {
        None
    } else if first_index(c, ':') >= 0 {
        let rem = after_colon(c);
        if first_index(rem, '/') >= 0 {
            Some(rem.subrange(first_index(rem, '/') + 1, rem.len() as int))
        } else {
            None
        }
    } else {
        Some(c.subrange(first_index(c, '/') + 1, c.len() as int))
    }
}

pub open spec fn opt_view(o: Option<String>) -> Option<Seq<char>> {
    match o {
        Some(s) => Some(s@),
        None => None,
    }
}

/// Whether a URL asks for a TLS connection.
pub fn requires_tls(url: &str) -> (r: bool)
    ensures
        r == requires_tls_spec(url@),
{
    if str_starts_with(url, "https://") || str_starts_with(url, "orbits://") {
        return true;
    }
    match port_of(url) {
        Some(p) => p == 443 || p == 8443,
        None => false,
    }
}

/// The URL without its scheme prefixes.
fn strip_schemes(url: &str) -> (r: &str)
    ensures
        r@ == clean_url(url@),
{
    trim_start_matches(
        trim_start_matches(trim_start_matches(trim_start_matches(url, "https://"), "http://"),
        "orbits://"),
        "orbit://",
    )
}

/// The port that the URL names explicitly, where it names one that parses.
fn port_of(url: &str) -> (r: Option<u16>)
    ensures
        r == explicit_port(url@),
{
    let clean = strip_schemes(url);
    proof {
        lemma_first_index(clean@, ':');
    }
    match find_char(clean, ':') {
        None => None,
        Some(ci) => {
            let n = clean.unicode_len();
            let rem = clean.substring_char(ci + 1, n);
            assert(rem@ == after_colon(clean@));
            proof {
                lemma_first_index(rem@, '/');
            }
            let text = match find_char(rem, '/') {
                Some(ri) => rem.substring_char(0, ri),
                None => rem,
            };
            parse_port(text)
        },
    }
}

/// Why a URL was refused.
#[derive(Debug, Clone, Copy, PartialEq, Eq)]
pub enum UrlError {
    /// The text after `:` is no port number.
    InvalidPort,
}

/// Connection details taken from a remote URL.
pub struct OrbitUrl {
    pub host: String,
    pub port: u16,
    pub use_tls: bool,
    pub server_name: String,
    pub repository: Option<String>,
}

impl OrbitUrl {
    /// Splits a URL into host, port, TLS choice and repository name.
    pub fn parse(url: &str) -> (r: Result<OrbitUrl, UrlError>)
        ensures
            url_port(url@) is None <==> r is Err,
            r matches Ok(o) ==> {
                &&& Some(o.port) == url_port(url@)
                &&& o.host@ == url_host(url@)
                &&& o.server_name@ == url_host(url@)
                &&& o.use_tls == requires_tls_spec(url@)
                &&& opt_view(o.repository) == url_repository(url@)
            },
    {
        let use_tls = requires_tls(url);
        let clean = strip_schemes(url);
        let ghost c = clean@;
        assert(c == clean_url(url@));
        proof {
            lemma_first_index(c, ':');
            lemma_first_index(c, '/');
        }
        let n = clean.unicode_len();
        let colon = find_char(clean, ':');
        let slash = find_char(clean, '/');
        let host: String;
        let port: u16;
        let mut rest: Option<&str> = None;
        match colon {
            Some(ci) => {
                host = String::from_str(clean.substring_char(0, ci));
                let rem = clean.substring_char(ci + 1, n);
                assert(rem@ == after_colon(c));
                proof {
                    lemma_first_index(rem@, '/');
                }
                let port_str = match find_char(rem, '/') {
                    Some(ri) => rem.substring_char(0, ri),
                    None => rem,
                };
                match parse_port(port_str) {
                    Some(p) => {
                        port = p;
                    },
                    None => {
                        return Err(UrlError::InvalidPort);
                    },
                }
                rest = Some(rem);
            },
            None => {
                host = match slash {
                    Some(si) => String::from_str(clean.substring_char(0, si)),
                    None => String::from_str(clean),
                };
                port = if use_tls {
                    TLS_DEFAULT_PORT
                } else {
                    PLAIN_DEFAULT_PORT
                };
            },
        }
        let repository = match slash {
            None => None,
            Some(si) => match rest {
                Some(rem) => {
                    let m = rem.unicode_len();
                    match find_char(rem, '/') {
                        Some(ri) => Some(String::from_str(rem.substring_char(ri + 1, m))),
                        None => None,
                    }
                },
                None => Some(String::from_str(clean.substring_char(si + 1, n))),
            },
        };
        let server_name = host.clone();
        Ok(OrbitUrl { host, port, use_tls, server_name, repository })
    }
}

} // verus!
