//! The addresses and names that go into notifications of new comments.

use crate::data::str_eq;
use vstd::prelude::*;

verus! {

/// What capture group `group` of `pattern` holds in `text`: `None` where the
/// pattern does not compile or does not match, `Some(None)` where the group
/// takes no part in the match.
pub uninterp spec fn regex_group(pattern: Seq<char>, text: Seq<char>, group: nat) -> Option<Option<Seq<char>>>;

/// The view of an optional optional string.
pub open spec fn opt_opt_view(o: Option<Option<String>>) -> Option<Option<Seq<char>>> {
    match o {
        Some(Some(s)) => Some(Some(s@)),
        Some(None) => Some(None),
        None => None,
    }
}

/// Relies on `regex::Regex::new` and `Regex::captures` with `Captures::get`:
/// the text of a capture group of the first match.
#[verifier::external_body]
fn capture_group(pattern: &str, text: &str, group: usize) -> (r: Option<Option<String>>)
    ensures
        opt_opt_view(r) == regex_group(pattern@, text@, group as nat),
{
    match regex::Regex::new(pattern) {
        Ok(re) => match re.captures(text) {
            Some(caps) => Some(caps.get(group).map(|m| m.as_str().to_string())),
            None => None,
        },
        Err(_) => None,
    }
}

/// A URL split into protocol, domain, port and path.
pub const URL_PATTERN: &'static str = r"(?i)(https?)://([^\s/?#_:]+\.?)+:?(\d+)?(/[^\s]*)?$";

/// The domain of a URL, as the URL pattern captures it: `noreply` where
/// the group is empty, `None` where the text is no URL.
pub open spec fn domain_of(host: Seq<char>) -> Option<Seq<char>> {
    match regex_group(URL_PATTERN@, host, 2) {
        Some(Some(d)) => Some(d),
        Some(None) => Some("noreply"@),
        None => None,
    }
}

/// Returns the domain part of a URL.
pub fn get_domain(host: &str) -> (r: Option<String>)
    ensures
        match r {
            Some(s) => domain_of(host@) == Some(s@),
            None => domain_of(host@) is None,
        },
{
    match capture_group(URL_PATTERN, host, 2) {
        Some(Some(d)) => Some(d),
        Some(None) => Some(String::from_str("noreply")),
        None => None,
    }
}

/// The address that notifications are sent from: `oration@` and the blog's
/// domain.
pub fn sender_address(host: &str) -> (r: Option<String>)
    ensures
        match r {
            Some(s) => domain_of(host@) matches Some(d) && s@ == "oration@"@ + d,
            None => domain_of(host@) is None,
        },
{
    match get_domain(host) {
        Some(d) => {
            let mut s = String::from_str("oration@");
            s.append(d.as_str());
            Some(s)
        },
        None => None,
    }
}

/// `s` without the trailing run of `c`.
pub open spec fn trimmed_end(s: Seq<char>, c: char) -> Seq<char>
    decreases s.len(),
{
    if s.len() > 0 && s.last() == c {
        trimmed_end(s.drop_last(), c)
    } else {
        s
    }
}

/// The address of a post: the host without trailing slashes, then the path.
pub fn post_url(host: &str, path: &str) -> (r: String)
    ensures
        r@ == trimmed_end(host@, '/') + path@,
{
    let mut e = host.unicode_len();
    assert(host@.subrange(0, e as int) =~= host@);
    while e > 0 && host.get_char(e - 1) == '/'
        invariant
            e <= host@.len(),
            trimmed_end(host@.subrange(0, e as int), '/') == trimmed_end(host@, '/'),
        decreases e,
    {
        assert(host@.subrange(0, e as int).drop_last() =~= host@.subrange(0, e as int - 1));
        e = e - 1;
    }
    let base = host.substring_char(0, e);
    let mut s = String::from_str(base);
    s.append(path);
    s
}

/// The name that notification emails are addressed to: the recipient's
/// name, or `Oration Admin` where the setting is left as `~`.
pub fn recipient_name(name: &str) -> (r: String)
    ensures
        r@ == if name@ == "~"@ {
            "Oration Admin"@
        } else {
            name@
        },
{
    if str_eq(name, "~") {
        String::from_str("Oration Admin")
    } else {
        String::from_str(name)
    }
}

} // verus!
