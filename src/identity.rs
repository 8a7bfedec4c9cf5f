//! Anonymous commenter identities and the name shown beside a comment.

use crypto::digest::Digest;
use crypto::sha2::Sha224;
use vstd::prelude::*;

verus! {

/// The lowercase hexadecimal SHA-224 digest of the UTF-8 bytes of `s`.
pub uninterp spec fn sha224_hex_of(s: Seq<char>) -> Seq<char>;

/// Relies on rust-crypto's `Sha224` with `Digest::input_str` and
/// `Digest::result_str`: the digest of the string's bytes, as hex.
#[verifier::external_body]
fn sha224_hex(s: &str) -> (r: String)
    ensures
        r@ == sha224_hex_of(s@),
{
    let mut hasher = Sha224::new();
    hasher.input_str(s);
    hasher.result_str()
}

/// The elements of `parts`, in order, with `sep` between each two of them.
pub open spec fn joined(parts: Seq<Seq<char>>, sep: Seq<char>) -> Seq<char>
    decreases parts.len(),
{
    if parts.len() == 0 {
        Seq::empty()
    } else if parts.len() == 1 {
        parts[0]
    } else {
        joined(parts.drop_last(), sep) + sep + parts.last()
    }
}

/// Relies on `itertools::join`: writes the first item, then `sep` and the
/// next item for each further one; a `String` is written as it stands.
#[verifier::external_body]
fn join_strings(parts: &Vec<String>, sep: &str) -> (r: String)
    ensures
        r@ == joined(parts@.map_values(|p: String| p@), sep@),
{
    itertools::join(parts.iter(), sep)
}

/// The view of an optional string.
pub open spec fn opt_view(o: Option<String>) -> Option<Seq<char>> {
    match o {
        Some(s) => Some(s@),
        None => None,
    }
}

/// A copy of an optional string.
pub fn clone_opt(o: &Option<String>) -> (r: Option<String>)
    ensures
        r == *o,
{
    match o {
        Some(s) => Some(s.clone()),
        None => None,
    }
}

/// The present fields among `author`, `email` and `url`, in that order.
pub open spec fn present_fields(
    author: Option<Seq<char>>,
    email: Option<Seq<char>>,
    url: Option<Seq<char>>,
) -> Seq<Seq<char>> {
    let a = match author {
        Some(s) => seq![s],
        None => Seq::empty(),
    };
    let e = match email {
        Some(s) => seq![s],
        None => Seq::empty(),
    };
    let u = match url {
        Some(s) => seq![s],
        None => Seq::empty(),
    };
    a + e + u
}

/// The text that identifies a commenter: the present profile fields joined by
/// the letter `b`; else the network address; else nothing at all.
pub open spec fn identity_source(
    author: Option<Seq<char>>,
    email: Option<Seq<char>>,
    url: Option<Seq<char>>,
    ip: Option<Seq<char>>,
) -> Option<Seq<char>> {
    if author.is_some() || email.is_some() || url.is_some() {
        Some(joined(present_fields(author, email, url), seq!['b']))
    } else {
        ip
    }
}

/// The fingerprint of a commenter: the digest of the identity source, or the
/// empty string where there is none.
pub open spec fn identity_hash(
    author: Option<Seq<char>>,
    email: Option<Seq<char>>,
    url: Option<Seq<char>>,
    ip: Option<Seq<char>>,
) -> Seq<char> {
    match identity_source(author, email, url, ip) {
        Some(s) => sha224_hex_of(s),
        None => Seq::empty(),
    }
}

fn push_present(data: &mut Vec<String>, field: &Option<String>)
    ensures
        final(data)@.map_values(|p: String| p@) == old(data)@.map_values(|p: String| p@) + match opt_view(*field) {
            Some(s) => seq![s],
            None => Seq::<Seq<char>>::empty(),
        },
{
    if let Some(val) = field {
        data.push(val.clone());
        assert(final(data)@.map_values(|p: String| p@) =~= old(data)@.map_values(|p: String| p@) + seq![val@]);
    } else {
        assert(final(data)@.map_values(|p: String| p@) =~= old(data)@.map_values(|p: String| p@));
    }
}

/// The text whose digest identifies a commenter, or `None` where nothing
/// identifies them.
pub fn hash_input(
    author: &Option<String>,
    email: &Option<String>,
    url: &Option<String>,
    ip_addr: Option<&str>,
) -> (r: Option<String>)
    ensures
        opt_view(r) == identity_source(
            opt_view(*author),
            opt_view(*email),
            opt_view(*url),
            match ip_addr {
                Some(ip) => Some(ip@),
                None => None,
            },
        ),
{
    if author.is_some() || email.is_some() || url.is_some() {
        let mut data: Vec<String> = Vec::new();
        assert(data@.map_values(|p: String| p@) =~= Seq::<Seq<char>>::empty());
        push_present(&mut data, author);
        push_present(&mut data, email);
        push_present(&mut data, url);
        assert(data@.map_values(|p: String| p@) =~= present_fields(
            opt_view(*author),
            opt_view(*email),
            opt_view(*url),
        ));
        let sep = String::from_str("b");
        proof {
            reveal_strlit("b");
        }
        assert(sep@ =~= seq!['b']);
        Some(join_strings(&data, sep.as_str()))
    } else {
        match ip_addr {
            Some(ip) => Some(String::from_str(ip)),
            None => None,
        }
    }
}

/// Generates the SHA-224 fingerprint of a commenter from their profile
/// fields, falling back to their network address; empty where neither is
/// given.
pub fn gen_hash(
    author: &Option<String>,
    email: &Option<String>,
    url: &Option<String>,
    ip_addr: Option<&str>,
) -> (r: String)
    ensures
        r@ == identity_hash(
            opt_view(*author),
            opt_view(*email),
            opt_view(*url),
            match ip_addr {
                Some(ip) => Some(ip@),
                None => None,
            },
        ),
{
    match hash_input(author, email, url, ip_addr) {
        Some(data) => sha224_hex(data.as_str()),
        None => String::new(),
    }
}

/// The position of the first `c` in `s`, or the length of `s` where there is
/// none.
pub open spec fn index_of_char(s: Seq<char>, c: char) -> int
    decreases s.len(),
{
    if s.len() == 0 {
        0
    } else if s[0] == c {
        0
    } else {
        1 + index_of_char(s.drop_first(), c)
    }
}

proof fn lemma_index_of_char(s: Seq<char>, c: char, i: int)
    requires
        0 <= i <= s.len(),
        forall|j: int| 0 <= j < i ==> s[j] != c,
        i == s.len() || s[i] == c,
    ensures
        index_of_char(s, c) == i,
    decreases s.len(),
{
    if s.len() > 0 && i > 0 {
        assert(s[0] != c);
        assert forall|j: int| 0 <= j < i - 1 implies s.drop_first()[j] != c by {
            assert(s[j + 1] != c);
        }
        lemma_index_of_char(s.drop_first(), c, i - 1);
    }
}

/// The position, counted in characters, of the first `c` in `s`.
fn find_char(s: &str, c: char) -> (r: usize)
    ensures
        r == index_of_char(s@, c),
        r <= s@.len(),
{
    let n = s.unicode_len();
    let mut i: usize = 0;
    while i < n
        invariant
            n == s@.len(),
            i <= n,
            forall|j: int| 0 <= j < i ==> s@[j] != c,
        decreases n - i,
    {
        if s.get_char(i) == c {
            proof {
                lemma_index_of_char(s@, c, i as int);
            }
            return i;
        }
        i = i + 1;
    }
    proof {
        lemma_index_of_char(s@, c, i as int);
    }
    i
}

/// An email address with its domain hidden but for the part from its first
/// dot on: `local@****.tld`. Without an `@` the whole address counts as the
/// local part; without a dot after it nothing of the domain is kept.
pub open spec fn obfuscated_email(email: Seq<char>) -> Seq<char> {
    let at = index_of_char(email, '@');
    let domain = email.subrange(at, email.len() as int);
    let dot = index_of_char(domain, '.');
    email.subrange(0, at) + "@****"@ + domain.subrange(dot, domain.len() as int)
}

/// The name shown beside a comment: the author's name; else the obfuscated
/// email; else the website.
pub open spec fn display_author(
    author: Option<Seq<char>>,
    email: Option<Seq<char>>,
    url: Option<Seq<char>>,
) -> Option<Seq<char>> {
    match author {
        Some(a) => Some(a),
        None => match email {
            Some(e) => Some(obfuscated_email(e)),
            None => url,
        },
    }
}

proof fn lemma_index_of_char_bound(s: Seq<char>, c: char)
    ensures
        0 <= index_of_char(s, c) <= s.len(),
    decreases s.len(),
{
    if s.len() > 0 && s[0] != c {
        lemma_index_of_char_bound(s.drop_first(), c);
    }
}

/// Hides the domain of an email address but for its top-level part.
pub fn obfuscate_email(email: &str) -> (r: String)
    ensures
        r@ == obfuscated_email(email@),
{
    proof {
        lemma_index_of_char_bound(email@, '@');
    }
    let at = find_char(email, '@');
    let n = email.unicode_len();
    let user = email.substring_char(0, at);
    let domain = email.substring_char(at, n);
    let dot = find_char(domain, '.');
    let dn = domain.unicode_len();
    let trailing = domain.substring_char(dot, dn);
    let mut out = String::from_str(user);
    out.append("@****");
    out.append(trailing);
    out
}

/// Chooses what to show as the author of a comment, depending on how
/// complete the commenter's profile is.
pub fn get_author(
    author: &Option<String>,
    email: &Option<String>,
    url: &Option<String>,
) -> (r: Option<String>)
    ensures
        opt_view(r) == display_author(opt_view(*author), opt_view(*email), opt_view(*url)),
{
    match author {
        Some(a) => Some(a.clone()),
        None => match email {
            Some(e) => Some(obfuscate_email(e.as_str())),
            None => match url {
                Some(u) => Some(u.clone()),
                None => None,
            },
        },
    }
}

/// The fingerprint depends on nothing but the text it digests: inputs that
/// lead to the same text lead to the same fingerprint, on every call.
pub proof fn law_identity_deterministic(
    author: Option<Seq<char>>,
    email: Option<Seq<char>>,
    url: Option<Seq<char>>,
    ip: Option<Seq<char>>,
    author2: Option<Seq<char>>,
    email2: Option<Seq<char>>,
    url2: Option<Seq<char>>,
    ip2: Option<Seq<char>>,
)
    requires
        identity_source(author, email, url, ip) == identity_source(author2, email2, url2, ip2),
    ensures
        identity_hash(author, email, url, ip) == identity_hash(author2, email2, url2, ip2),
{
}

/// The profile fields are digested in the order author, email, website,
/// joined by `b`; the network address then plays no part.
pub proof fn law_identity_field_order(a: Seq<char>, e: Seq<char>, u: Seq<char>, ip: Option<Seq<char>>)
    ensures
        identity_source(Some(a), Some(e), Some(u), ip) == Some(a + seq!['b'] + e + seq!['b'] + u),
        identity_source(Some(a), Some(e), None, ip) == Some(a + seq!['b'] + e),
        identity_source(None, Some(e), Some(u), ip) == Some(e + seq!['b'] + u),
        identity_source(Some(a), None, None, ip) == Some(a),
{
    assert(present_fields(Some(a), Some(e), Some(u)) =~= seq![a, e, u]);
    assert(seq![a, e, u].drop_last() =~= seq![a, e]);
    assert(seq![a, e].drop_last() =~= seq![a]);
    assert(present_fields(Some(a), Some(e), None) =~= seq![a, e]);
    assert(present_fields(None, Some(e), Some(u)) =~= seq![e, u]);
    assert(seq![e, u].drop_last() =~= seq![e]);
    assert(joined(seq![e], seq!['b']) == e);
    assert(joined(seq![a], seq!['b']) == a);
    assert(present_fields(Some(a), None, None) =~= seq![a]);
}

/// Two commenters who differ only in their name (case counts) have
/// different texts digested; so do two who give nothing but different
/// network addresses.
pub proof fn law_identity_inputs_differ(a1: Seq<char>, a2: Seq<char>, e: Option<Seq<char>>, u: Option<Seq<char>>, ip1: Seq<char>, ip2: Seq<char>)
    requires
        a1 != a2,
        ip1 != ip2,
    ensures
        identity_source(Some(a1), e, u, None) != identity_source(Some(a2), e, u, None),
        identity_source(None, None, None, Some(ip1)) != identity_source(None, None, None, Some(ip2)),
{
    let rest = joined(present_fields(None, e, u), seq!['b']);
    let p1 = present_fields(Some(a1), e, u);
    let p2 = present_fields(Some(a2), e, u);
    lemma_joined_first(p1, seq!['b']);
    lemma_joined_first(p2, seq!['b']);
    assert(p1.drop_first() =~= present_fields(None, e, u));
    assert(p2.drop_first() =~= present_fields(None, e, u));
    let s1 = joined(p1, seq!['b']);
    let s2 = joined(p2, seq!['b']);
    let tail = if p1.len() == 1 { Seq::<char>::empty() } else { seq!['b'] + rest };
    assert(s1 == a1 + tail);
    assert(s2 == a2 + tail);
    if s1 == s2 {
        if a1.len() == a2.len() {
            assert(a1 =~= s1.subrange(0, a1.len() as int));
            assert(a2 =~= s2.subrange(0, a2.len() as int));
        } else {
            assert(s1.len() != s2.len());
        }
    }
}

/// Joining splits into the first element, then the separator and the
/// rest joined.
proof fn lemma_joined_first(parts: Seq<Seq<char>>, sep: Seq<char>)
    requires
        parts.len() >= 1,
    ensures
        joined(parts, sep) == if parts.len() == 1 {
            parts[0]
        } else {
            parts[0] + (sep + joined(parts.drop_first(), sep))
        },
    decreases parts.len(),
{
    if parts.len() > 2 {
        lemma_joined_first(parts.drop_last(), sep);
        assert(parts.drop_last().drop_first() =~= parts.drop_first().drop_last());
        assert(parts.drop_first().last() == parts.last());
        assert(parts[0] + (sep + joined(parts.drop_first(), sep)) =~= parts[0] + (sep + joined(
            parts.drop_last().drop_first(),
            sep,
        )) + sep + parts.last());
    } else if parts.len() == 2 {
        assert(parts.drop_last() =~= seq![parts[0]]);
        assert(parts.drop_first() =~= seq![parts[1]]);
        assert(joined(parts.drop_first(), sep) == parts[1]);
        assert(joined(parts.drop_last(), sep) == parts[0]);
        assert(joined(parts, sep) =~= parts[0] + (sep + parts[1]));
    }
}

/// Nothing identifies a commenter who gives no details and no address: the
/// fingerprint is empty.
pub proof fn law_identity_empty()
    ensures
        identity_hash(None, None, None, None) == Seq::<char>::empty(),
{
}

} // verus!
