//! The session secret: one stored key and value, set at startup from a
//! random string.

use crate::data::str_eq;
use crate::db::{Database, Preference, PreferenceView};
use crate::errors::ErrorKind;
use rand::distributions::{Alphanumeric, DistString};
use rand::rngs::{OsRng, StdRng};
use rand::SeedableRng;
use vstd::prelude::*;

verus! {

/// Whether `c` is an ASCII letter or digit.
pub open spec fn is_alphanumeric(c: char) -> bool {
    ('a' <= c && c <= 'z') || ('A' <= c && c <= 'Z') || ('0' <= c && c <= '9')
}

/// Relies on `StdRng::from_rng(OsRng)`, which fails only where the operating
/// system gives no randomness, and on `Alphanumeric::sample_string`: `len`
/// characters, each an ASCII letter or digit.
#[verifier::external_body]
fn random_alphanumeric(len: usize) -> (r: Option<String>)
    ensures
        r matches Some(s) ==> (s@.len() == len && forall|i: int| 0 <= i < s@.len() ==> is_alphanumeric(#[trigger] s@[i])),
{
    match StdRng::from_rng(OsRng) {
        Ok(mut rng) => Some(Alphanumeric.sample_string(&mut rng, len)),
        Err(_) => None,
    }
}

/// The number of characters of a session secret.
pub const SESSION_LEN: usize = 24;

/// Generates a random session secret.
pub fn session_hash() -> (r: Result<String, ErrorKind>)
    ensures
        r matches Ok(s) ==> (s@.len() == SESSION_LEN && forall|i: int| 0 <= i < s@.len() ==> is_alphanumeric(#[trigger] s@[i])),
        r matches Err(e) ==> e == ErrorKind::SessionHash,
{
    match random_alphanumeric(SESSION_LEN) {
        Some(s) => Ok(s),
        None => Err(ErrorKind::SessionHash),
    }
}

/// Whether a preference row holds the session secret.
pub open spec fn is_session_key(k: Seq<char>) -> bool {
    k == "session-key"@
}

/// The position of the first row that holds the session secret, or the
/// number of rows.
pub open spec fn session_index(p: Seq<PreferenceView>) -> int
    decreases p.len(),
{
    if p.len() == 0 {
        0
    } else if is_session_key(p[0].key) {
        0
    } else {
        1 + session_index(p.drop_first())
    }
}

proof fn lemma_session_index(p: Seq<PreferenceView>, i: int)
    requires
        0 <= i <= p.len(),
        forall|j: int| 0 <= j < i ==> !is_session_key(#[trigger] p[j].key),
        i == p.len() || is_session_key(p[i].key),
    ensures
        session_index(p) == i,
    decreases p.len(),
{
    if p.len() > 0 && i > 0 {
        assert forall|j: int| 0 <= j < i - 1 implies !is_session_key(#[trigger] p.drop_first()[j].key) by {
            assert(!is_session_key(p[j + 1].key));
        }
        lemma_session_index(p.drop_first(), i - 1);
    }
}

/// The preferences after storing `value` as the session secret: the first
/// session row gets the value; without one, a row is appended.
pub open spec fn with_session(p: Seq<PreferenceView>, value: Seq<char>) -> Seq<PreferenceView> {
    let k = session_index(p);
    if k < p.len() {
        p.update(k, PreferenceView { key: p[k].key, value })
    } else {
        p.push(PreferenceView { key: "session-key"@, value })
    }
}

/// The position of the first session row.
fn find_session(conn: &Database) -> (r: usize)
    ensures
        r == session_index(conn@.preferences),
        r <= conn@.preferences.len(),
{
    let n = conn.preferences.len();
    let mut i: usize = 0;
    while i < n
        invariant
            n == conn@.preferences.len(),
            i <= n,
            forall|j: int| 0 <= j < i ==> !is_session_key(#[trigger] conn@.preferences[j].key),
        decreases n - i,
    {
        if str_eq(conn.preferences[i].key.as_str(), "session-key") {
            proof {
                lemma_session_index(conn@.preferences, i as int);
            }
            return i;
        }
        i = i + 1;
    }
    proof {
        lemma_session_index(conn@.preferences, i as int);
    }
    i
}

impl Preference {
    /// Stores `value` as the session secret, in place of an earlier one.
    pub fn set_session_value(conn: &mut Database, value: &str)
        requires
            old(conn)@.wf(),
        ensures
            final(conn)@.wf(),
            final(conn)@.threads == old(conn)@.threads,
            final(conn)@.comments == old(conn)@.comments,
            final(conn)@.preferences == with_session(old(conn)@.preferences, value@),
    {
        let k = find_session(conn);
        if k < conn.preferences.len() {
            let old_row = conn.preferences.remove(k);
            let row = Preference { key: old_row.key, value: String::from_str(value) };
            conn.preferences.insert(k, row);
        } else {
            conn.preferences.push(Preference { key: String::from_str("session-key"), value: String::from_str(value) });
            proof {
                reveal_strlit("session-key");
            }
        }
        assert(conn@.preferences =~= with_session(old(conn)@.preferences, value@));
    }

    /// Stores a new random session secret. Tells whether it was stored.
    pub fn set_session(conn: &mut Database) -> (r: Result<bool, ErrorKind>)
        requires
            old(conn)@.wf(),
        ensures
            final(conn)@.wf(),
            final(conn)@.threads == old(conn)@.threads,
            final(conn)@.comments == old(conn)@.comments,
            r matches Ok(b) ==> (b && exists|s: Seq<char>| s.len() == SESSION_LEN && final(conn)@.preferences == with_session(old(conn)@.preferences, s)),
            r matches Err(e) ==> (e == ErrorKind::SessionHash && final(conn)@ == old(conn)@),
    {
        match session_hash() {
            Ok(hash) => {
                Preference::set_session_value(conn, hash.as_str());
                Ok(true)
            },
            Err(e) => Err(e),
        }
    }

    /// Returns the stored session secret.
    pub fn get_session(conn: &Database) -> (r: Result<String, ErrorKind>)
        ensures
            session_index(conn@.preferences) < conn@.preferences.len() ==> (r matches Ok(s) && s@ == conn@.preferences[session_index(conn@.preferences)].value),
            session_index(conn@.preferences) >= conn@.preferences.len() ==> r == Err::<String, ErrorKind>(ErrorKind::NoSession),
    {
        let k = find_session(conn);
        if k < conn.preferences.len() {
            Ok(conn.preferences[k].value.clone())
        } else {
            Err(ErrorKind::NoSession)
        }
    }
}

/// Returns the stored session secret, or the reason there is none.
pub fn get_session(conn: &Database) -> (r: String)
    ensures
        session_index(conn@.preferences) < conn@.preferences.len() ==> r@ == conn@.preferences[session_index(conn@.preferences)].value,
{
    match Preference::get_session(conn) {
        Ok(s) => s,
        Err(e) => e.message(),
    }
}

} // verus!
