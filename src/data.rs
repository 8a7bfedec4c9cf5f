//! What a commenter submits, and the fingerprint they present to edit.

use crate::identity::opt_view;
use vstd::prelude::*;

verus! {

/// A submitted new comment.
#[derive(Debug)]
pub struct FormInput {
    /// The message.
    pub comment: String,
    /// The comment replied to, if any.
    pub parent: Option<i32>,
    /// The commenter's name, if given.
    pub name: Option<String>,
    /// The commenter's email address, if given.
    pub email: Option<String>,
    /// The commenter's website, if given.
    pub url: Option<String>,
    /// Title of the post.
    pub title: String,
    /// Path of the post.
    pub path: String,
}

impl FormInput {
    /// The sender's name, `anonymous` where none is given.
    pub fn sender_name(&self) -> (r: String)
        ensures
            r@ == match opt_view(self.name) {
                Some(n) => n,
                None => "anonymous"@,
            },
    {
        match &self.name {
            Some(n) => n.clone(),
            None => String::from_str("anonymous"),
        }
    }

    /// The sender's email address, `noreply@dev.null` where none is given.
    pub fn sender_email(&self) -> (r: String)
        ensures
            r@ == match opt_view(self.email) {
                Some(e) => e,
                None => "noreply@dev.null"@,
            },
    {
        match &self.email {
            Some(e) => e.clone(),
            None => String::from_str("noreply@dev.null"),
        }
    }
}

/// The text of a submitted comment alone.
#[derive(Debug)]
pub struct Post {
    pub comment: String,
}

/// A submitted edit of a comment.
#[derive(Debug)]
pub struct FormEdit {
    /// The new message.
    pub comment: String,
    /// The commenter's name, if given.
    pub name: Option<String>,
    /// The commenter's email address, if given.
    pub email: Option<String>,
    /// The commenter's website, if given.
    pub url: Option<String>,
}

/// The fingerprint presented by someone who asks to edit or delete a comment.
#[derive(Debug)]
pub struct AuthHash(pub String);

impl View for AuthHash {
    type V = Seq<char>;

    open spec fn view(&self) -> Seq<char> {
        self.0@
    }
}

/// Whether two strings hold the same characters.
pub fn str_eq(a: &str, b: &str) -> (r: bool)
    ensures
        r == (a@ == b@),
{
    let n = a.unicode_len();
    let m = b.unicode_len();
    if n != m {
        return false;
    }
    let mut i: usize = 0;
    while i < n
        invariant
            n == a@.len(),
            n == b@.len(),
            i <= n,
            forall|j: int| 0 <= j < i ==> a@[j] == b@[j],
        decreases n - i,
    {
        if a.get_char(i) != b.get_char(i) {
            return false;
        }
        i = i + 1;
    }
    assert(a@ =~= b@);
    true
}

impl AuthHash {
    /// Takes the fingerprint from the values of the request's `x-auth-hash`
    /// header: there must be exactly one.
    pub fn from_header_values(values: &Vec<String>) -> (r: Option<AuthHash>)
        ensures
            r.is_some() <==> values@.len() == 1,
            r.is_some() ==> r.unwrap()@ == values@[0]@,
    {
        if values.len() != 1 {
            return None;
        }
        Some(AuthHash(values[0].clone()))
    }

    /// Whether the fingerprint is `compare`.
    pub fn matches(&self, compare: &str) -> (r: bool)
        ensures
            r == (self@ == compare@),
    {
        str_eq(self.0.as_str(), compare)
    }
}

} // verus!
