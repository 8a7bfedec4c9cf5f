//! The stored rows: threads, comments and preferences, with the invariant that
//! ties them together.

use crate::identity::opt_view;
use vstd::prelude::*;

verus! {

/// Whether a comment is shown.
#[derive(Debug, Clone, Copy, PartialEq, Eq, Structural)]
pub enum ModerationMode {
    Visible,
    Pending,
    Removed,
}

/// One commentable post.
#[derive(Debug)]
pub struct Thread {
    /// Primary key.
    pub id: i32,
    /// Path of the post on the blog.
    pub uri: String,
    /// Title of the post.
    pub title: Option<String>,
}

/// A thread as the contracts see it.
pub struct ThreadView {
    pub id: i32,
    pub uri: Seq<char>,
    pub title: Option<Seq<char>>,
}

impl View for Thread {
    type V = ThreadView;

    open spec fn view(&self) -> ThreadView {
        ThreadView { id: self.id, uri: self.uri@, title: opt_view(self.title) }
    }
}

/// One posted message.
#[derive(Debug)]
pub struct Comment {
    /// Primary key.
    pub id: i32,
    /// The thread the comment belongs to.
    pub tid: i32,
    /// The comment this one replies to.
    pub parent: Option<i32>,
    /// Creation time, in seconds since the epoch.
    pub created: i64,
    /// Time of the last edit, in seconds since the epoch.
    pub modified: Option<i64>,
    /// Whether the comment is shown.
    pub mode: ModerationMode,
    /// Network address of the commenter; stored, never shown.
    pub remote_addr: Option<String>,
    /// The message itself.
    pub text: String,
    /// The commenter's name, if given.
    pub author: Option<String>,
    /// The commenter's email address, if given.
    pub email: Option<String>,
    /// The commenter's website, if given.
    pub website: Option<String>,
    /// The commenter's fingerprint, fixed at insertion.
    pub hash: String,
    /// Number of likes.
    pub likes: u64,
    /// Number of dislikes.
    pub dislikes: u64,
    /// Fingerprints of those who have voted on this comment.
    pub voters: Vec<String>,
}

/// A comment as the contracts see it.
pub struct CommentView {
    pub id: i32,
    pub tid: i32,
    pub parent: Option<i32>,
    pub created: i64,
    pub modified: Option<i64>,
    pub mode: ModerationMode,
    pub remote_addr: Option<Seq<char>>,
    pub text: Seq<char>,
    pub author: Option<Seq<char>>,
    pub email: Option<Seq<char>>,
    pub website: Option<Seq<char>>,
    pub hash: Seq<char>,
    pub likes: u64,
    pub dislikes: u64,
    pub voters: Seq<Seq<char>>,
}

/// The views of a sequence of strings.
pub open spec fn strings_view(v: Seq<String>) -> Seq<Seq<char>> {
    v.map_values(|s: String| s@)
}

impl View for Comment {
    type V = CommentView;

    open spec fn view(&self) -> CommentView {
        CommentView {
            id: self.id,
            tid: self.tid,
            parent: self.parent,
            created: self.created,
            modified: self.modified,
            mode: self.mode,
            remote_addr: opt_view(self.remote_addr),
            text: self.text@,
            author: opt_view(self.author),
            email: opt_view(self.email),
            website: opt_view(self.website),
            hash: self.hash@,
            likes: self.likes,
            dislikes: self.dislikes,
            voters: strings_view(self.voters@),
        }
    }
}

/// A stored key and value.
#[derive(Debug)]
pub struct Preference {
    pub key: String,
    pub value: String,
}

/// A preference as the contracts see it.
pub struct PreferenceView {
    pub key: Seq<char>,
    pub value: Seq<char>,
}

impl View for Preference {
    type V = PreferenceView;

    open spec fn view(&self) -> PreferenceView {
        PreferenceView { key: self.key@, value: self.value@ }
    }
}

/// The rows of the three tables, in the order in which they were stored.
#[derive(Debug)]
pub struct Database {
    pub threads: Vec<Thread>,
    pub comments: Vec<Comment>,
    pub preferences: Vec<Preference>,
}

/// The store as the contracts see it.
pub struct DbView {
    pub threads: Seq<ThreadView>,
    pub comments: Seq<CommentView>,
    pub preferences: Seq<PreferenceView>,
}

impl View for Database {
    type V = DbView;

    open spec fn view(&self) -> DbView {
        DbView {
            threads: self.threads@.map_values(|t: Thread| t@),
            comments: self.comments@.map_values(|c: Comment| c@),
            preferences: self.preferences@.map_values(|p: Preference| p@),
        }
    }
}

/// Thread ids are positive and grow with each row; each path has one thread
/// at most.
pub open spec fn threads_wf(t: Seq<ThreadView>) -> bool {
    &&& forall|i: int, j: int| 0 <= i < j < t.len() ==> #[trigger] t[i].id < #[trigger] t[j].id
    &&& forall|i: int| 0 <= i < t.len() ==> #[trigger] t[i].id >= 1
    &&& forall|i: int, j: int|
        0 <= i < t.len() && 0 <= j < t.len() && i != j ==> #[trigger] t[i].uri != #[trigger] t[j].uri
}

/// A comment's parent is an earlier comment of the same thread.
pub open spec fn parent_ok(c: Seq<CommentView>, i: int) -> bool {
    match c[i].parent {
        Some(p) => exists|j: int| 0 <= j < i && #[trigger] c[j].id == p && c[j].tid == c[i].tid,
        None => true,
    }
}

/// Comment ids are positive and grow with each row; each parent is an
/// earlier comment of the same thread; no voter is counted twice on a
/// comment.
pub open spec fn comments_wf(c: Seq<CommentView>) -> bool {
    &&& forall|i: int, j: int| 0 <= i < j < c.len() ==> #[trigger] c[i].id < #[trigger] c[j].id
    &&& forall|i: int| 0 <= i < c.len() ==> #[trigger] c[i].id >= 1
    &&& forall|i: int| 0 <= i < c.len() ==> #[trigger] parent_ok(c, i)
    &&& forall|i: int| 0 <= i < c.len() ==> #[trigger] c[i].voters.no_duplicates()
}

impl DbView {
    /// The invariant of the store.
    pub open spec fn wf(self) -> bool {
        threads_wf(self.threads) && comments_wf(self.comments)
    }
}

/// Whether a comment with this id is stored.
pub open spec fn has_comment(c: Seq<CommentView>, id: i32) -> bool {
    exists|i: int| 0 <= i < c.len() && #[trigger] c[i].id == id
}

/// The position of the comment with this id.
pub open spec fn comment_index(c: Seq<CommentView>, id: i32) -> int {
    choose|i: int| 0 <= i < c.len() && #[trigger] c[i].id == id
}

/// Whether a thread with this id is stored.
pub open spec fn has_thread(t: Seq<ThreadView>, id: i32) -> bool {
    exists|i: int| 0 <= i < t.len() && #[trigger] t[i].id == id
}

/// Whether a thread with this path is stored.
pub open spec fn has_uri(t: Seq<ThreadView>, uri: Seq<char>) -> bool {
    exists|i: int| 0 <= i < t.len() && #[trigger] t[i].uri == uri
}

/// The position of the thread with this path.
pub open spec fn uri_index(t: Seq<ThreadView>, uri: Seq<char>) -> int {
    choose|i: int| 0 <= i < t.len() && #[trigger] t[i].uri == uri
}

/// Within ordered ids, a position that holds an id is the one that
/// `comment_index` names.
pub proof fn lemma_comment_index(c: Seq<CommentView>, k: int)
    requires
        comments_wf(c),
        0 <= k < c.len(),
    ensures
        has_comment(c, c[k].id),
        comment_index(c, c[k].id) == k,
{
    let id = c[k].id;
    assert(has_comment(c, id));
    let j = comment_index(c, id);
    if j < k {
        assert(c[j].id < c[k].id);
    } else if j > k {
        assert(c[k].id < c[j].id);
    }
}

/// The position of the thread with a stored path is unique.
pub proof fn lemma_uri_index(t: Seq<ThreadView>, k: int)
    requires
        threads_wf(t),
        0 <= k < t.len(),
    ensures
        has_uri(t, t[k].uri),
        uri_index(t, t[k].uri) == k,
{
    assert(has_uri(t, t[k].uri));
}

/// How many replies up the chain from the comment at position `i` lead to a
/// comment without a parent: zero for a top-level comment.
pub open spec fn depth(c: Seq<CommentView>, i: int) -> nat
    decreases i,
{
    if 0 <= i < c.len() {
        match c[i].parent {
            Some(p) => if exists|j: int| 0 <= j < i && #[trigger] c[j].id == p {
                1 + depth(c, choose|j: int| 0 <= j < i && #[trigger] c[j].id == p)
            } else {
                0
            },
            None => 0,
        }
    } else {
        0
    }
}

impl Database {
    /// An empty store.
    pub fn new() -> (r: Database)
        ensures
            r@.threads.len() == 0,
            r@.comments.len() == 0,
            r@.preferences.len() == 0,
            r@.wf(),
    {
        let r = Database { threads: Vec::new(), comments: Vec::new(), preferences: Vec::new() };
        assert(r@.threads =~= Seq::empty());
        assert(r@.comments =~= Seq::empty());
        assert(r@.preferences =~= Seq::empty());
        r
    }

    /// The position of the comment with this id.
    pub fn find_comment(&self, id: i32) -> (r: Option<usize>)
        requires
            comments_wf(self@.comments),
        ensures
            r.is_some() <==> has_comment(self@.comments, id),
            r.is_some() ==> r.unwrap() == comment_index(self@.comments, id)
                && r.unwrap() < self@.comments.len(),
    {
        let n = self.comments.len();
        let mut i: usize = 0;
        while i < n
            invariant
                comments_wf(self@.comments),
                n == self.comments@.len(),
                i <= n,
                forall|j: int| 0 <= j < i ==> #[trigger] self@.comments[j].id != id,
            decreases n - i,
        {
            if self.comments[i].id == id {
                proof {
                    lemma_comment_index(self@.comments, i as int);
                }
                return Some(i);
            }
            i = i + 1;
        }
        None
    }

    /// Whether a thread with this id is stored.
    pub fn thread_exists(&self, id: i32) -> (r: bool)
        ensures
            r == has_thread(self@.threads, id),
    {
        let n = self.threads.len();
        let mut i: usize = 0;
        while i < n
            invariant
                n == self.threads@.len(),
                i <= n,
                forall|j: int| 0 <= j < i ==> #[trigger] self@.threads[j].id != id,
            decreases n - i,
        {
            if self.threads[i].id == id {
                assert(self@.threads[i as int].id == id);
                return true;
            }
            i = i + 1;
        }
        false
    }
}

} // verus!
