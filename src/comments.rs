//! Storing, counting, authorizing, editing, deleting and voting on comments.

use crate::data::{AuthHash, FormEdit, FormInput};
use crate::db::{
    comment_index, comments_wf, depth, has_comment, has_thread, has_uri, lemma_comment_index,
    parent_ok, uri_index, Comment, CommentView, Database, DbView, ModerationMode,
};
use crate::threads::get_id;
use crate::errors::ErrorKind;
use crate::identity::{clone_opt, display_author, gen_hash, get_author, identity_hash, opt_view};
use vstd::prelude::*;

verus! {

/// Relies on `chrono::Utc::now` and `DateTime::timestamp`: the time now, in
/// whole seconds since the epoch. Nothing is promised of its value.
#[verifier::external_body]
pub(crate) fn now_seconds() -> i64 {
    chrono::Utc::now().timestamp()
}

/// Where a reply to `parent` attaches. A reply to a comment whose depth is
/// within the limit attaches to it; one to a deeper comment attaches to that
/// comment's own parent instead.
pub open spec fn nesting_outcome(c: Seq<CommentView>, parent: Option<i32>, limit: u32) -> Result<
    Option<i32>,
    ErrorKind,
> {
    match parent {
        None => Ok(None),
        Some(p) => if !has_comment(c, p) {
            Err(ErrorKind::DBRead)
        } else {
            let k = comment_index(c, p);
            if depth(c, k) <= limit {
                Ok(Some(p))
            } else {
                Ok(c[k].parent)
            }
        },
    }
}

/// The id that the next stored comment gets.
pub open spec fn next_comment_id(c: Seq<CommentView>) -> int {
    if c.len() == 0 {
        1
    } else {
        c.last().id + 1
    }
}

/// Where a new comment attaches, or why it cannot be stored: the comment
/// replied to must exist, in the same thread, and the thread must exist.
pub open spec fn insert_outcome(db: DbView, tid: i32, parent: Option<i32>, limit: u32) -> Result<
    Option<i32>,
    ErrorKind,
> {
    match nesting_outcome(db.comments, parent, limit) {
        Err(e) => Err(e),
        Ok(resolved) => if !has_thread(db.threads, tid) || next_comment_id(db.comments) > i32::MAX
            || (parent.is_some() && db.comments[comment_index(
            db.comments,
            parent.unwrap(),
        )].tid != tid) {
            Err(ErrorKind::DBInsert)
        } else {
            Ok(resolved)
        },
    }
}

/// The row that a new comment is stored as.
pub open spec fn new_row(
    id: i32,
    tid: i32,
    parent: Option<i32>,
    now: i64,
    ip: Seq<char>,
    form: FormInput,
) -> CommentView {
    CommentView {
        id,
        tid,
        parent,
        created: now,
        modified: None,
        mode: ModerationMode::Visible,
        remote_addr: if ip.len() == 0 {
            None
        } else {
            Some(ip)
        },
        text: form.comment@,
        author: opt_view(form.name),
        email: opt_view(form.email),
        website: opt_view(form.url),
        hash: identity_hash(opt_view(form.name), opt_view(form.email), opt_view(form.url), Some(ip)),
        likes: 0,
        dislikes: 0,
        voters: Seq::empty(),
    }
}

/// What a newly stored comment shows at once: its id, the comment it
/// attached to, and the name shown as its author.
#[derive(Debug)]
pub struct InsertedComment {
    pub id: i32,
    pub parent: Option<i32>,
    pub author: Option<String>,
}

proof fn lemma_push_wf(c: Seq<CommentView>, row: CommentView)
    requires
        comments_wf(c),
        row.id >= 1,
        row.voters.no_duplicates(),
        c.len() == 0 || row.id > c.last().id,
        match row.parent {
            Some(p) => exists|j: int| 0 <= j < c.len() && #[trigger] c[j].id == p && c[j].tid == row.tid,
            None => true,
        },
    ensures
        comments_wf(c.push(row)),
{
    let n = c.push(row);
    assert forall|i: int, j: int| 0 <= i < j < n.len() implies #[trigger] n[i].id < #[trigger] n[j].id by {
        if j == c.len() {
            if i < c.len() - 1 {
                assert(c[i].id < c[c.len() - 1].id);
            }
        } else {
            assert(c[i].id < c[j].id);
        }
    }
    assert forall|i: int| 0 <= i < n.len() implies #[trigger] parent_ok(n, i) by {
        if i < c.len() {
            assert(parent_ok(c, i));
            if let Some(p) = c[i].parent {
                let j = choose|j: int| 0 <= j < i && #[trigger] c[j].id == p && c[j].tid == c[i].tid;
                assert(n[j].id == p);
            }
        } else {
            if let Some(p) = row.parent {
                let j = choose|j: int| 0 <= j < c.len() && #[trigger] c[j].id == p && c[j].tid == row.tid;
                assert(n[j].id == p);
            }
        }
    }
}

/// How many replies up the chain lead from the comment at position `k` to a
/// top-level comment.
fn parent_depth(conn: &Database, k: usize) -> (r: u64)
    requires
        conn@.wf(),
        k < conn@.comments.len(),
    ensures
        r == depth(conn@.comments, k as int),
{
    let ghost c = conn@.comments;
    let mut j: usize = k;
    let mut d: u64 = 0;
    loop
        invariant
            conn@.wf(),
            c == conn@.comments,
            j <= k < c.len(),
            d <= k - j,
            d + depth(c, j as int) == depth(c, k as int),
        decreases j,
    {
        match conn.comments[j].parent {
            None => {
                return d;
            },
            Some(p) => {
                proof {
                    assert(parent_ok(c, j as int));
                    let w = choose|w: int| 0 <= w < j && #[trigger] c[w].id == p && c[w].tid == c[j as int].tid;
                    lemma_comment_index(c, w);
                    let ch = choose|i: int| 0 <= i < j && #[trigger] c[i].id == p;
                    lemma_comment_index(c, ch);
                }
                let i = conn.find_comment(p).unwrap();
                d = d + 1;
                j = i;
            },
        }
    }
}

/// Checks how deep a reply would be nested. Past the limit, the reply goes
/// to the parent's own parent instead.
pub fn nesting_check(conn: &Database, parent: &Option<i32>, nesting_limit: u32) -> (r: Result<
    Option<i32>,
    ErrorKind,
>)
    requires
        conn@.wf(),
    ensures
        r == nesting_outcome(conn@.comments, *parent, nesting_limit),
{
    match parent {
        None => Ok(None),
        Some(pid) => {
            let k = match conn.find_comment(*pid) {
                Some(k) => k,
                None => {
                    return Err(ErrorKind::DBRead);
                },
            };
            let d = parent_depth(conn, k);
            if d <= nesting_limit as u64 {
                Ok(Some(*pid))
            } else {
                Ok(conn.comments[k].parent)
            }
        },
    }
}

impl Comment {
    /// Stores a new comment at time `now`, attached where the nesting limit
    /// allows.
    pub fn insert_at(
        conn: &mut Database,
        tid: i32,
        form: &FormInput,
        ip_addr: &str,
        nesting_limit: u32,
        now: i64,
    ) -> (r: Result<InsertedComment, ErrorKind>)
        requires
            old(conn)@.wf(),
        ensures
            final(conn)@.wf(),
            match insert_outcome(old(conn)@, tid, form.parent, nesting_limit) {
                Ok(resolved) => {
                    let id = next_comment_id(old(conn)@.comments) as i32;
                    &&& r.is_ok()
                    &&& final(conn)@.comments == old(conn)@.comments.push(
                        new_row(id, tid, resolved, now, ip_addr@, *form),
                    )
                    &&& final(conn)@.threads == old(conn)@.threads
                    &&& final(conn)@.preferences == old(conn)@.preferences
                    &&& r.unwrap().id == id
                    &&& r.unwrap().parent == resolved
                    &&& opt_view(r.unwrap().author) == display_author(
                        opt_view(form.name),
                        opt_view(form.email),
                        opt_view(form.url),
                    )
                },
                Err(e) => r == Err::<InsertedComment, ErrorKind>(e) && final(conn)@ == old(conn)@,
            },
    {
        let parent_id = match nesting_check(conn, &form.parent, nesting_limit) {
            Ok(p) => p,
            Err(e) => {
                return Err(e);
            },
        };
        if !conn.thread_exists(tid) {
            return Err(ErrorKind::DBInsert);
        }
        if let Some(pid) = form.parent {
            let k = conn.find_comment(pid).unwrap();
            if conn.comments[k].tid != tid {
                return Err(ErrorKind::DBInsert);
            }
        }
        let n = conn.comments.len();
        let id: i32 = if n == 0 {
            1
        } else {
            let last = conn.comments[n - 1].id;
            if last == i32::MAX {
                return Err(ErrorKind::DBInsert);
            }
            last + 1
        };
        let hash = gen_hash(&form.name, &form.email, &form.url, Some(ip_addr));
        let ip = if ip_addr.unicode_len() == 0 {
            None
        } else {
            Some(String::from_str(ip_addr))
        };
        let c = Comment {
            id,
            tid,
            parent: parent_id,
            created: now,
            modified: None,
            mode: ModerationMode::Visible,
            remote_addr: ip,
            text: form.comment.clone(),
            author: clone_opt(&form.name),
            email: clone_opt(&form.email),
            website: clone_opt(&form.url),
            hash,
            likes: 0,
            dislikes: 0,
            voters: Vec::new(),
        };
        let ghost row = new_row(id, tid, parent_id, now, ip_addr@, *form);
        assert(c@.voters =~= Seq::<Seq<char>>::empty());
        assert(c@ == row);
        proof {
            let old_c = conn@.comments;
            if let Some(p) = parent_id {
                let k = comment_index(old_c, form.parent.unwrap());
                if p == form.parent.unwrap() {
                    assert(old_c[k].id == p);
                } else {
                    assert(parent_ok(old_c, k));
                }
            }
            lemma_push_wf(old_c, row);
        }
        conn.comments.push(c);
        assert(conn@.comments =~= old(conn)@.comments.push(row));
        let author = get_author(&form.name, &form.email, &form.url);
        Ok(InsertedComment { id, parent: parent_id, author })
    }

    /// Stores a new comment, stamped with the current time.
    pub fn insert(
        conn: &mut Database,
        tid: i32,
        form: &FormInput,
        ip_addr: &str,
        nesting_limit: u32,
    ) -> (r: Result<InsertedComment, ErrorKind>)
        requires
            old(conn)@.wf(),
        ensures
            final(conn)@.wf(),
            match insert_outcome(old(conn)@, tid, form.parent, nesting_limit) {
                Ok(resolved) => {
                    let id = next_comment_id(old(conn)@.comments) as i32;
                    &&& r.is_ok()
                    &&& final(conn)@.comments.len() == old(conn)@.comments.len() + 1
                    &&& final(conn)@.comments.drop_last() == old(conn)@.comments
                    &&& exists|t: i64| final(conn)@.comments.last() == new_row(id, tid, resolved, t, ip_addr@, *form)
                    &&& final(conn)@.threads == old(conn)@.threads
                    &&& final(conn)@.preferences == old(conn)@.preferences
                    &&& r.unwrap().id == id
                    &&& r.unwrap().parent == resolved
                    &&& opt_view(r.unwrap().author) == display_author(
                        opt_view(form.name),
                        opt_view(form.email),
                        opt_view(form.url),
                    )
                },
                Err(e) => r == Err::<InsertedComment, ErrorKind>(e) && final(conn)@ == old(conn)@,
            },
    {
        let now = now_seconds();
        let r = Comment::insert_at(conn, tid, form, ip_addr, nesting_limit, now);
        proof {
            if r.is_ok() {
                assert(final(conn)@.comments.drop_last() =~= old(conn)@.comments);
            }
        }
        r
    }
}

/// Whether the fingerprint `hash` may edit the comment `id` at time `now`:
/// it must be the comment's own fingerprint, and no more than `window`
/// seconds may have passed since the comment was made.
pub open spec fn authorization(c: Seq<CommentView>, hash: Seq<char>, id: i32, window: i64, now: i64) -> Result<(), ErrorKind> {
    if !has_comment(c, id) {
        Err(ErrorKind::DBRead)
    } else {
        let row = c[comment_index(c, id)];
        if row.hash == hash && now - row.created <= window {
            Ok(())
        } else {
            Err(ErrorKind::Unauthorized)
        }
    }
}

/// Checks at time `now` that `hash` may edit or delete the comment `id`.
pub fn update_authorised_at(conn: &Database, hash: &AuthHash, id: i32, edit_window: i64, now: i64) -> (r: Result<(), ErrorKind>)
    requires
        conn@.wf(),
    ensures
        r == authorization(conn@.comments, hash@, id, edit_window, now),
{
    let k = match conn.find_comment(id) {
        Some(k) => k,
        None => {
            return Err(ErrorKind::DBRead);
        },
    };
    let row = &conn.comments[k];
    let elapsed: i128 = now as i128 - row.created as i128;
    if hash.matches(row.hash.as_str()) && elapsed <= edit_window as i128 {
        Ok(())
    } else {
        Err(ErrorKind::Unauthorized)
    }
}

/// Checks, at the current time, that `hash` may edit or delete the comment
/// `id`.
pub fn update_authorised(conn: &Database, hash: &AuthHash, id: i32, edit_window: i64) -> (r: Result<(), ErrorKind>)
    requires
        conn@.wf(),
    ensures
        exists|now: i64| r == authorization(conn@.comments, hash@, id, edit_window, now),
{
    let now = now_seconds();
    update_authorised_at(conn, hash, id, edit_window, now)
}

/// What an edited comment shows: its id, its text and the name shown as its
/// author.
#[derive(Debug)]
pub struct CommentEdits {
    pub id: i32,
    pub text: String,
    pub author: Option<String>,
}

/// A row with its text and contact fields replaced at time `now`; its
/// fingerprint stays.
pub open spec fn edited(row: CommentView, form: FormEdit, now: i64) -> CommentView {
    CommentView {
        text: form.comment@,
        author: opt_view(form.name),
        email: opt_view(form.email),
        website: opt_view(form.url),
        modified: Some(now),
        ..row
    }
}

/// Whether some comment replies to the comment `id`.
pub open spec fn has_children(c: Seq<CommentView>, id: i32) -> bool {
    exists|i: int| 0 <= i < c.len() && #[trigger] c[i].parent == Some(id)
}

/// A row with its text and contact fields cleared, kept so that the replies
/// below it stay in place.
pub open spec fn tombstone(row: CommentView) -> CommentView {
    CommentView { text: Seq::empty(), author: None, email: None, website: None, ..row }
}

/// A row with one more vote from `voter`.
pub open spec fn voted(row: CommentView, voter: Seq<char>, like: bool) -> CommentView {
    CommentView {
        likes: if like { (row.likes + 1) as u64 } else { row.likes },
        dislikes: if like { row.dislikes } else { (row.dislikes + 1) as u64 },
        voters: row.voters.push(voter),
        ..row
    }
}

/// The store after `voter` votes on the comment `id`, or why the vote is
/// refused: a voter votes once on a comment.
pub open spec fn vote_outcome(db: DbView, id: i32, voter: Seq<char>, like: bool) -> Result<DbView, ErrorKind> {
    if !has_comment(db.comments, id) {
        Err(ErrorKind::DBRead)
    } else {
        let k = comment_index(db.comments, id);
        let row = db.comments[k];
        if row.voters.contains(voter) {
            Err(ErrorKind::AlreadyVoted)
        } else if (like && row.likes == u64::MAX) || (!like && row.dislikes == u64::MAX) {
            Err(ErrorKind::DBInsert)
        } else {
            Ok(DbView { comments: db.comments.update(k, voted(row, voter, like)), ..db })
        }
    }
}

/// Replacing a row by one with the same id, thread and parent keeps the
/// comments well formed.
proof fn lemma_update_wf(c: Seq<CommentView>, k: int, row: CommentView)
    requires
        comments_wf(c),
        0 <= k < c.len(),
        row.id == c[k].id,
        row.tid == c[k].tid,
        row.parent == c[k].parent,
        row.voters.no_duplicates(),
    ensures
        comments_wf(c.update(k, row)),
{
    let n = c.update(k, row);
    assert forall|i: int, j: int| 0 <= i < j < n.len() implies #[trigger] n[i].id < #[trigger] n[j].id by {
        assert(c[i].id < c[j].id);
    }
    assert forall|i: int| 0 <= i < n.len() implies #[trigger] parent_ok(n, i) by {
        assert(parent_ok(c, i));
        if let Some(p) = c[i].parent {
            let j = choose|j: int| 0 <= j < i && #[trigger] c[j].id == p && c[j].tid == c[i].tid;
            assert(n[j].id == p);
        }
    }
}

/// Adding a voter who has not voted keeps the voters free of repeats.
proof fn lemma_push_new_voter(voters: Seq<Seq<char>>, voter: Seq<char>)
    requires
        voters.no_duplicates(),
        !voters.contains(voter),
    ensures
        voters.push(voter).no_duplicates(),
{
    let n = voters.push(voter);
    assert forall|i: int, j: int| 0 <= i < n.len() && 0 <= j < n.len() && i != j implies n[i] != n[j] by {
        if j == voters.len() {
            assert(n[i] == voters[i]);
        } else if i == voters.len() {
            assert(n[j] == voters[j]);
        } else {
            assert(n[i] == voters[i] && n[j] == voters[j]);
        }
    }
}

/// Removing a comment that nothing replies to keeps the comments well formed.
proof fn lemma_remove_leaf_wf(c: Seq<CommentView>, k: int)
    requires
        comments_wf(c),
        0 <= k < c.len(),
        !has_children(c, c[k].id),
    ensures
        comments_wf(c.remove(k)),
{
    let n = c.remove(k);
    assert forall|i: int, j: int| 0 <= i < j < n.len() implies #[trigger] n[i].id < #[trigger] n[j].id by {
        let oi = if i < k { i } else { i + 1 };
        let oj = if j < k { j } else { j + 1 };
        assert(c[oi].id < c[oj].id);
    }
    assert forall|i: int| 0 <= i < n.len() implies #[trigger] parent_ok(n, i) by {
        let oi = if i < k { i } else { i + 1 };
        assert(n[i] == c[oi]);
        assert(parent_ok(c, oi));
        if let Some(p) = c[oi].parent {
            let j = choose|j: int| 0 <= j < oi && #[trigger] c[j].id == p && c[j].tid == c[oi].tid;
            if j == k {
                assert(c[oi].parent == Some(c[k].id));
            }
            let nj = if j < k { j } else { j - 1 };
            assert(n[nj] == c[j]);
            assert(n[nj].id == p);
        }
    }
}

/// Whether a voter's fingerprint is among `voters`.
fn has_voter(voters: &Vec<String>, voter: &str) -> (r: bool)
    ensures
        r == crate::db::strings_view(voters@).contains(voter@),
{
    let n = voters.len();
    let mut i: usize = 0;
    while i < n
        invariant
            n == voters@.len(),
            i <= n,
            forall|j: int| 0 <= j < i ==> #[trigger] voters@[j]@ != voter@,
        decreases n - i,
    {
        if crate::data::str_eq(voters[i].as_str(), voter) {
            assert(crate::db::strings_view(voters@)[i as int] == voter@);
            return true;
        }
        i = i + 1;
    }
    proof {
        if crate::db::strings_view(voters@).contains(voter@) {
            let j = choose|j: int| 0 <= j < n && crate::db::strings_view(voters@)[j] == voter@;
            assert(voters@[j]@ == voter@);
        }
    }
    false
}

/// Whether some stored comment replies to the comment `id`.
fn any_child(conn: &Database, id: i32) -> (r: bool)
    ensures
        r == has_children(conn@.comments, id),
{
    let n = conn.comments.len();
    let mut i: usize = 0;
    while i < n
        invariant
            n == conn@.comments.len(),
            i <= n,
            forall|j: int| 0 <= j < i ==> #[trigger] conn@.comments[j].parent != Some(id),
        decreases n - i,
    {
        if conn.comments[i].parent == Some(id) {
            assert(conn@.comments[i as int].parent == Some(id));
            return true;
        }
        i = i + 1;
    }
    false
}

impl Comment {
    /// Replaces the text and contact fields of the comment `id` at time
    /// `now`. The fingerprint stays as it was made.
    pub fn update_at(conn: &mut Database, id: i32, form: &FormEdit, now: i64) -> (r: Result<CommentEdits, ErrorKind>)
        requires
            old(conn)@.wf(),
        ensures
            final(conn)@.wf(),
            final(conn)@.threads == old(conn)@.threads,
            final(conn)@.preferences == old(conn)@.preferences,
            has_comment(old(conn)@.comments, id) ==> {
                let k = comment_index(old(conn)@.comments, id);
                &&& r.is_ok()
                &&& final(conn)@.comments == old(conn)@.comments.update(k, edited(old(conn)@.comments[k], *form, now))
                &&& r.unwrap().id == id
                &&& r.unwrap().text@ == form.comment@
                &&& opt_view(r.unwrap().author) == display_author(opt_view(form.name), opt_view(form.email), opt_view(form.url))
            },
            !has_comment(old(conn)@.comments, id) ==> r == Err::<CommentEdits, ErrorKind>(ErrorKind::DBRead)
                && final(conn)@ == old(conn)@,
    {
        let k = match conn.find_comment(id) {
            Some(k) => k,
            None => {
                return Err(ErrorKind::DBRead);
            },
        };
        let ghost old_c = conn@.comments;
        let mut c = conn.comments.remove(k);
        c.text = form.comment.clone();
        c.author = clone_opt(&form.name);
        c.email = clone_opt(&form.email);
        c.website = clone_opt(&form.url);
        c.modified = Some(now);
        let ghost row = edited(old_c[k as int], *form, now);
        assert(c@ == row);
        conn.comments.insert(k, c);
        assert(conn@.comments =~= old_c.update(k as int, row));
        proof {
            lemma_update_wf(old_c, k as int, row);
        }
        let author = get_author(&form.name, &form.email, &form.url);
        Ok(CommentEdits { id, text: form.comment.clone(), author })
    }

    /// Replaces the text and contact fields of the comment `id`, stamped
    /// with the current time.
    pub fn update(conn: &mut Database, id: i32, form: &FormEdit) -> (r: Result<CommentEdits, ErrorKind>)
        requires
            old(conn)@.wf(),
        ensures
            final(conn)@.wf(),
            final(conn)@.threads == old(conn)@.threads,
            final(conn)@.preferences == old(conn)@.preferences,
            has_comment(old(conn)@.comments, id) ==> {
                let k = comment_index(old(conn)@.comments, id);
                &&& r.is_ok()
                &&& exists|now: i64| final(conn)@.comments == old(conn)@.comments.update(k, edited(old(conn)@.comments[k], *form, now))
                &&& r.unwrap().id == id
                &&& r.unwrap().text@ == form.comment@
                &&& opt_view(r.unwrap().author) == display_author(opt_view(form.name), opt_view(form.email), opt_view(form.url))
            },
            !has_comment(old(conn)@.comments, id) ==> r == Err::<CommentEdits, ErrorKind>(ErrorKind::DBRead)
                && final(conn)@ == old(conn)@,
    {
        let now = now_seconds();
        Comment::update_at(conn, id, form, now)
    }

    /// Deletes the comment `id`. One that has replies is kept as a
    /// tombstone, so that the replies stay in place; one without is removed.
    pub fn delete(conn: &mut Database, id: i32) -> (r: Result<(), ErrorKind>)
        requires
            old(conn)@.wf(),
        ensures
            final(conn)@.wf(),
            final(conn)@.threads == old(conn)@.threads,
            final(conn)@.preferences == old(conn)@.preferences,
            !has_comment(old(conn)@.comments, id) ==> r == Err::<(), ErrorKind>(ErrorKind::DBRead)
                && final(conn)@ == old(conn)@,
            has_comment(old(conn)@.comments, id) ==> {
                let k = comment_index(old(conn)@.comments, id);
                &&& r == Ok::<(), ErrorKind>(())
                &&& has_children(old(conn)@.comments, id) ==> final(conn)@.comments == old(conn)@.comments.update(k, tombstone(old(conn)@.comments[k]))
                &&& !has_children(old(conn)@.comments, id) ==> final(conn)@.comments == old(conn)@.comments.remove(k)
            },
    {
        let k = match conn.find_comment(id) {
            Some(k) => k,
            None => {
                return Err(ErrorKind::DBRead);
            },
        };
        let ghost old_c = conn@.comments;
        if any_child(conn, id) {
            let mut c = conn.comments.remove(k);
            c.text = String::new();
            c.author = None;
            c.email = None;
            c.website = None;
            let ghost row = tombstone(old_c[k as int]);
            assert(c@ == row);
            conn.comments.insert(k, c);
            assert(conn@.comments =~= old_c.update(k as int, row));
            proof {
                lemma_update_wf(old_c, k as int, row);
            }
        } else {
            let _ = conn.comments.remove(k);
            assert(conn@.comments =~= old_c.remove(k as int));
            proof {
                lemma_remove_leaf_wf(old_c, k as int);
            }
        }
        Ok(())
    }

    /// Deletes the comment `id` as `delete` does. Tells whether it was found.
    pub fn delete_with_id(id: i32, conn: &mut Database) -> (r: bool)
        requires
            old(conn)@.wf(),
        ensures
            final(conn)@.wf(),
            r == has_comment(old(conn)@.comments, id),
            final(conn)@.threads == old(conn)@.threads,
            final(conn)@.preferences == old(conn)@.preferences,
            !r ==> final(conn)@ == old(conn)@,
            r ==> {
                let k = comment_index(old(conn)@.comments, id);
                &&& has_children(old(conn)@.comments, id) ==> final(conn)@.comments == old(conn)@.comments.update(k, tombstone(old(conn)@.comments[k]))
                &&& !has_children(old(conn)@.comments, id) ==> final(conn)@.comments == old(conn)@.comments.remove(k)
            },
    {
        Comment::delete(conn, id).is_ok()
    }

    /// Records a like (or a dislike) on the comment `id` from `voter`, who
    /// may vote once on each comment.
    pub fn vote(conn: &mut Database, id: i32, voter: &str, like: bool) -> (r: Result<(), ErrorKind>)
        requires
            old(conn)@.wf(),
        ensures
            final(conn)@.wf(),
            match vote_outcome(old(conn)@, id, voter@, like) {
                Ok(d) => r == Ok::<(), ErrorKind>(()) && final(conn)@ == d,
                Err(e) => r == Err::<(), ErrorKind>(e) && final(conn)@ == old(conn)@,
            },
    {
        let k = match conn.find_comment(id) {
            Some(k) => k,
            None => {
                return Err(ErrorKind::DBRead);
            },
        };
        if has_voter(&conn.comments[k].voters, voter) {
            return Err(ErrorKind::AlreadyVoted);
        }
        if (like && conn.comments[k].likes == u64::MAX) || (!like && conn.comments[k].dislikes == u64::MAX) {
            return Err(ErrorKind::DBInsert);
        }
        let ghost old_c = conn@.comments;
        let mut c = conn.comments.remove(k);
        if like {
            c.likes = c.likes + 1;
        } else {
            c.dislikes = c.dislikes + 1;
        }
        let ghost old_voters = c.voters@;
        c.voters.push(String::from_str(voter));
        let ghost row = voted(old_c[k as int], voter@, like);
        assert(crate::db::strings_view(c.voters@) =~= crate::db::strings_view(old_voters).push(voter@));
        assert(c@ == row);
        conn.comments.insert(k, c);
        assert(conn@.comments =~= old_c.update(k as int, row));
        proof {
            assert(old_c[k as int].voters.no_duplicates());
            lemma_push_new_voter(old_c[k as int].voters, voter@);
            lemma_update_wf(old_c, k as int, row);
        }
        Ok(())
    }
}

/// How many of the comments belong to thread `tid`.
pub open spec fn count_in_thread(c: Seq<CommentView>, tid: i32) -> nat
    decreases c.len(),
{
    if c.len() == 0 {
        0
    } else {
        count_in_thread(c.drop_last(), tid) + if c.last().tid == tid {
            1nat
        } else {
            0nat
        }
    }
}

/// How many comments the post at `path` has.
pub open spec fn comment_count(db: DbView, path: Seq<char>) -> nat {
    if has_uri(db.threads, path) {
        count_in_thread(db.comments, db.threads[uri_index(db.threads, path)].id)
    } else {
        0
    }
}

impl Comment {
    /// Returns the number of comments of the post at `path`.
    pub fn count(conn: &Database, path: &str) -> (r: usize)
        requires
            conn@.wf(),
        ensures
            r == comment_count(conn@, path@),
    {
        let tid = match get_id(conn, path) {
            Ok(t) => t,
            Err(_) => {
                return 0;
            },
        };
        let n = conn.comments.len();
        let mut i: usize = 0;
        let mut count: usize = 0;
        while i < n
            invariant
                n == conn@.comments.len(),
                i <= n,
                count <= i,
                count == count_in_thread(conn@.comments.subrange(0, i as int), tid),
            decreases n - i,
        {
            assert(conn@.comments.subrange(0, i as int + 1).drop_last() =~= conn@.comments.subrange(0, i as int));
            if conn.comments[i].tid == tid {
                count = count + 1;
            }
            i = i + 1;
        }
        assert(conn@.comments.subrange(0, n as int) =~= conn@.comments);
        count
    }
}

/// A comment's own fingerprint may edit it while no more than the edit
/// window has passed since it was made, and not after; any other
/// fingerprint never may.
pub proof fn law_edit_window(c: Seq<CommentView>, id: i32, window: i64, now: i64, other: Seq<char>)
    requires
        has_comment(c, id),
    ensures
        ({
            let row = c[comment_index(c, id)];
            &&& now - row.created <= window ==> authorization(c, row.hash, id, window, now) == Ok::<(), ErrorKind>(())
            &&& now - row.created > window ==> authorization(c, row.hash, id, window, now) == Err::<(), ErrorKind>(ErrorKind::Unauthorized)
            &&& other != row.hash ==> authorization(c, other, id, window, now) == Err::<(), ErrorKind>(ErrorKind::Unauthorized)
        }),
{
}

/// A voter's first vote on a comment adds exactly one like (or dislike); a
/// second vote by the same voter on that comment is refused as already
/// cast, which leaves the counters as they are.
pub proof fn law_vote_once(db: DbView, id: i32, voter: Seq<char>, like: bool, again: bool)
    requires
        db.wf(),
        vote_outcome(db, id, voter, like).is_ok(),
    ensures
        ({
            let d1 = vote_outcome(db, id, voter, like).unwrap();
            let k = comment_index(db.comments, id);
            &&& d1.comments[k].likes == db.comments[k].likes + if like { 1int } else { 0int }
            &&& d1.comments[k].dislikes == db.comments[k].dislikes + if like { 0int } else { 1int }
            &&& vote_outcome(d1, id, voter, again) == Err::<DbView, ErrorKind>(ErrorKind::AlreadyVoted)
        }),
{
    let k = comment_index(db.comments, id);
    let row = db.comments[k];
    let d1 = vote_outcome(db, id, voter, like).unwrap();
    assert(row.voters.no_duplicates());
    lemma_push_new_voter(row.voters, voter);
    lemma_update_wf(db.comments, k, voted(row, voter, like));
    lemma_comment_index(d1.comments, k);
    let v = d1.comments[k].voters;
    assert(v[v.len() - 1] == voter);
}

/// A reply to a comment whose depth is within the limit attaches to that
/// comment. A reply to a deeper comment attaches one level up: to that
/// comment's parent, whose depth is one less.
pub proof fn law_nesting(c: Seq<CommentView>, p: i32, limit: u32)
    requires
        comments_wf(c),
        has_comment(c, p),
    ensures
        ({
            let k = comment_index(c, p);
            &&& depth(c, k) <= limit ==> nesting_outcome(c, Some(p), limit) == Ok::<Option<i32>, ErrorKind>(Some(p))
            &&& depth(c, k) > limit ==> nesting_outcome(c, Some(p), limit) == Ok::<Option<i32>, ErrorKind>(c[k].parent)
            &&& depth(c, k) > limit ==> (c[k].parent matches Some(q) && has_comment(c, q) && depth(c, comment_index(c, q)) + 1 == depth(c, k))
        }),
{
    let k = comment_index(c, p);
    if depth(c, k) > limit {
        assert(parent_ok(c, k));
        if let Some(q) = c[k].parent {
            let w = choose|w: int| 0 <= w < k && #[trigger] c[w].id == q && c[w].tid == c[k].tid;
            lemma_comment_index(c, w);
            let ch = choose|i: int| 0 <= i < k && #[trigger] c[i].id == q;
            lemma_comment_index(c, ch);
        }
    }
}

} // verus!
