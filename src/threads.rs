//! Resolving a post's path to its thread, creating the thread on first sight.

use crate::data::str_eq;
use crate::db::{has_uri, lemma_uri_index, threads_wf, uri_index, Database, DbView, Thread, ThreadView};
use crate::errors::ErrorKind;
use vstd::prelude::*;

verus! {

/// The id that the next stored thread gets.
pub open spec fn next_thread_id(t: Seq<ThreadView>) -> int {
    if t.len() == 0 {
        1
    } else {
        t.last().id + 1
    }
}

/// A title, where it is not empty.
pub open spec fn title_of(title: Seq<char>) -> Option<Seq<char>> {
    if title.len() == 0 {
        None
    } else {
        Some(title)
    }
}

/// The store and the thread id after resolving `path`. A stored thread is
/// returned as it is, its title unchanged. Otherwise the thread is created,
/// if the path was found on the blog's host.
pub open spec fn resolution(db: DbView, title: Seq<char>, path: Seq<char>, path_exists: bool) -> (
    DbView,
    Result<i32, ErrorKind>,
) {
    if has_uri(db.threads, path) {
        (db, Ok(db.threads[uri_index(db.threads, path)].id))
    } else if !path_exists {
        (db, Err(ErrorKind::PathCheckFailed))
    } else if next_thread_id(db.threads) > i32::MAX {
        (db, Err(ErrorKind::DBInsert))
    } else {
        let id = next_thread_id(db.threads) as i32;
        (
            DbView {
                threads: db.threads.push(ThreadView { id, uri: path, title: title_of(title) }),
                ..db
            },
            Ok(id),
        )
    }
}

/// The position of the thread stored for `uri`.
fn find_thread(conn: &Database, uri: &str) -> (r: Option<usize>)
    requires
        threads_wf(conn@.threads),
    ensures
        r.is_some() <==> has_uri(conn@.threads, uri@),
        r.is_some() ==> r.unwrap() == uri_index(conn@.threads, uri@) && r.unwrap() < conn@.threads.len(),
{
    let n = conn.threads.len();
    let mut i: usize = 0;
    while i < n
        invariant
            threads_wf(conn@.threads),
            n == conn@.threads.len(),
            i <= n,
            forall|j: int| 0 <= j < i ==> #[trigger] conn@.threads[j].uri != uri@,
        decreases n - i,
    {
        if str_eq(conn.threads[i].uri.as_str(), uri) {
            proof {
                lemma_uri_index(conn@.threads, i as int);
            }
            return Some(i);
        }
        i = i + 1;
    }
    None
}

/// Returns the id of the thread stored for `find_uri`.
pub fn get_id(conn: &Database, find_uri: &str) -> (r: Result<i32, ErrorKind>)
    requires
        conn@.wf(),
    ensures
        has_uri(conn@.threads, find_uri@) ==> r == Ok::<i32, ErrorKind>(
            conn@.threads[uri_index(conn@.threads, find_uri@)].id,
        ),
        !has_uri(conn@.threads, find_uri@) ==> (r matches Err(ErrorKind::NoThread(u)) && u@ == find_uri@),
{
    match find_thread(conn, find_uri) {
        Some(k) => Ok(conn.threads[k].id),
        None => Err(ErrorKind::NoThread(String::from_str(find_uri))),
    }
}

proof fn lemma_push_thread_wf(t: Seq<ThreadView>, row: ThreadView)
    requires
        threads_wf(t),
        row.id >= 1,
        t.len() == 0 || row.id > t.last().id,
        !has_uri(t, row.uri),
    ensures
        threads_wf(t.push(row)),
{
    let n = t.push(row);
    assert forall|i: int, j: int| 0 <= i < j < n.len() implies #[trigger] n[i].id < #[trigger] n[j].id by {
        if j == t.len() {
            if i < t.len() - 1 {
                assert(t[i].id < t[t.len() - 1].id);
            }
        } else {
            assert(t[i].id < t[j].id);
        }
    }
    assert forall|i: int, j: int|
        0 <= i < n.len() && 0 <= j < n.len() && i != j implies #[trigger] n[i].uri != #[trigger] n[j].uri by {
        if i == t.len() {
            assert(t[j].uri != row.uri);
        } else if j == t.len() {
            assert(t[i].uri != row.uri);
        }
    }
}

/// Stores a new thread for `new_url`. A path that already has a thread, or
/// an exhausted id space, is refused.
pub fn create(conn: &mut Database, new_url: &str, new_title: &str) -> (r: Result<i32, ErrorKind>)
    requires
        old(conn)@.wf(),
    ensures
        final(conn)@.wf(),
        final(conn)@.comments == old(conn)@.comments,
        final(conn)@.preferences == old(conn)@.preferences,
        has_uri(old(conn)@.threads, new_url@) || next_thread_id(old(conn)@.threads) > i32::MAX ==> r
            == Err::<i32, ErrorKind>(ErrorKind::DBInsert) && final(conn)@ == old(conn)@,
        !(has_uri(old(conn)@.threads, new_url@) || next_thread_id(old(conn)@.threads) > i32::MAX) ==> {
            let id = next_thread_id(old(conn)@.threads) as i32;
            &&& r == Ok::<i32, ErrorKind>(id)
            &&& final(conn)@.threads == old(conn)@.threads.push(
                ThreadView { id, uri: new_url@, title: title_of(new_title@) },
            )
        },
{
    if find_thread(conn, new_url).is_some() {
        return Err(ErrorKind::DBInsert);
    }
    let n = conn.threads.len();
    let id: i32 = if n == 0 {
        1
    } else {
        let last = conn.threads[n - 1].id;
        if last == i32::MAX {
            return Err(ErrorKind::DBInsert);
        }
        last + 1
    };
    let title = if new_title.unicode_len() == 0 {
        None
    } else {
        Some(String::from_str(new_title))
    };
    let t = Thread { id, uri: String::from_str(new_url), title };
    let ghost row = ThreadView { id, uri: new_url@, title: title_of(new_title@) };
    assert(t@ == row);
    proof {
        lemma_push_thread_wf(old(conn)@.threads, row);
    }
    conn.threads.push(t);
    assert(conn@.threads =~= old(conn)@.threads.push(row));
    Ok(id)
}

/// Returns the id of the thread for `path`, creating the thread first where
/// none is stored. `path_exists` says whether the path was found on the
/// blog's host; it only matters when a thread is to be created.
pub fn gen_or_get_id(conn: &mut Database, title: &str, path: &str, path_exists: bool) -> (r: Result<
    i32,
    ErrorKind,
>)
    requires
        old(conn)@.wf(),
    ensures
        final(conn)@.wf(),
        (final(conn)@, r) == resolution(old(conn)@, title@, path@, path_exists),
{
    match find_thread(conn, path) {
        Some(k) => Ok(conn.threads[k].id),
        None => {
            if !path_exists {
                return Err(ErrorKind::PathCheckFailed);
            }
            let r = create(conn, path, title);
            assert(final(conn)@ =~= resolution(old(conn)@, title@, path@, path_exists).0);
            r
        },
    }
}

/// Resolving the same path twice gives the same thread both times, and
/// leaves exactly one thread stored for it.
pub proof fn law_resolution_idempotent(
    db: DbView,
    title: Seq<char>,
    path: Seq<char>,
    path_exists: bool,
    again_exists: bool,
)
    requires
        db.wf(),
        resolution(db, title, path, path_exists).1.is_ok(),
    ensures
        ({
            let (d1, r1) = resolution(db, title, path, path_exists);
            let (d2, r2) = resolution(d1, title, path, again_exists);
            &&& r2 == r1
            &&& d2 == d1
            &&& has_uri(d1.threads, path)
            &&& forall|i: int, j: int|
                0 <= i < d1.threads.len() && 0 <= j < d1.threads.len() && d1.threads[i].uri == path
                    && d1.threads[j].uri == path ==> i == j
        }),
{
    let (d1, r1) = resolution(db, title, path, path_exists);
    if has_uri(db.threads, path) {
        let k = uri_index(db.threads, path);
        lemma_uri_index(db.threads, k);
    } else {
        let row = ThreadView { id: r1.unwrap(), uri: path, title: title_of(title) };
        assert(d1.threads == db.threads.push(row));
        lemma_push_thread_wf(db.threads, row);
        let k = db.threads.len() as int;
        assert(d1.threads[k].uri == path);
        lemma_uri_index(d1.threads, k);
    }
}

} // verus!
