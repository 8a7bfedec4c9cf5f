use oration::comments::{nesting_check, update_authorised, update_authorised_at};
use oration::data::{AuthHash, FormEdit, FormInput};
use oration::db::{Comment, Database};
use oration::errors::ErrorKind;
use oration::identity::gen_hash;
use oration::threads::gen_or_get_id;

fn form(text: &str, parent: Option<i32>, name: Option<&str>) -> FormInput {
    FormInput {
        comment: text.to_string(),
        parent,
        name: name.map(|n| n.to_string()),
        email: None,
        url: None,
        title: "Post".to_string(),
        path: "/post".to_string(),
    }
}

fn with_thread() -> (Database, i32) {
    let mut db = Database::new();
    let tid = gen_or_get_id(&mut db, "Post", "/post", true).unwrap();
    (db, tid)
}

#[test]
fn insert_assigns_ids_and_hash() {
    let (mut db, tid) = with_thread();
    let c = Comment::insert_at(&mut db, tid, &form("hello", None, Some("Alice")), "203.0.113.5", 2, 100)
        .unwrap();
    assert_eq!(c.id, 1);
    assert_eq!(c.parent, None);
    assert_eq!(c.author, Some("Alice".to_string()));
    let row = &db.comments[0];
    assert_eq!(row.created, 100);
    assert_eq!(row.modified, None);
    assert_eq!(row.text, "hello");
    assert_eq!(row.remote_addr, Some("203.0.113.5".to_string()));
    assert_eq!(row.hash, gen_hash(&Some("Alice".to_string()), &None, &None, None));
    assert_eq!(row.likes, 0);
    assert_eq!(row.dislikes, 0);
    assert!(row.voters.is_empty());
    let d = Comment::insert_at(&mut db, tid, &form("again", Some(1), None), "", 2, 101).unwrap();
    assert_eq!(d.id, 2);
    assert_eq!(d.parent, Some(1));
    assert_eq!(db.comments[1].remote_addr, None);
    assert_eq!(db.comments[1].hash, gen_hash(&None, &None, &None, Some("")));
}

#[test]
fn insert_stamps_current_time() {
    let (mut db, tid) = with_thread();
    Comment::insert(&mut db, tid, &form("now", None, None), "198.51.100.1", 2).unwrap();
    assert!(db.comments[0].created > 1_500_000_000);
}

#[test]
fn nesting_within_limit_attaches_to_parent() {
    let (mut db, tid) = with_thread();
    let root = Comment::insert_at(&mut db, tid, &form("root", None, None), "ip", 2, 1).unwrap();
    let a = Comment::insert_at(&mut db, tid, &form("a", Some(root.id), None), "ip", 2, 2).unwrap();
    let b = Comment::insert_at(&mut db, tid, &form("b", Some(a.id), None), "ip", 2, 3).unwrap();
    assert_eq!(a.parent, Some(root.id));
    assert_eq!(b.parent, Some(a.id));
    // B is at depth 2, within the limit: a reply attaches to B.
    assert_eq!(nesting_check(&db, &Some(b.id), 2), Ok(Some(b.id)));
    let c = Comment::insert_at(&mut db, tid, &form("c", Some(b.id), None), "ip", 2, 4).unwrap();
    assert_eq!(c.parent, Some(b.id));
    // C is at depth 3, past the limit: a reply attaches to C's parent, B.
    assert_eq!(nesting_check(&db, &Some(c.id), 2), Ok(Some(b.id)));
    let d = Comment::insert_at(&mut db, tid, &form("d", Some(c.id), None), "ip", 2, 5).unwrap();
    assert_eq!(d.parent, Some(b.id));
}

#[test]
fn nesting_limit_zero_keeps_replies_top_level() {
    let (mut db, tid) = with_thread();
    Comment::insert_at(&mut db, tid, &form("root", None, None), "ip", 0, 1).unwrap();
    let a = Comment::insert_at(&mut db, tid, &form("a", Some(1), None), "ip", 0, 2).unwrap();
    assert_eq!(a.parent, Some(1));
    let b = Comment::insert_at(&mut db, tid, &form("b", Some(a.id), None), "ip", 0, 3).unwrap();
    assert_eq!(b.parent, Some(1));
}

#[test]
fn insert_errors() {
    let (mut db, tid) = with_thread();
    assert_eq!(
        Comment::insert_at(&mut db, tid, &form("x", Some(9), None), "ip", 2, 1).unwrap_err(),
        ErrorKind::DBRead
    );
    assert_eq!(
        Comment::insert_at(&mut db, tid + 1, &form("x", None, None), "ip", 2, 1).unwrap_err(),
        ErrorKind::DBInsert
    );
    let other = gen_or_get_id(&mut db, "Other", "/other", true).unwrap();
    let c = Comment::insert_at(&mut db, other, &form("x", None, None), "ip", 2, 1).unwrap();
    assert_eq!(
        Comment::insert_at(&mut db, tid, &form("y", Some(c.id), None), "ip", 2, 1).unwrap_err(),
        ErrorKind::DBInsert
    );
    assert_eq!(db.comments.len(), 1);
}

#[test]
fn count_by_path() {
    let (mut db, tid) = with_thread();
    let other = gen_or_get_id(&mut db, "Other", "/other", true).unwrap();
    Comment::insert_at(&mut db, tid, &form("1", None, None), "ip", 2, 1).unwrap();
    Comment::insert_at(&mut db, other, &form("2", None, None), "ip", 2, 1).unwrap();
    Comment::insert_at(&mut db, tid, &form("3", Some(1), None), "ip", 2, 1).unwrap();
    assert_eq!(Comment::count(&db, "/post"), 2);
    assert_eq!(Comment::count(&db, "/other"), 1);
    assert_eq!(Comment::count(&db, "/missing"), 0);
}

#[test]
fn edit_window_authorization() {
    let (mut db, tid) = with_thread();
    let t0: i64 = 1_000;
    let window: i64 = 900;
    Comment::insert_at(&mut db, tid, &form("hi", None, Some("Alice")), "ip", 2, t0).unwrap();
    let h = AuthHash(db.comments[0].hash.clone());
    assert_eq!(update_authorised_at(&db, &h, 1, window, t0 + window - 1), Ok(()));
    assert_eq!(update_authorised_at(&db, &h, 1, window, t0 + window), Ok(()));
    assert_eq!(update_authorised_at(&db, &h, 1, window, t0 + window + 1), Err(ErrorKind::Unauthorized));
    let other = AuthHash(gen_hash(&Some("alice".to_string()), &None, &None, None));
    assert_eq!(update_authorised_at(&db, &other, 1, window, t0), Err(ErrorKind::Unauthorized));
    assert_eq!(update_authorised_at(&db, &h, 7, window, t0), Err(ErrorKind::DBRead));
}

#[test]
fn authorization_at_current_time() {
    let (mut db, tid) = with_thread();
    Comment::insert(&mut db, tid, &form("hi", None, Some("Alice")), "ip", 2).unwrap();
    let h = AuthHash(db.comments[0].hash.clone());
    assert_eq!(update_authorised(&db, &h, 1, 900), Ok(()));
    assert_eq!(update_authorised(&db, &AuthHash("nope".to_string()), 1, 900), Err(ErrorKind::Unauthorized));
}

#[test]
fn update_keeps_fingerprint() {
    let (mut db, tid) = with_thread();
    Comment::insert_at(&mut db, tid, &form("hi", None, Some("Alice")), "ip", 2, 10).unwrap();
    let before = db.comments[0].hash.clone();
    let edit = FormEdit {
        comment: "edited".to_string(),
        name: None,
        email: Some("m@z.org".to_string()),
        url: None,
    };
    let e = Comment::update_at(&mut db, 1, &edit, 20).unwrap();
    assert_eq!(e.id, 1);
    assert_eq!(e.text, "edited");
    assert_eq!(e.author, Some("m@****.org".to_string()));
    assert_eq!(db.comments[0].text, "edited");
    assert_eq!(db.comments[0].author, None);
    assert_eq!(db.comments[0].modified, Some(20));
    assert_eq!(db.comments[0].hash, before);
    assert_eq!(Comment::update_at(&mut db, 5, &edit, 20).unwrap_err(), ErrorKind::DBRead);
    assert!(Comment::update(&mut db, 1, &edit).is_ok());
}

#[test]
fn delete_leaf_and_tombstone() {
    let (mut db, tid) = with_thread();
    Comment::insert_at(&mut db, tid, &form("root", None, Some("A")), "ip", 2, 1).unwrap();
    Comment::insert_at(&mut db, tid, &form("reply", Some(1), Some("B")), "ip", 2, 2).unwrap();
    Comment::insert_at(&mut db, tid, &form("leaf", None, Some("C")), "ip", 2, 3).unwrap();
    assert_eq!(Comment::delete(&mut db, 1), Ok(()));
    assert_eq!(db.comments.len(), 3);
    assert_eq!(db.comments[0].id, 1);
    assert_eq!(db.comments[0].text, "");
    assert_eq!(db.comments[0].author, None);
    assert_eq!(db.comments[1].parent, Some(1));
    assert_eq!(Comment::delete(&mut db, 3), Ok(()));
    assert_eq!(db.comments.len(), 2);
    assert_eq!(Comment::delete(&mut db, 3), Err(ErrorKind::DBRead));
}

#[test]
fn vote_once_per_voter() {
    let (mut db, tid) = with_thread();
    Comment::insert_at(&mut db, tid, &form("hi", None, None), "ip", 2, 1).unwrap();
    assert_eq!(Comment::vote(&mut db, 1, "voter-a", true), Ok(()));
    assert_eq!(db.comments[0].likes, 1);
    assert_eq!(Comment::vote(&mut db, 1, "voter-a", true), Err(ErrorKind::AlreadyVoted));
    assert_eq!(Comment::vote(&mut db, 1, "voter-a", false), Err(ErrorKind::AlreadyVoted));
    assert_eq!(db.comments[0].likes, 1);
    assert_eq!(db.comments[0].dislikes, 0);
    assert_eq!(Comment::vote(&mut db, 1, "voter-b", false), Ok(()));
    assert_eq!(db.comments[0].dislikes, 1);
    assert_eq!(db.comments[0].voters, vec!["voter-a".to_string(), "voter-b".to_string()]);
    assert_eq!(Comment::vote(&mut db, 2, "voter-a", true), Err(ErrorKind::DBRead));
}

#[test]
fn delete_with_id_reports_whether_found() {
    let (mut db, tid) = with_thread();
    Comment::insert_at(&mut db, tid, &form("hi", None, None), "ip", 2, 1).unwrap();
    assert!(Comment::delete_with_id(1, &mut db));
    assert!(db.comments.is_empty());
    assert!(!Comment::delete_with_id(1, &mut db));
}
