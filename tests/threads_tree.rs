use oration::config::{Author, Config, Notifications, Recipient, SMTPServer, Telegram};
use oration::data::{AuthHash, FormInput};
use oration::db::{Comment, Database, ModerationMode, Preference};
use oration::errors::ErrorKind;
use oration::notify::{get_domain, post_url, recipient_name, sender_address};
use oration::preferences::get_session;
use oration::threads::{create, gen_or_get_id, get_id};
use oration::tree::{NestedComment, PrintedComment};

fn row(id: i32, parent: Option<i32>) -> PrintedComment {
    PrintedComment {
        id,
        parent,
        text: format!("text {}", id),
        author: None,
        email: Some(format!("u{}@example.com", id)),
        url: None,
        hash: format!("h{}", id),
        created: id as i64,
    }
}

fn form(text: &str, parent: Option<i32>) -> FormInput {
    FormInput {
        comment: text.to_string(),
        parent,
        name: None,
        email: None,
        url: None,
        title: "Post".to_string(),
        path: "/post".to_string(),
    }
}

fn ids(forest: &[NestedComment]) -> Vec<i32> {
    forest.iter().map(|n| n.id).collect()
}

fn count(forest: &[NestedComment]) -> usize {
    forest.iter().map(|n| 1 + count(&n.children)).sum()
}

#[test]
fn tree_assembly_from_flat_rows() {
    let rows = vec![row(1, None), row(2, Some(1)), row(3, Some(1)), row(4, Some(2))];
    let forest = NestedComment::from_rows(&rows).unwrap();
    assert_eq!(ids(&forest), vec![1]);
    assert_eq!(ids(&forest[0].children), vec![2, 3]);
    assert_eq!(ids(&forest[0].children[0].children), vec![4]);
    assert!(forest[0].children[1].children.is_empty());
    assert_eq!(count(&forest), 4);
    assert_eq!(forest[0].text, "text 1");
    assert_eq!(forest[0].author, Some("u1@****.com".to_string()));
    assert_eq!(forest[0].hash, "h1");
    assert_eq!(forest[0].created, 1);
}

#[test]
fn tree_of_no_rows_is_empty() {
    assert!(NestedComment::from_rows(&Vec::new()).unwrap().is_empty());
}

#[test]
fn tree_keeps_several_roots_in_order() {
    let rows = vec![row(5, None), row(6, Some(5)), row(7, None)];
    let forest = NestedComment::from_rows(&rows).unwrap();
    assert_eq!(ids(&forest), vec![5, 7]);
    assert_eq!(count(&forest), 3);
}

#[test]
fn tree_reports_cycle() {
    let rows = vec![row(1, None), row(2, Some(1)), row(2, Some(2))];
    assert_eq!(NestedComment::from_rows(&rows).unwrap_err(), ErrorKind::DataIntegrity);
}

#[test]
fn list_nested_from_store() {
    let mut db = Database::new();
    let tid = gen_or_get_id(&mut db, "Post", "/post", true).unwrap();
    Comment::insert_at(&mut db, tid, &form("a", None), "ip", 5, 1).unwrap();
    Comment::insert_at(&mut db, tid, &form("b", Some(1)), "ip", 5, 2).unwrap();
    Comment::insert_at(&mut db, tid, &form("c", Some(1)), "ip", 5, 3).unwrap();
    Comment::insert_at(&mut db, tid, &form("d", Some(2)), "ip", 5, 4).unwrap();
    db.comments[2].mode = ModerationMode::Pending;
    let forest = NestedComment::list(&db, "/post").unwrap();
    assert_eq!(ids(&forest), vec![1]);
    assert_eq!(ids(&forest[0].children), vec![2]);
    assert_eq!(ids(&forest[0].children[0].children), vec![4]);
    assert!(NestedComment::list(&db, "/missing").unwrap().is_empty());
    assert_eq!(PrintedComment::list(&db, "/post").len(), 3);
    assert_eq!(PrintedComment::get(&db, 3).unwrap().text, "c");
    assert_eq!(PrintedComment::get(&db, 9).unwrap_err(), ErrorKind::DBRead);
}

#[test]
fn thread_resolution_is_idempotent() {
    let mut db = Database::new();
    let a = gen_or_get_id(&mut db, "Title", "/p", true).unwrap();
    let b = gen_or_get_id(&mut db, "Title", "/p", true).unwrap();
    assert_eq!(a, b);
    assert_eq!(db.threads.len(), 1);
    assert_eq!(get_id(&db, "/p"), Ok(a));
}

#[test]
fn thread_title_first_write_wins() {
    let mut db = Database::new();
    let a = gen_or_get_id(&mut db, "First", "/p", true).unwrap();
    let b = gen_or_get_id(&mut db, "Second", "/p", false).unwrap();
    assert_eq!(a, b);
    assert_eq!(db.threads[0].title, Some("First".to_string()));
    let c = gen_or_get_id(&mut db, "", "/q", true).unwrap();
    assert_eq!(c, a + 1);
    assert_eq!(db.threads[1].title, None);
}

#[test]
fn thread_errors() {
    let mut db = Database::new();
    assert_eq!(gen_or_get_id(&mut db, "T", "/fake", false), Err(ErrorKind::PathCheckFailed));
    assert!(db.threads.is_empty());
    assert_eq!(get_id(&db, "/fake"), Err(ErrorKind::NoThread("/fake".to_string())));
    assert_eq!(create(&mut db, "/x", "X"), Ok(1));
    assert_eq!(create(&mut db, "/x", "X"), Err(ErrorKind::DBInsert));
}

#[test]
fn db_connection() {
    let mut db = Database::new();
    Preference::set_session(&mut db).unwrap();
    let expected_keys = vec!["session-key"];
    let actual_keys: Vec<String> = db.preferences.iter().map(|p| p.key.clone()).collect();
    assert_eq!(expected_keys, actual_keys);
}

#[test]
fn session_hash() {
    let mut db = Database::new();
    assert_eq!(Preference::get_session(&db), Err(ErrorKind::NoSession));
    assert_eq!(Preference::set_session(&mut db), Ok(true));
    let first = get_session(&db);
    assert_eq!(first, db.preferences[0].value);
    assert_eq!(first.len(), 24);
    assert!(first.chars().all(|c| c.is_ascii_alphanumeric()));
    assert_eq!(Preference::set_session(&mut db), Ok(true));
    assert_eq!(db.preferences.len(), 1);
    assert_eq!(Preference::get_session(&db), Ok(db.preferences[0].value.clone()));
}

#[test]
fn session_secrets_differ() {
    let a = oration::preferences::session_hash().unwrap();
    let b = oration::preferences::session_hash().unwrap();
    assert_eq!(a.len(), 24);
    assert_ne!(a, b);
}

#[test]
fn session_value_is_replaced() {
    let mut db = Database::new();
    Preference::set_session_value(&mut db, "one");
    Preference::set_session_value(&mut db, "two");
    assert_eq!(db.preferences.len(), 1);
    assert_eq!(get_session(&db), "two");
}

fn config(host: &str, notify: bool, smtp_host: &str, recipient: &str) -> Config {
    Config {
        host: host.to_string(),
        blog_name: "Blog".to_string(),
        salt: "salt".to_string(),
        author: Author { name: None, email: None, url: None, hash: String::new() },
        nesting_limit: 2,
        edit_timeout: 900,
        notifications: Notifications {
            new_comment: notify,
            smtp_server: SMTPServer {
                host: smtp_host.to_string(),
                user_name: "user".to_string(),
                password: "pw".to_string(),
            },
            recipient: Recipient { email: recipient.to_string(), name: "Admin".to_string() },
        },
        telegram: Telegram { push_notifications: false, bot_id: String::new(), chat_id: String::new() },
    }
}

#[test]
fn config_checks() {
    assert_eq!(config("https://blog.example", true, "smtp", "a@b.c").parse(), Ok(()));
    assert_eq!(config("blog.example", false, "", "").parse(), Err(ErrorKind::NoHTTPHandle));
    assert_eq!(config("htt", false, "", "").parse(), Err(ErrorKind::NoHTTPHandle));
    assert_eq!(config("http://b", true, "~", "a@b.c").parse(), Err(ErrorKind::EmptySMTP));
    assert_eq!(config("http://b", true, "", "a@b.c").parse(), Err(ErrorKind::EmptySMTP));
    assert_eq!(config("http://b", true, "smtp", "~").parse(), Err(ErrorKind::EmptyRecipientEmail));
    assert_eq!(config("http://b", false, "~", "~").parse(), Ok(()));
}

#[test]
fn smtp_settings_in_order() {
    let c = config("http://b", true, "smtp", "a@b.c");
    let mut it = c.notifications.smtp_server.into_iter();
    assert_eq!(it.next(), Some("smtp"));
    assert_eq!(it.next(), Some("user"));
    assert_eq!(it.next(), Some("pw"));
    assert_eq!(it.next(), None);
    assert_eq!(it.next(), None);
}

#[test]
fn notification_addresses() {
    assert_eq!(get_domain("https://blog.example.com/"), Some("blog.example.com".to_string()));
    assert_eq!(get_domain("http://localhost:8000/"), Some("localhost".to_string()));
    assert_eq!(get_domain("not a url"), None);
    assert_eq!(sender_address("https://blog.example.com"), Some("oration@blog.example.com".to_string()));
    assert_eq!(post_url("https://blog.example.com//", "/posts/1"), "https://blog.example.com/posts/1");
    assert_eq!(post_url("https://b.c", "/p"), "https://b.c/p");
    assert_eq!(recipient_name("~"), "Oration Admin");
    assert_eq!(recipient_name("Ann"), "Ann");
}

#[test]
fn form_defaults_and_auth_header() {
    let f = form("x", None);
    assert_eq!(f.sender_name(), "anonymous");
    assert_eq!(f.sender_email(), "noreply@dev.null");
    let g = FormInput { name: Some("Ann".to_string()), email: Some("a@b.c".to_string()), ..form("x", None) };
    assert_eq!(g.sender_name(), "Ann");
    assert_eq!(g.sender_email(), "a@b.c");
    let h = AuthHash::from_header_values(&vec!["abc".to_string()]).unwrap();
    assert!(h.matches("abc"));
    assert!(!h.matches("abd"));
    assert!(!h.matches("ab"));
    assert!(AuthHash::from_header_values(&vec![]).is_none());
    assert!(AuthHash::from_header_values(&vec!["a".to_string(), "b".to_string()]).is_none());
}

#[test]
fn error_messages() {
    assert_eq!(ErrorKind::NoSession.message(), "Unable to read session information from database");
    assert_eq!(
        ErrorKind::PathCheckFailed.message(),
        "Could not find path on blog server"
    );
}
