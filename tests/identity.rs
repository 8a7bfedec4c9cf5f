use oration::config::Author;
use oration::identity::{gen_hash, get_author, hash_input, obfuscate_email};

fn some(s: &str) -> Option<String> {
    Some(s.to_string())
}

#[test]
fn hash_of_name_and_email_is_sha224_of_fields_joined_by_b() {
    let h = gen_hash(&some("Alice"), &some("a@x.com"), &None, None);
    assert_eq!(h, "666c1d09d19d609d2430cf89a2216f7aee1cd990b862c4195913ee20");
    assert_eq!(h.len(), 56);
}

#[test]
fn hash_is_stable_across_calls() {
    let a = gen_hash(&some("Alice"), &some("a@x.com"), &None, None);
    let b = gen_hash(&some("Alice"), &some("a@x.com"), &None, None);
    assert_eq!(a, b);
}

#[test]
fn hash_is_case_sensitive() {
    let upper = gen_hash(&some("Alice"), &some("a@x.com"), &None, None);
    let lower = gen_hash(&some("alice"), &some("a@x.com"), &None, None);
    assert_ne!(upper, lower);
    assert_eq!(lower, "33bbd8ae151c52b0152db7fbb184c7d3a842fca88a74001cd4fd44da");
}

#[test]
fn hash_ignores_address_when_profile_given() {
    let with_ip = gen_hash(&some("Alice"), &some("a@x.com"), &None, Some("203.0.113.5"));
    let without = gen_hash(&some("Alice"), &some("a@x.com"), &None, None);
    assert_eq!(with_ip, without);
}

#[test]
fn hash_of_three_fields() {
    let h = gen_hash(&some("Bob"), &some("bob@y.org"), &some("https://bob.example"), None);
    assert_eq!(h, "952a931903abd577cb1a74bf88f499fe66690c5e98bd5efd3951dd50");
}

#[test]
fn hash_falls_back_to_address() {
    let a = gen_hash(&None, &None, &None, Some("203.0.113.5"));
    let b = gen_hash(&None, &None, &None, Some("203.0.113.6"));
    assert_ne!(a, b);
    assert_eq!(a, gen_hash(&None, &None, &None, Some("203.0.113.5")));
    assert_eq!(a, "87c8232837fd0f0a8d4ace945ce207819c43fdf5b496095a8d72e888");
    assert_eq!(b, "8913da026e91f2fa1e6bc509338007ba44f73a102c20d05e11369a76");
}

#[test]
fn hash_of_nothing_is_empty() {
    assert_eq!(gen_hash(&None, &None, &None, None), "");
}

#[test]
fn hash_input_joins_present_fields() {
    assert_eq!(hash_input(&some("Alice"), &None, &some("u"), None), some("Alicebu"));
    assert_eq!(hash_input(&None, &some("e"), &some("u"), Some("ip")), some("ebu"));
    assert_eq!(hash_input(&None, &None, &None, Some("ip")), some("ip"));
    assert_eq!(hash_input(&None, &None, &None, None), None);
}

#[test]
fn author_name_wins() {
    assert_eq!(get_author(&some("Alice"), &some("a@x.com"), &some("u")), some("Alice"));
}

#[test]
fn email_is_obfuscated_when_no_name() {
    assert_eq!(get_author(&None, &some("user@example.com"), &some("u")), some("user@****.com"));
    assert_eq!(obfuscate_email("user@mail.example.co.uk"), "user@****.example.co.uk");
}

#[test]
fn email_without_separators_degrades() {
    assert_eq!(obfuscate_email("nobody"), "nobody@****");
    assert_eq!(obfuscate_email("user@localhost"), "user@****");
    assert_eq!(obfuscate_email(""), "@****");
}

#[test]
fn website_shown_last() {
    assert_eq!(get_author(&None, &None, &some("https://a.example")), some("https://a.example"));
    assert_eq!(get_author(&None, &None, &None), None);
}

#[test]
fn blog_author_hash() {
    let mut a = Author { name: some("Alice"), email: None, url: None, hash: String::new() };
    a.gen_hash();
    assert_eq!(a.hash, "6874ecdbdb214ee888e37c8c983e2f1c9c0ed16907b519704db42bb6");
    let mut nobody = Author { name: None, email: None, url: None, hash: "x".to_string() };
    nobody.gen_hash();
    assert_eq!(nobody.hash, "");
}
