use passup::kdbx::{read_kdbx_entries, parse_db_entry, parse_kdbx_db, plan_rewrite, resolve_field, resolve_references, Error, Field, KdbxRecord};
use passup::model::{DBEntry, JobOutcome, ThreadResult, Uuid};

fn record(n: u8, url: Option<&str>, user: Option<&str>, pass: Option<&str>) -> KdbxRecord {
    KdbxRecord {
        uuid: [n; 16],
        url: url.map(|s| s.to_owned()),
        username: user.map(|s| s.to_owned()),
        password: pass.map(|s| s.to_owned()),
    }
}

fn entry(n: u8, user: &str, pass: &str) -> DBEntry {
    let mut e = DBEntry::new(format!("site{}.example", n), user.to_owned(), pass.to_owned(), "gen".to_owned());
    e.uuid = Uuid::Kdbx([n; 16]);
    e
}

fn hex(n: u8) -> String {
    format!("{:02x}", n).repeat(16)
}

#[test]
fn entry_without_url_is_refused() {
    assert_eq!(parse_db_entry(&record(1, None, Some("u"), Some("p"))).unwrap_err(), Error::UrlMissing);
    assert_eq!(parse_db_entry(&record(1, Some(""), Some("u"), Some("p"))).unwrap_err(), Error::UrlMissing);
}

#[test]
fn entry_without_credentials_is_refused() {
    let e = parse_db_entry(&record(1, Some("a.example"), Some(""), Some("p"))).unwrap_err();
    assert_eq!(e, Error::CredentialMissing { url: "a.example".to_owned() });
    let e = parse_db_entry(&record(1, Some("a.example"), Some("u"), None)).unwrap_err();
    assert_eq!(e, Error::CredentialMissing { url: "a.example".to_owned() });
}

#[test]
fn entry_is_read_with_identity() {
    let e = parse_db_entry(&record(5, Some("a.example"), Some("u"), Some("p"))).unwrap();
    assert_eq!(e.url, "a.example");
    assert_eq!(e.username, "u");
    assert_eq!(e.old_password, "p");
    assert_eq!(e.new_password, "");
    assert!(matches!(e.uuid, Uuid::Kdbx(u) if u == [5; 16]));
}

#[test]
fn container_keeps_good_entries_in_order() {
    let recs = vec![
        record(1, Some("a"), Some("u1"), Some("pw-one")),
        record(2, None, Some("u2"), Some("pw-two")),
        record(3, Some("c"), Some("u3"), Some("pw-three")),
    ];
    let (es, errs) = parse_kdbx_db(&recs);
    assert_eq!(es.len(), 2);
    assert_eq!(es[0].username, "u1");
    assert_eq!(es[1].username, "u3");
    assert_eq!(errs, vec![Error::UrlMissing]);
}

#[test]
fn plain_text_resolves_to_itself() {
    let es = vec![entry(1, "alice", "pw")];
    assert_eq!(resolve_field(&es, Field::Username, &"alice".to_owned()).unwrap(), "alice");
}

#[test]
fn reference_resolves_through_chain() {
    let r2 = format!("{{REF:P@I:{}}}", hex(3));
    let r1 = format!("{{REF:P@I:{}}}", hex(2).to_uppercase());
    let es = vec![entry(1, "a", &r1), entry(2, "b", &r2), entry(3, "c", "final-secret")];
    assert_eq!(resolve_field(&es, Field::OldPassword, &r1).unwrap(), "final-secret");
}

#[test]
fn cyclic_reference_is_an_error() {
    let r_to_2 = format!("{{REF:U@I:{}}}", hex(2));
    let r_to_1 = format!("{{REF:U@I:{}}}", hex(1));
    let es = vec![entry(1, &r_to_2, "p"), entry(2, &r_to_1, "q")];
    assert_eq!(resolve_field(&es, Field::Username, &r_to_2).unwrap_err(), Error::CyclicReference);
    let self_ref = format!("{{REF:U@I:{}}}", hex(7));
    let es = vec![entry(7, &self_ref, "p")];
    assert_eq!(resolve_field(&es, Field::Username, &self_ref).unwrap_err(), Error::CyclicReference);
}

#[test]
fn unknown_or_malformed_reference_is_an_error() {
    let es = vec![entry(1, "a", "p")];
    let unknown = format!("{{REF:P@I:{}}}", hex(9));
    assert_eq!(resolve_field(&es, Field::OldPassword, &unknown).unwrap_err(), Error::EntryReference);
    assert_eq!(resolve_field(&es, Field::OldPassword, &"{REF:}".to_owned()).unwrap_err(), Error::EntryReference);
    assert_eq!(resolve_field(&es, Field::OldPassword, &"{REF:P@I:abc}".to_owned()).unwrap_err(), Error::EntryReference);
}

#[test]
fn references_of_every_entry_resolve_separately() {
    let r = format!("{{REF:U@I:{}}}", hex(2));
    let bad = "{REF:U@I:zz}".to_owned();
    let es = vec![entry(1, &r, "pw-one"), entry(2, "bob", "pw-two"), entry(3, &bad, "pw-three")];
    let out = resolve_references(&es);
    assert_eq!(out.len(), 3);
    assert_eq!(out[0].as_ref().unwrap().username, "bob");
    assert_eq!(out[1].as_ref().unwrap().username, "bob");
    assert_eq!(out[2].as_ref().unwrap_err(), &Error::EntryReference);
}

#[test]
fn rewrite_plan_covers_successes_only() {
    let mut a = entry(1, "a", "pw-one");
    a.new_password = "n1".to_owned();
    let b = entry(2, "b", "pw-two");
    let c = DBEntry::new("x".to_owned(), "y".to_owned(), "z".to_owned(), "w".to_owned());
    let ok = JobOutcome { exit_code: Some(0), stdout: vec![], stderr: vec![] };
    let bad = JobOutcome { exit_code: Some(2), stdout: vec![], stderr: vec![] };
    let plan = plan_rewrite(&vec![ThreadResult::new(a, ok.clone()), ThreadResult::new(b, bad), ThreadResult::new(c, ok)]);
    assert_eq!(plan.len(), 2);
    let u = plan[0].as_ref().unwrap();
    assert_eq!(u.uuid, [1; 16]);
    assert_eq!(u.password, "n1");
    assert_eq!(u.url, "site1.example");
    assert_eq!(plan[1].as_ref().unwrap_err(), &Error::WrongUuidType);
}

#[test]
fn container_is_read_with_new_secrets_and_resolved_references() {
    let r = format!("{{REF:U@I:{}}}", hex(2));
    let recs = vec![
        record(1, Some("a.example"), Some(&r), Some("pw-one")),
        record(2, Some("b.example"), Some("bob"), Some("pw-two")),
        record(3, None, Some("x"), Some("y")),
        record(4, Some("d.example"), Some("{REF:U@I:00}"), Some("pw-four")),
    ];
    let (resolved, skipped) = read_kdbx_entries(&recs);
    assert_eq!(skipped, vec![Error::UrlMissing]);
    assert_eq!(resolved.len(), 3);
    let a = resolved[0].as_ref().unwrap();
    assert_eq!(a.username, "bob");
    assert_eq!(a.old_password, "pw-one");
    assert_eq!(a.new_password.chars().count(), 16);
    assert_eq!(resolved[1].as_ref().unwrap().username, "bob");
    assert_eq!(resolved[2].as_ref().unwrap_err(), &Error::EntryReference);
}
