use passup::model::{settle_results, DBEntry, JobOutcome, ThreadResult, Uuid};
use passup::pwsafe::{parse_records, rewrite_records};

fn text(s: &str) -> Vec<u8> {
    s.as_bytes().to_vec()
}

fn id(n: u8) -> [u8; 16] {
    [n; 16]
}

/// A stream after the version field: one header field, the end of the
/// header, then two records, the first with a field of an unknown tag.
fn sample_stream() -> Vec<(u8, Vec<u8>)> {
    vec![
        (0x09, text("my store")),
        (0xff, vec![]),
        (0x01, id(1).to_vec()),
        (0x0d, text("https://alpha.example")),
        (0x04, text("alice")),
        (0x06, text("old-one")),
        (0x42, vec![7, 8, 9]),
        (0xff, vec![]),
        (0x01, id(2).to_vec()),
        (0x0d, text("beta.example")),
        (0x04, text("bob")),
        (0x06, text("old-two")),
        (0xff, vec![]),
    ]
}

fn outcome(code: i32) -> JobOutcome {
    JobOutcome { exit_code: Some(code), stdout: vec![], stderr: vec![] }
}

#[test]
fn parse_reads_both_records() {
    let (entries, kept) = parse_records(&sample_stream());
    assert_eq!(entries.len(), 2);
    assert_eq!(entries[0].url, "https://alpha.example");
    assert_eq!(entries[0].username, "alice");
    assert_eq!(entries[0].old_password, "old-one");
    assert_eq!(entries[0].new_password, "");
    assert!(matches!(entries[0].uuid, Uuid::Pwsafe(u) if u == id(1)));
    assert_eq!(entries[1].username, "bob");
    assert!(matches!(entries[1].uuid, Uuid::Pwsafe(u) if u == id(2)));
    // the header fields are not kept; every record field is
    assert_eq!(kept.len(), 11);
    assert_eq!(kept[0], (0x01, id(1).to_vec()));
    assert_eq!(kept[4], (0x42, vec![7, 8, 9]));
}

#[test]
fn parse_skips_incomplete_and_refused_fields() {
    let fields = vec![
        (0xff, vec![]),
        (0x0d, text("https://c.example")),
        (0x04, text("carol")),
        (0xff, vec![]),
        (0x01, vec![1, 2, 3]),
        (0x06, vec![0xff, 0xfe]),
        (0xff, vec![]),
    ];
    let (entries, kept) = parse_records(&fields);
    assert!(entries.is_empty());
    // the short identifier and the password that is no UTF-8 are kept as read
    assert_eq!(kept, fields[1..].to_vec());
}

#[test]
fn parse_without_header_end_reads_nothing() {
    let fields = vec![(0x0d, text("x")), (0x04, text("y")), (0x06, text("z")), (0x01, id(3).to_vec())];
    let (entries, kept) = parse_records(&fields);
    assert!(entries.is_empty());
    assert!(kept.is_empty());
}

#[test]
fn rewrite_without_rotation_is_identical() {
    let (entries, kept) = parse_records(&sample_stream());
    // freshly parsed entries hold no new secret yet: nothing is written
    let out = rewrite_records(3, &kept, &entries);
    assert_eq!(out[2..].to_vec(), kept);
    let out = rewrite_records(0x030d, &kept, &entries);
    assert_eq!(out[0], (0x00, vec![0x0d, 0x03]));
    assert_eq!(out[1], (0xff, vec![0, 0]));
    assert_eq!(out[2..].to_vec(), kept);
}

#[test]
fn rewrite_changes_only_rotated_password() {
    let (mut entries, kept) = parse_records(&sample_stream());
    entries[0].new_password = "fresh-secret".to_owned();
    entries[1].new_password = entries[1].old_password.clone();
    let out = rewrite_records(3, &kept, &entries);
    assert_eq!(out.len(), kept.len() + 2);
    for (k, f) in kept.iter().enumerate() {
        if k == 3 {
            assert_eq!(out[k + 2], (0x06, text("fresh-secret")));
        } else {
            assert_eq!(&out[k + 2], f);
        }
    }
}

#[test]
fn rewrite_leaves_unknown_record_alone() {
    let (_, kept) = parse_records(&sample_stream());
    let mut other = DBEntry::new("u".to_owned(), "n".to_owned(), "o".to_owned(), "changed".to_owned());
    other.uuid = Uuid::Pwsafe(id(9));
    let out = rewrite_records(3, &kept, &vec![other]);
    assert_eq!(out[2..].to_vec(), kept);
}

#[test]
fn end_to_end_one_success_one_failure() {
    let (entries, kept) = parse_records(&sample_stream());
    assert_eq!(entries.len(), 2);
    let mut first = entries[0].clone();
    first.new_password = "new-one".to_owned();
    let mut second = entries[1].clone();
    second.new_password = "new-two".to_owned();
    let results = vec![ThreadResult::new(first, outcome(0)), ThreadResult::new(second, outcome(1))];
    let db = settle_results(&results);
    assert_eq!(db.entries[0].new_password, "new-one");
    assert_eq!(db.entries[1].new_password, "old-two");
    let out = rewrite_records(3, &kept, &db.entries);
    assert_eq!(out[2 + 3], (0x06, text("new-one")));
    assert_eq!(out[2 + 4], (0x42, vec![7, 8, 9]));
    assert_eq!(out[2 + 9], (0x06, text("old-two")));
    let changed: Vec<usize> = (0..kept.len()).filter(|&k| out[k + 2] != kept[k]).collect();
    assert_eq!(changed, vec![3]);
}

#[test]
fn refused_fields_survive_the_round_trip() {
    let fields = vec![(0xff, vec![]), (0x07, vec![1]), (0x01, id(4).to_vec()), (0x06, vec![0xc3]), (0xff, vec![])];
    let (entries, kept) = parse_records(&fields);
    assert!(entries.is_empty());
    assert_eq!(kept, fields[1..].to_vec());
    let out = rewrite_records(3, &kept, &entries);
    assert_eq!(out[2..].to_vec(), kept);
}
