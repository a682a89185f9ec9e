use passup::config::BrowserType;
use passup::model::{settle_results, DBEntry, JobOutcome, ThreadResult};
use passup::routing::Error;
use passup::scheduler::{base_port, plan_jobs, PortAllocator};
use passup::secrets::{default_policy, get_pw, with_new_secrets};
use passup::unlock::{unlock_step, OpenOutcome, UnlockAction};

fn entry(n: &str) -> DBEntry {
    DBEntry::new(format!("{}.example", n), n.to_owned(), format!("old-{}", n), format!("new-{}", n))
}

#[test]
fn base_ports_per_browser() {
    assert_eq!(base_port(BrowserType::Firefox), 4444);
    assert_eq!(base_port(BrowserType::Chrome), 9515);
}

#[test]
fn ports_are_probed_and_distinct() {
    let mut a = PortAllocator::new(BrowserType::Firefox);
    assert_eq!(a.candidate(), Some(4444));
    assert_eq!(a.offer(true), Some(4444));
    assert_eq!(a.candidate(), Some(4445));
    assert_eq!(a.offer(false), None);
    assert_eq!(a.offer(false), None);
    assert_eq!(a.offer(true), Some(4447));
    assert_eq!(a.candidate(), Some(4448));
}

#[test]
fn ports_run_out_at_the_top() {
    let mut a = PortAllocator::new(BrowserType::Chrome);
    let mut last = None;
    while let Some(p) = a.candidate() {
        last = a.offer(true).or(last);
        assert_eq!(last, Some(p));
    }
    assert_eq!(last, Some(65535));
    assert_eq!(a.offer(true), None);
}

#[test]
fn only_routed_entries_become_jobs() {
    let entries = vec![entry("a"), entry("b"), entry("c"), entry("d")];
    let routes = vec![
        Ok("/s/a.js".to_owned()),
        Err(Error::UrlDomainBlocked),
        Ok("/s/c.js".to_owned()),
        Err(Error::ScriptMissingError { path: "/s/d.js".to_owned() }),
    ];
    let jobs = plan_jobs(&entries, &routes);
    assert_eq!(jobs.len(), 2);
    assert_eq!(jobs[0].entry.username, "a");
    assert_eq!(jobs[0].script_path, "/s/a.js");
    assert_eq!(jobs[1].entry.username, "c");
}

#[test]
fn failed_job_keeps_old_secret() {
    let results = vec![
        ThreadResult::new(entry("a"), JobOutcome { exit_code: Some(0), stdout: vec![], stderr: vec![] }),
        ThreadResult::new(entry("b"), JobOutcome { exit_code: Some(1), stdout: b"boom".to_vec(), stderr: vec![] }),
        ThreadResult::new(entry("c"), JobOutcome { exit_code: None, stdout: vec![], stderr: vec![] }),
    ];
    let db = settle_results(&results);
    assert_eq!(db.entries.len(), 3);
    assert_eq!(db.entries[0].new_password, "new-a");
    assert_eq!(db.entries[1].new_password, "old-b");
    assert_eq!(db.entries[2].new_password, "old-c");
}

#[test]
fn generated_secret_follows_policy() {
    let s = get_pw().unwrap();
    assert_eq!(s.chars().count(), default_policy().length);
    let es = with_new_secrets(vec![entry("a"), entry("b")]).unwrap();
    assert_eq!(es[0].username, "a");
    assert_eq!(es[0].old_password, "old-a");
    assert_ne!(es[0].new_password, "new-a");
    assert_eq!(es[0].new_password.chars().count(), 16);
    assert_eq!(es[1].new_password.chars().count(), 16);
}

#[test]
fn unlock_retries_only_wrong_passphrase() {
    assert_eq!(unlock_step(OpenOutcome::Opened), UnlockAction::Proceed);
    assert_eq!(unlock_step(OpenOutcome::WrongPassphrase), UnlockAction::Prompt);
    assert_eq!(unlock_step(OpenOutcome::Failed), UnlockAction::Abort);
}
