//! The format-agnostic store model: entries, their identities, and the
//! settling of rotation outcomes back into a store.
use vstd::prelude::*;

verus! {

/// Which engine produced an entry, with the handle that locates its record
/// again on write-back.
#[derive(Debug, Clone, Copy)]
pub enum Uuid {
    Unset,
    Kdbx([u8; 16]),
    Pwsafe([u8; 16]),
    /// A Chrome entry: the version tag its stored password carried.
    Chrome([u8; 3]),
}

/// The mathematical form of an identity.
pub enum IdentityView {
    Unset,
    Kdbx(Seq<u8>),
    Pwsafe(Seq<u8>),
    Chrome(Seq<u8>),
}

impl View for Uuid {
    type V = IdentityView;

    open spec fn view(&self) -> IdentityView {
        match self {
            Uuid::Unset => IdentityView::Unset,
            Uuid::Kdbx(b) => IdentityView::Kdbx(b@),
            Uuid::Pwsafe(b) => IdentityView::Pwsafe(b@),
            Uuid::Chrome(b) => IdentityView::Chrome(b@),
        }
    }
}

/// One credential of a store.
#[derive(Debug, Clone)]
pub struct DBEntry {
    pub url: String,
    pub username: String,
    pub old_password: String,
    pub new_password: String,
    pub uuid: Uuid,
}

/// The mathematical form of an entry.
pub struct EntryView {
    pub url: Seq<char>,
    pub username: Seq<char>,
    pub old_password: Seq<char>,
    pub new_password: Seq<char>,
    pub uuid: IdentityView,
}

impl View for DBEntry {
    type V = EntryView;

    open spec fn view(&self) -> EntryView {
        EntryView {
            url: self.url@,
            username: self.username@,
            old_password: self.old_password@,
            new_password: self.new_password@,
            uuid: self.uuid@,
        }
    }
}

/// An entry with every text empty and no identity.
pub open spec fn empty_entry_view() -> EntryView {
    EntryView {
        url: Seq::empty(),
        username: Seq::empty(),
        old_password: Seq::empty(),
        new_password: Seq::empty(),
        uuid: IdentityView::Unset,
    }
}

/// The views of a sequence of entries.
pub open spec fn entries_view(s: Seq<DBEntry>) -> Seq<EntryView> {
    s.map_values(|e: DBEntry| e@)
}

/// An entry whose rotation failed: its new secret is its old one.
pub open spec fn reverted(e: EntryView) -> EntryView {
    EntryView { new_password: e.old_password, ..e }
}

impl DBEntry {
    pub fn new(url: String, username: String, old_password: String, new_password: String) -> (r:
        Self)
        ensures
            r@ == (EntryView {
                url: url@,
                username: username@,
                old_password: old_password@,
                new_password: new_password@,
                uuid: IdentityView::Unset,
            }),
    {
        DBEntry { url, username, old_password, new_password, uuid: Uuid::Unset }
    }

    pub fn empty() -> (r: Self)
        ensures
            r@ == empty_entry_view(),
    {
        DBEntry {
            url: String::new(),
            username: String::new(),
            old_password: String::new(),
            new_password: String::new(),
            uuid: Uuid::Unset,
        }
    }

    /// A copy of this entry.
    pub fn duplicate(&self) -> (r: Self)
        ensures
            r@ == self@,
    {
        DBEntry {
            url: self.url.clone(),
            username: self.username.clone(),
            old_password: self.old_password.clone(),
            new_password: self.new_password.clone(),
            uuid: self.uuid,
        }
    }
}

/// The store model: the ordered entries of one container.
#[derive(Debug)]
pub struct DB {
    pub entries: Vec<DBEntry>,
}

impl DB {
    pub fn new(entries: Vec<DBEntry>) -> (r: Self)
        ensures
            r.entries@ == entries@,
    {
        DB { entries }
    }
}

/// How one rotation job ended: the exit code of the automation process
/// (`None` where it could not be spawned or was killed) and what it printed.
#[derive(Debug, Clone)]
pub struct JobOutcome {
    pub exit_code: Option<i32>,
    pub stdout: Vec<u8>,
    pub stderr: Vec<u8>,
}

impl JobOutcome {
    /// A job succeeds exactly when its process exited with status 0.
    pub open spec fn spec_succeeded(&self) -> bool {
        self.exit_code == Some(0i32)
    }

    pub fn succeeded(&self) -> (r: bool)
        ensures
            r == self.spec_succeeded(),
    {
        match self.exit_code {
            Some(c) => c == 0,
            None => false,
        }
    }
}

/// The result of one rotation job: the entry it was run for and its outcome.
#[derive(Debug, Clone)]
pub struct ThreadResult {
    pub db_entry: DBEntry,
    pub result: JobOutcome,
}

impl ThreadResult {
    pub fn new(db_entry: DBEntry, result: JobOutcome) -> (r: Self)
        ensures
            r.db_entry@ == db_entry@,
            r.result == result,
    {
        ThreadResult { db_entry, result }
    }
}

/// The entry that a job's result puts into the updated store: unchanged on
/// success, with its old secret restored on failure.
pub open spec fn settled(r: ThreadResult) -> EntryView {
    if r.result.spec_succeeded() {
        r.db_entry@
    } else {
        reverted(r.db_entry@)
    }
}

/// The entry that one job's result puts into the updated store.
pub fn settle_entry(r: &ThreadResult) -> (e: DBEntry)
    ensures
        e@ == settled(*r),
{
    let mut e = r.db_entry.duplicate();
    if !r.result.succeeded() {
        e.new_password = e.old_password.clone();
    }
    e
}

/// Builds the updated store from every collected job result, in the order
/// the results were collected. A failed job's entry keeps its old secret.
pub fn settle_results(results: &Vec<ThreadResult>) -> (db: DB)
    ensures
        db.entries@.len() == results@.len(),
        forall|i: int|
            0 <= i < results@.len() ==> #[trigger] db.entries@[i]@ == settled(results@[i]),
{
    let mut entries: Vec<DBEntry> = Vec::new();
    for i in 0..results.len()
        invariant
            entries@.len() == i,
            forall|k: int| 0 <= k < i ==> #[trigger] entries@[k]@ == settled(results@[k]),
    {
        let e = settle_entry(&results[i]);
        entries.push(e);
    }
    DB::new(entries)
}

/// A failed job never hands its new secret on: after settling, the entry of
/// every job whose process did not exit with status 0 holds its old secret
/// as its new one, and a successful job's entry is left as it was.
pub proof fn lemma_failed_job_keeps_old_secret(results: Seq<ThreadResult>, db: Seq<DBEntry>)
    requires
        db.len() == results.len(),
        forall|i: int| 0 <= i < results.len() ==> #[trigger] db[i]@ == settled(results[i]),
    ensures
        forall|i: int|
            0 <= i < results.len() && !results[i].result.spec_succeeded() ==> #[trigger] db[i]@.new_password
                == results[i].db_entry@.old_password,
        forall|i: int|
            0 <= i < results.len() && results[i].result.spec_succeeded() ==> #[trigger] db[i]@
                == results[i].db_entry@,
{
    assert forall|i: int|
        0 <= i < results.len() && !results[i].result.spec_succeeded() implies #[trigger] db[i]@.new_password
        == results[i].db_entry@.old_password by {
        assert(db[i]@ == settled(results[i]));
    }
    assert forall|i: int|
        0 <= i < results.len() && results[i].result.spec_succeeded() implies #[trigger] db[i]@
        == results[i].db_entry@ by {
        assert(db[i]@ == settled(results[i]));
    }
}

} // verus!
