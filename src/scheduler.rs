//! The decisions of a rotation run: which entries become jobs, and which
//! local port each job's browser session gets.
use vstd::prelude::*;
use crate::config::BrowserType;
use crate::model::{DBEntry, EntryView, entries_view};
use crate::routing::{Error, Failure, route_view};

verus! {

/// The first port tried for a Firefox session.
pub const FIREFOX_PORT: u16 = 4444;

/// The first port tried for a Chrome session.
pub const CHROME_PORT: u16 = 9515;

pub open spec fn spec_base_port(b: BrowserType) -> u16 {
    match b {
        BrowserType::Firefox => FIREFOX_PORT,
        BrowserType::Chrome => CHROME_PORT,
    }
}

/// The first port tried for a browser's sessions.
pub fn base_port(b: BrowserType) -> (r: u16)
    ensures
        r == spec_base_port(b),
{
    match b {
        BrowserType::Firefox => FIREFOX_PORT,
        BrowserType::Chrome => CHROME_PORT,
    }
}

/// Hands out the ports of a run's jobs, one at a time, in rising order. A
/// port is handed out only after a bind probe on it succeeded; one whose
/// probe failed is passed over for good.
pub struct PortAllocator {
    next: u32,
    issued: Ghost<Seq<u16>>,
}

impl PortAllocator {
    /// The ports handed out so far, in order.
    pub closed spec fn ports(&self) -> Seq<u16> {
        self.issued@
    }

    /// The port to probe next, if any is left.
    pub closed spec fn spec_candidate(&self) -> Option<u16> {
        if self.next <= 65535 {
            Some(self.next as u16)
        } else {
            None
        }
    }

    /// Every port handed out lies below the next candidate, in rising order.
    pub closed spec fn wf(&self) -> bool {
        &&& self.next <= 65536
        &&& forall|i: int| 0 <= i < self.issued@.len() ==> (#[trigger] self.issued@[i]) < self.next
        &&& forall|i: int, j: int|
            0 <= i < j < self.issued@.len() ==> #[trigger] self.issued@[i] < #[trigger] self.issued@[j]
    }

    /// An allocator for a run that drives the browser `b`.
    pub fn new(b: BrowserType) -> (r: Self)
        ensures
            r.wf(),
            r.ports() == Seq::<u16>::empty(),
            r.spec_candidate() == Some(spec_base_port(b)),
    {
        PortAllocator { next: base_port(b) as u32, issued: Ghost(Seq::empty()) }
    }

    /// The port to probe next.
    pub fn candidate(&self) -> (r: Option<u16>)
        ensures
            r == self.spec_candidate(),
    {
        if self.next <= 65535 {
            Some(self.next as u16)
        } else {
            None
        }
    }

    /// Reports the bind probe of the candidate port. Where it succeeded, the
    /// port is handed out; either way the next candidate is the port after.
    pub fn offer(&mut self, probe_ok: bool) -> (r: Option<u16>)
        requires
            old(self).wf(),
        ensures
            final(self).wf(),
            match old(self).spec_candidate() {
                None => r is None && final(self).ports() == old(self).ports()
                    && final(self).spec_candidate() is None,
                Some(p) => {
                    &&& r == (if probe_ok { Some(p) } else { None::<u16> })
                    &&& final(self).ports() == (if probe_ok { old(self).ports().push(p) } else { old(self).ports() })
                    &&& final(self).spec_candidate() == (if p < 65535 { Some((p + 1) as u16) } else { None::<u16> })
                },
            },
    {
        if self.next > 65535 {
            return None;
        }
        let p = self.next as u16;
        let r = if probe_ok {
            self.issued = Ghost(self.issued@.push(p));
            Some(p)
        } else {
            None
        };
        self.next = self.next + 1;
        r
    }
}

/// No port is handed out twice: the ports of a run are pairwise different,
/// so no two jobs share one.
pub proof fn lemma_ports_distinct(a: PortAllocator)
    requires
        a.wf(),
    ensures
        forall|i: int, j: int|
            0 <= i < a.ports().len() && 0 <= j < a.ports().len() && i != j ==> a.ports()[i] != a.ports()[j],
{
    assert forall|i: int, j: int|
        0 <= i < a.ports().len() && 0 <= j < a.ports().len() && i != j implies a.ports()[i] != a.ports()[j] by {
        if i < j {
            assert(a.issued@[i] < a.issued@[j]);
        } else {
            assert(a.issued@[j] < a.issued@[i]);
        }
    }
}

/// A job: the entry to rotate and the path of its automation script.
#[derive(Debug, Clone)]
pub struct Job {
    pub entry: DBEntry,
    pub script_path: String,
}

/// The jobs of a run: one for each entry whose routing gave a script, in
/// the order of the entries; an entry whose routing failed is skipped.
pub open spec fn routed_jobs(entries: Seq<EntryView>, routes: Seq<Result<Seq<char>, Failure>>) -> Seq<(EntryView, Seq<char>)>
    decreases entries.len(),
{
    if entries.len() == 0 || routes.len() == 0 {
        Seq::empty()
    } else {
        let prev = routed_jobs(entries.drop_last(), routes.drop_last());
        match routes.last() {
            Ok(p) => prev.push((entries.last(), p)),
            Err(_) => prev,
        }
    }
}

/// How many routings gave a script.
pub open spec fn routed_count(routes: Seq<Result<Seq<char>, Failure>>) -> nat
    decreases routes.len(),
{
    if routes.len() == 0 {
        0
    } else {
        routed_count(routes.drop_last()) + if routes.last() is Ok {
            1nat
        } else {
            0nat
        }
    }
}

pub open spec fn routes_view(routes: Seq<Result<String, Error>>) -> Seq<Result<Seq<char>, Failure>> {
    routes.map_values(|r: Result<String, Error>| route_view(r))
}

pub open spec fn jobs_view(jobs: Seq<Job>) -> Seq<(EntryView, Seq<char>)> {
    jobs.map_values(|j: Job| (j.entry@, j.script_path@))
}

/// The jobs to submit, given each entry's routing result.
pub fn plan_jobs(entries: &Vec<DBEntry>, routes: &Vec<Result<String, Error>>) -> (r: Vec<Job>)
    requires
        routes@.len() == entries@.len(),
    ensures
        jobs_view(r@) == routed_jobs(entries_view(entries@), routes_view(routes@)),
{
    let ghost es = entries_view(entries@);
    let ghost rs = routes_view(routes@);
    let mut jobs: Vec<Job> = Vec::new();
    assert(jobs_view(jobs@) =~= Seq::empty());
    for i in 0..entries.len()
        invariant
            es == entries_view(entries@),
            rs == routes_view(routes@),
            routes@.len() == entries@.len(),
            jobs_view(jobs@) == routed_jobs(es.take(i as int), rs.take(i as int)),
    {
        assert(es.take(i + 1).drop_last() =~= es.take(i as int));
        assert(rs.take(i + 1).drop_last() =~= rs.take(i as int));
        match &routes[i] {
            Ok(p) => {
                jobs.push(Job { entry: entries[i].duplicate(), script_path: p.clone() });
            },
            Err(_) => {},
        }
        assert(jobs_view(jobs@) =~= routed_jobs(es.take(i + 1), rs.take(i + 1)));
    }
    assert(es.take(entries@.len() as int) =~= es);
    assert(rs.take(entries@.len() as int) =~= rs);
    jobs
}

/// For N entries of which M pass routing, exactly M jobs are submitted.
pub proof fn lemma_jobs_match_routed(entries: Seq<EntryView>, routes: Seq<Result<Seq<char>, Failure>>)
    requires
        entries.len() == routes.len(),
    ensures
        routed_jobs(entries, routes).len() == routed_count(routes),
    decreases entries.len(),
{
    if entries.len() > 0 {
        lemma_jobs_match_routed(entries.drop_last(), routes.drop_last());
    }
}

} // verus!
