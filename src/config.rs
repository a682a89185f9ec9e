//! The configuration of a rotation run, as a plain immutable value.
use vstd::prelude::*;
use vstd::string::StringExecFns;

verus! {

/// The browser that the automation drives.
#[derive(Debug, Clone, Copy, PartialEq, Eq, Structural)]
pub enum BrowserType {
    Firefox,
    Chrome,
}

pub open spec fn browser_name(b: BrowserType) -> Seq<char> {
    match b {
        BrowserType::Firefox => seq!['f', 'i', 'r', 'e', 'f', 'o', 'x'],
        BrowserType::Chrome => seq!['c', 'h', 'r', 'o', 'm', 'e'],
    }
}

impl BrowserType {
    /// The name the automation tool knows this browser by.
    pub fn name(&self) -> (r: String)
        ensures
            r@ == browser_name(*self),
    {
        proof {
            reveal_strlit("firefox");
            reveal_strlit("chrome");
        }
        match self {
            BrowserType::Firefox => String::from_str("firefox"),
            BrowserType::Chrome => String::from_str("chrome"),
        }
    }

    /// The browser a configured name stands for.
    pub fn from_name(s: &str) -> (r: Option<BrowserType>)
        ensures
            match r {
                Some(b) => browser_name(b) == s@,
                None => s@ != browser_name(BrowserType::Firefox) && s@ != browser_name(
                    BrowserType::Chrome,
                ),
            },
    {
        let f = BrowserType::Firefox.name();
        let c = BrowserType::Chrome.name();
        if crate::text::str_eq(s, f.as_str()) {
            Some(BrowserType::Firefox)
        } else if crate::text::str_eq(s, c.as_str()) {
            Some(BrowserType::Chrome)
        } else {
            None
        }
    }
}

/// The kind of store a profile rotates.
#[derive(Debug, Clone, Copy, PartialEq, Eq, Structural)]
pub enum ProfileTypes {
    Kdbx,
    Pass,
    Pwsafe,
    ChromeG,
    ChromeK,
}

pub open spec fn profile_type_name(p: ProfileTypes) -> Seq<char> {
    match p {
        ProfileTypes::Kdbx => seq!['k', 'd', 'b', 'x'],
        ProfileTypes::Pass => seq!['p', 'a', 's', 's'],
        ProfileTypes::Pwsafe => seq!['p', 'w', 's', 'a', 'f', 'e'],
        ProfileTypes::ChromeG => seq!['c', 'h', 'r', 'o', 'm', 'e', '-', 'g', 'n', 'o', 'm', 'e'],
        ProfileTypes::ChromeK => seq!['c', 'h', 'r', 'o', 'm', 'e', '-', 'k', 'd', 'e'],
    }
}

impl ProfileTypes {
    /// The name of this kind of store in a configuration.
    pub fn name(&self) -> (r: String)
        ensures
            r@ == profile_type_name(*self),
    {
        proof {
            reveal_strlit("kdbx");
            reveal_strlit("pass");
            reveal_strlit("pwsafe");
            reveal_strlit("chrome-gnome");
            reveal_strlit("chrome-kde");
        }
        match self {
            ProfileTypes::Kdbx => String::from_str("kdbx"),
            ProfileTypes::Pass => String::from_str("pass"),
            ProfileTypes::Pwsafe => String::from_str("pwsafe"),
            ProfileTypes::ChromeG => String::from_str("chrome-gnome"),
            ProfileTypes::ChromeK => String::from_str("chrome-kde"),
        }
    }

    /// Whether a store of this kind lives in a file that a source names.
    pub fn needs_file(&self) -> (r: bool)
        ensures
            r == (*self != ProfileTypes::Pass),
    {
        !matches!(self, ProfileTypes::Pass)
    }
}

/// Every kind of store with its configured name, one pair per kind.
pub fn create_profiletype_map() -> (r: Vec<(String, ProfileTypes)>)
    ensures
        r@.len() == 5,
        forall|i: int| 0 <= i < 5 ==> (#[trigger] r@[i]).0@ == profile_type_name(r@[i].1),
        r@[0].1 == ProfileTypes::Kdbx,
        r@[1].1 == ProfileTypes::Pass,
        r@[2].1 == ProfileTypes::Pwsafe,
        r@[3].1 == ProfileTypes::ChromeG,
        r@[4].1 == ProfileTypes::ChromeK,
{
    let mut m: Vec<(String, ProfileTypes)> = Vec::new();
    m.push((ProfileTypes::Kdbx.name(), ProfileTypes::Kdbx));
    m.push((ProfileTypes::Pass.name(), ProfileTypes::Pass));
    m.push((ProfileTypes::Pwsafe.name(), ProfileTypes::Pwsafe));
    m.push((ProfileTypes::ChromeG.name(), ProfileTypes::ChromeG));
    m.push((ProfileTypes::ChromeK.name(), ProfileTypes::ChromeK));
    m
}

/// The kind of store that a configured name stands for.
pub fn profile_type_from_name(s: &str) -> (r: Option<ProfileTypes>)
    ensures
        match r {
            Some(p) => profile_type_name(p) == s@,
            None => forall|p: ProfileTypes| profile_type_name(p) != s@,
        },
{
    let m = create_profiletype_map();
    for i in 0..m.len()
        invariant
            m@.len() == 5,
            forall|k: int| 0 <= k < 5 ==> (#[trigger] m@[k]).0@ == profile_type_name(m@[k].1),
            m@[0].1 == ProfileTypes::Kdbx,
            m@[1].1 == ProfileTypes::Pass,
            m@[2].1 == ProfileTypes::Pwsafe,
            m@[3].1 == ProfileTypes::ChromeG,
            m@[4].1 == ProfileTypes::ChromeK,
            forall|k: int| 0 <= k < i ==> (#[trigger] m@[k]).0@ != s@,
    {
        if crate::text::str_eq(m[i].0.as_str(), s) {
            return Some(m[i].1);
        }
    }
    assert forall|p: ProfileTypes| profile_type_name(p) != s@ by {
        match p {
            ProfileTypes::Kdbx => assert(m@[0].0@ != s@),
            ProfileTypes::Pass => assert(m@[1].0@ != s@),
            ProfileTypes::Pwsafe => assert(m@[2].0@ != s@),
            ProfileTypes::ChromeG => assert(m@[3].0@ != s@),
            ProfileTypes::ChromeK => assert(m@[4].0@ != s@),
        }
    }
    None
}

/// The active profile: the kind of store and the names of its sources.
#[derive(Debug)]
pub struct Profile {
    pub ptype: ProfileTypes,
    pub sources: Vec<String>,
}

impl Profile {
    pub fn new(ptype: ProfileTypes, sources: Vec<String>) -> (r: Self)
        ensures
            r.ptype == ptype,
            r.sources@ == sources@,
    {
        Profile { ptype, sources }
    }
}

/// A store file, and the domains never to rotate in it.
#[derive(Debug)]
pub struct Source {
    pub name: String,
    pub file: String,
    pub blocklist: Vec<String>,
}

impl Source {
    pub fn new(name: String, file: String, blocklist: Vec<String>) -> (r: Self)
        ensures
            r.name@ == name@,
            r.file@ == file@,
            r.blocklist@ == blocklist@,
    {
        Source { name, file, blocklist }
    }
}

/// A directory of automation scripts, and the script names not to run.
#[derive(Debug, Clone)]
pub struct Script {
    pub dir: String,
    pub blocklist: Vec<String>,
}

impl Script {
    pub fn new(dir: String, blocklist: Vec<String>) -> (r: Self)
        ensures
            r.dir@ == dir@,
            r.blocklist@ == blocklist@,
    {
        Script { dir, blocklist }
    }
}

/// Why a configured source is not used.
#[derive(Debug, Clone, Copy, PartialEq, Eq)]
pub enum SourceError {
    /// The active profile does not name the source.
    SourcesIgnore,
    /// The source names no file, though the profile's store lives in one.
    SourcesFileMissing,
}

/// Whether a list of names holds `s`.
pub open spec fn names(list: Seq<String>, s: Seq<char>) -> bool {
    exists|i: int| 0 <= i < list.len() && (#[trigger] list[i])@ == s
}

/// Takes a configured source into the run: only a source that the active
/// profile names, and with a file wherever the profile's store needs one; a
/// source without a file gets an empty one.
pub fn select_source(name: String, file: Option<String>, blocklist: Vec<String>, profile: &Profile) -> (r: Result<Source, SourceError>)
    ensures
        match r {
            Ok(s) => names(profile.sources@, name@) && s.name@ == name@ && s.blocklist@ == blocklist@
                && match file {
                    Some(f) => s.file@ == f@,
                    None => s.file@ == Seq::<char>::empty() && profile.ptype == ProfileTypes::Pass,
                },
            Err(SourceError::SourcesIgnore) => !names(profile.sources@, name@),
            Err(SourceError::SourcesFileMissing) => names(profile.sources@, name@) && file is None
                && profile.ptype != ProfileTypes::Pass,
        },
{
    if !crate::text::list_contains(&profile.sources, name.as_str()) {
        return Err(SourceError::SourcesIgnore);
    }
    let f = match file {
        Some(f) => f,
        None => {
            if profile.ptype.needs_file() {
                return Err(SourceError::SourcesFileMissing);
            }
            String::new()
        },
    };
    Ok(Source::new(name, f, blocklist))
}

/// Everything a rotation run is configured with. `urls` is the ordered
/// table of domain patterns and the routing keys they map to.
#[derive(Debug)]
pub struct Configuration {
    pub browser_type: BrowserType,
    pub nr_threads: usize,
    pub active_profile: String,
    pub profile: Profile,
    pub sources: Vec<Source>,
    pub scripts: Vec<Script>,
    pub urls: Vec<(String, String)>,
}

impl Configuration {
    pub fn new(
        browser_type: BrowserType,
        nr_threads: usize,
        active_profile: String,
        profile: Profile,
        sources: Vec<Source>,
        scripts: Vec<Script>,
        urls: Vec<(String, String)>,
    ) -> (r: Self)
        ensures
            r.browser_type == browser_type,
            r.nr_threads == nr_threads,
            r.active_profile@ == active_profile@,
            r.profile == profile,
            r.sources@ == sources@,
            r.scripts@ == scripts@,
            r.urls@ == urls@,
    {
        Configuration { browser_type, nr_threads, active_profile, profile, sources, scripts, urls }
    }
}

} // verus!
