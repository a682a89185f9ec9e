//! Routing an entry to its automation script: the site's domain, the
//! blocklists, the domain remap table, and the script directories.
use vstd::prelude::*;
use vstd::string::{StrSliceExecFns, StringExecFns};
use crate::config::Script;
use crate::text::list_contains;

verus! {

/// Why an entry is not routed to a script.
#[derive(Debug, Clone, PartialEq, Eq)]
pub enum Error {
    /// A pattern of the remap table, or the scheme pattern, is no regex.
    RegexError { expr: String },
    /// The site, with its scheme, is no URL.
    UrlParseError { url: String },
    /// The site's URL holds no domain name.
    UrlDomainError { url: String },
    /// The domain is on the source's blocklist.
    UrlDomainBlocked,
    /// No script directory holds a script for the site.
    ScriptMissingError { path: String },
    /// The only scripts for the site are on their directories' blocklists.
    ScriptBlocked,
}

/// The mathematical form of a routing error.
pub enum Failure {
    Regex(Seq<char>),
    UrlParse(Seq<char>),
    NoDomain(Seq<char>),
    DomainBlocked,
    ScriptMissing(Seq<char>),
    ScriptBlocked,
}

impl View for Error {
    type V = Failure;

    open spec fn view(&self) -> Failure {
        match self {
            Error::RegexError { expr } => Failure::Regex(expr@),
            Error::UrlParseError { url } => Failure::UrlParse(url@),
            Error::UrlDomainError { url } => Failure::NoDomain(url@),
            Error::UrlDomainBlocked => Failure::DomainBlocked,
            Error::ScriptMissingError { path } => Failure::ScriptMissing(path@),
            Error::ScriptBlocked => Failure::ScriptBlocked,
        }
    }
}

/// The mathematical form of a routing result.
pub open spec fn route_view(r: Result<String, Error>) -> Result<Seq<char>, Failure> {
    match r {
        Ok(s) => Ok(s@),
        Err(e) => Err(e@),
    }
}

/// Whether the regex `pattern` matches somewhere in `text`; `None` where
/// `pattern` is no regex.
pub uninterp spec fn regex_verdict(pattern: Seq<char>, text: Seq<char>) -> Option<bool>;

/// Relies on regex's `Regex::new`, which compiles a pattern or refuses it,
/// and `Regex::is_match`, which tells whether the compiled pattern matches
/// anywhere in a text; both depend on the two texts alone.
#[verifier::external_body]
fn regex_match(pattern: &str, text: &str) -> (r: Option<bool>)
    ensures
        r == regex_verdict(pattern@, text@),
{
    match regex::Regex::new(pattern) {
        Ok(re) => Some(re.is_match(text)),
        Err(_) => None,
    }
}

/// The domain name of the URL `s`: `None` where `s` is no URL, `Some(None)`
/// where its host is no domain name.
pub uninterp spec fn url_domain(s: Seq<char>) -> Option<Option<Seq<char>>>;

/// Relies on url's `Url::parse`, which parses a URL or refuses it, and
/// `Url::domain`, which gives the host of a parsed URL where it is a domain
/// name; both depend on the text alone.
#[verifier::external_body]
fn parse_domain(s: &str) -> (r: Option<Option<String>>)
    ensures
        match r {
            None => url_domain(s@) is None,
            Some(None) => url_domain(s@) == Some(None::<Seq<char>>),
            Some(Some(d)) => url_domain(s@) == Some(Some(d@)),
        },
{
    match url::Url::parse(s) {
        Ok(u) => Some(u.domain().map(|d| d.to_owned())),
        Err(_) => None,
    }
}

/// The pattern of a site that already starts with its scheme.
pub const PROTOCOL_PATTERN: &'static str = "^((https://)|(http://)).+";

/// The scheme put before a site that names none.
pub const DEFAULT_SCHEME: &'static str = "https://";

pub open spec fn www_prefix() -> Seq<char> {
    seq!['w', 'w', 'w', '.']
}

/// The ASCII lower-case form of a character; other characters stay.
pub open spec fn ascii_lower(c: char) -> char {
    if 'A' <= c <= 'Z' {
        ((c as u32 + 32) as u32) as char
    } else {
        c
    }
}

/// The ASCII lower-case form of a text.
pub open spec fn lower_text(s: Seq<char>) -> Seq<char> {
    s.map_values(|c: char| ascii_lower(c))
}

/// Relies on `str::to_ascii_lowercase`, which maps the ASCII letters 'A' to
/// 'Z' to 'a' to 'z' and leaves every other character as it is.
#[verifier::external_body]
fn to_ascii_lowercase(s: &str) -> (r: String)
    ensures
        r@ == lower_text(s@),
{
    s.to_ascii_lowercase()
}

/// A domain without its leading `www.`.
pub open spec fn strip_www(d: Seq<char>) -> Seq<char> {
    if d.len() >= 4 && d.take(4) == www_prefix() {
        d.skip(4)
    } else {
        d
    }
}

/// Whether the list holds the text `s`.
pub open spec fn listed(list: Seq<String>, s: Seq<char>) -> bool {
    exists|i: int| 0 <= i < list.len() && (#[trigger] list[i])@ == s
}

/// The routing key of a domain under the remap table: the key of the first
/// pattern that matches the domain, or the domain itself where none does.
pub open spec fn remap(domain: Seq<char>, urls: Seq<(String, String)>) -> Result<Seq<char>, Failure>
    decreases urls.len(),
{
    if urls.len() == 0 {
        Ok(domain)
    } else {
        match regex_verdict(urls[0].0@, domain) {
            None => Err(Failure::Regex(urls[0].0@)),
            Some(true) => Ok(urls[0].1@),
            Some(false) => remap(domain, urls.drop_first()),
        }
    }
}

/// The site with a scheme: itself where the scheme pattern matches it, else
/// with `https://` put before it.
pub open spec fn with_scheme(url: Seq<char>, has_scheme: bool) -> Seq<char> {
    if has_scheme {
        url
    } else {
        DEFAULT_SCHEME@ + url
    }
}

/// The routing key of a site: its domain in lower case without `www.`,
/// refused where the blocklist holds it, then taken through the remap table.
pub open spec fn route_key(url: Seq<char>, blocklist: Seq<String>, urls: Seq<(String, String)>) -> Result<Seq<char>, Failure> {
    match regex_verdict(PROTOCOL_PATTERN@, url) {
        None => Err(Failure::Regex(PROTOCOL_PATTERN@)),
        Some(has) => {
            let full = with_scheme(url, has);
            match url_domain(full) {
                None => Err(Failure::UrlParse(full)),
                Some(None) => Err(Failure::NoDomain(full)),
                Some(Some(d)) => {
                    let key = strip_www(lower_text(d));
                    if listed(blocklist, key) {
                        Err(Failure::DomainBlocked)
                    } else {
                        remap(key, urls)
                    }
                },
            }
        },
    }
}

/// The domain without a leading `www.`.
pub fn strip_www_exec(d: &str) -> (r: String)
    ensures
        r@ == strip_www(d@),
{
    let n = d.unicode_len();
    if n >= 4 && d.get_char(0) == 'w' && d.get_char(1) == 'w' && d.get_char(2) == 'w' && d.get_char(3)
        == '.' {
        assert(d@.take(4) =~= www_prefix());
        String::from_str(d.substring_char(4, n))
    } else {
        assert(n >= 4 ==> d@.take(4)[0] == d@[0] && d@.take(4)[1] == d@[1] && d@.take(4)[2] == d@[2]
            && d@.take(4)[3] == d@[3]);
        String::from_str(d)
    }
}

/// The domain as routing compares it: in ASCII lower case, without a
/// leading `www.`.
pub fn domain_key(domain: &str) -> (r: String)
    ensures
        r@ == strip_www(lower_text(domain@)),
{
    let lower = to_ascii_lowercase(domain);
    strip_www_exec(lower.as_str())
}

/// The routing key of a domain that a source has not blocked: the key of
/// the first remap pattern that matches it, or the domain itself.
pub fn remap_domain(domain: &str, urls: &Vec<(String, String)>) -> (r: Result<String, Error>)
    ensures
        route_view(r) == remap(domain@, urls@),
{
    assert(urls@.skip(0) =~= urls@);
    for i in 0..urls.len()
        invariant
            remap(domain@, urls@) == remap(domain@, urls@.skip(i as int)),
    {
        assert(urls@.skip(i as int).drop_first() =~= urls@.skip(i + 1));
        assert(urls@.skip(i as int)[0] == urls@[i as int]);
        match regex_match(urls[i].0.as_str(), domain) {
            None => {
                return Err(Error::RegexError { expr: urls[i].0.clone() });
            },
            Some(true) => {
                return Ok(urls[i].1.clone());
            },
            Some(false) => {},
        }
    }
    assert(urls@.skip(urls@.len() as int).len() == 0);
    Ok(String::from_str(domain))
}

/// The routing key of a site: the site gets a scheme where it has none, its
/// domain is lower-cased and loses a leading `www.`, a domain on the
/// source's blocklist is refused, and the remap table turns the domain into
/// the key.
pub fn get_url_check_source_blocklist(url: &str, blocklist: &Vec<String>, urls: &Vec<(String, String)>) -> (r: Result<String, Error>)
    ensures
        route_view(r) == route_key(url@, blocklist@, urls@),
{
    let has = match regex_match(PROTOCOL_PATTERN, url) {
        Some(b) => b,
        None => {
            return Err(Error::RegexError { expr: String::from_str(PROTOCOL_PATTERN) });
        },
    };
    let full = if has {
        String::from_str(url)
    } else {
        let mut f = String::from_str(DEFAULT_SCHEME);
        f.append(url);
        f
    };
    let domain = match parse_domain(full.as_str()) {
        None => {
            return Err(Error::UrlParseError { url: full });
        },
        Some(None) => {
            return Err(Error::UrlDomainError { url: full });
        },
        Some(Some(d)) => d,
    };
    let key = domain_key(domain.as_str());
    if list_contains(blocklist, key.as_str()) {
        return Err(Error::UrlDomainBlocked);
    }
    remap_domain(key.as_str(), urls)
}

/// The file name of the script for a routing key.
pub open spec fn script_name(key: Seq<char>) -> Seq<char> {
    key + seq!['.', 'j', 's']
}

/// The path of a file in a directory.
pub open spec fn join_path(dir: Seq<char>, name: Seq<char>) -> Seq<char> {
    if dir.len() == 0 || dir.last() == '/' {
        dir + name
    } else {
        dir + seq!['/'] + name
    }
}

/// The path of a file in a directory.
pub fn join_path_exec(dir: &str, name: &str) -> (r: String)
    ensures
        r@ == join_path(dir@, name@),
{
    proof {
        reveal_strlit("/");
    }
    let n = dir.unicode_len();
    let mut p = String::from_str(dir);
    if n > 0 && dir.get_char(n - 1) != '/' {
        p.append("/");
    }
    p.append(name);
    p
}

/// The file name of the script for a routing key.
pub fn script_name_exec(key: &str) -> (r: String)
    ensures
        r@ == script_name(key@),
{
    proof {
        reveal_strlit(".js");
    }
    let mut s = String::from_str(key);
    s.append(".js");
    s
}

/// The paths at which each script directory, in order, would hold the
/// script for the routing key.
pub fn script_candidates(scripts: &Vec<Script>, key: &str) -> (r: Vec<String>)
    ensures
        r@.len() == scripts@.len(),
        forall|i: int|
            0 <= i < scripts@.len() ==> (#[trigger] r@[i])@ == join_path(scripts@[i].dir@, script_name(key@)),
{
    let name = script_name_exec(key);
    let mut out: Vec<String> = Vec::new();
    for i in 0..scripts.len()
        invariant
            name@ == script_name(key@),
            out@.len() == i,
            forall|k: int|
                0 <= k < i ==> (#[trigger] out@[k])@ == join_path(scripts@[k].dir@, script_name(key@)),
    {
        out.push(join_path_exec(scripts[i].dir.as_str(), name.as_str()));
    }
    out
}

/// Whether script directory `i` offers the script: it exists there and is
/// not on that directory's blocklist.
pub open spec fn offers(scripts: Seq<Script>, exists: Seq<bool>, key: Seq<char>, i: int) -> bool {
    exists[i] && !listed(scripts[i].blocklist@, script_name(key))
}

/// The script chosen for a routing key, given which directories hold the
/// script file: the first directory that holds it and has not blocked it
/// wins; where some hold it but all of those blocked it, the script is
/// blocked; where none holds it, it is missing.
pub open spec fn chosen_script(scripts: Seq<Script>, exists: Seq<bool>, key: Seq<char>) -> Result<Seq<char>, Failure> {
    if exists|i: int| 0 <= i < scripts.len() && offers(scripts, exists, key, i) {
        let i = choose|i: int|
            0 <= i < scripts.len() && offers(scripts, exists, key, i) && forall|k: int|
                0 <= k < i ==> !offers(scripts, exists, key, k);
        Ok(join_path(scripts[i].dir@, script_name(key)))
    } else if exists|i: int| 0 <= i < scripts.len() && exists[i] {
        Err(Failure::ScriptBlocked)
    } else if scripts.len() == 0 {
        Err(Failure::ScriptMissing(Seq::empty()))
    } else {
        Err(Failure::ScriptMissing(join_path(scripts.last().dir@, script_name(key))))
    }
}

/// Chooses the script for a routing key; `exists[i]` tells whether script
/// directory `i` holds the script file.
pub fn choose_script(scripts: &Vec<Script>, key: &str, exists: &Vec<bool>) -> (r: Result<String, Error>)
    requires
        exists@.len() == scripts@.len(),
    ensures
        route_view(r) == chosen_script(scripts@, exists@, key@),
{
    let name = script_name_exec(key);
    let mut any_present = false;
    for i in 0..scripts.len()
        invariant
            name@ == script_name(key@),
            exists@.len() == scripts@.len(),
            forall|k: int| 0 <= k < i ==> !offers(scripts@, exists@, key@, k),
            any_present == exists|k: int| 0 <= k < i && exists@[k],
    {
        if exists[i] {
            any_present = true;
            if !list_contains(&scripts[i].blocklist, name.as_str()) {
                assert(offers(scripts@, exists@, key@, i as int));
                return Ok(join_path_exec(scripts[i].dir.as_str(), name.as_str()));
            }
        }
    }
    if any_present {
        return Err(Error::ScriptBlocked);
    }
    let n = scripts.len();
    if n == 0 {
        Err(Error::ScriptMissingError { path: String::new() })
    } else {
        Err(Error::ScriptMissingError { path: join_path_exec(scripts[n - 1].dir.as_str(), name.as_str()) })
    }
}

} // verus!
