use passup::config::Script;
use passup::routing::{domain_key, choose_script, get_url_check_source_blocklist, join_path_exec, remap_domain, script_candidates, strip_www_exec, Error};

fn strings(v: &[&str]) -> Vec<String> {
    v.iter().map(|s| s.to_string()).collect()
}

#[test]
fn site_without_scheme_gets_https() {
    let key = get_url_check_source_blocklist("www.example.com/login", &vec![], &vec![]).unwrap();
    assert_eq!(key, "example.com");
}

#[test]
fn site_with_scheme_is_kept() {
    let key = get_url_check_source_blocklist("http://shop.example.org/a?b=c", &vec![], &vec![]).unwrap();
    assert_eq!(key, "shop.example.org");
}

#[test]
fn blocked_domain_is_refused() {
    let r = get_url_check_source_blocklist("https://www.blocked.example", &strings(&["blocked.example"]), &vec![]);
    assert_eq!(r.unwrap_err(), Error::UrlDomainBlocked);
}

#[test]
fn remap_takes_first_matching_pattern() {
    let urls = vec![("^mail\\.".to_owned(), "mailer".to_owned()), ("example".to_owned(), "ex".to_owned())];
    assert_eq!(get_url_check_source_blocklist("mail.example.com", &vec![], &urls).unwrap(), "mailer");
    assert_eq!(get_url_check_source_blocklist("www.example.com", &vec![], &urls).unwrap(), "ex");
    assert_eq!(get_url_check_source_blocklist("other.net", &vec![], &urls).unwrap(), "other.net");
}

#[test]
fn bad_pattern_is_an_error() {
    let urls = vec![("(".to_owned(), "x".to_owned())];
    assert_eq!(remap_domain("a.com", &urls).unwrap_err(), Error::RegexError { expr: "(".to_owned() });
}

#[test]
fn address_without_domain_is_an_error() {
    let r = get_url_check_source_blocklist("https://127.0.0.1/", &vec![], &vec![]);
    assert_eq!(r.unwrap_err(), Error::UrlDomainError { url: "https://127.0.0.1/".to_owned() });
}

#[test]
fn unparsable_site_is_an_error() {
    let r = get_url_check_source_blocklist("http://[::1", &vec![], &vec![]);
    assert_eq!(r.unwrap_err(), Error::UrlParseError { url: "http://[::1".to_owned() });
}

#[test]
fn www_is_stripped_once() {
    assert_eq!(strip_www_exec("www.a.com"), "a.com");
    assert_eq!(strip_www_exec("www.www.a.com"), "www.a.com");
    assert_eq!(strip_www_exec("ww.a.com"), "ww.a.com");
}

#[test]
fn paths_are_joined() {
    assert_eq!(join_path_exec("/s", "a.js"), "/s/a.js");
    assert_eq!(join_path_exec("/s/", "a.js"), "/s/a.js");
    assert_eq!(join_path_exec("", "a.js"), "a.js");
}

#[test]
fn first_present_unblocked_script_wins() {
    let scripts = vec![
        Script::new("/one".to_owned(), vec![]),
        Script::new("/two".to_owned(), strings(&["site.js"])),
        Script::new("/three".to_owned(), vec![]),
    ];
    let c = script_candidates(&scripts, "site");
    assert_eq!(c, strings(&["/one/site.js", "/two/site.js", "/three/site.js"]));
    assert_eq!(choose_script(&scripts, "site", &vec![false, true, true]).unwrap(), "/three/site.js");
    assert_eq!(choose_script(&scripts, "site", &vec![true, true, false]).unwrap(), "/one/site.js");
    assert_eq!(choose_script(&scripts, "site", &vec![false, true, false]).unwrap_err(), Error::ScriptBlocked);
    assert_eq!(
        choose_script(&scripts, "site", &vec![false, false, false]).unwrap_err(),
        Error::ScriptMissingError { path: "/three/site.js".to_owned() }
    );
    assert_eq!(choose_script(&vec![], "site", &vec![]).unwrap_err(), Error::ScriptMissingError { path: String::new() });
}

#[test]
fn domain_is_lowercased_before_www_is_stripped() {
    assert_eq!(domain_key("WWW.Example.COM"), "example.com");
    assert_eq!(domain_key("Shop.Example"), "shop.example");
}

#[test]
fn scheme_must_start_the_site() {
    let key = get_url_check_source_blocklist("a.example/?r=https://b.example", &vec![], &vec![]).unwrap();
    assert_eq!(key, "a.example");
}
