use passup::config::{select_source, SourceError, create_profiletype_map, profile_type_from_name, BrowserType, Configuration, Profile, ProfileTypes, Script, Source};

#[test]
fn browser_names() {
    assert_eq!(BrowserType::Firefox.name(), "firefox");
    assert_eq!(BrowserType::Chrome.name(), "chrome");
    assert_eq!(BrowserType::from_name("chrome"), Some(BrowserType::Chrome));
    assert_eq!(BrowserType::from_name("opera"), None);
}

#[test]
fn profile_type_names() {
    let m = create_profiletype_map();
    assert_eq!(m.len(), 5);
    assert_eq!(m[3], ("chrome-gnome".to_owned(), ProfileTypes::ChromeG));
    assert_eq!(profile_type_from_name("chrome-kde"), Some(ProfileTypes::ChromeK));
    assert_eq!(profile_type_from_name("pwsafe"), Some(ProfileTypes::Pwsafe));
    assert_eq!(profile_type_from_name("keepass"), None);
    assert!(ProfileTypes::Kdbx.needs_file());
    assert!(!ProfileTypes::Pass.needs_file());
}

#[test]
fn configuration_holds_its_parts() {
    let p = Profile::new(ProfileTypes::Kdbx, vec!["main".to_owned()]);
    let s = Source::new("main".to_owned(), "/db.kdbx".to_owned(), vec!["x.com".to_owned()]);
    let sc = Script::new("/scripts".to_owned(), vec![]);
    let c = Configuration::new(BrowserType::Firefox, 4, "work".to_owned(), p, vec![s], vec![sc], vec![("a".to_owned(), "b".to_owned())]);
    assert_eq!(c.nr_threads, 4);
    assert_eq!(c.active_profile, "work");
    assert_eq!(c.profile.ptype, ProfileTypes::Kdbx);
    assert_eq!(c.sources[0].file, "/db.kdbx");
    assert_eq!(c.scripts[0].dir, "/scripts");
    assert_eq!(c.urls[0].1, "b");
}

#[test]
fn sources_are_selected_by_profile() {
    let p = Profile::new(ProfileTypes::Pwsafe, vec!["main".to_owned()]);
    let s = select_source("main".to_owned(), Some("/a.psafe3".to_owned()), vec!["x".to_owned()], &p).unwrap();
    assert_eq!(s.file, "/a.psafe3");
    assert_eq!(s.blocklist, vec!["x".to_owned()]);
    assert_eq!(select_source("other".to_owned(), Some("/b".to_owned()), vec![], &p).unwrap_err(), SourceError::SourcesIgnore);
    assert_eq!(select_source("main".to_owned(), None, vec![], &p).unwrap_err(), SourceError::SourcesFileMissing);
    let pass = Profile::new(ProfileTypes::Pass, vec!["main".to_owned()]);
    assert_eq!(select_source("main".to_owned(), None, vec![], &pass).unwrap().file, "");
}
