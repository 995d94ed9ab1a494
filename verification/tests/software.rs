use flowlens::software::{
    catalog_from_entries, categorize, stem, InstalledApp, SoftwareCatalog, UninstallEntry,
};

#[test]
fn test_categorize() {
    let catalog = SoftwareCatalog::new();
    // system traffic: svchost services, kernel and system processes
    assert_eq!(categorize("svchost:wuauserv", &catalog), "system");
    assert_eq!(categorize("svchost:DoSvc,BITS", &catalog), "system");
    assert_eq!(categorize("MsMpEng.exe", &catalog), "system");
    assert_eq!(categorize("system", &catalog), "system");
    assert_eq!(categorize("SearchIndexer.exe", &catalog), "system");
    // developer traffic
    assert_eq!(categorize("node.exe", &catalog), "dev");
    assert_eq!(categorize("git-remote-https.exe", &catalog), "dev");
    assert_eq!(categorize("cargo.exe", &catalog), "dev");
    assert_eq!(categorize("python.exe", &catalog), "dev");
    // software: well-known processes
    assert_eq!(categorize("msedge.exe", &catalog), "software");
    assert_eq!(categorize("WeChat.exe", &catalog), "software");
    // unclassified
    assert_eq!(categorize("其他", &catalog), "other");
    assert_eq!(categorize("totally_unknown.exe", &catalog), "other");
}

#[test]
fn test_categorize_by_install_location() {
    let mut catalog = SoftwareCatalog::new();
    catalog.push(InstalledApp {
        name: "PotPlayer".into(),
        publisher: None,
        install_location: Some("D:\\Tools\\PotPlayer\\".into()),
    });
    assert_eq!(categorize("PotPlayerMini64.exe", &catalog), "software");
}

#[test]
fn categorize_by_location_suffix() {
    let mut catalog = SoftwareCatalog::new();
    catalog.push(InstalledApp {
        name: "Zz".into(),
        publisher: None,
        install_location: Some("C:\\Program Files\\Foo\\FooBar.EXE".into()),
    });
    assert_eq!(categorize("C:\\x\\foobar.exe", &catalog), "software");
    catalog.push(InstalledApp {
        name: "Qq2".into(),
        publisher: None,
        install_location: Some("E:\\Apps\\Baz".into()),
    });
    assert_eq!(categorize("baz.exe", &catalog), "software");
    // a short product name does not match by prefix
    let mut short = SoftwareCatalog::new();
    short.push(InstalledApp { name: "Ab".into(), publisher: None, install_location: None });
    assert_eq!(categorize("abcdef.exe", &short), "other");
    // nor does a short stem
    let mut long = SoftwareCatalog::new();
    long.push(InstalledApp { name: "Abcdef".into(), publisher: None, install_location: None });
    assert_eq!(categorize("abc.exe", &long), "other");
    assert_eq!(categorize("abcd.exe", &long), "software");
}

#[test]
fn stems() {
    assert_eq!(stem("C:\\Program Files\\Microsoft\\Edge\\MsEdge.exe"), "msedge");
    assert_eq!(stem("/usr/bin/Firefox"), "firefox");
    assert_eq!(stem("svchost:DoSvc"), "svchost:dosvc");
    assert_eq!(stem("svchost:a\\b.exe"), "svchost:a\\b");
    assert_eq!(stem("dir/"), "");
    assert_eq!(stem("App.EXE"), "app.exe");
    assert_eq!(stem(".exe"), "");
}

fn entry(name: &str, location: Option<&str>) -> UninstallEntry {
    UninstallEntry {
        display_name: name.to_string(),
        publisher: Some("P".to_string()),
        install_location: location.map(|s| s.to_string()),
    }
}

#[test]
fn catalog_from_registry_entries() {
    let apps = catalog_from_entries(vec![
        entry("  Zeta Player ", Some("C:\\Zeta")),
        entry("", None),
        entry("KB5031234 Update", None),
        entry("kb123", None),
        entry("alpha", Some("   ")),
        entry("ZETA PLAYER", Some("C:\\Other")),
        entry("Beta", None),
        entry("   ", None),
    ]);
    let names: Vec<&str> = apps.iter().map(|a| a.name.as_str()).collect();
    assert_eq!(names, vec!["alpha", "Beta", "Zeta Player"]);
    assert_eq!(apps[0].install_location, None);
    assert_eq!(apps[2].install_location.as_deref(), Some("C:\\Zeta"));
    assert_eq!(apps[1].publisher.as_deref(), Some("P"));
}

#[test]
fn refresh_replaces_the_catalog() {
    let mut catalog = SoftwareCatalog::new();
    assert!(catalog.installed_apps().is_empty());
    let snapshot = catalog.refresh(vec![entry("PotPlayer", Some("D:\\Tools\\PotPlayer\\"))]);
    assert_eq!(snapshot.len(), 1);
    assert_eq!(catalog.installed_apps().len(), 1);
    assert_eq!(catalog.installed_apps()[0].name, "PotPlayer");
    assert_eq!(categorize("PotPlayerMini64.exe", &catalog), "software");
    catalog.refresh(Vec::new());
    assert_eq!(categorize("PotPlayerMini64.exe", &catalog), "other");
}

#[test]
fn snapshot_after_refresh_is_the_refreshed_list() {
    let mut catalog = SoftwareCatalog::new();
    let refreshed = catalog.refresh(vec![
        entry("Zeta Player", Some("C:\\Zeta")),
        entry("alpha", None),
    ]);
    let first = catalog.installed_apps();
    let second = catalog.installed_apps();
    let names = |v: &Vec<InstalledApp>| v.iter().map(|a| (a.name.clone(), a.install_location.clone())).collect::<Vec<_>>();
    assert_eq!(names(&first), names(&refreshed));
    assert_eq!(names(&second), names(&first));
    assert_eq!(names(&first)[0].0, "alpha");
}
