use file_browser::listing::{
    describe, describe_entry, extension_of, format_mod_time, list_entries, shown_path, EntryMeta,
    RawEntry, TIME_LIMIT,
};

fn some(s: &str) -> Option<String> {
    Some(s.to_string())
}

#[test]
fn extension_is_what_follows_the_last_dot() {
    assert_eq!(extension_of("a.txt"), some("txt"));
    assert_eq!(extension_of("archive.tar.gz"), some("gz"));
    assert_eq!(extension_of("a."), some(""));
    assert_eq!(extension_of("..a"), some("a"));
    assert_eq!(extension_of(".hidden.txt"), some("txt"));
    assert_eq!(extension_of("r\u{e9}sum\u{e9}.p\u{e4}df"), some("p\u{e4}df"));
    assert_eq!(extension_of("a..."), some(""));
}

#[test]
fn names_without_an_inner_dot_have_no_extension() {
    assert_eq!(extension_of(""), None);
    assert_eq!(extension_of("Makefile"), None);
    assert_eq!(extension_of(".bashrc"), None);
    assert_eq!(extension_of("."), None);
    assert_eq!(extension_of(".."), None);
}

#[test]
fn extension_agrees_with_std() {
    for name in ["a.txt", "a", ".a", "a.", "..a", "a.b.c", "...", ".a.b", "x.y.", "\u{e9}.\u{e8}"] {
        let expected =
            std::path::Path::new(name).extension().map(|e| e.to_str().unwrap().to_string());
        assert_eq!(extension_of(name), expected, "{}", name);
    }
}

#[test]
fn mod_time_is_rfc3339_with_whole_seconds() {
    assert_eq!(format_mod_time(Some(0)), "1970-01-01T00:00:00Z");
    assert_eq!(format_mod_time(Some(1518568087)), "2018-02-14T00:28:07Z");
    assert_eq!(format_mod_time(Some(951782400)), "2000-02-29T00:00:00Z");
    assert_eq!(format_mod_time(Some(TIME_LIMIT - 1)), "9999-12-31T23:59:59Z");
}

#[test]
fn mod_time_is_empty_where_unknown_or_too_late() {
    assert_eq!(format_mod_time(None), "");
    assert_eq!(format_mod_time(Some(TIME_LIMIT)), "");
    assert_eq!(format_mod_time(Some(u64::MAX)), "");
}

#[test]
fn shown_path_prefers_the_relative_path() {
    assert_eq!(shown_path("/data/a".to_string(), some("a")), "a");
    assert_eq!(shown_path("/data/a".to_string(), None), "/data/a");
}

#[test]
fn describe_entry_reports_a_file() {
    let entry = RawEntry {
        name: "notes.TXT".to_string(),
        path: "/data/sub/notes.TXT".to_string(),
        meta: Some(EntryMeta { is_dir: false, size: 1234, modified: Some(86400) }),
    };
    let info = describe_entry(entry, "/data");
    assert_eq!(info.name, "notes.TXT");
    assert_eq!(info.path, "sub/notes.TXT");
    assert!(!info.is_dir);
    assert_eq!(info.size, 1234);
    assert_eq!(info.mod_time, "1970-01-02T00:00:00Z");
    assert_eq!(info.extension, some("TXT"));
}

#[test]
fn describe_entry_gives_a_directory_no_extension() {
    let entry = RawEntry {
        name: "conf.d".to_string(),
        path: "/data/conf.d".to_string(),
        meta: Some(EntryMeta { is_dir: true, size: 4096, modified: None }),
    };
    let info = describe_entry(entry, "/data");
    assert_eq!(info.path, "conf.d");
    assert!(info.is_dir);
    assert_eq!(info.size, 4096);
    assert_eq!(info.mod_time, "");
    assert_eq!(info.extension, None);
}

#[test]
fn describe_entry_without_metadata_is_an_empty_file() {
    let entry = RawEntry { name: "x.log".to_string(), path: "/data/x.log".to_string(), meta: None };
    let info = describe_entry(entry, "/data");
    assert!(!info.is_dir);
    assert_eq!(info.size, 0);
    assert_eq!(info.mod_time, "");
    assert_eq!(info.extension, some("log"));
}

#[test]
fn describe_entry_gives_the_path_from_the_root() {
    let make = |path: &str| RawEntry { name: "n".to_string(), path: path.to_string(), meta: None };
    assert_eq!(describe_entry(make("/data/a/b/n"), "/data").path, "a/b/n");
    assert_eq!(describe_entry(make("/data/n"), "/data/").path, "n");
    assert_eq!(describe_entry(make("/other/n"), "/data").path, "../other/n");
    assert_eq!(describe_entry(make("/abs/n"), "relative").path, "/abs/n");
    assert_eq!(describe_entry(make("rel/n"), "/data").path, "rel/n");
}

#[test]
fn describe_keeps_what_it_is_given() {
    let info = describe(
        "a.b".to_string(),
        "shown/a.b".to_string(),
        Some(EntryMeta { is_dir: false, size: 9, modified: Some(TIME_LIMIT) }),
    );
    assert_eq!(info.name, "a.b");
    assert_eq!(info.path, "shown/a.b");
    assert_eq!(info.size, 9);
    assert_eq!(info.mod_time, "");
    assert_eq!(info.extension, some("b"));
}

#[test]
fn list_entries_keeps_the_order_of_the_entries() {
    let entries = vec![
        RawEntry { name: "b.txt".to_string(), path: "/r/b.txt".to_string(), meta: None },
        RawEntry {
            name: "a".to_string(),
            path: "/r/a".to_string(),
            meta: Some(EntryMeta { is_dir: true, size: 1, modified: Some(1) }),
        },
        RawEntry { name: "c.md".to_string(), path: "/r/c.md".to_string(), meta: None },
    ];
    let infos = list_entries(entries, "/r");
    let names: Vec<&str> = infos.iter().map(|i| i.name.as_str()).collect();
    assert_eq!(names, vec!["b.txt", "a", "c.md"]);
    let paths: Vec<&str> = infos.iter().map(|i| i.path.as_str()).collect();
    assert_eq!(paths, vec!["b.txt", "a", "c.md"]);
    assert_eq!(infos[1].mod_time, "1970-01-01T00:00:01Z");
    assert!(list_entries(Vec::new(), "/r").is_empty());
}
