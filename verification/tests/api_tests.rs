use file_browser::api::{
    check_create, check_directory_target, check_entry_name, check_file_target,
    check_write_target, create_target, require_field, select_root, EntryKind,
};
use file_browser::config::{
    default_port, default_root_dirs, default_static_dirs, Config, RootDirConfig, StaticDirConfig,
    DEFAULT_PORT,
};
use file_browser::error::ApiError;
use file_browser::query::{default_page, default_root_index, get_root_index_from_query, RootQuery};
use file_browser::sandbox::{confine, lookup, Lookup, Probe, SandboxError};

#[test]
fn creating_twice_succeeds_once_and_then_conflicts() {
    let root = "/data";
    let target = match lookup(root, "sub") {
        Ok(Lookup::Probe(target)) => target,
        other => panic!("unexpected {:?}", other),
    };
    let dir = confine(root, &target, Probe::Canonical("/data/sub".to_string())).unwrap();
    assert_eq!(check_entry_name("x.txt"), Ok(()));
    let file = create_target(&dir, "x.txt").unwrap();
    assert_eq!(file, "/data/sub/x.txt");

    let first = check_create(root, &file, Probe::Missing).unwrap();
    assert_eq!(first.as_str(), "/data/sub/x.txt");

    let second = check_create(root, &file, Probe::Canonical("/data/sub/x.txt".to_string()));
    assert_eq!(second.err(), Some(ApiError::Conflict));
    assert_eq!(ApiError::Conflict.status_code(), 409);
}

#[test]
fn creating_outside_the_root_is_forbidden() {
    let dir = confine("/data", "/data/sub", Probe::Missing).unwrap();
    let up = create_target(&dir, "../../etc/x").unwrap();
    assert_eq!(up, "/data/sub/../../etc/x");
    assert_eq!(check_create("/data", &up, Probe::Missing).err(), Some(ApiError::AccessDenied));
    let absolute = create_target(&dir, "/etc/x").unwrap();
    assert_eq!(absolute, "/etc/x");
    assert_eq!(
        check_create("/data", &absolute, Probe::Missing).err(),
        Some(ApiError::AccessDenied)
    );
    assert_eq!(
        check_create("/data", "/data/link", Probe::Canonical("/etc/passwd".to_string())).err(),
        Some(ApiError::AccessDenied)
    );
    assert_eq!(ApiError::AccessDenied.status_code(), 403);
}

#[test]
fn creating_where_something_unreadable_exists_conflicts() {
    assert_eq!(
        check_create("/data", "/data/x", Probe::Failed).err(),
        Some(ApiError::Conflict)
    );
    assert_eq!(
        check_create("/data", "/else/x", Probe::Failed).err(),
        Some(ApiError::AccessDenied)
    );
}

#[test]
fn creating_needs_a_name() {
    assert_eq!(check_entry_name(""), Err(ApiError::BadRequest));
    assert_eq!(check_entry_name(" "), Ok(()));
    let dir = confine("/data", "/data", Probe::Missing).unwrap();
    assert_eq!(create_target(&dir, ""), Err(ApiError::BadRequest));
}

#[test]
fn viewing_needs_a_file() {
    assert_eq!(check_file_target(EntryKind::File), Ok(()));
    assert_eq!(check_file_target(EntryKind::Directory), Err(ApiError::BadRequest));
    assert_eq!(check_file_target(EntryKind::Missing), Err(ApiError::BadRequest));
    assert_eq!(check_file_target(EntryKind::Other), Err(ApiError::BadRequest));
}

#[test]
fn listing_needs_a_directory() {
    assert_eq!(check_directory_target(EntryKind::Directory), Ok(()));
    assert_eq!(check_directory_target(EntryKind::File), Err(ApiError::BadRequest));
    assert_eq!(check_directory_target(EntryKind::Missing), Err(ApiError::BadRequest));
    assert_eq!(check_directory_target(EntryKind::Other), Err(ApiError::BadRequest));
}

#[test]
fn writing_refuses_directories_only() {
    assert_eq!(check_write_target(EntryKind::Directory), Err(ApiError::BadRequest));
    assert_eq!(check_write_target(EntryKind::File), Ok(()));
    assert_eq!(check_write_target(EntryKind::Missing), Ok(()));
    assert_eq!(check_write_target(EntryKind::Other), Ok(()));
}

#[test]
fn a_missing_field_is_a_bad_request() {
    assert_eq!(require_field(None), Err(ApiError::BadRequest));
    assert_eq!(require_field(Some("a/b".to_string())), Ok("a/b".to_string()));
    assert_eq!(require_field(Some(String::new())), Ok(String::new()));
}

#[test]
fn every_failure_has_its_status() {
    assert_eq!(ApiError::IllegalPath.status_code(), 404);
    assert_eq!(ApiError::AccessDenied.status_code(), 403);
    assert_eq!(ApiError::NotFound.status_code(), 404);
    assert_eq!(ApiError::BadRequest.status_code(), 400);
    assert_eq!(ApiError::Conflict.status_code(), 409);
    assert_eq!(ApiError::IoFailure.status_code(), 500);
}

#[test]
fn sandbox_refusals_keep_their_kind() {
    assert_eq!(ApiError::from_sandbox(SandboxError::IllegalPath), ApiError::IllegalPath);
    assert_eq!(ApiError::from_sandbox(SandboxError::AccessDenied), ApiError::AccessDenied);
    assert_eq!(ApiError::from_sandbox(SandboxError::NotFound), ApiError::NotFound);
}

#[test]
fn default_configuration() {
    let config = Config::default();
    assert_eq!(config.port, 8080);
    assert_eq!(DEFAULT_PORT, 8080);
    assert_eq!(default_port(), 8080);
    assert_eq!(config.root_dirs.len(), 1);
    assert_eq!(config.root_dirs[0].name, "\u{9ed8}\u{8ba4}\u{76ee}\u{5f55}");
    assert_eq!(config.root_dirs[0].path, ".");
    assert_eq!(config.static_dirs.len(), 1);
    assert_eq!(config.static_dirs[0].name, "default");
    assert_eq!(config.static_dirs[0].path, "./static");
    assert_eq!(default_root_dirs().len(), 1);
    assert_eq!(default_static_dirs().len(), 1);
}

#[test]
fn configuration_options_replace_their_defaults_one_by_one() {
    let roots = vec![
        RootDirConfig { name: "logs".to_string(), path: "/var/log".to_string() },
        RootDirConfig { name: "home".to_string(), path: "/home".to_string() },
    ];
    let config = Config::from_options(Some(roots), None, None);
    assert_eq!(config.root_dirs.len(), 2);
    assert_eq!(config.root_dirs[1].path, "/home");
    assert_eq!(config.port, 8080);
    assert_eq!(config.static_dirs[0].path, "./static");

    let statics = vec![StaticDirConfig { name: "s".to_string(), path: "/srv/s".to_string() }];
    let config = Config::from_options(None, Some(9000), Some(statics));
    assert_eq!(config.root_dirs[0].path, ".");
    assert_eq!(config.port, 9000);
    assert_eq!(config.static_dirs[0].name, "s");

    let config = Config::from_options(Some(Vec::new()), Some(0), Some(Vec::new()));
    assert!(config.root_dirs.is_empty());
    assert_eq!(config.port, 0);
    assert!(config.static_dirs.is_empty());
}

#[test]
fn root_dir_selects_by_index() {
    let config = Config::from_options(
        Some(vec![
            RootDirConfig { name: "a".to_string(), path: "/a".to_string() },
            RootDirConfig { name: "b".to_string(), path: "/b".to_string() },
        ]),
        None,
        None,
    );
    assert_eq!(config.root_dir(0).map(|r| r.path.as_str()), Some("/a"));
    assert_eq!(config.root_dir(1).map(|r| r.path.as_str()), Some("/b"));
    assert!(config.root_dir(2).is_none());
    assert!(config.root_dir(usize::MAX).is_none());
    let empty = Config::from_options(Some(Vec::new()), None, None);
    assert!(empty.root_dir(0).is_none());
}

#[test]
fn request_defaults() {
    assert_eq!(default_page(), 1);
    assert_eq!(default_root_index(), 0);
    assert_eq!(RootQuery::default().root, 0);
    assert_eq!(get_root_index_from_query(&RootQuery { root: 3 }), 3);
    assert_eq!(get_root_index_from_query(&RootQuery::default()), 0);
}

#[test]
fn a_root_that_is_not_configured_is_not_found() {
    let config = Config::default();
    assert_eq!(select_root(&config, 0).map(|r| r.path.as_str()), Ok("."));
    assert_eq!(select_root(&config, 1).map(|r| r.path.as_str()), Err(ApiError::NotFound));
    assert_eq!(ApiError::NotFound.status_code(), 404);
}
