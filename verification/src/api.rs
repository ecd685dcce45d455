//! What each operation of the browser decides once the file system has
//! been asked: whether the target fits the operation, and which failure
//! answers a request that cannot be served.

use crate::config::{Config, RootDirConfig};
use crate::error::ApiError;
use crate::sandbox::{
    confine, is_within, joined, path_is_within, probed_path, ConfinedPath, Probe,
};
use vstd::prelude::*;

verus! {

/// What stands at a path in the file system.
#[derive(Clone, Copy, Debug, PartialEq, Eq, Structural)]
pub enum EntryKind {
    /// Nothing.
    Missing,
    /// A regular file.
    File,
    /// A directory.
    Directory,
    /// Something else.
    Other,
}

/// The root directory that a request's root index selects; a request for a
/// root that is not configured names nothing.
pub fn select_root(config: &Config, root_index: usize) -> (r: Result<&RootDirConfig, ApiError>)
    ensures
        root_index < config.root_dirs@.len() ==> r == Ok::<&RootDirConfig, ApiError>(
            &config.root_dirs@[root_index as int],
        ),
        root_index >= config.root_dirs@.len() ==> r == Err::<&RootDirConfig, ApiError>(
            ApiError::NotFound,
        ),
{
    match config.root_dir(root_index) {
        Some(root) => Ok(root),
        None => Err(ApiError::NotFound),
    }
}

/// Viewing and searching need a regular file.
pub fn check_file_target(kind: EntryKind) -> (r: Result<(), ApiError>)
    ensures
        r == if kind == EntryKind::File {
            Ok::<(), ApiError>(())
        } else {
            Err::<(), ApiError>(ApiError::BadRequest)
        },
{
    match kind {
        EntryKind::File => Ok(()),
        _ => Err(ApiError::BadRequest),
    }
}

/// Listing needs a directory.
pub fn check_directory_target(kind: EntryKind) -> (r: Result<(), ApiError>)
    ensures
        r == if kind == EntryKind::Directory {
            Ok::<(), ApiError>(())
        } else {
            Err::<(), ApiError>(ApiError::BadRequest)
        },
{
    match kind {
        EntryKind::Directory => Ok(()),
        _ => Err(ApiError::BadRequest),
    }
}

/// Saving and deleting refuse a directory, and nothing else.
pub fn check_write_target(kind: EntryKind) -> (r: Result<(), ApiError>)
    ensures
        r == if kind == EntryKind::Directory {
            Err::<(), ApiError>(ApiError::BadRequest)
        } else {
            Ok::<(), ApiError>(())
        },
{
    match kind {
        EntryKind::Directory => Err(ApiError::BadRequest),
        _ => Ok(()),
    }
}

/// A field that a request must carry: its value, or the failure for a
/// request without it.
pub fn require_field(value: Option<String>) -> (r: Result<String, ApiError>)
    ensures
        r == match value {
            Some(v) => Ok::<String, ApiError>(v),
            None => Err::<String, ApiError>(ApiError::BadRequest),
        },
{
    match value {
        Some(v) => Ok(v),
        None => Err(ApiError::BadRequest),
    }
}

/// The name of what is to be created must not be empty.
pub fn check_entry_name(name: &str) -> (r: Result<(), ApiError>)
    ensures
        r == if name@.len() == 0 {
            Err::<(), ApiError>(ApiError::BadRequest)
        } else {
            Ok::<(), ApiError>(())
        },
{
    if name.is_empty() {
        Err(ApiError::BadRequest)
    } else {
        Ok(())
    }
}

/// The path at which `name` is to be created in the confined directory
/// `dir`, or the failure for an empty name. The path is the second thing to
/// probe: `check_create` judges what the probe finds.
pub fn create_target(dir: &ConfinedPath, name: &str) -> (r: Result<String, ApiError>)
    ensures
        name@.len() == 0 ==> r == Err::<String, ApiError>(ApiError::BadRequest),
        name@.len() > 0 ==> (r matches Ok(target) && target@ == joined(dir.path(), name@)),
{
    if name.is_empty() {
        Err(ApiError::BadRequest)
    } else {
        Ok(dir.child(name))
    }
}

/// Whether something exists at a probed path.
pub open spec fn exists_at(probe: Probe) -> bool {
    probe !is Missing
}

/// The path that the second check of a creation looks at: the canonical
/// path where the probe has one, else the target itself.
pub open spec fn creation_path(target: Seq<char>, probe: Probe) -> Seq<char> {
    probed_path(target, probe)
}

/// The second check of a creation, made on the path of the new entry
/// itself after the directory was confined: the path must lie within the
/// root, and nothing may exist there yet.
pub fn check_create(root: &str, target: &str, probe: Probe) -> (r: Result<ConfinedPath, ApiError>)
    ensures
        !is_within(root@, creation_path(target@, probe)) ==> r == Err::<ConfinedPath, ApiError>(
            ApiError::AccessDenied,
        ),
        is_within(root@, creation_path(target@, probe)) && exists_at(probe) ==> r == Err::<
            ConfinedPath,
            ApiError,
        >(ApiError::Conflict),
        is_within(root@, creation_path(target@, probe)) && !exists_at(probe) ==> (r matches Ok(p)
            && p.path() == target@ && p.root() == root@ && p.wf()),
{
    match probe {
        Probe::Missing => match confine(root, target, Probe::Missing) {
            Ok(p) => Ok(p),
            Err(_) => Err(ApiError::AccessDenied),
        },
        Probe::Canonical(found) => {
            if path_is_within(root, found.as_str()) {
                Err(ApiError::Conflict)
            } else {
                Err(ApiError::AccessDenied)
            }
        },
        Probe::Failed => {
            if path_is_within(root, target) {
                Err(ApiError::Conflict)
            } else {
                Err(ApiError::AccessDenied)
            }
        },
    }
}

} // verus!
