//! Directory listings: what is reported of each entry of a directory.

use vstd::prelude::*;
use vstd::std_specs::iter::IteratorSpec;
use vstd::string::*;

verus! {

/// Times from this second after the epoch on have no four-digit year and
/// are not formatted.
pub const TIME_LIMIT: u64 = 253402300800;

/// What a listing reports of one entry.
#[derive(Clone, Debug)]
pub struct FileInfo {
    /// Name of the entry.
    pub name: String,
    /// Path of the entry, relative to the root.
    pub path: String,
    /// Whether the entry is a directory.
    pub is_dir: bool,
    /// Size in bytes.
    pub size: u64,
    /// Time of the last change, in RFC 3339 with whole seconds, or empty.
    pub mod_time: String,
    /// Extension of a file's name.
    pub extension: Option<String>,
}

/// What the file system knows of an entry.
#[derive(Clone, Copy, Debug, PartialEq, Eq, Structural)]
pub struct EntryMeta {
    /// Whether the entry is a directory.
    pub is_dir: bool,
    /// Size in bytes.
    pub size: u64,
    /// Time of the last change in seconds after the epoch, where known.
    pub modified: Option<u64>,
}

/// An entry as it was read from a directory.
#[derive(Clone, Debug)]
pub struct RawEntry {
    /// Name of the entry; empty where the name is not valid UTF-8.
    pub name: String,
    /// Full path of the entry.
    pub path: String,
    /// What the file system knows of the entry, if it could be asked.
    pub meta: Option<EntryMeta>,
}

/// The path from `base` to `path` that `pathdiff::diff_paths` gives.
pub uninterp spec fn diffed(path: Seq<char>, base: Seq<char>) -> Option<Seq<char>>;

/// `pathdiff::diff_paths`: the relative path that leads from `base` to
/// `path`, or nothing; it depends on the text of the two paths alone.
#[verifier::external_body]
pub(crate) fn diff_paths(path: &str, base: &str) -> (r: Option<String>)
    ensures
        r is Some <==> diffed(path@, base@) is Some,
        r matches Some(s) ==> Some(s@) == diffed(path@, base@),
{
    pathdiff::diff_paths(path, base).map(|p| p.to_string_lossy().into_owned())
}

/// The text that `humantime::format_rfc3339_seconds` gives for the time
/// `secs` seconds after the epoch.
pub uninterp spec fn rfc3339_seconds(secs: u64) -> Seq<char>;

/// `humantime::format_rfc3339_seconds`, displayed: a time `secs` seconds
/// after the epoch in RFC 3339 with whole seconds, in UTC. Times from the
/// year 10000 on cannot be displayed and are left out.
#[verifier::external_body]
pub(crate) fn format_seconds(secs: u64) -> (r: String)
    requires
        secs < TIME_LIMIT,
    ensures
        r@ == rfc3339_seconds(secs),
{
    let time = std::time::UNIX_EPOCH + std::time::Duration::from_secs(secs);
    humantime::format_rfc3339_seconds(time).to_string()
}

/// Index of the last dot in `name`, or -1.
pub open spec fn last_dot(name: Seq<char>) -> int
    decreases name.len(),
{
    if name.len() == 0 {
        -1
    } else if name.last() == '.' {
        name.len() - 1
    } else {
        last_dot(name.drop_last())
    }
}

/// The extension of a file name: what follows its last dot. A name without
/// a dot has none, nor has a name whose only dot is its first character,
/// nor has `..`.
pub open spec fn extension(name: Seq<char>) -> Option<Seq<char>> {
    if name == seq!['.', '.'] || last_dot(name) <= 0 {
        None
    } else {
        Some(name.skip(last_dot(name) + 1))
    }
}

/// The path reported for an entry: the path from the root to it, or the
/// entry's own path where there is none.
pub open spec fn reported_path(path: Seq<char>, root: Seq<char>) -> Seq<char> {
    match diffed(path, root) {
        Some(rel) => rel,
        None => path,
    }
}

/// The time reported for an entry: empty where it is unknown or too late to
/// be formatted.
pub open spec fn reported_time(modified: Option<u64>) -> Seq<char> {
    match modified {
        Some(secs) => if secs < TIME_LIMIT {
            rfc3339_seconds(secs)
        } else {
            Seq::empty()
        },
        None => Seq::empty(),
    }
}

/// What a `FileInfo` holds.
pub struct FileInfoView {
    pub name: Seq<char>,
    pub path: Seq<char>,
    pub is_dir: bool,
    pub size: u64,
    pub mod_time: Seq<char>,
    pub extension: Option<Seq<char>>,
}

impl View for FileInfo {
    type V = FileInfoView;

    open spec fn view(&self) -> FileInfoView {
        FileInfoView {
            name: self.name@,
            path: self.path@,
            is_dir: self.is_dir,
            size: self.size,
            mod_time: self.mod_time@,
            extension: match self.extension {
                Some(e) => Some(e@),
                None => None,
            },
        }
    }
}

/// What is reported of an entry, given the path reported for it.
pub open spec fn described(
    name: Seq<char>,
    shown_path: Seq<char>,
    meta: Option<EntryMeta>,
) -> FileInfoView {
    let is_dir = match meta {
        Some(m) => m.is_dir,
        None => false,
    };
    FileInfoView {
        name,
        path: shown_path,
        is_dir,
        size: match meta {
            Some(m) => m.size,
            None => 0,
        },
        mod_time: match meta {
            Some(m) => reported_time(m.modified),
            None => Seq::empty(),
        },
        extension: if is_dir {
            None
        } else {
            extension(name)
        },
    }
}

/// `last_dot` is the index of the last dot.
pub proof fn lemma_last_dot(name: Seq<char>)
    ensures
        -1 <= last_dot(name) < name.len(),
        last_dot(name) >= 0 ==> name[last_dot(name)] == '.',
        forall|j: int| last_dot(name) < j < name.len() ==> name[j] != '.',
    decreases name.len(),
{
    if name.len() > 0 && name.last() != '.' {
        let front = name.drop_last();
        lemma_last_dot(front);
        assert forall|j: int| last_dot(name) < j < name.len() implies name[j] != '.' by {
            if j < front.len() {
                assert(name[j] == front[j]);
            }
        }
    }
}

/// The extension of a file name.
pub fn extension_of(name: &str) -> (r: Option<String>)
    ensures
        r is Some <==> extension(name@) is Some,
        r matches Some(e) ==> Some(e@) == extension(name@),
{
    let mut dot: Option<usize> = None;
    let mut len: usize = 0;
    let mut dots_only: bool = true;
    let total: usize = name.unicode_len();
    for c in it: name.chars()
        invariant
            it.seq() == name@,
            total == name@.len(),
            len == it.index(),
            len <= total,
            dots_only == (forall|j: int| 0 <= j < len ==> name@[j] == '.'),
            match dot {
                Some(i) => i == last_dot(name@.take(len as int)),
                None => last_dot(name@.take(len as int)) == -1,
            },
    {
        proof {
            let read = name@.take(len as int);
            let next = name@.take(len + 1);
            assert(next.drop_last() =~= read);
        }
        if c == '.' {
            dot = Some(len);
        } else {
            dots_only = false;
        }
        len = len + 1;
    }
    proof {
        assert(name@.take(len as int) =~= name@);
        lemma_last_dot(name@);
        if dots_only && len == 2 {
            assert(name@ =~= seq!['.', '.']);
        }
    }
    match dot {
        Some(i) => {
            if i == 0 || (dots_only && len == 2) {
                None
            } else {
                let tail = name.substring_char(i + 1, len);
                Some(String::from_str(tail))
            }
        },
        None => None,
    }
}

/// The time of an entry's last change as it is reported.
pub fn format_mod_time(modified: Option<u64>) -> (r: String)
    ensures
        r@ == reported_time(modified),
{
    match modified {
        Some(secs) => {
            if secs < TIME_LIMIT {
                format_seconds(secs)
            } else {
                String::new()
            }
        },
        None => String::new(),
    }
}

/// The path of an entry as it is reported, given what the path from the
/// root to it is.
pub fn shown_path(path: String, relative: Option<String>) -> (r: String)
    ensures
        r@ == match relative {
            Some(rel) => rel@,
            None => path@,
        },
{
    match relative {
        Some(rel) => rel,
        None => path,
    }
}

/// What a listing reports of an entry whose reported path is `shown`.
///
/// An entry that the file system could not be asked about is reported as an
/// empty file of unknown age. A directory has no extension.
pub fn describe(name: String, shown: String, meta: Option<EntryMeta>) -> (r: FileInfo)
    ensures
        r@ == described(name@, shown@, meta),
{
    let is_dir: bool = match meta {
        Some(m) => m.is_dir,
        None => false,
    };
    let size: u64 = match meta {
        Some(m) => m.size,
        None => 0,
    };
    let mod_time = match meta {
        Some(m) => format_mod_time(m.modified),
        None => String::new(),
    };
    let extension = if is_dir {
        None
    } else {
        extension_of(name.as_str())
    };
    FileInfo { name, path: shown, is_dir, size, mod_time, extension }
}

/// What a listing reports of an entry of a directory below `root`.
pub fn describe_entry(entry: RawEntry, root: &str) -> (r: FileInfo)
    ensures
        r@ == described(entry.name@, reported_path(entry.path@, root@), entry.meta),
{
    let relative = diff_paths(entry.path.as_str(), root);
    let shown = shown_path(entry.path, relative);
    describe(entry.name, shown, entry.meta)
}

/// What a vector of entries holds.
pub open spec fn infos(v: Seq<FileInfo>) -> Seq<FileInfoView> {
    Seq::new(v.len(), |i: int| v[i]@)
}

/// The listing of a directory below `root`: one report for each entry, in
/// the order in which the entries were read.
pub fn list_entries(entries: Vec<RawEntry>, root: &str) -> (r: Vec<FileInfo>)
    ensures
        r@.len() == entries@.len(),
        forall|i: int|
            0 <= i < entries@.len() ==> (#[trigger] r@[i])@ == described(
                entries@[i].name@,
                reported_path(entries@[i].path@, root@),
                entries@[i].meta,
            ),
{
    let mut out: Vec<FileInfo> = Vec::new();
    let ghost all = entries@;
    for entry in it: entries
        invariant
            it.seq() == all,
            out@.len() == it.index(),
            forall|i: int|
                0 <= i < out@.len() ==> (#[trigger] out@[i])@ == described(
                    all[i].name@,
                    reported_path(all[i].path@, root@),
                    all[i].meta,
                ),
    {
        let info = describe_entry(entry, root);
        out.push(info);
    }
    out
}

} // verus!
