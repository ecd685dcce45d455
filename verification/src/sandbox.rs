//! The path sandbox: a path that a client asks for is turned into a path
//! below a root directory, or refused.
//!
//! The sandbox never looks at the file system itself. `lookup` checks the
//! requested path as text and names the path to look up; the caller probes
//! the file system for it and hands what it found to `confine`, which checks
//! the outcome against the root, component by component.
//!
//! Paths are Unix paths: their components are separated by `/`.

use vstd::prelude::*;
use vstd::std_specs::iter::IteratorSpec;
use vstd::string::*;

verus! {

/// The character that separates the components of a path.
pub const SEPARATOR: char = '/';

/// Why a path was refused.
#[derive(Clone, Copy, Debug, PartialEq, Eq, Structural)]
pub enum SandboxError {
    /// The requested path refers to a parent directory.
    IllegalPath,
    /// The path lies outside the root.
    AccessDenied,
    /// The path could not be resolved in the file system.
    NotFound,
}

/// What the file system says of a path.
#[derive(Clone, Debug)]
pub enum Probe {
    /// Nothing exists at the path.
    Missing,
    /// Something exists at the path, and this is its canonical path.
    Canonical(String),
    /// Something exists at the path, but its canonical path cannot be had.
    Failed,
}

/// A path that lies within a root. It is made by the sandbox alone, for one
/// request, and holds the root that it was checked against.
#[derive(Debug)]
pub struct ConfinedPath {
    root: String,
    path: String,
}

/// The outcome of the lexical check of a requested path.
#[derive(Clone, Debug)]
pub enum Lookup {
    /// The request names the root itself.
    Root(ConfinedPath),
    /// The file system has to be probed for this path.
    Probe(String),
}

/// The pieces of a path between its separators, empty ones included.
pub open spec fn segments(path: Seq<char>) -> Seq<Seq<char>>
    decreases path.len(),
{
    if path.len() == 0 {
        seq![Seq::empty()]
    } else {
        let before = segments(path.drop_last());
        if path.last() == SEPARATOR {
            before.push(Seq::empty())
        } else {
            before.drop_last().push(before.last().push(path.last()))
        }
    }
}

/// Whether a segment names something: it is neither empty nor `.`.
pub open spec fn is_name(segment: Seq<char>) -> bool {
    segment.len() > 0 && segment != seq!['.']
}

/// `is_name` as a predicate.
pub open spec fn names() -> spec_fn(Seq<char>) -> bool {
    |segment: Seq<char>| is_name(segment)
}

/// The components of a path: its segments that name something.
pub open spec fn components(path: Seq<char>) -> Seq<Seq<char>> {
    segments(path).filter(names())
}

/// The component that refers to the parent directory.
pub open spec fn parent_ref() -> Seq<char> {
    seq!['.', '.']
}

/// Whether a component of the path refers to a parent directory.
pub open spec fn has_parent_ref(path: Seq<char>) -> bool {
    components(path).contains(parent_ref())
}

/// Whether the path starts at the root of the file system.
pub open spec fn is_absolute(path: Seq<char>) -> bool {
    path.len() > 0 && path[0] == SEPARATOR
}

/// Whether a request names the root directory itself: it is empty, `.` or
/// `/`.
pub open spec fn is_root_request(requested: Seq<char>) -> bool {
    requested.len() == 0 || requested == seq!['.'] || requested == seq![SEPARATOR]
}

/// `rel` seen from `base`: `rel` itself when it is absolute, else `base`,
/// a separator unless `base` is empty or ends with one, and `rel`.
pub open spec fn joined(base: Seq<char>, rel: Seq<char>) -> Seq<char> {
    if is_absolute(rel) {
        rel
    } else if base.len() == 0 || base.last() == SEPARATOR {
        base + rel
    } else {
        base + seq![SEPARATOR] + rel
    }
}

/// Whether `path` lies within `root`, component by component: both start
/// at the same place, the components of `root` begin those of `path`, and
/// none of the components that follow refers to a parent directory.
pub open spec fn is_within(root: Seq<char>, path: Seq<char>) -> bool {
    let r = components(root);
    let p = components(path);
    &&& is_absolute(root) == is_absolute(path)
    &&& r.len() <= p.len()
    &&& p.take(r.len() as int) == r
    &&& !p.skip(r.len() as int).contains(parent_ref())
}

/// What a vector of character vectors holds.
pub open spec fn views(v: Seq<Vec<char>>) -> Seq<Seq<char>> {
    Seq::new(v.len(), |i: int| v[i]@)
}

/// Whether a path is relative and its first component refers to the parent
/// directory.
pub open spec fn begins_with_parent_ref(path: Seq<char>) -> bool {
    !is_absolute(path) && components(path).len() > 0 && components(path)[0] == parent_ref()
}

/// The path that `path_clean::clean` makes of `path`.
pub uninterp spec fn cleaned(path: Seq<char>) -> Seq<char>;

/// `path_clean::clean`: the path in its shortest lexical form, which depends
/// on the text of `path` alone. References to a parent directory at the
/// beginning of a relative path are left in place, as the crate documents;
/// of the rest of the form nothing is claimed here.
#[verifier::external_body]
pub(crate) fn clean(path: &str) -> (r: String)
    ensures
        r@ == cleaned(path@),
        begins_with_parent_ref(path@) ==> begins_with_parent_ref(r@),
{
    path_clean::clean(path).to_string_lossy().into_owned()
}

/// A path always has a segment.
pub proof fn lemma_segments_len(path: Seq<char>)
    ensures
        segments(path).len() >= 1,
    decreases path.len(),
{
    if path.len() > 0 {
        lemma_segments_len(path.drop_last());
    }
}

/// The segments of two paths put together: the last segment of the first
/// path and the first segment of the second become one.
pub proof fn lemma_segments_concat(a: Seq<char>, b: Seq<char>)
    ensures
        segments(a).len() >= 1,
        segments(b).len() >= 1,
        segments(a + b) == segments(a).drop_last().push(segments(a).last() + segments(b)[0])
            + segments(b).drop_first(),
    decreases b.len(),
{
    lemma_segments_len(a);
    lemma_segments_len(b);
    let sa = segments(a);
    if b.len() == 0 {
        assert(a + b =~= a);
        assert(sa.last() + segments(b)[0] =~= sa.last());
        assert(sa.drop_last().push(sa.last()) + segments(b).drop_first() =~= sa);
    } else {
        let b0 = b.drop_last();
        lemma_segments_concat(a, b0);
        lemma_segments_len(b0);
        lemma_segments_len(a + b0);
        assert((a + b).drop_last() =~= a + b0);
        let sb0 = segments(b0);
        let sab0 = segments(a + b0);
        let glued = sa.drop_last().push(sa.last() + sb0[0]);
        assert(sab0 == glued + sb0.drop_first());
        if b.last() == SEPARATOR {
            assert(segments(b) == sb0.push(Seq::empty()));
            assert(segments(a + b) == sab0.push(Seq::empty()));
            assert(segments(b)[0] == sb0[0]);
            assert(segments(a + b) =~= glued + segments(b).drop_first());
        } else {
            let c = b.last();
            assert(segments(b) == sb0.drop_last().push(sb0.last().push(c)));
            assert(segments(a + b) == sab0.drop_last().push(sab0.last().push(c)));
            if sb0.len() == 1 {
                assert(sab0 =~= glued);
                assert(segments(b)[0] == sb0[0].push(c));
                assert(sa.last() + sb0[0].push(c) =~= (sa.last() + sb0[0]).push(c));
                assert(segments(a + b) =~= sa.drop_last().push(sa.last() + segments(b)[0])
                    + segments(b).drop_first());
            } else {
                assert(segments(b)[0] == sb0[0]);
                assert(sab0.last() == sb0.last());
                assert(segments(a + b) =~= glued + segments(b).drop_first());
            }
        }
    }
}

/// The components of `base`, a separator and `rel` are those of `base`
/// followed by those of `rel`.
pub proof fn lemma_components_of_separated(base: Seq<char>, rel: Seq<char>)
    ensures
        components(base + seq![SEPARATOR] + rel) == components(base) + components(rel),
{
    let sep = seq![SEPARATOR];
    let sb = segments(base);
    let sr = segments(rel);
    assert(segments(sep) =~= seq![Seq::<char>::empty(), Seq::<char>::empty()]) by {
        assert(segments(sep.drop_last()) =~= seq![Seq::<char>::empty()]);
    }
    lemma_segments_concat(base, sep);
    lemma_segments_concat(base + sep, rel);
    assert(segments(base + sep + rel) =~= sb + sr);
}

/// The components of `base`, which ends with a separator or is empty, and
/// `rel` are those of `base` followed by those of `rel`.
pub proof fn lemma_components_of_adjacent(base: Seq<char>, rel: Seq<char>)
    requires
        base.len() == 0 || base.last() == SEPARATOR,
    ensures
        components(base + rel) == components(base) + components(rel),
{
    let sb = segments(base);
    let sr = segments(rel);
    lemma_segments_concat(base, rel);
    assert(segments(base + rel) =~= sb.drop_last() + sr);
    assert(sb.drop_last().filter(names()) == sb.filter(names())) by {
        assert(sb.drop_last().push(sb.last()) =~= sb);
        Seq::lemma_filter_push(sb.drop_last(), sb.last(), names());
    }
}

/// A relative path without a reference to a parent directory, joined to a
/// root, lies within that root: for such a path the lexical check suffices.
pub proof fn lemma_joined_is_within(root: Seq<char>, rel: Seq<char>)
    requires
        !is_absolute(rel),
        !has_parent_ref(rel),
    ensures
        is_within(root, joined(root, rel)),
        components(joined(root, rel)) == components(root) + components(rel),
{
    let path = joined(root, rel);
    if root.len() == 0 || root.last() == SEPARATOR {
        lemma_components_of_adjacent(root, rel);
    } else {
        lemma_components_of_separated(root, rel);
    }
    let r = components(root);
    let p = components(path);
    assert(p.take(r.len() as int) =~= r);
}

/// A path without a separator is one segment.
pub proof fn lemma_segments_of_name(name: Seq<char>)
    requires
        forall|j: int| 0 <= j < name.len() ==> name[j] != SEPARATOR,
    ensures
        segments(name) == seq![name],
    decreases name.len(),
{
    if name.len() > 0 {
        let front = name.drop_last();
        lemma_segments_of_name(front);
        assert(front.push(name.last()) =~= name);
    } else {
        assert(name =~= Seq::<char>::empty());
    }
}

/// A directory next to the root whose name begins with the root's name is
/// outside the root: a path made of the root and more characters behind its
/// last component does not lie within it.
pub proof fn lemma_sibling_is_outside(root: Seq<char>, more: Seq<char>)
    requires
        more.len() > 0,
        forall|j: int| 0 <= j < more.len() ==> more[j] != SEPARATOR,
        is_name(segments(root).last()),
    ensures
        !is_within(root, root + more),
{
    lemma_segments_of_name(more);
    lemma_segments_concat(root, more);
    let sr = segments(root);
    let front = sr.drop_last();
    let last = sr.last();
    let grown = last + more;
    assert(sr =~= front.push(last));
    Seq::lemma_filter_push(front, last, names());
    Seq::lemma_filter_push(front, grown, names());
    let r = components(root);
    let p = components(root + more);
    assert(p.take(r.len() as int) =~= p);
    assert(p[r.len() - 1] == grown);
}

/// A root lies within itself.
pub proof fn lemma_root_is_within_itself(root: Seq<char>)
    ensures
        is_within(root, root),
{
    let r = components(root);
    assert(r.take(r.len() as int) =~= r);
}

/// A path within a root is a descendant of it, component by component: the
/// components of the root begin those of the path, each one whole, and the
/// path has more components than the root unless both name the same
/// directory.
pub proof fn lemma_within_is_descendant(root: Seq<char>, path: Seq<char>)
    requires
        is_within(root, path),
    ensures
        components(root).is_prefix_of(components(path)),
        forall|i: int|
            0 <= i < components(root).len() ==> components(path)[i] == components(root)[i],
        components(path) != components(root) ==> components(path).len() > components(
            root,
        ).len(),
{
    let r = components(root);
    let p = components(path);
    if p.len() == r.len() {
        assert(p.take(r.len() as int) =~= p);
    }
}

/// The components of a path and whether it is absolute.
fn scan_path(path: &str) -> (r: (bool, Vec<Vec<char>>))
    ensures
        r.0 == is_absolute(path@),
        views(r.1@) == components(path@),
{
    let mut done: Vec<Vec<char>> = Vec::new();
    let mut open: Vec<char> = Vec::new();
    let mut absolute: bool = false;
    let mut first: bool = true;
    for c in it: path.chars()
        invariant
            it.seq() == path@,
            first == (it.index() == 0),
            absolute == is_absolute(path@.take(it.index() as int)),
            segments(path@.take(it.index() as int)).len() >= 1,
            views(done@) == segments(path@.take(it.index() as int)).drop_last().filter(names()),
            open@ == segments(path@.take(it.index() as int)).last(),
    {
        let ghost read = path@.take(it.index() as int);
        let ghost next = path@.take(it.index() + 1);
        let ghost before = segments(read);
        proof {
            assert(next.drop_last() =~= read);
        }
        if first {
            absolute = c == SEPARATOR;
            first = false;
        }
        if c == SEPARATOR {
            proof {
                assert(segments(next).drop_last() =~= before);
                assert(before.drop_last().push(before.last()) =~= before);
                Seq::lemma_filter_push(before.drop_last(), before.last(), names());
            }
            if is_name_vec(&open) {
                done.push(open);
            }
            open = Vec::new();
        } else {
            open.push(c);
            proof {
                assert(segments(next).drop_last() =~= before.drop_last());
            }
        }
    }
    proof {
        assert(path@.take(path@.len() as int) =~= path@);
        let all = segments(path@);
        assert(all.drop_last().push(all.last()) =~= all);
        Seq::lemma_filter_push(all.drop_last(), all.last(), names());
    }
    if is_name_vec(&open) {
        done.push(open);
    }
    (absolute, done)
}

/// Whether a segment names something.
fn is_name_vec(segment: &Vec<char>) -> (r: bool)
    ensures
        r == is_name(segment@),
{
    if segment.len() == 0 {
        false
    } else if segment.len() == 1 && segment[0] == '.' {
        assert(segment@ =~= seq!['.']);
        false
    } else {
        true
    }
}

/// Whether a component refers to the parent directory.
fn is_parent_ref_vec(component: &Vec<char>) -> (r: bool)
    ensures
        r == (component@ == parent_ref()),
{
    if component.len() == 2 && component[0] == '.' && component[1] == '.' {
        assert(component@ =~= parent_ref());
        true
    } else {
        false
    }
}

/// Whether two components are the same.
fn same_component(a: &Vec<char>, b: &Vec<char>) -> (r: bool)
    ensures
        r == (a@ == b@),
{
    if a.len() != b.len() {
        return false;
    }
    let mut i: usize = 0;
    while i < a.len()
        invariant
            i <= a.len(),
            a.len() == b.len(),
            forall|j: int| 0 <= j < i ==> a@[j] == b@[j],
        decreases a.len() - i,
    {
        if a[i] != b[i] {
            return false;
        }
        i += 1;
    }
    assert(a@ =~= b@);
    true
}

/// Whether one of the components from index `from` on refers to a parent
/// directory.
fn any_parent_ref(parts: &Vec<Vec<char>>, from: usize) -> (r: bool)
    requires
        from <= parts@.len(),
    ensures
        r == views(parts@).skip(from as int).contains(parent_ref()),
{
    let ghost tail = views(parts@).skip(from as int);
    let mut i: usize = from;
    while i < parts.len()
        invariant
            from <= i <= parts.len(),
            tail == views(parts@).skip(from as int),
            forall|j: int| 0 <= j < i - from ==> tail[j] != parent_ref(),
        decreases parts.len() - i,
    {
        if is_parent_ref_vec(&parts[i]) {
            assert(tail[i - from] == parent_ref());
            return true;
        }
        i += 1;
    }
    false
}

/// Whether a component of `path` refers to a parent directory.
pub fn has_parent_reference(path: &str) -> (r: bool)
    ensures
        r == has_parent_ref(path@),
{
    let (_, parts) = scan_path(path);
    assert(views(parts@).skip(0) =~= views(parts@));
    any_parent_ref(&parts, 0)
}

/// Whether `path` lies within `root`, component by component.
pub fn path_is_within(root: &str, path: &str) -> (r: bool)
    ensures
        r == is_within(root@, path@),
{
    let (root_absolute, base) = scan_path(root);
    let (path_absolute, parts) = scan_path(path);
    if root_absolute != path_absolute || base.len() > parts.len() {
        return false;
    }
    let ghost r = components(root@);
    let ghost p = components(path@);
    let mut i: usize = 0;
    while i < base.len()
        invariant
            i <= base.len() <= parts.len(),
            r == components(root@),
            p == components(path@),
            r == views(base@),
            p == views(parts@),
            forall|j: int| 0 <= j < i ==> p[j] == r[j],
        decreases base.len() - i,
    {
        if !same_component(&base[i], &parts[i]) {
            assert(p.take(r.len() as int)[i as int] != r[i as int]);
            return false;
        }
        i += 1;
    }
    assert(p.take(r.len() as int) =~= r);
    !any_parent_ref(&parts, base.len())
}

/// The first and the last character of a text, when it has any.
fn ends_of(text: &str) -> (r: Option<(char, char)>)
    ensures
        text@.len() == 0 <==> r is None,
        r matches Some((first, last)) ==> first == text@[0] && last == text@.last(),
{
    let mut ends: Option<(char, char)> = None;
    for c in it: text.chars()
        invariant
            it.seq() == text@,
            it.index() == 0 <==> ends is None,
            ends matches Some((first, last)) ==> first == text@[0] && last == text@[it.index() - 1],
    {
        ends = match ends {
            None => Some((c, c)),
            Some((first, _)) => Some((first, c)),
        };
    }
    ends
}

/// `rel` seen from `base`: `rel` itself when it is absolute, else `base`, a
/// separator where `base` does not end with one, and `rel`.
pub fn join_path(base: &str, rel: &str) -> (r: String)
    ensures
        r@ == joined(base@, rel@),
{
    let absolute: bool = match ends_of(rel) {
        Some((first, _)) => first == SEPARATOR,
        None => false,
    };
    if absolute {
        return String::from_str(rel);
    }
    let needs_separator: bool = match ends_of(base) {
        Some((_, last)) => last != SEPARATOR,
        None => false,
    };
    let mut out = String::from_str(base);
    if needs_separator {
        proof {
            reveal_strlit("/");
        }
        out.append("/");
    }
    out.append(rel);
    out
}

/// Whether a request names the root directory itself.
pub fn names_root(requested: &str) -> (r: bool)
    ensures
        r == is_root_request(requested@),
{
    let mut count: u8 = 0;
    let mut only: char = SEPARATOR;
    for c in it: requested.chars()
        invariant
            it.seq() == requested@,
            count == if it.index() < 2 {
                it.index()
            } else {
                2
            },
            count == 1 ==> only == requested@[0],
    {
        if count == 0 {
            only = c;
            count = 1;
        } else {
            count = 2;
        }
    }
    if count == 0 {
        true
    } else if count == 1 && (only == '.' || only == SEPARATOR) {
        assert(requested@ =~= seq![only]);
        true
    } else {
        false
    }
}

impl ConfinedPath {
    /// The path.
    pub closed spec fn path(&self) -> Seq<char> {
        self.path@
    }

    /// The root that the path was checked against.
    pub closed spec fn root(&self) -> Seq<char> {
        self.root@
    }

    /// A confined path lies within its root.
    pub open spec fn wf(&self) -> bool {
        is_within(self.root(), self.path())
    }

    #[verifier::type_invariant]
    spec fn inv(&self) -> bool {
        is_within(self.root@, self.path@)
    }

    /// The path, which lies within the root.
    pub fn as_str(&self) -> (r: &str)
        ensures
            r@ == self.path(),
            self.wf(),
    {
        proof {
            use_type_invariant(self);
        }
        self.path.as_str()
    }

    /// The root that the path lies within.
    pub fn root_str(&self) -> (r: &str)
        ensures
            r@ == self.root(),
            self.wf(),
    {
        proof {
            use_type_invariant(self);
        }
        self.root.as_str()
    }

    /// The path, given up as a string.
    pub fn into_string(self) -> (r: String)
        ensures
            r@ == self.path(),
            self.wf(),
    {
        proof {
            use_type_invariant(&self);
        }
        self.path
    }

    /// The path of `name` in the directory that this path names.
    pub fn child(&self, name: &str) -> (r: String)
        ensures
            r@ == joined(self.path(), name@),
            self.wf(),
    {
        proof {
            use_type_invariant(self);
        }
        join_path(self.path.as_str(), name)
    }
}

impl Clone for ConfinedPath {
    fn clone(&self) -> (r: ConfinedPath)
        ensures
            r.path() == self.path(),
            r.root() == self.root(),
            r.wf(),
    {
        proof {
            use_type_invariant(self);
        }
        ConfinedPath { root: self.root.clone(), path: self.path.clone() }
    }
}

/// What the lexical check makes of a request, given the requested path in
/// its cleaned form.
pub open spec fn lookup_outcome(
    root: Seq<char>,
    requested: Seq<char>,
    clean: Seq<char>,
    r: Result<Lookup, SandboxError>,
) -> bool {
    if has_parent_ref(clean) {
        r == Err::<Lookup, SandboxError>(SandboxError::IllegalPath)
    } else if is_root_request(requested) {
        r matches Ok(Lookup::Root(p)) && p.path() == root && p.root() == root && p.wf()
    } else {
        r matches Ok(Lookup::Probe(target)) && target@ == joined(root, clean)
    }
}

/// The lexical check of a request whose cleaned form is `clean`.
///
/// A cleaned path with a reference to a parent directory is refused. A
/// request for the root itself is answered with the root. Any other request
/// gives the path to probe the file system for: the cleaned path seen from
/// the root.
pub fn lookup_cleaned(root: &str, requested: &str, clean: &str) -> (r: Result<
    Lookup,
    SandboxError,
>)
    ensures
        lookup_outcome(root@, requested@, clean@, r),
{
    if has_parent_reference(clean) {
        Err(SandboxError::IllegalPath)
    } else if names_root(requested) {
        proof {
            lemma_root_is_within_itself(root@);
        }
        Ok(Lookup::Root(ConfinedPath { root: String::from_str(root), path: String::from_str(root) }))
    } else {
        Ok(Lookup::Probe(join_path(root, clean)))
    }
}

/// The lexical check of a requested path against a root, before anything
/// is looked up in the file system.
///
/// The path is cleaned first. If its cleaned form still refers to a parent
/// directory, the request is refused here.
pub fn lookup(root: &str, requested: &str) -> (r: Result<Lookup, SandboxError>)
    ensures
        lookup_outcome(root@, requested@, cleaned(requested@), r),
        begins_with_parent_ref(requested@) ==> r == Err::<Lookup, SandboxError>(
            SandboxError::IllegalPath,
        ),
{
    let clean_path = clean(requested);
    lookup_cleaned(root, requested, clean_path.as_str())
}

/// The path that a probe stands for: the canonical path where something
/// exists, the probed path itself where nothing does.
pub open spec fn probed_path(target: Seq<char>, probe: Probe) -> Seq<char> {
    match probe {
        Probe::Canonical(p) => p@,
        _ => target,
    }
}

/// Checks what the file system says of the path `target` against the root.
///
/// Where something exists, its canonical path must lie within the root;
/// where nothing exists yet, the probed path itself must. The check is made
/// component by component, so a directory next to the root whose name
/// begins with the root's name is outside.
pub fn confine(root: &str, target: &str, probe: Probe) -> (r: Result<ConfinedPath, SandboxError>)
    ensures
        probe is Failed ==> r == Err::<ConfinedPath, SandboxError>(SandboxError::NotFound),
        probe !is Failed && is_within(root@, probed_path(target@, probe)) ==> (r matches Ok(p)
            && p.path() == probed_path(target@, probe) && p.root() == root@ && p.wf()),
        probe !is Failed && !is_within(root@, probed_path(target@, probe)) ==> r == Err::<
            ConfinedPath,
            SandboxError,
        >(SandboxError::AccessDenied),
{
    let path: String = match probe {
        Probe::Missing => String::from_str(target),
        Probe::Canonical(p) => p,
        Probe::Failed => {
            return Err(SandboxError::NotFound);
        },
    };
    if path_is_within(root, path.as_str()) {
        Ok(ConfinedPath { root: String::from_str(root), path })
    } else {
        Err(SandboxError::AccessDenied)
    }
}

} // verus!
