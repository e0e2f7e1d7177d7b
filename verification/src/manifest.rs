//! Project manifests: how a model is composed from a base model and sets of network
//! fragments, and the structural checks on a manifest.
//!
//! Reading the manifest and resolving its paths on disk happen outside this module; here stand
//! the rules that decide, from what was resolved, which errors a manifest has and which files
//! a definition includes.

use vstd::prelude::*;

use crate::text::{chars_le, lemma_chars_le_total, lemma_chars_le_transitive, str_le};

pub mod validation;
pub mod composition;
pub mod paths;
pub mod laws;

verus! {

/// The segments of the first `n` characters of a path: the finished ones, and the one being
/// read.
pub open spec fn split_prefix(v: Seq<char>, n: nat) -> (Seq<Seq<char>>, Seq<char>)
    decreases n,
{
    if n == 0 {
        (Seq::empty(), Seq::empty())
    } else {
        let (done, cur) = split_prefix(v, (n - 1) as nat);
        if v[n - 1] == '/' {
            (done.push(cur), Seq::empty())
        } else {
            (done, cur.push(v[n - 1]))
        }
    }
}

/// The segments of a path: its text split at each `/`.
pub open spec fn segments(v: Seq<char>) -> Seq<Seq<char>> {
    let (done, cur) = split_prefix(v, v.len());
    done.push(cur)
}

/// The segment `.`.
pub open spec fn is_dot(s: Seq<char>) -> bool {
    s.len() == 1 && s[0] == '.'
}

/// The segment `..`.
pub open spec fn is_dot_dot(s: Seq<char>) -> bool {
    s.len() == 2 && s[0] == '.' && s[1] == '.'
}

/// A segment that names a file or directory: neither empty, `.` nor `..`.
pub open spec fn is_normal(s: Seq<char>) -> bool {
    s.len() > 0 && !is_dot(s) && !is_dot_dot(s)
}

/// The number of segments that name a file or directory.
pub open spec fn count_normal(segs: Seq<Seq<char>>) -> nat
    decreases segs.len(),
{
    if segs.len() == 0 {
        0
    } else {
        count_normal(segs.drop_last()) + if is_normal(segs.last()) {
            1nat
        } else {
            0nat
        }
    }
}

/// Some segment is `..`.
pub open spec fn has_dot_dot(segs: Seq<Seq<char>>) -> bool {
    exists|i: int| 0 <= i < segs.len() && is_dot_dot(#[trigger] segs[i])
}

/// Every component of the path names a file or directory: the path does not start at the
/// root (`/`) or at the current directory (a first segment `.`), and has no `..`. Empty and
/// inner `.` segments are no components.
pub open spec fn all_components_normal(v: Seq<char>) -> bool {
    let segs = segments(v);
    &&& segs[0].len() > 0
    &&& !is_dot(segs[0])
    &&& !has_dot_dot(segs)
}

/// A non-empty relative path without backslashes whose every component names a file or
/// directory.
pub open spec fn is_strict_relative_path(v: Seq<char>) -> bool {
    &&& v.len() > 0
    &&& !v.contains('\\')
    &&& all_components_normal(v)
}

/// A path without backslashes that has exactly one component, which names a file.
pub open spec fn is_filename_spec(v: Seq<char>) -> bool {
    &&& !v.contains('\\')
    &&& all_components_normal(v)
    &&& count_normal(segments(v)) == 1
}

/// What one pass over a path finds.
struct PathScan {
    has_backslash: bool,
    first_normal: bool,
    has_dot_dot: bool,
    normal_count: usize,
}

fn is_dot_chars(s: &Vec<char>) -> (r: bool)
    ensures
        r == is_dot(s@),
{
    s.len() == 1 && s[0] == '.'
}

fn is_dot_dot_chars(s: &Vec<char>) -> (r: bool)
    ensures
        r == is_dot_dot(s@),
{
    s.len() == 2 && s[0] == '.' && s[1] == '.'
}

fn is_normal_chars(s: &Vec<char>) -> (r: bool)
    ensures
        r == is_normal(s@),
{
    s.len() > 0 && !is_dot_chars(s) && !is_dot_dot_chars(s)
}

fn scan_path(value: &str) -> (r: PathScan)
    ensures
        r.has_backslash == value@.contains('\\'),
        r.first_normal == (segments(value@)[0].len() > 0 && !is_dot(segments(value@)[0])),
        r.has_dot_dot == has_dot_dot(segments(value@)),
        r.normal_count == count_normal(segments(value@)),
{
    let ghost v = value@;
    let n = value.unicode_len();
    let mut cur: Vec<char> = Vec::new();
    let mut done_count: usize = 0;
    let mut first_normal = false;
    let mut first_set = false;
    let mut dot_dot = false;
    let mut normal_count: usize = 0;
    let mut backslash = false;
    let mut i: usize = 0;
    while i < n
        invariant
            i <= n,
            n == v.len(),
            v == value@,
            cur@ == split_prefix(v, i as nat).1,
            done_count == split_prefix(v, i as nat).0.len(),
            first_set == (done_count > 0),
            first_set ==> first_normal == (split_prefix(v, i as nat).0[0].len() > 0 && !is_dot(
                split_prefix(v, i as nat).0[0],
            )),
            dot_dot == has_dot_dot(split_prefix(v, i as nat).0),
            normal_count == count_normal(split_prefix(v, i as nat).0),
            normal_count <= done_count,
            done_count + cur@.len() <= i,
            backslash == v.take(i as int).contains('\\'),
        decreases n - i,
    {
        let c = value.get_char(i);
        let ghost (done, prev_cur) = split_prefix(v, i as nat);
        proof {
            assert(v.take(i + 1) =~= v.take(i as int).push(c));
        }
        if c == '\\' {
            backslash = true;
        }
        if c == '/' {
            if !first_set {
                first_normal = cur.len() > 0 && !is_dot_chars(&cur);
                first_set = true;
            }
            if is_dot_dot_chars(&cur) {
                dot_dot = true;
            }
            if is_normal_chars(&cur) {
                normal_count = normal_count + 1;
            }
            done_count = done_count + 1;
            cur = Vec::new();
            proof {
                let nd = done.push(prev_cur);
                assert(split_prefix(v, (i + 1) as nat).0 == nd);
                assert(nd.drop_last() =~= done);
                assert(nd[0] == if done.len() > 0 { done[0] } else { prev_cur });
                if has_dot_dot(nd) {
                    let j = choose|j: int| 0 <= j < nd.len() && is_dot_dot(#[trigger] nd[j]);
                    if j < done.len() {
                        assert(nd[j] == done[j]);
                    }
                }
                if dot_dot && has_dot_dot(done) {
                    let j = choose|j: int| 0 <= j < done.len() && is_dot_dot(#[trigger] done[j]);
                    assert(nd[j] == done[j]);
                }
                if is_dot_dot(prev_cur) {
                    assert(nd[done.len() as int] == prev_cur);
                }
                assert(cur@ =~= Seq::<char>::empty());
            }
        } else {
            cur.push(c);
        }
        proof {
            if backslash {
                if c == '\\' {
                    assert(v.take(i + 1)[i as int] == c);
                }
            }
            if v.take(i + 1).contains('\\') && c != '\\' {
                let t = v.take(i + 1);
                let j = choose|j: int| 0 <= j < t.len() && #[trigger] t[j] == '\\';
                assert(v.take(i as int)[j] == '\\');
            }
        }
        i = i + 1;
    }
    proof {
        assert(v.take(n as int) =~= v);
        let (done, last) = split_prefix(v, n as nat);
        let segs = done.push(last);
        assert(segs == segments(v));
        assert(segs.drop_last() =~= done);
        assert(segs[0] == if done.len() > 0 { done[0] } else { last });
        if has_dot_dot(segs) {
            let j = choose|j: int| 0 <= j < segs.len() && is_dot_dot(#[trigger] segs[j]);
            if j < done.len() {
                assert(segs[j] == done[j]);
            }
        }
        if has_dot_dot(done) {
            let j = choose|j: int| 0 <= j < done.len() && is_dot_dot(#[trigger] done[j]);
            assert(segs[j] == done[j]);
        }
        if is_dot_dot(last) {
            assert(segs[done.len() as int] == last);
        }
    }
    let last_normal = is_normal_chars(&cur);
    let last_dot_dot = is_dot_dot_chars(&cur);
    let first = if first_set {
        first_normal
    } else {
        cur.len() > 0 && !is_dot_chars(&cur)
    };
    PathScan {
        has_backslash: backslash,
        first_normal: first,
        has_dot_dot: dot_dot || last_dot_dot,
        normal_count: if last_normal {
            normal_count + 1
        } else {
            normal_count
        },
    }
}

/// Whether `value` is a single file name: a path with exactly one component, which names a
/// file, and no backslash.
pub fn is_filename(value: &str) -> (r: bool)
    ensures
        r == is_filename_spec(value@),
{
    let scan = scan_path(value);
    !scan.has_backslash && scan.first_normal && !scan.has_dot_dot && scan.normal_count == 1
}


/// The result of a strict relative path check: the path, or the field that held it and the
/// offending text.
pub fn strict_relative_path(field: &str, value: &str) -> (r: Result<String, ComposeModelError>)
    ensures
        match r {
            Ok(p) => is_strict_relative_path(value@) && p@ == value@,
            Err(e) => !is_strict_relative_path(value@) && e@ == ComposeErrorView::InvalidRelativePath {
                field: field@,
                path: value@,
            },
        },
{
    let scan = scan_path(value);
    let empty = value.unicode_len() == 0;
    if empty || scan.has_backslash || !scan.first_normal || scan.has_dot_dot {
        return Err(
            ComposeModelError::InvalidRelativePath {
                field: String::from_str(field),
                path: String::from_str(value),
            },
        );
    }
    Ok(String::from_str(value))
}

/// A network set of a manifest: a directory of network fragments and how many of them a
/// definition may select.
#[derive(Debug)]
pub struct NetworkSet {
    pub name: String,
    /// Directory containing network fragments (relative to root); the set's name by default.
    pub dir: Option<String>,
    /// Minimum number of files required from this set (inclusive).
    pub min_files: Option<usize>,
    /// Maximum number of files allowed from this set (inclusive).
    pub max_files: Option<usize>,
}

/// The files a definition selects from one network set.
#[derive(Debug)]
pub struct DefinitionSelection {
    /// Name of the network set.
    pub set: String,
    /// Specific filenames to select from the set directory.
    pub files: Option<Vec<String>>,
    /// If true, select every JSON file of the set directory, whatever `files` says.
    pub include_all: Option<bool>,
}

/// A named definition: a model made of the base model and selections from network sets.
#[derive(Debug)]
pub struct Definition {
    pub name: String,
    /// Per-network-set selections for this definition.
    pub includes: Vec<DefinitionSelection>,
    /// Optional overrides to base model: its time and scenario settings, as JSON text, which
    /// composition carries to the composed model unread.
    pub overrides: Option<String>,
}

/// The characters of an optional text.
pub open spec fn text_of(t: Option<String>) -> Option<Seq<char>> {
    match t {
        Some(s) => Some(s@),
        None => None,
    }
}

/// A project manifest: a base model, named sets of network fragments and named definitions.
#[derive(Debug)]
pub struct ProjectManifest {
    /// Path (relative to root) to the base model.
    pub base_model: String,
    /// Named sets of network fragments.
    pub network_sets: Vec<NetworkSet>,
    /// Multiple named definitions (scenarios).
    pub definitions: Vec<Definition>,
}

/// A file of a network set found on disk: its name and its resolved path.
#[derive(Debug)]
pub struct ResolvedNetworkFile {
    pub name: String,
    pub path: String,
}

/// A network set with the files found in its directory, in order of name.
#[derive(Debug)]
pub struct ResolvedNetworkSet {
    pub name: String,
    pub min_files: Option<usize>,
    pub max_files: Option<usize>,
    pub files: Vec<ResolvedNetworkFile>,
}

/// Whether the files are in order of name.
pub open spec fn sorted_by_name(files: Seq<ResolvedNetworkFile>) -> bool {
    forall|i: int, j: int| 0 <= i < j < files.len() ==> chars_le(#[trigger] files[i].name@, #[trigger] files[j].name@)
}

/// Sorts files by name, in the order of their characters; files of equal names keep their
/// order.
pub fn sort_files_by_name(files: Vec<ResolvedNetworkFile>) -> (r: Vec<ResolvedNetworkFile>)
    ensures
        r@.to_multiset() == files@.to_multiset(),
        sorted_by_name(r@),
{
    broadcast use vstd::multiset::group_multiset_axioms;

    let mut rest = files;
    let mut out: Vec<ResolvedNetworkFile> = Vec::new();
    proof {
        vstd::seq_lib::to_multiset_len(out@);
        vstd::multiset::lemma_multiset_empty_len(out@.to_multiset());
        assert(out@.to_multiset().add(rest@.to_multiset()) =~= files@.to_multiset());
    }
    while rest.len() > 0
        invariant
            out@.to_multiset().add(rest@.to_multiset()) == files@.to_multiset(),
            sorted_by_name(out@),
        decreases rest.len(),
    {
        let ghost before = rest@;
        let x = rest.pop().unwrap();
        proof {
            assert(before =~= rest@.push(x));
        }
        let mut p: usize = 0;
        while p < out.len() && !str_le(x.name.as_str(), out[p].name.as_str())
            invariant
                p <= out.len(),
                forall|k: int| 0 <= k < p ==> !chars_le(x.name@, #[trigger] out@[k].name@),
            decreases out.len() - p,
        {
            p = p + 1;
        }
        let ghost old_out = out@;
        out.insert(p, x);
        proof {
            let n = out@;
            assert forall|k: int| 0 <= k < p implies chars_le(#[trigger] old_out[k].name@, x.name@) by {
                lemma_chars_le_total(x.name@, old_out[k].name@);
            }
            assert forall|k: int| p <= k < old_out.len() implies chars_le(x.name@, #[trigger] old_out[k].name@) by {
                if k > p {
                    assert(chars_le(old_out[p as int].name@, old_out[k].name@));
                    lemma_chars_le_transitive(x.name@, old_out[p as int].name@, old_out[k].name@);
                }
            }
            assert forall|i: int, j: int| 0 <= i < j < n.len() implies chars_le(
                #[trigger] n[i].name@,
                #[trigger] n[j].name@,
            ) by {
                if j < p {
                    assert(n[i] == old_out[i] && n[j] == old_out[j]);
                } else if j == p {
                    assert(n[i] == old_out[i]);
                } else if i < p {
                    assert(n[i] == old_out[i] && n[j] == old_out[j - 1]);
                    if p < old_out.len() {
                        assert(chars_le(old_out[i].name@, x.name@));
                        assert(chars_le(x.name@, old_out[j - 1].name@));
                        lemma_chars_le_transitive(old_out[i].name@, x.name@, old_out[j - 1].name@);
                    }
                } else if i == p {
                    assert(n[j] == old_out[j - 1]);
                } else {
                    assert(n[i] == old_out[i - 1] && n[j] == old_out[j - 1]);
                }
            }
            assert(out@ == old_out.insert(p as int, x));
            vstd::seq_lib::to_multiset_insert(old_out, p as int, x);
            vstd::seq_lib::to_multiset_build(rest@, x);
            assert(out@.to_multiset().add(rest@.to_multiset()) =~= files@.to_multiset());
        }
    }
    proof {
        vstd::seq_lib::to_multiset_len(rest@);
        vstd::multiset::lemma_multiset_empty_len(rest@.to_multiset());
        assert(out@.to_multiset() =~= out@.to_multiset().add(rest@.to_multiset()));
    }
    out
}

impl ResolvedNetworkSet {
    /// The network set `set` with the files found in its directory, put in order of name.
    pub fn new(set: &NetworkSet, files: Vec<ResolvedNetworkFile>) -> (r: ResolvedNetworkSet)
        ensures
            r.name@ == set.name@,
            r.min_files == set.min_files,
            r.max_files == set.max_files,
            r.files@.to_multiset() == files@.to_multiset(),
            sorted_by_name(r.files@),
    {
        ResolvedNetworkSet {
            name: set.name.clone(),
            min_files: set.min_files,
            max_files: set.max_files,
            files: sort_files_by_name(files),
        }
    }
}

/// Errors that a manifest's validation reports.
#[derive(Debug)]
pub enum ProjectManifestValidationError {
    DuplicateNetworkSet { set: String, count: usize },
    DuplicateDefinition { definition: String, count: usize },
    DuplicateSet { definition: String, set: String, count: usize },
    SetNotFound { definition: String, set: String },
    FileNotFound { definition: String, set: String, file: String },
    DuplicateFile { definition: String, set: String, file: String },
    InvalidFilePath { definition: String, set: String, file: String },
    MinFilesNotMet { definition: String, set: String, min_files: usize, actual_files: usize },
    MaxFilesExceeded { definition: String, set: String, max_files: usize, actual_files: usize },
    InvalidFileConstraints { set: String, min_files: usize, max_files: usize },
    BaseModelNotFound { path: String },
    BaseModelNotAFile { path: String },
    DirectoryNotFound { set: String, dir: String },
    NotADirectory { set: String, dir: String },
    InvalidRelativePath { field: String, path: String },
    PathEscapesRoot { field: String, path: String, root: String, resolved_path: String },
    DirectoryRead { set: String, dir: String, error: String },
}

/// The mathematical form of a [`ProjectManifestValidationError`].
pub enum ValidationErrorView {
    DuplicateNetworkSet { set: Seq<char>, count: usize },
    DuplicateDefinition { definition: Seq<char>, count: usize },
    DuplicateSet { definition: Seq<char>, set: Seq<char>, count: usize },
    SetNotFound { definition: Seq<char>, set: Seq<char> },
    FileNotFound { definition: Seq<char>, set: Seq<char>, file: Seq<char> },
    DuplicateFile { definition: Seq<char>, set: Seq<char>, file: Seq<char> },
    InvalidFilePath { definition: Seq<char>, set: Seq<char>, file: Seq<char> },
    MinFilesNotMet { definition: Seq<char>, set: Seq<char>, min_files: usize, actual_files: usize },
    MaxFilesExceeded { definition: Seq<char>, set: Seq<char>, max_files: usize, actual_files: usize },
    InvalidFileConstraints { set: Seq<char>, min_files: usize, max_files: usize },
    BaseModelNotFound { path: Seq<char> },
    BaseModelNotAFile { path: Seq<char> },
    DirectoryNotFound { set: Seq<char>, dir: Seq<char> },
    NotADirectory { set: Seq<char>, dir: Seq<char> },
    InvalidRelativePath { field: Seq<char>, path: Seq<char> },
    PathEscapesRoot { field: Seq<char>, path: Seq<char>, root: Seq<char>, resolved_path: Seq<char> },
    DirectoryRead { set: Seq<char>, dir: Seq<char>, error: Seq<char> },
}

impl View for ProjectManifestValidationError {
    type V = ValidationErrorView;

    open spec fn view(&self) -> ValidationErrorView {
        match self {
            ProjectManifestValidationError::DuplicateNetworkSet { set, count } => ValidationErrorView::DuplicateNetworkSet {
                set: set@,
                count: *count,
            },
            ProjectManifestValidationError::DuplicateDefinition { definition, count } =>
                ValidationErrorView::DuplicateDefinition { definition: definition@, count: *count },
            ProjectManifestValidationError::DuplicateSet { definition, set, count } => ValidationErrorView::DuplicateSet {
                definition: definition@,
                set: set@,
                count: *count,
            },
            ProjectManifestValidationError::SetNotFound { definition, set } => ValidationErrorView::SetNotFound {
                definition: definition@,
                set: set@,
            },
            ProjectManifestValidationError::FileNotFound { definition, set, file } => ValidationErrorView::FileNotFound {
                definition: definition@,
                set: set@,
                file: file@,
            },
            ProjectManifestValidationError::DuplicateFile { definition, set, file } => ValidationErrorView::DuplicateFile {
                definition: definition@,
                set: set@,
                file: file@,
            },
            ProjectManifestValidationError::InvalidFilePath { definition, set, file } =>
                ValidationErrorView::InvalidFilePath { definition: definition@, set: set@, file: file@ },
            ProjectManifestValidationError::MinFilesNotMet { definition, set, min_files, actual_files } =>
                ValidationErrorView::MinFilesNotMet {
                definition: definition@,
                set: set@,
                min_files: *min_files,
                actual_files: *actual_files,
            },
            ProjectManifestValidationError::MaxFilesExceeded { definition, set, max_files, actual_files } =>
                ValidationErrorView::MaxFilesExceeded {
                definition: definition@,
                set: set@,
                max_files: *max_files,
                actual_files: *actual_files,
            },
            ProjectManifestValidationError::InvalidFileConstraints { set, min_files, max_files } =>
                ValidationErrorView::InvalidFileConstraints {
                set: set@,
                min_files: *min_files,
                max_files: *max_files,
            },
            ProjectManifestValidationError::BaseModelNotFound { path } => ValidationErrorView::BaseModelNotFound {
                path: path@,
            },
            ProjectManifestValidationError::BaseModelNotAFile { path } => ValidationErrorView::BaseModelNotAFile {
                path: path@,
            },
            ProjectManifestValidationError::DirectoryNotFound { set, dir } => ValidationErrorView::DirectoryNotFound {
                set: set@,
                dir: dir@,
            },
            ProjectManifestValidationError::NotADirectory { set, dir } => ValidationErrorView::NotADirectory {
                set: set@,
                dir: dir@,
            },
            ProjectManifestValidationError::InvalidRelativePath { field, path } =>
                ValidationErrorView::InvalidRelativePath { field: field@, path: path@ },
            ProjectManifestValidationError::PathEscapesRoot { field, path, root, resolved_path } =>
                ValidationErrorView::PathEscapesRoot {
                field: field@,
                path: path@,
                root: root@,
                resolved_path: resolved_path@,
            },
            ProjectManifestValidationError::DirectoryRead { set, dir, error } => ValidationErrorView::DirectoryRead {
                set: set@,
                dir: dir@,
                error: error@,
            },
        }
    }
}

/// Errors raised while composing a model from a manifest.
#[derive(Debug)]
pub enum ComposeModelError {
    DefinitionNotFound { definition: String },
    SetNotFound { set: String },
    DuplicateNetworkSet { set: String },
    DuplicateDefinition { definition: String },
    DuplicateSelection { set: String },
    InvalidFileConstraints { set: String, min_files: usize, max_files: usize },
    MinFilesNotMet { set: String, min_files: usize, actual_files: usize },
    MaxFilesExceeded { set: String, max_files: usize, actual_files: usize },
    InvalidRelativePath { field: String, path: String },
    PathEscapesRoot { field: String, path: String, root: String, resolved_path: String },
    BaseModelNotFound { path: String },
    BaseModelNotAFile { path: String },
    DirectoryNotFound { set: String, path: String },
    NotADirectory { set: String, path: String },
    DirectoryRead { set: String, path: String, source: String },
    FileNotFound { set: String, file: String },
    DuplicateFile { set: String, file: String },
}

/// The mathematical form of a [`ComposeModelError`].
pub enum ComposeErrorView {
    DefinitionNotFound { definition: Seq<char> },
    SetNotFound { set: Seq<char> },
    DuplicateNetworkSet { set: Seq<char> },
    DuplicateDefinition { definition: Seq<char> },
    DuplicateSelection { set: Seq<char> },
    InvalidFileConstraints { set: Seq<char>, min_files: usize, max_files: usize },
    MinFilesNotMet { set: Seq<char>, min_files: usize, actual_files: usize },
    MaxFilesExceeded { set: Seq<char>, max_files: usize, actual_files: usize },
    InvalidRelativePath { field: Seq<char>, path: Seq<char> },
    PathEscapesRoot { field: Seq<char>, path: Seq<char>, root: Seq<char>, resolved_path: Seq<char> },
    BaseModelNotFound { path: Seq<char> },
    BaseModelNotAFile { path: Seq<char> },
    DirectoryNotFound { set: Seq<char>, path: Seq<char> },
    NotADirectory { set: Seq<char>, path: Seq<char> },
    DirectoryRead { set: Seq<char>, path: Seq<char>, source: Seq<char> },
    FileNotFound { set: Seq<char>, file: Seq<char> },
    DuplicateFile { set: Seq<char>, file: Seq<char> },
}

impl View for ComposeModelError {
    type V = ComposeErrorView;

    open spec fn view(&self) -> ComposeErrorView {
        match self {
            ComposeModelError::DefinitionNotFound { definition } => ComposeErrorView::DefinitionNotFound {
                definition: definition@,
            },
            ComposeModelError::SetNotFound { set } => ComposeErrorView::SetNotFound { set: set@ },
            ComposeModelError::DuplicateNetworkSet { set } => ComposeErrorView::DuplicateNetworkSet { set: set@ },
            ComposeModelError::DuplicateDefinition { definition } => ComposeErrorView::DuplicateDefinition {
                definition: definition@,
            },
            ComposeModelError::DuplicateSelection { set } => ComposeErrorView::DuplicateSelection { set: set@ },
            ComposeModelError::InvalidFileConstraints { set, min_files, max_files } =>
                ComposeErrorView::InvalidFileConstraints { set: set@, min_files: *min_files, max_files: *max_files },
            ComposeModelError::MinFilesNotMet { set, min_files, actual_files } => ComposeErrorView::MinFilesNotMet {
                set: set@,
                min_files: *min_files,
                actual_files: *actual_files,
            },
            ComposeModelError::MaxFilesExceeded { set, max_files, actual_files } => ComposeErrorView::MaxFilesExceeded {
                set: set@,
                max_files: *max_files,
                actual_files: *actual_files,
            },
            ComposeModelError::InvalidRelativePath { field, path } => ComposeErrorView::InvalidRelativePath {
                field: field@,
                path: path@,
            },
            ComposeModelError::PathEscapesRoot { field, path, root, resolved_path } =>
                ComposeErrorView::PathEscapesRoot {
                field: field@,
                path: path@,
                root: root@,
                resolved_path: resolved_path@,
            },
            ComposeModelError::BaseModelNotFound { path } => ComposeErrorView::BaseModelNotFound { path: path@ },
            ComposeModelError::BaseModelNotAFile { path } => ComposeErrorView::BaseModelNotAFile { path: path@ },
            ComposeModelError::DirectoryNotFound { set, path } => ComposeErrorView::DirectoryNotFound {
                set: set@,
                path: path@,
            },
            ComposeModelError::NotADirectory { set, path } => ComposeErrorView::NotADirectory {
                set: set@,
                path: path@,
            },
            ComposeModelError::DirectoryRead { set, path, source } => ComposeErrorView::DirectoryRead {
                set: set@,
                path: path@,
                source: source@,
            },
            ComposeModelError::FileNotFound { set, file } => ComposeErrorView::FileNotFound {
                set: set@,
                file: file@,
            },
            ComposeModelError::DuplicateFile { set, file } => ComposeErrorView::DuplicateFile {
                set: set@,
                file: file@,
            },
        }
    }
}

/// The errors that resolving a path on disk can raise: these are reported by validation too.
pub open spec fn is_resolution_error(e: ComposeErrorView) -> bool {
    match e {
        ComposeErrorView::InvalidRelativePath { .. } => true,
        ComposeErrorView::PathEscapesRoot { .. } => true,
        ComposeErrorView::BaseModelNotFound { .. } => true,
        ComposeErrorView::BaseModelNotAFile { .. } => true,
        ComposeErrorView::DirectoryNotFound { .. } => true,
        ComposeErrorView::NotADirectory { .. } => true,
        ComposeErrorView::DirectoryRead { .. } => true,
        _ => false,
    }
}

/// The validation error that reports a resolution error.
pub open spec fn resolution_error_view(e: ComposeErrorView) -> ValidationErrorView
    recommends
        is_resolution_error(e),
{
    match e {
        ComposeErrorView::InvalidRelativePath { field, path } => ValidationErrorView::InvalidRelativePath {
            field,
            path,
        },
        ComposeErrorView::PathEscapesRoot { field, path, root, resolved_path } =>
            ValidationErrorView::PathEscapesRoot { field, path, root, resolved_path },
        ComposeErrorView::BaseModelNotFound { path } => ValidationErrorView::BaseModelNotFound { path },
        ComposeErrorView::BaseModelNotAFile { path } => ValidationErrorView::BaseModelNotAFile { path },
        ComposeErrorView::DirectoryNotFound { set, path } => ValidationErrorView::DirectoryNotFound {
            set,
            dir: path,
        },
        ComposeErrorView::NotADirectory { set, path } => ValidationErrorView::NotADirectory { set, dir: path },
        ComposeErrorView::DirectoryRead { set, path, source } => ValidationErrorView::DirectoryRead {
            set,
            dir: path,
            error: source,
        },
        _ => vstd::pervasive::arbitrary(),
    }
}

impl ComposeModelError {
    /// Whether this is an error of resolving a path on disk.
    pub fn is_resolution_error(&self) -> (r: bool)
        ensures
            r == is_resolution_error(self@),
    {
        match self {
            ComposeModelError::InvalidRelativePath { .. } => true,
            ComposeModelError::PathEscapesRoot { .. } => true,
            ComposeModelError::BaseModelNotFound { .. } => true,
            ComposeModelError::BaseModelNotAFile { .. } => true,
            ComposeModelError::DirectoryNotFound { .. } => true,
            ComposeModelError::NotADirectory { .. } => true,
            ComposeModelError::DirectoryRead { .. } => true,
            _ => false,
        }
    }

    /// The validation error that reports this resolution error.
    pub fn into_validation_error(self) -> (r: ProjectManifestValidationError)
        requires
            is_resolution_error(self@),
        ensures
            r@ == resolution_error_view(self@),
    {
        match self {
            ComposeModelError::InvalidRelativePath { field, path } =>
                ProjectManifestValidationError::InvalidRelativePath { field, path },
            ComposeModelError::PathEscapesRoot { field, path, root, resolved_path } =>
                ProjectManifestValidationError::PathEscapesRoot { field, path, root, resolved_path },
            ComposeModelError::BaseModelNotFound { path } => ProjectManifestValidationError::BaseModelNotFound {
                path,
            },
            ComposeModelError::BaseModelNotAFile { path } => ProjectManifestValidationError::BaseModelNotAFile {
                path,
            },
            ComposeModelError::DirectoryNotFound { set, path } => ProjectManifestValidationError::DirectoryNotFound {
                set,
                dir: path,
            },
            ComposeModelError::NotADirectory { set, path } => ProjectManifestValidationError::NotADirectory {
                set,
                dir: path,
            },
            ComposeModelError::DirectoryRead { set, path, source } =>
                ProjectManifestValidationError::DirectoryRead { set, dir: path, error: source },
            other => {
                proof {
                    assert(!is_resolution_error(other@));
                }
                ProjectManifestValidationError::InvalidRelativePath { field: String::new(), path: String::new() }
            },
        }
    }
}

/// Errors raised while validating one definition of a manifest.
#[derive(Debug)]
pub enum ValidationError {
    DefinitionNotFound { definition: String },
}

/// The report of a manifest's validation.
#[derive(Debug)]
pub struct ProjectManifestValidationReport {
    pub errors: Vec<ProjectManifestValidationError>,
}

impl ProjectManifestValidationReport {
    /// A manifest is valid when its validation found no error.
    pub fn is_valid(&self) -> (r: bool)
        ensures
            r == (self.errors@.len() == 0),
    {
        self.errors.len() == 0
    }
}


/// The views of a sequence of validation errors.
pub open spec fn errors_view(v: Seq<ProjectManifestValidationError>) -> Seq<ValidationErrorView> {
    v.map_values(|e: ProjectManifestValidationError| e@)
}

/// The number of times `x` occurs in `names`.
pub open spec fn count_of(names: Seq<Seq<char>>, x: Seq<char>) -> nat
    decreases names.len(),
{
    if names.len() == 0 {
        0
    } else {
        count_of(names.drop_last(), x) + if names.last() == x {
            1nat
        } else {
            0nat
        }
    }
}

/// The names among the first `m` that occur more than once in `names`, each with its count,
/// listed once in order of first occurrence.
pub open spec fn duplicate_names(names: Seq<Seq<char>>, m: nat) -> Seq<(Seq<char>, nat)>
    decreases m,
{
    if m == 0 {
        Seq::empty()
    } else {
        let prev = duplicate_names(names, (m - 1) as nat);
        let x = names[m - 1];
        if !names.take(m - 1).contains(x) && count_of(names, x) > 1 {
            prev.push((x, count_of(names, x)))
        } else {
            prev
        }
    }
}

/// The first position among the first `m` whose name occurred before it.
pub open spec fn first_repeat(names: Seq<Seq<char>>, m: nat) -> Option<int>
    decreases m,
{
    if m == 0 {
        None
    } else {
        match first_repeat(names, (m - 1) as nat) {
            Some(j) => Some(j),
            None => if names.take(m - 1).contains(names[m - 1]) {
                Some(m - 1)
            } else {
                None
            },
        }
    }
}

/// Which kind of named item a duplicate is.
#[derive(Debug)]
pub enum NameKind {
    NetworkSet,
    Definition,
    /// The network sets selected by the named definition.
    Selection { definition: String },
}

/// The validation error for a duplicated name.
pub open spec fn duplicate_error(kind: NameKind, name: Seq<char>, count: nat) -> ValidationErrorView {
    match kind {
        NameKind::NetworkSet => ValidationErrorView::DuplicateNetworkSet { set: name, count: count as usize },
        NameKind::Definition => ValidationErrorView::DuplicateDefinition {
            definition: name,
            count: count as usize,
        },
        NameKind::Selection { definition } => ValidationErrorView::DuplicateSet {
            definition: definition@,
            set: name,
            count: count as usize,
        },
    }
}

/// The composition error for a duplicated name.
pub open spec fn duplicate_compose_error(kind: NameKind, name: Seq<char>) -> ComposeErrorView {
    match kind {
        NameKind::NetworkSet => ComposeErrorView::DuplicateNetworkSet { set: name },
        NameKind::Definition => ComposeErrorView::DuplicateDefinition { definition: name },
        NameKind::Selection { .. } => ComposeErrorView::DuplicateSelection { set: name },
    }
}

/// The views of a vector of names.
pub open spec fn names_view(v: Seq<String>) -> Seq<Seq<char>> {
    v.map_values(|s: String| s@)
}

proof fn lemma_count_bound(names: Seq<Seq<char>>, x: Seq<char>)
    ensures
        count_of(names, x) <= names.len(),
    decreases names.len(),
{
    if names.len() > 0 {
        lemma_count_bound(names.drop_last(), x);
    }
}

fn count_name(names: &Vec<String>, x: &String) -> (r: usize)
    ensures
        r == count_of(names_view(names@), x@),
{
    let ghost nv = names_view(names@);
    let mut c: usize = 0;
    let mut i: usize = 0;
    while i < names.len()
        invariant
            i <= names.len(),
            nv == names_view(names@),
            c == count_of(nv.take(i as int), x@),
            c <= i,
        decreases names.len() - i,
    {
        proof {
            assert(nv.take(i + 1).drop_last() =~= nv.take(i as int));
            assert(nv.take(i + 1).last() == names@[i as int]@);
        }
        if names[i] == *x {
            c = c + 1;
        }
        i = i + 1;
    }
    proof {
        assert(nv.take(names.len() as int) =~= nv);
    }
    c
}

pub(crate) fn occurs_before(names: &Vec<String>, i: usize) -> (r: bool)
    requires
        i < names@.len(),
    ensures
        r == names_view(names@).take(i as int).contains(names@[i as int]@),
{
    let ghost nv = names_view(names@);
    let mut j: usize = 0;
    while j < i
        invariant
            j <= i,
            i < names@.len(),
            nv == names_view(names@),
            forall|k: int| 0 <= k < j ==> nv[k] != nv[i as int],
        decreases i - j,
    {
        if names[j] == names[i] {
            proof {
                assert(nv.take(i as int)[j as int] == nv[i as int]);
            }
            return true;
        }
        j = j + 1;
    }
    proof {
        if nv.take(i as int).contains(nv[i as int]) {
            let k = choose|k: int| 0 <= k < i && nv.take(i as int)[k] == nv[i as int];
            assert(nv[k] != nv[i as int]);
        }
    }
    false
}

fn duplicate_validation_error(kind: &NameKind, name: String, count: usize) -> (e: ProjectManifestValidationError)
    ensures
        e@ == duplicate_error(*kind, name@, count as nat),
{
    match kind {
        NameKind::NetworkSet => ProjectManifestValidationError::DuplicateNetworkSet { set: name, count },
        NameKind::Definition => ProjectManifestValidationError::DuplicateDefinition { definition: name, count },
        NameKind::Selection { definition } => ProjectManifestValidationError::DuplicateSet {
            definition: definition.clone(),
            set: name,
            count,
        },
    }
}

/// Appends an error for each name that occurs more than once, with its count, in order of
/// first occurrence.
pub fn add_duplicate_errors(names: &Vec<String>, kind: &NameKind, errors: &mut Vec<ProjectManifestValidationError>)
    ensures
        errors_view(final(errors)@) == errors_view(old(errors)@) + duplicate_names(
            names_view(names@),
            names@.len(),
        ).map_values(|d: (Seq<char>, nat)| duplicate_error(*kind, d.0, d.1)),
{
    let ghost nv = names_view(names@);
    let ghost start = errors_view(errors@);
    let mut i: usize = 0;
    while i < names.len()
        invariant
            i <= names.len(),
            nv == names_view(names@),
            errors_view(errors@) == start + duplicate_names(nv, i as nat).map_values(
                |d: (Seq<char>, nat)| duplicate_error(*kind, d.0, d.1),
            ),
        decreases names.len() - i,
    {
        let first = !occurs_before(names, i);
        let ghost prev = errors@;
        let ghost f = |d: (Seq<char>, nat)| duplicate_error(*kind, d.0, d.1);
        let ghost prev_dups = duplicate_names(nv, i as nat);
        proof {
            assert(nv[i as int] == names@[i as int]@);
        }
        if first {
            let c = count_name(names, &names[i]);
            if c > 1 {
                let e = duplicate_validation_error(kind, names[i].clone(), c);
                errors.push(e);
                proof {
                    assert(duplicate_names(nv, (i + 1) as nat) == prev_dups.push((nv[i as int], c as nat)));
                    assert(prev_dups.push((nv[i as int], c as nat)).map_values(f) =~= prev_dups.map_values(f).push(
                        e@,
                    ));
                    assert(errors_view(errors@) =~= errors_view(prev).push(e@));
                }
            } else {
                proof {
                    assert(duplicate_names(nv, (i + 1) as nat) == prev_dups);
                }
            }
        } else {
            proof {
                assert(duplicate_names(nv, (i + 1) as nat) == prev_dups);
            }
        }
        proof {
            assert(errors_view(errors@) =~= start + duplicate_names(nv, (i + 1) as nat).map_values(f));
        }
        i = i + 1;
    }
}

/// Fails with the duplicate error for the first name that occurs a second time.
pub fn ensure_unique(names: &Vec<String>, kind: &NameKind) -> (r: Result<(), ComposeModelError>)
    ensures
        match first_repeat(names_view(names@), names@.len()) {
            Some(j) => r matches Err(e) && e@ == duplicate_compose_error(*kind, names_view(names@)[j]),
            None => r is Ok,
        },
{
    let ghost nv = names_view(names@);
    let mut i: usize = 0;
    while i < names.len()
        invariant
            i <= names.len(),
            nv == names_view(names@),
            first_repeat(nv, i as nat) is None,
        decreases names.len() - i,
    {
        if occurs_before(names, i) {
            proof {
                lemma_first_repeat_stays(nv, (i + 1) as nat, names@.len());
            }
            let name = names[i].clone();
            return Err(
                match kind {
                    NameKind::NetworkSet => ComposeModelError::DuplicateNetworkSet { set: name },
                    NameKind::Definition => ComposeModelError::DuplicateDefinition { definition: name },
                    NameKind::Selection { .. } => ComposeModelError::DuplicateSelection { set: name },
                },
            );
        }
        i = i + 1;
    }
    Ok(())
}

proof fn lemma_first_repeat_stays(names: Seq<Seq<char>>, m: nat, n: nat)
    requires
        m <= n,
        first_repeat(names, m) is Some,
    ensures
        first_repeat(names, n) == first_repeat(names, m),
    decreases n - m,
{
    if m < n {
        lemma_first_repeat_stays(names, m, (n - 1) as nat);
    }
}


/// The names of network sets.
pub open spec fn set_names(sets: Seq<NetworkSet>) -> Seq<Seq<char>> {
    sets.map_values(|s: NetworkSet| s.name@)
}

/// The names of definitions.
pub open spec fn definition_names(defs: Seq<Definition>) -> Seq<Seq<char>> {
    defs.map_values(|d: Definition| d.name@)
}

/// The errors for the first `m` sets whose minimum number of files exceeds their maximum.
pub open spec fn constraint_errors(sets: Seq<NetworkSet>, m: nat) -> Seq<ValidationErrorView>
    decreases m,
{
    if m == 0 {
        Seq::empty()
    } else {
        let prev = constraint_errors(sets, (m - 1) as nat);
        let set = sets[m - 1];
        match (set.min_files, set.max_files) {
            (Some(min_files), Some(max_files)) if min_files > max_files => prev.push(
                ValidationErrorView::InvalidFileConstraints { set: set.name@, min_files, max_files },
            ),
            _ => prev,
        }
    }
}

/// The errors that a manifest has by itself: duplicate set names, duplicate definition names,
/// and sets whose minimum exceeds their maximum.
pub open spec fn manifest_errors_spec(m: ProjectManifest) -> Seq<ValidationErrorView> {
    duplicate_names(set_names(m.network_sets@), m.network_sets@.len()).map_values(
        |d: (Seq<char>, nat)| duplicate_error(NameKind::NetworkSet, d.0, d.1),
    ) + duplicate_names(definition_names(m.definitions@), m.definitions@.len()).map_values(
        |d: (Seq<char>, nat)| duplicate_error(NameKind::Definition, d.0, d.1),
    ) + constraint_errors(m.network_sets@, m.network_sets@.len())
}

/// The errors for a definition that selects `count` files from a set: fewer than its minimum,
/// then more than its maximum.
pub open spec fn count_errors(definition: Seq<char>, set: ResolvedNetworkSet, count: nat) -> Seq<
    ValidationErrorView,
> {
    (match set.min_files {
        Some(min_files) if count < min_files => seq![
            ValidationErrorView::MinFilesNotMet {
                definition,
                set: set.name@,
                min_files,
                actual_files: count as usize,
            },
        ],
        _ => Seq::empty(),
    }) + (match set.max_files {
        Some(max_files) if count > max_files => seq![
            ValidationErrorView::MaxFilesExceeded {
                definition,
                set: set.name@,
                max_files,
                actual_files: count as usize,
            },
        ],
        _ => Seq::empty(),
    })
}

pub(crate) fn copy_string_vec_of_sets(sets: &Vec<NetworkSet>) -> (r: Vec<String>)
    ensures
        names_view(r@) == set_names(sets@),
{
    let mut r: Vec<String> = Vec::new();
    let mut i: usize = 0;
    while i < sets.len()
        invariant
            i <= sets.len(),
            names_view(r@) =~= set_names(sets@).take(i as int),
        decreases sets.len() - i,
    {
        let ghost prev = r@;
        r.push(sets[i].name.clone());
        proof {
            assert(names_view(r@) =~= names_view(prev).push(sets@[i as int].name@));
            assert(set_names(sets@).take(i + 1) =~= set_names(sets@).take(i as int).push(sets@[i as int].name@));
        }
        i = i + 1;
    }
    proof {
        assert(set_names(sets@).take(sets.len() as int) =~= set_names(sets@));
    }
    r
}

pub(crate) fn copy_string_vec_of_definitions(defs: &Vec<Definition>) -> (r: Vec<String>)
    ensures
        names_view(r@) == definition_names(defs@),
{
    let mut r: Vec<String> = Vec::new();
    let mut i: usize = 0;
    while i < defs.len()
        invariant
            i <= defs.len(),
            names_view(r@) =~= definition_names(defs@).take(i as int),
        decreases defs.len() - i,
    {
        let ghost prev = r@;
        r.push(defs[i].name.clone());
        proof {
            assert(names_view(r@) =~= names_view(prev).push(defs@[i as int].name@));
            assert(definition_names(defs@).take(i + 1) =~= definition_names(defs@).take(i as int).push(
                defs@[i as int].name@,
            ));
        }
        i = i + 1;
    }
    proof {
        assert(definition_names(defs@).take(defs.len() as int) =~= definition_names(defs@));
    }
    r
}

impl ProjectManifest {
    /// The errors that the manifest has by itself, whatever is on disk.
    pub fn manifest_errors(&self) -> (r: Vec<ProjectManifestValidationError>)
        ensures
            errors_view(r@) == manifest_errors_spec(*self),
    {
        let mut errors: Vec<ProjectManifestValidationError> = Vec::new();
        proof {
            assert(errors_view(errors@) =~= Seq::<ValidationErrorView>::empty());
        }
        let set_names_vec = copy_string_vec_of_sets(&self.network_sets);
        add_duplicate_errors(&set_names_vec, &NameKind::NetworkSet, &mut errors);
        let def_names_vec = copy_string_vec_of_definitions(&self.definitions);
        add_duplicate_errors(&def_names_vec, &NameKind::Definition, &mut errors);
        let ghost base = errors_view(errors@);
        let mut i: usize = 0;
        proof {
            assert(base + constraint_errors(self.network_sets@, 0) =~= base);
        }
        while i < self.network_sets.len()
            invariant
                i <= self.network_sets.len(),
                errors_view(errors@) == base + constraint_errors(self.network_sets@, i as nat),
            decreases self.network_sets.len() - i,
        {
            let set = &self.network_sets[i];
            let ghost prev = errors@;
            match (set.min_files, set.max_files) {
                (Some(min_files), Some(max_files)) => {
                    if min_files > max_files {
                        let e = ProjectManifestValidationError::InvalidFileConstraints {
                            set: set.name.clone(),
                            min_files,
                            max_files,
                        };
                        errors.push(e);
                        proof {
                            assert(errors_view(errors@) =~= errors_view(prev).push(e@));
                        }
                    }
                },
                _ => {},
            }
            proof {
                assert(errors_view(errors@) =~= base + constraint_errors(self.network_sets@, (i + 1) as nat));
            }
            i = i + 1;
        }
        proof {
            let a = duplicate_names(set_names(self.network_sets@), self.network_sets@.len()).map_values(
                |d: (Seq<char>, nat)| duplicate_error(NameKind::NetworkSet, d.0, d.1),
            );
            let b = duplicate_names(definition_names(self.definitions@), self.definitions@.len()).map_values(
                |d: (Seq<char>, nat)| duplicate_error(NameKind::Definition, d.0, d.1),
            );
            assert(set_names_vec@.len() == self.network_sets@.len());
            assert(def_names_vec@.len() == self.definitions@.len());
            assert(errors_view(errors@) =~= a + b + constraint_errors(
                self.network_sets@,
                self.network_sets@.len(),
            ));
        }
        errors
    }
}

/// Appends the errors for a definition that selects `count` files from `set`: fewer than its
/// minimum, then more than its maximum.
pub fn validate_constraints(
    definition: &String,
    set: &ResolvedNetworkSet,
    count: usize,
    errors: &mut Vec<ProjectManifestValidationError>,
)
    ensures
        errors_view(final(errors)@) == errors_view(old(errors)@) + count_errors(definition@, *set, count as nat),
{
    let ghost start = errors_view(errors@);
    if let Some(min_files) = set.min_files {
        if count < min_files {
            let e = ProjectManifestValidationError::MinFilesNotMet {
                definition: definition.clone(),
                set: set.name.clone(),
                min_files,
                actual_files: count,
            };
            errors.push(e);
        }
    }
    let ghost mid = errors@;
    if let Some(max_files) = set.max_files {
        if count > max_files {
            let e = ProjectManifestValidationError::MaxFilesExceeded {
                definition: definition.clone(),
                set: set.name.clone(),
                max_files,
                actual_files: count,
            };
            errors.push(e);
            proof {
                assert(errors_view(errors@) =~= errors_view(mid).push(e@));
            }
        }
    }
    proof {
        assert(errors_view(errors@) =~= start + count_errors(definition@, *set, count as nat));
    }
}

} // verus!
