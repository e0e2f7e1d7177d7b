//! The components of a path, as `/`-separated paths are read on Unix, and the rules on the
//! paths that resolving a manifest meets: the directory of a set, the files that count as
//! network fragments, and whether a resolved path stays inside its root.

use vstd::prelude::*;

use crate::manifest::{is_dot, is_dot_dot, segments, split_prefix, ComposeErrorView, ComposeModelError, NetworkSet};

verus! {

/// A component of a path.
#[derive(Debug)]
pub enum PathComponent {
    /// The root `/` that an absolute path starts at.
    RootDir,
    /// A leading `.`.
    CurDir,
    /// A `..`.
    ParentDir,
    /// A file or directory name.
    Normal(String),
}

/// The mathematical form of a [`PathComponent`].
pub enum ComponentView {
    RootDir,
    CurDir,
    ParentDir,
    Normal(Seq<char>),
}

impl View for PathComponent {
    type V = ComponentView;

    open spec fn view(&self) -> ComponentView {
        match self {
            PathComponent::RootDir => ComponentView::RootDir,
            PathComponent::CurDir => ComponentView::CurDir,
            PathComponent::ParentDir => ComponentView::ParentDir,
            PathComponent::Normal(name) => ComponentView::Normal(name@),
        }
    }
}

/// The views of a sequence of components.
pub open spec fn components_view(v: Seq<PathComponent>) -> Seq<ComponentView> {
    v.map_values(|c: PathComponent| c@)
}

/// The component that a segment between separators stands for: none for an empty segment or
/// a `.`.
pub open spec fn segment_component(s: Seq<char>) -> Option<ComponentView> {
    if s.len() == 0 || is_dot(s) {
        None
    } else if is_dot_dot(s) {
        Some(ComponentView::ParentDir)
    } else {
        Some(ComponentView::Normal(s))
    }
}

/// The components that segments stand for, in order.
pub open spec fn segments_components(segs: Seq<Seq<char>>) -> Seq<ComponentView>
    decreases segs.len(),
{
    if segs.len() == 0 {
        Seq::empty()
    } else {
        let prev = segments_components(segs.drop_last());
        match segment_component(segs.last()) {
            Some(c) => prev.push(c),
            None => prev,
        }
    }
}

/// The components of a path: the root where it starts with `/`, or a current directory
/// where its first segment is `.`, then one component for each segment that is neither empty
/// nor `.`. Repeated and trailing separators, and inner `.` segments, leave no trace.
pub open spec fn path_components(v: Seq<char>) -> Seq<ComponentView> {
    let segs = segments(v);
    let head = if v.len() > 0 && v[0] == '/' {
        seq![ComponentView::RootDir]
    } else if is_dot(segs[0]) {
        seq![ComponentView::CurDir]
    } else {
        Seq::empty()
    };
    head + segments_components(segs)
}

/// Whether the components of `base` begin the components of `path`.
pub open spec fn path_starts_with(path: Seq<char>, base: Seq<char>) -> bool {
    let p = path_components(path);
    let b = path_components(base);
    b.len() <= p.len() && p.take(b.len() as int) == b
}

fn segment_to_component(s: &str) -> (r: Option<PathComponent>)
    ensures
        match r {
            Some(c) => segment_component(s@) == Some(c@),
            None => segment_component(s@) is None,
        },
{
    let n = s.unicode_len();
    if n == 0 || (n == 1 && s.get_char(0) == '.') {
        None
    } else if n == 2 && s.get_char(0) == '.' && s.get_char(1) == '.' {
        Some(PathComponent::ParentDir)
    } else {
        Some(PathComponent::Normal(String::from_str(s)))
    }
}

/// The components of a path (see [`path_components`]).
pub fn components(value: &str) -> (r: Vec<PathComponent>)
    ensures
        components_view(r@) == path_components(value@),
{
    let ghost v = value@;
    let n = value.unicode_len();
    let mut comps: Vec<PathComponent> = Vec::new();
    let mut start: usize = 0;
    let mut seen_slash = false;
    let mut first_is_dot = false;
    let mut i: usize = 0;
    proof {
        assert(components_view(comps@) =~= segments_components(split_prefix(v, 0).0));
        assert(split_prefix(v, 0).1 =~= v.subrange(0, 0));
    }
    while i < n
        invariant
            i <= n,
            n == v.len(),
            v == value@,
            start <= i,
            split_prefix(v, i as nat).1 == v.subrange(start as int, i as int),
            components_view(comps@) == segments_components(split_prefix(v, i as nat).0),
            seen_slash == (split_prefix(v, i as nat).0.len() > 0),
            seen_slash ==> first_is_dot == is_dot(split_prefix(v, i as nat).0[0]),
        decreases n - i,
    {
        let c = value.get_char(i);
        let ghost (done, cur) = split_prefix(v, i as nat);
        if c == '/' {
            let seg = value.substring_char(start, i);
            if !seen_slash {
                first_is_dot = seg.unicode_len() == 1 && seg.get_char(0) == '.';
                seen_slash = true;
            }
            let ghost prev = comps@;
            match segment_to_component(seg) {
                Some(comp) => {
                    comps.push(comp);
                    proof {
                        assert(components_view(comps@) =~= components_view(prev).push(comp@));
                    }
                },
                None => {},
            }
            start = i + 1;
            proof {
                let nd = done.push(cur);
                assert(split_prefix(v, (i + 1) as nat).0 == nd);
                assert(nd.drop_last() =~= done);
                assert(nd[0] == if done.len() > 0 { done[0] } else { cur });
                assert(split_prefix(v, (i + 1) as nat).1 =~= v.subrange(start as int, (i + 1) as int));
            }
        } else {
            proof {
                assert(split_prefix(v, (i + 1) as nat).1 =~= v.subrange(start as int, (i + 1) as int));
            }
        }
        i = i + 1;
    }
    let last = value.substring_char(start, n);
    let ghost (done, cur) = split_prefix(v, n as nat);
    let ghost before_last = comps@;
    let first_dot = if seen_slash {
        first_is_dot
    } else {
        last.unicode_len() == 1 && last.get_char(0) == '.'
    };
    match segment_to_component(last) {
        Some(comp) => {
            comps.push(comp);
            proof {
                assert(components_view(comps@) =~= components_view(before_last).push(comp@));
            }
        },
        None => {},
    }
    proof {
        let segs = done.push(cur);
        assert(segs == segments(v));
        assert(segs.drop_last() =~= done);
        assert(segs[0] == if done.len() > 0 { done[0] } else { cur });
        assert(components_view(comps@) == segments_components(segs));
    }
    let rooted = n > 0 && value.get_char(0) == '/';
    if rooted || first_dot {
        let mut full: Vec<PathComponent> = Vec::new();
        if rooted {
            full.push(PathComponent::RootDir);
        } else {
            full.push(PathComponent::CurDir);
        }
        let ghost head = components_view(full@);
        let ghost tail = components_view(comps@);
        full.append(&mut comps);
        proof {
            assert(components_view(full@) =~= head + tail);
        }
        full
    } else {
        proof {
            assert(path_components(v) =~= segments_components(segments(v)));
        }
        comps
    }
}

fn component_eq(a: &PathComponent, b: &PathComponent) -> (r: bool)
    ensures
        r == (a@ == b@),
{
    match a {
        PathComponent::RootDir => match b {
            PathComponent::RootDir => true,
            _ => false,
        },
        PathComponent::CurDir => match b {
            PathComponent::CurDir => true,
            _ => false,
        },
        PathComponent::ParentDir => match b {
            PathComponent::ParentDir => true,
            _ => false,
        },
        PathComponent::Normal(x) => match b {
            PathComponent::Normal(y) => *x == *y,
            _ => false,
        },
    }
}

/// Whether the components of `base` begin those of `path`, as `Path::starts_with` decides.
pub fn starts_with(path: &str, base: &str) -> (r: bool)
    ensures
        r == path_starts_with(path@, base@),
{
    let p = components(path);
    let b = components(base);
    let ghost pv = components_view(p@);
    let ghost bv = components_view(b@);
    if b.len() > p.len() {
        return false;
    }
    let mut i: usize = 0;
    while i < b.len()
        invariant
            i <= b.len(),
            b.len() <= p.len(),
            pv == components_view(p@),
            bv == components_view(b@),
            pv == path_components(path@),
            bv == path_components(base@),
            forall|k: int| 0 <= k < i ==> pv[k] == bv[k],
        decreases b.len() - i,
    {
        if !component_eq(&p[i], &b[i]) {
            proof {
                assert(pv.take(bv.len() as int)[i as int] != bv[i as int]);
            }
            return false;
        }
        i = i + 1;
    }
    proof {
        assert(pv.take(bv.len() as int) =~= bv);
    }
    true
}

/// The directory of a network set, relative to the root: its own, or else the set's name.
pub fn set_directory(set: &NetworkSet) -> (r: &str)
    ensures
        r@ == match set.dir {
            Some(dir) => dir@,
            None => set.name@,
        },
{
    match &set.dir {
        Some(dir) => dir.as_str(),
        None => set.name.as_str(),
    }
}

/// The field named in errors on the directory of the set `name`.
pub fn set_directory_field(name: &str) -> (r: String)
    ensures
        r@ == "network set '"@ + name@ + "' directory"@,
{
    let mut field = String::from_str("network set '");
    field.append(name);
    field.append("' directory");
    field
}

/// The field named in errors on a file of the set `name`.
pub fn set_file_field(name: &str) -> (r: String)
    ensures
        r@ == "network set '"@ + name@ + "' file"@,
{
    let mut field = String::from_str("network set '");
    field.append(name);
    field.append("' file");
    field
}

/// The field named in errors on the base model.
pub fn base_model_field() -> (r: String)
    ensures
        r@ == "base model"@,
{
    String::from_str("base model")
}

/// Whether the file name `name` has the extension `json`: it ends with `.json` after at least
/// one character.
pub open spec fn is_network_file_name_spec(name: Seq<char>) -> bool {
    name.len() > 5 && name.subrange(name.len() - 5, name.len() as int) == ".json"@
}

/// Whether a directory entry named `name` is a network fragment by its name: one with the
/// extension `json`. A name that is `.json` alone has no extension.
pub fn is_network_file_name(name: &str) -> (r: bool)
    ensures
        r == is_network_file_name_spec(name@),
{
    let n = name.unicode_len();
    if n <= 5 {
        return false;
    }
    proof {
        reveal_strlit(".json");
    }
    let ok = name.get_char(n - 5) == '.' && name.get_char(n - 4) == 'j' && name.get_char(n - 3) == 's'
        && name.get_char(n - 2) == 'o' && name.get_char(n - 1) == 'n';
    proof {
        let tail = name@.subrange(n - 5, n as int);
        if ok {
            assert(tail =~= ".json"@);
        } else {
            if tail == ".json"@ {
                assert(tail[0] == '.' && tail[1] == 'j' && tail[2] == 's' && tail[3] == 'o' && tail[4] == 'n');
            }
        }
    }
    ok
}

/// Checks that `resolved`, the canonical form of `candidate`, lies inside `root`, itself
/// canonical: its components begin with the root's. Returns the resolved path, or the error
/// naming the field, the candidate, the root and the resolved path.
pub fn check_contained(field: &str, candidate: &str, root: &str, resolved: String) -> (r: Result<
    String,
    ComposeModelError,
>)
    ensures
        match r {
            Ok(p) => path_starts_with(resolved@, root@) && p@ == resolved@,
            Err(e) => !path_starts_with(resolved@, root@) && e@ == (ComposeErrorView::PathEscapesRoot {
                field: field@,
                path: candidate@,
                root: root@,
                resolved_path: resolved@,
            }),
        },
{
    if starts_with(resolved.as_str(), root) {
        Ok(resolved)
    } else {
        Err(
            ComposeModelError::PathEscapesRoot {
                field: String::from_str(field),
                path: String::from_str(candidate),
                root: String::from_str(root),
                resolved_path: resolved,
            },
        )
    }
}

} // verus!
