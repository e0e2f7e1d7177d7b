//! What holds between validation and composition: a definition composes exactly when the
//! validation of its model reports nothing.

use vstd::prelude::*;

use crate::manifest::composition::{
    compose_definition, compose_manifest, compose_selection, compose_selection_step, compose_selections,
    compose_set, composition_definition_spec, first_failure, found_sets, omitted_set_error,
};
use crate::manifest::validation::{
    base_model_errors, definition_errors, find_definition, first_index, kept_sets,
    lemma_first_index_contains, missing_set_errors, model_validation_errors, resolution_errors,
    resolved_names, selection_outcome, selection_sets, selection_step,
    set_errors, sets_errors,
};
use crate::manifest::{
    constraint_errors, count_errors, count_of, definition_names, duplicate_error, duplicate_names,
    first_repeat, manifest_errors_spec, set_names, ComposeModelError, Definition,
    DefinitionSelection, NameKind, NetworkSet, ProjectManifest, ResolvedNetworkSet,
};

verus! {

/// No name occurs twice.
pub open spec fn distinct(names: Seq<Seq<char>>) -> bool {
    forall|i: int, j: int| 0 <= i < j < names.len() ==> names[i] != names[j]
}

proof fn lemma_first_repeat_none(names: Seq<Seq<char>>, m: nat)
    requires
        m <= names.len(),
    ensures
        first_repeat(names, m) is None <==> distinct(names.take(m as int)),
    decreases m,
{
    if m > 0 {
        lemma_first_repeat_none(names, (m - 1) as nat);
        let t = names.take(m as int);
        let p = names.take(m - 1);
        assert(p =~= t.take(m - 1));
        if distinct(t) {
            assert forall|i: int, j: int| 0 <= i < j < p.len() implies p[i] != p[j] by {
                assert(t[i] == p[i] && t[j] == p[j]);
            }
            if p.contains(names[m - 1]) {
                let k = choose|k: int| 0 <= k < p.len() && p[k] == names[m - 1];
                assert(t[k] == t[m - 1]);
            }
        }
        if first_repeat(names, m) is None {
            assert forall|i: int, j: int| 0 <= i < j < t.len() implies t[i] != t[j] by {
                if j < m - 1 {
                    assert(p[i] == t[i] && p[j] == t[j]);
                } else {
                    assert(p[i] == t[i]);
                    assert(t[j] == names[m - 1]);
                    if t[i] == t[j] {
                        assert(p.contains(names[m - 1]));
                    }
                }
            }
        }
    }
}

proof fn lemma_count_absent(names: Seq<Seq<char>>, x: Seq<char>)
    requires
        !names.contains(x),
    ensures
        count_of(names, x) == 0,
    decreases names.len(),
{
    if names.len() > 0 {
        let d = names.drop_last();
        if d.contains(x) {
            let k = choose|k: int| 0 <= k < d.len() && d[k] == x;
            assert(names[k] == x);
        }
        lemma_count_absent(d, x);
    }
}

proof fn lemma_count_distinct(names: Seq<Seq<char>>, x: Seq<char>)
    requires
        distinct(names),
    ensures
        count_of(names, x) <= 1,
    decreases names.len(),
{
    if names.len() > 0 {
        let d = names.drop_last();
        assert forall|i: int, j: int| 0 <= i < j < d.len() implies d[i] != d[j] by {
            assert(d[i] == names[i] && d[j] == names[j]);
        }
        lemma_count_distinct(d, x);
        if names.last() == x {
            if d.contains(x) {
                let k = choose|k: int| 0 <= k < d.len() && d[k] == x;
                assert(names[k] == names[names.len() - 1]);
            }
            lemma_count_absent(d, x);
        }
    }
}

proof fn lemma_count_two(names: Seq<Seq<char>>, i: int, j: int)
    requires
        0 <= i < j < names.len(),
        names[i] == names[j],
    ensures
        count_of(names, names[i]) >= 2,
    decreases names.len(),
{
    let x = names[i];
    let d = names.drop_last();
    if j < names.len() - 1 {
        assert(d[i] == x && d[j] == x);
        lemma_count_two(d, i, j);
    } else {
        assert(d[i] == x);
        lemma_count_present(d, i);
    }
}

proof fn lemma_count_present(names: Seq<Seq<char>>, i: int)
    requires
        0 <= i < names.len(),
    ensures
        count_of(names, names[i]) >= 1,
    decreases names.len(),
{
    let d = names.drop_last();
    if i < names.len() - 1 {
        assert(d[i] == names[i]);
        lemma_count_present(d, i);
    }
}

proof fn lemma_duplicates_prefix(names: Seq<Seq<char>>, m: nat)
    requires
        m <= names.len(),
    ensures
        duplicate_names(names, m).len() == 0 <==> forall|i: int|
            0 <= i < m ==> (!names.take(i).contains(#[trigger] names[i]) ==> count_of(names, names[i]) <= 1),
    decreases m,
{
    if m > 0 {
        lemma_duplicates_prefix(names, (m - 1) as nat);
        let x = names[m - 1];
        let prev = duplicate_names(names, (m - 1) as nat);
        if !names.take(m - 1).contains(x) && count_of(names, x) > 1 {
            assert(duplicate_names(names, m) == prev.push((x, count_of(names, x))));
        } else {
            assert(duplicate_names(names, m) == prev);
            if forall|i: int|
                0 <= i < m - 1 ==> (!names.take(i).contains(#[trigger] names[i]) ==> count_of(names, names[i]) <= 1) {
                assert forall|i: int| 0 <= i < m implies (!names.take(i).contains(#[trigger] names[i]) ==> count_of(
                    names,
                    names[i],
                ) <= 1) by {
                    if i < m - 1 {
                        assert(!names.take(i).contains(names[i]) ==> count_of(names, names[i]) <= 1);
                    }
                }
            }
        }
    }
}

/// A list of names has no duplicates to report exactly when no name occurs twice in it.
pub proof fn lemma_no_duplicates(names: Seq<Seq<char>>)
    ensures
        duplicate_names(names, names.len()).len() == 0 <==> distinct(names),
        first_repeat(names, names.len()) is None <==> distinct(names),
{
    lemma_first_repeat_none(names, names.len());
    assert(names.take(names.len() as int) =~= names);
    lemma_duplicates_prefix(names, names.len());
    if distinct(names) {
        assert forall|i: int| 0 <= i < names.len() && !names.take(i).contains(#[trigger] names[i]) implies count_of(
            names,
            names[i],
        ) <= 1 by {
            lemma_count_distinct(names, names[i]);
        }
    }
    if duplicate_names(names, names.len()).len() == 0 && !distinct(names) {
        let (i, j) = choose|i: int, j: int| 0 <= i < j < names.len() && names[i] == names[j];
        let f = first_occurrence(names, i);
        assert(names[f] == names[i]);
        if f < i {
            lemma_count_two(names, f, i);
        } else {
            lemma_count_two(names, i, j);
        }
        assert(!names.take(f).contains(names[f]));
    }
}

/// The position of the first occurrence of `names[i]`.
proof fn first_occurrence(names: Seq<Seq<char>>, i: int) -> (f: int)
    requires
        0 <= i < names.len(),
    ensures
        0 <= f <= i,
        names[f] == names[i],
        !names.take(f).contains(names[f]),
    decreases i,
{
    if names.take(i).contains(names[i]) {
        let k = choose|k: int| 0 <= k < i && names.take(i)[k] == names[i];
        assert(names[k] == names[i]);
        first_occurrence(names, k)
    } else {
        i
    }
}

proof fn lemma_selection_steps_agree(
    definition: Seq<char>,
    set_name: Seq<char>,
    available: Seq<Seq<char>>,
    wanted: Seq<Seq<char>>,
    m: nat,
)
    requires
        m <= wanted.len(),
    ensures
        compose_selection_step(set_name, available, wanted, m) is Ok <==> selection_step(
            definition,
            set_name,
            available,
            wanted,
            m,
        ).1.len() == 0,
        compose_selection_step(set_name, available, wanted, m) matches Ok(p) ==> p == selection_step(
            definition,
            set_name,
            available,
            wanted,
            m,
        ).0,
    decreases m,
{
    if m > 0 {
        lemma_selection_steps_agree(definition, set_name, available, wanted, (m - 1) as nat);
    }
}

/// Composition accepts a selection from a set exactly when validation finds no error in it,
/// and then both select the same files.
proof fn lemma_selection_agrees(definition: Seq<char>, selection: DefinitionSelection, set: ResolvedNetworkSet)
    ensures
        compose_selection(selection, set) is Ok <==> selection_outcome(definition, selection, set).1.len() == 0,
        compose_selection(selection, set) matches Ok(p) ==> p == selection_outcome(definition, selection, set).0,
{
    let wanted = crate::manifest::validation::wanted_files(selection);
    lemma_selection_steps_agree(
        definition,
        set.name@,
        crate::manifest::validation::file_names(set.files@),
        wanted,
        wanted.len(),
    );
}

proof fn lemma_no_earlier(names: Seq<Seq<char>>)
    ensures
        (forall|i: int| 0 <= i < names.len() ==> !names.take(i).contains(#[trigger] names[i])) <==> distinct(names),
{
    if distinct(names) {
        assert forall|i: int| 0 <= i < names.len() implies !names.take(i).contains(#[trigger] names[i]) by {
            if names.take(i).contains(names[i]) {
                let k = choose|k: int| 0 <= k < i && names.take(i)[k] == names[i];
                assert(names[k] == names[i]);
            }
        }
    }
    if forall|i: int| 0 <= i < names.len() ==> !names.take(i).contains(#[trigger] names[i]) {
        assert forall|i: int, j: int| 0 <= i < j < names.len() implies names[i] != names[j] by {
            assert(!names.take(j).contains(names[j]));
            if names[i] == names[j] {
                assert(names.take(j)[i] == names[j]);
            }
        }
    }
}

proof fn lemma_distinct_first_index(names: Seq<Seq<char>>, i: int)
    requires
        distinct(names),
        0 <= i < names.len(),
    ensures
        first_index(names, names[i], names.len()) == Some(i),
{
    lemma_first_index_contains(names, names[i], names.len());
    assert(names.take(names.len() as int)[i] == names[i]);
}

/// Selection `i` of a definition composes: it selects a set that no selection before it
/// selected, that set was found, and its files compose.
pub open spec fn selection_composes(definition: Definition, sets: Seq<ResolvedNetworkSet>, i: int) -> bool {
    let names = selection_sets(definition.includes@);
    &&& !names.take(i).contains(names[i])
    &&& first_index(resolved_names(sets), names[i], sets.len()) matches Some(k)
    &&& compose_set(definition.includes@[i], sets[k]) is Ok
}

proof fn lemma_compose_selections(definition: Definition, sets: Seq<ResolvedNetworkSet>, n: nat)
    requires
        n <= definition.includes@.len(),
    ensures
        compose_selections(definition, sets, n) is Ok <==> forall|i: int|
            0 <= i < n ==> #[trigger] selection_composes(definition, sets, i),
    decreases n,
{
    if n > 0 {
        lemma_compose_selections(definition, sets, (n - 1) as nat);
        let names = selection_sets(definition.includes@);
        assert(names[n - 1] == definition.includes@[n - 1].set@);
        if compose_selections(definition, sets, n) is Ok {
            assert forall|i: int| 0 <= i < n implies #[trigger] selection_composes(definition, sets, i) by {
                if i < n - 1 {
                    assert(selection_composes(definition, sets, i));
                }
            }
        }
        if forall|i: int| 0 <= i < n ==> #[trigger] selection_composes(definition, sets, i) {
            assert(selection_composes(definition, sets, n - 1));
            assert forall|i: int| 0 <= i < n - 1 implies #[trigger] selection_composes(definition, sets, i) by {
                assert(selection_composes(definition, sets, i));
            }
        }
    }
}

/// A set that the definition does not select asks for no file.
pub open spec fn omission_ok(definition: Definition, set: ResolvedNetworkSet) -> bool {
    selection_sets(definition.includes@).contains(set.name@) || !(set.min_files matches Some(x) && x > 0)
}

proof fn lemma_omitted(definition: Definition, sets: Seq<ResolvedNetworkSet>, n: nat)
    requires
        n <= sets.len(),
    ensures
        omitted_set_error(definition, sets, n) is None <==> forall|k: int|
            0 <= k < n ==> #[trigger] omission_ok(definition, sets[k]),
    decreases n,
{
    if n > 0 {
        lemma_omitted(definition, sets, (n - 1) as nat);
        if omitted_set_error(definition, sets, n) is None {
            assert(omitted_set_error(definition, sets, (n - 1) as nat) is None);
            assert forall|k: int| 0 <= k < n implies #[trigger] omission_ok(definition, sets[k]) by {
                if k < n - 1 {
                    assert(omission_ok(definition, sets[k]));
                }
            }
        }
        if forall|k: int| 0 <= k < n ==> #[trigger] omission_ok(definition, sets[k]) {
            assert(omission_ok(definition, sets[n - 1]));
            assert forall|k: int| 0 <= k < n - 1 implies #[trigger] omission_ok(definition, sets[k]) by {
                assert(omission_ok(definition, sets[k]));
            }
        }
    }
}

proof fn lemma_sets_errors(definition: Definition, sets: Seq<ResolvedNetworkSet>, n: nat)
    requires
        n <= sets.len(),
    ensures
        sets_errors(definition, sets, n).len() == 0 <==> forall|k: int|
            0 <= k < n ==> (#[trigger] set_errors(definition, sets[k])).len() == 0,
    decreases n,
{
    if n > 0 {
        lemma_sets_errors(definition, sets, (n - 1) as nat);
    }
}

proof fn lemma_missing(definition: Definition, sets: Seq<ResolvedNetworkSet>, n: nat)
    requires
        n <= definition.includes@.len(),
    ensures
        missing_set_errors(definition, sets, n).len() == 0 <==> forall|i: int|
            0 <= i < n ==> resolved_names(sets).contains(#[trigger] selection_sets(definition.includes@)[i]),
    decreases n,
{
    if n > 0 {
        lemma_missing(definition, sets, (n - 1) as nat);
        assert(selection_sets(definition.includes@)[n - 1] == definition.includes@[n - 1].set@);
    }
}

/// A set's minimum number of files is no more than its maximum.
pub open spec fn bounds_ok(min_files: Option<usize>, max_files: Option<usize>) -> bool {
    !(min_files matches Some(lo) && max_files matches Some(hi) && lo > hi)
}

proof fn lemma_set_agrees(definition: Seq<char>, selection: DefinitionSelection, set: ResolvedNetworkSet)
    ensures
        compose_set(selection, set) is Ok <==> bounds_ok(set.min_files, set.max_files) && (selection_outcome(
            definition,
            selection,
            set,
        ).1 + count_errors(definition, set, selection_outcome(definition, selection, set).0.len())).len() == 0,
{
    lemma_selection_agrees(definition, selection, set);
}

proof fn lemma_definition_errors_empty(definition: Definition, sets: Seq<ResolvedNetworkSet>)
    ensures
        definition_errors(definition, sets).len() == 0 <==> {
            &&& distinct(selection_sets(definition.includes@))
            &&& sets_errors(definition, sets, sets.len()).len() == 0
            &&& missing_set_errors(definition, sets, definition.includes@.len()).len() == 0
        },
{
    let names = selection_sets(definition.includes@);
    lemma_no_duplicates(names);
    let dups = duplicate_names(names, names.len()).map_values(
        |d: (Seq<char>, nat)| duplicate_error(NameKind::Selection { definition: definition.name }, d.0, d.1),
    );
    assert(dups.len() == duplicate_names(names, names.len()).len());
    assert(names.len() == definition.includes@.len());
}

/// The errors of a definition for a set that no selection names are those of a count of zero.
proof fn lemma_unselected_set(definition: Definition, set: ResolvedNetworkSet)
    requires
        !selection_sets(definition.includes@).contains(set.name@),
    ensures
        set_errors(definition, set) == count_errors(definition.name@, set, 0),
        set_errors(definition, set).len() == 0 <==> !(set.min_files matches Some(x) && x > 0),
{
    let names = selection_sets(definition.includes@);
    lemma_first_index_contains(names, set.name@, names.len());
    assert(names.take(names.len() as int) =~= names);
}

/// The errors of a definition for a set that its selection `i` names, alone in naming it.
proof fn lemma_selected_set(definition: Definition, set: ResolvedNetworkSet, i: int)
    requires
        distinct(selection_sets(definition.includes@)),
        0 <= i < definition.includes@.len(),
        selection_sets(definition.includes@)[i] == set.name@,
    ensures
        set_errors(definition, set) == selection_outcome(definition.name@, definition.includes@[i], set).1
            + count_errors(
            definition.name@,
            set,
            selection_outcome(definition.name@, definition.includes@[i], set).0.len(),
        ),
{
    lemma_distinct_first_index(selection_sets(definition.includes@), i);
}

/// Composition of a definition against sets of distinct names succeeds exactly when
/// validation finds no error in the definition and no set asks for more files at least than
/// it allows at most.
proof fn lemma_definition_agrees(definition: Definition, base_model: Seq<char>, sets: Seq<ResolvedNetworkSet>)
    requires
        distinct(resolved_names(sets)),
    ensures
        compose_definition(definition, base_model, sets) is Ok <==> definition_errors(definition, sets).len() == 0
            && forall|k: int| 0 <= k < sets.len() ==> bounds_ok(#[trigger] sets[k].min_files, sets[k].max_files),
{
    let sels = definition.includes@;
    let sn = selection_sets(sels);
    let rn = resolved_names(sets);
    let n = sels.len();
    let m = sets.len();
    lemma_definition_errors_empty(definition, sets);
    lemma_sets_errors(definition, sets, m);
    lemma_missing(definition, sets, n);
    lemma_compose_selections(definition, sets, n);
    lemma_omitted(definition, sets, m);
    lemma_no_earlier(sn);
    assert(sn.len() == n);
    assert(rn.len() == m);
    assert(rn.take(m as int) =~= rn);
    assert(sn.take(n as int) =~= sn);
    if compose_definition(definition, base_model, sets) is Ok {
        assert(compose_selections(definition, sets, n) is Ok);
        assert(omitted_set_error(definition, sets, m) is None);
        assert forall|i: int| 0 <= i < n implies !sn.take(i).contains(#[trigger] sn[i]) by {
            assert(selection_composes(definition, sets, i));
        }
        assert forall|i: int| 0 <= i < n implies rn.contains(#[trigger] sn[i]) by {
            assert(selection_composes(definition, sets, i));
            lemma_first_index_contains(rn, sn[i], m);
        }
        assert forall|k: int| 0 <= k < m implies (#[trigger] set_errors(definition, sets[k])).len() == 0 && bounds_ok(
            sets[k].min_files,
            sets[k].max_files,
        ) by {
            assert(rn[k] == sets[k].name@);
            assert(omission_ok(definition, sets[k]));
            if sn.contains(rn[k]) {
                let i = choose|i: int| 0 <= i < n && sn[i] == rn[k];
                assert(selection_composes(definition, sets, i));
                lemma_distinct_first_index(rn, k);
                lemma_selected_set(definition, sets[k], i);
                lemma_set_agrees(definition.name@, sels[i], sets[k]);
            } else {
                lemma_unselected_set(definition, sets[k]);
            }
        }
        assert forall|k: int| 0 <= k < m implies bounds_ok(#[trigger] sets[k].min_files, sets[k].max_files) by {
            assert(set_errors(definition, sets[k]).len() == 0);
        }
        assert(distinct(sn));
        assert(sets_errors(definition, sets, m).len() == 0);
        assert(missing_set_errors(definition, sets, n).len() == 0);
        assert(definition_errors(definition, sets).len() == 0);
    }
    if definition_errors(definition, sets).len() == 0 && forall|k: int|
        0 <= k < m ==> bounds_ok(#[trigger] sets[k].min_files, sets[k].max_files) {
        assert forall|i: int| 0 <= i < n implies #[trigger] selection_composes(definition, sets, i) by {
            assert(rn.contains(sn[i]));
            lemma_first_index_contains(rn, sn[i], m);
            let k = first_index(rn, sn[i], m)->Some_0;
            assert(rn[k] == sets[k].name@);
            assert(set_errors(definition, sets[k]).len() == 0);
            assert(bounds_ok(sets[k].min_files, sets[k].max_files));
            lemma_selected_set(definition, sets[k], i);
            lemma_set_agrees(definition.name@, sels[i], sets[k]);
        }
        assert forall|k: int| 0 <= k < m implies #[trigger] omission_ok(definition, sets[k]) by {
            assert(rn[k] == sets[k].name@);
            if !sn.contains(rn[k]) {
                assert(set_errors(definition, sets[k]).len() == 0);
                lemma_unselected_set(definition, sets[k]);
            }
        }
        assert(compose_selections(definition, sets, n) is Ok);
        assert(omitted_set_error(definition, sets, m) is None);
    }
}

proof fn lemma_resolutions_found(resolved: Seq<Result<ResolvedNetworkSet, ComposeModelError>>, n: nat)
    requires
        n <= resolved.len(),
    ensures
        resolution_errors(resolved, n).len() == 0 <==> forall|i: int| 0 <= i < n ==> #[trigger] resolved[i] is Ok,
        first_failure(resolved, n) is None <==> forall|i: int| 0 <= i < n ==> #[trigger] resolved[i] is Ok,
        (forall|i: int| 0 <= i < n ==> #[trigger] resolved[i] is Ok) ==> found_sets(resolved, n).len() == n
            && forall|i: int| 0 <= i < n ==> #[trigger] found_sets(resolved, n)[i] == resolved[i]->Ok_0,
    decreases n,
{
    if n > 0 {
        lemma_resolutions_found(resolved, (n - 1) as nat);
        if forall|i: int| 0 <= i < n ==> #[trigger] resolved[i] is Ok {
            assert forall|i: int| 0 <= i < n - 1 implies #[trigger] resolved[i] is Ok by {
                assert(resolved[i] is Ok);
            }
            let prev = found_sets(resolved, (n - 1) as nat);
            assert forall|i: int| 0 <= i < n implies #[trigger] found_sets(resolved, n)[i] == resolved[i]->Ok_0 by {
                if i < n - 1 {
                    assert(prev[i] == resolved[i]->Ok_0);
                }
            }
        }
        if resolution_errors(resolved, n).len() == 0 || first_failure(resolved, n) is None {
            assert(resolved[n - 1] is Ok);
            assert forall|i: int| 0 <= i < n implies #[trigger] resolved[i] is Ok by {
                if i < n - 1 {
                    assert(resolved[i] is Ok);
                }
            }
        }
    }
}

proof fn lemma_constraints(sets: Seq<NetworkSet>, n: nat)
    requires
        n <= sets.len(),
    ensures
        constraint_errors(sets, n).len() == 0 <==> forall|i: int|
            0 <= i < n ==> bounds_ok(#[trigger] sets[i].min_files, sets[i].max_files),
    decreases n,
{
    if n > 0 {
        lemma_constraints(sets, (n - 1) as nat);
        if constraint_errors(sets, n).len() == 0 {
            assert forall|i: int| 0 <= i < n implies bounds_ok(#[trigger] sets[i].min_files, sets[i].max_files) by {
                if i < n - 1 {
                    assert(bounds_ok(sets[i].min_files, sets[i].max_files));
                }
            }
        }
        if forall|i: int| 0 <= i < n ==> bounds_ok(#[trigger] sets[i].min_files, sets[i].max_files) {
            assert(bounds_ok(sets[n - 1].min_files, sets[n - 1].max_files));
            assert forall|i: int| 0 <= i < n - 1 implies bounds_ok(#[trigger] sets[i].min_files, sets[i].max_files) by {
                assert(bounds_ok(sets[i].min_files, sets[i].max_files));
            }
        }
    }
}

proof fn lemma_kept_are_found(resolved: Seq<Result<ResolvedNetworkSet, ComposeModelError>>, n: nat)
    requires
        n <= resolved.len(),
        forall|i: int| 0 <= i < resolved.len() ==> #[trigger] resolved[i] is Ok,
        distinct(resolved_names(found_sets(resolved, resolved.len()))),
    ensures
        kept_sets(resolved, n) == found_sets(resolved, n),
    decreases n,
{
    lemma_resolutions_found(resolved, resolved.len());
    if n > 0 {
        lemma_kept_are_found(resolved, (n - 1) as nat);
        lemma_resolutions_found(resolved, (n - 1) as nat);
        let all = found_sets(resolved, resolved.len());
        let prev = found_sets(resolved, (n - 1) as nat);
        let set = resolved[n - 1]->Ok_0;
        assert(resolved[n - 1] is Ok);
        if resolved_names(prev).contains(set.name@) {
            let j = choose|j: int| 0 <= j < prev.len() && resolved_names(prev)[j] == set.name@;
            assert(prev[j] == resolved[j]->Ok_0);
            assert(all[j] == resolved[j]->Ok_0);
            assert(all[n - 1] == set);
            assert(resolved_names(all)[j] == resolved_names(all)[n - 1]);
        }
    }
}

/// The resolutions are those of the manifest's network sets, in order: each set that was found
/// has the name and the bounds of its set in the manifest.
pub open spec fn resolves_sets_of(
    manifest: ProjectManifest,
    resolved: Seq<Result<ResolvedNetworkSet, ComposeModelError>>,
) -> bool {
    &&& resolved.len() == manifest.network_sets@.len()
    &&& forall|i: int|
        0 <= i < resolved.len() ==> (#[trigger] resolved[i] matches Ok(s) ==> {
            &&& s.name@ == manifest.network_sets@[i].name@
            &&& s.min_files == manifest.network_sets@[i].min_files
            &&& s.max_files == manifest.network_sets@[i].max_files
        })
}

proof fn lemma_manifest_errors_empty(manifest: ProjectManifest)
    ensures
        manifest_errors_spec(manifest).len() == 0 <==> {
            &&& distinct(set_names(manifest.network_sets@))
            &&& distinct(definition_names(manifest.definitions@))
            &&& forall|i: int|
                0 <= i < manifest.network_sets@.len() ==> bounds_ok(
                    #[trigger] manifest.network_sets@[i].min_files,
                    manifest.network_sets@[i].max_files,
                )
        },
{
    let sn = set_names(manifest.network_sets@);
    let dn = definition_names(manifest.definitions@);
    lemma_no_duplicates(sn);
    lemma_no_duplicates(dn);
    lemma_constraints(manifest.network_sets@, manifest.network_sets@.len());
    assert(sn.len() == manifest.network_sets@.len());
    assert(dn.len() == manifest.definitions@.len());
}

/// A definition of a manifest composes exactly when the validation of its model reports no
/// error, given the resolutions of the manifest's base model and network sets: composition
/// and validation apply the same rules, one stopping at the first error, the other collecting
/// them all.
pub proof fn law_composes_iff_valid(
    manifest: ProjectManifest,
    name: Seq<char>,
    base_model: Result<String, ComposeModelError>,
    resolved: Seq<Result<ResolvedNetworkSet, ComposeModelError>>,
)
    requires
        resolves_sets_of(manifest, resolved),
        find_definition(manifest.definitions@, name) is Some,
    ensures
        compose_manifest(manifest, name, base_model, resolved) is Ok <==> model_validation_errors(
            manifest,
            manifest.definitions@[find_definition(manifest.definitions@, name)->Some_0],
            base_model,
            resolved,
        ).len() == 0,
{
    let k = find_definition(manifest.definitions@, name)->Some_0;
    let definition = manifest.definitions@[k];
    let n = resolved.len();
    let sets = manifest.network_sets@;
    let sn = set_names(sets);
    let dn = definition_names(manifest.definitions@);
    lemma_manifest_errors_empty(manifest);
    lemma_no_duplicates(sn);
    lemma_no_duplicates(dn);
    lemma_resolutions_found(resolved, n);
    let found = found_sets(resolved, n);
    let kept = kept_sets(resolved, n);
    assert(dn =~= manifest.definitions@.map_values(|d: Definition| d.name@));
    let errors = model_validation_errors(manifest, definition, base_model, resolved);
    assert(errors.len() == manifest_errors_spec(manifest).len() + resolution_errors(resolved, n).len()
        + base_model_errors(base_model).len() + definition_errors(definition, kept).len());
    if forall|i: int| 0 <= i < n ==> #[trigger] resolved[i] is Ok {
        assert forall|i: int| 0 <= i < n implies #[trigger] resolved_names(found)[i] == sn[i] by {
            assert(found[i] == resolved[i]->Ok_0);
            assert(resolved[i] matches Ok(s) ==> s.name@ == sets[i].name@);
        }
        assert(resolved_names(found) =~= sn);
        assert forall|i: int| 0 <= i < n implies bounds_ok(#[trigger] found[i].min_files, found[i].max_files)
            == bounds_ok(sets[i].min_files, sets[i].max_files) by {
            assert(found[i] == resolved[i]->Ok_0);
            assert(resolved[i] matches Ok(s) ==> s.min_files == sets[i].min_files && s.max_files == sets[i].max_files);
        }
        if distinct(sn) {
            lemma_kept_are_found(resolved, n);
            lemma_definition_agrees(definition, base_model->Ok_0@, found);
        }
    }
    if compose_manifest(manifest, name, base_model, resolved) is Ok {
        assert(composition_definition_spec(manifest, name) == Ok::<int, crate::manifest::ComposeErrorView>(k));
        assert(distinct(sn));
        assert(distinct(dn));
        assert(base_model is Ok);
        assert(first_failure(resolved, n) is None);
        assert(compose_definition(definition, base_model->Ok_0@, found) is Ok);
        assert forall|i: int| 0 <= i < sets.len() implies bounds_ok(#[trigger] sets[i].min_files, sets[i].max_files) by {
            assert(bounds_ok(found[i].min_files, found[i].max_files));
        }
        assert(errors.len() == 0);
    }
    if errors.len() == 0 {
        assert(base_model is Ok);
        assert forall|i: int| 0 <= i < n implies bounds_ok(#[trigger] found[i].min_files, found[i].max_files) by {
            assert(bounds_ok(sets[i].min_files, sets[i].max_files));
        }
        assert(composition_definition_spec(manifest, name) == Ok::<int, crate::manifest::ComposeErrorView>(k));
        assert(compose_definition(definition, base_model->Ok_0@, found) is Ok);
    }
}

} // verus!
