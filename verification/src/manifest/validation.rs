//! The checks of one definition against the network sets that were found on disk.

use vstd::prelude::*;

use crate::manifest::{
    is_resolution_error, manifest_errors_spec, resolution_error_view, ComposeModelError,
    ProjectManifest, ProjectManifestValidationReport, ValidationError, add_duplicate_errors, count_errors, duplicate_error, duplicate_names, errors_view, is_filename,
    is_filename_spec, names_view, occurs_before, validate_constraints, Definition,
    DefinitionSelection, NameKind, ProjectManifestValidationError, ResolvedNetworkFile,
    ResolvedNetworkSet, ValidationErrorView,
};

verus! {

/// The first position among the first `m` of `names` that holds `x`.
pub open spec fn first_index(names: Seq<Seq<char>>, x: Seq<char>, m: nat) -> Option<int>
    decreases m,
{
    if m == 0 {
        None
    } else {
        match first_index(names, x, (m - 1) as nat) {
            Some(j) => Some(j),
            None => if names[m - 1] == x {
                Some(m - 1)
            } else {
                None
            },
        }
    }
}

/// The names of the files of a network set.
pub open spec fn file_names(files: Seq<ResolvedNetworkFile>) -> Seq<Seq<char>> {
    files.map_values(|f: ResolvedNetworkFile| f.name@)
}

/// The names of resolved network sets.
pub open spec fn resolved_names(sets: Seq<ResolvedNetworkSet>) -> Seq<Seq<char>> {
    sets.map_values(|s: ResolvedNetworkSet| s.name@)
}

/// The names of the network sets that selections refer to.
pub open spec fn selection_sets(selections: Seq<DefinitionSelection>) -> Seq<Seq<char>> {
    selections.map_values(|s: DefinitionSelection| s.set@)
}

/// The file names that a selection lists; none when it lists nothing.
pub open spec fn wanted_files(selection: DefinitionSelection) -> Seq<Seq<char>> {
    match selection.files {
        Some(files) => names_view(files@),
        None => Seq::empty(),
    }
}

/// A selection that takes every file of its set.
pub open spec fn selects_all(selection: DefinitionSelection) -> bool {
    selection.include_all == Some(true)
}

/// The positions `0, 1, .., n - 1`.
pub open spec fn all_positions(n: nat) -> Seq<int> {
    Seq::new(n, |i: int| i)
}

/// Positions held in `usize`, as integers.
pub open spec fn positions_view(v: Seq<usize>) -> Seq<int> {
    v.map_values(|i: usize| i as int)
}

/// What validation makes of the first `m` listed files of a selection: the positions of the
/// files found in the set, and an error for each listed name that is no single file name, that
/// was listed before, or that the set does not hold.
pub open spec fn selection_step(
    definition: Seq<char>,
    set_name: Seq<char>,
    available: Seq<Seq<char>>,
    wanted: Seq<Seq<char>>,
    m: nat,
) -> (Seq<int>, Seq<ValidationErrorView>)
    decreases m,
{
    if m == 0 {
        (Seq::empty(), Seq::empty())
    } else {
        let (found, errors) = selection_step(definition, set_name, available, wanted, (m - 1) as nat);
        let file = wanted[m - 1];
        if !is_filename_spec(file) {
            (found, errors.push(ValidationErrorView::InvalidFilePath { definition, set: set_name, file }))
        } else if wanted.take(m - 1).contains(file) {
            (found, errors.push(ValidationErrorView::DuplicateFile { definition, set: set_name, file }))
        } else {
            match first_index(available, file, available.len()) {
                Some(j) => (found.push(j), errors),
                None => (
                    found,
                    errors.push(ValidationErrorView::FileNotFound { definition, set: set_name, file }),
                ),
            }
        }
    }
}

/// What validation makes of a selection from a set: the positions of the selected files, and
/// the errors found on the way.
pub open spec fn selection_outcome(
    definition: Seq<char>,
    selection: DefinitionSelection,
    set: ResolvedNetworkSet,
) -> (Seq<int>, Seq<ValidationErrorView>) {
    if selects_all(selection) {
        (all_positions(set.files@.len()), Seq::empty())
    } else {
        let wanted = wanted_files(selection);
        selection_step(definition, set.name@, file_names(set.files@), wanted, wanted.len())
    }
}

/// The errors of a definition for one set: those of its first selection of the set, then
/// those of the number of files it selects there (none selected where it does not select
/// the set).
pub open spec fn set_errors(definition: Definition, set: ResolvedNetworkSet) -> Seq<ValidationErrorView> {
    let selections = definition.includes@;
    match first_index(selection_sets(selections), set.name@, selections.len()) {
        Some(k) => {
            let (found, errors) = selection_outcome(definition.name@, selections[k], set);
            errors + count_errors(definition.name@, set, found.len())
        },
        None => count_errors(definition.name@, set, 0),
    }
}

/// The errors of a definition for the first `m` sets.
pub open spec fn sets_errors(definition: Definition, sets: Seq<ResolvedNetworkSet>, m: nat) -> Seq<
    ValidationErrorView,
>
    decreases m,
{
    if m == 0 {
        Seq::empty()
    } else {
        sets_errors(definition, sets, (m - 1) as nat) + set_errors(definition, sets[m - 1])
    }
}

/// An error for each of the first `m` selections whose set is not among `sets`.
pub open spec fn missing_set_errors(definition: Definition, sets: Seq<ResolvedNetworkSet>, m: nat) -> Seq<
    ValidationErrorView,
>
    decreases m,
{
    if m == 0 {
        Seq::empty()
    } else {
        let prev = missing_set_errors(definition, sets, (m - 1) as nat);
        let set = definition.includes@[m - 1].set@;
        if resolved_names(sets).contains(set) {
            prev
        } else {
            prev.push(ValidationErrorView::SetNotFound { definition: definition.name@, set })
        }
    }
}

/// All the errors of a definition against the sets found on disk: the sets it selects more
/// than once, then each set's errors in order, then the selections of sets that were not
/// found.
pub open spec fn definition_errors(definition: Definition, sets: Seq<ResolvedNetworkSet>) -> Seq<
    ValidationErrorView,
> {
    let selected = selection_sets(definition.includes@);
    duplicate_names(selected, selected.len()).map_values(
        |d: (Seq<char>, nat)| duplicate_error(NameKind::Selection { definition: definition.name }, d.0, d.1),
    ) + sets_errors(definition, sets, sets.len()) + missing_set_errors(
        definition,
        sets,
        definition.includes@.len(),
    )
}

proof fn lemma_push_error(v: Seq<ProjectManifestValidationError>, e: ProjectManifestValidationError)
    ensures
        errors_view(v.push(e)) == errors_view(v).push(e@),
{
    assert(errors_view(v.push(e)) =~= errors_view(v).push(e@));
}

/// The position of the first file of `files` named `name`.
pub(crate) fn find_file(files: &Vec<ResolvedNetworkFile>, name: &String) -> (r: Option<usize>)
    ensures
        match r {
            Some(j) => first_index(file_names(files@), name@, files@.len()) == Some(j as int),
            None => first_index(file_names(files@), name@, files@.len()) is None,
        },
{
    let ghost names = file_names(files@);
    let mut i: usize = 0;
    while i < files.len()
        invariant
            i <= files.len(),
            names == file_names(files@),
            first_index(names, name@, i as nat) is None,
        decreases files.len() - i,
    {
        if files[i].name == *name {
            proof {
                assert(names[i as int] == files@[i as int].name@);
                lemma_first_index_stays(names, name@, (i + 1) as nat, files@.len());
            }
            return Some(i);
        }
        proof {
            assert(names[i as int] == files@[i as int].name@);
        }
        i = i + 1;
    }
    None
}

/// The position of the first name of `names` equal to `name`.
pub(crate) fn find_name(names: &Vec<String>, name: &String) -> (r: Option<usize>)
    ensures
        match r {
            Some(j) => first_index(names_view(names@), name@, names@.len()) == Some(j as int),
            None => first_index(names_view(names@), name@, names@.len()) is None,
        },
{
    let ghost nv = names_view(names@);
    let mut i: usize = 0;
    while i < names.len()
        invariant
            i <= names.len(),
            nv == names_view(names@),
            first_index(nv, name@, i as nat) is None,
        decreases names.len() - i,
    {
        if names[i] == *name {
            proof {
                assert(nv[i as int] == names@[i as int]@);
                lemma_first_index_stays(nv, name@, (i + 1) as nat, names@.len());
            }
            return Some(i);
        }
        proof {
            assert(nv[i as int] == names@[i as int]@);
        }
        i = i + 1;
    }
    None
}

proof fn lemma_first_index_stays(names: Seq<Seq<char>>, x: Seq<char>, m: nat, n: nat)
    requires
        m <= n,
        first_index(names, x, m) is Some,
    ensures
        first_index(names, x, n) == first_index(names, x, m),
    decreases n - m,
{
    if m < n {
        lemma_first_index_stays(names, x, m, (n - 1) as nat);
    }
}

/// A position of `names` holds `x` exactly when the first search for it succeeds.
pub proof fn lemma_first_index_contains(names: Seq<Seq<char>>, x: Seq<char>, m: nat)
    requires
        m <= names.len(),
    ensures
        first_index(names, x, m) is Some <==> names.take(m as int).contains(x),
        first_index(names, x, m) matches Some(j) ==> 0 <= j < m && names[j] == x,
    decreases m,
{
    if m > 0 {
        lemma_first_index_contains(names, x, (m - 1) as nat);
        let t = names.take(m as int);
        let p = names.take(m - 1);
        assert(p =~= t.drop_last());
        if p.contains(x) {
            let k = choose|k: int| 0 <= k < p.len() && p[k] == x;
            assert(t[k] == x);
        }
        if t.contains(x) && !p.contains(x) {
            let k = choose|k: int| 0 <= k < t.len() && t[k] == x;
            if k < m - 1 {
                assert(p[k] == x);
            }
        }
        if names[m - 1] == x {
            assert(t[m - 1] == x);
        }
    }
}

/// Resolves the files that a selection takes from a set, appending to `errors` an error for
/// each listed name that is no single file name, that was listed before, or that the set does
/// not hold. Returns the positions in the set of the files found, in the order listed.
pub fn resolve_selection(
    definition: &Definition,
    selection: &DefinitionSelection,
    set: &ResolvedNetworkSet,
    errors: &mut Vec<ProjectManifestValidationError>,
) -> (r: Vec<usize>)
    ensures
        positions_view(r@) == selection_outcome(definition.name@, *selection, *set).0,
        errors_view(final(errors)@) == errors_view(old(errors)@) + selection_outcome(
            definition.name@,
            *selection,
            *set,
        ).1,
{
    let ghost start = errors_view(errors@);
    let mut result: Vec<usize> = Vec::new();
    match selection.include_all {
        Some(true) => {
            let n = set.files.len();
            let mut i: usize = 0;
            while i < n
                invariant
                    i <= n,
                    n == set.files@.len(),
                    result@.len() == i,
                    forall|k: int| 0 <= k < i ==> result@[k] == k,
                    errors@ == old(errors)@,
                decreases n - i,
            {
                result.push(i);
                i = i + 1;
            }
            proof {
                assert(positions_view(result@) =~= all_positions(n as nat));
            }
            proof {
                assert(errors_view(errors@) =~= start + Seq::<ValidationErrorView>::empty());
            }
            return result;
        },
        _ => {},
    }
    let ghost available = file_names(set.files@);
    let ghost wanted = wanted_files(*selection);
    match &selection.files {
        None => {
            proof {
                assert(positions_view(result@) =~= Seq::<int>::empty());
                assert(errors_view(errors@) =~= start + Seq::<ValidationErrorView>::empty());
            }
            result
        },
        Some(files) => {
            let mut i: usize = 0;
            proof {
                assert(positions_view(result@) =~= Seq::<int>::empty());
                assert(errors_view(errors@) =~= start + Seq::<ValidationErrorView>::empty());
            }
            while i < files.len()
                invariant
                    i <= files.len(),
                    wanted == names_view(files@),
                    available == file_names(set.files@),
                    positions_view(result@) == selection_step(
                        definition.name@,
                        set.name@,
                        available,
                        wanted,
                        i as nat,
                    ).0,
                    errors_view(errors@) == start + selection_step(
                        definition.name@,
                        set.name@,
                        available,
                        wanted,
                        i as nat,
                    ).1,
                decreases files.len() - i,
            {
                let file = &files[i];
                let ghost prev = errors@;
                let ghost prev_found = result@;
                proof {
                    assert(wanted[i as int] == file@);
                }
                if !is_filename(file.as_str()) {
                    let e = ProjectManifestValidationError::InvalidFilePath {
                        definition: definition.name.clone(),
                        set: set.name.clone(),
                        file: file.clone(),
                    };
                    errors.push(e);
                    proof {
                        lemma_push_error(prev, e);
                    }
                } else if occurs_before(files, i) {
                    let e = ProjectManifestValidationError::DuplicateFile {
                        definition: definition.name.clone(),
                        set: set.name.clone(),
                        file: file.clone(),
                    };
                    errors.push(e);
                    proof {
                        lemma_push_error(prev, e);
                    }
                } else {
                    match find_file(&set.files, file) {
                        Some(j) => {
                            result.push(j);
                            proof {
                                assert(positions_view(result@) =~= positions_view(prev_found).push(j as int));
                            }
                        },
                        None => {
                            let e = ProjectManifestValidationError::FileNotFound {
                                definition: definition.name.clone(),
                                set: set.name.clone(),
                                file: file.clone(),
                            };
                            errors.push(e);
                            proof {
                                lemma_push_error(prev, e);
                            }
                        },
                    }
                }
                i = i + 1;
            }
            result
        },
    }
}

pub(crate) fn selection_set_names(selections: &Vec<DefinitionSelection>) -> (r: Vec<String>)
    ensures
        names_view(r@) == selection_sets(selections@),
{
    let mut r: Vec<String> = Vec::new();
    let mut i: usize = 0;
    while i < selections.len()
        invariant
            i <= selections.len(),
            names_view(r@) =~= selection_sets(selections@).take(i as int),
        decreases selections.len() - i,
    {
        let ghost prev = r@;
        r.push(selections[i].set.clone());
        proof {
            assert(names_view(r@) =~= names_view(prev).push(selections@[i as int].set@));
            assert(selection_sets(selections@).take(i + 1) =~= selection_sets(selections@).take(i as int).push(
                selections@[i as int].set@,
            ));
        }
        i = i + 1;
    }
    proof {
        assert(selection_sets(selections@).take(selections.len() as int) =~= selection_sets(selections@));
    }
    r
}

pub(crate) fn resolved_set_names(sets: &Vec<ResolvedNetworkSet>) -> (r: Vec<String>)
    ensures
        names_view(r@) == resolved_names(sets@),
{
    let mut r: Vec<String> = Vec::new();
    let mut i: usize = 0;
    while i < sets.len()
        invariant
            i <= sets.len(),
            names_view(r@) =~= resolved_names(sets@).take(i as int),
        decreases sets.len() - i,
    {
        let ghost prev = r@;
        r.push(sets[i].name.clone());
        proof {
            assert(names_view(r@) =~= names_view(prev).push(sets@[i as int].name@));
            assert(resolved_names(sets@).take(i + 1) =~= resolved_names(sets@).take(i as int).push(
                sets@[i as int].name@,
            ));
        }
        i = i + 1;
    }
    proof {
        assert(resolved_names(sets@).take(sets.len() as int) =~= resolved_names(sets@));
    }
    r
}

impl Definition {
    /// Validates the definition against the network sets found on disk, appending its errors:
    /// the sets it selects more than once, then for each set the errors of its selection and
    /// of the number of files selected, then the selections of sets that were not found.
    pub fn validate(&self, sets: &Vec<ResolvedNetworkSet>, errors: &mut Vec<ProjectManifestValidationError>)
        ensures
            errors_view(final(errors)@) == errors_view(old(errors)@) + definition_errors(*self, sets@),
    {
        let ghost start = errors_view(errors@);
        let selected = selection_set_names(&self.includes);
        let kind = NameKind::Selection { definition: self.name.clone() };
        add_duplicate_errors(&selected, &kind, errors);
        let ghost after_dups = errors_view(errors@);
        let mut k: usize = 0;
        proof {
            assert(after_dups + sets_errors(*self, sets@, 0) =~= after_dups);
        }
        while k < sets.len()
            invariant
                k <= sets.len(),
                names_view(selected@) == selection_sets(self.includes@),
                errors_view(errors@) == after_dups + sets_errors(*self, sets@, k as nat),
            decreases sets.len() - k,
        {
            let set = &sets[k];
            let ghost before = errors_view(errors@);
            proof {
                lemma_first_index_contains(names_view(selected@), set.name@, selected@.len());
                assert(selected@.len() == self.includes@.len());
            }
            match find_name(&selected, &set.name) {
                Some(j) => {
                    let found = resolve_selection(self, &self.includes[j], set, errors);
                    validate_constraints(&self.name, set, found.len(), errors);
                    proof {
                        let outcome = selection_outcome(self.name@, self.includes@[j as int], *set);
                        assert(found@.len() == positions_view(found@).len());
                        assert(errors_view(errors@) =~= before + (outcome.1 + count_errors(
                            self.name@,
                            *set,
                            outcome.0.len(),
                        )));
                    }
                },
                None => {
                    validate_constraints(&self.name, set, 0, errors);
                },
            }
            proof {
                assert(errors_view(errors@) =~= after_dups + sets_errors(*self, sets@, (k + 1) as nat));
            }
            k = k + 1;
        }
        let ghost after_sets = errors_view(errors@);
        let names = resolved_set_names(sets);
        let mut i: usize = 0;
        proof {
            assert(after_sets + missing_set_errors(*self, sets@, 0) =~= after_sets);
        }
        while i < self.includes.len()
            invariant
                i <= self.includes.len(),
                names_view(names@) == resolved_names(sets@),
                errors_view(errors@) == after_sets + missing_set_errors(*self, sets@, i as nat),
            decreases self.includes.len() - i,
        {
            let selection = &self.includes[i];
            let ghost prev = errors@;
            proof {
                lemma_first_index_contains(names_view(names@), selection.set@, names@.len());
                assert(names_view(names@).take(names@.len() as int) =~= names_view(names@));
            }
            if find_name(&names, &selection.set).is_none() {
                let e = ProjectManifestValidationError::SetNotFound {
                    definition: self.name.clone(),
                    set: selection.set.clone(),
                };
                errors.push(e);
                proof {
                    lemma_push_error(prev, e);
                }
            }
            proof {
                assert(errors_view(errors@) =~= after_sets + missing_set_errors(*self, sets@, (i + 1) as nat));
            }
            i = i + 1;
        }
        proof {
            assert(errors_view(errors@) =~= start + definition_errors(*self, sets@));
        }
    }
}

/// The sets among the first `m` resolutions that validation checks definitions against: each
/// set that was found, unless one of the same name was kept before it.
pub open spec fn kept_sets(resolved: Seq<Result<ResolvedNetworkSet, ComposeModelError>>, m: nat) -> Seq<
    ResolvedNetworkSet,
>
    decreases m,
{
    if m == 0 {
        Seq::empty()
    } else {
        let prev = kept_sets(resolved, (m - 1) as nat);
        match resolved[m - 1] {
            Ok(set) => if resolved_names(prev).contains(set.name@) {
                prev
            } else {
                prev.push(set)
            },
            Err(_) => prev,
        }
    }
}

/// The errors of the first `m` resolutions that failed, in order.
pub open spec fn resolution_errors(resolved: Seq<Result<ResolvedNetworkSet, ComposeModelError>>, m: nat) -> Seq<
    ValidationErrorView,
>
    decreases m,
{
    if m == 0 {
        Seq::empty()
    } else {
        let prev = resolution_errors(resolved, (m - 1) as nat);
        match resolved[m - 1] {
            Ok(_) => prev,
            Err(e) => prev.push(resolution_error_view(e@)),
        }
    }
}

/// The error of the base model's resolution, if it failed.
pub open spec fn base_model_errors(base_model: Result<String, ComposeModelError>) -> Seq<ValidationErrorView> {
    match base_model {
        Ok(_) => Seq::empty(),
        Err(e) => seq![resolution_error_view(e@)],
    }
}

/// Every failed resolution is one of a path on disk.
pub open spec fn resolutions_failed_on_disk(
    base_model: Result<String, ComposeModelError>,
    resolved: Seq<Result<ResolvedNetworkSet, ComposeModelError>>,
) -> bool {
    &&& base_model matches Err(e) ==> is_resolution_error(e@)
    &&& forall|i: int| 0 <= i < resolved.len() ==> (#[trigger] resolved[i] matches Err(e) ==> is_resolution_error(e@))
}

/// The errors of the first `m` definitions, one definition after another.
pub open spec fn definitions_errors(definitions: Seq<Definition>, sets: Seq<ResolvedNetworkSet>, m: nat) -> Seq<
    ValidationErrorView,
>
    decreases m,
{
    if m == 0 {
        Seq::empty()
    } else {
        definitions_errors(definitions, sets, (m - 1) as nat) + definition_errors(definitions[m - 1], sets)
    }
}

/// What validation reports of a manifest, given the resolution of its base model and of its
/// network sets: the manifest's own errors, those of the sets' resolution, that of the base
/// model's, then those of each definition against the sets that were kept.
pub open spec fn validation_errors(
    manifest: ProjectManifest,
    base_model: Result<String, ComposeModelError>,
    resolved: Seq<Result<ResolvedNetworkSet, ComposeModelError>>,
) -> Seq<ValidationErrorView> {
    let kept = kept_sets(resolved, resolved.len());
    manifest_errors_spec(manifest) + resolution_errors(resolved, resolved.len()) + base_model_errors(base_model)
        + definitions_errors(manifest.definitions@, kept, manifest.definitions@.len())
}

/// The position of the first definition named `name`.
pub open spec fn find_definition(definitions: Seq<Definition>, name: Seq<char>) -> Option<int> {
    first_index(definitions.map_values(|d: Definition| d.name@), name, definitions.len())
}

/// What validation reports of one definition: as [`validation_errors`], with that
/// definition's errors alone.
pub open spec fn model_validation_errors(
    manifest: ProjectManifest,
    definition: Definition,
    base_model: Result<String, ComposeModelError>,
    resolved: Seq<Result<ResolvedNetworkSet, ComposeModelError>>,
) -> Seq<ValidationErrorView> {
    let kept = kept_sets(resolved, resolved.len());
    manifest_errors_spec(manifest) + resolution_errors(resolved, resolved.len()) + base_model_errors(base_model)
        + definition_errors(definition, kept)
}

/// Keeps the sets that were found, the first of each name, appending the error of each set
/// whose resolution failed.
pub fn collect_resolved_sets(
    resolved: Vec<Result<ResolvedNetworkSet, ComposeModelError>>,
    errors: &mut Vec<ProjectManifestValidationError>,
) -> (r: Vec<ResolvedNetworkSet>)
    requires
        forall|i: int|
            0 <= i < resolved@.len() ==> (#[trigger] resolved@[i] matches Err(e) ==> is_resolution_error(e@)),
    ensures
        r@ == kept_sets(resolved@, resolved@.len()),
        errors_view(final(errors)@) == errors_view(old(errors)@) + resolution_errors(resolved@, resolved@.len()),
{
    let ghost all = resolved@;
    let ghost start = errors_view(errors@);
    proof {
        assert(all.len() == resolved.len());
    }
    let mut rest = resolved;
    let mut kept: Vec<ResolvedNetworkSet> = Vec::new();
    let mut kept_names: Vec<String> = Vec::new();
    let mut i: usize = 0;
    proof {
        assert(all.skip(0) =~= all);
        assert(errors_view(errors@) =~= start + resolution_errors(all, 0));
        assert(names_view(kept_names@) =~= resolved_names(kept@));
    }
    while rest.len() > 0
        invariant
            i <= all.len(),
            all.len() <= usize::MAX,
            i + rest@.len() == all.len(),
            rest@ == all.skip(i as int),
            forall|k: int| 0 <= k < all.len() ==> (#[trigger] all[k] matches Err(e) ==> is_resolution_error(e@)),
            kept@ == kept_sets(all, i as nat),
            names_view(kept_names@) == resolved_names(kept@),
            errors_view(errors@) == start + resolution_errors(all, i as nat),
        decreases rest.len(),
    {
        let item = rest.remove(0);
        proof {
            assert(item == all[i as int]);
            assert(rest@ =~= all.skip(i + 1));
        }
        let ghost prev = errors@;
        match item {
            Ok(set) => {
                proof {
                    lemma_first_index_contains(names_view(kept_names@), set.name@, kept_names@.len());
                    assert(names_view(kept_names@).take(kept_names@.len() as int) =~= names_view(kept_names@));
                }
                if find_name(&kept_names, &set.name).is_none() {
                    let ghost prev_kept = kept@;
                    kept_names.push(set.name.clone());
                    kept.push(set);
                    proof {
                        assert(resolved_names(kept@) =~= resolved_names(prev_kept).push(kept@.last().name@));
                        assert(names_view(kept_names@) =~= resolved_names(kept@));
                    }
                }
            },
            Err(e) => {
                let v = e.into_validation_error();
                errors.push(v);
                proof {
                    lemma_push_error(prev, v);
                }
            },
        }
        i = i + 1;
    }
    proof {
        assert(all.skip(i as int).len() == 0);
    }
    kept
}

impl ProjectManifest {
    /// Validates the manifest, given the resolution of its base model and, in order, of each
    /// of its network sets; reports every error found (see [`validation_errors`]).
    pub fn validate_resolved(
        &self,
        base_model: Result<String, ComposeModelError>,
        sets: Vec<Result<ResolvedNetworkSet, ComposeModelError>>,
    ) -> (r: Result<ProjectManifestValidationReport, ValidationError>)
        requires
            resolutions_failed_on_disk(base_model, sets@),
        ensures
            r matches Ok(report) && errors_view(report.errors@) == validation_errors(*self, base_model, sets@),
    {
        let ghost all = sets@;
        let mut errors = self.manifest_errors();
        let kept = collect_resolved_sets(sets, &mut errors);
        let ghost prev = errors@;
        match base_model {
            Ok(_) => {},
            Err(e) => {
                let v = e.into_validation_error();
                errors.push(v);
                proof {
                    lemma_push_error(prev, v);
                }
            },
        }
        let ghost before_definitions = errors_view(errors@);
        let mut d: usize = 0;
        proof {
            assert(before_definitions + definitions_errors(self.definitions@, kept@, 0) =~= before_definitions);
        }
        while d < self.definitions.len()
            invariant
                d <= self.definitions.len(),
                errors_view(errors@) == before_definitions + definitions_errors(self.definitions@, kept@, d as nat),
            decreases self.definitions.len() - d,
        {
            self.definitions[d].validate(&kept, &mut errors);
            proof {
                assert(errors_view(errors@) =~= before_definitions + definitions_errors(
                    self.definitions@,
                    kept@,
                    (d + 1) as nat,
                ));
            }
            d = d + 1;
        }
        proof {
            assert(errors_view(errors@) =~= validation_errors(*self, base_model, all));
        }
        Ok(ProjectManifestValidationReport { errors })
    }

    /// Validates one definition of the manifest, given the resolution of its base model and of
    /// its network sets. Fails when no definition has that name; reports the errors of the
    /// first definition of that name otherwise (see [`model_validation_errors`]).
    pub fn validate_model_resolved(
        &self,
        definition_name: &str,
        base_model: Result<String, ComposeModelError>,
        sets: Vec<Result<ResolvedNetworkSet, ComposeModelError>>,
    ) -> (r: Result<ProjectManifestValidationReport, ValidationError>)
        requires
            resolutions_failed_on_disk(base_model, sets@),
        ensures
            match find_definition(self.definitions@, definition_name@) {
                None => r matches Err(ValidationError::DefinitionNotFound { definition }) && definition@
                    == definition_name@,
                Some(k) => r matches Ok(report) && errors_view(report.errors@) == model_validation_errors(
                    *self,
                    self.definitions@[k],
                    base_model,
                    sets@,
                ),
            },
    {
        let ghost all = sets@;
        let found = self.definition_position(definition_name);
        let k = match found {
            None => {
                return Err(ValidationError::DefinitionNotFound { definition: String::from_str(definition_name) });
            },
            Some(k) => k,
        };
        let mut errors = self.manifest_errors();
        let kept = collect_resolved_sets(sets, &mut errors);
        let ghost prev = errors@;
        match base_model {
            Ok(_) => {},
            Err(e) => {
                let v = e.into_validation_error();
                errors.push(v);
                proof {
                    lemma_push_error(prev, v);
                }
            },
        }
        let ghost before_definition = errors_view(errors@);
        self.definitions[k].validate(&kept, &mut errors);
        proof {
            assert(errors_view(errors@) =~= model_validation_errors(*self, self.definitions@[k as int], base_model, all));
        }
        Ok(ProjectManifestValidationReport { errors })
    }

    /// The position of the first definition named `name`.
    pub fn definition_position(&self, name: &str) -> (r: Option<usize>)
        ensures
            match r {
                Some(k) => find_definition(self.definitions@, name@) == Some(k as int) && k < self.definitions@.len(),
                None => find_definition(self.definitions@, name@) is None,
            },
    {
        let ghost names = self.definitions@.map_values(|d: Definition| d.name@);
        let target = String::from_str(name);
        let mut i: usize = 0;
        while i < self.definitions.len()
            invariant
                i <= self.definitions.len(),
                names == self.definitions@.map_values(|d: Definition| d.name@),
                target@ == name@,
                first_index(names, name@, i as nat) is None,
            decreases self.definitions.len() - i,
        {
            proof {
                assert(names[i as int] == self.definitions@[i as int].name@);
            }
            if self.definitions[i].name == target {
                proof {
                    lemma_first_index_stays(names, name@, (i + 1) as nat, self.definitions@.len());
                }
                return Some(i);
            }
            i = i + 1;
        }
        None
    }
}

} // verus!
