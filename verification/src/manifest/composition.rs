//! Composition of a model: the base model and the files that a definition selects from the
//! network sets, in the order of its selections.

use vstd::prelude::*;

use crate::manifest::validation::{
    file_names, find_definition, find_file, find_name, first_index, lemma_first_index_contains,
    positions_view, resolved_names, resolved_set_names, selection_set_names, selection_sets,
    selects_all, wanted_files,
};
use crate::manifest::{
    copy_string_vec_of_definitions, copy_string_vec_of_sets, definition_names, duplicate_compose_error, ensure_unique, first_repeat, is_filename,
    is_filename_spec, names_view, occurs_before, set_names, text_of, ComposeErrorView, ComposeModelError,
    Definition, DefinitionSelection, NameKind, NetworkSet, ProjectManifest, ResolvedNetworkSet,
};

verus! {

/// A composed model: the base model, the network files that it includes, and the overrides
/// to the base model's settings, as JSON text.
#[derive(Debug)]
pub struct ComposedModel {
    name: String,
    base_model: String,
    includes: Vec<String>,
    overrides: Option<String>,
}

/// The mathematical form of a [`ComposedModel`] or of a [`ComposedModelBuilder`].
pub struct ComposedModelView {
    pub name: Seq<char>,
    pub base_model: Seq<char>,
    pub includes: Seq<Seq<char>>,
    pub overrides: Option<Seq<char>>,
}

impl View for ComposedModel {
    type V = ComposedModelView;

    closed spec fn view(&self) -> ComposedModelView {
        ComposedModelView {
            name: self.name@,
            base_model: self.base_model@,
            includes: names_view(self.includes@),
            overrides: text_of(self.overrides),
        }
    }
}

impl ComposedModel {
    /// The name of the definition that the model was composed from.
    pub fn name(&self) -> (r: &str)
        ensures
            r@ == self@.name,
    {
        self.name.as_str()
    }

    /// The overrides to the base model's settings, as JSON text, if the definition has any.
    pub fn overrides(&self) -> (r: Option<&str>)
        ensures
            match r {
                Some(t) => self@.overrides == Some(t@),
                None => self@.overrides is None,
            },
    {
        match &self.overrides {
            Some(t) => Some(t.as_str()),
            None => None,
        }
    }

    /// The base model's path followed by the paths of the included files.
    pub fn all_paths(&self) -> (r: Vec<String>)
        ensures
            names_view(r@) == seq![self@.base_model] + self@.includes,
    {
        let mut paths: Vec<String> = Vec::new();
        paths.push(self.base_model.clone());
        let mut i: usize = 0;
        while i < self.includes.len()
            invariant
                i <= self.includes.len(),
                names_view(paths@) =~= seq![self.base_model@] + names_view(self.includes@).take(i as int),
            decreases self.includes.len() - i,
        {
            let ghost prev = paths@;
            paths.push(self.includes[i].clone());
            proof {
                assert(names_view(paths@) =~= names_view(prev).push(self.includes@[i as int]@));
                assert(names_view(self.includes@).take(i + 1) =~= names_view(self.includes@).take(i as int).push(
                    self.includes@[i as int]@,
                ));
            }
            i = i + 1;
        }
        proof {
            assert(names_view(self.includes@).take(self.includes@.len() as int) =~= names_view(self.includes@));
        }
        paths
    }
}

/// Builds a [`ComposedModel`] one included file at a time.
#[derive(Debug)]
pub struct ComposedModelBuilder {
    name: String,
    base_model: String,
    includes: Vec<String>,
    overrides: Option<String>,
}

impl View for ComposedModelBuilder {
    type V = ComposedModelView;

    closed spec fn view(&self) -> ComposedModelView {
        ComposedModelView {
            name: self.name@,
            base_model: self.base_model@,
            includes: names_view(self.includes@),
            overrides: text_of(self.overrides),
        }
    }
}

impl ComposedModelBuilder {
    /// A builder of the model `name` on `base_model`, with no included file yet.
    pub fn new(name: String, base_model: String) -> (r: Self)
        ensures
            r@ == (ComposedModelView {
                name: name@,
                base_model: base_model@,
                includes: Seq::empty(),
                overrides: None,
            }),
    {
        let r = ComposedModelBuilder { name, base_model, includes: Vec::new(), overrides: None };
        proof {
            assert(names_view(r.includes@) =~= Seq::<Seq<char>>::empty());
        }
        r
    }

    /// Appends the path of an included file.
    pub fn add_included_path(&mut self, path: String) -> (r: &mut Self)
        ensures
            r@ == (ComposedModelView { includes: old(self)@.includes.push(path@), ..old(self)@ }),
            *final(self) == *final(r),
    {
        let ghost prev = self.includes@;
        self.includes.push(path);
        proof {
            assert(names_view(self.includes@) =~= names_view(prev).push(path@));
        }
        self
    }

    /// Sets the overrides to the base model's settings, as JSON text.
    pub fn overrides(&mut self, overrides: String) -> (r: &mut Self)
        ensures
            r@ == (ComposedModelView { overrides: Some(overrides@), ..old(self)@ }),
            *final(self) == *final(r),
    {
        self.overrides = Some(overrides);
        self
    }

    /// The composed model.
    pub fn build(self) -> (r: ComposedModel)
        ensures
            r@ == self@,
    {
        ComposedModel {
            name: self.name,
            base_model: self.base_model,
            includes: self.includes,
            overrides: self.overrides,
        }
    }
}

/// The field named in the error on a selected file that is no single file name.
pub open spec fn selected_file_field(set_name: Seq<char>) -> Seq<char> {
    "selected file in network set '"@ + set_name + "'"@
}

/// What composition makes of the first `m` listed files of a selection: the positions of the
/// files in the set, or the error on the first listed name that is no single file name, that
/// was listed before, or that the set does not hold.
pub open spec fn compose_selection_step(
    set_name: Seq<char>,
    available: Seq<Seq<char>>,
    wanted: Seq<Seq<char>>,
    m: nat,
) -> Result<Seq<int>, ComposeErrorView>
    decreases m,
{
    if m == 0 {
        Ok(Seq::empty())
    } else {
        match compose_selection_step(set_name, available, wanted, (m - 1) as nat) {
            Err(e) => Err(e),
            Ok(found) => {
                let file = wanted[m - 1];
                if !is_filename_spec(file) {
                    Err(ComposeErrorView::InvalidRelativePath { field: selected_file_field(set_name), path: file })
                } else if wanted.take(m - 1).contains(file) {
                    Err(ComposeErrorView::DuplicateFile { set: set_name, file })
                } else {
                    match first_index(available, file, available.len()) {
                        Some(j) => Ok(found.push(j)),
                        None => Err(ComposeErrorView::FileNotFound { set: set_name, file }),
                    }
                }
            },
        }
    }
}

proof fn lemma_compose_step_err_stays(
    set_name: Seq<char>,
    available: Seq<Seq<char>>,
    wanted: Seq<Seq<char>>,
    m: nat,
    n: nat,
)
    requires
        m <= n,
        compose_selection_step(set_name, available, wanted, m) is Err,
    ensures
        compose_selection_step(set_name, available, wanted, n) == compose_selection_step(
            set_name,
            available,
            wanted,
            m,
        ),
    decreases n - m,
{
    if m < n {
        lemma_compose_step_err_stays(set_name, available, wanted, m, (n - 1) as nat);
    }
}

/// What composition makes of a selection from a set: the positions of the selected files, or
/// the error that stops it.
pub open spec fn compose_selection(selection: DefinitionSelection, set: ResolvedNetworkSet) -> Result<
    Seq<int>,
    ComposeErrorView,
> {
    if selects_all(selection) {
        Ok(Seq::new(set.files@.len(), |i: int| i))
    } else {
        let wanted = wanted_files(selection);
        compose_selection_step(set.name@, file_names(set.files@), wanted, wanted.len())
    }
}

/// The paths of the files of `set` at `positions`.
pub open spec fn paths_at(set: ResolvedNetworkSet, positions: Seq<int>) -> Seq<Seq<char>> {
    positions.map_values(|i: int| set.files@[i].path@)
}

/// What composition makes of a selection of the set `set`: the paths it includes, or the
/// error on a minimum above the maximum, on the selection itself, or on a number of files
/// outside the set's bounds.
pub open spec fn compose_set(selection: DefinitionSelection, set: ResolvedNetworkSet) -> Result<
    Seq<Seq<char>>,
    ComposeErrorView,
> {
    match (set.min_files, set.max_files) {
        (Some(min_files), Some(max_files)) if min_files > max_files => Err(
            ComposeErrorView::InvalidFileConstraints { set: set.name@, min_files, max_files },
        ),
        _ => match compose_selection(selection, set) {
            Err(e) => Err(e),
            Ok(found) => match set.min_files {
                Some(min_files) if found.len() < min_files => Err(
                    ComposeErrorView::MinFilesNotMet { set: set.name@, min_files, actual_files: found.len() as usize },
                ),
                _ => match set.max_files {
                    Some(max_files) if found.len() > max_files => Err(
                        ComposeErrorView::MaxFilesExceeded {
                            set: set.name@,
                            max_files,
                            actual_files: found.len() as usize,
                        },
                    ),
                    _ => Ok(paths_at(set, found)),
                },
            },
        },
    }
}

/// What composition makes of the first `m` selections of a definition: the paths they
/// take in, one selection after another, or the first error.
pub open spec fn compose_selections(definition: Definition, sets: Seq<ResolvedNetworkSet>, m: nat) -> Result<
    Seq<Seq<char>>,
    ComposeErrorView,
>
    decreases m,
{
    if m == 0 {
        Ok(Seq::empty())
    } else {
        match compose_selections(definition, sets, (m - 1) as nat) {
            Err(e) => Err(e),
            Ok(paths) => {
                let selections = definition.includes@;
                let selection = selections[m - 1];
                if selection_sets(selections).take(m - 1).contains(selection.set@) {
                    Err(ComposeErrorView::DuplicateSelection { set: selection.set@ })
                } else {
                    match first_index(resolved_names(sets), selection.set@, sets.len()) {
                        None => Err(ComposeErrorView::SetNotFound { set: selection.set@ }),
                        Some(k) => match compose_set(selection, sets[k]) {
                            Err(e) => Err(e),
                            Ok(more) => Ok(paths + more),
                        },
                    }
                }
            },
        }
    }
}

/// The error on the first of the first `m` sets that the definition does not select and that
/// asks for at least one file.
pub open spec fn omitted_set_error(definition: Definition, sets: Seq<ResolvedNetworkSet>, m: nat) -> Option<
    ComposeErrorView,
>
    decreases m,
{
    if m == 0 {
        None
    } else {
        match omitted_set_error(definition, sets, (m - 1) as nat) {
            Some(e) => Some(e),
            None => {
                let set = sets[m - 1];
                if selection_sets(definition.includes@).contains(set.name@) {
                    None
                } else {
                    match set.min_files {
                        Some(min_files) if min_files > 0 => Some(
                            ComposeErrorView::MinFilesNotMet { set: set.name@, min_files, actual_files: 0 },
                        ),
                        _ => None,
                    }
                }
            },
        }
    }
}

/// What composing a definition on the base model `base_model` gives against the sets found
/// on disk.
pub open spec fn compose_definition(definition: Definition, base_model: Seq<char>, sets: Seq<ResolvedNetworkSet>) -> Result<
    ComposedModelView,
    ComposeErrorView,
> {
    match compose_selections(definition, sets, definition.includes@.len()) {
        Err(e) => Err(e),
        Ok(paths) => match omitted_set_error(definition, sets, sets.len()) {
            Some(e) => Err(e),
            None => Ok(
                ComposedModelView {
                    name: definition.name@,
                    base_model,
                    includes: paths,
                    overrides: text_of(definition.overrides),
                },
            ),
        },
    }
}

/// The definition that composing `name` uses: an error on the first repeated definition name,
/// then on the first repeated set name, then when no definition has that name.
pub open spec fn composition_definition_spec(manifest: ProjectManifest, name: Seq<char>) -> Result<
    int,
    ComposeErrorView,
> {
    let definitions = definition_names(manifest.definitions@);
    let sets = set_names(manifest.network_sets@);
    match first_repeat(definitions, definitions.len()) {
        Some(j) => Err(duplicate_compose_error(NameKind::Definition, definitions[j])),
        None => match first_repeat(sets, sets.len()) {
            Some(j) => Err(duplicate_compose_error(NameKind::NetworkSet, sets[j])),
            None => match find_definition(manifest.definitions@, name) {
                None => Err(ComposeErrorView::DefinitionNotFound { definition: name }),
                Some(k) => Ok(k),
            },
        },
    }
}

/// The first failed resolution among the first `m`.
pub open spec fn first_failure(resolved: Seq<Result<ResolvedNetworkSet, ComposeModelError>>, m: nat) -> Option<
    ComposeErrorView,
>
    decreases m,
{
    if m == 0 {
        None
    } else {
        match first_failure(resolved, (m - 1) as nat) {
            Some(e) => Some(e),
            None => match resolved[m - 1] {
                Err(e) => Some(e@),
                Ok(_) => None,
            },
        }
    }
}

/// The sets that were found, in order.
pub open spec fn found_sets(resolved: Seq<Result<ResolvedNetworkSet, ComposeModelError>>, m: nat) -> Seq<
    ResolvedNetworkSet,
>
    decreases m,
{
    if m == 0 {
        Seq::empty()
    } else {
        let prev = found_sets(resolved, (m - 1) as nat);
        match resolved[m - 1] {
            Ok(set) => prev.push(set),
            Err(_) => prev,
        }
    }
}

/// What composing the definition `name` of a manifest gives, given the resolution of its base
/// model and, in order, of its network sets.
pub open spec fn compose_manifest(
    manifest: ProjectManifest,
    name: Seq<char>,
    base_model: Result<String, ComposeModelError>,
    resolved: Seq<Result<ResolvedNetworkSet, ComposeModelError>>,
) -> Result<ComposedModelView, ComposeErrorView> {
    match composition_definition_spec(manifest, name) {
        Err(e) => Err(e),
        Ok(k) => match base_model {
            Err(e) => Err(e@),
            Ok(base) => match first_failure(resolved, resolved.len()) {
                Some(e) => Err(e),
                None => compose_definition(manifest.definitions@[k], base@, found_sets(resolved, resolved.len())),
            },
        },
    }
}

/// Resolves the files that a selection takes from a set, for composition: their positions in
/// the set, in the order listed, or the error on the first listed name that is no single file
/// name, that was listed before, or that the set does not hold.
pub fn resolve_selection_for_composition(selection: &DefinitionSelection, set: &ResolvedNetworkSet) -> (r:
    Result<Vec<usize>, ComposeModelError>)
    ensures
        match compose_selection(*selection, *set) {
            Ok(found) => r matches Ok(v) && positions_view(v@) == found,
            Err(e) => r matches Err(x) && x@ == e,
        },
        r matches Ok(v) ==> forall|k: int| 0 <= k < v@.len() ==> #[trigger] v@[k] < set.files@.len(),
{
    let mut result: Vec<usize> = Vec::new();
    match selection.include_all {
        Some(true) => {
            let n = set.files.len();
            let mut i: usize = 0;
            while i < n
                invariant
                    i <= n,
                    n == set.files@.len(),
                    result@.len() == i,
                    forall|k: int| 0 <= k < i ==> result@[k] == k,
                decreases n - i,
            {
                result.push(i);
                i = i + 1;
            }
            proof {
                assert(positions_view(result@) =~= Seq::new(set.files@.len(), |i: int| i));
            }
            return Ok(result);
        },
        _ => {},
    }
    let ghost available = file_names(set.files@);
    let ghost wanted = wanted_files(*selection);
    match &selection.files {
        None => {
            proof {
                assert(positions_view(result@) =~= Seq::<int>::empty());
            }
            Ok(result)
        },
        Some(files) => {
            let mut i: usize = 0;
            proof {
                assert(positions_view(result@) =~= Seq::<int>::empty());
            }
            while i < files.len()
                invariant
                    i <= files.len(),
                    wanted == names_view(files@),
                    wanted == wanted_files(*selection),
                    !selects_all(*selection),
                    available == file_names(set.files@),
                    compose_selection_step(set.name@, available, wanted, i as nat) == Ok::<Seq<int>, ComposeErrorView>(
                        positions_view(result@),
                    ),
                    forall|k: int| 0 <= k < result@.len() ==> #[trigger] result@[k] < set.files@.len(),
                decreases files.len() - i,
            {
                let file = &files[i];
                proof {
                    assert(wanted[i as int] == file@);
                }
                if !is_filename(file.as_str()) {
                    let mut field = String::from_str("selected file in network set '");
                    field.append(set.name.as_str());
                    field.append("'");
                    proof {
                        lemma_compose_step_err_stays(set.name@, available, wanted, (i + 1) as nat, wanted.len());
                    }
                    return Err(ComposeModelError::InvalidRelativePath { field, path: file.clone() });
                }
                if occurs_before(files, i) {
                    proof {
                        lemma_compose_step_err_stays(set.name@, available, wanted, (i + 1) as nat, wanted.len());
                    }
                    return Err(ComposeModelError::DuplicateFile { set: set.name.clone(), file: file.clone() });
                }
                match find_file(&set.files, file) {
                    Some(j) => {
                        let ghost prev = result@;
                        proof {
                            lemma_first_index_contains(available, file@, available.len());
                        }
                        result.push(j);
                        proof {
                            assert(positions_view(result@) =~= positions_view(prev).push(j as int));
                        }
                    },
                    None => {
                        proof {
                            lemma_compose_step_err_stays(set.name@, available, wanted, (i + 1) as nat, wanted.len());
                        }
                        return Err(ComposeModelError::FileNotFound { set: set.name.clone(), file: file.clone() });
                    },
                }
                i = i + 1;
            }
            Ok(result)
        },
    }
}

proof fn lemma_compose_selections_err_stays(definition: Definition, sets: Seq<ResolvedNetworkSet>, m: nat, n: nat)
    requires
        m <= n,
        compose_selections(definition, sets, m) is Err,
    ensures
        compose_selections(definition, sets, n) == compose_selections(definition, sets, m),
    decreases n - m,
{
    if m < n {
        lemma_compose_selections_err_stays(definition, sets, m, (n - 1) as nat);
    }
}

proof fn lemma_omitted_stays(definition: Definition, sets: Seq<ResolvedNetworkSet>, m: nat, n: nat)
    requires
        m <= n,
        omitted_set_error(definition, sets, m) is Some,
    ensures
        omitted_set_error(definition, sets, n) == omitted_set_error(definition, sets, m),
    decreases n - m,
{
    if m < n {
        lemma_omitted_stays(definition, sets, m, (n - 1) as nat);
    }
}

impl Definition {
    /// Composes the definition on the base model `base_model` against the sets found on disk:
    /// the files of each selection in turn, checked against the bounds of its set, then the
    /// bounds of the sets that the definition does not select (see [`compose_definition`]).
    pub fn compose_model(&self, base_model: String, sets: &Vec<ResolvedNetworkSet>) -> (r: Result<
        ComposedModel,
        ComposeModelError,
    >)
        ensures
            match compose_definition(*self, base_model@, sets@) {
                Ok(model) => r matches Ok(m) && m@ == model,
                Err(e) => r matches Err(x) && x@ == e,
            },
    {
        let ghost base = base_model@;
        let selected = selection_set_names(&self.includes);
        let names = resolved_set_names(sets);
        let mut builder = ComposedModelBuilder::new(self.name.clone(), base_model);
        let mut i: usize = 0;
        while i < self.includes.len()
            invariant
                i <= self.includes.len(),
                names_view(selected@) == selection_sets(self.includes@),
                names_view(names@) == resolved_names(sets@),
                builder@.name == self.name@,
                builder@.base_model == base,
                builder@.overrides is None,
                compose_selections(*self, sets@, i as nat) == Ok::<Seq<Seq<char>>, ComposeErrorView>(
                    builder@.includes,
                ),
            decreases self.includes.len() - i,
        {
            let selection = &self.includes[i];
            proof {
                assert(names_view(selected@).len() == selected@.len());
                assert(selection_sets(self.includes@).len() == self.includes@.len());
                assert(names_view(selected@)[i as int] == selection.set@);
            }
            if occurs_before(&selected, i) {
                proof {
                    lemma_compose_selections_err_stays(*self, sets@, (i + 1) as nat, self.includes@.len());
                }
                return Err(ComposeModelError::DuplicateSelection { set: selection.set.clone() });
            }
            let found = find_name(&names, &selection.set);
            let k = match found {
                None => {
                    proof {
                        assert(names_view(names@).len() == names@.len());
                        assert(resolved_names(sets@).len() == sets@.len());
                        lemma_compose_selections_err_stays(*self, sets@, (i + 1) as nat, self.includes@.len());
                    }
                    return Err(ComposeModelError::SetNotFound { set: selection.set.clone() });
                },
                Some(k) => k,
            };
            proof {
                assert(names_view(names@).len() == names@.len());
                assert(resolved_names(sets@).len() == sets@.len());
                lemma_first_index_contains(names_view(names@), selection.set@, names@.len());
            }
            let set = &sets[k];
            match (set.min_files, set.max_files) {
                (Some(min_files), Some(max_files)) => {
                    if min_files > max_files {
                        proof {
                            lemma_compose_selections_err_stays(*self, sets@, (i + 1) as nat, self.includes@.len());
                        }
                        return Err(ComposeModelError::InvalidFileConstraints {
                            set: set.name.clone(),
                            min_files,
                            max_files,
                        });
                    }
                },
                _ => {},
            }
            let files = match resolve_selection_for_composition(selection, set) {
                Ok(files) => files,
                Err(e) => {
                    proof {
                        lemma_compose_selections_err_stays(*self, sets@, (i + 1) as nat, self.includes@.len());
                    }
                    return Err(e);
                },
            };
            proof {
                assert(positions_view(files@).len() == files@.len());
            }
            if let Some(min_files) = set.min_files {
                if files.len() < min_files {
                    proof {
                        lemma_compose_selections_err_stays(*self, sets@, (i + 1) as nat, self.includes@.len());
                    }
                    return Err(ComposeModelError::MinFilesNotMet {
                        set: set.name.clone(),
                        min_files,
                        actual_files: files.len(),
                    });
                }
            }
            if let Some(max_files) = set.max_files {
                if files.len() > max_files {
                    proof {
                        lemma_compose_selections_err_stays(*self, sets@, (i + 1) as nat, self.includes@.len());
                    }
                    return Err(ComposeModelError::MaxFilesExceeded {
                        set: set.name.clone(),
                        max_files,
                        actual_files: files.len(),
                    });
                }
            }
            let ghost before = builder@.includes;
            let mut t: usize = 0;
            while t < files.len()
                invariant
                    t <= files.len(),
                    k < sets@.len(),
                    set == sets@[k as int],
                    forall|q: int| 0 <= q < files@.len() ==> #[trigger] files@[q] < set.files@.len(),
                    builder@.name == self.name@,
                    builder@.base_model == base,
                    builder@.overrides is None,
                    builder@.includes == before + paths_at(*set, positions_view(files@).take(t as int)),
                decreases files.len() - t,
            {
                let idx = files[t];
                let ghost prev = builder@.includes;
                builder.add_included_path(set.files[idx].path.clone());
                proof {
                    assert(positions_view(files@).take(t + 1) =~= positions_view(files@).take(t as int).push(
                        idx as int,
                    ));
                    assert(paths_at(*set, positions_view(files@).take(t + 1)) =~= paths_at(
                        *set,
                        positions_view(files@).take(t as int),
                    ).push(set.files@[idx as int].path@));
                    assert(builder@.includes =~= before + paths_at(*set, positions_view(files@).take(t + 1)));
                }
                t = t + 1;
            }
            proof {
                assert(positions_view(files@).take(files@.len() as int) =~= positions_view(files@));
                assert(builder@.includes == before + paths_at(*set, positions_view(files@)));
            }
            i = i + 1;
        }
        let mut k: usize = 0;
        while k < sets.len()
            invariant
                k <= sets.len(),
                names_view(selected@) == selection_sets(self.includes@),
                omitted_set_error(*self, sets@, k as nat) is None,
                builder@.name == self.name@,
                builder@.base_model == base,
                builder@.overrides is None,
                compose_selections(*self, sets@, self.includes@.len()) == Ok::<Seq<Seq<char>>, ComposeErrorView>(
                    builder@.includes,
                ),
            decreases sets.len() - k,
        {
            let set = &sets[k];
            proof {
                lemma_first_index_contains(names_view(selected@), set.name@, selected@.len());
                assert(names_view(selected@).take(selected@.len() as int) =~= names_view(selected@));
            }
            if find_name(&selected, &set.name).is_none() {
                if let Some(min_files) = set.min_files {
                    if min_files > 0 {
                        proof {
                            lemma_omitted_stays(*self, sets@, (k + 1) as nat, sets@.len());
                        }
                        return Err(ComposeModelError::MinFilesNotMet {
                            set: set.name.clone(),
                            min_files,
                            actual_files: 0,
                        });
                    }
                }
            }
            k = k + 1;
        }
        if let Some(overrides) = &self.overrides {
            builder.overrides(overrides.clone());
        }
        Ok(builder.build())
    }
}

proof fn lemma_first_failure_stays(resolved: Seq<Result<ResolvedNetworkSet, ComposeModelError>>, m: nat, n: nat)
    requires
        m <= n,
        first_failure(resolved, m) is Some,
    ensures
        first_failure(resolved, n) == first_failure(resolved, m),
    decreases n - m,
{
    if m < n {
        lemma_first_failure_stays(resolved, m, (n - 1) as nat);
    }
}

/// The sets that were found, in order, or the error of the first resolution that failed.
pub fn found_sets_or_failure(resolved: Vec<Result<ResolvedNetworkSet, ComposeModelError>>) -> (r: Result<
    Vec<ResolvedNetworkSet>,
    ComposeModelError,
>)
    ensures
        match first_failure(resolved@, resolved@.len()) {
            Some(e) => r matches Err(x) && x@ == e,
            None => r matches Ok(v) && v@ == found_sets(resolved@, resolved@.len()),
        },
{
    let ghost all = resolved@;
    proof {
        assert(all.len() == resolved.len());
        assert(all.skip(0) =~= all);
    }
    let mut rest = resolved;
    let mut found: Vec<ResolvedNetworkSet> = Vec::new();
    let mut i: usize = 0;
    while rest.len() > 0
        invariant
            i <= all.len(),
            all == resolved@,
            all.len() <= usize::MAX,
            i + rest@.len() == all.len(),
            rest@ == all.skip(i as int),
            first_failure(all, i as nat) is None,
            found@ == found_sets(all, i as nat),
        decreases rest.len(),
    {
        let item = rest.remove(0);
        proof {
            assert(item == all[i as int]);
            assert(rest@ =~= all.skip(i + 1));
        }
        match item {
            Ok(set) => {
                found.push(set);
            },
            Err(e) => {
                proof {
                    lemma_first_failure_stays(all, (i + 1) as nat, all.len());
                }
                return Err(e);
            },
        }
        i = i + 1;
    }
    Ok(found)
}

impl ProjectManifest {
    /// The position of the definition that composing `definition_name` uses, or the error on
    /// the first repeated definition name, on the first repeated set name, or on a name that
    /// no definition has (see [`composition_definition_spec`]).
    pub fn composition_definition(&self, definition_name: &str) -> (r: Result<usize, ComposeModelError>)
        ensures
            match composition_definition_spec(*self, definition_name@) {
                Ok(k) => r matches Ok(j) && j as int == k && j < self.definitions@.len(),
                Err(e) => r matches Err(x) && x@ == e,
            },
    {
        let definitions = copy_string_vec_of_definitions(&self.definitions);
        match ensure_unique(&definitions, &NameKind::Definition) {
            Ok(()) => {},
            Err(e) => {
                return Err(e);
            },
        }
        let sets = copy_string_vec_of_sets(&self.network_sets);
        match ensure_unique(&sets, &NameKind::NetworkSet) {
            Ok(()) => {},
            Err(e) => {
                return Err(e);
            },
        }
        match self.definition_position(definition_name) {
            Some(k) => Ok(k),
            None => Err(ComposeModelError::DefinitionNotFound { definition: String::from_str(definition_name) }),
        }
    }

    /// Composes the definition `definition_name`, given the resolution of the base model and,
    /// in order, of each network set (see [`compose_manifest`]).
    pub fn compose_resolved(
        &self,
        definition_name: &str,
        base_model: Result<String, ComposeModelError>,
        sets: Vec<Result<ResolvedNetworkSet, ComposeModelError>>,
    ) -> (r: Result<ComposedModel, ComposeModelError>)
        ensures
            match compose_manifest(*self, definition_name@, base_model, sets@) {
                Ok(model) => r matches Ok(m) && m@ == model,
                Err(e) => r matches Err(x) && x@ == e,
            },
    {
        let ghost all = sets@;
        let k = match self.composition_definition(definition_name) {
            Ok(k) => k,
            Err(e) => {
                return Err(e);
            },
        };
        let base = match base_model {
            Ok(base) => base,
            Err(e) => {
                return Err(e);
            },
        };
        let found = match found_sets_or_failure(sets) {
            Ok(found) => found,
            Err(e) => {
                return Err(e);
            },
        };
        self.definitions[k].compose_model(base, &found)
    }
}

} // verus!
