//! Scenario groups and the scenario domain: which combinations of scenarios a model runs,
//! in what order, and under which simulation and schema indices.

use vstd::prelude::*;
use crate::text::{decimal, join, usize_to_decimal, join_strings};
use vstd::arithmetic::div_mod::{lemma_fundamental_div_mod, lemma_fundamental_div_mod_converse};

verus! {

/// Errors raised while building scenario groups and domains.
#[derive(Debug)]
pub enum ScenarioError {
    DuplicateGroupName(String),
    GroupNameNotFound(String),
    CombinationsAndSlices,
    NoLabels { group: String },
    LabelNotFound { group: String, label: String },
    IncorrectNumberOfLabels { group: String, found: usize, expected: usize },
    InvalidSlice { group: String, size: usize, start: usize, end: usize },
}

/// The mathematical form of a [`ScenarioError`], with every text as its characters.
pub enum ScenarioErrorView {
    DuplicateGroupName(Seq<char>),
    GroupNameNotFound(Seq<char>),
    CombinationsAndSlices,
    NoLabels { group: Seq<char> },
    LabelNotFound { group: Seq<char>, label: Seq<char> },
    IncorrectNumberOfLabels { group: Seq<char>, found: usize, expected: usize },
    InvalidSlice { group: Seq<char>, size: usize, start: usize, end: usize },
}

impl View for ScenarioError {
    type V = ScenarioErrorView;

    open spec fn view(&self) -> ScenarioErrorView {
        match self {
            ScenarioError::DuplicateGroupName(n) => ScenarioErrorView::DuplicateGroupName(n@),
            ScenarioError::GroupNameNotFound(n) => ScenarioErrorView::GroupNameNotFound(n@),
            ScenarioError::CombinationsAndSlices => ScenarioErrorView::CombinationsAndSlices,
            ScenarioError::NoLabels { group } => ScenarioErrorView::NoLabels { group: group@ },
            ScenarioError::LabelNotFound { group, label } => ScenarioErrorView::LabelNotFound {
                group: group@,
                label: label@,
            },
            ScenarioError::IncorrectNumberOfLabels { group, found, expected } =>
                ScenarioErrorView::IncorrectNumberOfLabels {
                group: group@,
                found: *found,
                expected: *expected,
            },
            ScenarioError::InvalidSlice { group, size, start, end } => ScenarioErrorView::InvalidSlice {
                group: group@,
                size: *size,
                start: *start,
                end: *end,
            },
        }
    }
}

/// A result whose error is taken by its view.
pub open spec fn res_view<T>(r: Result<T, ScenarioError>) -> Result<T, ScenarioErrorView> {
    match r {
        Ok(v) => Ok(v),
        Err(e) => Err(e@),
    }
}

/// The views of a vector of strings.
pub open spec fn strings_view(v: Seq<String>) -> Seq<Seq<char>> {
    v.map_values(|s: String| s@)
}

/// The first position of `v` in `s`; meaningful when `s` contains `v`.
pub open spec fn first_index<T>(s: Seq<T>, v: T) -> int {
    choose|p: int| 0 <= p < s.len() && s[p] == v && forall|j: int| 0 <= j < p ==> s[j] != v
}

/// A position `p` that is the first occurrence of `v` in `s` is what [`first_index`] names.
pub proof fn lemma_first_index<T>(s: Seq<T>, v: T, p: int)
    requires
        0 <= p < s.len(),
        s[p] == v,
        forall|j: int| 0 <= j < p ==> s[j] != v,
    ensures
        first_index(s, v) == p,
{
    let q = first_index(s, v);
    assert(0 <= q < s.len() && s[q] == v && forall|j: int| 0 <= j < q ==> s[j] != v);
    if q < p {
        assert(s[q] != v);
    } else if p < q {
        assert(s[p] != v);
    }
}

/// Finds the first position of `label` in `labels`.
fn position_of_string(labels: &Vec<String>, label: &String) -> (r: Option<usize>)
    ensures
        match r {
            Some(p) => p < labels.len() && first_index(strings_view(labels@), label@) == p
                && strings_view(labels@).contains(label@),
            None => !strings_view(labels@).contains(label@),
        },
{
    let ghost views = strings_view(labels@);
    let mut i: usize = 0;
    while i < labels.len()
        invariant
            i <= labels.len(),
            views == strings_view(labels@),
            forall|j: int| 0 <= j < i ==> views[j] != label@,
        decreases labels.len() - i,
    {
        if labels[i] == *label {
            proof {
                lemma_first_index(views, label@, i as int);
                assert(views[i as int] == label@);
            }
            return Some(i);
        }
        i = i + 1;
    }
    proof {
        if views.contains(label@) {
            let k = choose|k: int| 0 <= k < views.len() && views[k] == label@;
            assert(views[k] != label@);
        }
    }
    None
}

/// Finds the first position of `value` in `values`.
fn position_of_index(values: &Vec<usize>, value: usize) -> (r: Option<usize>)
    ensures
        match r {
            Some(p) => p < values.len() && first_index(values@, value) == p && values@.contains(value),
            None => !values@.contains(value),
        },
{
    let mut i: usize = 0;
    while i < values.len()
        invariant
            i <= values.len(),
            forall|j: int| 0 <= j < i ==> values@[j] != value,
        decreases values.len() - i,
    {
        if values[i] == value {
            proof {
                lemma_first_index(values@, value, i as int);
            }
            return Some(i);
        }
        i = i + 1;
    }
    proof {
        if values@.contains(value) {
            let k = choose|k: int| 0 <= k < values@.len() && values@[k] == value;
            assert(values@[k] != value);
        }
    }
    None
}

fn copy_indices(v: &Vec<usize>) -> (r: Vec<usize>)
    ensures
        r@ == v@,
{
    let mut r: Vec<usize> = Vec::new();
    let mut i: usize = 0;
    while i < v.len()
        invariant
            i <= v.len(),
            r@ == v@.take(i as int),
        decreases v.len() - i,
    {
        r.push(v[i]);
        proof {
            assert(v@.take(i + 1) =~= v@.take(i as int).push(v@[i as int]));
        }
        i = i + 1;
    }
    proof {
        assert(v@.take(v.len() as int) =~= v@);
    }
    r
}

fn copy_strings(v: &Vec<String>) -> (r: Vec<String>)
    ensures
        strings_view(r@) == strings_view(v@),
        r@ == v@,
{
    let mut r: Vec<String> = Vec::new();
    let mut i: usize = 0;
    while i < v.len()
        invariant
            i <= v.len(),
            r@ == v@.take(i as int),
        decreases v.len() - i,
    {
        r.push(v[i].clone());
        proof {
            assert(v@.take(i + 1) =~= v@.take(i as int).push(v@[i as int]));
        }
        i = i + 1;
    }
    proof {
        assert(v@.take(v.len() as int) =~= v@);
    }
    r
}

fn strs_to_strings(v: &[&str]) -> (r: Vec<String>)
    ensures
        strings_view(r@) == v@.map_values(|s: &str| s@),
{
    let mut r: Vec<String> = Vec::new();
    let mut i: usize = 0;
    while i < v.len()
        invariant
            i <= v.len(),
            r@.len() == i,
            strings_view(r@) == v@.take(i as int).map_values(|s: &str| s@),
        decreases v.len() - i,
    {
        let ghost prev = r@;
        let item = String::from_str(v[i]);
        r.push(item);
        proof {
            assert(r@ == prev.push(item));
            assert(item@ == v@[i as int]@);
            let a = strings_view(r@);
            let b = v@.take(i + 1).map_values(|s: &str| s@);
            let c = v@.take(i as int).map_values(|s: &str| s@);
            assert(a.len() == b.len());
            assert forall|j: int| 0 <= j < a.len() implies a[j] == b[j] by {
                if j < i {
                    assert(a[j] == strings_view(prev)[j]);
                    assert(c[j] == b[j]);
                }
            }
            assert(a =~= b);
        }
        i = i + 1;
    }
    proof {
        assert(v@.take(v.len() as int) =~= v@);
    }
    r
}

/// The subset of a group's scenarios that a model runs.
#[derive(Debug)]
pub enum ScenarioGroupSubset {
    /// Slice of scenarios to run
    Slice { start: usize, end: usize },
    /// Specific scenarios to run
    Indices(Vec<usize>),
}

/// The mathematical form of a [`ScenarioGroupSubset`].
pub enum SubsetView {
    Slice { start: usize, end: usize },
    Indices(Seq<usize>),
}

impl View for ScenarioGroupSubset {
    type V = SubsetView;

    open spec fn view(&self) -> SubsetView {
        match self {
            ScenarioGroupSubset::Slice { start, end } => SubsetView::Slice { start: *start, end: *end },
            ScenarioGroupSubset::Indices(v) => SubsetView::Indices(v@),
        }
    }
}

/// The mathematical form of a [`ScenarioGroup`].
pub struct GroupView {
    pub name: Seq<char>,
    pub size: usize,
    pub subset: Option<SubsetView>,
    pub labels: Option<Seq<Seq<char>>>,
}

/// A named group of scenarios: its size, an optional subset to run and optional labels.
#[derive(Debug)]
pub struct ScenarioGroup {
    /// Name of the scenario group
    name: String,
    /// Number of scenarios in the group
    size: usize,
    /// Optional subset of scenarios to run
    subset: Option<ScenarioGroupSubset>,
    /// Optional labels for the group
    labels: Option<Vec<String>>,
}

impl View for ScenarioGroup {
    type V = GroupView;

    closed spec fn view(&self) -> GroupView {
        GroupView {
            name: self.name@,
            size: self.size,
            subset: match self.subset {
                Some(s) => Some(s@),
                None => None,
            },
            labels: match self.labels {
                Some(l) => Some(strings_view(l@)),
                None => None,
            },
        }
    }
}

/// What every group satisfies: a slice lies inside the group and labels name every scenario.
pub open spec fn group_wf(g: GroupView) -> bool {
    &&& (g.subset matches Some(SubsetView::Slice { start, end }) ==> start < end && end <= g.size)
    &&& (g.labels matches Some(l) ==> l.len() == g.size)
    &&& (g.subset matches Some(SubsetView::Indices(ix)) ==> ix.len() <= usize::MAX)
}

impl Default for ScenarioGroup {
    /// The group that stands alone when a model defines none: one scenario named "Default".
    fn default() -> (g: ScenarioGroup)
        ensures
            g@.name == "Default"@,
            g@.size == 1,
            g@.subset is None,
            g@.labels is None,
    {
        proof { reveal_strlit("Default"); }
        ScenarioGroup { name: String::from_str("Default"), size: 1, subset: None, labels: None }
    }
}

impl ScenarioGroup {
    #[verifier::type_invariant]
    spec fn inv(self) -> bool {
        group_wf(self@)
    }

    pub fn name(&self) -> (r: &str)
        ensures
            r@ == self@.name,
    {
        self.name.as_str()
    }

    pub fn size(&self) -> (r: usize)
        ensures
            r == self@.size,
    {
        self.size
    }

    /// The position of `label` among the group's labels.
    pub fn label_position(&self, label: &str) -> (r: Result<usize, ScenarioError>)
        ensures
            res_view(r) == label_position_spec(self@, label@),
    {
        match &self.labels {
            Some(labels) => {
                let label_owned = String::from_str(label);
                match position_of_string(labels, &label_owned) {
                    Some(p) => Ok(p),
                    None => Err(ScenarioError::LabelNotFound { group: self.name.clone(), label: label_owned }),
                }
            },
            None => Err(ScenarioError::NoLabels { group: self.name.clone() }),
        }
    }
}

/// The position of a label in a group, or the error that looking it up raises.
pub open spec fn label_position_spec(g: GroupView, label: Seq<char>) -> Result<usize, ScenarioErrorView> {
    match g.labels {
        Some(l) => if l.contains(label) {
            Ok(first_index(l, label) as usize)
        } else {
            Err(ScenarioErrorView::LabelNotFound { group: g.name, label })
        },
        None => Err(ScenarioErrorView::NoLabels { group: g.name }),
    }
}


/// How a group's subset is given to its builder.
pub enum ScenarioGroupSubsetBuilder {
    Slice { start: usize, end: usize },
    Indices(Vec<usize>),
    Labels(Vec<String>),
}

/// The mathematical form of a [`ScenarioGroupSubsetBuilder`].
pub enum SubsetBuilderView {
    Slice { start: usize, end: usize },
    Indices(Seq<usize>),
    Labels(Seq<Seq<char>>),
}

impl View for ScenarioGroupSubsetBuilder {
    type V = SubsetBuilderView;

    open spec fn view(&self) -> SubsetBuilderView {
        match self {
            ScenarioGroupSubsetBuilder::Slice { start, end } => SubsetBuilderView::Slice {
                start: *start,
                end: *end,
            },
            ScenarioGroupSubsetBuilder::Indices(v) => SubsetBuilderView::Indices(v@),
            ScenarioGroupSubsetBuilder::Labels(v) => SubsetBuilderView::Labels(strings_view(v@)),
        }
    }
}

/// The mathematical form of a [`ScenarioGroupBuilder`].
pub struct GroupBuilderView {
    pub name: Seq<char>,
    pub size: usize,
    pub subset: Option<SubsetBuilderView>,
    pub labels: Option<Seq<Seq<char>>>,
}

/// Builder for [`ScenarioGroup`] instances.
pub struct ScenarioGroupBuilder {
    name: String,
    size: usize,
    subset: Option<ScenarioGroupSubsetBuilder>,
    labels: Option<Vec<String>>,
}

impl View for ScenarioGroupBuilder {
    type V = GroupBuilderView;

    closed spec fn view(&self) -> GroupBuilderView {
        GroupBuilderView {
            name: self.name@,
            size: self.size,
            subset: match self.subset {
                Some(s) => Some(s@),
                None => None,
            },
            labels: match self.labels {
                Some(l) => Some(strings_view(l@)),
                None => None,
            },
        }
    }
}

/// The positions of the first `m` subset labels among `labels`, or the error for the first
/// of them that is missing.
pub open spec fn subset_label_positions(
    labels: Seq<Seq<char>>,
    subset: Seq<Seq<char>>,
    group: Seq<char>,
    m: nat,
) -> Result<Seq<usize>, ScenarioErrorView>
    decreases m,
{
    if m == 0 {
        Ok(Seq::empty())
    } else {
        match subset_label_positions(labels, subset, group, (m - 1) as nat) {
            Err(e) => Err(e),
            Ok(s) => {
                let l = subset[m - 1];
                if labels.contains(l) {
                    Ok(s.push(first_index(labels, l) as usize))
                } else {
                    Err(ScenarioErrorView::LabelNotFound { group, label: l })
                }
            },
        }
    }
}

proof fn lemma_subset_label_positions_err(
    labels: Seq<Seq<char>>,
    subset: Seq<Seq<char>>,
    group: Seq<char>,
    m: nat,
    n: nat,
)
    requires
        m <= n,
        subset_label_positions(labels, subset, group, m) is Err,
    ensures
        subset_label_positions(labels, subset, group, n) == subset_label_positions(labels, subset, group, m),
    decreases n - m,
{
    if m < n {
        lemma_subset_label_positions_err(labels, subset, group, m, (n - 1) as nat);
    }
}

/// The subset that a group builder resolves to, or the error it raises.
pub open spec fn resolved_subset(b: GroupBuilderView) -> Result<Option<SubsetView>, ScenarioErrorView> {
    match b.subset {
        Some(SubsetBuilderView::Slice { start, end }) => if start >= end || end > b.size {
            Err(ScenarioErrorView::InvalidSlice { group: b.name, size: b.size, start, end })
        } else {
            Ok(Some(SubsetView::Slice { start, end }))
        },
        Some(SubsetBuilderView::Indices(ix)) => Ok(Some(SubsetView::Indices(ix))),
        Some(SubsetBuilderView::Labels(sub)) => match b.labels {
            Some(ls) => match subset_label_positions(ls, sub, b.name, sub.len()) {
                Ok(ix) => Ok(Some(SubsetView::Indices(ix))),
                Err(e) => Err(e),
            },
            None => Err(ScenarioErrorView::NoLabels { group: b.name }),
        },
        None => Ok(None),
    }
}

/// The group that a group builder builds, or the error it raises: first any error of the
/// subset, then a count of labels that differs from the size.
pub open spec fn built_group(b: GroupBuilderView) -> Result<GroupView, ScenarioErrorView> {
    match resolved_subset(b) {
        Err(e) => Err(e),
        Ok(subset) => match b.labels {
            Some(ls) if ls.len() != b.size => Err(ScenarioErrorView::IncorrectNumberOfLabels {
                group: b.name,
                found: ls.len() as usize,
                expected: b.size,
            }),
            _ => Ok(GroupView { name: b.name, size: b.size, subset, labels: b.labels }),
        },
    }
}

/// The positions of `subset` labels among `labels`.
fn subset_label_indices(labels: &Vec<String>, subset: &Vec<String>, group: &String) -> (r: Result<
    Vec<usize>,
    ScenarioError,
>)
    ensures
        match r {
            Ok(ix) => subset_label_positions(strings_view(labels@), strings_view(subset@), group@, subset@.len())
                == Ok::<Seq<usize>, ScenarioErrorView>(ix@),
            Err(e) => subset_label_positions(strings_view(labels@), strings_view(subset@), group@, subset@.len())
                == Err::<Seq<usize>, ScenarioErrorView>(e@),
        },
{
    let ghost ls = strings_view(labels@);
    let ghost sub = strings_view(subset@);
    let mut indices: Vec<usize> = Vec::new();
    let mut i: usize = 0;
    while i < subset.len()
        invariant
            i <= subset.len(),
            ls == strings_view(labels@),
            sub == strings_view(subset@),
            subset_label_positions(ls, sub, group@, i as nat) == Ok::<Seq<usize>, ScenarioErrorView>(indices@),
        decreases subset.len() - i,
    {
        match position_of_string(labels, &subset[i]) {
            Some(p) => {
                indices.push(p);
            },
            None => {
                let e = ScenarioError::LabelNotFound { label: subset[i].clone(), group: group.clone() };
                proof {
                    assert(sub[i as int] == subset@[i as int]@);
                    lemma_subset_label_positions_err(ls, sub, group@, (i + 1) as nat, sub.len());
                }
                return Err(e);
            },
        }
        i = i + 1;
    }
    Ok(indices)
}

/// A group result taken by its views.
pub open spec fn group_res_view(r: Result<ScenarioGroup, ScenarioError>) -> Result<GroupView, ScenarioErrorView> {
    match r {
        Ok(g) => Ok(g@),
        Err(e) => Err(e@),
    }
}

impl ScenarioGroupBuilder {
    pub fn new(name: &str, size: usize) -> (b: Self)
        ensures
            b@.name == name@,
            b@.size == size,
            b@.subset is None,
            b@.labels is None,
    {
        ScenarioGroupBuilder { name: String::from_str(name), size, subset: None, labels: None }
    }

    /// Set the subset of scenarios to run as a slice
    pub fn with_subset_slice(self, start: usize, end: usize) -> (b: Self)
        ensures
            b@ == (GroupBuilderView { subset: Some(SubsetBuilderView::Slice { start, end }), ..self@ }),
    {
        let mut b = self;
        b.subset = Some(ScenarioGroupSubsetBuilder::Slice { start, end });
        b
    }

    /// Set the subset of scenarios to run as a list of indices
    pub fn with_subset_indices(self, indices: Vec<usize>) -> (b: Self)
        ensures
            b@ == (GroupBuilderView { subset: Some(SubsetBuilderView::Indices(indices@)), ..self@ }),
    {
        let mut b = self;
        b.subset = Some(ScenarioGroupSubsetBuilder::Indices(indices));
        b
    }

    /// Set the subset of scenarios to run as a list of labels. The complete list of labels must
    /// be defined using the [`with_labels`] method.
    pub fn with_subset_labels(self, labels: &[&str]) -> (b: Self)
        ensures
            b@ == (GroupBuilderView {
                subset: Some(SubsetBuilderView::Labels(labels@.map_values(|s: &str| s@))),
                ..self@
            }),
    {
        let mut b = self;
        b.subset = Some(ScenarioGroupSubsetBuilder::Labels(strs_to_strings(labels)));
        b
    }

    /// Set the labels for the group
    pub fn with_labels(self, labels: &[&str]) -> (b: Self)
        ensures
            b@ == (GroupBuilderView { labels: Some(labels@.map_values(|s: &str| s@)), ..self@ }),
    {
        let mut b = self;
        b.labels = Some(strs_to_strings(labels));
        b
    }

    /// Builds the group, checking that a slice lies inside the group, that subset labels are
    /// among the group's labels and that there is one label per scenario.
    pub fn build(self) -> (r: Result<ScenarioGroup, ScenarioError>)
        ensures
            group_res_view(r) == built_group(self@),
    {
        let ghost bv = self@;
        let subset = match self.subset {
            Some(ScenarioGroupSubsetBuilder::Slice { start, end }) => {
                if start >= end || end > self.size {
                    return Err(ScenarioError::InvalidSlice { group: self.name.clone(), size: self.size, start, end });
                }
                Some(ScenarioGroupSubset::Slice { start, end })
            },
            Some(ScenarioGroupSubsetBuilder::Indices(indices)) => {
                proof {
                    assert(indices@.len() == indices.len());
                }
                Some(ScenarioGroupSubset::Indices(indices))
            },
            Some(ScenarioGroupSubsetBuilder::Labels(subset_labels)) => {
                match &self.labels {
                    Some(labels) => {
                        match subset_label_indices(labels, &subset_labels, &self.name) {
                            Ok(indices) => {
                                proof {
                                    assert(indices@.len() == indices.len());
                                }
                                Some(ScenarioGroupSubset::Indices(indices))
                            },
                            Err(e) => {
                                return Err(e);
                            },
                        }
                    },
                    None => {
                        return Err(ScenarioError::NoLabels { group: self.name.clone() });
                    },
                }
            },
            None => None,
        };
        if let Some(labels) = &self.labels {
            if labels.len() != self.size {
                return Err(ScenarioError::IncorrectNumberOfLabels {
                    group: self.name,
                    found: labels.len(),
                    expected: self.size,
                });
            }
        }
        Ok(ScenarioGroup { name: self.name, size: self.size, subset, labels: self.labels })
    }
}


/// One entry of a scenario combination: a label of the group or an index into it.
#[derive(Debug)]
pub enum ScenarioLabelOrIndex {
    Label(String),
    Index(usize),
}

/// The mathematical form of a [`ScenarioLabelOrIndex`].
pub enum LabelOrIndexView {
    Label(Seq<char>),
    Index(usize),
}

impl View for ScenarioLabelOrIndex {
    type V = LabelOrIndexView;

    open spec fn view(&self) -> LabelOrIndexView {
        match self {
            ScenarioLabelOrIndex::Label(l) => LabelOrIndexView::Label(l@),
            ScenarioLabelOrIndex::Index(i) => LabelOrIndexView::Index(*i),
        }
    }
}

/// Values that name an entry of a scenario combination.
pub trait IntoScenarioLabelOrIndex: Sized {
    spec fn label_or_index_view(&self) -> LabelOrIndexView;

    fn into_label_or_index(self) -> (r: ScenarioLabelOrIndex)
        ensures
            r@ == self.label_or_index_view(),
    ;
}

impl IntoScenarioLabelOrIndex for ScenarioLabelOrIndex {
    open spec fn label_or_index_view(&self) -> LabelOrIndexView {
        self@
    }

    fn into_label_or_index(self) -> (r: ScenarioLabelOrIndex) {
        self
    }
}

impl IntoScenarioLabelOrIndex for usize {
    open spec fn label_or_index_view(&self) -> LabelOrIndexView {
        LabelOrIndexView::Index(*self)
    }

    fn into_label_or_index(self) -> (r: ScenarioLabelOrIndex) {
        ScenarioLabelOrIndex::Index(self)
    }
}

impl IntoScenarioLabelOrIndex for String {
    open spec fn label_or_index_view(&self) -> LabelOrIndexView {
        LabelOrIndexView::Label(self@)
    }

    fn into_label_or_index(self) -> (r: ScenarioLabelOrIndex) {
        ScenarioLabelOrIndex::Label(self)
    }
}

impl<'a> IntoScenarioLabelOrIndex for &'a str {
    open spec fn label_or_index_view(&self) -> LabelOrIndexView {
        LabelOrIndexView::Label(self@)
    }

    fn into_label_or_index(self) -> (r: ScenarioLabelOrIndex) {
        ScenarioLabelOrIndex::Label(String::from_str(self))
    }
}

/// The views of a sequence of groups.
pub open spec fn groups_view(gs: Seq<ScenarioGroup>) -> Seq<GroupView> {
    gs.map_values(|g: ScenarioGroup| g@)
}

/// The views of a sequence of combinations.
pub open spec fn combinations_view(cs: Seq<Vec<ScenarioLabelOrIndex>>) -> Seq<Seq<LabelOrIndexView>> {
    cs.map_values(|c: Vec<ScenarioLabelOrIndex>| c@.map_values(|e: ScenarioLabelOrIndex| e@))
}

/// The names of a sequence of groups are pairwise distinct.
pub open spec fn names_distinct(gs: Seq<GroupView>) -> bool {
    forall|i: int, j: int| 0 <= i < j < gs.len() ==> gs[i].name != gs[j].name
}

/// Some group of `gs` is called `name`.
pub open spec fn has_group_named(gs: Seq<GroupView>, name: Seq<char>) -> bool {
    exists|i: int| 0 <= i < gs.len() && gs[i].name == name
}

fn convert_combination<T: IntoScenarioLabelOrIndex>(c: Vec<T>) -> (r: Vec<ScenarioLabelOrIndex>)
    ensures
        r@.map_values(|e: ScenarioLabelOrIndex| e@) == c@.map_values(|e: T| e.label_or_index_view()),
{
    let ghost all = c@;
    let mut out: Vec<ScenarioLabelOrIndex> = Vec::new();
    let mut rest = c;
    while rest.len() > 0
        invariant
            out@.len() <= all.len(),
            rest@ == all.subrange(out@.len() as int, all.len() as int),
            out@.map_values(|e: ScenarioLabelOrIndex| e@) == all.take(out@.len() as int).map_values(
                |e: T| e.label_or_index_view(),
            ),
        decreases rest.len(),
    {
        let ghost prev = out@;
        let e = rest.remove(0);
        proof {
            assert(e == all[prev.len() as int]);
        }
        let converted = e.into_label_or_index();
        out.push(converted);
        proof {
            assert(all.take(out@.len() as int) =~= all.take(prev.len() as int).push(e));
            let a = out@.map_values(|e: ScenarioLabelOrIndex| e@);
            let b = all.take(out@.len() as int).map_values(|e: T| e.label_or_index_view());
            let pa = prev.map_values(|e: ScenarioLabelOrIndex| e@);
            let pb = all.take(prev.len() as int).map_values(|e: T| e.label_or_index_view());
            assert forall|j: int| 0 <= j < a.len() implies a[j] == b[j] by {
                if j < prev.len() {
                    assert(a[j] == pa[j]);
                    assert(b[j] == pb[j]);
                }
            }
            assert(a =~= b);
            assert(rest@ =~= all.subrange(out@.len() as int, all.len() as int));
        }
    }
    proof {
        assert(all.take(out@.len() as int) =~= all);
    }
    out
}

/// The mathematical form of a [`ScenarioDomainBuilder`].
pub struct DomainBuilderView {
    pub groups: Seq<GroupView>,
    pub combinations: Option<Seq<Seq<LabelOrIndexView>>>,
}

/// A builder for creating a [`ScenarioDomain`].
#[derive(Debug)]
pub struct ScenarioDomainBuilder {
    groups: Vec<ScenarioGroup>,
    combinations: Option<Vec<Vec<ScenarioLabelOrIndex>>>,
}

impl View for ScenarioDomainBuilder {
    type V = DomainBuilderView;

    closed spec fn view(&self) -> DomainBuilderView {
        DomainBuilderView {
            groups: groups_view(self.groups@),
            combinations: match self.combinations {
                Some(cs) => Some(combinations_view(cs@)),
                None => None,
            },
        }
    }
}

/// What every domain builder satisfies: its groups are well formed and named apart.
pub open spec fn domain_builder_wf(b: DomainBuilderView) -> bool {
    &&& forall|i: int| 0 <= i < b.groups.len() ==> group_wf(#[trigger] b.groups[i])
    &&& names_distinct(b.groups)
}

impl Default for ScenarioDomainBuilder {
    /// The builder of a domain with no groups and no combinations.
    fn default() -> (b: ScenarioDomainBuilder)
        ensures
            b@.groups.len() == 0,
            b@.combinations is None,
    {
        let b = ScenarioDomainBuilder { groups: Vec::new(), combinations: None };
        proof {
            assert(groups_view(b.groups@) =~= Seq::<GroupView>::empty());
        }
        b
    }
}

impl ScenarioDomainBuilder {
    #[verifier::type_invariant]
    spec fn inv(self) -> bool {
        domain_builder_wf(self@)
    }

    /// Add a [`ScenarioGroup`] to the collection
    pub fn with_group(self, group: ScenarioGroup) -> (r: Result<Self, ScenarioError>)
        ensures
            match r {
                Ok(b) => !has_group_named(self@.groups, group@.name) && b@ == (DomainBuilderView {
                    groups: self@.groups.push(group@),
                    ..self@
                }),
                Err(e) => has_group_named(self@.groups, group@.name) && e@ == ScenarioErrorView::DuplicateGroupName(
                    group@.name,
                ),
            },
    {
        proof {
            use_type_invariant(&self);
            use_type_invariant(&group);
        }
        let ghost gs = self@.groups;
        let mut i: usize = 0;
        while i < self.groups.len()
            invariant
                i <= self.groups.len(),
                gs == groups_view(self.groups@),
                forall|j: int| 0 <= j < i ==> gs[j].name != group@.name,
            decreases self.groups.len() - i,
        {
            if self.groups[i].name == group.name {
                proof {
                    assert(gs[i as int].name == group@.name);
                }
                return Err(ScenarioError::DuplicateGroupName(group.name.clone()));
            }
            i = i + 1;
        }
        let ScenarioDomainBuilder { groups, combinations } = self;
        let mut groups = groups;
        let ghost gv = group@;
        groups.push(group);
        proof {
            assert(groups_view(groups@) =~= gs.push(gv));
            assert(group_wf(gv));
        }
        let b = ScenarioDomainBuilder { groups, combinations };
        Ok(b)
    }

    /// Sets the combinations of group entries to run, in their order.
    pub fn with_combinations<T: IntoScenarioLabelOrIndex>(self, combinations: Vec<Vec<T>>) -> (b: Self)
        ensures
            b@.groups == self@.groups,
            b@.combinations == Some(
                combinations@.map_values(
                    |c: Vec<T>| c@.map_values(|e: T| e.label_or_index_view()),
                ),
            ),
    {
        proof {
            use_type_invariant(&self);
        }
        let mut out: Vec<Vec<ScenarioLabelOrIndex>> = Vec::new();
        let mut rest = combinations;
        let ghost all = rest@;
        while rest.len() > 0
            invariant
                combinations_view(out@) + all.subrange(out@.len() as int, all.len() as int).map_values(
                    |c: Vec<T>| c@.map_values(|e: T| e.label_or_index_view()),
                ) == all.map_values(|c: Vec<T>| c@.map_values(|e: T| e.label_or_index_view())),
                rest@ == all.subrange(out@.len() as int, all.len() as int),
                out@.len() <= all.len(),
            decreases rest.len(),
        {
            let c = rest.remove(0);
            let converted = convert_combination(c);
            let ghost prev = out@;
            out.push(converted);
            proof {
                let f = |c: Vec<T>| c@.map_values(|e: T| e.label_or_index_view());
                assert(combinations_view(out@) =~= combinations_view(prev).push(f(c)));
                assert(all.subrange(prev.len() as int, all.len() as int).map_values(f) =~= seq![f(c)]
                    + all.subrange(out@.len() as int, all.len() as int).map_values(f));
                assert(rest@ =~= all.subrange(out@.len() as int, all.len() as int));
            }
        }
        proof {
            assert(all.subrange(out@.len() as int, all.len() as int).map_values(
                |c: Vec<T>| c@.map_values(|e: T| e.label_or_index_view()),
            ) =~= Seq::empty());
            assert(combinations_view(out@) + Seq::<Seq<LabelOrIndexView>>::empty() =~= combinations_view(out@));
        }
        let ScenarioDomainBuilder { groups, combinations: _ } = self;
        ScenarioDomainBuilder { groups, combinations: Some(out) }
    }
}


/// A scenario index and its indices for each group.
#[derive(Debug, PartialEq, Eq)]
pub struct ScenarioIndices {
    /// The global index of the scenario.
    pub index: usize,
    /// The index of the scenario in each group.
    pub indices: Vec<usize>,
}

impl ScenarioIndices {
    pub fn new(index: usize, indices: Vec<usize>) -> (r: Self)
        ensures
            r.index == index,
            r.indices@ == indices@,
    {
        ScenarioIndices { index, indices }
    }

}

impl Default for ScenarioIndices {
    /// The first scenario of a single group: global index 0, group index 0.
    fn default() -> (r: Self)
        ensures
            r.index == 0,
            r.indices@ == seq![0usize],
    {
        let mut indices: Vec<usize> = Vec::new();
        indices.push(0);
        ScenarioIndices { index: 0, indices }
    }
}

/// The mathematical form of a [`ScenarioIndex`].
pub struct IndexView {
    pub simulation_id: usize,
    pub simulation_indices: Seq<usize>,
    pub schema: Option<(usize, Seq<usize>)>,
    pub labels: Seq<Seq<char>>,
}

/// Builds a [`ScenarioIndex`].
pub struct ScenarioIndexBuilder {
    core: ScenarioIndices,
    schema: Option<ScenarioIndices>,
    labels: Vec<String>,
}

impl View for ScenarioIndexBuilder {
    type V = IndexView;

    closed spec fn view(&self) -> IndexView {
        IndexView {
            simulation_id: self.core.index,
            simulation_indices: self.core.indices@,
            schema: match self.schema {
                Some(s) => Some((s.index, s.indices@)),
                None => None,
            },
            labels: strings_view(self.labels@),
        }
    }
}

impl ScenarioIndexBuilder {
    pub fn new(index: usize, indices: Vec<usize>, labels: Vec<String>) -> (b: Self)
        ensures
            b@ == (IndexView {
                simulation_id: index,
                simulation_indices: indices@,
                schema: None,
                labels: strings_view(labels@),
            }),
    {
        ScenarioIndexBuilder { core: ScenarioIndices::new(index, indices), schema: None, labels }
    }

    pub fn with_schema(self, index: usize, indices: Vec<usize>) -> (b: Self)
        ensures
            b@ == (IndexView { schema: Some((index, indices@)), ..self@ }),
    {
        let mut b = self;
        b.schema = Some(ScenarioIndices::new(index, indices));
        b
    }

    pub fn build(self) -> (r: ScenarioIndex)
        ensures
            r@ == self@,
    {
        ScenarioIndex { core: self.core, schema: self.schema, labels: self.labels }
    }
}

/// One scenario of a domain: its indices in the simulation, its indices in the schema when
/// they differ, and a label for each group.
#[derive(Debug, PartialEq, Eq)]
pub struct ScenarioIndex {
    /// The indices of the scenarios run in the model.
    core: ScenarioIndices,
    /// The indices as defined in the original schema. When running a sub-set of the
    /// schema's scenarios this will contain the original indices. Otherwise, it will
    /// be `None`.
    schema: Option<ScenarioIndices>,
    /// Labels to use for the scenario; one for each group
    labels: Vec<String>,
}

impl View for ScenarioIndex {
    type V = IndexView;

    closed spec fn view(&self) -> IndexView {
        IndexView {
            simulation_id: self.core.index,
            simulation_indices: self.core.indices@,
            schema: match self.schema {
                Some(s) => Some((s.index, s.indices@)),
                None => None,
            },
            labels: strings_view(self.labels@),
        }
    }
}

impl Default for ScenarioIndex {
    /// The scenario of a domain without groups: index 0 in its one group, labelled "0".
    fn default() -> (r: Self)
        ensures
            r@ == (IndexView {
                simulation_id: 0,
                simulation_indices: seq![0usize],
                schema: None,
                labels: seq!["0"@],
            }),
    {
        let mut labels: Vec<String> = Vec::new();
        proof { reveal_strlit("0"); }
        labels.push(String::from_str("0"));
        let r = ScenarioIndex { core: ScenarioIndices::default(), schema: None, labels };
        proof {
            assert(strings_view(r.labels@) =~= seq!["0"@]);
        }
        r
    }
}

impl ScenarioIndex {
    /// The global index of the scenario for this simulation. This may be different
    /// from the global index of the scenario in the schema.
    pub fn get_simulation_id(&self) -> (r: usize)
        ensures
            r == self@.simulation_id,
    {
        self.core.index
    }

    /// The indices for each scenario group for this simulation.
    pub fn get_simulation_indices(&self) -> (r: &[usize])
        ensures
            r@ == self@.simulation_indices,
    {
        self.core.indices.as_slice()
    }

    /// The global index of the scenario for this simulation. This may be different
    /// from the global index of the scenario in the schema.
    pub fn simulation_id(&self) -> (r: usize)
        ensures
            r == self@.simulation_id,
    {
        self.core.index
    }

    pub fn simulation_indices(&self) -> (r: &[usize])
        ensures
            r@ == self@.simulation_indices,
    {
        self.core.indices.as_slice()
    }

    pub fn simulation_index_for_group(&self, group_index: usize) -> (r: usize)
        requires
            group_index < self@.simulation_indices.len(),
        ensures
            r == self@.simulation_indices[group_index as int],
    {
        self.core.indices[group_index]
    }

    pub fn labels(&self) -> (r: &[String])
        ensures
            strings_view(r@) == self@.labels,
    {
        self.labels.as_slice()
    }

    /// The group's index in the schema: the schema's where the scenario keeps one, else the
    /// simulation's.
    pub fn schema_index_for_group(&self, group_index: usize) -> (r: usize)
        requires
            match self@.schema {
                Some((_, s)) => group_index < s.len(),
                None => group_index < self@.simulation_indices.len(),
            },
        ensures
            r == match self@.schema {
                Some((_, s)) => s[group_index as int],
                None => self@.simulation_indices[group_index as int],
            },
    {
        match &self.schema {
            Some(s) => s.indices[group_index],
            None => self.core.indices[group_index],
        }
    }

    /// Concatenated labels for the scenario
    ///
    /// This is useful for generating a unique label for each scenario index. The labels are
    /// concatenated with a `-` separator.
    pub fn label(&self) -> (r: String)
        ensures
            r@ == join(self@.labels, "-"@),
    {
        join_strings(&self.labels, "-")
    }
}


/// The number of combinations of the groups' scenarios: the product of their sizes.
pub open spec fn product(gs: Seq<GroupView>) -> nat
    decreases gs.len(),
{
    if gs.len() == 0 {
        1
    } else {
        product(gs.drop_last()) * (gs.last().size as nat)
    }
}

/// Every partial product of the groups' sizes, from the first group on, fits in a `usize`.
pub open spec fn products_fit(gs: Seq<GroupView>) -> bool {
    forall|m: int| 0 <= m <= gs.len() ==> #[trigger] product(gs.take(m)) <= usize::MAX
}

/// The schema indices of combination `id`: the groups' indices in mixed radix, the last
/// group varying fastest.
pub open spec fn schema_indices_of(gs: Seq<GroupView>, id: nat) -> Seq<usize>
    decreases gs.len(),
{
    if gs.len() == 0 {
        Seq::empty()
    } else {
        schema_indices_of(gs.drop_last(), id / (gs.last().size as nat)).push(
            (id % (gs.last().size as nat)) as usize,
        )
    }
}

/// The label of entry `idx` of a group: its label, or the index in decimal.
pub open spec fn label_of(g: GroupView, idx: usize) -> Seq<char> {
    match g.labels {
        Some(l) => l[idx as int],
        None => decimal(idx as nat),
    }
}

/// Entry `idx` of a group is among the scenarios that the group runs.
pub open spec fn runs_entry(g: GroupView, idx: usize) -> bool {
    match g.subset {
        None => true,
        Some(SubsetView::Slice { start, end }) => start <= idx < end,
        Some(SubsetView::Indices(ix)) => ix.contains(idx),
    }
}

/// The simulation index of entry `idx` of a group that runs it.
pub open spec fn simulation_index_of(g: GroupView, idx: usize) -> usize {
    match g.subset {
        None => idx,
        Some(SubsetView::Slice { start, end }) => (idx - start) as usize,
        Some(SubsetView::Indices(ix)) => first_index(ix, idx) as usize,
    }
}

/// Some group runs a subset of its scenarios.
pub open spec fn is_sliced(gs: Seq<GroupView>) -> bool {
    exists|k: int| 0 <= k < gs.len() && (#[trigger] gs[k]).subset is Some
}

/// Every group runs its entry of the schema indices `schema`.
pub open spec fn runs_all(gs: Seq<GroupView>, schema: Seq<usize>) -> bool {
    forall|k: int| 0 <= k < gs.len() ==> runs_entry(#[trigger] gs[k], schema[k])
}

/// The scenario that combination `id` becomes when it is the `sim_id`-th one run.
pub open spec fn enumerated_index(gs: Seq<GroupView>, id: nat, sim_id: nat) -> IndexView {
    let schema = schema_indices_of(gs, id);
    IndexView {
        simulation_id: sim_id as usize,
        simulation_indices: Seq::new(gs.len(), |k: int| simulation_index_of(gs[k], schema[k])),
        schema: if is_sliced(gs) {
            Some((id as usize, schema))
        } else {
            None
        },
        labels: Seq::new(gs.len(), |k: int| label_of(gs[k], schema[k])),
    }
}

/// The scenarios run among the first `n` combinations, in order.
pub open spec fn enumerate(gs: Seq<GroupView>, n: nat) -> Seq<IndexView>
    decreases n,
{
    if n == 0 {
        Seq::empty()
    } else {
        let prev = enumerate(gs, (n - 1) as nat);
        if runs_all(gs, schema_indices_of(gs, (n - 1) as nat)) {
            prev.push(enumerated_index(gs, (n - 1) as nat, prev.len()))
        } else {
            prev
        }
    }
}

/// The map from a group's simulation indices to its schema indices, where it runs a subset.
pub open spec fn subset_map(g: GroupView) -> Option<Seq<usize>> {
    match g.subset {
        None => None,
        Some(SubsetView::Slice { start, end }) => Some(
            Seq::new((end - start) as nat, |j: int| (start + j) as usize),
        ),
        Some(SubsetView::Indices(ix)) => Some(ix),
    }
}

proof fn lemma_product_positive(gs: Seq<GroupView>, k: int)
    requires
        product(gs) > 0,
        0 <= k < gs.len(),
    ensures
        gs[k].size > 0,
    decreases gs.len(),
{
    let p = product(gs.drop_last());
    let s = gs.last().size as nat;
    if s == 0 {
        assert(p * s == 0) by (nonlinear_arith) requires s == 0;
    }
    if k < gs.len() - 1 {
        if p == 0 {
            assert(p * s == 0) by (nonlinear_arith) requires p == 0;
        }
        lemma_product_positive(gs.drop_last(), k);
    }
}

proof fn lemma_schema_indices_bounded(gs: Seq<GroupView>, id: nat)
    requires
        forall|k: int| 0 <= k < gs.len() ==> (#[trigger] gs[k]).size > 0,
    ensures
        schema_indices_of(gs, id).len() == gs.len(),
        forall|k: int| 0 <= k < gs.len() ==> #[trigger] schema_indices_of(gs, id)[k] < gs[k].size,
    decreases gs.len(),
{
    if gs.len() > 0 {
        let d = gs.drop_last();
        assert forall|k: int| 0 <= k < d.len() implies (#[trigger] d[k]).size > 0 by {
            assert(d[k] == gs[k]);
        }
        lemma_schema_indices_bounded(d, id / (gs.last().size as nat));
    }
}

/// The views of a vector of scenario indices.
pub open spec fn indices_view(v: Seq<ScenarioIndex>) -> Seq<IndexView> {
    v.map_values(|x: ScenarioIndex| x@)
}

fn schema_indices(groups: &Vec<ScenarioGroup>, id: usize) -> (r: Vec<usize>)
    requires
        id < product(groups_view(groups@)),
    ensures
        r@ == schema_indices_of(groups_view(groups@), id as nat),
{
    let ghost gs = groups_view(groups@);
    let n = groups.len();
    proof {
        assert forall|k: int| 0 <= k < gs.len() implies (#[trigger] gs[k]).size > 0 by {
            lemma_product_positive(gs, k);
        }
    }
    let mut r: Vec<usize> = Vec::new();
    let mut j: usize = 0;
    while j < n
        invariant
            j <= n,
            n == groups.len(),
            r@.len() == j,
        decreases n - j,
    {
        r.push(0);
        j = j + 1;
    }
    let mut remaining = id;
    let mut k = n;
    proof {
        assert(gs.take(n as int) =~= gs);
        assert(r@.subrange(n as int, n as int) =~= Seq::<usize>::empty());
        assert(schema_indices_of(gs, id as nat) + Seq::<usize>::empty() =~= schema_indices_of(gs, id as nat));
    }
    while k > 0
        invariant
            k <= n,
            n == groups.len(),
            r@.len() == n,
            gs == groups_view(groups@),
            forall|i: int| 0 <= i < gs.len() ==> (#[trigger] gs[i]).size > 0,
            schema_indices_of(gs.take(k as int), remaining as nat) + r@.subrange(k as int, n as int)
                == schema_indices_of(gs, id as nat),
        decreases k,
    {
        k = k - 1;
        let size = groups[k].size;
        proof {
            assert(gs[k as int].size == size);
            assert(gs.take(k + 1).drop_last() =~= gs.take(k as int));
            assert(gs.take(k + 1).last() == gs[k as int]);
        }
        let ghost before = r@;
        r.set(k, remaining % size);
        proof {
            assert(r@.subrange(k as int, n as int) =~= seq![(remaining % size) as usize] + before.subrange(
                k + 1,
                n as int,
            ));
            assert(schema_indices_of(gs.take(k + 1), remaining as nat) == schema_indices_of(
                gs.take(k as int),
                (remaining / size) as nat,
            ).push((remaining % size) as usize));
            assert(schema_indices_of(gs.take(k as int), (remaining / size) as nat) + r@.subrange(
                k as int,
                n as int,
            ) =~= schema_indices_of(gs.take(k + 1), remaining as nat) + before.subrange(k + 1, n as int));
        }
        remaining = remaining / size;
    }
    proof {
        assert(gs.take(0) =~= Seq::<GroupView>::empty());
        assert(r@.subrange(0, n as int) =~= r@);
        assert(schema_indices_of(gs.take(0), remaining as nat) =~= Seq::<usize>::empty());
        assert(Seq::<usize>::empty() + r@ =~= r@);
    }
    r
}


fn groups_product(groups: &Vec<ScenarioGroup>) -> (r: usize)
    requires
        products_fit(groups_view(groups@)),
    ensures
        r == product(groups_view(groups@)),
{
    let ghost gs = groups_view(groups@);
    let mut p: usize = 1;
    let mut k: usize = 0;
    proof {
        assert(gs.take(0) =~= Seq::<GroupView>::empty());
    }
    while k < groups.len()
        invariant
            k <= groups.len(),
            gs == groups_view(groups@),
            products_fit(gs),
            p == product(gs.take(k as int)),
        decreases groups.len() - k,
    {
        proof {
            assert(gs.take(k + 1).drop_last() =~= gs.take(k as int));
            assert(gs.take(k + 1).last() == gs[k as int]);
            assert(product(gs.take(k + 1)) <= usize::MAX);
        }
        p = p * groups[k].size;
        k = k + 1;
    }
    proof {
        assert(gs.take(groups.len() as int) =~= gs);
    }
    p
}

fn labels_for(groups: &Vec<ScenarioGroup>, entries: &Vec<usize>) -> (r: Vec<String>)
    requires
        entries@.len() == groups@.len(),
        forall|k: int|
            0 <= k < groups@.len() && (#[trigger] groups_view(groups@)[k]).labels is Some ==> entries@[k]
                < groups_view(groups@)[k].size,
    ensures
        strings_view(r@) == Seq::new(
            groups@.len() as nat,
            |k: int| label_of(groups_view(groups@)[k], entries@[k]),
        ),
{
    let ghost gs = groups_view(groups@);
    let mut r: Vec<String> = Vec::new();
    let mut k: usize = 0;
    while k < groups.len()
        invariant
            k <= groups.len(),
            entries@.len() == groups@.len(),
            gs == groups_view(groups@),
            forall|j: int| 0 <= j < groups@.len() && (#[trigger] gs[j]).labels is Some ==> entries@[j] < gs[j].size,
            r@.len() == k,
            strings_view(r@) =~= Seq::new(k as nat, |j: int| label_of(gs[j], entries@[j])),
        decreases groups.len() - k,
    {
        let g = &groups[k];
        proof {
            use_type_invariant(g);
            assert(gs[k as int] == g@);
        }
        let idx = entries[k];
        let label = match &g.labels {
            Some(labels) => labels[idx].clone(),
            None => usize_to_decimal(idx),
        };
        let ghost prev = r@;
        r.push(label);
        proof {
            assert(label@ == label_of(gs[k as int], entries@[k as int]));
            let a = strings_view(r@);
            let b = Seq::new((k + 1) as nat, |j: int| label_of(gs[j], entries@[j]));
            assert forall|j: int| 0 <= j < a.len() implies a[j] == b[j] by {
                if j < k {
                    assert(a[j] == strings_view(prev)[j]);
                }
            }
            assert(a =~= b);
        }
        k = k + 1;
    }
    r
}

fn simulation_indices_for(groups: &Vec<ScenarioGroup>, entries: &Vec<usize>) -> (r: Option<Vec<usize>>)
    requires
        entries@.len() == groups@.len(),
    ensures
        match r {
            Some(v) => runs_all(groups_view(groups@), entries@) && v@ == Seq::new(
                groups@.len() as nat,
                |k: int| simulation_index_of(groups_view(groups@)[k], entries@[k]),
            ),
            None => !runs_all(groups_view(groups@), entries@),
        },
{
    let ghost gs = groups_view(groups@);
    let mut r: Vec<usize> = Vec::new();
    let mut k: usize = 0;
    while k < groups.len()
        invariant
            k <= groups.len(),
            entries@.len() == groups@.len(),
            gs == groups_view(groups@),
            r@.len() == k,
            forall|j: int| 0 <= j < k ==> runs_entry(#[trigger] gs[j], entries@[j]),
            r@ =~= Seq::new(k as nat, |j: int| simulation_index_of(gs[j], entries@[j])),
        decreases groups.len() - k,
    {
        let g = &groups[k];
        proof {
            use_type_invariant(g);
            assert(gs[k as int] == g@);
        }
        let idx = entries[k];
        match &g.subset {
            Some(ScenarioGroupSubset::Slice { start, end }) => {
                if idx < *start || idx >= *end {
                    proof {
                        assert(!runs_entry(gs[k as int], entries@[k as int]));
                    }
                    return None;
                }
                r.push(idx - *start);
            },
            Some(ScenarioGroupSubset::Indices(indices)) => {
                match position_of_index(indices, idx) {
                    Some(p) => {
                        r.push(p);
                    },
                    None => {
                        proof {
                            assert(!runs_entry(gs[k as int], entries@[k as int]));
                        }
                        return None;
                    },
                }
            },
            None => {
                r.push(idx);
            },
        }
        proof {
            assert(runs_entry(gs[k as int], entries@[k as int]));
        }
        k = k + 1;
    }
    Some(r)
}


/// The view of an optional vector of indices.
pub open spec fn opt_indices_view(o: Option<Vec<usize>>) -> Option<Seq<usize>> {
    match o {
        Some(v) => Some(v@),
        None => None,
    }
}

/// The views of a scenario map.
pub open spec fn scenario_map_view(m: Seq<Option<Vec<usize>>>) -> Seq<Option<Seq<usize>>> {
    m.map_values(|o: Option<Vec<usize>>| opt_indices_view(o))
}

fn any_subset(groups: &Vec<ScenarioGroup>) -> (r: bool)
    ensures
        r == is_sliced(groups_view(groups@)),
{
    let ghost gs = groups_view(groups@);
    let mut k: usize = 0;
    while k < groups.len()
        invariant
            k <= groups.len(),
            gs == groups_view(groups@),
            forall|j: int| 0 <= j < k ==> (#[trigger] gs[j]).subset is None,
        decreases groups.len() - k,
    {
        if groups[k].subset.is_some() {
            proof {
                assert(gs[k as int].subset is Some);
            }
            return true;
        }
        k = k + 1;
    }
    false
}

/// Build a map of simulation indices to schema indices for each group
fn build_scenario_map_from_subsets(groups: &Vec<ScenarioGroup>) -> (r: Vec<Option<Vec<usize>>>)
    ensures
        scenario_map_view(r@) == Seq::new(
            groups@.len() as nat,
            |k: int| subset_map(groups_view(groups@)[k]),
        ),
{
    let ghost gs = groups_view(groups@);
    let mut r: Vec<Option<Vec<usize>>> = Vec::new();
    let mut k: usize = 0;
    while k < groups.len()
        invariant
            k <= groups.len(),
            gs == groups_view(groups@),
            r@.len() == k,
            scenario_map_view(r@) =~= Seq::new(k as nat, |j: int| subset_map(gs[j])),
        decreases groups.len() - k,
    {
        let g = &groups[k];
        proof {
            use_type_invariant(g);
            assert(gs[k as int] == g@);
        }
        let entry = match &g.subset {
            Some(ScenarioGroupSubset::Slice { start, end }) => {
                let mut indices: Vec<usize> = Vec::new();
                let mut i = *start;
                while i < *end
                    invariant
                        *start <= i <= *end,
                        indices@ =~= Seq::new((i - *start) as nat, |j: int| (*start + j) as usize),
                    decreases *end - i,
                {
                    indices.push(i);
                    i = i + 1;
                }
                Some(indices)
            },
            Some(ScenarioGroupSubset::Indices(indices)) => Some(copy_indices(indices)),
            None => None,
        };
        let ghost prev = r@;
        r.push(entry);
        proof {
            assert(opt_indices_view(entry) == subset_map(gs[k as int]));
            let a = scenario_map_view(r@);
            let b = Seq::new((k + 1) as nat, |j: int| subset_map(gs[j]));
            assert forall|j: int| 0 <= j < a.len() implies a[j] == b[j] by {
                if j < k {
                    assert(a[j] == scenario_map_view(prev)[j]);
                }
            }
            assert(a =~= b);
        }
        k = k + 1;
    }
    r
}

fn enumerate_scenarios(groups: &Vec<ScenarioGroup>, num: usize, sliced: bool) -> (r: Vec<ScenarioIndex>)
    requires
        num == product(groups_view(groups@)),
        sliced == is_sliced(groups_view(groups@)),
    ensures
        indices_view(r@) == enumerate(groups_view(groups@), num as nat),
{
    let ghost gs = groups_view(groups@);
    let mut out: Vec<ScenarioIndex> = Vec::new();
    let mut id: usize = 0;
    while id < num
        invariant
            id <= num,
            num == product(gs),
            gs == groups_view(groups@),
            sliced == is_sliced(gs),
            out@.len() <= id,
            indices_view(out@) == enumerate(gs, id as nat),
        decreases num - id,
    {
        let schema = schema_indices(groups, id);
        proof {
            assert forall|k: int| 0 <= k < gs.len() implies (#[trigger] gs[k]).size > 0 by {
                lemma_product_positive(gs, k);
            }
            lemma_schema_indices_bounded(gs, id as nat);
        }
        let labels = labels_for(groups, &schema);
        let ghost prev = out@;
        match simulation_indices_for(groups, &schema) {
            Some(simulation_indices) => {
                let simulation_id = out.len();
                let mut builder = ScenarioIndexBuilder::new(simulation_id, simulation_indices, labels);
                if sliced {
                    builder = builder.with_schema(id, schema);
                }
                let index = builder.build();
                out.push(index);
                proof {
                    assert(index@ == enumerated_index(gs, id as nat, prev.len()));
                    assert(indices_view(out@) =~= indices_view(prev).push(index@));
                }
            },
            None => {},
        }
        id = id + 1;
    }
    out
}


/// The group index that a combination entry names, or the error that resolving it raises.
pub open spec fn resolve_entry(g: GroupView, e: LabelOrIndexView) -> Result<usize, ScenarioErrorView> {
    match e {
        LabelOrIndexView::Label(l) => label_position_spec(g, l),
        LabelOrIndexView::Index(i) => Ok(i),
    }
}

/// The first `m` entries of a combination resolved against the groups, or the first error.
pub open spec fn resolve_prefix(gs: Seq<GroupView>, c: Seq<LabelOrIndexView>, m: nat) -> Result<
    Seq<usize>,
    ScenarioErrorView,
>
    decreases m,
{
    if m == 0 {
        Ok(Seq::empty())
    } else {
        match resolve_prefix(gs, c, (m - 1) as nat) {
            Err(e) => Err(e),
            Ok(s) => match resolve_entry(gs[m - 1], c[m - 1]) {
                Err(e) => Err(e),
                Ok(v) => Ok(s.push(v)),
            },
        }
    }
}

/// A combination resolved against the groups: one entry per group it reaches, entries past
/// the last group ignored.
pub open spec fn resolved_combination(gs: Seq<GroupView>, c: Seq<LabelOrIndexView>) -> Result<
    Seq<usize>,
    ScenarioErrorView,
> {
    resolve_prefix(gs, c, if c.len() < gs.len() { c.len() } else { gs.len() })
}

/// The first `m` combinations resolved against the groups, or the first error.
pub open spec fn resolve_all(gs: Seq<GroupView>, cs: Seq<Seq<LabelOrIndexView>>, m: nat) -> Result<
    Seq<Seq<usize>>,
    ScenarioErrorView,
>
    decreases m,
{
    if m == 0 {
        Ok(Seq::empty())
    } else {
        match resolve_all(gs, cs, (m - 1) as nat) {
            Err(e) => Err(e),
            Ok(s) => match resolved_combination(gs, cs[m - 1]) {
                Err(e) => Err(e),
                Ok(r) => Ok(s.push(r)),
            },
        }
    }
}

/// The schema id of the first `m` entries of a combination: the first group varies fastest.
pub open spec fn encode_prefix(gs: Seq<GroupView>, r: Seq<usize>, m: nat) -> nat
    decreases m,
{
    if m == 0 {
        0
    } else {
        encode_prefix(gs, r, (m - 1) as nat) + (r[m - 1] as nat) * product(gs.take(m - 1))
    }
}

/// The schema id that a combination is given.
pub open spec fn schema_id_of(gs: Seq<GroupView>, r: Seq<usize>) -> nat {
    encode_prefix(gs, r, gs.len())
}

/// A resolved combination names every group, stays within the labels of labelled groups and
/// has a schema id that fits in a `usize`.
pub open spec fn combination_fits(gs: Seq<GroupView>, r: Seq<usize>) -> bool {
    &&& r.len() == gs.len()
    &&& forall|k: int| 0 <= k < gs.len() && (#[trigger] gs[k]).labels is Some ==> r[k] < gs[k].size
    &&& schema_id_of(gs, r) <= usize::MAX
}

/// The elements of `s` increase strictly.
pub open spec fn strictly_increasing(s: Seq<usize>) -> bool {
    forall|i: int, j: int| 0 <= i < j < s.len() ==> s[i] < s[j]
}

/// The values that the combinations take for group `k`.
pub open spec fn values_at(rs: Seq<Seq<usize>>, k: int) -> Set<usize> {
    Set::new(|v: usize| exists|i: int| 0 <= i < rs.len() && #[trigger] rs[i][k] == v)
}

/// The elements of a finite set in increasing order.
pub open spec fn sorted_values(s: Set<usize>) -> Seq<usize> {
    choose|q: Seq<usize>| strictly_increasing(q) && forall|v: usize| q.contains(v) <==> s.contains(v)
}

/// The map entry of group `k` for a list of resolved combinations.
pub open spec fn combination_map_entry(rs: Seq<Seq<usize>>, k: int) -> Option<Seq<usize>> {
    if rs.len() == 0 {
        None
    } else {
        Some(sorted_values(values_at(rs, k)))
    }
}

/// The scenario that resolved combination `r`, the `i`-th one, becomes.
pub open spec fn combination_index(
    gs: Seq<GroupView>,
    map: Seq<Option<Seq<usize>>>,
    r: Seq<usize>,
    i: nat,
) -> IndexView {
    IndexView {
        simulation_id: i as usize,
        simulation_indices: Seq::new(
            gs.len(),
            |k: int|
                match map[k] {
                    Some(s) => first_index(s, r[k]) as usize,
                    None => r[k],
                },
        ),
        schema: Some((schema_id_of(gs, r) as usize, r)),
        labels: Seq::new(gs.len(), |k: int| label_of(gs[k], r[k])),
    }
}

/// A strictly increasing sequence with `x` put in its place, unless it holds `x` already.
pub open spec fn insert_in_order(q: Seq<usize>, x: usize) -> Seq<usize>
    decreases q.len(),
{
    if q.len() == 0 {
        seq![x]
    } else if x < q[0] {
        seq![x] + q
    } else if x == q[0] {
        q
    } else {
        seq![q[0]] + insert_in_order(q.drop_first(), x)
    }
}

proof fn lemma_insert_in_order(q: Seq<usize>, x: usize)
    requires
        strictly_increasing(q),
    ensures
        strictly_increasing(insert_in_order(q, x)),
        forall|v: usize| #[trigger] insert_in_order(q, x).contains(v) <==> (q.contains(v) || v == x),
        insert_in_order(q, x).len() > 0 ==> (insert_in_order(q, x)[0] == x || (q.len() > 0 && insert_in_order(
            q,
            x,
        )[0] == q[0])),
    decreases q.len(),
{
    let r = insert_in_order(q, x);
    if q.len() == 0 {
        assert forall|v: usize| r.contains(v) <==> (q.contains(v) || v == x) by {
            if r.contains(v) {
                assert(r[0] == v);
            }
            if v == x {
                assert(r[0] == x);
            }
        }
    } else if x < q[0] {
        assert forall|v: usize| r.contains(v) <==> (q.contains(v) || v == x) by {
            if r.contains(v) {
                let i = choose|i: int| 0 <= i < r.len() && r[i] == v;
                if i > 0 {
                    assert(q[i - 1] == v);
                }
            }
            if q.contains(v) {
                let i = choose|i: int| 0 <= i < q.len() && q[i] == v;
                assert(r[i + 1] == v);
            }
            if v == x {
                assert(r[0] == x);
            }
        }
        assert forall|i: int, j: int| 0 <= i < j < r.len() implies r[i] < r[j] by {
            if i == 0 {
                assert(r[j] == q[j - 1]);
                if j - 1 > 0 {
                    assert(q[0] < q[j - 1]);
                }
            } else {
                assert(r[i] == q[i - 1] && r[j] == q[j - 1]);
            }
        }
    } else if x == q[0] {
        assert(q.contains(q[0]));
    } else {
        let t = q.drop_first();
        assert forall|i: int, j: int| 0 <= i < j < t.len() implies t[i] < t[j] by {
            assert(t[i] == q[i + 1] && t[j] == q[j + 1]);
        }
        lemma_insert_in_order(t, x);
        let rt = insert_in_order(t, x);
        assert forall|v: usize| r.contains(v) <==> (q.contains(v) || v == x) by {
            if r.contains(v) {
                let i = choose|i: int| 0 <= i < r.len() && r[i] == v;
                if i == 0 {
                    assert(q[0] == v);
                } else {
                    assert(rt[i - 1] == v);
                    assert(rt.contains(v));
                    if t.contains(v) {
                        let k = choose|k: int| 0 <= k < t.len() && t[k] == v;
                        assert(q[k + 1] == v);
                    }
                }
            }
            if q.contains(v) {
                let i = choose|i: int| 0 <= i < q.len() && q[i] == v;
                if i == 0 {
                    assert(r[0] == v);
                } else {
                    assert(t[i - 1] == v);
                    assert(t.contains(v));
                    assert(rt.contains(v));
                    let k = choose|k: int| 0 <= k < rt.len() && rt[k] == v;
                    assert(r[k + 1] == v);
                }
            }
            if v == x {
                assert(insert_in_order(t, x).contains(x));
                assert(rt.contains(x));
                let k = choose|k: int| 0 <= k < rt.len() && rt[k] == x;
                assert(r[k + 1] == x);
            }
        }
        assert forall|i: int, j: int| 0 <= i < j < r.len() implies r[i] < r[j] by {
            if i == 0 {
                assert(r[j] == rt[j - 1]);
                assert(rt.contains(rt[j - 1]));
                if t.contains(rt[j - 1]) {
                    let k = choose|k: int| 0 <= k < t.len() && t[k] == rt[j - 1];
                    assert(q[0] < q[k + 1]);
                }
            } else {
                assert(r[i] == rt[i - 1] && r[j] == rt[j - 1]);
            }
        }
    }
}

/// The values that the first `n` combinations take for group `k`, in increasing order.
pub open spec fn values_in_order(rs: Seq<Seq<usize>>, k: int, n: nat) -> Seq<usize>
    decreases n,
{
    if n == 0 {
        Seq::empty()
    } else {
        insert_in_order(values_in_order(rs, k, (n - 1) as nat), rs[n - 1][k])
    }
}

proof fn lemma_values_in_order(rs: Seq<Seq<usize>>, k: int, n: nat)
    requires
        n <= rs.len(),
    ensures
        strictly_increasing(values_in_order(rs, k, n)),
        forall|v: usize| #[trigger]
            values_in_order(rs, k, n).contains(v) <==> exists|i: int| 0 <= i < n && #[trigger] rs[i][k] == v,
    decreases n,
{
    if n > 0 {
        let prev = values_in_order(rs, k, (n - 1) as nat);
        lemma_values_in_order(rs, k, (n - 1) as nat);
        lemma_insert_in_order(prev, rs[n - 1][k]);
        assert forall|v: usize| #[trigger]
            values_in_order(rs, k, n).contains(v) <==> exists|i: int| 0 <= i < n && #[trigger] rs[i][k] == v by {
            assert(values_in_order(rs, k, n) == insert_in_order(prev, rs[n - 1][k]));
            assert(insert_in_order(prev, rs[n - 1][k]).contains(v) <==> (prev.contains(v) || v == rs[n - 1][k]));
            if exists|i: int| 0 <= i < n && #[trigger] rs[i][k] == v {
                let i = choose|i: int| 0 <= i < n && #[trigger] rs[i][k] == v;
                if i < n - 1 {
                    assert(prev.contains(v));
                }
            }
            if prev.contains(v) {
                let i = choose|i: int| 0 <= i < n - 1 && #[trigger] rs[i][k] == v;
                assert(rs[i][k] == v);
            }
            if v == rs[n - 1][k] {
                assert(rs[n - 1][k] == v);
            }
        }
    }
}

/// Where there are combinations, the map entry of each group lists the values that the
/// combinations take for it, each once, in strictly increasing order.
pub proof fn law_combination_map_is_sorted(rs: Seq<Seq<usize>>, k: int)
    requires
        rs.len() > 0,
    ensures
        combination_map_entry(rs, k) matches Some(q) && strictly_increasing(q) && forall|v: usize|
            q.contains(v) <==> exists|i: int| 0 <= i < rs.len() && #[trigger] rs[i][k] == v,
{
    lemma_values_in_order(rs, k, rs.len());
    let w = values_in_order(rs, k, rs.len());
    let s = values_at(rs, k);
    assert(strictly_increasing(w) && forall|v: usize| w.contains(v) <==> s.contains(v));
    let q = sorted_values(s);
    assert(strictly_increasing(q) && forall|v: usize| q.contains(v) <==> s.contains(v));
}

/// Two strictly increasing sequences with the same elements are equal.
pub proof fn lemma_sorted_unique(a: Seq<usize>, b: Seq<usize>)
    requires
        strictly_increasing(a),
        strictly_increasing(b),
        forall|v: usize| a.contains(v) <==> b.contains(v),
    ensures
        a == b,
    decreases a.len(),
{
    if a.len() == 0 {
        if b.len() > 0 {
            assert(b.contains(b[0]));
        }
        assert(a =~= b);
    } else {
        assert(a.contains(a[0]));
        assert(b.len() > 0);
        assert(b.contains(b[0]));
        let j = choose|j: int| 0 <= j < b.len() && b[j] == a[0];
        let i = choose|i: int| 0 <= i < a.len() && a[i] == b[0];
        if i > 0 {
            assert(a[0] < a[i]);
        }
        if j > 0 {
            assert(b[0] < b[j]);
        }
        assert(a[0] == b[0]);
        let a1 = a.drop_first();
        let b1 = b.drop_first();
        assert forall|v: usize| a1.contains(v) <==> b1.contains(v) by {
            if a1.contains(v) {
                let p = choose|p: int| 0 <= p < a1.len() && a1[p] == v;
                assert(a[p + 1] == v);
                assert(a[0] < a[p + 1]);
                assert(a.contains(v));
                let q = choose|q: int| 0 <= q < b.len() && b[q] == v;
                assert(q != 0);
                assert(b1[q - 1] == v);
            }
            if b1.contains(v) {
                let p = choose|p: int| 0 <= p < b1.len() && b1[p] == v;
                assert(b[p + 1] == v);
                assert(b[0] < b[p + 1]);
                assert(b.contains(v));
                let q = choose|q: int| 0 <= q < a.len() && a[q] == v;
                assert(q != 0);
                assert(a1[q - 1] == v);
            }
        }
        lemma_sorted_unique(a1, b1);
        assert(a =~= seq![a[0]] + a1);
        assert(b =~= seq![b[0]] + b1);
    }
}

proof fn lemma_resolve_prefix_err(gs: Seq<GroupView>, c: Seq<LabelOrIndexView>, m: nat, n: nat)
    requires
        m <= n,
        resolve_prefix(gs, c, m) is Err,
    ensures
        resolve_prefix(gs, c, n) == resolve_prefix(gs, c, m),
    decreases n - m,
{
    if m < n {
        lemma_resolve_prefix_err(gs, c, m, (n - 1) as nat);
    }
}

proof fn lemma_resolve_all_err(gs: Seq<GroupView>, cs: Seq<Seq<LabelOrIndexView>>, m: nat, n: nat)
    requires
        m <= n,
        resolve_all(gs, cs, m) is Err,
    ensures
        resolve_all(gs, cs, n) == resolve_all(gs, cs, m),
    decreases n - m,
{
    if m < n {
        lemma_resolve_all_err(gs, cs, m, (n - 1) as nat);
    }
}

/// Resolves the entries of one combination, up to the number of groups.
fn resolve_combination(groups: &Vec<ScenarioGroup>, c: &Vec<ScenarioLabelOrIndex>) -> (r: Result<
    Vec<usize>,
    ScenarioError,
>)
    ensures
        match r {
            Ok(v) => resolved_combination(groups_view(groups@), c@.map_values(|e: ScenarioLabelOrIndex| e@))
                == Ok::<Seq<usize>, ScenarioErrorView>(v@),
            Err(e) => resolved_combination(groups_view(groups@), c@.map_values(|e: ScenarioLabelOrIndex| e@))
                == Err::<Seq<usize>, ScenarioErrorView>(e@),
        },
{
    let ghost gs = groups_view(groups@);
    let ghost cv = c@.map_values(|e: ScenarioLabelOrIndex| e@);
    let n = if c.len() < groups.len() {
        c.len()
    } else {
        groups.len()
    };
    let mut out: Vec<usize> = Vec::new();
    let mut k: usize = 0;
    while k < n
        invariant
            k <= n,
            n <= c.len(),
            n <= groups.len(),
            gs == groups_view(groups@),
            cv == c@.map_values(|e: ScenarioLabelOrIndex| e@),
            cv.len() == c.len(),
            gs.len() == groups.len(),
            n == if c.len() < groups.len() { c.len() } else { groups.len() },
            resolve_prefix(gs, cv, k as nat) == Ok::<Seq<usize>, ScenarioErrorView>(out@),
        decreases n - k,
    {
        let v = match &c[k] {
            ScenarioLabelOrIndex::Label(label) => groups[k].label_position(label.as_str()),
            ScenarioLabelOrIndex::Index(index) => Ok(*index),
        };
        proof {
            assert(cv[k as int] == c@[k as int]@);
            assert(gs[k as int] == groups@[k as int]@);
        }
        match v {
            Ok(x) => {
                out.push(x);
            },
            Err(e) => {
                proof {
                    assert(resolve_entry(gs[k as int], cv[k as int]) == Err::<usize, ScenarioErrorView>(e@));
                    assert(resolve_prefix(gs, cv, (k + 1) as nat) == Err::<Seq<usize>, ScenarioErrorView>(e@));
                    lemma_resolve_prefix_err(gs, cv, (k + 1) as nat, n as nat);
                }
                return Err(e);
            },
        }
        k = k + 1;
    }
    Ok(out)
}

/// Resolves every combination, stopping at the first error.
fn resolve_combinations(groups: &Vec<ScenarioGroup>, cs: &Vec<Vec<ScenarioLabelOrIndex>>) -> (r: Result<
    Vec<Vec<usize>>,
    ScenarioError,
>)
    ensures
        match r {
            Ok(v) => resolve_all(groups_view(groups@), combinations_view(cs@), cs@.len())
                == Ok::<Seq<Seq<usize>>, ScenarioErrorView>(v@.map_values(|x: Vec<usize>| x@)),
            Err(e) => resolve_all(groups_view(groups@), combinations_view(cs@), cs@.len())
                == Err::<Seq<Seq<usize>>, ScenarioErrorView>(e@),
        },
{
    let ghost gs = groups_view(groups@);
    let ghost csv = combinations_view(cs@);
    let mut out: Vec<Vec<usize>> = Vec::new();
    let mut i: usize = 0;
    proof {
        assert(out@.map_values(|x: Vec<usize>| x@) =~= Seq::<Seq<usize>>::empty());
    }
    while i < cs.len()
        invariant
            i <= cs.len(),
            gs == groups_view(groups@),
            csv == combinations_view(cs@),
            resolve_all(gs, csv, i as nat) == Ok::<Seq<Seq<usize>>, ScenarioErrorView>(
                out@.map_values(|x: Vec<usize>| x@),
            ),
        decreases cs.len() - i,
    {
        proof {
            assert(csv[i as int] == cs@[i as int]@.map_values(|e: ScenarioLabelOrIndex| e@));
        }
        match resolve_combination(groups, &cs[i]) {
            Ok(r) => {
                let ghost prev = out@;
                out.push(r);
                proof {
                    assert(out@.map_values(|x: Vec<usize>| x@) =~= prev.map_values(|x: Vec<usize>| x@).push(r@));
                }
            },
            Err(e) => {
                proof {
                    lemma_resolve_all_err(gs, csv, (i + 1) as nat, cs.len() as nat);
                }
                return Err(e);
            },
        }
        i = i + 1;
    }
    Ok(out)
}


/// An optional list of indices holds `v`.
pub open spec fn entry_contains(e: Option<Vec<usize>>, v: usize) -> bool {
    match e {
        Some(s) => s@.contains(v),
        None => false,
    }
}

fn insert_sorted(v: &mut Vec<usize>, x: usize)
    requires
        strictly_increasing(old(v)@),
    ensures
        strictly_increasing(final(v)@),
        forall|y: usize| final(v)@.contains(y) <==> (old(v)@.contains(y) || y == x),
{
    let mut p: usize = 0;
    while p < v.len() && v[p] < x
        invariant
            p <= v.len(),
            v@ == old(v)@,
            forall|j: int| 0 <= j < p ==> v@[j] < x,
        decreases v.len() - p,
    {
        p = p + 1;
    }
    if p < v.len() && v[p] == x {
        proof {
            assert(v@.contains(x));
        }
        return;
    }
    let ghost before = v@;
    v.insert(p, x);
    proof {
        let after = v@;
        assert(after =~= before.insert(p as int, x));
        assert forall|i: int, j: int| 0 <= i < j < after.len() implies after[i] < after[j] by {
            if j < p {
            } else if j == p {
                assert(after[i] == before[i]);
            } else if i < p {
                assert(after[j] == before[j - 1]);
                assert(before[p as int] > x);
                if j - 1 > p {
                    assert(before[p as int] < before[j - 1]);
                }
            } else if i == p {
                assert(before[p as int] > x);
                if j - 1 > p {
                    assert(before[p as int] < before[j - 1]);
                }
            } else {
                assert(after[i] == before[i - 1]);
                assert(after[j] == before[j - 1]);
            }
        }
        assert forall|y: usize| after.contains(y) <==> (before.contains(y) || y == x) by {
            if after.contains(y) {
                let q = choose|q: int| 0 <= q < after.len() && after[q] == y;
                if q < p {
                    assert(before[q] == y);
                } else if q > p {
                    assert(before[q - 1] == y);
                }
            }
            if before.contains(y) {
                let q = choose|q: int| 0 <= q < before.len() && before[q] == y;
                if q < p {
                    assert(after[q] == y);
                } else {
                    assert(after[q + 1] == y);
                }
            }
            if y == x {
                assert(after[p as int] == x);
            }
        }
    }
}

fn sorted_values_at(rs: &Vec<Vec<usize>>, k: usize) -> (r: Vec<usize>)
    requires
        rs@.len() > 0,
        forall|i: int| 0 <= i < rs@.len() ==> k < (#[trigger] rs@[i])@.len(),
    ensures
        r@ == sorted_values(values_at(rs@.map_values(|x: Vec<usize>| x@), k as int)),
        forall|i: int| 0 <= i < rs@.len() ==> r@.contains(#[trigger] rs@[i]@[k as int]),
{
    let ghost rv = rs@.map_values(|x: Vec<usize>| x@);
    let mut sorted: Vec<usize> = Vec::new();
    let mut i: usize = 0;
    while i < rs.len()
        invariant
            i <= rs@.len(),
            rv == rs@.map_values(|x: Vec<usize>| x@),
            forall|j: int| 0 <= j < rs@.len() ==> k < (#[trigger] rs@[j])@.len(),
            strictly_increasing(sorted@),
            forall|v: usize| sorted@.contains(v) <==> exists|j: int| 0 <= j < i && #[trigger] rv[j][k as int] == v,
        decreases rs.len() - i,
    {
        let x = rs[i][k];
        proof {
            assert(rv[i as int][k as int] == x);
        }
        insert_sorted(&mut sorted, x);
        proof {
            assert forall|v: usize| sorted@.contains(v) <==> exists|j: int| 0 <= j < i + 1 && #[trigger] rv[j][k as int] == v by {
                if exists|j: int| 0 <= j < i + 1 && #[trigger] rv[j][k as int] == v {
                    let j = choose|j: int| 0 <= j < i + 1 && #[trigger] rv[j][k as int] == v;
                    if j < i {
                        assert(exists|j2: int| 0 <= j2 < i && #[trigger] rv[j2][k as int] == v);
                    }
                }
            }
        }
        i = i + 1;
    }
    proof {
        let s = values_at(rv, k as int);
        assert forall|v: usize| sorted@.contains(v) <==> s.contains(v) by {}
        let q = sorted_values(s);
        assert(strictly_increasing(q) && forall|v: usize| q.contains(v) <==> s.contains(v));
        lemma_sorted_unique(sorted@, q);
        assert forall|i: int| 0 <= i < rs@.len() implies sorted@.contains(#[trigger] rs@[i]@[k as int]) by {
            assert(rv[i][k as int] == rs@[i]@[k as int]);
        }
    }
    sorted
}

proof fn lemma_encode_monotone(gs: Seq<GroupView>, r: Seq<usize>, m: nat, n: nat)
    requires
        m <= n,
    ensures
        encode_prefix(gs, r, m) <= encode_prefix(gs, r, n),
    decreases n - m,
{
    if m < n {
        lemma_encode_monotone(gs, r, m, (n - 1) as nat);
    }
}

impl ScenarioDomainBuilder {
    /// Build a map of simulation indices to schema indices for each group from a list of combinations
    fn build_scenario_map_from_combinations(&self, combinations: &Vec<Vec<usize>>) -> (r: Result<
        Vec<Option<Vec<usize>>>,
        ScenarioError,
    >)
        requires
            forall|i: int| 0 <= i < combinations@.len() ==> (#[trigger] combinations@[i])@.len() == self@.groups.len(),
        ensures
            r matches Ok(m) && scenario_map_view(m@) == Seq::new(
                self@.groups.len(),
                |k: int| combination_map_entry(combinations@.map_values(|x: Vec<usize>| x@), k),
            ) && m@.len() == self@.groups.len() && forall|k: int, i: int|
                0 <= k < self@.groups.len() && 0 <= i < combinations@.len() ==> entry_contains(
                    #[trigger] m@[k],
                    #[trigger] combinations@[i]@[k],
                ),
    {
        let ghost rv = combinations@.map_values(|x: Vec<usize>| x@);
        let n = self.groups.len();
        let mut map: Vec<Option<Vec<usize>>> = Vec::new();
        let mut k: usize = 0;
        while k < n
            invariant
                k <= n,
                n == self@.groups.len(),
                rv == combinations@.map_values(|x: Vec<usize>| x@),
                forall|i: int| 0 <= i < combinations@.len() ==> (#[trigger] combinations@[i])@.len() == n,
                map@.len() == k,
                scenario_map_view(map@) =~= Seq::new(k as nat, |j: int| combination_map_entry(rv, j)),
                forall|j: int, i: int|
                    0 <= j < k && 0 <= i < combinations@.len() ==> entry_contains(
                        #[trigger] map@[j],
                        #[trigger] combinations@[i]@[j],
                    ),
            decreases n - k,
        {
            let entry = if combinations.len() == 0 {
                None
            } else {
                Some(sorted_values_at(combinations, k))
            };
            proof {
                assert forall|i: int| 0 <= i < combinations@.len() implies entry_contains(
                    entry,
                    #[trigger] combinations@[i]@[k as int],
                ) by {
                    assert(entry is Some);
                }
            }
            let ghost prev = map@;
            map.push(entry);
            proof {
                assert forall|j: int, i: int|
                    0 <= j < k + 1 && 0 <= i < combinations@.len() implies entry_contains(
                        #[trigger] map@[j],
                        #[trigger] combinations@[i]@[j],
                    ) by {
                    if j < k {
                        assert(map@[j] == prev[j]);
                    } else {
                        assert(map@[j] == entry);
                    }
                }
                assert(opt_indices_view(entry) == combination_map_entry(rv, k as int));
                let a = scenario_map_view(map@);
                let b = Seq::new((k + 1) as nat, |j: int| combination_map_entry(rv, j));
                assert forall|j: int| 0 <= j < a.len() implies a[j] == b[j] by {
                    if j < k {
                        assert(a[j] == scenario_map_view(prev)[j]);
                    }
                }
                assert(a =~= b);
            }
            k = k + 1;
        }
        Ok(map)
    }

    /// The schema id of a combination: the first group varies fastest.
    fn schema_id(&self, combination: &Vec<usize>) -> (r: usize)
        requires
            combination_fits(self@.groups, combination@),
            products_fit(self@.groups),
        ensures
            r == schema_id_of(self@.groups, combination@),
    {
        let ghost gs = self@.groups;
        let mut id: usize = 0;
        let mut multiplier: usize = 1;
        let mut k: usize = 0;
        proof {
            assert(gs.take(0) =~= Seq::<GroupView>::empty());
        }
        while k < self.groups.len()
            invariant
                k <= self.groups.len(),
                gs == self@.groups,
                gs.len() == self.groups@.len(),
                combination_fits(gs, combination@),
                products_fit(gs),
                id == encode_prefix(gs, combination@, k as nat),
                multiplier == product(gs.take(k as int)),
            decreases self.groups.len() - k,
        {
            proof {
                lemma_encode_monotone(gs, combination@, (k + 1) as nat, gs.len());
                assert(gs.take(k + 1).drop_last() =~= gs.take(k as int));
                assert(gs.take(k + 1).last() == gs[k as int]);
                assert(product(gs.take(k + 1)) <= usize::MAX);
                assert(gs[k as int] == self.groups@[k as int]@);
            }
            id = id + combination[k] * multiplier;
            multiplier = multiplier * self.groups[k].size;
            k = k + 1;
        }
        id
    }
}


/// The mathematical form of a [`ScenarioDomain`].
pub struct DomainView {
    pub indices: Seq<IndexView>,
    pub groups: Seq<GroupView>,
    pub scenario_map: Seq<Option<Seq<usize>>>,
}

/// The scenario domain for a model.
#[derive(Debug)]
pub struct ScenarioDomain {
    indices: Vec<ScenarioIndex>,
    groups: Vec<ScenarioGroup>,
    scenario_map: Vec<Option<Vec<usize>>>,
}

impl View for ScenarioDomain {
    type V = DomainView;

    closed spec fn view(&self) -> DomainView {
        DomainView {
            indices: indices_view(self.indices@),
            groups: groups_view(self.groups@),
            scenario_map: scenario_map_view(self.scenario_map@),
        }
    }
}

/// What every domain satisfies: at least one group, all well formed and named apart, and one
/// map entry per group.
pub open spec fn domain_wf(d: DomainView) -> bool {
    &&& d.groups.len() > 0
    &&& d.scenario_map.len() == d.groups.len()
    &&& forall|i: int| 0 <= i < d.groups.len() ==> group_wf(#[trigger] d.groups[i])
    &&& names_distinct(d.groups)
}

/// The group that a domain without groups runs: one scenario called "Default".
pub open spec fn default_group_view() -> GroupView {
    GroupView { name: "Default"@, size: 1, subset: None, labels: None }
}

/// The scenario that a domain without groups runs.
pub open spec fn default_index_view() -> IndexView {
    IndexView { simulation_id: 0, simulation_indices: seq![0usize], schema: None, labels: seq!["0"@] }
}

/// The inputs on which building a domain stays within the machine: the products of the
/// group sizes fit in a `usize`, and each resolved combination names every group, stays within
/// labelled groups and has a schema id that fits.
pub open spec fn build_fits(b: DomainBuilderView) -> bool {
    b.groups.len() > 0 ==> {
        &&& products_fit(b.groups)
        &&& match b.combinations {
            Some(cs) => !is_sliced(b.groups) ==> match resolve_all(b.groups, cs, cs.len()) {
                Ok(rs) => forall|i: int| 0 <= i < rs.len() ==> combination_fits(b.groups, #[trigger] rs[i]),
                Err(_) => true,
            },
            None => true,
        }
    }
}

/// The domain that a builder builds, or the error it raises.
///
/// Without groups the domain runs one default scenario. Subsets and combinations exclude each
/// other. With combinations, the scenarios are the combinations in their order; each group's
/// map lists the distinct entries used, in increasing order. Otherwise the scenarios are the
/// combinations of all groups, the last group varying fastest, less those outside a subset.
pub open spec fn built_domain(b: DomainBuilderView) -> Result<DomainView, ScenarioErrorView> {
    let gs = b.groups;
    if gs.len() == 0 {
        Ok(
            DomainView {
                indices: seq![default_index_view()],
                groups: seq![default_group_view()],
                scenario_map: seq![None],
            },
        )
    } else if is_sliced(gs) && b.combinations is Some {
        Err(ScenarioErrorView::CombinationsAndSlices)
    } else {
        match b.combinations {
            Some(cs) => match resolve_all(gs, cs, cs.len()) {
                Err(e) => Err(e),
                Ok(rs) => {
                    let map = Seq::new(gs.len(), |k: int| combination_map_entry(rs, k));
                    Ok(
                        DomainView {
                            indices: Seq::new(rs.len(), |i: int| combination_index(gs, map, rs[i], i as nat)),
                            groups: gs,
                            scenario_map: map,
                        },
                    )
                },
            },
            None => Ok(
                DomainView {
                    indices: enumerate(gs, product(gs)),
                    groups: gs,
                    scenario_map: Seq::new(gs.len(), |k: int| subset_map(gs[k])),
                },
            ),
        }
    }
}

/// The schema index of group `k` of a scenario: its schema's where it keeps one, else its
/// simulation index.
pub open spec fn schema_entry(idx: IndexView, k: int) -> usize {
    match idx.schema {
        Some((_, s)) => s[k],
        None => idx.simulation_indices[k],
    }
}

/// Each scenario has one simulation index and one label per group, and each group's map
/// translates the scenario's simulation index to its schema index.
pub open spec fn map_translates(d: DomainView) -> bool {
    forall|i: int, k: int|
        0 <= i < d.indices.len() && 0 <= k < d.groups.len() ==> {
            let idx = #[trigger] d.indices[i];
            &&& idx.simulation_indices.len() == d.groups.len()
            &&& idx.labels.len() == d.groups.len()
            &&& (idx.schema matches Some((_, s)) ==> s.len() == d.groups.len())
            &&& match #[trigger] d.scenario_map[k] {
                Some(m) => idx.simulation_indices[k] < m.len() && m[idx.simulation_indices[k] as int]
                    == schema_entry(idx, k),
                None => idx.simulation_indices[k] == schema_entry(idx, k),
            }
        }
}

/// The scenarios of a domain are numbered from 0 in their order.
pub open spec fn ids_are_positions(d: DomainView) -> bool {
    forall|i: int| 0 <= i < d.indices.len() ==> (#[trigger] d.indices[i]).simulation_id == i
}

proof fn lemma_enumerate_elements(gs: Seq<GroupView>, n: nat)
    ensures
        enumerate(gs, n).len() <= n,
        forall|j: int|
            0 <= j < enumerate(gs, n).len() ==> exists|id: nat|
                id < n && runs_all(gs, schema_indices_of(gs, id)) && #[trigger] enumerate(gs, n)[j]
                    == enumerated_index(gs, id, j as nat),
    decreases n,
{
    if n > 0 {
        let prev = enumerate(gs, (n - 1) as nat);
        lemma_enumerate_elements(gs, (n - 1) as nat);
        let cur = enumerate(gs, n);
        assert forall|j: int| 0 <= j < cur.len() implies exists|id: nat|
            id < n && runs_all(gs, schema_indices_of(gs, id)) && #[trigger] cur[j] == enumerated_index(
                gs,
                id,
                j as nat,
            ) by {
            if j < prev.len() {
                assert(cur[j] == prev[j]);
                let id = choose|id: nat|
                    id < n - 1 && runs_all(gs, schema_indices_of(gs, id)) && #[trigger] prev[j] == enumerated_index(
                        gs,
                        id,
                        j as nat,
                    );
                assert(id < n);
            } else {
                assert(cur[j] == enumerated_index(gs, (n - 1) as nat, j as nat));
                assert(runs_all(gs, schema_indices_of(gs, (n - 1) as nat)));
            }
        }
    }
}

proof fn lemma_enumerated_translates(gs: Seq<GroupView>, id: nat, j: nat, k: int)
    requires
        runs_all(gs, schema_indices_of(gs, id)),
        id < product(gs),
        0 <= k < gs.len(),
        group_wf(gs[k]),
    ensures
        ({
            let idx = enumerated_index(gs, id, j);
            &&& idx.simulation_indices.len() == gs.len()
            &&& idx.labels.len() == gs.len()
            &&& (idx.schema matches Some((_, s)) ==> s.len() == gs.len())
            &&& match subset_map(gs[k]) {
                Some(m) => idx.simulation_indices[k] < m.len() && m[idx.simulation_indices[k] as int]
                    == schema_entry(idx, k),
                None => idx.simulation_indices[k] == schema_entry(idx, k),
            }
        }),
{
    let schema = schema_indices_of(gs, id);
    assert forall|i: int| 0 <= i < gs.len() implies (#[trigger] gs[i]).size > 0 by {
        lemma_product_positive(gs, i);
    }
    lemma_schema_indices_bounded(gs, id);
    let idx = enumerated_index(gs, id, j);
    let v = schema[k];
    assert(runs_entry(gs[k], v));
    assert(idx.simulation_indices[k] == simulation_index_of(gs[k], v));
    if is_sliced(gs) {
        assert(idx.schema == Some(((id as usize), schema)));
        assert(schema_entry(idx, k) == v);
    } else {
        assert(idx.schema is None);
        assert(gs[k].subset is None);
    }
    match gs[k].subset {
        None => {
            assert(idx.simulation_indices[k] == v);
            assert(schema_entry(idx, k) == v);
            assert(subset_map(gs[k]) is None);
        },
        Some(SubsetView::Slice { start, end }) => {
            let m = Seq::new((end - start) as nat, |i: int| (start + i) as usize);
            assert(subset_map(gs[k]) == Some(m));
            assert(start <= v < end);
            let sim = idx.simulation_indices[k];
            assert(sim == (v - start) as usize);
            assert(sim as int == v - start);
            assert(sim < m.len());
            assert(m[sim as int] == v);
            assert(schema_entry(idx, k) == v);
        },
        Some(SubsetView::Indices(ix)) => {
            let q = choose|q: int| 0 <= q < ix.len() && ix[q] == v;
            lemma_least_position(ix, v, q);
            let p = first_index(ix, v);
            assert(0 <= p < ix.len() && ix[p] == v);
            assert(subset_map(gs[k]) == Some(ix));
            assert(idx.simulation_indices[k] == p as usize);
            assert(schema_entry(idx, k) == v);
        },
    }
    assert(idx.simulation_indices.len() == gs.len());
    assert(idx.labels.len() == gs.len());
    assert(idx.schema matches Some((_, s)) ==> s.len() == gs.len());
    assert(match subset_map(gs[k]) {
                Some(m) => idx.simulation_indices[k] < m.len() && m[idx.simulation_indices[k] as int]
                    == schema_entry(idx, k),
                None => idx.simulation_indices[k] == schema_entry(idx, k),
            });
}

proof fn lemma_least_position<T>(s: Seq<T>, v: T, q: int)
    requires
        0 <= q < s.len(),
        s[q] == v,
    ensures
        exists|p: int| 0 <= p < s.len() && s[p] == v && forall|i: int| 0 <= i < p ==> s[i] != v,
    decreases q,
{
    if exists|i: int| 0 <= i < q && s[i] == v {
        let i = choose|i: int| 0 <= i < q && s[i] == v;
        lemma_least_position(s, v, i);
    } else {
        assert(forall|i: int| 0 <= i < q ==> s[i] != v);
    }
}

proof fn lemma_enumeration_laws(gs: Seq<GroupView>)
    requires
        products_fit(gs),
        forall|i: int| 0 <= i < gs.len() ==> group_wf(#[trigger] gs[i]),
    ensures
        ({
            let d = DomainView {
                indices: enumerate(gs, product(gs)),
                groups: gs,
                scenario_map: Seq::new(gs.len(), |k: int| subset_map(gs[k])),
            };
            map_translates(d) && ids_are_positions(d)
        }),
{
    let n = product(gs);
    assert(gs.take(gs.len() as int) =~= gs);
    assert(n <= usize::MAX);
    lemma_enumerate_elements(gs, n);
    let d = DomainView {
        indices: enumerate(gs, n),
        groups: gs,
        scenario_map: Seq::new(gs.len(), |k: int| subset_map(gs[k])),
    };
    assert forall|i: int, k: int| 0 <= i < d.indices.len() && 0 <= k < d.groups.len() implies {
        let idx = #[trigger] d.indices[i];
        &&& idx.simulation_indices.len() == d.groups.len()
        &&& idx.labels.len() == d.groups.len()
        &&& (idx.schema matches Some((_, s)) ==> s.len() == d.groups.len())
        &&& match #[trigger] d.scenario_map[k] {
            Some(m) => idx.simulation_indices[k] < m.len() && m[idx.simulation_indices[k] as int]
                == schema_entry(idx, k),
            None => idx.simulation_indices[k] == schema_entry(idx, k),
        }
    } by {
        let id = choose|id: nat|
            id < n && runs_all(gs, schema_indices_of(gs, id)) && #[trigger] enumerate(gs, n)[i]
                == enumerated_index(gs, id, i as nat);
        lemma_enumerated_translates(gs, id, i as nat, k);
    }
    assert forall|i: int| 0 <= i < d.indices.len() implies (#[trigger] d.indices[i]).simulation_id == i by {
        let id = choose|id: nat|
            id < n && runs_all(gs, schema_indices_of(gs, id)) && #[trigger] enumerate(gs, n)[i]
                == enumerated_index(gs, id, i as nat);
    }
}

/// A domain result taken by its views.
pub open spec fn domain_res_view(r: Result<ScenarioDomain, ScenarioError>) -> Result<DomainView, ScenarioErrorView> {
    match r {
        Ok(d) => Ok(d@),
        Err(e) => Err(e@),
    }
}

fn combination_simulation_indices(map: &Vec<Option<Vec<usize>>>, r: &Vec<usize>) -> (s: Vec<usize>)
    requires
        map@.len() == r@.len(),
        forall|k: int| 0 <= k < r@.len() ==> entry_contains(#[trigger] map@[k], r@[k]),
    ensures
        s@ == Seq::new(
            r@.len(),
            |k: int|
                match scenario_map_view(map@)[k] {
                    Some(m) => first_index(m, r@[k]) as usize,
                    None => r@[k],
                },
        ),
{
    let ghost target = Seq::new(
        r@.len(),
        |k: int|
            match scenario_map_view(map@)[k] {
                Some(m) => first_index(m, r@[k]) as usize,
                None => r@[k],
            },
    );
    let mut s: Vec<usize> = Vec::new();
    let mut k: usize = 0;
    while k < r.len()
        invariant
            k <= r@.len(),
            map@.len() == r@.len(),
            forall|j: int| 0 <= j < r@.len() ==> entry_contains(#[trigger] map@[j], r@[j]),
            target == Seq::new(
                r@.len(),
                |k: int|
                    match scenario_map_view(map@)[k] {
                        Some(m) => first_index(m, r@[k]) as usize,
                        None => r@[k],
                    },
            ),
            s@ =~= target.take(k as int),
        decreases r.len() - k,
    {
        proof {
            assert(entry_contains(map@[k as int], r@[k as int]));
        }
        let v = match &map[k] {
            Some(m) => match position_of_index(m, r[k]) {
                Some(p) => p,
                None => {
                    proof {
                        assert(false);
                    }
                    0
                },
            },
            None => r[k],
        };
        proof {
            assert(scenario_map_view(map@)[k as int] == opt_indices_view(map@[k as int]));
            assert(v == target[k as int]);
            assert(target.take(k + 1) =~= target.take(k as int).push(v));
        }
        s.push(v);
        k = k + 1;
    }
    proof {
        assert(target.take(r@.len() as int) =~= target);
    }
    s
}

impl ScenarioDomainBuilder {
    /// Builds the domain; see [`built_domain`] for what it holds.
    pub fn build(self) -> (r: Result<ScenarioDomain, ScenarioError>)
        requires
            build_fits(self@),
        ensures
            domain_res_view(r) == built_domain(self@),
            r matches Ok(d) ==> map_translates(d@) && ids_are_positions(d@),
    {
        proof {
            use_type_invariant(&self);
        }
        let ghost bv = self@;
        let ghost gs = self@.groups;
        if self.groups.len() == 0 {
            let mut indices: Vec<ScenarioIndex> = Vec::new();
            indices.push(ScenarioIndex::default());
            let mut groups: Vec<ScenarioGroup> = Vec::new();
            groups.push(ScenarioGroup::default());
            let mut scenario_map: Vec<Option<Vec<usize>>> = Vec::new();
            scenario_map.push(None);
            let d = ScenarioDomain { indices, groups, scenario_map };
            proof {
                assert(d@.scenario_map[0] is None);
                assert(d@.indices =~= seq![default_index_view()]);
                assert(d@.groups =~= seq![default_group_view()]);
                assert(d@.scenario_map =~= seq![None]);
            }
            return Ok(d);
        }
        let num = groups_product(&self.groups);
        let sliced = any_subset(&self.groups);
        if sliced && self.combinations.is_some() {
            return Err(ScenarioError::CombinationsAndSlices);
        }
        match &self.combinations {
            Some(combinations) => {
                let resolved = match resolve_combinations(&self.groups, combinations) {
                    Ok(rs) => rs,
                    Err(e) => {
                        return Err(e);
                    },
                };
                let ghost rv = resolved@.map_values(|x: Vec<usize>| x@);
                proof {
                    assert forall|i: int| 0 <= i < resolved@.len() implies (#[trigger] resolved@[i])@.len()
                        == gs.len() by {
                        assert(rv[i] == resolved@[i]@);
                        assert(combination_fits(gs, rv[i]));
                    }
                }
                let scenario_map = match self.build_scenario_map_from_combinations(&resolved) {
                    Ok(m) => m,
                    Err(e) => {
                        return Err(e);
                    },
                };
                let ghost map = scenario_map_view(scenario_map@);
                let mut scenario_indices: Vec<ScenarioIndex> = Vec::new();
                let mut i: usize = 0;
                while i < resolved.len()
                    invariant
                        i <= resolved@.len(),
                        gs == self@.groups,
                        domain_builder_wf(self@),
                        products_fit(gs),
                        rv == resolved@.map_values(|x: Vec<usize>| x@),
                        forall|j: int| 0 <= j < rv.len() ==> combination_fits(gs, #[trigger] rv[j]),
                        scenario_map@.len() == gs.len(),
                        map == scenario_map_view(scenario_map@),
                        forall|k: int, j: int|
                            0 <= k < gs.len() && 0 <= j < resolved@.len() ==> entry_contains(
                                #[trigger] scenario_map@[k],
                                #[trigger] resolved@[j]@[k],
                            ),
                        scenario_indices@.len() == i,
                        indices_view(scenario_indices@) =~= Seq::new(
                            i as nat,
                            |j: int| combination_index(gs, map, rv[j], j as nat),
                        ),
                    decreases resolved.len() - i,
                {
                    let combination = &resolved[i];
                    proof {
                        assert(rv[i as int] == combination@);
                        assert(combination_fits(gs, combination@));
                        assert forall|k: int| 0 <= k < combination@.len() implies entry_contains(
                            #[trigger] scenario_map@[k],
                            combination@[k],
                        ) by {
                            assert(entry_contains(scenario_map@[k], resolved@[i as int]@[k]));
                        }
                        assert forall|k: int|
                            0 <= k < self.groups@.len() && (#[trigger] groups_view(self.groups@)[k]).labels is Some
                                implies combination@[k] < groups_view(self.groups@)[k].size by {
                            assert(gs[k] == groups_view(self.groups@)[k]);
                        }
                    }
                    let simulation_indices = combination_simulation_indices(&scenario_map, combination);
                    let labels = labels_for(&self.groups, combination);
                    let id = self.schema_id(combination);
                    let builder = ScenarioIndexBuilder::new(scenario_indices.len(), simulation_indices, labels)
                        .with_schema(id, copy_indices(combination));
                    let index = builder.build();
                    let ghost prev = scenario_indices@;
                    scenario_indices.push(index);
                    proof {
                        let want = combination_index(gs, map, rv[i as int], i as nat);
                        assert(index@.simulation_id == want.simulation_id);
                        assert(index@.simulation_indices =~= want.simulation_indices);
                        assert(index@.labels =~= want.labels);
                        assert(index@.schema == want.schema);
                        assert(index@ == combination_index(gs, map, rv[i as int], i as nat));
                        let a = indices_view(scenario_indices@);
                        let b = Seq::new((i + 1) as nat, |j: int| combination_index(gs, map, rv[j], j as nat));
                        assert forall|j: int| 0 <= j < a.len() implies a[j] == b[j] by {
                            if j < i {
                                assert(a[j] == indices_view(prev)[j]);
                            }
                        }
                        assert(a =~= b);
                    }
                    i = i + 1;
                }
                let ScenarioDomainBuilder { groups, combinations: _ } = self;
                let d = ScenarioDomain { indices: scenario_indices, groups, scenario_map };
                proof {
                    assert(map =~= Seq::new(gs.len(), |k: int| combination_map_entry(rv, k)));
                    assert forall|i: int, k: int| 0 <= i < d@.indices.len() && 0 <= k < d@.groups.len() implies {
                        let idx = #[trigger] d@.indices[i];
                        &&& idx.simulation_indices.len() == d@.groups.len()
                        &&& idx.labels.len() == d@.groups.len()
                        &&& (idx.schema matches Some((_, s)) ==> s.len() == d@.groups.len())
                        &&& match #[trigger] d@.scenario_map[k] {
                            Some(m) => idx.simulation_indices[k] < m.len() && m[idx.simulation_indices[k] as int]
                                == schema_entry(idx, k),
                            None => idx.simulation_indices[k] == schema_entry(idx, k),
                        }
                    } by {
                        let r = rv[i];
                        assert(d@.indices[i] == combination_index(gs, map, r, i as nat));
                        assert(combination_fits(gs, r));
                        assert(entry_contains(scenario_map@[k], resolved@[i]@[k]));
                        assert(r == resolved@[i]@);
                        let m = scenario_map@[k].unwrap()@;
                        assert(map[k] == Some(m));
                        assert(m.len() == scenario_map@[k].unwrap().len());
                        let q = choose|q: int| 0 <= q < m.len() && m[q] == r[k];
                        lemma_least_position(m, r[k], q);
                        let p = first_index(m, r[k]);
                        assert(0 <= p < m.len() && m[p] == r[k]);
                    }
                }
                Ok(d)
            },
            None => {
                let scenario_map = build_scenario_map_from_subsets(&self.groups);
                let scenario_indices = enumerate_scenarios(&self.groups, num, sliced);
                let ScenarioDomainBuilder { groups, combinations: _ } = self;
                let d = ScenarioDomain { indices: scenario_indices, groups, scenario_map };
                proof {
                    lemma_enumeration_laws(gs);
                    assert(d@.scenario_map =~= Seq::new(gs.len(), |k: int| subset_map(gs[k])));
                }
                Ok(d)
            },
        }
    }
}

impl ScenarioDomain {
    #[verifier::type_invariant]
    spec fn inv(self) -> bool {
        domain_wf(self@)
    }

    /// The total number of scenario combinations in the domain.
    pub fn len(&self) -> (r: usize)
        ensures
            r == self@.indices.len(),
    {
        self.indices.len()
    }

    pub fn is_empty(&self) -> (r: bool)
        ensures
            r == (self@.indices.len() == 0),
    {
        self.indices.len() == 0
    }

    pub fn indices(&self) -> (r: &[ScenarioIndex])
        ensures
            indices_view(r@) == self@.indices,
    {
        self.indices.as_slice()
    }

    pub fn groups(&self) -> (r: &[ScenarioGroup])
        ensures
            groups_view(r@) == self@.groups,
    {
        self.groups.as_slice()
    }

    /// Return the index of a scenario group by name
    pub fn group_index(&self, name: &str) -> (r: Result<usize, ScenarioError>)
        ensures
            match r {
                Ok(i) => i < self@.groups.len() && self@.groups[i as int].name == name@ && forall|j: int|
                    0 <= j < i ==> #[trigger] self@.groups[j].name != name@,
                Err(e) => !has_group_named(self@.groups, name@) && e@ == ScenarioErrorView::GroupNameNotFound(
                    name@,
                ),
            },
    {
        let ghost gs = self@.groups;
        let target = String::from_str(name);
        let mut i: usize = 0;
        while i < self.groups.len()
            invariant
                i <= self.groups.len(),
                gs == groups_view(self.groups@),
                target@ == name@,
                forall|j: int| 0 <= j < i ==> gs[j].name != name@,
            decreases self.groups.len() - i,
        {
            if self.groups[i].name == target {
                proof {
                    assert(gs[i as int].name == name@);
                }
                return Ok(i);
            }
            i = i + 1;
        }
        Err(ScenarioError::GroupNameNotFound(target))
    }

    /// Return a map of the simulation indices to the schema indices for a group
    pub fn group_scenario_subset(&self, name: &str) -> (r: Result<Option<&[usize]>, ScenarioError>)
        ensures
            match r {
                Ok(m) => exists|i: int|
                    0 <= i < self@.groups.len() && self@.groups[i].name == name@ && (forall|j: int|
                        0 <= j < i ==> #[trigger] self@.groups[j].name != name@) && self@.scenario_map[i]
                        == match m {
                        Some(s) => Some(s@),
                        None => None::<Seq<usize>>,
                    },
                Err(e) => !has_group_named(self@.groups, name@) && e@ == ScenarioErrorView::GroupNameNotFound(
                    name@,
                ),
            },
    {
        proof {
            use_type_invariant(self);
        }
        let group_index = self.group_index(name)?;
        let r = match &self.scenario_map[group_index] {
            Some(v) => Some(v.as_slice()),
            None => None,
        };
        proof {
            assert(self@.scenario_map[group_index as int] == opt_indices_view(self.scenario_map@[group_index as int]));
        }
        Ok(r)
    }

    /// The number of scenarios in the group called `name`.
    pub fn group_size(&self, name: &str) -> (r: Result<usize, ScenarioError>)
        ensures
            match r {
                Ok(n) => exists|i: int|
                    0 <= i < self@.groups.len() && self@.groups[i].name == name@ && (forall|j: int|
                        0 <= j < i ==> #[trigger] self@.groups[j].name != name@) && self@.groups[i].size == n,
                Err(e) => !has_group_named(self@.groups, name@) && e@ == ScenarioErrorView::GroupNameNotFound(
                    name@,
                ),
            },
    {
        let group_index = self.group_index(name)?;
        Ok(self.groups[group_index].size())
    }
}


/// Without subsets, every combination of the groups' scenarios runs once, in order: the
/// `i`-th scenario has simulation id `i` and the schema indices of combination `i`, the last
/// group varying fastest.
pub proof fn law_full_enumeration(gs: Seq<GroupView>)
    requires
        forall|k: int| 0 <= k < gs.len() ==> (#[trigger] gs[k]).subset is None,
    ensures
        enumerate(gs, product(gs)).len() == product(gs),
        forall|i: int|
            0 <= i < product(gs) ==> #[trigger] enumerate(gs, product(gs))[i] == enumerated_index(gs, i as nat, i as nat),
        forall|i: int|
            0 <= i < product(gs) ==> (#[trigger] enumerate(gs, product(gs))[i]).simulation_indices
                == schema_indices_of(gs, i as nat),
{
    lemma_enumerate_unfiltered(gs, product(gs));
    assert forall|i: int| 0 <= i < product(gs) implies (#[trigger] enumerate(gs, product(gs))[i]).simulation_indices
        == schema_indices_of(gs, i as nat) by {
        let idx = enumerated_index(gs, i as nat, i as nat);
        assert forall|k: int| 0 <= k < gs.len() implies (#[trigger] gs[k]).size > 0 by {
            lemma_product_positive(gs, k);
        }
        lemma_schema_indices_bounded(gs, i as nat);
        assert(idx.simulation_indices =~= schema_indices_of(gs, i as nat));
    }
}

proof fn lemma_enumerate_unfiltered(gs: Seq<GroupView>, n: nat)
    requires
        forall|k: int| 0 <= k < gs.len() ==> (#[trigger] gs[k]).subset is None,
    ensures
        enumerate(gs, n).len() == n,
        forall|i: int| 0 <= i < n ==> #[trigger] enumerate(gs, n)[i] == enumerated_index(gs, i as nat, i as nat),
    decreases n,
{
    if n > 0 {
        lemma_enumerate_unfiltered(gs, (n - 1) as nat);
        assert(runs_all(gs, schema_indices_of(gs, (n - 1) as nat)));
    }
}

/// A domain built from groups that run all their scenarios, without combinations, has one
/// scenario per combination of the groups' indices (the product of their sizes); scenario `i`
/// has simulation id `i`, and its indices are the combination numbered `i` with the last group
/// varying fastest, so that each combination comes exactly once, each index within its group,
/// labelled by the group's label or its decimal number, with no separate schema indices.
pub proof fn law_unsliced_domain(b: DomainBuilderView)
    requires
        b.groups.len() > 0,
        build_fits(b),
        b.combinations is None,
        forall|k: int| 0 <= k < b.groups.len() ==> (#[trigger] b.groups[k]).subset is None,
    ensures
        built_domain(b) matches Ok(d) && d.indices.len() == product(b.groups) && d.groups == b.groups
            && forall|i: int|
            0 <= i < d.indices.len() ==> {
                let x = (#[trigger] d.indices[i]).simulation_indices;
                &&& d.indices[i].simulation_id == i
                &&& x == schema_indices_of(b.groups, i as nat)
                &&& x.len() == b.groups.len()
                &&& combination_number(b.groups, x) == i
                &&& (forall|k: int| 0 <= k < b.groups.len() ==> #[trigger] x[k] < b.groups[k].size)
                &&& (forall|k: int|
                    0 <= k < b.groups.len() ==> #[trigger] d.indices[i].labels[k] == label_of(b.groups[k], x[k]))
                &&& d.indices[i].schema is None
            },
{
    let gs = b.groups;
    let n = product(gs);
    law_full_enumeration(gs);
    assert(!is_sliced(gs));
    assert(gs.take(gs.len() as int) =~= gs);
    assert(product(gs.take(gs.len() as int)) <= usize::MAX);
    assert forall|i: int| 0 <= i < n implies {
        let x = (#[trigger] enumerate(gs, n)[i]).simulation_indices;
        &&& enumerate(gs, n)[i].simulation_id == i
        &&& x == schema_indices_of(gs, i as nat)
        &&& x.len() == gs.len()
        &&& combination_number(gs, x) == i
        &&& (forall|k: int| 0 <= k < gs.len() ==> #[trigger] x[k] < gs[k].size)
        &&& (forall|k: int| 0 <= k < gs.len() ==> #[trigger] enumerate(gs, n)[i].labels[k] == label_of(gs[k], x[k]))
        &&& enumerate(gs, n)[i].schema is None
    } by {
        let x = schema_indices_of(gs, i as nat);
        assert(enumerate(gs, n)[i] == enumerated_index(gs, i as nat, i as nat));
        assert forall|k: int| 0 <= k < gs.len() implies (#[trigger] gs[k]).size > 0 by {
            lemma_product_positive(gs, k);
        }
        lemma_schema_indices_bounded(gs, i as nat);
        law_schema_indices_cover(gs, x);
        let m = combination_number(gs, x);
        if m < i {
            law_schema_indices_injective(gs, m, i as nat);
        } else if m > i {
            law_schema_indices_injective(gs, i as nat, m);
        }
    }
}

/// Distinct combination numbers below the product of the sizes have distinct schema indices,
/// and each schema index lies within its group: the enumeration names each combination once.
pub proof fn law_schema_indices_injective(gs: Seq<GroupView>, a: nat, b: nat)
    requires
        a < b,
        b < product(gs),
    ensures
        schema_indices_of(gs, a) != schema_indices_of(gs, b),
        forall|k: int| 0 <= k < gs.len() ==> #[trigger] schema_indices_of(gs, a)[k] < gs[k].size,
    decreases gs.len(),
{
    assert forall|k: int| 0 <= k < gs.len() implies (#[trigger] gs[k]).size > 0 by {
        lemma_product_positive(gs, k);
    }
    lemma_schema_indices_bounded(gs, a);
    if gs.len() > 0 {
        let d = gs.drop_last();
        let s = gs.last().size as nat;
        let p = product(d);
        assert(s > 0);
        let xa = schema_indices_of(gs, a);
        let xb = schema_indices_of(gs, b);
        if a % s == b % s {
            lemma_fundamental_div_mod(a as int, s as int);
            lemma_fundamental_div_mod(b as int, s as int);
            assert(a / s != b / s);
            assert(a / s <= b / s) by (nonlinear_arith)
                requires
                    a < b,
                    s > 0,
            ;
            assert(b / s < p) by (nonlinear_arith)
                requires
                    b < p * s,
                    s > 0,
            ;
            law_schema_indices_injective(d, a / s, b / s);
            assert(xa.drop_last() == schema_indices_of(d, a / s));
            assert(xb.drop_last() == schema_indices_of(d, b / s));
        } else {
            assert(xa.last() == (a % s) as usize);
            assert(xb.last() == (b % s) as usize);
        }
    }
}

/// The combination number of schema indices `c`, the last group varying fastest.
pub open spec fn combination_number(gs: Seq<GroupView>, c: Seq<usize>) -> nat
    decreases gs.len(),
{
    if gs.len() == 0 || c.len() == 0 {
        0
    } else {
        combination_number(gs.drop_last(), c.drop_last()) * (gs.last().size as nat) + (c.last() as nat)
    }
}

/// Every choice of one index per group within its size is the schema indices of exactly one
/// combination number below the product of the sizes: [`combination_number`] undoes
/// [`schema_indices_of`].
pub proof fn law_schema_indices_cover(gs: Seq<GroupView>, c: Seq<usize>)
    requires
        c.len() == gs.len(),
        forall|k: int| 0 <= k < gs.len() ==> #[trigger] c[k] < gs[k].size,
    ensures
        combination_number(gs, c) < product(gs),
        schema_indices_of(gs, combination_number(gs, c)) == c,
    decreases gs.len(),
{
    if gs.len() == 0 {
        assert(c =~= Seq::<usize>::empty());
    } else {
        let d = gs.drop_last();
        let cd = c.drop_last();
        let s = gs.last().size as nat;
        let r = c.last() as nat;
        assert(r < s);
        assert forall|k: int| 0 <= k < d.len() implies #[trigger] cd[k] < d[k].size by {
            assert(cd[k] == c[k]);
            assert(d[k] == gs[k]);
        }
        law_schema_indices_cover(d, cd);
        let q = combination_number(d, cd);
        let p = product(d);
        let x = combination_number(gs, c);
        assert(x == q * s + r);
        assert(x < p * s) by (nonlinear_arith)
            requires
                q < p,
                r < s,
                x == q * s + r,
        ;
        lemma_fundamental_div_mod_converse(x as int, s as int, q as int, r as int);
        assert(schema_indices_of(gs, x) == schema_indices_of(d, q).push((x % s) as usize));
        assert(c =~= cd.push(c.last()));
    }
}

} // verus!
