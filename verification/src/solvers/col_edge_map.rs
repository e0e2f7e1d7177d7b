//! The mapping between the columns of a linear programme and the edges of a network.
//!
//! A single column may represent one or more edges in the model due to trivial mass-balance
//! constraints making their flows equal.

use std::collections::BTreeMap;
use vstd::prelude::*;
use crate::edge::EdgeIndex;

verus! {

/// A finished map from each edge to its column.
pub struct ColumnEdgeMap {
    edge_to_col: Vec<usize>,
}

impl View for ColumnEdgeMap {
    type V = Seq<usize>;

    closed spec fn view(&self) -> Seq<usize> {
        self.edge_to_col@
    }
}

impl ColumnEdgeMap {
    /// The column of an edge.
    pub fn col_for_edge(&self, edge_index: &EdgeIndex) -> (r: usize)
        requires
            edge_index@ < self@.len(),
        ensures
            r == self@[edge_index@ as int],
    {
        self.edge_to_col[edge_index.index()]
    }
}

/// The views of the edges of a column.
pub open spec fn edges_view(v: Seq<EdgeIndex>) -> Seq<usize> {
    v.map_values(|e: EdgeIndex| e@)
}

/// The mathematical form of a [`ColumnEdgeMapBuilder`]: the edges of each column, and the
/// column of each edge.
pub struct ColumnEdgeMapView {
    pub columns: Seq<Seq<usize>>,
    pub edge_to_col: Map<usize, usize>,
}

/// The two halves of the map agree: each mapped edge lies in its column, each edge of a
/// column maps to it, and no column is empty.
pub open spec fn column_map_wf(v: ColumnEdgeMapView) -> bool {
    &&& forall|e: usize| #[trigger] v.edge_to_col.contains_key(e) ==> v.edge_to_col[e] < v.columns.len()
        && v.columns[v.edge_to_col[e] as int].contains(e)
    &&& forall|c: int, j: int|
        0 <= c < v.columns.len() && 0 <= j < v.columns[c].len() ==> v.edge_to_col.contains_key(
            #[trigger] v.columns[c][j],
        ) && v.edge_to_col[v.columns[c][j]] == c
    &&& forall|c: int| 0 <= c < v.columns.len() ==> (#[trigger] v.columns[c]).len() > 0
}

/// A helper struct that contains a mapping from column to model `EdgeIndex`
///
/// A single column may represent one or more edges in the model due to trivial mass-balance
/// constraints making their flows equal. This struct helps with construction of the mapping.
pub struct ColumnEdgeMapBuilder {
    col_to_edges: Vec<Vec<EdgeIndex>>,
    edge_to_col: BTreeMap<usize, usize>,
}

impl View for ColumnEdgeMapBuilder {
    type V = ColumnEdgeMapView;

    closed spec fn view(&self) -> ColumnEdgeMapView {
        ColumnEdgeMapView {
            columns: self.col_to_edges@.map_values(|c: Vec<EdgeIndex>| edges_view(c@)),
            edge_to_col: self.edge_to_col@,
        }
    }
}

impl Default for ColumnEdgeMapBuilder {
    fn default() -> (b: Self)
        ensures
            b@.columns.len() == 0,
            b@.edge_to_col == Map::<usize, usize>::empty(),
    {
        let b = ColumnEdgeMapBuilder { col_to_edges: Vec::new(), edge_to_col: BTreeMap::new() };
        proof {
            assert(b@.columns =~= Seq::<Seq<usize>>::empty());
        }
        b
    }
}

/// The edges `0 .. n` are exactly the mapped ones.
pub open spec fn keys_are_prefix(m: Map<usize, usize>, n: nat) -> bool {
    forall|e: usize| m.contains_key(e) <==> e < n
}

fn copy_edges(v: &Vec<EdgeIndex>) -> (r: Vec<EdgeIndex>)
    ensures
        r@ == v@,
{
    let mut r: Vec<EdgeIndex> = Vec::new();
    let mut i: usize = 0;
    while i < v.len()
        invariant
            i <= v.len(),
            r@ == v@.take(i as int),
        decreases v.len() - i,
    {
        r.push(v[i]);
        proof {
            assert(v@.take(i + 1) =~= v@.take(i as int).push(v@[i as int]));
        }
        i = i + 1;
    }
    proof {
        assert(v@.take(v.len() as int) =~= v@);
    }
    r
}

impl ColumnEdgeMapBuilder {
    #[verifier::type_invariant]
    spec fn inv(self) -> bool {
        column_map_wf(self@)
    }

    /// Converts the builder into the map, which lists the column of edges `0 .. n`.
    pub fn build(self) -> (r: ColumnEdgeMap)
        requires
            self@.edge_to_col.dom().len() > 0,
            keys_are_prefix(self@.edge_to_col, self@.edge_to_col.dom().len()),
        ensures
            r@.len() == self@.edge_to_col.dom().len(),
            forall|e: int| 0 <= e < r@.len() ==> #[trigger] r@[e] == self@.edge_to_col[e as usize],
            forall|e: usize|
                #[trigger] self@.edge_to_col.contains_key(e) ==> e < r@.len() && r@[e as int] == self@.edge_to_col[e],
    {
        let n = self.edge_to_col.len();
        let mut edge_to_col: Vec<usize> = Vec::new();
        let mut e: usize = 0;
        while e < n
            invariant
                e <= n,
                n == self@.edge_to_col.dom().len(),
                keys_are_prefix(self@.edge_to_col, n as nat),
                edge_to_col@.len() == e,
                forall|j: int| 0 <= j < e ==> #[trigger] edge_to_col@[j] == self@.edge_to_col[j as usize],
            decreases n - e,
        {
            let c = match self.edge_to_col.get(&e) {
                Some(c) => *c,
                None => {
                    proof {
                        assert(self@.edge_to_col.contains_key(e));
                    }
                    0
                },
            };
            edge_to_col.push(c);
            e = e + 1;
        }
        ColumnEdgeMap { edge_to_col }
    }

    /// The number of columns in the map
    pub fn ncols(&self) -> (r: usize)
        ensures
            r == self@.columns.len(),
    {
        self.col_to_edges.len()
    }

    /// The column of an edge that is in the map.
    pub fn col_for_edge(&self, edge_index: &EdgeIndex) -> (r: usize)
        requires
            self@.edge_to_col.contains_key(edge_index@),
        ensures
            r == self@.edge_to_col[edge_index@],
    {
        match self.edge_to_col.get(&edge_index.index()) {
            Some(c) => *c,
            None => {
                proof {
                    assert(false);
                }
                0
            },
        }
    }
}


/// Adds `e` to column `col` of a well formed map that does not map `e` yet.
fn join_column(cols: &mut Vec<Vec<EdgeIndex>>, map: &mut BTreeMap<usize, usize>, col: usize, e: EdgeIndex)
    requires
        column_map_wf(ColumnEdgeMapView {
            columns: old(cols)@.map_values(|c: Vec<EdgeIndex>| edges_view(c@)),
            edge_to_col: old(map)@,
        }),
        col < old(cols)@.len(),
        !old(map)@.contains_key(e@),
    ensures
        final(cols)@.len() == old(cols)@.len(),
        final(cols)@.map_values(|c: Vec<EdgeIndex>| edges_view(c@)) == old(cols)@.map_values(
            |c: Vec<EdgeIndex>| edges_view(c@),
        ).update(col as int, edges_view(old(cols)@[col as int]@).push(e@)),
        final(map)@ == old(map)@.insert(e@, col),
        column_map_wf(ColumnEdgeMapView {
            columns: final(cols)@.map_values(|c: Vec<EdgeIndex>| edges_view(c@)),
            edge_to_col: final(map)@,
        }),
{
    let ghost before = cols@.map_values(|c: Vec<EdgeIndex>| edges_view(c@));
    let ghost old_map = map@;
    let ghost ov = ColumnEdgeMapView { columns: before, edge_to_col: old_map };
    proof {
        assert(column_map_wf(ov));
    }
    let mut column = copy_edges(&cols[col]);
    column.push(e);
    let ghost newcol = edges_view(column@);
    cols.set(col, column);
    map.insert(e.index(), col);
    proof {
        let after = cols@.map_values(|c: Vec<EdgeIndex>| edges_view(c@));
        assert(newcol =~= before[col as int].push(e@));
        assert(after =~= before.update(col as int, newcol));
        let v = ColumnEdgeMapView { columns: after, edge_to_col: map@ };
        assert forall|x: usize| #[trigger] v.edge_to_col.contains_key(x) implies v.edge_to_col[x] < v.columns.len()
            && v.columns[v.edge_to_col[x] as int].contains(x) by {
            if x == e@ {
                assert(after[col as int][before[col as int].len() as int] == e@);
            } else {
                assert(ov.edge_to_col.contains_key(x));
                let c = old_map[x];
                assert(v.edge_to_col[x] == c);
                assert(c < before.len());
                assert(before[c as int].contains(x));
                let j = choose|j: int| 0 <= j < before[c as int].len() && before[c as int][j] == x;
                if c == col {
                    assert(after[c as int] == before[c as int].push(e@));
                }
                assert(after[c as int][j] == x);
            }
        }
        assert forall|c: int, j: int| 0 <= c < v.columns.len() && 0 <= j < v.columns[c].len() implies v.edge_to_col.contains_key(
            #[trigger] v.columns[c][j],
        ) && v.edge_to_col[v.columns[c][j]] == c by {
            if c == col && j == before[c].len() {
                assert(v.columns[c][j] == e@);
            } else {
                assert(v.columns[c][j] == before[c][j]);
                let x = ov.columns[c][j];
                assert(ov.edge_to_col.contains_key(x) && ov.edge_to_col[x] == c);
                assert(x != e@);
            }
        }
        assert forall|c: int| 0 <= c < v.columns.len() implies (#[trigger] v.columns[c]).len() > 0 by {
            if c != col {
                assert(v.columns[c] == before[c]);
                assert(ov.columns[c].len() > 0);
            }
        }
    }
}

impl ColumnEdgeMapBuilder {
    /// Add a new column to the map
    ///
    /// An edge that is already mapped is left where it is.
    pub fn add_simple_edge(&mut self, idx: EdgeIndex)
        ensures
            old(self)@.edge_to_col.contains_key(idx@) ==> final(self)@ == old(self)@,
            !old(self)@.edge_to_col.contains_key(idx@) ==> final(self)@ == (ColumnEdgeMapView {
                columns: old(self)@.columns.push(seq![idx@]),
                edge_to_col: old(self)@.edge_to_col.insert(idx@, old(self)@.columns.len() as usize),
            }),
            column_map_wf(old(self)@),
            column_map_wf(final(self)@),
    {
        proof {
            use_type_invariant(&*self);
        }
        if self.edge_to_col.contains_key(&idx.index()) {
            return;
        }
        let mut taken = ColumnEdgeMapBuilder::default();
        std::mem::swap(self, &mut taken);
        let ghost before = taken@;
        proof {
            use_type_invariant(&taken);
        }
        let ColumnEdgeMapBuilder { col_to_edges, edge_to_col } = taken;
        let mut col_to_edges = col_to_edges;
        let mut edge_to_col = edge_to_col;
        let col = col_to_edges.len();
        let mut column: Vec<EdgeIndex> = Vec::new();
        column.push(idx);
        col_to_edges.push(column);
        edge_to_col.insert(idx.index(), col);
        proof {
            let cols = col_to_edges@.map_values(|c: Vec<EdgeIndex>| edges_view(c@));
            assert(edges_view(column@) =~= seq![idx@]);
            assert(cols =~= before.columns.push(seq![idx@]));
            let v = ColumnEdgeMapView { columns: cols, edge_to_col: edge_to_col@ };
            assert forall|x: usize| #[trigger] v.edge_to_col.contains_key(x) implies v.edge_to_col[x] < v.columns.len()
                && v.columns[v.edge_to_col[x] as int].contains(x) by {
                if x == idx@ {
                    assert(cols[col as int][0] == idx@);
                } else {
                    let c = before.edge_to_col[x];
                    assert(before.columns[c as int].contains(x));
                    assert(cols[c as int] == before.columns[c as int]);
                }
            }
            assert forall|c: int, j: int| 0 <= c < v.columns.len() && 0 <= j < v.columns[c].len() implies v.edge_to_col.contains_key(
                #[trigger] v.columns[c][j],
            ) && v.edge_to_col[v.columns[c][j]] == c by {
                if c < before.columns.len() {
                    assert(v.columns[c] == before.columns[c]);
                    assert(before.edge_to_col.contains_key(before.columns[c][j]));
                }
            }
        }
        *self = ColumnEdgeMapBuilder { col_to_edges, edge_to_col };
    }

    /// Add related columns
    ///
    /// The two edges share a column: a new one when neither is mapped, else the column of the
    /// one that is. When both are mapped nothing changes.
    pub fn add_equal_edges(&mut self, idx1: EdgeIndex, idx2: EdgeIndex)
        ensures
            ({
                let o = old(self)@;
                let f = final(self)@;
                let p1 = o.edge_to_col.contains_key(idx1@);
                let p2 = o.edge_to_col.contains_key(idx2@);
                &&& (p1 && p2) ==> f == o
                &&& (!p1 && p2) ==> f == (ColumnEdgeMapView {
                    columns: o.columns.update(
                        o.edge_to_col[idx2@] as int,
                        o.columns[o.edge_to_col[idx2@] as int].push(idx1@),
                    ),
                    edge_to_col: o.edge_to_col.insert(idx1@, o.edge_to_col[idx2@]),
                })
                &&& (p1 && !p2) ==> f == (ColumnEdgeMapView {
                    columns: o.columns.update(
                        o.edge_to_col[idx1@] as int,
                        o.columns[o.edge_to_col[idx1@] as int].push(idx2@),
                    ),
                    edge_to_col: o.edge_to_col.insert(idx2@, o.edge_to_col[idx1@]),
                })
                &&& (!p1 && !p2) ==> f == (ColumnEdgeMapView {
                    columns: o.columns.push(seq![idx1@, idx2@]),
                    edge_to_col: o.edge_to_col.insert(idx1@, o.columns.len() as usize).insert(
                        idx2@,
                        o.columns.len() as usize,
                    ),
                })
            }),
            final(self)@.edge_to_col.contains_key(idx1@),
            final(self)@.edge_to_col.contains_key(idx2@),
            !(old(self)@.edge_to_col.contains_key(idx1@) && old(self)@.edge_to_col.contains_key(idx2@))
                ==> final(self)@.edge_to_col[idx1@] == final(self)@.edge_to_col[idx2@],
            final(self)@.columns.len() == if old(self)@.edge_to_col.contains_key(idx1@)
                || old(self)@.edge_to_col.contains_key(idx2@) {
                old(self)@.columns.len()
            } else {
                old(self)@.columns.len() + 1
            },
            forall|e: usize| #[trigger]
                old(self)@.edge_to_col.contains_key(e) ==> final(self)@.edge_to_col.contains_key(e)
                    && final(self)@.edge_to_col[e] == old(self)@.edge_to_col[e],
            column_map_wf(old(self)@),
            column_map_wf(final(self)@),
    {
        proof {
            use_type_invariant(&*self);
        }
        let idx1_present = self.edge_to_col.contains_key(&idx1.index());
        let idx2_present = self.edge_to_col.contains_key(&idx2.index());
        if idx1_present && idx2_present {
            return;
        }
        let mut taken = ColumnEdgeMapBuilder::default();
        std::mem::swap(self, &mut taken);
        let ghost before = taken@;
        proof {
            use_type_invariant(&taken);
        }
        let ColumnEdgeMapBuilder { col_to_edges, edge_to_col } = taken;
        let mut col_to_edges = col_to_edges;
        let mut edge_to_col = edge_to_col;
        if !idx1_present && idx2_present {
            let col = match edge_to_col.get(&idx2.index()) {
                Some(c) => *c,
                None => {
                    proof {
                        assert(false);
                    }
                    0
                },
            };
            join_column(&mut col_to_edges, &mut edge_to_col, col, idx1);
        } else if idx1_present && !idx2_present {
            let col = match edge_to_col.get(&idx1.index()) {
                Some(c) => *c,
                None => {
                    proof {
                        assert(false);
                    }
                    0
                },
            };
            join_column(&mut col_to_edges, &mut edge_to_col, col, idx2);
        } else {
            let col = col_to_edges.len();
            let mut column: Vec<EdgeIndex> = Vec::new();
            column.push(idx1);
            column.push(idx2);
            col_to_edges.push(column);
            edge_to_col.insert(idx1.index(), col);
            edge_to_col.insert(idx2.index(), col);
            proof {
                let cols = col_to_edges@.map_values(|c: Vec<EdgeIndex>| edges_view(c@));
                assert(edges_view(column@) =~= seq![idx1@, idx2@]);
                assert(cols =~= before.columns.push(seq![idx1@, idx2@]));
                let v = ColumnEdgeMapView { columns: cols, edge_to_col: edge_to_col@ };
                assert forall|x: usize| #[trigger] v.edge_to_col.contains_key(x) implies v.edge_to_col[x] < v.columns.len()
                    && v.columns[v.edge_to_col[x] as int].contains(x) by {
                    if x == idx1@ {
                        assert(cols[col as int][0] == idx1@);
                    } else if x == idx2@ {
                        assert(cols[col as int][1] == idx2@);
                    } else {
                        let c = before.edge_to_col[x];
                        assert(before.columns[c as int].contains(x));
                        assert(cols[c as int] == before.columns[c as int]);
                    }
                }
                assert forall|c: int, j: int| 0 <= c < v.columns.len() && 0 <= j < v.columns[c].len() implies v.edge_to_col.contains_key(
                    #[trigger] v.columns[c][j],
                ) && v.edge_to_col[v.columns[c][j]] == c by {
                    if c < before.columns.len() {
                        assert(v.columns[c] == before.columns[c]);
                        assert(before.edge_to_col.contains_key(before.columns[c][j]));
                    }
                }
            }
        }
        *self = ColumnEdgeMapBuilder { col_to_edges, edge_to_col };
    }
}

} // verus!
