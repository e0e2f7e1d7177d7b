//! The header of the wide CSV output: four rows that name, for every scenario in turn, each
//! metric, its attribute, the scenario's simulation id and the scenario's label.

use vstd::prelude::*;

use crate::recorders::metric_set::OutputMetric;
use crate::scenario::{indices_view, strings_view, IndexView, ScenarioIndex};
use crate::text::{decimal, join, usize_to_decimal};

verus! {

/// The entries that header row `row` holds for one scenario: the metrics' names (row 0), their
/// attributes (row 1), the scenario's simulation id (row 2) or its label (row 3), once per
/// metric.
pub open spec fn header_block(row: int, metrics: Seq<OutputMetric>, index: IndexView) -> Seq<Seq<char>> {
    Seq::new(
        metrics.len(),
        |j: int|
            if row == 0 {
                metrics[j]@.name
            } else if row == 1 {
                metrics[j]@.attribute
            } else if row == 2 {
                decimal(index.simulation_id as nat)
            } else {
                join(index.labels, "-"@)
            },
    )
}

/// The entries of header row `row` for the scenarios `indices`, one scenario after another.
pub open spec fn header_blocks(row: int, metrics: Seq<OutputMetric>, indices: Seq<IndexView>) -> Seq<Seq<char>>
    decreases indices.len(),
{
    if indices.len() == 0 {
        Seq::empty()
    } else {
        header_blocks(row, metrics, indices.drop_last()) + header_block(row, metrics, indices.last())
    }
}

/// The first entry of header row `row`: what the row lists.
pub open spec fn header_title(row: int) -> Seq<char> {
    if row == 0 {
        "node"@
    } else if row == 1 {
        "attribute"@
    } else if row == 2 {
        "simulation_id"@
    } else {
        "label"@
    }
}

/// Header row `row` of the wide CSV output.
pub open spec fn header_row(row: int, metrics: Seq<OutputMetric>, indices: Seq<IndexView>) -> Seq<Seq<char>> {
    seq![header_title(row)] + header_blocks(row, metrics, indices)
}

/// The title of header row `row`.
fn title(row: usize) -> (r: String)
    requires
        row < 4,
    ensures
        r@ == header_title(row as int),
{
    let t = if row == 0 {
        "node"
    } else if row == 1 {
        "attribute"
    } else if row == 2 {
        "simulation_id"
    } else {
        "label"
    };
    proof {
        reveal_strlit("node");
        reveal_strlit("attribute");
        reveal_strlit("simulation_id");
        reveal_strlit("label");
    }
    t.to_string()
}

/// Header row `row` of the wide CSV output.
fn wide_header_row(row: usize, metrics: &[OutputMetric], indices: &[ScenarioIndex]) -> (r: Vec<String>)
    requires
        row < 4,
    ensures
        strings_view(r@) == header_row(row as int, metrics@, indices_view(indices@)),
{
    let ghost ms = metrics@;
    let ghost iv = indices_view(indices@);
    let mut out: Vec<String> = Vec::new();
    out.push(title(row));
    proof {
        assert(iv.take(0) =~= Seq::<IndexView>::empty());
        assert(strings_view(out@) =~= seq![header_title(row as int)] + header_blocks(row as int, ms, iv.take(0)));
    }
    let mut i: usize = 0;
    while i < indices.len()
        invariant
            row < 4,
            ms == metrics@,
            iv == indices_view(indices@),
            i <= indices@.len(),
            strings_view(out@) == seq![header_title(row as int)] + header_blocks(row as int, ms, iv.take(i as int)),
        decreases indices@.len() - i,
    {
        let index = &indices[i];
        let id = usize_to_decimal(index.simulation_id());
        let label = index.label();
        let ghost before = strings_view(out@);
        let ghost block = header_block(row as int, ms, iv[i as int]);
        assert(iv[i as int] == index@);
        let mut j: usize = 0;
        while j < metrics.len()
            invariant
                row < 4,
                ms == metrics@,
                j <= metrics@.len(),
                block == header_block(row as int, ms, index@),
                id@ == decimal(index@.simulation_id as nat),
                label@ == join(index@.labels, "-"@),
                strings_view(out@) == before + block.take(j as int),
            decreases metrics@.len() - j,
        {
            let entry = if row == 0 {
                metrics[j].name().to_string()
            } else if row == 1 {
                metrics[j].attribute().to_string()
            } else if row == 2 {
                id.clone()
            } else {
                label.clone()
            };
            let ghost prev = strings_view(out@);
            out.push(entry);
            proof {
                assert(entry@ == block[j as int]);
                assert(strings_view(out@) =~= prev.push(entry@));
                assert(block.take(j + 1) =~= block.take(j as int).push(block[j as int]));
            }
            j = j + 1;
        }
        proof {
            assert(block.take(metrics@.len() as int) =~= block);
            assert(iv.take(i + 1).drop_last() =~= iv.take(i as int));
            assert(iv.take(i + 1).last() == iv[i as int]);
            assert(strings_view(out@) =~= seq![header_title(row as int)] + header_blocks(
                row as int,
                ms,
                iv.take(i + 1),
            ));
        }
        i = i + 1;
    }
    proof {
        assert(iv.take(indices@.len() as int) =~= iv);
    }
    out
}

/// The four header rows of the wide CSV output for the metrics of a metric set and the
/// scenarios of a domain: "node" then, for each scenario in order, the metrics' names;
/// "attribute" then their attributes; "simulation_id" then the scenario's simulation id once
/// per metric; "label" then the scenario's label once per metric.
pub fn wide_header_rows(metrics: &[OutputMetric], indices: &[ScenarioIndex]) -> (r: Vec<Vec<String>>)
    ensures
        r@.len() == 4,
        forall|k: int| 0 <= k < 4 ==> strings_view(#[trigger] r@[k]@) == header_row(k, metrics@, indices_view(indices@)),
{
    let mut rows: Vec<Vec<String>> = Vec::new();
    let mut k: usize = 0;
    while k < 4
        invariant
            k <= 4,
            rows@.len() == k,
            forall|q: int| 0 <= q < k ==> strings_view(#[trigger] rows@[q]@) == header_row(q, metrics@, indices_view(indices@)),
        decreases 4 - k,
    {
        rows.push(wide_header_row(k, metrics, indices));
        k = k + 1;
    }
    rows
}

} // verus!
