//! Laws of the conversion, stated over the node labels and edges that
//! `build_graph` adds.

use vstd::prelude::*;
use crate::convert::{
    elements_edges, elements_labels, entries_edges, entries_labels, lemma_edge_count,
    lemma_elements_edge_count, lemma_entries_edge_count, link_label, parent_edge, tree_edges,
    tree_labels,
};
use crate::graph::EdgeRec;
use crate::graph::{edge_list, node_labels, LabeledGraph};
use crate::text::quoted_label;
use crate::value::Value;

verus! {

/// `v` is a string, a number, a boolean or null.
pub open spec fn is_scalar(v: Value) -> bool {
    match v {
        Value::Null => true,
        Value::Bool(_) => true,
        Value::Number(_) => true,
        Value::String(_) => true,
        _ => false,
    }
}

/// How a scalar is written as a label: a string between double quotes, a
/// number as its text, `true` or `false`, `null`.
pub open spec fn scalar_label(v: Value) -> Seq<char> {
    match v {
        Value::String(s) => quoted_label(s@),
        Value::Number(n) => n@,
        Value::Bool(b) => if b { "true"@ } else { "false"@ },
        _ => "null"@,
    }
}

/// A scalar becomes one node, labeled as `scalar_label` says, with no edge of
/// its own; the edge from its parent is there exactly when it has a parent.
pub proof fn law_scalar_one_node(v: Value, base: nat, parent: Option<usize>, link: Seq<char>)
    requires
        is_scalar(v),
    ensures
        tree_labels(v) == seq![scalar_label(v)],
        tree_edges(v, base).len() == 0,
        parent_edge(parent, base, link).len() == if parent.is_some() { 1nat } else { 0nat },
{
}

/// The number of nodes that the values of the entries `es` make, summed.
pub open spec fn entry_value_nodes(es: Seq<(Value, Value)>) -> nat
    decreases es.len(),
{
    if es.len() == 0 {
        0
    } else {
        entry_value_nodes(es.drop_last()) + tree_labels(es.last().1).len()
    }
}

/// The number of nodes that the elements `xs` make, summed.
pub open spec fn element_nodes(xs: Seq<Value>) -> nat
    decreases xs.len(),
{
    if xs.len() == 0 {
        0
    } else {
        element_nodes(xs.drop_last()) + tree_labels(xs.last()).len()
    }
}

proof fn lemma_entries_count(es: Seq<(Value, Value)>)
    ensures
        entries_labels(es).len() == es.len() + entry_value_nodes(es),
        entry_value_nodes(es) >= es.len(),
    decreases es.len(),
{
    if es.len() > 0 {
        lemma_entries_count(es.drop_last());
        lemma_edge_count(es.last().1, 0);
    }
}

proof fn lemma_elements_count(xs: Seq<Value>)
    ensures
        elements_labels(xs).len() == xs.len() + element_nodes(xs),
        element_nodes(xs) >= xs.len(),
    decreases xs.len(),
{
    if xs.len() > 0 {
        lemma_elements_count(xs.drop_last());
        lemma_edge_count(xs.last(), 0);
    }
}

/// A mapping with `n` entries makes one mapping node, one key node per entry
/// and the nodes of each entry's value: `1 + n + (nodes of the values)`, which
/// is `1 + 2n + (nodes below each value's own node)`.
pub proof fn law_mapping_node_count(es: Vec<(Value, Value)>)
    ensures
        tree_labels(Value::Mapping(es)).len() == 1 + es.len() + entry_value_nodes(es@),
        tree_labels(Value::Mapping(es)).len() == 1 + 2 * es.len() + (entry_value_nodes(es@)
            - es.len()),
{
    lemma_entries_count(es@);
}

/// A sequence with `n` elements makes one sequence node, one index node per
/// element and the nodes of each element: `1 + n + (nodes of the elements)`,
/// which is `1 + 2n + (nodes below each element's own node)`.
pub proof fn law_sequence_node_count(xs: Vec<Value>)
    ensures
        tree_labels(Value::Sequence(xs)).len() == 1 + xs.len() + element_nodes(xs@),
        tree_labels(Value::Sequence(xs)).len() == 1 + 2 * xs.len() + (element_nodes(xs@)
            - xs.len()),
{
    lemma_elements_count(xs@);
}

/// Two graphs made from the same value, each from an empty graph, hold the same
/// labels and the same edges, in the same order.
pub proof fn law_conversion_repeatable(v: Value, g1: LabeledGraph, g2: LabeledGraph)
    requires
        node_labels(g1) == tree_labels(v),
        edge_list(g1) == tree_edges(v, 0),
        node_labels(g2) == tree_labels(v),
        edge_list(g2) == tree_edges(v, 0),
    ensures
        node_labels(g1) == node_labels(g2),
        edge_list(g1) == edge_list(g2),
{
}

/// The `j`-th edge of `es` enters node `first + j`, and leaves `owner` or a
/// node from `low` on that comes before its target.
pub open spec fn edges_shaped(es: Seq<EdgeRec>, first: nat, owner: nat, low: nat) -> bool {
    forall|j: int|
        0 <= j < es.len() ==> (#[trigger] es[j]).1 == first + j && (es[j].0 == owner || (low
            <= es[j].0 && es[j].0 < es[j].1))
}

proof fn lemma_shaped_concat(a: Seq<EdgeRec>, b: Seq<EdgeRec>, first: nat, owner: nat, low: nat)
    requires
        edges_shaped(a, first, owner, low),
        edges_shaped(b, first + a.len(), owner, low),
    ensures
        edges_shaped(a + b, first, owner, low),
{
    assert forall|j: int| 0 <= j < (a + b).len() implies ((#[trigger] (a + b)[j]).1 == first + j
        && ((a + b)[j].0 == owner || (low <= (a + b)[j].0 && (a + b)[j].0 < (a + b)[j].1))) by {
        if j >= a.len() {
            assert((a + b)[j] == b[j - a.len()]);
        }
    }
}

proof fn lemma_shaped_widen(es: Seq<EdgeRec>, first: nat, owner: nat, low: nat, owner2: nat, low2: nat)
    requires
        edges_shaped(es, first, owner, low),
        low2 <= low,
        low2 <= owner,
        owner < first,
    ensures
        edges_shaped(es, first, owner2, low2),
{
}

proof fn lemma_tree_shaped(v: Value, base: nat)
    ensures
        edges_shaped(tree_edges(v, base), base + 1, base, base),
    decreases v,
{
    match v {
        Value::Sequence(xs) => {
            lemma_elements_shaped(xs@, base, base + 1);
            lemma_shaped_widen(elements_edges(xs@, base, base + 1), base + 1, base, base + 1, base, base);
        },
        Value::Mapping(es) => {
            lemma_entries_shaped(es@, base, base + 1);
            lemma_shaped_widen(entries_edges(es@, base, base + 1), base + 1, base, base + 1, base, base);
        },
        Value::Tagged(_, inner) => {
            let head: Seq<EdgeRec> = seq![(base, base + 1, link_label(*inner))];
            lemma_tree_shaped(*inner, base + 1);
            lemma_shaped_widen(tree_edges(*inner, base + 1), base + 2, base + 1, base + 1, base, base);
            lemma_shaped_concat(head, tree_edges(*inner, base + 1), base + 1, base, base);
        },
        _ => {},
    }
}

proof fn lemma_entries_shaped(es: Seq<(Value, Value)>, owner: nat, start: nat)
    requires
        owner < start,
    ensures
        edges_shaped(entries_edges(es, owner, start), start, owner, start),
    decreases es,
{
    if es.len() > 0 {
        let pre = es.drop_last();
        let k = start + entries_labels(pre).len();
        let mid: Seq<EdgeRec> = seq![(owner, k, "key"@), (k, k + 1, link_label(es.last().1))];
        lemma_entries_shaped(pre, owner, start);
        lemma_entries_edge_count(pre, owner, start);
        lemma_tree_shaped(es.last().1, k + 1);
        lemma_shaped_widen(tree_edges(es.last().1, k + 1), k + 2, k + 1, k + 1, owner, start);
        lemma_shaped_concat(entries_edges(pre, owner, start), mid, start, owner, start);
        lemma_shaped_concat(
            entries_edges(pre, owner, start) + mid,
            tree_edges(es.last().1, k + 1),
            start,
            owner,
            start,
        );
    }
}

proof fn lemma_elements_shaped(xs: Seq<Value>, owner: nat, start: nat)
    requires
        owner < start,
    ensures
        edges_shaped(elements_edges(xs, owner, start), start, owner, start),
    decreases xs,
{
    if xs.len() > 0 {
        let pre = xs.drop_last();
        let k = start + elements_labels(pre).len();
        let mid: Seq<EdgeRec> = seq![(owner, k, "index"@), (k, k + 1, link_label(xs.last()))];
        lemma_elements_shaped(pre, owner, start);
        lemma_elements_edge_count(pre, owner, start);
        lemma_tree_shaped(xs.last(), k + 1);
        lemma_shaped_widen(tree_edges(xs.last(), k + 1), k + 2, k + 1, k + 1, owner, start);
        lemma_shaped_concat(elements_edges(pre, owner, start), mid, start, owner, start);
        lemma_shaped_concat(
            elements_edges(pre, owner, start) + mid,
            tree_edges(xs.last(), k + 1),
            start,
            owner,
            start,
        );
    }
}

/// The graph of a value is a tree rooted at its first node: there is one edge
/// fewer than nodes, the `j`-th edge enters node `base + 1 + j`, so the root has
/// no incoming edge and every other node exactly one, and every edge leaves a
/// node made before its target.
pub proof fn law_tree_shape(v: Value, base: nat)
    ensures
        tree_edges(v, base).len() + 1 == tree_labels(v).len(),
        forall|j: int|
            0 <= j < tree_edges(v, base).len() ==> (#[trigger] tree_edges(v, base)[j]).1 == base
                + 1 + j,
        forall|j: int|
            0 <= j < tree_edges(v, base).len() ==> base <= (#[trigger] tree_edges(v, base)[j]).0
                && tree_edges(v, base)[j].0 < tree_edges(v, base)[j].1,
{
    lemma_edge_count(v, base);
    lemma_tree_shaped(v, base);
}

} // verus!
