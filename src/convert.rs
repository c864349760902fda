//! Conversion of a value tree into a labeled graph.
//!
//! Each value gets a fresh node; the node of a container is made and linked
//! before its children. Mapping entries and sequence elements hang below a key
//! node or an index node, which carries the key or the position.

use vstd::prelude::*;
use crate::graph::{
    add_edge, add_node, edge_list, new_graph, node_labels, render_dot, EdgeRec, LabeledGraph,
    INDEX_LIMIT, dot_text,
};
use crate::text::{
    index_label, make_index_label, make_map_label, make_quoted_label, make_sequence_label,
    make_tagged_label, map_label, quoted_label, sequence_label, tagged_label,
};
use crate::value::{key_text, Value};

verus! {

/// Why a value tree has no graph.
#[derive(Debug, Clone, Copy, PartialEq, Eq, Structural)]
pub enum ConvertError {
    /// A mapping key is not a string.
    KeyNotString,
}

/// The label of the edge into the node of `v`: `contains` for a container,
/// `value` for a scalar.
pub open spec fn link_label(v: Value) -> Seq<char> {
    match v {
        Value::Sequence(_) => "contains"@,
        Value::Mapping(_) => "contains"@,
        Value::Tagged(_, _) => "contains"@,
        _ => "value"@,
    }
}

/// The label of the key node for key `k`.
pub open spec fn key_label(k: Value) -> Seq<char> {
    match key_text(k) {
        Some(s) => s,
        None => Seq::empty(),
    }
}

/// The labels of the nodes made for `v`, in the order they are made.
pub open spec fn tree_labels(v: Value) -> Seq<Seq<char>>
    decreases v,
{
    match v {
        Value::Null => seq!["null"@],
        Value::Bool(b) => seq![if b { "true"@ } else { "false"@ }],
        Value::Number(n) => seq![n@],
        Value::String(s) => seq![quoted_label(s@)],
        Value::Sequence(xs) => seq![sequence_label(xs.len() as nat)] + elements_labels(xs@),
        Value::Mapping(es) => seq![map_label(es.len() as nat)] + entries_labels(es@),
        Value::Tagged(tag, inner) => seq![tagged_label(tag@)] + tree_labels(*inner),
    }
}

/// The labels of the nodes made for the entries `es` of a mapping: for each,
/// its key node, then the nodes of its value.
pub open spec fn entries_labels(es: Seq<(Value, Value)>) -> Seq<Seq<char>>
    decreases es,
{
    if es.len() == 0 {
        Seq::empty()
    } else {
        entries_labels(es.drop_last()) + seq![key_label(es.last().0)] + tree_labels(es.last().1)
    }
}

/// The labels of the nodes made for the elements `xs` of a sequence: for each,
/// its index node, then the nodes of the element.
pub open spec fn elements_labels(xs: Seq<Value>) -> Seq<Seq<char>>
    decreases xs,
{
    if xs.len() == 0 {
        Seq::empty()
    } else {
        elements_labels(xs.drop_last()) + seq![index_label((xs.len() - 1) as nat)] + tree_labels(
            xs.last(),
        )
    }
}

/// The edges among the nodes made for `v`, when the node of `v` has index
/// `base` and the others follow it in the order of `tree_labels`.
pub open spec fn tree_edges(v: Value, base: nat) -> Seq<EdgeRec>
    decreases v,
{
    match v {
        Value::Sequence(xs) => elements_edges(xs@, base, base + 1),
        Value::Mapping(es) => entries_edges(es@, base, base + 1),
        Value::Tagged(_, inner) => seq![(base, base + 1, link_label(*inner))] + tree_edges(
            *inner,
            base + 1,
        ),
        _ => Seq::empty(),
    }
}

/// The edges made for the entries `es` of the mapping node `owner`, whose
/// first key node has index `start`.
pub open spec fn entries_edges(es: Seq<(Value, Value)>, owner: nat, start: nat) -> Seq<EdgeRec>
    decreases es,
{
    if es.len() == 0 {
        Seq::empty()
    } else {
        let k = start + entries_labels(es.drop_last()).len();
        entries_edges(es.drop_last(), owner, start) + seq![
            (owner, k, "key"@),
            (k, k + 1, link_label(es.last().1)),
        ] + tree_edges(es.last().1, k + 1)
    }
}

/// The edges made for the elements `xs` of the sequence node `owner`, whose
/// first index node has index `start`.
pub open spec fn elements_edges(xs: Seq<Value>, owner: nat, start: nat) -> Seq<EdgeRec>
    decreases xs,
{
    if xs.len() == 0 {
        Seq::empty()
    } else {
        let k = start + elements_labels(xs.drop_last()).len();
        elements_edges(xs.drop_last(), owner, start) + seq![
            (owner, k, "index"@),
            (k, k + 1, link_label(xs.last())),
        ] + tree_edges(xs.last(), k + 1)
    }
}

/// The edge into the node `child` from `parent`, if there is a parent.
pub open spec fn parent_edge(parent: Option<usize>, child: nat, label: Seq<char>) -> Seq<EdgeRec> {
    match parent {
        Some(p) => seq![(p as nat, child, label)],
        None => Seq::empty(),
    }
}

/// Every mapping key in `v` is a string.
pub open spec fn keys_ok(v: Value) -> bool
    decreases v,
{
    match v {
        Value::Sequence(xs) => elements_ok(xs@),
        Value::Mapping(es) => entries_ok(es@),
        Value::Tagged(_, inner) => keys_ok(*inner),
        _ => true,
    }
}

pub open spec fn entries_ok(es: Seq<(Value, Value)>) -> bool
    decreases es,
{
    if es.len() == 0 {
        true
    } else {
        entries_ok(es.drop_last()) && key_text(es.last().0).is_some() && keys_ok(es.last().1)
    }
}

pub open spec fn elements_ok(xs: Seq<Value>) -> bool
    decreases xs,
{
    if xs.len() == 0 {
        true
    } else {
        elements_ok(xs.drop_last()) && keys_ok(xs.last())
    }
}

/// A tree of `n` nodes has `n - 1` edges.
pub proof fn lemma_edge_count(v: Value, base: nat)
    ensures
        tree_edges(v, base).len() + 1 == tree_labels(v).len(),
    decreases v,
{
    match v {
        Value::Sequence(xs) => lemma_elements_edge_count(xs@, base, base + 1),
        Value::Mapping(es) => lemma_entries_edge_count(es@, base, base + 1),
        Value::Tagged(_, inner) => lemma_edge_count(*inner, base + 1),
        _ => {},
    }
}

pub proof fn lemma_entries_edge_count(es: Seq<(Value, Value)>, owner: nat, start: nat)
    ensures
        entries_edges(es, owner, start).len() == entries_labels(es).len(),
    decreases es,
{
    if es.len() > 0 {
        let k = start + entries_labels(es.drop_last()).len();
        lemma_entries_edge_count(es.drop_last(), owner, start);
        lemma_edge_count(es.last().1, k + 1);
    }
}

pub proof fn lemma_elements_edge_count(xs: Seq<Value>, owner: nat, start: nat)
    ensures
        elements_edges(xs, owner, start).len() == elements_labels(xs).len(),
    decreases xs,
{
    if xs.len() > 0 {
        let k = start + elements_labels(xs.drop_last()).len();
        lemma_elements_edge_count(xs.drop_last(), owner, start);
        lemma_edge_count(xs.last(), k + 1);
    }
}

/// A prefix of the entries makes no more nodes than all of them, and its keys
/// are strings when all keys are.
proof fn lemma_entries_prefix(es: Seq<(Value, Value)>, j: int)
    requires
        0 <= j <= es.len(),
    ensures
        entries_labels(es.take(j)).len() <= entries_labels(es).len(),
        entries_ok(es) ==> entries_ok(es.take(j)),
    decreases es.len(),
{
    if j == es.len() {
        assert(es.take(j) =~= es);
    } else {
        lemma_entries_prefix(es.drop_last(), j);
        assert(es.drop_last().take(j) =~= es.take(j));
    }
}

proof fn lemma_elements_prefix(xs: Seq<Value>, j: int)
    requires
        0 <= j <= xs.len(),
    ensures
        elements_labels(xs.take(j)).len() <= elements_labels(xs).len(),
        elements_ok(xs) ==> elements_ok(xs.take(j)),
    decreases xs.len(),
{
    if j == xs.len() {
        assert(xs.take(j) =~= xs);
    } else {
        lemma_elements_prefix(xs.drop_last(), j);
        assert(xs.drop_last().take(j) =~= xs.take(j));
    }
}

/// Adds the edge from `parent`, if any, to `child`.
fn link(graph: &mut LabeledGraph, parent: Option<usize>, child: usize, label: &str)
    requires
        parent.is_some() ==> parent.unwrap() < node_labels(*old(graph)).len(),
        child < node_labels(*old(graph)).len(),
        edge_list(*old(graph)).len() < INDEX_LIMIT,
    ensures
        node_labels(*final(graph)) == node_labels(*old(graph)),
        edge_list(*final(graph)) == edge_list(*old(graph)) + parent_edge(
            parent,
            child as nat,
            label@,
        ),
{
    match parent {
        Some(p) => {
            add_edge(graph, p, child, String::from_str(label));
        },
        None => {
            assert(edge_list(*graph) =~= edge_list(*graph) + Seq::<EdgeRec>::empty());
        },
    }
}

/// Adds the nodes and edges of `value` to `graph`, below `parent` if there is
/// one, and returns the index of the node made for `value`. Fails exactly when
/// a mapping key in `value` is not a string.
pub fn build_graph(value: &Value, graph: &mut LabeledGraph, parent: Option<usize>) -> (r: Result<
    usize,
    ConvertError,
>)
    requires
        parent.is_some() ==> parent.unwrap() < node_labels(*old(graph)).len(),
        node_labels(*old(graph)).len() + tree_labels(*value).len() < INDEX_LIMIT,
        edge_list(*old(graph)).len() + tree_labels(*value).len() < INDEX_LIMIT,
    ensures
        r.is_ok() == keys_ok(*value),
        r.is_ok() ==> r.unwrap() == node_labels(*old(graph)).len(),
        r.is_ok() ==> node_labels(*final(graph)) == node_labels(*old(graph)) + tree_labels(*value),
        r.is_ok() ==> edge_list(*final(graph)) == edge_list(*old(graph)) + parent_edge(
            parent,
            node_labels(*old(graph)).len(),
            link_label(*value),
        ) + tree_edges(*value, node_labels(*old(graph)).len()),
    decreases *value,
{
    let ghost labels0 = node_labels(*graph);
    let ghost edges0 = edge_list(*graph);
    let ghost base = labels0.len();
    proof {
        reveal_strlit("contains");
        reveal_strlit("value");
        reveal_strlit("key");
        reveal_strlit("index");
        reveal_strlit("null");
        reveal_strlit("true");
        reveal_strlit("false");
        lemma_edge_count(*value, base);
    }
    match value {
        Value::Mapping(map) => {
            let node = add_node(graph, make_map_label(map.len()));
            link(graph, parent, node, "contains");
            let ghost head = edges0 + parent_edge(parent, base, "contains"@);
            let mut i: usize = 0;
            while i < map.len()
                invariant
                    i <= map.len(),
                    node == base,
                    base == labels0.len(),
                    base + tree_labels(*value).len() < INDEX_LIMIT,
                    edges0.len() + tree_labels(*value).len() < INDEX_LIMIT,
                    head.len() <= edges0.len() + 1,
                    *value == Value::Mapping(*map),
                    node_labels(*graph) == labels0 + seq![map_label(map.len() as nat)]
                        + entries_labels(map@.take(i as int)),
                    edge_list(*graph) == head + entries_edges(map@.take(i as int), base, base + 1),
                    entries_ok(map@.take(i as int)),
                decreases map.len() - i,
            {
                let ghost pre = map@.take(i as int);
                let ghost cur = map@.take(i + 1);
                proof {
                    assert(cur.drop_last() =~= pre);
                    assert(cur.last() == map@[i as int]);
                    lemma_entries_prefix(map@, i + 1);
                    lemma_entries_edge_count(pre, base, base + 1);
                    lemma_edge_count(map@[i as int].1, 0);
                    assert(entries_labels(cur).len() == entries_labels(pre).len() + 1
                        + tree_labels(map@[i as int].1).len());
                }
                let entry = &map[i];
                proof {
                    assert(decreases_to!(*value => *map));
                    assert(decreases_to!(*map => map[i as int]));
                    assert(decreases_to!(map[i as int] => map[i as int].1));
                }
                let key_str = match entry.0.as_str() {
                    Some(s) => s,
                    None => {
                        proof {
                            assert(!entries_ok(cur));
                        }
                        return Err(ConvertError::KeyNotString);
                    },
                };
                let key_idx = add_node(graph, String::from_str(key_str));
                add_edge(graph, node, key_idx, String::from_str("key"));
                match build_graph(&entry.1, graph, Some(key_idx)) {
                    Ok(_) => {},
                    Err(e) => {
                        proof {
                            assert(!entries_ok(cur));
                        }
                        return Err(e);
                    },
                }
                proof {
                    assert(node_labels(*graph) =~= labels0 + seq![map_label(map.len() as nat)]
                        + entries_labels(cur));
                    assert(edge_list(*graph) =~= head + entries_edges(cur, base, base + 1));
                }
                i = i + 1;
            }
            proof {
                assert(map@.take(map.len() as int) =~= map@);
                assert(node_labels(*graph) =~= labels0 + tree_labels(*value));
                assert(edge_list(*graph) =~= edges0 + parent_edge(parent, base, link_label(*value))
                    + tree_edges(*value, base));
            }
            Ok(node)
        },
        Value::Sequence(seq) => {
            let node = add_node(graph, make_sequence_label(seq.len()));
            link(graph, parent, node, "contains");
            let ghost head = edges0 + parent_edge(parent, base, "contains"@);
            let mut i: usize = 0;
            while i < seq.len()
                invariant
                    i <= seq.len(),
                    node == base,
                    base == labels0.len(),
                    base + tree_labels(*value).len() < INDEX_LIMIT,
                    edges0.len() + tree_labels(*value).len() < INDEX_LIMIT,
                    head.len() <= edges0.len() + 1,
                    *value == Value::Sequence(*seq),
                    node_labels(*graph) == labels0 + seq![sequence_label(seq.len() as nat)]
                        + elements_labels(seq@.take(i as int)),
                    edge_list(*graph) == head + elements_edges(seq@.take(i as int), base, base + 1),
                    elements_ok(seq@.take(i as int)),
                decreases seq.len() - i,
            {
                let ghost pre = seq@.take(i as int);
                let ghost cur = seq@.take(i + 1);
                proof {
                    assert(cur.drop_last() =~= pre);
                    assert(cur.last() == seq@[i as int]);
                    lemma_elements_prefix(seq@, i + 1);
                    lemma_elements_edge_count(pre, base, base + 1);
                    lemma_edge_count(seq@[i as int], 0);
                    assert(elements_labels(cur).len() == elements_labels(pre).len() + 1
                        + tree_labels(seq@[i as int]).len());
                }
                let idx_node = add_node(graph, make_index_label(i));
                add_edge(graph, node, idx_node, String::from_str("index"));
                proof {
                    assert(decreases_to!(*value => *seq));
                    assert(decreases_to!(*seq => seq[i as int]));
                }
                match build_graph(&seq[i], graph, Some(idx_node)) {
                    Ok(_) => {},
                    Err(e) => {
                        proof {
                            assert(!elements_ok(cur));
                        }
                        return Err(e);
                    },
                }
                proof {
                    assert(node_labels(*graph) =~= labels0 + seq![sequence_label(seq.len() as nat)]
                        + elements_labels(cur));
                    assert(edge_list(*graph) =~= head + elements_edges(cur, base, base + 1));
                }
                i = i + 1;
            }
            proof {
                assert(seq@.take(seq.len() as int) =~= seq@);
                assert(node_labels(*graph) =~= labels0 + tree_labels(*value));
                assert(edge_list(*graph) =~= edges0 + parent_edge(parent, base, link_label(*value))
                    + tree_edges(*value, base));
            }
            Ok(node)
        },
        Value::Tagged(tag, inner) => {
            let node = add_node(graph, make_tagged_label(tag.as_str()));
            link(graph, parent, node, "contains");
            let r = build_graph(inner, graph, Some(node));
            match r {
                Ok(_) => {
                    proof {
                        assert(node_labels(*graph) =~= labels0 + tree_labels(*value));
                        assert(edge_list(*graph) =~= edges0 + parent_edge(
                            parent,
                            base,
                            link_label(*value),
                        ) + tree_edges(*value, base));
                    }
                    Ok(node)
                },
                Err(e) => Err(e),
            }
        },
        _ => {
            let label = match value {
                Value::String(s) => make_quoted_label(s.as_str()),
                Value::Number(n) => n.clone(),
                Value::Bool(b) => String::from_str(if *b { "true" } else { "false" }),
                _ => String::from_str("null"),
            };
            let node = add_node(graph, label);
            link(graph, parent, node, "value");
            proof {
                assert(node_labels(*graph) =~= labels0 + tree_labels(*value));
                assert(edge_list(*graph) =~= edges0 + parent_edge(parent, base, link_label(*value))
                    + tree_edges(*value, base));
            }
            Ok(node)
        },
    }
}

/// The graph of `value`: its nodes have the labels `tree_labels(value)`, the
/// first being the node of `value` itself, and its edges are
/// `tree_edges(value, 0)`. Fails exactly when a mapping key is not a string.
pub fn value_graph(value: &Value) -> (r: Result<LabeledGraph, ConvertError>)
    requires
        tree_labels(*value).len() < INDEX_LIMIT,
    ensures
        r.is_ok() == keys_ok(*value),
        r.is_ok() ==> node_labels(r.unwrap()) == tree_labels(*value),
        r.is_ok() ==> edge_list(r.unwrap()) == tree_edges(*value, 0),
{
    let mut graph = new_graph();
    match build_graph(value, &mut graph, None) {
        Ok(_) => {
            proof {
                assert(node_labels(graph) =~= tree_labels(*value));
                assert(edge_list(graph) =~= tree_edges(*value, 0));
            }
            Ok(graph)
        },
        Err(e) => Err(e),
    }
}

/// The DOT text of the graph of `value`, with the edge labels shown or left
/// out. Fails exactly when a mapping key is not a string.
pub fn value_dot(value: &Value, edge_labels: bool) -> (r: Result<String, ConvertError>)
    requires
        tree_labels(*value).len() < INDEX_LIMIT,
    ensures
        r.is_ok() == keys_ok(*value),
        r.is_ok() ==> r.unwrap()@ == dot_text(tree_labels(*value), tree_edges(*value, 0), edge_labels),
{
    match value_graph(value) {
        Ok(graph) => Ok(render_dot(&graph, edge_labels)),
        Err(e) => Err(e),
    }
}

/// `n`, or `INDEX_LIMIT` where `n` is larger.
pub open spec fn capped(n: nat) -> nat {
    if n < INDEX_LIMIT {
        n
    } else {
        INDEX_LIMIT as nat
    }
}

fn add_capped(a: u64, b: u64) -> (r: u64)
    requires
        a <= INDEX_LIMIT,
        b <= INDEX_LIMIT,
    ensures
        r as nat == capped(a as nat + b as nat),
{
    if a + b < INDEX_LIMIT {
        a + b
    } else {
        INDEX_LIMIT
    }
}

/// The number of nodes in the graph of `value`, or `INDEX_LIMIT` where there
/// would be that many or more. The graph can be built when the count is below
/// `INDEX_LIMIT`.
pub fn node_count(value: &Value) -> (r: u64)
    ensures
        r as nat == capped(tree_labels(*value).len()),
    decreases *value,
{
    proof {
        lemma_edge_count(*value, 0);
    }
    match value {
        Value::Mapping(map) => {
            let mut total: u64 = 1;
            let mut i: usize = 0;
            while i < map.len()
                invariant
                    i <= map.len(),
                    *value == Value::Mapping(*map),
                    tree_labels(*value).len() >= 1,
                    total as nat == capped(1 + entries_labels(map@.take(i as int)).len()),
                decreases map.len() - i,
            {
                proof {
                    assert(map@.take(i + 1).drop_last() =~= map@.take(i as int));
                    assert(map@.take(i + 1).last() == map@[i as int]);
                    assert(decreases_to!(*value => *map));
                    assert(decreases_to!(*map => map[i as int]));
                    assert(decreases_to!(map[i as int] => map[i as int].1));
                }
                let c = node_count(&map[i].1);
                total = add_capped(total, 1);
                total = add_capped(total, c);
                i = i + 1;
            }
            proof {
                assert(map@.take(map.len() as int) =~= map@);
            }
            total
        },
        Value::Sequence(seq) => {
            let mut total: u64 = 1;
            let mut i: usize = 0;
            while i < seq.len()
                invariant
                    i <= seq.len(),
                    *value == Value::Sequence(*seq),
                    tree_labels(*value).len() >= 1,
                    total as nat == capped(1 + elements_labels(seq@.take(i as int)).len()),
                decreases seq.len() - i,
            {
                proof {
                    assert(seq@.take(i + 1).drop_last() =~= seq@.take(i as int));
                    assert(seq@.take(i + 1).last() == seq@[i as int]);
                    assert(decreases_to!(*value => *seq));
                    assert(decreases_to!(*seq => seq[i as int]));
                }
                let c = node_count(&seq[i]);
                total = add_capped(total, 1);
                total = add_capped(total, c);
                i = i + 1;
            }
            proof {
                assert(seq@.take(seq.len() as int) =~= seq@);
            }
            total
        },
        Value::Tagged(_, inner) => {
            let c = node_count(inner);
            add_capped(1, c)
        },
        _ => 1,
    }
}

} // verus!
