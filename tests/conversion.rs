use petgraph::graph::NodeIndex;
use yaml_graph::convert::{build_graph, node_count, value_dot, value_graph, ConvertError};
use yaml_graph::graph::LabeledGraph;
use yaml_graph::text::decimal_string;
use yaml_graph::value::Value;

fn s(t: &str) -> Value {
    Value::String(t.to_string())
}

fn num(t: &str) -> Value {
    Value::Number(t.to_string())
}

fn labels(g: &LabeledGraph) -> Vec<String> {
    g.node_indices().map(|i| g[i].clone()).collect()
}

fn edges(g: &LabeledGraph) -> Vec<(usize, usize, String)> {
    g.raw_edges()
        .iter()
        .map(|e| (e.source().index(), e.target().index(), e.weight.clone()))
        .collect()
}

fn example_document() -> Value {
    Value::Mapping(vec![
        (s("a"), num("1")),
        (s("b"), Value::Sequence(vec![Value::Bool(true), Value::Null])),
    ])
}

fn e(a: usize, b: usize, l: &str) -> (usize, usize, String) {
    (a, b, l.to_string())
}

#[test]
fn mapping_with_sequence_example() {
    let g = value_graph(&example_document()).unwrap();
    assert_eq!(g.node_count(), 9);
    assert_eq!(g.edge_count(), 8);
    assert_eq!(
        labels(&g),
        vec!["Map(2)", "a", "1", "b", "Sequence(2)", "[0]", "true", "[1]", "null"]
    );
    assert_eq!(
        edges(&g),
        vec![
            e(0, 1, "key"),
            e(1, 2, "value"),
            e(0, 3, "key"),
            e(3, 4, "contains"),
            e(4, 5, "index"),
            e(5, 6, "value"),
            e(4, 7, "index"),
            e(7, 8, "value"),
        ]
    );
}

#[test]
fn bare_string_document() {
    let g = value_graph(&s("hello")).unwrap();
    assert_eq!(labels(&g), vec!["\"hello\""]);
    assert_eq!(g.edge_count(), 0);
}

#[test]
fn mapping_key_not_string() {
    let key = Value::Mapping(vec![(s("k"), num("1"))]);
    let v = Value::Mapping(vec![(key, s("v"))]);
    assert_eq!(value_graph(&v).err(), Some(ConvertError::KeyNotString));
    assert_eq!(value_dot(&v, false), Err(ConvertError::KeyNotString));
}

#[test]
fn nested_bad_key_fails_whole_conversion() {
    let inner = Value::Mapping(vec![(num("3"), s("x"))]);
    let v = Value::Sequence(vec![s("ok"), inner]);
    assert_eq!(value_graph(&v).err(), Some(ConvertError::KeyNotString));
    let v2 = Value::Tagged("!t".to_string(), Box::new(Value::Mapping(vec![(Value::Null, s("x"))])));
    assert_eq!(value_graph(&v2).err(), Some(ConvertError::KeyNotString));
}

#[test]
fn tagged_point_example() {
    let v = Value::Tagged(
        "!Point".to_string(),
        Box::new(Value::Mapping(vec![(s("x"), num("1")), (s("y"), num("2"))])),
    );
    let g = value_graph(&v).unwrap();
    assert_eq!(labels(&g), vec!["Tagged(!Point)", "Map(2)", "x", "1", "y", "2"]);
    assert_eq!(
        edges(&g),
        vec![e(0, 1, "contains"), e(1, 2, "key"), e(2, 3, "value"), e(1, 4, "key"), e(4, 5, "value")]
    );
}

#[test]
fn scalars_make_one_node() {
    let cases = vec![
        (s("x y"), "\"x y\""),
        (s(""), "\"\""),
        (num("-3.5"), "-3.5"),
        (num("42"), "42"),
        (Value::Bool(true), "true"),
        (Value::Bool(false), "false"),
        (Value::Null, "null"),
    ];
    for (v, want) in cases {
        let g = value_graph(&v).unwrap();
        assert_eq!(labels(&g), vec![want.to_string()]);
        assert_eq!(g.edge_count(), 0);
        assert_eq!(node_count(&v), 1);
    }
}

#[test]
fn scalar_below_parent_gets_value_edge() {
    let mut g = LabeledGraph::new();
    let p = g.add_node("parent".to_string());
    let r = build_graph(&Value::Bool(false), &mut g, Some(p.index())).unwrap();
    assert_eq!(r, 1);
    assert_eq!(labels(&g), vec!["parent", "false"]);
    assert_eq!(edges(&g), vec![e(0, 1, "value")]);
}

#[test]
fn container_below_parent_gets_contains_edge() {
    let mut g = LabeledGraph::new();
    g.add_node("root".to_string());
    g.add_node("other".to_string());
    let v = Value::Sequence(vec![num("7")]);
    let r = build_graph(&v, &mut g, Some(1)).unwrap();
    assert_eq!(r, 2);
    assert_eq!(labels(&g), vec!["root", "other", "Sequence(1)", "[0]", "7"]);
    assert_eq!(edges(&g), vec![e(1, 2, "contains"), e(2, 3, "index"), e(3, 4, "value")]);
}

#[test]
fn mapping_node_count() {
    let v = example_document();
    // one mapping node, two key nodes, one node for `1`, five for the sequence
    assert_eq!(node_count(&v), 1 + 2 + 1 + 5);
    assert_eq!(value_graph(&v).unwrap().node_count(), 9);
    let empty = Value::Mapping(vec![]);
    assert_eq!(node_count(&empty), 1);
    assert_eq!(labels(&value_graph(&empty).unwrap()), vec!["Map(0)"]);
}

#[test]
fn sequence_node_count() {
    let v = Value::Sequence(vec![Value::Null, Value::Sequence(vec![num("1"), num("2")]), s("z")]);
    // one sequence node, three index nodes, then 1 + 5 + 1 nodes of the elements
    assert_eq!(node_count(&v), 1 + 3 + 1 + 5 + 1);
    let g = value_graph(&v).unwrap();
    assert_eq!(g.node_count(), 11);
    assert_eq!(g.edge_count(), 10);
    let empty = Value::Sequence(vec![]);
    assert_eq!(labels(&value_graph(&empty).unwrap()), vec!["Sequence(0)"]);
}

#[test]
fn converting_twice_gives_same_graph() {
    let v = example_document();
    let g1 = value_graph(&v).unwrap();
    let g2 = value_graph(&v).unwrap();
    assert_eq!(labels(&g1), labels(&g2));
    assert_eq!(edges(&g1), edges(&g2));
    assert_eq!(value_dot(&v, true), value_dot(&v, true));
}

#[test]
fn repeated_values_get_own_nodes() {
    let v = Value::Sequence(vec![s("same"), s("same")]);
    let g = value_graph(&v).unwrap();
    assert_eq!(labels(&g), vec!["Sequence(2)", "[0]", "\"same\"", "[1]", "\"same\""]);
}

#[test]
fn tagged_string_key_is_accepted() {
    let key = Value::Tagged("!k".to_string(), Box::new(s("name")));
    let v = Value::Mapping(vec![(key, num("5"))]);
    let g = value_graph(&v).unwrap();
    assert_eq!(labels(&g), vec!["Map(1)", "name", "5"]);
}

#[test]
fn multi_digit_counts_and_indices() {
    let items: Vec<Value> = (0..12).map(|_| Value::Null).collect();
    let g = value_graph(&Value::Sequence(items)).unwrap();
    let ls = labels(&g);
    assert_eq!(ls[0], "Sequence(12)");
    assert_eq!(ls[21], "[10]");
    assert_eq!(ls[23], "[11]");
    assert_eq!(g.node_count(), 25);
    assert_eq!(decimal_string(0), "0");
    assert_eq!(decimal_string(907), "907");
    assert_eq!(decimal_string(18446744073709551615), "18446744073709551615");
}

#[test]
fn root_is_first_node_and_every_other_has_one_parent() {
    let g = value_graph(&example_document()).unwrap();
    assert_eq!(g[NodeIndex::new(0)], "Map(2)");
    assert_eq!(g.neighbors_directed(NodeIndex::new(0), petgraph::Direction::Incoming).count(), 0);
    for i in 1..g.node_count() {
        let n = g.neighbors_directed(NodeIndex::new(i), petgraph::Direction::Incoming).count();
        assert_eq!(n, 1);
    }
}

#[test]
fn dot_text_without_edge_labels() {
    let v = Value::Mapping(vec![(s("a"), num("1"))]);
    let text = value_dot(&v, false).unwrap();
    let want = "digraph {\n    0 [ label = \"\\\"Map(1)\\\"\" ]\n    1 [ label = \"\\\"a\\\"\" ]\n    2 [ label = \"\\\"1\\\"\" ]\n    0 -> 1 [ ]\n    1 -> 2 [ ]\n}\n";
    assert_eq!(text, want);
}

#[test]
fn dot_text_with_edge_labels() {
    let v = Value::Mapping(vec![(s("a"), num("1"))]);
    let text = value_dot(&v, true).unwrap();
    assert!(text.contains("    0 -> 1 [ label = \"\\\"key\\\"\" ]\n"));
    assert!(text.contains("    1 -> 2 [ label = \"\\\"value\\\"\" ]\n"));
}

#[test]
fn dot_text_of_quoted_string() {
    let text = value_dot(&s("hello"), false).unwrap();
    assert_eq!(text, "digraph {\n    0 [ label = \"\\\"\\\\\\\"hello\\\\\\\"\\\"\" ]\n}\n");
}
