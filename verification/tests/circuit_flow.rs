use dataflow::circuit::{CircuitError, DbspCircuit, JsonSetHandle};
use dataflow::demands::{Demands, JsonDeserConfig};
use dataflow::graph::{Graph, Node};
use dataflow::layout::LayoutCache;
use dataflow::layout::{ColumnType, RowLayout};
use dataflow::literal::{
    Constant, NullableConstant, RowLiteral, StreamCollection, StreamLayout,
};
use dataflow::order::{cmp_row, Cmp};

fn lit(columns: Vec<NullableConstant>) -> RowLiteral {
    RowLiteral::new(columns)
}

fn row_eq(a: &RowLiteral, b: &RowLiteral) -> bool {
    matches!(cmp_row(a, b), Cmp::Eq)
}

#[test]
fn constant_stream() {
    // A graph producing a single set tuple {(U32 1, +1)} with no sources.
    let mut graph = Graph::new();
    let layout = graph
        .add_layout(RowLayout::new().with_column(ColumnType::U32, false))
        .unwrap();
    let constant = graph.constant_stream(
        StreamLayout::SetOf(layout),
        StreamCollection::SetRows(vec![(
            lit(vec![NullableConstant::NonNull(Constant::U32(1))]),
            1,
        )]),
    );
    let sink = graph.sink(constant).unwrap();

    let mut circuit = DbspCircuit::new(graph, true, 1, Demands::new()).ok().unwrap();
    circuit.step().unwrap();
    let output = circuit.consolidate_output(sink);
    circuit.kill();

    let expected = lit(vec![NullableConstant::NonNull(Constant::U32(1))]);
    match output {
        StreamCollection::SetRows(rows) => {
            assert_eq!(rows.len(), 1);
            assert!(row_eq(&rows[0].0, &expected));
            assert_eq!(rows[0].1, 1);
        }
        _ => panic!("expected a set collection"),
    }
}

#[test]
fn append_unused_source() {
    // A source whose only downstream is an unrelated constant: appending to
    // it is a no-op and the constant's output is all that comes out.
    let mut graph = Graph::new();
    let unused_layout = graph
        .add_layout(
            RowLayout::new()
                .with_column(ColumnType::I32, false)
                .with_column(ColumnType::F64, false)
                .with_column(ColumnType::Bool, false)
                .with_column(ColumnType::String, false)
                .with_column(ColumnType::I32, true)
                .with_column(ColumnType::F64, true),
        )
        .unwrap();
    let out_layout = graph
        .add_layout(RowLayout::new().with_column(ColumnType::I32, false))
        .unwrap();
    let source = graph.source(StreamLayout::SetOf(unused_layout));
    let constant = graph.constant_stream(
        StreamLayout::SetOf(out_layout),
        StreamCollection::SetRows(vec![(
            lit(vec![NullableConstant::NonNull(Constant::I32(0))]),
            1,
        )]),
    );
    let sink = graph.sink(constant).unwrap();

    let mut circuit = DbspCircuit::new(graph, true, 1, Demands::new()).ok().unwrap();
    circuit.append_input(
        source,
        &StreamCollection::SetRows(vec![(
            lit(vec![
                NullableConstant::NonNull(Constant::I32(1)),
                NullableConstant::NonNull(Constant::F64Bits(1.0f64.to_bits())),
                NullableConstant::NonNull(Constant::Bool(true)),
                NullableConstant::NonNull(Constant::String("foobar".to_string())),
                NullableConstant::Nullable(Some(Constant::I32(1))),
                NullableConstant::Nullable(Some(Constant::F64Bits(1.0f64.to_bits()))),
            ]),
            1,
        )]),
    );
    circuit.step().unwrap();
    let output = circuit.consolidate_output(sink);
    circuit.kill();

    let expected = lit(vec![NullableConstant::NonNull(Constant::I32(0))]);
    match output {
        StreamCollection::SetRows(rows) => {
            assert_eq!(rows.len(), 1);
            assert!(row_eq(&rows[0].0, &expected));
            assert_eq!(rows[0].1, 1);
        }
        _ => panic!("expected a set collection"),
    }
}

fn identity_circuit() -> (DbspCircuit, usize, usize) {
    let mut graph = Graph::new();
    let layout = graph
        .add_layout(
            RowLayout::new()
                .with_column(ColumnType::I64, false)
                .with_column(ColumnType::String, true),
        )
        .unwrap();
    let source = graph.source(StreamLayout::SetOf(layout));
    let sink = graph.sink(source).unwrap();
    let circuit = DbspCircuit::new(graph, true, 1, Demands::new()).ok().unwrap();
    (circuit, source, sink)
}

fn keyed(v: i64, s: Option<&str>) -> RowLiteral {
    lit(vec![
        NullableConstant::NonNull(Constant::I64(v)),
        NullableConstant::Nullable(s.map(|x| Constant::String(x.to_string()))),
    ])
}

#[test]
fn weight_additivity() {
    let (mut circuit, source, sink) = identity_circuit();
    circuit.append_input(
        source,
        &StreamCollection::SetRows(vec![(keyed(7, Some("a")), 2), (keyed(7, Some("a")), 3)]),
    );
    circuit.step().unwrap();
    match circuit.consolidate_output(sink) {
        StreamCollection::SetRows(rows) => {
            assert_eq!(rows.len(), 1);
            assert!(row_eq(&rows[0].0, &keyed(7, Some("a"))));
            assert_eq!(rows[0].1, 5);
        }
        _ => panic!("expected a set collection"),
    }
    circuit.kill();
}

#[test]
fn weight_cancellation() {
    // (L, +1) and (L, -1) in one tick leave an empty consolidation.
    let (mut circuit, source, sink) = identity_circuit();
    circuit.append_input(
        source,
        &StreamCollection::SetRows(vec![(keyed(9, None), 1), (keyed(9, None), -1)]),
    );
    circuit.step().unwrap();
    match circuit.consolidate_output(sink) {
        StreamCollection::SetRows(rows) => assert_eq!(rows.len(), 0),
        _ => panic!("expected a set collection"),
    }
    circuit.kill();
}

#[test]
fn tick_isolation() {
    // Data appended before a step is observed by that step exactly once.
    let (mut circuit, source, sink) = identity_circuit();
    circuit.append_input(source, &StreamCollection::SetRows(vec![(keyed(1, None), 1)]));
    circuit.step().unwrap();
    match circuit.consolidate_output(sink) {
        StreamCollection::SetRows(rows) => assert_eq!(rows.len(), 1),
        _ => panic!("expected a set collection"),
    }
    circuit.step().unwrap();
    match circuit.consolidate_output(sink) {
        StreamCollection::SetRows(rows) => assert_eq!(rows.len(), 0),
        _ => panic!("expected a set collection"),
    }
    circuit.kill();
}

#[test]
fn unreachable_sink_empty() {
    // A sink fed only by an empty constant is pruned; consolidating it
    // yields the empty collection of the declared shape.
    let mut graph = Graph::new();
    let layout = graph
        .add_layout(RowLayout::new().with_column(ColumnType::U32, false))
        .unwrap();
    let constant = graph.constant_stream(
        StreamLayout::SetOf(layout),
        StreamCollection::SetRows(vec![]),
    );
    let sink = graph.sink(constant).unwrap();
    let mut circuit = DbspCircuit::new(graph, true, 1, Demands::new()).ok().unwrap();
    circuit.step().unwrap();
    match circuit.consolidate_output(sink) {
        StreamCollection::SetRows(rows) => assert_eq!(rows.len(), 0),
        _ => panic!("expected a set collection"),
    }
    circuit.kill();
}

#[test]
fn key_ordering() {
    // Consolidated keys come out in strictly ascending canonical order.
    let (mut circuit, source, sink) = identity_circuit();
    circuit.append_input(
        source,
        &StreamCollection::SetRows(vec![
            (keyed(30, Some("zebra")), 1),
            (keyed(-5, None), 2),
            (keyed(30, Some("apple")), 1),
            (keyed(7, Some("apple")), 4),
        ]),
    );
    circuit.step().unwrap();
    match circuit.consolidate_output(sink) {
        StreamCollection::SetRows(rows) => {
            assert_eq!(rows.len(), 4);
            for w in 0..rows.len() - 1 {
                assert!(matches!(cmp_row(&rows[w].0, &rows[w + 1].0), Cmp::Lt));
            }
            assert!(row_eq(&rows[0].0, &keyed(-5, None)));
            assert!(row_eq(&rows[3].0, &keyed(30, Some("zebra"))));
        }
        _ => panic!("expected a set collection"),
    }
    circuit.kill();
}

#[test]
fn map_identity_and_ordering() {
    // A map-typed source passes through to its sink and consolidates in
    // (key, value) order.
    let mut graph = Graph::new();
    let klay = graph
        .add_layout(RowLayout::new().with_column(ColumnType::I64, false))
        .unwrap();
    let vlay = graph
        .add_layout(RowLayout::new().with_column(ColumnType::String, false))
        .unwrap();
    let source = graph.source(StreamLayout::MapOf(klay, vlay));
    let sink = graph.sink(source).unwrap();
    let mut circuit = DbspCircuit::new(graph, true, 1, Demands::new()).ok().unwrap();

    let key = |v: i64| lit(vec![NullableConstant::NonNull(Constant::I64(v))]);
    let val = |s: &str| lit(vec![NullableConstant::NonNull(Constant::String(s.to_string()))]);
    circuit.append_input(
        source,
        &StreamCollection::MapRows(vec![
            (key(2), val("b"), 1),
            (key(1), val("z"), 3),
            (key(2), val("a"), 2),
            (key(2), val("b"), 4),
        ]),
    );
    circuit.step().unwrap();
    match circuit.consolidate_output(sink) {
        StreamCollection::MapRows(rows) => {
            assert_eq!(rows.len(), 3);
            assert!(row_eq(&rows[0].0, &key(1)) && row_eq(&rows[0].1, &val("z")));
            assert_eq!(rows[0].2, 3);
            assert!(row_eq(&rows[1].0, &key(2)) && row_eq(&rows[1].1, &val("a")));
            assert_eq!(rows[1].2, 2);
            assert!(row_eq(&rows[2].0, &key(2)) && row_eq(&rows[2].1, &val("b")));
            assert_eq!(rows[2].2, 5);
        }
        _ => panic!("expected a map collection"),
    }
    circuit.kill();
}

#[test]
fn json_set_handles_union() {
    // Two producer handles pushing disjoint keys, absorbed and stepped
    // once, consolidate to the union with the pushed weights.
    let mut graph = Graph::new();
    let layout = graph
        .add_layout(
            RowLayout::new()
                .with_column(ColumnType::I64, false)
                .with_column(ColumnType::String, true),
        )
        .unwrap();
    let source = graph.source(StreamLayout::SetOf(layout));
    let sink = graph.sink(source).unwrap();
    let mut demands = Demands::new();
    demands.add_json_deserialize(
        layout,
        JsonDeserConfig {
            layout,
            mappings: vec![(0, "id".to_string()), (1, "name".to_string())],
        },
    );
    let mut circuit = DbspCircuit::new(graph, true, 1, demands).ok().unwrap();

    let mut h1: JsonSetHandle = circuit.json_input_set(source).unwrap();
    let mut h2: JsonSetHandle = circuit.json_input_set(source).unwrap();
    h1.push(br#"{"id": 1, "name": "a"}"#, 1).unwrap();
    h2.push(br#"{"id": 2, "name": "b"}"#, 1).unwrap();
    circuit.absorb_json_set_handle(h1);
    circuit.absorb_json_set_handle(h2);
    circuit.step().unwrap();
    match circuit.consolidate_output(sink) {
        StreamCollection::SetRows(rows) => {
            assert_eq!(rows.len(), 2);
            assert!(row_eq(&rows[0].0, &keyed(1, Some("a"))));
            assert!(row_eq(&rows[1].0, &keyed(2, Some("b"))));
            assert_eq!(rows[0].1, 1);
            assert_eq!(rows[1].1, 1);
        }
        _ => panic!("expected a set collection"),
    }
    circuit.kill();
}

#[test]
fn invalid_graph_is_refused() {
    // A sink whose input points past the end of the node list fails
    // validation, so no circuit is built.
    let graph = dataflow::graph::Graph {
        cache: LayoutCache::new(),
        nodes: vec![Node::Sink { input: 5, layout: StreamLayout::SetOf(0) }],
    };
    assert!(matches!(
        DbspCircuit::new(graph, true, 1, Demands::new()),
        Err(CircuitError::InvalidGraph)
    ));
}

#[test]
fn step_reports_weight_overflow() {
    // A join whose matched weights multiply out of the representable
    // range fails the step and leaves the circuit untouched.
    let mut graph = Graph::new();
    let layout = graph
        .add_layout(RowLayout::new().with_column(ColumnType::I64, false))
        .unwrap();
    let left = graph.source(StreamLayout::SetOf(layout));
    let right = graph.source(StreamLayout::SetOf(layout));
    let joined = graph.join(left, right, 0, 0).unwrap();
    let sink = graph.sink(joined).unwrap();
    let mut circuit = DbspCircuit::new(graph, true, 1, Demands::new()).ok().unwrap();
    let key = || lit(vec![NullableConstant::NonNull(Constant::I64(1))]);
    circuit.append_input(
        left,
        &StreamCollection::SetRows(vec![(key(), i64::MAX)]),
    );
    circuit.append_input(
        right,
        &StreamCollection::SetRows(vec![(key(), 3)]),
    );
    assert!(circuit.step().is_err());
    circuit.kill();
}

#[test]
fn json_input_set_absent_for_unused_source() {
    // A handle comes back exactly when the endpoint survived; a source no
    // sink observes has none.
    let mut graph = Graph::new();
    let layout = graph
        .add_layout(RowLayout::new().with_column(ColumnType::I64, false))
        .unwrap();
    let unused = graph.source(StreamLayout::SetOf(layout));
    let live = graph.source(StreamLayout::SetOf(layout));
    let _sink = graph.sink(live).unwrap();
    let mut demands = Demands::new();
    demands.add_json_deserialize(
        layout,
        JsonDeserConfig { layout, mappings: vec![(0, "id".to_string())] },
    );
    let circuit = DbspCircuit::new(graph, true, 1, demands).ok().unwrap();
    assert!(circuit.json_input_set(unused).is_none());
    assert!(circuit.json_input_set(live).is_some());
    circuit.kill();
}

#[test]
fn ingestion_on_unused_source_is_a_no_op() {
    // Even malformed text is a quiet no-op once the endpoint is gone.
    let mut graph = Graph::new();
    let layout = graph
        .add_layout(RowLayout::new().with_column(ColumnType::I64, false))
        .unwrap();
    let unused = graph.source(StreamLayout::SetOf(layout));
    let constant = graph.constant_stream(
        StreamLayout::SetOf(layout),
        StreamCollection::SetRows(vec![(
            lit(vec![NullableConstant::NonNull(Constant::I64(9))]),
            1,
        )]),
    );
    let _sink = graph.sink(constant).unwrap();
    let mut demands = Demands::new();
    demands.add_json_deserialize(
        layout,
        JsonDeserConfig { layout, mappings: vec![(0, "id".to_string())] },
    );
    demands.add_csv_deserialize(layout, vec![(0, 0, None)]);
    let mut circuit = DbspCircuit::new(graph, true, 1, demands).ok().unwrap();
    assert_eq!(circuit.append_json_record(unused, b"not json"), Ok(()));
    assert_eq!(circuit.append_json_input(unused, b"not json"), Ok(0));
    assert_eq!(circuit.append_csv_input(unused, b"1\n"), Ok(0));
    circuit.kill();
}

#[test]
fn clear_input_discards_pending() {
    // Clearing a source discards everything buffered and not yet stepped,
    // wherever it came from.
    let (mut circuit, source, sink) = identity_circuit();
    circuit.append_input(source, &StreamCollection::SetRows(vec![(keyed(1, None), 1)]));
    circuit.clear_input(source);
    circuit.step().unwrap();
    match circuit.consolidate_output(sink) {
        StreamCollection::SetRows(rows) => assert_eq!(rows.len(), 0),
        _ => panic!("expected a set collection"),
    }
    circuit.kill();
}
