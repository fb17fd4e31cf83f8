use dataflow::circuit::DbspCircuit;
use dataflow::demands::{Demands, JsonDeserConfig};
use dataflow::graph::Graph;
use dataflow::json::IngestError;
use dataflow::layout::{ColumnType, RowLayout};
use dataflow::literal::{Constant, NullableConstant, RowLiteral, StreamCollection, StreamLayout};
use dataflow::order::{cmp_nconstant, cmp_row, Cmp};

fn lit(columns: Vec<NullableConstant>) -> RowLiteral {
    RowLiteral::new(columns)
}

fn row_eq(a: &RowLiteral, b: &RowLiteral) -> bool {
    matches!(cmp_row(a, b), Cmp::Eq)
}

#[test]
fn csv_join() {
    // Two CSV sources joined on a common key column: the output holds one
    // row per matched pair, and both key columns carry the join key.
    let mut graph = Graph::new();
    let transactions_layout = graph
        .add_layout(
            RowLayout::new()
                .with_column(ColumnType::I64, false)
                .with_column(ColumnType::String, false),
        )
        .unwrap();
    let demographics_layout = graph
        .add_layout(
            RowLayout::new()
                .with_column(ColumnType::I64, false)
                .with_column(ColumnType::String, true),
        )
        .unwrap();
    let transactions = graph.source(StreamLayout::SetOf(transactions_layout));
    let demographics = graph.source(StreamLayout::SetOf(demographics_layout));
    let joined = graph.join(transactions, demographics, 0, 0).unwrap();
    let sink = graph.sink(joined).unwrap();

    let mut demands = Demands::new();
    demands.add_csv_deserialize(transactions_layout, vec![(0, 0, None), (1, 1, None)]);
    demands.add_csv_deserialize(demographics_layout, vec![(0, 0, None), (1, 1, None)]);

    let mut circuit = DbspCircuit::new(graph, true, 1, demands).ok().unwrap();
    let t = circuit
        .append_csv_input(transactions, b"10,coffee\n11,tea\n10,scone\n")
        .unwrap();
    assert_eq!(t, 3);
    let d = circuit
        .append_csv_input(demographics, b"10,alice\n12,bob\n")
        .unwrap();
    assert_eq!(d, 2);
    circuit.step().unwrap();
    match circuit.consolidate_output(sink) {
        StreamCollection::SetRows(rows) => {
            // Only key 10 matches, twice on the left and once on the right.
            assert_eq!(rows.len(), 2);
            for (row, w) in &rows {
                assert_eq!(*w, 1);
                assert_eq!(row.len(), 4);
                let k = NullableConstant::NonNull(Constant::I64(10));
                assert!(matches!(cmp_nconstant(&row.columns[0], &k), Cmp::Eq));
                assert!(matches!(cmp_nconstant(&row.columns[2], &k), Cmp::Eq));
            }
        }
        _ => panic!("expected a set collection"),
    }
    circuit.kill();
}

fn json_circuit() -> (DbspCircuit, usize, usize) {
    let mut graph = Graph::new();
    let layout = graph
        .add_layout(
            RowLayout::new()
                .with_column(ColumnType::I64, false)
                .with_column(ColumnType::String, true),
        )
        .unwrap();
    let source = graph.source(StreamLayout::SetOf(layout));
    let sink = graph.sink(source).unwrap();
    let mut demands = Demands::new();
    demands.add_json_deserialize(
        layout,
        JsonDeserConfig {
            layout,
            mappings: vec![(0, "id".to_string()), (1, "name".to_string())],
        },
    );
    let circuit = DbspCircuit::new(graph, true, 1, demands).ok().unwrap();
    (circuit, source, sink)
}

fn keyed(v: i64, s: Option<&str>) -> RowLiteral {
    lit(vec![
        NullableConstant::NonNull(Constant::I64(v)),
        NullableConstant::Nullable(s.map(|x| Constant::String(x.to_string()))),
    ])
}

#[test]
fn json_streaming() {
    // A concatenated stream of values yields one row of weight one each.
    let (mut circuit, source, sink) = json_circuit();
    let n = circuit
        .append_json_input(
            source,
            br#"{"id": 3, "name": "c"} {"id": 1, "name": "a"} {"id": 2}"#,
        )
        .unwrap();
    assert_eq!(n, 3);
    circuit.step().unwrap();
    match circuit.consolidate_output(sink) {
        StreamCollection::SetRows(rows) => {
            assert_eq!(rows.len(), 3);
            assert!(row_eq(&rows[0].0, &keyed(1, Some("a"))));
            assert!(row_eq(&rows[1].0, &keyed(2, None)));
            assert!(row_eq(&rows[2].0, &keyed(3, Some("c"))));
            assert!(rows.iter().all(|e| e.1 == 1));
        }
        _ => panic!("expected a set collection"),
    }
    circuit.kill();
}

#[test]
fn json_streaming_malformed_tail() {
    // A malformed value surfaces a parse error; the values before it are
    // ingested and observed by the next step.
    let (mut circuit, source, sink) = json_circuit();
    let r = circuit.append_json_input(source, br#"{"id": 5} {"id": oops}"#);
    assert_eq!(r, Err(IngestError::Parse));
    circuit.step().unwrap();
    match circuit.consolidate_output(sink) {
        StreamCollection::SetRows(rows) => {
            assert_eq!(rows.len(), 1);
            assert!(row_eq(&rows[0].0, &keyed(5, None)));
        }
        _ => panic!("expected a set collection"),
    }
    circuit.kill();
}

#[test]
fn json_record() {
    let (mut circuit, source, sink) = json_circuit();
    circuit
        .append_json_record(source, br#"{"id": 42, "name": "x"}"#)
        .unwrap();
    assert_eq!(
        circuit.append_json_record(source, b"not json"),
        Err(IngestError::Parse)
    );
    circuit.step().unwrap();
    match circuit.consolidate_output(sink) {
        StreamCollection::SetRows(rows) => {
            assert_eq!(rows.len(), 1);
            assert!(row_eq(&rows[0].0, &keyed(42, Some("x"))));
        }
        _ => panic!("expected a set collection"),
    }
    circuit.kill();
}

#[test]
fn csv_temporal_and_float_fields() {
    // Date fields go through the chrono format; float fields come back as
    // exact IEEE 754 bit patterns.  Both must differ from the raw text.
    let mut graph = Graph::new();
    let layout = graph
        .add_layout(
            RowLayout::new()
                .with_column(ColumnType::Date, false)
                .with_column(ColumnType::F64, false)
                .with_column(ColumnType::I32, true)
                .with_column(ColumnType::Timestamp, false),
        )
        .unwrap();
    let source = graph.source(StreamLayout::SetOf(layout));
    let sink = graph.sink(source).unwrap();
    let mut demands = Demands::new();
    demands.add_csv_deserialize(
        layout,
        vec![
            (0, 0, Some("%F".to_string())),
            (1, 1, None),
            (2, 2, None),
            (3, 3, Some("%F %T".to_string())),
        ],
    );
    let mut circuit = DbspCircuit::new(graph, true, 1, demands).ok().unwrap();
    let n = circuit
        .append_csv_input(source, b"1970-01-02,1.5,,1970-01-01 00:00:01\n")
        .unwrap();
    assert_eq!(n, 1);
    circuit.step().unwrap();
    match circuit.consolidate_output(sink) {
        StreamCollection::SetRows(rows) => {
            assert_eq!(rows.len(), 1);
            let expected = lit(vec![
                NullableConstant::NonNull(Constant::Date(1)),
                NullableConstant::NonNull(Constant::F64Bits(1.5f64.to_bits())),
                NullableConstant::Nullable(None),
                NullableConstant::NonNull(Constant::Timestamp(1000)),
            ]);
            assert!(row_eq(&rows[0].0, &expected));
        }
        _ => panic!("expected a set collection"),
    }
    circuit.kill();
}

#[test]
fn csv_malformed_and_bad_values() {
    let mut graph = Graph::new();
    let layout = graph
        .add_layout(RowLayout::new().with_column(ColumnType::I32, false))
        .unwrap();
    let source = graph.source(StreamLayout::SetOf(layout));
    let _sink = graph.sink(source).unwrap();
    let mut demands = Demands::new();
    demands.add_csv_deserialize(layout, vec![(0, 0, None)]);
    let mut circuit = DbspCircuit::new(graph, true, 1, demands).ok().unwrap();
    // A field that is not an integer fails with a typed error.
    assert_eq!(
        circuit.append_csv_input(source, b"notanumber\n"),
        Err(IngestError::MissingField)
    );
    // An integer out of the column's range fails as a bad value.
    assert_eq!(
        circuit.append_csv_input(source, b"99999999999\n"),
        Err(IngestError::BadValue)
    );
    circuit.kill();
}

#[test]
fn map_sources_not_implemented_for_json() {
    let mut graph = Graph::new();
    let klay = graph
        .add_layout(RowLayout::new().with_column(ColumnType::I64, false))
        .unwrap();
    let vlay = graph
        .add_layout(RowLayout::new().with_column(ColumnType::I64, false))
        .unwrap();
    let source = graph.source(StreamLayout::MapOf(klay, vlay));
    let _sink = graph.sink(source).unwrap();
    let mut circuit = DbspCircuit::new(graph, true, 1, Demands::new()).ok().unwrap();
    assert_eq!(
        circuit.append_json_record(source, br#"{"k": 1}"#),
        Err(IngestError::NotImplemented)
    );
    assert_eq!(
        circuit.append_json_input(source, br#"{"k": 1}"#),
        Err(IngestError::NotImplemented)
    );
    assert_eq!(
        circuit.append_csv_input(source, b"1\n"),
        Err(IngestError::NotImplemented)
    );
    circuit.kill();
}
