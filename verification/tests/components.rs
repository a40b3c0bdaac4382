use rustchristmasdb::aggregator::add_float64_bits;
use rustchristmasdb::datastore::{main_scenario_name, scenario_field_name, Store, CHUNK_DEFAULT_SIZE};
use rustchristmasdb::dictionary_provider::{Dictionary, DictionaryProvider};
use rustchristmasdb::point_dictionary::PointDictionary;
use rustchristmasdb::query::Query;
use rustchristmasdb::query_engine::QueryEngine;
use rustchristmasdb::row_iterable_provider::RowIterableProviderFactory;
use rustchristmasdb::row_mapping::RowMapping;
use rustchristmasdb::types::{BatchColumn, DataType, Field, RecordBatch, Schema, StoreError};

fn strings(values: Vec<&str>) -> Vec<String> {
    values.into_iter().map(|s| s.to_string()).collect()
}

fn float_bits(values: Vec<f64>) -> Vec<u64> {
    values.into_iter().map(|v| v.to_bits()).collect()
}

fn schema() -> Schema {
    Schema::new(vec![
        Field { name: "id".to_string(), data_type: DataType::Int64 },
        Field { name: "product".to_string(), data_type: DataType::Utf8 },
        Field { name: "category".to_string(), data_type: DataType::Utf8 },
        Field { name: "price".to_string(), data_type: DataType::Float64 },
        Field { name: "quantity".to_string(), data_type: DataType::UInt32 },
    ])
}

fn main_batch() -> RecordBatch {
    RecordBatch::new(vec![
        BatchColumn::Int64(vec![0, 1, 2]),
        BatchColumn::Utf8(strings(vec!["syrup", "tofu", "mozzarella"])),
        BatchColumn::Utf8(strings(vec!["condiment", "milk", "milk"])),
        BatchColumn::Float64Bits(float_bits(vec![2f64, 8f64, 4f64])),
        BatchColumn::UInt32(vec![5, 3, 4]),
    ])
}

fn s1_batch() -> RecordBatch {
    RecordBatch::new(vec![
        BatchColumn::Int64(vec![0, 1]),
        BatchColumn::Utf8(strings(vec!["syrup", "tofu"])),
        BatchColumn::Utf8(strings(vec!["condiment", "milk"])),
        BatchColumn::Float64Bits(float_bits(vec![3f64, 6f64])),
        BatchColumn::UInt32(vec![5, 3]),
    ])
}

fn loaded_store() -> Store {
    let mut store = Store::new(schema(), vec![0], CHUNK_DEFAULT_SIZE as u32);
    store.load(main_scenario_name(), &main_batch()).unwrap();
    store.load("s1", &s1_batch()).unwrap();
    store
}

#[test]
fn dictionary_round_trip() {
    let mut d = Dictionary::new();
    assert_eq!(d.map("syrup".to_string()), 0);
    assert_eq!(d.map("tofu".to_string()), 1);
    assert_eq!(d.map("syrup".to_string()), 0);
    assert_eq!(d.size(), 2);
    for code in 0..2u32 {
        let value = d.read(code).unwrap().clone();
        assert_eq!(d.get_position(value.as_str()), Some(code));
    }
    assert_eq!(d.read(2), None);
    assert_eq!(d.get_position("milk"), None);
}

#[test]
fn dictionary_provider_creates_on_first_touch() {
    let mut p = DictionaryProvider::new();
    assert!(p.get("product").is_none());
    let d = p.get_or_create("product");
    assert_eq!(d.size(), 0);
    assert!(p.get("product").is_some());
}

#[test]
fn point_dictionary_round_trip() {
    let mut pd = PointDictionary::new(2);
    assert_eq!(pd.len(), 2);
    let slot0 = pd.map(&vec![3u32, 4u32]).unwrap();
    let slot1 = pd.map(&vec![3u32, 5u32]).unwrap();
    let again = pd.map(&vec![3u32, 4u32]).unwrap();
    assert_eq!(slot0, 0);
    assert_eq!(slot1, 1);
    assert_eq!(again, 0);
    assert_eq!(pd.size(), 2);
    for slot in 0..2u32 {
        let point = pd.read(slot).unwrap().clone();
        assert_eq!(pd.get_position(&point), Some(slot));
    }
    assert_eq!(pd.map(&vec![1u32]), Err(StoreError::UsageError));
}

#[test]
fn row_mapping_variants() {
    let identity = RowMapping::new_identity();
    assert_eq!(identity.get(7), Some(7));

    let mut sparse = RowMapping::new_sparse();
    assert_eq!(sparse.get(0), None);
    sparse.map(0, 0).unwrap();
    sparse.map(2, 1).unwrap();
    assert_eq!(sparse.get(0), Some(0));
    assert_eq!(sparse.get(1), None);
    assert_eq!(sparse.get(2), Some(1));
    assert_eq!(sparse.map(2, 5), Err(StoreError::KeyError));
}

#[test]
fn scenario_reader_resolves_overlay_and_base() {
    let store = loaded_store();
    // Overlay cell: s1 overrides the price of row 0 and row 1.
    let reader = store.get_scenario_chunk_array("s1", "price");
    assert_eq!(reader.read(0), (3f64).to_bits());
    assert_eq!(reader.read(1), (6f64).to_bits());
    // Row 2 has no overlay cell: fall through to the base.
    assert_eq!(reader.read(2), (4f64).to_bits());
    // The base reader sees only base cells.
    let base = store.get_scenario_chunk_array(main_scenario_name(), "price");
    assert_eq!(base.read(0), (2f64).to_bits());
}

#[test]
fn overlay_identical_to_base_adds_nothing() {
    let mut store = Store::new(schema(), vec![0], CHUNK_DEFAULT_SIZE as u32);
    store.load(main_scenario_name(), &main_batch()).unwrap();
    store.load("same", &main_batch()).unwrap();
    // No overlay columns were added: every read falls through to base.
    let reader = store.get_scenario_chunk_array("same", "price");
    assert_eq!(reader.read(0), (2f64).to_bits());
    assert_eq!(reader.read(1), (8f64).to_bits());
    assert_eq!(reader.read(2), (4f64).to_bits());
    // And a query against that scenario returns the base results.
    let mut query = Query::new();
    query.add_coordinates(scenario_field_name(), Vec::from(["same"]));
    query.add_aggregated_measure("price", "sum");
    let qe = QueryEngine::new(&store);
    let result = qe.execute(&query).unwrap();
    assert!(result.assert_aggregate(Vec::from(["same"]), (14f64).to_bits()));
}

#[test]
fn wildcard_scenario_row_count_matches_scenario_count() {
    let store = loaded_store();
    let mut query = Query::new();
    query.add_wildcard_coordinate(scenario_field_name());
    query.add_aggregated_measure("price", "sum");
    let qe = QueryEngine::new(&store);
    let result = qe.execute(&query).unwrap();
    assert_eq!(result.size(), 2);
}

#[test]
fn unsigned_sum_aggregates_quantities() {
    let store = loaded_store();
    let mut query = Query::new();
    query.add_wildcard_coordinate("product");
    query.add_aggregated_measure("quantity", "sum");
    let qe = QueryEngine::new(&store);
    let result = qe.execute(&query).unwrap();
    assert_eq!(result.aggregate_names[0], "sum(quantity)");
    assert!(result.assert_aggregate(Vec::from(["syrup"]), 5u64));
    assert!(result.assert_aggregate(Vec::from(["tofu"]), 3u64));
    assert!(result.assert_aggregate(Vec::from(["mozzarella"]), 4u64));
}

#[test]
fn assert_aggregate_rejects_unknown_point_and_wrong_value() {
    let store = loaded_store();
    let mut query = Query::new();
    query.add_wildcard_coordinate("product");
    query.add_aggregated_measure("price", "sum");
    let qe = QueryEngine::new(&store);
    let result = qe.execute(&query).unwrap();
    assert!(!result.assert_aggregate(Vec::from(["milk"]), (2f64).to_bits()));
    assert!(!result.assert_aggregate(Vec::from(["syrup"]), (3f64).to_bits()));
}

#[test]
fn load_state_errors() {
    let mut store = Store::new(schema(), vec![0], CHUNK_DEFAULT_SIZE as u32);
    // An overlay before the base is rejected.
    assert_eq!(store.load("s1", &s1_batch()), Err(StoreError::StateError));
    store.load(main_scenario_name(), &main_batch()).unwrap();
    // A second base load is rejected.
    assert_eq!(store.load(main_scenario_name(), &main_batch()), Err(StoreError::StateError));
    store.load("s1", &s1_batch()).unwrap();
    // Re-loading a known scenario name is rejected.
    assert_eq!(store.load("s1", &s1_batch()), Err(StoreError::StateError));
}

#[test]
fn load_schema_and_key_errors() {
    let mut store = Store::new(schema(), vec![0], CHUNK_DEFAULT_SIZE as u32);
    // A batch that does not fit the schema is rejected.
    let short = RecordBatch::new(vec![BatchColumn::Int64(vec![0])]);
    assert_eq!(store.load(main_scenario_name(), &short), Err(StoreError::SchemaError));
    // A duplicate primary key in the base is rejected.
    let dup = RecordBatch::new(vec![
        BatchColumn::Int64(vec![0, 0, 2]),
        BatchColumn::Utf8(strings(vec!["syrup", "tofu", "mozzarella"])),
        BatchColumn::Utf8(strings(vec!["condiment", "milk", "milk"])),
        BatchColumn::Float64Bits(float_bits(vec![2f64, 8f64, 4f64])),
        BatchColumn::UInt32(vec![5, 3, 4]),
    ]);
    assert_eq!(store.load(main_scenario_name(), &dup), Err(StoreError::KeyError));
    store.load(main_scenario_name(), &main_batch()).unwrap();
    // An overlay key unknown to the base is rejected.
    let unknown = RecordBatch::new(vec![
        BatchColumn::Int64(vec![9]),
        BatchColumn::Utf8(strings(vec!["syrup"])),
        BatchColumn::Utf8(strings(vec!["condiment"])),
        BatchColumn::Float64Bits(float_bits(vec![3f64])),
        BatchColumn::UInt32(vec![5]),
    ]);
    assert_eq!(store.load("s1", &unknown), Err(StoreError::KeyError));
}

#[test]
fn execute_rejects_bad_queries() {
    let store = loaded_store();
    let qe = QueryEngine::new(&store);
    // A coordinate on a field that is not dictionary-encoded.
    let mut q1 = Query::new();
    q1.add_wildcard_coordinate("price");
    q1.add_aggregated_measure("price", "sum");
    assert!(matches!(qe.execute(&q1), Err(StoreError::SchemaError)));
    // A measure on a string field.
    let mut q2 = Query::new();
    q2.add_wildcard_coordinate("product");
    q2.add_aggregated_measure("category", "sum");
    assert!(matches!(qe.execute(&q2), Err(StoreError::SchemaError)));
}

#[test]
fn scenario_predicate_is_a_usage_error() {
    let store = loaded_store();
    let accepted = vec![("scenario".to_string(), vec![0u32])];
    assert!(matches!(
        RowIterableProviderFactory::create(&store, accepted),
        Err(StoreError::UsageError)
    ));
}

#[test]
fn float_addition_goes_through_the_kernel() {
    assert_eq!(add_float64_bits((2f64).to_bits(), (3f64).to_bits()), (5f64).to_bits());
    assert_eq!(add_float64_bits((0.1f64).to_bits(), (0.2f64).to_bits()), (0.1f64 + 0.2f64).to_bits());
    assert_eq!(add_float64_bits(0u64, (7.5f64).to_bits()), (7.5f64).to_bits());
}

#[test]
fn unknown_coordinate_values_are_dropped() {
    let store = loaded_store();
    let mut query = Query::new();
    query.add_coordinates("product", Vec::from(["syrup", "unheard-of"]));
    query.add_aggregated_measure("price", "sum");
    let qe = QueryEngine::new(&store);
    let result = qe.execute(&query).unwrap();
    assert!(result.assert_aggregate(Vec::from(["syrup"]), (2f64).to_bits()));
    assert!(!result.assert_aggregate(Vec::from(["unheard-of"]), (0f64).to_bits()));
}
