use rustchristmasdb::datastore::{main_scenario_name, scenario_field_name, Store, CHUNK_DEFAULT_SIZE};
use rustchristmasdb::query::Query;
use rustchristmasdb::query_engine::QueryEngine;
use rustchristmasdb::types::{BatchColumn, DataType, Field, RecordBatch, Schema};

#[test]
fn test_wildcard_without_scenario_in_the_query() {
    let store = build_and_load();

    let mut query = Query::new();
    query.add_wildcard_coordinate("product");
    query.add_aggregated_measure("price", "sum");

    let qe = QueryEngine::new(&store);
    let result = qe.execute(&query).unwrap();
    assert!(result.assert_aggregate(Vec::from(["syrup"]), (2f64).to_bits()));
    assert!(result.assert_aggregate(Vec::from(["tofu"]), (8f64).to_bits()));
    assert!(result.assert_aggregate(Vec::from(["mozzarella"]), (4f64).to_bits()));
}

#[test]
fn test_wildcard_scenario_only() {
    let store = build_and_load();

    let mut query = Query::new();
    query.add_wildcard_coordinate(scenario_field_name());
    query.add_aggregated_measure("price", "sum");

    let qe = QueryEngine::new(&store);
    let result = qe.execute(&query).unwrap();
    assert!(result.assert_aggregate(Vec::from([main_scenario_name()]), (14f64).to_bits()));
    assert!(result.assert_aggregate(Vec::from(["s1"]), (13f64).to_bits()));
    assert!(result.assert_aggregate(Vec::from(["s2"]), (17f64).to_bits()));
}

#[test]
fn test_wildcard_two_coordinates() {
    let store = build_and_load();

    let mut query = Query::new();
    query.add_wildcard_coordinate(scenario_field_name());
    query.add_wildcard_coordinate("product");
    query.add_aggregated_measure("price", "sum");

    let qe = QueryEngine::new(&store);
    let result = qe.execute(&query).unwrap();
    assert_eq!(9, result.size());
    assert!(result.assert_aggregate(Vec::from([main_scenario_name(), "syrup"]), (2f64).to_bits()));
    assert!(result.assert_aggregate(Vec::from([main_scenario_name(), "tofu"]), (8f64).to_bits()));
    assert!(
        result.assert_aggregate(Vec::from([main_scenario_name(), "mozzarella"]), (4f64).to_bits())
    );
    assert!(result.assert_aggregate(Vec::from(["s1", "syrup"]), (3f64).to_bits()));
    assert!(result.assert_aggregate(Vec::from(["s1", "tofu"]), (6f64).to_bits()));
    assert!(result.assert_aggregate(Vec::from(["s1", "mozzarella"]), (4f64).to_bits()));
    assert!(result.assert_aggregate(Vec::from(["s2", "syrup"]), (4f64).to_bits()));
    assert!(result.assert_aggregate(Vec::from(["s2", "tofu"]), (8f64).to_bits()));
    assert!(result.assert_aggregate(Vec::from(["s2", "mozzarella"]), (5f64).to_bits()));
}

#[test]
fn test_list_two_coordinates() {
    let store = build_and_load();

    let mut query = Query::new();
    query.add_coordinates(scenario_field_name(), Vec::from(["s2", "s1"]));
    query.add_coordinates("product", Vec::from(["syrup"]));
    query.add_aggregated_measure("price", "sum");

    let qe = QueryEngine::new(&store);
    let result = qe.execute(&query).unwrap();
    assert!(result.assert_aggregate(Vec::from(["s1", "syrup"]), (3f64).to_bits()));
    assert!(result.assert_aggregate(Vec::from(["s2", "syrup"]), (4f64).to_bits()));
}

#[test]
fn test_list_three_coordinates() {
    let store = build_and_load();

    let mut query = Query::new();
    query.add_coordinates(scenario_field_name(), Vec::from(["s1", "s2"]));
    query.add_coordinates("product", Vec::from(["tofu", "syrup", "mozzarella"]));
    query.add_coordinates("category", Vec::from(["milk"]));
    query.add_aggregated_measure("price", "sum");

    let qe = QueryEngine::new(&store);
    let result = qe.execute(&query).unwrap();
    assert!(result.assert_aggregate(Vec::from(["s1", "tofu", "milk"]), (6f64).to_bits()));
    assert!(result.assert_aggregate(Vec::from(["s1", "mozzarella", "milk"]), (4f64).to_bits()));
    assert!(result.assert_aggregate(Vec::from(["s2", "tofu", "milk"]), (8f64).to_bits()));
    assert!(result.assert_aggregate(Vec::from(["s2", "mozzarella", "milk"]), (5f64).to_bits()));
}

#[test]
fn test_wildcard_on_other_coordinate_and_list_coordinates_on_scenario() {
    let store = build_and_load();

    let mut query = Query::new();
    query.add_coordinates(scenario_field_name(), Vec::from([main_scenario_name(), "s2"]));
    query.add_wildcard_coordinate("product");
    query.add_aggregated_measure("price", "sum");

    let qe = QueryEngine::new(&store);
    let result = qe.execute(&query).unwrap();
    assert_eq!(6, result.size());
    assert!(result.assert_aggregate(Vec::from([main_scenario_name(), "syrup"]), (2f64).to_bits()));
    assert!(result.assert_aggregate(Vec::from([main_scenario_name(), "tofu"]), (8f64).to_bits()));
    assert!(
        result.assert_aggregate(Vec::from([main_scenario_name(), "mozzarella"]), (4f64).to_bits())
    );
    assert!(result.assert_aggregate(Vec::from(["s2", "syrup"]), (4f64).to_bits()));
    assert!(result.assert_aggregate(Vec::from(["s2", "tofu"]), (8f64).to_bits()));
    assert!(result.assert_aggregate(Vec::from(["s2", "mozzarella"]), (5f64).to_bits()));
}

#[test]
fn test_wildcard_scenario_and_list_coordinates_on_other_coordinate() {
    let store = build_and_load();

    let mut query = Query::new();
    query.add_wildcard_coordinate(scenario_field_name());
    query.add_coordinates("product", Vec::from(["syrup", "tofu"]));
    query.add_aggregated_measure("price", "sum");

    let qe = QueryEngine::new(&store);
    let result = qe.execute(&query).unwrap();
    assert_eq!(6, result.size());
    assert!(result.assert_aggregate(Vec::from([main_scenario_name(), "syrup"]), (2f64).to_bits()));
    assert!(result.assert_aggregate(Vec::from([main_scenario_name(), "tofu"]), (8f64).to_bits()));
    assert!(result.assert_aggregate(Vec::from(["s1", "syrup"]), (3f64).to_bits()));
    assert!(result.assert_aggregate(Vec::from(["s1", "tofu"]), (6f64).to_bits()));
    assert!(result.assert_aggregate(Vec::from(["s2", "syrup"]), (4f64).to_bits()));
    assert!(result.assert_aggregate(Vec::from(["s2", "tofu"]), (8f64).to_bits()));
}

fn build_and_load() -> Store {
    let schema = Schema::new(vec![
        Field { name: "id".to_string(), data_type: DataType::Int64 },
        Field { name: "product".to_string(), data_type: DataType::Utf8 },
        Field { name: "category".to_string(), data_type: DataType::Utf8 },
        Field { name: "price".to_string(), data_type: DataType::Float64 },
        Field { name: "quantity".to_string(), data_type: DataType::UInt32 },
    ]);

    let mut store = Store::new(schema, vec![0], CHUNK_DEFAULT_SIZE as u32);

    let main_batch = create_main_batch();
    let s1_batch = create_s1_batch();
    let s2_batch = create_s2_batch();

    store.load(main_scenario_name(), &main_batch).unwrap();
    store.load("s1", &s1_batch).unwrap();
    store.load("s2", &s2_batch).unwrap();

    store
}

fn strings(values: Vec<&str>) -> Vec<String> {
    values.into_iter().map(|s| s.to_string()).collect()
}

fn float_bits(values: Vec<f64>) -> Vec<u64> {
    values.into_iter().map(|v| v.to_bits()).collect()
}

fn create_main_batch() -> RecordBatch {
    RecordBatch::new(vec![
        BatchColumn::Int64(vec![0, 1, 2]),
        BatchColumn::Utf8(strings(vec!["syrup", "tofu", "mozzarella"])),
        BatchColumn::Utf8(strings(vec!["condiment", "milk", "milk"])),
        BatchColumn::Float64Bits(float_bits(vec![2f64, 8f64, 4f64])),
        BatchColumn::UInt32(vec![5, 3, 4]),
    ])
}

fn create_s1_batch() -> RecordBatch {
    RecordBatch::new(vec![
        BatchColumn::Int64(vec![0, 1]),
        BatchColumn::Utf8(strings(vec!["syrup", "tofu"])),
        BatchColumn::Utf8(strings(vec!["condiment", "milk"])),
        BatchColumn::Float64Bits(float_bits(vec![3f64, 6f64])),
        BatchColumn::UInt32(vec![5, 3]),
    ])
}

fn create_s2_batch() -> RecordBatch {
    RecordBatch::new(vec![
        BatchColumn::Int64(vec![0, 2]),
        BatchColumn::Utf8(strings(vec!["syrup", "mozzarella"])),
        BatchColumn::Utf8(strings(vec!["condiment", "milk"])),
        BatchColumn::Float64Bits(float_bits(vec![4f64, 5f64])),
        BatchColumn::UInt32(vec![5, 4]),
    ])
}
