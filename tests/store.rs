use collection_store::data::{ColumnData, FieldColumn};
use collection_store::query::{Filter, FilterValues};
use collection_store::registry::Store;
use collection_store::schema::{CollectionSchema, FieldSchema, SchemaError, MAX_DIM};
use collection_store::search::{score_of, top_k, Hit};
use collection_store::store::{
    ConsistencyLevel, IndexParams, IndexType, Metric, StoreError,
};

fn book_fields(dim: usize) -> Vec<FieldSchema> {
    vec![
        FieldSchema::new_primary_int64("book_id", "primary key", true),
        FieldSchema::new_varchar("book_name", "title", 200),
        FieldSchema::new_vector("book_intro", "embedding", dim),
    ]
}

fn book_schema(name: &str, dim: usize) -> CollectionSchema {
    CollectionSchema::build(name.to_string(), "books".to_string(), book_fields(dim)).unwrap()
}

fn names(v: &[&str]) -> Vec<String> {
    v.iter().map(|s| s.to_string()).collect()
}

fn l2_index() -> IndexParams {
    IndexParams {
        name: "book_intro_index".to_string(),
        index_type: IndexType::IvfFlat { nlist: 1024 },
        metric: Metric::L2,
    }
}

/// A store holding collection `name` with the given rows, indexed and loaded.
fn loaded_store(name: &str, dim: usize, titles: &[&str], vectors: Vec<i16>) -> Store {
    let mut store = Store::new(1);
    store
        .create_collection(book_schema(name, dim), 2, ConsistencyLevel::Strong)
        .unwrap();
    let cols = vec![
        FieldColumn { name: "book_name".to_string(), data: ColumnData::VarChar(names(titles)) },
        FieldColumn { name: "book_intro".to_string(), data: ColumnData::Vector(vectors) },
    ];
    assert_eq!(store.insert(&name.to_string(), cols).unwrap(), titles.len());
    store.create_index(&name.to_string(), &"book_intro".to_string(), l2_index()).unwrap();
    store.load(&name.to_string(), 1).unwrap();
    store
}

fn name_filter(values: &[&str]) -> Filter {
    Filter { field: "book_name".to_string(), values: FilterValues::VarChar(names(values)) }
}

#[test]
fn build_accepts_valid_schema() {
    let s = book_schema("books", 4);
    assert_eq!(s.fields.len(), 3);
    assert_eq!(s.name, "books");
}

#[test]
fn build_rejects_missing_primary_key() {
    let fields = vec![FieldSchema::new_vector("v", "", 4)];
    let r = CollectionSchema::build("c".to_string(), String::new(), fields);
    assert!(matches!(r, Err(SchemaError::NoPrimaryKey)));
}

#[test]
fn build_rejects_two_primary_keys() {
    let fields = vec![
        FieldSchema::new_primary_int64("a", "", false),
        FieldSchema::new_primary_int64("b", "", false),
        FieldSchema::new_vector("v", "", 4),
    ];
    let r = CollectionSchema::build("c".to_string(), String::new(), fields);
    assert!(matches!(r, Err(SchemaError::MultiplePrimaryKeys { field }) if field == "b"));
}

#[test]
fn build_rejects_missing_vector_field() {
    let fields = vec![FieldSchema::new_primary_int64("id", "", false)];
    let r = CollectionSchema::build("c".to_string(), String::new(), fields);
    assert!(matches!(r, Err(SchemaError::NoVectorField)));
}

#[test]
fn build_rejects_duplicate_names_and_zero_dimension() {
    let fields = vec![
        FieldSchema::new_primary_int64("id", "", false),
        FieldSchema::new_vector("id", "", 4),
    ];
    let r = CollectionSchema::build("c".to_string(), String::new(), fields);
    assert!(matches!(r, Err(SchemaError::DuplicateField { field }) if field == "id"));
    let fields = vec![
        FieldSchema::new_primary_int64("id", "", false),
        FieldSchema::new_vector("v", "", 0),
    ];
    let r = CollectionSchema::build("c".to_string(), String::new(), fields);
    assert!(matches!(r, Err(SchemaError::BadDimension { field }) if field == "v"));
}

#[test]
fn build_rejects_vector_primary_key_and_misplaced_auto_id() {
    let mut key = FieldSchema::new_vector("v", "", 4);
    key.is_primary = true;
    let r = CollectionSchema::build("c".to_string(), String::new(), vec![key]);
    assert!(matches!(r, Err(SchemaError::PrimaryKeyType { field }) if field == "v"));
    let mut name = FieldSchema::new_varchar("n", "", 10);
    name.auto_id = true;
    let fields = vec![
        FieldSchema::new_primary_int64("id", "", false),
        name,
        FieldSchema::new_vector("v", "", 4),
    ];
    let r = CollectionSchema::build("c".to_string(), String::new(), fields);
    assert!(matches!(r, Err(SchemaError::AutoIdNotPrimary { field }) if field == "n"));
}

#[test]
fn create_then_has_then_drop() {
    let mut store = Store::new(1);
    let name = "flows_network_book".to_string();
    assert!(!store.has_collection(&name));
    store.create_collection(book_schema(&name, 4), 2, ConsistencyLevel::Strong).unwrap();
    assert!(store.has_collection(&name));
    store.drop_collection(&name).unwrap();
    assert!(!store.has_collection(&name));
}

#[test]
fn create_twice_fails_and_drop_missing_fails() {
    let mut store = Store::new(1);
    let name = "c".to_string();
    store.create_collection(book_schema("c", 4), 1, ConsistencyLevel::Strong).unwrap();
    let r = store.create_collection(book_schema("c", 4), 1, ConsistencyLevel::Strong);
    assert!(matches!(r, Err(StoreError::AlreadyExists { .. })));
    store.drop_collection(&name).unwrap();
    assert!(matches!(store.drop_collection(&name), Err(StoreError::NotFound { .. })));
    assert!(matches!(store.get_collection(&name), Err(StoreError::NotFound { .. })));
}

#[test]
fn create_rejects_invalid_schema() {
    let mut store = Store::new(1);
    let schema = CollectionSchema {
        name: "c".to_string(),
        description: String::new(),
        fields: vec![FieldSchema::new_vector("v", "", 4)],
    };
    let r = store.create_collection(schema, 1, ConsistencyLevel::Strong);
    assert!(matches!(r, Err(StoreError::Schema(SchemaError::NoPrimaryKey))));
    assert!(!store.has_collection(&"c".to_string()));
}

#[test]
fn insert_then_query_returns_every_row() {
    let titles = ["a", "b", "c", "d", "e"];
    let vectors: Vec<i16> = (0..10).collect();
    let store = loaded_store("c", 2, &titles, vectors);
    let keys = Filter { field: "book_id".to_string(), values: FilterValues::Int64(vec![0, 1, 2, 3, 4]) };
    let cols = store.query(&"c".to_string(), &keys, &names(&["book_name"])).unwrap();
    assert_eq!(cols.len(), 2);
    assert_eq!(cols[0].name, "book_id");
    assert_eq!(cols[1].name, "book_name");
    match &cols[0].data {
        ColumnData::Int64(v) => assert_eq!(v, &vec![0, 1, 2, 3, 4]),
        other => panic!("unexpected column {:?}", other),
    }
    match &cols[1].data {
        ColumnData::VarChar(v) => assert_eq!(v, &names(&titles)),
        other => panic!("unexpected column {:?}", other),
    }
}

#[test]
fn query_picks_matching_rows_in_row_order() {
    let store = loaded_store("c", 1, &["x", "y", "z"], vec![1, 2, 3]);
    let cols = store.query(&"c".to_string(), &name_filter(&["z", "x"]), &vec![]).unwrap();
    assert_eq!(cols.len(), 1);
    match &cols[0].data {
        ColumnData::Int64(v) => assert_eq!(v, &vec![0, 2]),
        other => panic!("unexpected column {:?}", other),
    }
}

#[test]
fn query_errors() {
    let store = loaded_store("c", 1, &["x"], vec![1]);
    let name = "c".to_string();
    let bad_field = Filter { field: "nope".to_string(), values: FilterValues::Int64(vec![1]) };
    assert!(matches!(store.query(&name, &bad_field, &vec![]), Err(StoreError::InvalidExpression { .. })));
    let bad_type = Filter { field: "book_name".to_string(), values: FilterValues::Int64(vec![1]) };
    assert!(matches!(store.query(&name, &bad_type, &vec![]), Err(StoreError::InvalidExpression { .. })));
    let r = store.query(&name, &name_filter(&["x"]), &names(&["nope"]));
    assert!(matches!(r, Err(StoreError::UnknownField { .. })));
    let r = store.query(&"other".to_string(), &name_filter(&["x"]), &vec![]);
    assert!(matches!(r, Err(StoreError::NotFound { .. })));
}

#[test]
fn insert_rejects_misshapen_columns() {
    let mut store = Store::new(1);
    let name = "c".to_string();
    store.create_collection(book_schema("c", 2), 1, ConsistencyLevel::Strong).unwrap();
    // rows disagree: two names, three vectors
    let cols = vec![
        FieldColumn { name: "book_name".to_string(), data: ColumnData::VarChar(names(&["a", "b"])) },
        FieldColumn { name: "book_intro".to_string(), data: ColumnData::Vector(vec![1, 2, 3, 4, 5, 6]) },
    ];
    assert!(matches!(store.insert(&name, cols), Err(StoreError::ColumnShape { .. })));
    // flattened vectors not a whole number of rows
    let cols = vec![
        FieldColumn { name: "book_name".to_string(), data: ColumnData::VarChar(names(&["a"])) },
        FieldColumn { name: "book_intro".to_string(), data: ColumnData::Vector(vec![1, 2, 3]) },
    ];
    assert!(matches!(store.insert(&name, cols), Err(StoreError::ColumnShape { .. })));
    // a field is missing
    let cols = vec![FieldColumn { name: "book_intro".to_string(), data: ColumnData::Vector(vec![1, 2]) }];
    assert!(matches!(store.insert(&name, cols), Err(StoreError::ColumnShape { field }) if field == "book_name"));
    // the generated key is given
    let cols = vec![
        FieldColumn { name: "book_id".to_string(), data: ColumnData::Int64(vec![7]) },
        FieldColumn { name: "book_name".to_string(), data: ColumnData::VarChar(names(&["a"])) },
        FieldColumn { name: "book_intro".to_string(), data: ColumnData::Vector(vec![1, 2]) },
    ];
    assert!(matches!(store.insert(&name, cols), Err(StoreError::ColumnShape { .. })));
    // a string longer than its field allows
    let long = "x".repeat(201);
    let cols = vec![
        FieldColumn { name: "book_name".to_string(), data: ColumnData::VarChar(vec![long]) },
        FieldColumn { name: "book_intro".to_string(), data: ColumnData::Vector(vec![1, 2]) },
    ];
    assert!(matches!(store.insert(&name, cols), Err(StoreError::ColumnShape { .. })));
    assert_eq!(store.get_collection(&name).unwrap().rows, 0);
}

#[test]
fn generated_keys_continue_across_inserts() {
    let mut store = Store::new(1);
    let name = "c".to_string();
    store.create_collection(book_schema("c", 1), 1, ConsistencyLevel::Strong).unwrap();
    for batch in [vec!["a", "b"], vec!["c"]] {
        let n = batch.len();
        let cols = vec![
            FieldColumn { name: "book_name".to_string(), data: ColumnData::VarChar(names(&batch)) },
            FieldColumn { name: "book_intro".to_string(), data: ColumnData::Vector(vec![0; n]) },
        ];
        store.insert(&name, cols).unwrap();
    }
    let c = store.get_collection(&name).unwrap();
    assert_eq!(c.rows, 3);
    match &c.columns[0] {
        ColumnData::Int64(v) => assert_eq!(v, &vec![0, 1, 2]),
        other => panic!("unexpected column {:?}", other),
    }
}

#[test]
fn create_index_errors() {
    let mut store = Store::new(1);
    let name = "c".to_string();
    store.create_collection(book_schema("c", 2), 1, ConsistencyLevel::Strong).unwrap();
    let r = store.create_index(&name, &"book_name".to_string(), l2_index());
    assert!(matches!(r, Err(StoreError::UnknownField { .. })));
    let bad = IndexParams { name: "i".to_string(), index_type: IndexType::IvfFlat { nlist: 0 }, metric: Metric::L2 };
    let r = store.create_index(&name, &"book_intro".to_string(), bad);
    assert!(matches!(r, Err(StoreError::InvalidIndexParams { .. })));
    let bad = IndexParams { name: "i".to_string(), index_type: IndexType::Hnsw { m: 8, ef_construction: 0 }, metric: Metric::L2 };
    let r = store.create_index(&name, &"book_intro".to_string(), bad);
    assert!(matches!(r, Err(StoreError::InvalidIndexParams { .. })));
    store.create_index(&name, &"book_intro".to_string(), l2_index()).unwrap();
    let r = store.create_index(&name, &"book_intro".to_string(), l2_index());
    assert!(matches!(r, Err(StoreError::DuplicateIndex { .. })));
}

#[test]
fn load_needs_index_and_replicas() {
    let mut store = Store::new(1);
    let name = "c".to_string();
    store.create_collection(book_schema("c", 2), 1, ConsistencyLevel::Strong).unwrap();
    assert!(matches!(store.load(&name, 1), Err(StoreError::LoadError { .. })));
    store.create_index(&name, &"book_intro".to_string(), l2_index()).unwrap();
    assert!(matches!(store.load(&name, 0), Err(StoreError::LoadError { .. })));
    assert!(matches!(store.load(&name, 2), Err(StoreError::LoadError { .. })));
    store.load(&name, 1).unwrap();
    // loading again is a no-op
    store.load(&name, 1).unwrap();
    assert!(store.get_collection(&name).unwrap().loaded);
    assert!(matches!(store.load(&"x".to_string(), 1), Err(StoreError::NotFound { .. })));
}

#[test]
fn release_blocks_queries_until_reload() {
    let mut store = loaded_store("c", 2, &["a"], vec![1, 1]);
    let name = "c".to_string();
    store.release(&name).unwrap();
    store.release(&name).unwrap();
    let q = store.query(&name, &name_filter(&["a"]), &vec![]);
    assert!(matches!(q, Err(StoreError::NotLoaded { .. })));
    let s = store.search(&name, &vec![vec![1, 1]], &"book_intro".to_string(), 1, Metric::L2);
    assert!(matches!(s, Err(StoreError::NotLoaded { .. })));
    store.load(&name, 1).unwrap();
    assert!(store.query(&name, &name_filter(&["a"]), &vec![]).is_ok());
    assert!(store.search(&name, &vec![vec![1, 1]], &"book_intro".to_string(), 1, Metric::L2).is_ok());
}

#[test]
fn search_orders_by_distance_and_caps_at_top_k() {
    let store = loaded_store("c", 1, &["a", "b", "c", "d"], vec![10, -3, 4, 0]);
    let res = store
        .search(&"c".to_string(), &vec![vec![1], vec![9]], &"book_intro".to_string(), 3, Metric::L2)
        .unwrap();
    assert_eq!(res.len(), 2);
    assert_eq!(res[0], vec![Hit { row: 3, score: 1 }, Hit { row: 2, score: 9 }, Hit { row: 1, score: 16 }]);
    assert_eq!(res[1].len(), 3);
    assert_eq!(res[1][0], Hit { row: 0, score: 1 });
    for hits in &res {
        assert!(hits.len() <= 3);
        for w in hits.windows(2) {
            assert!(w[0].score <= w[1].score);
        }
    }
}

#[test]
fn search_ties_go_to_earlier_row() {
    let hits = top_k(Metric::L2, &vec![5, 1, 5, 1], 1, 4, &vec![3], 4);
    assert_eq!(
        hits,
        vec![Hit { row: 0, score: 4 }, Hit { row: 1, score: 4 }, Hit { row: 2, score: 4 }, Hit { row: 3, score: 4 }]
    );
}

#[test]
fn search_top_k_larger_than_rows() {
    let hits = top_k(Metric::L2, &vec![2, 0], 1, 2, &vec![0], 10);
    assert_eq!(hits, vec![Hit { row: 1, score: 0 }, Hit { row: 0, score: 4 }]);
    let none = top_k(Metric::L2, &vec![], 1, 0, &vec![0], 10);
    assert!(none.is_empty());
}

#[test]
fn inner_product_ranks_largest_first() {
    let hits = top_k(Metric::IP, &vec![1, 0, 3, 3, -2, 5], 2, 3, &vec![1, 1], 2);
    assert_eq!(hits, vec![Hit { row: 1, score: 6 }, Hit { row: 2, score: 3 }]);
}

#[test]
fn score_formulas() {
    assert_eq!(score_of(Metric::L2, &[1, 2], &[4, 6]), 25);
    assert_eq!(score_of(Metric::IP, &[1, 2], &[4, 6]), 16);
    assert_eq!(score_of(Metric::L2, &[], &[]), 0);
    assert_eq!(score_of(Metric::L2, &[i16::MIN], &[i16::MAX]), 65535 * 65535);
}

#[test]
fn search_errors() {
    let store = loaded_store("c", 2, &["a"], vec![1, 1]);
    let name = "c".to_string();
    let field = "book_intro".to_string();
    let q = vec![vec![1, 1]];
    assert!(matches!(store.search(&name, &q, &field, 0, Metric::L2), Err(StoreError::InvalidTopK)));
    assert!(matches!(store.search(&name, &q, &field, 1, Metric::IP), Err(StoreError::MetricMismatch { .. })));
    let r = store.search(&name, &q, &"book_name".to_string(), 1, Metric::L2);
    assert!(matches!(r, Err(StoreError::UnknownField { .. })));
    let r = store.search(&name, &vec![vec![1, 1, 1]], &field, 1, Metric::L2);
    assert!(matches!(r, Err(StoreError::ColumnShape { .. })));
}

#[test]
fn stored_vector_is_its_own_nearest() {
    let vectors = vec![3, 4, -7, 2, 0, 0, 9, 9];
    let store = loaded_store("c", 2, &["a", "b", "c", "d"], vectors);
    for (row, q) in [(0usize, vec![3, 4]), (1, vec![-7, 2]), (3, vec![9, 9])] {
        let res = store.search(&"c".to_string(), &vec![q], &"book_intro".to_string(), 2, Metric::L2).unwrap();
        assert_eq!(res[0][0], Hit { row, score: 0 });
    }
}

#[test]
fn book_scenario() {
    let dim = 1536;
    let mut vectors = vec![1i16; dim];
    vectors.extend(vec![10i16; dim]);
    let store = loaded_store("flows_network_book", dim, &["book1", "book2"], vectors);
    let name = "flows_network_book".to_string();
    let cols = store
        .query(&name, &name_filter(&["book1", "book2"]), &names(&["book_name"]))
        .unwrap();
    match &cols[1].data {
        ColumnData::VarChar(v) => assert_eq!(v.len(), 2),
        other => panic!("unexpected column {:?}", other),
    }
    let res = store.search(&name, &vec![vec![9i16; dim]], &"book_intro".to_string(), 1, Metric::L2).unwrap();
    assert_eq!(res.len(), 1);
    assert_eq!(res[0].len(), 1);
    assert_eq!(res[0][0].row, 1);
    let rows: Vec<usize> = res[0].iter().map(|h| h.row).collect();
    let fetched = store.fetch(&name, &rows, &names(&["book_name"])).unwrap();
    match &fetched[0].data {
        ColumnData::VarChar(v) => assert_eq!(v, &names(&["book2"])),
        other => panic!("unexpected column {:?}", other),
    }
}

#[test]
fn fetch_reads_rows_in_the_order_given() {
    let mut store = Store::new(1);
    let name = "c".to_string();
    let fields = vec![
        FieldSchema::new_primary_int64("id", "", false),
        FieldSchema::new_int64("year", "publication year"),
        FieldSchema::new_vector("v", "", 1),
    ];
    let schema = CollectionSchema::build(name.clone(), String::new(), fields).unwrap();
    store.create_collection(schema, 1, ConsistencyLevel::Session).unwrap();
    let cols = vec![
        FieldColumn { name: "id".to_string(), data: ColumnData::Int64(vec![10, 20, 30]) },
        FieldColumn { name: "year".to_string(), data: ColumnData::Int64(vec![1999, 2005, 2021]) },
        FieldColumn { name: "v".to_string(), data: ColumnData::Vector(vec![1, 2, 3]) },
    ];
    store.insert(&name, cols).unwrap();
    let c = store.get_collection(&name).unwrap();
    let got = c.fetch(&vec![2, 0], &names(&["year", "id"])).unwrap();
    match (&got[0].data, &got[1].data) {
        (ColumnData::Int64(years), ColumnData::Int64(ids)) => {
            assert_eq!(years, &vec![2021, 1999]);
            assert_eq!(ids, &vec![30, 10]);
        }
        other => panic!("unexpected columns {:?}", other),
    }
    match &c.fetch(&vec![2, 0], &names(&["v"])).unwrap()[0].data {
        ColumnData::Vector(v) => assert_eq!(v, &vec![3, 1]),
        other => panic!("unexpected column {:?}", other),
    }
    assert!(matches!(c.fetch(&vec![0], &names(&["nope"])), Err(StoreError::UnknownField { .. })));
    assert!(matches!(store.fetch(&name, &vec![3], &vec![]), Err(StoreError::RowOutOfRange { row: 3 })));
    assert!(matches!(store.fetch(&"x".to_string(), &vec![], &vec![]), Err(StoreError::NotFound { .. })));
}

#[test]
fn dimension_bounds() {
    let ok = CollectionSchema::build("c".to_string(), String::new(), book_fields(MAX_DIM));
    assert!(ok.is_ok());
    let too_big = CollectionSchema::build("c".to_string(), String::new(), book_fields(MAX_DIM + 1));
    assert!(matches!(too_big, Err(SchemaError::BadDimension { field }) if field == "book_intro"));
}

#[test]
fn empty_insert_adds_no_rows() {
    let mut store = Store::new(1);
    let name = "c".to_string();
    store.create_collection(book_schema("c", 3), 1, ConsistencyLevel::Eventually).unwrap();
    let cols = vec![
        FieldColumn { name: "book_intro".to_string(), data: ColumnData::Vector(vec![]) },
        FieldColumn { name: "book_name".to_string(), data: ColumnData::VarChar(vec![]) },
    ];
    assert_eq!(store.insert(&name, cols).unwrap(), 0);
    assert_eq!(store.get_collection(&name).unwrap().rows, 0);
    let cols = vec![FieldColumn { name: "nope".to_string(), data: ColumnData::Int64(vec![1]) }];
    assert!(matches!(store.insert(&name, cols), Err(StoreError::ColumnShape { .. })));
    assert!(matches!(store.insert(&"x".to_string(), vec![]), Err(StoreError::NotFound { .. })));
}

#[test]
fn query_returns_vector_columns() {
    let store = loaded_store("c", 2, &["a", "b", "c"], vec![1, 2, 3, 4, 5, 6]);
    let cols = store
        .query(&"c".to_string(), &name_filter(&["c", "a"]), &names(&["book_intro", "book_name"]))
        .unwrap();
    assert_eq!(cols.len(), 3);
    assert_eq!(cols[1].name, "book_intro");
    match &cols[1].data {
        ColumnData::Vector(v) => assert_eq!(v, &vec![1, 2, 5, 6]),
        other => panic!("unexpected column {:?}", other),
    }
    match &cols[2].data {
        ColumnData::VarChar(v) => assert_eq!(v, &names(&["a", "c"])),
        other => panic!("unexpected column {:?}", other),
    }
}

#[test]
fn book_query_returns_every_field_for_both_rows() {
    let dim = 1536;
    let mut vectors = vec![1i16; dim];
    vectors.extend(vec![10i16; dim]);
    let store = loaded_store("flows_network_book", dim, &["book1", "book2"], vectors);
    let cols = store
        .query(
            &"flows_network_book".to_string(),
            &name_filter(&["book1", "book2"]),
            &names(&["book_name", "book_intro"]),
        )
        .unwrap();
    assert_eq!(cols.len(), 3);
    assert_eq!(cols[2].name, "book_intro");
    match &cols[2].data {
        ColumnData::Vector(v) => {
            assert_eq!(v.len(), 2 * dim);
            assert_eq!(v[0], 1);
            assert_eq!(v[dim], 10);
        }
        other => panic!("unexpected column {:?}", other),
    }
}
