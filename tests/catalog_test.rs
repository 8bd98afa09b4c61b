use data_dictionary::catalog::{schema_is_map, Catalog};
use data_dictionary::dict::{
    Classification, Compression, Dataset, Format, Manager, RangeParams, SchemaColumn,
    PARTITION_LATEST,
};
use data_dictionary::error::Error;

const SECOND: i64 = 1_000_000;

fn manager(c: &mut Catalog, email: &str) -> Manager {
    Manager::register(c, email, "pw12345678", None, 0).unwrap()
}

fn dataset(c: &mut Catalog, m: &Manager, name: &str) -> Dataset {
    m.register_dataset(
        c,
        name,
        Compression::Uncompressed,
        Format::Json,
        Classification::Public,
        vec![SchemaColumn { name: "id".to_string(), column_type: Some("integer".to_string()) }],
        "a dataset",
        0,
    )
    .unwrap()
}

#[test]
fn manager_lifecycle() {
    let mut c = Catalog::new(0);
    let m = Manager::register(&mut c, "a@test.com", "pw12345678", Some("test.com"), 1).unwrap();
    assert_ne!(m.api_key, 0);
    assert_eq!(m.hash.len(), 32);
    assert_eq!(m.salt.len(), 32);
    let bad = Manager::register(&mut c, "bad@other.com", "pw", Some("test.com"), 2);
    assert!(matches!(bad, Err(Error::InputValidation(_))));
    assert!(Manager::authenticate(&c, "a@test.com", "pw12345678").is_ok());
    assert!(matches!(Manager::authenticate(&c, "a@test.com", "wrong"), Err(Error::Auth(_))));
    assert!(matches!(Manager::authenticate(&c, "nobody@test.com", "x"), Err(Error::Sql(_))));
}

#[test]
fn duplicate_email_is_refused() {
    let mut c = Catalog::new(0);
    manager(&mut c, "a@x.com");
    assert!(matches!(Manager::register(&mut c, "a@x.com", "other", None, 1), Err(Error::Sql(_))));
}

#[test]
fn find_manager_by_api_key() {
    let mut c = Catalog::new(0);
    let m = manager(&mut c, "a@x.com");
    assert_eq!(Manager::find(&c, m.api_key).unwrap().id, m.id);
    assert!(matches!(Manager::find(&c, 0), Err(Error::Sql(_))));
}

#[test]
fn register_then_find_dataset() {
    let mut c = Catalog::new(0);
    let m = manager(&mut c, "a@x.com");
    let d = dataset(&mut c, &m, "sales");
    let found = Dataset::find(&c, "sales").unwrap();
    assert_eq!(found.id, d.id);
    assert_eq!(found.manager_id, m.id);
    assert_eq!(found.classification, Classification::Public);
    assert_eq!(found.description, "a dataset");
    assert_eq!(found.schema[0].name, "id");
    assert_eq!(found.schema[0].column_type, Some("integer".to_string()));
    assert!(matches!(Dataset::find(&c, "bad_dataset_name"), Err(Error::Sql(_))));
}

#[test]
fn duplicate_dataset_name_is_refused() {
    let mut c = Catalog::new(0);
    let m = manager(&mut c, "a@x.com");
    dataset(&mut c, &m, "sales");
    let again = m.register_dataset(
        &mut c,
        "sales",
        Compression::Zip,
        Format::Csv,
        Classification::Private,
        vec![],
        "",
        1,
    );
    assert!(matches!(again, Err(Error::Sql(_))));
}

#[test]
fn upsert_keeps_one_row_with_last_values() {
    let mut c = Catalog::new(0);
    let m = manager(&mut c, "a@x.com");
    let d = dataset(&mut c, &m, "sales");
    let first = d.register_partition(&mut c, "part-a", "u1", 1, 10).unwrap();
    let second = d.register_partition(&mut c, "part-a", "u2", 2, 20).unwrap();
    assert_eq!(first.id, second.id);
    let all = d.partitions(&c, None).unwrap();
    assert_eq!(all.len(), 1);
    assert_eq!(all[0].url, "u2");
    assert_eq!(all[0].size, 2);
    assert_eq!(all[0].created_at, 10);
    assert_eq!(all[0].updated_at, 20);
}

#[test]
fn latest_is_refused_as_a_partition_name() {
    let mut c = Catalog::new(0);
    let m = manager(&mut c, "a@x.com");
    let d = dataset(&mut c, &m, "sales");
    let r = d.register_partition(&mut c, PARTITION_LATEST, "u", 1, 10);
    assert!(matches!(r, Err(Error::InputValidation(_))));
    assert!(d.partitions(&c, None).unwrap().is_empty());
}

#[test]
fn latest_follows_creation_time() {
    let mut c = Catalog::new(0);
    let m = manager(&mut c, "a@x.com");
    let d = dataset(&mut c, &m, "d");
    assert!(matches!(d.latest_partition(&c), Err(Error::Sql(_))));
    d.register_partition(&mut c, "p_a", "ua", 1, 10 * SECOND).unwrap();
    d.register_partition(&mut c, "p_b", "ub", 1, 20 * SECOND).unwrap();
    assert_eq!(d.partition(&c, "latest").unwrap().name, "p_b");
    d.delete_partition(&mut c, "p_b").unwrap();
    assert_eq!(d.partition(&c, "latest").unwrap().name, "p_a");
    d.delete_partition(&mut c, "p_b").unwrap();
    assert_eq!(d.partitions(&c, None).unwrap().len(), 1);
}

#[test]
fn range_over_thirty_partitions() {
    let mut c = Catalog::new(0);
    let m = manager(&mut c, "a@x.com");
    let d = dataset(&mut c, &m, "d");
    let step = 100_000;
    for i in 1..=30i64 {
        d.register_partition(&mut c, &format!("part-{:02}", i), "u", i, i * step).unwrap();
    }
    let page = d
        .partitions(&c, Some(RangeParams { start: None, end: None, count: Some(5), offset: Some(10) }))
        .unwrap();
    let names: Vec<String> = page.iter().map(|p| p.name.clone()).collect();
    assert_eq!(names, vec!["part-11", "part-12", "part-13", "part-14", "part-15"]);
    let window = d
        .partitions(
            &c,
            Some(RangeParams { start: Some(15 * step), end: Some(25 * step), count: None, offset: None }),
        )
        .unwrap();
    assert_eq!(window.len(), 11);
    assert!(window.iter().all(|p| 15 * step <= p.created_at && p.created_at <= 25 * step));
    assert!(window.windows(2).all(|w| w[0].created_at <= w[1].created_at));
    let beyond = d
        .partitions(&c, Some(RangeParams { start: None, end: None, count: None, offset: Some(60) }))
        .unwrap();
    assert!(beyond.is_empty());
    let all = d
        .partitions(&c, Some(RangeParams { start: None, end: None, count: Some(31), offset: None }))
        .unwrap();
    assert_eq!(all.len(), 30);
    let inverted = d
        .partitions(&c, Some(RangeParams { start: Some(20 * step), end: Some(10 * step), count: None, offset: None }))
        .unwrap();
    assert!(inverted.is_empty());
    let negative = d.partitions(&c, Some(RangeParams { start: None, end: None, count: Some(-1), offset: None }));
    assert!(matches!(negative, Err(Error::Sql(_))));
}

#[test]
fn clock_never_goes_back() {
    let mut c = Catalog::new(0);
    let m = manager(&mut c, "a@x.com");
    let d = dataset(&mut c, &m, "d");
    d.register_partition(&mut c, "late", "u", 1, 50).unwrap();
    let early = d.register_partition(&mut c, "early", "u", 1, 5).unwrap();
    assert_eq!(early.created_at, 50);
    assert_eq!(d.latest_partition(&c).unwrap().name, "early");
}

#[test]
fn delete_dataset_cascades() {
    let mut c = Catalog::new(0);
    let m = manager(&mut c, "a@x.com");
    let d = dataset(&mut c, &m, "d");
    let e = dataset(&mut c, &m, "e");
    d.register_partition(&mut c, "p", "u", 1, 1).unwrap();
    e.register_partition(&mut c, "q", "u", 1, 2).unwrap();
    d.delete(&mut c).unwrap();
    assert!(Dataset::find(&c, "d").is_err());
    assert_eq!(e.partitions(&c, None).unwrap().len(), 1);
    let gone = Dataset { id: 1, manager_id: 1, name: "d".to_string(), classification: Classification::Public, compression: Compression::Zip, format: Format::Csv, description: String::new(), schema: vec![], created_at: 0, updated_at: 0 };
    assert!(matches!(gone.register_partition(&mut c, "p", "u", 1, 3), Err(Error::Sql(_))));
}

#[test]
fn list_search_and_manager_datasets() {
    let mut c = Catalog::new(0);
    let m = manager(&mut c, "a@x.com");
    let n = manager(&mut c, "b@x.com");
    dataset(&mut c, &m, "sales_2020");
    dataset(&mut c, &n, "costs");
    dataset(&mut c, &m, "sales_2021");
    assert_eq!(Dataset::list(&c, None).unwrap().len(), 3);
    let second = Dataset::list(&c, Some(RangeParams { start: None, end: None, count: Some(1), offset: Some(1) })).unwrap();
    assert_eq!(second[0].name, "costs");
    let found: Vec<String> = Dataset::search(&c, "sales").unwrap().into_iter().map(|d| d.name).collect();
    assert_eq!(found, vec!["sales_2020", "sales_2021"]);
    let mine: Vec<String> = m.datasets(&c).unwrap().into_iter().map(|d| d.name).collect();
    assert_eq!(mine, vec!["sales_2020", "sales_2021"]);
}

#[test]
fn first_registration_on_a_new_catalog_succeeds() {
    let mut c = Catalog::new(0);
    let m = Manager::register(&mut c, "a@test.com", "pw12345678", Some("test.com"), 0).unwrap();
    assert_ne!(m.api_key, 0);
    assert_eq!(m.email, "a@test.com");
    let n = Manager::register(&mut c, "b@test.com", "pw12345678", Some("test.com"), 0).unwrap();
    assert_ne!(m.api_key, n.api_key);
}

#[test]
fn schema_must_be_a_map() {
    let col = |n: &str| SchemaColumn { name: n.to_string(), column_type: None };
    assert!(schema_is_map(&vec![col("a"), col("b")]));
    assert!(!schema_is_map(&vec![col("a"), col("b"), col("a")]));
    assert!(schema_is_map(&vec![]));
}

#[test]
fn a_taken_api_key_is_refused() {
    let mut c = Catalog::new(0);
    let m = manager(&mut c, "a@x.com");
    let salt = "ABCDEFGHIJKLMNOPQRSTUVWXYZabcdef".to_string();
    let taken = c.insert_manager("b@x.com", salt.clone(), vec![0; 32], m.api_key, 1);
    assert!(matches!(taken, Err(Error::Sql(_))));
    let fresh = c.insert_manager("b@x.com", salt, vec![0; 32], m.api_key ^ 1, 1).unwrap();
    assert_eq!(fresh.api_key, m.api_key ^ 1);
    assert_eq!(fresh.id, m.id + 1);
}

#[test]
fn registration_secrets() {
    let bad = data_dictionary::credentials::prepare_registration("a@other.com", "pw", Some("test.com"));
    assert!(matches!(bad, Err(Error::InputValidation(_))));
    let c = data_dictionary::credentials::prepare_registration("a@test.com", "pw", Some("test.com")).unwrap();
    assert_eq!(c.salt.len(), 32);
    assert_eq!(c.hash.len(), 32);
    assert_ne!(c.api_key, 0);
    assert!(data_dictionary::credentials::password_matches("pw", &c.salt, &c.hash));
    assert!(!data_dictionary::credentials::password_matches("pW", &c.salt, &c.hash));
}
