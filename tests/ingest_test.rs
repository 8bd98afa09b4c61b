use data_dictionary::catalog::Catalog;
use data_dictionary::dict::{Classification, Compression, Dataset, Format, Manager};
use data_dictionary::error::{Error, PubsubAction};
use data_dictionary::ingest::{
    after_lookup, decode_data, event_order, handle_payload, ingest_batch, parse_size, plan_event, should_ack,
    Action,
};
use data_dictionary::notification::{Attributes, Event, Notification, Payload, PayloadFormat};

fn attrs(event: Event, time: i64, overwritten: Option<&str>) -> Attributes {
    Attributes {
        notification_config: "projects/_/buckets/b/notificationConfigs/1".to_string(),
        event_type: event,
        event_time: time,
        payload_format: PayloadFormat::JsonApiV1,
        bucket_id: "b".to_string(),
        object_id: "o".to_string(),
        object_generation: "1".to_string(),
        overwritten_by_generation: overwritten.map(|s| s.to_string()),
        overwrote_generation: None,
    }
}

fn payload(name: &str, link: &str, size: &str) -> Payload {
    Payload {
        kind: "storage#object".to_string(),
        id: name.to_string(),
        self_link: link.to_string(),
        name: name.to_string(),
        bucket: "b".to_string(),
        generation: "1".to_string(),
        metageneration: "1".to_string(),
        content_type: "application/octet-stream".to_string(),
        time_created: 0,
        updated: 0,
        time_deleted: None,
        temporary_hold: None,
        event_based_hold: None,
        retention_expiration_time: None,
        storage_class: "STANDARD".to_string(),
        time_storage_class_updated: 0,
        size: size.to_string(),
        md5_hash: String::new(),
        media_link: String::new(),
        content_encoding: None,
        content_disposition: None,
        content_language: None,
        cache_control: None,
        metadata: None,
        acl: None,
        owner: None,
        crc32c: None,
        component_count: None,
        etag: None,
        customer_encryption: None,
        kms_key_name: None,
    }
}

fn note(event: Event, time: i64, overwritten: Option<&str>, name: &str, link: &str, size: &str) -> Notification {
    Notification { attributes: attrs(event, time, overwritten), payload: Some(payload(name, link, size)) }
}

fn setup() -> (Catalog, Dataset) {
    let mut c = Catalog::new(0);
    let m = Manager::register(&mut c, "m@x.com", "pw12345678", None, 0).unwrap();
    let d = m
        .register_dataset(&mut c, "sales", Compression::Tar, Format::Json, Classification::Public, vec![], "", 0)
        .unwrap();
    (c, d)
}

const PART: &str = "sales/2024/01/part-001.json.tar.gz";

#[test]
fn partition_upsert_via_ingest() {
    let (mut c, d) = setup();
    let batch = vec![
        note(Event::ObjectFinalize, 1, None, PART, "U1", "1234"),
        note(Event::ObjectMetadataUpdate, 2, None, PART, "U1", "2000"),
    ];
    let acks = ingest_batch(&mut c, &batch, 5);
    assert_eq!(acks, vec![true, true]);
    let rows = d.partitions(&c, None).unwrap();
    assert_eq!(rows.len(), 1);
    assert_eq!(rows[0].name, "2024/01/part-001.json.tar.gz");
    assert_eq!(rows[0].url, "U1");
    assert_eq!(rows[0].size, 2000);
}

#[test]
fn batch_is_applied_in_event_time_order() {
    let (mut c, d) = setup();
    let batch = vec![
        note(Event::ObjectMetadataUpdate, 2, None, PART, "U1", "2000"),
        note(Event::ObjectFinalize, 1, None, PART, "U1", "1234"),
    ];
    ingest_batch(&mut c, &batch, 5);
    assert_eq!(d.partitions(&c, None).unwrap()[0].size, 2000);
}

#[test]
fn overwrite_delete_is_ignored() {
    let (mut c, d) = setup();
    let batch = vec![
        note(Event::ObjectFinalize, 1, None, PART, "U1", "1"),
        note(Event::ObjectDelete, 2, Some("42"), PART, "U1", "1"),
        note(Event::ObjectFinalize, 3, None, PART, "U2", "1"),
    ];
    let acks = ingest_batch(&mut c, &batch, 5);
    assert_eq!(acks, vec![true, true, true]);
    let rows = d.partitions(&c, None).unwrap();
    assert_eq!(rows.len(), 1);
    assert_eq!(rows[0].url, "U2");
}

#[test]
fn delete_events_remove_partitions_and_datasets() {
    let (mut c, d) = setup();
    let batch = vec![
        note(Event::ObjectFinalize, 1, None, PART, "U1", "1"),
        note(Event::ObjectDelete, 2, None, PART, "U1", "1"),
    ];
    ingest_batch(&mut c, &batch, 5);
    assert!(d.partitions(&c, None).unwrap().is_empty());
    let del = vec![note(Event::ObjectDelete, 3, None, "sales/dd.json", "U", "1")];
    assert_eq!(ingest_batch(&mut c, &del, 6), vec![true]);
    assert!(Dataset::find(&c, "sales").is_err());
    // the dataset is gone: a second delete of its descriptor is ignored and acknowledged
    assert_eq!(ingest_batch(&mut c, &del, 7), vec![true]);
}

#[test]
fn descriptor_writes_change_nothing() {
    let (mut c, d) = setup();
    let batch = vec![note(Event::ObjectFinalize, 1, None, "sales/dd.json", "U", "1")];
    assert_eq!(ingest_batch(&mut c, &batch, 5), vec![true]);
    assert!(d.partitions(&c, None).unwrap().is_empty());
}

#[test]
fn failures_are_not_acknowledged() {
    let (mut c, _) = setup();
    let unknown = vec![note(Event::ObjectFinalize, 1, None, "other/p", "U", "1")];
    assert_eq!(ingest_batch(&mut c, &unknown, 5), vec![false]);
    let undecoded = vec![Notification { attributes: attrs(Event::ObjectFinalize, 1, None), payload: None }];
    assert_eq!(ingest_batch(&mut c, &undecoded, 5), vec![false]);
    let r = handle_payload(&mut c, &payload("", "U", "1"), &attrs(Event::ObjectFinalize, 1, None), 5);
    assert!(matches!(r, Err(Error::InputValidation(_))));
    assert!(!should_ack(&r));
}

#[test]
fn reserved_name_is_ignored_and_bad_size_refused() {
    let (mut c, d) = setup();
    let r = handle_payload(&mut c, &payload("sales/latest", "U", "1"), &attrs(Event::ObjectFinalize, 1, None), 5);
    assert!(matches!(r, Err(Error::Pubsub(PubsubAction::IgnoreAndAck))));
    assert!(should_ack(&r));
    let batch = vec![note(Event::ObjectFinalize, 1, None, "sales/p", "U", "12x")];
    assert_eq!(ingest_batch(&mut c, &batch, 5), vec![false]);
    let r = handle_payload(&mut c, &payload("sales/p", "U", "12x"), &attrs(Event::ObjectFinalize, 1, None), 5);
    assert!(matches!(r, Err(Error::InputValidation(_))));
    assert!(d.partitions(&c, None).unwrap().is_empty());
}

#[test]
fn plan_of_a_partition_write() {
    match plan_event(&attrs(Event::ObjectArchive, 1, None), &payload(PART, "U9", "77")).unwrap() {
        Action::UpsertPartition { dataset, name, url, size } => {
            assert_eq!(dataset, "sales");
            assert_eq!(name, "2024/01/part-001.json.tar.gz");
            assert_eq!(url, "U9");
            assert_eq!(size, 77);
        }
        other => panic!("unexpected plan {:?}", other),
    }
}

#[test]
fn event_order_is_stable() {
    assert_eq!(event_order(&vec![3, 1, 2, 1]), vec![1, 3, 2, 0]);
    assert!(event_order(&vec![]).is_empty());
}

#[test]
fn sizes() {
    assert_eq!(parse_size("1234"), Some(1234));
    assert_eq!(parse_size("0"), Some(0));
    assert_eq!(parse_size("9223372036854775807"), Some(i64::MAX));
    assert_eq!(parse_size("9223372036854775808"), None);
    assert_eq!(parse_size(""), None);
    assert_eq!(parse_size("-1"), Some(-1));
    assert_eq!(parse_size("+1"), Some(1));
    assert_eq!(parse_size("-9223372036854775808"), Some(i64::MIN));
    assert_eq!(parse_size("-9223372036854775809"), None);
    assert_eq!(parse_size("-"), None);
    assert_eq!(parse_size("+"), None);
    assert_eq!(parse_size("+-1"), None);
}

#[test]
fn data_round_trips_through_base64() {
    let json = br#"{"name":"sales/p","selfLink":"U1","size":"12"}"#;
    let encoded = base64::encode(&json[..]);
    assert_eq!(decode_data(&encoded).unwrap(), json.to_vec());
    assert!(matches!(decode_data("not base64!"), Err(Error::Generic(_))));
}

#[test]
fn signed_sizes_are_written() {
    let (mut c, d) = setup();
    let batch = vec![note(Event::ObjectFinalize, 1, None, "sales/r", "U", "+1")];
    assert_eq!(ingest_batch(&mut c, &batch, 5), vec![true]);
    assert_eq!(d.partitions(&c, None).unwrap()[0].size, 1);
}

#[test]
fn lookup_decisions() {
    let del = Action::DeleteDataset { dataset: "d".to_string() };
    assert!(matches!(after_lookup(&del, Ok(false)), Some(Err(Error::Pubsub(PubsubAction::IgnoreAndAck)))));
    assert!(matches!(after_lookup(&del, Err(Error::Pool("down".into()))), Some(Err(Error::Pool(_)))));
    assert!(after_lookup(&del, Ok(true)).is_none());
    let up = Action::UpsertPartition { dataset: "d".to_string(), name: "r".to_string(), url: "u".to_string(), size: 1 };
    assert!(matches!(after_lookup(&up, Ok(false)), Some(Err(Error::Sql(_)))));
    assert!(matches!(after_lookup(&Action::Nothing, Ok(false)), Some(Ok(()))));
}
