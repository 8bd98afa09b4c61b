use data_dictionary::api::{
    listing_range, lookup_status, register_manager_status, registration_gate, trim_api_key,
    Pagination, PoolConfig, RestrictedManager,
};
use data_dictionary::bucket::{subscribe_result, upload_result, BucketManager, Subscriber};
use data_dictionary::credentials::{email_matches_domain, parse_api_key};
use data_dictionary::dict::{Classification, Compression, DatasetConfig, Format, Manager, RangeParams};
use data_dictionary::error::Error;

const KEY: &str = "67e55044-10b1-426f-9247-bb680e5fe0c8";

#[test]
fn bearer_keys() {
    assert_eq!(trim_api_key("Bearer  abc \n"), "abc");
    assert_eq!(trim_api_key("abc"), "abc");
    assert_eq!(parse_api_key(KEY), Some(0x67e5504410b1426f9247bb680e5fe0c8));
    assert_eq!(parse_api_key("nope"), None);
}

#[test]
fn duplicate_registration_is_a_conflict_before_anything_else() {
    assert_eq!(registration_gate(true, Some(&format!("Bearer {}", KEY))), Err(409));
    assert_eq!(registration_gate(true, None), Err(409));
}

#[test]
fn registration_needs_a_bearer_key() {
    assert_eq!(registration_gate(false, None), Err(401));
    assert_eq!(registration_gate(false, Some("Bearer nope")), Err(401));
    assert_eq!(registration_gate(false, Some(KEY)), Err(401));
    assert_eq!(registration_gate(false, Some(&format!("Bearer Bearer {}", KEY))), Err(401));
    assert_eq!(registration_gate(false, Some(&format!("bearer {}", KEY))), Err(401));
    assert_eq!(
        registration_gate(false, Some(&format!("Bearer {}", KEY))),
        Ok(0x67e5504410b1426f9247bb680e5fe0c8)
    );
}

#[test]
fn status_mapping() {
    assert_eq!(lookup_status(&Error::Sql("x".into())), 404);
    assert_eq!(lookup_status(&Error::Pool("x".into())), 500);
    assert_eq!(register_manager_status(&Error::InputValidation("x".into())), 400);
    assert_eq!(register_manager_status(&Error::Sql("x".into())), 404);
    assert_eq!(register_manager_status(&Error::Auth("x".into())), 500);
}

#[test]
fn upload_statuses() {
    assert!(upload_result(200).is_ok());
    assert!(matches!(upload_result(403), Err(Error::Auth(_))));
    assert!(matches!(upload_result(404), Err(Error::Http(_))));
    assert!(matches!(upload_result(502), Err(Error::Http(m)) if m.ends_with("502")));
    assert!(matches!(upload_result(404), Err(Error::Http(m)) if m.ends_with("404")));
    assert!(matches!(upload_result(7), Err(Error::Http(m)) if m.ends_with(": 7")));
    assert!(subscribe_result(200).is_ok());
    assert!(subscribe_result(409).is_ok());
    assert!(matches!(subscribe_result(404), Err(Error::Http(_))));
}

#[test]
fn upload_url_uses_the_classification_bucket() {
    let bm = BucketManager {
        service_endpoint: "http://s".to_string(),
        bucket_name_private: "priv".to_string(),
        bucket_name_public: "pub".to_string(),
        bucket_name_restricted: "res".to_string(),
        bucket_name_confidential: "conf".to_string(),
    };
    let cfg = DatasetConfig {
        name: "sales".to_string(),
        classification: Classification::Sensitive,
        compression: Compression::Zip,
        format: Format::Csv,
        description: String::new(),
        schema: vec![],
    };
    assert_eq!(bm.upload_url(&cfg), "http://s/upload/storage/v1/b/res/o?uploadType=media&name=sales/dd.json");
}

#[test]
fn subscription_names() {
    let s = Subscriber {
        name: "sub".to_string(),
        project_id: "proj".to_string(),
        topic: "datadict-test".to_string(),
        service_endpoint: "http://ps".to_string(),
        max_messages: 10,
    };
    assert_eq!(s.topic(), "projects/proj/topics/datadict-test");
    assert_eq!(s.name(), "projects/proj/subscriptions/sub");
    assert_eq!(s.url(":pull"), "http://ps/v1/projects/proj/subscriptions/sub:pull");
}

#[test]
fn email_domains() {
    assert!(email_matches_domain("a@test.com", Some("test.com")));
    assert!(!email_matches_domain("bad@validation.com", Some("test.com")));
    assert!(!email_matches_domain("a@test.com.evil", Some("test.com")));
    assert!(email_matches_domain("anything", None));
}

#[test]
fn pagination_and_pool() {
    assert_eq!(listing_range(Pagination { count: None, offset: None }), None);
    assert_eq!(
        listing_range(Pagination { count: Some(2), offset: None }),
        Some(RangeParams { start: None, end: None, count: Some(2), offset: None })
    );
    assert_eq!(PoolConfig::effective(None), PoolConfig { min_idle: 1, max_size: 1 });
    assert!(PoolConfig { min_idle: 5, max_size: 30 }.is_valid());
    assert!(!PoolConfig { min_idle: 0, max_size: 30 }.is_valid());
}

#[test]
fn restricted_manager_drops_secrets() {
    let m = Manager { id: 7, email: "a@b.c".to_string(), api_key: 9, admin: false, created_at: 0, updated_at: 0, salt: "s".to_string(), hash: vec![1] };
    let r = RestrictedManager::from(m);
    assert_eq!((r.id, r.email.as_str(), r.api_key), (7, "a@b.c", 9));
}

fn register_flow(
    c: &mut data_dictionary::catalog::Catalog,
    cfg: &DatasetConfig,
    authorization: Option<&str>,
    uploads: &mut Vec<String>,
) -> Result<data_dictionary::dict::Dataset, u16> {
    let exists = data_dictionary::dict::Dataset::find(c, &cfg.name).is_ok();
    let key = registration_gate(exists, authorization)?;
    let manager = Manager::find(c, key).map_err(|e| lookup_status(&e))?;
    uploads.push(cfg.name.clone());
    manager
        .register_dataset(c, &cfg.name, cfg.compression, cfg.format, cfg.classification, cfg.schema.clone(), &cfg.description, 1)
        .map_err(|_| 500)
}

#[test]
fn duplicate_registration_never_reaches_the_blob_store() {
    let mut c = data_dictionary::catalog::Catalog::new(0);
    let m = Manager::register(&mut c, "m@x.com", "pw12345678", None, 0).unwrap();
    let bearer = format!("Bearer {}", uuid::Uuid::from_u128(m.api_key));
    let cfg = DatasetConfig {
        name: "sales".to_string(),
        classification: Classification::Public,
        compression: Compression::Tar,
        format: Format::Json,
        description: "d".to_string(),
        schema: vec![],
    };
    let mut uploads = Vec::new();
    assert!(register_flow(&mut c, &cfg, Some(&bearer), &mut uploads).is_ok());
    assert_eq!(uploads.len(), 1);
    assert_eq!(register_flow(&mut c, &cfg, Some(&bearer), &mut uploads).err(), Some(409));
    assert_eq!(uploads.len(), 1);
    let other = DatasetConfig { name: "costs".to_string(), ..cfg.clone() };
    assert_eq!(register_flow(&mut c, &other, None, &mut uploads).err(), Some(401));
    let unknown = format!("Bearer {}", KEY);
    assert_eq!(register_flow(&mut c, &other, Some(&unknown), &mut uploads).err(), Some(404));
    assert_eq!(uploads.len(), 1);
}
