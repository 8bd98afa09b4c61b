use data_dictionary::credentials::{rand, CHARACTER_SET};
use data_dictionary::dict::{Classification, Compression, FileExt, Format};
use data_dictionary::path::{dataset_name, partition_name};
use data_dictionary::range_query::dec_placeholders;

#[test]
fn test_rand() {
    let mut last = String::new();
    for _ in 0..200 {
        let current = rand(32, CHARACTER_SET.to_string());
        assert!(current.len() == 32);
        assert!(last != current);
        last = current;
    }
}

#[test]
fn rand_draws_only_from_the_alphabet() {
    let s = rand(64, "ab".to_string());
    assert_eq!(s.chars().count(), 64);
    assert!(s.chars().all(|c| c == 'a' || c == 'b'));
}

#[test]
fn test_display_encoding() {
    assert_eq!("plaintext", Format::PlainText.to_string());
    assert_eq!("json", Format::Json.to_string());
    assert_eq!("ndjson", Format::NdJson.to_string());
    assert_eq!("csv", Format::Csv.to_string());
    assert_eq!("tsv", Format::Tsv.to_string());
    assert_eq!("protobuf", Format::Protobuf.to_string());
}

#[test]
fn test_display_compression() {
    assert_eq!("uncompressed", Compression::Uncompressed.to_string());
    assert_eq!("zip", Compression::Zip.to_string());
    assert_eq!("tar", Compression::Tar.to_string());
}

#[test]
fn test_display_classification() {
    assert_eq!("confidential", Classification::Confidential.to_string());
    assert_eq!("sensitive", Classification::Sensitive.to_string());
    assert_eq!("private", Classification::Private.to_string());
    assert_eq!("public", Classification::Public.to_string());
}

#[test]
fn file_extensions() {
    assert_eq!(Format::Protobuf.to_ext(), "pb");
    assert_eq!(Format::PlainText.to_ext(), "txt");
    assert_eq!(Compression::Tar.to_ext(), "tar.gz");
    assert_eq!(Compression::Uncompressed.to_ext(), "");
}

#[test]
fn test_dec_placeholders() {
    let cases = &[
        (
            "AND created_at BETWEEN $2::TIMESTAMPTZ AND $3::TIMESTAMPTZ ORDER BY created_at ASC OFFSET $4::INTEGER LIMIT $5::INTEGER",
            "AND created_at BETWEEN $1::TIMESTAMPTZ AND $2::TIMESTAMPTZ ORDER BY created_at ASC OFFSET $3::INTEGER LIMIT $4::INTEGER",
        ),
        (
            "AND created_at >= $2 OFFSET $3::INTEGER ORDER BY created_at ASC LIMIT $4::INTEGER",
            "AND created_at >= $1 OFFSET $2::INTEGER ORDER BY created_at ASC LIMIT $3::INTEGER",
        ),
        (
            "OFFSET $2::INTEGER ORDER BY created_at ASC LIMIT $3::INTEGER",
            "OFFSET $1::INTEGER ORDER BY created_at ASC LIMIT $2::INTEGER",
        ),
        (
            "AND created_at <= $2::TIMESTAMPTZ ORDER BY created_at ASC",
            "AND created_at <= $1::TIMESTAMPTZ ORDER BY created_at ASC",
        ),
    ];

    for case in cases {
        assert_eq!(String::from(case.1), dec_placeholders(case.0));
    }
}

#[test]
fn test_dataset_partition_name() {
    let paths = &[
        ("example_dataset", "2020/03/25/some_partition.pb.tar.gz"),
        ("o7hrlkjbasd", "___pattern-1/23456/some_partition.pb.tar.gz"),
        ("w", "1_1__1___1_____1---3343-:some_partition.pb.tar.gz"),
        ("__r34-d--de-fsine3", "s"),
    ];
    for dataset_partition in paths {
        let test_dataset_name = dataset_partition.0;
        let test_partition_name = dataset_partition.1;
        let path = format!("{}/{}", test_dataset_name, test_partition_name);
        assert_eq!(dataset_name(&path).unwrap() as String, String::from(test_dataset_name));
        assert_eq!(
            partition_name(&path).unwrap().unwrap() as String,
            String::from(test_partition_name)
        );
        assert_eq!(partition_name(test_dataset_name).unwrap(), None);
    }
}

#[test]
fn descriptor_path_names_no_partition() {
    assert_eq!(partition_name("sales/dd.json").unwrap(), None);
    assert_eq!(partition_name("sales/").unwrap(), None);
    assert_eq!(partition_name("sales/2024/dd.json").unwrap(), Some("2024/dd.json".to_string()));
}

#[test]
fn path_without_components_is_refused() {
    assert!(matches!(dataset_name(""), Err(data_dictionary::error::Error::InputValidation(_))));
    assert!(matches!(partition_name("/x"), Err(data_dictionary::error::Error::InputValidation(_))));
}
