//! The catalog's records and the enumerated attributes of a dataset.
use vstd::prelude::*;
use crate::text::owned;

verus! {

/// A point in time, in microseconds since the Unix epoch (UTC).
pub type Timestamp = i64;

/// The reserved partition name that always designates a dataset's most recent partition.
pub const PARTITION_LATEST: &'static str = "latest";

/// Whether a partition name is the reserved `latest`.
pub fn is_reserved_partition_name(name: &str) -> (r: bool)
    ensures
        r == (name@ == PARTITION_LATEST@),
{
    crate::text::str_eq(name, PARTITION_LATEST)
}

/// The data format within a dataset's files.
#[derive(Debug, Clone, Copy, PartialEq, Eq, Structural)]
pub enum Format {
    PlainText,
    Json,
    NdJson,
    Csv,
    Tsv,
    Protobuf,
}

/// The compression applied to a dataset's files, if any.
#[derive(Debug, Clone, Copy, PartialEq, Eq, Structural)]
pub enum Compression {
    Uncompressed,
    Zip,
    Tar,
}

/// The level of protection that a dataset needs; it selects the bucket that holds it.
#[derive(Debug, Clone, Copy, PartialEq, Eq, Structural)]
pub enum Classification {
    Confidential,
    Sensitive,
    Private,
    Public,
}

pub open spec fn format_text(f: Format) -> Seq<char> {
    match f {
        Format::PlainText => "plaintext"@,
        Format::Json => "json"@,
        Format::NdJson => "ndjson"@,
        Format::Csv => "csv"@,
        Format::Tsv => "tsv"@,
        Format::Protobuf => "protobuf"@,
    }
}

pub open spec fn compression_text(c: Compression) -> Seq<char> {
    match c {
        Compression::Uncompressed => "uncompressed"@,
        Compression::Zip => "zip"@,
        Compression::Tar => "tar"@,
    }
}

pub open spec fn classification_text(c: Classification) -> Seq<char> {
    match c {
        Classification::Confidential => "confidential"@,
        Classification::Sensitive => "sensitive"@,
        Classification::Private => "private"@,
        Classification::Public => "public"@,
    }
}

impl Format {
    /// The lower-case name under which the format is stored and serialised.
    pub fn to_string(&self) -> (r: String)
        ensures
            r@ == format_text(*self),
    {
        match self {
            Format::PlainText => owned("plaintext"),
            Format::Json => owned("json"),
            Format::NdJson => owned("ndjson"),
            Format::Csv => owned("csv"),
            Format::Tsv => owned("tsv"),
            Format::Protobuf => owned("protobuf"),
        }
    }
}

impl Compression {
    /// The lower-case name under which the compression is stored and serialised.
    pub fn to_string(&self) -> (r: String)
        ensures
            r@ == compression_text(*self),
    {
        match self {
            Compression::Uncompressed => owned("uncompressed"),
            Compression::Zip => owned("zip"),
            Compression::Tar => owned("tar"),
        }
    }
}

impl Classification {
    /// The lower-case name under which the classification is stored and serialised.
    pub fn to_string(&self) -> (r: String)
        ensures
            r@ == classification_text(*self),
    {
        match self {
            Classification::Confidential => owned("confidential"),
            Classification::Sensitive => owned("sensitive"),
            Classification::Private => owned("private"),
            Classification::Public => owned("public"),
        }
    }
}

/// The file extension that files of a given kind carry.
pub trait FileExt {
    spec fn ext_spec(&self) -> Seq<char>;

    fn to_ext(&self) -> (r: &'static str)
        ensures
            r@ == self.ext_spec(),
    ;
}

impl FileExt for Format {
    open spec fn ext_spec(&self) -> Seq<char> {
        match self {
            Format::PlainText => "txt"@,
            Format::Json => "json"@,
            Format::NdJson => "ndjson"@,
            Format::Csv => "csv"@,
            Format::Tsv => "tsv"@,
            Format::Protobuf => "pb"@,
        }
    }

    fn to_ext(&self) -> (r: &'static str) {
        match self {
            Format::PlainText => "txt",
            Format::Json => "json",
            Format::NdJson => "ndjson",
            Format::Csv => "csv",
            Format::Tsv => "tsv",
            Format::Protobuf => "pb",
        }
    }
}

impl FileExt for Compression {
    open spec fn ext_spec(&self) -> Seq<char> {
        match self {
            Compression::Uncompressed => ""@,
            Compression::Tar => "tar.gz"@,
            Compression::Zip => "zip"@,
        }
    }

    fn to_ext(&self) -> (r: &'static str) {
        match self {
            Compression::Uncompressed => "",
            Compression::Tar => "tar.gz",
            Compression::Zip => "zip",
        }
    }
}

/// One column of a dataset's schema: its name and, optionally, the name of its type.
#[derive(Debug, Clone)]
pub struct SchemaColumn {
    pub name: String,
    pub column_type: Option<String>,
}

/// The "schema" of a dataset descriptor: column names with optional type names.
pub type DatasetSchema = Vec<SchemaColumn>;

/// The person or team responsible for one or many datasets.
#[derive(Debug, Clone)]
pub struct Manager {
    pub id: i32,
    pub email: String,
    /// The API key, a UUID in its 128-bit big-endian form.
    pub api_key: u128,
    pub admin: bool,
    pub created_at: Timestamp,
    pub updated_at: Timestamp,
    pub salt: String,
    pub hash: Vec<u8>,
}

/// A named collection of partitions, owned by one manager.
#[derive(Debug, Clone)]
pub struct Dataset {
    pub id: i32,
    pub manager_id: i32,
    pub name: String,
    pub classification: Classification,
    pub compression: Compression,
    pub format: Format,
    pub description: String,
    pub schema: DatasetSchema,
    pub created_at: Timestamp,
    pub updated_at: Timestamp,
}

/// The dataset descriptor, as stored in `<dataset>/dd.json`.
#[derive(Debug, Clone)]
pub struct DatasetConfig {
    pub name: String,
    pub classification: Classification,
    pub compression: Compression,
    pub format: Format,
    pub description: String,
    pub schema: DatasetSchema,
}

/// One addressable object under a dataset's prefix in the blob store.
#[derive(Debug, Clone)]
pub struct Partition {
    pub id: i32,
    pub name: String,
    pub url: String,
    pub size: i64,
    pub dataset_id: i32,
    pub created_at: Timestamp,
    pub updated_at: Timestamp,
}

/// Bounds on a range query: inclusive time bounds on `created_at`, a row offset and a row count.
#[derive(Debug, Default, Clone, Copy, PartialEq, Eq, Structural)]
pub struct RangeParams {
    pub start: Option<Timestamp>,
    pub end: Option<Timestamp>,
    pub offset: Option<i32>,
    pub count: Option<i32>,
}

} // verus!
