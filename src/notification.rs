//! Storage-change notifications as the ingest loop receives them.
use vstd::prelude::*;
use crate::dict::Timestamp;

verus! {

/// The kind of change that a notification reports.
#[derive(Debug, Clone, Copy, PartialEq, Eq, Structural)]
pub enum Event {
    ObjectFinalize,
    ObjectMetadataUpdate,
    ObjectDelete,
    ObjectArchive,
}

/// The format of a notification's payload.
#[derive(Debug, Clone, Copy, PartialEq, Eq, Structural)]
pub enum PayloadFormat {
    JsonApiV1,
    /// No payload is sent.
    NoPayload,
}

/// The typed attributes of a notification.
#[derive(Debug, Clone)]
pub struct Attributes {
    pub notification_config: String,
    pub event_type: Event,
    pub event_time: Timestamp,
    pub payload_format: PayloadFormat,
    pub bucket_id: String,
    pub object_id: String,
    pub object_generation: String,
    /// Present on a delete that an overwrite of the object caused.
    pub overwritten_by_generation: Option<String>,
    pub overwrote_generation: Option<String>,
}

/// One entry of an object's access control list.
#[derive(Debug, Clone)]
pub struct ObjectAccessControls {
    pub kind: String,
    pub id: String,
    pub self_link: String,
    pub bucket: String,
    pub object: String,
    pub generation: String,
    pub entity: String,
    pub role: String,
    pub email: String,
    pub entity_id: String,
    pub domain: String,
    pub project_team: ProjectTeam,
    pub etag: String,
}

#[derive(Debug, Clone)]
pub struct ProjectTeam {
    pub project_number: String,
    pub team: String,
}

#[derive(Debug, Clone)]
pub struct ObjectOwner {
    pub entity: String,
    pub entity_id: String,
}

#[derive(Debug, Clone)]
pub struct CustomerEncryption {
    pub encryption_algorithm: String,
    pub key_sha256: String,
}

/// The storage-object descriptor that a notification carries. The ingest loop reads `name`,
/// `self_link` and `size`; the other fields are carried as they came.
#[derive(Debug, Clone)]
pub struct Payload {
    pub kind: String,
    pub id: String,
    pub self_link: String,
    pub name: String,
    pub bucket: String,
    pub generation: String,
    pub metageneration: String,
    pub content_type: String,
    pub time_created: Timestamp,
    pub updated: Timestamp,
    pub time_deleted: Option<Timestamp>,
    pub temporary_hold: Option<bool>,
    pub event_based_hold: Option<bool>,
    pub retention_expiration_time: Option<Timestamp>,
    pub storage_class: String,
    pub time_storage_class_updated: Timestamp,
    /// The object's size in bytes, in decimal.
    pub size: String,
    pub md5_hash: String,
    pub media_link: String,
    pub content_encoding: Option<String>,
    pub content_disposition: Option<String>,
    pub content_language: Option<String>,
    pub cache_control: Option<String>,
    /// The object's custom metadata, the entries of a JSON object and so with distinct keys. The
    /// catalog never reads it; it is carried as it came.
    pub metadata: Option<Vec<(String, String)>>,
    pub acl: Option<Vec<ObjectAccessControls>>,
    pub owner: Option<ObjectOwner>,
    pub crc32c: Option<String>,
    pub component_count: Option<usize>,
    pub etag: Option<String>,
    pub customer_encryption: Option<CustomerEncryption>,
    pub kms_key_name: Option<String>,
}

/// A notification with its payload decoded, or `None` where the payload could not be decoded.
#[derive(Debug, Clone)]
pub struct Notification {
    pub attributes: Attributes,
    pub payload: Option<Payload>,
}

/// A message of the notification source, with its undecoded payload.
#[derive(Debug, Clone)]
pub struct PubsubMessage {
    /// The payload, base64-encoded JSON.
    pub data: String,
    pub attributes: Attributes,
    pub message_id: String,
    pub publish_time: Timestamp,
}

/// A pulled message and the id that acknowledges it.
#[derive(Debug, Clone)]
pub struct Message {
    pub ack_id: String,
    pub message: PubsubMessage,
}

/// The answer to a pull.
#[derive(Debug, Clone)]
pub struct PullResponse {
    pub received_messages: Option<Vec<Message>>,
}

} // verus!
