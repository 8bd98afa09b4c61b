//! Where a dataset's descriptor is uploaded, and what the blob store's answer means.
use vstd::prelude::*;
use vstd::string::*;
use crate::dict::{Classification, DatasetConfig};
use crate::error::Error;
use crate::path::FILENAME_DD_JSON;
use crate::text::{decimal_text, owned, push_all, push_decimal};

verus! {

/// The blob store's endpoint and the bucket of each classification.
#[derive(Debug, Clone)]
pub struct BucketManager {
    pub service_endpoint: String,
    pub bucket_name_private: String,
    pub bucket_name_public: String,
    /// The bucket of sensitive datasets.
    pub bucket_name_restricted: String,
    pub bucket_name_confidential: String,
}

impl BucketManager {
    pub open spec fn bucket_of(&self, c: Classification) -> Seq<char> {
        match c {
            Classification::Private => self.bucket_name_private@,
            Classification::Public => self.bucket_name_public@,
            Classification::Sensitive => self.bucket_name_restricted@,
            Classification::Confidential => self.bucket_name_confidential@,
        }
    }

    /// The bucket that holds datasets of a classification.
    pub fn bucket_for(&self, c: Classification) -> (r: &String)
        ensures
            r@ == self.bucket_of(c),
    {
        match c {
            Classification::Private => &self.bucket_name_private,
            Classification::Public => &self.bucket_name_public,
            Classification::Sensitive => &self.bucket_name_restricted,
            Classification::Confidential => &self.bucket_name_confidential,
        }
    }

    pub open spec fn upload_url_of(&self, config: DatasetConfig) -> Seq<char> {
        self.service_endpoint@ + "/upload/storage/v1/b/"@ + self.bucket_of(config.classification)
            + "/o?uploadType=media&name="@ + config.name@ + "/"@ + FILENAME_DD_JSON@
    }

    /// The URL that uploads the dataset's descriptor, `<dataset>/dd.json`, to the bucket of its
    /// classification.
    pub fn upload_url(&self, config: &DatasetConfig) -> (r: String)
        ensures
            r@ == self.upload_url_of(*config),
    {
        let mut url = self.service_endpoint.clone();
        push_all(&mut url, "/upload/storage/v1/b/");
        push_all(&mut url, self.bucket_for(config.classification).as_str());
        push_all(&mut url, "/o?uploadType=media&name=");
        push_all(&mut url, config.name.as_str());
        push_all(&mut url, "/");
        push_all(&mut url, FILENAME_DD_JSON);
        url
    }
}

pub open spec fn upload_error_text(status: u16) -> Seq<char> {
    if status == 404 {
        "storage endpoint missing, status code: "@ + decimal_text(status as nat)
    } else {
        "failed to access bucket, status code: "@ + decimal_text(status as nat)
    }
}

/// What the blob store's status to an upload means: 200 is success, 403 refused credentials,
/// 404 a missing endpoint, and anything else an HTTP failure; an HTTP failure names the status.
pub fn upload_result(status: u16) -> (r: Result<(), Error>)
    ensures
        status == 200 ==> r is Ok,
        status == 403 ==> (r matches Err(Error::Auth(_))),
        status != 200 && status != 403 ==> (r matches Err(Error::Http(m)) && m@ == upload_error_text(
            status,
        )),
{
    if status == 200 {
        Ok(())
    } else if status == 403 {
        Err(Error::Auth(owned("forbidden: invalid credentials for the bucket manager")))
    } else {
        let mut m = if status == 404 {
            owned("storage endpoint missing, status code: ")
        } else {
            owned("failed to access bucket, status code: ")
        };
        push_decimal(&mut m, status as u64);
        Err(Error::Http(m))
    }
}

/// The notification source's subscription settings.
#[derive(Debug, Clone)]
pub struct Subscriber {
    pub name: String,
    pub project_id: String,
    pub topic: String,
    pub service_endpoint: String,
    pub max_messages: usize,
}

impl Subscriber {
    /// `projects/<project>/topics/<topic>`.
    pub fn topic(&self) -> (r: String)
        ensures
            r@ == "projects/"@ + self.project_id@ + "/topics/"@ + self.topic@,
    {
        let mut s = owned("projects/");
        push_all(&mut s, self.project_id.as_str());
        push_all(&mut s, "/topics/");
        push_all(&mut s, self.topic.as_str());
        s
    }

    /// `projects/<project>/subscriptions/<name>`.
    pub fn name(&self) -> (r: String)
        ensures
            r@ == "projects/"@ + self.project_id@ + "/subscriptions/"@ + self.name@,
    {
        let mut s = owned("projects/");
        push_all(&mut s, self.project_id.as_str());
        push_all(&mut s, "/subscriptions/");
        push_all(&mut s, self.name.as_str());
        s
    }

    /// `<endpoint>/v1/<subscription><suffix>`: the subscription's URL with `""`, `":pull"` or
    /// `":acknowledge"`.
    pub fn url(&self, suffix: &str) -> (r: String)
        ensures
            r@ == self.service_endpoint@ + "/v1/"@ + "projects/"@ + self.project_id@
                + "/subscriptions/"@ + self.name@ + suffix@,
    {
        let mut s = self.service_endpoint.clone();
        push_all(&mut s, "/v1/");
        let n = self.name();
        push_all(&mut s, n.as_str());
        push_all(&mut s, suffix);
        s
    }
}

/// What the source's status to a subscription request means: 200 and 409 (it exists) are
/// success, 404 means the topic does not exist, anything else is a failure.
pub fn subscribe_result(status: u16) -> (r: Result<(), Error>)
    ensures
        status == 200 || status == 409 <==> r is Ok,
        !(status == 200 || status == 409) ==> (r matches Err(Error::Http(_))),
{
    if status == 200 || status == 409 {
        Ok(())
    } else if status == 404 {
        Err(Error::Http(owned("pubsub subscription failed, topic does not exist")))
    } else {
        Err(Error::Http(owned("pubsub subscription failed, unexpected response")))
    }
}

} // verus!
