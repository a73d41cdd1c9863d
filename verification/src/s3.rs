//! Uploads to S3-compatible object storage: the stored configuration, the
//! key an image is put under, and the address it is then found at. Sending
//! the request is the host's part.

use crate::error::{labelled, CommandError, ErrorKind};
use crate::types::{clone_optional_text, optional_text};
use vstd::prelude::*;

verus! {

/// The name of the file that keeps the configuration.
pub const S3_CONFIG_FILE: &'static str = "s3_config.json";

/// Where and as whom to upload.
#[derive(Debug, PartialEq, Eq)]
pub struct S3Config {
    pub bucket_name: String,
    pub region: String,
    pub access_key_id: String,
    pub secret_access_key: String,
    pub endpoint_url: Option<String>,
    pub path_prefix: Option<String>,
}

/// The mathematical value of an `S3Config`.
pub struct S3ConfigModel {
    pub bucket_name: Seq<char>,
    pub region: Seq<char>,
    pub access_key_id: Seq<char>,
    pub secret_access_key: Seq<char>,
    pub endpoint_url: Option<Seq<char>>,
    pub path_prefix: Option<Seq<char>>,
}

impl View for S3Config {
    type V = S3ConfigModel;

    open spec fn view(&self) -> S3ConfigModel {
        S3ConfigModel {
            bucket_name: self.bucket_name@,
            region: self.region@,
            access_key_id: self.access_key_id@,
            secret_access_key: self.secret_access_key@,
            endpoint_url: optional_text(self.endpoint_url),
            path_prefix: optional_text(self.path_prefix),
        }
    }
}

impl Clone for S3Config {
    fn clone(&self) -> (r: Self)
        ensures
            r@ == self@,
    {
        S3Config {
            bucket_name: self.bucket_name.clone(),
            region: self.region.clone(),
            access_key_id: self.access_key_id.clone(),
            secret_access_key: self.secret_access_key.clone(),
            endpoint_url: clone_optional_text(&self.endpoint_url),
            path_prefix: clone_optional_text(&self.path_prefix),
        }
    }
}

/// One object-put, ready to send, and the address to report once it
/// succeeded.
#[derive(Debug, PartialEq, Eq)]
pub struct UploadRequest {
    pub region: String,
    pub access_key_id: String,
    pub secret_access_key: String,
    pub endpoint_url: Option<String>,
    pub bucket: String,
    pub key: String,
    pub url: String,
}

/// The mathematical value of an `UploadRequest`.
pub struct UploadRequestModel {
    pub region: Seq<char>,
    pub access_key_id: Seq<char>,
    pub secret_access_key: Seq<char>,
    pub endpoint_url: Option<Seq<char>>,
    pub bucket: Seq<char>,
    pub key: Seq<char>,
    pub url: Seq<char>,
}

impl View for UploadRequest {
    type V = UploadRequestModel;

    open spec fn view(&self) -> UploadRequestModel {
        UploadRequestModel {
            region: self.region@,
            access_key_id: self.access_key_id@,
            secret_access_key: self.secret_access_key@,
            endpoint_url: optional_text(self.endpoint_url),
            bucket: self.bucket@,
            key: self.key@,
            url: self.url@,
        }
    }
}

impl Clone for UploadRequest {
    fn clone(&self) -> (r: Self)
        ensures
            r@ == self@,
    {
        UploadRequest {
            region: self.region.clone(),
            access_key_id: self.access_key_id.clone(),
            secret_access_key: self.secret_access_key.clone(),
            endpoint_url: clone_optional_text(&self.endpoint_url),
            bucket: self.bucket.clone(),
            key: self.key.clone(),
            url: self.url.clone(),
        }
    }
}

/// `text` without the slashes at its end.
pub open spec fn without_trailing_slashes(text: Seq<char>) -> Seq<char>
    decreases text.len(),
{
    if text.len() > 0 && text.last() == '/' {
        without_trailing_slashes(text.drop_last())
    } else {
        text
    }
}

/// The key of the object: the file name, under the prefix where one is
/// configured.
pub open spec fn object_key(prefix: Option<Seq<char>>, file_name: Seq<char>) -> Seq<char> {
    match prefix {
        Some(p) => without_trailing_slashes(p) + "/"@ + file_name,
        None => file_name,
    }
}

/// The address of the object: below the endpoint where one is configured,
/// else at the bucket's own host name.
pub open spec fn object_url(config: S3ConfigModel, key: Seq<char>) -> Seq<char> {
    match config.endpoint_url {
        Some(endpoint) => without_trailing_slashes(endpoint) + "/"@ + config.bucket_name + "/"@
            + key,
        None => "https://"@ + config.bucket_name + ".s3."@ + config.region + ".amazonaws.com/"@
            + key,
    }
}

/// The request that uploads `file_name` as `config` says.
pub open spec fn upload_request(config: S3ConfigModel, file_name: Seq<char>) -> UploadRequestModel {
    UploadRequestModel {
        region: config.region,
        access_key_id: config.access_key_id,
        secret_access_key: config.secret_access_key,
        endpoint_url: config.endpoint_url,
        bucket: config.bucket_name,
        key: object_key(config.path_prefix, file_name),
        url: object_url(config, object_key(config.path_prefix, file_name)),
    }
}

/// `text` without the slashes at its end.
pub fn trim_trailing_slashes(text: &str) -> (r: &str)
    ensures
        r@ == without_trailing_slashes(text@),
{
    let mut end: usize = text.unicode_len();
    assert(text@.subrange(0, end as int) =~= text@);
    while end > 0 && text.get_char(end - 1) == '/'
        invariant
            end <= text@.len(),
            without_trailing_slashes(text@) == without_trailing_slashes(
                text@.subrange(0, end as int),
            ),
        decreases end,
    {
        assert(text@.subrange(0, end as int).drop_last() =~= text@.subrange(0, end - 1));
        end -= 1;
    }
    text.substring_char(0, end)
}

/// The key of the object for `file_name` under the optional prefix.
pub fn make_object_key(prefix: &Option<String>, file_name: String) -> (r: String)
    ensures
        r@ == object_key(optional_text(*prefix), file_name@),
{
    match prefix {
        Some(p) => {
            let mut key = trim_trailing_slashes(p.as_str()).to_owned();
            key.append("/");
            key.append(file_name.as_str());
            key
        },
        None => file_name,
    }
}

/// The address at which the object `key` is found.
pub fn make_object_url(config: &S3Config, key: &str) -> (r: String)
    ensures
        r@ == object_url(config@, key@),
{
    match &config.endpoint_url {
        Some(endpoint) => {
            let mut url = trim_trailing_slashes(endpoint.as_str()).to_owned();
            url.append("/");
            url.append(config.bucket_name.as_str());
            url.append("/");
            url.append(key);
            url
        },
        None => {
            let mut url = "https://".to_owned();
            url.append(config.bucket_name.as_str());
            url.append(".s3.");
            url.append(config.region.as_str());
            url.append(".amazonaws.com/");
            url.append(key);
            url
        },
    }
}

/// What an upload reports when no configuration is stored.
pub open spec fn missing_config_failure(error: CommandError) -> bool {
    &&& error.kind == ErrorKind::ConfigMissing
    &&& error.message@ == "S3 configuration not found. Please configure S3 settings first."@
}

/// Prepares the upload of the image `file_name`. With no configuration
/// stored it fails, and nothing is to be sent; with one it gives the request
/// to send.
pub fn upload_image_to_s3(config: Option<S3Config>, file_name: String) -> (r: Result<
    UploadRequest,
    CommandError,
>)
    ensures
        match (config, r) {
            (None, Err(error)) => missing_config_failure(error),
            (Some(c), Ok(request)) => request@ == upload_request(c@, file_name@),
            _ => false,
        },
{
    match config {
        None => Err(
            CommandError::new(
                ErrorKind::ConfigMissing,
                "S3 configuration not found. Please configure S3 settings first.",
            ),
        ),
        Some(c) => {
            let key = make_object_key(&c.path_prefix, file_name);
            let url = make_object_url(&c, key.as_str());
            Ok(
                UploadRequest {
                    region: c.region,
                    access_key_id: c.access_key_id,
                    secret_access_key: c.secret_access_key,
                    endpoint_url: c.endpoint_url,
                    bucket: c.bucket_name,
                    key,
                    url,
                },
            )
        },
    }
}

/// What an upload reports when the storage failed, with the storage's own
/// words.
pub open spec fn remote_failure(error: CommandError, detail: Seq<char>) -> bool {
    &&& error.kind == ErrorKind::Remote
    &&& error.message@ == labelled("Failed to upload to S3"@, detail)
}

/// The reply to the front end once the request was sent: the address of the
/// object where the storage accepted it, else the failure.
pub fn upload_reply(request: UploadRequest, sent: Result<(), String>) -> (r: Result<
    String,
    CommandError,
>)
    ensures
        match (sent, r) {
            (Ok(_), Ok(url)) => url@ == request.url@,
            (Err(detail), Err(error)) => remote_failure(error, detail@),
            _ => false,
        },
{
    match sent {
        Ok(_) => Ok(request.url),
        Err(detail) => Err(
            CommandError::with_detail(
                ErrorKind::Remote,
                "Failed to upload to S3",
                detail.as_str(),
            ),
        ),
    }
}

} // verus!
