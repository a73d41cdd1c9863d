use editor_backend::s3::{make_object_key, make_object_url, trim_trailing_slashes};
use editor_backend::{upload_image_to_s3, upload_reply, ErrorKind, S3Config, UploadRequest};

fn config(endpoint_url: Option<&str>, path_prefix: Option<&str>) -> S3Config {
    S3Config {
        bucket_name: "notes".to_string(),
        region: "eu-west-1".to_string(),
        access_key_id: "AKIA".to_string(),
        secret_access_key: "SECRET".to_string(),
        endpoint_url: endpoint_url.map(|s| s.to_string()),
        path_prefix: path_prefix.map(|s| s.to_string()),
    }
}

#[test]
fn trailing_slashes_are_trimmed() {
    assert_eq!(trim_trailing_slashes("images/"), "images");
    assert_eq!(trim_trailing_slashes("images///"), "images");
    assert_eq!(trim_trailing_slashes("a/b"), "a/b");
    assert_eq!(trim_trailing_slashes("/a/"), "/a");
    assert_eq!(trim_trailing_slashes("///"), "");
    assert_eq!(trim_trailing_slashes(""), "");
    assert_eq!(trim_trailing_slashes("é/"), "é");
}

#[test]
fn object_key_goes_under_the_prefix() {
    assert_eq!(make_object_key(&None, "a.png".to_string()), "a.png");
    assert_eq!(make_object_key(&Some("img".to_string()), "a.png".to_string()), "img/a.png");
    assert_eq!(make_object_key(&Some("img/".to_string()), "a.png".to_string()), "img/a.png");
    assert_eq!(
        make_object_key(&Some("x/y//".to_string()), "a.png".to_string()),
        "x/y/a.png"
    );
    assert_eq!(make_object_key(&Some(String::new()), "a.png".to_string()), "/a.png");
}

#[test]
fn object_url_at_the_bucket_host() {
    assert_eq!(
        make_object_url(&config(None, None), "img/a.png"),
        "https://notes.s3.eu-west-1.amazonaws.com/img/a.png"
    );
}

#[test]
fn object_url_below_a_custom_endpoint() {
    assert_eq!(
        make_object_url(&config(Some("http://localhost:9000"), None), "a.png"),
        "http://localhost:9000/notes/a.png"
    );
    assert_eq!(
        make_object_url(&config(Some("http://localhost:9000//"), None), "a.png"),
        "http://localhost:9000/notes/a.png"
    );
}

#[test]
fn upload_without_a_config_fails() {
    let error = upload_image_to_s3(None, "a.png".to_string()).unwrap_err();
    assert_eq!(error.kind, ErrorKind::ConfigMissing);
    assert_eq!(
        error.message,
        "S3 configuration not found. Please configure S3 settings first."
    );
}

#[test]
fn upload_request_carries_the_config() {
    let request =
        upload_image_to_s3(Some(config(None, Some("img/"))), "a.png".to_string()).unwrap();
    assert_eq!(
        request,
        UploadRequest {
            region: "eu-west-1".to_string(),
            access_key_id: "AKIA".to_string(),
            secret_access_key: "SECRET".to_string(),
            endpoint_url: None,
            bucket: "notes".to_string(),
            key: "img/a.png".to_string(),
            url: "https://notes.s3.eu-west-1.amazonaws.com/img/a.png".to_string(),
        }
    );
    let request = upload_image_to_s3(
        Some(config(Some("https://minio.example/"), None)),
        "a.png".to_string(),
    )
    .unwrap();
    assert_eq!(request.endpoint_url, Some("https://minio.example/".to_string()));
    assert_eq!(request.key, "a.png");
    assert_eq!(request.url, "https://minio.example/notes/a.png");
}

#[test]
fn upload_reply_is_the_address_or_the_failure() {
    let request =
        upload_image_to_s3(Some(config(None, None)), "a.png".to_string()).unwrap();
    assert_eq!(
        upload_reply(request.clone(), Ok(())),
        Ok("https://notes.s3.eu-west-1.amazonaws.com/a.png".to_string())
    );
    let error = upload_reply(request, Err("access denied".to_string())).unwrap_err();
    assert_eq!(error.kind, ErrorKind::Remote);
    assert_eq!(error.message, "Failed to upload to S3: access denied");
}

#[test]
fn config_clone_is_equal() {
    let initial = config(Some("http://e"), Some("p"));
    assert_eq!(initial.clone(), initial);
}
