use jpaste::config::Config;
use jpaste::db::{Db, InMemoryDb};
use jpaste::handlers::{handle_get, handle_help, handle_post, process_post};

fn default_config() -> Config {
    Config::resolve(None, None, None, None)
}

fn multipart_body(boundary: &str, msg: &[u8]) -> Vec<u8> {
    let body_start = format!(
        "--{}\r\ncontent-disposition: form-data; name=\"j\"\r\n\r\n",
        boundary
    );
    let body_end = format!("\r\n--{}--\r\n", boundary);
    let mut body = body_start.into_bytes();
    body.extend_from_slice(msg);
    body.extend_from_slice(body_end.as_bytes());
    body
}

fn multipart_content_type(boundary: &str) -> Vec<u8> {
    format!("multipart/form-data; boundary={}", boundary).into_bytes()
}

#[test]
fn rejects_without_j() {
    let config = default_config();
    let mut db = InMemoryDb::init();
    let res = process_post(
        b"random content",
        b"multipart/form-data; boundary=yolo",
        None,
        &config,
        &mut db,
    );
    assert_eq!(res.status, 400, "Should include j= in body");
    assert_eq!(res.body.as_str(), "", "Don't be too verbose ;)");
}

#[test]
fn rejects_non_existing_ids() {
    let mut db = InMemoryDb::init();
    let res = handle_get("doesnt-exist", &mut db);
    assert_eq!(res.status, 404, "Non-existing GETs should 404");
    assert_eq!(
        res.body,
        Vec::<u8>::new(),
        "Body for non-existing GETs should be empty"
    );
}

fn insert_and_get(msg: &[u8]) {
    let config = default_config();
    let mut db = InMemoryDb::init();
    let boundary = "--boundary--";
    let body = multipart_body(boundary, msg);

    let res = process_post(
        &body,
        &multipart_content_type(boundary),
        Some(body.len()),
        &config,
        &mut db,
    );
    assert_eq!(res.status, 200, "Valid request");

    let url = res.body.as_str();
    assert!(
        url.starts_with("http://127.0.0.1/"),
        "Should return URL to content"
    );
    let id = url.strip_prefix("http://127.0.0.1/").unwrap().trim();
    assert_eq!(id.len(), 8, "Identifier should be 8 characters");

    let res = handle_get(id, &mut db);
    assert_eq!(res.status, 200, "Valid GET request");
    assert_eq!(
        res.body, msg,
        "GET request should return previously inserted content"
    );
}

#[test]
fn insert_and_get_string_content_again() {
    insert_and_get(b"my content");
}

#[test]
fn insert_and_get_byte_content_again() {
    insert_and_get(&[253, 254, 255]);
}

#[test]
fn test_help() {
    let config = default_config();
    let res = handle_help(&config);
    assert_eq!(res.status, 200, "GET to root should return help");
    let template = "       _                  __
      (_)___  ____ ______/ /____
     / / __ \\/ __ `/ ___/ __/ _ \\
    / / /_/ / /_/ (__  ) /_/  __/
 __/ / .___/\\__,_/____/\\__/\\___/
/___/_/

USAGE
  $ echo hi | curl -F 'j=<-' {}
  {}/ZnD9BBwj
  $ curl {}/ZnD9BBwj
  hi 
";
    assert_eq!(
        res.body.as_str(),
        template.replace("{}", "http://127.0.0.1").as_str(),
        "Should return help text"
    );
}

#[test]
fn empty_payload_is_a_client_error_and_never_stored() {
    let config = default_config();
    let mut db = InMemoryDb::init();
    let res = handle_post(Vec::new(), &config, &mut db);
    assert_eq!(res.status, 400);
    assert_eq!(res.body.as_str(), "");
    assert_eq!(db.len(), 0, "the backend was never reached");
}

#[test]
fn oversized_body_is_rejected_before_any_backend_call() {
    let config = default_config();
    let mut db = InMemoryDb::init();
    let id = db.set(b"kept".to_vec());
    assert_eq!(db.len(), 1);

    let body = vec![b'X'; jpaste::ingest::MAX_PAYLOAD + 1];
    let res = process_post(
        &body,
        &multipart_content_type("yolo"),
        Some(body.len()),
        &config,
        &mut db,
    );
    assert_eq!(res.status, 413);
    assert_eq!(res.body.as_str(), "");
    assert_eq!(db.len(), 1, "record count unchanged");
    let res = handle_get(&id, &mut db);
    assert_eq!(res.status, 200);
    assert_eq!(res.body, b"kept".to_vec());
}
