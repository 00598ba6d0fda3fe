use jpaste::config::Config;
use jpaste::db::InMemoryDb;
use jpaste::handlers::process_post;
use jpaste::ingest::{extract_boundary, ingest, BoundedAccumulator, IngestError, MAX_PAYLOAD};

fn default_config() -> Config {
    Config::resolve(None, None, None, None)
}

fn multipart_body(boundary: &str, name: &str, content: &[u8]) -> Vec<u8> {
    let start = format!(
        "--{}\r\ncontent-disposition: form-data; name=\"{}\"\r\n\r\n",
        boundary, name
    );
    let end = format!("\r\n--{}--\r\n", boundary);
    let mut body = start.into_bytes();
    body.extend_from_slice(content);
    body.extend_from_slice(end.as_bytes());
    body
}

fn multipart_content_type(boundary: &str) -> Vec<u8> {
    format!("multipart/form-data; boundary={}", boundary).into_bytes()
}

#[test]
fn rejects_invalid_post() {
    let config = default_config();
    let mut db = InMemoryDb::init();

    let payload = vec![b'X'; MAX_PAYLOAD + 1];
    let res = process_post(
        &payload,
        &multipart_content_type("boundary"),
        Some(payload.len()),
        &config,
        &mut db,
    );
    assert_eq!(res.status, 413, "Payload is too large");

    let res = process_post(b"hi", b"", None, &config, &mut db);
    assert_eq!(res.status, 400, "POSTs need a multipart form body");
}

#[test]
fn accepts_valid_post() {
    let config = default_config();
    let mut db = InMemoryDb::init();
    let boundary = "--boundary--";
    let body = multipart_body(boundary, "j", b"my value");
    let res = process_post(
        &body,
        &multipart_content_type(boundary),
        Some(body.len()),
        &config,
        &mut db,
    );
    assert_eq!(res.status, 200, "POSTs to / are allowed");
}

#[test]
fn ingest_returns_exact_field_bytes() {
    let boundary = "yolo";
    let body = multipart_body(boundary, "j", b"hi");
    let r = ingest(&body, &multipart_content_type(boundary), None);
    assert_eq!(r, Ok(b"hi".to_vec()));
}

#[test]
fn ingest_is_binary_safe() {
    let boundary = "yolo";
    let body = multipart_body(boundary, "j", &[253, 254, 255]);
    let r = ingest(&body, &multipart_content_type(boundary), None);
    assert_eq!(r, Ok(vec![253, 254, 255]));
}

#[test]
fn ingest_rejects_oversized_declared_length() {
    let boundary = "yolo";
    let body = multipart_body(boundary, "j", b"hi");
    let r = ingest(
        &body,
        &multipart_content_type(boundary),
        Some(MAX_PAYLOAD + 1),
    );
    assert_eq!(r, Err(IngestError::PayloadTooLarge));
}

#[test]
fn ingest_rejects_oversized_actual_body_without_declared_length() {
    let body = vec![b'X'; MAX_PAYLOAD + 1];
    let r = ingest(&body, &multipart_content_type("yolo"), None);
    assert_eq!(r, Err(IngestError::PayloadTooLarge));
}

#[test]
fn ingest_accepts_body_at_exactly_the_maximum() {
    // A body of exactly MAX_PAYLOAD bytes passes the size checks; it is not
    // decodable multipart content, so it yields the empty payload.
    let boundary = "yolo";
    let body = vec![b'X'; MAX_PAYLOAD];
    let r = ingest(&body, &multipart_content_type(boundary), Some(MAX_PAYLOAD));
    assert_eq!(r, Ok(Vec::new()));
}

#[test]
fn ingest_rejects_non_multipart_content_type() {
    let r = ingest(b"hi", b"text/plain", None);
    assert_eq!(r, Err(IngestError::MalformedBody));
    let r = ingest(b"hi", b"", None);
    assert_eq!(r, Err(IngestError::MalformedBody));
}

#[test]
fn ingest_rejects_multipart_without_boundary_parameter() {
    let r = ingest(b"hi", b"multipart/form-data", None);
    assert_eq!(r, Err(IngestError::MalformedBody));
}

#[test]
fn ingest_yields_empty_payload_for_undecodable_body() {
    let r = ingest(
        b"random content",
        &multipart_content_type("yolo"),
        None,
    );
    assert_eq!(r, Ok(Vec::new()));
}

#[test]
fn ingest_yields_empty_payload_for_field_other_than_j() {
    let boundary = "yolo";
    let body = multipart_body(boundary, "k", b"hi");
    let r = ingest(&body, &multipart_content_type(boundary), None);
    assert_eq!(r, Ok(Vec::new()));
}

#[test]
fn ingest_yields_empty_payload_for_unterminated_part() {
    let boundary = "yolo";
    let body = b"--yolo\r\ncontent-disposition: form-data; name=\"j\"\r\n\r\nhi";
    let r = ingest(body, &multipart_content_type(boundary), None);
    assert_eq!(r, Ok(Vec::new()));
}

#[test]
fn extract_boundary_reads_the_parameter() {
    let b = extract_boundary(b"multipart/form-data; boundary=yolo");
    assert_eq!(b, Some(b"yolo".to_vec()));
    assert_eq!(extract_boundary(b"text/plain"), None);
}

#[test]
fn accumulator_enforces_its_bound() {
    let mut acc = BoundedAccumulator::new(10);
    assert_eq!(acc.push_chunk(b"abcdef"), Ok(()));
    assert_eq!(acc.len(), 6);
    assert_eq!(
        acc.push_chunk(b"ghijk"),
        Err(IngestError::PayloadTooLarge),
        "a chunk past the bound is refused"
    );
    assert_eq!(acc.len(), 6, "a refused chunk leaves the buffer unchanged");
    assert_eq!(acc.push_chunk(b"ghij"), Ok(()));
    assert_eq!(acc.into_bytes(), b"abcdefghij".to_vec());
}

#[test]
fn accumulator_keeps_chunks_in_order() {
    let mut acc = BoundedAccumulator::new(MAX_PAYLOAD);
    acc.push_chunk(&[253]).unwrap();
    acc.push_chunk(&[254, 255]).unwrap();
    acc.push_chunk(&[]).unwrap();
    assert_eq!(acc.into_bytes(), vec![253, 254, 255]);
}
