//! Wire framing tests: exact layouts, round trips, version rejection,
//! truncation, and encoding errors.

use froggi::request::Request;
use froggi::response::{Item, Response};
use froggi::ErrorKind;

#[test]
fn request_exact_bytes() {
    let request = Request::new("/").unwrap();
    assert_eq!(request.to_bytes(), vec![0x00, 0x01, 0x00, 0x2f]);
}

#[test]
fn request_round_trip() {
    for path in ["/", "", "/a/b/c", "unicode \u{00e9}\u{6f22}"] {
        let request = Request::new(path).unwrap();
        let bytes = request.to_bytes();
        let back = Request::from_bytes(&bytes).unwrap();
        assert_eq!(back.path(), path);
        assert_eq!(back.version(), 0);
    }
}

#[test]
fn request_too_long() {
    let path: String = "x".repeat(65536);
    let err = Request::new(&path).unwrap_err();
    assert!(matches!(err.kind(), ErrorKind::RequestFormatError));
}

#[test]
fn request_version_rejected() {
    let err = Request::from_bytes(&[0x01, 0x00, 0x00]).unwrap_err();
    assert!(matches!(err.kind(), ErrorKind::RequestFormatError));
}

#[test]
fn request_truncated() {
    let err = Request::from_bytes(&[0x00, 0x02, 0x00, 0x2f]).unwrap_err();
    assert!(matches!(err.kind(), ErrorKind::IOError));
    let err = Request::from_bytes(&[0x00]).unwrap_err();
    assert!(matches!(err.kind(), ErrorKind::IOError));
}

#[test]
fn request_bad_utf8() {
    let err = Request::from_bytes(&[0x00, 0x01, 0x00, 0xff]).unwrap_err();
    assert!(matches!(err.kind(), ErrorKind::EncodingError));
}

#[test]
fn empty_response_exact_bytes() {
    let response = Response::new("", Vec::new()).unwrap();
    let bytes = response.to_bytes();
    assert_eq!(
        bytes,
        vec![0x00, 0x06, 0x00, 0x00, 0x00, 0x00, 0x00, 0x00, 0x00, 0x00, 0x00]
    );
    let back = Response::from_bytes(&bytes).unwrap();
    assert_eq!(back, response);
}

#[test]
fn response_round_trip() {
    let items = vec![
        Item::new("a.png", vec![1, 2, 3]).unwrap(),
        Item::new("b", Vec::new()).unwrap(),
        Item::new("c.txt", vec![255, 0, 128]).unwrap(),
    ];
    let response = Response::new("hello page", items).unwrap();
    let bytes = response.to_bytes();
    let back = Response::from_bytes(&bytes).unwrap();
    assert_eq!(back, response);
    assert_eq!(back.items[0].name, b"a.png".to_vec());
    assert_eq!(back.items[0].payload, vec![1, 2, 3]);
    assert_eq!(back.page, b"hello page".to_vec());
}

#[test]
fn response_truncation() {
    let items = vec![Item::new("n", vec![9, 9]).unwrap()];
    let response = Response::new("page", items).unwrap();
    let mut bytes = response.to_bytes();
    bytes.pop();
    let err = Response::from_bytes(&bytes).unwrap_err();
    assert!(matches!(err.kind(), ErrorKind::IOError | ErrorKind::RequestFormatError));
}

#[test]
fn response_version_rejected() {
    let response = Response::new("", Vec::new()).unwrap();
    let mut bytes = response.to_bytes();
    bytes[0] = 7;
    let err = Response::from_bytes(&bytes).unwrap_err();
    assert!(matches!(err.kind(), ErrorKind::RequestFormatError));
}

#[test]
fn response_bad_page_utf8() {
    let bytes = vec![0x00, 0x07, 0x00, 0x00, 0x00, 0x00, 0x00, 0x01, 0x00, 0x00, 0x00, 0xff];
    let err = Response::from_bytes(&bytes).unwrap_err();
    assert!(matches!(err.kind(), ErrorKind::EncodingError));
}

#[test]
fn response_length_mismatch() {
    // The declared total is one byte larger than the declared contents.
    let bytes = vec![
        0x00, 0x07, 0x00, 0x00, 0x00, 0x00, 0x00, 0x00, 0x00, 0x00, 0x00, 0x00,
    ];
    let err = Response::from_bytes(&bytes).unwrap_err();
    assert!(matches!(err.kind(), ErrorKind::RequestFormatError));
}

#[test]
fn item_limits() {
    let long_name: String = "n".repeat(256);
    let err = Item::new(&long_name, Vec::new()).unwrap_err();
    assert!(matches!(err.kind(), ErrorKind::RequestFormatError));

    let ok_name: String = "n".repeat(255);
    assert!(Item::new(&ok_name, Vec::new()).is_ok());
}
