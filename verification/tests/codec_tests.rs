use shelves::client::{Body, RequestError};
use shelves::codec::{header_line, recv_response, send_get, RecvStep};
use shelves::url::Url;

fn recv(bytes: &[u8]) -> RecvStep {
    recv_response(bytes)
}

#[test]
fn request_text_is_exact() {
    let u = Url::new("http://example.com/index.html".to_string()).unwrap();
    let req = send_get(&u);
    assert_eq!(
        req,
        "GET /index.html HTTP/1.1\r\nHost: example.com\r\nUser-Agent: shelves\r\n\r\n"
    );
}

#[test]
fn header_line_is_exact() {
    assert_eq!(header_line("Host", "example.com"), "Host: example.com\r\n");
}

#[test]
fn parses_a_complete_response() {
    let step = recv(b"HTTP/1.1 200 OK\r\nContent-Length: 5\r\n\r\nhello");
    match step {
        RecvStep::Done { response, used } => {
            assert_eq!(response.status_code, 200);
            assert_eq!(used, b"HTTP/1.1 200 OK\r\nContent-Length: 5\r\n\r\nhello".len());
            match response.body {
                Body::Bytes(b) => assert_eq!(b, b"hello".to_vec()),
                Body::Text(_) => panic!("wire bodies are bytes"),
            }
            assert_eq!(response.headers.get("Content-Length").unwrap(), "5");
        }
        _ => panic!("expected a complete response"),
    }
}

#[test]
fn trailing_bytes_stay_unconsumed() {
    let input = b"HTTP/1.1 200 OK\r\nContent-Length: 5\r\n\r\nhelloEXTRA";
    let step = recv(input);
    match step {
        RecvStep::Done { response, used } => {
            match response.body {
                Body::Bytes(b) => assert_eq!(b, b"hello".to_vec()),
                Body::Text(_) => panic!("wire bodies are bytes"),
            }
            assert_eq!(used, input.len() - b"EXTRA".len());
        }
        _ => panic!("expected a complete response"),
    }
}

#[test]
fn missing_content_length_fails_instead_of_waiting() {
    let step = recv(b"HTTP/1.1 200 OK\r\nServer: x\r\n\r\nwhatever");
    match step {
        RecvStep::Failed(e) => assert_eq!(e, RequestError::MissingContentLength),
        _ => panic!("expected MissingContentLength"),
    }
}

#[test]
fn missing_content_length_fails_even_with_empty_tail() {
    let step = recv(b"HTTP/1.1 204 No Content\r\n\r\n");
    match step {
        RecvStep::Failed(e) => assert_eq!(e, RequestError::MissingContentLength),
        _ => panic!("expected MissingContentLength"),
    }
}

#[test]
fn incomplete_status_line_needs_more() {
    assert!(matches!(recv(b"HTTP/1.1 200 OK"), RecvStep::NeedMore));
}

#[test]
fn incomplete_headers_need_more() {
    assert!(matches!(
        recv(b"HTTP/1.1 200 OK\r\nContent-Length: 5\r\n"),
        RecvStep::NeedMore
    ));
}

#[test]
fn short_body_needs_more() {
    assert!(matches!(
        recv(b"HTTP/1.1 200 OK\r\nContent-Length: 5\r\n\r\nhel"),
        RecvStep::NeedMore
    ));
}

#[test]
fn non_numeric_status_code_names_itself() {
    let step = recv(b"HTTP/1.1 abc OK\r\n\r\n");
    match step {
        RecvStep::Failed(e) => {
            assert_eq!(e, RequestError::InvalidStatusCode("abc".to_string()))
        }
        _ => panic!("expected InvalidStatusCode"),
    }
}

#[test]
fn status_line_without_two_spaces_is_bad_http() {
    let step = recv(b"HTTP/1.1 200\r\n\r\n");
    match step {
        RecvStep::Failed(e) => assert_eq!(e, RequestError::BadHTTP),
        _ => panic!("expected BadHTTP"),
    }
}

#[test]
fn header_without_separator_is_bad_http() {
    let step = recv(b"HTTP/1.1 200 OK\r\nBadHeader\r\n\r\n");
    match step {
        RecvStep::Failed(e) => assert_eq!(e, RequestError::BadHTTP),
        _ => panic!("expected BadHTTP"),
    }
}

#[test]
fn declared_transfer_encoding_is_refused() {
    let step = recv(b"HTTP/1.1 200 OK\r\ntransfer-encoding: chunked\r\n\r\n");
    match step {
        RecvStep::Failed(e) => assert_eq!(e, RequestError::UnsupportedEncoding),
        _ => panic!("expected UnsupportedEncoding"),
    }
}

#[test]
fn declared_content_encoding_is_refused() {
    let step = recv(b"HTTP/1.1 200 OK\r\ncontent-encoding: gzip\r\n\r\n");
    match step {
        RecvStep::Failed(e) => assert_eq!(e, RequestError::UnsupportedEncoding),
        _ => panic!("expected UnsupportedEncoding"),
    }
}

#[test]
fn repeated_header_keeps_the_last_value() {
    let step = recv(b"HTTP/1.1 200 OK\r\nX-A: one\r\nX-A: two\r\nContent-Length: 0\r\n\r\n");
    match step {
        RecvStep::Done { response, .. } => {
            assert_eq!(response.headers.get("X-A").unwrap(), "two");
            assert_eq!(response.headers.len(), 2);
        }
        _ => panic!("expected a complete response"),
    }
}

#[test]
fn header_values_are_trimmed() {
    let step = recv(b"HTTP/1.1 301 Moved\r\nLocation: /new\r\nContent-Length: 0\r\n\r\n");
    match step {
        RecvStep::Done { response, .. } => {
            assert_eq!(response.headers.get("Location").unwrap(), "/new");
            assert_eq!(response.status_code, 301);
        }
        _ => panic!("expected a complete response"),
    }
}

#[test]
fn bad_content_length_is_bad_http() {
    let step = recv(b"HTTP/1.1 200 OK\r\nContent-Length: five\r\n\r\n");
    match step {
        RecvStep::Failed(e) => assert_eq!(e, RequestError::BadHTTP),
        _ => panic!("expected BadHTTP"),
    }
}

#[test]
fn leftover_bytes_form_the_next_response() {
    let input: Vec<u8> =
        b"HTTP/1.1 200 OK\r\nContent-Length: 2\r\n\r\nokHTTP/1.1 404 NF\r\nContent-Length: 0\r\n\r\n"
            .to_vec();
    let used = match recv(&input) {
        RecvStep::Done { response, used } => {
            assert_eq!(response.status_code, 200);
            match response.body {
                Body::Bytes(b) => assert_eq!(b, b"ok".to_vec()),
                Body::Text(_) => panic!("wire bodies are bytes"),
            }
            used
        }
        _ => panic!("expected the first response to complete"),
    };
    match recv(&input[used..]) {
        RecvStep::Done { response, used } => {
            assert_eq!(response.status_code, 404);
            assert_eq!(used, b"HTTP/1.1 404 NF\r\nContent-Length: 0\r\n\r\n".len());
        }
        _ => panic!("expected the second response to complete"),
    }
}

#[test]
fn body_as_str_decodes_utf8() {
    let body = Body::Bytes("héllo".as_bytes().to_vec());
    assert_eq!(body.as_str().unwrap(), "héllo");
}

#[test]
fn body_as_str_rejects_invalid_utf8() {
    let body = Body::Bytes(vec![0xff, 0xfe]);
    assert!(body.as_str().is_err());
}

#[test]
fn body_as_str_passes_text_through() {
    let body = Body::Text("plain".to_string());
    assert_eq!(body.as_str().unwrap(), "plain");
}
