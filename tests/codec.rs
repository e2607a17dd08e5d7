use sunflower::codec::{body_length, header_texts, parse_usize, Http};
use sunflower::error::MioError;
use sunflower::request::Method;
use sunflower::response::{Response, StatusCode};
use sunflower::router::{normalize_path, Plan, Router};
use sunflower::stream_data::StreamData;

fn http_with(bytes: &[u8]) -> Http {
    Http::new(StreamData::new(bytes.to_vec(), Vec::new()))
}

fn encoded(resp: &Response) -> Vec<u8> {
    let mut http = http_with(b"");
    http.encode_with_date(resp, "Thu, 01 Jan 1970 00:00:00 GMT");
    http.into_inner().writer
}

#[test]
fn get_without_routes_answers_404() {
    let mut http = http_with(b"GET / HTTP/1.1\r\nHost: x\r\n\r\n");
    let decoded = http.decode();
    let router = Router::new();
    match router.dispatch(decoded) {
        Plan::Reply(resp) => {
            assert_eq!(resp.status_code.0, 404);
            http.encode(resp);
        }
        Plan::Route(..) => panic!("no route was registered"),
    }
    let out = http.into_inner().writer;
    assert!(out.starts_with(b"HTTP/1.1 404"));
    assert!(out.ends_with(b"\r\n\r\nNot Found"));
}

#[test]
fn get_with_route_answers_200_with_route_output() {
    let mut http = http_with(b"GET / HTTP/1.1\r\nHost: x\r\n\r\n");
    let decoded = http.decode();
    let mut router = Router::new();
    let idx = router.add(Method::Get, "/".to_string());
    match router.dispatch(decoded) {
        Plan::Route(i, req) => {
            assert_eq!(i, idx);
            assert_eq!(req.path(), "/");
            let mut resp = Response::empty(200);
            resp.from_text("root here");
            http.encode(resp);
        }
        Plan::Reply(_) => panic!("the route should match"),
    }
    let out = http.into_inner().writer;
    assert!(out.starts_with(b"HTTP/1.1 200 OK\r\n"));
    assert!(out.ends_with(b"\r\n\r\nroot here"));
}

#[test]
fn declared_length_longer_than_buffer_is_incomplete() {
    let mut bytes = b"POST /up HTTP/1.1\r\nContent-Length: 100\r\n\r\n".to_vec();
    bytes.extend_from_slice(&[7u8; 10]);
    let mut http = http_with(&bytes);
    let decoded = http.decode();
    assert!(matches!(decoded, Ok(None)));
    assert_eq!(http.stream_data.reader, bytes);
    match Router::new().dispatch(decoded) {
        Plan::Reply(resp) => assert_eq!(resp.status_code.0, 100),
        Plan::Route(..) => panic!("an incomplete request must not be routed"),
    }
}

#[test]
fn malformed_bytes_answer_501() {
    let mut http = http_with(b"\x01\x02 not a request\r\n\r\n");
    let decoded = http.decode();
    assert!(matches!(decoded, Err(MioError::HttpParseError(_))));
    match Router::new().dispatch(decoded) {
        Plan::Reply(resp) => {
            http.encode(resp);
        }
        Plan::Route(..) => panic!("malformed bytes must not be routed"),
    }
    assert!(http.into_inner().writer.starts_with(b"HTTP/1.1 501 Not Implemented\r\n"));
}

#[test]
fn partial_head_is_an_error() {
    let mut http = http_with(b"GET / HTTP/1.1\r\nHost:");
    assert!(matches!(http.decode(), Err(MioError::Error(_))));
}

#[test]
fn unknown_method_is_an_error() {
    let mut http = http_with(b"BREW / HTTP/1.1\r\n\r\n");
    assert!(matches!(http.decode(), Err(MioError::Error(_))));
}

#[test]
fn bad_content_length_is_a_parse_int_error() {
    let mut http = http_with(b"POST / HTTP/1.1\r\nContent-Length: 12x\r\n\r\n");
    assert!(matches!(http.decode(), Err(MioError::ParseIntError)));
}

#[test]
fn echoed_body_round_trips() {
    let mut http = http_with(b"POST /echo HTTP/1.1\r\nContent-Length: 5\r\n\r\nhello");
    let req = match http.decode() {
        Ok(Some(req)) => req,
        _ => panic!("a whole request was sent"),
    };
    assert_eq!(req.data(), &b"hello".to_vec());
    assert_eq!(req.data_length(), 5);
    assert!(http.stream_data.reader.is_empty());
    let mut resp = Response::empty(200);
    resp.from_bytes(req.data().clone());
    http.encode(resp);
    assert!(http.into_inner().writer.ends_with(b"\r\n\r\nhello"));
}

#[test]
fn body_is_cut_at_declared_length() {
    let mut http = http_with(b"POST / HTTP/1.1\r\nContent-Length: 2\r\n\r\nabcd");
    match http.decode() {
        Ok(Some(req)) => assert_eq!(req.data, b"ab".to_vec()),
        _ => panic!("expected a request"),
    }
    assert!(http.stream_data.reader.is_empty());
}

#[test]
fn body_without_length_is_the_rest() {
    let mut http = http_with(b"PUT /x HTTP/1.1\r\n\r\nrest");
    match http.decode() {
        Ok(Some(req)) => {
            assert_eq!(*req.method(), Method::Put);
            assert_eq!(req.data, b"rest".to_vec());
        }
        _ => panic!("expected a request"),
    }
}

#[test]
fn duplicate_header_last_wins() {
    let mut http = http_with(b"GET / HTTP/1.1\r\nX-A: one\r\nx-a: low\r\nX-A: two\r\n\r\n");
    let req = match http.decode() {
        Ok(Some(req)) => req,
        _ => panic!("expected a request"),
    };
    assert_eq!(req.get_header("X-A"), Some("two".to_string()));
    assert_eq!(req.get_header("x-a"), Some("low".to_string()));
    assert_eq!(req.get_header("X-B"), None);
    assert_eq!(req.headers().len(), 3);
}

#[test]
fn header_value_is_decoded_lossily() {
    let mut http = http_with(b"GET / HTTP/1.1\r\nX-T: caf\xc3\xa9 \xff\r\n\r\n");
    let req = match http.decode() {
        Ok(Some(req)) => req,
        _ => panic!("expected a request"),
    };
    assert_eq!(req.get_header("X-T"), Some("caf\u{e9} \u{fffd}".to_string()));
}

#[test]
fn query_pairs_are_decoded() {
    let mut http = http_with(b"GET /find?q=a%20b&n=1&q=c HTTP/1.1\r\n\r\n");
    let req = match http.decode() {
        Ok(Some(req)) => req,
        _ => panic!("expected a request"),
    };
    assert_eq!(req.get_query("q"), Some("c".to_string()));
    assert_eq!(req.get_query("n"), Some("1".to_string()));
    assert_eq!(req.querys().len(), 3);
    assert_eq!(req.querys()[0], ("q".to_string(), "a b".to_string()));
    assert_eq!(req.get_param("q"), None);
}

#[test]
fn remote_addr_is_attached() {
    let mut sd = StreamData::new(b"GET / HTTP/1.1\r\n\r\n".to_vec(), Vec::new());
    sd.remote_addr.ip = vec![10, 0, 0, 7];
    sd.remote_addr.port = 8080;
    let mut http = Http::new(sd);
    let req = match http.decode() {
        Ok(Some(req)) => req,
        _ => panic!("expected a request"),
    };
    assert_eq!(req.remote_addr().ip, vec![10, 0, 0, 7]);
    assert_eq!(req.remote_addr().port, 8080);
}

#[test]
fn encode_writes_fixed_layout() {
    let mut resp = Response::empty(201);
    resp.header("X-Id".to_string(), "9".to_string());
    resp.from_text("ok");
    let out = encoded(&resp);
    let expected = b"HTTP/1.1 201 Created\r\nDate: Thu, 01 Jan 1970 00:00:00 GMT\r\nServer: Webserver\r\nContent-Length: 2\r\nX-Id: 9\r\n\r\nok".to_vec();
    assert_eq!(out, expected);
}

#[test]
fn encode_without_length_has_no_length_line() {
    let out = encoded(&Response::empty(100));
    let expected = b"HTTP/1.1 100 Continue\r\nDate: Thu, 01 Jan 1970 00:00:00 GMT\r\nServer: Webserver\r\n\r\n".to_vec();
    assert_eq!(out, expected);
}

#[test]
fn encode_appends_to_pending_bytes() {
    let mut http = Http::new(StreamData::new(Vec::new(), b"old".to_vec()));
    http.encode_with_date(&Response::empty(204), "D");
    assert_eq!(http.into_inner().writer, b"oldHTTP/1.1 204 No Content\r\nDate: D\r\nServer: Webserver\r\n\r\n".to_vec());
}

#[test]
fn encode_dates_with_current_time() {
    let mut http = http_with(b"");
    http.encode(Response::empty(200));
    let out = String::from_utf8(http.into_inner().writer).unwrap();
    let date_line = out.lines().nth(1).unwrap();
    assert!(date_line.starts_with("Date: "));
    assert!(date_line.ends_with(" GMT"));
    assert!(date_line.len() > "Date:  GMT".len());
}

#[test]
fn reason_phrases() {
    assert_eq!(StatusCode(200).default_reason_phrase(), "OK");
    assert_eq!(StatusCode(404).default_reason_phrase(), "Not Found");
    assert_eq!(StatusCode(501).default_reason_phrase(), "Not Implemented");
    assert_eq!(StatusCode(799).default_reason_phrase(), "Unknown");
}

#[test]
fn parse_usize_cases() {
    assert_eq!(parse_usize("0"), Some(0));
    assert_eq!(parse_usize("100"), Some(100));
    assert_eq!(parse_usize("+42"), Some(42));
    assert_eq!(parse_usize(""), None);
    assert_eq!(parse_usize("+"), None);
    assert_eq!(parse_usize("-1"), None);
    assert_eq!(parse_usize("1 "), None);
    assert_eq!(parse_usize("18446744073709551615"), Some(usize::MAX));
    assert_eq!(parse_usize("18446744073709551616"), None);
}

#[test]
fn route_paths_are_normalized() {
    assert_eq!(normalize_path("/"), "/");
    assert_eq!(normalize_path("/aaa/"), "/aaa");
    assert_eq!(normalize_path("/aaa//?x=1"), "/aaa");
    assert_eq!(normalize_path("/?x=1"), "/");
    assert_eq!(normalize_path("//"), "");
}

#[test]
fn first_matching_route_wins_and_method_must_match() {
    let mut router = Router::new();
    router.add(Method::Post, "/aaa".to_string());
    router.add(Method::Get, "/aaa".to_string());
    router.add(Method::Get, "/aaa".to_string());
    assert_eq!(router.find(Method::Get, "/aaa/?z"), Some(1));
    assert_eq!(router.find(Method::Post, "/aaa"), Some(0));
    assert_eq!(router.find(Method::Delete, "/aaa"), None);
    assert_eq!(router.find(Method::Get, "/bbb"), None);
}

#[test]
fn method_names() {
    assert_eq!(Method::from_name("GET"), Some(Method::Get));
    assert_eq!(Method::from_name("OPTIONS"), Some(Method::Options));
    assert_eq!(Method::from_name("get"), None);
}

#[test]
fn stream_data_read_and_write() {
    let mut sd = StreamData::new(b"abcdef".to_vec(), Vec::new());
    assert_eq!(sd.remote_addr().ip, vec![0, 0, 0, 0]);
    assert_eq!(sd.remote_addr().port, 0);
    let mut buf = Vec::new();
    assert_eq!(sd.read(&mut buf, 4), 4);
    assert_eq!(buf, b"abcd".to_vec());
    assert_eq!(sd.reader, b"ef".to_vec());
    assert_eq!(sd.read(&mut buf, 10), 2);
    assert_eq!(buf, b"abcdef".to_vec());
    assert!(sd.reader.is_empty());
    assert_eq!(sd.write(b"xy"), 2);
    sd.flush();
    assert_eq!(sd.writer, b"xy".to_vec());
}

fn pairs(list: &[(&str, &str)]) -> Vec<(String, String)> {
    list.iter().map(|(k, v)| (k.to_string(), v.to_string())).collect()
}

#[test]
fn body_length_cases() {
    assert!(matches!(body_length(&pairs(&[("Content-Length", "100")]), 10), Ok(None)));
    assert!(matches!(body_length(&pairs(&[("Content-Length", "4")]), 10), Ok(Some(4))));
    assert!(matches!(body_length(&pairs(&[("Host", "x")]), 10), Ok(Some(10))));
    assert!(matches!(body_length(&pairs(&[("Content-Length", "x")]), 10), Err(MioError::ParseIntError)));
    assert!(matches!(
        body_length(&pairs(&[("Content-Length", "1"), ("Content-Length", "9")]), 5),
        Ok(None)
    ));
}

#[test]
fn header_texts_keeps_ascii_and_replaces_invalid() {
    let raw = vec![("A".to_string(), b"plain".to_vec()), ("B".to_string(), vec![0x61, 0xff])];
    let t = header_texts(&raw);
    assert_eq!(t, pairs(&[("A", "plain"), ("B", "a\u{fffd}")]));
}

#[test]
fn path_without_query_has_no_query_pairs() {
    let mut http = http_with(b"GET /plain HTTP/1.1\r\n\r\n");
    match http.decode() {
        Ok(Some(req)) => assert!(req.querys().is_empty()),
        _ => panic!("expected a request"),
    }
    let mut http = http_with(b"GET /plain? HTTP/1.1\r\n\r\n");
    match http.decode() {
        Ok(Some(req)) => assert!(req.querys().is_empty()),
        _ => panic!("expected a request"),
    }
}
