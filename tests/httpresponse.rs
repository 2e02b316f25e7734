use http::{HttpResponse, ReasonPharse, Status, Version};
use std::collections::HashMap;

fn header_map(r: &HttpResponse) -> HashMap<String, String> {
    r.headers.iter().cloned().collect()
}

#[test]
fn test_version() {
    let v: Version = "HTTP/1.1".into();
    assert_eq!(v, Version::V1_1);
}

#[test]
fn test_status() {
    let status200: Status = "200".into();
    let status400: Status = "400".into();
    let status500: Status = "500".into();

    assert_eq!(status200, Status::TwoHundred);
    assert_eq!(status400, Status::FourHundred);
    assert_eq!(status500, Status::FiveHundred);
}

#[test]
fn test_reason_pharse() {
    let reason_pharse_ok: ReasonPharse = "Ok!".into();
    let reason_pharse_bad_request: ReasonPharse = "BadRequest!".into();
    let reason_pharse_internal_server_error: ReasonPharse = "InternalServerError!".into();

    assert_eq!(reason_pharse_ok, ReasonPharse::Okay);
    assert_eq!(reason_pharse_bad_request, ReasonPharse::BadRequest);
    assert_eq!(reason_pharse_internal_server_error, ReasonPharse::InternalServerError);
}

#[test]
fn test_http_responseo() {
    let res_object: String =
        String::from("HTTP/2.0 200 Ok!\r\nLocation: /local-path\r\n\r\nThis is http response.");
    let mut headers_expected = HashMap::new();
    headers_expected.insert("Location".to_string(), " /local-path".to_string());
    let response: HttpResponse = HttpResponse::parse(&res_object).unwrap();
    assert_eq!(response.version, Version::V2_0);
    assert_eq!(response.status, Status::TwoHundred);
    assert_eq!(response.reason, ReasonPharse::Okay);
    assert_eq!(header_map(&response), headers_expected);
    assert_eq!(response.msg_body, "This is http response.");
}
