use std::collections::HashSet;

use rowdy::cors::{
    allowed_origin, AccessControlRequestHeaders, AccessControlRequestMethod, AllowedOrigins, Error, Method, Options,
    Origin, CORS,
};
use rowdy::text::decimal_text;

fn header<'a, R>(r: &'a rowdy::cors::Response<R>, name: &str) -> Vec<&'a str> {
    r.headers.iter().filter(|(n, _)| n == name).map(|(_, v)| v.as_str()).collect()
}

#[test]
fn origin_header_parsing() {
    let url = "https://foo.bar.xyz";
    assert!(Origin::from_str(url).is_ok());

    let url = "https://foo.bar.xyz/path/somewhere"; // this should never really be used
    assert!(Origin::from_str(url).is_ok());

    let url = "invalid_url";
    assert!(Origin::from_str(url).is_err());
}

#[test]
fn request_method_parsing() {
    let method = "POST";
    let parsed_method = AccessControlRequestMethod::from_str(method).unwrap();
    assert!(matches!(parsed_method, AccessControlRequestMethod(Method::Post)));

    let method = "options";
    let parsed_method = AccessControlRequestMethod::from_str(method).unwrap();
    assert!(matches!(parsed_method, AccessControlRequestMethod(Method::Options)));

    let method = "INVALID";
    assert!(AccessControlRequestMethod::from_str(method).is_err());
}

#[test]
fn request_headers_parsing() {
    let headers = ["foo", "bar", "baz"];
    let parsed_headers = AccessControlRequestHeaders::from_str(&headers.join(", ")).unwrap();
    let expected_headers: HashSet<String> = headers.iter().map(|s| s.to_string()).collect();
    let AccessControlRequestHeaders(actual_headers) = parsed_headers;
    let actual_headers: HashSet<String> = actual_headers.into_iter().collect();
    assert_eq!(actual_headers, expected_headers);
}

#[test]
fn smoke_test() {
    let response = CORS::any("Hello, world!").respond();
    assert_eq!(header(&response, "Access-Control-Allow-Origin"), vec!["*"]);
    assert_eq!(response.body, "Hello, world!");
}

#[test]
fn request_headers_round_trip_smoke_test() {
    let origin = Origin::from_request(Some("https://foo.bar.xyz")).unwrap();
    let method = AccessControlRequestMethod::from_request(Some("GET")).unwrap();
    let headers = AccessControlRequestHeaders::from_request(Some("accept-language, X-Ping")).unwrap();
    let Origin(origin) = origin;
    let AccessControlRequestMethod(method) = method;
    let AccessControlRequestHeaders(headers) = headers;
    let body_str = format!("{}\n{}\n{}", origin, method.as_str(), headers.join(", "));
    let expected_body = r#"https://foo.bar.xyz/
GET
accept-language, X-Ping"#;
    assert_eq!(expected_body, body_str);
}

#[test]
fn any_policy_defaults() {
    let response = CORS::any(()).respond();
    assert_eq!(
        response.headers,
        vec![
            ("Access-Control-Allow-Origin".to_string(), "*".to_string()),
            ("Access-Control-Allow-Credentials".to_string(), "false".to_string()),
        ]
    );
}

#[test]
fn full_policy_headers_in_order() {
    let response = CORS::origin(7u8, "https://a.example")
        .credentials(true)
        .exposed_headers(&["X-One", "X-Two", "X-One"])
        .methods(&[Method::Get, Method::Post, Method::Get])
        .headers(&["Content-Type"])
        .max_age(Some(3600))
        .respond();
    assert_eq!(response.body, 7u8);
    let expected: Vec<(String, String)> = vec![
        ("Access-Control-Allow-Origin", "https://a.example"),
        ("Access-Control-Allow-Credentials", "true"),
        ("Access-Control-Expose-Headers", "X-One, X-Two"),
        ("Access-Control-Allow-Methods", "GET, POST"),
        ("Access-Control-Allow-Headers", "Content-Type"),
        ("Access-Control-Max-Age", "3600"),
    ]
    .into_iter()
    .map(|(a, b)| (a.to_string(), b.to_string()))
    .collect();
    assert_eq!(response.headers, expected);
}

#[test]
fn max_age_zero_is_sent() {
    let response = CORS::any(()).max_age(Some(0)).respond();
    assert_eq!(header(&response, "Access-Control-Max-Age"), vec!["0"]);
    let response = CORS::any(()).max_age(None).respond();
    assert!(header(&response, "Access-Control-Max-Age").is_empty());
}

#[test]
fn missing_and_bad_request_headers() {
    assert!(matches!(Origin::from_request(None), Err(Error::MissingOrigin)));
    assert!(matches!(Origin::from_request(Some("invalid_url")), Err(Error::BadOrigin(_))));
    assert!(matches!(AccessControlRequestMethod::from_request(None), Err(Error::MissingRequestMethod)));
    assert!(matches!(AccessControlRequestMethod::from_request(Some("INVALID")), Err(Error::BadRequestMethod)));
    assert!(matches!(AccessControlRequestHeaders::from_request(None), Err(Error::MissingRequestHeaders)));
}

#[test]
fn origin_keeps_serialized_url() {
    let Origin(o) = Origin::from_str("https://foo.bar.xyz/path/somewhere").unwrap();
    assert_eq!(o, "https://foo.bar.xyz/path/somewhere");
}

#[test]
fn method_names_ignore_case() {
    let AccessControlRequestMethod(m) = AccessControlRequestMethod::from_str("pAtCh").unwrap();
    assert_eq!(m, Method::Patch);
    assert_eq!(m.as_str(), "PATCH");
    assert!(AccessControlRequestMethod::from_str("GETS").is_err());
    assert!(AccessControlRequestMethod::from_str("").is_err());
}

#[test]
fn request_headers_are_trimmed_and_distinct() {
    let AccessControlRequestHeaders(h) = AccessControlRequestHeaders::from_str("  foo ,bar,\tbaz  , foo").unwrap();
    assert_eq!(h, vec!["foo".to_string(), "bar".to_string(), "baz".to_string()]);
    let AccessControlRequestHeaders(h) = AccessControlRequestHeaders::from_str("").unwrap();
    assert_eq!(h, vec!["".to_string()]);
    let AccessControlRequestHeaders(h) = AccessControlRequestHeaders::from_str("a,,a").unwrap();
    assert_eq!(h, vec!["a".to_string(), "".to_string()]);
}

#[test]
fn error_descriptions() {
    assert_eq!(Error::MissingOrigin.description(), "The request header `Origin` is required but is missing");
    assert_eq!(
        Error::BadRequestMethod.description(),
        "The request header `Access-Control-Request-Method` has an invalid value"
    );
}

#[test]
fn decimal_rendering() {
    assert_eq!(decimal_text(0), "0");
    assert_eq!(decimal_text(49), "49");
    assert_eq!(decimal_text(u64::MAX), "18446744073709551615");
}

fn listed_options() -> Options {
    Options {
        allowed_origins: AllowedOrigins::Listed(vec!["https://foo.bar.xyz/".to_string()]),
        allowed_methods: vec![Method::Get, Method::Get],
        allowed_headers: vec!["X-Ping".to_string()],
    }
}

#[test]
fn listed_origin_is_matched_exactly() {
    let foo = Origin::from_str("https://foo.bar.xyz").unwrap();
    let other = Origin::from_str("https://sub.foo.bar.xyz").unwrap();
    let listed = AllowedOrigins::Listed(vec!["https://foo.bar.xyz/".to_string()]);
    assert_eq!(allowed_origin(&listed, &foo), Some("https://foo.bar.xyz/".to_string()));
    assert_eq!(allowed_origin(&listed, &other), None);
    assert_eq!(allowed_origin(&AllowedOrigins::Any, &other), Some("*".to_string()));
}

#[test]
fn policy_advertises_endpoint_settings() {
    let foo = Origin::from_str("https://foo.bar.xyz").unwrap();
    let response = listed_options().policy("hi", &foo).ok().unwrap().respond();
    assert_eq!(response.body, "hi");
    let expected: Vec<(String, String)> = vec![
        ("Access-Control-Allow-Origin", "https://foo.bar.xyz/"),
        ("Access-Control-Allow-Credentials", "false"),
        ("Access-Control-Allow-Methods", "GET"),
        ("Access-Control-Allow-Headers", "X-Ping"),
    ]
    .into_iter()
    .map(|(a, b)| (a.to_string(), b.to_string()))
    .collect();
    assert_eq!(response.headers, expected);
}

#[test]
fn policy_returns_body_for_unlisted_origin() {
    let other = Origin::from_str("https://elsewhere.example").unwrap();
    assert!(matches!(listed_options().policy("hi", &other), Err("hi")));
}

#[test]
fn preflight_does_not_enforce_method_or_headers() {
    let foo = Origin::from_str("https://foo.bar.xyz").unwrap();
    let method = AccessControlRequestMethod::from_str("DELETE").unwrap();
    let headers = AccessControlRequestHeaders::from_str("X-Unlisted").unwrap();
    let policy = listed_options().preflight(&foo, &method, Some(&headers)).unwrap();
    assert_eq!(policy.allow_origin, "https://foo.bar.xyz/");
    assert_eq!(policy.allow_methods, vec![Method::Get]);
    let any = Options { allowed_origins: AllowedOrigins::Any, ..listed_options() };
    let response = any.preflight(&foo, &method, None).unwrap().respond();
    assert_eq!(header(&response, "Access-Control-Allow-Origin"), vec!["*"]);
}
