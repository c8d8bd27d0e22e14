use bag_address_lookup::decimal::{parse_u16, parse_u32, write_decimal};
use bag_address_lookup::service::{
    body_of, handle_lookup, is_valid_postal_code, json_error, json_ok, query_value,
    response_head, route, status_text, Action, Response,
};
use bag_address_lookup::{encode_pc, Database, DatabaseHandle, NumberRange};

fn test_database() -> DatabaseHandle<'static> {
    let localities =
        vec!["Amsterdam".to_string(), "Rotterdam".to_string(), "Utrecht".to_string()];
    let public_spaces = vec!["Stationsstraat".to_string()];
    let ranges = vec![NumberRange {
        postal_code: encode_pc(b"1234AB"),
        start: 10,
        length: 2,
        public_space_index: 0,
        locality_index: 0,
    }];

    DatabaseHandle::Decoded(Database { localities, public_spaces, ranges })
}

fn answer(query: &str) -> (u16, String) {
    let Response { status_code, body } = handle_lookup(&test_database(), query);
    (status_code, body)
}

#[test]
fn a_found_address_is_answered_with_its_names() {
    assert_eq!(
        answer("pc=1234AB&n=11"),
        (200, "{\"pr\":\"Stationsstraat\",\"wp\":\"Amsterdam\"}".to_string())
    );
    assert_eq!(answer("pc=1234AB&n=10").0, 200);
    assert_eq!(answer("pc=1234AB&n=12").0, 200);
    assert_eq!(answer("n=12&pc=1234AB").0, 200);
    assert_eq!(answer("x=1&&pc=1234AB&junk&n=+12&").0, 200);
}

#[test]
fn a_query_without_postal_code_is_a_bad_request() {
    assert_eq!(answer("n=11"), (400, "{\"error\":\"missing postal_code\"}".to_string()));
    assert_eq!(answer(""), (400, "{\"error\":\"missing postal_code\"}".to_string()));
    assert_eq!(answer("pc"), (400, "{\"error\":\"missing postal_code\"}".to_string()));
    assert_eq!(answer("PC=1234AB&n=1").0, 400);
}

#[test]
fn a_query_without_house_number_is_a_bad_request() {
    assert_eq!(answer("pc=1234AB"), (400, "{\"error\":\"missing house_number\"}".to_string()));
    assert_eq!(answer("pc=1234AB&n=").1, "{\"error\":\"missing house_number\"}");
    assert_eq!(answer("pc=1234AB&n=x").1, "{\"error\":\"missing house_number\"}");
    assert_eq!(answer("pc=1234AB&n=-1").1, "{\"error\":\"missing house_number\"}");
    assert_eq!(answer("pc=1234AB&n=4294967296").1, "{\"error\":\"missing house_number\"}");
    assert_eq!(answer("pc=1234AB&n=11&n=x").1, "{\"error\":\"missing house_number\"}");
}

#[test]
fn a_malformed_postal_code_is_a_bad_request() {
    assert_eq!(
        answer("pc=1234ab&n=11"),
        (400, "{\"error\":\"invalid postal_code\"}".to_string())
    );
    assert_eq!(answer("pc=&n=11").1, "{\"error\":\"invalid postal_code\"}");
    assert_eq!(answer("pc=1234AB=&n=11").1, "{\"error\":\"invalid postal_code\"}");
    assert_eq!(answer("pc=1234AB&pc=12&n=11").1, "{\"error\":\"invalid postal_code\"}");
}

#[test]
fn an_unknown_address_is_not_found() {
    assert_eq!(answer("pc=9999ZZ&n=1"), (404, "{\"error\":\"address not found\"}".to_string()));
    assert_eq!(answer("pc=1234AB&n=13").0, 404);
    assert_eq!(answer("pc=1234AB&n=9").0, 404);
    assert_eq!(answer("pc=12&pc=1234AB&n=11&n=4294967295").0, 404);
}

#[test]
fn json_bodies_escape_their_texts() {
    assert_eq!(json_ok("a\"b", "c\\d"), "{\"pr\":\"a\\\"b\",\"wp\":\"c\\\\d\"}");
    assert_eq!(json_ok("", ""), "{\"pr\":\"\",\"wp\":\"\"}");
    assert_eq!(json_error("line\nbreak"), "{\"error\":\"line\\nbreak\"}");
    assert_ne!(json_error("x"), "x");
    assert_ne!(json_ok("x", "y"), "x");
    assert_eq!(body_of(Some("{}".to_string())), "{}");
    assert_eq!(body_of(None), "");
}

#[test]
fn postal_codes_are_validated() {
    assert!(is_valid_postal_code("1234AB"));
    assert!(!is_valid_postal_code("1234ab"));
    assert!(!is_valid_postal_code("1234A"));
    assert!(!is_valid_postal_code("12345A"));
    assert!(!is_valid_postal_code(""));
}

#[test]
fn status_codes_have_their_reason_phrases() {
    assert_eq!(status_text(200), "OK");
    assert_eq!(status_text(400), "Bad Request");
    assert_eq!(status_text(404), "Not Found");
    assert_eq!(status_text(405), "Method Not Allowed");
    assert_eq!(status_text(500), "Internal Server Error");
    assert_eq!(status_text(0), "Internal Server Error");
}

#[test]
fn decimal_numbers_are_read_as_the_standard_library_reads_them() {
    for text in
        ["0", "7", "007", "+7", "4294967295", "4294967296", "", "+", "-", "-0", "1 ", " 1", "1_0", "12a", "99999999999999999999999", "65535", "65536", "+0"]
    {
        assert_eq!(parse_u32(text.as_bytes()), text.parse::<u32>().ok());
        assert_eq!(parse_u16(text.as_bytes()), text.parse::<u16>().ok());
    }
    assert_eq!(parse_u32(b"4294967295"), Some(u32::MAX));
    assert_eq!(parse_u16(b"65535"), Some(u16::MAX));
}

#[test]
fn the_last_pair_with_a_key_gives_its_value() {
    assert_eq!(query_value(b"wp=Amster", b"wp"), Some(&b"Amster"[..]));
    assert_eq!(query_value(b"a=1&wp=x&b=2&wp=y=z&c", b"wp"), Some(&b"y=z"[..]));
    assert_eq!(query_value(b"wp=", b"wp"), Some(&b""[..]));
    assert_eq!(query_value(b"wp", b"wp"), None);
    assert_eq!(query_value(b"", b"wp"), None);
    assert_eq!(query_value(b"&&", b"wp"), None);
    assert_eq!(query_value(b"xwp=1&wpx=2", b"wp"), None);
    assert_eq!(query_value(b"=v", b""), Some(&b"v"[..]));
    assert_eq!(query_value(b"wp=1&", b"wp"), Some(&b"1"[..]));
}

fn routed(method: &str, target: &str) -> (u16, String) {
    match route(&test_database(), method, target) {
        Action::Respond(Response { status_code, body }) => (status_code, body),
        Action::Suggest { start, end } => (0, target[start..end].to_string()),
    }
}

#[test]
fn requests_are_routed_by_method_and_path() {
    assert_eq!(
        routed("GET", "/lookup?pc=1234AB&n=11"),
        (200, "{\"pr\":\"Stationsstraat\",\"wp\":\"Amsterdam\"}".to_string())
    );
    assert_eq!(routed("GET", "/?pc=1234AB&n=11").0, 200);
    assert_eq!(routed("GET", "/lookup?n=11"), (400, "{\"error\":\"missing postal_code\"}".to_string()));
    assert_eq!(routed("GET", "/lookup"), (400, "{\"error\":\"missing postal_code\"}".to_string()));
    assert_eq!(routed("GET", "/lookup?pc=9999ZZ&n=1").0, 404);
    assert_eq!(
        routed("POST", "/lookup?pc=1234AB&n=11"),
        (405, "{\"error\":\"method not allowed\"}".to_string())
    );
    assert_eq!(routed("get", "/lookup?pc=1234AB&n=11").0, 405);
    assert_eq!(routed("", "").0, 405);
    assert_eq!(routed("GET", "/other?pc=1234AB&n=11"), (404, "{\"error\":\"not found\"}".to_string()));
    assert_eq!(routed("GET", "").0, 404);
    assert_eq!(routed("GET", "/lookup/?pc=1234AB&n=11").0, 404);
    assert_eq!(routed("GET", "/lookup?pc=1234AB?&n=11").1, "{\"error\":\"invalid postal_code\"}");
}

#[test]
fn suggestion_requests_hand_over_their_text() {
    assert_eq!(routed("GET", "/suggest?wp=Amster"), (0, "Amster".to_string()));
    assert_eq!(routed("GET", "/suggest?x=1&wp=a&wp=Utr%20echt&y"), (0, "Utr%20echt".to_string()));
    assert_eq!(routed("GET", "/suggest?wp="), (0, String::new()));
    assert_eq!(routed("GET", "/suggest"), (400, "{\"error\":\"missing wp\"}".to_string()));
    assert_eq!(routed("GET", "/suggest?pc=1234AB").0, 400);
    assert_eq!(routed("POST", "/suggest?wp=Amster").0, 405);
}

#[test]
fn the_head_of_a_response_is_written_out() {
    assert_eq!(
        response_head(200, 41),
        "HTTP/1.1 200 OK\r\nContent-Type: application/json; charset=utf-8\r\nContent-Length: 41\r\nConnection: close\r\n\r\n"
    );
    assert_eq!(
        response_head(405, 0),
        "HTTP/1.1 405 Method Not Allowed\r\nContent-Type: application/json; charset=utf-8\r\nContent-Length: 0\r\nConnection: close\r\n\r\n"
    );
    assert!(response_head(500, 1234567).starts_with("HTTP/1.1 500 Internal Server Error\r\n"));
    assert!(response_head(500, 1234567).contains("Content-Length: 1234567\r\n"));
}

#[test]
fn numbers_are_written_in_decimal() {
    for n in [0u64, 1, 9, 10, 11, 99, 100, 101, 65535, 4294967295, u64::MAX] {
        let mut text = String::from("n=");
        write_decimal(&mut text, n);
        assert_eq!(text, format!("n={n}"));
    }
}
