use mine_autobackup::url::{
    decode_component, encode_component, parse_oauth_callback, query_param, CallbackError,
};

#[test]
fn encode_keeps_unreserved_characters() {
    assert_eq!(encode_component("AZaz09-_.~"), "AZaz09-_.~");
}

#[test]
fn encode_escapes_reserved_and_non_ascii_bytes() {
    assert_eq!(encode_component("a b&c/d"), "a%20b%26c%2Fd");
    assert_eq!(encode_component("é"), "%C3%A9");
    assert_eq!(encode_component("http://127.0.0.1:8080"), "http%3A%2F%2F127.0.0.1%3A8080");
    assert_eq!(encode_component(""), "");
}

#[test]
fn decode_reads_escapes_and_plus() {
    assert_eq!(decode_component("a%20b"), "a b");
    assert_eq!(decode_component("a+b"), "a b");
    assert_eq!(decode_component("%2f%2F"), "//");
    assert_eq!(decode_component("plain"), "plain");
}

#[test]
fn decode_drops_invalid_escapes() {
    assert_eq!(decode_component("a%zzb"), "ab");
    assert_eq!(decode_component("%-1x"), "x");
}

#[test]
fn decode_fills_missing_digits_with_zero() {
    assert_eq!(decode_component("%4"), "@");
    assert_eq!(decode_component("%"), "\u{0}");
}

#[test]
fn decode_accepts_a_plus_sign_before_one_digit() {
    assert_eq!(decode_component("%+5"), "\u{5}");
    assert_eq!(decode_component("%++"), "");
}

#[test]
fn decode_reads_bytes_as_single_characters() {
    assert_eq!(decode_component("%C3%A9"), "\u{c3}\u{a9}");
}

#[test]
fn decode_undoes_encode_on_ascii() {
    for s in ["", "abc", "a b+c&d=e", "~!@#$%^&*()", "line\nbreak", "100%"] {
        assert_eq!(decode_component(&encode_component(s)), s);
    }
}

#[test]
fn query_param_finds_the_first_match() {
    assert_eq!(query_param("code=abc&state=xyz", "code"), Some("abc".to_string()));
    assert_eq!(query_param("code=abc&state=xyz", "state"), Some("xyz".to_string()));
    assert_eq!(query_param("a=1&a=2", "a"), Some("1".to_string()));
    assert_eq!(query_param("a&a=3", "a"), Some("3".to_string()));
    assert_eq!(query_param("a=x=y", "a"), Some("x=y".to_string()));
}

#[test]
fn query_param_missing_key() {
    assert_eq!(query_param("code=abc", "state"), None);
    assert_eq!(query_param("", "code"), None);
    assert_eq!(query_param("code", "code"), None);
    assert_eq!(query_param("codes=1", "code"), None);
}

#[test]
fn query_param_decodes_the_value() {
    assert_eq!(query_param("code=4%2F0Ab+x", "code"), Some("4/0Ab x".to_string()));
}

#[test]
fn query_param_reads_a_written_value() {
    let value = "4/0AY0e-g7 x&y";
    let query = format!("code={}&state=s", encode_component(value));
    assert_eq!(query_param(&query, "code"), Some(value.to_string()));
}

#[test]
fn callback_reads_code_and_state() {
    let request = "GET /?code=4%2F0Ab&state=abc123 HTTP/1.1\r\nHost: 127.0.0.1:5000\r\n\r\n";
    let cb = parse_oauth_callback(request).unwrap_or_else(|_| panic!("not parsed"));
    assert_eq!(cb.code, "4/0Ab");
    assert_eq!(cb.state, Some("abc123".to_string()));
}

#[test]
fn callback_without_state() {
    let cb = parse_oauth_callback("GET /?code=xyz HTTP/1.1").unwrap_or_else(|_| panic!("not parsed"));
    assert_eq!(cb.code, "xyz");
    assert_eq!(cb.state, None);
}

#[test]
fn callback_without_code_is_refused() {
    let request = "GET /?error=access_denied&state=abc HTTP/1.1\r\n\r\n";
    assert!(matches!(parse_oauth_callback(request), Err(CallbackError::MissingCode)));
    assert!(matches!(parse_oauth_callback("GET / HTTP/1.1\r\n"), Err(CallbackError::MissingCode)));
}

#[test]
fn callback_without_target_is_refused() {
    assert!(matches!(parse_oauth_callback(""), Err(CallbackError::MalformedRequest)));
    assert!(matches!(parse_oauth_callback("GET"), Err(CallbackError::MalformedRequest)));
    assert!(matches!(parse_oauth_callback("   \r\n/?code=x"), Err(CallbackError::MalformedRequest)));
}

#[test]
fn callback_error_messages() {
    assert_eq!(CallbackError::MalformedRequest.message(), "Callback OAuth invalido");
    assert_eq!(CallbackError::MissingCode.message(), "Login cancelado ou sem codigo");
}

#[test]
fn callback_reads_only_the_first_line() {
    let request = "GET\t/?code=a  HTTP/1.1\r\nGET /?code=b HTTP/1.1";
    let cb = parse_oauth_callback(request).unwrap_or_else(|_| panic!("not parsed"));
    assert_eq!(cb.code, "a");
}

fn reference_callback(request: &str) -> Option<(String, Option<String>)> {
    let first_line = request.lines().next().unwrap_or_default();
    let path = first_line.split_whitespace().nth(1)?;
    let query = path.split_once('?').map(|(_, query)| query).unwrap_or("");
    let code = query_param(query, "code")?;
    Some((code, query_param(query, "state")))
}

#[test]
fn callback_agrees_with_std_splitting() {
    let requests = [
        "GET /?code=1 HTTP/1.1",
        "GET  /cb?x=1&code=2&state=3\r\n",
        "POST /?code=%41\u{a0}HTTP/1.1\n",
        "\u{2003}GET\u{3000}/?state=s&code=c\r\r\n",
        "GET /?code=c\rx y\n",
        "GET ??code=q HTTP/1.1",
        "\n GET /?code=z",
    ];
    for r in requests {
        let ours = parse_oauth_callback(r).ok().map(|cb| (cb.code, cb.state));
        assert_eq!(ours, reference_callback(r), "request {:?}", r);
    }
}

#[test]
fn encoding_is_url_safe() {
    let all: Vec<u8> = (0u8..=255).collect();
    let text = String::from_utf8_lossy(&all).to_string() + "é€😀";
    let encoded = encode_component(&text);
    assert!(encoded
        .chars()
        .all(|c| c.is_ascii_alphanumeric() || matches!(c, '-' | '_' | '.' | '~' | '%')));
}
