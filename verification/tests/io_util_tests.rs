use vault_airlock::io_util::{unlock_body, HttpRequest};
use vault_airlock::secret::Secret;

#[test]
fn post_builds_a_post_request() {
    let r = HttpRequest::post("/vault/unlock", "{\"password\":\"x\"}");
    assert_eq!(r.method, "POST");
    assert_eq!(r.path, "/vault/unlock");
    assert_eq!(r.body, "{\"password\":\"x\"}");
}

#[test]
fn render_writes_the_wire_text() {
    let r = HttpRequest::post("/vault/lock", "");
    assert_eq!(
        r.render(),
        "POST /vault/lock HTTP/1.1\r\nHost: localhost\r\nContent-Type: application/json\r\nContent-Length: 0\r\nConnection: close\r\n\r\n"
    );
    let r = HttpRequest::post("/vault/unlock", "{\"password\":\"pässword\"}");
    // the length counts bytes: "ä" takes two
    assert_eq!(
        r.render(),
        "POST /vault/unlock HTTP/1.1\r\nHost: localhost\r\nContent-Type: application/json\r\nContent-Length: 24\r\nConnection: close\r\n\r\n{\"password\":\"pässword\"}"
    );
}

#[test]
fn success_statuses_are_accepted() {
    assert_eq!(HttpRequest::interpret_response("HTTP/1.1 200 OK\r\ncontent-length: 0\r\n\r\n"), Ok(()));
    assert_eq!(HttpRequest::interpret_response("HTTP/1.1 204 No Content\r\n\r\n"), Ok(()));
}

#[test]
fn errors_name_the_status_line() {
    assert_eq!(
        HttpRequest::interpret_response("HTTP/1.1 403 Forbidden\r\ncontent-length: 3\r\n\r\nno!"),
        Err("Server returned error: HTTP/1.1 403 Forbidden".to_string())
    );
    assert_eq!(
        HttpRequest::interpret_response("HTTP/1.1 500 Internal\nbody"),
        Err("Server returned error: HTTP/1.1 500 Internal".to_string())
    );
    assert_eq!(
        HttpRequest::interpret_response("garbage without newline\r"),
        Err("Server returned error: garbage without newline\r".to_string())
    );
}

#[test]
fn empty_answer_is_an_unknown_error() {
    assert_eq!(HttpRequest::interpret_response(""), Err("Server returned error: Unknown Error".to_string()));
    assert_eq!(HttpRequest::interpret_response("\nrest"), Err("Server returned error: ".to_string()));
}

#[test]
fn unlock_body_is_a_json_object() {
    assert_eq!(unlock_body(&Secret::from_text("hunter2".to_string())), "{\"password\":\"hunter2\"}");
    assert_eq!(
        unlock_body(&Secret::from_text("a\"b\\c\nd\te\u{1}\u{1f}é\u{7f}".to_string())),
        "{\"password\":\"a\\\"b\\\\c\\nd\\te\\u0001\\u001fé\u{7f}\"}"
    );
    assert_eq!(unlock_body(&Secret::from_text(String::new())), "{\"password\":\"\"}");
}
