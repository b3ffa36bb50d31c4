use mocap_bridge::server::{
    body_end, find, parse_request_head, redirect_response, response_header, route, save_decision, RequestHead,
    Route, SaveDecision,
};

#[test]
fn find_first_occurrence() {
    assert_eq!(find(b"GET / HTTP/1.1\r\n\r\nbody\r\n\r\n", b"\r\n\r\n"), Some(14));
    assert_eq!(find(b"abc", b"abcd"), None);
    assert_eq!(find(b"aaab", b"ab"), Some(2));
    assert_eq!(find(b"", b"x"), None);
}

#[test]
fn request_head_fields() {
    let head = b"POST /save HTTP/1.1\r\nHost: x\r\ncOnTeNt-LeNgTh:  42 \r\n\r\n";
    assert_eq!(
        parse_request_head(head),
        Ok(RequestHead { method_len: 4, path_len: 5, content_length: 42 })
    );
    let head = b"GET / HTTP/1.1\r\nHost: 192.168.4.1\r\n\r\n";
    assert_eq!(
        parse_request_head(head),
        Ok(RequestHead { method_len: 3, path_len: 1, content_length: 0 })
    );
}

#[test]
fn request_head_first_parsable_length_counts() {
    let head = b"POST /save HTTP/1.1\r\nContent-Length: abc\r\nContent-Length: 7\r\n\r\n";
    assert_eq!(parse_request_head(head).unwrap().content_length, 7);
    let head = b"POST /save\r\n\r\n";
    assert_eq!(parse_request_head(head), Ok(RequestHead { method_len: 4, path_len: 5, content_length: 0 }));
}

#[test]
fn request_head_errors() {
    assert_eq!(parse_request_head(b"GET\r\n\r\n"), Err("no path"));
    assert_eq!(parse_request_head(b"\xFF / x\r\n\r\n"), Err("headers not UTF-8"));
    assert_eq!(parse_request_head(b""), Err("empty request"));
}

#[test]
fn body_must_fit_the_buffer() {
    let h = RequestHead { method_len: 4, path_len: 5, content_length: 100 };
    assert_eq!(body_end(&h, 50, 150), Ok(150));
    assert_eq!(body_end(&h, 51, 150), Err("request body too large"));
    let huge = RequestHead { method_len: 4, path_len: 5, content_length: usize::MAX };
    assert_eq!(body_end(&huge, 10, 2048), Err("request body too large"));
}

#[test]
fn routes() {
    assert_eq!(route("GET", "/"), Route::ShowForm);
    assert_eq!(route("POST", "/save"), Route::Save);
    assert_eq!(route("GET", "/generate_204"), Route::Redirect);
    assert_eq!(route("POST", "/"), Route::MethodNotAllowed);
    assert_eq!(route("PUT", "/save"), Route::MethodNotAllowed);
}

#[test]
fn responses() {
    assert_eq!(
        response_header("200 OK", 1234),
        "HTTP/1.1 200 OK\r\nContent-Type: text/html\r\nContent-Length: 1234\r\nConnection: close\r\n\r\n"
    );
    assert_eq!(
        redirect_response(),
        "HTTP/1.1 302 Found\r\nLocation: http://192.168.4.1/\r\nContent-Length: 0\r\nConnection: close\r\n\r\n"
    );
}

#[test]
fn save_decision_steps() {
    assert_eq!(save_decision(Ok(()), None), SaveDecision::Store);
    assert_eq!(save_decision(Ok(()), Some(Ok(()))), SaveDecision::Reboot);
    assert_eq!(
        save_decision(Ok(()), Some(Err("flash write failed"))),
        SaveDecision::ShowError("flash write failed")
    );
    assert_eq!(save_decision(Err("data port must not be 0"), None), SaveDecision::ShowError("data port must not be 0"));
    assert_eq!(save_decision(Err("bad"), Some(Ok(()))), SaveDecision::ShowError("bad"));
}
