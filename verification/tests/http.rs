//! Telling connections apart.

use starstream_run::http::{answer, classify, contains_word, peek, response, Head, Peeked};

fn http(method: &str, path: &str) -> Peeked {
    Peeked::Http { method: method.to_string(), path: path.to_string() }
}

#[test]
fn upgrades_are_recognised() {
    assert_eq!(
        peek(b"GET / HTTP/1.1\r\nHost: a\r\nUpgrade: websocket\r\nConnection: Upgrade\r\n\r\n"),
        Peeked::WebSocket
    );
    assert_eq!(
        peek(b"GET / HTTP/1.1\r\nuPGRADE: h2c, WebSocket\r\n\r\n"),
        Peeked::WebSocket
    );
    // A head that ends early still tells.
    assert_eq!(
        peek(b"GET / HTTP/1.1\r\nUpgrade: websocket\r\nSec-WebSocket-K"),
        Peeked::WebSocket
    );
    assert_eq!(
        peek(b"GET / HTTP/1.1\r\nUpgrade: websockets\r\n\r\n"),
        http("GET", "/")
    );
    assert_eq!(
        peek(b"GET / HTTP/1.1\r\nX-Upgrade: websocket\r\n\r\n"),
        http("GET", "/")
    );
}

#[test]
fn paths_lose_their_query() {
    assert_eq!(peek(b"GET /a/b?c=d#e HTTP/1.1\r\n\r\n"), http("GET", "/a/b"));
    assert_eq!(peek(b"POST /a#e?c HTTP/1.1\r\n\r\n"), http("POST", "/a"));
    assert_eq!(peek(b"GET / HTTP/1.1\r\n\r\n"), http("GET", "/"));
    assert_eq!(peek(b""), http("", ""));
    assert_eq!(peek(b"\x00\x01"), http("", ""));
}

#[test]
fn heads_are_classified() {
    let head = |headers: Vec<(&str, &[u8])>| Head {
        method: Some("GET".to_string()),
        path: None,
        headers: headers.into_iter().map(|(n, v)| (n.to_string(), v.to_vec())).collect(),
    };
    assert_eq!(classify(&head(vec![])), http("GET", ""));
    assert_eq!(classify(&head(vec![("Upgrade", b"")])), http("GET", ""));
    assert_eq!(
        classify(&head(vec![("a", b"b"), ("upgrade", b"x,websocket")])),
        Peeked::WebSocket
    );
}

#[test]
fn words_stand_between_separators() {
    assert!(contains_word(b"websocket", b"websocket"));
    assert!(contains_word(b"a, WEBSOCKET ,b", b"websocket"));
    assert!(!contains_word(b"awebsocket", b"websocket"));
    assert!(!contains_word(b"web socket", b"websocket"));
    assert!(!contains_word(b"", b"websocket"));
    assert!(contains_word(b"a,,b", b""));
}

#[test]
fn requests_are_answered() {
    assert_eq!(
        response("200 OK", "\u{e9}\n"),
        "HTTP/1.1 200 OK\r\ncontent-type: text/plain; charset=utf-8\r\ncontent-length: 3\r\n\
         connection: close\r\n\r\n\u{e9}\n"
    );
    assert_eq!(answer(&http("GET", "/"), "wit"), Some(response("200 OK", "wit")));
    assert_eq!(
        answer(&http("GET", "/x"), "wit"),
        Some(response("404 Not Found", "not found\n"))
    );
    assert_eq!(
        answer(&http("POST", "/"), "wit"),
        Some(response("405 Method Not Allowed", "method not allowed\n"))
    );
    assert_eq!(answer(&Peeked::WebSocket, "wit"), None);
}
