use dhdesktop::proxy::{head_progress, rewrite_head, HeadProgress, Upstream, MAX_HEAD_BYTES};

fn upstream() -> Upstream {
    Upstream { port: 3899, cookie: "dsh-auth-q=v1.s".to_string() }
}

#[test]
fn headers_point_at_the_upstream() {
    let head = b"GET /api/x HTTP/1.1\r\nHost: localhost:1420\r\nOrigin: http://localhost:1420\r\ncookie: a=b \r\nReferer: http://localhost:1420/\r\nAccept: */*\r\n\r\n";
    assert_eq!(
        rewrite_head(head, &upstream()),
        "GET /api/x HTTP/1.1\r\nHost: 127.0.0.1:3899\r\nOrigin: http://127.0.0.1:3899\r\nCookie: dsh-auth-q=v1.s; a=b\r\nAccept: */*\r\n\r\n"
    );
}

#[test]
fn missing_origin_and_cookie_are_added() {
    let head = b"GET /ws HTTP/1.1\r\nHOST: x\r\nUpgrade: websocket\r\nnot a header\r\n\r\n";
    assert_eq!(
        rewrite_head(head, &upstream()),
        "GET /ws HTTP/1.1\r\nHost: 127.0.0.1:3899\r\nUpgrade: websocket\r\nOrigin: http://127.0.0.1:3899\r\nCookie: dsh-auth-q=v1.s\r\n\r\n"
    );
}

#[test]
fn head_reading_progress() {
    assert_eq!(head_progress(b"GET / HTTP/1.1\r\n"), HeadProgress::More);
    assert_eq!(head_progress(b"GET / HTTP/1.1\r\n\r\n"), HeadProgress::Complete);
    assert_eq!(head_progress(b""), HeadProgress::More);
    let big = vec![b'a'; MAX_HEAD_BYTES + 1];
    assert_eq!(head_progress(&big), HeadProgress::TooLarge);
    assert_eq!(head_progress(&vec![b'a'; MAX_HEAD_BYTES]), HeadProgress::More);
}
