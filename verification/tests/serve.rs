//! What the local preview serves for a request.

use emark_syntax::serve::{
    content_type, head_step, HeadStep, MAX_HEAD, percent_decode, requested_file, response_head, route, Route, HTML,
    METHOD_NOT_ALLOWED_PAGE, NOT_FOUND_PAGE,
};

#[test]
fn percent_escapes_become_the_bytes_they_spell() {
    assert_eq!(percent_decode("%41b%63"), Some("Abc".to_string()));
    assert_eq!(percent_decode("%E5%9B%BE1.png"), Some("图1.png".to_string()));
    assert_eq!(percent_decode("a%2Fb"), Some("a/b".to_string()));
    assert_eq!(percent_decode("%+5"), Some("\u{5}".to_string()));
}

#[test]
fn malformed_escapes_and_broken_utf8_decode_to_nothing() {
    assert_eq!(percent_decode("%zz"), None);
    assert_eq!(percent_decode("abc%4"), None);
    assert_eq!(percent_decode("%"), None);
    assert_eq!(percent_decode("%C3"), None);
}

#[test]
fn the_root_serves_the_page_and_other_paths_their_file() {
    assert_eq!(requested_file("/", "卷子.html"), Some("卷子.html".to_string()));
    assert_eq!(requested_file("/?reload=1", "卷子.html"), Some("卷子.html".to_string()));
    assert_eq!(
        requested_file("/assets/%E5%9B%BE1.png#top", "卷子.html"),
        Some("assets/图1.png".to_string())
    );
    assert_eq!(requested_file("//a/./b//", "卷子.html"), Some("a/b".to_string()));
}

#[test]
fn requests_that_climb_out_or_do_not_start_at_the_root_are_refused() {
    assert_eq!(requested_file("/../secret", "卷子.html"), None);
    assert_eq!(requested_file("/a/%2E%2E/b", "卷子.html"), None);
    assert_eq!(requested_file("a.html", "卷子.html"), None);
    assert_eq!(requested_file("", "卷子.html"), None);
    assert_eq!(requested_file("/%FF", "卷子.html"), None);
}

#[test]
fn the_content_type_follows_the_extension() {
    assert_eq!(content_type("卷子.html"), "text/html; charset=utf-8");
    assert_eq!(content_type("index.HTM"), "text/html; charset=utf-8");
    assert_eq!(content_type("a/style.css"), "text/css; charset=utf-8");
    assert_eq!(content_type("app.js"), "text/javascript; charset=utf-8");
    assert_eq!(content_type("notes.txt"), "text/plain; charset=utf-8");
    assert_eq!(content_type("figure.svg"), "image/svg+xml");
    assert_eq!(content_type("assets/图1.PNG"), "image/png");
    assert_eq!(content_type("photo.jpeg"), "image/jpeg");
    assert_eq!(content_type("photo.Jpg"), "image/jpeg");
    assert_eq!(content_type("x.gif"), "image/gif");
    assert_eq!(content_type("x.webp"), "image/webp");
    assert_eq!(content_type("x.bmp"), "image/bmp");
}

#[test]
fn unknown_or_missing_extensions_are_served_as_binary() {
    assert_eq!(content_type("archive.zip"), "application/octet-stream");
    assert_eq!(content_type(".bashrc"), "application/octet-stream");
    assert_eq!(content_type("README"), "application/octet-stream");
    assert_eq!(content_type("trailing."), "application/octet-stream");
    assert_eq!(content_type("a/.."), "application/octet-stream");
    assert_eq!(content_type("dir.html/."), "text/html; charset=utf-8");
}

#[test]
fn get_and_head_requests_are_routed_to_a_file() {
    assert_eq!(
        route("GET / HTTP/1.1\r\nHost: localhost\r\n\r\n", "卷子.html"),
        Route::File { file: "卷子.html".to_string(), head_only: false }
    );
    assert_eq!(
        route("HEAD /assets/a.png HTTP/1.1\r\n\r\n", "卷子.html"),
        Route::File { file: "assets/a.png".to_string(), head_only: true }
    );
    assert_eq!(
        route("HEAD /../x HTTP/1.1\r\n\r\n", "卷子.html"),
        Route::NotFound { head_only: true }
    );
    assert_eq!(route("GET\r\n\r\n", "卷子.html"), Route::NotFound { head_only: false });
}

#[test]
fn other_methods_are_not_allowed() {
    assert_eq!(route("POST / HTTP/1.1\r\n\r\n", "卷子.html"), Route::MethodNotAllowed);
    assert_eq!(route("get / HTTP/1.1\r\n\r\n", "卷子.html"), Route::MethodNotAllowed);
    assert_eq!(route("", "卷子.html"), Route::MethodNotAllowed);
}

#[test]
fn a_response_head_names_status_type_and_length_and_forbids_caching() {
    assert_eq!(
        response_head(200, "OK", HTML, 12),
        "HTTP/1.1 200 OK\r\nContent-Type: text/html; charset=utf-8\r\nContent-Length: 12\r\nCache-Control: no-store\r\nConnection: close\r\n\r\n"
    );
    assert!(response_head(404, "Not Found", HTML, 0).starts_with("HTTP/1.1 404 Not Found\r\n"));
}

#[test]
fn the_preview_pages_say_what_happened() {
    assert!(NOT_FOUND_PAGE.contains("输出目录里没有这个文件。"));
    assert!(METHOD_NOT_ALLOWED_PAGE.contains("本地预览只提供 GET 与 HEAD 请求。"));
}

#[test]
fn a_request_head_ends_at_its_blank_line_or_is_given_up() {
    assert_eq!(head_step(&b"GET / HTTP/1.1\r\n".to_vec()), HeadStep::More);
    assert_eq!(head_step(&b"GET / HTTP/1.1\r\n\r\n".to_vec()), HeadStep::Complete);
    assert_eq!(head_step(&vec![b'x'; MAX_HEAD]), HeadStep::TooLong);
    assert_eq!(head_step(&vec![b'x'; MAX_HEAD - 1]), HeadStep::More);
    assert_eq!(MAX_HEAD, 8 * 1024);
}
