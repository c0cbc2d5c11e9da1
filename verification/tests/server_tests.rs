use gash::server::{
    file_path, greeting_page, include_is_checkable, ip_is_checkable, ip_parser, request_path, route,
    ssi_command, ssi_response, strip_parent_refs, RequestQueue, Route, SchedMsg, GREETING_HEAD,
    GREETING_TAIL, HTML_HEADER,
};

fn msg(id: u64, peer: &str, size: u64) -> SchedMsg {
    SchedMsg { id, peer: peer.to_string(), file_size: size }
}

#[test]
fn trusted_networks() {
    assert!(ip_parser("127.0.0.1"));
    assert!(ip_parser("127.0.0.1:4414"));
    assert!(ip_parser("128.143.22.1"));
    assert!(ip_parser("137.54.0.9"));
    assert!(!ip_parser("127.1.0.1"));
    assert!(!ip_parser("10.0.0.1"));
    assert!(!ip_parser("localhost"));
    assert!(!ip_parser(""));
}

#[test]
fn addresses_that_cannot_be_checked() {
    assert!(!ip_is_checkable("127"));
    assert!(!ip_is_checkable("128"));
    assert!(ip_is_checkable("10"));
    assert!(ip_is_checkable("127.0.0.1"));
}

#[test]
fn ranking_of_requests() {
    let a = msg(1, "127.0.0.1", 10);
    let b = msg(2, "127.0.0.1", 20);
    let c = msg(3, "10.0.0.1", 30);
    assert!(a.lt(&b));
    assert!(!b.lt(&a));
    assert!(!a.lt(&a));
    assert!(!a.lt(&c));
    assert!(!c.lt(&a));
    let d = msg(4, "137.54.1.1", 40);
    assert!(a.lt(&b) && b.lt(&d) && a.lt(&d));
}

#[test]
fn queue_pops_a_request_nothing_outranks() {
    let mut q = RequestQueue::new();
    assert_eq!(q.pop(), None);
    q.push(msg(1, "127.0.0.1", 10));
    q.push(msg(2, "10.0.0.1", 1000));
    q.push(msg(3, "127.0.0.1", 50));
    q.push(msg(4, "128.143.0.1", 20));
    let first = q.pop().unwrap();
    assert_eq!(first.id, 3);
    let second = q.pop().unwrap();
    assert_eq!(second.id, 4);
    let third = q.pop().unwrap();
    assert_eq!(third.id, 1);
    let fourth = q.pop().unwrap();
    assert_eq!(fourth.id, 2);
    assert_eq!(q.len(), 0);
    assert_eq!(q.pop(), None);
}

#[test]
fn request_paths() {
    assert_eq!(request_path("GET /index.html HTTP/1.1\r\n"), Some("/index.html".to_string()));
    assert_eq!(request_path("GET /"), None);
    assert_eq!(request_path("GET  x"), Some("".to_string()));
}

#[test]
fn parent_references_are_taken_out() {
    assert_eq!(strip_parent_refs("/a/../b"), "/ab");
    assert_eq!(strip_parent_refs("/../../etc/passwd"), "../etc/passwd");
    assert_eq!(strip_parent_refs("/docs/index.html"), "/docs/index.html");
}

#[test]
fn file_paths_under_the_working_directory() {
    assert_eq!(file_path("/home/u", "/index.html"), "/home/u/index.html");
    assert_eq!(file_path("/home/u/", "a//b/"), "/home/u/a/b");
    assert_eq!(file_path("/", "/x"), "/x");
    assert_eq!(file_path("/", ""), "/");
}

#[test]
fn routes() {
    assert_eq!(route("/w/a.shtml", true, false, true), Route::Include);
    assert_eq!(route("/w/a.shtml", true, false, false), Route::Schedule);
    assert_eq!(route("/w/a.html", false, false, true), Route::Greeting);
    assert_eq!(route("/w", true, true, true), Route::Greeting);
    assert_eq!(route("/w/a.html", true, false, true), Route::Schedule);
}

#[test]
fn greeting_page_shows_the_count() {
    let page = greeting_page(42);
    assert_eq!(page, format!("{}42{}", GREETING_HEAD, GREETING_TAIL));
    assert!(page.starts_with(HTML_HEADER));
    assert!(page.contains("<h2>Visitor count: 42</h2>"));
    assert!(page.ends_with("</body></html>\r\n"));
}

#[test]
fn server_side_includes() {
    let page = "<html><!--#exec cmd=\"ls\" --></html>";
    assert!(include_is_checkable(page));
    assert_eq!(ssi_command(page), Some("ls".to_string()));
    assert_eq!(ssi_command("<html></html>"), None);
    assert!(!include_is_checkable("<!--#exec cmd"));
    assert_eq!(
        ssi_response(page, "a b"),
        format!("{}<html><p>a b</p></html>", HTML_HEADER)
    );
}
