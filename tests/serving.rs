use rust_web_server::request::{parse_request, Request};
use rust_web_server::response::{decimal_string, reason_phrase, Response};
use rust_web_server::routing::Router;
use rust_web_server::server::Server;

type Handler = fn(Request, &mut Response);

fn hello(_req: Request, res: &mut Response) {
    res.set_status(200);
    res.send("hi");
}

fn echo(req: Request, res: &mut Response) {
    let body = String::from_utf8(req.body().cloned().unwrap_or_default()).unwrap();
    res.send(&body);
}

fn search(req: Request, res: &mut Response) {
    assert_eq!(req.path, "/search");
    let q = req.query_params.get("q").unwrap().clone();
    let page = req.query_params.get("page").unwrap().clone();
    res.send(&format!("{q}/{page}"));
}

fn created(_req: Request, res: &mut Response) {
    res.set_status(201);
}

/// Parses, dispatches and frames one request, as a connection job does.
fn serve(server: &Server<Handler>, msg: &str) -> String {
    let (req, _) = parse_request(&msg.as_bytes().to_vec()).unwrap();
    match server.route_for(&req) {
        Some(h) => {
            let mut res = Response::ok();
            let h = *h;
            h(req, &mut res);
            res.serialize()
        }
        None => Response::not_found().serialize(),
    }
}

#[test]
fn exact_get_match() {
    let mut server: Server<Handler> = Server::new();
    server.get("/hello".to_string(), hello);
    let out = serve(&server, "GET /hello HTTP/1.1\r\nHost: x\r\n\r\n");
    assert_eq!(out, "HTTP/1.1 200 OK\r\nContent-Length: 2\r\n\r\nhi");
}

#[test]
fn handler_reads_query() {
    let mut server: Server<Handler> = Server::new();
    server.get("/search".to_string(), search);
    let out = serve(&server, "GET /search?q=cats&page=2 HTTP/1.1\r\n\r\n");
    assert_eq!(out, "HTTP/1.1 200 OK\r\nContent-Length: 6\r\n\r\ncats/2");
}

#[test]
fn post_echoes_body() {
    let mut server: Server<Handler> = Server::new();
    server.post("/echo".to_string(), echo);
    let out = serve(&server, "POST /echo HTTP/1.1\r\nContent-Length: 5\r\n\r\nhello");
    assert_eq!(out, "HTTP/1.1 200 OK\r\nContent-Length: 5\r\n\r\nhello");
}

#[test]
fn lowercase_length_header_body_reaches_handler() {
    let mut server: Server<Handler> = Server::new();
    server.post("/echo".to_string(), echo);
    let out = serve(&server, "POST /echo HTTP/1.1\r\ncontent-length: 3\r\n\r\nabc");
    assert_eq!(out, "HTTP/1.1 200 OK\r\nContent-Length: 3\r\n\r\nabc");
}

#[test]
fn unmatched_route_gets_404() {
    let mut server: Server<Handler> = Server::new();
    server.get("/hello".to_string(), hello);
    let out = serve(&server, "GET /missing HTTP/1.1\r\n\r\n");
    assert_eq!(out, "HTTP/1.1 404 Not Found\r\nContent-Length: 0\r\n\r\n");
    let out = serve(&server, "POST /hello HTTP/1.1\r\n\r\n");
    assert_eq!(out, "HTTP/1.1 404 Not Found\r\nContent-Length: 0\r\n\r\n");
}

#[test]
fn new_server_has_no_routes() {
    let server: Server<Handler> = Server::new();
    assert_eq!(server.routes().len(), 0);
    let out = serve(&server, "GET / HTTP/1.1\r\n\r\n");
    assert!(out.starts_with("HTTP/1.1 404 Not Found\r\n"));
}

#[test]
fn first_registered_route_wins() {
    let mut router: Router<u32> = Router::new();
    router.get("/a".to_string(), 1);
    router.post("/a".to_string(), 2);
    router.get("/a".to_string(), 3);
    router.get("/b".to_string(), 4);
    assert_eq!(router.lookup("GET", "/a"), Some(0));
    assert_eq!(router.lookup("POST", "/a"), Some(1));
    assert_eq!(router.find("GET", "/b"), Some(&4));
    assert_eq!(router.lookup("GET", "/a/"), None);
    assert_eq!(router.lookup("get", "/a"), None);
    assert_eq!(*router.handler(2), 3);
}

#[test]
fn use_routes_replaces_table() {
    let mut server: Server<u32> = Server::new();
    server.get("/old".to_string(), 1);
    let mut router: Router<u32> = Router::new();
    router.post("/new".to_string(), 2);
    server.use_routes(router);
    assert_eq!(server.routes().lookup("GET", "/old"), None);
    assert_eq!(server.routes().find("POST", "/new"), Some(&2));
}

#[test]
fn get_routes_hands_over_in_order() {
    let mut router: Router<u32> = Router::new();
    router.get("/x".to_string(), 7);
    router.post("/y".to_string(), 8);
    let routes = router.get_routes().unwrap();
    assert_eq!(routes.len(), 2);
    assert_eq!((routes[0].method.as_str(), routes[0].path.as_str(), routes[0].handler), ("GET", "/x", 7));
    assert_eq!((routes[1].method.as_str(), routes[1].path.as_str(), routes[1].handler), ("POST", "/y", 8));
}

#[test]
fn status_and_headers_are_framed() {
    let mut server: Server<Handler> = Server::new();
    server.post("/make".to_string(), created);
    let out = serve(&server, "POST /make HTTP/1.1\r\n\r\n");
    assert_eq!(out, "HTTP/1.1 201 Created\r\nContent-Length: 0\r\n\r\n");

    let mut res = Response::new(200, Some("é".to_string()));
    res.set_headers("Content-Type".to_string(), "text/plain");
    res.set_headers("X-A".to_string(), "1");
    assert_eq!(
        res.serialize(),
        "HTTP/1.1 200 OK\r\nContent-Length: 2\r\nContent-Type: text/plain\r\nX-A: 1\r\n\r\né"
    );
}

#[test]
fn set_status_returns_new_status() {
    let mut res = Response::ok();
    assert_eq!(res.set_status(404), 404);
    assert_eq!(res.status, 404);
}

#[test]
fn reason_phrases() {
    assert_eq!(reason_phrase(200), "OK");
    assert_eq!(reason_phrase(404), "Not Found");
    assert_eq!(reason_phrase(500), "Internal Server Error");
    assert_eq!(reason_phrase(418), "Client Error");
    assert_eq!(reason_phrase(102), "Informational");
}

#[test]
fn decimal_formatting() {
    assert_eq!(decimal_string(0), "0");
    assert_eq!(decimal_string(7), "7");
    assert_eq!(decimal_string(10), "10");
    assert_eq!(decimal_string(1234509), "1234509");
    assert_eq!(decimal_string(usize::MAX), usize::MAX.to_string());
}

#[test]
fn default_response_is_plain_200() {
    let res = Response::default();
    assert_eq!(res.status, 200);
    assert_eq!(res.body, None);
    assert_eq!(res.serialize(), "HTTP/1.1 200 OK\r\nContent-Length: 0\r\n\r\n");
}
