use toy_http::HttpServer;
use toy_http::error::{HttpError, RegisterError};
use toy_http::request::Request;
use toy_http::response::Response;
use toy_http::route::{CompileError, HttpMethod, Route};

type Handler = fn(&Request) -> Response;

fn index(_req: &Request) -> Response {
    Response::new("Hello world")
}

fn api_param(req: &Request) -> Response {
    let param: i32 = req.get_param("param");
    let body = format!("Received int {}", param);
    Response::new(&body)
}

fn server() -> HttpServer<Handler> {
    HttpServer::bind(5000)
}

#[test]
fn int_pattern_matches_digits() {
    let s = server().get("/api/<id:int>", api_param).unwrap();
    let r = s.lookup(HttpMethod::Get, "/api/42");
    let (idx, parts) = r.expect("route should match");
    assert_eq!(idx, 0);
    assert_eq!(parts, vec!["42".to_string()]);
}

#[test]
fn int_pattern_rejects_letters() {
    let s = server().get("/api/<id:int>", api_param).unwrap();
    assert!(s.lookup(HttpMethod::Get, "/api/abc").is_none());
    let raw = "GET /api/abc HTTP/1.1\r\n\r\n";
    assert_eq!(s.dispatch(raw).err().unwrap(), HttpError::NotFound);
}

#[test]
fn int_param_extracts_value() {
    let s = server().get("/api/<id:int>", api_param).unwrap();
    let raw = "GET /api/42 HTTP/1.1\r\n\r\n";
    let (idx, req) = s.dispatch(raw).expect("dispatch should succeed");
    assert_eq!(idx, 0);
    let id: i32 = req.get_param("id");
    assert_eq!(id, 42);
}

#[test]
fn float_pattern_accepts_forms() {
    let s = server().get("/x/<v:float>", index).unwrap();
    assert!(s.lookup(HttpMethod::Get, "/x/3.14").is_some());
    assert!(s.lookup(HttpMethod::Get, "/x/-2").is_some());
    assert!(s.lookup(HttpMethod::Get, "/x/+0.5").is_some());
    assert!(s.lookup(HttpMethod::Get, "/x/abc").is_none());
}

#[test]
fn float_pattern_rejects_stray_dots() {
    let s = server().get("/x/<v:float>", index).unwrap();
    assert!(s.lookup(HttpMethod::Get, "/x/1.2.3").is_none());
    assert!(s.lookup(HttpMethod::Get, "/x/5.").is_none());
    assert!(s.lookup(HttpMethod::Get, "/x/.5").is_some());
}

#[test]
fn unknown_placeholder_type_fails_compilation() {
    let r = Route::new(&"/a/<n:bool>".to_string(), HttpMethod::Get);
    assert_eq!(r.err().unwrap(), CompileError::UnknownParamType);
    let via_server = server().get("/a/<n:bool>", index);
    assert_eq!(
        via_server.err().unwrap(),
        RegisterError::Compile(CompileError::UnknownParamType)
    );
}

#[test]
fn duplicate_route_is_refused() {
    let s = server().get("/", index).unwrap();
    let second = s.get("/", index);
    assert_eq!(second.err().unwrap(), RegisterError::DuplicateRoute);
}

#[test]
fn same_pattern_other_method_is_allowed() {
    let s = server().get("/", index).unwrap();
    assert!(s.post("/", index).is_ok());
}

#[test]
fn duplicate_param_names_fail_compilation() {
    let r = Route::new(&"/a/<x:int>/<x:str>".to_string(), HttpMethod::Get);
    assert_eq!(r.err().unwrap(), CompileError::DuplicateParamName);
}

#[test]
fn type_token_is_case_insensitive() {
    assert!(Route::new(&"/a/<id:Int>".to_string(), HttpMethod::Get).is_ok());
    assert!(Route::new(&"/a/<id:FLOAT>".to_string(), HttpMethod::Get).is_ok());
}

#[test]
fn earliest_registered_route_wins_overlap() {
    let s = server()
        .get("/api/42", index)
        .unwrap()
        .get("/api/<id:int>", api_param)
        .unwrap();
    let (idx, _) = s.lookup(HttpMethod::Get, "/api/42").unwrap();
    assert_eq!(idx, 0);
    let (idx2, _) = s.lookup(HttpMethod::Get, "/api/7").unwrap();
    assert_eq!(idx2, 1);

    let flipped = server()
        .get("/api/<id:int>", api_param)
        .unwrap()
        .get("/api/42", index)
        .unwrap();
    let (idx3, _) = flipped.lookup(HttpMethod::Get, "/api/42").unwrap();
    assert_eq!(idx3, 0);
}

#[test]
fn non_overlapping_routes_resolve_uniquely() {
    let s = server()
        .get("/one", index)
        .unwrap()
        .get("/two", index)
        .unwrap()
        .get("/three", index)
        .unwrap();
    assert_eq!(s.lookup(HttpMethod::Get, "/one").unwrap().0, 0);
    assert_eq!(s.lookup(HttpMethod::Get, "/two").unwrap().0, 1);
    assert_eq!(s.lookup(HttpMethod::Get, "/three").unwrap().0, 2);
    assert!(s.lookup(HttpMethod::Get, "/four").is_none());
}

#[test]
fn method_must_match() {
    let s = server().get("/only-get", index).unwrap();
    assert!(s.lookup(HttpMethod::Get, "/only-get").is_some());
    assert!(s.lookup(HttpMethod::Post, "/only-get").is_none());
}

#[test]
fn whole_path_must_match() {
    let s = server().get("/api", index).unwrap();
    assert!(s.lookup(HttpMethod::Get, "/api").is_some());
    assert!(s.lookup(HttpMethod::Get, "/api/x").is_none());
    assert!(s.lookup(HttpMethod::Get, "/ap").is_none());
}

#[test]
fn str_param_spans_and_backtracks() {
    let s = server().get("/f/<name:str>", index).unwrap();
    let (_, parts) = s.lookup(HttpMethod::Get, "/f/readme.txt").unwrap();
    assert_eq!(parts, vec!["readme.txt".to_string()]);

    let t = server().get("/<a:str>/x", index).unwrap();
    let (_, parts2) = t.lookup(HttpMethod::Get, "/b/x/x").unwrap();
    assert_eq!(parts2, vec!["b/x".to_string()]);
}

#[test]
fn multiple_params_bind_in_order() {
    let s = server().get("/u/<name:str>/p/<id:int>", index).unwrap();
    let raw = "GET /u/alice/p/7 HTTP/1.1\r\n\r\n";
    let (_, req) = s.dispatch(raw).unwrap();
    let name: String = req.get_param("name");
    let id: i32 = req.get_param("id");
    assert_eq!(name, "alice");
    assert_eq!(id, 7);
}

#[test]
fn oversized_int_param_is_parse_error() {
    let s = server().get("/api/<id:int>", api_param).unwrap();
    let ok = s.dispatch("GET /api/2147483647 HTTP/1.1\r\n\r\n");
    assert!(ok.is_ok());
    let too_big = s.dispatch("GET /api/2147483648 HTTP/1.1\r\n\r\n");
    assert_eq!(too_big.err().unwrap(), HttpError::ParseError);
}

#[test]
fn workers_setting_is_kept() {
    let s = server().workers(4);
    assert_eq!(s.workers, 4);
    assert_eq!(s.port, 5000);
}

#[test]
fn distinct_routes_each_get_own_response() {
    let mut s = server();
    for i in 0..8 {
        let pattern = format!("/r{}", i);
        s = s.get(&pattern, index).unwrap();
    }
    for i in 0..8usize {
        let raw = format!("GET /r{} HTTP/1.1\r\n\r\n", i);
        let (idx, req) = s.dispatch(&raw).unwrap();
        assert_eq!(idx, i);
        assert_eq!(req.uri, format!("/r{}", i));
        let handler = s.routes[idx].1;
        let resp = handler(&req);
        assert_eq!(resp.body, "Hello world");
    }
}
