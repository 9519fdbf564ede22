use server::connection::handle_connection;
use server::controllers::TodoController;
use server::methods::Methods;
use server::request::Request;
use server::response::Response;
use server::todo::{PersistTodos, Todos};

fn parse(buf: &[u8]) -> Request {
    Request::new(buf).expect("buffer should decode")
}

fn body_of(wire: &[u8]) -> Vec<u8> {
    let sep = wire
        .windows(4)
        .position(|w| w == b"\r\n\r\n")
        .expect("blank line present");
    wire[sep + 4..].to_vec()
}

#[test]
fn get_todos_on_empty_store_lists_nothing() {
    let store = Todos::new();
    let wire = handle_connection(b"GET /todos HTTP/1.1\r\n\r\n", &store);
    assert_eq!(
        wire,
        b"HTTP/1.1 200 OK\r\nContent-Type: application/json\r\nContent-Length: 12\r\n\r\n{\"todos\":[]}".to_vec()
    );
}

#[test]
fn post_todos_adds_the_first_record() {
    let mut store = Todos::new();
    let req = parse(b"POST /todos HTTP/1.1\r\n\r\n{\"content\":\"buy milk\"}");
    let resp = Methods::handle_post(req, &mut store);
    assert_eq!(resp.status_text, b"201 Created".to_vec());
    assert_eq!(
        resp.body,
        b"[{\"id\":1,\"title\":\"buy milk\",\"completed\":false}]".to_vec()
    );
    let records = store.get_all_todos();
    assert_eq!(records.len(), 1);
    assert_eq!(records[0].id, 1);
    assert_eq!(records[0].title, b"buy milk".to_vec());
    assert!(!records[0].completed);
}

#[test]
fn goodbye_uses_the_name_query_parameter() {
    let store = Todos::new();
    let wire = handle_connection(b"GET /?name=Ada HTTP/1.1\r\n\r\n", &store);
    assert_eq!(body_of(&wire), b"{\"message\": \"Goodbye, Ada!\"}".to_vec());
}

#[test]
fn goodbye_defaults_to_world() {
    let store = Todos::new();
    let wire = handle_connection(b"GET / HTTP/1.1\r\n\r\n", &store);
    assert_eq!(body_of(&wire), b"{\"message\": \"Goodbye, World!\"}".to_vec());
}

#[test]
fn non_get_methods_get_the_invalid_method_envelope() {
    let store = Todos::new();
    let wire = handle_connection(b"DELETE /todos HTTP/1.1\r\n\r\n", &store);
    assert_eq!(body_of(&wire), b"{\"message\": \"Invalid Method\"}".to_vec());
}

#[test]
fn malformed_buffer_still_gets_a_well_formed_response() {
    let store = Todos::new();
    let wire = handle_connection(b"GET / HTTP/1.1\r\n", &store);
    assert_eq!(
        body_of(&wire),
        b"{\"message\": \"missing header/body separator\"}".to_vec()
    );
    let text = String::from_utf8(wire).unwrap();
    assert!(text.starts_with("HTTP/1.1 200 OK\r\n"));
}

#[test]
fn invalid_json_payload_is_rejected_with_400() {
    let mut store = Todos::new();
    let req = parse(b"POST /todos HTTP/1.1\r\n\r\nnot json at all");
    let resp = Methods::handle_post(req, &mut store);
    assert_eq!(resp.status_text, b"400 Bad Request".to_vec());
    assert_eq!(resp.body, b"{\"error\": \"Invalid JSON format\"}".to_vec());
    assert_eq!(store.get_all_todos().len(), 0);
}

#[test]
fn payload_without_content_field_is_rejected() {
    let mut store = Todos::new();
    let req = parse(b"POST /todos HTTP/1.1\r\n\r\n{\"title\":\"x\"}");
    let resp = TodoController::add_todo(req, &mut store);
    assert_eq!(resp.status_text, b"400 Bad Request".to_vec());
    assert_eq!(store.get_all_todos().len(), 0);
}

#[test]
fn payload_with_non_string_content_is_rejected() {
    let mut store = Todos::new();
    let req = parse(b"POST /todos HTTP/1.1\r\n\r\n{\"content\":7}");
    let resp = TodoController::add_todo(req, &mut store);
    assert_eq!(resp.status_text, b"400 Bad Request".to_vec());
}

#[test]
fn titles_are_json_escaped_in_listings() {
    let mut store = Todos::new();
    let resp = TodoController::add_todo_with_title(&mut store, b"say \"hi\" \\ now".to_vec());
    assert_eq!(
        resp.body,
        b"[{\"id\":1,\"title\":\"say \\\"hi\\\" \\\\ now\",\"completed\":false}]".to_vec()
    );
    let resp = TodoController::add_todo_with_title(&mut store, b"line\nbreak\x01".to_vec());
    let text = String::from_utf8(resp.body).unwrap();
    assert!(text.contains("line\\nbreak\\u0001"));
}

#[test]
fn listing_grows_with_each_added_record() {
    let mut store = Todos::new();
    TodoController::add_todo_with_title(&mut store, b"one".to_vec());
    TodoController::add_todo_with_title(&mut store, b"two".to_vec());
    let resp = TodoController::get_all_todos(&store);
    assert_eq!(
        resp.body,
        b"{\"todos\":[{\"id\":1,\"title\":\"one\",\"completed\":false},{\"id\":2,\"title\":\"two\",\"completed\":false}]}".to_vec()
    );
}

#[test]
fn put_and_delete_echo_their_path() {
    let req = parse(b"PUT /things HTTP/1.1\r\n\r\n");
    let resp = Methods::handle_put(req);
    assert_eq!(
        resp.body,
        b"{\"message\": \"PUT request received for path: /things\"}".to_vec()
    );
    let req = parse(b"DELETE /things HTTP/1.1\r\n\r\n");
    let resp = Methods::handle_delete(req);
    assert_eq!(
        resp.body,
        b"{\"message\": \"DELETE request received for path: /things\"}".to_vec()
    );
}

#[test]
fn handle_error_wraps_the_description() {
    let resp = Methods::handle_error("something broke");
    assert_eq!(resp.status_text, b"200 OK".to_vec());
    assert_eq!(resp.body, b"{\"message\": \"something broke\"}".to_vec());
}

#[test]
fn to_string_matches_resolve() {
    let resp = Response::json(200, b"{}", None);
    assert_eq!(Methods::to_string(&resp), Response::resolve(&resp));
}

#[test]
fn post_to_other_paths_greets_and_leaves_the_store_alone() {
    let mut store = Todos::new();
    let req = parse(b"POST /other?name=Bo HTTP/1.1\r\n\r\n{\"content\":\"x\"}");
    let resp = Methods::handle_post(req, &mut store);
    assert_eq!(resp.body, b"{\"message\": \"Goodbye, Bo!\"}".to_vec());
    assert_eq!(store.get_all_todos().len(), 0);
}
