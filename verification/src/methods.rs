//! The method/path router: within a method, exact paths map to handlers and
//! everything else falls back to the greeting handler. Only GET is wired to
//! the real store handlers; the write methods echo their path, and the
//! error handler wraps any description in the uniform message envelope.
use vstd::prelude::*;

use crate::bytes::{append_str, bytes_eq, push_bytes};
use crate::controllers::{content_of, json_todo_list, new_record, spec_invalid_payload,
    spec_todos_doc, TodoController};
use crate::request::{ReqView, Request};
use crate::response::{spec_json, spec_render, Response};
use crate::todo::Todos;

verus! {

use vstd::string::StringSliceAdditionalSpecFns;

/// The router's handler set.
pub struct Methods;

/// The greeting document of the fallback route: the `name` query parameter,
/// or `World`, folded into a goodbye message.
pub open spec fn spec_goodbye(req: ReqView) -> Seq<u8> {
    "{\"message\": \"Goodbye, ".spec_bytes() + (if req.query.contains_key("name".spec_bytes()) {
        req.query["name".spec_bytes()]
    } else {
        "World".spec_bytes()
    }) + "!\"}".spec_bytes()
}

/// The echo document of a write method that is only stubbed.
pub open spec fn spec_echo(method_word: Seq<u8>, path: Seq<u8>) -> Seq<u8> {
    "{\"message\": \"".spec_bytes() + method_word + " request received for path: ".spec_bytes()
        + path + "\"}".spec_bytes()
}

/// The uniform error envelope.
pub open spec fn spec_error_doc(e: Seq<u8>) -> Seq<u8> {
    "{\"message\": \"".spec_bytes() + e + "\"}".spec_bytes()
}

/// The goodbye greeting for a request.
fn goodbye(req: &Request) -> (r: Response)
    ensures
        r@ == spec_json(200, spec_goodbye(req@), Seq::<(Seq<u8>, Seq<u8>)>::empty()),
{
    let mut body: Vec<u8> = Vec::new();
    append_str(&mut body, "{\"message\": \"Goodbye, ");
    match req.query_get("name".as_bytes()) {
        Some(v) => push_bytes(&mut body, v.as_slice()),
        None => append_str(&mut body, "World"),
    }
    append_str(&mut body, "!\"}");
    proof {
        assert(body@ =~= spec_goodbye(req@));
    }
    Response::json(200, body.as_slice(), None)
}

impl Methods {
    /// GET routing: `/todos` lists the store, every other path greets.
    pub fn handle_get(req: Request, todos: &Todos) -> (r: Response)
        ensures
            r@ == (if req@.path == "/todos".spec_bytes() {
                spec_json(200, spec_todos_doc(todos@), Seq::<(Seq<u8>, Seq<u8>)>::empty())
            } else {
                spec_json(200, spec_goodbye(req@), Seq::<(Seq<u8>, Seq<u8>)>::empty())
            }),
    {
        if bytes_eq(req.path.as_slice(), "/todos".as_bytes()) {
            TodoController::get_all_todos(todos)
        } else {
            goodbye(&req)
        }
    }

    /// POST routing: `/todos` adds the record the payload's `content` field
    /// names (or rejects the payload with 400 and an unchanged store); every
    /// other path greets and leaves the store alone.
    pub fn handle_post(req: Request, todos: &mut Todos) -> (r: Response)
        requires
            old(todos)@.len() < u32::MAX,
        ensures
            req@.path == "/todos".spec_bytes() ==> (content_of(req@.content) matches Some(title)
                ==> final(todos)@ == old(todos)@.push(new_record(old(todos)@, title)) && r@
                == spec_json(
                201,
                json_todo_list(final(todos)@),
                Seq::<(Seq<u8>, Seq<u8>)>::empty(),
            )),
            req@.path == "/todos".spec_bytes() && content_of(req@.content) is None
                ==> final(todos)@ == old(todos)@ && r@ == spec_json(
                400,
                spec_invalid_payload(),
                Seq::<(Seq<u8>, Seq<u8>)>::empty(),
            ),
            req@.path != "/todos".spec_bytes() ==> final(todos)@ == old(todos)@ && r@ == spec_json(
                200,
                spec_goodbye(req@),
                Seq::<(Seq<u8>, Seq<u8>)>::empty(),
            ),
    {
        if bytes_eq(req.path.as_slice(), "/todos".as_bytes()) {
            TodoController::add_todo(req, todos)
        } else {
            goodbye(&req)
        }
    }

    /// PUT is stubbed: it only echoes the path it was asked about.
    pub fn handle_put(req: Request) -> (r: Response)
        ensures
            r@ == spec_json(
                200,
                spec_echo("PUT".spec_bytes(), req@.path),
                Seq::<(Seq<u8>, Seq<u8>)>::empty(),
            ),
    {
        let mut body: Vec<u8> = Vec::new();
        append_str(&mut body, "{\"message\": \"PUT request received for path: ");
        push_bytes(&mut body, req.path.as_slice());
        append_str(&mut body, "\"}");
        proof {
            reveal_strlit("{\"message\": \"PUT request received for path: ");
            reveal_strlit("{\"message\": \"");
            reveal_strlit("PUT");
            reveal_strlit(" request received for path: ");
            vstd::string::is_ascii_spec_bytes("{\"message\": \"PUT request received for path: ");
            vstd::string::is_ascii_spec_bytes("{\"message\": \"");
            vstd::string::is_ascii_spec_bytes("PUT");
            vstd::string::is_ascii_spec_bytes(" request received for path: ");
            assert(body@ =~= spec_json(
                200,
                spec_echo("PUT".spec_bytes(), req@.path),
                Seq::<(Seq<u8>, Seq<u8>)>::empty(),
            ).body);
        }
        Response::json(200, body.as_slice(), None)
    }

    /// DELETE is stubbed: it only echoes the path it was asked about.
    pub fn handle_delete(req: Request) -> (r: Response)
        ensures
            r@ == spec_json(
                200,
                spec_echo("DELETE".spec_bytes(), req@.path),
                Seq::<(Seq<u8>, Seq<u8>)>::empty(),
            ),
    {
        let mut body: Vec<u8> = Vec::new();
        append_str(&mut body, "{\"message\": \"DELETE request received for path: ");
        push_bytes(&mut body, req.path.as_slice());
        append_str(&mut body, "\"}");
        proof {
            reveal_strlit("{\"message\": \"DELETE request received for path: ");
            reveal_strlit("{\"message\": \"");
            reveal_strlit("DELETE");
            reveal_strlit(" request received for path: ");
            vstd::string::is_ascii_spec_bytes(
                "{\"message\": \"DELETE request received for path: ",
            );
            vstd::string::is_ascii_spec_bytes("{\"message\": \"");
            vstd::string::is_ascii_spec_bytes("DELETE");
            vstd::string::is_ascii_spec_bytes(" request received for path: ");
            assert(body@ =~= spec_json(
                200,
                spec_echo("DELETE".spec_bytes(), req@.path),
                Seq::<(Seq<u8>, Seq<u8>)>::empty(),
            ).body);
        }
        Response::json(200, body.as_slice(), None)
    }

    /// Wraps an error description in the uniform message envelope; errors
    /// are served under status 200, one uniform envelope for every outcome.
    pub fn handle_error(error: &str) -> (r: Response)
        ensures
            r@ == spec_json(
                200,
                spec_error_doc(error.spec_bytes()),
                Seq::<(Seq<u8>, Seq<u8>)>::empty(),
            ),
    {
        let mut body: Vec<u8> = Vec::new();
        append_str(&mut body, "{\"message\": \"");
        append_str(&mut body, error);
        append_str(&mut body, "\"}");
        proof {
            assert(body@ =~= spec_error_doc(error.spec_bytes()));
        }
        Response::json(200, body.as_slice(), None)
    }

    /// Serializes a response to wire bytes; the router's alias for the
    /// codec's encode half.
    pub fn to_string(response: &Response) -> (r: Vec<u8>)
        ensures
            r@ == spec_render(response@),
    {
        Response::resolve(response)
    }
}

} // verus!
