//! The per-connection compute: one accumulated request buffer in, one
//! serialized response out. Reading the buffer from a socket and writing
//! the answer back are the embedding program's work; everything between is
//! decided here, exactly as `spec_handle_connection` states it.
use vstd::prelude::*;

use crate::bytes::bytes_eq;
use crate::controllers::spec_todos_doc;
use crate::methods::{spec_error_doc, spec_goodbye, Methods};
use crate::request::{spec_parse, Request};
use crate::response::{spec_json, spec_render, Response};
use crate::todo::Todos;

verus! {

use vstd::string::StringSliceAdditionalSpecFns;

/// The wire bytes a connection is answered with: the decoded request goes
/// through GET routing (any other method, like any parse failure, gets the
/// uniform error envelope under status 200), and the resulting response is
/// serialized.
pub open spec fn spec_handle_connection(s: Seq<u8>, ts: Seq<crate::todo::TodoView>) -> Seq<u8> {
    match spec_parse(s) {
        Ok(rv) => {
            if rv.method == "GET".spec_bytes() {
                if rv.path == "/todos".spec_bytes() {
                    spec_render(spec_json(200, spec_todos_doc(ts), Seq::<(Seq<u8>, Seq<u8>)>::empty()))
                } else {
                    spec_render(spec_json(200, spec_goodbye(rv), Seq::<(Seq<u8>, Seq<u8>)>::empty()))
                }
            } else {
                spec_render(
                    spec_json(
                        200,
                        spec_error_doc("Invalid Method".spec_bytes()),
                        Seq::<(Seq<u8>, Seq<u8>)>::empty(),
                    ),
                )
            }
        },
        Err(e) => spec_render(
            spec_json(
                200,
                spec_error_doc(vstd::utf8::encode_utf8(e.spec_message())),
                Seq::<(Seq<u8>, Seq<u8>)>::empty(),
            ),
        ),
    }
}

/// Handles one connection's accumulated bytes: decode, route, serialize.
/// The store is only read; one request gets exactly one response.
pub fn handle_connection(buffer: &[u8], todos: &Todos) -> (r: Vec<u8>)
    ensures
        r@ == spec_handle_connection(buffer@, todos@),
{
    let res = match Request::new(buffer) {
        Ok(req) => {
            if bytes_eq(req.method.as_slice(), "GET".as_bytes()) {
                Methods::handle_get(req, todos)
            } else {
                Methods::handle_error("Invalid Method")
            }
        },
        Err(e) => Methods::handle_error(e.message()),
    };
    Response::resolve(&res)
}

} // verus!
