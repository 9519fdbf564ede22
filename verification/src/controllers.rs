//! The todo handlers: listing the store as a JSON document and adding a
//! record from a JSON payload. The JSON the handlers emit is framed here,
//! byte for byte; the payload a client sends is read through the outside
//! JSON crate behind trusted wrappers.
use vstd::prelude::*;

use crate::bytes::{append_str, dec_digits, u64_to_dec};
use crate::request::Request;
use crate::response::{spec_json, Response};
use crate::todo::{PersistTodos, Todo, Todos, TodoView};

verus! {

use vstd::string::StringSliceAdditionalSpecFns;

/// The escape of one byte inside a JSON string: quote and backslash get a
/// backslash, the named control bytes their short escapes, the remaining
/// control bytes a `\u00XX` escape, and every other byte passes through.
pub open spec fn esc_byte(b: u8) -> Seq<u8> {
    if b == ('"' as u8) {
        seq![('\\' as u8), ('"' as u8)]
    } else if b == ('\\' as u8) {
        seq![('\\' as u8), ('\\' as u8)]
    } else if b == 8 {
        seq![('\\' as u8), ('b' as u8)]
    } else if b == ('\t' as u8) {
        seq![('\\' as u8), ('t' as u8)]
    } else if b == ('\n' as u8) {
        seq![('\\' as u8), ('n' as u8)]
    } else if b == 12 {
        seq![('\\' as u8), ('f' as u8)]
    } else if b == ('\r' as u8) {
        seq![('\\' as u8), ('r' as u8)]
    } else if b < 32 {
        seq![('\\' as u8), ('u' as u8), ('0' as u8), ('0' as u8), hex_digit(b / 16), hex_digit(
            b % 16,
        )]
    } else {
        seq![b]
    }
}

/// The lower-case hexadecimal digit of a value below sixteen.
pub open spec fn hex_digit(n: u8) -> u8 {
    if n < 10 {
        (n + ('0' as u8)) as u8
    } else {
        ((n - 10) + ('a' as u8)) as u8
    }
}

/// A byte sequence escaped for the inside of a JSON string.
pub open spec fn esc_bytes(s: Seq<u8>) -> Seq<u8>
    decreases s.len(),
{
    if s.len() == 0 {
        Seq::empty()
    } else {
        esc_byte(s[0]) + esc_bytes(s.drop_first())
    }
}

/// One record as a JSON object.
pub open spec fn json_todo(t: TodoView) -> Seq<u8> {
    "{\"id\":".spec_bytes() + dec_digits(t.id as nat) + ",\"title\":\"".spec_bytes() + esc_bytes(
        t.title,
    ) + "\",\"completed\":".spec_bytes() + (if t.completed {
        "true".spec_bytes()
    } else {
        "false".spec_bytes()
    }) + "}".spec_bytes()
}

/// The comma-led continuation of a record list.
pub open spec fn json_more_todos(ts: Seq<TodoView>) -> Seq<u8>
    decreases ts.len(),
{
    if ts.len() == 0 {
        Seq::empty()
    } else {
        ",".spec_bytes() + json_todo(ts[0]) + json_more_todos(ts.drop_first())
    }
}

/// A record list as a JSON array.
pub open spec fn json_todo_list(ts: Seq<TodoView>) -> Seq<u8> {
    if ts.len() == 0 {
        "[]".spec_bytes()
    } else {
        "[".spec_bytes() + json_todo(ts[0]) + json_more_todos(ts.drop_first())
            + "]".spec_bytes()
    }
}

/// The listing document: the record array under the `todos` key.
pub open spec fn spec_todos_doc(ts: Seq<TodoView>) -> Seq<u8> {
    "{\"todos\":".spec_bytes() + json_todo_list(ts) + "}".spec_bytes()
}

/// The body served when a payload is not a usable JSON document.
pub open spec fn spec_invalid_payload() -> Seq<u8> {
    "{\"error\": \"Invalid JSON format\"}".spec_bytes()
}

/// Appends the escape of one byte.
fn esc_byte_exec(out: &mut Vec<u8>, b: u8)
    ensures
        final(out)@ == old(out)@ + esc_byte(b),
{
    if b == ('"' as u8) {
        append_str(out, "\\\"");
        proof {
            reveal_strlit("\\\"");
            vstd::string::is_ascii_spec_bytes("\\\"");
            assert(out@ =~= old(out)@ + esc_byte(b));
        }
    } else if b == ('\\' as u8) {
        append_str(out, "\\\\");
        proof {
            reveal_strlit("\\\\");
            vstd::string::is_ascii_spec_bytes("\\\\");
            assert(out@ =~= old(out)@ + esc_byte(b));
        }
    } else if b == 8 {
        append_str(out, "\\b");
        proof {
            reveal_strlit("\\b");
            vstd::string::is_ascii_spec_bytes("\\b");
            assert(out@ =~= old(out)@ + esc_byte(b));
        }
    } else if b == ('\t' as u8) {
        append_str(out, "\\t");
        proof {
            reveal_strlit("\\t");
            vstd::string::is_ascii_spec_bytes("\\t");
            assert(out@ =~= old(out)@ + esc_byte(b));
        }
    } else if b == ('\n' as u8) {
        append_str(out, "\\n");
        proof {
            reveal_strlit("\\n");
            vstd::string::is_ascii_spec_bytes("\\n");
            assert(out@ =~= old(out)@ + esc_byte(b));
        }
    } else if b == 12 {
        append_str(out, "\\f");
        proof {
            reveal_strlit("\\f");
            vstd::string::is_ascii_spec_bytes("\\f");
            assert(out@ =~= old(out)@ + esc_byte(b));
        }
    } else if b == ('\r' as u8) {
        append_str(out, "\\r");
        proof {
            reveal_strlit("\\r");
            vstd::string::is_ascii_spec_bytes("\\r");
            assert(out@ =~= old(out)@ + esc_byte(b));
        }
    } else if b < 32 {
        append_str(out, "\\u00");
        let hi = b / 16;
        let lo = b % 16;
        let hi_digit: u8 = if hi < 10 {
            hi + ('0' as u8)
        } else {
            (hi - 10) + ('a' as u8)
        };
        let lo_digit: u8 = if lo < 10 {
            lo + ('0' as u8)
        } else {
            (lo - 10) + ('a' as u8)
        };
        out.push(hi_digit);
        out.push(lo_digit);
        proof {
            reveal_strlit("\\u00");
            vstd::string::is_ascii_spec_bytes("\\u00");
            assert(out@ =~= old(out)@ + esc_byte(b));
        }
    } else {
        out.push(b);
        proof {
            assert(out@ =~= old(out)@ + esc_byte(b));
        }
    }
}

/// Appends a byte sequence escaped for a JSON string.
fn esc_bytes_exec(out: &mut Vec<u8>, s: &[u8])
    ensures
        final(out)@ == old(out)@ + esc_bytes(s@),
{
    let mut i: usize = 0;
    proof {
        assert(s@.skip(0) =~= s@);
    }
    while i < s.len()
        invariant
            i <= s@.len(),
            out@ + esc_bytes(s@.skip(i as int)) == old(out)@ + esc_bytes(s@),
        decreases s@.len() - i,
    {
        let ghost before = out@;
        esc_byte_exec(out, s[i]);
        proof {
            assert(s@.skip(i as int).drop_first() =~= s@.skip(i + 1));
            assert(out@ + esc_bytes(s@.skip(i + 1)) =~= before + esc_bytes(s@.skip(i as int)));
        }
        i = i + 1;
    }
    proof {
        assert(s@.skip(i as int) =~= Seq::<u8>::empty());
        assert(out@ + esc_bytes(s@.skip(i as int)) =~= out@);
    }
}

/// Appends one record as a JSON object.
fn json_todo_exec(out: &mut Vec<u8>, t: &Todo)
    ensures
        final(out)@ == old(out)@ + json_todo(t@),
{
    append_str(out, "{\"id\":");
    let d = u64_to_dec(t.id as u64);
    crate::bytes::push_bytes(out, d.as_slice());
    append_str(out, ",\"title\":\"");
    esc_bytes_exec(out, t.title.as_slice());
    append_str(out, "\",\"completed\":");
    if t.completed {
        append_str(out, "true");
    } else {
        append_str(out, "false");
    }
    append_str(out, "}");
    proof {
        assert(out@ =~= old(out)@ + json_todo(t@));
    }
}

/// Appends a record list as a JSON array.
fn json_todo_list_exec(out: &mut Vec<u8>, ts: &Vec<Todo>)
    ensures
        final(out)@ == old(out)@ + json_todo_list(crate::todo::todos_view(ts@)),
{
    let ghost tv = crate::todo::todos_view(ts@);
    if ts.len() == 0 {
        append_str(out, "[]");
        proof {
            assert(out@ =~= old(out)@ + json_todo_list(tv));
        }
        return ;
    }
    append_str(out, "[");
    json_todo_exec(out, &ts[0]);
    proof {
        assert(tv[0] == ts@[0]@);
        assert(tv.skip(1) =~= tv.drop_first());
    }
    let mut i: usize = 1;
    proof {
        assert(out@ + json_more_todos(tv.skip(1)) =~= old(out)@ + "[".spec_bytes() + json_todo(
            tv[0],
        ) + json_more_todos(tv.drop_first()));
    }
    while i < ts.len()
        invariant
            1 <= i <= ts@.len(),
            tv == crate::todo::todos_view(ts@),
            out@ + json_more_todos(tv.skip(i as int)) == old(out)@ + "[".spec_bytes() + json_todo(
                tv[0],
            ) + json_more_todos(tv.drop_first()),
        decreases ts@.len() - i,
    {
        let ghost before = out@;
        append_str(out, ",");
        json_todo_exec(out, &ts[i]);
        proof {
            assert(tv[i as int] == ts@[i as int]@);
            assert(tv.skip(i as int).drop_first() =~= tv.skip(i + 1));
            assert(out@ + json_more_todos(tv.skip(i + 1)) =~= before + json_more_todos(
                tv.skip(i as int),
            ));
        }
        i = i + 1;
    }
    proof {
        assert(tv.skip(i as int) =~= Seq::<TodoView>::empty());
    }
    append_str(out, "]");
    proof {
        assert(out@ =~= old(out)@ + json_todo_list(tv));
    }
}

/// The `content` string field of a payload read as JSON, if the payload is
/// one complete JSON document, an object, with a string under `content` —
/// a function of the payload bytes alone.
pub uninterp spec fn content_of(s: Seq<u8>) -> Option<Seq<u8>>;

/// Relies on serde_json's `from_slice` for `Value`, `Value::get` and
/// `Value::as_str`: parsing is deterministic and total on byte slices, the
/// lookup reads an object member, and only a JSON string yields text, so
/// the composite is the function of the payload bytes that `content_of`
/// names.
#[verifier::external_body]
fn extract_content(body: &[u8]) -> (r: Option<Vec<u8>>)
    ensures
        match r {
            Some(v) => content_of(body@) == Some(v@),
            None => content_of(body@) is None,
        },
{
    match serde_json::from_slice::<serde_json::Value>(body) {
        Ok(doc) => match doc.get("content") {
            Some(field) => match field.as_str() {
                Some(text) => Some(text.as_bytes().to_vec()),
                None => None,
            },
            None => None,
        },
        Err(_) => None,
    }
}

/// The record a payload title makes at the next free id.
pub open spec fn new_record(ts: Seq<TodoView>, title: Seq<u8>) -> TodoView {
    TodoView { id: (ts.len() + 1) as u32, title, completed: false }
}

/// The todo request handlers.
pub struct TodoController;

impl TodoController {
    /// Lists every stored record as the `{"todos": [...]}` document, with
    /// status 200.
    pub fn get_all_todos(todos: &Todos) -> (r: Response)
        ensures
            r@ == spec_json(200, spec_todos_doc(todos@), Seq::<(Seq<u8>, Seq<u8>)>::empty()),
    {
        let records = todos.get_all_todos();
        let mut body: Vec<u8> = Vec::new();
        append_str(&mut body, "{\"todos\":");
        json_todo_list_exec(&mut body, &records);
        append_str(&mut body, "}");
        proof {
            assert(body@ =~= spec_todos_doc(todos@));
        }
        Response::json(200, body.as_slice(), None)
    }

    /// Appends the record `title` names at the next free id and reports the
    /// whole updated list with status 201.
    pub fn add_todo_with_title(todos: &mut Todos, title: Vec<u8>) -> (r: Response)
        requires
            old(todos)@.len() < u32::MAX,
        ensures
            final(todos)@ == old(todos)@.push(new_record(old(todos)@, title@)),
            r@ == spec_json(
                201,
                json_todo_list(final(todos)@),
                Seq::<(Seq<u8>, Seq<u8>)>::empty(),
            ),
    {
        let next_id = todos.todos.len() as u32 + 1;
        proof {
            assert(todos@.len() == todos.todos@.len());
        }
        todos.add_todo(Todo { id: next_id, title, completed: false });
        let records = todos.get_all_todos();
        let mut body: Vec<u8> = Vec::new();
        json_todo_list_exec(&mut body, &records);
        proof {
            assert(crate::todo::todos_view(records@) =~= todos@);
            assert(body@ =~= json_todo_list(todos@));
        }
        Response::json(201, body.as_slice(), None)
    }

    /// Adds a record from the request's JSON payload: a payload whose
    /// `content` field names the title yields the 201 listing of the grown
    /// store, any other payload the invalid-payload 400 and an unchanged
    /// store.
    pub fn add_todo(req: Request, todos: &mut Todos) -> (r: Response)
        requires
            old(todos)@.len() < u32::MAX,
        ensures
            content_of(req@.content) matches Some(title) ==> final(todos)@ == old(
                todos,
            )@.push(new_record(old(todos)@, title)) && r@ == spec_json(
                201,
                json_todo_list(final(todos)@),
                Seq::<(Seq<u8>, Seq<u8>)>::empty(),
            ),
            content_of(req@.content) is None ==> final(todos)@ == old(todos)@ && r@ == spec_json(
                400,
                spec_invalid_payload(),
                Seq::<(Seq<u8>, Seq<u8>)>::empty(),
            ),
    {
        match extract_content(req.content.as_slice()) {
            Some(title) => Self::add_todo_with_title(todos, title),
            None => Response::json(400, "{\"error\": \"Invalid JSON format\"}".as_bytes(), None),
        }
    }
}

} // verus!
