//! Answering a lookup request: from the query of a request to the status
//! and the body of the response.

use crate::decimal::{decimal_text, decimal_up_to, parse_u32, write_decimal};
use crate::handle::DatabaseHandle;
use crate::lookup::lookup_in;
use crate::order::bytes_eq;
use crate::postal::{is_canonical, is_postal_code};
use vstd::prelude::*;
use vstd::slice::slice_subrange;
use vstd::string::{StringExecFns, StringSliceAdditionalSpecFns};

verus! {

/// The status and the JSON body of a response.
pub struct Response {
    pub status_code: u16,
    pub body: String,
}

impl Response {
    /// A response with the given status and body.
    pub fn new(status_code: u16, body: String) -> (response: Response)
        ensures
            response.status_code == status_code,
            response.body == body,
    {
        Response { status_code, body }
    }
}

/// The JSON text that `serde_json` writes for an object with one member
/// whose value is a string, or `None` where it reports an error.
pub uninterp spec fn json_member_text(key: Seq<char>, value: Seq<char>) -> Option<Seq<char>>;

/// The JSON text that `serde_json` writes for an object with two members
/// whose values are strings, or `None` where it reports an error.
pub uninterp spec fn json_members_text(
    first_key: Seq<char>,
    first_value: Seq<char>,
    second_key: Seq<char>,
    second_value: Seq<char>,
) -> Option<Seq<char>>;

/// `serde_json::to_string` on an object with one string member. The
/// contract only gives the outcome its name: it depends on the key and the
/// value alone.
#[verifier::external_body]
fn json_member(key: &str, value: &str) -> (text: Option<String>)
    ensures
        match text {
            Some(text) => json_member_text(key@, value@) == Some(text@),
            None => json_member_text(key@, value@) is None,
        },
{
    let mut object = serde_json::Map::new();
    object.insert(key.to_string(), serde_json::Value::String(value.to_string()));
    match serde_json::to_string(&serde_json::Value::Object(object)) {
        Ok(text) => Some(text),
        Err(_) => None,
    }
}

/// `serde_json::to_string` on an object with two string members. The
/// contract only gives the outcome its name: it depends on the keys and the
/// values alone.
#[verifier::external_body]
fn json_members(first_key: &str, first_value: &str, second_key: &str, second_value: &str) -> (text:
    Option<String>)
    ensures
        match text {
            Some(text) => json_members_text(first_key@, first_value@, second_key@, second_value@)
                == Some(text@),
            None => json_members_text(first_key@, first_value@, second_key@, second_value@)
                is None,
        },
{
    let mut object = serde_json::Map::new();
    object.insert(first_key.to_string(), serde_json::Value::String(first_value.to_string()));
    object.insert(second_key.to_string(), serde_json::Value::String(second_value.to_string()));
    match serde_json::to_string(&serde_json::Value::Object(object)) {
        Ok(text) => Some(text),
        Err(_) => None,
    }
}

/// The body that a JSON text makes: the text, or an empty body where the
/// text could not be written.
pub open spec fn body_text(json: Option<Seq<char>>) -> Seq<char> {
    match json {
        Some(text) => text,
        None => Seq::empty(),
    }
}

/// The body of a successful lookup.
pub open spec fn json_ok_text(public_space: Seq<char>, locality: Seq<char>) -> Seq<char> {
    body_text(json_members_text("pr"@, public_space, "wp"@, locality))
}

/// The body of an error.
pub open spec fn json_error_text(message: Seq<char>) -> Seq<char> {
    body_text(json_member_text("error"@, message))
}

/// The body that a JSON text makes.
pub fn body_of(json: Option<String>) -> (body: String)
    ensures
        body@ == body_text(
            match json {
                Some(text) => Some(text@),
                None => None,
            },
        ),
{
    match json {
        Some(text) => text,
        None => String::new(),
    }
}

/// JSON for a successful lookup: the public space under `pr`, the locality
/// under `wp`.
pub fn json_ok(public_space: &str, locality: &str) -> (text: String)
    ensures
        text@ == json_ok_text(public_space@, locality@),
{
    body_of(json_members("pr", public_space, "wp", locality))
}

/// JSON for an error: the message under `error`.
pub fn json_error(message: &str) -> (text: String)
    ensures
        text@ == json_error_text(message@),
{
    body_of(json_member("error", message))
}

/// Validate the Dutch postal code format: four digits and two upper-case
/// letters.
pub fn is_valid_postal_code(value: &str) -> (valid: bool)
    ensures
        valid == is_postal_code(value.spec_bytes()),
{
    is_canonical(value.as_bytes())
}

/// The reason phrase of a status code.
pub fn status_text(status_code: u16) -> (text: &'static str)
    ensures
        text@ == reason_of(status_code),
{
    if status_code == 200 {
        "OK"
    } else if status_code == 400 {
        "Bad Request"
    } else if status_code == 404 {
        "Not Found"
    } else if status_code == 405 {
        "Method Not Allowed"
    } else {
        "Internal Server Error"
    }
}

/// How many bytes from `from` on stand before the next `mark`, or before
/// the end of the text where there is none.
pub open spec fn run_len(text: Seq<u8>, mark: u8, from: int) -> nat
    decreases text.len() - from,
{
    if from >= text.len() || text[from] == mark {
        0
    } else {
        1 + run_len(text, mark, from + 1)
    }
}

/// The first index from `from` on at which `mark` stands, or the length of
/// the text where it stands nowhere.
pub open spec fn next_mark(text: Seq<u8>, mark: u8, from: int) -> int {
    from + run_len(text, mark, from)
}

/// The value of a pair `key=value`, where the pair has that key. The key
/// ends at the first `=`; a pair without `=` has no value.
pub open spec fn pair_value(pair: Seq<u8>, key: Seq<u8>) -> Option<Seq<u8>> {
    let at = next_mark(pair, 0x3d, 0);
    if at < pair.len() && pair.subrange(0, at) == key {
        Some(pair.subrange(at + 1, pair.len() as int))
    } else {
        None
    }
}

/// The value of `key` among the pairs of the query from `from` on, or
/// `found` where none of them has that key. The pairs are what stands
/// between the `&`; of several with the key the last one counts.
pub open spec fn value_from(query: Seq<u8>, key: Seq<u8>, from: int, found: Option<Seq<u8>>)
    -> Option<Seq<u8>>
    decreases query.len() - from,
{
    if from > query.len() {
        found
    } else {
        let end = next_mark(query, 0x26, from);
        let next = match pair_value(query.subrange(from, end), key) {
            Some(value) => Some(value),
            None => found,
        };
        if end >= query.len() {
            next
        } else {
            value_from(query, key, end + 1, next)
        }
    }
}

/// The value that a query gives to `key`: that of the last pair with that
/// key, if there is one.
pub open spec fn query_value_of(query: Seq<u8>, key: Seq<u8>) -> Option<Seq<u8>> {
    value_from(query, key, 0, None)
}

/// The number that a value spells, if it spells one.
pub open spec fn number_of(value: Seq<u8>) -> Option<u32> {
    match decimal_up_to(value, u32::MAX as int) {
        Some(number) => Some(number as u32),
        None => None,
    }
}

/// The status and the body that answer a query, in which `pc` is the
/// postal code and `n` the house number: 400 where the postal code is
/// missing, where the house number is missing or no number, or where the
/// postal code is malformed; 200 with the names where the address is
/// found; 404 where it is not.
pub open spec fn lookup_response(database: DatabaseHandle, query: Seq<u8>) -> (u16, Seq<char>) {
    match query_value_of(query, "pc".spec_bytes()) {
        None => (400, json_error_text("missing postal_code"@)),
        Some(postal_code) => match query_value_of(query, "n".spec_bytes()) {
            None => (400, json_error_text("missing house_number"@)),
            Some(digits) => match number_of(digits) {
                None => (400, json_error_text("missing house_number"@)),
                Some(house_number) => if !is_postal_code(postal_code) {
                    (400, json_error_text("invalid postal_code"@))
                } else {
                    match lookup_in(
                        database.ranges(),
                        database.public_space_names(),
                        database.locality_names(),
                        postal_code,
                        house_number,
                    ) {
                        Some((public_space, locality)) => (
                            200,
                            json_ok_text(public_space, locality),
                        ),
                        None => (404, json_error_text("address not found"@)),
                    }
                },
            },
        },
    }
}

/// Where the next `mark` stands from `from` on.
fn find_mark(text: &[u8], mark: u8, from: usize) -> (at: usize)
    requires
        from <= text@.len(),
    ensures
        at == next_mark(text@, mark, from as int),
        from <= at <= text@.len(),
{
    let len = text.len();
    let mut at = from;
    while at < len && text[at] != mark
        invariant
            from <= at <= len,
            len == text@.len(),
            next_mark(text@, mark, at as int) == next_mark(text@, mark, from as int),
        decreases len - at,
    {
        at = at + 1;
    }
    at
}

/// The value that a query gives to `key`: that of the last pair with that
/// key, if there is one.
pub fn query_value<'a>(query: &'a [u8], key: &[u8]) -> (value: Option<&'a [u8]>)
    ensures
        match value {
            Some(bytes) => query_value_of(query@, key@) == Some(bytes@),
            None => query_value_of(query@, key@) is None,
        },
{
    match query_value_at(query, key) {
        Some((start, end)) => Some(slice_subrange(query, start, end)),
        None => None,
    }
}

/// Handle the lookup endpoint: `pc` is the postal code, `n` the house
/// number.
pub fn handle_lookup(database: &DatabaseHandle, query: &str) -> (response: Response)
    ensures
        (response.status_code, response.body@) == lookup_response(*database, query.spec_bytes()),
{
    lookup_answer(database, query.as_bytes())
}

/// Answer the bytes of a lookup query.
fn lookup_answer(database: &DatabaseHandle, query: &[u8]) -> (response: Response)
    ensures
        (response.status_code, response.body@) == lookup_response(*database, query@),
{
    let postal_code = match query_value(query, "pc".as_bytes()) {
        Some(postal_code) => postal_code,
        None => { return Response::new(400, json_error("missing postal_code")); },
    };
    let house_number = match query_value(query, "n".as_bytes()) {
        Some(digits) => parse_u32(digits),
        None => None,
    };
    let house_number = match house_number {
        Some(house_number) => house_number,
        None => { return Response::new(400, json_error("missing house_number")); },
    };
    if !is_canonical(postal_code) {
        return Response::new(400, json_error("invalid postal_code"));
    }
    match database.lookup_bytes(postal_code, house_number) {
        Some((public_space, locality)) => Response::new(200, json_ok(public_space, locality)),
        None => Response::new(404, json_error("address not found")),
    }
}

/// What is to be done with a request.
pub enum Action {
    /// Send this response.
    Respond(Response),
    /// Send suggestions for the text that stands in the target from byte
    /// `start` up to byte `end`.
    Suggest { start: usize, end: usize },
}

/// What a request comes to, before any suggestion is computed.
pub enum Routed {
    /// A response with this status and body.
    Answer(u16, Seq<char>),
    /// Suggestions for this text.
    Suggestions(Seq<u8>),
}

/// The path of a request target: what stands before the first `?`.
pub open spec fn path_of(target: Seq<u8>) -> Seq<u8> {
    target.subrange(0, next_mark(target, 0x3f, 0))
}

/// The query of a request target: what stands behind the first `?`.
pub open spec fn query_of(target: Seq<u8>) -> Seq<u8> {
    let at = next_mark(target, 0x3f, 0);
    if at < target.len() {
        target.subrange(at + 1, target.len() as int)
    } else {
        Seq::empty()
    }
}

/// What a request comes to. Only `GET` is allowed. The paths `/` and
/// `/lookup` look an address up, the path `/suggest` asks for suggestions
/// for the value of `wp`, and no other path is known.
pub open spec fn routed(database: DatabaseHandle, method: Seq<u8>, target: Seq<u8>) -> Routed {
    if method != "GET".spec_bytes() {
        Routed::Answer(405, json_error_text("method not allowed"@))
    } else if path_of(target) == "/suggest".spec_bytes() {
        match query_value_of(query_of(target), "wp".spec_bytes()) {
            Some(text) => Routed::Suggestions(text),
            None => Routed::Answer(400, json_error_text("missing wp"@)),
        }
    } else if path_of(target) == "/".spec_bytes() || path_of(target) == "/lookup".spec_bytes() {
        let answer = lookup_response(database, query_of(target));
        Routed::Answer(answer.0, answer.1)
    } else {
        Routed::Answer(404, json_error_text("not found"@))
    }
}

/// The value that a query gives to `key`, as the place of the value in
/// the query.
fn query_value_at(query: &[u8], key: &[u8]) -> (place: Option<(usize, usize)>)
    ensures
        match place {
            Some((start, end)) => start <= end <= query@.len() && query_value_of(query@, key@)
                == Some(query@.subrange(start as int, end as int)),
            None => query_value_of(query@, key@) is None,
        },
{
    let len = query.len();
    let mut found: Option<(usize, usize)> = None;
    let mut from: usize = 0;
    let mut done = false;
    while !done
        invariant
            len == query@.len(),
            from <= len,
            found matches Some((start, end)) ==> start <= end <= len,
            !done ==> query_value_of(query@, key@) == value_from(
                query@,
                key@,
                from as int,
                match found {
                    Some((start, end)) => Some(query@.subrange(start as int, end as int)),
                    None => None,
                },
            ),
            done ==> query_value_of(query@, key@) == (match found {
                Some((start, end)) => Some(query@.subrange(start as int, end as int)),
                None => None,
            }),
        decreases len - from + (if done { 0int } else { 1int }),
    {
        let end = find_mark(query, 0x26, from);
        let pair = slice_subrange(query, from, end);
        let at = find_mark(pair, 0x3d, 0);
        if at < pair.len() && bytes_eq(slice_subrange(pair, 0, at), key) {
            found = Some((from + at + 1, end));
            assert(pair@.subrange(at + 1, pair@.len() as int) =~= query@.subrange(
                from + at + 1,
                end as int,
            ));
        }
        if end >= len {
            done = true;
        } else {
            from = end + 1;
        }
    }
    found
}

/// Decide what is to be done with a request, given its method and its
/// target.
pub fn route(database: &DatabaseHandle, method: &str, target: &str) -> (action: Action)
    ensures
        match action {
            Action::Respond(response) => routed(*database, method.spec_bytes(), target.spec_bytes())
                == Routed::Answer(response.status_code, response.body@),
            Action::Suggest { start, end } => start <= end <= target.spec_bytes().len() && routed(
                *database,
                method.spec_bytes(),
                target.spec_bytes(),
            ) == Routed::Suggestions(target.spec_bytes().subrange(start as int, end as int)),
        },
{
    if !bytes_eq(method.as_bytes(), "GET".as_bytes()) {
        return Action::Respond(Response::new(405, json_error("method not allowed")));
    }
    let bytes = target.as_bytes();
    let len = bytes.len();
    let mark = find_mark(bytes, 0x3f, 0);
    let path = slice_subrange(bytes, 0, mark);
    let query_start = if mark < len {
        mark + 1
    } else {
        len
    };
    let query = slice_subrange(bytes, query_start, len);
    assert(query@ =~= query_of(bytes@));
    if bytes_eq(path, "/suggest".as_bytes()) {
        match query_value_at(query, "wp".as_bytes()) {
            Some((start, end)) => {
                assert(query@.subrange(start as int, end as int) =~= bytes@.subrange(
                    query_start + start,
                    query_start + end,
                ));
                Action::Suggest { start: query_start + start, end: query_start + end }
            },
            None => Action::Respond(Response::new(400, json_error("missing wp"))),
        }
    } else if bytes_eq(path, "/".as_bytes()) || bytes_eq(path, "/lookup".as_bytes()) {
        Action::Respond(lookup_answer(database, query))
    } else {
        Action::Respond(Response::new(404, json_error("not found")))
    }
}

/// The reason phrase of a status code, as a text.
pub open spec fn reason_of(status_code: u16) -> Seq<char> {
    if status_code == 200 {
        "OK"@
    } else if status_code == 400 {
        "Bad Request"@
    } else if status_code == 404 {
        "Not Found"@
    } else if status_code == 405 {
        "Method Not Allowed"@
    } else {
        "Internal Server Error"@
    }
}

/// The head of a response: the status line, the type and the length of
/// the body, and the notice that the connection closes.
pub open spec fn head_text(status_code: u16, body_len: nat) -> Seq<char> {
    "HTTP/1.1 "@ + decimal_text(status_code as nat) + " "@ + reason_of(status_code)
        + "\r\nContent-Type: application/json; charset=utf-8\r\nContent-Length: "@
        + decimal_text(body_len) + "\r\nConnection: close\r\n\r\n"@
}

/// The head of the response with the given status for a body of the given
/// length in bytes.
pub fn response_head(status_code: u16, body_len: usize) -> (head: String)
    ensures
        head@ == head_text(status_code, body_len as nat),
{
    let mut head = String::from_str("HTTP/1.1 ");
    write_decimal(&mut head, status_code as u64);
    head.append(" ");
    head.append(status_text(status_code));
    head.append("\r\nContent-Type: application/json; charset=utf-8\r\nContent-Length: ");
    write_decimal(&mut head, body_len as u64);
    head.append("\r\nConnection: close\r\n\r\n");
    head
}

} // verus!
