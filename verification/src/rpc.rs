//! Client side of the Herdr socket API: where the socket is and how a failed
//! call is reported. One JSON request per line and one JSON response per
//! line over a Unix socket; the connection itself is made by the caller.

use vstd::prelude::*;
use crate::text::{push_str, string_of};
use crate::model::opt_string_view;

verus! {

/// Where the Herdr socket is: `HERDR_SOCKET_PATH` when it is set and not
/// empty, else `.config/herdr/herdr.sock` under the home directory.
pub open spec fn spec_socket_path(env_path: Option<Seq<char>>, home: Seq<char>) -> Seq<char> {
    match env_path {
        Some(p) => if p.len() > 0 { p } else { home + "/.config/herdr/herdr.sock"@ },
        None => home + "/.config/herdr/herdr.sock"@,
    }
}

/// Where the Herdr socket is, given the value of `HERDR_SOCKET_PATH` (if
/// set) and the home directory (empty if unknown).
pub fn socket_path(env_path: Option<String>, home: &str) -> (r: String)
    ensures
        r@ == spec_socket_path(
            match env_path {
                Some(p) => Some(p@),
                None => None,
            },
            home@,
        ),
{
    match env_path {
        Some(p) => if p.as_str().is_empty() {
            default_socket(home)
        } else {
            p
        },
        None => default_socket(home),
    }
}

fn default_socket(home: &str) -> (r: String)
    ensures
        r@ == home@ + "/.config/herdr/herdr.sock"@,
{
    let mut v: Vec<char> = Vec::new();
    push_str(&mut v, home);
    push_str(&mut v, "/.config/herdr/herdr.sock");
    string_of(&v)
}

/// A client of the Herdr socket at `path`. The server closes the connection
/// after each plain request, so every call opens a fresh one.
pub struct Client {
    path: String,
}

impl Client {
    /// The path the client connects to.
    pub closed spec fn spec_path(&self) -> Seq<char> {
        self.path@
    }

    /// A client of the socket at `path`.
    pub fn new(path: String) -> (c: Client)
        ensures
            c.spec_path() == path@,
    {
        Client { path }
    }

    /// The path the client connects to.
    pub fn path(&self) -> (r: &str)
        ensures
            r@ == self.spec_path(),
    {
        self.path.as_str()
    }
}

/// The message for a call of `method` that Herdr answered with an error:
/// the method, then the error's message, or "error" when it has none.
pub fn reply_error(method: &str, message: Option<&str>) -> (r: String)
    ensures
        r@ == method@ + ": "@ + match message {
            Some(m) => m@,
            None => "error"@,
        },
{
    let mut v: Vec<char> = Vec::new();
    push_str(&mut v, method);
    push_str(&mut v, ": ");
    match message {
        Some(m) => push_str(&mut v, m),
        None => push_str(&mut v, "error"),
    }
    string_of(&v)
}

/// The fields of a reply that the client reads. `error` is absent when the
/// reply has no `error` field, and otherwise holds the error's `message`
/// when that is a string; `result` is the JSON text of the `result` field,
/// if there is one.
pub struct Reply {
    pub error: Option<Option<String>>,
    pub result: Option<String>,
}

/// A reply's fields as plain values.
pub struct ReplyView {
    pub error: Option<Option<Seq<char>>>,
    pub result: Option<Seq<char>>,
}

impl View for Reply {
    type V = ReplyView;

    open spec fn view(&self) -> ReplyView {
        ReplyView {
            error: match self.error {
                Some(m) => Some(opt_string_view(m)),
                None => None,
            },
            result: opt_string_view(self.result),
        }
    }
}

/// A parsed reply, or `serde_json`'s message, by their characters.
pub open spec fn parsed_view(r: Result<Reply, String>) -> Result<ReplyView, Seq<char>> {
    match r {
        Ok(x) => Ok(x@),
        Err(e) => Err(e@),
    }
}

/// What `serde_json` makes of a reply line: its fields when the line is
/// JSON, the parser's error message otherwise.
pub uninterp spec fn json_reply(line: Seq<char>) -> Result<ReplyView, Seq<char>>;

/// `serde_json::from_str` of a reply line into a `serde_json::Value`, whose
/// `error` (with its `message` as a string) and `result` (as JSON text) are
/// read with `Value::get`, `Value::as_str` and its `Display`; on a parse
/// failure, the error's `Display`. The result is named by `json_reply`.
#[verifier::external_body]
fn parse_reply(line: &str) -> (r: Result<Reply, String>)
    ensures
        parsed_view(r) == json_reply(line@),
{
    match serde_json::from_str::<serde_json::Value>(line) {
        Ok(v) => Ok(Reply {
            error: v.get("error").map(|e| e.get("message").and_then(serde_json::Value::as_str).map(String::from)),
            result: v.get("result").map(|x| x.to_string()),
        }),
        Err(e) => Err(e.to_string()),
    }
}

/// The outcome of a call of `method` whose reply line is `line`, parsed as
/// `parsed`: an empty line means the server closed the connection; a line
/// that is no JSON gives the parser's message; a reply with an `error`
/// gives its message (see `reply_error`); otherwise the JSON text of the
/// `result`, none when it has none.
pub open spec fn spec_reply_outcome(method: Seq<char>, line: Seq<char>, parsed: Result<ReplyView, Seq<char>>) -> Result<
    Option<Seq<char>>,
    Seq<char>,
> {
    if line.len() == 0 {
        Err(method + ": connection closed"@)
    } else {
        match parsed {
            Err(e) => Err(method + ": "@ + e),
            Ok(r) => match r.error {
                Some(m) => Err(method + ": "@ + match m {
                    Some(x) => x,
                    None => "error"@,
                }),
                None => Ok(r.result),
            },
        }
    }
}

/// An outcome by its characters.
pub open spec fn outcome_view(r: Result<Option<String>, String>) -> Result<Option<Seq<char>>, Seq<char>> {
    match r {
        Ok(x) => Ok(opt_string_view(x)),
        Err(e) => Err(e@),
    }
}

/// The outcome of a call of `method` whose reply line is `line` and whose
/// parse is `parsed` (see `spec_reply_outcome`).
pub fn reply_outcome(method: &str, line: &str, parsed: Result<Reply, String>) -> (r: Result<Option<String>, String>)
    ensures
        outcome_view(r) == spec_reply_outcome(method@, line@, parsed_view(parsed)),
{
    let mut v: Vec<char> = Vec::new();
    push_str(&mut v, method);
    if line.is_empty() {
        push_str(&mut v, ": connection closed");
        return Err(string_of(&v));
    }
    match parsed {
        Err(e) => {
            push_str(&mut v, ": ");
            push_str(&mut v, e.as_str());
            Err(string_of(&v))
        },
        Ok(reply) => match reply.error {
            Some(m) => {
                let msg = match &m {
                    Some(x) => Some(x.as_str()),
                    None => None,
                };
                Err(reply_error(method, msg))
            },
            None => Ok(reply.result),
        },
    }
}

/// The outcome of a call of `method` whose reply line (as read, newline
/// included) is `line`.
pub fn read_reply(method: &str, line: &str) -> (r: Result<Option<String>, String>)
    ensures
        outcome_view(r) == spec_reply_outcome(method@, line@, json_reply(line@)),
{
    if line.is_empty() {
        return reply_outcome(method, line, Err(String::new()));
    }
    reply_outcome(method, line, parse_reply(line))
}

/// What `serde_json` makes of field `key` of the JSON text `text`: the
/// field's JSON text when `text` is a JSON object that has it.
pub uninterp spec fn json_field(text: Seq<char>, key: Seq<char>) -> Option<Seq<char>>;

/// `serde_json::from_str` of `text` into a `serde_json::Value`, then
/// `Value::get(key)` and the field's `Display`; none when `text` is no JSON
/// or has no such field. The result is named by `json_field`.
#[verifier::external_body]
fn field_text(text: &str, key: &str) -> (r: Option<String>)
    ensures
        opt_string_view(r) == json_field(text@, key@),
{
    serde_json::from_str::<serde_json::Value>(text).ok()?.get(key).map(|v| v.to_string())
}

/// The snapshot in the result of `session.snapshot`, as JSON text, given
/// the field `snapshot` of that result as `field` (see `json_field`).
pub open spec fn spec_snapshot_text(field: Option<Seq<char>>) -> Result<Seq<char>, Seq<char>> {
    match field {
        Some(s) => Ok(s),
        None => Err("snapshot missing"@),
    }
}

/// The snapshot in the JSON text `result` of `session.snapshot` (none when
/// the call gave no result); "snapshot missing" when it has none.
pub fn snapshot_text(result: Option<String>) -> (r: Result<String, String>)
    ensures
        match r {
            Ok(x) => Ok(x@),
            Err(e) => Err(e@),
        } == spec_snapshot_text(
            match result {
                Some(t) => json_field(t@, "snapshot"@),
                None => None,
            },
        ),
{
    let field = match &result {
        Some(t) => field_text(t.as_str(), "snapshot"),
        None => None,
    };
    match field {
        Some(s) => Ok(s),
        None => Err("snapshot missing".to_owned()),
    }
}

} // verus!
