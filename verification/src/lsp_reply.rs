use vstd::prelude::*;
use crate::lsp::uri_to_path;
use crate::text::str_eq;

verus! {

/// A JSON value as the reply logic reads it: numbers by their value as an
/// `i64` and as a `u64` (where they have one), objects as their entries.
pub enum JsonModel {
    Null,
    Bool(bool),
    Number { signed: Option<i64>, unsigned: Option<u64> },
    Str(String),
    Array(Vec<JsonModel>),
    Object(Vec<(String, JsonModel)>),
}

/// `serde_json::Value`, a JSON value of the outside crate.
#[verifier::external_type_specification]
#[verifier::external_body]
pub struct ExJsonValue(serde_json::Value);

/// The JSON value that `bytes` hold, as `serde_json` reads them; `None`
/// where they are no JSON text.
pub uninterp spec fn spec_parse_json(bytes: Seq<u8>) -> Option<JsonModel>;

/// `serde_json::from_slice::<serde_json::Value>`, its value taken over into
/// a [`JsonModel`]. Its result is named by `spec_parse_json`, a function of
/// the bytes alone; nothing more of it is stated.
#[verifier::external_body]
fn parse_json(bytes: &[u8]) -> (r: Option<JsonModel>)
    ensures
        r == spec_parse_json(bytes@),
{
    match serde_json::from_slice::<serde_json::Value>(bytes) {
        Ok(v) => Some(json_model_of(v)),
        Err(_) => None,
    }
}

/// Takes a `serde_json::Value` over into a [`JsonModel`], variant for
/// variant, numbers by `Number::as_i64` and `Number::as_u64`.
#[verifier::external_body]
fn json_model_of(v: serde_json::Value) -> JsonModel {
    match v {
        serde_json::Value::Null => JsonModel::Null,
        serde_json::Value::Bool(b) => JsonModel::Bool(b),
        serde_json::Value::Number(n) => JsonModel::Number { signed: n.as_i64(), unsigned: n.as_u64() },
        serde_json::Value::String(s) => JsonModel::Str(s),
        serde_json::Value::Array(a) => JsonModel::Array(a.into_iter().map(json_model_of).collect()),
        serde_json::Value::Object(m) => JsonModel::Object(m.into_iter().map(|(k, x)| (k, json_model_of(x))).collect()),
    }
}

/// The value under `key` in entries `es` (the first such entry).
pub open spec fn entries_get(es: Seq<(String, JsonModel)>, key: Seq<char>) -> Option<JsonModel>
    decreases es.len(),
{
    if es.len() == 0 {
        None
    } else if es[0].0@ == key {
        Some(es[0].1)
    } else {
        entries_get(es.drop_first(), key)
    }
}

/// `value.get(key)`: the value under `key` of an object.
pub open spec fn json_get(v: Option<JsonModel>, key: Seq<char>) -> Option<JsonModel> {
    match v {
        Some(JsonModel::Object(es)) => entries_get(es@, key),
        _ => None,
    }
}

/// `value.as_i64()`.
pub open spec fn json_i64(v: Option<JsonModel>) -> Option<i64> {
    match v {
        Some(JsonModel::Number { signed, unsigned: _ }) => signed,
        _ => None,
    }
}

/// `value.as_u64()`.
pub open spec fn json_u64(v: Option<JsonModel>) -> Option<u64> {
    match v {
        Some(JsonModel::Number { signed: _, unsigned }) => unsigned,
        _ => None,
    }
}

/// `value.as_str()`.
pub open spec fn json_str(v: Option<JsonModel>) -> Option<Seq<char>> {
    match v {
        Some(JsonModel::Str(s)) => Some(s@),
        _ => None,
    }
}

/// The location of a definition reply's result: its first element where it
/// is an array, else the result itself.
pub open spec fn reply_location(result: JsonModel) -> Option<JsonModel> {
    match result {
        JsonModel::Array(a) => if a@.len() > 0 { Some(a@[0]) } else { None },
        _ => Some(result),
    }
}

/// The line and column where a location's range starts (0 where absent).
pub open spec fn start_line(range: Option<JsonModel>) -> u64 {
    match json_u64(json_get(json_get(range, "start"@), "line"@)) { Some(l) => l, None => 0 }
}

/// See [`start_line`].
pub open spec fn start_char(range: Option<JsonModel>) -> u64 {
    match json_u64(json_get(json_get(range, "start"@), "character"@)) { Some(c) => c, None => 0 }
}

/// What a reply of the language server asks of the editor, besides being
/// passed on: to send `initialized` (the reply to `initialize`, id 1,
/// with a result), and to go to a definition (the reply to the definition
/// request, id 100): a path, a line counted from 1 and a column.
pub struct LspReply {
    pub send_initialized: bool,
    pub definition: Option<(String, usize, usize)>,
}

/// The definition that a reply holds: path, line from 1, column; the
/// location needs a string `uri` and a `range`.
pub open spec fn reply_definition(msg: JsonModel) -> Option<(Seq<char>, int, int)> {
    if json_i64(json_get(Some(msg), "id"@)) == Some(100i64) {
        match json_get(Some(msg), "result"@) {
            Some(result) => match reply_location(result) {
                Some(loc) => match (json_str(json_get(Some(loc), "uri"@)), json_get(Some(loc), "range"@)) {
                    (Some(uri), Some(range)) => Some((
                        if uri.len() >= 7 && uri.take(7) == "file://"@ { uri.skip(7) } else { uri },
                        start_line(Some(range)) + 1,
                        start_char(Some(range)) as int,
                    )),
                    _ => None,
                },
                None => None,
            },
            None => None,
        }
    } else {
        None
    }
}

/// Whether the reply is the one to `initialize` with a result.
pub open spec fn reply_initialized(msg: JsonModel) -> bool {
    json_i64(json_get(Some(msg), "id"@)) == Some(1i64) && json_get(Some(msg), "result"@) is Some
}

/// A definition's line and column fit a `usize` (the line after adding 1).
pub open spec fn reply_fits(msg: JsonModel) -> bool {
    reply_definition(msg) matches Some((_, l, c)) ==> l <= usize::MAX && c <= usize::MAX
}

/// The value under `key` of an object.
fn get<'a>(v: &'a JsonModel, key: &str) -> (r: Option<&'a JsonModel>)
    ensures
        match r {
            Some(x) => json_get(Some(*v), key@) == Some(*x),
            None => json_get(Some(*v), key@) is None,
        },
{
    match v {
        JsonModel::Object(es) => {
            let mut i: usize = 0;
            assert(es@.skip(0) =~= es@);
            while i < es.len()
                invariant
                    i <= es@.len(),
                    *v == JsonModel::Object(*es),
                    entries_get(es@, key@) == entries_get(es@.skip(i as int), key@),
                decreases es@.len() - i,
            {
                proof {
                    assert(es@.skip(i as int).drop_first() =~= es@.skip(i + 1));
                    assert(es@.skip(i as int)[0] == es@[i as int]);
                }
                if str_eq(es[i].0.as_str(), key) {
                    assert(es@.skip(i as int)[0].0@ == key@);
                    assert(es@.skip(i as int).len() > 0);
                    assert(entries_get(es@.skip(i as int), key@) == Some(es@.skip(i as int)[0].1));
                    assert(entries_get(es@, key@) == Some(es@[i as int].1));
                    return Some(&es[i].1);
                }
                i += 1;
            }
            None
        },
        _ => None,
    }
}

fn as_i64(v: Option<&JsonModel>) -> (r: Option<i64>)
    ensures
        r == json_i64(match v { Some(x) => Some(*x), None => None }),
{
    match v {
        Some(JsonModel::Number { signed, unsigned: _ }) => *signed,
        _ => None,
    }
}

fn as_u64(v: Option<&JsonModel>) -> (r: Option<u64>)
    ensures
        r == json_u64(match v { Some(x) => Some(*x), None => None }),
{
    match v {
        Some(JsonModel::Number { signed: _, unsigned }) => *unsigned,
        _ => None,
    }
}

/// What the editor does on reply `msg` (see [`reply_initialized`] and
/// [`reply_definition`]).
pub fn lsp_reply_action(msg: &JsonModel) -> (r: LspReply)
    requires
        reply_fits(*msg),
    ensures
        r.send_initialized == reply_initialized(*msg),
        match (r.definition, reply_definition(*msg)) {
            (Some((p, l, c)), Some((q, m, d))) => p@ == q && l == m && c == d,
            (None, None) => true,
            _ => false,
        },
{
    let id = as_i64(get(msg, "id"));
    let result = get(msg, "result");
    let send_initialized = id == Some(1i64) && result.is_some();
    let mut definition: Option<(String, usize, usize)> = None;
    if id == Some(100i64) {
        if let Some(res) = result {
            let loc: Option<&JsonModel> = match res {
                JsonModel::Array(a) => if a.len() > 0 { Some(&a[0]) } else { None },
                _ => Some(res),
            };
            if let Some(l) = loc {
                let uri = match get(l, "uri") {
                    Some(JsonModel::Str(s)) => Some(s),
                    _ => None,
                };
                let range = get(l, "range");
                if let (Some(u), Some(rg)) = (uri, range) {
                    let line = match as_u64(get_opt(get(rg, "start"), "line")) {
                        Some(x) => x,
                        None => 0,
                    };
                    let col = match as_u64(get_opt(get(rg, "start"), "character")) {
                        Some(x) => x,
                        None => 0,
                    };
                    let path = uri_to_path(u.as_str());
                    definition = Some((path, (line + 1) as usize, col as usize));
                }
            }
        }
    }
    LspReply { send_initialized, definition }
}

fn get_opt<'a>(v: Option<&'a JsonModel>, key: &str) -> (r: Option<&'a JsonModel>)
    ensures
        match r {
            Some(x) => json_get(match v { Some(y) => Some(*y), None => None }, key@) == Some(*x),
            None => json_get(match v { Some(y) => Some(*y), None => None }, key@) is None,
        },
{
    match v {
        Some(x) => get(x, key),
        None => None,
    }
}

/// Reads a reply body from the language server: `None` where the bytes are
/// no JSON text or a definition's line or column does not fit a `usize`;
/// else the value and what the editor does on it.
pub fn lsp_reply_from_bytes(bytes: &[u8]) -> (r: Option<(JsonModel, LspReply)>)
    ensures
        match spec_parse_json(bytes@) {
            Some(msg) => if reply_fits(msg) {
                r matches Some((m, reply)) && m == msg && reply.send_initialized == reply_initialized(msg)
                    && match (reply.definition, reply_definition(msg)) {
                        (Some((p, l, c)), Some((q, n, d))) => p@ == q && l == n && c == d,
                        (None, None) => true,
                        _ => false,
                    }
            } else {
                r is None
            },
            None => r is None,
        },
{
    match parse_json(bytes) {
        Some(msg) => {
            if !fits(&msg) {
                return None;
            }
            let reply = lsp_reply_action(&msg);
            Some((msg, reply))
        },
        None => None,
    }
}

/// Whether [`reply_fits`] holds.
fn fits(msg: &JsonModel) -> (r: bool)
    ensures
        r == reply_fits(*msg),
{
    if as_i64(get(msg, "id")) != Some(100i64) {
        return true;
    }
    let result = match get(msg, "result") {
        Some(x) => x,
        None => return true,
    };
    let loc: &JsonModel = match result {
        JsonModel::Array(a) => if a.len() > 0 { &a[0] } else { return true },
        _ => result,
    };
    let uri_ok = match get(loc, "uri") {
        Some(JsonModel::Str(_)) => true,
        _ => false,
    };
    let range = match get(loc, "range") {
        Some(x) => x,
        None => return true,
    };
    if !uri_ok {
        return true;
    }
    let line = match as_u64(get_opt(get(range, "start"), "line")) {
        Some(x) => x,
        None => 0,
    };
    let col = match as_u64(get_opt(get(range, "start"), "character")) {
        Some(x) => x,
        None => 0,
    };
    (line as u128) + 1 <= (usize::MAX as u128) && (col as u128) <= (usize::MAX as u128)
}

} // verus!
