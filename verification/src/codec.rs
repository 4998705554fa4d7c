//! Mapping between the typed messages and their JSON form. The JSON work
//! itself is `serde_json`'s (see `json`); this module decides which fields
//! exist and which shapes are accepted, and states both over `JsonModel`.

use vstd::prelude::*;

use crate::json::JsonModel;
use crate::json::json_as_bool;
use crate::json::json_as_i64;
use crate::json::json_as_str;
use crate::json::json_bool;
use crate::json::json_bytes;
use crate::json::json_get;
use crate::json::json_i64;
use crate::json::json_map_insert;
use crate::json::json_map_new;
use crate::json::json_object;
use crate::json::json_parse;
use crate::json::json_parsed;
use crate::json::json_raw_text;
use crate::json::json_string;
use crate::json::json_text;
use crate::json::json_to_bytes;
use crate::json::model_flat_object;
use crate::json::model_scalar;
use crate::json::value_model;
use crate::messages::AttachOrLaunchArguments;
use crate::messages::Command;
use crate::messages::DeserializationError;
use crate::messages::InitializeArguments;
use crate::messages::Request;
use crate::messages::RestartArguments;
use crate::messages::Sendable;

verus! {

/// The field `key` of `m`, when `m` is an object that has it.
pub open spec fn obj_get(m: JsonModel, key: Seq<char>) -> Option<JsonModel> {
    match m {
        JsonModel::Object(fields) => if fields.dom().contains(key) {
            Some(fields[key])
        } else {
            None
        },
        _ => None,
    }
}

/// The text of field `key` of `m`, when present and a string.
pub open spec fn str_field(m: JsonModel, key: Seq<char>) -> Option<Seq<char>> {
    match obj_get(m, key) {
        Some(JsonModel::Text(s)) => Some(s),
        _ => None,
    }
}

/// The value of field `key` of `m`, when present and an integer.
pub open spec fn int_field(m: JsonModel, key: Seq<char>) -> Option<i64> {
    match obj_get(m, key) {
        Some(JsonModel::Int(n)) => Some(n),
        _ => None,
    }
}

/// The value of field `key` of `m`, when present and a boolean.
pub open spec fn bool_field(m: JsonModel, key: Seq<char>) -> Option<bool> {
    match obj_get(m, key) {
        Some(JsonModel::Bool(b)) => Some(b),
        _ => None,
    }
}

/// The characters of an optional owned string.
pub open spec fn opt_view(s: Option<String>) -> Option<Seq<char>> {
    match s {
        Some(x) => Some(x@),
        None => None,
    }
}

/// A string field of the `arguments` object of `m`.
pub open spec fn nested_str(m: JsonModel, key: Seq<char>) -> Option<Seq<char>> {
    match obj_get(m, "arguments"@) {
        Some(am) => str_field(am, key),
        None => None,
    }
}

/// The repeated-arguments object of a `restart` request: the `arguments`
/// field of the `arguments` object.
pub open spec fn restart_inner(m: JsonModel) -> Option<JsonModel> {
    match obj_get(m, "arguments"@) {
        Some(am) => obj_get(am, "arguments"@),
        None => None,
    }
}

/// Whether `m` is a request this transport accepts: an object tagged
/// `"type": "request"`, with an integer `seq` and a known command.
pub open spec fn decode_ok(m: JsonModel) -> bool {
    &&& str_field(m, "type"@) == Some("request"@)
    &&& int_field(m, "seq"@) is Some
    &&& (str_field(m, "command"@) == Some("initialize"@) || str_field(m, "command"@) == Some(
        "restart"@,
    ))
}

/// What the repeated-arguments record must hold of its object `im`. The one
/// thing left open is the text of a `__restart` value that is not a scalar.
pub open spec fn inner_matches(im: JsonModel, ia: AttachOrLaunchArguments) -> bool {
    &&& ia.no_debug == bool_field(im, "noDebug"@)
    &&& (ia.restart_data is Some <==> obj_get(im, "__restart"@) is Some)
    &&& match obj_get(im, "__restart"@) {
        Some(rm) => model_scalar(rm) ==> opt_view(ia.restart_data) == Some(json_text(rm)),
        None => true,
    }
}

/// Whether the typed request `req` is exactly what decoding `m` yields.
pub open spec fn req_matches(m: JsonModel, req: Request) -> bool {
    &&& int_field(m, "seq"@) == Some(req.seq)
    &&& match req.command {
        Command::Initialize(args) => {
            &&& str_field(m, "command"@) == Some("initialize"@)
            &&& opt_view(args.adapter_id) == nested_str(m, "adapterID"@)
            &&& opt_view(args.client_name) == nested_str(m, "clientName"@)
        },
        Command::Restart(rargs) => {
            &&& str_field(m, "command"@) == Some("restart"@)
            &&& match rargs.arguments {
                Some(ia) => restart_inner(m) matches Some(im) && inner_matches(im, ia),
                None => restart_inner(m) is None,
            }
        },
    }
}

/// Whether two texts are the same characters.
fn str_is(s: &str, t: &str) -> (r: bool)
    ensures
        r == (s@ == t@),
{
    s.to_owned() == t.to_owned()
}

/// The text of a string field of `v`, owned, when present and a string.
fn get_string_field(v: &serde_json::Value, key: &str) -> (r: Option<String>)
    ensures
        opt_view(r) == str_field(value_model(*v), key@),
{
    match json_get(v, key) {
        Some(f) => match json_as_str(f) {
            Some(s) => Some(s.to_owned()),
            None => None,
        },
        None => None,
    }
}

/// Turns one decoded JSON value into a typed request: the value must be an
/// object tagged `"type": "request"` with an integer `seq`, a known
/// `command`, and that command's arguments.
pub fn decode_request(v: &serde_json::Value) -> (r: Result<Request, DeserializationError>)
    ensures
        ({
            let m = value_model(*v);
            match r {
                Ok(req) => decode_ok(m) && req_matches(m, req),
                Err(DeserializationError::SerdeError) => !decode_ok(m),
                Err(DeserializationError::DecodingError) => false,
            }
        }),
{
    let tag = match json_get(v, "type") {
        Some(t) => match json_as_str(t) {
            Some(s) => s,
            None => return Err(DeserializationError::SerdeError),
        },
        None => return Err(DeserializationError::SerdeError),
    };
    if !str_is(tag, "request") {
        return Err(DeserializationError::SerdeError);
    }
    let seq = match json_get(v, "seq") {
        Some(s) => match json_as_i64(s) {
            Some(n) => n,
            None => return Err(DeserializationError::SerdeError),
        },
        None => return Err(DeserializationError::SerdeError),
    };
    let cmd = match json_get(v, "command") {
        Some(c) => match json_as_str(c) {
            Some(s) => s,
            None => return Err(DeserializationError::SerdeError),
        },
        None => return Err(DeserializationError::SerdeError),
    };
    if str_is(cmd, "initialize") {
        let (adapter_id, client_name) = match json_get(v, "arguments") {
            Some(args) => (
                get_string_field(args, "adapterID"),
                get_string_field(args, "clientName"),
            ),
            None => (None, None),
        };
        Ok(
            Request {
                seq,
                command: Command::Initialize(InitializeArguments { adapter_id, client_name }),
            },
        )
    } else if str_is(cmd, "restart") {
        let inner = match json_get(v, "arguments") {
            Some(args) => match json_get(args, "arguments") {
                Some(rr) => {
                    let no_debug = match json_get(rr, "noDebug") {
                        Some(nd) => json_as_bool(nd),
                        None => None,
                    };
                    let restart_data = match json_get(rr, "__restart") {
                        Some(rd) => match json_raw_text(rd) {
                            Ok(text) => Some(text),
                            Err(()) => return Err(DeserializationError::SerdeError),
                        },
                        None => None,
                    };
                    Some(AttachOrLaunchArguments { no_debug, restart_data })
                },
                None => None,
            },
            None => None,
        };
        Ok(Request { seq, command: Command::Restart(RestartArguments { arguments: inner }) })
    } else {
        Err(DeserializationError::SerdeError)
    }
}

/// Decodes one frame body, already checked to be text, into a request:
/// the text must parse as JSON and the value must have an accepted shape.
pub fn decode_message(text: &str) -> (r: Result<Request, DeserializationError>)
    ensures
        ({
            let p = json_parsed(text@);
            match r {
                Ok(req) => p matches Some(m) && decode_ok(m) && req_matches(m, req),
                Err(DeserializationError::SerdeError) => !(p matches Some(m) && decode_ok(m)),
                Err(DeserializationError::DecodingError) => false,
            }
        }),
{
    match json_parse(text) {
        Ok(v) => decode_request(&v),
        Err(()) => Err(DeserializationError::SerdeError),
    }
}

/// The envelope this transport writes for `body` under sequence number
/// `seq`: one flat JSON object whose fields depend on the payload kind.
pub open spec fn envelope_model(seq: i64, body: Sendable) -> JsonModel {
    JsonModel::Object(
        match body {
            Sendable::Response(resp) => Map::<Seq<char>, JsonModel>::empty().insert(
                "seq"@,
                JsonModel::Int(seq),
            ).insert("type"@, JsonModel::Text("response"@)).insert(
                "request_seq"@,
                JsonModel::Int(resp.request_seq),
            ).insert("success"@, JsonModel::Bool(resp.success)).insert(
                "command"@,
                JsonModel::Text(resp.command@),
            ),
            Sendable::Event(ev) => Map::<Seq<char>, JsonModel>::empty().insert(
                "seq"@,
                JsonModel::Int(seq),
            ).insert("type"@, JsonModel::Text("event"@)).insert(
                "event"@,
                JsonModel::Text(ev.event@),
            ),
            Sendable::ReverseRequest(q) => Map::<Seq<char>, JsonModel>::empty().insert(
                "seq"@,
                JsonModel::Int(seq),
            ).insert("type"@, JsonModel::Text("request"@)).insert(
                "command"@,
                JsonModel::Text(q.command@),
            ),
        },
    )
}

/// Serializes one outbound envelope — the payload with the sequence number
/// this side assigned — to exactly the JSON bytes of its envelope model.
pub(crate) fn encode_envelope(seq: i64, body: &Sendable) -> (r: Vec<u8>)
    ensures
        r@ == json_bytes(envelope_model(seq, *body)),
        json_parsed(vstd::utf8::decode_utf8(r@)) == Some(envelope_model(seq, *body)),
{
    let mut m = json_map_new();
    json_map_insert(&mut m, "seq", json_i64(seq));
    match body {
        Sendable::Response(resp) => {
            json_map_insert(&mut m, "type", json_string("response"));
            json_map_insert(&mut m, "request_seq", json_i64(resp.request_seq));
            json_map_insert(&mut m, "success", json_bool(resp.success));
            json_map_insert(&mut m, "command", json_string(resp.command.as_str()));
        },
        Sendable::Event(ev) => {
            json_map_insert(&mut m, "type", json_string("event"));
            json_map_insert(&mut m, "event", json_string(ev.event.as_str()));
        },
        Sendable::ReverseRequest(q) => {
            json_map_insert(&mut m, "type", json_string("request"));
            json_map_insert(&mut m, "command", json_string(q.command.as_str()));
        },
    }
    let v = json_object(m);
    proof {
        assert(value_model(v) == envelope_model(seq, *body));
        let fields = map_model_of(value_model(v));
        assert forall|k: Seq<char>| fields.dom().contains(k) implies model_scalar(
            #[trigger] fields[k],
        ) by {
            lemma_envelope_fields_scalar(seq, *body, k);
        }
        assert(model_flat_object(value_model(v)));
    }
    match json_to_bytes(&v) {
        Ok(b) => b,
        Err(()) => {
            // The serializer cannot fail on a flat object; this arm is dead.
            proof {
                assert(false);
            }
            Vec::new()
        },
    }
}

/// The fields of an object model; empty for anything else.
pub open spec fn map_model_of(m: JsonModel) -> Map<Seq<char>, JsonModel> {
    match m {
        JsonModel::Object(fields) => fields,
        _ => Map::empty(),
    }
}

/// Every field of an envelope model is a scalar.
proof fn lemma_envelope_fields_scalar(seq: i64, body: Sendable, k: Seq<char>)
    requires
        map_model_of(envelope_model(seq, body)).dom().contains(k),
    ensures
        model_scalar(map_model_of(envelope_model(seq, body))[k]),
{
}

} // verus!

verus! {

/// Sequence injection: whatever the payload kind, the envelope built for
/// sequence number `seq` carries exactly `seq` in its `seq` field.
pub proof fn lemma_envelope_carries_seq(seq: i64, body: Sendable)
    ensures
        int_field(envelope_model(seq, body), "seq"@) == Some(seq),
{
    reveal_strlit("seq");
    reveal_strlit("type");
    reveal_strlit("request_seq");
    reveal_strlit("success");
    reveal_strlit("command");
    reveal_strlit("event");
    assert("seq"@.len() == 3);
    assert("type"@.len() == 4);
    assert("request_seq"@.len() == 11);
    assert("success"@.len() == 7);
    assert("command"@.len() == 7);
    assert("event"@.len() == 5);
}

} // verus!
