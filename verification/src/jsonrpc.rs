//! JSON-RPC 2.0 messages on a line transport: requests, responses, and what a
//! line that is no request is answered with.

use crate::json::{error_text, parse_json, push_member, Json, JsonView};
use vstd::prelude::*;

verus! {

/// The protocol version every message names.
pub const JSONRPC_VERSION: &'static str = "2.0";

/// The line is not JSON.
pub const PARSE_ERROR: i64 = -32700;

/// The line is JSON but no valid request.
pub const INVALID_REQUEST: i64 = -32600;

/// A request came before the handshake.
pub const SERVER_NOT_INITIALIZED: i64 = -32002;

/// A JSON-RPC 2.0 request id: an integer, a string, or an explicit null.
///
/// A null id is not an absent one: a request without an id is a notification
/// and expects no answer, a request with a null id expects one.
#[derive(Debug)]
pub enum RequestId {
    Int(i64),
    Str(String),
    Null,
}

/// The model of a [`RequestId`].
pub enum RequestIdView {
    Int(int),
    Str(Seq<char>),
    Null,
}

impl View for RequestId {
    type V = RequestIdView;

    open spec fn view(&self) -> RequestIdView {
        match *self {
            RequestId::Int(i) => RequestIdView::Int(i as int),
            RequestId::Str(s) => RequestIdView::Str(s@),
            RequestId::Null => RequestIdView::Null,
        }
    }
}

/// The model of an id that may be absent.
pub open spec fn id_view(id: Option<RequestId>) -> Option<RequestIdView> {
    match id {
        Some(i) => Some(i@),
        None => None,
    }
}

/// The id that a JSON value is, or why it is none.
pub open spec fn id_of(v: JsonView) -> Result<RequestIdView, Seq<char>> {
    match v {
        JsonView::Null => Ok(RequestIdView::Null),
        JsonView::Int(i) => Ok(RequestIdView::Int(i)),
        JsonView::Num(_) => Err("id number must be an integer"@),
        JsonView::Str(s) => Ok(RequestIdView::Str(s)),
        _ => Err("id must be a string, integer, or null"@),
    }
}

/// The JSON value that an id is.
pub open spec fn id_json(id: RequestIdView) -> JsonView {
    match id {
        RequestIdView::Int(i) => JsonView::Int(i),
        RequestIdView::Str(s) => JsonView::Str(s),
        RequestIdView::Null => JsonView::Null,
    }
}

impl Clone for RequestId {
    fn clone(&self) -> (r: RequestId)
        ensures
            r@ == self@,
    {
        match self {
            RequestId::Int(i) => RequestId::Int(*i),
            RequestId::Str(s) => RequestId::Str(s.clone()),
            RequestId::Null => RequestId::Null,
        }
    }
}

impl RequestId {
    /// The JSON value that the id is on the wire.
    pub fn to_json(&self) -> (r: Json)
        ensures
            r.view() == id_json(self@),
    {
        match self {
            RequestId::Int(i) => Json::Int(*i),
            RequestId::Str(s) => Json::Str(s.clone()),
            RequestId::Null => Json::Null,
        }
    }

    /// Reads an id from a JSON value. An integer in the range of `i64`, a
    /// string and null are ids; anything else is refused.
    pub fn from_json(v: &Json) -> (r: Result<RequestId, String>)
        ensures
            match r {
                Ok(id) => id_of(v.view()) == Ok::<RequestIdView, Seq<char>>(id@),
                Err(m) => id_of(v.view()) == Err::<RequestIdView, Seq<char>>(m@),
            },
    {
        match v {
            Json::Null => Ok(RequestId::Null),
            Json::Int(i) => Ok(RequestId::Int(*i)),
            Json::Num(_) => match v.as_i64() {
                Some(i) => Ok(RequestId::Int(i)),
                None => Err("id number must be an integer".to_owned()),
            },
            Json::Str(s) => Ok(RequestId::Str(s.clone())),
            _ => Err("id must be a string, integer, or null".to_owned()),
        }
    }
}

/// The id that a text is, or why it is none.
pub open spec fn id_in(text: Seq<char>) -> Result<RequestIdView, Seq<char>> {
    match crate::json::json_parse(text) {
        Ok(v) => id_of(v),
        Err(e) => Err(e),
    }
}

impl RequestId {
    /// The id as JSON text, from which it is read back.
    pub fn to_text(&self) -> (r: String)
        ensures
            r@ == crate::json::json_text(id_json(self@)),
            id_in(r@) == Ok::<RequestIdView, Seq<char>>(self@),
    {
        self.to_json().to_text()
    }

    /// Reads an id from JSON text.
    pub fn from_text(text: &str) -> (r: Result<RequestId, String>)
        ensures
            match r {
                Ok(id) => id_in(text@) == Ok::<RequestIdView, Seq<char>>(id@),
                Err(m) => id_in(text@) == Err::<RequestIdView, Seq<char>>(m@),
            },
    {
        match parse_json(text) {
            Ok(v) => RequestId::from_json(&v),
            Err(e) => Err(error_text(&e)),
        }
    }
}

/// An incoming request: a method call, or a notification where `id` is `None`.
#[derive(Debug)]
pub struct JsonRpcRequest {
    pub jsonrpc: String,
    pub id: Option<RequestId>,
    pub method: String,
    /// Null where the request carries no parameters.
    pub params: Json,
}

/// The model of a [`JsonRpcRequest`].
pub struct RequestView {
    pub jsonrpc: Seq<char>,
    pub id: Option<RequestIdView>,
    pub method: Seq<char>,
    pub params: JsonView,
}

impl View for JsonRpcRequest {
    type V = RequestView;

    open spec fn view(&self) -> RequestView {
        RequestView {
            jsonrpc: self.jsonrpc@,
            id: id_view(self.id),
            method: self.method@,
            params: self.params.view(),
        }
    }
}

/// An outgoing error object.
#[derive(Debug)]
pub struct JsonRpcError {
    pub code: i64,
    pub message: String,
    pub data: Option<Json>,
}

/// An outgoing response.
#[derive(Debug)]
pub struct JsonRpcResponse {
    pub jsonrpc: &'static str,
    /// `None` where the id of the request is unknown.
    pub id: Option<RequestId>,
    pub result: Option<Json>,
    pub error: Option<JsonRpcError>,
}

/// The model of an optional value.
pub open spec fn json_view(j: Option<Json>) -> Option<JsonView> {
    match j {
        Some(v) => Some(v.view()),
        None => None,
    }
}

/// The model of a [`JsonRpcError`].
pub struct ErrorView {
    pub code: int,
    pub message: Seq<char>,
    pub data: Option<JsonView>,
}

impl View for JsonRpcError {
    type V = ErrorView;

    open spec fn view(&self) -> ErrorView {
        ErrorView { code: self.code as int, message: self.message@, data: json_view(self.data) }
    }
}

/// The model of a [`JsonRpcResponse`].
pub struct ResponseView {
    pub jsonrpc: Seq<char>,
    pub id: Option<RequestIdView>,
    pub result: Option<JsonView>,
    pub error: Option<ErrorView>,
}

impl View for JsonRpcResponse {
    type V = ResponseView;

    open spec fn view(&self) -> ResponseView {
        ResponseView {
            jsonrpc: self.jsonrpc@,
            id: id_view(self.id),
            result: json_view(self.result),
            error: match self.error {
                Some(e) => Some(e@),
                None => None,
            },
        }
    }
}

/// The error response with a code, a message and no data.
pub open spec fn error_response(
    id: Option<RequestIdView>,
    code: int,
    message: Seq<char>,
) -> ResponseView {
    ResponseView {
        jsonrpc: JSONRPC_VERSION@,
        id,
        result: None,
        error: Some(ErrorView { code, message, data: None }),
    }
}

impl JsonRpcResponse {
    /// The response that carries a result.
    pub fn success(id: Option<RequestId>, result: Json) -> (r: JsonRpcResponse)
        ensures
            r@ == (ResponseView {
                jsonrpc: JSONRPC_VERSION@,
                id: id_view(id),
                result: Some(result.view()),
                error: None,
            }),
    {
        JsonRpcResponse { jsonrpc: JSONRPC_VERSION, id, result: Some(result), error: None }
    }

    /// The response that carries an error.
    pub fn error(id: Option<RequestId>, code: i64, message: String) -> (r: JsonRpcResponse)
        ensures
            r@ == error_response(id_view(id), code as int, message@),
    {
        JsonRpcResponse {
            jsonrpc: JSONRPC_VERSION,
            id,
            result: None,
            error: Some(JsonRpcError { code, message, data: None }),
        }
    }
}

/// Why a line is not a request to serve.
#[derive(Debug)]
pub enum TransportError {
    /// The line is not valid JSON.
    Parse(serde_json::Error),
    /// The line is valid JSON but no valid request. Carries the id that could
    /// be read from it.
    InvalidRequest(Option<RequestId>, String),
    /// The line is a reply to a request that this server sent. It is not
    /// answered.
    PeerResponse,
}

/// The model of a [`TransportError`].
pub enum TransportErrorView {
    Parse(Seq<char>),
    InvalidRequest(Option<RequestIdView>, Seq<char>),
    PeerResponse,
}

impl View for TransportError {
    type V = TransportErrorView;

    open spec fn view(&self) -> TransportErrorView {
        match *self {
            TransportError::Parse(e) => TransportErrorView::Parse(crate::json::json_error_text(e)),
            TransportError::InvalidRequest(id, m) => TransportErrorView::InvalidRequest(
                id_view(id),
                m@,
            ),
            TransportError::PeerResponse => TransportErrorView::PeerResponse,
        }
    }
}

impl TransportErrorView {
    /// The JSON-RPC error code, where the line is answered at all.
    pub open spec fn code(self) -> Option<int> {
        match self {
            TransportErrorView::PeerResponse => None,
            TransportErrorView::Parse(_) => Some(-32700),
            TransportErrorView::InvalidRequest(_, _) => Some(-32600),
        }
    }

    /// The message of the error response.
    pub open spec fn message(self) -> Seq<char> {
        match self {
            TransportErrorView::PeerResponse => "response to a server request"@,
            TransportErrorView::Parse(e) => "parse error: "@ + e,
            TransportErrorView::InvalidRequest(_, m) => "invalid request: "@ + m,
        }
    }

    /// The text for a log line.
    pub open spec fn display(self) -> Seq<char> {
        match self {
            TransportErrorView::PeerResponse => "response to a server request"@,
            TransportErrorView::Parse(e) => "JSON parse: "@ + e,
            TransportErrorView::InvalidRequest(_, m) => "invalid request: "@ + m,
        }
    }

    /// What the line is answered with.
    pub open spec fn response(self, fallback: Option<RequestIdView>) -> Option<ResponseView> {
        match self {
            TransportErrorView::PeerResponse => None,
            TransportErrorView::Parse(_) => Some(
                error_response(fallback, -32700, self.message()),
            ),
            TransportErrorView::InvalidRequest(id, _) => Some(
                error_response(id, -32600, self.message()),
            ),
        }
    }
}

impl TransportError {
    /// The JSON-RPC error code, or `None` for a line that is not answered.
    pub fn error_code(&self) -> (r: Option<i64>)
        ensures
            match r {
                Some(c) => self@.code() == Some(c as int),
                None => self@.code() is None,
            },
    {
        match self {
            TransportError::PeerResponse => None,
            TransportError::Parse(_) => Some(PARSE_ERROR),
            TransportError::InvalidRequest(_, _) => Some(INVALID_REQUEST),
        }
    }

    /// The message of the error response.
    pub fn error_message(&self) -> (r: String)
        ensures
            r@ == self@.message(),
    {
        match self {
            TransportError::PeerResponse => "response to a server request".to_owned(),
            TransportError::Parse(e) => {
                let mut m: String = "parse error: ".to_owned();
                m.append(error_text(e).as_str());
                m
            },
            TransportError::InvalidRequest(_, msg) => {
                let mut m: String = "invalid request: ".to_owned();
                m.append(msg.as_str());
                m
            },
        }
    }

    /// The error as a line for a log.
    pub fn display_text(&self) -> (r: String)
        ensures
            r@ == self@.display(),
    {
        match self {
            TransportError::PeerResponse => "response to a server request".to_owned(),
            TransportError::Parse(e) => {
                let mut m: String = "JSON parse: ".to_owned();
                m.append(error_text(e).as_str());
                m
            },
            TransportError::InvalidRequest(_, msg) => {
                let mut m: String = "invalid request: ".to_owned();
                m.append(msg.as_str());
                m
            },
        }
    }

    /// The error response for the line, or `None` for one that is not
    /// answered. An invalid request is answered under the id that it carries,
    /// a line that is not JSON under `fallback_id`.
    pub fn into_response(self, fallback_id: Option<RequestId>) -> (r: Option<JsonRpcResponse>)
        ensures
            match r {
                Some(resp) => self@.response(id_view(fallback_id)) == Some(resp@),
                None => self@.response(id_view(fallback_id)) is None,
            },
    {
        let code: i64 = match self.error_code() {
            Some(c) => c,
            None => return None,
        };
        let message = self.error_message();
        let id = match self {
            TransportError::InvalidRequest(carried, _) => carried,
            _ => fallback_id,
        };
        Some(JsonRpcResponse::error(id, code, message))
    }
}

/// The id that an object carries, where it carries a valid one.
pub open spec fn carried_id(v: JsonView) -> Option<RequestIdView> {
    match v.get("id"@) {
        Some(i) => match id_of(i) {
            Ok(id) => Some(id),
            Err(_) => None,
        },
        None => None,
    }
}

/// The message for a version other than the one served.
pub open spec fn version_message(got: Seq<char>) -> Seq<char> {
    "expected jsonrpc \""@ + JSONRPC_VERSION@ + "\", got \""@ + got + "\""@
}

/// The request that an object with a method is, or the message of the first of
/// its fields that is not what the protocol asks for: the id, the version, the
/// method, a version left out, a version not served.
pub open spec fn typed_request(v: JsonView) -> Result<RequestView, Seq<char>> {
    match v.get("id"@) {
        Some(i) if id_of(i) is Err => Err(id_of(i)->Err_0),
        _ => match (v.get("jsonrpc"@), v.get("method"@)) {
            (Some(j), _) if !(j is Str) => Err(crate::json::not_a_string_text(j)),
            (_, Some(m)) if !(m is Str) => Err(crate::json::not_a_string_text(m)),
            (Some(JsonView::Str(jsonrpc)), Some(JsonView::Str(method))) => if jsonrpc
                == JSONRPC_VERSION@ {
                Ok(
                    RequestView {
                        jsonrpc,
                        id: carried_id(v),
                        method,
                        params: match v.get("params"@) {
                            Some(p) => p,
                            None => JsonView::Null,
                        },
                    },
                )
            } else {
                Err(version_message(jsonrpc))
            },
            _ => Err("missing field `jsonrpc`"@),
        },
    }
}

/// What a JSON value is as a message: a request, a reply to a request of this
/// server, or invalid.
pub open spec fn classify(v: JsonView) -> Result<RequestView, TransportErrorView> {
    if !(v is Object) {
        Err(TransportErrorView::InvalidRequest(None, "request must be a JSON object"@))
    } else if v.has("method"@) {
        match typed_request(v) {
            Ok(req) => Ok(req),
            Err(m) => Err(TransportErrorView::InvalidRequest(carried_id(v), m)),
        }
    } else if v.has("result"@) || v.has("error"@) {
        Err(TransportErrorView::PeerResponse)
    } else if v.has("id"@) {
        Err(
            TransportErrorView::InvalidRequest(carried_id(v), "message has id but no method"@),
        )
    } else {
        Err(
            TransportErrorView::InvalidRequest(
                None,
                "object has no method, result, or error field"@,
            ),
        )
    }
}

/// The model of what a message was found to be.
pub open spec fn outcome_view(r: Result<JsonRpcRequest, TransportError>) -> Result<
    RequestView,
    TransportErrorView,
> {
    match r {
        Ok(req) => Ok(req@),
        Err(e) => Err(e@),
    }
}

/// Reads the fields of an object with a method.
fn read_request(message: &Json) -> (r: Result<JsonRpcRequest, String>)
    requires
        message.view().has("method"@),
    ensures
        match r {
            Ok(req) => typed_request(message.view()) == Ok::<RequestView, Seq<char>>(req@),
            Err(m) => typed_request(message.view()) == Err::<RequestView, Seq<char>>(m@),
        },
{
    let id: Option<RequestId> = match message.get("id") {
        Some(v) => match RequestId::from_json(v) {
            Ok(id) => Some(id),
            Err(m) => return Err(m),
        },
        None => None,
    };
    let jsonrpc: Option<String> = match message.get("jsonrpc") {
        Some(v) => match v.expect_string() {
            Ok(s) => Some(s),
            Err(m) => return Err(m),
        },
        None => None,
    };
    let method: String = match message.get("method") {
        Some(v) => match v.expect_string() {
            Ok(s) => s,
            Err(m) => return Err(m),
        },
        None => String::new(),
    };
    let jsonrpc: String = match jsonrpc {
        Some(s) => s,
        None => return Err("missing field `jsonrpc`".to_owned()),
    };
    if jsonrpc != JSONRPC_VERSION.to_owned() {
        let mut m: String = "expected jsonrpc \"".to_owned();
        m.append(JSONRPC_VERSION);
        m.append("\", got \"");
        m.append(jsonrpc.as_str());
        m.append("\"");
        return Err(m);
    }
    let params: Json = match message.get("params") {
        Some(p) => p.clone(),
        None => Json::Null,
    };
    Ok(JsonRpcRequest { jsonrpc, id, method, params })
}

/// Takes a JSON value for what it is as a message.
pub fn validate_message(message: &Json) -> (r: Result<JsonRpcRequest, TransportError>)
    ensures
        outcome_view(r) == classify(message.view()),
{
    match message {
        Json::Object(_) => {},
        _ => {
            return Err(
                TransportError::InvalidRequest(None, "request must be a JSON object".to_owned()),
            );
        },
    }
    let id_value = message.get("id");
    let id_present: bool = id_value.is_some();
    let raw_id: Option<RequestId> = match id_value {
        Some(v) => match RequestId::from_json(v) {
            Ok(id) => Some(id),
            Err(_) => None,
        },
        None => None,
    };
    if message.get("method").is_none() {
        if message.get("result").is_some() || message.get("error").is_some() {
            return Err(TransportError::PeerResponse);
        }
        if id_present {
            return Err(
                TransportError::InvalidRequest(raw_id, "message has id but no method".to_owned()),
            );
        }
        return Err(
            TransportError::InvalidRequest(
                None,
                "object has no method, result, or error field".to_owned(),
            ),
        );
    }
    match read_request(message) {
        Ok(req) => Ok(req),
        Err(m) => Err(TransportError::InvalidRequest(raw_id, m)),
    }
}

/// What a line is: the message that its JSON value is, or a parse error where
/// it holds no JSON value.
pub open spec fn line_outcome(line: Seq<char>) -> Result<RequestView, TransportErrorView> {
    match crate::json::json_parse(line) {
        Ok(v) => classify(v),
        Err(m) => Err(TransportErrorView::Parse(m)),
    }
}

/// Reads a line into a request.
///
/// The whole line goes through one JSON value, so that a line which the JSON
/// parser refuses anywhere is refused here.
pub fn parse_jsonrpc_line(line: &str) -> (r: Result<JsonRpcRequest, TransportError>)
    ensures
        outcome_view(r) == line_outcome(line@),
{
    match parse_json(line) {
        Ok(message) => validate_message(&message),
        Err(e) => Err(TransportError::Parse(e)),
    }
}

/// The error object on the wire: `data` is left out where there is none.
pub open spec fn error_json(e: ErrorView) -> JsonView {
    let base = map!["code"@ => JsonView::Int(e.code), "message"@ => JsonView::Str(e.message)];
    JsonView::Object(
        match e.data {
            Some(d) => base.insert("data"@, d),
            None => base,
        },
    )
}

/// The response on the wire: the id is always there, null where it is unknown;
/// result and error are left out where there are none.
pub open spec fn response_json(r: ResponseView) -> JsonView {
    let base = map![
        "jsonrpc"@ => JsonView::Str(r.jsonrpc),
        "id"@ => match r.id {
            Some(id) => id_json(id),
            None => JsonView::Null,
        },
    ];
    let with_result = match r.result {
        Some(v) => base.insert("result"@, v),
        None => base,
    };
    JsonView::Object(
        match r.error {
            Some(e) => with_result.insert("error"@, error_json(e)),
            None => with_result,
        },
    )
}

impl JsonRpcError {
    /// The error object as it goes over the wire.
    pub fn to_json(&self) -> (r: Json)
        ensures
            r.view() == error_json(self@),
    {
        let mut entries: Vec<(String, Json)> = Vec::new();
        push_member(&mut entries, "code", Json::Int(self.code));
        push_member(&mut entries, "message", Json::Str(self.message.clone()));
        if let Some(d) = &self.data {
            push_member(&mut entries, "data", d.clone());
        }
        Json::Object(entries)
    }
}

impl JsonRpcResponse {
    /// The response as it goes over the wire.
    pub fn to_json(&self) -> (r: Json)
        ensures
            r.view() == response_json(self@),
    {
        let mut entries: Vec<(String, Json)> = Vec::new();
        push_member(&mut entries, "jsonrpc", Json::Str(self.jsonrpc.to_owned()));
        let id: Json = match &self.id {
            Some(id) => id.to_json(),
            None => Json::Null,
        };
        push_member(&mut entries, "id", id);
        if let Some(v) = &self.result {
            push_member(&mut entries, "result", v.clone());
        }
        if let Some(e) = &self.error {
            push_member(&mut entries, "error", e.to_json());
        }
        Json::Object(entries)
    }
}

/// An id read back from its JSON value is that id.
pub proof fn law_id_round_trip(id: RequestIdView)
    ensures
        id_of(id_json(id)) == Ok::<RequestIdView, Seq<char>>(id),
{
}

/// A value that reads as an id is written back as that value.
pub proof fn law_id_written_back(v: JsonView)
    ensures
        id_of(v) matches Ok(id) ==> id_json(id) == v,
{
}

/// A reply to a request of this server is never answered, whatever id it
/// carries. It is an object with a result or an error and without a method.
pub proof fn law_peer_response_is_not_answered(v: JsonView, fallback: Option<RequestIdView>)
    requires
        v is Object,
        !v.has("method"@),
        v.has("result"@) || v.has("error"@),
    ensures
        classify(v) == Err::<RequestView, TransportErrorView>(TransportErrorView::PeerResponse),
        classify(v)->Err_0.response(fallback) is None,
{
}

/// Every other value that is no request is answered, with the code for an
/// invalid request and under the id it carries; `fallback` is not used.
pub proof fn law_invalid_request_echoes_its_id(v: JsonView, fallback: Option<RequestIdView>)
    requires
        classify(v) is Err,
        !(classify(v)->Err_0 is PeerResponse),
    ensures
        ({
            let answer = classify(v)->Err_0.response(fallback);
            &&& answer is Some
            &&& answer->0.id == carried_id(v)
            &&& answer->0.result is None
            &&& answer->0.error matches Some(e) && e.code == -32600 && e.data is None
        }),
{
}

/// A value that is not an object is refused, and no id is read from it.
pub proof fn law_non_object_has_no_id(v: JsonView)
    requires
        !(v is Object),
    ensures
        classify(v) is Err,
        carried_id(v) is None,
{
}

/// A line that is not JSON is answered with the parse error code under the
/// fallback id.
pub proof fn law_parse_error_is_answered(line: Seq<char>, fallback: Option<RequestIdView>)
    requires
        crate::json::json_parse(line) is Err,
    ensures
        line_outcome(line) matches Err(e) && e.response(fallback) == Some(
            error_response(
                fallback,
                -32700,
                "parse error: "@ + crate::json::json_parse(line)->Err_0,
            ),
        ),
{
}

/// An accepted request names the served version, has the method and the
/// parameters that its object holds, and has an id exactly where the object
/// does: an absent id makes a notification, a null id does not.
pub proof fn law_accepted_request(v: JsonView)
    requires
        classify(v) is Ok,
    ensures
        ({
            let req = classify(v)->Ok_0;
            &&& req.jsonrpc == JSONRPC_VERSION@
            &&& v.get("jsonrpc"@) == Some(JsonView::Str(JSONRPC_VERSION@))
            &&& v.get("method"@) == Some(JsonView::Str(req.method))
            &&& req.params == match v.get("params"@) {
                Some(p) => p,
                None => JsonView::Null,
            }
            &&& req.id is None <==> !v.has("id"@)
            &&& req.id matches Some(id) ==> v.get("id"@) == Some(id_json(id))
        }),
{
}

/// Every request whose fields are what the protocol asks for is accepted.
pub proof fn law_well_formed_request_is_accepted(v: JsonView, method: Seq<char>)
    requires
        v.get("jsonrpc"@) == Some(JsonView::Str(JSONRPC_VERSION@)),
        v.get("method"@) == Some(JsonView::Str(method)),
        v.get("id"@) matches Some(i) ==> id_of(i) is Ok,
    ensures
        classify(v) is Ok,
{
}

/// On the wire a response always has an id, and it has a result or an error
/// exactly where it carries one.
pub proof fn law_response_on_the_wire(r: ResponseView)
    ensures
        response_json(r).get("id"@) == Some(
            match r.id {
                Some(id) => id_json(id),
                None => JsonView::Null,
            },
        ),
        response_json(r).get("jsonrpc"@) == Some(JsonView::Str(r.jsonrpc)),
        response_json(r).get("result"@) == r.result,
        response_json(r).has("error"@) <==> r.error is Some,
        r.error matches Some(e) ==> response_json(r).get("error"@) == Some(error_json(e)),
{
    reveal_strlit("jsonrpc");
    reveal_strlit("id");
    reveal_strlit("result");
    reveal_strlit("error");
    assert("jsonrpc"@.len() == 7 && "id"@.len() == 2 && "result"@.len() == 6 && "error"@.len()
        == 5);
}

/// On the wire an error object has data exactly where it carries some.
pub proof fn law_error_on_the_wire(e: ErrorView)
    ensures
        error_json(e).get("code"@) == Some(JsonView::Int(e.code)),
        error_json(e).get("message"@) == Some(JsonView::Str(e.message)),
        error_json(e).get("data"@) == e.data,
{
    reveal_strlit("code");
    reveal_strlit("message");
    reveal_strlit("data");
    assert("code"@.len() == 4 && "message"@.len() == 7 && "data"@.len() == 4);
    assert("code"@[0] != "data"@[0]);
}

/// A response that carries a result or an error is taken for a reply by
/// whoever reads it from the wire, and is not answered in turn.
pub proof fn law_response_is_read_as_a_reply(r: ResponseView)
    requires
        r.result is Some || r.error is Some,
    ensures
        classify(response_json(r)) == Err::<RequestView, TransportErrorView>(
            TransportErrorView::PeerResponse,
        ),
{
    law_response_on_the_wire(r);
    reveal_strlit("jsonrpc");
    reveal_strlit("id");
    reveal_strlit("result");
    reveal_strlit("error");
    reveal_strlit("method");
    assert("method"@[0] != "result"@[0]);
    assert("method"@.len() == 6);
    assert(!response_json(r).has("method"@));
}

impl JsonRpcResponse {
    /// The response as the line that goes to the client. Where the response is
    /// plain, its line is read back as what it is, and is not answered if it
    /// carries a result or an error.
    pub fn to_line(&self) -> (r: String)
        ensures
            r@ == crate::json::json_text(response_json(self@)),
            crate::json::reads_back(r@, response_json(self@)),
            crate::json::plain(response_json(self@), crate::json::READ_DEPTH as nat) && (
            self@.result is Some || self@.error is Some) ==> line_outcome(r@) == Err::<
                RequestView,
                TransportErrorView,
            >(TransportErrorView::PeerResponse),
    {
        proof {
            if self@.result is Some || self@.error is Some {
                law_response_is_read_as_a_reply(self@);
            }
        }
        self.to_json().to_text()
    }
}

/// The names of the members that are looked at are different.
proof fn lemma_names_differ()
    ensures
        "id"@ != "jsonrpc"@,
        "id"@ != "method"@,
        "id"@ != "params"@,
        "id"@ != "result"@,
        "id"@ != "error"@,
        "jsonrpc"@ != "result"@,
        "jsonrpc"@ != "error"@,
        "result"@ != "error"@,
        "code"@ != "message"@,
        "code"@ != "data"@,
        "message"@ != "data"@,
{
    reveal_strlit("id");
    reveal_strlit("jsonrpc");
    reveal_strlit("method");
    reveal_strlit("params");
    reveal_strlit("result");
    reveal_strlit("error");
    reveal_strlit("code");
    reveal_strlit("message");
    reveal_strlit("data");
    assert("id"@.len() == 2 && "jsonrpc"@.len() == 7 && "method"@.len() == 6 && "params"@.len() == 6
        && "result"@.len() == 6 && "error"@.len() == 5);
    assert("code"@.len() == 4 && "message"@.len() == 7 && "data"@.len() == 4);
    assert("code"@[0] != "data"@[0]);
}

/// Whether a value can be the id of a request: null, an integer, or a string.
pub open spec fn can_be_id(v: JsonView) -> bool {
    v is Null || v is Int || v is Str
}

/// Null, every integer and every string is an id, each as it is; nothing else
/// is one, and a number that is no integer is told from the rest.
pub proof fn law_what_an_id_is(v: JsonView)
    ensures
        id_of(v) is Ok <==> can_be_id(v),
        v is Null ==> id_of(v) == Ok::<RequestIdView, Seq<char>>(RequestIdView::Null),
        v matches JsonView::Int(i) ==> id_of(v) == Ok::<RequestIdView, Seq<char>>(
            RequestIdView::Int(i),
        ),
        v matches JsonView::Str(t) ==> id_of(v) == Ok::<RequestIdView, Seq<char>>(
            RequestIdView::Str(t),
        ),
        v is Num ==> id_of(v) == Err::<RequestIdView, Seq<char>>("id number must be an integer"@),
        v is Bool || v is Array || v is Object ==> id_of(v) == Err::<RequestIdView, Seq<char>>(
            "id must be a string, integer, or null"@,
        ),
{
}

/// An answer goes back under the very id that the line carried: whatever is
/// refused, the `id` of its answer on the wire is the value that stands under
/// `id` in the refused object, string, integer or null, and is null where that
/// value is no id or is not there. The id to fall back on is not used.
pub proof fn law_answer_carries_the_id_of_the_line(
    m: Map<Seq<char>, JsonView>,
    fallback: Option<RequestIdView>,
)
    requires
        classify(JsonView::Object(m)) is Err,
        !(classify(JsonView::Object(m))->Err_0 is PeerResponse),
    ensures
        ({
            let answer = classify(JsonView::Object(m))->Err_0.response(fallback);
            &&& answer is Some
            &&& response_json(answer->0) matches JsonView::Object(wire) && wire.contains_key(
                "id"@,
            ) && wire["id"@] == if m.contains_key("id"@) && can_be_id(m["id"@]) {
                m["id"@]
            } else {
                JsonView::Null
            }
            &&& m.contains_key("id"@) && can_be_id(m["id"@]) ==> answer->0.id is Some
            &&& m.contains_key("id"@) ==> (id_of(m["id"@]) matches Ok(id) ==> answer->0.id == Some(
                id,
            ))
        }),
{
    lemma_names_differ();
    let answer = classify(JsonView::Object(m))->Err_0.response(fallback);
    law_response_on_the_wire(answer->0);
    let wire = response_json(answer->0)->Object_0;
    assert(response_json(answer->0).get("id"@) == Some(wire["id"@]));
    assert(wire.contains_key("id"@));
    assert(JsonView::Object(m).get("id"@) == if m.contains_key("id"@) {
        Some(m["id"@])
    } else {
        None
    });
}

/// What is no object is answered too, under a null id and with the code of an
/// invalid request.
pub proof fn law_non_object_is_answered(v: JsonView, fallback: Option<RequestIdView>)
    requires
        !(v is Object),
    ensures
        classify(v) is Err,
        ({
            let answer = classify(v)->Err_0.response(fallback);
            &&& answer is Some
            &&& answer->0.id is None
            &&& answer->0.error is Some
            &&& answer->0.error->0.code == -32600
            &&& answer->0.error->0.message == "invalid request: "@
                + "request must be a JSON object"@
        }),
{
}

/// A message is a request exactly where it is an object whose `jsonrpc` is
/// "2.0", whose `method` is a string, and whose `id`, if it has one, is null, an
/// integer or a string. The request then holds what the object holds: the id
/// where there is one, null too, and the parameters, null where there are none.
pub proof fn law_what_a_request_is(m: Map<Seq<char>, JsonView>)
    ensures
        classify(JsonView::Object(m)) is Ok <==> {
            &&& m.contains_key("jsonrpc"@) && m["jsonrpc"@] == JsonView::Str("2.0"@)
            &&& m.contains_key("method"@) && m["method"@] is Str
            &&& m.contains_key("id"@) ==> can_be_id(m["id"@])
        },
        classify(JsonView::Object(m)) matches Ok(req) ==> {
            &&& JsonView::Str(req.jsonrpc) == m["jsonrpc"@]
            &&& JsonView::Str(req.method) == m["method"@]
            &&& req.params == if m.contains_key("params"@) {
                m["params"@]
            } else {
                JsonView::Null
            }
            &&& req.id is Some <==> m.contains_key("id"@)
            &&& req.id matches Some(RequestIdView::Int(i)) ==> m["id"@] == JsonView::Int(i)
            &&& req.id matches Some(RequestIdView::Str(t)) ==> m["id"@] == JsonView::Str(t)
            &&& req.id matches Some(RequestIdView::Null) ==> m["id"@] is Null
        },
{
    let v = JsonView::Object(m);
    assert(v.get("id"@) == if m.contains_key("id"@) {
        Some(m["id"@])
    } else {
        None
    });
    assert(v.get("jsonrpc"@) == if m.contains_key("jsonrpc"@) {
        Some(m["jsonrpc"@])
    } else {
        None
    });
    assert(v.get("method"@) == if m.contains_key("method"@) {
        Some(m["method"@])
    } else {
        None
    });
}

/// An object without a method is a reply exactly where it has a result or an
/// error, whatever they are; an object with a method never is one.
pub proof fn law_what_a_reply_is(m: Map<Seq<char>, JsonView>)
    ensures
        classify(JsonView::Object(m)) == Err::<RequestView, TransportErrorView>(
            TransportErrorView::PeerResponse,
        ) <==> !m.contains_key("method"@) && (m.contains_key("result"@) || m.contains_key(
            "error"@,
        )),
{
    let v = JsonView::Object(m);
    assert(v.has("method"@) == m.contains_key("method"@));
    assert(v.has("result"@) == m.contains_key("result"@));
    assert(v.has("error"@) == m.contains_key("error"@));
}

/// What the answer to a refused object says, and in which order its faults are
/// looked for: without a method, whether it has an id; with one, the id, the
/// types of `jsonrpc` and `method`, a `jsonrpc` that is missing, and one that is
/// not "2.0".
pub proof fn law_what_a_refusal_says(m: Map<Seq<char>, JsonView>)
    requires
        classify(JsonView::Object(m)) is Err,
        !(classify(JsonView::Object(m))->Err_0 is PeerResponse),
    ensures
        ({
            let e = classify(JsonView::Object(m))->Err_0;
            let id_ok = !m.contains_key("id"@) || can_be_id(m["id"@]);
            let has_version = m.contains_key("jsonrpc"@);
            let said = e.message();
            let head = "invalid request: "@;
            &&& !m.contains_key("method"@) && m.contains_key("id"@) ==> said == head
                + "message has id but no method"@
            &&& !m.contains_key("method"@) && !m.contains_key("id"@) ==> said == head
                + "object has no method, result, or error field"@
            &&& m.contains_key("method"@) && !id_ok && m["id"@] is Num ==> said == head
                + "id number must be an integer"@
            &&& m.contains_key("method"@) && !id_ok && !(m["id"@] is Num) ==> said == head
                + "id must be a string, integer, or null"@
            &&& m.contains_key("method"@) && id_ok && has_version && !(m["jsonrpc"@] is Str)
                ==> said == head + crate::json::not_a_string_text(m["jsonrpc"@])
            &&& m.contains_key("method"@) && id_ok && (has_version ==> m["jsonrpc"@] is Str) && !(
            m["method"@] is Str) ==> said == head + crate::json::not_a_string_text(m["method"@])
            &&& m.contains_key("method"@) && id_ok && m["method"@] is Str && !has_version ==> said
                == head + "missing field `jsonrpc`"@
            &&& m.contains_key("method"@) && id_ok && m["method"@] is Str && has_version ==> (
            m["jsonrpc"@] matches JsonView::Str(version) ==> said == head
                + ("expected jsonrpc \""@ + "2.0"@ + "\", got \""@ + version + "\""@))
            &&& e.display() == said
        }),
{
    let v = JsonView::Object(m);
    assert(v.get("id"@) == if m.contains_key("id"@) {
        Some(m["id"@])
    } else {
        None
    });
    assert(v.get("jsonrpc"@) == if m.contains_key("jsonrpc"@) {
        Some(m["jsonrpc"@])
    } else {
        None
    });
    assert(v.get("method"@) == if m.contains_key("method"@) {
        Some(m["method"@])
    } else {
        None
    });
    assert(v.has("result"@) == m.contains_key("result"@));
    assert(v.has("error"@) == m.contains_key("error"@));
}

/// A line is what its JSON value is; a line that is no JSON is answered with
/// the code of a parse error under the id to fall back on, and the answer says
/// what the parser said.
pub proof fn law_line_is_what_its_value_is(line: Seq<char>, fallback: Option<RequestIdView>)
    ensures
        crate::json::json_parse(line) matches Ok(v) ==> line_outcome(line) == classify(v),
        crate::json::json_parse(line) matches Err(said) ==> {
            let answer = line_outcome(line)->Err_0.response(fallback);
            &&& line_outcome(line) is Err
            &&& line_outcome(line)->Err_0.display() == "JSON parse: "@ + said
            &&& answer is Some
            &&& answer->0.id == fallback
            &&& answer->0.result is None
            &&& answer->0.error == Some(
                ErrorView { code: -32700, message: "parse error: "@ + said, data: None },
            )
        },
{
}

/// The code and the message of an error are those of the answer that it makes;
/// without a code there is no answer. Every answer names the served version.
pub proof fn law_answer_has_the_code_of_its_error(
    e: TransportErrorView,
    fallback: Option<RequestIdView>,
)
    ensures
        e.code() is None <==> e is PeerResponse,
        e.response(fallback) is Some <==> e.code() is Some,
        e is Parse ==> e.code() == Some(-32700int),
        e is InvalidRequest ==> e.code() == Some(-32600int),
        e.response(fallback) matches Some(answer) ==> {
            &&& answer.jsonrpc == "2.0"@
            &&& answer.result is None
            &&& answer.error matches Some(err) && Some(err.code) == e.code() && err.message
                == e.message() && err.data is None
            &&& e is Parse ==> answer.id == fallback
            &&& e matches TransportErrorView::InvalidRequest(id, _) ==> answer.id == id
        },
        e matches TransportErrorView::InvalidRequest(_, said) ==> e.message()
            == "invalid request: "@ + said && e.display() == "invalid request: "@ + said,
        e matches TransportErrorView::Parse(said) ==> e.message() == "parse error: "@ + said
            && e.display() == "JSON parse: "@ + said,
        e is PeerResponse ==> e.message() == "response to a server request"@ && e.display()
            == "response to a server request"@,
{
}

/// On the wire a response and its error have no members but those that the
/// protocol gives them.
pub proof fn law_nothing_else_on_the_wire(r: ResponseView, name: Seq<char>)
    ensures
        response_json(r) matches JsonView::Object(m) && (m.contains_key(name) <==> {
            ||| name == "jsonrpc"@
            ||| name == "id"@
            ||| name == "result"@ && r.result is Some
            ||| name == "error"@ && r.error is Some
        }),
        r.error matches Some(e) ==> (error_json(e) matches JsonView::Object(m) && (m.contains_key(
            name,
        ) <==> {
            ||| name == "code"@
            ||| name == "message"@
            ||| name == "data"@ && e.data is Some
        })),
{
    lemma_names_differ();
}

/// On the wire an id is what it is: an integer, a string, or null.
pub proof fn law_id_on_the_wire(id: RequestIdView)
    ensures
        can_be_id(id_json(id)),
        id matches RequestIdView::Int(i) ==> id_json(id) == JsonView::Int(i),
        id matches RequestIdView::Str(t) ==> id_json(id) == JsonView::Str(t),
        id is Null ==> id_json(id) is Null,
{
}

/// Every field of a message is part of its model, as it is.
pub proof fn law_models_of_messages(
    id: RequestId,
    request: JsonRpcRequest,
    error: JsonRpcError,
    response: JsonRpcResponse,
    refusal: TransportError,
)
    ensures
        id matches RequestId::Int(i) ==> id@ == RequestIdView::Int(i as int),
        id matches RequestId::Str(s) ==> id@ == RequestIdView::Str(s@),
        id is Null ==> id@ is Null,
        request@.jsonrpc == request.jsonrpc@,
        request@.method == request.method@,
        request@.params == request.params.view(),
        request@.id is Some <==> request.id is Some,
        request.id matches Some(i) ==> request@.id == Some(i@),
        error@.code == error.code,
        error@.message == error.message@,
        error@.data is Some <==> error.data is Some,
        error.data matches Some(d) ==> error@.data == Some(d.view()),
        response@.jsonrpc == response.jsonrpc@,
        response@.id is Some <==> response.id is Some,
        response.id matches Some(i) ==> response@.id == Some(i@),
        response@.result is Some <==> response.result is Some,
        response.result matches Some(v) ==> response@.result == Some(v.view()),
        response@.error is Some <==> response.error is Some,
        response.error matches Some(e) ==> response@.error == Some(e@),
        refusal matches TransportError::Parse(e) ==> refusal@ == TransportErrorView::Parse(
            crate::json::json_error_text(e),
        ),
        refusal matches TransportError::InvalidRequest(i, said) ==> {
            &&& refusal@ is InvalidRequest
            &&& refusal@->InvalidRequest_1 == said@
            &&& refusal@->InvalidRequest_0 is Some <==> i is Some
            &&& i matches Some(carried) ==> refusal@->InvalidRequest_0 == Some(carried@)
        },
        refusal is PeerResponse ==> refusal@ is PeerResponse,
{
}

/// A text is an id where its JSON value is one; a text that is no JSON is
/// refused with what the parser says.
pub proof fn law_an_id_in_text_is_its_value(text: Seq<char>)
    ensures
        crate::json::json_parse(text) matches Ok(v) ==> id_in(text) == id_of(v),
        crate::json::json_parse(text) matches Err(said) ==> id_in(text) == Err::<
            RequestIdView,
            Seq<char>,
        >(said),
{
}

} // verus!
