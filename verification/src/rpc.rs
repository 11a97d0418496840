//! The JSON-RPC envelope: request identifiers, responses, the error-code
//! taxonomy, and validation of a decoded line into a request.

use vstd::prelude::*;

verus! {

use crate::json::{Json, JsonV, jv, jv_members, lemma_jv_members_index, clone_chars, clone_json};

/// The protocol version literal every request must carry and every response
/// echoes.
pub open spec fn protocol_version() -> Seq<char> {
    "2.0"@
}

/// Spec-level request identifier: a number or a string, echoed verbatim.
pub enum ReqIdV {
    Num(int),
    Str(Seq<char>),
}

/// A request identifier: a number or a string, echoed verbatim, never
/// interpreted.
pub enum ReqId {
    Num(i64),
    Str(Vec<char>),
}

impl View for ReqId {
    type V = ReqIdV;

    open spec fn view(&self) -> ReqIdV {
        match *self {
            ReqId::Num(n) => ReqIdV::Num(n as int),
            ReqId::Str(s) => ReqIdV::Str(s@),
        }
    }
}

impl ReqId {
    /// An exact copy.
    pub fn duplicate(&self) -> (o: ReqId)
        ensures
            o@ == self@,
    {
        match self {
            ReqId::Num(n) => ReqId::Num(*n),
            ReqId::Str(s) => ReqId::Str(clone_chars(s)),
        }
    }
}

/// The view of an optional identifier.
pub open spec fn opt_id_view(id: Option<ReqId>) -> Option<ReqIdV> {
    match id {
        Some(i) => Some(i@),
        None => None,
    }
}

/// An exact copy of an optional identifier.
pub fn duplicate_opt_id(id: &Option<ReqId>) -> (o: Option<ReqId>)
    ensures
        opt_id_view(o) == opt_id_view(*id),
{
    match id {
        Some(i) => Some(i.duplicate()),
        None => None,
    }
}

/// Spec-level response body: a result or an error, never both.
pub enum RespBodyV {
    Success(JsonV),
    Failure(int, Seq<char>),
}

/// Spec-level response.
pub struct RespV {
    pub id: Option<ReqIdV>,
    pub body: RespBodyV,
}

/// The body of a response: exactly one of a result value or an error, by
/// construction.
pub enum RespBody {
    Success(Json),
    Failure(i64, Vec<char>),
}

/// One JSON-RPC response: the echoed identifier (absent encodes as null) and
/// the body.
pub struct Response {
    pub id: Option<ReqId>,
    pub body: RespBody,
}

impl View for Response {
    type V = RespV;

    open spec fn view(&self) -> RespV {
        RespV {
            id: match self.id {
                Some(i) => Some(i@),
                None => None,
            },
            body: match self.body {
                RespBody::Success(j) => RespBodyV::Success(j@),
                RespBody::Failure(c, m) => RespBodyV::Failure(c as int, m@),
            },
        }
    }
}

impl Response {
    /// A success response carrying `result`, for the call with identifier
    /// `id`.
    pub fn new_result(id: Option<ReqId>, result: Json) -> (r: Response)
        ensures
            r@.body == RespBodyV::Success(result@),
            r@.id == match id {
                Some(i) => Some(i@),
                None => None::<ReqIdV>,
            },
    {
        Response { id, body: RespBody::Success(result) }
    }

    /// An error response with the given code and message.
    pub fn new_error(id: Option<ReqId>, code: i64, message: Vec<char>) -> (r: Response)
        ensures
            r@.body == RespBodyV::Failure(code as int, message@),
            r@.id == match id {
                Some(i) => Some(i@),
                None => None::<ReqIdV>,
            },
    {
        Response { id, body: RespBody::Failure(code, message) }
    }
}

/// The identifier field of a response, as JSON: the echoed value, or null
/// when none could be determined.
pub open spec fn id_json(id: Option<ReqIdV>) -> JsonV {
    match id {
        None => JsonV::Null,
        Some(ReqIdV::Num(n)) => JsonV::Int(n),
        Some(ReqIdV::Str(s)) => JsonV::Str(s),
    }
}

/// The JSON object of a response: the protocol version, the identifier, and
/// exactly one of `result` or `error`.
pub open spec fn resp_json(r: RespV) -> JsonV {
    match r.body {
        RespBodyV::Success(v) => JsonV::Obj(
            seq![
                ("protocolVersion"@, JsonV::Str(protocol_version())),
                ("id"@, id_json(r.id)),
                ("result"@, v),
            ],
        ),
        RespBodyV::Failure(code, message) => JsonV::Obj(
            seq![
                ("protocolVersion"@, JsonV::Str(protocol_version())),
                ("id"@, id_json(r.id)),
                (
                    "error"@,
                    JsonV::Obj(
                        seq![("code"@, JsonV::Int(code)), ("message"@, JsonV::Str(message))],
                    ),
                ),
            ],
        ),
    }
}

/// Builds the JSON object of a response.
pub fn response_to_json(r: &Response) -> (j: Json)
    ensures
        j@ == resp_json(r@),
{
    let id_val: Json = match &r.id {
        None => Json::Null,
        Some(ReqId::Num(n)) => Json::Int(*n),
        Some(ReqId::Str(s)) => Json::Str(clone_chars(s)),
    };
    let j = crate::json::obj_new();
    let j = crate::json::obj_add(j, "protocolVersion", crate::json::js_str("2.0"));
    let j = crate::json::obj_add(j, "id", id_val);
    match &r.body {
        RespBody::Success(v) => {
            let j = crate::json::obj_add(j, "result", clone_json(v));
            proof {
                assert(j@->Obj_0 =~= resp_json(r@)->Obj_0);
            }
            j
        },
        RespBody::Failure(code, message) => {
            let e = crate::json::obj_new();
            let e = crate::json::obj_add(e, "code", Json::Int(*code));
            let e = crate::json::obj_add(e, "message", Json::Str(clone_chars(message)));
            proof {
                assert(e@->Obj_0 =~= seq![
                    ("code"@, JsonV::Int(*code as int)),
                    ("message"@, JsonV::Str(message@)),
                ]);
            }
            let j = crate::json::obj_add(j, "error", e);
            proof {
                assert(j@->Obj_0 =~= resp_json(r@)->Obj_0);
            }
            j
        },
    }
}

// ---------------------------------------------------------------------------
// Field lookup
// ---------------------------------------------------------------------------
/// The value under the first member named `key`, from index `i` on.
pub open spec fn lookup_from(ms: Seq<(Seq<char>, JsonV)>, key: Seq<char>, i: int) -> Option<JsonV>
    decreases ms.len() - i,
{
    if i < 0 || i >= ms.len() {
        None
    } else if ms[i].0 == key {
        Some(ms[i].1)
    } else {
        lookup_from(ms, key, i + 1)
    }
}

/// The value under the first member named `key` of an object, or nothing for
/// any other shape.
pub open spec fn obj_lookup(d: JsonV, key: Seq<char>) -> Option<JsonV> {
    match d {
        JsonV::Obj(ms) => lookup_from(ms, key, 0),
        _ => None,
    }
}

/// True when `v` holds exactly the characters of `s`.
pub fn chars_eq_str(v: &Vec<char>, s: &str) -> (r: bool)
    ensures
        r == (v@ == s@),
{
    let n = s.unicode_len();
    if v.len() != n {
        assert(v@ != s@);
        return false;
    }
    let mut i: usize = 0;
    while i < n
        invariant
            0 <= i <= n,
            n == s@.len(),
            v@.len() == n,
            forall|k: int| 0 <= k < i ==> v@[k] == s@[k],
        decreases n - i,
    {
        if v[i] != s.get_char(i) {
            assert(v@ != s@);
            return false;
        }
        i = i + 1;
    }
    assert(v@ =~= s@);
    true
}

/// Finds the first member of `j` named `key`, when `j` is an object.
pub fn get_field<'a>(j: &'a Json, key: &str) -> (r: Option<&'a Json>)
    ensures
        match r {
            Some(v) => obj_lookup(j@, key@) == Some(v@),
            None => obj_lookup(j@, key@) is None,
        },
{
    match j {
        Json::Obj(members) => {
            proof {
                lemma_jv_members_index(*members, 0);
            }
            let ghost ms = jv_members(*members, 0);
            let mut i: usize = 0;
            while i < members.len()
                invariant
                    *j == Json::Obj(*members),
                    0 <= i <= members@.len(),
                    ms == jv_members(*members, 0),
                    ms.len() == members@.len(),
                    forall|k: int| 0 <= k < members@.len() ==> ms[k] == (
                    members@[k].0@,
                    jv(members@[k].1),
                    ),
                    lookup_from(ms, key@, 0) == lookup_from(ms, key@, i as int),
                decreases members@.len() - i,
            {
                if chars_eq_str(&members[i].0, key) {
                    assert(lookup_from(ms, key@, i as int) == Some(ms[i as int].1));
                    return Some(&members[i].1);
                }
                i = i + 1;
            }
            assert(lookup_from(ms, key@, i as int) is None);
            None
        },
        _ => None,
    }
}

// ---------------------------------------------------------------------------
// Envelope validation
// ---------------------------------------------------------------------------
/// Spec-level validated request.
pub struct RequestV {
    pub id: Option<ReqIdV>,
    pub method: Seq<char>,
    pub params: Option<JsonV>,
}

/// A validated request: a call when `id` is present, a notification when it
/// is absent.
pub struct Request {
    pub id: Option<ReqId>,
    pub method: Vec<char>,
    pub params: Option<Json>,
}

impl View for Request {
    type V = RequestV;

    open spec fn view(&self) -> RequestV {
        RequestV {
            id: match self.id {
                Some(i) => Some(i@),
                None => None,
            },
            method: self.method@,
            params: match self.params {
                Some(p) => Some(p@),
                None => None,
            },
        }
    }
}

/// Spec-level state of the identifier field.
pub enum IdStateV {
    Absent,
    Given(ReqIdV),
    Bad,
}

/// What the identifier field of a decoded line holds: absent, a number or a
/// string, or any other shape (invalid).
pub open spec fn env_id(d: JsonV) -> IdStateV {
    match obj_lookup(d, "id"@) {
        None => IdStateV::Absent,
        Some(JsonV::Int(n)) => if -0x8000000000000000 <= n <= 0x7fffffffffffffff {
            IdStateV::Given(ReqIdV::Num(n))
        } else {
            IdStateV::Bad
        },
        Some(JsonV::Str(s)) => IdStateV::Given(ReqIdV::Str(s)),
        Some(_) => IdStateV::Bad,
    }
}

/// The method name of a decoded line, when it is an object whose `method`
/// member is a string.
pub open spec fn env_method(d: JsonV) -> Option<Seq<char>> {
    match obj_lookup(d, "method"@) {
        Some(JsonV::Str(m)) => Some(m),
        _ => None,
    }
}

/// Whether the decoded line declares the expected protocol version.
pub open spec fn env_version_ok(d: JsonV) -> bool {
    obj_lookup(d, "protocolVersion"@) == Some(JsonV::Str(protocol_version()))
}

/// Spec-level envelope verdict.
pub enum DecodedV {
    /// No `method` string: the line is not a request (maps to Parse Error,
    /// null identifier).
    NotARequest,
    /// Protocol version missing or wrong (maps to Invalid Request, with the
    /// parsed identifier when one was valid).
    BadVersion(Option<ReqIdV>),
    /// The identifier field has an invalid shape (maps to Invalid Request,
    /// null identifier).
    BadId,
    /// A well-formed envelope.
    Req(RequestV),
}

/// Envelope verdict for an executable value.
pub enum Decoded {
    NotARequest,
    BadVersion(Option<ReqId>),
    BadId,
    Req(Request),
}

impl View for Decoded {
    type V = DecodedV;

    open spec fn view(&self) -> DecodedV {
        match self {
            Decoded::NotARequest => DecodedV::NotARequest,
            Decoded::BadVersion(id) => DecodedV::BadVersion(
                match id {
                    Some(i) => Some(i@),
                    None => None,
                },
            ),
            Decoded::BadId => DecodedV::BadId,
            Decoded::Req(r) => DecodedV::Req(r@),
        }
    }
}

/// The envelope verdict on a decoded line: the `method` string must be
/// present; the protocol version must match; the identifier, if present,
/// must be a number or a string.
pub open spec fn validate_envelope_spec(d: JsonV) -> DecodedV {
    match env_method(d) {
        None => DecodedV::NotARequest,
        Some(m) => if !env_version_ok(d) {
            DecodedV::BadVersion(
                match env_id(d) {
                    IdStateV::Given(i) => Some(i),
                    _ => None,
                },
            )
        } else {
            match env_id(d) {
                IdStateV::Bad => DecodedV::BadId,
                IdStateV::Absent => DecodedV::Req(
                    RequestV { id: None, method: m, params: obj_lookup(d, "params"@) },
                ),
                IdStateV::Given(i) => DecodedV::Req(
                    RequestV { id: Some(i), method: m, params: obj_lookup(d, "params"@) },
                ),
            }
        },
    }
}

/// Validates the envelope of a decoded line.
pub fn validate_envelope(d: &Json) -> (r: Decoded)
    ensures
        r@ == validate_envelope_spec(d@),
{
    let method: Vec<char> = match get_field(d, "method") {
        Some(Json::Str(m)) => clone_chars(m),
        _ => {
            return Decoded::NotARequest;
        },
    };
    let id_state: Option<Option<ReqId>> = match get_field(d, "id") {
        None => Some(None),
        Some(Json::Int(n)) => Some(Some(ReqId::Num(*n))),
        Some(Json::Str(s)) => Some(Some(ReqId::Str(clone_chars(s)))),
        Some(_) => None,
    };
    let version_ok: bool = match get_field(d, "protocolVersion") {
        Some(Json::Str(v)) => chars_eq_str(v, "2.0"),
        _ => false,
    };
    if !version_ok {
        let id = match id_state {
            Some(Some(i)) => Some(i),
            _ => None,
        };
        return Decoded::BadVersion(id);
    }
    match id_state {
        None => Decoded::BadId,
        Some(id) => {
            let params: Option<Json> = match get_field(d, "params") {
                Some(p) => Some(clone_json(p)),
                None => None,
            };
            Decoded::Req(Request { id, method, params })
        },
    }
}


/// Law: the JSON form of any response holds a `result` member or an `error`
/// member, and never both.
pub proof fn lemma_response_exclusive(r: RespV)
    ensures
        resp_json(r) is Obj,
        (obj_lookup(resp_json(r), "result"@) is Some) != (obj_lookup(resp_json(r), "error"@)
            is Some),
{
    reveal_strlit("protocolVersion");
    reveal_strlit("id");
    reveal_strlit("result");
    reveal_strlit("error");
    let ms = resp_json(r)->Obj_0;
    assert(ms.len() == 3);
    assert(ms[0].0 == "protocolVersion"@);
    assert(ms[1].0 == "id"@);
    assert("result"@.len() == 6);
    assert("error"@.len() == 5);
    assert("protocolVersion"@.len() == 15);
    assert("id"@.len() == 2);
    assert(lookup_from(ms, "result"@, 0) == lookup_from(ms, "result"@, 1));
    assert(lookup_from(ms, "result"@, 1) == lookup_from(ms, "result"@, 2));
    assert(lookup_from(ms, "error"@, 0) == lookup_from(ms, "error"@, 1));
    assert(lookup_from(ms, "error"@, 1) == lookup_from(ms, "error"@, 2));
    match r.body {
        RespBodyV::Success(v) => {
            assert(ms[2].0 == "result"@);
            assert(lookup_from(ms, "result"@, 2) == Some(v));
            assert(lookup_from(ms, "error"@, 2) == lookup_from(ms, "error"@, 3));
        },
        RespBodyV::Failure(code, message) => {
            assert(ms[2].0 == "error"@);
            assert(lookup_from(ms, "error"@, 2) is Some);
            assert(lookup_from(ms, "result"@, 2) == lookup_from(ms, "result"@, 3));
        },
    }
}


/// A response whose JSON form the codec laws cover: the identifier fits the
/// executable range and the result value is well formed. Every response this
/// library builds satisfies it.
pub open spec fn wf_resp(r: RespV) -> bool {
    &&& match r.id {
        Some(ReqIdV::Num(n)) => -0x8000000000000000 <= n <= 0x7fffffffffffffff,
        _ => true,
    }
    &&& match r.body {
        RespBodyV::Success(v) => crate::json::wf_json(v),
        RespBodyV::Failure(code, message) => -0x8000000000000000 <= code <= 0x7fffffffffffffff,
    }
}

proof fn lemma_resp_json_wf(r: RespV)
    requires
        wf_resp(r),
    ensures
        crate::json::wf_json(resp_json(r)),
{
    let ms = resp_json(r)->Obj_0;
    assert(crate::json::wf_json(ms[0].1));
    assert(crate::json::wf_json(ms[1].1));
    match r.body {
        RespBodyV::Success(v) => {
            assert(crate::json::wf_json(ms[2].1));
        },
        RespBodyV::Failure(code, message) => {
            let es = ms[2].1->Obj_0;
            assert(crate::json::wf_json(es[0].1));
            assert(crate::json::wf_json(es[1].1));
            assert(crate::json::wf_members(es, 2));
            assert(crate::json::wf_members(es, 1));
            assert(crate::json::wf_members(es, 0));
            assert(crate::json::wf_json(ms[2].1));
        },
    }
    assert(crate::json::wf_members(ms, 3));
    assert(crate::json::wf_members(ms, 2));
    assert(crate::json::wf_members(ms, 1));
    assert(crate::json::wf_members(ms, 0));
}

/// Law: a response survives the wire — decoding the encoded line recovers
/// its exact JSON object, and the line holds no embedded newline.
pub proof fn lemma_response_round_trip(r: RespV)
    requires
        wf_resp(r),
    ensures
        crate::json::sp_decode(crate::json::ser(resp_json(r))) == Some(resp_json(r)),
        crate::json::no_newline(crate::json::ser(resp_json(r))),
{
    lemma_resp_json_wf(r);
    crate::json::lemma_round_trip(resp_json(r));
    crate::json::lemma_ser_no_newline(resp_json(r));
}

} // verus!
