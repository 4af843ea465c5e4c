//! The message codec: one inbound line is decoded into a request or a
//! notification, and outbound envelopes are encoded onto one line.
//!
//! The wire unit is a single JSON object per line. Its kind is read off
//! the fields that are present: a request carries `id` and `method`, a
//! notification `method` alone, a response `result` or `error`. The
//! parameter payload is captured verbatim as balanced text and carried
//! through untouched; identifiers are normalized to unsigned 64-bit
//! integers, with string identifiers read as decimal digits.

use vstd::prelude::*;

use crate::json::chars_to_string;
use crate::json::digits_value;
use crate::json::is_digit;
use crate::json::is_plain_char;
use crate::json::is_value_token;
use crate::json::is_ws;
use crate::json::lemma_digits_round_trip;
use crate::json::lemma_escape_plain;
use crate::json::lemma_scan_digits;
use crate::json::lemma_scan_extend;
use crate::json::lemma_scan_split;
use crate::json::lemma_skip_ws_len;
use crate::json::lemma_string_round_trip;
use crate::json::lemma_u64_digits_len;
use crate::json::needs_code_point_escape;
use crate::json::parse_string;
use crate::json::scan_token;
use crate::json::skip_ws;
use crate::json::spec_digits_value;
use crate::json::spec_escape;
use crate::json::spec_parse_string;
use crate::json::spec_scan_token;
use crate::json::spec_skip_ws;
use crate::json::spec_string_body;
use crate::json::spec_u64_digits;
use crate::json::str_to_chars;
use crate::json::suffix;

verus! {

/// Why a line was refused.
#[derive(Clone, Copy, Debug, PartialEq, Eq, Structural)]
pub enum DecodeError {
    /// The line is not one well-formed object.
    InvalidJson,
    /// The object is well-formed but is no valid envelope: wrong or
    /// missing version tag, no method on a non-response, a duplicate
    /// field, or a hybrid of request and response.
    InvalidEnvelope,
    /// The `id` field is neither an unsigned 64-bit integer nor a
    /// string of decimal digits with such a value.
    InvalidId,
    /// A response envelope; the plugin side receives only requests and
    /// notifications and refuses responses rather than drop them.
    UnsupportedResponse,
}

impl DecodeError {
    /// A short description of the refusal, fit for the error stream.
    pub fn describe(&self) -> (r: String)
        ensures
            r@ == (match self {
                DecodeError::InvalidJson => "the line is not one well-formed object"@,
                DecodeError::InvalidEnvelope => "the object is no valid envelope"@,
                DecodeError::InvalidId => "the id is not an unsigned 64-bit value"@,
                DecodeError::UnsupportedResponse => "response envelopes have no handling path here"@,
            }),
    {
        match self {
            DecodeError::InvalidJson => String::from_str("the line is not one well-formed object"),
            DecodeError::InvalidEnvelope => String::from_str("the object is no valid envelope"),
            DecodeError::InvalidId => String::from_str("the id is not an unsigned 64-bit value"),
            DecodeError::UnsupportedResponse => String::from_str(
                "response envelopes have no handling path here",
            ),
        }
    }
}

/// An identifier as found on the wire, before normalization.
pub enum SpecId {
    Num(u64),
    Digits(Seq<char>),
    Other,
}

/// The fields of one envelope object, as the member parser collects
/// them.
pub struct SpecFields {
    pub version: Option<Seq<char>>,
    pub id: Option<SpecId>,
    pub method: Option<Seq<char>>,
    pub params: Option<Seq<char>>,
    pub has_result: bool,
    pub has_error: bool,
}

/// A decoded message: the in-memory form of one inbound line.
pub enum SpecMsg {
    Request { id: u64, method: Seq<char>, params: Seq<char> },
    Notification { method: Seq<char>, params: Seq<char> },
}

pub open spec fn empty_fields() -> SpecFields {
    SpecFields {
        version: None,
        id: None,
        method: None,
        params: None,
        has_result: false,
        has_error: false,
    }
}

pub open spec fn key_version() -> Seq<char> {
    seq!['j', 's', 'o', 'n', 'r', 'p', 'c']
}

pub open spec fn key_id() -> Seq<char> {
    seq!['i', 'd']
}

pub open spec fn key_method() -> Seq<char> {
    seq!['m', 'e', 't', 'h', 'o', 'd']
}

pub open spec fn key_params() -> Seq<char> {
    seq!['p', 'a', 'r', 'a', 'm', 's']
}

pub open spec fn key_result() -> Seq<char> {
    seq!['r', 'e', 's', 'u', 'l', 't']
}

pub open spec fn key_error() -> Seq<char> {
    seq!['e', 'r', 'r', 'o', 'r']
}

pub open spec fn version_text() -> Seq<char> {
    seq!['2', '.', '0']
}

/// The payload a message carries when its `params` field is absent.
pub open spec fn null_text() -> Seq<char> {
    seq!['n', 'u', 'l', 'l']
}

/// Reads the value of one member and records it in the fields. A known
/// key seen twice fails; an unknown key has its value skipped.
pub open spec fn spec_member_value(key: Seq<char>, s: Seq<char>, f: SpecFields) -> Option<
    (SpecFields, Seq<char>),
> {
    if key == key_version() {
        if f.version is Some {
            None
        } else {
            match spec_parse_string(s) {
                Some((v, rem)) => Some((SpecFields { version: Some(v), ..f }, rem)),
                None => None,
            }
        }
    } else if key == key_id() {
        if f.id is Some {
            None
        } else if s.len() > 0 && s[0] == '"' {
            match spec_parse_string(s) {
                Some((v, rem)) => Some((SpecFields { id: Some(SpecId::Digits(v)), ..f }, rem)),
                None => None,
            }
        } else {
            match spec_scan_token(s) {
                Some((tok, rem)) => if tok.len() == 0 {
                    None
                } else {
                    match spec_digits_value(tok) {
                        Some(n) => Some((SpecFields { id: Some(SpecId::Num(n)), ..f }, rem)),
                        None => Some((SpecFields { id: Some(SpecId::Other), ..f }, rem)),
                    }
                },
                None => None,
            }
        }
    } else if key == key_method() {
        if f.method is Some {
            None
        } else {
            match spec_parse_string(s) {
                Some((v, rem)) => Some((SpecFields { method: Some(v), ..f }, rem)),
                None => None,
            }
        }
    } else if key == key_params() {
        if f.params is Some {
            None
        } else {
            match spec_scan_token(s) {
                Some((tok, rem)) => if tok.len() == 0 {
                    None
                } else {
                    Some((SpecFields { params: Some(tok), ..f }, rem))
                },
                None => None,
            }
        }
    } else if key == key_result() {
        if f.has_result {
            None
        } else {
            match spec_scan_token(s) {
                Some((tok, rem)) => if tok.len() == 0 {
                    None
                } else {
                    Some((SpecFields { has_result: true, ..f }, rem))
                },
                None => None,
            }
        }
    } else if key == key_error() {
        if f.has_error {
            None
        } else {
            match spec_scan_token(s) {
                Some((tok, rem)) => if tok.len() == 0 {
                    None
                } else {
                    Some((SpecFields { has_error: true, ..f }, rem))
                },
                None => None,
            }
        }
    } else {
        match spec_scan_token(s) {
            Some((tok, rem)) => if tok.len() == 0 {
                None
            } else {
                Some((f, rem))
            },
            None => None,
        }
    }
}

/// The value of a member consumes part of the input.
pub proof fn lemma_member_value_len(key: Seq<char>, s: Seq<char>, f: SpecFields)
    ensures
        spec_member_value(key, s, f) matches Some((f2, rem)) ==> rem.len() <= s.len(),
{
    lemma_parse_string_len(s);
    match spec_scan_token(s) {
        Some((tok, rem)) => {
            lemma_scan_split(s, 0, false, false);
        },
        None => {},
    }
}

/// Reading a quoted string consumes at least its two quotes.
pub proof fn lemma_string_body_len(s: Seq<char>)
    ensures
        spec_string_body(s) matches Some((m, rem)) ==> rem.len() < s.len(),
    decreases s.len(),
{
    if s.len() > 0 {
        let c = s[0];
        if c == '"' {
        } else if c == '\\' {
            if s.len() >= 2 {
                lemma_string_body_len(s.drop_first().drop_first());
            }
        } else {
            lemma_string_body_len(s.drop_first());
        }
    }
}

pub proof fn lemma_parse_string_len(s: Seq<char>)
    ensures
        spec_parse_string(s) matches Some((m, rem)) ==> rem.len() + 2 <= s.len(),
{
    if s.len() > 0 && s[0] == '"' {
        lemma_string_body_len(s.drop_first());
    }
}

/// Reads the members of the envelope object, after its opening brace,
/// up to and including its closing brace.
pub open spec fn spec_parse_members(s: Seq<char>, f: SpecFields, first: bool) -> Option<
    (SpecFields, Seq<char>),
>
    decreases s.len(),
    via spec_parse_members_decreases
{
    let t = spec_skip_ws(s);
    if t.len() == 0 {
        None
    } else if t[0] == '}' {
        if first {
            Some((f, t.drop_first()))
        } else {
            None
        }
    } else {
        match spec_parse_string(t) {
            Some((key, after_key)) => {
                let t2 = spec_skip_ws(after_key);
                if t2.len() == 0 || t2[0] != ':' {
                    None
                } else {
                    let t3 = spec_skip_ws(t2.drop_first());
                    match spec_member_value(key, t3, f) {
                        Some((f2, after_val)) => {
                            let t4 = spec_skip_ws(after_val);
                            if t4.len() == 0 {
                                None
                            } else if t4[0] == '}' {
                                Some((f2, t4.drop_first()))
                            } else if t4[0] == ',' {
                                spec_parse_members(t4.drop_first(), f2, false)
                            } else {
                                None
                            }
                        },
                        None => None,
                    }
                }
            },
            None => None,
        }
    }
}

#[via_fn]
proof fn spec_parse_members_decreases(s: Seq<char>, f: SpecFields, first: bool) {
    let t = spec_skip_ws(s);
    lemma_skip_ws_len(s);
    if t.len() > 0 && t[0] != '}' {
        match spec_parse_string(t) {
            Some((key, after_key)) => {
                lemma_parse_string_len(t);
                let t2 = spec_skip_ws(after_key);
                lemma_skip_ws_len(after_key);
                if t2.len() > 0 && t2[0] == ':' {
                    let t3 = spec_skip_ws(t2.drop_first());
                    lemma_skip_ws_len(t2.drop_first());
                    match spec_member_value(key, t3, f) {
                        Some((f2, after_val)) => {
                            lemma_member_value_len(key, t3, f);
                            let t4 = spec_skip_ws(after_val);
                            lemma_skip_ws_len(after_val);
                        },
                        None => {},
                    }
                }
            },
            None => {},
        }
    }
}

/// Turns the collected fields into a message, by the presence rule:
/// `id` with `method` is a request, `method` alone a notification, and
/// `result` or `error` marks a response, which the plugin side refuses.
/// The version tag must read `2.0`; an absent payload defaults to
/// `null`; a string identifier must be decimal digits of a 64-bit
/// value.
pub open spec fn spec_classify(f: SpecFields) -> Result<SpecMsg, DecodeError> {
    if f.version != Some(version_text()) {
        Err(DecodeError::InvalidEnvelope)
    } else {
        match f.method {
            Some(m) => {
                if f.has_result || f.has_error {
                    Err(DecodeError::InvalidEnvelope)
                } else {
                    let p = match f.params {
                        Some(q) => q,
                        None => null_text(),
                    };
                    match f.id {
                        None => Ok(SpecMsg::Notification { method: m, params: p }),
                        Some(SpecId::Num(n)) => Ok(SpecMsg::Request { id: n, method: m, params: p }),
                        Some(SpecId::Digits(t)) => match spec_digits_value(t) {
                            Some(n) => Ok(SpecMsg::Request { id: n, method: m, params: p }),
                            None => Err(DecodeError::InvalidId),
                        },
                        Some(SpecId::Other) => Err(DecodeError::InvalidId),
                    }
                }
            },
            None => {
                if f.has_result || f.has_error {
                    Err(DecodeError::UnsupportedResponse)
                } else {
                    Err(DecodeError::InvalidEnvelope)
                }
            },
        }
    }
}

/// What decoding one line yields: the message, or the reason the line
/// is refused.
pub open spec fn spec_decode(s: Seq<char>) -> Result<SpecMsg, DecodeError> {
    let t = spec_skip_ws(s);
    if t.len() == 0 || t[0] != '{' {
        Err(DecodeError::InvalidJson)
    } else {
        match spec_parse_members(t.drop_first(), empty_fields(), true) {
            Some((f, rest)) => {
                if spec_skip_ws(rest).len() != 0 {
                    Err(DecodeError::InvalidJson)
                } else {
                    spec_classify(f)
                }
            },
            None => Err(DecodeError::InvalidJson),
        }
    }
}

pub open spec fn req_prefix() -> Seq<char> {
    seq!['{', '"', 'j', 's', 'o', 'n', 'r', 'p', 'c', '"', ':', '"', '2', '.', '0', '"', ',', '"', 'i', 'd', '"', ':']
}

pub open spec fn method_infix() -> Seq<char> {
    seq![',', '"', 'm', 'e', 't', 'h', 'o', 'd', '"', ':', '"']
}

pub open spec fn notif_prefix() -> Seq<char> {
    seq!['{', '"', 'j', 's', 'o', 'n', 'r', 'p', 'c', '"', ':', '"', '2', '.', '0', '"', ',', '"', 'm', 'e', 't', 'h', 'o', 'd', '"', ':', '"']
}

pub open spec fn params_infix() -> Seq<char> {
    seq!['"', ',', '"', 'p', 'a', 'r', 'a', 'm', 's', '"', ':']
}

/// The one line that carries a request: version tag, identifier, the
/// escaped method name, and the payload verbatim.
pub open spec fn spec_encode_request(id: u64, method: Seq<char>, params: Seq<char>) -> Seq<char> {
    req_prefix() + spec_u64_digits(id) + method_infix() + spec_escape(method) + params_infix()
        + params + seq!['}']
}

/// The one line that carries a notification.
pub open spec fn spec_encode_notification(method: Seq<char>, params: Seq<char>) -> Seq<char> {
    notif_prefix() + spec_escape(method) + params_infix() + params + seq!['}']
}

/// One member as encoding lays it out: the quoted key, the colon, and
/// the value together with everything that follows it.
pub open spec fn member_text(k: Seq<char>, vrest: Seq<char>) -> Seq<char> {
    seq!['"'] + k + seq!['"'] + seq![':'] + vrest
}

/// Walking the member parser over one member laid out as encoding
/// writes it: the key is read back, the value is read by the member
/// rule, and parsing continues after the separator.
pub proof fn lemma_parse_one_member(k: Seq<char>, vrest: Seq<char>, f: SpecFields, first: bool)
    requires
        k.len() > 0,
        forall|i: int| 0 <= i < k.len() ==> is_plain_char(#[trigger] k[i]),
        vrest.len() > 0,
        !is_ws(vrest[0]),
        spec_member_value(k, vrest, f) is Some,
        ({
            let (f2, after) = spec_member_value(k, vrest, f)->Some_0;
            after.len() > 0 && (after[0] == ',' || after[0] == '}')
        }),
    ensures
        ({
            let (f2, after) = spec_member_value(k, vrest, f)->Some_0;
            spec_parse_members(member_text(k, vrest), f, first) == (if after[0] == '}' {
                Some((f2, after.drop_first()))
            } else {
                spec_parse_members(after.drop_first(), f2, false)
            })
        }),
{
    let t = member_text(k, vrest);
    assert(t[0] == '"');
    assert(spec_skip_ws(t) == t);
    lemma_escape_plain(k);
    assert forall|i: int| 0 <= i < k.len() implies !needs_code_point_escape(#[trigger] k[i]) by {
        assert(is_plain_char(k[i]));
    }
    lemma_string_round_trip(k, seq![':'] + vrest);
    assert(t.drop_first() =~= spec_escape(k) + seq!['"'] + (seq![':'] + vrest));
    assert(spec_parse_string(t) == Some((k, seq![':'] + vrest)));
    let t2 = seq![':'] + vrest;
    assert(t2[0] == ':');
    assert(spec_skip_ws(t2) == t2);
    assert(t2.drop_first() =~= vrest);
    assert(spec_skip_ws(vrest) == vrest);
    let (f2, after) = spec_member_value(k, vrest, f)->Some_0;
    assert(!is_ws(after[0]));
    assert(spec_skip_ws(after) == after);
}

/// Law: an encoded request decodes back to the request it carries: the
/// same identifier, the method name unchanged, and the payload text
/// unchanged. It holds for every identifier, every method name free of
/// characters that would need a code-point escape, and every payload
/// that is one value token.
#[verifier::rlimit(100)]
pub proof fn lemma_request_round_trip(id: u64, method: Seq<char>, params: Seq<char>)
    requires
        forall|i: int| 0 <= i < method.len() ==> !needs_code_point_escape(#[trigger] method[i]),
        is_value_token(params),
    ensures
        spec_decode(spec_encode_request(id, method, params)) == Result::<
            SpecMsg,
            DecodeError,
        >::Ok(SpecMsg::Request { id, method, params }),
{
    let e = spec_encode_request(id, method, params);
    let dm = spec_u64_digits(id);
    let em = spec_escape(method);
    let t_close = seq!['}'];
    let t_v4 = params + t_close;
    let t_key4 = member_text(key_params(), t_v4);
    let t_s3 = seq![','] + t_key4;
    let t_v3 = seq!['"'] + em + seq!['"'] + t_s3;
    let t_key3 = member_text(key_method(), t_v3);
    let t_s2 = seq![','] + t_key3;
    let t_v2 = dm + t_s2;
    let t_key2 = member_text(key_id(), t_v2);
    let t_s1 = seq![','] + t_key2;
    let t_v1 = seq!['"'] + version_text() + seq!['"'] + t_s1;
    let t_key1 = member_text(key_version(), t_v1);

    // the encoded line, reassociated along the member boundaries
    assert(req_prefix() =~= seq!['{'] + seq!['"'] + key_version() + seq!['"'] + seq![':']
        + seq!['"'] + version_text() + seq!['"'] + seq![','] + seq!['"'] + key_id() + seq!['"']
        + seq![':']);
    assert(method_infix() =~= seq![','] + seq!['"'] + key_method() + seq!['"'] + seq![':']
        + seq!['"']);
    assert(params_infix() =~= seq!['"'] + seq![','] + seq!['"'] + key_params() + seq!['"']
        + seq![':']);
    assert(e =~= seq!['{'] + t_key1);

    // the keys are plain text and pairwise distinct where it matters
    assert forall|i: int| 0 <= i < key_version().len() implies is_plain_char(
        #[trigger] key_version()[i],
    ) by {}
    assert forall|i: int| 0 <= i < key_id().len() implies is_plain_char(#[trigger] key_id()[i]) by {}
    assert forall|i: int| 0 <= i < key_method().len() implies is_plain_char(
        #[trigger] key_method()[i],
    ) by {}
    assert forall|i: int| 0 <= i < key_params().len() implies is_plain_char(
        #[trigger] key_params()[i],
    ) by {}
    assert(key_id().len() != key_version().len());
    assert(key_method().len() != key_version().len());
    assert(key_method().len() != key_id().len());
    assert(key_params().len() != key_version().len());
    assert(key_params().len() != key_id().len());
    assert(key_params()[0] != key_method()[0]);
    assert(key_params() != key_method());

    // the version member
    assert forall|i: int| 0 <= i < version_text().len() implies !needs_code_point_escape(
        #[trigger] version_text()[i],
    ) by {}
    lemma_escape_plain(version_text());
    lemma_string_round_trip(version_text(), t_s1);
    assert(t_v1.drop_first() =~= spec_escape(version_text()) + seq!['"'] + t_s1);
    assert(t_v1[0] == '"');
    assert(spec_parse_string(t_v1) == Some((version_text(), t_s1)));
    let f1 = SpecFields { version: Some(version_text()), ..empty_fields() };
    assert(spec_member_value(key_version(), t_v1, empty_fields()) == Some((f1, t_s1)));
    assert(t_s1[0] == ',');
    lemma_parse_one_member(key_version(), t_v1, empty_fields(), true);
    assert(t_s1.drop_first() =~= t_key2);

    // the id member
    lemma_u64_digits_len(id);
    assert(t_v2[0] == dm[0]);
    assert(is_digit(dm[0]));
    assert(dm[0] != '"');
    assert(!is_ws(dm[0]));
    assert(t_s2[0] == ',');
    lemma_scan_digits(dm, t_s2);
    lemma_digits_round_trip(id);
    let f2 = SpecFields { id: Some(SpecId::Num(id)), ..f1 };
    assert(spec_member_value(key_id(), t_v2, f1) == Some((f2, t_s2)));
    lemma_parse_one_member(key_id(), t_v2, f1, false);
    assert(t_s2.drop_first() =~= t_key3);

    // the method member
    lemma_string_round_trip(method, t_s3);
    assert(t_v3.drop_first() =~= em + seq!['"'] + t_s3);
    assert(t_v3[0] == '"');
    assert(spec_parse_string(t_v3) == Some((method, t_s3)));
    let f3 = SpecFields { method: Some(method), ..f2 };
    assert(spec_member_value(key_method(), t_v3, f2) == Some((f3, t_s3)));
    assert(t_s3[0] == ',');
    lemma_parse_one_member(key_method(), t_v3, f2, false);
    assert(t_s3.drop_first() =~= t_key4);

    // the params member: the payload is one token and stops at the
    // closing brace
    assert(spec_scan_token(params) == Some((params, Seq::<char>::empty())));
    assert(!is_ws(params[0])) by {
        if is_ws(params[0]) {
            assert(spec_scan_token(params) == Some((Seq::<char>::empty(), params)));
        }
    }
    assert(t_close[0] == '}');
    lemma_scan_extend(params, t_close, 0, false, false);
    assert(Seq::<char>::empty() + t_close =~= t_close);
    assert(spec_scan_token(t_v4) == Some((params, t_close)));
    assert(t_v4[0] == params[0]);
    let f4 = SpecFields { params: Some(params), ..f3 };
    assert(spec_member_value(key_params(), t_v4, f3) == Some((f4, t_close)));
    lemma_parse_one_member(key_params(), t_v4, f3, false);
    assert(t_close.drop_first() =~= Seq::<char>::empty());

    // the whole line
    assert(spec_parse_members(t_key1, empty_fields(), true) == Some(
        (f4, Seq::<char>::empty()),
    ));
    assert(e[0] == '{');
    assert(spec_skip_ws(e) == e);
    assert(e.drop_first() =~= t_key1);
    assert(spec_skip_ws(Seq::<char>::empty()).len() == 0);
    assert(spec_classify(f4) == Result::<SpecMsg, DecodeError>::Ok(
        SpecMsg::Request { id, method, params },
    ));
}

/// Law: an encoded notification decodes back to the notification it
/// carries, with the method name and the payload text unchanged — and
/// so never to a request, since the line carries no identifier.
#[verifier::rlimit(100)]
pub proof fn lemma_notification_round_trip(method: Seq<char>, params: Seq<char>)
    requires
        forall|i: int| 0 <= i < method.len() ==> !needs_code_point_escape(#[trigger] method[i]),
        is_value_token(params),
    ensures
        spec_decode(spec_encode_notification(method, params)) == Result::<
            SpecMsg,
            DecodeError,
        >::Ok(SpecMsg::Notification { method, params }),
{
    let e = spec_encode_notification(method, params);
    let em = spec_escape(method);
    let t_close = seq!['}'];
    let t_v3 = params + t_close;
    let t_key3 = member_text(key_params(), t_v3);
    let t_s2 = seq![','] + t_key3;
    let t_v2 = seq!['"'] + em + seq!['"'] + t_s2;
    let t_key2 = member_text(key_method(), t_v2);
    let t_s1 = seq![','] + t_key2;
    let t_v1 = seq!['"'] + version_text() + seq!['"'] + t_s1;
    let t_key1 = member_text(key_version(), t_v1);

    assert(notif_prefix() =~= seq!['{'] + seq!['"'] + key_version() + seq!['"'] + seq![':']
        + seq!['"'] + version_text() + seq!['"'] + seq![','] + seq!['"'] + key_method() + seq!['"']
        + seq![':'] + seq!['"']);
    assert(params_infix() =~= seq!['"'] + seq![','] + seq!['"'] + key_params() + seq!['"']
        + seq![':']);
    assert(e =~= seq!['{'] + t_key1);

    assert forall|i: int| 0 <= i < key_version().len() implies is_plain_char(
        #[trigger] key_version()[i],
    ) by {}
    assert forall|i: int| 0 <= i < key_method().len() implies is_plain_char(
        #[trigger] key_method()[i],
    ) by {}
    assert forall|i: int| 0 <= i < key_params().len() implies is_plain_char(
        #[trigger] key_params()[i],
    ) by {}
    assert(key_method().len() != key_version().len());
    assert(key_params().len() != key_version().len());
    assert(key_params()[0] != key_method()[0]);
    assert(key_params() != key_method());
    assert(key_method().len() != key_id().len());
    assert(key_params().len() != key_id().len());

    // the version member
    assert forall|i: int| 0 <= i < version_text().len() implies !needs_code_point_escape(
        #[trigger] version_text()[i],
    ) by {}
    lemma_escape_plain(version_text());
    lemma_string_round_trip(version_text(), t_s1);
    assert(t_v1.drop_first() =~= spec_escape(version_text()) + seq!['"'] + t_s1);
    assert(t_v1[0] == '"');
    assert(spec_parse_string(t_v1) == Some((version_text(), t_s1)));
    let f1 = SpecFields { version: Some(version_text()), ..empty_fields() };
    assert(spec_member_value(key_version(), t_v1, empty_fields()) == Some((f1, t_s1)));
    assert(t_s1[0] == ',');
    lemma_parse_one_member(key_version(), t_v1, empty_fields(), true);
    assert(t_s1.drop_first() =~= t_key2);

    // the method member
    lemma_string_round_trip(method, t_s2);
    assert(t_v2.drop_first() =~= em + seq!['"'] + t_s2);
    assert(t_v2[0] == '"');
    assert(spec_parse_string(t_v2) == Some((method, t_s2)));
    let f2 = SpecFields { method: Some(method), ..f1 };
    assert(spec_member_value(key_method(), t_v2, f1) == Some((f2, t_s2)));
    assert(t_s2[0] == ',');
    lemma_parse_one_member(key_method(), t_v2, f1, false);
    assert(t_s2.drop_first() =~= t_key3);

    // the params member
    assert(spec_scan_token(params) == Some((params, Seq::<char>::empty())));
    assert(!is_ws(params[0])) by {
        if is_ws(params[0]) {
            assert(spec_scan_token(params) == Some((Seq::<char>::empty(), params)));
        }
    }
    assert(t_close[0] == '}');
    lemma_scan_extend(params, t_close, 0, false, false);
    assert(Seq::<char>::empty() + t_close =~= t_close);
    assert(spec_scan_token(t_v3) == Some((params, t_close)));
    assert(t_v3[0] == params[0]);
    let f3 = SpecFields { params: Some(params), ..f2 };
    assert(spec_member_value(key_params(), t_v3, f2) == Some((f3, t_close)));
    lemma_parse_one_member(key_params(), t_v3, f2, false);
    assert(t_close.drop_first() =~= Seq::<char>::empty());

    assert(spec_parse_members(t_key1, empty_fields(), true) == Some(
        (f3, Seq::<char>::empty()),
    ));
    assert(e[0] == '{');
    assert(spec_skip_ws(e) == e);
    assert(e.drop_first() =~= t_key1);
    assert(spec_skip_ws(Seq::<char>::empty()).len() == 0);
    assert(spec_classify(f3) == Result::<SpecMsg, DecodeError>::Ok(
        SpecMsg::Notification { method, params },
    ));
}

/// Law: a line without an `id` field never classifies as a request;
/// with a method and the version tag it is a notification, and without
/// them it is refused. Decoding routes every line through this rule.
pub proof fn lemma_no_id_never_request(f: SpecFields)
    ensures
        f.id is None ==> !(spec_classify(f) matches Ok(m) && m is Request),
        f.id is None && f.version == Some(version_text()) && f.method is Some && !f.has_result
            && !f.has_error ==> (spec_classify(f) matches Ok(m) && m is Notification),
{
}

/// Method text that the escaper can put back on the wire: nothing in
/// it would need a code-point escape.
pub open spec fn method_text_ok(m: Seq<char>) -> bool {
    forall|i: int| 0 <= i < m.len() ==> !needs_code_point_escape(#[trigger] m[i])
}

/// Fields fit for re-encoding: a method that can be escaped back, and
/// a payload that is one value token.
pub open spec fn fields_wf(f: SpecFields) -> bool {
    &&& (f.method matches Some(m) ==> method_text_ok(m))
    &&& (f.params matches Some(p) ==> is_value_token(p))
}

/// Reading one member keeps the fields fit for re-encoding: a method
/// read off the wire is escapable, and a captured payload is one
/// token.
pub proof fn lemma_member_value_wf(key: Seq<char>, s: Seq<char>, f: SpecFields)
    requires
        fields_wf(f),
    ensures
        spec_member_value(key, s, f) matches Some((f2, rem)) ==> fields_wf(f2),
{
    if s.len() > 0 && s[0] == '"' {
        crate::json::lemma_string_body_wellformed(s.drop_first());
    }
    crate::json::lemma_scan_prefix(s, 0, false, false);
}

/// The member parser keeps the fields fit for re-encoding.
pub proof fn lemma_members_wellformed(s: Seq<char>, f: SpecFields, first: bool)
    requires
        fields_wf(f),
    ensures
        spec_parse_members(s, f, first) matches Some((f2, rem)) ==> fields_wf(f2),
    decreases s.len(),
{
    let t = spec_skip_ws(s);
    lemma_skip_ws_len(s);
    if t.len() > 0 && t[0] != '}' {
        match spec_parse_string(t) {
            Some((key, after_key)) => {
                lemma_parse_string_len(t);
                let t2 = spec_skip_ws(after_key);
                lemma_skip_ws_len(after_key);
                if t2.len() > 0 && t2[0] == ':' {
                    let t3 = spec_skip_ws(t2.drop_first());
                    lemma_skip_ws_len(t2.drop_first());
                    match spec_member_value(key, t3, f) {
                        Some((f2, after_val)) => {
                            lemma_member_value_len(key, t3, f);
                            lemma_member_value_wf(key, t3, f);
                            let t4 = spec_skip_ws(after_val);
                            lemma_skip_ws_len(after_val);
                            if t4.len() > 0 && t4[0] == ',' {
                                lemma_members_wellformed(t4.drop_first(), f2, false);
                            }
                        },
                        None => {},
                    }
                }
            },
            None => {},
        }
    }
}

/// Law: decoding then re-encoding is stable. A line that decodes to a
/// request or a notification re-encodes — with the method name, the
/// payload text and the numeric identifier the decoder returned — to a
/// line that decodes to the very same message.
pub proof fn lemma_decode_encode_stable(s: Seq<char>)
    ensures
        spec_decode(s) matches Ok(m) ==> (match m {
            SpecMsg::Request { id, method, params } => spec_decode(
                spec_encode_request(id, method, params),
            ) == Result::<SpecMsg, DecodeError>::Ok(m),
            SpecMsg::Notification { method, params } => spec_decode(
                spec_encode_notification(method, params),
            ) == Result::<SpecMsg, DecodeError>::Ok(m),
        }),
{
    let t = spec_skip_ws(s);
    if t.len() > 0 && t[0] == '{' {
        match spec_parse_members(t.drop_first(), empty_fields(), true) {
            Some((f, rest)) => {
                if spec_skip_ws(rest).len() == 0 {
                    lemma_members_wellformed(t.drop_first(), empty_fields(), true);
                    assert(forall|i: int|
                        0 <= i < null_text().len() ==> crate::json::is_word_char(
                            #[trigger] null_text()[i],
                        ));
                    crate::json::lemma_scan_word(null_text(), Seq::empty());
                    assert(null_text() + Seq::<char>::empty() =~= null_text());
                    assert(is_value_token(null_text()));
                    match spec_classify(f) {
                        Ok(m) => match m {
                            SpecMsg::Request { id, method, params } => {
                                lemma_request_round_trip(id, method, params);
                            },
                            SpecMsg::Notification { method, params } => {
                                lemma_notification_round_trip(method, params);
                            },
                        },
                        Err(e) => {},
                    }
                }
            },
            None => {},
        }
    }
}

/// An `id` value as read off the wire.
enum IdToken {
    Num(u64),
    Digits(String),
    Other,
}

impl View for IdToken {
    type V = SpecId;

    closed spec fn view(&self) -> SpecId {
        match self {
            IdToken::Num(n) => SpecId::Num(*n),
            IdToken::Digits(s) => SpecId::Digits(s@),
            IdToken::Other => SpecId::Other,
        }
    }
}

/// The envelope fields as the executable parser collects them.
struct FieldsAcc {
    version: Option<String>,
    id: Option<IdToken>,
    method: Option<String>,
    params: Option<String>,
    has_result: bool,
    has_error: bool,
}

impl View for FieldsAcc {
    type V = SpecFields;

    closed spec fn view(&self) -> SpecFields {
        SpecFields {
            version: match self.version {
                Some(s) => Some(s@),
                None => None,
            },
            id: match self.id {
                Some(t) => Some(t@),
                None => None,
            },
            method: match self.method {
                Some(s) => Some(s@),
                None => None,
            },
            params: match self.params {
                Some(s) => Some(s@),
                None => None,
            },
            has_result: self.has_result,
            has_error: self.has_error,
        }
    }
}

/// A decoded inbound message, routed by the dispatcher to the plugin:
/// a request to answer, or a notification to take note of. The payload
/// is carried as its verbatim text on the wire.
#[derive(Debug, Clone)]
pub enum PluginServerRpc {
    Request { id: u64, method: String, params: String },
    Notification { method: String, params: String },
}

impl View for PluginServerRpc {
    type V = SpecMsg;

    open spec fn view(&self) -> SpecMsg {
        match self {
            PluginServerRpc::Request { id, method, params } => SpecMsg::Request {
                id: *id,
                method: method@,
                params: params@,
            },
            PluginServerRpc::Notification { method, params } => SpecMsg::Notification {
                method: method@,
                params: params@,
            },
        }
    }
}

/// Reads the value of one member, as the member rule of the
/// specification has it.
fn member_value_exec(v: &Vec<char>, key: &String, i: usize, f: FieldsAcc) -> (r: Option<
    (FieldsAcc, usize),
>)
    requires
        i <= v@.len(),
    ensures
        match spec_member_value(key@, suffix(v@, i as int), f@) {
            Some((f2, rem)) => r matches Some((fe, j)) && i <= j <= v@.len() && fe@ == f2 && rem
                == suffix(v@, j as int),
            None => r is None,
        },
{
    let k_version = String::from_str("jsonrpc");
    let k_id = String::from_str("id");
    let k_method = String::from_str("method");
    let k_params = String::from_str("params");
    let k_result = String::from_str("result");
    let k_error = String::from_str("error");
    proof {
        reveal_strlit("jsonrpc");
        reveal_strlit("id");
        reveal_strlit("method");
        reveal_strlit("params");
        reveal_strlit("result");
        reveal_strlit("error");
        assert(k_version@ =~= key_version());
        assert(k_id@ =~= key_id());
        assert(k_method@ =~= key_method());
        assert(k_params@ =~= key_params());
        assert(k_result@ =~= key_result());
        assert(k_error@ =~= key_error());
    }
    if *key == k_version {
        if f.version.is_some() {
            return None;
        }
        match parse_string(v, i) {
            Some((val, j)) => Some((FieldsAcc { version: Some(val), ..f }, j)),
            None => None,
        }
    } else if *key == k_id {
        if f.id.is_some() {
            return None;
        }
        if i < v.len() && v[i] == '"' {
            match parse_string(v, i) {
                Some((val, j)) => Some((FieldsAcc { id: Some(IdToken::Digits(val)), ..f }, j)),
                None => None,
            }
        } else {
            match scan_token(v, i) {
                Some(j) => {
                    if j == i {
                        return None;
                    }
                    match digits_value(v, i, j) {
                        Some(n) => Some((FieldsAcc { id: Some(IdToken::Num(n)), ..f }, j)),
                        None => Some((FieldsAcc { id: Some(IdToken::Other), ..f }, j)),
                    }
                },
                None => None,
            }
        }
    } else if *key == k_method {
        if f.method.is_some() {
            return None;
        }
        match parse_string(v, i) {
            Some((val, j)) => Some((FieldsAcc { method: Some(val), ..f }, j)),
            None => None,
        }
    } else if *key == k_params {
        if f.params.is_some() {
            return None;
        }
        match scan_token(v, i) {
            Some(j) => {
                if j == i {
                    return None;
                }
                let text = chars_to_string(v, i, j);
                Some((FieldsAcc { params: Some(text), ..f }, j))
            },
            None => None,
        }
    } else if *key == k_result {
        if f.has_result {
            return None;
        }
        match scan_token(v, i) {
            Some(j) => {
                if j == i {
                    return None;
                }
                Some((FieldsAcc { has_result: true, ..f }, j))
            },
            None => None,
        }
    } else if *key == k_error {
        if f.has_error {
            return None;
        }
        match scan_token(v, i) {
            Some(j) => {
                if j == i {
                    return None;
                }
                Some((FieldsAcc { has_error: true, ..f }, j))
            },
            None => None,
        }
    } else {
        match scan_token(v, i) {
            Some(j) => {
                if j == i {
                    return None;
                }
                Some((f, j))
            },
            None => None,
        }
    }
}

/// Reads the members of the envelope object, after its opening brace.
fn parse_members_exec(v: &Vec<char>, i: usize, f: FieldsAcc, first: bool) -> (r: Option<
    (FieldsAcc, usize),
>)
    requires
        i <= v@.len(),
    ensures
        match spec_parse_members(suffix(v@, i as int), f@, first) {
            Some((f2, rem)) => r matches Some((fe, j)) && i <= j <= v@.len() && fe@ == f2 && rem
                == suffix(v@, j as int),
            None => r is None,
        },
    decreases v@.len() - i,
{
    let n = v.len();
    let j0 = skip_ws(v, i);
    if j0 == n {
        proof {
            assert(spec_skip_ws(suffix(v@, i as int)).len() == 0);
        }
        return None;
    }
    proof {
        assert(spec_skip_ws(suffix(v@, i as int))[0] == v@[j0 as int]);
    }
    if v[j0] == '}' {
        if first {
            proof {
                assert(suffix(v@, j0 as int).drop_first() =~= suffix(v@, j0 as int + 1));
            }
            return Some((f, j0 + 1));
        } else {
            return None;
        }
    }
    match parse_string(v, j0) {
        None => None,
        Some((key, j1)) => {
            let j2 = skip_ws(v, j1);
            if j2 == n {
                proof {
                    assert(spec_skip_ws(suffix(v@, j1 as int)).len() == 0);
                }
                return None;
            }
            proof {
                assert(spec_skip_ws(suffix(v@, j1 as int))[0] == v@[j2 as int]);
            }
            if v[j2] != ':' {
                return None;
            }
            proof {
                assert(suffix(v@, j2 as int).drop_first() =~= suffix(v@, j2 as int + 1));
            }
            let j3 = skip_ws(v, j2 + 1);
            match member_value_exec(v, &key, j3, f) {
                None => None,
                Some((f2, jv)) => {
                    let j4 = skip_ws(v, jv);
                    if j4 == n {
                        proof {
                            assert(spec_skip_ws(suffix(v@, jv as int)).len() == 0);
                        }
                        return None;
                    }
                    proof {
                        assert(spec_skip_ws(suffix(v@, jv as int))[0] == v@[j4 as int]);
                        assert(suffix(v@, j4 as int).drop_first() =~= suffix(v@, j4 as int + 1));
                    }
                    if v[j4] == '}' {
                        Some((f2, j4 + 1))
                    } else if v[j4] == ',' {
                        parse_members_exec(v, j4 + 1, f2, false)
                    } else {
                        None
                    }
                },
            }
        },
    }
}

/// Turns the collected fields into a message, by the presence rule of
/// the specification.
fn classify(f: FieldsAcc) -> (r: Result<PluginServerRpc, DecodeError>)
    ensures
        spec_classify(f@) matches Ok(m) ==> r matches Ok(pm) && pm@ == m,
        spec_classify(f@) matches Err(e) ==> r matches Err(e2) && e2 == e,
{
    let v20 = String::from_str("2.0");
    proof {
        reveal_strlit("2.0");
        assert(v20@ =~= version_text());
    }
    let version_ok = match &f.version {
        Some(s) => *s == v20,
        None => false,
    };
    if !version_ok {
        return Err(DecodeError::InvalidEnvelope);
    }
    let FieldsAcc { version: _, id, method, params, has_result, has_error } = f;
    match method {
        None => {
            if has_result || has_error {
                Err(DecodeError::UnsupportedResponse)
            } else {
                Err(DecodeError::InvalidEnvelope)
            }
        },
        Some(m) => {
            if has_result || has_error {
                return Err(DecodeError::InvalidEnvelope);
            }
            let p = match params {
                Some(q) => q,
                None => {
                    let np = String::from_str("null");
                    proof {
                        reveal_strlit("null");
                        assert(np@ =~= null_text());
                    }
                    np
                },
            };
            match id {
                None => Ok(PluginServerRpc::Notification { method: m, params: p }),
                Some(IdToken::Num(n)) => Ok(PluginServerRpc::Request { id: n, method: m, params: p }),
                Some(IdToken::Digits(t)) => {
                    let tc = str_to_chars(t.as_str());
                    proof {
                        assert(tc@.subrange(0, tc@.len() as int) =~= t@);
                    }
                    match digits_value(&tc, 0, tc.len()) {
                        Some(n) => Ok(PluginServerRpc::Request { id: n, method: m, params: p }),
                        None => Err(DecodeError::InvalidId),
                    }
                },
                Some(IdToken::Other) => Err(DecodeError::InvalidId),
            }
        },
    }
}

/// Decodes one line into a request or a notification, exactly as the
/// decoding rule of the specification has it; a line it refuses is
/// answered with the reason.
pub fn decode(line: &str) -> (r: Result<PluginServerRpc, DecodeError>)
    ensures
        spec_decode(line@) matches Ok(m) ==> r matches Ok(pm) && pm@ == m,
        spec_decode(line@) matches Err(e) ==> r matches Err(e2) && e2 == e,
{
    let v = str_to_chars(line);
    let n = v.len();
    proof {
        assert(suffix(v@, 0) =~= line@);
    }
    let i0 = skip_ws(&v, 0);
    if i0 == n {
        proof {
            assert(spec_skip_ws(line@).len() == 0);
        }
        return Err(DecodeError::InvalidJson);
    }
    proof {
        assert(spec_skip_ws(line@)[0] == v@[i0 as int]);
    }
    if v[i0] != '{' {
        return Err(DecodeError::InvalidJson);
    }
    proof {
        assert(suffix(v@, i0 as int).drop_first() =~= suffix(v@, i0 as int + 1));
    }
    let f0 = FieldsAcc {
        version: None,
        id: None,
        method: None,
        params: None,
        has_result: false,
        has_error: false,
    };
    proof {
        assert(f0@ == empty_fields());
    }
    match parse_members_exec(&v, i0 + 1, f0, true) {
        None => Err(DecodeError::InvalidJson),
        Some((f, j)) => {
            let j2 = skip_ws(&v, j);
            if j2 != n {
                proof {
                    assert(spec_skip_ws(suffix(v@, j as int)).len() != 0);
                }
                return Err(DecodeError::InvalidJson);
            }
            proof {
                assert(spec_skip_ws(suffix(v@, j as int)).len() == 0);
            }
            classify(f)
        },
    }
}

/// Encodes a request envelope carrying the given identifier, method
/// name and payload text.
pub fn encode_request(id: u64, method: &str, params: &str) -> (r: String)
    ensures
        r@ == spec_encode_request(id, method@, params@),
{
    let mut out = String::from_str("{\"jsonrpc\":\"2.0\",\"id\":");
    proof {
        reveal_strlit("{\"jsonrpc\":\"2.0\",\"id\":");
        assert(out@ =~= req_prefix());
    }
    crate::json::push_u64_digits(id, &mut out);
    out.append(",\"method\":\"");
    proof {
        reveal_strlit(",\"method\":\"");
        assert(out@ =~= req_prefix() + spec_u64_digits(id) + method_infix());
    }
    crate::json::push_escaped(method, &mut out);
    out.append("\",\"params\":");
    proof {
        reveal_strlit("\",\"params\":");
        assert(out@ =~= req_prefix() + spec_u64_digits(id) + method_infix() + spec_escape(method@)
            + params_infix());
    }
    out.append(params);
    out.append("}");
    proof {
        reveal_strlit("}");
        assert("}"@ =~= seq!['}']);
        assert(out@ =~= spec_encode_request(id, method@, params@));
    }
    out
}

/// Encodes a notification envelope carrying the given method name and
/// payload text.
pub fn encode_notification(method: &str, params: &str) -> (r: String)
    ensures
        r@ == spec_encode_notification(method@, params@),
{
    let mut out = String::from_str("{\"jsonrpc\":\"2.0\",\"method\":\"");
    proof {
        reveal_strlit("{\"jsonrpc\":\"2.0\",\"method\":\"");
        assert(out@ =~= notif_prefix());
    }
    crate::json::push_escaped(method, &mut out);
    out.append("\",\"params\":");
    proof {
        reveal_strlit("\",\"params\":");
        assert(out@ =~= notif_prefix() + spec_escape(method@) + params_infix());
    }
    out.append(params);
    out.append("}");
    proof {
        reveal_strlit("}");
        assert("}"@ =~= seq!['}']);
        assert(out@ =~= spec_encode_notification(method@, params@));
    }
    out
}

} // verus!
