//! Typed decoding of the positional notification call payload into a
//! structured record plus the hint dictionary, and the capture timestamp.

use vstd::prelude::*;
use crate::value::{dict_of, elems_of, text_of, Value};

verus! {

/// The five persisted fields of a record or a parsed log entry, as
/// mathematical values.
pub struct FieldsV {
    pub timestamp: int,
    pub app_name: Seq<char>,
    pub app_icon: Seq<char>,
    pub summary: Seq<char>,
    pub body: Seq<char>,
}

/// One captured notification, before and after icon substitution.
#[derive(Debug)]
pub struct NotificationRecord {
    /// Seconds since the epoch, stamped at capture time.
    pub timestamp: i64,
    /// Sending application; must be non-empty to be appended.
    pub app_name: String,
    /// Icon-theme name, absolute file path, or empty; rewritten to the
    /// produced icon file's path when a bitmap hint was reconstructed.
    pub app_icon: String,
    /// Headline; must be non-empty to be appended.
    pub summary: String,
    /// Optional longer text.
    pub body: String,
}

impl View for NotificationRecord {
    type V = FieldsV;

    open spec fn view(&self) -> FieldsV {
        FieldsV {
            timestamp: self.timestamp as int,
            app_name: self.app_name@,
            app_icon: self.app_icon@,
            summary: self.summary@,
            body: self.body@,
        }
    }
}

/// Why a payload was not decoded.
#[derive(Clone, Copy, PartialEq, Eq, Structural, Debug)]
pub enum DecodeError {
    /// The payload's arity or element types do not match the expected
    /// 8-field positional schema.
    Shape,
}

/// The fixed 8-element positional schema of a notification call payload:
/// `(app_name, replaces_id, app_icon, summary, body, actions, hints,
/// expire_timeout)`.
pub open spec fn payload_shape_ok(p: Seq<Value>) -> bool {
    &&& p.len() == 8
    &&& p[0] is Text
    &&& p[1] is U32
    &&& p[2] is Text
    &&& p[3] is Text
    &&& p[4] is Text
    &&& p[5] is Array
    &&& (forall|i: int| 0 <= i < elems_of(p[5]).len() ==> elems_of(p[5])[i] is Text)
    &&& p[6] is Dict
    &&& p[7] is I32
}

/// The hint dictionary of a payload of the right shape.
pub open spec fn payload_hints(p: Seq<Value>) -> Seq<(String, Value)> {
    dict_of(p[6])
}

/// Decodes a payload against the 8-field schema, stamping the record with
/// the given capture time. Rejects any other arity or element typing with
/// `DecodeError::Shape`; sender-supplied times are never trusted.
#[verifier::loop_isolation(false)]
pub fn decode_payload(payload: Vec<Value>, timestamp: i64) -> (r: Result<
    (NotificationRecord, Vec<(String, Value)>),
    DecodeError,
>)
    ensures
        r is Ok <==> payload_shape_ok(payload@),
        r matches Ok(t) ==> {
            &&& t.0@.timestamp == timestamp as int
            &&& t.0@.app_name == text_of(payload@[0])
            &&& t.0@.app_icon == text_of(payload@[2])
            &&& t.0@.summary == text_of(payload@[3])
            &&& t.0@.body == text_of(payload@[4])
            &&& t.1@ == payload_hints(payload@)
        },
        r matches Err(e) ==> e == DecodeError::Shape,
{
    let ghost p = payload@;
    let mut payload = payload;
    if payload.len() != 8 {
        return Err(DecodeError::Shape);
    }
    let v7 = payload.pop().unwrap();
    let v6 = payload.pop().unwrap();
    let v5 = payload.pop().unwrap();
    let v4 = payload.pop().unwrap();
    let v3 = payload.pop().unwrap();
    let v2 = payload.pop().unwrap();
    let v1 = payload.pop().unwrap();
    let v0 = payload.pop().unwrap();
    proof {
        assert(v0 == p[0] && v1 == p[1] && v2 == p[2] && v3 == p[3] && v4 == p[4] && v5 == p[5]
            && v6 == p[6] && v7 == p[7]);
    }
    let app_name = match v0 {
        Value::Text(s) => s,
        _ => {
            return Err(DecodeError::Shape);
        },
    };
    match v1 {
        Value::U32(_) => {},
        _ => {
            return Err(DecodeError::Shape);
        },
    }
    let app_icon = match v2 {
        Value::Text(s) => s,
        _ => {
            return Err(DecodeError::Shape);
        },
    };
    let summary = match v3 {
        Value::Text(s) => s,
        _ => {
            return Err(DecodeError::Shape);
        },
    };
    let body = match v4 {
        Value::Text(s) => s,
        _ => {
            return Err(DecodeError::Shape);
        },
    };
    let actions = match v5 {
        Value::Array(a) => a,
        _ => {
            return Err(DecodeError::Shape);
        },
    };
    proof {
        assert(p[5] is Array && elems_of(p[5]) == actions@);
    }
    let mut i: usize = 0;
    while i < actions.len()
        invariant
            i <= actions@.len(),
            p[5] is Array,
            elems_of(p[5]) == actions@,
            forall|k: int| 0 <= k < i ==> actions@[k] is Text,
        decreases actions@.len() - i,
    {
        match &actions[i] {
            Value::Text(_) => {},
            _ => {
                proof {
                    assert(!(elems_of(p[5])[i as int] is Text));
                    assert(!payload_shape_ok(p));
                }
                return Err(DecodeError::Shape);
            },
        }
        i = i + 1;
    }
    let hints = match v6 {
        Value::Dict(h) => h,
        _ => {
            return Err(DecodeError::Shape);
        },
    };
    match v7 {
        Value::I32(_) => {},
        _ => {
            return Err(DecodeError::Shape);
        },
    }
    let rec = NotificationRecord { timestamp, app_name, app_icon, summary, body };
    Ok((rec, hints))
}

/// Relies on `chrono::Local::now` and `chrono::DateTime::timestamp`: the
/// current wall-clock time as whole seconds since the epoch. Nothing can
/// be promised of a clock reading.
#[verifier::external_body]
pub fn now_unix() -> i64 {
    chrono::Local::now().timestamp()
}

/// Decodes a payload, stamping the record with the wall-clock capture
/// time. The timestamp depends on the clock; everything else is pinned.
pub fn decode_now(payload: Vec<Value>) -> (r: Result<
    (NotificationRecord, Vec<(String, Value)>),
    DecodeError,
>)
    ensures
        r is Ok <==> payload_shape_ok(payload@),
        r matches Ok(t) ==> {
            &&& t.0@.app_name == text_of(payload@[0])
            &&& t.0@.app_icon == text_of(payload@[2])
            &&& t.0@.summary == text_of(payload@[3])
            &&& t.0@.body == text_of(payload@[4])
            &&& t.1@ == payload_hints(payload@)
        },
        r matches Err(e) ==> e == DecodeError::Shape,
{
    let ts = now_unix();
    decode_payload(payload, ts)
}

} // verus!
