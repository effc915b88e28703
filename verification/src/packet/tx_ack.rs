//! TX_ACK: the gateway's report on a PULL_RESP it was asked to transmit.
//! The JSON body may be absent (plain success); otherwise it holds
//! `txpk_ack` with either an `error` word or a `warn` word. The warn form
//! `TX_POWER` with a `value` is a qualified success: the frame went out at an
//! adjusted power.

use vstd::prelude::*;

verus! {

use vstd::string::StringSliceAdditionalSpecFns;
use crate::json::{find_key, obj_get, JsonError, JsonValue};
use crate::json::{dec_digits_of, dec_text_of_int, int_text_value, all_digits, dec_value};
use crate::packet::{
    id_byte, preamble_bytes, write_into, write_preamble, Error as PktError, Identifier,
    SerializablePacket,
};
use crate::types::MacAddress;

#[derive(Debug, Clone, Copy, PartialEq, Eq)]
pub struct Packet {
    pub random_token: u16,
    pub gateway_mac: MacAddress,
    pub data: Data,
}

/// The words a gateway may put in the `error` or `warn` field.
#[derive(Debug, Clone, Copy, PartialEq, Eq, Structural)]
pub enum ErrorField {
    NoError,
    TooLate,
    TooEarly,
    CollisionPacket,
    CollisionBeacon,
    TxFreq,
    TxPower,
    GpsUnlocked,
    SendLBT,
    SendFail,
}

/// The wire word of each field value.
pub open spec fn ef_bytes(ef: ErrorField) -> Seq<u8> {
    match ef {
        ErrorField::NoError => "NONE".spec_bytes(),
        ErrorField::TooLate => "TOO_LATE".spec_bytes(),
        ErrorField::TooEarly => "TOO_EARLY".spec_bytes(),
        ErrorField::CollisionPacket => "COLLISION_PACKET".spec_bytes(),
        ErrorField::CollisionBeacon => "COLLISION_BEACON".spec_bytes(),
        ErrorField::TxFreq => "TX_FREQ".spec_bytes(),
        ErrorField::TxPower => "TX_POWER".spec_bytes(),
        ErrorField::GpsUnlocked => "GPS_UNLOCKED".spec_bytes(),
        ErrorField::SendLBT => "SEND_LBT".spec_bytes(),
        ErrorField::SendFail => "SEND_FAIL".spec_bytes(),
    }
}

/// What a field word means.
pub open spec fn parse_ef(s: Seq<u8>) -> Option<ErrorField> {
    if s == ef_bytes(ErrorField::NoError) {
        Some(ErrorField::NoError)
    } else if s == ef_bytes(ErrorField::TooLate) {
        Some(ErrorField::TooLate)
    } else if s == ef_bytes(ErrorField::TooEarly) {
        Some(ErrorField::TooEarly)
    } else if s == ef_bytes(ErrorField::CollisionPacket) {
        Some(ErrorField::CollisionPacket)
    } else if s == ef_bytes(ErrorField::CollisionBeacon) {
        Some(ErrorField::CollisionBeacon)
    } else if s == ef_bytes(ErrorField::TxFreq) {
        Some(ErrorField::TxFreq)
    } else if s == ef_bytes(ErrorField::TxPower) {
        Some(ErrorField::TxPower)
    } else if s == ef_bytes(ErrorField::GpsUnlocked) {
        Some(ErrorField::GpsUnlocked)
    } else if s == ef_bytes(ErrorField::SendLBT) {
        Some(ErrorField::SendLBT)
    } else if s == ef_bytes(ErrorField::SendFail) {
        Some(ErrorField::SendFail)
    } else {
        None
    }
}

/// Reads a field word.
fn ef_of_bytes(s: &[u8]) -> (r: Option<ErrorField>)
    ensures
        r == parse_ef(s@),
{
    if crate::json::bytes_are(s, "NONE") {
        Some(ErrorField::NoError)
    } else if crate::json::bytes_are(s, "TOO_LATE") {
        Some(ErrorField::TooLate)
    } else if crate::json::bytes_are(s, "TOO_EARLY") {
        Some(ErrorField::TooEarly)
    } else if crate::json::bytes_are(s, "COLLISION_PACKET") {
        Some(ErrorField::CollisionPacket)
    } else if crate::json::bytes_are(s, "COLLISION_BEACON") {
        Some(ErrorField::CollisionBeacon)
    } else if crate::json::bytes_are(s, "TX_FREQ") {
        Some(ErrorField::TxFreq)
    } else if crate::json::bytes_are(s, "TX_POWER") {
        Some(ErrorField::TxPower)
    } else if crate::json::bytes_are(s, "GPS_UNLOCKED") {
        Some(ErrorField::GpsUnlocked)
    } else if crate::json::bytes_are(s, "SEND_LBT") {
        Some(ErrorField::SendLBT)
    } else if crate::json::bytes_are(s, "SEND_FAIL") {
        Some(ErrorField::SendFail)
    } else {
        None
    }
}

/// The outcome a TX_ACK reports to the caller who sent the downlink.
#[derive(Debug, Clone, Copy, PartialEq, Eq)]
pub enum Error {
    TooLate,
    TooEarly,
    CollisionPacket,
    CollisionBeacon,
    InvalidTransmitFrequency,
    InvalidTransmitPower(Option<i32>),
    /// Transmitted, but at this adjusted power (and concentrator time): a
    /// qualified success.
    AdjustedTransmitPower(Option<i32>, Option<u32>),
    GpsUnlocked,
    SendLBT,
    SendFail,
}

/// The `error`-or-`warn` part of the body.
#[derive(Debug, Clone, Copy, PartialEq, Eq)]
pub enum TxPkAckResult {
    Error { error: ErrorField },
    Warn { warn: ErrorField, value: Option<i32> },
}

/// The single member of the body object.
#[derive(Debug, Clone, Copy, PartialEq, Eq)]
pub struct TxPkAck {
    pub tmst: Option<u32>,
    pub result: TxPkAckResult,
}

/// A TX_ACK body.
#[derive(Debug, Clone, Copy, PartialEq, Eq)]
pub struct Data {
    pub txpk_ack: TxPkAck,
}

/// What a field word reports, given the optional concentrator time.
pub open spec fn ef_result(ef: ErrorField, tmst: Option<u32>) -> Result<Option<u32>, Error> {
    match ef {
        ErrorField::NoError => Ok(tmst),
        ErrorField::TooLate => Err(Error::TooLate),
        ErrorField::TooEarly => Err(Error::TooEarly),
        ErrorField::CollisionPacket => Err(Error::CollisionPacket),
        ErrorField::CollisionBeacon => Err(Error::CollisionBeacon),
        ErrorField::TxFreq => Err(Error::InvalidTransmitFrequency),
        ErrorField::TxPower => Err(Error::InvalidTransmitPower(None)),
        ErrorField::GpsUnlocked => Err(Error::GpsUnlocked),
        ErrorField::SendLBT => Err(Error::SendLBT),
        ErrorField::SendFail => Err(Error::SendFail),
    }
}

/// What a whole body reports: a `warn` of `TX_POWER` is the qualified
/// success; every other word reports as it would in `error`.
pub open spec fn spec_result(d: Data) -> Result<Option<u32>, Error> {
    match d.txpk_ack.result {
        TxPkAckResult::Error { error } => ef_result(error, d.txpk_ack.tmst),
        TxPkAckResult::Warn { warn, value } => if warn == ErrorField::TxPower {
            Err(Error::AdjustedTransmitPower(value, d.txpk_ack.tmst))
        } else {
            ef_result(warn, d.txpk_ack.tmst)
        },
    }
}

/// The body that reports a given outcome.
pub open spec fn spec_data_with_error(error: Error) -> Data {
    match error {
        Error::AdjustedTransmitPower(value, tmst) => Data {
            txpk_ack: TxPkAck {
                tmst,
                result: TxPkAckResult::Warn { warn: ErrorField::TxPower, value },
            },
        },
        _ => Data {
            txpk_ack: TxPkAck {
                tmst: None,
                result: TxPkAckResult::Error { error: spec_ef_of_error(error) },
            },
        },
    }
}

/// The field word that names an outcome.
pub open spec fn spec_ef_of_error(error: Error) -> ErrorField {
    match error {
        Error::TooLate => ErrorField::TooLate,
        Error::TooEarly => ErrorField::TooEarly,
        Error::CollisionPacket => ErrorField::CollisionPacket,
        Error::CollisionBeacon => ErrorField::CollisionBeacon,
        Error::InvalidTransmitFrequency => ErrorField::TxFreq,
        Error::InvalidTransmitPower(_) => ErrorField::TxPower,
        Error::AdjustedTransmitPower(_, _) => ErrorField::TxPower,
        Error::GpsUnlocked => ErrorField::GpsUnlocked,
        Error::SendLBT => ErrorField::SendLBT,
        Error::SendFail => ErrorField::SendFail,
    }
}

impl ErrorField {
    /// The outcome this word reports, given the optional concentrator time.
    pub fn to_result(&self, tmst: Option<u32>) -> (r: Result<Option<u32>, Error>)
        ensures
            r == ef_result(*self, tmst),
    {
        match self {
            ErrorField::TooEarly => Err(Error::TooEarly),
            ErrorField::CollisionPacket => Err(Error::CollisionPacket),
            ErrorField::CollisionBeacon => Err(Error::CollisionBeacon),
            ErrorField::TooLate => Err(Error::TooLate),
            ErrorField::TxFreq => Err(Error::InvalidTransmitFrequency),
            ErrorField::TxPower => Err(Error::InvalidTransmitPower(None)),
            ErrorField::GpsUnlocked => Err(Error::GpsUnlocked),
            ErrorField::SendLBT => Err(Error::SendLBT),
            ErrorField::SendFail => Err(Error::SendFail),
            ErrorField::NoError => Ok(tmst),
        }
    }
}

impl Data {
    /// The body that reports success with no detail: `error: NONE`.
    pub fn empty() -> (r: Data)
        ensures
            r == spec_default_data(),
    {
        Data {
            txpk_ack: TxPkAck {
                tmst: None,
                result: TxPkAckResult::Error { error: ErrorField::NoError },
            },
        }
    }

    /// The body that reports a given outcome.
    pub fn new_with_error(error: Error) -> (r: Data)
        ensures
            r == spec_data_with_error(error),
    {
        if let Error::AdjustedTransmitPower(value, tmst) = error {
            Data {
                txpk_ack: TxPkAck {
                    tmst,
                    result: TxPkAckResult::Warn { warn: ErrorField::TxPower, value },
                },
            }
        } else {
            Data {
                txpk_ack: TxPkAck {
                    tmst: None,
                    result: TxPkAckResult::Error { error: ef_of_error(error) },
                },
            }
        }
    }

    /// The outcome this body reports.
    pub fn get_result(&self) -> (r: Result<Option<u32>, Error>)
        ensures
            r == spec_result(*self),
    {
        match &self.txpk_ack.result {
            TxPkAckResult::Error { error } => error.to_result(self.txpk_ack.tmst),
            TxPkAckResult::Warn { warn, value } => {
                if let ErrorField::TxPower = warn {
                    Err(Error::AdjustedTransmitPower(*value, self.txpk_ack.tmst))
                } else {
                    warn.to_result(self.txpk_ack.tmst)
                }
            },
        }
    }
}

/// The body that reports success with no detail.
pub open spec fn spec_default_data() -> Data {
    Data {
        txpk_ack: TxPkAck { tmst: None, result: TxPkAckResult::Error { error: ErrorField::NoError } },
    }
}

impl Default for Data {
    fn default() -> (r: Data)
        ensures
            r == spec_default_data(),
    {
        Data::empty()
    }
}

/// The field word that names an outcome.
fn ef_of_error(error: Error) -> (r: ErrorField)
    ensures
        r == spec_ef_of_error(error),
{
    match error {
        Error::TooLate => ErrorField::TooLate,
        Error::TooEarly => ErrorField::TooEarly,
        Error::CollisionPacket => ErrorField::CollisionPacket,
        Error::CollisionBeacon => ErrorField::CollisionBeacon,
        Error::InvalidTransmitFrequency => ErrorField::TxFreq,
        Error::InvalidTransmitPower(_) => ErrorField::TxPower,
        Error::AdjustedTransmitPower(_, _) => ErrorField::TxPower,
        Error::GpsUnlocked => ErrorField::GpsUnlocked,
        Error::SendLBT => ErrorField::SendLBT,
        Error::SendFail => ErrorField::SendFail,
    }
}

/// Reporting an outcome and reading the report back gives that outcome,
/// with one wrinkle the wire format forces: a plain `error: TX_POWER`
/// report carries no power value, so a rejected power loses its value.
pub proof fn lemma_report_round_trip(error: Error)
    requires
        !(error matches Error::InvalidTransmitPower(Some(_))),
    ensures
        spec_result(spec_data_with_error(error)) == Err::<Option<u32>, Error>(error),
{
}

// ---------------------------------------------------------------------------
// The JSON body
// ---------------------------------------------------------------------------
/// The canonical body text of a report.
pub open spec fn body_bytes(d: Data) -> Seq<u8> {
    "{\"txpk_ack\":{".spec_bytes() + (match d.txpk_ack.tmst {
        Some(t) => "\"tmst\":".spec_bytes() + dec_digits_of(t as nat) + ",".spec_bytes(),
        None => Seq::<u8>::empty(),
    }) + (match d.txpk_ack.result {
        TxPkAckResult::Error { error } => "\"error\":\"".spec_bytes() + ef_bytes(error)
            + "\"".spec_bytes(),
        TxPkAckResult::Warn { warn, value } => "\"warn\":\"".spec_bytes() + ef_bytes(warn)
            + "\"".spec_bytes() + (match value {
            Some(v) => ",\"value\":".spec_bytes() + dec_text_of_int(v as int),
            None => Seq::<u8>::empty(),
        }),
    }) + "}}".spec_bytes()
}

/// Writes the body text of a report.
#[verifier::rlimit(100)]
pub fn push_body(d: &Data, out: &mut Vec<u8>)
    ensures
        final(out)@ == old(out)@ + body_bytes(*d),
{
    crate::json::push_str_bytes(out, "{\"txpk_ack\":{");
    if let Some(t) = d.txpk_ack.tmst {
        crate::json::push_str_bytes(out, "\"tmst\":");
        crate::json::push_u64_dec(out, t as u64);
        crate::json::push_str_bytes(out, ",");
    }
    match &d.txpk_ack.result {
        TxPkAckResult::Error { error } => {
            crate::json::push_str_bytes(out, "\"error\":\"");
            push_ef(*error, out);
            crate::json::push_str_bytes(out, "\"");
        },
        TxPkAckResult::Warn { warn, value } => {
            crate::json::push_str_bytes(out, "\"warn\":\"");
            push_ef(*warn, out);
            crate::json::push_str_bytes(out, "\"");
            if let Some(v) = value {
                crate::json::push_str_bytes(out, ",\"value\":");
                crate::json::push_i64_dec(out, *v as i64);
            }
        },
    }
    crate::json::push_str_bytes(out, "}}");
    proof {
        assert(out@ =~= old(out)@ + body_bytes(*d));
    }
}

/// Writes a field word.
fn push_ef(ef: ErrorField, out: &mut Vec<u8>)
    ensures
        final(out)@ == old(out)@ + ef_bytes(ef),
{
    let s: &str = match ef {
        ErrorField::NoError => "NONE",
        ErrorField::TooLate => "TOO_LATE",
        ErrorField::TooEarly => "TOO_EARLY",
        ErrorField::CollisionPacket => "COLLISION_PACKET",
        ErrorField::CollisionBeacon => "COLLISION_BEACON",
        ErrorField::TxFreq => "TX_FREQ",
        ErrorField::TxPower => "TX_POWER",
        ErrorField::GpsUnlocked => "GPS_UNLOCKED",
        ErrorField::SendLBT => "SEND_LBT",
        ErrorField::SendFail => "SEND_FAIL",
    };
    crate::json::push_str_bytes(out, s);
}

/// What an optional `tmst` member means: absent or null is none; a plain
/// number must fit 32 bits.
pub open spec fn spec_tmst_field(fields: Seq<(Vec<u8>, JsonValue)>) -> Result<
    Option<u32>,
    JsonError,
> {
    match find_key(fields, "tmst".spec_bytes()) {
        None => Ok(None),
        Some(JsonValue::Null) => Ok(None),
        Some(JsonValue::Number(n)) => if all_digits(n@) && n@.len() > 0 && dec_value(n@)
            <= u32::MAX {
            Ok(Some(dec_value(n@) as u32))
        } else {
            Err(JsonError::BadField)
        },
        Some(_) => Err(JsonError::BadField),
    }
}

/// What an optional `value` member means: absent or null is none; a plain
/// integer must fit 32 signed bits.
pub open spec fn spec_value_field(fields: Seq<(Vec<u8>, JsonValue)>) -> Result<
    Option<i32>,
    JsonError,
> {
    match find_key(fields, "value".spec_bytes()) {
        None => Ok(None),
        Some(JsonValue::Null) => Ok(None),
        Some(JsonValue::Number(n)) => match int_text_value(n@) {
            Some(v) => if i32::MIN <= v <= i32::MAX {
                Ok(Some(v as i32))
            } else {
                Err(JsonError::BadField)
            },
            None => Err(JsonError::BadField),
        },
        Some(_) => Err(JsonError::BadField),
    }
}

/// What the members of a `txpk_ack` object mean: an `error` word wins, then
/// a `warn` word with its optional `value`.
pub open spec fn spec_ack_from_fields(fields: Seq<(Vec<u8>, JsonValue)>) -> Result<
    TxPkAck,
    JsonError,
> {
    match spec_tmst_field(fields) {
        Err(e) => Err(e),
        Ok(tmst) => match find_key(fields, "error".spec_bytes()) {
            Some(JsonValue::Text(w)) => match parse_ef(w@) {
                Some(ef) => Ok(TxPkAck { tmst, result: TxPkAckResult::Error { error: ef } }),
                None => Err(JsonError::BadField),
            },
            Some(_) => Err(JsonError::BadField),
            None => match find_key(fields, "warn".spec_bytes()) {
                Some(JsonValue::Text(w)) => match parse_ef(w@) {
                    Some(ef) => match spec_value_field(fields) {
                        Ok(value) => Ok(
                            TxPkAck { tmst, result: TxPkAckResult::Warn { warn: ef, value } },
                        ),
                        Err(e) => Err(e),
                    },
                    None => Err(JsonError::BadField),
                },
                Some(_) => Err(JsonError::BadField),
                None => Err(JsonError::MissingField),
            },
        },
    }
}

/// What a whole body tree means: one object holding `txpk_ack`.
pub open spec fn spec_data_from_json(v: JsonValue) -> Result<Data, JsonError> {
    match v {
        JsonValue::Object(fields) => match find_key(fields@, "txpk_ack".spec_bytes()) {
            Some(JsonValue::Object(inner)) => match spec_ack_from_fields(inner@) {
                Ok(ack) => Ok(Data { txpk_ack: ack }),
                Err(e) => Err(e),
            },
            Some(_) => Err(JsonError::BadField),
            None => Err(JsonError::MissingField),
        },
        _ => Err(JsonError::ExpectedObject),
    }
}

/// Reads an optional 32-bit `tmst` member.
pub(crate) fn tmst_field(fields: &Vec<(Vec<u8>, JsonValue)>) -> (r: Result<Option<u32>, JsonError>)
    ensures
        r == spec_tmst_field(fields@),
{
    match obj_get(fields, "tmst") {
        None => Ok(None),
        Some(JsonValue::Null) => Ok(None),
        Some(JsonValue::Number(n)) => match n.as_u64() {
            Some(v) => if v <= u32::MAX as u64 {
                Ok(Some(v as u32))
            } else {
                Err(JsonError::BadField)
            },
            None => {
                proof {
                    if all_digits(n@) && n@.len() > 0 {
                        crate::json::lemma_dec_value_nonneg(n@);
                    }
                }
                Err(JsonError::BadField)
            },
        },
        Some(_) => Err(JsonError::BadField),
    }
}

/// Reads an optional 32-bit signed `value` member.
fn value_field(fields: &Vec<(Vec<u8>, JsonValue)>) -> (r: Result<Option<i32>, JsonError>)
    ensures
        r == spec_value_field(fields@),
{
    match obj_get(fields, "value") {
        None => Ok(None),
        Some(JsonValue::Null) => Ok(None),
        Some(JsonValue::Number(n)) => match n.as_i64() {
            Some(v) => if i32::MIN as i64 <= v && v <= i32::MAX as i64 {
                Ok(Some(v as i32))
            } else {
                Err(JsonError::BadField)
            },
            None => Err(JsonError::BadField),
        },
        Some(_) => Err(JsonError::BadField),
    }
}

impl Data {
    /// Reads a body tree.
    pub fn from_json(v: &JsonValue) -> (r: Result<Data, JsonError>)
        ensures
            r == spec_data_from_json(*v),
    {
        let fields = match v {
            JsonValue::Object(fields) => fields,
            _ => {
                return Err(JsonError::ExpectedObject);
            },
        };
        let inner = match obj_get(fields, "txpk_ack") {
            Some(JsonValue::Object(inner)) => inner,
            Some(_) => {
                return Err(JsonError::BadField);
            },
            None => {
                return Err(JsonError::MissingField);
            },
        };
        let tmst = match tmst_field(inner) {
            Ok(t) => t,
            Err(e) => {
                return Err(e);
            },
        };
        match obj_get(inner, "error") {
            Some(JsonValue::Text(w)) => match ef_of_bytes(w.as_slice()) {
                Some(ef) => Ok(
                    Data { txpk_ack: TxPkAck { tmst, result: TxPkAckResult::Error { error: ef } } },
                ),
                None => Err(JsonError::BadField),
            },
            Some(_) => Err(JsonError::BadField),
            None => match obj_get(inner, "warn") {
                Some(JsonValue::Text(w)) => match ef_of_bytes(w.as_slice()) {
                    Some(ef) => match value_field(inner) {
                        Ok(value) => Ok(
                            Data {
                                txpk_ack: TxPkAck {
                                    tmst,
                                    result: TxPkAckResult::Warn { warn: ef, value },
                                },
                            },
                        ),
                        Err(e) => Err(e),
                    },
                    None => Err(JsonError::BadField),
                },
                Some(_) => Err(JsonError::BadField),
                None => Err(JsonError::MissingField),
            },
        }
    }
}

impl Packet {
    /// The outcome this frame reports.
    pub fn get_result(&self) -> (r: Result<Option<u32>, Error>)
        ensures
            r == spec_result(self.data),
    {
        self.data.get_result()
    }
}

impl SerializablePacket for Packet {
    open spec fn wire_bytes(&self) -> Seq<u8> {
        preamble_bytes(self.random_token) + seq![id_byte(Identifier::TxAck)] + self.gateway_mac@
            + body_bytes(self.data)
    }

    fn serialize(&self, buffer: &mut Vec<u8>) -> (r: Result<u64, PktError>) {
        let mut frame: Vec<u8> = Vec::new();
        write_preamble(&mut frame, self.random_token);
        frame.push(Identifier::TxAck.to_byte());
        crate::json::push_bytes(&mut frame, self.gateway_mac.bytes());
        push_body(&self.data, &mut frame);
        proof {
            assert(frame@ =~= self.wire_bytes());
        }
        write_into(buffer, &frame)
    }
}

} // verus!
