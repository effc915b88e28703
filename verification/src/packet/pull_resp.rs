//! PULL_RESP: the server's request that the gateway transmit a frame. Four
//! header bytes (no gateway identifier), then a JSON body holding one
//! `txpk` transmit descriptor.

use vstd::prelude::*;

verus! {

use vstd::string::StringSliceAdditionalSpecFns;
use crate::base64::{b64_decode, b64_encode};
use crate::datarate::{
    codr_bytes, datr_bytes, modu_bytes, parse_codr, parse_datr, parse_modu, CodingRate, DataRate,
    Modulation,
};
use crate::json::{
    bool_bytes, dec_digits_of, find_key, obj_get, spec_opt_bool, spec_opt_u64, spec_req_bool,
    spec_req_num, spec_req_text, spec_req_u64, JsonError, JsonNum, JsonValue,
};
use crate::packet::{
    id_byte, preamble_bytes, tx_ack, write_into, write_preamble, Error as PktError, Identifier,
    SerializablePacket, Tmst,
};
use crate::types::MacAddress;

/// The transmit payload with the size the body declares for it. The two can
/// disagree on the wire; both are kept, as a forwarder would see them.
#[derive(Debug, Clone, PartialEq, Eq)]
pub struct PhyData {
    pub data: Vec<u8>,
    pub size: u64,
}

impl PhyData {
    /// Wraps a payload, declaring its true length.
    pub fn new(data: Vec<u8>) -> (r: PhyData)
        requires
            data@.len() <= u64::MAX,
        ensures
            r.data == data,
            r.size as int == data@.len(),
    {
        let size = data.len() as u64;
        PhyData { size, data }
    }

    /// Replaces the payload, keeping the declared length true.
    pub fn set(&mut self, data: Vec<u8>)
        requires
            data@.len() <= u64::MAX,
        ensures
            final(self).data == data,
            final(self).size as int == data@.len(),
    {
        self.size = data.len() as u64;
        self.data = data;
    }
}

/// A transmit descriptor: when to send, on what frequency and power, with
/// which radio parameters, and the payload itself.
#[derive(Debug, Clone, PartialEq, Eq)]
pub struct TxPk {
    /// Send at once, ignoring the timestamps.
    pub imme: bool,
    /// Send at this concentrator timestamp; the word `"immediate"` on the
    /// wire also lands here.
    pub tmst: Option<Tmst>,
    /// Send at this GPS time, in milliseconds.
    pub tmms: Option<u64>,
    /// Center frequency in MHz, kept as its exact wire text.
    pub freq: JsonNum,
    /// RF chain.
    pub rfch: u64,
    /// Transmit power in dBm.
    pub powe: u64,
    pub modu: Modulation,
    pub datr: DataRate,
    pub codr: Option<CodingRate>,
    /// FSK frequency deviation in Hz.
    pub fdev: Option<u64>,
    /// Polarization inversion.
    pub ipol: bool,
    /// Preamble length.
    pub prea: Option<u64>,
    pub data: PhyData,
    /// True disables the physical-layer CRC.
    pub ncrc: Option<bool>,
}

impl TxPk {
    /// Whether the gateway is to send at once: the flag, or a `tmst` of
    /// `"immediate"`.
    pub fn is_immediate(&self) -> (r: bool)
        ensures
            r == (self.imme || self.tmst == Some(Tmst::Immediate)),
    {
        self.imme || match self.tmst {
            Some(Tmst::Immediate) => true,
            _ => false,
        }
    }

    /// The concentrator timestamp to send at, if one was given.
    pub fn get_tmst(&self) -> (r: Option<u32>)
        ensures
            r == (match self.tmst {
                Some(Tmst::Tmst(t)) => Some(t),
                _ => None::<u32>,
            }),
    {
        if let Some(Tmst::Tmst(t)) = self.tmst {
            Some(t)
        } else {
            None
        }
    }
}

/// A PULL_RESP body: one transmit descriptor.
#[derive(Debug, Clone, PartialEq, Eq)]
pub struct Data {
    pub txpk: TxPk,
}

impl Data {
    pub fn from_txpk(txpk: TxPk) -> (r: Data)
        ensures
            r.txpk == txpk,
    {
        Data { txpk }
    }
}

/// A PULL_RESP frame.
#[derive(Debug, Clone, PartialEq, Eq)]
pub struct Packet {
    pub random_token: u16,
    pub data: Data,
}

impl Packet {
    /// The TX_ACK that reports plain success for this request, stamped for a
    /// gateway: it echoes the token.
    pub fn into_ack_for_gateway(self, gateway_mac: MacAddress) -> (r: tx_ack::Packet)
        ensures
            r.random_token == self.random_token,
            r.gateway_mac == gateway_mac,
            r.data == tx_ack::spec_default_data(),
    {
        tx_ack::Packet {
            gateway_mac,
            random_token: self.random_token,
            data: tx_ack::Data::empty(),
        }
    }

    /// The TX_ACK that reports a given outcome, stamped for a gateway.
    pub fn into_nack_with_error_for_gateway(
        self,
        error: tx_ack::Error,
        gateway_mac: MacAddress,
    ) -> (r: tx_ack::Packet)
        ensures
            r.random_token == self.random_token,
            r.gateway_mac == gateway_mac,
            r.data == tx_ack::spec_data_with_error(error),
    {
        tx_ack::Packet {
            gateway_mac,
            random_token: self.random_token,
            data: tx_ack::Data::new_with_error(error),
        }
    }

    /// As `into_nack_with_error_for_gateway`, with a zero gateway identifier.
    pub fn into_nack_with_error(self, e: tx_ack::Error) -> (r: tx_ack::Packet)
        ensures
            r.random_token == self.random_token,
            r.gateway_mac@ =~= Seq::new(8, |i: int| 0u8),
            r.data == tx_ack::spec_data_with_error(e),
    {
        self.into_nack_with_error_for_gateway(e, MacAddress::new(&[0u8; 8]))
    }

    /// As `into_ack_for_gateway`, with a zero gateway identifier.
    pub fn into_ack(self) -> (r: tx_ack::Packet)
        ensures
            r.random_token == self.random_token,
            r.gateway_mac@ =~= Seq::new(8, |i: int| 0u8),
            r.data == tx_ack::spec_default_data(),
    {
        self.into_ack_for_gateway(MacAddress::new(&[0u8; 8]))
    }
}

// ---------------------------------------------------------------------------
// The JSON body
// ---------------------------------------------------------------------------
/// The text the optional send-time member contributes: a timestamp, or the
/// word immediate.
pub open spec fn tmst_field_bytes(v: Option<Tmst>) -> Seq<u8> {
    match v {
        Some(Tmst::Immediate) => ",\"tmst\":\"immediate\"".spec_bytes(),
        Some(Tmst::Tmst(n)) => ",\"tmst\":".spec_bytes() + dec_digits_of(n as nat),
        None => Seq::<u8>::empty(),
    }
}

/// Writes the optional send-time member.
fn push_tmst_field(out: &mut Vec<u8>, v: &Option<Tmst>)
    ensures
        final(out)@ == old(out)@ + tmst_field_bytes(*v),
{
    match v {
        Some(Tmst::Immediate) => {
            crate::json::push_str_bytes(out, ",\"tmst\":\"immediate\"");
        },
        Some(Tmst::Tmst(n)) => {
            crate::json::push_str_bytes(out, ",\"tmst\":");
            crate::json::push_u64_dec(out, *n as u64);
        },
        None => {},
    }
}

/// The canonical text of a transmit descriptor.
pub open spec fn txpk_bytes(t: TxPk) -> Seq<u8> {
    "{\"imme\":".spec_bytes() + bool_bytes(t.imme) + tmst_field_bytes(t.tmst)
        + crate::json::opt_u64_field_bytes(",\"tmms\":".spec_bytes(), t.tmms)
        + ",\"freq\":".spec_bytes() + t.freq@ + ",\"rfch\":".spec_bytes() + dec_digits_of(
        t.rfch as nat,
    ) + ",\"powe\":".spec_bytes() + dec_digits_of(t.powe as nat) + ",\"modu\":\"".spec_bytes()
        + modu_bytes(t.modu) + "\",\"datr\":\"".spec_bytes() + datr_bytes(t.datr)
        + "\",\"codr\":\"".spec_bytes() + codr_bytes(t.codr) + "\",\"ipol\":".spec_bytes()
        + bool_bytes(t.ipol) + crate::json::opt_u64_field_bytes(
        ",\"prea\":".spec_bytes(),
        t.prea,
    ) + ",\"size\":".spec_bytes() + dec_digits_of(t.data.size as nat)
        + ",\"data\":\"".spec_bytes() + b64_encode(t.data.data@) + "\"".spec_bytes()
        + crate::json::opt_u64_field_bytes(",\"fdev\":".spec_bytes(), t.fdev)
        + crate::json::opt_bool_field_bytes(",\"ncrc\":".spec_bytes(), t.ncrc)
        + "}".spec_bytes()
}

/// The canonical body text.
pub open spec fn body_bytes(d: Data) -> Seq<u8> {
    "{\"txpk\":".spec_bytes() + txpk_bytes(d.txpk) + "}".spec_bytes()
}

/// Writes a transmit descriptor.
#[verifier::rlimit(100)]
pub fn push_txpk(t: &TxPk, out: &mut Vec<u8>)
    ensures
        final(out)@ == old(out)@ + txpk_bytes(*t),
{
    crate::json::push_str_bytes(out, "{\"imme\":");
    let ghost mut done: Seq<u8> = "{\"imme\":".spec_bytes();
    proof {
        assert(out@ == old(out)@ + done);
    }
    crate::json::push_bool(t.imme, out);
    proof {
        vstd::seq_lib::lemma_concat_associative(old(out)@, done, bool_bytes(t.imme));
        done = done + (bool_bytes(t.imme));
        assert(out@ == old(out)@ + done);
    }
    push_tmst_field(out, &t.tmst);
    proof {
        vstd::seq_lib::lemma_concat_associative(old(out)@, done, tmst_field_bytes(t.tmst));
        done = done + (tmst_field_bytes(t.tmst));
        assert(out@ == old(out)@ + done);
    }
    crate::json::push_opt_u64_field(out, ",\"tmms\":", &t.tmms);
    proof {
        vstd::seq_lib::lemma_concat_associative(old(out)@, done, crate::json::opt_u64_field_bytes(",\"tmms\":".spec_bytes(), t.tmms));
        done = done + (crate::json::opt_u64_field_bytes(",\"tmms\":".spec_bytes(), t.tmms));
        assert(out@ == old(out)@ + done);
    }
    crate::json::push_str_bytes(out, ",\"freq\":");
    proof {
        vstd::seq_lib::lemma_concat_associative(old(out)@, done, ",\"freq\":".spec_bytes());
        done = done + (",\"freq\":".spec_bytes());
        assert(out@ == old(out)@ + done);
    }
    crate::json::push_bytes(out, t.freq.text().as_slice());
    proof {
        vstd::seq_lib::lemma_concat_associative(old(out)@, done, t.freq@);
        done = done + (t.freq@);
        assert(out@ == old(out)@ + done);
    }
    crate::json::push_str_bytes(out, ",\"rfch\":");
    proof {
        vstd::seq_lib::lemma_concat_associative(old(out)@, done, ",\"rfch\":".spec_bytes());
        done = done + (",\"rfch\":".spec_bytes());
        assert(out@ == old(out)@ + done);
    }
    crate::json::push_u64_dec(out, t.rfch);
    proof {
        vstd::seq_lib::lemma_concat_associative(old(out)@, done, dec_digits_of(t.rfch as nat));
        done = done + (dec_digits_of(t.rfch as nat));
        assert(out@ == old(out)@ + done);
    }
    crate::json::push_str_bytes(out, ",\"powe\":");
    proof {
        vstd::seq_lib::lemma_concat_associative(old(out)@, done, ",\"powe\":".spec_bytes());
        done = done + (",\"powe\":".spec_bytes());
        assert(out@ == old(out)@ + done);
    }
    crate::json::push_u64_dec(out, t.powe);
    proof {
        vstd::seq_lib::lemma_concat_associative(old(out)@, done, dec_digits_of(t.powe as nat));
        done = done + (dec_digits_of(t.powe as nat));
        assert(out@ == old(out)@ + done);
    }
    crate::json::push_str_bytes(out, ",\"modu\":\"");
    proof {
        vstd::seq_lib::lemma_concat_associative(old(out)@, done, ",\"modu\":\"".spec_bytes());
        done = done + (",\"modu\":\"".spec_bytes());
        assert(out@ == old(out)@ + done);
    }
    crate::datarate::push_modu(&t.modu, out);
    proof {
        vstd::seq_lib::lemma_concat_associative(old(out)@, done, modu_bytes(t.modu));
        done = done + (modu_bytes(t.modu));
        assert(out@ == old(out)@ + done);
    }
    crate::json::push_str_bytes(out, "\",\"datr\":\"");
    proof {
        vstd::seq_lib::lemma_concat_associative(old(out)@, done, "\",\"datr\":\"".spec_bytes());
        done = done + ("\",\"datr\":\"".spec_bytes());
        assert(out@ == old(out)@ + done);
    }
    t.datr.push_text(out);
    proof {
        vstd::seq_lib::lemma_concat_associative(old(out)@, done, datr_bytes(t.datr));
        done = done + (datr_bytes(t.datr));
        assert(out@ == old(out)@ + done);
    }
    crate::json::push_str_bytes(out, "\",\"codr\":\"");
    proof {
        vstd::seq_lib::lemma_concat_associative(old(out)@, done, "\",\"codr\":\"".spec_bytes());
        done = done + ("\",\"codr\":\"".spec_bytes());
        assert(out@ == old(out)@ + done);
    }
    crate::datarate::push_codr(&t.codr, out);
    proof {
        vstd::seq_lib::lemma_concat_associative(old(out)@, done, codr_bytes(t.codr));
        done = done + (codr_bytes(t.codr));
        assert(out@ == old(out)@ + done);
    }
    crate::json::push_str_bytes(out, "\",\"ipol\":");
    proof {
        vstd::seq_lib::lemma_concat_associative(old(out)@, done, "\",\"ipol\":".spec_bytes());
        done = done + ("\",\"ipol\":".spec_bytes());
        assert(out@ == old(out)@ + done);
    }
    crate::json::push_bool(t.ipol, out);
    proof {
        vstd::seq_lib::lemma_concat_associative(old(out)@, done, bool_bytes(t.ipol));
        done = done + (bool_bytes(t.ipol));
        assert(out@ == old(out)@ + done);
    }
    crate::json::push_opt_u64_field(out, ",\"prea\":", &t.prea);
    proof {
        vstd::seq_lib::lemma_concat_associative(old(out)@, done, crate::json::opt_u64_field_bytes(",\"prea\":".spec_bytes(), t.prea));
        done = done + (crate::json::opt_u64_field_bytes(",\"prea\":".spec_bytes(), t.prea));
        assert(out@ == old(out)@ + done);
    }
    crate::json::push_str_bytes(out, ",\"size\":");
    proof {
        vstd::seq_lib::lemma_concat_associative(old(out)@, done, ",\"size\":".spec_bytes());
        done = done + (",\"size\":".spec_bytes());
        assert(out@ == old(out)@ + done);
    }
    crate::json::push_u64_dec(out, t.data.size);
    proof {
        vstd::seq_lib::lemma_concat_associative(old(out)@, done, dec_digits_of(t.data.size as nat));
        done = done + (dec_digits_of(t.data.size as nat));
        assert(out@ == old(out)@ + done);
    }
    crate::json::push_str_bytes(out, ",\"data\":\"");
    proof {
        vstd::seq_lib::lemma_concat_associative(old(out)@, done, ",\"data\":\"".spec_bytes());
        done = done + (",\"data\":\"".spec_bytes());
        assert(out@ == old(out)@ + done);
    }
    let encoded = crate::base64::encode(t.data.data.as_slice());
    crate::json::push_bytes(out, encoded.as_slice());
    proof {
        vstd::seq_lib::lemma_concat_associative(old(out)@, done, b64_encode(t.data.data@));
        done = done + (b64_encode(t.data.data@));
        assert(out@ == old(out)@ + done);
    }
    crate::json::push_str_bytes(out, "\"");
    proof {
        vstd::seq_lib::lemma_concat_associative(old(out)@, done, "\"".spec_bytes());
        done = done + ("\"".spec_bytes());
        assert(out@ == old(out)@ + done);
    }
    crate::json::push_opt_u64_field(out, ",\"fdev\":", &t.fdev);
    proof {
        vstd::seq_lib::lemma_concat_associative(old(out)@, done, crate::json::opt_u64_field_bytes(",\"fdev\":".spec_bytes(), t.fdev));
        done = done + (crate::json::opt_u64_field_bytes(",\"fdev\":".spec_bytes(), t.fdev));
        assert(out@ == old(out)@ + done);
    }
    crate::json::push_opt_bool_field(out, ",\"ncrc\":", &t.ncrc);
    proof {
        vstd::seq_lib::lemma_concat_associative(old(out)@, done, crate::json::opt_bool_field_bytes(",\"ncrc\":".spec_bytes(), t.ncrc));
        done = done + (crate::json::opt_bool_field_bytes(",\"ncrc\":".spec_bytes(), t.ncrc));
        assert(out@ == old(out)@ + done);
    }
    crate::json::push_str_bytes(out, "}");
    proof {
        vstd::seq_lib::lemma_concat_associative(old(out)@, done, "}".spec_bytes());
        done = done + ("}".spec_bytes());
        assert(out@ == old(out)@ + done);
    }
    proof {
        assert(done == txpk_bytes(*t));
    }
}

/// What a `tmst` member of a transmit descriptor means: a number below 2^32,
/// or the word `"immediate"`.
pub open spec fn spec_txpk_tmst(fields: Seq<(Vec<u8>, JsonValue)>) -> Result<
    Option<Tmst>,
    JsonError,
> {
    match find_key(fields, "tmst".spec_bytes()) {
        None => Ok(None),
        Some(JsonValue::Null) => Ok(None),
        Some(JsonValue::Number(n)) => if crate::json::all_digits(n@) && n@.len() > 0
            && crate::json::dec_value(n@) <= u32::MAX {
            Ok(Some(Tmst::Tmst(crate::json::dec_value(n@) as u32)))
        } else {
            Err(JsonError::BadField)
        },
        Some(JsonValue::Text(w)) => if w@ == "immediate".spec_bytes() {
            Ok(Some(Tmst::Immediate))
        } else {
            Err(JsonError::BadField)
        },
        Some(_) => Err(JsonError::BadField),
    }
}

/// Reads the `tmst` member of a transmit descriptor.
fn txpk_tmst(fields: &Vec<(Vec<u8>, JsonValue)>) -> (r: Result<Option<Tmst>, JsonError>)
    ensures
        r == spec_txpk_tmst(fields@),
{
    match obj_get(fields, "tmst") {
        None => Ok(None),
        Some(JsonValue::Null) => Ok(None),
        Some(JsonValue::Number(n)) => match n.as_u64() {
            Some(v) => if v <= u32::MAX as u64 {
                Ok(Some(Tmst::Tmst(v as u32)))
            } else {
                Err(JsonError::BadField)
            },
            None => {
                proof {
                    if crate::json::all_digits(n@) && n@.len() > 0 {
                        crate::json::lemma_dec_value_nonneg(n@);
                    }
                }
                Err(JsonError::BadField)
            },
        },
        Some(JsonValue::Text(w)) => {
            if crate::json::bytes_are(w.as_slice(), "immediate") {
                Ok(Some(Tmst::Immediate))
            } else {
                Err(JsonError::BadField)
            }
        },
        Some(_) => Err(JsonError::BadField),
    }
}

/// Whether an object's members form a transmit descriptor.
pub open spec fn txpk_ok(fields: Seq<(Vec<u8>, JsonValue)>) -> bool {
    &&& spec_req_bool(fields, "imme".spec_bytes()) is Ok
    &&& spec_txpk_tmst(fields) is Ok
    &&& spec_opt_u64(fields, "tmms".spec_bytes()) is Ok
    &&& spec_req_num(fields, "freq".spec_bytes()) is Ok
    &&& spec_req_u64(fields, "rfch".spec_bytes()) is Ok
    &&& spec_req_u64(fields, "powe".spec_bytes()) is Ok
    &&& (spec_req_text(fields, "modu".spec_bytes()) matches Ok(m) && parse_modu(m) is Some)
    &&& (spec_req_text(fields, "datr".spec_bytes()) matches Ok(d) && parse_datr(d) is Ok)
    &&& (spec_req_text(fields, "codr".spec_bytes()) matches Ok(c) && parse_codr(c) is Some)
    &&& spec_opt_u64(fields, "fdev".spec_bytes()) is Ok
    &&& spec_req_bool(fields, "ipol".spec_bytes()) is Ok
    &&& spec_opt_u64(fields, "prea".spec_bytes()) is Ok
    &&& spec_req_u64(fields, "size".spec_bytes()) is Ok
    &&& (spec_req_text(fields, "data".spec_bytes()) matches Ok(dt) && b64_decode(dt) is Some)
    &&& spec_opt_bool(fields, "ncrc".spec_bytes()) is Ok
}

/// How a transmit descriptor relates to the object it was read from: every
/// field holds exactly what the matching member says.
pub open spec fn txpk_matches(t: TxPk, fields: Seq<(Vec<u8>, JsonValue)>) -> bool {
    &&& spec_req_bool(fields, "imme".spec_bytes()) == Ok::<bool, JsonError>(t.imme)
    &&& spec_txpk_tmst(fields) == Ok::<Option<Tmst>, JsonError>(t.tmst)
    &&& spec_opt_u64(fields, "tmms".spec_bytes()) == Ok::<Option<u64>, JsonError>(t.tmms)
    &&& spec_req_num(fields, "freq".spec_bytes()) == Ok::<Seq<u8>, JsonError>(t.freq@)
    &&& spec_req_u64(fields, "rfch".spec_bytes()) == Ok::<u64, JsonError>(t.rfch)
    &&& spec_req_u64(fields, "powe".spec_bytes()) == Ok::<u64, JsonError>(t.powe)
    &&& (spec_req_text(fields, "modu".spec_bytes()) matches Ok(m) && parse_modu(m) == Some(t.modu))
    &&& (spec_req_text(fields, "datr".spec_bytes()) matches Ok(d) && parse_datr(d) == Ok::<
        DataRate,
        crate::datarate::ParseError,
    >(t.datr))
    &&& (spec_req_text(fields, "codr".spec_bytes()) matches Ok(c) && parse_codr(c) == Some(t.codr))
    &&& spec_opt_u64(fields, "fdev".spec_bytes()) == Ok::<Option<u64>, JsonError>(t.fdev)
    &&& spec_req_bool(fields, "ipol".spec_bytes()) == Ok::<bool, JsonError>(t.ipol)
    &&& spec_opt_u64(fields, "prea".spec_bytes()) == Ok::<Option<u64>, JsonError>(t.prea)
    &&& spec_req_u64(fields, "size".spec_bytes()) == Ok::<u64, JsonError>(t.data.size)
    &&& (spec_req_text(fields, "data".spec_bytes()) matches Ok(dt) && b64_decode(dt) == Some(
        t.data.data@,
    ))
    &&& spec_opt_bool(fields, "ncrc".spec_bytes()) == Ok::<Option<bool>, JsonError>(t.ncrc)
}

/// Reads a transmit descriptor out of an object's members.
pub fn txpk_from_fields(fields: &Vec<(Vec<u8>, JsonValue)>) -> (r: Result<TxPk, JsonError>)
    ensures
        (r is Ok) == txpk_ok(fields@),
        r matches Ok(t) ==> txpk_matches(t, fields@),
        r matches Err(e) ==> e != JsonError::Utf8,
{
    let imme = match crate::json::req_bool(fields, "imme") {
        Ok(v) => v,
        Err(e) => { return Err(e); },
    };
    let tmst = match txpk_tmst(fields) {
        Ok(v) => v,
        Err(e) => { return Err(e); },
    };
    let tmms = match crate::json::opt_u64(fields, "tmms") {
        Ok(v) => v,
        Err(e) => { return Err(e); },
    };
    let freq = match crate::json::req_num(fields, "freq") {
        Ok(v) => v,
        Err(e) => { return Err(e); },
    };
    let rfch = match crate::json::req_u64(fields, "rfch") {
        Ok(v) => v,
        Err(e) => { return Err(e); },
    };
    let powe = match crate::json::req_u64(fields, "powe") {
        Ok(v) => v,
        Err(e) => { return Err(e); },
    };
    let modu_text = match crate::json::req_text(fields, "modu") {
        Ok(v) => v,
        Err(e) => { return Err(e); },
    };
    let modu = match crate::datarate::modu_of_bytes(modu_text.as_slice()) {
        Some(m) => m,
        None => { return Err(JsonError::BadField); },
    };
    let datr_text = match crate::json::req_text(fields, "datr") {
        Ok(v) => v,
        Err(e) => { return Err(e); },
    };
    let datr = match DataRate::from_bytes(datr_text.as_slice()) {
        Ok(d) => d,
        Err(_) => { return Err(JsonError::BadField); },
    };
    let codr_text = match crate::json::req_text(fields, "codr") {
        Ok(v) => v,
        Err(e) => { return Err(e); },
    };
    let codr = match crate::datarate::codr_of_bytes(codr_text.as_slice()) {
        Some(c) => c,
        None => { return Err(JsonError::BadField); },
    };
    let fdev = match crate::json::opt_u64(fields, "fdev") {
        Ok(v) => v,
        Err(e) => { return Err(e); },
    };
    let ipol = match crate::json::req_bool(fields, "ipol") {
        Ok(v) => v,
        Err(e) => { return Err(e); },
    };
    let prea = match crate::json::opt_u64(fields, "prea") {
        Ok(v) => v,
        Err(e) => { return Err(e); },
    };
    let size = match crate::json::req_u64(fields, "size") {
        Ok(v) => v,
        Err(e) => { return Err(e); },
    };
    let data_text = match crate::json::req_text(fields, "data") {
        Ok(v) => v,
        Err(e) => { return Err(e); },
    };
    let payload = match crate::base64::decode(data_text.as_slice()) {
        Some(p) => p,
        None => { return Err(JsonError::BadField); },
    };
    let ncrc = match crate::json::opt_bool(fields, "ncrc") {
        Ok(v) => v,
        Err(e) => { return Err(e); },
    };
    Ok(
        TxPk {
            imme,
            tmst,
            tmms,
            freq,
            rfch,
            powe,
            modu,
            datr,
            codr,
            fdev,
            ipol,
            prea,
            data: PhyData { data: payload, size },
            ncrc,
        },
    )
}

/// Whether a body tree holds a transmit descriptor under `txpk`.
#[verifier::opaque]
pub open spec fn data_ok(v: JsonValue) -> bool {
    v matches JsonValue::Object(fields) && find_key(fields@, "txpk".spec_bytes()) matches Some(
        JsonValue::Object(inner),
    ) && txpk_ok(inner@)
}

/// How a body relates to the tree it was read from.
#[verifier::opaque]
pub open spec fn data_matches(d: Data, v: JsonValue) -> bool {
    v matches JsonValue::Object(fields) && find_key(fields@, "txpk".spec_bytes()) matches Some(
        JsonValue::Object(inner),
    ) && txpk_matches(d.txpk, inner@)
}

impl Data {
    /// Reads a body tree.
    pub fn from_json(v: &JsonValue) -> (r: Result<Data, JsonError>)
        ensures
            (r is Ok) == data_ok(*v),
            r matches Ok(d) ==> data_matches(d, *v),
            r matches Err(e) ==> e != JsonError::Utf8,
    {
        proof {
            reveal(data_ok);
            reveal(data_matches);
        }
        let fields = match v {
            JsonValue::Object(fields) => fields,
            _ => { return Err(JsonError::ExpectedObject); },
        };
        let inner = match obj_get(fields, "txpk") {
            Some(JsonValue::Object(inner)) => inner,
            Some(_) => { return Err(JsonError::BadField); },
            None => { return Err(JsonError::MissingField); },
        };
        match txpk_from_fields(inner) {
            Ok(txpk) => Ok(Data { txpk }),
            Err(e) => Err(e),
        }
    }
}

impl SerializablePacket for Packet {
    open spec fn wire_bytes(&self) -> Seq<u8> {
        preamble_bytes(self.random_token) + seq![id_byte(Identifier::PullResp)] + body_bytes(
            self.data,
        )
    }

    fn serialize(&self, buffer: &mut Vec<u8>) -> (r: Result<u64, PktError>) {
        let mut frame: Vec<u8> = Vec::new();
        write_preamble(&mut frame, self.random_token);
        frame.push(Identifier::PullResp.to_byte());
        crate::json::push_str_bytes(&mut frame, "{\"txpk\":");
        push_txpk(&self.data.txpk, &mut frame);
        crate::json::push_str_bytes(&mut frame, "}");
        proof {
            assert(frame@ =~= self.wire_bytes());
        }
        write_into(buffer, &frame)
    }
}

} // verus!
