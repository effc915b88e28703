//! PUSH_DATA: the gateway's uplink carrier. Twelve header bytes, then a JSON
//! body holding received-frame descriptors (`rxpk`) and/or gateway telemetry
//! (`stat`).

use vstd::prelude::*;

verus! {

use vstd::string::StringSliceAdditionalSpecFns;
use crate::base64::{b64_decode, b64_encode};
use crate::datarate::{
    codr_bytes, datr_bytes, modu_bytes, parse_codr, parse_datr, parse_modu, CodingRate, DataRate,
    Modulation,
};
use crate::json::{
    dec_digits_of, dec_text_of_int, find_key, obj_get, spec_opt_bool, spec_opt_i32, spec_opt_i64,
    spec_opt_num, spec_opt_text, spec_opt_u64, spec_req_i32, spec_req_num, spec_req_text,
    spec_req_u64, JsonError, JsonNum, JsonValue,
};
use crate::packet::{
    id_byte, preamble_bytes, push_ack, write_into, write_preamble, Error as PktError, Identifier,
    SerializablePacket,
};
use crate::types::MacAddress;

/// The CRC status of a received frame: `1` on the wire for a good CRC, `-1`
/// for a bad one, `0` when the frame carried none.
#[derive(Debug, Clone, Copy, PartialEq, Eq, Structural)]
pub enum CRC {
    Disabled,
    OK,
    Fail,
}

/// The wire digit of a CRC status.
pub open spec fn crc_bytes(c: CRC) -> Seq<u8> {
    match c {
        CRC::Disabled => "0".spec_bytes(),
        CRC::OK => "1".spec_bytes(),
        CRC::Fail => "-1".spec_bytes(),
    }
}

/// Writes the wire digit of a CRC status.
fn push_crc(c: CRC, out: &mut Vec<u8>)
    ensures
        final(out)@ == old(out)@ + crc_bytes(c),
{
    let s: &str = match c {
        CRC::Disabled => "0",
        CRC::OK => "1",
        CRC::Fail => "-1",
    };
    crate::json::push_str_bytes(out, s);
}

/// A required CRC-status member: the integer 1, 0 or -1.
pub open spec fn spec_req_crc(fields: Seq<(Vec<u8>, JsonValue)>, key: Seq<u8>) -> Result<
    CRC,
    JsonError,
> {
    match spec_req_i32(fields, key) {
        Err(e) => Err(e),
        Ok(v) => if v == 1 {
            Ok(CRC::OK)
        } else if v == 0 {
            Ok(CRC::Disabled)
        } else if v == -1 {
            Ok(CRC::Fail)
        } else {
            Err(JsonError::BadField)
        },
    }
}

/// Reads a required CRC-status member.
fn req_crc(fields: &Vec<(Vec<u8>, JsonValue)>, key: &str) -> (r: Result<CRC, JsonError>)
    ensures
        r == spec_req_crc(fields@, key.spec_bytes()),
{
    match crate::json::req_i32(fields, key) {
        Err(e) => Err(e),
        Ok(v) => if v == 1 {
            Ok(CRC::OK)
        } else if v == 0 {
            Ok(CRC::Disabled)
        } else if v == -1 {
            Ok(CRC::Fail)
        } else {
            Err(JsonError::BadField)
        },
    }
}

/// A required timestamp member: an unsigned integer that fits 32 bits.
pub open spec fn spec_req_u32(fields: Seq<(Vec<u8>, JsonValue)>, key: Seq<u8>) -> Result<
    u32,
    JsonError,
> {
    match spec_req_u64(fields, key) {
        Err(e) => Err(e),
        Ok(v) => if v <= u32::MAX {
            Ok(v as u32)
        } else {
            Err(JsonError::BadField)
        },
    }
}

/// Reads a required 32-bit unsigned member.
fn req_u32(fields: &Vec<(Vec<u8>, JsonValue)>, key: &str) -> (r: Result<u32, JsonError>)
    ensures
        r == spec_req_u32(fields@, key.spec_bytes()),
{
    match crate::json::req_u64(fields, key) {
        Err(e) => Err(e),
        Ok(v) => if v <= u32::MAX as u64 {
            Ok(v as u32)
        } else {
            Err(JsonError::BadField)
        },
    }
}

/// An optional one-byte member.
pub open spec fn spec_opt_u8(fields: Seq<(Vec<u8>, JsonValue)>, key: Seq<u8>) -> Result<
    Option<u8>,
    JsonError,
> {
    match spec_opt_u64(fields, key) {
        Err(e) => Err(e),
        Ok(None) => Ok(None),
        Ok(Some(v)) => if v <= u8::MAX {
            Ok(Some(v as u8))
        } else {
            Err(JsonError::BadField)
        },
    }
}

/// Reads an optional one-byte member.
fn opt_u8(fields: &Vec<(Vec<u8>, JsonValue)>, key: &str) -> (r: Result<Option<u8>, JsonError>)
    ensures
        r == spec_opt_u8(fields@, key.spec_bytes()),
{
    match crate::json::opt_u64(fields, key) {
        Err(e) => Err(e),
        Ok(None) => Ok(None),
        Ok(Some(v)) => if v <= u8::MAX as u64 {
            Ok(Some(v as u8))
        } else {
            Err(JsonError::BadField)
        },
    }
}

/// One antenna's view of a received frame, inside a `rsig` array.
#[derive(Debug, Clone, PartialEq, Eq)]
pub struct RSig {
    pub ant: u64,
    pub chan: u64,
    pub rssic: i32,
    pub rssis: Option<i32>,
    /// SNR in dB, kept as its exact wire text.
    pub lsnr: JsonNum,
    pub etime: Option<Vec<u8>>,
    pub foff: Option<i64>,
    pub ftstat: Option<u8>,
    pub ftver: Option<u64>,
    pub ftdelta: Option<i64>,
}

/// A received-frame descriptor in the flat shape.
#[derive(Debug, Clone, PartialEq, Eq)]
pub struct RxPkV1 {
    pub chan: u64,
    pub codr: Option<CodingRate>,
    pub data: Vec<u8>,
    pub datr: DataRate,
    /// Center frequency in MHz, kept as its exact wire text.
    pub freq: JsonNum,
    /// SNR in dB, kept as its exact wire text.
    pub lsnr: JsonNum,
    pub modu: Modulation,
    pub rfch: u64,
    pub rssi: i32,
    pub rssis: Option<i32>,
    pub size: u64,
    pub stat: CRC,
    pub tmst: u32,
    pub time: Option<Vec<u8>>,
}

/// A received-frame descriptor in the per-antenna shape.
#[derive(Debug, Clone, PartialEq, Eq)]
pub struct RxPkV2 {
    pub aesk: u64,
    pub brd: u64,
    pub codr: Option<CodingRate>,
    pub data: Vec<u8>,
    pub datr: DataRate,
    /// Center frequency in MHz, kept as its exact wire text.
    pub freq: JsonNum,
    pub jver: u64,
    /// The modulation word, kept verbatim in this shape.
    pub modu: Vec<u8>,
    pub rsig: Vec<RSig>,
    pub size: u64,
    pub stat: CRC,
    pub tmst: u32,
    pub delayed: Option<bool>,
    pub tmms: Option<u64>,
    pub time: Option<Vec<u8>>,
}

/// A received-frame descriptor, in whichever shape the forwarder sent.
#[derive(Debug, Clone, PartialEq, Eq)]
pub enum RxPk {
    V1(RxPkV1),
    V2(RxPkV2),
}

/// Gateway telemetry.
#[derive(Debug, Clone, PartialEq, Eq)]
pub struct Stat {
    pub time: Vec<u8>,
    pub lati: Option<JsonNum>,
    pub long: Option<JsonNum>,
    pub alti: Option<i64>,
    pub rxnb: u64,
    pub rxok: u64,
    pub rxfw: u64,
    /// May be null on the wire when no upstream datagram was seen yet.
    pub ackr: Option<JsonNum>,
    pub dwnb: u64,
    pub txnb: u64,
    pub temp: Option<JsonNum>,
}

/// A PUSH_DATA body: any received frames, and any telemetry.
#[derive(Debug, Clone, PartialEq, Eq)]
pub struct Data {
    pub rxpk: Option<Vec<RxPk>>,
    pub stat: Option<Stat>,
}

/// A PUSH_DATA frame.
#[derive(Debug, Clone, PartialEq, Eq)]
pub struct Packet {
    pub random_token: u16,
    pub gateway_mac: MacAddress,
    pub data: Data,
}

// ---------------------------------------------------------------------------
// Reading the descriptors off a body tree
// ---------------------------------------------------------------------------
/// Whether an object's members form a flat descriptor.
pub open spec fn v1_ok(fields: Seq<(Vec<u8>, JsonValue)>) -> bool {
    &&& spec_req_u64(fields, "chan".spec_bytes()) is Ok
    &&& (spec_req_text(fields, "codr".spec_bytes()) matches Ok(c) && parse_codr(c) is Some)
    &&& (spec_req_text(fields, "data".spec_bytes()) matches Ok(d) && b64_decode(d) is Some)
    &&& (spec_req_text(fields, "datr".spec_bytes()) matches Ok(d) && parse_datr(d) is Ok)
    &&& spec_req_num(fields, "freq".spec_bytes()) is Ok
    &&& spec_req_num(fields, "lsnr".spec_bytes()) is Ok
    &&& (spec_req_text(fields, "modu".spec_bytes()) matches Ok(m) && parse_modu(m) is Some)
    &&& spec_req_u64(fields, "rfch".spec_bytes()) is Ok
    &&& spec_req_i32(fields, "rssi".spec_bytes()) is Ok
    &&& spec_opt_i32(fields, "rssis".spec_bytes()) is Ok
    &&& spec_req_u64(fields, "size".spec_bytes()) is Ok
    &&& spec_req_crc(fields, "stat".spec_bytes()) is Ok
    &&& spec_req_u32(fields, "tmst".spec_bytes()) is Ok
    &&& spec_opt_text(fields, "time".spec_bytes()) is Ok
}

/// How a flat descriptor relates to the object it was read from.
pub open spec fn v1_matches(p: RxPkV1, fields: Seq<(Vec<u8>, JsonValue)>) -> bool {
    &&& spec_req_u64(fields, "chan".spec_bytes()) == Ok::<u64, JsonError>(p.chan)
    &&& (spec_req_text(fields, "codr".spec_bytes()) matches Ok(c) && parse_codr(c) == Some(p.codr))
    &&& (spec_req_text(fields, "data".spec_bytes()) matches Ok(d) && b64_decode(d) == Some(
        p.data@,
    ))
    &&& (spec_req_text(fields, "datr".spec_bytes()) matches Ok(d) && parse_datr(d) == Ok::<
        DataRate,
        crate::datarate::ParseError,
    >(p.datr))
    &&& spec_req_num(fields, "freq".spec_bytes()) == Ok::<Seq<u8>, JsonError>(p.freq@)
    &&& spec_req_num(fields, "lsnr".spec_bytes()) == Ok::<Seq<u8>, JsonError>(p.lsnr@)
    &&& (spec_req_text(fields, "modu".spec_bytes()) matches Ok(m) && parse_modu(m) == Some(p.modu))
    &&& spec_req_u64(fields, "rfch".spec_bytes()) == Ok::<u64, JsonError>(p.rfch)
    &&& spec_req_i32(fields, "rssi".spec_bytes()) == Ok::<i32, JsonError>(p.rssi)
    &&& spec_opt_i32(fields, "rssis".spec_bytes()) == Ok::<Option<i32>, JsonError>(p.rssis)
    &&& spec_req_u64(fields, "size".spec_bytes()) == Ok::<u64, JsonError>(p.size)
    &&& spec_req_crc(fields, "stat".spec_bytes()) == Ok::<CRC, JsonError>(p.stat)
    &&& spec_req_u32(fields, "tmst".spec_bytes()) == Ok::<u32, JsonError>(p.tmst)
    &&& (match p.time {
        None => spec_opt_text(fields, "time".spec_bytes()) == Ok::<Option<Seq<u8>>, JsonError>(
            None,
        ),
        Some(t) => spec_opt_text(fields, "time".spec_bytes()) == Ok::<Option<Seq<u8>>, JsonError>(
            Some(t@),
        ),
    })
}

/// Reads a flat descriptor out of an object's members.
fn v1_from_fields(fields: &Vec<(Vec<u8>, JsonValue)>) -> (r: Result<RxPkV1, JsonError>)
    ensures
        (r is Ok) == v1_ok(fields@),
        r matches Ok(p) ==> v1_matches(p, fields@),
        r matches Err(e) ==> e != JsonError::Utf8,
{
    let chan = match crate::json::req_u64(fields, "chan") {
        Ok(v) => v,
        Err(e) => {
            return Err(e);
        },
    };
    let codr_text = match crate::json::req_text(fields, "codr") {
        Ok(v) => v,
        Err(e) => {
            return Err(e);
        },
    };
    let codr = match crate::datarate::codr_of_bytes(codr_text.as_slice()) {
        Some(c) => c,
        None => {
            return Err(JsonError::BadField);
        },
    };
    let data_text = match crate::json::req_text(fields, "data") {
        Ok(v) => v,
        Err(e) => {
            return Err(e);
        },
    };
    let data = match crate::base64::decode(data_text.as_slice()) {
        Some(d) => d,
        None => {
            return Err(JsonError::BadField);
        },
    };
    let datr_text = match crate::json::req_text(fields, "datr") {
        Ok(v) => v,
        Err(e) => {
            return Err(e);
        },
    };
    let datr = match DataRate::from_bytes(datr_text.as_slice()) {
        Ok(d) => d,
        Err(_) => {
            return Err(JsonError::BadField);
        },
    };
    let freq = match crate::json::req_num(fields, "freq") {
        Ok(v) => v,
        Err(e) => {
            return Err(e);
        },
    };
    let lsnr = match crate::json::req_num(fields, "lsnr") {
        Ok(v) => v,
        Err(e) => {
            return Err(e);
        },
    };
    let modu_text = match crate::json::req_text(fields, "modu") {
        Ok(v) => v,
        Err(e) => {
            return Err(e);
        },
    };
    let modu = match crate::datarate::modu_of_bytes(modu_text.as_slice()) {
        Some(m) => m,
        None => {
            return Err(JsonError::BadField);
        },
    };
    let rfch = match crate::json::req_u64(fields, "rfch") {
        Ok(v) => v,
        Err(e) => {
            return Err(e);
        },
    };
    let rssi = match crate::json::req_i32(fields, "rssi") {
        Ok(v) => v,
        Err(e) => {
            return Err(e);
        },
    };
    let rssis = match crate::json::opt_i32(fields, "rssis") {
        Ok(v) => v,
        Err(e) => {
            return Err(e);
        },
    };
    let size = match crate::json::req_u64(fields, "size") {
        Ok(v) => v,
        Err(e) => {
            return Err(e);
        },
    };
    let stat = match req_crc(fields, "stat") {
        Ok(v) => v,
        Err(e) => {
            return Err(e);
        },
    };
    let tmst = match req_u32(fields, "tmst") {
        Ok(v) => v,
        Err(e) => {
            return Err(e);
        },
    };
    let time = match crate::json::opt_text(fields, "time") {
        Ok(v) => v,
        Err(e) => {
            return Err(e);
        },
    };
    Ok(RxPkV1 { chan, codr, data, datr, freq, lsnr, modu, rfch, rssi, rssis, size, stat, tmst, time })
}

/// Whether an object's members form one antenna record.
pub open spec fn rsig_ok(fields: Seq<(Vec<u8>, JsonValue)>) -> bool {
    &&& spec_req_u64(fields, "ant".spec_bytes()) is Ok
    &&& spec_req_u64(fields, "chan".spec_bytes()) is Ok
    &&& spec_req_i32(fields, "rssic".spec_bytes()) is Ok
    &&& spec_opt_i32(fields, "rssis".spec_bytes()) is Ok
    &&& spec_req_num(fields, "lsnr".spec_bytes()) is Ok
    &&& spec_opt_text(fields, "etime".spec_bytes()) is Ok
    &&& spec_opt_i64(fields, "foff".spec_bytes()) is Ok
    &&& spec_opt_u8(fields, "ftstat".spec_bytes()) is Ok
    &&& spec_opt_u64(fields, "ftver".spec_bytes()) is Ok
    &&& spec_opt_i64(fields, "ftdelta".spec_bytes()) is Ok
}

/// How an antenna record relates to the object it was read from.
pub open spec fn rsig_matches(p: RSig, fields: Seq<(Vec<u8>, JsonValue)>) -> bool {
    &&& spec_req_u64(fields, "ant".spec_bytes()) == Ok::<u64, JsonError>(p.ant)
    &&& spec_req_u64(fields, "chan".spec_bytes()) == Ok::<u64, JsonError>(p.chan)
    &&& spec_req_i32(fields, "rssic".spec_bytes()) == Ok::<i32, JsonError>(p.rssic)
    &&& spec_opt_i32(fields, "rssis".spec_bytes()) == Ok::<Option<i32>, JsonError>(p.rssis)
    &&& spec_req_num(fields, "lsnr".spec_bytes()) == Ok::<Seq<u8>, JsonError>(p.lsnr@)
    &&& (match p.etime {
        None => spec_opt_text(fields, "etime".spec_bytes()) == Ok::<Option<Seq<u8>>, JsonError>(
            None,
        ),
        Some(t) => spec_opt_text(fields, "etime".spec_bytes()) == Ok::<Option<Seq<u8>>, JsonError>(
            Some(t@),
        ),
    })
    &&& spec_opt_i64(fields, "foff".spec_bytes()) == Ok::<Option<i64>, JsonError>(p.foff)
    &&& spec_opt_u8(fields, "ftstat".spec_bytes()) == Ok::<Option<u8>, JsonError>(p.ftstat)
    &&& spec_opt_u64(fields, "ftver".spec_bytes()) == Ok::<Option<u64>, JsonError>(p.ftver)
    &&& spec_opt_i64(fields, "ftdelta".spec_bytes()) == Ok::<Option<i64>, JsonError>(p.ftdelta)
}

/// Reads an antenna record out of an object's members.
fn rsig_from_fields(fields: &Vec<(Vec<u8>, JsonValue)>) -> (r: Result<RSig, JsonError>)
    ensures
        (r is Ok) == rsig_ok(fields@),
        r matches Ok(p) ==> rsig_matches(p, fields@),
        r matches Err(e) ==> e != JsonError::Utf8,
{
    let ant = match crate::json::req_u64(fields, "ant") {
        Ok(v) => v,
        Err(e) => {
            return Err(e);
        },
    };
    let chan = match crate::json::req_u64(fields, "chan") {
        Ok(v) => v,
        Err(e) => {
            return Err(e);
        },
    };
    let rssic = match crate::json::req_i32(fields, "rssic") {
        Ok(v) => v,
        Err(e) => {
            return Err(e);
        },
    };
    let rssis = match crate::json::opt_i32(fields, "rssis") {
        Ok(v) => v,
        Err(e) => {
            return Err(e);
        },
    };
    let lsnr = match crate::json::req_num(fields, "lsnr") {
        Ok(v) => v,
        Err(e) => {
            return Err(e);
        },
    };
    let etime = match crate::json::opt_text(fields, "etime") {
        Ok(v) => v,
        Err(e) => {
            return Err(e);
        },
    };
    let foff = match crate::json::opt_i64(fields, "foff") {
        Ok(v) => v,
        Err(e) => {
            return Err(e);
        },
    };
    let ftstat = match opt_u8(fields, "ftstat") {
        Ok(v) => v,
        Err(e) => {
            return Err(e);
        },
    };
    let ftver = match crate::json::opt_u64(fields, "ftver") {
        Ok(v) => v,
        Err(e) => {
            return Err(e);
        },
    };
    let ftdelta = match crate::json::opt_i64(fields, "ftdelta") {
        Ok(v) => v,
        Err(e) => {
            return Err(e);
        },
    };
    Ok(RSig { ant, chan, rssic, rssis, lsnr, etime, foff, ftstat, ftver, ftdelta })
}

/// Whether a tree is one antenna record.
pub open spec fn rsig_elem_ok(v: JsonValue) -> bool {
    match v {
        JsonValue::Object(f) => rsig_ok(f@),
        _ => false,
    }
}

/// How an antenna record relates to the tree it was read from.
pub open spec fn rsig_elem_matches(s: RSig, v: JsonValue) -> bool {
    match v {
        JsonValue::Object(f) => rsig_matches(s, f@),
        _ => false,
    }
}

/// Whether a tree is an array of antenna records.
pub open spec fn rsig_list_ok(v: JsonValue) -> bool {
    v matches JsonValue::Array(items) && forall|j: int|
        0 <= j < items@.len() ==> rsig_elem_ok(#[trigger] items@[j])
}

/// How a list of antenna records relates to the array it was read from.
pub open spec fn rsig_list_matches(l: Seq<RSig>, v: JsonValue) -> bool {
    v matches JsonValue::Array(items) && l.len() == items@.len() && forall|j: int|
        0 <= j < items@.len() ==> rsig_elem_matches(l[j], #[trigger] items@[j])
}

/// Reads an array of antenna records.
#[verifier::rlimit(100)]
fn rsig_list_from_json(v: &JsonValue) -> (r: Result<Vec<RSig>, JsonError>)
    ensures
        (r is Ok) == rsig_list_ok(*v),
        r matches Ok(l) ==> rsig_list_matches(l@, *v),
        r matches Err(e) ==> e != JsonError::Utf8,
{
    let items = match v {
        JsonValue::Array(items) => items,
        _ => {
            return Err(JsonError::BadField);
        },
    };
    let mut out: Vec<RSig> = Vec::new();
    let mut i: usize = 0;
    while i < items.len()
        invariant
            i <= items@.len(),
            out@.len() == i,
            *v matches JsonValue::Array(x) && x == items,
            forall|j: int|
                0 <= j < i ==> rsig_elem_ok(#[trigger] items@[j]) && rsig_elem_matches(
                    out@[j],
                    items@[j],
                ),
        decreases items@.len() - i,
    {
        let fields = match &items[i] {
            JsonValue::Object(fields) => fields,
            _ => {
                proof {
                    assert(!rsig_elem_ok(items@[i as int]));
                }
                return Err(JsonError::BadField);
            },
        };
        let sig = match rsig_from_fields(fields) {
            Ok(s) => s,
            Err(e) => {
                proof {
                    assert(!rsig_elem_ok(items@[i as int]));
                }
                return Err(e);
            },
        };
        out.push(sig);
        i += 1;
    }
    Ok(out)
}

/// Whether an object's members form a per-antenna descriptor.
pub open spec fn v2_ok(fields: Seq<(Vec<u8>, JsonValue)>) -> bool {
    &&& spec_req_u64(fields, "aesk".spec_bytes()) is Ok
    &&& spec_req_u64(fields, "brd".spec_bytes()) is Ok
    &&& (spec_req_text(fields, "codr".spec_bytes()) matches Ok(c) && parse_codr(c) is Some)
    &&& (spec_req_text(fields, "data".spec_bytes()) matches Ok(d) && b64_decode(d) is Some)
    &&& (spec_req_text(fields, "datr".spec_bytes()) matches Ok(d) && parse_datr(d) is Ok)
    &&& spec_req_num(fields, "freq".spec_bytes()) is Ok
    &&& spec_req_u64(fields, "jver".spec_bytes()) is Ok
    &&& spec_req_text(fields, "modu".spec_bytes()) is Ok
    &&& (find_key(fields, "rsig".spec_bytes()) matches Some(rs) && rsig_list_ok(rs))
    &&& spec_req_u64(fields, "size".spec_bytes()) is Ok
    &&& spec_req_crc(fields, "stat".spec_bytes()) is Ok
    &&& spec_req_u32(fields, "tmst".spec_bytes()) is Ok
    &&& spec_opt_bool(fields, "delayed".spec_bytes()) is Ok
    &&& spec_opt_u64(fields, "tmms".spec_bytes()) is Ok
    &&& spec_opt_text(fields, "time".spec_bytes()) is Ok
}

/// How a per-antenna descriptor relates to the object it was read from.
pub open spec fn v2_matches(p: RxPkV2, fields: Seq<(Vec<u8>, JsonValue)>) -> bool {
    &&& spec_req_u64(fields, "aesk".spec_bytes()) == Ok::<u64, JsonError>(p.aesk)
    &&& spec_req_u64(fields, "brd".spec_bytes()) == Ok::<u64, JsonError>(p.brd)
    &&& (spec_req_text(fields, "codr".spec_bytes()) matches Ok(c) && parse_codr(c) == Some(p.codr))
    &&& (spec_req_text(fields, "data".spec_bytes()) matches Ok(d) && b64_decode(d) == Some(
        p.data@,
    ))
    &&& (spec_req_text(fields, "datr".spec_bytes()) matches Ok(d) && parse_datr(d) == Ok::<
        DataRate,
        crate::datarate::ParseError,
    >(p.datr))
    &&& spec_req_num(fields, "freq".spec_bytes()) == Ok::<Seq<u8>, JsonError>(p.freq@)
    &&& spec_req_u64(fields, "jver".spec_bytes()) == Ok::<u64, JsonError>(p.jver)
    &&& spec_req_text(fields, "modu".spec_bytes()) == Ok::<Seq<u8>, JsonError>(p.modu@)
    &&& (find_key(fields, "rsig".spec_bytes()) matches Some(rs) && rsig_list_matches(p.rsig@, rs))
    &&& spec_req_u64(fields, "size".spec_bytes()) == Ok::<u64, JsonError>(p.size)
    &&& spec_req_crc(fields, "stat".spec_bytes()) == Ok::<CRC, JsonError>(p.stat)
    &&& spec_req_u32(fields, "tmst".spec_bytes()) == Ok::<u32, JsonError>(p.tmst)
    &&& spec_opt_bool(fields, "delayed".spec_bytes()) == Ok::<Option<bool>, JsonError>(p.delayed)
    &&& spec_opt_u64(fields, "tmms".spec_bytes()) == Ok::<Option<u64>, JsonError>(p.tmms)
    &&& (match p.time {
        None => spec_opt_text(fields, "time".spec_bytes()) == Ok::<Option<Seq<u8>>, JsonError>(
            None,
        ),
        Some(t) => spec_opt_text(fields, "time".spec_bytes()) == Ok::<Option<Seq<u8>>, JsonError>(
            Some(t@),
        ),
    })
}

/// Reads a per-antenna descriptor out of an object's members.
fn v2_from_fields(fields: &Vec<(Vec<u8>, JsonValue)>) -> (r: Result<RxPkV2, JsonError>)
    ensures
        (r is Ok) == v2_ok(fields@),
        r matches Ok(p) ==> v2_matches(p, fields@),
        r matches Err(e) ==> e != JsonError::Utf8,
{
    let aesk = match crate::json::req_u64(fields, "aesk") {
        Ok(v) => v,
        Err(e) => {
            return Err(e);
        },
    };
    let brd = match crate::json::req_u64(fields, "brd") {
        Ok(v) => v,
        Err(e) => {
            return Err(e);
        },
    };
    let codr_text = match crate::json::req_text(fields, "codr") {
        Ok(v) => v,
        Err(e) => {
            return Err(e);
        },
    };
    let codr = match crate::datarate::codr_of_bytes(codr_text.as_slice()) {
        Some(c) => c,
        None => {
            return Err(JsonError::BadField);
        },
    };
    let data_text = match crate::json::req_text(fields, "data") {
        Ok(v) => v,
        Err(e) => {
            return Err(e);
        },
    };
    let data = match crate::base64::decode(data_text.as_slice()) {
        Some(d) => d,
        None => {
            return Err(JsonError::BadField);
        },
    };
    let datr_text = match crate::json::req_text(fields, "datr") {
        Ok(v) => v,
        Err(e) => {
            return Err(e);
        },
    };
    let datr = match DataRate::from_bytes(datr_text.as_slice()) {
        Ok(d) => d,
        Err(_) => {
            return Err(JsonError::BadField);
        },
    };
    let freq = match crate::json::req_num(fields, "freq") {
        Ok(v) => v,
        Err(e) => {
            return Err(e);
        },
    };
    let jver = match crate::json::req_u64(fields, "jver") {
        Ok(v) => v,
        Err(e) => {
            return Err(e);
        },
    };
    let modu = match crate::json::req_text(fields, "modu") {
        Ok(v) => v,
        Err(e) => {
            return Err(e);
        },
    };
    let rsig = match obj_get(fields, "rsig") {
        Some(rs) => match rsig_list_from_json(rs) {
            Ok(l) => l,
            Err(e) => {
                return Err(e);
            },
        },
        None => {
            return Err(JsonError::MissingField);
        },
    };
    let size = match crate::json::req_u64(fields, "size") {
        Ok(v) => v,
        Err(e) => {
            return Err(e);
        },
    };
    let stat = match req_crc(fields, "stat") {
        Ok(v) => v,
        Err(e) => {
            return Err(e);
        },
    };
    let tmst = match req_u32(fields, "tmst") {
        Ok(v) => v,
        Err(e) => {
            return Err(e);
        },
    };
    let delayed = match crate::json::opt_bool(fields, "delayed") {
        Ok(v) => v,
        Err(e) => {
            return Err(e);
        },
    };
    let tmms = match crate::json::opt_u64(fields, "tmms") {
        Ok(v) => v,
        Err(e) => {
            return Err(e);
        },
    };
    let time = match crate::json::opt_text(fields, "time") {
        Ok(v) => v,
        Err(e) => {
            return Err(e);
        },
    };
    Ok(
        RxPkV2 {
            aesk,
            brd,
            codr,
            data,
            datr,
            freq,
            jver,
            modu,
            rsig,
            size,
            stat,
            tmst,
            delayed,
            tmms,
            time,
        },
    )
}

/// Whether a tree is one received-frame descriptor, in either shape.
pub open spec fn rxpk_elem_ok(v: JsonValue) -> bool {
    match v {
        JsonValue::Object(f) => v1_ok(f@) || v2_ok(f@),
        _ => false,
    }
}

/// How a descriptor relates to the tree it was read from: the flat shape is
/// tried first, as the wire format fixes.
pub open spec fn rxpk_elem_matches(p: RxPk, v: JsonValue) -> bool {
    match v {
        JsonValue::Object(f) => match p {
            RxPk::V1(x) => v1_ok(f@) && v1_matches(x, f@),
            RxPk::V2(x) => !v1_ok(f@) && v2_ok(f@) && v2_matches(x, f@),
        },
        _ => false,
    }
}

/// Reads one received-frame descriptor, trying the flat shape first.
fn rxpk_from_json(v: &JsonValue) -> (r: Result<RxPk, JsonError>)
    ensures
        (r is Ok) == rxpk_elem_ok(*v),
        r matches Ok(p) ==> rxpk_elem_matches(p, *v),
        r matches Err(e) ==> e != JsonError::Utf8,
{
    let fields = match v {
        JsonValue::Object(fields) => fields,
        _ => {
            return Err(JsonError::BadField);
        },
    };
    match v1_from_fields(fields) {
        Ok(p) => Ok(RxPk::V1(p)),
        Err(_) => match v2_from_fields(fields) {
            Ok(p) => Ok(RxPk::V2(p)),
            Err(e) => Err(e),
        },
    }
}

/// Whether a tree is an array of received-frame descriptors.
pub open spec fn rxpk_list_ok(v: JsonValue) -> bool {
    v matches JsonValue::Array(items) && forall|j: int|
        0 <= j < items@.len() ==> rxpk_elem_ok(#[trigger] items@[j])
}

/// How a list of descriptors relates to the array it was read from.
pub open spec fn rxpk_list_matches(l: Seq<RxPk>, v: JsonValue) -> bool {
    v matches JsonValue::Array(items) && l.len() == items@.len() && forall|j: int|
        0 <= j < items@.len() ==> rxpk_elem_matches(l[j], #[trigger] items@[j])
}

/// Reads an array of received-frame descriptors.
#[verifier::rlimit(100)]
fn rxpk_list_from_json(v: &JsonValue) -> (r: Result<Vec<RxPk>, JsonError>)
    ensures
        (r is Ok) == rxpk_list_ok(*v),
        r matches Ok(l) ==> rxpk_list_matches(l@, *v),
        r matches Err(e) ==> e != JsonError::Utf8,
{
    let items = match v {
        JsonValue::Array(items) => items,
        _ => {
            return Err(JsonError::BadField);
        },
    };
    let mut out: Vec<RxPk> = Vec::new();
    let mut i: usize = 0;
    while i < items.len()
        invariant
            i <= items@.len(),
            out@.len() == i,
            *v matches JsonValue::Array(x) && x == items,
            forall|j: int|
                0 <= j < i ==> rxpk_elem_ok(#[trigger] items@[j]) && rxpk_elem_matches(
                    out@[j],
                    items@[j],
                ),
        decreases items@.len() - i,
    {
        let pk = match rxpk_from_json(&items[i]) {
            Ok(p) => p,
            Err(e) => {
                return Err(e);
            },
        };
        out.push(pk);
        i += 1;
    }
    Ok(out)
}

/// Whether an object's members form telemetry.
pub open spec fn stat_ok(fields: Seq<(Vec<u8>, JsonValue)>) -> bool {
    &&& spec_req_text(fields, "time".spec_bytes()) is Ok
    &&& spec_opt_num(fields, "lati".spec_bytes()) is Ok
    &&& spec_opt_num(fields, "long".spec_bytes()) is Ok
    &&& spec_opt_i64(fields, "alti".spec_bytes()) is Ok
    &&& spec_req_u64(fields, "rxnb".spec_bytes()) is Ok
    &&& spec_req_u64(fields, "rxok".spec_bytes()) is Ok
    &&& spec_req_u64(fields, "rxfw".spec_bytes()) is Ok
    &&& spec_opt_num(fields, "ackr".spec_bytes()) is Ok
    &&& spec_req_u64(fields, "dwnb".spec_bytes()) is Ok
    &&& spec_req_u64(fields, "txnb".spec_bytes()) is Ok
    &&& spec_opt_num(fields, "temp".spec_bytes()) is Ok
}

/// How telemetry relates to the object it was read from.
pub open spec fn stat_matches(s: Stat, fields: Seq<(Vec<u8>, JsonValue)>) -> bool {
    &&& spec_req_text(fields, "time".spec_bytes()) == Ok::<Seq<u8>, JsonError>(s.time@)
    &&& (match s.lati {
        None => spec_opt_num(fields, "lati".spec_bytes()) == Ok::<Option<Seq<u8>>, JsonError>(None),
        Some(n) => spec_opt_num(fields, "lati".spec_bytes()) == Ok::<Option<Seq<u8>>, JsonError>(
            Some(n@),
        ),
    })
    &&& (match s.long {
        None => spec_opt_num(fields, "long".spec_bytes()) == Ok::<Option<Seq<u8>>, JsonError>(None),
        Some(n) => spec_opt_num(fields, "long".spec_bytes()) == Ok::<Option<Seq<u8>>, JsonError>(
            Some(n@),
        ),
    })
    &&& spec_opt_i64(fields, "alti".spec_bytes()) == Ok::<Option<i64>, JsonError>(s.alti)
    &&& spec_req_u64(fields, "rxnb".spec_bytes()) == Ok::<u64, JsonError>(s.rxnb)
    &&& spec_req_u64(fields, "rxok".spec_bytes()) == Ok::<u64, JsonError>(s.rxok)
    &&& spec_req_u64(fields, "rxfw".spec_bytes()) == Ok::<u64, JsonError>(s.rxfw)
    &&& (match s.ackr {
        None => spec_opt_num(fields, "ackr".spec_bytes()) == Ok::<Option<Seq<u8>>, JsonError>(None),
        Some(n) => spec_opt_num(fields, "ackr".spec_bytes()) == Ok::<Option<Seq<u8>>, JsonError>(
            Some(n@),
        ),
    })
    &&& spec_req_u64(fields, "dwnb".spec_bytes()) == Ok::<u64, JsonError>(s.dwnb)
    &&& spec_req_u64(fields, "txnb".spec_bytes()) == Ok::<u64, JsonError>(s.txnb)
    &&& (match s.temp {
        None => spec_opt_num(fields, "temp".spec_bytes()) == Ok::<Option<Seq<u8>>, JsonError>(None),
        Some(n) => spec_opt_num(fields, "temp".spec_bytes()) == Ok::<Option<Seq<u8>>, JsonError>(
            Some(n@),
        ),
    })
}

/// Reads telemetry out of an object's members.
fn stat_from_fields(fields: &Vec<(Vec<u8>, JsonValue)>) -> (r: Result<Stat, JsonError>)
    ensures
        (r is Ok) == stat_ok(fields@),
        r matches Ok(s) ==> stat_matches(s, fields@),
        r matches Err(e) ==> e != JsonError::Utf8,
{
    let time = match crate::json::req_text(fields, "time") {
        Ok(v) => v,
        Err(e) => {
            return Err(e);
        },
    };
    let lati = match crate::json::opt_num(fields, "lati") {
        Ok(v) => v,
        Err(e) => {
            return Err(e);
        },
    };
    let long = match crate::json::opt_num(fields, "long") {
        Ok(v) => v,
        Err(e) => {
            return Err(e);
        },
    };
    let alti = match crate::json::opt_i64(fields, "alti") {
        Ok(v) => v,
        Err(e) => {
            return Err(e);
        },
    };
    let rxnb = match crate::json::req_u64(fields, "rxnb") {
        Ok(v) => v,
        Err(e) => {
            return Err(e);
        },
    };
    let rxok = match crate::json::req_u64(fields, "rxok") {
        Ok(v) => v,
        Err(e) => {
            return Err(e);
        },
    };
    let rxfw = match crate::json::req_u64(fields, "rxfw") {
        Ok(v) => v,
        Err(e) => {
            return Err(e);
        },
    };
    let ackr = match crate::json::opt_num(fields, "ackr") {
        Ok(v) => v,
        Err(e) => {
            return Err(e);
        },
    };
    let dwnb = match crate::json::req_u64(fields, "dwnb") {
        Ok(v) => v,
        Err(e) => {
            return Err(e);
        },
    };
    let txnb = match crate::json::req_u64(fields, "txnb") {
        Ok(v) => v,
        Err(e) => {
            return Err(e);
        },
    };
    let temp = match crate::json::opt_num(fields, "temp") {
        Ok(v) => v,
        Err(e) => {
            return Err(e);
        },
    };
    Ok(Stat { time, lati, long, alti, rxnb, rxok, rxfw, ackr, dwnb, txnb, temp })
}

/// Whether a body tree holds any descriptors and any telemetry, each member
/// optional.
#[verifier::opaque]
pub open spec fn data_ok(v: JsonValue) -> bool {
    v matches JsonValue::Object(fields) && (match find_key(fields@, "rxpk".spec_bytes()) {
        None => true,
        Some(JsonValue::Null) => true,
        Some(rx) => rxpk_list_ok(rx),
    }) && (match find_key(fields@, "stat".spec_bytes()) {
        None => true,
        Some(JsonValue::Null) => true,
        Some(JsonValue::Object(sf)) => stat_ok(sf@),
        Some(_) => false,
    })
}

/// How a body relates to the tree it was read from.
#[verifier::opaque]
pub open spec fn data_matches(d: Data, v: JsonValue) -> bool {
    v matches JsonValue::Object(fields) && (match d.rxpk {
        None => find_key(fields@, "rxpk".spec_bytes()) is None || find_key(
            fields@,
            "rxpk".spec_bytes(),
        ) == Some(JsonValue::Null),
        Some(l) => find_key(fields@, "rxpk".spec_bytes()) matches Some(rx) && rxpk_list_matches(
            l@,
            rx,
        ),
    }) && (match d.stat {
        None => find_key(fields@, "stat".spec_bytes()) is None || find_key(
            fields@,
            "stat".spec_bytes(),
        ) == Some(JsonValue::Null),
        Some(s) => find_key(fields@, "stat".spec_bytes()) matches Some(JsonValue::Object(sf))
            && stat_matches(s, sf@),
    })
}

impl Data {
    /// Reads a body tree.
    pub fn from_json(v: &JsonValue) -> (r: Result<Data, JsonError>)
        ensures
            (r is Ok) == data_ok(*v),
            r matches Ok(d) ==> data_matches(d, *v),
            r matches Err(e) ==> e != JsonError::Utf8,
    {
        proof {
            reveal(data_ok);
            reveal(data_matches);
        }
        let fields = match v {
            JsonValue::Object(fields) => fields,
            _ => {
                return Err(JsonError::ExpectedObject);
            },
        };
        let rxpk = match obj_get(fields, "rxpk") {
            None => None,
            Some(JsonValue::Null) => None,
            Some(rx) => match rxpk_list_from_json(rx) {
                Ok(l) => Some(l),
                Err(e) => {
                    return Err(e);
                },
            },
        };
        let stat = match obj_get(fields, "stat") {
            None => None,
            Some(JsonValue::Null) => None,
            Some(JsonValue::Object(sf)) => match stat_from_fields(sf) {
                Ok(s) => Some(s),
                Err(e) => {
                    return Err(e);
                },
            },
            Some(_) => {
                return Err(JsonError::BadField);
            },
        };
        Ok(Data { rxpk, stat })
    }
}

// ---------------------------------------------------------------------------
// Writing the body
// ---------------------------------------------------------------------------
/// The canonical text of an antenna record. String contents are written
/// verbatim: the fields this shape carries never need escaping.
pub open spec fn rsig_bytes(p: RSig) -> Seq<u8> {
    "{\"ant\":".spec_bytes() + dec_digits_of(p.ant as nat) + ",\"chan\":".spec_bytes()
        + dec_digits_of(p.chan as nat) + ",\"rssic\":".spec_bytes() + dec_text_of_int(
        p.rssic as int,
    ) + crate::json::opt_i64_field_bytes(
        ",\"rssis\":".spec_bytes(),
        crate::json::opt_i32_widen(p.rssis),
    ) + ",\"lsnr\":".spec_bytes() + p.lsnr@ + crate::json::opt_text_field_bytes(
        ",\"etime\":\"".spec_bytes(),
        crate::json::opt_view(p.etime),
        "\"".spec_bytes(),
    ) + crate::json::opt_i64_field_bytes(",\"foff\":".spec_bytes(), p.foff)
        + crate::json::opt_u64_field_bytes(
        ",\"ftstat\":".spec_bytes(),
        crate::json::opt_u8_widen(p.ftstat),
    ) + crate::json::opt_u64_field_bytes(",\"ftver\":".spec_bytes(), p.ftver)
        + crate::json::opt_i64_field_bytes(",\"ftdelta\":".spec_bytes(), p.ftdelta)
        + "}".spec_bytes()
}

/// Writes an antenna record.
#[verifier::rlimit(100)]
fn push_rsig(p: &RSig, out: &mut Vec<u8>)
    ensures
        final(out)@ == old(out)@ + rsig_bytes(*p),
{
    let rssis64: Option<i64> = match p.rssis {
        Some(v) => Some(v as i64),
        None => None,
    };
    proof {
        assert(crate::json::opt_i32_widen(p.rssis) == rssis64);
    }
    let ftstat64: Option<u64> = match p.ftstat {
        Some(v) => Some(v as u64),
        None => None,
    };
    proof {
        assert(crate::json::opt_u8_widen(p.ftstat) == ftstat64);
    }
    crate::json::push_str_bytes(out, "{\"ant\":");
    let ghost mut done: Seq<u8> = "{\"ant\":".spec_bytes();
    proof {
        assert(out@ == old(out)@ + done);
    }
    crate::json::push_u64_dec(out, p.ant);
    proof {
        vstd::seq_lib::lemma_concat_associative(old(out)@, done, dec_digits_of(p.ant as nat));
        done = done + (dec_digits_of(p.ant as nat));
        assert(out@ == old(out)@ + done);
    }
    crate::json::push_str_bytes(out, ",\"chan\":");
    proof {
        vstd::seq_lib::lemma_concat_associative(old(out)@, done, ",\"chan\":".spec_bytes());
        done = done + (",\"chan\":".spec_bytes());
        assert(out@ == old(out)@ + done);
    }
    crate::json::push_u64_dec(out, p.chan);
    proof {
        vstd::seq_lib::lemma_concat_associative(old(out)@, done, dec_digits_of(p.chan as nat));
        done = done + (dec_digits_of(p.chan as nat));
        assert(out@ == old(out)@ + done);
    }
    crate::json::push_str_bytes(out, ",\"rssic\":");
    proof {
        vstd::seq_lib::lemma_concat_associative(old(out)@, done, ",\"rssic\":".spec_bytes());
        done = done + (",\"rssic\":".spec_bytes());
        assert(out@ == old(out)@ + done);
    }
    crate::json::push_i64_dec(out, p.rssic as i64);
    proof {
        vstd::seq_lib::lemma_concat_associative(old(out)@, done, dec_text_of_int(p.rssic as int));
        done = done + (dec_text_of_int(p.rssic as int));
        assert(out@ == old(out)@ + done);
    }
    crate::json::push_opt_i64_field(out, ",\"rssis\":", &rssis64);
    proof {
        vstd::seq_lib::lemma_concat_associative(old(out)@, done, crate::json::opt_i64_field_bytes(",\"rssis\":".spec_bytes(), crate::json::opt_i32_widen(p.rssis)));
        done = done + (crate::json::opt_i64_field_bytes(",\"rssis\":".spec_bytes(), crate::json::opt_i32_widen(p.rssis)));
        assert(out@ == old(out)@ + done);
    }
    crate::json::push_str_bytes(out, ",\"lsnr\":");
    proof {
        vstd::seq_lib::lemma_concat_associative(old(out)@, done, ",\"lsnr\":".spec_bytes());
        done = done + (",\"lsnr\":".spec_bytes());
        assert(out@ == old(out)@ + done);
    }
    crate::json::push_bytes(out, p.lsnr.text().as_slice());
    proof {
        vstd::seq_lib::lemma_concat_associative(old(out)@, done, p.lsnr@);
        done = done + (p.lsnr@);
        assert(out@ == old(out)@ + done);
    }
    crate::json::push_opt_text_field(out, ",\"etime\":\"", &p.etime, "\"");
    proof {
        vstd::seq_lib::lemma_concat_associative(old(out)@, done, crate::json::opt_text_field_bytes(",\"etime\":\"".spec_bytes(), crate::json::opt_view(p.etime), "\"".spec_bytes()));
        done = done + (crate::json::opt_text_field_bytes(",\"etime\":\"".spec_bytes(), crate::json::opt_view(p.etime), "\"".spec_bytes()));
        assert(out@ == old(out)@ + done);
    }
    crate::json::push_opt_i64_field(out, ",\"foff\":", &p.foff);
    proof {
        vstd::seq_lib::lemma_concat_associative(old(out)@, done, crate::json::opt_i64_field_bytes(",\"foff\":".spec_bytes(), p.foff));
        done = done + (crate::json::opt_i64_field_bytes(",\"foff\":".spec_bytes(), p.foff));
        assert(out@ == old(out)@ + done);
    }
    crate::json::push_opt_u64_field(out, ",\"ftstat\":", &ftstat64);
    proof {
        vstd::seq_lib::lemma_concat_associative(old(out)@, done, crate::json::opt_u64_field_bytes(",\"ftstat\":".spec_bytes(), crate::json::opt_u8_widen(p.ftstat)));
        done = done + (crate::json::opt_u64_field_bytes(",\"ftstat\":".spec_bytes(), crate::json::opt_u8_widen(p.ftstat)));
        assert(out@ == old(out)@ + done);
    }
    crate::json::push_opt_u64_field(out, ",\"ftver\":", &p.ftver);
    proof {
        vstd::seq_lib::lemma_concat_associative(old(out)@, done, crate::json::opt_u64_field_bytes(",\"ftver\":".spec_bytes(), p.ftver));
        done = done + (crate::json::opt_u64_field_bytes(",\"ftver\":".spec_bytes(), p.ftver));
        assert(out@ == old(out)@ + done);
    }
    crate::json::push_opt_i64_field(out, ",\"ftdelta\":", &p.ftdelta);
    proof {
        vstd::seq_lib::lemma_concat_associative(old(out)@, done, crate::json::opt_i64_field_bytes(",\"ftdelta\":".spec_bytes(), p.ftdelta));
        done = done + (crate::json::opt_i64_field_bytes(",\"ftdelta\":".spec_bytes(), p.ftdelta));
        assert(out@ == old(out)@ + done);
    }
    crate::json::push_str_bytes(out, "}");
    proof {
        vstd::seq_lib::lemma_concat_associative(old(out)@, done, "}".spec_bytes());
        done = done + ("}".spec_bytes());
        assert(out@ == old(out)@ + done);
    }
    proof {
        assert(done == rsig_bytes(*p));
    }
}

/// The canonical text of a flat descriptor, in the key order reference
/// forwarders write. String contents go out verbatim.
pub open spec fn v1_bytes(p: RxPkV1) -> Seq<u8> {
    "{".spec_bytes() + crate::json::opt_text_field_bytes(
        "\"time\":\"".spec_bytes(),
        crate::json::opt_view(p.time),
        "\",".spec_bytes(),
    ) + "\"tmst\":".spec_bytes() + dec_digits_of(p.tmst as nat) + ",\"chan\":".spec_bytes()
        + dec_digits_of(p.chan as nat) + ",\"rfch\":".spec_bytes() + dec_digits_of(p.rfch as nat)
        + ",\"freq\":".spec_bytes() + p.freq@ + ",\"stat\":".spec_bytes() + crc_bytes(p.stat)
        + ",\"modu\":\"".spec_bytes() + modu_bytes(p.modu) + "\",\"datr\":\"".spec_bytes()
        + datr_bytes(p.datr) + "\",\"codr\":\"".spec_bytes() + codr_bytes(p.codr)
        + "\",\"rssi\":".spec_bytes() + dec_text_of_int(p.rssi as int)
        + crate::json::opt_i64_field_bytes(
        ",\"rssis\":".spec_bytes(),
        crate::json::opt_i32_widen(p.rssis),
    ) + ",\"lsnr\":".spec_bytes() + p.lsnr@ + ",\"size\":".spec_bytes() + dec_digits_of(
        p.size as nat,
    ) + ",\"data\":\"".spec_bytes() + b64_encode(p.data@) + "\"}".spec_bytes()
}

/// Writes a flat descriptor.
#[verifier::rlimit(100)]
fn push_v1(p: &RxPkV1, out: &mut Vec<u8>)
    ensures
        final(out)@ == old(out)@ + v1_bytes(*p),
{
    let rssis64: Option<i64> = match p.rssis {
        Some(v) => Some(v as i64),
        None => None,
    };
    proof {
        assert(crate::json::opt_i32_widen(p.rssis) == rssis64);
    }
    crate::json::push_str_bytes(out, "{");
    let ghost mut done: Seq<u8> = "{".spec_bytes();
    proof {
        assert(out@ == old(out)@ + done);
    }
    crate::json::push_opt_text_field(out, "\"time\":\"", &p.time, "\",");
    proof {
        vstd::seq_lib::lemma_concat_associative(old(out)@, done, crate::json::opt_text_field_bytes("\"time\":\"".spec_bytes(), crate::json::opt_view(p.time), "\",".spec_bytes()));
        done = done + (crate::json::opt_text_field_bytes("\"time\":\"".spec_bytes(), crate::json::opt_view(p.time), "\",".spec_bytes()));
        assert(out@ == old(out)@ + done);
    }
    crate::json::push_str_bytes(out, "\"tmst\":");
    proof {
        vstd::seq_lib::lemma_concat_associative(old(out)@, done, "\"tmst\":".spec_bytes());
        done = done + ("\"tmst\":".spec_bytes());
        assert(out@ == old(out)@ + done);
    }
    crate::json::push_u64_dec(out, p.tmst as u64);
    proof {
        vstd::seq_lib::lemma_concat_associative(old(out)@, done, dec_digits_of(p.tmst as nat));
        done = done + (dec_digits_of(p.tmst as nat));
        assert(out@ == old(out)@ + done);
    }
    crate::json::push_str_bytes(out, ",\"chan\":");
    proof {
        vstd::seq_lib::lemma_concat_associative(old(out)@, done, ",\"chan\":".spec_bytes());
        done = done + (",\"chan\":".spec_bytes());
        assert(out@ == old(out)@ + done);
    }
    crate::json::push_u64_dec(out, p.chan);
    proof {
        vstd::seq_lib::lemma_concat_associative(old(out)@, done, dec_digits_of(p.chan as nat));
        done = done + (dec_digits_of(p.chan as nat));
        assert(out@ == old(out)@ + done);
    }
    crate::json::push_str_bytes(out, ",\"rfch\":");
    proof {
        vstd::seq_lib::lemma_concat_associative(old(out)@, done, ",\"rfch\":".spec_bytes());
        done = done + (",\"rfch\":".spec_bytes());
        assert(out@ == old(out)@ + done);
    }
    crate::json::push_u64_dec(out, p.rfch);
    proof {
        vstd::seq_lib::lemma_concat_associative(old(out)@, done, dec_digits_of(p.rfch as nat));
        done = done + (dec_digits_of(p.rfch as nat));
        assert(out@ == old(out)@ + done);
    }
    crate::json::push_str_bytes(out, ",\"freq\":");
    proof {
        vstd::seq_lib::lemma_concat_associative(old(out)@, done, ",\"freq\":".spec_bytes());
        done = done + (",\"freq\":".spec_bytes());
        assert(out@ == old(out)@ + done);
    }
    crate::json::push_bytes(out, p.freq.text().as_slice());
    proof {
        vstd::seq_lib::lemma_concat_associative(old(out)@, done, p.freq@);
        done = done + (p.freq@);
        assert(out@ == old(out)@ + done);
    }
    crate::json::push_str_bytes(out, ",\"stat\":");
    proof {
        vstd::seq_lib::lemma_concat_associative(old(out)@, done, ",\"stat\":".spec_bytes());
        done = done + (",\"stat\":".spec_bytes());
        assert(out@ == old(out)@ + done);
    }
    push_crc(p.stat, out);
    proof {
        vstd::seq_lib::lemma_concat_associative(old(out)@, done, crc_bytes(p.stat));
        done = done + (crc_bytes(p.stat));
        assert(out@ == old(out)@ + done);
    }
    crate::json::push_str_bytes(out, ",\"modu\":\"");
    proof {
        vstd::seq_lib::lemma_concat_associative(old(out)@, done, ",\"modu\":\"".spec_bytes());
        done = done + (",\"modu\":\"".spec_bytes());
        assert(out@ == old(out)@ + done);
    }
    crate::datarate::push_modu(&p.modu, out);
    proof {
        vstd::seq_lib::lemma_concat_associative(old(out)@, done, modu_bytes(p.modu));
        done = done + (modu_bytes(p.modu));
        assert(out@ == old(out)@ + done);
    }
    crate::json::push_str_bytes(out, "\",\"datr\":\"");
    proof {
        vstd::seq_lib::lemma_concat_associative(old(out)@, done, "\",\"datr\":\"".spec_bytes());
        done = done + ("\",\"datr\":\"".spec_bytes());
        assert(out@ == old(out)@ + done);
    }
    p.datr.push_text(out);
    proof {
        vstd::seq_lib::lemma_concat_associative(old(out)@, done, datr_bytes(p.datr));
        done = done + (datr_bytes(p.datr));
        assert(out@ == old(out)@ + done);
    }
    crate::json::push_str_bytes(out, "\",\"codr\":\"");
    proof {
        vstd::seq_lib::lemma_concat_associative(old(out)@, done, "\",\"codr\":\"".spec_bytes());
        done = done + ("\",\"codr\":\"".spec_bytes());
        assert(out@ == old(out)@ + done);
    }
    crate::datarate::push_codr(&p.codr, out);
    proof {
        vstd::seq_lib::lemma_concat_associative(old(out)@, done, codr_bytes(p.codr));
        done = done + (codr_bytes(p.codr));
        assert(out@ == old(out)@ + done);
    }
    crate::json::push_str_bytes(out, "\",\"rssi\":");
    proof {
        vstd::seq_lib::lemma_concat_associative(old(out)@, done, "\",\"rssi\":".spec_bytes());
        done = done + ("\",\"rssi\":".spec_bytes());
        assert(out@ == old(out)@ + done);
    }
    crate::json::push_i64_dec(out, p.rssi as i64);
    proof {
        vstd::seq_lib::lemma_concat_associative(old(out)@, done, dec_text_of_int(p.rssi as int));
        done = done + (dec_text_of_int(p.rssi as int));
        assert(out@ == old(out)@ + done);
    }
    crate::json::push_opt_i64_field(out, ",\"rssis\":", &rssis64);
    proof {
        vstd::seq_lib::lemma_concat_associative(old(out)@, done, crate::json::opt_i64_field_bytes(",\"rssis\":".spec_bytes(), crate::json::opt_i32_widen(p.rssis)));
        done = done + (crate::json::opt_i64_field_bytes(",\"rssis\":".spec_bytes(), crate::json::opt_i32_widen(p.rssis)));
        assert(out@ == old(out)@ + done);
    }
    crate::json::push_str_bytes(out, ",\"lsnr\":");
    proof {
        vstd::seq_lib::lemma_concat_associative(old(out)@, done, ",\"lsnr\":".spec_bytes());
        done = done + (",\"lsnr\":".spec_bytes());
        assert(out@ == old(out)@ + done);
    }
    crate::json::push_bytes(out, p.lsnr.text().as_slice());
    proof {
        vstd::seq_lib::lemma_concat_associative(old(out)@, done, p.lsnr@);
        done = done + (p.lsnr@);
        assert(out@ == old(out)@ + done);
    }
    crate::json::push_str_bytes(out, ",\"size\":");
    proof {
        vstd::seq_lib::lemma_concat_associative(old(out)@, done, ",\"size\":".spec_bytes());
        done = done + (",\"size\":".spec_bytes());
        assert(out@ == old(out)@ + done);
    }
    crate::json::push_u64_dec(out, p.size);
    proof {
        vstd::seq_lib::lemma_concat_associative(old(out)@, done, dec_digits_of(p.size as nat));
        done = done + (dec_digits_of(p.size as nat));
        assert(out@ == old(out)@ + done);
    }
    crate::json::push_str_bytes(out, ",\"data\":\"");
    proof {
        vstd::seq_lib::lemma_concat_associative(old(out)@, done, ",\"data\":\"".spec_bytes());
        done = done + (",\"data\":\"".spec_bytes());
        assert(out@ == old(out)@ + done);
    }
    let encoded = crate::base64::encode(p.data.as_slice());
    crate::json::push_bytes(out, encoded.as_slice());
    proof {
        vstd::seq_lib::lemma_concat_associative(old(out)@, done, b64_encode(p.data@));
        done = done + (b64_encode(p.data@));
        assert(out@ == old(out)@ + done);
    }
    crate::json::push_str_bytes(out, "\"}");
    proof {
        vstd::seq_lib::lemma_concat_associative(old(out)@, done, "\"}".spec_bytes());
        done = done + ("\"}".spec_bytes());
        assert(out@ == old(out)@ + done);
    }
    proof {
        assert(done == v1_bytes(*p));
    }
}

/// The canonical text of an antenna-record list.
pub open spec fn rsig_list_bytes(l: Seq<RSig>) -> Seq<u8>
    decreases l.len(),
{
    if l.len() == 0 {
        Seq::empty()
    } else if l.len() == 1 {
        rsig_bytes(l[0])
    } else {
        rsig_bytes(l[0]) + ",".spec_bytes() + rsig_list_bytes(l.skip(1))
    }
}

/// Writes an antenna-record list, comma separated.
#[verifier::rlimit(100)]
fn push_rsig_list(l: &Vec<RSig>, out: &mut Vec<u8>)
    ensures
        final(out)@ == old(out)@ + rsig_list_bytes(l@),
{
    let mut i: usize = 0;
    while i < l.len()
        invariant
            i <= l@.len(),
            i == 0 ==> out@ == old(out)@,
            0 < i < l@.len() ==> old(out)@ + rsig_list_bytes(l@) == out@ + ",".spec_bytes()
                + rsig_list_bytes(l@.skip(i as int)),
            i > 0 && i >= l@.len() ==> out@ == old(out)@ + rsig_list_bytes(l@),
        decreases l@.len() - i,
    {
        if i > 0 {
            crate::json::push_str_bytes(out, ",");
        }
        push_rsig(&l[i], out);
        proof {
            assert(l@.skip(i as int).skip(1) =~= l@.skip(i + 1));
            assert(l@.skip(i as int)[0] == l@[i as int]);
            if i == 0 && l@.len() > 1 {
                assert(l@.skip(0) =~= l@);
            }
        }
        i += 1;
    }
    proof {
        if l@.len() == 0 {
            assert(out@ =~= old(out)@ + rsig_list_bytes(l@));
        }
    }
}

/// The canonical text of a per-antenna descriptor. String contents go out
/// verbatim.
pub open spec fn v2_bytes(p: RxPkV2) -> Seq<u8> {
    "{\"aesk\":".spec_bytes() + dec_digits_of(p.aesk as nat) + ",\"brd\":".spec_bytes()
        + dec_digits_of(p.brd as nat) + ",\"codr\":\"".spec_bytes() + codr_bytes(p.codr)
        + "\",\"data\":\"".spec_bytes() + b64_encode(p.data@) + "\",\"datr\":\"".spec_bytes()
        + datr_bytes(p.datr) + "\",\"freq\":".spec_bytes() + p.freq@ + ",\"jver\":".spec_bytes()
        + dec_digits_of(p.jver as nat) + ",\"modu\":\"".spec_bytes() + p.modu@
        + "\",\"rsig\":[".spec_bytes() + rsig_list_bytes(p.rsig@) + "],\"size\":".spec_bytes()
        + dec_digits_of(p.size as nat) + ",\"stat\":".spec_bytes() + crc_bytes(p.stat)
        + ",\"tmst\":".spec_bytes() + dec_digits_of(p.tmst as nat)
        + crate::json::opt_bool_field_bytes(",\"delayed\":".spec_bytes(), p.delayed)
        + crate::json::opt_u64_field_bytes(",\"tmms\":".spec_bytes(), p.tmms)
        + crate::json::opt_text_field_bytes(
        ",\"time\":\"".spec_bytes(),
        crate::json::opt_view(p.time),
        "\"".spec_bytes(),
    ) + "}".spec_bytes()
}

/// Writes a per-antenna descriptor.
#[verifier::rlimit(100)]
fn push_v2(p: &RxPkV2, out: &mut Vec<u8>)
    ensures
        final(out)@ == old(out)@ + v2_bytes(*p),
{
    crate::json::push_str_bytes(out, "{\"aesk\":");
    let ghost mut done: Seq<u8> = "{\"aesk\":".spec_bytes();
    proof {
        assert(out@ == old(out)@ + done);
    }
    crate::json::push_u64_dec(out, p.aesk);
    proof {
        vstd::seq_lib::lemma_concat_associative(old(out)@, done, dec_digits_of(p.aesk as nat));
        done = done + (dec_digits_of(p.aesk as nat));
        assert(out@ == old(out)@ + done);
    }
    crate::json::push_str_bytes(out, ",\"brd\":");
    proof {
        vstd::seq_lib::lemma_concat_associative(old(out)@, done, ",\"brd\":".spec_bytes());
        done = done + (",\"brd\":".spec_bytes());
        assert(out@ == old(out)@ + done);
    }
    crate::json::push_u64_dec(out, p.brd);
    proof {
        vstd::seq_lib::lemma_concat_associative(old(out)@, done, dec_digits_of(p.brd as nat));
        done = done + (dec_digits_of(p.brd as nat));
        assert(out@ == old(out)@ + done);
    }
    crate::json::push_str_bytes(out, ",\"codr\":\"");
    proof {
        vstd::seq_lib::lemma_concat_associative(old(out)@, done, ",\"codr\":\"".spec_bytes());
        done = done + (",\"codr\":\"".spec_bytes());
        assert(out@ == old(out)@ + done);
    }
    crate::datarate::push_codr(&p.codr, out);
    proof {
        vstd::seq_lib::lemma_concat_associative(old(out)@, done, codr_bytes(p.codr));
        done = done + (codr_bytes(p.codr));
        assert(out@ == old(out)@ + done);
    }
    crate::json::push_str_bytes(out, "\",\"data\":\"");
    proof {
        vstd::seq_lib::lemma_concat_associative(old(out)@, done, "\",\"data\":\"".spec_bytes());
        done = done + ("\",\"data\":\"".spec_bytes());
        assert(out@ == old(out)@ + done);
    }
    let encoded = crate::base64::encode(p.data.as_slice());
    crate::json::push_bytes(out, encoded.as_slice());
    proof {
        vstd::seq_lib::lemma_concat_associative(old(out)@, done, b64_encode(p.data@));
        done = done + (b64_encode(p.data@));
        assert(out@ == old(out)@ + done);
    }
    crate::json::push_str_bytes(out, "\",\"datr\":\"");
    proof {
        vstd::seq_lib::lemma_concat_associative(old(out)@, done, "\",\"datr\":\"".spec_bytes());
        done = done + ("\",\"datr\":\"".spec_bytes());
        assert(out@ == old(out)@ + done);
    }
    p.datr.push_text(out);
    proof {
        vstd::seq_lib::lemma_concat_associative(old(out)@, done, datr_bytes(p.datr));
        done = done + (datr_bytes(p.datr));
        assert(out@ == old(out)@ + done);
    }
    crate::json::push_str_bytes(out, "\",\"freq\":");
    proof {
        vstd::seq_lib::lemma_concat_associative(old(out)@, done, "\",\"freq\":".spec_bytes());
        done = done + ("\",\"freq\":".spec_bytes());
        assert(out@ == old(out)@ + done);
    }
    crate::json::push_bytes(out, p.freq.text().as_slice());
    proof {
        vstd::seq_lib::lemma_concat_associative(old(out)@, done, p.freq@);
        done = done + (p.freq@);
        assert(out@ == old(out)@ + done);
    }
    crate::json::push_str_bytes(out, ",\"jver\":");
    proof {
        vstd::seq_lib::lemma_concat_associative(old(out)@, done, ",\"jver\":".spec_bytes());
        done = done + (",\"jver\":".spec_bytes());
        assert(out@ == old(out)@ + done);
    }
    crate::json::push_u64_dec(out, p.jver);
    proof {
        vstd::seq_lib::lemma_concat_associative(old(out)@, done, dec_digits_of(p.jver as nat));
        done = done + (dec_digits_of(p.jver as nat));
        assert(out@ == old(out)@ + done);
    }
    crate::json::push_str_bytes(out, ",\"modu\":\"");
    proof {
        vstd::seq_lib::lemma_concat_associative(old(out)@, done, ",\"modu\":\"".spec_bytes());
        done = done + (",\"modu\":\"".spec_bytes());
        assert(out@ == old(out)@ + done);
    }
    crate::json::push_bytes(out, p.modu.as_slice());
    proof {
        vstd::seq_lib::lemma_concat_associative(old(out)@, done, p.modu@);
        done = done + (p.modu@);
        assert(out@ == old(out)@ + done);
    }
    crate::json::push_str_bytes(out, "\",\"rsig\":[");
    proof {
        vstd::seq_lib::lemma_concat_associative(old(out)@, done, "\",\"rsig\":[".spec_bytes());
        done = done + ("\",\"rsig\":[".spec_bytes());
        assert(out@ == old(out)@ + done);
    }
    push_rsig_list(&p.rsig, out);
    proof {
        vstd::seq_lib::lemma_concat_associative(old(out)@, done, rsig_list_bytes(p.rsig@));
        done = done + (rsig_list_bytes(p.rsig@));
        assert(out@ == old(out)@ + done);
    }
    crate::json::push_str_bytes(out, "],\"size\":");
    proof {
        vstd::seq_lib::lemma_concat_associative(old(out)@, done, "],\"size\":".spec_bytes());
        done = done + ("],\"size\":".spec_bytes());
        assert(out@ == old(out)@ + done);
    }
    crate::json::push_u64_dec(out, p.size);
    proof {
        vstd::seq_lib::lemma_concat_associative(old(out)@, done, dec_digits_of(p.size as nat));
        done = done + (dec_digits_of(p.size as nat));
        assert(out@ == old(out)@ + done);
    }
    crate::json::push_str_bytes(out, ",\"stat\":");
    proof {
        vstd::seq_lib::lemma_concat_associative(old(out)@, done, ",\"stat\":".spec_bytes());
        done = done + (",\"stat\":".spec_bytes());
        assert(out@ == old(out)@ + done);
    }
    push_crc(p.stat, out);
    proof {
        vstd::seq_lib::lemma_concat_associative(old(out)@, done, crc_bytes(p.stat));
        done = done + (crc_bytes(p.stat));
        assert(out@ == old(out)@ + done);
    }
    crate::json::push_str_bytes(out, ",\"tmst\":");
    proof {
        vstd::seq_lib::lemma_concat_associative(old(out)@, done, ",\"tmst\":".spec_bytes());
        done = done + (",\"tmst\":".spec_bytes());
        assert(out@ == old(out)@ + done);
    }
    crate::json::push_u64_dec(out, p.tmst as u64);
    proof {
        vstd::seq_lib::lemma_concat_associative(old(out)@, done, dec_digits_of(p.tmst as nat));
        done = done + (dec_digits_of(p.tmst as nat));
        assert(out@ == old(out)@ + done);
    }
    crate::json::push_opt_bool_field(out, ",\"delayed\":", &p.delayed);
    proof {
        vstd::seq_lib::lemma_concat_associative(old(out)@, done, crate::json::opt_bool_field_bytes(",\"delayed\":".spec_bytes(), p.delayed));
        done = done + (crate::json::opt_bool_field_bytes(",\"delayed\":".spec_bytes(), p.delayed));
        assert(out@ == old(out)@ + done);
    }
    crate::json::push_opt_u64_field(out, ",\"tmms\":", &p.tmms);
    proof {
        vstd::seq_lib::lemma_concat_associative(old(out)@, done, crate::json::opt_u64_field_bytes(",\"tmms\":".spec_bytes(), p.tmms));
        done = done + (crate::json::opt_u64_field_bytes(",\"tmms\":".spec_bytes(), p.tmms));
        assert(out@ == old(out)@ + done);
    }
    crate::json::push_opt_text_field(out, ",\"time\":\"", &p.time, "\"");
    proof {
        vstd::seq_lib::lemma_concat_associative(old(out)@, done, crate::json::opt_text_field_bytes(",\"time\":\"".spec_bytes(), crate::json::opt_view(p.time), "\"".spec_bytes()));
        done = done + (crate::json::opt_text_field_bytes(",\"time\":\"".spec_bytes(), crate::json::opt_view(p.time), "\"".spec_bytes()));
        assert(out@ == old(out)@ + done);
    }
    crate::json::push_str_bytes(out, "}");
    proof {
        vstd::seq_lib::lemma_concat_associative(old(out)@, done, "}".spec_bytes());
        done = done + ("}".spec_bytes());
        assert(out@ == old(out)@ + done);
    }
    proof {
        assert(done == v2_bytes(*p));
    }
}

/// The canonical text of a descriptor, in its own shape.
pub open spec fn rxpk_bytes(p: RxPk) -> Seq<u8> {
    match p {
        RxPk::V1(x) => v1_bytes(x),
        RxPk::V2(x) => v2_bytes(x),
    }
}

/// Writes one descriptor.
fn push_rxpk(p: &RxPk, out: &mut Vec<u8>)
    ensures
        final(out)@ == old(out)@ + rxpk_bytes(*p),
{
    match p {
        RxPk::V1(x) => push_v1(x, out),
        RxPk::V2(x) => push_v2(x, out),
    }
}

/// The canonical text of a descriptor list.
pub open spec fn rxpk_list_bytes(l: Seq<RxPk>) -> Seq<u8>
    decreases l.len(),
{
    if l.len() == 0 {
        Seq::empty()
    } else if l.len() == 1 {
        rxpk_bytes(l[0])
    } else {
        rxpk_bytes(l[0]) + ",".spec_bytes() + rxpk_list_bytes(l.skip(1))
    }
}

/// Writes a descriptor list, comma separated.
#[verifier::rlimit(100)]
fn push_rxpk_list(l: &Vec<RxPk>, out: &mut Vec<u8>)
    ensures
        final(out)@ == old(out)@ + rxpk_list_bytes(l@),
{
    let mut i: usize = 0;
    while i < l.len()
        invariant
            i <= l@.len(),
            i == 0 ==> out@ == old(out)@,
            0 < i < l@.len() ==> old(out)@ + rxpk_list_bytes(l@) == out@ + ",".spec_bytes()
                + rxpk_list_bytes(l@.skip(i as int)),
            i > 0 && i >= l@.len() ==> out@ == old(out)@ + rxpk_list_bytes(l@),
        decreases l@.len() - i,
    {
        let ghost prev = out@;
        if i > 0 {
            crate::json::push_str_bytes(out, ",");
        }
        push_rxpk(&l[i], out);
        proof {
            let rest = l@.skip(i as int);
            assert(rest[0] == l@[i as int]);
            assert(rest.skip(1) =~= l@.skip(i + 1));
            if i == 0 {
                assert(l@.skip(0) =~= l@);
                if l@.len() > 1 {
                    // the whole list unfolds around the first element
                    vstd::seq_lib::lemma_concat_associative(
                        old(out)@,
                        rxpk_bytes(l@[0]) + ",".spec_bytes(),
                        rxpk_list_bytes(l@.skip(1)),
                    );
                    vstd::seq_lib::lemma_concat_associative(
                        old(out)@,
                        rxpk_bytes(l@[0]),
                        ",".spec_bytes(),
                    );
                }
            } else {
                if rest.len() > 1 {
                    vstd::seq_lib::lemma_concat_associative(
                        prev + ",".spec_bytes(),
                        rxpk_bytes(rest[0]) + ",".spec_bytes(),
                        rxpk_list_bytes(rest.skip(1)),
                    );
                    vstd::seq_lib::lemma_concat_associative(
                        prev + ",".spec_bytes(),
                        rxpk_bytes(rest[0]),
                        ",".spec_bytes(),
                    );
                }
            }
        }
        i += 1;
    }
    proof {
        if l@.len() == 0 {
            assert(out@ =~= old(out)@ + rxpk_list_bytes(l@));
        }
    }
}

/// The canonical text of telemetry. The time string goes out verbatim.
pub open spec fn stat_bytes(s: Stat) -> Seq<u8> {
    "{\"time\":\"".spec_bytes() + s.time@ + "\"".spec_bytes()
        + crate::json::opt_num_field_bytes(
        ",\"lati\":".spec_bytes(),
        crate::json::opt_num_view(s.lati),
    ) + crate::json::opt_num_field_bytes(
        ",\"long\":".spec_bytes(),
        crate::json::opt_num_view(s.long),
    ) + crate::json::opt_i64_field_bytes(",\"alti\":".spec_bytes(), s.alti)
        + ",\"rxnb\":".spec_bytes() + dec_digits_of(s.rxnb as nat) + ",\"rxok\":".spec_bytes()
        + dec_digits_of(s.rxok as nat) + ",\"rxfw\":".spec_bytes() + dec_digits_of(s.rxfw as nat)
        + ",\"ackr\":".spec_bytes() + crate::json::num_or_null_bytes(
        crate::json::opt_num_view(s.ackr),
    ) + ",\"dwnb\":".spec_bytes() + dec_digits_of(s.dwnb as nat) + ",\"txnb\":".spec_bytes()
        + dec_digits_of(s.txnb as nat) + ",\"temp\":".spec_bytes()
        + crate::json::num_or_null_bytes(crate::json::opt_num_view(s.temp)) + "}".spec_bytes()
}

/// Writes telemetry.
#[verifier::rlimit(100)]
fn push_stat(s: &Stat, out: &mut Vec<u8>)
    ensures
        final(out)@ == old(out)@ + stat_bytes(*s),
{
    crate::json::push_str_bytes(out, "{\"time\":\"");
    let ghost mut done: Seq<u8> = "{\"time\":\"".spec_bytes();
    proof {
        assert(out@ == old(out)@ + done);
    }
    crate::json::push_bytes(out, s.time.as_slice());
    proof {
        vstd::seq_lib::lemma_concat_associative(old(out)@, done, s.time@);
        done = done + (s.time@);
        assert(out@ == old(out)@ + done);
    }
    crate::json::push_str_bytes(out, "\"");
    proof {
        vstd::seq_lib::lemma_concat_associative(old(out)@, done, "\"".spec_bytes());
        done = done + ("\"".spec_bytes());
        assert(out@ == old(out)@ + done);
    }
    crate::json::push_opt_num_field(out, ",\"lati\":", &s.lati);
    proof {
        vstd::seq_lib::lemma_concat_associative(old(out)@, done, crate::json::opt_num_field_bytes(",\"lati\":".spec_bytes(), crate::json::opt_num_view(s.lati)));
        done = done + (crate::json::opt_num_field_bytes(",\"lati\":".spec_bytes(), crate::json::opt_num_view(s.lati)));
        assert(out@ == old(out)@ + done);
    }
    crate::json::push_opt_num_field(out, ",\"long\":", &s.long);
    proof {
        vstd::seq_lib::lemma_concat_associative(old(out)@, done, crate::json::opt_num_field_bytes(",\"long\":".spec_bytes(), crate::json::opt_num_view(s.long)));
        done = done + (crate::json::opt_num_field_bytes(",\"long\":".spec_bytes(), crate::json::opt_num_view(s.long)));
        assert(out@ == old(out)@ + done);
    }
    crate::json::push_opt_i64_field(out, ",\"alti\":", &s.alti);
    proof {
        vstd::seq_lib::lemma_concat_associative(old(out)@, done, crate::json::opt_i64_field_bytes(",\"alti\":".spec_bytes(), s.alti));
        done = done + (crate::json::opt_i64_field_bytes(",\"alti\":".spec_bytes(), s.alti));
        assert(out@ == old(out)@ + done);
    }
    crate::json::push_str_bytes(out, ",\"rxnb\":");
    proof {
        vstd::seq_lib::lemma_concat_associative(old(out)@, done, ",\"rxnb\":".spec_bytes());
        done = done + (",\"rxnb\":".spec_bytes());
        assert(out@ == old(out)@ + done);
    }
    crate::json::push_u64_dec(out, s.rxnb);
    proof {
        vstd::seq_lib::lemma_concat_associative(old(out)@, done, dec_digits_of(s.rxnb as nat));
        done = done + (dec_digits_of(s.rxnb as nat));
        assert(out@ == old(out)@ + done);
    }
    crate::json::push_str_bytes(out, ",\"rxok\":");
    proof {
        vstd::seq_lib::lemma_concat_associative(old(out)@, done, ",\"rxok\":".spec_bytes());
        done = done + (",\"rxok\":".spec_bytes());
        assert(out@ == old(out)@ + done);
    }
    crate::json::push_u64_dec(out, s.rxok);
    proof {
        vstd::seq_lib::lemma_concat_associative(old(out)@, done, dec_digits_of(s.rxok as nat));
        done = done + (dec_digits_of(s.rxok as nat));
        assert(out@ == old(out)@ + done);
    }
    crate::json::push_str_bytes(out, ",\"rxfw\":");
    proof {
        vstd::seq_lib::lemma_concat_associative(old(out)@, done, ",\"rxfw\":".spec_bytes());
        done = done + (",\"rxfw\":".spec_bytes());
        assert(out@ == old(out)@ + done);
    }
    crate::json::push_u64_dec(out, s.rxfw);
    proof {
        vstd::seq_lib::lemma_concat_associative(old(out)@, done, dec_digits_of(s.rxfw as nat));
        done = done + (dec_digits_of(s.rxfw as nat));
        assert(out@ == old(out)@ + done);
    }
    crate::json::push_str_bytes(out, ",\"ackr\":");
    proof {
        vstd::seq_lib::lemma_concat_associative(old(out)@, done, ",\"ackr\":".spec_bytes());
        done = done + (",\"ackr\":".spec_bytes());
        assert(out@ == old(out)@ + done);
    }
    crate::json::push_num_or_null(out, &s.ackr);
    proof {
        vstd::seq_lib::lemma_concat_associative(old(out)@, done, crate::json::num_or_null_bytes(crate::json::opt_num_view(s.ackr)));
        done = done + (crate::json::num_or_null_bytes(crate::json::opt_num_view(s.ackr)));
        assert(out@ == old(out)@ + done);
    }
    crate::json::push_str_bytes(out, ",\"dwnb\":");
    proof {
        vstd::seq_lib::lemma_concat_associative(old(out)@, done, ",\"dwnb\":".spec_bytes());
        done = done + (",\"dwnb\":".spec_bytes());
        assert(out@ == old(out)@ + done);
    }
    crate::json::push_u64_dec(out, s.dwnb);
    proof {
        vstd::seq_lib::lemma_concat_associative(old(out)@, done, dec_digits_of(s.dwnb as nat));
        done = done + (dec_digits_of(s.dwnb as nat));
        assert(out@ == old(out)@ + done);
    }
    crate::json::push_str_bytes(out, ",\"txnb\":");
    proof {
        vstd::seq_lib::lemma_concat_associative(old(out)@, done, ",\"txnb\":".spec_bytes());
        done = done + (",\"txnb\":".spec_bytes());
        assert(out@ == old(out)@ + done);
    }
    crate::json::push_u64_dec(out, s.txnb);
    proof {
        vstd::seq_lib::lemma_concat_associative(old(out)@, done, dec_digits_of(s.txnb as nat));
        done = done + (dec_digits_of(s.txnb as nat));
        assert(out@ == old(out)@ + done);
    }
    crate::json::push_str_bytes(out, ",\"temp\":");
    proof {
        vstd::seq_lib::lemma_concat_associative(old(out)@, done, ",\"temp\":".spec_bytes());
        done = done + (",\"temp\":".spec_bytes());
        assert(out@ == old(out)@ + done);
    }
    crate::json::push_num_or_null(out, &s.temp);
    proof {
        vstd::seq_lib::lemma_concat_associative(old(out)@, done, crate::json::num_or_null_bytes(crate::json::opt_num_view(s.temp)));
        done = done + (crate::json::num_or_null_bytes(crate::json::opt_num_view(s.temp)));
        assert(out@ == old(out)@ + done);
    }
    crate::json::push_str_bytes(out, "}");
    proof {
        vstd::seq_lib::lemma_concat_associative(old(out)@, done, "}".spec_bytes());
        done = done + ("}".spec_bytes());
        assert(out@ == old(out)@ + done);
    }
    proof {
        assert(done == stat_bytes(*s));
    }
}

/// The canonical body text: the descriptor list and the telemetry, each only
/// when present.
pub open spec fn body_bytes(d: Data) -> Seq<u8> {
    "{".spec_bytes() + (match d.rxpk {
        Some(l) => "\"rxpk\":[".spec_bytes() + rxpk_list_bytes(l@) + "]".spec_bytes() + (
        match d.stat {
            Some(_) => ",".spec_bytes(),
            None => Seq::<u8>::empty(),
        }),
        None => Seq::<u8>::empty(),
    }) + (match d.stat {
        Some(s) => "\"stat\":".spec_bytes() + stat_bytes(s),
        None => Seq::<u8>::empty(),
    }) + "}".spec_bytes()
}

/// Writes a body.
#[verifier::rlimit(100)]
pub fn push_body(d: &Data, out: &mut Vec<u8>)
    ensures
        final(out)@ == old(out)@ + body_bytes(*d),
{
    crate::json::push_str_bytes(out, "{");
    let ghost mut done: Seq<u8> = "{".spec_bytes();
    proof {
        assert(out@ == old(out)@ + done);
    }
    if let Some(l) = &d.rxpk {
        crate::json::push_str_bytes(out, "\"rxpk\":[");
        proof {
            vstd::seq_lib::lemma_concat_associative(old(out)@, done, "\"rxpk\":[".spec_bytes());
            done = done + "\"rxpk\":[".spec_bytes();
            assert(out@ == old(out)@ + done);
        }
        push_rxpk_list(l, out);
        proof {
            vstd::seq_lib::lemma_concat_associative(old(out)@, done, rxpk_list_bytes(l@));
            done = done + rxpk_list_bytes(l@);
            assert(out@ == old(out)@ + done);
        }
        crate::json::push_str_bytes(out, "]");
        proof {
            vstd::seq_lib::lemma_concat_associative(old(out)@, done, "]".spec_bytes());
            done = done + "]".spec_bytes();
            assert(out@ == old(out)@ + done);
        }
        if d.stat.is_some() {
            crate::json::push_str_bytes(out, ",");
            proof {
                vstd::seq_lib::lemma_concat_associative(old(out)@, done, ",".spec_bytes());
                done = done + ",".spec_bytes();
                assert(out@ == old(out)@ + done);
            }
        }
    }
    if let Some(st) = &d.stat {
        crate::json::push_str_bytes(out, "\"stat\":");
        proof {
            vstd::seq_lib::lemma_concat_associative(old(out)@, done, "\"stat\":".spec_bytes());
            done = done + "\"stat\":".spec_bytes();
            assert(out@ == old(out)@ + done);
        }
        push_stat(st, out);
        proof {
            vstd::seq_lib::lemma_concat_associative(old(out)@, done, stat_bytes(*st));
            done = done + stat_bytes(*st);
            assert(out@ == old(out)@ + done);
        }
    }
    crate::json::push_str_bytes(out, "}");
    proof {
        vstd::seq_lib::lemma_concat_associative(old(out)@, done, "}".spec_bytes());
        done = done + "}".spec_bytes();
        assert(out@ == old(out)@ + done);
        assert(done =~= body_bytes(*d));
    }
}

// ---------------------------------------------------------------------------
// What a descriptor reports
// ---------------------------------------------------------------------------
/// The greatest channel RSSI at or above a running value, across antenna
/// records.
pub open spec fn spec_max_rssic(l: Seq<RSig>, acc: int) -> int
    decreases l.len(),
{
    if l.len() == 0 {
        acc
    } else {
        spec_max_rssic(
            l.skip(1),
            if l[0].rssic > acc {
                l[0].rssic as int
            } else {
                acc
            },
        )
    }
}

/// The strongest signal RSSI across antenna records that report one.
pub open spec fn spec_max_rssis(l: Seq<RSig>, acc: Option<i32>) -> Option<i32>
    decreases l.len(),
{
    if l.len() == 0 {
        acc
    } else {
        spec_max_rssis(
            l.skip(1),
            match l[0].rssis {
                Some(v) => match acc {
                    Some(a) => if v > a {
                        Some(v)
                    } else {
                        Some(a)
                    },
                    None => Some(v),
                },
                None => acc,
            },
        )
    }
}

/// The greatest SNR text across antenna records, folded with the numeric
/// order of the tokens.
pub open spec fn spec_max_lsnr(l: Seq<RSig>, cur: Seq<u8>) -> Seq<u8>
    decreases l.len(),
{
    if l.len() == 0 {
        cur
    } else {
        spec_max_lsnr(
            l.skip(1),
            if crate::json::num_lt(cur, l[0].lsnr@) {
                l[0].lsnr@
            } else {
                cur
            },
        )
    }
}

impl RxPk {
    /// The SNR of the frame: the flat shape's own value, or the greatest
    /// value across antenna records, compared numerically. A record list
    /// with no antennas reports the floor value of -150 dB, which no real
    /// antenna reaches.
    pub fn snr(&self) -> (r: JsonNum)
        ensures
            match self {
                RxPk::V1(p) => r@ == p.lsnr@,
                RxPk::V2(p) => if p.rsig@.len() == 0 {
                    r@ == dec_text_of_int(-150)
                } else {
                    r@ == spec_max_lsnr(p.rsig@.skip(1), p.rsig@[0].lsnr@)
                },
            },
    {
        match self {
            RxPk::V1(p) => p.lsnr.cloned(),
            RxPk::V2(p) => {
                if p.rsig.len() == 0 {
                    return JsonNum::from_i64(-150);
                }
                let mut best = p.rsig[0].lsnr.cloned();
                let mut i: usize = 1;
                while i < p.rsig.len()
                    invariant
                        1 <= i <= p.rsig@.len(),
                        spec_max_lsnr(p.rsig@.skip(1), p.rsig@[0].lsnr@) == spec_max_lsnr(
                            p.rsig@.skip(i as int),
                            best@,
                        ),
                    decreases p.rsig@.len() - i,
                {
                    let ghost rest = p.rsig@.skip(i as int);
                    if best.lt(&p.rsig[i].lsnr) {
                        best = p.rsig[i].lsnr.cloned();
                    }
                    proof {
                        assert(rest[0] == p.rsig@[i as int]);
                        assert(rest.skip(1) =~= p.rsig@.skip(i + 1));
                    }
                    i += 1;
                }
                proof {
                    assert(p.rsig@.skip(p.rsig@.len() as int) =~= Seq::<RSig>::empty());
                }
                best
            },
        }
    }

    /// The channel RSSI: the flat shape's own value, or the greatest value
    /// across antenna records. A record list with no antennas reports the
    /// floor value of -150 dBm.
    pub fn channel_rssi(&self) -> (r: i32)
        ensures
            match self {
                RxPk::V1(p) => r == p.rssi,
                RxPk::V2(p) => if p.rsig@.len() == 0 {
                    r == -150i32
                } else {
                    r as int == spec_max_rssic(p.rsig@.skip(1), p.rsig@[0].rssic as int)
                },
            },
    {
        match self {
            RxPk::V1(p) => p.rssi,
            RxPk::V2(p) => {
                if p.rsig.len() == 0 {
                    return -150;
                }
                let mut acc: i32 = p.rsig[0].rssic;
                let mut i: usize = 1;
                while i < p.rsig.len()
                    invariant
                        1 <= i <= p.rsig@.len(),
                        spec_max_rssic(p.rsig@.skip(1), p.rsig@[0].rssic as int) == spec_max_rssic(
                            p.rsig@.skip(i as int),
                            acc as int,
                        ),
                    decreases p.rsig@.len() - i,
                {
                    let ghost rest = p.rsig@.skip(i as int);
                    if p.rsig[i].rssic > acc {
                        acc = p.rsig[i].rssic;
                    }
                    proof {
                        assert(rest[0] == p.rsig@[i as int]);
                        assert(rest.skip(1) =~= p.rsig@.skip(i + 1));
                    }
                    i += 1;
                }
                proof {
                    assert(p.rsig@.skip(p.rsig@.len() as int) =~= Seq::<RSig>::empty());
                }
                acc
            },
        }
    }

    /// The signal RSSI, where any antenna reported one.
    pub fn signal_rssi(&self) -> (r: Option<i32>)
        ensures
            match self {
                RxPk::V1(p) => r == p.rssis,
                RxPk::V2(p) => r == spec_max_rssis(p.rsig@, None),
            },
    {
        match self {
            RxPk::V1(p) => p.rssis,
            RxPk::V2(p) => {
                let mut acc: Option<i32> = None;
                let mut i: usize = 0;
                proof {
                    assert(p.rsig@.skip(0) =~= p.rsig@);
                }
                while i < p.rsig.len()
                    invariant
                        i <= p.rsig@.len(),
                        spec_max_rssis(p.rsig@, None) == spec_max_rssis(
                            p.rsig@.skip(i as int),
                            acc,
                        ),
                    decreases p.rsig@.len() - i,
                {
                    let ghost rest = p.rsig@.skip(i as int);
                    if let Some(v) = p.rsig[i].rssis {
                        acc = match acc {
                            Some(a) => if v > a {
                                Some(v)
                            } else {
                                Some(a)
                            },
                            None => Some(v),
                        };
                    }
                    proof {
                        assert(rest.skip(1) =~= p.rsig@.skip(i + 1));
                    }
                    i += 1;
                }
                acc
            },
        }
    }

    /// The center frequency text.
    pub fn frequency(&self) -> (r: JsonNum)
        ensures
            r@ == (match self {
                RxPk::V1(p) => p.freq@,
                RxPk::V2(p) => p.freq@,
            }),
    {
        match self {
            RxPk::V1(p) => p.freq.cloned(),
            RxPk::V2(p) => p.freq.cloned(),
        }
    }

    /// The decoded payload.
    pub fn data(&self) -> (r: &Vec<u8>)
        ensures
            r == (match self {
                RxPk::V1(p) => &p.data,
                RxPk::V2(p) => &p.data,
            }),
    {
        match self {
            RxPk::V1(p) => &p.data,
            RxPk::V2(p) => &p.data,
        }
    }

    /// The concentrator timestamp.
    pub fn timestamp(&self) -> (r: u32)
        ensures
            r == (match self {
                RxPk::V1(p) => p.tmst,
                RxPk::V2(p) => p.tmst,
            }),
    {
        match self {
            RxPk::V1(p) => p.tmst,
            RxPk::V2(p) => p.tmst,
        }
    }

    /// The wall-clock time string, if the forwarder sent one.
    pub fn time(&self) -> (r: &Option<Vec<u8>>)
        ensures
            r == (match self {
                RxPk::V1(p) => &p.time,
                RxPk::V2(p) => &p.time,
            }),
    {
        match self {
            RxPk::V1(p) => &p.time,
            RxPk::V2(p) => &p.time,
        }
    }

    /// The data rate.
    pub fn datarate(&self) -> (r: DataRate)
        ensures
            r == (match self {
                RxPk::V1(p) => p.datr,
                RxPk::V2(p) => p.datr,
            }),
    {
        match self {
            RxPk::V1(p) => p.datr,
            RxPk::V2(p) => p.datr,
        }
    }

    /// The CRC status.
    pub fn crc_status(&self) -> (r: CRC)
        ensures
            r == (match self {
                RxPk::V1(p) => p.stat,
                RxPk::V2(p) => p.stat,
            }),
    {
        match self {
            RxPk::V1(p) => p.stat,
            RxPk::V2(p) => p.stat,
        }
    }

    /// The coding rate; none when the wire said `OFF`.
    pub fn coding_rate(&self) -> (r: Option<CodingRate>)
        ensures
            r == (match self {
                RxPk::V1(p) => p.codr,
                RxPk::V2(p) => p.codr,
            }),
    {
        match self {
            RxPk::V1(p) => p.codr,
            RxPk::V2(p) => p.codr,
        }
    }
}

impl Packet {
    /// A frame carrying one received-frame descriptor; the token is stamped
    /// later, on send.
    pub fn from_rxpk(gateway_mac: MacAddress, rxpk: RxPk) -> (r: Packet)
        ensures
            r.random_token == 0,
            r.gateway_mac == gateway_mac,
            r.data.rxpk matches Some(l) && l@ =~= seq![rxpk],
            r.data.stat is None,
    {
        let mut list: Vec<RxPk> = Vec::new();
        list.push(rxpk);
        Packet { random_token: 0, gateway_mac, data: Data { rxpk: Some(list), stat: None } }
    }

    /// A frame carrying telemetry alone; the token is stamped later, on send.
    pub fn from_stat(gateway_mac: MacAddress, stat: Stat) -> (r: Packet)
        ensures
            r.random_token == 0,
            r.gateway_mac == gateway_mac,
            r.data.rxpk is None,
            r.data.stat == Some(stat),
    {
        Packet { random_token: 0, gateway_mac, data: Data { rxpk: None, stat: Some(stat) } }
    }

    /// A frame with a fresh random token and one fixed example descriptor, as
    /// a traffic generator would send.
    pub fn random() -> (r: Packet)
        ensures
            r.data.rxpk matches Some(l) && l@.len() == 1,
            r.data.stat is None,
    {
        let mut freq_text: Vec<u8> = Vec::new();
        crate::json::push_str_bytes(&mut freq_text, "902.8");
        let mut lsnr_text: Vec<u8> = Vec::new();
        crate::json::push_str_bytes(&mut lsnr_text, "-15.0");
        let mut payload: Vec<u8> = Vec::new();
        payload.push(0);
        payload.push(0);
        let rxpk = RxPk::V1(
            RxPkV1 {
                chan: 0,
                codr: Some(CodingRate::Cr4_5),
                data: payload,
                datr: DataRate::default(),
                freq: JsonNum::from_raw(freq_text),
                lsnr: JsonNum::from_raw(lsnr_text),
                modu: Modulation::LORA,
                rfch: 0,
                rssi: -80,
                rssis: Some(-80),
                size: 12,
                stat: CRC::OK,
                tmst: 12,
                time: None,
            },
        );
        let token: u16 = rand::random();
        let mut packet = Packet::from_rxpk(MacAddress::new(&[0u8; 8]), rxpk);
        packet.random_token = token;
        packet
    }

    /// The PUSH_ACK answering this frame: it echoes the token.
    pub fn into_ack(self) -> (r: push_ack::Packet)
        ensures
            r.random_token == self.random_token,
    {
        push_ack::Packet { random_token: self.random_token }
    }
}

impl SerializablePacket for Packet {
    open spec fn wire_bytes(&self) -> Seq<u8> {
        preamble_bytes(self.random_token) + seq![id_byte(Identifier::PushData)] + self.gateway_mac@
            + body_bytes(self.data)
    }

    fn serialize(&self, buffer: &mut Vec<u8>) -> (r: Result<u64, PktError>) {
        let mut frame: Vec<u8> = Vec::new();
        write_preamble(&mut frame, self.random_token);
        frame.push(Identifier::PushData.to_byte());
        crate::json::push_bytes(&mut frame, self.gateway_mac.bytes());
        push_body(&self.data, &mut frame);
        proof {
            assert(frame@ =~= self.wire_bytes());
        }
        write_into(buffer, &frame)
    }
}

} // verus!
