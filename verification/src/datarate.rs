//! The LoRa radio parameters that GWMP bodies carry as strings: spreading
//! factor and bandwidth (together the data rate, `"SF7BW500"`), the coding
//! rate (`"4/5"` .. `"4/8"` or `"OFF"`), and the modulation.

use vstd::prelude::*;

verus! {

use vstd::string::StringSliceAdditionalSpecFns;
use crate::json::bytes_are;

broadcast use vstd::string::is_ascii_spec_bytes;

#[derive(Debug, Clone, Copy, PartialEq, Eq, Structural)]
pub enum SpreadingFactor {
    SF5,
    SF6,
    SF7,
    SF8,
    SF9,
    SF10,
    SF11,
    SF12,
}

#[derive(Debug, Clone, Copy, PartialEq, Eq, Structural)]
pub enum Bandwidth {
    BW7,
    BW10,
    BW15,
    BW20,
    BW31,
    BW41,
    BW62,
    BW125,
    BW250,
    BW500,
}

#[derive(Debug, Clone, Copy, PartialEq, Eq, Structural)]
pub enum CodingRate {
    Cr4_5,
    Cr4_6,
    Cr4_7,
    Cr4_8,
}

#[derive(Debug, Clone, Copy, PartialEq, Eq, Structural)]
pub enum Modulation {
    LORA,
    FSK,
}

/// Why a data-rate string was rejected.
#[derive(Debug, Clone, Copy, PartialEq, Eq, Structural)]
pub enum ParseError {
    InvalidSpreadingFactor,
    InvalidBandwidth,
}

/// The wire text of a spreading factor.
pub open spec fn sf_bytes(sf: SpreadingFactor) -> Seq<u8> {
    match sf {
        SpreadingFactor::SF5 => "SF5".spec_bytes(),
        SpreadingFactor::SF6 => "SF6".spec_bytes(),
        SpreadingFactor::SF7 => "SF7".spec_bytes(),
        SpreadingFactor::SF8 => "SF8".spec_bytes(),
        SpreadingFactor::SF9 => "SF9".spec_bytes(),
        SpreadingFactor::SF10 => "SF10".spec_bytes(),
        SpreadingFactor::SF11 => "SF11".spec_bytes(),
        SpreadingFactor::SF12 => "SF12".spec_bytes(),
    }
}

/// The wire text of a bandwidth.
pub open spec fn bw_bytes(bw: Bandwidth) -> Seq<u8> {
    match bw {
        Bandwidth::BW7 => "BW7".spec_bytes(),
        Bandwidth::BW10 => "BW10".spec_bytes(),
        Bandwidth::BW15 => "BW15".spec_bytes(),
        Bandwidth::BW20 => "BW20".spec_bytes(),
        Bandwidth::BW31 => "BW31".spec_bytes(),
        Bandwidth::BW41 => "BW41".spec_bytes(),
        Bandwidth::BW62 => "BW62".spec_bytes(),
        Bandwidth::BW125 => "BW125".spec_bytes(),
        Bandwidth::BW250 => "BW250".spec_bytes(),
        Bandwidth::BW500 => "BW500".spec_bytes(),
    }
}

/// A spreading factor and a bandwidth, written `"SF{n}BW{m}"` on the wire.
#[derive(Debug, Clone, Copy, PartialEq, Eq, Structural)]
pub struct DataRate(pub SpreadingFactor, pub Bandwidth);

/// The wire text of a data rate.
pub open spec fn datr_bytes(dr: DataRate) -> Seq<u8> {
    sf_bytes(dr.0) + bw_bytes(dr.1)
}

/// The display text of a data rate, as characters.
pub open spec fn datr_chars(dr: DataRate) -> Seq<char> {
    let sf = match dr.0 {
        SpreadingFactor::SF5 => "SF5"@,
        SpreadingFactor::SF6 => "SF6"@,
        SpreadingFactor::SF7 => "SF7"@,
        SpreadingFactor::SF8 => "SF8"@,
        SpreadingFactor::SF9 => "SF9"@,
        SpreadingFactor::SF10 => "SF10"@,
        SpreadingFactor::SF11 => "SF11"@,
        SpreadingFactor::SF12 => "SF12"@,
    };
    let bw = match dr.1 {
        Bandwidth::BW7 => "BW7"@,
        Bandwidth::BW10 => "BW10"@,
        Bandwidth::BW15 => "BW15"@,
        Bandwidth::BW20 => "BW20"@,
        Bandwidth::BW31 => "BW31"@,
        Bandwidth::BW41 => "BW41"@,
        Bandwidth::BW62 => "BW62"@,
        Bandwidth::BW125 => "BW125"@,
        Bandwidth::BW250 => "BW250"@,
        Bandwidth::BW500 => "BW500"@,
    };
    sf + bw
}

/// What a spreading-factor token means.
pub open spec fn parse_sf(s: Seq<u8>) -> Option<SpreadingFactor> {
    if s == sf_bytes(SpreadingFactor::SF5) {
        Some(SpreadingFactor::SF5)
    } else if s == sf_bytes(SpreadingFactor::SF6) {
        Some(SpreadingFactor::SF6)
    } else if s == sf_bytes(SpreadingFactor::SF7) {
        Some(SpreadingFactor::SF7)
    } else if s == sf_bytes(SpreadingFactor::SF8) {
        Some(SpreadingFactor::SF8)
    } else if s == sf_bytes(SpreadingFactor::SF9) {
        Some(SpreadingFactor::SF9)
    } else if s == sf_bytes(SpreadingFactor::SF10) {
        Some(SpreadingFactor::SF10)
    } else if s == sf_bytes(SpreadingFactor::SF11) {
        Some(SpreadingFactor::SF11)
    } else if s == sf_bytes(SpreadingFactor::SF12) {
        Some(SpreadingFactor::SF12)
    } else {
        None
    }
}

/// What a bandwidth token means.
pub open spec fn parse_bw(s: Seq<u8>) -> Option<Bandwidth> {
    if s == bw_bytes(Bandwidth::BW7) {
        Some(Bandwidth::BW7)
    } else if s == bw_bytes(Bandwidth::BW10) {
        Some(Bandwidth::BW10)
    } else if s == bw_bytes(Bandwidth::BW15) {
        Some(Bandwidth::BW15)
    } else if s == bw_bytes(Bandwidth::BW20) {
        Some(Bandwidth::BW20)
    } else if s == bw_bytes(Bandwidth::BW31) {
        Some(Bandwidth::BW31)
    } else if s == bw_bytes(Bandwidth::BW41) {
        Some(Bandwidth::BW41)
    } else if s == bw_bytes(Bandwidth::BW62) {
        Some(Bandwidth::BW62)
    } else if s == bw_bytes(Bandwidth::BW125) {
        Some(Bandwidth::BW125)
    } else if s == bw_bytes(Bandwidth::BW250) {
        Some(Bandwidth::BW250)
    } else if s == bw_bytes(Bandwidth::BW500) {
        Some(Bandwidth::BW500)
    } else {
        None
    }
}

/// What a data-rate token means: the spreading factor runs up to the `B`
/// that opens the bandwidth, three or four letters, and the two halves are
/// read separately. Every spreading factor pairs with every bandwidth.
pub open spec fn parse_datr(s: Seq<u8>) -> Result<DataRate, ParseError> {
    if s.len() <= 3 {
        Err(ParseError::InvalidSpreadingFactor)
    } else {
        let cut = if s[3] == 66 {
            3int
        } else {
            4int
        };
        match parse_sf(s.subrange(0, cut)) {
            None => Err(ParseError::InvalidSpreadingFactor),
            Some(sf) => match parse_bw(s.subrange(cut, s.len() as int)) {
                None => Err(ParseError::InvalidBandwidth),
                Some(bw) => Ok(DataRate(sf, bw)),
            },
        }
    }
}

/// Reads a spreading-factor token.
fn sf_of_bytes(s: &[u8]) -> (r: Option<SpreadingFactor>)
    ensures
        r == parse_sf(s@),
{
    if bytes_are(s, "SF5") {
        Some(SpreadingFactor::SF5)
    } else if bytes_are(s, "SF6") {
        Some(SpreadingFactor::SF6)
    } else if bytes_are(s, "SF7") {
        Some(SpreadingFactor::SF7)
    } else if bytes_are(s, "SF8") {
        Some(SpreadingFactor::SF8)
    } else if bytes_are(s, "SF9") {
        Some(SpreadingFactor::SF9)
    } else if bytes_are(s, "SF10") {
        Some(SpreadingFactor::SF10)
    } else if bytes_are(s, "SF11") {
        Some(SpreadingFactor::SF11)
    } else if bytes_are(s, "SF12") {
        Some(SpreadingFactor::SF12)
    } else {
        None
    }
}

/// Reads a bandwidth token.
fn bw_of_bytes(s: &[u8]) -> (r: Option<Bandwidth>)
    ensures
        r == parse_bw(s@),
{
    if bytes_are(s, "BW7") {
        Some(Bandwidth::BW7)
    } else if bytes_are(s, "BW10") {
        Some(Bandwidth::BW10)
    } else if bytes_are(s, "BW15") {
        Some(Bandwidth::BW15)
    } else if bytes_are(s, "BW20") {
        Some(Bandwidth::BW20)
    } else if bytes_are(s, "BW31") {
        Some(Bandwidth::BW31)
    } else if bytes_are(s, "BW41") {
        Some(Bandwidth::BW41)
    } else if bytes_are(s, "BW62") {
        Some(Bandwidth::BW62)
    } else if bytes_are(s, "BW125") {
        Some(Bandwidth::BW125)
    } else if bytes_are(s, "BW250") {
        Some(Bandwidth::BW250)
    } else if bytes_are(s, "BW500") {
        Some(Bandwidth::BW500)
    } else {
        None
    }
}

impl DataRate {
    pub fn new(sf: SpreadingFactor, bw: Bandwidth) -> (r: DataRate)
        ensures
            r == DataRate(sf, bw),
    {
        DataRate(sf, bw)
    }

    pub fn spreading_factor(&self) -> (r: SpreadingFactor)
        ensures
            r == self.0,
    {
        self.0
    }

    pub fn bandwidth(&self) -> (r: Bandwidth)
        ensures
            r == self.1,
    {
        self.1
    }

    /// Reads the wire text of a data rate.
    pub fn from_bytes(s: &[u8]) -> (r: Result<DataRate, ParseError>)
        ensures
            r == parse_datr(s@),
    {
        if s.len() <= 3 {
            return Err(ParseError::InvalidSpreadingFactor);
        }
        let cut: usize = if s[3] == 66 {
            3
        } else {
            4
        };
        let sf_part = vstd::slice::slice_subrange(s, 0, cut);
        let bw_part = vstd::slice::slice_subrange(s, cut, s.len());
        match sf_of_bytes(sf_part) {
            None => Err(ParseError::InvalidSpreadingFactor),
            Some(sf) => match bw_of_bytes(bw_part) {
                None => Err(ParseError::InvalidBandwidth),
                Some(bw) => Ok(DataRate(sf, bw)),
            },
        }
    }

    /// Reads a data rate from string text.
    pub fn from_str(s: &str) -> (r: Result<DataRate, ParseError>)
        ensures
            r == parse_datr(s.spec_bytes()),
    {
        DataRate::from_bytes(s.as_bytes())
    }

    /// Writes the wire text of this data rate onto a buffer.
    pub fn push_text(&self, out: &mut Vec<u8>)
        ensures
            final(out)@ == old(out)@ + datr_bytes(*self),
    {
        let sf: &str = match self.0 {
            SpreadingFactor::SF5 => "SF5",
            SpreadingFactor::SF6 => "SF6",
            SpreadingFactor::SF7 => "SF7",
            SpreadingFactor::SF8 => "SF8",
            SpreadingFactor::SF9 => "SF9",
            SpreadingFactor::SF10 => "SF10",
            SpreadingFactor::SF11 => "SF11",
            SpreadingFactor::SF12 => "SF12",
        };
        let bw: &str = match self.1 {
            Bandwidth::BW7 => "BW7",
            Bandwidth::BW10 => "BW10",
            Bandwidth::BW15 => "BW15",
            Bandwidth::BW20 => "BW20",
            Bandwidth::BW31 => "BW31",
            Bandwidth::BW41 => "BW41",
            Bandwidth::BW62 => "BW62",
            Bandwidth::BW125 => "BW125",
            Bandwidth::BW250 => "BW250",
            Bandwidth::BW500 => "BW500",
        };
        crate::json::push_str_bytes(out, sf);
        crate::json::push_str_bytes(out, bw);
    }

    /// The display text, `"SF{n}BW{m}"`.
    pub fn to_string(&self) -> (r: String)
        ensures
            r@ == datr_chars(*self),
    {
        let sf: &str = match self.0 {
            SpreadingFactor::SF5 => "SF5",
            SpreadingFactor::SF6 => "SF6",
            SpreadingFactor::SF7 => "SF7",
            SpreadingFactor::SF8 => "SF8",
            SpreadingFactor::SF9 => "SF9",
            SpreadingFactor::SF10 => "SF10",
            SpreadingFactor::SF11 => "SF11",
            SpreadingFactor::SF12 => "SF12",
        };
        let bw: &str = match self.1 {
            Bandwidth::BW7 => "BW7",
            Bandwidth::BW10 => "BW10",
            Bandwidth::BW15 => "BW15",
            Bandwidth::BW20 => "BW20",
            Bandwidth::BW31 => "BW31",
            Bandwidth::BW41 => "BW41",
            Bandwidth::BW62 => "BW62",
            Bandwidth::BW125 => "BW125",
            Bandwidth::BW250 => "BW250",
            Bandwidth::BW500 => "BW500",
        };
        let mut s = String::from_str(sf);
        s.append(bw);
        s
    }
}

impl Default for DataRate {
    /// The default of reference packet forwarders: SF7 at 250 kHz.
    fn default() -> (r: DataRate)
        ensures
            r == DataRate(SpreadingFactor::SF7, Bandwidth::BW250),
    {
        DataRate(SpreadingFactor::SF7, Bandwidth::BW250)
    }
}

/// The wire word of a coding rate; `"OFF"` stands for none.
pub open spec fn codr_bytes(c: Option<CodingRate>) -> Seq<u8> {
    match c {
        None => "OFF".spec_bytes(),
        Some(CodingRate::Cr4_5) => "4/5".spec_bytes(),
        Some(CodingRate::Cr4_6) => "4/6".spec_bytes(),
        Some(CodingRate::Cr4_7) => "4/7".spec_bytes(),
        Some(CodingRate::Cr4_8) => "4/8".spec_bytes(),
    }
}

/// What a coding-rate word means; the outer option is the read itself.
pub open spec fn parse_codr(s: Seq<u8>) -> Option<Option<CodingRate>> {
    if s == codr_bytes(None) {
        Some(None)
    } else if s == codr_bytes(Some(CodingRate::Cr4_5)) {
        Some(Some(CodingRate::Cr4_5))
    } else if s == codr_bytes(Some(CodingRate::Cr4_6)) {
        Some(Some(CodingRate::Cr4_6))
    } else if s == codr_bytes(Some(CodingRate::Cr4_7)) {
        Some(Some(CodingRate::Cr4_7))
    } else if s == codr_bytes(Some(CodingRate::Cr4_8)) {
        Some(Some(CodingRate::Cr4_8))
    } else {
        None
    }
}

/// Reads a coding-rate word.
pub fn codr_of_bytes(s: &[u8]) -> (r: Option<Option<CodingRate>>)
    ensures
        r == parse_codr(s@),
{
    if bytes_are(s, "OFF") {
        Some(None)
    } else if bytes_are(s, "4/5") {
        Some(Some(CodingRate::Cr4_5))
    } else if bytes_are(s, "4/6") {
        Some(Some(CodingRate::Cr4_6))
    } else if bytes_are(s, "4/7") {
        Some(Some(CodingRate::Cr4_7))
    } else if bytes_are(s, "4/8") {
        Some(Some(CodingRate::Cr4_8))
    } else {
        None
    }
}

/// Writes a coding-rate word.
pub fn push_codr(c: &Option<CodingRate>, out: &mut Vec<u8>)
    ensures
        final(out)@ == old(out)@ + codr_bytes(*c),
{
    let s: &str = match c {
        None => "OFF",
        Some(CodingRate::Cr4_5) => "4/5",
        Some(CodingRate::Cr4_6) => "4/6",
        Some(CodingRate::Cr4_7) => "4/7",
        Some(CodingRate::Cr4_8) => "4/8",
    };
    crate::json::push_str_bytes(out, s);
}

/// The wire word of a modulation.
pub open spec fn modu_bytes(m: Modulation) -> Seq<u8> {
    match m {
        Modulation::LORA => "LORA".spec_bytes(),
        Modulation::FSK => "FSK".spec_bytes(),
    }
}

/// What a modulation word means.
pub open spec fn parse_modu(s: Seq<u8>) -> Option<Modulation> {
    if s == modu_bytes(Modulation::LORA) {
        Some(Modulation::LORA)
    } else if s == modu_bytes(Modulation::FSK) {
        Some(Modulation::FSK)
    } else {
        None
    }
}

/// Reads a modulation word.
pub fn modu_of_bytes(s: &[u8]) -> (r: Option<Modulation>)
    ensures
        r == parse_modu(s@),
{
    if bytes_are(s, "LORA") {
        Some(Modulation::LORA)
    } else if bytes_are(s, "FSK") {
        Some(Modulation::FSK)
    } else {
        None
    }
}

/// Writes a modulation word.
pub fn push_modu(m: &Modulation, out: &mut Vec<u8>)
    ensures
        final(out)@ == old(out)@ + modu_bytes(*m),
{
    let s: &str = match m {
        Modulation::LORA => "LORA",
        Modulation::FSK => "FSK",
    };
    crate::json::push_str_bytes(out, s);
}

/// Reading back the written text gives the data rate again, for every
/// spreading factor paired with every bandwidth.
pub proof fn lemma_datr_round_trip(dr: DataRate)
    ensures
        parse_datr(datr_bytes(dr)) == Ok::<DataRate, ParseError>(dr),
{
    reveal_strlit("SF5");
    reveal_strlit("SF6");
    reveal_strlit("SF7");
    reveal_strlit("SF8");
    reveal_strlit("SF9");
    reveal_strlit("SF10");
    reveal_strlit("SF11");
    reveal_strlit("SF12");
    reveal_strlit("BW7");
    reveal_strlit("BW10");
    reveal_strlit("BW15");
    reveal_strlit("BW20");
    reveal_strlit("BW31");
    reveal_strlit("BW41");
    reveal_strlit("BW62");
    reveal_strlit("BW125");
    reveal_strlit("BW250");
    reveal_strlit("BW500");
    assert(vstd::string::is_ascii("SF5"));
    assert(vstd::string::is_ascii("SF6"));
    assert(vstd::string::is_ascii("SF7"));
    assert(vstd::string::is_ascii("SF8"));
    assert(vstd::string::is_ascii("SF9"));
    assert(vstd::string::is_ascii("SF10"));
    assert(vstd::string::is_ascii("SF11"));
    assert(vstd::string::is_ascii("SF12"));
    assert(vstd::string::is_ascii("BW7"));
    assert(vstd::string::is_ascii("BW10"));
    assert(vstd::string::is_ascii("BW15"));
    assert(vstd::string::is_ascii("BW20"));
    assert(vstd::string::is_ascii("BW31"));
    assert(vstd::string::is_ascii("BW41"));
    assert(vstd::string::is_ascii("BW62"));
    assert(vstd::string::is_ascii("BW125"));
    assert(vstd::string::is_ascii("BW250"));
    assert(vstd::string::is_ascii("BW500"));
    assert("SF5".spec_bytes() =~= seq![83u8, 70u8, 53u8]);
    assert("SF6".spec_bytes() =~= seq![83u8, 70u8, 54u8]);
    assert("SF7".spec_bytes() =~= seq![83u8, 70u8, 55u8]);
    assert("SF8".spec_bytes() =~= seq![83u8, 70u8, 56u8]);
    assert("SF9".spec_bytes() =~= seq![83u8, 70u8, 57u8]);
    assert("SF10".spec_bytes() =~= seq![83u8, 70u8, 49u8, 48u8]);
    assert("SF11".spec_bytes() =~= seq![83u8, 70u8, 49u8, 49u8]);
    assert("SF12".spec_bytes() =~= seq![83u8, 70u8, 49u8, 50u8]);
    assert("BW7".spec_bytes() =~= seq![66u8, 87u8, 55u8]);
    assert("BW10".spec_bytes() =~= seq![66u8, 87u8, 49u8, 48u8]);
    assert("BW15".spec_bytes() =~= seq![66u8, 87u8, 49u8, 53u8]);
    assert("BW20".spec_bytes() =~= seq![66u8, 87u8, 50u8, 48u8]);
    assert("BW31".spec_bytes() =~= seq![66u8, 87u8, 51u8, 49u8]);
    assert("BW41".spec_bytes() =~= seq![66u8, 87u8, 52u8, 49u8]);
    assert("BW62".spec_bytes() =~= seq![66u8, 87u8, 54u8, 50u8]);
    assert("BW125".spec_bytes() =~= seq![66u8, 87u8, 49u8, 50u8, 53u8]);
    assert("BW250".spec_bytes() =~= seq![66u8, 87u8, 50u8, 53u8, 48u8]);
    assert("BW500".spec_bytes() =~= seq![66u8, 87u8, 53u8, 48u8, 48u8]);
    let s = datr_bytes(dr);
    let cut = sf_bytes(dr.0).len() as int;
    assert(s.subrange(0, cut) =~= sf_bytes(dr.0));
    assert(s.subrange(cut, s.len() as int) =~= bw_bytes(dr.1));
    assert(parse_sf(sf_bytes(dr.0)) == Some(dr.0));
    assert(parse_bw(bw_bytes(dr.1)) == Some(dr.1));
}

} // verus!
