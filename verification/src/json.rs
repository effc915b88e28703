//! A small JSON model: values are parsed from bytes into a tree and written
//! back as canonical bytes (no added whitespace). Numbers keep their decimal
//! text exactly as it stood on the wire, so that re-serializing a parsed
//! body reproduces every numeric token bit for bit.

use vstd::prelude::*;

verus! {

use vstd::string::StringSliceAdditionalSpecFns;

broadcast use vstd::string::is_ascii_spec_bytes;

/// Appends a byte slice to a buffer.
pub fn push_bytes(out: &mut Vec<u8>, s: &[u8])
    ensures
        final(out)@ == old(out)@ + s@,
{
    let mut i: usize = 0;
    while i < s.len()
        invariant
            i <= s.len(),
            out@ == old(out)@ + s@.subrange(0, i as int),
        decreases s.len() - i,
    {
        out.push(s[i]);
        i += 1;
        proof {
            assert(s@.subrange(0, i as int) =~= s@.subrange(0, i - 1) + seq![s@[i - 1]]);
            assert(out@ =~= old(out)@ + s@.subrange(0, i as int));
        }
    }
    proof {
        assert(s@.subrange(0, s@.len() as int) =~= s@);
    }
}

/// Appends the UTF-8 bytes of a string slice to a buffer.
pub fn push_str_bytes(out: &mut Vec<u8>, s: &str)
    ensures
        final(out)@ == old(out)@ + s.spec_bytes(),
{
    push_bytes(out, s.as_bytes());
}

/// Whether two byte slices hold the same bytes.
pub fn slice_eq(a: &[u8], b: &[u8]) -> (r: bool)
    ensures
        r == (a@ == b@),
{
    if a.len() != b.len() {
        proof {
            assert(a@ != b@);
        }
        return false;
    }
    let mut i: usize = 0;
    while i < a.len()
        invariant
            i <= a.len(),
            a@.len() == b@.len(),
            forall|j: int| 0 <= j < i ==> a@[j] == b@[j],
        decreases a.len() - i,
    {
        if a[i] != b[i] {
            return false;
        }
        i += 1;
    }
    proof {
        assert(a@ =~= b@);
    }
    true
}

/// Whether a byte slice holds exactly the bytes of an ASCII literal.
pub fn bytes_are(a: &[u8], s: &str) -> (r: bool)
    ensures
        r == (a@ == s.spec_bytes()),
{
    slice_eq(a, s.as_bytes())
}

// ---------------------------------------------------------------------------
// Decimal number text
// ---------------------------------------------------------------------------

/// Whether every byte of `s` is an ASCII decimal digit.
pub open spec fn all_digits(s: Seq<u8>) -> bool {
    forall|i: int| 0 <= i < s.len() ==> 48 <= #[trigger] s[i] <= 57
}

/// The value of a sequence of decimal digit bytes.
pub open spec fn dec_value(s: Seq<u8>) -> int
    decreases s.len(),
{
    if s.len() == 0 {
        0
    } else {
        dec_value(s.drop_last()) * 10 + (s.last() - 48)
    }
}

/// The canonical decimal digits of a natural number.
pub open spec fn dec_digits_of(v: nat) -> Seq<u8>
    decreases v,
{
    if v < 10 {
        seq![(48 + v) as u8]
    } else {
        dec_digits_of(v / 10).push((48 + v % 10) as u8)
    }
}

/// Writing a number and reading it back is the identity.
pub proof fn lemma_dec_round_trip(v: nat)
    ensures
        dec_value(dec_digits_of(v)) == v,
        all_digits(dec_digits_of(v)),
        dec_digits_of(v).len() > 0,
        dec_digits_of(v)[0] != 48 || v < 10,
    decreases v,
{
    if v < 10 {
        let s = dec_digits_of(v);
        assert(s =~= seq![(48 + v) as u8]);
        assert(s.drop_last() =~= Seq::<u8>::empty());
        assert(dec_value(s.drop_last()) == 0);
        assert(dec_value(s) == v);
    } else {
        lemma_dec_round_trip(v / 10);
        assert(dec_digits_of(v).drop_last() =~= dec_digits_of(v / 10));
    }
}

/// Appends the canonical decimal digits of `v`.
pub fn push_u64_dec(out: &mut Vec<u8>, v: u64)
    ensures
        final(out)@ == old(out)@ + dec_digits_of(v as nat),
    decreases v,
{
    if v >= 10 {
        push_u64_dec(out, v / 10);
    }
    out.push(48 + (v % 10) as u8);
    proof {
        if v >= 10 {
            assert(out@ =~= old(out)@ + dec_digits_of(v as nat));
        } else {
            assert(out@ =~= old(out)@ + dec_digits_of(v as nat));
        }
    }
}

/// The canonical decimal text of a signed number: a minus sign for negative
/// values, then the digits of the magnitude.
pub open spec fn dec_text_of_int(v: int) -> Seq<u8> {
    if v < 0 {
        seq![45u8] + dec_digits_of((-v) as nat)
    } else {
        dec_digits_of(v as nat)
    }
}

/// Appends the canonical decimal text of a signed number.
pub fn push_i64_dec(out: &mut Vec<u8>, v: i64)
    ensures
        final(out)@ == old(out)@ + dec_text_of_int(v as int),
{
    if v < 0 {
        out.push(45);
        let m: u64 = (-(v as i128)) as u64;
        push_u64_dec(out, m);
        proof {
            assert(out@ =~= old(out)@ + dec_text_of_int(v as int));
        }
    } else {
        push_u64_dec(out, v as u64);
    }
}

/// The value of decimal digit text is never negative.
pub proof fn lemma_dec_value_nonneg(s: Seq<u8>)
    requires
        all_digits(s),
    ensures
        dec_value(s) >= 0,
    decreases s.len(),
{
    if s.len() > 0 {
        lemma_dec_value_nonneg(s.drop_last());
    }
}

/// What a numeric token means when read as a signed integer: digits, or a
/// minus sign followed by digits; anything else (a fraction, an exponent) has
/// no integer reading.
pub open spec fn int_text_value(s: Seq<u8>) -> Option<int> {
    if s.len() > 0 && all_digits(s) {
        Some(dec_value(s))
    } else if s.len() > 1 && s[0] == 45 && all_digits(s.skip(1)) {
        Some(-dec_value(s.skip(1)))
    } else {
        None
    }
}

/// Where the run of decimal digits beginning at `i` ends.
pub open spec fn digits_end(s: Seq<u8>, i: int) -> int
    decreases s.len() - i,
{
    if 0 <= i < s.len() && 48 <= s[i] <= 57 {
        digits_end(s, i + 1)
    } else {
        i
    }
}

/// Leading zeros of a whole part carry no value.
pub open spec fn strip_lead0(d: Seq<u8>) -> Seq<u8>
    decreases d.len(),
{
    if d.len() > 0 && d[0] == 48 {
        strip_lead0(d.skip(1))
    } else {
        d
    }
}

/// Trailing zeros of a fraction carry no value.
pub open spec fn strip_trail0(d: Seq<u8>) -> Seq<u8>
    decreases d.len(),
{
    if d.len() > 0 && d.last() == 48 {
        strip_trail0(d.drop_last())
    } else {
        d
    }
}

/// Digit-wise order: the first differing position decides; a proper prefix
/// comes before its extensions.
pub open spec fn lex_lt(a: Seq<u8>, b: Seq<u8>) -> bool
    decreases a.len() + b.len(),
{
    if b.len() == 0 {
        false
    } else if a.len() == 0 {
        true
    } else if a[0] != b[0] {
        a[0] < b[0]
    } else {
        lex_lt(a.skip(1), b.skip(1))
    }
}

/// Where a numeric token's whole part begins: after the sign, if any.
pub open spec fn num_int_start(s: Seq<u8>) -> int {
    if s.len() > 0 && s[0] == 45 {
        1
    } else {
        0
    }
}

/// The whole-part digits of a numeric token.
pub open spec fn num_int_digits(s: Seq<u8>) -> Seq<u8> {
    s.subrange(num_int_start(s), digits_end(s, num_int_start(s)))
}

/// The fraction digits of a numeric token, empty when it has none.
pub open spec fn num_frac_digits(s: Seq<u8>) -> Seq<u8> {
    let i1 = digits_end(s, num_int_start(s));
    if i1 < s.len() && s[i1] == 46 {
        s.subrange(i1 + 1, digits_end(s, i1 + 1))
    } else {
        Seq::empty()
    }
}

/// Whether a token denotes zero: no significant whole digits and no
/// significant fraction digits.
pub open spec fn num_is_zero(s: Seq<u8>) -> bool {
    strip_lead0(num_int_digits(s)).len() == 0 && strip_trail0(num_frac_digits(s)).len() == 0
}

/// Whether one magnitude is below another, over already-normalized parts:
/// whole parts compared as numbers (fewer significant digits is smaller,
/// and between equal lengths the first differing digit decides), equal
/// whole parts decided by the fractions positionally.
pub open spec fn mag_lt(ia: Seq<u8>, fa: Seq<u8>, ib: Seq<u8>, fb: Seq<u8>) -> bool {
    ||| ia.len() < ib.len()
    ||| (ia.len() == ib.len() && lex_lt(ia, ib))
    ||| (ia == ib && lex_lt(fa, fb))
}

/// The numeric order of two tokens, read by sign, whole part and fraction.
/// Negative values come first; zeros of either sign compare equal. An
/// exponent part, which no radio field of this protocol carries, is not
/// interpreted.
pub open spec fn num_lt(a: Seq<u8>, b: Seq<u8>) -> bool {
    let na = a.len() > 0 && a[0] == 45 && !num_is_zero(a);
    let nb = b.len() > 0 && b[0] == 45 && !num_is_zero(b);
    if na && !nb {
        true
    } else if !na && nb {
        false
    } else if !na && !nb {
        mag_lt(
            strip_lead0(num_int_digits(a)),
            strip_trail0(num_frac_digits(a)),
            strip_lead0(num_int_digits(b)),
            strip_trail0(num_frac_digits(b)),
        )
    } else {
        mag_lt(
            strip_lead0(num_int_digits(b)),
            strip_trail0(num_frac_digits(b)),
            strip_lead0(num_int_digits(a)),
            strip_trail0(num_frac_digits(a)),
        )
    }
}

/// Advances past leading zero digits.
fn skip_lead0(v: &Vec<u8>, a0: usize, a1: usize) -> (r: usize)
    requires
        a0 <= a1 <= v@.len(),
    ensures
        a0 <= r <= a1,
        strip_lead0(v@.subrange(a0 as int, a1 as int)) == v@.subrange(r as int, a1 as int),
{
    let mut a = a0;
    while a < a1 && v[a] == 48
        invariant
            a0 <= a <= a1,
            a1 <= v@.len(),
            strip_lead0(v@.subrange(a0 as int, a1 as int)) == strip_lead0(
                v@.subrange(a as int, a1 as int),
            ),
        decreases a1 - a,
    {
        proof {
            assert(v@.subrange(a as int, a1 as int)[0] == v@[a as int]);
            assert(v@.subrange(a as int, a1 as int).skip(1) =~= v@.subrange(a + 1, a1 as int));
        }
        a += 1;
    }
    proof {
        if a < a1 {
            assert(v@.subrange(a as int, a1 as int)[0] == v@[a as int]);
        }
    }
    a
}

/// Retreats past trailing zero digits.
fn skip_trail0(v: &Vec<u8>, f0: usize, f1: usize) -> (r: usize)
    requires
        f0 <= f1 <= v@.len(),
    ensures
        f0 <= r <= f1,
        strip_trail0(v@.subrange(f0 as int, f1 as int)) == v@.subrange(f0 as int, r as int),
{
    let mut f = f1;
    while f > f0 && v[f - 1] == 48
        invariant
            f0 <= f <= f1,
            f1 <= v@.len(),
            strip_trail0(v@.subrange(f0 as int, f1 as int)) == strip_trail0(
                v@.subrange(f0 as int, f as int),
            ),
        decreases f,
    {
        proof {
            assert(v@.subrange(f0 as int, f as int).last() == v@[f - 1]);
            assert(v@.subrange(f0 as int, f as int).drop_last() =~= v@.subrange(
                f0 as int,
                f - 1,
            ));
        }
        f -= 1;
    }
    proof {
        if f > f0 {
            assert(v@.subrange(f0 as int, f as int).last() == v@[f - 1]);
        }
    }
    f
}

/// Compares two equal-length digit runs: below, equal, or above.
fn cmp_ranges(a: &Vec<u8>, a0: usize, a1: usize, b: &Vec<u8>, b0: usize, b1: usize) -> (r: i8)
    requires
        a0 <= a1 <= a@.len(),
        b0 <= b1 <= b@.len(),
        a1 - a0 == b1 - b0,
    ensures
        (r == -1) == lex_lt(a@.subrange(a0 as int, a1 as int), b@.subrange(b0 as int, b1 as int)),
        (r == 1) == lex_lt(b@.subrange(b0 as int, b1 as int), a@.subrange(a0 as int, a1 as int)),
        (r == 0) == (a@.subrange(a0 as int, a1 as int) == b@.subrange(b0 as int, b1 as int)),
        -1 <= r <= 1,
{
    let mut k: usize = 0;
    while a0 + k < a1
        invariant
            a0 + k <= a1 <= a@.len(),
            b0 + k <= b1 <= b@.len(),
            a1 - a0 == b1 - b0,
            lex_lt(a@.subrange(a0 as int, a1 as int), b@.subrange(b0 as int, b1 as int)) == lex_lt(
                a@.subrange(a0 + k, a1 as int),
                b@.subrange(b0 + k, b1 as int),
            ),
            lex_lt(b@.subrange(b0 as int, b1 as int), a@.subrange(a0 as int, a1 as int)) == lex_lt(
                b@.subrange(b0 + k, b1 as int),
                a@.subrange(a0 + k, a1 as int),
            ),
            (a@.subrange(a0 as int, a1 as int) == b@.subrange(b0 as int, b1 as int)) == (
            a@.subrange(a0 + k, a1 as int) == b@.subrange(b0 + k, b1 as int)),
        decreases a1 - a0 - k,
    {
        let ca = a[a0 + k];
        let cb = b[b0 + k];
        proof {
            assert(a@.subrange(a0 + k, a1 as int)[0] == ca);
            assert(b@.subrange(b0 + k, b1 as int)[0] == cb);
            assert(a@.subrange(a0 + k, a1 as int).skip(1) =~= a@.subrange(a0 + k + 1, a1 as int));
            assert(b@.subrange(b0 + k, b1 as int).skip(1) =~= b@.subrange(b0 + k + 1, b1 as int));
        }
        if ca < cb {
            return -1;
        }
        if cb < ca {
            return 1;
        }
        proof {
            let av = a@.subrange(a0 + k, a1 as int);
            let bv = b@.subrange(b0 + k, b1 as int);
            assert((av == bv) == (av.skip(1) == bv.skip(1))) by {
                if av.skip(1) == bv.skip(1) {
                    assert forall|i: int| 0 <= i < av.len() implies av[i] == bv[i] by {
                        if i > 0 {
                            assert(av[i] == av.skip(1)[i - 1]);
                            assert(bv[i] == bv.skip(1)[i - 1]);
                        }
                    }
                    assert(av =~= bv);
                }
            }
        }
        k += 1;
    }
    proof {
        assert(a@.subrange(a0 + k, a1 as int) =~= Seq::<u8>::empty());
        assert(b@.subrange(b0 + k, b1 as int) =~= Seq::<u8>::empty());
    }
    0
}

/// Compares two digit runs of any lengths lexicographically.
fn lex_lt_ranges(a: &Vec<u8>, a0: usize, a1: usize, b: &Vec<u8>, b0: usize, b1: usize) -> (r: bool)
    requires
        a0 <= a1 <= a@.len(),
        b0 <= b1 <= b@.len(),
    ensures
        r == lex_lt(a@.subrange(a0 as int, a1 as int), b@.subrange(b0 as int, b1 as int)),
{
    let mut k: usize = 0;
    while a0 + k < a1 && b0 + k < b1
        invariant
            a0 + k <= a1 <= a@.len(),
            b0 + k <= b1 <= b@.len(),
            lex_lt(a@.subrange(a0 as int, a1 as int), b@.subrange(b0 as int, b1 as int)) == lex_lt(
                a@.subrange(a0 + k, a1 as int),
                b@.subrange(b0 + k, b1 as int),
            ),
        decreases a1 - a0 - k,
    {
        let ca = a[a0 + k];
        let cb = b[b0 + k];
        proof {
            assert(a@.subrange(a0 + k, a1 as int)[0] == ca);
            assert(b@.subrange(b0 + k, b1 as int)[0] == cb);
            assert(a@.subrange(a0 + k, a1 as int).skip(1) =~= a@.subrange(a0 + k + 1, a1 as int));
            assert(b@.subrange(b0 + k, b1 as int).skip(1) =~= b@.subrange(b0 + k + 1, b1 as int));
        }
        if ca != cb {
            return ca < cb;
        }
        k += 1;
    }
    proof {
        if a0 + k >= a1 {
            assert(a@.subrange(a0 + k, a1 as int) =~= Seq::<u8>::empty());
        }
        if b0 + k >= b1 {
            assert(b@.subrange(b0 + k, b1 as int) =~= Seq::<u8>::empty());
        }
    }
    b0 + k < b1
}

/// Splits a numeric token into its sign and its normalized whole and
/// fraction digit ranges.
fn num_parts(v: &Vec<u8>) -> (r: (bool, usize, usize, usize, usize))
    ensures
        ({
            let (neg, is0, i1, f0, ft) = r;
            &&& neg == (v@.len() > 0 && v@[0] == 45)
            &&& is0 <= i1 <= v@.len()
            &&& f0 <= ft <= v@.len()
            &&& strip_lead0(num_int_digits(v@)) == v@.subrange(is0 as int, i1 as int)
            &&& strip_trail0(num_frac_digits(v@)) == v@.subrange(f0 as int, ft as int)
        }),
{
    let n = v.len();
    let neg = n > 0 && v[0] == 45;
    let i0: usize = if neg {
        1
    } else {
        0
    };
    let i1 = scan_digits(v, i0);
    let is0 = skip_lead0(v, i0, i1);
    proof {
        assert(num_int_digits(v@) == v@.subrange(i0 as int, i1 as int));
    }
    let frac = i1 < n && v[i1] == 46;
    let (f0, f1): (usize, usize) = if frac {
        let e = scan_digits(v, i1 + 1);
        (i1 + 1, e)
    } else {
        (i1, i1)
    };
    let ft = skip_trail0(v, f0, f1);
    proof {
        if frac {
            assert(num_frac_digits(v@) == v@.subrange(f0 as int, f1 as int));
        } else {
            assert(num_frac_digits(v@) =~= v@.subrange(f0 as int, f1 as int));
        }
    }
    (neg, is0, i1, f0, ft)
}

/// Compares two magnitudes given as normalized whole and fraction ranges.
fn mag_lt_ranges(
    a: &Vec<u8>,
    ai0: usize,
    ai1: usize,
    af0: usize,
    af1: usize,
    b: &Vec<u8>,
    bi0: usize,
    bi1: usize,
    bf0: usize,
    bf1: usize,
) -> (r: bool)
    requires
        ai0 <= ai1 <= a@.len(),
        af0 <= af1 <= a@.len(),
        bi0 <= bi1 <= b@.len(),
        bf0 <= bf1 <= b@.len(),
    ensures
        r == mag_lt(
            a@.subrange(ai0 as int, ai1 as int),
            a@.subrange(af0 as int, af1 as int),
            b@.subrange(bi0 as int, bi1 as int),
            b@.subrange(bf0 as int, bf1 as int),
        ),
{
    let alen = ai1 - ai0;
    let blen = bi1 - bi0;
    if alen < blen {
        return true;
    }
    if alen > blen {
        return false;
    }
    let c = cmp_ranges(a, ai0, ai1, b, bi0, bi1);
    if c == -1 {
        true
    } else if c == 1 {
        false
    } else {
        lex_lt_ranges(a, af0, af1, b, bf0, bf1)
    }
}

/// Whether text forms one JSON numeric token: an optional minus sign, an
/// integer part, then an optional fraction and an optional exponent.
pub open spec fn is_number_text(s: Seq<u8>) -> bool {
    let i0: int = if s.len() > 0 && s[0] == 45 {
        1
    } else {
        0
    };
    let i1 = digits_end(s, i0);
    let i2: int = if i1 < s.len() && s[i1] == 46 {
        digits_end(s, i1 + 1)
    } else {
        i1
    };
    let i3: int = if i2 < s.len() && (s[i2] == 101 || s[i2] == 69) {
        let ie: int = if i2 + 1 < s.len() && (s[i2 + 1] == 43 || s[i2 + 1] == 45) {
            i2 + 2
        } else {
            i2 + 1
        };
        if digits_end(s, ie) > ie {
            digits_end(s, ie)
        } else {
            -1
        }
    } else {
        i2
    };
    &&& i1 > i0
    &&& (i1 < s.len() && s[i1] == 46 ==> i2 > i1 + 1)
    &&& i3 == s.len()
}

/// Scans to the end of the digit run beginning at `i`.
fn scan_digits(s: &Vec<u8>, i: usize) -> (r: usize)
    requires
        i <= s@.len(),
    ensures
        r as int == digits_end(s@, i as int),
        i <= r <= s@.len(),
{
    let mut j = i;
    while j < s.len() && 48 <= s[j] && s[j] <= 57
        invariant
            i <= j <= s@.len(),
            digits_end(s@, i as int) == digits_end(s@, j as int),
        decreases s@.len() - j,
    {
        j += 1;
    }
    j
}

/// Why a JSON body was rejected.
#[derive(Debug, Clone, Copy, PartialEq, Eq, Structural)]
pub enum JsonError {
    /// The text ended inside a value.
    UnexpectedEnd,
    /// A byte that no JSON production allows at that point.
    UnexpectedByte,
    /// A backslash escape that JSON does not define, or a broken surrogate pair.
    InvalidEscape,
    /// A string held bytes that are not well-formed UTF-8.
    Utf8,
    /// A malformed numeric token.
    BadNumber,
    /// Bytes after the end of the top-level value.
    TrailingData,
    /// A body whose top level is not the object the frame calls for.
    ExpectedObject,
    /// A required field is absent.
    MissingField,
    /// A field holds a value of the wrong type or outside its range.
    BadField,
}

/// A JSON number, kept as its exact decimal text.
#[derive(Debug, Clone, PartialEq, Eq)]
pub struct JsonNum {
    text: Vec<u8>,
}

impl View for JsonNum {
    type V = Seq<u8>;

    closed spec fn view(&self) -> Seq<u8> {
        self.text@
    }
}

/// Reads decimal digits from `s[start..]`, refusing any non-digit.
fn dec_of_digits(s: &Vec<u8>, start: usize) -> (r: Option<u64>)
    requires
        start <= s@.len(),
    ensures
        match r {
            Some(v) => {
                &&& all_digits(s@.skip(start as int))
                &&& s@.len() > start
                &&& v as int == dec_value(s@.skip(start as int))
            },
            None => !(all_digits(s@.skip(start as int)) && s@.len() > start && dec_value(
                s@.skip(start as int),
            ) <= u64::MAX),
        },
{
    let ghost whole = s@.skip(start as int);
    if start == s.len() {
        return None;
    }
    let mut i: usize = start;
    let mut acc: u64 = 0;
    let mut fits: bool = true;
    while i < s.len()
        invariant
            start <= i <= s@.len(),
            start < s@.len(),
            whole == s@.skip(start as int),
            all_digits(s@.subrange(start as int, i as int)),
            fits ==> acc as int == dec_value(s@.subrange(start as int, i as int)),
            !fits ==> dec_value(s@.subrange(start as int, i as int)) > u64::MAX,
        decreases s@.len() - i,
    {
        let ghost pre = s@.subrange(start as int, i as int);
        let b = s[i];
        if b < 48 || b > 57 {
            proof {
                assert(whole[i - start] == b);
                assert(!all_digits(whole));
            }
            return None;
        }
        let d: u64 = (b - 48) as u64;
        proof {
            assert(s@.subrange(start as int, i + 1) =~= pre.push(b));
            assert(dec_value(pre.push(b)) == dec_value(pre) * 10 + d) by {
                assert(pre.push(b).drop_last() =~= pre);
            }
            lemma_dec_value_nonneg(pre);
        }
        if fits {
            if acc > (u64::MAX - d) / 10 {
                proof {
                    assert(acc * 10 + d > u64::MAX) by (nonlinear_arith)
                        requires
                            acc > (u64::MAX - d) / 10,
                            d <= 9,
                    ;
                }
                fits = false;
            } else {
                proof {
                    assert(acc * 10 + d <= u64::MAX) by (nonlinear_arith)
                        requires
                            acc <= (u64::MAX - d) / 10,
                            d <= 9,
                    ;
                }
                acc = acc * 10 + d;
            }
        } else {
            proof {
                assert(dec_value(pre) * 10 + d > u64::MAX) by (nonlinear_arith)
                    requires
                        dec_value(pre) > u64::MAX,
                        d >= 0,
                ;
            }
        }
        i += 1;
    }
    proof {
        assert(s@.subrange(start as int, s@.len() as int) =~= whole);
    }
    if fits {
        Some(acc)
    } else {
        proof {
            lemma_dec_value_nonneg(whole);
        }
        None
    }
}

impl JsonNum {
    /// The decimal text, exactly as it stood on the wire.
    pub fn text(&self) -> (r: &Vec<u8>)
        ensures
            r@ == self@,
    {
        &self.text
    }

    /// Wraps already-scanned token text. Kept within this crate: the parser
    /// alone knows the text is a number token.
    pub(crate) fn from_raw(text: Vec<u8>) -> (r: JsonNum)
        ensures
            r@ == text@,
    {
        JsonNum { text }
    }

    pub fn from_u64(v: u64) -> (r: JsonNum)
        ensures
            r@ == dec_digits_of(v as nat),
    {
        let mut text: Vec<u8> = Vec::new();
        push_u64_dec(&mut text, v);
        JsonNum { text }
    }

    pub fn from_i64(v: i64) -> (r: JsonNum)
        ensures
            r@ == dec_text_of_int(v as int),
    {
        let mut text: Vec<u8> = Vec::new();
        push_i64_dec(&mut text, v);
        JsonNum { text }
    }

    /// Wraps caller-supplied decimal text, refusing anything that is not one
    /// numeric token.
    pub fn from_text(text: Vec<u8>) -> (r: Option<JsonNum>)
        ensures
            match r {
                Some(n) => n@ == text@ && is_number_text(text@),
                None => !is_number_text(text@),
            },
    {
        let n = text.len();
        let i0: usize = if n > 0 && text[0] == 45 {
            1
        } else {
            0
        };
        let i1 = scan_digits(&text, i0);
        if i1 == i0 {
            return None;
        }
        let frac = i1 < n && text[i1] == 46;
        let i2: usize = if frac {
            scan_digits(&text, i1 + 1)
        } else {
            i1
        };
        if frac && i2 == i1 + 1 {
            return None;
        }
        if i2 < n && (text[i2] == 101 || text[i2] == 69) {
            let ie: usize = if i2 + 1 < n && (text[i2 + 1] == 43 || text[i2 + 1] == 45) {
                i2 + 2
            } else {
                i2 + 1
            };
            let de = scan_digits(&text, ie);
            if de == ie {
                return None;
            }
            if de == n {
                Some(JsonNum { text })
            } else {
                None
            }
        } else {
            if i2 == n {
                Some(JsonNum { text })
            } else {
                None
            }
        }
    }

    /// Whether this token's value lies below another's, in the numeric
    /// order of sign, whole part and fraction.
    pub fn lt(&self, other: &JsonNum) -> (r: bool)
        ensures
            r == num_lt(self@, other@),
    {
        let (aneg, ais0, ai1, af0, aft) = num_parts(&self.text);
        let (bneg, bis0, bi1, bf0, bft) = num_parts(&other.text);
        let azero = ais0 == ai1 && af0 == aft;
        let bzero = bis0 == bi1 && bf0 == bft;
        let na = aneg && !azero;
        let nb = bneg && !bzero;
        if na && !nb {
            return true;
        }
        if !na && nb {
            return false;
        }
        if !na {
            mag_lt_ranges(
                &self.text,
                ais0,
                ai1,
                af0,
                aft,
                &other.text,
                bis0,
                bi1,
                bf0,
                bft,
            )
        } else {
            mag_lt_ranges(
                &other.text,
                bis0,
                bi1,
                bf0,
                bft,
                &self.text,
                ais0,
                ai1,
                af0,
                aft,
            )
        }
    }

    /// A copy of this number.
    pub fn cloned(&self) -> (r: JsonNum)
        ensures
            r@ == self@,
    {
        JsonNum { text: clone_bytes(&self.text) }
    }

    /// The token read back as a `u64`, exactly when it is plain digits whose
    /// value fits.
    pub fn as_u64(&self) -> (r: Option<u64>)
        ensures
            match r {
                Some(v) => all_digits(self@) && self@.len() > 0 && v as int == dec_value(self@),
                None => !(all_digits(self@) && self@.len() > 0 && dec_value(self@) <= u64::MAX),
            },
    {
        let r = dec_of_digits(&self.text, 0);
        proof {
            assert(self.text@.skip(0) =~= self@);
            if all_digits(self@) && self@.len() > 0 {
                lemma_dec_value_nonneg(self@);
            }
        }
        match r {
            Some(v) => {
                proof {
                    assert(all_digits(self@) && self@.len() > 0);
                    assert(int_text_value(self@) == Some(v as int));
                }
                Some(v)
            },
            None => None,
        }
    }

    /// The token read back as an `i64`, exactly when it is an integer token
    /// whose value fits.
    pub fn as_i64(&self) -> (r: Option<i64>)
        ensures
            match r {
                Some(v) => int_text_value(self@) == Some(v as int),
                None => match int_text_value(self@) {
                    Some(v) => !(i64::MIN <= v <= i64::MAX),
                    None => true,
                },
            },
    {
        if self.text.len() > 1 && self.text[0] == 45 {
            let m = dec_of_digits(&self.text, 1);
            proof {
                if all_digits(self@) && self@.len() > 0 {
                    assert(48 <= self@[0] <= 57);
                }
            }
            match m {
                Some(v) => {
                    if v <= 9223372036854775808u64 {
                        // magnitude of i64::MIN
                        let r: i64 = (-(v as i128)) as i64;
                        Some(r)
                    } else {
                        None
                    }
                },
                None => {
                    proof {
                        if all_digits(self@.skip(1)) {
                            lemma_dec_value_nonneg(self@.skip(1));
                        }
                    }
                    None
                },
            }
        } else {
            let r = dec_of_digits(&self.text, 0);
            proof {
                assert(self.text@.skip(0) =~= self@);
                if all_digits(self@) && self@.len() > 0 {
                    lemma_dec_value_nonneg(self@);
                }
            }
            match r {
                Some(v) => {
                    if v <= i64::MAX as u64 {
                        Some(v as i64)
                    } else {
                        None
                    }
                },
                None => None,
            }
        }
    }
}

/// A JSON value. Object members keep their wire order; strings are held as
/// their decoded UTF-8 bytes.
#[derive(Debug)]
pub enum JsonValue {
    Null,
    Bool(bool),
    Number(JsonNum),
    Text(Vec<u8>),
    Array(Vec<JsonValue>),
    Object(Vec<(Vec<u8>, JsonValue)>),
}

// ---------------------------------------------------------------------------
// Reading JSON text
// ---------------------------------------------------------------------------
/// A JSON tree at the specification level: strings and numbers as byte
/// sequences, containers as sequences. The reader below defines, for every
/// input, either this tree or the exact rejection.
pub enum SpecJson {
    Null,
    Bool(bool),
    Number(Seq<u8>),
    Text(Seq<u8>),
    Array(Seq<SpecJson>),
    Object(Seq<(Seq<u8>, SpecJson)>),
}

/// The specification-level view of a parsed tree.
pub open spec fn view_of(v: JsonValue) -> SpecJson
    decreases v,
{
    match v {
        JsonValue::Null => SpecJson::Null,
        JsonValue::Bool(b) => SpecJson::Bool(b),
        JsonValue::Number(n) => SpecJson::Number(n@),
        JsonValue::Text(t) => SpecJson::Text(t@),
        JsonValue::Array(items) => SpecJson::Array(view_of_list(items@)),
        JsonValue::Object(fields) => SpecJson::Object(view_of_fields(fields@)),
    }
}

/// The views of an element list, in order.
pub open spec fn view_of_list(l: Seq<JsonValue>) -> Seq<SpecJson>
    decreases l,
{
    if l.len() == 0 {
        Seq::empty()
    } else {
        view_of_list(l.drop_last()).push(view_of(l.last()))
    }
}

/// The views of a member list, in order.
pub open spec fn view_of_fields(l: Seq<(Vec<u8>, JsonValue)>) -> Seq<(Seq<u8>, SpecJson)>
    decreases l,
{
    if l.len() == 0 {
        Seq::empty()
    } else {
        view_of_fields(l.drop_last()).push((l.last().0@, view_of(l.last().1)))
    }
}

/// Where the run of JSON whitespace beginning at `i` ends.
pub open spec fn ws_end(s: Seq<u8>, i: int) -> int
    decreases s.len() - i,
{
    if 0 <= i < s.len() && (s[i] == 32 || s[i] == 9 || s[i] == 10 || s[i] == 13) {
        ws_end(s, i + 1)
    } else {
        i
    }
}

/// The hex digit a byte stands for, or -1.
pub open spec fn hex_val(b: u8) -> int {
    if 48 <= b <= 57 {
        b - 48
    } else if 97 <= b <= 102 {
        b - 87
    } else if 65 <= b <= 70 {
        b - 55
    } else {
        -1
    }
}

/// What four hex digits at `pos` denote.
pub open spec fn spec_hex4(s: Seq<u8>, pos: int) -> Result<u32, JsonError> {
    if pos < 0 || pos + 4 > s.len() {
        Err(JsonError::UnexpectedEnd)
    } else if hex_val(s[pos]) < 0 || hex_val(s[pos + 1]) < 0 || hex_val(s[pos + 2]) < 0 || hex_val(
        s[pos + 3],
    ) < 0 {
        Err(JsonError::InvalidEscape)
    } else {
        Ok(
            (hex_val(s[pos]) * 4096 + hex_val(s[pos + 1]) * 256 + hex_val(s[pos + 2]) * 16
                + hex_val(s[pos + 3])) as u32,
        )
    }
}

/// The UTF-8 encoding of a scalar value.
pub open spec fn utf8_bytes(cp: u32) -> Seq<u8> {
    if cp < 0x80 {
        seq![cp as u8]
    } else if cp < 0x800 {
        seq![(0xC0 | (cp / 0x40)) as u8, (0x80 | (cp % 0x40)) as u8]
    } else if cp < 0x10000 {
        seq![
            (0xE0 | (cp / 0x1000)) as u8,
            (0x80 | ((cp / 0x40) % 0x40)) as u8,
            (0x80 | (cp % 0x40)) as u8,
        ]
    } else {
        seq![
            (0xF0 | (cp / 0x40000)) as u8,
            (0x80 | ((cp / 0x1000) % 0x40)) as u8,
            (0x80 | ((cp / 0x40) % 0x40)) as u8,
            (0x80 | (cp % 0x40)) as u8,
        ]
    }
}

/// Whether the continuation bytes after the first of a UTF-8 sequence are
/// in range.
pub open spec fn utf8_cont_ok(s: Seq<u8>, i: int, width: int) -> bool {
    forall|k: int| 2 <= k < width ==> 0x80 <= #[trigger] s[i + k] <= 0xBF
}

/// What string contents beginning at `i` (past the opening quote) decode
/// to, with `acc` already decoded: the contents and the position after the
/// closing quote, or the exact rejection.
pub open spec fn spec_string_scan(s: Seq<u8>, i: int, acc: Seq<u8>) -> Result<
    (Seq<u8>, int),
    JsonError,
>
    decreases s.len() - i,
{
    if i < 0 || i >= s.len() {
        Err(JsonError::UnexpectedEnd)
    } else {
        let b = s[i];
        if b == 34 {
            Ok((acc, i + 1))
        } else if b == 92 {
            if i + 1 >= s.len() {
                Err(JsonError::UnexpectedEnd)
            } else {
                let c = s[i + 1];
                if c == 34 || c == 92 || c == 47 {
                    spec_string_scan(s, i + 2, acc.push(c))
                } else if c == 98 {
                    spec_string_scan(s, i + 2, acc.push(8))
                } else if c == 102 {
                    spec_string_scan(s, i + 2, acc.push(12))
                } else if c == 110 {
                    spec_string_scan(s, i + 2, acc.push(10))
                } else if c == 114 {
                    spec_string_scan(s, i + 2, acc.push(13))
                } else if c == 116 {
                    spec_string_scan(s, i + 2, acc.push(9))
                } else if c == 117 {
                    match spec_hex4(s, i + 2) {
                        Err(e) => Err(e),
                        Ok(cp) => if 0xD800 <= cp < 0xDC00 {
                            let j = i + 6;
                            if s.len() - j < 2 || s[j] != 92 || s[j + 1] != 117 {
                                Err(JsonError::InvalidEscape)
                            } else {
                                match spec_hex4(s, j + 2) {
                                    Err(e) => Err(e),
                                    Ok(lo) => if !(0xDC00 <= lo < 0xE000) {
                                        Err(JsonError::InvalidEscape)
                                    } else {
                                        spec_string_scan(
                                            s,
                                            j + 6,
                                            acc + utf8_bytes(
                                                (0x10000 + (cp - 0xD800) * 0x400 + (lo
                                                    - 0xDC00)) as u32,
                                            ),
                                        )
                                    },
                                }
                            }
                        } else if 0xDC00 <= cp < 0xE000 {
                            Err(JsonError::InvalidEscape)
                        } else {
                            spec_string_scan(s, i + 6, acc + utf8_bytes(cp))
                        },
                    }
                } else {
                    Err(JsonError::InvalidEscape)
                }
            }
        } else if b < 0x20 {
            Err(JsonError::UnexpectedByte)
        } else if b < 0x80 {
            spec_string_scan(s, i + 1, acc.push(b))
        } else {
            let width: int = if 0xC2 <= b <= 0xDF {
                2
            } else if 0xE0 <= b <= 0xEF {
                3
            } else if 0xF0 <= b <= 0xF4 {
                4
            } else {
                -1
            };
            if width < 0 || s.len() - i < width {
                Err(JsonError::Utf8)
            } else {
                let lo1: u8 = if b == 0xE0 {
                    0xA0
                } else if b == 0xF0 {
                    0x90
                } else {
                    0x80
                };
                let hi1: u8 = if b == 0xED {
                    0x9F
                } else if b == 0xF4 {
                    0x8F
                } else {
                    0xBF
                };
                if s[i + 1] < lo1 || s[i + 1] > hi1 {
                    Err(JsonError::Utf8)
                } else if !utf8_cont_ok(s, i, width) {
                    Err(JsonError::Utf8)
                } else {
                    spec_string_scan(s, i + width, acc + s.subrange(i, i + width))
                }
            }
        }
    }
}

/// Where the numeric token at `pos` ends, or the exact rejection.
pub open spec fn spec_number_end(s: Seq<u8>, pos: int) -> Result<int, JsonError> {
    let i0: int = if 0 <= pos < s.len() && s[pos] == 45 {
        pos + 1
    } else {
        pos
    };
    if i0 < 0 || i0 >= s.len() {
        Err(JsonError::BadNumber)
    } else {
        let b = s[i0];
        let i1: int = if b == 48 {
            i0 + 1
        } else if 49 <= b <= 57 {
            digits_end(s, i0)
        } else {
            -1
        };
        if i1 < 0 {
            Err(JsonError::BadNumber)
        } else {
            let i2: int = if i1 < s.len() && s[i1] == 46 {
                if i1 + 1 < s.len() && 48 <= s[i1 + 1] <= 57 {
                    digits_end(s, i1 + 1)
                } else {
                    -1
                }
            } else {
                i1
            };
            if i2 < 0 {
                Err(JsonError::BadNumber)
            } else {
                if i2 < s.len() && (s[i2] == 101 || s[i2] == 69) {
                    let ie: int = if i2 + 1 < s.len() && (s[i2 + 1] == 43 || s[i2 + 1] == 45) {
                        i2 + 2
                    } else {
                        i2 + 1
                    };
                    if ie < s.len() && 48 <= s[ie] <= 57 {
                        Ok(digits_end(s, ie))
                    } else {
                        Err(JsonError::BadNumber)
                    }
                } else {
                    Ok(i2)
                }
            }
        }
    }
}

/// The next read position: past what was consumed when that moved forward
/// and stayed within the text, and one byte ahead otherwise. On every path
/// the reader takes, what was consumed did move forward, so the fallback
/// only keeps the definitions below visibly finite.
pub open spec fn next_pos(i: int, j: int, n: int) -> int {
    if i < j && j <= n {
        j
    } else {
        i + 1
    }
}

/// What the value at `pos` (after whitespace) reads as: the tree and the
/// position after it, or the exact rejection.
pub open spec fn spec_value(s: Seq<u8>, pos: int) -> Result<(SpecJson, int), JsonError>
    decreases s.len() - pos, 1int,
{
    if pos < 0 || pos >= s.len() {
        Err(JsonError::UnexpectedEnd)
    } else {
        let start = next_pos(pos - 1, ws_end(s, pos), s.len() as int);
        if start >= s.len() {
            Err(JsonError::UnexpectedEnd)
        } else {
            let b = s[start];
            if b == 123 {
                let i = next_pos(start, ws_end(s, start + 1), s.len() as int);
                if i < s.len() && s[i] == 125 {
                    Ok((SpecJson::Object(Seq::empty()), i + 1))
                } else {
                    spec_members(s, i, Seq::empty())
                }
            } else if b == 91 {
                let i0 = next_pos(start, ws_end(s, start + 1), s.len() as int);
                if i0 < s.len() && s[i0] == 93 {
                    Ok((SpecJson::Array(Seq::empty()), i0 + 1))
                } else {
                    spec_items(s, start, Seq::empty())
                }
            } else if b == 34 {
                match spec_string_scan(s, start + 1, Seq::empty()) {
                    Ok(p) => Ok((SpecJson::Text(p.0), p.1)),
                    Err(e) => Err(e),
                }
            } else if b == 116 {
                if s.len() - start < 4 {
                    Err(JsonError::UnexpectedEnd)
                } else if s[start + 1] == 114 && s[start + 2] == 117 && s[start + 3] == 101 {
                    Ok((SpecJson::Bool(true), start + 4))
                } else {
                    Err(JsonError::UnexpectedByte)
                }
            } else if b == 102 {
                if s.len() - start < 5 {
                    Err(JsonError::UnexpectedEnd)
                } else if s[start + 1] == 97 && s[start + 2] == 108 && s[start + 3] == 115 && s[
                    start + 4] == 101 {
                    Ok((SpecJson::Bool(false), start + 5))
                } else {
                    Err(JsonError::UnexpectedByte)
                }
            } else if b == 110 {
                if s.len() - start < 4 {
                    Err(JsonError::UnexpectedEnd)
                } else if s[start + 1] == 117 && s[start + 2] == 108 && s[start + 3] == 108 {
                    Ok((SpecJson::Null, start + 4))
                } else {
                    Err(JsonError::UnexpectedByte)
                }
            } else if b == 45 || (48 <= b && b <= 57) {
                match spec_number_end(s, start) {
                    Ok(e) => Ok((SpecJson::Number(s.subrange(start, e)), next_pos(start, e, s.len() as int))),
                    Err(e2) => Err(e2),
                }
            } else {
                Err(JsonError::UnexpectedByte)
            }
        }
    }
}

/// What the members from the key at `i` on read as, with `acc` already
/// read: the finished object and the position after it, or the exact
/// rejection.
pub open spec fn spec_members(s: Seq<u8>, i: int, acc: Seq<(Seq<u8>, SpecJson)>) -> Result<
    (SpecJson, int),
    JsonError,
>
    decreases s.len() - i, 0int,
{
    if i < 0 || i >= s.len() {
        Err(JsonError::UnexpectedEnd)
    } else if s[i] != 34 {
        Err(JsonError::UnexpectedByte)
    } else {
        match spec_string_scan(s, i + 1, Seq::empty()) {
            Err(e) => Err(e),
            Ok(key) => {
                let colon = next_pos(i, ws_end(s, key.1), s.len() as int);
                if colon >= s.len() {
                    Err(JsonError::UnexpectedEnd)
                } else if s[colon] != 58 {
                    Err(JsonError::UnexpectedByte)
                } else {
                    match spec_value(s, next_pos(i, colon + 1, s.len() as int)) {
                        Err(e) => Err(e),
                        Ok(value) => {
                            let sep = next_pos(i, ws_end(s, value.1), s.len() as int);
                            if sep >= s.len() {
                                Err(JsonError::UnexpectedEnd)
                            } else if s[sep] == 125 {
                                Ok((SpecJson::Object(acc.push((key.0, value.0))), sep + 1))
                            } else if s[sep] != 44 {
                                Err(JsonError::UnexpectedByte)
                            } else {
                                spec_members(
                                    s,
                                    next_pos(i, ws_end(s, sep + 1), s.len() as int),
                                    acc.push((key.0, value.0)),
                                )
                            }
                        },
                    }
                }
            },
        }
    }
}

/// What the elements from the separator at `i` on read as, with `acc`
/// already read: the finished array and the position after it, or the
/// exact rejection.
pub open spec fn spec_items(s: Seq<u8>, i: int, acc: Seq<SpecJson>) -> Result<
    (SpecJson, int),
    JsonError,
>
    decreases s.len() - i, 0int,
{
    if i < 0 || i >= s.len() {
        Err(JsonError::UnexpectedEnd)
    } else {
        match spec_value(s, i + 1) {
            Err(e) => Err(e),
            Ok(value) => {
                let sep = next_pos(i, ws_end(s, value.1), s.len() as int);
                if sep >= s.len() {
                    Err(JsonError::UnexpectedEnd)
                } else if s[sep] == 93 {
                    Ok((SpecJson::Array(acc.push(value.0)), sep + 1))
                } else if s[sep] != 44 {
                    Err(JsonError::UnexpectedByte)
                } else {
                    spec_items(s, next_pos(i, sep, s.len() as int), acc.push(value.0))
                }
            },
        }
    }
}

/// What a complete document reads as: one value and nothing after it.
#[verifier::opaque]
pub open spec fn spec_parse_json(s: Seq<u8>) -> Result<SpecJson, JsonError> {
    if s.len() == 0 {
        Err(JsonError::UnexpectedEnd)
    } else {
        match spec_value(s, 0) {
            Err(e) => Err(e),
            Ok(p) => if next_pos(p.1 - 1, ws_end(s, p.1), s.len() as int) == s.len() {
                Ok(p.0)
            } else {
                Err(JsonError::TrailingData)
            },
        }
    }
}

/// Skips JSON whitespace.
fn skip_ws(s: &[u8], pos: usize) -> (r: usize)
    requires
        pos <= s@.len(),
    ensures
        pos <= r <= s@.len(),
        r as int == ws_end(s@, pos as int),
{
    let mut i = pos;
    while i < s.len()
        invariant
            pos <= i <= s@.len(),
            ws_end(s@, pos as int) == ws_end(s@, i as int),
        decreases s@.len() - i,
    {
        let b = s[i];
        if b == 32 || b == 9 || b == 10 || b == 13 {
            i += 1;
        } else {
            return i;
        }
    }
    i
}

/// The hex digit a byte stands for, or -1.
fn hex_digit(b: u8) -> (r: i8)
    ensures
        r as int == hex_val(b),
{
    if 48 <= b && b <= 57 {
        (b - 48) as i8
    } else if 97 <= b && b <= 102 {
        (b - 87) as i8
    } else if 65 <= b && b <= 70 {
        (b - 55) as i8
    } else {
        -1
    }
}

/// Reads four hex digits.
fn parse_hex4(s: &[u8], pos: usize) -> (r: Result<u32, JsonError>)
    requires
        pos <= s@.len(),
    ensures
        r == spec_hex4(s@, pos as int),
        r matches Ok(v) ==> pos + 4 <= s@.len() && v < 0x10000,
{
    if s.len() - pos < 4 {
        return Err(JsonError::UnexpectedEnd);
    }
    let d0 = hex_digit(s[pos]);
    let d1 = hex_digit(s[pos + 1]);
    let d2 = hex_digit(s[pos + 2]);
    let d3 = hex_digit(s[pos + 3]);
    if d0 < 0 || d1 < 0 || d2 < 0 || d3 < 0 {
        return Err(JsonError::InvalidEscape);
    }
    Ok((d0 as u32) * 4096 + (d1 as u32) * 256 + (d2 as u32) * 16 + (d3 as u32))
}

/// Appends the UTF-8 encoding of a scalar value.
fn push_utf8(out: &mut Vec<u8>, cp: u32)
    requires
        cp < 0x110000,
    ensures
        final(out)@ == old(out)@ + utf8_bytes(cp),
{
    if cp < 0x80 {
        out.push(cp as u8);
    } else if cp < 0x800 {
        out.push((0xC0 | (cp / 0x40)) as u8);
        out.push((0x80 | (cp % 0x40)) as u8);
    } else if cp < 0x10000 {
        out.push((0xE0 | (cp / 0x1000)) as u8);
        out.push((0x80 | ((cp / 0x40) % 0x40)) as u8);
        out.push((0x80 | (cp % 0x40)) as u8);
    } else {
        out.push((0xF0 | (cp / 0x40000)) as u8);
        out.push((0x80 | ((cp / 0x1000) % 0x40)) as u8);
        out.push((0x80 | ((cp / 0x40) % 0x40)) as u8);
        out.push((0x80 | (cp % 0x40)) as u8);
    }
    proof {
        assert(out@ =~= old(out)@ + utf8_bytes(cp));
    }
}

/// Whether the continuation bytes of a UTF-8 sequence are in range.
fn check_cont(s: &[u8], i: usize, width: usize) -> (r: bool)
    requires
        2 <= width <= 4,
        i + width <= s@.len(),
    ensures
        r == utf8_cont_ok(s@, i as int, width as int),
{
    let n = s.len();
    proof {
        assert(n == s@.len());
    }
    let mut k: usize = 2;
    while k < width
        invariant
            2 <= k <= width <= 4,
            i + width <= s@.len(),
            s@.len() <= usize::MAX,
            forall|k3: int| 2 <= k3 < k ==> 0x80 <= #[trigger] s@[i + k3] <= 0xBF,
        decreases width - k,
    {
        let ck = s[i + k];
        if ck < 0x80 || ck > 0xBF {
            proof {
                assert(!utf8_cont_ok(s@, i as int, width as int));
            }
            return false;
        }
        k += 1;
    }
    true
}

/// Reads a string token starting at its opening quote; yields the decoded
/// contents and the position after the closing quote, exactly as the
/// specification-level scan fixes them.
#[verifier::rlimit(100)]
fn parse_string_token(s: &[u8], pos: usize) -> (r: Result<(Vec<u8>, usize), JsonError>)
    requires
        pos < s@.len(),
        s@[pos as int] == 34,
    ensures
        match r {
            Ok(p) => spec_string_scan(s@, pos + 1, Seq::empty()) == Ok::<(Seq<u8>, int), JsonError>(
                (p.0@, p.1 as int),
            ) && pos < p.1 <= s@.len(),
            Err(e) => spec_string_scan(s@, pos + 1, Seq::empty()) == Err::<
                (Seq<u8>, int),
                JsonError,
            >(e),
        },
{
    let mut out: Vec<u8> = Vec::new();
    let n = s.len();
    let mut i = pos + 1;
    proof {
        assert(n == s@.len());
    }
    while i < s.len()
        invariant
            pos < i <= s@.len(),
            s@.len() <= usize::MAX,
            spec_string_scan(s@, pos + 1, Seq::empty()) == spec_string_scan(s@, i as int, out@),
        decreases s@.len() - i,
    {
        let ghost i0 = i as int;
        let ghost out0 = out@;
        let b = s[i];
        if b == 34 {
            return Ok((out, i + 1));
        } else if b == 92 {
            if i + 1 >= s.len() {
                return Err(JsonError::UnexpectedEnd);
            }
            let c = s[i + 1];
            if c == 34 || c == 92 || c == 47 {
                out.push(c);
                i += 2;
            } else if c == 98 {
                out.push(8);
                i += 2;
            } else if c == 102 {
                out.push(12);
                i += 2;
            } else if c == 110 {
                out.push(10);
                i += 2;
            } else if c == 114 {
                out.push(13);
                i += 2;
            } else if c == 116 {
                out.push(9);
                i += 2;
            } else if c == 117 {
                let cp = match parse_hex4(s, i + 2) {
                    Ok(v) => v,
                    Err(e) => {
                        return Err(e);
                    },
                };
                if 0xD800 <= cp && cp < 0xDC00 {
                    // a high surrogate must pair with a following low one
                    let j = i + 6;
                    if s.len() - j < 2 || s[j] != 92 || s[j + 1] != 117 {
                        return Err(JsonError::InvalidEscape);
                    }
                    let lo = match parse_hex4(s, j + 2) {
                        Ok(v) => v,
                        Err(e) => {
                            return Err(e);
                        },
                    };
                    if !(0xDC00 <= lo && lo < 0xE000) {
                        return Err(JsonError::InvalidEscape);
                    }
                    let scalar = 0x10000 + (cp - 0xD800) * 0x400 + (lo - 0xDC00);
                    push_utf8(&mut out, scalar);
                    i = j + 6;
                } else if 0xDC00 <= cp && cp < 0xE000 {
                    return Err(JsonError::InvalidEscape);
                } else {
                    push_utf8(&mut out, cp);
                    i += 6;
                }
            } else {
                return Err(JsonError::InvalidEscape);
            }
            proof {
                assert(spec_string_scan(s@, i0, out0) == spec_string_scan(s@, i as int, out@));
            }
        } else if b < 0x20 {
            return Err(JsonError::UnexpectedByte);
        } else if b < 0x80 {
            out.push(b);
            i += 1;
            proof {
                assert(spec_string_scan(s@, i0, out0) == spec_string_scan(s@, i as int, out@));
            }
        } else {
            // a UTF-8 sequence, checked strictly
            let width: usize = if 0xC2 <= b && b <= 0xDF {
                2
            } else if 0xE0 <= b && b <= 0xEF {
                3
            } else if 0xF0 <= b && b <= 0xF4 {
                4
            } else {
                return Err(JsonError::Utf8);
            };
            if s.len() - i < width {
                return Err(JsonError::Utf8);
            }
            let c1 = s[i + 1];
            let lo1: u8 = if b == 0xE0 {
                0xA0
            } else if b == 0xF0 {
                0x90
            } else {
                0x80
            };
            let hi1: u8 = if b == 0xED {
                0x9F
            } else if b == 0xF4 {
                0x8F
            } else {
                0xBF
            };
            if c1 < lo1 || c1 > hi1 {
                return Err(JsonError::Utf8);
            }
            if !check_cont(s, i, width) {
                return Err(JsonError::Utf8);
            }
            push_bytes(&mut out, vstd::slice::slice_subrange(s, i, i + width));
            i += width;
            proof {
                assert(spec_string_scan(s@, i0, out0) == spec_string_scan(s@, i as int, out@));
            }
        }
    }
    Err(JsonError::UnexpectedEnd)
}

/// A digit run stays within the text and never moves backward.
proof fn lemma_digits_end_bounds(s: Seq<u8>, i: int)
    requires
        0 <= i <= s.len(),
    ensures
        i <= digits_end(s, i) <= s.len(),
    decreases s.len() - i,
{
    if i < s.len() && 48 <= s[i] <= 57 {
        lemma_digits_end_bounds(s, i + 1);
    }
}

/// Scans to the end of the digit run beginning at `i` in a slice.
fn scan_digits_slice(s: &[u8], i: usize) -> (r: usize)
    requires
        i <= s@.len(),
    ensures
        r as int == digits_end(s@, i as int),
        i <= r <= s@.len(),
{
    let mut j = i;
    while j < s.len() && 48 <= s[j] && s[j] <= 57
        invariant
            i <= j <= s@.len(),
            digits_end(s@, i as int) == digits_end(s@, j as int),
        decreases s@.len() - j,
    {
        j += 1;
    }
    j
}

/// Reads a numeric token; yields its exact text and the position after it,
/// as the specification-level token end fixes them.
fn parse_number_token(s: &[u8], pos: usize) -> (r: Result<(Vec<u8>, usize), JsonError>)
    requires
        pos < s@.len(),
    ensures
        match r {
            Ok(p) => spec_number_end(s@, pos as int) == Ok::<int, JsonError>(p.1 as int) && p.0@
                == s@.subrange(pos as int, p.1 as int) && pos < p.1 <= s@.len(),
            Err(e) => spec_number_end(s@, pos as int) == Err::<int, JsonError>(e),
        },
{
    let n = s.len();
    let i0: usize = if s[pos] == 45 {
        pos + 1
    } else {
        pos
    };
    if i0 >= n {
        return Err(JsonError::BadNumber);
    }
    let b = s[i0];
    let i1: usize = if b == 48 {
        i0 + 1
    } else if 49 <= b && b <= 57 {
        scan_digits_slice(s, i0)
    } else {
        return Err(JsonError::BadNumber);
    };
    proof {
        if 49 <= b && b <= 57 {
            assert(digits_end(s@, i0 as int) == digits_end(s@, i0 + 1));
            lemma_digits_end_bounds(s@, i0 + 1);
        }
    }
    let i2: usize = if i1 < n && s[i1] == 46 {
        if i1 + 1 < n && 48 <= s[i1 + 1] && s[i1 + 1] <= 57 {
            scan_digits_slice(s, i1 + 1)
        } else {
            return Err(JsonError::BadNumber);
        }
    } else {
        i1
    };
    proof {
        if i1 < s@.len() && s@[i1 as int] == 46 {
            assert(digits_end(s@, i1 + 1) == digits_end(s@, i1 + 2));
        }
    }
    let end: usize = if i2 < n && (s[i2] == 101 || s[i2] == 69) {
        let ie: usize = if i2 + 1 < n && (s[i2 + 1] == 43 || s[i2 + 1] == 45) {
            i2 + 2
        } else {
            i2 + 1
        };
        if ie < n && 48 <= s[ie] && s[ie] <= 57 {
            scan_digits_slice(s, ie)
        } else {
            return Err(JsonError::BadNumber);
        }
    } else {
        i2
    };
    proof {
        if i2 < s@.len() && (s@[i2 as int] == 101 || s@[i2 as int] == 69) {
            let ie: int = if i2 + 1 < s@.len() && (s@[i2 + 1] == 43 || s@[i2 + 1] == 45) {
                i2 + 2
            } else {
                i2 + 1
            };
            assert(digits_end(s@, ie) == digits_end(s@, ie + 1));
        }
    }
    let text = vstd::slice::slice_to_vec(vstd::slice::slice_subrange(s, pos, end));
    Ok((text, end))
}

/// Reads one JSON value, skipping leading whitespace; yields the value and
/// the position after it, exactly as the specification-level reader fixes
/// them.
#[verifier::rlimit(100)]
fn parse_value(s: &[u8], pos: usize) -> (r: Result<(JsonValue, usize), JsonError>)
    requires
        pos <= s@.len(),
    ensures
        match r {
            Ok(p) => spec_value(s@, pos as int) == Ok::<(SpecJson, int), JsonError>(
                (view_of(p.0), p.1 as int),
            ) && pos < p.1 <= s@.len(),
            Err(e) => spec_value(s@, pos as int) == Err::<(SpecJson, int), JsonError>(e),
        },
    decreases s@.len() - pos,
{
    let start = skip_ws(s, pos);
    if start >= s.len() {
        return Err(JsonError::UnexpectedEnd);
    }
    proof {
        assert(next_pos(pos as int - 1, ws_end(s@, pos as int), s@.len() as int) == start as int);
    }
    let b = s[start];
    if b == 123 {
        // '{'
        let mut fields: Vec<(Vec<u8>, JsonValue)> = Vec::new();
        let mut i = skip_ws(s, start + 1);
        proof {
            assert(next_pos(start as int, ws_end(s@, start + 1), s@.len() as int) == i as int);
            assert(view_of_fields(fields@) =~= Seq::<(Seq<u8>, SpecJson)>::empty());
        }
        if i < s.len() && s[i] == 125 {
            proof {
                assert(view_of(JsonValue::Object(fields)) == SpecJson::Object(
                    Seq::<(Seq<u8>, SpecJson)>::empty(),
                ));
            }
            return Ok((JsonValue::Object(fields), i + 1));
        }
        while i < s.len()
            invariant
                pos < i <= s@.len(),
                spec_value(s@, pos as int) == spec_members(
                    s@,
                    i as int,
                    view_of_fields(fields@),
                ),
            decreases s@.len() - i,
        {
            let ghost i0 = i as int;
            let ghost acc0 = view_of_fields(fields@);
            if s[i] != 34 {
                return Err(JsonError::UnexpectedByte);
            }
            let (key, after_key) = match parse_string_token(s, i) {
                Ok(p) => p,
                Err(e) => {
                    return Err(e);
                },
            };
            let colon = skip_ws(s, after_key);
            proof {
                assert(next_pos(i0, ws_end(s@, after_key as int), s@.len() as int)
                    == colon as int);
            }
            if colon >= s.len() {
                return Err(JsonError::UnexpectedEnd);
            }
            if s[colon] != 58 {
                return Err(JsonError::UnexpectedByte);
            }
            proof {
                assert(next_pos(i0, colon + 1, s@.len() as int) == colon + 1);
            }
            let (value, after_value) = match parse_value(s, colon + 1) {
                Ok(p) => p,
                Err(e) => {
                    return Err(e);
                },
            };
            let ghost fields0 = fields@;
            fields.push((key, value));
            proof {
                assert(fields@.drop_last() =~= fields0);
                assert(view_of_fields(fields@) == acc0.push((key@, view_of(value))));
            }
            let sep = skip_ws(s, after_value);
            proof {
                assert(next_pos(i0, ws_end(s@, after_value as int), s@.len() as int)
                    == sep as int);
            }
            if sep >= s.len() {
                return Err(JsonError::UnexpectedEnd);
            }
            if s[sep] == 125 {
                proof {
                    assert(view_of(JsonValue::Object(fields)) == SpecJson::Object(
                        view_of_fields(fields@),
                    ));
                }
                return Ok((JsonValue::Object(fields), sep + 1));
            }
            if s[sep] != 44 {
                return Err(JsonError::UnexpectedByte);
            }
            i = skip_ws(s, sep + 1);
            proof {
                assert(next_pos(i0, ws_end(s@, sep + 1), s@.len() as int) == i as int);
            }
        }
        Err(JsonError::UnexpectedEnd)
    } else if b == 91 {
        // '['
        let mut items: Vec<JsonValue> = Vec::new();
        let i0 = skip_ws(s, start + 1);
        proof {
            assert(next_pos(start as int, ws_end(s@, start + 1), s@.len() as int) == i0 as int);
            assert(view_of_list(items@) =~= Seq::<SpecJson>::empty());
        }
        if i0 < s.len() && s[i0] == 93 {
            proof {
                assert(view_of(JsonValue::Array(items)) == SpecJson::Array(
                    Seq::<SpecJson>::empty(),
                ));
            }
            return Ok((JsonValue::Array(items), i0 + 1));
        }
        let mut i = start;
        while i < s.len()
            invariant
                pos <= i <= s@.len(),
                spec_value(s@, pos as int) == spec_items(s@, i as int, view_of_list(items@)),
            decreases s@.len() - i,
        {
            let ghost iq = i as int;
            let ghost acc0 = view_of_list(items@);
            // `i` stands on '[' first, then on each ','
            let (value, after_value) = match parse_value(s, i + 1) {
                Ok(p) => p,
                Err(e) => {
                    return Err(e);
                },
            };
            let ghost items0 = items@;
            items.push(value);
            proof {
                assert(items@.drop_last() =~= items0);
                assert(view_of_list(items@) == acc0.push(view_of(value)));
            }
            let sep = skip_ws(s, after_value);
            proof {
                assert(next_pos(iq, ws_end(s@, after_value as int), s@.len() as int)
                    == sep as int);
            }
            if sep >= s.len() {
                return Err(JsonError::UnexpectedEnd);
            }
            if s[sep] == 93 {
                proof {
                    assert(view_of(JsonValue::Array(items)) == SpecJson::Array(
                        view_of_list(items@),
                    ));
                }
                return Ok((JsonValue::Array(items), sep + 1));
            }
            if s[sep] != 44 {
                return Err(JsonError::UnexpectedByte);
            }
            proof {
                assert(next_pos(iq, sep as int, s@.len() as int) == sep as int);
            }
            i = sep;
        }
        Err(JsonError::UnexpectedEnd)
    } else if b == 34 {
        match parse_string_token(s, start) {
            Ok((text, j)) => {
                proof {
                    assert(view_of(JsonValue::Text(text)) == SpecJson::Text(text@));
                }
                Ok((JsonValue::Text(text), j))
            },
            Err(e) => Err(e),
        }
    } else if b == 116 {
        // "true"
        if s.len() - start < 4 {
            return Err(JsonError::UnexpectedEnd);
        }
        if s[start + 1] == 114 && s[start + 2] == 117 && s[start + 3] == 101 {
            Ok((JsonValue::Bool(true), start + 4))
        } else {
            Err(JsonError::UnexpectedByte)
        }
    } else if b == 102 {
        // "false"
        if s.len() - start < 5 {
            return Err(JsonError::UnexpectedEnd);
        }
        if s[start + 1] == 97 && s[start + 2] == 108 && s[start + 3] == 115 && s[start + 4] == 101 {
            Ok((JsonValue::Bool(false), start + 5))
        } else {
            Err(JsonError::UnexpectedByte)
        }
    } else if b == 110 {
        // "null"
        if s.len() - start < 4 {
            return Err(JsonError::UnexpectedEnd);
        }
        if s[start + 1] == 117 && s[start + 2] == 108 && s[start + 3] == 108 {
            Ok((JsonValue::Null, start + 4))
        } else {
            Err(JsonError::UnexpectedByte)
        }
    } else if b == 45 || (48 <= b && b <= 57) {
        match parse_number_token(s, start) {
            Ok((text, j)) => {
                let num = JsonNum::from_raw(text);
                proof {
                    assert(next_pos(start as int, j as int, s@.len() as int) == j as int);
                    assert(view_of(JsonValue::Number(num)) == SpecJson::Number(num@));
                }
                Ok((JsonValue::Number(num), j))
            },
            Err(e) => Err(e),
        }
    } else {
        Err(JsonError::UnexpectedByte)
    }
}

/// Reads a complete JSON document: one value and nothing after it, exactly
/// as the specification-level reader fixes them. Callers state their own
/// contracts over the tree this returns; its view is a function of the
/// input bytes.
pub fn parse_json(s: &[u8]) -> (r: Result<JsonValue, JsonError>)
    ensures
        match r {
            Ok(v) => spec_parse_json(s@) == Ok::<SpecJson, JsonError>(view_of(v)),
            Err(e) => spec_parse_json(s@) == Err::<SpecJson, JsonError>(e),
        },
{
    proof {
        reveal(spec_parse_json);
    }
    let (value, after) = match parse_value(s, 0) {
        Ok(p) => p,
        Err(e) => {
            return Err(e);
        },
    };
    let end = skip_ws(s, after);
    proof {
        assert(next_pos(after as int - 1, ws_end(s@, after as int), s@.len() as int)
            == end as int);
    }
    if end != s.len() {
        return Err(JsonError::TrailingData);
    }
    Ok(value)
}

/// The value of the first member named `k`, if any.
pub open spec fn find_key(fields: Seq<(Vec<u8>, JsonValue)>, k: Seq<u8>) -> Option<JsonValue>
    decreases fields.len(),
{
    if fields.len() == 0 {
        None
    } else if fields[0].0@ == k {
        Some(fields[0].1)
    } else {
        find_key(fields.skip(1), k)
    }
}

/// Looks a member up by name.
pub fn obj_get<'a>(fields: &'a Vec<(Vec<u8>, JsonValue)>, key: &str) -> (r: Option<&'a JsonValue>)
    ensures
        match r {
            Some(v) => find_key(fields@, key.spec_bytes()) == Some(*v),
            None => find_key(fields@, key.spec_bytes()) is None,
        },
{
    let mut i: usize = 0;
    proof {
        assert(fields@.skip(0) =~= fields@);
    }
    while i < fields.len()
        invariant
            i <= fields@.len(),
            find_key(fields@, key.spec_bytes()) == find_key(
                fields@.skip(i as int),
                key.spec_bytes(),
            ),
        decreases fields@.len() - i,
    {
        let ghost pre = fields@.skip(i as int);
        if bytes_are(fields[i].0.as_slice(), key) {
            return Some(&fields[i].1);
        }
        i += 1;
        proof {
            assert(pre.skip(1) =~= fields@.skip(i as int));
        }
    }
    None
}

/// The text of a boolean.
pub open spec fn bool_bytes(b: bool) -> Seq<u8> {
    if b {
        "true".spec_bytes()
    } else {
        "false".spec_bytes()
    }
}

/// Writes the text of a boolean.
pub fn push_bool(b: bool, out: &mut Vec<u8>)
    ensures
        final(out)@ == old(out)@ + bool_bytes(b),
{
    if b {
        push_str_bytes(out, "true");
    } else {
        push_str_bytes(out, "false");
    }
}

/// The text an optional unsigned member contributes: its label and digits,
/// or nothing.
pub open spec fn opt_u64_field_bytes(label: Seq<u8>, v: Option<u64>) -> Seq<u8> {
    match v {
        Some(n) => label + dec_digits_of(n as nat),
        None => Seq::empty(),
    }
}

/// Writes an optional unsigned member.
pub fn push_opt_u64_field(out: &mut Vec<u8>, label: &str, v: &Option<u64>)
    ensures
        final(out)@ == old(out)@ + opt_u64_field_bytes(label.spec_bytes(), *v),
{
    if let Some(n) = v {
        push_str_bytes(out, label);
        push_u64_dec(out, *n);
    }
}

/// The text an optional signed member contributes.
pub open spec fn opt_i64_field_bytes(label: Seq<u8>, v: Option<i64>) -> Seq<u8> {
    match v {
        Some(n) => label + dec_text_of_int(n as int),
        None => Seq::empty(),
    }
}

/// Writes an optional signed member.
pub fn push_opt_i64_field(out: &mut Vec<u8>, label: &str, v: &Option<i64>)
    ensures
        final(out)@ == old(out)@ + opt_i64_field_bytes(label.spec_bytes(), *v),
{
    if let Some(n) = v {
        push_str_bytes(out, label);
        push_i64_dec(out, *n);
    }
}

/// The text an optional boolean member contributes.
pub open spec fn opt_bool_field_bytes(label: Seq<u8>, v: Option<bool>) -> Seq<u8> {
    match v {
        Some(b) => label + bool_bytes(b),
        None => Seq::empty(),
    }
}

/// Writes an optional boolean member.
pub fn push_opt_bool_field(out: &mut Vec<u8>, label: &str, v: &Option<bool>)
    ensures
        final(out)@ == old(out)@ + opt_bool_field_bytes(label.spec_bytes(), *v),
{
    if let Some(b) = v {
        push_str_bytes(out, label);
        push_bool(*b, out);
    }
}

/// The text an optional string member contributes: its label, the contents
/// verbatim, and a closing quote.
pub open spec fn opt_text_field_bytes(label: Seq<u8>, v: Option<Seq<u8>>, close: Seq<u8>) -> Seq<
    u8,
> {
    match v {
        Some(t) => label + t + close,
        None => Seq::empty(),
    }
}

/// Writes an optional string member; the contents go out verbatim, as the
/// wall-clock and fine-timestamp strings of this protocol never need
/// escaping.
pub fn push_opt_text_field(out: &mut Vec<u8>, label: &str, v: &Option<Vec<u8>>, close: &str)
    ensures
        final(out)@ == old(out)@ + opt_text_field_bytes(
            label.spec_bytes(),
            match v {
                Some(t) => Some(t@),
                None => None,
            },
            close.spec_bytes(),
        ),
{
    if let Some(t) = v {
        push_str_bytes(out, label);
        push_bytes(out, t.as_slice());
        push_str_bytes(out, close);
    }
}

/// The text an optional numeric member contributes: its label and the exact
/// number text.
pub open spec fn opt_num_field_bytes(label: Seq<u8>, v: Option<Seq<u8>>) -> Seq<u8> {
    match v {
        Some(t) => label + t,
        None => Seq::empty(),
    }
}

/// Writes an optional numeric member.
pub fn push_opt_num_field(out: &mut Vec<u8>, label: &str, v: &Option<JsonNum>)
    ensures
        final(out)@ == old(out)@ + opt_num_field_bytes(
            label.spec_bytes(),
            match v {
                Some(n) => Some(n@),
                None => None,
            },
        ),
{
    if let Some(n) = v {
        push_str_bytes(out, label);
        push_bytes(out, n.text().as_slice());
    }
}

/// The text of a numeric member that is always written: its number text, or
/// the word null.
pub open spec fn num_or_null_bytes(v: Option<Seq<u8>>) -> Seq<u8> {
    match v {
        Some(t) => t,
        None => "null".spec_bytes(),
    }
}

/// Writes a numeric member that is always present, null when unset.
pub fn push_num_or_null(out: &mut Vec<u8>, v: &Option<JsonNum>)
    ensures
        final(out)@ == old(out)@ + num_or_null_bytes(
            match v {
                Some(n) => Some(n@),
                None => None,
            },
        ),
{
    match v {
        Some(n) => push_bytes(out, n.text().as_slice()),
        None => push_str_bytes(out, "null"),
    }
}

/// An optional 32-bit value widened for writing.
pub open spec fn opt_i32_widen(v: Option<i32>) -> Option<i64> {
    match v {
        Some(x) => Some(x as i64),
        None => None,
    }
}

/// An optional one-byte value widened for writing.
pub open spec fn opt_u8_widen(v: Option<u8>) -> Option<u64> {
    match v {
        Some(x) => Some(x as u64),
        None => None,
    }
}

/// The view of an optional byte vector.
pub open spec fn opt_view(v: Option<Vec<u8>>) -> Option<Seq<u8>> {
    match v {
        Some(t) => Some(t@),
        None => None,
    }
}

/// The view of an optional number.
pub open spec fn opt_num_view(v: Option<JsonNum>) -> Option<Seq<u8>> {
    match v {
        Some(n) => Some(n@),
        None => None,
    }
}

/// Copies a byte vector.
pub fn clone_bytes(v: &Vec<u8>) -> (r: Vec<u8>)
    ensures
        r@ == v@,
{
    let mut out: Vec<u8> = Vec::new();
    push_bytes(&mut out, v.as_slice());
    out
}

// ---------------------------------------------------------------------------
// Typed object members, as the body shapes read them
// ---------------------------------------------------------------------------
/// A required unsigned member: a plain integer from 0 to `u64::MAX`.
pub open spec fn spec_req_u64(fields: Seq<(Vec<u8>, JsonValue)>, key: Seq<u8>) -> Result<
    u64,
    JsonError,
> {
    match find_key(fields, key) {
        None => Err(JsonError::MissingField),
        Some(JsonValue::Number(n)) => if all_digits(n@) && n@.len() > 0 && dec_value(n@)
            <= u64::MAX {
            Ok(dec_value(n@) as u64)
        } else {
            Err(JsonError::BadField)
        },
        Some(_) => Err(JsonError::BadField),
    }
}

/// Reads a required unsigned member.
pub fn req_u64(fields: &Vec<(Vec<u8>, JsonValue)>, key: &str) -> (r: Result<u64, JsonError>)
    ensures
        r == spec_req_u64(fields@, key.spec_bytes()),
{
    match obj_get(fields, key) {
        None => Err(JsonError::MissingField),
        Some(JsonValue::Number(n)) => match n.as_u64() {
            Some(v) => Ok(v),
            None => {
                proof {
                    if all_digits(n@) && n@.len() > 0 {
                        lemma_dec_value_nonneg(n@);
                    }
                }
                Err(JsonError::BadField)
            },
        },
        Some(_) => Err(JsonError::BadField),
    }
}

/// An optional unsigned member: absent or null means none.
pub open spec fn spec_opt_u64(fields: Seq<(Vec<u8>, JsonValue)>, key: Seq<u8>) -> Result<
    Option<u64>,
    JsonError,
> {
    match find_key(fields, key) {
        None => Ok(None),
        Some(JsonValue::Null) => Ok(None),
        Some(JsonValue::Number(n)) => if all_digits(n@) && n@.len() > 0 && dec_value(n@)
            <= u64::MAX {
            Ok(Some(dec_value(n@) as u64))
        } else {
            Err(JsonError::BadField)
        },
        Some(_) => Err(JsonError::BadField),
    }
}

/// Reads an optional unsigned member.
pub fn opt_u64(fields: &Vec<(Vec<u8>, JsonValue)>, key: &str) -> (r: Result<Option<u64>, JsonError>)
    ensures
        r == spec_opt_u64(fields@, key.spec_bytes()),
{
    match obj_get(fields, key) {
        None => Ok(None),
        Some(JsonValue::Null) => Ok(None),
        Some(JsonValue::Number(n)) => match n.as_u64() {
            Some(v) => Ok(Some(v)),
            None => {
                proof {
                    if all_digits(n@) && n@.len() > 0 {
                        lemma_dec_value_nonneg(n@);
                    }
                }
                Err(JsonError::BadField)
            },
        },
        Some(_) => Err(JsonError::BadField),
    }
}

/// A required signed 32-bit member.
pub open spec fn spec_req_i32(fields: Seq<(Vec<u8>, JsonValue)>, key: Seq<u8>) -> Result<
    i32,
    JsonError,
> {
    match find_key(fields, key) {
        None => Err(JsonError::MissingField),
        Some(JsonValue::Number(n)) => match int_text_value(n@) {
            Some(v) => if i32::MIN <= v <= i32::MAX {
                Ok(v as i32)
            } else {
                Err(JsonError::BadField)
            },
            None => Err(JsonError::BadField),
        },
        Some(_) => Err(JsonError::BadField),
    }
}

/// Reads a required signed 32-bit member.
pub fn req_i32(fields: &Vec<(Vec<u8>, JsonValue)>, key: &str) -> (r: Result<i32, JsonError>)
    ensures
        r == spec_req_i32(fields@, key.spec_bytes()),
{
    match obj_get(fields, key) {
        None => Err(JsonError::MissingField),
        Some(JsonValue::Number(n)) => match n.as_i64() {
            Some(v) => if i32::MIN as i64 <= v && v <= i32::MAX as i64 {
                Ok(v as i32)
            } else {
                Err(JsonError::BadField)
            },
            None => Err(JsonError::BadField),
        },
        Some(_) => Err(JsonError::BadField),
    }
}

/// An optional signed 32-bit member: absent or null means none.
pub open spec fn spec_opt_i32(fields: Seq<(Vec<u8>, JsonValue)>, key: Seq<u8>) -> Result<
    Option<i32>,
    JsonError,
> {
    match find_key(fields, key) {
        None => Ok(None),
        Some(JsonValue::Null) => Ok(None),
        Some(JsonValue::Number(n)) => match int_text_value(n@) {
            Some(v) => if i32::MIN <= v <= i32::MAX {
                Ok(Some(v as i32))
            } else {
                Err(JsonError::BadField)
            },
            None => Err(JsonError::BadField),
        },
        Some(_) => Err(JsonError::BadField),
    }
}

/// Reads an optional signed 32-bit member.
pub fn opt_i32(fields: &Vec<(Vec<u8>, JsonValue)>, key: &str) -> (r: Result<Option<i32>, JsonError>)
    ensures
        r == spec_opt_i32(fields@, key.spec_bytes()),
{
    match obj_get(fields, key) {
        None => Ok(None),
        Some(JsonValue::Null) => Ok(None),
        Some(JsonValue::Number(n)) => match n.as_i64() {
            Some(v) => if i32::MIN as i64 <= v && v <= i32::MAX as i64 {
                Ok(Some(v as i32))
            } else {
                Err(JsonError::BadField)
            },
            None => Err(JsonError::BadField),
        },
        Some(_) => Err(JsonError::BadField),
    }
}

/// An optional signed member: absent or null means none.
pub open spec fn spec_opt_i64(fields: Seq<(Vec<u8>, JsonValue)>, key: Seq<u8>) -> Result<
    Option<i64>,
    JsonError,
> {
    match find_key(fields, key) {
        None => Ok(None),
        Some(JsonValue::Null) => Ok(None),
        Some(JsonValue::Number(n)) => match int_text_value(n@) {
            Some(v) => if i64::MIN <= v <= i64::MAX {
                Ok(Some(v as i64))
            } else {
                Err(JsonError::BadField)
            },
            None => Err(JsonError::BadField),
        },
        Some(_) => Err(JsonError::BadField),
    }
}

/// Reads an optional signed member.
pub fn opt_i64(fields: &Vec<(Vec<u8>, JsonValue)>, key: &str) -> (r: Result<Option<i64>, JsonError>)
    ensures
        r == spec_opt_i64(fields@, key.spec_bytes()),
{
    match obj_get(fields, key) {
        None => Ok(None),
        Some(JsonValue::Null) => Ok(None),
        Some(JsonValue::Number(n)) => match n.as_i64() {
            Some(v) => Ok(Some(v)),
            None => Err(JsonError::BadField),
        },
        Some(_) => Err(JsonError::BadField),
    }
}

/// A required boolean member.
pub open spec fn spec_req_bool(fields: Seq<(Vec<u8>, JsonValue)>, key: Seq<u8>) -> Result<
    bool,
    JsonError,
> {
    match find_key(fields, key) {
        None => Err(JsonError::MissingField),
        Some(JsonValue::Bool(b)) => Ok(b),
        Some(_) => Err(JsonError::BadField),
    }
}

/// Reads a required boolean member.
pub fn req_bool(fields: &Vec<(Vec<u8>, JsonValue)>, key: &str) -> (r: Result<bool, JsonError>)
    ensures
        r == spec_req_bool(fields@, key.spec_bytes()),
{
    match obj_get(fields, key) {
        None => Err(JsonError::MissingField),
        Some(JsonValue::Bool(b)) => Ok(*b),
        Some(_) => Err(JsonError::BadField),
    }
}

/// An optional boolean member: absent or null means none.
pub open spec fn spec_opt_bool(fields: Seq<(Vec<u8>, JsonValue)>, key: Seq<u8>) -> Result<
    Option<bool>,
    JsonError,
> {
    match find_key(fields, key) {
        None => Ok(None),
        Some(JsonValue::Null) => Ok(None),
        Some(JsonValue::Bool(b)) => Ok(Some(b)),
        Some(_) => Err(JsonError::BadField),
    }
}

/// Reads an optional boolean member.
pub fn opt_bool(fields: &Vec<(Vec<u8>, JsonValue)>, key: &str) -> (r: Result<
    Option<bool>,
    JsonError,
>)
    ensures
        r == spec_opt_bool(fields@, key.spec_bytes()),
{
    match obj_get(fields, key) {
        None => Ok(None),
        Some(JsonValue::Null) => Ok(None),
        Some(JsonValue::Bool(b)) => Ok(Some(*b)),
        Some(_) => Err(JsonError::BadField),
    }
}

/// A required string member, as its decoded bytes.
pub open spec fn spec_req_text(fields: Seq<(Vec<u8>, JsonValue)>, key: Seq<u8>) -> Result<
    Seq<u8>,
    JsonError,
> {
    match find_key(fields, key) {
        None => Err(JsonError::MissingField),
        Some(JsonValue::Text(t)) => Ok(t@),
        Some(_) => Err(JsonError::BadField),
    }
}

/// Reads a required string member.
pub fn req_text(fields: &Vec<(Vec<u8>, JsonValue)>, key: &str) -> (r: Result<Vec<u8>, JsonError>)
    ensures
        match r {
            Ok(t) => spec_req_text(fields@, key.spec_bytes()) == Ok::<Seq<u8>, JsonError>(t@),
            Err(e) => spec_req_text(fields@, key.spec_bytes()) == Err::<Seq<u8>, JsonError>(e),
        },
{
    match obj_get(fields, key) {
        None => Err(JsonError::MissingField),
        Some(JsonValue::Text(t)) => Ok(clone_bytes(t)),
        Some(_) => Err(JsonError::BadField),
    }
}

/// An optional string member: absent or null means none.
pub open spec fn spec_opt_text(fields: Seq<(Vec<u8>, JsonValue)>, key: Seq<u8>) -> Result<
    Option<Seq<u8>>,
    JsonError,
> {
    match find_key(fields, key) {
        None => Ok(None),
        Some(JsonValue::Null) => Ok(None),
        Some(JsonValue::Text(t)) => Ok(Some(t@)),
        Some(_) => Err(JsonError::BadField),
    }
}

/// Reads an optional string member.
pub fn opt_text(fields: &Vec<(Vec<u8>, JsonValue)>, key: &str) -> (r: Result<
    Option<Vec<u8>>,
    JsonError,
>)
    ensures
        match r {
            Ok(Some(t)) => spec_opt_text(fields@, key.spec_bytes()) == Ok::<
                Option<Seq<u8>>,
                JsonError,
            >(Some(t@)),
            Ok(None) => spec_opt_text(fields@, key.spec_bytes()) == Ok::<
                Option<Seq<u8>>,
                JsonError,
            >(None),
            Err(e) => spec_opt_text(fields@, key.spec_bytes()) == Err::<
                Option<Seq<u8>>,
                JsonError,
            >(e),
        },
{
    match obj_get(fields, key) {
        None => Ok(None),
        Some(JsonValue::Null) => Ok(None),
        Some(JsonValue::Text(t)) => Ok(Some(clone_bytes(t))),
        Some(_) => Err(JsonError::BadField),
    }
}

/// A required numeric member, kept as its exact text.
pub open spec fn spec_req_num(fields: Seq<(Vec<u8>, JsonValue)>, key: Seq<u8>) -> Result<
    Seq<u8>,
    JsonError,
> {
    match find_key(fields, key) {
        None => Err(JsonError::MissingField),
        Some(JsonValue::Number(n)) => Ok(n@),
        Some(_) => Err(JsonError::BadField),
    }
}

/// Reads a required numeric member, keeping its exact text.
pub fn req_num(fields: &Vec<(Vec<u8>, JsonValue)>, key: &str) -> (r: Result<JsonNum, JsonError>)
    ensures
        match r {
            Ok(n) => spec_req_num(fields@, key.spec_bytes()) == Ok::<Seq<u8>, JsonError>(n@),
            Err(e) => spec_req_num(fields@, key.spec_bytes()) == Err::<Seq<u8>, JsonError>(e),
        },
{
    match obj_get(fields, key) {
        None => Err(JsonError::MissingField),
        Some(JsonValue::Number(n)) => Ok(n.cloned()),
        Some(_) => Err(JsonError::BadField),
    }
}

/// An optional numeric member: absent or null means none.
pub open spec fn spec_opt_num(fields: Seq<(Vec<u8>, JsonValue)>, key: Seq<u8>) -> Result<
    Option<Seq<u8>>,
    JsonError,
> {
    match find_key(fields, key) {
        None => Ok(None),
        Some(JsonValue::Null) => Ok(None),
        Some(JsonValue::Number(n)) => Ok(Some(n@)),
        Some(_) => Err(JsonError::BadField),
    }
}

/// Reads an optional numeric member, keeping its exact text.
pub fn opt_num(fields: &Vec<(Vec<u8>, JsonValue)>, key: &str) -> (r: Result<
    Option<JsonNum>,
    JsonError,
>)
    ensures
        match r {
            Ok(Some(n)) => spec_opt_num(fields@, key.spec_bytes()) == Ok::<
                Option<Seq<u8>>,
                JsonError,
            >(Some(n@)),
            Ok(None) => spec_opt_num(fields@, key.spec_bytes()) == Ok::<
                Option<Seq<u8>>,
                JsonError,
            >(None),
            Err(e) => spec_opt_num(fields@, key.spec_bytes()) == Err::<Option<Seq<u8>>, JsonError>(
                e,
            ),
        },
{
    match obj_get(fields, key) {
        None => Ok(None),
        Some(JsonValue::Null) => Ok(None),
        Some(JsonValue::Number(n)) => Ok(Some(n.cloned())),
        Some(_) => Err(JsonError::BadField),
    }
}


} // verus!
