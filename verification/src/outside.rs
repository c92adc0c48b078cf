//! What the library takes from other crates: message authentication codes (`hmac`, `sha2`),
//! hexadecimal (`hex`), build identifiers (`uuid`) and calendar time (`chrono`).
//!
//! The contracts of the functions marked as external are taken on trust from those crates.

use vstd::arithmetic::power::pow;
use vstd::prelude::*;

verus! {

// ---------------------------------------------------------------------------------------------
// Message authentication codes
// ---------------------------------------------------------------------------------------------
/// The HMAC-SHA-256 code of `message` under `key`.
pub uninterp spec fn hmac_sha256(key: Seq<u8>, message: Seq<u8>) -> Seq<u8>;

/// Calls `Hmac::<Sha256>::new_from_slice`, `update` and `finalize` of the crate `hmac`: the code
/// of `message` under `key`, of the 32 bytes that SHA-256 puts out. A key of any length is
/// accepted.
#[verifier::external_body]
pub(crate) fn mac_of(key: &[u8], message: &[u8]) -> (res: Vec<u8>)
    ensures
        res@ == hmac_sha256(key@, message@),
        res@.len() == 32,
{
    let mut mac = <hmac::Hmac<sha2::Sha256> as hmac::Mac>::new_from_slice(key).unwrap();
    hmac::Mac::update(&mut mac, message);
    hmac::Mac::finalize(mac).into_bytes().to_vec()
}

/// Calls `Hmac::<Sha256>::new_from_slice`, `update` and `verify_slice` of the crate `hmac`: in
/// constant time, whether `tag` is, in full length, the code that `finalize` would give.
#[verifier::external_body]
pub(crate) fn mac_matches(key: &[u8], message: &[u8], tag: &[u8]) -> (res: bool)
    ensures
        res == (tag@ == hmac_sha256(key@, message@)),
{
    let mut mac = <hmac::Hmac<sha2::Sha256> as hmac::Mac>::new_from_slice(key).unwrap();
    hmac::Mac::update(&mut mac, message);
    hmac::Mac::verify_slice(mac, tag).is_ok()
}

// ---------------------------------------------------------------------------------------------
// Hexadecimal
// ---------------------------------------------------------------------------------------------
/// The error of the crate `hex` for a text that is no hexadecimal numeral of whole bytes.
#[verifier::external_type_specification]
#[verifier::external_body]
pub struct ExFromHexError(hex::FromHexError);

/// The lower-case hexadecimal digit of value `d`.
pub open spec fn hex_digit(d: int) -> char {
    if d < 10 {
        (48 + d) as char
    } else {
        (87 + d) as char
    }
}

/// Whether `c` is a hexadecimal digit, of either case.
pub open spec fn is_hex_digit(c: char) -> bool {
    '0' <= c <= '9' || 'a' <= c <= 'f' || 'A' <= c <= 'F'
}

/// Whether `c` is a lower-case hexadecimal digit.
pub open spec fn is_lower_hex_digit(c: char) -> bool {
    '0' <= c <= '9' || 'a' <= c <= 'f'
}

/// The value of a hexadecimal digit.
pub open spec fn hex_value(c: char) -> int {
    if '0' <= c <= '9' {
        c as int - 48
    } else if 'a' <= c <= 'f' {
        c as int - 87
    } else {
        c as int - 55
    }
}

/// Two lower-case hexadecimal digits for each byte, the higher half first.
pub open spec fn hex_text(bytes: Seq<u8>) -> Seq<char> {
    Seq::new(
        2 * bytes.len(),
        |i: int|
            hex_digit(
                if i % 2 == 0 {
                    bytes[i / 2] as int / 16
                } else {
                    bytes[i / 2] as int % 16
                },
            ),
    )
}

/// Whether `s` is an even number of hexadecimal digits.
pub open spec fn is_hex_text(s: Seq<char>) -> bool {
    s.len() % 2 == 0 && forall|i: int| 0 <= i < s.len() ==> is_hex_digit(s[i])
}

/// The bytes that an even number of hexadecimal digits stand for.
pub open spec fn hex_bytes(s: Seq<char>) -> Seq<u8> {
    Seq::new(s.len() / 2, |i: int| (16 * hex_value(s[2 * i]) + hex_value(s[2 * i + 1])) as u8)
}

/// Calls `hex::encode`: two lower-case digits for each byte.
#[verifier::external_body]
pub(crate) fn hex_encode(bytes: &[u8]) -> (res: String)
    ensures
        res@ == hex_text(bytes@),
{
    hex::encode(bytes)
}

/// Calls `hex::decode`: the bytes of an even number of digits of either case, and an error for
/// any other text.
#[verifier::external_body]
pub(crate) fn hex_decode(s: &str) -> (res: Result<Vec<u8>, hex::FromHexError>)
    ensures
        res is Ok <==> is_hex_text(s@),
        res matches Ok(bytes) ==> bytes@ == hex_bytes(s@),
{
    hex::decode(s)
}

/// Bytes are written in lower-case hexadecimal digits and read back as the same bytes.
pub proof fn law_hex_round_trip(bytes: Seq<u8>)
    ensures
        forall|i: int| 0 <= i < hex_text(bytes).len() ==> is_lower_hex_digit(hex_text(bytes)[i]),
        is_hex_text(hex_text(bytes)),
        hex_bytes(hex_text(bytes)) == bytes,
{
    let s = hex_text(bytes);
    assert forall|i: int| 0 <= i < s.len() implies is_lower_hex_digit(s[i]) by {
        assert(0 <= bytes[i / 2] as int / 16 < 16);
        assert(0 <= bytes[i / 2] as int % 16 < 16);
    }
    assert(s.len() / 2 == bytes.len());
    assert forall|i: int| 0 <= i < bytes.len() implies hex_bytes(s)[i] == bytes[i] by {
        let b = bytes[i] as int;
        assert((2 * i) / 2 == i && (2 * i) % 2 == 0);
        assert((2 * i + 1) / 2 == i && (2 * i + 1) % 2 == 1);
        assert(s[2 * i] == hex_digit(b / 16));
        assert(s[2 * i + 1] == hex_digit(b % 16));
        assert(hex_value(hex_digit(b / 16)) == b / 16);
        assert(hex_value(hex_digit(b % 16)) == b % 16);
        assert(16 * (b / 16) + b % 16 == b);
    }
    assert(hex_bytes(s) =~= bytes);
}

// ---------------------------------------------------------------------------------------------
// Build identifiers
// ---------------------------------------------------------------------------------------------
/// The 32 lower-case hexadecimal digits of `id`, the most significant first.
pub open spec fn uuid_digits(id: u128) -> Seq<char> {
    Seq::new(32, |k: int| hex_digit((id as int / pow(16, (31 - k) as nat)) % 16))
}

/// The text of an identifier: its digits in groups of 8, 4, 4, 4 and 12, with hyphens between.
pub open spec fn uuid_text(id: u128) -> Seq<char> {
    let d = uuid_digits(id);
    d.subrange(0, 8) + seq!['-'] + d.subrange(8, 12) + seq!['-'] + d.subrange(12, 16) + seq!['-']
        + d.subrange(16, 20) + seq!['-'] + d.subrange(20, 32)
}

/// Calls `Uuid::from_u128` and `to_string` of the crate `uuid`: the lower-case hyphenated text.
#[verifier::external_body]
pub(crate) fn uuid_to_text(id: u128) -> (res: String)
    ensures
        res@ == uuid_text(id),
{
    uuid::Uuid::from_u128(id).to_string()
}

/// Calls `Uuid::new_v4` of the crate `uuid`: a random identifier, of which only the version, 4, and
/// the variant are fixed. Without a source of random numbers the call panics.
#[verifier::external_body]
pub(crate) fn random_id() -> (res: u128)
    ensures
        (res as int / 0x1000_0000_0000_0000_0000) % 16 == 4,
        (res as int / 0x4000_0000_0000_0000) % 4 == 2,
{
    uuid::Uuid::new_v4().as_u128()
}

/// Numbers with the same lowest hexadecimal digits and the same rest are the same.
proof fn lemma_same_digits(a: int, b: int, n: nat)
    requires
        0 <= a,
        0 <= b,
        a / pow(16, n) == b / pow(16, n),
        forall|j: nat| j < n ==> #[trigger] (a / pow(16, j)) % 16 == (b / pow(16, j)) % 16,
    ensures
        a == b,
    decreases n,
{
    vstd::arithmetic::power::lemma_pow0(16);
    if n == 0 {
        vstd::arithmetic::div_mod::lemma_div_basics_2(a);
        vstd::arithmetic::div_mod::lemma_div_basics_2(b);
    } else {
        let m = (n - 1) as nat;
        vstd::arithmetic::power::lemma_pow_positive(16, m);
        lemma_pow_increases_by_one(m);
        vstd::arithmetic::div_mod::lemma_div_denominator(a, pow(16, m), 16);
        vstd::arithmetic::div_mod::lemma_div_denominator(b, pow(16, m), 16);
        assert((a / pow(16, m)) % 16 == (b / pow(16, m)) % 16);
        vstd::arithmetic::div_mod::lemma_fundamental_div_mod(a / pow(16, m), 16);
        vstd::arithmetic::div_mod::lemma_fundamental_div_mod(b / pow(16, m), 16);
        lemma_same_digits(a, b, m);
    }
}

/// One more digit is a factor of sixteen.
proof fn lemma_pow_increases_by_one(m: nat)
    ensures
        pow(16, m + 1) == pow(16, m) * 16,
{
    vstd::arithmetic::power::lemma_pow_adds(16, m, 1);
    vstd::arithmetic::power::lemma_pow1(16);
}

/// Different identifiers have different texts.
pub proof fn law_id_text_unique(a: u128, b: u128)
    requires
        uuid_text(a) == uuid_text(b),
    ensures
        a == b,
{
    let da = uuid_digits(a);
    let db = uuid_digits(b);
    let ta = uuid_text(a);
    let tb = uuid_text(b);
    assert forall|k: int| 0 <= k < 32 implies da[k] == db[k] by {
        let at = if k < 8 {
            k
        } else if k < 12 {
            k + 1
        } else if k < 16 {
            k + 2
        } else if k < 20 {
            k + 3
        } else {
            k + 4
        };
        assert(ta[at] == da[k]);
        assert(tb[at] == db[k]);
    }
    assert forall|j: nat| j < 32 implies #[trigger] (a as int / pow(16, j)) % 16 == (b as int / pow(
        16,
        j,
    )) % 16 by {
        let k = 31 - j;
        assert(da[k] == db[k]);
        let x = (a as int / pow(16, j)) % 16;
        let y = (b as int / pow(16, j)) % 16;
        assert(da[k] == hex_digit(x));
        assert(db[k] == hex_digit(y));
        assert(hex_value(hex_digit(x)) == x);
        assert(hex_value(hex_digit(y)) == y);
    }
    let p8 = pow(16, 8);
    let p16 = pow(16, 16);
    let p32 = pow(16, 32);
    assert(p8 == 0x1_0000_0000) by {
        reveal(pow);
        reveal_with_fuel(pow, 9);
    }
    vstd::arithmetic::power::lemma_pow_adds(16, 8, 8);
    vstd::arithmetic::power::lemma_pow_adds(16, 16, 16);
    assert(p32 == 0x1_0000_0000_0000_0000_0000_0000_0000_0000) by (nonlinear_arith)
        requires
            p8 == 0x1_0000_0000,
            p16 == p8 * p8,
            p32 == p16 * p16,
    ;
    vstd::arithmetic::div_mod::lemma_basic_div(a as int, pow(16, 32));
    vstd::arithmetic::div_mod::lemma_basic_div(b as int, pow(16, 32));
    lemma_same_digits(a as int, b as int, 32);
}

// ---------------------------------------------------------------------------------------------
// Calendar time
// ---------------------------------------------------------------------------------------------
/// The first second that the calendar of `chrono` covers, counted from the Unix epoch.
pub const FIRST_SECOND: i64 = -8334601228800;

/// The last second that the calendar of `chrono` covers.
pub const LAST_SECOND: i64 = 8210266876799;

/// The instants that `chrono` can represent. A leap second is one behind second 59 of a minute,
/// with more than 999,999,999 nanoseconds.
pub open spec fn valid_instant(secs: i64, nanos: u32) -> bool {
    &&& FIRST_SECOND <= secs <= LAST_SECOND
    &&& nanos < 1_000_000_000 || (nanos < 2_000_000_000 && secs as int % 60 == 59)
}

/// The pattern of date, time of day and zone.
pub const TO_THE_SECOND: &'static str = "%Y-%m-%d %H:%M:%S UTC";

/// The pattern of date, hour, minute and zone.
pub const TO_THE_MINUTE: &'static str = "%Y-%m-%d %H:%M UTC";

/// An instant in UTC, written by a pattern of `strftime`.
pub uninterp spec fn utc_text(secs: i64, nanos: u32, pattern: Seq<char>) -> Seq<char>;

/// An instant in UTC, written as RFC 3339 demands.
pub uninterp spec fn rfc3339_text(secs: i64, nanos: u32) -> Seq<char>;

/// Calls `DateTime::from_timestamp` and `format` of the crate `chrono`, with one of the two
/// patterns above: the instant's text is a function of the instant and the pattern.
#[verifier::external_body]
pub(crate) fn utc_format(secs: i64, nanos: u32, pattern: &str) -> (res: String)
    requires
        valid_instant(secs, nanos),
        pattern@ == TO_THE_SECOND@ || pattern@ == TO_THE_MINUTE@,
    ensures
        res@ == utc_text(secs, nanos, pattern@),
{
    chrono::DateTime::from_timestamp(secs, nanos).unwrap().format(pattern).to_string()
}

/// Calls `DateTime::from_timestamp` and `to_rfc3339` of the crate `chrono`: the instant's text is
/// a function of the instant.
#[verifier::external_body]
pub(crate) fn utc_rfc3339(secs: i64, nanos: u32) -> (res: String)
    requires
        valid_instant(secs, nanos),
    ensures
        res@ == rfc3339_text(secs, nanos),
{
    chrono::DateTime::from_timestamp(secs, nanos).unwrap().to_rfc3339()
}

/// Calls `Utc::now` of the crate `chrono`: the present, which lies after the Unix epoch and is in no
/// leap second. With a clock that is set before the epoch the call panics.
#[verifier::external_body]
pub(crate) fn utc_now() -> (res: (i64, u32))
    ensures
        valid_instant(res.0, res.1),
        res.0 >= 0,
        res.1 < 1_000_000_000,
{
    let now = chrono::Utc::now();
    (now.timestamp(), now.timestamp_subsec_nanos())
}

/// The seconds that a leap second adds between two instants, by the time of day of each.
pub open spec fn leap_between(secs1: int, nanos1: int, secs2: int, nanos2: int) -> int {
    if secs2 % 86400 > secs1 % 86400 && nanos1 >= 1_000_000_000 {
        1
    } else if secs2 % 86400 < secs1 % 86400 && nanos2 >= 1_000_000_000 {
        -1
    } else {
        0
    }
}

/// The nanoseconds from the first instant to the second.
pub open spec fn nanos_between(secs1: int, nanos1: int, secs2: int, nanos2: int) -> int {
    (secs2 - secs1 + leap_between(secs1, nanos1, secs2, nanos2)) * 1_000_000_000 + (nanos2 - nanos1)
}

/// `n` divided by `d`, rounded toward zero.
pub open spec fn toward_zero(n: int, d: int) -> int {
    if n >= 0 {
        n / d
    } else {
        -((-n) / d)
    }
}

/// Calls `DateTime::from_timestamp`, the subtraction of two and `num_seconds` of the crate
/// `chrono`: the whole seconds from the first instant to the second, rounded toward zero.
#[verifier::external_body]
pub(crate) fn utc_seconds_between(secs1: i64, nanos1: u32, secs2: i64, nanos2: u32) -> (res: i64)
    requires
        valid_instant(secs1, nanos1),
        valid_instant(secs2, nanos2),
    ensures
        res == toward_zero(
            nanos_between(secs1 as int, nanos1 as int, secs2 as int, nanos2 as int),
            1_000_000_000,
        ),
{
    let start = chrono::DateTime::from_timestamp(secs1, nanos1).unwrap();
    let end = chrono::DateTime::from_timestamp(secs2, nanos2).unwrap();
    (end - start).num_seconds()
}

} // verus!
