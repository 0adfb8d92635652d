use vstd::prelude::*;

verus! {

/// The SHA-256 digest of a byte sequence; the result depends on the bytes
/// alone.
pub uninterp spec fn sha256_of(bytes: Seq<u8>) -> Seq<u8>;

/// Relies on sha2::Sha256 (through digest::Digest::digest): a 32-byte
/// digest of the input, a function of the input alone.
#[verifier::external_body]
fn sha256_digest(bytes: &Vec<u8>) -> (r: Vec<u8>)
    ensures
        r@ == sha256_of(bytes@),
        r@.len() == 32,
{
    <sha2::Sha256 as sha2::Digest>::digest(bytes.as_slice()).to_vec()
}

/// Relies on uuid::Uuid::new_v4 and its Display impl: a random identifier
/// formatted as 36 hyphenated hexadecimal characters. Two calls may return
/// anything; nothing beyond the length is assumed.
#[verifier::external_body]
pub fn new_uuid_string() -> (r: String)
    ensures
        r@.len() == 36,
{
    uuid::Uuid::new_v4().to_string()
}

/// Relies on chrono::Utc::now / timestamp: the current unix time in whole
/// seconds. The result depends on the clock, so nothing is assumed of it.
#[verifier::external_body]
fn now_timestamp() -> (r: i64) {
    chrono::Utc::now().timestamp()
}

/// The RFC 3339 rendering of a unix-millisecond instant in UTC; a function
/// of the instant alone.
pub uninterp spec fn rfc3339_of(ms: i64) -> Seq<char>;

/// Whether chrono can represent a unix-millisecond instant; a function of
/// the instant alone.
pub uninterp spec fn rfc3339_representable(ms: i64) -> bool;

/// Relies on chrono::TimeZone::timestamp_millis_opt and
/// chrono::DateTime::to_rfc3339: the UTC rendering of the instant, `None`
/// exactly when the instant is outside chrono's representable range. That
/// range refuses only instants more than about 262,000 years from the
/// common era, so anything within 2^52 milliseconds of the epoch renders.
#[verifier::external_body]
pub(crate) fn rfc3339_utc_millis(ms: i64) -> (r: Option<String>)
    ensures
        r is Some <==> rfc3339_representable(ms),
        -0x10_0000_0000_0000 <= ms <= 0x10_0000_0000_0000 ==> r is Some,
        r is Some ==> r.unwrap()@ == rfc3339_of(ms),
{
    match chrono::TimeZone::timestamp_millis_opt(&chrono::Utc, ms) {
        chrono::LocalResult::Single(t) => Some(t.to_rfc3339()),
        _ => None,
    }
}

/// The Unicode lowercasing of a character sequence, as str::to_lowercase
/// computes it; a function of the characters alone.
pub uninterp spec fn lower_of(s: Seq<char>) -> Seq<char>;

/// Relies on str::to_lowercase: the result depends on the characters alone.
#[verifier::external_body]
pub fn lowercase(s: &str) -> (r: String)
    ensures
        r@ == lower_of(s@),
{
    s.to_lowercase()
}

/// Relies on String::push: appends the given character to the end of the
/// string.
#[verifier::external_body]
pub fn push_char(s: &mut String, c: char)
    ensures
        final(s)@ == old(s)@.push(c),
{
    s.push(c)
}

/// The current unix time clamped to non-negative seconds. Every caller
/// takes the instant as a plain value, so nothing downstream depends on
/// the clock itself.
pub fn now_unix_seconds() -> (r: u64) {
    let t = now_timestamp();
    if t < 0 {
        0
    } else {
        t as u64
    }
}

/// One lowercase hexadecimal digit for a value under sixteen.
pub open spec fn hex_digit(v: u8) -> char
    recommends
        v < 16,
{
    if v < 10 {
        (('0' as u8) + v) as char
    } else {
        (('a' as u8) + (v - 10) as u8) as char
    }
}

/// The lowercase hexadecimal rendering of a byte sequence, two digits per
/// byte.
pub open spec fn hex_of(bytes: Seq<u8>) -> Seq<char>
    decreases bytes.len(),
{
    if bytes.len() == 0 {
        Seq::<char>::empty()
    } else {
        seq![hex_digit(bytes[0] / 16), hex_digit(bytes[0] % 16)] + hex_of(bytes.drop_first())
    }
}

/// Renders bytes as lowercase hexadecimal text.
pub fn to_hex(bytes: &Vec<u8>) -> (r: String)
    ensures
        r@ == hex_of(bytes@),
        r@.len() == 2 * bytes@.len(),
{
    let mut out = String::new();
    let mut i: usize = 0;
    proof {
        lemma_hex_of_len(bytes@);
    }
    while i < bytes.len()
        invariant
            i <= bytes@.len(),
            out@ == hex_of(bytes@.take(i as int)),
            out@.len() == 2 * i,
        decreases bytes@.len() - i,
    {
        let b = bytes[i];
        let hi: u8 = b / 16;
        let lo: u8 = b % 16;
        push_char(&mut out, exec_hex_digit(hi));
        push_char(&mut out, exec_hex_digit(lo));
        proof {
            lemma_hex_of_snoc(bytes@, i as int);
        }
        i = i + 1;
    }
    proof {
        assert(bytes@.take(bytes@.len() as int) =~= bytes@);
    }
    out
}

fn exec_hex_digit(v: u8) -> (c: char)
    requires
        v < 16,
    ensures
        c == hex_digit(v),
{
    if v < 10 {
        (('0' as u8) + v) as char
    } else {
        (('a' as u8) + (v - 10)) as char
    }
}

proof fn lemma_hex_of_len(bytes: Seq<u8>)
    ensures
        hex_of(bytes).len() == 2 * bytes.len(),
    decreases bytes.len(),
{
    if bytes.len() > 0 {
        lemma_hex_of_len(bytes.drop_first());
    }
}

proof fn lemma_hex_of_snoc(bytes: Seq<u8>, i: int)
    requires
        0 <= i < bytes.len(),
    ensures
        hex_of(bytes.take(i + 1)) == hex_of(bytes.take(i)) + seq![
            hex_digit(bytes[i] / 16),
            hex_digit(bytes[i] % 16),
        ],
    decreases i,
{
    if i == 0 {
        assert(bytes.take(1).drop_first() =~= bytes.take(0));
        assert(hex_of(bytes.take(0)) == Seq::<char>::empty());
        assert(hex_of(bytes.take(1)) =~= seq![
            hex_digit(bytes[0] / 16),
            hex_digit(bytes[0] % 16),
        ]);
    } else {
        lemma_hex_of_snoc(bytes.drop_first(), i - 1);
        assert(bytes.take(i + 1).drop_first() =~= bytes.drop_first().take(i));
        assert(bytes.take(i).drop_first() =~= bytes.drop_first().take(i - 1));
        assert(hex_of(bytes.take(i + 1)) == seq![
            hex_digit(bytes[0] / 16),
            hex_digit(bytes[0] % 16),
        ] + hex_of(bytes.drop_first().take(i)));
        assert(hex_of(bytes.take(i)) == seq![
            hex_digit(bytes[0] / 16),
            hex_digit(bytes[0] % 16),
        ] + hex_of(bytes.drop_first().take(i - 1)));
        assert(hex_of(bytes.take(i + 1)) =~= hex_of(bytes.take(i)) + seq![
            hex_digit(bytes[i] / 16),
            hex_digit(bytes[i] % 16),
        ]);
    }
}

/// One decimal digit, as a byte of text.
pub open spec fn dec_digit_byte(v: u8) -> u8
    recommends
        v < 10,
{
    (('0' as u8) + v) as u8
}

/// The decimal rendering of an unsigned value, as bytes of text.
pub open spec fn dec_bytes_of(n: u64) -> Seq<u8>
    decreases n,
{
    if n < 10 {
        seq![dec_digit_byte((n % 10) as u8)]
    } else {
        dec_bytes_of(n / 10).push(dec_digit_byte((n % 10) as u8))
    }
}

/// Renders an unsigned value in decimal, as bytes of text.
pub fn dec_u64_bytes(n: u64) -> (r: Vec<u8>)
    ensures
        r@ == dec_bytes_of(n),
    decreases n,
{
    if n < 10 {
        let mut out: Vec<u8> = Vec::new();
        out.push(('0' as u8) + (n % 10) as u8);
        proof {
            assert(out@ =~= dec_bytes_of(n));
        }
        out
    } else {
        let mut out = dec_u64_bytes(n / 10);
        out.push(('0' as u8) + (n % 10) as u8);
        proof {
            assert(out@ =~= dec_bytes_of(n));
        }
        out
    }
}

/// One decimal digit, as a character.
pub open spec fn dec_digit_char(v: u8) -> char
    recommends
        v < 10,
{
    (('0' as u8) + v) as char
}

/// The decimal rendering of an unsigned value, as characters.
pub open spec fn dec_chars_of(n: u64) -> Seq<char>
    decreases n,
{
    if n < 10 {
        seq![dec_digit_char((n % 10) as u8)]
    } else {
        dec_chars_of(n / 10).push(dec_digit_char((n % 10) as u8))
    }
}

/// Renders an unsigned value in decimal.
pub fn dec_u64_string(n: u64) -> (r: String)
    ensures
        r@ == dec_chars_of(n),
    decreases n,
{
    if n < 10 {
        let mut out = String::new();
        push_char(&mut out, (('0' as u8) + (n % 10) as u8) as char);
        proof {
            assert(out@ =~= dec_chars_of(n));
        }
        out
    } else {
        let mut out = dec_u64_string(n / 10);
        push_char(&mut out, (('0' as u8) + (n % 10) as u8) as char);
        proof {
            assert(out@ =~= dec_chars_of(n));
        }
        out
    }
}

/// The token text hashed for a given instant: the distance of the instant
/// from the largest signed 64-bit value, in decimal.
pub open spec fn token_seed(now: i64) -> Seq<u8>
    recommends
        now >= 0,
{
    dec_bytes_of((0x7fff_ffff_ffff_ffffi64 - now) as u64)
}

/// The server-issued opaque token for a given instant: the hexadecimal
/// SHA-256 digest of the token seed.
pub open spec fn token_of(now: i64) -> Seq<char> {
    hex_of(sha256_of(token_seed(now)))
}

/// Derives an opaque bearer token from an instant.
pub fn generate_token_at(now: i64) -> (r: String)
    requires
        now >= 0,
    ensures
        r@ == token_of(now),
        r@.len() == 64,
{
    let seed = dec_u64_bytes(i64::MAX as u64 - now as u64);
    let digest = sha256_digest(&seed);
    to_hex(&digest)
}

/// Derives an opaque bearer token from the clock, as a fresh identity for
/// an account or a subscriber.
pub fn generate_token() -> (r: String)
    ensures
        r@.len() == 64,
{
    let t = now_timestamp();
    let t = if t < 0 {
        0
    } else {
        t
    };
    generate_token_at(t)
}

} // verus!
