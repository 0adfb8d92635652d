use vstd::prelude::*;

use crate::entities::{Emotion, EmotionV, GoogleWebhook, GoogleWebhookV, Patient, PatientV, RwUser,
    RwUserV, Session, SessionV, Settings, SettingsV, TimelineEvent, TimelineEventV};
use crate::remote::{RemoteEvent, RemoteEventV};
use crate::multipart::{chars_of, dec_value, digit_val, is_digit, leading_digits};
use crate::support::{dec_chars_of, dec_u64_string, push_char};

verus! {

// ---------------------------------------------------------------------------
// The persisted form of the store is one JSON text per entity and one for
// the account snapshot. The text grammar below is the project's own: the
// encoders produce it and the parsers read exactly it back, and the
// round-trip laws say that a reload reconstructs what was saved.
// ---------------------------------------------------------------------------
/// A text character as it appears inside an encoded string: quote and
/// backslash are escaped, everything else stands for itself.
pub open spec fn esc_char(c: char) -> Seq<char> {
    if c == '"' || c == '\\' {
        seq!['\\', c]
    } else {
        seq![c]
    }
}

/// The escaped body of an encoded string.
pub open spec fn enc_str_body(s: Seq<char>) -> Seq<char>
    decreases s.len(),
{
    if s.len() == 0 {
        Seq::empty()
    } else {
        esc_char(s[0]) + enc_str_body(s.drop_first())
    }
}

/// An encoded string: the escaped body between quotes.
pub open spec fn enc_string(s: Seq<char>) -> Seq<char> {
    seq!['"'] + enc_str_body(s) + seq!['"']
}

/// Reads an escaped string body up to and including the closing quote;
/// yields the decoded text and how many characters were consumed.
pub open spec fn parse_str_body(s: Seq<char>) -> Option<(Seq<char>, int)>
    decreases s.len(),
{
    if s.len() == 0 {
        None
    } else if s[0] == '"' {
        Some((Seq::empty(), 1))
    } else if s[0] == '\\' {
        if s.len() >= 2 {
            match parse_str_body(s.skip(2)) {
                Some(p) => Some((seq![s[1]] + p.0, p.1 + 2)),
                None => None,
            }
        } else {
            None
        }
    } else {
        match parse_str_body(s.drop_first()) {
            Some(p) => Some((seq![s[0]] + p.0, p.1 + 1)),
            None => None,
        }
    }
}

/// Reads an encoded string from the front of the text.
pub open spec fn parse_string(s: Seq<char>) -> Option<(Seq<char>, int)> {
    if s.len() > 0 && s[0] == '"' {
        match parse_str_body(s.drop_first()) {
            Some(p) => Some((p.0, p.1 + 1)),
            None => None,
        }
    } else {
        None
    }
}

/// Parsing inverts encoding for string bodies, whatever follows the
/// closing quote.
pub proof fn lemma_str_body_round_trip(v: Seq<char>, rest: Seq<char>)
    ensures
        parse_str_body(enc_str_body(v) + seq!['"'] + rest) == Some(
            (v, (enc_str_body(v).len() + 1) as int),
        ),
    decreases v.len(),
{
    let s = enc_str_body(v) + seq!['"'] + rest;
    if v.len() == 0 {
        assert(s[0] == '"');
        assert(parse_str_body(s) == Some((Seq::<char>::empty(), 1int)));
        assert(Seq::<char>::empty() =~= v);
    } else {
        let c = v[0];
        lemma_str_body_round_trip(v.drop_first(), rest);
        let tail = enc_str_body(v.drop_first()) + seq!['"'] + rest;
        if c == '"' || c == '\\' {
            assert(s[0] == '\\' && s[1] == c);
            assert(s.len() >= 2);
            assert(s.skip(2) =~= tail);
            assert(seq![s[1]] + (parse_str_body(tail).unwrap().0) =~= v);
        } else {
            assert(s[0] == c);
            assert(c != '"' && c != '\\');
            assert(s.drop_first() =~= tail);
            assert(seq![s[0]] + (parse_str_body(tail).unwrap().0) =~= v);
        }
    }
}

/// Parsing inverts encoding for whole strings.
pub proof fn lemma_string_round_trip(v: Seq<char>, rest: Seq<char>)
    ensures
        parse_string(enc_string(v) + rest) == Some((v, enc_string(v).len() as int)),
{
    let s = enc_string(v) + rest;
    assert(s[0] == '"');
    assert(s.drop_first() =~= enc_str_body(v) + seq!['"'] + rest);
    lemma_str_body_round_trip(v, rest);
    lemma_enc_str_body_len(v);
}

proof fn lemma_enc_str_body_len(v: Seq<char>)
    ensures
        enc_str_body(v).len() >= v.len(),
        enc_string(v).len() == enc_str_body(v).len() + 2,
    decreases v.len(),
{
    if v.len() > 0 {
        lemma_enc_str_body_len(v.drop_first());
    }
}

/// Reads an unsigned decimal number from the front of the text.
pub open spec fn parse_u64(s: Seq<char>) -> Option<(u64, int)> {
    let ds = leading_digits(s);
    if ds.len() == 0 || dec_value(ds) > u64::MAX {
        None
    } else {
        Some((dec_value(ds) as u64, ds.len() as int))
    }
}

/// Every digit of a decimal rendering is a digit, and there is at least
/// one.
pub proof fn lemma_dec_chars_digits(n: u64)
    ensures
        dec_chars_of(n).len() >= 1,
        forall|j: int| 0 <= j < dec_chars_of(n).len() ==> is_digit(#[trigger] dec_chars_of(n)[j]),
    decreases n,
{
    if n >= 10 {
        lemma_dec_chars_digits(n / 10);
    }
}

/// The decimal rendering reads back as the number it renders.
pub proof fn lemma_dec_chars_value(n: u64)
    ensures
        dec_value(dec_chars_of(n)) == n,
    decreases n,
{
    if n < 10 {
        let c = crate::support::dec_digit_char((n % 10) as u8);
        assert(dec_chars_of(n) =~= seq![c]);
        assert(seq![c].drop_last() =~= Seq::<char>::empty());
        assert(dec_value(Seq::<char>::empty()) == 0);
        assert(seq![c].last() == c);
        assert(dec_value(seq![c]) == digit_val(c));
        assert(c as int == '0' as int + n);
        assert(digit_val(c) == n);
    } else {
        lemma_dec_chars_value(n / 10);
        assert(dec_chars_of(n).drop_last() =~= dec_chars_of(n / 10));
        assert(dec_chars_of(n).last() == crate::support::dec_digit_char((n % 10) as u8));
    }
}

/// The digit run of a digit text followed by a non-digit is the digit text.
pub proof fn lemma_leading_digits_concat(a: Seq<char>, rest: Seq<char>)
    requires
        forall|j: int| 0 <= j < a.len() ==> is_digit(#[trigger] a[j]),
        rest.len() == 0 || !is_digit(rest[0]),
    ensures
        leading_digits(a + rest) == a,
    decreases a.len(),
{
    if a.len() == 0 {
        assert(a + rest =~= rest);
        if rest.len() > 0 {
            assert(leading_digits(rest) =~= Seq::<char>::empty());
        }
        assert(leading_digits(a + rest) =~= a);
    } else {
        assert((a + rest)[0] == a[0]);
        lemma_leading_digits_concat(a.drop_first(), rest);
        assert((a + rest).drop_first() =~= a.drop_first() + rest);
        assert(leading_digits(a + rest) =~= seq![a[0]] + leading_digits(
            a.drop_first() + rest,
        ));
        assert(seq![a[0]] + a.drop_first() =~= a);
    }
}

/// Parsing inverts encoding for numbers, provided the next character is
/// not a digit — in every record a comma, brace or bracket follows.
pub proof fn lemma_u64_round_trip(n: u64, rest: Seq<char>)
    requires
        rest.len() == 0 || !is_digit(rest[0]),
    ensures
        parse_u64(dec_chars_of(n) + rest) == Some((n, dec_chars_of(n).len() as int)),
{
    lemma_dec_chars_digits(n);
    lemma_dec_chars_value(n);
    lemma_leading_digits_concat(dec_chars_of(n), rest);
}

/// Does the text begin with the given prefix?
pub open spec fn starts_with(s: Seq<char>, prefix: Seq<char>) -> bool {
    s.len() >= prefix.len() && s.take(prefix.len() as int) == prefix
}

pub proof fn lemma_starts_with_concat(prefix: Seq<char>, rest: Seq<char>)
    ensures
        starts_with(prefix + rest, prefix),
        (prefix + rest).skip(prefix.len() as int) == rest,
{
    assert((prefix + rest).take(prefix.len() as int) =~= prefix);
    assert((prefix + rest).skip(prefix.len() as int) =~= rest);
}

/// Reads a fixed literal from the front of the text.
pub open spec fn parse_lit(s: Seq<char>, lit: Seq<char>) -> Option<int> {
    if starts_with(s, lit) {
        Some(lit.len() as int)
    } else {
        None
    }
}

/// An optional unsigned byte: `null` or the number.
pub open spec fn enc_opt_u8(a: Option<u8>) -> Seq<char> {
    match a {
        None => "null"@,
        Some(v) => dec_chars_of(v as u64),
    }
}

pub open spec fn parse_opt_u8(s: Seq<char>) -> Option<(Option<u8>, int)> {
    if starts_with(s, "null"@) {
        Some((None, "null"@.len() as int))
    } else {
        match parse_u64(s) {
            Some(p) => if p.0 <= 255 {
                Some((Some(p.0 as u8), p.1))
            } else {
                None
            },
            None => None,
        }
    }
}

/// An optional text value: `null` or the encoded string.
pub open spec fn enc_opt_string(a: Option<Seq<char>>) -> Seq<char> {
    match a {
        None => "null"@,
        Some(v) => enc_string(v),
    }
}

pub open spec fn parse_opt_string(s: Seq<char>) -> Option<(Option<Seq<char>>, int)> {
    if starts_with(s, "null"@) {
        Some((None, "null"@.len() as int))
    } else {
        match parse_string(s) {
            Some(p) => Some((Some(p.0), p.1)),
            None => None,
        }
    }
}

/// A boolean: one of the two words.
pub open spec fn enc_bool(b: bool) -> Seq<char> {
    if b {
        "true"@
    } else {
        "false"@
    }
}

pub open spec fn parse_bool(s: Seq<char>) -> Option<(bool, int)> {
    if starts_with(s, "true"@) {
        Some((true, "true"@.len() as int))
    } else if starts_with(s, "false"@) {
        Some((false, "false"@.len() as int))
    } else {
        None
    }
}

pub proof fn lemma_opt_u8_round_trip(a: Option<u8>, rest: Seq<char>)
    requires
        rest.len() == 0 || !is_digit(rest[0]),
    ensures
        parse_opt_u8(enc_opt_u8(a) + rest) == Some((a, enc_opt_u8(a).len() as int)),
{
    reveal_strlit("null");
    let s = enc_opt_u8(a) + rest;
    match a {
        None => {
            lemma_starts_with_concat("null"@, rest);
        },
        Some(v) => {
            lemma_dec_chars_digits(v as u64);
            lemma_u64_round_trip(v as u64, rest);
            if starts_with(s, "null"@) {
                assert(s.take("null"@.len() as int)[0] == "null"@[0]);
                assert(s[0] == 'n');
                assert(s[0] == dec_chars_of(v as u64)[0]);
                assert(is_digit(s[0]));
                assert(false);
            }
        },
    }
}

pub proof fn lemma_opt_string_round_trip(a: Option<Seq<char>>, rest: Seq<char>)
    requires
        rest.len() == 0 || rest[0] != '"',
    ensures
        parse_opt_string(enc_opt_string(a) + rest) == Some((a, enc_opt_string(a).len() as int)),
{
    reveal_strlit("null");
    let s = enc_opt_string(a) + rest;
    match a {
        None => {
            lemma_starts_with_concat("null"@, rest);
            if s.len() > 0 && s[0] == '"' {
                assert(s[0] == 'n');
                assert(false);
            }
        },
        Some(v) => {
            lemma_string_round_trip(v, rest);
            if starts_with(s, "null"@) {
                assert(s.take("null"@.len() as int)[0] == "null"@[0]);
                assert(s[0] == 'n');
                assert(s[0] == enc_string(v)[0]);
                assert(false);
            }
        },
    }
}

pub proof fn lemma_bool_round_trip(b: bool, rest: Seq<char>)
    requires
        rest.len() == 0 || (rest[0] != 'r' && rest[0] != 'a'),
    ensures
        parse_bool(enc_bool(b) + rest) == Some((b, enc_bool(b).len() as int)),
{
    reveal_strlit("true");
    reveal_strlit("false");
    let s = enc_bool(b) + rest;
    if b {
        lemma_starts_with_concat("true"@, rest);
    } else {
        lemma_starts_with_concat("false"@, rest);
        if starts_with(s, "true"@) {
            assert(s[0] == 't' && s[0] == 'f');
            assert(false);
        }
    }
}

// ---------------------------------------------------------------------------
// Executable encoders. Each appends its piece to the output text.
// ---------------------------------------------------------------------------
proof fn lemma_enc_str_body_snoc(v: Seq<char>, i: int)
    requires
        0 <= i < v.len(),
    ensures
        enc_str_body(v.take(i + 1)) == enc_str_body(v.take(i)) + esc_char(v[i]),
    decreases i,
{
    if i == 0 {
        assert(v.take(1)[0] == v[0]);
        assert(v.take(1).drop_first() =~= v.take(0));
        assert(enc_str_body(v.take(0)) =~= Seq::<char>::empty());
        assert(enc_str_body(v.take(1)) =~= esc_char(v[0]));
        assert(enc_str_body(v.take(0)) + esc_char(v[0]) =~= esc_char(v[0]));
    } else {
        lemma_enc_str_body_snoc(v.drop_first(), i - 1);
        assert(v.take(i + 1)[0] == v[0]);
        assert(v.take(i)[0] == v[0]);
        assert(v.take(i + 1).drop_first() =~= v.drop_first().take(i));
        assert(v.take(i).drop_first() =~= v.drop_first().take(i - 1));
        assert(v.drop_first()[i - 1] == v[i]);
        assert(esc_char(v[0]) + (enc_str_body(v.drop_first().take(i - 1)) + esc_char(v[i]))
            =~= (esc_char(v[0]) + enc_str_body(v.drop_first().take(i - 1))) + esc_char(v[i]));
    }
}

/// Appends the encoding of a text value.
pub fn e_string(out: &mut String, v: &str)
    ensures
        final(out)@ == old(out)@ + enc_string(v@),
{
    push_char(out, '"');
    let n = v.unicode_len();
    let mut i: usize = 0;
    while i < n
        invariant
            n == v@.len(),
            i <= n,
            out@ == old(out)@ + seq!['"'] + enc_str_body(v@.take(i as int)),
        decreases n - i,
    {
        let c = v.get_char(i);
        if c == '"' || c == '\\' {
            push_char(out, '\\');
        }
        push_char(out, c);
        proof {
            lemma_enc_str_body_snoc(v@, i as int);
            assert(out@ =~= old(out)@ + seq!['"'] + enc_str_body(v@.take(i as int + 1)));
        }
        i = i + 1;
    }
    push_char(out, '"');
    proof {
        assert(v@.take(n as int) =~= v@);
        assert(out@ =~= old(out)@ + enc_string(v@));
    }
}

/// Appends a decimal number.
pub fn e_u64(out: &mut String, v: u64)
    ensures
        final(out)@ == old(out)@ + dec_chars_of(v),
{
    let d = dec_u64_string(v);
    out.append(d.as_str());
}

/// Appends a fixed literal.
pub fn e_lit(out: &mut String, lit: &str)
    ensures
        final(out)@ == old(out)@ + lit@,
{
    out.append(lit);
}

/// Appends an optional byte.
pub fn e_opt_u8(out: &mut String, v: Option<u8>)
    ensures
        final(out)@ == old(out)@ + enc_opt_u8(v),
{
    match v {
        None => {
            out.append("null");
        },
        Some(x) => {
            e_u64(out, x as u64);
        },
    }
}

/// Appends an optional text value.
pub fn e_opt_string(out: &mut String, v: &Option<String>)
    ensures
        final(out)@ == old(out)@ + enc_opt_string(v.deep_view()),
{
    match v {
        None => {
            out.append("null");
        },
        Some(x) => {
            e_string(out, x.as_str());
        },
    }
}

/// Appends a boolean.
pub fn e_bool(out: &mut String, v: bool)
    ensures
        final(out)@ == old(out)@ + enc_bool(v),
{
    if v {
        out.append("true");
    } else {
        out.append("false");
    }
}

// ---------------------------------------------------------------------------
// Executable parsers. Each reads its piece starting at a position and
// reports the position after it, matching the specification parser on the
// remaining text.
// ---------------------------------------------------------------------------
/// Reads an escaped string body, appending the decoded text to `out`.
fn p_str_body(cs: &Vec<char>, pos: usize, out: &mut String) -> (r: Option<usize>)
    requires
        pos <= cs@.len(),
    ensures
        r is Some ==> (parse_str_body(cs@.skip(pos as int)) matches Some(p) && final(out)@ == old(
            out,
        )@ + p.0 && r.unwrap() - pos == p.1 && pos < r.unwrap() <= cs@.len()),
        r is None ==> parse_str_body(cs@.skip(pos as int)) is None,
    decreases cs@.len() - pos,
{
    let ghost s = cs@.skip(pos as int);
    if pos >= cs.len() {
        return None;
    }
    let c = cs[pos];
    proof {
        assert(s[0] == cs@[pos as int]);
    }
    if c == '"' {
        proof {
            assert(parse_str_body(s) == Some((Seq::<char>::empty(), 1int)));
            assert(old(out)@ + Seq::<char>::empty() =~= old(out)@);
        }
        return Some(pos + 1);
    }
    if c == '\\' {
        if pos + 1 >= cs.len() {
            proof {
                assert(s.len() < 2);
            }
            return None;
        }
        proof {
            assert(s.len() >= 2);
            assert(s[1] == cs@[pos as int + 1]);
            assert(s.skip(2) =~= cs@.skip(pos as int + 2));
        }
        push_char(out, cs[pos + 1]);
        let ghost mid = out@;
        let r = p_str_body(cs, pos + 2, out);
        match r {
            Some(end) => {
                proof {
                    let p = parse_str_body(cs@.skip(pos as int + 2)).unwrap();
                    assert(out@ =~= old(out)@ + (seq![s[1]] + p.0));
                }
                Some(end)
            },
            None => None,
        }
    } else {
        proof {
            assert(s.drop_first() =~= cs@.skip(pos as int + 1));
        }
        push_char(out, c);
        let r = p_str_body(cs, pos + 1, out);
        match r {
            Some(end) => {
                proof {
                    let p = parse_str_body(cs@.skip(pos as int + 1)).unwrap();
                    assert(out@ =~= old(out)@ + (seq![s[0]] + p.0));
                }
                Some(end)
            },
            None => None,
        }
    }
}

/// Reads an encoded string.
pub fn p_string(cs: &Vec<char>, pos: usize) -> (r: Option<(String, usize)>)
    requires
        pos <= cs@.len(),
    ensures
        r is Some ==> (parse_string(cs@.skip(pos as int)) matches Some(p) && r.unwrap().0@ == p.0
            && r.unwrap().1 - pos == p.1 && pos < r.unwrap().1 <= cs@.len()),
        r is None ==> parse_string(cs@.skip(pos as int)) is None,
{
    let ghost s = cs@.skip(pos as int);
    if pos >= cs.len() {
        return None;
    }
    if cs[pos] != '"' {
        proof {
            assert(s[0] == cs@[pos as int]);
        }
        return None;
    }
    proof {
        assert(s[0] == '"');
        assert(s.drop_first() =~= cs@.skip(pos as int + 1));
    }
    let mut out = String::new();
    match p_str_body(cs, pos + 1, &mut out) {
        Some(end) => {
            proof {
                let p = parse_str_body(cs@.skip(pos as int + 1)).unwrap();
                assert(out@ =~= p.0);
            }
            Some((out, end))
        },
        None => None,
    }
}

/// Reads a decimal number.
pub fn p_u64(cs: &Vec<char>, pos: usize) -> (r: Option<(u64, usize)>)
    requires
        pos <= cs@.len(),
    ensures
        r is Some ==> (parse_u64(cs@.skip(pos as int)) matches Some(p) && r.unwrap().0 == p.0
            && r.unwrap().1 - pos == p.1 && pos < r.unwrap().1 <= cs@.len()),
        r is None ==> parse_u64(cs@.skip(pos as int)) is None,
{
    let ghost s = cs@.skip(pos as int);
    let mut k: usize = pos;
    let mut acc: u64 = 0;
    let mut big = false;
    let mut nd: usize = 0;
    while k < cs.len() && cs[k] >= '0' && cs[k] <= '9'
        invariant
            pos <= cs@.len(),
            s == cs@.skip(pos as int),
            pos <= k <= cs@.len(),
            nd == k - pos,
            leading_digits(s).len() >= nd,
            leading_digits(s).take(nd as int) =~= s.take(nd as int),
            forall|j: int| pos <= j < k ==> is_digit(cs@[j]),
            !big ==> acc == dec_value(s.take(nd as int)),
            big ==> dec_value(s.take(nd as int)) > u64::MAX,
        decreases cs@.len() - k,
    {
        let d: u64 = (cs[k] as u64) - ('0' as u64);
        proof {
            crate::multipart::lemma_leading_digits_step(s, nd as int);
            assert(s.take(nd as int + 1).drop_last() =~= s.take(nd as int));
            assert(s.take(nd as int + 1).last() == s[nd as int]);
            assert(s[nd as int] == cs@[k as int]);
        }
        if big {
            proof {
                crate::multipart::lemma_dec_value_monotone(s.take(nd as int + 1));
            }
        } else {
            if acc > (u64::MAX - d) / 10 {
                proof {
                    assert(acc * 10 + d > u64::MAX) by (nonlinear_arith)
                        requires
                            acc > (u64::MAX - d) / 10,
                            d <= 9,
                            acc <= u64::MAX,
                    ;
                }
                big = true;
            } else {
                proof {
                    assert(acc * 10 + d <= u64::MAX) by (nonlinear_arith)
                        requires
                            acc <= (u64::MAX - d) / 10,
                            d <= 9,
                    ;
                }
                acc = acc * 10 + d;
            }
        }
        nd = nd + 1;
        k = k + 1;
    }
    proof {
        crate::multipart::lemma_leading_digits_stop(s, nd as int);
        assert(leading_digits(s) =~= s.take(nd as int));
    }
    if nd == 0 || big {
        return None;
    }
    Some((acc, k))
}

/// Reads a fixed literal.
pub fn p_lit(cs: &Vec<char>, pos: usize, lit: &str) -> (r: Option<usize>)
    requires
        pos <= cs@.len(),
    ensures
        r is Some ==> parse_lit(cs@.skip(pos as int), lit@) == Some(r.unwrap() - pos as int) && pos
            <= r.unwrap() <= cs@.len() && r.unwrap() - pos == lit@.len(),
        r is None ==> parse_lit(cs@.skip(pos as int), lit@) is None,
{
    let ghost s = cs@.skip(pos as int);
    let lv = chars_of(lit);
    let clen = cs.len();
    if clen - pos < lv.len() {
        proof {
            assert(s.len() < lit@.len());
        }
        return None;
    }
    let mut i: usize = 0;
    while i < lv.len()
        invariant
            pos <= cs@.len(),
            s == cs@.skip(pos as int),
            clen == cs@.len(),
            lv@ == lit@,
            lv@.len() <= cs@.len() - pos,
            i <= lv@.len(),
            forall|j: int| 0 <= j < i ==> s[j] == lit@[j],
        decreases lv@.len() - i,
    {
        proof {
            assert(pos + i < clen);
        }
        if cs[pos + i] != lv[i] {
            proof {
                assert(s[i as int] == cs@[pos + i]);
                if starts_with(s, lit@) {
                    assert(s.take(lit@.len() as int)[i as int] == lit@[i as int]);
                }
            }
            return None;
        }
        proof {
            assert(s[i as int] == cs@[pos + i]);
        }
        i = i + 1;
    }
    proof {
        assert(s.take(lit@.len() as int) =~= lit@);
    }
    Some(pos + lv.len())
}

/// Reads an optional byte.
pub fn p_opt_u8(cs: &Vec<char>, pos: usize) -> (r: Option<(Option<u8>, usize)>)
    requires
        pos <= cs@.len(),
    ensures
        r is Some ==> (parse_opt_u8(cs@.skip(pos as int)) matches Some(p) && r.unwrap().0 == p.0
            && r.unwrap().1 - pos == p.1 && pos < r.unwrap().1 <= cs@.len()),
        r is None ==> parse_opt_u8(cs@.skip(pos as int)) is None,
{
    proof {
        reveal_strlit("null");
    }
    match p_lit(cs, pos, "null") {
        Some(end) => Some((None, end)),
        None => {
            match p_u64(cs, pos) {
                Some(p) => {
                    if p.0 <= 255 {
                        Some((Some(p.0 as u8), p.1))
                    } else {
                        None
                    }
                },
                None => None,
            }
        },
    }
}

/// Reads an optional text value.
pub fn p_opt_string(cs: &Vec<char>, pos: usize) -> (r: Option<(Option<String>, usize)>)
    requires
        pos <= cs@.len(),
    ensures
        r is Some ==> (parse_opt_string(cs@.skip(pos as int)) matches Some(p) && r.unwrap(
        ).0.deep_view() == p.0 && r.unwrap().1 - pos == p.1 && pos < r.unwrap().1 <= cs@.len()),
        r is None ==> parse_opt_string(cs@.skip(pos as int)) is None,
{
    proof {
        reveal_strlit("null");
    }
    match p_lit(cs, pos, "null") {
        Some(end) => Some((None, end)),
        None => {
            match p_string(cs, pos) {
                Some(p) => Some((Some(p.0), p.1)),
                None => None,
            }
        },
    }
}

/// Reads a boolean.
pub fn p_bool(cs: &Vec<char>, pos: usize) -> (r: Option<(bool, usize)>)
    requires
        pos <= cs@.len(),
    ensures
        r is Some ==> (parse_bool(cs@.skip(pos as int)) matches Some(p) && r.unwrap().0 == p.0
            && r.unwrap().1 - pos == p.1 && pos < r.unwrap().1 <= cs@.len()),
        r is None ==> parse_bool(cs@.skip(pos as int)) is None,
{
    proof {
        reveal_strlit("true");
        reveal_strlit("false");
    }
    match p_lit(cs, pos, "true") {
        Some(end) => Some((true, end)),
        None => {
            match p_lit(cs, pos, "false") {
                Some(end) => Some((false, end)),
                None => None,
            }
        },
    }
}

/// Skipping in two steps is skipping once.
pub proof fn lemma_skip_skip(s: Seq<char>, a: int, b: int)
    requires
        0 <= a,
        0 <= b,
        a + b <= s.len(),
    ensures
        s.skip(a).skip(b) == s.skip(a + b),
{
    assert(s.skip(a).skip(b) =~= s.skip(a + b));
}

/// The persisted text of a patient record (the filename carries the identity).
pub open spec fn enc_patient_file(p: PatientV) -> Seq<char> {
    "{\"description\":"@
        + enc_string(p.description)
        + ",\"age\":"@
        + enc_opt_u8(p.age)
        + ",\"name\":"@
        + enc_string(p.name)
        + ",\"address\":"@
        + enc_string(p.address)
        + ",\"profile_picture\":"@
        + enc_opt_string(p.profile_picture)
        + ",\"created_at\":"@
        + dec_chars_of(p.created_at)
        + ",\"last_updated\":"@
        + dec_chars_of(p.last_updated)
        + "}"@
}

pub open spec fn parse_patient_file_s0(s: Seq<char>, m: int) -> Option<(PatientV, int)> {
    match parse_lit(s.skip(m), "{\"description\":"@) {
        None => None,
        Some(n) => parse_patient_file_s1(s, m + n),
    }
}

pub open spec fn parse_patient_file_s1(s: Seq<char>, m: int) -> Option<(PatientV, int)> {
    match parse_string(s.skip(m)) {
        None => None,
        Some(v) => parse_patient_file_s2(s, m + v.1, v.0),
    }
}

pub open spec fn parse_patient_file_s2(s: Seq<char>, m: int, w1: Seq<char>) -> Option<(PatientV, int)> {
    match parse_lit(s.skip(m), ",\"age\":"@) {
        None => None,
        Some(n) => parse_patient_file_s3(s, m + n, w1),
    }
}

pub open spec fn parse_patient_file_s3(s: Seq<char>, m: int, w1: Seq<char>) -> Option<(PatientV, int)> {
    match parse_opt_u8(s.skip(m)) {
        None => None,
        Some(v) => parse_patient_file_s4(s, m + v.1, w1, v.0),
    }
}

pub open spec fn parse_patient_file_s4(s: Seq<char>, m: int, w1: Seq<char>, w3: Option<u8>) -> Option<(PatientV, int)> {
    match parse_lit(s.skip(m), ",\"name\":"@) {
        None => None,
        Some(n) => parse_patient_file_s5(s, m + n, w1, w3),
    }
}

pub open spec fn parse_patient_file_s5(s: Seq<char>, m: int, w1: Seq<char>, w3: Option<u8>) -> Option<(PatientV, int)> {
    match parse_string(s.skip(m)) {
        None => None,
        Some(v) => parse_patient_file_s6(s, m + v.1, w1, w3, v.0),
    }
}

pub open spec fn parse_patient_file_s6(s: Seq<char>, m: int, w1: Seq<char>, w3: Option<u8>, w5: Seq<char>) -> Option<(PatientV, int)> {
    match parse_lit(s.skip(m), ",\"address\":"@) {
        None => None,
        Some(n) => parse_patient_file_s7(s, m + n, w1, w3, w5),
    }
}

pub open spec fn parse_patient_file_s7(s: Seq<char>, m: int, w1: Seq<char>, w3: Option<u8>, w5: Seq<char>) -> Option<(PatientV, int)> {
    match parse_string(s.skip(m)) {
        None => None,
        Some(v) => parse_patient_file_s8(s, m + v.1, w1, w3, w5, v.0),
    }
}

pub open spec fn parse_patient_file_s8(s: Seq<char>, m: int, w1: Seq<char>, w3: Option<u8>, w5: Seq<char>, w7: Seq<char>) -> Option<(PatientV, int)> {
    match parse_lit(s.skip(m), ",\"profile_picture\":"@) {
        None => None,
        Some(n) => parse_patient_file_s9(s, m + n, w1, w3, w5, w7),
    }
}

pub open spec fn parse_patient_file_s9(s: Seq<char>, m: int, w1: Seq<char>, w3: Option<u8>, w5: Seq<char>, w7: Seq<char>) -> Option<(PatientV, int)> {
    match parse_opt_string(s.skip(m)) {
        None => None,
        Some(v) => parse_patient_file_s10(s, m + v.1, w1, w3, w5, w7, v.0),
    }
}

pub open spec fn parse_patient_file_s10(s: Seq<char>, m: int, w1: Seq<char>, w3: Option<u8>, w5: Seq<char>, w7: Seq<char>, w9: Option<Seq<char>>) -> Option<(PatientV, int)> {
    match parse_lit(s.skip(m), ",\"created_at\":"@) {
        None => None,
        Some(n) => parse_patient_file_s11(s, m + n, w1, w3, w5, w7, w9),
    }
}

pub open spec fn parse_patient_file_s11(s: Seq<char>, m: int, w1: Seq<char>, w3: Option<u8>, w5: Seq<char>, w7: Seq<char>, w9: Option<Seq<char>>) -> Option<(PatientV, int)> {
    match parse_u64(s.skip(m)) {
        None => None,
        Some(v) => parse_patient_file_s12(s, m + v.1, w1, w3, w5, w7, w9, v.0),
    }
}

pub open spec fn parse_patient_file_s12(s: Seq<char>, m: int, w1: Seq<char>, w3: Option<u8>, w5: Seq<char>, w7: Seq<char>, w9: Option<Seq<char>>, w11: u64) -> Option<(PatientV, int)> {
    match parse_lit(s.skip(m), ",\"last_updated\":"@) {
        None => None,
        Some(n) => parse_patient_file_s13(s, m + n, w1, w3, w5, w7, w9, w11),
    }
}

pub open spec fn parse_patient_file_s13(s: Seq<char>, m: int, w1: Seq<char>, w3: Option<u8>, w5: Seq<char>, w7: Seq<char>, w9: Option<Seq<char>>, w11: u64) -> Option<(PatientV, int)> {
    match parse_u64(s.skip(m)) {
        None => None,
        Some(v) => parse_patient_file_s14(s, m + v.1, w1, w3, w5, w7, w9, w11, v.0),
    }
}

pub open spec fn parse_patient_file_s14(s: Seq<char>, m: int, w1: Seq<char>, w3: Option<u8>, w5: Seq<char>, w7: Seq<char>, w9: Option<Seq<char>>, w11: u64, w13: u64) -> Option<(PatientV, int)> {
    match parse_lit(s.skip(m), "}"@) {
        None => None,
        Some(n) => parse_patient_file_s15(s, m + n, w1, w3, w5, w7, w9, w11, w13),
    }
}

pub open spec fn parse_patient_file_s15(s: Seq<char>, m: int, w1: Seq<char>, w3: Option<u8>, w5: Seq<char>, w7: Seq<char>, w9: Option<Seq<char>>, w11: u64, w13: u64) -> Option<(PatientV, int)> {
    Some((PatientV { uuid: Seq::empty(), description: w1, age: w3, name: w5, address: w7, profile_picture: w9, created_at: w11, last_updated: w13 }, m))
}

pub open spec fn parse_patient_file(s: Seq<char>) -> Option<(PatientV, int)> {
    parse_patient_file_s0(s, 0)
}

/// Reading back a patient record (the filename carries the identity) gives exactly what was written.
#[verifier::rlimit(100)]
#[verifier::spinoff_prover]
pub proof fn lemma_patient_file_round_trip(p: PatientV, rest: Seq<char>)
    ensures
        parse_patient_file(enc_patient_file(p) + rest) matches Some(q) && q.0 == (PatientV { uuid: Seq::empty(), description: p.description, age: p.age, name: p.name, address: p.address, profile_picture: p.profile_picture, created_at: p.created_at, last_updated: p.last_updated }) && q.1 == enc_patient_file(p).len() as int,
{
    reveal_strlit("{\"description\":");
    reveal_strlit(",\"age\":");
    reveal_strlit(",\"name\":");
    reveal_strlit(",\"address\":");
    reveal_strlit(",\"profile_picture\":");
    reveal_strlit(",\"created_at\":");
    reveal_strlit(",\"last_updated\":");
    reveal_strlit("}");
    let s = enc_patient_file(p) + rest;
    let t0 = "{\"description\":"@;
    let t1 = enc_string(p.description);
    let t2 = ",\"age\":"@;
    let t3 = enc_opt_u8(p.age);
    let t4 = ",\"name\":"@;
    let t5 = enc_string(p.name);
    let t6 = ",\"address\":"@;
    let t7 = enc_string(p.address);
    let t8 = ",\"profile_picture\":"@;
    let t9 = enc_opt_string(p.profile_picture);
    let t10 = ",\"created_at\":"@;
    let t11 = dec_chars_of(p.created_at);
    let t12 = ",\"last_updated\":"@;
    let t13 = dec_chars_of(p.last_updated);
    let t14 = "}"@;
    let r14 = rest;
    let r13 = t14 + r14;
    let r12 = t13 + r13;
    let r11 = t12 + r12;
    let r10 = t11 + r11;
    let r9 = t10 + r10;
    let r8 = t9 + r9;
    let r7 = t8 + r8;
    let r6 = t7 + r7;
    let r5 = t6 + r6;
    let r4 = t5 + r5;
    let r3 = t4 + r4;
    let r2 = t3 + r3;
    let r1 = t2 + r2;
    let r0 = t1 + r1;
    assert(s =~= t0 + r0);
    let pos0: int = 0;
    let pos1: int = pos0 + t0.len();
    let pos2: int = pos1 + t1.len();
    let pos3: int = pos2 + t2.len();
    let pos4: int = pos3 + t3.len();
    let pos5: int = pos4 + t4.len();
    let pos6: int = pos5 + t5.len();
    let pos7: int = pos6 + t6.len();
    let pos8: int = pos7 + t7.len();
    let pos9: int = pos8 + t8.len();
    let pos10: int = pos9 + t9.len();
    let pos11: int = pos10 + t10.len();
    let pos12: int = pos11 + t11.len();
    let pos13: int = pos12 + t12.len();
    let pos14: int = pos13 + t13.len();
    let pos15: int = pos14 + t14.len();
    assert(s.skip(pos0) == t0 + r0);
    lemma_starts_with_concat(t0, r0);
    assert(parse_lit(s.skip(pos0), "{\"description\":"@) == Some(t0.len() as int));
    lemma_skip_skip(s, pos0, t0.len() as int);
    assert(s.skip(pos1) == r0);
    lemma_string_round_trip(p.description, r1);
    lemma_starts_with_concat(t1, r1);
    assert(parse_string(s.skip(pos1)) == Some((p.description, t1.len() as int)));
    lemma_skip_skip(s, pos1, t1.len() as int);
    assert(s.skip(pos2) == r1);
    lemma_starts_with_concat(t2, r2);
    assert(parse_lit(s.skip(pos2), ",\"age\":"@) == Some(t2.len() as int));
    lemma_skip_skip(s, pos2, t2.len() as int);
    assert(s.skip(pos3) == r2);
    assert(!is_digit(r3[0]));
    lemma_opt_u8_round_trip(p.age, r3);
    lemma_starts_with_concat(t3, r3);
    assert(parse_opt_u8(s.skip(pos3)) == Some((p.age, t3.len() as int)));
    lemma_skip_skip(s, pos3, t3.len() as int);
    assert(s.skip(pos4) == r3);
    lemma_starts_with_concat(t4, r4);
    assert(parse_lit(s.skip(pos4), ",\"name\":"@) == Some(t4.len() as int));
    lemma_skip_skip(s, pos4, t4.len() as int);
    assert(s.skip(pos5) == r4);
    lemma_string_round_trip(p.name, r5);
    lemma_starts_with_concat(t5, r5);
    assert(parse_string(s.skip(pos5)) == Some((p.name, t5.len() as int)));
    lemma_skip_skip(s, pos5, t5.len() as int);
    assert(s.skip(pos6) == r5);
    lemma_starts_with_concat(t6, r6);
    assert(parse_lit(s.skip(pos6), ",\"address\":"@) == Some(t6.len() as int));
    lemma_skip_skip(s, pos6, t6.len() as int);
    assert(s.skip(pos7) == r6);
    lemma_string_round_trip(p.address, r7);
    lemma_starts_with_concat(t7, r7);
    assert(parse_string(s.skip(pos7)) == Some((p.address, t7.len() as int)));
    lemma_skip_skip(s, pos7, t7.len() as int);
    assert(s.skip(pos8) == r7);
    lemma_starts_with_concat(t8, r8);
    assert(parse_lit(s.skip(pos8), ",\"profile_picture\":"@) == Some(t8.len() as int));
    lemma_skip_skip(s, pos8, t8.len() as int);
    assert(s.skip(pos9) == r8);
    assert(r9[0] != '"');
    lemma_opt_string_round_trip(p.profile_picture, r9);
    lemma_starts_with_concat(t9, r9);
    assert(parse_opt_string(s.skip(pos9)) == Some((p.profile_picture, t9.len() as int)));
    lemma_skip_skip(s, pos9, t9.len() as int);
    assert(s.skip(pos10) == r9);
    lemma_starts_with_concat(t10, r10);
    assert(parse_lit(s.skip(pos10), ",\"created_at\":"@) == Some(t10.len() as int));
    lemma_skip_skip(s, pos10, t10.len() as int);
    assert(s.skip(pos11) == r10);
    assert(!is_digit(r11[0]));
    lemma_u64_round_trip(p.created_at, r11);
    lemma_starts_with_concat(t11, r11);
    assert(parse_u64(s.skip(pos11)) == Some((p.created_at, t11.len() as int)));
    lemma_skip_skip(s, pos11, t11.len() as int);
    assert(s.skip(pos12) == r11);
    lemma_starts_with_concat(t12, r12);
    assert(parse_lit(s.skip(pos12), ",\"last_updated\":"@) == Some(t12.len() as int));
    lemma_skip_skip(s, pos12, t12.len() as int);
    assert(s.skip(pos13) == r12);
    assert(!is_digit(r13[0]));
    lemma_u64_round_trip(p.last_updated, r13);
    lemma_starts_with_concat(t13, r13);
    assert(parse_u64(s.skip(pos13)) == Some((p.last_updated, t13.len() as int)));
    lemma_skip_skip(s, pos13, t13.len() as int);
    assert(s.skip(pos14) == r13);
    lemma_starts_with_concat(t14, r14);
    assert(parse_lit(s.skip(pos14), "}"@) == Some(t14.len() as int));
    assert(parse_patient_file_s0(s, pos0) == parse_patient_file_s1(s, pos1));
    assert(parse_patient_file_s1(s, pos1) == parse_patient_file_s2(s, pos2, p.description));
    assert(parse_patient_file_s2(s, pos2, p.description) == parse_patient_file_s3(s, pos3, p.description));
    assert(parse_patient_file_s3(s, pos3, p.description) == parse_patient_file_s4(s, pos4, p.description, p.age));
    assert(parse_patient_file_s4(s, pos4, p.description, p.age) == parse_patient_file_s5(s, pos5, p.description, p.age));
    assert(parse_patient_file_s5(s, pos5, p.description, p.age) == parse_patient_file_s6(s, pos6, p.description, p.age, p.name));
    assert(parse_patient_file_s6(s, pos6, p.description, p.age, p.name) == parse_patient_file_s7(s, pos7, p.description, p.age, p.name));
    assert(parse_patient_file_s7(s, pos7, p.description, p.age, p.name) == parse_patient_file_s8(s, pos8, p.description, p.age, p.name, p.address));
    assert(parse_patient_file_s8(s, pos8, p.description, p.age, p.name, p.address) == parse_patient_file_s9(s, pos9, p.description, p.age, p.name, p.address));
    assert(parse_patient_file_s9(s, pos9, p.description, p.age, p.name, p.address) == parse_patient_file_s10(s, pos10, p.description, p.age, p.name, p.address, p.profile_picture));
    assert(parse_patient_file_s10(s, pos10, p.description, p.age, p.name, p.address, p.profile_picture) == parse_patient_file_s11(s, pos11, p.description, p.age, p.name, p.address, p.profile_picture));
    assert(parse_patient_file_s11(s, pos11, p.description, p.age, p.name, p.address, p.profile_picture) == parse_patient_file_s12(s, pos12, p.description, p.age, p.name, p.address, p.profile_picture, p.created_at));
    assert(parse_patient_file_s12(s, pos12, p.description, p.age, p.name, p.address, p.profile_picture, p.created_at) == parse_patient_file_s13(s, pos13, p.description, p.age, p.name, p.address, p.profile_picture, p.created_at));
    assert(parse_patient_file_s13(s, pos13, p.description, p.age, p.name, p.address, p.profile_picture, p.created_at) == parse_patient_file_s14(s, pos14, p.description, p.age, p.name, p.address, p.profile_picture, p.created_at, p.last_updated));
    assert(parse_patient_file_s14(s, pos14, p.description, p.age, p.name, p.address, p.profile_picture, p.created_at, p.last_updated) == parse_patient_file_s15(s, pos15, p.description, p.age, p.name, p.address, p.profile_picture, p.created_at, p.last_updated));
    assert(enc_patient_file(p).len() as int == pos15);
}

/// Appends the persisted text of a patient record (the filename carries the identity).
#[verifier::rlimit(100)]
#[verifier::spinoff_prover]
pub fn write_patient_file(out: &mut String, p: &Patient)
    ensures
        final(out)@ == old(out)@ + enc_patient_file(p@),
{
    e_lit(out, "{\"description\":");
    e_string(out, p.description.as_str());
    e_lit(out, ",\"age\":");
    e_opt_u8(out, p.age);
    e_lit(out, ",\"name\":");
    e_string(out, p.name.as_str());
    e_lit(out, ",\"address\":");
    e_string(out, p.address.as_str());
    e_lit(out, ",\"profile_picture\":");
    e_opt_string(out, &p.profile_picture);
    e_lit(out, ",\"created_at\":");
    e_u64(out, p.created_at);
    e_lit(out, ",\"last_updated\":");
    e_u64(out, p.last_updated);
    e_lit(out, "}");
    proof {
        assert(out@ =~= old(out)@ + enc_patient_file(p@));
    }
}

/// Reads the persisted text of a patient record (the filename carries the identity) starting at `pos`.
#[verifier::rlimit(100)]
#[verifier::spinoff_prover]
pub fn read_patient_file(cs: &Vec<char>, pos: usize) -> (r: Option<(Patient, usize)>)
    requires
        pos <= cs@.len(),
    ensures
        r is Some ==> (parse_patient_file(cs@.skip(pos as int)) matches Some(q) && r.unwrap().0@ == q.0
            && r.unwrap().1 - pos == q.1 && pos <= r.unwrap().1 <= cs@.len()),
        r is None ==> parse_patient_file(cs@.skip(pos as int)) is None,
{
    let ghost s = cs@.skip(pos as int);
    proof { lemma_skip_skip(cs@, pos as int, (pos - pos) as int); }
    let c0: usize = match p_lit(cs, pos, "{\"description\":") {
        Some(x) => x,
        None => { return None; },
    };
    proof { lemma_skip_skip(cs@, pos as int, (c0 - pos) as int); }
    let v1 = match p_string(cs, c0) {
        Some(x) => x,
        None => { return None; },
    };
    proof { lemma_skip_skip(cs@, pos as int, (v1.1 - pos) as int); }
    let c2: usize = match p_lit(cs, v1.1, ",\"age\":") {
        Some(x) => x,
        None => { return None; },
    };
    proof { lemma_skip_skip(cs@, pos as int, (c2 - pos) as int); }
    let v3 = match p_opt_u8(cs, c2) {
        Some(x) => x,
        None => { return None; },
    };
    proof { lemma_skip_skip(cs@, pos as int, (v3.1 - pos) as int); }
    let c4: usize = match p_lit(cs, v3.1, ",\"name\":") {
        Some(x) => x,
        None => { return None; },
    };
    proof { lemma_skip_skip(cs@, pos as int, (c4 - pos) as int); }
    let v5 = match p_string(cs, c4) {
        Some(x) => x,
        None => { return None; },
    };
    proof { lemma_skip_skip(cs@, pos as int, (v5.1 - pos) as int); }
    let c6: usize = match p_lit(cs, v5.1, ",\"address\":") {
        Some(x) => x,
        None => { return None; },
    };
    proof { lemma_skip_skip(cs@, pos as int, (c6 - pos) as int); }
    let v7 = match p_string(cs, c6) {
        Some(x) => x,
        None => { return None; },
    };
    proof { lemma_skip_skip(cs@, pos as int, (v7.1 - pos) as int); }
    let c8: usize = match p_lit(cs, v7.1, ",\"profile_picture\":") {
        Some(x) => x,
        None => { return None; },
    };
    proof { lemma_skip_skip(cs@, pos as int, (c8 - pos) as int); }
    let v9 = match p_opt_string(cs, c8) {
        Some(x) => x,
        None => { return None; },
    };
    proof { lemma_skip_skip(cs@, pos as int, (v9.1 - pos) as int); }
    let c10: usize = match p_lit(cs, v9.1, ",\"created_at\":") {
        Some(x) => x,
        None => { return None; },
    };
    proof { lemma_skip_skip(cs@, pos as int, (c10 - pos) as int); }
    let v11 = match p_u64(cs, c10) {
        Some(x) => x,
        None => { return None; },
    };
    proof { lemma_skip_skip(cs@, pos as int, (v11.1 - pos) as int); }
    let c12: usize = match p_lit(cs, v11.1, ",\"last_updated\":") {
        Some(x) => x,
        None => { return None; },
    };
    proof { lemma_skip_skip(cs@, pos as int, (c12 - pos) as int); }
    let v13 = match p_u64(cs, c12) {
        Some(x) => x,
        None => { return None; },
    };
    proof { lemma_skip_skip(cs@, pos as int, (v13.1 - pos) as int); }
    let c14: usize = match p_lit(cs, v13.1, "}") {
        Some(x) => x,
        None => { return None; },
    };
    let built = Patient { uuid: String::new(), description: v1.0, age: v3.0, name: v5.0, address: v7.0, profile_picture: v9.0, created_at: v11.0, last_updated: v13.0 };
    proof {
        assert(built@ =~= parse_patient_file(s).unwrap().0);
    }
    Some((built, c14))
}

/// The persisted text of one emotion entry.
pub open spec fn enc_emotion_rec(p: EmotionV) -> Seq<char> {
    "{\"uuid\":"@
        + enc_string(p.uuid)
        + ",\"id\":"@
        + enc_opt_u8(p.id)
        + ",\"kind\":"@
        + enc_opt_u8(p.kind)
        + ",\"aquired_age\":"@
        + enc_opt_u8(p.aquired_age)
        + ",\"aquired_person\":"@
        + enc_string(p.aquired_person)
        + ",\"created_at\":"@
        + dec_chars_of(p.created_at)
        + "}"@
}

pub open spec fn parse_emotion_rec_s0(s: Seq<char>, m: int) -> Option<(EmotionV, int)> {
    match parse_lit(s.skip(m), "{\"uuid\":"@) {
        None => None,
        Some(n) => parse_emotion_rec_s1(s, m + n),
    }
}

pub open spec fn parse_emotion_rec_s1(s: Seq<char>, m: int) -> Option<(EmotionV, int)> {
    match parse_string(s.skip(m)) {
        None => None,
        Some(v) => parse_emotion_rec_s2(s, m + v.1, v.0),
    }
}

pub open spec fn parse_emotion_rec_s2(s: Seq<char>, m: int, w1: Seq<char>) -> Option<(EmotionV, int)> {
    match parse_lit(s.skip(m), ",\"id\":"@) {
        None => None,
        Some(n) => parse_emotion_rec_s3(s, m + n, w1),
    }
}

pub open spec fn parse_emotion_rec_s3(s: Seq<char>, m: int, w1: Seq<char>) -> Option<(EmotionV, int)> {
    match parse_opt_u8(s.skip(m)) {
        None => None,
        Some(v) => parse_emotion_rec_s4(s, m + v.1, w1, v.0),
    }
}

pub open spec fn parse_emotion_rec_s4(s: Seq<char>, m: int, w1: Seq<char>, w3: Option<u8>) -> Option<(EmotionV, int)> {
    match parse_lit(s.skip(m), ",\"kind\":"@) {
        None => None,
        Some(n) => parse_emotion_rec_s5(s, m + n, w1, w3),
    }
}

pub open spec fn parse_emotion_rec_s5(s: Seq<char>, m: int, w1: Seq<char>, w3: Option<u8>) -> Option<(EmotionV, int)> {
    match parse_opt_u8(s.skip(m)) {
        None => None,
        Some(v) => parse_emotion_rec_s6(s, m + v.1, w1, w3, v.0),
    }
}

pub open spec fn parse_emotion_rec_s6(s: Seq<char>, m: int, w1: Seq<char>, w3: Option<u8>, w5: Option<u8>) -> Option<(EmotionV, int)> {
    match parse_lit(s.skip(m), ",\"aquired_age\":"@) {
        None => None,
        Some(n) => parse_emotion_rec_s7(s, m + n, w1, w3, w5),
    }
}

pub open spec fn parse_emotion_rec_s7(s: Seq<char>, m: int, w1: Seq<char>, w3: Option<u8>, w5: Option<u8>) -> Option<(EmotionV, int)> {
    match parse_opt_u8(s.skip(m)) {
        None => None,
        Some(v) => parse_emotion_rec_s8(s, m + v.1, w1, w3, w5, v.0),
    }
}

pub open spec fn parse_emotion_rec_s8(s: Seq<char>, m: int, w1: Seq<char>, w3: Option<u8>, w5: Option<u8>, w7: Option<u8>) -> Option<(EmotionV, int)> {
    match parse_lit(s.skip(m), ",\"aquired_person\":"@) {
        None => None,
        Some(n) => parse_emotion_rec_s9(s, m + n, w1, w3, w5, w7),
    }
}

pub open spec fn parse_emotion_rec_s9(s: Seq<char>, m: int, w1: Seq<char>, w3: Option<u8>, w5: Option<u8>, w7: Option<u8>) -> Option<(EmotionV, int)> {
    match parse_string(s.skip(m)) {
        None => None,
        Some(v) => parse_emotion_rec_s10(s, m + v.1, w1, w3, w5, w7, v.0),
    }
}

pub open spec fn parse_emotion_rec_s10(s: Seq<char>, m: int, w1: Seq<char>, w3: Option<u8>, w5: Option<u8>, w7: Option<u8>, w9: Seq<char>) -> Option<(EmotionV, int)> {
    match parse_lit(s.skip(m), ",\"created_at\":"@) {
        None => None,
        Some(n) => parse_emotion_rec_s11(s, m + n, w1, w3, w5, w7, w9),
    }
}

pub open spec fn parse_emotion_rec_s11(s: Seq<char>, m: int, w1: Seq<char>, w3: Option<u8>, w5: Option<u8>, w7: Option<u8>, w9: Seq<char>) -> Option<(EmotionV, int)> {
    match parse_u64(s.skip(m)) {
        None => None,
        Some(v) => parse_emotion_rec_s12(s, m + v.1, w1, w3, w5, w7, w9, v.0),
    }
}

pub open spec fn parse_emotion_rec_s12(s: Seq<char>, m: int, w1: Seq<char>, w3: Option<u8>, w5: Option<u8>, w7: Option<u8>, w9: Seq<char>, w11: u64) -> Option<(EmotionV, int)> {
    match parse_lit(s.skip(m), "}"@) {
        None => None,
        Some(n) => parse_emotion_rec_s13(s, m + n, w1, w3, w5, w7, w9, w11),
    }
}

pub open spec fn parse_emotion_rec_s13(s: Seq<char>, m: int, w1: Seq<char>, w3: Option<u8>, w5: Option<u8>, w7: Option<u8>, w9: Seq<char>, w11: u64) -> Option<(EmotionV, int)> {
    Some((EmotionV { uuid: w1, id: w3, kind: w5, aquired_age: w7, aquired_person: w9, created_at: w11 }, m))
}

pub open spec fn parse_emotion_rec(s: Seq<char>) -> Option<(EmotionV, int)> {
    parse_emotion_rec_s0(s, 0)
}

/// Reading back one emotion entry gives exactly what was written.
#[verifier::rlimit(100)]
#[verifier::spinoff_prover]
pub proof fn lemma_emotion_rec_round_trip(p: EmotionV, rest: Seq<char>)
    ensures
        parse_emotion_rec(enc_emotion_rec(p) + rest) matches Some(q) && q.0 == (EmotionV { uuid: p.uuid, id: p.id, kind: p.kind, aquired_age: p.aquired_age, aquired_person: p.aquired_person, created_at: p.created_at }) && q.1 == enc_emotion_rec(p).len() as int,
{
    reveal_strlit("{\"uuid\":");
    reveal_strlit(",\"id\":");
    reveal_strlit(",\"kind\":");
    reveal_strlit(",\"aquired_age\":");
    reveal_strlit(",\"aquired_person\":");
    reveal_strlit(",\"created_at\":");
    reveal_strlit("}");
    let s = enc_emotion_rec(p) + rest;
    let t0 = "{\"uuid\":"@;
    let t1 = enc_string(p.uuid);
    let t2 = ",\"id\":"@;
    let t3 = enc_opt_u8(p.id);
    let t4 = ",\"kind\":"@;
    let t5 = enc_opt_u8(p.kind);
    let t6 = ",\"aquired_age\":"@;
    let t7 = enc_opt_u8(p.aquired_age);
    let t8 = ",\"aquired_person\":"@;
    let t9 = enc_string(p.aquired_person);
    let t10 = ",\"created_at\":"@;
    let t11 = dec_chars_of(p.created_at);
    let t12 = "}"@;
    let r12 = rest;
    let r11 = t12 + r12;
    let r10 = t11 + r11;
    let r9 = t10 + r10;
    let r8 = t9 + r9;
    let r7 = t8 + r8;
    let r6 = t7 + r7;
    let r5 = t6 + r6;
    let r4 = t5 + r5;
    let r3 = t4 + r4;
    let r2 = t3 + r3;
    let r1 = t2 + r2;
    let r0 = t1 + r1;
    assert(s =~= t0 + r0);
    let pos0: int = 0;
    let pos1: int = pos0 + t0.len();
    let pos2: int = pos1 + t1.len();
    let pos3: int = pos2 + t2.len();
    let pos4: int = pos3 + t3.len();
    let pos5: int = pos4 + t4.len();
    let pos6: int = pos5 + t5.len();
    let pos7: int = pos6 + t6.len();
    let pos8: int = pos7 + t7.len();
    let pos9: int = pos8 + t8.len();
    let pos10: int = pos9 + t9.len();
    let pos11: int = pos10 + t10.len();
    let pos12: int = pos11 + t11.len();
    let pos13: int = pos12 + t12.len();
    assert(s.skip(pos0) == t0 + r0);
    lemma_starts_with_concat(t0, r0);
    assert(parse_lit(s.skip(pos0), "{\"uuid\":"@) == Some(t0.len() as int));
    lemma_skip_skip(s, pos0, t0.len() as int);
    assert(s.skip(pos1) == r0);
    lemma_string_round_trip(p.uuid, r1);
    lemma_starts_with_concat(t1, r1);
    assert(parse_string(s.skip(pos1)) == Some((p.uuid, t1.len() as int)));
    lemma_skip_skip(s, pos1, t1.len() as int);
    assert(s.skip(pos2) == r1);
    lemma_starts_with_concat(t2, r2);
    assert(parse_lit(s.skip(pos2), ",\"id\":"@) == Some(t2.len() as int));
    lemma_skip_skip(s, pos2, t2.len() as int);
    assert(s.skip(pos3) == r2);
    assert(!is_digit(r3[0]));
    lemma_opt_u8_round_trip(p.id, r3);
    lemma_starts_with_concat(t3, r3);
    assert(parse_opt_u8(s.skip(pos3)) == Some((p.id, t3.len() as int)));
    lemma_skip_skip(s, pos3, t3.len() as int);
    assert(s.skip(pos4) == r3);
    lemma_starts_with_concat(t4, r4);
    assert(parse_lit(s.skip(pos4), ",\"kind\":"@) == Some(t4.len() as int));
    lemma_skip_skip(s, pos4, t4.len() as int);
    assert(s.skip(pos5) == r4);
    assert(!is_digit(r5[0]));
    lemma_opt_u8_round_trip(p.kind, r5);
    lemma_starts_with_concat(t5, r5);
    assert(parse_opt_u8(s.skip(pos5)) == Some((p.kind, t5.len() as int)));
    lemma_skip_skip(s, pos5, t5.len() as int);
    assert(s.skip(pos6) == r5);
    lemma_starts_with_concat(t6, r6);
    assert(parse_lit(s.skip(pos6), ",\"aquired_age\":"@) == Some(t6.len() as int));
    lemma_skip_skip(s, pos6, t6.len() as int);
    assert(s.skip(pos7) == r6);
    assert(!is_digit(r7[0]));
    lemma_opt_u8_round_trip(p.aquired_age, r7);
    lemma_starts_with_concat(t7, r7);
    assert(parse_opt_u8(s.skip(pos7)) == Some((p.aquired_age, t7.len() as int)));
    lemma_skip_skip(s, pos7, t7.len() as int);
    assert(s.skip(pos8) == r7);
    lemma_starts_with_concat(t8, r8);
    assert(parse_lit(s.skip(pos8), ",\"aquired_person\":"@) == Some(t8.len() as int));
    lemma_skip_skip(s, pos8, t8.len() as int);
    assert(s.skip(pos9) == r8);
    lemma_string_round_trip(p.aquired_person, r9);
    lemma_starts_with_concat(t9, r9);
    assert(parse_string(s.skip(pos9)) == Some((p.aquired_person, t9.len() as int)));
    lemma_skip_skip(s, pos9, t9.len() as int);
    assert(s.skip(pos10) == r9);
    lemma_starts_with_concat(t10, r10);
    assert(parse_lit(s.skip(pos10), ",\"created_at\":"@) == Some(t10.len() as int));
    lemma_skip_skip(s, pos10, t10.len() as int);
    assert(s.skip(pos11) == r10);
    assert(!is_digit(r11[0]));
    lemma_u64_round_trip(p.created_at, r11);
    lemma_starts_with_concat(t11, r11);
    assert(parse_u64(s.skip(pos11)) == Some((p.created_at, t11.len() as int)));
    lemma_skip_skip(s, pos11, t11.len() as int);
    assert(s.skip(pos12) == r11);
    lemma_starts_with_concat(t12, r12);
    assert(parse_lit(s.skip(pos12), "}"@) == Some(t12.len() as int));
    assert(parse_emotion_rec_s0(s, pos0) == parse_emotion_rec_s1(s, pos1));
    assert(parse_emotion_rec_s1(s, pos1) == parse_emotion_rec_s2(s, pos2, p.uuid));
    assert(parse_emotion_rec_s2(s, pos2, p.uuid) == parse_emotion_rec_s3(s, pos3, p.uuid));
    assert(parse_emotion_rec_s3(s, pos3, p.uuid) == parse_emotion_rec_s4(s, pos4, p.uuid, p.id));
    assert(parse_emotion_rec_s4(s, pos4, p.uuid, p.id) == parse_emotion_rec_s5(s, pos5, p.uuid, p.id));
    assert(parse_emotion_rec_s5(s, pos5, p.uuid, p.id) == parse_emotion_rec_s6(s, pos6, p.uuid, p.id, p.kind));
    assert(parse_emotion_rec_s6(s, pos6, p.uuid, p.id, p.kind) == parse_emotion_rec_s7(s, pos7, p.uuid, p.id, p.kind));
    assert(parse_emotion_rec_s7(s, pos7, p.uuid, p.id, p.kind) == parse_emotion_rec_s8(s, pos8, p.uuid, p.id, p.kind, p.aquired_age));
    assert(parse_emotion_rec_s8(s, pos8, p.uuid, p.id, p.kind, p.aquired_age) == parse_emotion_rec_s9(s, pos9, p.uuid, p.id, p.kind, p.aquired_age));
    assert(parse_emotion_rec_s9(s, pos9, p.uuid, p.id, p.kind, p.aquired_age) == parse_emotion_rec_s10(s, pos10, p.uuid, p.id, p.kind, p.aquired_age, p.aquired_person));
    assert(parse_emotion_rec_s10(s, pos10, p.uuid, p.id, p.kind, p.aquired_age, p.aquired_person) == parse_emotion_rec_s11(s, pos11, p.uuid, p.id, p.kind, p.aquired_age, p.aquired_person));
    assert(parse_emotion_rec_s11(s, pos11, p.uuid, p.id, p.kind, p.aquired_age, p.aquired_person) == parse_emotion_rec_s12(s, pos12, p.uuid, p.id, p.kind, p.aquired_age, p.aquired_person, p.created_at));
    assert(parse_emotion_rec_s12(s, pos12, p.uuid, p.id, p.kind, p.aquired_age, p.aquired_person, p.created_at) == parse_emotion_rec_s13(s, pos13, p.uuid, p.id, p.kind, p.aquired_age, p.aquired_person, p.created_at));
    assert(enc_emotion_rec(p).len() as int == pos13);
}

/// Appends the persisted text of one emotion entry.
#[verifier::rlimit(100)]
#[verifier::spinoff_prover]
pub fn write_emotion_rec(out: &mut String, p: &Emotion)
    ensures
        final(out)@ == old(out)@ + enc_emotion_rec(p@),
{
    e_lit(out, "{\"uuid\":");
    e_string(out, p.uuid.as_str());
    e_lit(out, ",\"id\":");
    e_opt_u8(out, p.id);
    e_lit(out, ",\"kind\":");
    e_opt_u8(out, p.kind);
    e_lit(out, ",\"aquired_age\":");
    e_opt_u8(out, p.aquired_age);
    e_lit(out, ",\"aquired_person\":");
    e_string(out, p.aquired_person.as_str());
    e_lit(out, ",\"created_at\":");
    e_u64(out, p.created_at);
    e_lit(out, "}");
    proof {
        assert(out@ =~= old(out)@ + enc_emotion_rec(p@));
    }
}

/// Reads the persisted text of one emotion entry starting at `pos`.
#[verifier::rlimit(100)]
#[verifier::spinoff_prover]
pub fn read_emotion_rec(cs: &Vec<char>, pos: usize) -> (r: Option<(Emotion, usize)>)
    requires
        pos <= cs@.len(),
    ensures
        r is Some ==> (parse_emotion_rec(cs@.skip(pos as int)) matches Some(q) && r.unwrap().0@ == q.0
            && r.unwrap().1 - pos == q.1 && pos <= r.unwrap().1 <= cs@.len()),
        r is None ==> parse_emotion_rec(cs@.skip(pos as int)) is None,
{
    let ghost s = cs@.skip(pos as int);
    proof { lemma_skip_skip(cs@, pos as int, (pos - pos) as int); }
    let c0: usize = match p_lit(cs, pos, "{\"uuid\":") {
        Some(x) => x,
        None => { return None; },
    };
    proof { lemma_skip_skip(cs@, pos as int, (c0 - pos) as int); }
    let v1 = match p_string(cs, c0) {
        Some(x) => x,
        None => { return None; },
    };
    proof { lemma_skip_skip(cs@, pos as int, (v1.1 - pos) as int); }
    let c2: usize = match p_lit(cs, v1.1, ",\"id\":") {
        Some(x) => x,
        None => { return None; },
    };
    proof { lemma_skip_skip(cs@, pos as int, (c2 - pos) as int); }
    let v3 = match p_opt_u8(cs, c2) {
        Some(x) => x,
        None => { return None; },
    };
    proof { lemma_skip_skip(cs@, pos as int, (v3.1 - pos) as int); }
    let c4: usize = match p_lit(cs, v3.1, ",\"kind\":") {
        Some(x) => x,
        None => { return None; },
    };
    proof { lemma_skip_skip(cs@, pos as int, (c4 - pos) as int); }
    let v5 = match p_opt_u8(cs, c4) {
        Some(x) => x,
        None => { return None; },
    };
    proof { lemma_skip_skip(cs@, pos as int, (v5.1 - pos) as int); }
    let c6: usize = match p_lit(cs, v5.1, ",\"aquired_age\":") {
        Some(x) => x,
        None => { return None; },
    };
    proof { lemma_skip_skip(cs@, pos as int, (c6 - pos) as int); }
    let v7 = match p_opt_u8(cs, c6) {
        Some(x) => x,
        None => { return None; },
    };
    proof { lemma_skip_skip(cs@, pos as int, (v7.1 - pos) as int); }
    let c8: usize = match p_lit(cs, v7.1, ",\"aquired_person\":") {
        Some(x) => x,
        None => { return None; },
    };
    proof { lemma_skip_skip(cs@, pos as int, (c8 - pos) as int); }
    let v9 = match p_string(cs, c8) {
        Some(x) => x,
        None => { return None; },
    };
    proof { lemma_skip_skip(cs@, pos as int, (v9.1 - pos) as int); }
    let c10: usize = match p_lit(cs, v9.1, ",\"created_at\":") {
        Some(x) => x,
        None => { return None; },
    };
    proof { lemma_skip_skip(cs@, pos as int, (c10 - pos) as int); }
    let v11 = match p_u64(cs, c10) {
        Some(x) => x,
        None => { return None; },
    };
    proof { lemma_skip_skip(cs@, pos as int, (v11.1 - pos) as int); }
    let c12: usize = match p_lit(cs, v11.1, "}") {
        Some(x) => x,
        None => { return None; },
    };
    let built = Emotion { uuid: v1.0, id: v3.0, kind: v5.0, aquired_age: v7.0, aquired_person: v9.0, created_at: v11.0 };
    proof {
        assert(built@ =~= parse_emotion_rec(s).unwrap().0);
    }
    Some((built, c12))
}

/// The persisted text of one cached remote event.
pub open spec fn enc_remote_event_rec(p: RemoteEventV) -> Seq<char> {
    "{\"id\":"@
        + enc_string(p.id)
        + ",\"start\":"@
        + dec_chars_of(p.start)
        + ",\"end\":"@
        + dec_chars_of(p.end)
        + ",\"summary\":"@
        + enc_opt_string(p.summary)
        + ",\"description\":"@
        + enc_opt_string(p.description)
        + ",\"colorId\":"@
        + enc_opt_string(p.color_id)
        + "}"@
}

pub open spec fn parse_remote_event_rec_s0(s: Seq<char>, m: int) -> Option<(RemoteEventV, int)> {
    match parse_lit(s.skip(m), "{\"id\":"@) {
        None => None,
        Some(n) => parse_remote_event_rec_s1(s, m + n),
    }
}

pub open spec fn parse_remote_event_rec_s1(s: Seq<char>, m: int) -> Option<(RemoteEventV, int)> {
    match parse_string(s.skip(m)) {
        None => None,
        Some(v) => parse_remote_event_rec_s2(s, m + v.1, v.0),
    }
}

pub open spec fn parse_remote_event_rec_s2(s: Seq<char>, m: int, w1: Seq<char>) -> Option<(RemoteEventV, int)> {
    match parse_lit(s.skip(m), ",\"start\":"@) {
        None => None,
        Some(n) => parse_remote_event_rec_s3(s, m + n, w1),
    }
}

pub open spec fn parse_remote_event_rec_s3(s: Seq<char>, m: int, w1: Seq<char>) -> Option<(RemoteEventV, int)> {
    match parse_u64(s.skip(m)) {
        None => None,
        Some(v) => parse_remote_event_rec_s4(s, m + v.1, w1, v.0),
    }
}

pub open spec fn parse_remote_event_rec_s4(s: Seq<char>, m: int, w1: Seq<char>, w3: u64) -> Option<(RemoteEventV, int)> {
    match parse_lit(s.skip(m), ",\"end\":"@) {
        None => None,
        Some(n) => parse_remote_event_rec_s5(s, m + n, w1, w3),
    }
}

pub open spec fn parse_remote_event_rec_s5(s: Seq<char>, m: int, w1: Seq<char>, w3: u64) -> Option<(RemoteEventV, int)> {
    match parse_u64(s.skip(m)) {
        None => None,
        Some(v) => parse_remote_event_rec_s6(s, m + v.1, w1, w3, v.0),
    }
}

pub open spec fn parse_remote_event_rec_s6(s: Seq<char>, m: int, w1: Seq<char>, w3: u64, w5: u64) -> Option<(RemoteEventV, int)> {
    match parse_lit(s.skip(m), ",\"summary\":"@) {
        None => None,
        Some(n) => parse_remote_event_rec_s7(s, m + n, w1, w3, w5),
    }
}

pub open spec fn parse_remote_event_rec_s7(s: Seq<char>, m: int, w1: Seq<char>, w3: u64, w5: u64) -> Option<(RemoteEventV, int)> {
    match parse_opt_string(s.skip(m)) {
        None => None,
        Some(v) => parse_remote_event_rec_s8(s, m + v.1, w1, w3, w5, v.0),
    }
}

pub open spec fn parse_remote_event_rec_s8(s: Seq<char>, m: int, w1: Seq<char>, w3: u64, w5: u64, w7: Option<Seq<char>>) -> Option<(RemoteEventV, int)> {
    match parse_lit(s.skip(m), ",\"description\":"@) {
        None => None,
        Some(n) => parse_remote_event_rec_s9(s, m + n, w1, w3, w5, w7),
    }
}

pub open spec fn parse_remote_event_rec_s9(s: Seq<char>, m: int, w1: Seq<char>, w3: u64, w5: u64, w7: Option<Seq<char>>) -> Option<(RemoteEventV, int)> {
    match parse_opt_string(s.skip(m)) {
        None => None,
        Some(v) => parse_remote_event_rec_s10(s, m + v.1, w1, w3, w5, w7, v.0),
    }
}

pub open spec fn parse_remote_event_rec_s10(s: Seq<char>, m: int, w1: Seq<char>, w3: u64, w5: u64, w7: Option<Seq<char>>, w9: Option<Seq<char>>) -> Option<(RemoteEventV, int)> {
    match parse_lit(s.skip(m), ",\"colorId\":"@) {
        None => None,
        Some(n) => parse_remote_event_rec_s11(s, m + n, w1, w3, w5, w7, w9),
    }
}

pub open spec fn parse_remote_event_rec_s11(s: Seq<char>, m: int, w1: Seq<char>, w3: u64, w5: u64, w7: Option<Seq<char>>, w9: Option<Seq<char>>) -> Option<(RemoteEventV, int)> {
    match parse_opt_string(s.skip(m)) {
        None => None,
        Some(v) => parse_remote_event_rec_s12(s, m + v.1, w1, w3, w5, w7, w9, v.0),
    }
}

pub open spec fn parse_remote_event_rec_s12(s: Seq<char>, m: int, w1: Seq<char>, w3: u64, w5: u64, w7: Option<Seq<char>>, w9: Option<Seq<char>>, w11: Option<Seq<char>>) -> Option<(RemoteEventV, int)> {
    match parse_lit(s.skip(m), "}"@) {
        None => None,
        Some(n) => parse_remote_event_rec_s13(s, m + n, w1, w3, w5, w7, w9, w11),
    }
}

pub open spec fn parse_remote_event_rec_s13(s: Seq<char>, m: int, w1: Seq<char>, w3: u64, w5: u64, w7: Option<Seq<char>>, w9: Option<Seq<char>>, w11: Option<Seq<char>>) -> Option<(RemoteEventV, int)> {
    Some((RemoteEventV { id: w1, start: w3, end: w5, summary: w7, description: w9, color_id: w11 }, m))
}

pub open spec fn parse_remote_event_rec(s: Seq<char>) -> Option<(RemoteEventV, int)> {
    parse_remote_event_rec_s0(s, 0)
}

/// Reading back one cached remote event gives exactly what was written.
#[verifier::rlimit(100)]
#[verifier::spinoff_prover]
pub proof fn lemma_remote_event_rec_round_trip(p: RemoteEventV, rest: Seq<char>)
    ensures
        parse_remote_event_rec(enc_remote_event_rec(p) + rest) matches Some(q) && q.0 == (RemoteEventV { id: p.id, start: p.start, end: p.end, summary: p.summary, description: p.description, color_id: p.color_id }) && q.1 == enc_remote_event_rec(p).len() as int,
{
    reveal_strlit("{\"id\":");
    reveal_strlit(",\"start\":");
    reveal_strlit(",\"end\":");
    reveal_strlit(",\"summary\":");
    reveal_strlit(",\"description\":");
    reveal_strlit(",\"colorId\":");
    reveal_strlit("}");
    let s = enc_remote_event_rec(p) + rest;
    let t0 = "{\"id\":"@;
    let t1 = enc_string(p.id);
    let t2 = ",\"start\":"@;
    let t3 = dec_chars_of(p.start);
    let t4 = ",\"end\":"@;
    let t5 = dec_chars_of(p.end);
    let t6 = ",\"summary\":"@;
    let t7 = enc_opt_string(p.summary);
    let t8 = ",\"description\":"@;
    let t9 = enc_opt_string(p.description);
    let t10 = ",\"colorId\":"@;
    let t11 = enc_opt_string(p.color_id);
    let t12 = "}"@;
    let r12 = rest;
    let r11 = t12 + r12;
    let r10 = t11 + r11;
    let r9 = t10 + r10;
    let r8 = t9 + r9;
    let r7 = t8 + r8;
    let r6 = t7 + r7;
    let r5 = t6 + r6;
    let r4 = t5 + r5;
    let r3 = t4 + r4;
    let r2 = t3 + r3;
    let r1 = t2 + r2;
    let r0 = t1 + r1;
    assert(s =~= t0 + r0);
    let pos0: int = 0;
    let pos1: int = pos0 + t0.len();
    let pos2: int = pos1 + t1.len();
    let pos3: int = pos2 + t2.len();
    let pos4: int = pos3 + t3.len();
    let pos5: int = pos4 + t4.len();
    let pos6: int = pos5 + t5.len();
    let pos7: int = pos6 + t6.len();
    let pos8: int = pos7 + t7.len();
    let pos9: int = pos8 + t8.len();
    let pos10: int = pos9 + t9.len();
    let pos11: int = pos10 + t10.len();
    let pos12: int = pos11 + t11.len();
    let pos13: int = pos12 + t12.len();
    assert(s.skip(pos0) == t0 + r0);
    lemma_starts_with_concat(t0, r0);
    assert(parse_lit(s.skip(pos0), "{\"id\":"@) == Some(t0.len() as int));
    lemma_skip_skip(s, pos0, t0.len() as int);
    assert(s.skip(pos1) == r0);
    lemma_string_round_trip(p.id, r1);
    lemma_starts_with_concat(t1, r1);
    assert(parse_string(s.skip(pos1)) == Some((p.id, t1.len() as int)));
    lemma_skip_skip(s, pos1, t1.len() as int);
    assert(s.skip(pos2) == r1);
    lemma_starts_with_concat(t2, r2);
    assert(parse_lit(s.skip(pos2), ",\"start\":"@) == Some(t2.len() as int));
    lemma_skip_skip(s, pos2, t2.len() as int);
    assert(s.skip(pos3) == r2);
    assert(!is_digit(r3[0]));
    lemma_u64_round_trip(p.start, r3);
    lemma_starts_with_concat(t3, r3);
    assert(parse_u64(s.skip(pos3)) == Some((p.start, t3.len() as int)));
    lemma_skip_skip(s, pos3, t3.len() as int);
    assert(s.skip(pos4) == r3);
    lemma_starts_with_concat(t4, r4);
    assert(parse_lit(s.skip(pos4), ",\"end\":"@) == Some(t4.len() as int));
    lemma_skip_skip(s, pos4, t4.len() as int);
    assert(s.skip(pos5) == r4);
    assert(!is_digit(r5[0]));
    lemma_u64_round_trip(p.end, r5);
    lemma_starts_with_concat(t5, r5);
    assert(parse_u64(s.skip(pos5)) == Some((p.end, t5.len() as int)));
    lemma_skip_skip(s, pos5, t5.len() as int);
    assert(s.skip(pos6) == r5);
    lemma_starts_with_concat(t6, r6);
    assert(parse_lit(s.skip(pos6), ",\"summary\":"@) == Some(t6.len() as int));
    lemma_skip_skip(s, pos6, t6.len() as int);
    assert(s.skip(pos7) == r6);
    assert(r7[0] != '"');
    lemma_opt_string_round_trip(p.summary, r7);
    lemma_starts_with_concat(t7, r7);
    assert(parse_opt_string(s.skip(pos7)) == Some((p.summary, t7.len() as int)));
    lemma_skip_skip(s, pos7, t7.len() as int);
    assert(s.skip(pos8) == r7);
    lemma_starts_with_concat(t8, r8);
    assert(parse_lit(s.skip(pos8), ",\"description\":"@) == Some(t8.len() as int));
    lemma_skip_skip(s, pos8, t8.len() as int);
    assert(s.skip(pos9) == r8);
    assert(r9[0] != '"');
    lemma_opt_string_round_trip(p.description, r9);
    lemma_starts_with_concat(t9, r9);
    assert(parse_opt_string(s.skip(pos9)) == Some((p.description, t9.len() as int)));
    lemma_skip_skip(s, pos9, t9.len() as int);
    assert(s.skip(pos10) == r9);
    lemma_starts_with_concat(t10, r10);
    assert(parse_lit(s.skip(pos10), ",\"colorId\":"@) == Some(t10.len() as int));
    lemma_skip_skip(s, pos10, t10.len() as int);
    assert(s.skip(pos11) == r10);
    assert(r11[0] != '"');
    lemma_opt_string_round_trip(p.color_id, r11);
    lemma_starts_with_concat(t11, r11);
    assert(parse_opt_string(s.skip(pos11)) == Some((p.color_id, t11.len() as int)));
    lemma_skip_skip(s, pos11, t11.len() as int);
    assert(s.skip(pos12) == r11);
    lemma_starts_with_concat(t12, r12);
    assert(parse_lit(s.skip(pos12), "}"@) == Some(t12.len() as int));
    assert(parse_remote_event_rec_s0(s, pos0) == parse_remote_event_rec_s1(s, pos1));
    assert(parse_remote_event_rec_s1(s, pos1) == parse_remote_event_rec_s2(s, pos2, p.id));
    assert(parse_remote_event_rec_s2(s, pos2, p.id) == parse_remote_event_rec_s3(s, pos3, p.id));
    assert(parse_remote_event_rec_s3(s, pos3, p.id) == parse_remote_event_rec_s4(s, pos4, p.id, p.start));
    assert(parse_remote_event_rec_s4(s, pos4, p.id, p.start) == parse_remote_event_rec_s5(s, pos5, p.id, p.start));
    assert(parse_remote_event_rec_s5(s, pos5, p.id, p.start) == parse_remote_event_rec_s6(s, pos6, p.id, p.start, p.end));
    assert(parse_remote_event_rec_s6(s, pos6, p.id, p.start, p.end) == parse_remote_event_rec_s7(s, pos7, p.id, p.start, p.end));
    assert(parse_remote_event_rec_s7(s, pos7, p.id, p.start, p.end) == parse_remote_event_rec_s8(s, pos8, p.id, p.start, p.end, p.summary));
    assert(parse_remote_event_rec_s8(s, pos8, p.id, p.start, p.end, p.summary) == parse_remote_event_rec_s9(s, pos9, p.id, p.start, p.end, p.summary));
    assert(parse_remote_event_rec_s9(s, pos9, p.id, p.start, p.end, p.summary) == parse_remote_event_rec_s10(s, pos10, p.id, p.start, p.end, p.summary, p.description));
    assert(parse_remote_event_rec_s10(s, pos10, p.id, p.start, p.end, p.summary, p.description) == parse_remote_event_rec_s11(s, pos11, p.id, p.start, p.end, p.summary, p.description));
    assert(parse_remote_event_rec_s11(s, pos11, p.id, p.start, p.end, p.summary, p.description) == parse_remote_event_rec_s12(s, pos12, p.id, p.start, p.end, p.summary, p.description, p.color_id));
    assert(parse_remote_event_rec_s12(s, pos12, p.id, p.start, p.end, p.summary, p.description, p.color_id) == parse_remote_event_rec_s13(s, pos13, p.id, p.start, p.end, p.summary, p.description, p.color_id));
    assert(enc_remote_event_rec(p).len() as int == pos13);
}

/// Appends the persisted text of one cached remote event.
#[verifier::rlimit(100)]
#[verifier::spinoff_prover]
pub fn write_remote_event_rec(out: &mut String, p: &RemoteEvent)
    ensures
        final(out)@ == old(out)@ + enc_remote_event_rec(p@),
{
    e_lit(out, "{\"id\":");
    e_string(out, p.id.as_str());
    e_lit(out, ",\"start\":");
    e_u64(out, p.start);
    e_lit(out, ",\"end\":");
    e_u64(out, p.end);
    e_lit(out, ",\"summary\":");
    e_opt_string(out, &p.summary);
    e_lit(out, ",\"description\":");
    e_opt_string(out, &p.description);
    e_lit(out, ",\"colorId\":");
    e_opt_string(out, &p.color_id);
    e_lit(out, "}");
    proof {
        assert(out@ =~= old(out)@ + enc_remote_event_rec(p@));
    }
}

/// Reads the persisted text of one cached remote event starting at `pos`.
#[verifier::rlimit(100)]
#[verifier::spinoff_prover]
pub fn read_remote_event_rec(cs: &Vec<char>, pos: usize) -> (r: Option<(RemoteEvent, usize)>)
    requires
        pos <= cs@.len(),
    ensures
        r is Some ==> (parse_remote_event_rec(cs@.skip(pos as int)) matches Some(q) && r.unwrap().0@ == q.0
            && r.unwrap().1 - pos == q.1 && pos <= r.unwrap().1 <= cs@.len()),
        r is None ==> parse_remote_event_rec(cs@.skip(pos as int)) is None,
{
    let ghost s = cs@.skip(pos as int);
    proof { lemma_skip_skip(cs@, pos as int, (pos - pos) as int); }
    let c0: usize = match p_lit(cs, pos, "{\"id\":") {
        Some(x) => x,
        None => { return None; },
    };
    proof { lemma_skip_skip(cs@, pos as int, (c0 - pos) as int); }
    let v1 = match p_string(cs, c0) {
        Some(x) => x,
        None => { return None; },
    };
    proof { lemma_skip_skip(cs@, pos as int, (v1.1 - pos) as int); }
    let c2: usize = match p_lit(cs, v1.1, ",\"start\":") {
        Some(x) => x,
        None => { return None; },
    };
    proof { lemma_skip_skip(cs@, pos as int, (c2 - pos) as int); }
    let v3 = match p_u64(cs, c2) {
        Some(x) => x,
        None => { return None; },
    };
    proof { lemma_skip_skip(cs@, pos as int, (v3.1 - pos) as int); }
    let c4: usize = match p_lit(cs, v3.1, ",\"end\":") {
        Some(x) => x,
        None => { return None; },
    };
    proof { lemma_skip_skip(cs@, pos as int, (c4 - pos) as int); }
    let v5 = match p_u64(cs, c4) {
        Some(x) => x,
        None => { return None; },
    };
    proof { lemma_skip_skip(cs@, pos as int, (v5.1 - pos) as int); }
    let c6: usize = match p_lit(cs, v5.1, ",\"summary\":") {
        Some(x) => x,
        None => { return None; },
    };
    proof { lemma_skip_skip(cs@, pos as int, (c6 - pos) as int); }
    let v7 = match p_opt_string(cs, c6) {
        Some(x) => x,
        None => { return None; },
    };
    proof { lemma_skip_skip(cs@, pos as int, (v7.1 - pos) as int); }
    let c8: usize = match p_lit(cs, v7.1, ",\"description\":") {
        Some(x) => x,
        None => { return None; },
    };
    proof { lemma_skip_skip(cs@, pos as int, (c8 - pos) as int); }
    let v9 = match p_opt_string(cs, c8) {
        Some(x) => x,
        None => { return None; },
    };
    proof { lemma_skip_skip(cs@, pos as int, (v9.1 - pos) as int); }
    let c10: usize = match p_lit(cs, v9.1, ",\"colorId\":") {
        Some(x) => x,
        None => { return None; },
    };
    proof { lemma_skip_skip(cs@, pos as int, (c10 - pos) as int); }
    let v11 = match p_opt_string(cs, c10) {
        Some(x) => x,
        None => { return None; },
    };
    proof { lemma_skip_skip(cs@, pos as int, (v11.1 - pos) as int); }
    let c12: usize = match p_lit(cs, v11.1, "}") {
        Some(x) => x,
        None => { return None; },
    };
    let built = RemoteEvent { id: v1.0, start: v3.0, end: v5.0, summary: v7.0, description: v9.0, color_id: v11.0 };
    proof {
        assert(built@ =~= parse_remote_event_rec(s).unwrap().0);
    }
    Some((built, c12))
}

/// The persisted text of the profile half of a persisted account record.
pub open spec fn enc_rwuser_a(p: RwUserV) -> Seq<char> {
    "{\"id\":"@
        + enc_string(p.id)
        + ",\"email\":"@
        + enc_string(p.email)
        + ",\"verified_email\":"@
        + enc_bool(p.verified_email)
        + ",\"name\":"@
        + enc_string(p.name)
        + ",\"given_name\":"@
        + enc_string(p.given_name)
        + ",\"picture\":"@
        + enc_string(p.picture)
        + ",\"locale\":"@
        + enc_string(p.locale)
}

pub open spec fn parse_rwuser_a_s0(s: Seq<char>, m: int) -> Option<(RwUserV, int)> {
    match parse_lit(s.skip(m), "{\"id\":"@) {
        None => None,
        Some(n) => parse_rwuser_a_s1(s, m + n),
    }
}

pub open spec fn parse_rwuser_a_s1(s: Seq<char>, m: int) -> Option<(RwUserV, int)> {
    match parse_string(s.skip(m)) {
        None => None,
        Some(v) => parse_rwuser_a_s2(s, m + v.1, v.0),
    }
}

pub open spec fn parse_rwuser_a_s2(s: Seq<char>, m: int, w1: Seq<char>) -> Option<(RwUserV, int)> {
    match parse_lit(s.skip(m), ",\"email\":"@) {
        None => None,
        Some(n) => parse_rwuser_a_s3(s, m + n, w1),
    }
}

pub open spec fn parse_rwuser_a_s3(s: Seq<char>, m: int, w1: Seq<char>) -> Option<(RwUserV, int)> {
    match parse_string(s.skip(m)) {
        None => None,
        Some(v) => parse_rwuser_a_s4(s, m + v.1, w1, v.0),
    }
}

pub open spec fn parse_rwuser_a_s4(s: Seq<char>, m: int, w1: Seq<char>, w3: Seq<char>) -> Option<(RwUserV, int)> {
    match parse_lit(s.skip(m), ",\"verified_email\":"@) {
        None => None,
        Some(n) => parse_rwuser_a_s5(s, m + n, w1, w3),
    }
}

pub open spec fn parse_rwuser_a_s5(s: Seq<char>, m: int, w1: Seq<char>, w3: Seq<char>) -> Option<(RwUserV, int)> {
    match parse_bool(s.skip(m)) {
        None => None,
        Some(v) => parse_rwuser_a_s6(s, m + v.1, w1, w3, v.0),
    }
}

pub open spec fn parse_rwuser_a_s6(s: Seq<char>, m: int, w1: Seq<char>, w3: Seq<char>, w5: bool) -> Option<(RwUserV, int)> {
    match parse_lit(s.skip(m), ",\"name\":"@) {
        None => None,
        Some(n) => parse_rwuser_a_s7(s, m + n, w1, w3, w5),
    }
}

pub open spec fn parse_rwuser_a_s7(s: Seq<char>, m: int, w1: Seq<char>, w3: Seq<char>, w5: bool) -> Option<(RwUserV, int)> {
    match parse_string(s.skip(m)) {
        None => None,
        Some(v) => parse_rwuser_a_s8(s, m + v.1, w1, w3, w5, v.0),
    }
}

pub open spec fn parse_rwuser_a_s8(s: Seq<char>, m: int, w1: Seq<char>, w3: Seq<char>, w5: bool, w7: Seq<char>) -> Option<(RwUserV, int)> {
    match parse_lit(s.skip(m), ",\"given_name\":"@) {
        None => None,
        Some(n) => parse_rwuser_a_s9(s, m + n, w1, w3, w5, w7),
    }
}

pub open spec fn parse_rwuser_a_s9(s: Seq<char>, m: int, w1: Seq<char>, w3: Seq<char>, w5: bool, w7: Seq<char>) -> Option<(RwUserV, int)> {
    match parse_string(s.skip(m)) {
        None => None,
        Some(v) => parse_rwuser_a_s10(s, m + v.1, w1, w3, w5, w7, v.0),
    }
}

pub open spec fn parse_rwuser_a_s10(s: Seq<char>, m: int, w1: Seq<char>, w3: Seq<char>, w5: bool, w7: Seq<char>, w9: Seq<char>) -> Option<(RwUserV, int)> {
    match parse_lit(s.skip(m), ",\"picture\":"@) {
        None => None,
        Some(n) => parse_rwuser_a_s11(s, m + n, w1, w3, w5, w7, w9),
    }
}

pub open spec fn parse_rwuser_a_s11(s: Seq<char>, m: int, w1: Seq<char>, w3: Seq<char>, w5: bool, w7: Seq<char>, w9: Seq<char>) -> Option<(RwUserV, int)> {
    match parse_string(s.skip(m)) {
        None => None,
        Some(v) => parse_rwuser_a_s12(s, m + v.1, w1, w3, w5, w7, w9, v.0),
    }
}

pub open spec fn parse_rwuser_a_s12(s: Seq<char>, m: int, w1: Seq<char>, w3: Seq<char>, w5: bool, w7: Seq<char>, w9: Seq<char>, w11: Seq<char>) -> Option<(RwUserV, int)> {
    match parse_lit(s.skip(m), ",\"locale\":"@) {
        None => None,
        Some(n) => parse_rwuser_a_s13(s, m + n, w1, w3, w5, w7, w9, w11),
    }
}

pub open spec fn parse_rwuser_a_s13(s: Seq<char>, m: int, w1: Seq<char>, w3: Seq<char>, w5: bool, w7: Seq<char>, w9: Seq<char>, w11: Seq<char>) -> Option<(RwUserV, int)> {
    match parse_string(s.skip(m)) {
        None => None,
        Some(v) => parse_rwuser_a_s14(s, m + v.1, w1, w3, w5, w7, w9, w11, v.0),
    }
}

pub open spec fn parse_rwuser_a_s14(s: Seq<char>, m: int, w1: Seq<char>, w3: Seq<char>, w5: bool, w7: Seq<char>, w9: Seq<char>, w11: Seq<char>, w13: Seq<char>) -> Option<(RwUserV, int)> {
    Some((RwUserV { id: w1, email: w3, verified_email: w5, name: w7, given_name: w9, picture: w11, locale: w13, settings: SettingsV { google_calendar_enabled: false }, access_token: Seq::empty(), expires_at: 0, refresh_token: Seq::empty() }, m))
}

pub open spec fn parse_rwuser_a(s: Seq<char>) -> Option<(RwUserV, int)> {
    parse_rwuser_a_s0(s, 0)
}

/// Reading back the profile half of a persisted account record gives exactly what was written.
#[verifier::rlimit(100)]
#[verifier::spinoff_prover]
pub proof fn lemma_rwuser_a_round_trip(p: RwUserV, rest: Seq<char>)
    ensures
        parse_rwuser_a(enc_rwuser_a(p) + rest) matches Some(q) && q.0 == (RwUserV { id: p.id, email: p.email, verified_email: p.verified_email, name: p.name, given_name: p.given_name, picture: p.picture, locale: p.locale, settings: SettingsV { google_calendar_enabled: false }, access_token: Seq::empty(), expires_at: 0, refresh_token: Seq::empty() }) && q.1 == enc_rwuser_a(p).len() as int,
{
    reveal_strlit("{\"id\":");
    reveal_strlit(",\"email\":");
    reveal_strlit(",\"verified_email\":");
    reveal_strlit(",\"name\":");
    reveal_strlit(",\"given_name\":");
    reveal_strlit(",\"picture\":");
    reveal_strlit(",\"locale\":");
    let s = enc_rwuser_a(p) + rest;
    let t0 = "{\"id\":"@;
    let t1 = enc_string(p.id);
    let t2 = ",\"email\":"@;
    let t3 = enc_string(p.email);
    let t4 = ",\"verified_email\":"@;
    let t5 = enc_bool(p.verified_email);
    let t6 = ",\"name\":"@;
    let t7 = enc_string(p.name);
    let t8 = ",\"given_name\":"@;
    let t9 = enc_string(p.given_name);
    let t10 = ",\"picture\":"@;
    let t11 = enc_string(p.picture);
    let t12 = ",\"locale\":"@;
    let t13 = enc_string(p.locale);
    let r13 = rest;
    let r12 = t13 + r13;
    let r11 = t12 + r12;
    let r10 = t11 + r11;
    let r9 = t10 + r10;
    let r8 = t9 + r9;
    let r7 = t8 + r8;
    let r6 = t7 + r7;
    let r5 = t6 + r6;
    let r4 = t5 + r5;
    let r3 = t4 + r4;
    let r2 = t3 + r3;
    let r1 = t2 + r2;
    let r0 = t1 + r1;
    assert(s =~= t0 + r0);
    let pos0: int = 0;
    let pos1: int = pos0 + t0.len();
    let pos2: int = pos1 + t1.len();
    let pos3: int = pos2 + t2.len();
    let pos4: int = pos3 + t3.len();
    let pos5: int = pos4 + t4.len();
    let pos6: int = pos5 + t5.len();
    let pos7: int = pos6 + t6.len();
    let pos8: int = pos7 + t7.len();
    let pos9: int = pos8 + t8.len();
    let pos10: int = pos9 + t9.len();
    let pos11: int = pos10 + t10.len();
    let pos12: int = pos11 + t11.len();
    let pos13: int = pos12 + t12.len();
    let pos14: int = pos13 + t13.len();
    assert(s.skip(pos0) == t0 + r0);
    lemma_starts_with_concat(t0, r0);
    assert(parse_lit(s.skip(pos0), "{\"id\":"@) == Some(t0.len() as int));
    lemma_skip_skip(s, pos0, t0.len() as int);
    assert(s.skip(pos1) == r0);
    lemma_string_round_trip(p.id, r1);
    lemma_starts_with_concat(t1, r1);
    assert(parse_string(s.skip(pos1)) == Some((p.id, t1.len() as int)));
    lemma_skip_skip(s, pos1, t1.len() as int);
    assert(s.skip(pos2) == r1);
    lemma_starts_with_concat(t2, r2);
    assert(parse_lit(s.skip(pos2), ",\"email\":"@) == Some(t2.len() as int));
    lemma_skip_skip(s, pos2, t2.len() as int);
    assert(s.skip(pos3) == r2);
    lemma_string_round_trip(p.email, r3);
    lemma_starts_with_concat(t3, r3);
    assert(parse_string(s.skip(pos3)) == Some((p.email, t3.len() as int)));
    lemma_skip_skip(s, pos3, t3.len() as int);
    assert(s.skip(pos4) == r3);
    lemma_starts_with_concat(t4, r4);
    assert(parse_lit(s.skip(pos4), ",\"verified_email\":"@) == Some(t4.len() as int));
    lemma_skip_skip(s, pos4, t4.len() as int);
    assert(s.skip(pos5) == r4);
    assert(r5[0] != 'r' && r5[0] != 'a');
    lemma_bool_round_trip(p.verified_email, r5);
    lemma_starts_with_concat(t5, r5);
    assert(parse_bool(s.skip(pos5)) == Some((p.verified_email, t5.len() as int)));
    lemma_skip_skip(s, pos5, t5.len() as int);
    assert(s.skip(pos6) == r5);
    lemma_starts_with_concat(t6, r6);
    assert(parse_lit(s.skip(pos6), ",\"name\":"@) == Some(t6.len() as int));
    lemma_skip_skip(s, pos6, t6.len() as int);
    assert(s.skip(pos7) == r6);
    lemma_string_round_trip(p.name, r7);
    lemma_starts_with_concat(t7, r7);
    assert(parse_string(s.skip(pos7)) == Some((p.name, t7.len() as int)));
    lemma_skip_skip(s, pos7, t7.len() as int);
    assert(s.skip(pos8) == r7);
    lemma_starts_with_concat(t8, r8);
    assert(parse_lit(s.skip(pos8), ",\"given_name\":"@) == Some(t8.len() as int));
    lemma_skip_skip(s, pos8, t8.len() as int);
    assert(s.skip(pos9) == r8);
    lemma_string_round_trip(p.given_name, r9);
    lemma_starts_with_concat(t9, r9);
    assert(parse_string(s.skip(pos9)) == Some((p.given_name, t9.len() as int)));
    lemma_skip_skip(s, pos9, t9.len() as int);
    assert(s.skip(pos10) == r9);
    lemma_starts_with_concat(t10, r10);
    assert(parse_lit(s.skip(pos10), ",\"picture\":"@) == Some(t10.len() as int));
    lemma_skip_skip(s, pos10, t10.len() as int);
    assert(s.skip(pos11) == r10);
    lemma_string_round_trip(p.picture, r11);
    lemma_starts_with_concat(t11, r11);
    assert(parse_string(s.skip(pos11)) == Some((p.picture, t11.len() as int)));
    lemma_skip_skip(s, pos11, t11.len() as int);
    assert(s.skip(pos12) == r11);
    lemma_starts_with_concat(t12, r12);
    assert(parse_lit(s.skip(pos12), ",\"locale\":"@) == Some(t12.len() as int));
    lemma_skip_skip(s, pos12, t12.len() as int);
    assert(s.skip(pos13) == r12);
    lemma_string_round_trip(p.locale, r13);
    lemma_starts_with_concat(t13, r13);
    assert(parse_string(s.skip(pos13)) == Some((p.locale, t13.len() as int)));
    assert(parse_rwuser_a_s0(s, pos0) == parse_rwuser_a_s1(s, pos1));
    assert(parse_rwuser_a_s1(s, pos1) == parse_rwuser_a_s2(s, pos2, p.id));
    assert(parse_rwuser_a_s2(s, pos2, p.id) == parse_rwuser_a_s3(s, pos3, p.id));
    assert(parse_rwuser_a_s3(s, pos3, p.id) == parse_rwuser_a_s4(s, pos4, p.id, p.email));
    assert(parse_rwuser_a_s4(s, pos4, p.id, p.email) == parse_rwuser_a_s5(s, pos5, p.id, p.email));
    assert(parse_rwuser_a_s5(s, pos5, p.id, p.email) == parse_rwuser_a_s6(s, pos6, p.id, p.email, p.verified_email));
    assert(parse_rwuser_a_s6(s, pos6, p.id, p.email, p.verified_email) == parse_rwuser_a_s7(s, pos7, p.id, p.email, p.verified_email));
    assert(parse_rwuser_a_s7(s, pos7, p.id, p.email, p.verified_email) == parse_rwuser_a_s8(s, pos8, p.id, p.email, p.verified_email, p.name));
    assert(parse_rwuser_a_s8(s, pos8, p.id, p.email, p.verified_email, p.name) == parse_rwuser_a_s9(s, pos9, p.id, p.email, p.verified_email, p.name));
    assert(parse_rwuser_a_s9(s, pos9, p.id, p.email, p.verified_email, p.name) == parse_rwuser_a_s10(s, pos10, p.id, p.email, p.verified_email, p.name, p.given_name));
    assert(parse_rwuser_a_s10(s, pos10, p.id, p.email, p.verified_email, p.name, p.given_name) == parse_rwuser_a_s11(s, pos11, p.id, p.email, p.verified_email, p.name, p.given_name));
    assert(parse_rwuser_a_s11(s, pos11, p.id, p.email, p.verified_email, p.name, p.given_name) == parse_rwuser_a_s12(s, pos12, p.id, p.email, p.verified_email, p.name, p.given_name, p.picture));
    assert(parse_rwuser_a_s12(s, pos12, p.id, p.email, p.verified_email, p.name, p.given_name, p.picture) == parse_rwuser_a_s13(s, pos13, p.id, p.email, p.verified_email, p.name, p.given_name, p.picture));
    assert(parse_rwuser_a_s13(s, pos13, p.id, p.email, p.verified_email, p.name, p.given_name, p.picture) == parse_rwuser_a_s14(s, pos14, p.id, p.email, p.verified_email, p.name, p.given_name, p.picture, p.locale));
    assert(enc_rwuser_a(p).len() as int == pos14);
}

/// Appends the persisted text of the profile half of a persisted account record.
#[verifier::rlimit(100)]
#[verifier::spinoff_prover]
pub fn write_rwuser_a(out: &mut String, p: &RwUser)
    ensures
        final(out)@ == old(out)@ + enc_rwuser_a(p@),
{
    e_lit(out, "{\"id\":");
    e_string(out, p.id.as_str());
    e_lit(out, ",\"email\":");
    e_string(out, p.email.as_str());
    e_lit(out, ",\"verified_email\":");
    e_bool(out, p.verified_email);
    e_lit(out, ",\"name\":");
    e_string(out, p.name.as_str());
    e_lit(out, ",\"given_name\":");
    e_string(out, p.given_name.as_str());
    e_lit(out, ",\"picture\":");
    e_string(out, p.picture.as_str());
    e_lit(out, ",\"locale\":");
    e_string(out, p.locale.as_str());
    proof {
        assert(out@ =~= old(out)@ + enc_rwuser_a(p@));
    }
}

/// Reads the persisted text of the profile half of a persisted account record starting at `pos`.
#[verifier::rlimit(100)]
#[verifier::spinoff_prover]
pub fn read_rwuser_a(cs: &Vec<char>, pos: usize) -> (r: Option<(RwUser, usize)>)
    requires
        pos <= cs@.len(),
    ensures
        r is Some ==> (parse_rwuser_a(cs@.skip(pos as int)) matches Some(q) && r.unwrap().0@ == q.0
            && r.unwrap().1 - pos == q.1 && pos <= r.unwrap().1 <= cs@.len()),
        r is None ==> parse_rwuser_a(cs@.skip(pos as int)) is None,
{
    let ghost s = cs@.skip(pos as int);
    proof { lemma_skip_skip(cs@, pos as int, (pos - pos) as int); }
    let c0: usize = match p_lit(cs, pos, "{\"id\":") {
        Some(x) => x,
        None => { return None; },
    };
    proof { lemma_skip_skip(cs@, pos as int, (c0 - pos) as int); }
    let v1 = match p_string(cs, c0) {
        Some(x) => x,
        None => { return None; },
    };
    proof { lemma_skip_skip(cs@, pos as int, (v1.1 - pos) as int); }
    let c2: usize = match p_lit(cs, v1.1, ",\"email\":") {
        Some(x) => x,
        None => { return None; },
    };
    proof { lemma_skip_skip(cs@, pos as int, (c2 - pos) as int); }
    let v3 = match p_string(cs, c2) {
        Some(x) => x,
        None => { return None; },
    };
    proof { lemma_skip_skip(cs@, pos as int, (v3.1 - pos) as int); }
    let c4: usize = match p_lit(cs, v3.1, ",\"verified_email\":") {
        Some(x) => x,
        None => { return None; },
    };
    proof { lemma_skip_skip(cs@, pos as int, (c4 - pos) as int); }
    let v5 = match p_bool(cs, c4) {
        Some(x) => x,
        None => { return None; },
    };
    proof { lemma_skip_skip(cs@, pos as int, (v5.1 - pos) as int); }
    let c6: usize = match p_lit(cs, v5.1, ",\"name\":") {
        Some(x) => x,
        None => { return None; },
    };
    proof { lemma_skip_skip(cs@, pos as int, (c6 - pos) as int); }
    let v7 = match p_string(cs, c6) {
        Some(x) => x,
        None => { return None; },
    };
    proof { lemma_skip_skip(cs@, pos as int, (v7.1 - pos) as int); }
    let c8: usize = match p_lit(cs, v7.1, ",\"given_name\":") {
        Some(x) => x,
        None => { return None; },
    };
    proof { lemma_skip_skip(cs@, pos as int, (c8 - pos) as int); }
    let v9 = match p_string(cs, c8) {
        Some(x) => x,
        None => { return None; },
    };
    proof { lemma_skip_skip(cs@, pos as int, (v9.1 - pos) as int); }
    let c10: usize = match p_lit(cs, v9.1, ",\"picture\":") {
        Some(x) => x,
        None => { return None; },
    };
    proof { lemma_skip_skip(cs@, pos as int, (c10 - pos) as int); }
    let v11 = match p_string(cs, c10) {
        Some(x) => x,
        None => { return None; },
    };
    proof { lemma_skip_skip(cs@, pos as int, (v11.1 - pos) as int); }
    let c12: usize = match p_lit(cs, v11.1, ",\"locale\":") {
        Some(x) => x,
        None => { return None; },
    };
    proof { lemma_skip_skip(cs@, pos as int, (c12 - pos) as int); }
    let v13 = match p_string(cs, c12) {
        Some(x) => x,
        None => { return None; },
    };
    let built = RwUser { id: v1.0, email: v3.0, verified_email: v5.0, name: v7.0, given_name: v9.0, picture: v11.0, locale: v13.0, settings: Settings { google_calendar_enabled: false }, access_token: String::new(), expires_at: 0, refresh_token: String::new() };
    proof {
        assert(built@ =~= parse_rwuser_a(s).unwrap().0);
    }
    Some((built, v13.1))
}

/// The persisted text of the credential half of a persisted account record.
pub open spec fn enc_rwuser_b(p: RwUserV) -> Seq<char> {
    ",\"settings\":{\"google_calendar_enabled\":"@
        + enc_bool(p.settings.google_calendar_enabled)
        + "},\"access_token\":"@
        + enc_string(p.access_token)
        + ",\"expires_at\":"@
        + dec_chars_of(p.expires_at)
        + ",\"refresh_token\":"@
        + enc_string(p.refresh_token)
        + "}"@
}

pub open spec fn parse_rwuser_b_s0(s: Seq<char>, m: int) -> Option<(RwUserV, int)> {
    match parse_lit(s.skip(m), ",\"settings\":{\"google_calendar_enabled\":"@) {
        None => None,
        Some(n) => parse_rwuser_b_s1(s, m + n),
    }
}

pub open spec fn parse_rwuser_b_s1(s: Seq<char>, m: int) -> Option<(RwUserV, int)> {
    match parse_bool(s.skip(m)) {
        None => None,
        Some(v) => parse_rwuser_b_s2(s, m + v.1, v.0),
    }
}

pub open spec fn parse_rwuser_b_s2(s: Seq<char>, m: int, w1: bool) -> Option<(RwUserV, int)> {
    match parse_lit(s.skip(m), "},\"access_token\":"@) {
        None => None,
        Some(n) => parse_rwuser_b_s3(s, m + n, w1),
    }
}

pub open spec fn parse_rwuser_b_s3(s: Seq<char>, m: int, w1: bool) -> Option<(RwUserV, int)> {
    match parse_string(s.skip(m)) {
        None => None,
        Some(v) => parse_rwuser_b_s4(s, m + v.1, w1, v.0),
    }
}

pub open spec fn parse_rwuser_b_s4(s: Seq<char>, m: int, w1: bool, w3: Seq<char>) -> Option<(RwUserV, int)> {
    match parse_lit(s.skip(m), ",\"expires_at\":"@) {
        None => None,
        Some(n) => parse_rwuser_b_s5(s, m + n, w1, w3),
    }
}

pub open spec fn parse_rwuser_b_s5(s: Seq<char>, m: int, w1: bool, w3: Seq<char>) -> Option<(RwUserV, int)> {
    match parse_u64(s.skip(m)) {
        None => None,
        Some(v) => parse_rwuser_b_s6(s, m + v.1, w1, w3, v.0),
    }
}

pub open spec fn parse_rwuser_b_s6(s: Seq<char>, m: int, w1: bool, w3: Seq<char>, w5: u64) -> Option<(RwUserV, int)> {
    match parse_lit(s.skip(m), ",\"refresh_token\":"@) {
        None => None,
        Some(n) => parse_rwuser_b_s7(s, m + n, w1, w3, w5),
    }
}

pub open spec fn parse_rwuser_b_s7(s: Seq<char>, m: int, w1: bool, w3: Seq<char>, w5: u64) -> Option<(RwUserV, int)> {
    match parse_string(s.skip(m)) {
        None => None,
        Some(v) => parse_rwuser_b_s8(s, m + v.1, w1, w3, w5, v.0),
    }
}

pub open spec fn parse_rwuser_b_s8(s: Seq<char>, m: int, w1: bool, w3: Seq<char>, w5: u64, w7: Seq<char>) -> Option<(RwUserV, int)> {
    match parse_lit(s.skip(m), "}"@) {
        None => None,
        Some(n) => parse_rwuser_b_s9(s, m + n, w1, w3, w5, w7),
    }
}

pub open spec fn parse_rwuser_b_s9(s: Seq<char>, m: int, w1: bool, w3: Seq<char>, w5: u64, w7: Seq<char>) -> Option<(RwUserV, int)> {
    Some((RwUserV { id: Seq::empty(), email: Seq::empty(), verified_email: false, name: Seq::empty(), given_name: Seq::empty(), picture: Seq::empty(), locale: Seq::empty(), settings: SettingsV { google_calendar_enabled: w1 }, access_token: w3, expires_at: w5, refresh_token: w7 }, m))
}

pub open spec fn parse_rwuser_b(s: Seq<char>) -> Option<(RwUserV, int)> {
    parse_rwuser_b_s0(s, 0)
}

/// Reading back the credential half of a persisted account record gives exactly what was written.
#[verifier::rlimit(100)]
#[verifier::spinoff_prover]
pub proof fn lemma_rwuser_b_round_trip(p: RwUserV, rest: Seq<char>)
    ensures
        parse_rwuser_b(enc_rwuser_b(p) + rest) matches Some(q) && q.0 == (RwUserV { id: Seq::empty(), email: Seq::empty(), verified_email: false, name: Seq::empty(), given_name: Seq::empty(), picture: Seq::empty(), locale: Seq::empty(), settings: SettingsV { google_calendar_enabled: p.settings.google_calendar_enabled }, access_token: p.access_token, expires_at: p.expires_at, refresh_token: p.refresh_token }) && q.1 == enc_rwuser_b(p).len() as int,
{
    reveal_strlit(",\"settings\":{\"google_calendar_enabled\":");
    reveal_strlit("},\"access_token\":");
    reveal_strlit(",\"expires_at\":");
    reveal_strlit(",\"refresh_token\":");
    reveal_strlit("}");
    let s = enc_rwuser_b(p) + rest;
    let t0 = ",\"settings\":{\"google_calendar_enabled\":"@;
    let t1 = enc_bool(p.settings.google_calendar_enabled);
    let t2 = "},\"access_token\":"@;
    let t3 = enc_string(p.access_token);
    let t4 = ",\"expires_at\":"@;
    let t5 = dec_chars_of(p.expires_at);
    let t6 = ",\"refresh_token\":"@;
    let t7 = enc_string(p.refresh_token);
    let t8 = "}"@;
    let r8 = rest;
    let r7 = t8 + r8;
    let r6 = t7 + r7;
    let r5 = t6 + r6;
    let r4 = t5 + r5;
    let r3 = t4 + r4;
    let r2 = t3 + r3;
    let r1 = t2 + r2;
    let r0 = t1 + r1;
    assert(s =~= t0 + r0);
    let pos0: int = 0;
    let pos1: int = pos0 + t0.len();
    let pos2: int = pos1 + t1.len();
    let pos3: int = pos2 + t2.len();
    let pos4: int = pos3 + t3.len();
    let pos5: int = pos4 + t4.len();
    let pos6: int = pos5 + t5.len();
    let pos7: int = pos6 + t6.len();
    let pos8: int = pos7 + t7.len();
    let pos9: int = pos8 + t8.len();
    assert(s.skip(pos0) == t0 + r0);
    lemma_starts_with_concat(t0, r0);
    assert(parse_lit(s.skip(pos0), ",\"settings\":{\"google_calendar_enabled\":"@) == Some(t0.len() as int));
    lemma_skip_skip(s, pos0, t0.len() as int);
    assert(s.skip(pos1) == r0);
    assert(r1[0] != 'r' && r1[0] != 'a');
    lemma_bool_round_trip(p.settings.google_calendar_enabled, r1);
    lemma_starts_with_concat(t1, r1);
    assert(parse_bool(s.skip(pos1)) == Some((p.settings.google_calendar_enabled, t1.len() as int)));
    lemma_skip_skip(s, pos1, t1.len() as int);
    assert(s.skip(pos2) == r1);
    lemma_starts_with_concat(t2, r2);
    assert(parse_lit(s.skip(pos2), "},\"access_token\":"@) == Some(t2.len() as int));
    lemma_skip_skip(s, pos2, t2.len() as int);
    assert(s.skip(pos3) == r2);
    lemma_string_round_trip(p.access_token, r3);
    lemma_starts_with_concat(t3, r3);
    assert(parse_string(s.skip(pos3)) == Some((p.access_token, t3.len() as int)));
    lemma_skip_skip(s, pos3, t3.len() as int);
    assert(s.skip(pos4) == r3);
    lemma_starts_with_concat(t4, r4);
    assert(parse_lit(s.skip(pos4), ",\"expires_at\":"@) == Some(t4.len() as int));
    lemma_skip_skip(s, pos4, t4.len() as int);
    assert(s.skip(pos5) == r4);
    assert(!is_digit(r5[0]));
    lemma_u64_round_trip(p.expires_at, r5);
    lemma_starts_with_concat(t5, r5);
    assert(parse_u64(s.skip(pos5)) == Some((p.expires_at, t5.len() as int)));
    lemma_skip_skip(s, pos5, t5.len() as int);
    assert(s.skip(pos6) == r5);
    lemma_starts_with_concat(t6, r6);
    assert(parse_lit(s.skip(pos6), ",\"refresh_token\":"@) == Some(t6.len() as int));
    lemma_skip_skip(s, pos6, t6.len() as int);
    assert(s.skip(pos7) == r6);
    lemma_string_round_trip(p.refresh_token, r7);
    lemma_starts_with_concat(t7, r7);
    assert(parse_string(s.skip(pos7)) == Some((p.refresh_token, t7.len() as int)));
    lemma_skip_skip(s, pos7, t7.len() as int);
    assert(s.skip(pos8) == r7);
    lemma_starts_with_concat(t8, r8);
    assert(parse_lit(s.skip(pos8), "}"@) == Some(t8.len() as int));
    assert(parse_rwuser_b_s0(s, pos0) == parse_rwuser_b_s1(s, pos1));
    assert(parse_rwuser_b_s1(s, pos1) == parse_rwuser_b_s2(s, pos2, p.settings.google_calendar_enabled));
    assert(parse_rwuser_b_s2(s, pos2, p.settings.google_calendar_enabled) == parse_rwuser_b_s3(s, pos3, p.settings.google_calendar_enabled));
    assert(parse_rwuser_b_s3(s, pos3, p.settings.google_calendar_enabled) == parse_rwuser_b_s4(s, pos4, p.settings.google_calendar_enabled, p.access_token));
    assert(parse_rwuser_b_s4(s, pos4, p.settings.google_calendar_enabled, p.access_token) == parse_rwuser_b_s5(s, pos5, p.settings.google_calendar_enabled, p.access_token));
    assert(parse_rwuser_b_s5(s, pos5, p.settings.google_calendar_enabled, p.access_token) == parse_rwuser_b_s6(s, pos6, p.settings.google_calendar_enabled, p.access_token, p.expires_at));
    assert(parse_rwuser_b_s6(s, pos6, p.settings.google_calendar_enabled, p.access_token, p.expires_at) == parse_rwuser_b_s7(s, pos7, p.settings.google_calendar_enabled, p.access_token, p.expires_at));
    assert(parse_rwuser_b_s7(s, pos7, p.settings.google_calendar_enabled, p.access_token, p.expires_at) == parse_rwuser_b_s8(s, pos8, p.settings.google_calendar_enabled, p.access_token, p.expires_at, p.refresh_token));
    assert(parse_rwuser_b_s8(s, pos8, p.settings.google_calendar_enabled, p.access_token, p.expires_at, p.refresh_token) == parse_rwuser_b_s9(s, pos9, p.settings.google_calendar_enabled, p.access_token, p.expires_at, p.refresh_token));
    assert(enc_rwuser_b(p).len() as int == pos9);
}

/// Appends the persisted text of the credential half of a persisted account record.
#[verifier::rlimit(100)]
#[verifier::spinoff_prover]
pub fn write_rwuser_b(out: &mut String, p: &RwUser)
    ensures
        final(out)@ == old(out)@ + enc_rwuser_b(p@),
{
    e_lit(out, ",\"settings\":{\"google_calendar_enabled\":");
    e_bool(out, p.settings.google_calendar_enabled);
    e_lit(out, "},\"access_token\":");
    e_string(out, p.access_token.as_str());
    e_lit(out, ",\"expires_at\":");
    e_u64(out, p.expires_at);
    e_lit(out, ",\"refresh_token\":");
    e_string(out, p.refresh_token.as_str());
    e_lit(out, "}");
    proof {
        assert(out@ =~= old(out)@ + enc_rwuser_b(p@));
    }
}

/// Reads the persisted text of the credential half of a persisted account record starting at `pos`.
#[verifier::rlimit(100)]
#[verifier::spinoff_prover]
pub fn read_rwuser_b(cs: &Vec<char>, pos: usize) -> (r: Option<(RwUser, usize)>)
    requires
        pos <= cs@.len(),
    ensures
        r is Some ==> (parse_rwuser_b(cs@.skip(pos as int)) matches Some(q) && r.unwrap().0@ == q.0
            && r.unwrap().1 - pos == q.1 && pos <= r.unwrap().1 <= cs@.len()),
        r is None ==> parse_rwuser_b(cs@.skip(pos as int)) is None,
{
    let ghost s = cs@.skip(pos as int);
    proof { lemma_skip_skip(cs@, pos as int, (pos - pos) as int); }
    let c0: usize = match p_lit(cs, pos, ",\"settings\":{\"google_calendar_enabled\":") {
        Some(x) => x,
        None => { return None; },
    };
    proof { lemma_skip_skip(cs@, pos as int, (c0 - pos) as int); }
    let v1 = match p_bool(cs, c0) {
        Some(x) => x,
        None => { return None; },
    };
    proof { lemma_skip_skip(cs@, pos as int, (v1.1 - pos) as int); }
    let c2: usize = match p_lit(cs, v1.1, "},\"access_token\":") {
        Some(x) => x,
        None => { return None; },
    };
    proof { lemma_skip_skip(cs@, pos as int, (c2 - pos) as int); }
    let v3 = match p_string(cs, c2) {
        Some(x) => x,
        None => { return None; },
    };
    proof { lemma_skip_skip(cs@, pos as int, (v3.1 - pos) as int); }
    let c4: usize = match p_lit(cs, v3.1, ",\"expires_at\":") {
        Some(x) => x,
        None => { return None; },
    };
    proof { lemma_skip_skip(cs@, pos as int, (c4 - pos) as int); }
    let v5 = match p_u64(cs, c4) {
        Some(x) => x,
        None => { return None; },
    };
    proof { lemma_skip_skip(cs@, pos as int, (v5.1 - pos) as int); }
    let c6: usize = match p_lit(cs, v5.1, ",\"refresh_token\":") {
        Some(x) => x,
        None => { return None; },
    };
    proof { lemma_skip_skip(cs@, pos as int, (c6 - pos) as int); }
    let v7 = match p_string(cs, c6) {
        Some(x) => x,
        None => { return None; },
    };
    proof { lemma_skip_skip(cs@, pos as int, (v7.1 - pos) as int); }
    let c8: usize = match p_lit(cs, v7.1, "}") {
        Some(x) => x,
        None => { return None; },
    };
    let built = RwUser { id: String::new(), email: String::new(), verified_email: false, name: String::new(), given_name: String::new(), picture: String::new(), locale: String::new(), settings: Settings { google_calendar_enabled: v1.0 }, access_token: v3.0, expires_at: v5.0, refresh_token: v7.0 };
    proof {
        assert(built@ =~= parse_rwuser_b(s).unwrap().0);
    }
    Some((built, c8))
}

// ---------------------------------------------------------------------------
// Lists of text values, as the webhook registration's cached-id list
// persists them.
// ---------------------------------------------------------------------------
/// The comma-joined items of an encoded text list.
pub open spec fn enc_string_items(es: Seq<Seq<char>>) -> Seq<char>
    decreases es.len(),
{
    if es.len() == 0 {
        Seq::empty()
    } else if es.len() == 1 {
        enc_string(es[0])
    } else {
        enc_string(es[0]) + ","@ + enc_string_items(es.drop_first())
    }
}

/// An encoded text list between brackets.
pub open spec fn enc_string_arr(es: Seq<Seq<char>>) -> Seq<char> {
    "["@ + enc_string_items(es) + "]"@
}

/// Reads one or more comma-separated encoded strings.
pub open spec fn parse_string_items(s: Seq<char>) -> Option<(Seq<Seq<char>>, int)>
    decreases s.len(),
{
    match parse_string(s) {
        None => None,
        Some(e) => if !(0 <= e.1 <= s.len()) {
            None
        } else if starts_with(s.skip(e.1), seq![',']) {
            match parse_string_items(s.skip(e.1 + 1)) {
                None => None,
                Some(es) => Some((seq![e.0] + es.0, e.1 + 1 + es.1)),
            }
        } else {
            Some((seq![e.0], e.1))
        },
    }
}

/// Reads an encoded text list.
pub open spec fn parse_string_arr(s: Seq<char>) -> Option<(Seq<Seq<char>>, int)> {
    if starts_with(s, "[]"@) {
        Some((Seq::empty(), 2))
    } else {
        match parse_lit(s, "["@) {
            None => None,
            Some(n0) => match parse_string_items(s.skip(n0)) {
                None => None,
                Some(es) => match parse_lit(s.skip(n0 + es.1), "]"@) {
                    None => None,
                    Some(n1) => Some((es.0, n0 + es.1 + n1)),
                },
            },
        }
    }
}

proof fn lemma_string_items_round_trip(es: Seq<Seq<char>>, rest: Seq<char>)
    requires
        es.len() > 0,
        rest.len() > 0,
        rest[0] == ']',
    ensures
        parse_string_items(enc_string_items(es) + rest) == Some(
            (es, enc_string_items(es).len() as int),
        ),
    decreases es.len(),
{
    reveal_strlit(",");
    reveal_strlit("]");
    let s = enc_string_items(es) + rest;
    if es.len() == 1 {
        assert(s =~= enc_string(es[0]) + rest);
        lemma_string_round_trip(es[0], rest);
        let l: int = enc_string(es[0]).len() as int;
        lemma_starts_with_concat(enc_string(es[0]), rest);
        assert(s.skip(l) == rest);
        if starts_with(rest, seq![',']) {
            assert(rest.take(1)[0] == ',');
            assert(rest[0] == ',');
        }
        assert(!starts_with(rest, seq![',']));
        assert(seq![es[0]] =~= es);
    } else {
        let tail = ","@ + enc_string_items(es.drop_first()) + rest;
        assert(s =~= enc_string(es[0]) + tail);
        lemma_string_round_trip(es[0], tail);
        let l: int = enc_string(es[0]).len() as int;
        lemma_starts_with_concat(enc_string(es[0]), tail);
        assert(s.skip(l) == tail);
        assert(tail =~= ","@ + (enc_string_items(es.drop_first()) + rest));
        assert(","@ =~= seq![',']);
        lemma_starts_with_concat(seq![','], enc_string_items(es.drop_first()) + rest);
        assert(tail =~= seq![','] + (enc_string_items(es.drop_first()) + rest));
        assert(starts_with(tail, seq![',']));
        lemma_skip_skip(s, l, 1);
        assert(s.skip(l + 1) == tail.skip(1));
        assert(tail.skip(1) =~= enc_string_items(es.drop_first()) + rest);
        lemma_string_items_round_trip(es.drop_first(), rest);
        assert(seq![es[0]] + es.drop_first() =~= es);
        assert(enc_string_items(es).len() == enc_string(es[0]).len() + 1 + enc_string_items(
            es.drop_first(),
        ).len());
    }
}

/// Reading back an encoded text list gives exactly what was written.
pub proof fn lemma_string_arr_round_trip(es: Seq<Seq<char>>, rest: Seq<char>)
    ensures
        parse_string_arr(enc_string_arr(es) + rest) == Some(
            (es, enc_string_arr(es).len() as int),
        ),
{
    reveal_strlit("[");
    reveal_strlit("]");
    reveal_strlit("[]");
    let s = enc_string_arr(es) + rest;
    if es.len() == 0 {
        assert(enc_string_items(es) =~= Seq::<char>::empty());
        assert(s =~= "[]"@ + rest);
        lemma_starts_with_concat("[]"@, rest);
        assert(Seq::<Seq<char>>::empty() =~= es);
    } else {
        let mid = enc_string_items(es) + (seq![']'] + rest);
        assert("]"@ =~= seq![']']);
        assert(s =~= "["@ + mid);
        lemma_starts_with_concat("["@, mid);
        if starts_with(s, "[]"@) {
            assert(s.take(2)[1] == "[]"@[1]);
            assert(s[1] == ']');
            assert(mid[0] == enc_string_items(es)[0]);
            assert(enc_string_items(es)[0] == enc_string(es[0])[0]);
            assert(enc_string(es[0])[0] == '"');
            assert(s[1] == mid[0]);
            assert(false);
        }
        lemma_string_items_round_trip(es, seq![']'] + rest);
        assert(s.skip(1) == mid);
        let li: int = enc_string_items(es).len() as int;
        lemma_skip_skip(s, 1, li);
        lemma_starts_with_concat(enc_string_items(es), seq![']'] + rest);
        assert(s.skip(1 + li) == seq![']'] + rest);
        assert(seq![']'] + rest =~= "]"@ + rest);
        lemma_starts_with_concat("]"@, rest);
    }
}

proof fn lemma_enc_string_items_snoc(es: Seq<Seq<char>>, e: Seq<char>)
    requires
        es.len() > 0,
    ensures
        enc_string_items(es.push(e)) == enc_string_items(es) + ","@ + enc_string(e),
    decreases es.len(),
{
    if es.len() == 1 {
        assert(es.push(e)[0] == es[0]);
        assert(es.push(e).drop_first() =~= seq![e]);
        assert(enc_string_items(seq![e]) == enc_string(e));
        assert(enc_string_items(es.push(e)) == enc_string(es[0]) + ","@ + enc_string_items(
            seq![e],
        ));
        assert(enc_string_items(es) == enc_string(es[0]));
    } else {
        lemma_enc_string_items_snoc(es.drop_first(), e);
        assert(es.push(e)[0] == es[0]);
        assert(es.push(e).drop_first() =~= es.drop_first().push(e));
        assert(enc_string_items(es.push(e)) == enc_string(es[0]) + ","@ + enc_string_items(
            es.drop_first().push(e),
        ));
        assert(enc_string(es[0]) + ","@ + (enc_string_items(es.drop_first()) + ","@
            + enc_string(e)) =~= (enc_string(es[0]) + ","@ + enc_string_items(es.drop_first()))
            + ","@ + enc_string(e));
    }
}

/// Appends an encoded text list.
pub fn write_string_arr(out: &mut String, es: &Vec<String>)
    ensures
        final(out)@ == old(out)@ + enc_string_arr(es.deep_view()),
{
    let ghost ev = es.deep_view();
    e_lit(out, "[");
    let mut i: usize = 0;
    while i < es.len()
        invariant
            ev == es.deep_view(),
            ev.len() == es@.len(),
            i <= es@.len(),
            out@ == old(out)@ + "["@ + enc_string_items(ev.take(i as int)),
        decreases es@.len() - i,
    {
        assert(ev[i as int] == es@[i as int]@);
        if i > 0 {
            e_lit(out, ",");
        }
        e_string(out, es[i].as_str());
        proof {
            if i == 0 {
                assert(ev.take(1) =~= seq![ev[0]]);
                assert(enc_string_items(seq![ev[0]]) == enc_string(ev[0]));
                assert(out@ =~= old(out)@ + "["@ + enc_string_items(ev.take(1)));
            } else {
                assert(ev.take(i as int).len() > 0);
                lemma_enc_string_items_snoc(ev.take(i as int), ev[i as int]);
                assert(ev.take(i as int).push(ev[i as int]) =~= ev.take(i as int + 1));
                assert(out@ =~= old(out)@ + "["@ + enc_string_items(ev.take(i as int + 1)));
            }
        }
        i = i + 1;
    }
    e_lit(out, "]");
    proof {
        assert(ev.take(ev.len() as int) =~= ev);
        assert(out@ =~= old(out)@ + enc_string_arr(ev));
    }
}

/// Reads the items of an encoded text list, appending to `out`.
fn read_string_items(cs: &Vec<char>, pos: usize, out: &mut Vec<String>) -> (r: Option<usize>)
    requires
        pos <= cs@.len(),
    ensures
        r is Some ==> (parse_string_items(cs@.skip(pos as int)) matches Some(q)
            && final(out).deep_view() == old(out).deep_view() + q.0
            && r.unwrap() - pos == q.1 && pos < r.unwrap() <= cs@.len()),
        r is None ==> parse_string_items(cs@.skip(pos as int)) is None,
    decreases cs@.len() - pos,
{
    proof {
        reveal_strlit(",");
    }
    let ghost s = cs@.skip(pos as int);
    let e = match p_string(cs, pos) {
        Some(e) => e,
        None => {
            return None;
        },
    };
    let ghost pre = out.deep_view();
    out.push(e.0);
    proof {
        assert(out.deep_view() =~= pre.push(parse_string(s).unwrap().0));
        lemma_skip_skip(cs@, pos as int, (e.1 - pos) as int);
    }
    if e.1 < cs.len() && cs[e.1] == ',' {
        proof {
            assert(s.skip(e.1 - pos)[0] == cs@[e.1 as int]);
            assert(s.skip(e.1 - pos).take(1) =~= seq![',']);
            assert(starts_with(s.skip(e.1 - pos), seq![',']));
            lemma_skip_skip(cs@, pos as int, (e.1 + 1 - pos) as int);
            assert(s.skip(e.1 - pos).drop_first() =~= s.skip(e.1 + 1 - pos));
        }
        let ghost mid = out.deep_view();
        let end = match read_string_items(cs, e.1 + 1, out) {
            Some(end) => end,
            None => {
                return None;
            },
        };
        proof {
            let q = parse_string_items(cs@.skip(e.1 as int + 1)).unwrap();
            assert(out.deep_view() =~= pre + (seq![parse_string(s).unwrap().0] + q.0));
        }
        Some(end)
    } else {
        proof {
            if e.1 < cs@.len() {
                assert(s.skip(e.1 - pos)[0] == cs@[e.1 as int]);
                if starts_with(s.skip(e.1 - pos), seq![',']) {
                    assert(s.skip(e.1 - pos).take(1)[0] == ',');
                    assert(cs@[e.1 as int] == ',');
                }
            } else {
                assert(s.skip(e.1 - pos).len() == 0);
            }
            assert(!starts_with(s.skip(e.1 - pos), seq![',']));
            assert(out.deep_view() =~= pre + seq![parse_string(s).unwrap().0]);
        }
        Some(e.1)
    }
}

/// Reads an encoded text list.
pub fn read_string_arr(cs: &Vec<char>, pos: usize) -> (r: Option<(Vec<String>, usize)>)
    requires
        pos <= cs@.len(),
    ensures
        r is Some ==> (parse_string_arr(cs@.skip(pos as int)) matches Some(q) && r.unwrap(
        ).0.deep_view() == q.0 && r.unwrap().1 - pos == q.1 && pos < r.unwrap().1 <= cs@.len()),
        r is None ==> parse_string_arr(cs@.skip(pos as int)) is None,
{
    proof {
        reveal_strlit("[");
        reveal_strlit("]");
        reveal_strlit("[]");
    }
    let ghost s = cs@.skip(pos as int);
    match p_lit(cs, pos, "[]") {
        Some(end) => {
            let empty: Vec<String> = Vec::new();
            proof {
                assert(starts_with(s, "[]"@));
                assert(empty.deep_view() =~= Seq::<Seq<char>>::empty());
            }
            return Some((empty, end));
        },
        None => {},
    }
    let n0 = match p_lit(cs, pos, "[") {
        Some(n) => n,
        None => {
            proof {
                if starts_with(s, "[]"@) {
                    assert(s.take(2)[0] == '[');
                    assert(s.take(1) =~= seq!['[']);
                    assert(starts_with(s, "["@));
                }
            }
            return None;
        },
    };
    proof {
        lemma_skip_skip(cs@, pos as int, (n0 - pos) as int);
    }
    let mut items: Vec<String> = Vec::new();
    let mid = match read_string_items(cs, n0, &mut items) {
        Some(m) => m,
        None => {
            proof {
                assert(!starts_with(s, "[]"@));
            }
            return None;
        },
    };
    proof {
        lemma_skip_skip(cs@, pos as int, (mid - pos) as int);
    }
    let end = match p_lit(cs, mid, "]") {
        Some(e) => e,
        None => {
            proof {
                assert(!starts_with(s, "[]"@));
            }
            return None;
        },
    };
    proof {
        assert(!starts_with(s, "[]"@));
        assert(items.deep_view() =~= Seq::<Seq<char>>::empty() + parse_string_items(
            s.skip(n0 - pos),
        ).unwrap().0);
    }
    Some((items, end))
}

/// The persisted text of one webhook registration.
pub open spec fn enc_webhook_rec(p: GoogleWebhookV) -> Seq<char> {
    "{\"uuid\":"@
        + enc_string(p.uuid)
        + ",\"resource_id\":"@
        + enc_string(p.resource_id)
        + ",\"expiry\":"@
        + dec_chars_of(p.expiry)
        + ",\"events\":"@
        + enc_string_arr(p.events)
        + ",\"sync_token\":"@
        + enc_string(p.sync_token)
        + "}"@
}

pub open spec fn parse_webhook_rec_s0(s: Seq<char>, m: int) -> Option<(GoogleWebhookV, int)> {
    match parse_lit(s.skip(m), "{\"uuid\":"@) {
        None => None,
        Some(n) => parse_webhook_rec_s1(s, m + n),
    }
}

pub open spec fn parse_webhook_rec_s1(s: Seq<char>, m: int) -> Option<(GoogleWebhookV, int)> {
    match parse_string(s.skip(m)) {
        None => None,
        Some(v) => parse_webhook_rec_s2(s, m + v.1, v.0),
    }
}

pub open spec fn parse_webhook_rec_s2(s: Seq<char>, m: int, w1: Seq<char>) -> Option<(GoogleWebhookV, int)> {
    match parse_lit(s.skip(m), ",\"resource_id\":"@) {
        None => None,
        Some(n) => parse_webhook_rec_s3(s, m + n, w1),
    }
}

pub open spec fn parse_webhook_rec_s3(s: Seq<char>, m: int, w1: Seq<char>) -> Option<(GoogleWebhookV, int)> {
    match parse_string(s.skip(m)) {
        None => None,
        Some(v) => parse_webhook_rec_s4(s, m + v.1, w1, v.0),
    }
}

pub open spec fn parse_webhook_rec_s4(s: Seq<char>, m: int, w1: Seq<char>, w3: Seq<char>) -> Option<(GoogleWebhookV, int)> {
    match parse_lit(s.skip(m), ",\"expiry\":"@) {
        None => None,
        Some(n) => parse_webhook_rec_s5(s, m + n, w1, w3),
    }
}

pub open spec fn parse_webhook_rec_s5(s: Seq<char>, m: int, w1: Seq<char>, w3: Seq<char>) -> Option<(GoogleWebhookV, int)> {
    match parse_u64(s.skip(m)) {
        None => None,
        Some(v) => parse_webhook_rec_s6(s, m + v.1, w1, w3, v.0),
    }
}

pub open spec fn parse_webhook_rec_s6(s: Seq<char>, m: int, w1: Seq<char>, w3: Seq<char>, w5: u64) -> Option<(GoogleWebhookV, int)> {
    match parse_lit(s.skip(m), ",\"events\":"@) {
        None => None,
        Some(n) => parse_webhook_rec_s7(s, m + n, w1, w3, w5),
    }
}

pub open spec fn parse_webhook_rec_s7(s: Seq<char>, m: int, w1: Seq<char>, w3: Seq<char>, w5: u64) -> Option<(GoogleWebhookV, int)> {
    match parse_string_arr(s.skip(m)) {
        None => None,
        Some(v) => parse_webhook_rec_s8(s, m + v.1, w1, w3, w5, v.0),
    }
}

pub open spec fn parse_webhook_rec_s8(s: Seq<char>, m: int, w1: Seq<char>, w3: Seq<char>, w5: u64, w7: Seq<Seq<char>>) -> Option<(GoogleWebhookV, int)> {
    match parse_lit(s.skip(m), ",\"sync_token\":"@) {
        None => None,
        Some(n) => parse_webhook_rec_s9(s, m + n, w1, w3, w5, w7),
    }
}

pub open spec fn parse_webhook_rec_s9(s: Seq<char>, m: int, w1: Seq<char>, w3: Seq<char>, w5: u64, w7: Seq<Seq<char>>) -> Option<(GoogleWebhookV, int)> {
    match parse_string(s.skip(m)) {
        None => None,
        Some(v) => parse_webhook_rec_s10(s, m + v.1, w1, w3, w5, w7, v.0),
    }
}

pub open spec fn parse_webhook_rec_s10(s: Seq<char>, m: int, w1: Seq<char>, w3: Seq<char>, w5: u64, w7: Seq<Seq<char>>, w9: Seq<char>) -> Option<(GoogleWebhookV, int)> {
    match parse_lit(s.skip(m), "}"@) {
        None => None,
        Some(n) => parse_webhook_rec_s11(s, m + n, w1, w3, w5, w7, w9),
    }
}

pub open spec fn parse_webhook_rec_s11(s: Seq<char>, m: int, w1: Seq<char>, w3: Seq<char>, w5: u64, w7: Seq<Seq<char>>, w9: Seq<char>) -> Option<(GoogleWebhookV, int)> {
    Some((GoogleWebhookV { uuid: w1, resource_id: w3, expiry: w5, events: w7, sync_token: w9 }, m))
}

pub open spec fn parse_webhook_rec(s: Seq<char>) -> Option<(GoogleWebhookV, int)> {
    parse_webhook_rec_s0(s, 0)
}

/// Reading back one webhook registration gives exactly what was written.
#[verifier::rlimit(100)]
#[verifier::spinoff_prover]
pub proof fn lemma_webhook_rec_round_trip(p: GoogleWebhookV, rest: Seq<char>)
    ensures
        parse_webhook_rec(enc_webhook_rec(p) + rest) matches Some(q) && q.0 == (GoogleWebhookV { uuid: p.uuid, resource_id: p.resource_id, expiry: p.expiry, events: p.events, sync_token: p.sync_token }) && q.1 == enc_webhook_rec(p).len() as int,
{
    reveal_strlit("{\"uuid\":");
    reveal_strlit(",\"resource_id\":");
    reveal_strlit(",\"expiry\":");
    reveal_strlit(",\"events\":");
    reveal_strlit(",\"sync_token\":");
    reveal_strlit("}");
    let s = enc_webhook_rec(p) + rest;
    let t0 = "{\"uuid\":"@;
    let t1 = enc_string(p.uuid);
    let t2 = ",\"resource_id\":"@;
    let t3 = enc_string(p.resource_id);
    let t4 = ",\"expiry\":"@;
    let t5 = dec_chars_of(p.expiry);
    let t6 = ",\"events\":"@;
    let t7 = enc_string_arr(p.events);
    let t8 = ",\"sync_token\":"@;
    let t9 = enc_string(p.sync_token);
    let t10 = "}"@;
    let r10 = rest;
    let r9 = t10 + r10;
    let r8 = t9 + r9;
    let r7 = t8 + r8;
    let r6 = t7 + r7;
    let r5 = t6 + r6;
    let r4 = t5 + r5;
    let r3 = t4 + r4;
    let r2 = t3 + r3;
    let r1 = t2 + r2;
    let r0 = t1 + r1;
    assert(s =~= t0 + r0);
    let pos0: int = 0;
    let pos1: int = pos0 + t0.len();
    let pos2: int = pos1 + t1.len();
    let pos3: int = pos2 + t2.len();
    let pos4: int = pos3 + t3.len();
    let pos5: int = pos4 + t4.len();
    let pos6: int = pos5 + t5.len();
    let pos7: int = pos6 + t6.len();
    let pos8: int = pos7 + t7.len();
    let pos9: int = pos8 + t8.len();
    let pos10: int = pos9 + t9.len();
    let pos11: int = pos10 + t10.len();
    assert(s.skip(pos0) == t0 + r0);
    lemma_starts_with_concat(t0, r0);
    assert(parse_lit(s.skip(pos0), "{\"uuid\":"@) == Some(t0.len() as int));
    lemma_skip_skip(s, pos0, t0.len() as int);
    assert(s.skip(pos1) == r0);
    lemma_string_round_trip(p.uuid, r1);
    lemma_starts_with_concat(t1, r1);
    assert(parse_string(s.skip(pos1)) == Some((p.uuid, t1.len() as int)));
    lemma_skip_skip(s, pos1, t1.len() as int);
    assert(s.skip(pos2) == r1);
    lemma_starts_with_concat(t2, r2);
    assert(parse_lit(s.skip(pos2), ",\"resource_id\":"@) == Some(t2.len() as int));
    lemma_skip_skip(s, pos2, t2.len() as int);
    assert(s.skip(pos3) == r2);
    lemma_string_round_trip(p.resource_id, r3);
    lemma_starts_with_concat(t3, r3);
    assert(parse_string(s.skip(pos3)) == Some((p.resource_id, t3.len() as int)));
    lemma_skip_skip(s, pos3, t3.len() as int);
    assert(s.skip(pos4) == r3);
    lemma_starts_with_concat(t4, r4);
    assert(parse_lit(s.skip(pos4), ",\"expiry\":"@) == Some(t4.len() as int));
    lemma_skip_skip(s, pos4, t4.len() as int);
    assert(s.skip(pos5) == r4);
    assert(!is_digit(r5[0]));
    lemma_u64_round_trip(p.expiry, r5);
    lemma_starts_with_concat(t5, r5);
    assert(parse_u64(s.skip(pos5)) == Some((p.expiry, t5.len() as int)));
    lemma_skip_skip(s, pos5, t5.len() as int);
    assert(s.skip(pos6) == r5);
    lemma_starts_with_concat(t6, r6);
    assert(parse_lit(s.skip(pos6), ",\"events\":"@) == Some(t6.len() as int));
    lemma_skip_skip(s, pos6, t6.len() as int);
    assert(s.skip(pos7) == r6);
    lemma_string_arr_round_trip(p.events, r7);
    lemma_starts_with_concat(t7, r7);
    assert(parse_string_arr(s.skip(pos7)) == Some((p.events, t7.len() as int)));
    lemma_skip_skip(s, pos7, t7.len() as int);
    assert(s.skip(pos8) == r7);
    lemma_starts_with_concat(t8, r8);
    assert(parse_lit(s.skip(pos8), ",\"sync_token\":"@) == Some(t8.len() as int));
    lemma_skip_skip(s, pos8, t8.len() as int);
    assert(s.skip(pos9) == r8);
    lemma_string_round_trip(p.sync_token, r9);
    lemma_starts_with_concat(t9, r9);
    assert(parse_string(s.skip(pos9)) == Some((p.sync_token, t9.len() as int)));
    lemma_skip_skip(s, pos9, t9.len() as int);
    assert(s.skip(pos10) == r9);
    lemma_starts_with_concat(t10, r10);
    assert(parse_lit(s.skip(pos10), "}"@) == Some(t10.len() as int));
    assert(parse_webhook_rec_s0(s, pos0) == parse_webhook_rec_s1(s, pos1));
    assert(parse_webhook_rec_s1(s, pos1) == parse_webhook_rec_s2(s, pos2, p.uuid));
    assert(parse_webhook_rec_s2(s, pos2, p.uuid) == parse_webhook_rec_s3(s, pos3, p.uuid));
    assert(parse_webhook_rec_s3(s, pos3, p.uuid) == parse_webhook_rec_s4(s, pos4, p.uuid, p.resource_id));
    assert(parse_webhook_rec_s4(s, pos4, p.uuid, p.resource_id) == parse_webhook_rec_s5(s, pos5, p.uuid, p.resource_id));
    assert(parse_webhook_rec_s5(s, pos5, p.uuid, p.resource_id) == parse_webhook_rec_s6(s, pos6, p.uuid, p.resource_id, p.expiry));
    assert(parse_webhook_rec_s6(s, pos6, p.uuid, p.resource_id, p.expiry) == parse_webhook_rec_s7(s, pos7, p.uuid, p.resource_id, p.expiry));
    assert(parse_webhook_rec_s7(s, pos7, p.uuid, p.resource_id, p.expiry) == parse_webhook_rec_s8(s, pos8, p.uuid, p.resource_id, p.expiry, p.events));
    assert(parse_webhook_rec_s8(s, pos8, p.uuid, p.resource_id, p.expiry, p.events) == parse_webhook_rec_s9(s, pos9, p.uuid, p.resource_id, p.expiry, p.events));
    assert(parse_webhook_rec_s9(s, pos9, p.uuid, p.resource_id, p.expiry, p.events) == parse_webhook_rec_s10(s, pos10, p.uuid, p.resource_id, p.expiry, p.events, p.sync_token));
    assert(parse_webhook_rec_s10(s, pos10, p.uuid, p.resource_id, p.expiry, p.events, p.sync_token) == parse_webhook_rec_s11(s, pos11, p.uuid, p.resource_id, p.expiry, p.events, p.sync_token));
    assert(enc_webhook_rec(p).len() as int == pos11);
}

/// Appends the persisted text of one webhook registration.
#[verifier::rlimit(100)]
#[verifier::spinoff_prover]
pub fn write_webhook_rec(out: &mut String, p: &GoogleWebhook)
    ensures
        final(out)@ == old(out)@ + enc_webhook_rec(p@),
{
    e_lit(out, "{\"uuid\":");
    e_string(out, p.uuid.as_str());
    e_lit(out, ",\"resource_id\":");
    e_string(out, p.resource_id.as_str());
    e_lit(out, ",\"expiry\":");
    e_u64(out, p.expiry);
    e_lit(out, ",\"events\":");
    write_string_arr(out, &p.events);
    e_lit(out, ",\"sync_token\":");
    e_string(out, p.sync_token.as_str());
    e_lit(out, "}");
    proof {
        assert(out@ =~= old(out)@ + enc_webhook_rec(p@));
    }
}

/// Reads the persisted text of one webhook registration starting at `pos`.
#[verifier::rlimit(100)]
#[verifier::spinoff_prover]
pub fn read_webhook_rec(cs: &Vec<char>, pos: usize) -> (r: Option<(GoogleWebhook, usize)>)
    requires
        pos <= cs@.len(),
    ensures
        r is Some ==> (parse_webhook_rec(cs@.skip(pos as int)) matches Some(q) && r.unwrap().0@ == q.0
            && r.unwrap().1 - pos == q.1 && pos <= r.unwrap().1 <= cs@.len()),
        r is None ==> parse_webhook_rec(cs@.skip(pos as int)) is None,
{
    let ghost s = cs@.skip(pos as int);
    proof { lemma_skip_skip(cs@, pos as int, (pos - pos) as int); }
    let c0: usize = match p_lit(cs, pos, "{\"uuid\":") {
        Some(x) => x,
        None => { return None; },
    };
    proof { lemma_skip_skip(cs@, pos as int, (c0 - pos) as int); }
    let v1 = match p_string(cs, c0) {
        Some(x) => x,
        None => { return None; },
    };
    proof { lemma_skip_skip(cs@, pos as int, (v1.1 - pos) as int); }
    let c2: usize = match p_lit(cs, v1.1, ",\"resource_id\":") {
        Some(x) => x,
        None => { return None; },
    };
    proof { lemma_skip_skip(cs@, pos as int, (c2 - pos) as int); }
    let v3 = match p_string(cs, c2) {
        Some(x) => x,
        None => { return None; },
    };
    proof { lemma_skip_skip(cs@, pos as int, (v3.1 - pos) as int); }
    let c4: usize = match p_lit(cs, v3.1, ",\"expiry\":") {
        Some(x) => x,
        None => { return None; },
    };
    proof { lemma_skip_skip(cs@, pos as int, (c4 - pos) as int); }
    let v5 = match p_u64(cs, c4) {
        Some(x) => x,
        None => { return None; },
    };
    proof { lemma_skip_skip(cs@, pos as int, (v5.1 - pos) as int); }
    let c6: usize = match p_lit(cs, v5.1, ",\"events\":") {
        Some(x) => x,
        None => { return None; },
    };
    proof { lemma_skip_skip(cs@, pos as int, (c6 - pos) as int); }
    let v7 = match read_string_arr(cs, c6) {
        Some(x) => x,
        None => { return None; },
    };
    proof { lemma_skip_skip(cs@, pos as int, (v7.1 - pos) as int); }
    let c8: usize = match p_lit(cs, v7.1, ",\"sync_token\":") {
        Some(x) => x,
        None => { return None; },
    };
    proof { lemma_skip_skip(cs@, pos as int, (c8 - pos) as int); }
    let v9 = match p_string(cs, c8) {
        Some(x) => x,
        None => { return None; },
    };
    proof { lemma_skip_skip(cs@, pos as int, (v9.1 - pos) as int); }
    let c10: usize = match p_lit(cs, v9.1, "}") {
        Some(x) => x,
        None => { return None; },
    };
    let built = GoogleWebhook { uuid: v1.0, resource_id: v3.0, expiry: v5.0, events: v7.0, sync_token: v9.0 };
    proof {
        assert(built@ =~= parse_webhook_rec(s).unwrap().0);
    }
    Some((built, c10))
}

// ---------------------------------------------------------------------------
// The whole persisted account record: profile half followed by credential
// half.
// ---------------------------------------------------------------------------
/// The persisted text of an account record.
pub open spec fn enc_rwuser_rec(p: RwUserV) -> Seq<char> {
    enc_rwuser_a(p) + enc_rwuser_b(p)
}

pub open spec fn parse_rwuser_rec(s: Seq<char>) -> Option<(RwUserV, int)> {
    match parse_rwuser_a(s) {
        None => None,
        Some(a) => if !(0 <= a.1 <= s.len()) {
            None
        } else {
            match parse_rwuser_b(s.skip(a.1)) {
                None => None,
                Some(b) => Some(
                    (
                        RwUserV {
                            settings: b.0.settings,
                            access_token: b.0.access_token,
                            expires_at: b.0.expires_at,
                            refresh_token: b.0.refresh_token,
                            ..a.0
                        },
                        a.1 + b.1,
                    ),
                ),
            }
        },
    }
}

/// Reading back an account record gives exactly what was written.
pub proof fn lemma_rwuser_rec_round_trip(p: RwUserV, rest: Seq<char>)
    ensures
        parse_rwuser_rec(enc_rwuser_rec(p) + rest) matches Some(q) && q.0 == p && q.1
            == enc_rwuser_rec(p).len() as int,
{
    let s = enc_rwuser_rec(p) + rest;
    assert(s =~= enc_rwuser_a(p) + (enc_rwuser_b(p) + rest));
    lemma_rwuser_a_round_trip(p, enc_rwuser_b(p) + rest);
    lemma_starts_with_concat(enc_rwuser_a(p), enc_rwuser_b(p) + rest);
    assert(s.skip(enc_rwuser_a(p).len() as int) == enc_rwuser_b(p) + rest);
    lemma_rwuser_b_round_trip(p, rest);
    let q = parse_rwuser_rec(s).unwrap();
    assert(q.0 =~= p);
}

/// Appends the persisted text of an account record.
pub fn write_rwuser_rec(out: &mut String, p: &RwUser)
    ensures
        final(out)@ == old(out)@ + enc_rwuser_rec(p@),
{
    write_rwuser_a(out, p);
    write_rwuser_b(out, p);
    proof {
        assert(out@ =~= old(out)@ + enc_rwuser_rec(p@));
    }
}

/// Reads the persisted text of an account record starting at `pos`.
pub fn read_rwuser_rec(cs: &Vec<char>, pos: usize) -> (r: Option<(RwUser, usize)>)
    requires
        pos <= cs@.len(),
    ensures
        r is Some ==> (parse_rwuser_rec(cs@.skip(pos as int)) matches Some(q) && r.unwrap().0@
            == q.0 && r.unwrap().1 - pos == q.1 && pos <= r.unwrap().1 <= cs@.len()),
        r is None ==> parse_rwuser_rec(cs@.skip(pos as int)) is None,
{
    let ghost s = cs@.skip(pos as int);
    let a = match read_rwuser_a(cs, pos) {
        Some(a) => a,
        None => {
            return None;
        },
    };
    proof {
        lemma_skip_skip(cs@, pos as int, (a.1 - pos) as int);
    }
    let b = match read_rwuser_b(cs, a.1) {
        Some(b) => b,
        None => {
            return None;
        },
    };
    let merged = RwUser {
        settings: b.0.settings,
        access_token: b.0.access_token,
        expires_at: b.0.expires_at,
        refresh_token: b.0.refresh_token,
        id: a.0.id,
        email: a.0.email,
        verified_email: a.0.verified_email,
        name: a.0.name,
        given_name: a.0.given_name,
        picture: a.0.picture,
        locale: a.0.locale,
    };
    proof {
        assert(merged@ =~= parse_rwuser_rec(s).unwrap().0);
    }
    Some((merged, b.1))
}



// ---------------------------------------------------------------------------
// Save and load, as the store's persistence uses them.
// ---------------------------------------------------------------------------
/// Renders a patient for its per-entity file; the identity names the file
/// and is not in the text.
pub fn encode_patient_text(p: &Patient) -> (r: String)
    ensures
        r@ == enc_patient_file(p@),
{
    let mut out = String::new();
    write_patient_file(&mut out, p);
    out
}

/// Loads a patient from its file text, restoring the identity the
/// filename carried. Text that is not exactly one saved record is refused.
pub fn decode_patient_text(s: &str, uuid: String) -> (r: Option<Patient>)
    ensures
        r is Some <==> (parse_patient_file(s@) matches Some(q) && q.1 == s@.len()),
        r is Some ==> (parse_patient_file(s@) matches Some(q) && r.unwrap()@ == (PatientV {
            uuid: uuid@,
            ..q.0
        })),
{
    let cs = chars_of(s);
    proof {
        assert(cs@.skip(0) =~= s@);
    }
    match read_patient_file(&cs, 0) {
        Some(pe) => {
            if pe.1 == cs.len() {
                let mut p = pe.0;
                p.uuid = uuid;
                Some(p)
            } else {
                None
            }
        },
        None => None,
    }
}

/// Renders an account record for the snapshot.
pub fn encode_rwuser_text(p: &RwUser) -> (r: String)
    ensures
        r@ == enc_rwuser_rec(p@),
{
    let mut out = String::new();
    write_rwuser_rec(&mut out, p);
    out
}

/// Loads an account record. Text that is not exactly one saved record is
/// refused.
pub fn decode_rwuser_text(s: &str) -> (r: Option<RwUser>)
    ensures
        r is Some <==> (parse_rwuser_rec(s@) matches Some(q) && q.1 == s@.len()),
        r is Some ==> (parse_rwuser_rec(s@) matches Some(q) && r.unwrap()@ == q.0),
{
    let cs = chars_of(s);
    proof {
        assert(cs@.skip(0) =~= s@);
    }
    match read_rwuser_rec(&cs, 0) {
        Some(pe) => {
            if pe.1 == cs.len() {
                Some(pe.0)
            } else {
                None
            }
        },
        None => None,
    }
}

/// Renders a webhook registration for the snapshot.
pub fn encode_webhook_text(p: &GoogleWebhook) -> (r: String)
    ensures
        r@ == enc_webhook_rec(p@),
{
    let mut out = String::new();
    write_webhook_rec(&mut out, p);
    out
}

/// Loads a webhook registration. Text that is not exactly one saved record
/// is refused.
pub fn decode_webhook_text(s: &str) -> (r: Option<GoogleWebhook>)
    ensures
        r is Some <==> (parse_webhook_rec(s@) matches Some(q) && q.1 == s@.len()),
        r is Some ==> (parse_webhook_rec(s@) matches Some(q) && r.unwrap()@ == q.0),
{
    let cs = chars_of(s);
    proof {
        assert(cs@.skip(0) =~= s@);
    }
    match read_webhook_rec(&cs, 0) {
        Some(pe) => {
            if pe.1 == cs.len() {
                Some(pe.0)
            } else {
                None
            }
        },
        None => None,
    }
}

/// A saved patient file loads back as the patient that was saved, the
/// identity coming from the filename again: persistence round-trips.
pub proof fn lemma_patient_save_load(p: PatientV)
    ensures
        parse_patient_file(enc_patient_file(p)) matches Some(q) && q.0 == (PatientV {
            uuid: Seq::empty(),
            ..p
        }) && q.1 == enc_patient_file(p).len() as int,
{
    lemma_patient_file_round_trip(p, Seq::empty());
    assert(enc_patient_file(p) + Seq::empty() =~= enc_patient_file(p));
}

/// A saved account record loads back as the account that was saved:
/// persistence round-trips.
pub proof fn lemma_rwuser_save_load(p: RwUserV)
    ensures
        parse_rwuser_rec(enc_rwuser_rec(p)) matches Some(q) && q.0 == p && q.1 == enc_rwuser_rec(
            p,
        ).len() as int,
{
    lemma_rwuser_rec_round_trip(p, Seq::empty());
    assert(enc_rwuser_rec(p) + Seq::empty() =~= enc_rwuser_rec(p));
}

/// A saved webhook registration loads back as the registration that was
/// saved: persistence round-trips.
pub proof fn lemma_webhook_save_load(p: GoogleWebhookV)
    ensures
        parse_webhook_rec(enc_webhook_rec(p)) matches Some(q) && q.0 == p && q.1
            == enc_webhook_rec(p).len() as int,
{
    lemma_webhook_rec_round_trip(p, Seq::empty());
    assert(enc_webhook_rec(p) + Seq::empty() =~= enc_webhook_rec(p));
}

/// A saved emotion entry loads back as the entry that was saved.
pub proof fn lemma_emotion_save_load(p: EmotionV)
    ensures
        parse_emotion_rec(enc_emotion_rec(p)) matches Some(q) && q.0 == p && q.1
            == enc_emotion_rec(p).len() as int,
{
    lemma_emotion_rec_round_trip(p, Seq::empty());
    assert(enc_emotion_rec(p) + Seq::empty() =~= enc_emotion_rec(p));
}

/// A saved cached event loads back as the event that was saved.
pub proof fn lemma_remote_event_save_load(p: RemoteEventV)
    ensures
        parse_remote_event_rec(enc_remote_event_rec(p)) matches Some(q) && q.0 == p && q.1
            == enc_remote_event_rec(p).len() as int,
{
    lemma_remote_event_rec_round_trip(p, Seq::empty());
    assert(enc_remote_event_rec(p) + Seq::empty() =~= enc_remote_event_rec(p));
}


// ---------------------------------------------------------------------------
// Lists of emotion entries, as a session file persists them.
// ---------------------------------------------------------------------------
#[verifier::rlimit(100)]
#[verifier::spinoff_prover]
proof fn lemma_emotion_item_rt(v: EmotionV, rest: Seq<char>)
    ensures
        parse_emotion_rec(enc_emotion_rec(v) + rest) == Some(
            (v, enc_emotion_rec(v).len() as int),
        ),
{
    lemma_emotion_rec_round_trip(v, rest);
    let q = parse_emotion_rec(enc_emotion_rec(v) + rest).unwrap();
    assert(q.0 =~= v);
}

/// The comma-joined items of an encoded emotion list.
pub open spec fn enc_emotion_items(es: Seq<EmotionV>) -> Seq<char>
    decreases es.len(),
{
    if es.len() == 0 {
        Seq::empty()
    } else if es.len() == 1 {
        enc_emotion_rec(es[0])
    } else {
        enc_emotion_rec(es[0]) + ","@ + enc_emotion_items(es.drop_first())
    }
}

/// An encoded text list between brackets.
pub open spec fn enc_emotion_arr(es: Seq<EmotionV>) -> Seq<char> {
    "["@ + enc_emotion_items(es) + "]"@
}

/// Reads one or more comma-separated encoded strings.
pub open spec fn parse_emotion_items(s: Seq<char>) -> Option<(Seq<EmotionV>, int)>
    decreases s.len(),
{
    match parse_emotion_rec(s) {
        None => None,
        Some(e) => if !(0 <= e.1 <= s.len()) {
            None
        } else if starts_with(s.skip(e.1), seq![',']) {
            match parse_emotion_items(s.skip(e.1 + 1)) {
                None => None,
                Some(es) => Some((seq![e.0] + es.0, e.1 + 1 + es.1)),
            }
        } else {
            Some((seq![e.0], e.1))
        },
    }
}

/// Reads an encoded text list.
pub open spec fn parse_emotion_arr(s: Seq<char>) -> Option<(Seq<EmotionV>, int)> {
    if starts_with(s, "[]"@) {
        Some((Seq::empty(), 2))
    } else {
        match parse_lit(s, "["@) {
            None => None,
            Some(n0) => match parse_emotion_items(s.skip(n0)) {
                None => None,
                Some(es) => match parse_lit(s.skip(n0 + es.1), "]"@) {
                    None => None,
                    Some(n1) => Some((es.0, n0 + es.1 + n1)),
                },
            },
        }
    }
}

#[verifier::rlimit(100)]
#[verifier::spinoff_prover]
proof fn lemma_emotion_items_round_trip(es: Seq<EmotionV>, rest: Seq<char>)
    requires
        es.len() > 0,
        rest.len() > 0,
        rest[0] == ']',
    ensures
        parse_emotion_items(enc_emotion_items(es) + rest) == Some(
            (es, enc_emotion_items(es).len() as int),
        ),
    decreases es.len(),
{
    reveal_strlit(",");
    reveal_strlit("]");
    let s = enc_emotion_items(es) + rest;
    if es.len() == 1 {
        assert(s =~= enc_emotion_rec(es[0]) + rest);
        lemma_emotion_item_rt(es[0], rest);
        let l: int = enc_emotion_rec(es[0]).len() as int;
        lemma_starts_with_concat(enc_emotion_rec(es[0]), rest);
        assert(s.skip(l) == rest);
        if starts_with(rest, seq![',']) {
            assert(rest.take(1)[0] == ',');
            assert(rest[0] == ',');
        }
        assert(!starts_with(rest, seq![',']));
        assert(seq![es[0]] =~= es);
    } else {
        let tail = ","@ + enc_emotion_items(es.drop_first()) + rest;
        assert(s =~= enc_emotion_rec(es[0]) + tail);
        lemma_emotion_item_rt(es[0], tail);
        let l: int = enc_emotion_rec(es[0]).len() as int;
        lemma_starts_with_concat(enc_emotion_rec(es[0]), tail);
        assert(s.skip(l) == tail);
        assert(tail =~= ","@ + (enc_emotion_items(es.drop_first()) + rest));
        assert(","@ =~= seq![',']);
        lemma_starts_with_concat(seq![','], enc_emotion_items(es.drop_first()) + rest);
        assert(tail =~= seq![','] + (enc_emotion_items(es.drop_first()) + rest));
        assert(starts_with(tail, seq![',']));
        lemma_skip_skip(s, l, 1);
        assert(s.skip(l + 1) == tail.skip(1));
        assert(tail.skip(1) =~= enc_emotion_items(es.drop_first()) + rest);
        lemma_emotion_items_round_trip(es.drop_first(), rest);
        assert(seq![es[0]] + es.drop_first() =~= es);
        assert(enc_emotion_items(es).len() == enc_emotion_rec(es[0]).len() + 1 + enc_emotion_items(
            es.drop_first(),
        ).len());
    }
}

/// Reading back an encoded text list gives exactly what was written.
#[verifier::rlimit(100)]
#[verifier::spinoff_prover]
pub proof fn lemma_emotion_arr_round_trip(es: Seq<EmotionV>, rest: Seq<char>)
    ensures
        parse_emotion_arr(enc_emotion_arr(es) + rest) == Some(
            (es, enc_emotion_arr(es).len() as int),
        ),
{
    reveal_strlit("[");
    reveal_strlit("]");
    reveal_strlit("[]");
    let s = enc_emotion_arr(es) + rest;
    if es.len() == 0 {
        assert(enc_emotion_items(es) =~= Seq::<char>::empty());
        assert(s =~= "[]"@ + rest);
        lemma_starts_with_concat("[]"@, rest);
        assert(Seq::<EmotionV>::empty() =~= es);
    } else {
        let mid = enc_emotion_items(es) + (seq![']'] + rest);
        assert("]"@ =~= seq![']']);
        assert(s =~= "["@ + mid);
        lemma_starts_with_concat("["@, mid);
        if starts_with(s, "[]"@) {
            assert(s.take(2)[1] == "[]"@[1]);
            assert(s[1] == ']');
            assert(mid[0] == enc_emotion_items(es)[0]);
            assert(enc_emotion_items(es)[0] == enc_emotion_rec(es[0])[0]);
            reveal_strlit("{\"uuid\":");
            assert(enc_emotion_rec(es[0])[0] == '{');
            assert(s[1] == mid[0]);
            assert(false);
        }
        lemma_emotion_items_round_trip(es, seq![']'] + rest);
        assert(s.skip(1) == mid);
        let li: int = enc_emotion_items(es).len() as int;
        lemma_skip_skip(s, 1, li);
        lemma_starts_with_concat(enc_emotion_items(es), seq![']'] + rest);
        assert(s.skip(1 + li) == seq![']'] + rest);
        assert(seq![']'] + rest =~= "]"@ + rest);
        lemma_starts_with_concat("]"@, rest);
    }
}

#[verifier::rlimit(100)]
#[verifier::spinoff_prover]
proof fn lemma_enc_emotion_items_snoc(es: Seq<EmotionV>, e: EmotionV)
    requires
        es.len() > 0,
    ensures
        enc_emotion_items(es.push(e)) == enc_emotion_items(es) + ","@ + enc_emotion_rec(e),
    decreases es.len(),
{
    if es.len() == 1 {
        assert(es.push(e)[0] == es[0]);
        assert(es.push(e).drop_first() =~= seq![e]);
        assert(enc_emotion_items(seq![e]) == enc_emotion_rec(e));
        assert(enc_emotion_items(es.push(e)) == enc_emotion_rec(es[0]) + ","@ + enc_emotion_items(
            seq![e],
        ));
        assert(enc_emotion_items(es) == enc_emotion_rec(es[0]));
    } else {
        lemma_enc_emotion_items_snoc(es.drop_first(), e);
        assert(es.push(e)[0] == es[0]);
        assert(es.push(e).drop_first() =~= es.drop_first().push(e));
        assert(enc_emotion_items(es.push(e)) == enc_emotion_rec(es[0]) + ","@ + enc_emotion_items(
            es.drop_first().push(e),
        ));
        assert(enc_emotion_rec(es[0]) + ","@ + (enc_emotion_items(es.drop_first()) + ","@
            + enc_emotion_rec(e)) =~= (enc_emotion_rec(es[0]) + ","@ + enc_emotion_items(es.drop_first()))
            + ","@ + enc_emotion_rec(e));
    }
}

/// Appends an encoded text list.
pub fn write_emotion_arr(out: &mut String, es: &Vec<Emotion>)
    ensures
        final(out)@ == old(out)@ + enc_emotion_arr(es.deep_view()),
{
    let ghost ev = es.deep_view();
    e_lit(out, "[");
    let mut i: usize = 0;
    while i < es.len()
        invariant
            ev == es.deep_view(),
            ev.len() == es@.len(),
            i <= es@.len(),
            out@ == old(out)@ + "["@ + enc_emotion_items(ev.take(i as int)),
        decreases es@.len() - i,
    {
        assert(ev[i as int] == es@[i as int]@);
        if i > 0 {
            e_lit(out, ",");
        }
        write_emotion_rec(out, &es[i]);
        proof {
            if i == 0 {
                assert(ev.take(1) =~= seq![ev[0]]);
                assert(enc_emotion_items(seq![ev[0]]) == enc_emotion_rec(ev[0]));
                assert(out@ =~= old(out)@ + "["@ + enc_emotion_items(ev.take(1)));
            } else {
                assert(ev.take(i as int).len() > 0);
                lemma_enc_emotion_items_snoc(ev.take(i as int), ev[i as int]);
                assert(ev.take(i as int).push(ev[i as int]) =~= ev.take(i as int + 1));
                assert(out@ =~= old(out)@ + "["@ + enc_emotion_items(ev.take(i as int + 1)));
            }
        }
        i = i + 1;
    }
    e_lit(out, "]");
    proof {
        assert(ev.take(ev.len() as int) =~= ev);
        assert(out@ =~= old(out)@ + enc_emotion_arr(ev));
    }
}

/// Reads the items of an encoded text list, appending to `out`.
fn read_emotion_items(cs: &Vec<char>, pos: usize, out: &mut Vec<Emotion>) -> (r: Option<usize>)
    requires
        pos <= cs@.len(),
    ensures
        r is Some ==> (parse_emotion_items(cs@.skip(pos as int)) matches Some(q)
            && final(out).deep_view() == old(out).deep_view() + q.0
            && r.unwrap() - pos == q.1 && pos <= r.unwrap() <= cs@.len()),
        r is None ==> parse_emotion_items(cs@.skip(pos as int)) is None,
    decreases cs@.len() - pos,
{
    proof {
        reveal_strlit(",");
    }
    let ghost s = cs@.skip(pos as int);
    let e = match read_emotion_rec(cs, pos) {
        Some(e) => e,
        None => {
            return None;
        },
    };
    let ghost pre = out.deep_view();
    out.push(e.0);
    proof {
        assert(out.deep_view() =~= pre.push(parse_emotion_rec(s).unwrap().0));
        lemma_skip_skip(cs@, pos as int, (e.1 - pos) as int);
    }
    if e.1 < cs.len() && cs[e.1] == ',' {
        proof {
            assert(s.skip(e.1 - pos)[0] == cs@[e.1 as int]);
            assert(s.skip(e.1 - pos).take(1) =~= seq![',']);
            assert(starts_with(s.skip(e.1 - pos), seq![',']));
            lemma_skip_skip(cs@, pos as int, (e.1 + 1 - pos) as int);
            assert(s.skip(e.1 - pos).drop_first() =~= s.skip(e.1 + 1 - pos));
        }
        let ghost mid = out.deep_view();
        let end = match read_emotion_items(cs, e.1 + 1, out) {
            Some(end) => end,
            None => {
                return None;
            },
        };
        proof {
            let q = parse_emotion_items(cs@.skip(e.1 as int + 1)).unwrap();
            assert(out.deep_view() =~= pre + (seq![parse_emotion_rec(s).unwrap().0] + q.0));
        }
        Some(end)
    } else {
        proof {
            if e.1 < cs@.len() {
                assert(s.skip(e.1 - pos)[0] == cs@[e.1 as int]);
                if starts_with(s.skip(e.1 - pos), seq![',']) {
                    assert(s.skip(e.1 - pos).take(1)[0] == ',');
                    assert(cs@[e.1 as int] == ',');
                }
            } else {
                assert(s.skip(e.1 - pos).len() == 0);
            }
            assert(!starts_with(s.skip(e.1 - pos), seq![',']));
            assert(out.deep_view() =~= pre + seq![parse_emotion_rec(s).unwrap().0]);
        }
        Some(e.1)
    }
}

/// Reads an encoded text list.
pub fn read_emotion_arr(cs: &Vec<char>, pos: usize) -> (r: Option<(Vec<Emotion>, usize)>)
    requires
        pos <= cs@.len(),
    ensures
        r is Some ==> (parse_emotion_arr(cs@.skip(pos as int)) matches Some(q) && r.unwrap(
        ).0.deep_view() == q.0 && r.unwrap().1 - pos == q.1 && pos <= r.unwrap().1 <= cs@.len()),
        r is None ==> parse_emotion_arr(cs@.skip(pos as int)) is None,
{
    proof {
        reveal_strlit("[");
        reveal_strlit("]");
        reveal_strlit("[]");
    }
    let ghost s = cs@.skip(pos as int);
    match p_lit(cs, pos, "[]") {
        Some(end) => {
            let empty: Vec<Emotion> = Vec::new();
            proof {
                assert(starts_with(s, "[]"@));
                assert(empty.deep_view() =~= Seq::<EmotionV>::empty());
            }
            return Some((empty, end));
        },
        None => {},
    }
    let n0 = match p_lit(cs, pos, "[") {
        Some(n) => n,
        None => {
            proof {
                if starts_with(s, "[]"@) {
                    assert(s.take(2)[0] == '[');
                    assert(s.take(1) =~= seq!['[']);
                    assert(starts_with(s, "["@));
                }
            }
            return None;
        },
    };
    proof {
        lemma_skip_skip(cs@, pos as int, (n0 - pos) as int);
    }
    let mut items: Vec<Emotion> = Vec::new();
    let mid = match read_emotion_items(cs, n0, &mut items) {
        Some(m) => m,
        None => {
            proof {
                assert(!starts_with(s, "[]"@));
            }
            return None;
        },
    };
    proof {
        lemma_skip_skip(cs@, pos as int, (mid - pos) as int);
    }
    let end = match p_lit(cs, mid, "]") {
        Some(e) => e,
        None => {
            proof {
                assert(!starts_with(s, "[]"@));
            }
            return None;
        },
    };
    proof {
        assert(!starts_with(s, "[]"@));
        assert(items.deep_view() =~= Seq::<EmotionV>::empty() + parse_emotion_items(
            s.skip(n0 - pos),
        ).unwrap().0);
    }
    Some((items, end))
}

// ---------------------------------------------------------------------------
// One mirrored-entry pair (account email, calendar entry id), as a session
// file persists its linkage.
// ---------------------------------------------------------------------------
pub open spec fn enc_pair(p: (Seq<char>, Seq<char>)) -> Seq<char> {
    "["@ + enc_string(p.0) + ","@ + enc_string(p.1) + "]"@
}

pub open spec fn parse_pair(s: Seq<char>) -> Option<((Seq<char>, Seq<char>), int)> {
    match parse_lit(s, "["@) {
        None => None,
        Some(n0) => match parse_string(s.skip(n0)) {
            None => None,
            Some(k) => match parse_lit(s.skip(n0 + k.1), ","@) {
                None => None,
                Some(n1) => match parse_string(s.skip(n0 + k.1 + n1)) {
                    None => None,
                    Some(v) => match parse_lit(s.skip(n0 + k.1 + n1 + v.1), "]"@) {
                        None => None,
                        Some(n2) => Some(((k.0, v.0), n0 + k.1 + n1 + v.1 + n2)),
                    },
                },
            },
        },
    }
}

#[verifier::rlimit(100)]
#[verifier::spinoff_prover]
proof fn lemma_pair_item_rt(v: (Seq<char>, Seq<char>), rest: Seq<char>)
    ensures
        parse_pair(enc_pair(v) + rest) == Some((v, enc_pair(v).len() as int)),
{
    reveal_strlit("[");
    reveal_strlit(",");
    reveal_strlit("]");
    let s = enc_pair(v) + rest;
    let t0 = "["@;
    let t1 = enc_string(v.0);
    let t2 = ","@;
    let t3 = enc_string(v.1);
    let t4 = "]"@;
    let r4 = rest;
    let r3 = t4 + r4;
    let r2 = t3 + r3;
    let r1 = t2 + r2;
    let r0 = t1 + r1;
    assert(s =~= t0 + r0);
    let pos0: int = 0;
    let pos1: int = pos0 + t0.len();
    let pos2: int = pos1 + t1.len();
    let pos3: int = pos2 + t2.len();
    let pos4: int = pos3 + t3.len();
    let pos5: int = pos4 + t4.len();
    assert(s.skip(pos0) == t0 + r0);
    lemma_starts_with_concat(t0, r0);
    lemma_skip_skip(s, pos0, t0.len() as int);
    assert(s.skip(pos1) == r0);
    lemma_string_round_trip(v.0, r1);
    lemma_starts_with_concat(t1, r1);
    lemma_skip_skip(s, pos1, t1.len() as int);
    assert(s.skip(pos2) == r1);
    lemma_starts_with_concat(t2, r2);
    lemma_skip_skip(s, pos2, t2.len() as int);
    assert(s.skip(pos3) == r2);
    lemma_string_round_trip(v.1, r3);
    lemma_starts_with_concat(t3, r3);
    lemma_skip_skip(s, pos3, t3.len() as int);
    assert(s.skip(pos4) == r3);
    lemma_starts_with_concat(t4, r4);
    assert(enc_pair(v).len() as int == pos5);
    assert(parse_pair(s) matches Some(q) && q.0 == v && q.1 == pos5);
}

/// Appends one mirrored-entry pair.
pub fn write_pair(out: &mut String, p: &(String, String))
    ensures
        final(out)@ == old(out)@ + enc_pair(p.deep_view()),
{
    e_lit(out, "[");
    e_string(out, p.0.as_str());
    e_lit(out, ",");
    e_string(out, p.1.as_str());
    e_lit(out, "]");
    proof {
        assert(out@ =~= old(out)@ + enc_pair(p.deep_view()));
    }
}

/// Reads one mirrored-entry pair starting at `pos`.
pub fn read_pair(cs: &Vec<char>, pos: usize) -> (r: Option<((String, String), usize)>)
    requires
        pos <= cs@.len(),
    ensures
        r is Some ==> (parse_pair(cs@.skip(pos as int)) matches Some(q) && r.unwrap(
        ).0.deep_view() == q.0 && r.unwrap().1 - pos == q.1 && pos <= r.unwrap().1 <= cs@.len()),
        r is None ==> parse_pair(cs@.skip(pos as int)) is None,
{
    let ghost s = cs@.skip(pos as int);
    let n0 = match p_lit(cs, pos, "[") {
        Some(x) => x,
        None => {
            return None;
        },
    };
    proof {
        lemma_skip_skip(cs@, pos as int, (n0 - pos) as int);
    }
    let k = match p_string(cs, n0) {
        Some(x) => x,
        None => {
            return None;
        },
    };
    proof {
        lemma_skip_skip(cs@, pos as int, (k.1 - pos) as int);
    }
    let n1 = match p_lit(cs, k.1, ",") {
        Some(x) => x,
        None => {
            return None;
        },
    };
    proof {
        lemma_skip_skip(cs@, pos as int, (n1 - pos) as int);
    }
    let v = match p_string(cs, n1) {
        Some(x) => x,
        None => {
            return None;
        },
    };
    proof {
        lemma_skip_skip(cs@, pos as int, (v.1 - pos) as int);
    }
    let n2 = match p_lit(cs, v.1, "]") {
        Some(x) => x,
        None => {
            return None;
        },
    };
    let built = (k.0, v.0);
    proof {
        assert(built.deep_view() =~= parse_pair(s).unwrap().0);
    }
    Some((built, n2))
}

// ---------------------------------------------------------------------------
// One timeline entry: the instant, the tag's group, and the tag's text.
// ---------------------------------------------------------------------------
/// The group a timeline tag persists under.
pub open spec fn tag_code(t: TimelineEventV) -> u64 {
    match t {
        TimelineEventV::SessionStart => 0,
        TimelineEventV::SessionEnd => 1,
        TimelineEventV::EmotionAdded(s) => 2,
        TimelineEventV::EmotionRemoved(s) => 3,
    }
}

/// The text a timeline tag carries; empty for the bare markers.
pub open spec fn tag_payload(t: TimelineEventV) -> Seq<char> {
    match t {
        TimelineEventV::SessionStart => Seq::empty(),
        TimelineEventV::SessionEnd => Seq::empty(),
        TimelineEventV::EmotionAdded(s) => s,
        TimelineEventV::EmotionRemoved(s) => s,
    }
}

/// The tag a persisted group and text stand for.
pub open spec fn tag_of(code: u64, payload: Seq<char>) -> TimelineEventV {
    if code == 0 {
        TimelineEventV::SessionStart
    } else if code == 1 {
        TimelineEventV::SessionEnd
    } else if code == 2 {
        TimelineEventV::EmotionAdded(payload)
    } else {
        TimelineEventV::EmotionRemoved(payload)
    }
}

pub open spec fn enc_tl(p: (u64, TimelineEventV)) -> Seq<char> {
    "["@ + dec_chars_of(p.0) + ","@ + dec_chars_of(tag_code(p.1)) + ","@ + enc_string(
        tag_payload(p.1),
    ) + "]"@
}

pub open spec fn parse_tl(s: Seq<char>) -> Option<((u64, TimelineEventV), int)> {
    match parse_lit(s, "["@) {
        None => None,
        Some(n0) => match parse_u64(s.skip(n0)) {
            None => None,
            Some(ts) => match parse_lit(s.skip(n0 + ts.1), ","@) {
                None => None,
                Some(n1) => match parse_u64(s.skip(n0 + ts.1 + n1)) {
                    None => None,
                    Some(code) => if code.0 > 3 {
                        None
                    } else {
                        match parse_lit(s.skip(n0 + ts.1 + n1 + code.1), ","@) {
                            None => None,
                            Some(n2) => match parse_string(s.skip(n0 + ts.1 + n1 + code.1 + n2)) {
                                None => None,
                                Some(pl) => match parse_lit(
                                    s.skip(n0 + ts.1 + n1 + code.1 + n2 + pl.1),
                                    "]"@,
                                ) {
                                    None => None,
                                    Some(n3) => Some(
                                        (
                                            (ts.0, tag_of(code.0, pl.0)),
                                            n0 + ts.1 + n1 + code.1 + n2 + pl.1 + n3,
                                        ),
                                    ),
                                },
                            },
                        }
                    },
                },
            },
        },
    }
}

#[verifier::rlimit(100)]
#[verifier::spinoff_prover]
proof fn lemma_tl_item_rt(v: (u64, TimelineEventV), rest: Seq<char>)
    ensures
        parse_tl(enc_tl(v) + rest) == Some((v, enc_tl(v).len() as int)),
{
    reveal_strlit("[");
    reveal_strlit(",");
    reveal_strlit("]");
    let s = enc_tl(v) + rest;
    let t0 = "["@;
    let t1 = dec_chars_of(v.0);
    let t2 = ","@;
    let t3 = dec_chars_of(tag_code(v.1));
    let t4 = ","@;
    let t5 = enc_string(tag_payload(v.1));
    let t6 = "]"@;
    let r6 = rest;
    let r5 = t6 + r6;
    let r4 = t5 + r5;
    let r3 = t4 + r4;
    let r2 = t3 + r3;
    let r1 = t2 + r2;
    let r0 = t1 + r1;
    assert(s =~= t0 + r0);
    let pos0: int = 0;
    let pos1: int = pos0 + t0.len();
    let pos2: int = pos1 + t1.len();
    let pos3: int = pos2 + t2.len();
    let pos4: int = pos3 + t3.len();
    let pos5: int = pos4 + t4.len();
    let pos6: int = pos5 + t5.len();
    let pos7: int = pos6 + t6.len();
    assert(s.skip(pos0) == t0 + r0);
    lemma_starts_with_concat(t0, r0);
    lemma_skip_skip(s, pos0, t0.len() as int);
    assert(s.skip(pos1) == r0);
    assert(r1[0] == ',');
    assert(!is_digit(r1[0]));
    lemma_u64_round_trip(v.0, r1);
    lemma_starts_with_concat(t1, r1);
    lemma_skip_skip(s, pos1, t1.len() as int);
    assert(s.skip(pos2) == r1);
    lemma_starts_with_concat(t2, r2);
    lemma_skip_skip(s, pos2, t2.len() as int);
    assert(s.skip(pos3) == r2);
    assert(r3[0] == ',');
    assert(!is_digit(r3[0]));
    lemma_u64_round_trip(tag_code(v.1), r3);
    lemma_starts_with_concat(t3, r3);
    lemma_skip_skip(s, pos3, t3.len() as int);
    assert(s.skip(pos4) == r3);
    assert(tag_code(v.1) <= 3);
    lemma_starts_with_concat(t4, r4);
    lemma_skip_skip(s, pos4, t4.len() as int);
    assert(s.skip(pos5) == r4);
    lemma_string_round_trip(tag_payload(v.1), r5);
    lemma_starts_with_concat(t5, r5);
    lemma_skip_skip(s, pos5, t5.len() as int);
    assert(s.skip(pos6) == r5);
    lemma_starts_with_concat(t6, r6);
    assert(enc_tl(v).len() as int == pos7);
    assert(tag_of(tag_code(v.1), tag_payload(v.1)) == v.1);
    assert(parse_tl(s) matches Some(q) && q.0 == v && q.1 == pos7);
}

/// Appends one timeline entry.
pub fn write_tl(out: &mut String, p: &(u64, TimelineEvent))
    ensures
        final(out)@ == old(out)@ + enc_tl(p.deep_view()),
{
    e_lit(out, "[");
    e_u64(out, p.0);
    e_lit(out, ",");
    let (code, payload): (u64, &str) = match &p.1 {
        TimelineEvent::SessionStart => (0, ""),
        TimelineEvent::SessionEnd => (1, ""),
        TimelineEvent::EmotionAdded(s) => (2, s.as_str()),
        TimelineEvent::EmotionRemoved(s) => (3, s.as_str()),
    };
    proof {
        reveal_strlit("");
        assert(code == tag_code(p.1@));
        assert(payload@ == tag_payload(p.1@));
    }
    e_u64(out, code);
    e_lit(out, ",");
    e_string(out, payload);
    e_lit(out, "]");
    proof {
        assert(out@ =~= old(out)@ + enc_tl(p.deep_view()));
    }
}

/// Reads one timeline entry starting at `pos`.
pub fn read_tl(cs: &Vec<char>, pos: usize) -> (r: Option<((u64, TimelineEvent), usize)>)
    requires
        pos <= cs@.len(),
    ensures
        r is Some ==> (parse_tl(cs@.skip(pos as int)) matches Some(q) && r.unwrap().0.deep_view()
            == q.0 && r.unwrap().1 - pos == q.1 && pos <= r.unwrap().1 <= cs@.len()),
        r is None ==> parse_tl(cs@.skip(pos as int)) is None,
{
    let ghost s = cs@.skip(pos as int);
    let n0 = match p_lit(cs, pos, "[") {
        Some(x) => x,
        None => {
            return None;
        },
    };
    proof {
        lemma_skip_skip(cs@, pos as int, (n0 - pos) as int);
    }
    let ts = match p_u64(cs, n0) {
        Some(x) => x,
        None => {
            return None;
        },
    };
    proof {
        lemma_skip_skip(cs@, pos as int, (ts.1 - pos) as int);
    }
    let n1 = match p_lit(cs, ts.1, ",") {
        Some(x) => x,
        None => {
            return None;
        },
    };
    proof {
        lemma_skip_skip(cs@, pos as int, (n1 - pos) as int);
    }
    let code = match p_u64(cs, n1) {
        Some(x) => x,
        None => {
            return None;
        },
    };
    if code.0 > 3 {
        return None;
    }
    proof {
        lemma_skip_skip(cs@, pos as int, (code.1 - pos) as int);
    }
    let n2 = match p_lit(cs, code.1, ",") {
        Some(x) => x,
        None => {
            return None;
        },
    };
    proof {
        lemma_skip_skip(cs@, pos as int, (n2 - pos) as int);
    }
    let pl = match p_string(cs, n2) {
        Some(x) => x,
        None => {
            return None;
        },
    };
    proof {
        lemma_skip_skip(cs@, pos as int, (pl.1 - pos) as int);
    }
    let n3 = match p_lit(cs, pl.1, "]") {
        Some(x) => x,
        None => {
            return None;
        },
    };
    let tag = if code.0 == 0 {
        TimelineEvent::SessionStart
    } else if code.0 == 1 {
        TimelineEvent::SessionEnd
    } else if code.0 == 2 {
        TimelineEvent::EmotionAdded(pl.0)
    } else {
        TimelineEvent::EmotionRemoved(pl.0)
    };
    let built = (ts.0, tag);
    proof {
        assert(built.deep_view() =~= parse_tl(s).unwrap().0);
    }
    Some((built, n3))
}


// ---------------------------------------------------------------------------
// Lists of mirrored-entry pairs, as a session file persists them.
// ---------------------------------------------------------------------------
/// The comma-joined items of an encoded linkage list.
pub open spec fn enc_pair_items(es: Seq<(Seq<char>, Seq<char>)>) -> Seq<char>
    decreases es.len(),
{
    if es.len() == 0 {
        Seq::empty()
    } else if es.len() == 1 {
        enc_pair(es[0])
    } else {
        enc_pair(es[0]) + ","@ + enc_pair_items(es.drop_first())
    }
}

/// An encoded text list between brackets.
pub open spec fn enc_pair_arr(es: Seq<(Seq<char>, Seq<char>)>) -> Seq<char> {
    "["@ + enc_pair_items(es) + "]"@
}

/// Reads one or more comma-separated encoded strings.
pub open spec fn parse_pair_items(s: Seq<char>) -> Option<(Seq<(Seq<char>, Seq<char>)>, int)>
    decreases s.len(),
{
    match parse_pair(s) {
        None => None,
        Some(e) => if !(0 <= e.1 <= s.len()) {
            None
        } else if starts_with(s.skip(e.1), seq![',']) {
            match parse_pair_items(s.skip(e.1 + 1)) {
                None => None,
                Some(es) => Some((seq![e.0] + es.0, e.1 + 1 + es.1)),
            }
        } else {
            Some((seq![e.0], e.1))
        },
    }
}

/// Reads an encoded text list.
pub open spec fn parse_pair_arr(s: Seq<char>) -> Option<(Seq<(Seq<char>, Seq<char>)>, int)> {
    if starts_with(s, "[]"@) {
        Some((Seq::empty(), 2))
    } else {
        match parse_lit(s, "["@) {
            None => None,
            Some(n0) => match parse_pair_items(s.skip(n0)) {
                None => None,
                Some(es) => match parse_lit(s.skip(n0 + es.1), "]"@) {
                    None => None,
                    Some(n1) => Some((es.0, n0 + es.1 + n1)),
                },
            },
        }
    }
}

#[verifier::rlimit(100)]
#[verifier::spinoff_prover]
proof fn lemma_pair_items_round_trip(es: Seq<(Seq<char>, Seq<char>)>, rest: Seq<char>)
    requires
        es.len() > 0,
        rest.len() > 0,
        rest[0] == ']',
    ensures
        parse_pair_items(enc_pair_items(es) + rest) == Some(
            (es, enc_pair_items(es).len() as int),
        ),
    decreases es.len(),
{
    reveal_strlit(",");
    reveal_strlit("]");
    let s = enc_pair_items(es) + rest;
    if es.len() == 1 {
        assert(s =~= enc_pair(es[0]) + rest);
        lemma_pair_item_rt(es[0], rest);
        let l: int = enc_pair(es[0]).len() as int;
        lemma_starts_with_concat(enc_pair(es[0]), rest);
        assert(s.skip(l) == rest);
        if starts_with(rest, seq![',']) {
            assert(rest.take(1)[0] == ',');
            assert(rest[0] == ',');
        }
        assert(!starts_with(rest, seq![',']));
        assert(seq![es[0]] =~= es);
    } else {
        let tail = ","@ + enc_pair_items(es.drop_first()) + rest;
        assert(s =~= enc_pair(es[0]) + tail);
        lemma_pair_item_rt(es[0], tail);
        let l: int = enc_pair(es[0]).len() as int;
        lemma_starts_with_concat(enc_pair(es[0]), tail);
        assert(s.skip(l) == tail);
        assert(tail =~= ","@ + (enc_pair_items(es.drop_first()) + rest));
        assert(","@ =~= seq![',']);
        lemma_starts_with_concat(seq![','], enc_pair_items(es.drop_first()) + rest);
        assert(tail =~= seq![','] + (enc_pair_items(es.drop_first()) + rest));
        assert(starts_with(tail, seq![',']));
        lemma_skip_skip(s, l, 1);
        assert(s.skip(l + 1) == tail.skip(1));
        assert(tail.skip(1) =~= enc_pair_items(es.drop_first()) + rest);
        lemma_pair_items_round_trip(es.drop_first(), rest);
        assert(seq![es[0]] + es.drop_first() =~= es);
        assert(enc_pair_items(es).len() == enc_pair(es[0]).len() + 1 + enc_pair_items(
            es.drop_first(),
        ).len());
    }
}

/// Reading back an encoded text list gives exactly what was written.
#[verifier::rlimit(100)]
#[verifier::spinoff_prover]
pub proof fn lemma_pair_arr_round_trip(es: Seq<(Seq<char>, Seq<char>)>, rest: Seq<char>)
    ensures
        parse_pair_arr(enc_pair_arr(es) + rest) == Some(
            (es, enc_pair_arr(es).len() as int),
        ),
{
    reveal_strlit("[");
    reveal_strlit("]");
    reveal_strlit("[]");
    let s = enc_pair_arr(es) + rest;
    if es.len() == 0 {
        assert(enc_pair_items(es) =~= Seq::<char>::empty());
        assert(s =~= "[]"@ + rest);
        lemma_starts_with_concat("[]"@, rest);
        assert(Seq::<(Seq<char>, Seq<char>)>::empty() =~= es);
    } else {
        let mid = enc_pair_items(es) + (seq![']'] + rest);
        assert("]"@ =~= seq![']']);
        assert(s =~= "["@ + mid);
        lemma_starts_with_concat("["@, mid);
        if starts_with(s, "[]"@) {
            assert(s.take(2)[1] == "[]"@[1]);
            assert(s[1] == ']');
            assert(mid[0] == enc_pair_items(es)[0]);
            assert(enc_pair_items(es)[0] == enc_pair(es[0])[0]);
            assert(enc_pair(es[0])[0] == '[');
            assert(s[1] == mid[0]);
            assert(false);
        }
        lemma_pair_items_round_trip(es, seq![']'] + rest);
        assert(s.skip(1) == mid);
        let li: int = enc_pair_items(es).len() as int;
        lemma_skip_skip(s, 1, li);
        lemma_starts_with_concat(enc_pair_items(es), seq![']'] + rest);
        assert(s.skip(1 + li) == seq![']'] + rest);
        assert(seq![']'] + rest =~= "]"@ + rest);
        lemma_starts_with_concat("]"@, rest);
    }
}

#[verifier::rlimit(100)]
#[verifier::spinoff_prover]
proof fn lemma_enc_pair_items_snoc(es: Seq<(Seq<char>, Seq<char>)>, e: (Seq<char>, Seq<char>))
    requires
        es.len() > 0,
    ensures
        enc_pair_items(es.push(e)) == enc_pair_items(es) + ","@ + enc_pair(e),
    decreases es.len(),
{
    if es.len() == 1 {
        assert(es.push(e)[0] == es[0]);
        assert(es.push(e).drop_first() =~= seq![e]);
        assert(enc_pair_items(seq![e]) == enc_pair(e));
        assert(enc_pair_items(es.push(e)) == enc_pair(es[0]) + ","@ + enc_pair_items(
            seq![e],
        ));
        assert(enc_pair_items(es) == enc_pair(es[0]));
    } else {
        lemma_enc_pair_items_snoc(es.drop_first(), e);
        assert(es.push(e)[0] == es[0]);
        assert(es.push(e).drop_first() =~= es.drop_first().push(e));
        assert(enc_pair_items(es.push(e)) == enc_pair(es[0]) + ","@ + enc_pair_items(
            es.drop_first().push(e),
        ));
        assert(enc_pair(es[0]) + ","@ + (enc_pair_items(es.drop_first()) + ","@
            + enc_pair(e)) =~= (enc_pair(es[0]) + ","@ + enc_pair_items(es.drop_first()))
            + ","@ + enc_pair(e));
    }
}

/// Appends an encoded text list.
pub fn write_pair_arr(out: &mut String, es: &Vec<(String, String)>)
    ensures
        final(out)@ == old(out)@ + enc_pair_arr(es.deep_view()),
{
    let ghost ev = es.deep_view();
    e_lit(out, "[");
    let mut i: usize = 0;
    while i < es.len()
        invariant
            ev == es.deep_view(),
            ev.len() == es@.len(),
            i <= es@.len(),
            out@ == old(out)@ + "["@ + enc_pair_items(ev.take(i as int)),
        decreases es@.len() - i,
    {
        assert(ev[i as int] == es@[i as int]@);
        if i > 0 {
            e_lit(out, ",");
        }
        write_pair(out, &es[i]);
        proof {
            if i == 0 {
                assert(ev.take(1) =~= seq![ev[0]]);
                assert(enc_pair_items(seq![ev[0]]) == enc_pair(ev[0]));
                assert(out@ =~= old(out)@ + "["@ + enc_pair_items(ev.take(1)));
            } else {
                assert(ev.take(i as int).len() > 0);
                lemma_enc_pair_items_snoc(ev.take(i as int), ev[i as int]);
                assert(ev.take(i as int).push(ev[i as int]) =~= ev.take(i as int + 1));
                assert(out@ =~= old(out)@ + "["@ + enc_pair_items(ev.take(i as int + 1)));
            }
        }
        i = i + 1;
    }
    e_lit(out, "]");
    proof {
        assert(ev.take(ev.len() as int) =~= ev);
        assert(out@ =~= old(out)@ + enc_pair_arr(ev));
    }
}

/// Reads the items of an encoded text list, appending to `out`.
fn read_pair_items(cs: &Vec<char>, pos: usize, out: &mut Vec<(String, String)>) -> (r: Option<usize>)
    requires
        pos <= cs@.len(),
    ensures
        r is Some ==> (parse_pair_items(cs@.skip(pos as int)) matches Some(q)
            && final(out).deep_view() == old(out).deep_view() + q.0
            && r.unwrap() - pos == q.1 && pos <= r.unwrap() <= cs@.len()),
        r is None ==> parse_pair_items(cs@.skip(pos as int)) is None,
    decreases cs@.len() - pos,
{
    proof {
        reveal_strlit(",");
    }
    let ghost s = cs@.skip(pos as int);
    let e = match read_pair(cs, pos) {
        Some(e) => e,
        None => {
            return None;
        },
    };
    let ghost pre = out.deep_view();
    out.push(e.0);
    proof {
        assert(out.deep_view() =~= pre.push(parse_pair(s).unwrap().0));
        lemma_skip_skip(cs@, pos as int, (e.1 - pos) as int);
    }
    if e.1 < cs.len() && cs[e.1] == ',' {
        proof {
            assert(s.skip(e.1 - pos)[0] == cs@[e.1 as int]);
            assert(s.skip(e.1 - pos).take(1) =~= seq![',']);
            assert(starts_with(s.skip(e.1 - pos), seq![',']));
            lemma_skip_skip(cs@, pos as int, (e.1 + 1 - pos) as int);
            assert(s.skip(e.1 - pos).drop_first() =~= s.skip(e.1 + 1 - pos));
        }
        let ghost mid = out.deep_view();
        let end = match read_pair_items(cs, e.1 + 1, out) {
            Some(end) => end,
            None => {
                return None;
            },
        };
        proof {
            let q = parse_pair_items(cs@.skip(e.1 as int + 1)).unwrap();
            assert(out.deep_view() =~= pre + (seq![parse_pair(s).unwrap().0] + q.0));
        }
        Some(end)
    } else {
        proof {
            if e.1 < cs@.len() {
                assert(s.skip(e.1 - pos)[0] == cs@[e.1 as int]);
                if starts_with(s.skip(e.1 - pos), seq![',']) {
                    assert(s.skip(e.1 - pos).take(1)[0] == ',');
                    assert(cs@[e.1 as int] == ',');
                }
            } else {
                assert(s.skip(e.1 - pos).len() == 0);
            }
            assert(!starts_with(s.skip(e.1 - pos), seq![',']));
            assert(out.deep_view() =~= pre + seq![parse_pair(s).unwrap().0]);
        }
        Some(e.1)
    }
}

/// Reads an encoded text list.
pub fn read_pair_arr(cs: &Vec<char>, pos: usize) -> (r: Option<(Vec<(String, String)>, usize)>)
    requires
        pos <= cs@.len(),
    ensures
        r is Some ==> (parse_pair_arr(cs@.skip(pos as int)) matches Some(q) && r.unwrap(
        ).0.deep_view() == q.0 && r.unwrap().1 - pos == q.1 && pos <= r.unwrap().1 <= cs@.len()),
        r is None ==> parse_pair_arr(cs@.skip(pos as int)) is None,
{
    proof {
        reveal_strlit("[");
        reveal_strlit("]");
        reveal_strlit("[]");
    }
    let ghost s = cs@.skip(pos as int);
    match p_lit(cs, pos, "[]") {
        Some(end) => {
            let empty: Vec<(String, String)> = Vec::new();
            proof {
                assert(starts_with(s, "[]"@));
                assert(empty.deep_view() =~= Seq::<(Seq<char>, Seq<char>)>::empty());
            }
            return Some((empty, end));
        },
        None => {},
    }
    let n0 = match p_lit(cs, pos, "[") {
        Some(n) => n,
        None => {
            proof {
                if starts_with(s, "[]"@) {
                    assert(s.take(2)[0] == '[');
                    assert(s.take(1) =~= seq!['[']);
                    assert(starts_with(s, "["@));
                }
            }
            return None;
        },
    };
    proof {
        lemma_skip_skip(cs@, pos as int, (n0 - pos) as int);
    }
    let mut items: Vec<(String, String)> = Vec::new();
    let mid = match read_pair_items(cs, n0, &mut items) {
        Some(m) => m,
        None => {
            proof {
                assert(!starts_with(s, "[]"@));
            }
            return None;
        },
    };
    proof {
        lemma_skip_skip(cs@, pos as int, (mid - pos) as int);
    }
    let end = match p_lit(cs, mid, "]") {
        Some(e) => e,
        None => {
            proof {
                assert(!starts_with(s, "[]"@));
            }
            return None;
        },
    };
    proof {
        assert(!starts_with(s, "[]"@));
        assert(items.deep_view() =~= Seq::<(Seq<char>, Seq<char>)>::empty() + parse_pair_items(
            s.skip(n0 - pos),
        ).unwrap().0);
    }
    Some((items, end))
}

// ---------------------------------------------------------------------------
// Timelines, as a session file persists them.
// ---------------------------------------------------------------------------
/// The comma-joined items of an encoded timeline.
pub open spec fn enc_tl_items(es: Seq<(u64, TimelineEventV)>) -> Seq<char>
    decreases es.len(),
{
    if es.len() == 0 {
        Seq::empty()
    } else if es.len() == 1 {
        enc_tl(es[0])
    } else {
        enc_tl(es[0]) + ","@ + enc_tl_items(es.drop_first())
    }
}

/// An encoded text list between brackets.
pub open spec fn enc_tl_arr(es: Seq<(u64, TimelineEventV)>) -> Seq<char> {
    "["@ + enc_tl_items(es) + "]"@
}

/// Reads one or more comma-separated encoded strings.
pub open spec fn parse_tl_items(s: Seq<char>) -> Option<(Seq<(u64, TimelineEventV)>, int)>
    decreases s.len(),
{
    match parse_tl(s) {
        None => None,
        Some(e) => if !(0 <= e.1 <= s.len()) {
            None
        } else if starts_with(s.skip(e.1), seq![',']) {
            match parse_tl_items(s.skip(e.1 + 1)) {
                None => None,
                Some(es) => Some((seq![e.0] + es.0, e.1 + 1 + es.1)),
            }
        } else {
            Some((seq![e.0], e.1))
        },
    }
}

/// Reads an encoded text list.
pub open spec fn parse_tl_arr(s: Seq<char>) -> Option<(Seq<(u64, TimelineEventV)>, int)> {
    if starts_with(s, "[]"@) {
        Some((Seq::empty(), 2))
    } else {
        match parse_lit(s, "["@) {
            None => None,
            Some(n0) => match parse_tl_items(s.skip(n0)) {
                None => None,
                Some(es) => match parse_lit(s.skip(n0 + es.1), "]"@) {
                    None => None,
                    Some(n1) => Some((es.0, n0 + es.1 + n1)),
                },
            },
        }
    }
}

#[verifier::rlimit(100)]
#[verifier::spinoff_prover]
proof fn lemma_tl_items_round_trip(es: Seq<(u64, TimelineEventV)>, rest: Seq<char>)
    requires
        es.len() > 0,
        rest.len() > 0,
        rest[0] == ']',
    ensures
        parse_tl_items(enc_tl_items(es) + rest) == Some(
            (es, enc_tl_items(es).len() as int),
        ),
    decreases es.len(),
{
    reveal_strlit(",");
    reveal_strlit("]");
    let s = enc_tl_items(es) + rest;
    if es.len() == 1 {
        assert(s =~= enc_tl(es[0]) + rest);
        lemma_tl_item_rt(es[0], rest);
        let l: int = enc_tl(es[0]).len() as int;
        lemma_starts_with_concat(enc_tl(es[0]), rest);
        assert(s.skip(l) == rest);
        if starts_with(rest, seq![',']) {
            assert(rest.take(1)[0] == ',');
            assert(rest[0] == ',');
        }
        assert(!starts_with(rest, seq![',']));
        assert(seq![es[0]] =~= es);
    } else {
        let tail = ","@ + enc_tl_items(es.drop_first()) + rest;
        assert(s =~= enc_tl(es[0]) + tail);
        lemma_tl_item_rt(es[0], tail);
        let l: int = enc_tl(es[0]).len() as int;
        lemma_starts_with_concat(enc_tl(es[0]), tail);
        assert(s.skip(l) == tail);
        assert(tail =~= ","@ + (enc_tl_items(es.drop_first()) + rest));
        assert(","@ =~= seq![',']);
        lemma_starts_with_concat(seq![','], enc_tl_items(es.drop_first()) + rest);
        assert(tail =~= seq![','] + (enc_tl_items(es.drop_first()) + rest));
        assert(starts_with(tail, seq![',']));
        lemma_skip_skip(s, l, 1);
        assert(s.skip(l + 1) == tail.skip(1));
        assert(tail.skip(1) =~= enc_tl_items(es.drop_first()) + rest);
        lemma_tl_items_round_trip(es.drop_first(), rest);
        assert(seq![es[0]] + es.drop_first() =~= es);
        assert(enc_tl_items(es).len() == enc_tl(es[0]).len() + 1 + enc_tl_items(
            es.drop_first(),
        ).len());
    }
}

/// Reading back an encoded text list gives exactly what was written.
#[verifier::rlimit(100)]
#[verifier::spinoff_prover]
pub proof fn lemma_tl_arr_round_trip(es: Seq<(u64, TimelineEventV)>, rest: Seq<char>)
    ensures
        parse_tl_arr(enc_tl_arr(es) + rest) == Some(
            (es, enc_tl_arr(es).len() as int),
        ),
{
    reveal_strlit("[");
    reveal_strlit("]");
    reveal_strlit("[]");
    let s = enc_tl_arr(es) + rest;
    if es.len() == 0 {
        assert(enc_tl_items(es) =~= Seq::<char>::empty());
        assert(s =~= "[]"@ + rest);
        lemma_starts_with_concat("[]"@, rest);
        assert(Seq::<(u64, TimelineEventV)>::empty() =~= es);
    } else {
        let mid = enc_tl_items(es) + (seq![']'] + rest);
        assert("]"@ =~= seq![']']);
        assert(s =~= "["@ + mid);
        lemma_starts_with_concat("["@, mid);
        if starts_with(s, "[]"@) {
            assert(s.take(2)[1] == "[]"@[1]);
            assert(s[1] == ']');
            assert(mid[0] == enc_tl_items(es)[0]);
            assert(enc_tl_items(es)[0] == enc_tl(es[0])[0]);
            assert(enc_tl(es[0])[0] == '[');
            assert(s[1] == mid[0]);
            assert(false);
        }
        lemma_tl_items_round_trip(es, seq![']'] + rest);
        assert(s.skip(1) == mid);
        let li: int = enc_tl_items(es).len() as int;
        lemma_skip_skip(s, 1, li);
        lemma_starts_with_concat(enc_tl_items(es), seq![']'] + rest);
        assert(s.skip(1 + li) == seq![']'] + rest);
        assert(seq![']'] + rest =~= "]"@ + rest);
        lemma_starts_with_concat("]"@, rest);
    }
}

#[verifier::rlimit(100)]
#[verifier::spinoff_prover]
proof fn lemma_enc_tl_items_snoc(es: Seq<(u64, TimelineEventV)>, e: (u64, TimelineEventV))
    requires
        es.len() > 0,
    ensures
        enc_tl_items(es.push(e)) == enc_tl_items(es) + ","@ + enc_tl(e),
    decreases es.len(),
{
    if es.len() == 1 {
        assert(es.push(e)[0] == es[0]);
        assert(es.push(e).drop_first() =~= seq![e]);
        assert(enc_tl_items(seq![e]) == enc_tl(e));
        assert(enc_tl_items(es.push(e)) == enc_tl(es[0]) + ","@ + enc_tl_items(
            seq![e],
        ));
        assert(enc_tl_items(es) == enc_tl(es[0]));
    } else {
        lemma_enc_tl_items_snoc(es.drop_first(), e);
        assert(es.push(e)[0] == es[0]);
        assert(es.push(e).drop_first() =~= es.drop_first().push(e));
        assert(enc_tl_items(es.push(e)) == enc_tl(es[0]) + ","@ + enc_tl_items(
            es.drop_first().push(e),
        ));
        assert(enc_tl(es[0]) + ","@ + (enc_tl_items(es.drop_first()) + ","@
            + enc_tl(e)) =~= (enc_tl(es[0]) + ","@ + enc_tl_items(es.drop_first()))
            + ","@ + enc_tl(e));
    }
}

/// Appends an encoded text list.
pub fn write_tl_arr(out: &mut String, es: &Vec<(u64, TimelineEvent)>)
    ensures
        final(out)@ == old(out)@ + enc_tl_arr(es.deep_view()),
{
    let ghost ev = es.deep_view();
    e_lit(out, "[");
    let mut i: usize = 0;
    while i < es.len()
        invariant
            ev == es.deep_view(),
            ev.len() == es@.len(),
            i <= es@.len(),
            out@ == old(out)@ + "["@ + enc_tl_items(ev.take(i as int)),
        decreases es@.len() - i,
    {
        assert(ev[i as int] == es@[i as int]@);
        if i > 0 {
            e_lit(out, ",");
        }
        write_tl(out, &es[i]);
        proof {
            if i == 0 {
                assert(ev.take(1) =~= seq![ev[0]]);
                assert(enc_tl_items(seq![ev[0]]) == enc_tl(ev[0]));
                assert(out@ =~= old(out)@ + "["@ + enc_tl_items(ev.take(1)));
            } else {
                assert(ev.take(i as int).len() > 0);
                lemma_enc_tl_items_snoc(ev.take(i as int), ev[i as int]);
                assert(ev.take(i as int).push(ev[i as int]) =~= ev.take(i as int + 1));
                assert(out@ =~= old(out)@ + "["@ + enc_tl_items(ev.take(i as int + 1)));
            }
        }
        i = i + 1;
    }
    e_lit(out, "]");
    proof {
        assert(ev.take(ev.len() as int) =~= ev);
        assert(out@ =~= old(out)@ + enc_tl_arr(ev));
    }
}

/// Reads the items of an encoded text list, appending to `out`.
fn read_tl_items(cs: &Vec<char>, pos: usize, out: &mut Vec<(u64, TimelineEvent)>) -> (r: Option<usize>)
    requires
        pos <= cs@.len(),
    ensures
        r is Some ==> (parse_tl_items(cs@.skip(pos as int)) matches Some(q)
            && final(out).deep_view() == old(out).deep_view() + q.0
            && r.unwrap() - pos == q.1 && pos <= r.unwrap() <= cs@.len()),
        r is None ==> parse_tl_items(cs@.skip(pos as int)) is None,
    decreases cs@.len() - pos,
{
    proof {
        reveal_strlit(",");
    }
    let ghost s = cs@.skip(pos as int);
    let e = match read_tl(cs, pos) {
        Some(e) => e,
        None => {
            return None;
        },
    };
    let ghost pre = out.deep_view();
    out.push(e.0);
    proof {
        assert(out.deep_view() =~= pre.push(parse_tl(s).unwrap().0));
        lemma_skip_skip(cs@, pos as int, (e.1 - pos) as int);
    }
    if e.1 < cs.len() && cs[e.1] == ',' {
        proof {
            assert(s.skip(e.1 - pos)[0] == cs@[e.1 as int]);
            assert(s.skip(e.1 - pos).take(1) =~= seq![',']);
            assert(starts_with(s.skip(e.1 - pos), seq![',']));
            lemma_skip_skip(cs@, pos as int, (e.1 + 1 - pos) as int);
            assert(s.skip(e.1 - pos).drop_first() =~= s.skip(e.1 + 1 - pos));
        }
        let ghost mid = out.deep_view();
        let end = match read_tl_items(cs, e.1 + 1, out) {
            Some(end) => end,
            None => {
                return None;
            },
        };
        proof {
            let q = parse_tl_items(cs@.skip(e.1 as int + 1)).unwrap();
            assert(out.deep_view() =~= pre + (seq![parse_tl(s).unwrap().0] + q.0));
        }
        Some(end)
    } else {
        proof {
            if e.1 < cs@.len() {
                assert(s.skip(e.1 - pos)[0] == cs@[e.1 as int]);
                if starts_with(s.skip(e.1 - pos), seq![',']) {
                    assert(s.skip(e.1 - pos).take(1)[0] == ',');
                    assert(cs@[e.1 as int] == ',');
                }
            } else {
                assert(s.skip(e.1 - pos).len() == 0);
            }
            assert(!starts_with(s.skip(e.1 - pos), seq![',']));
            assert(out.deep_view() =~= pre + seq![parse_tl(s).unwrap().0]);
        }
        Some(e.1)
    }
}

/// Reads an encoded text list.
pub fn read_tl_arr(cs: &Vec<char>, pos: usize) -> (r: Option<(Vec<(u64, TimelineEvent)>, usize)>)
    requires
        pos <= cs@.len(),
    ensures
        r is Some ==> (parse_tl_arr(cs@.skip(pos as int)) matches Some(q) && r.unwrap(
        ).0.deep_view() == q.0 && r.unwrap().1 - pos == q.1 && pos <= r.unwrap().1 <= cs@.len()),
        r is None ==> parse_tl_arr(cs@.skip(pos as int)) is None,
{
    proof {
        reveal_strlit("[");
        reveal_strlit("]");
        reveal_strlit("[]");
    }
    let ghost s = cs@.skip(pos as int);
    match p_lit(cs, pos, "[]") {
        Some(end) => {
            let empty: Vec<(u64, TimelineEvent)> = Vec::new();
            proof {
                assert(starts_with(s, "[]"@));
                assert(empty.deep_view() =~= Seq::<(u64, TimelineEventV)>::empty());
            }
            return Some((empty, end));
        },
        None => {},
    }
    let n0 = match p_lit(cs, pos, "[") {
        Some(n) => n,
        None => {
            proof {
                if starts_with(s, "[]"@) {
                    assert(s.take(2)[0] == '[');
                    assert(s.take(1) =~= seq!['[']);
                    assert(starts_with(s, "["@));
                }
            }
            return None;
        },
    };
    proof {
        lemma_skip_skip(cs@, pos as int, (n0 - pos) as int);
    }
    let mut items: Vec<(u64, TimelineEvent)> = Vec::new();
    let mid = match read_tl_items(cs, n0, &mut items) {
        Some(m) => m,
        None => {
            proof {
                assert(!starts_with(s, "[]"@));
            }
            return None;
        },
    };
    proof {
        lemma_skip_skip(cs@, pos as int, (mid - pos) as int);
    }
    let end = match p_lit(cs, mid, "]") {
        Some(e) => e,
        None => {
            proof {
                assert(!starts_with(s, "[]"@));
            }
            return None;
        },
    };
    proof {
        assert(!starts_with(s, "[]"@));
        assert(items.deep_view() =~= Seq::<(u64, TimelineEventV)>::empty() + parse_tl_items(
            s.skip(n0 - pos),
        ).unwrap().0);
    }
    Some((items, end))
}


/// The persisted text of the scalar half of a session file.
pub open spec fn enc_session_a(p: SessionV) -> Seq<char> {
    "{\"patient_uuid\":"@
        + enc_string(p.patient_uuid)
        + ",\"start\":"@
        + dec_chars_of(p.start)
        + ",\"end\":"@
        + dec_chars_of(p.end)
        + ",\"paid\":"@
        + dec_chars_of(p.paid)
        + ",\"created_at\":"@
        + dec_chars_of(p.created_at)
        + ",\"last_updated\":"@
        + dec_chars_of(p.last_updated)
}

pub open spec fn parse_session_a_s0(s: Seq<char>, m: int) -> Option<(SessionV, int)> {
    match parse_lit(s.skip(m), "{\"patient_uuid\":"@) {
        None => None,
        Some(n) => parse_session_a_s1(s, m + n),
    }
}

pub open spec fn parse_session_a_s1(s: Seq<char>, m: int) -> Option<(SessionV, int)> {
    match parse_string(s.skip(m)) {
        None => None,
        Some(v) => parse_session_a_s2(s, m + v.1, v.0),
    }
}

pub open spec fn parse_session_a_s2(s: Seq<char>, m: int, w1: Seq<char>) -> Option<(SessionV, int)> {
    match parse_lit(s.skip(m), ",\"start\":"@) {
        None => None,
        Some(n) => parse_session_a_s3(s, m + n, w1),
    }
}

pub open spec fn parse_session_a_s3(s: Seq<char>, m: int, w1: Seq<char>) -> Option<(SessionV, int)> {
    match parse_u64(s.skip(m)) {
        None => None,
        Some(v) => parse_session_a_s4(s, m + v.1, w1, v.0),
    }
}

pub open spec fn parse_session_a_s4(s: Seq<char>, m: int, w1: Seq<char>, w3: u64) -> Option<(SessionV, int)> {
    match parse_lit(s.skip(m), ",\"end\":"@) {
        None => None,
        Some(n) => parse_session_a_s5(s, m + n, w1, w3),
    }
}

pub open spec fn parse_session_a_s5(s: Seq<char>, m: int, w1: Seq<char>, w3: u64) -> Option<(SessionV, int)> {
    match parse_u64(s.skip(m)) {
        None => None,
        Some(v) => parse_session_a_s6(s, m + v.1, w1, w3, v.0),
    }
}

pub open spec fn parse_session_a_s6(s: Seq<char>, m: int, w1: Seq<char>, w3: u64, w5: u64) -> Option<(SessionV, int)> {
    match parse_lit(s.skip(m), ",\"paid\":"@) {
        None => None,
        Some(n) => parse_session_a_s7(s, m + n, w1, w3, w5),
    }
}

pub open spec fn parse_session_a_s7(s: Seq<char>, m: int, w1: Seq<char>, w3: u64, w5: u64) -> Option<(SessionV, int)> {
    match parse_u64(s.skip(m)) {
        None => None,
        Some(v) => parse_session_a_s8(s, m + v.1, w1, w3, w5, v.0),
    }
}

pub open spec fn parse_session_a_s8(s: Seq<char>, m: int, w1: Seq<char>, w3: u64, w5: u64, w7: u64) -> Option<(SessionV, int)> {
    match parse_lit(s.skip(m), ",\"created_at\":"@) {
        None => None,
        Some(n) => parse_session_a_s9(s, m + n, w1, w3, w5, w7),
    }
}

pub open spec fn parse_session_a_s9(s: Seq<char>, m: int, w1: Seq<char>, w3: u64, w5: u64, w7: u64) -> Option<(SessionV, int)> {
    match parse_u64(s.skip(m)) {
        None => None,
        Some(v) => parse_session_a_s10(s, m + v.1, w1, w3, w5, w7, v.0),
    }
}

pub open spec fn parse_session_a_s10(s: Seq<char>, m: int, w1: Seq<char>, w3: u64, w5: u64, w7: u64, w9: u64) -> Option<(SessionV, int)> {
    match parse_lit(s.skip(m), ",\"last_updated\":"@) {
        None => None,
        Some(n) => parse_session_a_s11(s, m + n, w1, w3, w5, w7, w9),
    }
}

pub open spec fn parse_session_a_s11(s: Seq<char>, m: int, w1: Seq<char>, w3: u64, w5: u64, w7: u64, w9: u64) -> Option<(SessionV, int)> {
    match parse_u64(s.skip(m)) {
        None => None,
        Some(v) => parse_session_a_s12(s, m + v.1, w1, w3, w5, w7, w9, v.0),
    }
}

pub open spec fn parse_session_a_s12(s: Seq<char>, m: int, w1: Seq<char>, w3: u64, w5: u64, w7: u64, w9: u64, w11: u64) -> Option<(SessionV, int)> {
    Some((SessionV { uuid: Seq::empty(), patient_uuid: w1, start: w3, end: w5, paid: w7, emotions: Seq::empty(), timeline: Seq::empty(), created_at: w9, last_updated: w11, calendar_ids: Seq::empty() }, m))
}

pub open spec fn parse_session_a(s: Seq<char>) -> Option<(SessionV, int)> {
    parse_session_a_s0(s, 0)
}

/// Reading back the scalar half of a session file gives exactly what was written.
#[verifier::rlimit(100)]
#[verifier::spinoff_prover]
pub proof fn lemma_session_a_round_trip(p: SessionV, rest: Seq<char>)
    requires
        rest.len() > 0,
        !is_digit(rest[0]),
    ensures
        parse_session_a(enc_session_a(p) + rest) matches Some(q) && q.0 == (SessionV { uuid: Seq::empty(), patient_uuid: p.patient_uuid, start: p.start, end: p.end, paid: p.paid, emotions: Seq::empty(), timeline: Seq::empty(), created_at: p.created_at, last_updated: p.last_updated, calendar_ids: Seq::empty() }) && q.1 == enc_session_a(p).len() as int,
{
    reveal_strlit("{\"patient_uuid\":");
    reveal_strlit(",\"start\":");
    reveal_strlit(",\"end\":");
    reveal_strlit(",\"paid\":");
    reveal_strlit(",\"created_at\":");
    reveal_strlit(",\"last_updated\":");
    let s = enc_session_a(p) + rest;
    let t0 = "{\"patient_uuid\":"@;
    let t1 = enc_string(p.patient_uuid);
    let t2 = ",\"start\":"@;
    let t3 = dec_chars_of(p.start);
    let t4 = ",\"end\":"@;
    let t5 = dec_chars_of(p.end);
    let t6 = ",\"paid\":"@;
    let t7 = dec_chars_of(p.paid);
    let t8 = ",\"created_at\":"@;
    let t9 = dec_chars_of(p.created_at);
    let t10 = ",\"last_updated\":"@;
    let t11 = dec_chars_of(p.last_updated);
    let r11 = rest;
    let r10 = t11 + r11;
    let r9 = t10 + r10;
    let r8 = t9 + r9;
    let r7 = t8 + r8;
    let r6 = t7 + r7;
    let r5 = t6 + r6;
    let r4 = t5 + r5;
    let r3 = t4 + r4;
    let r2 = t3 + r3;
    let r1 = t2 + r2;
    let r0 = t1 + r1;
    assert(s =~= t0 + r0);
    let pos0: int = 0;
    let pos1: int = pos0 + t0.len();
    let pos2: int = pos1 + t1.len();
    let pos3: int = pos2 + t2.len();
    let pos4: int = pos3 + t3.len();
    let pos5: int = pos4 + t4.len();
    let pos6: int = pos5 + t5.len();
    let pos7: int = pos6 + t6.len();
    let pos8: int = pos7 + t7.len();
    let pos9: int = pos8 + t8.len();
    let pos10: int = pos9 + t9.len();
    let pos11: int = pos10 + t10.len();
    let pos12: int = pos11 + t11.len();
    assert(s.skip(pos0) == t0 + r0);
    lemma_starts_with_concat(t0, r0);
    assert(parse_lit(s.skip(pos0), "{\"patient_uuid\":"@) == Some(t0.len() as int));
    lemma_skip_skip(s, pos0, t0.len() as int);
    assert(s.skip(pos1) == r0);
    lemma_string_round_trip(p.patient_uuid, r1);
    lemma_starts_with_concat(t1, r1);
    assert(parse_string(s.skip(pos1)) == Some((p.patient_uuid, t1.len() as int)));
    lemma_skip_skip(s, pos1, t1.len() as int);
    assert(s.skip(pos2) == r1);
    lemma_starts_with_concat(t2, r2);
    assert(parse_lit(s.skip(pos2), ",\"start\":"@) == Some(t2.len() as int));
    lemma_skip_skip(s, pos2, t2.len() as int);
    assert(s.skip(pos3) == r2);
    assert(!is_digit(r3[0]));
    lemma_u64_round_trip(p.start, r3);
    lemma_starts_with_concat(t3, r3);
    assert(parse_u64(s.skip(pos3)) == Some((p.start, t3.len() as int)));
    lemma_skip_skip(s, pos3, t3.len() as int);
    assert(s.skip(pos4) == r3);
    lemma_starts_with_concat(t4, r4);
    assert(parse_lit(s.skip(pos4), ",\"end\":"@) == Some(t4.len() as int));
    lemma_skip_skip(s, pos4, t4.len() as int);
    assert(s.skip(pos5) == r4);
    assert(!is_digit(r5[0]));
    lemma_u64_round_trip(p.end, r5);
    lemma_starts_with_concat(t5, r5);
    assert(parse_u64(s.skip(pos5)) == Some((p.end, t5.len() as int)));
    lemma_skip_skip(s, pos5, t5.len() as int);
    assert(s.skip(pos6) == r5);
    lemma_starts_with_concat(t6, r6);
    assert(parse_lit(s.skip(pos6), ",\"paid\":"@) == Some(t6.len() as int));
    lemma_skip_skip(s, pos6, t6.len() as int);
    assert(s.skip(pos7) == r6);
    assert(!is_digit(r7[0]));
    lemma_u64_round_trip(p.paid, r7);
    lemma_starts_with_concat(t7, r7);
    assert(parse_u64(s.skip(pos7)) == Some((p.paid, t7.len() as int)));
    lemma_skip_skip(s, pos7, t7.len() as int);
    assert(s.skip(pos8) == r7);
    lemma_starts_with_concat(t8, r8);
    assert(parse_lit(s.skip(pos8), ",\"created_at\":"@) == Some(t8.len() as int));
    lemma_skip_skip(s, pos8, t8.len() as int);
    assert(s.skip(pos9) == r8);
    assert(!is_digit(r9[0]));
    lemma_u64_round_trip(p.created_at, r9);
    lemma_starts_with_concat(t9, r9);
    assert(parse_u64(s.skip(pos9)) == Some((p.created_at, t9.len() as int)));
    lemma_skip_skip(s, pos9, t9.len() as int);
    assert(s.skip(pos10) == r9);
    lemma_starts_with_concat(t10, r10);
    assert(parse_lit(s.skip(pos10), ",\"last_updated\":"@) == Some(t10.len() as int));
    lemma_skip_skip(s, pos10, t10.len() as int);
    assert(s.skip(pos11) == r10);
    assert(!is_digit(r11[0]));
    lemma_u64_round_trip(p.last_updated, r11);
    lemma_starts_with_concat(t11, r11);
    assert(parse_u64(s.skip(pos11)) == Some((p.last_updated, t11.len() as int)));
    assert(parse_session_a_s0(s, pos0) == parse_session_a_s1(s, pos1));
    assert(parse_session_a_s1(s, pos1) == parse_session_a_s2(s, pos2, p.patient_uuid));
    assert(parse_session_a_s2(s, pos2, p.patient_uuid) == parse_session_a_s3(s, pos3, p.patient_uuid));
    assert(parse_session_a_s3(s, pos3, p.patient_uuid) == parse_session_a_s4(s, pos4, p.patient_uuid, p.start));
    assert(parse_session_a_s4(s, pos4, p.patient_uuid, p.start) == parse_session_a_s5(s, pos5, p.patient_uuid, p.start));
    assert(parse_session_a_s5(s, pos5, p.patient_uuid, p.start) == parse_session_a_s6(s, pos6, p.patient_uuid, p.start, p.end));
    assert(parse_session_a_s6(s, pos6, p.patient_uuid, p.start, p.end) == parse_session_a_s7(s, pos7, p.patient_uuid, p.start, p.end));
    assert(parse_session_a_s7(s, pos7, p.patient_uuid, p.start, p.end) == parse_session_a_s8(s, pos8, p.patient_uuid, p.start, p.end, p.paid));
    assert(parse_session_a_s8(s, pos8, p.patient_uuid, p.start, p.end, p.paid) == parse_session_a_s9(s, pos9, p.patient_uuid, p.start, p.end, p.paid));
    assert(parse_session_a_s9(s, pos9, p.patient_uuid, p.start, p.end, p.paid) == parse_session_a_s10(s, pos10, p.patient_uuid, p.start, p.end, p.paid, p.created_at));
    assert(parse_session_a_s10(s, pos10, p.patient_uuid, p.start, p.end, p.paid, p.created_at) == parse_session_a_s11(s, pos11, p.patient_uuid, p.start, p.end, p.paid, p.created_at));
    assert(parse_session_a_s11(s, pos11, p.patient_uuid, p.start, p.end, p.paid, p.created_at) == parse_session_a_s12(s, pos12, p.patient_uuid, p.start, p.end, p.paid, p.created_at, p.last_updated));
    assert(enc_session_a(p).len() as int == pos12);
}

/// Appends the persisted text of the scalar half of a session file.
#[verifier::rlimit(100)]
#[verifier::spinoff_prover]
pub fn write_session_a(out: &mut String, p: &Session)
    ensures
        final(out)@ == old(out)@ + enc_session_a(p@),
{
    e_lit(out, "{\"patient_uuid\":");
    e_string(out, p.patient_uuid.as_str());
    e_lit(out, ",\"start\":");
    e_u64(out, p.start);
    e_lit(out, ",\"end\":");
    e_u64(out, p.end);
    e_lit(out, ",\"paid\":");
    e_u64(out, p.paid);
    e_lit(out, ",\"created_at\":");
    e_u64(out, p.created_at);
    e_lit(out, ",\"last_updated\":");
    e_u64(out, p.last_updated);
    proof {
        assert(out@ =~= old(out)@ + enc_session_a(p@));
    }
}

/// Reads the persisted text of the scalar half of a session file starting at `pos`.
#[verifier::rlimit(100)]
#[verifier::spinoff_prover]
pub fn read_session_a(cs: &Vec<char>, pos: usize) -> (r: Option<(Session, usize)>)
    requires
        pos <= cs@.len(),
    ensures
        r is Some ==> (parse_session_a(cs@.skip(pos as int)) matches Some(q) && r.unwrap().0@ == q.0
            && r.unwrap().1 - pos == q.1 && pos <= r.unwrap().1 <= cs@.len()),
        r is None ==> parse_session_a(cs@.skip(pos as int)) is None,
{
    let ghost s = cs@.skip(pos as int);
    proof { lemma_skip_skip(cs@, pos as int, (pos - pos) as int); }
    let c0: usize = match p_lit(cs, pos, "{\"patient_uuid\":") {
        Some(x) => x,
        None => { return None; },
    };
    proof { lemma_skip_skip(cs@, pos as int, (c0 - pos) as int); }
    let v1 = match p_string(cs, c0) {
        Some(x) => x,
        None => { return None; },
    };
    proof { lemma_skip_skip(cs@, pos as int, (v1.1 - pos) as int); }
    let c2: usize = match p_lit(cs, v1.1, ",\"start\":") {
        Some(x) => x,
        None => { return None; },
    };
    proof { lemma_skip_skip(cs@, pos as int, (c2 - pos) as int); }
    let v3 = match p_u64(cs, c2) {
        Some(x) => x,
        None => { return None; },
    };
    proof { lemma_skip_skip(cs@, pos as int, (v3.1 - pos) as int); }
    let c4: usize = match p_lit(cs, v3.1, ",\"end\":") {
        Some(x) => x,
        None => { return None; },
    };
    proof { lemma_skip_skip(cs@, pos as int, (c4 - pos) as int); }
    let v5 = match p_u64(cs, c4) {
        Some(x) => x,
        None => { return None; },
    };
    proof { lemma_skip_skip(cs@, pos as int, (v5.1 - pos) as int); }
    let c6: usize = match p_lit(cs, v5.1, ",\"paid\":") {
        Some(x) => x,
        None => { return None; },
    };
    proof { lemma_skip_skip(cs@, pos as int, (c6 - pos) as int); }
    let v7 = match p_u64(cs, c6) {
        Some(x) => x,
        None => { return None; },
    };
    proof { lemma_skip_skip(cs@, pos as int, (v7.1 - pos) as int); }
    let c8: usize = match p_lit(cs, v7.1, ",\"created_at\":") {
        Some(x) => x,
        None => { return None; },
    };
    proof { lemma_skip_skip(cs@, pos as int, (c8 - pos) as int); }
    let v9 = match p_u64(cs, c8) {
        Some(x) => x,
        None => { return None; },
    };
    proof { lemma_skip_skip(cs@, pos as int, (v9.1 - pos) as int); }
    let c10: usize = match p_lit(cs, v9.1, ",\"last_updated\":") {
        Some(x) => x,
        None => { return None; },
    };
    proof { lemma_skip_skip(cs@, pos as int, (c10 - pos) as int); }
    let v11 = match p_u64(cs, c10) {
        Some(x) => x,
        None => { return None; },
    };
    let built = Session { uuid: String::new(), patient_uuid: v1.0, start: v3.0, end: v5.0, paid: v7.0, emotions: Vec::new(), timeline: Vec::new(), created_at: v9.0, last_updated: v11.0, calendar_ids: Vec::new() };
    proof {
        assert(built@ =~= parse_session_a(s).unwrap().0);
    }
    Some((built, v11.1))
}

/// The persisted text of the contents half of a session file.
pub open spec fn enc_session_b(p: SessionV) -> Seq<char> {
    ",\"emotions\":"@
        + enc_emotion_arr(p.emotions)
        + ",\"timeline\":"@
        + enc_tl_arr(p.timeline)
        + ",\"calendar_ids\":"@
        + enc_pair_arr(p.calendar_ids)
        + "}"@
}

pub open spec fn parse_session_b_s0(s: Seq<char>, m: int) -> Option<(SessionV, int)> {
    match parse_lit(s.skip(m), ",\"emotions\":"@) {
        None => None,
        Some(n) => parse_session_b_s1(s, m + n),
    }
}

pub open spec fn parse_session_b_s1(s: Seq<char>, m: int) -> Option<(SessionV, int)> {
    match parse_emotion_arr(s.skip(m)) {
        None => None,
        Some(v) => parse_session_b_s2(s, m + v.1, v.0),
    }
}

pub open spec fn parse_session_b_s2(s: Seq<char>, m: int, w1: Seq<EmotionV>) -> Option<(SessionV, int)> {
    match parse_lit(s.skip(m), ",\"timeline\":"@) {
        None => None,
        Some(n) => parse_session_b_s3(s, m + n, w1),
    }
}

pub open spec fn parse_session_b_s3(s: Seq<char>, m: int, w1: Seq<EmotionV>) -> Option<(SessionV, int)> {
    match parse_tl_arr(s.skip(m)) {
        None => None,
        Some(v) => parse_session_b_s4(s, m + v.1, w1, v.0),
    }
}

pub open spec fn parse_session_b_s4(s: Seq<char>, m: int, w1: Seq<EmotionV>, w3: Seq<(u64, TimelineEventV)>) -> Option<(SessionV, int)> {
    match parse_lit(s.skip(m), ",\"calendar_ids\":"@) {
        None => None,
        Some(n) => parse_session_b_s5(s, m + n, w1, w3),
    }
}

pub open spec fn parse_session_b_s5(s: Seq<char>, m: int, w1: Seq<EmotionV>, w3: Seq<(u64, TimelineEventV)>) -> Option<(SessionV, int)> {
    match parse_pair_arr(s.skip(m)) {
        None => None,
        Some(v) => parse_session_b_s6(s, m + v.1, w1, w3, v.0),
    }
}

pub open spec fn parse_session_b_s6(s: Seq<char>, m: int, w1: Seq<EmotionV>, w3: Seq<(u64, TimelineEventV)>, w5: Seq<(Seq<char>, Seq<char>)>) -> Option<(SessionV, int)> {
    match parse_lit(s.skip(m), "}"@) {
        None => None,
        Some(n) => parse_session_b_s7(s, m + n, w1, w3, w5),
    }
}

pub open spec fn parse_session_b_s7(s: Seq<char>, m: int, w1: Seq<EmotionV>, w3: Seq<(u64, TimelineEventV)>, w5: Seq<(Seq<char>, Seq<char>)>) -> Option<(SessionV, int)> {
    Some((SessionV { uuid: Seq::empty(), patient_uuid: Seq::empty(), start: 0, end: 0, paid: 0, emotions: w1, timeline: w3, created_at: 0, last_updated: 0, calendar_ids: w5 }, m))
}

pub open spec fn parse_session_b(s: Seq<char>) -> Option<(SessionV, int)> {
    parse_session_b_s0(s, 0)
}

/// Reading back the contents half of a session file gives exactly what was written.
#[verifier::rlimit(100)]
#[verifier::spinoff_prover]
pub proof fn lemma_session_b_round_trip(p: SessionV, rest: Seq<char>)
    ensures
        parse_session_b(enc_session_b(p) + rest) matches Some(q) && q.0 == (SessionV { uuid: Seq::empty(), patient_uuid: Seq::empty(), start: 0, end: 0, paid: 0, emotions: p.emotions, timeline: p.timeline, created_at: 0, last_updated: 0, calendar_ids: p.calendar_ids }) && q.1 == enc_session_b(p).len() as int,
{
    reveal_strlit(",\"emotions\":");
    reveal_strlit(",\"timeline\":");
    reveal_strlit(",\"calendar_ids\":");
    reveal_strlit("}");
    let s = enc_session_b(p) + rest;
    let t0 = ",\"emotions\":"@;
    let t1 = enc_emotion_arr(p.emotions);
    let t2 = ",\"timeline\":"@;
    let t3 = enc_tl_arr(p.timeline);
    let t4 = ",\"calendar_ids\":"@;
    let t5 = enc_pair_arr(p.calendar_ids);
    let t6 = "}"@;
    let r6 = rest;
    let r5 = t6 + r6;
    let r4 = t5 + r5;
    let r3 = t4 + r4;
    let r2 = t3 + r3;
    let r1 = t2 + r2;
    let r0 = t1 + r1;
    assert(s =~= t0 + r0);
    let pos0: int = 0;
    let pos1: int = pos0 + t0.len();
    let pos2: int = pos1 + t1.len();
    let pos3: int = pos2 + t2.len();
    let pos4: int = pos3 + t3.len();
    let pos5: int = pos4 + t4.len();
    let pos6: int = pos5 + t5.len();
    let pos7: int = pos6 + t6.len();
    assert(s.skip(pos0) == t0 + r0);
    lemma_starts_with_concat(t0, r0);
    assert(parse_lit(s.skip(pos0), ",\"emotions\":"@) == Some(t0.len() as int));
    lemma_skip_skip(s, pos0, t0.len() as int);
    assert(s.skip(pos1) == r0);
    lemma_emotion_arr_round_trip(p.emotions, r1);
    lemma_starts_with_concat(t1, r1);
    assert(parse_emotion_arr(s.skip(pos1)) == Some((p.emotions, t1.len() as int)));
    lemma_skip_skip(s, pos1, t1.len() as int);
    assert(s.skip(pos2) == r1);
    lemma_starts_with_concat(t2, r2);
    assert(parse_lit(s.skip(pos2), ",\"timeline\":"@) == Some(t2.len() as int));
    lemma_skip_skip(s, pos2, t2.len() as int);
    assert(s.skip(pos3) == r2);
    lemma_tl_arr_round_trip(p.timeline, r3);
    lemma_starts_with_concat(t3, r3);
    assert(parse_tl_arr(s.skip(pos3)) == Some((p.timeline, t3.len() as int)));
    lemma_skip_skip(s, pos3, t3.len() as int);
    assert(s.skip(pos4) == r3);
    lemma_starts_with_concat(t4, r4);
    assert(parse_lit(s.skip(pos4), ",\"calendar_ids\":"@) == Some(t4.len() as int));
    lemma_skip_skip(s, pos4, t4.len() as int);
    assert(s.skip(pos5) == r4);
    lemma_pair_arr_round_trip(p.calendar_ids, r5);
    lemma_starts_with_concat(t5, r5);
    assert(parse_pair_arr(s.skip(pos5)) == Some((p.calendar_ids, t5.len() as int)));
    lemma_skip_skip(s, pos5, t5.len() as int);
    assert(s.skip(pos6) == r5);
    lemma_starts_with_concat(t6, r6);
    assert(parse_lit(s.skip(pos6), "}"@) == Some(t6.len() as int));
    assert(parse_session_b_s0(s, pos0) == parse_session_b_s1(s, pos1));
    assert(parse_session_b_s1(s, pos1) == parse_session_b_s2(s, pos2, p.emotions));
    assert(parse_session_b_s2(s, pos2, p.emotions) == parse_session_b_s3(s, pos3, p.emotions));
    assert(parse_session_b_s3(s, pos3, p.emotions) == parse_session_b_s4(s, pos4, p.emotions, p.timeline));
    assert(parse_session_b_s4(s, pos4, p.emotions, p.timeline) == parse_session_b_s5(s, pos5, p.emotions, p.timeline));
    assert(parse_session_b_s5(s, pos5, p.emotions, p.timeline) == parse_session_b_s6(s, pos6, p.emotions, p.timeline, p.calendar_ids));
    assert(parse_session_b_s6(s, pos6, p.emotions, p.timeline, p.calendar_ids) == parse_session_b_s7(s, pos7, p.emotions, p.timeline, p.calendar_ids));
    assert(enc_session_b(p).len() as int == pos7);
}

/// Appends the persisted text of the contents half of a session file.
#[verifier::rlimit(100)]
#[verifier::spinoff_prover]
pub fn write_session_b(out: &mut String, p: &Session)
    ensures
        final(out)@ == old(out)@ + enc_session_b(p@),
{
    e_lit(out, ",\"emotions\":");
    write_emotion_arr(out, &p.emotions);
    e_lit(out, ",\"timeline\":");
    write_tl_arr(out, &p.timeline);
    e_lit(out, ",\"calendar_ids\":");
    write_pair_arr(out, &p.calendar_ids);
    e_lit(out, "}");
    proof {
        assert(out@ =~= old(out)@ + enc_session_b(p@));
    }
}

/// Reads the persisted text of the contents half of a session file starting at `pos`.
#[verifier::rlimit(100)]
#[verifier::spinoff_prover]
pub fn read_session_b(cs: &Vec<char>, pos: usize) -> (r: Option<(Session, usize)>)
    requires
        pos <= cs@.len(),
    ensures
        r is Some ==> (parse_session_b(cs@.skip(pos as int)) matches Some(q) && r.unwrap().0@ == q.0
            && r.unwrap().1 - pos == q.1 && pos <= r.unwrap().1 <= cs@.len()),
        r is None ==> parse_session_b(cs@.skip(pos as int)) is None,
{
    let ghost s = cs@.skip(pos as int);
    proof { lemma_skip_skip(cs@, pos as int, (pos - pos) as int); }
    let c0: usize = match p_lit(cs, pos, ",\"emotions\":") {
        Some(x) => x,
        None => { return None; },
    };
    proof { lemma_skip_skip(cs@, pos as int, (c0 - pos) as int); }
    let v1 = match read_emotion_arr(cs, c0) {
        Some(x) => x,
        None => { return None; },
    };
    proof { lemma_skip_skip(cs@, pos as int, (v1.1 - pos) as int); }
    let c2: usize = match p_lit(cs, v1.1, ",\"timeline\":") {
        Some(x) => x,
        None => { return None; },
    };
    proof { lemma_skip_skip(cs@, pos as int, (c2 - pos) as int); }
    let v3 = match read_tl_arr(cs, c2) {
        Some(x) => x,
        None => { return None; },
    };
    proof { lemma_skip_skip(cs@, pos as int, (v3.1 - pos) as int); }
    let c4: usize = match p_lit(cs, v3.1, ",\"calendar_ids\":") {
        Some(x) => x,
        None => { return None; },
    };
    proof { lemma_skip_skip(cs@, pos as int, (c4 - pos) as int); }
    let v5 = match read_pair_arr(cs, c4) {
        Some(x) => x,
        None => { return None; },
    };
    proof { lemma_skip_skip(cs@, pos as int, (v5.1 - pos) as int); }
    let c6: usize = match p_lit(cs, v5.1, "}") {
        Some(x) => x,
        None => { return None; },
    };
    let built = Session { uuid: String::new(), patient_uuid: String::new(), start: 0, end: 0, paid: 0, emotions: v1.0, timeline: v3.0, created_at: 0, last_updated: 0, calendar_ids: v5.0 };
    proof {
        assert(built@ =~= parse_session_b(s).unwrap().0);
    }
    Some((built, c6))
}

// ---------------------------------------------------------------------------
// The whole persisted session file: identity-and-range half followed by
// contents half. The session's own identity names the file and is not in
// the text.
// ---------------------------------------------------------------------------
/// The persisted text of a session file.
pub open spec fn enc_session_file(p: SessionV) -> Seq<char> {
    enc_session_a(p) + enc_session_b(p)
}

pub open spec fn parse_session_file(s: Seq<char>) -> Option<(SessionV, int)> {
    match parse_session_a(s) {
        None => None,
        Some(a) => if !(0 <= a.1 <= s.len()) {
            None
        } else {
            match parse_session_b(s.skip(a.1)) {
                None => None,
                Some(b) => Some(
                    (
                        SessionV {
                            emotions: b.0.emotions,
                            timeline: b.0.timeline,
                            calendar_ids: b.0.calendar_ids,
                            ..a.0
                        },
                        a.1 + b.1,
                    ),
                ),
            }
        },
    }
}

/// Reading back a session file gives exactly what was written, the
/// identity coming from the filename again.
#[verifier::rlimit(100)]
#[verifier::spinoff_prover]
pub proof fn lemma_session_file_round_trip(p: SessionV, rest: Seq<char>)
    ensures
        parse_session_file(enc_session_file(p) + rest) matches Some(q) && q.0 == (SessionV {
            uuid: Seq::empty(),
            ..p
        }) && q.1 == enc_session_file(p).len() as int,
{
    let s = enc_session_file(p) + rest;
    let rest2 = enc_session_b(p) + rest;
    assert(s =~= enc_session_a(p) + rest2);
    reveal_strlit(",\"emotions\":");
    assert(rest2[0] == ',');
    assert(!is_digit(rest2[0]));
    lemma_session_a_round_trip(p, rest2);
    let la: int = enc_session_a(p).len() as int;
    assert(0 <= la <= s.len());
    lemma_starts_with_concat(enc_session_a(p), rest2);
    assert(s.skip(la) == rest2);
    lemma_session_b_round_trip(p, rest);
    let q = parse_session_file(s).unwrap();
    assert(q.0 =~= (SessionV { uuid: Seq::empty(), ..p }));
}

/// Appends the persisted text of a session file.
pub fn write_session_file(out: &mut String, p: &Session)
    ensures
        final(out)@ == old(out)@ + enc_session_file(p@),
{
    write_session_a(out, p);
    write_session_b(out, p);
    proof {
        assert(out@ =~= old(out)@ + enc_session_file(p@));
    }
}

/// Reads the persisted text of a session file starting at `pos`; the
/// identity field comes back empty for the caller to fill.
pub fn read_session_file(cs: &Vec<char>, pos: usize) -> (r: Option<(Session, usize)>)
    requires
        pos <= cs@.len(),
    ensures
        r is Some ==> (parse_session_file(cs@.skip(pos as int)) matches Some(q) && r.unwrap().0@
            == q.0 && r.unwrap().1 - pos == q.1 && pos <= r.unwrap().1 <= cs@.len()),
        r is None ==> parse_session_file(cs@.skip(pos as int)) is None,
{
    let ghost s = cs@.skip(pos as int);
    let a = match read_session_a(cs, pos) {
        Some(a) => a,
        None => {
            return None;
        },
    };
    proof {
        lemma_skip_skip(cs@, pos as int, (a.1 - pos) as int);
    }
    let b = match read_session_b(cs, a.1) {
        Some(b) => b,
        None => {
            return None;
        },
    };
    let merged = Session {
        uuid: String::new(),
        patient_uuid: a.0.patient_uuid,
        start: a.0.start,
        end: a.0.end,
        paid: a.0.paid,
        emotions: b.0.emotions,
        timeline: b.0.timeline,
        created_at: a.0.created_at,
        last_updated: a.0.last_updated,
        calendar_ids: b.0.calendar_ids,
    };
    proof {
        assert(merged@ =~= parse_session_file(s).unwrap().0);
    }
    Some((merged, b.1))
}

/// Renders a session for its per-entity file.
pub fn encode_session_text(p: &Session) -> (r: String)
    ensures
        r@ == enc_session_file(p@),
{
    let mut out = String::new();
    write_session_file(&mut out, p);
    out
}

/// Loads a session from its file text, restoring the identity the filename
/// carried. Text that is not exactly one saved record is refused.
pub fn decode_session_text(s: &str, uuid: String) -> (r: Option<Session>)
    ensures
        r is Some <==> (parse_session_file(s@) matches Some(q) && q.1 == s@.len()),
        r is Some ==> (parse_session_file(s@) matches Some(q) && r.unwrap()@ == (SessionV {
            uuid: uuid@,
            ..q.0
        })),
{
    let cs = chars_of(s);
    proof {
        assert(cs@.skip(0) =~= s@);
    }
    match read_session_file(&cs, 0) {
        Some(pe) => {
            if pe.1 == cs.len() {
                let mut p = pe.0;
                p.uuid = uuid;
                Some(p)
            } else {
                None
            }
        },
        None => None,
    }
}

/// A saved session file loads back as the session that was saved:
/// persistence round-trips.
pub proof fn lemma_session_save_load(p: SessionV)
    ensures
        parse_session_file(enc_session_file(p)) matches Some(q) && q.0 == (SessionV {
            uuid: Seq::empty(),
            ..p
        }) && q.1 == enc_session_file(p).len() as int,
{
    lemma_session_file_round_trip(p, Seq::empty());
    assert(enc_session_file(p) + Seq::empty() =~= enc_session_file(p));
}



/// Renders the push-token bindings (account token to push token) for the
/// snapshot.
pub fn encode_sse_tokens_text(m: &Vec<(String, String)>) -> (r: String)
    ensures
        r@ == enc_pair_arr(m.deep_view()),
{
    let mut out = String::new();
    write_pair_arr(&mut out, m);
    out
}

/// Loads the push-token bindings. Text that is not exactly one saved list
/// is refused.
pub fn decode_sse_tokens_text(s: &str) -> (r: Option<Vec<(String, String)>>)
    ensures
        r is Some <==> (parse_pair_arr(s@) matches Some(q) && q.1 == s@.len()),
        r is Some ==> (parse_pair_arr(s@) matches Some(q) && r.unwrap().deep_view() == q.0),
{
    let cs = chars_of(s);
    proof {
        assert(cs@.skip(0) =~= s@);
    }
    match read_pair_arr(&cs, 0) {
        Some(pe) => {
            if pe.1 == cs.len() {
                Some(pe.0)
            } else {
                None
            }
        },
        None => None,
    }
}

/// Saved push-token bindings load back exactly as they were saved:
/// persistence round-trips, so a client's push token survives a restart.
pub proof fn lemma_sse_tokens_save_load(m: Seq<(Seq<char>, Seq<char>)>)
    ensures
        parse_pair_arr(enc_pair_arr(m)) matches Some(q) && q.0 == m && q.1 == enc_pair_arr(
            m,
        ).len() as int,
{
    lemma_pair_arr_round_trip(m, Seq::empty());
    assert(enc_pair_arr(m) + Seq::empty() =~= enc_pair_arr(m));
}


} // verus!
