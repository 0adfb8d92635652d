use vstd::prelude::*;

verus! {

/// The characters of a text slice, as an owned list.
pub fn chars_of(s: &str) -> (r: Vec<char>)
    ensures
        r@ == s@,
{
    let n = s.unicode_len();
    let mut out: Vec<char> = Vec::new();
    let mut i: usize = 0;
    while i < n
        invariant
            n == s@.len(),
            i <= n,
            out@ =~= s@.take(i as int),
        decreases n - i,
    {
        let c = s.get_char(i);
        out.push(c);
        proof {
            assert(out@ =~= s@.take(i as int + 1));
        }
        i = i + 1;
    }
    proof {
        assert(s@.take(n as int) =~= s@);
    }
    out
}

pub open spec fn is_digit(c: char) -> bool {
    '0' <= c <= '9'
}

/// The value of one decimal digit character.
pub open spec fn digit_val(c: char) -> int {
    c as int - '0' as int
}

/// The maximal run of decimal digits at the front of the text.
pub open spec fn leading_digits(s: Seq<char>) -> Seq<char>
    decreases s.len(),
{
    if s.len() == 0 || !is_digit(s[0]) {
        Seq::empty()
    } else {
        seq![s[0]] + leading_digits(s.drop_first())
    }
}

/// The value of a run of decimal digit characters.
pub open spec fn dec_value(ds: Seq<char>) -> int
    decreases ds.len(),
{
    if ds.len() == 0 {
        0
    } else {
        dec_value(ds.drop_last()) * 10 + digit_val(ds.last())
    }
}

/// What one line of a batch response contributes: nothing for an ordinary
/// line; for a status line, its code, or `None` when the code is missing
/// or does not fit a status code — a hard failure for that sub-request
/// alone.
pub open spec fn status_entry(line: Seq<char>) -> Seq<Option<u16>> {
    if line.len() >= 9 && line.take(9) == "HTTP/1.1 "@ {
        let ds = leading_digits(line.skip(9));
        if ds.len() == 0 || dec_value(ds) > 65535 {
            seq![None]
        } else {
            seq![Some(dec_value(ds) as u16)]
        }
    } else {
        Seq::empty()
    }
}

/// The statuses of a multipart batch response: one entry per embedded
/// status line, reading the text line by line.
pub open spec fn spec_parse_lines(rest: Seq<char>, line: Seq<char>) -> Seq<Option<u16>>
    decreases rest.len(),
{
    if rest.len() == 0 {
        status_entry(line)
    } else if rest[0] == '\n' {
        status_entry(line) + spec_parse_lines(rest.drop_first(), Seq::empty())
    } else {
        spec_parse_lines(rest.drop_first(), line.push(rest[0]))
    }
}

pub open spec fn spec_parse_multipart(s: Seq<char>) -> Seq<Option<u16>> {
    spec_parse_lines(s, Seq::empty())
}

/// Reads the status line of one response line, when it is one.
fn line_status(line: &Vec<char>) -> (r: Option<Option<u16>>)
    ensures
        r is Some ==> status_entry(line@) == seq![r.unwrap()],
        r is None ==> status_entry(line@) == Seq::<Option<u16>>::empty(),
{
    proof {
        reveal_strlit("HTTP/1.1 ");
        assert("HTTP/1.1 "@ =~= seq!['H', 'T', 'T', 'P', '/', '1', '.', '1', ' ']);
    }
    if line.len() < 9 {
        return None;
    }
    let eq9 = line[0] == 'H' && line[1] == 'T' && line[2] == 'T' && line[3] == 'P' && line[4]
        == '/' && line[5] == '1' && line[6] == '.' && line[7] == '1' && line[8] == ' ';
    proof {
        if line@.take(9) == "HTTP/1.1 "@ {
            assert(line@[0] == line@.take(9)[0]);
            assert(line@[1] == line@.take(9)[1]);
            assert(line@[2] == line@.take(9)[2]);
            assert(line@[3] == line@.take(9)[3]);
            assert(line@[4] == line@.take(9)[4]);
            assert(line@[5] == line@.take(9)[5]);
            assert(line@[6] == line@.take(9)[6]);
            assert(line@[7] == line@.take(9)[7]);
            assert(line@[8] == line@.take(9)[8]);
        }
    }
    if !eq9 {
        return None;
    }
    proof {
        assert(line@.take(9) =~= "HTTP/1.1 "@);
    }
    let ghost tail = line@.skip(9);
    let mut k: usize = 9;
    let mut acc: u32 = 0;
    let mut big = false;
    let mut ndigits: usize = 0;
    while k < line.len() && line[k] >= '0' && line[k] <= '9'
        invariant
            line@.len() >= 9,
            9 <= k <= line@.len(),
            tail == line@.skip(9),
            ndigits == k - 9,
            leading_digits(tail).len() >= ndigits,
            leading_digits(tail).take(ndigits as int) =~= tail.take(ndigits as int),
            forall|j: int| 9 <= j < k ==> is_digit(line@[j]),
            !big ==> acc == dec_value(tail.take(ndigits as int)) && acc <= 65535,
            big ==> dec_value(tail.take(ndigits as int)) > 65535,
        decreases line@.len() - k,
    {
        let d: u32 = (line[k] as u32) - ('0' as u32);
        proof {
            lemma_leading_digits_step(tail, ndigits as int);
            assert(tail.take(ndigits as int + 1).drop_last() =~= tail.take(ndigits as int));
            assert(tail.take(ndigits as int + 1).last() == tail[ndigits as int]);
            assert(tail[ndigits as int] == line@[k as int]);
        }
        if big {
            proof {
                lemma_dec_value_monotone(tail.take(ndigits as int + 1));
            }
        } else {
            let next: u32 = acc * 10 + d;
            if next > 65535 {
                big = true;
            } else {
                acc = next;
            }
        }
        ndigits = ndigits + 1;
        k = k + 1;
    }
    proof {
        lemma_leading_digits_stop(tail, ndigits as int);
        assert(leading_digits(tail) =~= tail.take(ndigits as int));
    }
    if ndigits == 0 || big {
        return Some(None);
    }
    Some(Some(acc as u16))
}

pub proof fn lemma_leading_digits_step(s: Seq<char>, n: int)
    requires
        0 <= n,
        leading_digits(s).len() >= n,
        leading_digits(s).take(n) =~= s.take(n),
        n < s.len(),
        is_digit(s[n]),
    ensures
        leading_digits(s).len() >= n + 1,
        leading_digits(s).take(n + 1) =~= s.take(n + 1),
    decreases n,
{
    lemma_leading_digits_prefix(s);
    if leading_digits(s).len() <= n {
        assert(leading_digits(s).len() == n);
        lemma_leading_digits_maximal(s);
        assert(!is_digit(s[n]));
    }
}

/// The digit run is a prefix of the text, made of digits.
proof fn lemma_leading_digits_prefix(s: Seq<char>)
    ensures
        leading_digits(s).len() <= s.len(),
        forall|j: int|
            0 <= j < leading_digits(s).len() ==> leading_digits(s)[j] == s[j] && is_digit(s[j]),
    decreases s.len(),
{
    if s.len() > 0 && is_digit(s[0]) {
        lemma_leading_digits_prefix(s.drop_first());
        assert forall|j: int| 0 <= j < leading_digits(s).len() implies leading_digits(s)[j]
            == s[j] && is_digit(s[j]) by {
            if j > 0 {
                assert(leading_digits(s)[j] == leading_digits(s.drop_first())[j - 1]);
                assert(s.drop_first()[j - 1] == s[j]);
            }
        };
    }
}

/// The digit run stops at the first non-digit (or the end).
proof fn lemma_leading_digits_maximal(s: Seq<char>)
    ensures
        leading_digits(s).len() < s.len() ==> !is_digit(s[leading_digits(s).len() as int]),
    decreases s.len(),
{
    if s.len() > 0 && is_digit(s[0]) {
        lemma_leading_digits_maximal(s.drop_first());
        let l = leading_digits(s).len();
        if l < s.len() {
            assert(leading_digits(s.drop_first()).len() == l - 1);
            assert(s.drop_first()[l - 1] == s[l as int]);
        }
    }
}

pub proof fn lemma_leading_digits_stop(s: Seq<char>, n: int)
    requires
        0 <= n,
        leading_digits(s).len() >= n,
        leading_digits(s).take(n) =~= s.take(n),
        n == s.len() || !is_digit(s[n]),
    ensures
        leading_digits(s) =~= s.take(n),
{
    lemma_leading_digits_prefix(s);
    lemma_leading_digits_maximal(s);
    if leading_digits(s).len() > n {
        assert(is_digit(s[n]));
    }
}

/// A longer digit run never has a smaller value.
pub proof fn lemma_dec_value_monotone(ds: Seq<char>)
    requires
        ds.len() > 0,
        forall|j: int| 0 <= j < ds.len() ==> is_digit(ds[j]),
    ensures
        dec_value(ds) >= dec_value(ds.drop_last()),
        dec_value(ds) >= 0,
    decreases ds.len(),
{
    if ds.len() > 1 {
        lemma_dec_value_monotone(ds.drop_last());
    }
    assert(digit_val(ds.last()) >= 0);
}

/// Reads the embedded status codes out of a multipart batch response, one
/// entry per status line; a status line whose code is missing or malformed
/// yields `None`, failing that sub-request alone while the others stand.
pub fn parse_multipart_body(body: &str) -> (r: Vec<Option<u16>>)
    ensures
        r@ == spec_parse_multipart(body@),
{
    let cs = chars_of(body);
    let ghost full = cs@;
    let mut out: Vec<Option<u16>> = Vec::new();
    let mut line: Vec<char> = Vec::new();
    let mut i: usize = 0;
    proof {
        assert(full.skip(0) =~= full);
        assert(out@ + spec_parse_lines(full, line@) =~= spec_parse_lines(full, Seq::empty()));
    }
    while i < cs.len()
        invariant
            full == cs@,
            i <= full.len(),
            spec_parse_multipart(full) == out@ + spec_parse_lines(full.skip(i as int), line@),
        decreases full.len() - i,
    {
        let c = cs[i];
        proof {
            assert(full.skip(i as int)[0] == full[i as int]);
            assert(full.skip(i as int).drop_first() =~= full.skip(i as int + 1));
        }
        if c == '\n' {
            let ghost preout = out@;
            let ghost preline = line@;
            match line_status(&line) {
                Some(entry) => {
                    out.push(entry);
                    proof {
                        assert(out@ =~= preout + seq![entry]);
                        assert(preout + status_entry(preline) =~= out@);
                    }
                },
                None => {
                    proof {
                        assert(preout + status_entry(preline) =~= out@);
                    }
                },
            }
            line = Vec::new();
            proof {
                assert(spec_parse_lines(full.skip(i as int), preline) == status_entry(preline)
                    + spec_parse_lines(full.skip(i as int + 1), Seq::empty()));
                assert((preout + status_entry(preline)) + spec_parse_lines(
                    full.skip(i as int + 1),
                    Seq::empty(),
                ) =~= preout + (status_entry(preline) + spec_parse_lines(
                    full.skip(i as int + 1),
                    Seq::empty(),
                )));
            }
        } else {
            line.push(c);
        }
        i = i + 1;
    }
    proof {
        assert(full.skip(full.len() as int) =~= Seq::<char>::empty());
    }
    match line_status(&line) {
        Some(entry) => {
            out.push(entry);
        },
        None => {},
    }
    proof {
        assert(out@ =~= spec_parse_multipart(full));
    }
    out
}

/// The taxonomy group of an emotion id: ids cycle in blocks of thirty,
/// five to a group.
pub fn get_emotion_code(id: u8) -> (r: u8)
    ensures
        r == id % 30 / 5,
{
    id % 30 / 5
}

} // verus!
