//! The program container: an owned list of signed 32-bit words, loaded either
//! directly or from the comma-separated text format.

use vstd::prelude::*;

verus! {

use crate::intcode::IntcodeError;
use vstd::string::StrSliceExecFns;
use vstd::string::StringSliceAdditionalSpecFns;

/// A program: the initial contents of a machine's memory.
#[derive(Debug)]
pub struct Intcode {
    code: Vec<i32>,
}

impl View for Intcode {
    type V = Seq<i32>;

    closed spec fn view(&self) -> Seq<i32> {
        self.code@
    }
}

impl Intcode {
    /// Wrap a word list as a program.
    pub fn new(code: Vec<i32>) -> (r: Intcode)
        ensures
            r@ == code@,
    {
        Intcode { code }
    }

    /// An independent copy of this program.
    pub fn duplicate(&self) -> (r: Intcode)
        ensures
            r@ == self@,
    {
        let mut v: Vec<i32> = Vec::new();
        let mut i: usize = 0;
        while i < self.code.len()
            invariant
                i <= self.code@.len(),
                v@ == self.code@.subrange(0, i as int),
            decreases self.code@.len() - i,
        {
            v.push(self.code[i]);
            i = i + 1;
        }
        proof {
            assert(v@ =~= self.code@);
        }
        Intcode { code: v }
    }

    /// The number of words in the program.
    pub fn len(&self) -> (n: usize)
        ensures
            n == self@.len(),
    {
        self.code.len()
    }

    /// A copy of this program with cells 1 and 2 overwritten by the two given
    /// words.
    pub fn replace(&self, noun: i32, verb: i32) -> (r: Intcode)
        requires
            self@.len() >= 3,
        ensures
            r@ == self@.update(1, noun).update(2, verb),
    {
        let mut copy = self.duplicate();
        copy.code[1] = noun;
        copy.code[2] = verb;
        copy
    }

    /// Hand the word list back, consuming the program.
    pub fn into_words(self) -> (r: Vec<i32>)
        ensures
            r@ == self@,
    {
        self.code
    }
}

/// ASCII whitespace, as trimmed from the ends of program text.
pub open spec fn is_space(b: u8) -> bool {
    b == 32 || (9 <= b && b <= 13)
}

/// An ASCII decimal digit.
pub open spec fn is_digit(b: u8) -> bool {
    48 <= b && b <= 57
}

/// How many whitespace bytes the text starts with.
pub open spec fn lead_ws(s: Seq<u8>) -> nat
    decreases s.len(),
{
    if s.len() == 0 || !is_space(s[0]) {
        0
    } else {
        1 + lead_ws(s.drop_first())
    }
}

/// How many whitespace bytes the text ends with.
pub open spec fn trail_ws(s: Seq<u8>) -> nat
    decreases s.len(),
{
    if s.len() == 0 || !is_space(s.last()) {
        0
    } else {
        1 + trail_ws(s.drop_last())
    }
}

/// The text with leading and trailing whitespace removed.
pub open spec fn trimmed(s: Seq<u8>) -> Seq<u8> {
    if lead_ws(s) == s.len() {
        Seq::empty()
    } else {
        s.subrange(lead_ws(s) as int, s.len() - trail_ws(s))
    }
}

/// The number the digit bytes spell out, most significant first.
pub open spec fn digits_val(d: Seq<u8>) -> int
    decreases d.len(),
{
    if d.len() == 0 {
        0
    } else {
        digits_val(d.drop_last()) * 10 + (d.last() - 48)
    }
}

/// Whether every byte is a decimal digit.
pub open spec fn all_digits(d: Seq<u8>) -> bool {
    forall|i: int| 0 <= i < d.len() ==> is_digit(#[trigger] d[i])
}

/// The token without its sign byte, if it carries one.
pub open spec fn token_body(t: Seq<u8>) -> Seq<u8> {
    if t.len() > 0 && (t[0] == 43 || t[0] == 45) {
        t.drop_first()
    } else {
        t
    }
}

/// Whether the token carries a minus sign.
pub open spec fn token_negative(t: Seq<u8>) -> bool {
    t.len() > 0 && t[0] == 45
}

/// The signed value the token spells out.
pub open spec fn token_value(t: Seq<u8>) -> int {
    if token_negative(t) {
        -digits_val(token_body(t))
    } else {
        digits_val(token_body(t))
    }
}

/// A well-formed token: an optional sign, at least one digit, and a value
/// within the signed 32-bit range.
pub open spec fn token_ok(t: Seq<u8>) -> bool {
    &&& token_body(t).len() > 0
    &&& all_digits(token_body(t))
    &&& -0x8000_0000 <= token_value(t) < 0x8000_0000
}

/// Where the first separator byte sits, or the text's length if there is
/// none.
pub open spec fn first_sep(s: Seq<u8>, sep: u8) -> nat
    decreases s.len(),
{
    if s.len() == 0 {
        0
    } else if s[0] == sep {
        0
    } else {
        1 + first_sep(s.drop_first(), sep)
    }
}

/// The first separator is never past the end of the text.
pub proof fn lemma_first_sep_le(s: Seq<u8>, sep: u8)
    ensures
        first_sep(s, sep) <= s.len(),
    decreases s.len(),
{
    if s.len() > 0 && s[0] != sep {
        lemma_first_sep_le(s.drop_first(), sep);
    }
}

#[via_fn]
proof fn spec_parse_tokens_decreases(s: Seq<u8>, sep: u8) {
    lemma_first_sep_le(s, sep);
}

/// The word list a separator-joined run of tokens stands for, if every
/// token is well formed.
pub open spec fn spec_parse_tokens(s: Seq<u8>, sep: u8) -> Result<Seq<i32>, IntcodeError>
    decreases s.len() via spec_parse_tokens_decreases
{
    let c = first_sep(s, sep) as int;
    let t = s.subrange(0, c);
    if !token_ok(t) {
        Err(IntcodeError::ParseError)
    } else if c == s.len() {
        Ok(seq![token_value(t) as i32])
    } else {
        match spec_parse_tokens(s.subrange(c + 1, s.len() as int), sep) {
            Ok(rest) => Ok(seq![token_value(t) as i32] + rest),
            Err(e) => Err(e),
        }
    }
}

/// The program a text spells out: trim whitespace from both ends, reject
/// empty input, then read the comma-separated tokens.
pub open spec fn spec_parse(s: Seq<u8>) -> Result<Seq<i32>, IntcodeError> {
    let t = trimmed(s);
    if t.len() == 0 {
        Err(IntcodeError::ParseError)
    } else {
        spec_parse_tokens(t, 44)
    }
}

/// The leading-whitespace count is the position of the first non-space.
proof fn lemma_lead_ws(s: Seq<u8>, i: int)
    requires
        0 <= i <= s.len(),
        forall|k: int| 0 <= k < i ==> is_space(#[trigger] s[k]),
        i < s.len() ==> !is_space(s[i]),
    ensures
        lead_ws(s) == i,
    decreases s.len(),
{
    if i == 0 {
    } else {
        assert(is_space(s[0]));
        lemma_lead_ws(s.drop_first(), i - 1);
    }
}

/// The trailing-whitespace count is the distance from the last non-space.
proof fn lemma_trail_ws(s: Seq<u8>, j: int)
    requires
        0 <= j <= s.len(),
        forall|k: int| j <= k < s.len() ==> is_space(#[trigger] s[k]),
        j > 0 ==> !is_space(s[j - 1]),
    ensures
        trail_ws(s) == s.len() - j,
    decreases s.len(),
{
    if j == s.len() {
    } else {
        assert(is_space(s.last()));
        lemma_trail_ws(s.drop_last(), j);
    }
}

/// The first-separator position is pinned by what the text shows.
proof fn lemma_first_sep(s: Seq<u8>, sep: u8, c: int)
    requires
        0 <= c <= s.len(),
        forall|k: int| 0 <= k < c ==> (#[trigger] s[k]) != sep,
        c < s.len() ==> s[c] == sep,
    ensures
        first_sep(s, sep) == c,
    decreases s.len(),
{
    if c > 0 {
        lemma_first_sep(s.drop_first(), sep, c - 1);
    }
}

/// A digit run's value is never negative.
proof fn lemma_digits_val_nonneg(d: Seq<u8>)
    requires
        all_digits(d),
    ensures
        digits_val(d) >= 0,
    decreases d.len(),
{
    if d.len() > 0 {
        assert(all_digits(d.drop_last()));
        lemma_digits_val_nonneg(d.drop_last());
    }
}

/// Reading more digits never shrinks the value.
proof fn lemma_digits_val_prefix(d: Seq<u8>, j: int)
    requires
        all_digits(d),
        0 <= j <= d.len(),
    ensures
        digits_val(d.subrange(0, j)) <= digits_val(d),
    decreases d.len() - j,
{
    if j == d.len() {
        assert(d.subrange(0, j) =~= d);
    } else {
        lemma_digits_val_prefix(d, j + 1);
        assert(d.subrange(0, j + 1).drop_last() =~= d.subrange(0, j));
        assert(all_digits(d.subrange(0, j)));
        lemma_digits_val_nonneg(d.subrange(0, j));
        assert(is_digit(d[j]));
        assert(d.subrange(0, j + 1).last() == d[j]);
    }
}

/// Read one token, the bytes `from..to`, as a signed 32-bit number.
#[verifier::rlimit(60)]
fn parse_token(bytes: &Vec<u8>, from: usize, to: usize) -> (r: Result<i32, IntcodeError>)
    requires
        from <= to <= bytes@.len(),
    ensures
        ({
            let t = bytes@.subrange(from as int, to as int);
            match r {
                Ok(v) => token_ok(t) && v as int == token_value(t),
                Err(e) => !token_ok(t) && e == IntcodeError::ParseError,
            }
        }),
{
    let ghost t = bytes@.subrange(from as int, to as int);
    let mut i = from;
    let mut neg = false;
    if i < to && (bytes[i] == 43 || bytes[i] == 45) {
        neg = bytes[i] == 45;
        i = i + 1;
    }
    let ghost start = i as int;
    let ghost body = token_body(t);
    proof {
        assert(body =~= bytes@.subrange(start, to as int));
        assert(neg == token_negative(t));
    }
    if i == to {
        return Err(IntcodeError::ParseError);
    }
    let mut acc: i64 = 0;
    while i < to
        invariant
            from as int <= start <= i as int <= to,
            to <= bytes@.len(),
            body == token_body(t),
            t == bytes@.subrange(from as int, to as int),
            body == bytes@.subrange(start, to as int),
            forall|k: int| start <= k < i as int ==> is_digit(#[trigger] bytes@[k]),
            acc == digits_val(bytes@.subrange(start, i as int)),
            0 <= acc <= 0x8000_0000,
        decreases to - i,
    {
        let b = bytes[i];
        if b < 48 || b > 57 {
            proof {
                assert(body[i - start] == bytes@[i as int]);
                assert(!all_digits(body));
            }
            return Err(IntcodeError::ParseError);
        }
        proof {
            assert(bytes@.subrange(start, i + 1).drop_last() =~= bytes@.subrange(start, i as int));
            assert(bytes@.subrange(start, i + 1).last() == bytes@[i as int]);
        }
        acc = acc * 10 + ((b - 48) as i64);
        i = i + 1;
        if acc > 0x8000_0000 {
            proof {
                if all_digits(body) {
                    assert(bytes@.subrange(start, i as int) =~= body.subrange(0, i - start));
                    lemma_digits_val_prefix(body, i as int - start);
                    assert(digits_val(body) > 0x8000_0000);
                }
                assert(!token_ok(t));
            }
            return Err(IntcodeError::ParseError);
        }
    }
    proof {
        assert(bytes@.subrange(start, to as int) =~= body);
        assert(all_digits(body));
        assert(acc == digits_val(body));
    }
    if neg {
        let v = -acc;
        Ok(v as i32)
    } else {
        if acc > 0x7FFF_FFFF {
            return Err(IntcodeError::ParseError);
        }
        Ok(acc as i32)
    }
}

/// Read the run of `sep`-joined tokens in `bytes[from..to]` as a word
/// list.
#[verifier::rlimit(100)]
pub(crate) fn parse_words(bytes: &Vec<u8>, from: usize, to: usize, sep: u8) -> (r: Result<
    Vec<i32>,
    IntcodeError,
>)
    requires
        from <= to <= bytes@.len(),
    ensures
        match spec_parse_tokens(bytes@.subrange(from as int, to as int), sep) {
            Ok(words) => r matches Ok(v) && v@ == words,
            Err(e) => r matches Err(pe) && pe == e,
        },
{
    let ghost whole = bytes@.subrange(from as int, to as int);
    let len = bytes.len();
    let mut words: Vec<i32> = Vec::new();
    let mut p: usize = from;
    proof {
        assert(bytes@.subrange(p as int, to as int) =~= whole);
        assert(words@ + Seq::<i32>::empty() =~= words@);
    }
    loop
        invariant
            from as int <= p as int <= to,
            to <= len,
            len == bytes@.len(),
            whole == bytes@.subrange(from as int, to as int),
            spec_parse_tokens(whole, sep) == (match spec_parse_tokens(
                bytes@.subrange(p as int, to as int),
                sep,
            ) {
                Ok(rest) => Ok::<Seq<i32>, IntcodeError>(words@ + rest),
                Err(e) => Err(e),
            }),
        decreases to - p,
    {
        let ghost rem = bytes@.subrange(p as int, to as int);
        let mut c: usize = p;
        while c < to && bytes[c] != sep
            invariant
                p <= c <= to,
                to <= len,
                len == bytes@.len(),
                forall|k: int| p <= k < c as int ==> (#[trigger] bytes@[k]) != sep,
            decreases to - c,
        {
            c = c + 1;
        }
        proof {
            assert forall|k: int| 0 <= k < c - p implies (#[trigger] rem[k]) != sep by {
                assert(rem[k] == bytes@[p + k]);
            }
            if (c as int) < to {
                assert(rem[c - p] == bytes@[c as int]);
            }
            lemma_first_sep(rem, sep, c as int - p as int);
            assert(rem.subrange(0, c - p) =~= bytes@.subrange(p as int, c as int));
        }
        let v = match parse_token(bytes, p, c) {
            Ok(v) => v,
            Err(e) => {
                return Err(e);
            },
        };
        let ghost w0 = words@;
        words.push(v);
        if c == to {
            proof {
                assert(spec_parse_tokens(rem, sep) == Ok::<Seq<i32>, IntcodeError>(
                    seq![token_value(rem.subrange(0, c - p)) as i32],
                ));
                assert(w0 + seq![token_value(rem.subrange(0, c - p)) as i32] =~= words@);
            }
            return Ok(words);
        }
        proof {
            let tail = bytes@.subrange(c + 1, to as int);
            let c0 = c as int - p as int;
            let tok = rem.subrange(0, c0);
            assert(first_sep(rem, sep) == c0);
            assert(token_ok(tok));
            assert(token_value(tok) as i32 == v);
            assert(seq![token_value(tok) as i32] =~= seq![v]);
            assert(rem.subrange(c0 + 1, rem.len() as int) =~= tail);
            assert(spec_parse_tokens(rem, sep) == (match spec_parse_tokens(tail, sep) {
                Ok(rest2) => Ok::<Seq<i32>, IntcodeError>(seq![v] + rest2),
                Err(e) => Err(e),
            }));
            match spec_parse_tokens(tail, sep) {
                Ok(rest2) => {
                    assert(w0 + (seq![v] + rest2) =~= words@ + rest2);
                },
                Err(_) => {},
            }
            assert(spec_parse_tokens(whole, sep) == (match spec_parse_tokens(tail, sep) {
                Ok(rest) => Ok::<Seq<i32>, IntcodeError>(words@ + rest),
                Err(e) => Err(e),
            }));
        }
        p = c + 1;
    }
}

impl Intcode {
    /// Parse the text form of a program: a comma-separated list of base-10
    /// signed integers, whitespace-trimmed at both ends; any malformed
    /// token, or empty input, is rejected.
    pub fn parse(s: &str) -> (r: Result<Intcode, IntcodeError>)
        ensures
            match spec_parse(s.spec_bytes()) {
                Ok(words) => r matches Ok(code) && code@ == words,
                Err(e) => r matches Err(pe) && pe == e,
            },
    {
        let bytes = s.as_bytes_vec();
        let len = bytes.len();
        let mut start: usize = 0;
        while start < len && is_space_byte(bytes[start])
            invariant
                start <= len,
                len == bytes@.len(),
                bytes@ == s.spec_bytes(),
                forall|k: int| 0 <= k < start ==> is_space(#[trigger] bytes@[k]),
            decreases len - start,
        {
            start = start + 1;
        }
        proof {
            lemma_lead_ws(bytes@, start as int);
        }
        if start == len {
            proof {
                assert(trimmed(bytes@).len() == 0);
            }
            return Err(IntcodeError::ParseError);
        }
        let mut end: usize = len;
        while end > start && is_space_byte(bytes[end - 1])
            invariant
                start <= end <= len,
                len == bytes@.len(),
                bytes@ == s.spec_bytes(),
                forall|k: int| end <= k < len ==> is_space(#[trigger] bytes@[k]),
                !is_space(bytes@[start as int]),
            decreases end,
        {
            end = end - 1;
        }
        proof {
            assert(end > start);
            lemma_trail_ws(bytes@, end as int);
            assert(trimmed(bytes@) == bytes@.subrange(start as int, end as int));
        }
        match parse_words(&bytes, start, end, 44) {
            Ok(words) => Ok(Intcode { code: words }),
            Err(e) => Err(e),
        }
    }
}

/// Whether the byte is ASCII whitespace.
fn is_space_byte(b: u8) -> (r: bool)
    ensures
        r == is_space(b),
{
    b == 32 || (9 <= b && b <= 13)
}

} // verus!
