//! The reader: text to values.
//!
//! Grammar: a value is `nil`, `t` (or `T`), an unsigned decimal integer, a
//! `-` followed by decimal digits, a double-quoted string (no escapes), a
//! symbol (a run of characters other than white space, parentheses, double
//! quotes and `'`), a parenthesised list of values, or `'` followed by a
//! value, which quotes it. The input holds one value, with white space
//! around it; an input of white space alone reads as `nil`.
use vstd::prelude::*;
use vstd::string::StringExecFns;
use crate::error::push_str;
use crate::source::{Source, Span, SpanPosition};
use crate::text::{chars_of, string_of};
use crate::value::{datums, lemma_datums_len, lemma_datums_push, list_of, Datum, Value};

verus! {

broadcast use vstd::std_specs::vec::group_vec_axioms, vstd::seq::group_seq_axioms;

/// A failure to read: a message, and where in the input it happened.
#[derive(Debug, PartialEq, Eq)]
pub struct ParseError {
    pub message: String,
    pub info: Option<Span>,
}

impl ParseError {
    pub fn new(message: String, info: Option<Span>) -> (r: ParseError)
        ensures
            r.message@ == message@,
            r.info == info,
    {
        ParseError { message, info }
    }

    pub fn message(&self) -> (r: &String)
        ensures
            r@ == self.message@,
    {
        &self.message
    }
}

/// A failure inside the reader, at an index of the input.
struct Failure {
    message: Vec<char>,
    at: usize,
}

pub open spec fn is_space(c: char) -> bool {
    c == ' ' || c == '\t' || c == '\n' || c == '\r'
}

/// Characters that end a symbol or a number.
pub open spec fn is_delimiter(c: char) -> bool {
    is_space(c) || c == '(' || c == ')' || c == '"' || c == '\''
}

pub open spec fn is_digit(c: char) -> bool {
    '0' <= c && c <= '9'
}

/// Whether the input holds nothing but white space.
pub open spec fn blank(s: Seq<char>) -> bool {
    forall|i: int| 0 <= i < s.len() ==> is_space(#[trigger] s[i])
}

fn space(c: char) -> (r: bool)
    ensures
        r == is_space(c),
{
    c == ' ' || c == '\t' || c == '\n' || c == '\r'
}

fn delimiter(c: char) -> (r: bool)
    ensures
        r == is_delimiter(c),
{
    space(c) || c == '(' || c == ')' || c == '"' || c == '\''
}

/// The first index at or after `p` that does not hold white space.
pub open spec fn skip_spaces(s: Seq<char>, p: int) -> int
    decreases s.len() - p,
{
    if 0 <= p < s.len() && is_space(s[p]) {
        skip_spaces(s, p + 1)
    } else {
        p
    }
}

/// The first index at or after `p` that holds a delimiter (or the end).
pub open spec fn token_end(s: Seq<char>, p: int) -> int
    decreases s.len() - p,
{
    if 0 <= p < s.len() && !is_delimiter(s[p]) {
        token_end(s, p + 1)
    } else {
        p
    }
}

/// The first index at or after `p` that holds a double quote (or the end).
pub open spec fn quote_end(s: Seq<char>, p: int) -> int
    decreases s.len() - p,
{
    if 0 <= p < s.len() && s[p] != '"' {
        quote_end(s, p + 1)
    } else {
        p
    }
}

/// The value of a decimal digit.
pub open spec fn digit_of(c: char) -> nat {
    if c == '1' { 1 }
    else if c == '2' { 2 }
    else if c == '3' { 3 }
    else if c == '4' { 4 }
    else if c == '5' { 5 }
    else if c == '6' { 6 }
    else if c == '7' { 7 }
    else if c == '8' { 8 }
    else if c == '9' { 9 }
    else { 0 }
}

/// The number written by the decimal digits `t`.
pub open spec fn dec_value(t: Seq<char>) -> nat
    decreases t.len(),
{
    if t.len() == 0 {
        0
    } else {
        dec_value(t.drop_last()) * 10 + digit_of(t.last())
    }
}

pub open spec fn all_digit(t: Seq<char>) -> bool {
    forall|i: int| 0 <= i < t.len() ==> is_digit(#[trigger] t[i])
}

/// The atom a token stands for: `nil`, `t` or `T`, an unsigned or a
/// negative decimal integer that fits in 64 bits, or else a symbol; a
/// token that starts like a number but is none is rejected.
pub open spec fn atom(t: Seq<char>) -> Option<Datum> {
    if t == seq!['n', 'i', 'l'] {
        Some(Datum::Nil)
    } else if t == seq!['t'] || t == seq!['T'] {
        Some(Datum::T)
    } else if all_digit(t) {
        if dec_value(t) <= u64::MAX { Some(Datum::UnsignedInteger(dec_value(t) as u64)) } else { None }
    } else if t.len() >= 2 && t[0] == '-' && all_digit(t.drop_first()) {
        if dec_value(t.drop_first()) <= 9223372036854775808 {
            Some(Datum::Integer((0 - dec_value(t.drop_first())) as i64))
        } else {
            None
        }
    } else if t.len() > 0 && (is_digit(t[0]) || (t.len() >= 2 && t[0] == '-' && is_digit(t[1]))) {
        None
    } else {
        Some(Datum::Symbol(t))
    }
}

/// The value written at `p` (after white space) and the index just past
/// it, with at most `fuel` nested reads.
pub open spec fn read(s: Seq<char>, p: int, fuel: nat) -> Option<(Datum, int)>
    decreases fuel, 0nat,
{
    if fuel == 0 {
        None
    } else {
        let q = skip_spaces(s, p);
        if q < 0 || q >= s.len() {
            None
        } else if s[q] == '(' {
            match read_items(s, q + 1, (fuel - 1) as nat) {
                Some((ds, e)) => Some((list_of(ds), e)),
                None => None,
            }
        } else if s[q] == ')' {
            None
        } else if s[q] == '\'' {
            if q + 1 >= s.len() || is_space(s[q + 1]) {
                None
            } else {
                match read(s, q + 1, (fuel - 1) as nat) {
                    Some((d, e)) => Some((crate::value::quote_of(d), e)),
                    None => None,
                }
            }
        } else if s[q] == '"' {
            let e = quote_end(s, q + 1);
            if e >= s.len() {
                None
            } else {
                Some((Datum::Text(s.subrange(q + 1, e)), e + 1))
            }
        } else {
            let e = token_end(s, q + 1);
            match atom(s.subrange(q, e)) {
                Some(d) => Some((d, e)),
                None => None,
            }
        }
    }
}

/// The elements of a list from `p` up to its closing parenthesis, and the
/// index just past that parenthesis.
pub open spec fn read_items(s: Seq<char>, p: int, fuel: nat) -> Option<(Seq<Datum>, int)>
    decreases fuel, 1nat,
{
    if fuel == 0 {
        None
    } else {
        let q = skip_spaces(s, p);
        if q < 0 || q >= s.len() {
            None
        } else if s[q] == ')' {
            Some((Seq::empty(), q + 1))
        } else {
            match read(s, q, (fuel - 1) as nat) {
                Some((d, e)) => match read_items(s, e, (fuel - 1) as nat) {
                    Some((ds, e2)) => Some((seq![d] + ds, e2)),
                    None => None,
                },
                None => None,
            }
        }
    }
}

/// The nesting budget for reading `s`.
pub open spec fn budget(s: Seq<char>) -> nat {
    if s.len() <= 1000000000 {
        2 * s.len() + 2
    } else {
        2000000002
    }
}

/// What the input `s` reads as: `Nil` for white space alone, else the one
/// value it holds with nothing but white space after it.
pub open spec fn reads(s: Seq<char>) -> Option<Datum> {
    let q = skip_spaces(s, 0);
    if q >= s.len() {
        Some(Datum::Nil)
    } else {
        match read(s, q, budget(s)) {
            Some((d, e)) => if skip_spaces(s, e) >= s.len() {
                Some(d)
            } else {
                None
            },
            None => None,
        }
    }
}

proof fn lemma_blank_skips(s: Seq<char>, p: int)
    requires
        blank(s),
        0 <= p,
    ensures
        skip_spaces(s, p) >= s.len(),
    decreases s.len() - p,
{
    if p < s.len() {
        lemma_blank_skips(s, p + 1);
    }
}

fn skip_space(chars: &Vec<char>, pos: usize) -> (r: usize)
    requires
        pos <= chars@.len(),
    ensures
        r == skip_spaces(chars@, pos as int),
        pos <= r <= chars@.len(),
{
    let mut p = pos;
    while p < chars.len() && space(chars[p])
        invariant
            pos <= p <= chars@.len(),
            skip_spaces(chars@, pos as int) == skip_spaces(chars@, p as int),
        decreases chars@.len() - p,
    {
        p = p + 1;
    }
    p
}

fn fail(text: &str, at: usize) -> (r: Failure)
    ensures
        r.at == at,
{
    let mut message: Vec<char> = Vec::new();
    push_str(&mut message, text);
    Failure { message, at }
}

fn digit_value(c: char) -> (r: u64)
    requires
        is_digit(c),
    ensures
        r == digit_of(c),
{
    if c == '0' { 0 }
    else if c == '1' { 1 }
    else if c == '2' { 2 }
    else if c == '3' { 3 }
    else if c == '4' { 4 }
    else if c == '5' { 5 }
    else if c == '6' { 6 }
    else if c == '7' { 7 }
    else if c == '8' { 8 }
    else { 9 }
}

proof fn lemma_dec_value_grows(t: Seq<char>, k: int)
    requires
        0 <= k <= t.len(),
    ensures
        dec_value(t.subrange(0, k)) <= dec_value(t),
    decreases t.len(),
{
    if k < t.len() {
        assert(t.drop_last() =~= t.subrange(0, t.len() - 1));
        lemma_dec_value_grows(t.drop_last(), k);
        assert(t.drop_last().subrange(0, k) =~= t.subrange(0, k));
    } else {
        assert(t.subrange(0, k) =~= t);
    }
}

/// The decimal number written in `chars[a..b]`, all digits; `None` when it
/// does not fit in 64 bits.
fn read_decimal(chars: &Vec<char>, a: usize, b: usize) -> (r: Option<u64>)
    requires
        a <= b <= chars@.len(),
        all_digit(chars@.subrange(a as int, b as int)),
    ensures
        r == if dec_value(chars@.subrange(a as int, b as int)) <= u64::MAX {
            Some(dec_value(chars@.subrange(a as int, b as int)) as u64)
        } else {
            None::<u64>
        },
{
    let ghost t = chars@.subrange(a as int, b as int);
    let mut n: u64 = 0;
    let mut i: usize = a;
    assert(t.subrange(0, 0) =~= Seq::<char>::empty());
    while i < b
        invariant
            a <= i <= b,
            b <= chars@.len(),
            t == chars@.subrange(a as int, b as int),
            all_digit(t),
            n == dec_value(t.subrange(0, i - a)),
        decreases b - i,
    {
        assert(is_digit(t[i - a]));
        let d = digit_value(chars[i]);
        proof {
            assert(t.subrange(0, i - a + 1).drop_last() =~= t.subrange(0, i - a));
            assert(t.subrange(0, i - a + 1).last() == chars@[i as int]);
        }
        n = match n.checked_mul(10) {
            Some(m) => match m.checked_add(d) {
                Some(s) => s,
                None => {
                    proof {
                        lemma_dec_value_grows(t, i - a + 1);
                    }
                    return None;
                },
            },
            None => {
                proof {
                    lemma_dec_value_grows(t, i - a + 1);
                }
                return None;
            },
        };
        i = i + 1;
    }
    assert(t.subrange(0, b - a) =~= t);
    Some(n)
}

fn all_digits(chars: &Vec<char>, a: usize, b: usize) -> (r: bool)
    requires
        a <= b <= chars@.len(),
    ensures
        r == all_digit(chars@.subrange(a as int, b as int)),
{
    let mut i: usize = a;
    while i < b
        invariant
            a <= i <= b,
            b <= chars@.len(),
            forall|k: int| a <= k < i ==> is_digit(#[trigger] chars@[k]),
        decreases b - i,
    {
        if !('0' <= chars[i] && chars[i] <= '9') {
            assert(!is_digit(chars@.subrange(a as int, b as int)[i - a]));
            return false;
        }
        i = i + 1;
    }
    assert forall|k: int| 0 <= k < b - a implies is_digit(
        #[trigger] chars@.subrange(a as int, b as int)[k],
    ) by {
        assert(chars@.subrange(a as int, b as int)[k] == chars@[a + k]);
    }
    true
}

fn slice_string(chars: &Vec<char>, a: usize, b: usize) -> (r: String)
    requires
        a <= b <= chars@.len(),
    ensures
        r@ == chars@.subrange(a as int, b as int),
{
    let mut out: Vec<char> = Vec::new();
    let mut i: usize = a;
    while i < b
        invariant
            a <= i <= b,
            b <= chars@.len(),
            out@ == chars@.subrange(a as int, i as int),
        decreases b - i,
    {
        out.push(chars[i]);
        i = i + 1;
        assert(out@ =~= chars@.subrange(a as int, i as int));
    }
    string_of(&out)
}

/// Reads the atom written in `chars[a..b]`, a run of non-delimiters.
fn read_atom(chars: &Vec<char>, a: usize, b: usize) -> (r: Result<Value, Failure>)
    requires
        a < b <= chars@.len(),
    ensures
        match atom(chars@.subrange(a as int, b as int)) {
            Some(d) => r is Ok && r->Ok_0@ == d,
            None => r is Err && r->Err_0.at == a,
        },
{
    let ghost t = chars@.subrange(a as int, b as int);
    let n = b - a;
    proof {
        assert(t.len() == n);
        if n >= 1 {
            assert(t[0] == chars@[a as int]);
        }
        if n >= 2 {
            assert(t[1] == chars@[a + 1]);
        }
        if n >= 3 {
            assert(t[2] == chars@[a + 2]);
        }
    }
    if n == 3 && chars[a] == 'n' && chars[a + 1] == 'i' && chars[a + 2] == 'l' {
        assert(t =~= seq!['n', 'i', 'l']);
        return Ok(Value::Nil);
    }
    if n == 1 && (chars[a] == 't' || chars[a] == 'T') {
        assert(t =~= seq!['t'] || t =~= seq!['T']);
        return Ok(Value::T);
    }
    assert(t != seq!['n', 'i', 'l'] && t != seq!['t'] && t != seq!['T']) by {
        if t == seq!['n', 'i', 'l'] {
            assert(t[0] == 'n' && t[1] == 'i' && t[2] == 'l');
        }
        if t == seq!['t'] || t == seq!['T'] {
            assert(t.len() == 1);
        }
    }
    if all_digits(chars, a, b) {
        return match read_decimal(chars, a, b) {
            Some(u) => Ok(Value::UnsignedInteger(u)),
            None => Err(fail("integer literal out of range", a)),
        };
    }
    if n >= 2 && chars[a] == '-' && all_digits(chars, a + 1, b) {
        proof {
            assert(t.drop_first() =~= chars@.subrange(a + 1, b as int));
        }
        return match read_decimal(chars, a + 1, b) {
            Some(m) => if m <= 9223372036854775807u64 {
                Ok(Value::Integer(-(m as i64)))
            } else if m == 9223372036854775808u64 {
                Ok(Value::Integer(i64::MIN))
            } else {
                Err(fail("integer literal out of range", a))
            },
            None => Err(fail("integer literal out of range", a)),
        };
    }
    proof {
        if n >= 2 && chars@[a as int] == '-' {
            assert(t.drop_first() =~= chars@.subrange(a + 1, b as int));
        }
    }
    let numeric_start = ('0' <= chars[a] && chars[a] <= '9') || (n >= 2 && chars[a] == '-' && '0'
        <= chars[a + 1] && chars[a + 1] <= '9');
    if numeric_start {
        return Err(fail("malformed or floating-point number literal", a));
    }
    Ok(Value::Symbol(slice_string(chars, a, b)))
}

/// Reads one value starting at `pos` (after white space), with at most
/// `fuel` nested reads; returns it with the index just past it.
fn read_value(chars: &Vec<char>, pos: usize, fuel: u64) -> (r: Result<(Value, usize), Failure>)
    requires
        pos <= chars@.len(),
    ensures
        match read(chars@, pos as int, fuel as nat) {
            Some((d, e)) => r is Ok && r->Ok_0.0@ == d && r->Ok_0.1 == e && pos < e <= chars@.len(),
            None => r is Err && r->Err_0.at <= chars@.len(),
        },
    decreases fuel,
{
    if fuel == 0 {
        return Err(fail("input nested too deeply", pos));
    }
    let p = skip_space(chars, pos);
    if p >= chars.len() {
        return Err(fail("unexpected end of input", p));
    }
    let c = chars[p];
    if c == '(' {
        match read_list(chars, p + 1, fuel - 1) {
            Ok((items, next)) => {
                proof {
                    lemma_datums_len(items@);
                }
                Ok((Value::list(items), next))
            },
            Err(e) => Err(e),
        }
    } else if c == ')' {
        Err(fail("unexpected ')'", p))
    } else if c == '\'' {
        if p + 1 >= chars.len() || space(chars[p + 1]) {
            return Err(fail("nothing to quote", p));
        }
        match read_value(chars, p + 1, fuel - 1) {
            Ok((v, next)) => Ok((v.quote(), next)),
            Err(e) => Err(e),
        }
    } else if c == '"' {
        let mut q = p + 1;
        while q < chars.len() && chars[q] != '"'
            invariant
                p < q <= chars@.len(),
                quote_end(chars@, p + 1) == quote_end(chars@, q as int),
            decreases chars@.len() - q,
        {
            q = q + 1;
        }
        if q >= chars.len() {
            return Err(fail("unterminated string", p));
        }
        Ok((Value::String(slice_string(chars, p + 1, q)), q + 1))
    } else {
        let mut q = p + 1;
        while q < chars.len() && !delimiter(chars[q])
            invariant
                p < q <= chars@.len(),
                token_end(chars@, p + 1) == token_end(chars@, q as int),
            decreases chars@.len() - q,
        {
            q = q + 1;
        }
        match read_atom(chars, p, q) {
            Ok(v) => Ok((v, q)),
            Err(e) => Err(e),
        }
    }
}

/// Reads the elements of a list whose `(` stands just before `start`, up to
/// and including its `)`.
fn read_list(chars: &Vec<char>, start: usize, fuel: u64) -> (r: Result<(Vec<Value>, usize), Failure>)
    requires
        0 < start <= chars@.len(),
    ensures
        match read_items(chars@, start as int, fuel as nat) {
            Some((ds, e)) => r is Ok && datums(r->Ok_0.0@) == ds && r->Ok_0.1 == e && start < e
                <= chars@.len(),
            None => r is Err && r->Err_0.at <= chars@.len(),
        },
    decreases fuel,
{
    let mut items: Vec<Value> = Vec::new();
    let mut p = start;
    let mut f = fuel;
    proof {
        assert(datums(Seq::<Value>::empty()) =~= Seq::<Datum>::empty());
        assert(items@ =~= Seq::<Value>::empty());
        match read_items(chars@, start as int, fuel as nat) {
            Some((ds, e)) => {
                assert(Seq::<Datum>::empty() + ds =~= ds);
            },
            None => {},
        }
    }
    loop
        invariant
            0 < start <= p <= chars@.len(),
            f <= fuel,
            read_items(chars@, start as int, fuel as nat) == match read_items(
                chars@,
                p as int,
                f as nat,
            ) {
                Some((ds, e)) => Some((datums(items@) + ds, e)),
                None => None,
            },
        decreases f,
    {
        if f == 0 {
            return Err(fail("input nested too deeply", p));
        }
        p = skip_space(chars, p);
        if p >= chars.len() {
            return Err(fail("unclosed list", start - 1));
        }
        if chars[p] == ')' {
            proof {
                assert(datums(items@) + Seq::<Datum>::empty() =~= datums(items@));
            }
            return Ok((items, p + 1));
        }
        match read_value(chars, p, f - 1) {
            Ok((v, next)) => {
                proof {
                    lemma_datums_push(items@, v);
                    match read_items(chars@, next as int, (f - 1) as nat) {
                        Some((ds, e)) => {
                            assert(datums(items@).push(v@) + ds =~= datums(items@) + (seq![v@] + ds));
                        },
                        None => {},
                    }
                }
                items.push(v);
                p = next;
                f = f - 1;
            },
            Err(e) => {
                return Err(e);
            },
        }
    }
}

/// The line and column (both from one) of index `pos` of `chars`.
fn line_col(chars: &Vec<char>, pos: usize) -> (r: (usize, usize))
    requires
        pos <= chars@.len(),
    ensures
        r.0 >= 1 && r.1 >= 1,
{
    let mut line: usize = 1;
    let mut column: usize = 1;
    let mut i: usize = 0;
    while i < pos
        invariant
            i <= pos <= chars@.len(),
            1 <= line,
            1 <= column,
        decreases pos - i,
    {
        if chars[i] == '\n' {
            if line < usize::MAX {
                line = line + 1;
            }
            column = 1;
        } else if column < usize::MAX {
            column = column + 1;
        }
        i = i + 1;
    }
    (line, column)
}

/// The line of `chars` that holds index `pos`.
fn line_text(chars: &Vec<char>, pos: usize) -> (r: String)
    requires
        pos <= chars@.len(),
{
    let mut a = pos;
    while a > 0 && chars[a - 1] != '\n'
        invariant
            a <= pos <= chars@.len(),
        decreases a,
    {
        a = a - 1;
    }
    let mut b = pos;
    while b < chars.len() && chars[b] != '\n'
        invariant
            pos <= b <= chars@.len(),
        decreases chars@.len() - b,
    {
        b = b + 1;
    }
    slice_string(chars, a, b)
}

/// The reader of the language.
pub struct MinilispSource;

impl MinilispSource {
    /// Reads the one value that `input` holds.
    pub fn parse(input: &str) -> (r: Result<Value, ParseError>)
        ensures
            match reads(input@) {
                Some(d) => r is Ok && r->Ok_0@ == d,
                None => r is Err,
            },
            blank(input@) ==> r is Ok && r->Ok_0@ == Datum::Nil,
    {
        let chars = chars_of(input);
        let p = skip_space(&chars, 0);
        proof {
            if blank(input@) {
                lemma_blank_skips(input@, 0);
            }
        }
        if p >= chars.len() {
            return Ok(Value::Nil);
        }
        let fuel: u64 = if chars.len() <= 1000000000 {
            2 * (chars.len() as u64) + 2
        } else {
            2000000002
        };
        let failure = match read_value(&chars, p, fuel) {
            Ok((v, next)) => {
                let rest = skip_space(&chars, next);
                if rest >= chars.len() {
                    return Ok(v);
                }
                fail("unexpected input after the value", rest)
            },
            Err(e) => e,
        };
        let at = if failure.at <= chars.len() { failure.at } else { chars.len() };
        let (line, column) = line_col(&chars, at);
        let span = Span {
            input: line_text(&chars, at),
            name: None,
            start_pos: SpanPosition::from_tuple((line, column)),
            end_pos: SpanPosition::from_tuple((line, column)),
            source: Source::without_filename(input),
            inner: None,
        };
        Err(ParseError::new(string_of(&failure.message), Some(span)))
    }
}

/// Reads the one value that `input` holds (see [`MinilispSource::parse`]).
pub fn parse_source(input: &str) -> (r: Result<Value, ParseError>)
    ensures
        match reads(input@) {
            Some(d) => r is Ok && r->Ok_0@ == d,
            None => r is Err,
        },
        blank(input@) ==> r is Ok && r->Ok_0@ == Datum::Nil,
{
    MinilispSource::parse(input)
}

} // verus!
