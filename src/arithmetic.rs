//! Folding arithmetic over numeric values.
use vstd::prelude::*;
use crate::error::{push_str, runtime_error, Error, ErrorType};
use crate::table::Builtin;
use crate::value::{datum, datums, lemma_datums_index, lemma_datums_len, Datum, Value};

verus! {

broadcast use vstd::std_specs::vec::group_vec_axioms, vstd::seq::group_seq_axioms;

/// Whether `op` is one of the four arithmetic builtins.
pub open spec fn is_arithmetic(op: Builtin) -> bool {
    op is Add || op is Sub || op is Mul || op is Div
}

/// A numeric value read as an unsigned integer, when it is one.
pub open spec fn as_unsigned(d: Datum) -> Option<u64> {
    match d {
        Datum::Byte(b) => Some(b as u64),
        Datum::UnsignedInteger(u) => Some(u),
        Datum::Integer(i) => if i >= 0 { Some(i as u64) } else { None },
        _ => None,
    }
}

/// A numeric value read as a signed integer, when it is one.
pub open spec fn as_signed(d: Datum) -> Option<i64> {
    match d {
        Datum::Byte(b) => Some(b as i64),
        Datum::UnsignedInteger(u) => if u <= i64::MAX { Some(u as i64) } else { None },
        Datum::Integer(i) => Some(i),
        _ => None,
    }
}

/// `a op b` on unsigned integers; `None` on overflow or division by zero.
pub open spec fn apply_unsigned(op: Builtin, a: u64, b: u64) -> Option<u64> {
    if op is Add {
        if a + b <= u64::MAX { Some((a + b) as u64) } else { None }
    } else if op is Sub {
        if a >= b { Some((a - b) as u64) } else { None }
    } else if op is Mul {
        if a * b <= u64::MAX { Some((a * b) as u64) } else { None }
    } else {
        if b == 0 { None } else { Some(a / b) }
    }
}

/// `a op b` on signed integers, division truncating toward zero; `None` on
/// overflow or division by zero.
pub open spec fn apply_signed(op: Builtin, a: i64, b: i64) -> Option<i64> {
    if op is Add {
        a.checked_add(b)
    } else if op is Sub {
        a.checked_sub(b)
    } else if op is Mul {
        a.checked_mul(b)
    } else {
        a.checked_div(b)
    }
}

/// `acc op s[0] op s[1] ...`, left to right, on unsigned integers.
pub open spec fn fold_unsigned(op: Builtin, acc: u64, s: Seq<Datum>) -> Option<u64>
    decreases s.len(),
{
    if s.len() == 0 {
        Some(acc)
    } else {
        match as_unsigned(s[0]) {
            Some(x) => match apply_unsigned(op, acc, x) {
                Some(y) => fold_unsigned(op, y, s.drop_first()),
                None => None,
            },
            None => None,
        }
    }
}

/// `acc op s[0] op s[1] ...`, left to right, on signed integers.
pub open spec fn fold_signed(op: Builtin, acc: i64, s: Seq<Datum>) -> Option<i64>
    decreases s.len(),
{
    if s.len() == 0 {
        Some(acc)
    } else {
        match as_signed(s[0]) {
            Some(x) => match apply_signed(op, acc, x) {
                Some(y) => fold_signed(op, y, s.drop_first()),
                None => None,
            },
            None => None,
        }
    }
}

/// The fold of `operands` onto `first`, in the type of `first`.
pub open spec fn folded(op: Builtin, first: Datum, operands: Seq<Datum>) -> Option<Datum> {
    match first {
        Datum::UnsignedInteger(u) => match fold_unsigned(op, u, operands) {
            Some(x) => Some(Datum::UnsignedInteger(x)),
            None => None,
        },
        Datum::Integer(i) => match fold_signed(op, i, operands) {
            Some(x) => Some(Datum::Integer(x)),
            None => None,
        },
        _ => None,
    }
}

/// `r` is `Ok` with model `d` when `o` is `Some(d)`, and a runtime error otherwise.
pub open spec fn result_matches(r: Result<Value, Error>, o: Option<Datum>) -> bool {
    match o {
        Some(d) => r is Ok && r->Ok_0@ == d,
        None => r is Err && r->Err_0.kind == ErrorType::RuntimeError,
    }
}

fn to_unsigned(v: &Value) -> (r: Option<u64>)
    ensures
        r == as_unsigned(v@),
{
    match v {
        Value::Byte(b) => Some(*b as u64),
        Value::UnsignedInteger(u) => Some(*u),
        Value::Integer(i) => if *i >= 0 { Some(*i as u64) } else { None },
        _ => None,
    }
}

fn to_signed(v: &Value) -> (r: Option<i64>)
    ensures
        r == as_signed(v@),
{
    match v {
        Value::Byte(b) => Some(*b as i64),
        Value::UnsignedInteger(u) => if *u <= i64::MAX as u64 { Some(*u as i64) } else { None },
        Value::Integer(i) => Some(*i),
        _ => None,
    }
}

fn step_unsigned(op: Builtin, a: u64, b: u64) -> (r: Option<u64>)
    ensures
        r == apply_unsigned(op, a, b),
{
    match op {
        Builtin::Add => a.checked_add(b),
        Builtin::Sub => a.checked_sub(b),
        Builtin::Mul => a.checked_mul(b),
        _ => a.checked_div(b),
    }
}

fn step_signed(op: Builtin, a: i64, b: i64) -> (r: Option<i64>)
    ensures
        r == apply_signed(op, a, b),
{
    match op {
        Builtin::Add => a.checked_add(b),
        Builtin::Sub => a.checked_sub(b),
        Builtin::Mul => a.checked_mul(b),
        _ => a.checked_div(b),
    }
}

fn failure(text: &str) -> (r: Error)
    ensures
        r.kind == ErrorType::RuntimeError,
{
    let mut m: Vec<char> = Vec::new();
    push_str(&mut m, text);
    runtime_error(m)
}

/// Folds `operands` onto `first` with `op`, left to right, in the numeric
/// type of `first` (unsigned or signed). Each operand is converted to that
/// type; an operand that is not a number or does not fit, an overflow, and
/// a division by zero are runtime errors.
pub fn fold_numbers(op: Builtin, first: &Value, operands: &Vec<Value>) -> (r: Result<Value, Error>)
    ensures
        result_matches(r, folded(op, first@, datums(operands@))),
{
    proof {
        lemma_datums_len(operands@);
    }
    let ghost s = datums(operands@);
    match first {
        Value::UnsignedInteger(u) => {
            let mut acc: u64 = *u;
            let mut i: usize = 0;
            assert(s.subrange(0, s.len() as int) =~= s);
            while i < operands.len()
                invariant
                    i <= operands.len(),
                    s.len() == operands@.len(),
                    s == datums(operands@),
                    first@ == Datum::UnsignedInteger(*u),
                    fold_unsigned(op, *u, s) == fold_unsigned(op, acc, s.subrange(i as int, s.len() as int)),
                decreases operands.len() - i,
            {
                proof {
                    lemma_datums_index(operands@, i as int);
                    assert(s.subrange(i as int, s.len() as int).drop_first() =~= s.subrange(i + 1, s.len() as int));
                    assert(s.subrange(i as int, s.len() as int)[0] == datum(operands@[i as int]));
                }
                let x = match to_unsigned(&operands[i]) {
                    Some(x) => x,
                    None => {
                        return Err(failure("operand is not an unsigned integer"));
                    },
                };
                acc = match step_unsigned(op, acc, x) {
                    Some(y) => y,
                    None => {
                        return Err(failure("arithmetic overflow or division by zero"));
                    },
                };
                i = i + 1;
            }
            Ok(Value::UnsignedInteger(acc))
        },
        Value::Integer(n) => {
            let mut acc: i64 = *n;
            let mut i: usize = 0;
            assert(s.subrange(0, s.len() as int) =~= s);
            while i < operands.len()
                invariant
                    i <= operands.len(),
                    s.len() == operands@.len(),
                    s == datums(operands@),
                    first@ == Datum::Integer(*n),
                    fold_signed(op, *n, s) == fold_signed(op, acc, s.subrange(i as int, s.len() as int)),
                decreases operands.len() - i,
            {
                proof {
                    lemma_datums_index(operands@, i as int);
                    assert(s.subrange(i as int, s.len() as int).drop_first() =~= s.subrange(i + 1, s.len() as int));
                    assert(s.subrange(i as int, s.len() as int)[0] == datum(operands@[i as int]));
                }
                let x = match to_signed(&operands[i]) {
                    Some(x) => x,
                    None => {
                        return Err(failure("operand is not a signed integer"));
                    },
                };
                acc = match step_signed(op, acc, x) {
                    Some(y) => y,
                    None => {
                        return Err(failure("arithmetic overflow or division by zero"));
                    },
                };
                i = i + 1;
            }
            Ok(Value::Integer(acc))
        },
        _ => Err(failure("arithmetic on a non-numerical value")),
    }
}

} // verus!
