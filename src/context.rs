//! One evaluation frame: the evaluator, function calls and the builtins.
use vstd::prelude::*;
use vstd::string::StringExecFns;
use crate::arithmetic::{fold_numbers, folded, is_arithmetic, result_matches};
use crate::error::{push_str, runtime_error, Error, ErrorType};
use crate::render::{write_decimal, write_value};
use crate::table::{sym_model, sym_value, Builtin, Function, Sym, SymModel, SymbolTable};
use crate::text::string_of;
use crate::value::{
    append, car, cdr, cons, datum, datums, elements, is_list, is_nil, is_quoted, lemma_datums_index,
    lemma_datums_len, lemma_datums_push, list_of, Datum, Value,
};

verus! {

broadcast use vstd::std_specs::vec::group_vec_axioms, vstd::seq::group_seq_axioms;

/// A value that evaluation leaves as it is when it stands as an argument:
/// anything quoted, and every scalar but a symbol.
pub open spec fn inert(d: Datum) -> bool {
    is_quoted(d) || !(d is Symbol || d is List)
}

/// A scalar other than a symbol or `Nil`.
pub open spec fn is_scalar(d: Datum) -> bool {
    d is T || d is Byte || d is UnsignedInteger || d is Integer || d is Text
}

/// An element of a list evaluated as data: an unquoted symbol stands for
/// its binding, everything else for itself.
pub open spec fn literal(t: SymbolTable, d: Datum) -> Datum {
    match d {
        Datum::Symbol(n) => sym_value(t.resolved(n)),
        _ => d,
    }
}

/// Whether the first element of the list `d` is a symbol bound to a function.
pub open spec fn calls_function(t: SymbolTable, d: Datum) -> bool {
    let s = elements(d);
    s.len() > 0 && (s[0] matches Datum::Symbol(n) && !(t.resolved(n) is Value))
}

/// The builtin named by the head of the list `d`, if it names one.
pub open spec fn head_builtin(t: SymbolTable, d: Datum) -> Option<Builtin> {
    let s = elements(d);
    if s.len() > 0 && s[0] is Symbol {
        match t.resolved(s[0]->Symbol_0) {
            SymModel::Builtin(_, b) => Some(b),
            _ => None,
        }
    } else {
        None
    }
}

/// Whether evaluating the elements `s` as data declares `n` as a local:
/// `n` is unbound in `t` and stands as an unquoted symbol in `s`.
pub open spec fn declared(t: SymbolTable, s: Seq<Datum>, n: Seq<char>) -> bool {
    t.resolve(n) is None && exists|k: int| 0 <= k < s.len() && s[k] == Datum::Symbol(n)
}

/// Two tables in which every name stands for the same thing.
pub open spec fn same_meaning(a: SymbolTable, b: SymbolTable) -> bool {
    forall|n: Seq<char>| #[trigger] a.resolved(n) == b.resolved(n)
}

/// The truth of a value: everything but the empty list is true.
pub open spec fn truthy(d: Datum) -> bool {
    !is_nil(d)
}

/// `T` for true, `Nil` for false.
pub open spec fn boolean(b: bool) -> Datum {
    if b { Datum::T } else { Datum::Nil }
}

/// The deepest nesting of evaluation that [`crate::VirtualMachine`] allows.
pub const MAX_DEPTH: u64 = 400;

/// One evaluation frame: the symbol table it works on and the lines that
/// `print` produced.
#[derive(Debug, PartialEq, Eq)]
pub struct Context {
    pub symbols: SymbolTable,
    pub output: Vec<String>,
}

fn too_deep() -> (r: Error)
    ensures
        r.kind == ErrorType::RuntimeError,
{
    let mut m: Vec<char> = Vec::new();
    push_str(&mut m, "evaluation nested too deeply");
    runtime_error(m)
}

/// The record of a call of `name` from the evaluated input. Values carry no
/// source positions, so the source is `<input>` and the line is 0 (unknown).
fn call_site(name: &String) -> (r: crate::caller::Caller)
    ensures
        r.0@ == name@,
        r.1@ == "<input>"@,
        r.2 == 0,
{
    crate::caller::Caller::new(name.clone(), String::from_str("<input>"), 0)
}

fn bool_value(b: bool) -> (r: Value)
    ensures
        r@ == boolean(b),
{
    if b { Value::T } else { Value::Nil }
}

impl Context {
    pub fn new(symbols: SymbolTable) -> (r: Context)
        ensures
            r.symbols == symbols,
            r.output@.len() == 0,
    {
        Context { symbols, output: Vec::new() }
    }

    /// Evaluates `v` with at most `depth` levels of nesting left.
    ///
    /// Quoted values come back unchanged; `Nil` stays `Nil`; a symbol
    /// stands for its binding (an unbound one for itself, declared in
    /// `locals`), and one bound to a function is called without arguments;
    /// a list whose head names a function is a call with the rest as
    /// arguments; any other list is data, whose symbols are replaced by
    /// their bindings; another scalar reads as the one-element list of
    /// itself.
    pub fn eval(&mut self, v: Value, depth: u64) -> (r: Result<Value, Error>)
        ensures
            eval_result(old(self).symbols, v@, depth, r),
            depth == 0 ==> r is Err && r->Err_0.kind == ErrorType::RuntimeError,
            depth > 0 && is_quoted(v@) ==> r is Ok && r->Ok_0@ == v@ && *final(self) == *old(self),
            depth > 0 && v@ is Nil ==> r is Ok && r->Ok_0@ == Datum::Nil && *final(self) == *old(self),
            depth > 0 && is_scalar(v@) ==> r is Ok && r->Ok_0@ == Datum::List(seq![v@])
                && *final(self) == *old(self),
            depth > 0 && (v@ matches Datum::Symbol(n) && old(self).symbols.resolved(n) is Value)
                ==> r is Ok && r->Ok_0@ == sym_value(old(self).symbols.resolved(v@->Symbol_0))
                && same_meaning(old(self).symbols, final(self).symbols),
            depth > 0 && v@ is List && !calls_function(old(self).symbols, v@) ==> r is Ok && r->Ok_0@
                == list_of(elements(v@).map_values(|e: Datum| literal(old(self).symbols, e))),
            depth > 0 && (v@ matches Datum::Symbol(n) && old(self).symbols.resolve(n) is None) ==> r is Ok
                && r->Ok_0@ == v@ && final(self).symbols.globals == old(self).symbols.globals
                && final(self).symbols.function_locals == old(self).symbols.function_locals
                && forall|m: Seq<char>| #[trigger] final(self).symbols.locals.find(m) == if m
                == v@->Symbol_0 {
                Some(SymModel::Value(v@))
            } else {
                old(self).symbols.locals.find(m)
            },
            depth > 0 && v@ is List && calls_function(old(self).symbols, v@) ==> call_result(
                old(self).symbols.resolved(elements(v@)[0]->Symbol_0),
                crate::value::cdr_of(v@),
                (depth - 1) as u64,
                old(self).symbols,
                r,
            ),
            depth > 0 && v@ is List && head_builtin(old(self).symbols, v@) == Some(Builtin::Setq)
                ==> setq_effect(crate::value::cdr_of(v@), old(self).symbols, final(self).symbols, r),
        decreases depth, 0u64,
    {
        if depth == 0 {
            return Err(too_deep());
        }
        if v.is_quoted() {
            return Ok(v);
        }
        match v {
            Value::Nil => Ok(Value::Nil),
            Value::Symbol(name) => {
                let sym = self.symbols.get(&name);
                match sym {
                    Sym::Function(f) => f.call(self, &Value::Nil, depth - 1),
                    Sym::Value(x) => Ok(x),
                }
            },
            Value::List(items) => {
                let list = Value::List(items);
                let head = car(&list);
                if let Value::Symbol(name) = &head {
                    let ghost before = self.symbols;
                    let sym = self.symbols.get(name);
                    match sym {
                        Sym::Function(f) => {
                            return match f.call(self, &cdr(&list), depth - 1) {
                                Ok(v) => Ok(v),
                                Err(e) => Err(e.with(call_site(name))),
                            };
                        },
                        Sym::Value(_) => {
                            let ghost mid = self.symbols;
                            let r = self.eval_list(&list);
                            proof {
                                assert forall|n: Seq<char>| #[trigger] self.symbols.resolved(n)
                                    == before.resolved(n) by {
                                    assert(mid.resolved(n) == before.resolved(n));
                                    assert(mid.resolved(n) == self.symbols.resolved(n));
                                }
                                assert(same_meaning(before, self.symbols));
                                assert(elements(list@).map_values(|e: Datum| literal(before, e))
                                    =~= elements(list@).map_values(|e: Datum| literal(mid, e)));
                            }
                            return Ok(r);
                        },
                    }
                }
                Ok(self.eval_list(&list))
            },
            other => {
                let mut items: Vec<Value> = Vec::new();
                items.push(other);
                proof {
                    lemma_datums_push(Seq::<Value>::empty(), other);
                    assert(Seq::<Value>::empty().push(other) =~= items@);
                    assert(datums(Seq::<Value>::empty()) =~= Seq::<Datum>::empty());
                    assert(datums(items@) =~= seq![other@]);
                }
                Ok(Value::List(items))
            },
        }
    }

    /// Evaluates a list as data: each unquoted symbol is replaced by what
    /// it stands for; every other element is kept as it is.
    pub fn eval_list(&mut self, list: &Value) -> (r: Value)
        ensures
            r@ == list_of(elements(list@).map_values(|e: Datum| literal(old(self).symbols, e))),
            same_meaning(old(self).symbols, final(self).symbols),
            forall|n: Seq<char>| #[trigger] final(self).symbols.locals.find(n) == if declared(
                old(self).symbols,
                elements(list@),
                n,
            ) {
                Some(SymModel::Value(Datum::Symbol(n)))
            } else {
                old(self).symbols.locals.find(n)
            },
            final(self).symbols.globals == old(self).symbols.globals,
            final(self).symbols.function_locals == old(self).symbols.function_locals,
            final(self).output == old(self).output,
    {
        let mut chain: Vec<Value> = Vec::new();
        crate::value::push_elements(&mut chain, list);
        proof {
            assert(datums(Seq::<Value>::empty()) =~= Seq::<Datum>::empty());
            assert(Seq::<Datum>::empty() + elements(list@) =~= elements(list@));
            lemma_datums_len(chain@);
        }
        let ghost s = datums(chain@);
        let ghost t0 = self.symbols;
        let mut out: Vec<Value> = Vec::new();
        let mut i: usize = 0;
        proof {
            assert(datums(out@) =~= s.subrange(0, 0).map_values(|e: Datum| literal(t0, e)));
        }
        while i < chain.len()
            invariant
                i <= chain.len(),
                s == datums(chain@),
                s.len() == chain@.len(),
                s == elements(list@),
                same_meaning(t0, self.symbols),
                self.symbols.globals == t0.globals,
                self.symbols.function_locals == t0.function_locals,
                self.output == old(self).output,
                t0 == old(self).symbols,
                datums(out@) == s.subrange(0, i as int).map_values(|e: Datum| literal(t0, e)),
                forall|n: Seq<char>| #[trigger] self.symbols.locals.find(n) == if declared(
                    t0,
                    s.subrange(0, i as int),
                    n,
                ) {
                    Some(SymModel::Value(Datum::Symbol(n)))
                } else {
                    t0.locals.find(n)
                },
            decreases chain.len() - i,
        {
            proof {
                lemma_datums_index(chain@, i as int);
            }
            let ghost cur = self.symbols;
            let item = match &chain[i] {
                Value::Symbol(name) => {
                    let sym = self.symbols.get(name);
                    proof {
                        assert forall|n: Seq<char>| #[trigger] self.symbols.locals.find(n) == if declared(
                            t0,
                            s.subrange(0, i + 1),
                            n,
                        ) {
                            Some(SymModel::Value(Datum::Symbol(n)))
                        } else {
                            t0.locals.find(n)
                        } by {
                            assert(s.subrange(0, i + 1)[i as int] == s[i as int]);
                            if exists|k: int| 0 <= k < i && #[trigger] s.subrange(0, i as int)[k] == Datum::Symbol(n) {
                                let k = choose|k: int| 0 <= k < i && #[trigger] s.subrange(0, i as int)[k] == Datum::Symbol(n);
                                assert(s.subrange(0, i + 1)[k] == Datum::Symbol(n));
                            }
                            if exists|k: int| 0 <= k < i + 1 && #[trigger] s.subrange(0, i + 1)[k] == Datum::Symbol(n) {
                                let k = choose|k: int| 0 <= k < i + 1 && #[trigger] s.subrange(0, i + 1)[k] == Datum::Symbol(n);
                                if k < i {
                                    assert(s.subrange(0, i as int)[k] == Datum::Symbol(n));
                                }
                            }
                        }
                    }
                    sym.as_value()
                },
                other => {
                    proof {
                        assert forall|n: Seq<char>| declared(t0, s.subrange(0, i + 1), n) == declared(
                            t0,
                            s.subrange(0, i as int),
                            n,
                        ) by {
                            if exists|k: int| 0 <= k < i && #[trigger] s.subrange(0, i as int)[k] == Datum::Symbol(n) {
                                let k = choose|k: int| 0 <= k < i && #[trigger] s.subrange(0, i as int)[k] == Datum::Symbol(n);
                                assert(s.subrange(0, i + 1)[k] == Datum::Symbol(n));
                            }
                            if exists|k: int| 0 <= k < i + 1 && #[trigger] s.subrange(0, i + 1)[k] == Datum::Symbol(n) {
                                let k = choose|k: int| 0 <= k < i + 1 && #[trigger] s.subrange(0, i + 1)[k] == Datum::Symbol(n);
                                if k < i {
                                    assert(s.subrange(0, i as int)[k] == Datum::Symbol(n));
                                }
                            }
                        }
                    }
                    other.copy()
                },
            };
            proof {
                lemma_datums_push(out@, item);
                assert(s.subrange(0, i + 1).map_values(|e: Datum| literal(t0, e)) =~= s.subrange(
                    0,
                    i as int,
                ).map_values(|e: Datum| literal(t0, e)).push(literal(t0, s[i as int])));
            }
            out.push(item);
            i = i + 1;
        }
        proof {
            assert(s.subrange(0, s.len() as int) =~= s);
        }
        Value::list(out)
    }
}


/// The function-local binding of `n` after binding each parameter symbol
/// of `params` to the argument at the same place, in order, over `prior`.
pub open spec fn bound_after(
    params: Seq<Datum>,
    args: Seq<Datum>,
    n: Seq<char>,
    prior: Option<SymModel>,
) -> Option<SymModel>
    decreases params.len(),
{
    if params.len() == 0 || args.len() == 0 {
        prior
    } else if param_name(params.last()) == n {
        Some(SymModel::Value(args.last()))
    } else {
        bound_after(params.drop_last(), args.drop_last(), n, prior)
    }
}

/// The name a parameter binds: a symbol's name (quoted or not), or the
/// printed form of any other value.
pub open spec fn param_name(d: Datum) -> Seq<char> {
    match d {
        Datum::Symbol(n) => n,
        Datum::QuotedSymbol(n) => n,
        _ => crate::render::render(d),
    }
}

/// The message of an arity mismatch.
pub open spec fn arity_message(name: Seq<char>, expected: nat, received: nat) -> Seq<char> {
    name + " expected "@ + crate::render::decimal(expected) + " args but received "@
        + crate::render::decimal(received)
}

impl Function {
    /// Pairs the name of each parameter of `expected` with the argument of
    /// `received` at the same place. The counts must be equal; otherwise it
    /// is a runtime error naming both counts.
    pub fn validate_args(&self, name: &String, expected: &Value, received: &Vec<Value>) -> (r: Result<
        Vec<(String, Value)>,
        Error,
    >)
        ensures
            r is Ok <==> elements(expected@).len() == received@.len(),
            r is Err ==> r->Err_0.kind == ErrorType::RuntimeError && r->Err_0.message@
                == arity_message(name@, elements(expected@).len(), received@.len()),
            r is Ok ==> r->Ok_0@.len() == received@.len() && forall|i: int|
                0 <= i < received@.len() ==> (#[trigger] r->Ok_0@[i]).0@ == param_name(
                    elements(expected@)[i],
                ) && datum(r->Ok_0@[i].1) == datum(received@[i]),
    {
        let mut params: Vec<Value> = Vec::new();
        crate::value::push_elements(&mut params, expected);
        proof {
            assert(datums(Seq::<Value>::empty()) =~= Seq::<Datum>::empty());
            assert(Seq::<Datum>::empty() + elements(expected@) =~= elements(expected@));
            lemma_datums_len(params@);
        }
        if params.len() != received.len() {
            let mut m: Vec<char> = Vec::new();
            crate::render::push_all(&mut m, name);
            push_str(&mut m, " expected ");
            write_decimal(params.len() as u64, &mut m);
            push_str(&mut m, " args but received ");
            write_decimal(received.len() as u64, &mut m);
            assert(m@ =~= arity_message(name@, elements(expected@).len(), received@.len()));
            return Err(runtime_error(m));
        }
        let mut pairs: Vec<(String, Value)> = Vec::new();
        let mut i: usize = 0;
        while i < params.len()
            invariant
                i <= params.len(),
                params.len() == received.len(),
                datums(params@) == elements(expected@),
                datums(params@).len() == params@.len(),
                pairs@.len() == i,
                forall|j: int|
                    0 <= j < i ==> (#[trigger] pairs@[j]).0@ == param_name(elements(expected@)[j])
                        && datum(pairs@[j].1) == datum(received@[j]),
            decreases params.len() - i,
        {
            proof {
                lemma_datums_index(params@, i as int);
            }
            let key = match &params[i] {
                Value::Symbol(p) | Value::QuotedSymbol(p) => p.clone(),
                other => other.to_string(),
            };
            pairs.push((key, received[i].copy()));
            i = i + 1;
        }
        Ok(pairs)
    }

    /// Binds each parameter of `expected` to the argument of `received` at
    /// the same place, in the function-local scope of `ctx`.
    pub fn bind_args_to_local_context(
        &self,
        ctx: &mut Context,
        name: &String,
        expected: &Value,
        received: &Vec<Value>,
    ) -> (r: Result<Vec<(String, Value)>, Error>)
        ensures
            r is Ok <==> elements(expected@).len() == received@.len(),
            r is Err ==> r->Err_0.kind == ErrorType::RuntimeError && r->Err_0.message@
                == arity_message(name@, elements(expected@).len(), received@.len()),
            r is Ok ==> forall|n: Seq<char>| #[trigger] final(ctx).symbols.function_locals.find(n)
                == bound_after(elements(expected@), datums(received@), n, old(ctx).symbols.function_locals.find(n)),
            r is Err ==> final(ctx).symbols.function_locals == old(ctx).symbols.function_locals,
            final(ctx).symbols.globals == old(ctx).symbols.globals,
            final(ctx).symbols.locals == old(ctx).symbols.locals,
            final(ctx).output == old(ctx).output,
    {
        let pairs = match self.validate_args(name, expected, received) {
            Ok(p) => p,
            Err(e) => {
                return Err(e);
            },
        };
        let ghost params = elements(expected@);
        let ghost args = datums(received@);
        proof {
            lemma_datums_len(received@);
        }
        let mut i: usize = 0;
        while i < pairs.len()
            invariant
                i <= pairs.len(),
                pairs@.len() == received@.len(),
                params.len() == received@.len(),
                args.len() == received@.len(),
                params == elements(expected@),
                args == datums(received@),
                forall|j: int|
                    0 <= j < received@.len() ==> (#[trigger] pairs@[j]).0@ == param_name(params[j])
                        && datum(pairs@[j].1) == datum(received@[j]),
                forall|n: Seq<char>| #[trigger] ctx.symbols.function_locals.find(n) == bound_after(
                    params.subrange(0, i as int),
                    args.subrange(0, i as int),
                    n,
                    old(ctx).symbols.function_locals.find(n),
                ),
                ctx.symbols.globals == old(ctx).symbols.globals,
                ctx.symbols.locals == old(ctx).symbols.locals,
                ctx.output == old(ctx).output,
            decreases pairs.len() - i,
        {
            proof {
                lemma_datums_index(received@, i as int);
                assert(params.subrange(0, i + 1).drop_last() =~= params.subrange(0, i as int));
                assert(args.subrange(0, i + 1).drop_last() =~= args.subrange(0, i as int));
            }
            let name = pairs[i].0.clone();
            let value = pairs[i].1.copy();
            ctx.symbols.set_function_local(name, Sym::Value(value));
            i = i + 1;
        }
        proof {
            assert(params.subrange(0, params.len() as int) =~= params);
            assert(args.subrange(0, args.len() as int) =~= args);
        }
        Ok(pairs)
    }

    /// Calls this function on the unevaluated arguments `args`.
    ///
    /// A builtin decides itself which arguments it evaluates. A defined
    /// function evaluates each argument, binds the results to its
    /// parameters in the function-local scope, then evaluates its body
    /// expressions in order and returns the value of the last (`Nil` for an
    /// empty body).
    pub fn call(&self, ctx: &mut Context, args: &Value, depth: u64) -> (r: Result<Value, Error>)
        ensures
            call_result(sym_model(Sym::Function(*self)), args@, depth, old(ctx).symbols, r),
            *self matches Function::Builtin { function: Builtin::Setq, .. } ==> setq_effect(
                args@,
                old(ctx).symbols,
                final(ctx).symbols,
                r,
            ),
            *self matches Function::Defun { name, args: params, body } ==> defun_outcome(
                name@,
                params@,
                body@,
                args@,
                depth,
                *old(ctx),
                *final(ctx),
                r,
            ),
        decreases depth, 5u64,
    {
        match self {
            Function::Builtin { function, .. } => ctx.call_builtin(*function, args, depth),
            Function::Defun { name, args: params, body } => self.call_defun(
                ctx,
                name,
                params,
                body,
                args,
                depth,
            ),
        }
    }

    fn call_defun(
        &self,
        ctx: &mut Context,
        name: &String,
        params: &Value,
        body: &Value,
        args: &Value,
        depth: u64,
    ) -> (r: Result<Value, Error>)
        ensures
            defun_outcome(name@, params@, body@, args@, depth, *old(ctx), *final(ctx), r),
        decreases depth, 3u64,
    {
        let evaluated = match ctx.eval_args(args, depth) {
            Ok(v) => v,
            Err(e) => {
                return Err(e);
            },
        };
        proof {
            lemma_datums_len(evaluated@);
        }
        match self.bind_args_to_local_context(ctx, name, params, &evaluated) {
            Ok(_) => {},
            Err(e) => {
                return Err(e);
            },
        }
        let ghost bound = *ctx;
        let exprs = chain_of(body);
        let ghost b = elements(body@);
        let mut result = Value::Nil;
        let mut j: usize = 0;
        while j < exprs.len()
            invariant
                j <= exprs.len(),
                datums(exprs@) == b,
                exprs@.len() == b.len(),
                b == elements(body@),
                all_inert(elements(args@)) ==> elements(params@).len() == elements(args@).len(),
                all_inert(elements(args@)) && depth > 0 && all_inert(b) ==> *ctx == bound
                    && result@ == (if j == 0 { Datum::Nil } else { eval_inert(b[j - 1]) }),
                all_inert(elements(args@)) ==> bound_table(
                    bound.symbols,
                    old(ctx).symbols,
                    elements(params@),
                    elements(args@),
                ),
                all_inert(elements(args@)) && depth > 0 && b.len() > 0 && all_inert(b.drop_last()) ==> (
                j < b.len() ==> *ctx == bound) && (j == b.len() ==> eval_result(
                    bound.symbols,
                    b.last(),
                    depth,
                    Ok(result),
                )),
            decreases exprs.len() - j,
        {
            proof {
                lemma_datums_index(exprs@, j as int);
                if all_inert(b) {
                    assert(inert(b[j as int]));
                }
                if b.len() > 0 && all_inert(b.drop_last()) && j < b.len() - 1 {
                    assert(inert(b.drop_last()[j as int]));
                }
            }
            let ghost last_step = all_inert(elements(args@)) && depth > 0 && b.len() > 0 && all_inert(
                b.drop_last(),
            ) && j == b.len() - 1;
            result = match ctx.eval(exprs[j].copy(), depth) {
                Ok(v) => v,
                Err(e) => {
                    proof {
                        if last_step {
                            assert(bound_table(bound.symbols, old(ctx).symbols, elements(params@), elements(args@)));
                            assert(eval_result(bound.symbols, b.last(), depth, Err(e)));
                        }
                    }
                    return Err(e);
                },
            };
            j = j + 1;
        }
        proof {
            if all_inert(elements(args@)) && depth > 0 && b.len() > 0 && all_inert(b.drop_last()) {
                assert(eval_result(bound.symbols, b.last(), depth, Ok(result)));
            }
        }
        Ok(result)
    }
}

/// What evaluating `d` from the table `t` with `depth` levels left gives,
/// as far as the contract of [`Context::eval`] fixes it.
pub open spec fn eval_result(t: SymbolTable, d: Datum, depth: u64, r: Result<Value, Error>) -> bool {
    &&& depth == 0 ==> r is Err && r->Err_0.kind == ErrorType::RuntimeError
    &&& depth > 0 && is_quoted(d) ==> r is Ok && r->Ok_0@ == d
    &&& depth > 0 && d is Nil ==> r is Ok && r->Ok_0@ == Datum::Nil
    &&& depth > 0 && is_scalar(d) ==> r is Ok && r->Ok_0@ == Datum::List(seq![d])
    &&& depth > 0 && d is Symbol ==> r is Ok && r->Ok_0@ == sym_value(t.resolved(d->Symbol_0))
        || !(t.resolved(d->Symbol_0) is Value)
    &&& depth > 0 && d is List && !calls_function(t, d) ==> r is Ok && r->Ok_0@ == list_of(
        elements(d).map_values(|e: Datum| literal(t, e)),
    )
    &&& depth > 0 && d is List && calls_function(t, d) ==> call_result(
        t.resolved(elements(d)[0]->Symbol_0),
        crate::value::cdr_of(d),
        (depth - 1) as u64,
        t,
        r,
    )
}

/// `mid` is `before` with each parameter of `p` bound, as a function-local,
/// to the argument of `a` at the same place.
pub open spec fn bound_table(mid: SymbolTable, before: SymbolTable, p: Seq<Datum>, a: Seq<Datum>) -> bool {
    &&& mid.globals == before.globals
    &&& mid.locals == before.locals
    &&& forall|n: Seq<char>| #[trigger] mid.function_locals.find(n) == bound_after(
        p,
        a,
        n,
        before.function_locals.find(n),
    )
}

/// The value of a body whose expressions are all inert: the evaluation
/// of the last, or `Nil` for an empty body.
pub open spec fn body_value(body: Datum) -> Datum {
    let b = elements(body);
    if b.len() == 0 {
        Datum::Nil
    } else {
        eval_inert(b.last())
    }
}

/// The result of calling the function `name` with parameters `params` and
/// body `body` on inert arguments `args` (see [`defun_outcome`]).
pub open spec fn defun_result(
    name: Seq<char>,
    params: Datum,
    body: Datum,
    args: Datum,
    depth: u64,
    r: Result<Value, Error>,
) -> bool {
    let p = elements(params);
    let a = elements(args);
    let b = elements(body);
    all_inert(a) ==> {
        &&& p.len() != a.len() ==> r is Err && r->Err_0.kind == ErrorType::RuntimeError
            && r->Err_0.message@ == arity_message(name, p.len(), a.len())
        &&& p.len() == a.len() && depth > 0 && all_inert(b) ==> r is Ok && r->Ok_0@ == body_value(
            body,
        )
    }
}

/// An arithmetic builtin with fewer than two arguments fails with a
/// message naming the operator and the count.
pub open spec fn arity_outcome(b: Builtin, args: Datum, r: Result<Value, Error>) -> bool {
    is_arithmetic(b) && elements(args).len() < 2 ==> r is Err && r->Err_0.kind
        == ErrorType::RuntimeError && r->Err_0.message@ == operator_text(b)
        + " takes at least 2 arguments, got: "@ + crate::render::decimal(elements(args).len())
}

/// The effect of `setq` on the arguments `args`: on failure the table is
/// unchanged; on success the first argument is bound, as a local, to the
/// second.
pub open spec fn setq_effect(
    args: Datum,
    before: SymbolTable,
    after: SymbolTable,
    r: Result<Value, Error>,
) -> bool {
    &&& r is Err ==> after == before
    &&& r is Ok ==> {
        &&& forall|n: Seq<char>| #[trigger] after.locals.find(n) == if n == elements(args)[0]->Symbol_0 {
            Some(SymModel::Value(elements(args)[1]))
        } else {
            before.locals.find(n)
        }
        &&& after.globals == before.globals
        &&& after.function_locals == before.function_locals
    }
}

/// What calling the function bound as `m` on the unevaluated arguments
/// `args` gives, as far as the arguments alone decide it.
pub open spec fn call_result(m: SymModel, args: Datum, depth: u64, t: SymbolTable, r: Result<Value, Error>) -> bool {
    match m {
        SymModel::Builtin(_, b) => {
            &&& builtin_outcome(b, t, args, r)
            &&& arity_outcome(b, args, r)
            &&& depth > 0 ==> simple_outcome(b, t, args, r)
            &&& depth > 1 ==> first_symbol_outcome(b, t, args, r)
            &&& b is If && depth > 0 && if_spec(elements(args)) is Some ==> r is Ok && r->Ok_0@
                == if_spec(elements(args))->Some_0
        },
        SymModel::Defun(n, p, body) => defun_result(n, p, body, args, depth, r),
        SymModel::Value(_) => true,
    }
}

/// The outcome of calling the function `name` with parameters `params` and
/// body `body` on the arguments `args`, when the arguments are inert: an
/// arity mismatch is a runtime error naming both counts; otherwise each
/// parameter is bound in the function-local scope to its argument and,
/// when the body expressions are inert too, the result is the value of
/// the last one.
pub open spec fn defun_outcome(
    name: Seq<char>,
    params: Datum,
    body: Datum,
    args: Datum,
    depth: u64,
    before: Context,
    after: Context,
    r: Result<Value, Error>,
) -> bool {
    let p = elements(params);
    let a = elements(args);
    &&& defun_result(name, params, body, args, depth, r)
    &&& all_inert(a) && p.len() == a.len() && depth > 0 && elements(body).len() > 0 && all_inert(
        elements(body).drop_last(),
    ) ==> exists|mid: SymbolTable|
        bound_table(mid, before.symbols, p, a) && #[trigger] eval_result(
            mid,
            elements(body).last(),
            depth,
            r,
        )
    &&& all_inert(a) ==> {
        p.len() == a.len() && depth > 0 && all_inert(elements(body)) ==> {
            &&& forall|n: Seq<char>| #[trigger] after.symbols.function_locals.find(n) == bound_after(
                p,
                a,
                n,
                before.symbols.function_locals.find(n),
            )
            &&& after.symbols.globals == before.symbols.globals
            &&& after.symbols.locals == before.symbols.locals
        }
    }
}

/// What a builtin gives when every argument it evaluates is inert, so that
/// the outcome follows from the arguments alone; `None` where it depends on
/// further evaluation.
pub open spec fn builtin_spec(b: Builtin, t: SymbolTable, args: Datum) -> Option<Option<Datum>> {
    let s = elements(args);
    match b {
        Builtin::T => Some(Some(Datum::T)),
        Builtin::Backquote => Some(Some(args)),
        Builtin::Print => Some(Some(args)),
        Builtin::Quote => if s.len() > 0 && (s[0] is Symbol || s[0] is QuotedSymbol || s[0] is List
            || s[0] is QuotedList) {
            Some(Some(crate::value::quote_of(s[0])))
        } else {
            Some(None)
        },
        Builtin::Defun => if s.len() > 0 && s[0] is Symbol {
            Some(Some(sym_value(defined(s))))
        } else {
            Some(None)
        },
        Builtin::Setq => if s.len() % 2 == 0 && s.len() > 0 && s[0] is Symbol {
            Some(Some(s[1]))
        } else {
            Some(None)
        },
        Builtin::Car => if all_inert(s) {
            Some(Some(crate::value::car_of(list_of(crate::value::splice(s)))))
        } else {
            None
        },
        Builtin::Cdr => if all_inert(s) {
            Some(Some(crate::value::cdr_of(list_of(crate::value::splice(s)))))
        } else {
            None
        },
        Builtin::List | Builtin::Append => if all_inert(s) {
            Some(Some(list_of(crate::value::splice(s))))
        } else {
            None
        },
        Builtin::Cons => if s.len() >= 2 && inert(s[0]) && inert(s[1]) {
            Some(Some(crate::value::cons_of(s[0], s[1])))
        } else {
            None
        },
        Builtin::Listp => if s.len() > 0 && inert(s[0]) {
            Some(Some(boolean(is_list(s[0]))))
        } else if s.len() == 0 {
            Some(Some(Datum::Nil))
        } else {
            None
        },
        Builtin::Null => if s.len() > 0 && inert(s[0]) {
            Some(Some(boolean(is_nil(s[0]))))
        } else if s.len() == 0 {
            Some(Some(Datum::T))
        } else {
            None
        },
        Builtin::Mul | Builtin::Add | Builtin::Sub | Builtin::Div => if s.len() < 2 {
            Some(None)
        } else if !(s[0] is UnsignedInteger || s[0] is Integer || s[0] is Symbol || s[0] is QuotedSymbol
            || s[0] is List || s[0] is QuotedList) {
            Some(None)
        } else if (s[0] is UnsignedInteger || s[0] is Integer) && all_numbers(s.drop_first()) {
            Some(folded(b, s[0], s.drop_first()))
        } else {
            None
        },
        _ => None,
    }
}

/// What an inert value evaluates to: a quoted value itself, `Nil` itself,
/// another scalar the one-element list of itself.
pub open spec fn eval_inert(d: Datum) -> Datum {
    if is_quoted(d) {
        d
    } else if d is Nil {
        Datum::Nil
    } else {
        Datum::List(seq![d])
    }
}

/// What `if` gives on the arguments `s` when the test is inert and the
/// chosen arm is quoted or empty.
pub open spec fn if_spec(s: Seq<Datum>) -> Option<Datum> {
    let test = if s.len() > 0 { s[0] } else { Datum::Nil };
    if !inert(test) {
        None
    } else if truthy(eval_inert(test)) {
        let then = if s.len() > 1 { s[1] } else { Datum::Nil };
        if is_quoted(then) || then is Nil {
            Some(then)
        } else {
            None
        }
    } else if s.len() <= 2 {
        Some(Datum::Nil)
    } else {
        None
    }
}

/// What an argument evaluates to when that follows from the table alone:
/// an inert argument stands for itself, a symbol bound to a value for that
/// value.
pub open spec fn simple_value(t: SymbolTable, d: Datum) -> Option<Datum> {
    if inert(d) {
        Some(d)
    } else if d is Symbol && t.resolved(d->Symbol_0) is Value {
        Some(sym_value(t.resolved(d->Symbol_0)))
    } else {
        None
    }
}

/// Every element of `s` has a [`simple_value`].
pub open spec fn all_simple(t: SymbolTable, s: Seq<Datum>) -> bool {
    forall|i: int| 0 <= i < s.len() ==> (#[trigger] simple_value(t, s[i])) is Some
}

/// The [`simple_value`]s of `s`.
pub open spec fn simple_values(t: SymbolTable, s: Seq<Datum>) -> Seq<Datum> {
    Seq::new(s.len(), |i: int| simple_value(t, s[i])->Some_0)
}

/// What a builtin gives when each argument it evaluates is inert or a
/// symbol bound to a value (with nesting left to evaluate it); `None` where
/// it depends on further evaluation.
pub open spec fn simple_spec(b: Builtin, t: SymbolTable, args: Datum) -> Option<Option<Datum>> {
    let s = elements(args);
    if (b is List || b is Append || b is Car || b is Cdr) && all_simple(t, s) {
        let joined = list_of(crate::value::splice(simple_values(t, s)));
        Some(Some(if b is Car {
            crate::value::car_of(joined)
        } else if b is Cdr {
            crate::value::cdr_of(joined)
        } else {
            joined
        }))
    } else if is_arithmetic(b) && simple_arith(t, s) {
        Some(folded(b, s[0], simple_values(t, s.drop_first())))
    } else {
        None
    }
}

/// Arithmetic whose first argument is a number literal and whose other
/// arguments have [`simple_value`]s that are numbers.
pub open spec fn simple_arith(t: SymbolTable, s: Seq<Datum>) -> bool {
    s.len() >= 2 && (s[0] is UnsignedInteger || s[0] is Integer) && all_simple(t, s.drop_first())
        && all_numbers(simple_values(t, s.drop_first()))
}

/// Arithmetic whose first argument is a symbol bound to a number and whose
/// other arguments have [`simple_value`]s that are numbers: the fold onto
/// that number.
pub open spec fn first_symbol_arith(b: Builtin, t: SymbolTable, args: Datum) -> Option<Option<Datum>> {
    let s = elements(args);
    if is_arithmetic(b) && s.len() >= 2 && s[0] is Symbol && simple_value(t, s[0]) is Some && (
    simple_value(t, s[0])->Some_0 is UnsignedInteger || simple_value(t, s[0])->Some_0 is Integer)
        && all_simple(t, s.drop_first()) && all_numbers(simple_values(t, s.drop_first())) {
        Some(folded(b, simple_value(t, s[0])->Some_0, simple_values(t, s.drop_first())))
    } else {
        None
    }
}

/// The outcome of a builtin agrees with [`first_symbol_arith`] wherever that gives one.
pub open spec fn first_symbol_outcome(b: Builtin, t: SymbolTable, args: Datum, r: Result<Value, Error>) -> bool {
    match first_symbol_arith(b, t, args) {
        Some(o) => result_matches(r, o),
        None => true,
    }
}

/// The outcome of a builtin agrees with [`simple_spec`] wherever that gives one.
pub open spec fn simple_outcome(b: Builtin, t: SymbolTable, args: Datum, r: Result<Value, Error>) -> bool {
    match simple_spec(b, t, args) {
        Some(o) => result_matches(r, o),
        None => true,
    }
}

/// Every element of `s` is inert.
pub open spec fn all_inert(s: Seq<Datum>) -> bool {
    forall|i: int| 0 <= i < s.len() ==> #[trigger] inert(s[i])
}

/// Every element of `s` is a number.
pub open spec fn all_numbers(s: Seq<Datum>) -> bool {
    forall|i: int| 0 <= i < s.len() ==> (#[trigger] s[i] is Byte || s[i] is UnsignedInteger
        || s[i] is Integer)
}

/// The outcome of a builtin agrees with [`builtin_spec`] wherever that
/// gives one.
pub open spec fn builtin_outcome(b: Builtin, t: SymbolTable, args: Datum, r: Result<Value, Error>) -> bool {
    match builtin_spec(b, t, args) {
        Some(o) => result_matches(r, o),
        None => true,
    }
}


fn chain_of(v: &Value) -> (r: Vec<Value>)
    ensures
        datums(r@) == elements(v@),
        r@.len() == elements(v@).len(),
{
    let mut chain: Vec<Value> = Vec::new();
    crate::value::push_elements(&mut chain, v);
    proof {
        assert(datums(Seq::<Value>::empty()) =~= Seq::<Datum>::empty());
        assert(Seq::<Datum>::empty() + elements(v@) =~= elements(v@));
        lemma_datums_len(chain@);
    }
    chain
}

fn message_with(text: &str, v: &Value) -> (r: Error)
    ensures
        r.kind == ErrorType::RuntimeError,
{
    let mut m: Vec<char> = Vec::new();
    push_str(&mut m, text);
    write_value(v, &mut m);
    runtime_error(m)
}

/// The name of an arithmetic builtin.
pub open spec fn operator_text(b: Builtin) -> Seq<char> {
    if b is Add {
        "+"@
    } else if b is Sub {
        "-"@
    } else if b is Mul {
        "*"@
    } else {
        "/"@
    }
}

fn operator_name(b: Builtin) -> (r: &'static str)
    requires
        is_arithmetic(b),
    ensures
        r@ == operator_text(b),
{
    match b {
        Builtin::Add => "+",
        Builtin::Sub => "-",
        Builtin::Mul => "*",
        _ => "/",
    }
}

impl Context {
    /// Evaluates an argument: symbols and unquoted lists are evaluated,
    /// everything else stands for itself.
    pub fn eval_arg(&mut self, v: &Value, depth: u64) -> (r: Result<Value, Error>)
        ensures
            inert(v@) ==> r is Ok && r->Ok_0@ == v@ && *final(self) == *old(self),
            depth > 0 && simple_value(old(self).symbols, v@) is Some ==> r is Ok && r->Ok_0@
                == simple_value(old(self).symbols, v@)->Some_0 && same_meaning(
                old(self).symbols,
                final(self).symbols,
            ),
        decreases depth, 1u64,
    {
        proof {
            assert(same_meaning(self.symbols, self.symbols));
        }
        match v {
            Value::Symbol(_) | Value::List(_) => self.eval(v.copy(), depth),
            _ => Ok(v.copy()),
        }
    }

    /// Evaluates each element of the argument list `args`.
    fn eval_args(&mut self, args: &Value, depth: u64) -> (r: Result<Vec<Value>, Error>)
        ensures
            all_inert(elements(args@)) ==> r is Ok && datums(r->Ok_0@) == elements(args@)
                && *final(self) == *old(self),
            depth > 0 && all_simple(old(self).symbols, elements(args@)) ==> r is Ok && datums(
                r->Ok_0@,
            ) == simple_values(old(self).symbols, elements(args@)),
        decreases depth, 2u64,
    {
        let chain = chain_of(args);
        let ghost s = elements(args@);
        let mut out: Vec<Value> = Vec::new();
        let mut i: usize = 0;
        proof {
            assert(datums(Seq::<Value>::empty()) =~= Seq::<Datum>::empty());
            assert(out@ =~= Seq::<Value>::empty());
            assert(s.subrange(0, 0) =~= Seq::<Datum>::empty());
        }
        while i < chain.len()
            invariant
                i <= chain.len(),
                datums(chain@) == s,
                chain@.len() == s.len(),
                s == elements(args@),
                all_inert(s) ==> datums(out@) == s.subrange(0, i as int) && *self == *old(self),
                depth > 0 && all_simple(old(self).symbols, s) ==> datums(out@) == simple_values(
                    old(self).symbols,
                    s,
                ).subrange(0, i as int) && same_meaning(old(self).symbols, self.symbols),
            decreases chain.len() - i,
        {
            let ghost cur = self.symbols;
            proof {
                lemma_datums_index(chain@, i as int);
                if all_inert(s) {
                    assert(inert(s[i as int]));
                }
                if depth > 0 && all_simple(old(self).symbols, s) {
                    assert(simple_value(old(self).symbols, s[i as int]) is Some);
                    if s[i as int] is Symbol {
                        let n = s[i as int]->Symbol_0;
                        assert(old(self).symbols.resolved(n) == cur.resolved(n));
                    }
                    assert(simple_value(cur, s[i as int]) == simple_value(old(self).symbols, s[i as int]));
                }
            }
            let v = match self.eval_arg(&chain[i], depth) {
                Ok(v) => v,
                Err(e) => {
                    return Err(e);
                },
            };
            proof {
                lemma_datums_push(out@, v);
                if all_inert(s) {
                    assert(inert(s[i as int]));
                    assert(s.subrange(0, i + 1) =~= s.subrange(0, i as int).push(s[i as int]));
                }
                if depth > 0 && all_simple(old(self).symbols, s) {
                    let vs = simple_values(old(self).symbols, s);
                    assert(vs.subrange(0, i + 1) =~= vs.subrange(0, i as int).push(vs[i as int]));
                    assert forall|n: Seq<char>| #[trigger] old(self).symbols.resolved(n)
                        == self.symbols.resolved(n) by {
                        assert(old(self).symbols.resolved(n) == cur.resolved(n));
                        assert(cur.resolved(n) == self.symbols.resolved(n));
                    }
                }
            }
            out.push(v);
            i = i + 1;
        }
        proof {
            assert(s.subrange(0, s.len() as int) =~= s);
            let vs = simple_values(old(self).symbols, s);
            assert(vs.subrange(0, vs.len() as int) =~= vs);
        }
        Ok(out)
    }

    /// Runs the builtin `b` on the unevaluated arguments `args`.
    pub fn call_builtin(&mut self, b: Builtin, args: &Value, depth: u64) -> (r: Result<Value, Error>)
        ensures
            builtin_outcome(b, old(self).symbols, args@, r),
            b is If && depth > 0 && if_spec(elements(args@)) is Some ==> r is Ok && r->Ok_0@
                == if_spec(elements(args@))->Some_0,
            arity_outcome(b, args@, r),
            depth > 0 ==> simple_outcome(b, old(self).symbols, args@, r),
            depth > 1 ==> first_symbol_outcome(b, old(self).symbols, args@, r),
            b is Setq ==> setq_effect(args@, old(self).symbols, final(self).symbols, r),
        decreases depth, 4u64,
    {
        match b {
            Builtin::T => Ok(Value::T),
            Builtin::Backquote => Ok(args.copy()),
            Builtin::Print => Ok(self.print(args)),
            Builtin::Quote => self.quote(args),
            Builtin::Setq => self.setq(args),
            Builtin::Defun => self.defun(args),
            Builtin::If => self.if_form(args, depth),
            Builtin::Car | Builtin::Cdr | Builtin::List | Builtin::Append => {
                let vals = match self.eval_args(args, depth) {
                    Ok(v) => v,
                    Err(e) => {
                        return Err(e);
                    },
                };
                let joined = append(&vals);
                match b {
                    Builtin::Car => Ok(car(&joined)),
                    Builtin::Cdr => Ok(cdr(&joined)),
                    _ => Ok(joined),
                }
            },
            Builtin::Cons => {
                let chain = chain_of(args);
                let first = if chain.len() > 0 { chain[0].copy() } else { Value::Nil };
                let second = if chain.len() > 1 { chain[1].copy() } else { Value::Nil };
                proof {
                    if chain@.len() >= 2 {
                        lemma_datums_index(chain@, 0);
                        lemma_datums_index(chain@, 1);
                    }
                }
                let x = match self.eval_arg(&first, depth) {
                    Ok(v) => v,
                    Err(e) => {
                        return Err(e);
                    },
                };
                let y = match self.eval_arg(&second, depth) {
                    Ok(v) => v,
                    Err(e) => {
                        return Err(e);
                    },
                };
                Ok(cons(x, &y))
            },
            Builtin::Listp | Builtin::Null => {
                let chain = chain_of(args);
                let first = if chain.len() > 0 { chain[0].copy() } else { Value::Nil };
                proof {
                    if chain@.len() >= 1 {
                        lemma_datums_index(chain@, 0);
                    }
                }
                let x = match self.eval_arg(&first, depth) {
                    Ok(v) => v,
                    Err(e) => {
                        return Err(e);
                    },
                };
                match b {
                    Builtin::Listp => Ok(bool_value(x.is_list())),
                    _ => Ok(bool_value(x.is_nil())),
                }
            },
            _ => self.arithmetic(b, args, depth),
        }
    }

    /// `print`: records the texts of the arguments, separated by spaces, as
    /// one line of output and returns the argument list.
    fn print(&mut self, args: &Value) -> (r: Value)
        ensures
            r@ == args@,
            final(self).symbols == old(self).symbols,
            final(self).output@.len() == old(self).output@.len() + 1,
            final(self).output@.drop_last() == old(self).output@,
            final(self).output@.last()@ == crate::render::render_all(elements(args@)),
    {
        let chain = chain_of(args);
        let mut line: Vec<char> = Vec::new();
        crate::render::write_items(&chain, &mut line);
        assert(line@ =~= crate::render::render_all(elements(args@)));
        let text = string_of(&line);
        self.output.push(text);
        assert(self.output@.drop_last() =~= old(self).output@);
        args.copy()
    }

    /// `quote`: the first argument, quoted; it must be a symbol or a list.
    fn quote(&mut self, args: &Value) -> (r: Result<Value, Error>)
        ensures
            builtin_outcome(Builtin::Quote, old(self).symbols, args@, r),
            *final(self) == *old(self),
    {
        let chain = chain_of(args);
        if chain.len() == 0 {
            let mut m: Vec<char> = Vec::new();
            push_str(&mut m, "quote invoked without an argument");
            return Err(runtime_error(m));
        }
        proof {
            lemma_datums_index(chain@, 0);
        }
        let item = &chain[0];
        match item {
            Value::List(_) | Value::QuotedList(_) | Value::Symbol(_) | Value::QuotedSymbol(_) => Ok(
                item.copy().quote(),
            ),
            _ => Err(message_with("quote invoked with non-symbol and non-list: ", item)),
        }
    }

    /// `setq`: binds the first argument, a symbol, to the second, unevaluated,
    /// in the local scope. The argument count must be even.
    fn setq(&mut self, args: &Value) -> (r: Result<Value, Error>)
        ensures
            builtin_outcome(Builtin::Setq, old(self).symbols, args@, r),
            setq_effect(args@, old(self).symbols, final(self).symbols, r),
            final(self).output == old(self).output,
    {
        let chain = chain_of(args);
        if chain.len() % 2 != 0 {
            let mut m: Vec<char> = Vec::new();
            push_str(&mut m, "odd number of arguments (");
            write_decimal(chain.len() as u64, &mut m);
            push_str(&mut m, ") in setq: ");
            write_value(args, &mut m);
            return Err(runtime_error(m));
        }
        if chain.len() == 0 {
            return Err(message_with("setq invoked with non-symbol: ", &Value::Nil));
        }
        proof {
            lemma_datums_index(chain@, 0);
            lemma_datums_index(chain@, 1);
        }
        match &chain[0] {
            Value::Symbol(name) => {
                let value = chain[1].copy();
                Ok(self.symbols.set_local(name.clone(), Sym::Value(value)))
            },
            other => Err(message_with("setq invoked with non-symbol: ", other)),
        }
    }

    /// `defun`: `(defun name (params...) body...)` binds `name` globally to
    /// a defined function and returns its value form.
    fn defun(&mut self, args: &Value) -> (r: Result<Value, Error>)
        ensures
            builtin_outcome(Builtin::Defun, old(self).symbols, args@, r),
            r is Ok ==> forall|n: Seq<char>| #[trigger] final(self).symbols.globals.find(n) == if n
                == elements(args@)[0]->Symbol_0 {
                Some(defined(elements(args@)))
            } else {
                old(self).symbols.globals.find(n)
            },
            final(self).symbols.locals == old(self).symbols.locals,
            final(self).symbols.function_locals == old(self).symbols.function_locals,
    {
        let chain = chain_of(args);
        if chain.len() == 0 {
            return Err(message_with("defun invoked without a name: ", args));
        }
        proof {
            lemma_datums_index(chain@, 0);
        }
        let name = match &chain[0] {
            Value::Symbol(name) => name.clone(),
            other => {
                return Err(message_with("defun invoked with non-symbol name: ", other));
            },
        };
        let params = if chain.len() > 1 { chain[1].copy() } else { Value::Nil };
        proof {
            if chain@.len() > 1 {
                lemma_datums_index(chain@, 1);
            }
        }
        let ghost s = elements(args@);
        let mut body_items: Vec<Value> = Vec::new();
        let mut i: usize = 2;
        proof {
            assert(datums(Seq::<Value>::empty()) =~= Seq::<Datum>::empty());
            assert(body_items@ =~= Seq::<Value>::empty());
        }
        while i < chain.len()
            invariant
                2 <= i,
                i <= chain.len() || chain.len() < 2,
                datums(chain@) == s,
                chain@.len() == s.len(),
                datums(body_items@) == if s.len() <= 2 {
                    Seq::<Datum>::empty()
                } else {
                    s.subrange(2, i as int)
                },
            decreases chain.len() - i,
        {
            proof {
                lemma_datums_index(chain@, i as int);
            }
            let c = chain[i].copy();
            proof {
                lemma_datums_push(body_items@, c);
                if i == 2 {
                    assert(s.subrange(2, 3) =~= seq![s[2]]);
                    assert(Seq::<Datum>::empty().push(s[2]) =~= seq![s[2]]);
                } else {
                    assert(s.subrange(2, i + 1) =~= s.subrange(2, i as int).push(s[i as int]));
                }
            }
            body_items.push(c);
            i = i + 1;
        }
        proof {
            if s.len() > 2 {
                assert(s.subrange(2, s.len() as int) == s.subrange(2, i as int));
            }
        }
        let body = Value::list(body_items);
        let function = Sym::Function(Function::Defun { name: name.clone(), args: params, body });
        Ok(self.symbols.set_global(name, function))
    }

    /// `if`: evaluates the test, then the chosen arm (the second argument
    /// when the test is true, the list of the remaining arguments when it
    /// is not). While the result is an unquoted, non-empty list whose
    /// evaluation changes it, it is evaluated again; the final result is
    /// evaluated once more.
    pub fn if_form(&mut self, args: &Value, depth: u64) -> (r: Result<Value, Error>)
        ensures
            depth > 0 && if_spec(elements(args@)) is Some ==> r is Ok && r->Ok_0@ == if_spec(
                elements(args@),
            )->Some_0,
        decreases depth, 3u64,
    {
        let chain = chain_of(args);
        let ghost s = elements(args@);
        proof {
            if chain@.len() > 0 {
                lemma_datums_index(chain@, 0);
            }
            if chain@.len() > 1 {
                lemma_datums_index(chain@, 1);
            }
        }
        let test = if chain.len() > 0 { chain[0].copy() } else { Value::Nil };
        let then = if chain.len() > 1 { chain[1].copy() } else { Value::Nil };
        let mut rest: Vec<Value> = Vec::new();
        let mut i: usize = 2;
        while i < chain.len()
            invariant
                2 <= i,
                chain@.len() <= 2 ==> rest@.len() == 0,
            decreases chain.len() - i,
        {
            rest.push(chain[i].copy());
            i = i + 1;
        }
        let otherwise = Value::list(rest);
        let cond = match self.eval(test, depth) {
            Ok(v) => v,
            Err(e) => {
                return Err(e);
            },
        };
        let branch = if !cond.is_nil() { then } else { otherwise };
        let mut value = match self.eval(branch, depth) {
            Ok(v) => v,
            Err(e) => {
                return Err(e);
            },
        };
        let ghost first = value@;
        let mut rounds: u64 = depth;
        while rounds > 0 && !value.is_quoted() && value.is_list() && !value.is_nil()
            invariant
                (is_quoted(first) || first is Nil) ==> value@ == first,
                s == elements(args@),
                depth > 0 && if_spec(s) is Some ==> (is_quoted(first) || first is Nil) && first
                    == if_spec(s)->Some_0,
            decreases rounds,
        {
            let next = match self.eval(value.copy(), depth) {
                Ok(v) => v,
                Err(e) => {
                    return Err(e);
                },
            };
            if next.equals(&value) {
                break;
            }
            value = next;
            rounds = rounds - 1;
        }
        self.eval(value, depth)
    }

    /// `+ - * /`: at least two arguments. The first, evaluated first when
    /// it is a symbol or a list, fixes the numeric type; the others, each
    /// evaluated when it is a symbol or a list (a list result gives its
    /// first element), are folded onto it from the left.
    pub fn arithmetic(&mut self, op: Builtin, args: &Value, depth: u64) -> (r: Result<Value, Error>)
        requires
            is_arithmetic(op),
        ensures
            builtin_outcome(op, old(self).symbols, args@, r),
            depth > 0 ==> simple_outcome(op, old(self).symbols, args@, r),
            depth > 1 ==> first_symbol_outcome(op, old(self).symbols, args@, r),
            elements(args@).len() < 2 ==> r is Err && r->Err_0.message@ == operator_text(op)
                + " takes at least 2 arguments, got: "@ + crate::render::decimal(
                elements(args@).len(),
            ),
        decreases depth, 2u64,
    {
        let chain = chain_of(args);
        if chain.len() < 2 {
            let mut m: Vec<char> = Vec::new();
            push_str(&mut m, operator_name(op));
            push_str(&mut m, " takes at least 2 arguments, got: ");
            write_decimal(chain.len() as u64, &mut m);
            assert(m@ =~= operator_text(op) + " takes at least 2 arguments, got: "@
                + crate::render::decimal(elements(args@).len()));
            return Err(runtime_error(m));
        }
        let ghost s = elements(args@);
        proof {
            lemma_datums_index(chain@, 0);
        }
        let first = &chain[0];
        match first {
            Value::UnsignedInteger(_) | Value::Integer(_) => {
                let mut operands: Vec<Value> = Vec::new();
                let mut i: usize = 1;
                proof {
                    assert(datums(Seq::<Value>::empty()) =~= Seq::<Datum>::empty());
                    assert(operands@ =~= Seq::<Value>::empty());
                    assert(s.subrange(1, 1) =~= Seq::<Datum>::empty());
                }
                while i < chain.len()
                    invariant
                        1 <= i <= chain.len(),
                        datums(chain@) == s,
                        chain@.len() == s.len(),
                        s.len() >= 2,
                        s[0] is UnsignedInteger || s[0] is Integer,
                        first@ == s[0],
                        is_arithmetic(op),
                        s == elements(args@),
                        all_numbers(s.drop_first()) ==> datums(operands@) == s.subrange(1, i as int),
                        depth > 0 && simple_arith(old(self).symbols, s) ==> datums(operands@)
                            == simple_values(old(self).symbols, s.drop_first()).subrange(0, i - 1)
                            && same_meaning(old(self).symbols, self.symbols),
                    decreases chain.len() - i,
                {
                    let ghost cur = self.symbols;
                    let ghost vs = simple_values(old(self).symbols, s.drop_first());
                    proof {
                        lemma_datums_index(chain@, i as int);
                        lemma_datums_push(operands@, chain@[i as int]);
                        if depth > 0 && simple_arith(old(self).symbols, s) {
                            assert(s.drop_first()[i - 1] == s[i as int]);
                            assert(simple_value(old(self).symbols, s[i as int]) is Some);
                            assert(vs[i - 1] == simple_value(old(self).symbols, s[i as int])->Some_0);
                            if s[i as int] is Symbol {
                                let n = s[i as int]->Symbol_0;
                                assert(old(self).symbols.resolved(n) == cur.resolved(n));
                            }
                        }
                    }
                    let item = &chain[i];
                    let operand = match item {
                        Value::Byte(_) | Value::UnsignedInteger(_) | Value::Integer(_) => item.copy(),
                        Value::Symbol(_) | Value::QuotedSymbol(_) | Value::List(_) | Value::QuotedList(
                            _,
                        ) => {
                            assert(!all_numbers(s.drop_first())) by {
                                assert(s.drop_first()[i - 1] == s[i as int]);
                            }
                            let e = match self.eval(item.copy(), depth) {
                                Ok(v) => v,
                                Err(e) => {
                                    return Err(e);
                                },
                            };
                            proof {
                                if depth > 0 && simple_arith(old(self).symbols, s) {
                                    assert forall|n: Seq<char>| #[trigger] old(self).symbols.resolved(n)
                                        == self.symbols.resolved(n) by {
                                        assert(old(self).symbols.resolved(n) == cur.resolved(n));
                                        assert(cur.resolved(n) == self.symbols.resolved(n));
                                    }
                                }
                            }
                            if e.is_list() {
                                car(&e)
                            } else {
                                e
                            }
                        },
                        _ => {
                            assert(!all_numbers(s.drop_first())) by {
                                assert(s.drop_first()[i - 1] == s[i as int]);
                            }
                            assert(!(depth > 0 && simple_arith(old(self).symbols, s)));
                            return Err(
                                message_with("called with unexpected, non-numerical value: ", item),
                            );
                        },
                    };
                    proof {
                        lemma_datums_push(operands@, operand);
                        if all_numbers(s.drop_first()) {
                            assert(s.subrange(1, i + 1) =~= s.subrange(1, i as int).push(s[i as int]));
                        }
                        if depth > 0 && simple_arith(old(self).symbols, s) {
                            assert(vs.subrange(0, i as int) =~= vs.subrange(0, i - 1).push(vs[i - 1]));
                        }
                    }
                    operands.push(operand);
                    i = i + 1;
                }
                proof {
                    assert(s.subrange(1, s.len() as int) =~= s.drop_first());
                    let vs = simple_values(old(self).symbols, s.drop_first());
                    assert(vs.subrange(0, vs.len() as int) =~= vs);
                }
                fold_numbers(op, first, &operands)
            },
            Value::Symbol(_) | Value::QuotedSymbol(_) | Value::List(_) | Value::QuotedList(_) => {
                if depth == 0 {
                    return Err(too_deep());
                }
                let ghost t0 = self.symbols;
                let e = match self.eval(first.copy(), depth) {
                    Ok(v) => v,
                    Err(e) => {
                        return Err(e);
                    },
                };
                let ghost t1 = self.symbols;
                let head = if e.is_list() {
                    car(&e)
                } else {
                    e
                };
                let mut again: Vec<Value> = Vec::new();
                again.push(head);
                proof {
                    lemma_datums_push(Seq::<Value>::empty(), head);
                    assert(Seq::<Value>::empty().push(head) =~= again@);
                    assert(datums(Seq::<Value>::empty()) =~= Seq::<Datum>::empty());
                    assert(datums(again@) =~= seq![head@] + s.subrange(1, 1));
                }
                let mut i: usize = 1;
                while i < chain.len()
                    invariant
                        1 <= i <= chain.len(),
                        datums(chain@) == s,
                        chain@.len() == s.len(),
                        datums(again@) == seq![head@] + s.subrange(1, i as int),
                    decreases chain.len() - i,
                {
                    proof {
                        lemma_datums_index(chain@, i as int);
                    }
                    let c = chain[i].copy();
                    proof {
                        lemma_datums_push(again@, c);
                        assert(seq![head@] + s.subrange(1, i + 1) =~= (seq![head@] + s.subrange(
                            1,
                            i as int,
                        )).push(s[i as int]));
                    }
                    again.push(c);
                    i = i + 1;
                }
                proof {
                    lemma_datums_len(again@);
                    assert(s.subrange(1, s.len() as int) =~= s.drop_first());
                }
                let retried = Value::list(again);
                let r = self.arithmetic(op, &retried, depth - 1);
                proof {
                    if depth > 1 && first_symbol_arith(op, t0, args@) is Some {
                        let rs = elements(retried@);
                        assert(rs =~= seq![head@] + s.drop_first());
                        assert(rs.drop_first() =~= s.drop_first());
                        assert forall|n: Seq<char>| #[trigger] t0.resolved(n) == t1.resolved(n) by {}
                        assert(simple_values(t1, s.drop_first()) =~= simple_values(t0, s.drop_first()))
                            by {
                            assert forall|k: int| 0 <= k < s.drop_first().len() implies simple_value(
                                t1,
                                #[trigger] s.drop_first()[k],
                            ) == simple_value(t0, s.drop_first()[k]) by {
                                let d = s.drop_first()[k];
                                if d is Symbol {
                                    assert(t0.resolved(d->Symbol_0) == t1.resolved(d->Symbol_0));
                                }
                            }
                        }
                        assert(all_simple(t1, s.drop_first())) by {
                            assert forall|k: int| 0 <= k < s.drop_first().len() implies (#[trigger] simple_value(
                                t1,
                                s.drop_first()[k],
                            )) is Some by {
                                let d = s.drop_first()[k];
                                assert(simple_value(t0, d) is Some);
                                if d is Symbol {
                                    assert(t0.resolved(d->Symbol_0) == t1.resolved(d->Symbol_0));
                                }
                            }
                        }
                        assert(simple_arith(t1, rs));
                    }
                }
                r
            },
            other => Err(message_with("called with non-numerical value: ", other)),
        }
    }
}


/// The error for a failed read, with its position in the message.
pub fn parse_failure(e: crate::parser::ParseError) -> (r: Error)
    ensures
        r.kind == ErrorType::ParserError,
{
    let mut m: Vec<char> = Vec::new();
    crate::render::push_all(&mut m, &e.message);
    match &e.info {
        Some(span) => {
            push_str(&mut m, " at line ");
            write_decimal(span.start_pos.line as u64, &mut m);
            push_str(&mut m, ", column ");
            write_decimal(span.start_pos.column as u64, &mut m);
        },
        None => {},
    }
    Error::new(string_of(&m), ErrorType::ParserError)
}

impl Context {
    /// Binds `name` globally to the function with parameters `args` and body
    /// `body`; returns its value form `(name params body...)`.
    pub fn register_function(&mut self, name: String, args: Value, body: Value) -> (r: Value)
        ensures
            r@ == sym_value(SymModel::Defun(name@, args@, body@)),
            forall|n: Seq<char>| #[trigger] final(self).symbols.globals.find(n) == if n == name@ {
                Some(SymModel::Defun(name@, args@, body@))
            } else {
                old(self).symbols.globals.find(n)
            },
            final(self).symbols.locals == old(self).symbols.locals,
            final(self).symbols.function_locals == old(self).symbols.function_locals,
    {
        let label = name.clone();
        self.symbols.set_global(name, Sym::Function(Function::Defun { name: label, args, body }))
    }

    /// Whether `v` is a symbol bound to a function (an unbound symbol is
    /// declared in `locals` as itself).
    pub fn symbol_is_function(&mut self, v: &Value) -> (r: bool)
        ensures
            r == (v@ matches Datum::Symbol(n) && !(old(self).symbols.resolved(n) is Value)),
            same_meaning(old(self).symbols, final(self).symbols),
    {
        match v {
            Value::Symbol(name) => {
                let sym = self.symbols.get(name);
                match sym {
                    Sym::Function(_) => true,
                    Sym::Value(_) => false,
                }
            },
            _ => false,
        }
    }

    /// The function `name` is bound to, if it is bound to one.
    pub fn get_symbol_function(&mut self, name: &String) -> (r: Option<Function>)
        ensures
            r is Some <==> !(old(self).symbols.resolved(name@) is Value),
            r matches Some(f) ==> sym_model(Sym::Function(f)) == old(self).symbols.resolved(name@)
                && *final(self) == *old(self),
            same_meaning(old(self).symbols, final(self).symbols),
    {
        match self.symbols.get(name) {
            Sym::Function(f) => Some(f),
            Sym::Value(_) => None,
        }
    }

    /// Calls the function bound to `name` on `args`; when `name` is not
    /// bound to a function, the list of `name` followed by the elements of
    /// `args`.
    pub fn eval_symbol_function(&mut self, name: &String, args: &Value, depth: u64) -> (r: Result<
        Value,
        Error,
    >)
        ensures
            old(self).symbols.resolved(name@) is Value ==> r is Ok && r->Ok_0@ == Datum::List(
                seq![Datum::Symbol(name@)] + elements(args@),
            ),
            call_result(old(self).symbols.resolved(name@), args@, depth, old(self).symbols, r),
            old(self).symbols.resolved(name@) matches SymModel::Defun(n, p, body) ==> defun_outcome(
                n,
                p,
                body,
                args@,
                depth,
                *old(self),
                *final(self),
                r,
            ),
        decreases depth, 6u64,
    {
        match self.get_symbol_function(name) {
            Some(f) => f.call(self, args, depth),
            None => {
                let mut items: Vec<Value> = Vec::new();
                let head = Value::Symbol(name.clone());
                items.push(head);
                proof {
                    lemma_datums_push(Seq::<Value>::empty(), head);
                    assert(Seq::<Value>::empty().push(head) =~= items@);
                    assert(datums(Seq::<Value>::empty()) =~= Seq::<Datum>::empty());
                    assert(datums(items@) =~= seq![Datum::Symbol(name@)]);
                }
                crate::value::push_elements(&mut items, args);
                Ok(Value::List(items))
            },
        }
    }

    /// Reads `source` and evaluates the value it holds.
    pub fn eval_string(&mut self, source: &str, depth: u64) -> (r: Result<Value, Error>)
        ensures
            depth > 0 && crate::parser::blank(source@) ==> r is Ok && r->Ok_0@ == Datum::Nil,
    {
        match crate::parser::parse_source(source) {
            Ok(v) => self.eval(v, depth),
            Err(e) => Err(parse_failure(e)),
        }
    }

    pub fn set_global(&mut self, name: String, sym: Sym) -> (r: Value)
        ensures
            r@ == sym_value(sym@),
            forall|n: Seq<char>| #[trigger] final(self).symbols.globals.find(n) == if n == name@ {
                Some(sym@)
            } else {
                old(self).symbols.globals.find(n)
            },
            final(self).symbols.locals == old(self).symbols.locals,
            final(self).symbols.function_locals == old(self).symbols.function_locals,
    {
        self.symbols.set_global(name, sym)
    }

    pub fn set_local(&mut self, name: String, sym: Sym) -> (r: Value)
        ensures
            r@ == sym_value(sym@),
            forall|n: Seq<char>| #[trigger] final(self).symbols.locals.find(n) == if n == name@ {
                Some(sym@)
            } else {
                old(self).symbols.locals.find(n)
            },
            final(self).symbols.globals == old(self).symbols.globals,
            final(self).symbols.function_locals == old(self).symbols.function_locals,
    {
        self.symbols.set_local(name, sym)
    }

    pub fn set_function_local(&mut self, name: String, sym: Sym) -> (r: Value)
        ensures
            r@ == sym_value(sym@),
            forall|n: Seq<char>| #[trigger] final(self).symbols.function_locals.find(n) == if n
                == name@ {
                Some(sym@)
            } else {
                old(self).symbols.function_locals.find(n)
            },
            final(self).symbols.globals == old(self).symbols.globals,
            final(self).symbols.locals == old(self).symbols.locals,
    {
        self.symbols.set_function_local(name, sym)
    }
}


/// Quoting identity: `(quote v)` gives `v` quoted, for every symbol or
/// list `v`, and evaluating a quoted value gives it back unchanged (see the
/// contract of [`Context::eval`]).
pub proof fn lemma_quoting_identity(t: SymbolTable, d: Datum)
    requires
        d is Symbol || d is QuotedSymbol || d is List || d is QuotedList,
    ensures
        builtin_spec(Builtin::Quote, t, Datum::List(seq![d])) == Some(
            Some(crate::value::quote_of(d)),
        ),
        is_quoted(crate::value::quote_of(d)),
{
    assert(elements(Datum::List(seq![d])) == seq![d]);
}

/// Arity: an arithmetic builtin given fewer than two arguments fails.
pub proof fn lemma_arithmetic_arity(t: SymbolTable, op: Builtin, args: Datum)
    requires
        is_arithmetic(op),
        elements(args).len() < 2,
    ensures
        builtin_spec(op, t, args) == Some(None::<Datum>),
{
}


/// The function that `(defun name params body...)` defines, from the
/// argument list `s` of `defun`.
pub open spec fn defined(s: Seq<Datum>) -> SymModel {
    SymModel::Defun(
        s[0]->Symbol_0,
        if s.len() > 1 { s[1] } else { Datum::Nil },
        if s.len() > 2 { list_of(s.subrange(2, s.len() as int)) } else { Datum::Nil },
    )
}


/// Tables in which every name stands for the same thing give the same
/// call outcomes.
pub proof fn lemma_call_result_same_meaning(
    m: SymModel,
    args: Datum,
    depth: u64,
    t1: SymbolTable,
    t2: SymbolTable,
    r: Result<Value, Error>,
)
    requires
        same_meaning(t1, t2),
    ensures
        call_result(m, args, depth, t1, r) == call_result(m, args, depth, t2, r),
{
    assert forall|d: Datum| #[trigger] simple_value(t1, d) == simple_value(t2, d) by {
        if d is Symbol {
            assert(t1.resolved(d->Symbol_0) == t2.resolved(d->Symbol_0));
        }
    }
    let s = elements(args);
    lemma_simple_same(t1, t2, s);
    if s.len() > 0 {
        lemma_simple_same(t1, t2, s.drop_first());
    }
}

proof fn lemma_simple_same(t1: SymbolTable, t2: SymbolTable, s: Seq<Datum>)
    requires
        forall|d: Datum| #[trigger] simple_value(t1, d) == simple_value(t2, d),
    ensures
        simple_values(t1, s) == simple_values(t2, s),
        all_simple(t1, s) == all_simple(t2, s),
{
    assert(simple_values(t1, s) =~= simple_values(t2, s));
    if all_simple(t1, s) {
        assert forall|i: int| 0 <= i < s.len() implies (#[trigger] simple_value(t2, s[i])) is Some by {
            assert(simple_value(t1, s[i]) is Some);
        }
    }
    if all_simple(t2, s) {
        assert forall|i: int| 0 <= i < s.len() implies (#[trigger] simple_value(t1, s[i])) is Some by {
            assert(simple_value(t2, s[i]) is Some);
        }
    }
}

} // verus!
