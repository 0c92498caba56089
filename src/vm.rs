//! The virtual machine: the persistent symbol table and top-level evaluation.
use vstd::prelude::*;
use vstd::string::StringExecFns;
use crate::context::{call_result, calls_function, lemma_call_result_same_meaning, head_builtin, same_meaning, setq_effect, Context, MAX_DEPTH};
use crate::error::Error;
use crate::table::{Scope, Sym, SymModel, SymbolTable, builtin_entry};
use crate::value::{is_quoted, Datum, Value};

verus! {

broadcast use vstd::std_specs::vec::group_vec_axioms, vstd::seq::group_seq_axioms;

/// The owner of the canonical symbol table. Each top-level evaluation runs
/// in a fresh [`Context`] holding a copy of the table; when it succeeds, the
/// context's globals and locals are merged back.
#[derive(Debug, PartialEq, Eq)]
pub struct VirtualMachine {
    pub symbols: SymbolTable,
    pub output: Vec<String>,
}

/// Two tables that bind the same names the same way in each scope.
pub open spec fn same_table(a: SymbolTable, b: SymbolTable) -> bool {
    &&& forall|n: Seq<char>| #[trigger] a.globals.find(n) == b.globals.find(n)
    &&& forall|n: Seq<char>| #[trigger] a.locals.find(n) == b.locals.find(n)
    &&& forall|n: Seq<char>| #[trigger] a.function_locals.find(n) == b.function_locals.find(n)
}

/// What a top-level evaluation of `d` from the table `before` gives,
/// leaving the table `after`:
/// - on failure the table is unchanged;
/// - a quoted value and `Nil` stand for themselves;
/// - an unbound symbol stands for itself and is kept as a local;
/// - a call of a function follows [`call_result`];
/// - a successful `setq` keeps its local binding.
pub open spec fn vm_eval_outcome(
    before: SymbolTable,
    d: Datum,
    r: Result<Value, Error>,
    after: SymbolTable,
) -> bool {
    &&& r is Err ==> after == before
    &&& is_quoted(d) ==> r is Ok && r->Ok_0@ == d
    &&& d is Nil ==> r is Ok && r->Ok_0@ == Datum::Nil
    &&& (d matches Datum::Symbol(n) && before.resolve(n) is None) ==> r is Ok && r->Ok_0@ == d
        && after.locals.find(d->Symbol_0) == Some(SymModel::Value(d))
    &&& d is List && calls_function(before, d) ==> call_result(
        before.resolved(crate::value::elements(d)[0]->Symbol_0),
        crate::value::cdr_of(d),
        (MAX_DEPTH - 1) as u64,
        before,
        r,
    )
    &&& d is List && head_builtin(before, d) == Some(crate::table::Builtin::Setq) && r is Ok ==> forall|
        n: Seq<char>,
    | #[trigger] after.locals.find(n) == if n == crate::value::elements(crate::value::cdr_of(d))[0]->Symbol_0 {
        Some(SymModel::Value(crate::value::elements(crate::value::cdr_of(d))[1]))
    } else {
        before.locals.find(n)
    }
}

impl VirtualMachine {
    /// A machine with the builtin registry in its globals.
    pub fn new() -> (r: VirtualMachine)
        ensures
            forall|n: Seq<char>| #[trigger] r.symbols.globals.find(n) == builtin_entry(n),
            forall|n: Seq<char>| #[trigger] r.symbols.locals.find(n) is None,
            forall|n: Seq<char>| #[trigger] r.symbols.function_locals.find(n) is None,
    {
        VirtualMachine { symbols: SymbolTable::new(), output: Vec::new() }
    }

    /// Binds `symbol` to `value` in the globals; returns `value`.
    pub fn setq(&mut self, symbol: &str, value: Value) -> (r: Result<Value, Error>)
        ensures
            r is Ok && r->Ok_0@ == value@,
            forall|n: Seq<char>| #[trigger] final(self).symbols.globals.find(n) == if n == symbol@ {
                Some(SymModel::Value(value@))
            } else {
                old(self).symbols.globals.find(n)
            },
            final(self).symbols.locals == old(self).symbols.locals,
    {
        Ok(self.symbols.set_global(String::from_str(symbol), Sym::Value(value)))
    }

    /// A copy of the local bindings.
    pub fn symbols(&self) -> (r: Scope)
        ensures
            forall|n: Seq<char>| #[trigger] r.find(n) == self.symbols.locals.find(n),
    {
        self.symbols.locals.copy()
    }

    /// The lines `print` produced since the last call; they are handed over.
    pub fn take_output(&mut self) -> (r: Vec<String>)
        ensures
            r@ == old(self).output@,
            final(self).output@.len() == 0,
            final(self).symbols == old(self).symbols,
    {
        let mut out: Vec<String> = Vec::new();
        std::mem::swap(&mut out, &mut self.output);
        out
    }

    fn push_context(&self) -> (r: Context)
        ensures
            same_table(r.symbols, self.symbols),
            r.output@.len() == 0,
    {
        Context::new(self.symbols.copy())
    }

    fn update_symbols(&mut self, context: &mut Context)
        ensures
            forall|n: Seq<char>| #[trigger] final(self).symbols.globals.find(n) == match old(
                context,
            ).symbols.globals.find(n) {
                Some(x) => Some(x),
                None => old(self).symbols.globals.find(n),
            },
            forall|n: Seq<char>| #[trigger] final(self).symbols.locals.find(n) == match old(
                context,
            ).symbols.locals.find(n) {
                Some(x) => Some(x),
                None => old(self).symbols.locals.find(n),
            },
            final(self).symbols.function_locals == old(self).symbols.function_locals,
            final(context).symbols == old(context).symbols,
    {
        self.symbols.extend(&context.symbols);
        self.output.append(&mut context.output);
    }

    /// Evaluates `item` (see [`Context::eval`]). On success the definitions
    /// it made are kept; on failure the table is left as it was.
    pub fn eval(&mut self, item: Value) -> (r: Result<Value, Error>)
        ensures
            vm_eval_outcome(old(self).symbols, item@, r, final(self).symbols),
    {
        let mut context = self.push_context();
        let ghost start = context.symbols;
        proof {
            assert forall|n: Seq<char>| #[trigger] start.resolved(n) == self.symbols.resolved(n) by {
                assert(start.globals.find(n) == self.symbols.globals.find(n));
                assert(start.locals.find(n) == self.symbols.locals.find(n));
                assert(start.function_locals.find(n) == self.symbols.function_locals.find(n));
            }
            if item@ is Symbol {
                let n = item@->Symbol_0;
                assert(start.globals.find(n) == self.symbols.globals.find(n));
                assert(start.locals.find(n) == self.symbols.locals.find(n));
                assert(start.function_locals.find(n) == self.symbols.function_locals.find(n));
            }
            let s = crate::value::elements(item@);
            if s.len() > 0 && s[0] is Symbol {
                assert(start.resolved(s[0]->Symbol_0) == self.symbols.resolved(s[0]->Symbol_0));
            }
            assert(head_builtin(start, item@) == head_builtin(self.symbols, item@));
            assert(calls_function(start, item@) == calls_function(self.symbols, item@));
            assert(same_meaning(start, self.symbols));
            assert forall|m: SymModel, a: Datum, r: Result<Value, Error>| #[trigger] call_result(
                m,
                a,
                (MAX_DEPTH - 1) as u64,
                start,
                r,
            ) == call_result(m, a, (MAX_DEPTH - 1) as u64, self.symbols, r) by {
                lemma_call_result_same_meaning(m, a, (MAX_DEPTH - 1) as u64, start, self.symbols, r);
            }
        }
        match context.eval(item, MAX_DEPTH) {
            Ok(value) => {
                self.update_symbols(&mut context);
                Ok(value)
            },
            Err(e) => {
                self.output.append(&mut context.output);
                Err(e)
            },
        }
    }

    /// Reads `source` and evaluates the value it holds.
    pub fn eval_string(&mut self, source: &str) -> (r: Result<Value, Error>)
        ensures
            crate::parser::reads(source@) is None ==> r is Err && r->Err_0.kind
                == crate::error::ErrorType::ParserError && final(self).symbols == old(self).symbols,
            crate::parser::reads(source@) matches Some(d) ==> vm_eval_outcome(
                old(self).symbols,
                d,
                r,
                final(self).symbols,
            ),
            crate::parser::blank(source@) ==> r is Ok && r->Ok_0@ == Datum::Nil,
    {
        match crate::parser::parse_source(source) {
            Ok(v) => self.eval(v),
            Err(e) => Err(crate::context::parse_failure(e)),
        }
    }

    /// Calls the function bound to `symbol` on `list` (see
    /// [`Context::eval_symbol_function`]).
    pub fn eval_symbol_function(&mut self, symbol: &str, list: Value) -> (r: Result<Value, Error>)
        ensures
            r is Err ==> final(self).symbols == old(self).symbols,
            old(self).symbols.resolved(symbol@) is Value ==> r is Ok && r->Ok_0@ == Datum::List(
                seq![Datum::Symbol(symbol@)] + crate::value::elements(list@),
            ),
            call_result(old(self).symbols.resolved(symbol@), list@, MAX_DEPTH, old(self).symbols, r),
    {
        let mut context = self.push_context();
        proof {
            let n = symbol@;
            assert(context.symbols.globals.find(n) == self.symbols.globals.find(n));
            assert(context.symbols.locals.find(n) == self.symbols.locals.find(n));
            assert(context.symbols.function_locals.find(n) == self.symbols.function_locals.find(n));
            assert forall|k: Seq<char>| #[trigger] context.symbols.resolved(k) == self.symbols.resolved(k) by {
                assert(context.symbols.globals.find(k) == self.symbols.globals.find(k));
                assert(context.symbols.locals.find(k) == self.symbols.locals.find(k));
                assert(context.symbols.function_locals.find(k) == self.symbols.function_locals.find(k));
            }
            assert(same_meaning(context.symbols, self.symbols));
            assert forall|m: SymModel, a: Datum, r: Result<Value, Error>| #[trigger] call_result(
                m,
                a,
                MAX_DEPTH,
                context.symbols,
                r,
            ) == call_result(m, a, MAX_DEPTH, self.symbols, r) by {
                lemma_call_result_same_meaning(m, a, MAX_DEPTH, context.symbols, self.symbols, r);
            }
        }
        let name = String::from_str(symbol);
        match context.eval_symbol_function(&name, &list, MAX_DEPTH) {
            Ok(value) => {
                self.update_symbols(&mut context);
                Ok(value)
            },
            Err(e) => {
                self.output.append(&mut context.output);
                Err(e)
            },
        }
    }
}

} // verus!
