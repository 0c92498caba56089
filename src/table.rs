//! Symbol entries, scopes, and the three-tier symbol table.
use vstd::prelude::*;
use crate::value::{datum, datums, elements, Datum, Value};

verus! {

broadcast use vstd::std_specs::vec::group_vec_axioms, vstd::seq::group_seq_axioms;

/// The native functions of the language.
#[derive(Clone, Copy, Debug, PartialEq, Eq, Structural)]
pub enum Builtin {
    T,
    Setq,
    Defun,
    Car,
    Cdr,
    Cons,
    List,
    Append,
    Quote,
    Print,
    Backquote,
    If,
    Listp,
    Null,
    Mul,
    Add,
    Sub,
    Div,
}

/// A callable: a native function, or one defined by `defun` with its
/// parameter list and its body (a list of expressions).
#[derive(Debug, PartialEq, Eq)]
pub enum Function {
    Builtin { name: String, function: Builtin },
    Defun { name: String, args: Value, body: Value },
}

/// What a symbol is bound to.
#[derive(Debug, PartialEq, Eq)]
pub enum Sym {
    Value(Value),
    Function(Function),
}

/// The model of a [`Sym`].
pub enum SymModel {
    Value(Datum),
    Builtin(Seq<char>, Builtin),
    Defun(Seq<char>, Datum, Datum),
}

pub open spec fn sym_model(s: Sym) -> SymModel {
    match s {
        Sym::Value(v) => SymModel::Value(datum(v)),
        Sym::Function(Function::Builtin { name, function }) => SymModel::Builtin(name@, function),
        Sym::Function(Function::Defun { name, args, body }) => SymModel::Defun(
            name@,
            datum(args),
            datum(body),
        ),
    }
}

impl View for Sym {
    type V = SymModel;

    open spec fn view(&self) -> SymModel {
        sym_model(*self)
    }
}

/// The value a binding stands for: the value itself, the bare name of a
/// builtin, or `(name params body...)` for a defined function.
pub open spec fn sym_value(m: SymModel) -> Datum {
    match m {
        SymModel::Value(d) => d,
        SymModel::Builtin(n, _) => Datum::Symbol(n),
        SymModel::Defun(n, params, body) => Datum::List(
            seq![Datum::Symbol(n), params] + elements(body),
        ),
    }
}

impl Function {
    pub fn is_builtin(&self) -> (r: bool)
        ensures
            r == (self is Builtin),
    {
        match self {
            Function::Builtin { .. } => true,
            _ => false,
        }
    }

    pub fn is_defun(&self) -> (r: bool)
        ensures
            r == (self is Defun),
    {
        match self {
            Function::Defun { .. } => true,
            _ => false,
        }
    }

    pub fn copy(&self) -> (r: Function)
        ensures
            sym_model(Sym::Function(r)) == sym_model(Sym::Function(*self)),
    {
        match self {
            Function::Builtin { name, function } => Function::Builtin {
                name: name.clone(),
                function: *function,
            },
            Function::Defun { name, args, body } => Function::Defun {
                name: name.clone(),
                args: args.copy(),
                body: body.copy(),
            },
        }
    }
}

impl Sym {
    pub fn copy(&self) -> (r: Sym)
        ensures
            r@ == self@,
    {
        match self {
            Sym::Value(v) => Sym::Value(v.copy()),
            Sym::Function(f) => Sym::Function(f.copy()),
        }
    }

    /// The value this binding stands for.
    pub fn as_value(&self) -> (r: Value)
        ensures
            r@ == sym_value(self@),
    {
        match self {
            Sym::Value(v) => v.copy(),
            Sym::Function(Function::Builtin { name, .. }) => Value::Symbol(name.clone()),
            Sym::Function(Function::Defun { name, args, body }) => {
                let mut items: Vec<Value> = Vec::new();
                let head = Value::Symbol(name.clone());
                let params = args.copy();
                items.push(head);
                items.push(params);
                proof {
                    crate::value::lemma_datums_push(Seq::<Value>::empty(), head);
                    assert(Seq::<Value>::empty().push(head) =~= items@.subrange(0, 1));
                    assert(items@.subrange(0, 1).push(params) =~= items@);
                    crate::value::lemma_datums_push(items@.subrange(0, 1), params);
                    assert(datums(Seq::<Value>::empty()) =~= Seq::<Datum>::empty());
                    assert(datums(items@) =~= seq![Datum::Symbol(name@), datum(*args)]);
                }
                crate::value::push_elements(&mut items, body);
                Value::List(items)
            },
        }
    }
}

/// A name bound to a [`Sym`].
#[derive(Debug, PartialEq, Eq)]
pub struct Binding {
    pub name: String,
    pub sym: Sym,
}

/// The binding of `n` in `s`: the last one of that name.
pub open spec fn lookup(s: Seq<Binding>, n: Seq<char>) -> Option<SymModel>
    decreases s.len(),
{
    if s.len() == 0 {
        None
    } else if s.last().name@ == n {
        Some(s.last().sym@)
    } else {
        lookup(s.drop_last(), n)
    }
}

/// The model of an optional entry.
pub open spec fn option_model(o: Option<Sym>) -> Option<SymModel> {
    match o {
        Some(s) => Some(s@),
        None => None,
    }
}

proof fn lemma_lookup_update(s: Seq<Binding>, i: int, b: Binding, n: Seq<char>)
    requires
        0 <= i < s.len(),
        s[i].name@ == b.name@,
        forall|k: int| i < k < s.len() ==> s[k].name@ != b.name@,
    ensures
        lookup(s.update(i, b), n) == if n == b.name@ {
            Some(b.sym@)
        } else {
            lookup(s, n)
        },
    decreases s.len(),
{
    if i == s.len() - 1 {
        assert(s.update(i, b).drop_last() =~= s.drop_last());
    } else {
        assert(s.update(i, b).drop_last() =~= s.drop_last().update(i, b));
        lemma_lookup_update(s.drop_last(), i, b, n);
    }
}

/// One scope: names bound to entries, each name at most once.
#[derive(Debug, PartialEq, Eq)]
pub struct Scope {
    pub entries: Vec<Binding>,
}

impl Scope {
    /// Each name is bound at most once.
    pub open spec fn wf(&self) -> bool {
        forall|i: int, j: int|
            0 <= i < j < self.entries@.len() ==> (#[trigger] self.entries@[i]).name@ != (
            #[trigger] self.entries@[j]).name@
    }

    /// The entry bound to `n`, if any.
    pub open spec fn find(&self, n: Seq<char>) -> Option<SymModel> {
        lookup(self.entries@, n)
    }

    pub fn new() -> (r: Scope)
        ensures
            r.wf(),
            forall|n: Seq<char>| #[trigger] r.find(n) is None,
    {
        Scope { entries: Vec::new() }
    }

    /// A copy of the entry bound to `name`.
    pub fn get(&self, name: &String) -> (r: Option<Sym>)
        ensures
            option_model(r) == self.find(name@),
    {
        let mut j: usize = self.entries.len();
        assert(self.entries@.subrange(0, j as int) =~= self.entries@);
        while j > 0
            invariant
                j <= self.entries.len(),
                lookup(self.entries@, name@) == lookup(self.entries@.subrange(0, j as int), name@),
            decreases j,
        {
            let ghost pre = self.entries@.subrange(0, j as int);
            assert(pre.drop_last() =~= self.entries@.subrange(0, j - 1));
            if self.entries[j - 1].name == *name {
                return Some(self.entries[j - 1].sym.copy());
            }
            j = j - 1;
        }
        None
    }

    /// Binds `name` to `sym`, replacing the entry it had.
    pub fn set(&mut self, name: String, sym: Sym)
        ensures
            old(self).wf() ==> final(self).wf(),
            forall|n: Seq<char>| #[trigger] final(self).find(n) == if n == name@ {
                Some(sym@)
            } else {
                old(self).find(n)
            },
    {
        let mut j: usize = self.entries.len();
        while j > 0
            invariant
                j <= self.entries.len(),
                self.entries@ == old(self).entries@,
                forall|k: int| j <= k < self.entries@.len() ==> self.entries@[k].name@ != name@,
            decreases j,
        {
            if self.entries[j - 1].name == name {
                let ghost s = self.entries@;
                let b = Binding { name, sym };
                let ghost bb = b;
                self.entries.set(j - 1, b);
                assert(old(self).wf() ==> self.wf()) by {
                    if old(self).wf() {
                        assert forall|a: int, c: int|
                            0 <= a < c < self.entries@.len() implies (#[trigger] self.entries@[a]).name@
                            != (#[trigger] self.entries@[c]).name@ by {
                            assert(self.entries@[a].name@ == s[a].name@);
                            assert(self.entries@[c].name@ == s[c].name@);
                        }
                    }
                }
                assert forall|n: Seq<char>| #[trigger] self.find(n) == if n == bb.name@ {
                    Some(bb.sym@)
                } else {
                    old(self).find(n)
                } by {
                    lemma_lookup_update(s, j - 1, bb, n);
                }
                return;
            }
            j = j - 1;
        }
        let ghost s = self.entries@;
        self.entries.push(Binding { name, sym });
        assert(self.entries@.drop_last() =~= s);
        assert(old(self).wf() ==> self.wf()) by {
            if old(self).wf() {
                assert forall|a: int, c: int|
                    0 <= a < c < self.entries@.len() implies (#[trigger] self.entries@[a]).name@ != (
                    #[trigger] self.entries@[c]).name@ by {
                    if c == s.len() {
                        assert(s[a].name@ != name@);
                    } else {
                        assert(self.entries@[a] == s[a]);
                        assert(self.entries@[c] == s[c]);
                    }
                }
            }
        }
    }

    /// Binds every name of `other` as `other` binds it.
    pub fn extend(&mut self, other: &Scope)
        ensures
            old(self).wf() ==> final(self).wf(),
            forall|n: Seq<char>| #[trigger] final(self).find(n) == match other.find(n) {
                Some(x) => Some(x),
                None => old(self).find(n),
            },
    {
        let mut i: usize = 0;
        assert(other.entries@.subrange(0, 0) =~= Seq::<Binding>::empty());
        while i < other.entries.len()
            invariant
                i <= other.entries.len(),
                old(self).wf() ==> self.wf(),
                forall|n: Seq<char>| #[trigger] self.find(n) == match lookup(
                    other.entries@.subrange(0, i as int),
                    n,
                ) {
                    Some(x) => Some(x),
                    None => old(self).find(n),
                },
            decreases other.entries.len() - i,
        {
            let name = other.entries[i].name.clone();
            let sym = other.entries[i].sym.copy();
            self.set(name, sym);
            assert(other.entries@.subrange(0, i + 1).drop_last() =~= other.entries@.subrange(
                0,
                i as int,
            ));
            i = i + 1;
        }
        assert(other.entries@.subrange(0, other.entries@.len() as int) =~= other.entries@);
    }

    pub fn copy(&self) -> (r: Scope)
        ensures
            r.wf(),
            forall|n: Seq<char>| #[trigger] r.find(n) == self.find(n),
    {
        let mut r = Scope::new();
        r.extend(self);
        r
    }
}


/// The builtin registered under `n`, if any.
pub open spec fn builtin_named(n: Seq<char>) -> Option<Builtin> {
    if n == "/"@ { Some(Builtin::Div) }
    else if n == "-"@ { Some(Builtin::Sub) }
    else if n == "+"@ { Some(Builtin::Add) }
    else if n == "*"@ { Some(Builtin::Mul) }
    else if n == "null"@ { Some(Builtin::Null) }
    else if n == "listp"@ { Some(Builtin::Listp) }
    else if n == "if"@ { Some(Builtin::If) }
    else if n == "backquote"@ { Some(Builtin::Backquote) }
    else if n == "print"@ { Some(Builtin::Print) }
    else if n == "quote"@ { Some(Builtin::Quote) }
    else if n == "append"@ { Some(Builtin::Append) }
    else if n == "list"@ { Some(Builtin::List) }
    else if n == "cons"@ { Some(Builtin::Cons) }
    else if n == "cdr"@ { Some(Builtin::Cdr) }
    else if n == "car"@ { Some(Builtin::Car) }
    else if n == "defun"@ { Some(Builtin::Defun) }
    else if n == "setq"@ { Some(Builtin::Setq) }
    else if n == "t"@ { Some(Builtin::T) }
    else { None }
}

/// The registry entry of `n`.
pub open spec fn builtin_entry(n: Seq<char>) -> Option<SymModel> {
    match builtin_named(n) {
        Some(b) => Some(SymModel::Builtin(n, b)),
        None => None,
    }
}

fn register(scope: &mut Scope, name: &str, function: Builtin)
    ensures
        old(scope).wf() ==> final(scope).wf(),
        forall|n: Seq<char>| #[trigger] final(scope).find(n) == if n == name@ {
            Some(SymModel::Builtin(name@, function))
        } else {
            old(scope).find(n)
        },
{
    let key = String::from_str(name);
    let label = String::from_str(name);
    scope.set(key, Sym::Function(Function::Builtin { name: label, function }));
}

/// The symbols of a program: `globals`, `locals` and `function_locals`,
/// searched in the order function-locals, locals, globals.
#[derive(Debug, PartialEq, Eq)]
pub struct SymbolTable {
    pub globals: Scope,
    pub locals: Scope,
    pub function_locals: Scope,
}

impl SymbolTable {
    /// Each scope binds each name at most once.
    pub open spec fn wf(&self) -> bool {
        self.globals.wf() && self.locals.wf() && self.function_locals.wf()
    }

    /// The first binding of `n` in the order function-locals, locals, globals.
    pub open spec fn resolve(&self, n: Seq<char>) -> Option<SymModel> {
        match self.function_locals.find(n) {
            Some(x) => Some(x),
            None => match self.locals.find(n) {
                Some(x) => Some(x),
                None => self.globals.find(n),
            },
        }
    }

    /// What `n` stands for: its binding, or the symbol itself when unbound.
    pub open spec fn resolved(&self, n: Seq<char>) -> SymModel {
        match self.resolve(n) {
            Some(x) => x,
            None => SymModel::Value(Datum::Symbol(n)),
        }
    }

    pub fn new() -> (r: SymbolTable)
        ensures
            r.wf(),
            forall|n: Seq<char>| #[trigger] r.globals.find(n) == builtin_entry(n),
            forall|n: Seq<char>| #[trigger] r.locals.find(n) is None,
            forall|n: Seq<char>| #[trigger] r.function_locals.find(n) is None,
    {
        SymbolTable::with_locals(Scope::new())
    }

    /// A table with the builtin registry in `globals` and the given locals.
    pub fn with_locals(locals: Scope) -> (r: SymbolTable)
        ensures
            r.globals.wf() && r.function_locals.wf(),
            forall|n: Seq<char>| #[trigger] r.globals.find(n) == builtin_entry(n),
            r.locals == locals,
            forall|n: Seq<char>| #[trigger] r.function_locals.find(n) is None,
    {
        let mut globals = Scope::new();
        register(&mut globals, "t", Builtin::T);
        register(&mut globals, "setq", Builtin::Setq);
        register(&mut globals, "defun", Builtin::Defun);
        register(&mut globals, "car", Builtin::Car);
        register(&mut globals, "cdr", Builtin::Cdr);
        register(&mut globals, "cons", Builtin::Cons);
        register(&mut globals, "list", Builtin::List);
        register(&mut globals, "append", Builtin::Append);
        register(&mut globals, "quote", Builtin::Quote);
        register(&mut globals, "print", Builtin::Print);
        register(&mut globals, "backquote", Builtin::Backquote);
        register(&mut globals, "if", Builtin::If);
        register(&mut globals, "listp", Builtin::Listp);
        register(&mut globals, "null", Builtin::Null);
        register(&mut globals, "*", Builtin::Mul);
        register(&mut globals, "+", Builtin::Add);
        register(&mut globals, "-", Builtin::Sub);
        register(&mut globals, "/", Builtin::Div);
        SymbolTable { globals, locals, function_locals: Scope::new() }
    }

    /// The entry `name` stands for. An unbound name is declared in `locals`
    /// as the symbol itself.
    pub fn get(&mut self, name: &String) -> (r: Sym)
        ensures
            old(self).wf() ==> final(self).wf(),
            r@ == old(self).resolved(name@),
            old(self).resolve(name@) is Some ==> *final(self) == *old(self),
            forall|n: Seq<char>| #[trigger] final(self).resolved(n) == old(self).resolved(n),
            final(self).globals == old(self).globals,
            final(self).function_locals == old(self).function_locals,
            forall|n: Seq<char>| #[trigger] final(self).locals.find(n) == if n == name@ && old(
                self,
            ).resolve(name@) is None {
                Some(SymModel::Value(Datum::Symbol(name@)))
            } else {
                old(self).locals.find(n)
            },
    {
        if let Some(s) = self.function_locals.get(name) {
            return s;
        }
        if let Some(s) = self.locals.get(name) {
            return s;
        }
        if let Some(s) = self.globals.get(name) {
            return s;
        }
        self.locals.set(name.clone(), Sym::Value(Value::Symbol(name.clone())));
        Sym::Value(Value::Symbol(name.clone()))
    }

    /// Binds `name` in `globals`; returns the value of what was stored.
    pub fn set_global(&mut self, name: String, sym: Sym) -> (r: Value)
        ensures
            old(self).wf() ==> final(self).wf(),
            r@ == sym_value(sym@),
            forall|n: Seq<char>| #[trigger] final(self).globals.find(n) == if n == name@ {
                Some(sym@)
            } else {
                old(self).globals.find(n)
            },
            final(self).locals == old(self).locals,
            final(self).function_locals == old(self).function_locals,
    {
        let r = sym.as_value();
        self.globals.set(name, sym);
        r
    }

    /// Binds `name` in `locals`; returns the value of what was stored.
    pub fn set_local(&mut self, name: String, sym: Sym) -> (r: Value)
        ensures
            old(self).wf() ==> final(self).wf(),
            r@ == sym_value(sym@),
            forall|n: Seq<char>| #[trigger] final(self).locals.find(n) == if n == name@ {
                Some(sym@)
            } else {
                old(self).locals.find(n)
            },
            final(self).globals == old(self).globals,
            final(self).function_locals == old(self).function_locals,
    {
        let r = sym.as_value();
        self.locals.set(name, sym);
        r
    }

    /// Binds `name` in `function_locals`; returns the value of what was stored.
    pub fn set_function_local(&mut self, name: String, sym: Sym) -> (r: Value)
        ensures
            old(self).wf() ==> final(self).wf(),
            r@ == sym_value(sym@),
            forall|n: Seq<char>| #[trigger] final(self).function_locals.find(n) == if n == name@ {
                Some(sym@)
            } else {
                old(self).function_locals.find(n)
            },
            final(self).globals == old(self).globals,
            final(self).locals == old(self).locals,
    {
        let r = sym.as_value();
        self.function_locals.set(name, sym);
        r
    }

    /// Takes over the globals and locals of `other`, which win on a clash.
    pub fn extend(&mut self, other: &SymbolTable)
        ensures
            old(self).wf() ==> final(self).wf(),
            forall|n: Seq<char>| #[trigger] final(self).globals.find(n) == match other.globals.find(n) {
                Some(x) => Some(x),
                None => old(self).globals.find(n),
            },
            forall|n: Seq<char>| #[trigger] final(self).locals.find(n) == match other.locals.find(n) {
                Some(x) => Some(x),
                None => old(self).locals.find(n),
            },
            final(self).function_locals == old(self).function_locals,
    {
        self.globals.extend(&other.globals);
        self.locals.extend(&other.locals);
    }

    /// A table that binds every name as this one does.
    pub fn copy(&self) -> (r: SymbolTable)
        ensures
            r.wf(),
            forall|n: Seq<char>| #[trigger] r.globals.find(n) == self.globals.find(n),
            forall|n: Seq<char>| #[trigger] r.locals.find(n) == self.locals.find(n),
            forall|n: Seq<char>| #[trigger] r.function_locals.find(n) == self.function_locals.find(n),
    {
        SymbolTable {
            globals: self.globals.copy(),
            locals: self.locals.copy(),
            function_locals: self.function_locals.copy(),
        }
    }
}

/// A binding made through the function-local tier hides a local or global
/// binding of the same name, and a local one hides a global one.
pub proof fn lemma_resolution_order(t: SymbolTable, n: Seq<char>)
    ensures
        t.function_locals.find(n) is Some ==> t.resolve(n) == t.function_locals.find(n),
        t.function_locals.find(n) is None && t.locals.find(n) is Some ==> t.resolve(n)
            == t.locals.find(n),
        t.function_locals.find(n) is None && t.locals.find(n) is None ==> t.resolve(n)
            == t.globals.find(n),
{
}


/// Scope order: a symbol bound as a local and then as a function-local
/// (a parameter) stands for its function-local binding; with no
/// function-local binding it stands for the local one.
pub proof fn lemma_function_local_shadows_local(
    t0: SymbolTable,
    t1: SymbolTable,
    t2: SymbolTable,
    n: Seq<char>,
    local: SymModel,
    param: SymModel,
)
    requires
        t1.locals.find(n) == Some(local),
        t1.function_locals.find(n) is None,
        t2.function_locals.find(n) == Some(param),
        t2.locals.find(n) == t1.locals.find(n),
    ensures
        t1.resolved(n) == local,
        t2.resolved(n) == param,
{
}

/// A name bound nowhere stands for the symbol itself.
pub proof fn lemma_unbound_is_itself(t: SymbolTable, n: Seq<char>)
    requires
        t.resolve(n) is None,
    ensures
        sym_value(t.resolved(n)) == Datum::Symbol(n),
{
}

} // verus!
