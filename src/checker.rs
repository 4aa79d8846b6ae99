use vstd::prelude::*;

use crate::ast::{
    copy_named, find_entry, find_key, named_view, ty_of, Expr, FuncNode,
    ImportKey, Location, Module, Name, Stmt, Ty, Type, TypeValue, Var,
};
use crate::mdir::{
    insert_fun, postfix, shunting_yard_this_mf, stream, sy_run, Ex, Expression, ExternFunction, Function, Fun,
    Lit, Literal, MiddleIR, Mir, St, Statement, Var as IrVar, args_view, lemma_args_of,
    lemma_stream, extern_of, sigs_of, fun_of, sts_of,
};
use crate::parser::ParseError;
use crate::text::{count_text, decimal, push_type_name, ty_name};

verus! {

/// A semantic error: where it was found and what is wrong.
#[derive(Debug)]
pub struct CheckError {
    pub location: Location,
    pub message: String,
}

/// A diagnostic as a value: its location and its message.
pub type Diag = (Location, Seq<char>);

pub open spec fn diags(v: Seq<CheckError>) -> Seq<Diag> {
    v.map_values(|e: CheckError| (e.location, e.message@))
}

pub open spec fn parse_diags(v: Seq<ParseError>) -> Seq<Diag> {
    v.map_values(|e: ParseError| (e.location, e.message@))
}

impl CheckError {
    pub fn new(location: Location, message: String) -> (r: CheckError)
        ensures
            r.location == location,
            r.message == message,
    {
        CheckError { location, message }
    }

    pub fn from_parse_error(error: &ParseError) -> (r: CheckError)
        ensures
            r.location == error.location,
            r.message@ == error.message@,
    {
        CheckError { location: error.location, message: error.message.clone() }
    }
}

// Messages.
pub open spec fn mismatch_msg(op: Seq<char>, a: Ty, b: Ty) -> Seq<char> {
    "Cannot `"@ + ty_name(a) + " "@ + op + " "@ + ty_name(b) + "` as these types do not match."@
}

pub open spec fn undefined_msg(k: Seq<char>) -> Seq<char> {
    "Identifier `"@ + k + "` is undefined at this point."@
}

pub open spec fn unresolved_msg(k: Seq<char>) -> Seq<char> {
    "Function `"@ + k + "` could not be resolved."@
}

pub open spec fn arity_msg(k: Seq<char>, expected: nat, found: nat) -> Seq<char> {
    "Call to `"@ + k + "` expects "@ + decimal(expected) + " arguments but found "@ + decimal(
        found,
    ) + "."@
}

pub open spec fn arg_msg(p: Seq<char>, k: Seq<char>, expected: Ty, found: Ty) -> Seq<char> {
    "Argument `"@ + p + "` in call to `"@ + k + "` is incorrect, expected `"@ + ty_name(expected)
        + "` but found `"@ + ty_name(found) + "`."@
}

pub open spec fn unsupported_msg() -> Seq<char> {
    "This expression is not supported here."@
}

pub open spec fn assign_msg(k: Seq<char>) -> Seq<char> {
    "Attempted to assign to `"@ + k + "`, but it was never declared."@
}

pub open spec fn no_decl_msg(k: Seq<char>) -> Seq<char> {
    "No function declaration found for definition: `"@ + k + "`"@
}

pub open spec fn param_count_msg(k: Seq<char>, declared: nat, named: nat) -> Seq<char> {
    "Function `"@ + k + "` declares "@ + decimal(declared) + " parameters but its definition names "@
        + decimal(named) + "."@
}

pub open spec fn not_func_msg(k: Seq<char>) -> Seq<char> {
    "Declaration of `"@ + k + "` is not a function type."@
}

fn mismatch_message(op: &str, a: &TypeValue, b: &TypeValue) -> (r: String)
    ensures
        r@ == mismatch_msg(op@, a@, b@),
{
    let mut s = String::new();
    s.append("Cannot `");
    push_type_name(&mut s, a);
    s.append(" ");
    s.append(op);
    s.append(" ");
    push_type_name(&mut s, b);
    s.append("` as these types do not match.");
    assert(s@ =~= mismatch_msg(op@, a@, b@));
    s
}

fn undefined_message(k: &String) -> (r: String)
    ensures
        r@ == undefined_msg(k@),
{
    let mut s = String::new();
    s.append("Identifier `");
    s.append(k.as_str());
    s.append("` is undefined at this point.");
    assert(s@ =~= undefined_msg(k@));
    s
}

fn unresolved_message(k: &String) -> (r: String)
    ensures
        r@ == unresolved_msg(k@),
{
    let mut s = String::new();
    s.append("Function `");
    s.append(k.as_str());
    s.append("` could not be resolved.");
    assert(s@ =~= unresolved_msg(k@));
    s
}

fn arity_message(k: &String, expected: usize, found: usize) -> (r: String)
    ensures
        r@ == arity_msg(k@, expected as nat, found as nat),
{
    let mut s = String::new();
    s.append("Call to `");
    s.append(k.as_str());
    s.append("` expects ");
    s.append(count_text(expected).as_str());
    s.append(" arguments but found ");
    s.append(count_text(found).as_str());
    s.append(".");
    assert(s@ =~= arity_msg(k@, expected as nat, found as nat));
    s
}

fn arg_message(p: &String, k: &String, expected: &TypeValue, found: &TypeValue) -> (r: String)
    ensures
        r@ == arg_msg(p@, k@, expected@, found@),
{
    let mut s = String::new();
    s.append("Argument `");
    s.append(p.as_str());
    s.append("` in call to `");
    s.append(k.as_str());
    s.append("` is incorrect, expected `");
    push_type_name(&mut s, expected);
    s.append("` but found `");
    push_type_name(&mut s, found);
    s.append("`.");
    assert(s@ =~= arg_msg(p@, k@, expected@, found@));
    s
}

fn unsupported_message() -> (r: String)
    ensures
        r@ == unsupported_msg(),
{
    let mut s = String::new();
    s.append("This expression is not supported here.");
    assert(s@ =~= unsupported_msg());
    s
}

fn assign_message(k: &String) -> (r: String)
    ensures
        r@ == assign_msg(k@),
{
    let mut s = String::new();
    s.append("Attempted to assign to `");
    s.append(k.as_str());
    s.append("`, but it was never declared.");
    assert(s@ =~= assign_msg(k@));
    s
}

fn no_decl_message(k: &String) -> (r: String)
    ensures
        r@ == no_decl_msg(k@),
{
    let mut s = String::new();
    s.append("No function declaration found for definition: `");
    s.append(k.as_str());
    s.append("`");
    assert(s@ =~= no_decl_msg(k@));
    s
}

fn param_count_message(k: &String, declared: usize, named: usize) -> (r: String)
    ensures
        r@ == param_count_msg(k@, declared as nat, named as nat),
{
    let mut s = String::new();
    s.append("Function `");
    s.append(k.as_str());
    s.append("` declares ");
    s.append(count_text(declared).as_str());
    s.append(" parameters but its definition names ");
    s.append(count_text(named).as_str());
    s.append(".");
    assert(s@ =~= param_count_msg(k@, declared as nat, named as nat));
    s
}

fn not_func_message(k: &String) -> (r: String)
    ensures
        r@ == not_func_msg(k@),
{
    let mut s = String::new();
    s.append("Declaration of `");
    s.append(k.as_str());
    s.append("` is not a function type.");
    assert(s@ =~= not_func_msg(k@));
    s
}

// Scopes.
/// A scope as a value: each symbol with its type and whether it is a parameter.
pub type Scope = Seq<(Seq<char>, Ty, bool)>;

pub open spec fn scope_of(v: Seq<(String, (TypeValue, bool))>) -> Scope {
    Seq::new(v.len(), |i: int| (v[i].0@, v[i].1.0@, v[i].1.1))
}

/// The index of the first symbol named `k`.
pub open spec fn find_sym(s: Scope, k: Seq<char>) -> Option<int>
    decreases s.len(),
{
    if s.len() == 0 {
        None
    } else {
        match find_sym(s.drop_last(), k) {
            Some(i) => Some(i),
            None => if s.last().0 == k {
                Some(s.len() - 1)
            } else {
                None
            },
        }
    }
}

pub proof fn lemma_find_sym(s: Scope, k: Seq<char>)
    ensures
        match find_sym(s, k) {
            Some(i) => 0 <= i < s.len() && s[i].0 == k && forall|j: int|
                0 <= j < i ==> (#[trigger] s[j]).0 != k,
            None => forall|j: int| 0 <= j < s.len() ==> (#[trigger] s[j]).0 != k,
        },
    decreases s.len(),
{
    if s.len() > 0 {
        lemma_find_sym(s.drop_last(), k);
        assert(forall|j: int| 0 <= j < s.len() - 1 ==> s.drop_last()[j] == s[j]);
    }
}

/// The scope after `k` is bound to `t`: an earlier binding of `k` is replaced.
pub open spec fn scope_insert(s: Scope, k: Seq<char>, t: Ty, is_param: bool) -> Scope {
    match find_sym(s, k) {
        Some(i) => s.update(i, (k, t, is_param)),
        None => s.push((k, t, is_param)),
    }
}

/// The first segment of a name; empty for a name without segments.
pub open spec fn first_seg(n: Seq<String>) -> Seq<char> {
    if n.len() > 0 {
        n[0]@
    } else {
        Seq::empty()
    }
}

/// The last segment of a name; empty for a name without segments.
pub open spec fn last_seg(n: Seq<String>) -> Seq<char> {
    if n.len() > 0 {
        n.last()@
    } else {
        Seq::empty()
    }
}

// Call resolution.
/// A signature: named parameters and a return type.
pub type Sig = (Seq<(Seq<char>, Ty)>, Ty);

/// Parameter names from a definition paired with parameter types from a declaration.
pub open spec fn zip_params(names: Seq<String>, tys: Seq<TypeValue>) -> Seq<(Seq<char>, Ty)> {
    Seq::new(names.len(), |k: int| (names[k]@, ty_of(tys[k])))
}

/// The signature of a function that `m` itself declares and defines.
pub open spec fn local_sig(m: Module, k: Seq<char>) -> Option<Sig> {
    match find_key(m.fn_decls@, k) {
        None => None,
        Some(i) => match m.fn_decls@[i].1.0.type_value {
            TypeValue::Func(ps, r, is_extern) => if is_extern {
                None
            } else {
                match find_key(m.fn_defns@, k) {
                    Some(d) => if m.fn_defns@[d].1.0.args@.len() == ps@.len() {
                        Some((zip_params(m.fn_defns@[d].1.0.args@, ps@), ty_of(*r)))
                    } else {
                        None
                    },
                    None => None,
                }
            },
            _ => None,
        },
    }
}

/// The index of the first import entry for the symbol `k`.
pub open spec fn find_import(s: Seq<(ImportKey, Option<String>)>, k: Seq<char>) -> Option<int>
    decreases s.len(),
{
    if s.len() == 0 {
        None
    } else {
        match find_import(s.drop_last(), k) {
            Some(i) => Some(i),
            None => match s.last().0 {
                ImportKey::Symbol(n) => if n@ == k {
                    Some(s.len() - 1)
                } else {
                    None
                },
                ImportKey::Module(_) => None,
            },
        }
    }
}

/// The signature of a symbol that `m` imports from another module.
pub open spec fn imported_sig(m: Module, mods: Seq<(String, Module)>, k: Seq<char>) -> Option<Sig> {
    match m.imports {
        None => None,
        Some(tbl) => match find_import(tbl@, k) {
            None => None,
            Some(i) => match tbl@[i].1 {
                None => None,
                Some(path) => match find_key(mods, path@) {
                    None => None,
                    Some(j) => local_sig(mods[j].1, k),
                },
            },
        },
    }
}

/// The signature a call of `k` resolves to: a local declaration first, then an extern,
/// then an import.
pub open spec fn resolve(m: Module, mods: Seq<(String, Module)>, k: Seq<char>) -> Option<Sig> {
    if find_key(m.fn_decls@, k) is Some {
        local_sig(m, k)
    } else {
        match find_key(m.externs@, k) {
            Some(j) => Some((named_view(m.externs@[j].1.0@), m.externs@[j].1.1@)),
            None => imported_sig(m, mods, k),
        }
    }
}

/// Whether an executable signature has the value `s`.
pub open spec fn sig_matches(r: Option<(Vec<(String, TypeValue)>, TypeValue)>, s: Option<Sig>) -> bool {
    match (r, s) {
        (Some(x), Some(y)) => named_view(x.0@) == y.0 && x.1@ == y.1,
        (None, None) => true,
        _ => false,
    }
}

fn zip_names(names: &Vec<String>, tys: &Vec<TypeValue>) -> (r: Vec<(String, TypeValue)>)
    requires
        names.len() == tys.len(),
    ensures
        named_view(r@) == zip_params(names@, tys@),
{
    let mut out: Vec<(String, TypeValue)> = Vec::new();
    let mut i: usize = 0;
    while i < names.len()
        invariant
            names.len() == tys.len(),
            i <= names.len(),
            out@.len() == i,
            forall|j: int|
                0 <= j < i ==> (#[trigger] out@[j]).0@ == names@[j]@ && out@[j].1@ == ty_of(
                    tys@[j],
                ),
        decreases names.len() - i,
    {
        out.push((names[i].clone(), tys[i].copy()));
        i = i + 1;
    }
    proof {
        crate::ast::lemma_named_tys_of(out@, out@.len() as int);
        assert(named_view(out@) =~= zip_params(names@, tys@));
    }
    out
}

fn local_signature(m: &Module, k: &String) -> (r: Option<(Vec<(String, TypeValue)>, TypeValue)>)
    ensures
        sig_matches(r, local_sig(*m, k@)),
{
    match find_entry(&m.fn_decls, k) {
        None => None,
        Some(i) => match &m.fn_decls[i].1.0.type_value {
            TypeValue::Func(ps, ret, is_extern) => {
                if *is_extern {
                    return None;
                }
                match find_entry(&m.fn_defns, k) {
                    Some(d) => {
                        let args = &m.fn_defns[d].1.0.args;
                        if args.len() == ps.len() {
                            Some((zip_names(args, ps), ret.copy()))
                        } else {
                            None
                        }
                    },
                    None => None,
                }
            },
            _ => None,
        },
    }
}

fn find_import_entry(tbl: &Vec<(ImportKey, Option<String>)>, k: &String) -> (r: Option<usize>)
    ensures
        match r {
            Some(i) => find_import(tbl@, k@) == Some(i as int) && i < tbl@.len(),
            None => find_import(tbl@, k@) is None,
        },
{
    let mut i: usize = 0;
    while i < tbl.len()
        invariant
            i <= tbl.len(),
            find_import(tbl@.subrange(0, i as int), k@) is None,
        decreases tbl.len() - i,
    {
        proof {
            assert(tbl@.subrange(0, i + 1).drop_last() =~= tbl@.subrange(0, i as int));
        }
        let hit = match &tbl[i].0 {
            ImportKey::Symbol(n) => *n == *k,
            ImportKey::Module(_) => false,
        };
        if hit {
            proof {
                lemma_find_import_prefix(tbl@, k@, i + 1);
            }
            return Some(i);
        }
        i = i + 1;
    }
    proof {
        assert(tbl@.subrange(0, tbl@.len() as int) =~= tbl@);
    }
    None
}

proof fn lemma_find_import_prefix(s: Seq<(ImportKey, Option<String>)>, k: Seq<char>, n: int)
    requires
        0 <= n <= s.len(),
        find_import(s.subrange(0, n), k) is Some,
    ensures
        find_import(s, k) == find_import(s.subrange(0, n), k),
    decreases s.len() - n,
{
    if n < s.len() {
        assert(s.subrange(0, n + 1).drop_last() =~= s.subrange(0, n));
        lemma_find_import_prefix(s, k, n + 1);
    } else {
        assert(s.subrange(0, n) =~= s);
    }
}

/// Resolves the signature of a called function: a local declaration first, then an
/// extern, then an imported symbol.
pub fn resolve_call(m: &Module, mods: &Vec<(String, Module)>, k: &String) -> (r: Option<
    (Vec<(String, TypeValue)>, TypeValue),
>)
    ensures
        sig_matches(r, resolve(*m, mods@, k@)),
{
    if find_entry(&m.fn_decls, k).is_some() {
        return local_signature(m, k);
    }
    match find_entry(&m.externs, k) {
        Some(j) => Some((copy_named(&m.externs[j].1.0), m.externs[j].1.1.copy())),
        None => match &m.imports {
            None => None,
            Some(tbl) => match find_import_entry(tbl, k) {
                None => None,
                Some(i) => match &tbl[i].1 {
                    None => None,
                    Some(path) => match find_entry(mods, path) {
                        None => None,
                        Some(j) => local_signature(&mods[j].1, k),
                    },
                },
            },
        },
    }
}

// Typing and flattening of expressions.
/// The result of typing an expression: its infix stream, its type, and its diagnostics.
pub type Flat = (Seq<Ex>, Ty, Seq<Diag>);

/// Combines the typed operands of a binary operator. An operand left `Undefined` by an
/// earlier error makes the node take the other side's type without a new diagnostic.
pub open spec fn bin(l: Flat, r: Flat, loc: Location, op: Ex, op_text: Seq<char>) -> Flat {
    let errs = l.2 + r.2;
    if l.1 is Undefined {
        (Seq::empty(), r.1, errs)
    } else if r.1 is Undefined {
        (Seq::empty(), l.1, errs)
    } else if l.1 != r.1 {
        (Seq::empty(), Ty::Undefined, errs.push((loc, mismatch_msg(op_text, l.1, r.1))))
    } else {
        (l.0 + seq![op] + r.0, l.1, errs)
    }
}

/// Types `e` in scope `sc` of module `m` and lays it out as an infix stream.
pub open spec fn flat(m: Module, mods: Seq<(String, Module)>, sc: Scope, e: Expr) -> Flat
    decreases e, 0int,
{
    match e {
        Expr::Add(l, r, loc) => bin(flat(m, mods, sc, *l), flat(m, mods, sc, *r), loc, Ex::Add, "+"@),
        Expr::Min(l, r, loc) => bin(flat(m, mods, sc, *l), flat(m, mods, sc, *r), loc, Ex::Min, "-"@),
        Expr::Mul(l, r, loc) => bin(flat(m, mods, sc, *l), flat(m, mods, sc, *r), loc, Ex::Mul, "*"@),
        Expr::Div(l, r, loc) => bin(flat(m, mods, sc, *l), flat(m, mods, sc, *r), loc, Ex::Div, "/"@),
        Expr::Power(l, r, loc) => bin(
            flat(m, mods, sc, *l),
            flat(m, mods, sc, *r),
            loc,
            Ex::Pow,
            "^"@,
        ),
        Expr::Paren(i, _) => {
            let x = flat(m, mods, sc, *i);
            if x.1 is Undefined {
                (Seq::empty(), Ty::Undefined, x.2)
            } else {
                (seq![Ex::LParen] + x.0 + seq![Ex::RParen], x.1, x.2)
            }
        },
        Expr::Int(n, _) => (
            seq![Ex::Lit(Lit::Int(Ty::I32, crate::text::signed_decimal(n as int)))],
            Ty::I32,
            Seq::empty(),
        ),
        Expr::String(s, _) => (seq![Ex::Lit(Lit::String(s@))], Ty::String, Seq::empty()),
        Expr::Identifier(name, loc) => {
            let k = first_seg(name.name@);
            match find_sym(sc, k) {
                Some(i) => (
                    seq![Ex::Lit(Lit::Identifier(sc[i].1, k, sc[i].2))],
                    sc[i].1,
                    Seq::empty(),
                ),
                None => (Seq::empty(), Ty::Undefined, seq![(loc, undefined_msg(k))]),
            }
        },
        Expr::FuncCall(name, args, loc) => {
            let k = first_seg(name.name@);
            match resolve(m, mods, k) {
                None => (Seq::empty(), Ty::Undefined, seq![(loc, unresolved_msg(k))]),
                Some(sig) => if args@.len() != sig.0.len() {
                    (
                        Seq::empty(),
                        Ty::Undefined,
                        seq![(loc, arity_msg(k, sig.0.len(), args@.len()))],
                    )
                } else {
                    let a = flat_args(m, mods, sc, args@, sig.0, k, args@.len() as int);
                    (seq![Ex::Lit(Lit::Call(sig.1, k, a.0))], sig.1, a.1)
                },
            }
        },
        Expr::Void => (Seq::empty(), Ty::Void, Seq::empty()),
        _ => (Seq::empty(), Ty::Undefined, seq![(crate::ast::expr_location(e), unsupported_msg())]),
    }
}

/// Types the first `n` arguments of a call of `k` against the parameters `ps`: each
/// argument in postfix order with its parameter's type, and the diagnostics.
pub open spec fn flat_args(
    m: Module,
    mods: Seq<(String, Module)>,
    sc: Scope,
    args: Seq<Expr>,
    ps: Seq<(Seq<char>, Ty)>,
    k: Seq<char>,
    n: int,
) -> (Seq<(Seq<Ex>, Ty)>, Seq<Diag>)
    decreases args, n,
{
    if n <= 0 || n > args.len() {
        (Seq::empty(), Seq::empty())
    } else {
        let prev = flat_args(m, mods, sc, args, ps, k, n - 1);
        let a = flat(m, mods, sc, args[n - 1]);
        let errs = prev.1 + a.2;
        let errs = if a.1 != ps[n - 1].1 {
            errs.push(
                (crate::ast::expr_location(args[n - 1]), arg_msg(ps[n - 1].0, k, ps[n - 1].1, a.1)),
            )
        } else {
            errs
        };
        (prev.0.push((postfix(a.0), ps[n - 1].1)), errs)
    }
}

pub proof fn lemma_stream_concat(a: Seq<Expression>, b: Seq<Expression>)
    ensures
        stream(a + b) == stream(a) + stream(b),
{
    lemma_stream(a);
    lemma_stream(b);
    lemma_stream(a + b);
    assert(stream(a + b) =~= stream(a) + stream(b));
}

pub proof fn lemma_find_sym_of(v: Seq<(String, (TypeValue, bool))>, k: Seq<char>)
    ensures
        find_sym(scope_of(v), k) == find_key(v, k),
    decreases v.len(),
{
    if v.len() > 0 {
        lemma_find_sym_of(v.drop_last(), k);
        assert(scope_of(v.drop_last()) =~= scope_of(v).drop_last());
    }
}

/// The type checker of one module: the diagnostics found so far and a stack of scopes.
pub struct Checker<'a> {
    pub errors: Vec<CheckError>,
    pub warnings: Vec<CheckError>,
    pub modules: &'a Vec<(String, Module)>,
    pub module: &'a Module,
    pub symbol_stack: Vec<Vec<(String, (TypeValue, bool))>>,
}

/// Whether two checker states differ at most in their diagnostics.
pub open spec fn same_context(a: Checker, b: Checker) -> bool {
    &&& a.symbol_stack@ == b.symbol_stack@
    &&& a.module == b.module
    &&& a.modules == b.modules
    &&& a.warnings == b.warnings
}

impl<'a> Checker<'a> {
    /// The innermost scope, the only one that lookups consult.
    pub open spec fn scope(&self) -> Scope {
        if self.symbol_stack@.len() == 0 {
            Seq::empty()
        } else {
            scope_of(self.symbol_stack@.last()@)
        }
    }

    pub open spec fn flat_of(&self, e: Expr) -> Flat {
        flat(*self.module, self.modules@, self.scope(), e)
    }

    pub fn new(module: &'a Module, modules: &'a Vec<(String, Module)>) -> (r: Checker<'a>)
        ensures
            r.errors@.len() == 0,
            r.warnings@.len() == 0,
            r.symbol_stack@.len() == 0,
            r.module == module,
            r.modules == modules,
    {
        Checker {
            errors: Vec::new(),
            warnings: Vec::new(),
            modules,
            module,
            symbol_stack: Vec::new(),
        }
    }

    pub fn errors(&self) -> (r: &Vec<CheckError>)
        ensures
            r == &self.errors,
    {
        &self.errors
    }

    /// Opens a new, empty innermost scope.
    pub fn push_stack(&mut self)
        ensures
            final(self).symbol_stack@.len() == old(self).symbol_stack@.len() + 1,
            final(self).symbol_stack@.drop_last() == old(self).symbol_stack@,
            final(self).scope().len() == 0,
            final(self).errors == old(self).errors,
            final(self).module == old(self).module,
            final(self).modules == old(self).modules,
            final(self).warnings == old(self).warnings,
    {
        let symbols: Vec<(String, (TypeValue, bool))> = Vec::new();
        self.symbol_stack.push(symbols);
        proof {
            assert(final(self).symbol_stack@.drop_last() =~= old(self).symbol_stack@);
            assert(final(self).scope() =~= Seq::<(Seq<char>, Ty, bool)>::empty());
        }
    }

    /// Closes the innermost scope.
    pub fn pop_stack(&mut self)
        ensures
            final(self).symbol_stack@ == if old(self).symbol_stack@.len() > 0 {
                old(self).symbol_stack@.drop_last()
            } else {
                old(self).symbol_stack@
            },
            final(self).errors == old(self).errors,
            final(self).module == old(self).module,
            final(self).modules == old(self).modules,
            final(self).warnings == old(self).warnings,
    {
        self.symbol_stack.pop();
    }

    /// Looks a symbol up in the innermost scope.
    pub fn get_symbol(&self, key: &String) -> (r: Option<&(TypeValue, bool)>)
        ensures
            match r {
                Some(x) => find_sym(self.scope(), key@) is Some && x.0@ == self.scope()[find_sym(
                    self.scope(),
                    key@,
                )->0].1 && x.1 == self.scope()[find_sym(self.scope(), key@)->0].2,
                None => find_sym(self.scope(), key@) is None,
            },
    {
        let n = self.symbol_stack.len();
        if n == 0 {
            return None;
        }
        let top = &self.symbol_stack[n - 1];
        proof {
            lemma_find_sym_of(top@, key@);
        }
        match find_entry(top, key) {
            Some(i) => Some(&top[i].1),
            None => None,
        }
    }

    /// Binds a symbol in the innermost scope, in place of an earlier binding of its name.
    fn insert_symbol(&mut self, key: String, value: (TypeValue, bool))
        requires
            old(self).symbol_stack@.len() > 0,
        ensures
            final(self).symbol_stack@.len() == old(self).symbol_stack@.len(),
            final(self).symbol_stack@.drop_last() == old(self).symbol_stack@.drop_last(),
            final(self).scope() == scope_insert(old(self).scope(), key@, value.0@, value.1),
            final(self).errors == old(self).errors,
            final(self).module == old(self).module,
            final(self).modules == old(self).modules,
            final(self).warnings == old(self).warnings,
    {
        let mut top = match self.symbol_stack.pop() {
            Some(t) => t,
            None => Vec::new(),
        };
        let ghost old_top = top@;
        proof {
            lemma_find_sym_of(top@, key@);
        }
        let ghost t = value.0@;
        let ghost p = value.1;
        let ghost k = key@;
        match find_entry(&top, &key) {
            Some(i) => {
                top.set(i, (key, value));
                proof {
                    assert(scope_of(top@) =~= scope_of(old_top).update(i as int, (k, t, p)));
                }
            },
            None => {
                top.push((key, value));
                proof {
                    assert(scope_of(top@) =~= scope_of(old_top).push((k, t, p)));
                }
            },
        }
        self.symbol_stack.push(top);
        proof {
            assert(final(self).symbol_stack@.drop_last() =~= old(self).symbol_stack@.drop_last());
        }
    }

    fn report(&mut self, location: Location, message: String)
        ensures
            diags(final(self).errors@) == diags(old(self).errors@).push((location, message@)),
            same_context(*final(self), *old(self)),
    {
        let ghost before = self.errors@;
        self.errors.push(CheckError::new(location, message));
        proof {
            assert(diags(self.errors@) =~= diags(before).push((location, message@)));
        }
    }

    /// Types an expression and lays it out as an infix stream. Diagnostics are added to
    /// the checker's list; a failing part contributes no items.
    pub fn expr_ty(&mut self, expr: &Expr) -> (r: (Vec<Expression>, TypeValue))
        ensures
            same_context(*final(self), *old(self)),
            stream(r.0@) == old(self).flat_of(*expr).0,
            r.1@ == old(self).flat_of(*expr).1,
            diags(final(self).errors@) == diags(old(self).errors@) + old(self).flat_of(*expr).2,
        decreases expr, 1int,
    {
        let ghost f = old(self).flat_of(*expr);
        match expr {
            Expr::Add(_, _, _) | Expr::Min(_, _, _) | Expr::Mul(_, _, _) | Expr::Div(_, _, _)
            | Expr::Power(_, _, _) => self.bin_ty(expr),
            Expr::FuncCall(_, _, _) => self.func_call_expr_ty(expr),
            Expr::Paren(inner, _) => {
                let (mut ie, it) = self.expr_ty(inner);
                if let TypeValue::Undefined = it {
                    proof {
                        lemma_stream(Seq::<Expression>::empty());
                    }
                    return (Vec::new(), TypeValue::Undefined);
                }
                let mut out: Vec<Expression> = Vec::new();
                out.push(Expression::LParen);
                let ghost ie_s = ie@;
                out.append(&mut ie);
                out.push(Expression::RParen);
                proof {
                    lemma_stream(out@);
                    lemma_stream(ie_s);
                    assert(stream(out@) =~= seq![Ex::LParen] + stream(ie_s) + seq![Ex::RParen]);
                }
                (out, it)
            },
            Expr::Int(n, _) => {
                let lit = Literal::Int(TypeValue::I32, crate::text::signed_text(*n));
                let mut out: Vec<Expression> = Vec::new();
                out.push(Expression::Literal(lit));
                proof {
                    lemma_stream(out@);
                    assert(stream(out@) =~= f.0);
                    assert(diags(self.errors@) =~= diags(old(self).errors@) + f.2);
                }
                (out, TypeValue::I32)
            },
            Expr::String(s, _) => {
                let mut out: Vec<Expression> = Vec::new();
                out.push(Expression::Literal(Literal::String(s.clone())));
                proof {
                    lemma_stream(out@);
                    assert(stream(out@) =~= f.0);
                    assert(diags(self.errors@) =~= diags(old(self).errors@) + f.2);
                }
                (out, TypeValue::String)
            },
            Expr::Identifier(name, loc) => {
                let k = if name.name.len() > 0 {
                    name.name[0].clone()
                } else {
                    String::new()
                };
                assert(k@ == first_seg(name.name@));
                match self.get_symbol(&k) {
                    Some(entry) => {
                        let t = entry.0.copy();
                        let t2 = entry.0.copy();
                        let is_param = entry.1;
                        let mut out: Vec<Expression> = Vec::new();
                        out.push(Expression::Literal(Literal::Identifier(t, k, is_param)));
                        proof {
                            lemma_stream(out@);
                            assert(stream(out@) =~= f.0);
                            assert(diags(self.errors@) =~= diags(old(self).errors@) + f.2);
                        }
                        (out, t2)
                    },
                    None => {
                        let msg = undefined_message(&k);
                        self.report(*loc, msg);
                        proof {
                            lemma_stream(Seq::<Expression>::empty());
                            assert(diags(self.errors@) =~= diags(old(self).errors@) + f.2);
                        }
                        (Vec::new(), TypeValue::Undefined)
                    },
                }
            },
            Expr::Void => {
                proof {
                    lemma_stream(Seq::<Expression>::empty());
                    assert(diags(self.errors@) =~= diags(old(self).errors@) + f.2);
                }
                (Vec::new(), TypeValue::Void)
            },
            _ => {
                let msg = unsupported_message();
                self.report(expr.get_location(), msg);
                proof {
                    lemma_stream(Seq::<Expression>::empty());
                    assert(diags(self.errors@) =~= diags(old(self).errors@) + f.2);
                }
                (Vec::new(), TypeValue::Undefined)
            },
        }
    }

    fn bin_ty(&mut self, expr: &Expr) -> (r: (Vec<Expression>, TypeValue))
        requires
            expr is Add || expr is Min || expr is Mul || expr is Div || expr is Power,
        ensures
            same_context(*final(self), *old(self)),
            stream(r.0@) == old(self).flat_of(*expr).0,
            r.1@ == old(self).flat_of(*expr).1,
            diags(final(self).errors@) == diags(old(self).errors@) + old(self).flat_of(*expr).2,
        decreases expr, 0int,
    {
        let (lhs, rhs, loc, op, text): (&Box<Expr>, &Box<Expr>, Location, Expression, &str) =
            match expr {
            Expr::Add(l, r, loc) => (l, r, *loc, Expression::Add, "+"),
            Expr::Min(l, r, loc) => (l, r, *loc, Expression::Min, "-"),
            Expr::Mul(l, r, loc) => (l, r, *loc, Expression::Mul, "*"),
            Expr::Div(l, r, loc) => (l, r, *loc, Expression::Div, "/"),
            Expr::Power(l, r, loc) => (l, r, *loc, Expression::Pow, "^"),
            _ => {
                return (Vec::new(), TypeValue::Undefined);
            },
        };
        let ghost lf = old(self).flat_of(**lhs);
        let ghost e0 = diags(old(self).errors@);
        let (mut le, lt) = self.expr_ty(lhs);
        let ghost rf = self.flat_of(**rhs);
        let ghost e1 = diags(self.errors@);
        let (mut re, rt) = self.expr_ty(rhs);
        proof {
            assert(rf == old(self).flat_of(**rhs));
            assert(diags(self.errors@) =~= e0 + (lf.2 + rf.2));
            lemma_stream(Seq::<Expression>::empty());
        }
        if let TypeValue::Undefined = lt {
            return (Vec::new(), rt);
        }
        if let TypeValue::Undefined = rt {
            return (Vec::new(), lt);
        }
        if !lt.same(&rt) {
            let msg = mismatch_message(text, &lt, &rt);
            self.report(loc, msg);
            proof {
                assert(diags(self.errors@) =~= e0 + old(self).flat_of(*expr).2);
            }
            return (Vec::new(), TypeValue::Undefined);
        }
        let ghost ls = le@;
        let ghost rs = re@;
        le.push(op);
        le.append(&mut re);
        proof {
            lemma_stream_concat(ls.push(op), rs);
            crate::mdir::lemma_stream_push(ls, op);
        }
        (le, lt)
    }

    fn func_call_expr_ty(&mut self, expr: &Expr) -> (r: (Vec<Expression>, TypeValue))
        requires
            expr is FuncCall,
        ensures
            same_context(*final(self), *old(self)),
            stream(r.0@) == old(self).flat_of(*expr).0,
            r.1@ == old(self).flat_of(*expr).1,
            diags(final(self).errors@) == diags(old(self).errors@) + old(self).flat_of(*expr).2,
        decreases expr, 0int,
    {
        let ghost f = old(self).flat_of(*expr);
        let ghost sc = old(self).scope();
        let (name, args, loc) = match expr {
            Expr::FuncCall(n, a, l) => (n, a, *l),
            _ => {
                return (Vec::new(), TypeValue::Undefined);
            },
        };
        let k = if name.name.len() > 0 {
            name.name[0].clone()
        } else {
            String::new()
        };
        assert(k@ == first_seg(name.name@));
        proof {
            lemma_stream(Seq::<Expression>::empty());
        }
        let (params, ret) = match resolve_call(self.module, self.modules, &k) {
            None => {
                let msg = unresolved_message(&k);
                self.report(loc, msg);
                proof {
                    assert(diags(self.errors@) =~= diags(old(self).errors@) + f.2);
                }
                return (Vec::new(), TypeValue::Undefined);
            },
            Some(sig) => sig,
        };
        let ghost sig = resolve(*old(self).module, old(self).modules@, k@)->0;
        proof {
            crate::ast::lemma_named_tys_of(params@, params@.len() as int);
        }
        if args.len() != params.len() {
            let msg = arity_message(&k, params.len(), args.len());
            self.report(loc, msg);
            proof {
                assert(diags(self.errors@) =~= diags(old(self).errors@) + f.2);
            }
            return (Vec::new(), TypeValue::Undefined);
        }
        let mut out: Vec<(Vec<Expression>, TypeValue)> = Vec::new();
        let mut i: usize = 0;
        proof {
            lemma_args_of(out@, 0);
            assert(diags(self.errors@) =~= diags(old(self).errors@) + Seq::<Diag>::empty());
        }
        while i < args.len()
            invariant
                *expr == Expr::FuncCall(*name, *args, loc),
                i <= args.len(),
                args.len() == params.len(),
                same_context(*self, *old(self)),
                self.scope() == sc,
                sc == old(self).scope(),
                named_view(params@) == sig.0,
                named_view(params@).len() == params@.len(),
                forall|j: int|
                    0 <= j < params@.len() ==> #[trigger] named_view(params@)[j] == (
                        params@[j].0@,
                        params@[j].1@,
                    ),
                args_view(out@) == flat_args(
                    *old(self).module,
                    old(self).modules@,
                    sc,
                    args@,
                    sig.0,
                    k@,
                    i as int,
                ).0,
                diags(self.errors@) == diags(old(self).errors@) + flat_args(
                    *old(self).module,
                    old(self).modules@,
                    sc,
                    args@,
                    sig.0,
                    k@,
                    i as int,
                ).1,
            decreases args.len() - i,
        {
            proof {
                vstd::std_specs::vec::axiom_vec_index_decreases(*args, i as int);
                assert(decreases_to!(*expr => expr->FuncCall_1));
                assert(decreases_to!(*args => args@));
                assert(decreases_to!(args@ => args@[i as int]));
            }
            let ghost prev = flat_args(
                *old(self).module,
                old(self).modules@,
                sc,
                args@,
                sig.0,
                k@,
                i as int,
            );
            let ghost before = diags(self.errors@);
            let ghost af = self.flat_of(args@[i as int]);
            let (ae, at) = self.expr_ty(&args[i]);
            let ghost mid = diags(self.errors@);
            if !at.same(&params[i].1) {
                let msg = arg_message(&params[i].0, &k, &params[i].1, &at);
                self.report(args[i].get_location(), msg);
            }
            let post = shunting_yard_this_mf(ae);
            let ghost out_before = out@;
            out.push((post, params[i].1.copy()));
            proof {
                lemma_args_of(out_before, out_before.len() as int);
                lemma_args_of(out@, out@.len() as int);
                assert(args_view(out@) =~= args_view(out_before).push((postfix(af.0), sig.0[i as int].1)));
                assert(diags(self.errors@) =~= diags(old(self).errors@) + flat_args(
                    *old(self).module,
                    old(self).modules@,
                    sc,
                    args@,
                    sig.0,
                    k@,
                    i + 1,
                ).1);
            }
            i = i + 1;
        }
        let ghost am = args_view(out@);
        let mut res: Vec<Expression> = Vec::new();
        let ret2 = ret.copy();
        res.push(Expression::Literal(Literal::Call(ret, k, out)));
        proof {
            lemma_stream(res@);
            assert(stream(res@) =~= f.0);
        }
        (res, ret2)
    }
}

// Statements, functions and modules.
/// The scope, the statement produced (if any) and the diagnostics of one statement.
pub open spec fn stmt_step(m: Module, mods: Seq<(String, Module)>, sc: Scope, s: Stmt) -> (
    Scope,
    Option<St>,
    Seq<Diag>,
) {
    match s {
        Stmt::Expr(e, _) => {
            let x = flat(m, mods, sc, e);
            (sc, Some(St::Expr(postfix(x.0))), x.2)
        },
        Stmt::Var(v) => var_step(m, mods, sc, v),
        _ => (sc, None, Seq::empty()),
    }
}

/// A variable statement: a declaration without a value only binds its name; one with a
/// value binds the name to the value's type; an assignment needs a declared name.
pub open spec fn var_step(m: Module, mods: Seq<(String, Module)>, sc: Scope, v: Var) -> (
    Scope,
    Option<St>,
    Seq<Diag>,
) {
    let k = last_seg(v.lhs.name@);
    if v.is_decl && v.rhs is Void {
        (scope_insert(sc, k, v._type.type_value@, false), None, Seq::empty())
    } else if v.is_decl {
        let x = flat(m, mods, sc, v.rhs);
        (scope_insert(sc, k, x.1, false), Some(St::Var(k, postfix(x.0), x.1)), x.2)
    } else {
        match find_sym(sc, k) {
            None => (sc, None, seq![(v.lhs.location, assign_msg(k))]),
            Some(_) => {
                let x = flat(m, mods, sc, v.rhs);
                (sc, Some(St::Var(k, postfix(x.0), x.1)), x.2)
            },
        }
    }
}

/// The first `n` statements of a body, checked in order from scope `sc`.
pub open spec fn body_run(
    m: Module,
    mods: Seq<(String, Module)>,
    sc: Scope,
    stmts: Seq<Stmt>,
    n: int,
) -> (Scope, Seq<St>, Seq<Diag>)
    decreases n,
{
    if n <= 0 || n > stmts.len() {
        (sc, Seq::empty(), Seq::empty())
    } else {
        let p = body_run(m, mods, sc, stmts, n - 1);
        let x = stmt_step(m, mods, p.0, stmts[n - 1]);
        (
            x.0,
            match x.1 {
                Some(st) => p.1.push(st),
                None => p.1,
            },
            p.2 + x.2,
        )
    }
}

/// The scope holding the first `n` parameters.
pub open spec fn params_scope(names: Seq<String>, tys: Seq<TypeValue>, n: int) -> Scope
    decreases n,
{
    if n <= 0 {
        Seq::empty()
    } else {
        scope_insert(params_scope(names, tys, n - 1), names[n - 1]@, ty_of(tys[n - 1]), true)
    }
}

/// A function with a name and nothing else.
pub open spec fn empty_fun(name: Seq<char>) -> Fun {
    Fun { name, params: Seq::empty(), ret: Ty::Void, block: Seq::empty(), docs: Seq::empty() }
}

/// The checked form of the definition `f` of `name` against its declared type `t`.
pub open spec fn fun_spec(m: Module, mods: Seq<(String, Module)>, name: Seq<char>, f: FuncNode, t: TypeValue) -> (
    Fun,
    Seq<Diag>,
) {
    if f.errors@.len() > 0 {
        (empty_fun(name), parse_diags(f.errors@))
    } else {
        match t {
            TypeValue::Func(ps, r, _) => if f.args@.len() != ps@.len() {
                (
                    empty_fun(name),
                    seq![(f.location, param_count_msg(name, ps@.len(), f.args@.len()))],
                )
            } else {
                let b = body_run(
                    m,
                    mods,
                    params_scope(f.args@, ps@, f.args@.len() as int),
                    f.block@,
                    f.block@.len() as int,
                );
                (
                    Fun {
                        name,
                        params: zip_params(f.args@, ps@),
                        ret: ty_of(*r),
                        block: b.1,
                        docs: f.doc_comments@.map_values(|d: crate::ast::DocComment| d.md@),
                    },
                    b.2,
                )
            },
            _ => (empty_fun(name), seq![(f.location, not_func_msg(name))]),
        }
    }
}

/// The functions and diagnostics of the first `n` definitions of `m`.
pub open spec fn defs_run(m: Module, mods: Seq<(String, Module)>, n: int) -> (Seq<Fun>, Seq<Diag>)
    decreases n,
{
    if n <= 0 || n > m.fn_defns@.len() {
        (Seq::empty(), Seq::empty())
    } else {
        let p = defs_run(m, mods, n - 1);
        let d = m.fn_defns@[n - 1];
        match find_key(m.fn_decls@, d.0@) {
            Some(i) => {
                let x = fun_spec(m, mods, d.0@, d.1.0, m.fn_decls@[i].1.0.type_value);
                (insert_fun(p.0, x.0), p.1 + x.1)
            },
            None => (p.0, p.1.push((d.1.1, no_decl_msg(d.0@)))),
        }
    }
}

/// The signatures of the first `n` entries of an import table that name a symbol of a
/// module in `mods` which declares and defines it.
pub open spec fn imports_run(tbl: Seq<(ImportKey, Option<String>)>, mods: Seq<(String, Module)>, n: int) -> Seq<
    (Seq<char>, Seq<(Seq<char>, Ty)>, Ty),
>
    decreases n,
{
    if n <= 0 || n > tbl.len() {
        Seq::empty()
    } else {
        let p = imports_run(tbl, mods, n - 1);
        match (tbl[n - 1].0, tbl[n - 1].1) {
            (ImportKey::Symbol(k), Some(path)) => match find_key(mods, path@) {
                Some(j) => match local_sig(mods[j].1, k@) {
                    Some(sig) => p.push((k@, sig.0, sig.1)),
                    None => p,
                },
                None => p,
            },
            _ => p,
        }
    }
}

/// The checked form of module `m` among `mods`, and its diagnostics.
pub open spec fn check_spec(m: Module, mods: Seq<(String, Module)>) -> (Mir, Seq<Diag>) {
    let d = defs_run(m, mods, m.fn_defns@.len() as int);
    (
        Mir {
            imported: match m.imports {
                Some(tbl) => imports_run(tbl@, mods, tbl@.len() as int),
                None => Seq::empty(),
            },
            functions: d.0,
            externs: m.externs@.map_values(
                |e: (String, (Vec<(String, TypeValue)>, TypeValue))|
                    (e.0@, named_view(e.1.0@), e.1.1@),
            ),
        },
        d.1,
    )
}

fn copy_docs(docs: &Vec<crate::ast::DocComment>) -> (r: Vec<crate::ast::DocComment>)
    ensures
        r@.map_values(|d: crate::ast::DocComment| d.md@) == docs@.map_values(
            |d: crate::ast::DocComment| d.md@,
        ),
{
    let mut out: Vec<crate::ast::DocComment> = Vec::new();
    let mut i: usize = 0;
    while i < docs.len()
        invariant
            i <= docs.len(),
            out@.len() == i,
            forall|j: int| 0 <= j < i ==> (#[trigger] out@[j]).md@ == docs@[j].md@,
        decreases docs.len() - i,
    {
        out.push(crate::ast::DocComment { md: docs[i].md.clone() });
        i = i + 1;
    }
    proof {
        assert(out@.map_values(|d: crate::ast::DocComment| d.md@) =~= docs@.map_values(
            |d: crate::ast::DocComment| d.md@,
        ));
    }
    out
}

impl<'a> Checker<'a> {
    /// Checks one statement of a function body.
    pub fn stmt_ty(&mut self, stmt: &Stmt) -> (r: Option<Statement>)
        requires
            old(self).symbol_stack@.len() > 0,
        ensures
            final(self).scope() == stmt_step(
                *old(self).module,
                old(self).modules@,
                old(self).scope(),
                *stmt,
            ).0,
            match r {
                Some(st) => stmt_step(
                    *old(self).module,
                    old(self).modules@,
                    old(self).scope(),
                    *stmt,
                ).1 == Some(crate::mdir::st_of(st)),
                None => stmt_step(
                    *old(self).module,
                    old(self).modules@,
                    old(self).scope(),
                    *stmt,
                ).1 is None,
            },
            diags(final(self).errors@) == diags(old(self).errors@) + stmt_step(
                *old(self).module,
                old(self).modules@,
                old(self).scope(),
                *stmt,
            ).2,
            final(self).symbol_stack@.len() == old(self).symbol_stack@.len(),
            final(self).symbol_stack@.drop_last() == old(self).symbol_stack@.drop_last(),
            final(self).module == old(self).module,
            final(self).modules == old(self).modules,
            final(self).warnings == old(self).warnings,
    {
        match stmt {
            Stmt::Expr(expr, _) => {
                let (e, _) = self.expr_ty(expr);
                let out = shunting_yard_this_mf(e);
                Some(Statement::Expr(out))
            },
            Stmt::Var(var) => match self.var_ty(var) {
                Some(v) => Some(Statement::Var(v)),
                None => None,
            },
            _ => {
                proof {
                    assert(diags(self.errors@) =~= diags(old(self).errors@) + Seq::<Diag>::empty());
                }
                None
            },
        }
    }

    /// Checks a variable statement.
    pub fn var_ty(&mut self, var: &Var) -> (r: Option<IrVar>)
        requires
            old(self).symbol_stack@.len() > 0,
        ensures
            final(self).scope() == var_step(
                *old(self).module,
                old(self).modules@,
                old(self).scope(),
                *var,
            ).0,
            match r {
                Some(v) => var_step(*old(self).module, old(self).modules@, old(self).scope(), *var).1
                    == Some(St::Var(v.lhs@, stream(v.rhs@), v.ty@)),
                None => var_step(
                    *old(self).module,
                    old(self).modules@,
                    old(self).scope(),
                    *var,
                ).1 is None,
            },
            diags(final(self).errors@) == diags(old(self).errors@) + var_step(
                *old(self).module,
                old(self).modules@,
                old(self).scope(),
                *var,
            ).2,
            final(self).symbol_stack@.len() == old(self).symbol_stack@.len(),
            final(self).symbol_stack@.drop_last() == old(self).symbol_stack@.drop_last(),
            final(self).module == old(self).module,
            final(self).modules == old(self).modules,
            final(self).warnings == old(self).warnings,
    {
        let n = var.lhs.name.len();
        let key = if n > 0 {
            var.lhs.name[n - 1].clone()
        } else {
            String::new()
        };
        assert(key@ == last_seg(var.lhs.name@));
        if var.is_decl && var.rhs.is_void() {
            self.insert_symbol(key, (var._type.type_value.copy(), false));
            proof {
                assert(diags(self.errors@) =~= diags(old(self).errors@) + Seq::<Diag>::empty());
            }
            None
        } else if var.is_decl {
            let (rhs_expr, rhs_type) = self.expr_ty(&var.rhs);
            let out = shunting_yard_this_mf(rhs_expr);
            self.insert_symbol(key.clone(), (rhs_type.copy(), false));
            Some(IrVar::new(key, out, rhs_type))
        } else {
            if self.get_symbol(&key).is_none() {
                let msg = assign_message(&key);
                self.report(var.lhs.location, msg);
                return None;
            }
            let (rhs_expr, rhs_type) = self.expr_ty(&var.rhs);
            let out = shunting_yard_this_mf(rhs_expr);
            Some(IrVar::new(key, out, rhs_type))
        }
    }

    /// Checks the definition of `name` against its declared type.
    pub fn fn_ty(&mut self, name: &String, func_node: &FuncNode, _type: &Type) -> (r: Function)
        ensures
            crate::mdir::fun_of(r) == fun_spec(
                *old(self).module,
                old(self).modules@,
                name@,
                *func_node,
                _type.type_value,
            ).0,
            diags(final(self).errors@) == diags(old(self).errors@) + fun_spec(
                *old(self).module,
                old(self).modules@,
                name@,
                *func_node,
                _type.type_value,
            ).1,
            final(self).symbol_stack@ == old(self).symbol_stack@,
            final(self).module == old(self).module,
            final(self).modules == old(self).modules,
            final(self).warnings == old(self).warnings,
    {
        let mut function = Function::default();
        function.name = name.clone();
        let ghost fs = fun_spec(*old(self).module, old(self).modules@, name@, *func_node, _type.type_value);
        proof {
            assert(crate::mdir::sts_of(function.block@) =~= Seq::<St>::empty());
            assert(function.doc_comments@.map_values(|d: crate::ast::DocComment| d.md@) =~= Seq::<Seq<char>>::empty());
            assert(named_view(function.params@) =~= Seq::<(Seq<char>, Ty)>::empty()) by {
                crate::ast::lemma_named_tys_of(function.params@, 0);
            }
        }
        if func_node.errors.len() > 0 {
            let mut i: usize = 0;
            while i < func_node.errors.len()
                invariant
                    i <= func_node.errors.len(),
                    same_context(*self, *old(self)),
                    diags(self.errors@) == diags(old(self).errors@) + parse_diags(
                        func_node.errors@.subrange(0, i as int),
                    ),
                decreases func_node.errors.len() - i,
            {
                let ghost before = self.errors@;
                self.errors.push(CheckError::from_parse_error(&func_node.errors[i]));
                proof {
                    let e = func_node.errors@[i as int];
                    assert(parse_diags(func_node.errors@.subrange(0, i + 1)) =~= parse_diags(
                        func_node.errors@.subrange(0, i as int),
                    ).push((e.location, e.message@)));
                    assert(diags(self.errors@) =~= diags(before).push((e.location, e.message@)));
                    assert(diags(self.errors@) =~= diags(old(self).errors@) + parse_diags(
                        func_node.errors@.subrange(0, i + 1),
                    ));
                }
                i = i + 1;
            }
            proof {
                assert(func_node.errors@.subrange(0, func_node.errors@.len() as int) =~= func_node.errors@);
            }
            return function;
        }
        match &_type.type_value {
            TypeValue::Func(params, ret, _) => {
                let args = &func_node.args;
                if args.len() != params.len() {
                    let msg = param_count_message(name, params.len(), args.len());
                    self.report(func_node.location, msg);
                    return function;
                }
                self.push_stack();
                function.return_type = ret.copy();
                let mut i: usize = 0;
                while i < args.len()
                    invariant
                        i <= args.len(),
                        args.len() == params.len(),
                        self.symbol_stack@.len() == old(self).symbol_stack@.len() + 1,
                        self.symbol_stack@.drop_last() == old(self).symbol_stack@,
                        self.scope() == params_scope(args@, params@, i as int),
                        self.errors == old(self).errors,
                        self.module == old(self).module,
                        self.modules == old(self).modules,
                        self.warnings == old(self).warnings,
                        function.params@.len() == i,
                        forall|j: int|
                            0 <= j < i ==> (#[trigger] function.params@[j]).0@ == args@[j]@
                                && function.params@[j].1@ == ty_of(params@[j]),
                        function.name@ == name@,
                        function.return_type@ == ty_of(**ret),
                        function.block@.len() == 0,
                        function.doc_comments@.len() == 0,
                    decreases args.len() - i,
                {
                    function.params.push((args[i].clone(), params[i].copy()));
                    self.insert_symbol(args[i].clone(), (params[i].copy(), true));
                    i = i + 1;
                }
                proof {
                    crate::ast::lemma_named_tys_of(function.params@, function.params@.len() as int);
                    assert(named_view(function.params@) =~= zip_params(args@, params@));
                }
                let block = &func_node.block;
                let ghost sc0 = self.scope();
                let ghost m = *old(self).module;
                let ghost mods = old(self).modules@;
                let mut j: usize = 0;
                proof {
                    assert(crate::mdir::sts_of(function.block@) =~= Seq::<St>::empty());
                    assert(diags(self.errors@) =~= diags(old(self).errors@) + Seq::<Diag>::empty());
                }
                while j < block.len()
                    invariant
                        j <= block.len(),
                        self.symbol_stack@.len() == old(self).symbol_stack@.len() + 1,
                        self.symbol_stack@.drop_last() == old(self).symbol_stack@,
                        *self.module == m,
                        self.modules@ == mods,
                        m == *old(self).module,
                        mods == old(self).modules@,
                        self.module == old(self).module,
                        self.modules == old(self).modules,
                        self.warnings == old(self).warnings,
                        self.scope() == body_run(m, mods, sc0, block@, j as int).0,
                        crate::mdir::sts_of(function.block@) == body_run(m, mods, sc0, block@, j as int).1,
                        diags(self.errors@) == diags(old(self).errors@) + body_run(
                            m,
                            mods,
                            sc0,
                            block@,
                            j as int,
                        ).2,
                        named_view(function.params@) == zip_params(args@, params@),
                        function.name@ == name@,
                        function.return_type@ == ty_of(**ret),
                        function.doc_comments@.len() == 0,
                    decreases block.len() - j,
                {
                    let ghost before_blk = function.block@;
                    let ghost before_err = diags(self.errors@);
                    let st = self.stmt_ty(&block[j]);
                    match st {
                        Some(x) => {
                            function.block.push(x);
                            proof {
                                assert(crate::mdir::sts_of(function.block@) =~= crate::mdir::sts_of(
                                    before_blk,
                                ).push(crate::mdir::st_of(x)));
                            }
                        },
                        None => {},
                    }
                    proof {
                        assert(diags(self.errors@) =~= diags(old(self).errors@) + body_run(
                            m,
                            mods,
                            sc0,
                            block@,
                            j + 1,
                        ).2);
                    }
                    j = j + 1;
                }
                function.doc_comments = copy_docs(&func_node.doc_comments);
                self.pop_stack();
                proof {
                    assert(crate::mdir::fun_of(function) =~= fs.0);
                }
                function
            },
            _ => {
                let msg = not_func_message(name);
                self.report(func_node.location, msg);
                function
            },
        }
    }
}

impl<'a> Checker<'a> {
    /// Checks every definition of the module and collects its externs and the signatures
    /// of the symbols it imports.
    pub fn types(&mut self) -> (r: MiddleIR)
        ensures
            r@ == check_spec(*old(self).module, old(self).modules@).0,
            diags(final(self).errors@) == diags(old(self).errors@) + check_spec(
                *old(self).module,
                old(self).modules@,
            ).1,
            final(self).symbol_stack@ == old(self).symbol_stack@,
            final(self).module == old(self).module,
            final(self).modules == old(self).modules,
    {
        let mut middle_ir = MiddleIR::new();
        let module = self.module;
        let ghost m = *module;
        let ghost mods = self.modules@;
        let defns = &module.fn_defns;
        let mut i: usize = 0;
        proof {
            assert(diags(self.errors@) =~= diags(old(self).errors@) + Seq::<Diag>::empty());
            assert(middle_ir@.functions =~= Seq::<Fun>::empty());
        }
        while i < defns.len()
            invariant
                i <= defns.len(),
                *defns == m.fn_defns,
                self.module == module,
                *module == m,
                self.modules@ == mods,
                self.module == old(self).module,
                self.modules == old(self).modules,
                m == *old(self).module,
                mods == old(self).modules@,
                self.symbol_stack@ == old(self).symbol_stack@,
                middle_ir@.functions == defs_run(m, mods, i as int).0,
                middle_ir@.imported.len() == 0,
                middle_ir@.externs.len() == 0,
                diags(self.errors@) == diags(old(self).errors@) + defs_run(m, mods, i as int).1,
            decreases defns.len() - i,
        {
            let name = &defns[i].0;
            let func_node = &defns[i].1.0;
            let location = defns[i].1.1;
            match find_entry(&module.fn_decls, name) {
                Some(d) => {
                    let function = self.fn_ty(name, func_node, &module.fn_decls[d].1.0);
                    middle_ir.insert_function(function);
                    proof {
                        assert(diags(self.errors@) =~= diags(old(self).errors@) + defs_run(
                            m,
                            mods,
                            i + 1,
                        ).1);
                    }
                },
                None => {
                    let msg = no_decl_message(name);
                    self.report(location, msg);
                    proof {
                        assert(diags(self.errors@) =~= diags(old(self).errors@) + defs_run(
                            m,
                            mods,
                            i + 1,
                        ).1);
                    }
                },
            }
            i = i + 1;
        }
        let mut externs: Vec<ExternFunction> = Vec::new();
        let mut j: usize = 0;
        while j < module.externs.len()
            invariant
                j <= module.externs.len(),
                externs@.len() == j,
                forall|k: int|
                    0 <= k < j ==> extern_of(#[trigger] externs@[k]) == (
                        module.externs@[k].0@,
                        named_view(module.externs@[k].1.0@),
                        module.externs@[k].1.1@,
                    ),
            decreases module.externs.len() - j,
        {
            let e = &module.externs[j];
            externs.push(
                ExternFunction {
                    name: e.0.clone(),
                    params: copy_named(&e.1.0),
                    return_type: Box::new(e.1.1.copy()),
                },
            );
            j = j + 1;
        }
        let ghost ext_view = externs@.map_values(|f: ExternFunction| extern_of(f));
        proof {
            assert(ext_view =~= check_spec(m, mods).0.externs);
        }
        middle_ir.set_externs(externs);
        let mut imported: Vec<(String, (Vec<(String, TypeValue)>, TypeValue))> = Vec::new();
        match &module.imports {
            Some(tbl) => {
                let mut k: usize = 0;
                proof {
                    assert(sigs_of(imported@) =~= imports_run(tbl@, mods, 0));
                }
                while k < tbl.len()
                    invariant
                        k <= tbl.len(),
                        module.imports == Some(*tbl),
                        self.modules@ == mods,
                        sigs_of(imported@) == imports_run(tbl@, mods, k as int),
                    decreases tbl.len() - k,
                {
                    if let (ImportKey::Symbol(key), Some(path)) = (&tbl[k].0, &tbl[k].1) {
                        match find_entry(self.modules, path) {
                            Some(mi) => {
                                match local_signature(&self.modules[mi].1, key) {
                                    Some(sig) => {
                                        let ghost before = imported@;
                                        imported.push((key.clone(), sig));
                                        proof {
                                            assert(sigs_of(imported@) =~= sigs_of(before).push(
                                                sigs_of(imported@).last(),
                                            ));
                                        }
                                    },
                                    None => {},
                                }
                            },
                            None => {},
                        }
                    }
                    k = k + 1;
                }
            },
            None => {
                proof {
                    assert(sigs_of(imported@) =~= Seq::<(Seq<char>, Seq<(Seq<char>, Ty)>, Ty)>::empty());
                }
            },
        }
        middle_ir.set_imported_functions(imported);
        middle_ir
    }
}

/// Type-checks `module` against the declarations of `modules`, the whole program.
/// Returns its checked form and every diagnostic found.
pub fn check(module: &Module, modules: &Vec<(String, Module)>) -> (r: (MiddleIR, Vec<CheckError>))
    ensures
        r.0@ == check_spec(*module, modules@).0,
        diags(r.1@) == check_spec(*module, modules@).1,
{
    let mut checker = Checker::new(module, modules);
    let ir = checker.types();
    proof {
        assert(diags(checker.errors@) =~= check_spec(*module, modules@).1);
    }
    (ir, checker.errors)
}

// Properties of the checker.
/// A lone operand is its own postfix form.
pub proof fn lemma_postfix_single(x: Ex)
    requires
        x is Lit,
    ensures
        postfix(seq![x]) == seq![x],
{
    let e: Seq<Ex> = Seq::empty();
    assert(seq![x].drop_last() =~= e);
    assert(sy_run(e) == (e, e));
    assert(e.push(x) =~= seq![x]);
    assert(crate::mdir::sy_drain(seq![x], e) == seq![x]);
}

/// A bare integer statement `n` becomes the one-item stream holding `n` as a 32-bit
/// integer literal, written in decimal, with no diagnostic.
pub proof fn lemma_int_statement(
    m: Module,
    mods: Seq<(String, Module)>,
    sc: Scope,
    n: i128,
    loc: Location,
    errs: Vec<ParseError>,
)
    ensures
        stmt_step(m, mods, sc, Stmt::Expr(Expr::Int(n, loc), errs)) == (
            sc,
            Some(St::Expr(seq![Ex::Lit(Lit::Int(Ty::I32, crate::text::signed_decimal(n as int)))])),
            Seq::<Diag>::empty(),
        ),
{
    lemma_postfix_single(Ex::Lit(Lit::Int(Ty::I32, crate::text::signed_decimal(n as int))));
}

/// Adding an integer to a string yields exactly one diagnostic, at the operator, naming
/// both types, and the statement's stream is empty.
pub proof fn lemma_int_plus_string(
    m: Module,
    mods: Seq<(String, Module)>,
    sc: Scope,
    n: i128,
    s: String,
    l1: Location,
    l2: Location,
    loc: Location,
    errs: Vec<ParseError>,
)
    ensures
        ({
            let st = Stmt::Expr(
                Expr::Add(Box::new(Expr::Int(n, l1)), Box::new(Expr::String(s, l2)), loc),
                errs,
            );
            stmt_step(m, mods, sc, st) == (
                sc,
                Some(St::Expr(Seq::<Ex>::empty())),
                seq![(loc, mismatch_msg("+"@, Ty::I32, Ty::String))],
            )
        }),
{
    let e: Seq<Ex> = Seq::empty();
    assert(sy_run(e) == (e, e));
    assert(crate::mdir::sy_drain(e, e) == e);
    let d: Seq<Diag> = Seq::empty();
    assert(d + d =~= d);
    assert(Ty::I32 != Ty::String);
    let lhs = flat(m, mods, sc, Expr::Int(n, l1));
    let rhs = flat(m, mods, sc, Expr::String(s, l2));
    assert(lhs.1 == Ty::I32 && lhs.2 == d);
    assert(rhs.1 == Ty::String && rhs.2 == d);
    let sum = flat(
        m,
        mods,
        sc,
        Expr::Add(Box::new(Expr::Int(n, l1)), Box::new(Expr::String(s, l2)), loc),
    );
    assert(sum == bin(lhs, rhs, loc, Ex::Add, "+"@));
    assert(sum.0 == e);
    assert(sum.2 =~= seq![(loc, mismatch_msg("+"@, Ty::I32, Ty::String))]);
}

/// Whether `k` is bound in `sc` after it is inserted there.
pub proof fn lemma_scope_insert_finds(sc: Scope, k: Seq<char>, t: Ty, p: bool)
    ensures
        find_sym(scope_insert(sc, k, t, p), k) is Some,
        scope_insert(sc, k, t, p)[find_sym(scope_insert(sc, k, t, p), k)->0] == (k, t, p),
{
    lemma_find_sym(sc, k);
    let s2 = scope_insert(sc, k, t, p);
    lemma_find_sym(s2, k);
    match find_sym(sc, k) {
        Some(i) => {
            assert(s2[i].0 == k);
        },
        None => {
            assert(s2[sc.len() as int].0 == k);
        },
    }
}

/// An identifier used before any declaration yields exactly one "undefined at this point"
/// diagnostic; after a declaration of the same name with a value it resolves with none.
pub proof fn lemma_scope_discipline(
    m: Module,
    mods: Seq<(String, Module)>,
    sc: Scope,
    use_name: Name,
    loc: Location,
    errs: Vec<ParseError>,
    decl: Var,
)
    requires
        find_sym(sc, first_seg(use_name.name@)) is None,
        decl.is_decl,
        !(decl.rhs is Void),
        last_seg(decl.lhs.name@) == first_seg(use_name.name@),
    ensures
        stmt_step(m, mods, sc, Stmt::Expr(Expr::Identifier(use_name, loc), errs)).2 == seq![
            (loc, undefined_msg(first_seg(use_name.name@))),
        ],
        stmt_step(
            m,
            mods,
            var_step(m, mods, sc, decl).0,
            Stmt::Expr(Expr::Identifier(use_name, loc), errs),
        ).2.len() == 0,
{
    let k = first_seg(use_name.name@);
    let x = flat(m, mods, sc, decl.rhs);
    lemma_scope_insert_finds(sc, k, x.1, false);
}

/// A call of a name that the module declares and defines itself takes that signature,
/// even when an extern of the same name exists.
pub proof fn lemma_local_call_first(
    m: Module,
    mods: Seq<(String, Module)>,
    sc: Scope,
    name: Name,
    args: Vec<Expr>,
    loc: Location,
)
    requires
        find_key(m.fn_decls@, first_seg(name.name@)) is Some,
        find_key(m.externs@, first_seg(name.name@)) is Some,
        local_sig(m, first_seg(name.name@)) is Some,
        args@.len() == (local_sig(m, first_seg(name.name@))->0).0.len(),
    ensures
        resolve(m, mods, first_seg(name.name@)) == local_sig(m, first_seg(name.name@)),
        flat(m, mods, sc, Expr::FuncCall(name, args, loc)).1 == (local_sig(
            m,
            first_seg(name.name@),
        )->0).1,
{
}

/// Checking is a function of the module and the program: two checks of the same module
/// give the same checked form and the same diagnostics, so a module that checks without
/// diagnostics once does so every time.
pub proof fn lemma_check_idempotent(
    m: Module,
    mods: Seq<(String, Module)>,
    first: (MiddleIR, Vec<CheckError>),
    second: (MiddleIR, Vec<CheckError>),
)
    requires
        first.0@ == check_spec(m, mods).0,
        diags(first.1@) == check_spec(m, mods).1,
        second.0@ == check_spec(m, mods).0,
        diags(second.1@) == check_spec(m, mods).1,
    ensures
        first.0@ == second.0@,
        diags(first.1@) == diags(second.1@),
        first.1@.len() == 0 ==> second.1@.len() == 0,
{
    assert(diags(first.1@).len() == first.1@.len());
    assert(diags(second.1@).len() == second.1@.len());
}

/// Checks every module of a program.
pub struct Analyzer;

impl Analyzer {
    pub fn new() -> (r: Analyzer) {
        Analyzer
    }

    /// Checks each module of `modules` against the whole program. Returns the checked
    /// form of every module, in order, when no module has a diagnostic; otherwise the
    /// diagnostics of each module that has some.
    pub fn analyze(&mut self, modules: &Vec<(String, Module)>) -> (r: Result<
        Vec<(String, MiddleIR)>,
        Vec<(String, Vec<CheckError>)>,
    >)
        ensures
            r is Ok <==> forall|i: int|
                0 <= i < modules@.len() ==> (#[trigger] check_spec(modules@[i].1, modules@)).1.len()
                    == 0,
            r is Ok ==> r->Ok_0@.len() == modules@.len() && forall|i: int|
                0 <= i < modules@.len() ==> (#[trigger] r->Ok_0@[i]).0@ == modules@[i].0@
                    && r->Ok_0@[i].1@ == check_spec(modules@[i].1, modules@).0,
            r is Err ==> forall|i: int|
                0 <= i < r->Err_0@.len() ==> (#[trigger] r->Err_0@[i]).1@.len() > 0,
    {
        let mut checked: Vec<(String, MiddleIR)> = Vec::new();
        let mut failed: Vec<(String, Vec<CheckError>)> = Vec::new();
        let mut i: usize = 0;
        while i < modules.len()
            invariant
                i <= modules@.len(),
                checked@.len() == i,
                forall|j: int|
                    0 <= j < i ==> (#[trigger] checked@[j]).0@ == modules@[j].0@ && checked@[j].1@
                        == check_spec(modules@[j].1, modules@).0,
                (failed@.len() == 0) <==> forall|j: int|
                    0 <= j < i ==> (#[trigger] check_spec(modules@[j].1, modules@)).1.len() == 0,
                forall|j: int| 0 <= j < failed@.len() ==> (#[trigger] failed@[j]).1@.len() > 0,
            decreases modules.len() - i,
        {
            let (ir, errors) = check(&modules[i].1, modules);
            proof {
                assert(diags(errors@).len() == errors@.len());
            }
            if errors.len() > 0 {
                failed.push((modules[i].0.clone(), errors));
            }
            checked.push((modules[i].0.clone(), ir));
            i = i + 1;
        }
        if failed.len() == 0 {
            Ok(checked)
        } else {
            Err(failed)
        }
    }
}

} // verus!
