use vstd::prelude::*;

use crate::ast::{find_entry, find_key, lemma_named_tys_of, named_view, Ty, TypeValue};
use crate::mdir::{
    args_view, ex_of, lemma_args_of, lemma_stream, lit_ty, stream, Ex, Expression, ExternFunction,
    Function, Lit, Literal, MiddleIR, Statement,
};
use crate::text::{decimal, push_decimal};

verus! {

/// Hands out numbers for temporaries, and remembers which storage cell holds each
/// variable of a function.
pub struct VarCounter {
    pub count: u64,
    pub var_mapping: Vec<(String, u64)>,
}

impl VarCounter {
    /// The next number. The counter wraps around after `u64::MAX`, a count that no
    /// listing can reach since each number is written out at least once.
    pub fn use_c(&mut self) -> (r: u64)
        ensures
            r == old(self).count,
            final(self).count == old(self).count.wrapping_add(1),
            final(self).var_mapping == old(self).var_mapping,
    {
        let result = self.count;
        self.count = self.count.wrapping_add(1);
        result
    }

    pub fn new(count: u64) -> (r: VarCounter)
        ensures
            r.count == count,
            r.var_mapping@.len() == 0,
    {
        VarCounter { count, var_mapping: Vec::new() }
    }

    /// Records that `name` lives in storage cell `id`, in place of an earlier cell.
    pub fn insert(&mut self, name: String, id: u64)
        ensures
            final(self).count == old(self).count,
            final(self).var_mapping@ == insert_var(old(self).var_mapping@, name, id),
            find_key(final(self).var_mapping@, name@) is Some,
            final(self).var_mapping@[find_key(final(self).var_mapping@, name@)->0].1 == id,
    {
        match find_entry(&self.var_mapping, &name) {
            Some(i) => {
                let ghost k = name@;
                let ghost before = self.var_mapping@;
                self.var_mapping.set(i, (name, id));
                proof {
                    crate::ast::lemma_find_key(before, k);
                    crate::ast::lemma_find_key(self.var_mapping@, k);
                    assert(forall|j: int| 0 <= j < i ==> self.var_mapping@[j] == before[j]);
                    assert(self.var_mapping@[i as int].0@ == k);
                    if find_key(self.var_mapping@, k) is None {
                        assert(self.var_mapping@[i as int].0@ != k);
                    }
                    let f = find_key(self.var_mapping@, k)->0;
                    if f < i {
                        assert(before[f].0@ != k);
                    }
                    if f > i {
                        assert(self.var_mapping@[i as int].0@ != k);
                    }
                }
            },
            None => {
                let ghost k = name@;
                let ghost before = self.var_mapping@;
                self.var_mapping.push((name, id));
                proof {
                    crate::ast::lemma_find_key(before, k);
                    crate::ast::lemma_find_key(self.var_mapping@, k);
                    assert(forall|j: int| 0 <= j < before.len() ==> self.var_mapping@[j] == before[j]);
                    let n = before.len() as int;
                    assert(self.var_mapping@[n].0@ == k);
                    if find_key(self.var_mapping@, k) is None {
                        assert(self.var_mapping@[n].0@ != k);
                    }
                    let f = find_key(self.var_mapping@, k)->0;
                    if f < n {
                        assert(before[f].0@ != k);
                    }
                }
            },
        }
    }

    /// The storage cell of `name`, if it has one.
    pub fn get(&self, name: &String) -> (r: Option<u64>)
        ensures
            match find_key(self.var_mapping@, name@) {
                Some(i) => r == Some(self.var_mapping@[i].1),
                None => r is None,
            },
    {
        match find_entry(&self.var_mapping, name) {
            Some(i) => Some(self.var_mapping[i].1),
            None => None,
        }
    }
}

/// The backend type that stands for a type.
pub open spec fn llvm_ty(t: Ty) -> Seq<char> {
    match t {
        Ty::Void => "void"@,
        Ty::Bool => "i1"@,
        Ty::I8 | Ty::U8 => "i8"@,
        Ty::I16 | Ty::U16 => "i16"@,
        Ty::I32 | Ty::U32 => "i32"@,
        Ty::I64 | Ty::U64 => "i64"@,
        Ty::I128 | Ty::U128 => "i128"@,
        Ty::F32 => "float"@,
        Ty::F64 => "double"@,
        Ty::String => "i8*"@,
        _ => "ptr"@,
    }
}

/// The backend type that stands for a type.
pub fn type_value_to_llvm_ir(type_value: &TypeValue) -> (r: &'static str)
    ensures
        r@ == llvm_ty(type_value@),
{
    match type_value {
        TypeValue::Void => "void",
        TypeValue::Bool => "i1",
        TypeValue::I8 | TypeValue::U8 => "i8",
        TypeValue::I16 | TypeValue::U16 => "i16",
        TypeValue::I32 | TypeValue::U32 => "i32",
        TypeValue::I64 | TypeValue::U64 => "i64",
        TypeValue::I128 | TypeValue::U128 => "i128",
        TypeValue::F32 => "float",
        TypeValue::F64 => "double",
        TypeValue::String => "i8*",
        _ => "ptr",
    }
}

/// The size in bytes of a value of a type as it is copied between cells.
pub open spec fn ty_size(t: Ty) -> u64 {
    match t {
        Ty::Bool | Ty::I8 | Ty::U8 => 1,
        Ty::I16 | Ty::U16 => 2,
        Ty::I32 | Ty::U32 | Ty::F32 => 4,
        Ty::I128 | Ty::U128 => 16,
        _ => 8,
    }
}

/// The size in bytes of a value of a type; a string literal has the size of its text.
pub fn type_and_expr_to_size(expr: &Expression, type_value: &TypeValue) -> (r: u64)
    ensures
        type_value@ == Ty::String && expr is Literal && expr->Literal_0 is String ==> r as int
            == (expr->Literal_0->String_0)@.len(),
        !(type_value@ == Ty::String && expr is Literal && expr->Literal_0 is String) ==> r
            == ty_size(type_value@),
{
    if let TypeValue::String = type_value {
        if let Expression::Literal(Literal::String(s)) = expr {
            return s.as_str().unicode_len() as u64;
        }
    }
    match type_value {
        TypeValue::Bool | TypeValue::I8 | TypeValue::U8 => 1,
        TypeValue::I16 | TypeValue::U16 => 2,
        TypeValue::I32 | TypeValue::U32 | TypeValue::F32 => 4,
        TypeValue::I128 | TypeValue::U128 => 16,
        _ => 8,
    }
}

/// A parameter list: `type %name` for each parameter, separated by commas.
pub open spec fn params_text(ps: Seq<(Seq<char>, Ty)>, n: int) -> Seq<char>
    decreases n,
{
    if n <= 0 || n > ps.len() {
        Seq::empty()
    } else if n == 1 {
        llvm_ty(ps[0].1) + " %"@ + ps[0].0
    } else {
        params_text(ps, n - 1) + ", "@ + llvm_ty(ps[n - 1].1) + " %"@ + ps[n - 1].0
    }
}

/// The parameter list of a signature.
pub fn function_params_to_llvm_ir(params: &Vec<(String, TypeValue)>) -> (r: String)
    ensures
        r@ == params_text(named_view(params@), params@.len() as int),
{
    let mut result = String::new();
    let mut i: usize = 0;
    proof {
        lemma_named_tys_of(params@, params@.len() as int);
    }
    while i < params.len()
        invariant
            i <= params.len(),
            named_view(params@).len() == params@.len(),
            forall|j: int|
                0 <= j < params@.len() ==> #[trigger] named_view(params@)[j] == (
                    params@[j].0@,
                    params@[j].1@,
                ),
            result@ == params_text(named_view(params@), i as int),
        decreases params.len() - i,
    {
        if i > 0 {
            result.append(", ");
        }
        result.append(type_value_to_llvm_ir(&params[i].1));
        result.append(" %");
        result.append(params[i].0.as_str());
        i = i + 1;
        proof {
            assert(result@ =~= params_text(named_view(params@), i as int));
        }
    }
    result
}

/// A forward declaration: `declare <ret> @<name>(<params>)`.
pub open spec fn declare_text(name: Seq<char>, ps: Seq<(Seq<char>, Ty)>, ret: Ty) -> Seq<char> {
    "declare "@ + llvm_ty(ret) + " @"@ + name + "("@ + params_text(ps, ps.len() as int) + ")\n"@
}

fn declare_line(name: &String, params: &Vec<(String, TypeValue)>, ret: &TypeValue) -> (r: String)
    ensures
        r@ == declare_text(name@, named_view(params@), ret@),
{
    let mut s = String::new();
    s.append("declare ");
    s.append(type_value_to_llvm_ir(ret));
    s.append(" @");
    s.append(name.as_str());
    s.append("(");
    proof {
        lemma_named_tys_of(params@, params@.len() as int);
    }
    s.append(function_params_to_llvm_ir(params).as_str());
    s.append(")\n");
    assert(s@ =~= declare_text(name@, named_view(params@), ret@));
    s
}

/// The declaration of a function imported from another module.
pub fn imported_function_to_llvm_ir(
    name: &String,
    imported_function: &(Vec<(String, TypeValue)>, TypeValue),
) -> (r: String)
    ensures
        r@ == declare_text(name@, named_view(imported_function.0@), imported_function.1@),
{
    declare_line(name, &imported_function.0, &imported_function.1)
}

/// The declaration of an extern function.
pub fn extern_to_llvm_ir(function: &ExternFunction) -> (r: String)
    ensures
        r@ == declare_text(function.name@, named_view(function.params@), (*function.return_type)@),
{
    declare_line(&function.name, &function.params, &function.return_type)
}

/// The name of temporary `n`.
pub open spec fn tmp(n: u64) -> Seq<char> {
    "%"@ + decimal(n as nat)
}

fn push_tmp(s: &mut String, n: u64)
    ensures
        final(s)@ == old(s)@ + tmp(n),
{
    s.append("%");
    push_decimal(s, n as u128);
    assert(final(s)@ =~= old(s)@ + tmp(n));
}

fn tmp_name(n: u64) -> (r: String)
    ensures
        r@ == tmp(n),
{
    let mut s = String::new();
    push_tmp(&mut s, n);
    assert(s@ =~= tmp(n));
    s
}

fn push_size(s: &mut String, n: u64)
    ensures
        final(s)@ == old(s)@ + decimal(n as nat),
{
    push_decimal(s, n as u128);
}

/// The text inside the quotes of a string literal's source text.
pub open spec fn unquoted(s: Seq<char>) -> Seq<char> {
    if s.len() >= 2 && s[0] == '"' && s.last() == '"' {
        s.subrange(1, s.len() - 1)
    } else {
        s
    }
}

fn unquote(s: &String) -> (r: String)
    ensures
        r@ == unquoted(s@),
{
    let n = s.as_str().unicode_len();
    if n >= 2 && s.as_str().get_char(0) == '"' && s.as_str().get_char(n - 1) == '"' {
        String::from_str(s.as_str().substring_char(1, n - 1))
    } else {
        s.clone()
    }
}

// The exact text of the lowering.
/// The number after `c`.
pub open spec fn nx(c: u64) -> u64 {
    c.wrapping_add(1)
}

/// The value of an operand.
pub open spec fn lit_of(l: Literal) -> Lit {
    ex_of(Expression::Literal(l))->Lit_0
}

/// The storage cell of variable `n`: the temporary recorded for it, or else a register
/// of its own name.
pub open spec fn cell_text(vars: Seq<(String, u64)>, n: Seq<char>) -> Seq<char> {
    match find_key(vars, n) {
        Some(i) => tmp(vars[i].1),
        None => "%"@ + n,
    }
}

/// Copies the value in `cell` into a fresh slot `%c`, through a pointer loaded into
/// `%c+1`.
pub open spec fn copy_text(c: u64, cell: Seq<char>, t: Ty) -> Seq<char> {
    "    "@ + tmp(c) + " = alloca "@ + llvm_ty(t) + "\n"@ + "    "@ + tmp(nx(c))
        + " = load ptr, ptr "@ + cell + "\n"@ + "    call void @llvm.memcpy.p0.p0.i64(ptr "@
        + tmp(c) + ", ptr "@ + tmp(nx(c)) + ", i64 "@ + decimal(ty_size(t) as nat)
        + ", i1 false)\n"@
}

/// Reads the pointer held by a variable's cell into `%c+1`, through the cell's address
/// loaded into `%c`.
pub open spec fn ptr_load_text(c: u64, cell: Seq<char>) -> Seq<char> {
    "    "@ + tmp(c) + " = load ptr, ptr "@ + cell + "\n"@ + "    "@ + tmp(nx(c))
        + " = load ptr, ptr "@ + tmp(c) + "\n"@
}

/// Loads the copy in slot `%c` into `%c+2`.
pub open spec fn load_text(c: u64, t: Ty) -> Seq<char> {
    "    "@ + tmp(nx(nx(c))) + " = load "@ + llvm_ty(t) + ", ptr "@ + tmp(c) + "\n"@
}

/// Takes the address held by a string variable's cell: a pointer into its bytes.
pub open spec fn string_load_text(c: u64, cell: Seq<char>) -> Seq<char> {
    "    "@ + tmp(c) + " = load ptr, ptr "@ + cell + "\n"@ + "    "@ + tmp(nx(c))
        + " = load i8*, ptr "@ + tmp(c) + "\n"@ + "    "@ + tmp(nx(nx(c)))
        + " = getelementptr inbounds i8, i8* "@ + tmp(nx(c)) + ", i32 0\n"@
}

/// Stores a string constant of `len` bytes in a fresh buffer `%c` and takes its
/// address into `%c+1`.
pub open spec fn strlit_text(c: u64, body: Seq<char>, len: u64) -> Seq<char> {
    "    "@ + tmp(c) + " = alloca ["@ + decimal(len as nat) + " x i8]\n"@ + "    store ["@
        + decimal(len as nat) + " x i8] c\""@ + body + "\\00\", ptr "@ + tmp(c) + "\n"@
        + "    "@ + tmp(nx(c)) + " = getelementptr inbounds ["@ + decimal(len as nat)
        + " x i8], ptr "@ + tmp(c) + ", i32 0, i32 0\n"@
}

/// An operand on the evaluation stack, as a value: the index of a literal of the stream,
/// or a computed value with its type.
pub enum Opnd {
    Pending(int),
    Value(Seq<char>, Ty),
}

/// The lowering of an operand from counter `c`: its instructions, the text of its value,
/// and the next counter.
pub open spec fn lit_ir(l: Lit, vars: Seq<(String, u64)>, c: u64) -> (Seq<char>, Seq<char>, u64)
    decreases l, 0int, 0int,
{
    match l {
        Lit::Int(_, t) => (Seq::empty(), t, c),
        Lit::Identifier(t, n, is_param) => if is_param {
            (Seq::empty(), "%"@ + n, c)
        } else if t == Ty::String {
            (string_load_text(c, cell_text(vars, n)), tmp(nx(nx(c))), nx(nx(nx(c))))
        } else {
            (copy_text(c, cell_text(vars, n), t) + load_text(c, t), tmp(nx(nx(c))), nx(nx(nx(c))))
        },
        Lit::String(s) => {
            let body = unquoted(s);
            let len = (body.len() as u64).wrapping_add(1);
            (strlit_text(c, body, len), tmp(nx(c)), nx(nx(c)))
        },
        Lit::Call(ret, f, args) => {
            let a = call_args(args, vars, c, args.len() as int);
            (
                a.0 + "    "@ + tmp(a.2) + " = call "@ + llvm_ty(ret) + " @"@ + f + "("@ + a.1
                    + ")\n"@,
                tmp(a.2),
                nx(a.2),
            )
        },
    }
}

/// Whether an argument is a lone variable that is not a parameter.
pub open spec fn is_local_arg(s: Seq<Ex>) -> bool {
    s.len() == 1 && s[0] is Lit && s[0]->Lit_0 is Identifier && !s[0]->Lit_0->Identifier_2
}

/// The first `n` arguments of a call: their instructions, the argument list, and the
/// next counter. A variable passed by value is copied into a slot of its own first.
pub open spec fn call_args(args: Seq<(Seq<Ex>, Ty)>, vars: Seq<(String, u64)>, c: u64, n: int) -> (
    Seq<char>,
    Seq<char>,
    u64,
)
    decreases args, 0int, n,
{
    if n <= 0 || n > args.len() {
        (Seq::empty(), Seq::empty(), c)
    } else {
        let p = call_args(args, vars, c, n - 1);
        let a = args[n - 1];
        let sep = if n - 1 > 0 {
            ", "@
        } else {
            Seq::empty()
        };
        if is_local_arg(a.0) {
            let t = a.0[0]->Lit_0->Identifier_0;
            let cell = cell_text(vars, a.0[0]->Lit_0->Identifier_1);
            if t is Ptr {
                (p.0 + ptr_load_text(p.2, cell), p.1 + sep + "ptr "@ + tmp(nx(p.2)), nx(nx(p.2)))
            } else {
                (
                    p.0 + copy_text(p.2, cell, t) + load_text(p.2, t),
                    p.1 + sep + llvm_ty(t) + " "@ + tmp(nx(nx(p.2))),
                    nx(nx(nx(p.2))),
                )
            }
        } else {
            let s = stream_ir(a.0, vars, p.2);
            (
                p.0 + s.0,
                p.1 + sep + llvm_ty(a.1) + " "@ + match s.1 {
                    Some(v) => v,
                    None => "undef"@,
                },
                s.3,
            )
        }
    }
}

/// Lowers the operand `o` of stream `s`: instructions, value text, next counter, type.
pub open spec fn materialize(s: Seq<Ex>, vars: Seq<(String, u64)>, o: Opnd, c: u64) -> (
    Seq<char>,
    Seq<char>,
    u64,
    Ty,
)
    decreases s, 0int, 0int,
{
    match o {
        Opnd::Pending(j) => if 0 <= j < s.len() && s[j] is Lit {
            let x = lit_ir(s[j]->Lit_0, vars, c);
            (x.0, x.1, x.2, lit_ty(s[j]->Lit_0))
        } else {
            (Seq::empty(), Seq::empty(), c, Ty::Void)
        },
        Opnd::Value(v, t) => (Seq::empty(), v, c, t),
    }
}

/// The stack machine after the first `n` items of `s`: instructions so far, the
/// counter, and the stack.
pub open spec fn run(s: Seq<Ex>, vars: Seq<(String, u64)>, c: u64, n: int) -> (Seq<char>, u64, Seq<Opnd>)
    decreases s, 1int, n,
{
    if n <= 0 || n > s.len() {
        (Seq::empty(), c, Seq::empty())
    } else {
        let p = run(s, vars, c, n - 1);
        match s[n - 1] {
            Ex::Lit(_) => (p.0, p.1, p.2.push(Opnd::Pending(n - 1))),
            Ex::LParen => p,
            Ex::RParen => p,
            op => if p.2.len() >= 2 {
                let l = materialize(s, vars, p.2[p.2.len() - 2], p.1);
                let r = materialize(s, vars, p.2.last(), l.2);
                (
                    p.0 + l.0 + r.0 + "    "@ + tmp(r.2) + " = "@ + op_text(op) + " "@ + llvm_ty(l.3)
                        + " "@ + l.1 + ", "@ + r.1 + "\n"@,
                    nx(r.2),
                    p.2.drop_last().drop_last().push(Opnd::Value(tmp(r.2), l.3)),
                )
            } else {
                p
            },
        }
    }
}

/// The lowering of a postfix stream from counter `c`: instructions, the text of its
/// result (none for an empty stream), the result's backend type, and the next counter.
pub open spec fn stream_ir(s: Seq<Ex>, vars: Seq<(String, u64)>, c: u64) -> (
    Seq<char>,
    Option<Seq<char>>,
    Seq<char>,
    u64,
)
    decreases s, 2int, 0int,
{
    if s.len() == 0 {
        (Seq::empty(), None, "void"@, c)
    } else if s.len() == 1 && s[0] is Lit && s[0]->Lit_0 is Int {
        (Seq::empty(), Some(s[0]->Lit_0->Int_1), llvm_ty(s[0]->Lit_0->Int_0), c)
    } else {
        let st = run(s, vars, c, s.len() as int);
        if st.2.len() > 0 {
            let m = materialize(s, vars, st.2.last(), st.1);
            (st.0 + m.0, Some(m.1), llvm_ty(m.3), m.2)
        } else {
            (st.0, None, "void"@, st.1)
        }
    }
}

fn cell_of(var_counter: &VarCounter, name: &String) -> (r: String)
    ensures
        r@ == cell_text(var_counter.var_mapping@, name@),
{
    match var_counter.get(name) {
        Some(id) => tmp_name(id),
        None => {
            let mut v = String::new();
            v.append("%");
            v.append(name.as_str());
            v
        },
    }
}

fn push_copy(result: &mut String, var_counter: &mut VarCounter, cell: &String, ty: &TypeValue) -> (r: u64)
    ensures
        r == old(var_counter).count,
        final(result)@ == old(result)@ + copy_text(r, cell@, ty@),
        final(var_counter).count == nx(nx(old(var_counter).count)),
        final(var_counter).var_mapping == old(var_counter).var_mapping,
{
    let ty_ir = type_value_to_llvm_ir(ty);
    let size = type_and_expr_to_size(&Expression::Add, ty);
    let clone_id = var_counter.use_c();
    result.append("    ");
    push_tmp(result, clone_id);
    result.append(" = alloca ");
    result.append(ty_ir);
    result.append("\n");
    let src_id = var_counter.use_c();
    result.append("    ");
    push_tmp(result, src_id);
    result.append(" = load ptr, ptr ");
    result.append(cell.as_str());
    result.append("\n");
    result.append("    call void @llvm.memcpy.p0.p0.i64(ptr ");
    push_tmp(result, clone_id);
    result.append(", ptr ");
    push_tmp(result, src_id);
    result.append(", i64 ");
    push_size(result, size);
    result.append(", i1 false)\n");
    assert(final(result)@ =~= old(result)@ + copy_text(clone_id, cell@, ty@));
    clone_id
}

fn push_load(result: &mut String, var_counter: &mut VarCounter, clone_id: u64, ty: &TypeValue) -> (r: u64)
    requires
        old(var_counter).count == nx(nx(clone_id)),
    ensures
        r == nx(nx(clone_id)),
        final(result)@ == old(result)@ + load_text(clone_id, ty@),
        final(var_counter).count == nx(old(var_counter).count),
        final(var_counter).var_mapping == old(var_counter).var_mapping,
{
    let value_id = var_counter.use_c();
    result.append("    ");
    push_tmp(result, value_id);
    result.append(" = load ");
    result.append(type_value_to_llvm_ir(ty));
    result.append(", ptr ");
    push_tmp(result, clone_id);
    result.append("\n");
    assert(final(result)@ =~= old(result)@ + load_text(clone_id, ty@));
    value_id
}

/// Lowers one operand. Returns the instructions that compute it and the operand text
/// that stands for its value. Integer constants and parameters need no instruction; a
/// local variable is copied out of its cell; a string constant is stored in a buffer of
/// its own; a call lowers its arguments first.
pub fn literal_to_llvm_ir(literal: &Literal, var_counter: &mut VarCounter) -> (r: (String, String))
    ensures
        (r.0@, r.1@, final(var_counter).count) == lit_ir(
            lit_of(*literal),
            old(var_counter).var_mapping@,
            old(var_counter).count,
        ),
        final(var_counter).var_mapping == old(var_counter).var_mapping,
    decreases literal, 2int,
{
    let ghost vars = var_counter.var_mapping@;
    match literal {
        Literal::Int(_, text) => (String::new(), text.clone()),
        Literal::Identifier(_, name, true) => {
            let mut v = String::new();
            v.append("%");
            v.append(name.as_str());
            (String::new(), v)
        },
        Literal::Identifier(ty, name, false) => {
            let mut result = String::new();
            let cell = cell_of(var_counter, name);
            if let TypeValue::String = ty {
                let ptr_id = var_counter.use_c();
                result.append("    ");
                push_tmp(&mut result, ptr_id);
                result.append(" = load ptr, ptr ");
                result.append(cell.as_str());
                result.append("\n");
                let value_id = var_counter.use_c();
                result.append("    ");
                push_tmp(&mut result, value_id);
                result.append(" = load i8*, ptr ");
                push_tmp(&mut result, ptr_id);
                result.append("\n");
                let elem_id = var_counter.use_c();
                result.append("    ");
                push_tmp(&mut result, elem_id);
                result.append(" = getelementptr inbounds i8, i8* ");
                push_tmp(&mut result, value_id);
                result.append(", i32 0\n");
                proof {
                    assert(result@ =~= string_load_text(ptr_id, cell@));
                }
                (result, tmp_name(elem_id))
            } else {
                let clone_id = push_copy(&mut result, var_counter, &cell, ty);
                let value_id = push_load(&mut result, var_counter, clone_id, ty);
                proof {
                    assert(result@ =~= copy_text(clone_id, cell@, ty@) + load_text(clone_id, ty@));
                }
                (result, tmp_name(value_id))
            }
        },
        Literal::String(text) => {
            let body = unquote(text);
            let length = (body.as_str().unicode_len() as u64).wrapping_add(1);
            let mut result = String::new();
            let buf_id = var_counter.use_c();
            result.append("    ");
            push_tmp(&mut result, buf_id);
            result.append(" = alloca [");
            push_size(&mut result, length);
            result.append(" x i8]\n");
            result.append("    store [");
            push_size(&mut result, length);
            result.append(" x i8] c\"");
            result.append(body.as_str());
            result.append("\\00\", ptr ");
            push_tmp(&mut result, buf_id);
            result.append("\n");
            let ptr_id = var_counter.use_c();
            result.append("    ");
            push_tmp(&mut result, ptr_id);
            result.append(" = getelementptr inbounds [");
            push_size(&mut result, length);
            result.append(" x i8], ptr ");
            push_tmp(&mut result, buf_id);
            result.append(", i32 0, i32 0\n");
            proof {
                assert(result@ =~= strlit_text(buf_id, body@, length));
            }
            (result, tmp_name(ptr_id))
        },
        Literal::Call(_, _, _) => call_to_llvm_ir(literal, var_counter),
    }
}

/// Lowers a call: each argument in order, then the call itself.
fn call_to_llvm_ir(literal: &Literal, var_counter: &mut VarCounter) -> (r: (String, String))
    requires
        literal is Call,
    ensures
        (r.0@, r.1@, final(var_counter).count) == lit_ir(
            lit_of(*literal),
            old(var_counter).var_mapping@,
            old(var_counter).count,
        ),
        final(var_counter).var_mapping == old(var_counter).var_mapping,
    decreases literal, 1int,
{
    let ghost vars = var_counter.var_mapping@;
    let (ret_ty, func_name, args) = match literal {
        Literal::Call(r, f, a) => (r, f, a),
        _ => {
            return (String::new(), String::new());
        },
    };
    let ghost am = args_view(args@);
    proof {
        lemma_args_of(args@, args@.len() as int);
    }
    let mut result = String::new();
    let mut args_ir = String::new();
    let mut i: usize = 0;
    let ghost c0 = var_counter.count;
    while i < args.len()
        invariant
            *literal == Literal::Call(*ret_ty, *func_name, *args),
            i <= args.len(),
            am == args_view(args@),
            am.len() == args@.len(),
            forall|j: int| 0 <= j < args@.len() ==> #[trigger] am[j] == (stream(args@[j].0@), args@[j].1@),
            var_counter.var_mapping == old(var_counter).var_mapping,
            vars == old(var_counter).var_mapping@,
            (result@, args_ir@, var_counter.count) == call_args(am, vars, c0, i as int),
        decreases args.len() - i,
    {
        proof {
            vstd::std_specs::vec::axiom_vec_index_decreases(*args, i as int);
            assert(decreases_to!(*literal => literal->Call_2));
            assert(decreases_to!(*args => args@));
            assert(decreases_to!(args@ => args@[i as int]));
            assert(decreases_to!(args@[i as int] => args@[i as int].0));
        }
        assert(decreases_to!(*literal => args@[i as int].0));
        let ghost pre_r = result@;
        let ghost pre_a = args_ir@;
        let arg = &args[i].0;
        let param_ty = &args[i].1;
        proof {
            lemma_stream(arg@);
        }
        if i > 0 {
            args_ir.append(", ");
        }
        let ghost sep_a = args_ir@;
        let local = if arg.len() == 1 {
            match &arg[0] {
                Expression::Literal(Literal::Identifier(_, _, false)) => true,
                _ => false,
            }
        } else {
            false
        };
        if local {
            if let Expression::Literal(Literal::Identifier(ty, name, _)) = &arg[0] {
                let cell = cell_of(var_counter, name);
                if let TypeValue::Ptr(_) = ty {
                    // A pointer is passed as it is.
                    let addr_id = var_counter.use_c();
                    result.append("    ");
                    push_tmp(&mut result, addr_id);
                    result.append(" = load ptr, ptr ");
                    result.append(cell.as_str());
                    result.append("\n");
                    let value_id = var_counter.use_c();
                    result.append("    ");
                    push_tmp(&mut result, value_id);
                    result.append(" = load ptr, ptr ");
                    push_tmp(&mut result, addr_id);
                    result.append("\n");
                    args_ir.append("ptr ");
                    push_tmp(&mut args_ir, value_id);
                    proof {
                        assert(result@ =~= call_args(am, vars, c0, i + 1).0);
                        assert(args_ir@ =~= call_args(am, vars, c0, i + 1).1);
                    }
                } else {
                    // A variable passed by value: the callee gets its own copy.
                    let clone_id = push_copy(&mut result, var_counter, &cell, ty);
                    let value_id = push_load(&mut result, var_counter, clone_id, ty);
                    args_ir.append(type_value_to_llvm_ir(ty));
                    args_ir.append(" ");
                    push_tmp(&mut args_ir, value_id);
                    proof {
                        assert(result@ =~= call_args(am, vars, c0, i + 1).0);
                        assert(args_ir@ =~= call_args(am, vars, c0, i + 1).1);
                    }
                }
            }
        } else {
            let (arg_ir, arg_value, _) = expr_to_llvm_ir(arg, var_counter);
            result.append(arg_ir.as_str());
            args_ir.append(type_value_to_llvm_ir(param_ty));
            args_ir.append(" ");
            match arg_value {
                Some(v) => args_ir.append(v.as_str()),
                None => args_ir.append("undef"),
            }
            proof {
                assert(result@ =~= call_args(am, vars, c0, i + 1).0);
                assert(args_ir@ =~= call_args(am, vars, c0, i + 1).1);
            }
        }
        i = i + 1;
    }
    let ret_ir = type_value_to_llvm_ir(ret_ty);
    let call_id = var_counter.use_c();
    result.append("    ");
    push_tmp(&mut result, call_id);
    result.append(" = call ");
    result.append(ret_ir);
    result.append(" @");
    result.append(func_name.as_str());
    result.append("(");
    result.append(args_ir.as_str());
    result.append(")\n");
    proof {
        let a = call_args(am, vars, c0, args@.len() as int);
        assert(result@ =~= a.0 + "    "@ + tmp(a.2) + " = call "@ + llvm_ty(ret_ty@) + " @"@
            + func_name@ + "("@ + a.1 + ")\n"@);
    }
    (result, tmp_name(call_id))
}

/// An operand on the evaluation stack: the index of a literal of the stream not yet
/// lowered, or a computed value with its type.
enum Operand {
    Pending(usize),
    Value(String, TypeValue),
}

spec fn opnd_of(o: Operand) -> Opnd {
    match o {
        Operand::Pending(j) => Opnd::Pending(j as int),
        Operand::Value(v, t) => Opnd::Value(v@, t@),
    }
}

spec fn stack_of(s: Seq<Operand>) -> Seq<Opnd> {
    s.map_values(|o: Operand| opnd_of(o))
}

/// Lowers an operand of the stream, appending its instructions to `result`.
fn operand_value(
    expr: &Vec<Expression>,
    operand: Operand,
    var_counter: &mut VarCounter,
    result: &mut String,
) -> (r: (String, TypeValue))
    ensures
        ({
            let m = materialize(stream(expr@), old(var_counter).var_mapping@, opnd_of(operand), old(var_counter).count);
            &&& final(result)@ == old(result)@ + m.0
            &&& r.0@ == m.1
            &&& final(var_counter).count == m.2
            &&& r.1@ == m.3
        }),
        final(var_counter).var_mapping == old(var_counter).var_mapping,
    decreases expr, 0int,
{
    proof {
        lemma_stream(expr@);
    }
    match operand {
        Operand::Pending(j) => {
            if j < expr.len() {
                match &expr[j] {
                    Expression::Literal(lit) => {
                        proof {
                            vstd::std_specs::vec::axiom_vec_index_decreases(*expr, j as int);
                            assert(decreases_to!(*expr => expr@));
                            assert(decreases_to!(expr@ => expr@[j as int]));
                            assert(decreases_to!(expr@[j as int] => expr@[j as int]->Literal_0));
                        }
                        let (pre, value) = literal_to_llvm_ir(lit, var_counter);
                        result.append(pre.as_str());
                        (value, lit._type())
                    },
                    _ => (String::new(), TypeValue::Void),
                }
            } else {
                (String::new(), TypeValue::Void)
            }
        },
        Operand::Value(v, t) => {
            assert(result@ =~= old(result)@ + Seq::<char>::empty());
            (v, t)
        },
    }
}

/// The instruction name of an operator.
pub open spec fn op_text(e: crate::mdir::Ex) -> Seq<char> {
    match e {
        crate::mdir::Ex::Add => "add"@,
        crate::mdir::Ex::Min => "sub"@,
        crate::mdir::Ex::Mul => "mul"@,
        crate::mdir::Ex::Div => "sdiv"@,
        _ => "pow"@,
    }
}

fn op_name(e: &Expression) -> (r: &'static str)
    ensures
        r@ == op_text(crate::mdir::ex_of(*e)),
{
    match e {
        Expression::Add => "add",
        Expression::Min => "sub",
        Expression::Mul => "mul",
        Expression::Div => "sdiv",
        _ => "pow",
    }
}

/// Evaluates a postfix stream on a stack: each operator takes the two operands below it
/// and leaves its result, computed into a fresh temporary. Returns the instructions, the
/// operand text of the result (none for an empty stream), and the backend type of the
/// result.
pub fn expr_to_llvm_ir(expr: &Vec<Expression>, var_counter: &mut VarCounter) -> (r: (
    String,
    Option<String>,
    String,
))
    ensures
        ({
            let x = stream_ir(stream(expr@), old(var_counter).var_mapping@, old(var_counter).count);
            &&& r.0@ == x.0
            &&& match r.1 {
                Some(v) => x.1 == Some(v@),
                None => x.1 is None,
            }
            &&& r.2@ == x.2
            &&& final(var_counter).count == x.3
        }),
        final(var_counter).var_mapping == old(var_counter).var_mapping,
    decreases expr, 1int,
{
    let ghost s = stream(expr@);
    let ghost vars = var_counter.var_mapping@;
    let ghost c0 = var_counter.count;
    proof {
        lemma_stream(expr@);
    }
    let mut result = String::new();
    let mut stack: Vec<Operand> = Vec::new();
    let mut i: usize = 0;
    if expr.len() == 0 {
        let mut ty = String::new();
        ty.append("void");
        return (result, None, ty);
    }
    if expr.len() == 1 {
        if let Expression::Literal(Literal::Int(t, text)) = &expr[0] {
            let mut ty = String::new();
            ty.append(type_value_to_llvm_ir(t));
            return (String::new(), Some(text.clone()), ty);
        }
    }
    proof {
        assert(stack_of(stack@) =~= Seq::<Opnd>::empty());
    }
    while i < expr.len()
        invariant
            i <= expr@.len(),
            s == stream(expr@),
            s.len() == expr@.len(),
            forall|k: int| 0 <= k < expr@.len() ==> #[trigger] s[k] == crate::mdir::ex_of(expr@[k]),
            var_counter.var_mapping == old(var_counter).var_mapping,
            vars == old(var_counter).var_mapping@,
            (result@, var_counter.count, stack_of(stack@)) == run(s, vars, c0, i as int),
        decreases expr.len() - i,
    {
        let ghost p = run(s, vars, c0, i as int);
        match &expr[i] {
            Expression::Literal(_) => {
                stack.push(Operand::Pending(i));
                proof {
                    assert(stack_of(stack@) =~= p.2.push(Opnd::Pending(i as int)));
                }
            },
            Expression::LParen | Expression::RParen => {},
            op => {
                if stack.len() >= 2 {
                    let ghost st = stack@;
                    let rhs = match stack.pop() {
                        Some(x) => x,
                        None => Operand::Value(String::new(), TypeValue::Void),
                    };
                    let lhs = match stack.pop() {
                        Some(x) => x,
                        None => Operand::Value(String::new(), TypeValue::Void),
                    };
                    proof {
                        assert(opnd_of(rhs) == p.2.last());
                        assert(opnd_of(lhs) == p.2[p.2.len() - 2]);
                        assert(stack_of(stack@) =~= p.2.drop_last().drop_last());
                    }
                    let (lv, lt) = operand_value(expr, lhs, var_counter, &mut result);
                    let (rv, _) = operand_value(expr, rhs, var_counter, &mut result);
                    let id = var_counter.use_c();
                    result.append("    ");
                    push_tmp(&mut result, id);
                    result.append(" = ");
                    result.append(op_name(op));
                    result.append(" ");
                    result.append(type_value_to_llvm_ir(&lt));
                    result.append(" ");
                    result.append(lv.as_str());
                    result.append(", ");
                    result.append(rv.as_str());
                    result.append("\n");
                    let ghost before_push = stack_of(stack@);
                    stack.push(Operand::Value(tmp_name(id), lt));
                    proof {
                        let l = materialize(s, vars, p.2[p.2.len() - 2], p.1);
                        let r = materialize(s, vars, p.2.last(), l.2);
                        assert(result@ =~= p.0 + l.0 + r.0 + "    "@ + tmp(r.2) + " = "@ + op_text(
                            s[i as int],
                        ) + " "@ + llvm_ty(l.3) + " "@ + l.1 + ", "@ + r.1 + "\n"@);
                        assert(stack_of(stack@) =~= before_push.push(Opnd::Value(tmp(r.2), l.3)));
                    }
                }
            },
        }
        i = i + 1;
    }
    let ghost fin = run(s, vars, c0, s.len() as int);
    match stack.pop() {
        Some(top) => {
            proof {
                assert(opnd_of(top) == fin.2.last());
            }
            let (v, t) = operand_value(expr, top, var_counter, &mut result);
            let mut ty = String::new();
            ty.append(type_value_to_llvm_ir(&t));
            (result, Some(v), ty)
        },
        None => {
            let mut ty = String::new();
            ty.append("void");
            (result, None, ty)
        },
    }
}

/// The variable table after `name` is recorded in cell `id`.
pub open spec fn insert_var(vars: Seq<(String, u64)>, name: String, id: u64) -> Seq<(String, u64)> {
    match find_key(vars, name@) {
        Some(i) => vars.update(i, (name, id)),
        None => vars.push((name, id)),
    }
}

/// The storage of a variable: a slot `%v` that holds a pointer to a cell `%c` from the
/// collector's allocator.
pub open spec fn var_head_text(v: u64, c: u64) -> Seq<char> {
    "    ; var\n"@ + "    "@ + tmp(v) + " = alloca ptr\n"@ + "    "@ + tmp(c)
        + " = call ptr @GC_malloc(i64 8)\n"@ + "    store ptr "@ + tmp(c) + ", ptr "@ + tmp(v)
        + "\n"@
}

/// Stores a variable's value in its cell `%c`.
pub open spec fn var_store_text(t: Ty, val: Seq<char>, c: u64) -> Seq<char> {
    "    store "@ + llvm_ty(t) + " "@ + val + ", ptr "@ + tmp(c) + "\n"@
}

fn var_head(v: u64, c: u64) -> (r: String)
    ensures
        r@ == var_head_text(v, c),
{
    let mut text = String::new();
    text.append("    ; var\n");
    text.append("    ");
    push_tmp(&mut text, v);
    text.append(" = alloca ptr\n");
    text.append("    ");
    push_tmp(&mut text, c);
    text.append(" = call ptr @GC_malloc(i64 8)\n");
    text.append("    store ptr ");
    push_tmp(&mut text, c);
    text.append(", ptr ");
    push_tmp(&mut text, v);
    text.append("\n");
    proof {
        assert(text@ =~= var_head_text(v, c));
    }
    text
}

fn var_store(t: &TypeValue, val: &String, c: u64) -> (r: String)
    ensures
        r@ == var_store_text(t@, val@, c),
{
    let mut tail = String::new();
    tail.append("    store ");
    tail.append(type_value_to_llvm_ir(t));
    tail.append(" ");
    tail.append(val.as_str());
    tail.append(", ptr ");
    push_tmp(&mut tail, c);
    tail.append("\n");
    proof {
        assert(tail@ =~= var_store_text(t@, val@, c));
    }
    tail
}

/// The body text, counter and variable table after one more statement; `last` tells
/// whether it is the last statement of the body.
#[verifier::opaque]
pub open spec fn block_step(
    p: (Seq<char>, u64, Seq<(String, u64)>),
    st: Statement,
    last: bool,
    ret: Ty,
) -> (Seq<char>, u64, Seq<(String, u64)>) {
    match st {
        Statement::Expr(e) => {
            let x = stream_ir(stream(e@), p.2, p.1);
            if last && ret != Ty::Void {
                match x.1 {
                    Some(v) => (p.0 + x.0 + "    ret "@ + llvm_ty(ret) + " "@ + v + "\n"@, x.3, p.2),
                    None => (p.0 + x.0 + "    ret void\n"@, x.3, p.2),
                }
            } else {
                (p.0 + x.0, x.3, p.2)
            }
        },
        Statement::Var(v) => {
            let x = stream_ir(stream(v.rhs@), p.2, p.1);
            let var_id = x.3;
            let cell = nx(var_id);
            (
                p.0 + var_head_text(var_id, cell) + x.0 + match x.1 {
                    Some(val) => var_store_text(v.ty@, val, cell),
                    None => Seq::empty(),
                },
                nx(cell),
                insert_var(p.2, v.lhs, var_id),
            )
        },
    }
}

/// The body text after the first `n` statements, the counter, and the variable table.
pub open spec fn block_run(stmts: Seq<Statement>, ret: Ty, n: int) -> (Seq<char>, u64, Seq<(String, u64)>)
    decreases n,
{
    if n <= 0 || n > stmts.len() {
        ("entry:\n"@, 0, Seq::empty())
    } else {
        block_step(block_run(stmts, ret, n - 1), stmts[n - 1], n - 1 == stmts.len() - 1, ret)
    }
}

fn lower_expr_statement(
    result: &mut String,
    var_counter: &mut VarCounter,
    stmt: &Statement,
    last: bool,
    return_type: &TypeValue,
)
    requires
        stmt is Expr,
    ensures
        (final(result)@, final(var_counter).count, final(var_counter).var_mapping@) == block_step(
            (old(result)@, old(var_counter).count, old(var_counter).var_mapping@),
            *stmt,
            last,
            return_type@,
        ),
{
    reveal(block_step);
    let ghost p = (result@, var_counter.count, var_counter.var_mapping@);
    let expr = match stmt {
        Statement::Expr(e) => e,
        Statement::Var(_) => {
            return;
        },
    };
    let is_void = match return_type {
        TypeValue::Void => true,
        _ => false,
    };
    let (expr_ir, name, _) = expr_to_llvm_ir(expr, var_counter);
    if last && !is_void {
        match name {
            Some(v) => {
                result.append(expr_ir.as_str());
                result.append("    ret ");
                result.append(type_value_to_llvm_ir(return_type));
                result.append(" ");
                result.append(v.as_str());
                result.append("\n");
                proof {
                    let x = stream_ir(stream(expr@), p.2, p.1);
                    assert(final(result)@ =~= p.0 + x.0 + "    ret "@ + llvm_ty(return_type@) + " "@
                        + v@ + "\n"@);
                }
            },
            None => {
                result.append(expr_ir.as_str());
                result.append("    ret void\n");
                proof {
                    let x = stream_ir(stream(expr@), p.2, p.1);
                    assert(final(result)@ =~= p.0 + x.0 + "    ret void\n"@);
                }
            },
        }
    } else {
        result.append(expr_ir.as_str());
    }
}

fn lower_var_statement(
    result: &mut String,
    var_counter: &mut VarCounter,
    stmt: &Statement,
    last: bool,
    return_type: &TypeValue,
)
    requires
        stmt is Var,
    ensures
        (final(result)@, final(var_counter).count, final(var_counter).var_mapping@) == block_step(
            (old(result)@, old(var_counter).count, old(var_counter).var_mapping@),
            *stmt,
            last,
            return_type@,
        ),
{
    reveal(block_step);
    let ghost p = (result@, var_counter.count, var_counter.var_mapping@);
    let var = match stmt {
        Statement::Var(v) => v,
        Statement::Expr(_) => {
            return;
        },
    };
    let (expr_ir, name, _) = expr_to_llvm_ir(&var.rhs, var_counter);
    let ghost x = stream_ir(stream(var.rhs@), p.2, p.1);
    let var_id = var_counter.use_c();
    var_counter.insert(var.lhs.clone(), var_id);
    let cell_id = var_counter.use_c();
    let head = var_head(var_id, cell_id);
    let tail = match name {
        Some(v) => var_store(&var.ty, &v, cell_id),
        None => String::new(),
    };
    result.append(head.as_str());
    result.append(expr_ir.as_str());
    result.append(tail.as_str());
    proof {
        assert(final(result)@ =~= p.0 + head@ + x.0 + tail@);
    }
}

fn lower_statement(
    result: &mut String,
    var_counter: &mut VarCounter,
    stmt: &Statement,
    last: bool,
    return_type: &TypeValue,
)
    ensures
        (final(result)@, final(var_counter).count, final(var_counter).var_mapping@) == block_step(
            (old(result)@, old(var_counter).count, old(var_counter).var_mapping@),
            *stmt,
            last,
            return_type@,
        ),
{
    match stmt {
        Statement::Expr(_) => lower_expr_statement(result, var_counter, stmt, last, return_type),
        Statement::Var(_) => lower_var_statement(result, var_counter, stmt, last, return_type),
    }
}

/// The body of a function: its statements in order, the value of the last expression
/// statement returned, and a `ret void` at the end of a function returning `Void`.
pub open spec fn block_text(stmts: Seq<Statement>, ret: Ty) -> Seq<char> {
    block_run(stmts, ret, stmts.len() as int).0 + if ret == Ty::Void || stmts.len() == 0 {
        void_return_text()
    } else {
        Seq::empty()
    }
}

/// The tail of the body of a function that returns nothing.
pub open spec fn void_return_text() -> Seq<char> {
    "    ; Automatic void return\n    ret void\n"@
}

/// Lowers the body of a function. Statements are lowered in order; the value of the
/// last expression statement is returned, and a function returning `Void` always ends
/// with a `ret void`.
pub fn function_block_to_llvm_ir(block: &Vec<Statement>, return_type: &TypeValue) -> (r: String)
    ensures
        r@ == block_text(block@, return_type@),
{
    let mut result = String::new();
    result.append("entry:\n");
    let mut var_counter = VarCounter::new(0);
    let is_void = match return_type {
        TypeValue::Void => true,
        _ => false,
    } || block.len() == 0;
    let n = block.len();
    let mut i: usize = 0;
    proof {
        assert(var_counter.var_mapping@ =~= Seq::<(String, u64)>::empty());
    }
    while i < n
        invariant
            n == block@.len(),
            i <= n,
            (result@, var_counter.count, var_counter.var_mapping@) == block_run(
                block@,
                return_type@,
                i as int,
            ),
        decreases n - i,
    {
        lower_statement(&mut result, &mut var_counter, &block[i], i == n - 1, return_type);
        i = i + 1;
    }
    if is_void {
        result.append("    ; Automatic void return\n    ret void\n");
    }
    proof {
        assert(result@ =~= block_text(block@, return_type@));
    }
    result
}

/// The first line of the definition of `f`.
pub open spec fn define_head(name: Seq<char>, ps: Seq<(Seq<char>, Ty)>, ret: Ty) -> Seq<char> {
    "define "@ + llvm_ty(ret) + " @"@ + name + "("@ + params_text(ps, ps.len() as int) + ") {\n"@
}

/// The definition of a function: its head, its body, and a closing brace.
pub open spec fn function_text(f: Function) -> Seq<char> {
    define_head(f.name@, named_view(f.params@), f.return_type@) + block_text(
        f.block@,
        f.return_type@,
    ) + "}\n"@
}

/// The definition of a checked function.
pub fn function_to_llvm_ir(function: &Function) -> (r: String)
    ensures
        r@ == function_text(*function),
{
    let mut s = String::new();
    s.append("define ");
    s.append(type_value_to_llvm_ir(&function.return_type));
    s.append(" @");
    s.append(function.name.as_str());
    s.append("(");
    proof {
        lemma_named_tys_of(function.params@, function.params@.len() as int);
    }
    s.append(function_params_to_llvm_ir(&function.params).as_str());
    s.append(") {\n");
    s.append(function_block_to_llvm_ir(&function.block, &function.return_type).as_str());
    s.append("}\n");
    proof {
        assert(s@ =~= function_text(*function));
    }
    s
}

/// The lines every listing starts with: the target, and the allocator and copy entry
/// points it relies on.
pub open spec fn header_text() -> Seq<char> {
    "target triple = \"x86_64-pc-linux-gnu\"\n"@ + "declare ptr @GC_malloc(i64)\n"@
        + "declare void @GC_init()\n"@ + "declare void @llvm.memcpy.p0.p0.i64(ptr, ptr, i64, i1)\n"@
}

/// The declarations of the first `n` externs or imported functions.
pub open spec fn decls_text(ds: Seq<(Seq<char>, Seq<(Seq<char>, Ty)>, Ty)>, n: int) -> Seq<char>
    decreases n,
{
    if n <= 0 || n > ds.len() {
        Seq::empty()
    } else {
        decls_text(ds, n - 1) + declare_text(ds[n - 1].0, ds[n - 1].1, ds[n - 1].2)
    }
}

/// The module-scope part of a listing: the header, one `declare` per extern, then one
/// per imported function.
pub open spec fn prelude_text(m: crate::mdir::Mir) -> Seq<char> {
    header_text() + decls_text(m.externs, m.externs.len() as int) + decls_text(
        m.imported,
        m.imported.len() as int,
    )
}

/// The definitions of the first `n` functions, in order.
pub open spec fn funs_text(fs: Seq<Function>, n: int) -> Seq<char>
    decreases n,
{
    if n <= 0 || n > fs.len() {
        Seq::empty()
    } else {
        funs_text(fs, n - 1) + function_text(fs[n - 1])
    }
}

/// The listing of a checked module: the module-scope declarations, then one definition
/// per function, in order.
pub open spec fn listing(m: MiddleIR) -> Seq<char> {
    prelude_text(m@) + funs_text(m.functions@, m.functions@.len() as int)
}

/// Lowers the checked form of a module to a textual instruction listing.
pub struct CodeGen {
    pub name: String,
    pub mdir: MiddleIR,
    pub llvm_ir: String,
}

impl CodeGen {
    pub fn new(mdir: MiddleIR, name: String) -> (r: CodeGen)
        ensures
            r.name == name,
            r.mdir == mdir,
            r.llvm_ir@.len() == 0,
    {
        CodeGen { name, mdir, llvm_ir: String::new() }
    }

    /// Writes the listing: the header, the declarations, then each function's definition
    /// in order.
    pub fn compile(&mut self)
        ensures
            final(self).mdir == old(self).mdir,
            final(self).name == old(self).name,
            final(self).llvm_ir@ == old(self).llvm_ir@ + listing(old(self).mdir),
    {
        self.llvm_ir.append("target triple = \"x86_64-pc-linux-gnu\"\n");
        self.llvm_ir.append("declare ptr @GC_malloc(i64)\n");
        self.llvm_ir.append("declare void @GC_init()\n");
        self.llvm_ir.append("declare void @llvm.memcpy.p0.p0.i64(ptr, ptr, i64, i1)\n");
        proof {
            assert(self.llvm_ir@ =~= old(self).llvm_ir@ + header_text());
        }
        let ghost start = self.llvm_ir@;
        let ghost mv = self.mdir@;
        let mut i: usize = 0;
        while i < self.mdir.externs.len()
            invariant
                i <= self.mdir.externs@.len(),
                self.mdir == old(self).mdir,
                self.mdir@ == mv,
                self.name == old(self).name,
                mv == old(self).mdir@,
                mv.externs == self.mdir.externs@.map_values(|f: ExternFunction| crate::mdir::extern_of(f)),
                self.llvm_ir@ == start + decls_text(mv.externs, i as int),
            decreases self.mdir.externs.len() - i,
        {
            let line = extern_to_llvm_ir(&self.mdir.externs[i]);
            self.llvm_ir.append(line.as_str());
            i = i + 1;
            proof {
                assert(self.llvm_ir@ =~= start + decls_text(mv.externs, i as int));
            }
        }
        let ghost mid = self.llvm_ir@;
        let mut j: usize = 0;
        while j < self.mdir.imported_functions.len()
            invariant
                j <= self.mdir.imported_functions@.len(),
                self.mdir == old(self).mdir,
                self.mdir@ == mv,
                self.name == old(self).name,
                mv == old(self).mdir@,
                mv.imported == crate::mdir::sigs_of(self.mdir.imported_functions@),
                self.llvm_ir@ == mid + decls_text(mv.imported, j as int),
            decreases self.mdir.imported_functions.len() - j,
        {
            let line = imported_function_to_llvm_ir(
                &self.mdir.imported_functions[j].0,
                &self.mdir.imported_functions[j].1,
            );
            self.llvm_ir.append(line.as_str());
            j = j + 1;
            proof {
                assert(self.llvm_ir@ =~= mid + decls_text(mv.imported, j as int));
            }
        }
        let ghost pre = self.llvm_ir@;
        proof {
            assert(pre =~= old(self).llvm_ir@ + prelude_text(old(self).mdir@));
        }
        let mut k: usize = 0;
        while k < self.mdir.functions.len()
            invariant
                k <= self.mdir.functions@.len(),
                self.mdir == old(self).mdir,
                self.name == old(self).name,
                self.llvm_ir@ == pre + funs_text(self.mdir.functions@, k as int),
            decreases self.mdir.functions.len() - k,
        {
            let text = function_to_llvm_ir(&self.mdir.functions[k]);
            self.llvm_ir.append(text.as_str());
            k = k + 1;
            proof {
                assert(self.llvm_ir@ =~= pre + funs_text(self.mdir.functions@, k as int));
            }
        }
        proof {
            assert(self.llvm_ir@ =~= old(self).llvm_ir@ + listing(old(self).mdir));
        }
    }

    pub fn llvm_ir(&self) -> (r: &String)
        ensures
            r == &self.llvm_ir,
    {
        &self.llvm_ir
    }
}

/// The listing of a checked module.
pub fn generate(mdir: MiddleIR, name: String) -> (r: String)
    ensures
        r@ == listing(mdir),
{
    let ghost m = mdir;
    let mut codegen = CodeGen { name, mdir, llvm_ir: String::new() };
    codegen.compile();
    proof {
        assert(codegen.llvm_ir@ =~= listing(m));
    }
    codegen.llvm_ir
}

} // verus!
