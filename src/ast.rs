use vstd::prelude::*;

use crate::parser::ParseError;

verus! {

/// A byte span in a source file together with the rows it starts and ends on.
#[derive(Debug, Clone, Copy)]
pub struct Location {
    pub span: (usize, usize),
    pub rows: (usize, usize),
}

impl Location {
    pub fn new(span: (usize, usize), rows: (usize, usize)) -> (r: Location)
        ensures
            r.span == span,
            r.rows == rows,
    {
        Location { span, rows }
    }

    pub fn default() -> (r: Location)
        ensures
            r.span == (0usize, 0usize),
            r.rows == (0usize, 0usize),
    {
        Location { span: (0, 0), rows: (0, 0) }
    }
}

/// A markdown comment attached to the statement that follows it.
#[derive(Debug)]
pub struct DocComment {
    pub md: String,
}

/// A dotted path such as `std.fs.open`, one string per segment.
#[derive(Debug)]
pub struct Name {
    pub name: Vec<String>,
    pub location: Location,
}

/// A compiler-generated single-segment name, possibly without a source location.
pub struct PhantomName {
    pub name: Vec<String>,
    pub location: Option<Location>,
}

/// The segments of `s` separated by `/`, read from left to right.
pub open spec fn path_segments(s: Seq<char>) -> Seq<Seq<char>>
    decreases s.len(),
{
    if s.len() == 0 {
        seq![Seq::<char>::empty()]
    } else {
        let init = path_segments(s.drop_last());
        if s.last() == '/' {
            init.push(Seq::<char>::empty())
        } else {
            init.update(init.len() - 1, init.last().push(s.last()))
        }
    }
}

/// The character views of a vector of strings.
pub open spec fn views(v: Seq<String>) -> Seq<Seq<char>> {
    v.map_values(|s: String| s@)
}

impl Name {
    pub fn new(name: Vec<String>, location: Location) -> (r: Name)
        ensures
            r.name@ == name@,
            r.location == location,
    {
        Name { name, location }
    }

    /// Splits a file path on `/` into the segments of a name.
    pub fn from_path(path: &str) -> (r: Name)
        ensures
            views(r.name@) == path_segments(path@),
            r.location.span == (0usize, 0usize),
            r.location.rows == (0usize, 0usize),
    {
        let n = path.unicode_len();
        let mut segments: Vec<String> = Vec::new();
        let mut start: usize = 0;
        let mut i: usize = 0;
        proof {
            assert(path@.subrange(0, 0) =~= Seq::<char>::empty());
            assert(views(segments@) =~= Seq::<Seq<char>>::empty());
        }
        while i < n
            invariant
                n == path@.len(),
                start <= i <= n,
                views(segments@).push(path@.subrange(start as int, i as int)) == path_segments(
                    path@.subrange(0, i as int),
                ),
            decreases n - i,
        {
            let c = path.get_char(i);
            proof {
                let pre = path@.subrange(0, i as int);
                let next = path@.subrange(0, i + 1);
                assert(next.drop_last() =~= pre);
                assert(next.last() == c);
            }
            if c == '/' {
                let seg = String::from_str(path.substring_char(start, i));
                let ghost prev = segments@;
                segments.push(seg);
                proof {
                    assert(views(segments@) =~= views(prev).push(seg@));
                    assert(path@.subrange((i + 1) as int, (i + 1) as int) =~= Seq::<char>::empty());
                }
                start = i + 1;
            } else {
                proof {
                    assert(path@.subrange(start as int, i + 1) =~= path@.subrange(
                        start as int,
                        i as int,
                    ).push(c));
                }
            }
            i = i + 1;
        }
        let last = String::from_str(path.substring_char(start, n));
        let ghost prev = segments@;
        segments.push(last);
        proof {
            assert(path@.subrange(0, n as int) =~= path@);
            assert(views(segments@) =~= views(prev).push(last@));
        }
        Name { name: segments, location: Location::default() }
    }
}

impl PhantomName {
    pub fn new_single(name: String, location: Option<Location>) -> (r: PhantomName)
        ensures
            r.name@ == seq![name],
            r.location == location,
    {
        let mut names: Vec<String> = Vec::new();
        names.push(name);
        PhantomName { name: names, location }
    }
}

/// The types of the language. `Undefined` marks a type that an earlier error left open.
#[derive(Debug)]
pub enum TypeValue {
    Undefined,
    Void,
    Ptr(Box<TypeValue>),
    Bool,
    String,
    I8,
    I16,
    I32,
    I64,
    I128,
    U8,
    U16,
    U32,
    U64,
    U128,
    F32,
    F64,
    Array(Box<TypeValue>),
    Generic(Box<TypeValue>),
    Func(Vec<TypeValue>, Box<TypeValue>, bool),
    ExFunc(Vec<(String, TypeValue)>, Box<TypeValue>),
    Custom(String),
    EnumVariant(String),
}

/// The mathematical value of a `TypeValue`: the same tree, with sequences for vectors
/// and character sequences for strings.
pub enum Ty {
    Undefined,
    Void,
    Ptr(Box<Ty>),
    Bool,
    String,
    I8,
    I16,
    I32,
    I64,
    I128,
    U8,
    U16,
    U32,
    U64,
    U128,
    F32,
    F64,
    Array(Box<Ty>),
    Generic(Box<Ty>),
    Func(Seq<Ty>, Box<Ty>, bool),
    ExFunc(Seq<(Seq<char>, Ty)>, Box<Ty>),
    Custom(Seq<char>),
    EnumVariant(Seq<char>),
}

pub open spec fn ty_of(t: TypeValue) -> Ty
    decreases t, 0int,
{
    match t {
        TypeValue::Undefined => Ty::Undefined,
        TypeValue::Void => Ty::Void,
        TypeValue::Ptr(b) => Ty::Ptr(Box::new(ty_of(*b))),
        TypeValue::Bool => Ty::Bool,
        TypeValue::String => Ty::String,
        TypeValue::I8 => Ty::I8,
        TypeValue::I16 => Ty::I16,
        TypeValue::I32 => Ty::I32,
        TypeValue::I64 => Ty::I64,
        TypeValue::I128 => Ty::I128,
        TypeValue::U8 => Ty::U8,
        TypeValue::U16 => Ty::U16,
        TypeValue::U32 => Ty::U32,
        TypeValue::U64 => Ty::U64,
        TypeValue::U128 => Ty::U128,
        TypeValue::F32 => Ty::F32,
        TypeValue::F64 => Ty::F64,
        TypeValue::Array(b) => Ty::Array(Box::new(ty_of(*b))),
        TypeValue::Generic(b) => Ty::Generic(Box::new(ty_of(*b))),
        TypeValue::Func(p, r, e) => Ty::Func(tys_of(p@, p@.len() as int), Box::new(ty_of(*r)), e),
        TypeValue::ExFunc(p, r) => Ty::ExFunc(
            named_tys_of(p@, p@.len() as int),
            Box::new(ty_of(*r)),
        ),
        TypeValue::Custom(s) => Ty::Custom(s@),
        TypeValue::EnumVariant(s) => Ty::EnumVariant(s@),
    }
}

/// The values of the first `n` types of `s`.
pub open spec fn tys_of(s: Seq<TypeValue>, n: int) -> Seq<Ty>
    decreases s, n,
{
    if n <= 0 || n > s.len() {
        Seq::empty()
    } else {
        tys_of(s, n - 1).push(ty_of(s[n - 1]))
    }
}

/// The values of the first `n` named types of `s`.
pub open spec fn named_tys_of(s: Seq<(String, TypeValue)>, n: int) -> Seq<(Seq<char>, Ty)>
    decreases s, n,
{
    if n <= 0 || n > s.len() {
        Seq::empty()
    } else {
        named_tys_of(s, n - 1).push((s[n - 1].0@, ty_of(s[n - 1].1)))
    }
}

pub proof fn lemma_tys_of(s: Seq<TypeValue>, n: int)
    requires
        0 <= n <= s.len(),
    ensures
        tys_of(s, n).len() == n,
        forall|i: int| 0 <= i < n ==> #[trigger] tys_of(s, n)[i] == ty_of(s[i]),
    decreases n,
{
    if n > 0 {
        lemma_tys_of(s, n - 1);
    }
}

pub proof fn lemma_named_tys_of(s: Seq<(String, TypeValue)>, n: int)
    requires
        0 <= n <= s.len(),
    ensures
        named_tys_of(s, n).len() == n,
        forall|i: int|
            0 <= i < n ==> #[trigger] named_tys_of(s, n)[i] == (s[i].0@, ty_of(s[i].1)),
    decreases n,
{
    if n > 0 {
        lemma_named_tys_of(s, n - 1);
    }
}

impl View for TypeValue {
    type V = Ty;

    open spec fn view(&self) -> Ty {
        ty_of(*self)
    }
}

/// The values of a sequence of named types.
pub open spec fn named_view(s: Seq<(String, TypeValue)>) -> Seq<(Seq<char>, Ty)> {
    named_tys_of(s, s.len() as int)
}

/// Copies a list of named types.
pub fn copy_named(v: &Vec<(String, TypeValue)>) -> (r: Vec<(String, TypeValue)>)
    ensures
        named_view(r@) == named_view(v@),
{
    let mut out: Vec<(String, TypeValue)> = Vec::new();
    let mut i: usize = 0;
    while i < v.len()
        invariant
            i <= v.len(),
            out@.len() == i,
            forall|j: int|
                0 <= j < i ==> (#[trigger] out@[j]).0@ == v@[j].0@ && ty_of(out@[j].1) == ty_of(
                    v@[j].1,
                ),
        decreases v.len() - i,
    {
        let item = (v[i].0.clone(), v[i].1.copy());
        out.push(item);
        i = i + 1;
    }
    proof {
        lemma_named_tys_of(v@, v@.len() as int);
        lemma_named_tys_of(out@, out@.len() as int);
        assert(named_view(out@) =~= named_view(v@));
    }
    out
}

impl TypeValue {
    /// A copy of the type with the same value.
    pub fn copy(&self) -> (r: TypeValue)
        ensures
            r@ == self@,
        decreases self,
    {
        match self {
            TypeValue::Undefined => TypeValue::Undefined,
            TypeValue::Void => TypeValue::Void,
            TypeValue::Ptr(b) => TypeValue::Ptr(Box::new(b.copy())),
            TypeValue::Bool => TypeValue::Bool,
            TypeValue::String => TypeValue::String,
            TypeValue::I8 => TypeValue::I8,
            TypeValue::I16 => TypeValue::I16,
            TypeValue::I32 => TypeValue::I32,
            TypeValue::I64 => TypeValue::I64,
            TypeValue::I128 => TypeValue::I128,
            TypeValue::U8 => TypeValue::U8,
            TypeValue::U16 => TypeValue::U16,
            TypeValue::U32 => TypeValue::U32,
            TypeValue::U64 => TypeValue::U64,
            TypeValue::U128 => TypeValue::U128,
            TypeValue::F32 => TypeValue::F32,
            TypeValue::F64 => TypeValue::F64,
            TypeValue::Array(b) => TypeValue::Array(Box::new(b.copy())),
            TypeValue::Generic(b) => TypeValue::Generic(Box::new(b.copy())),
            TypeValue::Func(p, r, e) => {
                let mut out: Vec<TypeValue> = Vec::new();
                let mut i: usize = 0;
                proof {
                    lemma_tys_of(p@, p@.len() as int);
                }
                while i < p.len()
                    invariant
                        *self == TypeValue::Func(*p, *r, *e),
                        i <= p.len(),
                        out@.len() == i,
                        forall|j: int| 0 <= j < i ==> ty_of(#[trigger] out@[j]) == ty_of(p@[j]),
                    decreases p.len() - i,
                {
                    proof {
                        vstd::std_specs::vec::axiom_vec_index_decreases(*p, i as int);
                        assert(decreases_to!(*self => self->Func_0));
                        assert(decreases_to!(*p => p@));
                        assert(decreases_to!(p@ => p@[i as int]));
                    }
                    let c = p[i].copy();
                    out.push(c);
                    i = i + 1;
                }
                proof {
                    lemma_tys_of(out@, out@.len() as int);
                    assert(tys_of(out@, out@.len() as int) =~= tys_of(p@, p@.len() as int));
                }
                TypeValue::Func(out, Box::new(r.copy()), *e)
            },
            TypeValue::ExFunc(p, r) => {
                let mut out: Vec<(String, TypeValue)> = Vec::new();
                let mut i: usize = 0;
                proof {
                    lemma_named_tys_of(p@, p@.len() as int);
                }
                while i < p.len()
                    invariant
                        *self == TypeValue::ExFunc(*p, *r),
                        i <= p.len(),
                        out@.len() == i,
                        forall|j: int|
                            0 <= j < i ==> (#[trigger] out@[j]).0@ == p@[j].0@ && ty_of(out@[j].1)
                                == ty_of(p@[j].1),
                    decreases p.len() - i,
                {
                    proof {
                        vstd::std_specs::vec::axiom_vec_index_decreases(*p, i as int);
                        assert(decreases_to!(*self => self->ExFunc_0));
                        assert(decreases_to!(*p => p@));
                        assert(decreases_to!(p@ => p@[i as int]));
                    }
                    let c = (p[i].0.clone(), p[i].1.copy());
                    out.push(c);
                    i = i + 1;
                }
                proof {
                    lemma_named_tys_of(out@, out@.len() as int);
                    assert(named_tys_of(out@, out@.len() as int) =~= named_tys_of(
                        p@,
                        p@.len() as int,
                    ));
                }
                TypeValue::ExFunc(out, Box::new(r.copy()))
            },
            TypeValue::Custom(s) => TypeValue::Custom(s.clone()),
            TypeValue::EnumVariant(s) => TypeValue::EnumVariant(s.clone()),
        }
    }

    /// Compares two types structurally.
    pub fn same(&self, other: &TypeValue) -> (r: bool)
        ensures
            r == (self@ == other@),
        decreases self,
    {
        match (self, other) {
            (TypeValue::Undefined, TypeValue::Undefined) => true,
            (TypeValue::Void, TypeValue::Void) => true,
            (TypeValue::Ptr(x), TypeValue::Ptr(y)) => x.same(y),
            (TypeValue::Bool, TypeValue::Bool) => true,
            (TypeValue::String, TypeValue::String) => true,
            (TypeValue::I8, TypeValue::I8) => true,
            (TypeValue::I16, TypeValue::I16) => true,
            (TypeValue::I32, TypeValue::I32) => true,
            (TypeValue::I64, TypeValue::I64) => true,
            (TypeValue::I128, TypeValue::I128) => true,
            (TypeValue::U8, TypeValue::U8) => true,
            (TypeValue::U16, TypeValue::U16) => true,
            (TypeValue::U32, TypeValue::U32) => true,
            (TypeValue::U64, TypeValue::U64) => true,
            (TypeValue::U128, TypeValue::U128) => true,
            (TypeValue::F32, TypeValue::F32) => true,
            (TypeValue::F64, TypeValue::F64) => true,
            (TypeValue::Array(x), TypeValue::Array(y)) => x.same(y),
            (TypeValue::Generic(x), TypeValue::Generic(y)) => x.same(y),
            (TypeValue::Func(p, r, e), TypeValue::Func(q, s, f)) => {
                proof {
                    lemma_tys_of(p@, p@.len() as int);
                    lemma_tys_of(q@, q@.len() as int);
                }
                if p.len() != q.len() || *e != *f {
                    return false;
                }
                let mut i: usize = 0;
                while i < p.len()
                    invariant
                        *self == TypeValue::Func(*p, *r, *e),
                        *other == TypeValue::Func(*q, *s, *f),
                        p.len() == q.len(),
                        i <= p.len(),
                        forall|j: int| 0 <= j < i ==> ty_of(#[trigger] p@[j]) == ty_of(q@[j]),
                    decreases p.len() - i,
                {
                    proof {
                        vstd::std_specs::vec::axiom_vec_index_decreases(*p, i as int);
                        assert(decreases_to!(*self => self->Func_0));
                        assert(decreases_to!(*p => p@));
                        assert(decreases_to!(p@ => p@[i as int]));
                    }
                    if !p[i].same(&q[i]) {
                        proof {
                            lemma_tys_of(p@, p@.len() as int);
                            lemma_tys_of(q@, q@.len() as int);
                        }
                        assert(tys_of(p@, p@.len() as int)[i as int] != tys_of(
                            q@,
                            q@.len() as int,
                        )[i as int]);
                        return false;
                    }
                    i = i + 1;
                }
                proof {
                    lemma_tys_of(p@, p@.len() as int);
                    lemma_tys_of(q@, q@.len() as int);
                }
                assert(tys_of(p@, p@.len() as int) =~= tys_of(q@, q@.len() as int));
                r.same(s)
            },
            (TypeValue::ExFunc(p, r), TypeValue::ExFunc(q, s)) => {
                proof {
                    lemma_named_tys_of(p@, p@.len() as int);
                    lemma_named_tys_of(q@, q@.len() as int);
                }
                if p.len() != q.len() {
                    return false;
                }
                let mut i: usize = 0;
                while i < p.len()
                    invariant
                        *self == TypeValue::ExFunc(*p, *r),
                        *other == TypeValue::ExFunc(*q, *s),
                        p.len() == q.len(),
                        i <= p.len(),
                        forall|j: int|
                            0 <= j < i ==> (#[trigger] p@[j]).0@ == q@[j].0@ && ty_of(p@[j].1)
                                == ty_of(q@[j].1),
                    decreases p.len() - i,
                {
                    proof {
                        vstd::std_specs::vec::axiom_vec_index_decreases(*p, i as int);
                        assert(decreases_to!(*self => self->ExFunc_0));
                        assert(decreases_to!(*p => p@));
                        assert(decreases_to!(p@ => p@[i as int]));
                    }
                    if p[i].0 != q[i].0 || !p[i].1.same(&q[i].1) {
                        proof {
                            lemma_named_tys_of(p@, p@.len() as int);
                            lemma_named_tys_of(q@, q@.len() as int);
                        }
                        assert(named_tys_of(p@, p@.len() as int)[i as int] != named_tys_of(
                            q@,
                            q@.len() as int,
                        )[i as int]);
                        return false;
                    }
                    i = i + 1;
                }
                proof {
                    lemma_named_tys_of(p@, p@.len() as int);
                    lemma_named_tys_of(q@, q@.len() as int);
                }
                assert(named_tys_of(p@, p@.len() as int) =~= named_tys_of(q@, q@.len() as int));
                r.same(s)
            },
            (TypeValue::Custom(x), TypeValue::Custom(y)) => *x == *y,
            (TypeValue::EnumVariant(x), TypeValue::EnumVariant(y)) => *x == *y,
            _ => false,
        }
    }
}

impl PartialEq for TypeValue {
    fn eq(&self, other: &TypeValue) -> (r: bool) {
        self.same(other)
    }
}

impl vstd::std_specs::cmp::PartialEqSpecImpl for TypeValue {
    open spec fn obeys_eq_spec() -> bool {
        true
    }

    open spec fn eq_spec(&self, other: &TypeValue) -> bool {
        self@ == other@
    }
}

/// A type written in the source, with where it was written.
#[derive(Debug)]
pub struct Type {
    pub type_value: TypeValue,
    pub location: Location,
}

impl Type {
    pub fn default() -> (r: Type)
        ensures
            r.type_value@ == Ty::Void,
            r.location.span == (0usize, 0usize),
            r.location.rows == (0usize, 0usize),
    {
        Type { type_value: TypeValue::Void, location: Location::default() }
    }
}

/// A function literal: parameter names and a body.
#[derive(Debug)]
pub struct FuncNode {
    pub name: Name,
    pub args: Vec<String>,
    pub return_type: Type,
    pub block: Vec<Stmt>,
    pub location: Location,
    pub errors: Vec<ParseError>,
    pub doc_comments: Vec<DocComment>,
}

impl FuncNode {
    pub fn default() -> (r: FuncNode)
        ensures
            r.name.name@.len() == 0,
            r.args@.len() == 0,
            r.block@.len() == 0,
            r.errors@.len() == 0,
            r.doc_comments@.len() == 0,
    {
        FuncNode {
            name: Name::new(Vec::new(), Location::default()),
            args: Vec::new(),
            return_type: Type::default(),
            block: Vec::new(),
            location: Location::default(),
            errors: Vec::new(),
            doc_comments: Vec::new(),
        }
    }
}

/// A statement of a block or of a file.
#[derive(Debug)]
pub enum Stmt {
    Expr(Expr, Vec<ParseError>),
    Var(Var),
    Enum(EnumDecl),
    DocComment(DocComment),
}

/// One entry of an import block.
#[derive(Debug)]
pub enum Import {
    ImportSingle(Name),
    ImportGroup(Imports),
}

/// The entries of an import block.
#[derive(Debug)]
pub struct Imports {
    pub imports: Vec<Import>,
}

impl Imports {
    pub fn default() -> (r: Imports)
        ensures
            r.imports@.len() == 0,
    {
        Imports { imports: Vec::new() }
    }
}

/// The left side of a variable statement.
#[derive(Debug)]
pub struct VarLhs {
    pub name: Vec<String>,
    pub location: Location,
}

impl VarLhs {
    pub fn default() -> (r: VarLhs)
        ensures
            r.name@.len() == 0,
            r.location.span == (0usize, 0usize),
            r.location.rows == (0usize, 0usize),
    {
        VarLhs { name: Vec::new(), location: Location::default() }
    }
}

/// An expression tree.
#[derive(Debug)]
pub enum Expr {
    Void,
    String(String, Location),
    Int(i128, Location),
    Uint(u128, Location),
    Neg(Box<Expr>, Location),
    Identifier(Name, Location),
    FuncCall(Name, Vec<Expr>, Location),
    Func(FuncNode),
    Add(Box<Expr>, Box<Expr>, Location),
    Min(Box<Expr>, Box<Expr>, Location),
    Mul(Box<Expr>, Box<Expr>, Location),
    Div(Box<Expr>, Box<Expr>, Location),
    Power(Box<Expr>, Box<Expr>, Location),
    Paren(Box<Expr>, Location),
}

/// Where an expression was written; `Void` has the empty location.
pub open spec fn expr_location(e: Expr) -> Location {
    match e {
        Expr::Void => Location { span: (0, 0), rows: (0, 0) },
        Expr::String(_, l) => l,
        Expr::Int(_, l) => l,
        Expr::Uint(_, l) => l,
        Expr::Neg(_, l) => l,
        Expr::Identifier(_, l) => l,
        Expr::FuncCall(_, _, l) => l,
        Expr::Func(f) => f.location,
        Expr::Add(_, _, l) => l,
        Expr::Min(_, _, l) => l,
        Expr::Mul(_, _, l) => l,
        Expr::Div(_, _, l) => l,
        Expr::Power(_, _, l) => l,
        Expr::Paren(_, l) => l,
    }
}

impl Expr {
    pub fn get_location(&self) -> (r: Location)
        ensures
            r == expr_location(*self),
    {
        match self {
            Expr::Void => Location::default(),
            Expr::String(_, l) => *l,
            Expr::Int(_, l) => *l,
            Expr::Uint(_, l) => *l,
            Expr::Neg(_, l) => *l,
            Expr::Identifier(_, l) => *l,
            Expr::FuncCall(_, _, l) => *l,
            Expr::Func(f) => f.location,
            Expr::Add(_, _, l) => *l,
            Expr::Min(_, _, l) => *l,
            Expr::Mul(_, _, l) => *l,
            Expr::Div(_, _, l) => *l,
            Expr::Power(_, _, l) => *l,
            Expr::Paren(_, l) => *l,
        }
    }

    pub fn is_void(&self) -> (r: bool)
        ensures
            r == (*self is Void),
    {
        match self {
            Expr::Void => true,
            _ => false,
        }
    }
}

/// A variable statement: `x := e`, `x : T` or `x = e`.
#[derive(Debug)]
pub struct Var {
    pub lhs: VarLhs,
    pub _type: Type,
    pub rhs: Expr,
    pub is_decl: bool,
    pub location: Location,
    pub errors: Vec<ParseError>,
    pub doc_comments: Vec<DocComment>,
}

impl Var {
    pub fn default() -> (r: Var)
        ensures
            r.lhs.name@.len() == 0,
            r._type.type_value@ == Ty::Void,
            r.rhs is Void,
            !r.is_decl,
            r.errors@.len() == 0,
            r.doc_comments@.len() == 0,
    {
        Var {
            lhs: VarLhs::default(),
            _type: Type::default(),
            rhs: Expr::Void,
            is_decl: false,
            location: Location::default(),
            errors: Vec::new(),
            doc_comments: Vec::new(),
        }
    }
}

/// A key of a module's import table: one symbol of a file, or a whole module.
#[derive(Debug)]
pub enum ImportKey {
    Symbol(String),
    Module(String),
}

/// The variants of an enum declaration, each with the types it carries.
#[derive(Debug)]
pub struct EnumDecl(pub Vec<(String, Vec<TypeValue>)>);

/// One parsed file. Each table is keyed by name, with each key at most once.
#[derive(Debug)]
pub struct Module {
    pub name: String,
    pub imports: Option<Vec<(ImportKey, Option<String>)>>,
    pub fn_decls: Vec<(String, (Type, Location))>,
    pub externs: Vec<(String, (Vec<(String, TypeValue)>, TypeValue))>,
    pub fn_defns: Vec<(String, (FuncNode, Location))>,
}

/// The index of the first entry of `s` whose key is `k`.
pub open spec fn find_key<X>(s: Seq<(String, X)>, k: Seq<char>) -> Option<int>
    decreases s.len(),
{
    if s.len() == 0 {
        None
    } else {
        match find_key(s.drop_last(), k) {
            Some(i) => Some(i),
            None => if s.last().0@ == k {
                Some(s.len() - 1)
            } else {
                None
            },
        }
    }
}

pub proof fn lemma_find_key<X>(s: Seq<(String, X)>, k: Seq<char>)
    ensures
        match find_key(s, k) {
            Some(i) => 0 <= i < s.len() && s[i].0@ == k && forall|j: int|
                0 <= j < i ==> (#[trigger] s[j]).0@ != k,
            None => forall|j: int| 0 <= j < s.len() ==> (#[trigger] s[j]).0@ != k,
        },
    decreases s.len(),
{
    if s.len() > 0 {
        lemma_find_key(s.drop_last(), k);
        assert(forall|j: int| 0 <= j < s.len() - 1 ==> s.drop_last()[j] == s[j]);
    }
}

/// Whether no key occurs twice in `s`.
pub open spec fn keys_unique<X>(s: Seq<(String, X)>) -> bool {
    forall|i: int, j: int| 0 <= i < j < s.len() ==> (#[trigger] s[i]).0@ != (#[trigger] s[j]).0@
}

/// Finds the entry of a table with the given key.
pub fn find_entry<X>(table: &Vec<(String, X)>, key: &String) -> (r: Option<usize>)
    ensures
        match r {
            Some(i) => find_key(table@, key@) == Some(i as int) && i < table@.len() && table@[i as int].0@
                == key@,
            None => find_key(table@, key@) is None,
        },
{
    proof {
        lemma_find_key(table@, key@);
    }
    let mut i: usize = 0;
    while i < table.len()
        invariant
            i <= table.len(),
            forall|j: int| 0 <= j < i ==> (#[trigger] table@[j]).0@ != key@,
            match find_key(table@, key@) {
                Some(f) => 0 <= f < table@.len() && table@[f].0@ == key@ && forall|j: int|
                    0 <= j < f ==> (#[trigger] table@[j]).0@ != key@,
                None => forall|j: int| 0 <= j < table@.len() ==> (#[trigger] table@[j]).0@ != key@,
            },
        decreases table.len() - i,
    {
        if table[i].0 == *key {
            return Some(i);
        }
        i = i + 1;
    }
    None
}

} // verus!
