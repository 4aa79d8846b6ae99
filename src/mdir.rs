use vstd::prelude::*;

use crate::ast::{named_view, ty_of, DocComment, Ty, TypeValue};

verus! {

/// One item of a flattened expression stream: an operator, a parenthesis or an operand.
#[derive(Debug)]
pub enum Expression {
    Add,
    Min,
    Mul,
    Div,
    Pow,
    Literal(Literal),
    LParen,
    RParen,
}

/// An operand of a flattened expression stream.
#[derive(Debug)]
pub enum Literal {
    /// Its type and its decimal text.
    Int(TypeValue, String),
    /// The return type, the callee, and each argument as a postfix stream with its type.
    Call(TypeValue, String, Vec<(Vec<Expression>, TypeValue)>),
    /// Its type, its name, and whether it is a parameter of the enclosing function.
    Identifier(TypeValue, String, bool),
    String(String),
}

/// The value of an `Expression`.
pub enum Ex {
    Add,
    Min,
    Mul,
    Div,
    Pow,
    Lit(Lit),
    LParen,
    RParen,
}

/// The value of a `Literal`.
pub enum Lit {
    Int(Ty, Seq<char>),
    Call(Ty, Seq<char>, Seq<(Seq<Ex>, Ty)>),
    Identifier(Ty, Seq<char>, bool),
    String(Seq<char>),
}

pub open spec fn ex_of(e: Expression) -> Ex
    decreases e, 0int,
{
    match e {
        Expression::Add => Ex::Add,
        Expression::Min => Ex::Min,
        Expression::Mul => Ex::Mul,
        Expression::Div => Ex::Div,
        Expression::Pow => Ex::Pow,
        Expression::LParen => Ex::LParen,
        Expression::RParen => Ex::RParen,
        Expression::Literal(l) => Ex::Lit(
            match l {
                Literal::Int(t, s) => Lit::Int(ty_of(t), s@),
                Literal::Call(t, n, a) => Lit::Call(ty_of(t), n@, args_of(a@, a@.len() as int)),
                Literal::Identifier(t, n, p) => Lit::Identifier(ty_of(t), n@, p),
                Literal::String(s) => Lit::String(s@),
            },
        ),
    }
}

/// The values of the first `n` items of a stream.
pub open spec fn exs_of(s: Seq<Expression>, n: int) -> Seq<Ex>
    decreases s, n,
{
    if n <= 0 || n > s.len() {
        Seq::empty()
    } else {
        exs_of(s, n - 1).push(ex_of(s[n - 1]))
    }
}

/// The values of the first `n` arguments of a call.
pub open spec fn args_of(s: Seq<(Vec<Expression>, TypeValue)>, n: int) -> Seq<(Seq<Ex>, Ty)>
    decreases s, n,
{
    if n <= 0 || n > s.len() {
        Seq::empty()
    } else {
        args_of(s, n - 1).push((exs_of(s[n - 1].0@, s[n - 1].0@.len() as int), ty_of(s[n - 1].1)))
    }
}

/// The value of a whole stream.
pub open spec fn stream(s: Seq<Expression>) -> Seq<Ex> {
    exs_of(s, s.len() as int)
}

/// The value of a whole argument list.
pub open spec fn args_view(s: Seq<(Vec<Expression>, TypeValue)>) -> Seq<(Seq<Ex>, Ty)> {
    args_of(s, s.len() as int)
}

pub proof fn lemma_exs_of(s: Seq<Expression>, n: int)
    requires
        0 <= n <= s.len(),
    ensures
        exs_of(s, n).len() == n,
        forall|i: int| 0 <= i < n ==> #[trigger] exs_of(s, n)[i] == ex_of(s[i]),
    decreases n,
{
    if n > 0 {
        lemma_exs_of(s, n - 1);
    }
}

pub proof fn lemma_stream(s: Seq<Expression>)
    ensures
        stream(s).len() == s.len(),
        forall|i: int| 0 <= i < s.len() ==> #[trigger] stream(s)[i] == ex_of(s[i]),
{
    lemma_exs_of(s, s.len() as int);
}

pub proof fn lemma_args_of(s: Seq<(Vec<Expression>, TypeValue)>, n: int)
    requires
        0 <= n <= s.len(),
    ensures
        args_of(s, n).len() == n,
        forall|i: int|
            0 <= i < n ==> #[trigger] args_of(s, n)[i] == (stream(s[i].0@), ty_of(s[i].1)),
    decreases n,
{
    if n > 0 {
        lemma_args_of(s, n - 1);
    }
}

/// The stream of `s` after one more item is pushed.
pub proof fn lemma_stream_push(s: Seq<Expression>, e: Expression)
    ensures
        stream(s.push(e)) == stream(s).push(ex_of(e)),
{
    lemma_stream(s);
    lemma_stream(s.push(e));
    assert(stream(s.push(e)) =~= stream(s).push(ex_of(e)));
}

/// The stream of `s` after its last item is taken off.
pub proof fn lemma_stream_drop_last(s: Seq<Expression>)
    requires
        s.len() > 0,
    ensures
        stream(s.drop_last()) == stream(s).drop_last(),
        stream(s).last() == ex_of(s.last()),
{
    lemma_stream(s);
    lemma_stream(s.drop_last());
    assert(stream(s.drop_last()) =~= stream(s).drop_last());
}

/// How tightly an operator binds; operands and parentheses have 0.
pub open spec fn prec(e: Ex) -> u8 {
    match e {
        Ex::Add | Ex::Min => 1,
        Ex::Mul | Ex::Div => 2,
        Ex::Pow => 3,
        _ => 0,
    }
}

pub open spec fn is_op(e: Ex) -> bool {
    match e {
        Ex::Add | Ex::Min | Ex::Mul | Ex::Div | Ex::Pow => true,
        _ => false,
    }
}

impl Expression {
    pub fn precedence(&self) -> (r: u8)
        ensures
            r == prec(ex_of(*self)),
    {
        match self {
            Expression::Add | Expression::Min => 1,
            Expression::Mul | Expression::Div => 2,
            Expression::Pow => 3,
            _ => 0,
        }
    }

    pub fn is_op(&self) -> (r: bool)
        ensures
            r == is_op(ex_of(*self)),
    {
        match self {
            Expression::Add | Expression::Min | Expression::Mul | Expression::Div
            | Expression::Pow => true,
            _ => false,
        }
    }
}

/// How an item of a stream is written when it is shown.
pub open spec fn ex_text(e: Ex) -> Seq<char> {
    match e {
        Ex::Add => "add"@,
        Ex::Min => "min"@,
        Ex::Mul => "mul"@,
        Ex::Div => "div"@,
        Ex::Pow => "pow"@,
        Ex::LParen => "("@,
        Ex::RParen => ")"@,
        Ex::Lit(l) => lit_text(l),
    }
}

/// How an operand is written when it is shown.
pub open spec fn lit_text(l: Lit) -> Seq<char> {
    match l {
        Lit::Int(_, v) => v + "\0"@,
        Lit::Identifier(_, v, _) => "%"@ + v,
        Lit::Call(_, _, _) => "call"@,
        Lit::String(v) => "\"%"@ + v + "\""@,
    }
}

impl Expression {
    /// The item as it is shown.
    pub fn to_string(&self) -> (r: String)
        ensures
            r@ == ex_text(ex_of(*self)),
    {
        match self {
            Expression::Add => String::from_str("add"),
            Expression::Min => String::from_str("min"),
            Expression::Mul => String::from_str("mul"),
            Expression::Div => String::from_str("div"),
            Expression::Pow => String::from_str("pow"),
            Expression::LParen => String::from_str("("),
            Expression::RParen => String::from_str(")"),
            Expression::Literal(l) => l.to_string(),
        }
    }
}

impl Literal {
    /// The operand as it is shown.
    pub fn to_string(&self) -> (r: String)
        ensures
            r@ == lit_text(ex_of(Expression::Literal(*self))->Lit_0),
    {
        let mut s = String::new();
        match self {
            Literal::Int(_, v) => {
                s.append(v.as_str());
                s.append("\0");
            },
            Literal::Identifier(_, v, _) => {
                s.append("%");
                s.append(v.as_str());
            },
            Literal::Call(_, _, _) => {
                s.append("call");
            },
            Literal::String(v) => {
                s.append("\"%");
                s.append(v.as_str());
                s.append("\"");
            },
        }
        proof {
            assert(s@ =~= lit_text(ex_of(Expression::Literal(*self))->Lit_0));
        }
        s
    }

    /// The type of the operand.
    pub fn _type(&self) -> (r: TypeValue)
        ensures
            r@ == lit_ty(ex_of(Expression::Literal(*self))->Lit_0),
    {
        match self {
            Literal::Int(t, _) => t.copy(),
            Literal::Identifier(t, _, _) => t.copy(),
            Literal::Call(t, _, _) => t.copy(),
            Literal::String(_) => TypeValue::String,
        }
    }
}

/// The type of an operand.
pub open spec fn lit_ty(l: Lit) -> Ty {
    match l {
        Lit::Int(t, _) => t,
        Lit::Identifier(t, _, _) => t,
        Lit::Call(t, _, _) => t,
        Lit::String(_) => Ty::String,
    }
}

// Conversion of an infix stream to postfix order.
/// Moves operators from the top of the stack to the output while they bind at least as
/// tightly as an incoming operator of precedence `p`.
pub open spec fn sy_flush(out: Seq<Ex>, stack: Seq<Ex>, p: u8) -> (Seq<Ex>, Seq<Ex>)
    decreases stack.len(),
{
    if stack.len() > 0 && is_op(stack.last()) && p <= prec(stack.last()) {
        sy_flush(out.push(stack.last()), stack.drop_last(), p)
    } else {
        (out, stack)
    }
}

/// Moves operators from the stack to the output up to the nearest open parenthesis,
/// which is dropped.
pub open spec fn sy_close(out: Seq<Ex>, stack: Seq<Ex>) -> (Seq<Ex>, Seq<Ex>)
    decreases stack.len(),
{
    if stack.len() == 0 {
        (out, stack)
    } else if stack.last() is LParen {
        (out, stack.drop_last())
    } else {
        sy_close(out.push(stack.last()), stack.drop_last())
    }
}

/// Moves every operator left on the stack to the output, top first; parentheses are
/// dropped.
pub open spec fn sy_drain(out: Seq<Ex>, stack: Seq<Ex>) -> Seq<Ex>
    decreases stack.len(),
{
    if stack.len() == 0 {
        out
    } else if is_op(stack.last()) {
        sy_drain(out.push(stack.last()), stack.drop_last())
    } else {
        sy_drain(out, stack.drop_last())
    }
}

/// The output and the stack after one more infix item.
pub open spec fn sy_step(state: (Seq<Ex>, Seq<Ex>), e: Ex) -> (Seq<Ex>, Seq<Ex>) {
    let (out, stack) = state;
    match e {
        Ex::Lit(_) => (out.push(e), stack),
        Ex::LParen => (out, stack.push(e)),
        Ex::RParen => sy_close(out, stack),
        _ => {
            let (o, s) = sy_flush(out, stack, prec(e));
            (o, s.push(e))
        },
    }
}

/// The output and the stack after all of `input`.
pub open spec fn sy_run(input: Seq<Ex>) -> (Seq<Ex>, Seq<Ex>)
    decreases input.len(),
{
    if input.len() == 0 {
        (Seq::empty(), Seq::empty())
    } else {
        sy_step(sy_run(input.drop_last()), input.last())
    }
}

/// The postfix order of an infix stream.
pub open spec fn postfix(input: Seq<Ex>) -> Seq<Ex> {
    let (out, stack) = sy_run(input);
    sy_drain(out, stack)
}

// Postfix streams are well formed.
/// The number of values a stack machine holds after running `s`, or -1 when an operator
/// finds fewer than two values or an item is no operand nor operator.
pub open spec fn pdepth(s: Seq<Ex>) -> int
    decreases s.len(),
{
    if s.len() == 0 {
        0
    } else {
        let d = pdepth(s.drop_last());
        if d < 0 {
            -1
        } else if s.last() is Lit {
            d + 1
        } else if is_op(s.last()) && d >= 2 {
            d - 1
        } else {
            -1
        }
    }
}

/// Whether `s` is a valid postfix expression: it leaves exactly one value.
pub open spec fn valid_postfix(s: Seq<Ex>) -> bool {
    pdepth(s) == 1
}

/// The operands of a stream, in order.
pub open spec fn operands(s: Seq<Ex>) -> Seq<Ex>
    decreases s.len(),
{
    if s.len() == 0 {
        Seq::empty()
    } else if s.last() is Lit {
        operands(s.drop_last()).push(s.last())
    } else {
        operands(s.drop_last())
    }
}

/// Whether `s` is an infix chain: operands and binary operators in turn, starting and
/// ending with an operand.
pub open spec fn infix_chain(s: Seq<Ex>) -> bool {
    &&& s.len() % 2 == 1
    &&& forall|i: int| 0 <= i < s.len() ==> (i % 2 == 0 ==> #[trigger] s[i] is Lit) && (i % 2 == 1 ==> is_op(s[i]))
}

pub open spec fn all_ops(s: Seq<Ex>) -> bool {
    forall|i: int| 0 <= i < s.len() ==> is_op(#[trigger] s[i])
}

proof fn lemma_flush_depth(out: Seq<Ex>, stack: Seq<Ex>, p: u8)
    requires
        all_ops(stack),
        pdepth(out) == stack.len() + 1,
    ensures
        all_ops(sy_flush(out, stack, p).1),
        pdepth(sy_flush(out, stack, p).0) == sy_flush(out, stack, p).1.len() + 1,
        operands(sy_flush(out, stack, p).0) == operands(out),
    decreases stack.len(),
{
    if stack.len() > 0 && is_op(stack.last()) && p <= prec(stack.last()) {
        let o = out.push(stack.last());
        assert(o.drop_last() =~= out);
        assert(is_op(stack.last()));
        assert(all_ops(stack.drop_last()));
        lemma_flush_depth(o, stack.drop_last(), p);
    }
}

proof fn lemma_drain_depth(out: Seq<Ex>, stack: Seq<Ex>)
    requires
        all_ops(stack),
        pdepth(out) == stack.len() + 1,
    ensures
        pdepth(sy_drain(out, stack)) == 1,
        operands(sy_drain(out, stack)) == operands(out),
    decreases stack.len(),
{
    if stack.len() > 0 {
        let o = out.push(stack.last());
        assert(o.drop_last() =~= out);
        assert(is_op(stack.last()));
        assert(all_ops(stack.drop_last()));
        lemma_drain_depth(o, stack.drop_last());
    }
}

proof fn lemma_run_depth(s: Seq<Ex>, n: int)
    requires
        infix_chain(s),
        1 <= n <= s.len(),
    ensures
        all_ops(sy_run(s.subrange(0, n)).1),
        operands(sy_run(s.subrange(0, n)).0) == operands(s.subrange(0, n)),
        n % 2 == 1 ==> pdepth(sy_run(s.subrange(0, n)).0) == sy_run(s.subrange(0, n)).1.len() + 1,
        n % 2 == 0 ==> pdepth(sy_run(s.subrange(0, n)).0) == sy_run(s.subrange(0, n)).1.len()
            && sy_run(s.subrange(0, n)).1.len() >= 1,
    decreases n,
{
    let sub = s.subrange(0, n);
    let e: Seq<Ex> = Seq::empty();
    assert(sub.last() == s[n - 1]);
    if n == 1 {
        assert(sub.drop_last() =~= e);
        assert(sy_run(e) == (e, e));
        assert(s[0] is Lit);
        assert(e.push(s[0]).drop_last() =~= e);
        assert(operands(sub.drop_last()) == e);
        assert(pdepth(e) == 0);
    } else {
        lemma_run_depth(s, n - 1);
        let prev = s.subrange(0, n - 1);
        assert(sub.drop_last() =~= prev);
        let (o, st) = sy_run(prev);
        if n % 2 == 0 {
            assert(is_op(s[n - 1]));
            lemma_flush_depth(o, st, prec(s[n - 1]));
            let f = sy_flush(o, st, prec(s[n - 1]));
            assert(all_ops(f.1.push(s[n - 1])));
        } else {
            assert(s[n - 1] is Lit);
            assert(o.push(s[n - 1]).drop_last() =~= o);
        }
    }
}

/// Reordering an infix chain of operands and binary operators gives a valid postfix
/// expression with the same operands in the same order.
pub proof fn lemma_postfix_valid(s: Seq<Ex>)
    requires
        infix_chain(s),
    ensures
        valid_postfix(postfix(s)),
        operands(postfix(s)) == operands(s),
{
    lemma_run_depth(s, s.len() as int);
    assert(s.subrange(0, s.len() as int) =~= s);
    let (o, st) = sy_run(s);
    lemma_drain_depth(o, st);
}

/// Whether the stack holds only operators and open parentheses.
pub open spec fn stack_ok(s: Seq<Ex>) -> bool {
    forall|i: int| 0 <= i < s.len() ==> is_op(#[trigger] s[i]) || s[i] is LParen
}

fn pop_item(v: &mut Vec<Expression>) -> (r: Expression)
    requires
        old(v)@.len() > 0,
    ensures
        final(v)@ == old(v)@.drop_last(),
        r == old(v)@.last(),
        stream(final(v)@) == stream(old(v)@).drop_last(),
        ex_of(r) == stream(old(v)@).last(),
{
    proof {
        lemma_stream_drop_last(v@);
    }
    match v.pop() {
        Some(e) => e,
        None => Expression::Add,
    }
}

fn push_item(v: &mut Vec<Expression>, e: Expression)
    ensures
        final(v)@ == old(v)@.push(e),
        stream(final(v)@) == stream(old(v)@).push(ex_of(e)),
{
    proof {
        lemma_stream_push(v@, e);
    }
    v.push(e);
}

/// Reorders an infix stream into postfix order with the shunting-yard method.
pub fn shunting_yard_this_mf(stream_in: Vec<Expression>) -> (r: Vec<Expression>)
    ensures
        stream(r@) == postfix(stream(stream_in@)),
{
    let mut input = stream_in;
    let ghost all = stream(input@);
    // Reverse the input so that its items can be taken from the end.
    let mut rev: Vec<Expression> = Vec::new();
    proof {
        lemma_stream(input@);
        lemma_stream(rev@);
    }
    while input.len() > 0
        invariant
            stream(input@) + stream(rev@).reverse() == all,
        decreases input.len(),
    {
        let ghost before_in = stream(input@);
        let ghost before_rev = stream(rev@);
        let e = pop_item(&mut input);
        push_item(&mut rev, e);
        proof {
            assert(stream(rev@).reverse() =~= seq![ex_of(e)] + before_rev.reverse());
            assert(before_in =~= stream(input@).push(ex_of(e)));
        }
    }
    proof {
        lemma_stream(input@);
        assert(stream(rev@).reverse() =~= all);
    }
    let mut output: Vec<Expression> = Vec::new();
    let mut stack: Vec<Expression> = Vec::new();
    let ghost mut done: Seq<Ex> = Seq::empty();
    proof {
        lemma_stream(output@);
        lemma_stream(stack@);
        assert(all =~= done + stream(rev@).reverse());
    }
    while rev.len() > 0
        invariant
            all == done + stream(rev@).reverse(),
            sy_run(done) == (stream(output@), stream(stack@)),
            stack_ok(stream(stack@)),
        decreases rev.len(),
    {
        let ghost rev_before = stream(rev@);
        let e = pop_item(&mut rev);
        proof {
            assert(rev_before.reverse() =~= seq![ex_of(e)] + stream(rev@).reverse());
            assert((done.push(ex_of(e))).drop_last() =~= done);
        }
        let ghost prev_done = done;
        proof {
            done = done.push(ex_of(e));
            assert(all =~= done + stream(rev@).reverse());
        }
        match e {
            Expression::Literal(_) => {
                push_item(&mut output, e);
            },
            Expression::LParen => {
                push_item(&mut stack, e);
            },
            Expression::RParen => {
                loop
                    invariant_except_break
                        sy_close(stream(output@), stream(stack@)) == sy_step(
                            sy_run(prev_done),
                            Ex::RParen,
                        ),
                    invariant
                        stack_ok(stream(stack@)),
                    ensures
                        (stream(output@), stream(stack@)) == sy_step(
                            sy_run(prev_done),
                            Ex::RParen,
                        ),
                    decreases stack.len(),
                {
                    if stack.len() == 0 {
                        break;
                    }
                    let top = pop_item(&mut stack);
                    if let Expression::LParen = top {
                        break;
                    }
                    push_item(&mut output, top);
                }
            },
            _ => {
                let p = e.precedence();
                loop
                    invariant_except_break
                        sy_flush(stream(output@), stream(stack@), p) == sy_flush(
                            sy_run(prev_done).0,
                            sy_run(prev_done).1,
                            p,
                        ),
                    invariant
                        stack_ok(stream(stack@)),
                    ensures
                        (stream(output@), stream(stack@)) == sy_flush(
                            sy_run(prev_done).0,
                            sy_run(prev_done).1,
                            p,
                        ),
                    decreases stack.len(),
                {
                    if stack.len() == 0 {
                        break;
                    }
                    let n = stack.len();
                    if !(stack[n - 1].is_op() && p <= stack[n - 1].precedence()) {
                        proof {
                            lemma_stream(stack@);
                        }
                        break;
                    }
                    proof {
                        lemma_stream(stack@);
                    }
                    let top = pop_item(&mut stack);
                    push_item(&mut output, top);
                }
                push_item(&mut stack, e);
                proof {
                    assert(stack_ok(stream(stack@))) by {
                        lemma_stream(stack@);
                    }
                }
            },
        }
    }
    proof {
        lemma_stream(rev@);
        assert(done =~= all);
    }
    loop
        invariant_except_break
            sy_drain(stream(output@), stream(stack@)) == postfix(all),
        ensures
            stream(output@) == postfix(all),
        decreases stack.len(),
    {
        if stack.len() == 0 {
            break;
        }
        let top = pop_item(&mut stack);
        if top.is_op() {
            push_item(&mut output, top);
        }
    }
    output
}

/// Operators of lower precedence wait for tighter ones: for any operands `a`, `b`, `c`,
/// the infix `a + b * c` becomes `a b c * +`, and `(a + b) * c` becomes `a b + c *`.
pub proof fn lemma_postfix_precedence(a: Lit, b: Lit, c: Lit)
    ensures
        postfix(seq![Ex::Lit(a), Ex::Add, Ex::Lit(b), Ex::Mul, Ex::Lit(c)]) == seq![
            Ex::Lit(a),
            Ex::Lit(b),
            Ex::Lit(c),
            Ex::Mul,
            Ex::Add,
        ],
        postfix(
            seq![Ex::LParen, Ex::Lit(a), Ex::Add, Ex::Lit(b), Ex::RParen, Ex::Mul, Ex::Lit(c)],
        ) == seq![Ex::Lit(a), Ex::Lit(b), Ex::Add, Ex::Lit(c), Ex::Mul],
{
    let (la, lb, lc) = (Ex::Lit(a), Ex::Lit(b), Ex::Lit(c));
    let e: Seq<Ex> = Seq::empty();
    let i1 = seq![la, Ex::Add, lb, Ex::Mul, lc];
    assert(i1.drop_last().drop_last().drop_last().drop_last().drop_last() =~= e);
    assert(sy_run(e) == (e, e));
    assert(sy_run(seq![la]) == (seq![la], e)) by {
        assert(seq![la].drop_last() =~= e);
        assert(e.push(la) =~= seq![la]);
    }
    assert(sy_run(seq![la, Ex::Add]) == (seq![la], seq![Ex::Add])) by {
        assert(seq![la, Ex::Add].drop_last() =~= seq![la]);
        assert(e.push(Ex::Add) =~= seq![Ex::Add]);
    }
    assert(sy_run(seq![la, Ex::Add, lb]) == (seq![la, lb], seq![Ex::Add])) by {
        assert(seq![la, Ex::Add, lb].drop_last() =~= seq![la, Ex::Add]);
        assert(seq![la].push(lb) =~= seq![la, lb]);
    }
    assert(sy_run(seq![la, Ex::Add, lb, Ex::Mul]) == (seq![la, lb], seq![Ex::Add, Ex::Mul])) by {
        assert(seq![la, Ex::Add, lb, Ex::Mul].drop_last() =~= seq![la, Ex::Add, lb]);
        assert(seq![Ex::Add].push(Ex::Mul) =~= seq![Ex::Add, Ex::Mul]);
    }
    assert(sy_run(i1) == (seq![la, lb, lc], seq![Ex::Add, Ex::Mul])) by {
        assert(i1.drop_last() =~= seq![la, Ex::Add, lb, Ex::Mul]);
        assert(seq![la, lb].push(lc) =~= seq![la, lb, lc]);
    }
    assert(sy_drain(seq![la, lb, lc], seq![Ex::Add, Ex::Mul]) == seq![la, lb, lc, Ex::Mul, Ex::Add])
        by {
        assert(seq![Ex::Add, Ex::Mul].drop_last() =~= seq![Ex::Add]);
        assert(seq![Ex::Add].drop_last() =~= e);
        assert(seq![la, lb, lc].push(Ex::Mul) =~= seq![la, lb, lc, Ex::Mul]);
        assert(seq![la, lb, lc, Ex::Mul].push(Ex::Add) =~= seq![la, lb, lc, Ex::Mul, Ex::Add]);
        assert(sy_drain(seq![la, lb, lc, Ex::Mul, Ex::Add], e) == seq![la, lb, lc, Ex::Mul, Ex::Add]);
        assert(sy_drain(seq![la, lb, lc, Ex::Mul], seq![Ex::Add]) == seq![
            la,
            lb,
            lc,
            Ex::Mul,
            Ex::Add,
        ]);
    }
    let i2 = seq![Ex::LParen, la, Ex::Add, lb, Ex::RParen, Ex::Mul, lc];
    assert(sy_run(seq![Ex::LParen]) == (e, seq![Ex::LParen])) by {
        assert(seq![Ex::LParen].drop_last() =~= e);
        assert(e.push(Ex::LParen) =~= seq![Ex::LParen]);
    }
    assert(sy_run(seq![Ex::LParen, la]) == (seq![la], seq![Ex::LParen])) by {
        assert(seq![Ex::LParen, la].drop_last() =~= seq![Ex::LParen]);
        assert(e.push(la) =~= seq![la]);
    }
    assert(sy_run(seq![Ex::LParen, la, Ex::Add]) == (seq![la], seq![Ex::LParen, Ex::Add])) by {
        assert(seq![Ex::LParen, la, Ex::Add].drop_last() =~= seq![Ex::LParen, la]);
        assert(seq![Ex::LParen].push(Ex::Add) =~= seq![Ex::LParen, Ex::Add]);
    }
    assert(sy_run(seq![Ex::LParen, la, Ex::Add, lb]) == (seq![la, lb], seq![Ex::LParen, Ex::Add]))
        by {
        assert(seq![Ex::LParen, la, Ex::Add, lb].drop_last() =~= seq![Ex::LParen, la, Ex::Add]);
        assert(seq![la].push(lb) =~= seq![la, lb]);
    }
    assert(sy_run(seq![Ex::LParen, la, Ex::Add, lb, Ex::RParen]) == (seq![la, lb, Ex::Add], e))
        by {
        assert(seq![Ex::LParen, la, Ex::Add, lb, Ex::RParen].drop_last() =~= seq![
            Ex::LParen,
            la,
            Ex::Add,
            lb,
        ]);
        assert(seq![Ex::LParen, Ex::Add].drop_last() =~= seq![Ex::LParen]);
        assert(seq![Ex::LParen].drop_last() =~= e);
        assert(seq![la, lb].push(Ex::Add) =~= seq![la, lb, Ex::Add]);
        assert(sy_close(seq![la, lb, Ex::Add], seq![Ex::LParen]) == (seq![la, lb, Ex::Add], e));
    }
    assert(sy_run(seq![Ex::LParen, la, Ex::Add, lb, Ex::RParen, Ex::Mul]) == (
        seq![la, lb, Ex::Add],
        seq![Ex::Mul],
    )) by {
        assert(seq![Ex::LParen, la, Ex::Add, lb, Ex::RParen, Ex::Mul].drop_last() =~= seq![
            Ex::LParen,
            la,
            Ex::Add,
            lb,
            Ex::RParen,
        ]);
        assert(e.push(Ex::Mul) =~= seq![Ex::Mul]);
    }
    assert(sy_run(i2) == (seq![la, lb, Ex::Add, lc], seq![Ex::Mul])) by {
        assert(i2.drop_last() =~= seq![Ex::LParen, la, Ex::Add, lb, Ex::RParen, Ex::Mul]);
        assert(seq![la, lb, Ex::Add].push(lc) =~= seq![la, lb, Ex::Add, lc]);
    }
    assert(sy_drain(seq![la, lb, Ex::Add, lc], seq![Ex::Mul]) == seq![la, lb, Ex::Add, lc, Ex::Mul])
        by {
        assert(seq![Ex::Mul].drop_last() =~= e);
        assert(sy_drain(seq![la, lb, Ex::Add, lc, Ex::Mul], e) == seq![la, lb, Ex::Add, lc, Ex::Mul]);
        assert(seq![la, lb, Ex::Add, lc].push(Ex::Mul) =~= seq![la, lb, Ex::Add, lc, Ex::Mul]);
    }
}

/// A statement of a checked function body.
#[derive(Debug)]
pub enum Statement {
    /// An expression in postfix order.
    Expr(Vec<Expression>),
    /// A binding of a variable to an expression in postfix order.
    Var(Var),
}

/// A variable binding: its name, its value in postfix order and its type.
#[derive(Debug)]
pub struct Var {
    pub lhs: String,
    pub rhs: Vec<Expression>,
    pub ty: TypeValue,
}

impl Var {
    pub fn new(lhs: String, rhs: Vec<Expression>, ty: TypeValue) -> (r: Var)
        ensures
            r.lhs == lhs,
            r.rhs@ == rhs@,
            r.ty == ty,
    {
        Var { lhs, rhs, ty }
    }
}

/// A declaration of a variable without a value.
pub struct Decl {
    pub lhs: String,
    pub ty: TypeValue,
}

impl Decl {
    pub fn new(lhs: String, ty: TypeValue) -> (r: Decl)
        ensures
            r.lhs == lhs,
            r.ty == ty,
    {
        Decl { lhs, ty }
    }
}

/// An assignment to a declared variable.
pub struct Assign {
    pub lhs: String,
    pub rhs: Expression,
}

/// The value of a statement.
pub enum St {
    Expr(Seq<Ex>),
    Var(Seq<char>, Seq<Ex>, Ty),
}

pub open spec fn st_of(s: Statement) -> St {
    match s {
        Statement::Expr(e) => St::Expr(stream(e@)),
        Statement::Var(v) => St::Var(v.lhs@, stream(v.rhs@), v.ty@),
    }
}

/// The values of a list of statements.
pub open spec fn sts_of(s: Seq<Statement>) -> Seq<St> {
    s.map_values(|x: Statement| st_of(x))
}

/// A checked function.
#[derive(Debug)]
pub struct Function {
    pub name: String,
    pub params: Vec<(String, TypeValue)>,
    pub return_type: TypeValue,
    pub vars: Vec<(String, TypeValue)>,
    pub block: Vec<Statement>,
    pub doc_comments: Vec<DocComment>,
}

/// The value of a function: name, parameters, return type, body and documentation.
pub struct Fun {
    pub name: Seq<char>,
    pub params: Seq<(Seq<char>, Ty)>,
    pub ret: Ty,
    pub block: Seq<St>,
    pub docs: Seq<Seq<char>>,
}

pub open spec fn fun_of(f: Function) -> Fun {
    Fun {
        name: f.name@,
        params: named_view(f.params@),
        ret: f.return_type@,
        block: sts_of(f.block@),
        docs: f.doc_comments@.map_values(|d: DocComment| d.md@),
    }
}

impl Function {
    pub fn default() -> (r: Function)
        ensures
            r.name@.len() == 0,
            r.params@.len() == 0,
            r.return_type@ == Ty::Void,
            r.vars@.len() == 0,
            r.block@.len() == 0,
            r.doc_comments@.len() == 0,
    {
        Function {
            name: String::new(),
            params: Vec::new(),
            return_type: TypeValue::Void,
            vars: Vec::new(),
            block: Vec::new(),
            doc_comments: Vec::new(),
        }
    }
}

/// A function with a foreign calling convention, defined outside every module.
#[derive(Debug)]
pub struct ExternFunction {
    pub name: String,
    pub params: Vec<(String, TypeValue)>,
    pub return_type: Box<TypeValue>,
}

/// The value of an extern function: name, parameters and return type.
pub open spec fn extern_of(f: ExternFunction) -> (Seq<char>, Seq<(Seq<char>, Ty)>, Ty) {
    (f.name@, named_view(f.params@), ty_of(*f.return_type))
}

/// The checked form of one module: its functions, its externs, and the signatures of
/// the functions it imports.
#[derive(Debug)]
pub struct MiddleIR {
    pub imported_functions: Vec<(String, (Vec<(String, TypeValue)>, TypeValue))>,
    pub functions: Vec<Function>,
    pub externs: Vec<ExternFunction>,
}

/// The value of a checked module.
pub struct Mir {
    pub imported: Seq<(Seq<char>, Seq<(Seq<char>, Ty)>, Ty)>,
    pub functions: Seq<Fun>,
    pub externs: Seq<(Seq<char>, Seq<(Seq<char>, Ty)>, Ty)>,
}

/// The values of imported signatures.
pub open spec fn sigs_of(s: Seq<(String, (Vec<(String, TypeValue)>, TypeValue))>) -> Seq<
    (Seq<char>, Seq<(Seq<char>, Ty)>, Ty),
> {
    s.map_values(|x: (String, (Vec<(String, TypeValue)>, TypeValue))| (x.0@, named_view(x.1.0@), x.1.1@))
}

impl View for MiddleIR {
    type V = Mir;

    open spec fn view(&self) -> Mir {
        Mir {
            imported: sigs_of(self.imported_functions@),
            functions: self.functions@.map_values(|f: Function| fun_of(f)),
            externs: self.externs@.map_values(|f: ExternFunction| extern_of(f)),
        }
    }
}

impl MiddleIR {
    pub fn new() -> (r: MiddleIR)
        ensures
            r@.imported.len() == 0,
            r@.functions.len() == 0,
            r@.externs.len() == 0,
    {
        MiddleIR { imported_functions: Vec::new(), functions: Vec::new(), externs: Vec::new() }
    }

    pub fn set_externs(&mut self, externs: Vec<ExternFunction>)
        ensures
            final(self)@ == (Mir {
                externs: externs@.map_values(|f: ExternFunction| extern_of(f)),
                ..old(self)@
            }),
    {
        self.externs = externs;
    }

    pub fn set_imported_functions(
        &mut self,
        imported_functions: Vec<(String, (Vec<(String, TypeValue)>, TypeValue))>,
    )
        ensures
            final(self)@ == (Mir { imported: sigs_of(imported_functions@), ..old(self)@ }),
    {
        self.imported_functions = imported_functions;
    }

    pub fn functions(&self) -> (r: &Vec<Function>)
        ensures
            r@.map_values(|f: Function| fun_of(f)) == self@.functions,
    {
        &self.functions
    }

    pub fn externs(&self) -> (r: &Vec<ExternFunction>)
        ensures
            r@.map_values(|f: ExternFunction| extern_of(f)) == self@.externs,
    {
        &self.externs
    }

    pub fn imported_functions(&self) -> (r: &Vec<(String, (Vec<(String, TypeValue)>, TypeValue))>)
        ensures
            sigs_of(r@) == self@.imported,
    {
        &self.imported_functions
    }

    /// Adds a function, in place of an earlier one of the same name.
    pub fn insert_function(&mut self, function: Function)
        ensures
            final(self)@ == (Mir {
                functions: insert_fun(old(self)@.functions, fun_of(function)),
                ..old(self)@
            }),
    {
        let mut i: usize = 0;
        let ghost fs = self@.functions;
        while i < self.functions.len()
            invariant
                i <= self.functions@.len(),
                self@ == old(self)@,
                fs == old(self)@.functions,
                fs.len() == self.functions@.len(),
                forall|j: int| 0 <= j < i ==> (#[trigger] fs[j]).name != function.name@,
            decreases self.functions.len() - i,
        {
            if self.functions[i].name == function.name {
                let ghost f = fun_of(function);
                self.functions.set(i, function);
                proof {
                    assert(fs[i as int].name == f.name);
                    assert(find_fun(fs, f.name) == Some(i as int)) by {
                        lemma_find_fun(fs, f.name);
                    }
                    assert(self@.functions =~= fs.update(i as int, f));
                }
                return;
            }
            i = i + 1;
        }
        let ghost f = fun_of(function);
        self.functions.push(function);
        proof {
            lemma_find_fun(fs, f.name);
            assert(self@.functions =~= fs.push(f));
        }
    }
}

/// The index of the first function named `n`.
pub open spec fn find_fun(fs: Seq<Fun>, n: Seq<char>) -> Option<int>
    decreases fs.len(),
{
    if fs.len() == 0 {
        None
    } else {
        match find_fun(fs.drop_last(), n) {
            Some(i) => Some(i),
            None => if fs.last().name == n {
                Some(fs.len() - 1)
            } else {
                None
            },
        }
    }
}

pub proof fn lemma_find_fun(fs: Seq<Fun>, n: Seq<char>)
    ensures
        match find_fun(fs, n) {
            Some(i) => 0 <= i < fs.len() && fs[i].name == n && forall|j: int|
                0 <= j < i ==> (#[trigger] fs[j]).name != n,
            None => forall|j: int| 0 <= j < fs.len() ==> (#[trigger] fs[j]).name != n,
        },
    decreases fs.len(),
{
    if fs.len() > 0 {
        lemma_find_fun(fs.drop_last(), n);
        assert(forall|j: int| 0 <= j < fs.len() - 1 ==> fs.drop_last()[j] == fs[j]);
    }
}

/// The functions after `f` is added: it takes the place of the first one of its name,
/// or comes last.
pub open spec fn insert_fun(fs: Seq<Fun>, f: Fun) -> Seq<Fun> {
    match find_fun(fs, f.name) {
        Some(i) => fs.update(i, f),
        None => fs.push(f),
    }
}

} // verus!
