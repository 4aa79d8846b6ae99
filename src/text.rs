use vstd::prelude::*;

use crate::ast::{named_tys_of, ty_of, tys_of, Ty, TypeValue, lemma_named_tys_of, lemma_tys_of};

verus! {

/// The decimal digit for `d`.
pub open spec fn digit(d: nat) -> char {
    if d == 0 {
        '0'
    } else if d == 1 {
        '1'
    } else if d == 2 {
        '2'
    } else if d == 3 {
        '3'
    } else if d == 4 {
        '4'
    } else if d == 5 {
        '5'
    } else if d == 6 {
        '6'
    } else if d == 7 {
        '7'
    } else if d == 8 {
        '8'
    } else {
        '9'
    }
}

/// The decimal text of `n`, without leading zeros.
pub open spec fn decimal(n: nat) -> Seq<char>
    decreases n,
{
    if n < 10 {
        seq![digit(n)]
    } else {
        decimal(n / 10).push(digit(n % 10))
    }
}

/// The decimal text of `n`, with a leading `-` when it is negative.
pub open spec fn signed_decimal(n: int) -> Seq<char> {
    if n < 0 {
        seq!['-'] + decimal((-n) as nat)
    } else {
        decimal(n as nat)
    }
}

fn digit_text(d: u128) -> (r: &'static str)
    requires
        d < 10,
    ensures
        r@ == seq![digit(d as nat)],
{
    proof {
        reveal_strlit("0");
        reveal_strlit("1");
        reveal_strlit("2");
        reveal_strlit("3");
        reveal_strlit("4");
        reveal_strlit("5");
        reveal_strlit("6");
        reveal_strlit("7");
        reveal_strlit("8");
        reveal_strlit("9");
    }
    if d == 0 {
        "0"
    } else if d == 1 {
        "1"
    } else if d == 2 {
        "2"
    } else if d == 3 {
        "3"
    } else if d == 4 {
        "4"
    } else if d == 5 {
        "5"
    } else if d == 6 {
        "6"
    } else if d == 7 {
        "7"
    } else if d == 8 {
        "8"
    } else {
        "9"
    }
}

/// Appends the decimal text of `n`.
pub fn push_decimal(s: &mut String, n: u128)
    ensures
        final(s)@ == old(s)@ + decimal(n as nat),
    decreases n,
{
    if n >= 10 {
        push_decimal(s, n / 10);
    }
    s.append(digit_text(n % 10));
    proof {
        if n >= 10 {
            assert(final(s)@ =~= old(s)@ + decimal(n as nat));
        } else {
            assert(final(s)@ =~= old(s)@ + decimal(n as nat));
        }
    }
}

/// The decimal text of a signed integer.
pub fn signed_text(n: i128) -> (r: String)
    ensures
        r@ == signed_decimal(n as int),
{
    let mut s = String::new();
    if n < 0 {
        s.append("-");
        proof {
            reveal_strlit("-");
        }
        let m: u128 = ((-(n + 1)) as u128) + 1;
        push_decimal(&mut s, m);
        assert(s@ =~= signed_decimal(n as int));
    } else {
        push_decimal(&mut s, n as u128);
        assert(s@ =~= signed_decimal(n as int));
    }
    s
}

/// The decimal text of a count.
pub fn count_text(n: usize) -> (r: String)
    ensures
        r@ == decimal(n as nat),
{
    let mut s = String::new();
    push_decimal(&mut s, n as u128);
    assert(s@ =~= decimal(n as nat));
    s
}

/// How a type is written in messages.
pub open spec fn ty_name(t: Ty) -> Seq<char>
    decreases t, 0int,
{
    match t {
        Ty::Undefined => "Undefined"@,
        Ty::Void => "Void"@,
        Ty::Ptr(b) => "Ptr("@ + ty_name(*b) + ")"@,
        Ty::Bool => "Bool"@,
        Ty::String => "String"@,
        Ty::I8 => "I8"@,
        Ty::I16 => "I16"@,
        Ty::I32 => "I32"@,
        Ty::I64 => "I64"@,
        Ty::I128 => "I128"@,
        Ty::U8 => "U8"@,
        Ty::U16 => "U16"@,
        Ty::U32 => "U32"@,
        Ty::U64 => "U64"@,
        Ty::U128 => "U128"@,
        Ty::F32 => "F32"@,
        Ty::F64 => "F64"@,
        Ty::Array(b) => "Array("@ + ty_name(*b) + ")"@,
        Ty::Generic(b) => "Generic("@ + ty_name(*b) + ")"@,
        Ty::Func(p, r, e) => "Func(["@ + ty_list_name(p, p.len() as int) + "], "@ + ty_name(*r)
            + if e {
            ", true)"@
        } else {
            ", false)"@
        },
        Ty::ExFunc(p, r) => "ExFunc(["@ + named_list_name(p, p.len() as int) + "], "@ + ty_name(
            *r,
        ) + ")"@,
        Ty::Custom(s) => "Custom("@ + s + ")"@,
        Ty::EnumVariant(s) => "EnumVariant("@ + s + ")"@,
    }
}

/// The first `n` types of `s`, separated by commas.
pub open spec fn ty_list_name(s: Seq<Ty>, n: int) -> Seq<char>
    decreases s, n,
{
    if n <= 0 || n > s.len() {
        Seq::empty()
    } else if n == 1 {
        ty_name(s[0])
    } else {
        ty_list_name(s, n - 1) + ", "@ + ty_name(s[n - 1])
    }
}

/// The first `n` named types of `s`, as `name: type`, separated by commas.
pub open spec fn named_list_name(s: Seq<(Seq<char>, Ty)>, n: int) -> Seq<char>
    decreases s, n,
{
    if n <= 0 || n > s.len() {
        Seq::empty()
    } else if n == 1 {
        s[0].0 + ": "@ + ty_name(s[0].1)
    } else {
        named_list_name(s, n - 1) + ", "@ + s[n - 1].0 + ": "@ + ty_name(s[n - 1].1)
    }
}

/// Appends how a type is written in messages.
pub fn push_type_name(out: &mut String, t: &TypeValue)
    ensures
        final(out)@ == old(out)@ + ty_name(t@),
    decreases t,
{
    match t {
        TypeValue::Undefined => out.append("Undefined"),
        TypeValue::Void => out.append("Void"),
        TypeValue::Ptr(b) => {
            out.append("Ptr(");
            push_type_name(out, b);
            out.append(")");
        },
        TypeValue::Bool => out.append("Bool"),
        TypeValue::String => out.append("String"),
        TypeValue::I8 => out.append("I8"),
        TypeValue::I16 => out.append("I16"),
        TypeValue::I32 => out.append("I32"),
        TypeValue::I64 => out.append("I64"),
        TypeValue::I128 => out.append("I128"),
        TypeValue::U8 => out.append("U8"),
        TypeValue::U16 => out.append("U16"),
        TypeValue::U32 => out.append("U32"),
        TypeValue::U64 => out.append("U64"),
        TypeValue::U128 => out.append("U128"),
        TypeValue::F32 => out.append("F32"),
        TypeValue::F64 => out.append("F64"),
        TypeValue::Array(b) => {
            out.append("Array(");
            push_type_name(out, b);
            out.append(")");
        },
        TypeValue::Generic(b) => {
            out.append("Generic(");
            push_type_name(out, b);
            out.append(")");
        },
        TypeValue::Func(p, r, e) => {
            out.append("Func([");
            let ghost start = out@;
            let mut i: usize = 0;
            proof {
                lemma_tys_of(p@, p@.len() as int);
            }
            while i < p.len()
                invariant
                    *t == TypeValue::Func(*p, *r, *e),
                    i <= p.len(),
                    tys_of(p@, p@.len() as int).len() == p@.len(),
                    forall|j: int|
                        0 <= j < p@.len() ==> #[trigger] tys_of(p@, p@.len() as int)[j] == ty_of(
                            p@[j],
                        ),
                    out@ == start + ty_list_name(tys_of(p@, p@.len() as int), i as int),
                decreases p.len() - i,
            {
                proof {
                    vstd::std_specs::vec::axiom_vec_index_decreases(*p, i as int);
                    assert(decreases_to!(*t => t->Func_0));
                    assert(decreases_to!(*p => p@));
                    assert(decreases_to!(p@ => p@[i as int]));
                }
                if i > 0 {
                    out.append(", ");
                }
                push_type_name(out, &p[i]);
                i = i + 1;
                proof {
                    let ps = tys_of(p@, p@.len() as int);
                    assert(out@ =~= start + ty_list_name(ps, i as int));
                }
            }
            out.append("], ");
            push_type_name(out, r);
            if *e {
                out.append(", true)");
            } else {
                out.append(", false)");
            }
            proof {
                assert(final(out)@ =~= old(out)@ + ty_name(t@));
            }
        },
        TypeValue::ExFunc(p, r) => {
            out.append("ExFunc([");
            let ghost start = out@;
            let mut i: usize = 0;
            proof {
                lemma_named_tys_of(p@, p@.len() as int);
            }
            while i < p.len()
                invariant
                    *t == TypeValue::ExFunc(*p, *r),
                    i <= p.len(),
                    named_tys_of(p@, p@.len() as int).len() == p@.len(),
                    forall|j: int|
                        0 <= j < p@.len() ==> #[trigger] named_tys_of(p@, p@.len() as int)[j] == (
                            p@[j].0@,
                            ty_of(p@[j].1),
                        ),
                    out@ == start + named_list_name(named_tys_of(p@, p@.len() as int), i as int),
                decreases p.len() - i,
            {
                proof {
                    vstd::std_specs::vec::axiom_vec_index_decreases(*p, i as int);
                    assert(decreases_to!(*t => t->ExFunc_0));
                    assert(decreases_to!(*p => p@));
                    assert(decreases_to!(p@ => p@[i as int]));
                }
                if i > 0 {
                    out.append(", ");
                }
                out.append(p[i].0.as_str());
                out.append(": ");
                push_type_name(out, &p[i].1);
                i = i + 1;
                proof {
                    let ps = named_tys_of(p@, p@.len() as int);
                    assert(out@ =~= start + named_list_name(ps, i as int));
                }
            }
            out.append("], ");
            push_type_name(out, r);
            out.append(")");
            proof {
                assert(final(out)@ =~= old(out)@ + ty_name(t@));
            }
        },
        TypeValue::Custom(s) => {
            out.append("Custom(");
            out.append(s.as_str());
            out.append(")");
        },
        TypeValue::EnumVariant(s) => {
            out.append("EnumVariant(");
            out.append(s.as_str());
            out.append(")");
        },
    }
    proof {
        assert(final(out)@ =~= old(out)@ + ty_name(t@));
    }
}

} // verus!
