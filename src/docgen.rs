use vstd::prelude::*;

use crate::ast::DocComment;
use crate::mdir::{Function, MiddleIR};
use crate::text::{push_type_name, ty_name};

verus! {

/// The parameters of a function as `name : type` pieces, one after the other.
pub open spec fn params_doc(ps: Seq<(Seq<char>, crate::ast::Ty)>, n: int) -> Seq<char>
    decreases n,
{
    if n <= 0 || n > ps.len() {
        Seq::empty()
    } else {
        params_doc(ps, n - 1) + ps[n - 1].0 + " : "@ + ty_name(ps[n - 1].1)
    }
}

/// The documentation of the first `n` comments.
pub open spec fn docs_text(ds: Seq<Seq<char>>, n: int) -> Seq<char>
    decreases n,
{
    if n <= 0 || n > ds.len() {
        Seq::empty()
    } else {
        docs_text(ds, n - 1) + ds[n - 1]
    }
}

/// The documentation of one function: its signature, then its doc comments.
pub open spec fn fun_doc(f: crate::mdir::Fun) -> Seq<char> {
    f.name + "("@ + params_doc(f.params, f.params.len() as int) + ")"@ + ty_name(f.ret)
        + " \n\n"@ + docs_text(f.docs, f.docs.len() as int)
}

/// The documentation of the first `n` functions.
pub open spec fn funs_doc(fs: Seq<crate::mdir::Fun>, n: int) -> Seq<char>
    decreases n,
{
    if n <= 0 || n > fs.len() {
        Seq::empty()
    } else {
        funs_doc(fs, n - 1) + fun_doc(fs[n - 1])
    }
}

fn function_doc(out: &mut String, f: &Function)
    ensures
        final(out)@ == old(out)@ + fun_doc(crate::mdir::fun_of(*f)),
{
    let ghost fv = crate::mdir::fun_of(*f);
    out.append(f.name.as_str());
    out.append("(");
    let ghost start = out@;
    proof {
        crate::ast::lemma_named_tys_of(f.params@, f.params@.len() as int);
    }
    let mut i: usize = 0;
    while i < f.params.len()
        invariant
            i <= f.params@.len(),
            fv == crate::mdir::fun_of(*f),
            fv.params.len() == f.params@.len(),
            forall|j: int|
                0 <= j < f.params@.len() ==> #[trigger] fv.params[j] == (
                    f.params@[j].0@,
                    f.params@[j].1@,
                ),
            out@ == start + params_doc(fv.params, i as int),
        decreases f.params.len() - i,
    {
        out.append(f.params[i].0.as_str());
        out.append(" : ");
        push_type_name(out, &f.params[i].1);
        i = i + 1;
        proof {
            assert(out@ =~= start + params_doc(fv.params, i as int));
        }
    }
    out.append(")");
    push_type_name(out, &f.return_type);
    out.append(" \n\n");
    let ghost mid = out@;
    let mut j: usize = 0;
    while j < f.doc_comments.len()
        invariant
            j <= f.doc_comments@.len(),
            fv == crate::mdir::fun_of(*f),
            fv.docs == f.doc_comments@.map_values(|d: DocComment| d.md@),
            out@ == mid + docs_text(fv.docs, j as int),
        decreases f.doc_comments.len() - j,
    {
        out.append(f.doc_comments[j].md.as_str());
        j = j + 1;
        proof {
            assert(out@ =~= mid + docs_text(fv.docs, j as int));
        }
    }
    proof {
        assert(final(out)@ =~= old(out)@ + fun_doc(fv));
    }
}

/// The documentation of a checked module: for each function, its signature and its doc
/// comments.
pub fn gen_docs(mdir: MiddleIR) -> (r: String)
    ensures
        r@ == funs_doc(mdir@.functions, mdir@.functions.len() as int),
{
    let mut result = String::new();
    let mut i: usize = 0;
    while i < mdir.functions.len()
        invariant
            i <= mdir.functions@.len(),
            mdir@.functions.len() == mdir.functions@.len(),
            forall|j: int| 0 <= j < mdir.functions@.len() ==> #[trigger] mdir@.functions[j]
                == crate::mdir::fun_of(mdir.functions@[j]),
            result@ == funs_doc(mdir@.functions, i as int),
        decreases mdir.functions.len() - i,
    {
        function_doc(&mut result, &mdir.functions[i]);
        i = i + 1;
    }
    result
}

} // verus!
