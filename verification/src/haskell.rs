//! Textual translation of parsed definitions into Haskell-style equations.
//! Only atoms and applications occur in translatable bodies; the rest of
//! the language has no rendering here and is excluded by contract.

use vstd::prelude::*;

use crate::ast::{Expr, ExprV};
use crate::display::{atom_display, spec_atom_display};
use crate::eval::{closure_body, closure_params, lemma_expr_view_ctor, lemma_strs_view, split_closure, strs_view};

verus! {

broadcast use vstd::seq::group_seq_axioms, vstd::std_specs::vec::group_vec_axioms;

/// The fragment this backend can translate: atoms, and applications of
/// translatable expressions.
pub open spec fn hs_supported(e: ExprV) -> bool
    decreases e,
{
    match e {
        ExprV::Atom(_, _) => true,
        ExprV::App(callee, args, _) => hs_supported(*callee) && hs_supported_list(args),
        _ => false,
    }
}

/// Every expression of the list is translatable.
pub open spec fn hs_supported_list(s: Seq<ExprV>) -> bool
    decreases s,
{
    s.len() == 0 || (hs_supported_list(s.drop_last()) && hs_supported(s.last()))
}

/// In a translatable list, every element is translatable.
pub proof fn lemma_hs_list(s: Seq<ExprV>)
    ensures
        hs_supported_list(s) ==> forall|i: int| 0 <= i < s.len() ==> hs_supported(#[trigger] s[i]),
    decreases s,
{
    if s.len() > 0 {
        lemma_hs_list(s.drop_last());
        if hs_supported_list(s) {
            assert forall|i: int| 0 <= i < s.len() implies hs_supported(#[trigger] s[i]) by {
                if i < s.len() - 1 {
                    assert(s.drop_last()[i] == s[i]);
                }
            }
        }
    }
}

/// The rendering of a translatable expression: atoms print themselves,
/// an application is its callee followed by each argument, every argument
/// with one trailing space.
pub open spec fn spec_hs_expr(e: ExprV) -> Seq<char>
    decreases e,
{
    match e {
        ExprV::Atom(a, _) => spec_atom_display(a),
        ExprV::App(callee, args, _) => spec_hs_expr(*callee) + " "@ + spec_hs_args(args),
        _ => Seq::empty(),
    }
}

/// The concatenated renderings of an argument list, each followed by one
/// space.
pub open spec fn spec_hs_args(s: Seq<ExprV>) -> Seq<char>
    decreases s,
{
    if s.len() == 0 {
        Seq::empty()
    } else {
        spec_hs_args(s.drop_last()) + spec_hs_expr(s.last()) + " "@
    }
}

/// Render one translatable expression.
#[verifier::loop_isolation(false)]
pub fn code_gen_expr(expr: &Expr) -> (r: String)
    requires
        hs_supported(expr@),
    ensures
        r@ == spec_hs_expr(expr@),
    decreases *expr,
{
    match expr {
        Expr::Atom(a, _) => atom_display(a),
        Expr::App(callee, args, asp) => {
            proof {
                assert(decreases_to!(*expr => (*expr)->App_1));
                assert(decreases_to!(*args => args@));
                crate::ast::lemma_exprs_view(args@);
                assert(expr@ == ExprV::App(
                    Box::new(crate::ast::expr_view(**callee)),
                    crate::ast::exprs_view(args@),
                    *asp,
                ));
                assert(hs_supported_list(crate::ast::exprs_view(args@)));
                lemma_hs_list(crate::ast::exprs_view(args@));
            }
            let mut s = code_gen_expr(callee);
            s.append(" ");
            let mut i: usize = 0;
            while i < args.len()
                invariant
                    i <= args@.len(),
                    s@ == spec_hs_expr(*expr@->App_0) + " "@ + spec_hs_args(
                        crate::ast::exprs_view(args@).take(i as int),
                    ),
                decreases args@.len() - i,
            {
                proof {
                    assert(decreases_to!(args@ => args@[i as int]));
                    assert(hs_supported(crate::ast::exprs_view(args@)[i as int]));
                    assert(crate::ast::exprs_view(args@)[i as int] == crate::ast::expr_view(
                        args@[i as int],
                    ));
                }
                let piece = code_gen_expr(&args[i]);
                s.append(piece.as_str());
                s.append(" ");
                proof {
                    let v = crate::ast::exprs_view(args@);
                    assert(v.take(i + 1).drop_last() =~= v.take(i as int));
                    assert(v.take(i + 1).last() == v[i as int]);
                    assert(s@ =~= spec_hs_expr(*expr@->App_0) + " "@ + spec_hs_args(
                        v.take(i + 1),
                    ));
                }
                i = i + 1;
            }
            proof {
                let v = crate::ast::exprs_view(args@);
                assert(v.take(v.len() as int) =~= v);
            }
            s
        },
        _ => {
            proof {
                lemma_expr_view_ctor(*expr);
                assert(false);
            }
            String::new()
        },
    }
}

/// The rendering of one named definition: the name, each parameter with a
/// trailing space, an equals sign, and the translated innermost body.
pub open spec fn spec_hs_func(name: Seq<char>, params: Seq<Seq<char>>, body: ExprV) -> Seq<
    char,
> {
    name + spec_hs_params(params) + " = "@ + spec_hs_expr(body)
}

/// The concatenated parameter names, each followed by one space.
pub open spec fn spec_hs_params(s: Seq<Seq<char>>) -> Seq<char>
    decreases s,
{
    if s.len() == 0 {
        Seq::empty()
    } else {
        spec_hs_params(s.drop_last()) + s.last() + " "@
    }
}

/// The rendering of a whole program: each named definition in order;
/// other declarations have no Haskell form and are passed over.
pub open spec fn spec_hs_program(ds: Seq<ExprV>) -> Seq<char>
    decreases ds,
{
    if ds.len() == 0 {
        Seq::empty()
    } else {
        spec_hs_program(ds.drop_last()) + match ds.last() {
            ExprV::Func(name, _, body, _) => spec_hs_func(
                name,
                closure_params(*body),
                closure_body(*body),
            ),
            _ => Seq::empty(),
        }
    }
}

/// Translate every named definition of a program.
#[verifier::loop_isolation(false)]
pub fn haskell_code_gen(funcs: &Vec<Expr>) -> (r: String)
    requires
        forall|i: int|
            0 <= i < funcs@.len() ==> match (#[trigger] funcs@[i])@ {
                ExprV::Func(_, _, body, _) => hs_supported(closure_body(*body)),
                _ => true,
            },
    ensures
        r@ == spec_hs_program(crate::ast::exprs_view(funcs@)),
{
    let ghost dv = crate::ast::exprs_view(funcs@);
    proof {
        crate::ast::lemma_exprs_view(funcs@);
    }
    let mut code = String::new();
    let mut i: usize = 0;
    proof {
        assert(dv.take(0) =~= Seq::<ExprV>::empty());
    }
    while i < funcs.len()
        invariant
            i <= funcs@.len(),
            code@ == spec_hs_program(dv.take(i as int)),
        decreases funcs@.len() - i,
    {
        proof {
            assert(dv.take(i + 1).drop_last() =~= dv.take(i as int));
            assert(dv.take(i + 1).last() == dv[i as int]);
            crate::eval::lemma_expr_view_ctor(funcs@[i as int]);
        }
        match &funcs[i] {
            Expr::Func(name, _, body, _) => {
                proof {
                    assert(dv[i as int]->Func_0 == name@);
                    assert(expr_view_body(dv[i as int]) == crate::ast::expr_view(**body));
                }
                code.append(name.as_str());
                let (params, inner) = split_closure(body);
                let mut j: usize = 0;
                proof {
                    lemma_strs_view(params@);
                    assert(spec_hs_params(strs_view(params@).take(0)) =~= Seq::<char>::empty());
                    assert(code@ =~= spec_hs_program(dv.take(i as int)) + dv[i as int]->Func_0
                        + spec_hs_params(strs_view(params@).take(0)));
                }
                while j < params.len()
                    invariant
                        0 <= i < funcs@.len(),
                        j <= params@.len(),
                        strs_view(params@) == closure_params(expr_view_body(dv[i as int])),
                        code@ == spec_hs_program(dv.take(i as int)) + dv[i as int]->Func_0
                            + spec_hs_params(strs_view(params@).take(j as int)),
                    decreases params@.len() - j,
                {
                    code.append(params[j].as_str());
                    code.append(" ");
                    proof {
                        let pv = strs_view(params@);
                        assert(pv.take(j + 1).drop_last() =~= pv.take(j as int));
                        assert(pv.take(j + 1).last() == pv[j as int]);
                        assert(code@ =~= spec_hs_program(dv.take(i as int)) + dv[i as int]->Func_0
                            + spec_hs_params(pv.take(j + 1)));
                    }
                    j = j + 1;
                }
                code.append(" = ");
                let piece = code_gen_expr(&inner);
                code.append(piece.as_str());
                proof {
                    let pv = strs_view(params@);
                    assert(pv.take(pv.len() as int) =~= pv);
                    assert(code@ =~= spec_hs_program(dv.take(i + 1)));
                }
            },
            _ => {
                proof {
                    assert(spec_hs_program(dv.take(i + 1)) =~= spec_hs_program(
                        dv.take(i as int),
                    ));
                }
            },
        }
        i = i + 1;
    }
    proof {
        assert(dv.take(dv.len() as int) =~= dv);
    }
    code
}

/// The body a definition's parameters wrap.
pub open spec fn expr_view_body(d: ExprV) -> ExprV {
    match d {
        ExprV::Func(_, _, body, _) => *body,
        _ => d,
    }
}

} // verus!
