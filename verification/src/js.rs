//! Textual translation of parsed definitions into JavaScript, prettified
//! by an outside formatter. The translatable fragment excludes array
//! atoms and applications whose callee is not a plain name.

use vstd::prelude::*;

use crate::ast::{exprs_view, Atom, AtomV, Expr, ExprV};
use crate::display::{i64_to_string, spec_int_str, spec_op_str, op_str};
use crate::eval::{lemma_atom_view_ctor, lemma_expr_view_ctor};

verus! {

broadcast use vstd::seq::group_seq_axioms, vstd::std_specs::vec::group_vec_axioms;

/// The rendering of a literal or name: strings are quoted, everything
/// else prints itself.
pub open spec fn spec_gen_atom(a: AtomV) -> Seq<char> {
    match a {
        AtomV::Id(s) => s,
        AtomV::Int(v) => spec_int_str(v as int),
        AtomV::Float(s) => s,
        AtomV::Bool(b) => if b {
            "true"@
        } else {
            "false"@
        },
        AtomV::Str(s) => "\""@ + s + "\""@,
        AtomV::Char(s) => s,
        AtomV::Array(_) => Seq::empty(),
    }
}

/// The fragment the code generators translate: no array atoms, and every
/// application's callee a plain name.
pub open spec fn gen_supported(e: ExprV) -> bool
    decreases e,
{
    match e {
        ExprV::Atom(a, _) => !(a is Array),
        ExprV::Unary(_, r, _) => gen_supported(*r),
        ExprV::Binary(_, l, r, _) => gen_supported(*l) && gen_supported(*r),
        ExprV::IfElse(c, t, f, _) => gen_supported(*c) && gen_supported(*t) && gen_supported(*f),
        ExprV::Closure(h, b, _) => gen_supported(*h) && gen_supported(*b),
        ExprV::App(callee, args, _) => (*callee matches ExprV::Atom(AtomV::Id(_), _))
            && gen_supported_list(args),
        ExprV::Array(items, _) => gen_supported_list(items),
        _ => false,
    }
}

/// Every expression of the list is translatable.
pub open spec fn gen_supported_list(s: Seq<ExprV>) -> bool
    decreases s,
{
    s.len() == 0 || (gen_supported_list(s.drop_last()) && gen_supported(s.last()))
}

/// In a translatable list, every element is translatable.
pub proof fn lemma_gen_list(s: Seq<ExprV>)
    ensures
        gen_supported_list(s) ==> forall|i: int|
            0 <= i < s.len() ==> gen_supported(#[trigger] s[i]),
    decreases s,
{
    if s.len() > 0 {
        lemma_gen_list(s.drop_last());
        if gen_supported_list(s) {
            assert forall|i: int| 0 <= i < s.len() implies gen_supported(#[trigger] s[i]) by {
                if i < s.len() - 1 {
                    assert(s.drop_last()[i] == s[i]);
                }
            }
        }
    }
}

/// Render a literal or name.
pub fn gen_atom(a: &Atom) -> (r: String)
    requires
        !(a@ is Array),
    ensures
        r@ == spec_gen_atom(a@),
{
    match a {
        Atom::Id(s) => s.clone(),
        Atom::Int(v) => i64_to_string(*v),
        Atom::Float(s) => s.clone(),
        Atom::Bool(b) => {
            if *b {
                String::from_str("true")
            } else {
                String::from_str("false")
            }
        },
        Atom::Str(s) => {
            let mut r = String::from_str("\"");
            r.append(s.as_str());
            r.append("\"");
            proof {
                assert(r@ =~= spec_gen_atom(a@));
            }
            r
        },
        Atom::Char(s) => s.clone(),
        Atom::Array(_) => {
            proof {
                lemma_atom_view_ctor(*a);
                assert(false);
            }
            String::new()
        },
    }
}

/// The JavaScript rendering of a translatable expression.
pub open spec fn spec_js_expr(e: ExprV) -> Seq<char>
    decreases e,
{
    match e {
        ExprV::Atom(a, _) => spec_gen_atom(a),
        ExprV::Unary(op, r, _) => "("@ + spec_op_str(op) + " "@ + spec_js_expr(*r) + ")"@,
        ExprV::Binary(op, l, r, _) => "("@ + spec_js_expr(*l) + " "@ + spec_op_str(op) + " "@
            + spec_js_expr(*r) + ")"@,
        ExprV::IfElse(c, t, f, _) => "("@ + spec_js_expr(*c) + " ? "@ + spec_js_expr(*t) + " : "@
            + spec_js_expr(*f) + ")"@,
        ExprV::Closure(h, b, _) => "("@ + spec_js_expr(*h) + ") => "@ + spec_js_expr(*b),
        ExprV::App(callee, args, _) => spec_js_expr(*callee) + "("@ + spec_js_join(args) + ")"@,
        ExprV::Array(items, _) => "["@ + spec_js_join(items) + "]"@,
        _ => Seq::empty(),
    }
}

/// Comma-joined renderings of a list.
pub open spec fn spec_js_join(s: Seq<ExprV>) -> Seq<char>
    decreases s,
{
    if s.len() == 0 {
        Seq::empty()
    } else if s.len() == 1 {
        spec_js_expr(s[0])
    } else {
        spec_js_join(s.drop_last()) + ","@ + spec_js_expr(s.last())
    }
}

/// Render one translatable expression as JavaScript.
#[verifier::loop_isolation(false)]
pub fn gen_expr(e: &Expr) -> (r: String)
    requires
        gen_supported(e@),
    ensures
        r@ == spec_js_expr(e@),
    decreases *e,
{
    match e {
        Expr::Atom(a, _) => gen_atom(a),
        Expr::Unary(op, rhs, _) => {
            let mut s = String::from_str("(");
            s.append(op_str(*op));
            s.append(" ");
            s.append(gen_expr(rhs).as_str());
            s.append(")");
            proof {
                assert(s@ =~= spec_js_expr(e@));
            }
            s
        },
        Expr::Binary(op, lhs, rhs, _) => {
            let mut s = String::from_str("(");
            s.append(gen_expr(lhs).as_str());
            s.append(" ");
            s.append(op_str(*op));
            s.append(" ");
            s.append(gen_expr(rhs).as_str());
            s.append(")");
            proof {
                assert(s@ =~= spec_js_expr(e@));
            }
            s
        },
        Expr::IfElse(c, t, f, _) => {
            let mut s = String::from_str("(");
            s.append(gen_expr(c).as_str());
            s.append(" ? ");
            s.append(gen_expr(t).as_str());
            s.append(" : ");
            s.append(gen_expr(f).as_str());
            s.append(")");
            proof {
                assert(s@ =~= spec_js_expr(e@));
            }
            s
        },
        Expr::Closure(h, b, _) => {
            let mut s = String::from_str("(");
            s.append(gen_expr(h).as_str());
            s.append(") => ");
            s.append(gen_expr(b).as_str());
            proof {
                assert(s@ =~= spec_js_expr(e@));
            }
            s
        },
        Expr::App(callee, args, asp) => {
            proof {
                assert(decreases_to!(*e => (*e)->App_1));
                assert(decreases_to!(*args => args@));
                crate::ast::lemma_exprs_view(args@);
                assert(e@ == ExprV::App(
                    Box::new(crate::ast::expr_view(**callee)),
                    exprs_view(args@),
                    *asp,
                ));
                assert(gen_supported_list(exprs_view(args@)));
                lemma_gen_list(exprs_view(args@));
                assert(gen_supported(crate::ast::expr_view(**callee)));
            }
            let mut s = gen_expr(callee);
            s.append("(");
            let mut i: usize = 0;
            while i < args.len()
                invariant
                    i <= args@.len(),
                    s@ == spec_js_expr(*e@->App_0) + "("@ + spec_js_join(
                        exprs_view(args@).take(i as int),
                    ),
                decreases args@.len() - i,
            {
                proof {
                    assert(decreases_to!(args@ => args@[i as int]));
                    assert(gen_supported(exprs_view(args@)[i as int]));
                }
                if i > 0 {
                    s.append(",");
                }
                let piece = gen_expr(&args[i]);
                s.append(piece.as_str());
                proof {
                    let v = exprs_view(args@);
                    assert(v.take(i + 1).drop_last() =~= v.take(i as int));
                    assert(v.take(i + 1).last() == v[i as int]);
                    assert(s@ =~= spec_js_expr(*e@->App_0) + "("@ + spec_js_join(v.take(i + 1)));
                }
                i = i + 1;
            }
            s.append(")");
            proof {
                let v = exprs_view(args@);
                assert(v.take(v.len() as int) =~= v);
                assert(s@ =~= spec_js_expr(e@));
            }
            s
        },
        Expr::Array(items, asp) => {
            proof {
                assert(decreases_to!(*e => (*e)->Array_0));
                assert(decreases_to!(*items => items@));
                crate::ast::lemma_exprs_view(items@);
                assert(e@ == ExprV::Array(exprs_view(items@), *asp));
                assert(gen_supported_list(exprs_view(items@)));
                lemma_gen_list(exprs_view(items@));
            }
            let mut s = String::from_str("[");
            let mut i: usize = 0;
            while i < items.len()
                invariant
                    i <= items@.len(),
                    s@ == "["@ + spec_js_join(exprs_view(items@).take(i as int)),
                decreases items@.len() - i,
            {
                proof {
                    assert(decreases_to!(items@ => items@[i as int]));
                    assert(gen_supported(exprs_view(items@)[i as int]));
                }
                if i > 0 {
                    s.append(",");
                }
                let piece = gen_expr(&items[i]);
                s.append(piece.as_str());
                proof {
                    let v = exprs_view(items@);
                    assert(v.take(i + 1).drop_last() =~= v.take(i as int));
                    assert(v.take(i + 1).last() == v[i as int]);
                    assert(s@ =~= "["@ + spec_js_join(v.take(i + 1)));
                }
                i = i + 1;
            }
            s.append("]");
            proof {
                let v = exprs_view(items@);
                assert(v.take(v.len() as int) =~= v);
                assert(s@ =~= spec_js_expr(e@));
            }
            s
        },
        _ => {
            proof {
                lemma_expr_view_ctor(*e);
                assert(false);
            }
            String::new()
        },
    }
}

/// Whether an expression lies in the translatable fragment, as
/// executable code, so callers can test before asking for a translation.
#[verifier::loop_isolation(false)]
pub fn translatable(e: &Expr) -> (r: bool)
    ensures
        r == gen_supported(e@),
    decreases *e,
{
    match e {
        Expr::Atom(a, _) => {
            proof {
                lemma_atom_view_ctor(*a);
            }
            match a {
                Atom::Array(_) => false,
                _ => true,
            }
        },
        Expr::Unary(_, r0, _) => translatable(r0),
        Expr::Binary(_, l, r0, _) => translatable(l) && translatable(r0),
        Expr::IfElse(c, t, f, _) => translatable(c) && translatable(t) && translatable(f),
        Expr::Closure(h, b, _) => translatable(h) && translatable(b),
        Expr::App(callee, args, asp) => {
            proof {
                assert(decreases_to!(*e => (*e)->App_1));
                assert(decreases_to!(*args => args@));
                crate::ast::lemma_exprs_view(args@);
                assert(e@ == ExprV::App(
                    Box::new(crate::ast::expr_view(**callee)),
                    exprs_view(args@),
                    *asp,
                ));
                lemma_expr_view_ctor(**callee);
                match &**callee {
                    Expr::Atom(a, _) => {
                        lemma_atom_view_ctor(*a);
                    },
                    _ => {},
                }
            }
            let head_ok = match &**callee {
                Expr::Atom(Atom::Id(_), _) => true,
                _ => false,
            };
            if !head_ok {
                return false;
            }
            let ghost av = exprs_view(args@);
            let mut i: usize = 0;
            let mut ok = true;
            while i < args.len()
                invariant
                    i <= args@.len(),
                    ok == gen_supported_list(av.take(i as int)),
                decreases args@.len() - i,
            {
                proof {
                    assert(decreases_to!(args@ => args@[i as int]));
                    assert(av.take(i + 1).drop_last() =~= av.take(i as int));
                    assert(av.take(i + 1).last() == av[i as int]);
                }
                if !translatable(&args[i]) {
                    ok = false;
                }
                i = i + 1;
            }
            proof {
                assert(av.take(av.len() as int) =~= av);
            }
            ok
        },
        Expr::Array(items, asp) => {
            proof {
                assert(decreases_to!(*e => (*e)->Array_0));
                assert(decreases_to!(*items => items@));
                crate::ast::lemma_exprs_view(items@);
                assert(e@ == ExprV::Array(exprs_view(items@), *asp));
            }
            let ghost av = exprs_view(items@);
            let mut i: usize = 0;
            let mut ok = true;
            while i < items.len()
                invariant
                    i <= items@.len(),
                    ok == gen_supported_list(av.take(i as int)),
                decreases items@.len() - i,
            {
                proof {
                    assert(decreases_to!(items@ => items@[i as int]));
                    assert(av.take(i + 1).drop_last() =~= av.take(i as int));
                    assert(av.take(i + 1).last() == av[i as int]);
                }
                if !translatable(&items[i]) {
                    ok = false;
                }
                i = i + 1;
            }
            proof {
                assert(av.take(av.len() as int) =~= av);
            }
            ok
        },
        _ => {
            proof {
                lemma_expr_view_ctor(*e);
            }
            false
        },
    }
}

/// The rendering of one named definition.
pub open spec fn spec_js_func(name: Seq<char>, body: ExprV) -> Seq<char> {
    "const "@ + name + " = "@ + spec_js_expr(body)
}

/// Render one named definition.
pub fn gen_function(name: &String, body: &Expr) -> (r: String)
    requires
        gen_supported(body@),
    ensures
        r@ == spec_js_func(name@, body@),
{
    let mut s = String::from_str("const ");
    s.append(name.as_str());
    s.append(" = ");
    s.append(gen_expr(body).as_str());
    proof {
        assert(s@ =~= spec_js_func(name@, body@));
    }
    s
}

/// The raw program: every definition's rendering, joined by newlines.
pub open spec fn spec_js_program(ds: Seq<ExprV>) -> Seq<char>
    decreases ds,
{
    if ds.len() == 0 {
        Seq::empty()
    } else if ds.len() == 1 {
        spec_js_func(ds[0]->Func_0, *ds[0]->Func_2)
    } else {
        spec_js_program(ds.drop_last()) + "\n"@ + spec_js_func(
            ds.last()->Func_0,
            *ds.last()->Func_2,
        )
    }
}

/// A nonempty program's text starts with its first `const` keyword.
pub proof fn lemma_js_program_head(ds: Seq<ExprV>)
    requires
        ds.len() >= 1,
    ensures
        spec_js_program(ds).len() >= 1,
        spec_js_program(ds)[0] == 'c',
    decreases ds,
{
    reveal_strlit("const ");
    if ds.len() > 1 {
        lemma_js_program_head(ds.drop_last());
    }
}

/// What the outside prettyprinter returns on a program text.
pub uninterp spec fn pretty_of(s: Seq<char>) -> Seq<char>;

/// Relies on prettify_js::prettyprint: the prettified text is a function
/// of the source text alone. The source must not open with a closing
/// brace, which the formatter cannot place.
#[verifier::external_body]
fn prettify(src: &str) -> (r: String)
    requires
        src@.len() == 0 || src@[0] == 'c',
    ensures
        r@ == pretty_of(src@),
{
    let (pretty, _) = prettify_js::prettyprint(src);
    pretty
}

/// Translate a program of named definitions to prettified JavaScript.
#[verifier::loop_isolation(false)]
pub fn gen_code(input: &Vec<Expr>) -> (r: Option<String>)
    requires
        forall|i: int|
            0 <= i < input@.len() ==> ((#[trigger] input@[i])@ matches ExprV::Func(
                _,
                _,
                body,
                _,
            ) && gen_supported(*body)),
    ensures
        r matches Some(p) && p@ == pretty_of(spec_js_program(exprs_view(input@))),
{
    let ghost dv = exprs_view(input@);
    proof {
        crate::ast::lemma_exprs_view(input@);
        assert(dv.take(0) =~= Seq::<ExprV>::empty());
    }
    let mut program = String::new();
    let mut i: usize = 0;
    while i < input.len()
        invariant
            i <= input@.len(),
            program@ == spec_js_program(dv.take(i as int)),
        decreases input@.len() - i,
    {
        proof {
            assert(dv.take(i + 1).drop_last() =~= dv.take(i as int));
            assert(dv.take(i + 1).last() == dv[i as int]);
        }
        match &input[i] {
            Expr::Func(name, _, body, _) => {
                if i > 0 {
                    program.append("\n");
                }
                let piece = gen_function(name, body);
                program.append(piece.as_str());
                proof {
                    assert(dv[i as int]->Func_0 == name@);
                    assert(*dv[i as int]->Func_2 == crate::ast::expr_view(**body));
                    if i == 0 {
                        assert(program@ =~= spec_js_program(dv.take(1)));
                    } else {
                        assert(program@ =~= spec_js_program(dv.take(i + 1)));
                    }
                }
            },
            _ => {
                proof {
                    assert(false);
                }
            },
        }
        i = i + 1;
    }
    proof {
        assert(dv.take(dv.len() as int) =~= dv);
        if input@.len() >= 1 {
            lemma_js_program_head(dv);
        }
    }
    let pretty = prettify(program.as_str());
    Some(pretty)
}

} // verus!
