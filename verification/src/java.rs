//! Textual translation of parsed definitions into Java, each definition a
//! function-typed member, application via `Function.apply` chains. The
//! declared-type list is consumed front to back as closure parameters are
//! typed.

use vstd::prelude::*;

use crate::ast::{exprs_view, Atom, Expr, ExprV, TypeInfo, TypeInfoV};
use crate::display::{spec_nat_str, spec_op_str, op_str, u64_to_string};
use crate::eval::{lemma_expr_view_ctor};
use crate::js::{gen_atom, gen_supported, gen_supported_list, lemma_gen_list, spec_gen_atom};

verus! {

broadcast use vstd::seq::group_seq_axioms, vstd::std_specs::vec::group_vec_axioms;

/// The element-wise view of a declared-type list.
pub open spec fn types_view(ts: Seq<TypeInfo>) -> Seq<TypeInfoV> {
    Seq::new(ts.len(), |i: int| ts[i]@)
}

/// The Java name of a declared type.
pub open spec fn spec_java_type(t: TypeInfoV) -> Seq<char> {
    match t {
        TypeInfoV::Int => "Integer"@,
        TypeInfoV::Float => "Float"@,
        TypeInfoV::Bool => "Boolean"@,
        TypeInfoV::Str => "String"@,
        TypeInfoV::Char => "Char"@,
        TypeInfoV::Custom(v) => v,
    }
}

/// The Java name of a declared type, as executable code.
pub fn type_to_gen(t: &TypeInfo) -> (r: String)
    ensures
        r@ == spec_java_type(t@),
{
    match t {
        TypeInfo::Int => String::from_str("Integer"),
        TypeInfo::Float => String::from_str("Float"),
        TypeInfo::Bool => String::from_str("Boolean"),
        TypeInfo::Str => String::from_str("String"),
        TypeInfo::Char => String::from_str("Char"),
        TypeInfo::Custom(v) => v.clone(),
    }
}

/// Take the next declared type off the front of the list, or `Object`
/// when the list is exhausted.
pub open spec fn spec_top_arg(types: Seq<TypeInfoV>, ti: int) -> (Seq<char>, int) {
    if ti < types.len() {
        (spec_java_type(types[ti]), ti + 1)
    } else {
        ("Object"@, ti)
    }
}

/// The Java rendering of a translatable expression, together with the
/// position reached in the declared-type list.
pub open spec fn spec_java_expr(types: Seq<TypeInfoV>, ti: int, e: ExprV) -> (Seq<char>, int)
    decreases e, 0int,
{
    match e {
        ExprV::Atom(a, _) => (spec_gen_atom(a), ti),
        ExprV::Unary(op, r, _) => {
            let (rs, t1) = spec_java_expr(types, ti, *r);
            ("("@ + spec_op_str(op) + " "@ + rs + ")"@, t1)
        },
        ExprV::Binary(op, l, r, _) => {
            let (ls, t1) = spec_java_expr(types, ti, *l);
            let (rs, t2) = spec_java_expr(types, t1, *r);
            ("("@ + ls + " "@ + spec_op_str(op) + " "@ + rs + ")"@, t2)
        },
        ExprV::IfElse(c, t, f, _) => {
            let (cs, t1) = spec_java_expr(types, ti, *c);
            let (ts, t2) = spec_java_expr(types, t1, *t);
            let (fs, t3) = spec_java_expr(types, t2, *f);
            ("("@ + cs + " ? "@ + ts + " : "@ + fs + ")"@, t3)
        },
        ExprV::Closure(h, b, _) => {
            let (ty, t1) = spec_top_arg(types, ti);
            let (hs, t2) = spec_java_expr(types, t1, *h);
            let (bs, t3) = spec_java_expr(types, t2, *b);
            ("("@ + ty + " "@ + hs + ") -> "@ + bs, t3)
        },
        ExprV::App(callee, args, _) => {
            let name = spec_app_name(*callee);
            spec_java_app(name, types, ti, args, args.len() as int)
        },
        ExprV::Array(items, _) => {
            let (vs, t1) = spec_java_join(types, ti, items);
            ("["@ + vs + "]"@, t1)
        },
        _ => (Seq::empty(), ti),
    }
}

/// The callee name of a translatable application.
pub open spec fn spec_app_name(callee: ExprV) -> Seq<char> {
    match callee {
        ExprV::Atom(crate::ast::AtomV::Id(n), _) => n,
        _ => Seq::empty(),
    }
}

/// Comma-joined renderings of a list, the type position threaded through
/// in order.
pub open spec fn spec_java_join(types: Seq<TypeInfoV>, ti: int, s: Seq<ExprV>) -> (
    Seq<char>,
    int,
)
    decreases s, 0int,
{
    if s.len() == 0 {
        (Seq::empty(), ti)
    } else if s.len() == 1 {
        spec_java_expr(types, ti, s[0])
    } else {
        let (ps, t1) = spec_java_join(types, ti, s.drop_last());
        let (ls, t2) = spec_java_expr(types, t1, s.last());
        (ps + ","@ + ls, t2)
    }
}

/// One line of an application chain: the first call applies the named
/// function, each further argument is applied to the previous result, and
/// the last line yields the chain's value.
pub open spec fn spec_java_line(name: Seq<char>, i: int, size: int, es: Seq<char>) -> Seq<char> {
    if i == 0 {
        "var "@ + name + "_"@ + spec_nat_str(i) + " = "@ + name + "().apply("@ + es + ");"@
    } else if i < size - 1 {
        "\tvar "@ + name + "_"@ + spec_nat_str(i) + " = ((Function<?, ?>) "@ + name + "_"@
            + spec_nat_str(i - 1) + ").apply("@ + es + ");"@
    } else {
        "\t((Function<?, ?>) "@ + name + "_"@ + spec_nat_str(i - 1) + ").apply("@ + es + ");"@
    }
}

/// The newline-joined first `k` lines of an application chain.
pub open spec fn spec_java_app(
    name: Seq<char>,
    types: Seq<TypeInfoV>,
    ti: int,
    args: Seq<ExprV>,
    k: int,
) -> (Seq<char>, int)
    decreases args, (if k >= 0 {
        k
    } else {
        0int
    }), 1int,
{
    if k <= 0 || k > args.len() {
        (Seq::empty(), ti)
    } else {
        let (prev, t1) = spec_java_app(name, types, ti, args, k - 1);
        let (es, t2) = spec_java_expr(types, t1, args[k - 1]);
        let line = spec_java_line(name, k - 1, args.len() as int, es);
        if k == 1 {
            (line, t2)
        } else {
            (prev + "\n"@ + line, t2)
        }
    }
}

/// Render one translatable expression as Java, advancing the type
/// position.
#[verifier::loop_isolation(false)]
pub fn gen_expr(types: &Vec<TypeInfo>, ti: usize, e: &Expr) -> (r: (String, usize))
    requires
        gen_supported(e@),
        ti <= types@.len(),
    ensures
        (r.0@, r.1 as int) == spec_java_expr(types_view(types@), ti as int, e@),
        r.1 <= types@.len(),
    decreases *e, 1int,
{
    let ghost tv = types_view(types@);
    match e {
        Expr::Atom(a, _) => (gen_atom(a), ti),
        Expr::Unary(op, rhs, _) => {
            let (rs, t1) = gen_expr(types, ti, rhs);
            let mut s = String::from_str("(");
            s.append(op_str(*op));
            s.append(" ");
            s.append(rs.as_str());
            s.append(")");
            proof {
                assert(s@ =~= spec_java_expr(tv, ti as int, e@).0);
            }
            (s, t1)
        },
        Expr::Binary(op, lhs, rhs, _) => {
            let (ls, t1) = gen_expr(types, ti, lhs);
            let (rs, t2) = gen_expr(types, t1, rhs);
            let mut s = String::from_str("(");
            s.append(ls.as_str());
            s.append(" ");
            s.append(op_str(*op));
            s.append(" ");
            s.append(rs.as_str());
            s.append(")");
            proof {
                assert(s@ =~= spec_java_expr(tv, ti as int, e@).0);
            }
            (s, t2)
        },
        Expr::IfElse(c, t, f, _) => {
            let (cs, t1) = gen_expr(types, ti, c);
            let (ts, t2) = gen_expr(types, t1, t);
            let (fs, t3) = gen_expr(types, t2, f);
            let mut s = String::from_str("(");
            s.append(cs.as_str());
            s.append(" ? ");
            s.append(ts.as_str());
            s.append(" : ");
            s.append(fs.as_str());
            s.append(")");
            proof {
                assert(s@ =~= spec_java_expr(tv, ti as int, e@).0);
            }
            (s, t3)
        },
        Expr::Closure(h, b, _) => {
            let (ty, t1) = if ti < types.len() {
                (type_to_gen(&types[ti]), ti + 1)
            } else {
                (String::from_str("Object"), ti)
            };
            let (hs, t2) = gen_expr(types, t1, h);
            let (bs, t3) = gen_expr(types, t2, b);
            let mut s = String::from_str("(");
            s.append(ty.as_str());
            s.append(" ");
            s.append(hs.as_str());
            s.append(") -> ");
            s.append(bs.as_str());
            proof {
                assert(s@ =~= spec_java_expr(tv, ti as int, e@).0);
            }
            (s, t3)
        },
        Expr::App(callee, args, asp) => {
            proof {
                assert(decreases_to!(*e => (*e)->App_1));
                assert(decreases_to!(*args => args@));
                crate::ast::lemma_exprs_view(args@);
                assert(e@ == ExprV::App(
                    Box::new(crate::ast::expr_view(**callee)),
                    exprs_view(args@),
                    *asp,
                ));
                assert(gen_supported_list(exprs_view(args@)));
                lemma_gen_list(exprs_view(args@));
            }
            let name = match &**callee {
                Expr::Atom(Atom::Id(n), _) => n.clone(),
                _ => {
                    proof {
                        lemma_expr_view_ctor(**callee);
                        match &**callee {
                            Expr::Atom(a, _) => {
                                crate::eval::lemma_atom_view_ctor(*a);
                            },
                            _ => {},
                        }
                        assert(false);
                    }
                    String::new()
                },
            };
            let ghost av = exprs_view(args@);
            let mut s = String::new();
            let mut cur: usize = ti;
            let mut i: usize = 0;
            while i < args.len()
                invariant
                    i <= args@.len(),
                    cur <= types@.len(),
                    name@ == spec_app_name(*e@->App_0),
                    (s@, cur as int) == spec_java_app(name@, tv, ti as int, av, i as int),
                decreases args@.len() - i,
            {
                proof {
                    assert(decreases_to!(av => av[i as int]));
                    assert(gen_supported(av[i as int]));
                }
                let (es, t2) = gen_expr(types, cur, &args[i]);
                let line_start = if i == 0 {
                    let mut l = String::from_str("var ");
                    l.append(name.as_str());
                    l.append("_");
                    l.append(u64_to_string(i as u64).as_str());
                    l.append(" = ");
                    l.append(name.as_str());
                    l.append("().apply(");
                    l.append(es.as_str());
                    l.append(");");
                    l
                } else if i < args.len() - 1 {
                    let mut l = String::from_str("\tvar ");
                    l.append(name.as_str());
                    l.append("_");
                    l.append(u64_to_string(i as u64).as_str());
                    l.append(" = ((Function<?, ?>) ");
                    l.append(name.as_str());
                    l.append("_");
                    l.append(u64_to_string((i - 1) as u64).as_str());
                    l.append(").apply(");
                    l.append(es.as_str());
                    l.append(");");
                    l
                } else {
                    let mut l = String::from_str("\t((Function<?, ?>) ");
                    l.append(name.as_str());
                    l.append("_");
                    l.append(u64_to_string((i - 1) as u64).as_str());
                    l.append(").apply(");
                    l.append(es.as_str());
                    l.append(");");
                    l
                };
                if i > 0 {
                    s.append("\n");
                }
                s.append(line_start.as_str());
                proof {
                    assert(line_start@ =~= spec_java_line(
                        name@,
                        i as int,
                        av.len() as int,
                        es@,
                    ));
                    assert((s@, t2 as int) =~= spec_java_app(name@, tv, ti as int, av, i + 1));
                }
                cur = t2;
                i = i + 1;
            }
            proof {
                assert((s@, cur as int) == spec_java_expr(tv, ti as int, e@));
            }
            (s, cur)
        },
        Expr::Array(items, asp) => {
            proof {
                assert(decreases_to!(*e => (*e)->Array_0));
                assert(decreases_to!(*items => items@));
                crate::ast::lemma_exprs_view(items@);
                assert(e@ == ExprV::Array(exprs_view(items@), *asp));
                assert(gen_supported_list(exprs_view(items@)));
                lemma_gen_list(exprs_view(items@));
            }
            let ghost av = exprs_view(items@);
            let mut s = String::from_str("[");
            let mut cur: usize = ti;
            let mut i: usize = 0;
            while i < items.len()
                invariant
                    i <= items@.len(),
                    cur <= types@.len(),
                    ("["@ + spec_java_join(tv, ti as int, av.take(i as int)).0, cur as int) == (
                    s@, spec_java_join(tv, ti as int, av.take(i as int)).1),
                decreases items@.len() - i,
            {
                proof {
                    assert(decreases_to!(av => av[i as int]));
                    assert(gen_supported(av[i as int]));
                }
                if i > 0 {
                    s.append(",");
                }
                let (es, t2) = gen_expr(types, cur, &items[i]);
                s.append(es.as_str());
                proof {
                    assert(av.take(i + 1).drop_last() =~= av.take(i as int));
                    assert(av.take(i + 1).last() == av[i as int]);
                    assert(s@ =~= "["@ + spec_java_join(tv, ti as int, av.take(i + 1)).0);
                }
                cur = t2;
                i = i + 1;
            }
            s.append("]");
            proof {
                assert(av.take(av.len() as int) =~= av);
                assert(s@ =~= spec_java_expr(tv, ti as int, e@).0);
            }
            (s, cur)
        },
        _ => {
            proof {
                lemma_expr_view_ctor(*e);
                assert(false);
            }
            (String::new(), ti)
        },
    }
}

/// The rendering of one named definition: `main` becomes the program
/// entry point, every other definition a function-typed member whose
/// return type is the last declared type.
pub open spec fn spec_java_func(types: Seq<TypeInfoV>, name: Seq<char>, body: ExprV) -> Seq<
    char,
> {
    let ret = if types.len() > 0 {
        spec_java_type(types[types.len() - 1])
    } else {
        "Object"@
    };
    let bs = spec_java_expr(types, 0, body).0;
    if name == "main"@ {
        "public static void "@ + name + "(String[] args) {\n\t"@ + bs + ";\n}"@
    } else {
        let arg = if body is Closure {
            "Function<?, ?>"@
        } else {
            "Object"@
        };
        "Function<"@ + ret + ", "@ + arg + "> "@ + name + "() {\n\treturn "@ + bs + ";\n}"@
    }
}

/// Render one named definition.
pub fn gen_function(name: &String, types: &Vec<TypeInfo>, body: &Expr) -> (r: String)
    requires
        gen_supported(body@),
    ensures
        r@ == spec_java_func(types_view(types@), name@, body@),
{
    let ghost tv = types_view(types@);
    let ret = if types.len() > 0 {
        type_to_gen(&types[types.len() - 1])
    } else {
        String::from_str("Object")
    };
    let (bs, _) = gen_expr(types, 0, body);
    if *name == String::from_str("main") {
        let mut s = String::from_str("public static void ");
        s.append(name.as_str());
        s.append("(String[] args) {\n\t");
        s.append(bs.as_str());
        s.append(";\n}");
        proof {
            assert(s@ =~= spec_java_func(tv, name@, body@));
        }
        s
    } else {
        proof {
            lemma_expr_view_ctor(*body);
        }
        let arg = match body {
            Expr::Closure(_, _, _) => "Function<?, ?>",
            _ => "Object",
        };
        let mut s = String::from_str("Function<");
        s.append(ret.as_str());
        s.append(", ");
        s.append(arg);
        s.append("> ");
        s.append(name.as_str());
        s.append("() {\n\treturn ");
        s.append(bs.as_str());
        s.append(";\n}");
        proof {
            assert(s@ =~= spec_java_func(tv, name@, body@));
        }
        s
    }
}

/// The whole program: the functional-interface import, then every
/// definition, newline-separated.
pub open spec fn spec_java_program(ds: Seq<ExprV>) -> Seq<char> {
    "import java.util.function.Function;\n"@ + spec_java_defs(ds)
}

/// Every definition's rendering, each preceded by a newline.
pub open spec fn spec_java_defs(ds: Seq<ExprV>) -> Seq<char>
    decreases ds,
{
    if ds.len() == 0 {
        Seq::empty()
    } else {
        spec_java_defs(ds.drop_last()) + "\n"@ + spec_java_func(
            ds.last()->Func_1,
            ds.last()->Func_0,
            *ds.last()->Func_2,
        )
    }
}

/// Translate a program of named definitions to Java.
#[verifier::loop_isolation(false)]
pub fn java_gen_code(input: &Vec<Expr>) -> (r: Option<String>)
    requires
        forall|i: int|
            0 <= i < input@.len() ==> ((#[trigger] input@[i])@ matches ExprV::Func(
                _,
                _,
                body,
                _,
            ) && gen_supported(*body)),
    ensures
        r matches Some(p) && p@ == spec_java_program(exprs_view(input@)),
{
    let ghost dv = exprs_view(input@);
    proof {
        crate::ast::lemma_exprs_view(input@);
        assert(dv.take(0) =~= Seq::<ExprV>::empty());
    }
    let mut program = String::from_str("import java.util.function.Function;\n");
    let mut i: usize = 0;
    proof {
        assert(program@ =~= "import java.util.function.Function;\n"@ + spec_java_defs(
            dv.take(0),
        ));
    }
    while i < input.len()
        invariant
            i <= input@.len(),
            program@ == "import java.util.function.Function;\n"@ + spec_java_defs(
                dv.take(i as int),
            ),
        decreases input@.len() - i,
    {
        proof {
            assert(dv.take(i + 1).drop_last() =~= dv.take(i as int));
            assert(dv.take(i + 1).last() == dv[i as int]);
        }
        match &input[i] {
            Expr::Func(name, types, body, _) => {
                program.append("\n");
                let piece = gen_function(name, types, body);
                program.append(piece.as_str());
                proof {
                    assert(dv[i as int]->Func_0 == name@);
                    assert(dv[i as int]->Func_1 =~= types_view(types@));
                    assert(*dv[i as int]->Func_2 == crate::ast::expr_view(**body));
                    assert(program@ =~= "import java.util.function.Function;\n"@
                        + spec_java_defs(dv.take(i + 1)));
                }
            },
            _ => {
                proof {
                    assert(false);
                }
            },
        }
        i = i + 1;
    }
    proof {
        assert(dv.take(dv.len() as int) =~= dv);
        assert(program@ =~= spec_java_program(dv));
    }
    Some(program)
}

} // verus!
