//! Textual rendering of atoms, expressions and declarations, exactly
//! specified over their views. This is the format the parser's callers and
//! tests read.

use vstd::prelude::*;

use crate::ast::{
    atom_view, expr_view, exprs_view, lemma_atoms_view, lemma_exprs_view, Atom, AtomV, Expr, ExprV, Op,
    TypeInfo, TypeInfoV,
};

verus! {

broadcast use vstd::seq::group_seq_axioms, vstd::std_specs::vec::group_vec_axioms;

/// The rendering of an operator.
pub open spec fn spec_op_str(op: Op) -> Seq<char> {
    match op {
        Op::Plus => "+"@,
        Op::Minus => "-"@,
        Op::Mult => "*"@,
        Op::Div => "/"@,
        Op::Grt => ">"@,
        Op::GrtEq => ">="@,
        Op::Les => "<"@,
        Op::LesEq => "<="@,
        Op::Eq => "=="@,
        Op::Neq => "!="@,
        Op::Not => "!"@,
        Op::Pipe => "|>"@,
    }
}

/// The rendering of an operator, as executable code.
pub fn op_str(op: Op) -> (r: &'static str)
    ensures
        r@ == spec_op_str(op),
{
    match op {
        Op::Plus => "+",
        Op::Minus => "-",
        Op::Mult => "*",
        Op::Div => "/",
        Op::Grt => ">",
        Op::GrtEq => ">=",
        Op::Les => "<",
        Op::LesEq => "<=",
        Op::Eq => "==",
        Op::Neq => "!=",
        Op::Not => "!",
        Op::Pipe => "|>",
    }
}

/// The source-level name of a declared type.
pub open spec fn spec_type_str(t: TypeInfoV) -> Seq<char> {
    match t {
        TypeInfoV::Int => "Int"@,
        TypeInfoV::Float => "Float"@,
        TypeInfoV::Bool => "Bool"@,
        TypeInfoV::Str => "String"@,
        TypeInfoV::Char => "Char"@,
        TypeInfoV::Custom(name) => name,
    }
}

/// The source-level name of a declared type, as executable code.
pub fn type_str(t: &TypeInfo) -> (r: String)
    ensures
        r@ == spec_type_str(t@),
{
    match t {
        TypeInfo::Int => String::from_str("Int"),
        TypeInfo::Float => String::from_str("Float"),
        TypeInfo::Bool => String::from_str("Bool"),
        TypeInfo::Str => String::from_str("String"),
        TypeInfo::Char => String::from_str("Char"),
        TypeInfo::Custom(name) => name.clone(),
    }
}

/// The decimal digit character for a value below ten.
pub open spec fn spec_digit_char(d: int) -> char {
    if d == 0 {
        '0'
    } else if d == 1 {
        '1'
    } else if d == 2 {
        '2'
    } else if d == 3 {
        '3'
    } else if d == 4 {
        '4'
    } else if d == 5 {
        '5'
    } else if d == 6 {
        '6'
    } else if d == 7 {
        '7'
    } else if d == 8 {
        '8'
    } else {
        '9'
    }
}

/// Decimal rendering of a nonnegative value.
pub open spec fn spec_nat_str(n: int) -> Seq<char>
    decreases n,
{
    if n < 10 {
        seq![spec_digit_char(n)]
    } else {
        spec_nat_str(n / 10).push(spec_digit_char(n % 10))
    }
}

/// Decimal rendering of a signed value, with a leading minus sign when
/// negative.
pub open spec fn spec_int_str(v: int) -> Seq<char> {
    if v < 0 {
        seq!['-'] + spec_nat_str(-v)
    } else {
        spec_nat_str(v)
    }
}

/// One decimal digit as a string slice.
fn digit_str(d: u64) -> (r: &'static str)
    requires
        d < 10,
    ensures
        r@ == seq![spec_digit_char(d as int)],
{
    proof {
        reveal_strlit("0");
        reveal_strlit("1");
        reveal_strlit("2");
        reveal_strlit("3");
        reveal_strlit("4");
        reveal_strlit("5");
        reveal_strlit("6");
        reveal_strlit("7");
        reveal_strlit("8");
        reveal_strlit("9");
    }
    match d {
        0 => "0",
        1 => "1",
        2 => "2",
        3 => "3",
        4 => "4",
        5 => "5",
        6 => "6",
        7 => "7",
        8 => "8",
        _ => "9",
    }
}

/// Decimal rendering of an unsigned machine integer.
pub fn u64_to_string(x: u64) -> (r: String)
    ensures
        r@ == spec_nat_str(x as int),
{
    let mut digits: Vec<u64> = Vec::new();
    let mut rest: u64 = x;
    loop
        invariant_except_break
            spec_nat_str(x as int) == spec_nat_str(rest as int) + Seq::new(
                digits@.len(),
                |i: int| spec_digit_char(digits@[digits@.len() - 1 - i] as int),
            ),
        invariant
            forall|i: int| 0 <= i < digits@.len() ==> 0 <= #[trigger] digits@[i] < 10,
        ensures
            digits@.len() >= 1,
            spec_nat_str(x as int) == Seq::new(
                digits@.len(),
                |i: int| spec_digit_char(digits@[digits@.len() - 1 - i] as int),
            ),
        decreases rest,
    {
        let d = rest % 10;
        let next = rest / 10;
        let ghost old_digits = digits@;
        digits.push(d);
        proof {
            let mapped_old = Seq::new(
                old_digits.len(),
                |i: int| spec_digit_char(old_digits[old_digits.len() - 1 - i] as int),
            );
            let mapped_new = Seq::new(
                digits@.len(),
                |i: int| spec_digit_char(digits@[digits@.len() - 1 - i] as int),
            );
            assert(mapped_new =~= seq![spec_digit_char(d as int)] + mapped_old);
            if next > 0 {
                assert(spec_nat_str(rest as int) == spec_nat_str(next as int).push(
                    spec_digit_char(d as int),
                ));
                assert(spec_nat_str(next as int) + mapped_new =~= spec_nat_str(rest as int)
                    + mapped_old);
            } else {
                assert(spec_nat_str(rest as int) =~= seq![spec_digit_char(d as int)]);
                assert(spec_nat_str(rest as int) + mapped_old =~= mapped_new);
            }
        }
        rest = next;
        if rest == 0 {
            break;
        }
    }
    let mut s = String::new();
    let mut i: usize = digits.len();
    while i > 0
        invariant
            i <= digits@.len(),
            forall|k: int| 0 <= k < digits@.len() ==> 0 <= #[trigger] digits@[k] < 10,
            spec_nat_str(x as int) == Seq::new(
                digits@.len(),
                |k: int| spec_digit_char(digits@[digits@.len() - 1 - k] as int),
            ),
            s@ == spec_nat_str(x as int).take(digits@.len() - i),
        decreases i,
    {
        i = i - 1;
        s.append(digit_str(digits[i]));
        proof {
            let full = spec_nat_str(x as int);
            assert(full[digits@.len() - 1 - (i as int)] == spec_digit_char(
                digits@[i as int] as int,
            ));
            assert(s@ =~= full.take(digits@.len() - i));
        }
    }
    proof {
        assert(s@ =~= spec_nat_str(x as int));
    }
    s
}

/// Decimal rendering of a signed machine integer.
pub fn i64_to_string(v: i64) -> (r: String)
    ensures
        r@ == spec_int_str(v as int),
{
    if v >= 0 {
        u64_to_string(v as u64)
    } else {
        let mag: u64 = if v == i64::MIN {
            9223372036854775808u64
        } else {
            (-v) as u64
        };
        let mut s = String::from_str("-");
        proof {
            reveal_strlit("-");
        }
        s.append(u64_to_string(mag).as_str());
        proof {
            assert(s@ =~= spec_int_str(v as int));
        }
        s
    }
}

/// The rendering of an atom: literals print themselves; integers print in
/// decimal; arrays print their comma-separated elements in brackets.
pub open spec fn spec_atom_display(a: AtomV) -> Seq<char>
    decreases a,
{
    match a {
        AtomV::Id(s) => s,
        AtomV::Int(v) => spec_int_str(v as int),
        AtomV::Float(s) => s,
        AtomV::Bool(b) => if b {
            "true"@
        } else {
            "false"@
        },
        AtomV::Str(s) => s,
        AtomV::Char(s) => s,
        AtomV::Array(items) => "["@ + spec_atom_join(items) + "]"@,
    }
}

/// Comma-separated rendering of an atom list.
pub open spec fn spec_atom_join(s: Seq<AtomV>) -> Seq<char>
    decreases s,
{
    if s.len() == 0 {
        Seq::empty()
    } else if s.len() == 1 {
        spec_atom_display(s[0])
    } else {
        spec_atom_join(s.drop_last()) + ", "@ + spec_atom_display(s.last())
    }
}

/// The rendering of an expression or declaration.
pub open spec fn spec_expr_display(e: ExprV) -> Seq<char>
    decreases e,
{
    match e {
        ExprV::Atom(a, _) => spec_atom_display(a),
        ExprV::Unary(op, r, _) => "("@ + spec_op_str(op) + " "@ + spec_expr_display(*r) + ")"@,
        ExprV::Binary(op, l, r, _) => "("@ + spec_op_str(op) + " "@ + spec_expr_display(*l) + " "@
            + spec_expr_display(*r) + ")"@,
        ExprV::IfElse(c, t, f, _) => "(if ("@ + spec_expr_display(*c) + ") then "@
            + spec_expr_display(*t) + " else "@ + spec_expr_display(*f) + ")"@,
        ExprV::Closure(h, b, _) => "(\\"@ + spec_expr_display(*h) + " -> "@ + spec_expr_display(*b)
            + ")"@,
        ExprV::Func(name, _, body, _) => "<"@ + name + ": "@ + spec_expr_display(*body) + ">"@,
        ExprV::App(callee, args, _) => "<"@ + spec_expr_display(*callee) + ": ("@ + spec_expr_join(
            args,
        ) + ")>"@,
        ExprV::Array(items, _) => "["@ + spec_expr_join(items) + "]"@,
        ExprV::Enum(name, variants, _) => "<"@ + name + ": "@ + spec_variant_join(variants) + ">"@,
        ExprV::TypeDec(name, types, _) => "<"@ + name + " :: "@ + spec_type_join(types) + ">"@,
        ExprV::Error(_) => "Error"@,
    }
}

/// Comma-separated rendering of an expression list.
pub open spec fn spec_expr_join(s: Seq<ExprV>) -> Seq<char>
    decreases s,
{
    if s.len() == 0 {
        Seq::empty()
    } else if s.len() == 1 {
        spec_expr_display(s[0])
    } else {
        spec_expr_join(s.drop_last()) + ", "@ + spec_expr_display(s.last())
    }
}

/// Arrow-separated rendering of a declared-type list.
pub open spec fn spec_type_join(s: Seq<TypeInfoV>) -> Seq<char>
    decreases s,
{
    if s.len() == 0 {
        Seq::empty()
    } else if s.len() == 1 {
        spec_type_str(s[0])
    } else {
        spec_type_join(s.drop_last()) + " -> "@ + spec_type_str(s.last())
    }
}

/// The rendering of one enum-declaration variant.
pub open spec fn spec_variant_display(v: (Seq<char>, Seq<Seq<char>>)) -> Seq<char> {
    "("@ + v.0 + ", ["@ + spec_field_join(v.1) + "])"@
}

/// Comma-separated rendering of an enum variant list.
pub open spec fn spec_variant_join(s: Seq<(Seq<char>, Seq<Seq<char>>)>) -> Seq<char>
    decreases s,
{
    if s.len() == 0 {
        Seq::empty()
    } else if s.len() == 1 {
        spec_variant_display(s[0])
    } else {
        spec_variant_join(s.drop_last()) + ", "@ + spec_variant_display(s.last())
    }
}

/// Comma-separated rendering of a variant's field-type names.
pub open spec fn spec_field_join(s: Seq<Seq<char>>) -> Seq<char>
    decreases s,
{
    if s.len() == 0 {
        Seq::empty()
    } else if s.len() == 1 {
        s[0]
    } else {
        spec_field_join(s.drop_last()) + ", "@ + s.last()
    }
}

/// Render an atom.
#[verifier::loop_isolation(false)]
pub fn atom_display(a: &Atom) -> (r: String)
    ensures
        r@ == spec_atom_display(a@),
    decreases *a,
{
    match a {
        Atom::Id(s) => s.clone(),
        Atom::Int(v) => i64_to_string(*v),
        Atom::Float(s) => s.clone(),
        Atom::Bool(b) => {
            if *b {
                String::from_str("true")
            } else {
                String::from_str("false")
            }
        },
        Atom::Str(s) => s.clone(),
        Atom::Char(s) => s.clone(),
        Atom::Array(items) => {
            proof {
                assert(decreases_to!(*a => (*a)->Array_0));
                assert(decreases_to!(*items => items@));
            }
            let mut s = String::from_str("[");
            let mut i: usize = 0;
            proof {
                lemma_atoms_view(items@);
            }
            while i < items.len()
                invariant
                    i <= items@.len(),
                    s@ == "["@ + spec_atom_join(atom_view(*a)->Array_0.take(i as int)),
                decreases items@.len() - i,
            {
                proof {
                    assert(decreases_to!(items@ => items@[i as int]));
                }
                if i > 0 {
                    s.append(", ");
                }
                let piece = atom_display(&items[i]);
                s.append(piece.as_str());
                proof {
                    let v = atom_view(*a)->Array_0;
                    assert(v.take(i + 1).drop_last() =~= v.take(i as int));
                    assert(v.take(i + 1).last() == v[i as int]);
                    if i == 0 {
                        assert(spec_atom_join(v.take(1)) == spec_atom_display(v[0]));
                        assert(s@ =~= "["@ + spec_atom_join(v.take(1)));
                    } else {
                        assert(spec_atom_join(v.take(i + 1)) == spec_atom_join(v.take(i as int))
                            + ", "@ + spec_atom_display(v[i as int]));
                        assert(s@ =~= "["@ + spec_atom_join(v.take(i + 1)));
                    }
                }
                i = i + 1;
            }
            s.append("]");
            proof {
                let v = atom_view(*a)->Array_0;
                assert(v.take(v.len() as int) =~= v);
                assert(s@ =~= spec_atom_display(a@));
            }
            s
        },
    }
}

/// Render an enum declaration: the name, then each variant with its
/// bracketed field-type list.
#[verifier::loop_isolation(false)]
pub fn enum_display(name: &String, variants: &Vec<(String, Vec<String>)>) -> (r: String)
    ensures
        r@ == "<"@ + name@ + ": "@ + spec_variant_join(
            Seq::new(variants@.len(), |i: int| crate::ast::variant_view(variants@[i])),
        ) + ">"@,
{
    let ghost vv = Seq::new(variants@.len(), |i: int| crate::ast::variant_view(variants@[i]));
    let mut s = String::from_str("<");
    s.append(name.as_str());
    s.append(": ");
    let mut i: usize = 0;
    while i < variants.len()
        invariant
            i <= variants@.len(),
            s@ == "<"@ + name@ + ": "@ + spec_variant_join(vv.take(i as int)),
        decreases variants@.len() - i,
    {
        if i > 0 {
            s.append(", ");
        }
        s.append("(");
        s.append(variants[i].0.as_str());
        s.append(", [");
        let ghost fv = vv[i as int].1;
        let mut j: usize = 0;
        while j < variants[i].1.len()
            invariant
                0 <= i < variants@.len(),
                j <= variants@[i as int].1@.len(),
                fv == vv[i as int].1,
                fv.len() == variants@[i as int].1@.len(),
                forall|k: int|
                    0 <= k < fv.len() ==> fv[k] == (#[trigger] variants@[i as int].1@[k])@,
                s@ == "<"@ + name@ + ": "@ + spec_variant_join(vv.take(i as int)) + (if i > 0 {
                    ", "@
                } else {
                    Seq::<char>::empty()
                }) + "("@ + vv[i as int].0 + ", ["@ + spec_field_join(fv.take(j as int)),
            decreases variants@[i as int].1@.len() - j,
        {
            if j > 0 {
                s.append(", ");
            }
            s.append(variants[i].1[j].as_str());
            proof {
                assert(fv.take(j + 1).drop_last() =~= fv.take(j as int));
                assert(fv.take(j + 1).last() == fv[j as int]);
                assert(s@ =~= "<"@ + name@ + ": "@ + spec_variant_join(vv.take(i as int)) + (
                if i > 0 {
                    ", "@
                } else {
                    Seq::<char>::empty()
                }) + "("@ + vv[i as int].0 + ", ["@ + spec_field_join(fv.take(j + 1)));
            }
            j = j + 1;
        }
        s.append("])");
        proof {
            assert(fv.take(fv.len() as int) =~= fv);
            assert(vv.take(i + 1).drop_last() =~= vv.take(i as int));
            assert(vv.take(i + 1).last() == vv[i as int]);
            assert(spec_variant_display(vv[i as int]) == "("@ + vv[i as int].0 + ", ["@
                + spec_field_join(fv) + "])"@);
            assert(s@ =~= "<"@ + name@ + ": "@ + spec_variant_join(vv.take(i + 1)));
        }
        i = i + 1;
    }
    s.append(">");
    proof {
        assert(vv.take(vv.len() as int) =~= vv);
    }
    s
}

/// Render a type declaration: the name and its arrow-separated types.
#[verifier::loop_isolation(false)]
pub fn typedec_display(name: &String, types: &Vec<TypeInfo>) -> (r: String)
    ensures
        r@ == "<"@ + name@ + " :: "@ + spec_type_join(
            Seq::new(types@.len(), |i: int| types@[i]@),
        ) + ">"@,
{
    let ghost tv = Seq::new(types@.len(), |i: int| types@[i]@);
    let mut s = String::from_str("<");
    s.append(name.as_str());
    s.append(" :: ");
    let mut i: usize = 0;
    while i < types.len()
        invariant
            i <= types@.len(),
            s@ == "<"@ + name@ + " :: "@ + spec_type_join(tv.take(i as int)),
        decreases types@.len() - i,
    {
        if i > 0 {
            s.append(" -> ");
        }
        s.append(type_str(&types[i]).as_str());
        proof {
            assert(tv.take(i + 1).drop_last() =~= tv.take(i as int));
            assert(tv.take(i + 1).last() == tv[i as int]);
            assert(s@ =~= "<"@ + name@ + " :: "@ + spec_type_join(tv.take(i + 1)));
        }
        i = i + 1;
    }
    s.append(">");
    proof {
        assert(tv.take(tv.len() as int) =~= tv);
    }
    s
}

/// Render an expression or declaration in the parser's output format.
#[verifier::loop_isolation(false)]
#[verifier::rlimit(100)]
#[verifier::spinoff_prover]
pub fn expr_display(e: &Expr) -> (r: String)
    ensures
        r@ == spec_expr_display(e@),
    decreases *e,
{
    match e {
        Expr::Atom(a, _) => atom_display(a),
        Expr::Unary(op, rhs, _) => {
            let mut s = String::from_str("(");
            s.append(op_str(*op));
            s.append(" ");
            s.append(expr_display(rhs).as_str());
            s.append(")");
            proof {
                assert(s@ =~= spec_expr_display(e@));
            }
            s
        },
        Expr::Binary(op, lhs, rhs, _) => {
            let mut s = String::from_str("(");
            s.append(op_str(*op));
            s.append(" ");
            s.append(expr_display(lhs).as_str());
            s.append(" ");
            s.append(expr_display(rhs).as_str());
            s.append(")");
            proof {
                assert(s@ =~= spec_expr_display(e@));
            }
            s
        },
        Expr::IfElse(c, t, f, _) => {
            let mut s = String::from_str("(if (");
            s.append(expr_display(c).as_str());
            s.append(") then ");
            s.append(expr_display(t).as_str());
            s.append(" else ");
            s.append(expr_display(f).as_str());
            s.append(")");
            proof {
                assert(s@ =~= spec_expr_display(e@));
            }
            s
        },
        Expr::Closure(h, b, _) => {
            let mut s = String::from_str("(\\");
            s.append(expr_display(h).as_str());
            s.append(" -> ");
            s.append(expr_display(b).as_str());
            s.append(")");
            proof {
                assert(s@ =~= spec_expr_display(e@));
            }
            s
        },
        Expr::Func(name, _, body, _) => {
            let mut s = String::from_str("<");
            s.append(name.as_str());
            s.append(": ");
            s.append(expr_display(body).as_str());
            s.append(">");
            proof {
                assert(s@ =~= spec_expr_display(e@));
            }
            s
        },
        Expr::App(callee, args, _) => {
            proof {
                assert(decreases_to!(*e => (*e)->App_1));
                assert(decreases_to!(*args => args@));
            }
            let mut s = String::from_str("<");
            s.append(expr_display(callee).as_str());
            s.append(": (");
            proof {
                lemma_exprs_view(args@);
            }
            let mut i: usize = 0;
            while i < args.len()
                invariant
                    i <= args@.len(),
                    s@ == "<"@ + spec_expr_display(expr_view(**callee)) + ": ("@ + spec_expr_join(
                        exprs_view(args@).take(i as int),
                    ),
                decreases args@.len() - i,
            {
                proof {
                    assert(decreases_to!(args@ => args@[i as int]));
                }
                if i > 0 {
                    s.append(", ");
                }
                let piece = expr_display(&args[i]);
                s.append(piece.as_str());
                proof {
                    let v = exprs_view(args@);
                    assert(v.take(i + 1).drop_last() =~= v.take(i as int));
                    assert(v.take(i + 1).last() == v[i as int]);
                    assert(s@ =~= "<"@ + spec_expr_display(expr_view(**callee)) + ": ("@
                        + spec_expr_join(v.take(i + 1)));
                }
                i = i + 1;
            }
            s.append(")>");
            proof {
                let v = exprs_view(args@);
                assert(v.take(v.len() as int) =~= v);
                assert(s@ =~= spec_expr_display(e@));
            }
            s
        },
        Expr::Array(items, _) => {
            proof {
                assert(decreases_to!(*e => (*e)->Array_0));
                assert(decreases_to!(*items => items@));
            }
            let mut s = String::from_str("[");
            proof {
                lemma_exprs_view(items@);
            }
            let mut i: usize = 0;
            while i < items.len()
                invariant
                    i <= items@.len(),
                    s@ == "["@ + spec_expr_join(exprs_view(items@).take(i as int)),
                decreases items@.len() - i,
            {
                proof {
                    assert(decreases_to!(items@ => items@[i as int]));
                }
                if i > 0 {
                    s.append(", ");
                }
                let piece = expr_display(&items[i]);
                s.append(piece.as_str());
                proof {
                    let v = exprs_view(items@);
                    assert(v.take(i + 1).drop_last() =~= v.take(i as int));
                    assert(v.take(i + 1).last() == v[i as int]);
                    assert(s@ =~= "["@ + spec_expr_join(v.take(i + 1)));
                }
                i = i + 1;
            }
            s.append("]");
            proof {
                let v = exprs_view(items@);
                assert(v.take(v.len() as int) =~= v);
                assert(s@ =~= spec_expr_display(e@));
            }
            s
        },
        Expr::Enum(name, variants, _) => {
            let r = enum_display(name, variants);
            proof {
                assert(e@->Enum_1 =~= Seq::new(
                    variants@.len(),
                    |i: int| crate::ast::variant_view(variants@[i]),
                ));
                assert(r@ == spec_expr_display(e@));
            }
            r
        },
        Expr::TypeDec(name, types, _) => {
            let r = typedec_display(name, types);
            proof {
                assert(e@->TypeDec_1 =~= Seq::new(types@.len(), |i: int| types@[i]@));
                assert(r@ == spec_expr_display(e@));
            }
            r
        },
        Expr::Error(_) => String::from_str("Error"),
    }
}

} // verus!
