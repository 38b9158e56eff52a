//! The abstract syntax tree: operators, declared types, atoms and
//! expressions, together with their mathematical views and an exactly
//! specified textual rendering.

use vstd::prelude::*;

use crate::span::Span;

verus! {

broadcast use vstd::seq::group_seq_axioms, vstd::std_specs::vec::group_vec_axioms;

/// Binary and unary operators of the language.
#[derive(Debug, Clone, Copy, PartialEq, Eq, Structural)]
pub enum Op {
    Plus,
    Minus,
    Mult,
    Div,
    Grt,
    GrtEq,
    Les,
    LesEq,
    Eq,
    Neq,
    Not,
    Pipe,
}

/// A declared type in a type declaration; recorded, never enforced.
#[derive(Debug)]
pub enum TypeInfo {
    Int,
    Float,
    Bool,
    Str,
    Char,
    Custom(String),
}

/// Mathematical view of a declared type.
pub enum TypeInfoV {
    Int,
    Float,
    Bool,
    Str,
    Char,
    Custom(Seq<char>),
}

impl View for TypeInfo {
    type V = TypeInfoV;

    open spec fn view(&self) -> TypeInfoV {
        match self {
            TypeInfo::Int => TypeInfoV::Int,
            TypeInfo::Float => TypeInfoV::Float,
            TypeInfo::Bool => TypeInfoV::Bool,
            TypeInfo::Str => TypeInfoV::Str,
            TypeInfo::Char => TypeInfoV::Char,
            TypeInfo::Custom(name) => TypeInfoV::Custom(name@),
        }
    }
}

impl Clone for TypeInfo {
    fn clone(&self) -> (r: Self)
        ensures
            r@ == self@,
    {
        match self {
            TypeInfo::Int => TypeInfo::Int,
            TypeInfo::Float => TypeInfo::Float,
            TypeInfo::Bool => TypeInfo::Bool,
            TypeInfo::Str => TypeInfo::Str,
            TypeInfo::Char => TypeInfo::Char,
            TypeInfo::Custom(name) => TypeInfo::Custom(name.clone()),
        }
    }
}

/// An already-reduced value: literal, identifier reference, or array of
/// atoms. Floats keep their source lexeme.
#[derive(Debug)]
pub enum Atom {
    Id(String),
    Int(i64),
    Float(String),
    Bool(bool),
    Str(String),
    Char(String),
    Array(Vec<Atom>),
}

/// Mathematical view of an atom.
pub enum AtomV {
    Id(Seq<char>),
    Int(i64),
    Float(Seq<char>),
    Bool(bool),
    Str(Seq<char>),
    Char(Seq<char>),
    Array(Seq<AtomV>),
}

/// The view of an atom.
pub open spec fn atom_view(a: Atom) -> AtomV
    decreases a,
{
    match a {
        Atom::Id(s) => AtomV::Id(s@),
        Atom::Int(v) => AtomV::Int(v),
        Atom::Float(s) => AtomV::Float(s@),
        Atom::Bool(b) => AtomV::Bool(b),
        Atom::Str(s) => AtomV::Str(s@),
        Atom::Char(s) => AtomV::Char(s@),
        Atom::Array(items) => AtomV::Array(atoms_view(items@)),
    }
}

/// The element-wise view of an atom list.
pub open spec fn atoms_view(s: Seq<Atom>) -> Seq<AtomV>
    decreases s,
{
    if s.len() == 0 {
        Seq::empty()
    } else {
        atoms_view(s.drop_last()).push(atom_view(s.last()))
    }
}

/// `atoms_view` maps the list element by element.
pub proof fn lemma_atoms_view(s: Seq<Atom>)
    ensures
        atoms_view(s).len() == s.len(),
        forall|i: int| 0 <= i < s.len() ==> atoms_view(s)[i] == atom_view(s[i]),
    decreases s,
{
    if s.len() > 0 {
        lemma_atoms_view(s.drop_last());
    }
}

impl View for Atom {
    type V = AtomV;

    open spec fn view(&self) -> AtomV {
        atom_view(*self)
    }
}

/// An expression or top-level declaration, each carrying its span.
#[derive(Debug)]
pub enum Expr {
    Atom(Atom, Span),
    Unary(Op, Box<Expr>, Span),
    Binary(Op, Box<Expr>, Box<Expr>, Span),
    IfElse(Box<Expr>, Box<Expr>, Box<Expr>, Span),
    Closure(Box<Expr>, Box<Expr>, Span),
    Func(String, Vec<TypeInfo>, Box<Expr>, Span),
    App(Box<Expr>, Vec<Expr>, Span),
    Array(Vec<Expr>, Span),
    Enum(String, Vec<(String, Vec<String>)>, Span),
    TypeDec(String, Vec<TypeInfo>, Span),
    Error(Span),
}

/// Mathematical view of an expression.
pub enum ExprV {
    Atom(AtomV, Span),
    Unary(Op, Box<ExprV>, Span),
    Binary(Op, Box<ExprV>, Box<ExprV>, Span),
    IfElse(Box<ExprV>, Box<ExprV>, Box<ExprV>, Span),
    Closure(Box<ExprV>, Box<ExprV>, Span),
    Func(Seq<char>, Seq<TypeInfoV>, Box<ExprV>, Span),
    App(Box<ExprV>, Seq<ExprV>, Span),
    Array(Seq<ExprV>, Span),
    Enum(Seq<char>, Seq<(Seq<char>, Seq<Seq<char>>)>, Span),
    TypeDec(Seq<char>, Seq<TypeInfoV>, Span),
    Error(Span),
}

/// The view of one enum-declaration variant.
pub open spec fn variant_view(v: (String, Vec<String>)) -> (Seq<char>, Seq<Seq<char>>) {
    (v.0@, Seq::new(v.1@.len(), |i: int| v.1@[i]@))
}

/// The view of an expression.
pub open spec fn expr_view(e: Expr) -> ExprV
    decreases e,
{
    match e {
        Expr::Atom(a, s) => ExprV::Atom(atom_view(a), s),
        Expr::Unary(op, r, s) => ExprV::Unary(op, Box::new(expr_view(*r)), s),
        Expr::Binary(op, l, r, s) => ExprV::Binary(
            op,
            Box::new(expr_view(*l)),
            Box::new(expr_view(*r)),
            s,
        ),
        Expr::IfElse(c, t, f, s) => ExprV::IfElse(
            Box::new(expr_view(*c)),
            Box::new(expr_view(*t)),
            Box::new(expr_view(*f)),
            s,
        ),
        Expr::Closure(h, b, s) => ExprV::Closure(
            Box::new(expr_view(*h)),
            Box::new(expr_view(*b)),
            s,
        ),
        Expr::Func(name, types, body, s) => ExprV::Func(
            name@,
            Seq::new(types@.len(), |i: int| types@[i]@),
            Box::new(expr_view(*body)),
            s,
        ),
        Expr::App(callee, args, s) => ExprV::App(
            Box::new(expr_view(*callee)),
            exprs_view(args@),
            s,
        ),
        Expr::Array(items, s) => ExprV::Array(exprs_view(items@), s),
        Expr::Enum(name, variants, s) => ExprV::Enum(
            name@,
            Seq::new(variants@.len(), |i: int| variant_view(variants@[i])),
            s,
        ),
        Expr::TypeDec(name, types, s) => ExprV::TypeDec(
            name@,
            Seq::new(types@.len(), |i: int| types@[i]@),
            s,
        ),
        Expr::Error(s) => ExprV::Error(s),
    }
}

/// The element-wise view of an expression list.
pub open spec fn exprs_view(s: Seq<Expr>) -> Seq<ExprV>
    decreases s,
{
    if s.len() == 0 {
        Seq::empty()
    } else {
        exprs_view(s.drop_last()).push(expr_view(s.last()))
    }
}

/// `exprs_view` maps the list element by element.
pub proof fn lemma_exprs_view(s: Seq<Expr>)
    ensures
        exprs_view(s).len() == s.len(),
        forall|i: int| 0 <= i < s.len() ==> exprs_view(s)[i] == expr_view(s[i]),
    decreases s,
{
    if s.len() > 0 {
        lemma_exprs_view(s.drop_last());
    }
}

impl View for Expr {
    type V = ExprV;

    open spec fn view(&self) -> ExprV {
        expr_view(*self)
    }
}

impl ExprV {
    /// The span of any node view.
    pub open spec fn span(self) -> Span {
        match self {
            ExprV::Atom(_, s) => s,
            ExprV::Unary(_, _, s) => s,
            ExprV::Binary(_, _, _, s) => s,
            ExprV::IfElse(_, _, _, s) => s,
            ExprV::Closure(_, _, s) => s,
            ExprV::Func(_, _, _, s) => s,
            ExprV::App(_, _, s) => s,
            ExprV::Array(_, s) => s,
            ExprV::Enum(_, _, s) => s,
            ExprV::TypeDec(_, _, s) => s,
            ExprV::Error(s) => s,
        }
    }
}

impl Expr {
    pub fn span(&self) -> (r: Span)
        ensures
            r == self@.span(),
    {
        match self {
            Expr::Atom(_, s) => *s,
            Expr::Unary(_, _, s) => *s,
            Expr::Binary(_, _, _, s) => *s,
            Expr::IfElse(_, _, _, s) => *s,
            Expr::Closure(_, _, s) => *s,
            Expr::Func(_, _, _, s) => *s,
            Expr::App(_, _, s) => *s,
            Expr::Array(_, s) => *s,
            Expr::Enum(_, _, s) => *s,
            Expr::TypeDec(_, _, s) => *s,
            Expr::Error(s) => *s,
        }
    }

    /// Whether this node is a parse-failure placeholder.
    pub fn is_error(&self) -> (r: bool)
        ensures
            r == (self@ is Error),
    {
        match self {
            Expr::Error(_) => true,
            _ => false,
        }
    }
}

impl Clone for Atom {
    #[verifier::loop_isolation(false)]
    fn clone(&self) -> (r: Self)
        ensures
            r@ == self@,
        decreases *self,
    {
        match self {
            Atom::Id(s) => Atom::Id(s.clone()),
            Atom::Int(v) => Atom::Int(*v),
            Atom::Float(s) => Atom::Float(s.clone()),
            Atom::Bool(b) => Atom::Bool(*b),
            Atom::Str(s) => Atom::Str(s.clone()),
            Atom::Char(s) => Atom::Char(s.clone()),
            Atom::Array(items) => {
                let mut out: Vec<Atom> = Vec::new();
                let mut i: usize = 0;
                while i < items.len()
                    invariant
                        i <= items@.len(),
                        out@.len() == i,
                        forall|k: int| 0 <= k < i ==> (#[trigger] out@[k])@ == items@[k]@,
                    decreases items@.len() - i,
                {
                    proof {
                        assert(decreases_to!(*self => (*self)->Array_0));
                        assert((*self)->Array_0 == *items);
                        assert(decreases_to!(*items => items@));
                        assert(decreases_to!(items@ => items@[i as int]));
                        assert(decreases_to!(*self => items@[i as int]));
                    }
                    out.push(items[i].clone());
                    i = i + 1;
                }
                proof {
                    lemma_atoms_view(out@);
                    lemma_atoms_view(items@);
                    assert(atoms_view(out@) =~= atoms_view(items@));
                }
                Atom::Array(out)
            },
        }
    }
}

impl Clone for Expr {
    #[verifier::loop_isolation(false)]
    fn clone(&self) -> (r: Self)
        ensures
            r@ == self@,
        decreases *self,
    {
        match self {
            Expr::Atom(a, s) => Expr::Atom(a.clone(), *s),
            Expr::Unary(op, r0, s) => Expr::Unary(*op, Box::new((**r0).clone()), *s),
            Expr::Binary(op, l, r0, s) => Expr::Binary(
                *op,
                Box::new((**l).clone()),
                Box::new((**r0).clone()),
                *s,
            ),
            Expr::IfElse(c, t, f, s) => Expr::IfElse(
                Box::new((**c).clone()),
                Box::new((**t).clone()),
                Box::new((**f).clone()),
                *s,
            ),
            Expr::Closure(h, b, s) => Expr::Closure(
                Box::new((**h).clone()),
                Box::new((**b).clone()),
                *s,
            ),
            Expr::Func(name, types, body, s) => Expr::Func(
                name.clone(),
                clone_types(types),
                Box::new((**body).clone()),
                *s,
            ),
            Expr::App(callee, args, s) => {
                let mut out: Vec<Expr> = Vec::new();
                let mut i: usize = 0;
                while i < args.len()
                    invariant
                        i <= args@.len(),
                        out@.len() == i,
                        forall|k: int| 0 <= k < i ==> (#[trigger] out@[k])@ == args@[k]@,
                    decreases args@.len() - i,
                {
                    proof {
                        assert(decreases_to!(*self => (*self)->App_1));
                        assert((*self)->App_1 == *args);
                        assert(decreases_to!(*args => args@));
                        assert(decreases_to!(args@ => args@[i as int]));
                        assert(decreases_to!(*self => args@[i as int]));
                    }
                    out.push(args[i].clone());
                    i = i + 1;
                }
                proof {
                    lemma_exprs_view(out@);
                    lemma_exprs_view(args@);
                    assert(exprs_view(out@) =~= exprs_view(args@));
                }
                Expr::App(Box::new((**callee).clone()), out, *s)
            },
            Expr::Array(items, s) => {
                let mut out: Vec<Expr> = Vec::new();
                let mut i: usize = 0;
                while i < items.len()
                    invariant
                        i <= items@.len(),
                        out@.len() == i,
                        forall|k: int| 0 <= k < i ==> (#[trigger] out@[k])@ == items@[k]@,
                    decreases items@.len() - i,
                {
                    proof {
                        assert(decreases_to!(*self => (*self)->Array_0));
                        assert((*self)->Array_0 == *items);
                        assert(decreases_to!(*items => items@));
                        assert(decreases_to!(items@ => items@[i as int]));
                        assert(decreases_to!(*self => items@[i as int]));
                    }
                    out.push(items[i].clone());
                    i = i + 1;
                }
                proof {
                    lemma_exprs_view(out@);
                    lemma_exprs_view(items@);
                    assert(exprs_view(out@) =~= exprs_view(items@));
                }
                Expr::Array(out, *s)
            },
            Expr::Enum(name, variants, s) => Expr::Enum(
                name.clone(),
                clone_variants(variants),
                *s,
            ),
            Expr::TypeDec(name, types, s) => Expr::TypeDec(name.clone(), clone_types(types), *s),
            Expr::Error(s) => Expr::Error(*s),
        }
    }
}

/// Copy a declared-type list, preserving its view.
pub fn clone_types(types: &Vec<TypeInfo>) -> (r: Vec<TypeInfo>)
    ensures
        r@.len() == types@.len(),
        forall|i: int| 0 <= i < r@.len() ==> (#[trigger] r@[i])@ == types@[i]@,
        Seq::new(r@.len(), |i: int| r@[i]@) == Seq::new(types@.len(), |i: int| types@[i]@),
{
    let mut out: Vec<TypeInfo> = Vec::new();
    let mut i: usize = 0;
    while i < types.len()
        invariant
            i <= types@.len(),
            out@.len() == i,
            forall|k: int| 0 <= k < i ==> (#[trigger] out@[k])@ == types@[k]@,
        decreases types@.len() - i,
    {
        out.push(types[i].clone());
        i = i + 1;
    }
    proof {
        assert(Seq::new(out@.len(), |i: int| out@[i]@) =~= Seq::new(
            types@.len(),
            |i: int| types@[i]@,
        ));
    }
    out
}

/// Copy an enum-declaration variant list, preserving its view.
pub fn clone_variants(variants: &Vec<(String, Vec<String>)>) -> (r: Vec<(String, Vec<String>)>)
    ensures
        r@.len() == variants@.len(),
        forall|i: int|
            0 <= i < r@.len() ==> variant_view(#[trigger] r@[i]) == variant_view(variants@[i]),
        Seq::new(r@.len(), |i: int| variant_view(r@[i])) == Seq::new(
            variants@.len(),
            |i: int| variant_view(variants@[i]),
        ),
{
    let mut out: Vec<(String, Vec<String>)> = Vec::new();
    let mut i: usize = 0;
    while i < variants.len()
        invariant
            i <= variants@.len(),
            out@.len() == i,
            forall|k: int|
                0 <= k < i ==> variant_view(#[trigger] out@[k]) == variant_view(variants@[k]),
        decreases variants@.len() - i,
    {
        let name = variants[i].0.clone();
        let mut fields: Vec<String> = Vec::new();
        let mut j: usize = 0;
        while j < variants[i].1.len()
            invariant
                0 <= i < variants@.len(),
                j <= variants@[i as int].1@.len(),
                fields@.len() == j,
                forall|k: int|
                    0 <= k < j ==> (#[trigger] fields@[k])@ == variants@[i as int].1@[k]@,
            decreases variants@[i as int].1@.len() - j,
        {
            fields.push(variants[i].1[j].clone());
            j = j + 1;
        }
        proof {
            assert(variant_view((name, fields)).1 =~= variant_view(variants@[i as int]).1);
        }
        out.push((name, fields));
        i = i + 1;
    }
    proof {
        assert(Seq::new(out@.len(), |i: int| variant_view(out@[i])) =~= Seq::new(
            variants@.len(),
            |i: int| variant_view(variants@[i]),
        ));
    }
    out
}

} // verus!
