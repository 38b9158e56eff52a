//! Call-by-value tree-walking evaluator over the syntax tree, with a
//! two-tier environment (per-frame local bindings before shared global
//! definitions), a small builtin table, and a recursion-depth ceiling.
//!
//! The whole evaluation relation is stated as a specification-level
//! interpreter; the executable evaluator is proved to return exactly what
//! the specification says, diagnostics and printed output included.
//!
//! The documented choices: names resolve local before global, so a
//! parameter shadows a definition of the same name; a call must supply
//! exactly as many arguments as the callee has parameters, and anything
//! else is an arity error rather than partial application; integer
//! arithmetic wraps, division truncates toward zero and rejects a zero
//! divisor; `nth` out of range and `pop` of an empty array are recoverable
//! errors, never process exits.

use vstd::prelude::*;

use crate::ast::{
    atom_view, expr_view, exprs_view, Atom, AtomV, Expr, ExprV, Op,
};
use crate::display::{spec_atom_display, atom_display};
use crate::span::Span;

verus! {

broadcast use vstd::seq::group_seq_axioms, vstd::std_specs::vec::group_vec_axioms;

/// How many nested evaluation steps are allowed before evaluation is cut
/// off with a distinct error, instead of exhausting the host stack.
pub const EVAL_FUEL: u64 = 4096;

/// The reasons evaluation can fail; every one carries the span of the node
/// that caused it.
#[derive(Debug, Clone, Copy, PartialEq, Eq, Structural)]
pub enum RuntimeErrorKind {
    /// A name found in neither the local nor the global environment.
    UndefinedName,
    /// A call whose argument count differs from the callee's parameter
    /// count; partial application is not supported.
    ArityMismatch,
    /// An operator or builtin applied to the wrong kind of value.
    TypeMismatch,
    /// `nth` past the end of an array.
    IndexOutOfRange,
    /// `pop` of an empty array.
    EmptyCollection,
    /// No `main` definition in the program.
    MissingEntryPoint,
    /// Integer division by zero.
    DivisionByZero,
    /// The recursion-depth ceiling was reached.
    RecursionLimit,
    /// A declaration or error node in expression position.
    MalformedBody,
}

/// A runtime diagnostic: what went wrong and where.
#[derive(Debug, Clone, Copy, PartialEq, Eq, Structural)]
pub struct RuntimeError {
    pub kind: RuntimeErrorKind,
    pub span: Span,
}

/// The rendering of a failure reason, for any presentation layer to use.
pub open spec fn spec_kind_message(k: RuntimeErrorKind) -> Seq<char> {
    match k {
        RuntimeErrorKind::UndefinedName => "undefined name"@,
        RuntimeErrorKind::ArityMismatch => "arity mismatch"@,
        RuntimeErrorKind::TypeMismatch => "type mismatch"@,
        RuntimeErrorKind::IndexOutOfRange => "index out of range"@,
        RuntimeErrorKind::EmptyCollection => "empty collection"@,
        RuntimeErrorKind::MissingEntryPoint => "missing main function"@,
        RuntimeErrorKind::DivisionByZero => "division by zero"@,
        RuntimeErrorKind::RecursionLimit => "recursion limit reached"@,
        RuntimeErrorKind::MalformedBody => "declaration in expression position"@,
    }
}

impl RuntimeError {
    /// The human-readable reason, beside the span the fields carry.
    pub fn message(&self) -> (r: String)
        ensures
            r@ == spec_kind_message(self.kind),
    {
        match self.kind {
            RuntimeErrorKind::UndefinedName => String::from_str("undefined name"),
            RuntimeErrorKind::ArityMismatch => String::from_str("arity mismatch"),
            RuntimeErrorKind::TypeMismatch => String::from_str("type mismatch"),
            RuntimeErrorKind::IndexOutOfRange => String::from_str("index out of range"),
            RuntimeErrorKind::EmptyCollection => String::from_str("empty collection"),
            RuntimeErrorKind::MissingEntryPoint => String::from_str("missing main function"),
            RuntimeErrorKind::DivisionByZero => String::from_str("division by zero"),
            RuntimeErrorKind::RecursionLimit => String::from_str("recursion limit reached"),
            RuntimeErrorKind::MalformedBody => String::from_str(
                "declaration in expression position",
            ),
        }
    }
}

/// The view of an environment: a name-to-expression list where later
/// entries shadow earlier ones.
pub open spec fn env_view(s: Seq<(String, Expr)>) -> Seq<(Seq<char>, ExprV)>
    decreases s,
{
    if s.len() == 0 {
        Seq::empty()
    } else {
        env_view(s.drop_last()).push((s.last().0@, expr_view(s.last().1)))
    }
}

/// `env_view` maps the list element by element.
pub proof fn lemma_env_view(s: Seq<(String, Expr)>)
    ensures
        env_view(s).len() == s.len(),
        forall|i: int|
            0 <= i < s.len() ==> env_view(s)[i] == ((#[trigger] s[i]).0@, expr_view(s[i].1)),
    decreases s,
{
    if s.len() > 0 {
        lemma_env_view(s.drop_last());
        assert forall|i: int|
            0 <= i < s.len() implies env_view(s)[i] == ((#[trigger] s[i]).0@, expr_view(
            s[i].1,
        )) by {
            if i < s.len() - 1 {
                assert(s.drop_last()[i] == s[i]);
            }
        }
    }
}

/// Resolve a name: the latest binding wins.
pub open spec fn spec_lookup(env: Seq<(Seq<char>, ExprV)>, name: Seq<char>) -> Option<ExprV>
    decreases env,
{
    if env.len() == 0 {
        None
    } else if env.last().0 == name {
        Some(env.last().1)
    } else {
        spec_lookup(env.drop_last(), name)
    }
}

/// The parameter names of a closure chain, outermost first; collection
/// stops at the first head that is not a plain identifier.
pub open spec fn closure_params(e: ExprV) -> Seq<Seq<char>>
    decreases e,
{
    match e {
        ExprV::Closure(h, b, _) => match *h {
            ExprV::Atom(AtomV::Id(n), _) => seq![n] + closure_params(*b),
            _ => Seq::empty(),
        },
        _ => Seq::empty(),
    }
}

/// The innermost body of a closure chain, past every collected parameter.
pub open spec fn closure_body(e: ExprV) -> ExprV
    decreases e,
{
    match e {
        ExprV::Closure(h, b, _) => match *h {
            ExprV::Atom(AtomV::Id(n), _) => closure_body(*b),
            _ => e,
        },
        _ => e,
    }
}

/// The fresh call-frame environment: each parameter bound to its already
/// reduced argument, under the argument's span.
pub open spec fn bind_params(params: Seq<Seq<char>>, vals: Seq<AtomV>, spans: Seq<Span>) -> Seq<
    (Seq<char>, ExprV),
> {
    Seq::new(params.len(), |i: int| (params[i], ExprV::Atom(vals[i], spans[i])))
}

/// The spans of an argument list.
pub open spec fn arg_spans(args: Seq<ExprV>) -> Seq<Span> {
    Seq::new(args.len(), |i: int| args[i].span())
}

/// Negation that cannot overflow the machine integer.
pub open spec fn spec_neg_i64(v: i64) -> i64 {
    if v == i64::MIN {
        i64::MIN
    } else {
        (-v) as i64
    }
}

/// Truncated (round-toward-zero) division, as the machine performs it,
/// wrapping on the one overflowing pair.
pub open spec fn spec_div_i64(a: i64, b: i64) -> i64
    recommends
        b != 0,
{
    if a == i64::MIN && b == -1 {
        i64::MIN
    } else {
        let m = (abs_i64(a) / abs_i64(b)) as int;
        if (a < 0) != (b < 0) {
            (-m) as i64
        } else {
            m as i64
        }
    }
}

/// The magnitude of a machine integer, as an unsigned machine integer.
pub open spec fn abs_i64(v: i64) -> u64 {
    if v >= 0 {
        v as u64
    } else if v == i64::MIN {
        9223372036854775808u64
    } else {
        (-v) as u64
    }
}

/// What one binary operator returns on two reduced operands: integer
/// arithmetic wraps, comparisons yield booleans, booleans support equality,
/// and every other combination is a type mismatch at the operator's span.
pub open spec fn spec_binop(op: Op, l: AtomV, r: AtomV, sp: Span) -> Result<AtomV, RuntimeError> {
    match (op, l, r) {
        (Op::Plus, AtomV::Int(a), AtomV::Int(b)) => Ok(AtomV::Int(a.wrapping_add(b))),
        (Op::Minus, AtomV::Int(a), AtomV::Int(b)) => Ok(AtomV::Int(a.wrapping_sub(b))),
        (Op::Mult, AtomV::Int(a), AtomV::Int(b)) => Ok(AtomV::Int(a.wrapping_mul(b))),
        (Op::Div, AtomV::Int(a), AtomV::Int(b)) => {
            if b == 0 {
                Err(RuntimeError { kind: RuntimeErrorKind::DivisionByZero, span: sp })
            } else {
                Ok(AtomV::Int(spec_div_i64(a, b)))
            }
        },
        (Op::Grt, AtomV::Int(a), AtomV::Int(b)) => Ok(AtomV::Bool(a > b)),
        (Op::GrtEq, AtomV::Int(a), AtomV::Int(b)) => Ok(AtomV::Bool(a >= b)),
        (Op::Les, AtomV::Int(a), AtomV::Int(b)) => Ok(AtomV::Bool(a < b)),
        (Op::LesEq, AtomV::Int(a), AtomV::Int(b)) => Ok(AtomV::Bool(a <= b)),
        (Op::Eq, AtomV::Int(a), AtomV::Int(b)) => Ok(AtomV::Bool(a == b)),
        (Op::Neq, AtomV::Int(a), AtomV::Int(b)) => Ok(AtomV::Bool(a != b)),
        (Op::Eq, AtomV::Bool(a), AtomV::Bool(b)) => Ok(AtomV::Bool(a == b)),
        (Op::Neq, AtomV::Bool(a), AtomV::Bool(b)) => Ok(AtomV::Bool(a != b)),
        _ => Err(RuntimeError { kind: RuntimeErrorKind::TypeMismatch, span: sp }),
    }
}

/// What a unary operator returns on one reduced operand.
pub open spec fn spec_unop(op: Op, v: AtomV, sp: Span) -> Result<AtomV, RuntimeError> {
    match (op, v) {
        (Op::Minus, AtomV::Int(a)) => Ok(AtomV::Int(spec_neg_i64(a))),
        (Op::Not, AtomV::Bool(b)) => Ok(AtomV::Bool(!b)),
        _ => Err(RuntimeError { kind: RuntimeErrorKind::TypeMismatch, span: sp }),
    }
}

/// The evaluation relation: the result and the output printed on the way,
/// in order. `fuel` bounds the depth of the walk; exhausting it is the
/// distinct `RecursionLimit` error.
pub open spec fn eval_spec(
    e: ExprV,
    local: Seq<(Seq<char>, ExprV)>,
    global: Seq<(Seq<char>, ExprV)>,
    fuel: u64,
) -> (Result<AtomV, RuntimeError>, Seq<Seq<char>>)
    decreases fuel, 2int, 0int,
{
    if fuel == 0 {
        (Err(RuntimeError { kind: RuntimeErrorKind::RecursionLimit, span: e.span() }), Seq::empty())
    } else {
        match e {
            ExprV::Atom(a, sp) => match a {
                AtomV::Id(name) => match spec_lookup(local, name) {
                    Some(ex) => eval_spec(ex, local, global, (fuel - 1) as u64),
                    None => match spec_lookup(global, name) {
                        Some(ex) => eval_spec(ex, local, global, (fuel - 1) as u64),
                        None => (
                            Err(RuntimeError { kind: RuntimeErrorKind::UndefinedName, span: sp }),
                            Seq::empty(),
                        ),
                    },
                },
                v => (Ok(v), Seq::empty()),
            },
            ExprV::Unary(op, r, sp) => {
                let (res, out) = eval_spec(*r, local, global, (fuel - 1) as u64);
                match res {
                    Ok(v) => (spec_unop(op, v, sp), out),
                    Err(err) => (Err(err), out),
                }
            },
            ExprV::Binary(op, l, r, sp) => {
                let (lres, lout) = eval_spec(*l, local, global, (fuel - 1) as u64);
                match lres {
                    Ok(lv) => {
                        let (rres, rout) = eval_spec(*r, local, global, (fuel - 1) as u64);
                        match rres {
                            Ok(rv) => (spec_binop(op, lv, rv, sp), lout + rout),
                            Err(err) => (Err(err), lout + rout),
                        }
                    },
                    Err(err) => (Err(err), lout),
                }
            },
            ExprV::IfElse(c, t, f, _) => {
                let (cres, cout) = eval_spec(*c, local, global, (fuel - 1) as u64);
                match cres {
                    Ok(AtomV::Bool(true)) => {
                        let (tres, tout) = eval_spec(*t, local, global, (fuel - 1) as u64);
                        (tres, cout + tout)
                    },
                    Ok(AtomV::Bool(false)) => {
                        let (fres, fout) = eval_spec(*f, local, global, (fuel - 1) as u64);
                        (fres, cout + fout)
                    },
                    Ok(_) => (
                        Err(RuntimeError { kind: RuntimeErrorKind::TypeMismatch, span: c.span() }),
                        cout,
                    ),
                    Err(err) => (Err(err), cout),
                }
            },
            ExprV::Closure(_, b, _) => eval_spec(*b, local, global, (fuel - 1) as u64),
            ExprV::App(head, args, sp) => match *head {
                ExprV::Atom(a, hsp) => eval_app_spec(a, hsp, args, sp, local, global, fuel),
                ExprV::Closure(_, _, _) => eval_unfold_spec(
                    *head,
                    args,
                    sp,
                    local,
                    global,
                    fuel,
                ),
                h => {
                    let (hres, hout) = eval_spec(h, local, global, (fuel - 1) as u64);
                    match hres {
                        Ok(AtomV::Id(name)) => {
                            let (r2, out2) = eval_app_spec(
                                AtomV::Id(name),
                                h.span(),
                                args,
                                sp,
                                local,
                                global,
                                (fuel - 1) as u64,
                            );
                            (r2, hout + out2)
                        },
                        Ok(v) => (Ok(v), hout),
                        Err(err) => (Err(err), hout),
                    }
                },
            },
            ExprV::Array(items, _) => {
                let (res, out) = eval_args_spec(items, items.len() as int, local, global, fuel);
                match res {
                    Ok(vals) => (Ok(AtomV::Array(vals)), out),
                    Err(err) => (Err(err), out),
                }
            },
            _ => (
                Err(RuntimeError { kind: RuntimeErrorKind::MalformedBody, span: e.span() }),
                Seq::empty(),
            ),
        }
    }
}

/// Evaluate the first `k` expressions of a list left to right, stopping at
/// the first error.
pub open spec fn eval_args_spec(
    args: Seq<ExprV>,
    k: int,
    local: Seq<(Seq<char>, ExprV)>,
    global: Seq<(Seq<char>, ExprV)>,
    fuel: u64,
) -> (Result<Seq<AtomV>, RuntimeError>, Seq<Seq<char>>)
    decreases fuel, 0int, (if k >= 0 {
        k
    } else {
        0int
    }),
{
    if k <= 0 || fuel == 0 {
        (Ok(Seq::empty()), Seq::empty())
    } else {
        let (prev, pout) = eval_args_spec(args, k - 1, local, global, fuel);
        match prev {
            Ok(vals) => {
                let (res, out) = eval_spec(args[k - 1], local, global, (fuel - 1) as u64);
                match res {
                    Ok(v) => (Ok(vals.push(v)), pout + out),
                    Err(err) => (Err(err), pout + out),
                }
            },
            Err(err) => (Err(err), pout),
        }
    }
}

/// Apply a callee atom, in the documented order: builtins first, then
/// name resolution local before global, then closure unfolding. A callee
/// that is not an identifier is already a value and is returned unchanged.
pub open spec fn eval_app_spec(
    callee: AtomV,
    hsp: Span,
    args: Seq<ExprV>,
    sp: Span,
    local: Seq<(Seq<char>, ExprV)>,
    global: Seq<(Seq<char>, ExprV)>,
    fuel: u64,
) -> (Result<AtomV, RuntimeError>, Seq<Seq<char>>)
    decreases fuel, 1int, 1int,
{
    if fuel == 0 {
        (Err(RuntimeError { kind: RuntimeErrorKind::RecursionLimit, span: sp }), Seq::empty())
    } else {
        match callee {
            AtomV::Id(name) => {
                if name == "print_int"@ || name == "print_bool"@ || name == "print_str"@ {
                    if args.len() != 1 {
                        (
                            Err(RuntimeError { kind: RuntimeErrorKind::ArityMismatch, span: sp }),
                            Seq::empty(),
                        )
                    } else {
                        let (res, out) = eval_spec(args[0], local, global, (fuel - 1) as u64);
                        match res {
                            Ok(v) => (Ok(v), out.push(spec_atom_display(v))),
                            Err(err) => (Err(err), out),
                        }
                    }
                } else if name == "nth"@ {
                    spec_nth(args, sp, local, global, fuel)
                } else if name == "push"@ {
                    spec_push(args, sp, local, global, fuel)
                } else if name == "pop"@ {
                    spec_pop(args, sp, local, global, fuel)
                } else {
                    match spec_lookup(local, name) {
                        Some(f) => eval_unfold_spec(f, args, sp, local, global, fuel),
                        None => match spec_lookup(global, name) {
                            Some(f) => eval_unfold_spec(f, args, sp, local, global, fuel),
                            None => (
                                Err(
                                    RuntimeError {
                                        kind: RuntimeErrorKind::UndefinedName,
                                        span: hsp,
                                    },
                                ),
                                Seq::empty(),
                            ),
                        },
                    }
                }
            },
            v => (Ok(v), Seq::empty()),
        }
    }
}

/// `nth array index`: the first argument must reduce to an array, the
/// second must be a literal integer index, and the index must be in range.
pub open spec fn spec_nth(
    args: Seq<ExprV>,
    sp: Span,
    local: Seq<(Seq<char>, ExprV)>,
    global: Seq<(Seq<char>, ExprV)>,
    fuel: u64,
) -> (Result<AtomV, RuntimeError>, Seq<Seq<char>>)
    decreases fuel, 1int, 0int,
{
    if fuel == 0 {
        (Err(RuntimeError { kind: RuntimeErrorKind::RecursionLimit, span: sp }), Seq::empty())
    } else if args.len() != 2 {
        (Err(RuntimeError { kind: RuntimeErrorKind::ArityMismatch, span: sp }), Seq::empty())
    } else {
        let (res, out) = eval_spec(args[0], local, global, (fuel - 1) as u64);
        match res {
            Ok(AtomV::Array(items)) => match args[1] {
                ExprV::Atom(AtomV::Int(i), _) => {
                    if 0 <= i < items.len() {
                        (Ok(items[i as int]), out)
                    } else {
                        (
                            Err(
                                RuntimeError { kind: RuntimeErrorKind::IndexOutOfRange, span: sp },
                            ),
                            out,
                        )
                    }
                },
                _ => (
                    Err(RuntimeError { kind: RuntimeErrorKind::TypeMismatch, span: sp }),
                    out,
                ),
            },
            Ok(_) => (Err(RuntimeError { kind: RuntimeErrorKind::TypeMismatch, span: sp }), out),
            Err(err) => (Err(err), out),
        }
    }
}

/// `push array value`: append the reduced value, returning the new array.
pub open spec fn spec_push(
    args: Seq<ExprV>,
    sp: Span,
    local: Seq<(Seq<char>, ExprV)>,
    global: Seq<(Seq<char>, ExprV)>,
    fuel: u64,
) -> (Result<AtomV, RuntimeError>, Seq<Seq<char>>)
    decreases fuel, 1int, 0int,
{
    if fuel == 0 {
        (Err(RuntimeError { kind: RuntimeErrorKind::RecursionLimit, span: sp }), Seq::empty())
    } else if args.len() != 2 {
        (Err(RuntimeError { kind: RuntimeErrorKind::ArityMismatch, span: sp }), Seq::empty())
    } else {
        let (res, out) = eval_spec(args[0], local, global, (fuel - 1) as u64);
        match res {
            Ok(AtomV::Array(items)) => {
                let (vres, vout) = eval_spec(args[1], local, global, (fuel - 1) as u64);
                match vres {
                    Ok(v) => (Ok(AtomV::Array(items.push(v))), out + vout),
                    Err(err) => (Err(err), out + vout),
                }
            },
            Ok(_) => (Err(RuntimeError { kind: RuntimeErrorKind::TypeMismatch, span: sp }), out),
            Err(err) => (Err(err), out),
        }
    }
}

/// `pop array`: the last element of a nonempty array.
pub open spec fn spec_pop(
    args: Seq<ExprV>,
    sp: Span,
    local: Seq<(Seq<char>, ExprV)>,
    global: Seq<(Seq<char>, ExprV)>,
    fuel: u64,
) -> (Result<AtomV, RuntimeError>, Seq<Seq<char>>)
    decreases fuel, 1int, 0int,
{
    if fuel == 0 {
        (Err(RuntimeError { kind: RuntimeErrorKind::RecursionLimit, span: sp }), Seq::empty())
    } else if args.len() != 1 {
        (Err(RuntimeError { kind: RuntimeErrorKind::ArityMismatch, span: sp }), Seq::empty())
    } else {
        let (res, out) = eval_spec(args[0], local, global, (fuel - 1) as u64);
        match res {
            Ok(AtomV::Array(items)) => {
                if items.len() == 0 {
                    (
                        Err(RuntimeError { kind: RuntimeErrorKind::EmptyCollection, span: sp }),
                        out,
                    )
                } else {
                    (Ok(items.last()), out)
                }
            },
            Ok(_) => (Err(RuntimeError { kind: RuntimeErrorKind::TypeMismatch, span: sp }), out),
            Err(err) => (Err(err), out),
        }
    }
}

/// Unfold a closure chain at a call site: collect its parameters, demand
/// exactly as many arguments, reduce the arguments left to right, bind them
/// in a fresh call-frame environment, and evaluate the innermost body
/// there.
pub open spec fn eval_unfold_spec(
    f: ExprV,
    args: Seq<ExprV>,
    sp: Span,
    local: Seq<(Seq<char>, ExprV)>,
    global: Seq<(Seq<char>, ExprV)>,
    fuel: u64,
) -> (Result<AtomV, RuntimeError>, Seq<Seq<char>>)
    decreases fuel, 1int, 0int,
{
    if fuel == 0 {
        (Err(RuntimeError { kind: RuntimeErrorKind::RecursionLimit, span: sp }), Seq::empty())
    } else {
        let params = closure_params(f);
        if params.len() != args.len() {
            (Err(RuntimeError { kind: RuntimeErrorKind::ArityMismatch, span: sp }), Seq::empty())
        } else {
            let (res, out) = eval_args_spec(args, args.len() as int, local, global, fuel);
            match res {
                Ok(vals) => {
                    let frame = bind_params(params, vals, arg_spans(args));
                    let (bres, bout) = eval_spec(
                        closure_body(f),
                        frame,
                        global,
                        (fuel - 1) as u64,
                    );
                    (bres, out + bout)
                },
                Err(err) => (Err(err), out),
            }
        }
    }
}

/// The element-wise view of an output log.
pub open spec fn strs_view(s: Seq<String>) -> Seq<Seq<char>>
    decreases s,
{
    if s.len() == 0 {
        Seq::empty()
    } else {
        strs_view(s.drop_last()).push(s.last()@)
    }
}

/// `strs_view` maps the log element by element.
pub proof fn lemma_strs_view(s: Seq<String>)
    ensures
        strs_view(s).len() == s.len(),
        forall|i: int| 0 <= i < s.len() ==> strs_view(s)[i] == (#[trigger] s[i])@,
    decreases s,
{
    if s.len() > 0 {
        lemma_strs_view(s.drop_last());
        assert forall|i: int| 0 <= i < s.len() implies strs_view(s)[i] == (#[trigger] s[i])@ by {
            if i < s.len() - 1 {
                assert(s.drop_last()[i] == s[i]);
            }
        }
    }
}

/// When every argument reduces, there are exactly as many values as
/// arguments asked for.
pub proof fn lemma_args_len(
    args: Seq<ExprV>,
    k: int,
    local: Seq<(Seq<char>, ExprV)>,
    global: Seq<(Seq<char>, ExprV)>,
    fuel: u64,
)
    requires
        0 <= k,
        fuel >= 1,
        eval_args_spec(args, k, local, global, fuel).0 is Ok,
    ensures
        eval_args_spec(args, k, local, global, fuel).0->Ok_0.len() == k,
    decreases k,
{
    if k > 0 {
        lemma_args_len(args, k - 1, local, global, fuel);
    }
}

/// Once argument evaluation fails, evaluating further arguments changes
/// nothing.
pub proof fn lemma_args_absorb(
    args: Seq<ExprV>,
    k: int,
    j: int,
    local: Seq<(Seq<char>, ExprV)>,
    global: Seq<(Seq<char>, ExprV)>,
    fuel: u64,
)
    requires
        0 <= k <= j <= args.len(),
        eval_args_spec(args, k, local, global, fuel).0 is Err,
    ensures
        eval_args_spec(args, j, local, global, fuel) == eval_args_spec(
            args,
            k,
            local,
            global,
            fuel,
        ),
    decreases j - k,
{
    if k < j {
        lemma_args_absorb(args, k, j - 1, local, global, fuel);
    }
}

/// The global environment of a program: every named definition except the
/// entry point, in declaration order; and the entry point's body, if any.
pub open spec fn build_globals_spec(ds: Seq<ExprV>) -> (Seq<(Seq<char>, ExprV)>, Option<ExprV>)
    decreases ds,
{
    if ds.len() == 0 {
        (Seq::empty(), None)
    } else {
        let (env, main) = build_globals_spec(ds.drop_last());
        match ds.last() {
            ExprV::Func(name, _, body, _) => {
                if name == "main"@ {
                    (env, Some(*body))
                } else {
                    ((env.push((name, *body))), main)
                }
            },
            _ => (env, main),
        }
    }
}

/// What running a program means: find `main`, build the globals, and
/// reduce `main`'s body in an empty call frame.
pub open spec fn run_spec(ds: Seq<ExprV>) -> (Result<AtomV, RuntimeError>, Seq<Seq<char>>) {
    let (env, main) = build_globals_spec(ds);
    match main {
        Some(body) => eval_spec(body, Seq::empty(), env, EVAL_FUEL),
        None => (
            Err(RuntimeError { kind: RuntimeErrorKind::MissingEntryPoint, span: Span { start: 0, end: 0 } }),
            Seq::empty(),
        ),
    }
}

/// The view of an expression that is not an identifier atom is not an
/// identifier atom either.
pub proof fn lemma_view_not_id(h: Expr)
    requires
        !(h matches Expr::Atom(Atom::Id(_), _)),
    ensures
        !(expr_view(h) matches ExprV::Atom(AtomV::Id(_), _)),
{
    match h {
        Expr::Atom(a, sp) => {
            match a {
                Atom::Id(_) => {
                    assert(false);
                },
                Atom::Int(_) => {},
                Atom::Float(_) => {},
                Atom::Bool(_) => {},
                Atom::Str(_) => {},
                Atom::Char(_) => {},
                Atom::Array(_) => {},
            }
        },
        Expr::Unary(_, _, _) => {},
        Expr::Binary(_, _, _, _) => {},
        Expr::IfElse(_, _, _, _) => {},
        Expr::Closure(_, _, _) => {},
        Expr::Func(_, _, _, _) => {},
        Expr::App(_, _, _) => {},
        Expr::Array(_, _) => {},
        Expr::Enum(_, _, _) => {},
        Expr::TypeDec(_, _, _) => {},
        Expr::Error(_) => {},
    }
}

/// An expression that is not a closure has no parameters to collect and
/// is its own innermost body.
pub proof fn lemma_params_non_closure(e: Expr)
    requires
        !(e matches Expr::Closure(_, _, _)),
    ensures
        closure_params(expr_view(e)) =~= Seq::<Seq<char>>::empty(),
        closure_body(expr_view(e)) == expr_view(e),
{
    match e {
        Expr::Closure(_, _, _) => {
            assert(false);
        },
        Expr::Atom(_, _) => {},
        Expr::Unary(_, _, _) => {},
        Expr::Binary(_, _, _, _) => {},
        Expr::IfElse(_, _, _, _) => {},
        Expr::Func(_, _, _, _) => {},
        Expr::App(_, _, _) => {},
        Expr::Array(_, _) => {},
        Expr::Enum(_, _, _) => {},
        Expr::TypeDec(_, _, _) => {},
        Expr::Error(_) => {},
    }
}

/// An atom's view has the same constructor as the atom.
pub proof fn lemma_atom_view_ctor(a: Atom)
    ensures
        (atom_view(a) matches AtomV::Id(_)) <==> (a matches Atom::Id(_)),
        (atom_view(a) matches AtomV::Int(_)) <==> (a matches Atom::Int(_)),
        (atom_view(a) matches AtomV::Bool(_)) <==> (a matches Atom::Bool(_)),
        (atom_view(a) matches AtomV::Array(_)) <==> (a matches Atom::Array(_)),
        a matches Atom::Bool(true) <==> atom_view(a) matches AtomV::Bool(true),
{
    match a {
        Atom::Id(_) => {},
        Atom::Int(_) => {},
        Atom::Float(_) => {},
        Atom::Bool(_) => {},
        Atom::Str(_) => {},
        Atom::Char(_) => {},
        Atom::Array(_) => {},
    }
}

/// An expression's view has the same constructor as the expression.
pub proof fn lemma_expr_view_ctor(e: Expr)
    ensures
        (expr_view(e) matches ExprV::Atom(_, _)) <==> (e matches Expr::Atom(_, _)),
        (expr_view(e) matches ExprV::Closure(_, _, _)) <==> (e matches Expr::Closure(_, _, _)),
        (expr_view(e) matches ExprV::Atom(AtomV::Int(_), _)) <==> (e matches Expr::Atom(
            Atom::Int(_),
            _,
        )),
        (expr_view(e) matches ExprV::Func(_, _, _, _)) <==> (e matches Expr::Func(_, _, _, _)),
        (expr_view(e) matches ExprV::Unary(_, _, _)) <==> (e matches Expr::Unary(_, _, _)),
        (expr_view(e) matches ExprV::Binary(_, _, _, _)) <==> (e matches Expr::Binary(
            _,
            _,
            _,
            _,
        )),
        (expr_view(e) matches ExprV::IfElse(_, _, _, _)) <==> (e matches Expr::IfElse(
            _,
            _,
            _,
            _,
        )),
        (expr_view(e) matches ExprV::App(_, _, _)) <==> (e matches Expr::App(_, _, _)),
        (expr_view(e) matches ExprV::Array(_, _)) <==> (e matches Expr::Array(_, _)),
        (expr_view(e) matches ExprV::Enum(_, _, _)) <==> (e matches Expr::Enum(_, _, _)),
        (expr_view(e) matches ExprV::TypeDec(_, _, _)) <==> (e matches Expr::TypeDec(_, _, _)),
        (expr_view(e) matches ExprV::Error(_)) <==> (e matches Expr::Error(_)),
    decreases e,
{
    match e {
        Expr::Atom(a, _) => {
            lemma_atom_view_ctor(a);
        },
        Expr::Unary(_, _, _) => {},
        Expr::Binary(_, _, _, _) => {},
        Expr::IfElse(_, _, _, _) => {},
        Expr::Closure(_, _, _) => {},
        Expr::Func(_, _, _, _) => {},
        Expr::App(_, _, _) => {},
        Expr::Array(_, _) => {},
        Expr::Enum(_, _, _) => {},
        Expr::TypeDec(_, _, _) => {},
        Expr::Error(_) => {},
    }
}

/// The tree-walking interpreter; it carries the lines printed by the
/// print builtins, in order.
pub struct Interpreter {
    pub output: Vec<String>,
}

/// How an executable evaluation step relates to the specification: the
/// same result, and exactly the specified lines appended to the output.
pub open spec fn eval_matches(
    pre: Interpreter,
    post: Interpreter,
    r: Result<Atom, RuntimeError>,
    se: (Result<AtomV, RuntimeError>, Seq<Seq<char>>),
) -> bool {
    &&& (match r {
        Ok(a) => se.0 == Ok::<AtomV, RuntimeError>(atom_view(a)),
        Err(err) => se.0 == Err::<AtomV, RuntimeError>(err),
    })
    &&& strs_view(post.output@) == strs_view(pre.output@) + se.1
}

/// Resolve a name against one environment, latest binding first.
fn lookup_env(env: &Vec<(String, Expr)>, name: &String) -> (r: Option<Expr>)
    ensures
        match spec_lookup(env_view(env@), name@) {
            Some(v) => r matches Some(e) && e@ == v,
            None => r is None,
        },
{
    let ghost full = env_view(env@);
    proof {
        lemma_env_view(env@);
        assert(full.take(env@.len() as int) =~= full);
    }
    let mut i: usize = env.len();
    while i > 0
        invariant
            i <= env@.len(),
            full == env_view(env@),
            full.len() == env@.len(),
            forall|k: int|
                0 <= k < env@.len() ==> full[k] == ((#[trigger] env@[k]).0@, expr_view(
                    env@[k].1,
                )),
            spec_lookup(full, name@) == spec_lookup(full.take(i as int), name@),
        decreases i,
    {
        i = i - 1;
        proof {
            assert(full.take(i + 1).drop_last() =~= full.take(i as int));
            assert(full.take(i + 1).last() == full[i as int]);
        }
        if env[i].0 == *name {
            return Some(env[i].1.clone());
        }
    }
    proof {
        assert(full.take(0) =~= Seq::<(Seq<char>, ExprV)>::empty());
    }
    None
}

/// Collect a closure chain's parameter names and its innermost body.
pub fn split_closure(f: &Expr) -> (r: (Vec<String>, Expr))
    ensures
        strs_view(r.0@) == closure_params(f@),
        r.1@ == closure_body(f@),
{
    let mut params: Vec<String> = Vec::new();
    let mut cur: &Expr = f;
    let mut done = false;
    proof {
        assert(strs_view(params@) + closure_params(cur@) =~= closure_params(f@));
    }
    while !done
        invariant
            closure_params(f@) == strs_view(params@) + closure_params(cur@),
            closure_body(f@) == closure_body(cur@),
            done ==> closure_params(cur@) =~= Seq::<Seq<char>>::empty() && closure_body(cur@)
                == cur@,
        decreases closure_params(cur@).len(), (if done {
            0int
        } else {
            1int
        }),
    {
        match cur {
            Expr::Closure(h, b, csp) => {
                match &**h {
                    Expr::Atom(Atom::Id(n), asp) => {
                        proof {
                            assert(cur@ == ExprV::Closure(
                                Box::new(expr_view(**h)),
                                Box::new(expr_view(**b)),
                                *csp,
                            ));
                            assert(expr_view(**h) == ExprV::Atom(AtomV::Id(n@), *asp));
                            assert(closure_params(cur@) == seq![n@] + closure_params(
                                expr_view(**b),
                            ));
                            assert(closure_body(cur@) == closure_body(expr_view(**b)));
                        }
                        let ghost old_params = params@;
                        let nc = n.clone();
                        params.push(nc);
                        proof {
                            assert(params@.drop_last() =~= old_params);
                            assert(strs_view(params@) =~= strs_view(old_params).push(n@));
                            assert(strs_view(params@) + closure_params(expr_view(**b))
                                =~= closure_params(f@));
                        }
                        cur = &**b;
                    },
                    _ => {
                        proof {
                            assert(cur@ == ExprV::Closure(
                                Box::new(expr_view(**h)),
                                Box::new(expr_view(**b)),
                                *csp,
                            ));
                            lemma_view_not_id(**h);
                            assert(closure_params(cur@) =~= Seq::<Seq<char>>::empty());
                            assert(closure_body(cur@) == cur@);
                        }
                        done = true;
                    },
                }
            },
            _ => {
                proof {
                    lemma_params_non_closure(*cur);
                }
                done = true;
            },
        }
    }
    proof {
        assert(strs_view(params@) =~= closure_params(f@));
    }
    (params, cur.clone())
}

impl Interpreter {
    pub fn new() -> (r: Interpreter)
        ensures
            r.output@.len() == 0,
    {
        Interpreter { output: Vec::new() }
    }

    /// The lines the print builtins emitted so far.
    pub fn output(&self) -> (r: &Vec<String>)
        ensures
            r == &self.output,
    {
        &self.output
    }

    /// Evaluate the first `k` arguments, left to right, stopping at the
    /// first error.
    fn eval_args(
        &mut self,
        args: &Vec<Expr>,
        local: &Vec<(String, Expr)>,
        global: &Vec<(String, Expr)>,
        fuel: u64,
    ) -> (r: Result<Vec<Atom>, RuntimeError>)
        requires
            fuel >= 1,
        ensures
            ({
                let se = eval_args_spec(
                    exprs_view(args@),
                    args@.len() as int,
                    env_view(local@),
                    env_view(global@),
                    fuel,
                );
                &&& (match r {
                    Ok(vals) => se.0 == Ok::<Seq<AtomV>, RuntimeError>(
                        crate::ast::atoms_view(vals@),
                    ),
                    Err(err) => se.0 == Err::<Seq<AtomV>, RuntimeError>(err),
                })
                &&& strs_view(final(self).output@) == strs_view(old(self).output@) + se.1
            }),
        decreases fuel, 1int,
    {
        let ghost av = exprs_view(args@);
        let ghost lv = env_view(local@);
        let ghost gv = env_view(global@);
        proof {
            crate::ast::lemma_exprs_view(args@);
        }
        let mut vals: Vec<Atom> = Vec::new();
        let mut i: usize = 0;
        proof {
            assert(crate::ast::atoms_view(vals@) =~= Seq::<AtomV>::empty());
            assert(strs_view(self.output@) =~= strs_view(old(self).output@) + eval_args_spec(
                av,
                0,
                lv,
                gv,
                fuel,
            ).1);
        }
        while i < args.len()
            invariant
                fuel >= 1,
                i <= args@.len(),
                av == exprs_view(args@),
                av.len() == args@.len(),
                forall|k: int| 0 <= k < args@.len() ==> av[k] == expr_view(#[trigger] args@[k]),
                lv == env_view(local@),
                gv == env_view(global@),
                eval_args_spec(av, i as int, lv, gv, fuel).0 == Ok::<
                    Seq<AtomV>,
                    RuntimeError,
                >(crate::ast::atoms_view(vals@)),
                strs_view(self.output@) == strs_view(old(self).output@) + eval_args_spec(
                    av,
                    i as int,
                    lv,
                    gv,
                    fuel,
                ).1,
            decreases args@.len() - i,
        {
            let ghost pre_out = strs_view(self.output@);
            let ghost prev = eval_args_spec(av, i as int, lv, gv, fuel);
            let res = self.eval(&args[i], local, global, fuel - 1);
            let ghost sub = eval_spec(av[i as int], lv, gv, (fuel - 1) as u64);
            match res {
                Ok(v) => {
                    let ghost old_vals = vals@;
                    vals.push(v);
                    proof {
                        assert(vals@.drop_last() =~= old_vals);
                        assert(crate::ast::atoms_view(vals@) =~= crate::ast::atoms_view(
                            old_vals,
                        ).push(atom_view(vals@.last())));
                        let step = eval_args_spec(av, i + 1, lv, gv, fuel);
                        assert(step.0 == Ok::<Seq<AtomV>, RuntimeError>(
                            crate::ast::atoms_view(vals@),
                        ));
                        assert(step.1 == prev.1 + sub.1);
                        assert(strs_view(self.output@) =~= strs_view(old(self).output@)
                            + step.1);
                    }
                    i = i + 1;
                },
                Err(err) => {
                    proof {
                        let step = eval_args_spec(av, i + 1, lv, gv, fuel);
                        assert(step.0 == Err::<Seq<AtomV>, RuntimeError>(err));
                        assert(step.1 == prev.1 + sub.1);
                        assert(strs_view(self.output@) =~= strs_view(old(self).output@)
                            + step.1);
                        lemma_args_absorb(av, i + 1, av.len() as int, lv, gv, fuel);
                    }
                    return Err(err);
                },
            }
        }
        Ok(vals)
    }

    /// Unfold a closure chain at a call site: strict arity, call-by-value
    /// arguments, a fresh call frame.
    fn eval_unfold(
        &mut self,
        f: &Expr,
        args: &Vec<Expr>,
        sp: Span,
        local: &Vec<(String, Expr)>,
        global: &Vec<(String, Expr)>,
        fuel: u64,
    ) -> (r: Result<Atom, RuntimeError>)
        ensures
            eval_matches(
                *old(self),
                *final(self),
                r,
                eval_unfold_spec(
                    f@,
                    exprs_view(args@),
                    sp,
                    env_view(local@),
                    env_view(global@),
                    fuel,
                ),
            ),
        decreases fuel, 2int,
    {
        let ghost av = exprs_view(args@);
        let ghost lv = env_view(local@);
        let ghost gv = env_view(global@);
        let ghost se = eval_unfold_spec(f@, av, sp, lv, gv, fuel);
        proof {
            crate::ast::lemma_exprs_view(args@);
        }
        if fuel == 0 {
            proof {
                assert(strs_view(self.output@) =~= strs_view(self.output@) + Seq::<
                    Seq<char>,
                >::empty());
            }
            return Err(RuntimeError { kind: RuntimeErrorKind::RecursionLimit, span: sp });
        }
        let (params, body) = split_closure(f);
        proof {
            lemma_strs_view(params@);
        }
        if params.len() != args.len() {
            proof {
                assert(strs_view(self.output@) =~= strs_view(self.output@) + Seq::<
                    Seq<char>,
                >::empty());
            }
            return Err(RuntimeError { kind: RuntimeErrorKind::ArityMismatch, span: sp });
        }
        let vals = match self.eval_args(args, local, global, fuel) {
            Ok(vals) => vals,
            Err(err) => {
                proof {
                    assert(se.0 == Err::<AtomV, RuntimeError>(err));
                    assert(se.1 == eval_args_spec(av, av.len() as int, lv, gv, fuel).1);
                    assert(strs_view(self.output@) == strs_view(old(self).output@) + se.1);
                }
                return Err(err);
            },
        };
        let ghost aout = eval_args_spec(av, av.len() as int, lv, gv, fuel).1;
        let mut frame: Vec<(String, Expr)> = Vec::new();
        let mut i: usize = 0;
        proof {
            lemma_args_len(av, av.len() as int, lv, gv, fuel);
            crate::ast::lemma_atoms_view(vals@);
            lemma_strs_view(params@);
        }
        while i < params.len()
            invariant
                i <= params@.len(),
                params@.len() == vals@.len() == args@.len(),
                frame@.len() == i,
                av == exprs_view(args@),
                av.len() == args@.len(),
                forall|k: int| 0 <= k < args@.len() ==> av[k] == expr_view(#[trigger] args@[k]),
                forall|k: int|
                    0 <= k < i ==> env_view(frame@)[k] == ((#[trigger] frame@[k]).0@, expr_view(
                        frame@[k].1,
                    )),
                forall|k: int|
                    0 <= k < i ==> ((#[trigger] frame@[k]).0@ == params@[k]@ && expr_view(
                        frame@[k].1,
                    ) == ExprV::Atom(atom_view(vals@[k]), av[k].span())),
            decreases params@.len() - i,
        {
            let name = params[i].clone();
            let v = vals[i].clone();
            let asp = args[i].span();
            frame.push((name, Expr::Atom(v, asp)));
            proof {
                lemma_env_view(frame@);
            }
            i = i + 1;
        }
        proof {
            lemma_env_view(frame@);
            lemma_strs_view(params@);
            crate::ast::lemma_atoms_view(vals@);
            let bp = bind_params(closure_params(f@), crate::ast::atoms_view(vals@), arg_spans(av));
            assert(env_view(frame@).len() == bp.len());
            assert forall|k: int| 0 <= k < bp.len() implies env_view(frame@)[k] == bp[k] by {
                assert(env_view(frame@)[k] == ((frame@[k]).0@, expr_view(frame@[k].1)));
                assert(strs_view(params@) == closure_params(f@));
                assert(strs_view(params@)[k] == params@[k]@);
                assert(closure_params(f@)[k] == params@[k]@);
                assert((frame@[k]).0@ == params@[k]@);
                assert(crate::ast::atoms_view(vals@)[k] == atom_view(vals@[k]));
                assert(arg_spans(av)[k] == av[k].span());
                assert(expr_view(frame@[k].1) == ExprV::Atom(atom_view(vals@[k]), av[k].span()));
                assert(bp[k] == (closure_params(f@)[k], ExprV::Atom(
                    crate::ast::atoms_view(vals@)[k],
                    arg_spans(av)[k],
                )));
            }
            assert(env_view(frame@) =~= bp);
        }
        let res = self.eval(&body, &frame, global, fuel - 1);
        proof {
            let se = eval_unfold_spec(f@, av, sp, lv, gv, fuel);
            let bspec = eval_spec(closure_body(f@), env_view(frame@), gv, (fuel - 1) as u64);
            assert(se.0 == bspec.0);
            assert(se.1 == aout + bspec.1);
            assert(strs_view(self.output@) =~= strs_view(old(self).output@) + (aout + bspec.1));
        }
        res
    }

    /// Apply a callee atom: builtin dispatch first, then name resolution
    /// local before global, then closure unfolding. A callee that is not
    /// an identifier is already a value.
    fn eval_app(
        &mut self,
        callee: &Atom,
        hsp: Span,
        args: &Vec<Expr>,
        sp: Span,
        local: &Vec<(String, Expr)>,
        global: &Vec<(String, Expr)>,
        fuel: u64,
    ) -> (r: Result<Atom, RuntimeError>)
        ensures
            eval_matches(
                *old(self),
                *final(self),
                r,
                eval_app_spec(
                    callee@,
                    hsp,
                    exprs_view(args@),
                    sp,
                    env_view(local@),
                    env_view(global@),
                    fuel,
                ),
            ),
        decreases fuel, 3int,
    {
        let ghost av = exprs_view(args@);
        let ghost lv = env_view(local@);
        let ghost gv = env_view(global@);
        proof {
            crate::ast::lemma_exprs_view(args@);
            assert(strs_view(self.output@) =~= strs_view(self.output@) + Seq::<
                Seq<char>,
            >::empty());
        }
        if fuel == 0 {
            return Err(RuntimeError { kind: RuntimeErrorKind::RecursionLimit, span: sp });
        }
        let name = match callee {
            Atom::Id(n) => n,
            _ => {
                proof {
                    lemma_atom_view_ctor(*callee);
                }
                return Ok(callee.clone());
            },
        };
        let is_print = *name == String::from_str("print_int") || *name == String::from_str(
            "print_bool",
        ) || *name == String::from_str("print_str");
        if is_print {
            if args.len() != 1 {
                return Err(RuntimeError { kind: RuntimeErrorKind::ArityMismatch, span: sp });
            }
            let res = self.eval(&args[0], local, global, fuel - 1);
            match res {
                Ok(v) => {
                    let line = atom_display(&v);
                    let ghost mid_out = self.output@;
                    let ghost sub = eval_spec(av[0], lv, gv, (fuel - 1) as u64);
                    self.output.push(line);
                    proof {
                        assert(self.output@.drop_last() =~= mid_out);
                        assert(strs_view(self.output@) =~= strs_view(mid_out).push(
                            spec_atom_display(atom_view(v)),
                        ));
                        assert(strs_view(self.output@) =~= strs_view(old(self).output@) + (
                        sub.1.push(spec_atom_display(atom_view(v)))));
                    }
                    return Ok(v);
                },
                Err(err) => {
                    return Err(err);
                },
            }
        }
        if *name == String::from_str("nth") {
            if args.len() != 2 {
                return Err(RuntimeError { kind: RuntimeErrorKind::ArityMismatch, span: sp });
            }
            let res = self.eval(&args[0], local, global, fuel - 1);
            let items = match res {
                Ok(Atom::Array(items)) => items,
                Ok(v) => {
                    proof {
                        lemma_atom_view_ctor(v);
                    }
                    return Err(RuntimeError { kind: RuntimeErrorKind::TypeMismatch, span: sp });
                },
                Err(err) => {
                    return Err(err);
                },
            };
            proof {
                crate::ast::lemma_atoms_view(items@);
                lemma_expr_view_ctor(args@[1]);
            }
            match &args[1] {
                Expr::Atom(Atom::Int(i), _) => {
                    let i = *i;
                    if 0 <= i && (i as u64) < (items.len() as u64) {
                        return Ok(items[i as usize].clone());
                    } else {
                        return Err(
                            RuntimeError { kind: RuntimeErrorKind::IndexOutOfRange, span: sp },
                        );
                    }
                },
                _ => {
                    return Err(RuntimeError { kind: RuntimeErrorKind::TypeMismatch, span: sp });
                },
            }
        }
        if *name == String::from_str("push") {
            if args.len() != 2 {
                return Err(RuntimeError { kind: RuntimeErrorKind::ArityMismatch, span: sp });
            }
            let res = self.eval(&args[0], local, global, fuel - 1);
            let mut items = match res {
                Ok(Atom::Array(items)) => items,
                Ok(v) => {
                    proof {
                        lemma_atom_view_ctor(v);
                    }
                    return Err(RuntimeError { kind: RuntimeErrorKind::TypeMismatch, span: sp });
                },
                Err(err) => {
                    return Err(err);
                },
            };
            let vres = self.eval(&args[1], local, global, fuel - 1);
            match vres {
                Ok(v) => {
                    let ghost old_items = items@;
                    let ghost sub0 = eval_spec(av[0], lv, gv, (fuel - 1) as u64);
                    let ghost sub1 = eval_spec(av[1], lv, gv, (fuel - 1) as u64);
                    items.push(v);
                    proof {
                        assert(items@.drop_last() =~= old_items);
                        assert(crate::ast::atoms_view(items@) =~= crate::ast::atoms_view(
                            old_items,
                        ).push(atom_view(items@.last())));
                        assert(strs_view(self.output@) =~= strs_view(old(self).output@) + (
                        sub0.1 + sub1.1));
                    }
                    return Ok(Atom::Array(items));
                },
                Err(err) => {
                    proof {
                        let sub0 = eval_spec(av[0], lv, gv, (fuel - 1) as u64);
                        let sub1 = eval_spec(av[1], lv, gv, (fuel - 1) as u64);
                        assert(strs_view(self.output@) =~= strs_view(old(self).output@) + (
                        sub0.1 + sub1.1));
                    }
                    return Err(err);
                },
            }
        }
        if *name == String::from_str("pop") {
            if args.len() != 1 {
                return Err(RuntimeError { kind: RuntimeErrorKind::ArityMismatch, span: sp });
            }
            let res = self.eval(&args[0], local, global, fuel - 1);
            let items = match res {
                Ok(Atom::Array(items)) => items,
                Ok(v) => {
                    proof {
                        lemma_atom_view_ctor(v);
                    }
                    return Err(RuntimeError { kind: RuntimeErrorKind::TypeMismatch, span: sp });
                },
                Err(err) => {
                    return Err(err);
                },
            };
            proof {
                crate::ast::lemma_atoms_view(items@);
            }
            if items.len() == 0 {
                return Err(RuntimeError { kind: RuntimeErrorKind::EmptyCollection, span: sp });
            }
            return Ok(items[items.len() - 1].clone());
        }
        let f = match lookup_env(local, name) {
            Some(f) => Some(f),
            None => lookup_env(global, name),
        };
        match f {
            Some(f) => self.eval_unfold(&f, args, sp, local, global, fuel),
            None => Err(RuntimeError { kind: RuntimeErrorKind::UndefinedName, span: hsp }),
        }
    }

    /// Evaluate one expression: the central recursive walk, proved to
    /// agree with the specification-level interpreter in result and
    /// printed output.
    pub fn eval(
        &mut self,
        e: &Expr,
        local: &Vec<(String, Expr)>,
        global: &Vec<(String, Expr)>,
        fuel: u64,
    ) -> (r: Result<Atom, RuntimeError>)
        ensures
            eval_matches(
                *old(self),
                *final(self),
                r,
                eval_spec(e@, env_view(local@), env_view(global@), fuel),
            ),
        decreases fuel, 4int,
    {
        let ghost lv = env_view(local@);
        let ghost gv = env_view(global@);
        proof {
            lemma_expr_view_ctor(*e);
            assert(strs_view(self.output@) =~= strs_view(self.output@) + Seq::<
                Seq<char>,
            >::empty());
        }
        if fuel == 0 {
            let sp = e.span();
            return Err(RuntimeError { kind: RuntimeErrorKind::RecursionLimit, span: sp });
        }
        match e {
            Expr::Atom(a, sp) => {
                let name = match a {
                    Atom::Id(n) => n,
                    _ => {
                        proof {
                            lemma_atom_view_ctor(*a);
                        }
                        return Ok(a.clone());
                    },
                };
                let f = match lookup_env(local, name) {
                    Some(f) => Some(f),
                    None => lookup_env(global, name),
                };
                match f {
                    Some(f) => self.eval(&f, local, global, fuel - 1),
                    None => Err(
                        RuntimeError { kind: RuntimeErrorKind::UndefinedName, span: *sp },
                    ),
                }
            },
            Expr::Unary(op, rhs, sp) => {
                let res = self.eval(rhs, local, global, fuel - 1);
                match res {
                    Ok(v) => self.unary(*op, v, *sp),
                    Err(err) => Err(err),
                }
            },
            Expr::Binary(op, lhs, rhs, sp) => {
                let lres = self.eval(lhs, local, global, fuel - 1);
                let lval = match lres {
                    Ok(v) => v,
                    Err(err) => {
                        return Err(err);
                    },
                };
                let rres = self.eval(rhs, local, global, fuel - 1);
                let ghost lout = eval_spec(expr_view(**lhs), lv, gv, (fuel - 1) as u64).1;
                let ghost rout = eval_spec(expr_view(**rhs), lv, gv, (fuel - 1) as u64).1;
                proof {
                    assert(strs_view(self.output@) =~= strs_view(old(self).output@) + (lout
                        + rout));
                }
                match rres {
                    Ok(rv) => self.binary(*op, lval, rv, *sp),
                    Err(err) => Err(err),
                }
            },
            Expr::IfElse(c, t, f, _) => {
                let cres = self.eval(c, local, global, fuel - 1);
                let ghost cout = eval_spec(expr_view(**c), lv, gv, (fuel - 1) as u64).1;
                match cres {
                    Ok(Atom::Bool(true)) => {
                        let r = self.eval(t, local, global, fuel - 1);
                        proof {
                            let tout = eval_spec(expr_view(**t), lv, gv, (fuel - 1) as u64).1;
                            assert(strs_view(self.output@) =~= strs_view(old(self).output@) + (
                            cout + tout));
                        }
                        r
                    },
                    Ok(Atom::Bool(false)) => {
                        let r = self.eval(f, local, global, fuel - 1);
                        proof {
                            let fout = eval_spec(expr_view(**f), lv, gv, (fuel - 1) as u64).1;
                            assert(strs_view(self.output@) =~= strs_view(old(self).output@) + (
                            cout + fout));
                        }
                        r
                    },
                    Ok(v) => {
                        proof {
                            lemma_atom_view_ctor(v);
                        }
                        let csp = c.span();
                        Err(RuntimeError { kind: RuntimeErrorKind::TypeMismatch, span: csp })
                    },
                    Err(err) => Err(err),
                }
            },
            Expr::Closure(_, b, _) => self.eval(b, local, global, fuel - 1),
            Expr::App(head, args, sp) => {
                match &**head {
                    Expr::Atom(a, hsp) => self.eval_app(a, *hsp, args, *sp, local, global, fuel),
                    Expr::Closure(_, _, _) => self.eval_unfold(
                        head,
                        args,
                        *sp,
                        local,
                        global,
                        fuel,
                    ),
                    _ => {
                        proof {
                            lemma_expr_view_ctor(**head);
                        }
                        let hres = self.eval(head, local, global, fuel - 1);
                        let ghost hout = eval_spec(expr_view(**head), lv, gv, (fuel - 1) as u64).1;
                        match hres {
                            Ok(Atom::Id(n)) => {
                                let hsp = head.span();
                                let cal = Atom::Id(n);
                                let r = self.eval_app(
                                    &cal,
                                    hsp,
                                    args,
                                    *sp,
                                    local,
                                    global,
                                    fuel - 1,
                                );
                                proof {
                                    let sub = eval_app_spec(
                                        atom_view(cal),
                                        hsp,
                                        exprs_view(args@),
                                        *sp,
                                        lv,
                                        gv,
                                        (fuel - 1) as u64,
                                    );
                                    assert(strs_view(self.output@) =~= strs_view(
                                        old(self).output@,
                                    ) + (hout + sub.1));
                                }
                                r
                            },
                            Ok(v) => {
                                proof {
                                    lemma_atom_view_ctor(v);
                                }
                                Ok(v)
                            },
                            Err(err) => Err(err),
                        }
                    },
                }
            },
            Expr::Array(items, asp) => {
                proof {
                    crate::ast::lemma_exprs_view(items@);
                    assert(e@ == ExprV::Array(exprs_view(items@), *asp));
                }
                let res = self.eval_args(items, local, global, fuel);
                match res {
                    Ok(vals) => {
                        proof {
                            crate::ast::lemma_atoms_view(vals@);
                        }
                        Ok(Atom::Array(vals))
                    },
                    Err(err) => Err(err),
                }
            },
            _ => {
                let sp = e.span();
                Err(RuntimeError { kind: RuntimeErrorKind::MalformedBody, span: sp })
            },
        }
    }

    /// Apply a unary operator to a reduced operand.
    pub fn unary(&mut self, op: Op, v: Atom, sp: Span) -> (r: Result<Atom, RuntimeError>)
        ensures
            *final(self) == *old(self),
            match r {
                Ok(a) => spec_unop(op, atom_view(v), sp) == Ok::<AtomV, RuntimeError>(
                    atom_view(a),
                ),
                Err(err) => spec_unop(op, atom_view(v), sp) == Err::<AtomV, RuntimeError>(err),
            },
    {
        match (op, v) {
            (Op::Minus, Atom::Int(a)) => {
                if a == i64::MIN {
                    Ok(Atom::Int(i64::MIN))
                } else {
                    Ok(Atom::Int(-a))
                }
            },
            (Op::Not, Atom::Bool(b)) => Ok(Atom::Bool(!b)),
            _ => Err(RuntimeError { kind: RuntimeErrorKind::TypeMismatch, span: sp }),
        }
    }

    /// Apply a binary operator to two reduced operands: wrapping integer
    /// arithmetic, truncated division, comparisons, boolean equality.
    pub fn binary(&mut self, op: Op, l: Atom, r0: Atom, sp: Span) -> (r: Result<
        Atom,
        RuntimeError,
    >)
        ensures
            *final(self) == *old(self),
            match r {
                Ok(a) => spec_binop(op, atom_view(l), atom_view(r0), sp) == Ok::<
                    AtomV,
                    RuntimeError,
                >(atom_view(a)),
                Err(err) => spec_binop(op, atom_view(l), atom_view(r0), sp) == Err::<
                    AtomV,
                    RuntimeError,
                >(err),
            },
    {
        match (op, l, r0) {
            (Op::Plus, Atom::Int(a), Atom::Int(b)) => Ok(Atom::Int(a.wrapping_add(b))),
            (Op::Minus, Atom::Int(a), Atom::Int(b)) => Ok(Atom::Int(a.wrapping_sub(b))),
            (Op::Mult, Atom::Int(a), Atom::Int(b)) => Ok(Atom::Int(a.wrapping_mul(b))),
            (Op::Div, Atom::Int(a), Atom::Int(b)) => {
                if b == 0 {
                    Err(RuntimeError { kind: RuntimeErrorKind::DivisionByZero, span: sp })
                } else {
                    Ok(Atom::Int(div_i64(a, b)))
                }
            },
            (Op::Grt, Atom::Int(a), Atom::Int(b)) => Ok(Atom::Bool(a > b)),
            (Op::GrtEq, Atom::Int(a), Atom::Int(b)) => Ok(Atom::Bool(a >= b)),
            (Op::Les, Atom::Int(a), Atom::Int(b)) => Ok(Atom::Bool(a < b)),
            (Op::LesEq, Atom::Int(a), Atom::Int(b)) => Ok(Atom::Bool(a <= b)),
            (Op::Eq, Atom::Int(a), Atom::Int(b)) => Ok(Atom::Bool(a == b)),
            (Op::Neq, Atom::Int(a), Atom::Int(b)) => Ok(Atom::Bool(a != b)),
            (Op::Eq, Atom::Bool(a), Atom::Bool(b)) => Ok(Atom::Bool(a == b)),
            (Op::Neq, Atom::Bool(a), Atom::Bool(b)) => Ok(Atom::Bool(a != b)),
            _ => Err(RuntimeError { kind: RuntimeErrorKind::TypeMismatch, span: sp }),
        }
    }

    /// Run a program: build the global environment from every named
    /// definition, demand an entry point, and reduce its body.
    pub fn run(&mut self, ast: &Vec<Expr>) -> (r: Result<Atom, RuntimeError>)
        ensures
            eval_matches(*old(self), *final(self), r, run_spec(exprs_view(ast@))),
    {
        let ghost dv = exprs_view(ast@);
        proof {
            crate::ast::lemma_exprs_view(ast@);
            assert(dv.take(0) =~= Seq::<ExprV>::empty());
        }
        let mut global: Vec<(String, Expr)> = Vec::new();
        let mut main_body: Option<Expr> = None;
        let mut i: usize = 0;
        proof {
            lemma_env_view(global@);
            assert(env_view(global@) =~= build_globals_spec(dv.take(0)).0);
        }
        while i < ast.len()
            invariant
                i <= ast@.len(),
                dv == exprs_view(ast@),
                dv.len() == ast@.len(),
                forall|k: int| 0 <= k < ast@.len() ==> dv[k] == expr_view(#[trigger] ast@[k]),
                env_view(global@) == build_globals_spec(dv.take(i as int)).0,
                match main_body {
                    Some(b) => build_globals_spec(dv.take(i as int)).1 == Some(b@),
                    None => build_globals_spec(dv.take(i as int)).1 is None,
                },
            decreases ast@.len() - i,
        {
            proof {
                assert(dv.take(i + 1).drop_last() =~= dv.take(i as int));
                assert(dv.take(i + 1).last() == dv[i as int]);
            }
            proof {
                lemma_expr_view_ctor(ast@[i as int]);
            }
            match &ast[i] {
                Expr::Func(name, _, body, _) => {
                    if *name == String::from_str("main") {
                        main_body = Some((**body).clone());
                    } else {
                        let ghost old_global = global@;
                        global.push((name.clone(), (**body).clone()));
                        proof {
                            assert(global@.drop_last() =~= old_global);
                            assert(env_view(global@) =~= env_view(old_global).push(
                                (global@.last().0@, expr_view(global@.last().1)),
                            ));
                        }
                    }
                },
                _ => {},
            }
            i = i + 1;
        }
        proof {
            assert(dv.take(dv.len() as int) =~= dv);
        }
        match main_body {
            Some(body) => {
                let empty_local: Vec<(String, Expr)> = Vec::new();
                proof {
                    assert(env_view(empty_local@) =~= Seq::<(Seq<char>, ExprV)>::empty());
                }
                self.eval(&body, &empty_local, &global, EVAL_FUEL)
            },
            None => {
                proof {
                    assert(strs_view(self.output@) =~= strs_view(self.output@) + Seq::<
                        Seq<char>,
                    >::empty());
                }
                Err(
                    RuntimeError {
                        kind: RuntimeErrorKind::MissingEntryPoint,
                        span: Span { start: 0, end: 0 },
                    },
                )
            },
        }
    }
}

/// Why running a source text produced no value: it did not parse, or its
/// evaluation failed.
#[derive(Debug)]
pub enum SourceError {
    Parse(Vec<crate::parser::ParseError>),
    Runtime(RuntimeError),
}

/// Parse a source text and run it: the entry point's value and the lines
/// printed on the way, or the first stage's diagnostics.
pub fn run_source(src: &str) -> (r: Result<(Atom, Vec<String>), SourceError>)
    ensures
        match r {
            Ok((a, out)) => {
                &&& crate::parser::spec_parse_source(src@).1 == 0
                &&& run_spec(crate::parser::spec_parse_source(src@).0).0 == Ok::<
                    AtomV,
                    RuntimeError,
                >(atom_view(a))
                &&& run_spec(crate::parser::spec_parse_source(src@).0).1 == strs_view(out@)
            },
            Err(e) => match e {
                SourceError::Parse(es) => es@.len() == crate::parser::spec_parse_source(
                    src@,
                ).1 && es@.len() >= 1,
                SourceError::Runtime(err) => crate::parser::spec_parse_source(src@).1 == 0
                    && run_spec(crate::parser::spec_parse_source(src@).0).0 == Err::<
                    AtomV,
                    RuntimeError,
                >(err),
            },
        },
{
    match crate::parser::parse(src) {
        Ok(ds) => {
            let mut it = Interpreter::new();
            match it.run(&ds) {
                Ok(a) => {
                    proof {
                        let dv = exprs_view(ds@);
                        assert(strs_view(Seq::<String>::empty()) =~= Seq::<Seq<char>>::empty());
                        assert(strs_view(it.output@) =~= run_spec(dv).1);
                        assert(run_spec(dv).0 == Ok::<AtomV, RuntimeError>(atom_view(a)));
                    }
                    Ok((a, it.output))
                },
                Err(err) => Err(SourceError::Runtime(err)),
            }
        },
        Err(es) => Err(SourceError::Parse(es)),
    }
}

/// Truncated division of machine integers, the divisor nonzero; the one
/// overflowing quotient wraps.
pub fn div_i64(a: i64, b: i64) -> (r: i64)
    requires
        b != 0,
    ensures
        r == spec_div_i64(a, b),
{
    if a == i64::MIN && b == -1 {
        return i64::MIN;
    }
    let am: u64 = if a >= 0 {
        a as u64
    } else if a == i64::MIN {
        9223372036854775808u64
    } else {
        (-a) as u64
    };
    let bm: u64 = if b >= 0 {
        b as u64
    } else if b == i64::MIN {
        9223372036854775808u64
    } else {
        (-b) as u64
    };
    let q: u64 = am / bm;
    let negative = (a < 0) != (b < 0);
    if negative {
        if q == 9223372036854775808u64 {
            i64::MIN
        } else {
            -(q as i64)
        }
    } else {
        q as i64
    }
}

} // verus!
