//! The evaluator: special-form dispatch (`define`, `if`, `lambda`), strict
//! builtin arithmetic and comparison, and user-function application with
//! closure capture.
//!
//! [`eval_spec`] is the model: a total, fuel-indexed evaluator over
//! [`SpecExpr`] and environment maps, where the fuel falls by one at every
//! recursive step and exhausting it is an error of its own. The executable
//! [`eval`] threads a `u64::MAX` fuel counter and returns exactly what the
//! model returns at that fuel, leaving the environment exactly as the model
//! says; the fuel can only run out after a chain of more nested steps than
//! any machine can take.
//!
//! Arithmetic wraps modulo `2^32` (the two's-complement behaviour of `i32`),
//! so that evaluation never aborts: the error taxonomy has no overflow case.

use vstd::prelude::*;

use vstd::arithmetic::div_mod::{
    lemma_fundamental_div_mod, lemma_mod_multiples_vanish, lemma_small_mod,
};

use crate::text::{spec_udec, str_eq, usize_decimal};
use crate::types::{bindings_view, exprs_view, lemma_exprs_view, Env, Expr};
use crate::types::SpecExpr;

verus! {

/// The model of an environment.
pub type SpecEnv = Map<Seq<char>, SpecExpr>;

/// A builtin operator name, carried by errors that name the operator.
#[derive(Clone, Copy, Debug, PartialEq)]
pub enum Op {
    Add,
    Sub,
    Mul,
    Div,
    Lt,
    Gt,
    Le,
    Ge,
    NumEq,
}

/// The operator's written form.
pub open spec fn op_text(op: Op) -> Seq<char> {
    match op {
        Op::Add => "+"@,
        Op::Sub => "-"@,
        Op::Mul => "*"@,
        Op::Div => "/"@,
        Op::Lt => "<"@,
        Op::Gt => ">"@,
        Op::Le => "<="@,
        Op::Ge => ">="@,
        Op::NumEq => "="@,
    }
}

/// An evaluation failure, over the mathematical model.
pub enum SpecErr {
    /// A symbol was evaluated that the environment does not bind.
    UndefinedVariable(Seq<char>),
    /// An empty list was evaluated.
    EmptyList,
    /// A `define` form with fewer than two operands.
    DefineArity,
    /// The first operand of `define` was not a bare symbol.
    NotASymbol,
    /// An `if` form without exactly three operands.
    IfArity,
    /// An `if` condition that reduced to neither a boolean nor a number.
    IfCondType,
    /// A `lambda` form without exactly two operands.
    LambdaArity,
    /// The first operand of `lambda` was not a list.
    LambdaParamsNotList,
    /// A `lambda` parameter that is not a bare symbol.
    LambdaParamNotSymbol,
    /// A user function called with the wrong number of arguments.
    CallArity { expected: int, actual: int },
    /// A builtin operator applied to a non-number.
    NotNumbers(Op),
    /// `-` with no argument at all.
    SubArity,
    /// `*` with fewer than two arguments.
    MulArity,
    /// `/` with fewer than two arguments.
    DivArity,
    /// A comparison without exactly two arguments.
    CmpArity(Op),
    /// `/` with a zero divisor.
    DivByZero,
    /// A head symbol that is neither bound nor a builtin.
    UnknownFunction(Seq<char>),
    /// A head that evaluated to something other than a function.
    HeadNotFunction,
    /// The fuel ran out: deeper recursion than the evaluator admits.
    Depth,
}

/// An evaluation failure as the evaluator reports it.
pub enum EvalErr {
    UndefinedVariable(String),
    EmptyList,
    DefineArity,
    NotASymbol,
    IfArity,
    IfCondType,
    LambdaArity,
    LambdaParamsNotList,
    LambdaParamNotSymbol,
    CallArity { expected: usize, actual: usize },
    NotNumbers(Op),
    SubArity,
    MulArity,
    DivArity,
    CmpArity(Op),
    DivByZero,
    UnknownFunction(String),
    HeadNotFunction,
    Depth,
}

impl View for EvalErr {
    type V = SpecErr;

    open spec fn view(&self) -> SpecErr {
        match self {
            EvalErr::UndefinedVariable(s) => SpecErr::UndefinedVariable(s@),
            EvalErr::EmptyList => SpecErr::EmptyList,
            EvalErr::DefineArity => SpecErr::DefineArity,
            EvalErr::NotASymbol => SpecErr::NotASymbol,
            EvalErr::IfArity => SpecErr::IfArity,
            EvalErr::IfCondType => SpecErr::IfCondType,
            EvalErr::LambdaArity => SpecErr::LambdaArity,
            EvalErr::LambdaParamsNotList => SpecErr::LambdaParamsNotList,
            EvalErr::LambdaParamNotSymbol => SpecErr::LambdaParamNotSymbol,
            EvalErr::CallArity { expected, actual } => SpecErr::CallArity {
                expected: *expected as int,
                actual: *actual as int,
            },
            EvalErr::NotNumbers(op) => SpecErr::NotNumbers(*op),
            EvalErr::SubArity => SpecErr::SubArity,
            EvalErr::MulArity => SpecErr::MulArity,
            EvalErr::DivArity => SpecErr::DivArity,
            EvalErr::CmpArity(op) => SpecErr::CmpArity(*op),
            EvalErr::DivByZero => SpecErr::DivByZero,
            EvalErr::UnknownFunction(s) => SpecErr::UnknownFunction(s@),
            EvalErr::HeadNotFunction => SpecErr::HeadNotFunction,
            EvalErr::Depth => SpecErr::Depth,
        }
    }
}

/// The message text of each evaluation failure.
pub open spec fn msg_of_err(e: SpecErr) -> Seq<char> {
    match e {
        SpecErr::UndefinedVariable(s) => "undefined variable: "@ + s,
        SpecErr::EmptyList => "cannot eval empty list"@,
        SpecErr::DefineArity => "define requires 2 arguments"@,
        SpecErr::NotASymbol => "define requires a symbol as first argument"@,
        SpecErr::IfArity => "if requires 3 arguments"@,
        SpecErr::IfCondType => "if condition must be a boolean"@,
        SpecErr::LambdaArity => "lambda requires 2 arguments: params and body"@,
        SpecErr::LambdaParamsNotList => "lambda parameters must be a list"@,
        SpecErr::LambdaParamNotSymbol => "lambda parameters must be symbols"@,
        SpecErr::CallArity { expected, actual } => "function expects "@ + spec_udec(expected)
            + " arguments, got "@ + spec_udec(actual),
        SpecErr::NotNumbers(op) => op_text(op) + " requires numbers"@,
        SpecErr::SubArity => "- requires at least 1 number"@,
        SpecErr::MulArity => "* requires at least 2 numbers"@,
        SpecErr::DivArity => "/ requires 2 numbers"@,
        SpecErr::CmpArity(op) => op_text(op) + " requires exactly 2 arguments"@,
        SpecErr::DivByZero => "cannot divide by 0"@,
        SpecErr::UnknownFunction(s) => "unknown function: "@ + s,
        SpecErr::HeadNotFunction => "first element must be a function name"@,
        SpecErr::Depth => "recursion depth exceeded"@,
    }
}

/// The value `v` reduced into the `i32` range, modulo `2^32`.
pub open spec fn wrap32(v: int) -> int {
    let m = v % 0x1_0000_0000;
    if m > 0x7fff_ffff {
        m - 0x1_0000_0000
    } else {
        m
    }
}

/// Shifting by a whole number of `2^32` steps does not change the wrap.
pub proof fn lemma_wrap32_shift(b: int, t: int)
    ensures
        wrap32(0x1_0000_0000 * t + b) == wrap32(b),
{
    lemma_mod_multiples_vanish(t, b, 0x1_0000_0000);
}

/// A value already in the `i32` range wraps to itself.
pub proof fn lemma_wrap32_id(v: int)
    requires
        -0x8000_0000 <= v <= 0x7fff_ffff,
    ensures
        wrap32(v) == v,
{
    if v >= 0 {
        lemma_small_mod(v as nat, 0x1_0000_0000nat);
    } else {
        lemma_mod_multiples_vanish(1, v, 0x1_0000_0000);
        lemma_small_mod((v + 0x1_0000_0000) as nat, 0x1_0000_0000nat);
    }
}

/// The wrap of a value differs from it by a whole number of `2^32` steps.
pub proof fn lemma_wrap32_congruent(v: int) -> (t: int)
    ensures
        wrap32(v) == v + 0x1_0000_0000 * t,
{
    lemma_fundamental_div_mod(v, 0x1_0000_0000);
    let q = v / 0x1_0000_0000;
    assert(v == 0x1_0000_0000 * q + v % 0x1_0000_0000);
    if v % 0x1_0000_0000 > 0x7fff_ffff {
        assert(wrap32(v) == v + 0x1_0000_0000 * (-q - 1)) by {
            assert(0x1_0000_0000 * (-q - 1) == -(0x1_0000_0000 * q) - 0x1_0000_0000) by (nonlinear_arith);
        }
        -q - 1
    } else {
        assert(wrap32(v) == v + 0x1_0000_0000 * (-q)) by {
            assert(0x1_0000_0000 * (-q) == -(0x1_0000_0000 * q)) by (nonlinear_arith);
        }
        -q
    }
}

/// Wrapping an addend first does not change a wrapped sum.
pub proof fn lemma_wrap32_add(x: int, y: int)
    ensures
        wrap32(wrap32(x) + y) == wrap32(x + y),
{
    let t = lemma_wrap32_congruent(x);
    assert(wrap32(x) + y == 0x1_0000_0000 * t + (x + y));
    lemma_wrap32_shift(x + y, t);
}

/// Wrapping the minuend first does not change a wrapped difference.
pub proof fn lemma_wrap32_sub(x: int, y: int)
    ensures
        wrap32(wrap32(x) - y) == wrap32(x - y),
{
    let t = lemma_wrap32_congruent(x);
    assert(wrap32(x) - y == 0x1_0000_0000 * t + (x - y));
    lemma_wrap32_shift(x - y, t);
}

/// Wrapping a factor first does not change a wrapped product.
pub proof fn lemma_wrap32_mul(x: int, y: int)
    ensures
        wrap32(wrap32(x) * y) == wrap32(x * y),
{
    let t = lemma_wrap32_congruent(x);
    assert(wrap32(x) * y == 0x1_0000_0000 * (t * y) + x * y) by (nonlinear_arith)
        requires
            wrap32(x) == x + 0x1_0000_0000 * t,
    ;
    lemma_wrap32_shift(x * y, t * y);
}

/// The wrapped sum of two `i32` values.
pub fn wrap_add(a: i32, b: i32) -> (r: i32)
    ensures
        r as int == wrap32(a as int + b as int),
{
    proof {
        let s = a as int + b as int;
        if s > 0x7fff_ffff {
            lemma_wrap32_shift(s - 0x1_0000_0000, 1);
            lemma_wrap32_id(s - 0x1_0000_0000);
        } else if s < -0x8000_0000 {
            lemma_wrap32_shift(s, 1);
            lemma_wrap32_id(s + 0x1_0000_0000);
        } else {
            lemma_wrap32_id(s);
        }
    }
    a.wrapping_add(b)
}

/// The wrapped difference of two `i32` values.
pub fn wrap_sub(a: i32, b: i32) -> (r: i32)
    ensures
        r as int == wrap32(a as int - b as int),
{
    proof {
        let s = a as int - b as int;
        if s > 0x7fff_ffff {
            lemma_wrap32_shift(s - 0x1_0000_0000, 1);
            lemma_wrap32_id(s - 0x1_0000_0000);
        } else if s < -0x8000_0000 {
            lemma_wrap32_shift(s, 1);
            lemma_wrap32_id(s + 0x1_0000_0000);
        } else {
            lemma_wrap32_id(s);
        }
    }
    a.wrapping_sub(b)
}

/// The wrapped product of two `i32` values.
pub fn wrap_mul(a: i32, b: i32) -> (r: i32)
    ensures
        r as int == wrap32(a as int * b as int),
{
    a.wrapping_mul(b)
}

/// The absolute value.
pub open spec fn int_abs(v: int) -> int {
    if v < 0 {
        -v
    } else {
        v
    }
}

/// Integer division truncating toward zero, as the machine divides.
pub open spec fn div_trunc(a: int, b: int) -> int {
    if (a < 0) == (b < 0) {
        int_abs(a) / int_abs(b)
    } else {
        -(int_abs(a) / int_abs(b))
    }
}

/// The truncating quotient of two `i32` values, wrapped: only
/// `i32::MIN / -1` leaves the range and comes back as `i32::MIN`.
pub fn div_trunc_i32(a: i32, b: i32) -> (r: i32)
    requires
        b != 0,
    ensures
        r as int == wrap32(div_trunc(a as int, b as int)),
{
    let ua: u32 = if a >= 0 {
        a as u32
    } else {
        (-(a as i64)) as u32
    };
    let ub: u32 = if b >= 0 {
        b as u32
    } else {
        (-(b as i64)) as u32
    };
    let q0: u32 = ua / ub;
    proof {
        assert(ua as int == int_abs(a as int));
        assert(ub as int == int_abs(b as int));
        vstd::arithmetic::div_mod::lemma_div_is_ordered_by_denominator(ua as int, 1, ub as int);
        vstd::arithmetic::div_mod::lemma_div_basics(ua as int);
        assert(q0 as int <= ua as int);
    }
    if (a < 0) == (b < 0) {
        if q0 >= 0x8000_0000u32 {
            proof {
                assert(q0 == 0x8000_0000u32);
                lemma_wrap32_shift(-0x8000_0000, 1);
                lemma_wrap32_id(-0x8000_0000);
            }
            i32::MIN
        } else {
            proof {
                lemma_wrap32_id(q0 as int);
            }
            q0 as i32
        }
    } else {
        proof {
            lemma_wrap32_id(-(q0 as int));
        }
        (-(q0 as i64)) as i32
    }
}

/// The sum of a sequence of integers.
pub open spec fn sum_ints(s: Seq<int>) -> int
    decreases s.len(),
{
    if s.len() == 0 {
        0
    } else {
        sum_ints(s.drop_last()) + s.last()
    }
}

/// The product of a sequence of integers.
pub open spec fn prod_ints(s: Seq<int>) -> int
    decreases s.len(),
{
    if s.len() == 0 {
        1
    } else {
        prod_ints(s.drop_last()) * s.last()
    }
}

/// Whether every value in a sequence is a number.
pub open spec fn all_numbers(args: Seq<SpecExpr>) -> bool {
    forall|i: int| 0 <= i < args.len() ==> args[i] is Number
}

/// The numbers of a sequence of number values.
pub open spec fn ints_of(args: Seq<SpecExpr>) -> Seq<int> {
    Seq::new(args.len(), |i: int| args[i]->Number_0)
}

/// What a builtin operator returns on already-evaluated arguments, or with
/// which error it fails; an unknown name fails as such.
pub open spec fn apply_builtin_spec(name: Seq<char>, args: Seq<SpecExpr>) -> Result<
    SpecExpr,
    SpecErr,
> {
    let ns = ints_of(args);
    if name == "+"@ {
        if !all_numbers(args) {
            Err(SpecErr::NotNumbers(Op::Add))
        } else {
            Ok(SpecExpr::Number(wrap32(sum_ints(ns))))
        }
    } else if name == "-"@ {
        if !all_numbers(args) {
            Err(SpecErr::NotNumbers(Op::Sub))
        } else if ns.len() == 0 {
            Err(SpecErr::SubArity)
        } else if ns.len() == 1 {
            Ok(SpecExpr::Number(wrap32(-ns[0])))
        } else {
            Ok(SpecExpr::Number(wrap32(ns[0] - sum_ints(ns.skip(1)))))
        }
    } else if name == "*"@ {
        if !all_numbers(args) {
            Err(SpecErr::NotNumbers(Op::Mul))
        } else if ns.len() < 2 {
            Err(SpecErr::MulArity)
        } else {
            Ok(SpecExpr::Number(wrap32(prod_ints(ns))))
        }
    } else if name == "/"@ {
        if !all_numbers(args) {
            Err(SpecErr::NotNumbers(Op::Div))
        } else if ns.len() < 2 {
            Err(SpecErr::DivArity)
        } else if ns[1] == 0 {
            Err(SpecErr::DivByZero)
        } else {
            Ok(SpecExpr::Number(wrap32(div_trunc(ns[0], ns[1]))))
        }
    } else if name == ">"@ {
        cmp_spec(Op::Gt, args)
    } else if name == "<"@ {
        cmp_spec(Op::Lt, args)
    } else if name == "<="@ {
        cmp_spec(Op::Le, args)
    } else if name == ">="@ {
        cmp_spec(Op::Ge, args)
    } else if name == "="@ {
        cmp_spec(Op::NumEq, args)
    } else {
        Err(SpecErr::UnknownFunction(name))
    }
}

/// What a comparison operator returns: exactly two numbers, compared.
pub open spec fn cmp_spec(op: Op, args: Seq<SpecExpr>) -> Result<SpecExpr, SpecErr> {
    if args.len() != 2 {
        Err(SpecErr::CmpArity(op))
    } else if !all_numbers(args) {
        Err(SpecErr::NotNumbers(op))
    } else {
        let a = args[0]->Number_0;
        let b = args[1]->Number_0;
        Ok(SpecExpr::Bool(
            match op {
                Op::Gt => a > b,
                Op::Lt => a < b,
                Op::Le => a <= b,
                Op::Ge => a >= b,
                _ => a == b,
            },
        ))
    }
}

/// The parameter names of a parameter list whose members are all symbols.
pub open spec fn param_names_spec(ps: Seq<SpecExpr>) -> Seq<Seq<char>> {
    Seq::new(ps.len(), |i: int| ps[i]->Symbol_0)
}

/// Whether every member of a parameter list is a symbol.
pub open spec fn all_symbols(ps: Seq<SpecExpr>) -> bool {
    forall|i: int| 0 <= i < ps.len() ==> ps[i] is Symbol
}

/// The bindings of parameter names to argument values; with a name bound
/// twice, the later position wins.
pub open spec fn bind_params_spec(params: Seq<Seq<char>>, args: Seq<SpecExpr>) -> SpecEnv
    decreases params.len(),
{
    if params.len() == 0 || args.len() == 0 {
        Map::empty()
    } else {
        bind_params_spec(params.drop_last(), args.drop_last()).insert(params.last(), args.last())
    }
}

/// Whether an expression is one given head symbol.
pub open spec fn is_form(e: SpecExpr, kw: Seq<char>) -> bool {
    e matches SpecExpr::Symbol(n) && n == kw
}

/// One evaluation step: atoms and lambdas are themselves, symbols are
/// looked up, and a list is a special form or a call. Each recursive step
/// costs one unit of fuel; at zero the result is the depth error.
pub open spec fn eval_spec(e: SpecExpr, env: SpecEnv, fuel: nat) -> (Result<SpecExpr, SpecErr>, SpecEnv)
    decreases fuel, 3int,
{
    if fuel == 0 {
        (Err(SpecErr::Depth), env)
    } else {
        let f = (fuel - 1) as nat;
        match e {
            SpecExpr::Number(_) => (Ok(e), env),
            SpecExpr::Bool(_) => (Ok(e), env),
            SpecExpr::Lambda { .. } => (Ok(e), env),
            SpecExpr::Symbol(s) => if env.contains_key(s) {
                (Ok(env[s]), env)
            } else {
                (Err(SpecErr::UndefinedVariable(s)), env)
            },
            SpecExpr::List(items) => if items.len() == 0 {
                (Err(SpecErr::EmptyList), env)
            } else if is_form(items[0], "define"@) {
                eval_define_spec(items, env, f)
            } else if is_form(items[0], "if"@) {
                eval_if_spec(items, env, f)
            } else if is_form(items[0], "lambda"@) {
                (lambda_form_spec(items, env), env)
            } else {
                eval_call_spec(items, env, f)
            },
        }
    }
}

/// The `define` form: the value operand is evaluated first — its effects on
/// the environment stay even if the form then fails — and the unevaluated
/// first operand must be a symbol, which is then bound to the value; the
/// value is the form's own result. Operands beyond the second are ignored.
pub open spec fn eval_define_spec(items: Seq<SpecExpr>, env: SpecEnv, fuel: nat) -> (Result<
    SpecExpr,
    SpecErr,
>, SpecEnv)
    decreases fuel, 4int,
{
    if items.len() < 3 {
        (Err(SpecErr::DefineArity), env)
    } else {
        let (vr, env1) = eval_spec(items[2], env, fuel);
        match vr {
            Err(er) => (Err(er), env1),
            Ok(v) => match items[1] {
                SpecExpr::Symbol(var) => (Ok(v), env1.insert(var, v)),
                _ => (Err(SpecErr::NotASymbol), env1),
            },
        }
    }
}

/// The `if` form: the condition is evaluated, a boolean is itself and a
/// number is truthy when nonzero, and exactly one branch is then evaluated
/// in the environment the condition left behind.
pub open spec fn eval_if_spec(items: Seq<SpecExpr>, env: SpecEnv, fuel: nat) -> (Result<
    SpecExpr,
    SpecErr,
>, SpecEnv)
    decreases fuel, 4int,
{
    if items.len() != 4 {
        (Err(SpecErr::IfArity), env)
    } else {
        let (cr, env1) = eval_spec(items[1], env, fuel);
        match cr {
            Err(er) => (Err(er), env1),
            Ok(c) => match c {
                SpecExpr::Bool(b) => if b {
                    eval_spec(items[2], env1, fuel)
                } else {
                    eval_spec(items[3], env1, fuel)
                },
                SpecExpr::Number(v) => if v != 0 {
                    eval_spec(items[2], env1, fuel)
                } else {
                    eval_spec(items[3], env1, fuel)
                },
                _ => (Err(SpecErr::IfCondType), env1),
            },
        }
    }
}

/// The `lambda` form: the parameter list must hold bare symbols, the body
/// is stored unevaluated, and the whole environment is captured by value.
pub open spec fn lambda_form_spec(items: Seq<SpecExpr>, env: SpecEnv) -> Result<
    SpecExpr,
    SpecErr,
> {
    if items.len() != 3 {
        Err(SpecErr::LambdaArity)
    } else {
        match items[1] {
            SpecExpr::List(ps) => if all_symbols(ps) {
                Ok(
                    SpecExpr::Lambda {
                        params: param_names_spec(ps),
                        body: Box::new(items[2]),
                        closure_env: env,
                    },
                )
            } else {
                Err(SpecErr::LambdaParamNotSymbol)
            },
            _ => Err(SpecErr::LambdaParamsNotList),
        }
    }
}

/// A call: every operand is evaluated left to right — threading the
/// environment — before the head is resolved. A head symbol bound to a
/// lambda is applied; bound to anything else, or unbound, the symbol is
/// read as a builtin operator name. Any other head is itself evaluated
/// and must yield a lambda.
pub open spec fn eval_call_spec(items: Seq<SpecExpr>, env: SpecEnv, fuel: nat) -> (Result<
    SpecExpr,
    SpecErr,
>, SpecEnv)
    decreases fuel, 4int,
{
    let (ar, env1) = eval_args_spec(items.skip(1), env, fuel);
    match ar {
        Err(er) => (Err(er), env1),
        Ok(argv) => match items[0] {
            SpecExpr::Symbol(name) => if env1.contains_key(name) {
                match env1[name] {
                    SpecExpr::Lambda { params, body, closure_env } => (
                        apply_spec(params, *body, closure_env, argv, env1, fuel),
                        env1,
                    ),
                    _ => (apply_builtin_spec(name, argv), env1),
                }
            } else {
                (apply_builtin_spec(name, argv), env1)
            },
            _ => {
                let (fr, env2) = eval_spec(items[0], env1, fuel);
                match fr {
                    Err(er) => (Err(er), env2),
                    Ok(fv) => match fv {
                        SpecExpr::Lambda { params, body, closure_env } => (
                            apply_spec(params, *body, closure_env, argv, env2, fuel),
                            env2,
                        ),
                        _ => (Err(SpecErr::HeadNotFunction), env2),
                    },
                }
            },
        },
    }
}

/// Operands evaluated left to right, each in the environment the one
/// before it left behind.
pub open spec fn eval_args_spec(items: Seq<SpecExpr>, env: SpecEnv, fuel: nat) -> (Result<
    Seq<SpecExpr>,
    SpecErr,
>, SpecEnv)
    decreases fuel, 1int,
{
    if items.len() == 0 {
        (Ok(Seq::empty()), env)
    } else if fuel == 0 {
        (Err(SpecErr::Depth), env)
    } else {
        let f = (fuel - 1) as nat;
        let (r0, env1) = eval_spec(items[0], env, f);
        match r0 {
            Err(er) => (Err(er), env1),
            Ok(v) => {
                let (rr, env2) = eval_args_spec(items.skip(1), env1, f);
                match rr {
                    Err(er) => (Err(er), env2),
                    Ok(vs) => (Ok(seq![v] + vs), env2),
                }
            },
        }
    }
}

/// A user function applied to evaluated arguments: the argument count must
/// match the parameters, and the body runs in the caller's environment
/// overlaid first with the whole captured closure environment and then
/// with the parameter bindings. The caller's own environment is left as it
/// was: the working copy is discarded.
pub open spec fn apply_spec(
    params: Seq<Seq<char>>,
    body: SpecExpr,
    closure_env: SpecEnv,
    args: Seq<SpecExpr>,
    env: SpecEnv,
    fuel: nat,
) -> Result<SpecExpr, SpecErr>
    decreases fuel, 0int,
{
    if fuel == 0 {
        Err(SpecErr::Depth)
    } else if params.len() != args.len() {
        Err(SpecErr::CallArity { expected: params.len() as int, actual: args.len() as int })
    } else {
        let work = env.union_prefer_right(closure_env).union_prefer_right(
            bind_params_spec(params, args),
        );
        eval_spec(body, work, (fuel - 1) as nat).0
    }
}

/// The names of a list of strings.
pub open spec fn strs_view(s: Seq<String>) -> Seq<Seq<char>> {
    Seq::new(s.len(), |i: int| s[i]@)
}

/// The arguments as numbers, when they all are numbers.
#[verifier::loop_isolation(false)]
fn args_as_nums(args: &Vec<Expr>) -> (r: Option<Vec<i32>>)
    ensures
        ({
            let av = exprs_view(args@);
            match r {
                Some(ns) => all_numbers(av) && ns@.len() == av.len() && forall|i: int|
                    0 <= i < av.len() ==> ns@[i] as int == av[i]->Number_0,
                None => !all_numbers(av),
            }
        }),
{
    proof {
        lemma_exprs_view(args@);
    }
    let ghost av = exprs_view(args@);
    let mut ns: Vec<i32> = Vec::new();
    let mut j: usize = 0;
    while j < args.len()
        invariant
            j <= args.len(),
            ns@.len() == j,
            forall|k: int| #![trigger av[k]] 0 <= k < j ==> av[k] is Number && ns@[k] as int
                == av[k]->Number_0,
        decreases args.len() - j,
    {
        match &args[j] {
            Expr::Number(n) => {
                proof {
                    assert(av[j as int] == crate::types::expr_view(args@[j as int]));
                    assert(av[j as int] == SpecExpr::Number(*n as int));
                }
                let ghost prevns = ns@;
                let nv = *n;
                ns.push(nv);
                proof {
                    assert forall|k: int| #![trigger av[k]] 0 <= k < j + 1 implies av[k] is Number
                        && ns@[k] as int == av[k]->Number_0 by {
                        if k < j {
                            assert(av[k] is Number && ns@[k] as int == av[k]->Number_0) by {
                                assert(ns@[k] == prevns[k]);
                            }
                        } else {
                            assert(ns@[k] == nv);
                        }
                    }
                }
            },
            _ => {
                proof {
                    assert(!(av[j as int] is Number));
                }
                return None;
            },
        }
        j = j + 1;
    }
    proof {
        assert forall|i: int| 0 <= i < av.len() implies av[i] is Number by {
            assert(av[i] is Number && ns@[i] as int == av[i]->Number_0);
        }
        assert(all_numbers(av));
    }
    Some(ns)
}

/// A comparison operator applied to already-evaluated arguments.
fn cmp_builtin(op: Op, args: &Vec<Expr>) -> (r: Result<Expr, EvalErr>)
    ensures
        ({
            let want = cmp_spec(op, exprs_view(args@));
            match r {
                Ok(v) => want == Ok::<SpecExpr, SpecErr>(v@),
                Err(e) => want == Err::<SpecExpr, SpecErr>(e@),
            }
        }),
{
    proof {
        lemma_exprs_view(args@);
    }
    if args.len() != 2 {
        return Err(EvalErr::CmpArity(op));
    }
    match args_as_nums(args) {
        None => Err(EvalErr::NotNumbers(op)),
        Some(ns) => {
            let a = ns[0];
            let b = ns[1];
            let res = match op {
                Op::Gt => a > b,
                Op::Lt => a < b,
                Op::Le => a <= b,
                Op::Ge => a >= b,
                _ => a == b,
            };
            Ok(Expr::Bool(res))
        },
    }
}

/// A builtin operator applied to already-evaluated arguments, as in
/// [`apply_builtin_spec`].
#[verifier::loop_isolation(false)]
fn apply_builtin(name: &String, args: &Vec<Expr>) -> (r: Result<Expr, EvalErr>)
    ensures
        ({
            let want = apply_builtin_spec(name@, exprs_view(args@));
            match r {
                Ok(v) => want == Ok::<SpecExpr, SpecErr>(v@),
                Err(e) => want == Err::<SpecExpr, SpecErr>(e@),
            }
        }),
{
    proof {
        lemma_exprs_view(args@);
    }
    let ghost av = exprs_view(args@);
    let ghost ints = ints_of(av);
    if str_eq(name.as_str(), "+") {
        match args_as_nums(args) {
            None => Err(EvalErr::NotNumbers(Op::Add)),
            Some(ns) => {
                proof {
                    assert(ints.take(0) =~= Seq::<int>::empty());
                    lemma_wrap32_id(0);
                }
                let mut acc: i32 = 0;
                let mut j: usize = 0;
                while j < ns.len()
                    invariant
                        j <= ns.len(),
                        ns@.len() == ints.len(),
                        acc as int == wrap32(sum_ints(ints.take(j as int))),
                    decreases ns.len() - j,
                {
                    proof {
                        assert(ints.take(j + 1).drop_last() =~= ints.take(j as int));
                        assert(ints.take(j + 1).last() == ints[j as int]);
                        lemma_wrap32_add(sum_ints(ints.take(j as int)), ints[j as int]);
                    }
                    acc = wrap_add(acc, ns[j]);
                    j = j + 1;
                }
                proof {
                    assert(ints.take(ints.len() as int) =~= ints);
                }
                Ok(Expr::Number(acc))
            },
        }
    } else if str_eq(name.as_str(), "-") {
        match args_as_nums(args) {
            None => Err(EvalErr::NotNumbers(Op::Sub)),
            Some(ns) => {
                if ns.len() == 0 {
                    Err(EvalErr::SubArity)
                } else if ns.len() == 1 {
                    Ok(Expr::Number(wrap_sub(0, ns[0])))
                } else {
                    proof {
                        assert(ints.subrange(1, 1) =~= Seq::<int>::empty());
                        lemma_wrap32_id(ints[0]);
                    }
                    let mut acc: i32 = ns[0];
                    let mut j: usize = 1;
                    while j < ns.len()
                        invariant
                            1 <= j <= ns.len(),
                            ns@.len() == ints.len(),
                            acc as int == wrap32(ints[0] - sum_ints(ints.subrange(1, j as int))),
                        decreases ns.len() - j,
                    {
                        proof {
                            assert(ints.subrange(1, j + 1).drop_last() =~= ints.subrange(
                                1,
                                j as int,
                            ));
                            assert(ints.subrange(1, j + 1).last() == ints[j as int]);
                            lemma_wrap32_sub(
                                ints[0] - sum_ints(ints.subrange(1, j as int)),
                                ints[j as int],
                            );
                        }
                        acc = wrap_sub(acc, ns[j]);
                        j = j + 1;
                    }
                    proof {
                        assert(ints.subrange(1, ints.len() as int) =~= ints.skip(1));
                    }
                    Ok(Expr::Number(acc))
                }
            },
        }
    } else if str_eq(name.as_str(), "*") {
        match args_as_nums(args) {
            None => Err(EvalErr::NotNumbers(Op::Mul)),
            Some(ns) => {
                if ns.len() < 2 {
                    Err(EvalErr::MulArity)
                } else {
                    proof {
                        assert(ints.take(0) =~= Seq::<int>::empty());
                        lemma_wrap32_id(1);
                    }
                    let mut acc: i32 = 1;
                    let mut j: usize = 0;
                    while j < ns.len()
                        invariant
                            j <= ns.len(),
                            ns@.len() == ints.len(),
                            acc as int == wrap32(prod_ints(ints.take(j as int))),
                        decreases ns.len() - j,
                    {
                        proof {
                            assert(ints.take(j + 1).drop_last() =~= ints.take(j as int));
                            assert(ints.take(j + 1).last() == ints[j as int]);
                            lemma_wrap32_mul(prod_ints(ints.take(j as int)), ints[j as int]);
                        }
                        acc = wrap_mul(acc, ns[j]);
                        j = j + 1;
                    }
                    proof {
                        assert(ints.take(ints.len() as int) =~= ints);
                    }
                    Ok(Expr::Number(acc))
                }
            },
        }
    } else if str_eq(name.as_str(), "/") {
        match args_as_nums(args) {
            None => Err(EvalErr::NotNumbers(Op::Div)),
            Some(ns) => {
                if ns.len() < 2 {
                    Err(EvalErr::DivArity)
                } else if ns[1] == 0 {
                    Err(EvalErr::DivByZero)
                } else {
                    Ok(Expr::Number(div_trunc_i32(ns[0], ns[1])))
                }
            },
        }
    } else if str_eq(name.as_str(), ">") {
        cmp_builtin(Op::Gt, args)
    } else if str_eq(name.as_str(), "<") {
        cmp_builtin(Op::Lt, args)
    } else if str_eq(name.as_str(), "<=") {
        cmp_builtin(Op::Le, args)
    } else if str_eq(name.as_str(), ">=") {
        cmp_builtin(Op::Ge, args)
    } else if str_eq(name.as_str(), "=") {
        cmp_builtin(Op::NumEq, args)
    } else {
        Err(EvalErr::UnknownFunction(name.clone()))
    }
}

/// The `define` form, as in [`eval_define_spec`].
fn eval_define(items: &Vec<Expr>, env: &mut Env, fuel: u64) -> (r: Result<Expr, EvalErr>)
    requires
        items@.len() >= 1,
    ensures
        ({
            let out = eval_define_spec(exprs_view(items@), old(env)@, fuel as nat);
            final(env)@ == out.1 && match r {
                Ok(v) => out.0 == Ok::<SpecExpr, SpecErr>(v@),
                Err(e) => out.0 == Err::<SpecExpr, SpecErr>(e@),
            }
        }),
    decreases fuel, 4int,
{
    proof {
        lemma_exprs_view(items@);
    }
    if items.len() < 3 {
        return Err(EvalErr::DefineArity);
    }
    let value = match eval_fuel(&items[2], env, fuel) {
        Ok(v) => v,
        Err(e) => {
            return Err(e);
        },
    };
    match &items[1] {
        Expr::Symbol(var) => {
            let ret = value.duplicate();
            env.define(var.clone(), value);
            Ok(ret)
        },
        _ => Err(EvalErr::NotASymbol),
    }
}

/// The `if` form, as in [`eval_if_spec`].
fn eval_if(items: &Vec<Expr>, env: &mut Env, fuel: u64) -> (r: Result<Expr, EvalErr>)
    requires
        items@.len() >= 1,
    ensures
        ({
            let out = eval_if_spec(exprs_view(items@), old(env)@, fuel as nat);
            final(env)@ == out.1 && match r {
                Ok(v) => out.0 == Ok::<SpecExpr, SpecErr>(v@),
                Err(e) => out.0 == Err::<SpecExpr, SpecErr>(e@),
            }
        }),
    decreases fuel, 4int,
{
    proof {
        lemma_exprs_view(items@);
    }
    if items.len() != 4 {
        return Err(EvalErr::IfArity);
    }
    let cond = match eval_fuel(&items[1], env, fuel) {
        Ok(c) => c,
        Err(e) => {
            return Err(e);
        },
    };
    let truthy = match &cond {
        Expr::Bool(b) => *b,
        Expr::Number(n) => *n != 0,
        _ => {
            return Err(EvalErr::IfCondType);
        },
    };
    if truthy {
        eval_fuel(&items[2], env, fuel)
    } else {
        eval_fuel(&items[3], env, fuel)
    }
}

/// The `lambda` form, as in [`lambda_form_spec`].
#[verifier::loop_isolation(false)]
fn eval_lambda_form(items: &Vec<Expr>, env: &Env) -> (r: Result<Expr, EvalErr>)
    requires
        items@.len() >= 1,
    ensures
        ({
            let want = lambda_form_spec(exprs_view(items@), env@);
            match r {
                Ok(v) => want == Ok::<SpecExpr, SpecErr>(v@),
                Err(e) => want == Err::<SpecExpr, SpecErr>(e@),
            }
        }),
{
    proof {
        lemma_exprs_view(items@);
    }
    if items.len() != 3 {
        return Err(EvalErr::LambdaArity);
    }
    match &items[1] {
        Expr::List(plist) => {
            proof {
                lemma_exprs_view(plist@);
            }
            let ghost psv = exprs_view(plist@);
            let mut params: Vec<String> = Vec::new();
            let mut j: usize = 0;
            while j < plist.len()
                invariant
                    j <= plist.len(),
                    params@.len() == j,
                    forall|k: int| #![trigger psv[k]] 0 <= k < j ==> psv[k] is Symbol
                        && params@[k]@ == psv[k]->Symbol_0,
                decreases plist.len() - j,
            {
                match &plist[j] {
                    Expr::Symbol(nm) => {
                        proof {
                            assert(psv[j as int] == SpecExpr::Symbol(nm@));
                        }
                        let ghost prevp = params@;
                        let nmc = nm.clone();
                        params.push(nmc);
                        proof {
                            assert forall|k: int| #![trigger psv[k]] 0 <= k < j + 1 implies psv[k]
                                is Symbol && params@[k]@ == psv[k]->Symbol_0 by {
                                if k < j {
                                    assert(params@[k] == prevp[k]);
                                } else {
                                    assert(params@[k]@ == nm@);
                                }
                            }
                        }
                    },
                    _ => {
                        proof {
                            assert(!(psv[j as int] is Symbol));
                        }
                        return Err(EvalErr::LambdaParamNotSymbol);
                    },
                }
                j = j + 1;
            }
            proof {
                assert forall|i: int| 0 <= i < psv.len() implies psv[i] is Symbol by {
                    assert(psv[i] is Symbol && params@[i]@ == psv[i]->Symbol_0);
                }
                assert(all_symbols(psv));
            }
            let body = Box::new(items[2].duplicate());
            let closure_env = env.snapshot();
            let res = Expr::Lambda { params, body, closure_env };
            proof {
                assert(res@ matches SpecExpr::Lambda { params: rp, body: rb, closure_env: rc }
                    && rp =~= param_names_spec(psv) && *rb == exprs_view(items@)[2] && rc == env@);
            }
            Ok(res)
        },
        _ => Err(EvalErr::LambdaParamsNotList),
    }
}

/// Operands evaluated left to right from `start`, as in [`eval_args_spec`].
fn eval_args_fuel(items: &Vec<Expr>, start: usize, env: &mut Env, fuel: u64) -> (r: Result<
    Vec<Expr>,
    EvalErr,
>)
    requires
        start <= items@.len(),
    ensures
        ({
            let out = eval_args_spec(exprs_view(items@).skip(start as int), old(env)@, fuel as nat);
            final(env)@ == out.1 && match r {
                Ok(vs) => out.0 == Ok::<Seq<SpecExpr>, SpecErr>(exprs_view(vs@)),
                Err(e) => out.0 == Err::<Seq<SpecExpr>, SpecErr>(e@),
            }
        }),
    decreases fuel, 1int,
{
    proof {
        lemma_exprs_view(items@);
    }
    let ghost se = exprs_view(items@);
    if start >= items.len() {
        let empty: Vec<Expr> = Vec::new();
        proof {
            assert(se.skip(start as int) =~= Seq::<SpecExpr>::empty());
            assert(exprs_view(empty@) =~= Seq::<SpecExpr>::empty());
        }
        return Ok(empty);
    }
    if fuel == 0 {
        return Err(EvalErr::Depth);
    }
    let f = fuel - 1;
    proof {
        assert(se.skip(start as int)[0] == se[start as int]);
        assert(se.skip(start as int).skip(1) =~= se.skip(start + 1));
    }
    let v = match eval_fuel(&items[start], env, f) {
        Ok(v) => v,
        Err(e) => {
            return Err(e);
        },
    };
    let mut rest = match eval_args_fuel(items, start + 1, env, f) {
        Ok(r) => r,
        Err(e) => {
            return Err(e);
        },
    };
    let ghost restv = exprs_view(rest@);
    proof {
        lemma_exprs_view(rest@);
    }
    let mut out: Vec<Expr> = Vec::new();
    out.push(v);
    out.append(&mut rest);
    proof {
        lemma_exprs_view(out@);
        assert(exprs_view(out@) =~= seq![out@[0]@] + restv);
    }
    Ok(out)
}

/// A user function applied to evaluated arguments, as in [`apply_spec`]:
/// the caller's environment is read, never changed.
#[verifier::loop_isolation(false)]
fn apply_fuel(
    params: &Vec<String>,
    body: &Expr,
    closure: &Env,
    args: &Vec<Expr>,
    env: &Env,
    fuel: u64,
) -> (r: Result<Expr, EvalErr>)
    ensures
        ({
            let want = apply_spec(
                strs_view(params@),
                body@,
                closure@,
                exprs_view(args@),
                env@,
                fuel as nat,
            );
            match r {
                Ok(v) => want == Ok::<SpecExpr, SpecErr>(v@),
                Err(e) => want == Err::<SpecExpr, SpecErr>(e@),
            }
        }),
    decreases fuel, 0int,
{
    proof {
        lemma_exprs_view(args@);
    }
    if fuel == 0 {
        return Err(EvalErr::Depth);
    }
    if params.len() != args.len() {
        return Err(EvalErr::CallArity { expected: params.len(), actual: args.len() });
    }
    let ghost pv = strs_view(params@);
    let ghost av = exprs_view(args@);
    let ghost cv = closure.bindings@;
    let mut work = env.snapshot();
    proof {
        assert(cv.take(0) =~= Seq::<crate::types::Binding>::empty());
        assert(env@.union_prefer_right(bindings_view(cv.take(0))) =~= env@);
    }
    let mut j: usize = 0;
    while j < closure.bindings.len()
        invariant
            j <= cv.len(),
            work@ == env@.union_prefer_right(bindings_view(cv.take(j as int))),
        decreases cv.len() - j,
    {
        let name = closure.bindings[j].name.clone();
        let val = closure.bindings[j].val.duplicate();
        let ghost prevw = work@;
        work.define(name, val);
        proof {
            assert(cv.take(j + 1).drop_last() =~= cv.take(j as int));
            assert(cv.take(j + 1).last() == cv[j as int]);
            assert(work@ =~= env@.union_prefer_right(bindings_view(cv.take(j + 1))));
        }
        j = j + 1;
    }
    proof {
        assert(cv.take(cv.len() as int) =~= cv);
    }
    let ghost base = env@.union_prefer_right(closure@);
    proof {
        assert(pv.take(0) =~= Seq::<Seq<char>>::empty());
        assert(av.take(0) =~= Seq::<SpecExpr>::empty());
        assert(base.union_prefer_right(bind_params_spec(pv.take(0), av.take(0))) =~= base);
    }
    let mut k: usize = 0;
    while k < params.len()
        invariant
            k <= params.len(),
            params@.len() == args@.len(),
            work@ == base.union_prefer_right(bind_params_spec(pv.take(k as int), av.take(k as int))),
        decreases params.len() - k,
    {
        let val = args[k].duplicate();
        work.define(params[k].clone(), val);
        proof {
            assert(pv.take(k + 1).drop_last() =~= pv.take(k as int));
            assert(av.take(k + 1).drop_last() =~= av.take(k as int));
            assert(pv.take(k + 1).last() == pv[k as int]);
            assert(av.take(k + 1).last() == av[k as int]);
            assert(work@ =~= base.union_prefer_right(
                bind_params_spec(pv.take(k + 1), av.take(k + 1)),
            ));
        }
        k = k + 1;
    }
    proof {
        assert(pv.take(pv.len() as int) =~= pv);
        assert(av.take(av.len() as int) =~= av);
    }
    eval_fuel(body, &mut work, fuel - 1)
}

/// A call with already-inspected head, as in [`eval_call_spec`].
fn eval_call(items: &Vec<Expr>, env: &mut Env, fuel: u64) -> (r: Result<Expr, EvalErr>)
    requires
        items@.len() >= 1,
    ensures
        ({
            let out = eval_call_spec(exprs_view(items@), old(env)@, fuel as nat);
            final(env)@ == out.1 && match r {
                Ok(v) => out.0 == Ok::<SpecExpr, SpecErr>(v@),
                Err(e) => out.0 == Err::<SpecExpr, SpecErr>(e@),
            }
        }),
    decreases fuel, 4int,
{
    proof {
        lemma_exprs_view(items@);
    }
    let ghost se = exprs_view(items@);
    let args = match eval_args_fuel(items, 1, env, fuel) {
        Ok(a) => a,
        Err(e) => {
            return Err(e);
        },
    };
    proof {
        assert(se.skip(1) == exprs_view(items@).skip(1));
    }
    match &items[0] {
        Expr::Symbol(name) => {
            match env.lookup(name.as_str()) {
                Some(v) => match v {
                    Expr::Lambda { params, body, closure_env } => {
                        proof {
                            assert(v@ matches SpecExpr::Lambda { params: sp, body: sb, closure_env: sc }
                                && sp == strs_view(params@) && *sb == (**body)@ && sc == closure_env@);
                        }
                        apply_fuel(params, body, closure_env, &args, env, fuel)
                    },
                    _ => apply_builtin(name, &args),
                },
                None => apply_builtin(name, &args),
            }
        },
        _ => {
            let fv = match eval_fuel(&items[0], env, fuel) {
                Ok(v) => v,
                Err(e) => {
                    return Err(e);
                },
            };
            match fv {
                Expr::Lambda { params, body, closure_env } => {
                    proof {
                        let l = Expr::Lambda { params, body, closure_env };
                        assert(l@ matches SpecExpr::Lambda { params: sp, body: sb, closure_env: sc }
                            && sp == strs_view(params@) && *sb == (*body)@ && sc == closure_env@);
                    }
                    apply_fuel(&params, &body, &closure_env, &args, env, fuel)
                },
                _ => Err(EvalErr::HeadNotFunction),
            }
        },
    }
}

/// One evaluation step at a given fuel, as in [`eval_spec`].
fn eval_fuel(expr: &Expr, env: &mut Env, fuel: u64) -> (r: Result<Expr, EvalErr>)
    ensures
        ({
            let out = eval_spec(expr@, old(env)@, fuel as nat);
            final(env)@ == out.1 && match r {
                Ok(v) => out.0 == Ok::<SpecExpr, SpecErr>(v@),
                Err(e) => out.0 == Err::<SpecExpr, SpecErr>(e@),
            }
        }),
    decreases fuel, 3int,
{
    if fuel == 0 {
        return Err(EvalErr::Depth);
    }
    let f = fuel - 1;
    match expr {
        Expr::Number(n) => Ok(Expr::Number(*n)),
        Expr::Bool(b) => Ok(Expr::Bool(*b)),
        Expr::Lambda { .. } => Ok(expr.duplicate()),
        Expr::Symbol(s) => match env.lookup(s.as_str()) {
            Some(v) => {
                let d = v.duplicate();
                Ok(d)
            },
            None => Err(EvalErr::UndefinedVariable(s.clone())),
        },
        Expr::List(items) => {
            proof {
                lemma_exprs_view(items@);
            }
            if items.len() == 0 {
                return Err(EvalErr::EmptyList);
            }
            match &items[0] {
                Expr::Symbol(name) => {
                    if str_eq(name.as_str(), "define") {
                        eval_define(items, env, f)
                    } else if str_eq(name.as_str(), "if") {
                        eval_if(items, env, f)
                    } else if str_eq(name.as_str(), "lambda") {
                        eval_lambda_form(items, env)
                    } else {
                        eval_call(items, env, f)
                    }
                },
                _ => eval_call(items, env, f),
            }
        },
    }
}

/// The written form of an operator name.
fn op_str(op: Op) -> (r: String)
    ensures
        r@ == op_text(op),
{
    match op {
        Op::Add => String::from_str("+"),
        Op::Sub => String::from_str("-"),
        Op::Mul => String::from_str("*"),
        Op::Div => String::from_str("/"),
        Op::Lt => String::from_str("<"),
        Op::Gt => String::from_str(">"),
        Op::Le => String::from_str("<="),
        Op::Ge => String::from_str(">="),
        Op::NumEq => String::from_str("="),
    }
}

/// The message of an evaluation failure, as in [`msg_of_err`].
fn err_message(e: &EvalErr) -> (r: String)
    ensures
        r@ == msg_of_err(e@),
{
    match e {
        EvalErr::UndefinedVariable(s) => String::from_str("undefined variable: ").concat(
            s.as_str(),
        ),
        EvalErr::EmptyList => String::from_str("cannot eval empty list"),
        EvalErr::DefineArity => String::from_str("define requires 2 arguments"),
        EvalErr::NotASymbol => String::from_str("define requires a symbol as first argument"),
        EvalErr::IfArity => String::from_str("if requires 3 arguments"),
        EvalErr::IfCondType => String::from_str("if condition must be a boolean"),
        EvalErr::LambdaArity => String::from_str("lambda requires 2 arguments: params and body"),
        EvalErr::LambdaParamsNotList => String::from_str("lambda parameters must be a list"),
        EvalErr::LambdaParamNotSymbol => String::from_str("lambda parameters must be symbols"),
        EvalErr::CallArity { expected, actual } => String::from_str("function expects ").concat(
            usize_decimal(*expected).as_str(),
        ).concat(" arguments, got ").concat(usize_decimal(*actual).as_str()),
        EvalErr::NotNumbers(op) => op_str(*op).concat(" requires numbers"),
        EvalErr::SubArity => String::from_str("- requires at least 1 number"),
        EvalErr::MulArity => String::from_str("* requires at least 2 numbers"),
        EvalErr::DivArity => String::from_str("/ requires 2 numbers"),
        EvalErr::CmpArity(op) => op_str(*op).concat(" requires exactly 2 arguments"),
        EvalErr::DivByZero => String::from_str("cannot divide by 0"),
        EvalErr::UnknownFunction(s) => String::from_str("unknown function: ").concat(s.as_str()),
        EvalErr::HeadNotFunction => String::from_str("first element must be a function name"),
        EvalErr::Depth => String::from_str("recursion depth exceeded"),
    }
}

/// Evaluates one expression against an environment, with the model's
/// whole fuel budget: the result and the final environment are exactly
/// [`eval_spec`]'s at fuel `u64::MAX`, each failure rendered as its
/// message by [`msg_of_err`].
pub fn eval(expr: &Expr, env: &mut Env) -> (r: Result<Expr, String>)
    ensures
        ({
            let out = eval_spec(expr@, old(env)@, u64::MAX as nat);
            final(env)@ == out.1 && match r {
                Ok(v) => out.0 == Ok::<SpecExpr, SpecErr>(v@),
                Err(m) => out.0 matches Err(e) && m@ == msg_of_err(e),
            }
        }),
{
    match eval_fuel(expr, env, u64::MAX) {
        Ok(v) => Ok(v),
        Err(e) => Err(err_message(&e)),
    }
}

} // verus!
