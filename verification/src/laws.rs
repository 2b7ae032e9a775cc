//! Laws of the evaluator, proved once and for all over the model: the
//! purity of division, the short-circuit of `if`, and the way captured
//! bindings shadow the call site inside a function body.

use vstd::prelude::*;

use crate::eval::{
    bind_params_spec, div_trunc, eval_args_spec, eval_call_spec, eval_define_spec, eval_if_spec,
    eval_spec, apply_spec, lemma_wrap32_id, SpecEnv, SpecErr,
};
use crate::types::SpecExpr;

verus! {

/// The expression `(/ a b)`.
pub open spec fn div_expr(a: int, b: int) -> SpecExpr {
    SpecExpr::List(
        seq![SpecExpr::Symbol("/"@), SpecExpr::Number(a), SpecExpr::Number(b)],
    )
}

/// The head symbol `/` names no special form.
proof fn lemma_div_head_is_call()
    ensures
        "/"@ != "define"@,
        "/"@ != "if"@,
        "/"@ != "lambda"@,
{
    reveal_strlit("/");
    reveal_strlit("define");
    reveal_strlit("if");
    reveal_strlit("lambda");
    assert("/"@.len() == 1 && "define"@.len() == 6 && "if"@.len() == 2 && "lambda"@.len() == 6);
}

/// `/` is none of the other builtin names.
proof fn lemma_div_name()
    ensures
        "/"@ != "+"@,
        "/"@ != "-"@,
        "/"@ != "*"@,
{
    reveal_strlit("/");
    reveal_strlit("+");
    reveal_strlit("-");
    reveal_strlit("*");
    assert("/"@[0] == '/' && "+"@[0] == '+' && "-"@[0] == '-' && "*"@[0] == '*');
}

/// Evaluating `(/ a b)` with the two numbers as given: the argument list
/// `[a, b]` comes back evaluated and the environment is untouched.
proof fn lemma_div_args(a: int, b: int, env: SpecEnv, fuel: nat)
    requires
        fuel >= 3,
    ensures
        eval_args_spec(div_expr(a, b)->List_0.skip(1), env, fuel) == (
            Ok::<Seq<SpecExpr>, SpecErr>(seq![SpecExpr::Number(a), SpecExpr::Number(b)]),
            env,
        ),
{
    let items = div_expr(a, b)->List_0;
    let args = items.skip(1);
    assert(args.len() == 2);
    assert(args[0] == SpecExpr::Number(a));
    assert(args[1] == SpecExpr::Number(b));
    let f = (fuel - 1) as nat;
    assert(eval_spec(args[0], env, f) == (Ok::<SpecExpr, SpecErr>(SpecExpr::Number(a)), env));
    let rest = args.skip(1);
    assert(rest.len() == 1);
    assert(rest[0] == SpecExpr::Number(b));
    let f2 = (f - 1) as nat;
    assert(eval_spec(rest[0], env, f2) == (Ok::<SpecExpr, SpecErr>(SpecExpr::Number(b)), env));
    assert(rest.skip(1).len() == 0);
    assert(eval_args_spec(rest.skip(1), env, f2) == (
        Ok::<Seq<SpecExpr>, SpecErr>(Seq::empty()),
        env,
    ));
    assert(eval_args_spec(rest, env, f) == (
        Ok::<Seq<SpecExpr>, SpecErr>(seq![SpecExpr::Number(b)] + Seq::empty()),
        env,
    ));
    assert(seq![SpecExpr::Number(b)] + Seq::<SpecExpr>::empty() =~= seq![SpecExpr::Number(b)]);
    assert(seq![SpecExpr::Number(a)] + seq![SpecExpr::Number(b)] =~= seq![
        SpecExpr::Number(a),
        SpecExpr::Number(b),
    ]);
}

/// Purity of division: for any two in-range numbers with a nonzero divisor
/// — and apart from the one pair whose true quotient has no `i32` form,
/// the largest negative number divided by minus one — evaluating `(/ a b)`
/// in any environment that does not rebind `/` yields exactly the
/// machine's truncating quotient, and leaves the environment as it was.
pub proof fn lemma_division_purity(a: int, b: int, env: SpecEnv, fuel: nat)
    requires
        -0x8000_0000 <= a <= 0x7fff_ffff,
        -0x8000_0000 <= b <= 0x7fff_ffff,
        b != 0,
        !(a == -0x8000_0000 && b == -1),
        !env.contains_key("/"@),
        fuel >= 4,
    ensures
        eval_spec(div_expr(a, b), env, fuel) == (
            Ok::<SpecExpr, SpecErr>(SpecExpr::Number(div_trunc(a, b))),
            env,
        ),
{
    lemma_div_head_is_call();
    lemma_div_name();
    let items = div_expr(a, b)->List_0;
    let f = (fuel - 1) as nat;
    lemma_div_args(a, b, env, f);
    let argv = seq![SpecExpr::Number(a), SpecExpr::Number(b)];
    assert(eval_call_spec(items, env, f).1 == env);
    let ints = crate::eval::ints_of(argv);
    assert(ints[0] == a && ints[1] == b);
    assert(crate::eval::all_numbers(argv));
    vstd::arithmetic::div_mod::lemma_div_is_ordered_by_denominator(
        crate::eval::int_abs(a),
        1,
        crate::eval::int_abs(b),
    );
    vstd::arithmetic::div_mod::lemma_div_basics(crate::eval::int_abs(a));
    vstd::arithmetic::div_mod::lemma_div_pos_is_pos(crate::eval::int_abs(a), crate::eval::int_abs(b));
    assert(0 <= crate::eval::int_abs(a) / crate::eval::int_abs(b) <= crate::eval::int_abs(a));
    if a == -0x8000_0000 {
        assert(crate::eval::int_abs(b) >= 1);
        if (a < 0) == (b < 0) {
            assert(crate::eval::int_abs(b) >= 2);
            vstd::arithmetic::div_mod::lemma_div_is_ordered_by_denominator(
                crate::eval::int_abs(a),
                2,
                crate::eval::int_abs(b),
            );
            assert(crate::eval::int_abs(a) / 2 == 0x4000_0000);
            assert(div_trunc(a, b) <= 0x4000_0000);
        }
    }
    lemma_wrap32_id(div_trunc(a, b));
}

/// `(/ a 0)` always fails with the division-by-zero error, whatever the
/// dividend, and leaves the environment as it was.
pub proof fn lemma_division_by_zero(a: int, env: SpecEnv, fuel: nat)
    requires
        -0x8000_0000 <= a <= 0x7fff_ffff,
        !env.contains_key("/"@),
        fuel >= 4,
    ensures
        eval_spec(div_expr(a, 0), env, fuel) == (
            Err::<SpecExpr, SpecErr>(SpecErr::DivByZero),
            env,
        ),
{
    lemma_div_head_is_call();
    lemma_div_name();
    let items = div_expr(a, 0)->List_0;
    let f = (fuel - 1) as nat;
    lemma_div_args(a, 0, env, f);
    let argv = seq![SpecExpr::Number(a), SpecExpr::Number(0)];
    assert(crate::eval::all_numbers(argv));
    assert(crate::eval::ints_of(argv)[1] == 0);
}

/// Short-circuit of `if`: when the condition reduces to true, the whole
/// form is exactly the evaluation of the second operand in the environment
/// the condition left behind — the third operand plays no part, whatever
/// effects or errors it would have had.
pub proof fn lemma_if_true_shortcircuit(
    c: SpecExpr,
    t: SpecExpr,
    e: SpecExpr,
    env: SpecEnv,
    fuel: nat,
)
    requires
        fuel >= 1,
        eval_spec(c, env, (fuel - 1) as nat).0 == Ok::<SpecExpr, SpecErr>(SpecExpr::Bool(true)),
    ensures
        eval_spec(SpecExpr::List(seq![SpecExpr::Symbol("if"@), c, t, e]), env, fuel) == eval_spec(
            t,
            eval_spec(c, env, (fuel - 1) as nat).1,
            (fuel - 1) as nat,
        ),
{
    reveal_strlit("if");
    reveal_strlit("define");
    let items = seq![SpecExpr::Symbol("if"@), c, t, e];
    assert(items.len() == 4);
    assert(items[0] == SpecExpr::Symbol("if"@));
    assert("if"@.len() == 2 && "define"@.len() == 6);
    assert("if"@ != "define"@);
    let f = (fuel - 1) as nat;
    assert(eval_if_spec(items, env, f) == eval_spec(t, eval_spec(c, env, f).1, f));
}

/// A name captured in a closure shadows the same name at the call site:
/// in the environment a function body runs in, every name the closure
/// binds — and the parameters do not rebind — holds the closure's value,
/// so no later definition at the call site can change what the body sees.
pub proof fn lemma_closure_shadows_caller(
    params: Seq<Seq<char>>,
    args: Seq<SpecExpr>,
    closure_env: SpecEnv,
    env: SpecEnv,
    name: Seq<char>,
)
    requires
        closure_env.contains_key(name),
        !bind_params_spec(params, args).contains_key(name),
    ensures
        env.union_prefer_right(closure_env).union_prefer_right(bind_params_spec(params, args))[
            name] == closure_env[name],
        env.union_prefer_right(closure_env).union_prefer_right(
            bind_params_spec(params, args),
        ).contains_key(name),
{
}

/// Fuel independence: once the evaluator finishes within some fuel — the
/// result is anything but the depth error — giving it more fuel changes
/// nothing: neither the result nor the final environment.
pub proof fn lemma_eval_fuel_independent(e: SpecExpr, env: SpecEnv, f1: nat, f2: nat)
    requires
        f1 <= f2,
        eval_spec(e, env, f1).0 != Err::<SpecExpr, SpecErr>(SpecErr::Depth),
    ensures
        eval_spec(e, env, f2) == eval_spec(e, env, f1),
    decreases f1, 3int,
{
    match e {
        SpecExpr::List(items) => {
            if items.len() == 0 {
            } else if crate::eval::is_form(items[0], "define"@) {
                lemma_define_fuel_independent(items, env, (f1 - 1) as nat, (f2 - 1) as nat);
            } else if crate::eval::is_form(items[0], "if"@) {
                lemma_if_fuel_independent(items, env, (f1 - 1) as nat, (f2 - 1) as nat);
            } else if crate::eval::is_form(items[0], "lambda"@) {
            } else {
                lemma_call_fuel_independent(items, env, (f1 - 1) as nat, (f2 - 1) as nat);
            }
        },
        _ => {
        },
    }
}

/// Fuel independence of the `define` form.
proof fn lemma_define_fuel_independent(items: Seq<SpecExpr>, env: SpecEnv, f1: nat, f2: nat)
    requires
        f1 <= f2,
        eval_define_spec(items, env, f1).0 != Err::<SpecExpr, SpecErr>(SpecErr::Depth),
    ensures
        eval_define_spec(items, env, f2) == eval_define_spec(items, env, f1),
    decreases f1, 4int,
{
    if items.len() >= 3 {
        lemma_eval_fuel_independent(items[2], env, f1, f2);
    }
}

/// Fuel independence of the `if` form.
proof fn lemma_if_fuel_independent(items: Seq<SpecExpr>, env: SpecEnv, f1: nat, f2: nat)
    requires
        f1 <= f2,
        eval_if_spec(items, env, f1).0 != Err::<SpecExpr, SpecErr>(SpecErr::Depth),
    ensures
        eval_if_spec(items, env, f2) == eval_if_spec(items, env, f1),
    decreases f1, 4int,
{
    if items.len() == 4 {
        lemma_eval_fuel_independent(items[1], env, f1, f2);
        let (cr, env1) = eval_spec(items[1], env, f1);
        match cr {
            Ok(c) => match c {
                SpecExpr::Bool(b) => {
                    if b {
                        lemma_eval_fuel_independent(items[2], env1, f1, f2);
                    } else {
                        lemma_eval_fuel_independent(items[3], env1, f1, f2);
                    }
                },
                SpecExpr::Number(v) => {
                    if v != 0 {
                        lemma_eval_fuel_independent(items[2], env1, f1, f2);
                    } else {
                        lemma_eval_fuel_independent(items[3], env1, f1, f2);
                    }
                },
                _ => {
                },
            },
            Err(_) => {
            },
        }
    }
}

/// Fuel independence of a call.
proof fn lemma_call_fuel_independent(items: Seq<SpecExpr>, env: SpecEnv, f1: nat, f2: nat)
    requires
        f1 <= f2,
        eval_call_spec(items, env, f1).0 != Err::<SpecExpr, SpecErr>(SpecErr::Depth),
    ensures
        eval_call_spec(items, env, f2) == eval_call_spec(items, env, f1),
    decreases f1, 4int,
{
    lemma_args_fuel_independent(items.skip(1), env, f1, f2);
    let (ar, env1) = eval_args_spec(items.skip(1), env, f1);
    match ar {
        Ok(argv) => match items[0] {
            SpecExpr::Symbol(name) => {
                if env1.contains_key(name) {
                    match env1[name] {
                        SpecExpr::Lambda { params, body, closure_env } => {
                            lemma_apply_fuel_independent(
                                params,
                                *body,
                                closure_env,
                                argv,
                                env1,
                                f1,
                                f2,
                            );
                        },
                        _ => {
                        },
                    }
                }
            },
            _ => {
                lemma_eval_fuel_independent(items[0], env1, f1, f2);
                let (fr, env2) = eval_spec(items[0], env1, f1);
                match fr {
                    Ok(fv) => match fv {
                        SpecExpr::Lambda { params, body, closure_env } => {
                            lemma_apply_fuel_independent(
                                params,
                                *body,
                                closure_env,
                                argv,
                                env2,
                                f1,
                                f2,
                            );
                        },
                        _ => {
                        },
                    },
                    Err(_) => {
                    },
                }
            },
        },
        Err(_) => {
        },
    }
}

/// Fuel independence of operand evaluation.
proof fn lemma_args_fuel_independent(items: Seq<SpecExpr>, env: SpecEnv, f1: nat, f2: nat)
    requires
        f1 <= f2,
        eval_args_spec(items, env, f1).0 != Err::<Seq<SpecExpr>, SpecErr>(SpecErr::Depth),
    ensures
        eval_args_spec(items, env, f2) == eval_args_spec(items, env, f1),
    decreases f1, 1int,
{
    if items.len() > 0 {
        lemma_eval_fuel_independent(items[0], env, (f1 - 1) as nat, (f2 - 1) as nat);
        let (r0, env1) = eval_spec(items[0], env, (f1 - 1) as nat);
        match r0 {
            Ok(_) => {
                lemma_args_fuel_independent(items.skip(1), env1, (f1 - 1) as nat, (f2 - 1) as nat);
            },
            Err(_) => {
            },
        }
    }
}

/// Fuel independence of function application.
proof fn lemma_apply_fuel_independent(
    params: Seq<Seq<char>>,
    body: SpecExpr,
    closure_env: SpecEnv,
    args: Seq<SpecExpr>,
    env: SpecEnv,
    f1: nat,
    f2: nat,
)
    requires
        f1 <= f2,
        apply_spec(params, body, closure_env, args, env, f1) != Err::<SpecExpr, SpecErr>(
            SpecErr::Depth,
        ),
    ensures
        apply_spec(params, body, closure_env, args, env, f2) == apply_spec(
            params,
            body,
            closure_env,
            args,
            env,
            f1,
        ),
    decreases f1, 0int,
{
    if params.len() == args.len() {
        let work = env.union_prefer_right(closure_env).union_prefer_right(
            bind_params_spec(params, args),
        );
        lemma_eval_fuel_independent(body, work, (f1 - 1) as nat, (f2 - 1) as nat);
    }
}

} // verus!
