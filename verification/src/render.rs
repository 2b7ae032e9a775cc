//! The canonical text form of an expression: numbers and booleans as their
//! literal text, symbols as their name, lists in parentheses with one space
//! between elements, and lambdas as an opaque form naming only their
//! parameters.

use vstd::prelude::*;

use crate::text::{push_char, spec_int_text, i32_decimal};
use crate::types::{expr_view, exprs_view, Expr, SpecExpr};

verus! {

/// The canonical text of an expression.
pub open spec fn spec_render(e: SpecExpr) -> Seq<char>
    decreases e,
{
    match e {
        SpecExpr::Number(v) => spec_int_text(v),
        SpecExpr::Bool(b) => if b {
            "true"@
        } else {
            "false"@
        },
        SpecExpr::Symbol(s) => s,
        SpecExpr::List(items) => seq!['('] + spec_render_items(items) + seq![')'],
        SpecExpr::Lambda { params, .. } => "<function("@ + spec_join_params(params) + ")>"@,
    }
}

/// The text of list elements, joined by single spaces.
pub open spec fn spec_render_items(items: Seq<SpecExpr>) -> Seq<char>
    decreases items,
{
    if items.len() == 0 {
        Seq::empty()
    } else if items.len() == 1 {
        spec_render(items[0])
    } else {
        spec_render_items(items.drop_last()) + seq![' '] + spec_render(items.last())
    }
}

/// Parameter names joined by a comma and a space.
pub open spec fn spec_join_params(params: Seq<Seq<char>>) -> Seq<char>
    decreases params,
{
    if params.len() == 0 {
        Seq::empty()
    } else if params.len() == 1 {
        params[0]
    } else {
        spec_join_params(params.drop_last()) + ", "@ + params.last()
    }
}

impl Expr {
    /// The canonical text form, exactly [`spec_render`] of the model.
    #[verifier::loop_isolation(false)]
    pub fn render(&self) -> (r: String)
        ensures
            r@ == spec_render(self@),
        decreases *self,
    {
        match self {
            Expr::Number(n) => i32_decimal(*n),
            Expr::Bool(b) => {
                if *b {
                    String::from_str("true")
                } else {
                    String::from_str("false")
                }
            },
            Expr::Symbol(s) => s.clone(),
            Expr::List(items) => {
                let ghost ev = exprs_view(items@);
                proof {
                    crate::types::lemma_exprs_view(items@);
                }
                let mut out = String::new();
                push_char(&mut out, '(');
                proof {
                    assert(out@ =~= seq!['('] + spec_render_items(ev.take(0)));
                }
                let mut j: usize = 0;
                while j < items.len()
                    invariant
                        j <= items.len(),
                        out@ == seq!['('] + spec_render_items(ev.take(j as int)),
                    decreases items.len() - j,
                {
                    proof {
                        assert(decreases_to!(*self => *items));
                        assert(decreases_to!(*items => items@));
                        assert(decreases_to!(items@ => items@[j as int]));
                    }
                    if j > 0 {
                        push_char(&mut out, ' ');
                    }
                    let sub = items[j].render();
                    out.append(sub.as_str());
                    proof {
                        assert(ev.take(j + 1).drop_last() =~= ev.take(j as int));
                        assert(ev.take(j + 1).last() == ev[j as int]);
                        if j == 0 {
                            assert(ev.take(1).len() == 1);
                            assert(ev.take(1)[0] == ev[0]);
                            assert(out@ =~= seq!['('] + spec_render_items(ev.take(1)));
                        } else {
                            assert(out@ =~= seq!['('] + spec_render_items(ev.take(j + 1)));
                        }
                    }
                    j = j + 1;
                }
                push_char(&mut out, ')');
                proof {
                    assert(ev.take(items@.len() as int) =~= ev);
                    assert(out@ =~= seq!['('] + spec_render_items(ev) + seq![')']);
                }
                out
            },
            Expr::Lambda { params, .. } => {
                let ghost ps = Seq::new(params@.len(), |i: int| params@[i]@);
                let mut out = String::from_str("<function(");
                proof {
                    assert(out@ =~= "<function("@ + spec_join_params(ps.take(0)));
                }
                let mut j: usize = 0;
                while j < params.len()
                    invariant
                        j <= params.len(),
                        out@ == "<function("@ + spec_join_params(ps.take(j as int)),
                    decreases params.len() - j,
                {
                    if j > 0 {
                        out.append(", ");
                    }
                    out.append(params[j].as_str());
                    proof {
                        assert(ps.take(j + 1).drop_last() =~= ps.take(j as int));
                        assert(ps.take(j + 1).last() == ps[j as int]);
                        if j == 0 {
                            assert(ps.take(1).len() == 1);
                            assert(ps.take(1)[0] == ps[0]);
                            assert(out@ =~= "<function("@ + spec_join_params(ps.take(1)));
                        } else {
                            assert(out@ =~= "<function("@ + spec_join_params(ps.take(j + 1)));
                        }
                    }
                    j = j + 1;
                }
                out.append(")>");
                proof {
                    assert(ps.take(params@.len() as int) =~= ps);
                    assert(out@ =~= "<function("@ + spec_join_params(ps) + ")>"@);
                }
                out
            },
        }
    }
}

} // verus!
