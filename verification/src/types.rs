//! The expression data model: the executable [`Expr`] tree shared by the
//! parser and the evaluator, its mathematical model [`SpecExpr`], and the
//! environment type [`Env`] used for variable bindings and closure capture.

use vstd::prelude::*;

verus! {

/// Mathematical model of an expression: the same shape as [`Expr`], but over
/// `int`, `Seq` and `Map`, so that contracts can speak of it directly.
pub enum SpecExpr {
    Symbol(Seq<char>),
    Number(int),
    List(Seq<SpecExpr>),
    Bool(bool),
    Lambda { params: Seq<Seq<char>>, body: Box<SpecExpr>, closure_env: Map<Seq<char>, SpecExpr> },
}

/// One name-to-value binding in an environment.
#[derive(Debug, PartialEq)]
pub struct Binding {
    pub name: String,
    pub val: Expr,
}

/// An environment: a mapping from symbol name to expression value.
///
/// Stored as a list of bindings where a later binding for the same name
/// shadows an earlier one; the view collapses the list into a
/// `Map<Seq<char>, SpecExpr>`, under which insertion order is irrelevant.
#[derive(Debug, PartialEq)]
pub struct Env {
    pub bindings: Vec<Binding>,
}

/// An expression, used for syntax trees and for the values they evaluate to.
#[derive(Debug, PartialEq)]
pub enum Expr {
    Symbol(String),
    Number(i32),
    List(Vec<Expr>),
    Bool(bool),
    Lambda { params: Vec<String>, body: Box<Expr>, closure_env: Env },
}

/// The model of an expression tree.
pub open spec fn expr_view(e: Expr) -> SpecExpr
    decreases e,
{
    match e {
        Expr::Symbol(s) => SpecExpr::Symbol(s@),
        Expr::Number(n) => SpecExpr::Number(n as int),
        Expr::List(items) => {
            proof {
                assert(decreases_to!(e => items));
                assert(decreases_to!(items => items@));
            }
            SpecExpr::List(exprs_view(items@))
        },
        Expr::Bool(b) => SpecExpr::Bool(b),
        Expr::Lambda { params, body, closure_env } => {
            proof {
                assert(decreases_to!(e => closure_env));
                assert(decreases_to!(closure_env => closure_env.bindings));
                assert(decreases_to!(closure_env.bindings => closure_env.bindings@));
                assert(decreases_to!(e => body));
            }
            SpecExpr::Lambda {
                params: Seq::new(params@.len(), |i: int| params@[i]@),
                body: Box::new(expr_view(*body)),
                closure_env: bindings_view(closure_env.bindings@),
            }
        },
    }
}

/// The model of a list of expressions, element by element.
pub open spec fn exprs_view(s: Seq<Expr>) -> Seq<SpecExpr>
    decreases s,
{
    if s.len() == 0 {
        Seq::empty()
    } else {
        exprs_view(s.drop_last()).push(expr_view(s.last()))
    }
}

/// The model of a binding list: a map in which the last binding for a name wins.
pub open spec fn bindings_view(s: Seq<Binding>) -> Map<Seq<char>, SpecExpr>
    decreases s,
{
    if s.len() == 0 {
        Map::empty()
    } else {
        proof {
            assert(decreases_to!(s => s[s.len() - 1]));
            assert(decreases_to!(s[s.len() - 1] => s[s.len() - 1].val));
        }
        bindings_view(s.drop_last()).insert(s.last().name@, expr_view(s.last().val))
    }
}

/// The model of an expression list has the same length and holds, place by
/// place, the model of each element.
pub proof fn lemma_exprs_view(s: Seq<Expr>)
    ensures
        exprs_view(s).len() == s.len(),
        forall|i: int| 0 <= i < s.len() ==> exprs_view(s)[i] == expr_view(s[i]),
    decreases s.len(),
{
    if s.len() > 0 {
        lemma_exprs_view(s.drop_last());
    }
}

impl View for Expr {
    type V = SpecExpr;

    open spec fn view(&self) -> SpecExpr {
        expr_view(*self)
    }
}

impl Expr {
    /// A deep copy: the copy has the same model as the original.
    #[verifier::loop_isolation(false)]
    pub fn duplicate(&self) -> (r: Expr)
        ensures
            r@ == self@,
        decreases *self,
    {
        match self {
            Expr::Symbol(s) => Expr::Symbol(s.clone()),
            Expr::Number(n) => Expr::Number(*n),
            Expr::Bool(b) => Expr::Bool(*b),
            Expr::List(items) => {
                let mut out: Vec<Expr> = Vec::new();
                let mut j: usize = 0;
                while j < items.len()
                    invariant
                        j <= items.len(),
                        out@.len() == j,
                        exprs_view(out@) == exprs_view(items@.take(j as int)),
                    decreases items.len() - j,
                {
                    proof {
                        assert(decreases_to!(*self => *items));
                        assert(decreases_to!(*items => items@));
                        assert(decreases_to!(items@ => items@[j as int]));
                    }
                    let ghost prev = out@;
                    let d = items[j].duplicate();
                    out.push(d);
                    proof {
                        assert(out@.drop_last() =~= prev);
                        assert(items@.take(j + 1).drop_last() =~= items@.take(j as int));
                        assert(items@.take(j + 1).last() == items@[j as int]);
                    }
                    j = j + 1;
                }
                proof {
                    assert(items@.take(items@.len() as int) =~= items@);
                }
                Expr::List(out)
            },
            Expr::Lambda { params, body, closure_env } => {
                let mut ps: Vec<String> = Vec::new();
                let mut j: usize = 0;
                while j < params.len()
                    invariant
                        j <= params.len(),
                        ps@.len() == j,
                        forall|k: int| 0 <= k < j ==> ps@[k]@ == params@[k]@,
                    decreases params.len() - j,
                {
                    ps.push(params[j].clone());
                    j = j + 1;
                }
                proof {
                    assert(decreases_to!(*self => *body));
                    assert(decreases_to!(*self => *closure_env));
                    assert(decreases_to!(*closure_env => closure_env.bindings));
                    assert(Seq::new(ps@.len(), |i: int| ps@[i]@) =~= Seq::new(
                        params@.len(),
                        |i: int| params@[i]@,
                    ));
                }
                let b = Box::new((**body).duplicate());
                let ce = Env { bindings: duplicate_bindings(&closure_env.bindings) };
                Expr::Lambda { params: ps, body: b, closure_env: ce }
            },
        }
    }
}

/// A deep copy of a binding list; the copy has the same model.
#[verifier::loop_isolation(false)]
pub fn duplicate_bindings(src: &Vec<Binding>) -> (r: Vec<Binding>)
    ensures
        bindings_view(r@) == bindings_view(src@),
    decreases *src,
{
    let mut out: Vec<Binding> = Vec::new();
    let mut j: usize = 0;
    while j < src.len()
        invariant
            j <= src.len(),
            out@.len() == j,
            bindings_view(out@) == bindings_view(src@.take(j as int)),
        decreases src.len() - j,
    {
        proof {
            assert(decreases_to!(*src => src@));
            assert(decreases_to!(src@ => src@[j as int]));
            assert(decreases_to!(src@[j as int] => src@[j as int].val));
        }
        let ghost prev = out@;
        let name = src[j].name.clone();
        let val = src[j].val.duplicate();
        out.push(Binding { name, val });
        proof {
            assert(out@.drop_last() =~= prev);
            assert(src@.take(j + 1).drop_last() =~= src@.take(j as int));
            assert(src@.take(j + 1).last() == src@[j as int]);
        }
        j = j + 1;
    }
    proof {
        assert(src@.take(src@.len() as int) =~= src@);
    }
    out
}

impl View for Env {
    type V = Map<Seq<char>, SpecExpr>;

    open spec fn view(&self) -> Map<Seq<char>, SpecExpr> {
        bindings_view(self.bindings@)
    }
}

} // verus!
