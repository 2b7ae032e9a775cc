//! The recursive-descent parser: a flat token sequence into one expression
//! tree, consuming the whole input. [`spec_parse`] is the model; `parse`
//! returns exactly its result, with each error rendered as its message.

use vstd::prelude::*;

use crate::text::{spec_parse_i32, str_eq};
use crate::types::{exprs_view, Expr, SpecExpr};

verus! {

/// A parse failure, by kind.
pub enum SpecParseErr {
    /// There was no token at all.
    EmptyInput,
    /// A value was expected but the tokens were exhausted.
    UnexpectedEnd,
    /// A list was opened and never closed.
    Unclosed,
    /// A complete value was parsed but this token followed it.
    Trailing(Seq<char>),
}

/// A parse failure as the parser reports it from inside a tree.
pub enum ParseErr {
    UnexpectedEnd,
    Unclosed,
}

impl View for ParseErr {
    type V = SpecParseErr;

    open spec fn view(&self) -> SpecParseErr {
        match self {
            ParseErr::UnexpectedEnd => SpecParseErr::UnexpectedEnd,
            ParseErr::Unclosed => SpecParseErr::Unclosed,
        }
    }
}

/// The expression an atom token stands for: a number if it reads as an
/// `i32`, a boolean if it is exactly `true` or `false`, a symbol otherwise.
pub open spec fn atom_expr(tok: Seq<char>) -> SpecExpr {
    match spec_parse_i32(tok) {
        Some(v) => SpecExpr::Number(v),
        None => if tok == "true"@ {
            SpecExpr::Bool(true)
        } else if tok == "false"@ {
            SpecExpr::Bool(false)
        } else {
            SpecExpr::Symbol(tok)
        },
    }
}

/// How many tokens are left at a cursor position.
pub open spec fn spec_remaining(toks: Seq<Seq<char>>, cur: int) -> int {
    if 0 <= cur <= toks.len() {
        toks.len() - cur
    } else {
        0
    }
}

/// One value parsed at a cursor position: an atom, or a parenthesised list.
/// On success the new cursor position stands just after the value.
pub open spec fn parse_value_spec(toks: Seq<Seq<char>>, cur: int) -> Result<
    (SpecExpr, int),
    SpecParseErr,
>
    decreases spec_remaining(toks, cur), 0int,
{
    if cur < 0 || cur >= toks.len() {
        Err(SpecParseErr::UnexpectedEnd)
    } else if toks[cur] == seq!['('] {
        match parse_items_spec(toks, cur + 1) {
            Ok((items, c2)) => Ok((SpecExpr::List(items), c2)),
            Err(e) => Err(e),
        }
    } else {
        Ok((atom_expr(toks[cur]), cur + 1))
    }
}

/// List elements parsed until a closing parenthesis, which is consumed.
/// The cursor handed to the recursive call always moves forward, so that
/// the definition is total; a parsed value in fact always moves it.
pub open spec fn parse_items_spec(toks: Seq<Seq<char>>, cur: int) -> Result<
    (Seq<SpecExpr>, int),
    SpecParseErr,
>
    decreases spec_remaining(toks, cur), 1int,
{
    if cur < 0 || cur >= toks.len() {
        Err(SpecParseErr::Unclosed)
    } else if toks[cur] == seq![')'] {
        Ok((Seq::empty(), cur + 1))
    } else {
        match parse_value_spec(toks, cur) {
            Err(e) => Err(e),
            Ok((e0, c2)) => {
                let c3 = if c2 > cur {
                    c2
                } else {
                    cur + 1
                };
                match parse_items_spec(toks, c3) {
                    Err(e) => Err(e),
                    Ok((rest, c4)) => Ok((seq![e0] + rest, c4)),
                }
            },
        }
    }
}

/// One whole expression from a token sequence: empty input and trailing
/// tokens are errors.
pub open spec fn spec_parse(toks: Seq<Seq<char>>) -> Result<SpecExpr, SpecParseErr> {
    if toks.len() == 0 {
        Err(SpecParseErr::EmptyInput)
    } else {
        match parse_value_spec(toks, 0) {
            Err(e) => Err(e),
            Ok((e, c)) => if c < toks.len() {
                Err(SpecParseErr::Trailing(toks[c]))
            } else {
                Ok(e)
            },
        }
    }
}

/// The message text of each parse failure.
pub open spec fn parse_err_msg(e: SpecParseErr) -> Seq<char> {
    match e {
        SpecParseErr::EmptyInput => "no tokens to parse"@,
        SpecParseErr::UnexpectedEnd => "unexpected end of input"@,
        SpecParseErr::Unclosed => "unclosed list: missing ')'"@,
        SpecParseErr::Trailing(tok) => "unexpected token '"@ + tok + "' after expression"@,
    }
}

/// Whether a token is exactly one given character.
fn tok_is_char(t: &str, c: char) -> (r: bool)
    ensures
        r == (t@ == seq![c]),
{
    let n = t.unicode_len();
    if n != 1 {
        proof {
            assert(t@ != seq![c]) by {
                assert(seq![c].len() == 1);
            }
        }
        return false;
    }
    let c0 = t.get_char(0);
    proof {
        if c0 == c {
            assert(t@ =~= seq![c]);
        } else {
            assert(t@[0] != seq![c][0]);
        }
    }
    c0 == c
}

/// The expression an atom token stands for, as in [`atom_expr`].
fn atom_to_expr(tok: &str) -> (r: Expr)
    ensures
        r@ == atom_expr(tok@),
{
    match crate::text::parse_i32(tok) {
        Some(v) => Expr::Number(v),
        None => if str_eq(tok, "true") {
            Expr::Bool(true)
        } else if str_eq(tok, "false") {
            Expr::Bool(false)
        } else {
            Expr::Symbol(tok.to_owned())
        },
    }
}

/// One value at the cursor, as in [`parse_value_spec`]; on success the
/// cursor has moved forward, and never beyond the end.
fn parse_value(tokens: &Vec<&str>, cursor: &mut usize) -> (r: Result<Expr, ParseErr>)
    ensures
        match r {
            Ok(e) => parse_value_spec(tokens.deep_view(), *old(cursor) as int) == Ok::<
                (SpecExpr, int),
                SpecParseErr,
            >((e@, *final(cursor) as int)) && *old(cursor) < *final(cursor) <= tokens@.len(),
            Err(pe) => parse_value_spec(tokens.deep_view(), *old(cursor) as int) == Err::<
                (SpecExpr, int),
                SpecParseErr,
            >(pe@),
        },
    decreases spec_remaining(tokens.deep_view(), *cursor as int), 1int,
{
    if *cursor >= tokens.len() {
        return Err(ParseErr::UnexpectedEnd);
    }
    let t = tokens[*cursor];
    proof {
        assert(tokens.deep_view()[*cursor as int] == t@);
    }
    if tok_is_char(t, '(') {
        parse_list(tokens, cursor)
    } else {
        *cursor = *cursor + 1;
        Ok(atom_to_expr(t))
    }
}

/// A parenthesised list whose opening token stands at the cursor: its
/// elements as in [`parse_items_spec`], wrapped as one list expression.
#[verifier::loop_isolation(false)]
fn parse_list(tokens: &Vec<&str>, cursor: &mut usize) -> (r: Result<Expr, ParseErr>)
    requires
        *old(cursor) < tokens@.len(),
    ensures
        match r {
            Ok(e) => parse_items_spec(tokens.deep_view(), *old(cursor) + 1) matches Ok((items, c))
                && e@ == SpecExpr::List(items) && *final(cursor) as int == c && *old(cursor)
                < *final(cursor) <= tokens@.len(),
            Err(pe) => parse_items_spec(tokens.deep_view(), *old(cursor) + 1) == Err::<
                (Seq<SpecExpr>, int),
                SpecParseErr,
            >(pe@),
        },
    decreases spec_remaining(tokens.deep_view(), *cursor as int), 0int,
{
    let ghost toks = tokens.deep_view();
    let ghost cur0 = *cursor as int;
    let n = tokens.len();
    let mut items: Vec<Expr> = Vec::new();
    *cursor = *cursor + 1;
    proof {
        assert(exprs_view(items@) =~= Seq::<SpecExpr>::empty());
    }
    loop
        invariant
            cur0 + 1 <= *cursor as int <= toks.len(),
            parse_items_spec(toks, cur0 + 1) == (match parse_items_spec(toks, *cursor as int) {
                Ok((rest, c)) => Ok::<(Seq<SpecExpr>, int), SpecParseErr>(
                    (exprs_view(items@) + rest, c),
                ),
                Err(e) => Err(e),
            }),
        decreases toks.len() - *cursor as int,
    {
        let ghost cur = *cursor as int;
        if *cursor >= tokens.len() {
            return Err(ParseErr::Unclosed);
        }
        let t = tokens[*cursor];
        proof {
            assert(toks[cur] == t@);
        }
        if tok_is_char(t, ')') {
            *cursor = *cursor + 1;
            proof {
                assert(exprs_view(items@) + Seq::<SpecExpr>::empty() =~= exprs_view(items@));
            }
            return Ok(Expr::List(items));
        }
        let v = match parse_value(tokens, cursor) {
            Ok(v) => v,
            Err(pe) => {
                return Err(pe);
            },
        };
        let ghost c2 = *cursor as int;
        let ghost prev = items@;
        items.push(v);
        proof {
            assert(exprs_view(items@) == exprs_view(prev).push(v@)) by {
                assert(items@.drop_last() =~= prev);
            }
            assert(exprs_view(prev) + seq![v@] =~= exprs_view(prev).push(v@));
            let sp = parse_items_spec(toks, c2);
            if sp is Ok {
                let (rest, c4) = sp->Ok_0;
                assert(exprs_view(prev) + (seq![v@] + rest) =~= exprs_view(prev).push(v@) + rest);
            }
        }
    }
}

/// The message text of a parse failure found inside a tree.
fn parse_err_message(e: ParseErr) -> (r: String)
    ensures
        r@ == parse_err_msg(e@),
{
    match e {
        ParseErr::UnexpectedEnd => String::from_str("unexpected end of input"),
        ParseErr::Unclosed => String::from_str("unclosed list: missing ')'"),
    }
}

/// Parses one whole expression from the tokens, as in [`spec_parse`]:
/// `Ok` exactly when the model parses, and otherwise the model's error,
/// rendered as its message.
pub fn parse(tokens: &Vec<&str>) -> (r: Result<Expr, String>)
    ensures
        match r {
            Ok(e) => spec_parse(tokens.deep_view()) == Ok::<SpecExpr, SpecParseErr>(e@),
            Err(m) => spec_parse(tokens.deep_view()) matches Err(pe) && m@ == parse_err_msg(pe),
        },
{
    if tokens.len() == 0 {
        return Err(String::from_str("no tokens to parse"));
    }
    let mut cursor: usize = 0;
    match parse_value(tokens, &mut cursor) {
        Err(pe) => Err(parse_err_message(pe)),
        Ok(e) => {
            if cursor < tokens.len() {
                proof {
                    assert(tokens.deep_view()[cursor as int] == tokens@[cursor as int]@);
                }
                let m = String::from_str("unexpected token '").concat(tokens[cursor]).concat(
                    "' after expression",
                );
                Err(m)
            } else {
                Ok(e)
            }
        },
    }
}

} // verus!
