//! The round trip between the canonical text form and the parser: for a
//! well-formed expression, tokenizing and parsing its rendering gives the
//! expression back, so the canonical printer is idempotent on canonical
//! input.

use vstd::prelude::*;

use crate::parser::{atom_expr, parse_items_spec, parse_value_spec, spec_parse, SpecParseErr};
use crate::render::{spec_render, spec_render_items};
use crate::text::{
    all_digits, digit_char, digit_val, digits_val, is_digit_char, spec_int_text, spec_parse_i32,
    spec_udec,
};
use crate::tokens::{flush, is_paren_char, is_whitespace_char, spec_tokenize, spec_tokenize_from};
use crate::types::SpecExpr;

verus! {

/// A character that can stand inside an atom token.
pub open spec fn atom_char_ok(c: char) -> bool {
    !is_paren_char(c) && !is_whitespace_char(c)
}

/// A well-formed expression: one that the canonical text form describes
/// exactly. Numbers lie in the `i32` range; symbols are non-empty, carry
/// no delimiter characters, and do not read as a number or boolean
/// literal; lambdas render as an opaque form and so are not well-formed.
pub open spec fn wf_expr(e: SpecExpr) -> bool
    decreases e,
{
    match e {
        SpecExpr::Number(v) => -0x8000_0000 <= v <= 0x7fff_ffff,
        SpecExpr::Bool(_) => true,
        SpecExpr::Symbol(s) => s.len() > 0 && (forall|i: int|
            0 <= i < s.len() ==> atom_char_ok(s[i])) && spec_parse_i32(s) is None && s != "true"@
            && s != "false"@,
        SpecExpr::List(items) => wf_items(items),
        SpecExpr::Lambda { .. } => false,
    }
}

/// Every member of a list is well-formed.
pub open spec fn wf_items(items: Seq<SpecExpr>) -> bool
    decreases items,
{
    if items.len() == 0 {
        true
    } else {
        wf_expr(items[0]) && wf_items(items.skip(1))
    }
}

/// The token sequence a well-formed expression renders to.
pub open spec fn spec_tokens_of(e: SpecExpr) -> Seq<Seq<char>>
    decreases e,
{
    match e {
        SpecExpr::List(items) => seq![seq!['(']] + tokens_of_items(items) + seq![seq![')']],
        _ => seq![spec_render(e)],
    }
}

/// The tokens of list members, in order.
pub open spec fn tokens_of_items(items: Seq<SpecExpr>) -> Seq<Seq<char>>
    decreases items,
{
    if items.len() == 0 {
        Seq::empty()
    } else {
        spec_tokens_of(items[0]) + tokens_of_items(items.skip(1))
    }
}

/// Reading back the digits of a number gives the number: the digit string
/// is non-empty, all digits, and worth exactly `n`.
pub proof fn lemma_udec_value(n: int)
    requires
        n >= 0,
    ensures
        spec_udec(n).len() >= 1,
        all_digits(spec_udec(n)),
        digits_val(spec_udec(n)) == n,
    decreases n,
{
    if n < 10 {
        let s = spec_udec(n);
        assert(s == seq![digit_char(n)]);
        assert(s.drop_last() =~= Seq::<char>::empty());
        assert(digits_val(Seq::<char>::empty()) == 0);
        assert(digits_val(s) == digit_val(digit_char(n)));
    } else {
        lemma_udec_value(n / 10);
        vstd::arithmetic::div_mod::lemma_fundamental_div_mod(n, 10);
        let s = spec_udec(n);
        assert(s == spec_udec(n / 10).push(digit_char(n % 10)));
        assert(s.drop_last() =~= spec_udec(n / 10));
        assert(s.last() == digit_char(n % 10));
        assert(digit_val(digit_char(n % 10)) == n % 10);
        assert forall|i: int| 0 <= i < s.len() implies is_digit_char(s[i]) by {
            if i < s.len() - 1 {
                assert(s[i] == spec_udec(n / 10)[i]);
            }
        }
    }
}

/// The digits of a number carry no delimiter and no sign.
pub proof fn lemma_udec_chars(n: int)
    requires
        n >= 0,
    ensures
        forall|i: int| 0 <= i < spec_udec(n).len() ==> #[trigger] atom_char_ok(spec_udec(n)[i]),
        forall|i: int| 0 <= i < spec_udec(n).len() ==> spec_udec(n)[i] != '+' && spec_udec(n)[i]
            != '-',
    decreases n,
{
    lemma_udec_value(n);
    assert forall|i: int| 0 <= i < spec_udec(n).len() implies #[trigger] atom_char_ok(
        spec_udec(n)[i],
    ) && spec_udec(n)[i] != '+' && spec_udec(n)[i] != '-' by {
        assert(is_digit_char(spec_udec(n)[i]));
    }
}

/// The canonical text of an in-range number reads back as that number.
pub proof fn lemma_int_text_round_trip(v: int)
    requires
        -0x8000_0000 <= v <= 0x7fff_ffff,
    ensures
        spec_parse_i32(spec_int_text(v)) == Some(v),
{
    let s = spec_int_text(v);
    if v < 0 {
        lemma_udec_value(-v);
        lemma_udec_chars(-v);
        assert(s == seq!['-'] + spec_udec(-v));
        assert(s[0] == '-');
        assert(s.skip(1) =~= spec_udec(-v));
        assert(all_digits(s.skip(1)));
        assert(digits_val(s.skip(1)) == -v);
    } else {
        lemma_udec_value(v);
        lemma_udec_chars(v);
        assert(s == spec_udec(v));
        assert(s[0] != '+' && s[0] != '-');
        assert(all_digits(s));
    }
}

/// The canonical text of a number or boolean, or a well-formed symbol,
/// is a non-empty atom token that classifies back to the expression.
pub proof fn lemma_atom_round_trip(e: SpecExpr)
    requires
        wf_expr(e),
        !(e is List),
    ensures
        spec_render(e).len() > 0,
        forall|i: int| 0 <= i < spec_render(e).len() ==> #[trigger] atom_char_ok(
            spec_render(e)[i],
        ),
        atom_expr(spec_render(e)) == e,
{
    reveal_strlit("true");
    reveal_strlit("false");
    assert("true"@ =~= seq!['t', 'r', 'u', 'e']);
    assert("false"@ =~= seq!['f', 'a', 'l', 's', 'e']);
    match e {
        SpecExpr::Number(v) => {
            lemma_int_text_round_trip(v);
            if v < 0 {
                lemma_udec_chars(-v);
                assert forall|i: int| 0 <= i < spec_render(e).len() implies #[trigger]
                    atom_char_ok(spec_render(e)[i]) by {
                    if i > 0 {
                        assert(spec_render(e)[i] == spec_udec(-v)[i - 1]);
                        assert(atom_char_ok(spec_udec(-v)[i - 1]));
                    }
                }
            } else {
                lemma_udec_chars(v);
            }
        },
        SpecExpr::Bool(b) => {
            if b {
                assert(spec_render(e) == "true"@);
                assert(spec_parse_i32("true"@) is None) by {
                    assert(!is_digit_char('t'));
                    assert(!all_digits("true"@));
                }
            } else {
                assert(spec_render(e) == "false"@);
                assert(spec_parse_i32("false"@) is None) by {
                    assert(!is_digit_char('f'));
                    assert(!all_digits("false"@));
                }
            }
        },
        SpecExpr::Symbol(s) => {
        },
        _ => {
        },
    }
}

/// Atom characters only accumulate: tokenizing `s + rest` from a pending
/// buffer is tokenizing `rest` with the buffer extended by `s`.
proof fn lemma_tok_atom_run(s: Seq<char>, rest: Seq<char>, buf: Seq<char>)
    requires
        forall|i: int| 0 <= i < s.len() ==> #[trigger] atom_char_ok(s[i]),
    ensures
        spec_tokenize_from(s + rest, buf) == spec_tokenize_from(rest, buf + s),
    decreases s.len(),
{
    if s.len() == 0 {
        assert(s + rest =~= rest);
        assert(buf + s =~= buf);
    } else {
        let c = s[0];
        assert(atom_char_ok(c));
        assert((s + rest)[0] == c);
        assert((s + rest).len() > 0);
        assert((s + rest).skip(1) =~= s.skip(1) + rest);
        assert forall|i: int| 0 <= i < s.skip(1).len() implies #[trigger] atom_char_ok(
            s.skip(1)[i],
        ) by {
            assert(s.skip(1)[i] == s[i + 1]);
        }
        lemma_tok_atom_run(s.skip(1), rest, buf.push(c));
        assert(buf.push(c) + s.skip(1) =~= buf + s);
    }
}

/// The text of a non-empty list body starts with its first member's text.
proof fn lemma_render_items_head(items: Seq<SpecExpr>)
    requires
        items.len() >= 1,
    ensures
        items.len() == 1 ==> spec_render_items(items) == spec_render(items[0]),
        items.len() > 1 ==> spec_render_items(items) == spec_render(items[0]) + seq![' ']
            + spec_render_items(items.skip(1)),
    decreases items.len(),
{
    if items.len() == 1 {
    } else if items.len() == 2 {
        assert(items.drop_last() =~= seq![items[0]]);
        assert(items.skip(1) =~= seq![items[1]]);
        assert(spec_render_items(seq![items[0]]) == spec_render(items[0]));
        assert(spec_render_items(seq![items[1]]) == spec_render(items[1]));
        assert(items.last() == items[1]);
        assert(spec_render_items(items) == spec_render(items[0]) + seq![' '] + spec_render(
            items[1],
        ));
    } else {
        let dl = items.drop_last();
        lemma_render_items_head(dl);
        assert(dl[0] == items[0]);
        assert(dl.skip(1) =~= items.skip(1).drop_last());
        assert(items.skip(1).last() == items.last());
        assert(spec_render_items(items.skip(1)) == spec_render_items(items.skip(1).drop_last())
            + seq![' '] + spec_render(items.last()));
        assert(spec_render_items(items) == (spec_render(items[0]) + seq![' ']
            + spec_render_items(dl.skip(1))) + seq![' '] + spec_render(items.last()));
        assert((spec_render(items[0]) + seq![' '] + spec_render_items(dl.skip(1))) + seq![' ']
            + spec_render(items.last()) =~= spec_render(items[0]) + seq![' '] + (
        spec_render_items(dl.skip(1)) + seq![' '] + spec_render(items.last())));
    }
}

/// Tokenizing a well-formed expression's text followed by anything that
/// starts at a token boundary: the expression's tokens, then the rest's.
proof fn lemma_tok_render(e: SpecExpr, rest: Seq<char>)
    requires
        wf_expr(e),
        rest.len() == 0 || is_paren_char(rest[0]) || is_whitespace_char(rest[0]),
    ensures
        spec_tokenize_from(spec_render(e) + rest, Seq::empty()) == spec_tokens_of(e)
            + spec_tokenize_from(rest, Seq::empty()),
    decreases e,
{
    if e is List {
        let items = e->List_0;
        let body = spec_render_items(items);
        assert(spec_render(e) == seq!['('] + body + seq![')']);
        let inner = body + (seq![')'] + rest);
        assert(spec_render(e) + rest =~= seq!['('] + inner);
        let whole = spec_render(e) + rest;
        assert(whole[0] == '(');
        assert(whole.skip(1) =~= inner);
        assert(spec_tokenize_from(whole, Seq::empty()) == flush(Seq::empty()) + seq![seq!['(']]
            + spec_tokenize_from(inner, Seq::empty()));
        assert((seq![')'] + rest)[0] == ')');
        lemma_tok_items(items, seq![')'] + rest);
        assert(spec_tokenize_from(seq![')'] + rest, Seq::empty()) == flush(Seq::empty()) + seq![
            seq![')'],
        ] + spec_tokenize_from((seq![')'] + rest).skip(1), Seq::empty()));
        assert((seq![')'] + rest).skip(1) =~= rest);
        assert(flush(Seq::empty()) =~= Seq::<Seq<char>>::empty());
        assert(spec_tokenize_from(whole, Seq::empty()) =~= (seq![seq!['(']] + tokens_of_items(
            items,
        ) + seq![seq![')']]) + spec_tokenize_from(rest, Seq::empty()));
    } else {
        lemma_atom_round_trip(e);
        let text = spec_render(e);
        lemma_tok_atom_run(text, rest, Seq::empty());
        assert(Seq::<char>::empty() + text =~= text);
        if rest.len() == 0 {
            assert(spec_tokenize_from(rest, text) == flush(text));
            assert(flush(text) =~= seq![text] + spec_tokenize_from(rest, Seq::empty()));
        } else if is_paren_char(rest[0]) {
            assert(spec_tokenize_from(rest, text) == flush(text) + seq![seq![rest[0]]]
                + spec_tokenize_from(rest.skip(1), Seq::empty()));
            assert(spec_tokenize_from(rest, Seq::empty()) == flush(Seq::empty()) + seq![
                seq![rest[0]],
            ] + spec_tokenize_from(rest.skip(1), Seq::empty()));
            assert(flush(text) + seq![seq![rest[0]]] + spec_tokenize_from(
                rest.skip(1),
                Seq::empty(),
            ) =~= seq![text] + spec_tokenize_from(rest, Seq::empty()));
        } else {
            assert(spec_tokenize_from(rest, text) == flush(text) + spec_tokenize_from(
                rest.skip(1),
                Seq::empty(),
            ));
            assert(spec_tokenize_from(rest, Seq::empty()) == flush(Seq::empty())
                + spec_tokenize_from(rest.skip(1), Seq::empty()));
            assert(flush(text) + spec_tokenize_from(rest.skip(1), Seq::empty()) =~= seq![text]
                + spec_tokenize_from(rest, Seq::empty()));
        }
    }
}

/// Tokenizing the space-joined texts of well-formed list members followed
/// by anything at a token boundary: their tokens, then the rest's.
proof fn lemma_tok_items(items: Seq<SpecExpr>, rest: Seq<char>)
    requires
        wf_items(items),
        rest.len() > 0,
        is_paren_char(rest[0]) || is_whitespace_char(rest[0]),
    ensures
        spec_tokenize_from(spec_render_items(items) + rest, Seq::empty()) == tokens_of_items(items)
            + spec_tokenize_from(rest, Seq::empty()),
    decreases items,
{
    if items.len() == 0 {
        assert(spec_render_items(items) + rest =~= rest);
        assert(tokens_of_items(items) + spec_tokenize_from(rest, Seq::empty())
            =~= spec_tokenize_from(rest, Seq::empty()));
    } else if items.len() == 1 {
        lemma_render_items_head(items);
        lemma_tok_render(items[0], rest);
        assert(tokens_of_items(items.skip(1)) =~= Seq::<Seq<char>>::empty());
        assert(spec_tokens_of(items[0]) + tokens_of_items(items.skip(1)) =~= spec_tokens_of(
            items[0],
        ));
    } else {
        lemma_render_items_head(items);
        let tail_text = spec_render_items(items.skip(1)) + rest;
        let sep_rest = seq![' '] + tail_text;
        assert(spec_render_items(items) + rest =~= spec_render(items[0]) + sep_rest);
        assert(sep_rest[0] == ' ');
        lemma_tok_render(items[0], sep_rest);
        assert(spec_tokenize_from(sep_rest, Seq::empty()) == flush(Seq::empty())
            + spec_tokenize_from(sep_rest.skip(1), Seq::empty()));
        assert(sep_rest.skip(1) =~= tail_text);
        lemma_tok_items(items.skip(1), rest);
        assert(flush(Seq::empty()) + spec_tokenize_from(tail_text, Seq::empty())
            =~= spec_tokenize_from(tail_text, Seq::empty()));
        assert(spec_tokens_of(items[0]) + (tokens_of_items(items.skip(1)) + spec_tokenize_from(
            rest,
            Seq::empty(),
        )) =~= tokens_of_items(items) + spec_tokenize_from(rest, Seq::empty()));
    }
}

/// Tokenizing a well-formed expression's canonical text gives exactly its
/// token sequence.
pub proof fn lemma_tokenize_render(e: SpecExpr)
    requires
        wf_expr(e),
    ensures
        spec_tokenize(spec_render(e)) == spec_tokens_of(e),
{
    lemma_tok_render(e, Seq::empty());
    assert(spec_render(e) + Seq::<char>::empty() =~= spec_render(e));
    assert(spec_tokenize_from(Seq::empty(), Seq::empty()) =~= Seq::<Seq<char>>::empty());
    assert(spec_tokens_of(e) + Seq::<Seq<char>>::empty() =~= spec_tokens_of(e));
}

/// An atom's one token is neither parenthesis token.
proof fn lemma_atom_token_shape(e: SpecExpr)
    requires
        wf_expr(e),
        !(e is List),
    ensures
        spec_tokens_of(e) == seq![spec_render(e)],
        spec_render(e) != seq!['('],
        spec_render(e) != seq![')'],
{
    lemma_atom_round_trip(e);
    let text = spec_render(e);
    if text == seq!['('] {
        assert(atom_char_ok(text[0]));
        assert(text[0] == '(');
        assert(false);
    }
    if text == seq![')'] {
        assert(atom_char_ok(text[0]));
        assert(text[0] == ')');
        assert(false);
    }
}

/// Parsing one value at a cursor that stands on a well-formed expression's
/// tokens: exactly that expression, with the cursor moved past its tokens.
proof fn lemma_parse_value_at(e: SpecExpr, toks: Seq<Seq<char>>, cur: int)
    requires
        wf_expr(e),
        0 <= cur,
        cur + spec_tokens_of(e).len() <= toks.len(),
        toks.subrange(cur, cur + spec_tokens_of(e).len() as int) == spec_tokens_of(e),
    ensures
        parse_value_spec(toks, cur) == Ok::<(SpecExpr, int), SpecParseErr>(
            (e, cur + spec_tokens_of(e).len()),
        ),
    decreases e,
{
    let n = spec_tokens_of(e).len() as int;
    match e {
        SpecExpr::List(items) => {
            let inner = tokens_of_items(items) + seq![seq![')']];
            let m = tokens_of_items(items).len() as int;
            assert(n == m + 2);
            assert(toks[cur] == toks.subrange(cur, cur + n)[0]);
            assert(spec_tokens_of(e)[0] == seq!['(']);
            assert(toks.subrange(cur + 1, cur + 1 + m + 1) =~= inner) by {
                assert forall|i: int| 0 <= i < m + 1 implies toks.subrange(
                    cur + 1,
                    cur + 1 + m + 1,
                )[i] == inner[i] by {
                    assert(toks.subrange(cur + 1, cur + 1 + m + 1)[i] == toks[cur + 1 + i]);
                    assert(toks[cur + 1 + i] == toks.subrange(cur, cur + n)[1 + i]);
                    assert(spec_tokens_of(e)[1 + i] == inner[i]);
                }
            }
            lemma_parse_items_at(items, toks, cur + 1);
        },
        _ => {
            lemma_atom_token_shape(e);
            assert(n == 1);
            assert(toks[cur] == toks.subrange(cur, cur + 1)[0]);
            assert(toks[cur] == spec_render(e));
            lemma_atom_round_trip(e);
        },
    }
}

/// Parsing list members at a cursor that stands on their tokens followed
/// by a closing parenthesis: exactly those members, the parenthesis
/// consumed.
proof fn lemma_parse_items_at(items: Seq<SpecExpr>, toks: Seq<Seq<char>>, cur: int)
    requires
        wf_items(items),
        0 <= cur,
        cur + tokens_of_items(items).len() + 1 <= toks.len(),
        toks.subrange(cur, cur + tokens_of_items(items).len() + 1) == tokens_of_items(items)
            + seq![seq![')']],
    ensures
        parse_items_spec(toks, cur) == Ok::<(Seq<SpecExpr>, int), SpecParseErr>(
            (items, cur + tokens_of_items(items).len() + 1),
        ),
    decreases items,
{
    let m = tokens_of_items(items).len() as int;
    let whole = tokens_of_items(items) + seq![seq![')']];
    assert(toks[cur] == toks.subrange(cur, cur + m + 1)[0]);
    if items.len() == 0 {
        assert(toks[cur] == seq![')']);
        assert(items =~= Seq::<SpecExpr>::empty());
    } else {
        let head = items[0];
        let n0 = spec_tokens_of(head).len() as int;
        assert(wf_expr(head));
        assert(n0 >= 1) by {
            if head is List {
            } else {
                lemma_atom_token_shape(head);
            }
        }
        assert(toks[cur] == whole[0]);
        assert(whole[0] == spec_tokens_of(head)[0]);
        assert(toks[cur] != seq![')']) by {
            if head is List {
                assert(spec_tokens_of(head)[0] == seq!['(']);
                assert(seq!['('].len() == 1 && seq![')'].len() == 1);
                assert(seq!['('][0] != seq![')'][0]);
            } else {
                lemma_atom_token_shape(head);
            }
        }
        assert(toks.subrange(cur, cur + n0) =~= spec_tokens_of(head)) by {
            assert forall|i: int| 0 <= i < n0 implies toks.subrange(cur, cur + n0)[i]
                == spec_tokens_of(head)[i] by {
                assert(toks.subrange(cur, cur + n0)[i] == toks[cur + i]);
                assert(toks[cur + i] == toks.subrange(cur, cur + m + 1)[i]);
                assert(whole[i] == spec_tokens_of(head)[i]);
            }
        }
        lemma_parse_value_at(head, toks, cur);
        let c2 = cur + n0;
        let rest = items.skip(1);
        let mr = tokens_of_items(rest).len() as int;
        assert(m == n0 + mr);
        assert(toks.subrange(c2, c2 + mr + 1) =~= tokens_of_items(rest) + seq![seq![')']]) by {
            assert forall|i: int| 0 <= i < mr + 1 implies toks.subrange(c2, c2 + mr + 1)[i] == (
            tokens_of_items(rest) + seq![seq![')']])[i] by {
                assert(toks.subrange(c2, c2 + mr + 1)[i] == toks[c2 + i]);
                assert(toks[c2 + i] == toks.subrange(cur, cur + m + 1)[n0 + i]);
                assert(whole[n0 + i] == (tokens_of_items(rest) + seq![seq![')']])[i]);
            }
        }
        lemma_parse_items_at(rest, toks, c2);
        assert(seq![head] + rest =~= items);
    }
}

/// The round trip: for a well-formed expression, tokenizing and parsing
/// the canonical text gives the expression back — so the canonical
/// printer is idempotent on canonical input.
pub proof fn lemma_render_parse_round_trip(e: SpecExpr)
    requires
        wf_expr(e),
    ensures
        spec_parse(spec_tokenize(spec_render(e))) == Ok::<SpecExpr, SpecParseErr>(e),
{
    lemma_tokenize_render(e);
    let toks = spec_tokens_of(e);
    assert(toks.len() >= 1) by {
        if e is List {
        } else {
            lemma_atom_token_shape(e);
        }
    }
    assert(toks.subrange(0, toks.len() as int) =~= toks);
    lemma_parse_value_at(e, toks, 0);
}

} // verus!
