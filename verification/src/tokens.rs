//! The tokenizer: raw text split into parenthesis tokens and atom tokens,
//! with whitespace as separator. [`spec_tokenize`] is the model; `tokenize`
//! produces exactly its result.

use vstd::prelude::*;

use crate::text::push_char;

verus! {

/// The characters that separate tokens.
pub open spec fn is_whitespace_char(c: char) -> bool {
    c == ' ' || c == '\t' || c == '\r' || c == '\n'
}

/// The two characters that are tokens by themselves.
pub open spec fn is_paren_char(c: char) -> bool {
    c == '(' || c == ')'
}

/// The pending atom text, as zero tokens if empty and one token otherwise.
pub open spec fn flush(buf: Seq<char>) -> Seq<Seq<char>> {
    if buf.len() == 0 {
        Seq::empty()
    } else {
        seq![buf]
    }
}

/// The tokens of `s` when the atom text `buf` has been read just before it.
pub open spec fn spec_tokenize_from(s: Seq<char>, buf: Seq<char>) -> Seq<Seq<char>>
    decreases s.len(),
{
    if s.len() == 0 {
        flush(buf)
    } else {
        let c = s[0];
        if is_paren_char(c) {
            flush(buf) + seq![seq![c]] + spec_tokenize_from(s.skip(1), Seq::empty())
        } else if is_whitespace_char(c) {
            flush(buf) + spec_tokenize_from(s.skip(1), Seq::empty())
        } else {
            spec_tokenize_from(s.skip(1), buf.push(c))
        }
    }
}

/// The token sequence of a piece of raw text.
pub open spec fn spec_tokenize(s: Seq<char>) -> Seq<Seq<char>> {
    spec_tokenize_from(s, Seq::empty())
}

/// Splits raw text into tokens: `(` and `)` stand alone, whitespace
/// separates, and every other maximal run of characters is one atom token.
#[verifier::loop_isolation(false)]
pub fn tokenize(raw: &str) -> (tokens: Vec<String>)
    ensures
        tokens.deep_view() == spec_tokenize(raw@),
{
    let n = raw.unicode_len();
    let mut tokens: Vec<String> = Vec::new();
    let mut buffer = String::new();
    let mut i: usize = 0;
    proof {
        assert(tokens.deep_view() =~= Seq::<Seq<char>>::empty());
        assert(raw@.skip(0) =~= raw@);
        assert(Seq::<Seq<char>>::empty() + spec_tokenize_from(raw@, Seq::empty())
            =~= spec_tokenize_from(raw@, Seq::empty()));
    }
    while i < n
        invariant
            i <= n,
            spec_tokenize(raw@) == tokens.deep_view() + spec_tokenize_from(
                raw@.skip(i as int),
                buffer@,
            ),
        decreases n - i,
    {
        let ghost toks0 = tokens.deep_view();
        let ghost buf0 = buffer@;
        let ghost rest = raw@.skip(i as int);
        let c = raw.get_char(i);
        proof {
            assert(rest[0] == c);
            assert(rest.skip(1) =~= raw@.skip(i + 1));
        }
        if c == '(' || c == ')' {
            if !buffer.as_str().is_empty() {
                tokens.push(buffer.clone());
                buffer = String::new();
                proof {
                    assert(tokens.deep_view() =~= toks0 + flush(buf0));
                }
            }
            proof {
                assert(buffer@ =~= Seq::<char>::empty());
            }
            let mut paren = String::new();
            push_char(&mut paren, c);
            proof {
                assert(paren@ =~= seq![c]);
            }
            tokens.push(paren);
            proof {
                assert(tokens.deep_view() =~= toks0 + flush(buf0) + seq![seq![c]]);
                assert(spec_tokenize_from(rest, buf0) == flush(buf0) + seq![seq![c]]
                    + spec_tokenize_from(rest.skip(1), Seq::empty()));
                assert(spec_tokenize(raw@) == toks0 + (flush(buf0) + seq![seq![c]]
                    + spec_tokenize_from(raw@.skip(i + 1), Seq::empty())));
                assert(toks0 + flush(buf0) + seq![seq![c]] + spec_tokenize_from(
                    raw@.skip(i + 1),
                    Seq::empty(),
                ) =~= toks0 + (flush(buf0) + seq![seq![c]] + spec_tokenize_from(
                    raw@.skip(i + 1),
                    Seq::empty(),
                )));
            }
        } else if c == ' ' || c == '\t' || c == '\r' || c == '\n' {
            if !buffer.as_str().is_empty() {
                tokens.push(buffer.clone());
                buffer = String::new();
            }
            proof {
                assert(buffer@ =~= Seq::<char>::empty());
                assert(tokens.deep_view() =~= toks0 + flush(buf0));
                assert(toks0 + flush(buf0) + spec_tokenize_from(raw@.skip(i + 1), Seq::empty())
                    =~= toks0 + (flush(buf0) + spec_tokenize_from(
                    raw@.skip(i + 1),
                    Seq::empty(),
                )));
            }
        } else {
            push_char(&mut buffer, c);
        }
        i = i + 1;
    }
    proof {
        assert(raw@.skip(n as int) =~= Seq::<char>::empty());
    }
    if !buffer.as_str().is_empty() {
        let ghost toks0 = tokens.deep_view();
        tokens.push(buffer);
        proof {
            assert(tokens.deep_view() =~= toks0 + flush(buffer@));
        }
    } else {
        proof {
            assert(tokens.deep_view() =~= tokens.deep_view() + flush(buffer@));
        }
    }
    tokens
}

} // verus!
