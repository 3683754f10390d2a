//! What lexing promises of a whole source: its tokens lie in order along it,
//! each is the longest match at its place, and comments and whitespace never
//! become tokens.

use vstd::prelude::*;
use vstd::utf8::*;
use crate::lexer::{
    TokenKind, Step, SpecToken, TokView, whitespace, viable, any_match, longest_match, winner,
    error_extent, step_at, next_token_at, tokens_from, token_view, lex, no_match_at,
};
use crate::lexer::rules::lemma_winner_exists;
use crate::lexer::text::{byte_offset, lemma_byte_offset_step, lemma_encode_slice};

verus! {

/// Where nothing matches, an error extent exists: the longest prefix, of at
/// most `n` characters, that can still grow into a match, or one character.
proof fn lemma_error_extent_exists(s: Seq<char>, i: int, n: int)
    requires
        0 <= i < s.len(),
        1 <= n <= s.len() - i,
        forall|m: int| n < m <= s.len() - i ==> !viable(#[trigger] s.subrange(i, i + m)),
    ensures
        exists|k: int| error_extent(s, i, k),
    decreases n,
{
    if n == 1 || viable(s.subrange(i, i + n)) {
        if i + n < s.len() {
            let m = n + 1;
            assert(!viable(s.subrange(i, i + m)));
            assert(s.subrange(i, i + m) == s.subrange(i, i + n + 1));
        }
        assert(error_extent(s, i, n));
    } else {
        lemma_error_extent_exists(s, i, n - 1);
    }
}

/// Where some prefix from `i` matches, a longest one does.
proof fn lemma_longest_exists(s: Seq<char>, i: int, n: int)
    requires
        0 <= i,
        1 <= n,
        i + n <= s.len(),
        any_match(s.subrange(i, i + n)),
    ensures
        exists|k: int| longest_match(s, i, k),
    decreases s.len() - i - n,
{
    if exists|m: int| i + n < m <= s.len() && any_match(#[trigger] s.subrange(i, m)) {
        let m = choose|m: int| i + n < m <= s.len() && any_match(#[trigger] s.subrange(i, m));
        assert(s.subrange(i, i + (m - i)) == s.subrange(i, m));
        lemma_longest_exists(s, i, m - i);
    } else {
        assert(longest_match(s, i, n));
    }
}

/// A token with its place in `s`: it begins at or after `from`, covers a
/// nonempty stretch of `s`, and is never a comment. Unless it is an error,
/// it is the longest match at its start, no whitespace, and its text lies in
/// the language of its kind, which beats every other kind that holds the
/// text; an error comes only where no prefix from its start matches.
pub open spec fn placed(s: Seq<char>, from: int, t: SpecToken) -> bool {
    &&& from <= t.start < t.end <= s.len()
    &&& t.kind != TokenKind::Comment
    &&& (t.kind != TokenKind::Error ==> {
        &&& longest_match(s, t.start as int, t.end - t.start)
        &&& !whitespace(s.subrange(t.start as int, t.end as int))
        &&& winner(t.kind, s.subrange(t.start as int, t.end as int))
    })
    &&& (t.kind == TokenKind::Error ==> no_match_at(s, t.start as int))
}

proof fn lemma_next_token(s: Seq<char>, i: int)
    requires
        0 <= i,
    ensures
        next_token_at(s, i) matches Some(t) ==> placed(s, i, t),
    decreases s.len() - i,
{
    if 0 <= i < s.len() {
        if exists|n: int| longest_match(s, i, n) {
            let n = choose|n: int| longest_match(s, i, n);
            let t = s.subrange(i, i + n);
            if !whitespace(t) {
                lemma_winner_exists(t);
            }
        } else {
            lemma_error_extent_exists(s, i, s.len() - i);
            assert forall|m: int| 1 <= m && i + m <= s.len() implies !any_match(
                #[trigger] s.subrange(i, i + m),
            ) by {
                if any_match(s.subrange(i, i + m)) {
                    lemma_longest_exists(s, i, m);
                }
            }
        }
        match step_at(s, i) {
            Step::Skip(n) => {
                if n >= 1 {
                    lemma_next_token(s, i + n);
                }
            },
            _ => {},
        }
    }
}

/// The tokens from position `i` on are each in their place, and each ends
/// before the next begins.
pub proof fn law_tokens_from(s: Seq<char>, i: int)
    requires
        0 <= i,
    ensures
        forall|j: int| 0 <= j < tokens_from(s, i).len() ==> placed(s, i, #[trigger] tokens_from(s, i)[j]),
        forall|j: int|
            0 <= j < tokens_from(s, i).len() - 1 ==> #[trigger] tokens_from(s, i)[j].end
                <= tokens_from(s, i)[j + 1].start,
    decreases s.len() - i,
{
    lemma_next_token(s, i);
    if let Some(t) = next_token_at(s, i) {
        if i < t.end <= s.len() {
            law_tokens_from(s, t.end as int);
            let rest = tokens_from(s, t.end as int);
            let all = tokens_from(s, i);
            assert(all == seq![t] + rest);
            assert forall|j: int| 0 <= j < all.len() implies placed(s, i, #[trigger] all[j]) by {
                if j > 0 {
                    assert(all[j] == rest[j - 1]);
                }
            }
            assert forall|j: int| 0 <= j < all.len() - 1 implies #[trigger] all[j].end <= all[j
                + 1].start by {
                if j > 0 {
                    assert(all[j] == rest[j - 1]);
                    assert(all[j + 1] == rest[j]);
                } else {
                    assert(all[1] == rest[0]);
                }
            }
        }
    }
}

/// Later character positions lie at later byte offsets.
proof fn lemma_byte_offset_increasing(s: Seq<char>, i: int, j: int)
    requires
        0 <= i < j <= s.len(),
    ensures
        byte_offset(s, i) < byte_offset(s, j),
{
    lemma_byte_offset_step(s, i);
    lemma_encode_slice(s, i + 1, j);
    assert(encode_scalar(s[i] as u32).len() >= 1);
}

/// The tokens of a source lie in order along it: each covers a nonempty
/// stretch of its bytes, after the end of the token before; a token's text is
/// what the source holds there; no token is a comment; and every token but an
/// error lies in the language of its kind, which beats every other kind that
/// holds the same text.
pub proof fn law_tokens_in_order(s: Seq<char>)
    ensures
        forall|j: int|
            0 <= j < lex(s).len() ==> {
                let t = #[trigger] lex(s)[j];
                &&& t.start < t.end <= encode_utf8(s).len()
                &&& encode_utf8(t.lexeme) == encode_utf8(s).subrange(t.start as int, t.end as int)
                &&& t.kind != TokenKind::Comment
                &&& (t.kind != TokenKind::Error ==> winner(t.kind, t.lexeme))
            },
        forall|j: int| 0 <= j < lex(s).len() - 1 ==> #[trigger] lex(s)[j].end <= lex(s)[j + 1].start,
{
    law_tokens_from(s, 0);
    let ts = tokens_from(s, 0);
    let v = lex(s);
    assert forall|j: int| 0 <= j < v.len() implies {
        let t = #[trigger] v[j];
        &&& t.start < t.end <= encode_utf8(s).len()
        &&& encode_utf8(t.lexeme) == encode_utf8(s).subrange(t.start as int, t.end as int)
        &&& t.kind != TokenKind::Comment
        &&& (t.kind != TokenKind::Error ==> winner(t.kind, t.lexeme))
    } by {
        let st = ts[j];
        assert(placed(s, 0, st));
        assert(v[j] == token_view(s, st));
        lemma_byte_offset_increasing(s, st.start as int, st.end as int);
        lemma_encode_slice(s, st.start as int, st.end as int);
        lemma_encode_slice(s, st.end as int, s.len() as int);
    }
    assert forall|j: int| 0 <= j < v.len() - 1 implies #[trigger] v[j].end <= v[j + 1].start by {
        let a = ts[j];
        let b = ts[j + 1];
        assert(a.end <= b.start);
        assert(placed(s, 0, b));
        lemma_encode_slice(s, a.end as int, b.start as int);
    }
}

} // verus!
