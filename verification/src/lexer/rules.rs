//! Facts about the token languages used by the scanner's proofs.

use vstd::prelude::*;
use crate::lexer::{
    TokenKind, Step, literal_of, is_digit, is_ident_start, is_ident_continue, is_ws, kind_matches,
    digits, whitespace, any_match, viable, longest_match, winner, error_extent, step_at, str_body,
    delim_body, priority, string_lit, line_comment, delimited_comment, no_match_at, bool_lit,
};

verus! {

/// Characters that can begin a token of kind `k`.
pub open spec fn can_start(k: TokenKind, c: char) -> bool {
    match literal_of(k) {
        Some(l) => l[0] == c,
        None => match k {
            TokenKind::IntLit => is_digit(c),
            TokenKind::FloatLit => is_digit(c),
            TokenKind::CharLit => c == '\'',
            TokenKind::StringLit => c == '"',
            TokenKind::BoolLit => c == 't' || c == 'f',
            TokenKind::Ident => is_ident_start(c),
            TokenKind::Comment => c == '/',
            TokenKind::DocComment => c == '/',
            _ => false,
        },
    }
}

pub open spec fn all_ident_continue(t: Seq<char>) -> bool {
    forall|j: int| 0 <= j < t.len() ==> is_ident_continue(#[trigger] t[j])
}

/// Shape of the fixed-string tokens: nonempty, at most six characters, and a
/// keyword (one that begins like an identifier) consists of identifier
/// characters only.
pub proof fn lemma_literal_shape(k: TokenKind)
    ensures
        literal_of(k) matches Some(l) ==> {
            &&& 1 <= l.len() <= 6
            &&& (is_ident_start(l[0]) ==> all_ident_continue(l))
            &&& !is_ws(l[0])
            &&& !is_digit(l[0])
            &&& l[0] != '"'
        },
{
    match k {
        _ => {},
    }
}


/// A token can only begin with a character that its kind allows.
pub proof fn lemma_can_start(k: TokenKind, t: Seq<char>)
    requires
        kind_matches(k, t),
    ensures
        t.len() >= 1,
        can_start(k, t[0]),
{
    lemma_literal_shape(k);
    match k {
        TokenKind::FloatLit => {
            let d = choose|d: int|
                0 < d < t.len() && #[trigger] t[d] == '.' && digits(t.subrange(0, d)) && digits(
                    t.subrange(d + 1, t.len() as int),
                );
            assert(t.subrange(0, d)[0] == t[0]);
        },
        TokenKind::CharLit => {},
        TokenKind::StringLit => {},
        TokenKind::Comment => {},
        TokenKind::DocComment => {},
        TokenKind::BoolLit => {},
        _ => {},
    }
}


/// No token begins with a whitespace character.
pub proof fn lemma_ws_starts_nothing(k: TokenKind, c: char)
    requires
        is_ws(c),
    ensures
        !can_start(k, c),
{
    lemma_literal_shape(k);
}

/// A match begins with whitespace or with a character some kind allows.
pub proof fn lemma_match_start(t: Seq<char>)
    requires
        any_match(t),
    ensures
        t.len() >= 1,
        is_ws(t[0]) || exists|k: TokenKind| can_start(k, t[0]),
{
    if !whitespace(t) {
        let k = choose|k: TokenKind| kind_matches(k, t);
        lemma_can_start(k, t);
    } else {
        assert(is_ws(t[0]));
    }
}

/// Whitespace and tokens never overlap.
pub proof fn lemma_ws_not_kind(k: TokenKind, t: Seq<char>)
    requires
        whitespace(t),
    ensures
        !kind_matches(k, t),
{
    if kind_matches(k, t) {
        lemma_can_start(k, t);
        assert(is_ws(t[0]));
        lemma_ws_starts_nothing(k, t[0]);
    }
}

/// What can still grow into a match has prefixes that can too.
pub proof fn lemma_viable_prefix(t: Seq<char>, x: Seq<char>)
    requires
        viable(t + x),
    ensures
        viable(t),
{
    let u = choose|u: Seq<char>| any_match(#[trigger] ((t + x) + u));
    assert((t + x) + u =~= t + (x + u));
    assert(any_match(t + (x + u)));
}

pub proof fn lemma_longest_unique(s: Seq<char>, i: int, n1: int, n2: int)
    requires
        longest_match(s, i, n1),
        longest_match(s, i, n2),
    ensures
        n1 == n2,
{
    if n1 < n2 {
        assert(!any_match(s.subrange(i, i + n2)));
    } else if n2 < n1 {
        assert(!any_match(s.subrange(i, i + n1)));
    }
}

pub proof fn lemma_winner_unique(k1: TokenKind, k2: TokenKind, t: Seq<char>)
    requires
        winner(k1, t),
        winner(k2, t),
    ensures
        k1 == k2,
{
    if k1 != k2 {
        assert(kind_matches(k2, t));
        assert(kind_matches(k1, t));
    }
}

pub proof fn lemma_error_extent_unique(s: Seq<char>, i: int, n1: int, n2: int)
    requires
        error_extent(s, i, n1),
        error_extent(s, i, n2),
    ensures
        n1 == n2,
{
    if n1 < n2 {
        assert(n2 >= 2);
        assert(viable(s.subrange(i, i + n2)));
        assert(s.subrange(i, i + n2) =~= s.subrange(i, i + n1 + 1) + s.subrange(i + n1 + 1, i + n2));
        lemma_viable_prefix(s.subrange(i, i + n1 + 1), s.subrange(i + n1 + 1, i + n2));
    } else if n2 < n1 {
        assert(n1 >= 2);
        assert(viable(s.subrange(i, i + n1)));
        assert(s.subrange(i, i + n1) =~= s.subrange(i, i + n2 + 1) + s.subrange(i + n2 + 1, i + n1));
        lemma_viable_prefix(s.subrange(i, i + n2 + 1), s.subrange(i + n2 + 1, i + n1));
    }
}

/// The step taken when `k` wins the longest match.
pub proof fn lemma_step_token(s: Seq<char>, i: int, n: int, k: TokenKind)
    requires
        longest_match(s, i, n),
        winner(k, s.subrange(i, i + n)),
    ensures
        step_at(s, i) == (if k == TokenKind::Comment {
            Step::Skip(n as nat)
        } else {
            Step::Emit(k, n as nat)
        }),
{
    let n2 = choose|n: int| longest_match(s, i, n);
    lemma_longest_unique(s, i, n, n2);
    let t = s.subrange(i, i + n);
    if whitespace(t) {
        lemma_ws_not_kind(k, t);
    }
    let k2 = choose|k: TokenKind| winner(k, t);
    lemma_winner_unique(k, k2, t);
}

/// The step taken when whitespace is the longest match.
pub proof fn lemma_step_ws(s: Seq<char>, i: int, n: int)
    requires
        longest_match(s, i, n),
        whitespace(s.subrange(i, i + n)),
    ensures
        step_at(s, i) == Step::Skip(n as nat),
{
    let n2 = choose|n: int| longest_match(s, i, n);
    lemma_longest_unique(s, i, n, n2);
}

/// The step taken where nothing matches.
pub proof fn lemma_step_fail(s: Seq<char>, i: int, n: int)
    requires
        forall|m: int| 1 <= m && i + m <= s.len() ==> !any_match(#[trigger] s.subrange(i, i + m)),
        error_extent(s, i, n),
    ensures
        step_at(s, i) == Step::Fail(n as nat),
{
    if exists|n1: int| longest_match(s, i, n1) {
        let n1 = choose|n1: int| longest_match(s, i, n1);
        assert(!any_match(s.subrange(i, i + n1)));
    }
    let n2 = choose|n: int| error_extent(s, i, n);
    lemma_error_extent_unique(s, i, n, n2);
}

pub proof fn lemma_str_body_concat(a: Seq<char>, b: Seq<char>)
    requires
        str_body(a),
        str_body(b),
    ensures
        str_body(a + b),
    decreases a.len(),
{
    if a.len() == 0 {
        assert(a + b =~= b);
    } else if a[0] != '"' && a[0] != '\\' {
        lemma_str_body_concat(a.drop_first(), b);
        assert((a + b).drop_first() =~= a.drop_first() + b);
    } else {
        lemma_str_body_concat(a.subrange(2, a.len() as int), b);
        assert((a + b).subrange(2, (a + b).len() as int) =~= a.subrange(2, a.len() as int) + b);
    }
}

/// The inside of a string is read unit by unit from the left, so a body
/// followed by more text is a body exactly when the rest is.
pub proof fn lemma_str_body_split(a: Seq<char>, b: Seq<char>)
    requires
        str_body(a),
    ensures
        str_body(a + b) == str_body(b),
    decreases a.len(),
{
    if a.len() == 0 {
        assert(a + b =~= b);
    } else if a[0] != '"' && a[0] != '\\' {
        lemma_str_body_split(a.drop_first(), b);
        assert((a + b).drop_first() =~= a.drop_first() + b);
    } else {
        lemma_str_body_split(a.subrange(2, a.len() as int), b);
        assert((a + b).subrange(2, (a + b).len() as int) =~= a.subrange(2, a.len() as int) + b);
    }
}

pub proof fn lemma_delim_body_concat(d: char, a: Seq<char>, b: Seq<char>)
    requires
        delim_body(d, a),
        delim_body(d, b),
    ensures
        delim_body(d, a + b),
    decreases a.len(),
{
    if a.len() == 0 {
        assert(a + b =~= b);
    } else if a[0] != d {
        lemma_delim_body_concat(d, a.drop_first(), b);
        assert((a + b).drop_first() =~= a.drop_first() + b);
    } else {
        lemma_delim_body_concat(d, a.subrange(2, a.len() as int), b);
        assert((a + b).subrange(2, (a + b).len() as int) =~= a.subrange(2, a.len() as int) + b);
    }
}

/// As for strings, a comment body is read unit by unit from the left.
pub proof fn lemma_delim_body_split(d: char, a: Seq<char>, b: Seq<char>)
    requires
        delim_body(d, a),
    ensures
        delim_body(d, a + b) == delim_body(d, b),
    decreases a.len(),
{
    if a.len() == 0 {
        assert(a + b =~= b);
    } else if a[0] != d {
        lemma_delim_body_split(d, a.drop_first(), b);
        assert((a + b).drop_first() =~= a.drop_first() + b);
    } else {
        lemma_delim_body_split(d, a.subrange(2, a.len() as int), b);
        assert((a + b).subrange(2, (a + b).len() as int) =~= a.subrange(2, a.len() as int) + b);
    }
}


/// Characters that begin only fixed-string tokens.
pub open spec fn symbol_start(c: char) -> bool {
    !is_ident_start(c) && !is_digit(c) && !is_ws(c) && c != '\'' && c != '"' && c != '/'
}

/// A fixed-string token wins at `i` when no longer fixed string matches there
/// and no other fixed string spells the same text.
pub proof fn lemma_symbol(s: Seq<char>, i: int, n: int, k: TokenKind)
    requires
        0 <= i,
        1 <= n,
        i + n <= s.len(),
        symbol_start(s[i]),
        literal_of(k) == Some(s.subrange(i, i + n)),
        forall|k2: TokenKind|
            #![trigger literal_of(k2)]
            literal_of(k2) matches Some(l) ==> (l.len() > n && i + l.len() <= s.len() ==> l
                != s.subrange(i, i + l.len())),
        forall|k2: TokenKind|
            #![trigger literal_of(k2)]
            literal_of(k2) == literal_of(k) ==> k2 == k,
    ensures
        longest_match(s, i, n),
        winner(k, s.subrange(i, i + n)),
{
    let t = s.subrange(i, i + n);
    assert(kind_matches(k, t));
    assert forall|k2: TokenKind| #[trigger] kind_matches(k2, t) implies k2 == k || priority(k2)
        < priority(k) by {
        lemma_can_start(k2, t);
        assert(t[0] == s[i]);
    }
    assert forall|m: int| i + n < m <= s.len() implies !any_match(#[trigger] s.subrange(i, m)) by {
        let t2 = s.subrange(i, m);
        assert(t2[0] == s[i]);
        assert(!whitespace(t2));
        assert forall|k2: TokenKind| !kind_matches(k2, t2) by {
            if kind_matches(k2, t2) {
                lemma_can_start(k2, t2);
                assert(literal_of(k2) is Some);
                assert(t2.len() > n);
                assert(t2 =~= s.subrange(i, i + t2.len()));
            }
        }
    }
}

/// A character that begins no token can not grow into a match.
pub proof fn lemma_dead_start(t: Seq<char>)
    requires
        t.len() >= 1,
        !is_ws(t[0]),
        forall|k: TokenKind| !can_start(k, #[trigger] t[0]),
    ensures
        !viable(t),
        !any_match(t),
{
    if any_match(t) {
        lemma_match_start(t);
    }
    if viable(t) {
        let u = choose|u: Seq<char>| any_match(#[trigger] (t + u));
        assert((t + u)[0] == t[0]);
        lemma_match_start(t + u);
    }
}


/// Where even the first character can not grow into a match, the step is an
/// error of one character.
pub proof fn lemma_fail_one(s: Seq<char>, i: int)
    requires
        0 <= i < s.len(),
        !viable(s.subrange(i, i + 1)),
    ensures
        step_at(s, i) == Step::Fail(1),
        no_match_at(s, i),
{
    assert forall|m: int| 1 <= m && i + m <= s.len() implies !any_match(
        #[trigger] s.subrange(i, i + m),
    ) by {
        let u = s.subrange(i + 1, i + m);
        assert(s.subrange(i, i + 1) + u =~= s.subrange(i, i + m));
        if any_match(s.subrange(i, i + m)) {
            assert(any_match(s.subrange(i, i + 1) + u));
        }
    }
    if i + 1 < s.len() {
        if viable(s.subrange(i, i + 2)) {
            assert(s.subrange(i, i + 2) =~= s.subrange(i, i + 1) + s.subrange(i + 1, i + 2));
            lemma_viable_prefix(s.subrange(i, i + 1), s.subrange(i + 1, i + 2));
        }
    }
    lemma_step_fail(s, i, 1);
}

/// A lone `|` is an error of one character.
pub proof fn lemma_fail_pipe(s: Seq<char>, i: int)
    requires
        0 <= i < s.len(),
        s[i] == '|',
        i + 1 == s.len() || s[i + 1] != '|',
    ensures
        step_at(s, i) == Step::Fail(1),
        no_match_at(s, i),
{
    assert forall|m: int| 1 <= m && i + m <= s.len() implies !any_match(
        #[trigger] s.subrange(i, i + m),
    ) by {
        let t = s.subrange(i, i + m);
        assert(t[0] == '|');
        if any_match(t) {
            if !whitespace(t) {
                let k = choose|k: TokenKind| kind_matches(k, t);
                lemma_can_start(k, t);
                assert(k == TokenKind::DoublePipe);
                assert(t[1] == s[i + 1]);
            }
        }
    }
    if i + 1 < s.len() {
        let t = s.subrange(i, i + 2);
        if viable(t) {
            let u = choose|u: Seq<char>| any_match(#[trigger] (t + u));
            let w = t + u;
            assert(w[0] == '|' && w[1] == s[i + 1]);
            if !whitespace(w) {
                let k = choose|k: TokenKind| kind_matches(k, w);
                lemma_can_start(k, w);
            }
        }
    }
    lemma_step_fail(s, i, 1);
}


pub proof fn lemma_str_body_unit(c: char)
    requires
        c != '"' && c != '\\',
    ensures
        str_body(seq![c]),
{
    reveal_with_fuel(str_body, 2);
    assert(seq![c].drop_first() =~= Seq::<char>::empty());
}

pub proof fn lemma_str_body_escape(c: char)
    requires
        c != '\n',
    ensures
        str_body(seq!['\\', c]),
{
    reveal_with_fuel(str_body, 2);
    assert(seq!['\\', c].subrange(2, 2) =~= Seq::<char>::empty());
}

/// Only string literals begin with a double quote.
pub proof fn lemma_quote_match(t: Seq<char>)
    requires
        t.len() >= 1,
        t[0] == '"',
        any_match(t),
    ensures
        string_lit(t),
{
    if !whitespace(t) {
        let k = choose|k: TokenKind| kind_matches(k, t);
        lemma_can_start(k, t);
    }
}

/// Once the inside of a string has been read up to `p`, no string ending at
/// or before `p` can match.
pub proof fn lemma_string_none_before(s: Seq<char>, i: int, p: int, e: int)
    requires
        0 <= i < p <= s.len(),
        s[i] == '"',
        str_body(s.subrange(i + 1, p)),
        i < e <= p,
    ensures
        !any_match(s.subrange(i, e)),
{
    let t = s.subrange(i, e);
    assert(t[0] == '"');
    if any_match(t) {
        lemma_quote_match(t);
        assert(t.subrange(1, t.len() - 1) =~= s.subrange(i + 1, e - 1));
        assert(s.subrange(i + 1, p) =~= s.subrange(i + 1, e - 1) + s.subrange(e - 1, p));
        lemma_str_body_split(s.subrange(i + 1, e - 1), s.subrange(e - 1, p));
        assert(s.subrange(e - 1, p)[0] == s[e - 1]);
    }
}

/// A string closed at `p` is the longest match.
pub proof fn lemma_string_closed(s: Seq<char>, i: int, p: int)
    requires
        0 <= i < p < s.len(),
        s[i] == '"',
        s[p] == '"',
        str_body(s.subrange(i + 1, p)),
    ensures
        longest_match(s, i, p + 1 - i),
        winner(TokenKind::StringLit, s.subrange(i, p + 1)),
{
    let t = s.subrange(i, p + 1);
    assert(t.subrange(1, t.len() - 1) =~= s.subrange(i + 1, p));
    assert(string_lit(t));
    assert(kind_matches(TokenKind::StringLit, t));
    assert forall|k2: TokenKind| #[trigger] kind_matches(k2, t) implies k2 == TokenKind::StringLit
        || priority(k2) < priority(TokenKind::StringLit) by {
        lemma_can_start(k2, t);
    }
    assert forall|m: int| p + 1 < m <= s.len() implies !any_match(#[trigger] s.subrange(i, m)) by {
        let t2 = s.subrange(i, m);
        assert(t2[0] == '"');
        if any_match(t2) {
            lemma_quote_match(t2);
            let body = t2.subrange(1, t2.len() - 1);
            assert(body =~= s.subrange(i + 1, p) + s.subrange(p, m - 1));
            lemma_str_body_split(s.subrange(i + 1, p), s.subrange(p, m - 1));
            assert(s.subrange(p, m - 1)[0] == '"');
        }
    }
}

/// An unfinished string running to the end of the input is one error.
pub proof fn lemma_string_to_end(s: Seq<char>, i: int, p: int)
    requires
        0 <= i < p,
        s[i] == '"',
        p == s.len() || (p + 1 == s.len() && s[p] == '\\'),
        str_body(s.subrange(i + 1, p)),
    ensures
        step_at(s, i) == Step::Fail((s.len() - i) as nat),
        no_match_at(s, i),
{
    assert forall|m: int| 1 <= m && i + m <= s.len() implies !any_match(
        #[trigger] s.subrange(i, i + m),
    ) by {
        if i + m <= p {
            lemma_string_none_before(s, i, p, i + m);
        } else {
            let t = s.subrange(i, i + m);
            assert(t[0] == '"');
            assert(t[t.len() - 1] == s[p]);
            if any_match(t) {
                lemma_quote_match(t);
            }
        }
    }
    let n = s.len() - i;
    let t = s.subrange(i, s.len() as int);
    if p == s.len() {
        let u = seq!['"'];
        let w = t + u;
        assert(w.subrange(1, w.len() - 1) =~= s.subrange(i + 1, p));
        assert(kind_matches(TokenKind::StringLit, w));
        assert(viable(t));
    } else {
        let u = seq!['a', '"'];
        let w = t + u;
        lemma_str_body_escape('a');
        lemma_str_body_concat(s.subrange(i + 1, p), seq!['\\', 'a']);
        assert(w.subrange(1, w.len() - 1) =~= s.subrange(i + 1, p) + seq!['\\', 'a']);
        assert(kind_matches(TokenKind::StringLit, w));
        assert(viable(t));
    }
    lemma_step_fail(s, i, n);
}

/// A backslash before a line feed ends the string in an error that covers the
/// backslash.
pub proof fn lemma_string_bad_escape(s: Seq<char>, i: int, p: int)
    requires
        0 <= i < p,
        p + 1 < s.len(),
        s[i] == '"',
        s[p] == '\\',
        s[p + 1] == '\n',
        str_body(s.subrange(i + 1, p)),
    ensures
        step_at(s, i) == Step::Fail((p + 1 - i) as nat),
        no_match_at(s, i),
{
    assert forall|m: int| 1 <= m && i + m <= s.len() implies !any_match(
        #[trigger] s.subrange(i, i + m),
    ) by {
        if i + m <= p {
            lemma_string_none_before(s, i, p, i + m);
        } else {
            let t = s.subrange(i, i + m);
            assert(t[0] == '"');
            if any_match(t) {
                lemma_quote_match(t);
                assert(t[t.len() - 1] == s[i + m - 1]);
                let body = t.subrange(1, t.len() - 1);
                assert(body =~= s.subrange(i + 1, p) + s.subrange(p, i + m - 1));
                lemma_str_body_split(s.subrange(i + 1, p), s.subrange(p, i + m - 1));
                let r = s.subrange(p, i + m - 1);
                assert(r[0] == '\\');
                assert(r.len() >= 2 ==> r[1] == '\n');
            }
        }
    }
    let t = s.subrange(i, p + 1);
    let u = seq!['a', '"'];
    let w = t + u;
    lemma_str_body_escape('a');
    lemma_str_body_concat(s.subrange(i + 1, p), seq!['\\', 'a']);
    assert(w.subrange(1, w.len() - 1) =~= s.subrange(i + 1, p) + seq!['\\', 'a']);
    assert(kind_matches(TokenKind::StringLit, w));
    assert(viable(t));
    let t2 = s.subrange(i, p + 2);
    if viable(t2) {
        let u2 = choose|u2: Seq<char>| any_match(#[trigger] (t2 + u2));
        let w2 = t2 + u2;
        assert(w2[0] == '"');
        lemma_quote_match(w2);
        assert(w2[w2.len() - 1] != '\n' ==> w2.len() > p + 2 - i);
        assert(w2[p + 1 - i] == '\n');
        let body = w2.subrange(1, w2.len() - 1);
        assert(body =~= s.subrange(i + 1, p) + w2.subrange(p - i, w2.len() - 1));
        lemma_str_body_split(s.subrange(i + 1, p), w2.subrange(p - i, w2.len() - 1));
        let r = w2.subrange(p - i, w2.len() - 1);
        assert(r[0] == '\\');
        assert(r.len() >= 2 ==> r[1] == '\n');
    }
    lemma_step_fail(s, i, p + 1 - i);
}


pub proof fn lemma_delim_body_unit(d: char, c: char)
    requires
        c != d,
    ensures
        delim_body(d, seq![c]),
{
    reveal_with_fuel(delim_body, 2);
    assert(seq![c].drop_first() =~= Seq::<char>::empty());
}

pub proof fn lemma_delim_body_pair(d: char, c: char)
    requires
        c != '/',
    ensures
        delim_body(d, seq![d, c]),
{
    reveal_with_fuel(delim_body, 2);
    assert(seq![d, c].subrange(2, 2) =~= Seq::<char>::empty());
}

/// The kind that a comment delimited by `d` belongs to.
pub open spec fn comment_kind(d: char) -> TokenKind {
    if d == '*' {
        TokenKind::Comment
    } else {
        TokenKind::DocComment
    }
}

/// What can match at a slash: the fixed strings `/` and `/=`, and comments,
/// which are told apart by the second character.
pub proof fn lemma_slash_kinds(k: TokenKind, t: Seq<char>)
    requires
        kind_matches(k, t),
        t[0] == '/',
    ensures
        k == TokenKind::Slash ==> t.len() == 1,
        k == TokenKind::SlashEquals ==> t.len() == 2 && t[1] == '=',
        k == TokenKind::Comment ==> t.len() >= 2 && (line_comment(t) || delimited_comment('*', t)),
        k == TokenKind::DocComment ==> delimited_comment('+', t),
        k == TokenKind::Slash || k == TokenKind::SlashEquals || k == TokenKind::Comment || k
            == TokenKind::DocComment,
{
    lemma_can_start(k, t);
}

/// A line comment runs to the line feed or the end of the input.
pub proof fn lemma_line_comment(s: Seq<char>, i: int, e: int)
    requires
        0 <= i,
        i + 2 <= e <= s.len(),
        s[i] == '/' && s[i + 1] == '/',
        forall|q: int| i + 2 <= q < e ==> #[trigger] s[q] != '\n',
        e == s.len() || s[e] == '\n',
    ensures
        longest_match(s, i, e - i),
        winner(TokenKind::Comment, s.subrange(i, e)),
{
    let t = s.subrange(i, e);
    assert(t[0] == '/' && t[1] == '/');
    assert(line_comment(t)) by {
        assert forall|j: int| 2 <= j < t.len() implies #[trigger] t[j] != '\n' by {
            assert(t[j] == s[i + j]);
        }
    }
    assert(kind_matches(TokenKind::Comment, t));
    assert forall|k2: TokenKind| #[trigger] kind_matches(k2, t) implies k2 == TokenKind::Comment
        || priority(k2) < priority(TokenKind::Comment) by {
        lemma_slash_kinds(k2, t);
    }
    assert forall|m: int| e < m <= s.len() implies !any_match(#[trigger] s.subrange(i, m)) by {
        let t2 = s.subrange(i, m);
        assert(t2[0] == '/' && t2[1] == '/');
        assert(t2[e - i] == '\n');
        assert(!whitespace(t2));
        assert forall|k2: TokenKind| !kind_matches(k2, t2) by {
            if kind_matches(k2, t2) {
                lemma_slash_kinds(k2, t2);
            }
        }
    }
}

/// A comment delimited by `d` closed at `p` is the longest match.
pub proof fn lemma_delim_closed(s: Seq<char>, i: int, d: char, p: int)
    requires
        0 <= i,
        i + 2 <= p,
        p + 2 <= s.len(),
        d == '*' || d == '+',
        s[i] == '/' && s[i + 1] == d,
        s[p] == d && s[p + 1] == '/',
        delim_body(d, s.subrange(i + 2, p)),
    ensures
        longest_match(s, i, p + 2 - i),
        winner(comment_kind(d), s.subrange(i, p + 2)),
{
    let t = s.subrange(i, p + 2);
    assert(t.subrange(2, t.len() - 2) =~= s.subrange(i + 2, p));
    assert(delimited_comment(d, t));
    assert(kind_matches(comment_kind(d), t));
    assert forall|k2: TokenKind| #[trigger] kind_matches(k2, t) implies k2 == comment_kind(d)
        || priority(k2) < priority(comment_kind(d)) by {
        lemma_slash_kinds(k2, t);
    }
    assert forall|m: int| p + 2 < m <= s.len() implies !any_match(#[trigger] s.subrange(i, m)) by {
        let t2 = s.subrange(i, m);
        assert(t2[0] == '/' && t2[1] == d);
        assert(!whitespace(t2));
        assert forall|k2: TokenKind| !kind_matches(k2, t2) by {
            if kind_matches(k2, t2) {
                lemma_slash_kinds(k2, t2);
                assert(delimited_comment(d, t2));
                let body = t2.subrange(2, t2.len() - 2);
                assert(body =~= s.subrange(i + 2, p) + s.subrange(p, m - 2));
                lemma_delim_body_split(d, s.subrange(i + 2, p), s.subrange(p, m - 2));
                let r = s.subrange(p, m - 2);
                assert(r[0] == d);
                assert(r.len() >= 2 ==> r[1] == '/');
            }
        }
    }
}

/// A comment delimited by `d` that is never closed leaves a slash.
pub proof fn lemma_delim_unclosed(s: Seq<char>, i: int, d: char, p: int)
    requires
        0 <= i,
        i + 2 <= p,
        d == '*' || d == '+',
        s[i] == '/' && s[i + 1] == d,
        p >= s.len() || (s[p] == d && p + 1 >= s.len()),
        p <= s.len(),
        delim_body(d, s.subrange(i + 2, p)),
    ensures
        longest_match(s, i, 1),
        winner(TokenKind::Slash, s.subrange(i, i + 1)),
{
    let t = s.subrange(i, i + 1);
    assert(t =~= seq!['/']);
    assert(kind_matches(TokenKind::Slash, t));
    assert forall|k2: TokenKind| #[trigger] kind_matches(k2, t) implies k2 == TokenKind::Slash
        || priority(k2) < priority(TokenKind::Slash) by {
        lemma_slash_kinds(k2, t);
    }
    assert forall|m: int| i + 1 < m <= s.len() implies !any_match(#[trigger] s.subrange(i, m)) by {
        let t2 = s.subrange(i, m);
        assert(t2[0] == '/' && t2[1] == d);
        assert(!whitespace(t2));
        assert forall|k2: TokenKind| !kind_matches(k2, t2) by {
            if kind_matches(k2, t2) {
                lemma_slash_kinds(k2, t2);
                assert(delimited_comment(d, t2));
                let q = m - 2;
                assert(t2[t2.len() - 2] == s[q] && t2[t2.len() - 1] == s[q + 1]);
                let body = t2.subrange(2, t2.len() - 2);
                assert(body =~= s.subrange(i + 2, q));
                if q < p {
                    assert(s.subrange(i + 2, p) =~= s.subrange(i + 2, q) + s.subrange(q, p));
                    lemma_delim_body_split(d, s.subrange(i + 2, q), s.subrange(q, p));
                    let r = s.subrange(q, p);
                    assert(r[0] == d);
                    assert(r.len() >= 2 ==> r[1] == '/');
                }
            }
        }
    }
}

/// A slash that begins no comment: `/` or `/=`.
pub proof fn lemma_slash_plain(s: Seq<char>, i: int, n: int, k: TokenKind)
    requires
        0 <= i,
        i + n <= s.len(),
        s[i] == '/',
        i + 1 < s.len() ==> s[i + 1] != '/' && s[i + 1] != '*' && s[i + 1] != '+',
        (k == TokenKind::SlashEquals && n == 2 && s[i + 1] == '=') || (k == TokenKind::Slash && n
            == 1 && (i + 1 < s.len() ==> s[i + 1] != '=')),
    ensures
        longest_match(s, i, n),
        winner(k, s.subrange(i, i + n)),
{
    let t = s.subrange(i, i + n);
    assert(t[0] == '/');
    assert(n == 2 ==> t[1] == '=');
    assert(t =~= literal_of(k)->0);
    assert(kind_matches(k, t));
    assert forall|k2: TokenKind| #[trigger] kind_matches(k2, t) implies k2 == k || priority(k2)
        < priority(k) by {
        lemma_slash_kinds(k2, t);
        if n == 1 {
            assert(k2 != TokenKind::SlashEquals);
        }
    }
    assert forall|m: int| i + n < m <= s.len() implies !any_match(#[trigger] s.subrange(i, m)) by {
        let t2 = s.subrange(i, m);
        assert(t2[0] == '/' && t2[1] == s[i + 1]);
        assert(!whitespace(t2));
        assert forall|k2: TokenKind| !kind_matches(k2, t2) by {
            if kind_matches(k2, t2) {
                lemma_slash_kinds(k2, t2);
            }
        }
    }
}


/// The kind whose fixed string is `l`, read off its length and characters.
pub open spec fn literal_kind(l: Seq<char>) -> Option<TokenKind> {
    if l.len() == 1 {
        if l[0] == '+' {
            Some(TokenKind::Plus)
        } else if l[0] == '-' {
            Some(TokenKind::Minus)
        } else if l[0] == '*' {
            Some(TokenKind::Star)
        } else if l[0] == '/' {
            Some(TokenKind::Slash)
        } else if l[0] == '%' {
            Some(TokenKind::Percent)
        } else if l[0] == '(' {
            Some(TokenKind::LParen)
        } else if l[0] == ')' {
            Some(TokenKind::RParen)
        } else if l[0] == '[' {
            Some(TokenKind::LBracket)
        } else if l[0] == ']' {
            Some(TokenKind::RBracket)
        } else if l[0] == '{' {
            Some(TokenKind::LBrace)
        } else if l[0] == '}' {
            Some(TokenKind::RBrace)
        } else if l[0] == '=' {
            Some(TokenKind::Equals)
        } else if l[0] == '.' {
            Some(TokenKind::Dot)
        } else if l[0] == ',' {
            Some(TokenKind::Comma)
        } else if l[0] == ':' {
            Some(TokenKind::Colon)
        } else if l[0] == ';' {
            Some(TokenKind::Semicolon)
        } else if l[0] == '&' {
            Some(TokenKind::Ampersand)
        } else if l[0] == '\'' {
            Some(TokenKind::Apostrophe)
        } else if l[0] == '<' {
            Some(TokenKind::LessThan)
        } else if l[0] == '>' {
            Some(TokenKind::GreaterThan)
        } else if l[0] == '!' {
            Some(TokenKind::Bang)
        } else {
            None
        }
    } else if l.len() == 2 {
        if l[0] == '.' && l[1] == '.' {
            Some(TokenKind::DotDot)
        } else if l[0] == '+' && l[1] == '=' {
            Some(TokenKind::PlusEquals)
        } else if l[0] == '-' && l[1] == '=' {
            Some(TokenKind::MinusEquals)
        } else if l[0] == '*' && l[1] == '=' {
            Some(TokenKind::StarEquals)
        } else if l[0] == '/' && l[1] == '=' {
            Some(TokenKind::SlashEquals)
        } else if l[0] == '=' && l[1] == '=' {
            Some(TokenKind::DoubleEqual)
        } else if l[0] == '!' && l[1] == '=' {
            Some(TokenKind::BangEqual)
        } else if l[0] == '<' && l[1] == '=' {
            Some(TokenKind::LessThanEqual)
        } else if l[0] == '>' && l[1] == '=' {
            Some(TokenKind::GreaterThanEqual)
        } else if l[0] == '&' && l[1] == '&' {
            Some(TokenKind::DoubleAmpersand)
        } else if l[0] == '|' && l[1] == '|' {
            Some(TokenKind::DoublePipe)
        } else if l[0] == 'i' && l[1] == 'f' {
            Some(TokenKind::If)
        } else if l[0] == 'i' && l[1] == 'n' {
            Some(TokenKind::In)
        } else if l[0] == 'u' && l[1] == '8' {
            Some(TokenKind::U8)
        } else if l[0] == 'i' && l[1] == '8' {
            Some(TokenKind::I8)
        } else {
            None
        }
    } else if l.len() == 3 {
        if l[0] == '.' && l[1] == '.' && l[2] == '.' {
            Some(TokenKind::DotDotDot)
        } else if l[0] == 'f' && l[1] == 'o' && l[2] == 'r' {
            Some(TokenKind::For)
        } else if l[0] == 'd' && l[1] == 'e' && l[2] == 'f' {
            Some(TokenKind::Def)
        } else if l[0] == 'l' && l[1] == 'e' && l[2] == 't' {
            Some(TokenKind::Let)
        } else if l[0] == 'u' && l[1] == '1' && l[2] == '6' {
            Some(TokenKind::U16)
        } else if l[0] == 'u' && l[1] == '3' && l[2] == '2' {
            Some(TokenKind::U32)
        } else if l[0] == 'u' && l[1] == '6' && l[2] == '4' {
            Some(TokenKind::U64)
        } else if l[0] == 'i' && l[1] == '1' && l[2] == '6' {
            Some(TokenKind::I16)
        } else if l[0] == 'i' && l[1] == '3' && l[2] == '2' {
            Some(TokenKind::I32)
        } else if l[0] == 'i' && l[1] == '6' && l[2] == '4' {
            Some(TokenKind::I64)
        } else if l[0] == 'f' && l[1] == '3' && l[2] == '2' {
            Some(TokenKind::F32)
        } else if l[0] == 'f' && l[1] == '6' && l[2] == '4' {
            Some(TokenKind::F64)
        } else if l[0] == 's' && l[1] == 't' && l[2] == 'r' {
            Some(TokenKind::StrType)
        } else {
            None
        }
    } else if l.len() == 4 {
        if l[0] == 'e' && l[1] == 'l' && l[2] == 's' && l[3] == 'e' {
            Some(TokenKind::Else)
        } else if l[0] == 'e' && l[1] == 'n' && l[2] == 'u' && l[3] == 'm' {
            Some(TokenKind::Enum)
        } else if l[0] == 'c' && l[1] == 'h' && l[2] == 'a' && l[3] == 'r' {
            Some(TokenKind::CharType)
        } else if l[0] == 'b' && l[1] == 'o' && l[2] == 'o' && l[3] == 'l' {
            Some(TokenKind::BoolType)
        } else if l[0] == 'v' && l[1] == 'o' && l[2] == 'i' && l[3] == 'd' {
            Some(TokenKind::VoidType)
        } else {
            None
        }
    } else if l.len() == 5 {
        if l[0] == 'w' && l[1] == 'h' && l[2] == 'i' && l[3] == 'l' && l[4] == 'e' {
            Some(TokenKind::While)
        } else if l[0] == 'b' && l[1] == 'r' && l[2] == 'e' && l[3] == 'a' && l[4] == 'k' {
            Some(TokenKind::Break)
        } else if l[0] == 'i' && l[1] == 's' && l[2] == 'i' && l[3] == 'z' && l[4] == 'e' {
            Some(TokenKind::ISize)
        } else if l[0] == 'u' && l[1] == 's' && l[2] == 'i' && l[3] == 'z' && l[4] == 'e' {
            Some(TokenKind::USize)
        } else {
            None
        }
    } else if l.len() == 6 {
        if l[0] == 'r' && l[1] == 'e' && l[2] == 't' && l[3] == 'u' && l[4] == 'r' && l[5] == 'n' {
            Some(TokenKind::Return)
        } else if l[0] == 's' && l[1] == 't' && l[2] == 'r' && l[3] == 'u' && l[4] == 'c' && l[5] == 't' {
            Some(TokenKind::Struct)
        } else {
            None
        }
    } else {
        None
    }
}

pub proof fn lemma_literal_kind(k: TokenKind)
    ensures
        literal_of(k) matches Some(l) ==> literal_kind(l) == Some(k),
{
    match k {
        TokenKind::Plus => {},
        TokenKind::Minus => {},
        TokenKind::Star => {},
        TokenKind::Slash => {},
        TokenKind::Percent => {},
        TokenKind::LParen => {},
        TokenKind::RParen => {},
        TokenKind::LBracket => {},
        TokenKind::RBracket => {},
        TokenKind::LBrace => {},
        TokenKind::RBrace => {},
        TokenKind::Equals => {},
        TokenKind::Dot => {},
        TokenKind::Comma => {},
        TokenKind::DotDot => {},
        TokenKind::DotDotDot => {},
        TokenKind::Colon => {},
        TokenKind::Semicolon => {},
        TokenKind::Ampersand => {},
        TokenKind::Apostrophe => {},
        TokenKind::PlusEquals => {},
        TokenKind::MinusEquals => {},
        TokenKind::StarEquals => {},
        TokenKind::SlashEquals => {},
        TokenKind::DoubleEqual => {},
        TokenKind::BangEqual => {},
        TokenKind::LessThan => {},
        TokenKind::LessThanEqual => {},
        TokenKind::GreaterThan => {},
        TokenKind::GreaterThanEqual => {},
        TokenKind::DoubleAmpersand => {},
        TokenKind::DoublePipe => {},
        TokenKind::Bang => {},
        TokenKind::If => {},
        TokenKind::Else => {},
        TokenKind::For => {},
        TokenKind::While => {},
        TokenKind::Return => {},
        TokenKind::Break => {},
        TokenKind::Def => {},
        TokenKind::Let => {},
        TokenKind::In => {},
        TokenKind::Struct => {},
        TokenKind::Enum => {},
        TokenKind::U8 => {},
        TokenKind::U16 => {},
        TokenKind::U32 => {},
        TokenKind::U64 => {},
        TokenKind::I8 => {},
        TokenKind::I16 => {},
        TokenKind::I32 => {},
        TokenKind::I64 => {},
        TokenKind::F32 => {},
        TokenKind::F64 => {},
        TokenKind::ISize => {},
        TokenKind::USize => {},
        TokenKind::CharType => {},
        TokenKind::StrType => {},
        TokenKind::BoolType => {},
        TokenKind::VoidType => {},
        _ => {},
    }
}

/// No two kinds are the same fixed string.
pub proof fn lemma_literal_injective(k1: TokenKind, k2: TokenKind)
    requires
        literal_of(k1) is Some,
        literal_of(k1) == literal_of(k2),
    ensures
        k1 == k2,
{
    lemma_literal_kind(k1);
    lemma_literal_kind(k2);
}

/// More about the fixed strings: none spells a boolean, one that begins like
/// an identifier has at least two characters, and the only ones that begin
/// with `/` or `'` are `/`, `/=` and `'`.
pub proof fn lemma_literal_edges(k: TokenKind)
    ensures
        literal_of(k) matches Some(l) ==> {
            &&& !bool_lit(l)
            &&& (is_ident_start(l[0]) ==> l.len() >= 2)
            &&& (l[0] == '/' ==> l.len() == 1 || (l.len() == 2 && l[1] == '='))
            &&& (l[0] == '\'' ==> l.len() == 1)
        },
{
    match k {
        _ => {},
    }
}

/// Whatever text some kind matches has a winning kind: the fixed string it
/// spells if any, else the boolean it spells if any, else the one kind that
/// matches it.
pub proof fn lemma_winner_exists(t: Seq<char>)
    requires
        exists|k: TokenKind| kind_matches(k, t),
    ensures
        exists|k: TokenKind| winner(k, t),
{
    let k0 = choose|k: TokenKind| kind_matches(k, t);
    lemma_can_start(k0, t);
    if exists|k: TokenKind| literal_of(k) == Some(t) {
        let kl = choose|k: TokenKind| literal_of(k) == Some(t);
        lemma_literal_shape(kl);
        lemma_literal_edges(kl);
        assert forall|k2: TokenKind| #[trigger] kind_matches(k2, t) implies k2 == kl || priority(
            k2,
        ) < priority(kl) by {
            lemma_can_start(k2, t);
            if literal_of(k2) is Some {
                lemma_literal_injective(kl, k2);
            }
        }
        assert(winner(kl, t));
    } else if bool_lit(t) {
        assert(kind_matches(TokenKind::BoolLit, t));
        assert forall|k2: TokenKind| #[trigger] kind_matches(k2, t) implies k2 == TokenKind::BoolLit
            || priority(k2) < priority(TokenKind::BoolLit) by {
            lemma_can_start(k2, t);
        }
        assert(winner(TokenKind::BoolLit, t));
    } else {
        assert forall|k2: TokenKind| #[trigger] kind_matches(k2, t) implies k2 == k0 || priority(k2)
            < priority(k0) by {
            lemma_can_start(k2, t);
            lemma_kinds_exclusive(k0, k2, t);
        }
        assert(winner(k0, t));
    }
}

/// Two kinds that are neither fixed strings nor booleans never match the
/// same text.
proof fn lemma_kinds_exclusive(k1: TokenKind, k2: TokenKind, t: Seq<char>)
    requires
        kind_matches(k1, t),
        kind_matches(k2, t),
        literal_of(k1) is None,
        literal_of(k2) is None,
        k1 != TokenKind::BoolLit,
        k2 != TokenKind::BoolLit,
    ensures
        k1 == k2,
{
    lemma_can_start(k1, t);
    lemma_can_start(k2, t);
    if k1 == TokenKind::FloatLit && k2 == TokenKind::IntLit {
        let d = choose|d: int|
            0 < d < t.len() && #[trigger] t[d] == '.' && digits(t.subrange(0, d)) && digits(
                t.subrange(d + 1, t.len() as int),
            );
        assert(is_digit(t[d]));
    }
    if k2 == TokenKind::FloatLit && k1 == TokenKind::IntLit {
        let d = choose|d: int|
            0 < d < t.len() && #[trigger] t[d] == '.' && digits(t.subrange(0, d)) && digits(
                t.subrange(d + 1, t.len() as int),
            );
        assert(is_digit(t[d]));
    }
}

} // verus!
