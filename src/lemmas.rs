use vstd::prelude::*;

use crate::lexer::{
    all_valid, alnum_end, denotes, digit_end, tokens_of, valid_lexeme, is_alnum, is_alpha, is_digit, is_ws, keyword, lemma_alnum_end, lemma_digit_end, lemma_lexeme_end, lemma_skip_ws, lexeme, lexeme_end,
    skip_ws, spans,
};
use crate::token::Token;

verus! {

proof fn lemma_spans_in_order_from(s: Seq<char>, i: int)
    requires
        0 <= i <= s.len(),
    ensures
        forall|k: int|
            0 <= k < spans(s, i).len() ==> i <= (#[trigger] spans(s, i)[k]).0 < spans(s, i)[k].1
                <= s.len() && spans(s, i)[k].1 == lexeme_end(s, spans(s, i)[k].0)
                && !is_ws(s[spans(s, i)[k].0]),
        forall|k: int|
            0 <= k < spans(s, i).len() - 1 ==> #[trigger] spans(s, i)[k + 1].0 == skip_ws(
                s,
                spans(s, i)[k].1,
            ),
        spans(s, i).len() > 0 ==> spans(s, i)[0].0 == skip_ws(s, i),
    decreases s.len() - i,
{
    lemma_skip_ws(s, i);
    let j = skip_ws(s, i);
    if j < s.len() {
        lemma_lexeme_end(s, j);
        let e = lexeme_end(s, j);
        lemma_spans_in_order_from(s, e);
        let tail = spans(s, e);
        assert(spans(s, i) == seq![(j, e)] + tail);
        assert forall|k: int| 0 < k < spans(s, i).len() implies #[trigger] spans(s, i)[k] == tail[k
            - 1] by {}
        assert forall|k: int| 0 <= k < spans(s, i).len() - 1 implies #[trigger] spans(s, i)[k
            + 1].0 == skip_ws(s, spans(s, i)[k].1) by {
            assert(spans(s, i)[k + 1] == tail[k]);
            if k > 0 {
                assert(spans(s, i)[k] == tail[k - 1]);
                assert(tail[(k - 1) + 1].0 == skip_ws(s, tail[k - 1].1));
            } else {
                assert(spans(s, i)[0] == (j, e));
            }
        }
    }
}

/// Lexemes, and so the tokens that `tokenize` gives for them, come in the
/// order of the text: each lies inside it and starts after the previous one
/// has ended, with nothing but whitespace between the two.
pub proof fn lemma_lexemes_in_order(s: Seq<char>)
    ensures
        forall|k: int|
            0 <= k < spans(s, 0).len() ==> 0 <= (#[trigger] spans(s, 0)[k]).0 < spans(s, 0)[k].1
                <= s.len(),
        forall|k: int|
            0 <= k < spans(s, 0).len() - 1 ==> spans(s, 0)[k].1 <= (#[trigger] spans(
                s,
                0,
            )[k + 1]).0,
        forall|k: int, p: int|
            0 <= k < spans(s, 0).len() - 1 && spans(s, 0)[k].1 <= p < (#[trigger] spans(
                s,
                0,
            )[k + 1]).0 ==> is_ws(#[trigger] s[p]),
{
    lemma_spans_in_order_from(s, 0);
    assert forall|k: int| 0 <= k < spans(s, 0).len() - 1 implies spans(s, 0)[k].1 <= (
    #[trigger] spans(s, 0)[k + 1]).0 && (forall|p: int|
        spans(s, 0)[k].1 <= p < spans(s, 0)[k + 1].0 ==> is_ws(#[trigger] s[p])) by {
        lemma_skip_ws(s, spans(s, 0)[k].1);
    }
}

/// Words and numerals are taken whole: a lexeme that starts with a letter is
/// the longest run of letters and digits there, and one that starts with a
/// digit is the longest run of digits; so a keyword at the front of a longer
/// word never stands alone.
pub proof fn lemma_maximal_munch(s: Seq<char>)
    ensures
        forall|k: int, p: int|
            0 <= k < spans(s, 0).len() && is_alpha(s[spans(s, 0)[k].0]) && (#[trigger] spans(
                s,
                0,
            )[k]).0 <= p < spans(s, 0)[k].1 ==> is_alnum(#[trigger] s[p]),
        forall|k: int|
            0 <= k < spans(s, 0).len() && is_alpha(s[spans(s, 0)[k].0]) && (#[trigger] spans(
                s,
                0,
            )[k]).1 < s.len() ==> !is_alnum(s[spans(s, 0)[k].1]),
        forall|k: int, p: int|
            0 <= k < spans(s, 0).len() && is_digit(s[spans(s, 0)[k].0]) && (#[trigger] spans(
                s,
                0,
            )[k]).0 <= p < spans(s, 0)[k].1 ==> is_digit(#[trigger] s[p]),
        forall|k: int|
            0 <= k < spans(s, 0).len() && is_digit(s[spans(s, 0)[k].0]) && (#[trigger] spans(
                s,
                0,
            )[k]).1 < s.len() ==> !is_digit(s[spans(s, 0)[k].1]),
{
    lemma_spans_in_order_from(s, 0);
    assert forall|k: int| 0 <= k < spans(s, 0).len() implies {
        let a = (#[trigger] spans(s, 0)[k]).0;
        let b = spans(s, 0)[k].1;
        &&& is_alpha(s[a]) ==> (forall|p: int| a <= p < b ==> is_alnum(#[trigger] s[p])) && (b
            < s.len() ==> !is_alnum(s[b]))
        &&& is_digit(s[a]) ==> (forall|p: int| a <= p < b ==> is_digit(#[trigger] s[p])) && (b
            < s.len() ==> !is_digit(s[b]))
    } by {
        lemma_alnum_end(s, spans(s, 0)[k].0);
        lemma_digit_end(s, spans(s, 0)[k].0);
    }
}

/// `==` is recognised before `=`: a lexeme that starts with `=` is `==`
/// exactly where the next character is `=` too, so two adjacent `=` never
/// become two lexemes `=`, and `==` gives the single token `Equals`.
pub proof fn lemma_equals_longest_match(s: Seq<char>)
    ensures
        forall|k: int|
            0 <= k < spans(s, 0).len() && s[spans(s, 0)[k].0] == '=' ==> (lexeme(
                s,
                #[trigger] spans(s, 0)[k],
            ) == seq!['=', '='] <==> (spans(s, 0)[k].0 + 1 < s.len() && s[spans(s, 0)[k].0 + 1]
                == '=')),
        forall|k: int|
            0 <= k < spans(s, 0).len() - 1 && lexeme(s, #[trigger] spans(s, 0)[k]) == seq!['=']
                && spans(s, 0)[k].1 == spans(s, 0)[k + 1].0 ==> lexeme(s, spans(s, 0)[k + 1])
                != seq!['='],
        forall|t: Token| denotes(t, seq!['=', '=']) <==> t == Token::Equals,
{
    lemma_spans_in_order_from(s, 0);
    assert forall|k: int|
        0 <= k < spans(s, 0).len() && s[spans(s, 0)[k].0] == '=' implies (lexeme(
        s,
        #[trigger] spans(s, 0)[k],
    ) == seq!['=', '='] <==> (spans(s, 0)[k].0 + 1 < s.len() && s[spans(s, 0)[k].0 + 1]
        == '=')) by {
        let a = spans(s, 0)[k].0;
        let l = lexeme(s, spans(s, 0)[k]);
        if a + 1 < s.len() && s[a + 1] == '=' {
            assert(l =~= seq!['=', '=']);
        } else {
            assert(l.len() == 1);
        }
    }
    assert forall|k: int|
        0 <= k < spans(s, 0).len() - 1 && lexeme(s, #[trigger] spans(s, 0)[k]) == seq!['=']
            && spans(s, 0)[k].1 == spans(s, 0)[k + 1].0 implies lexeme(s, spans(s, 0)[k + 1])
        != seq!['='] by {
        let a = spans(s, 0)[k].0;
        let b = spans(s, 0)[k + 1].0;
        assert(lexeme(s, spans(s, 0)[k])[0] == s[a]);
        if lexeme(s, spans(s, 0)[k + 1]) == seq!['='] {
            assert(lexeme(s, spans(s, 0)[k + 1])[0] == s[b]);
            assert(lexeme(s, spans(s, 0)[k]).len() == 1);
        }
    }
}

/// The words `true` and `false` give booleans and `let`, `fn`, `if`, `else`
/// their keywords, never identifiers; an identifier is never a reserved word.
pub proof fn lemma_reserved_words(t: Token, l: Seq<char>)
    requires
        denotes(t, l),
    ensures
        l == seq!['t', 'r', 'u', 'e'] ==> t == Token::Boolean(true),
        l == seq!['f', 'a', 'l', 's', 'e'] ==> t == Token::Boolean(false),
        l == seq!['l', 'e', 't'] ==> t == Token::Let,
        l == seq!['f', 'n'] ==> t == Token::Fn,
        l == seq!['i', 'f'] ==> t == Token::If,
        l == seq!['e', 'l', 's', 'e'] ==> t == Token::Else,
        t is Identifier ==> keyword(l) is None,
{
}

/// The lexemes of `v1` in `s1` are, one for one, those of `v2` in `s2`.
pub open spec fn same_lexemes(
    s1: Seq<char>,
    v1: Seq<(int, int)>,
    s2: Seq<char>,
    v2: Seq<(int, int)>,
) -> bool {
    &&& v1.len() == v2.len()
    &&& forall|k: int| 0 <= k < v1.len() ==> #[trigger] lexeme(s1, v1[k]) == lexeme(s2, v2[k])
}

proof fn lemma_same_lexemes_cons(
    s1: Seq<char>,
    sp1: (int, int),
    t1: Seq<(int, int)>,
    s2: Seq<char>,
    sp2: (int, int),
    t2: Seq<(int, int)>,
)
    requires
        lexeme(s1, sp1) == lexeme(s2, sp2),
        same_lexemes(s1, t1, s2, t2),
    ensures
        same_lexemes(s1, seq![sp1] + t1, s2, seq![sp2] + t2),
{
    let v1 = seq![sp1] + t1;
    let v2 = seq![sp2] + t2;
    assert forall|k: int| 0 <= k < v1.len() implies #[trigger] lexeme(s1, v1[k]) == lexeme(
        s2,
        v2[k],
    ) by {
        if k > 0 {
            assert(v1[k] == t1[k - 1]);
            assert(v2[k] == t2[k - 1]);
        }
    }
}

/// `s2` is `s1` with `d` characters put in at position `i`, as far as the
/// part from `i` on is concerned.
spec fn agree_after(s1: Seq<char>, s2: Seq<char>, i: int, d: int) -> bool {
    &&& 0 <= i
    &&& 0 <= d
    &&& s2.len() == s1.len() + d
    &&& forall|x: int| i <= x < s1.len() ==> s2[x + d] == #[trigger] s1[x]
}

proof fn lemma_shift_skip_ws(s1: Seq<char>, s2: Seq<char>, i: int, d: int, x: int)
    requires
        agree_after(s1, s2, i, d),
        i <= x,
    ensures
        skip_ws(s2, x + d) == skip_ws(s1, x) + d,
    decreases s1.len() - x,
{
    if x < s1.len() {
        assert(s2[x + d] == s1[x]);
        lemma_shift_skip_ws(s1, s2, i, d, x + 1);
    }
}

proof fn lemma_shift_alnum_end(s1: Seq<char>, s2: Seq<char>, i: int, d: int, x: int)
    requires
        agree_after(s1, s2, i, d),
        i <= x,
    ensures
        alnum_end(s2, x + d) == alnum_end(s1, x) + d,
    decreases s1.len() - x,
{
    if x < s1.len() {
        assert(s2[x + d] == s1[x]);
        lemma_shift_alnum_end(s1, s2, i, d, x + 1);
    }
}

proof fn lemma_shift_digit_end(s1: Seq<char>, s2: Seq<char>, i: int, d: int, x: int)
    requires
        agree_after(s1, s2, i, d),
        i <= x,
    ensures
        digit_end(s2, x + d) == digit_end(s1, x) + d,
    decreases s1.len() - x,
{
    if x < s1.len() {
        assert(s2[x + d] == s1[x]);
        lemma_shift_digit_end(s1, s2, i, d, x + 1);
    }
}

proof fn lemma_shift_spans(s1: Seq<char>, s2: Seq<char>, i: int, d: int, x: int)
    requires
        agree_after(s1, s2, i, d),
        i <= x <= s1.len(),
    ensures
        same_lexemes(s1, spans(s1, x), s2, spans(s2, x + d)),
    decreases s1.len() - x,
{
    lemma_skip_ws(s1, x);
    lemma_shift_skip_ws(s1, s2, i, d, x);
    let j = skip_ws(s1, x);
    if j < s1.len() {
        lemma_lexeme_end(s1, j);
        lemma_shift_alnum_end(s1, s2, i, d, j);
        lemma_shift_digit_end(s1, s2, i, d, j);
        assert(s2[j + d] == s1[j]);
        if j + 1 < s1.len() {
            assert(s2[j + 1 + d] == s1[j + 1]);
        }
        let e = lexeme_end(s1, j);
        assert(lexeme_end(s2, j + d) == e + d);
        assert(lexeme(s2, (j + d, e + d)) =~= lexeme(s1, (j, e))) by {
            assert forall|t: int| 0 <= t < e - j implies lexeme(s2, (j + d, e + d))[t] == lexeme(
                s1,
                (j, e),
            )[t] by {
                assert(s2[(j + t) + d] == s1[j + t]);
            }
        }
        lemma_shift_spans(s1, s2, i, d, e);
        lemma_same_lexemes_cons(
            s1,
            (j, e),
            spans(s1, e),
            s2,
            (j + d, e + d),
            spans(s2, e + d),
        );
    }
}

proof fn lemma_skip_ws_run(s: Seq<char>, i: int, q: int)
    requires
        i <= q,
        forall|x: int| i <= x < q ==> is_ws(#[trigger] s[x]),
        q <= s.len(),
    ensures
        skip_ws(s, i) == skip_ws(s, q),
    decreases q - i,
{
    if i < q {
        lemma_skip_ws_run(s, i + 1, q);
    }
}

proof fn lemma_alnum_end_at(s: Seq<char>, x: int, e: int)
    requires
        x <= e <= s.len(),
        forall|y: int| x <= y < e ==> is_alnum(#[trigger] s[y]),
        e < s.len() ==> !is_alnum(s[e]),
    ensures
        alnum_end(s, x) == e,
    decreases e - x,
{
    if x < e {
        lemma_alnum_end_at(s, x + 1, e);
    }
}

proof fn lemma_digit_end_at(s: Seq<char>, x: int, e: int)
    requires
        x <= e <= s.len(),
        forall|y: int| x <= y < e ==> is_digit(#[trigger] s[y]),
        e < s.len() ==> !is_digit(s[e]),
    ensures
        digit_end(s, x) == e,
    decreases e - x,
{
    if x < e {
        lemma_digit_end_at(s, x + 1, e);
    }
}

/// `s2` is `s1` with a non-empty run of `m` whitespace characters put in at `p`.
spec fn ws_inserted(s1: Seq<char>, s2: Seq<char>, p: int, m: int) -> bool {
    &&& 0 <= p <= s1.len()
    &&& m > 0
    &&& agree_after(s1, s2, p, m)
    &&& forall|x: int| 0 <= x < p ==> s2[x] == #[trigger] s1[x]
    &&& forall|x: int| p <= x < p + m ==> is_ws(#[trigger] s2[x])
}

proof fn lemma_ws_inserted_spans(s1: Seq<char>, s2: Seq<char>, p: int, m: int, i: int)
    requires
        ws_inserted(s1, s2, p, m),
        0 <= i <= p,
        forall|k: int|
            0 <= k < spans(s1, i).len() ==> !((#[trigger] spans(s1, i)[k]).0 < p < spans(
                s1,
                i,
            )[k].1),
    ensures
        same_lexemes(s1, spans(s1, i), s2, spans(s2, i)),
    decreases s1.len() - i,
{
    lemma_skip_ws(s1, i);
    let j = skip_ws(s1, i);
    if j >= p {
        assert forall|x: int| i <= x < p + m implies is_ws(#[trigger] s2[x]) by {
            if x < p {
                assert(s2[x] == s1[x]);
            }
        }
        lemma_skip_ws_run(s2, i, p + m);
        lemma_skip_ws_run(s1, i, p);
        assert(spans(s2, i) == spans(s2, p + m));
        assert(spans(s1, i) == spans(s1, p));
        lemma_shift_spans(s1, s2, p, m, p);
    } else {
        assert forall|x: int| i <= x < j implies is_ws(#[trigger] s2[x]) by {
            assert(s2[x] == s1[x]);
        }
        lemma_skip_ws_run(s2, i, j);
        assert(s2[j] == s1[j]);
        assert(skip_ws(s2, j) == j);
        lemma_lexeme_end(s1, j);
        let e = lexeme_end(s1, j);
        assert(spans(s1, i)[0] == (j, e));
        assert(e <= p);
        assert(is_ws(s2[p]) ==> !is_alnum(s2[p]) && s2[p] != '=');
        if e < p {
            assert(s2[e] == s1[e]);
        }
        if j + 1 < p {
            assert(s2[j + 1] == s1[j + 1]);
        }
        lemma_alnum_end(s1, j);
        lemma_digit_end(s1, j);
        if is_alpha(s1[j]) {
            assert forall|y: int| j <= y < e implies is_alnum(#[trigger] s2[y]) by {
                assert(s2[y] == s1[y]);
            }
            lemma_alnum_end_at(s2, j, e);
        } else if is_digit(s1[j]) {
            assert forall|y: int| j <= y < e implies is_digit(#[trigger] s2[y]) by {
                assert(s2[y] == s1[y]);
            }
            lemma_digit_end_at(s2, j, e);
        }
        assert(lexeme_end(s2, j) == e);
        assert(spans(s2, i) == seq![(j, e)] + spans(s2, e));
        assert(lexeme(s2, (j, e)) =~= lexeme(s1, (j, e))) by {
            assert forall|t: int| 0 <= t < e - j implies lexeme(s2, (j, e))[t] == lexeme(
                s1,
                (j, e),
            )[t] by {
                assert(s2[j + t] == s1[j + t]);
            }
        }
        let tail = spans(s1, e);
        assert(spans(s1, i) == seq![(j, e)] + tail);
        assert forall|k: int| 0 <= k < tail.len() implies !((#[trigger] tail[k]).0 < p
            < tail[k].1) by {
            assert(tail[k] == spans(s1, i)[k + 1]);
        }
        lemma_ws_inserted_spans(s1, s2, p, m, e);
        lemma_same_lexemes_cons(s1, (j, e), tail, s2, (j, e), spans(s2, e));
    }
}

/// Whitespace between lexemes does not matter. Putting a run of whitespace
/// `w` into a text at a place that is not inside one of its lexemes (or, read
/// the other way, taking out a run whose removal joins no two lexemes) leaves
/// the lexemes as they were; so `tokenize` succeeds on one text exactly when
/// it does on the other, and then with the same tokens.
pub proof fn lemma_whitespace_invariance(a: Seq<char>, w: Seq<char>, b: Seq<char>)
    requires
        forall|x: int| 0 <= x < w.len() ==> is_ws(#[trigger] w[x]),
        forall|k: int|
            0 <= k < spans(a + b, 0).len() ==> !((#[trigger] spans(a + b, 0)[k]).0 < a.len()
                < spans(a + b, 0)[k].1),
    ensures
        same_lexemes(a + b, spans(a + b, 0), a + w + b, spans(a + w + b, 0)),
        all_valid(a + w + b) <==> all_valid(a + b),
        forall|v: Seq<Token>| tokens_of(a + w + b, v) <==> tokens_of(a + b, v),
{
    let s1 = a + b;
    let s2 = a + w + b;
    if w.len() == 0 {
        assert(s2 =~= s1);
    } else {
        let p = a.len() as int;
        let m = w.len() as int;
        assert forall|x: int| p <= x < s1.len() implies s2[x + m] == #[trigger] s1[x] by {}
        assert forall|x: int| p <= x < p + m implies is_ws(#[trigger] s2[x]) by {
            assert(s2[x] == w[x - p]);
        }
        lemma_ws_inserted_spans(s1, s2, p, m, 0);
    }
    let v1 = spans(s1, 0);
    let v2 = spans(s2, 0);
    assert(same_lexemes(s1, v1, s2, v2));
    assert(all_valid(s2) <==> all_valid(s1)) by {
        if all_valid(s1) {
            assert forall|k: int| 0 <= k < v2.len() implies valid_lexeme(
                #[trigger] lexeme(s2, v2[k]),
            ) by {
                assert(lexeme(s1, v1[k]) == lexeme(s2, v2[k]));
            }
        }
        if all_valid(s2) {
            assert forall|k: int| 0 <= k < v1.len() implies valid_lexeme(
                #[trigger] lexeme(s1, v1[k]),
            ) by {
                assert(lexeme(s1, v1[k]) == lexeme(s2, v2[k]));
            }
        }
    }
    assert forall|v: Seq<Token>| tokens_of(s2, v) <==> tokens_of(s1, v) by {
        if tokens_of(s1, v) {
            assert forall|k: int| 0 <= k < v.len() implies denotes(
                #[trigger] v[k],
                lexeme(s2, v2[k]),
            ) by {
                assert(lexeme(s1, v1[k]) == lexeme(s2, v2[k]));
            }
        }
        if tokens_of(s2, v) {
            assert forall|k: int| 0 <= k < v.len() implies denotes(
                #[trigger] v[k],
                lexeme(s1, v1[k]),
            ) by {
                assert(lexeme(s1, v1[k]) == lexeme(s2, v2[k]));
            }
        }
    }
}

} // verus!
