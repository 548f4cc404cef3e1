use vstd::prelude::*;

use crate::token::Token;

verus! {

/// ASCII whitespace: space, tab, line feed, form feed and carriage return.
pub open spec fn is_ws(c: char) -> bool {
    c == ' ' || c == '\t' || c == '\n' || c == '\x0C' || c == '\r'
}

pub open spec fn is_alpha(c: char) -> bool {
    ('a' <= c && c <= 'z') || ('A' <= c && c <= 'Z')
}

pub open spec fn is_digit(c: char) -> bool {
    '0' <= c && c <= '9'
}

pub open spec fn is_alnum(c: char) -> bool {
    is_alpha(c) || is_digit(c)
}

/// The first position at or after `i` that does not hold whitespace.
pub open spec fn skip_ws(s: Seq<char>, i: int) -> int
    decreases s.len() - i,
{
    if i < s.len() && is_ws(s[i]) {
        skip_ws(s, i + 1)
    } else {
        i
    }
}

/// The end of the longest run of ASCII letters and digits that starts at `i`.
pub open spec fn alnum_end(s: Seq<char>, i: int) -> int
    decreases s.len() - i,
{
    if i < s.len() && is_alnum(s[i]) {
        alnum_end(s, i + 1)
    } else {
        i
    }
}

/// The end of the longest run of ASCII digits that starts at `i`.
pub open spec fn digit_end(s: Seq<char>, i: int) -> int
    decreases s.len() - i,
{
    if i < s.len() && is_digit(s[i]) {
        digit_end(s, i + 1)
    } else {
        i
    }
}

/// The end of the lexeme that starts at `i`: the longest run of letters and
/// digits after a letter, the longest run of digits after a digit, two
/// characters for `==`, and one character otherwise.
pub open spec fn lexeme_end(s: Seq<char>, i: int) -> int {
    if is_alpha(s[i]) {
        alnum_end(s, i)
    } else if is_digit(s[i]) {
        digit_end(s, i)
    } else if s[i] == '=' && i + 1 < s.len() && s[i + 1] == '=' {
        i + 2
    } else {
        i + 1
    }
}

/// The lexemes of `s` from position `i` on, as `(start, end)` pairs, in order.
pub open spec fn spans(s: Seq<char>, i: int) -> Seq<(int, int)>
    decreases s.len() - i via spans_decreases
{
    let j = skip_ws(s, i);
    if j >= s.len() {
        Seq::empty()
    } else {
        seq![(j, lexeme_end(s, j))] + spans(s, lexeme_end(s, j))
    }
}

#[via_fn]
proof fn spans_decreases(s: Seq<char>, i: int) {
    lemma_skip_ws(s, i);
    let j = skip_ws(s, i);
    if j < s.len() {
        lemma_lexeme_end(s, j);
    }
}

pub proof fn lemma_skip_ws(s: Seq<char>, i: int)
    ensures
        i <= skip_ws(s, i),
        i <= s.len() ==> skip_ws(s, i) <= s.len(),
        skip_ws(s, i) < s.len() ==> !is_ws(s[skip_ws(s, i)]),
        forall|k: int| i <= k < skip_ws(s, i) ==> is_ws(#[trigger] s[k]),
    decreases s.len() - i,
{
    if i < s.len() && is_ws(s[i]) {
        lemma_skip_ws(s, i + 1);
    }
}

pub proof fn lemma_alnum_end(s: Seq<char>, i: int)
    ensures
        i <= alnum_end(s, i),
        i <= s.len() ==> alnum_end(s, i) <= s.len(),
        alnum_end(s, i) < s.len() ==> !is_alnum(s[alnum_end(s, i)]),
        forall|k: int| i <= k < alnum_end(s, i) ==> is_alnum(#[trigger] s[k]),
    decreases s.len() - i,
{
    if i < s.len() && is_alnum(s[i]) {
        lemma_alnum_end(s, i + 1);
    }
}

pub proof fn lemma_digit_end(s: Seq<char>, i: int)
    ensures
        i <= digit_end(s, i),
        i <= s.len() ==> digit_end(s, i) <= s.len(),
        digit_end(s, i) < s.len() ==> !is_digit(s[digit_end(s, i)]),
        forall|k: int| i <= k < digit_end(s, i) ==> is_digit(#[trigger] s[k]),
    decreases s.len() - i,
{
    if i < s.len() && is_digit(s[i]) {
        lemma_digit_end(s, i + 1);
    }
}

pub proof fn lemma_lexeme_end(s: Seq<char>, i: int)
    requires
        i < s.len(),
    ensures
        i < lexeme_end(s, i) <= s.len(),
{
    lemma_alnum_end(s, i);
    lemma_digit_end(s, i);
}

/// The numeric value of a run of decimal digits, most significant first.
pub open spec fn digits_value(d: Seq<char>) -> int
    decreases d.len(),
{
    if d.len() == 0 {
        0
    } else {
        digits_value(d.drop_last()) * 10 + (d.last() as int - '0' as int)
    }
}

/// The keyword table: the token that a word stands for, if it is reserved.
pub open spec fn keyword(w: Seq<char>) -> Option<Token> {
    if w == seq!['t', 'r', 'u', 'e'] {
        Some(Token::Boolean(true))
    } else if w == seq!['f', 'a', 'l', 's', 'e'] {
        Some(Token::Boolean(false))
    } else if w == seq!['l', 'e', 't'] {
        Some(Token::Let)
    } else if w == seq!['f', 'n'] {
        Some(Token::Fn)
    } else if w == seq!['i', 'f'] {
        Some(Token::If)
    } else if w == seq!['e', 'l', 's', 'e'] {
        Some(Token::Else)
    } else {
        None
    }
}

/// The punctuation table for one-character symbols.
pub open spec fn single_punctuation(c: char) -> Option<Token> {
    if c == '+' {
        Some(Token::Plus)
    } else if c == '-' {
        Some(Token::Minus)
    } else if c == '*' {
        Some(Token::Star)
    } else if c == '/' {
        Some(Token::Slash)
    } else if c == '=' {
        Some(Token::Assignment)
    } else if c == ';' {
        Some(Token::Semicolon)
    } else if c == '(' {
        Some(Token::LeftParen)
    } else if c == ')' {
        Some(Token::RightParen)
    } else if c == '{' {
        Some(Token::LeftBrace)
    } else if c == '}' {
        Some(Token::RightBrace)
    } else {
        None
    }
}

/// The punctuation table: `==` and the one-character symbols.
pub open spec fn punctuation(l: Seq<char>) -> Option<Token> {
    if l == seq!['=', '='] {
        Some(Token::Equals)
    } else if l.len() == 1 {
        single_punctuation(l[0])
    } else {
        None
    }
}

/// The text of the lexeme at `sp` in `s`.
pub open spec fn lexeme(s: Seq<char>, sp: (int, int)) -> Seq<char> {
    s.subrange(sp.0, sp.1)
}

/// A lexeme that gives a token: a word, a numeral that fits in an `i32`, or
/// a known symbol.
pub open spec fn valid_lexeme(l: Seq<char>) -> bool {
    l.len() > 0 && (is_alpha(l[0]) || (is_digit(l[0]) && digits_value(l) <= i32::MAX)
        || punctuation(l) is Some)
}

/// `t` is the token for the lexeme `l`.
pub open spec fn denotes(t: Token, l: Seq<char>) -> bool {
    if is_alpha(l[0]) {
        match keyword(l) {
            Some(k) => t == k,
            None => t matches Token::Identifier(name) && name@ == l,
        }
    } else if is_digit(l[0]) {
        t == Token::Integer(digits_value(l) as i32)
    } else {
        punctuation(l) == Some(t)
    }
}

/// What went wrong while scanning. Positions count characters from the start
/// of the input.
#[derive(Clone, Debug, PartialEq, Eq)]
pub enum LexError {
    /// A numeral, given with its text and the position of its first character,
    /// whose value does not fit in an `i32`.
    IntegerOverflow { literal: String, position: usize },
    /// A character that starts no token, with its position.
    UnexpectedCharacter { character: char, position: usize },
}

/// `e` is the error reported for the invalid lexeme at `sp` in `s`.
pub open spec fn reports(e: LexError, s: Seq<char>, sp: (int, int)) -> bool {
    if is_digit(s[sp.0]) {
        e matches LexError::IntegerOverflow { literal, position } && literal@ == lexeme(s, sp)
            && position == sp.0
    } else {
        e == LexError::UnexpectedCharacter { character: s[sp.0], position: sp.0 as usize }
    }
}

/// Every lexeme of `s` gives a token.
pub open spec fn all_valid(s: Seq<char>) -> bool {
    forall|k: int| 0 <= k < spans(s, 0).len() ==> valid_lexeme(#[trigger] lexeme(s, spans(s, 0)[k]))
}

/// The `k`-th lexeme of `s` is the first one that gives no token.
pub open spec fn first_invalid(s: Seq<char>, k: int) -> bool {
    &&& 0 <= k < spans(s, 0).len()
    &&& !valid_lexeme(lexeme(s, spans(s, 0)[k]))
    &&& forall|j: int| 0 <= j < k ==> valid_lexeme(#[trigger] lexeme(s, spans(s, 0)[j]))
}

/// `v` holds, in order, the token of each lexeme of `s`.
pub open spec fn tokens_of(s: Seq<char>, v: Seq<Token>) -> bool {
    &&& v.len() == spans(s, 0).len()
    &&& forall|k: int| 0 <= k < v.len() ==> denotes(#[trigger] v[k], lexeme(s, spans(s, 0)[k]))
}

fn is_ws_char(c: char) -> (r: bool)
    ensures
        r == is_ws(c),
{
    c == ' ' || c == '\t' || c == '\n' || c == '\x0C' || c == '\r'
}

fn is_alpha_char(c: char) -> (r: bool)
    ensures
        r == is_alpha(c),
{
    ('a' <= c && c <= 'z') || ('A' <= c && c <= 'Z')
}

fn is_digit_char(c: char) -> (r: bool)
    ensures
        r == is_digit(c),
{
    '0' <= c && c <= '9'
}

fn is_alnum_char(c: char) -> (r: bool)
    ensures
        r == is_alnum(c),
{
    is_alpha_char(c) || is_digit_char(c)
}

/// Whether `chars[start..end]` spells `w`.
fn word_is(chars: &Vec<char>, start: usize, end: usize, w: &str) -> (r: bool)
    requires
        start <= end <= chars.len(),
    ensures
        r == (chars@.subrange(start as int, end as int) == w@),
{
    let n = w.unicode_len();
    if end - start != n {
        return false;
    }
    let mut i: usize = 0;
    while i < n
        invariant
            start <= end <= chars.len(),
            end - start == n == w@.len(),
            i <= n,
            forall|k: int| 0 <= k < i ==> chars@[start + k] == w@[k],
        decreases n - i,
    {
        if chars[start + i] != w.get_char(i) {
            assert(chars@.subrange(start as int, end as int)[i as int] != w@[i as int]);
            return false;
        }
        i += 1;
    }
    assert(chars@.subrange(start as int, end as int) =~= w@);
    true
}

/// Looks `chars[start..end]` up in the keyword table.
fn keyword_token(chars: &Vec<char>, start: usize, end: usize) -> (r: Option<Token>)
    requires
        start <= end <= chars.len(),
    ensures
        r == keyword(chars@.subrange(start as int, end as int)),
{
    proof {
        reveal_strlit("true");
        reveal_strlit("false");
        reveal_strlit("let");
        reveal_strlit("fn");
        reveal_strlit("if");
        reveal_strlit("else");
        assert("true"@ =~= seq!['t', 'r', 'u', 'e']);
        assert("false"@ =~= seq!['f', 'a', 'l', 's', 'e']);
        assert("let"@ =~= seq!['l', 'e', 't']);
        assert("fn"@ =~= seq!['f', 'n']);
        assert("if"@ =~= seq!['i', 'f']);
        assert("else"@ =~= seq!['e', 'l', 's', 'e']);
    }
    if word_is(chars, start, end, "true") {
        Some(Token::Boolean(true))
    } else if word_is(chars, start, end, "false") {
        Some(Token::Boolean(false))
    } else if word_is(chars, start, end, "let") {
        Some(Token::Let)
    } else if word_is(chars, start, end, "fn") {
        Some(Token::Fn)
    } else if word_is(chars, start, end, "if") {
        Some(Token::If)
    } else if word_is(chars, start, end, "else") {
        Some(Token::Else)
    } else {
        None
    }
}

/// Looks the one-character symbol `c` up in the punctuation table.
fn punctuation_token(c: char) -> (r: Option<Token>)
    ensures
        r == single_punctuation(c),
{
    match c {
        '+' => Some(Token::Plus),
        '-' => Some(Token::Minus),
        '*' => Some(Token::Star),
        '/' => Some(Token::Slash),
        '=' => Some(Token::Assignment),
        ';' => Some(Token::Semicolon),
        '(' => Some(Token::LeftParen),
        ')' => Some(Token::RightParen),
        '{' => Some(Token::LeftBrace),
        '}' => Some(Token::RightBrace),
        _ => None,
    }
}

/// A scanner over one source text: a cursor into its characters.
pub struct Tokenizer<'a> {
    source: &'a str,
    chars: Vec<char>,
    position: usize,
}

impl<'a> Tokenizer<'a> {
    /// The characters of the source text.
    pub closed spec fn text(&self) -> Seq<char> {
        self.chars@
    }

    /// The position of the first character not yet consumed.
    pub closed spec fn pos(&self) -> int {
        self.position as int
    }

    /// The cursor lies within the characters, which are those of the source.
    pub closed spec fn wf(&self) -> bool {
        &&& self.chars@ == self.source@
        &&& self.position <= self.chars.len()
    }

    /// A scanner at the start of `input`.
    pub fn new(input: &'a str) -> (r: Self)
        ensures
            r.wf(),
            r.text() == input@,
            r.pos() == 0,
    {
        let mut chars: Vec<char> = Vec::new();
        for c in it: input.chars()
            invariant
                chars@ == it.seq().take(it.index() as int),
        {
            chars.push(c);
        }
        assert(chars@ == input@);
        Tokenizer { source: input, chars, position: 0 }
    }

    /// Scans the next lexeme and gives its token: `Ok(None)` once only
    /// whitespace is left, an error for a lexeme that gives no token. Either
    /// way the lexeme is consumed, so that scanning can resume after an error.
    pub fn get_next_token(&mut self) -> (r: Result<Option<Token>, LexError>)
        requires
            old(self).wf(),
        ensures
            final(self).wf(),
            final(self).text() == old(self).text(),
            ({
                let s = old(self).text();
                let j = skip_ws(s, old(self).pos());
                if j >= s.len() {
                    r matches Ok(None) && final(self).pos() == j
                } else {
                    let sp = (j, lexeme_end(s, j));
                    &&& final(self).pos() == sp.1
                    &&& (r is Ok <==> valid_lexeme(lexeme(s, sp)))
                    &&& r matches Ok(Some(t)) ==> denotes(t, lexeme(s, sp))
                    &&& r matches Err(e) ==> reports(e, s, sp)
                    &&& !(r matches Ok(None))
                }
            }),
    {
        self.skip_whitespace();
        if self.position >= self.chars.len() {
            return Ok(None);
        }
        let c = self.chars[self.position];
        let ghost s = self.chars@;
        let ghost j = self.position as int;
        proof {
            lemma_lexeme_end(s, j);
            assert(lexeme(s, (j, lexeme_end(s, j)))[0] == c);
        }
        if is_alpha_char(c) {
            Ok(Some(self.chop_identifier_or_keyword_token()))
        } else if is_digit_char(c) {
            match self.chop_integer_token() {
                Ok(t) => Ok(Some(t)),
                Err(e) => Err(e),
            }
        } else if self.is_current_character_punctuation() {
            Ok(Some(self.chop_punctuation_token()))
        } else {
            let position = self.position;
            self.position = self.position + 1;
            proof {
                let s = self.chars@;
                assert(lexeme(s, (position as int, position + 1)) =~= seq![c]);
            }
            Err(LexError::UnexpectedCharacter { character: c, position })
        }
    }

    /// Moves past the run of whitespace at the cursor.
    fn skip_whitespace(&mut self)
        requires
            old(self).wf(),
        ensures
            final(self).wf(),
            final(self).text() == old(self).text(),
            final(self).pos() == skip_ws(old(self).text(), old(self).pos()),
    {
        let ghost start = self.position as int;
        while self.position < self.chars.len() && is_ws_char(self.chars[self.position])
            invariant
                self.wf(),
                self.text() == old(self).text(),
                skip_ws(self.chars@, self.position as int) == skip_ws(self.chars@, start),
            decreases self.chars.len() - self.position,
        {
            self.position = self.position + 1;
        }
    }

    /// Scans the word at the cursor, which starts with a letter.
    fn chop_identifier_or_keyword_token(&mut self) -> (t: Token)
        requires
            old(self).wf(),
            old(self).pos() < old(self).text().len(),
            is_alpha(old(self).text()[old(self).pos()]),
        ensures
            final(self).wf(),
            final(self).text() == old(self).text(),
            final(self).pos() == alnum_end(old(self).text(), old(self).pos()),
            denotes(t, lexeme(old(self).text(), (old(self).pos(), final(self).pos()))),
    {
        let start = self.position;
        let mut idx = start;
        while idx < self.chars.len() && is_alnum_char(self.chars[idx])
            invariant
                self.wf(),
                self.text() == old(self).text(),
                self.position == start,
                start <= idx <= self.chars.len(),
                alnum_end(self.chars@, idx as int) == alnum_end(self.chars@, start as int),
            decreases self.chars.len() - idx,
        {
            idx = idx + 1;
        }
        self.position = idx;
        proof {
            assert(lexeme(self.chars@, (start as int, idx as int))[0] == self.chars@[start as int]);
        }
        match keyword_token(&self.chars, start, idx) {
            Some(t) => t,
            None => Token::Identifier(String::from_str(self.source.substring_char(start, idx))),
        }
    }

    /// Scans the numeral at the cursor, which starts with a digit; fails where
    /// its value does not fit in an `i32`.
    fn chop_integer_token(&mut self) -> (r: Result<Token, LexError>)
        requires
            old(self).wf(),
            old(self).pos() < old(self).text().len(),
            is_digit(old(self).text()[old(self).pos()]),
        ensures
            final(self).wf(),
            final(self).text() == old(self).text(),
            final(self).pos() == digit_end(old(self).text(), old(self).pos()),
            ({
                let sp = (old(self).pos(), final(self).pos());
                let l = lexeme(old(self).text(), sp);
                &&& (r is Ok <==> digits_value(l) <= i32::MAX)
                &&& r matches Ok(t) ==> denotes(t, l)
                &&& r matches Err(e) ==> reports(e, old(self).text(), sp)
            }),
    {
        let start = self.position;
        let mut idx = start;
        let mut value: u64 = 0;
        let mut overflow = false;
        while idx < self.chars.len() && is_digit_char(self.chars[idx])
            invariant
                self.wf(),
                self.text() == old(self).text(),
                self.position == start,
                start <= idx <= self.chars.len(),
                digit_end(self.chars@, idx as int) == digit_end(self.chars@, start as int),
                !overflow ==> value == digits_value(self.chars@.subrange(start as int, idx as int))
                    && value <= i32::MAX,
                overflow ==> digits_value(self.chars@.subrange(start as int, idx as int))
                    > i32::MAX,
            decreases self.chars.len() - idx,
        {
            let d = (self.chars[idx] as u32 - '0' as u32) as u64;
            proof {
                let s = self.chars@;
                let next = s.subrange(start as int, idx + 1);
                assert(next.drop_last() =~= s.subrange(start as int, idx as int));
                assert(next.last() == s[idx as int]);
            }
            if !overflow {
                let next = value * 10 + d;
                if next > i32::MAX as u64 {
                    overflow = true;
                } else {
                    value = next;
                }
            }
            idx = idx + 1;
        }
        self.position = idx;
        let l = Ghost(self.chars@.subrange(start as int, idx as int));
        proof {
            assert(l@[0] == self.chars@[start as int]);
        }
        if overflow {
            Err(
                LexError::IntegerOverflow {
                    literal: String::from_str(self.source.substring_char(start, idx)),
                    position: start,
                },
            )
        } else {
            Ok(Token::Integer(value as i32))
        }
    }

    /// Whether the character at the cursor is a one-character symbol.
    fn is_current_character_punctuation(&self) -> (r: bool)
        requires
            self.wf(),
            self.pos() < self.text().len(),
        ensures
            r == single_punctuation(self.text()[self.pos()]) is Some,
    {
        match punctuation_token(self.chars[self.position]) {
            None => false,
            Some(_) => true,
        }
    }

    /// Scans the symbol at the cursor, `==` where it stands there.
    fn chop_punctuation_token(&mut self) -> (t: Token)
        requires
            old(self).wf(),
            old(self).pos() < old(self).text().len(),
            single_punctuation(old(self).text()[old(self).pos()]) is Some,
        ensures
            final(self).wf(),
            final(self).text() == old(self).text(),
            final(self).pos() == (if old(self).text()[old(self).pos()] == '=' && old(self).pos() + 1
                < old(self).text().len() && old(self).text()[old(self).pos() + 1] == '=' {
                old(self).pos() + 2
            } else {
                old(self).pos() + 1
            }),
            punctuation(lexeme(old(self).text(), (old(self).pos(), final(self).pos()))) == Some(t),
    {
        let start = self.position;
        let c = self.chars[start];
        if start + 1 < self.chars.len() && c == '=' && self.chars[start + 1] == '=' {
            self.position = start + 2;
            assert(lexeme(self.chars@, (start as int, start + 2)) =~= seq!['=', '=']);
            Token::Equals
        } else {
            self.position = start + 1;
            assert(lexeme(self.chars@, (start as int, start + 1)) =~= seq![c]);
            punctuation_token(c).unwrap()
        }
    }
}

/// Splits `input` into tokens, left to right, skipping whitespace between
/// them; fails with the error of the first lexeme that gives no token.
pub fn tokenize(input: &str) -> (r: Result<Vec<Token>, LexError>)
    ensures
        r is Ok <==> all_valid(input@),
        r matches Ok(v) ==> tokens_of(input@, v@),
        r matches Err(e) ==> exists|k: int|
            first_invalid(input@, k) && reports(e, input@, #[trigger] spans(input@, 0)[k]),
{
    let mut tokenizer = Tokenizer::new(input);
    let mut tokens: Vec<Token> = Vec::new();
    let ghost s = input@;
    let ghost mut done: Seq<(int, int)> = Seq::empty();
    loop
        invariant
            tokenizer.wf(),
            tokenizer.text() == s,
            s == input@,
            spans(s, 0) == done + spans(s, tokenizer.pos()),
            tokens@.len() == done.len(),
            forall|k: int|
                0 <= k < done.len() ==> valid_lexeme(#[trigger] lexeme(s, done[k])) && denotes(
                    tokens@[k],
                    lexeme(s, done[k]),
                ),
        decreases s.len() - tokenizer.pos(),
    {
        let ghost before = tokenizer.pos();
        proof {
            lemma_skip_ws(s, before);
            let j = skip_ws(s, before);
            if j < s.len() {
                lemma_lexeme_end(s, j);
            }
        }
        match tokenizer.get_next_token() {
            Ok(None) => {
                proof {
                    assert(spans(s, 0) =~= done);
                }
                return Ok(tokens);
            },
            Ok(Some(t)) => {
                proof {
                    let j = skip_ws(s, before);
                    let sp = (j, lexeme_end(s, j));
                    assert(spans(s, before) == seq![sp] + spans(s, sp.1));
                    assert(spans(s, 0) =~= done.push(sp) + spans(s, sp.1));
                    done = done.push(sp);
                }
                tokens.push(t);
            },
            Err(e) => {
                proof {
                    let j = skip_ws(s, before);
                    let sp = (j, lexeme_end(s, j));
                    let k = done.len() as int;
                    assert(spans(s, before) == seq![sp] + spans(s, sp.1));
                    assert(spans(s, 0)[k] == sp);
                    assert forall|i: int| 0 <= i < k implies valid_lexeme(
                        #[trigger] lexeme(s, spans(s, 0)[i]),
                    ) by {
                        assert(spans(s, 0)[i] == done[i]);
                    }
                    assert(first_invalid(s, k));
                }
                return Err(e);
            },
        }
    }
}

} // verus!
