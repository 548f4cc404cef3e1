use vstd::prelude::*;

verus! {

/// A lexical unit of the language.
#[derive(Clone, Debug, PartialEq, Eq)]
pub enum Token {
    Identifier(String),
    Integer(i32),
    Boolean(bool),
    Let,
    Fn,
    If,
    Else,
    Plus,
    Minus,
    Star,
    Slash,
    Assignment,
    Equals,
    Semicolon,
    LeftParen,
    RightParen,
    LeftBrace,
    RightBrace,
}

/// The character of a decimal digit `d < 10`.
pub open spec fn digit_char(d: nat) -> char {
    ((d + '0' as nat) as u32) as char
}

/// Decimal notation of a natural number, without leading zeros.
pub open spec fn decimal(n: nat) -> Seq<char>
    decreases n,
{
    if n < 10 {
        seq![digit_char(n)]
    } else {
        decimal(n / 10).push(digit_char(n % 10))
    }
}

/// Decimal notation of an integer, with a leading `-` when it is negative.
pub open spec fn signed_decimal(n: int) -> Seq<char> {
    if n < 0 {
        seq!['-'] + decimal((-n) as nat)
    } else {
        decimal(n as nat)
    }
}

/// Text of a keyword or punctuation token, the same as its kind label.
pub open spec fn fixed_text(t: Token) -> Seq<char> {
    match t {
        Token::Let => seq!['l', 'e', 't'],
        Token::Fn => seq!['f', 'n'],
        Token::If => seq!['i', 'f'],
        Token::Else => seq!['e', 'l', 's', 'e'],
        Token::Plus => seq!['+'],
        Token::Minus => seq!['-'],
        Token::Star => seq!['*'],
        Token::Slash => seq!['/'],
        Token::Assignment => seq!['='],
        Token::Equals => seq!['=', '='],
        Token::Semicolon => seq![';'],
        Token::LeftParen => seq!['('],
        Token::RightParen => seq![')'],
        Token::LeftBrace => seq!['{'],
        Token::RightBrace => seq!['}'],
        _ => Seq::empty(),
    }
}

/// The kind label of a token: the part of its rendering before the comma.
pub open spec fn kind_label(t: Token) -> Seq<char> {
    match t {
        Token::Identifier(_) => seq!['i', 'd', 'e', 'n', 't', 'i', 'f', 'i', 'e', 'r'],
        Token::Integer(_) => seq!['i', 'n', 't', 'e', 'g', 'e', 'r'],
        Token::Boolean(_) => seq!['b', 'o', 'o', 'l', 'e', 'a', 'n'],
        _ => fixed_text(t),
    }
}

/// The literal text of a token: the part of its rendering after the comma.
pub open spec fn literal_text(t: Token) -> Seq<char> {
    match t {
        Token::Identifier(name) => name@,
        Token::Integer(n) => signed_decimal(n as int),
        Token::Boolean(b) => if b {
            seq!['t', 'r', 'u', 'e']
        } else {
            seq!['f', 'a', 'l', 's', 'e']
        },
        _ => fixed_text(t),
    }
}

/// The canonical rendering `<kind, literal>` of a token.
pub open spec fn rendered(t: Token) -> Seq<char> {
    seq!['<'] + kind_label(t) + seq![',', ' '] + literal_text(t) + seq!['>']
}

/// Rendering depends on nothing but the token: equal tokens render to equal text.
pub proof fn lemma_render_deterministic(a: Token, b: Token)
    requires
        a == b,
    ensures
        rendered(a) == rendered(b),
{
}

/// The one-character text of the decimal digit `d`.
fn digit_str(d: u32) -> (r: &'static str)
    requires
        d < 10,
    ensures
        r@ == seq![digit_char(d as nat)],
{
    proof {
        reveal_strlit("0");
        reveal_strlit("1");
        reveal_strlit("2");
        reveal_strlit("3");
        reveal_strlit("4");
        reveal_strlit("5");
        reveal_strlit("6");
        reveal_strlit("7");
        reveal_strlit("8");
        reveal_strlit("9");
    }
    match d {
        0 => "0",
        1 => "1",
        2 => "2",
        3 => "3",
        4 => "4",
        5 => "5",
        6 => "6",
        7 => "7",
        8 => "8",
        _ => "9",
    }
}

/// Appends the decimal notation of `n` to `out`.
fn append_decimal(out: &mut String, n: u32)
    ensures
        final(out)@ == old(out)@ + decimal(n as nat),
    decreases n,
{
    if n >= 10 {
        append_decimal(out, n / 10);
    }
    out.append(digit_str(n % 10));
    assert(final(out)@ =~= old(out)@ + decimal(n as nat));
}

/// Text of the punctuation or keyword token `t`, the same as its label.
fn fixed_str(t: &Token) -> (r: &'static str)
    ensures
        r@ == fixed_text(*t),
{
    proof {
        reveal_strlit("let");
        reveal_strlit("fn");
        reveal_strlit("if");
        reveal_strlit("else");
        reveal_strlit("+");
        reveal_strlit("-");
        reveal_strlit("*");
        reveal_strlit("/");
        reveal_strlit("=");
        reveal_strlit("==");
        reveal_strlit(";");
        reveal_strlit("(");
        reveal_strlit(")");
        reveal_strlit("{");
        reveal_strlit("}");
        reveal_strlit("");
    }
    match t {
        Token::Let => "let",
        Token::Fn => "fn",
        Token::If => "if",
        Token::Else => "else",
        Token::Plus => "+",
        Token::Minus => "-",
        Token::Star => "*",
        Token::Slash => "/",
        Token::Assignment => "=",
        Token::Equals => "==",
        Token::Semicolon => ";",
        Token::LeftParen => "(",
        Token::RightParen => ")",
        Token::LeftBrace => "{",
        Token::RightBrace => "}",
        _ => "",
    }
}

impl Token {
    /// The canonical rendering `<kind, literal>` of this token.
    pub fn render(&self) -> (r: String)
        ensures
            r@ == rendered(*self),
    {
        proof {
            reveal_strlit("<");
            reveal_strlit(", ");
            reveal_strlit(">");
            reveal_strlit("-");
            reveal_strlit("identifier");
            reveal_strlit("integer");
            reveal_strlit("boolean");
            reveal_strlit("true");
            reveal_strlit("false");
        }
        let mut out = String::from_str("<");
        match self {
            Token::Identifier(name) => {
                out.append("identifier");
                out.append(", ");
                out.append(name.as_str());
            },
            Token::Integer(n) => {
                out.append("integer");
                out.append(", ");
                if *n < 0 {
                    out.append("-");
                }
                let magnitude: u32 = if *n < 0 {
                    (-(*n as i64)) as u32
                } else {
                    *n as u32
                };
                append_decimal(&mut out, magnitude);
            },
            Token::Boolean(b) => {
                out.append("boolean");
                out.append(", ");
                out.append(if *b { "true" } else { "false" });
            },
            _ => {
                let text = fixed_str(self);
                out.append(text);
                out.append(", ");
                out.append(text);
            },
        }
        out.append(">");
        assert(out@ =~= rendered(*self));
        out
    }
}

} // verus!
