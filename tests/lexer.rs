use interpreter::{tokenize, LexError, Token, Tokenizer};

fn rendered(input: &str) -> Vec<String> {
    tokenize(input).unwrap().iter().map(|token| token.render()).collect::<Vec<String>>()
}

#[test]
fn it_works_on_arithmetic_expression() {
    assert_eq!(
        rendered("(abc + 123) * 34;"),
        Vec::from([
            "<(, (>",
            "<identifier, abc>",
            "<+, +>",
            "<integer, 123>",
            "<), )>",
            "<*, *>",
            "<integer, 34>",
            "<;, ;>",
        ]),
    );
}

#[test]
fn it_works_on_assignment_statement() {
    assert_eq!(
        rendered("let x = 123 / 12;"),
        Vec::from([
            "<let, let>",
            "<identifier, x>",
            "<=, =>",
            "<integer, 123>",
            "</, />",
            "<integer, 12>",
            "<;, ;>",
        ]),
    );
}

#[test]
fn it_works_on_equality_statement() {
    assert_eq!(
        rendered("23 == 342 - 12"),
        Vec::from([
            "<integer, 23>",
            "<==, ==>",
            "<integer, 342>",
            "<-, ->",
            "<integer, 12>",
        ])
    )
}

#[test]
fn it_works_on_if_else_statement() {
    assert_eq!(
        rendered("if (true) { 34 } else { 43 }"),
        Vec::from([
            "<if, if>",
            "<(, (>",
            "<boolean, true>",
            "<), )>",
            "<{, {>",
            "<integer, 34>",
            "<}, }>",
            "<else, else>",
            "<{, {>",
            "<integer, 43>",
            "<}, }>",
        ])
    )
}

#[test]
fn empty_and_blank_inputs_give_no_tokens() {
    assert_eq!(tokenize(""), Ok(vec![]));
    assert_eq!(tokenize(" \t\r\n\x0C "), Ok(vec![]));
}

#[test]
fn keyword_prefix_stays_in_identifier() {
    assert_eq!(tokenize("letx"), Ok(vec![Token::Identifier(String::from("letx"))]));
    assert_eq!(tokenize("if2"), Ok(vec![Token::Identifier(String::from("if2"))]));
    assert_eq!(
        tokenize("let x"),
        Ok(vec![Token::Let, Token::Identifier(String::from("x"))])
    );
}

#[test]
fn reserved_words_give_their_tokens() {
    assert_eq!(
        tokenize("true false let fn if else"),
        Ok(vec![
            Token::Boolean(true),
            Token::Boolean(false),
            Token::Let,
            Token::Fn,
            Token::If,
            Token::Else,
        ])
    );
    assert_eq!(tokenize("True"), Ok(vec![Token::Identifier(String::from("True"))]));
}

#[test]
fn double_equals_is_one_token() {
    assert_eq!(tokenize("=="), Ok(vec![Token::Equals]));
    assert_eq!(tokenize("= ="), Ok(vec![Token::Assignment, Token::Assignment]));
    assert_eq!(tokenize("==="), Ok(vec![Token::Equals, Token::Assignment]));
    assert_eq!(tokenize("===="), Ok(vec![Token::Equals, Token::Equals]));
    assert_eq!(tokenize("a==b").unwrap()[1], Token::Equals);
}

#[test]
fn integers_are_read_whole() {
    assert_eq!(tokenize("007"), Ok(vec![Token::Integer(7)]));
    assert_eq!(tokenize("2147483647"), Ok(vec![Token::Integer(2147483647)]));
    assert_eq!(
        tokenize("12ab"),
        Ok(vec![Token::Integer(12), Token::Identifier(String::from("ab"))])
    );
}

#[test]
fn overflowing_numeral_is_an_error() {
    assert_eq!(
        tokenize("x = 123456789012345;"),
        Err(LexError::IntegerOverflow { literal: String::from("123456789012345"), position: 4 })
    );
    assert_eq!(
        tokenize("2147483648"),
        Err(LexError::IntegerOverflow { literal: String::from("2147483648"), position: 0 })
    );
}

#[test]
fn unexpected_character_is_an_error() {
    assert_eq!(
        tokenize("a + $b"),
        Err(LexError::UnexpectedCharacter { character: '$', position: 4 })
    );
    assert_eq!(
        tokenize("é"),
        Err(LexError::UnexpectedCharacter { character: 'é', position: 0 })
    );
}

#[test]
fn scanning_resumes_after_an_error() {
    let mut tokenizer = Tokenizer::new("1 # 2");
    assert_eq!(tokenizer.get_next_token(), Ok(Some(Token::Integer(1))));
    assert_eq!(
        tokenizer.get_next_token(),
        Err(LexError::UnexpectedCharacter { character: '#', position: 2 })
    );
    assert_eq!(tokenizer.get_next_token(), Ok(Some(Token::Integer(2))));
    assert_eq!(tokenizer.get_next_token(), Ok(None));
    assert_eq!(tokenizer.get_next_token(), Ok(None));
}

#[test]
fn whitespace_between_lexemes_does_not_matter() {
    let compact = tokenize("let x=(1+2)*3;");
    let spaced = tokenize("  let   x =\t( 1 +\n2 ) * 3 ;  ");
    assert!(compact.is_ok());
    assert_eq!(compact, spaced);
}

#[test]
fn rendering_is_deterministic_and_exact() {
    let token = Token::Identifier(String::from("abc"));
    assert_eq!(token.render(), token.render());
    assert_eq!(token.render(), "<identifier, abc>");
    assert_eq!(Token::Integer(0).render(), "<integer, 0>");
    assert_eq!(Token::Integer(-45).render(), "<integer, -45>");
    assert_eq!(Token::Integer(i32::MIN).render(), "<integer, -2147483648>");
    assert_eq!(Token::Integer(i32::MAX).render(), "<integer, 2147483647>");
    assert_eq!(Token::Boolean(false).render(), "<boolean, false>");
    assert_eq!(Token::Fn.render(), "<fn, fn>");
    assert_eq!(Token::Equals.render(), "<==, ==>");
    assert_eq!(Token::RightBrace.render(), "<}, }>");
}
