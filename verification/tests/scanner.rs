use fumie::lexer::token::Token;
use fumie::lexer::{tokenize, Lexer, ScanError};

fn scan(text: &str) -> Vec<Token> {
    tokenize(&String::from(text)).unwrap()
}

fn name(text: &str) -> Token {
    Token::Name(String::from(text))
}

fn string(text: &str) -> Token {
    Token::Str(String::from(text))
}

#[test]
fn equal_and_assign_are_told_apart() {
    assert_eq!(scan("=="), vec![Token::Equal]);
    assert_eq!(scan("="), vec![Token::Assign]);
    assert_eq!(scan("==="), vec![Token::Equal, Token::Assign]);
    assert_eq!(scan("= ="), vec![Token::Assign, Token::Assign]);
}

#[test]
fn dot_and_const_assign_are_told_apart() {
    assert_eq!(scan(".="), vec![Token::ConstAssign]);
    assert_eq!(scan("."), vec![Token::Dot]);
    assert_eq!(scan(".=="), vec![Token::ConstAssign, Token::Assign]);
    assert_eq!(scan(".."), vec![Token::Dot, Token::Dot]);
}

#[test]
fn lookahead_does_not_consume_what_follows() {
    assert_eq!(scan("=a"), vec![Token::Assign, name("a")]);
    assert_eq!(scan(".a"), vec![Token::Dot, name("a")]);
    assert_eq!(scan("/a"), vec![Token::Slash, name("a")]);
    assert_eq!(scan("\ra"), vec![Token::Endline, name("a")]);
}

#[test]
fn comment_body_yields_no_tokens() {
    assert_eq!(scan("// hello\nfoo"), vec![Token::Comment, Token::Endline, name("foo")]);
}

#[test]
fn comment_after_code_ends_with_the_line() {
    assert_eq!(
        scan("a // b = 1\nc"),
        vec![name("a"), Token::Comment, Token::Endline, name("c")]
    );
    assert_eq!(scan("//x\r\ny"), vec![Token::Comment, Token::Endline, name("y")]);
    assert_eq!(scan("//x\ry"), vec![Token::Comment, Token::Endline, name("y")]);
}

#[test]
fn slashes_inside_a_comment_are_its_body() {
    assert_eq!(scan("///"), vec![Token::Comment]);
    assert_eq!(scan("// a // b"), vec![Token::Comment]);
}

#[test]
fn single_slash_is_a_token() {
    assert_eq!(scan("/"), vec![Token::Slash]);
    assert_eq!(scan("a / b"), vec![name("a"), Token::Slash, name("b")]);
    assert_eq!(scan("/ /"), vec![Token::Slash, Token::Slash]);
}

#[test]
fn each_line_ending_is_one_endline() {
    assert_eq!(scan("\r\n"), vec![Token::Endline]);
    assert_eq!(scan("\n"), vec![Token::Endline]);
    assert_eq!(scan("\r"), vec![Token::Endline]);
}

#[test]
fn line_feed_behind_a_line_ending_is_taken_with_it() {
    assert_eq!(scan("\n\n"), vec![Token::Endline]);
    assert_eq!(scan("\n\n\n"), vec![Token::Endline, Token::Endline]);
    assert_eq!(scan("\r\n\n"), vec![Token::Endline]);
    assert_eq!(scan("\r\r"), vec![Token::Endline, Token::Endline]);
    assert_eq!(scan("\n\r"), vec![Token::Endline, Token::Endline]);
    assert_eq!(scan("a\nb"), vec![name("a"), Token::Endline, name("b")]);
}

#[test]
fn string_literal_with_and_without_closing_quote() {
    assert_eq!(scan("\"abc\""), vec![string("abc")]);
    assert_eq!(scan("\"abc"), vec![string("abc")]);
}

#[test]
fn string_literal_keeps_whitespace_and_line_endings() {
    assert_eq!(scan("\"a b\n// c\""), vec![string("a b\n// c")]);
    assert_eq!(scan("\"a\" \"b\""), vec![string("a"), string("b")]);
}

#[test]
fn string_literal_at_the_end_of_the_text_is_empty() {
    assert_eq!(scan("\""), vec![string("")]);
    assert_eq!(scan("a \""), vec![name("a"), string("")]);
}

#[test]
fn first_character_of_a_literal_is_taken_unconditionally() {
    assert_eq!(scan("\"\""), vec![string("\"")]);
    assert_eq!(scan("\"\"a\"b"), vec![string("\"a"), name("b")]);
}

#[test]
fn name_then_number_with_whitespace_between() {
    assert_eq!(scan("abc123_x 42"), vec![name("abc123_x"), Token::Number(42)]);
}

#[test]
fn names_start_with_a_letter_or_underscore() {
    assert_eq!(scan("_"), vec![name("_")]);
    assert_eq!(scan("_a1 b_2"), vec![name("_a1"), name("b_2")]);
    assert_eq!(scan("1a"), vec![Token::Number(1), name("a")]);
    assert_eq!(scan("héllo été"), vec![name("héllo"), name("été")]);
    assert_eq!(scan("名前"), vec![name("名前")]);
}

#[test]
fn names_end_at_the_first_other_character() {
    assert_eq!(scan("ab.cd"), vec![name("ab"), Token::Dot, name("cd")]);
    assert_eq!(scan("f(x)"), vec![name("f"), Token::OpenParen, name("x"), Token::CloseParen]);
    assert_eq!(scan("a-b"), vec![name("a"), Token::StrangeChar('-'), name("b")]);
}

#[test]
fn numbers_are_read_in_base_ten() {
    assert_eq!(scan("0"), vec![Token::Number(0)]);
    assert_eq!(scan("007"), vec![Token::Number(7)]);
    assert_eq!(scan("12 34"), vec![Token::Number(12), Token::Number(34)]);
    assert_eq!(scan("1234567890"), vec![Token::Number(1234567890)]);
    assert_eq!(scan("9223372036854775807"), vec![Token::Number(i64::MAX)]);
    assert_eq!(scan("00000000000000000000000000000042"), vec![Token::Number(42)]);
}

#[test]
fn minus_is_no_part_of_a_number() {
    assert_eq!(scan("-5"), vec![Token::StrangeChar('-'), Token::Number(5)]);
}

#[test]
fn strange_character_is_a_token() {
    assert_eq!(scan("@"), vec![Token::StrangeChar('@')]);
    assert_eq!(scan("# $"), vec![Token::StrangeChar('#'), Token::StrangeChar('$')]);
    assert_eq!(scan("a@b"), vec![name("a"), Token::StrangeChar('@'), name("b")]);
    assert_eq!(scan("→"), vec![Token::StrangeChar('→')]);
}

#[test]
fn every_single_character_token() {
    assert_eq!(
        scan("? , ; ' ( )"),
        vec![
            Token::QuestionMark,
            Token::Comma,
            Token::Semicolon,
            Token::Quote,
            Token::OpenParen,
            Token::CloseParen,
        ]
    );
    assert_eq!(scan("?,;'()"), scan("? , ; ' ( )"));
}

#[test]
fn two_scanners_over_one_text_agree() {
    let text = String::from("x .= \"s\" // c\r\n(1 == 2)? @");
    let mut first = Lexer::new(&text);
    let mut second = Lexer::new(&text);
    let a = first.tokens().unwrap();
    let b = second.tokens().unwrap();
    assert_eq!(a, b);
    assert_eq!(
        a,
        vec![
            name("x"),
            Token::ConstAssign,
            string("s"),
            Token::Comment,
            Token::Endline,
            Token::OpenParen,
            Token::Number(1),
            Token::Equal,
            Token::Number(2),
            Token::CloseParen,
            Token::QuestionMark,
            Token::StrangeChar('@'),
        ]
    );
}

#[test]
fn tokens_across_a_blank_are_those_of_both_sides() {
    let pairs = [
        ("a=1", "b"),
        ("x .= 1/2", "(y)"),
        ("name", "123"),
        ("12", "34"),
        ("=", "="),
        ("/", "/ x"),
        ("a\r", "\nb"),
        ("", "a"),
        ("a", ""),
        ("? , ;", "\"s t\" // c"),
    ];
    for (a, b) in pairs {
        let mut expected = scan(a);
        expected.extend(scan(b));
        assert_eq!(scan(&format!("{} {}", a, b)), expected);
        assert_eq!(scan(&format!("{}\t{}", a, b)), scan(&format!("{} {}", a, b)));
    }
}

#[test]
fn number_too_large_behind_a_blank_is_reported_where_it_stands() {
    assert_eq!(
        tokenize(&String::from("ab 99999999999999999999")),
        Err(ScanError::NumberOverflow { position: 3 })
    );
    assert_eq!(
        tokenize(&String::from("99999999999999999999 ab")),
        Err(ScanError::NumberOverflow { position: 0 })
    );
}

#[test]
fn blanks_before_a_lexeme_are_discarded() {
    assert_eq!(scan("   \t a"), vec![name("a")]);
    assert_eq!(scan(" \u{A0} = "), vec![Token::Assign]);
    assert_eq!(scan("a   b"), scan("a b"));
}

#[test]
fn empty_text_has_no_tokens() {
    assert_eq!(scan(""), vec![]);
    let mut lexer = Lexer::new(&String::new());
    assert_eq!(lexer.next(), None);
    assert_eq!(lexer.next(), None);
}

#[test]
fn whitespace_alone_has_no_tokens() {
    assert_eq!(scan(" "), vec![]);
    assert_eq!(scan("  \t \u{A0}\u{3000} "), vec![]);
}

#[test]
fn comment_without_line_ending_is_one_token() {
    assert_eq!(scan("//"), vec![Token::Comment]);
    assert_eq!(scan("// abc = 12 \"x"), vec![Token::Comment]);
}

#[test]
fn no_more_tokens_than_characters() {
    let text = "a=b.c;d,e?f(g)h'i/j";
    assert_eq!(scan(text).len(), text.len());
    assert!(scan("ab == cd // x").len() <= 13);
}

#[test]
fn next_pulls_one_token_at_a_time() {
    let mut lexer = Lexer::new(&String::from("a = 1"));
    assert_eq!(lexer.next(), Some(name("a")));
    assert_eq!(lexer.next(), Some(Token::Assign));
    assert_eq!(lexer.next(), Some(Token::Number(1)));
    assert_eq!(lexer.next(), None);
    assert_eq!(lexer.next(), None);
}

#[test]
fn try_next_pulls_what_next_pulls() {
    let mut lexer = Lexer::new(&String::from("a //b\n\"c"));
    assert_eq!(lexer.try_next(), Ok(Some(name("a"))));
    assert_eq!(lexer.try_next(), Ok(Some(Token::Comment)));
    assert_eq!(lexer.try_next(), Ok(Some(Token::Endline)));
    assert_eq!(lexer.try_next(), Ok(Some(string("c"))));
    assert_eq!(lexer.try_next(), Ok(None));
}

#[test]
fn number_out_of_range_is_reported() {
    assert_eq!(
        tokenize(&String::from("9223372036854775808")),
        Err(ScanError::NumberOverflow { position: 0 })
    );
    assert_eq!(
        tokenize(&String::from("x = 99999999999999999999;")),
        Err(ScanError::NumberOverflow { position: 4 })
    );
}

#[test]
fn numeric_character_that_is_no_decimal_digit_is_a_strange_character() {
    assert_eq!(scan("a ٣"), vec![name("a"), Token::StrangeChar('٣')]);
    assert_eq!(scan("1½"), vec![Token::Number(1), Token::StrangeChar('½')]);
    assert_eq!(scan("²"), vec![Token::StrangeChar('²')]);
    assert_eq!(
        scan("12٣45"),
        vec![Token::Number(12), Token::StrangeChar('٣'), Token::Number(45)]
    );
}

#[test]
fn numeric_character_may_stand_inside_a_name() {
    assert_eq!(scan("x² y٣"), vec![name("x²"), name("y٣")]);
}

#[test]
fn number_ends_at_the_first_character_that_is_no_digit() {
    assert_eq!(scan("12.5"), vec![Token::Number(12), Token::Dot, Token::Number(5)]);
    assert_eq!(scan("7("), vec![Token::Number(7), Token::OpenParen]);
    assert_eq!(scan("3_0"), vec![Token::Number(3), name("_0")]);
}

#[test]
fn number_too_large_inside_a_name_string_or_comment_is_not_met() {
    assert_eq!(scan("a99999999999999999999"), vec![name("a99999999999999999999")]);
    assert_eq!(scan("\"99999999999999999999\""), vec![string("99999999999999999999")]);
    assert_eq!(scan("// 99999999999999999999"), vec![Token::Comment]);
}

#[test]
fn failed_pull_consumes_nothing() {
    let mut lexer = Lexer::new(&String::from("a  99999999999999999999 b"));
    assert_eq!(lexer.overflow_ahead(), None);
    assert_eq!(lexer.try_next(), Ok(Some(name("a"))));
    assert_eq!(lexer.overflow_ahead(), Some(3));
    assert_eq!(lexer.try_next(), Err(ScanError::NumberOverflow { position: 3 }));
    assert_eq!(lexer.overflow_ahead(), Some(3));
    assert_eq!(lexer.try_next(), Err(ScanError::NumberOverflow { position: 3 }));
    assert_eq!(lexer.tokens(), Err(ScanError::NumberOverflow { position: 3 }));
}

#[test]
fn drain_fails_where_the_number_too_large_stands() {
    let mut lexer = Lexer::new(&String::from("a b 18446744073709551616"));
    assert_eq!(lexer.tokens(), Err(ScanError::NumberOverflow { position: 4 }));
    assert_eq!(lexer.overflow_ahead(), Some(4));
}

#[test]
fn drain_takes_up_where_next_left_off() {
    let mut lexer = Lexer::new(&String::from("a b c"));
    assert_eq!(lexer.next(), Some(name("a")));
    assert_eq!(lexer.tokens(), Ok(vec![name("b"), name("c")]));
    assert_eq!(lexer.tokens(), Ok(vec![]));
}

#[test]
fn build_name_appends_the_identifier_tail() {
    let mut lexer = Lexer::new(&String::from("bc_1 d"));
    assert_eq!(lexer.build_name(vec!['a']), "abc_1");
    assert_eq!(lexer.next(), Some(name("d")));
    let mut lexer = Lexer::new(&String::from(".x"));
    assert_eq!(lexer.build_name(vec!['a', 'b']), "ab");
    assert_eq!(lexer.next(), Some(Token::Dot));
    let mut lexer = Lexer::new(&String::new());
    assert_eq!(lexer.build_name(vec![]), "");
}

#[test]
fn build_numerical_string_appends_the_digits_that_follow() {
    let mut lexer = Lexer::new(&String::from("23x"));
    assert_eq!(lexer.build_numerical_string(vec!['1']), "123");
    assert_eq!(lexer.next(), Some(name("x")));
    let mut lexer = Lexer::new(&String::from(" 5"));
    assert_eq!(lexer.build_numerical_string(vec!['a', '-']), "a-");
    assert_eq!(lexer.next(), Some(Token::Number(5)));
    let mut lexer = Lexer::new(&String::new());
    assert_eq!(lexer.build_numerical_string(vec![]), "");
}

#[test]
fn build_numerical_string_stops_before_a_numeric_character_that_is_no_digit() {
    let mut lexer = Lexer::new(&String::from("\u{b2}"));
    assert_eq!(lexer.build_numerical_string(vec!['1']), "1");
    assert_eq!(lexer.next(), Some(Token::StrangeChar('\u{b2}')));
    assert_eq!(lexer.next(), None);
    let mut lexer = Lexer::new(&String::from("4٣4"));
    assert_eq!(lexer.build_numerical_string(vec!['1']), "14");
    assert_eq!(lexer.next(), Some(Token::StrangeChar('٣')));
    assert_eq!(lexer.next(), Some(Token::Number(4)));
}

#[test]
fn build_numerical_string_has_no_length_limit() {
    let mut lexer = Lexer::new(&String::from("99999999999999999999999999999999 x"));
    assert_eq!(
        lexer.build_numerical_string(vec!['9']),
        "999999999999999999999999999999999"
    );
    assert_eq!(lexer.next(), Some(name("x")));
}

#[test]
fn build_number_reads_the_assembled_digits() {
    let mut lexer = Lexer::new(&String::from("23 4"));
    assert_eq!(lexer.build_number(vec!['1']), 123);
    assert_eq!(lexer.next(), Some(Token::Number(4)));
    let mut lexer = Lexer::new(&String::from("5"));
    assert_eq!(lexer.build_number(vec!['-']), -5);
    let mut lexer = Lexer::new(&String::from("x"));
    assert_eq!(lexer.build_number(vec!['+', '7']), 7);
    assert_eq!(lexer.next(), Some(name("x")));
}

#[test]
fn build_string_runs_to_the_quote_and_drops_it() {
    let mut lexer = Lexer::new(&String::from("bc\"rest"));
    assert_eq!(lexer.build_string(vec!['a']), "abc");
    assert_eq!(lexer.next(), Some(name("rest")));
    let mut lexer = Lexer::new(&String::from("\"rest"));
    assert_eq!(lexer.build_string(vec![]), "");
    assert_eq!(lexer.next(), Some(name("rest")));
    let mut lexer = Lexer::new(&String::from("no end"));
    assert_eq!(lexer.build_string(vec![]), "no end");
    assert_eq!(lexer.next(), None);
}

#[test]
fn read_string_reads_behind_the_opening_quote() {
    let mut lexer = Lexer::new(&String::from("abc\" d"));
    assert_eq!(lexer.read_string(), string("abc"));
    assert_eq!(lexer.next(), Some(name("d")));
    let mut lexer = Lexer::new(&String::new());
    assert_eq!(lexer.read_string(), string(""));
    let mut lexer = Lexer::new(&String::from("\"x\"y"));
    assert_eq!(lexer.read_string(), string("\"x"));
    assert_eq!(lexer.next(), Some(name("y")));
}
