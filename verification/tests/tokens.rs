use cql_parser::lexer::Lexer;
use cql_parser::source::Source;
use cql_parser::token::Token;

fn tokens(text: &str, strict: bool) -> Vec<Token> {
    let mut source = Source::new(text);
    let mut lexer = Lexer::new();
    lexer.strict(strict);
    let mut found = Vec::new();
    loop {
        match lexer.lex(&mut source) {
            Ok(Token::EOS) => return found,
            Ok(token) => found.push(token),
            Err(_) => panic!("the lexer failed"),
        }
    }
}

fn simple(text: &str) -> Token {
    Token::SimpleString(String::from(text))
}

fn name(text: &str) -> Token {
    Token::PrefixName(String::from(text))
}

#[test]
fn source_yields_its_characters_in_order() {
    let mut source = Source::new("a\u{e9}\u{1F600}");
    assert_eq!(source.next(), Some('a'));
    assert_eq!(source.next(), Some('\u{e9}'));
    assert_eq!(source.next(), Some('\u{1F600}'));
    assert_eq!(source.next(), None);
    assert_eq!(source.next(), None);

    let mut source = Source::from_chars(vec!['x', 'y']);
    assert_eq!(source.next(), Some('x'));
    assert_eq!(source.next(), Some('y'));
    assert_eq!(source.next(), None);

    assert_eq!(Source::new("").next(), None);
}

#[test]
fn next_reads_one_character_into_the_lookahead() {
    let mut source = Source::new("ab");
    let mut lexer = Lexer::new();
    assert!(lexer.first);
    assert_eq!(lexer.look_ch, None);
    lexer.next(&mut source);
    assert!(!lexer.first);
    assert_eq!(lexer.look_ch, Some('a'));
    lexer.next(&mut source);
    assert_eq!(lexer.look_ch, Some('b'));
    lexer.next(&mut source);
    assert_eq!(lexer.look_ch, None);
}

#[test]
fn end_of_input_is_given_again_and_again() {
    let mut source = Source::new(" ");
    let mut lexer = Lexer::new();
    assert_eq!(lexer.lex(&mut source), Ok(Token::EOS));
    assert_eq!(lexer.lex(&mut source), Ok(Token::EOS));
}

#[test]
fn operators_need_no_blank_between_them() {
    assert_eq!(
        tokens("===>=><=<><(/)", false),
        vec![
            Token::Exact,
            Token::EQ,
            Token::GE,
            Token::GT,
            Token::LE,
            Token::NE,
            Token::LT,
            Token::LP,
            Token::Modifier,
            Token::RP,
        ]
    );
}

#[test]
fn blanks_between_tokens_are_skipped() {
    assert_eq!(
        tokens(" \t a \r\n b\n", false),
        vec![simple("a"), simple("b")]
    );
}

#[test]
fn tab_and_carriage_return_do_not_end_a_bare_word() {
    assert_eq!(tokens("a\tb", false), vec![simple("a\tb")]);
    assert_eq!(tokens("a\rb", false), vec![simple("a\rb")]);
    assert_eq!(tokens("a\nb", false), vec![simple("a"), simple("b")]);
}

#[test]
fn bare_word_ends_at_an_operator_or_a_parenthesis() {
    assert_eq!(
        tokens("a=b<c>d/e(f)g", false),
        vec![
            simple("a"),
            Token::EQ,
            simple("b"),
            Token::LT,
            simple("c"),
            Token::GT,
            simple("d"),
            Token::Modifier,
            simple("e"),
            Token::LP,
            simple("f"),
            Token::RP,
            simple("g"),
        ]
    );
}

#[test]
fn backslash_takes_the_next_character_along() {
    assert_eq!(tokens("a\\ b", false), vec![simple("a\\ b")]);
    assert_eq!(tokens("a\\=b", false), vec![simple("a\\=b")]);
    assert_eq!(tokens("a\\\\ b", false), vec![simple("a\\\\"), simple("b")]);
    assert_eq!(tokens("\\", false), vec![simple("\\")]);
    assert_eq!(tokens("\"a\\\\\"b", false), vec![simple("a\\\\"), simple("b")]);
}

#[test]
fn quoted_string_is_kept_as_written() {
    assert_eq!(tokens("\"abc\\\"d\"", false), vec![simple("abc\\\"d")]);
    assert_eq!(tokens("\"a b=(c)\"", false), vec![simple("a b=(c)")]);
    assert_eq!(tokens("\"and\"", false), vec![simple("and")]);
    assert_eq!(tokens("\"dc.title\"", true), vec![simple("dc.title")]);
    assert_eq!(tokens("\"\"", false), vec![simple("")]);
    assert_eq!(tokens("\"a\"\"b\"", false), vec![simple("a"), simple("b")]);
}

#[test]
fn quoted_string_may_end_with_the_input() {
    assert_eq!(tokens("\"abc", false), vec![simple("abc")]);
    assert_eq!(tokens("\"", false), vec![simple("")]);
    assert_eq!(tokens("\"abc\\", false), vec![simple("abc\\")]);
}

#[test]
fn quote_inside_a_bare_word_is_an_ordinary_character() {
    assert_eq!(tokens("a\"b c\"", false), vec![simple("a\"b"), simple("c\"")]);
}

#[test]
fn dotted_word_is_a_name_unless_the_dot_is_escaped() {
    assert_eq!(tokens("dc.title", false), vec![name("dc.title")]);
    assert_eq!(tokens(".", false), vec![name(".")]);
    assert_eq!(tokens("a\\.b", false), vec![simple("a\\.b")]);
    assert_eq!(tokens("a\\.b.c", false), vec![name("a\\.b.c")]);
}

#[test]
fn relation_names_are_names_in_any_case() {
    assert_eq!(
        tokens("all ANY Adj alls", false),
        vec![name("all"), name("ANY"), name("Adj"), simple("alls")]
    );
}

#[test]
fn keywords_are_found_in_any_case_and_only_whole() {
    assert_eq!(
        tokens("AND oR nOt PROX SortBy", false),
        vec![
            Token::And(String::from("AND")),
            Token::Or(String::from("oR")),
            Token::Not(String::from("nOt")),
            Token::Prox(String::from("PROX")),
            Token::Sortby(String::from("SortBy")),
        ]
    );
    assert_eq!(
        tokens("andy o nota proxy sort by", false),
        vec![
            simple("andy"),
            simple("o"),
            simple("nota"),
            simple("proxy"),
            simple("sort"),
            simple("by"),
        ]
    );
    assert_eq!(tokens("\u{212A}", false), vec![simple("\u{212A}")]);
    assert_eq!(tokens("\u{ff41}nd", false), vec![simple("\u{ff41}nd")]);
}

#[test]
fn strict_mode_turns_words_into_names_but_leaves_keywords() {
    assert_eq!(
        tokens("foo and \"bar\" sortby", true),
        vec![
            name("foo"),
            Token::And(String::from("and")),
            simple("bar"),
            Token::Sortby(String::from("sortby")),
        ]
    );
}

#[test]
fn setting_strict_leaves_the_lookahead_alone() {
    let mut source = Source::new("ab");
    let mut lexer = Lexer::new();
    lexer.next(&mut source);
    lexer.strict(true);
    assert!(lexer.strict);
    assert!(!lexer.first);
    assert_eq!(lexer.look_ch, Some('a'));
    assert_eq!(lexer.lex(&mut source), Ok(name("ab")));
}
