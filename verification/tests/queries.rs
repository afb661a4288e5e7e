use cql_parser::error::ParseError;
use cql_parser::node::{CqlNode, St};
use cql_parser::parser::Parser;
use cql_parser::source::Source;
use std::rc::Rc;

fn parse(text: &str) -> Result<CqlNode, ParseError> {
    Parser::new().parse(&mut Source::new(text))
}

fn parse_strict(text: &str) -> Result<CqlNode, ParseError> {
    let mut parser = Parser::new();
    parser.strict(true);
    parser.parse(&mut Source::new(text))
}

fn clause(index: &str, relation: &str, term: &str) -> CqlNode {
    CqlNode::St(CqlNode::mk_sc(index, relation, Some(term), None))
}

fn word(term: &str) -> CqlNode {
    clause("cql.serverChoice", "=", term)
}

fn modifier(name: &str, relation: &str, value: Option<&str>) -> Option<Rc<St>> {
    Some(Rc::new(CqlNode::mk_sc(name, relation, value, None)))
}

fn join(op: &str, left: CqlNode, right: CqlNode) -> CqlNode {
    CqlNode::mk_boolean(op, Box::new(left), Box::new(right), None)
}

fn root(search: CqlNode) -> CqlNode {
    CqlNode::mk_root(Box::new(search), Vec::new())
}

#[test]
fn bare_word_is_searched_under_the_default_relation() {
    assert_eq!(parse("foo"), Ok(root(word("foo"))));
    assert_eq!(parse(" \t\r\n foo \n"), Ok(root(word("foo"))));
    assert_eq!(parse("foo\t"), Ok(root(word("foo\t"))));
    assert_eq!(parse("x\\y"), Ok(root(word("x\\y"))));
    assert_eq!(parse("a\"b"), Ok(root(word("a\"b"))));
}

#[test]
fn bare_word_result_has_the_documented_fields() {
    match parse("foo") {
        Ok(CqlNode::Root(r)) => {
            assert!(r.sort.is_empty());
            match *r.search {
                CqlNode::St(st) => {
                    assert_eq!(st.index, "cql.serverChoice");
                    assert_eq!(st.relation, "=");
                    assert_eq!(st.term, Some(String::from("foo")));
                    assert_eq!(st.index_uri, None);
                    assert_eq!(st.relation_uri, None);
                    assert!(st.modifiers.is_none());
                }
                _ => panic!("no search clause"),
            }
        }
        _ => panic!("no root"),
    }
}

#[test]
fn keyword_alone_is_a_term() {
    assert_eq!(parse("and"), Ok(root(word("and"))));
    assert_eq!(parse("OR"), Ok(root(word("OR"))));
    assert_eq!(parse("sortby"), Ok(root(word("sortby"))));
    assert_eq!(parse("adj"), Ok(root(word("adj"))));
    assert_eq!(parse("dc.title"), Ok(root(word("dc.title"))));
    assert_eq!(parse_strict("foo"), Ok(root(word("foo"))));
}

#[test]
fn word_starting_with_a_quote_is_a_quoted_string() {
    assert_eq!(parse("\"abc"), Ok(root(word("abc"))));
    assert_eq!(parse("\"a b\""), Ok(root(word("a b"))));
    assert_eq!(parse("\"abc\\\"d\""), Ok(root(word("abc\\\"d"))));
    assert_eq!(parse("\"\""), Ok(root(word(""))));
}

#[test]
fn index_relation_term() {
    assert_eq!(parse("ti = computer"), Ok(root(clause("ti", "=", "computer"))));
    assert_eq!(parse("ti=computer"), Ok(root(clause("ti", "=", "computer"))));
    assert_eq!(parse("ti == computer"), Ok(root(clause("ti", "==", "computer"))));
    assert_eq!(parse("ti > computer"), Ok(root(clause("ti", ">", "computer"))));
    assert_eq!(parse("ti >= computer"), Ok(root(clause("ti", ">=", "computer"))));
    assert_eq!(parse("ti < computer"), Ok(root(clause("ti", "<", "computer"))));
    assert_eq!(parse("ti <= computer"), Ok(root(clause("ti", "<=", "computer"))));
    assert_eq!(parse("ti <> computer"), Ok(root(clause("ti", "<>", "computer"))));
    assert_eq!(parse("ti adj computer"), Ok(root(clause("ti", "adj", "computer"))));
    assert_eq!(parse("ti cql.any computer"), Ok(root(clause("ti", "cql.any", "computer"))));
    assert_eq!(parse("and = or"), Ok(root(clause("and", "=", "or"))));
    assert_eq!(parse_strict("ti = computer"), Ok(root(clause("ti", "=", "computer"))));
}

#[test]
fn strict_mode_reads_every_bare_word_as_a_name() {
    assert_eq!(parse("foo equals x"), Err(ParseError));
    assert_eq!(parse_strict("foo equals x"), Ok(root(clause("foo", "equals", "x"))));
    assert_eq!(parse_strict("foo \"equals\" x"), Err(ParseError));
    assert_eq!(
        parse_strict("a and b"),
        Ok(root(join("and", word("a"), word("b"))))
    );
}

#[test]
fn chained_relations_keep_the_last_index() {
    assert_eq!(parse("a = b = c"), Ok(root(clause("b", "=", "c"))));
}

#[test]
fn parentheses_are_transparent() {
    let plain = parse("ti = computer");
    assert!(plain.is_ok());
    assert_eq!(parse("(ti = computer)"), plain);
    assert_eq!(parse("((ti = computer))"), plain);
    assert_eq!(parse("ti = (computer)"), plain);
    assert_eq!(parse("(a and b)"), parse("a and b"));
    assert_eq!(parse("((foo))"), parse("foo"));
}

#[test]
fn parentheses_override_the_left_fold() {
    assert_eq!(
        parse("a and (b or c)"),
        Ok(root(join("and", word("a"), join("or", word("b"), word("c")))))
    );
}

#[test]
fn relation_reaches_into_parentheses_but_not_past_an_operator() {
    assert_eq!(
        parse("ti = (a and b)"),
        Ok(root(join("and", clause("ti", "=", "a"), clause("ti", "=", "b"))))
    );
    assert_eq!(
        parse("ti = a and b"),
        Ok(root(join("and", clause("ti", "=", "a"), word("b"))))
    );
}

#[test]
fn boolean_chain_folds_to_the_left() {
    assert_eq!(
        parse("a and b and c"),
        Ok(root(join("and", join("and", word("a"), word("b")), word("c"))))
    );
    assert_eq!(
        parse("a or b NOT c prox d"),
        Ok(root(join(
            "prox",
            join("NOT", join("or", word("a"), word("b")), word("c")),
            word("d")
        )))
    );
    assert_ne!(
        parse("a and b and c"),
        Ok(root(join("and", word("a"), join("and", word("b"), word("c")))))
    );
}

#[test]
fn boolean_keeps_the_case_of_its_operator() {
    match parse("a AnD b") {
        Ok(CqlNode::Root(r)) => match *r.search {
            CqlNode::Boolean(b) => {
                assert_eq!(b.value, "AnD");
                assert_eq!(*b.left, word("a"));
                assert_eq!(*b.right, word("b"));
                assert!(b.modifiers.is_none());
            }
            _ => panic!("no boolean"),
        },
        _ => panic!("no root"),
    }
}

#[test]
fn only_the_last_modifier_of_a_chain_is_kept() {
    let expected = CqlNode::mk_boolean(
        "and",
        Box::new(word("a")),
        Box::new(word("b")),
        modifier("x2", "=", Some("y2")),
    );
    assert_eq!(parse("a and/x1=y1/x2=y2 b"), Ok(root(expected)));

    let expected = CqlNode::mk_boolean(
        "and",
        Box::new(word("a")),
        Box::new(word("b")),
        modifier("x1", "=", Some("y1")),
    );
    assert_eq!(parse("a and/x1=y1 b"), Ok(root(expected)));

    let expected = CqlNode::St(CqlNode::mk_sc(
        "ti",
        "=",
        Some("computer"),
        modifier("b", "=", Some("c")),
    ));
    assert_eq!(parse("ti = /a/b=c computer"), Ok(root(expected)));

    let expected = CqlNode::St(CqlNode::mk_sc(
        "ti",
        "=",
        Some("computer"),
        modifier("b", "", None),
    ));
    assert_eq!(parse("ti = /a>=1/b computer"), Ok(root(expected)));
}

#[test]
fn modifier_is_shared_by_the_terms_under_its_relation() {
    match parse("ti =/stem (a and b)") {
        Ok(CqlNode::Root(r)) => match *r.search {
            CqlNode::Boolean(b) => match (*b.left, *b.right) {
                (CqlNode::St(left), CqlNode::St(right)) => {
                    assert_eq!(left.index, "ti");
                    assert_eq!(left.term, Some(String::from("a")));
                    assert_eq!(right.index, "ti");
                    assert_eq!(right.term, Some(String::from("b")));
                    let m1 = left.modifiers.expect("left has no modifier");
                    let m2 = right.modifiers.expect("right has no modifier");
                    assert_eq!(*m1, CqlNode::mk_sc("stem", "", None, None));
                    assert!(Rc::ptr_eq(&m1, &m2));
                }
                _ => panic!("no search clauses"),
            },
            _ => panic!("no boolean"),
        },
        _ => panic!("no root"),
    }
}

#[test]
fn copy_with_a_term_keeps_everything_else() {
    let m = Rc::new(CqlNode::mk_sc("stem", "", None, None));
    let st = CqlNode::mk_sc("ti", "any", None, Some(Rc::clone(&m)));
    match CqlNode::mk_sc_dup(&st, "house") {
        CqlNode::St(copy) => {
            assert_eq!(copy.index, "ti");
            assert_eq!(copy.relation, "any");
            assert_eq!(copy.term, Some(String::from("house")));
            assert_eq!(copy.index_uri, None);
            assert_eq!(copy.relation_uri, None);
            assert!(Rc::ptr_eq(&copy.modifiers.expect("no modifier"), &m));
        }
        _ => panic!("no search clause"),
    }
    assert_eq!(st.term, None);
}

#[test]
fn malformed_queries_are_rejected() {
    assert_eq!(parse("ti ="), Err(ParseError));
    assert_eq!(parse("(and"), Err(ParseError));
    assert_eq!(parse("ti / x="), Err(ParseError));
    assert_eq!(parse("ti = /"), Err(ParseError));
    assert_eq!(parse(")"), Err(ParseError));
    assert_eq!(parse("="), Err(ParseError));
    assert_eq!(parse("/"), Err(ParseError));
    assert_eq!(parse("()"), Err(ParseError));
    assert_eq!(parse("(a"), Err(ParseError));
    assert_eq!(parse("a)"), Err(ParseError));
    assert_eq!(parse("a b"), Err(ParseError));
    assert_eq!(parse("a and"), Err(ParseError));
    assert_eq!(parse("a and/ b"), Err(ParseError));
    assert_eq!(parse("a sortby title ="), Err(ParseError));
    assert_eq!(parse("(a sortby title)"), Err(ParseError));
}

#[test]
fn blank_text_is_rejected() {
    assert_eq!(parse(""), Err(ParseError));
    assert_eq!(parse(" "), Err(ParseError));
    assert_eq!(parse(" \t\r\n "), Err(ParseError));
    assert_eq!(parse_strict(""), Err(ParseError));
}

#[test]
fn sort_keys_follow_the_query() {
    let expected = CqlNode::mk_root(
        Box::new(word("a")),
        vec![
            CqlNode::mk_sc("title", "", None, modifier("b", "", None)),
            CqlNode::mk_sc("date", "", None, modifier("x", "=", Some("y"))),
        ],
    );
    assert_eq!(parse("a sortby title/a/b date/x=y"), Ok(expected));

    let expected = CqlNode::mk_root(
        Box::new(word("a")),
        vec![
            CqlNode::mk_sc("title", "", None, None),
            CqlNode::mk_sc("date", "", None, None),
        ],
    );
    assert_eq!(parse("a sortby title date"), Ok(expected));

    match parse("a sortby title/a/b date/x=y") {
        Ok(CqlNode::Root(r)) => {
            assert_eq!(r.sort.len(), 2);
            assert_eq!(r.sort[0].index, "title");
            assert_eq!(r.sort[0].term, None);
            assert_eq!(r.sort[0].relation, "");
            assert_eq!(r.sort[1].index, "date");
        }
        _ => panic!("no root"),
    }
}

#[test]
fn sortby_without_keys_gives_no_keys() {
    assert_eq!(parse("a sortby"), Ok(root(word("a"))));
    assert_eq!(
        parse("a SortBy sortby"),
        Ok(CqlNode::mk_root(
            Box::new(word("a")),
            vec![CqlNode::mk_sc("sortby", "", None, None)]
        ))
    );
}

#[test]
fn parser_starts_afresh_with_every_query() {
    let mut parser = Parser::new();
    assert_eq!(parser.parse(&mut Source::new("(a")), Err(ParseError));
    assert_eq!(parser.parse(&mut Source::new("b")), Ok(root(word("b"))));
    assert_eq!(parser.parse(&mut Source::new("b")), Ok(root(word("b"))));
    parser.strict(true);
    assert_eq!(
        parser.parse(&mut Source::new("a b c")),
        Ok(root(clause("a", "b", "c")))
    );
    parser.strict(false);
    assert_eq!(parser.parse(&mut Source::new("a b c")), Err(ParseError));
}

#[test]
fn parsed_query_is_read_to_its_end() {
    let mut source = Source::new("a and b  ");
    assert!(Parser::new().parse(&mut source).is_ok());
    assert_eq!(source.next(), None);
}

#[test]
fn error_has_a_message() {
    assert_eq!(ParseError.message(), "malformed query");
}
