use cql_parser::parser::Parser;
use cql_parser::source::Source;

#[test]
fn errors() {
    let mut my = Parser::new();
    let res = my.parse(&mut Source::new("  "));
    assert!(res.is_err());

    let res = my.parse(&mut Source::new("ti ="));
    assert!(res.is_err());

    let res = my.parse(&mut Source::new("and )"));
    assert!(res.is_err());

    let res = my.parse(&mut Source::new("(and"));
    assert!(res.is_err());

    let res = my.parse(&mut Source::new("ti / "));
    assert!(res.is_err());

    let res = my.parse(&mut Source::new("ti / x= "));
    assert!(res.is_err());

    let res = my.parse(&mut Source::new("ti = / "));
    assert!(res.is_err());

    let res = my.parse(&mut Source::new("ti = / x= "));
    assert!(res.is_err());

    let res = my.parse(&mut Source::new("foo equals x"));
    assert!(res.is_err());
}

#[test]
fn ok() {
    let mut my = Parser::new();
    let res = my.parse(&mut Source::new("foo"));
    assert!(res.is_ok());

    let res = my.parse(&mut Source::new("and"));
    assert!(res.is_ok());

    let res = my.parse(&mut Source::new("adj"));
    assert!(res.is_ok());

    let res = my.parse(&mut Source::new("sortby"));
    assert!(res.is_ok());

    let res = my.parse(&mut Source::new("ti adj computer"));
    assert!(res.is_ok());

    let res = my.parse(&mut Source::new("ti = computer"));
    assert!(res.is_ok());

    let res = my.parse(&mut Source::new("ti > computer"));
    assert!(res.is_ok());

    let res = my.parse(&mut Source::new("ti >= computer"));
    assert!(res.is_ok());

    let res = my.parse(&mut Source::new("ti < computer"));
    assert!(res.is_ok());

    let res = my.parse(&mut Source::new("ti <= computer"));
    assert!(res.is_ok());

    let res = my.parse(&mut Source::new("ti <> computer"));
    assert!(res.is_ok());

    let res = my.parse(&mut Source::new("ti == computer"));
    assert!(res.is_ok());

    let res = my.parse(&mut Source::new("ti = /a/b=c computer"));
    assert!(res.is_ok());

    let res = my.parse(&mut Source::new("ti = /a=b computer"));
    assert!(res.is_ok());

    let res = my.parse(&mut Source::new("(ti = computer)"));
    assert!(res.is_ok());

    let res = my.parse(&mut Source::new("((ti = computer))"));
    assert!(res.is_ok());

    let res = my.parse(&mut Source::new("ti = (computer)"));
    assert!(res.is_ok());

    let res = my.parse(&mut Source::new("a and b"));
    assert!(res.is_ok());

    let res = my.parse(&mut Source::new("a and/x1=y1 b"));
    assert!(res.is_ok());

    let res = my.parse(&mut Source::new("a and/x1=y1/x2=y2 b"));
    assert!(res.is_ok());

    let res = my.parse(&mut Source::new("a sortby title"));
    assert!(res.is_ok());

    let res = my.parse(&mut Source::new("a sortby title date"));
    assert!(res.is_ok());

    let res = my.parse(&mut Source::new("a sortby title/a/b date/x=y"));
    assert!(res.is_ok());
}

#[test]
fn parser_strict1() {
    let mut my = Parser::new();
    my.strict(true);
    let res = my.parse(&mut Source::new("foo equals x"));
    assert!(res.is_ok());
}
