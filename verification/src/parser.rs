//! The parser: recursive descent with one token of lookahead.
use crate::error::ParseError;
use crate::grammar::{
    boolean_chain, default_relation, look, modifiers, modifiers_after, modifiers_rest, parse_text,
    parsed_is_query, query, scoped_clause, search_clause, search_clause_rest, sort_keys,
    sort_section, Parsed,
};
use crate::lexer::Lexer;
use crate::lexical::{first_token_rest, tokens};
use crate::node::{keys_of, modifier_of, text_of, CqlNode, St, StView};
use crate::source::Source;
use crate::token::{Token, TokenView};
use std::rc::Rc;
use vstd::prelude::*;

verus! {

/// A parser of queries. One parser may parse many queries, one after the
/// other; all it keeps from one to the next is its strict mode.
pub struct Parser {
    look: Token,
    lexer: Lexer,
}

impl Parser {
    /// Whether the parser is in strict mode, in which every bare word that
    /// is no keyword is read as a name.
    pub closed spec fn is_strict(&self) -> bool {
        self.lexer.strict
    }

    /// The tokens that are still to be read, where `rest` is what the source
    /// has left: the lookahead token and the tokens of what the lexer has
    /// pending.
    spec fn ahead(&self, rest: Seq<char>) -> Seq<TokenView> {
        if self.look@ is EOS {
            Seq::empty()
        } else {
            seq![self.look@] + tokens(self.lexer.pending(rest), self.lexer.strict)
        }
    }

    /// Whether the parser is between two tokens of the source, whose rest is
    /// `rest`.
    spec fn ready(&self, rest: Seq<char>) -> bool {
        &&& !self.lexer.first
        &&& self.lexer.in_step(rest)
        &&& self.look@ is EOS ==> self.lexer.pending(rest).len() == 0
    }

    /// A parser that is not strict.
    pub fn new() -> (parser: Parser)
        ensures
            !parser.is_strict(),
    {
        Parser { look: Token::EOS, lexer: Lexer::new() }
    }

    /// Sets the strict mode.
    pub fn strict(&mut self, strict: bool)
        ensures
            final(self).is_strict() == strict,
    {
        self.lexer.strict(strict);
    }

    /// Takes the lookahead token as read and fetches the next one.
    fn advance(&mut self, get: &mut Source)
        requires
            old(self).ready(old(get)@),
            !(old(self).look@ is EOS),
        ensures
            final(self).ready(final(get)@),
            final(get).read_on_from(old(get)),
            final(self).lexer.strict == old(self).lexer.strict,
            final(self).ahead(final(get)@) == old(self).ahead(old(get)@).drop_first(),
            look(final(self).ahead(final(get)@)) == final(self).look@,
    {
        let ghost p = self.lexer.pending(get@);
        proof {
            first_token_rest(p, self.lexer.strict);
        }
        match self.lexer.lex(get) {
            Ok(token) => {
                self.look = token;
            },
            Err(_) => {},
        }
        assert(self.ahead(get@) =~= old(self).ahead(old(get)@).drop_first());
    }

    /// The text of the lookahead token where it can stand as a term.
    fn search_term(&self) -> (term: Option<String>)
        ensures
            text_of(term) == self.look@.term_text(),
    {
        match &self.look {
            Token::SimpleString(name) => Some(name.clone()),
            Token::PrefixName(name) => Some(name.clone()),
            Token::And(name) => Some(name.clone()),
            Token::Or(name) => Some(name.clone()),
            Token::Not(name) => Some(name.clone()),
            Token::Prox(name) => Some(name.clone()),
            Token::Sortby(name) => Some(name.clone()),
            _ => None,
        }
    }

    /// The text of the lookahead token where it is a symbolic relation.
    fn relation_symbol(&self) -> (symbol: Option<String>)
        ensures
            text_of(symbol) == self.look@.symbol_text(),
    {
        let lead = match &self.look {
            Token::EQ => "=",
            Token::GT => ">",
            Token::LT => "<",
            Token::GE => ">=",
            Token::LE => "<=",
            Token::NE => "<>",
            Token::Exact => "==",
            _ => {
                return None;
            },
        };
        Some(lead.to_owned())
    }

    /// The text of the lookahead token where it is a relation: a symbolic
    /// one, or a name.
    fn relation(&self) -> (relation: Option<String>)
        ensures
            text_of(relation) == self.look@.relation_text(),
    {
        if let Some(lead) = self.relation_symbol() {
            return Some(lead);
        }
        if let Token::PrefixName(name) = &self.look {
            return Some(name.clone());
        }
        None
    }

    /// The text of the lookahead token where it is a boolean operator.
    fn boolean(&self) -> (op: Option<String>)
        ensures
            text_of(op) == self.look@.boolean_text(),
    {
        match &self.look {
            Token::And(name) => Some(name.clone()),
            Token::Or(name) => Some(name.clone()),
            Token::Not(name) => Some(name.clone()),
            Token::Prox(name) => Some(name.clone()),
            _ => None,
        }
    }

    /// Reads a chain of modifiers and gives the last of them.
    fn modifiers(&mut self, get: &mut Source) -> (res: Result<Option<Rc<St>>, ParseError>)
        requires
            old(self).ready(old(get)@),
        ensures
            final(self).ready(final(get)@),
            final(get).read_on_from(old(get)),
            final(self).lexer.strict == old(self).lexer.strict,
            match res {
                Ok(found) => modifiers(old(self).ahead(old(get)@)) == Some(
                    (Parsed {
                        value: modifier_of(found),
                        rest: final(self).ahead(final(get)@),
                    }),
                ),
                Err(_) => modifiers(old(self).ahead(old(get)@)) is None,
            },
    {
        let ghost start = self.ahead(get@);
        let mut res: Option<Rc<St>> = None;
        proof {
            use_type_invariant(&*get);
        }
        loop
            invariant
                self.ready(get@),
                get.read_on_from(old(get)),
                self.lexer.strict == old(self).lexer.strict,
                look(self.ahead(get@)) == self.look@,
                start == old(self).ahead(old(get)@),
                modifiers_after(self.ahead(get@), modifier_of(res)) == modifiers(start),
            ensures
                !(self.look@ is Modifier),
            decreases self.ahead(get@).len(),
        {
            match &self.look {
                Token::Modifier => {},
                _ => {
                    break ;
                },
            }
            self.advance(get);
            if let Some(modifier) = self.search_term() {
                self.advance(get);
                if let Some(relation) = self.relation_symbol() {
                    self.advance(get);
                    if let Some(value) = self.search_term() {
                        res = Some(
                            Rc::new(
                                CqlNode::mk_sc(
                                    modifier.as_str(),
                                    relation.as_str(),
                                    Some(value.as_str()),
                                    None,
                                ),
                            ),
                        );
                        self.advance(get);
                    } else {
                        return Err(ParseError);
                    }
                } else {
                    res = Some(Rc::new(CqlNode::mk_sc(modifier.as_str(), "", None, None)));
                }
            } else {
                return Err(ParseError);
            }
        }
        Ok(res)
    }

    /// Reads a search clause under the relation `rel`.
    fn search_clause(&mut self, get: &mut Source, rel: &St) -> (res: Result<CqlNode, ParseError>)
        requires
            old(self).ready(old(get)@),
            look(old(self).ahead(old(get)@)) == old(self).look@,
        ensures
            final(self).ready(final(get)@),
            final(get).read_on_from(old(get)),
            final(self).lexer.strict == old(self).lexer.strict,
            look(final(self).ahead(final(get)@)) == final(self).look@,
            match res {
                Ok(node) => search_clause(old(self).ahead(old(get)@), rel@) == Some(
                    (Parsed { value: node@, rest: final(self).ahead(final(get)@) }),
                ),
                Err(_) => search_clause(old(self).ahead(old(get)@), rel@) is None,
            },
        decreases old(self).ahead(old(get)@).len(), 0nat,
    {
        proof {
            use_type_invariant(&*get);
        }
        if let Token::LP = &self.look {
            self.advance(get);
            let res = match self.cql_query(get, rel) {
                Ok(res) => res,
                Err(e) => {
                    return Err(e);
                },
            };
            match &self.look {
                Token::RP => {},
                _ => {
                    return Err(ParseError);
                },
            }
            self.advance(get);
            return Ok(res);
        }
        let n = self.search_term();
        if let Some(n) = n {
            self.advance(get);
            if let Some(relation) = self.relation() {
                self.advance(get);
                proof {
                    modifiers_rest(self.ahead(get@), None);
                }
                let modifiers = match self.modifiers(get) {
                    Ok(modifiers) => modifiers,
                    Err(e) => {
                        return Err(e);
                    },
                };
                let rel = CqlNode::mk_sc(n.as_str(), relation.as_str(), None, modifiers);
                return self.search_clause(get, &rel);
            }
            return Ok(CqlNode::mk_sc_dup(rel, n.as_str()));
        }
        Err(ParseError)
    }

    /// Reads a scoped clause: search clauses under the relation `rel`,
    /// joined by boolean operators, folded to the left.
    fn scoped_clause(&mut self, get: &mut Source, rel: &St) -> (res: Result<CqlNode, ParseError>)
        requires
            old(self).ready(old(get)@),
            look(old(self).ahead(old(get)@)) == old(self).look@,
        ensures
            final(self).ready(final(get)@),
            final(get).read_on_from(old(get)),
            final(self).lexer.strict == old(self).lexer.strict,
            look(final(self).ahead(final(get)@)) == final(self).look@,
            match res {
                Ok(node) => scoped_clause(old(self).ahead(old(get)@), rel@) == Some(
                    (Parsed { value: node@, rest: final(self).ahead(final(get)@) }),
                ),
                Err(_) => scoped_clause(old(self).ahead(old(get)@), rel@) is None,
            },
        decreases old(self).ahead(old(get)@).len(), 2nat,
    {
        let ghost start = self.ahead(get@);
        proof {
            search_clause_rest(start, rel@);
        }
        let mut left = match self.search_clause(get, rel) {
            Ok(left) => left,
            Err(e) => {
                return Err(e);
            },
        };
        loop
            invariant
                self.ready(get@),
                get.read_on_from(old(get)),
                self.lexer.strict == old(self).lexer.strict,
                look(self.ahead(get@)) == self.look@,
                self.ahead(get@).len() < start.len(),
                start == old(self).ahead(old(get)@),
                boolean_chain(left@, self.ahead(get@), rel@) == scoped_clause(start, rel@),
            ensures
                self.look@.boolean_text() is None,
            decreases self.ahead(get@).len(),
        {
            let op = match self.boolean() {
                Some(op) => op,
                None => {
                    break ;
                },
            };
            self.advance(get);
            proof {
                modifiers_rest(self.ahead(get@), None);
            }
            let modifiers = match self.modifiers(get) {
                Ok(modifiers) => modifiers,
                Err(e) => {
                    return Err(e);
                },
            };
            proof {
                search_clause_rest(self.ahead(get@), rel@);
            }
            let right = match self.search_clause(get, rel) {
                Ok(right) => right,
                Err(e) => {
                    return Err(e);
                },
            };
            left = CqlNode::mk_boolean(op.as_str(), Box::new(left), Box::new(right), modifiers);
        }
        Ok(left)
    }

    /// Reads a query without its sort keys.
    fn cql_query(&mut self, get: &mut Source, rel: &St) -> (res: Result<CqlNode, ParseError>)
        requires
            old(self).ready(old(get)@),
            look(old(self).ahead(old(get)@)) == old(self).look@,
        ensures
            final(self).ready(final(get)@),
            final(get).read_on_from(old(get)),
            final(self).lexer.strict == old(self).lexer.strict,
            look(final(self).ahead(final(get)@)) == final(self).look@,
            match res {
                Ok(node) => query(old(self).ahead(old(get)@), rel@) == Some(
                    (Parsed { value: node@, rest: final(self).ahead(final(get)@) }),
                ),
                Err(_) => query(old(self).ahead(old(get)@), rel@) is None,
            },
        decreases old(self).ahead(old(get)@).len(), 3nat,
    {
        let res = match self.scoped_clause(get, rel) {
            Ok(res) => res,
            Err(e) => {
                return Err(e);
            },
        };
        Ok(res)
    }

    /// Parses the query that `get` holds.
    ///
    /// The result is the tree of the whole text, with a root at its top, or
    /// the error where the text is no query. Whatever the parser read before
    /// plays no part. A query that was parsed has been read to its end.
    pub fn parse(&mut self, get: &mut Source) -> (res: Result<CqlNode, ParseError>)
        ensures
            final(self).is_strict() == old(self).is_strict(),
            final(get).read_on_from(old(get)),
            match res {
                Ok(node) => parse_text(old(get)@, old(self).is_strict()) == Some(node@)
                    && node@.is_query() && final(get)@.len() == 0,
                Err(_) => parse_text(old(get)@, old(self).is_strict()) is None,
            },
    {
        let ghost text = get@;
        self.lexer.next(get);
        proof {
            first_token_rest(text, self.lexer.strict);
            parsed_is_query(text, self.lexer.strict);
        }
        match self.lexer.lex(get) {
            Ok(token) => {
                self.look = token;
            },
            Err(_) => {},
        }
        assert(self.ahead(get@) =~= tokens(text, self.lexer.strict));
        let rel = CqlNode::mk_sc("cql.serverChoice", "=", None, None);
        let search = match self.cql_query(get, &rel) {
            Ok(search) => search,
            Err(e) => {
                return Err(e);
            },
        };
        let ghost after = self.ahead(get@);
        let mut sort: Vec<St> = Vec::new();
        assert(keys_of(sort@) =~= Seq::<StView>::empty());
        if let Token::Sortby(_sortby) = &self.look {
            self.advance(get);
            loop
                invariant
                    self.ready(get@),
                    get.read_on_from(old(get)),
                    self.lexer.strict == old(self).lexer.strict,
                    look(self.ahead(get@)) == self.look@,
                    text == old(get)@,
                    query(tokens(text, self.lexer.strict), default_relation()) == Some(
                        (Parsed { value: search@, rest: after }),
                    ),
                    sort_keys(self.ahead(get@), keys_of(sort@)) == sort_section(after),
                ensures
                    self.look@.term_text() is None,
                decreases self.ahead(get@).len(),
            {
                let index = match self.search_term() {
                    Some(index) => index,
                    None => {
                        break ;
                    },
                };
                self.advance(get);
                proof {
                    modifiers_rest(self.ahead(get@), None);
                }
                let modifiers = match self.modifiers(get) {
                    Ok(modifiers) => modifiers,
                    Err(e) => {
                        return Err(e);
                    },
                };
                let key = CqlNode::mk_sc(index.as_str(), "", None, modifiers);
                let ghost keys = keys_of(sort@);
                sort.push(key);
                assert(keys_of(sort@) =~= keys.push(key@));
            }
        }
        match &self.look {
            Token::EOS => {},
            _ => {
                return Err(ParseError);
            },
        }
        Ok(CqlNode::mk_root(Box::new(search), sort))
    }
}

} // verus!
