//! The grammar of a query, over the tokens of its text.
//!
//! Every function here is a specification. A rule takes the tokens that are
//! still to be read and gives what it builds together with the tokens that
//! are left, or `None` where the tokens are no instance of the rule. The
//! [`crate::parser::Parser`] is proved to compute [`parse_text`].
use crate::lexical::tokens;
use crate::node::{BooleanView, NodeView, RootView, StView};
use crate::token::TokenView;
use vstd::prelude::*;

verus! {

/// What a rule has built, and the tokens that are left after it.
pub ghost struct Parsed<T> {
    pub value: T,
    pub rest: Seq<TokenView>,
}

/// The token to decide by: the first that is left, or the end of input.
pub open spec fn look(ts: Seq<TokenView>) -> TokenView {
    if ts.len() > 0 {
        ts[0]
    } else {
        TokenView::EOS
    }
}

/// A search clause of the given index, relation, term and modifier, and
/// without URIs.
pub open spec fn search_node(
    index: Seq<char>,
    relation: Seq<char>,
    term: Option<Seq<char>>,
    modifiers: Option<Box<StView>>,
) -> StView {
    StView { index, index_uri: None, term, relation, relation_uri: None, modifiers }
}

/// The relation that holds where a query names none: the index
/// `cql.serverChoice` with the relation `=`.
pub open spec fn default_relation() -> StView {
    search_node("cql.serverChoice"@, "="@, None, None)
}

/// A chain of modifiers, each a `/` and a name, or a `/`, a name, a symbolic
/// relation and a value.
///
/// Of a chain only its last modifier is kept: `found` is the one seen last,
/// and each further modifier takes its place.
pub open spec fn modifiers_after(ts: Seq<TokenView>, found: Option<Box<StView>>) -> Option<
    Parsed<Option<Box<StView>>>,
>
    decreases ts.len(),
{
    if look(ts) is Modifier {
        let t1 = ts.drop_first();
        match look(t1).term_text() {
            None => None,
            Some(name) => {
                let t2 = t1.drop_first();
                match look(t2).symbol_text() {
                    None => modifiers_after(
                        t2,
                        Some(Box::new(search_node(name, ""@, None, None))),
                    ),
                    Some(relation) => {
                        let t3 = t2.drop_first();
                        match look(t3).term_text() {
                            None => None,
                            Some(value) => modifiers_after(
                                t3.drop_first(),
                                Some(Box::new(search_node(name, relation, Some(value), None))),
                            ),
                        }
                    },
                }
            },
        }
    } else {
        Some(Parsed { value: found, rest: ts })
    }
}

/// A chain of modifiers, which may be empty.
pub open spec fn modifiers(ts: Seq<TokenView>) -> Option<Parsed<Option<Box<StView>>>> {
    modifiers_after(ts, None)
}

/// A search clause under the relation `rel`: a query in parentheses, or a
/// term, or an index, a relation with its modifiers, and a search clause
/// under that relation.
///
/// Here and in the rules below, the tests on the length of what is left are
/// there for the recursion to be well founded; [`search_clause_rest`],
/// [`boolean_chain_rest`] and [`modifiers_rest`] show that they always hold.
pub open spec fn search_clause(ts: Seq<TokenView>, rel: StView) -> Option<Parsed<NodeView>>
    decreases ts.len(), 0nat,
{
    if look(ts) is LP {
        match query(ts.drop_first(), rel) {
            None => None,
            Some(inner) => if look(inner.rest) is RP {
                Some(Parsed { value: inner.value, rest: inner.rest.drop_first() })
            } else {
                None
            },
        }
    } else {
        match look(ts).term_text() {
            None => None,
            Some(word) => {
                let t1 = ts.drop_first();
                match look(t1).relation_text() {
                    None => Some(
                        Parsed { value: NodeView::St(StView { term: Some(word), ..rel }), rest: t1 },
                    ),
                    Some(relation) => match modifiers(t1.drop_first()) {
                        None => None,
                        Some(m) => if m.rest.len() < ts.len() {
                            search_clause(m.rest, search_node(word, relation, None, m.value))
                        } else {
                            None
                        },
                    },
                }
            },
        }
    }
}

/// What follows the first search clause of a scoped clause: boolean
/// operators, each with its modifiers and a search clause under `rel`. The
/// clauses fold to the left: `left` is what was built so far.
pub open spec fn boolean_chain(left: NodeView, ts: Seq<TokenView>, rel: StView) -> Option<
    Parsed<NodeView>,
>
    decreases ts.len(), 1nat,
{
    match look(ts).boolean_text() {
        None => Some(Parsed { value: left, rest: ts }),
        Some(op) => match modifiers(ts.drop_first()) {
            None => None,
            Some(m) => if m.rest.len() < ts.len() {
                match search_clause(m.rest, rel) {
                    None => None,
                    Some(right) => if right.rest.len() < ts.len() {
                        boolean_chain(
                            NodeView::Boolean(
                                BooleanView {
                                    value: op,
                                    left: Box::new(left),
                                    right: Box::new(right.value),
                                    modifiers: m.value,
                                },
                            ),
                            right.rest,
                            rel,
                        )
                    } else {
                        None
                    },
                }
            } else {
                None
            },
        },
    }
}

/// A scoped clause: search clauses joined by boolean operators.
pub open spec fn scoped_clause(ts: Seq<TokenView>, rel: StView) -> Option<Parsed<NodeView>>
    decreases ts.len(), 2nat,
{
    match search_clause(ts, rel) {
        None => None,
        Some(first) => if first.rest.len() <= ts.len() {
            boolean_chain(first.value, first.rest, rel)
        } else {
            None
        },
    }
}

/// A query without its sort keys: a scoped clause.
pub open spec fn query(ts: Seq<TokenView>, rel: StView) -> Option<Parsed<NodeView>>
    decreases ts.len(), 3nat,
{
    scoped_clause(ts, rel)
}

/// The sort keys: terms, each with its modifiers, as many as there are.
/// `found` holds the keys read so far.
pub open spec fn sort_keys(ts: Seq<TokenView>, found: Seq<StView>) -> Option<Parsed<Seq<StView>>>
    decreases ts.len(),
{
    match look(ts).term_text() {
        None => Some(Parsed { value: found, rest: ts }),
        Some(index) => match modifiers(ts.drop_first()) {
            None => None,
            Some(m) => if m.rest.len() < ts.len() {
                sort_keys(m.rest, found.push(search_node(index, ""@, None, m.value)))
            } else {
                None
            },
        },
    }
}

/// The sort section of a query, which may be missing: `sortby` and the sort
/// keys.
pub open spec fn sort_section(ts: Seq<TokenView>) -> Option<Parsed<Seq<StView>>> {
    if look(ts) is Sortby {
        sort_keys(ts.drop_first(), Seq::empty())
    } else {
        Some(Parsed { value: Seq::empty(), rest: ts })
    }
}

/// The tree of a whole query: a query under the default relation, the sort
/// section, and then the end of input.
pub open spec fn parse_tokens(ts: Seq<TokenView>) -> Option<NodeView> {
    match query(ts, default_relation()) {
        None => None,
        Some(q) => match sort_section(q.rest) {
            None => None,
            Some(s) => if s.rest.len() == 0 {
                Some(NodeView::Root(RootView { search: Box::new(q.value), sort: s.value }))
            } else {
                None
            },
        },
    }
}

/// The tree of the query text `s`, or `None` where `s` is malformed.
pub open spec fn parse_text(s: Seq<char>, strict: bool) -> Option<NodeView> {
    parse_tokens(tokens(s, strict))
}

/// What is left after a chain of modifiers is no longer than what the chain
/// was read from.
pub proof fn modifiers_rest(ts: Seq<TokenView>, found: Option<Box<StView>>)
    ensures
        modifiers_after(ts, found) matches Some(m) ==> m.rest.len() <= ts.len(),
    decreases ts.len(),
{
    if look(ts) is Modifier {
        let t1 = ts.drop_first();
        if let Some(name) = look(t1).term_text() {
            let t2 = t1.drop_first();
            match look(t2).symbol_text() {
                None => {
                    modifiers_rest(t2, Some(Box::new(search_node(name, ""@, None, None))));
                },
                Some(relation) => {
                    let t3 = t2.drop_first();
                    if let Some(value) = look(t3).term_text() {
                        modifiers_rest(
                            t3.drop_first(),
                            Some(Box::new(search_node(name, relation, Some(value), None))),
                        );
                    }
                },
            }
        }
    }
}

/// A search clause takes at least one token, and so does every rule that
/// starts with one; a chain of boolean operators may take none.
pub proof fn search_clause_rest(ts: Seq<TokenView>, rel: StView)
    ensures
        search_clause(ts, rel) matches Some(p) ==> p.rest.len() < ts.len(),
        scoped_clause(ts, rel) matches Some(p) ==> p.rest.len() < ts.len(),
        query(ts, rel) matches Some(p) ==> p.rest.len() < ts.len(),
    decreases ts.len(), 1nat,
{
    if look(ts) is LP {
        search_clause_rest(ts.drop_first(), rel);
    } else if let Some(word) = look(ts).term_text() {
        let t1 = ts.drop_first();
        if let Some(relation) = look(t1).relation_text() {
            modifiers_rest(t1.drop_first(), None);
            if let Some(m) = modifiers(t1.drop_first()) {
                search_clause_rest(m.rest, search_node(word, relation, None, m.value));
            }
        }
    }
    if let Some(first) = search_clause(ts, rel) {
        boolean_chain_rest(first.value, first.rest, rel);
    }
}

/// What is left after a chain of boolean operators is no longer than what
/// the chain was read from.
pub proof fn boolean_chain_rest(left: NodeView, ts: Seq<TokenView>, rel: StView)
    ensures
        boolean_chain(left, ts, rel) matches Some(p) ==> p.rest.len() <= ts.len(),
    decreases ts.len(), 0nat,
{
    if let Some(op) = look(ts).boolean_text() {
        modifiers_rest(ts.drop_first(), None);
        if let Some(m) = modifiers(ts.drop_first()) {
            search_clause_rest(m.rest, rel);
            if let Some(right) = search_clause(m.rest, rel) {
                boolean_chain_rest(
                    NodeView::Boolean(
                        BooleanView {
                            value: op,
                            left: Box::new(left),
                            right: Box::new(right.value),
                            modifiers: m.value,
                        },
                    ),
                    right.rest,
                    rel,
                );
            }
        }
    }
}

/// No tree built by a rule of the grammar holds a root below its top.
pub proof fn clauses_are_rootless(ts: Seq<TokenView>, rel: StView)
    ensures
        search_clause(ts, rel) matches Some(p) ==> p.value.rootless(),
        scoped_clause(ts, rel) matches Some(p) ==> p.value.rootless(),
        query(ts, rel) matches Some(p) ==> p.value.rootless(),
    decreases ts.len(), 1nat,
{
    if look(ts) is LP {
        clauses_are_rootless(ts.drop_first(), rel);
    } else if let Some(word) = look(ts).term_text() {
        let t1 = ts.drop_first();
        if let Some(relation) = look(t1).relation_text() {
            if let Some(m) = modifiers(t1.drop_first()) {
                if m.rest.len() < ts.len() {
                    clauses_are_rootless(m.rest, search_node(word, relation, None, m.value));
                }
            }
        }
    }
    if let Some(first) = search_clause(ts, rel) {
        if first.rest.len() <= ts.len() {
            chains_are_rootless(first.value, first.rest, rel);
        }
    }
}

/// A chain of boolean operators after a tree without a root builds a tree
/// without a root.
pub proof fn chains_are_rootless(left: NodeView, ts: Seq<TokenView>, rel: StView)
    requires
        left.rootless(),
    ensures
        boolean_chain(left, ts, rel) matches Some(p) ==> p.value.rootless(),
    decreases ts.len(), 0nat,
{
    if let Some(op) = look(ts).boolean_text() {
        if let Some(m) = modifiers(ts.drop_first()) {
            if m.rest.len() < ts.len() {
                clauses_are_rootless(m.rest, rel);
                if let Some(right) = search_clause(m.rest, rel) {
                    if right.rest.len() < ts.len() {
                        chains_are_rootless(
                            NodeView::Boolean(
                                BooleanView {
                                    value: op,
                                    left: Box::new(left),
                                    right: Box::new(right.value),
                                    modifiers: m.value,
                                },
                            ),
                            right.rest,
                            rel,
                        );
                    }
                }
            }
        }
    }
}

/// Every text that parses gives a query: a root at the top of the tree, and
/// nowhere else in it.
pub proof fn parsed_is_query(s: Seq<char>, strict: bool)
    ensures
        parse_text(s, strict) matches Some(node) ==> node.is_query(),
{
    clauses_are_rootless(tokens(s, strict), default_relation());
}

} // verus!
