//! What holds of every query: laws of the lexical grammar and of the
//! grammar, proved from their definitions.
//!
//! The laws on tokens come first, then the laws on the rules of the
//! grammar, then the laws on whole query texts, which follow from both.
use crate::grammar::{
    boolean_chain, default_relation, look, modifiers, modifiers_after, modifiers_rest, parse_text,
    parse_tokens, query, scoped_clause, search_clause, search_clause_rest, search_node, Parsed,
};
use crate::lexical::{
    ascii_lower, blank_len, blank_len_bound, classify, ends_word, first_token, first_token_rest,
    is_blank, quoted_len, same_ignoring_case, tokens, word_has_dot, word_len, Lexed,
};
use crate::node::{BooleanView, NodeView, RootView, StView};
use crate::token::TokenView;
use vstd::prelude::*;

verus! {

/// A bare word: not empty, without a blank or a character that ends a word,
/// and not starting with a quote.
pub open spec fn is_bare_word(w: Seq<char>) -> bool {
    &&& w.len() > 0
    &&& w[0] != '"'
    &&& forall|i: int| 0 <= i < w.len() ==> !is_blank(#[trigger] w[i]) && !ends_word(w[i])
}

/// Whether every backslash in `w` has a character of `w` after it to take
/// along, so that none reaches for what follows `w`.
pub open spec fn escapes_are_paired(w: Seq<char>) -> bool
    decreases w.len(),
{
    if w.len() == 0 {
        true
    } else if w[0] == '\\' {
        w.len() > 1 && escapes_are_paired(w.drop_first().drop_first())
    } else {
        escapes_are_paired(w.drop_first())
    }
}

/// A simple word: a bare word that stays the same word whatever follows it,
/// as every backslash in it takes a character of the word along.
pub open spec fn is_simple_word(w: Seq<char>) -> bool {
    is_bare_word(w) && escapes_are_paired(w)
}

/// Whether a word is one of the boolean operators, in any case.
pub open spec fn is_boolean_word(w: Seq<char>) -> bool {
    same_ignoring_case(w, "and"@) || same_ignoring_case(w, "or"@) || same_ignoring_case(w, "not"@)
        || same_ignoring_case(w, "prox"@)
}

/// Whether `body` can stand between two quotes as it is written: a
/// backslash goes before every quote in it, and every backslash has a
/// character after it to take along.
pub open spec fn is_quotable(body: Seq<char>) -> bool
    decreases body.len(),
{
    if body.len() == 0 {
        true
    } else if body[0] == '"' {
        false
    } else if body[0] == '\\' {
        body.len() > 1 && is_quotable(body.drop_first().drop_first())
    } else {
        is_quotable(body.drop_first())
    }
}

/// The token that a bare word is read as when it stands alone.
pub open spec fn word_token(w: Seq<char>, strict: bool) -> TokenView {
    classify(w, strict || word_has_dot(w))
}

/// Whether the tokens `x` start with nothing that a rule would read on:
/// they are empty, or start with a closing parenthesis.
pub open spec fn closes(x: Seq<TokenView>) -> bool {
    x.len() == 0 || x[0] is RP
}

/// The tree of a query whose search part is `search` and that has no sort
/// keys.
pub open spec fn unsorted(search: NodeView) -> NodeView {
    NodeView::Root(RootView { search: Box::new(search), sort: Seq::empty() })
}

/// The search clause of the index `index`, the relation `relation` and the
/// term `term`, without modifiers.
pub open spec fn triple(index: Seq<char>, relation: Seq<char>, term: Seq<char>) -> NodeView {
    NodeView::St(search_node(index, relation, Some(term), None))
}

/// The search clause that a bare term stands for at the top of a query.
pub open spec fn word(term: Seq<char>) -> NodeView {
    triple("cql.serverChoice"@, "="@, term)
}

/// Two trees joined by the operator `op`, without modifiers.
pub open spec fn joined(op: Seq<char>, left: NodeView, right: NodeView) -> NodeView {
    NodeView::Boolean(
        BooleanView { value: op, left: Box::new(left), right: Box::new(right), modifiers: None },
    )
}

/// The tokens of a text are its first token and the tokens of what is left
/// after it, up to the end of input.
pub proof fn tokens_unfold(s: Seq<char>, strict: bool)
    ensures
        tokens(s, strict) == if first_token(s, strict).token is EOS {
            Seq::<TokenView>::empty()
        } else {
            seq![first_token(s, strict).token] + tokens(first_token(s, strict).rest, strict)
        },
{
    first_token_rest(s, strict);
}

/// A blank before a text does not change its first token.
pub proof fn leading_blank(c: char, s: Seq<char>, strict: bool)
    requires
        is_blank(c),
    ensures
        first_token(seq![c] + s, strict) == first_token(s, strict),
{
    let t = seq![c] + s;
    assert(t.drop_first() =~= s);
    assert(blank_len(t) == 1 + blank_len(s));
    blank_len_bound(s);
    assert(t.skip(blank_len(t) as int) =~= s.skip(blank_len(s) as int));
}

/// A blank before a text does not change its tokens.
pub proof fn tokens_after_blank(c: char, s: Seq<char>, strict: bool)
    requires
        is_blank(c),
    ensures
        tokens(seq![c] + s, strict) == tokens(s, strict),
{
    leading_blank(c, s, strict);
    tokens_unfold(seq![c] + s, strict);
    tokens_unfold(s, strict);
}

/// A text of blanks alone is one run of blanks.
proof fn blanks_to_the_end(s: Seq<char>)
    requires
        forall|i: int| 0 <= i < s.len() ==> is_blank(#[trigger] s[i]),
    ensures
        blank_len(s) == s.len(),
    decreases s.len(),
{
    if s.len() > 0 {
        assert(is_blank(s[0]));
        assert forall|i: int| 0 <= i < s.drop_first().len() implies is_blank(
            #[trigger] s.drop_first()[i],
        ) by {
            assert(s.drop_first()[i] == s[i + 1]);
        }
        blanks_to_the_end(s.drop_first());
    }
}

/// A word that is followed by the end of the text or by a character that
/// ends a word is as long as it is written, and what follows it adds no dot
/// to it. Where a character follows, no backslash of the word reaches for
/// it.
proof fn word_in_front(w: Seq<char>, rest: Seq<char>)
    requires
        forall|i: int| 0 <= i < w.len() ==> !ends_word(#[trigger] w[i]),
        rest.len() == 0 || ends_word(rest[0]),
        rest.len() == 0 || escapes_are_paired(w),
    ensures
        word_len(w + rest) == w.len(),
        word_has_dot(w + rest) == word_has_dot(w),
    decreases w.len(),
{
    let s = w + rest;
    if w.len() == 0 {
        assert(s =~= rest);
    } else {
        assert(s[0] == w[0]);
        if s[0] == '\\' && s.len() > 1 {
            if rest.len() == 0 {
                assert(s =~= w);
            }
            let v = w.drop_first().drop_first();
            assert(s.drop_first().drop_first() =~= v + rest);
            assert forall|i: int| 0 <= i < v.len() implies !ends_word(#[trigger] v[i]) by {
                assert(v[i] == w[i + 2]);
            }
            word_in_front(v, rest);
        } else {
            let v = w.drop_first();
            assert(s.drop_first() =~= v + rest);
            assert forall|i: int| 0 <= i < v.len() implies !ends_word(#[trigger] v[i]) by {
                assert(v[i] == w[i + 1]);
            }
            word_in_front(v, rest);
        }
    }
}

/// A bare word at the start of a text, followed by the end of the text or
/// by a character that ends a word, is the first token of the text: the
/// token that the word is read as when it stands alone. Whatever kind of
/// token that is, its text is the word as written. Where a character
/// follows, the word is a simple word.
pub proof fn word_is_first_token(w: Seq<char>, rest: Seq<char>, strict: bool)
    requires
        is_bare_word(w),
        rest.len() == 0 || ends_word(rest[0]),
        rest.len() == 0 || is_simple_word(w),
    ensures
        first_token(w + rest, strict) == (Lexed { token: word_token(w, strict), rest }),
        word_token(w, strict).term_text() == Some(w),
        is_boolean_word(w) ==> word_token(w, strict).boolean_text() == Some(w),
{
    let s = w + rest;
    assert(s[0] == w[0]);
    assert(!is_blank(w[0]) && !ends_word(w[0]));
    assert(s.skip(0) =~= s);
    word_in_front(w, rest);
    assert(s.take(w.len() as int) =~= w);
    assert(s.skip(w.len() as int) =~= rest);
}

/// The tokens of a bare word are the word, as one token.
pub proof fn tokens_of_word(w: Seq<char>, strict: bool)
    requires
        is_bare_word(w),
    ensures
        tokens(w, strict) == seq![word_token(w, strict)],
{
    let none = Seq::<char>::empty();
    assert(w + none =~= w);
    word_is_first_token(w, none, strict);
    tokens_unfold(w, strict);
    tokens_unfold(none, strict);
    assert(tokens(w, strict) =~= seq![word_token(w, strict)]);
}

/// The tokens of a simple word and of a text that starts with a character
/// that ends a word are the word, as one token, and the tokens of the text.
pub proof fn tokens_of_word_and_more(w: Seq<char>, more: Seq<char>, strict: bool)
    requires
        is_simple_word(w),
        more.len() > 0,
        ends_word(more[0]),
    ensures
        tokens(w + more, strict) == seq![word_token(w, strict)] + tokens(more, strict),
{
    word_is_first_token(w, more, strict);
    tokens_unfold(w + more, strict);
}

/// The tokens of a simple word, a space and a text are the word, as one
/// token, and the tokens of the text.
pub proof fn tokens_of_word_space_more(w: Seq<char>, more: Seq<char>, strict: bool)
    requires
        is_simple_word(w),
    ensures
        tokens(w + (seq![' '] + more), strict) == seq![word_token(w, strict)] + tokens(
            more,
            strict,
        ),
{
    let rest = seq![' '] + more;
    assert(rest[0] == ' ');
    tokens_of_word_and_more(w, rest, strict);
    tokens_after_blank(' ', more, strict);
}

/// Where a word holds no backslash, every backslash in it is paired.
proof fn no_escape_is_paired(w: Seq<char>)
    requires
        forall|i: int| 0 <= i < w.len() ==> #[trigger] w[i] != '\\',
    ensures
        escapes_are_paired(w),
    decreases w.len(),
{
    if w.len() > 0 {
        let v = w.drop_first();
        assert forall|i: int| 0 <= i < v.len() implies #[trigger] v[i] != '\\' by {
            assert(v[i] == w[i + 1]);
        }
        no_escape_is_paired(v);
    }
}

/// A boolean operator is a simple word.
pub proof fn boolean_word_is_simple(w: Seq<char>)
    requires
        is_boolean_word(w),
    ensures
        is_simple_word(w),
{
    reveal_strlit("and");
    reveal_strlit("or");
    reveal_strlit("not");
    reveal_strlit("prox");
    let k = if same_ignoring_case(w, "and"@) {
        "and"@
    } else if same_ignoring_case(w, "or"@) {
        "or"@
    } else if same_ignoring_case(w, "not"@) {
        "not"@
    } else {
        "prox"@
    };
    assert(same_ignoring_case(w, k));
    assert forall|i: int| 0 <= i < w.len() implies !is_blank(#[trigger] w[i]) && !ends_word(w[i])
        && w[i] != '\\' && w[i] != '"' by {
        assert(ascii_lower(w[i]) == ascii_lower(k[i]));
    }
    no_escape_is_paired(w);
}

/// One of the characters that are a token by themselves, where the text
/// goes on with `rest`: `/`, `(` and `)`.
pub proof fn single_character_tokens(rest: Seq<char>, strict: bool)
    ensures
        first_token(seq!['/'] + rest, strict) == (Lexed { token: TokenView::Modifier, rest }),
        first_token(seq!['('] + rest, strict) == (Lexed { token: TokenView::LP, rest }),
        first_token(seq![')'] + rest, strict) == (Lexed { token: TokenView::RP, rest }),
{
    let a = seq!['/'] + rest;
    assert(a.skip(0) =~= a);
    assert(a.drop_first() =~= rest);
    let b = seq!['('] + rest;
    assert(b.skip(0) =~= b);
    assert(b.drop_first() =~= rest);
    let c = seq![')'] + rest;
    assert(c.skip(0) =~= c);
    assert(c.drop_first() =~= rest);
}

/// A relation symbol `=` that no second `=` follows is the token `=`.
pub proof fn equals_is_first_token(rest: Seq<char>, strict: bool)
    requires
        rest.len() == 0 || rest[0] != '=',
    ensures
        first_token(seq!['='] + rest, strict) == (Lexed { token: TokenView::EQ, rest }),
{
    let s = seq!['='] + rest;
    assert(s.skip(0) =~= s);
    assert(s.drop_first() =~= rest);
}

/// The body of a quoted string ends at the first quote that no backslash
/// takes along.
proof fn quoted_len_of_body(body: Seq<char>, rest: Seq<char>)
    requires
        is_quotable(body),
    ensures
        quoted_len(body + (seq!['"'] + rest)) == body.len(),
    decreases body.len(),
{
    let s = body + (seq!['"'] + rest);
    if body.len() == 0 {
        assert(s[0] == '"');
    } else {
        assert(s[0] == body[0]);
        if body[0] == '\\' {
            let v = body.drop_first().drop_first();
            assert(s.drop_first().drop_first() =~= v + (seq!['"'] + rest));
            quoted_len_of_body(v, rest);
        } else {
            let v = body.drop_first();
            assert(s.drop_first() =~= v + (seq!['"'] + rest));
            quoted_len_of_body(v, rest);
        }
    }
}

/// A quoted string is kept as it is written: between its quotes nothing is
/// unescaped and nothing is dropped, the backslashes stay, and the text goes
/// on after the closing quote.
pub proof fn quoted_string_is_kept(body: Seq<char>, rest: Seq<char>, strict: bool)
    requires
        is_quotable(body),
    ensures
        first_token(seq!['"'] + body + seq!['"'] + rest, strict) == (Lexed {
            token: TokenView::SimpleString(body),
            rest,
        }),
{
    let s = seq!['"'] + body + seq!['"'] + rest;
    let after = body + (seq!['"'] + rest);
    assert(s.skip(0) =~= s);
    assert(s.drop_first() =~= after);
    quoted_len_of_body(body, rest);
    let n = body.len() as int;
    assert(after.take(n) =~= body);
    assert(after.skip(n + 1) =~= rest);
}

/// Of a chain of modifiers only the last is kept: where a chain follows,
/// the modifier read before it plays no part.
pub proof fn last_modifier_wins(
    ts: Seq<TokenView>,
    before: Option<Box<StView>>,
    other: Option<Box<StView>>,
)
    requires
        look(ts) is Modifier,
    ensures
        modifiers_after(ts, before) == modifiers_after(ts, other),
    decreases ts.len(),
{
    let t1 = ts.drop_first();
    if let Some(name) = look(t1).term_text() {
        let t2 = t1.drop_first();
        match look(t2).symbol_text() {
            None => {
                let found = Some(Box::new(search_node(name, ""@, None, None)));
                assert(modifiers_after(ts, before) == modifiers_after(t2, found));
                assert(modifiers_after(ts, other) == modifiers_after(t2, found));
            },
            Some(relation) => {
                let t3 = t2.drop_first();
                if let Some(value) = look(t3).term_text() {
                    let found = Some(Box::new(search_node(name, relation, Some(value), None)));
                    assert(modifiers_after(ts, before) == modifiers_after(t3.drop_first(), found));
                    assert(modifiers_after(ts, other) == modifiers_after(t3.drop_first(), found));
                }
            },
        }
    }
}

/// A single term is a query: it is searched for under the default relation.
pub proof fn term_alone(t: TokenView)
    requires
        t.term_text() is Some,
    ensures
        parse_tokens(seq![t]) == Some(unsorted(word(t.term_text()->0))),
{
    let ts = seq![t];
    let rel = default_relation();
    let none = Seq::<TokenView>::empty();
    assert(ts.drop_first() =~= none);
    let node = word(t.term_text()->0);
    assert(search_clause(ts, rel) == Some(Parsed { value: node, rest: none }));
    assert(boolean_chain(node, none, rel) == Some(Parsed { value: node, rest: none }));
}

/// An index, a relation and a term are a query under any relation: the one
/// search clause of that index, relation and term.
pub proof fn index_relation_term(i: TokenView, r: TokenView, t: TokenView, rel: StView)
    requires
        i.term_text() is Some,
        r.relation_text() is Some,
        t.term_text() is Some,
    ensures
        query(seq![i, r, t], rel) == Some(
            Parsed {
                value: triple(i.term_text()->0, r.relation_text()->0, t.term_text()->0),
                rest: Seq::<TokenView>::empty(),
            },
        ),
        parse_tokens(seq![i, r, t]) == Some(
            unsorted(triple(i.term_text()->0, r.relation_text()->0, t.term_text()->0)),
        ),
{
    let ts = seq![i, r, t];
    let none = Seq::<TokenView>::empty();
    assert(ts.drop_first() =~= seq![r, t]);
    assert(seq![r, t].drop_first() =~= seq![t]);
    assert(seq![t].drop_first() =~= none);
    let inner = search_node(i.term_text()->0, r.relation_text()->0, None, None);
    let node = triple(i.term_text()->0, r.relation_text()->0, t.term_text()->0);
    assert(modifiers(seq![t]) == Some(Parsed { value: None::<Box<StView>>, rest: seq![t] }));
    assert(search_clause(seq![t], inner) == Some(Parsed { value: node, rest: none }));
    assert(search_clause(ts, rel) == Some(Parsed { value: node, rest: none }));
    assert(boolean_chain(node, none, rel) == Some(Parsed { value: node, rest: none }));
    assert(search_clause(ts, default_relation()) == Some(Parsed { value: node, rest: none }));
    assert(boolean_chain(node, none, default_relation()) == Some(
        Parsed { value: node, rest: none },
    ));
}

/// A chain of boolean operators folds to the left: the operator that comes
/// first joins what was built before it with the one search clause that
/// follows it, and the rest of the chain goes on from their join. No
/// operator is set before another.
pub proof fn chain_folds_left(left: NodeView, ts: Seq<TokenView>, rel: StView)
    requires
        look(ts).boolean_text() is Some,
        modifiers(ts.drop_first()) is Some,
        search_clause(modifiers(ts.drop_first())->0.rest, rel) is Some,
    ensures
        boolean_chain(left, ts, rel) == ({
            let m = modifiers(ts.drop_first())->0;
            let right = search_clause(m.rest, rel)->0;
            boolean_chain(
                NodeView::Boolean(
                    BooleanView {
                        value: look(ts).boolean_text()->0,
                        left: Box::new(left),
                        right: Box::new(right.value),
                        modifiers: m.value,
                    },
                ),
                right.rest,
                rel,
            )
        }),
{
    let m = modifiers(ts.drop_first())->0;
    modifiers_rest(ts.drop_first(), None);
    search_clause_rest(m.rest, rel);
}

/// Three terms with a boolean operator between each two of them are a
/// query, and the first operator joins the first two terms.
pub proof fn three_terms_fold_left(
    a: TokenView,
    o1: TokenView,
    b: TokenView,
    o2: TokenView,
    c: TokenView,
)
    requires
        a.term_text() is Some,
        b.term_text() is Some,
        c.term_text() is Some,
        o1.boolean_text() is Some,
        o2.boolean_text() is Some,
    ensures
        parse_tokens(seq![a, o1, b, o2, c]) == Some(
            unsorted(
                joined(
                    o2.boolean_text()->0,
                    joined(o1.boolean_text()->0, word(a.term_text()->0), word(b.term_text()->0)),
                    word(c.term_text()->0),
                ),
            ),
        ),
{
    let rel = default_relation();
    let none = Seq::<TokenView>::empty();
    let t0 = seq![a, o1, b, o2, c];
    let t1 = seq![o1, b, o2, c];
    let t2 = seq![b, o2, c];
    let t3 = seq![o2, c];
    let t4 = seq![c];
    assert(t0.drop_first() =~= t1);
    assert(t1.drop_first() =~= t2);
    assert(t2.drop_first() =~= t3);
    assert(t3.drop_first() =~= t4);
    assert(t4.drop_first() =~= none);
    let na = word(a.term_text()->0);
    let nb = word(b.term_text()->0);
    let nc = word(c.term_text()->0);
    let ab = joined(o1.boolean_text()->0, na, nb);
    let abc = joined(o2.boolean_text()->0, ab, nc);
    assert(search_clause(t0, rel) == Some(Parsed { value: na, rest: t1 }));
    assert(modifiers(t2) == Some(Parsed { value: None::<Box<StView>>, rest: t2 }));
    assert(search_clause(t2, rel) == Some(Parsed { value: nb, rest: t3 }));
    assert(modifiers(t4) == Some(Parsed { value: None::<Box<StView>>, rest: t4 }));
    assert(search_clause(t4, rel) == Some(Parsed { value: nc, rest: none }));
    assert(boolean_chain(abc, none, rel) == Some(Parsed { value: abc, rest: none }));
    assert(boolean_chain(ab, t3, rel) == Some(Parsed { value: abc, rest: none }));
    assert(boolean_chain(na, t1, rel) == Some(Parsed { value: abc, rest: none }));
}

/// A chain of modifiers reads the same before tokens that close it: what it
/// builds is the same, and those tokens are left over as well.
pub proof fn modifiers_extend(ts: Seq<TokenView>, found: Option<Box<StView>>, x: Seq<TokenView>)
    requires
        closes(x),
        modifiers_after(ts, found) is Some,
    ensures
        modifiers_after(ts + x, found) == Some(
            Parsed {
                value: modifiers_after(ts, found)->0.value,
                rest: modifiers_after(ts, found)->0.rest + x,
            },
        ),
    decreases ts.len(),
{
    if look(ts) is Modifier {
        let t1 = ts.drop_first();
        assert((ts + x).drop_first() =~= t1 + x);
        let name = look(t1).term_text()->0;
        let t2 = t1.drop_first();
        assert((t1 + x).drop_first() =~= t2 + x);
        match look(t2).symbol_text() {
            None => {
                assert(look(t2 + x).symbol_text() is None);
                modifiers_extend(t2, Some(Box::new(search_node(name, ""@, None, None))), x);
            },
            Some(relation) => {
                let t3 = t2.drop_first();
                assert((t2 + x).drop_first() =~= t3 + x);
                let value = look(t3).term_text()->0;
                assert((t3 + x).drop_first() =~= t3.drop_first() + x);
                modifiers_extend(
                    t3.drop_first(),
                    Some(Box::new(search_node(name, relation, Some(value), None))),
                    x,
                );
            },
        }
    } else {
        assert(!(look(ts + x) is Modifier));
    }
}

/// A search clause reads the same before tokens that close it: what it
/// builds is the same, and those tokens are left over as well.
pub proof fn search_clause_extends(ts: Seq<TokenView>, rel: StView, x: Seq<TokenView>)
    requires
        closes(x),
        search_clause(ts, rel) is Some,
    ensures
        search_clause(ts + x, rel) == Some(
            Parsed {
                value: search_clause(ts, rel)->0.value,
                rest: search_clause(ts, rel)->0.rest + x,
            },
        ),
    decreases ts.len(), 0nat,
{
    let t1 = ts.drop_first();
    assert(ts.len() > 0);
    assert((ts + x).drop_first() =~= t1 + x);
    assert(look(ts + x) == look(ts));
    if look(ts) is LP {
        query_extends(t1, rel, x);
        let inner = query(t1, rel)->0;
        assert(look(inner.rest + x) == look(inner.rest));
        assert((inner.rest + x).drop_first() =~= inner.rest.drop_first() + x);
    } else {
        let word = look(ts).term_text()->0;
        match look(t1).relation_text() {
            None => {
                assert(look(t1 + x).relation_text() is None);
            },
            Some(relation) => {
                let t2 = t1.drop_first();
                assert(look(t1 + x) == look(t1));
                assert((t1 + x).drop_first() =~= t2 + x);
                modifiers_extend(t2, None, x);
                let m = modifiers(t2)->0;
                search_clause_extends(m.rest, search_node(word, relation, None, m.value), x);
            },
        }
    }
}

/// A chain of boolean operators reads the same before tokens that close it.
pub proof fn chains_extend(left: NodeView, ts: Seq<TokenView>, rel: StView, x: Seq<TokenView>)
    requires
        closes(x),
        boolean_chain(left, ts, rel) is Some,
    ensures
        boolean_chain(left, ts + x, rel) == Some(
            Parsed {
                value: boolean_chain(left, ts, rel)->0.value,
                rest: boolean_chain(left, ts, rel)->0.rest + x,
            },
        ),
    decreases ts.len(), 1nat,
{
    match look(ts).boolean_text() {
        None => {
            assert(look(ts + x).boolean_text() is None);
        },
        Some(op) => {
            let t1 = ts.drop_first();
            assert(look(ts + x) == look(ts));
            assert((ts + x).drop_first() =~= t1 + x);
            modifiers_extend(t1, None, x);
            let m = modifiers(t1)->0;
            search_clause_extends(m.rest, rel, x);
            let right = search_clause(m.rest, rel)->0;
            chains_extend(
                NodeView::Boolean(
                    BooleanView {
                        value: op,
                        left: Box::new(left),
                        right: Box::new(right.value),
                        modifiers: m.value,
                    },
                ),
                right.rest,
                rel,
                x,
            );
        },
    }
}

/// A query without its sort keys reads the same before tokens that close
/// it, and so does a scoped clause.
pub proof fn query_extends(ts: Seq<TokenView>, rel: StView, x: Seq<TokenView>)
    requires
        closes(x),
        query(ts, rel) is Some,
    ensures
        query(ts + x, rel) == Some(
            Parsed { value: query(ts, rel)->0.value, rest: query(ts, rel)->0.rest + x },
        ),
        scoped_clause(ts + x, rel) == query(ts + x, rel),
    decreases ts.len(), 2nat,
{
    search_clause_extends(ts, rel, x);
    search_clause_rest(ts, rel);
    let first = search_clause(ts, rel)->0;
    chains_extend(first.value, first.rest, rel, x);
}

/// Parentheses are transparent: where tokens are, all of them, a query
/// without sort keys, the same tokens in parentheses are the same query,
/// under whatever relation they stand.
pub proof fn parentheses_are_transparent(ts: Seq<TokenView>, rel: StView)
    requires
        query(ts, rel) is Some,
        query(ts, rel)->0.rest.len() == 0,
    ensures
        query(seq![TokenView::LP] + ts + seq![TokenView::RP], rel) == query(ts, rel),
        search_clause(seq![TokenView::LP] + ts + seq![TokenView::RP], rel) == query(ts, rel),
{
    let none = Seq::<TokenView>::empty();
    let close = seq![TokenView::RP];
    let all = seq![TokenView::LP] + ts + close;
    let p = query(ts, rel)->0;
    query_extends(ts, rel, close);
    assert(p.rest + close =~= close);
    assert(all.drop_first() =~= ts + close);
    assert(close.drop_first() =~= none);
    assert(search_clause(all, rel) == Some(Parsed { value: p.value, rest: none }));
    assert(boolean_chain(p.value, none, rel) == Some(Parsed { value: p.value, rest: none }));
    assert(p.rest =~= none);
}

/// Parentheses around a whole query without a sort section change nothing
/// of its tree.
pub proof fn parenthesized_query_parses(ts: Seq<TokenView>)
    requires
        query(ts, default_relation()) is Some,
        query(ts, default_relation())->0.rest.len() == 0,
    ensures
        parse_tokens(seq![TokenView::LP] + ts + seq![TokenView::RP]) == parse_tokens(ts),
{
    parentheses_are_transparent(ts, default_relation());
}

/// A text of blanks alone, the empty text among them, is no query.
pub proof fn blank_text_is_rejected(s: Seq<char>, strict: bool)
    requires
        forall|i: int| 0 <= i < s.len() ==> is_blank(#[trigger] s[i]),
    ensures
        parse_text(s, strict) is None,
{
    blanks_to_the_end(s);
    assert(first_token(s, strict).token is EOS);
    assert(tokens(s, strict) =~= Seq::empty());
}

/// A text that is one bare word is a query: the word is searched for under
/// the default relation, the index `cql.serverChoice` with the relation `=`.
/// This holds of a keyword and of a name too.
pub proof fn bare_word_parses(w: Seq<char>, strict: bool)
    requires
        is_bare_word(w),
    ensures
        parse_text(w, strict) == Some(unsorted(word(w))),
{
    assert(w + Seq::<char>::empty() =~= w);
    word_is_first_token(w, Seq::empty(), strict);
    tokens_of_word(w, strict);
    term_alone(word_token(w, strict));
}

/// The tokens of a simple word, ` = `, a bare word, and a text that is
/// empty or starts with a character that ends a word: the first word, `=`,
/// the second word, and the tokens of that text. Where that text is not
/// empty, the second word is a simple word too.
proof fn tokens_of_triple(index: Seq<char>, term: Seq<char>, more: Seq<char>, strict: bool)
    requires
        is_simple_word(index),
        is_bare_word(term),
        more.len() == 0 || (ends_word(more[0]) && is_simple_word(term)),
    ensures
        tokens(index + " = "@ + term + more, strict) == seq![
            word_token(index, strict),
            TokenView::EQ,
            word_token(term, strict),
        ] + tokens(more, strict),
        word_token(index, strict).term_text() == Some(index),
        word_token(term, strict).term_text() == Some(term),
{
    let s = index + " = "@ + term + more;
    let r3 = term + more;
    let r2 = seq!['='] + (seq![' '] + r3);
    assert(s == index + (seq![' '] + r2)) by {
        reveal_strlit(" = ");
        assert(" = "@ =~= seq![' ', '=', ' ']);
        assert(s =~= index + (seq![' '] + r2));
    }
    tokens_of_word_space_more(index, r2, strict);
    assert(tokens(r2, strict) == seq![TokenView::EQ] + tokens(r3, strict)) by {
        equals_is_first_token(seq![' '] + r3, strict);
        tokens_unfold(r2, strict);
        tokens_after_blank(' ', r3, strict);
    }
    assert(tokens(r3, strict) == seq![word_token(term, strict)] + tokens(more, strict)) by {
        word_is_first_token(term, more, strict);
        tokens_unfold(r3, strict);
    }
    assert(word_token(index, strict).term_text() == Some(index)) by {
        assert(index + Seq::<char>::empty() =~= index);
        word_is_first_token(index, Seq::empty(), strict);
    }
    assert(word_token(term, strict).term_text() == Some(term)) by {
        word_is_first_token(term, more, strict);
    }
    assert(seq![word_token(index, strict)] + (seq![TokenView::EQ] + (seq![
        word_token(term, strict),
    ] + tokens(more, strict))) =~= seq![
        word_token(index, strict),
        TokenView::EQ,
        word_token(term, strict),
    ] + tokens(more, strict));
}

/// A text made of a simple word, ` = ` and a bare word is a query: the
/// search clause with the first word as its index, the relation `=`, and the
/// second word as its term.
pub proof fn index_equals_term_parses(index: Seq<char>, term: Seq<char>, strict: bool)
    requires
        is_simple_word(index),
        is_bare_word(term),
    ensures
        parse_text(index + " = "@ + term, strict) == Some(unsorted(triple(index, "="@, term))),
{
    let none = Seq::<char>::empty();
    let s = index + " = "@ + term;
    tokens_of_triple(index, term, none, strict);
    tokens_unfold(none, strict);
    assert(s + none =~= s);
    let i = word_token(index, strict);
    let t = word_token(term, strict);
    assert(seq![i, TokenView::EQ, t] + Seq::<TokenView>::empty() =~= seq![i, TokenView::EQ, t]);
    index_relation_term(i, TokenView::EQ, t, default_relation());
}

/// Parentheses around such a text, once or twice, change nothing: the tree
/// is that of the text without them.
pub proof fn parenthesized_triple_parses(index: Seq<char>, term: Seq<char>, strict: bool)
    requires
        is_simple_word(index),
        is_simple_word(term),
    ensures
        parse_text("("@ + (index + " = "@ + term) + ")"@, strict) == parse_text(
            index + " = "@ + term,
            strict,
        ),
        parse_text("(("@ + (index + " = "@ + term) + "))"@, strict) == parse_text(
            index + " = "@ + term,
            strict,
        ),
{
    let none = Seq::<char>::empty();
    let rel = default_relation();
    let s = index + " = "@ + term;
    let i = word_token(index, strict);
    let t = word_token(term, strict);
    let ts = seq![i, TokenView::EQ, t];
    let lp = seq![TokenView::LP];
    let rp = seq![TokenView::RP];
    let one = seq![')'];
    let two = seq![')', ')'];
    reveal_strlit("(");
    reveal_strlit("((");
    reveal_strlit(")");
    reveal_strlit("))");
    index_equals_term_parses(index, term, strict);
    index_relation_term(i, TokenView::EQ, t, rel);
    assert(tokens(s, strict) == ts) by {
        tokens_of_triple(index, term, none, strict);
        tokens_unfold(none, strict);
        assert(s + none =~= s);
        assert(ts + Seq::<TokenView>::empty() =~= ts);
    }
    tokens_unfold(none, strict);
    single_character_tokens(none, strict);
    tokens_unfold(one, strict);
    assert(one =~= seq![')'] + none);
    assert(tokens(one, strict) =~= rp);
    single_character_tokens(one, strict);
    tokens_unfold(two, strict);
    assert(two =~= seq![')'] + one);
    assert(tokens(two, strict) =~= rp + rp);
    tokens_of_triple(index, term, one, strict);
    tokens_of_triple(index, term, two, strict);
    let in1 = s + one;
    let in2 = s + two;
    let s1 = "("@ + s + ")"@;
    let s2 = "(("@ + s + "))"@;
    assert(s1 =~= seq!['('] + in1);
    assert(s2 =~= seq!['('] + (seq!['('] + in2));
    single_character_tokens(in1, strict);
    tokens_unfold(seq!['('] + in1, strict);
    single_character_tokens(in2, strict);
    tokens_unfold(seq!['('] + in2, strict);
    single_character_tokens(seq!['('] + in2, strict);
    tokens_unfold(seq!['('] + (seq!['('] + in2), strict);
    assert(tokens(s1, strict) =~= lp + ts + rp);
    assert(tokens(s2, strict) =~= lp + (lp + ts + rp) + rp);
    parentheses_are_transparent(ts, rel);
    parenthesized_query_parses(ts);
    parenthesized_query_parses(lp + ts + rp);
}

/// Five texts with a text `sp` between each two of them, grouped from the
/// right.
proof fn regroup(
    a: Seq<char>,
    b: Seq<char>,
    c: Seq<char>,
    d: Seq<char>,
    e: Seq<char>,
    sp: Seq<char>,
)
    ensures
        a + sp + b + sp + c + sp + d + sp + e == a + (sp + (b + (sp + (c + (sp + (d + (sp
            + e))))))),
{
    assert(a + sp + b + sp + c + sp + d + sp + e =~= a + (sp + (b + (sp + (c + (sp + (d + (sp
        + e))))))));
}

/// The tokens of five words, one space apart: one token for each, where the
/// second and the fourth word are boolean operators.
proof fn tokens_of_five_words(
    a: Seq<char>,
    op1: Seq<char>,
    b: Seq<char>,
    op2: Seq<char>,
    c: Seq<char>,
    strict: bool,
)
    requires
        is_simple_word(a),
        is_simple_word(b),
        is_bare_word(c),
        is_simple_word(op1),
        is_simple_word(op2),
        is_boolean_word(op1),
        is_boolean_word(op2),
    ensures
        tokens(a + " "@ + op1 + " "@ + b + " "@ + op2 + " "@ + c, strict) == seq![
            word_token(a, strict),
            word_token(op1, strict),
            word_token(b, strict),
            word_token(op2, strict),
            word_token(c, strict),
        ],
        word_token(a, strict).term_text() == Some(a),
        word_token(op1, strict).boolean_text() == Some(op1),
        word_token(b, strict).term_text() == Some(b),
        word_token(op2, strict).boolean_text() == Some(op2),
        word_token(c, strict).term_text() == Some(c),
{
    let none = Seq::<char>::empty();
    let sp = seq![' '];
    let r4 = op2 + (sp + c);
    let r3 = b + (sp + r4);
    let r2 = op1 + (sp + r3);
    let r1 = a + (sp + r2);
    let ta = word_token(a, strict);
    let t1 = word_token(op1, strict);
    let tb = word_token(b, strict);
    let t2 = word_token(op2, strict);
    let tc = word_token(c, strict);
    assert(a + " "@ + op1 + " "@ + b + " "@ + op2 + " "@ + c == r1) by {
        reveal_strlit(" ");
        assert(" "@ =~= sp);
        regroup(a, op1, b, op2, c, sp);
    }
    assert(tokens(r4, strict) == seq![t2, tc] && t2.boolean_text() == Some(op2) && tc.term_text()
        == Some(c)) by {
        tokens_of_word_space_more(op2, c, strict);
        tokens_of_word(c, strict);
        word_is_first_token(op2, sp + c, strict);
        assert(c + none =~= c);
        word_is_first_token(c, none, strict);
        assert(seq![t2] + seq![tc] =~= seq![t2, tc]);
    }
    assert(tokens(r3, strict) == seq![tb, t2, tc] && tb.term_text() == Some(b)) by {
        tokens_of_word_space_more(b, r4, strict);
        word_is_first_token(b, sp + r4, strict);
        assert(seq![tb] + seq![t2, tc] =~= seq![tb, t2, tc]);
    }
    assert(tokens(r2, strict) == seq![t1, tb, t2, tc] && t1.boolean_text() == Some(op1)) by {
        tokens_of_word_space_more(op1, r3, strict);
        word_is_first_token(op1, sp + r3, strict);
        assert(seq![t1] + seq![tb, t2, tc] =~= seq![t1, tb, t2, tc]);
    }
    assert(tokens(r1, strict) == seq![ta, t1, tb, t2, tc] && ta.term_text() == Some(a)) by {
        tokens_of_word_space_more(a, r2, strict);
        word_is_first_token(a, sp + r2, strict);
        assert(seq![ta] + seq![t1, tb, t2, tc] =~= seq![ta, t1, tb, t2, tc]);
    }
}

/// A text made of three words with a boolean operator between each two of
/// them, one space apart, is a query, and its operators fold to the left:
/// the first joins the first two words, and the second joins their join
/// with the third word. The words that something follows are simple words.
pub proof fn boolean_chain_folds_left(
    a: Seq<char>,
    op1: Seq<char>,
    b: Seq<char>,
    op2: Seq<char>,
    c: Seq<char>,
    strict: bool,
)
    requires
        is_simple_word(a),
        is_simple_word(b),
        is_bare_word(c),
        is_boolean_word(op1),
        is_boolean_word(op2),
    ensures
        parse_text(a + " "@ + op1 + " "@ + b + " "@ + op2 + " "@ + c, strict) == Some(
            unsorted(joined(op2, joined(op1, word(a), word(b)), word(c))),
        ),
{
    boolean_word_is_simple(op1);
    boolean_word_is_simple(op2);
    tokens_of_five_words(a, op1, b, op2, c, strict);
    three_terms_fold_left(
        word_token(a, strict),
        word_token(op1, strict),
        word_token(b, strict),
        word_token(op2, strict),
        word_token(c, strict),
    );
}

} // verus!
