//! The lexical grammar: how a text is cut into tokens.
//!
//! Every function here is a specification over sequences of characters. The
//! [`crate::lexer::Lexer`] is proved to compute [`first_token`].
use crate::token::TokenView;
use vstd::prelude::*;

verus! {

/// White space between tokens: space, tab, carriage return, line feed.
pub open spec fn is_blank(c: char) -> bool {
    c == ' ' || c == '\t' || c == '\r' || c == '\n'
}

/// The characters that end a bare word.
///
/// Tab and carriage return are not among them: they separate tokens, but
/// inside a bare word they are ordinary characters.
pub open spec fn ends_word(c: char) -> bool {
    c == ' ' || c == '\n' || c == '(' || c == ')' || c == '=' || c == '<' || c == '>' || c == '/'
}

/// The number of blanks that `s` starts with.
pub open spec fn blank_len(s: Seq<char>) -> nat
    decreases s.len(),
{
    if s.len() > 0 && is_blank(s[0]) {
        1 + blank_len(s.drop_first())
    } else {
        0
    }
}

/// The length of the body of a quoted string, where `s` is what follows the
/// opening quote: up to the first quote that no backslash precedes, or to
/// the end of `s`. A backslash takes the character after it along.
pub open spec fn quoted_len(s: Seq<char>) -> nat
    decreases s.len(),
{
    if s.len() == 0 || s[0] == '"' {
        0
    } else if s[0] == '\\' && s.len() > 1 {
        2 + quoted_len(s.drop_first().drop_first())
    } else {
        1 + quoted_len(s.drop_first())
    }
}

/// The length of the bare word that `s` starts with: up to the first
/// character that ends a word and that no backslash precedes, or to the end
/// of `s`. A backslash takes the character after it along.
pub open spec fn word_len(s: Seq<char>) -> nat
    decreases s.len(),
{
    if s.len() == 0 || ends_word(s[0]) {
        0
    } else if s[0] == '\\' && s.len() > 1 {
        2 + word_len(s.drop_first().drop_first())
    } else {
        1 + word_len(s.drop_first())
    }
}

/// Whether the bare word that `s` starts with holds a dot that no backslash
/// precedes.
pub open spec fn word_has_dot(s: Seq<char>) -> bool
    decreases s.len(),
{
    if s.len() == 0 || ends_word(s[0]) {
        false
    } else if s[0] == '\\' && s.len() > 1 {
        word_has_dot(s.drop_first().drop_first())
    } else {
        s[0] == '.' || word_has_dot(s.drop_first())
    }
}

/// `c` with an ASCII capital letter replaced by its small letter.
pub open spec fn ascii_lower(c: char) -> char {
    if 'A' as u32 <= c as u32 && c as u32 <= 'Z' as u32 {
        ((c as u32) + 32) as char
    } else {
        c
    }
}

/// Whether `a` and `b` are equal up to the case of their ASCII letters.
pub open spec fn same_ignoring_case(a: Seq<char>, b: Seq<char>) -> bool {
    &&& a.len() == b.len()
    &&& forall|i: int| 0 <= i < a.len() ==> ascii_lower(#[trigger] a[i]) == ascii_lower(b[i])
}

/// Whether a bare word is one of the relation names `all`, `any`, `adj`.
pub open spec fn is_relation_name(word: Seq<char>) -> bool {
    same_ignoring_case(word, "all"@) || same_ignoring_case(word, "any"@) || same_ignoring_case(
        word,
        "adj"@,
    )
}

/// The token that a bare word stands for.
///
/// A keyword is a keyword whatever else holds. Any other word is a name
/// where `named` is set or where it is one of `all`, `any`, `adj`, and a
/// plain string otherwise.
pub open spec fn classify(word: Seq<char>, named: bool) -> TokenView {
    if same_ignoring_case(word, "and"@) {
        TokenView::And(word)
    } else if same_ignoring_case(word, "or"@) {
        TokenView::Or(word)
    } else if same_ignoring_case(word, "not"@) {
        TokenView::Not(word)
    } else if same_ignoring_case(word, "prox"@) {
        TokenView::Prox(word)
    } else if same_ignoring_case(word, "sortby"@) {
        TokenView::Sortby(word)
    } else if named || is_relation_name(word) {
        TokenView::PrefixName(word)
    } else {
        TokenView::SimpleString(word)
    }
}

/// A token, and the input that is left after it.
pub ghost struct Lexed {
    pub token: TokenView,
    pub rest: Seq<char>,
}

/// The token that starts at the first character of `t`, which is not a
/// blank.
pub open spec fn token_at(t: Seq<char>, strict: bool) -> Lexed
    recommends
        t.len() > 0,
{
    let c = t[0];
    let after = t.drop_first();
    if c == '=' {
        if after.len() > 0 && after[0] == '=' {
            Lexed { token: TokenView::Exact, rest: after.drop_first() }
        } else {
            Lexed { token: TokenView::EQ, rest: after }
        }
    } else if c == '>' {
        if after.len() > 0 && after[0] == '=' {
            Lexed { token: TokenView::GE, rest: after.drop_first() }
        } else {
            Lexed { token: TokenView::GT, rest: after }
        }
    } else if c == '<' {
        if after.len() > 0 && after[0] == '=' {
            Lexed { token: TokenView::LE, rest: after.drop_first() }
        } else if after.len() > 0 && after[0] == '>' {
            Lexed { token: TokenView::NE, rest: after.drop_first() }
        } else {
            Lexed { token: TokenView::LT, rest: after }
        }
    } else if c == '/' {
        Lexed { token: TokenView::Modifier, rest: after }
    } else if c == '(' {
        Lexed { token: TokenView::LP, rest: after }
    } else if c == ')' {
        Lexed { token: TokenView::RP, rest: after }
    } else if c == '"' {
        let n = quoted_len(after) as int;
        Lexed {
            token: TokenView::SimpleString(after.take(n)),
            rest: if n < after.len() {
                after.skip(n + 1)
            } else {
                after.skip(n)
            },
        }
    } else {
        let n = word_len(t) as int;
        Lexed { token: classify(t.take(n), strict || word_has_dot(t)), rest: t.skip(n) }
    }
}

/// The first token of `s`, and what is left of `s` after it.
///
/// With `strict` set, every bare word that is no keyword is a name.
pub open spec fn first_token(s: Seq<char>, strict: bool) -> Lexed {
    let t = s.skip(blank_len(s) as int);
    if t.len() == 0 {
        Lexed { token: TokenView::EOS, rest: t }
    } else {
        token_at(t, strict)
    }
}

/// The tokens of `s`, in order, without the end of input.
///
/// The test on the length of what is left is there for the recursion to be
/// well founded; [`first_token_rest`] shows that it always holds.
pub open spec fn tokens(s: Seq<char>, strict: bool) -> Seq<TokenView>
    decreases s.len(),
{
    let l = first_token(s, strict);
    if l.token is EOS || l.rest.len() >= s.len() {
        Seq::empty()
    } else {
        seq![l.token] + tokens(l.rest, strict)
    }
}

/// A run of blanks is no longer than the text.
pub proof fn blank_len_bound(s: Seq<char>)
    ensures
        blank_len(s) <= s.len(),
    decreases s.len(),
{
    if s.len() > 0 && is_blank(s[0]) {
        blank_len_bound(s.drop_first());
    }
}

/// The body of a quoted string is no longer than the text.
pub proof fn quoted_len_bound(s: Seq<char>)
    ensures
        quoted_len(s) <= s.len(),
        quoted_len(s) < s.len() ==> s[quoted_len(s) as int] == '"',
    decreases s.len(),
{
    if s.len() == 0 || s[0] == '"' {
    } else if s[0] == '\\' && s.len() > 1 {
        quoted_len_bound(s.drop_first().drop_first());
    } else {
        quoted_len_bound(s.drop_first());
    }
}

/// A bare word is no longer than the text, and is not empty unless the text
/// is empty or starts with a character that ends a word.
pub proof fn word_len_bound(s: Seq<char>)
    ensures
        word_len(s) <= s.len(),
        s.len() > 0 && !ends_word(s[0]) ==> word_len(s) >= 1,
        word_len(s) < s.len() ==> ends_word(s[word_len(s) as int]),
    decreases s.len(),
{
    if s.len() == 0 || ends_word(s[0]) {
    } else if s[0] == '\\' && s.len() > 1 {
        word_len_bound(s.drop_first().drop_first());
    } else {
        word_len_bound(s.drop_first());
    }
}

/// Every token but the end of input takes at least one character, and what
/// is left is a tail of the text.
pub proof fn first_token_rest(s: Seq<char>, strict: bool)
    ensures
        first_token(s, strict).rest.len() <= s.len(),
        !(first_token(s, strict).token is EOS) ==> first_token(s, strict).rest.len() < s.len(),
        first_token(s, strict).token is EOS ==> first_token(s, strict).rest.len() == 0,
        first_token(s, strict).rest == s.skip(s.len() - first_token(s, strict).rest.len()),
{
    blank_len_bound(s);
    let b = blank_len(s) as int;
    let t = s.skip(b);
    if t.len() > 0 {
        let after = t.drop_first();
        quoted_len_bound(after);
        word_len_bound(t);
        let l = token_at(t, strict);
        let d = s.len() - l.rest.len();
        assert(after =~= s.skip(b + 1));
        if after.len() > 0 {
            assert(after.drop_first() =~= s.skip(b + 2));
        }
        let n = quoted_len(after) as int;
        assert(after.skip(n) =~= s.skip(b + 1 + n));
        if n < after.len() {
            assert(after.skip(n + 1) =~= s.skip(b + 2 + n));
        }
        let w = word_len(t) as int;
        assert(t.skip(w) =~= s.skip(b + w));
        assert(l.rest =~= s.skip(d));
    } else {
        assert(t =~= s.skip(s.len() - t.len()));
    }
}

} // verus!
