//! The lexer: it reads characters from a source and hands out tokens, one at
//! a time.
use crate::error::ParseError;
use crate::lexical::{
    blank_len, classify, first_token, quoted_len, same_ignoring_case, word_has_dot, word_len,
};
use crate::source::Source;
use crate::token::Token;
use vstd::prelude::*;

verus! {

/// `String::push` of the standard library: the string grows by the one
/// character `c` at its end. Not proved here.
#[verifier::external_body]
fn push_char(s: &mut String, c: char)
    ensures
        final(s)@ == old(s)@.push(c),
{
    s.push(c);
}

/// `str::eq_ignore_ascii_case` of the standard library: whether the two
/// strings are equal once every ASCII capital letter is replaced by its small
/// letter. Not proved here.
#[verifier::external_body]
fn eq_ignore_case(a: &str, b: &str) -> (same: bool)
    ensures
        same == same_ignoring_case(a@, b@),
{
    a.eq_ignore_ascii_case(b)
}

/// The state of the lexer between two tokens: one character of lookahead.
pub struct Lexer {
    /// Whether every bare word that is no keyword is read as a name.
    pub strict: bool,
    /// Whether no character has been read yet.
    pub first: bool,
    /// The character read last and not yet used; `None` at the end of input.
    pub look_ch: Option<char>,
}

impl Lexer {
    /// The input that is still to be cut into tokens, where `rest` is what
    /// the source has left: the lookahead character and then `rest`. Before
    /// the first character is read it is `rest` alone, and once the end of
    /// input was seen it is empty.
    pub open spec fn pending(&self, rest: Seq<char>) -> Seq<char> {
        if self.first {
            rest
        } else {
            match self.look_ch {
                Some(c) => seq![c] + rest,
                None => Seq::empty(),
            }
        }
    }

    /// Whether the lookahead goes with the source: where it shows the end of
    /// input, the source, whose rest is `rest`, is at its end.
    pub open spec fn in_step(&self, rest: Seq<char>) -> bool {
        self.first || self.look_ch is Some || rest.len() == 0
    }

    /// A lexer that has read nothing, not strict.
    pub fn new() -> (lexer: Lexer)
        ensures
            !lexer.strict,
            lexer.first,
            lexer.look_ch is None,
    {
        Lexer { strict: false, first: true, look_ch: None }
    }

    /// Sets the strict mode, in which every bare word that is no keyword is a
    /// name.
    pub fn strict(&mut self, strict: bool)
        ensures
            final(self).strict == strict,
            final(self).first == old(self).first,
            final(self).look_ch == old(self).look_ch,
    {
        self.strict = strict;
    }

    /// Reads one character from `get` into the lookahead, in place of the one
    /// that was there.
    pub fn next(&mut self, get: &mut Source)
        ensures
            final(self).strict == old(self).strict,
            !final(self).first,
            old(get)@.len() > 0 ==> final(self).look_ch == Some(old(get)@[0]) && final(get)@
                == old(get)@.drop_first(),
            old(get)@.len() == 0 ==> final(self).look_ch is None && final(get)@ == old(get)@,
            final(self).pending(final(get)@) == old(get)@,
            final(self).in_step(final(get)@),
            final(get).read_on_from(old(get)),
            !old(self).first && old(self).look_ch is Some ==> final(self).pending(final(get)@)
                == old(self).pending(old(get)@).drop_first(),
    {
        self.look_ch = get.next();
        self.first = false;
        proof {
            let before = old(get)@;
            assert(self.pending(get@) =~= before);
            if !old(self).first && old(self).look_ch is Some {
                assert(before =~= old(self).pending(before).drop_first());
            }
        }
    }

    /// Reads past the blanks that the pending input starts with.
    fn skip_blanks(&mut self, get: &mut Source)
        requires
            !old(self).first,
        ensures
            final(self).strict == old(self).strict,
            !final(self).first,
            old(self).in_step(old(get)@) ==> final(self).in_step(final(get)@),
            final(get).read_on_from(old(get)),
            final(self).pending(final(get)@) == old(self).pending(old(get)@).skip(
                blank_len(old(self).pending(old(get)@)) as int,
            ),
    {
        let ghost p = self.pending(get@);
        let ghost mut k: int = 0;
        assert(p.skip(0) =~= p);
        proof {
            use_type_invariant(&*get);
        }
        loop
            invariant
                !self.first,
                old(self).in_step(old(get)@) ==> self.in_step(get@),
                get.read_on_from(old(get)),
                self.strict == old(self).strict,
                0 <= k <= p.len(),
                self.pending(get@) == p.skip(k),
                blank_len(p) == k + blank_len(p.skip(k)),
            ensures
                blank_len(p) == k,
            decreases p.len() - k,
        {
            match self.look_ch {
                Some(ch) => {
                    if ch != ' ' && ch != '\t' && ch != '\r' && ch != '\n' {
                        assert(p.skip(k)[0] == ch);
                        break ;
                    }
                },
                None => {
                    break ;
                },
            }
            assert(p.skip(k)[0] == self.look_ch->0);
            self.next(get);
            proof {
                assert(p.skip(k).drop_first() =~= p.skip(k + 1));
                k = k + 1;
            }
        }
    }

    /// Reads the body of a quoted string, the opening quote being read
    /// already, and the closing quote where there is one.
    fn quoted(&mut self, get: &mut Source) -> (text: String)
        requires
            !old(self).first,
        ensures
            final(self).strict == old(self).strict,
            !final(self).first,
            old(self).in_step(old(get)@) ==> final(self).in_step(final(get)@),
            final(get).read_on_from(old(get)),
            ({
                let body = old(self).pending(old(get)@);
                let n = quoted_len(body) as int;
                &&& text@ == body.take(n)
                &&& final(self).pending(final(get)@) == if n < body.len() {
                    body.skip(n + 1)
                } else {
                    body.skip(n)
                }
            }),
    {
        let ghost body = self.pending(get@);
        let ghost mut k: int = 0;
        let mut s = String::new();
        assert(body.skip(0) =~= body);
        proof {
            use_type_invariant(&*get);
        }
        assert(s@ =~= body.take(0));
        loop
            invariant_except_break
                0 <= k <= body.len(),
                self.pending(get@) == body.skip(k),
                s@ == body.take(k),
                quoted_len(body) == k + quoted_len(body.skip(k)),
            invariant
                !self.first,
                old(self).in_step(old(get)@) ==> self.in_step(get@),
                get.read_on_from(old(get)),
                self.strict == old(self).strict,
            ensures
                s@ == body.take(quoted_len(body) as int),
                self.pending(get@) == if quoted_len(body) < body.len() {
                    body.skip(quoted_len(body) as int + 1)
                } else {
                    body.skip(quoted_len(body) as int)
                },
            decreases body.len() - k,
        {
            let ghost q = body.skip(k);
            match self.look_ch {
                None => {
                    break ;
                },
                Some(ch) => {
                    assert(q[0] == ch);
                    if ch == '"' {
                        self.next(get);
                        assert(q.drop_first() =~= body.skip(k + 1));
                        break ;
                    }
                    push_char(&mut s, ch);
                    self.next(get);
                    proof {
                        assert(q.drop_first() =~= body.skip(k + 1));
                        assert(body.take(k).push(ch) =~= body.take(k + 1));
                        k = k + 1;
                    }
                    if ch == '\\' {
                        if let Some(ch1) = self.look_ch {
                            assert(q.len() > 1 && q[1] == ch1);
                            push_char(&mut s, ch1);
                            self.next(get);
                            proof {
                                assert(q.drop_first().drop_first() =~= body.skip(k + 1));
                                assert(body.take(k).push(ch1) =~= body.take(k + 1));
                                k = k + 1;
                            }
                        } else {
                            assert(q.len() == 1);
                        }
                    }
                },
            }
        }
        s
    }

    /// Reads a bare word, and tells whether it holds a dot that no backslash
    /// precedes.
    fn word(&mut self, get: &mut Source) -> (found: (String, bool))
        requires
            !old(self).first,
        ensures
            final(self).strict == old(self).strict,
            !final(self).first,
            old(self).in_step(old(get)@) ==> final(self).in_step(final(get)@),
            final(get).read_on_from(old(get)),
            ({
                let t = old(self).pending(old(get)@);
                let n = word_len(t) as int;
                &&& found.0@ == t.take(n)
                &&& found.1 == word_has_dot(t)
                &&& final(self).pending(final(get)@) == t.skip(n)
            }),
    {
        let ghost t = self.pending(get@);
        let ghost mut k: int = 0;
        let mut s = String::new();
        let mut dotted = false;
        assert(t.skip(0) =~= t);
        proof {
            use_type_invariant(&*get);
        }
        assert(s@ =~= t.take(0));
        loop
            invariant
                !self.first,
                old(self).in_step(old(get)@) ==> self.in_step(get@),
                get.read_on_from(old(get)),
                self.strict == old(self).strict,
                0 <= k <= t.len(),
                self.pending(get@) == t.skip(k),
                s@ == t.take(k),
                word_len(t) == k + word_len(t.skip(k)),
                word_has_dot(t) == (dotted || word_has_dot(t.skip(k))),
            ensures
                word_len(t) == k,
                word_has_dot(t) == dotted,
            decreases t.len() - k,
        {
            let ghost q = t.skip(k);
            match self.look_ch {
                None => {
                    break ;
                },
                Some(ch) => {
                    assert(q[0] == ch);
                    if ch == ' ' || ch == '\n' || ch == '(' || ch == ')' || ch == '=' || ch == '<'
                        || ch == '>' || ch == '/' {
                        break ;
                    }
                    if ch == '.' {
                        dotted = true;
                    }
                    push_char(&mut s, ch);
                    self.next(get);
                    proof {
                        assert(q.drop_first() =~= t.skip(k + 1));
                        assert(t.take(k).push(ch) =~= t.take(k + 1));
                        k = k + 1;
                    }
                    if ch == '\\' {
                        if let Some(ch1) = self.look_ch {
                            assert(q.len() > 1 && q[1] == ch1);
                            push_char(&mut s, ch1);
                            self.next(get);
                            proof {
                                assert(q.drop_first().drop_first() =~= t.skip(k + 1));
                                assert(t.take(k).push(ch1) =~= t.take(k + 1));
                                k = k + 1;
                            }
                        } else {
                            assert(q.len() == 1);
                        }
                    }
                },
            }
        }
        (s, dotted)
    }

    /// The token that the bare word `s` stands for.
    fn keyword_or_word(s: String, named: bool) -> (token: Token)
        ensures
            token@ == classify(s@, named),
    {
        if eq_ignore_case(s.as_str(), "and") {
            return Token::And(s);
        }
        if eq_ignore_case(s.as_str(), "or") {
            return Token::Or(s);
        }
        if eq_ignore_case(s.as_str(), "not") {
            return Token::Not(s);
        }
        if eq_ignore_case(s.as_str(), "prox") {
            return Token::Prox(s);
        }
        if eq_ignore_case(s.as_str(), "sortby") {
            return Token::Sortby(s);
        }
        let mut relation_like = named;
        if eq_ignore_case(s.as_str(), "all") || eq_ignore_case(s.as_str(), "any")
            || eq_ignore_case(s.as_str(), "adj") {
            relation_like = true;
        }
        if relation_like {
            return Token::PrefixName(s);
        }
        Token::SimpleString(s)
    }

    /// Reads the next token from what is pending.
    ///
    /// It never fails: a text that is no query still falls into tokens, and a
    /// quoted string that the input ends in is taken as far as it goes.
    pub fn lex(&mut self, get: &mut Source) -> (res: Result<Token, ParseError>)
        ensures
            res is Ok,
            res->Ok_0@ == first_token(old(self).pending(old(get)@), old(self).strict).token,
            final(self).pending(final(get)@) == first_token(
                old(self).pending(old(get)@),
                old(self).strict,
            ).rest,
            final(self).strict == old(self).strict,
            !final(self).first,
            old(self).in_step(old(get)@) ==> final(self).in_step(final(get)@),
            final(get).read_on_from(old(get)),
    {
        if self.first {
            self.next(get);
        }
        self.skip_blanks(get);
        let ghost t = self.pending(get@);
        let ch = match self.look_ch {
            Some(ch1) => ch1,
            None => {
                return Ok(Token::EOS);
            },
        };
        assert(t[0] == ch);
        match ch {
            '=' => {
                self.next(get);
                if let Some(ch) = self.look_ch {
                    if ch == '=' {
                        self.next(get);
                        return Ok(Token::Exact);
                    }
                }
                return Ok(Token::EQ);
            },
            '>' => {
                self.next(get);
                if let Some(ch) = self.look_ch {
                    if ch == '=' {
                        self.next(get);
                        return Ok(Token::GE);
                    }
                }
                return Ok(Token::GT);
            },
            '<' => {
                self.next(get);
                if let Some(ch) = self.look_ch {
                    if ch == '=' {
                        self.next(get);
                        return Ok(Token::LE);
                    }
                    if ch == '>' {
                        self.next(get);
                        return Ok(Token::NE);
                    }
                }
                return Ok(Token::LT);
            },
            '/' => {
                self.next(get);
                return Ok(Token::Modifier);
            },
            '(' => {
                self.next(get);
                return Ok(Token::LP);
            },
            ')' => {
                self.next(get);
                return Ok(Token::RP);
            },
            '"' => {
                self.next(get);
                let s = self.quoted(get);
                return Ok(Token::SimpleString(s));
            },
            _ => {
                let (s, dotted) = self.word(get);
                return Ok(Self::keyword_or_word(s, self.strict || dotted));
            },
        }
    }
}

} // verus!
