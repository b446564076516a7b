use vstd::prelude::*;
use vstd::string::*;

use crate::tokens::{Token, TokenModel};

verus! {

/// A fault found while turning text into tokens: a character outside the
/// language, or a numeral that starts with a decimal point and holds a
/// second one, which no number can be read from.
#[derive(Clone, Debug, PartialEq)]
pub enum LexError {
    IllegalCharacter(char),
    MalformedNumber(String),
}

/// The mathematical value of a [`LexError`]: the same tags, with the
/// numeral text abstracted to a sequence of characters.
pub enum LexErrorModel {
    IllegalCharacter(char),
    MalformedNumber(Seq<char>),
}

impl View for LexError {
    type V = LexErrorModel;

    open spec fn view(&self) -> LexErrorModel {
        match self {
            LexError::IllegalCharacter(c) => LexErrorModel::IllegalCharacter(*c),
            LexError::MalformedNumber(s) => LexErrorModel::MalformedNumber(s@),
        }
    }
}

/// Everything a token stream yields: the tokens up to the end of the input
/// or up to the first fault, and that fault where there is one.
pub struct LexModel {
    pub tokens: Seq<TokenModel>,
    pub err: Option<LexErrorModel>,
}

/// Whitespace, skipped silently between tokens.
pub open spec fn is_space_char(c: char) -> bool {
    c == ' ' || c == '\t' || c == '\n'
}

pub open spec fn is_digit_char(c: char) -> bool {
    '0' <= c && c <= '9'
}

/// A character that may stand in a numeral: a decimal digit or the point.
pub open spec fn is_number_char(c: char) -> bool {
    is_digit_char(c) || c == '.'
}

/// The index just past the later characters of a numeral, scanning from `j`:
/// digits are consumed, and at most one decimal point; `seen` says whether
/// that point has been consumed already.
pub open spec fn num_end(s: Seq<char>, j: int, seen: bool) -> int
    decreases s.len() - j,
{
    if j < 0 || j >= s.len() {
        j
    } else if s[j] == '.' {
        if seen {
            j
        } else {
            num_end(s, j + 1, true)
        }
    } else if is_digit_char(s[j]) {
        num_end(s, j + 1, seen)
    } else {
        j
    }
}

pub proof fn lemma_num_end_bounds(s: Seq<char>, j: int, seen: bool)
    requires
        0 <= j <= s.len(),
    ensures
        j <= num_end(s, j, seen) <= s.len(),
    decreases s.len() - j,
{
    if j < s.len() {
        if s[j] == '.' {
            if !seen {
                lemma_num_end_bounds(s, j + 1, true);
            }
        } else if is_digit_char(s[j]) {
            lemma_num_end_bounds(s, j + 1, seen);
        }
    }
}

/// A numeral text no number can be read from, even after normalization:
/// it starts with a decimal point and holds a second one.
pub open spec fn numeral_malformed(raw: Seq<char>) -> bool {
    raw.len() > 0 && raw[0] == '.' && (exists|k: int| 1 <= k < raw.len() && raw[k] == '.')
}

/// A numeral text with a digit put on each side of a decimal point that
/// lacks one: a leading point gains a `0` before it, a trailing point a `0`
/// after it.
pub open spec fn normalize_numeral(raw: Seq<char>) -> Seq<char> {
    let led = if raw.len() > 0 && raw[0] == '.' {
        seq!['0'] + raw
    } else {
        raw
    };
    if led.len() > 0 && led[led.len() - 1] == '.' {
        led + seq!['0']
    } else {
        led
    }
}

/// What the scanner makes of the numeral that starts at position `i` of `s`:
/// the normalized text as a token, or the fault, carrying the same text.
pub open spec fn numeral_token(s: Seq<char>, i: int) -> Result<TokenModel, LexErrorModel> {
    let raw = s.subrange(i, num_end(s, i + 1, false));
    if numeral_malformed(raw) {
        Err(LexErrorModel::MalformedNumber(normalize_numeral(raw)))
    } else {
        Ok(TokenModel::Number(normalize_numeral(raw)))
    }
}

/// The empty stream: no tokens and no fault.
pub open spec fn lex_none() -> LexModel {
    LexModel { tokens: Seq::empty(), err: None }
}

/// A stream that stops at a fault.
pub open spec fn lex_fail_at(e: LexErrorModel) -> LexModel {
    LexModel { tokens: Seq::empty(), err: Some(e) }
}

/// One token in front of the rest of a stream.
pub open spec fn lex_cons(t: TokenModel, rest: LexModel) -> LexModel {
    LexModel { tokens: seq![t] + rest.tokens, err: rest.err }
}

/// All that the token stream of `s` yields from position `i` on.
pub open spec fn lex_from(s: Seq<char>, i: int) -> LexModel
    decreases s.len() - i,
{
    if i < 0 || i >= s.len() {
        lex_none()
    } else {
        let c = s[i];
        if is_space_char(c) {
            lex_from(s, i + 1)
        } else if c == '+' {
            lex_cons(TokenModel::Plus, lex_from(s, i + 1))
        } else if c == '-' {
            lex_cons(TokenModel::Minus, lex_from(s, i + 1))
        } else if c == '*' {
            lex_cons(TokenModel::Multiply, lex_from(s, i + 1))
        } else if c == '/' {
            lex_cons(TokenModel::Divide, lex_from(s, i + 1))
        } else if c == '(' {
            lex_cons(TokenModel::Lparen, lex_from(s, i + 1))
        } else if c == ')' {
            lex_cons(TokenModel::Rparen, lex_from(s, i + 1))
        } else if is_number_char(c) {
            match numeral_token(s, i) {
                Err(e) => lex_fail_at(e),
                Ok(t) => {
                    proof {
                        lemma_num_end_bounds(s, i + 1, false);
                    }
                    lex_cons(t, lex_from(s, num_end(s, i + 1, false)))
                },
            }
        } else {
            lex_fail_at(LexErrorModel::IllegalCharacter(c))
        }
    }
}

/// The whole token stream of the text `s`.
pub open spec fn lex_spec(s: Seq<char>) -> LexModel {
    lex_from(s, 0)
}

/// The view of an item the lexer yields.
pub open spec fn res_model(r: Result<Token, LexError>) -> Result<TokenModel, LexErrorModel> {
    match r {
        Ok(t) => Ok(t@),
        Err(e) => Err(e@),
    }
}

/// Relies on `String::push`: appends the one character at the end.
#[verifier::external_body]
pub(crate) fn push_char(s: &mut String, c: char)
    ensures
        final(s)@ == old(s)@.push(c),
{
    s.push(c)
}

/// Whether `c` may stand in a numeral.
fn is_number(c: char) -> (r: bool)
    ensures
        r == is_number_char(c),
{
    ('0' <= c && c <= '9') || c == '.'
}

/// A forward-only cursor over the characters of the input text, handing out
/// one token at a time.
pub struct Lexer<'a> {
    text: &'a str,
    len: usize,
    pos: usize,
}

impl<'a> Lexer<'a> {
    /// The cursor stands inside the text, whose length `len` caches.
    pub closed spec fn wf(self) -> bool {
        self.pos <= self.text@.len() && self.len == self.text@.len()
    }

    /// The tokens, and the fault where there is one, that this lexer has
    /// yet to yield.
    pub closed spec fn items(self) -> LexModel {
        lex_from(self.text@, self.pos as int)
    }

    /// A lexer standing at the start of `text`, yet to yield all of
    /// `lex_spec(text@)`.
    pub fn new(text: &'a str) -> (r: Lexer<'a>)
        ensures
            r.wf(),
            r.items() == lex_spec(text@),
    {
        let len = text.unicode_len();
        Lexer { text, len, pos: 0 }
    }

    fn advance(&mut self)
        requires
            old(self).wf(),
            old(self).pos < old(self).text@.len(),
        ensures
            final(self).wf(),
            final(self).text == old(self).text,
            final(self).pos == old(self).pos + 1,
    {
        self.pos = self.pos + 1;
    }

    /// Scans the numeral that starts at the cursor, normalizes its text,
    /// and yields it as a token, or as the fault for a text no number can
    /// be read from.
    fn get_number(&mut self) -> (r: Result<Token, LexError>)
        requires
            old(self).wf(),
            old(self).pos < old(self).text@.len(),
            is_number_char(old(self).text@[old(self).pos as int]),
        ensures
            final(self).wf(),
            final(self).text == old(self).text,
            final(self).pos as int == num_end(old(self).text@, old(self).pos + 1, false),
            res_model(r) == numeral_token(old(self).text@, old(self).pos as int),
    {
        let ghost s = self.text@;
        let ghost p0 = self.pos as int;
        let c0 = self.text.get_char(self.pos);
        let first_is_point = c0 == '.';
        let mut number = String::new();
        push_char(&mut number, c0);
        self.advance();
        let mut extra_point = false;
        proof {
            assert(number@ =~= s.subrange(p0, p0 + 1));
        }
        loop
            invariant
                self.wf(),
                self.text == old(self).text,
                s == old(self).text@,
                p0 == old(self).pos as int,
                s[p0] == c0,
                p0 + 1 <= self.pos <= s.len(),
                number@ == s.subrange(p0, self.pos as int),
                num_end(s, p0 + 1, false) == num_end(s, self.pos as int, extra_point),
                extra_point <==> (exists|k: int| p0 + 1 <= k < self.pos && s[k] == '.'),
            ensures
                self.wf(),
                self.text == old(self).text,
                p0 + 1 <= self.pos <= s.len(),
                number@ == s.subrange(p0, self.pos as int),
                self.pos as int == num_end(s, p0 + 1, false),
                extra_point <==> (exists|k: int| p0 + 1 <= k < self.pos && s[k] == '.'),
            decreases s.len() - self.pos,
        {
            if self.pos >= self.len {
                break;
            }
            let c = self.text.get_char(self.pos);
            let ghost p = self.pos as int;
            if c == '.' {
                if extra_point {
                    break;
                }
                push_char(&mut number, c);
                self.advance();
                extra_point = true;
                proof {
                    assert(number@ =~= s.subrange(p0, p + 1));
                }
            } else if is_number(c) {
                push_char(&mut number, c);
                self.advance();
                proof {
                    assert(number@ =~= s.subrange(p0, p + 1));
                    assert forall|k: int| p0 + 1 <= k < p + 1 && s[k] == '.' implies p0 + 1 <= k
                        < p by {}
                }
            } else {
                break;
            }
        }
        let ghost e = self.pos as int;
        let ghost raw = s.subrange(p0, e);
        proof {
            assert(number@ == raw);
            assert(raw.len() == e - p0 > 0);
            assert(raw[0] == s[p0]);
            if first_is_point && extra_point {
                let k = choose|k: int| p0 + 1 <= k < e && s[k] == '.';
                assert(raw[k - p0] == '.');
                assert(numeral_malformed(raw));
            } else if first_is_point {
                assert forall|k: int| 1 <= k < raw.len() implies raw[k] != '.' by {
                    assert(raw[k] == s[p0 + k]);
                    assert(!(p0 + 1 <= p0 + k < e && s[p0 + k] == '.'));
                }
                assert(!numeral_malformed(raw));
            } else {
                assert(raw[0] != '.');
                assert(!numeral_malformed(raw));
            }
        }
        let mut norm: String;
        if first_is_point {
            norm = String::from_str("0");
            norm.append(number.as_str());
            proof {
                reveal_strlit("0");
                assert(norm@ =~= seq!['0'] + raw);
            }
        } else {
            norm = number;
        }
        let nlen = norm.as_str().unicode_len();
        let last = norm.as_str().get_char(nlen - 1);
        if last == '.' {
            push_char(&mut norm, '0');
        }
        proof {
            assert(norm@ =~= normalize_numeral(raw));
        }
        if first_is_point && extra_point {
            Err(LexError::MalformedNumber(norm))
        } else {
            Ok(Token::Number(norm))
        }
    }

    /// Yields the next item of the stream: `None` once the input is
    /// exhausted, otherwise the next token or the first fault. Whitespace
    /// is skipped silently; a fault does not move the cursor past the
    /// offending character.
    pub fn next(&mut self) -> (r: Option<Result<Token, LexError>>)
        requires
            old(self).wf(),
        ensures
            final(self).wf(),
            match r {
                None => old(self).items() == lex_none() && final(self).items() == lex_none(),
                Some(Ok(t)) => old(self).items().tokens.len() > 0 && t@ == old(
                    self,
                ).items().tokens[0] && final(self).items().tokens == old(self).items().tokens.skip(
                    1,
                ) && final(self).items().err == old(self).items().err,
                Some(Err(e)) => old(self).items().tokens.len() == 0 && old(self).items().err
                    == Some(e@),
            },
    {
        let ghost s = self.text@;
        loop
            invariant
                self.wf(),
                self.text == old(self).text,
                s == old(self).text@,
                self.items() == old(self).items(),
            ensures
                self.wf(),
                self.text == old(self).text,
                self.items() == old(self).items(),
                self.pos as int == s.len() || !is_space_char(s[self.pos as int]),
            decreases s.len() - self.pos,
        {
            if self.pos >= self.len {
                break;
            }
            let c = self.text.get_char(self.pos);
            if c == ' ' || c == '\t' || c == '\n' {
                self.advance();
            } else {
                break;
            }
        }
        if self.pos >= self.len {
            return None;
        }
        let ghost rest = lex_from(s, self.pos + 1);
        let c = self.text.get_char(self.pos);
        if c == '+' {
            self.advance();
            proof {
                assert((seq![TokenModel::Plus] + rest.tokens).skip(1) =~= rest.tokens);
            }
            Some(Ok(Token::Plus))
        } else if c == '-' {
            self.advance();
            proof {
                assert((seq![TokenModel::Minus] + rest.tokens).skip(1) =~= rest.tokens);
            }
            Some(Ok(Token::Minus))
        } else if c == '*' {
            self.advance();
            proof {
                assert((seq![TokenModel::Multiply] + rest.tokens).skip(1) =~= rest.tokens);
            }
            Some(Ok(Token::Multiply))
        } else if c == '/' {
            self.advance();
            proof {
                assert((seq![TokenModel::Divide] + rest.tokens).skip(1) =~= rest.tokens);
            }
            Some(Ok(Token::Divide))
        } else if c == '(' {
            self.advance();
            proof {
                assert((seq![TokenModel::Lparen] + rest.tokens).skip(1) =~= rest.tokens);
            }
            Some(Ok(Token::Lparen))
        } else if c == ')' {
            self.advance();
            proof {
                assert((seq![TokenModel::Rparen] + rest.tokens).skip(1) =~= rest.tokens);
            }
            Some(Ok(Token::Rparen))
        } else if is_number(c) {
            let ghost pc = self.pos as int;
            let r = self.get_number();
            proof {
                lemma_num_end_bounds(s, pc + 1, false);
                match &r {
                    Ok(t) => {
                        assert((seq![t@] + self.items().tokens).skip(1) =~= self.items().tokens);
                    },
                    Err(e) => {},
                }
            }
            Some(r)
        } else {
            Some(Err(LexError::IllegalCharacter(c)))
        }
    }
}

} // verus!
