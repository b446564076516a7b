use vstd::prelude::*;

use crate::lexer::{LexError, LexErrorModel, LexModel, Lexer};
use crate::nodes::{Node, NodeModel};
use crate::tokens::{Token, TokenModel};

verus! {

/// A fault found while building a tree: a token out of place, the stream's
/// own fault passed on, or a parser invoked over no tokens at all.
#[derive(Clone, Debug, PartialEq)]
pub enum ParseError {
    InvalidSyntax,
    LexError(LexError),
    EmptyInput,
}

/// The mathematical value of a [`ParseError`].
pub enum ParseErrorModel {
    InvalidSyntax,
    LexError(LexErrorModel),
    EmptyInput,
}

impl View for ParseError {
    type V = ParseErrorModel;

    open spec fn view(&self) -> ParseErrorModel {
        match self {
            ParseError::InvalidSyntax => ParseErrorModel::InvalidSyntax,
            ParseError::LexError(e) => ParseErrorModel::LexError(e@),
            ParseError::EmptyInput => ParseErrorModel::EmptyInput,
        }
    }
}

/// Whether moving the cursor to position `j` runs into the stream's fault,
/// which stands just past the last token.
pub open spec fn hits_err(l: LexModel, j: int) -> bool {
    j == l.tokens.len() && l.err is Some
}

/// The stream's fault, passed on as a parse error.
pub open spec fn lex_fail(l: LexModel) -> ParseErrorModel {
    match l.err {
        Some(e) => ParseErrorModel::LexError(e),
        None => ParseErrorModel::InvalidSyntax,
    }
}

/// The cursor a subparse hands back, held into the open-below, closed-above
/// range `(j, len]` that makes the grammar's recursion visibly well-founded.
/// Every subparse hands back a cursor already in that range, so the callers
/// prove this changes nothing.
pub open spec fn step_cursor(k: int, j: int, len: int) -> int {
    if j < k <= len {
        k
    } else {
        j + 1
    }
}

/// `factor := NUMBER | '(' expr ')' | ('+' | '-') factor`
///
/// What parsing one factor at cursor `i` yields: the tree and the cursor
/// just past it, or the first fault met on the way.
pub open spec fn sp_factor(l: LexModel, i: int) -> Result<(NodeModel, int), ParseErrorModel>
    decreases l.tokens.len() - i, 0int,
{
    if !(0 <= i < l.tokens.len()) {
        Err(ParseErrorModel::InvalidSyntax)
    } else {
        match l.tokens[i] {
            TokenModel::Lparen => {
                if hits_err(l, i + 1) {
                    Err(lex_fail(l))
                } else {
                    match sp_expr(l, i + 1) {
                        Err(e) => Err(e),
                        Ok((n, j)) => {
                            if 0 <= j < l.tokens.len() && l.tokens[j] is Rparen {
                                if hits_err(l, j + 1) {
                                    Err(lex_fail(l))
                                } else {
                                    Ok((n, j + 1))
                                }
                            } else {
                                Err(ParseErrorModel::InvalidSyntax)
                            }
                        },
                    }
                }
            },
            TokenModel::Number(t) => {
                if hits_err(l, i + 1) {
                    Err(lex_fail(l))
                } else {
                    Ok((NodeModel::NumberNode(t), i + 1))
                }
            },
            TokenModel::Plus => {
                if hits_err(l, i + 1) {
                    Err(lex_fail(l))
                } else {
                    match sp_factor(l, i + 1) {
                        Err(e) => Err(e),
                        Ok((n, j)) => Ok((NodeModel::PlusNode(Box::new(n)), j)),
                    }
                }
            },
            TokenModel::Minus => {
                if hits_err(l, i + 1) {
                    Err(lex_fail(l))
                } else {
                    match sp_factor(l, i + 1) {
                        Err(e) => Err(e),
                        Ok((n, j)) => Ok((NodeModel::MinusNode(Box::new(n)), j)),
                    }
                }
            },
            _ => Err(ParseErrorModel::InvalidSyntax),
        }
    }
}

/// The left fold of `(('*' | '/') factor)*` onto the tree `acc`, making
/// multiplication and division left-associative.
pub open spec fn sp_term_more(l: LexModel, acc: NodeModel, j: int) -> Result<
    (NodeModel, int),
    ParseErrorModel,
>
    decreases l.tokens.len() - j, 1int,
{
    if !(0 <= j < l.tokens.len()) {
        Ok((acc, j))
    } else if l.tokens[j] is Multiply || l.tokens[j] is Divide {
        if hits_err(l, j + 1) {
            Err(lex_fail(l))
        } else {
            match sp_factor(l, j + 1) {
                Err(e) => Err(e),
                Ok((n, k)) => {
                    let acc2 = if l.tokens[j] is Multiply {
                        NodeModel::MultiplyNode(Box::new(acc), Box::new(n))
                    } else {
                        NodeModel::DivideNode(Box::new(acc), Box::new(n))
                    };
                    sp_term_more(l, acc2, step_cursor(k, j, l.tokens.len() as int))
                },
            }
        }
    } else {
        Ok((acc, j))
    }
}

/// `term := factor (('*' | '/') factor)*`
pub open spec fn sp_term(l: LexModel, i: int) -> Result<(NodeModel, int), ParseErrorModel>
    decreases l.tokens.len() - i, 2int,
{
    if !(0 <= i < l.tokens.len()) {
        Err(ParseErrorModel::InvalidSyntax)
    } else {
        match sp_factor(l, i) {
            Err(e) => Err(e),
            Ok((n, j)) => sp_term_more(l, n, step_cursor(j, i, l.tokens.len() as int)),
        }
    }
}

/// The left fold of `(('+' | '-') term)*` onto the tree `acc`, making
/// addition and subtraction left-associative.
pub open spec fn sp_expr_more(l: LexModel, acc: NodeModel, j: int) -> Result<
    (NodeModel, int),
    ParseErrorModel,
>
    decreases l.tokens.len() - j, 3int,
{
    if !(0 <= j < l.tokens.len()) {
        Ok((acc, j))
    } else if l.tokens[j] is Plus || l.tokens[j] is Minus {
        if hits_err(l, j + 1) {
            Err(lex_fail(l))
        } else {
            match sp_term(l, j + 1) {
                Err(e) => Err(e),
                Ok((n, k)) => {
                    let acc2 = if l.tokens[j] is Plus {
                        NodeModel::AddNode(Box::new(acc), Box::new(n))
                    } else {
                        NodeModel::SubtractNode(Box::new(acc), Box::new(n))
                    };
                    sp_expr_more(l, acc2, step_cursor(k, j, l.tokens.len() as int))
                },
            }
        }
    } else {
        Ok((acc, j))
    }
}

/// `expr := term (('+' | '-') term)*`
pub open spec fn sp_expr(l: LexModel, i: int) -> Result<(NodeModel, int), ParseErrorModel>
    decreases l.tokens.len() - i, 4int,
{
    if !(0 <= i < l.tokens.len()) {
        Err(ParseErrorModel::InvalidSyntax)
    } else {
        match sp_term(l, i) {
            Err(e) => Err(e),
            Ok((n, j)) => sp_expr_more(l, n, step_cursor(j, i, l.tokens.len() as int)),
        }
    }
}

/// What one whole parse of the stream `l` yields: the stream's fault where
/// it stands before any token, `EmptyInput` for a stream with no tokens at
/// all, otherwise one `expr` that must consume every token, trailing ones
/// being a fault of their own.
pub open spec fn sp_parse(l: LexModel) -> Result<NodeModel, ParseErrorModel> {
    if l.tokens.len() == 0 && l.err is Some {
        Err(lex_fail(l))
    } else if l.tokens.len() == 0 {
        Err(ParseErrorModel::EmptyInput)
    } else {
        match sp_expr(l, 0) {
            Err(e) => Err(e),
            Ok((n, j)) => {
                if j < l.tokens.len() {
                    Err(ParseErrorModel::InvalidSyntax)
                } else {
                    Ok(n)
                }
            },
        }
    }
}

/// The view of what a subparse hands back, paired with the cursor it left.
pub open spec fn step_model(r: Result<Box<Node>, ParseError>, pos: int) -> Result<
    (NodeModel, int),
    ParseErrorModel,
> {
    match r {
        Ok(n) => Ok((n@, pos)),
        Err(e) => Err(e@),
    }
}

/// The view of what a whole parse hands back.
pub open spec fn parse_model(r: Result<Box<Node>, ParseError>) -> Result<
    NodeModel,
    ParseErrorModel,
> {
    match r {
        Ok(n) => Ok(n@),
        Err(e) => Err(e@),
    }
}

fn clone_lex_error(e: &LexError) -> (r: LexError)
    ensures
        r@ == e@,
{
    match e {
        LexError::IllegalCharacter(c) => LexError::IllegalCharacter(*c),
        LexError::MalformedNumber(s) => LexError::MalformedNumber(s.clone()),
    }
}

fn clone_token(t: &Token) -> (r: Token)
    ensures
        r@ == t@,
{
    match t {
        Token::Number(s) => Token::Number(s.clone()),
        Token::Plus => Token::Plus,
        Token::Minus => Token::Minus,
        Token::Multiply => Token::Multiply,
        Token::Divide => Token::Divide,
        Token::Lparen => Token::Lparen,
        Token::Rparen => Token::Rparen,
    }
}

/// Reads the whole token stream of a lexer up front, then builds one tree
/// from it by recursive descent with one token of lookahead.
pub struct Parser {
    toks: Vec<Token>,
    terr: Option<LexError>,
    pos: usize,
}

impl Parser {
    /// The token stream this parser was built over.
    pub closed spec fn items(self) -> LexModel {
        LexModel {
            tokens: Seq::new(self.toks@.len(), |i: int| self.toks@[i]@),
            err: match self.terr {
                Some(e) => Some(e@),
                None => None,
            },
        }
    }

    /// The cursor stands inside the token list.
    pub closed spec fn wf(self) -> bool {
        self.pos <= self.toks@.len()
    }

    /// Whether no token has been consumed yet. `parse` describes a parser
    /// in this state, the one `new` hands out; a parser is single-use.
    pub closed spec fn fresh(self) -> bool {
        self.pos == 0
    }

    /// Drains `lexer` into a parser that holds its whole stream.
    pub fn new(lexer: Lexer<'_>) -> (p: Parser)
        requires
            lexer.wf(),
        ensures
            p.wf(),
            p.fresh(),
            p.items() == lexer.items(),
    {
        let mut lx = lexer;
        let mut toks: Vec<Token> = Vec::new();
        let mut terr: Option<LexError> = None;
        loop
            invariant_except_break
                terr is None,
                lexer.items().tokens =~= Seq::new(toks@.len(), |i: int| toks@[i]@)
                    + lx.items().tokens,
                lexer.items().err == lx.items().err,
            invariant
                lx.wf(),
            ensures
                lexer.items().tokens =~= Seq::new(toks@.len(), |i: int| toks@[i]@),
                lexer.items().err == (match terr {
                    Some(e) => Some(e@),
                    None => None,
                }),
            decreases lx.items().tokens.len(),
        {
            let ghost pre = Seq::new(toks@.len(), |i: int| toks@[i]@);
            let ghost before = lx.items().tokens;
            match lx.next() {
                None => {
                    break;
                },
                Some(Ok(t)) => {
                    toks.push(t);
                    proof {
                        assert(seq![t@] + lx.items().tokens =~= before);
                        assert(Seq::new(toks@.len(), |i: int| toks@[i]@) =~= pre.push(t@));
                        assert(pre + before =~= pre.push(t@) + lx.items().tokens);
                    }
                },
                Some(Err(e)) => {
                    terr = Some(e);
                    proof {
                        assert(lexer.items().tokens =~= Seq::new(toks@.len(), |i: int| toks@[i]@));
                    }
                    break;
                },
            }
        }
        Parser { toks, terr, pos: 0 }
    }

    /// Moves the cursor past the current token; the fault of a stream that
    /// ends in one is met exactly when the cursor steps onto its place.
    fn advance(&mut self) -> (r: Result<(), LexError>)
        requires
            old(self).wf(),
            old(self).pos < old(self).toks@.len(),
        ensures
            final(self).wf(),
            final(self).items() == old(self).items(),
            final(self).pos == old(self).pos + 1,
            match r {
                Ok(()) => !hits_err(old(self).items(), old(self).pos + 1),
                Err(e) => hits_err(old(self).items(), old(self).pos + 1) && old(
                    self,
                ).items().err == Some(e@),
            },
    {
        let n = self.toks.len();
        self.pos = self.pos + 1;
        if self.pos == n {
            match &self.terr {
                Some(e) => Err(clone_lex_error(e)),
                None => Ok(()),
            }
        } else {
            Ok(())
        }
    }

    /// One `factor` of the grammar, yielding exactly `sp_factor` at the old
    /// cursor.
    fn factor(&mut self) -> (r: Result<Box<Node>, ParseError>)
        requires
            old(self).wf(),
        ensures
            final(self).wf(),
            final(self).items() == old(self).items(),
            step_model(r, final(self).pos as int) == sp_factor(
                old(self).items(),
                old(self).pos as int,
            ),
            r is Ok ==> old(self).pos < final(self).pos <= final(self).toks@.len(),
        decreases old(self).toks@.len() - old(self).pos, 0int,
    {
        if self.pos >= self.toks.len() {
            return Err(ParseError::InvalidSyntax);
        }
        let t = clone_token(&self.toks[self.pos]);
        match t {
            Token::Lparen => {
                match self.advance() {
                    Err(e) => return Err(ParseError::LexError(e)),
                    Ok(()) => {},
                }
                let inner = match self.expr() {
                    Err(e) => return Err(e),
                    Ok(n) => n,
                };
                if self.pos >= self.toks.len() {
                    return Err(ParseError::InvalidSyntax);
                }
                let is_close = match &self.toks[self.pos] {
                    Token::Rparen => true,
                    _ => false,
                };
                if !is_close {
                    return Err(ParseError::InvalidSyntax);
                }
                match self.advance() {
                    Err(e) => return Err(ParseError::LexError(e)),
                    Ok(()) => {},
                }
                Ok(inner)
            },
            Token::Number(s) => {
                match self.advance() {
                    Err(e) => return Err(ParseError::LexError(e)),
                    Ok(()) => {},
                }
                Ok(Box::new(Node::NumberNode(s)))
            },
            Token::Plus => {
                match self.advance() {
                    Err(e) => return Err(ParseError::LexError(e)),
                    Ok(()) => {},
                }
                match self.factor() {
                    Err(e) => Err(e),
                    Ok(n) => Ok(Box::new(Node::PlusNode(n))),
                }
            },
            Token::Minus => {
                match self.advance() {
                    Err(e) => return Err(ParseError::LexError(e)),
                    Ok(()) => {},
                }
                match self.factor() {
                    Err(e) => Err(e),
                    Ok(n) => Ok(Box::new(Node::MinusNode(n))),
                }
            },
            _ => Err(ParseError::InvalidSyntax),
        }
    }

    /// One `term` of the grammar, yielding exactly `sp_term` at the old
    /// cursor.
    fn term(&mut self) -> (r: Result<Box<Node>, ParseError>)
        requires
            old(self).wf(),
        ensures
            final(self).wf(),
            final(self).items() == old(self).items(),
            step_model(r, final(self).pos as int) == sp_term(
                old(self).items(),
                old(self).pos as int,
            ),
            r is Ok ==> old(self).pos < final(self).pos <= final(self).toks@.len(),
        decreases old(self).toks@.len() - old(self).pos, 1int,
    {
        let ghost l = old(self).items();
        let ghost i0 = old(self).pos as int;
        if self.pos >= self.toks.len() {
            return Err(ParseError::InvalidSyntax);
        }
        let mut result = match self.factor() {
            Err(e) => return Err(e),
            Ok(n) => n,
        };
        proof {
            assert(step_cursor(self.pos as int, i0, l.tokens.len() as int) == self.pos as int);
        }
        loop
            invariant
                self.wf(),
                self.items() == l,
                l == old(self).items(),
                i0 == old(self).pos as int,
                i0 < self.pos <= self.toks@.len(),
                sp_term(l, i0) == sp_term_more(l, result@, self.pos as int),
            ensures
                self.wf(),
                self.items() == l,
                i0 < self.pos <= self.toks@.len(),
                sp_term(l, i0) == sp_term_more(l, result@, self.pos as int),
                self.pos == self.toks@.len() || !(l.tokens[self.pos as int] is Multiply
                    || l.tokens[self.pos as int] is Divide),
            decreases self.toks@.len() - self.pos,
        {
            if self.pos >= self.toks.len() {
                break;
            }
            let is_mul = match &self.toks[self.pos] {
                Token::Multiply => true,
                _ => false,
            };
            let is_div = match &self.toks[self.pos] {
                Token::Divide => true,
                _ => false,
            };
            if !is_mul && !is_div {
                break;
            }
            let ghost j = self.pos as int;
            match self.advance() {
                Err(e) => return Err(ParseError::LexError(e)),
                Ok(()) => {},
            }
            let rhs = match self.factor() {
                Err(e) => return Err(e),
                Ok(n) => n,
            };
            proof {
                assert(step_cursor(self.pos as int, j, l.tokens.len() as int) == self.pos as int);
            }
            result = if is_mul {
                Box::new(Node::MultiplyNode(result, rhs))
            } else {
                Box::new(Node::DivideNode(result, rhs))
            };
        }
        Ok(result)
    }

    /// One `expr` of the grammar, yielding exactly `sp_expr` at the old
    /// cursor.
    fn expr(&mut self) -> (r: Result<Box<Node>, ParseError>)
        requires
            old(self).wf(),
        ensures
            final(self).wf(),
            final(self).items() == old(self).items(),
            step_model(r, final(self).pos as int) == sp_expr(
                old(self).items(),
                old(self).pos as int,
            ),
            r is Ok ==> old(self).pos < final(self).pos <= final(self).toks@.len(),
        decreases old(self).toks@.len() - old(self).pos, 2int,
    {
        let ghost l = old(self).items();
        let ghost i0 = old(self).pos as int;
        if self.pos >= self.toks.len() {
            return Err(ParseError::InvalidSyntax);
        }
        let mut result = match self.term() {
            Err(e) => return Err(e),
            Ok(n) => n,
        };
        proof {
            assert(step_cursor(self.pos as int, i0, l.tokens.len() as int) == self.pos as int);
        }
        loop
            invariant
                self.wf(),
                self.items() == l,
                l == old(self).items(),
                i0 == old(self).pos as int,
                i0 < self.pos <= self.toks@.len(),
                sp_expr(l, i0) == sp_expr_more(l, result@, self.pos as int),
            ensures
                self.wf(),
                self.items() == l,
                i0 < self.pos <= self.toks@.len(),
                sp_expr(l, i0) == sp_expr_more(l, result@, self.pos as int),
                self.pos == self.toks@.len() || !(l.tokens[self.pos as int] is Plus
                    || l.tokens[self.pos as int] is Minus),
            decreases self.toks@.len() - self.pos,
        {
            if self.pos >= self.toks.len() {
                break;
            }
            let is_add = match &self.toks[self.pos] {
                Token::Plus => true,
                _ => false,
            };
            let is_sub = match &self.toks[self.pos] {
                Token::Minus => true,
                _ => false,
            };
            if !is_add && !is_sub {
                break;
            }
            let ghost j = self.pos as int;
            match self.advance() {
                Err(e) => return Err(ParseError::LexError(e)),
                Ok(()) => {},
            }
            let rhs = match self.term() {
                Err(e) => return Err(e),
                Ok(n) => n,
            };
            proof {
                assert(step_cursor(self.pos as int, j, l.tokens.len() as int) == self.pos as int);
            }
            result = if is_add {
                Box::new(Node::AddNode(result, rhs))
            } else {
                Box::new(Node::SubtractNode(result, rhs))
            };
        }
        Ok(result)
    }

    /// Builds the one tree of the whole stream: exactly `sp_parse` of the
    /// stream this parser was built over, when no token has been consumed
    /// yet.
    pub fn parse(&mut self) -> (r: Result<Box<Node>, ParseError>)
        requires
            old(self).wf(),
        ensures
            final(self).wf(),
            old(self).fresh() ==> parse_model(r) == sp_parse(old(self).items()),
    {
        if self.toks.len() == 0 {
            match &self.terr {
                Some(e) => {
                    let e2 = clone_lex_error(e);
                    return Err(ParseError::LexError(e2));
                },
                None => {
                    return Err(ParseError::EmptyInput);
                },
            }
        }
        let result = match self.expr() {
            Err(e) => return Err(e),
            Ok(n) => n,
        };
        if self.pos < self.toks.len() {
            return Err(ParseError::InvalidSyntax);
        }
        Ok(result)
    }
}

} // verus!
