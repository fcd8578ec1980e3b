//! The parser.
//!
//! Recursive descent for statements, Pratt precedence climbing for
//! expressions.  The whole input is tokenised first — [`Parser::new`]'s
//! contract pins the token vector to the lexer's
//! [`spec_tokenizes`](crate::lexer::spec_tokenizes) stream — and the
//! parser then walks it with one token of lookahead.  Failed
//! sub-productions answer `None` and the offending statement is dropped;
//! member access `a.b` is desugared into indexing with a string.  Every
//! production either consumes input or calls a strictly smaller
//! production, so parsing always terminates.
//!
//! The productions carry structural contracts: cursor bounds and
//! monotonicity, termination, and the node kind of every `Some` result.
//! The grammar's input-output behaviour — precedence, desugaring,
//! recovery — is exercised by the test suite.

use vstd::prelude::*;
use crate::ast::{Expression, Program, Statement};
use crate::lexer::{Lexer, spec_tokenizes, spec_token_at, token_start, token_end, char_at};
use crate::token::{Token, TokenType};
use crate::value::clone_chars;

verus! {

pub struct Parser {
    pub tokens: Vec<Token>,
    pub cur: usize,
    /// Accumulated diagnostics.  Recovery currently drops failed
    /// productions silently, so nothing writes here yet.
    pub errors: Vec<String>,
}

impl Parser {
    /// The cursor invariant: at least the closing `EOF` token exists, the
    /// cursor is in bounds, and `EOF` closes the stream exactly once.
    pub open spec fn wf(&self) -> bool {
        &&& self.tokens@.len() >= 1
        &&& self.cur < self.tokens@.len()
        &&& self.tokens@.last().token_type is EOF
        &&& forall|i: int|
            0 <= i < self.tokens@.len() - 1 ==> !((#[trigger] self.tokens@[i]).token_type is EOF)
    }

    /// Tokenise the whole input and stand at its first token: the token
    /// vector is exactly the lexer's token stream of the input, through
    /// its closing `EOF`.
    pub fn new(input: Vec<char>) -> (p: Parser)
        ensures
            p.wf(),
            spec_tokenizes(input@, 0, p.tokens@),
    {
        let ghost inp = input@;
        let mut lexer = Lexer::new(input);
        let mut tokens: Vec<Token> = Vec::new();
        loop
            invariant_except_break
                lexer.wf(),
                lexer.input@ == inp,
                forall|i: int|
                    0 <= i < tokens@.len() ==> !((#[trigger] tokens@[i]).token_type is EOF),
                forall|rest: Seq<Token>|
                    spec_tokenizes(inp, lexer.position as int, rest) ==> spec_tokenizes(
                        inp,
                        0,
                        #[trigger] (tokens@ + rest),
                    ),
            ensures
                tokens@.len() >= 1,
                tokens@.last().token_type is EOF,
                forall|i: int|
                    0 <= i < tokens@.len() - 1 ==> !((#[trigger] tokens@[i]).token_type is EOF),
                spec_tokenizes(inp, 0, tokens@),
            decreases lexer.input@.len() - lexer.position,
        {
            let ghost pos0 = lexer.position as int;
            let ghost toks0 = tokens@;
            let t = lexer.next_token();
            let ghost tg = t;
            let is_eof = match t.token_type {
                TokenType::EOF => true,
                _ => false,
            };
            tokens.push(t);
            proof {
                let q = token_start(inp, pos0);
                assert(spec_token_at(inp, q, tg, token_end(inp, q)));
                if is_eof {
                    assert(char_at(inp, q) == '\u{0}');
                    assert(spec_tokenizes(inp, pos0, seq![tg]));
                    assert(spec_tokenizes(inp, 0, toks0 + seq![tg]));
                    assert(tokens@ =~= toks0 + seq![tg]);
                } else {
                    assert(char_at(inp, q) != '\u{0}');
                    assert(lexer.position as int == token_end(inp, q));
                    assert forall|rest2: Seq<Token>|
                        spec_tokenizes(inp, lexer.position as int, rest2) implies spec_tokenizes(
                        inp,
                        0,
                        #[trigger] (tokens@ + rest2),
                    ) by {
                        let whole = seq![tg] + rest2;
                        assert(whole.drop_first() =~= rest2);
                        assert(whole[0] == tg);
                        assert(spec_tokenizes(inp, pos0, whole));
                        assert(spec_tokenizes(inp, 0, toks0 + whole));
                        assert(toks0 + whole =~= tokens@ + rest2);
                    }
                }
            }
            if is_eof {
                break ;
            }
        }
        Parser { tokens, cur: 0, errors: Vec::new() }
    }

    /// The cursor stands on the closing `EOF`.
    fn cur_is_eof(&self) -> (b: bool)
        requires
            self.wf(),
        ensures
            b == (self.tokens@[self.cur as int].token_type is EOF),
            !b ==> self.cur < self.tokens@.len() - 1,
    {
        proof {
            assert(self.tokens@.last() == self.tokens@[self.tokens@.len() - 1]);
        }
        match self.cur_token().token_type {
            TokenType::EOF => true,
            _ => false,
        }
    }

    /// The cursor stands on a block's end: `}` or the closing `EOF`.
    fn cur_ends_block(&self) -> (b: bool)
        requires
            self.wf(),
        ensures
            !b ==> self.cur < self.tokens@.len() - 1,
    {
        proof {
            assert(self.tokens@.last() == self.tokens@[self.tokens@.len() - 1]);
        }
        match self.cur_token().token_type {
            TokenType::RBrace => true,
            TokenType::EOF => true,
            _ => false,
        }
    }

    /// A comma follows the cursor.
    fn peek_is_comma(&self) -> (b: bool)
        requires
            self.wf(),
        ensures
            b ==> self.cur + 1 < self.tokens@.len(),
    {
        match self.peek_token().token_type {
            TokenType::Comma => true,
            _ => false,
        }
    }

    /// An infix operator that binds tighter than `precedence` follows the
    /// cursor (and no statement-ending semicolon).
    fn infix_continues(&self, precedence: u8) -> (b: bool)
        requires
            self.wf(),
        ensures
            b ==> self.cur + 1 < self.tokens@.len(),
    {
        let is_semi = match self.peek_token().token_type {
            TokenType::SemiColon => true,
            _ => false,
        };
        if is_semi {
            return false;
        }
        proof {
            assert(self.tokens@.last() == self.tokens@[self.tokens@.len() - 1]);
        }
        precedence < precedence_of(&self.peek_token().token_type)
    }

    /// Step to the next token; at the closing `EOF` the cursor parks.
    fn next_token(&mut self)
        requires
            old(self).wf(),
        ensures
            final(self).wf(),
            final(self).tokens == old(self).tokens,
            final(self).cur >= old(self).cur,
            old(self).cur + 1 < old(self).tokens@.len() ==> final(self).cur == old(self).cur + 1,
    {
        if self.cur < self.tokens.len() - 1 {
            self.cur = self.cur + 1;
        }
    }

    /// The token under the cursor.
    fn cur_token(&self) -> (t: &Token)
        requires
            self.wf(),
        ensures
            t == self.tokens@[self.cur as int],
    {
        &self.tokens[self.cur]
    }

    /// The token after the cursor; at the end, the closing `EOF`.
    fn peek_token(&self) -> (t: &Token)
        requires
            self.wf(),
        ensures
            self.cur + 1 < self.tokens@.len() ==> t == self.tokens@[self.cur + 1],
            self.cur + 1 >= self.tokens@.len() ==> t == self.tokens@.last(),
    {
        if self.cur < self.tokens.len() - 1 {
            &self.tokens[self.cur + 1]
        } else {
            &self.tokens[self.tokens.len() - 1]
        }
    }

    /// Parse the whole program, dropping statements whose production
    /// failed.  The token stream is finite, so this always returns.
    pub fn parse(&mut self) -> (r: Result<Program, String>)
        requires
            old(self).wf(),
        ensures
            final(self).wf(),
            r is Ok,
    {
        let mut statements: Vec<Statement> = Vec::new();
        while !self.cur_is_eof()
            invariant
                self.wf(),
            decreases self.tokens@.len() - self.cur,
        {
            match self.parse_statement() {
                Some(stmt) => statements.push(stmt),
                None => (),
            }
            self.next_token();
        }
        Ok(Program { statements })
    }

    fn parse_statement(&mut self) -> (r: Option<Statement>)
        requires
            old(self).wf(),
        ensures
            final(self).wf(),
            final(self).tokens == old(self).tokens,
            final(self).cur >= old(self).cur,
        decreases self.tokens@.len() - self.cur, 9int,
    {
        let kind: usize = match self.cur_token().token_type {
            TokenType::Let => 0,
            TokenType::Const => 1,
            TokenType::Return => 2,
            TokenType::If => 3,
            TokenType::LBrace => 4,
            _ => 5,
        };
        if kind == 0 {
            self.parse_let_statement()
        } else if kind == 1 {
            self.parse_const_statement()
        } else if kind == 2 {
            self.parse_return_statement()
        } else if kind == 3 {
            self.parse_if_statement()
        } else if kind == 4 {
            self.parse_block_statement()
        } else {
            self.parse_expression_statement()
        }
    }

    fn parse_block_statement(&mut self) -> (r: Option<Statement>)
        requires
            old(self).wf(),
            !(old(self).tokens@[old(self).cur as int].token_type is EOF),
        ensures
            final(self).wf(),
            final(self).tokens == old(self).tokens,
            final(self).cur >= old(self).cur,
            r matches Some(s) ==> s is Block,
        decreases self.tokens@.len() - self.cur, 8int,
    {
        proof {
            assert(self.tokens@.last() == self.tokens@[self.tokens@.len() - 1]);
        }
        self.next_token();
        let mut statements: Vec<Statement> = Vec::new();
        while !self.cur_ends_block()
            invariant
                self.wf(),
                self.tokens == old(self).tokens,
                self.cur > old(self).cur,
            decreases self.tokens@.len() - self.cur,
        {
            match self.parse_statement() {
                Some(stmt) => statements.push(stmt),
                None => (),
            }
            self.next_token();
        }
        Some(Statement::Block(statements))
    }

    fn parse_if_statement(&mut self) -> (r: Option<Statement>)
        requires
            old(self).wf(),
        ensures
            final(self).wf(),
            final(self).tokens == old(self).tokens,
            final(self).cur >= old(self).cur,
            r matches Some(s) ==> s is If,
        decreases self.tokens@.len() - self.cur, 8int,
    {
        self.next_token();
        match self.cur_token().token_type {
            TokenType::LParen => (),
            _ => {
                return None;
            },
        }
        self.next_token();
        let condition = match self.parse_expression(0) {
            Some(e) => e,
            None => {
                return None;
            },
        };
        self.next_token();
        match self.cur_token().token_type {
            TokenType::RParen => (),
            _ => {
                return None;
            },
        }
        let at_paren = self.cur;
        self.next_token();
        if self.cur == at_paren {
            // parked at the closing token: no statement can follow
            return None;
        }
        let consequence = match self.parse_statement() {
            Some(s) => s,
            None => {
                return None;
            },
        };
        let mut alternative: Option<Box<Statement>> = None;
        let has_else = match self.peek_token().token_type {
            TokenType::Else => true,
            _ => false,
        };
        if has_else {
            self.next_token();
            let at_else = self.cur;
            self.next_token();
            if self.cur == at_else {
                // parked at the closing token: no statement can follow
                return None;
            }
            alternative = match self.parse_statement() {
                Some(s) => Some(Box::new(s)),
                None => {
                    return None;
                },
            };
        }
        Some(Statement::If { condition, consequence: Box::new(consequence), alternative })
    }

    fn parse_let_statement(&mut self) -> (r: Option<Statement>)
        requires
            old(self).wf(),
        ensures
            final(self).wf(),
            final(self).tokens == old(self).tokens,
            final(self).cur >= old(self).cur,
            r matches Some(s) ==> s is Let,
        decreases self.tokens@.len() - self.cur, 8int,
    {
        let name: Vec<char> = match &self.peek_token().token_type {
            TokenType::Identifier(n) => clone_chars(n),
            _ => {
                return None;
            },
        };
        self.next_token();
        match self.peek_token().token_type {
            TokenType::Assign => (),
            _ => {
                return None;
            },
        }
        self.next_token();
        self.next_token();
        let value = match self.parse_expression(0) {
            Some(e) => e,
            None => {
                return None;
            },
        };
        let semi = match self.peek_token().token_type {
            TokenType::SemiColon => true,
            _ => false,
        };
        if semi {
            self.next_token();
        }
        Some(Statement::Let { name, value })
    }

    fn parse_const_statement(&mut self) -> (r: Option<Statement>)
        requires
            old(self).wf(),
        ensures
            final(self).wf(),
            final(self).tokens == old(self).tokens,
            final(self).cur >= old(self).cur,
            r matches Some(s) ==> s is Const,
        decreases self.tokens@.len() - self.cur, 8int,
    {
        let name: Vec<char> = match &self.peek_token().token_type {
            TokenType::Identifier(n) => clone_chars(n),
            _ => {
                return None;
            },
        };
        self.next_token();
        match self.peek_token().token_type {
            TokenType::Assign => (),
            _ => {
                return None;
            },
        }
        self.next_token();
        self.next_token();
        let value = match self.parse_expression(0) {
            Some(e) => e,
            None => {
                return None;
            },
        };
        let semi = match self.peek_token().token_type {
            TokenType::SemiColon => true,
            _ => false,
        };
        if semi {
            self.next_token();
        }
        Some(Statement::Const { name, value })
    }

    fn parse_return_statement(&mut self) -> (r: Option<Statement>)
        requires
            old(self).wf(),
        ensures
            final(self).wf(),
            final(self).tokens == old(self).tokens,
            final(self).cur >= old(self).cur,
            r matches Some(s) ==> s is Return,
        decreases self.tokens@.len() - self.cur, 8int,
    {
        self.next_token();
        let is_semi = match self.cur_token().token_type {
            TokenType::SemiColon => true,
            _ => false,
        };
        let value: Option<Expression> = if is_semi {
            None
        } else {
            match self.parse_expression(0) {
                Some(e) => Some(e),
                None => {
                    return None;
                },
            }
        };
        let semi = match self.peek_token().token_type {
            TokenType::SemiColon => true,
            _ => false,
        };
        if semi {
            self.next_token();
        }
        Some(Statement::Return(value))
    }

    fn parse_expression_statement(&mut self) -> (r: Option<Statement>)
        requires
            old(self).wf(),
        ensures
            final(self).wf(),
            final(self).tokens == old(self).tokens,
            final(self).cur >= old(self).cur,
            r matches Some(s) ==> s is Expression,
        decreases self.tokens@.len() - self.cur, 8int,
    {
        let expr = match self.parse_expression(0) {
            Some(e) => e,
            None => {
                return None;
            },
        };
        let semi = match self.peek_token().token_type {
            TokenType::SemiColon => true,
            _ => false,
        };
        if semi {
            self.next_token();
        }
        Some(Statement::Expression(expr))
    }

    fn parse_expression(&mut self, precedence: u8) -> (r: Option<Expression>)
        requires
            old(self).wf(),
        ensures
            final(self).wf(),
            final(self).tokens == old(self).tokens,
            final(self).cur >= old(self).cur,
        decreases self.tokens@.len() - self.cur, 7int,
    {
        let mut left = match self.parse_prefix() {
            Some(e) => e,
            None => {
                return None;
            },
        };
        while self.infix_continues(precedence)
            invariant
                self.wf(),
                self.tokens == old(self).tokens,
                self.cur >= old(self).cur,
            decreases self.tokens@.len() - self.cur,
        {
            self.next_token();
            left = match self.parse_infix(left) {
                Some(e) => e,
                None => {
                    return None;
                },
            };
        }
        Some(left)
    }

    fn parse_array_literal(&mut self) -> (r: Option<Expression>)
        requires
            old(self).wf(),
        ensures
            final(self).wf(),
            final(self).tokens == old(self).tokens,
            final(self).cur >= old(self).cur,
            r matches Some(e) ==> e is Array,
        decreases self.tokens@.len() - self.cur, 5int,
    {
        let mut elements: Vec<Expression> = Vec::new();
        let empty = match self.peek_token().token_type {
            TokenType::RBracket => true,
            _ => false,
        };
        if empty {
            self.next_token();
            return Some(Expression::Array(elements));
        }
        let at_open = self.cur;
        self.next_token();
        if self.cur == at_open {
            // parked at the closing token: no element can follow
            return None;
        }
        match self.parse_expression(0) {
            Some(e) => elements.push(e),
            None => {
                return None;
            },
        }
        while self.peek_is_comma()
            invariant
                self.wf(),
                self.tokens == old(self).tokens,
                self.cur > old(self).cur,
            decreases self.tokens@.len() - self.cur,
        {
            self.next_token();
            let at_comma = self.cur;
            self.next_token();
            if self.cur == at_comma {
                // parked at the closing token: no element can follow
                return None;
            }
            match self.parse_expression(0) {
                Some(e) => elements.push(e),
                None => {
                    return None;
                },
            }
        }
        match self.peek_token().token_type {
            TokenType::RBracket => (),
            _ => {
                return None;
            },
        }
        self.next_token();
        Some(Expression::Array(elements))
    }

    fn parse_object_literal(&mut self) -> (r: Option<Expression>)
        requires
            old(self).wf(),
        ensures
            final(self).wf(),
            final(self).tokens == old(self).tokens,
            final(self).cur >= old(self).cur,
            r matches Some(e) ==> e is Object,
        decreases self.tokens@.len() - self.cur, 5int,
    {
        let mut pairs: Vec<(Vec<char>, Expression)> = Vec::new();
        let empty = match self.peek_token().token_type {
            TokenType::RBrace => true,
            _ => false,
        };
        if empty {
            self.next_token();
            return Some(Expression::Object(pairs));
        }
        let at_open = self.cur;
        self.next_token();
        if self.cur == at_open {
            // parked at the closing token: no pair can follow
            return None;
        }
        match self.parse_object_pair() {
            Some(p) => pairs.push(p),
            None => {
                return None;
            },
        }
        while self.peek_is_comma()
            invariant
                self.wf(),
                self.tokens == old(self).tokens,
                self.cur > old(self).cur,
            decreases self.tokens@.len() - self.cur,
        {
            self.next_token();
            let at_comma = self.cur;
            self.next_token();
            if self.cur == at_comma {
                // parked at the closing token: no pair can follow
                return None;
            }
            match self.parse_object_pair() {
                Some(p) => pairs.push(p),
                None => {
                    return None;
                },
            }
        }
        match self.peek_token().token_type {
            TokenType::RBrace => (),
            _ => {
                return None;
            },
        }
        self.next_token();
        Some(Expression::Object(pairs))
    }

    fn parse_object_pair(&mut self) -> (r: Option<(Vec<char>, Expression)>)
        requires
            old(self).wf(),
        ensures
            final(self).wf(),
            final(self).tokens == old(self).tokens,
            final(self).cur >= old(self).cur,
        decreases self.tokens@.len() - self.cur, 4int,
    {
        let key: Vec<char> = match &self.cur_token().token_type {
            TokenType::Identifier(s) => clone_chars(s),
            TokenType::Str(s) => clone_chars(s),
            _ => {
                return None;
            },
        };
        self.next_token();
        match self.cur_token().token_type {
            TokenType::Colon => (),
            _ => {
                return None;
            },
        }
        let at_colon = self.cur;
        self.next_token();
        if self.cur == at_colon {
            // parked at the closing token: no value can follow
            return None;
        }
        let value = match self.parse_expression(0) {
            Some(e) => e,
            None => {
                return None;
            },
        };
        Some((key, value))
    }

    fn parse_index_expression(&mut self, left: Expression) -> (r: Option<Expression>)
        requires
            old(self).wf(),
        ensures
            final(self).wf(),
            final(self).tokens == old(self).tokens,
            final(self).cur >= old(self).cur,
            r matches Some(e) ==> e is Index,
        decreases self.tokens@.len() - self.cur, 5int,
    {
        let at_open = self.cur;
        self.next_token();
        if self.cur == at_open {
            // parked at the closing token: no index can follow
            return None;
        }
        let index = match self.parse_expression(0) {
            Some(e) => e,
            None => {
                return None;
            },
        };
        match self.peek_token().token_type {
            TokenType::RBracket => (),
            _ => {
                return None;
            },
        }
        self.next_token();
        Some(Expression::Index { left: Box::new(left), index: Box::new(index) })
    }

    fn parse_member_expression(&mut self, left: Expression) -> (r: Option<Expression>)
        requires
            old(self).wf(),
        ensures
            final(self).wf(),
            final(self).tokens == old(self).tokens,
            final(self).cur >= old(self).cur,
            r matches Some(e) ==> e is Index,
        decreases self.tokens@.len() - self.cur, 5int,
    {
        self.next_token();
        let property: Vec<char> = match &self.cur_token().token_type {
            TokenType::Identifier(s) => clone_chars(s),
            _ => {
                return None;
            },
        };
        // the production ends on the property token, like every other
        // expression, so an enclosing call or index sees it as the
        // argument's last token
        Some(Expression::Index { left: Box::new(left), index: Box::new(Expression::Str(property)) })
    }

    fn parse_prefix(&mut self) -> (r: Option<Expression>)
        requires
            old(self).wf(),
        ensures
            final(self).wf(),
            final(self).tokens == old(self).tokens,
            final(self).cur >= old(self).cur,
        decreases self.tokens@.len() - self.cur, 6int,
    {
        let kind: usize = match self.cur_token().token_type {
            TokenType::Identifier(_) => 0,
            TokenType::Number(_) => 1,
            TokenType::Str(_) => 2,
            TokenType::LBracket => 3,
            TokenType::LBrace => 4,
            _ => 5,
        };
        if kind == 0 {
            let name: Vec<char> = match &self.cur_token().token_type {
                TokenType::Identifier(n) => clone_chars(n),
                _ => vstd::pervasive::unreached(),
            };
            Some(Expression::Identifier(name))
        } else if kind == 1 {
            let bits: u64 = match self.cur_token().token_type {
                TokenType::Number(b) => b,
                _ => vstd::pervasive::unreached(),
            };
            Some(Expression::Number(bits))
        } else if kind == 2 {
            let sv: Vec<char> = match &self.cur_token().token_type {
                TokenType::Str(s) => clone_chars(s),
                _ => vstd::pervasive::unreached(),
            };
            Some(Expression::Str(sv))
        } else if kind == 3 {
            self.parse_array_literal()
        } else if kind == 4 {
            self.parse_object_literal()
        } else {
            None
        }
    }

    fn parse_infix(&mut self, left: Expression) -> (r: Option<Expression>)
        requires
            old(self).wf(),
        ensures
            final(self).wf(),
            final(self).tokens == old(self).tokens,
            final(self).cur >= old(self).cur,
            r matches Some(e) ==> (e is Infix || e is Call || e is Index),
        decreases self.tokens@.len() - self.cur, 6int,
    {
        let kind: usize = match self.cur_token().token_type {
            TokenType::LParen => 0,
            TokenType::LBracket => 1,
            TokenType::Dot => 2,
            _ => 3,
        };
        if kind == 0 {
            return self.parse_call_expression(left);
        }
        if kind == 1 {
            return self.parse_index_expression(left);
        }
        if kind == 2 {
            return self.parse_member_expression(left);
        }
        let operator: Vec<char> = match self.cur_token().token_type {
            TokenType::Plus => vec!['+'],
            TokenType::Minus => vec!['-'],
            TokenType::Star => vec!['*'],
            TokenType::Slash => vec!['/'],
            TokenType::Equal => vec!['=', '='],
            TokenType::NotEqual => vec!['!', '='],
            TokenType::LessThan => vec!['<'],
            TokenType::GreaterThan => vec!['>'],
            _ => {
                return None;
            },
        };
        let precedence = self.cur_precedence();
        let at_op = self.cur;
        self.next_token();
        if self.cur == at_op {
            // parked at the closing token: no operand can follow
            return None;
        }
        let right = match self.parse_expression(precedence) {
            Some(e) => e,
            None => {
                return None;
            },
        };
        Some(Expression::Infix { left: Box::new(left), operator, right: Box::new(right) })
    }

    fn parse_call_expression(&mut self, function: Expression) -> (r: Option<Expression>)
        requires
            old(self).wf(),
        ensures
            final(self).wf(),
            final(self).tokens == old(self).tokens,
            final(self).cur >= old(self).cur,
            r matches Some(e) ==> e is Call,
        decreases self.tokens@.len() - self.cur, 5int,
    {
        let at_open = self.cur;
        self.next_token();
        if self.cur == at_open {
            // parked at the closing token: no argument list can follow
            return None;
        }
        let mut arguments: Vec<Expression> = Vec::new();
        let empty = match self.cur_token().token_type {
            TokenType::RParen => true,
            _ => false,
        };
        if !empty {
            match self.parse_expression(0) {
                Some(e) => arguments.push(e),
                None => {
                    return None;
                },
            }
            while self.peek_is_comma()
                invariant
                    self.wf(),
                    self.tokens == old(self).tokens,
                    self.cur > old(self).cur,
                decreases self.tokens@.len() - self.cur,
            {
                self.next_token();
                let at_comma = self.cur;
                self.next_token();
                if self.cur == at_comma {
                    // parked at the closing token: no argument can follow
                    return None;
                }
                match self.parse_expression(0) {
                    Some(e) => arguments.push(e),
                    None => {
                        return None;
                    },
                }
            }
        }
        match self.peek_token().token_type {
            TokenType::RParen => (),
            _ => {
                return None;
            },
        }
        self.next_token();
        Some(Expression::Call { function: Box::new(function), arguments })
    }

    /// The binding power of the token after the cursor.
    fn peek_precedence(&self) -> (p: u8)
        requires
            self.wf(),
    {
        precedence_of(&self.peek_token().token_type)
    }

    /// The binding power of the token under the cursor.
    fn cur_precedence(&self) -> (p: u8)
        requires
            self.wf(),
    {
        precedence_of(&self.cur_token().token_type)
    }
}

/// The Pratt precedence table: higher binds tighter.
fn precedence_of(t: &TokenType) -> (p: u8)
    ensures
        t is EOF ==> p == 0,
{
    match t {
        TokenType::Dot => 6,
        TokenType::LParen => 5,
        TokenType::LBracket => 5,
        TokenType::Star => 4,
        TokenType::Slash => 4,
        TokenType::Plus => 3,
        TokenType::Minus => 3,
        TokenType::LessThan => 2,
        TokenType::GreaterThan => 2,
        TokenType::Equal => 1,
        TokenType::NotEqual => 1,
        _ => 0,
    }
}

} // verus!
