//! The recursive-descent parser with precedence climbing, specified
//! twice over. The grammar stands as a family of spec relations, one per
//! precedence level, each saying that an expression or statement is a
//! derivation of exactly the token range `[i, j)`; every parsing
//! function is proved to return, on success, a derivation of exactly the
//! tokens it consumed. Alongside, a functional specification (the
//! `parse_..._at` functions) computes for every position either the end
//! of the parse or the exact error — line and message — of the first
//! failed expectation; every parsing function is proved to return
//! precisely that outcome, so success is owed exactly where the
//! specification succeeds, and a failed expectation aborts parsing with
//! exactly the stated error (single-error abort: there is no resumption
//! after a parse error). That the functional specification succeeds on
//! every token sequence the relations can derive is the one direction
//! not proved here; the derivation clauses pin what a successful parse
//! returns, and the functional clauses pin when it succeeds and what
//! error it reports.

use vstd::prelude::*;

use crate::parser::expression::{Assign, Binary, Expr, Grouping, Literal, Unary, Variable};
use crate::parser::interpreter::{ErrM, RuntimeError};
use crate::parser::statements::{Block, ExpressionStmt, If, PrintStmt, Stmt, Var};
use crate::scanner::scanner::token_views;
use crate::scanner::token::{LiteralType, Token, TokenM, TokenType, Val};

verus! {

/// `e` derives `primary` over `toks[i .. j)`: a literal, a variable, or
/// a parenthesized expression.
pub open spec fn parses_primary(toks: Seq<TokenM>, i: int, j: int, e: Expr) -> bool
    decreases e, 1int,
{
    match e {
        Expr::Literal(l) => 0 <= i && j == i + 1 && j <= toks.len() && (
        ((toks[i].token_type == TokenType::NUMBER || toks[i].token_type == TokenType::STRING)
            && l.value@ == toks[i].literal) || (toks[i].token_type == TokenType::TRUE && l.value@
            == Val::VBool(true)) || (toks[i].token_type == TokenType::FALSE && l.value@
            == Val::VBool(false)) || (toks[i].token_type == TokenType::NIL && l.value@
            == Val::VNil)),
        Expr::Variable(v) => 0 <= i && j == i + 1 && j <= toks.len() && toks[i].token_type
            == TokenType::IDENTIFIER && v.name@ == toks[i],
        Expr::Grouping(g) => 0 <= i && i + 2 <= j <= toks.len() && toks[i].token_type
            == TokenType::LEFT_PAREN && toks[j - 1].token_type == TokenType::RIGHT_PAREN
            && parses_expression(toks, i + 1, j - 1, *g.expression),
        _ => false,
    }
}

/// `e` derives `unary`: `!`/`-` applied to a unary, or a primary.
pub open spec fn parses_unary(toks: Seq<TokenM>, i: int, j: int, e: Expr) -> bool
    decreases e, 2int,
{
    ||| (e matches Expr::Unary(u) && 0 <= i && i < j <= toks.len() && (u.operator@.token_type
        == TokenType::BANG || u.operator@.token_type == TokenType::MINUS) && u.operator@ == toks[i]
        && parses_unary(toks, i + 1, j, *u.right))
    ||| parses_primary(toks, i, j, e)
}

/// `e` derives `factor`: a left-associated `*`/`/` chain of unaries.
pub open spec fn parses_factor(toks: Seq<TokenM>, i: int, j: int, e: Expr) -> bool
    decreases e, 3int,
{
    ||| (e matches Expr::Binary(b) && (b.operator@.token_type == TokenType::STAR
        || b.operator@.token_type == TokenType::SLASH) && (exists|k: int|
        #![trigger toks[k]]
        i < k < j && b.operator@ == toks[k] && parses_factor(toks, i, k, *b.left) && parses_unary(
            toks,
            k + 1,
            j,
            *b.right,
        )))
    ||| parses_unary(toks, i, j, e)
}

/// `e` derives `term`: a left-associated `+`/`-` chain of factors.
pub open spec fn parses_term(toks: Seq<TokenM>, i: int, j: int, e: Expr) -> bool
    decreases e, 4int,
{
    ||| (e matches Expr::Binary(b) && (b.operator@.token_type == TokenType::PLUS
        || b.operator@.token_type == TokenType::MINUS) && (exists|k: int|
        #![trigger toks[k]]
        i < k < j && b.operator@ == toks[k] && parses_term(toks, i, k, *b.left) && parses_factor(
            toks,
            k + 1,
            j,
            *b.right,
        )))
    ||| parses_factor(toks, i, j, e)
}

/// `e` derives `comparison`: a left-associated ordering chain of terms.
pub open spec fn parses_comparison(toks: Seq<TokenM>, i: int, j: int, e: Expr) -> bool
    decreases e, 5int,
{
    ||| (e matches Expr::Binary(b) && (b.operator@.token_type == TokenType::LESS
        || b.operator@.token_type == TokenType::LESS_EQUAL || b.operator@.token_type
        == TokenType::GREATER || b.operator@.token_type == TokenType::GREATER_EQUAL) && (
    exists|k: int|
        #![trigger toks[k]]
        i < k < j && b.operator@ == toks[k] && parses_comparison(toks, i, k, *b.left)
            && parses_term(toks, k + 1, j, *b.right)))
    ||| parses_term(toks, i, j, e)
}

/// `e` derives `equality`: a left-associated `==`/`!=` chain.
pub open spec fn parses_equality(toks: Seq<TokenM>, i: int, j: int, e: Expr) -> bool
    decreases e, 6int,
{
    ||| (e matches Expr::Binary(b) && (b.operator@.token_type == TokenType::EQUAL_EQUAL
        || b.operator@.token_type == TokenType::BANG_EQUAL) && (exists|k: int|
        #![trigger toks[k]]
        i < k < j && b.operator@ == toks[k] && parses_equality(toks, i, k, *b.left)
            && parses_comparison(toks, k + 1, j, *b.right)))
    ||| parses_comparison(toks, i, j, e)
}

/// `e` derives `assignment`: `IDENTIFIER "=" assignment`, or an equality.
pub open spec fn parses_assignment(toks: Seq<TokenM>, i: int, j: int, e: Expr) -> bool
    decreases e, 7int,
{
    ||| (e matches Expr::Assign(a) && 0 <= i && i + 2 < j <= toks.len() && toks[i].token_type
        == TokenType::IDENTIFIER && a.name@ == toks[i] && toks[i + 1].token_type
        == TokenType::EQUAL && parses_assignment(toks, i + 2, j, *a.value))
    ||| parses_equality(toks, i, j, e)
}

/// `e` derives `expression`.
pub open spec fn parses_expression(toks: Seq<TokenM>, i: int, j: int, e: Expr) -> bool
    decreases e, 8int,
{
    parses_assignment(toks, i, j, e)
}

/// The tail of a variable declaration, after the `var` keyword:
/// `IDENTIFIER ("=" expression)? ";"`.
pub open spec fn var_decl_tail(toks: Seq<TokenM>, i: int, j: int, v: Var) -> bool {
    &&& 0 <= i
    &&& j <= toks.len()
    &&& toks[i].token_type == TokenType::IDENTIFIER
    &&& v.name@ == toks[i]
    &&& (match v.initializer {
        None => j == i + 2 && toks[i + 1].token_type == TokenType::SEMICOLON,
        Some(e) => i + 3 <= j && toks[i + 1].token_type == TokenType::EQUAL && parses_expression(
            toks,
            i + 2,
            j - 1,
            e,
        ) && toks[j - 1].token_type == TokenType::SEMICOLON,
    })
}

/// The tail of an `if` statement, after the `if` keyword:
/// `"(" expression ")" statement ("else" statement)?`.
pub open spec fn if_tail(toks: Seq<TokenM>, i: int, j: int, f: If) -> bool
    decreases f, 0int,
{
    &&& 0 <= i
    &&& j <= toks.len()
    &&& toks[i].token_type == TokenType::LEFT_PAREN
    &&& (exists|k: int|
        #![trigger toks[k]]
        i + 1 < k < j && parses_expression(toks, i + 1, k, f.condition) && toks[k].token_type
            == TokenType::RIGHT_PAREN && (match f.else_branch {
            None => stmt_at(toks, k + 1, j, *f.then_branch),
            Some(el) => exists|m: int|
                #![trigger toks[m]]
                k < m < j && stmt_at(toks, k + 1, m, *f.then_branch) && toks[m].token_type
                    == TokenType::ELSE && stmt_at(toks, m + 1, j, *el),
        }))
}

/// `s` derives one statement over exactly `toks[i .. j)`.
pub open spec fn stmt_at(toks: Seq<TokenM>, i: int, j: int, s: Stmt) -> bool
    decreases s, 0int,
{
    match s {
        Stmt::Expression(es) => 0 <= i && i < j <= toks.len() && parses_expression(
            toks,
            i,
            j - 1,
            es.expression,
        ) && toks[j - 1].token_type == TokenType::SEMICOLON,
        Stmt::Print(ps) => 0 <= i && i + 1 < j <= toks.len() && toks[i].token_type
            == TokenType::PRINT && parses_expression(toks, i + 1, j - 1, ps.expression) && toks[j
            - 1].token_type == TokenType::SEMICOLON,
        Stmt::Var(v) => 0 <= i && j <= toks.len() && toks[i].token_type == TokenType::VAR
            && var_decl_tail(toks, i + 1, j, v),
        Stmt::Block(b) => 0 <= i && i + 1 < j <= toks.len() && toks[i].token_type
            == TokenType::LEFT_BRACE && toks[j - 1].token_type == TokenType::RIGHT_BRACE
            && stmts_at(toks, i + 1, j - 1, b.statements@),
        Stmt::If(f) => 0 <= i && j <= toks.len() && toks[i].token_type == TokenType::IF && if_tail(
            toks,
            i + 1,
            j,
            f,
        ),
    }
}

/// Marks the position where one derivation ends and the next begins;
/// always true, it only carries the quantifier trigger below.
pub open spec fn cut_at(k: int) -> bool {
    true
}

/// `ss` derives a statement sequence over exactly `toks[i .. j)`.
pub open spec fn stmts_at(toks: Seq<TokenM>, i: int, j: int, ss: Seq<Stmt>) -> bool
    decreases ss, 0int,
{
    if ss.len() == 0 {
        i == j
    } else {
        exists|k: int|
            #![trigger cut_at(k)]
            cut_at(k) && stmt_at(toks, i, k, ss[0]) && stmts_at(toks, k, j, ss.drop_first())
    }
}

/// Extending a derived sequence by one derived statement derives the
/// extended range.
proof fn lemma_stmts_at_append(toks: Seq<TokenM>, i: int, k: int, j: int, ss: Seq<Stmt>, s: Stmt)
    requires
        stmts_at(toks, i, k, ss),
        stmt_at(toks, k, j, s),
    ensures
        stmts_at(toks, i, j, ss.push(s)),
    decreases ss.len(),
{
    if ss.len() == 0 {
        assert(ss.push(s)[0] == s);
        assert(ss.push(s).drop_first() =~= ss);
        assert(cut_at(j) && stmt_at(toks, i, j, ss.push(s)[0]) && stmts_at(
            toks,
            j,
            j,
            ss.push(s).drop_first(),
        ));
    } else {
        let k1 = choose|k1: int|
            cut_at(k1) && stmt_at(toks, i, k1, ss[0]) && stmts_at(toks, k1, k, ss.drop_first());
        lemma_stmts_at_append(toks, k1, k, j, ss.drop_first(), s);
        assert(ss.push(s)[0] == ss[0]);
        assert(ss.push(s).drop_first() =~= ss.drop_first().push(s));
        assert(cut_at(k1) && stmt_at(toks, i, k1, ss.push(s)[0]) && stmts_at(
            toks,
            k1,
            j,
            ss.push(s).drop_first(),
        ));
    }
}

/// An equality-level derivation that is a bare variable spans exactly one
/// `IDENTIFIER` token.
proof fn lemma_variable_is_single(toks: Seq<TokenM>, i: int, j: int, v: Variable)
    requires
        parses_equality(toks, i, j, Expr::Variable(v)),
    ensures
        j == i + 1,
        0 <= i < toks.len(),
        toks[i].token_type == TokenType::IDENTIFIER,
        v.name@ == toks[i],
{
    assert(parses_comparison(toks, i, j, Expr::Variable(v)));
    assert(parses_term(toks, i, j, Expr::Variable(v)));
    assert(parses_factor(toks, i, j, Expr::Variable(v)));
    assert(parses_unary(toks, i, j, Expr::Variable(v)));
    assert(parses_primary(toks, i, j, Expr::Variable(v)));
}

} // verus!

verus! {

/// The parser's cursor over a scanned token list, which always ends with
/// the `EOF` sentinel.
pub struct Parser {
    pub tokens: Vec<Token>,
    pub current: usize,
}

impl Parser {
    /// The models of the tokens being parsed.
    pub open spec fn toks(&self) -> Seq<TokenM> {
        token_views(self.tokens@)
    }

    /// The cursor sits on a token, and the list ends with `EOF`, so the
    /// cursor can never run off the end.
    pub open spec fn wf(&self) -> bool {
        &&& self.current < self.tokens@.len()
        &&& self.toks()[self.tokens@.len() - 1].token_type == TokenType::EOF
    }

    /// A parser at the first of the given tokens.
    pub fn new(tokens: Vec<Token>) -> (p: Parser)
        requires
            tokens@.len() >= 1,
            token_views(tokens@).last().token_type == TokenType::EOF,
        ensures
            p.wf(),
            p.tokens == tokens,
            p.current == 0,
    {
        Parser { tokens, current: 0 }
    }

    fn peek(&self) -> (t: &Token)
        requires
            self.wf(),
        ensures
            t@ == self.toks()[self.current as int],
    {
        &self.tokens[self.current]
    }

    fn previous(&self) -> (t: Token)
        requires
            self.wf(),
            self.current >= 1,
        ensures
            t@ == self.toks()[self.current as int - 1],
    {
        self.tokens[self.current - 1].duplicate()
    }

    fn is_at_end(&self) -> (r: bool)
        requires
            self.wf(),
        ensures
            r == (self.toks()[self.current as int].token_type == TokenType::EOF),
    {
        self.peek().token_type == TokenType::EOF
    }

    fn check(&self, token_type: TokenType) -> (r: bool)
        requires
            self.wf(),
        ensures
            r == (self.toks()[self.current as int].token_type == token_type && token_type
                != TokenType::EOF),
    {
        if self.is_at_end() {
            return false;
        }
        self.peek().token_type == token_type
    }

    fn advance(&mut self) -> (t: Token)
        requires
            old(self).wf(),
            old(self).toks()[old(self).current as int].token_type != TokenType::EOF,
        ensures
            final(self).wf(),
            final(self).tokens == old(self).tokens,
            final(self).current == old(self).current + 1,
            t@ == old(self).toks()[old(self).current as int],
    {
        // Mentioning the length lets the prover see the step stays in bounds.
        let _len: usize = self.tokens.len();
        self.current = self.current + 1;
        self.previous()
    }

    fn match_token(&mut self, token_type: TokenType) -> (r: bool)
        requires
            old(self).wf(),
        ensures
            final(self).wf(),
            final(self).tokens == old(self).tokens,
            r == (old(self).toks()[old(self).current as int].token_type == token_type && token_type
                != TokenType::EOF),
            r ==> final(self).current == old(self).current + 1,
            !r ==> final(self).current == old(self).current,
    {
        if self.check(token_type) {
            self.advance();
            return true;
        }
        false
    }

    #[verifier::loop_isolation(false)]
    fn match_tokens(&mut self, types: &Vec<TokenType>) -> (r: bool)
        requires
            old(self).wf(),
        ensures
            final(self).wf(),
            final(self).tokens == old(self).tokens,
            r == (exists|n: int|
                0 <= n < types@.len() && old(self).toks()[old(self).current as int].token_type
                    == types@[n] && types@[n] != TokenType::EOF),
            r ==> final(self).current == old(self).current + 1,
            !r ==> final(self).current == old(self).current,
    {
        let mut idx: usize = 0;
        while idx < types.len()
            invariant
                idx <= types@.len(),
                self.tokens == old(self).tokens,
                self.current == old(self).current,
                forall|n: int|
                    0 <= n < idx ==> !(self.toks()[self.current as int].token_type == types@[n]
                        && types@[n] != TokenType::EOF),
            decreases types@.len() - idx,
        {
            if self.match_token(types[idx]) {
                return true;
            }
            idx = idx + 1;
        }
        false
    }

    /// Takes the expected token and advances, or reports `message` at the
    /// offending token's line without advancing.
    fn consume(&mut self, token_type: TokenType, message: String) -> (r: Result<
        Token,
        RuntimeError,
    >)
        requires
            old(self).wf(),
            token_type != TokenType::EOF,
        ensures
            final(self).wf(),
            final(self).tokens == old(self).tokens,
            old(self).toks()[old(self).current as int].token_type == token_type ==> (r matches Ok(
                t,
            ) && t@ == old(self).toks()[old(self).current as int] && final(self).current == old(
                self,
            ).current + 1),
            old(self).toks()[old(self).current as int].token_type != token_type ==> (r matches Err(
                e,
            ) && e.message == message && e.line as int == old(self).toks()[old(
                self,
            ).current as int].line && final(self).current == old(self).current),
    {
        if self.check(token_type) {
            return Ok(self.advance());
        }
        let line = self.peek().line;
        Err(RuntimeError::error(line, message))
    }
}

} // verus!

verus! {

impl Parser {
    /// Parses `primary`: on success the returned expression derives
    /// exactly the consumed tokens.
    fn primary(&mut self) -> (r: Result<Expr, RuntimeError>)
        requires
            old(self).wf(),
        ensures
            final(self).wf(),
            final(self).tokens == old(self).tokens,
            old(self).current <= final(self).current,
            r is Ok ==> old(self).current < final(self).current,
            r matches Ok(e) ==> parses_primary(
                old(self).toks(),
                old(self).current as int,
                final(self).current as int,
                e,
            ),
            (match r {
                Ok(e) => parse_primary_at(old(self).toks(), old(self).current as int) == Ok::<int, ErrM>(
                    final(self).current as int,
                ),
                Err(er) => parse_primary_at(old(self).toks(), old(self).current as int) == Err::<int, ErrM>(
                    er@,
                ),
            }),
        decreases self.tokens@.len() - self.current, 1nat,
    {
        if self.match_token(TokenType::FALSE) {
            return Ok(Expr::Literal(Literal { value: LiteralType::Bool(false) }));
        }
        if self.match_token(TokenType::TRUE) {
            return Ok(Expr::Literal(Literal { value: LiteralType::Bool(true) }));
        }
        if self.match_token(TokenType::NIL) {
            return Ok(Expr::Literal(Literal { value: LiteralType::Null }));
        }
        if self.match_token(TokenType::NUMBER) {
            let t = self.previous();
            return Ok(Expr::Literal(Literal { value: t.literal }));
        }
        if self.match_token(TokenType::STRING) {
            let t = self.previous();
            return Ok(Expr::Literal(Literal { value: t.literal }));
        }
        if self.match_token(TokenType::IDENTIFIER) {
            let t = self.previous();
            return Ok(Expr::Variable(Variable { name: t }));
        }
        if self.match_token(TokenType::LEFT_PAREN) {
            let expr = match self.expression() {
                Ok(e) => e,
                Err(er) => return Err(er),
            };
            match self.consume(
                TokenType::RIGHT_PAREN,
                String::from_str("Expect ')' after expression"),
            ) {
                Ok(t) => {
                    return Ok(Expr::Grouping(Grouping { expression: Box::new(expr) }));
                },
                Err(er) => return Err(er),
            }
        }
        let line = self.peek().line;
        Err(RuntimeError::error(line, String::from_str("Expect expression ")))
    }

    /// Parses `unary`.
    fn unary(&mut self) -> (r: Result<Expr, RuntimeError>)
        requires
            old(self).wf(),
        ensures
            final(self).wf(),
            final(self).tokens == old(self).tokens,
            old(self).current <= final(self).current,
            r is Ok ==> old(self).current < final(self).current,
            r matches Ok(e) ==> parses_unary(
                old(self).toks(),
                old(self).current as int,
                final(self).current as int,
                e,
            ),
            (match r {
                Ok(e) => parse_unary_at(old(self).toks(), old(self).current as int) == Ok::<int, ErrM>(
                    final(self).current as int,
                ),
                Err(er) => parse_unary_at(old(self).toks(), old(self).current as int) == Err::<int, ErrM>(
                    er@,
                ),
            }),
        decreases self.tokens@.len() - self.current, 2nat,
    {
        let mut types: Vec<TokenType> = Vec::new();
        types.push(TokenType::BANG);
        types.push(TokenType::MINUS);
        if self.match_tokens(&types) {
            proof {
                assert(types@[0] == TokenType::BANG);
                assert(types@[1] == TokenType::MINUS);
            }
            let operator = self.previous();
            let right = match self.unary() {
                Ok(e) => e,
                Err(er) => return Err(er),
            };
            return Ok(Expr::Unary(Unary { operator, right: Box::new(right) }));
        }
        proof {
            assert(types@[0] == TokenType::BANG);
            assert(types@[1] == TokenType::MINUS);
        }
        self.primary()
    }

    /// Parses `factor`: a left-associated `*`/`/` chain.
    #[verifier::loop_isolation(false)]
    fn factor(&mut self) -> (r: Result<Expr, RuntimeError>)
        requires
            old(self).wf(),
        ensures
            final(self).wf(),
            final(self).tokens == old(self).tokens,
            old(self).current <= final(self).current,
            r is Ok ==> old(self).current < final(self).current,
            r matches Ok(e) ==> parses_factor(
                old(self).toks(),
                old(self).current as int,
                final(self).current as int,
                e,
            ),
            (match r {
                Ok(e) => parse_factor_at(old(self).toks(), old(self).current as int) == Ok::<int, ErrM>(
                    final(self).current as int,
                ),
                Err(er) => parse_factor_at(old(self).toks(), old(self).current as int) == Err::<int, ErrM>(
                    er@,
                ),
            }),
        decreases self.tokens@.len() - self.current, 3nat,
    {
        let ghost i0 = self.current as int;
        let mut expr = match self.unary() {
            Ok(e) => e,
            Err(er) => return Err(er),
        };
        let mut types: Vec<TokenType> = Vec::new();
        types.push(TokenType::STAR);
        types.push(TokenType::SLASH);
        loop
            invariant
                self.wf(),
                self.tokens == old(self).tokens,
                i0 < self.current as int,
                parses_factor(self.toks(), i0, self.current as int, expr),
                parse_factor_at(old(self).toks(), i0) == parse_factor_chain(
                    old(self).toks(),
                    self.current as int,
                ),
                types@ =~= seq![TokenType::STAR, TokenType::SLASH],
            decreases self.tokens@.len() - self.current,
        {
            if !self.match_tokens(&types) {
                break ;
            }
            proof {
                assert(types@[0] == TokenType::STAR);
                assert(types@[1] == TokenType::SLASH);
            }
            let operator = self.previous();
            let right = match self.unary() {
                Ok(e) => e,
                Err(er) => return Err(er),
            };
            expr = Expr::Binary(
                Binary { operator, left: Box::new(expr), right: Box::new(right) },
            );
            proof {
                assert(parses_factor(self.toks(), i0, self.current as int, expr));
            }
        }
        proof {
            assert(types@[0] == TokenType::STAR);
            assert(types@[1] == TokenType::SLASH);
        }
        Ok(expr)
    }

    /// Parses `term`: a left-associated `+`/`-` chain.
    #[verifier::loop_isolation(false)]
    fn term(&mut self) -> (r: Result<Expr, RuntimeError>)
        requires
            old(self).wf(),
        ensures
            final(self).wf(),
            final(self).tokens == old(self).tokens,
            old(self).current <= final(self).current,
            r is Ok ==> old(self).current < final(self).current,
            r matches Ok(e) ==> parses_term(
                old(self).toks(),
                old(self).current as int,
                final(self).current as int,
                e,
            ),
            (match r {
                Ok(e) => parse_term_at(old(self).toks(), old(self).current as int) == Ok::<int, ErrM>(
                    final(self).current as int,
                ),
                Err(er) => parse_term_at(old(self).toks(), old(self).current as int) == Err::<int, ErrM>(
                    er@,
                ),
            }),
        decreases self.tokens@.len() - self.current, 4nat,
    {
        let ghost i0 = self.current as int;
        let mut expr = match self.factor() {
            Ok(e) => e,
            Err(er) => return Err(er),
        };
        let mut types: Vec<TokenType> = Vec::new();
        types.push(TokenType::MINUS);
        types.push(TokenType::PLUS);
        loop
            invariant
                self.wf(),
                self.tokens == old(self).tokens,
                i0 < self.current as int,
                parses_term(self.toks(), i0, self.current as int, expr),
                parse_term_at(old(self).toks(), i0) == parse_term_chain(
                    old(self).toks(),
                    self.current as int,
                ),
                types@ =~= seq![TokenType::MINUS, TokenType::PLUS],
            decreases self.tokens@.len() - self.current,
        {
            if !self.match_tokens(&types) {
                break ;
            }
            proof {
                assert(types@[0] == TokenType::MINUS);
                assert(types@[1] == TokenType::PLUS);
            }
            let operator = self.previous();
            let right = match self.factor() {
                Ok(e) => e,
                Err(er) => return Err(er),
            };
            expr = Expr::Binary(
                Binary { operator, left: Box::new(expr), right: Box::new(right) },
            );
            proof {
                assert(parses_term(self.toks(), i0, self.current as int, expr));
            }
        }
        proof {
            assert(types@[0] == TokenType::MINUS);
            assert(types@[1] == TokenType::PLUS);
        }
        Ok(expr)
    }

    /// Parses `comparison`: a left-associated ordering chain.
    #[verifier::loop_isolation(false)]
    fn comparison(&mut self) -> (r: Result<Expr, RuntimeError>)
        requires
            old(self).wf(),
        ensures
            final(self).wf(),
            final(self).tokens == old(self).tokens,
            old(self).current <= final(self).current,
            r is Ok ==> old(self).current < final(self).current,
            r matches Ok(e) ==> parses_comparison(
                old(self).toks(),
                old(self).current as int,
                final(self).current as int,
                e,
            ),
            (match r {
                Ok(e) => parse_comparison_at(old(self).toks(), old(self).current as int) == Ok::<int, ErrM>(
                    final(self).current as int,
                ),
                Err(er) => parse_comparison_at(old(self).toks(), old(self).current as int) == Err::<int, ErrM>(
                    er@,
                ),
            }),
        decreases self.tokens@.len() - self.current, 5nat,
    {
        let ghost i0 = self.current as int;
        let mut expr = match self.term() {
            Ok(e) => e,
            Err(er) => return Err(er),
        };
        let mut types: Vec<TokenType> = Vec::new();
        types.push(TokenType::LESS);
        types.push(TokenType::LESS_EQUAL);
        types.push(TokenType::GREATER);
        types.push(TokenType::GREATER_EQUAL);
        loop
            invariant
                self.wf(),
                self.tokens == old(self).tokens,
                i0 < self.current as int,
                parses_comparison(self.toks(), i0, self.current as int, expr),
                parse_comparison_at(old(self).toks(), i0) == parse_comparison_chain(
                    old(self).toks(),
                    self.current as int,
                ),
                types@ =~= seq![
                    TokenType::LESS,
                    TokenType::LESS_EQUAL,
                    TokenType::GREATER,
                    TokenType::GREATER_EQUAL,
                ],
            decreases self.tokens@.len() - self.current,
        {
            if !self.match_tokens(&types) {
                break ;
            }
            proof {
                assert(types@[0] == TokenType::LESS);
                assert(types@[1] == TokenType::LESS_EQUAL);
                assert(types@[2] == TokenType::GREATER);
                assert(types@[3] == TokenType::GREATER_EQUAL);
            }
            let operator = self.previous();
            let right = match self.term() {
                Ok(e) => e,
                Err(er) => return Err(er),
            };
            expr = Expr::Binary(
                Binary { operator, left: Box::new(expr), right: Box::new(right) },
            );
            proof {
                assert(parses_comparison(self.toks(), i0, self.current as int, expr));
            }
        }
        proof {
            assert(types@[0] == TokenType::LESS);
            assert(types@[1] == TokenType::LESS_EQUAL);
            assert(types@[2] == TokenType::GREATER);
            assert(types@[3] == TokenType::GREATER_EQUAL);
        }
        Ok(expr)
    }

    /// Parses `equality`: a left-associated `==`/`!=` chain.
    #[verifier::loop_isolation(false)]
    fn equality(&mut self) -> (r: Result<Expr, RuntimeError>)
        requires
            old(self).wf(),
        ensures
            final(self).wf(),
            final(self).tokens == old(self).tokens,
            old(self).current <= final(self).current,
            r is Ok ==> old(self).current < final(self).current,
            r matches Ok(e) ==> parses_equality(
                old(self).toks(),
                old(self).current as int,
                final(self).current as int,
                e,
            ),
            (match r {
                Ok(e) => parse_equality_at(old(self).toks(), old(self).current as int) == Ok::<int, ErrM>(
                    final(self).current as int,
                ),
                Err(er) => parse_equality_at(old(self).toks(), old(self).current as int) == Err::<int, ErrM>(
                    er@,
                ),
            }),
        decreases self.tokens@.len() - self.current, 6nat,
    {
        let ghost i0 = self.current as int;
        let mut expr = match self.comparison() {
            Ok(e) => e,
            Err(er) => return Err(er),
        };
        let mut types: Vec<TokenType> = Vec::new();
        types.push(TokenType::EQUAL_EQUAL);
        types.push(TokenType::BANG_EQUAL);
        loop
            invariant
                self.wf(),
                self.tokens == old(self).tokens,
                i0 < self.current as int,
                parses_equality(self.toks(), i0, self.current as int, expr),
                parse_equality_at(old(self).toks(), i0) == parse_equality_chain(
                    old(self).toks(),
                    self.current as int,
                ),
                types@ =~= seq![TokenType::EQUAL_EQUAL, TokenType::BANG_EQUAL],
            decreases self.tokens@.len() - self.current,
        {
            if !self.match_tokens(&types) {
                break ;
            }
            proof {
                assert(types@[0] == TokenType::EQUAL_EQUAL);
                assert(types@[1] == TokenType::BANG_EQUAL);
            }
            let operator = self.previous();
            let right = match self.comparison() {
                Ok(e) => e,
                Err(er) => return Err(er),
            };
            expr = Expr::Binary(
                Binary { operator, left: Box::new(expr), right: Box::new(right) },
            );
            proof {
                assert(parses_equality(self.toks(), i0, self.current as int, expr));
            }
        }
        proof {
            assert(types@[0] == TokenType::EQUAL_EQUAL);
            assert(types@[1] == TokenType::BANG_EQUAL);
        }
        Ok(expr)
    }

    /// Parses `assignment`. The left side is parsed as an equality; when
    /// an `=` follows, the left side must be a bare variable, else the
    /// invalid-assignment-target error is reported at the `=` token's
    /// line.
    fn assignment(&mut self) -> (r: Result<Expr, RuntimeError>)
        requires
            old(self).wf(),
        ensures
            final(self).wf(),
            final(self).tokens == old(self).tokens,
            old(self).current <= final(self).current,
            r is Ok ==> old(self).current < final(self).current,
            r matches Ok(e) ==> parses_assignment(
                old(self).toks(),
                old(self).current as int,
                final(self).current as int,
                e,
            ),
            (match r {
                Ok(e) => parse_assignment_at(old(self).toks(), old(self).current as int) == Ok::<int, ErrM>(
                    final(self).current as int,
                ),
                Err(er) => parse_assignment_at(old(self).toks(), old(self).current as int) == Err::<int, ErrM>(
                    er@,
                ),
            }),
        decreases self.tokens@.len() - self.current, 7nat,
    {
        let ghost i0 = self.current as int;
        let expr = match self.equality() {
            Ok(e) => e,
            Err(er) => return Err(er),
        };
        let ghost k_eq = self.current as int;
        if self.match_token(TokenType::EQUAL) {
            let equals = self.previous();
            let value = match self.assignment() {
                Ok(e) => e,
                Err(er) => return Err(er),
            };
            match expr {
                Expr::Variable(v) => {
                    proof {
                        lemma_variable_is_single(old(self).toks(), i0, k_eq, v);
                    }
                    return Ok(Expr::Assign(Assign { name: v.name, value: Box::new(value) }));
                },
                other => {
                    proof {
                        if k_eq == i0 + 1 && old(self).toks()[i0].token_type
                            == TokenType::IDENTIFIER {
                            lemma_single_ident_is_variable(old(self).toks(), i0, other);
                        }
                    }
                    return Err(
                        RuntimeError::error(
                            equals.line,
                            String::from_str("Invalid assignment target. "),
                        ),
                    );
                },
            }
        }
        Ok(expr)
    }

    /// Parses `expression`.
    fn expression(&mut self) -> (r: Result<Expr, RuntimeError>)
        requires
            old(self).wf(),
        ensures
            final(self).wf(),
            final(self).tokens == old(self).tokens,
            old(self).current <= final(self).current,
            r is Ok ==> old(self).current < final(self).current,
            r matches Ok(e) ==> parses_expression(
                old(self).toks(),
                old(self).current as int,
                final(self).current as int,
                e,
            ),
            (match r {
                Ok(e) => parse_expression_at(old(self).toks(), old(self).current as int) == Ok::<int, ErrM>(
                    final(self).current as int,
                ),
                Err(er) => parse_expression_at(old(self).toks(), old(self).current as int) == Err::<int, ErrM>(
                    er@,
                ),
            }),
        decreases self.tokens@.len() - self.current, 8nat,
    {
        self.assignment()
    }
}

} // verus!

verus! {

impl Parser {
    /// Parses one declaration: a `var` declaration or a statement.
    pub fn declaration(&mut self) -> (r: Result<Stmt, RuntimeError>)
        requires
            old(self).wf(),
        ensures
            final(self).wf(),
            final(self).tokens == old(self).tokens,
            old(self).current <= final(self).current,
            r is Ok ==> old(self).current < final(self).current,
            r matches Ok(s) ==> stmt_at(
                old(self).toks(),
                old(self).current as int,
                final(self).current as int,
                s,
            ),
            (match r {
                Ok(s) => parse_declaration_at(old(self).toks(), old(self).current as int) == Ok::<int, ErrM>(
                    final(self).current as int,
                ),
                Err(er) => parse_declaration_at(old(self).toks(), old(self).current as int) == Err::<int, ErrM>(
                    er@,
                ),
            }),
        decreases self.tokens@.len() - self.current, 11nat,
    {
        if self.match_token(TokenType::VAR) {
            return self.var_declaration();
        }
        self.statement()
    }

    /// Parses the tail of a `var` declaration, the keyword already
    /// consumed: the name, an optional initializer, and the semicolon.
    pub fn var_declaration(&mut self) -> (r: Result<Stmt, RuntimeError>)
        requires
            old(self).wf(),
            old(self).current >= 1,
            old(self).toks()[old(self).current as int - 1].token_type == TokenType::VAR,
        ensures
            final(self).wf(),
            final(self).tokens == old(self).tokens,
            old(self).current <= final(self).current,
            r is Ok ==> old(self).current < final(self).current,
            r matches Ok(s) ==> stmt_at(
                old(self).toks(),
                old(self).current as int - 1,
                final(self).current as int,
                s,
            ),
            (match r {
                Ok(s) => parse_var_tail_at(old(self).toks(), old(self).current as int) == Ok::<int, ErrM>(
                    final(self).current as int,
                ),
                Err(er) => parse_var_tail_at(old(self).toks(), old(self).current as int) == Err::<int, ErrM>(
                    er@,
                ),
            }),
        decreases self.tokens@.len() - self.current, 9nat,
    {
        let name = match self.consume(
            TokenType::IDENTIFIER,
            String::from_str("Expect variable name."),
        ) {
            Ok(t) => t,
            Err(er) => return Err(er),
        };
        let mut initializer: Option<Expr> = None;
        if self.match_token(TokenType::EQUAL) {
            let e = match self.expression() {
                Ok(e) => e,
                Err(er) => return Err(er),
            };
            initializer = Some(e);
        }
        match self.consume(
            TokenType::SEMICOLON,
            String::from_str("Expect ';' after variable declaration."),
        ) {
            Ok(t) => Ok(Stmt::Var(Var { name, initializer })),
            Err(er) => Err(er),
        }
    }

    /// Parses one statement: `if`, `print`, a block, or an expression
    /// statement.
    fn statement(&mut self) -> (r: Result<Stmt, RuntimeError>)
        requires
            old(self).wf(),
        ensures
            final(self).wf(),
            final(self).tokens == old(self).tokens,
            old(self).current <= final(self).current,
            r is Ok ==> old(self).current < final(self).current,
            r matches Ok(s) ==> stmt_at(
                old(self).toks(),
                old(self).current as int,
                final(self).current as int,
                s,
            ),
            (match r {
                Ok(s) => parse_statement_at(old(self).toks(), old(self).current as int) == Ok::<int, ErrM>(
                    final(self).current as int,
                ),
                Err(er) => parse_statement_at(old(self).toks(), old(self).current as int) == Err::<int, ErrM>(
                    er@,
                ),
            }),
        decreases self.tokens@.len() - self.current, 10nat,
    {
        if self.match_token(TokenType::IF) {
            return self.if_statement();
        }
        if self.match_token(TokenType::PRINT) {
            return self.print_statement();
        }
        if self.match_token(TokenType::LEFT_BRACE) {
            let statements = match self.block() {
                Ok(ss) => ss,
                Err(er) => return Err(er),
            };
            return Ok(Stmt::Block(Block { statements }));
        }
        self.expression_statement()
    }

    /// Parses the tail of an `if` statement, the keyword already
    /// consumed: the parenthesized condition, the then branch, and the
    /// else branch when an `else` follows.
    fn if_statement(&mut self) -> (r: Result<Stmt, RuntimeError>)
        requires
            old(self).wf(),
            old(self).current >= 1,
            old(self).toks()[old(self).current as int - 1].token_type == TokenType::IF,
        ensures
            final(self).wf(),
            final(self).tokens == old(self).tokens,
            old(self).current <= final(self).current,
            r is Ok ==> old(self).current < final(self).current,
            r matches Ok(s) ==> stmt_at(
                old(self).toks(),
                old(self).current as int - 1,
                final(self).current as int,
                s,
            ),
            (match r {
                Ok(s) => parse_if_tail_at(old(self).toks(), old(self).current as int) == Ok::<int, ErrM>(
                    final(self).current as int,
                ),
                Err(er) => parse_if_tail_at(old(self).toks(), old(self).current as int) == Err::<int, ErrM>(
                    er@,
                ),
            }),
        decreases self.tokens@.len() - self.current, 9nat,
    {
        match self.consume(TokenType::LEFT_PAREN, String::from_str("Expect '(' after if. ")) {
            Ok(t) => t,
            Err(er) => return Err(er),
        };
        let condition = match self.expression() {
            Ok(e) => e,
            Err(er) => return Err(er),
        };
        let ghost k = self.current as int;
        match self.consume(TokenType::RIGHT_PAREN, String::from_str("Expect ')' after if. ")) {
            Ok(t) => t,
            Err(er) => return Err(er),
        };
        let then_branch = match self.statement() {
            Ok(s) => s,
            Err(er) => return Err(er),
        };
        if self.match_token(TokenType::ELSE) {
            let ghost m = self.current as int - 1;
            let else_branch = match self.statement() {
                Ok(s) => s,
                Err(er) => return Err(er),
            };
            let result = Stmt::If(
                If {
                    condition,
                    then_branch: Box::new(then_branch),
                    else_branch: Some(Box::new(else_branch)),
                },
            );
            proof {
                lemma_if_stmt_else(
                    old(self).toks(),
                    old(self).current as int - 1,
                    k,
                    m,
                    self.current as int,
                    result->If_0,
                );
            }
            Ok(result)
        } else {
            let result = Stmt::If(
                If { condition, then_branch: Box::new(then_branch), else_branch: None },
            );
            proof {
                lemma_if_stmt_noelse(
                    old(self).toks(),
                    old(self).current as int - 1,
                    k,
                    self.current as int,
                    result->If_0,
                );
            }
            Ok(result)
        }
    }

    /// Parses the statements of a block up to its closing brace, the
    /// opening brace already consumed.
    #[verifier::loop_isolation(false)]
    fn block(&mut self) -> (r: Result<Vec<Stmt>, RuntimeError>)
        requires
            old(self).wf(),
        ensures
            final(self).wf(),
            final(self).tokens == old(self).tokens,
            old(self).current <= final(self).current,
            r is Ok ==> old(self).current < final(self).current,
            r matches Ok(ss) ==> stmts_at(
                old(self).toks(),
                old(self).current as int,
                final(self).current as int - 1,
                ss@,
            ) && final(self).toks()[final(self).current as int - 1].token_type
                == TokenType::RIGHT_BRACE,
            (match r {
                Ok(ss) => parse_block_tail_at(old(self).toks(), old(self).current as int) == Ok::<int, ErrM>(
                    final(self).current as int,
                ),
                Err(er) => parse_block_tail_at(old(self).toks(), old(self).current as int) == Err::<int, ErrM>(
                    er@,
                ),
            }),
        decreases self.tokens@.len() - self.current, 12nat,
    {
        let ghost i0 = self.current as int;
        let mut statements: Vec<Stmt> = Vec::new();
        proof {
            assert(statements@ =~= Seq::<Stmt>::empty());
        }
        loop
            invariant
                self.wf(),
                self.tokens == old(self).tokens,
                i0 <= self.current as int,
                stmts_at(self.toks(), i0, self.current as int, statements@),
                parse_block_tail_at(old(self).toks(), i0) == parse_block_tail_at(
                    old(self).toks(),
                    self.current as int,
                ),
            decreases self.tokens@.len() - self.current,
        {
            if self.check(TokenType::RIGHT_BRACE) {
                break ;
            }
            if self.is_at_end() {
                break ;
            }
            let ghost kpre = self.current as int;
            let s = match self.declaration() {
                Ok(s) => s,
                Err(er) => return Err(er),
            };
            proof {
                assert(cut_at(kpre));
                lemma_stmts_at_append(
                    self.toks(),
                    i0,
                    kpre,
                    self.current as int,
                    statements@,
                    s,
                );
            }
            statements.push(s);
        }
        match self.consume(
            TokenType::RIGHT_BRACE,
            String::from_str("Expect '} at the end of block'"),
        ) {
            Ok(t) => Ok(statements),
            Err(er) => Err(er),
        }
    }

    /// Parses the tail of a `print` statement, the keyword already
    /// consumed: the expression and the semicolon.
    fn print_statement(&mut self) -> (r: Result<Stmt, RuntimeError>)
        requires
            old(self).wf(),
            old(self).current >= 1,
            old(self).toks()[old(self).current as int - 1].token_type == TokenType::PRINT,
        ensures
            final(self).wf(),
            final(self).tokens == old(self).tokens,
            old(self).current <= final(self).current,
            r is Ok ==> old(self).current < final(self).current,
            r matches Ok(s) ==> stmt_at(
                old(self).toks(),
                old(self).current as int - 1,
                final(self).current as int,
                s,
            ),
            (match r {
                Ok(s) => parse_print_tail_at(old(self).toks(), old(self).current as int) == Ok::<int, ErrM>(
                    final(self).current as int,
                ),
                Err(er) => parse_print_tail_at(old(self).toks(), old(self).current as int) == Err::<int, ErrM>(
                    er@,
                ),
            }),
        decreases self.tokens@.len() - self.current, 9nat,
    {
        let value = match self.expression() {
            Ok(e) => e,
            Err(er) => return Err(er),
        };
        match self.consume(TokenType::SEMICOLON, String::from_str("Expect ';' after value. ")) {
            Ok(t) => Ok(Stmt::Print(PrintStmt { expression: value })),
            Err(er) => Err(er),
        }
    }

    /// Parses an expression statement: the expression and the semicolon.
    fn expression_statement(&mut self) -> (r: Result<Stmt, RuntimeError>)
        requires
            old(self).wf(),
        ensures
            final(self).wf(),
            final(self).tokens == old(self).tokens,
            old(self).current <= final(self).current,
            r is Ok ==> old(self).current < final(self).current,
            r matches Ok(s) ==> stmt_at(
                old(self).toks(),
                old(self).current as int,
                final(self).current as int,
                s,
            ),
            (match r {
                Ok(s) => parse_expr_stmt_at(old(self).toks(), old(self).current as int) == Ok::<int, ErrM>(
                    final(self).current as int,
                ),
                Err(er) => parse_expr_stmt_at(old(self).toks(), old(self).current as int) == Err::<int, ErrM>(
                    er@,
                ),
            }),
        decreases self.tokens@.len() - self.current, 9nat,
    {
        let value = match self.expression() {
            Ok(e) => e,
            Err(er) => return Err(er),
        };
        match self.consume(TokenType::SEMICOLON, String::from_str("Expect ';' after value. ")) {
            Ok(t) => Ok(Stmt::Expression(ExpressionStmt { expression: value })),
            Err(er) => Err(er),
        }
    }

    /// Parses a whole program: declarations up to the `EOF` sentinel. On
    /// success the returned statements derive exactly the consumed
    /// tokens and the cursor sits on `EOF`; the first failed expectation
    /// aborts parsing and is returned.
    #[verifier::loop_isolation(false)]
    pub fn parse(&mut self) -> (r: Result<Vec<Stmt>, RuntimeError>)
        requires
            old(self).wf(),
        ensures
            final(self).wf(),
            final(self).tokens == old(self).tokens,
            old(self).current <= final(self).current,
            r matches Ok(ss) ==> stmts_at(
                old(self).toks(),
                old(self).current as int,
                final(self).current as int,
                ss@,
            ) && final(self).toks()[final(self).current as int].token_type == TokenType::EOF,
            (match r {
                Ok(ss) => parse_program_at(old(self).toks(), old(self).current as int) == Ok::<
                    int,
                    ErrM,
                >(final(self).current as int),
                Err(er) => parse_program_at(old(self).toks(), old(self).current as int) == Err::<
                    int,
                    ErrM,
                >(er@),
            }),
    {
        let ghost i0 = self.current as int;
        let mut statements: Vec<Stmt> = Vec::new();
        proof {
            assert(statements@ =~= Seq::<Stmt>::empty());
        }
        loop
            invariant
                self.wf(),
                self.tokens == old(self).tokens,
                i0 <= self.current as int,
                stmts_at(self.toks(), i0, self.current as int, statements@),
                parse_program_at(old(self).toks(), i0) == parse_program_at(
                    old(self).toks(),
                    self.current as int,
                ),
            decreases self.tokens@.len() - self.current,
        {
            if self.is_at_end() {
                break ;
            }
            let ghost kpre = self.current as int;
            let s = match self.declaration() {
                Ok(s) => s,
                Err(er) => return Err(er),
            };
            proof {
                assert(cut_at(kpre));
                lemma_stmts_at_append(
                    self.toks(),
                    i0,
                    kpre,
                    self.current as int,
                    statements@,
                    s,
                );
            }
            statements.push(s);
        }
        Ok(statements)
    }
}

} // verus!

verus! {

/// The parser's functional specification: for each production, the
/// position just past what the parser consumes when started at `i`, or
/// the exact error — line and message — of the first failed expectation.
/// Every parsing function below is proved equal to its specification, so
/// success is owed exactly where these functions succeed and every error
/// is pinned. Positions out of range answer with a placeholder error;
/// the parser's cursor never leaves the token list, so the contracts
/// never reach that branch.
pub open spec fn out_of_tokens() -> Result<int, ErrM> {
    Err(ErrM { line: 0, msg: Seq::empty() })
}

/// Clamps a continuation position into `(base, toks.len()]`; the parser
/// always lands there already, so the clamp only serves termination.
pub open spec fn forward(toks: Seq<TokenM>, base: int, n: int) -> int {
    if n <= base {
        if base + 1 <= toks.len() {
            base + 1
        } else {
            toks.len() as int
        }
    } else if n > toks.len() {
        toks.len() as int
    } else {
        n
    }
}

/// `primary` at `i`: one literal or identifier token, or a parenthesized
/// expression, or the expect-expression error.
pub open spec fn parse_primary_at(toks: Seq<TokenM>, i: int) -> Result<int, ErrM>
    decreases toks.len() - i, 1int,
{
    if !(0 <= i < toks.len()) {
        out_of_tokens()
    } else {
        let tt = toks[i].token_type;
        if tt == TokenType::FALSE || tt == TokenType::TRUE || tt == TokenType::NIL || tt
            == TokenType::NUMBER || tt == TokenType::STRING || tt == TokenType::IDENTIFIER {
            Ok(i + 1)
        } else if tt == TokenType::LEFT_PAREN {
            match parse_expression_at(toks, i + 1) {
                Err(e) => Err(e),
                Ok(j) => if !(0 <= j < toks.len()) {
                    out_of_tokens()
                } else if toks[j].token_type == TokenType::RIGHT_PAREN {
                    Ok(j + 1)
                } else {
                    Err(ErrM { line: toks[j].line, msg: "Expect ')' after expression"@ })
                },
            }
        } else {
            Err(ErrM { line: toks[i].line, msg: "Expect expression "@ })
        }
    }
}

/// `unary` at `i`: `!`/`-` then a unary, or a primary.
pub open spec fn parse_unary_at(toks: Seq<TokenM>, i: int) -> Result<int, ErrM>
    decreases toks.len() - i, 2int,
{
    if !(0 <= i < toks.len()) {
        out_of_tokens()
    } else if toks[i].token_type == TokenType::BANG || toks[i].token_type == TokenType::MINUS {
        parse_unary_at(toks, i + 1)
    } else {
        parse_primary_at(toks, i)
    }
}

/// The `*`/`/` chain continuing at `j` after a parsed unary.
pub open spec fn parse_factor_chain(toks: Seq<TokenM>, j: int) -> Result<int, ErrM>
    decreases toks.len() - j, 4int,
{
    if !(0 <= j < toks.len()) {
        out_of_tokens()
    } else if toks[j].token_type == TokenType::STAR || toks[j].token_type == TokenType::SLASH {
        match parse_unary_at(toks, j + 1) {
            Err(e) => Err(e),
            Ok(j2) => parse_factor_chain(toks, forward(toks, j, j2)),
        }
    } else {
        Ok(j)
    }
}

/// `factor` at `i`.
pub open spec fn parse_factor_at(toks: Seq<TokenM>, i: int) -> Result<int, ErrM>
    decreases toks.len() - i, 5int,
{
    if !(0 <= i < toks.len()) {
        out_of_tokens()
    } else {
        match parse_unary_at(toks, i) {
            Err(e) => Err(e),
            Ok(j) => parse_factor_chain(toks, forward(toks, i, j)),
        }
    }
}

/// The `+`/`-` chain continuing at `j` after a parsed factor.
pub open spec fn parse_term_chain(toks: Seq<TokenM>, j: int) -> Result<int, ErrM>
    decreases toks.len() - j, 6int,
{
    if !(0 <= j < toks.len()) {
        out_of_tokens()
    } else if toks[j].token_type == TokenType::MINUS || toks[j].token_type == TokenType::PLUS {
        match parse_factor_at(toks, j + 1) {
            Err(e) => Err(e),
            Ok(j2) => parse_term_chain(toks, forward(toks, j, j2)),
        }
    } else {
        Ok(j)
    }
}

/// `term` at `i`.
pub open spec fn parse_term_at(toks: Seq<TokenM>, i: int) -> Result<int, ErrM>
    decreases toks.len() - i, 7int,
{
    if !(0 <= i < toks.len()) {
        out_of_tokens()
    } else {
        match parse_factor_at(toks, i) {
            Err(e) => Err(e),
            Ok(j) => parse_term_chain(toks, forward(toks, i, j)),
        }
    }
}

/// The ordering chain continuing at `j` after a parsed term.
pub open spec fn parse_comparison_chain(toks: Seq<TokenM>, j: int) -> Result<int, ErrM>
    decreases toks.len() - j, 8int,
{
    if !(0 <= j < toks.len()) {
        out_of_tokens()
    } else if toks[j].token_type == TokenType::LESS || toks[j].token_type
        == TokenType::LESS_EQUAL || toks[j].token_type == TokenType::GREATER || toks[j].token_type
        == TokenType::GREATER_EQUAL {
        match parse_term_at(toks, j + 1) {
            Err(e) => Err(e),
            Ok(j2) => parse_comparison_chain(toks, forward(toks, j, j2)),
        }
    } else {
        Ok(j)
    }
}

/// `comparison` at `i`.
pub open spec fn parse_comparison_at(toks: Seq<TokenM>, i: int) -> Result<int, ErrM>
    decreases toks.len() - i, 9int,
{
    if !(0 <= i < toks.len()) {
        out_of_tokens()
    } else {
        match parse_term_at(toks, i) {
            Err(e) => Err(e),
            Ok(j) => parse_comparison_chain(toks, forward(toks, i, j)),
        }
    }
}

/// The `==`/`!=` chain continuing at `j` after a parsed comparison.
pub open spec fn parse_equality_chain(toks: Seq<TokenM>, j: int) -> Result<int, ErrM>
    decreases toks.len() - j, 10int,
{
    if !(0 <= j < toks.len()) {
        out_of_tokens()
    } else if toks[j].token_type == TokenType::EQUAL_EQUAL || toks[j].token_type
        == TokenType::BANG_EQUAL {
        match parse_comparison_at(toks, j + 1) {
            Err(e) => Err(e),
            Ok(j2) => parse_equality_chain(toks, forward(toks, j, j2)),
        }
    } else {
        Ok(j)
    }
}

/// `equality` at `i`.
pub open spec fn parse_equality_at(toks: Seq<TokenM>, i: int) -> Result<int, ErrM>
    decreases toks.len() - i, 11int,
{
    if !(0 <= i < toks.len()) {
        out_of_tokens()
    } else {
        match parse_comparison_at(toks, i) {
            Err(e) => Err(e),
            Ok(j) => parse_equality_chain(toks, forward(toks, i, j)),
        }
    }
}

/// `assignment` at `i`. The left side is an equality; when `=` follows,
/// the value is parsed first, and then the left side must have been a
/// bare variable — a single `IDENTIFIER` token — else the
/// invalid-assignment-target error is reported at the `=` token's line.
pub open spec fn parse_assignment_at(toks: Seq<TokenM>, i: int) -> Result<int, ErrM>
    decreases toks.len() - i, 12int,
{
    if !(0 <= i < toks.len()) {
        out_of_tokens()
    } else {
        match parse_equality_at(toks, i) {
            Err(e) => Err(e),
            Ok(k) => if 0 <= k < toks.len() && toks[k].token_type == TokenType::EQUAL {
                match parse_assignment_at(toks, forward(toks, i, k + 1)) {
                    Err(e) => Err(e),
                    Ok(j) => if k == i + 1 && toks[i].token_type == TokenType::IDENTIFIER {
                        Ok(j)
                    } else {
                        Err(ErrM { line: toks[k].line, msg: "Invalid assignment target. "@ })
                    },
                }
            } else {
                Ok(k)
            },
        }
    }
}

/// `expression` at `i`.
pub open spec fn parse_expression_at(toks: Seq<TokenM>, i: int) -> Result<int, ErrM>
    decreases toks.len() - i, 13int,
{
    parse_assignment_at(toks, i)
}

} // verus!

verus! {

/// The tail of a variable declaration at `i`, the `var` keyword already
/// consumed: name, optional initializer, semicolon.
pub open spec fn parse_var_tail_at(toks: Seq<TokenM>, i: int) -> Result<int, ErrM> {
    if !(0 <= i < toks.len()) {
        out_of_tokens()
    } else if toks[i].token_type != TokenType::IDENTIFIER {
        Err(ErrM { line: toks[i].line, msg: "Expect variable name."@ })
    } else if !(i + 1 < toks.len()) {
        out_of_tokens()
    } else if toks[i + 1].token_type == TokenType::EQUAL {
        match parse_expression_at(toks, i + 2) {
            Err(e) => Err(e),
            Ok(j) => if !(0 <= j < toks.len()) {
                out_of_tokens()
            } else if toks[j].token_type == TokenType::SEMICOLON {
                Ok(j + 1)
            } else {
                Err(ErrM { line: toks[j].line, msg: "Expect ';' after variable declaration."@ })
            },
        }
    } else if toks[i + 1].token_type == TokenType::SEMICOLON {
        Ok(i + 2)
    } else {
        Err(ErrM { line: toks[i + 1].line, msg: "Expect ';' after variable declaration."@ })
    }
}

/// An expression statement at `i`: expression, semicolon.
pub open spec fn parse_expr_stmt_at(toks: Seq<TokenM>, i: int) -> Result<int, ErrM>
    decreases toks.len() - i, 1int,
{
    match parse_expression_at(toks, i) {
        Err(e) => Err(e),
        Ok(j) => if !(0 <= j < toks.len()) {
            out_of_tokens()
        } else if toks[j].token_type == TokenType::SEMICOLON {
            Ok(j + 1)
        } else {
            Err(ErrM { line: toks[j].line, msg: "Expect ';' after value. "@ })
        },
    }
}

/// The tail of a `print` statement at `i`, the keyword already consumed.
pub open spec fn parse_print_tail_at(toks: Seq<TokenM>, i: int) -> Result<int, ErrM>
    decreases toks.len() - i, 1int,
{
    match parse_expression_at(toks, i) {
        Err(e) => Err(e),
        Ok(j) => if !(0 <= j < toks.len()) {
            out_of_tokens()
        } else if toks[j].token_type == TokenType::SEMICOLON {
            Ok(j + 1)
        } else {
            Err(ErrM { line: toks[j].line, msg: "Expect ';' after value. "@ })
        },
    }
}

/// The tail of an `if` statement at `i`, the keyword already consumed.
pub open spec fn parse_if_tail_at(toks: Seq<TokenM>, i: int) -> Result<int, ErrM>
    decreases toks.len() - i, 1int,
{
    if !(0 <= i < toks.len()) {
        out_of_tokens()
    } else if toks[i].token_type != TokenType::LEFT_PAREN {
        Err(ErrM { line: toks[i].line, msg: "Expect '(' after if. "@ })
    } else {
        match parse_expression_at(toks, i + 1) {
            Err(e) => Err(e),
            Ok(k) => if !(0 <= k < toks.len()) {
                out_of_tokens()
            } else if toks[k].token_type != TokenType::RIGHT_PAREN {
                Err(ErrM { line: toks[k].line, msg: "Expect ')' after if. "@ })
            } else {
                parse_if_branches_at(toks, forward(toks, i, k + 1))
            },
        }
    }
}

/// The branches of an `if` statement at `i`, the parenthesized
/// condition already consumed: the then branch, and the else branch
/// when an `else` follows.
pub open spec fn parse_if_branches_at(toks: Seq<TokenM>, i: int) -> Result<int, ErrM>
    decreases toks.len() - i, 3int,
{
    if !(0 <= i < toks.len()) {
        out_of_tokens()
    } else {
        match parse_statement_at(toks, i) {
            Err(e) => Err(e),
            Ok(m) => if !(0 <= m < toks.len()) {
                out_of_tokens()
            } else if toks[m].token_type == TokenType::ELSE {
                parse_statement_at(toks, forward(toks, i, m + 1))
            } else {
                Ok(m)
            },
        }
    }
}

/// One statement at `i`: `if`, `print`, a block, or an expression
/// statement.
pub open spec fn parse_statement_at(toks: Seq<TokenM>, i: int) -> Result<int, ErrM>
    decreases toks.len() - i, 2int,
{
    if !(0 <= i < toks.len()) {
        out_of_tokens()
    } else if toks[i].token_type == TokenType::IF {
        parse_if_tail_at(toks, forward(toks, i, i + 1))
    } else if toks[i].token_type == TokenType::PRINT {
        parse_print_tail_at(toks, forward(toks, i, i + 1))
    } else if toks[i].token_type == TokenType::LEFT_BRACE {
        parse_block_tail_at(toks, forward(toks, i, i + 1))
    } else {
        parse_expr_stmt_at(toks, i)
    }
}

/// One declaration at `i`: a `var` declaration or a statement.
pub open spec fn parse_declaration_at(toks: Seq<TokenM>, i: int) -> Result<int, ErrM>
    decreases toks.len() - i, 3int,
{
    if !(0 <= i < toks.len()) {
        out_of_tokens()
    } else if toks[i].token_type == TokenType::VAR {
        parse_var_tail_at(toks, i + 1)
    } else {
        parse_statement_at(toks, i)
    }
}

/// The statements of a block from `i` up to and past the closing brace,
/// the opening brace already consumed.
pub open spec fn parse_block_tail_at(toks: Seq<TokenM>, i: int) -> Result<int, ErrM>
    decreases toks.len() - i, 4int,
{
    if !(0 <= i < toks.len()) {
        out_of_tokens()
    } else if toks[i].token_type == TokenType::RIGHT_BRACE {
        Ok(i + 1)
    } else if toks[i].token_type == TokenType::EOF {
        Err(ErrM { line: toks[i].line, msg: "Expect '} at the end of block'"@ })
    } else {
        match parse_declaration_at(toks, i) {
            Err(e) => Err(e),
            Ok(j) => parse_block_tail_at(toks, forward(toks, i, j)),
        }
    }
}

/// A whole program at `i`: declarations up to the `EOF` sentinel.
pub open spec fn parse_program_at(toks: Seq<TokenM>, i: int) -> Result<int, ErrM>
    decreases toks.len() - i, 5int,
{
    if !(0 <= i < toks.len()) {
        out_of_tokens()
    } else if toks[i].token_type == TokenType::EOF {
        Ok(i)
    } else {
        match parse_declaration_at(toks, i) {
            Err(e) => Err(e),
            Ok(j) => parse_program_at(toks, forward(toks, i, j)),
        }
    }
}

/// Assembles the derivation of an `if` statement without an `else`.
proof fn lemma_if_stmt_noelse(toks: Seq<TokenM>, h: int, k: int, j: int, f: If)
    requires
        0 <= h,
        j <= toks.len(),
        h + 2 < k < j,
        toks[h].token_type == TokenType::IF,
        toks[h + 1].token_type == TokenType::LEFT_PAREN,
        parses_expression(toks, h + 2, k, f.condition),
        toks[k].token_type == TokenType::RIGHT_PAREN,
        f.else_branch is None,
        stmt_at(toks, k + 1, j, *f.then_branch),
    ensures
        stmt_at(toks, h, j, Stmt::If(f)),
{
    assert(if_tail(toks, h + 1, j, f));
}

/// Assembles the derivation of an `if` statement with an `else`.
proof fn lemma_if_stmt_else(toks: Seq<TokenM>, h: int, k: int, m: int, j: int, f: If)
    requires
        0 <= h,
        j <= toks.len(),
        h + 2 < k < m < j,
        toks[h].token_type == TokenType::IF,
        toks[h + 1].token_type == TokenType::LEFT_PAREN,
        parses_expression(toks, h + 2, k, f.condition),
        toks[k].token_type == TokenType::RIGHT_PAREN,
        stmt_at(toks, k + 1, m, *f.then_branch),
        toks[m].token_type == TokenType::ELSE,
        f.else_branch matches Some(el) && stmt_at(toks, m + 1, j, *el),
    ensures
        stmt_at(toks, h, j, Stmt::If(f)),
{
    assert(if_tail(toks, h + 1, j, f));
}


/// The only equality-level derivation spanning a single `IDENTIFIER`
/// token is the bare variable naming it.
proof fn lemma_single_ident_is_variable(toks: Seq<TokenM>, i: int, e: Expr)
    requires
        parses_equality(toks, i, i + 1, e),
        0 <= i < toks.len(),
        toks[i].token_type == TokenType::IDENTIFIER,
    ensures
        e matches Expr::Variable(v) && v.name@ == toks[i],
{
    assert(parses_comparison(toks, i, i + 1, e));
    assert(parses_term(toks, i, i + 1, e));
    assert(parses_factor(toks, i, i + 1, e));
    assert(parses_unary(toks, i, i + 1, e));
    assert(parses_primary(toks, i, i + 1, e));
}

} // verus!
