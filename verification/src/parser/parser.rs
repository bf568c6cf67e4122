//! The recursive-descent parser: tokens to statements and expressions.
use vstd::prelude::*;
use crate::lexer::token::{tokens_view, Keyword, Literal, Token, TokenType, TokenView};
use crate::ast::expr::{exprs_view, lemma_exprs_view_push, Depth, Expr};
use crate::ast::statement::{lemma_statements_view_push, opt_expr_view, statements_view, Statement, StatementView};
use crate::parser::error::{parse_errors_view, ParseError};
use crate::parser::grammar;
use crate::parser::grammar::{at, error_at, moved, Parsed};
use crate::text::append_str;

verus! {

/// Whether an outcome of the parser is the one the grammar gives: the same
/// value or error, and the parser left at the same position.
pub open spec fn agrees<T: View>(r: Result<T, ParseError>, pos: int, g: Parsed<T::V>) -> bool {
    match (r, g) {
        (Ok(x), Ok((v, q))) => x@ == v && pos == q,
        (Err(e), Err((v, q))) => e@ == v && pos == q,
        _ => false,
    }
}

/// Whether a parsed block agrees with the grammar's statements of a block.
pub open spec fn agrees_block(r: Result<Statement, ParseError>, pos: int, g: Parsed<Seq<crate::ast::statement::StatementView>>) -> bool {
    match (r, g) {
        (Ok(Statement::Block { statements }), Ok((v, q))) => statements_view(statements@) == v && pos == q,
        (Err(e), Err((v, q))) => e@ == v && pos == q,
        _ => false,
    }
}

/// Whether a list of parsed statements agrees with the grammar's.
pub open spec fn agrees_list(r: Result<Vec<Statement>, ParseError>, pos: int, g: Parsed<Seq<crate::ast::statement::StatementView>>) -> bool {
    match (r, g) {
        (Ok(ss), Ok((v, q))) => statements_view(ss@) == v && pos == q,
        (Err(e), Err((v, q))) => e@ == v && pos == q,
        _ => false,
    }
}

/// Whether a list of parsed tokens agrees with the grammar's.
pub open spec fn agrees_tokens(r: Result<Vec<Token>, ParseError>, pos: int, g: Parsed<Seq<TokenView>>) -> bool {
    match (r, g) {
        (Ok(ts), Ok((v, q))) => tokens_view(ts@) == v && pos == q,
        (Err(e), Err((v, q))) => e@ == v && pos == q,
        _ => false,
    }
}

/// Whether a list of parsed expressions agrees with the grammar's.
pub open spec fn agrees_exprs(r: Result<Vec<Expr>, ParseError>, pos: int, g: Parsed<Seq<crate::ast::expr::ExprView>>) -> bool {
    match (r, g) {
        (Ok(es), Ok((v, q))) => exprs_view(es@) == v && pos == q,
        (Err(e), Err((v, q))) => e@ == v && pos == q,
        _ => false,
    }
}

/// The view of an optional statement.
spec fn opt_statement_view(s: Option<Statement>) -> Option<StatementView> {
    match s {
        Some(x) => Some(x@),
        None => None,
    }
}

/// A parser over a sequence of tokens, which must end with the
/// end-of-input token for `parse` to stop at it.
pub struct Parser {
    tokens: Vec<Token>,
    current: usize,
    /// The errors of the declarations that `parse` skipped, in order.
    pub errors: Vec<ParseError>,
}

impl Parser {
    /// The parser can read on: it has tokens, and its position lies within them.
    pub closed spec fn wf(&self) -> bool {
        &&& self.tokens@.len() > 0
        &&& self.current <= self.tokens@.len()
    }

    /// The tokens, as views.
    pub closed spec fn token_views(&self) -> Seq<TokenView> {
        tokens_view(self.tokens@)
    }

    /// The errors reported so far, as views.
    pub closed spec fn reported(&self) -> Seq<crate::parser::error::ParseErrorView> {
        parse_errors_view(self.errors@)
    }

    /// How many tokens are left to read.
    pub closed spec fn remaining(&self) -> int {
        self.tokens@.len() - self.current
    }

    /// The position of the next token to read.
    pub closed spec fn position(&self) -> int {
        self.current as int
    }

    /// What a step of parsing keeps: the tokens and errors, a position that
    /// does not move back.
    pub closed spec fn kept(&self, after: &Parser) -> bool {
        &&& after.wf()
        &&& after.tokens@ == self.tokens@
        &&& after.errors@ == self.errors@
        &&& self.current <= after.current
    }

    /// A parser at the start of the tokens.
    #[verifier::spinoff_prover]
    pub fn new(tokens: Vec<Token>) -> (r: Self)
        ensures
            r.token_views() == tokens_view(tokens@),
            r.position() == 0,
            r.wf() <==> tokens@.len() > 0,
            r.reported().len() == 0,
    {
        Self { tokens, current: 0, errors: Vec::new() }
    }

    // Report a parse error
    #[verifier::spinoff_prover]
    fn error(token: &Token, message: &str) -> (e: ParseError)
        ensures
            e@ == error_at(token@, message@),
    {
        if token.token_type == TokenType::Eof {
            let mut m = String::from_str("Error at end: ");
            m.append(message);
            ParseError::new(token.line, m)
        } else {
            let mut m = String::from_str("Error at '");
            m.append(token.lexeme.as_str());
            m.append("': ");
            m.append(message);
            ParseError::new(token.line, m)
        }
    }

    // A synchronization method to recover from errors
    #[verifier::spinoff_prover]
    #[verifier::loop_isolation(false)]
    fn synchronize(&mut self)
        requires
            old(self).wf(),
        ensures
            old(self).kept(final(self)),
            final(self).current == grammar::synchronize(old(self).token_views(), old(self).current as int),
            old(self).current < old(self).tokens@.len() ==> old(self).current < final(self).current,
    {
        let ghost t = self.token_views();
        self.consume_any();
        while self.current < self.tokens.len()
            invariant
                self.wf(),
                old(self).kept(self),
                t == self.token_views(),
                grammar::synchronize(t, old(self).current as int) == grammar::skip_to_boundary(t, self.current as int),
                old(self).current < old(self).tokens@.len() ==> old(self).current < self.current,
            decreases self.tokens@.len() - self.current,
        {
            let token_type = self.tokens[self.current].token_type;
            if token_type == TokenType::Semicolon {
                self.consume_any();
                return;
            }
            match token_type {
                TokenType::Keyword(kw) => {
                    if kw == Keyword::Class || kw == Keyword::Fun || kw == Keyword::Var || kw == Keyword::For
                        || kw == Keyword::If || kw == Keyword::While || kw == Keyword::Print || kw
                        == Keyword::Return {
                        return;
                    }
                },
                _ => {},
            }
            self.consume_any();
        }
    }

    // Return the current token and advance the parser
    #[verifier::spinoff_prover]
    fn advance(&mut self) -> (r: Result<Token, ParseError>)
        requires
            old(self).wf(),
        ensures
            old(self).kept(final(self)),
            agrees(r, final(self).current as int, grammar::take(old(self).token_views(), old(self).current as int)),
    {
        if self.current < self.tokens.len() {
            let token = self.tokens[self.current].copy();
            self.current = self.current + 1;
            Ok(token)
        } else {
            Err(Self::error(&self.tokens[self.tokens.len() - 1], "Unexpected end of input"))
        }
    }

    // Check if the current token is of the expected type
    #[verifier::spinoff_prover]
    fn check(&self, expected: TokenType) -> (r: bool)
        requires
            self.wf(),
        ensures
            r == at(self.token_views(), self.current as int, expected),
    {
        if self.current < self.tokens.len() {
            self.tokens[self.current].token_type == expected
        } else {
            false
        }
    }

    // Consume a token of the expected type, or return an error
    #[verifier::spinoff_prover]
    fn consume(&mut self, expected: TokenType, error_message: &str) -> (r: Result<Token, ParseError>)
        requires
            old(self).wf(),
        ensures
            old(self).kept(final(self)),
            agrees(
                r,
                final(self).current as int,
                grammar::expect(old(self).token_views(), old(self).current as int, expected, error_message@),
            ),
    {
        let current_token = (match self.advance() { Ok(v) => v, Err(e) => { return Err(e); } });

        // If the current token is not of the expected type, return an error
        if current_token.token_type != expected {
            return Err(Self::error(&current_token, error_message));
        }

        Ok(current_token)
    }

    #[verifier::spinoff_prover]
    fn consume_any(&mut self)
        requires
            old(self).wf(),
        ensures
            old(self).kept(final(self)),
            final(self).current == (if old(self).current < old(self).tokens@.len() {
                old(self).current + 1
            } else {
                old(self).current as int
            }),
    {
        let _ = self.advance();
    }

    /// Parses declarations up to the end-of-input token. A declaration that
    /// fails is skipped (up to the next statement boundary) and its error is
    /// appended to `errors`.
    #[verifier::spinoff_prover]
    #[verifier::loop_isolation(false)]
    pub fn parse(&mut self) -> (r: Vec<Statement>)
        requires
            old(self).wf(),
        ensures
            final(self).wf(),
            final(self).token_views() == old(self).token_views(),
            statements_view(r@) == grammar::program(old(self).token_views(), old(self).position()).0,
            final(self).reported() == old(self).reported() + grammar::program(
                old(self).token_views(),
                old(self).position(),
            ).1,
    {
        proof {
            reveal_with_fuel(grammar::program, 1);
        }
        let ghost t = self.token_views();
        let ghost target = grammar::program(t, self.current as int);
        let mut statements: Vec<Statement> = Vec::new();
        assert(statements_view(statements@) =~= Seq::empty());

        // Parse statements until the end of the token stream (-1 for EOF)
        while self.current < self.tokens.len() - 1
            invariant
                self.wf(),
                self.tokens@ == old(self).tokens@,
                t == self.token_views(),
                target.0 == statements_view(statements@) + grammar::program(t, self.current as int).0,
                parse_errors_view(old(self).errors@) + target.1 == parse_errors_view(self.errors@)
                    + grammar::program(t, self.current as int).1,
            decreases self.tokens@.len() - self.current,
        {
            let ghost before = self.current as int;
            let ghost errors_before = self.errors@;
            let statement = self.declaration();
            let ghost rest = grammar::program(t, self.current as int);
            match statement {
                Err(e) => {
                    self.errors.push(e);
                    assert(parse_errors_view(self.errors@) =~= parse_errors_view(errors_before).push(e@));
                    assert(parse_errors_view(self.errors@) + rest.1 =~= parse_errors_view(errors_before) + (
                    seq![e@] + rest.1));
                },
                Ok(s) => {
                    proof {
                        lemma_statements_view_push(statements@, s);
                    }
                    statements.push(s);
                    assert(statements_view(statements@) + rest.0 =~= statements_view(statements@.drop_last()) + (
                    seq![s@] + rest.0));
                },
            }
        }

        assert(statements_view(statements@) + Seq::empty() =~= statements_view(statements@));
        assert(parse_errors_view(self.errors@) + Seq::empty() =~= parse_errors_view(self.errors@));
        statements
    }

    #[verifier::spinoff_prover]
    fn declaration(&mut self) -> (r: Result<Statement, ParseError>)
        requires
            old(self).wf(),
        ensures
            old(self).kept(final(self)),
            agrees(r, final(self).current as int, grammar::declaration(old(self).token_views(), old(self).current as int)),
            old(self).current < old(self).tokens@.len() ==> old(self).current < final(self).current,
        decreases old(self).remaining(), 58int,
    {
        proof {
            reveal_with_fuel(grammar::declaration, 1);
        }
        let result = if self.check(TokenType::Keyword(Keyword::Var)) {
            self.var_declaration()
        } else if self.check(TokenType::Keyword(Keyword::Fun)) {
            // Consume the 'fun' keyword
            let _ = self.advance();
            // Function declaration
            self.function_declaration("function")
        } else if self.check(TokenType::Keyword(Keyword::Class)) {
            // Class declaration
            self.class_declaration()
        } else {
            self.statement()
        };
        match result {
            Ok(s) => Ok(s),
            Err(e) => {
                // Synchronize on error
                self.synchronize();
                Err(e)
            },
        }
    }

    #[verifier::spinoff_prover]
    fn var_declaration(&mut self) -> (r: Result<Statement, ParseError>)
        requires
            old(self).wf(),
            at(old(self).token_views(), old(self).current as int, TokenType::Keyword(Keyword::Var)),
        ensures
            old(self).kept(final(self)),
            agrees(r, final(self).current as int, grammar::var_declaration(old(self).token_views(), old(self).current as int)),
            r is Ok ==> old(self).current < final(self).current,
        decreases old(self).remaining(), 56int,
    {
        proof {
            reveal_with_fuel(grammar::var_declaration, 1);
        }
        // Consume the 'var' keyword
        let _var_token = self.advance();

        // Consume the variable name
        let name_token = (match self.consume(TokenType::Identifier, "Expect variable name.") { Ok(v) => v, Err(e) => { return Err(e); } });

        // Optional initializer
        let initializer = if self.check(TokenType::Equal) {
            // Consume the '=' token
            let _equal_token = self.advance();

            // Parse the initializer expression
            Some((match self.expression() { Ok(v) => v, Err(e) => { return Err(e); } }))
        } else {
            None
        };

        // Consume the semicolon
        (match self.consume(TokenType::Semicolon, "Expect ';' after variable declaration.") { Ok(v) => v, Err(e) => { return Err(e); } });

        let ghost nv = name_token@;
        let ghost iv = opt_expr_view(initializer);
        let s = Statement::Var { name: name_token, initializer };
        assert(s@ == StatementView::Var { name: nv, initializer: iv });
        Ok(s)
    }

    /// Parses a parameter list up to (not including) its `)`.
    #[verifier::spinoff_prover]
    fn parameters(&mut self) -> (r: Result<Vec<Token>, ParseError>)
        requires
            old(self).wf(),
        ensures
            old(self).kept(final(self)),
            agrees_tokens(r, final(self).current as int, grammar::parameters(old(self).token_views(), old(self).current as int)),
    {
        proof {
            reveal_with_fuel(grammar::parameters, 1);
            reveal_with_fuel(grammar::more_parameters, 1);
        }
        let ghost t = self.token_views();
        let mut params: Vec<Token> = Vec::new();
        if !self.check(TokenType::RightParen) {
            let ghost target = grammar::more_parameters(t, Seq::empty(), self.current as int);
            assert(tokens_view(params@) =~= Seq::empty());
            loop
                invariant_except_break
                    grammar::more_parameters(t, tokens_view(params@), self.current as int) == target,
                invariant
                    self.wf(),
                    old(self).kept(self),
                    t == self.token_views(),
                    target == grammar::parameters(t, old(self).current as int),
                ensures
                    target == Ok::<(Seq<TokenView>, int), (crate::parser::error::ParseErrorView, int)>((tokens_view(params@), self.current as int)),
                decreases self.tokens@.len() - self.current,
            {
                proof {
                    reveal_with_fuel(grammar::more_parameters, 1);
                }
                let ghost acc = tokens_view(params@);
                // Consume the parameter name
                let param_token = (match self.consume(TokenType::Identifier, "Expect parameter name.") { Ok(v) => v, Err(e) => { return Err(e); } });
                let ghost pv = param_token@;
                params.push(param_token);
                assert(tokens_view(params@) =~= acc.push(pv));

                if !self.check(TokenType::Comma) {
                    break;
                }
                // Consume the ',' token
                let _comma_token = self.advance();
            }
        } else {
            assert(tokens_view(params@) =~= Seq::empty());
        }
        Ok(params)
    }

    #[verifier::spinoff_prover]
    fn function_declaration(&mut self, kind: &str) -> (r: Result<Statement, ParseError>)
        requires
            old(self).wf(),
        ensures
            old(self).kept(final(self)),
            agrees(
                r,
                final(self).current as int,
                grammar::function_declaration(old(self).token_views(), old(self).current as int, kind@),
            ),
            r is Ok ==> old(self).current < final(self).current,
        decreases old(self).remaining(), 56int,
    {
        proof {
            reveal_with_fuel(grammar::function_declaration, 1);
        }
        // Consume the function name
        let mut message = String::from_str("Expect ");
        append_str(&mut message, kind);
        append_str(&mut message, " name.");
        let name_token = (match self.consume(TokenType::Identifier, message.as_str()) { Ok(v) => v, Err(e) => { return Err(e); } });

        // Consume the '(' token
        let mut message = String::from_str("Expect '(' after ");
        append_str(&mut message, kind);
        append_str(&mut message, " name.");
        (match self.consume(TokenType::LeftParen, message.as_str()) { Ok(v) => v, Err(e) => { return Err(e); } });

        // Parse the parameters
        let params = (match self.parameters() { Ok(v) => v, Err(e) => { return Err(e); } });

        // Consume the ')' token
        (match self.consume(TokenType::RightParen, "Expect ')' after parameters.") { Ok(v) => v, Err(e) => { return Err(e); } });

        // Consume the '{' token
        let mut message = String::from_str("Expect '{' before ");
        append_str(&mut message, kind);
        append_str(&mut message, " body.");
        (match self.consume(TokenType::LeftBrace, message.as_str()) { Ok(v) => v, Err(e) => { return Err(e); } });

        // Parse the function body
        match (match self.block_statement() { Ok(v) => v, Err(e) => { return Err(e); } }) {
            Statement::Block { statements: body } => Ok(Statement::Function { name: name_token, params, body, is_getter: false }),
            _ => Err(Self::error(&name_token, "Expect function body.")),
        }
    }

    #[verifier::spinoff_prover]
    #[verifier::loop_isolation(false)]
    fn class_declaration(&mut self) -> (r: Result<Statement, ParseError>)
        requires
            old(self).wf(),
            at(old(self).token_views(), old(self).current as int, TokenType::Keyword(Keyword::Class)),
        ensures
            old(self).kept(final(self)),
            agrees(r, final(self).current as int, grammar::class_declaration(old(self).token_views(), old(self).current as int)),
            r is Ok ==> old(self).current < final(self).current,
        decreases old(self).remaining(), 56int,
    {
        proof {
            reveal_with_fuel(grammar::class_declaration, 1);
            reveal_with_fuel(grammar::class_body, 1);
        }
        let ghost t = self.token_views();
        // Consume the 'class' keyword
        let _class_token = self.advance();

        // Consume the class name
        let name_token = (match self.consume(TokenType::Identifier, "Expect class name.") { Ok(v) => v, Err(e) => { return Err(e); } });

        // Consume the '{' token
        (match self.consume(TokenType::LeftBrace, "Expect '{' before class body.") { Ok(v) => v, Err(e) => { return Err(e); } });

        // Parse the methods in the class
        let ghost target = grammar::class_declaration(t, old(self).current as int);
        let mut methods: Vec<Statement> = Vec::new();
        assert(statements_view(methods@) =~= Seq::empty());
        while !self.check(TokenType::RightBrace) && self.current < self.tokens.len() - 1
            invariant
                self.wf(),
                old(self).kept(self),
                t == self.token_views(),
                old(self).current < self.current,
                grammar::class_body(t, name_token@, statements_view(methods@), self.current as int) == target,
            decreases self.tokens@.len() - self.current,
        {
            let m = (match self.function_declaration("method") { Ok(v) => v, Err(e) => { return Err(e); } });
            proof {
                lemma_statements_view_push(methods@, m);
            }
            methods.push(m);
        }

        // Consume the '}' token
        (match self.consume(TokenType::RightBrace, "Expect '}' after class body.") { Ok(v) => v, Err(e) => { return Err(e); } });

        let ghost nv = name_token@;
        let ghost mv = statements_view(methods@);
        let static_fields: Vec<Statement> = Vec::new();
        let static_methods: Vec<Statement> = Vec::new();
        assert(statements_view(static_fields@) =~= Seq::empty());
        assert(statements_view(static_methods@) =~= Seq::empty());
        let superclass: Option<Expr> = None;
        assert(opt_expr_view(superclass) == None::<crate::ast::expr::ExprView>);
        let s = Statement::Class { name: name_token, superclass, methods, static_fields, static_methods };
        assert(s@ == StatementView::Class {
            name: nv,
            superclass: None,
            methods: mv,
            static_fields: Seq::empty(),
            static_methods: Seq::empty(),
        });
        Ok(s)
    }

    #[verifier::spinoff_prover]
    fn statement(&mut self) -> (r: Result<Statement, ParseError>)
        requires
            old(self).wf(),
        ensures
            old(self).kept(final(self)),
            agrees(r, final(self).current as int, grammar::statement(old(self).token_views(), old(self).current as int)),
            r is Ok ==> old(self).current < final(self).current,
        decreases old(self).remaining(), 57int,
    {
        proof {
            reveal_with_fuel(grammar::statement, 1);
        }
        // Parse different kinds of statements based on the current token
        if self.check(TokenType::Keyword(Keyword::Print)) {
            self.print_statement()
        } else if self.check(TokenType::LeftBrace) {
            let _ = self.advance();
            let statements = (match self.block_body() { Ok(v) => v, Err(e) => { return Err(e); } });
            Ok(Statement::Block { statements })
        } else if self.check(TokenType::Keyword(Keyword::If)) {
            self.if_statement()
        } else if self.check(TokenType::Keyword(Keyword::While)) {
            self.while_statement()
        } else if self.check(TokenType::Keyword(Keyword::For)) {
            self.for_statement()
        } else if self.check(TokenType::Keyword(Keyword::Return)) {
            self.return_statement()
        } else {
            self.expression_statement()
        }
    }

    #[verifier::spinoff_prover]
    fn print_statement(&mut self) -> (r: Result<Statement, ParseError>)
        requires
            old(self).wf(),
            at(old(self).token_views(), old(self).current as int, TokenType::Keyword(Keyword::Print)),
        ensures
            old(self).kept(final(self)),
            agrees(r, final(self).current as int, grammar::print_statement(old(self).token_views(), old(self).current as int)),
            r is Ok ==> old(self).current < final(self).current,
        decreases old(self).remaining(), 56int,
    {
        proof {
            reveal_with_fuel(grammar::print_statement, 1);
        }
        // Consume the 'print' keyword
        let _print_token = self.advance();

        // Parse the expression to be printed
        let expression = (match self.expression() { Ok(v) => v, Err(e) => { return Err(e); } });

        // Consume the semicolon at the end of the print statement
        (match self.consume(TokenType::Semicolon, "Expect ';' after value.") { Ok(v) => v, Err(e) => { return Err(e); } });

        Ok(Statement::Print { expression })
    }

    #[verifier::spinoff_prover]
    fn expression_statement(&mut self) -> (r: Result<Statement, ParseError>)
        requires
            old(self).wf(),
        ensures
            old(self).kept(final(self)),
            agrees(
                r,
                final(self).current as int,
                grammar::expression_statement(old(self).token_views(), old(self).current as int),
            ),
            r is Ok ==> old(self).current < final(self).current,
        decreases old(self).remaining(), 56int,
    {
        proof {
            reveal_with_fuel(grammar::expression_statement, 1);
        }
        let expression = (match self.expression() { Ok(v) => v, Err(e) => { return Err(e); } });

        // Consume the semicolon at the end of the expression statement
        (match self.consume(TokenType::Semicolon, "Expect ';' after expression.") { Ok(v) => v, Err(e) => { return Err(e); } });

        Ok(Statement::Expression { expression })
    }

    #[verifier::spinoff_prover]
    fn block_statement(&mut self) -> (r: Result<Statement, ParseError>)
        requires
            old(self).wf(),
        ensures
            old(self).kept(final(self)),
            agrees_block(r, final(self).current as int, grammar::block(old(self).token_views(), old(self).current as int)),
            r is Ok ==> old(self).current < final(self).current,
        decreases old(self).remaining(), 60int,
    {
        proof {
            reveal_with_fuel(grammar::block, 1);
        }
        // Consume the '{' token if it's there
        if self.check(TokenType::LeftBrace) {
            let _left_brace_token = self.advance();
        }
        let statements = (match self.block_body() { Ok(v) => v, Err(e) => { return Err(e); } });
        Ok(Statement::Block { statements })
    }

    /// Parses the declarations of a block up to and including its `}`.
    #[verifier::spinoff_prover]
    #[verifier::loop_isolation(false)]
    fn block_body(&mut self) -> (r: Result<Vec<Statement>, ParseError>)
        requires
            old(self).wf(),
        ensures
            old(self).kept(final(self)),
            agrees_list(
                r,
                final(self).current as int,
                grammar::block_body(old(self).token_views(), Seq::empty(), old(self).current as int),
            ),
            r is Ok ==> old(self).current < final(self).current,
        decreases old(self).remaining(), 59int,
    {
        proof {
            reveal_with_fuel(grammar::block_body, 1);
        }
        let ghost t = self.token_views();
        let ghost target = grammar::block_body(t, Seq::empty(), self.current as int);
        // Create a vector to hold the statements in the block
        let mut statements: Vec<Statement> = Vec::new();
        assert(statements_view(statements@) =~= Seq::empty());

        // Parse statements until we find a '}'
        while !self.check(TokenType::RightBrace) && self.current < self.tokens.len() - 1
            invariant
                self.wf(),
                old(self).kept(self),
                t == self.token_views(),
                grammar::block_body(t, statements_view(statements@), self.current as int) == target,
            decreases self.tokens@.len() - self.current,
        {
            let declaration = (match self.declaration() { Ok(v) => v, Err(e) => { return Err(e); } });
            proof {
                lemma_statements_view_push(statements@, declaration);
            }
            statements.push(declaration);
        }

        // Consume the '}' token
        (match self.consume(TokenType::RightBrace, "Expect '}' after block.") { Ok(v) => v, Err(e) => { return Err(e); } });

        Ok(statements)
    }

    #[verifier::spinoff_prover]
    fn if_statement(&mut self) -> (r: Result<Statement, ParseError>)
        requires
            old(self).wf(),
            at(old(self).token_views(), old(self).current as int, TokenType::Keyword(Keyword::If)),
        ensures
            old(self).kept(final(self)),
            agrees(r, final(self).current as int, grammar::if_statement(old(self).token_views(), old(self).current as int)),
            r is Ok ==> old(self).current < final(self).current,
        decreases old(self).remaining(), 56int,
    {
        proof {
            reveal_with_fuel(grammar::if_statement, 1);
        }
        // Consume the 'if' keyword
        let _if_token = self.advance();

        // Parse the condition expression and consume the parentheses
        (match self.consume(TokenType::LeftParen, "Expect '(' after 'if'.") { Ok(v) => v, Err(e) => { return Err(e); } });
        let condition = (match self.expression() { Ok(v) => v, Err(e) => { return Err(e); } });
        (match self.consume(TokenType::RightParen, "Expect ')' after if condition.") { Ok(v) => v, Err(e) => { return Err(e); } });

        // Parse the then branch statement
        let then_branch = (match self.statement() { Ok(v) => v, Err(e) => { return Err(e); } });

        // Optional else branch
        let else_branch: Option<Box<Statement>> = if self.check(TokenType::Keyword(Keyword::Else)) {
            // Consume the 'else' keyword
            let _else_token = self.advance();

            // Parse the else branch statement
            Some(Box::new((match self.statement() { Ok(v) => v, Err(e) => { return Err(e); } })))
        } else {
            None
        };

        Ok(Statement::If { condition, then_branch: Box::new(then_branch), else_branch })
    }

    #[verifier::spinoff_prover]
    fn while_statement(&mut self) -> (r: Result<Statement, ParseError>)
        requires
            old(self).wf(),
            at(old(self).token_views(), old(self).current as int, TokenType::Keyword(Keyword::While)),
        ensures
            old(self).kept(final(self)),
            agrees(r, final(self).current as int, grammar::while_statement(old(self).token_views(), old(self).current as int)),
            r is Ok ==> old(self).current < final(self).current,
        decreases old(self).remaining(), 56int,
    {
        proof {
            reveal_with_fuel(grammar::while_statement, 1);
        }
        // Consume the 'while' keyword
        let _while_token = self.advance();

        // Parse the condition expression and consume the parentheses
        (match self.consume(TokenType::LeftParen, "Expect '(' after 'while'.") { Ok(v) => v, Err(e) => { return Err(e); } });
        let condition = (match self.expression() { Ok(v) => v, Err(e) => { return Err(e); } });
        (match self.consume(TokenType::RightParen, "Expect ')' after while condition.") { Ok(v) => v, Err(e) => { return Err(e); } });

        // Parse the body statement (the thing that gets repeated)
        let body: Statement = (match self.statement() { Ok(v) => v, Err(e) => { return Err(e); } });

        Ok(Statement::While { condition, body: Box::new(body) })
    }

    // This is not a new kind of statement, we are just desugaring a for loop into a while loop and some extra statements
    /// A block of two statements.
    fn pair_block(first: Statement, second: Statement) -> (r: Statement)
        ensures
            r@ == (StatementView::Block { statements: seq![first@, second@] }),
    {
        let mut statements: Vec<Statement> = Vec::new();
        assert(statements_view(statements@) =~= Seq::empty());
        proof {
            lemma_statements_view_push(statements@, first);
        }
        statements.push(first);
        proof {
            lemma_statements_view_push(statements@, second);
        }
        statements.push(second);
        assert(statements_view(statements@) =~= seq![first@, second@]);
        Statement::Block { statements }
    }

    #[verifier::spinoff_prover]
    #[verifier::rlimit(100)]
    fn for_statement(&mut self) -> (r: Result<Statement, ParseError>)
        requires
            old(self).wf(),
            at(old(self).token_views(), old(self).current as int, TokenType::Keyword(Keyword::For)),
        ensures
            old(self).kept(final(self)),
            agrees(r, final(self).current as int, grammar::for_statement(old(self).token_views(), old(self).current as int)),
            r is Ok ==> old(self).current < final(self).current,
        decreases old(self).remaining(), 56int,
    {
        proof {
            reveal_with_fuel(grammar::for_statement, 1);
            reveal_with_fuel(grammar::for_initializer, 1);
        }
        let ghost t = self.token_views();
        let ghost p = self.current as int;
        // Consume the 'for' keyword
        let _for_token = self.advance();

        // Consume the '(' token
        (match self.consume(TokenType::LeftParen, "Expect '(' after 'for'.") { Ok(v) => v, Err(e) => { return Err(e); } });

        // Parse the initializer (can be a variable declaration, expression statement, or empty)
        let ghost q = self.current as int;
        let initializer = if self.check(TokenType::Semicolon) {
            self.consume_any();
            None
        } else if self.check(TokenType::Keyword(Keyword::Var)) {
            // Initializer is a variable declaration
            Some((match self.var_declaration() { Ok(v) => v, Err(e) => { return Err(e); } }))
        } else {
            // Initializer is an expression statement
            Some((match self.expression_statement() { Ok(v) => v, Err(e) => { return Err(e); } }))
        };

        // Parse the condition (can be empty, which defaults to 'true')
        let condition = if !self.check(TokenType::Semicolon) {
            (match self.expression() { Ok(v) => v, Err(e) => { return Err(e); } })
        } else {
            let lexeme = String::from_str("true");
            proof {
                reveal_strlit("true");
            }
            Expr::Literal {
                value: Token {
                    token_type: TokenType::Keyword(Keyword::True),
                    lexeme,
                    literal: Some(Literal::Boolean(true)),
                    line: 0,
                },
            }
        };
        (match self.consume(TokenType::Semicolon, "Expect ';' after loop condition.") { Ok(v) => v, Err(e) => { return Err(e); } });

        // Parse the increment (can be empty)
        let increment = if !self.check(TokenType::RightParen) {
            Some((match self.expression() { Ok(v) => v, Err(e) => { return Err(e); } }))
        } else {
            None
        };
        (match self.consume(TokenType::RightParen, "Expect ')' after for clauses.") { Ok(v) => v, Err(e) => { return Err(e); } });

        // Parse the body statement
        let mut body: Statement = (match self.statement() { Ok(v) => v, Err(e) => { return Err(e); } });
        let ghost iv = opt_statement_view(initializer);
        let ghost cv = condition@;
        let ghost incv = opt_expr_view(increment);
        let ghost bv = body@;

        match increment {
            Some(increment) => {
                // Combine what's in the body with the increment expression
                let step = Statement::Expression { expression: increment };
                assert(step@ == StatementView::Expression { expression: incv->Some_0 });
                body = Self::pair_block(body, step);
            },
            None => {},
        }
        let ghost wv = body@;
        assert(wv == match incv {
            Some(i) => StatementView::Block { statements: seq![bv, StatementView::Expression { expression: i }] },
            None => bv,
        });

        // Create a while statement with the condition specified and the body we made (with the increment)
        body = Statement::While { condition, body: Box::new(body) };
        assert(body@ == StatementView::While { condition: cv, body: Box::new(wv) });

        // If there is an initializer, add it as a statement before the while loop
        match initializer {
            Some(initializer) => {
                body = Self::pair_block(initializer, body);
            },
            None => {},
        }
        assert(body@ == grammar::desugar_for(iv, cv, incv, bv));

        Ok(body)
    }

    #[verifier::spinoff_prover]
    fn return_statement(&mut self) -> (r: Result<Statement, ParseError>)
        requires
            old(self).wf(),
            at(old(self).token_views(), old(self).current as int, TokenType::Keyword(Keyword::Return)),
        ensures
            old(self).kept(final(self)),
            agrees(r, final(self).current as int, grammar::return_statement(old(self).token_views(), old(self).current as int)),
            r is Ok ==> old(self).current < final(self).current,
        decreases old(self).remaining(), 56int,
    {
        proof {
            reveal_with_fuel(grammar::return_statement, 1);
        }
        // Consume the 'return' keyword
        let keyword = (match self.advance() { Ok(v) => v, Err(e) => { return Err(e); } });

        // Optional return value
        let value = if !self.check(TokenType::Semicolon) {
            Some((match self.expression() { Ok(v) => v, Err(e) => { return Err(e); } }))
        } else {
            None
        };

        // Consume the semicolon at the end of the return statement
        (match self.consume(TokenType::Semicolon, "Expect ';' after return value.") { Ok(v) => v, Err(e) => { return Err(e); } });

        let ghost kv = keyword@;
        let ghost vv = opt_expr_view(value);
        let s = Statement::Return { keyword, value };
        assert(s@ == StatementView::Return { keyword: kv, value: vv });
        Ok(s)
    }

    /// Parses one expression from the current position.
    #[verifier::spinoff_prover]
    pub fn expression(&mut self) -> (r: Result<Expr, ParseError>)
        requires
            old(self).wf(),
        ensures
            old(self).kept(final(self)),
            agrees(r, final(self).position(), grammar::expression(old(self).token_views(), old(self).position())),
            r is Ok ==> old(self).position() < final(self).position(),
        decreases old(self).remaining(), 40int,
    {
        proof {
            reveal_with_fuel(grammar::expression, 1);
            assert(grammar::expression(self.token_views(), self.current as int) == grammar::assignment(
                self.token_views(),
                self.current as int,
            ));
        }
        self.assignment()
    }

    #[verifier::spinoff_prover]
    fn assignment(&mut self) -> (r: Result<Expr, ParseError>)
        requires
            old(self).wf(),
        ensures
            old(self).kept(final(self)),
            agrees(r, final(self).current as int, grammar::assignment(old(self).token_views(), old(self).current as int)),
            r is Ok ==> old(self).current < final(self).current,
        decreases old(self).remaining(), 39int,
    {
        proof {
            reveal_with_fuel(grammar::assignment, 1);
        }
        let expr = (match self.logic_or() { Ok(v) => v, Err(e) => { return Err(e); } });

        if self.check(TokenType::Equal) {
            let equals = (match self.advance() { Ok(v) => v, Err(e) => { return Err(e); } });
            let value = (match self.assignment() { Ok(v) => v, Err(e) => { return Err(e); } });

            // If the left-hand side is a variable, create an assignment expression
            match expr {
                Expr::Variable { name, .. } => {
                    return Ok(Expr::Assign { name, value: Box::new(value), depth: Depth::Unresolved });
                },
                Expr::Get { object, name } => {
                    return Ok(Expr::SetProperty { object, name, value: Box::new(value) });
                },
                _ => {
                    return Err(Self::error(&equals, "Invalid assignment target."));
                },
            }
        }

        Ok(expr)
    }

    #[verifier::spinoff_prover]
    #[verifier::loop_isolation(false)]
    fn logic_or(&mut self) -> (r: Result<Expr, ParseError>)
        requires
            old(self).wf(),
        ensures
            old(self).kept(final(self)),
            agrees(r, final(self).current as int, grammar::logic_or(old(self).token_views(), old(self).current as int)),
            r is Ok ==> old(self).current < final(self).current,
        decreases old(self).remaining(), 38int,
    {
        proof {
            reveal_with_fuel(grammar::logic_or, 1);
            reveal_with_fuel(grammar::logic_or_rest, 1);
        }
        let ghost t = self.token_views();
        let ghost target = grammar::logic_or(t, self.current as int);
        let mut expr = (match self.logic_and() { Ok(v) => v, Err(e) => { return Err(e); } });

        while self.check(TokenType::Keyword(Keyword::Or))
            invariant
                self.wf(),
                old(self).kept(self),
                t == self.token_views(),
                old(self).current < self.current,
                grammar::logic_or_rest(t, expr@, self.current as int) == target,
            decreases self.tokens@.len() - self.current,
        {
            let _operator = (match self.advance() { Ok(v) => v, Err(e) => { return Err(e); } });
            let right = (match self.logic_and() { Ok(v) => v, Err(e) => { return Err(e); } });

            expr = Expr::LogicOr { left: Box::new(expr), right: Box::new(right) };
        }

        Ok(expr)
    }

    #[verifier::spinoff_prover]
    #[verifier::loop_isolation(false)]
    fn logic_and(&mut self) -> (r: Result<Expr, ParseError>)
        requires
            old(self).wf(),
        ensures
            old(self).kept(final(self)),
            agrees(r, final(self).current as int, grammar::logic_and(old(self).token_views(), old(self).current as int)),
            r is Ok ==> old(self).current < final(self).current,
        decreases old(self).remaining(), 37int,
    {
        proof {
            reveal_with_fuel(grammar::logic_and, 1);
            reveal_with_fuel(grammar::logic_and_rest, 1);
        }
        let ghost t = self.token_views();
        let ghost target = grammar::logic_and(t, self.current as int);
        let mut expr = (match self.equality() { Ok(v) => v, Err(e) => { return Err(e); } });

        while self.check(TokenType::Keyword(Keyword::And))
            invariant
                self.wf(),
                old(self).kept(self),
                t == self.token_views(),
                old(self).current < self.current,
                grammar::logic_and_rest(t, expr@, self.current as int) == target,
            decreases self.tokens@.len() - self.current,
        {
            let _operator = (match self.advance() { Ok(v) => v, Err(e) => { return Err(e); } });
            let right = (match self.equality() { Ok(v) => v, Err(e) => { return Err(e); } });

            expr = Expr::LogicAnd { left: Box::new(expr), right: Box::new(right) };
        }

        Ok(expr)
    }

    // Lowest precedence, going up from here
    #[verifier::spinoff_prover]
    #[verifier::loop_isolation(false)]
    fn equality(&mut self) -> (r: Result<Expr, ParseError>)
        requires
            old(self).wf(),
        ensures
            old(self).kept(final(self)),
            agrees(r, final(self).current as int, grammar::equality(old(self).token_views(), old(self).current as int)),
            r is Ok ==> old(self).current < final(self).current,
        decreases old(self).remaining(), 36int,
    {
        proof {
            reveal_with_fuel(grammar::equality, 1);
            reveal_with_fuel(grammar::equality_rest, 1);
        }
        let ghost t = self.token_views();
        let ghost target = grammar::equality(t, self.current as int);
        // Create the left-hand side expression
        let mut expr = (match self.comparison() { Ok(v) => v, Err(e) => { return Err(e); } });

        while self.check(TokenType::BangEqual) || self.check(TokenType::EqualEqual)
            invariant
                self.wf(),
                old(self).kept(self),
                t == self.token_views(),
                old(self).current < self.current,
                grammar::equality_rest(t, expr@, self.current as int) == target,
            decreases self.tokens@.len() - self.current,
        {
            // Consume the operator and store it
            let operator = (match self.advance() { Ok(v) => v, Err(e) => { return Err(e); } });
            let right = (match self.comparison() { Ok(v) => v, Err(e) => { return Err(e); } });

            // Create a new binary expression with the left and right expressions
            expr = Expr::Binary { left: Box::new(expr), operator, right: Box::new(right) };
        }
        Ok(expr)
    }

    // A comparison is a term followed by zero or more <, >, <=, >=, each followed by a term, like 1 < 2 >= 3
    #[verifier::spinoff_prover]
    #[verifier::loop_isolation(false)]
    fn comparison(&mut self) -> (r: Result<Expr, ParseError>)
        requires
            old(self).wf(),
        ensures
            old(self).kept(final(self)),
            agrees(r, final(self).current as int, grammar::comparison(old(self).token_views(), old(self).current as int)),
            r is Ok ==> old(self).current < final(self).current,
        decreases old(self).remaining(), 33int,
    {
        proof {
            reveal_with_fuel(grammar::comparison, 1);
            reveal_with_fuel(grammar::comparison_rest, 1);
        }
        let ghost t = self.token_views();
        let ghost target = grammar::comparison(t, self.current as int);
        // Create the left-hand side expression
        let mut expr = (match self.term() { Ok(v) => v, Err(e) => { return Err(e); } });

        while self.check(TokenType::Less) || self.check(TokenType::Greater) || self.check(TokenType::LessEqual) || self.check(TokenType::GreaterEqual)
            invariant
                self.wf(),
                old(self).kept(self),
                t == self.token_views(),
                old(self).current < self.current,
                grammar::comparison_rest(t, expr@, self.current as int) == target,
            decreases self.tokens@.len() - self.current,
        {
            // Consume the operator and store it
            let operator = (match self.advance() { Ok(v) => v, Err(e) => { return Err(e); } });
            let right = (match self.term() { Ok(v) => v, Err(e) => { return Err(e); } });

            // Create a new binary expression with the left and right expressions
            expr = Expr::Binary { left: Box::new(expr), operator, right: Box::new(right) };
        }
        Ok(expr)
    }

    // A term is a factor followed by zero or more + or -, each followed by a factor, like 1 + 2 - 3
    #[verifier::spinoff_prover]
    #[verifier::loop_isolation(false)]
    fn term(&mut self) -> (r: Result<Expr, ParseError>)
        requires
            old(self).wf(),
        ensures
            old(self).kept(final(self)),
            agrees(r, final(self).current as int, grammar::additive(old(self).token_views(), old(self).current as int)),
            r is Ok ==> old(self).current < final(self).current,
        decreases old(self).remaining(), 30int,
    {
        proof {
            reveal_with_fuel(grammar::additive, 1);
            reveal_with_fuel(grammar::additive_rest, 1);
        }
        let ghost t = self.token_views();
        let ghost target = grammar::additive(t, self.current as int);
        // Create the left-hand side expression
        let mut expr = (match self.factor() { Ok(v) => v, Err(e) => { return Err(e); } });

        while self.check(TokenType::Minus) || self.check(TokenType::Plus)
            invariant
                self.wf(),
                old(self).kept(self),
                t == self.token_views(),
                old(self).current < self.current,
                grammar::additive_rest(t, expr@, self.current as int) == target,
            decreases self.tokens@.len() - self.current,
        {
            // Consume the operator and store it
            let operator = (match self.advance() { Ok(v) => v, Err(e) => { return Err(e); } });
            let right = (match self.factor() { Ok(v) => v, Err(e) => { return Err(e); } });

            // Create a new binary expression with the left and right expressions
            expr = Expr::Binary { left: Box::new(expr), operator, right: Box::new(right) };
        }
        Ok(expr)
    }

    // A factor is a unary expression followed by zero or more * or /, each followed by a unary expression, like -4 / 2 * 3
    #[verifier::spinoff_prover]
    #[verifier::loop_isolation(false)]
    fn factor(&mut self) -> (r: Result<Expr, ParseError>)
        requires
            old(self).wf(),
        ensures
            old(self).kept(final(self)),
            agrees(r, final(self).current as int, grammar::factor(old(self).token_views(), old(self).current as int)),
            r is Ok ==> old(self).current < final(self).current,
        decreases old(self).remaining(), 27int,
    {
        proof {
            reveal_with_fuel(grammar::factor, 1);
            reveal_with_fuel(grammar::factor_rest, 1);
        }
        let ghost t = self.token_views();
        let ghost target = grammar::factor(t, self.current as int);
        // Create the left-hand side expression
        let mut expr = (match self.unary() { Ok(v) => v, Err(e) => { return Err(e); } });

        while self.check(TokenType::Slash) || self.check(TokenType::Star)
            invariant
                self.wf(),
                old(self).kept(self),
                t == self.token_views(),
                old(self).current < self.current,
                grammar::factor_rest(t, expr@, self.current as int) == target,
            decreases self.tokens@.len() - self.current,
        {
            // Consume the operator and store it
            let operator = (match self.advance() { Ok(v) => v, Err(e) => { return Err(e); } });
            let right = (match self.unary() { Ok(v) => v, Err(e) => { return Err(e); } });

            // Create a new binary expression with the left and right expressions
            expr = Expr::Binary { left: Box::new(expr), operator, right: Box::new(right) };
        }
        Ok(expr)
    }

    // A unary expression is either a primary expression or a unary operator followed by another unary expression, like -!!5
    #[verifier::spinoff_prover]
    fn unary(&mut self) -> (r: Result<Expr, ParseError>)
        requires
            old(self).wf(),
        ensures
            old(self).kept(final(self)),
            agrees(r, final(self).current as int, grammar::unary(old(self).token_views(), old(self).current as int)),
            r is Ok ==> old(self).current < final(self).current,
        decreases old(self).remaining(), 24int,
    {
        proof {
            reveal_with_fuel(grammar::unary, 1);
        }
        if self.check(TokenType::Bang) || self.check(TokenType::Minus) {
            let operator = (match self.advance() { Ok(v) => v, Err(e) => { return Err(e); } });
            let right = (match self.unary() { Ok(v) => v, Err(e) => { return Err(e); } });

            return Ok(Expr::Unary { operator, right: Box::new(right) });
        }

        self.call()
    }

    #[verifier::spinoff_prover]
    #[verifier::loop_isolation(false)]
    fn call(&mut self) -> (r: Result<Expr, ParseError>)
        requires
            old(self).wf(),
        ensures
            old(self).kept(final(self)),
            agrees(r, final(self).current as int, grammar::call(old(self).token_views(), old(self).current as int)),
            r is Ok ==> old(self).current < final(self).current,
        decreases old(self).remaining(), 23int,
    {
        proof {
            reveal_with_fuel(grammar::call, 1);
            reveal_with_fuel(grammar::call_rest, 1);
        }
        let ghost t = self.token_views();
        let ghost target = grammar::call(t, self.current as int);
        let mut expr = (match self.primary() { Ok(v) => v, Err(e) => { return Err(e); } });

        loop
            invariant
                self.wf(),
                old(self).kept(self),
                t == self.token_views(),
                old(self).current < self.current,
                grammar::call_rest(t, expr@, self.current as int) == target,
            decreases self.tokens@.len() - self.current,
        {
            if self.check(TokenType::LeftParen) {
                expr = (match self.finish_call(expr) { Ok(v) => v, Err(e) => { return Err(e); } });
            } else if self.check(TokenType::Dot) {
                let _dot = self.advance();
                let name = (match self.consume(TokenType::Identifier, "Expect property name after '.'.") { Ok(v) => v, Err(e) => { return Err(e); } });
                expr = Expr::Get { object: Box::new(expr), name };
            } else {
                break;
            }
        }

        Ok(expr)
    }

    #[verifier::spinoff_prover]
    fn finish_call(&mut self, callee: Expr) -> (r: Result<Expr, ParseError>)
        requires
            old(self).wf(),
            at(old(self).token_views(), old(self).current as int, TokenType::LeftParen),
        ensures
            old(self).kept(final(self)),
            agrees(r, final(self).current as int, grammar::finish_call(old(self).token_views(), callee@, old(self).current as int)),
            r is Ok ==> old(self).current < final(self).current,
        decreases old(self).remaining(), 22int,
    {
        proof {
            reveal_with_fuel(grammar::finish_call, 1);
        }
        // Consume the '(' token
        (match self.advance() { Ok(v) => v, Err(e) => { return Err(e); } });

        // Scan the arguments
        let arguments = if self.check(TokenType::RightParen) {
            let none: Vec<Expr> = Vec::new();
            assert(exprs_view(none@) =~= Seq::empty());
            none
        } else {
            (match self.call_arguments() { Ok(v) => v, Err(e) => { return Err(e); } })
        };

        let paren = (match self.consume(TokenType::RightParen, "Expect ')' after arguments.") { Ok(v) => v, Err(e) => { return Err(e); } });

        let ghost cv = callee@;
        let ghost pv = paren@;
        let ghost av = exprs_view(arguments@);
        let call = Expr::Call { callee: Box::new(callee), paren, arguments };
        assert(call@ == crate::ast::expr::ExprView::Call { callee: Box::new(cv), paren: pv, arguments: av });
        Ok(call)
    }

    #[verifier::spinoff_prover]
    fn call_arguments(&mut self) -> (r: Result<Vec<Expr>, ParseError>)
        requires
            old(self).wf(),
        ensures
            old(self).kept(final(self)),
            agrees_exprs(
                r,
                final(self).current as int,
                grammar::more_arguments(old(self).token_views(), Seq::empty(), old(self).current as int),
            ),
        decreases old(self).remaining(), 41int,
    {
        let ghost t = self.token_views();
        let ghost p = self.current as int;
        let mut args: Vec<Expr> = Vec::new();
        assert(exprs_view(args@) =~= Seq::empty());
        let ghost target = grammar::more_arguments(t, Seq::empty(), p);
        loop
            invariant_except_break
                grammar::more_arguments(t, exprs_view(args@), self.current as int) == target,
            invariant
                self.wf(),
                old(self).kept(self),
                t == self.token_views(),
                p <= self.current,
                p == old(self).current,
                t == old(self).token_views(),
                target == grammar::more_arguments(t, Seq::empty(), p),
                args@.len() > 0 ==> p < self.current,
            ensures
                target == Ok::<(Seq<crate::ast::expr::ExprView>, int), (crate::parser::error::ParseErrorView, int)>((exprs_view(args@), self.current as int)),
            decreases self.tokens@.len() - self.current, if args@.len() == 0 { 1int } else { 0int },
        {
            let ghost cur = self.current as int;
            let ghost acc = exprs_view(args@);
            proof {
                reveal_with_fuel(grammar::more_arguments, 1);
                assert(grammar::more_arguments(t, acc, cur) == match grammar::expression(t, cur) {
                    Err(e) => Err(e),
                    Ok((arg, q)) => if !moved(t, cur, q) {
                        grammar::stalled(q)
                    } else if at(t, q, TokenType::Comma) {
                        grammar::more_arguments(t, acc.push(arg), q + 1)
                    } else {
                        Ok((acc.push(arg), q))
                    },
                });
            }
            // Add one argument expression to the list of args
            let argument = match self.expression() {
                Ok(v) => v,
                Err(e) => {
                    assert(grammar::expression(t, cur) == Err::<(crate::ast::expr::ExprView, int), (crate::parser::error::ParseErrorView, int)>((e@, self.current as int)));
                    assert(target == Err::<(Seq<crate::ast::expr::ExprView>, int), (crate::parser::error::ParseErrorView, int)>((e@, self.current as int)));
                    return Err(e);
                },
            };
            proof {
                lemma_exprs_view_push(args@, argument);
            }
            args.push(argument);
            if !self.check(TokenType::Comma) {
                // If there isn't a comma, there are no more args
                break;
            }
            (match self.advance() { Ok(v) => v, Err(e) => { return Err(e); } });  // consume the comma
        }
        Ok(args)
    }

    // A primary expression is either a literal value or a parenthesized expression
    #[verifier::spinoff_prover]
    fn primary(&mut self) -> (r: Result<Expr, ParseError>)
        requires
            old(self).wf(),
        ensures
            old(self).kept(final(self)),
            agrees(r, final(self).current as int, grammar::primary(old(self).token_views(), old(self).current as int)),
            r is Ok ==> old(self).current < final(self).current,
        decreases old(self).remaining(), 21int,
    {
        proof {
            reveal_with_fuel(grammar::primary, 1);
        }
        let current_token = (match self.advance() { Ok(v) => v, Err(e) => { return Err(e); } });

        match current_token.token_type {
            TokenType::Number | TokenType::String => Ok(Expr::Literal { value: current_token }),
            TokenType::LeftParen => {
                let expr = (match self.expression() { Ok(v) => v, Err(e) => { return Err(e); } });
                (match self.consume(TokenType::RightParen, "Expect expression.") { Ok(v) => v, Err(e) => { return Err(e); } });
                Ok(Expr::Grouping { expression: Box::new(expr) })
            },
            TokenType::Keyword(Keyword::Nil) | TokenType::Keyword(Keyword::False) | TokenType::Keyword(Keyword::True) => {
                Ok(Expr::Literal { value: current_token })
            },
            TokenType::Keyword(Keyword::Fun) => self.lambda_expression(),
            TokenType::Keyword(Keyword::This) => Ok(Expr::This { keyword: current_token, depth: Depth::Unresolved }),
            TokenType::Identifier => Ok(Expr::Variable { name: current_token, depth: Depth::Unresolved }),
            _ => Err(Self::error(&current_token, "Expect expression.")),
        }
    }

    #[verifier::spinoff_prover]
    fn lambda_expression(&mut self) -> (r: Result<Expr, ParseError>)
        requires
            old(self).wf(),
        ensures
            old(self).kept(final(self)),
            agrees(r, final(self).current as int, grammar::lambda(old(self).token_views(), old(self).current as int)),
            r is Ok ==> old(self).current < final(self).current,
        decreases old(self).remaining(), 20int,
    {
        proof {
            reveal_with_fuel(grammar::lambda, 1);
        }
        // Parse the parameters
        (match self.consume(TokenType::LeftParen, "Expect '(' after 'fun'.") { Ok(v) => v, Err(e) => { return Err(e); } });

        // Parse the parameters to the lambda
        let params = (match self.parameters() { Ok(v) => v, Err(e) => { return Err(e); } });

        // Consume the ')' token
        (match self.consume(TokenType::RightParen, "Expect ')' after parameters.") { Ok(v) => v, Err(e) => { return Err(e); } });

        // Consume the '{' token
        (match self.consume(TokenType::LeftBrace, "Expect '{' before lambda body.") { Ok(v) => v, Err(e) => { return Err(e); } });

        // Parse the function body
        match (match self.block_statement() { Ok(v) => v, Err(e) => { return Err(e); } }) {
            Statement::Block { statements: body } => Ok(Expr::Lambda { params, body }),
            _ => Err(Self::error(&self.tokens[0], "Expect lambda body.")),
        }
    }
}

} // verus!
