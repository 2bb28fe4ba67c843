use vstd::prelude::*;
use vstd::string::StrSliceExecFns;

use crate::lexer::{
    digit_run, digit_value, int_end, is_digit, lex_from, lex_spec, number_end, number_tokens,
    numeral_at, numeral_end, tokens_view, Numeral, NumeralView, Token, TokenView,
};

verus! {

/// The two ways of combining resistances.
#[derive(Debug, Clone, Copy, PartialEq, Eq, Structural)]
pub enum Operand {
    Series,
    Parallel,
}

/// A magnitude suffix after a numeral.
#[derive(Debug, Clone, Copy, PartialEq, Eq, Structural)]
pub enum Multiplier {
    K,
}

impl Multiplier {
    /// The power of ten by which the suffix scales a number.
    pub fn decimal_exponent(&self) -> (r: u32)
        ensures
            r == multiplier_exponent(*self),
    {
        match self {
            Multiplier::K => 3,
        }
    }
}

pub open spec fn multiplier_exponent(m: Multiplier) -> u32 {
    match m {
        Multiplier::K => 3,
    }
}

/// A number, possibly scaled by a magnitude suffix.
#[derive(Debug, Clone, PartialEq)]
pub enum Literal {
    Number(Numeral),
    NumberAndMultiplier { number: Numeral, multiplier: Multiplier },
}

/// A name to look up, a literal, or a combination of at least one argument.
#[derive(Debug, PartialEq)]
pub enum Expression {
    Identifier(String),
    Literal(Literal),
    Expression { operand: Operand, args: Vec<Expression> },
}

pub type Args = Vec<Expression>;

/// One statement: a binding of a name, or an expression whose value is shown.
#[derive(Debug, PartialEq)]
pub enum AST {
    Bind { identifier: String, expression: Expression },
    Eval(Expression),
}

pub type Program = Vec<AST>;

/// What a literal means: a numeral, possibly with its suffix.
pub enum LiteralView {
    Number(NumeralView),
    Scaled(NumeralView, Multiplier),
}

/// What an expression means, with names as sequences of characters.
pub enum ExprView {
    Identifier(Seq<char>),
    Literal(LiteralView),
    Combination(Operand, Seq<ExprView>),
}

/// What a statement means.
pub enum StatementView {
    Bind(Seq<char>, ExprView),
    Eval(ExprView),
}

/// A reason why a sequence of tokens is not a program.
#[derive(Debug, Clone, Copy, PartialEq, Eq, Structural)]
pub enum ParseError {
    /// A statement starts with neither an identifier nor `?`.
    ExpectedStatement,
    /// No `=` after the start of a statement.
    ExpectedEqual,
    /// Two statements not separated by an end of line.
    ExpectedEndOfLine,
    /// No expression where one must stand.
    ExpectedExpression,
    /// A multiplier other than `k`.
    UnknownMultiplier,
    /// No `(` after the operator.
    MissingLeftParenthesis(Operand),
    /// No `)` after the operator's arguments.
    MissingRightParenthesis(Operand),
}

impl View for Literal {
    type V = LiteralView;

    open spec fn view(&self) -> LiteralView {
        match self {
            Literal::Number(n) => LiteralView::Number(n@),
            Literal::NumberAndMultiplier { number, multiplier } => LiteralView::Scaled(
                number@,
                *multiplier,
            ),
        }
    }
}

pub open spec fn expr_view(e: Expression) -> ExprView
    decreases e,
{
    match e {
        Expression::Identifier(name) => ExprView::Identifier(name@),
        Expression::Literal(l) => ExprView::Literal(l@),
        Expression::Expression { operand, args } => ExprView::Combination(
            operand,
            Seq::new(
                args.len() as nat,
                |i: int|
                    if 0 <= i < args.len() {
                        expr_view(args[i])
                    } else {
                        ExprView::Identifier(Seq::empty())
                    },
            ),
        ),
    }
}

pub open spec fn exprs_view(es: Seq<Expression>) -> Seq<ExprView> {
    es.map_values(|e: Expression| expr_view(e))
}

pub open spec fn statement_view(s: AST) -> StatementView {
    match s {
        AST::Bind { identifier, expression } => StatementView::Bind(
            identifier@,
            expr_view(expression),
        ),
        AST::Eval(e) => StatementView::Eval(expr_view(e)),
    }
}

pub open spec fn program_view(p: Seq<AST>) -> Seq<StatementView> {
    p.map_values(|s: AST| statement_view(s))
}

pub open spec fn operand_of(t: TokenView) -> Operand {
    if t is Series {
        Operand::Series
    } else {
        Operand::Parallel
    }
}

pub open spec fn prepend_args(
    a: Seq<ExprView>,
    r: Result<(Seq<ExprView>, int), ParseError>,
) -> Result<(Seq<ExprView>, int), ParseError> {
    match r {
        Ok((rest, q)) => Ok((a + rest, q)),
        Err(x) => Err(x),
    }
}

/// The literal that a number token at `p` begins, and where it ends.
pub open spec fn parse_number_at(ts: Seq<TokenView>, p: int) -> Result<
    (LiteralView, int),
    ParseError,
> {
    if 0 <= p < ts.len() && ts[p] is Number {
        if p + 1 < ts.len() && ts[p + 1] is Multiplier {
            if ts[p + 1]->Multiplier_0 == seq!['k'] {
                Ok((LiteralView::Scaled(ts[p]->Number_0, Multiplier::K), p + 2))
            } else {
                Err(ParseError::UnknownMultiplier)
            }
        } else {
            Ok((LiteralView::Number(ts[p]->Number_0), p + 1))
        }
    } else {
        Err(ParseError::ExpectedExpression)
    }
}

/// The expression that begins at `p`, and where it ends.
pub open spec fn parse_expr_at(ts: Seq<TokenView>, p: int) -> Result<(ExprView, int), ParseError>
    decreases ts.len() - p, 0nat,
{
    if p < 0 || p >= ts.len() {
        Err(ParseError::ExpectedExpression)
    } else if ts[p] is Identifier {
        Ok((ExprView::Identifier(ts[p]->Identifier_0), p + 1))
    } else if ts[p] is Number {
        match parse_number_at(ts, p) {
            Ok((l, q)) => Ok((ExprView::Literal(l), q)),
            Err(x) => Err(x),
        }
    } else if ts[p] is Series || ts[p] is Parallel {
        let op = operand_of(ts[p]);
        if p + 1 < ts.len() && ts[p + 1] is LeftParenthesis {
            match parse_args_at(ts, p + 2) {
                Ok((args, q)) => if 0 <= q < ts.len() && ts[q] is RightParenthesis {
                    Ok((ExprView::Combination(op, args), q + 1))
                } else {
                    Err(ParseError::MissingRightParenthesis(op))
                },
                Err(x) => Err(x),
            }
        } else {
            Err(ParseError::MissingLeftParenthesis(op))
        }
    } else {
        Err(ParseError::ExpectedExpression)
    }
}

/// A comma-separated, non-empty list of expressions that begins at `p`,
/// and where it ends.
pub open spec fn parse_args_at(ts: Seq<TokenView>, p: int) -> Result<
    (Seq<ExprView>, int),
    ParseError,
>
    decreases ts.len() - p, 1nat,
{
    match parse_expr_at(ts, p) {
        Ok((e, q)) => if p < q <= ts.len() {
            prepend_args(seq![e], args_tail_at(ts, q))
        } else {
            Err(ParseError::ExpectedExpression)
        },
        Err(x) => Err(x),
    }
}

/// The further arguments after one that ends at `q`: none unless a comma follows.
pub open spec fn args_tail_at(ts: Seq<TokenView>, q: int) -> Result<
    (Seq<ExprView>, int),
    ParseError,
>
    decreases ts.len() - q, 2nat,
{
    if 0 <= q < ts.len() && ts[q] is Comma {
        parse_args_at(ts, q + 1)
    } else {
        Ok((Seq::empty(), q))
    }
}

/// The statement that begins at `p`, and where it ends.
pub open spec fn parse_statement_at(ts: Seq<TokenView>, p: int) -> Result<
    (StatementView, int),
    ParseError,
> {
    if 0 <= p < ts.len() && (ts[p] is Identifier || ts[p] is Evaluator) {
        if p + 1 < ts.len() && ts[p + 1] is Equal {
            match parse_expr_at(ts, p + 2) {
                Ok((e, q)) => Ok(
                    (
                        if ts[p] is Identifier {
                            StatementView::Bind(ts[p]->Identifier_0, e)
                        } else {
                            StatementView::Eval(e)
                        },
                        q,
                    ),
                ),
                Err(x) => Err(x),
            }
        } else {
            Err(ParseError::ExpectedEqual)
        }
    } else {
        Err(ParseError::ExpectedStatement)
    }
}

/// The statements from `p` on: one at least, separated by single ends of
/// line, with at most one end of line after the last.
pub open spec fn parse_statements_at(ts: Seq<TokenView>, p: int) -> Result<
    Seq<StatementView>,
    ParseError,
>
    decreases ts.len() - p,
{
    match parse_statement_at(ts, p) {
        Ok((st, q)) => if q >= ts.len() || (ts[q] is EndOfLine && q + 1 >= ts.len()) {
            Ok(seq![st])
        } else if ts[q] is EndOfLine && p < q {
            match parse_statements_at(ts, q + 1) {
                Ok(rest) => Ok(seq![st] + rest),
                Err(x) => Err(x),
            }
        } else {
            Err(ParseError::ExpectedEndOfLine)
        },
        Err(x) => Err(x),
    }
}

/// Where the leading run of ends of line that starts at `p` ends.
pub open spec fn skip_blank_lines(ts: Seq<TokenView>, p: int) -> int
    decreases ts.len() - p,
{
    if 0 <= p < ts.len() && ts[p] is EndOfLine {
        skip_blank_lines(ts, p + 1)
    } else {
        p
    }
}

/// The program that a sequence of tokens spells, or why it spells none.
pub open spec fn parse_spec(ts: Seq<TokenView>) -> Result<Seq<StatementView>, ParseError> {
    parse_statements_at(ts, skip_blank_lines(ts, 0))
}

pub open spec fn all_digits(t: Seq<char>) -> bool {
    forall|j: int| 0 <= j < t.len() ==> is_digit(#[trigger] t[j])
}

/// The text of a numeral: integer digits, then, when `point` holds, a point
/// and the digits of the fraction; then a `k` when `suffix` holds.
pub open spec fn numeral_text(
    int_part: Seq<char>,
    point: bool,
    frac_part: Seq<char>,
    suffix: bool,
) -> Seq<char> {
    (if point {
        int_part + seq!['.'] + frac_part
    } else {
        int_part
    }) + (if suffix {
        seq!['k']
    } else {
        Seq::empty()
    })
}

/// The numeral that such a text spells.
pub open spec fn text_numeral(int_part: Seq<char>, point: bool, frac_part: Seq<char>) -> NumeralView {
    NumeralView {
        int_digits: int_part.map_values(|c: char| digit_value(c)),
        frac_digits: if point {
            frac_part.map_values(|c: char| digit_value(c))
        } else {
            Seq::empty()
        },
    }
}

/// The literal of a numeral, scaled by `k` when the suffix is there.
pub open spec fn text_literal(
    int_part: Seq<char>,
    point: bool,
    frac_part: Seq<char>,
    suffix: bool,
) -> LiteralView {
    if suffix {
        LiteralView::Scaled(text_numeral(int_part, point, frac_part), Multiplier::K)
    } else {
        LiteralView::Number(text_numeral(int_part, point, frac_part))
    }
}

proof fn lemma_digit_run_exact(s: Seq<char>, j: int, e: int)
    requires
        0 <= j <= e <= s.len(),
        forall|m: int| j <= m < e ==> is_digit(#[trigger] s[m]),
        e == s.len() || !is_digit(s[e]),
    ensures
        digit_run(s, j) == e - j,
    decreases e - j,
{
    if j < e {
        lemma_digit_run_exact(s, j + 1, e);
    }
}

/// The line `? = n` for a numeral `n`, with or without the `k` suffix, lexes
/// to the evaluator, `=` and the numeral's tokens, and parses to a single
/// evaluation of that literal.
pub proof fn lemma_evaluate_numeral_line(
    int_part: Seq<char>,
    point: bool,
    frac_part: Seq<char>,
    suffix: bool,
)
    requires
        int_part.len() > 0,
        all_digits(int_part),
        all_digits(frac_part),
    ensures
        ({
            let tokens = seq![
                TokenView::Evaluator,
                TokenView::Equal,
                TokenView::Number(text_numeral(int_part, point, frac_part)),
            ] + (if suffix {
                seq![TokenView::Multiplier(seq!['k'])]
            } else {
                Seq::empty()
            });
            &&& lex_spec(seq!['?', ' ', '=', ' '] + numeral_text(int_part, point, frac_part, suffix))
                == Ok::<Seq<TokenView>, nat>(tokens)
            &&& parse_spec(tokens) == Ok::<Seq<StatementView>, ParseError>(
                seq![StatementView::Eval(ExprView::Literal(text_literal(int_part, point, frac_part, suffix)))],
            )
        }),
{
    let text = numeral_text(int_part, point, frac_part, suffix);
    let s = seq!['?', ' ', '=', ' '] + text;
    let n = int_part.len() as int;
    let ie = 4 + n;
    assert(s.subrange(4, ie) =~= int_part);
    assert forall|m: int| 4 + 1 <= m < ie implies is_digit(#[trigger] s[m]) by {
        assert(s[m] == int_part[m - 4]);
    }
    lemma_digit_run_exact(s, 5, ie);
    assert(int_end(s, 4) == ie);
    let ne = if point {
        ie + 1 + frac_part.len() as int
    } else {
        ie
    };
    if point {
        assert(s[ie] == '.');
        assert(s.subrange(ie + 1, ne) =~= frac_part);
        assert forall|m: int| ie + 1 <= m < ne implies is_digit(#[trigger] s[m]) by {
            assert(s[m] == frac_part[m - ie - 1]);
        }
        lemma_digit_run_exact(s, ie + 1, ne);
    } else if suffix {
        assert(s[ie] == 'k');
    }
    assert(numeral_end(s, 4) == ne);
    assert(s.len() == ne + (if suffix {
        1int
    } else {
        0
    }));
    if suffix {
        assert(s[ne] == 'k');
    }
    assert(number_end(s, 4) == s.len());
    let nv = text_numeral(int_part, point, frac_part);
    assert(numeral_at(s, 4).int_digits =~= nv.int_digits);
    assert(numeral_at(s, 4).frac_digits =~= nv.frac_digits);
    assert(numeral_at(s, 4) == nv);
    let rest = if suffix {
        seq![TokenView::Multiplier(seq!['k'])]
    } else {
        Seq::<TokenView>::empty()
    };
    assert(number_tokens(s, 4) =~= seq![TokenView::Number(nv)] + rest);
    assert(lex_from(s, s.len() as int, 1) == Ok::<Seq<TokenView>, nat>(Seq::empty()));
    assert(lex_from(s, 4, 1) == Ok::<Seq<TokenView>, nat>(number_tokens(s, 4) + Seq::empty()));
    assert(number_tokens(s, 4) + Seq::empty() =~= number_tokens(s, 4));
    assert(lex_from(s, 3, 1) == lex_from(s, 4, 1));
    assert(lex_from(s, 2, 1) == Ok::<Seq<TokenView>, nat>(seq![TokenView::Equal] + number_tokens(s, 4)));
    assert(lex_from(s, 1, 1) == lex_from(s, 2, 1));
    let tokens = seq![TokenView::Evaluator, TokenView::Equal, TokenView::Number(nv)] + rest;
    assert(seq![TokenView::Evaluator] + (seq![TokenView::Equal] + number_tokens(s, 4)) =~= tokens);
    assert(lex_spec(s) == Ok::<Seq<TokenView>, nat>(tokens));
    assert(skip_blank_lines(tokens, 0) == 0);
    assert(tokens[2] == TokenView::Number(nv));
    assert(parse_expr_at(tokens, 2) == Ok::<(ExprView, int), ParseError>(
        (ExprView::Literal(text_literal(int_part, point, frac_part, suffix)), tokens.len() as int),
    ));
}

/// A cursor over a sequence of tokens.
pub struct Parser {
    tokens: Vec<Token>,
    cursor: usize,
}

impl Parser {
    pub closed spec fn toks(&self) -> Seq<TokenView> {
        tokens_view(self.tokens@)
    }

    pub closed spec fn pos(&self) -> int {
        self.cursor as int
    }

    pub closed spec fn wf(&self) -> bool {
        self.cursor <= self.tokens.len()
    }

    fn peek(&self) -> (r: Option<&Token>)
        requires
            self.wf(),
        ensures
            self.pos() < self.toks().len() ==> r is Some && r->0@ == self.toks()[self.pos()],
            self.pos() >= self.toks().len() ==> r is None,
    {
        if self.cursor < self.tokens.len() {
            Some(&self.tokens[self.cursor])
        } else {
            None
        }
    }

    /// Moves past the current token.
    fn next(&mut self)
        requires
            old(self).wf(),
            old(self).pos() < old(self).toks().len(),
        ensures
            final(self).wf(),
            final(self).toks() == old(self).toks(),
            final(self).pos() == old(self).pos() + 1,
    {
        self.cursor = self.cursor + 1;
    }

    /// Whether the current token is `token`, which carries no value.
    fn check(&self, token: &Token) -> (r: bool)
        requires
            self.wf(),
            !(token is Identifier || token is Number || token is Multiplier),
        ensures
            r == (self.pos() < self.toks().len() && self.toks()[self.pos()] == token@),
    {
        match self.peek() {
            Some(t) => same_plain_token(t, token),
            None => false,
        }
    }

    /// Consumes the current token, which must be `token`.
    fn expect(&mut self, token: &Token) -> (r: bool)
        requires
            old(self).wf(),
            !(token is Identifier || token is Number || token is Multiplier),
        ensures
            final(self).wf(),
            final(self).toks() == old(self).toks(),
            r == (old(self).pos() < old(self).toks().len() && old(self).toks()[old(self).pos()]
                == token@),
            r ==> final(self).pos() == old(self).pos() + 1,
            !r ==> final(self).pos() == old(self).pos(),
    {
        if self.check(token) {
            self.next();
            true
        } else {
            false
        }
    }

    fn is_empty(&self) -> (r: bool)
        requires
            self.wf(),
        ensures
            r == (self.pos() >= self.toks().len()),
    {
        self.cursor >= self.tokens.len()
    }

    fn init_parser(tokens: Vec<Token>) -> (r: Parser)
        ensures
            r.wf(),
            r.pos() == 0,
            r.toks() == tokens_view(tokens@),
    {
        Parser { tokens, cursor: 0 }
    }

    /// Parses a whole sequence of tokens into its statements.
    ///
    /// Leading ends of line are skipped; statements are separated by one end
    /// of line each, and one may follow the last.
    pub fn parse(tokens: Vec<Token>) -> (r: Result<Program, ParseError>)
        ensures
            match parse_spec(tokens_view(tokens@)) {
                Ok(p) => r is Ok && program_view(r->Ok_0@) == p,
                Err(x) => r == Err::<Program, ParseError>(x),
            },
    {
        let mut parser = Self::init_parser(tokens);
        parser.parse_statements()
    }
}

impl Parser {
    fn parse_statements(&mut self) -> (r: Result<Program, ParseError>)
        requires
            old(self).wf(),
        ensures
            match parse_statements_at(old(self).toks(), skip_blank_lines(old(self).toks(), old(self).pos())) {
                Ok(p) => r is Ok && program_view(r->Ok_0@) == p,
                Err(x) => r == Err::<Program, ParseError>(x),
            },
    {
        let ghost ts = self.toks();
        let ghost p0 = self.pos();
        while self.check(&Token::EndOfLine)
            invariant
                self.wf(),
                self.toks() == ts,
                ts.len() == self.tokens@.len(),
                ts == old(self).toks(),
                p0 == old(self).pos(),
                skip_blank_lines(ts, p0) == skip_blank_lines(ts, self.pos()),
            decreases ts.len() - self.pos(),
        {
            self.next();
        }
        let ghost start = self.pos();
        let mut result: Vec<AST> = Vec::new();
        loop
            invariant
                self.wf(),
                self.toks() == ts,
                ts.len() == self.tokens@.len(),
                ts == old(self).toks(),
                p0 == old(self).pos(),
                start == skip_blank_lines(ts, p0),
                parse_statements_at(ts, start) == prepend_statements(
                    program_view(result@),
                    parse_statements_at(ts, self.pos()),
                ),
            decreases ts.len() - self.pos(),
        {
            let ghost c = self.pos();
            let ghost before = result@;
            let st = match self.parse_statement() {
                Ok(st) => st,
                Err(x) => {
                    return Err(x);
                },
            };
            let ghost sv = statement_view(st);
            result.push(st);
            assert(program_view(result@) =~= program_view(before) + seq![sv]);
            if self.is_empty() {
                assert(program_view(before) + seq![sv] =~= program_view(result@));
                return Ok(result);
            }
            if !self.expect(&Token::EndOfLine) {
                return Err(ParseError::ExpectedEndOfLine);
            }
            if self.is_empty() {
                return Ok(result);
            }
            proof {
                lemma_prepend_statements_assoc(
                    program_view(before),
                    seq![sv],
                    parse_statements_at(ts, self.pos()),
                );
            }
        }
    }

    fn parse_statement(&mut self) -> (r: Result<AST, ParseError>)
        requires
            old(self).wf(),
        ensures
            final(self).wf(),
            final(self).toks() == old(self).toks(),
            match parse_statement_at(old(self).toks(), old(self).pos()) {
                Ok((st, q)) => r is Ok && statement_view(r->Ok_0) == st && final(self).pos() == q,
                Err(x) => r == Err::<AST, ParseError>(x),
            },
            r is Ok ==> old(self).pos() < final(self).pos(),
    {
        let name: Option<String> = match self.peek() {
            Some(Token::Identifier(n)) => Some(n.clone()),
            Some(Token::Evaluator) => None,
            _ => {
                return Err(ParseError::ExpectedStatement);
            },
        };
        self.next();
        if !self.expect(&Token::Equal) {
            return Err(ParseError::ExpectedEqual);
        }
        let expression = match self.parse_expression() {
            Ok(e) => e,
            Err(x) => {
                return Err(x);
            },
        };
        match name {
            Some(identifier) => Ok(AST::Bind { identifier, expression }),
            None => Ok(AST::Eval(expression)),
        }
    }

    fn parse_expression(&mut self) -> (r: Result<Expression, ParseError>)
        requires
            old(self).wf(),
        ensures
            final(self).wf(),
            final(self).toks() == old(self).toks(),
            match parse_expr_at(old(self).toks(), old(self).pos()) {
                Ok((e, q)) => r is Ok && expr_view(r->Ok_0) == e && final(self).pos() == q,
                Err(x) => r == Err::<Expression, ParseError>(x),
            },
            r is Ok ==> old(self).pos() < final(self).pos(),
        decreases old(self).tokens@.len() - old(self).cursor, 0nat,
    {
        let operand = match self.peek() {
            Some(Token::Identifier(name)) => {
                let n = name.clone();
                self.next();
                return Ok(Expression::Identifier(n));
            },
            Some(Token::Number(_)) => {
                return match self.parse_number() {
                    Ok(l) => Ok(Expression::Literal(l)),
                    Err(x) => Err(x),
                };
            },
            Some(Token::Series) => Operand::Series,
            Some(Token::Parallel) => Operand::Parallel,
            _ => {
                return Err(ParseError::ExpectedExpression);
            },
        };
        self.next();
        if !self.expect(&Token::LeftParenthesis) {
            return Err(ParseError::MissingLeftParenthesis(operand));
        }
        let args = match self.parse_args() {
            Ok(a) => a,
            Err(x) => {
                return Err(x);
            },
        };
        if !self.expect(&Token::RightParenthesis) {
            return Err(ParseError::MissingRightParenthesis(operand));
        }
        let r = Expression::Expression { operand, args };
        assert(expr_view(r) == ExprView::Combination(operand, exprs_view(args@))) by {
            if let ExprView::Combination(_, v) = expr_view(r) {
                assert(v =~= exprs_view(args@));
            }
        }
        Ok(r)
    }

    fn parse_number(&mut self) -> (r: Result<Literal, ParseError>)
        requires
            old(self).wf(),
        ensures
            final(self).wf(),
            final(self).toks() == old(self).toks(),
            match parse_number_at(old(self).toks(), old(self).pos()) {
                Ok((l, q)) => r is Ok && r->Ok_0@ == l && final(self).pos() == q,
                Err(x) => r == Err::<Literal, ParseError>(x),
            },
    {
        let number = match self.peek() {
            Some(Token::Number(n)) => n.duplicate(),
            _ => {
                return Err(ParseError::ExpectedExpression);
            },
        };
        self.next();
        let is_k = match self.peek() {
            Some(Token::Multiplier(m)) => is_k_suffix(m),
            _ => {
                return Ok(Literal::Number(number));
            },
        };
        if is_k {
            self.next();
            Ok(Literal::NumberAndMultiplier { number, multiplier: Multiplier::K })
        } else {
            Err(ParseError::UnknownMultiplier)
        }
    }

    fn parse_args(&mut self) -> (r: Result<Args, ParseError>)
        requires
            old(self).wf(),
        ensures
            final(self).wf(),
            final(self).toks() == old(self).toks(),
            match parse_args_at(old(self).toks(), old(self).pos()) {
                Ok((es, q)) => r is Ok && exprs_view(r->Ok_0@) == es && final(self).pos() == q,
                Err(x) => r == Err::<Args, ParseError>(x),
            },
            r is Ok ==> old(self).pos() < final(self).pos(),
        decreases old(self).tokens@.len() - old(self).cursor, 1nat,
    {
        let ghost ts = self.toks();
        let ghost p = self.pos();
        let first = match self.parse_expression() {
            Ok(e) => e,
            Err(x) => {
                return Err(x);
            },
        };
        let mut result: Vec<Expression> = Vec::new();
        result.push(first);
        assert(exprs_view(result@) =~= seq![expr_view(first)]);
        while self.check(&Token::Comma)
            invariant
                self.wf(),
                self.toks() == ts,
                ts.len() == self.tokens@.len(),
                ts == old(self).toks(),
                p == old(self).pos(),
                p < self.pos() <= ts.len(),
                parse_args_at(ts, p) == prepend_args(
                    exprs_view(result@),
                    args_tail_at(ts, self.pos()),
                ),
            decreases ts.len() - self.pos(),
        {
            let ghost before = result@;
            self.next();
            let e = match self.parse_expression() {
                Ok(e) => e,
                Err(x) => {
                    return Err(x);
                },
            };
            result.push(e);
            proof {
                assert(exprs_view(result@) =~= exprs_view(before) + seq![expr_view(e)]);
                lemma_prepend_args_assoc(
                    exprs_view(before),
                    seq![expr_view(e)],
                    args_tail_at(ts, self.pos()),
                );
            }
        }
        assert(exprs_view(result@) + Seq::<ExprView>::empty() =~= exprs_view(result@));
        Ok(result)
    }
}

pub open spec fn prepend_statements(
    a: Seq<StatementView>,
    r: Result<Seq<StatementView>, ParseError>,
) -> Result<Seq<StatementView>, ParseError> {
    match r {
        Ok(rest) => Ok(a + rest),
        Err(x) => Err(x),
    }
}

proof fn lemma_prepend_statements_assoc(
    a: Seq<StatementView>,
    b: Seq<StatementView>,
    r: Result<Seq<StatementView>, ParseError>,
)
    ensures
        prepend_statements(a, prepend_statements(b, r)) == prepend_statements(a + b, r),
{
    if let Ok(x) = r {
        assert((a + b) + x =~= a + (b + x));
    }
}

proof fn lemma_prepend_args_assoc(
    a: Seq<ExprView>,
    b: Seq<ExprView>,
    r: Result<(Seq<ExprView>, int), ParseError>,
)
    ensures
        prepend_args(a, prepend_args(b, r)) == prepend_args(a + b, r),
{
    if let Ok((x, _)) = r {
        assert((a + b) + x =~= a + (b + x));
    }
}

/// Whether a multiplier token names the `k` suffix.
fn is_k_suffix(m: &String) -> (r: bool)
    ensures
        r == (m@ == seq!['k']),
{
    let s = m.as_str();
    if s.unicode_len() == 1 && s.get_char(0) == 'k' {
        assert(s@ =~= seq!['k']);
        true
    } else {
        false
    }
}

/// Whether `t` is the token `plain`, which carries no value.
fn same_plain_token(t: &Token, plain: &Token) -> (r: bool)
    requires
        !(plain is Identifier || plain is Number || plain is Multiplier),
    ensures
        r == (t@ == plain@),
{
    match (t, plain) {
        (Token::Equal, Token::Equal) => true,
        (Token::Parallel, Token::Parallel) => true,
        (Token::Series, Token::Series) => true,
        (Token::Comma, Token::Comma) => true,
        (Token::Evaluator, Token::Evaluator) => true,
        (Token::LeftParenthesis, Token::LeftParenthesis) => true,
        (Token::RightParenthesis, Token::RightParenthesis) => true,
        (Token::EndOfLine, Token::EndOfLine) => true,
        _ => false,
    }
}

} // verus!
