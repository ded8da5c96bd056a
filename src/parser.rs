//! Recursive-descent parsing of template segments into the flat syntax tree.
//!
//! Binary operators of one precedence level associate to the right: `2-3-4` is `2-(3-4)`.
use crate::ast::{
    contents_model, exprs_model, names_model, BinaryOp, Block, BlockModel, Content, ContentModel,
    Expr, ExprModel, UnaryOp, Value, ValueModel,
};
use crate::lexer::{documents_model, tokens_model, DocumentKind, DocumentModel, Token, TokenModel};
use vstd::prelude::*;

verus! {

#[derive(Clone, Copy, Debug, PartialEq, Eq, Structural)]
pub enum ParseError {
    /// A `(` without its `)`.
    MissingParen,
    /// A `[` without its `]`.
    MissingBracket,
    /// The segment ends where a value is needed.
    ExpectedValue,
    /// A token that cannot start a value.
    UnexpectedToken,
    /// A name is needed (a loop variable, a `keys` entry).
    ExpectedIdentifier,
    /// `#for x` not followed by `in`.
    ExpectedIn,
    /// `#` not followed by `if` or `for`.
    ExpectedBlock,
    /// `:` not followed by `else`.
    ExpectedElse,
    /// `@` not followed by `keys` or `base`.
    ExpectedStatement,
    /// A second `@base` in one source.
    DuplicateBase,
    /// `@base` whose argument is not a string literal.
    BaseNotString,
}

pub type ExprResult = Result<(ExprModel, int), ParseError>;

pub open spec fn tok_is(toks: Seq<TokenModel>, i: int, t: Token) -> bool {
    0 <= i < toks.len() && toks[i] == TokenModel::Plain(t)
}

pub open spec fn binary(kind: BinaryOp, lhs: ExprModel, rhs: ExprModel) -> ExprModel {
    ExprModel::Binary(kind, Box::new(lhs), Box::new(rhs))
}

pub open spec fn with_lhs(kind: BinaryOp, lhs: ExprModel, r: ExprResult) -> ExprResult {
    match r {
        Ok((rhs, k)) => Ok((binary(kind, lhs, rhs), k)),
        Err(e) => Err(e),
    }
}

pub open spec fn logical_op(toks: Seq<TokenModel>, j: int) -> Option<BinaryOp> {
    if tok_is(toks, j, Token::And) {
        Some(BinaryOp::And)
    } else if tok_is(toks, j, Token::Bar) {
        Some(BinaryOp::Or)
    } else {
        None
    }
}

pub open spec fn comparison_op(toks: Seq<TokenModel>, j: int) -> Option<BinaryOp> {
    if tok_is(toks, j, Token::Equals) {
        Some(BinaryOp::Equals)
    } else if tok_is(toks, j, Token::NotEquals) {
        Some(BinaryOp::NotEquals)
    } else if tok_is(toks, j, Token::GreaterThan) {
        Some(BinaryOp::GreaterThan)
    } else if tok_is(toks, j, Token::GreaterThanOrEquals) {
        Some(BinaryOp::GreaterThanOrEquals)
    } else if tok_is(toks, j, Token::LessThan) {
        Some(BinaryOp::LessThan)
    } else if tok_is(toks, j, Token::LessThanOrEquals) {
        Some(BinaryOp::LessThanOrEquals)
    } else {
        None
    }
}

pub open spec fn additive_op(toks: Seq<TokenModel>, j: int) -> Option<BinaryOp> {
    if tok_is(toks, j, Token::Plus) {
        Some(BinaryOp::Add)
    } else if tok_is(toks, j, Token::Minus) {
        Some(BinaryOp::Subtract)
    } else if tok_is(toks, j, Token::Concat) {
        Some(BinaryOp::Concat)
    } else {
        None
    }
}

pub open spec fn term_op(toks: Seq<TokenModel>, j: int) -> Option<BinaryOp> {
    if tok_is(toks, j, Token::Asterisk) {
        Some(BinaryOp::Multiply)
    } else if tok_is(toks, j, Token::Slash) {
        Some(BinaryOp::Divide)
    } else if tok_is(toks, j, Token::Percent) {
        Some(BinaryOp::Modulo)
    } else {
        None
    }
}

/// `logical := condition (('&' | '|') logical)?`
pub open spec fn logical_expr(toks: Seq<TokenModel>, i: int) -> ExprResult
    decreases toks.len() - i, 6int,
{
    match condition_expr(toks, i) {
        Err(e) => Err(e),
        Ok((lhs, j)) => match logical_op(toks, j) {
            None => Ok((lhs, j)),
            Some(kind) => if j < i {
                Err(ParseError::UnexpectedToken)
            } else {
                with_lhs(kind, lhs, logical_expr(toks, j + 1))
            },
        },
    }
}

/// `condition := additive (comparison additive)?`
pub open spec fn condition_expr(toks: Seq<TokenModel>, i: int) -> ExprResult
    decreases toks.len() - i, 5int,
{
    match additive_expr(toks, i) {
        Err(e) => Err(e),
        Ok((lhs, j)) => match comparison_op(toks, j) {
            None => Ok((lhs, j)),
            Some(kind) => if j < i {
                Err(ParseError::UnexpectedToken)
            } else {
                with_lhs(kind, lhs, additive_expr(toks, j + 1))
            },
        },
    }
}

/// `additive := term (('+' | '-' | '++') additive)?`
pub open spec fn additive_expr(toks: Seq<TokenModel>, i: int) -> ExprResult
    decreases toks.len() - i, 3int,
{
    match term_expr(toks, i) {
        Err(e) => Err(e),
        Ok((lhs, j)) => match additive_op(toks, j) {
            None => Ok((lhs, j)),
            Some(kind) => if j < i {
                Err(ParseError::UnexpectedToken)
            } else {
                with_lhs(kind, lhs, additive_expr(toks, j + 1))
            },
        },
    }
}

/// `term := factor (('*' | '/' | '%') term)?`
pub open spec fn term_expr(toks: Seq<TokenModel>, i: int) -> ExprResult
    decreases toks.len() - i, 2int,
{
    match factor_expr(toks, i) {
        Err(e) => Err(e),
        Ok((lhs, j)) => match term_op(toks, j) {
            None => Ok((lhs, j)),
            Some(kind) => if j < i {
                Err(ParseError::UnexpectedToken)
            } else {
                with_lhs(kind, lhs, term_expr(toks, j + 1))
            },
        },
    }
}

pub open spec fn unary(kind: UnaryOp, r: ExprResult) -> ExprResult {
    match r {
        Ok((e, k)) => Ok((ExprModel::Unary(kind, Box::new(e)), k)),
        Err(e) => Err(e),
    }
}

/// `factor := '-' factor | '!' factor | '(' logical ')' | literal | identifier-expression`
pub open spec fn factor_expr(toks: Seq<TokenModel>, i: int) -> ExprResult
    decreases toks.len() - i, 1int,
{
    if i < 0 || i >= toks.len() {
        Err(ParseError::ExpectedValue)
    } else if tok_is(toks, i, Token::Minus) {
        unary(UnaryOp::Negate, factor_expr(toks, i + 1))
    } else if tok_is(toks, i, Token::Not) {
        unary(UnaryOp::Not, factor_expr(toks, i + 1))
    } else if tok_is(toks, i, Token::OParen) {
        match logical_expr(toks, i + 1) {
            Err(e) => Err(e),
            Ok((inner, j)) => if tok_is(toks, j, Token::CParen) {
                Ok((ExprModel::Unary(UnaryOp::Dummy, Box::new(inner)), j + 1))
            } else {
                Err(ParseError::MissingParen)
            },
        }
    } else {
        match toks[i] {
            TokenModel::Ident(name) => identifier_expr(toks, name, i + 1),
            TokenModel::Str(s) => Ok((ExprModel::Leaf(ValueModel::Str(s)), i + 1)),
            TokenModel::Plain(Token::Boolean(b)) => Ok(
                (ExprModel::Leaf(ValueModel::Boolean(b)), i + 1),
            ),
            TokenModel::Plain(Token::Number(n)) => Ok(
                (ExprModel::Leaf(ValueModel::Number(n)), i + 1),
            ),
            _ => Err(ParseError::UnexpectedToken),
        }
    }
}

/// After a name: a call `name(args)`, an indexing chain `name[e][e]...`, or the name itself.
pub open spec fn identifier_expr(toks: Seq<TokenModel>, name: Seq<char>, i: int) -> ExprResult
    decreases toks.len() - i, 1int,
{
    if tok_is(toks, i, Token::OParen) {
        match argument_list(toks, i + 1, seq![]) {
            Err(e) => Err(e),
            Ok((args, j)) => if tok_is(toks, j, Token::CParen) {
                Ok((ExprModel::Call(name, args), j + 1))
            } else {
                Err(ParseError::MissingParen)
            },
        }
    } else {
        index_chain(toks, i, ExprModel::Leaf(ValueModel::Variable(name)))
    }
}

/// `additive (',' additive)*`, appended to `acc`.
pub open spec fn argument_list(toks: Seq<TokenModel>, i: int, acc: Seq<ExprModel>) -> Result<
    (Seq<ExprModel>, int),
    ParseError,
>
    decreases toks.len() - i, 4int,
{
    match additive_expr(toks, i) {
        Err(e) => Err(e),
        Ok((arg, j)) => if tok_is(toks, j, Token::Comma) {
            if j < i {
                Err(ParseError::UnexpectedToken)
            } else {
                argument_list(toks, j + 1, acc.push(arg))
            }
        } else {
            Ok((acc.push(arg), j))
        },
    }
}

/// `('[' additive ']')*` applied to `base`, innermost first.
pub open spec fn index_chain(toks: Seq<TokenModel>, i: int, base: ExprModel) -> ExprResult
    decreases toks.len() - i, 0int,
{
    if tok_is(toks, i, Token::OBracket) {
        match additive_expr(toks, i + 1) {
            Err(e) => Err(e),
            Ok((index, j)) => if !tok_is(toks, j, Token::CBracket) {
                Err(ParseError::MissingBracket)
            } else if j < i {
                Err(ParseError::UnexpectedToken)
            } else {
                index_chain(toks, j + 1, binary(BinaryOp::Index, base, index))
            },
        }
    } else {
        Ok((base, i))
    }
}


// ---- executable expression parsing -----------------------------------------------------------

pub open spec fn expr_result(r: Result<(Expr, usize), ParseError>) -> ExprResult {
    match r {
        Ok((e, j)) => Ok((e@, j as int)),
        Err(e) => Err(e),
    }
}

pub open spec fn advances(r: Result<(Expr, usize), ParseError>, i: int, n: int) -> bool {
    r matches Ok((_, j)) ==> i <= j <= n
}

fn logical_op_at(toks: &Vec<Token>, j: usize) -> (r: Option<BinaryOp>)
    ensures
        r == logical_op(tokens_model(toks@), j as int),
{
    if j >= toks.len() {
        None
    } else if matches!(toks[j], Token::And) {
        Some(BinaryOp::And)
    } else if matches!(toks[j], Token::Bar) {
        Some(BinaryOp::Or)
    } else {
        None
    }
}

fn comparison_op_at(toks: &Vec<Token>, j: usize) -> (r: Option<BinaryOp>)
    ensures
        r == comparison_op(tokens_model(toks@), j as int),
{
    if j >= toks.len() {
        None
    } else if matches!(toks[j], Token::Equals) {
        Some(BinaryOp::Equals)
    } else if matches!(toks[j], Token::NotEquals) {
        Some(BinaryOp::NotEquals)
    } else if matches!(toks[j], Token::GreaterThan) {
        Some(BinaryOp::GreaterThan)
    } else if matches!(toks[j], Token::GreaterThanOrEquals) {
        Some(BinaryOp::GreaterThanOrEquals)
    } else if matches!(toks[j], Token::LessThan) {
        Some(BinaryOp::LessThan)
    } else if matches!(toks[j], Token::LessThanOrEquals) {
        Some(BinaryOp::LessThanOrEquals)
    } else {
        None
    }
}

fn additive_op_at(toks: &Vec<Token>, j: usize) -> (r: Option<BinaryOp>)
    ensures
        r == additive_op(tokens_model(toks@), j as int),
{
    if j >= toks.len() {
        None
    } else if matches!(toks[j], Token::Plus) {
        Some(BinaryOp::Add)
    } else if matches!(toks[j], Token::Minus) {
        Some(BinaryOp::Subtract)
    } else if matches!(toks[j], Token::Concat) {
        Some(BinaryOp::Concat)
    } else {
        None
    }
}

fn term_op_at(toks: &Vec<Token>, j: usize) -> (r: Option<BinaryOp>)
    ensures
        r == term_op(tokens_model(toks@), j as int),
{
    if j >= toks.len() {
        None
    } else if matches!(toks[j], Token::Asterisk) {
        Some(BinaryOp::Multiply)
    } else if matches!(toks[j], Token::Slash) {
        Some(BinaryOp::Divide)
    } else if matches!(toks[j], Token::Percent) {
        Some(BinaryOp::Modulo)
    } else {
        None
    }
}

fn is_at(toks: &Vec<Token>, j: usize, t: Token) -> (r: bool)
    requires
        matches!(t, Token::OParen | Token::CParen | Token::OBracket | Token::CBracket
            | Token::Comma | Token::Minus | Token::Not | Token::Hashtag | Token::Colon
            | Token::Slash | Token::At | Token::If | Token::For | Token::In | Token::Else
            | Token::Keys | Token::Base),
    ensures
        r == tok_is(tokens_model(toks@), j as int, t),
{
    if j >= toks.len() {
        return false;
    }
    let k = &toks[j];
    match t {
        Token::OParen => matches!(k, Token::OParen),
        Token::CParen => matches!(k, Token::CParen),
        Token::OBracket => matches!(k, Token::OBracket),
        Token::CBracket => matches!(k, Token::CBracket),
        Token::Comma => matches!(k, Token::Comma),
        Token::Minus => matches!(k, Token::Minus),
        Token::Not => matches!(k, Token::Not),
        Token::Hashtag => matches!(k, Token::Hashtag),
        Token::Colon => matches!(k, Token::Colon),
        Token::Slash => matches!(k, Token::Slash),
        Token::At => matches!(k, Token::At),
        Token::If => matches!(k, Token::If),
        Token::For => matches!(k, Token::For),
        Token::In => matches!(k, Token::In),
        Token::Else => matches!(k, Token::Else),
        Token::Keys => matches!(k, Token::Keys),
        _ => matches!(k, Token::Base),
    }
}

fn binary_expr(kind: BinaryOp, lhs: Expr, rhs: Expr) -> (e: Expr)
    ensures
        e@ == binary(kind, lhs@, rhs@),
{
    Expr::BinaryOp { kind, lhs: Box::new(lhs), rhs: Box::new(rhs) }
}

pub fn parse_logical(toks: &Vec<Token>, i: usize) -> (r: Result<(Expr, usize), ParseError>)
    requires
        i <= toks.len(),
    ensures
        expr_result(r) == logical_expr(tokens_model(toks@), i as int),
        advances(r, i as int, toks.len() as int),
    decreases toks.len() - i, 6int,
{
    let (lhs, j) = match parse_condition(toks, i) {
        Ok(p) => p,
        Err(e) => return Err(e),
    };
    match logical_op_at(toks, j) {
        None => Ok((lhs, j)),
        Some(kind) => match parse_logical(toks, j + 1) {
            Ok((rhs, k)) => Ok((binary_expr(kind, lhs, rhs), k)),
            Err(e) => Err(e),
        },
    }
}

pub fn parse_condition(toks: &Vec<Token>, i: usize) -> (r: Result<(Expr, usize), ParseError>)
    requires
        i <= toks.len(),
    ensures
        expr_result(r) == condition_expr(tokens_model(toks@), i as int),
        advances(r, i as int, toks.len() as int),
    decreases toks.len() - i, 5int,
{
    let (lhs, j) = match parse_expression(toks, i) {
        Ok(p) => p,
        Err(e) => return Err(e),
    };
    match comparison_op_at(toks, j) {
        None => Ok((lhs, j)),
        Some(kind) => match parse_expression(toks, j + 1) {
            Ok((rhs, k)) => Ok((binary_expr(kind, lhs, rhs), k)),
            Err(e) => Err(e),
        },
    }
}

/// The additive level: `term (('+' | '-' | '++') additive)?`.
pub fn parse_expression(toks: &Vec<Token>, i: usize) -> (r: Result<(Expr, usize), ParseError>)
    requires
        i <= toks.len(),
    ensures
        expr_result(r) == additive_expr(tokens_model(toks@), i as int),
        advances(r, i as int, toks.len() as int),
    decreases toks.len() - i, 3int,
{
    let (lhs, j) = match parse_term(toks, i) {
        Ok(p) => p,
        Err(e) => return Err(e),
    };
    match additive_op_at(toks, j) {
        None => Ok((lhs, j)),
        Some(kind) => match parse_expression(toks, j + 1) {
            Ok((rhs, k)) => Ok((binary_expr(kind, lhs, rhs), k)),
            Err(e) => Err(e),
        },
    }
}

pub fn parse_term(toks: &Vec<Token>, i: usize) -> (r: Result<(Expr, usize), ParseError>)
    requires
        i <= toks.len(),
    ensures
        expr_result(r) == term_expr(tokens_model(toks@), i as int),
        advances(r, i as int, toks.len() as int),
    decreases toks.len() - i, 2int,
{
    let (lhs, j) = match parse_factor(toks, i) {
        Ok(p) => p,
        Err(e) => return Err(e),
    };
    match term_op_at(toks, j) {
        None => Ok((lhs, j)),
        Some(kind) => match parse_term(toks, j + 1) {
            Ok((rhs, k)) => Ok((binary_expr(kind, lhs, rhs), k)),
            Err(e) => Err(e),
        },
    }
}

fn unary_expr(kind: UnaryOp, r: Result<(Expr, usize), ParseError>) -> (u: Result<
    (Expr, usize),
    ParseError,
>)
    ensures
        expr_result(u) == unary(kind, expr_result(r)),
        r matches Ok((_, j)) ==> u matches Ok((_, k)) && k == j,
        r is Err ==> u is Err,
{
    match r {
        Ok((e, k)) => Ok((Expr::UnaryOp { kind, value: Box::new(e) }, k)),
        Err(e) => Err(e),
    }
}

pub fn parse_factor(toks: &Vec<Token>, i: usize) -> (r: Result<(Expr, usize), ParseError>)
    requires
        i <= toks.len(),
    ensures
        expr_result(r) == factor_expr(tokens_model(toks@), i as int),
        advances(r, i as int, toks.len() as int),
    decreases toks.len() - i, 1int,
{
    let ghost m = tokens_model(toks@);
    if i >= toks.len() {
        return Err(ParseError::ExpectedValue);
    }
    if is_at(toks, i, Token::Minus) {
        return unary_expr(UnaryOp::Negate, parse_factor(toks, i + 1));
    }
    if is_at(toks, i, Token::Not) {
        return unary_expr(UnaryOp::Not, parse_factor(toks, i + 1));
    }
    if is_at(toks, i, Token::OParen) {
        let (inner, j) = match parse_logical(toks, i + 1) {
            Ok(p) => p,
            Err(e) => return Err(e),
        };
        if is_at(toks, j, Token::CParen) {
            return Ok((Expr::UnaryOp { kind: UnaryOp::Dummy, value: Box::new(inner) }, j + 1));
        } else {
            return Err(ParseError::MissingParen);
        }
    }
    assert(m[i as int] == toks@[i as int]@);
    match &toks[i] {
        Token::Ident(name) => parse_identifier(toks, name.clone(), i + 1),
        Token::String(s) => Ok((Expr::Value(Value::String(s.clone())), i + 1)),
        Token::Boolean(b) => Ok((Expr::Value(Value::Boolean(*b)), i + 1)),
        Token::Number(n) => Ok((Expr::Value(Value::Number(*n)), i + 1)),
        _ => Err(ParseError::UnexpectedToken),
    }
}

fn parse_identifier(toks: &Vec<Token>, name: String, i: usize) -> (r: Result<
    (Expr, usize),
    ParseError,
>)
    requires
        i <= toks.len(),
    ensures
        expr_result(r) == identifier_expr(tokens_model(toks@), name@, i as int),
        advances(r, i as int, toks.len() as int),
    decreases toks.len() - i, 1int,
{
    if is_at(toks, i, Token::OParen) {
        let (args, j) = match parse_arguments(toks, i + 1, Vec::new()) {
            Ok(p) => p,
            Err(e) => return Err(e),
        };
        if is_at(toks, j, Token::CParen) {
            Ok((Expr::Function { ident: name, arguments: args }, j + 1))
        } else {
            Err(ParseError::MissingParen)
        }
    } else {
        parse_index_chain(toks, i, Expr::Value(Value::Variable(name)))
    }
}

proof fn lemma_exprs_model_push(s: Seq<Expr>, e: Expr)
    ensures
        exprs_model(s.push(e)) == exprs_model(s).push(e@),
{
    assert(s.push(e).drop_last() =~= s);
}

fn parse_arguments(toks: &Vec<Token>, i: usize, acc: Vec<Expr>) -> (r: Result<
    (Vec<Expr>, usize),
    ParseError,
>)
    requires
        i <= toks.len(),
    ensures
        match r {
            Ok((args, j)) => argument_list(tokens_model(toks@), i as int, exprs_model(acc@)) == Ok::<
                (Seq<ExprModel>, int),
                ParseError,
            >((exprs_model(args@), j as int)) && i <= j <= toks.len(),
            Err(e) => argument_list(tokens_model(toks@), i as int, exprs_model(acc@)) == Err::<
                (Seq<ExprModel>, int),
                ParseError,
            >(e),
        },
    decreases toks.len() - i, 4int,
{
    let (arg, j) = match parse_expression(toks, i) {
        Ok(p) => p,
        Err(e) => return Err(e),
    };
    let mut acc = acc;
    let ghost before = acc@;
    proof {
        lemma_exprs_model_push(before, arg);
    }
    acc.push(arg);
    if is_at(toks, j, Token::Comma) {
        parse_arguments(toks, j + 1, acc)
    } else {
        Ok((acc, j))
    }
}

fn parse_index_chain(toks: &Vec<Token>, i: usize, base: Expr) -> (r: Result<
    (Expr, usize),
    ParseError,
>)
    requires
        i <= toks.len(),
    ensures
        expr_result(r) == index_chain(tokens_model(toks@), i as int, base@),
        advances(r, i as int, toks.len() as int),
    decreases toks.len() - i, 0int,
{
    if is_at(toks, i, Token::OBracket) {
        let (index, j) = match parse_expression(toks, i + 1) {
            Ok(p) => p,
            Err(e) => return Err(e),
        };
        if !is_at(toks, j, Token::CBracket) {
            return Err(ParseError::MissingBracket);
        }
        parse_index_chain(toks, j + 1, binary_expr(BinaryOp::Index, base, index))
    } else {
        Ok((base, i))
    }
}


// ---- segments and whole documents ------------------------------------------------------------

/// Content nodes, with the base template that the source names, if any.
pub type SegmentResult = Result<(Seq<ContentModel>, Option<Seq<char>>), ParseError>;

pub open spec fn ident_at(toks: Seq<TokenModel>, i: int) -> Option<Seq<char>> {
    if 0 <= i < toks.len() && toks[i] is Ident {
        Some(toks[i]->Ident_0)
    } else {
        None
    }
}

pub open spec fn string_at(toks: Seq<TokenModel>, i: int) -> Option<Seq<char>> {
    if 0 <= i < toks.len() && toks[i] is Str {
        Some(toks[i]->Str_0)
    } else {
        None
    }
}

/// The names of `@keys a b c`: every token from `i` on must be an identifier.
pub open spec fn key_names(toks: Seq<TokenModel>, i: int) -> Result<Seq<Seq<char>>, ParseError> {
    if forall|k: int| i <= k < toks.len() ==> #[trigger] toks[k] is Ident {
        Ok(Seq::new((toks.len() - i) as nat, |k: int| toks[i + k]->Ident_0))
    } else {
        Err(ParseError::ExpectedIdentifier)
    }
}

/// `#if <logical>` or `#for <name> in <name>`: opens a block.
pub open spec fn block_declaration(toks: Seq<TokenModel>) -> Result<Seq<ContentModel>, ParseError> {
    if tok_is(toks, 1, Token::If) {
        match logical_expr(toks, 2) {
            Ok((c, _)) => Ok(seq![ContentModel::Block(BlockModel::If(c))]),
            Err(e) => Err(e),
        }
    } else if tok_is(toks, 1, Token::For) {
        match ident_at(toks, 2) {
            None => Err(ParseError::ExpectedIdentifier),
            Some(element) => if !tok_is(toks, 3, Token::In) {
                Err(ParseError::ExpectedIn)
            } else {
                match ident_at(toks, 4) {
                    None => Err(ParseError::ExpectedIdentifier),
                    Some(iterable) => Ok(
                        seq![ContentModel::Block(BlockModel::For(element, iterable))],
                    ),
                }
            },
        }
    } else {
        Err(ParseError::ExpectedBlock)
    }
}

/// `:else` or `:else if <logical>`: closes the current clause and opens the next.
pub open spec fn else_declaration(toks: Seq<TokenModel>) -> Result<Seq<ContentModel>, ParseError> {
    if !tok_is(toks, 1, Token::Else) {
        Err(ParseError::ExpectedElse)
    } else if tok_is(toks, 2, Token::If) {
        match logical_expr(toks, 3) {
            Ok((c, _)) => Ok(
                seq![ContentModel::EndBlock, ContentModel::Block(BlockModel::ElseIf(c))],
            ),
            Err(e) => Err(e),
        }
    } else {
        Ok(seq![ContentModel::EndBlock, ContentModel::Block(BlockModel::Else)])
    }
}

/// `@keys <name>*` binds names to positions; `@base "<path>"` names the base template,
/// at most once per source.
pub open spec fn statement(toks: Seq<TokenModel>, base: Option<Seq<char>>) -> SegmentResult {
    if tok_is(toks, 1, Token::Keys) {
        match key_names(toks, 2) {
            Ok(names) => Ok((seq![ContentModel::Keys(names)], base)),
            Err(e) => Err(e),
        }
    } else if tok_is(toks, 1, Token::Base) {
        if base is Some {
            Err(ParseError::DuplicateBase)
        } else {
            match string_at(toks, 2) {
                Some(path) => Ok((seq![], Some(path))),
                None => Err(ParseError::BaseNotString),
            }
        }
    } else {
        Err(ParseError::ExpectedStatement)
    }
}

pub open spec fn with_base(r: Result<Seq<ContentModel>, ParseError>, base: Option<Seq<char>>) -> SegmentResult {
    match r {
        Ok(ns) => Ok((ns, base)),
        Err(e) => Err(e),
    }
}

/// The nodes of one template segment, by its first token: `#` opens a block, `:` closes
/// a clause and opens the next, `/` closes a block, `@` is a statement, anything else an
/// expression. Tokens after a complete expression are ignored.
pub open spec fn segment_content(toks: Seq<TokenModel>, base: Option<Seq<char>>) -> SegmentResult {
    if tok_is(toks, 0, Token::Hashtag) {
        with_base(block_declaration(toks), base)
    } else if tok_is(toks, 0, Token::Colon) {
        with_base(else_declaration(toks), base)
    } else if tok_is(toks, 0, Token::Slash) {
        Ok((seq![ContentModel::EndBlock], base))
    } else if tok_is(toks, 0, Token::At) {
        statement(toks, base)
    } else {
        match logical_expr(toks, 0) {
            Ok((e, _)) => Ok((seq![ContentModel::Expression(e)], base)),
            Err(e) => Err(e),
        }
    }
}

/// The flat tree of the first `n` segments.
pub open spec fn parse_prefix(docs: Seq<DocumentModel>, n: int) -> SegmentResult
    decreases n,
{
    if n <= 0 {
        Ok((seq![], None))
    } else {
        match parse_prefix(docs, n - 1) {
            Err(e) => Err(e),
            Ok((cs, b)) => match docs[n - 1] {
                DocumentModel::Markup(t) => Ok((cs.push(ContentModel::Markup(t)), b)),
                DocumentModel::Template(ts) => match segment_content(ts, b) {
                    Ok((more, b2)) => Ok((cs + more, b2)),
                    Err(e) => Err(e),
                },
            },
        }
    }
}

pub proof fn lemma_prefix_error(docs: Seq<DocumentModel>, k: int, n: int)
    requires
        0 <= k <= n,
        parse_prefix(docs, k) is Err,
    ensures
        parse_prefix(docs, n) == parse_prefix(docs, k),
    decreases n - k,
{
    if n > k {
        lemma_prefix_error(docs, k, n - 1);
    }
}

/// The flat tree of a document, with its base template.
pub open spec fn parse_document(docs: Seq<DocumentModel>) -> SegmentResult {
    parse_prefix(docs, docs.len() as int)
}

pub open spec fn path_model(p: Option<String>) -> Option<Seq<char>> {
    match p {
        Some(s) => Some(s@),
        None => None,
    }
}

pub open spec fn parse_result_model(r: Result<(Vec<Content>, Option<String>), ParseError>) -> SegmentResult {
    match r {
        Ok((cs, b)) => Ok((contents_model(cs@), path_model(b))),
        Err(e) => Err(e),
    }
}

/// Builds the flat tree, segment by segment.
pub struct Parser {
    ast: Vec<Content>,
    base: Option<String>,
}

fn ident_of(toks: &Vec<Token>, i: usize) -> (r: Option<String>)
    ensures
        path_model(r) == ident_at(tokens_model(toks@), i as int),
{
    if i < toks.len() {
        match &toks[i] {
            Token::Ident(name) => Some(name.clone()),
            _ => None,
        }
    } else {
        None
    }
}

impl Parser {
    pub closed spec fn tree(&self) -> Seq<ContentModel> {
        contents_model(self.ast@)
    }

    pub closed spec fn base_path(&self) -> Option<Seq<char>> {
        path_model(self.base)
    }

    pub fn new() -> (p: Parser)
        ensures
            p.tree() == Seq::<ContentModel>::empty(),
            p.base_path() is None,
    {
        let p = Parser { ast: Vec::new(), base: None };
        assert(contents_model(p.ast@) =~= seq![]);
        p
    }

    fn push(&mut self, c: Content)
        ensures
            final(self).tree() == old(self).tree().push(c@),
            final(self).base == old(self).base,
    {
        self.ast.push(c);
        assert(contents_model(self.ast@) =~= contents_model(old(self).ast@).push(c@));
    }

    fn parse_keys(toks: &Vec<Token>, i: usize) -> (r: Result<Vec<String>, ParseError>)
        requires
            i <= toks.len(),
        ensures
            match r {
                Ok(names) => key_names(tokens_model(toks@), i as int) == Ok::<
                    Seq<Seq<char>>,
                    ParseError,
                >(names_model(names@)),
                Err(e) => key_names(tokens_model(toks@), i as int) == Err::<
                    Seq<Seq<char>>,
                    ParseError,
                >(e),
            },
    {
        let ghost m = tokens_model(toks@);
        let mut names: Vec<String> = Vec::new();
        let mut k = i;
        while k < toks.len()
            invariant
                i <= k <= toks.len(),
                m == tokens_model(toks@),
                forall|q: int| i <= q < k ==> #[trigger] m[q] is Ident,
                names_model(names@) =~= Seq::new((k - i) as nat, |q: int| m[i + q]->Ident_0),
            decreases toks.len() - k,
        {
            assert(m[k as int] == toks@[k as int]@);
            let ghost before = names@;
            match &toks[k] {
                Token::Ident(name) => {
                    names.push(name.clone());
                    assert(names_model(names@) =~= names_model(before).push(m[k as int]->Ident_0));
                },
                _ => {
                    return Err(ParseError::ExpectedIdentifier);
                },
            }
            k = k + 1;
            assert(names_model(names@) =~= Seq::new((k - i) as nat, |q: int| m[i + q]->Ident_0));
        }
        Ok(names)
    }

    /// Opens an `if` or `for` block.
    fn parse_block_declaration(&mut self, toks: &Vec<Token>) -> (r: Result<(), ParseError>)
        ensures
            final(self).base == old(self).base,
            match block_declaration(tokens_model(toks@)) {
                Ok(more) => r is Ok && final(self).tree() == old(self).tree() + more,
                Err(e) => r == Err::<(), ParseError>(e),
            },
    {
        if is_at(toks, 1, Token::If) {
            let (c, _) = match parse_logical(toks, 2) {
                Ok(p) => p,
                Err(e) => return Err(e),
            };
            let ghost cm = c@;
            self.push(Content::Block(Block::If { condition: c }));
            assert(self.tree() =~= old(self).tree() + seq![ContentModel::Block(BlockModel::If(cm))]);
            Ok(())
        } else if is_at(toks, 1, Token::For) {
            let element = match ident_of(toks, 2) {
                Some(n) => n,
                None => return Err(ParseError::ExpectedIdentifier),
            };
            if !is_at(toks, 3, Token::In) {
                return Err(ParseError::ExpectedIn);
            }
            let iterable = match ident_of(toks, 4) {
                Some(n) => n,
                None => return Err(ParseError::ExpectedIdentifier),
            };
            let ghost b = BlockModel::For(element@, iterable@);
            self.push(Content::Block(Block::For { element, iterable }));
            assert(self.tree() =~= old(self).tree() + seq![ContentModel::Block(b)]);
            Ok(())
        } else {
            Err(ParseError::ExpectedBlock)
        }
    }

    /// Closes the current clause and opens an `else` or `else if` clause.
    fn parse_else_declaration(&mut self, toks: &Vec<Token>) -> (r: Result<(), ParseError>)
        ensures
            final(self).base == old(self).base,
            match else_declaration(tokens_model(toks@)) {
                Ok(more) => r is Ok && final(self).tree() == old(self).tree() + more,
                Err(e) => r == Err::<(), ParseError>(e),
            },
    {
        if !is_at(toks, 1, Token::Else) {
            return Err(ParseError::ExpectedElse);
        }
        if is_at(toks, 2, Token::If) {
            let (c, _) = match parse_logical(toks, 3) {
                Ok(p) => p,
                Err(e) => return Err(e),
            };
            let ghost cm = c@;
            self.push(Content::EndBlock);
            self.push(Content::Block(Block::ElseIf { condition: c }));
            assert(self.tree() =~= old(self).tree() + seq![
                ContentModel::EndBlock,
                ContentModel::Block(BlockModel::ElseIf(cm)),
            ]);
            Ok(())
        } else {
            self.push(Content::EndBlock);
            self.push(Content::Block(Block::Else));
            assert(self.tree() =~= old(self).tree() + seq![
                ContentModel::EndBlock,
                ContentModel::Block(BlockModel::Else),
            ]);
            Ok(())
        }
    }

    /// A `keys` or `base` statement.
    fn parse_statement(&mut self, toks: &Vec<Token>) -> (r: Result<(), ParseError>)
        ensures
            match statement(tokens_model(toks@), old(self).base_path()) {
                Ok((more, b)) => r is Ok && final(self).tree() == old(self).tree() + more
                    && final(self).base_path() == b,
                Err(e) => r == Err::<(), ParseError>(e),
            },
    {
        let ghost m = tokens_model(toks@);
        if is_at(toks, 1, Token::Keys) {
            let names = match Parser::parse_keys(toks, 2) {
                Ok(n) => n,
                Err(e) => return Err(e),
            };
            let ghost nm = names_model(names@);
            self.push(Content::Keys(names));
            assert(self.tree() =~= old(self).tree() + seq![ContentModel::Keys(nm)]);
            Ok(())
        } else if is_at(toks, 1, Token::Base) {
            if self.base.is_some() {
                return Err(ParseError::DuplicateBase);
            }
            if 2 < toks.len() {
                assert(m[2] == toks@[2]@);
                match &toks[2] {
                    Token::String(path) => {
                        self.base = Some(path.clone());
                        assert(self.tree() =~= old(self).tree() + seq![]);
                        return Ok(());
                    },
                    _ => {},
                }
            }
            Err(ParseError::BaseNotString)
        } else {
            Err(ParseError::ExpectedStatement)
        }
    }

    /// Parses one template segment into nodes, or records its base template.
    fn parse_template(&mut self, toks: &Vec<Token>) -> (r: Result<(), ParseError>)
        ensures
            match segment_content(tokens_model(toks@), old(self).base_path()) {
                Ok((more, b)) => r is Ok && final(self).tree() == old(self).tree() + more
                    && final(self).base_path() == b,
                Err(e) => r == Err::<(), ParseError>(e),
            },
    {
        if is_at(toks, 0, Token::Hashtag) {
            self.parse_block_declaration(toks)
        } else if is_at(toks, 0, Token::Colon) {
            self.parse_else_declaration(toks)
        } else if is_at(toks, 0, Token::Slash) {
            self.push(Content::EndBlock);
            assert(self.tree() =~= old(self).tree() + seq![ContentModel::EndBlock]);
            Ok(())
        } else if is_at(toks, 0, Token::At) {
            self.parse_statement(toks)
        } else {
            let (e, _) = match parse_logical(toks, 0) {
                Ok(p) => p,
                Err(e) => return Err(e),
            };
            let ghost em = e@;
            self.push(Content::Expression(e));
            assert(self.tree() =~= old(self).tree() + seq![ContentModel::Expression(em)]);
            Ok(())
        }
    }

    /// Parses the segments of a document into the flat tree and its base template.
    pub fn execute<'a>(self, content: Vec<DocumentKind<'a>>) -> (r: Result<
        (Vec<Content>, Option<String>),
        ParseError,
    >)
        requires
            self.tree() == Seq::<ContentModel>::empty(),
            self.base_path() is None,
        ensures
            parse_result_model(r) == parse_document(documents_model(content@)),
    {
        let ghost docs = documents_model(content@);
        let mut me = self;
        let mut n: usize = 0;
        while n < content.len()
            invariant
                n <= content.len(),
                docs == documents_model(content@),
                parse_prefix(docs, n as int) == Ok::<(Seq<ContentModel>, Option<Seq<char>>), ParseError>(
                    (me.tree(), me.base_path()),
                ),
            decreases content.len() - n,
        {
            assert(docs[n as int] == content@[n as int]@);
            match &content[n] {
                DocumentKind::Markup(text) => {
                    me.push(Content::Markup((*text).to_owned()));
                },
                DocumentKind::Template(tokens) => {
                    match me.parse_template(tokens) {
                        Ok(()) => {},
                        Err(e) => {
                            proof {
                                lemma_prefix_error(docs, n + 1, docs.len() as int);
                            }
                            return Err(e);
                        },
                    }
                },
            }
            n = n + 1;
        }
        assert(parse_prefix(docs, docs.len() as int) == parse_prefix(docs, n as int));
        Ok((me.ast, me.base))
    }
}


pub open spec fn number_token(n: crate::number::Number) -> TokenModel {
    TokenModel::Plain(Token::Number(n))
}

pub open spec fn number_leaf(n: crate::number::Number) -> ExprModel {
    ExprModel::Leaf(ValueModel::Number(n))
}

proof fn lemma_number_term(toks: Seq<TokenModel>, i: int, n: crate::number::Number)
    requires
        0 <= i < toks.len(),
        toks[i] == number_token(n),
        i + 1 < toks.len() ==> toks[i + 1] == TokenModel::Plain(Token::Minus),
    ensures
        term_expr(toks, i) == Ok::<(ExprModel, int), ParseError>((number_leaf(n), i + 1)),
{
    assert(factor_expr(toks, i) == Ok::<(ExprModel, int), ParseError>((number_leaf(n), i + 1)));
    assert(term_op(toks, i + 1) is None);
}

/// Operators of one level group to the right: `p - q - r` is `p - (q - r)`.
pub proof fn law_subtraction_groups_right(
    p: crate::number::Number,
    q: crate::number::Number,
    r: crate::number::Number,
)
    ensures
        ({
            let toks = seq![
                number_token(p),
                TokenModel::Plain(Token::Minus),
                number_token(q),
                TokenModel::Plain(Token::Minus),
                number_token(r),
            ];
            additive_expr(toks, 0) == Ok::<(ExprModel, int), ParseError>(
                (
                    binary(
                        BinaryOp::Subtract,
                        number_leaf(p),
                        binary(BinaryOp::Subtract, number_leaf(q), number_leaf(r)),
                    ),
                    5,
                ),
            )
        }),
{
    let toks = seq![
        number_token(p),
        TokenModel::Plain(Token::Minus),
        number_token(q),
        TokenModel::Plain(Token::Minus),
        number_token(r),
    ];
    lemma_number_term(toks, 4, r);
    lemma_number_term(toks, 2, q);
    lemma_number_term(toks, 0, p);
    assert(additive_op(toks, 5) is None);
    assert(additive_expr(toks, 4) == Ok::<(ExprModel, int), ParseError>((number_leaf(r), 5)));
    assert(additive_op(toks, 3) == Some(BinaryOp::Subtract));
    assert(additive_expr(toks, 2) == Ok::<(ExprModel, int), ParseError>(
        (binary(BinaryOp::Subtract, number_leaf(q), number_leaf(r)), 5),
    ));
    assert(additive_op(toks, 1) == Some(BinaryOp::Subtract));
}

} // verus!
