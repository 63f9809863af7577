//! Recursive-descent parser: consumes the token sequence and produces a
//! sequence of statement trees, allocating jump-label numbers eagerly while
//! parsing control-flow constructs and embedding them in the trees.
//!
//! Grammar, lowest to highest precedence:
//! `expression := term (('+'|'-'|'=='|'!='|'>'|'>='|'<'|'<='|'..') term)*`
//! (left-associative, one shared precedence level),
//! `term := factor (('*'|'/') factor)*`, and `factor` covers literals,
//! identifiers (with lookahead for `=`, `++`, `--`), parenthesized
//! expressions, unary `+`/`-`, and every keyword-led statement form.
//! Statements are parsed through the same `factor` entry point.
use vstd::prelude::*;
use crate::tokenize::Token;
use crate::tokenize::TokenV;
use crate::tokenize::tokens_view;

verus! {

/// A statement or expression tree.  Conditional and loop nodes carry the
/// jump-label numbers that the parser allocated for them.
#[derive(Debug, PartialEq, Eq)]
pub enum Tree {
    Number(usize),
    Ident(String),
    Empty,
    Str(String),
    BinOp(Box<Tree>, Token, Box<Tree>),
    CmpOp(Box<Tree>, Token, Box<Tree>),
    Inc(String),
    Dec(String),
    Exit(Box<Tree>),
    Let(String, Box<Tree>),
    Assign(String, Box<Tree>),
    SysCall(Vec<Tree>),
    If {
        expr: Box<Tree>,
        body: Vec<Tree>,
        last_case: usize,
        next_case: usize,
        els: Option<Vec<Tree>>,
        els_ifs: Vec<Tree>,
    },
    ElsIf {
        curr_case: usize,
        expr: Box<Tree>,
        body: Vec<Tree>,
        next_case: usize,
    },
    While {
        expr: Box<Tree>,
        start: usize,
        body: Vec<Tree>,
        end: usize,
    },
    For {
        var: String,
        expr: Box<Tree>,
        body: Vec<Tree>,
    },
}

/// The mathematical value of a tree: names are character sequences, bodies
/// are sequences of trees, and label numbers are unbounded integers.
pub enum TreeV {
    Number(usize),
    Ident(Seq<char>),
    Empty,
    Str(Seq<char>),
    BinOp(Box<TreeV>, TokenV, Box<TreeV>),
    CmpOp(Box<TreeV>, TokenV, Box<TreeV>),
    Inc(Seq<char>),
    Dec(Seq<char>),
    Exit(Box<TreeV>),
    Let(Seq<char>, Box<TreeV>),
    Assign(Seq<char>, Box<TreeV>),
    SysCall(Seq<TreeV>),
    If {
        expr: Box<TreeV>,
        body: Seq<TreeV>,
        last_case: int,
        next_case: int,
        els: Option<Seq<TreeV>>,
        els_ifs: Seq<TreeV>,
    },
    ElsIf {
        curr_case: int,
        expr: Box<TreeV>,
        body: Seq<TreeV>,
        next_case: int,
    },
    While {
        expr: Box<TreeV>,
        start: int,
        body: Seq<TreeV>,
        end: int,
    },
    For {
        var: Seq<char>,
        expr: Box<TreeV>,
        body: Seq<TreeV>,
    },
}

/// The mathematical value of a tree.
pub open spec fn tree_view(t: Tree) -> TreeV
    decreases t,
{
    match t {
        Tree::Number(n) => TreeV::Number(n),
        Tree::Ident(s) => TreeV::Ident(s@),
        Tree::Empty => TreeV::Empty,
        Tree::Str(s) => TreeV::Str(s@),
        Tree::BinOp(l, op, r) => TreeV::BinOp(
            Box::new(tree_view(*l)),
            op@,
            Box::new(tree_view(*r)),
        ),
        Tree::CmpOp(l, op, r) => TreeV::CmpOp(
            Box::new(tree_view(*l)),
            op@,
            Box::new(tree_view(*r)),
        ),
        Tree::Inc(s) => TreeV::Inc(s@),
        Tree::Dec(s) => TreeV::Dec(s@),
        Tree::Exit(e) => TreeV::Exit(Box::new(tree_view(*e))),
        Tree::Let(s, e) => TreeV::Let(s@, Box::new(tree_view(*e))),
        Tree::Assign(s, e) => TreeV::Assign(s@, Box::new(tree_view(*e))),
        Tree::SysCall(args) => TreeV::SysCall(seq_tree_view(args@)),
        Tree::If { expr, body, last_case, next_case, els, els_ifs } => TreeV::If {
            expr: Box::new(tree_view(*expr)),
            body: seq_tree_view(body@),
            last_case: last_case as int,
            next_case: next_case as int,
            els: match els {
                Some(b) => Some(seq_tree_view(b@)),
                None => None,
            },
            els_ifs: seq_tree_view(els_ifs@),
        },
        Tree::ElsIf { curr_case, expr, body, next_case } => TreeV::ElsIf {
            curr_case: curr_case as int,
            expr: Box::new(tree_view(*expr)),
            body: seq_tree_view(body@),
            next_case: next_case as int,
        },
        Tree::While { expr, start, body, end } => TreeV::While {
            expr: Box::new(tree_view(*expr)),
            start: start as int,
            body: seq_tree_view(body@),
            end: end as int,
        },
        Tree::For { var, expr, body } => TreeV::For {
            var: var@,
            expr: Box::new(tree_view(*expr)),
            body: seq_tree_view(body@),
        },
    }
}

/// The mathematical value of a tree sequence, element by element.
pub open spec fn seq_tree_view(ts: Seq<Tree>) -> Seq<TreeV>
    decreases ts,
{
    if ts.len() == 0 {
        Seq::empty()
    } else {
        seq![tree_view(ts[0])] + seq_tree_view(ts.drop_first())
    }
}

pub proof fn lemma_seq_tree_view_len(ts: Seq<Tree>)
    ensures
        seq_tree_view(ts).len() == ts.len(),
        forall|i: int| 0 <= i < ts.len() ==> seq_tree_view(ts)[i] == tree_view(ts[i]),
    decreases ts,
{
    if ts.len() > 0 {
        lemma_seq_tree_view_len(ts.drop_first());
    }
}

/// Why a parse failed.  The first failure aborts the whole parse.
#[derive(Clone, Copy, PartialEq, Eq, Structural, Debug)]
pub enum ParseError {
    /// Input ended where a factor was required.
    UnexpectedEnd,
    /// A token that cannot begin a factor.
    InvalidFactor,
    /// An `els` or `elsif` with no preceding `if`.
    DanglingElse,
    /// More than one `els` clause for one `if`.
    ExcessiveElse,
    ExpectedOpenParen,
    ExpectedCloseParen,
    ExpectedOpenBrace,
    ExpectedCloseBrace,
    /// `let` not followed by an identifier.
    ExpectedLetIdent,
    /// `let` identifier not followed by `=`.
    ExpectedLetEquals,
    /// `for` variable not followed by `->`.
    ExpectedForArrow,
    /// `for` not followed by a variable or a parenthesized condition.
    ExpectedForHeader,
    /// A sub-parse made no progress; never actually returned.
    Internal,
}

/// One more label, saturating at the largest machine word.
pub open spec fn sat_inc(c: int) -> int {
    if c < usize::MAX as int {
        c + 1
    } else {
        c
    }
}

/// The operators of the single shared `expression` precedence level.
pub open spec fn is_expr_op(t: TokenV) -> bool {
    ||| t is Plus
    ||| t is Minus
    ||| t is EquEqu
    ||| t is NotEqu
    ||| t is Greater
    ||| t is GreatEqu
    ||| t is Less
    ||| t is LessEqu
    ||| t is DDot
}

/// Combine two operands under an expression-level operator: `+` and `-`
/// build arithmetic nodes, the rest comparison nodes.
pub open spec fn combine_expr_op(l: TreeV, t: TokenV, r: TreeV) -> TreeV {
    match t {
        TokenV::Plus => TreeV::BinOp(Box::new(l), t, Box::new(r)),
        TokenV::Minus => TreeV::BinOp(Box::new(l), t, Box::new(r)),
        _ => TreeV::CmpOp(Box::new(l), t, Box::new(r)),
    }
}

/// Parse one expression: a term followed by any number of
/// expression-level operator / term pairs.
pub open spec fn spec_parse_expression(toks: Seq<TokenV>, pos: int, c: int) -> Result<
    (TreeV, int, int),
    ParseError,
>
    decreases toks.len() - pos, 2int,
{
    match spec_parse_term(toks, pos, c) {
        Ok((left, p1, c1)) => {
            if pos < p1 <= toks.len() {
                spec_parse_expr_rest(left, toks, p1, c1)
            } else {
                Err(ParseError::Internal)
            }
        },
        Err(e) => Err(e),
    }
}

/// The left-associative tail of an expression, folded onto `left`.
pub open spec fn spec_parse_expr_rest(left: TreeV, toks: Seq<TokenV>, pos: int, c: int) -> Result<
    (TreeV, int, int),
    ParseError,
>
    decreases toks.len() - pos, 0int,
{
    if pos < toks.len() && is_expr_op(toks[pos]) {
        match spec_parse_term(toks, pos + 1, c) {
            Ok((right, p2, c2)) => {
                if pos < p2 <= toks.len() {
                    spec_parse_expr_rest(combine_expr_op(left, toks[pos], right), toks, p2, c2)
                } else {
                    Err(ParseError::Internal)
                }
            },
            Err(e) => Err(e),
        }
    } else {
        Ok((left, pos, c))
    }
}

/// Parse one term: a factor followed by any number of `*`/`/` factor pairs.
pub open spec fn spec_parse_term(toks: Seq<TokenV>, pos: int, c: int) -> Result<
    (TreeV, int, int),
    ParseError,
>
    decreases toks.len() - pos, 1int,
{
    match spec_parse_factor(toks, pos, c) {
        Ok((left, p1, c1)) => {
            if pos < p1 <= toks.len() {
                spec_parse_term_rest(left, toks, p1, c1)
            } else {
                Err(ParseError::Internal)
            }
        },
        Err(e) => Err(e),
    }
}

/// The left-associative tail of a term, folded onto `left`.
pub open spec fn spec_parse_term_rest(left: TreeV, toks: Seq<TokenV>, pos: int, c: int) -> Result<
    (TreeV, int, int),
    ParseError,
>
    decreases toks.len() - pos, 0int,
{
    if pos < toks.len() && (toks[pos] is Multiply || toks[pos] is Divide) {
        match spec_parse_factor(toks, pos + 1, c) {
            Ok((right, p2, c2)) => {
                if pos < p2 <= toks.len() {
                    spec_parse_term_rest(
                        TreeV::BinOp(Box::new(left), toks[pos], Box::new(right)),
                        toks,
                        p2,
                        c2,
                    )
                } else {
                    Err(ParseError::Internal)
                }
            },
            Err(e) => Err(e),
        }
    } else {
        Ok((left, pos, c))
    }
}

/// Parse `( expression )`; both parentheses are required.
pub open spec fn spec_parse_paren_expr(toks: Seq<TokenV>, pos: int, c: int) -> Result<
    (TreeV, int, int),
    ParseError,
>
    decreases toks.len() - pos, 0int,
{
    if pos < toks.len() && toks[pos] is OpenParen {
        match spec_parse_expression(toks, pos + 1, c) {
            Ok((e, p1, c1)) => {
                if p1 < toks.len() && toks[p1] is CloseParen {
                    Ok((e, p1 + 1, c1))
                } else {
                    Err(ParseError::ExpectedCloseParen)
                }
            },
            Err(e) => Err(e),
        }
    } else {
        Err(ParseError::ExpectedOpenParen)
    }
}

/// Parse `{ stmt* }`; both braces are required.
pub open spec fn spec_parse_block(toks: Seq<TokenV>, pos: int, c: int) -> Result<
    (Seq<TreeV>, int, int),
    ParseError,
>
    decreases toks.len() - pos, 0int,
{
    if pos < toks.len() && toks[pos] is OpenCurly {
        spec_parse_block_items(toks, pos + 1, c)
    } else {
        Err(ParseError::ExpectedOpenBrace)
    }
}

/// The statements of a block, up to and including the closing brace.
pub open spec fn spec_parse_block_items(toks: Seq<TokenV>, pos: int, c: int) -> Result<
    (Seq<TreeV>, int, int),
    ParseError,
>
    decreases toks.len() - pos, 1int,
{
    if pos >= toks.len() {
        Err(ParseError::ExpectedCloseBrace)
    } else if toks[pos] is CloseCurly {
        Ok((Seq::empty(), pos + 1, c))
    } else {
        match spec_parse_factor(toks, pos, c) {
            Ok((t, p1, c1)) => {
                if pos < p1 <= toks.len() {
                    match spec_parse_block_items(toks, p1, c1) {
                        Ok((rest, p2, c2)) => Ok((seq![t] + rest, p2, c2)),
                        Err(e) => Err(e),
                    }
                } else {
                    Err(ParseError::Internal)
                }
            },
            Err(e) => Err(e),
        }
    }
}

/// The `elsif`/`els` chain after an `if` body.  Each `elsif` enters at the
/// label the preceding branch jumps to when false (the chain was entered
/// with that label as its count) and allocates one fresh label after its
/// body as its own false-target; an `els` allocates one fresh label after
/// its body, which becomes the chain's join label.  At most one `els` is
/// permitted.
pub open spec fn spec_parse_chain(toks: Seq<TokenV>, pos: int, c: int) -> Result<
    (Seq<TreeV>, Option<Seq<TreeV>>, int, int),
    ParseError,
>
    decreases toks.len() - pos, 0int,
{
    if pos < toks.len() && toks[pos] is Els {
        match spec_parse_block(toks, pos + 1, c) {
            Ok((b, p1, c1)) => {
                if p1 < toks.len() && toks[p1] is Els {
                    Err(ParseError::ExcessiveElse)
                } else {
                    Ok((Seq::empty(), Some(b), p1, sat_inc(c1)))
                }
            },
            Err(e) => Err(e),
        }
    } else if pos < toks.len() && toks[pos] is ElsIf {
        match spec_parse_paren_expr(toks, pos + 1, c) {
            Ok((cond, p1, c1)) => {
                if pos < p1 <= toks.len() {
                    match spec_parse_block(toks, p1, c1) {
                        Ok((b, p2, c2)) => {
                            if pos < p2 <= toks.len() {
                                let nc: int = sat_inc(c2);
                                match spec_parse_chain(toks, p2, nc) {
                                    Ok((rest, els, p3, c3)) => Ok(
                                        (
                                            seq![
                                                TreeV::ElsIf {
                                                    curr_case: c,
                                                    expr: Box::new(cond),
                                                    body: b,
                                                    next_case: nc,
                                                },
                                            ] + rest,
                                            els,
                                            p3,
                                            c3,
                                        ),
                                    ),
                                    Err(e) => Err(e),
                                }
                            } else {
                                Err(ParseError::Internal)
                            }
                        },
                        Err(e) => Err(e),
                    }
                } else {
                    Err(ParseError::Internal)
                }
            },
            Err(e) => Err(e),
        }
    } else {
        Ok((Seq::empty(), None, pos, c))
    }
}

/// The comma-separated argument list of a `syscall`, at least one argument.
pub open spec fn spec_parse_args(toks: Seq<TokenV>, pos: int, c: int) -> Result<
    (Seq<TreeV>, int, int),
    ParseError,
>
    decreases toks.len() - pos, 3int,
{
    match spec_parse_expression(toks, pos, c) {
        Ok((e, p1, c1)) => {
            if pos < p1 <= toks.len() {
                if p1 < toks.len() && toks[p1] is Comma {
                    match spec_parse_args(toks, p1 + 1, c1) {
                        Ok((rest, p2, c2)) => Ok((seq![e] + rest, p2, c2)),
                        Err(e2) => Err(e2),
                    }
                } else {
                    Ok((seq![e], p1, c1))
                }
            } else {
                Err(ParseError::Internal)
            }
        },
        Err(e) => Err(e),
    }
}

/// Parse one factor.  Besides literals, identifiers, parenthesized and
/// unary expressions, this covers every keyword-led statement form; label
/// allocation happens here.  An `if` allocates its false-target after its
/// body is parsed; a `while` (and the parenthesized `for` form, which
/// desugars to a `while`) allocates its body-start label before the
/// condition and its bottom-test label after the body.
pub open spec fn spec_parse_factor(toks: Seq<TokenV>, pos: int, c: int) -> Result<
    (TreeV, int, int),
    ParseError,
>
    decreases toks.len() - pos, 0int,
{
    if pos >= toks.len() {
        Err(ParseError::UnexpectedEnd)
    } else {
        match toks[pos] {
            TokenV::Number(n) => Ok((TreeV::Number(n), pos + 1, c)),
            TokenV::Ident(name) => {
                if pos + 1 < toks.len() && toks[pos + 1] is Equal {
                    match spec_parse_expression(toks, pos + 2, c) {
                        Ok((e, p1, c1)) => Ok((TreeV::Assign(name, Box::new(e)), p1, c1)),
                        Err(e) => Err(e),
                    }
                } else if pos + 1 < toks.len() && toks[pos + 1] is DPlue {
                    Ok((TreeV::Inc(name), pos + 2, c))
                } else if pos + 1 < toks.len() && toks[pos + 1] is DMinus {
                    Ok((TreeV::Dec(name), pos + 2, c))
                } else {
                    Ok((TreeV::Ident(name), pos + 1, c))
                }
            },
            TokenV::Str(s) => Ok((TreeV::Str(s), pos + 1, c)),
            TokenV::Plus => spec_parse_factor(toks, pos + 1, c),
            TokenV::Minus => match spec_parse_factor(toks, pos + 1, c) {
                Ok((f, p1, c1)) => Ok(
                    (
                        TreeV::BinOp(Box::new(TreeV::Number(0)), TokenV::Minus, Box::new(f)),
                        p1,
                        c1,
                    ),
                ),
                Err(e) => Err(e),
            },
            TokenV::OpenParen => {
                if pos + 1 < toks.len() && toks[pos + 1] is CloseParen {
                    Ok((TreeV::Empty, pos + 2, c))
                } else {
                    match spec_parse_expression(toks, pos + 1, c) {
                        Ok((e, p1, c1)) => {
                            if p1 < toks.len() && toks[p1] is CloseParen {
                                Ok((e, p1 + 1, c1))
                            } else {
                                Err(ParseError::ExpectedCloseParen)
                            }
                        },
                        Err(e) => Err(e),
                    }
                }
            },
            TokenV::Let => {
                if pos + 1 < toks.len() && toks[pos + 1] is Ident {
                    if pos + 2 < toks.len() && toks[pos + 2] is Equal {
                        match spec_parse_expression(toks, pos + 3, c) {
                            Ok((e, p1, c1)) => Ok(
                                (TreeV::Let(toks[pos + 1]->Ident_0, Box::new(e)), p1, c1),
                            ),
                            Err(e) => Err(e),
                        }
                    } else {
                        Err(ParseError::ExpectedLetEquals)
                    }
                } else {
                    Err(ParseError::ExpectedLetIdent)
                }
            },
            TokenV::If => {
                match spec_parse_paren_expr(toks, pos + 1, c) {
                    Ok((cond, p1, c1)) => {
                        if pos < p1 <= toks.len() {
                            match spec_parse_block(toks, p1, c1) {
                                Ok((body, p2, c2)) => {
                                    if pos < p2 <= toks.len() {
                                        let nc: int = sat_inc(c2);
                                        match spec_parse_chain(toks, p2, nc) {
                                            Ok((eifs, els, p3, c3)) => Ok(
                                                (
                                                    TreeV::If {
                                                        expr: Box::new(cond),
                                                        body: body,
                                                        last_case: c3,
                                                        next_case: nc,
                                                        els: els,
                                                        els_ifs: eifs,
                                                    },
                                                    p3,
                                                    c3,
                                                ),
                                            ),
                                            Err(e) => Err(e),
                                        }
                                    } else {
                                        Err(ParseError::Internal)
                                    }
                                },
                                Err(e) => Err(e),
                            }
                        } else {
                            Err(ParseError::Internal)
                        }
                    },
                    Err(e) => Err(e),
                }
            },
            TokenV::While => {
                let start: int = sat_inc(c);
                match spec_parse_paren_expr(toks, pos + 1, start) {
                    Ok((cond, p1, c1)) => {
                        if pos < p1 <= toks.len() {
                            match spec_parse_block(toks, p1, c1) {
                                Ok((body, p2, c2)) => Ok(
                                    (
                                        TreeV::While {
                                            expr: Box::new(cond),
                                            start: start,
                                            body: body,
                                            end: sat_inc(c2),
                                        },
                                        p2,
                                        sat_inc(c2),
                                    ),
                                ),
                                Err(e) => Err(e),
                            }
                        } else {
                            Err(ParseError::Internal)
                        }
                    },
                    Err(e) => Err(e),
                }
            },
            TokenV::For => {
                if pos + 1 >= toks.len() {
                    Err(ParseError::ExpectedForHeader)
                } else {
                    match toks[pos + 1] {
                        TokenV::Ident(v) => {
                            if pos + 2 < toks.len() && toks[pos + 2] is ThinArrow {
                                match spec_parse_expression(toks, pos + 3, c) {
                                    Ok((e, p1, c1)) => {
                                        if pos < p1 <= toks.len() {
                                            match spec_parse_block(toks, p1, c1) {
                                                Ok((b, p2, c2)) => Ok(
                                                    (
                                                        TreeV::For {
                                                            var: v,
                                                            expr: Box::new(e),
                                                            body: b,
                                                        },
                                                        p2,
                                                        c2,
                                                    ),
                                                ),
                                                Err(e2) => Err(e2),
                                            }
                                        } else {
                                            Err(ParseError::Internal)
                                        }
                                    },
                                    Err(e) => Err(e),
                                }
                            } else {
                                Err(ParseError::ExpectedForArrow)
                            }
                        },
                        TokenV::OpenParen => {
                            // `for (cond) { body }` desugars to a while loop,
                            // with the same two-label protocol
                            let start: int = sat_inc(c);
                            match spec_parse_paren_expr(toks, pos + 1, start) {
                                Ok((cond, p1, c1)) => {
                                    if pos < p1 <= toks.len() {
                                        match spec_parse_block(toks, p1, c1) {
                                            Ok((body, p2, c2)) => Ok(
                                                (
                                                    TreeV::While {
                                                        expr: Box::new(cond),
                                                        start: start,
                                                        body: body,
                                                        end: sat_inc(c2),
                                                    },
                                                    p2,
                                                    sat_inc(c2),
                                                ),
                                            ),
                                            Err(e) => Err(e),
                                        }
                                    } else {
                                        Err(ParseError::Internal)
                                    }
                                },
                                Err(e) => Err(e),
                            }
                        },
                        _ => Err(ParseError::ExpectedForHeader),
                    }
                }
            },
            TokenV::Exit => match spec_parse_factor(toks, pos + 1, c) {
                Ok((e, p1, c1)) => Ok((TreeV::Exit(Box::new(e)), p1, c1)),
                Err(e) => Err(e),
            },
            TokenV::SysCall => {
                if pos + 1 < toks.len() && toks[pos + 1] is OpenParen {
                    match spec_parse_args(toks, pos + 2, c) {
                        Ok((args, p1, c1)) => {
                            if p1 < toks.len() && toks[p1] is CloseParen {
                                Ok((TreeV::SysCall(args), p1 + 1, c1))
                            } else {
                                Err(ParseError::ExpectedCloseParen)
                            }
                        },
                        Err(e) => Err(e),
                    }
                } else {
                    Err(ParseError::ExpectedOpenParen)
                }
            },
            TokenV::Els => Err(ParseError::DanglingElse),
            TokenV::ElsIf => Err(ParseError::DanglingElse),
            _ => Err(ParseError::InvalidFactor),
        }
    }
}

/// The top-level statement list: expressions parsed until the tokens end.
pub open spec fn spec_parse_items(toks: Seq<TokenV>, pos: int, c: int) -> Result<
    (Seq<TreeV>, int, int),
    ParseError,
>
    decreases toks.len() - pos, 3int,
{
    if pos >= toks.len() {
        Ok((Seq::empty(), pos, c))
    } else {
        match spec_parse_expression(toks, pos, c) {
            Ok((t, p1, c1)) => {
                if pos < p1 <= toks.len() {
                    match spec_parse_items(toks, p1, c1) {
                        Ok((rest, p2, c2)) => Ok((seq![t] + rest, p2, c2)),
                        Err(e) => Err(e),
                    }
                } else {
                    Err(ParseError::Internal)
                }
            },
            Err(e) => Err(e),
        }
    }
}

/// Parse a whole program from its token sequence, the label counter
/// starting at zero.  Returns the statement trees and the final counter.
pub open spec fn spec_parse_program(toks: Seq<TokenV>) -> Result<(Seq<TreeV>, int), ParseError> {
    match spec_parse_items(toks, 0, 0) {
        Ok((ts, p, c)) => Ok((ts, c)),
        Err(e) => Err(e),
    }
}

/// Law: parsing is deterministic; two parses of the same token sequence
/// yield the same trees, with label numbers allocated in the same order
/// and with the same values, since each result equals
/// `spec_parse_program` of the input.
pub proof fn lemma_parse_deterministic(
    toks: Seq<TokenV>,
    r1: Result<(Seq<TreeV>, int), ParseError>,
    r2: Result<(Seq<TreeV>, int), ParseError>,
)
    requires
        r1 == spec_parse_program(toks),
        r2 == spec_parse_program(toks),
    ensures
        r1 == r2,
{
}

/// The mathematical value of an optional `els` body.
pub open spec fn opt_trees_view(o: Option<Vec<Tree>>) -> Option<Seq<TreeV>> {
    match o {
        Some(b) => Some(seq_tree_view(b@)),
        None => None,
    }
}

pub proof fn lemma_seq_tree_view_concat(a: Seq<Tree>, b: Seq<Tree>)
    ensures
        seq_tree_view(a + b) == seq_tree_view(a) + seq_tree_view(b),
{
    lemma_seq_tree_view_len(a + b);
    lemma_seq_tree_view_len(a);
    lemma_seq_tree_view_len(b);
    assert forall|i: int| 0 <= i < a.len() + b.len() implies seq_tree_view(a + b)[i] == (
    seq_tree_view(a) + seq_tree_view(b))[i] by {
        if i < a.len() {
            assert((a + b)[i] == a[i]);
        } else {
            assert((a + b)[i] == b[i - a.len()]);
        }
    }
    assert(seq_tree_view(a + b) =~= seq_tree_view(a) + seq_tree_view(b));
}

/// Copy one token; the copy has the same mathematical value.
pub(crate) fn clone_token(t: &Token) -> (r: Token)
    ensures
        r@ == t@,
{
    match t {
        Token::Number(n) => Token::Number(*n),
        Token::Str(s) => Token::Str(s.clone()),
        Token::Plus => Token::Plus,
        Token::DPlue => Token::DPlue,
        Token::Minus => Token::Minus,
        Token::DMinus => Token::DMinus,
        Token::Multiply => Token::Multiply,
        Token::Divide => Token::Divide,
        Token::Equal => Token::Equal,
        Token::EquEqu => Token::EquEqu,
        Token::ExMark => Token::ExMark,
        Token::NotEqu => Token::NotEqu,
        Token::Greater => Token::Greater,
        Token::Less => Token::Less,
        Token::GreatEqu => Token::GreatEqu,
        Token::LessEqu => Token::LessEqu,
        Token::OpenParen => Token::OpenParen,
        Token::CloseParen => Token::CloseParen,
        Token::OpenCurly => Token::OpenCurly,
        Token::CloseCurly => Token::CloseCurly,
        Token::Comma => Token::Comma,
        Token::Semi => Token::Semi,
        Token::Dot => Token::Dot,
        Token::DDot => Token::DDot,
        Token::ThinArrow => Token::ThinArrow,
        Token::Let => Token::Let,
        Token::Exit => Token::Exit,
        Token::Ident(s) => Token::Ident(s.clone()),
        Token::If => Token::If,
        Token::Els => Token::Els,
        Token::ElsIf => Token::ElsIf,
        Token::While => Token::While,
        Token::For => Token::For,
        Token::SysCall => Token::SysCall,
    }
}

/// Copy a token sequence, value for value.
fn clone_tokens(v: &Vec<Token>) -> (r: Vec<Token>)
    ensures
        tokens_view(r@) == tokens_view(v@),
{
    let mut r: Vec<Token> = Vec::new();
    let mut i: usize = 0;
    while i < v.len()
        invariant
            i <= v.len(),
            r@.len() == i,
            forall|k: int| 0 <= k < i ==> r@[k]@ == v@[k]@,
        decreases v.len() - i,
    {
        r.push(clone_token(&v[i]));
        i = i + 1;
    }
    assert(tokens_view(r@) =~= tokens_view(v@));
    r
}

fn is_expr_op_exec(t: &Token) -> (r: bool)
    ensures
        r == is_expr_op(t@),
{
    matches!(
        t,
        Token::Plus | Token::Minus | Token::EquEqu | Token::NotEqu | Token::Greater
            | Token::GreatEqu | Token::Less | Token::LessEqu | Token::DDot,
    )
}

fn combine_expr_op_exec(l: Tree, t: Token, r: Tree) -> (res: Tree)
    ensures
        tree_view(res) == combine_expr_op(tree_view(l), t@, tree_view(r)),
{
    if matches!(t, Token::Plus) || matches!(t, Token::Minus) {
        Tree::BinOp(Box::new(l), t, Box::new(r))
    } else {
        Tree::CmpOp(Box::new(l), t, Box::new(r))
    }
}

/// The parser.  Holds the token sequence and the label counter; the counter
/// is reset at the start of every `parse_tokens` call, so parsing the same
/// tokens twice yields the same labels.
pub struct Parser {
    tokens: Vec<Token>,
    lb_count: usize,
}

impl Parser {
    /// The mathematical value of the held token sequence.
    pub closed spec fn toks(&self) -> Seq<TokenV> {
        tokens_view(self.tokens@)
    }

    /// The current value of the label counter.
    pub closed spec fn label_count(&self) -> int {
        self.lb_count as int
    }

    pub fn new(tokens: &Vec<Token>) -> (p: Parser)
        ensures
            p.toks() == tokens_view(tokens@),
            p.label_count() == 0,
    {
        Parser { tokens: clone_tokens(tokens), lb_count: 0 }
    }

    /// Allocate one jump label by advancing the counter, saturating at the
    /// largest machine word.
    fn craete_lb(&mut self)
        ensures
            final(self).tokens == old(self).tokens,
            final(self).label_count() == sat_inc(old(self).label_count()),
    {
        if self.lb_count < usize::MAX {
            self.lb_count = self.lb_count + 1;
        }
    }

    /// Parse the whole token stream into a statement list, resetting the
    /// label counter first.
    pub fn parse_tokens(&mut self) -> (r: Result<Vec<Tree>, ParseError>)
        ensures
            final(self).toks() == old(self).toks(),
            match r {
                Ok(trees) => spec_parse_program(old(self).toks()) == Ok::<
                    (Seq<TreeV>, int),
                    ParseError,
                >((seq_tree_view(trees@), final(self).label_count())),
                Err(e) => spec_parse_program(old(self).toks()) == Err::<
                    (Seq<TreeV>, int),
                    ParseError,
                >(e),
            },
    {
        self.lb_count = 0;
        match self.parse_items(0) {
            Ok((trees, _p)) => Ok(trees),
            Err(e) => Err(e),
        }
    }

    /// Top-level statements, parsed until the tokens run out.
    fn parse_items(&mut self, pos: usize) -> (r: Result<(Vec<Tree>, usize), ParseError>)
        requires
            pos <= old(self).tokens@.len(),
        ensures
            final(self).tokens == old(self).tokens,
            match r {
                Ok((trees, p2)) => spec_parse_items(
                    old(self).toks(),
                    pos as int,
                    old(self).label_count(),
                ) == Ok::<(Seq<TreeV>, int, int), ParseError>(
                    (seq_tree_view(trees@), p2 as int, final(self).label_count()),
                ) && pos <= p2 <= old(self).tokens@.len(),
                Err(e) => spec_parse_items(old(self).toks(), pos as int, old(self).label_count())
                    == Err::<(Seq<TreeV>, int, int), ParseError>(e),
            },
        decreases old(self).tokens@.len() - pos, 4int,
    {
        if pos >= self.tokens.len() {
            assert(seq_tree_view(Seq::<Tree>::empty()) =~= Seq::<TreeV>::empty());
            return Ok((Vec::new(), pos));
        }
        let (t, p1) = match self.parse_expression(pos) {
            Ok(v) => v,
            Err(e) => {
                return Err(e);
            },
        };
        match self.parse_items(p1) {
            Ok((rest, p2)) => {
                let mut out: Vec<Tree> = Vec::new();
                out.push(t);
                let ghost firstv = out@;
                let mut rest = rest;
                let ghost restv = rest@;
                out.append(&mut rest);
                proof {
                    assert(firstv =~= seq![t]);
                    lemma_seq_tree_view_concat(firstv, restv);
                    lemma_seq_tree_view_len(firstv);
                    assert(seq_tree_view(firstv) =~= seq![tree_view(t)]);
                    assert(out@ == firstv + restv);
                }
                Ok((out, p2))
            },
            Err(e) => Err(e),
        }
    }

    /// Parse one expression: a term and its operator tail.
    fn parse_expression(&mut self, pos: usize) -> (r: Result<(Tree, usize), ParseError>)
        requires
            pos <= old(self).tokens@.len(),
        ensures
            final(self).tokens == old(self).tokens,
            match r {
                Ok((t, p2)) => spec_parse_expression(
                    old(self).toks(),
                    pos as int,
                    old(self).label_count(),
                ) == Ok::<(TreeV, int, int), ParseError>(
                    (tree_view(t), p2 as int, final(self).label_count()),
                ) && pos < p2 <= old(self).tokens@.len(),
                Err(e) => spec_parse_expression(
                    old(self).toks(),
                    pos as int,
                    old(self).label_count(),
                ) == Err::<(TreeV, int, int), ParseError>(e),
            },
        decreases old(self).tokens@.len() - pos, 3int,
    {
        let (left, p1) = match self.parse_term(pos) {
            Ok(v) => v,
            Err(e) => {
                return Err(e);
            },
        };
        self.parse_expr_rest(left, p1)
    }

    /// The left-associative operator tail of an expression.
    fn parse_expr_rest(&mut self, left: Tree, pos: usize) -> (r: Result<
        (Tree, usize),
        ParseError,
    >)
        requires
            pos <= old(self).tokens@.len(),
        ensures
            final(self).tokens == old(self).tokens,
            match r {
                Ok((t, p2)) => spec_parse_expr_rest(
                    tree_view(left),
                    old(self).toks(),
                    pos as int,
                    old(self).label_count(),
                ) == Ok::<(TreeV, int, int), ParseError>(
                    (tree_view(t), p2 as int, final(self).label_count()),
                ) && pos <= p2 <= old(self).tokens@.len(),
                Err(e) => spec_parse_expr_rest(
                    tree_view(left),
                    old(self).toks(),
                    pos as int,
                    old(self).label_count(),
                ) == Err::<(TreeV, int, int), ParseError>(e),
            },
        decreases old(self).tokens@.len() - pos, 0int,
    {
        if pos < self.tokens.len() && is_expr_op_exec(&self.tokens[pos]) {
            let op = clone_token(&self.tokens[pos]);
            match self.parse_term(pos + 1) {
                Ok((right, p2)) => {
                    let combined = combine_expr_op_exec(left, op, right);
                    self.parse_expr_rest(combined, p2)
                },
                Err(e) => Err(e),
            }
        } else {
            Ok((left, pos))
        }
    }

    /// Parse one term: a factor and its `*`/`/` tail.
    fn parse_term(&mut self, pos: usize) -> (r: Result<(Tree, usize), ParseError>)
        requires
            pos <= old(self).tokens@.len(),
        ensures
            final(self).tokens == old(self).tokens,
            match r {
                Ok((t, p2)) => spec_parse_term(
                    old(self).toks(),
                    pos as int,
                    old(self).label_count(),
                ) == Ok::<(TreeV, int, int), ParseError>(
                    (tree_view(t), p2 as int, final(self).label_count()),
                ) && pos < p2 <= old(self).tokens@.len(),
                Err(e) => spec_parse_term(old(self).toks(), pos as int, old(self).label_count())
                    == Err::<(TreeV, int, int), ParseError>(e),
            },
        decreases old(self).tokens@.len() - pos, 2int,
    {
        let (left, p1) = match self.parse_factor(pos) {
            Ok(v) => v,
            Err(e) => {
                return Err(e);
            },
        };
        self.parse_term_rest(left, p1)
    }

    /// The left-associative `*`/`/` tail of a term.
    fn parse_term_rest(&mut self, left: Tree, pos: usize) -> (r: Result<
        (Tree, usize),
        ParseError,
    >)
        requires
            pos <= old(self).tokens@.len(),
        ensures
            final(self).tokens == old(self).tokens,
            match r {
                Ok((t, p2)) => spec_parse_term_rest(
                    tree_view(left),
                    old(self).toks(),
                    pos as int,
                    old(self).label_count(),
                ) == Ok::<(TreeV, int, int), ParseError>(
                    (tree_view(t), p2 as int, final(self).label_count()),
                ) && pos <= p2 <= old(self).tokens@.len(),
                Err(e) => spec_parse_term_rest(
                    tree_view(left),
                    old(self).toks(),
                    pos as int,
                    old(self).label_count(),
                ) == Err::<(TreeV, int, int), ParseError>(e),
            },
        decreases old(self).tokens@.len() - pos, 0int,
    {
        if pos < self.tokens.len() && (matches!(&self.tokens[pos], Token::Multiply) || matches!(
            &self.tokens[pos],
            Token::Divide,
        )) {
            let op = clone_token(&self.tokens[pos]);
            match self.parse_factor(pos + 1) {
                Ok((right, p2)) => {
                    let combined = Tree::BinOp(Box::new(left), op, Box::new(right));
                    self.parse_term_rest(combined, p2)
                },
                Err(e) => Err(e),
            }
        } else {
            Ok((left, pos))
        }
    }

    /// Parse `( expression )`, both parentheses required.
    fn parse_paren_expr(&mut self, pos: usize) -> (r: Result<(Tree, usize), ParseError>)
        requires
            pos <= old(self).tokens@.len(),
        ensures
            final(self).tokens == old(self).tokens,
            match r {
                Ok((t, p2)) => spec_parse_paren_expr(
                    old(self).toks(),
                    pos as int,
                    old(self).label_count(),
                ) == Ok::<(TreeV, int, int), ParseError>(
                    (tree_view(t), p2 as int, final(self).label_count()),
                ) && pos < p2 <= old(self).tokens@.len(),
                Err(e) => spec_parse_paren_expr(
                    old(self).toks(),
                    pos as int,
                    old(self).label_count(),
                ) == Err::<(TreeV, int, int), ParseError>(e),
            },
        decreases old(self).tokens@.len() - pos, 0int,
    {
        if pos < self.tokens.len() && matches!(&self.tokens[pos], Token::OpenParen) {
            match self.parse_expression(pos + 1) {
                Ok((e, p1)) => {
                    if p1 < self.tokens.len() && matches!(&self.tokens[p1], Token::CloseParen) {
                        Ok((e, p1 + 1))
                    } else {
                        Err(ParseError::ExpectedCloseParen)
                    }
                },
                Err(e) => Err(e),
            }
        } else {
            Err(ParseError::ExpectedOpenParen)
        }
    }

    /// Parse `{ stmt* }`, both braces required.
    fn parse_block(&mut self, pos: usize) -> (r: Result<(Vec<Tree>, usize), ParseError>)
        requires
            pos <= old(self).tokens@.len(),
        ensures
            final(self).tokens == old(self).tokens,
            match r {
                Ok((b, p2)) => spec_parse_block(
                    old(self).toks(),
                    pos as int,
                    old(self).label_count(),
                ) == Ok::<(Seq<TreeV>, int, int), ParseError>(
                    (seq_tree_view(b@), p2 as int, final(self).label_count()),
                ) && pos < p2 <= old(self).tokens@.len(),
                Err(e) => spec_parse_block(old(self).toks(), pos as int, old(self).label_count())
                    == Err::<(Seq<TreeV>, int, int), ParseError>(e),
            },
        decreases old(self).tokens@.len() - pos, 0int,
    {
        if pos < self.tokens.len() && matches!(&self.tokens[pos], Token::OpenCurly) {
            self.parse_block_items(pos + 1)
        } else {
            Err(ParseError::ExpectedOpenBrace)
        }
    }

    /// The statements of a block up to and including the closing brace.
    fn parse_block_items(&mut self, pos: usize) -> (r: Result<(Vec<Tree>, usize), ParseError>)
        requires
            pos <= old(self).tokens@.len(),
        ensures
            final(self).tokens == old(self).tokens,
            match r {
                Ok((b, p2)) => spec_parse_block_items(
                    old(self).toks(),
                    pos as int,
                    old(self).label_count(),
                ) == Ok::<(Seq<TreeV>, int, int), ParseError>(
                    (seq_tree_view(b@), p2 as int, final(self).label_count()),
                ) && pos < p2 <= old(self).tokens@.len(),
                Err(e) => spec_parse_block_items(
                    old(self).toks(),
                    pos as int,
                    old(self).label_count(),
                ) == Err::<(Seq<TreeV>, int, int), ParseError>(e),
            },
        decreases old(self).tokens@.len() - pos, 2int,
    {
        if pos >= self.tokens.len() {
            return Err(ParseError::ExpectedCloseBrace);
        }
        if matches!(&self.tokens[pos], Token::CloseCurly) {
            assert(seq_tree_view(Seq::<Tree>::empty()) =~= Seq::<TreeV>::empty());
            return Ok((Vec::new(), pos + 1));
        }
        let (t, p1) = match self.parse_factor(pos) {
            Ok(v) => v,
            Err(e) => {
                return Err(e);
            },
        };
        match self.parse_block_items(p1) {
            Ok((rest, p2)) => {
                let mut out: Vec<Tree> = Vec::new();
                out.push(t);
                let ghost firstv = out@;
                let mut rest = rest;
                let ghost restv = rest@;
                out.append(&mut rest);
                proof {
                    assert(firstv =~= seq![t]);
                    lemma_seq_tree_view_concat(firstv, restv);
                    lemma_seq_tree_view_len(firstv);
                    assert(seq_tree_view(firstv) =~= seq![tree_view(t)]);
                    assert(out@ == firstv + restv);
                }
                Ok((out, p2))
            },
            Err(e) => Err(e),
        }
    }

    /// The `elsif`/`els` chain after an `if` body; see `spec_parse_chain`
    /// for the label protocol.
    fn next_case(&mut self, pos: usize) -> (r: Result<
        ((Vec<Tree>, Option<Vec<Tree>>), usize),
        ParseError,
    >)
        requires
            pos <= old(self).tokens@.len(),
        ensures
            final(self).tokens == old(self).tokens,
            match r {
                Ok(((eifs, els), p2)) => spec_parse_chain(
                    old(self).toks(),
                    pos as int,
                    old(self).label_count(),
                ) == Ok::<(Seq<TreeV>, Option<Seq<TreeV>>, int, int), ParseError>(
                    (seq_tree_view(eifs@), opt_trees_view(els), p2 as int,
                    final(self).label_count()),
                ) && pos <= p2 <= old(self).tokens@.len(),
                Err(e) => spec_parse_chain(old(self).toks(), pos as int, old(self).label_count())
                    == Err::<(Seq<TreeV>, Option<Seq<TreeV>>, int, int), ParseError>(e),
            },
        decreases old(self).tokens@.len() - pos, 0int,
    {
        if pos < self.tokens.len() && matches!(&self.tokens[pos], Token::Els) {
            let (b, p1) = match self.parse_block(pos + 1) {
                Ok(v) => v,
                Err(e) => {
                    return Err(e);
                },
            };
            if p1 < self.tokens.len() && matches!(&self.tokens[p1], Token::Els) {
                return Err(ParseError::ExcessiveElse);
            }
            self.craete_lb();
            assert(seq_tree_view(Seq::<Tree>::empty()) =~= Seq::<TreeV>::empty());
            Ok(((Vec::new(), Some(b)), p1))
        } else if pos < self.tokens.len() && matches!(&self.tokens[pos], Token::ElsIf) {
            let curr_case: usize = self.lb_count;
            let (cond, p1) = match self.parse_paren_expr(pos + 1) {
                Ok(v) => v,
                Err(e) => {
                    return Err(e);
                },
            };
            let (b, p2) = match self.parse_block(p1) {
                Ok(v) => v,
                Err(e) => {
                    return Err(e);
                },
            };
            self.craete_lb();
            let nc: usize = self.lb_count;
            match self.next_case(p2) {
                Ok(((rest, els), p3)) => {
                    let eif = Tree::ElsIf {
                        curr_case,
                        expr: Box::new(cond),
                        body: b,
                        next_case: nc,
                    };
                    let mut eifs: Vec<Tree> = Vec::new();
                    eifs.push(eif);
                    let ghost firstv = eifs@;
                    let mut rest = rest;
                    let ghost restv = rest@;
                    eifs.append(&mut rest);
                    proof {
                        assert(firstv =~= seq![eif]);
                        lemma_seq_tree_view_concat(firstv, restv);
                        lemma_seq_tree_view_len(firstv);
                        assert(seq_tree_view(firstv) =~= seq![tree_view(eif)]);
                        assert(eifs@ == firstv + restv);
                    }
                    Ok(((eifs, els), p3))
                },
                Err(e) => Err(e),
            }
        } else {
            assert(seq_tree_view(Seq::<Tree>::empty()) =~= Seq::<TreeV>::empty());
            Ok(((Vec::new(), None), pos))
        }
    }

    /// The comma-separated argument list of a `syscall`.
    fn parse_args(&mut self, pos: usize) -> (r: Result<(Vec<Tree>, usize), ParseError>)
        requires
            pos <= old(self).tokens@.len(),
        ensures
            final(self).tokens == old(self).tokens,
            match r {
                Ok((args, p2)) => spec_parse_args(
                    old(self).toks(),
                    pos as int,
                    old(self).label_count(),
                ) == Ok::<(Seq<TreeV>, int, int), ParseError>(
                    (seq_tree_view(args@), p2 as int, final(self).label_count()),
                ) && pos < p2 <= old(self).tokens@.len(),
                Err(e) => spec_parse_args(old(self).toks(), pos as int, old(self).label_count())
                    == Err::<(Seq<TreeV>, int, int), ParseError>(e),
            },
        decreases old(self).tokens@.len() - pos, 4int,
    {
        let (e, p1) = match self.parse_expression(pos) {
            Ok(v) => v,
            Err(err) => {
                return Err(err);
            },
        };
        if p1 < self.tokens.len() && matches!(&self.tokens[p1], Token::Comma) {
            match self.parse_args(p1 + 1) {
                Ok((rest, p2)) => {
                    let mut args: Vec<Tree> = Vec::new();
                    args.push(e);
                    let ghost firstv = args@;
                    let mut rest = rest;
                    let ghost restv = rest@;
                    args.append(&mut rest);
                    proof {
                        assert(firstv =~= seq![e]);
                        lemma_seq_tree_view_concat(firstv, restv);
                        lemma_seq_tree_view_len(firstv);
                        assert(seq_tree_view(firstv) =~= seq![tree_view(e)]);
                        assert(args@ == firstv + restv);
                    }
                    Ok((args, p2))
                },
                Err(err) => Err(err),
            }
        } else {
            let mut args: Vec<Tree> = Vec::new();
            args.push(e);
            proof {
                lemma_seq_tree_view_len(args@);
                assert(seq_tree_view(args@) =~= seq![tree_view(e)]);
            }
            Ok((args, p1))
        }
    }

    /// Parse one factor; see `spec_parse_factor` for the full shape.
    fn parse_factor(&mut self, pos: usize) -> (r: Result<(Tree, usize), ParseError>)
        requires
            pos <= old(self).tokens@.len(),
        ensures
            final(self).tokens == old(self).tokens,
            match r {
                Ok((t, p2)) => spec_parse_factor(
                    old(self).toks(),
                    pos as int,
                    old(self).label_count(),
                ) == Ok::<(TreeV, int, int), ParseError>(
                    (tree_view(t), p2 as int, final(self).label_count()),
                ) && pos < p2 <= old(self).tokens@.len(),
                Err(e) => spec_parse_factor(old(self).toks(), pos as int, old(self).label_count())
                    == Err::<(TreeV, int, int), ParseError>(e),
            },
        decreases old(self).tokens@.len() - pos, 1int,
    {
        let n = self.tokens.len();
        if pos >= n {
            return Err(ParseError::UnexpectedEnd);
        }
        let tok = clone_token(&self.tokens[pos]);
        match tok {
            Token::Number(num) => Ok((Tree::Number(num), pos + 1)),
            Token::Ident(name) => self.factor_ident(pos, name),
            Token::Str(s) => Ok((Tree::Str(s), pos + 1)),
            Token::Plus => self.parse_factor(pos + 1),
            Token::Minus => match self.parse_factor(pos + 1) {
                Ok((f, p1)) => {
                    proof {
                        assert(tree_view(Tree::Number(0)) == TreeV::Number(0));
                    }
                    Ok(
                        (
                            Tree::BinOp(Box::new(Tree::Number(0)), Token::Minus, Box::new(f)),
                            p1,
                        ),
                    )
                },
                Err(e) => Err(e),
            },
            Token::OpenParen => self.factor_paren(pos),
            Token::Let => self.factor_let(pos),
            Token::If => self.factor_if(pos),
            Token::While => self.factor_while(pos),
            Token::For => self.factor_for(pos),
            Token::Exit => match self.parse_factor(pos + 1) {
                Ok((e, p1)) => Ok((Tree::Exit(Box::new(e)), p1)),
                Err(e) => Err(e),
            },
            Token::SysCall => self.factor_syscall(pos),
            Token::Els => Err(ParseError::DanglingElse),
            Token::ElsIf => Err(ParseError::DanglingElse),
            _ => Err(ParseError::InvalidFactor),
        }
    }

    /// An identifier factor: a reference, or with lookahead an
    /// assignment, increment or decrement.
    fn factor_ident(&mut self, pos: usize, name: String) -> (r: Result<(Tree, usize), ParseError>)
        requires
            pos < old(self).tokens@.len(),
            old(self).toks()[pos as int] == TokenV::Ident(name@),
        ensures
            final(self).tokens == old(self).tokens,
            match r {
                Ok((t, p2)) => spec_parse_factor(
                    old(self).toks(),
                    pos as int,
                    old(self).label_count(),
                ) == Ok::<(TreeV, int, int), ParseError>(
                    (tree_view(t), p2 as int, final(self).label_count()),
                ) && pos < p2 <= old(self).tokens@.len(),
                Err(e) => spec_parse_factor(old(self).toks(), pos as int, old(self).label_count())
                    == Err::<(TreeV, int, int), ParseError>(e),
            },
        decreases old(self).tokens@.len() - pos, 0int,
    {
        let n = self.tokens.len();
        if pos + 1 < n && matches!(&self.tokens[pos + 1], Token::Equal) {
            match self.parse_expression(pos + 2) {
                Ok((e, p1)) => Ok((Tree::Assign(name, Box::new(e)), p1)),
                Err(e) => Err(e),
            }
        } else if pos + 1 < n && matches!(&self.tokens[pos + 1], Token::DPlue) {
            Ok((Tree::Inc(name), pos + 2))
        } else if pos + 1 < n && matches!(&self.tokens[pos + 1], Token::DMinus) {
            Ok((Tree::Dec(name), pos + 2))
        } else {
            Ok((Tree::Ident(name), pos + 1))
        }
    }

    /// A parenthesized factor: the empty expression `()` or a grouped one.
    fn factor_paren(&mut self, pos: usize) -> (r: Result<(Tree, usize), ParseError>)
        requires
            pos < old(self).tokens@.len(),
            old(self).toks()[pos as int] is OpenParen,
        ensures
            final(self).tokens == old(self).tokens,
            match r {
                Ok((t, p2)) => spec_parse_factor(
                    old(self).toks(),
                    pos as int,
                    old(self).label_count(),
                ) == Ok::<(TreeV, int, int), ParseError>(
                    (tree_view(t), p2 as int, final(self).label_count()),
                ) && pos < p2 <= old(self).tokens@.len(),
                Err(e) => spec_parse_factor(old(self).toks(), pos as int, old(self).label_count())
                    == Err::<(TreeV, int, int), ParseError>(e),
            },
        decreases old(self).tokens@.len() - pos, 0int,
    {
        let n = self.tokens.len();
        if pos + 1 < n && matches!(&self.tokens[pos + 1], Token::CloseParen) {
            Ok((Tree::Empty, pos + 2))
        } else {
            match self.parse_expression(pos + 1) {
                Ok((e, p1)) => {
                    if p1 < n && matches!(&self.tokens[p1], Token::CloseParen) {
                        Ok((e, p1 + 1))
                    } else {
                        Err(ParseError::ExpectedCloseParen)
                    }
                },
                Err(e) => Err(e),
            }
        }
    }

    /// A `let` declaration.
    fn factor_let(&mut self, pos: usize) -> (r: Result<(Tree, usize), ParseError>)
        requires
            pos < old(self).tokens@.len(),
            old(self).toks()[pos as int] is Let,
        ensures
            final(self).tokens == old(self).tokens,
            match r {
                Ok((t, p2)) => spec_parse_factor(
                    old(self).toks(),
                    pos as int,
                    old(self).label_count(),
                ) == Ok::<(TreeV, int, int), ParseError>(
                    (tree_view(t), p2 as int, final(self).label_count()),
                ) && pos < p2 <= old(self).tokens@.len(),
                Err(e) => spec_parse_factor(old(self).toks(), pos as int, old(self).label_count())
                    == Err::<(TreeV, int, int), ParseError>(e),
            },
        decreases old(self).tokens@.len() - pos, 0int,
    {
        let n = self.tokens.len();
        if pos + 1 < n {
            let tok2 = clone_token(&self.tokens[pos + 1]);
            match tok2 {
                Token::Ident(v) => {
                    if pos + 2 < n && matches!(&self.tokens[pos + 2], Token::Equal) {
                        match self.parse_expression(pos + 3) {
                            Ok((e, p1)) => Ok((Tree::Let(v, Box::new(e)), p1)),
                            Err(e) => Err(e),
                        }
                    } else {
                        Err(ParseError::ExpectedLetEquals)
                    }
                },
                _ => Err(ParseError::ExpectedLetIdent),
            }
        } else {
            Err(ParseError::ExpectedLetIdent)
        }
    }

    /// An `if` with its `elsif`/`els` chain; the false-target label is
    /// allocated after the body, the chain supplies the join label.
    fn factor_if(&mut self, pos: usize) -> (r: Result<(Tree, usize), ParseError>)
        requires
            pos < old(self).tokens@.len(),
            old(self).toks()[pos as int] is If,
        ensures
            final(self).tokens == old(self).tokens,
            match r {
                Ok((t, p2)) => spec_parse_factor(
                    old(self).toks(),
                    pos as int,
                    old(self).label_count(),
                ) == Ok::<(TreeV, int, int), ParseError>(
                    (tree_view(t), p2 as int, final(self).label_count()),
                ) && pos < p2 <= old(self).tokens@.len(),
                Err(e) => spec_parse_factor(old(self).toks(), pos as int, old(self).label_count())
                    == Err::<(TreeV, int, int), ParseError>(e),
            },
        decreases old(self).tokens@.len() - pos, 0int,
    {
        let n = self.tokens.len();
        let (cond, p1) = match self.parse_paren_expr(pos + 1) {
            Ok(v) => v,
            Err(e) => {
                return Err(e);
            },
        };
        let (body, p2) = match self.parse_block(p1) {
            Ok(v) => v,
            Err(e) => {
                return Err(e);
            },
        };
        self.craete_lb();
        let nc: usize = self.lb_count;
        let (pair, p3) = match self.next_case(p2) {
            Ok(v) => v,
            Err(e) => {
                return Err(e);
            },
        };
        let (els_ifs, els) = pair;
        let last_case: usize = self.lb_count;
        Ok(
            (
                Tree::If { expr: Box::new(cond), body, last_case, next_case: nc, els, els_ifs },
                p3,
            ),
        )
    }

    /// A `while` loop: the body-start label is allocated before the
    /// condition, the bottom-test label after the body.
    fn factor_while(&mut self, pos: usize) -> (r: Result<(Tree, usize), ParseError>)
        requires
            pos < old(self).tokens@.len(),
            old(self).toks()[pos as int] is While,
        ensures
            final(self).tokens == old(self).tokens,
            match r {
                Ok((t, p2)) => spec_parse_factor(
                    old(self).toks(),
                    pos as int,
                    old(self).label_count(),
                ) == Ok::<(TreeV, int, int), ParseError>(
                    (tree_view(t), p2 as int, final(self).label_count()),
                ) && pos < p2 <= old(self).tokens@.len(),
                Err(e) => spec_parse_factor(old(self).toks(), pos as int, old(self).label_count())
                    == Err::<(TreeV, int, int), ParseError>(e),
            },
        decreases old(self).tokens@.len() - pos, 0int,
    {
        let n = self.tokens.len();
        self.craete_lb();
        let start: usize = self.lb_count;
        let (cond, p1) = match self.parse_paren_expr(pos + 1) {
            Ok(v) => v,
            Err(e) => {
                return Err(e);
            },
        };
        let (body, p2) = match self.parse_block(p1) {
            Ok(v) => v,
            Err(e) => {
                return Err(e);
            },
        };
        self.craete_lb();
        let end: usize = self.lb_count;
        Ok((Tree::While { expr: Box::new(cond), start, body, end }, p2))
    }

    /// A `for`: either the arrow form or the parenthesized form, which
    /// desugars to a while loop.
    #[verifier::rlimit(60)]
    fn factor_for(&mut self, pos: usize) -> (r: Result<(Tree, usize), ParseError>)
        requires
            pos < old(self).tokens@.len(),
            old(self).toks()[pos as int] is For,
        ensures
            final(self).tokens == old(self).tokens,
            match r {
                Ok((t, p2)) => spec_parse_factor(
                    old(self).toks(),
                    pos as int,
                    old(self).label_count(),
                ) == Ok::<(TreeV, int, int), ParseError>(
                    (tree_view(t), p2 as int, final(self).label_count()),
                ) && pos < p2 <= old(self).tokens@.len(),
                Err(e) => spec_parse_factor(old(self).toks(), pos as int, old(self).label_count())
                    == Err::<(TreeV, int, int), ParseError>(e),
            },
        decreases old(self).tokens@.len() - pos, 0int,
    {
        let n = self.tokens.len();
        if pos + 1 >= n {
            return Err(ParseError::ExpectedForHeader);
        }
        let tok2 = clone_token(&self.tokens[pos + 1]);
        match tok2 {
            Token::Ident(v) => {
                if pos + 2 < n && matches!(&self.tokens[pos + 2], Token::ThinArrow) {
                    let (e, p1) = match self.parse_expression(pos + 3) {
                        Ok(x) => x,
                        Err(e) => {
                            return Err(e);
                        },
                    };
                    let (b, p2) = match self.parse_block(p1) {
                        Ok(x) => x,
                        Err(e) => {
                            return Err(e);
                        },
                    };
                    Ok((Tree::For { var: v, expr: Box::new(e), body: b }, p2))
                } else {
                    Err(ParseError::ExpectedForArrow)
                }
            },
            Token::OpenParen => {
                self.craete_lb();
                let start: usize = self.lb_count;
                let (cond, p1) = match self.parse_paren_expr(pos + 1) {
                    Ok(v) => v,
                    Err(e) => {
                        return Err(e);
                    },
                };
                let (body, p2) = match self.parse_block(p1) {
                    Ok(v) => v,
                    Err(e) => {
                        return Err(e);
                    },
                };
                self.craete_lb();
                let end: usize = self.lb_count;
                Ok((Tree::While { expr: Box::new(cond), start, body, end }, p2))
            },
            _ => Err(ParseError::ExpectedForHeader),
        }
    }

    /// A raw `syscall` with its argument list.
    fn factor_syscall(&mut self, pos: usize) -> (r: Result<(Tree, usize), ParseError>)
        requires
            pos < old(self).tokens@.len(),
            old(self).toks()[pos as int] is SysCall,
        ensures
            final(self).tokens == old(self).tokens,
            match r {
                Ok((t, p2)) => spec_parse_factor(
                    old(self).toks(),
                    pos as int,
                    old(self).label_count(),
                ) == Ok::<(TreeV, int, int), ParseError>(
                    (tree_view(t), p2 as int, final(self).label_count()),
                ) && pos < p2 <= old(self).tokens@.len(),
                Err(e) => spec_parse_factor(old(self).toks(), pos as int, old(self).label_count())
                    == Err::<(TreeV, int, int), ParseError>(e),
            },
        decreases old(self).tokens@.len() - pos, 0int,
    {
        let n = self.tokens.len();
        if pos + 1 < n && matches!(&self.tokens[pos + 1], Token::OpenParen) {
            match self.parse_args(pos + 2) {
                Ok((args, p1)) => {
                    if p1 < self.tokens.len() && matches!(&self.tokens[p1], Token::CloseParen) {
                        Ok((Tree::SysCall(args), p1 + 1))
                    } else {
                        Err(ParseError::ExpectedCloseParen)
                    }
                },
                Err(e) => Err(e),
            }
        } else {
            Err(ParseError::ExpectedOpenParen)
        }
    }

}

} // verus!
