//! Syntax analysis: tokens to an expression tree.
//!
//! A three-level recursive-descent grammar; precedence and associativity are
//! encoded purely by its nesting, never by a later lookup:
//!
//! ```text
//! expr   := term (('+' | '-') term)*
//! term   := factor (('*' | '/') factor)*
//! factor := NUMBER | '(' expr ')' | '-' factor
//! ```
//!
//! The cursor into the token sequence is an explicit index; each routine
//! returns the node it built together with the position of the first token
//! it did not consume. The grammar's expectations are enforced fail-fast
//! with `UnexpectedToken`.

use vstd::prelude::*;

use crate::Error;
use crate::lexer::Token;

verus! {

/// A binary operator of the expression tree.
#[derive(Clone, Copy, Debug, PartialEq, Eq, Structural)]
pub enum BinOp {
    Add,
    Sub,
    Mul,
    Div,
}

/// A unary operator of the expression tree.
#[derive(Clone, Copy, Debug, PartialEq, Eq, Structural)]
pub enum UnOp {
    Minus,
}

/// A node of the expression tree. Each non-leaf node exclusively owns its
/// children, so the tree is strict: no sharing, no cycles. Precedence and
/// associativity are baked into its shape.
#[derive(Debug, PartialEq, Eq)]
pub enum Node {
    /// A number literal leaf.
    Number(i32),
    /// A binary application; `lhs` is the earlier operand.
    Binary { lhs: Box<Node>, op: BinOp, rhs: Box<Node> },
    /// A unary application.
    Unary { operand: Box<Node>, op: UnOp },
}

/// How many tokens lie at or after position `pos`: the termination measure
/// of the parsing routines.
pub open spec fn unread(toks: Seq<Token>, pos: int) -> int {
    if pos <= toks.len() {
        toks.len() - pos
    } else {
        0
    }
}

/// The parse of one `expr` production starting at `pos`: a `term`, then any
/// number of `+`/`-` steps, each left-folded into a `Binary` node (which
/// yields left-associativity). Returns the node and the first unconsumed
/// position.
pub open spec fn spec_parse_expr(toks: Seq<Token>, pos: int) -> Result<(Node, int), Error>
    decreases unread(toks, pos), 4int,
{
    match spec_parse_term(toks, pos) {
        Ok((first, p1)) => spec_parse_expr_rest(
            toks,
            first,
            if pos < p1 {
                p1
            } else {
                pos
            },
        ),
        Err(e) => Err(e),
    }
}

/// The `(('+' | '-') term)*` tail of an `expr`, left-folding onto `acc`.
pub open spec fn spec_parse_expr_rest(toks: Seq<Token>, acc: Node, pos: int) -> Result<
    (Node, int),
    Error,
>
    decreases unread(toks, pos), 3int,
{
    if 0 <= pos < toks.len() && (toks[pos] is Plus || toks[pos] is Minus) {
        let op = if toks[pos] is Plus {
            BinOp::Add
        } else {
            BinOp::Sub
        };
        match spec_parse_term(toks, pos + 1) {
            Ok((rhs, p2)) => spec_parse_expr_rest(
                toks,
                (Node::Binary { lhs: Box::new(acc), op: op, rhs: Box::new(rhs) }),
                if pos + 1 < p2 {
                    p2
                } else {
                    pos + 1
                },
            ),
            Err(e) => Err(e),
        }
    } else {
        Ok((acc, pos))
    }
}

/// The parse of one `term` production starting at `pos`: a `factor`, then
/// any number of `*`/`/` steps, left-folded.
pub open spec fn spec_parse_term(toks: Seq<Token>, pos: int) -> Result<(Node, int), Error>
    decreases unread(toks, pos), 2int,
{
    match spec_parse_factor(toks, pos) {
        Ok((first, p1)) => spec_parse_term_rest(
            toks,
            first,
            if pos < p1 {
                p1
            } else {
                pos
            },
        ),
        Err(e) => Err(e),
    }
}

/// The `(('*' | '/') factor)*` tail of a `term`, left-folding onto `acc`.
pub open spec fn spec_parse_term_rest(toks: Seq<Token>, acc: Node, pos: int) -> Result<
    (Node, int),
    Error,
>
    decreases unread(toks, pos), 1int,
{
    if 0 <= pos < toks.len() && (toks[pos] is Mul || toks[pos] is Div) {
        let op = if toks[pos] is Mul {
            BinOp::Mul
        } else {
            BinOp::Div
        };
        match spec_parse_factor(toks, pos + 1) {
            Ok((rhs, p2)) => spec_parse_term_rest(
                toks,
                (Node::Binary { lhs: Box::new(acc), op: op, rhs: Box::new(rhs) }),
                if pos + 1 < p2 {
                    p2
                } else {
                    pos + 1
                },
            ),
            Err(e) => Err(e),
        }
    } else {
        Ok((acc, pos))
    }
}

/// The parse of one `factor` production starting at `pos`: a number leaf, a
/// parenthesized `expr` (the opening `Paren` demands a closing `Paren` right
/// after the inner expression), or `-` applied to a further factor. An
/// operator in factor position, or no token at all, is `UnexpectedToken`.
pub open spec fn spec_parse_factor(toks: Seq<Token>, pos: int) -> Result<(Node, int), Error>
    decreases unread(toks, pos), 0int,
{
    if !(0 <= pos < toks.len()) {
        Err(Error::UnexpectedToken)
    } else {
        match toks[pos] {
            Token::Number(n) => Ok((Node::Number(n), pos + 1)),
            Token::Paren => (match spec_parse_expr(toks, pos + 1) {
                Ok((inner, p1)) => {
                    if 0 <= p1 < toks.len() && toks[p1] is Paren {
                        Ok((inner, p1 + 1))
                    } else {
                        Err(Error::UnexpectedToken)
                    }
                },
                Err(e) => Err(e),
            }),
            Token::Minus => (match spec_parse_factor(toks, pos + 1) {
                Ok((operand, p1)) => Ok(
                    ((Node::Unary { operand: Box::new(operand), op: UnOp::Minus }), p1),
                ),
                Err(e) => Err(e),
            }),
            _ => Err(Error::UnexpectedToken),
        }
    }
}

/// The parse of a whole token sequence: one `expr` that must consume every
/// token; anything left over (trailing garbage, an unmatched `)`) is
/// `UnexpectedToken`.
pub open spec fn spec_parse(toks: Seq<Token>) -> Result<Node, Error> {
    match spec_parse_expr(toks, 0) {
        Ok((node, p)) => {
            if p == toks.len() {
                Ok(node)
            } else {
                Err(Error::UnexpectedToken)
            }
        },
        Err(e) => Err(e),
    }
}

/// A failed `term` after an additive operator fails the whole `expr` tail
/// with the same error.
proof fn lemma_expr_rest_err(toks: Seq<Token>, acc: Node, pos: int, e: Error)
    requires
        0 <= pos < toks.len(),
        toks[pos] is Plus || toks[pos] is Minus,
        spec_parse_term(toks, pos + 1) == Err::<(Node, int), Error>(e),
    ensures
        spec_parse_expr_rest(toks, acc, pos) == Err::<(Node, int), Error>(e),
{
}

/// A failed `factor` after a multiplicative operator fails the whole `term`
/// tail with the same error.
proof fn lemma_term_rest_err(toks: Seq<Token>, acc: Node, pos: int, e: Error)
    requires
        0 <= pos < toks.len(),
        toks[pos] is Mul || toks[pos] is Div,
        spec_parse_factor(toks, pos + 1) == Err::<(Node, int), Error>(e),
    ensures
        spec_parse_term_rest(toks, acc, pos) == Err::<(Node, int), Error>(e),
{
}

/// A failed `factor` fails with `UnexpectedToken`.
proof fn lemma_factor_err_is_unexpected(toks: Seq<Token>, pos: int)
    ensures
        spec_parse_factor(toks, pos) is Err ==> spec_parse_factor(toks, pos) == Err::<
            (Node, int),
            Error,
        >(Error::UnexpectedToken),
    decreases unread(toks, pos), 0int,
{
    if 0 <= pos < toks.len() {
        match toks[pos] {
            Token::Paren => {
                lemma_expr_err_is_unexpected(toks, pos + 1);
            },
            Token::Minus => {
                lemma_factor_err_is_unexpected(toks, pos + 1);
            },
            _ => {},
        }
    }
}

/// A failed `expr` tail fails with `UnexpectedToken`, whatever it folds
/// onto.
proof fn lemma_expr_rest_err_is_unexpected(toks: Seq<Token>, pos: int)
    ensures
        forall|acc: Node|
            (#[trigger] spec_parse_expr_rest(toks, acc, pos)) is Err ==> spec_parse_expr_rest(
                toks,
                acc,
                pos,
            ) == Err::<(Node, int), Error>(Error::UnexpectedToken),
    decreases unread(toks, pos), 3int,
{
    if 0 <= pos < toks.len() && (toks[pos] is Plus || toks[pos] is Minus) {
        lemma_term_err_is_unexpected(toks, pos + 1);
        match spec_parse_term(toks, pos + 1) {
            Ok((rhs, p2)) => {
                let c = if pos + 1 < p2 {
                    p2
                } else {
                    pos + 1
                };
                lemma_expr_rest_err_is_unexpected(toks, c);
                let op = if toks[pos] is Plus {
                    BinOp::Add
                } else {
                    BinOp::Sub
                };
                assert forall|acc: Node| (#[trigger] spec_parse_expr_rest(toks, acc, pos)) is Err
                    implies spec_parse_expr_rest(toks, acc, pos) == Err::<(Node, int), Error>(
                    Error::UnexpectedToken,
                ) by {
                    let folded = Node::Binary { lhs: Box::new(acc), op: op, rhs: Box::new(rhs) };
                    assert(spec_parse_expr_rest(toks, acc, pos) == spec_parse_expr_rest(
                        toks,
                        folded,
                        c,
                    ));
                }
            },
            Err(_) => {},
        }
    }
}

/// A failed `term` tail fails with `UnexpectedToken`, whatever it folds
/// onto.
proof fn lemma_term_rest_err_is_unexpected(toks: Seq<Token>, pos: int)
    ensures
        forall|acc: Node|
            (#[trigger] spec_parse_term_rest(toks, acc, pos)) is Err ==> spec_parse_term_rest(
                toks,
                acc,
                pos,
            ) == Err::<(Node, int), Error>(Error::UnexpectedToken),
    decreases unread(toks, pos), 1int,
{
    if 0 <= pos < toks.len() && (toks[pos] is Mul || toks[pos] is Div) {
        lemma_factor_err_is_unexpected(toks, pos + 1);
        match spec_parse_factor(toks, pos + 1) {
            Ok((rhs, p2)) => {
                let c = if pos + 1 < p2 {
                    p2
                } else {
                    pos + 1
                };
                lemma_term_rest_err_is_unexpected(toks, c);
                let op = if toks[pos] is Mul {
                    BinOp::Mul
                } else {
                    BinOp::Div
                };
                assert forall|acc: Node| (#[trigger] spec_parse_term_rest(toks, acc, pos)) is Err
                    implies spec_parse_term_rest(toks, acc, pos) == Err::<(Node, int), Error>(
                    Error::UnexpectedToken,
                ) by {
                    let folded = Node::Binary { lhs: Box::new(acc), op: op, rhs: Box::new(rhs) };
                    assert(spec_parse_term_rest(toks, acc, pos) == spec_parse_term_rest(
                        toks,
                        folded,
                        c,
                    ));
                }
            },
            Err(_) => {},
        }
    }
}

/// A failed `term` fails with `UnexpectedToken`.
proof fn lemma_term_err_is_unexpected(toks: Seq<Token>, pos: int)
    ensures
        spec_parse_term(toks, pos) is Err ==> spec_parse_term(toks, pos) == Err::<
            (Node, int),
            Error,
        >(Error::UnexpectedToken),
    decreases unread(toks, pos), 2int,
{
    lemma_factor_err_is_unexpected(toks, pos);
    match spec_parse_factor(toks, pos) {
        Ok((first, p1)) => {
            let c = if pos < p1 {
                p1
            } else {
                pos
            };
            lemma_term_rest_err_is_unexpected(toks, c);
            assert(spec_parse_term(toks, pos) == spec_parse_term_rest(toks, first, c));
        },
        Err(_) => {},
    }
}

/// A failed `expr` fails with `UnexpectedToken`.
proof fn lemma_expr_err_is_unexpected(toks: Seq<Token>, pos: int)
    ensures
        spec_parse_expr(toks, pos) is Err ==> spec_parse_expr(toks, pos) == Err::<
            (Node, int),
            Error,
        >(Error::UnexpectedToken),
    decreases unread(toks, pos), 4int,
{
    lemma_term_err_is_unexpected(toks, pos);
    match spec_parse_term(toks, pos) {
        Ok((first, p1)) => {
            let c = if pos < p1 {
                p1
            } else {
                pos
            };
            lemma_expr_rest_err_is_unexpected(toks, c);
            assert(spec_parse_expr(toks, pos) == spec_parse_expr_rest(toks, first, c));
        },
        Err(_) => {},
    }
}

/// The parser's only error: whenever parsing a token sequence fails, it
/// fails with `UnexpectedToken`.
pub proof fn lemma_parse_err_is_unexpected(toks: Seq<Token>)
    ensures
        spec_parse(toks) is Err ==> spec_parse(toks) == Err::<Node, Error>(Error::UnexpectedToken),
{
    lemma_expr_err_is_unexpected(toks, 0);
}

/// Whether `t` is an additive operator token.
fn is_add_op(t: Token) -> (r: bool)
    ensures
        r == (t is Plus || t is Minus),
{
    match t {
        Token::Plus | Token::Minus => true,
        _ => false,
    }
}

/// Whether `t` is a multiplicative operator token.
fn is_mul_op(t: Token) -> (r: bool)
    ensures
        r == (t is Mul || t is Div),
{
    match t {
        Token::Mul | Token::Div => true,
        _ => false,
    }
}

/// Parses one `expr` starting at `pos`, returning the tree and the first
/// unconsumed position.
pub fn parse_expr(tokens: &Vec<Token>, pos: usize) -> (r: Result<(Node, usize), Error>)
    ensures
        (match r {
            Ok(np) => spec_parse_expr(tokens@, pos as int) == Ok::<(Node, int), Error>(
                (np.0, np.1 as int),
            ) && pos < np.1 <= tokens@.len(),
            Err(e) => spec_parse_expr(tokens@, pos as int) == Err::<(Node, int), Error>(e),
        }),
    decreases unread(tokens@, pos as int), 4int,
{
    let mut node: Node;
    let mut p: usize;
    match parse_term(tokens, pos) {
        Ok(np) => {
            node = np.0;
            p = np.1;
        },
        Err(e) => {
            return Err(e);
        },
    }
    while p < tokens.len() && is_add_op(tokens[p])
        invariant
            pos < p <= tokens@.len(),
            spec_parse_expr(tokens@, pos as int) == spec_parse_expr_rest(tokens@, node, p as int),
        decreases tokens@.len() - p,
    {
        let op: BinOp = if matches!(tokens[p], Token::Plus) {
            BinOp::Add
        } else {
            BinOp::Sub
        };
        match parse_term(tokens, p + 1) {
            Ok(np) => {
                node = Node::Binary { lhs: Box::new(node), op: op, rhs: Box::new(np.0) };
                p = np.1;
            },
            Err(e) => {
                proof {
                    lemma_expr_rest_err(tokens@, node, p as int, e);
                }
                return Err(e);
            },
        }
    }
    Ok((node, p))
}

/// Parses one `term` starting at `pos`, returning the tree and the first
/// unconsumed position.
pub fn parse_term(tokens: &Vec<Token>, pos: usize) -> (r: Result<(Node, usize), Error>)
    ensures
        (match r {
            Ok(np) => spec_parse_term(tokens@, pos as int) == Ok::<(Node, int), Error>(
                (np.0, np.1 as int),
            ) && pos < np.1 <= tokens@.len(),
            Err(e) => spec_parse_term(tokens@, pos as int) == Err::<(Node, int), Error>(e),
        }),
    decreases unread(tokens@, pos as int), 2int,
{
    let mut node: Node;
    let mut p: usize;
    match parse_factor(tokens, pos) {
        Ok(np) => {
            node = np.0;
            p = np.1;
        },
        Err(e) => {
            return Err(e);
        },
    }
    while p < tokens.len() && is_mul_op(tokens[p])
        invariant
            pos < p <= tokens@.len(),
            spec_parse_term(tokens@, pos as int) == spec_parse_term_rest(tokens@, node, p as int),
        decreases tokens@.len() - p,
    {
        let op: BinOp = if matches!(tokens[p], Token::Mul) {
            BinOp::Mul
        } else {
            BinOp::Div
        };
        match parse_factor(tokens, p + 1) {
            Ok(np) => {
                node = Node::Binary { lhs: Box::new(node), op: op, rhs: Box::new(np.0) };
                p = np.1;
            },
            Err(e) => {
                proof {
                    lemma_term_rest_err(tokens@, node, p as int, e);
                }
                return Err(e);
            },
        }
    }
    Ok((node, p))
}

/// Parses one `factor` starting at `pos`, returning the tree and the first
/// unconsumed position.
pub fn parse_factor(tokens: &Vec<Token>, pos: usize) -> (r: Result<(Node, usize), Error>)
    ensures
        (match r {
            Ok(np) => spec_parse_factor(tokens@, pos as int) == Ok::<(Node, int), Error>(
                (np.0, np.1 as int),
            ) && pos < np.1 <= tokens@.len(),
            Err(e) => spec_parse_factor(tokens@, pos as int) == Err::<(Node, int), Error>(e),
        }),
    decreases unread(tokens@, pos as int), 0int,
{
    if pos >= tokens.len() {
        return Err(Error::UnexpectedToken);
    }
    match tokens[pos] {
        Token::Number(n) => Ok((Node::Number(n), pos + 1)),
        Token::Paren => {
            match parse_expr(tokens, pos + 1) {
                Ok(np) => {
                    let p1: usize = np.1;
                    if p1 < tokens.len() && matches!(tokens[p1], Token::Paren) {
                        Ok((np.0, p1 + 1))
                    } else {
                        Err(Error::UnexpectedToken)
                    }
                },
                Err(e) => Err(e),
            }
        },
        Token::Minus => {
            match parse_factor(tokens, pos + 1) {
                Ok(np) => Ok((Node::Unary { operand: Box::new(np.0), op: UnOp::Minus }, np.1)),
                Err(e) => Err(e),
            }
        },
        _ => Err(Error::UnexpectedToken),
    }
}

/// Parses a whole token sequence into an expression tree, consuming the
/// sequence. Any token left after the top-level `expr` (trailing garbage
/// such as `1 2`, or an unmatched `)`) fails with `UnexpectedToken`.
pub fn parse(tokens: Vec<Token>) -> (r: Result<Node, Error>)
    ensures
        (match r {
            Ok(node) => spec_parse(tokens@) == Ok::<Node, Error>(node),
            Err(e) => spec_parse(tokens@) == Err::<Node, Error>(e),
        }),
{
    match parse_expr(&tokens, 0) {
        Ok(np) => {
            if np.1 == tokens.len() {
                Ok(np.0)
            } else {
                Err(Error::UnexpectedToken)
            }
        },
        Err(e) => Err(e),
    }
}

} // verus!
