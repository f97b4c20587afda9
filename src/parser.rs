//! Parsing of scoring expressions. Precedence, from loosest: `+ -`, then `* /`, then
//! `^`, all left-associative; then the signs `+ -`; then atoms: numerals, the three
//! inputs (in any case), `ln(..)`, `log(..)` and parenthesized expressions.
use vstd::prelude::*;
use crate::expression::{BinaryOperator, Expression, UnaryOperator};
use crate::lexer::{chars_of, is_space, lex_from, lexed, string_of, tokenize, Token, TokenKind};

verus! {

/// The binary operator a token stands for, at the level given by `level` (0 for sums,
/// 1 for products, 2 for powers).
pub open spec fn binary_at(level: nat, kind: TokenKind) -> Option<BinaryOperator> {
    if level == 0 && kind == TokenKind::Plus {
        Some(BinaryOperator::Add)
    } else if level == 0 && kind == TokenKind::Minus {
        Some(BinaryOperator::Subtract)
    } else if level == 1 && kind == TokenKind::Star {
        Some(BinaryOperator::Multiply)
    } else if level == 1 && kind == TokenKind::Slash {
        Some(BinaryOperator::Divide)
    } else if level == 2 && kind == TokenKind::Caret {
        Some(BinaryOperator::Exponent)
    } else {
        None
    }
}

/// Whether token `t` is the atom `e`.
pub open spec fn leaf(src: Seq<char>, t: Token, e: Expression) -> bool {
    match t.kind {
        TokenKind::Number => match e {
            Expression::Constant(c) => c@ == src.subrange(t.start as int, t.end as int),
            _ => false,
        },
        TokenKind::Elapsed => e is Elapsed,
        TokenKind::TotalMass => e is TotalMass,
        TokenKind::MassCount => e is MassCount,
        _ => false,
    }
}

/// Whether tokens `ts` form the atom `e`.
pub open spec fn derives_atom(src: Seq<char>, ts: Seq<Token>, e: Expression) -> bool
    decreases ts.len(), 0nat,
{
    ||| ts.len() == 1 && leaf(src, ts[0], e)
    ||| ts.len() >= 3 && ts[0].kind == TokenKind::LParen && ts.last().kind == TokenKind::RParen
        && derives_sum(src, ts.subrange(1, ts.len() - 1), e)
    ||| ts.len() >= 4 && (ts[0].kind == TokenKind::Ln || ts[0].kind == TokenKind::Log)
        && ts[1].kind == TokenKind::LParen && ts.last().kind == TokenKind::RParen && match e {
        Expression::UnaryOp(op, v) => op == (if ts[0].kind == TokenKind::Ln {
            UnaryOperator::NaturalLog
        } else {
            UnaryOperator::Base10Log
        }) && derives_sum(src, ts.subrange(2, ts.len() - 1), *v),
        _ => false,
    }
}

/// Whether tokens `ts` form the signed atom `e`.
pub open spec fn derives_unary(src: Seq<char>, ts: Seq<Token>, e: Expression) -> bool
    decreases ts.len(), 1nat,
{
    ||| derives_atom(src, ts, e)
    ||| ts.len() >= 2 && (ts[0].kind == TokenKind::Plus || ts[0].kind == TokenKind::Minus)
        && match e {
        Expression::UnaryOp(op, v) => op == (if ts[0].kind == TokenKind::Minus {
            UnaryOperator::Negative
        } else {
            UnaryOperator::Positive
        }) && derives_unary(src, ts.drop_first(), *v),
        _ => false,
    }
}

/// Whether tokens `ts` form `e` at binary level `level` (0 sums, 1 products, 2 powers).
pub open spec fn derives_level(src: Seq<char>, ts: Seq<Token>, level: nat, e: Expression) -> bool
    decreases ts.len(), 4 - level,
{
    if level > 2 {
        false
    } else {
        ||| (if level == 2 {
            derives_unary(src, ts, e)
        } else {
            derives_level(src, ts, level + 1, e)
        })
        ||| match e {
            Expression::BinaryOp(l, op, r) => exists|k: int|
                0 < k < ts.len() - 1 && binary_at(level, (#[trigger] ts[k]).kind) == Some(op)
                    && derives_level(src, ts.subrange(0, k), level, *l) && (if level == 2 {
                    derives_unary(src, ts.subrange(k + 1, ts.len() as int), *r)
                } else {
                    derives_level(src, ts.subrange(k + 1, ts.len() as int), level + 1, *r)
                }),
            _ => false,
        }
    }
}

/// Whether tokens `ts` form the expression `e`.
pub open spec fn derives_sum(src: Seq<char>, ts: Seq<Token>, e: Expression) -> bool
    decreases ts.len(), 5nat,
{
    derives_level(src, ts, 0, e)
}

/// Whether `a` and `b` are the same tree, constants compared by their text.
pub open spec fn same_tree(a: Expression, b: Expression) -> bool
    decreases a,
{
    match (a, b) {
        (Expression::Elapsed, Expression::Elapsed) => true,
        (Expression::TotalMass, Expression::TotalMass) => true,
        (Expression::MassCount, Expression::MassCount) => true,
        (Expression::Constant(x), Expression::Constant(y)) => x@ == y@,
        (Expression::BinaryOp(l1, o1, r1), Expression::BinaryOp(l2, o2, r2)) => o1 == o2
            && same_tree(*l1, *l2) && same_tree(*r1, *r2),
        (Expression::UnaryOp(o1, v1), Expression::UnaryOp(o2, v2)) => o1 == o2 && same_tree(
            *v1,
            *v2,
        ),
        _ => false,
    }
}

/// Whether a token of kind `kind` would continue a phrase of binary level `level`: an
/// operator of that level or a tighter one.
pub open spec fn continues(level: nat, kind: TokenKind) -> bool {
    ||| level == 0 && (kind == TokenKind::Plus || kind == TokenKind::Minus)
    ||| level <= 1 && (kind == TokenKind::Star || kind == TokenKind::Slash)
    ||| level <= 2 && kind == TokenKind::Caret
}

/// Whether a phrase of level `level` may end before token `end`.
pub open spec fn may_end(toks: Seq<Token>, end: int, level: nat) -> bool {
    end == toks.len() || !continues(level, toks[end].kind)
}

/// The operand form of level `level`: the next level, or signed atoms under powers.
pub open spec fn derives_operand(src: Seq<char>, ts: Seq<Token>, level: nat, e: Expression) -> bool {
    if level == 2 {
        derives_unary(src, ts, e)
    } else {
        derives_level(src, ts, level + 1, e)
    }
}

/// Whether tokens `ts`, a run of `op operand` pairs of level `level`, turn `acc` into
/// `e` when folded to the left.
pub open spec fn extends(src: Seq<char>, ts: Seq<Token>, level: nat, acc: Expression, e: Expression) -> bool
    decreases ts.len(),
{
    if ts.len() == 0 {
        acc == e
    } else {
        exists|m: int, r: Expression|
            1 < m <= ts.len() && binary_at(level, ts[0].kind) is Some && #[trigger] derives_operand(
                src,
                ts.subrange(1, m),
                level,
                r,
            ) && extends(
                src,
                ts.subrange(m, ts.len() as int),
                level,
                Expression::BinaryOp(Box::new(acc), binary_at(level, ts[0].kind)->Some_0, Box::new(r)),
                e,
            )
    }
}

/// A run of `op operand` pairs stays one when another pair is appended.
proof fn lemma_extends_append(
    src: Seq<char>,
    a: Seq<Token>,
    level: nat,
    acc: Expression,
    l: Expression,
    op_tok: Token,
    b: Seq<Token>,
    r: Expression,
)
    requires
        extends(src, a, level, acc, l),
        binary_at(level, op_tok.kind) is Some,
        b.len() > 0,
        derives_operand(src, b, level, r),
    ensures
        extends(
            src,
            a + seq![op_tok] + b,
            level,
            acc,
            Expression::BinaryOp(Box::new(l), binary_at(level, op_tok.kind)->Some_0, Box::new(r)),
        ),
    decreases a.len(),
{
    let whole = a + seq![op_tok] + b;
    let e = Expression::BinaryOp(Box::new(l), binary_at(level, op_tok.kind)->Some_0, Box::new(r));
    if a.len() == 0 {
        assert(whole =~= seq![op_tok] + b);
        assert(whole.subrange(1, whole.len() as int) =~= b);
        assert(whole.subrange(whole.len() as int, whole.len() as int) =~= Seq::<Token>::empty());
        assert(extends(src, whole.subrange(whole.len() as int, whole.len() as int), level, e, e));
        assert(whole[0] == op_tok);
    } else {
        let (m, r0) = choose|m: int, r0: Expression|
            1 < m <= a.len() && binary_at(level, a[0].kind) is Some && #[trigger] derives_operand(
                src,
                a.subrange(1, m),
                level,
                r0,
            ) && extends(
                src,
                a.subrange(m, a.len() as int),
                level,
                Expression::BinaryOp(Box::new(acc), binary_at(level, a[0].kind)->Some_0, Box::new(r0)),
                l,
            );
        let acc2 = Expression::BinaryOp(Box::new(acc), binary_at(level, a[0].kind)->Some_0, Box::new(r0));
        lemma_extends_append(src, a.subrange(m, a.len() as int), level, acc2, l, op_tok, b, r);
        assert(whole.subrange(1, m) =~= a.subrange(1, m));
        assert(whole.subrange(m, whole.len() as int) =~= a.subrange(m, a.len() as int) + seq![op_tok] + b);
        assert(whole[0] == a[0]);
    }
}

/// Every phrase of level `level` is a first operand followed by a run of `op operand`
/// pairs folded to the left.
proof fn lemma_spine(src: Seq<char>, ts: Seq<Token>, level: nat, e: Expression)
    requires
        level <= 2,
        derives_level(src, ts, level, e),
    ensures
        exists|m: int, a0: Expression|
            0 < m <= ts.len() && #[trigger] derives_operand(src, ts.subrange(0, m), level, a0)
                && extends(src, ts.subrange(m, ts.len() as int), level, a0, e),
    decreases ts.len(),
{
    if derives_operand(src, ts, level, e) {
        assert(ts.subrange(0, ts.len() as int) =~= ts);
        assert(ts.subrange(ts.len() as int, ts.len() as int) =~= Seq::<Token>::empty());
        lemma_operand_nonempty(src, ts, level, e);
        assert(derives_operand(src, ts.subrange(0, ts.len() as int), level, e));
    } else {
        let (l, op, r) = match e {
            Expression::BinaryOp(l, op, r) => (*l, op, *r),
            _ => { arbitrary() },
        };
        let k = choose|k: int|
            0 < k < ts.len() - 1 && binary_at(level, (#[trigger] ts[k]).kind) == Some(op)
                && derives_level(src, ts.subrange(0, k), level, l) && (if level == 2 {
                derives_unary(src, ts.subrange(k + 1, ts.len() as int), r)
            } else {
                derives_level(src, ts.subrange(k + 1, ts.len() as int), level + 1, r)
            });
        lemma_spine(src, ts.subrange(0, k), level, l);
        let (m, a0) = choose|m: int, a0: Expression|
            0 < m <= k && #[trigger] derives_operand(src, ts.subrange(0, k).subrange(0, m), level, a0)
                && extends(src, ts.subrange(0, k).subrange(m, k), level, a0, l);
        assert(ts.subrange(0, k).subrange(0, m) =~= ts.subrange(0, m));
        let b = ts.subrange(k + 1, ts.len() as int);
        assert(ts.subrange(0, k).subrange(m, k) =~= ts.subrange(m, k));
        lemma_operand_nonempty(src, b, level, r);
        lemma_extends_append(src, ts.subrange(m, k), level, a0, l, ts[k], b, r);
        assert(ts.subrange(m, k) + seq![ts[k]] + b =~= ts.subrange(m, ts.len() as int));
    }
}

/// A derivation covers at least one token.
proof fn lemma_operand_nonempty(src: Seq<char>, ts: Seq<Token>, level: nat, e: Expression)
    requires
        level <= 2,
        derives_operand(src, ts, level, e),
    ensures
        ts.len() > 0,
    decreases ts.len(), 2 - level,
{
    if level == 2 {
        lemma_unary_nonempty(src, ts, e);
    } else {
        lemma_level_nonempty(src, ts, level + 1, e);
    }
}

/// A phrase of any binary level is not empty.
proof fn lemma_level_nonempty(src: Seq<char>, ts: Seq<Token>, level: nat, e: Expression)
    requires
        level <= 2,
        derives_level(src, ts, level, e),
    ensures
        ts.len() > 0,
    decreases ts.len(), 3 - level,
{
    if level == 2 {
        if derives_unary(src, ts, e) {
            lemma_unary_nonempty(src, ts, e);
        }
    } else {
        if derives_level(src, ts, level + 1, e) {
            lemma_level_nonempty(src, ts, level + 1, e);
        }
    }
}

/// A signed atom is not empty.
proof fn lemma_unary_nonempty(src: Seq<char>, ts: Seq<Token>, e: Expression)
    requires
        derives_unary(src, ts, e),
    ensures
        ts.len() > 0,
{
    if derives_atom(src, ts, e) {
        assert(ts.len() > 0);
    }
}

/// Whether every token of `toks` lies within `src`.
pub open spec fn tokens_within(src: Seq<char>, toks: Seq<Token>) -> bool {
    forall|k: int| 0 <= k < toks.len() ==> (#[trigger] toks[k]).start < toks[k].end <= src.len()
}

fn binary_op(level: usize, kind: TokenKind) -> (r: Option<BinaryOperator>)
    ensures
        r == binary_at(level as nat, kind),
{
    if level == 0 && kind == TokenKind::Plus {
        Some(BinaryOperator::Add)
    } else if level == 0 && kind == TokenKind::Minus {
        Some(BinaryOperator::Subtract)
    } else if level == 1 && kind == TokenKind::Star {
        Some(BinaryOperator::Multiply)
    } else if level == 1 && kind == TokenKind::Slash {
        Some(BinaryOperator::Divide)
    } else if level == 2 && kind == TokenKind::Caret {
        Some(BinaryOperator::Exponent)
    } else {
        None
    }
}

/// The characters `start..end` of `src` as a string.
fn text_between(src: &Vec<char>, start: usize, end: usize) -> (r: String)
    requires
        start <= end <= src@.len(),
    ensures
        r@ == src@.subrange(start as int, end as int),
{
    let mut cs: Vec<char> = Vec::new();
    let mut i: usize = start;
    while i < end
        invariant
            start <= i <= end,
            end <= src@.len(),
            cs@ == src@.subrange(start as int, i as int),
        decreases end - i,
    {
        cs.push(src[i]);
        i += 1;
        assert(cs@ =~= src@.subrange(start as int, i as int));
    }
    string_of(cs)
}

/// What a parse at some position is expected to find: a tree and the index after it.
type Target = Option<(Expression, int)>;

/// Parses an atom at token `pos`; on success, the atom and the index after it. On
/// failure, the index of the token that does not fit (the token count at the end).
/// When `target` names an atom that the tokens from `pos` form, that atom is found.
fn parse_atom(
    src: &Vec<char>,
    toks: &Vec<Token>,
    pos: usize,
    target: Ghost<Target>,
) -> (r: Result<(Expression, usize), usize>)
    requires
        tokens_within(src@, toks@),
        pos <= toks@.len(),
    ensures
        r matches Ok((e, end)) ==> pos < end <= toks@.len() && derives_atom(
            src@,
            toks@.subrange(pos as int, end as int),
            e,
        ),
        r matches Err(p) ==> p <= toks@.len(),
        target@ is Some && pos < target@->Some_0.1 <= toks@.len() && derives_atom(
            src@,
            toks@.subrange(pos as int, target@->Some_0.1),
            target@->Some_0.0,
        ) ==> (r matches Ok((e, end)) && end == target@->Some_0.1 && same_tree(
            e,
            target@->Some_0.0,
        )),
    decreases toks@.len() - pos, 0nat,
{
    if pos >= toks.len() {
        return Err(pos);
    }
    let t = toks[pos];
    let ghost one = toks@.subrange(pos as int, pos + 1);
    assert(one[0] == t);
    let ghost wanted = target@ matches Some((e2, end2)) && pos < end2 <= toks@.len() && derives_atom(
        src@,
        toks@.subrange(pos as int, end2),
        e2,
    );
    let ghost e2 = target@->Some_0.0;
    let ghost end2 = target@->Some_0.1;
    let ghost ts2 = toks@.subrange(pos as int, end2);
    proof {
        if wanted {
            assert(ts2[0] == t);
        }
    }
    match t.kind {
        TokenKind::Number => {
            let e = Expression::Constant(text_between(src, t.start, t.end));
            Ok((e, pos + 1))
        },
        TokenKind::Elapsed => Ok((Expression::Elapsed, pos + 1)),
        TokenKind::TotalMass => Ok((Expression::TotalMass, pos + 1)),
        TokenKind::MassCount => Ok((Expression::MassCount, pos + 1)),
        TokenKind::LParen => {
            let ghost inner: Target = if wanted {
                Some((e2, end2 - 1))
            } else {
                None
            };
            proof {
                if wanted {
                    assert(ts2.subrange(1, ts2.len() - 1) =~= toks@.subrange(pos + 1, end2 - 1));
                    assert(ts2.last() == toks@[end2 - 1]);
                }
            }
            match parse_level(src, toks, pos + 1, 0, Ghost(inner)) {
                Ok((inner_e, e1)) => {
                    if e1 < toks.len() && toks[e1].kind == TokenKind::RParen {
                        let ghost ts = toks@.subrange(pos as int, e1 + 1);
                        assert(ts.subrange(1, ts.len() - 1) =~= toks@.subrange(pos + 1, e1 as int));
                        assert(ts[0] == t);
                        assert(ts.last() == toks@[e1 as int]);
                        Ok((inner_e, e1 + 1))
                    } else {
                        Err(e1)
                    }
                },
                Err(p) => Err(p),
            }
        },
        TokenKind::Ln | TokenKind::Log => {
            proof {
                if wanted {
                    assert(ts2[1] == toks@[pos + 1]);
                    assert(ts2.subrange(2, ts2.len() - 1) =~= toks@.subrange(pos + 2, end2 - 1));
                    assert(ts2.last() == toks@[end2 - 1]);
                }
            }
            if pos + 1 < toks.len() && toks[pos + 1].kind == TokenKind::LParen {
                let ghost inner: Target = if wanted {
                    match e2 {
                        Expression::UnaryOp(_, v) => Some((*v, end2 - 1)),
                        _ => None,
                    }
                } else {
                    None
                };
                match parse_level(src, toks, pos + 2, 0, Ghost(inner)) {
                    Ok((inner_e, e1)) => {
                        if e1 < toks.len() && toks[e1].kind == TokenKind::RParen {
                            let op = if t.kind == TokenKind::Ln {
                                UnaryOperator::NaturalLog
                            } else {
                                UnaryOperator::Base10Log
                            };
                            let ghost ts = toks@.subrange(pos as int, e1 + 1);
                            assert(ts.subrange(2, ts.len() - 1) =~= toks@.subrange(
                                pos + 2,
                                e1 as int,
                            ));
                            assert(ts[0] == t);
                            assert(ts[1] == toks@[pos + 1]);
                            assert(ts.last() == toks@[e1 as int]);
                            Ok((Expression::UnaryOp(op, Box::new(inner_e)), e1 + 1))
                        } else {
                            Err(e1)
                        }
                    },
                    Err(p) => Err(p),
                }
            } else {
                Err(pos + 1)
            }
        },
        _ => Err(pos),
    }
}

/// An atom is not empty and does not start with a sign.
proof fn lemma_atom_starts(src: Seq<char>, ts: Seq<Token>, e: Expression)
    requires
        derives_atom(src, ts, e),
    ensures
        ts.len() > 0,
        ts[0].kind != TokenKind::Plus && ts[0].kind != TokenKind::Minus,
{
}

/// Parses a signed atom at token `pos` (see `parse_atom`).
fn parse_unary(
    src: &Vec<char>,
    toks: &Vec<Token>,
    pos: usize,
    target: Ghost<Target>,
) -> (r: Result<(Expression, usize), usize>)
    requires
        tokens_within(src@, toks@),
        pos <= toks@.len(),
    ensures
        r matches Ok((e, end)) ==> pos < end <= toks@.len() && derives_unary(
            src@,
            toks@.subrange(pos as int, end as int),
            e,
        ),
        r matches Err(p) ==> p <= toks@.len(),
        target@ is Some && pos < target@->Some_0.1 <= toks@.len() && derives_unary(
            src@,
            toks@.subrange(pos as int, target@->Some_0.1),
            target@->Some_0.0,
        ) ==> (r matches Ok((e, end)) && end == target@->Some_0.1 && same_tree(
            e,
            target@->Some_0.0,
        )),
    decreases toks@.len() - pos, 1nat,
{
    let ghost wanted = target@ matches Some((e2, end2)) && pos < end2 <= toks@.len() && derives_unary(
        src@,
        toks@.subrange(pos as int, end2),
        e2,
    );
    let ghost e2 = target@->Some_0.0;
    let ghost end2 = target@->Some_0.1;
    let ghost ts2 = toks@.subrange(pos as int, end2);
    if pos < toks.len() && (toks[pos].kind == TokenKind::Plus || toks[pos].kind == TokenKind::Minus) {
        let op = if toks[pos].kind == TokenKind::Minus {
            UnaryOperator::Negative
        } else {
            UnaryOperator::Positive
        };
        proof {
            if wanted {
                assert(ts2[0] == toks@[pos as int]);
                if derives_atom(src@, ts2, e2) {
                    lemma_atom_starts(src@, ts2, e2);
                }
                assert(ts2.drop_first() =~= toks@.subrange(pos + 1, end2));
            }
        }
        let ghost inner: Target = if wanted {
            match e2 {
                Expression::UnaryOp(_, v) => Some((*v, end2)),
                _ => None,
            }
        } else {
            None
        };
        match parse_unary(src, toks, pos + 1, Ghost(inner)) {
            Ok((v, e1)) => {
                let ghost ts = toks@.subrange(pos as int, e1 as int);
                assert(ts.drop_first() =~= toks@.subrange(pos + 1, e1 as int));
                assert(ts[0] == toks@[pos as int]);
                Ok((Expression::UnaryOp(op, Box::new(v)), e1))
            },
            Err(p) => Err(p),
        }
    } else {
        proof {
            if wanted {
                assert(ts2[0] == toks@[pos as int]);
            }
        }
        parse_atom(src, toks, pos, target)
    }
}

/// An operator of level `level` continues that level but ends every tighter one.
proof fn lemma_operator_ends_tighter(level: nat, kind: TokenKind)
    requires
        level <= 2,
        binary_at(level, kind) is Some,
    ensures
        !continues(level + 1, kind),
        continues(level, kind),
{
}

/// Parses at binary level `level` (0 sums, 1 products, 2 powers) from token `pos`:
/// one operand of the next level, then any number of this level's operators each
/// followed by such an operand, grouped to the left (see `parse_atom`). A phrase that
/// `target` names is found when the token after it cannot continue it.
fn parse_level(
    src: &Vec<char>,
    toks: &Vec<Token>,
    pos: usize,
    level: usize,
    target: Ghost<Target>,
) -> (r: Result<(Expression, usize), usize>)
    requires
        tokens_within(src@, toks@),
        pos <= toks@.len(),
        level <= 2,
    ensures
        r matches Ok((e, end)) ==> pos < end <= toks@.len() && derives_level(
            src@,
            toks@.subrange(pos as int, end as int),
            level as nat,
            e,
        ),
        r matches Err(p) ==> p <= toks@.len(),
        target@ is Some && pos < target@->Some_0.1 <= toks@.len() && derives_level(
            src@,
            toks@.subrange(pos as int, target@->Some_0.1),
            level as nat,
            target@->Some_0.0,
        ) && may_end(toks@, target@->Some_0.1, level as nat) ==> (r matches Ok((e, end)) && end
            == target@->Some_0.1 && same_tree(e, target@->Some_0.0)),
    decreases toks@.len() - pos, 4 - level,
{
    let ghost wanted = target@ matches Some((e2, end2)) && pos < end2 <= toks@.len() && derives_level(
        src@,
        toks@.subrange(pos as int, end2),
        level as nat,
        e2,
    ) && may_end(toks@, end2, level as nat);
    let ghost e2 = target@->Some_0.0;
    let ghost end2 = target@->Some_0.1;
    let ghost mut first_target: Target = None;
    let ghost mut acc_spec = e2;
    proof {
        if wanted {
            lemma_spine(src@, toks@.subrange(pos as int, end2), level as nat, e2);
            let (m, a0) = choose|m: int, a0: Expression|
                0 < m <= toks@.subrange(pos as int, end2).len() && #[trigger] derives_operand(
                    src@,
                    toks@.subrange(pos as int, end2).subrange(0, m),
                    level as nat,
                    a0,
                ) && extends(
                    src@,
                    toks@.subrange(pos as int, end2).subrange(m, toks@.subrange(pos as int, end2).len() as int),
                    level as nat,
                    a0,
                    e2,
                );
            assert(toks@.subrange(pos as int, end2).subrange(0, m) =~= toks@.subrange(pos as int, pos + m));
            assert(toks@.subrange(pos as int, end2).subrange(m, end2 - pos) =~= toks@.subrange(pos + m, end2));
            first_target = Some((a0, pos + m));
            acc_spec = a0;
            if pos + m < end2 {
                let rest = toks@.subrange(pos + m, end2);
                assert(rest[0] == toks@[pos + m]);
                lemma_operator_ends_tighter(level as nat, toks@[pos + m].kind);
            }
        }
    }
    let first = if level == 2 {
        parse_unary(src, toks, pos, Ghost(first_target))
    } else {
        parse_level(src, toks, pos, level + 1, Ghost(first_target))
    };
    let (mut acc, mut cur) = match first {
        Ok(pair) => pair,
        Err(p) => {
            return Err(p);
        },
    };
    while cur < toks.len() && binary_op(level, toks[cur].kind).is_some()
        invariant
            tokens_within(src@, toks@),
            level <= 2,
            pos < cur <= toks@.len(),
            derives_level(src@, toks@.subrange(pos as int, cur as int), level as nat, acc),
            e2 == target@->Some_0.0,
            end2 == target@->Some_0.1,
            wanted == (target@ is Some && pos < end2 <= toks@.len() && derives_level(
                src@,
                toks@.subrange(pos as int, end2),
                level as nat,
                e2,
            ) && may_end(toks@, end2, level as nat)),
            wanted ==> cur <= end2 && same_tree(acc, acc_spec) && extends(
                src@,
                toks@.subrange(cur as int, end2),
                level as nat,
                acc_spec,
                e2,
            ),
        decreases toks@.len() - cur,
    {
        let op = match binary_op(level, toks[cur].kind) {
            Some(op) => op,
            None => {
                return Err(cur);
            },
        };
        let ghost mut next_target: Target = None;
        let ghost mut next_spec = acc_spec;
        proof {
            if wanted {
                let rest = toks@.subrange(cur as int, end2);
                if cur == end2 {
                    lemma_operator_ends_tighter(level as nat, toks@[cur as int].kind);
                }
                assert(rest.len() > 0);
                let (m, r_spec) = choose|m: int, r_spec: Expression|
                    1 < m <= rest.len() && binary_at(level as nat, rest[0].kind) is Some
                        && #[trigger] derives_operand(src@, rest.subrange(1, m), level as nat, r_spec)
                        && extends(
                        src@,
                        rest.subrange(m, rest.len() as int),
                        level as nat,
                        Expression::BinaryOp(
                            Box::new(acc_spec),
                            binary_at(level as nat, rest[0].kind)->Some_0,
                            Box::new(r_spec),
                        ),
                        e2,
                    );
                assert(rest[0] == toks@[cur as int]);
                assert(rest.subrange(1, m) =~= toks@.subrange(cur + 1, cur + m));
                assert(rest.subrange(m, rest.len() as int) =~= toks@.subrange(cur + m, end2));
                next_target = Some((r_spec, cur + m));
                next_spec = Expression::BinaryOp(Box::new(acc_spec), op, Box::new(r_spec));
                if cur + m < end2 {
                    let rest2 = toks@.subrange(cur + m, end2);
                    assert(rest2[0] == toks@[cur + m]);
                    lemma_operator_ends_tighter(level as nat, toks@[cur + m].kind);
                }
            }
        }
        let next = if level == 2 {
            parse_unary(src, toks, cur + 1, Ghost(next_target))
        } else {
            parse_level(src, toks, cur + 1, level + 1, Ghost(next_target))
        };
        let (rhs, e2_end) = match next {
            Ok(pair) => pair,
            Err(p) => {
                return Err(p);
            },
        };
        let ghost ts = toks@.subrange(pos as int, e2_end as int);
        let ghost k = cur - pos;
        assert(ts.subrange(0, k) =~= toks@.subrange(pos as int, cur as int));
        assert(ts.subrange(k + 1, ts.len() as int) =~= toks@.subrange(cur + 1, e2_end as int));
        assert(ts[k] == toks@[cur as int]);
        acc = Expression::BinaryOp(Box::new(acc), op, Box::new(rhs));
        assert(derives_level(src@, ts, level as nat, acc));
        proof {
            acc_spec = next_spec;
        }
        cur = e2_end;
    }
    proof {
        if wanted {
            if cur < end2 {
                let rest = toks@.subrange(cur as int, end2);
                assert(rest[0] == toks@[cur as int]);
            }
            assert(toks@.subrange(cur as int, end2) =~= Seq::<Token>::empty());
        }
    }
    Ok((acc, cur))
}

/// Where parsing failed, and why.
#[derive(Copy, Clone, Debug, PartialEq, Eq, Structural)]
pub enum ParseErrorKind {
    /// A character that starts no token, or a word that is no keyword.
    InvalidToken,
    /// A token where it cannot stand.
    UnrecognizedToken,
    /// The text ended where more was needed.
    UnrecognizedEof,
    /// A complete expression was followed by more tokens.
    ExtraToken,
}

/// A parse failure: its kind and the character position where it was found.
#[derive(Copy, Clone, Debug, PartialEq, Eq, Structural)]
pub struct ParseError {
    pub kind: ParseErrorKind,
    pub location: usize,
}

/// Parses a whole token sequence. It succeeds exactly when the grammar derives an
/// expression from the tokens, and the tree it returns is derived from them. On failure,
/// the kind of failure and the index of the token where it was found (the token count
/// when the tokens ran out).
pub fn parse_tokens(src: &Vec<char>, toks: &Vec<Token>) -> (r: Result<Expression, (ParseErrorKind, usize)>)
    requires
        tokens_within(src@, toks@),
    ensures
        r matches Ok(e) ==> derives_sum(src@, toks@, e),
        (exists|e: Expression| derives_sum(src@, toks@, e)) <==> r is Ok,
        r matches Err((kind, p)) ==> p <= toks@.len() && kind != ParseErrorKind::InvalidToken,
{
    let ghost target: Target = if exists|e: Expression| derives_sum(src@, toks@, e) {
        Some((choose|e: Expression| derives_sum(src@, toks@, e), toks@.len() as int))
    } else {
        None
    };
    proof {
        if target is Some {
            assert(toks@.subrange(0, toks@.len() as int) =~= toks@);
            let e = target->Some_0.0;
            assert(derives_sum(src@, toks@, e));
            lemma_level_nonempty(src@, toks@, 0, e);
            assert(derives_level(src@, toks@.subrange(0, toks@.len() as int), 0, e));
            assert(may_end(toks@, toks@.len() as int, 0));
        }
    }
    match parse_level(src, toks, 0, 0, Ghost(target)) {
        Ok((e, end)) => {
            if end < toks.len() {
                Err((ParseErrorKind::ExtraToken, end))
            } else {
                assert(toks@.subrange(0, end as int) =~= toks@);
                assert(derives_sum(src@, toks@, e));
                Ok(e)
            }
        },
        Err(p) => {
            if p < toks.len() {
                Err((ParseErrorKind::UnrecognizedToken, p))
            } else {
                Err((ParseErrorKind::UnrecognizedEof, p))
            }
        },
    }
}

/// Parses a scoring expression: the text is split into tokens, which must form an
/// expression. It succeeds exactly when the text tokenizes and an expression derives
/// from its tokens, and returns a tree so derived. A failure is located within
/// `source`; it is an invalid token exactly when the text does not tokenize.
pub fn parse_expression(source: &str) -> (r: Result<Expression, ParseError>)
    ensures
        r is Ok <==> (lex_from(source@, 0) is Some && exists|e: Expression|
            derives_sum(source@, lex_from(source@, 0)->Some_0, e)),
        r matches Ok(e) ==> lex_from(source@, 0) is Some && derives_sum(
            source@,
            lex_from(source@, 0)->Some_0,
            e,
        ) && lexed(source@, lex_from(source@, 0)->Some_0),
        r matches Err(err) ==> err.location <= source@.len(),
        r matches Err(err) ==> (err.kind == ParseErrorKind::InvalidToken <==> lex_from(source@, 0) is None),
        r matches Err(err) ==> (err.kind == ParseErrorKind::InvalidToken ==> err.location
            < source@.len() && !is_space(source@[err.location as int])),
{
    let src = chars_of(source);
    let toks = match tokenize(&src) {
        Ok(t) => t,
        Err(p) => {
            return Err(ParseError { kind: ParseErrorKind::InvalidToken, location: p });
        },
    };
    assert(tokens_within(src@, toks@));
    match parse_tokens(&src, &toks) {
        Ok(e) => Ok(e),
        Err((kind, p)) => {
            let location = if p < toks.len() {
                toks[p].start
            } else {
                src.len()
            };
            Err(ParseError { kind, location })
        },
    }
}

/// Index of the first character of the line holding position `loc`.
pub open spec fn line_start(src: Seq<char>, loc: int) -> int
    decreases loc,
{
    if loc <= 0 {
        0
    } else if src[loc - 1] == '\n' {
        loc
    } else {
        line_start(src, loc - 1)
    }
}

/// Number of line breaks before position `loc`.
pub open spec fn line_index(src: Seq<char>, loc: int) -> int
    decreases loc,
{
    if loc <= 0 {
        0
    } else if src[loc - 1] == '\n' {
        line_index(src, loc - 1) + 1
    } else {
        line_index(src, loc - 1)
    }
}

/// The line and column, both counted from zero, of position `location` in `source`.
pub fn error_location(source: &str, location: usize) -> (r: (usize, usize))
    requires
        location <= source@.len(),
    ensures
        r.0 == line_index(source@, location as int),
        r.1 == location - line_start(source@, location as int),
{
    let src = chars_of(source);
    let mut line: usize = 0;
    let mut start: usize = 0;
    let mut i: usize = 0;
    while i < location
        invariant
            i <= location <= src@.len(),
            src@ == source@,
            line == line_index(src@, i as int),
            start == line_start(src@, i as int),
            start <= i,
            line <= i,
        decreases location - i,
    {
        if src[i] == '\n' {
            line = line + 1;
            start = i + 1;
        }
        i += 1;
    }
    (line, location - start)
}

} // verus!
