use vstd::prelude::*;
use crate::ast::{
    Arg, BinaryOp, ClassMember, ExceptHandler, Expr, FactoryDef, FieldDef, FunctionDef, GetterDef,
    InterfaceMember, LiteralValue, MatchArm, Module, MutabilityView, Param, Pattern,
    RecordFieldType, SetterDef, Stmt, TraitMember, TypeAliasValue, TypeExpr, TypeParam, UnaryOp,
    Variance, WithItem,
};
use crate::token::{Span, Token, TokenKind};

verus! {

#[derive(Debug, Clone, PartialEq)]
pub struct ParseError {
    pub message: String,
    pub span: Span,
}

/// The expression that a single token stands for on its own: a literal
/// (`...`, a number, a string, `true`, `false`, `none`), `skip` or a name,
/// with the token's span; `None` for every other token.
pub open spec fn atom_expr(t: Token) -> Option<Expr> {
    match t.kind {
        TokenKind::Ident(name) => Some(Expr::Ident { name, span: t.span }),
        TokenKind::Ellipsis => Some(Expr::Literal { value: LiteralValue::Ellipsis, span: t.span }),
        TokenKind::Int(n) => Some(Expr::Literal { value: LiteralValue::Int(n), span: t.span }),
        TokenKind::Float(f) => Some(Expr::Literal { value: LiteralValue::Float(f), span: t.span }),
        TokenKind::Str(s) => Some(Expr::Literal { value: LiteralValue::Str(s), span: t.span }),
        TokenKind::True => Some(Expr::Literal { value: LiteralValue::Bool(true), span: t.span }),
        TokenKind::False => Some(Expr::Literal { value: LiteralValue::Bool(false), span: t.span }),
        TokenKind::NoneKw => Some(Expr::Literal { value: LiteralValue::NoneLit, span: t.span }),
        TokenKind::Skip => Some(Expr::Skip(t.span)),
        _ => None,
    }
}

/// Whether a token ends an expression: no operator of any precedence level
/// starts with it (a newline, `;`, the end, a closing bracket, `,`, `:`,
/// or the `=` of an assignment, plain or augmented).
pub open spec fn closes_expr(k: TokenKind) -> bool {
    ||| k is Newline
    ||| k is Semi
    ||| k is Eof
    ||| k is RParen
    ||| k is RBracket
    ||| k is RBrace
    ||| k is Comma
    ||| k is Colon
    ||| k is Eq
    ||| aug_op(k) is Some
}

/// The operation of an augmented assignment token: `+=`, `-=`, `*=`, `/=`.
pub open spec fn aug_op(k: TokenKind) -> Option<BinaryOp> {
    match k {
        TokenKind::PlusEq => Some(BinaryOp::Add),
        TokenKind::MinusEq => Some(BinaryOp::Sub),
        TokenKind::StarEq => Some(BinaryOp::Mul),
        TokenKind::SlashEq => Some(BinaryOp::Div),
        _ => None,
    }
}

/// Whether a token may follow an operand of `**` without extending it: it
/// starts no call, index, attribute, `?`, nor a `**` operation.
pub open spec fn ends_power(k: TokenKind) -> bool {
    !(k is LParen || k is LBracket || k is Dot || k is Question || k is DoubleStar)
}

/// The operation of a multiplicative operator token: `*`, `/`, `//` or `%`.
pub open spec fn mul_op(k: TokenKind) -> Option<BinaryOp> {
    match k {
        TokenKind::Star => Some(BinaryOp::Mul),
        TokenKind::Slash => Some(BinaryOp::Div),
        TokenKind::DoubleSlash => Some(BinaryOp::FloorDiv),
        TokenKind::Percent => Some(BinaryOp::Mod),
        _ => None,
    }
}

/// Whether a token may follow a product without extending it.
pub open spec fn ends_factor(k: TokenKind) -> bool {
    ends_power(k) && mul_op(k) is None
}

/// The operation of an additive operator token: `+` or `-`.
pub open spec fn additive_op(k: TokenKind) -> Option<BinaryOp> {
    match k {
        TokenKind::Plus => Some(BinaryOp::Add),
        TokenKind::Minus => Some(BinaryOp::Sub),
        _ => None,
    }
}

/// How many multiplicative operators, each followed by an atom token, come
/// after the token at `i`.
pub open spec fn prod_len(toks: Seq<Token>, i: int) -> nat
    decreases toks.len() - i,
{
    if 0 <= i && i + 2 < toks.len() && mul_op(toks[i + 1].kind) is Some && atom_expr(toks[i + 2]) is Some {
        1 + prod_len(toks, i + 2)
    } else {
        0
    }
}

/// The index just after the product of atoms that starts at `i`.
pub open spec fn prod_end(toks: Seq<Token>, i: int) -> int {
    i + 2 * prod_len(toks, i) + 1
}

/// The expression of the atom at `i` and the first `n` operator-atom pairs
/// of a product after it, grouped to the left: `a / b * c` is `(a / b) * c`.
pub open spec fn prod_expr(toks: Seq<Token>, i: int, n: nat) -> Expr
    decreases n,
{
    if n == 0 {
        atom_expr(toks[i])->Some_0
    } else {
        let left = prod_expr(toks, i, (n - 1) as nat);
        let right = atom_expr(toks[i + 2 * n])->Some_0;
        Expr::Binary {
            op: mul_op(toks[i + 2 * n - 1].kind)->Some_0,
            left: Box::new(left),
            right: Box::new(right),
            span: left.spec_span().spec_merge(right.spec_span()),
        }
    }
}

/// The facts behind the `j`-th pair of a product: a multiplicative
/// operator and then an atom.
pub proof fn lemma_prod_pair(toks: Seq<Token>, i: int, j: int)
    requires
        0 <= j < prod_len(toks, i),
    ensures
        0 <= i,
        i + 2 * j + 2 < toks.len(),
        mul_op(toks[i + 2 * j + 1].kind) is Some,
        atom_expr(toks[i + 2 * j + 2]) is Some,
        prod_len(toks, i) == j + 1 + prod_len(toks, i + 2 * j + 2),
    decreases j,
{
    if j > 0 {
        lemma_prod_pair(toks, i + 2, j - 1);
    }
}

/// How many additive operators, each followed by a product of atom tokens,
/// come after the product that starts at `i`.
pub open spec fn sum_len(toks: Seq<Token>, i: int) -> nat
    decreases toks.len() - i,
{
    let e = prod_end(toks, i);
    if 0 <= i && e + 1 < toks.len() && additive_op(toks[e].kind) is Some && atom_expr(toks[e + 1]) is Some {
        1 + sum_len(toks, e + 1)
    } else {
        0
    }
}

/// The index where the `k`-th product of a sum that starts at `i` starts.
pub open spec fn operand_at(toks: Seq<Token>, i: int, k: nat) -> int
    decreases k,
{
    if k == 0 {
        i
    } else {
        prod_end(toks, operand_at(toks, i, (k - 1) as nat)) + 1
    }
}

/// The expression of the product at `i` and the first `n` operator-product
/// pairs of a sum after it, grouped to the left, products first:
/// `a + b * c - d` is `(a + (b * c)) - d`.
pub open spec fn sum_expr(toks: Seq<Token>, i: int, n: nat) -> Expr
    decreases n,
{
    if n == 0 {
        prod_expr(toks, i, prod_len(toks, i))
    } else {
        let left = sum_expr(toks, i, (n - 1) as nat);
        let p = operand_at(toks, i, n);
        let right = prod_expr(toks, p, prod_len(toks, p));
        Expr::Binary {
            op: additive_op(toks[p - 1].kind)->Some_0,
            left: Box::new(left),
            right: Box::new(right),
            span: left.spec_span().spec_merge(right.spec_span()),
        }
    }
}

/// Products after the first in a sum start where they do in the sum that
/// starts at the second.
pub proof fn lemma_operand_shift(toks: Seq<Token>, i: int, k: nat)
    ensures
        operand_at(toks, i, k + 1) == operand_at(toks, operand_at(toks, i, 1), k),
    decreases k,
{
    if k > 0 {
        lemma_operand_shift(toks, i, (k - 1) as nat);
    }
}

/// The facts behind the `j`-th pair of a sum: an additive operator after
/// the `j`-th product, then the start of the next product.
pub proof fn lemma_sum_pair(toks: Seq<Token>, i: int, j: nat)
    requires
        j < sum_len(toks, i),
    ensures
        0 <= i <= operand_at(toks, i, j),
        prod_end(toks, operand_at(toks, i, j)) + 1 < toks.len(),
        additive_op(toks[prod_end(toks, operand_at(toks, i, j))].kind) is Some,
        atom_expr(toks[operand_at(toks, i, j + 1)]) is Some,
        operand_at(toks, i, j + 1) == prod_end(toks, operand_at(toks, i, j)) + 1,
        operand_at(toks, i, j) < operand_at(toks, i, j + 1),
        sum_len(toks, i) == j + 1 + sum_len(toks, operand_at(toks, i, j + 1)),
    decreases j,
{
    let e1 = prod_end(toks, i) + 1;
    assert(operand_at(toks, i, 0) == i);
    assert(operand_at(toks, i, 1) == e1);
    if j > 0 {
        lemma_sum_pair(toks, e1, (j - 1) as nat);
        lemma_operand_shift(toks, i, (j - 1) as nat);
        lemma_operand_shift(toks, i, j);
    }
}

/// When the token at `i` starts a sum of products of atom tokens (`a + b *
/// c`, a single atom included) and the token after it ends an expression:
/// the expression, products first and each operation grouped to the left,
/// and the number of tokens it takes.
pub open spec fn sum_at(toks: Seq<Token>, i: int) -> Option<(Expr, nat)> {
    let n = sum_len(toks, i);
    let e = prod_end(toks, operand_at(toks, i, n));
    if 0 <= i < toks.len() && atom_expr(toks[i]) is Some && i < e < toks.len() && closes_expr(toks[e].kind) {
        Some((sum_expr(toks, i, n), (e - i) as nat))
    } else {
        None
    }
}

/// A simple statement at index `i`, ended by a newline: `break`,
/// `continue`, `pass`, `return` with nothing or a sum of atoms (see
/// `sum_at`) after it, a sum of atoms on its own, or an assignment, plain or
/// augmented (`+=`, `-=`, `*=`, `/=`), of a sum of atoms to a sum of atoms.
/// The statement and the number of tokens it takes, the newline included.
pub open spec fn simple_stmt_of(toks: Seq<Token>, i: int) -> Option<(Stmt, nat)> {
    if !(0 <= i < toks.len()) {
        None
    } else {
        let t = toks[i];
        let newline_next = i + 1 < toks.len() && toks[i + 1].kind is Newline;
        match t.kind {
            TokenKind::Break => if newline_next {
                Some((Stmt::Break(t.span), 2nat))
            } else {
                None
            },
            TokenKind::Continue => if newline_next {
                Some((Stmt::Continue(t.span), 2nat))
            } else {
                None
            },
            TokenKind::Pass => if newline_next {
                Some((Stmt::Pass(t.span), 2nat))
            } else {
                None
            },
            TokenKind::Return => if newline_next {
                Some((Stmt::Return { value: None, span: t.span }, 2nat))
            } else {
                match sum_at(toks, i + 1) {
                    Some((e, w)) => if i + 1 + w < toks.len() && toks[i + 1 + w].kind is Newline {
                        Some((Stmt::Return { value: Some(e), span: t.span }, w + 2))
                    } else {
                        None
                    },
                    None => None,
                }
            },
            _ => match sum_at(toks, i) {
                Some((target, w1)) => {
                    let k = toks[i + w1].kind;
                    if k is Newline {
                        Some((Stmt::Expr(target), w1 + 1))
                    } else if k is Eq || aug_op(k) is Some {
                        match sum_at(toks, i + w1 + 1) {
                            Some((value, w2)) => if i + w1 + 1 + w2 < toks.len() && toks[i + w1 + 1 + w2].kind is Newline {
                                Some((
                                    if k is Eq {
                                        Stmt::Assignment { target, value, span: t.span }
                                    } else {
                                        Stmt::AugAssign { target, op: aug_op(k)->Some_0, value, span: t.span }
                                    },
                                    w1 + w2 + 2,
                                ))
                            } else {
                                None
                            },
                            None => None,
                        }
                    } else {
                        None
                    }
                },
                None => None,
            },
        }
    }
}

/// The statements of a module made of simple statements (see
/// `simple_stmt_of`) and blank lines from index `i` to the end of the
/// stream; `None` when something else comes first.
pub open spec fn simple_module(toks: Seq<Token>, i: int) -> Option<Seq<Stmt>>
    decreases toks.len() - i,
{
    if i < 0 || i >= toks.len() {
        None
    } else if toks[i].kind is Newline {
        simple_module(toks, i + 1)
    } else if toks[i].kind is Eof {
        Some(Seq::empty())
    } else {
        match simple_stmt_of(toks, i) {
            Some((st, w)) => if w > 0 {
                match simple_module(toks, i + w) {
                    Some(rest) => Some(seq![st] + rest),
                    None => None,
                }
            } else {
                None
            },
            None => None,
        }
    }
}

/// The simple statements (see `simple_stmt_of`) and blank lines of an
/// indented block from index `i` up to its `Dedent`: the statements and the
/// index just past the `Dedent`; `None` when something else comes first.
pub open spec fn block_stmts(toks: Seq<Token>, i: int) -> Option<(Seq<Stmt>, int)>
    decreases toks.len() - i,
{
    if i < 0 || i >= toks.len() {
        None
    } else if toks[i].kind is Newline {
        block_stmts(toks, i + 1)
    } else if toks[i].kind is Dedent {
        Some((Seq::empty(), i + 1))
    } else {
        match simple_stmt_of(toks, i) {
            Some((st, w)) => if w > 0 {
                match block_stmts(toks, i + w) {
                    Some((rest, e)) => Some((seq![st] + rest, e)),
                    None => None,
                }
            } else {
                None
            },
            None => None,
        }
    }
}

/// A block at index `i`: `:` and then either a simple statement on the same
/// line, or a newline, an `Indent` and simple statements up to a `Dedent`.
/// The statements and the number of tokens the block takes.
pub open spec fn block_at(toks: Seq<Token>, i: int) -> Option<(Seq<Stmt>, nat)> {
    if 0 <= i && i + 1 < toks.len() && toks[i].kind is Colon {
        if toks[i + 1].kind is Newline {
            if i + 2 < toks.len() && toks[i + 2].kind is Indent {
                match block_stmts(toks, i + 3) {
                    Some((ss, e)) => if e > i {
                        Some((ss, (e - i) as nat))
                    } else {
                        None
                    },
                    None => None,
                }
            } else {
                None
            }
        } else {
            match simple_stmt_of(toks, i + 1) {
                Some((st, w)) => Some((seq![st], w + 1)),
                None => None,
            }
        }
    } else {
        None
    }
}

/// Blank lines skipped inside a block change nothing of what it holds.
pub proof fn lemma_block_stmts_skip(toks: Seq<Token>, i: int, j: int)
    requires
        0 <= i <= j,
        forall|k: int| i <= k < j ==> (#[trigger] toks[k]).kind is Newline,
    ensures
        block_stmts(toks, i) == block_stmts(toks, j),
    decreases j - i,
{
    if i < j {
        lemma_block_stmts_skip(toks, i + 1, j);
    }
}

/// Blank lines do not change what a simple module holds.
pub proof fn lemma_simple_module_skip(toks: Seq<Token>, i: int, j: int)
    requires
        0 <= i <= j,
        forall|k: int| i <= k < j ==> (#[trigger] toks[k]).kind is Newline,
    ensures
        simple_module(toks, i) == simple_module(toks, j),
    decreases j - i,
{
    if i < j {
        lemma_simple_module_skip(toks, i + 1, j);
    }
}

/// The pattern that the token `t` makes on its own: a name (`_` is the
/// wildcard), an integer, `True`, `False` or `None`.
pub open spec fn is_token_pattern(p: Pattern, t: Token) -> bool {
    match t.kind {
        TokenKind::Ident(name) => if name@ == seq!['_'] {
            p == Pattern::Wildcard(t.span)
        } else {
            &&& p is Ident
            &&& p->Ident_0@ == name@
            &&& p->Ident_1 == t.span
        },
        TokenKind::Int(n) => p == Pattern::Literal(LiteralValue::Int(n), t.span),
        TokenKind::True => p == Pattern::Literal(LiteralValue::Bool(true), t.span),
        TokenKind::False => p == Pattern::Literal(LiteralValue::Bool(false), t.span),
        TokenKind::NoneKw => p == Pattern::Literal(LiteralValue::NoneLit, t.span),
        _ => false,
    }
}

/// Whether the token at `i` is a pattern on its own (see
/// `is_token_pattern`): a name not followed by `.`, `(` or `[` (`_` whatever
/// follows), an integer, `True`, `False` or `None`.
pub open spec fn token_pattern_at(toks: Seq<Token>, i: int) -> bool {
    &&& 0 <= i
    &&& i + 1 < toks.len()
    &&& match toks[i].kind {
        TokenKind::Ident(name) => name@ == seq!['_'] || !(toks[i + 1].kind is Dot || toks[i + 1].kind is LParen
            || toks[i + 1].kind is LBracket),
        TokenKind::Int(_) => true,
        TokenKind::True => true,
        TokenKind::False => true,
        TokenKind::NoneKw => true,
        _ => false,
    }
}

/// The head of a `for` clause at index `i`: a one-token pattern (see
/// `token_pattern_at`), `in`, and a sum of atoms (see `sum_at`). The
/// iterable and the number of tokens the head takes.
pub open spec fn for_head_at(toks: Seq<Token>, i: int) -> Option<(Expr, nat)> {
    if token_pattern_at(toks, i) && toks[i + 1].kind is In {
        match sum_at(toks, i + 2) {
            Some((e, w)) => Some((e, w + 2)),
            None => None,
        }
    } else {
        None
    }
}

/// A plain function after `def` at index `i`: a name, `()`, no return
/// type, and either a block of simple statements (see `block_at`) or a
/// newline for no body. The body and the number of tokens it takes.
pub open spec fn plain_fn_at(toks: Seq<Token>, i: int) -> Option<(Seq<Stmt>, nat)> {
    if 0 <= i && i + 3 < toks.len() && toks[i].kind is Ident && toks[i + 1].kind is LParen
        && toks[i + 2].kind is RParen {
        if toks[i + 3].kind is Newline {
            Some((Seq::empty(), 4))
        } else {
            match block_at(toks, i + 3) {
                Some((ss, w)) => Some((ss, w + 3)),
                None => None,
            }
        }
    } else {
        None
    }
}

/// Whether `fd` is the plain function (see `plain_fn_at`) named by the token
/// `t`, with body `ss`, the given decorators, and no dispatch.
pub open spec fn is_plain_fn(fd: FunctionDef, t: Token, ss: Seq<Stmt>, decorators: Seq<Expr>) -> bool {
    &&& fd.name@ == t.kind->Ident_0@
    &&& fd.type_params@.len() == 0
    &&& fd.params@.len() == 0
    &&& fd.return_type is None
    &&& fd.body@ == ss
    &&& !fd.is_dispatch
    &&& !fd.is_async
    &&& !fd.is_override
    &&& fd.decorators@ == decorators
    &&& fd.span == t.span
}

/// An `except` clause at index `i`: plain type names joined by `|` (see
/// `type_names_at`) without `as`, and a block of simple statements (see
/// `block_at`). The type's names, the block and the number of tokens.
pub open spec fn except_at(toks: Seq<Token>, i: int) -> Option<(Seq<Seq<char>>, Seq<Stmt>, nat)> {
    if 0 <= i < toks.len() && toks[i].kind is Except {
        match type_names_at(toks, i + 1) {
            Some((names, w)) => match block_at(toks, i + 1 + w) {
                Some((hs, w2)) => Some((names, hs, 1 + w + w2)),
                None => None,
            },
            None => None,
        }
    } else {
        None
    }
}

/// One arm of a match type at index `i`: `case`, plain type names, `:`,
/// plain type names, and a newline. Both types' names and the number of
/// tokens.
pub open spec fn type_arm_at(toks: Seq<Token>, i: int) -> Option<(Seq<Seq<char>>, Seq<Seq<char>>, nat)> {
    if 0 <= i < toks.len() && toks[i].kind is Case {
        match type_names_at(toks, i + 1) {
            Some((n1, w1)) => if toks[i + 1 + w1].kind is Colon {
                match type_names_at(toks, i + 2 + w1) {
                    Some((n2, w2)) => if toks[i + 2 + w1 + w2].kind is Newline {
                        Some((n1, n2, 3 + w1 + w2))
                    } else {
                        None
                    },
                    None => None,
                }
            } else {
                None
            },
            None => None,
        }
    } else {
        None
    }
}

/// Whether the tokens from index `i` open an indented body after a
/// declaration's name: `:`, a newline and an `Indent`.
pub open spec fn body_opens_at(toks: Seq<Token>, i: int) -> bool {
    &&& 0 <= i
    &&& i + 2 < toks.len()
    &&& toks[i].kind is Colon
    &&& toks[i + 1].kind is Newline
    &&& toks[i + 2].kind is Indent
}

/// Whether `m` is the plain field (see `field_at`) with this name, type
/// names, default and span.
pub open spec fn is_field_member(
    m: ClassMember,
    name: Seq<char>,
    names: Seq<Seq<char>>,
    default: Option<Expr>,
    span: Span,
) -> bool {
    match m {
        ClassMember::Field(fd) => fd.name@ == name && is_type_of_names(fd.type_annotation, names) && fd.default
            == default && fd.doc is None && fd.span == span,
        _ => false,
    }
}

/// How many `, name` pairs follow the identifier at index `i`.
pub open spec fn comma_names_len(toks: Seq<Token>, i: int) -> nat
    decreases toks.len() - i,
{
    if 0 <= i && i + 2 < toks.len() && toks[i + 1].kind is Comma && toks[i + 2].kind is Ident {
        1 + comma_names_len(toks, i + 2)
    } else {
        0
    }
}

/// A parameter list of plain names at index `i`: `(`, identifiers joined by
/// `,`, and `)`. The identifiers' positions are `i + 1`, `i + 3`, ...; the
/// count of names and the number of tokens the list takes.
pub open spec fn name_params_at(toks: Seq<Token>, i: int) -> Option<(nat, nat)> {
    if 0 <= i && i + 1 < toks.len() && toks[i].kind is LParen && toks[i + 1].kind is Ident && toks[i + 2 + 2
        * comma_names_len(toks, i + 1)].kind is RParen {
        Some((comma_names_len(toks, i + 1) + 1, 2 * comma_names_len(toks, i + 1) + 3))
    } else {
        None
    }
}

/// Whether `p` is the plain parameter that the identifier token `t` makes:
/// no pattern, annotation or default, and no flag set.
pub open spec fn is_plain_param(p: Param, t: Token) -> bool {
    &&& p.name@ == t.kind->Ident_0@
    &&& p.pattern is None
    &&& p.type_annotation is None
    &&& p.default is None
    &&& !p.is_positional_only
    &&& !p.is_keyword_only
    &&& !p.is_variadic_positional
    &&& !p.is_variadic_keyword
    &&& !p.is_gather
    &&& p.span == t.span
}

/// How many `, atom` pairs follow the atom token at index `i`.
pub open spec fn comma_atoms_len(toks: Seq<Token>, i: int) -> nat
    decreases toks.len() - i,
{
    if 0 <= i && i + 2 < toks.len() && toks[i + 1].kind is Comma && atom_expr(toks[i + 2]) is Some {
        1 + comma_atoms_len(toks, i + 2)
    } else {
        0
    }
}

/// Call arguments at index `i` that are single atom tokens (see
/// `atom_expr`) joined by `,`, with the closing `)` right after the last
/// one: how many, and the number of tokens before the `)`.
pub open spec fn atom_args_at(toks: Seq<Token>, i: int) -> Option<(nat, nat)> {
    let m = comma_atoms_len(toks, i);
    if 0 <= i < toks.len() && atom_expr(toks[i]) is Some && i + 1 + 2 * m < toks.len() && toks[i + 1 + 2
        * m].kind is RParen {
        Some((m + 1, 2 * m + 1))
    } else {
        None
    }
}

/// Whether `a` is the positional argument that the atom token `t` makes.
pub open spec fn is_atom_arg(a: Arg, t: Token) -> bool {
    &&& a.name is None
    &&& atom_expr(t) == Some(a.value)
    &&& !a.is_spread
    &&& !a.is_dict_spread
    &&& !a.is_gather_spread
    &&& a.span == t.span
}

/// A list of plain type parameters at index `i`: `[`, identifiers joined
/// by `,`, and `]`. The identifiers' positions are `i + 1`, `i + 3`, ...;
/// the count of names and the number of tokens the list takes.
pub open spec fn name_brackets_at(toks: Seq<Token>, i: int) -> Option<(nat, nat)> {
    if 0 <= i && i + 1 < toks.len() && toks[i].kind is LBracket && toks[i + 1].kind is Ident && toks[i + 2 + 2
        * comma_names_len(toks, i + 1)].kind is RBracket {
        Some((comma_names_len(toks, i + 1) + 1, 2 * comma_names_len(toks, i + 1) + 3))
    } else {
        None
    }
}

/// Whether `tp` is the plain type parameter that the identifier token `t`
/// makes: invariant, unbounded, not higher-kinded.
pub open spec fn is_plain_type_param(tp: TypeParam, t: Token) -> bool {
    &&& tp.name@ == t.kind->Ident_0@
    &&& tp.variance == Variance::Invariant
    &&& tp.bound is None
    &&& !tp.is_higher_kinded
    &&& tp.span == t.span
}

/// A parenthesised list of plain names (see `name_params_at`) none of
/// which is `_`, so that each reads as a bare type name.
pub open spec fn type_name_list_at(toks: Seq<Token>, i: int) -> Option<(nat, nat)> {
    match name_params_at(toks, i) {
        Some((n, w)) => if forall|j: int| 0 <= j < n ==> #[trigger] toks[i + 1 + 2 * j].kind->Ident_0@ != seq!['_'] {
            Some((n, w))
        } else {
            None
        },
        None => None,
    }
}

/// The plain field declarations (see `field_at`) and blank lines of a
/// class body from index `i` up to its `Dedent`: for each field its name,
/// type names, default and first index, and the index of the `Dedent`.
pub open spec fn fields_block(toks: Seq<Token>, i: int) -> Option<
    (Seq<(Seq<char>, Seq<Seq<char>>, Option<Expr>, int)>, int),
>
    decreases toks.len() - i,
{
    if i < 0 || i >= toks.len() {
        None
    } else if toks[i].kind is Newline {
        fields_block(toks, i + 1)
    } else if toks[i].kind is Dedent {
        Some((Seq::empty(), i))
    } else {
        match field_at(toks, i) {
            Some((n, ts, d, w)) => if w > 0 {
                match fields_block(toks, i + w) {
                    Some((rest, e)) => Some((seq![(n, ts, d, i)] + rest, e)),
                    None => None,
                }
            } else {
                None
            },
            None => None,
        }
    }
}

/// Blank lines skipped inside a class body change nothing of its fields.
pub proof fn lemma_fields_block_skip(toks: Seq<Token>, i: int, j: int)
    requires
        0 <= i <= j,
        forall|k: int| i <= k < j ==> (#[trigger] toks[k]).kind is Newline,
    ensures
        fields_block(toks, i) == fields_block(toks, j),
    decreases j - i,
{
    if i < j {
        lemma_fields_block_skip(toks, i + 1, j);
    }
}

/// The further elements of a bracketed sequence read from index `i`: each
/// `,` followed by a sum of atoms (see `sum_at`), and an optional `,` just
/// before the closing token `close`. The elements and the index where the
/// reading stops: at the first token that is not a `,`, or at `close` after
/// a final `,`.
pub open spec fn more_elements_at(toks: Seq<Token>, i: int, close: TokenKind) -> Option<(Seq<Expr>, int)>
    decreases toks.len() - i,
{
    if i < 0 || i >= toks.len() {
        None
    } else if !(toks[i].kind is Comma) {
        Some((Seq::empty(), i))
    } else if i + 1 >= toks.len() {
        None
    } else if toks[i + 1].kind.same_as(close) {
        Some((Seq::empty(), i + 1))
    } else {
        match sum_at(toks, i + 1) {
            Some((e, w)) => match more_elements_at(toks, i + 1 + w, close) {
                Some((rest, end)) => Some((seq![e] + rest, end)),
                None => None,
            },
            None => None,
        }
    }
}

/// A set literal at index `i` whose elements are sums of atoms (see
/// `sum_at`) separated by `,`: `{a, b, c}`, a final `,` allowed. The
/// elements and the index of the closing `}`.
pub open spec fn set_literal_at(toks: Seq<Token>, i: int) -> Option<(Seq<Expr>, int)> {
    if 0 <= i && i + 1 < toks.len() && toks[i].kind is LBrace && !(toks[i + 1].kind is Ellipsis) {
        match sum_at(toks, i + 1) {
            Some((e1, w1)) => match more_elements_at(toks, i + 1 + w1, TokenKind::RBrace) {
                Some((rest, end)) => if 0 <= end < toks.len() && toks[end].kind is RBrace {
                    Some((seq![e1] + rest, end))
                } else {
                    None
                },
                None => None,
            },
            None => None,
        }
    } else {
        None
    }
}

/// Whether the tokens at index `i` are an empty or one-atom bracketed
/// form: `{}`, `{:}`, `[]`, `[atom]`, `()` or `(atom)` (the last two not
/// followed by `->`).
pub open spec fn small_bracket_at(toks: Seq<Token>, i: int) -> bool {
    ||| i + 1 < toks.len() && toks[i].kind is LBrace && toks[i + 1].kind is RBrace
    ||| i + 2 < toks.len() && toks[i].kind is LBrace && toks[i + 1].kind is Colon && toks[i + 2].kind is RBrace
    ||| i + 1 < toks.len() && toks[i].kind is LBracket && toks[i + 1].kind is RBracket
    ||| i + 2 < toks.len() && toks[i].kind is LBracket && atom_expr(toks[i + 1]) is Some && toks[i + 2].kind is RBracket
    ||| i + 2 < toks.len() && toks[i].kind is LParen && toks[i + 1].kind is RParen && !(toks[i + 2].kind is Arrow)
    ||| i + 3 < toks.len() && toks[i].kind is LParen && atom_expr(toks[i + 1]) is Some && toks[i + 2].kind is RParen
        && !(toks[i + 3].kind is Arrow)
}

/// What a class member at index `p` parses to, ending at `end`: `def` and a
/// plain function (see `plain_fn_at`) give that method; `factory`, a name,
/// plain parameters (see `name_params_at`) and a block of simple statements
/// give that factory; `pass` and a newline give a pass marker with the
/// newline's span.
#[verifier::opaque]
pub open spec fn member_results(toks: Seq<Token>, p: int, r: Result<ClassMember, ParseError>, end: int) -> bool {
    &&& toks[p].kind is Def ==> (plain_fn_at(toks, p + 1) matches Some((ss, w)) ==> (r matches Ok(ClassMember::Method(fd))
        && is_plain_fn(fd, toks[p + 1], ss, Seq::empty()) && end == p + 1 + w))
    &&& toks[p].kind is Factory && toks[p + 1].kind is Ident ==> (name_params_at(toks, p + 2) matches Some((n, w)) ==> (
    block_at(toks, p + 2 + w) matches Some((ss, w2)) ==> (r matches Ok(ClassMember::Factory(fd)) && fd.name@ == toks[p
        + 1].kind->Ident_0@ && fd.type_params@.len() == 0 && fd.params@.len() == n && (forall|j: int|
        0 <= j < n ==> is_plain_param(#[trigger] fd.params@[j], toks[p + 3 + 2 * j])) && fd.return_type is None
        && fd.body@ == ss && fd.span == toks[p].span && end == p + 2 + w + w2)))
    &&& toks[p].kind is Pass && toks[p + 1].kind is Newline ==> (r == Ok::<ClassMember, ParseError>(
        ClassMember::Pass(toks[p + 1].span),
    ) && end == p + 2)
}

/// What `parse_while_stmt` gives for the statement at index `p`, ending at `end` (see
/// its documentation).
pub open spec fn while_result(toks: Seq<Token>, p: int, r: Result<Stmt, ParseError>, end: int) -> bool {
    (toks[p].kind is While ==> (sum_at(toks, p + 1int) matches Some((c, w))
                ==> (block_at(toks, p + 1int + w) matches Some((ss, w2)) ==> (!(toks[p + 1int + w + w2].kind is IfBroken) ==> (r matches Ok(
                Stmt::While { condition, body, if_broken, span },
            ) && condition == c && body@ == ss && if_broken is None && span == toks[p].span
                && end == p + 1int + w + w2)))))
}

/// What `parse_for_stmt` gives for the statement at index `p`, ending at `end` (see
/// its documentation).
pub open spec fn for_result(toks: Seq<Token>, p: int, r: Result<Stmt, ParseError>, end: int) -> bool {
    (toks[p].kind is For ==> (for_head_at(toks, p + 1int) matches Some((e, w))
                ==> (block_at(toks, p + 1int + w) matches Some((ss, w2)) ==> (!(toks[p + 1int + w + w2].kind is IfBroken) ==> (r matches Ok(
                Stmt::For { target, iterable, body, if_broken, span },
            ) && is_token_pattern(target, toks[p + 1int]) && iterable == e
                && body@ == ss && if_broken is None && span == toks[p].span && end
                == p + 1int + w + w2)))))
}

/// What `parse_let_stmt` gives for the statement at index `p`, ending at `end` (see
/// its documentation).
pub open spec fn let_result(toks: Seq<Token>, p: int, r: Result<Stmt, ParseError>, end: int) -> bool {
    (toks[p].kind is Let && token_pattern_at(toks, p + 1int)
                && toks[p + 2int].kind is Eq ==> (sum_at(
                toks,
                p + 3int,
            ) matches Some((v, w)) ==> (toks[p + 3int + w].kind is Newline ==> (r matches Ok(
                Stmt::VarDef { pattern, type_annotation, value, is_let, is_final, span },
            ) && is_token_pattern(pattern, toks[p + 1int]) && type_annotation is None
                && value == Some(v) && is_let && !is_final && span == toks[p].span && end
                == p + 4int + w))))
}

/// What `parse_import_stmt` gives for the statement at index `p`, ending at `end` (see
/// its documentation).
pub open spec fn import_result(toks: Seq<Token>, p: int, r: Result<Stmt, ParseError>, end: int) -> bool {
    (toks[p].kind is Import ==> (dotted_at(toks, p + 1int) matches Some((m, w))
                ==> (toks[p + 1int + w].kind is Newline ==> (r matches Ok(
                Stmt::Import { module, alias, span },
            ) && module@ == m && alias is None && span == toks[p].span && end
                == p + 2int + w))))
}

/// What `parse_from_import_stmt` gives for the statement at index `p`, ending at `end` (see
/// its documentation).
pub open spec fn from_import_result(toks: Seq<Token>, p: int, r: Result<Stmt, ParseError>, end: int) -> bool {
    (toks[p].kind is From ==> (dotted_at(toks, p + 1int) matches Some((m, w))
                ==> (toks[p + 1int + w].kind is Import && toks[p + 2int + w].kind is Ident && toks[p + 3int + w].kind is Newline
                ==> (r matches Ok(Stmt::FromImport { module, names, is_export, span }) && module@ == m && names@.len()
                == 1 && names@[0].0@ == toks[p + 2int + w].kind->Ident_0@
                && names@[0].1 is None && !is_export && span == toks[p].span && end
                == p + 4int + w))))
}

/// What `parse_if_stmt` gives for the statement at index `p`, ending at `end` (see
/// its documentation).
pub open spec fn if_result(toks: Seq<Token>, p: int, r: Result<Stmt, ParseError>, end: int) -> bool {
    (toks[p].kind is If ==> (sum_at(toks, p + 1int) matches Some((c, w))
                ==> (block_at(toks, p + 1int + w) matches Some((ss, w2)) ==> ({
                let q = p + 1int + w + w2;
                let k = toks[q].kind;
                &&& !(k is Elif) && !(k is Else) ==> (r matches Ok(
                    Stmt::If { condition, then_branch, elif_branches, else_branch, span },
                ) && condition == c && then_branch@ == ss && elif_branches@.len() == 0 && else_branch is None && span
                    == toks[p].span && end == q)
                &&& k is Else ==> (block_at(toks, q + 1) matches Some((es, w3)) ==> (r matches Ok(
                    Stmt::If { condition, then_branch, elif_branches, else_branch, span },
                ) && condition == c && then_branch@ == ss && elif_branches@.len() == 0 && else_branch is Some
                    && else_branch->Some_0@ == es && span == toks[p].span && end == q + 1 + w3))
            }))))
}

/// What `parse_try_stmt` gives for the statement at index `p`, ending at `end` (see
/// its documentation).
pub open spec fn try_result(toks: Seq<Token>, p: int, r: Result<Stmt, ParseError>, end: int) -> bool {
    (toks[p].kind is Try ==> (block_at(toks, p + 1int) matches Some((ss, w))
                ==> ({
                let toks = toks;
                let q = p + 1int + w;
                &&& !(toks[q].kind is Except) && !(toks[q].kind is Finally) ==> (r matches Ok(
                    Stmt::Try { body, handlers, finally_body, span },
                ) && body@ == ss && handlers@.len() == 0 && finally_body is None && span == toks[p].span
                    && end == q)
                &&& toks[q].kind is Finally ==> (block_at(toks, q + 1) matches Some((fs, w3)) ==> (r matches Ok(
                    Stmt::Try { body, handlers, finally_body, span },
                ) && body@ == ss && handlers@.len() == 0 && finally_body is Some && finally_body->Some_0@ == fs && span
                    == toks[p].span && end == q + 1 + w3))
                &&& except_at(toks, q) matches Some((names, hs, w4)) ==> (!(toks[q + w4].kind is Except) && !(toks[q
                    + w4].kind is Finally) ==> (r matches Ok(Stmt::Try { body, handlers, finally_body, span }) && body@
                    == ss && handlers@.len() == 1 && is_type_of_names(handlers@[0].exception_type, names)
                    && handlers@[0].name is None && handlers@[0].body@ == hs && handlers@[0].span == toks[q + 1].span
                    && finally_body is None && span == toks[p].span && end == q + w4))
            })))
}

/// What `parse_match_stmt` gives for the statement at index `p`, ending at `end` (see
/// its documentation).
pub open spec fn match_result(toks: Seq<Token>, p: int, r: Result<Stmt, ParseError>, end: int) -> bool {
    (({
                toks[p].kind is Match ==> (sum_at(toks, p + 1) matches Some((e, w)) ==> ({
                    let a = p + 1 + w;
                    body_opens_at(toks, a) && toks[a + 3].kind is Case && token_pattern_at(toks, a + 4) ==> (block_at(
                        toks,
                        a + 5,
                    ) matches Some((ss, w2)) ==> (toks[a + 5 + w2].kind is Dedent ==> (r matches Ok(
                        Stmt::Match { subject, subject_alias, arms, span },
                    ) && subject == e && subject_alias is None && arms@.len() == 1 && is_token_pattern(
                        arms@[0].pattern,
                        toks[a + 4],
                    ) && arms@[0].type_narrow is None && arms@[0].guard is None && arms@[0].body@ == ss && arms@[0].span
                        == toks[a + 3].span && span == toks[p].span && end == a + 6 + w2)))
                }))
            }))
}

/// What `parse_with_stmt` gives for the statement at index `p`, ending at `end` (see
/// its documentation).
pub open spec fn with_result(toks: Seq<Token>, p: int, r: Result<Stmt, ParseError>, end: int) -> bool {
    (toks[p].kind is With ==> (sum_at(toks, p + 1int) matches Some((e, w))
                ==> (block_at(toks, p + 1int + w) matches Some((ss, w2)) ==> (
            r matches Ok(Stmt::With { items, body, span }) && items@.len() == 1 && items@[0].context_expr == e
                && items@[0].target is None && body@ == ss && span == toks[p].span && end
                == p + 1int + w + w2))))
}

/// What `parse_type_alias` gives for the statement at index `p`, ending at `end` (see
/// its documentation).
pub open spec fn type_alias_result(toks: Seq<Token>, p: int, r: Result<Stmt, ParseError>, end: int) -> bool {
    (toks[p].kind is Type && toks[p + 1int].kind is Ident
                && toks[p + 2int].kind is Eq ==> (type_names_at(
                toks,
                p + 3int,
            ) matches Some((names, w)) ==> (toks[p + 3int + w].kind is Newline ==> (
            r matches Ok(Stmt::TypeAlias { name, type_params, value: TypeAliasValue::Direct(te), span }) && name@
                == toks[p + 1int].kind->Ident_0@ && type_params@.len() == 0
                && is_type_of_names(te, names) && span == toks[p].span && end
                == p + 4int + w))))
}

/// What `parse_class_def` gives for the statement at index `p`, ending at `end` (see
/// its documentation).
pub open spec fn class_result(toks: Seq<Token>, p: int, r: Result<Stmt, ParseError>, end: int) -> bool {
    (({
                toks[p].kind is Class && toks[p + 1].kind is Ident && body_opens_at(toks, p + 2) ==> (fields_block(
                    toks,
                    p + 5,
                ) matches Some((fs, e)) ==> (r matches Ok(
                    Stmt::ClassDef { name, type_params, bases, without_traits, body, is_sealed, is_final, .. },
                ) && name@ == toks[p + 1].kind->Ident_0@ && type_params@.len() == 0 && bases@.len() == 0
                    && without_traits@.len() == 0 && !is_sealed && !is_final && body@.len() == fs.len() && (forall|k: int|
                    0 <= k < fs.len() ==> is_field_member(
                        #[trigger] body@[k],
                        fs[k].0,
                        fs[k].1,
                        fs[k].2,
                        toks[fs[k].3].span,
                    )) && end == e + 1))
            }))
}

/// What `parse_interface_def` gives for the statement at index `p`, ending at `end` (see
/// its documentation).
pub open spec fn interface_result(toks: Seq<Token>, p: int, r: Result<Stmt, ParseError>, end: int) -> bool {
    (toks[p].kind is Interface && toks[p + 1int].kind is Ident
                && body_opens_at(toks, p + 2int) && toks[p + 5int].kind is Pass && toks[p + 6int].kind is Newline
                && toks[p + 7int].kind is Dedent ==> (r matches Ok(
                Stmt::InterfaceDef { name, type_params, bases, body, .. },
            ) && name@ == toks[p + 1int].kind->Ident_0@ && type_params@.len() == 0
                && bases@.len() == 0 && body@ == seq![
                InterfaceMember::Pass(toks[p + 6int].span),
            ] && end == p + 8))
}

/// What `parse_trait_def` gives for the statement at index `p`, ending at `end` (see
/// its documentation).
pub open spec fn trait_result(toks: Seq<Token>, p: int, r: Result<Stmt, ParseError>, end: int) -> bool {
    (toks[p].kind is Trait && toks[p + 1int].kind is Ident
                && body_opens_at(toks, p + 2int) && toks[p + 5int].kind is Pass && toks[p + 6int].kind is Newline
                && toks[p + 7int].kind is Dedent ==> (r matches Ok(
                Stmt::TraitDef { name, type_params, bases, body, .. },
            ) && name@ == toks[p + 1int].kind->Ident_0@ && type_params@.len() == 0
                && bases@.len() == 0 && body@ == seq![TraitMember::Pass(toks[p + 6int].span)]
                && end == p + 8))
}

/// What `parse_implement_def` gives for the statement at index `p`, ending at `end` (see
/// its documentation).
pub open spec fn implement_result(toks: Seq<Token>, p: int, r: Result<Stmt, ParseError>, end: int) -> bool {
    (({
                toks[p].kind is Implement ==> (type_names_at(toks, p + 1) matches Some((n1, w1)) ==> (toks[p + 1 + w1].kind is For
                    ==> (type_names_at(toks, p + 2 + w1) matches Some((n2, w2)) ==> ({
                    let a = p + 2 + w1 + w2;
                    body_opens_at(toks, a) && toks[a + 3].kind is Def ==> (plain_fn_at(toks, a + 4) matches Some((ss, wf))
                        ==> (toks[a + 4 + wf].kind is Dedent ==> (r matches Ok(
                        Stmt::ImplementDef { interface, target, body, .. },
                    ) && is_type_of_names(interface, n1) && is_type_of_names(target, n2) && body@.len() == 1
                        && is_plain_fn(body@[0], toks[a + 4], ss, Seq::empty()) && end == a + 5 + wf)))
                }))))
            }))
}

/// Whether a token of this kind can start a type expression.
pub open spec fn starts_type(k: TokenKind) -> bool {
    ||| k is Ident
    ||| k is Bang
    ||| k is Amp
    ||| k is LBracket
    ||| k is LParen
    ||| k is LBrace
    ||| k is Type
    ||| k is Any
}

/// Scanning from index `i` at bracket depth `depth` toward the `)` that
/// closes the parenthesis: whether a `/`, a `:` or a `*` before `,` occurs at
/// depth one, or the closing `)` is followed by `->`.
pub open spec fn shape_from(toks: Seq<Token>, i: int, depth: nat) -> bool
    decreases toks.len() - i,
{
    if i < 0 || i >= toks.len() {
        false
    } else {
        match toks[i].kind {
            TokenKind::LParen => shape_from(toks, i + 1, depth + 1),
            TokenKind::RParen => {
                let d: nat = if depth > 0 { (depth - 1) as nat } else { 0 };
                if d == 0 {
                    i + 1 < toks.len() && toks[i + 1].kind is Arrow
                } else {
                    shape_from(toks, i + 1, d)
                }
            },
            TokenKind::Slash => depth == 1 || shape_from(toks, i + 1, depth),
            TokenKind::Colon => depth == 1 || shape_from(toks, i + 1, depth),
            TokenKind::Star => (depth == 1 && i + 1 < toks.len() && toks[i + 1].kind is Comma) || shape_from(
                toks,
                i + 1,
                depth,
            ),
            _ => shape_from(toks, i + 1, depth),
        }
    }
}

/// How many `. name` pairs follow the identifier at index `i`.
pub open spec fn dot_len(toks: Seq<Token>, i: int) -> nat
    decreases toks.len() - i,
{
    if 0 <= i && i + 2 < toks.len() && toks[i + 1].kind is Dot && toks[i + 2].kind is Ident {
        1 + dot_len(toks, i + 2)
    } else {
        0
    }
}

/// The text of the identifier at `i` and the `n` names that follow it,
/// joined by `.`.
pub open spec fn dotted_text(toks: Seq<Token>, i: int, n: nat) -> Seq<char>
    decreases n,
{
    if n == 0 {
        toks[i].kind->Ident_0@
    } else {
        dotted_text(toks, i, (n - 1) as nat) + seq!['.'] + toks[i + 2 * n].kind->Ident_0@
    }
}

/// A dotted name at index `i` (`a.b.c`, a single name included): its text
/// and the number of tokens it takes.
pub open spec fn dotted_at(toks: Seq<Token>, i: int) -> Option<(Seq<char>, nat)> {
    if 0 <= i < toks.len() && toks[i].kind is Ident {
        Some((dotted_text(toks, i, dot_len(toks, i)), 2 * dot_len(toks, i) + 1))
    } else {
        None
    }
}

/// The name of a plain type name at index `i`: an identifier other than
/// `_`, not followed by `.` or `[` (which would make it a path or a
/// generic type).
pub open spec fn type_name_at(toks: Seq<Token>, i: int) -> Option<Seq<char>> {
    if 0 <= i && i + 1 < toks.len() && !(toks[i + 1].kind is Dot) && !(toks[i + 1].kind is LBracket) {
        match toks[i].kind {
            TokenKind::Ident(name) => if name@ != "_"@ {
                Some(name@)
            } else {
                None
            },
            _ => None,
        }
    } else {
        None
    }
}

/// How many `|` tokens, each followed by a plain type name, come after the
/// type name at `i`.
pub open spec fn union_len(toks: Seq<Token>, i: int) -> nat
    decreases toks.len() - i,
{
    if 0 <= i && i + 2 < toks.len() && toks[i + 1].kind is Pipe && type_name_at(toks, i + 2) is Some {
        1 + union_len(toks, i + 2)
    } else {
        0
    }
}

/// The facts behind the `j`-th `| name` of a union of names.
pub proof fn lemma_union_pair(toks: Seq<Token>, i: int, j: int)
    requires
        0 <= j < union_len(toks, i),
    ensures
        0 <= i,
        i + 2 * j + 2 < toks.len(),
        toks[i + 2 * j + 1].kind is Pipe,
        type_name_at(toks, i + 2 * j + 2) is Some,
        union_len(toks, i) == j + 1 + union_len(toks, i + 2 * j + 2),
    decreases j,
{
    if j > 0 {
        lemma_union_pair(toks, i + 2, j - 1);
    }
}

/// When a type at index `i` is plain names joined by `|` (`int | str |
/// none_t`, a single name included), followed by a token that neither
/// continues the union nor makes a function type: the names in order and
/// the number of tokens they take.
pub open spec fn type_names_at(toks: Seq<Token>, i: int) -> Option<(Seq<Seq<char>>, nat)> {
    let n = union_len(toks, i);
    let e = i + 2 * n + 1;
    if type_name_at(toks, i) is Some && e < toks.len() && !(toks[e].kind is Pipe) && !(toks[e].kind is Arrow) {
        Some((Seq::new(n + 1, |k: int| type_name_at(toks, i + 2 * k)->Some_0), (2 * n + 1) as nat))
    } else {
        None
    }
}

/// Generic arguments from index `j` that are plain type names (see
/// `type_name_at`) separated by `,` and closed by `]`: the names in order and
/// the index of the `]`.
pub open spec fn generic_args_at(toks: Seq<Token>, j: int) -> Option<(Seq<Seq<char>>, int)>
    decreases toks.len() - j,
{
    if 0 <= j && j + 1 < toks.len() {
        match type_name_at(toks, j) {
            Some(a) => if toks[j + 1].kind is RBracket {
                Some((seq![a], j + 1))
            } else if toks[j + 1].kind is Comma && j + 2 < toks.len() && !(toks[j + 2].kind is RBracket) {
                match generic_args_at(toks, j + 2) {
                    Some((rest, e)) => Some((seq![a] + rest, e)),
                    None => None,
                }
            } else {
                None
            },
            None => None,
        }
    } else {
        None
    }
}

/// A generic type `Name[A, B, ...]` at index `i` whose arguments are plain
/// type names: the name, the argument names and the index of the `]`.
pub open spec fn generic_at(toks: Seq<Token>, i: int) -> Option<(Seq<char>, Seq<Seq<char>>, int)> {
    if 0 <= i && i + 2 < toks.len() && toks[i].kind is Ident && toks[i].kind->Ident_0@ != "_"@ && toks[i
        + 1].kind is LBracket {
        match generic_args_at(toks, i + 2) {
            Some((args, e)) => Some((toks[i].kind->Ident_0@, args, e)),
            None => None,
        }
    } else {
        None
    }
}

/// `generic_args_at` ends past where it starts.
pub proof fn lemma_generic_args_end(toks: Seq<Token>, j: int)
    requires
        generic_args_at(toks, j) is Some,
    ensures
        j < generic_args_at(toks, j)->Some_0.1 < toks.len(),
        generic_args_at(toks, j)->Some_0.0.len() >= 1,
        toks[generic_args_at(toks, j)->Some_0.1].kind is RBracket,
    decreases toks.len() - j,
{
    if !(toks[j + 1].kind is RBracket) {
        lemma_generic_args_end(toks, j + 2);
    }
}

/// The name of a type written as a bare name, without arguments.
pub open spec fn bare_name(te: TypeExpr) -> Option<Seq<char>> {
    match te {
        TypeExpr::Named { name, args, .. } => if args@.len() == 0 {
            Some(name@)
        } else {
            None
        },
        _ => None,
    }
}

/// Whether a parsed type is the given names: the bare name itself for one
/// name, and for several a single flat union of the bare names in order.
pub open spec fn is_type_of_names(te: TypeExpr, names: Seq<Seq<char>>) -> bool {
    if names.len() == 1 {
        bare_name(te) == Some(names[0])
    } else {
        &&& te matches TypeExpr::Union { types, .. }
        &&& te->Union_types@.len() == names.len()
        &&& forall|k: int| 0 <= k < names.len() ==> bare_name(#[trigger] te->Union_types@[k]) == Some(names[k])
    }
}

/// The span of the first `j + 1` of the `|`-joined type names from `i`:
/// the first name's span merged, in turn, with each further name's.
pub open spec fn names_span(toks: Seq<Token>, i: int, j: nat) -> Span
    decreases j,
{
    if j == 0 {
        toks[i].span
    } else {
        names_span(toks, i, (j - 1) as nat).spec_merge(toks[i + 2 * j].span)
    }
}

/// Whether the spans of a parsed type of `n` `|`-joined names from `i`
/// are those of the names: one name's own span, or, for a union, each
/// member's name span and all of them merged (see `names_span`).
pub open spec fn type_spans_at(te: TypeExpr, toks: Seq<Token>, i: int, n: nat) -> bool {
    if n == 1 {
        te.spec_span() == toks[i].span
    } else {
        &&& te matches TypeExpr::Union { span, .. }
        &&& te->Union_span == names_span(toks, i, (n - 1) as nat)
        &&& forall|k: int| 0 <= k < n ==> (#[trigger] te->Union_types@[k]).spec_span() == toks[i + 2 * k].span
    }
}

/// A plain field declaration at index `i` in a class body, ended by a
/// newline: a name, `:`, plain type names joined by `|` (see
/// `type_names_at`), and optionally `=` and a sum of atoms (see `sum_at`)
/// as its default. The name, the type's names, the default and the number
/// of tokens it takes, the newline included.
pub open spec fn field_at(toks: Seq<Token>, i: int) -> Option<(Seq<char>, Seq<Seq<char>>, Option<Expr>, nat)> {
    if 0 <= i && i + 1 < toks.len() && toks[i].kind is Ident && toks[i + 1].kind is Colon {
        let name = toks[i].kind->Ident_0@;
        match type_names_at(toks, i + 2) {
            Some((names, w)) => {
                let e = i + 2 + w;
                if e < toks.len() && toks[e].kind is Newline {
                    Some((name, names, None, w + 3))
                } else if e < toks.len() && toks[e].kind is Eq {
                    match sum_at(toks, e + 1) {
                        Some((d, w2)) => if e + 1 + w2 < toks.len() && toks[e + 1 + w2].kind is Newline {
                            Some((name, names, Some(d), w + w2 + 4))
                        } else {
                            None
                        },
                        None => None,
                    }
                } else {
                    None
                }
            },
            None => None,
        }
    } else {
        None
    }
}

/// A recursive-descent parser over a token stream that ends with `Eof`.
pub struct Parser {
    tokens: Vec<Token>,
    cursor: usize,
}

/// `a` and `b` agree on everything but `Eof` (used to show that matching a
/// non-`Eof` kind consumes the token).
pub proof fn lemma_same_as_eof(a: TokenKind, b: TokenKind)
    requires
        a.same_as(b),
    ensures
        (a is Eof) <==> (b is Eof),
{
    match a {
        TokenKind::Eof => match b {
            TokenKind::Eof => {},
            _ => {},
        },
        _ => match b {
            TokenKind::Eof => {},
            _ => {},
        },
    }
}

/// A token alike to `Newline` is a newline.
pub proof fn lemma_same_as_newline(a: TokenKind)
    requires
        a.same_as(TokenKind::Newline),
    ensures
        a is Newline,
{
    match a {
        TokenKind::Newline => {},
        _ => {},
    }
}

impl Parser {
    /// The token stream is non-empty, ends with `Eof`, and the cursor is on a token.
    pub closed spec fn wf(&self) -> bool {
        &&& self.tokens@.len() >= 1
        &&& self.tokens@.last().kind is Eof
        &&& self.cursor < self.tokens@.len()
    }

    pub closed spec fn token_seq(&self) -> Seq<Token> {
        self.tokens@
    }

    pub closed spec fn position(&self) -> nat {
        self.cursor as nat
    }

    /// Tokens not yet consumed (the cursor's own included).
    pub closed spec fn remaining(&self) -> int {
        self.tokens@.len() - self.cursor
    }

    /// The token under the cursor.
    pub closed spec fn current(&self) -> Token {
        self.tokens@[self.cursor as int]
    }

    /// The expression at the cursor when it is a single atom token (see
    /// `atom_expr`) followed by a token that does not extend it as an
    /// operand of `**` (see `ends_power`).
    pub open spec fn power_atom(&self) -> Option<Expr> {
        if self.position() + 1 < self.token_seq().len() && ends_power(self.token_seq()[self.position() + 1int].kind) {
            atom_expr(self.current())
        } else {
            None
        }
    }

    /// When the cursor starts a product of atom tokens (`a * b / c`, a
    /// single atom included) and the token after it does not extend it: the
    /// expression, grouped to the left, and the number of tokens it takes.
    pub open spec fn atom_product(&self) -> Option<(Expr, nat)> {
        let toks = self.token_seq();
        let i = self.position() as int;
        let e = prod_end(toks, i);
        if atom_expr(toks[i]) is Some && e < toks.len() && ends_factor(toks[e].kind) {
            Some((prod_expr(toks, i, prod_len(toks, i)), (e - i) as nat))
        } else {
            None
        }
    }

    /// The sum of atoms at the cursor (see `sum_at`).
    pub open spec fn atom_sum(&self) -> Option<(Expr, nat)> {
        sum_at(self.token_seq(), self.position() as int)
    }

    /// The simple statement at the cursor (see `simple_stmt_of`).
    pub open spec fn simple_stmt_at(&self) -> Option<(Stmt, nat)> {
        simple_stmt_of(self.token_seq(), self.position() as int)
    }

    /// `self` is a later state of `before`: same tokens, cursor not moved back.
    pub closed spec fn steps(&self, before: &Parser) -> bool {
        &&& self.wf()
        &&& self.tokens@ == before.tokens@
        &&& self.cursor >= before.cursor
    }

    /// `self` is a later state of `before` that consumed at least one token.
    pub closed spec fn moved(&self, before: &Parser) -> bool {
        &&& self.steps(before)
        &&& self.cursor > before.cursor
    }

    pub fn new(tokens: Vec<Token>) -> (p: Self)
        requires
            tokens@.len() >= 1,
            tokens@.last().kind is Eof,
        ensures
            p.wf(),
            p.token_seq() == tokens@,
            p.position() == 0,
    {
        Parser { tokens, cursor: 0 }
    }

    fn peek(&self) -> (t: &Token)
        requires
            self.wf(),
        ensures
            *t == self.current(),
    {
        &self.tokens[self.cursor]
    }

    fn peek_kind(&self) -> (k: &TokenKind)
        requires
            self.wf(),
        ensures
            *k == self.current().kind,
    {
        &self.tokens[self.cursor].kind
    }

    fn peek_span(&self) -> (s: Span)
        requires
            self.wf(),
        ensures
            s == self.current().span,
    {
        self.tokens[self.cursor].span
    }

    /// Whether a token follows the current one.
    fn has_next(&self) -> (r: bool)
        requires
            self.wf(),
        ensures
            r == (self.cursor + 1 < self.tokens@.len()),
    {
        self.cursor < self.tokens.len() - 1
    }

    /// Whether the token after the current one exists and is alike to `kind`.
    fn next_is(&self, kind: &TokenKind) -> (r: bool)
        requires
            self.wf(),
        ensures
            r == (self.cursor + 1 < self.tokens@.len() && self.tokens@[self.cursor + 1].kind.same_as(*kind)),
    {
        if self.cursor < self.tokens.len() - 1 {
            self.tokens[self.cursor + 1].kind.same_kind(kind)
        } else {
            false
        }
    }

    fn advance(&mut self) -> (t: Token)
        requires
            old(self).wf(),
        ensures
            final(self).steps(old(self)),
            t == old(self).current(),
            final(self).cursor == (if old(self).cursor + 1 < old(self).tokens@.len() {
                old(self).cursor + 1
            } else {
                old(self).cursor as int
            }),
            !(old(self).current().kind is Eof) ==> final(self).moved(old(self)),
    {
        let tok = self.peek().duplicate();
        if self.cursor < self.tokens.len() - 1 {
            self.cursor = self.cursor + 1;
        }
        tok
    }

    fn check(&self, kind: &TokenKind) -> (r: bool)
        requires
            self.wf(),
        ensures
            r == self.current().kind.same_as(*kind),
    {
        self.peek_kind().same_kind(kind)
    }

    fn match_tok(&mut self, kind: &TokenKind) -> (r: bool)
        requires
            old(self).wf(),
        ensures
            final(self).steps(old(self)),
            r == old(self).current().kind.same_as(*kind),
            !r ==> final(self).cursor == old(self).cursor,
            r && !(*kind is Eof) ==> final(self).moved(old(self)) && final(self).cursor == old(self).cursor + 1,
    {
        if self.check(kind) {
            proof {
                lemma_same_as_eof(self.current().kind, *kind);
            }
            self.advance();
            true
        } else {
            false
        }
    }

    fn expect(&mut self, kind: &TokenKind) -> (r: Result<Token, ParseError>)
        requires
            old(self).wf(),
        ensures
            final(self).steps(old(self)),
            r is Ok <==> old(self).current().kind.same_as(*kind),
            r matches Ok(t) ==> t == old(self).current(),
            r is Ok && !(*kind is Eof) ==> final(self).moved(old(self)),
            r is Ok && !(*kind is Eof) ==> final(self).position() == old(self).position() + 1,
            r is Err ==> final(self).cursor == old(self).cursor,
    {
        if self.check(kind) {
            proof {
                lemma_same_as_eof(self.current().kind, *kind);
            }
            Ok(self.advance())
        } else {
            let mut message = String::from_str("expected ");
            let k = kind.describe();
            message.append(k.as_str());
            message.append(", found ");
            let f = self.peek_kind().describe();
            message.append(f.as_str());
            Err(ParseError { message, span: self.peek_span() })
        }
    }

    fn skip_newlines(&mut self)
        requires
            old(self).wf(),
        ensures
            final(self).steps(old(self)),
            !(final(self).current().kind is Newline),
            !(old(self).current().kind is Newline) ==> final(self).position() == old(self).position(),
            forall|k: int| old(self).position() <= k < final(self).position() ==> (#[trigger] final(self).token_seq()[k]).kind is Newline,
    {
        while self.check(&TokenKind::Newline)
            invariant
                self.steps(old(self)),
                !(old(self).current().kind is Newline) ==> self.position() == old(self).position(),
                forall|k: int| old(self).position() <= k < self.position() ==> (#[trigger] self.token_seq()[k]).kind is Newline,
            decreases self.remaining(),
        {
            let ghost s0 = *self;
            proof {
                lemma_same_as_newline(s0.current().kind);
            }
            self.advance();
            proof {
                assert forall|k: int| old(self).position() <= k < self.position() implies (#[trigger] self.token_seq()[k]).kind is Newline by {
                    assert(self.token_seq()[k] == s0.token_seq()[k]);
                }
            }
        }
    }

    fn error_here(&self, prefix: &str) -> (e: ParseError)
        requires
            self.wf(),
        ensures
            e.message@ == prefix@ + self.current().kind.spec_describe(),
            e.span == self.current().span,
    {
        let mut message = String::from_str(prefix);
        let f = self.peek_kind().describe();
        message.append(f.as_str());
        ParseError { message, span: self.peek_span() }
    }

    fn consume_stmt_end(&mut self) -> (r: Result<(), ParseError>)
        requires
            old(self).wf(),
        ensures
            final(self).steps(old(self)),
            r is Ok <==> (old(self).current().kind is Newline || old(self).current().kind is Semi
                || old(self).current().kind is Eof || old(self).current().kind is Dedent),
            old(self).current().kind is Newline || old(self).current().kind is Semi ==> final(self).position()
                == old(self).position() + 1,
    {
        if self.match_tok(&TokenKind::Newline) || self.match_tok(&TokenKind::Semi) || self.check(&TokenKind::Eof)
            || self.check(&TokenKind::Dedent) {
            Ok(())
        } else {
            Err(self.error_here("expected newline or semicolon at statement end, found "))
        }
    }

    fn expect_ident(&mut self) -> (r: Result<String, ParseError>)
        requires
            old(self).wf(),
        ensures
            final(self).steps(old(self)),
            r is Ok <==> old(self).current().kind is Ident,
            r matches Ok(name) ==> final(self).moved(old(self)) && old(self).current().kind == TokenKind::Ident(name),
            r is Ok ==> final(self).position() == old(self).position() + 1,
            r is Err ==> final(self).cursor == old(self).cursor,
    {
        match self.peek_kind() {
            TokenKind::Ident(name) => {
                let name = name.clone();
                self.advance();
                Ok(name)
            },
            _ => Err(self.error_here("expected identifier, found ")),
        }
    }

    /// Parses a dotted name (`a.b.c`). It succeeds exactly when the cursor is
    /// on a dotted name (see `dotted_at`) not followed by a stray `.`, and
    /// gives its text.
    fn parse_dotted_name(&mut self) -> (r: Result<String, ParseError>)
        requires
            old(self).wf(),
        ensures
            final(self).steps(old(self)),
            r is Ok ==> final(self).moved(old(self)),
            r is Ok <==> (dotted_at(old(self).token_seq(), old(self).position() as int) matches Some((_, w))
                && !(old(self).token_seq()[old(self).position() + w as int].kind is Dot)),
            dotted_at(old(self).token_seq(), old(self).position() as int) matches Some((s, w)) ==> (r matches Ok(name)
                ==> name@ == s && final(self).position() == old(self).position() + w),
    {
        let ghost toks = self.token_seq();
        let ghost p0 = self.position() as int;
        let mut name = self.expect_ident()?;
        let ghost mut k: int = 0;
        while self.match_tok(&TokenKind::Dot)
            invariant
                self.moved(old(self)),
                toks == self.token_seq(),
                toks == old(self).token_seq(),
                p0 == old(self).position(),
                toks[p0].kind is Ident,
                0 <= k <= dot_len(toks, p0),
                dot_len(toks, p0) == k + dot_len(toks, p0 + 2 * k),
                self.position() == p0 + 2 * k + 1,
                name@ == dotted_text(toks, p0, k as nat),
            decreases self.remaining(),
        {
            name.push('.');
            let ghost q = p0 + 2 * k;
            let part = match self.expect_ident() {
                Ok(part) => part,
                Err(e) => {
                    proof {
                        assert(dot_len(toks, q) == 0);
                    }
                    return Err(e);
                },
            };
            name.append(part.as_str());
            proof {
                assert(dot_len(toks, q) == 1 + dot_len(toks, q + 2));
                k = k + 1;
                assert(name@ =~= dotted_text(toks, p0, k as nat));
            }
        }
        proof {
            assert(dot_len(toks, p0 + 2 * k) == 0);
        }
        Ok(name)
    }

    /// Parses statements up to the end of the token stream. A module of
    /// simple statements and blank lines parses to those statements in
    /// order (see `simple_module`).
    pub fn parse_module(&mut self) -> (r: Result<Module, ParseError>)
        requires
            old(self).wf(),
        ensures
            final(self).steps(old(self)),
            r is Ok ==> final(self).current().kind is Eof,
            simple_module(old(self).token_seq(), old(self).position() as int) matches Some(ss) ==> r matches Ok(
                m,
            ) && m.statements@ == ss,
    {
        let ghost toks = self.token_seq();
        let ghost whole = simple_module(toks, self.position() as int);
        let ghost p_start = self.position() as int;
        self.skip_newlines();
        proof {
            lemma_simple_module_skip(toks, p_start, self.position() as int);
            assert(Seq::<Stmt>::empty() + simple_module(toks, self.position() as int)->Some_0 =~= simple_module(
                toks,
                self.position() as int,
            )->Some_0);
        }
        let start_span = self.peek_span();
        let mut statements: Vec<Stmt> = Vec::new();

        while !self.check(&TokenKind::Eof)
            invariant
                self.steps(old(self)),
                toks == self.token_seq(),
                whole == simple_module(toks, old(self).position() as int),
                !(self.current().kind is Newline),
                whole is Some ==> (simple_module(toks, self.position() as int) matches Some(rest) && statements@
                    + rest == whole->Some_0),
            decreases self.remaining(),
        {
            let ghost s0 = *self;
            let ghost rest0 = simple_module(toks, self.position() as int);
            let stmt = self.parse_statement()?;
            statements.push(stmt);
            let ghost p1 = self.position() as int;
            self.skip_newlines();
            proof {
                lemma_simple_module_skip(toks, p1, self.position() as int);
                if whole is Some {
                    let rest = rest0->Some_0;
                    assert(rest == seq![stmt] + simple_module(toks, p1)->Some_0);
                    assert(statements@ + simple_module(toks, self.position() as int)->Some_0 =~= whole->Some_0);
                }
            }
        }
        proof {
            if whole is Some {
                assert(simple_module(toks, self.position() as int) == Some(Seq::<Stmt>::empty()));
                assert(statements@ =~= whole->Some_0);
            }
        }

        let end_span = self.peek_span();
        Ok(Module { statements, span: start_span.merge(end_span) })
    }

    /// Parses one statement after any blank lines. A simple statement
    /// ended by a newline (`break`, `continue`, `pass`, `return`, a sum of
    /// atoms, or an assignment of one) parses to that statement (see
    /// `simple_stmt_of`). A compound statement or declaration that starts at
    /// the cursor parses as its own parser gives it (`while_result`,
    /// `if_result`, `class_result` and the others).
    #[verifier::spinoff_prover]
    #[verifier::rlimit(100)]
    pub fn parse_statement(&mut self) -> (r: Result<Stmt, ParseError>)
        requires
            old(self).wf(),
        ensures
            final(self).steps(old(self)),
            r is Ok ==> final(self).moved(old(self)),
            old(self).simple_stmt_at() matches Some((st, w)) ==> r == Ok::<Stmt, ParseError>(st)
                && final(self).position() == old(self).position() + w,
            ({
                let toks = old(self).token_seq();
                let p = old(self).position() as int;
                let end = final(self).position() as int;
                !(toks[p].kind is Newline) && !(toks[p].kind is At) ==> {
                    &&& toks[p].kind is While ==> while_result(toks, p, r, end)
                    &&& toks[p].kind is For ==> for_result(toks, p, r, end)
                    &&& toks[p].kind is Let ==> let_result(toks, p, r, end)
                    &&& toks[p].kind is Import ==> import_result(toks, p, r, end)
                    &&& toks[p].kind is From ==> from_import_result(toks, p, r, end)
                    &&& toks[p].kind is If ==> if_result(toks, p, r, end)
                    &&& toks[p].kind is Try ==> try_result(toks, p, r, end)
                    &&& toks[p].kind is Match ==> match_result(toks, p, r, end)
                    &&& toks[p].kind is With ==> with_result(toks, p, r, end)
                    &&& toks[p].kind is Type ==> type_alias_result(toks, p, r, end)
                    &&& toks[p].kind is Class ==> class_result(toks, p, r, end)
                    &&& toks[p].kind is Interface ==> interface_result(toks, p, r, end)
                    &&& toks[p].kind is Trait ==> trait_result(toks, p, r, end)
                    &&& toks[p].kind is Implement ==> implement_result(toks, p, r, end)
                }
            }),
        decreases old(self).remaining(), 41int,
    {
        let ghost claim = old(self).simple_stmt_at() is Some;
        let ghost plain = !(old(self).current().kind is Newline) && !(old(self).current().kind is At);
        self.skip_newlines();
        let start = self.peek_span();
        let ghost p0 = self.position() as int;

        // Check for export prefix
        if self.match_tok(&TokenKind::Export) {
            let inner = self.parse_statement()?;
            return Ok(Stmt::Export(Box::new(inner)));
        }

        // Decorators for functions/classes
        let ghost entry = *old(self);
        let mut decorators: Vec<Expr> = Vec::new();
        while self.match_tok(&TokenKind::At)
            invariant
                self.steps(&entry),
                decorators@.len() > 0 ==> self.moved(&entry),
                entry == *old(self),
                claim == (old(self).simple_stmt_at() is Some),
                claim ==> self.position() == old(self).position(),
                plain == (!(old(self).current().kind is Newline) && !(old(self).current().kind is At)),
                plain ==> self.position() == old(self).position(),
                decorators@.len() == 0 ==> self.position() == p0,
                0 <= p0 < self.token_seq().len(),
                start == self.token_seq()[p0].span,
            decreases self.remaining(),
        {
            let dec = self.parse_expr()?;
            self.consume_stmt_end()?;
            decorators.push(dec);
            self.skip_newlines();
        }

        let is_final_var = match self.peek_kind() {
            TokenKind::Final => self.has_next() && !self.next_is(&TokenKind::Class),
            _ => false,
        };
        if is_final_var {
            self.advance();
            let pattern = self.parse_pattern()?;
            let type_annotation = if self.match_tok(&TokenKind::Colon) {
                Some(self.parse_type_expr()?)
            } else {
                None
            };
            self.expect(&TokenKind::Eq)?;
            let value = Some(self.parse_expr()?);
            self.consume_stmt_end()?;
            return Ok(Stmt::VarDef { pattern, type_annotation, value, is_let: true, is_final: true, span: start });
        }
        self.parse_statement_kind(decorators, start)
    }

    /// Parses the statement that starts at the cursor, after any blank
    /// lines, decorators and `export` (see `parse_statement`).
    #[verifier::spinoff_prover]
    #[verifier::rlimit(100)]
    fn parse_statement_kind(&mut self, decorators: Vec<Expr>, start: Span) -> (r: Result<Stmt, ParseError>)
        requires
            old(self).wf(),
            old(self).simple_stmt_at() is Some && decorators@.len() == 0 ==> start == old(self).current().span,
        ensures
            final(self).steps(old(self)),
            r is Ok ==> final(self).moved(old(self)),
            decorators@.len() == 0 ==> (old(self).simple_stmt_at() matches Some((st, w)) ==> r == Ok::<Stmt, ParseError>(st)
                && final(self).position() == old(self).position() + w),
            ({
                let toks = old(self).token_seq();
                let p = old(self).position() as int;
                let end = final(self).position() as int;
                !(toks[p].kind is Newline) && !(toks[p].kind is At) ==> {
                    &&& toks[p].kind is While ==> while_result(toks, p, r, end)
                    &&& toks[p].kind is For ==> for_result(toks, p, r, end)
                    &&& toks[p].kind is Let ==> let_result(toks, p, r, end)
                    &&& toks[p].kind is Import ==> import_result(toks, p, r, end)
                    &&& toks[p].kind is From ==> from_import_result(toks, p, r, end)
                    &&& toks[p].kind is If ==> if_result(toks, p, r, end)
                    &&& toks[p].kind is Try ==> try_result(toks, p, r, end)
                    &&& toks[p].kind is Match ==> match_result(toks, p, r, end)
                    &&& toks[p].kind is With ==> with_result(toks, p, r, end)
                    &&& toks[p].kind is Type ==> type_alias_result(toks, p, r, end)
                    &&& toks[p].kind is Class ==> class_result(toks, p, r, end)
                    &&& toks[p].kind is Interface ==> interface_result(toks, p, r, end)
                    &&& toks[p].kind is Trait ==> trait_result(toks, p, r, end)
                    &&& toks[p].kind is Implement ==> implement_result(toks, p, r, end)
                }
            }),
        decreases old(self).remaining(), 40int,
    {
        match self.peek_kind() {
            TokenKind::Class | TokenKind::Sealed | TokenKind::Final => self.parse_class_def(),
            TokenKind::Interface => self.parse_interface_def(),
            TokenKind::Trait => self.parse_trait_def(),
            TokenKind::Implement => self.parse_implement_def(),
            TokenKind::Dispatch => {
                self.advance();
                self.parse_function_def(true, decorators)
            },
            TokenKind::Def => self.parse_function_def(false, decorators),
            TokenKind::Factory => {
                self.advance();
                self.match_tok(&TokenKind::Def);
                let func = self.parse_raw_function(false, decorators)?;
                Ok(Stmt::Function(func))
            },
            TokenKind::Type => self.parse_type_alias(),
            TokenKind::Let => self.parse_let_stmt(),
            TokenKind::With => self.parse_with_stmt(),
            TokenKind::If => self.parse_if_stmt(),
            TokenKind::For => self.parse_for_stmt(),
            TokenKind::While => self.parse_while_stmt(),
            TokenKind::Match => self.parse_match_stmt(),
            TokenKind::Try => self.parse_try_stmt(),
            TokenKind::Return => self.parse_return_stmt(),
            TokenKind::Raise => {
                self.advance();
                let exception = self.parse_expr()?;
                self.consume_stmt_end()?;
                Ok(Stmt::Raise { exception, span: start })
            },
            TokenKind::Break => {
                self.advance();
                self.consume_stmt_end()?;
                Ok(Stmt::Break(start))
            },
            TokenKind::Continue => {
                self.advance();
                self.consume_stmt_end()?;
                Ok(Stmt::Continue(start))
            },
            TokenKind::Pass => {
                self.advance();
                self.consume_stmt_end()?;
                Ok(Stmt::Pass(start))
            },
            TokenKind::Import => self.parse_import_stmt(),
            TokenKind::From => self.parse_from_import_stmt(),
            _ => self.parse_expr_or_assign_stmt(),
        }
    }

    /// Parses `return`, with no value, one expression, or several as a
    /// record.
    fn parse_return_stmt(&mut self) -> (r: Result<Stmt, ParseError>)
        requires
            old(self).wf(),
            old(self).current().kind is Return,
        ensures
            final(self).steps(old(self)),
            r is Ok ==> final(self).moved(old(self)),
            old(self).simple_stmt_at() matches Some((st, w)) ==> r == Ok::<Stmt, ParseError>(st)
                && final(self).position() == old(self).position() + w,
        decreases old(self).remaining(), 39int,
    {
        let ghost claim = old(self).simple_stmt_at() is Some;
        let start = self.peek_span();
        self.advance();
        let value = if self.check(&TokenKind::Newline) || self.check(&TokenKind::Eof) || self.check(&TokenKind::Semi) {
            None
        } else {
            let first = self.parse_expr()?;
            if self.match_tok(&TokenKind::Comma) {
                let mut fields: Vec<(Option<String>, Expr)> = Vec::new();
                fields.push((None, first));
                let ghost before_loop = *self;
                while !self.check(&TokenKind::Newline) && !self.check(&TokenKind::Semi) && !self.check(&TokenKind::Eof)
                    invariant
                        self.moved(old(self)),
                        claim == (old(self).simple_stmt_at() is Some),
                        !claim,
                    decreases self.remaining(),
                {
                    let e = self.parse_expr()?;
                    fields.push((None, e));
                    if !self.match_tok(&TokenKind::Comma) {
                        break;
                    }
                }
                Some(Expr::Record { fields, span: start })
            } else {
                Some(first)
            }
        };
        self.consume_stmt_end()?;
        Ok(Stmt::Return { value, span: start })
    }

    /// Parses `with expr [as target], ...: block`. `with` a single sum of
    /// atoms and a block of simple statements parses to exactly that
    /// statement.
    #[verifier::spinoff_prover]
    #[verifier::rlimit(50)]
    fn parse_with_stmt(&mut self) -> (r: Result<Stmt, ParseError>)
        requires
            old(self).wf(),
        ensures
            final(self).steps(old(self)),
            r is Ok ==> final(self).moved(old(self)),
            with_result(old(self).token_seq(), old(self).position() as int, r, final(self).position() as int),
        decreases old(self).remaining(), 35int,
    {
        let ghost toks = old(self).token_seq();
        let ghost p0 = old(self).position() as int;
        let ghost w = sum_at(toks, p0 + 1)->Some_0.1;
        let ghost claim = old(self).current().kind is With && sum_at(toks, p0 + 1) is Some && block_at(toks, p0 + 1 + w)
            is Some;
        let start = self.peek_span();
        self.expect(&TokenKind::With)?;
        let mut items: Vec<WithItem> = Vec::new();
        loop
            invariant_except_break
                claim ==> self.position() == p0 + 1 && items@.len() == 0,
            invariant
                self.moved(old(self)),
                toks == old(self).token_seq(),
                p0 == old(self).position(),
                w == sum_at(toks, p0 + 1)->Some_0.1,
                claim == (old(self).current().kind is With && sum_at(toks, p0 + 1) is Some && block_at(
                    toks,
                    p0 + 1 + w,
                ) is Some),
            ensures
                claim ==> self.position() == p0 + 1 + w && items@.len() == 1 && items@[0].context_expr == sum_at(
                    toks,
                    p0 + 1,
                )->Some_0.0 && items@[0].target is None,
            decreases self.remaining(),
        {
            let context_expr = self.parse_expr()?;
            let target = if self.match_tok(&TokenKind::As) {
                Some(self.parse_pattern()?)
            } else {
                None
            };
            items.push(WithItem { context_expr, target });
            if !self.match_tok(&TokenKind::Comma) {
                break;
            }
        }
        let body = self.parse_block()?;
        Ok(Stmt::With { items, body, span: start })
    }

    /// Parses the statements of an indented block up to and with its
    /// `Dedent`. Simple statements and blank lines parse to those statements
    /// (see `block_stmts`).
    fn parse_block_body(&mut self) -> (r: Result<Vec<Stmt>, ParseError>)
        requires
            old(self).wf(),
        ensures
            final(self).steps(old(self)),
            block_stmts(old(self).token_seq(), old(self).position() as int) matches Some((ss, e)) ==> (r matches Ok(v)
                && v@ == ss && final(self).position() == e),
        decreases old(self).remaining(), 42int,
    {
        let ghost toks = self.token_seq();
        let ghost claim = block_stmts(toks, self.position() as int) is Some;
        let mut stmts: Vec<Stmt> = Vec::new();
        let ghost p3 = self.position() as int;
        self.skip_newlines();
        proof {
            lemma_block_stmts_skip(toks, p3, self.position() as int);
            if claim {
                assert(Seq::<Stmt>::empty() + block_stmts(toks, self.position() as int)->Some_0.0 =~= block_stmts(
                    toks,
                    p3,
                )->Some_0.0);
            }
        }
        while !self.check(&TokenKind::Dedent) && !self.check(&TokenKind::Eof)
            invariant
                self.steps(old(self)),
                toks == self.token_seq(),
                toks == old(self).token_seq(),
                p3 == old(self).position(),
                claim == (block_stmts(toks, p3) is Some),
                !(self.current().kind is Newline),
                claim ==> (block_stmts(toks, self.position() as int) matches Some((rest, e)) && stmts@ + rest
                    == block_stmts(toks, p3)->Some_0.0 && e == block_stmts(toks, p3)->Some_0.1),
            decreases self.remaining(),
        {
            let ghost rest0 = block_stmts(toks, self.position() as int);
            let stmt = self.parse_statement()?;
            stmts.push(stmt);
            let ghost p1 = self.position() as int;
            self.skip_newlines();
            proof {
                lemma_block_stmts_skip(toks, p1, self.position() as int);
                if claim {
                    assert(rest0->Some_0.0 == seq![stmt] + block_stmts(toks, p1)->Some_0.0);
                    assert(stmts@ + block_stmts(toks, self.position() as int)->Some_0.0 =~= block_stmts(toks, p3)->Some_0.0);
                }
            }
        }
        proof {
            if claim {
                assert(stmts@ =~= block_stmts(toks, p3)->Some_0.0);
            }
        }
        self.expect(&TokenKind::Dedent)?;
        Ok(stmts)
    }

    /// Parses a block after `:`: a statement on the same line, or an
    /// indented run of statements. A block of simple statements parses to
    /// those statements (see `block_at`).
    #[verifier::spinoff_prover]
    fn parse_block(&mut self) -> (r: Result<Vec<Stmt>, ParseError>)
        requires
            old(self).wf(),
        ensures
            final(self).steps(old(self)),
            r is Ok ==> final(self).moved(old(self)),
            block_at(old(self).token_seq(), old(self).position() as int) matches Some((ss, w)) ==> (r matches Ok(v)
                && v@ == ss && final(self).position() == old(self).position() + w),
        decreases old(self).remaining(), 35int,
    {
        let ghost toks = self.token_seq();
        let ghost claim = block_at(toks, self.position() as int) is Some;
        self.expect(&TokenKind::Colon)?;
        if self.match_tok(&TokenKind::Newline) {
            self.expect(&TokenKind::Indent)?;

            let stmts = self.parse_block_body()?;
            Ok(stmts)
        } else {
            let stmt = self.parse_statement()?;
            let mut stmts: Vec<Stmt> = Vec::new();
            stmts.push(stmt);
            Ok(stmts)
        }
    }

    /// Parses `( base, ... )` after a class, interface or trait name; `allow_keywords`
    /// skips `name=value` entries (class keyword bases such as `metaclass=...`).
    fn parse_bases(&mut self, allow_keywords: bool) -> (r: Result<Vec<TypeExpr>, ParseError>)
        requires
            old(self).wf(),
        ensures
            final(self).steps(old(self)),
            !(old(self).current().kind is LParen) ==> (r matches Ok(v) && v@.len() == 0 && final(self).position()
                == old(self).position()),
            old(self).current().kind is LParen && old(self).position() + 1 < old(self).token_seq().len()
                && old(self).token_seq()[old(self).position() + 1int].kind is RParen ==> (r matches Ok(v) && v@.len()
                == 0 && final(self).position() == old(self).position() + 2),
            type_name_list_at(old(self).token_seq(), old(self).position() as int) matches Some((n, w)) ==> (r matches Ok(
                v,
            ) && v@.len() == n && (forall|j: int| 0 <= j < n ==> bare_name(#[trigger] v@[j]) == Some(
                old(self).token_seq()[old(self).position() + 1 + 2 * j].kind->Ident_0@,
            )) && final(self).position() == old(self).position() + w),
        decreases old(self).remaining(), 34int,
    {
        let ghost toks = old(self).token_seq();
        let ghost p0 = old(self).position() as int;
        let ghost claim = type_name_list_at(toks, p0) is Some;
        let ghost m = comma_names_len(toks, p0 + 1);
        let mut bases: Vec<TypeExpr> = Vec::new();
        if self.match_tok(&TokenKind::LParen) {
            if !self.check(&TokenKind::RParen) {
                loop
                    invariant_except_break
                        claim ==> self.position() == p0 + 1 + 2 * bases@.len() && bases@.len() <= m && toks[p0 + 1 + 2
                            * bases@.len()].kind is Ident,
                        claim ==> comma_names_len(toks, p0 + 1) == bases@.len() + comma_names_len(
                            toks,
                            p0 + 1 + 2 * bases@.len(),
                        ),
                    invariant
                        self.moved(old(self)),
                        old(self).current().kind is LParen,
                        !(old(self).position() + 1 < old(self).token_seq().len()
                            && old(self).token_seq()[old(self).position() + 1int].kind is RParen),
                        toks == old(self).token_seq(),
                        p0 == old(self).position(),
                        m == comma_names_len(toks, p0 + 1),
                        claim == (type_name_list_at(toks, p0) is Some),
                        claim ==> forall|j: int| 0 <= j < bases@.len() ==> bare_name(#[trigger] bases@[j]) == Some(
                            toks[p0 + 1 + 2 * j].kind->Ident_0@,
                        ),
                    ensures
                        claim ==> self.position() == p0 + 2 + 2 * m && bases@.len() == m + 1,
                    decreases self.remaining(),
                {
                    let ghost k = bases@.len() as int;
                    let ghost q = p0 + 1 + 2 * k;
                    proof {
                        if claim {
                            if comma_names_len(toks, q) == 0 {
                                assert(k == m);
                                assert(toks[q + 1].kind is RParen);
                            } else {
                                assert(toks[q + 1].kind is Comma);
                            }
                            assert(toks[p0 + 1 + 2 * k].kind->Ident_0@ != seq!['_']);
                            reveal_strlit("_");
                            assert("_"@ =~= seq!['_']);
                            assert(type_name_at(toks, q) == Some(toks[q].kind->Ident_0@));
                            assert(union_len(toks, q) == 0);
                            assert(type_names_at(toks, q) is Some);
                            assert(type_names_at(toks, q)->Some_0.0 =~= seq![toks[q].kind->Ident_0@]);
                        }
                    }
                    // Check for keyword base: metaclass=...
                    let is_keyword = allow_keywords && match self.peek_kind() {
                        TokenKind::Ident(_) => self.next_is(&TokenKind::Eq),
                        _ => false,
                    };
                    if is_keyword {
                        let _kw = self.expect_ident()?;
                        self.advance(); // consume '='
                        let _val = self.parse_expr()?;
                    } else {
                        bases.push(self.parse_type_expr()?);
                    }
                    if !self.match_tok(&TokenKind::Comma) {
                        proof {
                            if claim {
                                assert(comma_names_len(toks, q) == 0);
                            }
                        }
                        break;
                    }
                    proof {
                        if claim {
                            if comma_names_len(toks, q) == 0 {
                                assert(k == m);
                            }
                            assert(comma_names_len(toks, q) == 1 + comma_names_len(toks, q + 2));
                        }
                    }
                    if self.check(&TokenKind::RParen) {
                        break;
                    }
                }
            }
            self.expect(&TokenKind::RParen)?;
        }
        Ok(bases)
    }

    /// Parses `[sealed|final] class Name[params](bases) [without traits]:`
    /// and its members. A class with no parameters, bases or `without`, whose
    /// indented body holds plain field declarations and blank lines (see
    /// `fields_block`), parses to exactly those fields in order.
    #[verifier::spinoff_prover]
    #[verifier::rlimit(100)]
    fn parse_class_def(&mut self) -> (r: Result<Stmt, ParseError>)
        requires
            old(self).wf(),
        ensures
            final(self).steps(old(self)),
            r is Ok ==> final(self).moved(old(self)),
            class_result(old(self).token_seq(), old(self).position() as int, r, final(self).position() as int),
        decreases old(self).remaining(), 35int,
    {
        let ghost toks = old(self).token_seq();
        let ghost p0 = old(self).position() as int;
        let ghost one = toks[p0].kind is Class && toks[p0 + 1].kind is Ident && body_opens_at(toks, p0 + 2) && fields_block(
            toks,
            p0 + 5,
        ) is Some;
        let ghost all = fields_block(toks, p0 + 5)->Some_0.0;
        let ghost all_e = fields_block(toks, p0 + 5)->Some_0.1;
        let start = self.peek_span();
        let mut is_sealed = false;
        let mut is_final = false;

        if self.match_tok(&TokenKind::Sealed) {
            is_sealed = true;
        } else if self.match_tok(&TokenKind::Final) {
            is_final = true;
        }

        self.expect(&TokenKind::Class)?;
        let name = self.expect_ident()?;
        let type_params = self.parse_optional_type_params()?;
        let bases = self.parse_bases(true)?;

        let mut without_traits: Vec<String> = Vec::new();
        if self.match_tok(&TokenKind::Without) {
            loop
                invariant
                    self.moved(old(self)),
                    toks == old(self).token_seq(),
                    p0 == old(self).position(),
                    one == (toks[p0].kind is Class && toks[p0 + 1].kind is Ident && body_opens_at(toks, p0 + 2)
                        && fields_block(toks, p0 + 5) is Some),
                    !one,
                decreases self.remaining(),
            {
                without_traits.push(self.expect_ident()?);
                if !self.match_tok(&TokenKind::Comma) {
                    break;
                }
            }
        }

        self.expect(&TokenKind::Colon)?;
        let mut body: Vec<ClassMember> = Vec::new();
        let end;
        if self.match_tok(&TokenKind::Newline) {
            self.expect(&TokenKind::Indent)?;
            let ghost p5 = self.position() as int;
            self.skip_newlines();
            proof {
                if one {
                    lemma_fields_block_skip(toks, p5, self.position() as int);
                    assert(all.subrange(0, all.len() as int) =~= all);
                }
            }

            while !self.check(&TokenKind::Dedent) && !self.check(&TokenKind::Eof)
                invariant
                    self.moved(old(self)),
                    toks == old(self).token_seq(),
                    p0 == old(self).position(),
                    one == (toks[p0].kind is Class && toks[p0 + 1].kind is Ident && body_opens_at(toks, p0 + 2)
                        && fields_block(toks, p0 + 5) is Some),
                    all == fields_block(toks, p0 + 5)->Some_0.0,
                    all_e == fields_block(toks, p0 + 5)->Some_0.1,
                    !(self.current().kind is Newline),
                    one ==> (fields_block(toks, self.position() as int) matches Some((rest, e)) && body@.len() + rest.len()
                        == all.len() && rest == all.subrange(body@.len() as int, all.len() as int) && e == all_e),
                    one ==> forall|k: int| 0 <= k < body@.len() ==> is_field_member(
                        #[trigger] body@[k],
                        all[k].0,
                        all[k].1,
                        all[k].2,
                        toks[all[k].3].span,
                    ),
                decreases self.remaining(),
            {
                let ghost q = self.position() as int;
                let ghost rest0 = fields_block(toks, q)->Some_0.0;
                let ghost len0 = body@.len() as int;
                let member = self.parse_class_member()?;
                body.push(member);
                let ghost q1 = self.position() as int;
                self.skip_newlines();
                proof {
                    if one {
                        let fw = field_at(toks, q)->Some_0.3;
                        assert(q1 == q + fw);
                        lemma_fields_block_skip(toks, q1, self.position() as int);
                        assert(rest0 == seq![
                            (field_at(toks, q)->Some_0.0, field_at(toks, q)->Some_0.1, field_at(toks, q)->Some_0.2, q),
                        ] + fields_block(toks, q1)->Some_0.0);
                        assert(rest0[0] == all[len0]);
                        assert(rest0.subrange(1, rest0.len() as int) =~= fields_block(toks, q1)->Some_0.0);
                        assert(all.subrange(len0 + 1, all.len() as int) =~= rest0.subrange(1, rest0.len() as int));
                        assert(fields_block(toks, q1)->Some_0.0 =~= all.subrange(len0 + 1, all.len() as int));
                    }
                }
            }
            proof {
                if one {
                    assert(body@.len() == all.len());
                }
            }

            end = self.expect(&TokenKind::Dedent)?.span;
        } else {
            let member = self.parse_class_member()?;
            end = self.peek_span();
            body.push(member);
        }

        Ok(Stmt::ClassDef {
            name,
            type_params,
            bases,
            without_traits,
            body,
            is_sealed,
            is_final,
            span: start.merge(end),
        })
    }

    /// Parses an optional `-> type`: without `->` there is none and nothing
    /// is consumed.
    fn parse_optional_return(&mut self) -> (r: Result<Option<TypeExpr>, ParseError>)
        requires
            old(self).wf(),
        ensures
            final(self).steps(old(self)),
            !(old(self).current().kind is Arrow) ==> r == Ok::<Option<TypeExpr>, ParseError>(None)
                && final(self).position() == old(self).position(),
            old(self).current().kind is Arrow ==> (type_names_at(old(self).token_seq(), old(self).position() + 1int)
                matches Some((names, w)) ==> (r matches Ok(Some(te)) && is_type_of_names(te, names)
                && final(self).position() == old(self).position() + 1int + w)),
        decreases old(self).remaining(), 14int,
    {
        if self.match_tok(&TokenKind::Arrow) {
            Ok(Some(self.parse_type_expr()?))
        } else {
            Ok(None)
        }
    }

    /// Parses one member of a class body. A plain field declaration (see
    /// `field_at`) parses to that field; `def` and a plain function (see
    /// `plain_fn_at`) to that method; `factory` with a name, plain
    /// parameters and a block of simple statements to that factory; `pass`
    /// and a newline to a pass marker.
    #[verifier::spinoff_prover]
    #[verifier::rlimit(100)]
    fn parse_class_member(&mut self) -> (r: Result<ClassMember, ParseError>)
        requires
            old(self).wf(),
        ensures
            final(self).steps(old(self)),
            r is Ok ==> final(self).moved(old(self)),
            field_at(old(self).token_seq(), old(self).position() as int) matches Some((name, names, default, w)) ==> (r matches Ok(
                ClassMember::Field(fd),
            ) && fd.name@ == name && is_type_of_names(fd.type_annotation, names) && fd.default == default && fd.doc is None
                && fd.span == old(self).current().span && final(self).position() == old(self).position() + w),
            member_results(old(self).token_seq(), old(self).position() as int, r, final(self).position() as int),
        decreases old(self).remaining(), 35int,
    {
        let ghost claim = field_at(old(self).token_seq(), old(self).position() as int) is Some;
        let ghost shape = old(self).current().kind is Def || old(self).current().kind is Factory
            || old(self).current().kind is Pass;
        proof {
            reveal(member_results);
        }
        let start = self.peek_span();

        let mut decorators: Vec<Expr> = Vec::new();
        while self.match_tok(&TokenKind::At)
            invariant
                self.steps(old(self)),
                claim == (field_at(old(self).token_seq(), old(self).position() as int) is Some),
                claim ==> self.position() == old(self).position(),
                shape == (old(self).current().kind is Def || old(self).current().kind is Factory
                    || old(self).current().kind is Pass),
                shape ==> self.position() == old(self).position() && decorators@.len() == 0,
            decreases self.remaining(),
        {
            proof {
                reveal(member_results);
            }
            let dec = self.parse_expr()?;
            self.consume_stmt_end()?;
            decorators.push(dec);
            self.skip_newlines();
        }

        let is_override = self.match_tok(&TokenKind::Override);
        let _is_final = self.match_tok(&TokenKind::Final);
        let is_dispatch = self.match_tok(&TokenKind::Dispatch);

        if self.match_tok(&TokenKind::Pass) {
            let span = self.peek_span();
            self.consume_stmt_end()?;
            return Ok(ClassMember::Pass(span));
        }

        if self.match_tok(&TokenKind::Ellipsis) {
            let span = self.peek_span();
            self.consume_stmt_end()?;
            return Ok(ClassMember::Ellipsis(span));
        }

        if self.match_tok(&TokenKind::ClassVar) {
            let field_name = self.expect_ident()?;
            self.expect(&TokenKind::Colon)?;
            let type_annotation = self.parse_type_expr()?;
            let default = if self.match_tok(&TokenKind::Eq) {
                Some(self.parse_expr()?)
            } else {
                None
            };
            self.consume_stmt_end()?;
            return Ok(ClassMember::ClassVar(FieldDef { name: field_name, type_annotation, default, doc: None, span: start }));
        }

        if self.match_tok(&TokenKind::Type) {
            let name = self.expect_ident()?;
            let type_params = self.parse_optional_type_params()?;
            self.expect(&TokenKind::Eq)?;
            let val = self.parse_type_expr()?;
            self.consume_stmt_end()?;
            return Ok(ClassMember::TypeAlias { name, type_params, value: TypeAliasValue::Direct(val), span: start });
        }

        if self.match_tok(&TokenKind::Factory) {
            let name = self.expect_ident()?;
            let type_params = self.parse_optional_type_params()?;
            let params = self.parse_param_list()?;
            let return_type = self.parse_optional_return()?;
            let body = self.parse_block()?;
            return Ok(ClassMember::Factory(FactoryDef { name, type_params, params, return_type, body, span: start }));
        }

        if self.match_tok(&TokenKind::Getter) {
            let name = self.expect_ident()?;
            self.expect(&TokenKind::LParen)?;
            self.expect_ident()?; // self
            self.expect(&TokenKind::RParen)?;
            let return_type = self.parse_optional_return()?;
            let body = self.parse_block()?;
            return Ok(ClassMember::Getter(GetterDef { name, return_type, body, span: start }));
        }

        if self.match_tok(&TokenKind::Setter) {
            let name = self.expect_ident()?;
            self.expect(&TokenKind::LParen)?;
            self.expect_ident()?; // self
            self.expect(&TokenKind::Comma)?;
            let param_name = self.expect_ident()?;
            let type_annotation = if self.match_tok(&TokenKind::Colon) {
                Some(self.parse_type_expr()?)
            } else {
                None
            };
            self.expect(&TokenKind::RParen)?;
            let body = self.parse_block()?;
            return Ok(ClassMember::Setter(SetterDef {
                name,
                param: Param {
                    name: param_name,
                    pattern: None,
                    type_annotation,
                    default: None,
                    is_positional_only: false,
                    is_keyword_only: false,
                    is_variadic_positional: false,
                    is_variadic_keyword: false,
                    is_gather: false,
                    span: start,
                },
                body,
                span: start,
            }));
        }

        if self.match_tok(&TokenKind::ClassMethod) {
            let func = self.parse_raw_function(false, decorators)?;
            return Ok(ClassMember::ClassMethod(func));
        }

        if self.match_tok(&TokenKind::Def) {
            proof {
                if shape {
                    assert(decorators@ =~= Seq::<Expr>::empty());
                }
            }
            let member_is_dispatch = is_dispatch || self.match_tok(&TokenKind::Dispatch);
            let mut func = self.parse_raw_function(member_is_dispatch, decorators)?;
            func.is_override = is_override;
            return Ok(ClassMember::Method(func));
        }

        // Field definition: name: Type = default
        let field_name = self.expect_ident()?;
        self.expect(&TokenKind::Colon)?;
        let type_annotation = self.parse_type_expr()?;
        let default = if self.match_tok(&TokenKind::Eq) {
            Some(self.parse_expr()?)
        } else {
            None
        };
        let doc = if self.match_tok(&TokenKind::Colon) {
            self.expect(&TokenKind::Newline)?;
            self.expect(&TokenKind::Indent)?;
            let mut doc_str: Option<String> = None;
            while !self.check(&TokenKind::Dedent) && !self.check(&TokenKind::Eof)
                invariant
                    self.moved(old(self)),
                    claim == (field_at(old(self).token_seq(), old(self).position() as int) is Some),
                    !claim,
                    !(old(self).current().kind is Def || old(self).current().kind is Factory || old(self).current().kind is Pass),
                decreases self.remaining(),
            {
                proof {
                    reveal(member_results);
                }
                let doc_expr = self.parse_expr()?;
                if let Expr::Literal { value: LiteralValue::Str(s), .. } = doc_expr {
                    if doc_str.is_none() {
                        doc_str = Some(s);
                    }
                }
                self.consume_stmt_end()?;
                self.skip_newlines();
            }
            self.expect(&TokenKind::Dedent)?;
            doc_str
        } else {
            None
        };
        if doc.is_none() {
            self.consume_stmt_end()?;
        }

        Ok(ClassMember::Field(FieldDef { name: field_name, type_annotation, default, doc, span: start }))
    }

    /// Parses `interface Name[params](bases):` and its indented members. An
    /// interface with no parameters or bases whose body is a single `pass`
    /// line parses to exactly that interface.
    #[verifier::spinoff_prover]
    #[verifier::rlimit(50)]
    fn parse_interface_def(&mut self) -> (r: Result<Stmt, ParseError>)
        requires
            old(self).wf(),
        ensures
            final(self).steps(old(self)),
            r is Ok ==> final(self).moved(old(self)),
            interface_result(old(self).token_seq(), old(self).position() as int, r, final(self).position() as int),
        decreases old(self).remaining(), 35int,
    {
        let ghost toks = old(self).token_seq();
        let ghost p0 = old(self).position() as int;
        let ghost one = old(self).current().kind is Interface && toks[p0 + 1].kind is Ident && body_opens_at(toks, p0 + 2)
            && toks[p0 + 5].kind is Pass && toks[p0 + 6].kind is Newline && toks[p0 + 7].kind is Dedent;
        let start = self.peek_span();
        self.expect(&TokenKind::Interface)?;
        let name = self.expect_ident()?;
        let type_params = self.parse_optional_type_params()?;
        let bases = self.parse_bases(false)?;

        self.expect(&TokenKind::Colon)?;
        self.expect(&TokenKind::Newline)?;
        self.expect(&TokenKind::Indent)?;

        let mut body: Vec<InterfaceMember> = Vec::new();
        self.skip_newlines();

        while !self.check(&TokenKind::Dedent) && !self.check(&TokenKind::Eof)
            invariant
                self.moved(old(self)),
                toks == old(self).token_seq(),
                p0 == old(self).position(),
                one == (old(self).current().kind is Interface && toks[p0 + 1].kind is Ident && body_opens_at(toks, p0 + 2)
                    && toks[p0 + 5].kind is Pass && toks[p0 + 6].kind is Newline && toks[p0 + 7].kind is Dedent),
                one ==> (self.position() == p0 + 5 && body@.len() == 0) || (self.position() == p0 + 7 && body@ == seq![
                    InterfaceMember::Pass(toks[p0 + 6].span),
                ]),
            decreases self.remaining(),
        {
            body.push(self.parse_interface_member()?);
            self.skip_newlines();
        }

        let end = self.expect(&TokenKind::Dedent)?.span;
        Ok(Stmt::InterfaceDef { name, type_params, bases, body, span: start.merge(end) })
    }

    /// Parses one member of an interface body. `pass` or `...` ended by a
    /// newline parses to that marker, with the span of the newline.
    fn parse_interface_member(&mut self) -> (r: Result<InterfaceMember, ParseError>)
        requires
            old(self).wf(),
        ensures
            final(self).steps(old(self)),
            r is Ok ==> final(self).moved(old(self)),
            old(self).current().kind is Pass && old(self).token_seq()[old(self).position() + 1int].kind is Newline
                ==> r == Ok::<InterfaceMember, ParseError>(
                InterfaceMember::Pass(old(self).token_seq()[old(self).position() + 1int].span),
            ) && final(self).position() == old(self).position() + 2,
            old(self).current().kind is Ellipsis && old(self).token_seq()[old(self).position() + 1int].kind is Newline
                ==> r == Ok::<InterfaceMember, ParseError>(
                InterfaceMember::Ellipsis(old(self).token_seq()[old(self).position() + 1int].span),
            ) && final(self).position() == old(self).position() + 2,
        decreases old(self).remaining(), 35int,
    {
        let start = self.peek_span();

        if self.match_tok(&TokenKind::Pass) {
            let span = self.peek_span();
            self.consume_stmt_end()?;
            return Ok(InterfaceMember::Pass(span));
        }

        if self.match_tok(&TokenKind::Ellipsis) {
            let span = self.peek_span();
            self.consume_stmt_end()?;
            return Ok(InterfaceMember::Ellipsis(span));
        }

        if self.match_tok(&TokenKind::Getter) {
            let name = self.expect_ident()?;
            self.expect(&TokenKind::LParen)?;
            self.expect_ident()?; // self
            self.expect(&TokenKind::RParen)?;
            let return_type = self.parse_optional_return()?;
            self.consume_stmt_end()?;
            return Ok(InterfaceMember::GetterSig { name, return_type, span: start });
        }

        if self.match_tok(&TokenKind::Setter) {
            let name = self.expect_ident()?;
            self.expect(&TokenKind::LParen)?;
            self.expect_ident()?; // self
            self.expect(&TokenKind::Comma)?;
            self.expect_ident()?; // val
            self.expect(&TokenKind::Colon)?;
            let param_type = self.parse_type_expr()?;
            self.expect(&TokenKind::RParen)?;
            self.consume_stmt_end()?;
            return Ok(InterfaceMember::SetterSig { name, param_type, span: start });
        }

        if self.match_tok(&TokenKind::ClassMethod) {
            self.match_tok(&TokenKind::Def);
            let name = self.expect_ident()?;
            let type_params = self.parse_optional_type_params()?;
            let params = self.parse_param_list()?;
            let return_type = self.parse_optional_return()?;
            self.consume_stmt_end()?;
            return Ok(InterfaceMember::ClassMethodSig { name, type_params, params, return_type, span: start });
        }

        if self.match_tok(&TokenKind::Factory) {
            let name = self.expect_ident()?;
            let type_params = self.parse_optional_type_params()?;
            let params = self.parse_param_list()?;
            let return_type = self.parse_optional_return()?;
            self.consume_stmt_end()?;
            return Ok(InterfaceMember::FactorySig { name, type_params, params, return_type, span: start });
        }

        if self.match_tok(&TokenKind::Type) {
            let name = self.expect_ident()?;
            let bound = if self.match_tok(&TokenKind::Colon) {
                Some(self.parse_type_expr()?)
            } else {
                None
            };
            self.consume_stmt_end()?;
            return Ok(InterfaceMember::AssociatedTypeSig { name, bound, span: start });
        }

        if self.match_tok(&TokenKind::Final) {
            let name = self.expect_ident()?;
            self.expect(&TokenKind::Colon)?;
            let type_annotation = self.parse_type_expr()?;
            self.consume_stmt_end()?;
            return Ok(InterfaceMember::FieldSig { name, type_annotation, is_final: true, span: start });
        }

        let is_field = match self.peek_kind() {
            TokenKind::Ident(_) => self.next_is(&TokenKind::Colon),
            _ => false,
        };
        if is_field {
            let name = self.expect_ident()?;
            self.expect(&TokenKind::Colon)?;
            let type_annotation = self.parse_type_expr()?;
            self.consume_stmt_end()?;
            return Ok(InterfaceMember::FieldSig { name, type_annotation, is_final: false, span: start });
        }

        if self.match_tok(&TokenKind::Dispatch) {
            self.match_tok(&TokenKind::Def);
        } else {
            self.expect(&TokenKind::Def)?;
            self.match_tok(&TokenKind::Dispatch);
        }

        let name = self.expect_ident()?;
        let type_params = self.parse_optional_type_params()?;
        let params = self.parse_param_list()?;
        let return_type = self.parse_optional_return()?;
        if self.match_tok(&TokenKind::Colon) {
            if !self.match_tok(&TokenKind::Ellipsis) {
                self.match_tok(&TokenKind::Pass);
            }
        }
        self.consume_stmt_end()?;
        Ok(InterfaceMember::MethodSig { name, type_params, params, return_type, span: start })
    }

    /// Parses `trait Name[params](bases):` and its indented members. A trait
    /// with no parameters or bases whose body is a single `pass` line parses
    /// to exactly that trait.
    #[verifier::spinoff_prover]
    #[verifier::rlimit(50)]
    fn parse_trait_def(&mut self) -> (r: Result<Stmt, ParseError>)
        requires
            old(self).wf(),
        ensures
            final(self).steps(old(self)),
            r is Ok ==> final(self).moved(old(self)),
            trait_result(old(self).token_seq(), old(self).position() as int, r, final(self).position() as int),
        decreases old(self).remaining(), 35int,
    {
        let ghost toks = old(self).token_seq();
        let ghost p0 = old(self).position() as int;
        let ghost one = old(self).current().kind is Trait && toks[p0 + 1].kind is Ident && body_opens_at(toks, p0 + 2)
            && toks[p0 + 5].kind is Pass && toks[p0 + 6].kind is Newline && toks[p0 + 7].kind is Dedent;
        let start = self.peek_span();
        self.expect(&TokenKind::Trait)?;
        let name = self.expect_ident()?;
        let type_params = self.parse_optional_type_params()?;
        let bases = self.parse_bases(false)?;

        self.expect(&TokenKind::Colon)?;
        self.expect(&TokenKind::Newline)?;
        self.expect(&TokenKind::Indent)?;

        let mut body: Vec<TraitMember> = Vec::new();
        self.skip_newlines();

        while !self.check(&TokenKind::Dedent) && !self.check(&TokenKind::Eof)
            invariant
                self.moved(old(self)),
                toks == old(self).token_seq(),
                p0 == old(self).position(),
                one == (old(self).current().kind is Trait && toks[p0 + 1].kind is Ident && body_opens_at(toks, p0 + 2)
                    && toks[p0 + 5].kind is Pass && toks[p0 + 6].kind is Newline && toks[p0 + 7].kind is Dedent),
                one ==> (self.position() == p0 + 5 && body@.len() == 0) || (self.position() == p0 + 7 && body@ == seq![
                    TraitMember::Pass(toks[p0 + 6].span),
                ]),
            decreases self.remaining(),
        {
            if self.match_tok(&TokenKind::Pass) {
                let span = self.peek_span();
                self.consume_stmt_end()?;
                body.push(TraitMember::Pass(span));
            } else if self.match_tok(&TokenKind::Ellipsis) {
                let span = self.peek_span();
                self.consume_stmt_end()?;
                body.push(TraitMember::Ellipsis(span));
            } else if self.match_tok(&TokenKind::Getter) {
                let g_start = self.peek_span();
                let name = self.expect_ident()?;
                self.expect(&TokenKind::LParen)?;
                self.expect_ident()?; // self
                self.expect(&TokenKind::RParen)?;
                let return_type = self.parse_optional_return()?;
                let b = self.parse_block()?;
                body.push(TraitMember::Getter(GetterDef { name, return_type, body: b, span: g_start }));
            } else {
                self.expect(&TokenKind::Def)?;
                let is_dispatch = self.match_tok(&TokenKind::Dispatch);
                let func = self.parse_raw_function(is_dispatch, Vec::new())?;
                body.push(TraitMember::Method(func));
            }
            self.skip_newlines();
        }

        let end = self.expect(&TokenKind::Dedent)?.span;
        Ok(Stmt::TraitDef { name, type_params, bases, body, span: start.merge(end) })
    }

    /// Parses `implement Interface for Target:` and its indented methods.
    /// An implementation between plain type names whose body is a single
    /// plain method (see `plain_fn_at`) parses to exactly that.
    #[verifier::spinoff_prover]
    #[verifier::rlimit(50)]
    fn parse_implement_def(&mut self) -> (r: Result<Stmt, ParseError>)
        requires
            old(self).wf(),
        ensures
            final(self).steps(old(self)),
            r is Ok ==> final(self).moved(old(self)),
            implement_result(old(self).token_seq(), old(self).position() as int, r, final(self).position() as int),
        decreases old(self).remaining(), 35int,
    {
        let ghost toks = old(self).token_seq();
        let ghost p0 = old(self).position() as int;
        let ghost w1 = type_names_at(toks, p0 + 1)->Some_0.1;
        let ghost w2 = type_names_at(toks, p0 + 2 + w1)->Some_0.1;
        let ghost a = p0 + 2 + w1 + w2;
        let ghost wf = plain_fn_at(toks, a + 4)->Some_0.1;
        let ghost one = toks[p0].kind is Implement && type_names_at(toks, p0 + 1) is Some && toks[p0 + 1 + w1].kind is For
            && type_names_at(toks, p0 + 2 + w1) is Some && body_opens_at(toks, a) && toks[a + 3].kind is Def
            && plain_fn_at(toks, a + 4) is Some && toks[a + 4 + wf].kind is Dedent;
        let start = self.peek_span();
        self.expect(&TokenKind::Implement)?;
        let interface = self.parse_type_expr()?;
        self.expect(&TokenKind::For)?;
        let target = self.parse_type_expr()?;

        self.expect(&TokenKind::Colon)?;
        self.expect(&TokenKind::Newline)?;
        self.expect(&TokenKind::Indent)?;

        let mut body: Vec<FunctionDef> = Vec::new();
        self.skip_newlines();

        while !self.check(&TokenKind::Dedent) && !self.check(&TokenKind::Eof)
            invariant
                self.moved(old(self)),
                toks == old(self).token_seq(),
                p0 == old(self).position(),
                a == p0 + 2 + w1 + w2,
                wf == plain_fn_at(toks, a + 4)->Some_0.1,
                w1 == type_names_at(toks, p0 + 1)->Some_0.1,
                w2 == type_names_at(toks, p0 + 2 + w1)->Some_0.1,
                one == (toks[p0].kind is Implement && type_names_at(toks, p0 + 1) is Some && toks[p0 + 1 + w1].kind is For
                    && type_names_at(toks, p0 + 2 + w1) is Some && body_opens_at(toks, a) && toks[a + 3].kind is Def
                    && plain_fn_at(toks, a + 4) is Some && toks[a + 4 + wf].kind is Dedent),
                one ==> toks[a + 3].kind is Def && toks[a + 4 + wf].kind is Dedent && plain_fn_at(toks, a + 4) is Some,
                one ==> (self.position() == a + 3 && body@.len() == 0) || (self.position() == a + 4 + wf && body@.len()
                    == 1 && is_plain_fn(body@[0], toks[a + 4], plain_fn_at(toks, a + 4)->Some_0.0, Seq::empty())),
            decreases self.remaining(),
        {
            if self.match_tok(&TokenKind::ClassMethod) {
                self.match_tok(&TokenKind::Def);
                let func = self.parse_raw_function(false, Vec::new())?;
                body.push(func);
            } else {
                self.expect(&TokenKind::Def)?;
                let func = self.parse_raw_function(false, Vec::new())?;
                body.push(func);
            }
            self.skip_newlines();
        }

        let end = self.expect(&TokenKind::Dedent)?.span;
        Ok(Stmt::ImplementDef { interface, target, body, span: start.merge(end) })
    }

    /// The `case pattern: result` arms of a match type, up to the closing `Dedent`.
    /// The arms are parsed up to the `Dedent`, which is left in place. An
    /// empty body, or a single arm of plain type names (see `type_arm_at`),
    /// parses to exactly those arms.
    #[verifier::spinoff_prover]
    #[verifier::rlimit(50)]
    fn parse_type_match_arms(&mut self) -> (r: Result<Vec<(TypeExpr, TypeExpr)>, ParseError>)
        requires
            old(self).wf(),
        ensures
            final(self).steps(old(self)),
            r is Ok ==> final(self).moved(old(self)),
            body_opens_at(old(self).token_seq(), old(self).position() as int) && old(self).token_seq()[old(self).position()
                + 3int].kind is Dedent ==> (r matches Ok(arms) && arms@.len() == 0 && final(self).position()
                == old(self).position() + 3),
            body_opens_at(old(self).token_seq(), old(self).position() as int) ==> (type_arm_at(
                old(self).token_seq(),
                old(self).position() + 3int,
            ) matches Some((n1, n2, w)) ==> (old(self).token_seq()[old(self).position() + 3int + w].kind is Dedent ==> (
            r matches Ok(arms) && arms@.len() == 1 && is_type_of_names(arms@[0].0, n1) && is_type_of_names(
                arms@[0].1,
                n2,
            ) && final(self).position() == old(self).position() + 3int + w))),
        decreases old(self).remaining(), 13int,
    {
        let ghost toks = old(self).token_seq();
        let ghost p0 = old(self).position() as int;
        let ghost a = p0 + 3;
        let ghost one = body_opens_at(toks, p0) && type_arm_at(toks, a) is Some && toks[a + type_arm_at(
            toks,
            a,
        )->Some_0.2].kind is Dedent;
        let ghost b = a + type_arm_at(toks, a)->Some_0.2;
        self.expect(&TokenKind::Colon)?;
        self.expect(&TokenKind::Newline)?;
        self.expect(&TokenKind::Indent)?;

        let mut arms: Vec<(TypeExpr, TypeExpr)> = Vec::new();
        self.skip_newlines();

        while !self.check(&TokenKind::Dedent) && !self.check(&TokenKind::Eof)
            invariant
                self.moved(old(self)),
                toks == old(self).token_seq(),
                p0 == old(self).position(),
                a == p0 + 3,
                b == a + type_arm_at(toks, a)->Some_0.2,
                one == (body_opens_at(toks, p0) && type_arm_at(toks, a) is Some && toks[b].kind is Dedent),
                body_opens_at(toks, p0) && toks[a].kind is Dedent ==> self.position() == a && arms@.len() == 0,
                one ==> (self.position() == a && arms@.len() == 0) || (self.position() == b && arms@.len() == 1
                    && is_type_of_names(arms@[0].0, type_arm_at(toks, a)->Some_0.0) && is_type_of_names(
                    arms@[0].1,
                    type_arm_at(toks, a)->Some_0.1,
                )),
            decreases self.remaining(),
        {
            self.expect(&TokenKind::Case)?;
            let pattern_type = self.parse_type_expr()?;
            self.expect(&TokenKind::Colon)?;
            let result_type = self.parse_type_expr()?;
            let is_nested_match = match result_type {
                TypeExpr::Match { .. } => true,
                _ => false,
            };
            arms.push((pattern_type, result_type));
            if !is_nested_match {
                self.consume_stmt_end()?;
            }
            self.skip_newlines();
        }
        Ok(arms)
    }

    /// Parses `type Name[params] = type` or a match type. `type Name = `
    /// plain type names joined by `|` (see `type_names_at`), ended by a
    /// newline, parses to an alias of that type.
    #[verifier::spinoff_prover]
    #[verifier::rlimit(50)]
    fn parse_type_alias(&mut self) -> (r: Result<Stmt, ParseError>)
        requires
            old(self).wf(),
        ensures
            final(self).steps(old(self)),
            r is Ok ==> final(self).moved(old(self)),
            type_alias_result(old(self).token_seq(), old(self).position() as int, r, final(self).position() as int),
        decreases old(self).remaining(), 35int,
    {
        let ghost claim = old(self).current().kind is Type && old(self).token_seq()[old(self).position()
            + 1int].kind is Ident && old(self).token_seq()[old(self).position() + 2int].kind is Eq && type_names_at(
            old(self).token_seq(),
            old(self).position() + 3int,
        ) is Some;
        let start = self.peek_span();
        self.expect(&TokenKind::Type)?;
        let name = self.expect_ident()?;
        let type_params = self.parse_optional_type_params()?;
        self.expect(&TokenKind::Eq)?;

        // Check for match type: type promote[A, B] = match A, B:
        if self.match_tok(&TokenKind::Match) {
            let mut subjects: Vec<TypeExpr> = Vec::new();
            loop
                invariant
                    self.moved(old(self)),
                    !claim,
                    claim == (old(self).current().kind is Type && old(self).token_seq()[old(self).position()
                        + 1int].kind is Ident && old(self).token_seq()[old(self).position() + 2int].kind is Eq
                        && type_names_at(old(self).token_seq(), old(self).position() + 3int) is Some),
                decreases self.remaining(),
            {
                subjects.push(self.parse_type_expr()?);
                if !self.match_tok(&TokenKind::Comma) {
                    break;
                }
            }
            let arms = self.parse_type_match_arms()?;
            self.expect(&TokenKind::Dedent)?;
            return Ok(Stmt::TypeAlias { name, type_params, value: TypeAliasValue::Match { subject: subjects, arms }, span: start });
        }

        let value_type = self.parse_type_expr()?;
        self.consume_stmt_end()?;

        Ok(Stmt::TypeAlias { name, type_params, value: TypeAliasValue::Direct(value_type), span: start })
    }

    /// Parses `def [dispatch] function`. `def` and a plain function (see
    /// `plain_fn_at`) parse to that function.
    fn parse_function_def(&mut self, is_dispatch: bool, decorators: Vec<Expr>) -> (r: Result<Stmt, ParseError>)
        requires
            old(self).wf(),
        ensures
            final(self).steps(old(self)),
            r is Ok ==> final(self).moved(old(self)),
            !is_dispatch && old(self).current().kind is Def ==> (plain_fn_at(
                old(self).token_seq(),
                old(self).position() + 1int,
            ) matches Some((ss, w)) ==> (r matches Ok(Stmt::Function(fd)) && is_plain_fn(
                fd,
                old(self).token_seq()[old(self).position() + 1int],
                ss,
                decorators@,
            ) && final(self).position() == old(self).position() + 1int + w)),
        decreases old(self).remaining(), 35int,
    {
        self.expect(&TokenKind::Def)?;
        let mut is_dispatch = is_dispatch;
        if self.match_tok(&TokenKind::Dispatch) {
            is_dispatch = true;
        }
        let func = self.parse_raw_function(is_dispatch, decorators)?;
        Ok(Stmt::Function(func))
    }

    /// Parses a function after `def`: name (an operator for dispatch),
    /// type parameters, parameters, return type and body. A plain function
    /// (see `plain_fn_at`) parses to exactly that function.
    fn parse_raw_function(&mut self, is_dispatch: bool, decorators: Vec<Expr>) -> (r: Result<FunctionDef, ParseError>)
        requires
            old(self).wf(),
        ensures
            final(self).steps(old(self)),
            r is Ok ==> final(self).moved(old(self)),
            !is_dispatch ==> (plain_fn_at(old(self).token_seq(), old(self).position() as int) matches Some((ss, w))
                ==> (r matches Ok(fd) && is_plain_fn(fd, old(self).current(), ss, decorators@) && final(self).position()
                == old(self).position() + w)),
        decreases old(self).remaining(), 35int,
    {
        let start = self.peek_span();
        let name = if is_dispatch {
            match self.peek_kind() {
                TokenKind::Plus => { self.advance(); String::from_str("+") },
                TokenKind::Minus => { self.advance(); String::from_str("-") },
                TokenKind::Star => { self.advance(); String::from_str("*") },
                TokenKind::Slash => { self.advance(); String::from_str("/") },
                TokenKind::Percent => { self.advance(); String::from_str("%") },
                TokenKind::EqEq => { self.advance(); String::from_str("==") },
                _ => self.expect_ident()?,
            }
        } else {
            self.expect_ident()?
        };
        let type_params = self.parse_optional_type_params()?;
        let params = self.parse_param_list()?;
        let return_type = self.parse_optional_return()?;

        let body = if self.check(&TokenKind::Colon) {
            self.parse_block()?
        } else {
            self.consume_stmt_end()?;
            Vec::new()
        };

        Ok(FunctionDef {
            name,
            type_params,
            params,
            return_type,
            body,
            is_dispatch,
            is_async: false,
            is_override: false,
            decorators,
            span: start,
        })
    }

    /// Parses `let pattern [: type] = value`. A `let` of a one-token pattern
    /// bound to a sum of atoms and ended by a newline parses to exactly that
    /// definition.
    #[verifier::spinoff_prover]
    #[verifier::rlimit(50)]
    fn parse_let_stmt(&mut self) -> (r: Result<Stmt, ParseError>)
        requires
            old(self).wf(),
        ensures
            final(self).steps(old(self)),
            r is Ok ==> final(self).moved(old(self)),
            let_result(old(self).token_seq(), old(self).position() as int, r, final(self).position() as int),
        decreases old(self).remaining(), 35int,
    {
        let start = self.peek_span();
        self.expect(&TokenKind::Let)?;
        let pattern = self.parse_pattern()?;

        let type_annotation = if self.match_tok(&TokenKind::Colon) {
            Some(self.parse_type_expr()?)
        } else {
            None
        };

        self.expect(&TokenKind::Eq)?;
        let value = Some(self.parse_expr()?);
        self.consume_stmt_end()?;

        Ok(Stmt::VarDef { pattern, type_annotation, value, is_let: true, is_final: false, span: start })
    }

    /// Parses `if condition: block`, its `elif` branches and its `else`. An
    /// `if` over a sum of atoms with a block of simple statements, no `elif`
    /// and an optional `else` block of simple statements parses to exactly
    /// that statement.
    #[verifier::spinoff_prover]
    #[verifier::rlimit(50)]
    fn parse_if_stmt(&mut self) -> (r: Result<Stmt, ParseError>)
        requires
            old(self).wf(),
        ensures
            final(self).steps(old(self)),
            r is Ok ==> final(self).moved(old(self)),
            if_result(old(self).token_seq(), old(self).position() as int, r, final(self).position() as int),
        decreases old(self).remaining(), 35int,
    {
        let ghost toks = old(self).token_seq();
        let ghost p0 = old(self).position() as int;
        let ghost guard = old(self).current().kind is If && sum_at(toks, p0 + 1) is Some && block_at(
            toks,
            p0 + 1 + sum_at(toks, p0 + 1)->Some_0.1,
        ) is Some;
        let ghost q = p0 + 1 + sum_at(toks, p0 + 1)->Some_0.1 + block_at(
            toks,
            p0 + 1 + sum_at(toks, p0 + 1)->Some_0.1,
        )->Some_0.1;
        let start = self.peek_span();
        self.expect(&TokenKind::If)?;
        let condition = self.parse_expr()?;
        let then_branch = self.parse_block()?;

        let mut elif_branches: Vec<(Expr, Vec<Stmt>)> = Vec::new();
        while self.match_tok(&TokenKind::Elif)
            invariant
                self.moved(old(self)),
                toks == old(self).token_seq(),
                p0 == old(self).position(),
                guard == (old(self).current().kind is If && sum_at(toks, p0 + 1) is Some && block_at(
                    toks,
                    p0 + 1 + sum_at(toks, p0 + 1)->Some_0.1,
                ) is Some),
                q == p0 + 1 + sum_at(toks, p0 + 1)->Some_0.1 + block_at(
                    toks,
                    p0 + 1 + sum_at(toks, p0 + 1)->Some_0.1,
                )->Some_0.1,
                guard && !(toks[q].kind is Elif) ==> self.position() == q && elif_branches@.len() == 0,
            decreases self.remaining(),
        {
            let elif_cond = self.parse_expr()?;
            let elif_block = self.parse_block()?;
            elif_branches.push((elif_cond, elif_block));
        }

        let else_branch = if self.match_tok(&TokenKind::Else) {
            Some(self.parse_block()?)
        } else {
            None
        };

        Ok(Stmt::If { condition, then_branch, elif_branches, else_branch, span: start })
    }

    /// Parses the target of a `for` clause: a pattern, or several joined by
    /// `,` into a tuple. A one-token pattern not followed by `,` parses to
    /// that pattern.
    fn parse_comp_target(&mut self) -> (r: Result<Pattern, ParseError>)
        requires
            old(self).wf(),
        ensures
            final(self).steps(old(self)),
            r is Ok ==> final(self).moved(old(self)),
            token_pattern_at(old(self).token_seq(), old(self).position() as int) && !(old(self).token_seq()[old(
                self,
            ).position() + 1int].kind is Comma) ==> (r matches Ok(pat) && is_token_pattern(pat, old(self).current())
                && final(self).position() == old(self).position() + 1),
        decreases old(self).remaining(), 15int,
    {
        let start = self.peek_span();
        let mut target = self.parse_pattern()?;
        if self.match_tok(&TokenKind::Comma) {
            let mut elements: Vec<Pattern> = Vec::new();
            elements.push(target);
            loop
                invariant
                    self.moved(old(self)),
                    !(token_pattern_at(old(self).token_seq(), old(self).position() as int) && !(old(
                        self,
                    ).token_seq()[old(self).position() + 1int].kind is Comma)),
                decreases self.remaining(),
            {
                elements.push(self.parse_pattern()?);
                if !self.match_tok(&TokenKind::Comma) {
                    break;
                }
                if self.check(&TokenKind::In) {
                    break;
                }
            }
            target = Pattern::Tuple(elements, start);
        }
        Ok(target)
    }

    /// Parses `for target in iterable: block [if_broken: block]`. A `for`
    /// over a one-token target and a sum of atoms, with a block of simple
    /// statements and no `if_broken`, parses to exactly that loop.
    #[verifier::spinoff_prover]
    #[verifier::rlimit(50)]
    fn parse_for_stmt(&mut self) -> (r: Result<Stmt, ParseError>)
        requires
            old(self).wf(),
        ensures
            final(self).steps(old(self)),
            r is Ok ==> final(self).moved(old(self)),
            for_result(old(self).token_seq(), old(self).position() as int, r, final(self).position() as int),
        decreases old(self).remaining(), 35int,
    {
        let start = self.peek_span();
        self.expect(&TokenKind::For)?;
        let target = self.parse_comp_target()?;
        self.expect(&TokenKind::In)?;
        let iterable = self.parse_expr()?;
        let body = self.parse_block()?;

        let if_broken = if self.match_tok(&TokenKind::IfBroken) {
            Some(self.parse_block()?)
        } else {
            None
        };

        Ok(Stmt::For { target, iterable, body, if_broken, span: start })
    }

    /// Parses `while condition: block [if_broken: block]`. A `while` over a
    /// sum of atoms with a block of simple statements and no `if_broken`
    /// parses to exactly that loop.
    #[verifier::spinoff_prover]
    #[verifier::rlimit(50)]
    fn parse_while_stmt(&mut self) -> (r: Result<Stmt, ParseError>)
        requires
            old(self).wf(),
        ensures
            final(self).steps(old(self)),
            r is Ok ==> final(self).moved(old(self)),
            while_result(old(self).token_seq(), old(self).position() as int, r, final(self).position() as int),
        decreases old(self).remaining(), 35int,
    {
        let start = self.peek_span();
        self.expect(&TokenKind::While)?;
        let condition = self.parse_expr()?;
        let body = self.parse_block()?;

        let if_broken = if self.match_tok(&TokenKind::IfBroken) {
            Some(self.parse_block()?)
        } else {
            None
        };

        Ok(Stmt::While { condition, body, if_broken, span: start })
    }

    /// Parses `match subject [as name]:` and its `case` arms. A match on a
    /// sum of atoms with a single arm of a one-token pattern (see
    /// `token_pattern_at`), no guard, and a block of simple statements
    /// parses to exactly that statement.
    #[verifier::spinoff_prover]
    #[verifier::rlimit(50)]
    fn parse_match_stmt(&mut self) -> (r: Result<Stmt, ParseError>)
        requires
            old(self).wf(),
        ensures
            final(self).steps(old(self)),
            r is Ok ==> final(self).moved(old(self)),
            match_result(old(self).token_seq(), old(self).position() as int, r, final(self).position() as int),
        decreases old(self).remaining(), 35int,
    {
        let ghost toks = old(self).token_seq();
        let ghost p0 = old(self).position() as int;
        let ghost a = p0 + 1 + sum_at(toks, p0 + 1)->Some_0.1;
        let ghost w2 = block_at(toks, a + 5)->Some_0.1;
        let ghost one = toks[p0].kind is Match && sum_at(toks, p0 + 1) is Some && body_opens_at(toks, a)
            && toks[a + 3].kind is Case && token_pattern_at(toks, a + 4) && block_at(toks, a + 5) is Some && toks[a + 5
            + w2].kind is Dedent;
        let start = self.peek_span();
        self.expect(&TokenKind::Match)?;
        let subject = self.parse_expr()?;

        let subject_alias = if self.match_tok(&TokenKind::As) {
            Some(self.expect_ident()?)
        } else {
            None
        };

        self.expect(&TokenKind::Colon)?;
        self.expect(&TokenKind::Newline)?;
        self.expect(&TokenKind::Indent)?;

        let mut arms: Vec<MatchArm> = Vec::new();
        self.skip_newlines();

        while !self.check(&TokenKind::Dedent) && !self.check(&TokenKind::Eof)
            invariant
                self.moved(old(self)),
                toks == old(self).token_seq(),
                p0 == old(self).position(),
                a == p0 + 1 + sum_at(toks, p0 + 1)->Some_0.1,
                w2 == block_at(toks, a + 5)->Some_0.1,
                one == (toks[p0].kind is Match && sum_at(toks, p0 + 1) is Some && body_opens_at(toks, a)
                    && toks[a + 3].kind is Case && token_pattern_at(toks, a + 4) && block_at(toks, a + 5) is Some
                    && toks[a + 5 + w2].kind is Dedent),
                one ==> toks[a + 3].kind is Case && token_pattern_at(toks, a + 4) && block_at(toks, a + 5) is Some
                    && toks[a + 5 + w2].kind is Dedent,
                one ==> (self.position() == a + 3 && arms@.len() == 0) || (self.position() == a + 5 + w2 && arms@.len()
                    == 1 && is_token_pattern(arms@[0].pattern, toks[a + 4]) && arms@[0].type_narrow is None
                    && arms@[0].guard is None && arms@[0].body@ == block_at(toks, a + 5)->Some_0.0 && arms@[0].span
                    == toks[a + 3].span),
            decreases self.remaining(),
        {
            let arm_start = self.peek_span();
            self.expect(&TokenKind::Case)?;

            // In Lucid, match arm pattern can be a Type pattern or Destructure pattern
            let pattern = self.parse_pattern()?;
            let guard = if self.match_tok(&TokenKind::If) {
                Some(self.parse_expr()?)
            } else {
                None
            };

            let body = self.parse_block()?;
            arms.push(MatchArm { pattern, type_narrow: None, guard, body, span: arm_start });
            self.skip_newlines();
        }

        self.expect(&TokenKind::Dedent)?;
        Ok(Stmt::Match { subject, subject_alias, arms, span: start })
    }

    /// Parses `try: block`, its `except` handlers and its `finally`. A `try`
    /// whose blocks hold simple statements, with no handler or one `except`
    /// of plain type names without `as` (see `except_at`), and an optional
    /// `finally` after no handler, parses to exactly that statement.
    #[verifier::spinoff_prover]
    #[verifier::rlimit(50)]
    fn parse_try_stmt(&mut self) -> (r: Result<Stmt, ParseError>)
        requires
            old(self).wf(),
        ensures
            final(self).steps(old(self)),
            r is Ok ==> final(self).moved(old(self)),
            try_result(old(self).token_seq(), old(self).position() as int, r, final(self).position() as int),
        decreases old(self).remaining(), 35int,
    {
        let ghost toks = old(self).token_seq();
        let ghost p0 = old(self).position() as int;
        let ghost base = old(self).current().kind is Try && block_at(toks, p0 + 1) is Some;
        let ghost q = p0 + 1 + block_at(toks, p0 + 1)->Some_0.1;
        let ghost hc = base && except_at(toks, q) is Some && !(toks[q + except_at(toks, q)->Some_0.2].kind is Except);
        let ghost q2 = q + except_at(toks, q)->Some_0.2;
        let start = self.peek_span();
        self.expect(&TokenKind::Try)?;
        let body = self.parse_block()?;

        let mut handlers: Vec<ExceptHandler> = Vec::new();
        while self.match_tok(&TokenKind::Except)
            invariant
                self.moved(old(self)),
                toks == old(self).token_seq(),
                p0 == old(self).position(),
                base == (old(self).current().kind is Try && block_at(toks, p0 + 1) is Some),
                q == p0 + 1 + block_at(toks, p0 + 1)->Some_0.1,
                hc == (base && except_at(toks, q) is Some && !(toks[q + except_at(toks, q)->Some_0.2].kind is Except)),
                q2 == q + except_at(toks, q)->Some_0.2,
                base && !(toks[q].kind is Except) ==> self.position() == q && handlers@.len() == 0,
                hc ==> (self.position() == q && handlers@.len() == 0) || (self.position() == q2 && handlers@.len() == 1
                    && is_type_of_names(handlers@[0].exception_type, except_at(toks, q)->Some_0.0)
                    && handlers@[0].name is None && handlers@[0].body@ == except_at(toks, q)->Some_0.1
                    && handlers@[0].span == toks[q + 1].span),
            decreases self.remaining(),
        {
            let h_start = self.peek_span();
            let exception_type = self.parse_type_expr()?;
            let name = if self.match_tok(&TokenKind::As) {
                Some(self.expect_ident()?)
            } else {
                None
            };
            let h_body = self.parse_block()?;
            handlers.push(ExceptHandler { exception_type, name, body: h_body, span: h_start });
        }

        let finally_body = if self.match_tok(&TokenKind::Finally) {
            Some(self.parse_block()?)
        } else {
            None
        };

        Ok(Stmt::Try { body, handlers, finally_body, span: start })
    }

    /// Parses `import [.]a.b [as x]`. An import of a dotted name (see
    /// `dotted_at`) without `as`, ended by a newline, parses to an import of
    /// that module.
    #[verifier::spinoff_prover]
    #[verifier::rlimit(50)]
    fn parse_import_stmt(&mut self) -> (r: Result<Stmt, ParseError>)
        requires
            old(self).wf(),
        ensures
            final(self).steps(old(self)),
            r is Ok ==> final(self).moved(old(self)),
            import_result(old(self).token_seq(), old(self).position() as int, r, final(self).position() as int),
    {
        let ghost claim = old(self).current().kind is Import && dotted_at(
            old(self).token_seq(),
            old(self).position() + 1int,
        ) is Some;
        let start = self.peek_span();
        self.expect(&TokenKind::Import)?;
        let mut module = String::new();
        while self.match_tok(&TokenKind::Dot)
            invariant
                self.moved(old(self)),
                claim == (old(self).current().kind is Import && dotted_at(
                    old(self).token_seq(),
                    old(self).position() + 1int,
                ) is Some),
                claim ==> self.position() == old(self).position() + 1 && module@.len() == 0,
            decreases self.remaining(),
        {
            module.push('.');
        }
        let dotted = self.parse_dotted_name()?;
        module.append(dotted.as_str());
        let alias = if self.match_tok(&TokenKind::As) {
            Some(self.expect_ident()?)
        } else {
            None
        };
        self.consume_stmt_end()?;
        Ok(Stmt::Import { module, alias, span: start })
    }

    /// Parses `from [.]a.b import x [as y], ...` (or `export` in place of
    /// `import`). `from` a dotted name (see `dotted_at`) `import` one name,
    /// ended by a newline, parses to an import of that name from that module.
    #[verifier::spinoff_prover]
    #[verifier::rlimit(50)]
    fn parse_from_import_stmt(&mut self) -> (r: Result<Stmt, ParseError>)
        requires
            old(self).wf(),
        ensures
            final(self).steps(old(self)),
            r is Ok ==> final(self).moved(old(self)),
            from_import_result(old(self).token_seq(), old(self).position() as int, r, final(self).position() as int),
    {
        let ghost toks = old(self).token_seq();
        let ghost p0 = old(self).position() as int;
        let ghost w = dotted_at(toks, p0 + 1)->Some_0.1;
        let ghost claim = old(self).current().kind is From && dotted_at(toks, p0 + 1) is Some && toks[p0 + 1
            + w].kind is Import && toks[p0 + 2 + w].kind is Ident && toks[p0 + 3 + w].kind is Newline;
        let start = self.peek_span();
        self.expect(&TokenKind::From)?;

        let mut module = String::new();
        while self.match_tok(&TokenKind::Dot)
            invariant
                self.moved(old(self)),
                toks == old(self).token_seq(),
                p0 == old(self).position(),
                w == dotted_at(toks, p0 + 1)->Some_0.1,
                claim == (old(self).current().kind is From && dotted_at(toks, p0 + 1) is Some && toks[p0 + 1
                    + w].kind is Import && toks[p0 + 2 + w].kind is Ident && toks[p0 + 3 + w].kind is Newline),
                claim ==> self.position() == p0 + 1 && module@.len() == 0,
            decreases self.remaining(),
        {
            module.push('.');
        }
        let dotted = self.parse_dotted_name()?;
        module.append(dotted.as_str());

        let is_export = self.match_tok(&TokenKind::Export);
        if !is_export {
            self.expect(&TokenKind::Import)?;
        }

        let mut names: Vec<(String, Option<String>)> = Vec::new();
        loop
            invariant_except_break
                claim ==> self.position() == p0 + 2 + w && names@.len() == 0,
            invariant
                self.moved(old(self)),
                toks == old(self).token_seq(),
                p0 == old(self).position(),
                w == dotted_at(toks, p0 + 1)->Some_0.1,
                claim == (old(self).current().kind is From && dotted_at(toks, p0 + 1) is Some && toks[p0 + 1
                    + w].kind is Import && toks[p0 + 2 + w].kind is Ident && toks[p0 + 3 + w].kind is Newline),
            ensures
                claim ==> self.position() == p0 + 3 + w && names@.len() == 1 && names@[0].0@ == toks[p0 + 2
                    + w].kind->Ident_0@ && names@[0].1 is None,
            decreases self.remaining(),
        {
            let name = self.expect_ident()?;
            let alias = if self.match_tok(&TokenKind::As) {
                Some(self.expect_ident()?)
            } else {
                None
            };
            names.push((name, alias));
            if !self.match_tok(&TokenKind::Comma) {
                break;
            }
        }

        self.consume_stmt_end()?;
        Ok(Stmt::FromImport { module, names, is_export, span: start })
    }

    #[verifier::spinoff_prover]
    #[verifier::rlimit(40)]
    fn parse_expr_or_assign_stmt(&mut self) -> (r: Result<Stmt, ParseError>)
        requires
            old(self).wf(),
        ensures
            final(self).steps(old(self)),
            r is Ok ==> final(self).moved(old(self)),
            atom_expr(old(self).current()) is Some ==> (old(self).simple_stmt_at() matches Some((st, w)) ==> r
                == Ok::<Stmt, ParseError>(st) && final(self).position() == old(self).position() + w),
        decreases old(self).remaining(), 35int,
    {
        let ghost claim = atom_expr(old(self).current()) is Some && old(self).simple_stmt_at() is Some;
        let start = self.peek_span();
        let expr = self.parse_expr()?;

        if self.match_tok(&TokenKind::Colon) {
            let type_annotation = self.parse_type_expr()?;
            let value = if self.match_tok(&TokenKind::Eq) {
                Some(self.parse_expr()?)
            } else {
                None
            };
            self.consume_stmt_end()?;

            // Convert expression to pattern if valid
            let pattern = match expr {
                Expr::Ident { name, span } => Pattern::Ident(name, span),
                _ => {
                    return Err(ParseError {
                        message: String::from_str("invalid variable definition target"),
                        span: expr.span(),
                    });
                },
            };

            return Ok(Stmt::VarDef {
                pattern,
                type_annotation: Some(type_annotation),
                value,
                is_let: false,
                is_final: false,
                span: start,
            });
        }

        let mut target_expr = expr;
        if self.match_tok(&TokenKind::Comma) {
            let mut fields: Vec<(Option<String>, Expr)> = Vec::new();
            fields.push((None, target_expr));
            loop
                invariant
                    self.moved(old(self)),
                    claim == (atom_expr(old(self).current()) is Some && old(self).simple_stmt_at() is Some),
                    !claim,
                decreases self.remaining(),
            {
                let e = self.parse_expr()?;
                fields.push((None, e));
                if !self.match_tok(&TokenKind::Comma) {
                    break;
                }
                if self.check(&TokenKind::Eq) || self.check(&TokenKind::Newline) || self.check(&TokenKind::Semi)
                    || self.check(&TokenKind::Eof) {
                    break;
                }
            }
            target_expr = Expr::Record { fields, span: start };
        }

        if self.match_tok(&TokenKind::Eq) {
            let value = self.parse_expr()?;
            self.consume_stmt_end()?;
            return Ok(Stmt::Assignment { target: target_expr, value, span: start });
        }

        // Augmented assignment
        let aug_op = match self.peek_kind() {
            TokenKind::PlusEq => { self.advance(); Some(BinaryOp::Add) },
            TokenKind::MinusEq => { self.advance(); Some(BinaryOp::Sub) },
            TokenKind::StarEq => { self.advance(); Some(BinaryOp::Mul) },
            TokenKind::SlashEq => { self.advance(); Some(BinaryOp::Div) },
            _ => None,
        };

        if let Some(op) = aug_op {
            let value = self.parse_expr()?;
            self.consume_stmt_end()?;
            return Ok(Stmt::AugAssign { target: target_expr, op, value, span: start });
        }

        self.consume_stmt_end()?;
        Ok(Stmt::Expr(target_expr))
    }

    // --- Expression Parsing ---
    /// Parses an expression, a conditional `a if c else b` included. A sum
    /// of atom tokens before a token that ends an expression parses to the
    /// sum grouped to the left, a lone atom to itself (see `atom_sum`).
    pub fn parse_expr(&mut self) -> (r: Result<Expr, ParseError>)
        requires
            old(self).wf(),
        ensures
            final(self).steps(old(self)),
            r is Ok ==> final(self).moved(old(self)),
            old(self).atom_sum() matches Some((e, w)) ==> r == Ok::<Expr, ParseError>(e)
                && final(self).position() == old(self).position() + w,
        decreases old(self).remaining(), 29int,
    {
        let expr = self.parse_logical_or()?;
        if self.match_tok(&TokenKind::If) {
            let condition = self.parse_logical_or()?;
            self.expect(&TokenKind::Else)?;
            let otherwise = self.parse_expr()?;
            let span = expr.span().merge(otherwise.span());
            return Ok(Expr::IfExpr {
                condition: Box::new(condition),
                then_branch: Box::new(expr),
                else_branch: Box::new(otherwise),
                span,
            });
        }
        Ok(expr)
    }

    fn parse_logical_or(&mut self) -> (r: Result<Expr, ParseError>)
        requires
            old(self).wf(),
        ensures
            final(self).steps(old(self)),
            r is Ok ==> final(self).moved(old(self)),
            old(self).atom_sum() matches Some((e, w)) ==> r == Ok::<Expr, ParseError>(e)
                && final(self).position() == old(self).position() + w,
        decreases old(self).remaining(), 28int,
    {
        let mut left = self.parse_logical_and()?;
        while self.match_tok(&TokenKind::Or)
            invariant
                old(self).atom_sum() matches Some((e, w)) ==> (left == e && self.position() == old(self).position() + w),
                self.moved(old(self)),
            decreases self.remaining(),
        {
            let right = self.parse_logical_and()?;
            let span = left.span().merge(right.span());
            left = Expr::Binary { op: BinaryOp::Or, left: Box::new(left), right: Box::new(right), span };
        }
        Ok(left)
    }

    fn parse_logical_and(&mut self) -> (r: Result<Expr, ParseError>)
        requires
            old(self).wf(),
        ensures
            final(self).steps(old(self)),
            r is Ok ==> final(self).moved(old(self)),
            old(self).atom_sum() matches Some((e, w)) ==> r == Ok::<Expr, ParseError>(e)
                && final(self).position() == old(self).position() + w,
        decreases old(self).remaining(), 27int,
    {
        let mut left = self.parse_comparison()?;
        while self.match_tok(&TokenKind::And)
            invariant
                old(self).atom_sum() matches Some((e, w)) ==> (left == e && self.position() == old(self).position() + w),
                self.moved(old(self)),
            decreases self.remaining(),
        {
            let right = self.parse_comparison()?;
            let span = left.span().merge(right.span());
            left = Expr::Binary { op: BinaryOp::And, left: Box::new(left), right: Box::new(right), span };
        }
        Ok(left)
    }

    fn parse_comparison(&mut self) -> (r: Result<Expr, ParseError>)
        requires
            old(self).wf(),
        ensures
            final(self).steps(old(self)),
            r is Ok ==> final(self).moved(old(self)),
            old(self).atom_sum() matches Some((e, w)) ==> r == Ok::<Expr, ParseError>(e)
                && final(self).position() == old(self).position() + w,
        decreases old(self).remaining(), 26int,
    {
        let left = self.parse_bitwise_or()?;

        let op = match self.peek_kind() {
            TokenKind::EqEq => Some(BinaryOp::Eq),
            TokenKind::NotEq => Some(BinaryOp::NotEq),
            TokenKind::Lt => Some(BinaryOp::Lt),
            TokenKind::LtEq => Some(BinaryOp::LtEq),
            TokenKind::Gt => Some(BinaryOp::Gt),
            TokenKind::GtEq => Some(BinaryOp::GtEq),
            TokenKind::In => Some(BinaryOp::In),
            TokenKind::Is => {
                if self.next_is(&TokenKind::Not) {
                    self.advance();
                    self.advance();
                    let span = left.span();
                    let right = self.parse_bitwise_or()?;
                    return Ok(Expr::Binary { op: BinaryOp::IsNot, left: Box::new(left), right: Box::new(right), span });
                }
                Some(BinaryOp::Is)
            },
            TokenKind::Not => {
                if self.next_is(&TokenKind::In) {
                    self.advance();
                    self.advance();
                    let span = left.span();
                    let right = self.parse_bitwise_or()?;
                    return Ok(Expr::Binary { op: BinaryOp::NotIn, left: Box::new(left), right: Box::new(right), span });
                }
                None
            },
            _ => None,
        };

        if let Some(op) = op {
            self.advance();
            let right = self.parse_bitwise_or()?;
            let span = left.span().merge(right.span());
            return Ok(Expr::Binary { op, left: Box::new(left), right: Box::new(right), span });
        }

        Ok(left)
    }

    fn parse_bitwise_or(&mut self) -> (r: Result<Expr, ParseError>)
        requires
            old(self).wf(),
        ensures
            final(self).steps(old(self)),
            r is Ok ==> final(self).moved(old(self)),
            old(self).atom_sum() matches Some((e, w)) ==> r == Ok::<Expr, ParseError>(e)
                && final(self).position() == old(self).position() + w,
        decreases old(self).remaining(), 25int,
    {
        let mut left = self.parse_bitwise_xor()?;
        while self.match_tok(&TokenKind::Pipe)
            invariant
                old(self).atom_sum() matches Some((e, w)) ==> (left == e && self.position() == old(self).position() + w),
                self.moved(old(self)),
            decreases self.remaining(),
        {
            let right = self.parse_bitwise_xor()?;
            let span = left.span().merge(right.span());
            left = Expr::Binary { op: BinaryOp::BitOr, left: Box::new(left), right: Box::new(right), span };
        }
        Ok(left)
    }

    fn parse_bitwise_xor(&mut self) -> (r: Result<Expr, ParseError>)
        requires
            old(self).wf(),
        ensures
            final(self).steps(old(self)),
            r is Ok ==> final(self).moved(old(self)),
            old(self).atom_sum() matches Some((e, w)) ==> r == Ok::<Expr, ParseError>(e)
                && final(self).position() == old(self).position() + w,
        decreases old(self).remaining(), 24int,
    {
        let mut left = self.parse_bitwise_and()?;
        while self.match_tok(&TokenKind::Caret)
            invariant
                old(self).atom_sum() matches Some((e, w)) ==> (left == e && self.position() == old(self).position() + w),
                self.moved(old(self)),
            decreases self.remaining(),
        {
            let right = self.parse_bitwise_and()?;
            let span = left.span().merge(right.span());
            left = Expr::Binary { op: BinaryOp::BitXor, left: Box::new(left), right: Box::new(right), span };
        }
        Ok(left)
    }

    fn parse_bitwise_and(&mut self) -> (r: Result<Expr, ParseError>)
        requires
            old(self).wf(),
        ensures
            final(self).steps(old(self)),
            r is Ok ==> final(self).moved(old(self)),
            old(self).atom_sum() matches Some((e, w)) ==> r == Ok::<Expr, ParseError>(e)
                && final(self).position() == old(self).position() + w,
        decreases old(self).remaining(), 23int,
    {
        let mut left = self.parse_shift()?;
        while self.match_tok(&TokenKind::Amp)
            invariant
                old(self).atom_sum() matches Some((e, w)) ==> (left == e && self.position() == old(self).position() + w),
                self.moved(old(self)),
            decreases self.remaining(),
        {
            let right = self.parse_shift()?;
            let span = left.span().merge(right.span());
            left = Expr::Binary { op: BinaryOp::BitAnd, left: Box::new(left), right: Box::new(right), span };
        }
        Ok(left)
    }

    fn parse_shift(&mut self) -> (r: Result<Expr, ParseError>)
        requires
            old(self).wf(),
        ensures
            final(self).steps(old(self)),
            r is Ok ==> final(self).moved(old(self)),
            old(self).atom_sum() matches Some((e, w)) ==> r == Ok::<Expr, ParseError>(e)
                && final(self).position() == old(self).position() + w,
        decreases old(self).remaining(), 22int,
    {
        let mut left = self.parse_term()?;
        while self.check(&TokenKind::Shl) || self.check(&TokenKind::Shr)
            invariant
                old(self).atom_sum() matches Some((e, w)) ==> (left == e && self.position() == old(self).position() + w),
                self.moved(old(self)),
            decreases self.remaining(),
        {
            let op = if self.match_tok(&TokenKind::Shl) {
                BinaryOp::Shl
            } else {
                self.advance();
                BinaryOp::Shr
            };
            let right = self.parse_term()?;
            let span = left.span().merge(right.span());
            left = Expr::Binary { op, left: Box::new(left), right: Box::new(right), span };
        }
        Ok(left)
    }

    fn parse_term(&mut self) -> (r: Result<Expr, ParseError>)
        requires
            old(self).wf(),
        ensures
            final(self).steps(old(self)),
            r is Ok ==> final(self).moved(old(self)),
            old(self).atom_sum() matches Some((e, w)) ==> r == Ok::<Expr, ParseError>(e)
                && final(self).position() == old(self).position() + w,
        decreases old(self).remaining(), 21int,
    {
        let ghost toks = self.token_seq();
        let ghost p0 = self.position() as int;
        let ghost n = sum_len(toks, p0);
        let ghost claim = old(self).atom_sum() is Some;
        proof {
            if claim {
                if n > 0 {
                    lemma_sum_pair(toks, p0, 0);
                }
                assert(self.atom_product() == Some((
                    prod_expr(toks, p0, prod_len(toks, p0)),
                    (prod_end(toks, p0) - p0) as nat,
                )));
            }
        }
        let mut left = self.parse_factor()?;
        let ghost mut j: nat = 0;
        while self.check(&TokenKind::Plus) || self.check(&TokenKind::Minus)
            invariant
                self.moved(old(self)),
                toks == self.token_seq(),
                toks == old(self).token_seq(),
                p0 == old(self).position(),
                n == sum_len(toks, p0),
                claim == (old(self).atom_sum() is Some),
                claim ==> (j <= n && left == sum_expr(toks, p0, j) && self.position() == prod_end(
                    toks,
                    operand_at(toks, p0, j),
                )),
            decreases self.remaining(),
        {
            proof {
                if claim {
                    if j < n {
                        lemma_sum_pair(toks, p0, j);
                    }
                }
            }
            let op = if self.match_tok(&TokenKind::Plus) {
                BinaryOp::Add
            } else {
                self.advance();
                BinaryOp::Sub
            };
            proof {
                if claim {
                    let q = operand_at(toks, p0, j + 1);
                    if j + 1 < n {
                        lemma_sum_pair(toks, p0, j + 1);
                    }
                    assert(self.atom_product() == Some((prod_expr(toks, q, prod_len(toks, q)), (prod_end(toks, q) - q) as nat)));
                }
            }
            let right = self.parse_factor()?;
            let span = left.span().merge(right.span());
            left = Expr::Binary { op, left: Box::new(left), right: Box::new(right), span };
            proof {
                if claim {
                    j = j + 1;
                }
            }
        }
        proof {
            if claim && j < n {
                lemma_sum_pair(toks, p0, j);
            }
        }
        Ok(left)
    }

    fn parse_factor(&mut self) -> (r: Result<Expr, ParseError>)
        requires
            old(self).wf(),
        ensures
            final(self).steps(old(self)),
            r is Ok ==> final(self).moved(old(self)),
            old(self).atom_product() matches Some((e, w)) ==> r == Ok::<Expr, ParseError>(e)
                && final(self).position() == old(self).position() + w,
        decreases old(self).remaining(), 20int,
    {
        let ghost toks = self.token_seq();
        let ghost p0 = self.position() as int;
        let ghost n = prod_len(toks, p0);
        let ghost claim = old(self).atom_product() is Some;
        proof {
            if claim {
                if n > 0 {
                    lemma_prod_pair(toks, p0, 0);
                }
                assert(self.power_atom() == atom_expr(toks[p0]));
            }
        }
        let mut left = self.parse_power()?;
        let ghost mut j: nat = 0;
        while self.check(&TokenKind::Star) || self.check(&TokenKind::Slash) || self.check(&TokenKind::DoubleSlash)
            || self.check(&TokenKind::Percent)
            invariant
                self.moved(old(self)),
                toks == self.token_seq(),
                toks == old(self).token_seq(),
                p0 == old(self).position(),
                n == prod_len(toks, p0),
                claim == (old(self).atom_product() is Some),
                claim ==> (j <= n && left == prod_expr(toks, p0, j) && self.position() == p0 + 2 * j + 1),
            decreases self.remaining(),
        {
            proof {
                if claim {
                    if j < n {
                        lemma_prod_pair(toks, p0, j as int);
                    }
                }
            }
            let op = if self.match_tok(&TokenKind::Star) {
                BinaryOp::Mul
            } else if self.match_tok(&TokenKind::Slash) {
                BinaryOp::Div
            } else if self.match_tok(&TokenKind::DoubleSlash) {
                BinaryOp::FloorDiv
            } else {
                self.advance();
                BinaryOp::Mod
            };
            proof {
                if claim {
                    if j + 1 < n {
                        lemma_prod_pair(toks, p0, j + 1int);
                    }
                    assert(self.power_atom() == atom_expr(toks[p0 + 2 * j + 2]));
                }
            }
            let right = self.parse_power()?;
            let span = left.span().merge(right.span());
            left = Expr::Binary { op, left: Box::new(left), right: Box::new(right), span };
            proof {
                if claim {
                    j = j + 1;
                }
            }
        }
        proof {
            if claim && j < n {
                lemma_prod_pair(toks, p0, j as int);
            }
        }
        Ok(left)
    }

    fn parse_power(&mut self) -> (r: Result<Expr, ParseError>)
        requires
            old(self).wf(),
        ensures
            final(self).steps(old(self)),
            r is Ok ==> final(self).moved(old(self)),
            old(self).power_atom() matches Some(e) ==> r == Ok::<Expr, ParseError>(e)
                && final(self).position() == old(self).position() + 1,
        decreases old(self).remaining(), 19int,
    {
        let left = self.parse_unary()?;
        if self.match_tok(&TokenKind::DoubleStar) {
            let right = self.parse_power()?;
            let span = left.span().merge(right.span());
            return Ok(Expr::Binary { op: BinaryOp::Pow, left: Box::new(left), right: Box::new(right), span });
        }
        Ok(left)
    }

    fn parse_unary(&mut self) -> (r: Result<Expr, ParseError>)
        requires
            old(self).wf(),
        ensures
            final(self).steps(old(self)),
            r is Ok ==> final(self).moved(old(self)),
            old(self).power_atom() matches Some(e) ==> r == Ok::<Expr, ParseError>(e)
                && final(self).position() == old(self).position() + 1,
        decreases old(self).remaining(), 18int,
    {
        let start = self.peek_span();
        if self.match_tok(&TokenKind::Not) {
            let inner = self.parse_unary()?;
            let span = start.merge(inner.span());
            return Ok(Expr::Unary { op: UnaryOp::Not, expr: Box::new(inner), span });
        }
        if self.match_tok(&TokenKind::Minus) {
            let inner = self.parse_unary()?;
            let span = start.merge(inner.span());
            return Ok(Expr::Unary { op: UnaryOp::Neg, expr: Box::new(inner), span });
        }
        if self.match_tok(&TokenKind::Plus) {
            let inner = self.parse_unary()?;
            let span = start.merge(inner.span());
            return Ok(Expr::Unary { op: UnaryOp::Pos, expr: Box::new(inner), span });
        }
        if self.match_tok(&TokenKind::Tilde) {
            let inner = self.parse_unary()?;
            let span = start.merge(inner.span());
            return Ok(Expr::Unary { op: UnaryOp::Invert, expr: Box::new(inner), span });
        }
        if self.match_tok(&TokenKind::Bang) {
            let inner = self.parse_unary()?;
            let span = start.merge(inner.span());
            return Ok(Expr::Freeze { expr: Box::new(inner), span });
        }
        if self.match_tok(&TokenKind::TripleStar) {
            let inner = self.parse_unary()?;
            let span = start.merge(inner.span());
            return Ok(Expr::Unary { op: UnaryOp::GatherSpread, expr: Box::new(inner), span });
        }
        if self.match_tok(&TokenKind::Star) {
            let inner = self.parse_unary()?;
            let span = start.merge(inner.span());
            return Ok(Expr::Unary { op: UnaryOp::Spread, expr: Box::new(inner), span });
        }

        self.parse_postfix()
    }

    /// The `for target in iter [if cond]` tail of a comprehension, once `for`
    /// has been consumed; `full_exprs` reads the iterable and condition as
    /// full expressions (call arguments) rather than `or`-level ones.
    fn parse_comp_clause(&mut self, full_exprs: bool) -> (r: Result<(Pattern, Expr, Option<Box<Expr>>), ParseError>)
        requires
            old(self).wf(),
        ensures
            final(self).steps(old(self)),
            r is Ok ==> final(self).moved(old(self)),
            for_head_at(old(self).token_seq(), old(self).position() as int) matches Some((e, w)) ==> (!(old(
                self,
            ).token_seq()[old(self).position() + w as int].kind is If) ==> (r matches Ok((pat, it, c)) && is_token_pattern(
                pat,
                old(self).current(),
            ) && it == e && c is None && final(self).position() == old(self).position() + w)),
        decreases old(self).remaining(), 30int,
    {
        let target = self.parse_comp_target()?;
        self.expect(&TokenKind::In)?;
        let iter = if full_exprs { self.parse_expr()? } else { self.parse_logical_or()? };
        let condition = if self.match_tok(&TokenKind::If) {
            if full_exprs {
                Some(Box::new(self.parse_expr()?))
            } else {
                Some(Box::new(self.parse_logical_or()?))
            }
        } else {
            None
        };
        Ok((target, iter, condition))
    }

    #[verifier::spinoff_prover]
    #[verifier::rlimit(50)]
    fn parse_call_args(&mut self) -> (r: Result<Vec<Arg>, ParseError>)
        requires
            old(self).wf(),
        ensures
            final(self).steps(old(self)),
            old(self).current().kind is RParen ==> (r matches Ok(v) && v@.len() == 0 && final(self).position()
                == old(self).position()),
            atom_args_at(old(self).token_seq(), old(self).position() as int) matches Some((n, w)) ==> (r matches Ok(v)
                && v@.len() == n && (forall|j: int| 0 <= j < n ==> is_atom_arg(
                #[trigger] v@[j],
                old(self).token_seq()[old(self).position() + 2 * j],
            )) && final(self).position() == old(self).position() + w),
        decreases old(self).remaining(), 30int,
    {
        let ghost toks = old(self).token_seq();
        let ghost p0 = old(self).position() as int;
        let ghost claim = atom_args_at(toks, p0) is Some;
        let ghost m = comma_atoms_len(toks, p0);
        let mut args: Vec<Arg> = Vec::new();
        if !self.check(&TokenKind::RParen) {
            loop
                invariant_except_break
                    claim ==> self.position() == p0 + 2 * args@.len() && args@.len() <= m && atom_expr(
                        toks[p0 + 2 * args@.len()],
                    ) is Some,
                    claim ==> comma_atoms_len(toks, p0) == args@.len() + comma_atoms_len(toks, p0 + 2 * args@.len()),
                invariant
                    self.steps(old(self)),
                    args@.len() > 0 ==> self.moved(old(self)),
                    !(old(self).current().kind is RParen),
                    toks == old(self).token_seq(),
                    p0 == old(self).position(),
                    m == comma_atoms_len(toks, p0),
                    claim == (atom_args_at(toks, p0) is Some),
                    claim ==> forall|j: int| 0 <= j < args@.len() ==> is_atom_arg(#[trigger] args@[j], toks[p0 + 2 * j]),
                ensures
                    claim ==> self.position() == p0 + 1 + 2 * m && args@.len() == m + 1,
                decreases self.remaining(),
            {
                let ghost k = args@.len() as int;
                let ghost q = p0 + 2 * k;
                proof {
                    if claim {
                        if comma_atoms_len(toks, q) == 0 {
                            assert(k == m);
                            assert(toks[q + 1].kind is RParen);
                        } else {
                            assert(toks[q + 1].kind is Comma);
                        }
                        assert(prod_len(toks, q) == 0);
                        assert(sum_len(toks, q) == 0);
                        assert(sum_at(toks, q) == Some((atom_expr(toks[q])->Some_0, 1nat)));
                    }
                }
                let is_gather_spread = self.match_tok(&TokenKind::TripleStar);
                let is_dict_spread = !is_gather_spread && self.match_tok(&TokenKind::DoubleStar);
                let is_spread = !is_gather_spread && !is_dict_spread && self.match_tok(&TokenKind::Star);

                let arg_start = self.peek_span();

                // Check for named argument: name = val
                let named = !is_gather_spread && !is_dict_spread && !is_spread && self.next_is(&TokenKind::Eq);
                let name;
                let mut val;
                if named {
                    let n = self.expect_ident()?;
                    self.advance(); // consume '='
                    val = self.parse_expr()?;
                    name = Some(n);
                } else {
                    val = self.parse_expr()?;
                    name = None;
                }

                if self.match_tok(&TokenKind::For) {
                    let (target, iter, condition) = self.parse_comp_clause(true)?;
                    val = Expr::ListComp { element: Box::new(val), target, iter: Box::new(iter), condition, span: arg_start };
                }

                args.push(Arg { name, value: val, is_spread, is_dict_spread, is_gather_spread, span: arg_start });

                if !self.match_tok(&TokenKind::Comma) {
                    proof {
                        if claim {
                            assert(comma_atoms_len(toks, q) == 0);
                        }
                    }
                    break;
                }
                proof {
                    if claim {
                        if comma_atoms_len(toks, q) == 0 {
                            assert(k == m);
                        }
                        assert(comma_atoms_len(toks, q) == 1 + comma_atoms_len(toks, q + 2));
                    }
                }
                if self.check(&TokenKind::RParen) {
                    break;
                }
            }
        }
        Ok(args)
    }

    fn parse_postfix(&mut self) -> (r: Result<Expr, ParseError>)
        requires
            old(self).wf(),
        ensures
            final(self).steps(old(self)),
            r is Ok ==> final(self).moved(old(self)),
            old(self).power_atom() matches Some(e) ==> r == Ok::<Expr, ParseError>(e)
                && final(self).position() == old(self).position() + 1,
        decreases old(self).remaining(), 17int,
    {
        let mut expr = self.parse_primary()?;

        loop
            invariant
                old(self).power_atom() matches Some(e) ==> (expr == e && self.position() == old(self).position() + 1),
                self.moved(old(self)),
            decreases self.remaining(),
        {
            // Function call: expr(args)
            if self.match_tok(&TokenKind::LParen) {
                let args = self.parse_call_args()?;
                let end = self.expect(&TokenKind::RParen)?.span;
                let span = expr.span().merge(end);
                expr = Expr::Call { func: Box::new(expr), args, span };
                continue;
            }

            // Indexing, Multi-indexing, Slicing, or Generic specialization: expr[idx, ...]
            if self.match_tok(&TokenKind::LBracket) {
                let first = self.parse_slice_or_expr()?;
                let mut indices: Vec<Expr> = Vec::new();
                indices.push(first);
                let ghost snap = *self;
                while self.match_tok(&TokenKind::Comma)
                    invariant
                        old(self).power_atom() is None,
                        self.moved(old(self)),
                        self.steps(&snap),
                    decreases self.remaining(),
                {
                    if self.check(&TokenKind::RBracket) {
                        break;
                    }
                    indices.push(self.parse_slice_or_expr()?);
                }
                let end = self.expect(&TokenKind::RBracket)?.span;
                let span = expr.span().merge(end);
                let index = if indices.len() == 1 {
                    match indices.pop() {
                        Some(e) => e,
                        None => Expr::Skip(span),
                    }
                } else {
                    Expr::Record { fields: unnamed_fields(indices), span }
                };
                expr = Expr::Index { value: Box::new(expr), index: Box::new(index), span };
                continue;
            }

            // Attribute access: expr.attr
            if self.match_tok(&TokenKind::Dot) {
                let attr = self.expect_ident()?;
                let end = self.peek_span();
                let span = expr.span().merge(end);
                expr = Expr::Attribute { value: Box::new(expr), attr, span };
                continue;
            }

            // Error propagation: expr?
            if self.match_tok(&TokenKind::Question) {
                let span = expr.span();
                expr = Expr::Propagate { expr: Box::new(expr), span };
                continue;
            }

            break;
        }

        Ok(expr)
    }

    /// The optional `stop` and `step` of a slice, after its first ':'.
    fn parse_slice_rest(&mut self) -> (r: Result<(Option<Box<Expr>>, Option<Box<Expr>>), ParseError>)
        requires
            old(self).wf(),
        ensures
            final(self).steps(old(self)),
            old(self).current().kind is RBracket || old(self).current().kind is Comma ==> r == Ok::<
                (Option<Box<Expr>>, Option<Box<Expr>>),
                ParseError,
            >((None, None)) && final(self).position() == old(self).position(),
            old(self).atom_sum() matches Some((e, w)) ==> (!(old(self).token_seq()[old(self).position() + w as int].kind is Colon)
                ==> r == Ok::<(Option<Box<Expr>>, Option<Box<Expr>>), ParseError>((Some(Box::new(e)), None))
                && final(self).position() == old(self).position() + w),
        decreases old(self).remaining(), 30int,
    {
        let stop = if !self.check(&TokenKind::Colon) && !self.check(&TokenKind::RBracket) && !self.check(&TokenKind::Comma) {
            Some(Box::new(self.parse_expr()?))
        } else {
            None
        };
        let step = if self.match_tok(&TokenKind::Colon) {
            if !self.check(&TokenKind::RBracket) && !self.check(&TokenKind::Comma) {
                Some(Box::new(self.parse_expr()?))
            } else {
                None
            }
        } else {
            None
        };
        Ok((stop, step))
    }

    fn parse_slice_or_expr(&mut self) -> (r: Result<Expr, ParseError>)
        requires
            old(self).wf(),
        ensures
            final(self).steps(old(self)),
            r is Ok ==> final(self).moved(old(self)),
            old(self).atom_sum() matches Some((e, w)) ==> (!(old(self).token_seq()[old(self).position() + w as int].kind is Colon)
                ==> r == Ok::<Expr, ParseError>(e) && final(self).position() == old(self).position() + w),
            old(self).current().kind is Colon && old(self).position() + 1 < old(self).token_seq().len()
                && old(self).token_seq()[old(self).position() + 1int].kind is RBracket ==> (r matches Ok(
                Expr::Slice { start, stop, step, .. },
            ) && start is None && stop is None && step is None && final(self).position() == old(self).position() + 1),
        decreases old(self).remaining(), 31int,
    {
        let start_span = self.peek_span();
        // Case: [:stop] or [:]
        if self.match_tok(&TokenKind::Colon) {
            let (stop, step) = self.parse_slice_rest()?;
            let end_span = self.peek_span();
            return Ok(Expr::Slice { start: None, stop, step, span: start_span.merge(end_span) });
        }

        let expr = self.parse_expr()?;
        // Case: [start:stop:step] or [start:]
        if self.match_tok(&TokenKind::Colon) {
            let (stop, step) = self.parse_slice_rest()?;
            let span = expr.span().merge(self.peek_span());
            return Ok(Expr::Slice { start: Some(Box::new(expr)), stop, step, span });
        }

        Ok(expr)
    }

    /// Looks ahead from an opening '(' to its matching ')': the parenthesised
    /// text is a type shape when a ')' at depth one is followed by '->', or
    /// when '/' or ':' or a '*' followed by ',' occurs at depth one.
    fn paren_is_type_shape(&self) -> (r: bool)
        requires
            self.wf(),
        ensures
            r == shape_from(self.token_seq(), self.position() as int, 0),
    {
        let mut is_type_shape = false;
        let mut depth: usize = 0;
        let mut i = self.cursor;
        while i < self.tokens.len()
            invariant
                self.wf(),
                self.cursor <= i <= self.tokens@.len(),
                depth <= i - self.cursor,
                shape_from(self.tokens@, self.cursor as int, 0) == (is_type_shape || shape_from(
                    self.tokens@,
                    i as int,
                    depth as nat,
                )),
            ensures
                shape_from(self.tokens@, self.cursor as int, 0) == is_type_shape,
            decreases self.tokens.len() - i,
        {
            let k = &self.tokens[i].kind;
            match k {
                TokenKind::LParen => {
                    depth = depth + 1;
                },
                TokenKind::RParen => {
                    if depth > 0 {
                        depth = depth - 1;
                    }
                    if depth == 0 {
                        if i + 1 < self.tokens.len() {
                            if let TokenKind::Arrow = self.tokens[i + 1].kind {
                                is_type_shape = true;
                            }
                        }
                        break;
                    }
                },
                TokenKind::Slash | TokenKind::Colon => {
                    if depth == 1 {
                        is_type_shape = true;
                    }
                },
                TokenKind::Star => {
                    if depth == 1 && i + 1 < self.tokens.len() {
                        if let TokenKind::Comma = self.tokens[i + 1].kind {
                            is_type_shape = true;
                        }
                    }
                },
                _ => {},
            }
            i = i + 1;
        }
        is_type_shape
    }

    /// Whether the token after the current one can start a type expression
    /// (an identifier, '!', '&', '[', '(', '{', `type` or `any`).
    fn next_starts_type(&self) -> (r: bool)
        requires
            self.wf(),
        ensures
            r == (self.position() + 1 < self.token_seq().len() && starts_type(
                self.token_seq()[self.position() + 1int].kind,
            )),
    {
        if self.cursor < self.tokens.len() - 1 {
            match self.tokens[self.cursor + 1].kind {
                TokenKind::Ident(_) | TokenKind::Bang | TokenKind::Amp | TokenKind::LBracket | TokenKind::LParen
                | TokenKind::LBrace | TokenKind::Type | TokenKind::Any => true,
                _ => false,
            }
        } else {
            false
        }
    }

    /// Comma-separated expressions up to (not including) `close`, after the
    /// first element; stops at a trailing comma before `close`.
    fn parse_more_elements(&mut self, close: &TokenKind, elements: &mut Vec<Expr>) -> (r: Result<(), ParseError>)
        requires
            old(self).wf(),
        ensures
            final(self).steps(old(self)),
            final(elements)@.len() >= old(elements)@.len(),
            final(elements)@.take(old(elements)@.len() as int) == old(elements)@,
            !(old(self).current().kind is Comma) ==> r is Ok && final(elements)@ == old(elements)@
                && final(self).position() == old(self).position(),
            old(self).current().kind is Comma && old(self).token_seq()[old(self).position() + 1int].kind.same_as(*close)
                ==> r is Ok && final(elements)@ == old(elements)@ && final(self).position() == old(self).position() + 1,
            old(self).current().kind is Comma && !old(self).token_seq()[old(self).position() + 1int].kind.same_as(*close)
                ==> (sum_at(old(self).token_seq(), old(self).position() + 1int) matches Some((e, w)) ==> (!(old(
                self,
            ).token_seq()[old(self).position() + 1int + w].kind is Comma) ==> r is Ok && final(elements)@ == old(
                elements,
            )@.push(e) && final(self).position() == old(self).position() + 1int + w)),
            more_elements_at(old(self).token_seq(), old(self).position() as int, *close) matches Some((es, end)) ==> (r is Ok
                && final(elements)@ == old(elements)@ + es && final(self).position() == end),
        decreases old(self).remaining(), 30int,
    {
        let ghost toks = old(self).token_seq();
        let ghost p0 = old(self).position() as int;
        let ghost mm = more_elements_at(toks, p0, *close);
        let ghost one = toks[p0].kind is Comma && !toks[p0 + 1].kind.same_as(*close) && sum_at(toks, p0 + 1) is Some
            && !(toks[p0 + 1 + sum_at(toks, p0 + 1)->Some_0.1].kind is Comma);
        while self.match_tok(&TokenKind::Comma)
            invariant_except_break
                one ==> (self.position() == p0 && elements@ == old(elements)@) || (self.position() == p0 + 1
                    + sum_at(toks, p0 + 1)->Some_0.1 && elements@ == old(elements)@.push(sum_at(toks, p0 + 1)->Some_0.0)),
                toks[p0].kind is Comma && toks[p0 + 1].kind.same_as(*close) ==> self.position() == p0
                    && elements@ == old(elements)@,
                !(toks[p0].kind is Comma) ==> self.position() == p0 && elements@ == old(elements)@,
                mm is Some ==> (more_elements_at(toks, self.position() as int, *close) matches Some((rest, end))
                    && end == mm->Some_0.1 && elements@ + rest == old(elements)@ + mm->Some_0.0),
            invariant
                self.steps(old(self)),
                toks == old(self).token_seq(),
                p0 == old(self).position(),
                mm == more_elements_at(toks, p0, *close),
                elements@.len() >= old(elements)@.len(),
                elements@.take(old(elements)@.len() as int) == old(elements)@,
                one == (toks[p0].kind is Comma && !toks[p0 + 1].kind.same_as(*close) && sum_at(toks, p0 + 1) is Some
                    && !(toks[p0 + 1 + sum_at(toks, p0 + 1)->Some_0.1].kind is Comma)),
            ensures
                one ==> self.position() == p0 + 1 + sum_at(toks, p0 + 1)->Some_0.1 && elements@ == old(
                    elements,
                )@.push(sum_at(toks, p0 + 1)->Some_0.0),
                toks[p0].kind is Comma && toks[p0 + 1].kind.same_as(*close) ==> self.position() == p0 + 1
                    && elements@ == old(elements)@,
                !(toks[p0].kind is Comma) ==> self.position() == p0 && elements@ == old(elements)@,
                mm is Some ==> self.position() == mm->Some_0.1 && elements@ == old(elements)@ + mm->Some_0.0,
            decreases self.remaining(),
        {
            let ghost pos = self.position() - 1;
            if self.check(close) {
                proof {
                    if mm is Some {
                        assert(elements@ + Seq::<Expr>::empty() =~= elements@);
                    }
                }
                break;
            }
            let ghost prev = elements@;
            let e = self.parse_expr()?;
            elements.push(e);
            proof {
                if mm is Some {
                    let (rest, end) = more_elements_at(toks, pos, *close)->Some_0;
                    let (e1, w) = sum_at(toks, pos + 1)->Some_0;
                    let rest2 = more_elements_at(toks, pos + 1 + w, *close)->Some_0.0;
                    assert(rest == seq![e1] + rest2);
                    assert(elements@ + rest2 =~= prev + rest);
                }
            }
        }
        proof {
            if mm is Some && !(toks[self.position() as int].kind is Comma) {
                assert(elements@ + Seq::<Expr>::empty() =~= elements@);
            }
        }
        Ok(())
    }

    fn parse_primary(&mut self) -> (r: Result<Expr, ParseError>)
        requires
            old(self).wf(),
        ensures
            final(self).steps(old(self)),
            r is Ok ==> final(self).moved(old(self)),
            atom_expr(old(self).current()) matches Some(e) ==> r == Ok::<Expr, ParseError>(e)
                && final(self).position() == old(self).position() + 1,
            ({
                let toks = old(self).token_seq();
                let p = old(self).position() as int;
                &&& p + 1 < toks.len() && toks[p].kind is LBrace && toks[p + 1].kind is RBrace ==> (r matches Ok(
                    Expr::SetLiteral { elements, span },
                ) && elements@.len() == 0 && span == toks[p].span && final(self).position() == p + 2)
                &&& p + 2 < toks.len() && toks[p].kind is LBrace && toks[p + 1].kind is Colon && toks[p + 2].kind is RBrace
                    ==> (r matches Ok(Expr::Dict { entries, span }) && entries@.len() == 0 && span == toks[p].span.spec_merge(
                    toks[p + 2].span,
                ) && final(self).position() == p + 3)
                &&& p + 1 < toks.len() && toks[p].kind is LBracket && toks[p + 1].kind is RBracket ==> (r matches Ok(
                    Expr::List { elements, span },
                ) && elements@.len() == 0 && span == toks[p].span && final(self).position() == p + 2)
                &&& p + 2 < toks.len() && toks[p].kind is LBracket && atom_expr(toks[p + 1]) is Some && toks[p + 2].kind is RBracket
                    ==> (r matches Ok(Expr::List { elements, span }) && elements@ == seq![atom_expr(toks[p + 1])->Some_0]
                    && span == toks[p].span.spec_merge(toks[p + 2].span) && final(self).position() == p + 3)
                &&& p + 2 < toks.len() && toks[p].kind is LParen && toks[p + 1].kind is RParen && !(toks[p + 2].kind is Arrow)
                    ==> (r matches Ok(Expr::Record { fields, span }) && fields@.len() == 0 && span == toks[p].span
                    && final(self).position() == p + 2)
                &&& p + 3 < toks.len() && toks[p].kind is LParen && atom_expr(toks[p + 1]) is Some && toks[p + 2].kind is RParen
                    && !(toks[p + 3].kind is Arrow) ==> (r == Ok::<Expr, ParseError>(atom_expr(toks[p + 1])->Some_0)
                    && final(self).position() == p + 3)
                &&& toks[p].kind is LBracket ==> (sum_at(toks, p + 1) matches Some((e1, w1)) ==> (more_elements_at(
                    toks,
                    p + 1 + w1,
                    TokenKind::RBracket,
                ) matches Some((rest, end)) ==> (toks[end].kind is RBracket ==> (r matches Ok(Expr::List { elements, span })
                    && elements@ == seq![e1] + rest && span == toks[p].span.spec_merge(toks[end].span)
                    && final(self).position() == end + 1))))
                &&& set_literal_at(toks, p) matches Some((es, end)) ==> (r matches Ok(Expr::SetLiteral { elements, span })
                    && elements@ == es && span == toks[p].span.spec_merge(toks[end].span) && final(self).position() == end + 1)
            }),
        decreases old(self).remaining(), 16int,
    {
        proof {
            let toks = self.token_seq();
            let p = self.position() as int;
            if p + 2 < toks.len() && atom_expr(toks[p + 1]) is Some && (toks[p + 2].kind is RParen
                || toks[p + 2].kind is RBracket) {
                assert(prod_len(toks, p + 1) == 0);
                assert(sum_len(toks, p + 1) == 0);
                assert(sum_at(toks, p + 1) == Some((atom_expr(toks[p + 1])->Some_0, 1nat)));
            }
            if p + 2 < toks.len() && toks[p].kind is LParen && toks[p + 1].kind is RParen && !(toks[p + 2].kind is Arrow) {
                assert(!shape_from(toks, p + 1, 1));
                assert(!shape_from(toks, p, 0));
            }
            if p + 3 < toks.len() && toks[p].kind is LParen && atom_expr(toks[p + 1]) is Some && toks[p + 2].kind is RParen
                && !(toks[p + 3].kind is Arrow) {
                assert(!shape_from(toks, p + 2, 1));
                assert(!shape_from(toks, p + 1, 1));
                assert(!shape_from(toks, p, 0));
            }
        }
        let tok = self.peek().duplicate();

        match &tok.kind {
            TokenKind::Ellipsis => {
                self.advance();
                Ok(Expr::Literal { value: LiteralValue::Ellipsis, span: tok.span })
            },
            TokenKind::Int(n) => {
                self.advance();
                Ok(Expr::Literal { value: LiteralValue::Int(*n), span: tok.span })
            },
            TokenKind::Float(f) => {
                self.advance();
                Ok(Expr::Literal { value: LiteralValue::Float(f.clone()), span: tok.span })
            },
            TokenKind::Str(s) => {
                self.advance();
                Ok(Expr::Literal { value: LiteralValue::Str(s.clone()), span: tok.span })
            },
            TokenKind::True => {
                self.advance();
                Ok(Expr::Literal { value: LiteralValue::Bool(true), span: tok.span })
            },
            TokenKind::False => {
                self.advance();
                Ok(Expr::Literal { value: LiteralValue::Bool(false), span: tok.span })
            },
            TokenKind::NoneKw => {
                self.advance();
                Ok(Expr::Literal { value: LiteralValue::NoneLit, span: tok.span })
            },
            TokenKind::Skip => {
                self.advance();
                Ok(Expr::Skip(tok.span))
            },
            TokenKind::Construct => {
                self.advance();
                self.expect(&TokenKind::LParen)?;
                let mut args: Vec<Arg> = Vec::new();
                if !self.check(&TokenKind::RParen) {
                    loop
                        invariant
                            atom_expr(old(self).current()) is None,
                            !small_bracket_at(old(self).token_seq(), old(self).position() as int),
                            !(old(self).current().kind is LBracket),
                            set_literal_at(old(self).token_seq(), old(self).position() as int) is None,
                            self.moved(old(self)),
                        decreases self.remaining(),
                    {
                        let val = self.parse_expr()?;
                        args.push(Arg {
                            name: None,
                            value: val,
                            is_spread: false,
                            is_dict_spread: false,
                            is_gather_spread: false,
                            span: tok.span,
                        });
                        if !self.match_tok(&TokenKind::Comma) {
                            break;
                        }
                        if self.check(&TokenKind::RParen) {
                            break;
                        }
                    }
                }
                let end = self.expect(&TokenKind::RParen)?.span;
                Ok(Expr::Construct { args, span: tok.span.merge(end) })
            },
            TokenKind::Trust => {
                self.advance();
                self.expect(&TokenKind::LBracket)?;
                let target_type = self.parse_type_expr()?;
                self.expect(&TokenKind::RBracket)?;
                self.expect(&TokenKind::LParen)?;
                let inner = self.parse_expr()?;
                let end = self.expect(&TokenKind::RParen)?.span;
                Ok(Expr::Trust { target_type, expr: Box::new(inner), span: tok.span.merge(end) })
            },
            TokenKind::Def => {
                // Anonymous def: def(a: int) -> int: ... or def(a, b): expr or def: expr
                self.advance();
                let params;
                let return_type;
                if self.check(&TokenKind::Colon) {
                    params = Vec::new();
                    return_type = None;
                } else {
                    params = self.parse_param_list()?;
                    return_type = self.parse_optional_return()?;
                }

                self.expect(&TokenKind::Colon)?;
                // Can be single expression on same line or indented block
                let mut body: Vec<Stmt> = Vec::new();
                if self.match_tok(&TokenKind::Newline) {
                    self.expect(&TokenKind::Indent)?;
                    self.skip_newlines();
                    while !self.check(&TokenKind::Dedent) && !self.check(&TokenKind::Eof)
                        invariant
                            atom_expr(old(self).current()) is None,
                            !small_bracket_at(old(self).token_seq(), old(self).position() as int),
                            !(old(self).current().kind is LBracket),
                            set_literal_at(old(self).token_seq(), old(self).position() as int) is None,
                            self.moved(old(self)),
                        decreases self.remaining(),
                    {
                        body.push(self.parse_statement()?);
                        self.skip_newlines();
                    }
                    self.expect(&TokenKind::Dedent)?;
                } else {
                    let expr = self.parse_expr()?;
                    body.push(Stmt::Return { value: Some(expr), span: tok.span });
                }

                Ok(Expr::AnonymousDef { params, return_type, body, span: tok.span })
            },
            TokenKind::FromVarName => {
                self.advance();
                Ok(Expr::Ident { name: String::from_str("from_var_name"), span: tok.span })
            },
            TokenKind::Ident(name) => {
                self.advance();
                Ok(Expr::Ident { name: name.clone(), span: tok.span })
            },
            TokenKind::Type => {
                if self.next_starts_type() {
                    self.advance();
                    let t = self.parse_type_expr()?;
                    return Ok(Expr::Type(t));
                }
                self.advance();
                Ok(Expr::Ident { name: String::from_str("type"), span: tok.span })
            },
            TokenKind::Caller => {
                self.advance();
                Ok(Expr::Ident { name: String::from_str("caller"), span: tok.span })
            },
            TokenKind::Factory => {
                self.advance();
                Ok(Expr::Ident { name: String::from_str("factory"), span: tok.span })
            },
            TokenKind::LParen => {
                if self.paren_is_type_shape() {
                    let t = self.parse_type_expr()?;
                    return Ok(Expr::Type(t));
                }

                self.advance();
                if self.match_tok(&TokenKind::RParen) {
                    // Empty tuple / record ()
                    return Ok(Expr::Record { fields: Vec::new(), span: tok.span });
                }

                // Check if it's an anonymous record: (x=1, y=2)
                if self.next_is(&TokenKind::Eq) {
                    let mut fields: Vec<(Option<String>, Expr)> = Vec::new();
                    loop
                        invariant
                            atom_expr(old(self).current()) is None,
                            !small_bracket_at(old(self).token_seq(), old(self).position() as int),
                            !(old(self).current().kind is LBracket),
                            set_literal_at(old(self).token_seq(), old(self).position() as int) is None,
                            self.moved(old(self)),
                        decreases self.remaining(),
                    {
                        let field_name = self.expect_ident()?;
                        self.expect(&TokenKind::Eq)?;
                        let val = self.parse_expr()?;
                        fields.push((Some(field_name), val));
                        if !self.match_tok(&TokenKind::Comma) {
                            break;
                        }
                        if self.check(&TokenKind::RParen) {
                            break;
                        }
                    }
                    let end = self.expect(&TokenKind::RParen)?.span;
                    return Ok(Expr::Record { fields, span: tok.span.merge(end) });
                }

                let first_expr = self.parse_expr()?;
                if self.match_tok(&TokenKind::For) {
                    let (target, iter, condition) = self.parse_comp_clause(false)?;
                    let end = self.expect(&TokenKind::RParen)?.span;
                    return Ok(Expr::ListComp {
                        element: Box::new(first_expr),
                        target,
                        iter: Box::new(iter),
                        condition,
                        span: tok.span.merge(end),
                    });
                }

                if self.match_tok(&TokenKind::Comma) {
                    // Positional record / tuple: (a, b)
                    let mut elements: Vec<Expr> = Vec::new();
                    elements.push(first_expr);
                    while !self.check(&TokenKind::RParen)
                        invariant
                            atom_expr(old(self).current()) is None,
                            !small_bracket_at(old(self).token_seq(), old(self).position() as int),
                            !(old(self).current().kind is LBracket),
                            set_literal_at(old(self).token_seq(), old(self).position() as int) is None,
                            self.moved(old(self)),
                        decreases self.remaining(),
                    {
                        let expr = self.parse_expr()?;
                        elements.push(expr);
                        if !self.match_tok(&TokenKind::Comma) {
                            break;
                        }
                    }
                    let end = self.expect(&TokenKind::RParen)?.span;
                    if self.match_tok(&TokenKind::Arrow) {
                        let ret = self.parse_type_expr()?;
                        let span = tok.span.merge(ret.span());
                        let params = exprs_as_type_params(elements);
                        return Ok(Expr::Type(TypeExpr::Function { params, return_type: Box::new(ret), span }));
                    }
                    return Ok(Expr::Record { fields: unnamed_fields(elements), span: tok.span.merge(end) });
                }

                self.expect(&TokenKind::RParen)?;
                if self.match_tok(&TokenKind::Arrow) {
                    let ret = self.parse_type_expr()?;
                    let span = tok.span.merge(ret.span());
                    let param = expr_as_type_param(first_expr);
                    let mut params: Vec<TypeExpr> = Vec::new();
                    params.push(param);
                    return Ok(Expr::Type(TypeExpr::Function { params, return_type: Box::new(ret), span }));
                }
                Ok(first_expr)
            },
            TokenKind::LBracket => {
                self.advance();
                if self.match_tok(&TokenKind::RBracket) {
                    return Ok(Expr::List { elements: Vec::new(), span: tok.span });
                }
                let first = self.parse_expr()?;
                if self.match_tok(&TokenKind::For) {
                    let (target, iter, condition) = self.parse_comp_clause(false)?;
                    let end = self.expect(&TokenKind::RBracket)?.span;
                    return Ok(Expr::ListComp {
                        element: Box::new(first),
                        target,
                        iter: Box::new(iter),
                        condition,
                        span: tok.span.merge(end),
                    });
                }
                let mut elements: Vec<Expr> = Vec::new();
                elements.push(first);
                self.parse_more_elements(&TokenKind::RBracket, &mut elements)?;
                let end = self.expect(&TokenKind::RBracket)?.span;
                Ok(Expr::List { elements, span: tok.span.merge(end) })
            },
            TokenKind::LBrace => {
                self.advance();
                if self.match_tok(&TokenKind::Colon) {
                    // Empty dictionary: {:}
                    let end = self.expect(&TokenKind::RBrace)?.span;
                    return Ok(Expr::Dict { entries: Vec::new(), span: tok.span.merge(end) });
                }
                if self.match_tok(&TokenKind::RBrace) {
                    // Empty set {}
                    return Ok(Expr::SetLiteral { elements: Vec::new(), span: tok.span });
                }

                if self.match_tok(&TokenKind::Ellipsis) {
                    if self.match_tok(&TokenKind::RBrace) {
                        return Ok(Expr::Dict { entries: Vec::new(), span: tok.span });
                    }
                    self.match_tok(&TokenKind::Comma);
                }

                let first = self.parse_expr()?;
                if self.match_tok(&TokenKind::Colon) {
                    let first_val = self.parse_expr()?;
                    if self.match_tok(&TokenKind::For) {
                        let (target, iter, condition) = self.parse_comp_clause(false)?;
                        let end = self.expect(&TokenKind::RBrace)?.span;
                        return Ok(Expr::DictComp {
                            key: Box::new(first),
                            value: Box::new(first_val),
                            target,
                            iter: Box::new(iter),
                            condition,
                            span: tok.span.merge(end),
                        });
                    }
                    let mut entries: Vec<(Expr, Expr)> = Vec::new();
                    entries.push((first, first_val));
                    while self.match_tok(&TokenKind::Comma)
                        invariant
                            atom_expr(old(self).current()) is None,
                            !small_bracket_at(old(self).token_seq(), old(self).position() as int),
                            !(old(self).current().kind is LBracket),
                            set_literal_at(old(self).token_seq(), old(self).position() as int) is None,
                            self.moved(old(self)),
                        decreases self.remaining(),
                    {
                        if self.check(&TokenKind::RBrace) {
                            break;
                        }
                        if self.match_tok(&TokenKind::Ellipsis) {
                            continue;
                        }
                        let k = self.parse_expr()?;
                        self.expect(&TokenKind::Colon)?;
                        let v = self.parse_expr()?;
                        entries.push((k, v));
                    }
                    let end = self.expect(&TokenKind::RBrace)?.span;
                    Ok(Expr::Dict { entries, span: tok.span.merge(end) })
                } else if self.match_tok(&TokenKind::For) {
                    let (target, iter, condition) = self.parse_comp_clause(false)?;
                    let end = self.expect(&TokenKind::RBrace)?.span;
                    Ok(Expr::SetComp {
                        element: Box::new(first),
                        target,
                        iter: Box::new(iter),
                        condition,
                        span: tok.span.merge(end),
                    })
                } else {
                    let mut elements: Vec<Expr> = Vec::new();
                    elements.push(first);
                    self.parse_more_elements(&TokenKind::RBrace, &mut elements)?;
                    let end = self.expect(&TokenKind::RBrace)?.span;
                    Ok(Expr::SetLiteral { elements, span: tok.span.merge(end) })
                }
            },
            _ => Err(self.error_here("unexpected token in expression: ")),
        }
    }

    // --- Type Expression Parsing ---
    /// Parses a type: a union `A | B`, a function type `(A, B) -> R` or
    /// `A -> R`, or a primary type. Plain names joined by `|` parse to one
    /// flat union of those names in order, a single name to that name (see
    /// `type_names_at`).
    pub fn parse_type_expr(&mut self) -> (r: Result<TypeExpr, ParseError>)
        requires
            old(self).wf(),
        ensures
            final(self).steps(old(self)),
            r is Ok ==> final(self).moved(old(self)),
            type_names_at(old(self).token_seq(), old(self).position() as int) matches Some((names, w)) ==> (r matches Ok(
                te,
            ) && is_type_of_names(te, names) && type_spans_at(te, old(self).token_seq(), old(self).position() as int, names.len())
                && final(self).position() == old(self).position() + w),
        decreases old(self).remaining(), 12int,
    {
        let ghost toks = self.token_seq();
        let ghost p0 = self.position() as int;
        let ghost n = union_len(toks, p0);
        let ghost claim = type_names_at(toks, p0) is Some;
        let ghost names = Seq::new(n + 1, |k: int| type_name_at(toks, p0 + 2 * k)->Some_0);
        proof {
            if claim {
                if n > 0 {
                    lemma_union_pair(toks, p0, 0);
                }
                assert(names[0] == type_name_at(toks, p0)->Some_0);
            }
        }
        let mut left = self.parse_type_primary()?;
        let ghost mut j: nat = 0;

        // Union types: A | B
        while self.match_tok(&TokenKind::Pipe)
            invariant
                self.moved(old(self)),
                toks == self.token_seq(),
                toks == old(self).token_seq(),
                p0 == old(self).position(),
                n == union_len(toks, p0),
                claim == (type_names_at(toks, p0) is Some),
                names == Seq::new(n + 1, |k: int| type_name_at(toks, p0 + 2 * k)->Some_0),
                claim ==> j <= n && self.position() == p0 + 2 * j + 1,
                claim && j == 0 ==> bare_name(left) == Some(names[0]) && left.spec_span() == toks[p0].span,
                claim && j >= 1 ==> (left matches TypeExpr::Union { types, .. } && types@.len() == j + 1 && forall|k: int|
                    0 <= k <= j ==> bare_name(#[trigger] types@[k]) == Some(names[k])),
                claim && j >= 1 ==> (left matches TypeExpr::Union { types, span } && span == names_span(toks, p0, j)
                    && forall|k: int| 0 <= k <= j ==> (#[trigger] types@[k]).spec_span() == toks[p0 + 2 * k].span),
            decreases self.remaining(),
        {
            proof {
                if claim {
                    if j == n {
                        assert(toks[p0 + 2 * n + 1].kind is Pipe);
                    }
                    lemma_union_pair(toks, p0, j as int);
                    assert(names[j + 1int] == type_name_at(toks, p0 + 2 * (j + 1))->Some_0);
                }
            }
            let ghost at = self.position() as int;
            let right = self.parse_type_primary()?;
            let span = left.span().merge(right.span());
            let ghost old_left = left;
            proof {
                if claim {
                    assert(at == p0 + 2 * (j + 1) && right.spec_span() == toks[p0 + 2 * (j + 1)].span);
                    assert(names_span(toks, p0, j + 1) == names_span(toks, p0, j).spec_merge(toks[p0 + 2 * (j + 1)].span));
                    if j == 0 {
                        assert(names_span(toks, p0, 0) == toks[p0].span);
                    }
                }
            }
            left = match left {
                TypeExpr::Union { types, span: _ } => {
                    let mut types = types;
                    types.push(right);
                    TypeExpr::Union { types, span }
                },
                other => {
                    let mut types: Vec<TypeExpr> = Vec::new();
                    types.push(other);
                    types.push(right);
                    TypeExpr::Union { types, span }
                },
            };
            proof {
                if claim {
                    let ts = left->Union_types@;
                    assert forall|k: int| 0 <= k <= j + 1 implies (#[trigger] ts[k]).spec_span() == toks[p0 + 2 * k].span by {
                        if k <= j && j >= 1 {
                            assert(ts[k] == old_left->Union_types@[k]);
                        }
                    }
                    j = j + 1;
                }
            }
        }
        proof {
            if claim && j < n {
                lemma_union_pair(toks, p0, j as int);
            }
        }

        // Function types: (A, B) -> R or P -> R
        if self.match_tok(&TokenKind::Arrow) {
            let return_type = self.parse_type_expr()?;
            let span = left.span().merge(return_type.span());
            let params = match left {
                TypeExpr::Record { fields, .. } => field_types(fields),
                other => {
                    let mut v: Vec<TypeExpr> = Vec::new();
                    v.push(other);
                    v
                },
            };
            return Ok(TypeExpr::Function { params, return_type: Box::new(return_type), span });
        }

        Ok(left)
    }

    fn parse_type_primary(&mut self) -> (r: Result<TypeExpr, ParseError>)
        requires
            old(self).wf(),
        ensures
            final(self).steps(old(self)),
            r is Ok ==> final(self).moved(old(self)),
            type_name_at(old(self).token_seq(), old(self).position() as int) matches Some(name) ==> (r matches Ok(te)
                && bare_name(te) == Some(name) && te.spec_span() == old(self).current().span && final(self).position()
                == old(self).position() + 1),
            generic_at(old(self).token_seq(), old(self).position() as int) matches Some((name, args, e)) ==> (r matches Ok(
                TypeExpr::Named { name: n, args: a, span },
            ) && n@ == name && a@.len() == args.len() && (forall|k: int|
                0 <= k < args.len() ==> bare_name(#[trigger] a@[k]) == Some(args[k])) && span == old(
                self,
            ).current().span.spec_merge(old(self).token_seq()[e].span) && final(self).position() == e + 1),
            old(self).current().kind is Bang ==> (r matches Ok(te) ==> te matches TypeExpr::View {
                mutability: MutabilityView::Immutable,
                ..
            }),
            old(self).current().kind is Amp ==> (r matches Ok(te) ==> te matches TypeExpr::View {
                mutability: MutabilityView::ReadOnly,
                ..
            }),
            old(self).current().kind is Bang || old(self).current().kind is Amp ==> (type_name_at(
                old(self).token_seq(),
                old(self).position() + 1int,
            ) matches Some(name) ==> (r matches Ok(TypeExpr::View { inner, span, .. }) && bare_name(*inner) == Some(name)
                && span == old(self).current().span.spec_merge(inner.spec_span()) && final(self).position()
                == old(self).position() + 2)),
        decreases old(self).remaining(), 11int,
    {
        let ghost claim = type_name_at(old(self).token_seq(), old(self).position() as int) is Some;
        let tok = self.peek().duplicate();

        // Mutability views: !T (immutable), &T (read-only view)
        if self.match_tok(&TokenKind::Bang) {
            let inner = self.parse_type_primary()?;
            let span = tok.span.merge(inner.span());
            return Ok(TypeExpr::View { mutability: MutabilityView::Immutable, inner: Box::new(inner), span });
        }
        if self.match_tok(&TokenKind::Amp) {
            let inner = self.parse_type_primary()?;
            let span = tok.span.merge(inner.span());
            return Ok(TypeExpr::View { mutability: MutabilityView::ReadOnly, inner: Box::new(inner), span });
        }

        // any Interface
        if self.match_tok(&TokenKind::Any) {
            let interface = self.parse_type_primary()?;
            let span = tok.span.merge(interface.span());
            return Ok(TypeExpr::Existential { interface: Box::new(interface), span });
        }

        // Match type expression: match Subject: case Pat: Type ...
        if self.match_tok(&TokenKind::Match) {
            let mut subjects: Vec<TypeExpr> = Vec::new();
            loop
                invariant
                    claim == (type_name_at(old(self).token_seq(), old(self).position() as int) is Some),
                    !(old(self).current().kind is Bang || old(self).current().kind is Amp),
                    !claim,
                    !(old(self).current().kind is Ident),
                    self.moved(old(self)),
                decreases self.remaining(),
            {
                subjects.push(self.parse_type_expr()?);
                if !self.match_tok(&TokenKind::Comma) {
                    break;
                }
            }
            let arms = self.parse_type_match_arms()?;
            let end = self.expect(&TokenKind::Dedent)?.span;
            return Ok(TypeExpr::Match { subject: subjects, arms, span: tok.span.merge(end) });
        }

        // Wildcard: _
        if self.match_tok(&TokenKind::Ident(String::from_str("_"))) {
            return Ok(TypeExpr::Wildcard(tok.span));
        }

        // Parentheses: (A, B) -> R or (x: int, y: int)
        if self.match_tok(&TokenKind::LParen) {
            if self.match_tok(&TokenKind::RParen) {
                // Empty tuple type ()
                return Ok(TypeExpr::Record { fields: Vec::new(), span: tok.span });
            }

            let mut fields: Vec<RecordFieldType> = Vec::new();
            let mut is_positional_only = false;
            let mut is_keyword_only = false;

            while !self.check(&TokenKind::RParen) && !self.check(&TokenKind::Eof)
                invariant
                    claim == (type_name_at(old(self).token_seq(), old(self).position() as int) is Some),
                    !(old(self).current().kind is Bang || old(self).current().kind is Amp),
                    !claim,
                    !(old(self).current().kind is Ident),
                    self.moved(old(self)),
                decreases self.remaining(),
            {
                if self.match_tok(&TokenKind::Slash) {
                    is_positional_only = true;
                    self.match_tok(&TokenKind::Comma);
                    continue;
                }
                if self.match_tok(&TokenKind::Star) {
                    is_keyword_only = true;
                    self.match_tok(&TokenKind::Comma);
                    continue;
                }
                if self.match_tok(&TokenKind::Ellipsis) {
                    if fields.len() > 0 {
                        match fields.pop() {
                            Some(last) => {
                                let mut last = last;
                                if is_keyword_only || is_underscore(&last.name) {
                                    last.is_variadic_keyword = true;
                                } else {
                                    last.is_variadic_positional = true;
                                }
                                fields.push(last);
                            },
                            None => {},
                        }
                    }
                    self.match_tok(&TokenKind::Comma);
                    continue;
                }

                // Check for field name: name: Type
                let name = if self.next_is(&TokenKind::Colon) {
                    let n = self.expect_ident()?;
                    self.advance(); // consume ':'
                    Some(n)
                } else {
                    None
                };

                let t = self.parse_type_expr()?;
                let is_variadic_positional = self.match_tok(&TokenKind::Ellipsis);

                fields.push(RecordFieldType {
                    name,
                    type_expr: t,
                    is_positional_only,
                    is_keyword_only,
                    is_variadic_positional,
                    is_variadic_keyword: false,
                });

                if !self.match_tok(&TokenKind::Comma) {
                    break;
                }
            }

            let end = self.expect(&TokenKind::RParen)?.span;
            return Ok(TypeExpr::Record { fields, span: tok.span.merge(end) });
        }

        if let TokenKind::Str(s) = &tok.kind {
            self.advance();
            return Ok(TypeExpr::Literal { value: LiteralValue::Str(s.clone()), span: tok.span });
        }
        if let TokenKind::Int(n) = &tok.kind {
            self.advance();
            return Ok(TypeExpr::Literal { value: LiteralValue::Int(*n), span: tok.span });
        }

        // Dict / TypedDict shape: {"a": int, "b": str}
        if self.match_tok(&TokenKind::LBrace) {
            if self.match_tok(&TokenKind::Colon) {
                let end = self.expect(&TokenKind::RBrace)?.span;
                return Ok(TypeExpr::Named { name: String::from_str("dict"), args: Vec::new(), span: tok.span.merge(end) });
            }
            if self.match_tok(&TokenKind::RBrace) {
                return Ok(TypeExpr::Named { name: String::from_str("dict"), args: Vec::new(), span: tok.span });
            }
            let mut k_types: Vec<TypeExpr> = Vec::new();
            let mut v_types: Vec<TypeExpr> = Vec::new();
            while !self.check(&TokenKind::RBrace) && !self.check(&TokenKind::Eof)
                invariant
                    claim == (type_name_at(old(self).token_seq(), old(self).position() as int) is Some),
                    !(old(self).current().kind is Bang || old(self).current().kind is Amp),
                    !claim,
                    !(old(self).current().kind is Ident),
                    self.moved(old(self)),
                decreases self.remaining(),
            {
                if self.match_tok(&TokenKind::Ellipsis) {
                    self.match_tok(&TokenKind::Comma);
                    continue;
                }
                let k = self.parse_type_expr()?;
                self.expect(&TokenKind::Colon)?;
                let v = self.parse_type_expr()?;
                k_types.push(k);
                v_types.push(v);
                if !self.match_tok(&TokenKind::Comma) {
                    break;
                }
            }
            let end = self.expect(&TokenKind::RBrace)?.span;
            let k_union = if k_types.len() == 0 {
                TypeExpr::Wildcard(tok.span)
            } else {
                TypeExpr::Union { types: k_types, span: tok.span }
            };
            let v_union = if v_types.len() == 0 {
                TypeExpr::Wildcard(tok.span)
            } else {
                TypeExpr::Union { types: v_types, span: tok.span }
            };
            let mut args: Vec<TypeExpr> = Vec::new();
            args.push(k_union);
            args.push(v_union);
            return Ok(TypeExpr::Named { name: String::from_str("dict"), args, span: tok.span.merge(end) });
        }

        // Nominal type: Name[T1, T2] or type[T] or dotted path like iteration.done
        let name_opt = match &tok.kind {
            TokenKind::Ident(name) => Some(name.clone()),
            TokenKind::Type => Some(String::from_str("type")),
            _ => None,
        };
        if let Some(name) = name_opt {
            let ghost toks = old(self).token_seq();
            let ghost p0 = old(self).position() as int;
            let ghost gen = generic_at(toks, p0);
            let ghost g = gen is Some;
            let ghost gargs = gen->Some_0.1;
            let ghost gend = gen->Some_0.2;
            self.advance();
            let mut name = name;

            while self.match_tok(&TokenKind::Dot)
                invariant
                    claim == (type_name_at(old(self).token_seq(), old(self).position() as int) is Some),
                    !(old(self).current().kind is Bang || old(self).current().kind is Amp),
                    claim ==> (self.position() == old(self).position() + 1 && Some(name@) == type_name_at(old(self).token_seq(), old(self).position() as int)),
                    self.moved(old(self)),
                    toks == self.token_seq(),
                    toks == old(self).token_seq(),
                    p0 == old(self).position(),
                    gen == generic_at(toks, p0),
                    g == (generic_at(toks, p0) is Some),
                    g ==> self.position() == p0 + 1 && name@ == gen->Some_0.0,
                decreases self.remaining(),
            {
                proof {
                    if g {
                        assert(toks[p0 + 1].kind is LBracket);
                        assert(false);
                    }
                }
                let member = self.expect_ident()?;
                name.push('.');
                name.append(member.as_str());
            }

            let mut args: Vec<TypeExpr> = Vec::new();
            if self.match_tok(&TokenKind::LBracket) {
                proof {
                    if g {
                        lemma_generic_args_end(toks, p0 + 2);
                    }
                }
                if !self.check(&TokenKind::RBracket) {
                    loop
                        invariant_except_break
                            g ==> (generic_args_at(toks, self.position() as int) matches Some((rest, e)) && e == gend
                                && args@.len() + rest.len() == gargs.len() && forall|k: int|
                                0 <= k < rest.len() ==> rest[k] == gargs[args@.len() + k]),
                        invariant
                            claim == (type_name_at(old(self).token_seq(), old(self).position() as int) is Some),
                            !(old(self).current().kind is Bang || old(self).current().kind is Amp),
                            !claim,
                            self.moved(old(self)),
                            toks == self.token_seq(),
                            toks == old(self).token_seq(),
                            p0 == old(self).position(),
                            gen == generic_at(toks, p0),
                            gargs == gen->Some_0.1,
                            gend == gen->Some_0.2,
                            g == (generic_at(toks, p0) is Some),
                            g ==> args@.len() <= gargs.len(),
                            g ==> forall|k: int| 0 <= k < args@.len() ==> bare_name(#[trigger] args@[k]) == Some(gargs[k]),
                        ensures
                            g ==> self.position() == gend && args@.len() == gargs.len(),
                        decreases self.remaining(),
                    {
                        let ghost pos = self.position() as int;
                        let ghost prev = args@;
                        proof {
                            if g {
                                let (rest, e) = generic_args_at(toks, pos)->Some_0;
                                assert(type_name_at(toks, pos) is Some);
                                assert(union_len(toks, pos) == 0);
                                assert(type_names_at(toks, pos) is Some);
                                assert(type_names_at(toks, pos)->Some_0.0.len() == 1);
                                assert(type_names_at(toks, pos)->Some_0.0[0] == type_name_at(toks, pos)->Some_0);
                                assert(rest[0] == type_name_at(toks, pos)->Some_0);
                                assert(gargs[prev.len() as int] == rest[0]);
                                if !(toks[pos + 1].kind is RBracket) {
                                    lemma_generic_args_end(toks, pos + 2);
                                }
                            }
                        }
                        let te = self.parse_type_expr()?;
                        args.push(te);
                        proof {
                            if g {
                                assert(args@[prev.len() as int] == te);
                                assert forall|k: int| 0 <= k < args@.len() implies bare_name(#[trigger] args@[k]) == Some(gargs[k]) by {
                                    if k < prev.len() {
                                        assert(args@[k] == prev[k]);
                                    }
                                }
                            }
                        }
                        if !self.match_tok(&TokenKind::Comma) {
                            break;
                        }
                        if self.check(&TokenKind::RBracket) {
                            break;
                        }
                        proof {
                            if g {
                                let rest = generic_args_at(toks, pos)->Some_0.0;
                                let rest2 = generic_args_at(toks, pos + 2)->Some_0.0;
                                assert(rest =~= seq![type_name_at(toks, pos)->Some_0] + rest2);
                                assert forall|k: int| 0 <= k < rest2.len() implies rest2[k] == gargs[args@.len() + k] by {
                                    assert(rest2[k] == rest[k + 1]);
                                }
                            }
                        }
                    }
                }
                let end = self.expect(&TokenKind::RBracket)?.span;
                return Ok(TypeExpr::Named { name, args, span: tok.span.merge(end) });
            }

            return Ok(TypeExpr::Named { name, args: Vec::new(), span: tok.span });
        }

        if let TokenKind::NoneKw = tok.kind {
            self.advance();
            return Ok(TypeExpr::Named { name: String::from_str("none"), args: Vec::new(), span: tok.span });
        }

        Err(self.error_here("unexpected token in type expression: "))
    }

    /// Parses `[T, +U: Bound, ...]` after a name; without `[` there are no
    /// type parameters and nothing is consumed.
    fn parse_optional_type_params(&mut self) -> (r: Result<Vec<TypeParam>, ParseError>)
        requires
            old(self).wf(),
        ensures
            final(self).steps(old(self)),
            !(old(self).current().kind is LBracket) ==> (r matches Ok(v) && v@.len() == 0 && final(self).position()
                == old(self).position()),
            old(self).current().kind is LBracket && old(self).position() + 1 < old(self).token_seq().len()
                && old(self).token_seq()[old(self).position() + 1int].kind is RBracket ==> (r matches Ok(v) && v@.len()
                == 0 && final(self).position() == old(self).position() + 2),
            name_brackets_at(old(self).token_seq(), old(self).position() as int) matches Some((n, w)) ==> (r matches Ok(v)
                && v@.len() == n && (forall|j: int| 0 <= j < n ==> is_plain_type_param(
                #[trigger] v@[j],
                old(self).token_seq()[old(self).position() + 1 + 2 * j],
            )) && final(self).position() == old(self).position() + w),
        decreases old(self).remaining(), 10int,
    {
        let ghost toks = old(self).token_seq();
        let ghost p0 = old(self).position() as int;
        let ghost names = name_brackets_at(toks, p0) is Some;
        let ghost n = comma_names_len(toks, p0 + 1);
        if !self.match_tok(&TokenKind::LBracket) {
            return Ok(Vec::new());
        }
        let ghost empty = old(self).position() + 1 < old(self).token_seq().len()
            && old(self).token_seq()[old(self).position() + 1int].kind is RBracket;

        let mut params: Vec<TypeParam> = Vec::new();
        while !self.check(&TokenKind::RBracket) && !self.check(&TokenKind::Eof)
            invariant_except_break
                names ==> self.position() == p0 + 1 + 2 * params@.len() && params@.len() <= n && toks[self.position()
                    as int].kind is Ident,
                names ==> comma_names_len(toks, p0 + 1) == params@.len() + comma_names_len(
                    toks,
                    p0 + 1 + 2 * params@.len(),
                ),
            invariant
                self.moved(old(self)),
                old(self).current().kind is LBracket,
                empty == (old(self).position() + 1 < old(self).token_seq().len()
                    && old(self).token_seq()[old(self).position() + 1int].kind is RBracket),
                empty ==> self.position() == old(self).position() + 1 && params@.len() == 0,
                toks == old(self).token_seq(),
                p0 == old(self).position(),
                n == comma_names_len(toks, p0 + 1),
                names == (name_brackets_at(toks, p0) is Some),
                names ==> forall|j: int| 0 <= j < params@.len() ==> is_plain_type_param(
                    #[trigger] params@[j],
                    toks[p0 + 1 + 2 * j],
                ),
            ensures
                names ==> self.position() == p0 + 2 + 2 * n && params@.len() == n + 1,
            decreases self.remaining(),
        {
            let ghost k = params@.len() as int;
            let ghost q = p0 + 1 + 2 * k;
            let start = self.peek_span();
            let variance = if self.match_tok(&TokenKind::Plus) {
                Variance::Covariant
            } else if self.match_tok(&TokenKind::Minus) {
                Variance::Contravariant
            } else if self.match_tok(&TokenKind::Eq) {
                Variance::Invariant
            } else {
                Variance::Invariant
            };

            let name = self.expect_ident()?;
            proof {
                if names {
                    if comma_names_len(toks, q) == 0 {
                        assert(k == n);
                    } else {
                        assert(toks[q + 1].kind is Comma);
                    }
                }
            }
            let mut is_higher_kinded = false;
            if self.match_tok(&TokenKind::LBracket) {
                is_higher_kinded = true;
                let ghost snap = *self;
                while !self.check(&TokenKind::RBracket) && !self.check(&TokenKind::Eof)
                    invariant
                        self.moved(old(self)),
                        self.steps(&snap),
                        toks == old(self).token_seq(),
                        p0 == old(self).position(),
                        names == (name_brackets_at(toks, p0) is Some),
                        !names,
                    decreases self.remaining(),
                {
                    self.advance();
                    if !self.match_tok(&TokenKind::Comma) {
                        break;
                    }
                }
                self.expect(&TokenKind::RBracket)?;
            }

            let bound = if self.match_tok(&TokenKind::Colon) {
                Some(self.parse_type_expr()?)
            } else {
                None
            };

            params.push(TypeParam { name, variance, bound, is_higher_kinded, span: start });

            if !self.match_tok(&TokenKind::Comma) {
                proof {
                    if names {
                        assert(comma_names_len(toks, q) == 0);
                    }
                }
                break;
            }
            proof {
                if names {
                    assert(comma_names_len(toks, q) == 1 + comma_names_len(toks, q + 2));
                }
            }
        }

        self.expect(&TokenKind::RBracket)?;
        Ok(params)
    }

    fn parse_param_list(&mut self) -> (r: Result<Vec<Param>, ParseError>)
        requires
            old(self).wf(),
        ensures
            final(self).steps(old(self)),
            r is Ok ==> final(self).moved(old(self)),
            !(old(self).current().kind is LParen) ==> r is Err,
            old(self).current().kind is LParen && old(self).position() + 1 < old(self).token_seq().len()
                && old(self).token_seq()[old(self).position() + 1int].kind is RParen ==> (r matches Ok(v) && v@.len()
                == 0 && final(self).position() == old(self).position() + 2),
            name_params_at(old(self).token_seq(), old(self).position() as int) matches Some((n, w)) ==> (r matches Ok(v)
                && v@.len() == n && (forall|j: int| 0 <= j < n ==> is_plain_param(
                #[trigger] v@[j],
                old(self).token_seq()[old(self).position() + 1 + 2 * j],
            )) && final(self).position() == old(self).position() + w),
        decreases old(self).remaining(), 10int,
    {
        let ghost toks = old(self).token_seq();
        let ghost p0 = old(self).position() as int;
        let ghost names = name_params_at(toks, p0) is Some;
        let ghost n = comma_names_len(toks, p0 + 1);
        self.expect(&TokenKind::LParen)?;
        let mut params: Vec<Param> = Vec::new();
        let mut is_positional_only = false;
        let mut is_keyword_only = false;
        let ghost empty = old(self).position() + 1 < old(self).token_seq().len()
            && old(self).token_seq()[old(self).position() + 1int].kind is RParen;

        while !self.check(&TokenKind::RParen) && !self.check(&TokenKind::Eof)
            invariant_except_break
                names ==> self.position() == p0 + 1 + 2 * params@.len() && params@.len() <= n && toks[self.position()
                    as int].kind is Ident,
                names ==> comma_names_len(toks, p0 + 1) == params@.len() + comma_names_len(
                    toks,
                    p0 + 1 + 2 * params@.len(),
                ),
            invariant
                self.moved(old(self)),
                old(self).current().kind is LParen,
                empty == (old(self).position() + 1 < old(self).token_seq().len()
                    && old(self).token_seq()[old(self).position() + 1int].kind is RParen),
                empty ==> self.position() == old(self).position() + 1 && params@.len() == 0,
                toks == old(self).token_seq(),
                p0 == old(self).position(),
                n == comma_names_len(toks, p0 + 1),
                names == (name_params_at(toks, p0) is Some),
                names ==> !is_positional_only && !is_keyword_only,
                names ==> forall|j: int| 0 <= j < params@.len() ==> is_plain_param(
                    #[trigger] params@[j],
                    toks[p0 + 1 + 2 * j],
                ),
            ensures
                names ==> self.position() == p0 + 2 + 2 * n && params@.len() == n + 1,
            decreases self.remaining(),
        {
            let ghost k = params@.len() as int;
            if self.match_tok(&TokenKind::Slash) {
                is_positional_only = true;
                self.match_tok(&TokenKind::Comma);
                continue;
            }
            if self.match_tok(&TokenKind::Star) {
                is_keyword_only = true;
                self.match_tok(&TokenKind::Comma);
                continue;
            }

            let start = self.peek_span();
            let is_gather = self.match_tok(&TokenKind::TripleStar);
            let is_var_pos = !is_gather && self.match_tok(&TokenKind::Star);
            let is_var_kw = !is_gather && !is_var_pos && self.match_tok(&TokenKind::DoubleStar);

            let is_destructure = !is_gather && !is_var_pos && !is_var_kw && match self.peek_kind() {
                TokenKind::Ident(_) => self.next_is(&TokenKind::LParen),
                _ => false,
            };
            let name;
            let pattern;
            if is_destructure {
                let pat = self.parse_pattern()?;
                name = match &pat {
                    Pattern::ClassDestructure { class_name, .. } => class_name.clone(),
                    _ => String::from_str("_pat"),
                };
                pattern = Some(pat);
            } else {
                name = self.expect_ident()?;
                pattern = None;
            }

            let type_annotation = if self.match_tok(&TokenKind::Colon) {
                Some(self.parse_type_expr()?)
            } else {
                None
            };

            let default = if self.match_tok(&TokenKind::Eq) {
                Some(self.parse_expr()?)
            } else {
                None
            };

            params.push(Param {
                name,
                pattern,
                type_annotation,
                default,
                is_positional_only,
                is_keyword_only,
                is_variadic_positional: is_var_pos,
                is_variadic_keyword: is_var_kw,
                is_gather,
                span: start,
            });

            if !self.match_tok(&TokenKind::Comma) {
                proof {
                    if names {
                        assert(comma_names_len(toks, p0 + 1 + 2 * k) == 0);
                    }
                }
                break;
            }
            proof {
                if names {
                    if comma_names_len(toks, p0 + 1 + 2 * k) == 0 {
                        assert(k == n);
                    }
                    assert(comma_names_len(toks, p0 + 1 + 2 * k) == 1 + comma_names_len(toks, p0 + 3 + 2 * k));
                }
            }
        }

        self.expect(&TokenKind::RParen)?;
        Ok(params)
    }

    /// Parses a pattern. A single token that is a pattern on its own (see
    /// `token_pattern_at`) parses to that pattern.
    fn parse_pattern(&mut self) -> (r: Result<Pattern, ParseError>)
        requires
            old(self).wf(),
        ensures
            final(self).steps(old(self)),
            r is Ok ==> final(self).moved(old(self)),
            token_pattern_at(old(self).token_seq(), old(self).position() as int) ==> (r matches Ok(pat)
                && is_token_pattern(pat, old(self).current()) && final(self).position() == old(self).position() + 1),
        decreases old(self).remaining(), 10int,
    {
        let ghost claim = token_pattern_at(old(self).token_seq(), old(self).position() as int);
        let tok = self.peek().duplicate();
        match &tok.kind {
            TokenKind::Ident(name) => {
                self.advance();
                if is_underscore_text(name) {
                    return Ok(Pattern::Wildcard(tok.span));
                }
                let mut name = name.clone();
                while self.match_tok(&TokenKind::Dot)
                    invariant
                        self.moved(old(self)),
                        tok == old(self).current(),
                        tok.kind is Ident,
                        claim == token_pattern_at(old(self).token_seq(), old(self).position() as int),
                        claim ==> self.position() == old(self).position() + 1 && name@ == tok.kind->Ident_0@
                            && tok.kind->Ident_0@ != seq!['_'],
                    decreases self.remaining(),
                {
                    let part = self.expect_ident()?;
                    name.push('.');
                    name.append(part.as_str());
                }
                // Check for class destructure pattern: Name(a, b)
                if self.match_tok(&TokenKind::LParen) {
                    let mut fields: Vec<(Option<String>, Pattern)> = Vec::new();
                    while !self.check(&TokenKind::RParen) && !self.check(&TokenKind::Eof)
                        invariant
                            self.moved(old(self)),
                            !token_pattern_at(old(self).token_seq(), old(self).position() as int),
                        decreases self.remaining(),
                    {
                        let pat = self.parse_pattern()?;
                        fields.push((None, pat));
                        if !self.match_tok(&TokenKind::Comma) {
                            break;
                        }
                    }
                    let end = self.expect(&TokenKind::RParen)?.span;
                    return Ok(Pattern::ClassDestructure { class_name: name, fields, span: tok.span.merge(end) });
                }
                // Check for generic type pattern: Name[...]
                if self.match_tok(&TokenKind::LBracket) {
                    let mut args: Vec<TypeExpr> = Vec::new();
                    while !self.check(&TokenKind::RBracket) && !self.check(&TokenKind::Eof)
                        invariant
                            self.moved(old(self)),
                            !token_pattern_at(old(self).token_seq(), old(self).position() as int),
                        decreases self.remaining(),
                    {
                        args.push(self.parse_type_expr()?);
                        if !self.match_tok(&TokenKind::Comma) {
                            break;
                        }
                    }
                    let end = self.expect(&TokenKind::RBracket)?.span;
                    let type_expr = TypeExpr::Named { name, args, span: tok.span.merge(end) };
                    return Ok(Pattern::Type(type_expr, tok.span.merge(end)));
                }
                Ok(Pattern::Ident(name, tok.span))
            },
            TokenKind::Int(n) => {
                self.advance();
                Ok(Pattern::Literal(LiteralValue::Int(*n), tok.span))
            },
            TokenKind::Str(s) => {
                self.advance();
                Ok(Pattern::Literal(LiteralValue::Str(s.clone()), tok.span))
            },
            TokenKind::True => {
                self.advance();
                Ok(Pattern::Literal(LiteralValue::Bool(true), tok.span))
            },
            TokenKind::False => {
                self.advance();
                Ok(Pattern::Literal(LiteralValue::Bool(false), tok.span))
            },
            TokenKind::NoneKw => {
                self.advance();
                Ok(Pattern::Literal(LiteralValue::NoneLit, tok.span))
            },
            TokenKind::LParen => {
                self.advance();
                let mut elements: Vec<Pattern> = Vec::new();
                while !self.check(&TokenKind::RParen) && !self.check(&TokenKind::Eof)
                    invariant
                        self.moved(old(self)),
                        !token_pattern_at(old(self).token_seq(), old(self).position() as int),
                    decreases self.remaining(),
                {
                    elements.push(self.parse_pattern()?);
                    if !self.match_tok(&TokenKind::Comma) {
                        break;
                    }
                }
                let end = self.expect(&TokenKind::RParen)?.span;
                Ok(Pattern::Tuple(elements, tok.span.merge(end)))
            },
            _ => Err(self.error_here("unexpected token in pattern: ")),
        }
    }
}

/// Pairs each expression with no name, in order.
fn unnamed_fields(exprs: Vec<Expr>) -> (r: Vec<(Option<String>, Expr)>)
    ensures
        r@.len() == exprs@.len(),
        forall|i: int| 0 <= i < r@.len() ==> #[trigger] r@[i] == (None::<String>, exprs@[i]),
{
    let mut rev: Vec<Expr> = Vec::new();
    let mut exprs = exprs;
    let ghost orig = exprs@;
    while exprs.len() > 0
        invariant
            exprs@ == orig.take(exprs@.len() as int),
            rev@.len() + exprs@.len() == orig.len(),
            forall|i: int| 0 <= i < rev@.len() ==> #[trigger] rev@[i] == orig[orig.len() - 1 - i],
        decreases exprs.len(),
    {
        let e = exprs.pop().unwrap();
        rev.push(e);
    }
    let mut out: Vec<(Option<String>, Expr)> = Vec::new();
    while rev.len() > 0
        invariant
            rev@.len() + out@.len() == orig.len(),
            forall|i: int| 0 <= i < rev@.len() ==> #[trigger] rev@[i] == orig[orig.len() - 1 - i],
            forall|i: int| 0 <= i < out@.len() ==> #[trigger] out@[i] == (None::<String>, orig[i]),
        decreases rev.len(),
    {
        let e = rev.pop().unwrap();
        out.push((None, e));
    }
    out
}

/// The type of each field of a record type, in order.
fn field_types(fields: Vec<RecordFieldType>) -> (r: Vec<TypeExpr>)
    ensures
        r@.len() == fields@.len(),
        forall|i: int| 0 <= i < r@.len() ==> #[trigger] r@[i] == fields@[i].type_expr,
{
    let mut rev: Vec<RecordFieldType> = Vec::new();
    let mut fields = fields;
    let ghost orig = fields@;
    while fields.len() > 0
        invariant
            fields@ == orig.take(fields@.len() as int),
            rev@.len() + fields@.len() == orig.len(),
            forall|i: int| 0 <= i < rev@.len() ==> #[trigger] rev@[i] == orig[orig.len() - 1 - i],
        decreases fields.len(),
    {
        let f = fields.pop().unwrap();
        rev.push(f);
    }
    let mut out: Vec<TypeExpr> = Vec::new();
    while rev.len() > 0
        invariant
            rev@.len() + out@.len() == orig.len(),
            forall|i: int| 0 <= i < rev@.len() ==> #[trigger] rev@[i] == orig[orig.len() - 1 - i],
            forall|i: int| 0 <= i < out@.len() ==> #[trigger] out@[i] == orig[i].type_expr,
        decreases rev.len(),
    {
        let f = rev.pop().unwrap();
        out.push(f.type_expr);
    }
    out
}

/// Reads an element of a parenthesised list as a parameter type: a name
/// becomes a named type, a type expression stays as it is, and anything else
/// becomes a named type whose name is the element's debug text.
fn expr_as_type_param(e: Expr) -> (t: TypeExpr)
    ensures
        is_type_param_of(t, e),
{
    match e {
        Expr::Ident { name, span } => TypeExpr::Named { name, args: Vec::new(), span },
        Expr::Type(t) => t,
        other => {
            let span = other.span();
            let name = expr_debug_text(&other);
            TypeExpr::Named { name, args: Vec::new(), span }
        },
    }
}

fn exprs_as_type_params(exprs: Vec<Expr>) -> (r: Vec<TypeExpr>)
    ensures
        r@.len() == exprs@.len(),
        forall|k: int| 0 <= k < r@.len() ==> is_type_param_of(#[trigger] r@[k], exprs@[k]),
{
    let mut rev: Vec<Expr> = Vec::new();
    let ghost orig = exprs@;
    let mut exprs = exprs;
    let ghost n = exprs@.len();
    while exprs.len() > 0
        invariant
            rev@.len() + exprs@.len() == n,
            n == orig.len(),
            exprs@ == orig.take(exprs@.len() as int),
            forall|k: int| 0 <= k < rev@.len() ==> #[trigger] rev@[k] == orig[n - 1 - k],
        decreases exprs.len(),
    {
        let e = exprs.pop().unwrap();
        rev.push(e);
    }
    let mut out: Vec<TypeExpr> = Vec::new();
    while rev.len() > 0
        invariant
            rev@.len() + out@.len() == n,
            n == orig.len(),
            forall|k: int| 0 <= k < rev@.len() ==> #[trigger] rev@[k] == orig[n - 1 - k],
            forall|k: int| 0 <= k < out@.len() ==> is_type_param_of(#[trigger] out@[k], orig[k]),
        decreases rev.len(),
    {
        let e = rev.pop().unwrap();
        out.push(expr_as_type_param(e));
    }
    out
}

/// The text that the derived `Debug` formatting gives for an expression.
pub uninterp spec fn expr_debug_name(e: Expr) -> Seq<char>;

/// Calls the derived `Debug` formatting (`format!("{:?}")`) of an expression.
/// Its text is a function of the expression alone, named by
/// `expr_debug_name`; what that text is, is left unstated.
#[verifier::external_body]
fn expr_debug_text(e: &Expr) -> (r: String)
    ensures
        r@ == expr_debug_name(*e),
{
    format!("{e:?}")
}

/// Whether `t` is the parameter type that an element `e` of a
/// parenthesised list reads as: a name becomes a named type, a type
/// expression stays as it is, and anything else becomes a named type whose
/// name is the element's debug text (see `expr_debug_name`).
pub open spec fn is_type_param_of(t: TypeExpr, e: Expr) -> bool {
    match e {
        Expr::Ident { name, span } => t matches TypeExpr::Named { name: n, args, span: s } && n == name
            && args@.len() == 0 && s == span,
        Expr::Type(inner) => t == inner,
        _ => t matches TypeExpr::Named { name: n, args, span: s } && n@ == expr_debug_name(e) && args@.len() == 0
            && s == e.spec_span(),
    }
}

fn is_underscore_text(s: &String) -> (r: bool)
    ensures
        r == (s@ == seq!['_']),
{
    let u = String::from_str("_");
    proof {
        reveal_strlit("_");
        assert("_"@ =~= seq!['_']);
    }
    *s == u
}

fn is_underscore(name: &Option<String>) -> (r: bool)
    ensures
        r == (name matches Some(s) && s@ == seq!['_']),
{
    match name {
        Some(s) => is_underscore_text(s),
        None => false,
    }
}

} // verus!
