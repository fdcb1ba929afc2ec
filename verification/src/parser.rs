use vstd::prelude::*;
use crate::lexer::{Tokens, Token, TokenV, TokenKind, clone_bytes};

verus! {

/// One node of the abstract syntax tree: a closed sum type with one variant
/// per grammar production.  `name` fields hold an operator or function tag
/// (such as `add` or `gt_`) as bytes; `children` are owned sub-trees whose
/// order is significant.
#[derive(Debug, PartialEq)]
pub enum Node {
    Program { children: Vec<Node> },
    Statement { children: Vec<Node> },
    FunctionDefine { name: Vec<u8>, children: Vec<Node> },
    FunctionArguments { children: Vec<Node> },
    FunctionStatements { children: Vec<Node> },
    Expression { children: Vec<Node> },
    MathExpression { name: Vec<u8>, children: Vec<Node> },
    FunctionCall { name: Vec<u8>, children: Vec<Node> },
    VariableDefine { children: Vec<Node> },
    FunctionReturn { children: Vec<Node> },
    Number { value: i32 },
    Bool { value: bool },
    Identifier { value: Vec<u8> },
    String { value: Vec<u8> },
    Comment { value: Vec<u8> },
    ConditionalExpression { name: Vec<u8>, children: Vec<Node> },
    Null,
}

/// Mathematical image of a [`Node`].
pub enum NodeV {
    Program { children: Seq<NodeV> },
    Statement { children: Seq<NodeV> },
    FunctionDefine { name: Seq<u8>, children: Seq<NodeV> },
    FunctionArguments { children: Seq<NodeV> },
    FunctionStatements { children: Seq<NodeV> },
    Expression { children: Seq<NodeV> },
    MathExpression { name: Seq<u8>, children: Seq<NodeV> },
    FunctionCall { name: Seq<u8>, children: Seq<NodeV> },
    VariableDefine { children: Seq<NodeV> },
    FunctionReturn { children: Seq<NodeV> },
    Number { value: i32 },
    Bool { value: bool },
    Identifier { value: Seq<u8> },
    String { value: Seq<u8> },
    Comment { value: Seq<u8> },
    ConditionalExpression { name: Seq<u8>, children: Seq<NodeV> },
    Null,
}

/// View of a sequence of nodes.
pub open spec fn nodes_view(s: Seq<Node>) -> Seq<NodeV>
    decreases s,
{
    if s.len() == 0 {
        Seq::empty()
    } else {
        seq![s[0]@] + nodes_view(s.subrange(1, s.len() as int))
    }
}

/// The view of a node sequence is its element-by-element view.
pub broadcast proof fn lemma_nodes_view(s: Seq<Node>)
    ensures
        (#[trigger] nodes_view(s)).len() == s.len(),
        forall|i: int| 0 <= i < s.len() ==> nodes_view(s)[i] == s[i]@,
    decreases s.len(),
{
    if s.len() > 0 {
        let rest = s.subrange(1, s.len() as int);
        lemma_nodes_view(rest);
        assert(nodes_view(s) == seq![s[0]@] + nodes_view(rest));
        assert forall|i: int| 0 <= i < s.len() implies nodes_view(s)[i] == s[i]@ by {
            if i > 0 {
                assert(nodes_view(s)[i] == nodes_view(rest)[i - 1]);
                assert(rest[i - 1] == s[i]);
            }
        }
    }
}

impl View for Node {
    type V = NodeV;

    open spec fn view(&self) -> NodeV
        decreases self,
    {
        match self {
            Node::Program { children } => NodeV::Program { children: nodes_view(children@) },
            Node::Statement { children } => NodeV::Statement { children: nodes_view(children@) },
            Node::FunctionDefine { name, children } => NodeV::FunctionDefine {
                name: name@,
                children: nodes_view(children@),
            },
            Node::FunctionArguments { children } => NodeV::FunctionArguments {
                children: nodes_view(children@),
            },
            Node::FunctionStatements { children } => NodeV::FunctionStatements {
                children: nodes_view(children@),
            },
            Node::Expression { children } => NodeV::Expression { children: nodes_view(children@) },
            Node::MathExpression { name, children } => NodeV::MathExpression {
                name: name@,
                children: nodes_view(children@),
            },
            Node::FunctionCall { name, children } => NodeV::FunctionCall {
                name: name@,
                children: nodes_view(children@),
            },
            Node::VariableDefine { children } => NodeV::VariableDefine {
                children: nodes_view(children@),
            },
            Node::FunctionReturn { children } => NodeV::FunctionReturn {
                children: nodes_view(children@),
            },
            Node::Number { value } => NodeV::Number { value: *value },
            Node::Bool { value } => NodeV::Bool { value: *value },
            Node::Identifier { value } => NodeV::Identifier { value: value@ },
            Node::String { value } => NodeV::String { value: value@ },
            Node::Comment { value } => NodeV::Comment { value: value@ },
            Node::ConditionalExpression { name, children } => NodeV::ConditionalExpression {
                name: name@,
                children: nodes_view(children@),
            },
            Node::Null => NodeV::Null,
        }
    }
}

/// Element-by-element copy of a vector of nodes.
fn clone_nodes(v: &Vec<Node>) -> (r: Vec<Node>)
    ensures
        nodes_view(r@) == nodes_view(v@),
    decreases *v,
{
    let mut r: Vec<Node> = Vec::new();
    let mut k: usize = 0;
    while k < v.len()
        invariant
            k <= v@.len(),
            nodes_view(r@).len() == k,
            forall|i: int| 0 <= i < k ==> nodes_view(r@)[i] == nodes_view(v@)[i],
        decreases v@.len() - k,
    {
        proof {
            assert(decreases_to!(*v => v@[k as int]));
        }
        let c = clone_node(&v[k]);
        let ghost r0 = r@;
        r.push(c);
        proof {
            broadcast use lemma_nodes_view;

            assert(forall|i: int| 0 <= i < k ==> r@[i] == r0[i]);
            assert(nodes_view(r@)[k as int] == c@);
            assert(nodes_view(v@)[k as int] == v@[k as int]@);
        }
        k += 1;
    }
    proof {
        broadcast use lemma_nodes_view;

        assert(nodes_view(r@) =~= nodes_view(v@));
    }
    r
}

/// Deep copy of a node; the copy has the same mathematical image.
pub fn clone_node(n: &Node) -> (r: Node)
    ensures
        r@ == n@,
    decreases *n,
{
    match n {
        Node::Program { children } => Node::Program { children: clone_nodes(children) },
        Node::Statement { children } => Node::Statement { children: clone_nodes(children) },
        Node::FunctionDefine { name, children } => Node::FunctionDefine {
            name: clone_bytes(name),
            children: clone_nodes(children),
        },
        Node::FunctionArguments { children } => Node::FunctionArguments {
            children: clone_nodes(children),
        },
        Node::FunctionStatements { children } => Node::FunctionStatements {
            children: clone_nodes(children),
        },
        Node::Expression { children } => Node::Expression { children: clone_nodes(children) },
        Node::MathExpression { name, children } => Node::MathExpression {
            name: clone_bytes(name),
            children: clone_nodes(children),
        },
        Node::FunctionCall { name, children } => Node::FunctionCall {
            name: clone_bytes(name),
            children: clone_nodes(children),
        },
        Node::VariableDefine { children } => Node::VariableDefine {
            children: clone_nodes(children),
        },
        Node::FunctionReturn { children } => Node::FunctionReturn {
            children: clone_nodes(children),
        },
        Node::Number { value } => Node::Number { value: *value },
        Node::Bool { value } => Node::Bool { value: *value },
        Node::Identifier { value } => Node::Identifier { value: clone_bytes(value) },
        Node::String { value } => Node::String { value: clone_bytes(value) },
        Node::Comment { value } => Node::Comment { value: clone_bytes(value) },
        Node::ConditionalExpression { name, children } => Node::ConditionalExpression {
            name: clone_bytes(name),
            children: clone_nodes(children),
        },
        Node::Null => Node::Null,
    }
}

impl Clone for Node {
    fn clone(&self) -> (r: Node)
        ensures
            r@ == self@,
    {
        clone_node(self)
    }
}

/// A recoverable parse failure, carrying the token position at which the
/// failing rule gave up.
#[derive(Debug, PartialEq, Eq, Structural, Clone, Copy)]
pub struct ParseError {
    pub pos: usize,
}

// ---------------------------------------------------------------------------
// The grammar, as spec functions over token-stream views.  Each rule takes
// the token sequence and a cursor and returns either the cursor after the
// match together with the node built, or the position at which matching
// failed.  Ordered alternation is the sole disambiguation mechanism; a
// failed alternative restores the cursor for the next one.
// ---------------------------------------------------------------------------

/// Matching one token of the given kind.
pub open spec fn sp_token(toks: Seq<TokenV>, pos: int, k: TokenKind) -> Result<int, int> {
    if 0 <= pos < toks.len() && toks[pos].kind == k {
        Ok(pos + 1)
    } else {
        Err(pos)
    }
}

/// End of the run of `Alpha`/`Digit` tokens beginning at `pos`.
pub open spec fn sp_alnum_end(toks: Seq<TokenV>, pos: int) -> int
    decreases toks.len() - pos,
{
    if 0 <= pos < toks.len() && (toks[pos].kind == TokenKind::Alpha || toks[pos].kind
        == TokenKind::Digit) {
        sp_alnum_end(toks, pos + 1)
    } else {
        pos
    }
}

/// End of the run of `Digit` tokens beginning at `pos`.
pub open spec fn sp_digit_end(toks: Seq<TokenV>, pos: int) -> int
    decreases toks.len() - pos,
{
    if 0 <= pos < toks.len() && toks[pos].kind == TokenKind::Digit {
        sp_digit_end(toks, pos + 1)
    } else {
        pos
    }
}

/// End of the run of `Alpha` tokens beginning at `pos`.
pub open spec fn sp_alpha_end(toks: Seq<TokenV>, pos: int) -> int
    decreases toks.len() - pos,
{
    if 0 <= pos < toks.len() && toks[pos].kind == TokenKind::Alpha {
        sp_alpha_end(toks, pos + 1)
    } else {
        pos
    }
}

/// The lexeme bytes of the tokens in `[from, to)`, concatenated in order.
pub open spec fn lexemes(toks: Seq<TokenV>, from: int, to: int) -> Seq<u8>
    decreases to - from,
{
    if from >= to {
        Seq::empty()
    } else {
        lexemes(toks, from, to - 1) + toks[to - 1].lexeme
    }
}

/// Every byte is an ASCII digit.
pub open spec fn all_digit_bytes(b: Seq<u8>) -> bool {
    forall|i: int| 0 <= i < b.len() ==> crate::lexer::is_digit_byte(b[i])
}

/// The non-negative integer denoted by a sequence of ASCII digit bytes.
pub open spec fn digits_value(b: Seq<u8>) -> int
    decreases b.len(),
{
    if b.len() == 0 {
        0
    } else {
        digits_value(b.drop_last()) * 10 + (b.last() - 48)
    }
}

/// `identifier = alpha alnum*`, the lexemes concatenated into a name.
pub open spec fn sp_identifier(toks: Seq<TokenV>, pos: int) -> Result<(int, NodeV), int> {
    if 0 <= pos < toks.len() && toks[pos].kind == TokenKind::Alpha {
        let end = sp_alnum_end(toks, pos + 1);
        Ok((end, NodeV::Identifier { value: lexemes(toks, pos, end) }))
    } else {
        Err(pos)
    }
}

/// `number = digit+`, the lexemes concatenated and read as a signed 32-bit
/// integer; a run that does not denote such an integer is a match failure.
pub open spec fn sp_number(toks: Seq<TokenV>, pos: int) -> Result<(int, NodeV), int> {
    if 0 <= pos < toks.len() && toks[pos].kind == TokenKind::Digit {
        let end = sp_digit_end(toks, pos + 1);
        let b = lexemes(toks, pos, end);
        if all_digit_bytes(b) && digits_value(b) <= i32::MAX {
            Ok((end, NodeV::Number { value: digits_value(b) as i32 }))
        } else {
            Err(pos)
        }
    } else {
        Err(pos)
    }
}

/// `boolean = "true" | "false"`.
pub open spec fn sp_boolean(toks: Seq<TokenV>, pos: int) -> Result<(int, NodeV), int> {
    if 0 <= pos < toks.len() && toks[pos].kind == TokenKind::True {
        Ok((pos + 1, NodeV::Bool { value: true }))
    } else if 0 <= pos < toks.len() && toks[pos].kind == TokenKind::False {
        Ok((pos + 1, NodeV::Bool { value: false }))
    } else {
        Err(pos)
    }
}

/// `string = quote alnum* quote`.
pub open spec fn sp_string(toks: Seq<TokenV>, pos: int) -> Result<(int, NodeV), int> {
    match sp_token(toks, pos, TokenKind::Quote) {
        Ok(p1) => {
            let end = sp_alnum_end(toks, p1);
            match sp_token(toks, end, TokenKind::Quote) {
                Ok(p2) => Ok((p2, NodeV::String { value: lexemes(toks, p1, end) })),
                Err(e) => Err(e),
            }
        },
        Err(e) => Err(e),
    }
}

/// `comment = "//" alpha*`.
pub open spec fn sp_comment(toks: Seq<TokenV>, pos: int) -> Result<(int, NodeV), int> {
    match sp_token(toks, pos, TokenKind::Slash) {
        Ok(p1) => match sp_token(toks, p1, TokenKind::Slash) {
            Ok(p2) => {
                let end = sp_alpha_end(toks, p2);
                Ok((end, NodeV::Comment { value: lexemes(toks, p2, end) }))
            },
            Err(e) => Err(e),
        },
        Err(e) => Err(e),
    }
}

/// `value = number | identifier | boolean`, tried in that order.
pub open spec fn sp_value(toks: Seq<TokenV>, pos: int) -> Result<(int, NodeV), int> {
    match sp_number(toks, pos) {
        Ok(r) => Ok(r),
        Err(_) => match sp_identifier(toks, pos) {
            Ok(r) => Ok(r),
            Err(_) => sp_boolean(toks, pos),
        },
    }
}

/// The tag of the `+` operator: `add`.
pub open spec fn add_tag() -> Seq<u8> {
    seq![97u8, 100u8, 100u8]
}

/// The tag of the `-` operator: `sub`.
pub open spec fn sub_tag() -> Seq<u8> {
    seq![115u8, 117u8, 98u8]
}

/// `math_expression = value ("+" | "-") value`: exactly one operator, no
/// chaining; `+` is tagged `add`, `-` is tagged `sub`.
pub open spec fn sp_math_expression(toks: Seq<TokenV>, pos: int) -> Result<(int, NodeV), int> {
    match sp_value(toks, pos) {
        Err(e) => Err(e),
        Ok((p1, left)) => {
            let op: Result<(int, Seq<u8>), int> = match sp_token(toks, p1, TokenKind::Plus) {
                Ok(p2) => Ok((p2, add_tag())),
                Err(_) => match sp_token(toks, p1, TokenKind::Dash) {
                    Ok(p2) => Ok((p2, sub_tag())),
                    Err(e) => Err(e),
                },
            };
            match op {
                Err(e) => Err(e),
                Ok((p2, tag)) => match sp_value(toks, p2) {
                    Err(e) => Err(e),
                    Ok((p3, right)) => Ok(
                        (p3, NodeV::MathExpression { name: tag, children: seq![left, right] }),
                    ),
                },
            }
        },
    }
}

/// Whether a token kind is one of the six comparison operators.
pub open spec fn is_comparison_kind(k: TokenKind) -> bool {
    k == TokenKind::GreaterThan || k == TokenKind::LessThan || k
        == TokenKind::GreaterThanOrEqualTo || k == TokenKind::LessThanOrEqualTo || k
        == TokenKind::EqualTo || k == TokenKind::NotEqualTo
}

/// The tag of the `>` operator: `gt_`.
pub open spec fn gt_tag() -> Seq<u8> {
    seq![103u8, 116u8, 95u8]
}

/// The tag of the `<` operator: `lt_`.
pub open spec fn lt_tag() -> Seq<u8> {
    seq![108u8, 116u8, 95u8]
}

/// The tag of the `>=` operator: `gte`.
pub open spec fn gte_tag() -> Seq<u8> {
    seq![103u8, 116u8, 101u8]
}

/// The tag of the `<=` operator: `lte`.
pub open spec fn lte_tag() -> Seq<u8> {
    seq![108u8, 116u8, 101u8]
}

/// The tag of the `==` operator: `eq_`.
pub open spec fn eq_tag() -> Seq<u8> {
    seq![101u8, 113u8, 95u8]
}

/// The tag of the `!=` operator: `neq`.
pub open spec fn neq_tag() -> Seq<u8> {
    seq![110u8, 101u8, 113u8]
}

/// The tag of a comparison operator: `gt_`, `lt_`, `gte`, `lte`, `eq_`,
/// `neq`.
pub open spec fn sp_op_name(k: TokenKind) -> Seq<u8> {
    match k {
        TokenKind::GreaterThan => gt_tag(),
        TokenKind::LessThan => lt_tag(),
        TokenKind::GreaterThanOrEqualTo => gte_tag(),
        TokenKind::LessThanOrEqualTo => lte_tag(),
        TokenKind::EqualTo => eq_tag(),
        TokenKind::NotEqualTo => neq_tag(),
        _ => Seq::empty(),
    }
}

/// `conditional_operator = ">" | "<" | ">=" | "<=" | "==" | "!="`, yielding
/// the operator's kind.
pub open spec fn sp_conditional_operator(toks: Seq<TokenV>, pos: int) -> Result<
    (int, TokenKind),
    int,
> {
    if 0 <= pos < toks.len() && is_comparison_kind(toks[pos].kind) {
        Ok((pos + 1, toks[pos].kind))
    } else {
        Err(pos)
    }
}

// The remaining rules are mutually recursive.  Their measure is the number
// of tokens left, then a rank that orders the rules called at the same
// cursor.  A rule that resumes at a cursor returned by another rule recurses
// only behind a progress guard (`pos < p <= toks.len()`); the guards are
// provably never taken the other way, which each executable rule shows.

/// `function_call = identifier "(" arguments? ")"`: at most one
/// comma-separated argument group; with none, one empty `FunctionArguments`
/// node stands in.
pub open spec fn sp_function_call(toks: Seq<TokenV>, pos: int) -> Result<(int, NodeV), int>
    decreases toks.len() - pos, 1int,
{
    match sp_identifier(toks, pos) {
        Err(e) => Err(e),
        Ok((p1, idn)) => match sp_token(toks, p1, TokenKind::LeftParen) {
            Err(e) => Err(e),
            Ok(p2) => {
                let args: Result<(int, NodeV), int> = if pos < p2 && p2 <= toks.len() {
                    sp_arguments(toks, p2)
                } else {
                    Err(p2)
                };
                let group: (int, NodeV) = match args {
                    Ok((p3, fa)) => (p3, fa),
                    Err(_) => (p2, NodeV::FunctionArguments { children: Seq::empty() }),
                };
                match sp_token(toks, group.0, TokenKind::RightParen) {
                    Err(e) => Err(e),
                    Ok(p4) => match idn {
                        NodeV::Identifier { value } => Ok(
                            (p4, NodeV::FunctionCall { name: value, children: seq![group.1] }),
                        ),
                        _ => Err(pos),
                    },
                }
            },
        },
    }
}

/// `lower_precedence_expression = boolean | math_expression | function_call
/// | number | string | identifier`, tried in that order: the operand
/// alternative of a comparison chain.
pub open spec fn sp_lower_precedence_expression(toks: Seq<TokenV>, pos: int) -> Result<
    (int, NodeV),
    int,
>
    decreases toks.len() - pos, 2int,
{
    match sp_boolean(toks, pos) {
        Ok(r) => Ok(r),
        Err(_) => match sp_math_expression(toks, pos) {
            Ok(r) => Ok(r),
            Err(_) => match sp_function_call(toks, pos) {
                Ok(r) => Ok(r),
                Err(_) => match sp_number(toks, pos) {
                    Ok(r) => Ok(r),
                    Err(_) => match sp_string(toks, pos) {
                        Ok(r) => Ok(r),
                        Err(_) => sp_identifier(toks, pos),
                    },
                },
            },
        },
    }
}

/// The zero-or-more `(operator, operand)` pairs of a comparison chain,
/// folded left-associatively onto `acc`; each operand is wrapped in an
/// `Expression` node.
pub open spec fn sp_cond_tail(toks: Seq<TokenV>, pos: int, acc: NodeV) -> (int, NodeV)
    decreases toks.len() - pos, 1int,
{
    match sp_conditional_operator(toks, pos) {
        Err(_) => (pos, acc),
        Ok((p1, opk)) => match sp_lower_precedence_expression(toks, p1) {
            Err(_) => (pos, acc),
            Ok((p2, right)) => {
                if pos < p2 && p2 <= toks.len() {
                    sp_cond_tail(
                        toks,
                        p2,
                        NodeV::ConditionalExpression {
                            name: sp_op_name(opk),
                            children: seq![
                                NodeV::Expression { children: seq![acc] },
                                NodeV::Expression { children: seq![right] },
                            ],
                        },
                    )
                } else {
                    (pos, acc)
                }
            },
        },
    }
}

/// `conditional_expression`: one lower-precedence operand, then the folded
/// comparison chain.  A chain of length zero yields the operand itself.
pub open spec fn sp_conditional_expression(toks: Seq<TokenV>, pos: int) -> Result<(int, NodeV), int>
    decreases toks.len() - pos, 3int,
{
    match sp_lower_precedence_expression(toks, pos) {
        Err(e) => Err(e),
        Ok((p1, first)) => {
            if pos < p1 && p1 <= toks.len() {
                let t = sp_cond_tail(toks, p1, first);
                Ok((t.0, t.1))
            } else {
                Ok((p1, first))
            }
        },
    }
}

/// `expression = boolean | math_expression | conditional_expression |
/// function_call | number | string | identifier`, tried in that order, the
/// match wrapped in one `Expression` node.
pub open spec fn sp_expression(toks: Seq<TokenV>, pos: int) -> Result<(int, NodeV), int>
    decreases toks.len() - pos, 4int,
{
    let inner: Result<(int, NodeV), int> = match sp_boolean(toks, pos) {
        Ok(r) => Ok(r),
        Err(_) => match sp_math_expression(toks, pos) {
            Ok(r) => Ok(r),
            Err(_) => match sp_conditional_expression(toks, pos) {
                Ok(r) => Ok(r),
                Err(_) => match sp_function_call(toks, pos) {
                    Ok(r) => Ok(r),
                    Err(_) => match sp_number(toks, pos) {
                        Ok(r) => Ok(r),
                        Err(_) => match sp_string(toks, pos) {
                            Ok(r) => Ok(r),
                            Err(_) => sp_identifier(toks, pos),
                        },
                    },
                },
            },
        },
    };
    match inner {
        Err(e) => Err(e),
        Ok((p1, n)) => Ok((p1, NodeV::Expression { children: seq![n] })),
    }
}

/// `other_arg = "," expression`.
pub open spec fn sp_other_arg(toks: Seq<TokenV>, pos: int) -> Result<(int, NodeV), int>
    decreases toks.len() - pos, 1int,
{
    match sp_token(toks, pos, TokenKind::Comma) {
        Err(e) => Err(e),
        Ok(p1) => sp_expression(toks, p1),
    }
}

/// The zero-or-more further `other_arg` matches after the first argument.
pub open spec fn sp_other_list(toks: Seq<TokenV>, pos: int) -> (int, Seq<NodeV>)
    decreases toks.len() - pos, 2int,
{
    match sp_other_arg(toks, pos) {
        Err(_) => (pos, Seq::empty()),
        Ok((p1, n)) => {
            if pos < p1 && p1 <= toks.len() {
                let rest = sp_other_list(toks, p1);
                (rest.0, seq![n] + rest.1)
            } else {
                (pos, Seq::empty())
            }
        },
    }
}

/// `arguments = expression ("," expression)*`, collected into one
/// `FunctionArguments` node.
pub open spec fn sp_arguments(toks: Seq<TokenV>, pos: int) -> Result<(int, NodeV), int>
    decreases toks.len() - pos, 5int,
{
    match sp_expression(toks, pos) {
        Err(e) => Err(e),
        Ok((p1, arg)) => {
            let rest: (int, Seq<NodeV>) = if pos < p1 && p1 <= toks.len() {
                sp_other_list(toks, p1)
            } else {
                (p1, Seq::empty())
            };
            Ok((rest.0, NodeV::FunctionArguments { children: seq![arg] + rest.1 }))
        },
    }
}

/// `variable_define = "let" identifier "=" expression`.
pub open spec fn sp_variable_define(toks: Seq<TokenV>, pos: int) -> Result<(int, NodeV), int>
    decreases toks.len() - pos, 5int,
{
    match sp_token(toks, pos, TokenKind::Let) {
        Err(e) => Err(e),
        Ok(p1) => match sp_identifier(toks, p1) {
            Err(e) => Err(e),
            Ok((p2, idn)) => match sp_token(toks, p2, TokenKind::Equal) {
                Err(e) => Err(e),
                Ok(p3) => {
                    let ex: Result<(int, NodeV), int> = if pos < p3 && p3 <= toks.len() {
                        sp_expression(toks, p3)
                    } else {
                        Err(p3)
                    };
                    match ex {
                        Err(e) => Err(e),
                        Ok((p4, exn)) => Ok(
                            (p4, NodeV::VariableDefine { children: seq![idn, exn] }),
                        ),
                    }
                },
            },
        },
    }
}

/// `function_return = "return" (function_call | expression | identifier)`.
pub open spec fn sp_function_return(toks: Seq<TokenV>, pos: int) -> Result<(int, NodeV), int>
    decreases toks.len() - pos, 5int,
{
    match sp_token(toks, pos, TokenKind::Return) {
        Err(e) => Err(e),
        Ok(p1) => {
            let inner: Result<(int, NodeV), int> = match sp_function_call(toks, p1) {
                Ok(r) => Ok(r),
                Err(_) => match sp_expression(toks, p1) {
                    Ok(r) => Ok(r),
                    Err(_) => sp_identifier(toks, p1),
                },
            };
            match inner {
                Err(e) => Err(e),
                Ok((p2, n)) => Ok((p2, NodeV::FunctionReturn { children: seq![n] })),
            }
        },
    }
}

/// `statement = (variable_define | expression | function_return) ";"`.
pub open spec fn sp_statement(toks: Seq<TokenV>, pos: int) -> Result<(int, NodeV), int>
    decreases toks.len() - pos, 6int,
{
    let inner: Result<(int, NodeV), int> = match sp_variable_define(toks, pos) {
        Ok(r) => Ok(r),
        Err(_) => match sp_expression(toks, pos) {
            Ok(r) => Ok(r),
            Err(_) => sp_function_return(toks, pos),
        },
    };
    match inner {
        Err(e) => Err(e),
        Ok((p1, n)) => match sp_token(toks, p1, TokenKind::Semicolon) {
            Err(e) => Err(e),
            Ok(p2) => Ok((p2, n)),
        },
    }
}

/// The zero-or-more statements after the first one in a function body.
pub open spec fn sp_stmt_rest(toks: Seq<TokenV>, pos: int) -> (int, Seq<NodeV>)
    decreases toks.len() - pos, 7int,
{
    match sp_statement(toks, pos) {
        Err(_) => (pos, Seq::empty()),
        Ok((p1, n)) => {
            if pos < p1 && p1 <= toks.len() {
                let rest = sp_stmt_rest(toks, p1);
                (rest.0, seq![n] + rest.1)
            } else {
                (pos, Seq::empty())
            }
        },
    }
}

/// One-or-more statements.
pub open spec fn sp_stmt_list(toks: Seq<TokenV>, pos: int) -> Result<(int, Seq<NodeV>), int>
    decreases toks.len() - pos, 7int,
{
    match sp_statement(toks, pos) {
        Err(e) => Err(e),
        Ok((p1, n)) => {
            if pos < p1 && p1 <= toks.len() {
                let rest = sp_stmt_rest(toks, p1);
                Ok((rest.0, seq![n] + rest.1))
            } else {
                Ok((p1, seq![n]))
            }
        },
    }
}

/// `function_define = "fn" identifier "(" arguments? ")" "{" statement+
/// "}"`: the argument group (or an empty one) and the statements become
/// the two children.
pub open spec fn sp_function_define(toks: Seq<TokenV>, pos: int) -> Result<(int, NodeV), int>
    decreases toks.len() - pos, 8int,
{
    match sp_token(toks, pos, TokenKind::Fn) {
        Err(e) => Err(e),
        Ok(p1) => match sp_identifier(toks, p1) {
            Err(e) => Err(e),
            Ok((p2, idn)) => match sp_token(toks, p2, TokenKind::LeftParen) {
                Err(e) => Err(e),
                Ok(p3) => {
                    let args: Result<(int, NodeV), int> = if pos < p3 && p3 <= toks.len() {
                        sp_arguments(toks, p3)
                    } else {
                        Err(p3)
                    };
                    let group: (int, NodeV) = match args {
                        Ok((pa, fa)) => (pa, fa),
                        Err(_) => (p3, NodeV::FunctionArguments { children: Seq::empty() }),
                    };
                    match sp_token(toks, group.0, TokenKind::RightParen) {
                        Err(e) => Err(e),
                        Ok(p4) => match sp_token(toks, p4, TokenKind::LeftCurly) {
                            Err(e) => Err(e),
                            Ok(p5) => {
                                let stmts: Result<(int, Seq<NodeV>), int> = if pos < p5 && p5
                                    <= toks.len() {
                                    sp_stmt_list(toks, p5)
                                } else {
                                    Err(p5)
                                };
                                match stmts {
                                    Err(e) => Err(e),
                                    Ok((p6, sts)) => match sp_token(
                                        toks,
                                        p6,
                                        TokenKind::RightCurly,
                                    ) {
                                        Err(e) => Err(e),
                                        Ok(p7) => match idn {
                                            NodeV::Identifier { value } => Ok(
                                                (
                                                    p7,
                                                    NodeV::FunctionDefine {
                                                        name: value,
                                                        children: seq![
                                                            group.1,
                                                            NodeV::FunctionStatements {
                                                                children: sts,
                                                            },
                                                        ],
                                                    },
                                                ),
                                            ),
                                            _ => Err(pos),
                                        },
                                    },
                                }
                            },
                        },
                    }
                },
            },
        },
    }
}

/// One item of a program: `function_define | expression | statement |
/// string | boolean | number`, tried in that order.
pub open spec fn sp_program_item(toks: Seq<TokenV>, pos: int) -> Result<(int, NodeV), int>
    decreases toks.len() - pos, 9int,
{
    match sp_function_define(toks, pos) {
        Ok(r) => Ok(r),
        Err(_) => match sp_expression(toks, pos) {
            Ok(r) => Ok(r),
            Err(_) => match sp_statement(toks, pos) {
                Ok(r) => Ok(r),
                Err(_) => match sp_string(toks, pos) {
                    Ok(r) => Ok(r),
                    Err(_) => match sp_boolean(toks, pos) {
                        Ok(r) => Ok(r),
                        Err(_) => sp_number(toks, pos),
                    },
                },
            },
        },
    }
}

/// The zero-or-more program items after the first one.
pub open spec fn sp_program_rest(toks: Seq<TokenV>, pos: int) -> (int, Seq<NodeV>)
    decreases toks.len() - pos, 10int,
{
    match sp_program_item(toks, pos) {
        Err(_) => (pos, Seq::empty()),
        Ok((p1, n)) => {
            if pos < p1 && p1 <= toks.len() {
                let rest = sp_program_rest(toks, p1);
                (rest.0, seq![n] + rest.1)
            } else {
                (pos, Seq::empty())
            }
        },
    }
}

/// `program = item+`, collected into one `Program` node.
pub open spec fn sp_program(toks: Seq<TokenV>, pos: int) -> Result<(int, NodeV), int>
    decreases toks.len() - pos, 10int,
{
    match sp_program_item(toks, pos) {
        Err(e) => Err(e),
        Ok((p1, n)) => {
            if pos < p1 && p1 <= toks.len() {
                let rest = sp_program_rest(toks, p1);
                Ok((rest.0, NodeV::Program { children: seq![n] + rest.1 }))
            } else {
                Ok((p1, NodeV::Program { children: seq![n] }))
            }
        },
    }
}

// ---------------------------------------------------------------------------
// The executable rules.  Each one returns exactly what its spec counterpart
// says, and on a match it strictly advances the cursor without running past
// the end of the stream.
// ---------------------------------------------------------------------------

/// What every executable rule promises: its outcome is the one its spec
/// counterpart `s` computes, and a match strictly advances the cursor.
pub open spec fn parses_to(
    toks: Seq<TokenV>,
    pos: int,
    r: Result<(usize, Node), ParseError>,
    s: Result<(int, NodeV), int>,
) -> bool {
    match r {
        Ok((p2, node)) => s == Ok::<(int, NodeV), int>((p2 as int, node@)) && pos < p2 <= toks.len(),
        Err(e) => s == Err::<(int, NodeV), int>(e.pos as int),
    }
}

/// Detaches the front token at `pos`: a copy of it, with the cursor moved
/// past it.
pub fn split_tokens(input: &Tokens, pos: usize) -> (r: Result<(usize, Token), ParseError>)
    ensures
        match r {
            Ok((p, t)) => pos < input@.len() && p == pos + 1 && t@ == input@[pos as int],
            Err(e) => pos >= input@.len() && e.pos == pos,
        },
{
    if pos < input.tokens.len() {
        let t = input.tokens[pos].clone();
        Ok((pos + 1, t))
    } else {
        Err(ParseError { pos })
    }
}

/// Whether the token at `pos` exists and has kind `k`.
fn kind_at_is(input: &Tokens, pos: usize, k: TokenKind) -> (r: bool)
    ensures
        r == (pos < input@.len() && input@[pos as int].kind == k),
{
    if pos < input.tokens.len() {
        input.tokens[pos].kind == k
    } else {
        false
    }
}

/// Consume one token, checking that it has the given kind.
pub fn check_token(input: &Tokens, pos: usize, k: TokenKind) -> (r: Result<usize, ParseError>)
    ensures
        match r {
            Ok(p) => sp_token(input@, pos as int, k) == Ok::<int, int>(p as int) && p == pos + 1
                && p <= input@.len(),
            Err(e) => sp_token(input@, pos as int, k) == Err::<int, int>(e.pos as int) && e.pos
                == pos,
        },
{
    if pos < input.tokens.len() {
        if input.tokens[pos].kind == k {
            Ok(pos + 1)
        } else {
            Err(ParseError { pos })
        }
    } else {
        Err(ParseError { pos })
    }
}

/// End of the run of `Alpha`/`Digit` tokens beginning at `pos`.
fn alnum_end(input: &Tokens, pos: usize) -> (e: usize)
    requires
        pos <= input@.len(),
    ensures
        e as int == sp_alnum_end(input@, pos as int),
        pos <= e <= input@.len(),
{
    let n = input.tokens.len();
    let mut k = pos;
    while kind_at_is(input, k, TokenKind::Alpha) || kind_at_is(input, k, TokenKind::Digit)
        invariant
            n == input@.len(),
            pos <= k <= n,
            sp_alnum_end(input@, pos as int) == sp_alnum_end(input@, k as int),
        decreases input@.len() - k,
    {
        k += 1;
    }
    k
}

/// End of the run of `Digit` tokens beginning at `pos`.
fn digit_end(input: &Tokens, pos: usize) -> (e: usize)
    requires
        pos <= input@.len(),
    ensures
        e as int == sp_digit_end(input@, pos as int),
        pos <= e <= input@.len(),
{
    let n = input.tokens.len();
    let mut k = pos;
    while kind_at_is(input, k, TokenKind::Digit)
        invariant
            n == input@.len(),
            pos <= k <= n,
            sp_digit_end(input@, pos as int) == sp_digit_end(input@, k as int),
        decreases input@.len() - k,
    {
        k += 1;
    }
    k
}

/// End of the run of `Alpha` tokens beginning at `pos`.
fn alpha_end(input: &Tokens, pos: usize) -> (e: usize)
    requires
        pos <= input@.len(),
    ensures
        e as int == sp_alpha_end(input@, pos as int),
        pos <= e <= input@.len(),
{
    let n = input.tokens.len();
    let mut k = pos;
    while kind_at_is(input, k, TokenKind::Alpha)
        invariant
            n == input@.len(),
            pos <= k <= n,
            sp_alpha_end(input@, pos as int) == sp_alpha_end(input@, k as int),
        decreases input@.len() - k,
    {
        k += 1;
    }
    k
}

/// The lexeme bytes of the tokens in `[from, to)`, concatenated in order.
fn collect_lexemes(input: &Tokens, from: usize, to: usize) -> (r: Vec<u8>)
    requires
        from <= to <= input@.len(),
    ensures
        r@ == lexemes(input@, from as int, to as int),
{
    let mut r: Vec<u8> = Vec::new();
    let mut k = from;
    proof {
        assert(r@ =~= lexemes(input@, from as int, from as int));
    }
    while k < to
        invariant
            from <= k <= to <= input@.len(),
            r@ == lexemes(input@, from as int, k as int),
        decreases to - k,
    {
        let ghost r0 = r@;
        let lx = &input.tokens[k].lexeme;
        let mut j: usize = 0;
        while j < lx.len()
            invariant
                j <= lx@.len(),
                r@ == r0 + lx@.subrange(0, j as int),
            decreases lx@.len() - j,
        {
            r.push(lx[j]);
            proof {
                assert(r@ =~= r0 + lx@.subrange(0, j as int + 1));
            }
            j += 1;
        }
        proof {
            assert(lx@.subrange(0, lx@.len() as int) =~= lx@);
            assert(input@[k as int].lexeme == lx@);
            assert(r@ =~= lexemes(input@, from as int, k as int + 1));
        }
        k += 1;
    }
    r
}

/// Three tag bytes as a vector.
fn tag3(a: u8, b: u8, c: u8) -> (r: Vec<u8>)
    ensures
        r@ == seq![a, b, c],
{
    let mut r: Vec<u8> = Vec::new();
    r.push(a);
    r.push(b);
    r.push(c);
    proof {
        assert(r@ =~= seq![a, b, c]);
    }
    r
}

pub fn t_alpha(input: &Tokens, pos: usize) -> (r: Result<usize, ParseError>)
    ensures
        match r {
            Ok(p) => sp_token(input@, pos as int, TokenKind::Alpha) == Ok::<int, int>(p as int),
            Err(e) => sp_token(input@, pos as int, TokenKind::Alpha) == Err::<int, int>(
                e.pos as int,
            ),
        },
{
    check_token(input, pos, TokenKind::Alpha)
}

pub fn t_digit(input: &Tokens, pos: usize) -> (r: Result<usize, ParseError>)
    ensures
        match r {
            Ok(p) => sp_token(input@, pos as int, TokenKind::Digit) == Ok::<int, int>(p as int),
            Err(e) => sp_token(input@, pos as int, TokenKind::Digit) == Err::<int, int>(
                e.pos as int,
            ),
        },
{
    check_token(input, pos, TokenKind::Digit)
}

pub fn t_true(input: &Tokens, pos: usize) -> (r: Result<usize, ParseError>)
    ensures
        match r {
            Ok(p) => sp_token(input@, pos as int, TokenKind::True) == Ok::<int, int>(p as int),
            Err(e) => sp_token(input@, pos as int, TokenKind::True) == Err::<int, int>(
                e.pos as int,
            ),
        },
{
    check_token(input, pos, TokenKind::True)
}

pub fn t_false(input: &Tokens, pos: usize) -> (r: Result<usize, ParseError>)
    ensures
        match r {
            Ok(p) => sp_token(input@, pos as int, TokenKind::False) == Ok::<int, int>(p as int),
            Err(e) => sp_token(input@, pos as int, TokenKind::False) == Err::<int, int>(
                e.pos as int,
            ),
        },
{
    check_token(input, pos, TokenKind::False)
}

/// One-or-more `Alpha` tokens: the end of the run, if it is not empty.
pub fn t_alpha1(input: &Tokens, pos: usize) -> (r: Result<usize, ParseError>)
    requires
        pos <= input@.len(),
    ensures
        match r {
            Ok(e) => e as int == sp_alpha_end(input@, pos as int) && pos < e <= input@.len(),
            Err(err) => sp_alpha_end(input@, pos as int) == pos && err.pos == pos,
        },
{
    let e = alpha_end(input, pos);
    if e > pos {
        Ok(e)
    } else {
        Err(ParseError { pos })
    }
}

/// Zero-or-more `Alpha` tokens: the end of the run.
pub fn t_alpha0(input: &Tokens, pos: usize) -> (e: usize)
    requires
        pos <= input@.len(),
    ensures
        e as int == sp_alpha_end(input@, pos as int),
        pos <= e <= input@.len(),
{
    alpha_end(input, pos)
}

/// One-or-more `Alpha`/`Digit` tokens: the end of the run, if not empty.
pub fn t_alphanumeric1(input: &Tokens, pos: usize) -> (r: Result<usize, ParseError>)
    requires
        pos <= input@.len(),
    ensures
        match r {
            Ok(e) => e as int == sp_alnum_end(input@, pos as int) && pos < e <= input@.len(),
            Err(err) => sp_alnum_end(input@, pos as int) == pos && err.pos == pos,
        },
{
    let e = alnum_end(input, pos);
    if e > pos {
        Ok(e)
    } else {
        Err(ParseError { pos })
    }
}

/// Zero-or-more `Alpha`/`Digit` tokens: the end of the run.
pub fn t_alphanumeric0(input: &Tokens, pos: usize) -> (e: usize)
    requires
        pos <= input@.len(),
    ensures
        e as int == sp_alnum_end(input@, pos as int),
        pos <= e <= input@.len(),
{
    alnum_end(input, pos)
}

pub fn t_left_paren(input: &Tokens, pos: usize) -> (r: Result<usize, ParseError>)
    ensures
        match r {
            Ok(p) => sp_token(input@, pos as int, TokenKind::LeftParen) == Ok::<int, int>(p as int),
            Err(e) => sp_token(input@, pos as int, TokenKind::LeftParen) == Err::<int, int>(
                e.pos as int,
            ),
        },
{
    check_token(input, pos, TokenKind::LeftParen)
}

pub fn t_right_paren(input: &Tokens, pos: usize) -> (r: Result<usize, ParseError>)
    ensures
        match r {
            Ok(p) => sp_token(input@, pos as int, TokenKind::RightParen) == Ok::<int, int>(
                p as int,
            ),
            Err(e) => sp_token(input@, pos as int, TokenKind::RightParen) == Err::<int, int>(
                e.pos as int,
            ),
        },
{
    check_token(input, pos, TokenKind::RightParen)
}

pub fn t_left_curly(input: &Tokens, pos: usize) -> (r: Result<usize, ParseError>)
    ensures
        match r {
            Ok(p) => sp_token(input@, pos as int, TokenKind::LeftCurly) == Ok::<int, int>(p as int),
            Err(e) => sp_token(input@, pos as int, TokenKind::LeftCurly) == Err::<int, int>(
                e.pos as int,
            ),
        },
{
    check_token(input, pos, TokenKind::LeftCurly)
}

pub fn t_right_curly(input: &Tokens, pos: usize) -> (r: Result<usize, ParseError>)
    ensures
        match r {
            Ok(p) => sp_token(input@, pos as int, TokenKind::RightCurly) == Ok::<int, int>(
                p as int,
            ),
            Err(e) => sp_token(input@, pos as int, TokenKind::RightCurly) == Err::<int, int>(
                e.pos as int,
            ),
        },
{
    check_token(input, pos, TokenKind::RightCurly)
}

pub fn t_quote(input: &Tokens, pos: usize) -> (r: Result<usize, ParseError>)
    ensures
        match r {
            Ok(p) => sp_token(input@, pos as int, TokenKind::Quote) == Ok::<int, int>(p as int),
            Err(e) => sp_token(input@, pos as int, TokenKind::Quote) == Err::<int, int>(
                e.pos as int,
            ),
        },
{
    check_token(input, pos, TokenKind::Quote)
}

pub fn t_slash(input: &Tokens, pos: usize) -> (r: Result<usize, ParseError>)
    ensures
        match r {
            Ok(p) => sp_token(input@, pos as int, TokenKind::Slash) == Ok::<int, int>(p as int),
            Err(e) => sp_token(input@, pos as int, TokenKind::Slash) == Err::<int, int>(
                e.pos as int,
            ),
        },
{
    check_token(input, pos, TokenKind::Slash)
}

pub fn t_comma(input: &Tokens, pos: usize) -> (r: Result<usize, ParseError>)
    ensures
        match r {
            Ok(p) => sp_token(input@, pos as int, TokenKind::Comma) == Ok::<int, int>(p as int),
            Err(e) => sp_token(input@, pos as int, TokenKind::Comma) == Err::<int, int>(
                e.pos as int,
            ),
        },
{
    check_token(input, pos, TokenKind::Comma)
}

pub fn t_semicolon(input: &Tokens, pos: usize) -> (r: Result<usize, ParseError>)
    ensures
        match r {
            Ok(p) => sp_token(input@, pos as int, TokenKind::Semicolon) == Ok::<int, int>(p as int),
            Err(e) => sp_token(input@, pos as int, TokenKind::Semicolon) == Err::<int, int>(
                e.pos as int,
            ),
        },
{
    check_token(input, pos, TokenKind::Semicolon)
}

pub fn t_let(input: &Tokens, pos: usize) -> (r: Result<usize, ParseError>)
    ensures
        match r {
            Ok(p) => sp_token(input@, pos as int, TokenKind::Let) == Ok::<int, int>(p as int),
            Err(e) => sp_token(input@, pos as int, TokenKind::Let) == Err::<int, int>(e.pos as int),
        },
{
    check_token(input, pos, TokenKind::Let)
}

pub fn t_fn(input: &Tokens, pos: usize) -> (r: Result<usize, ParseError>)
    ensures
        match r {
            Ok(p) => sp_token(input@, pos as int, TokenKind::Fn) == Ok::<int, int>(p as int),
            Err(e) => sp_token(input@, pos as int, TokenKind::Fn) == Err::<int, int>(e.pos as int),
        },
{
    check_token(input, pos, TokenKind::Fn)
}

pub fn t_return(input: &Tokens, pos: usize) -> (r: Result<usize, ParseError>)
    ensures
        match r {
            Ok(p) => sp_token(input@, pos as int, TokenKind::Return) == Ok::<int, int>(p as int),
            Err(e) => sp_token(input@, pos as int, TokenKind::Return) == Err::<int, int>(
                e.pos as int,
            ),
        },
{
    check_token(input, pos, TokenKind::Return)
}

pub fn t_whitespace(input: &Tokens, pos: usize) -> (r: Result<usize, ParseError>)
    ensures
        match r {
            Ok(p) => sp_token(input@, pos as int, TokenKind::WhiteSpace) == Ok::<int, int>(
                p as int,
            ),
            Err(e) => sp_token(input@, pos as int, TokenKind::WhiteSpace) == Err::<int, int>(
                e.pos as int,
            ),
        },
{
    check_token(input, pos, TokenKind::WhiteSpace)
}

pub fn t_plus(input: &Tokens, pos: usize) -> (r: Result<usize, ParseError>)
    ensures
        match r {
            Ok(p) => sp_token(input@, pos as int, TokenKind::Plus) == Ok::<int, int>(p as int),
            Err(e) => sp_token(input@, pos as int, TokenKind::Plus) == Err::<int, int>(
                e.pos as int,
            ),
        },
{
    check_token(input, pos, TokenKind::Plus)
}

pub fn t_dash(input: &Tokens, pos: usize) -> (r: Result<usize, ParseError>)
    ensures
        match r {
            Ok(p) => sp_token(input@, pos as int, TokenKind::Dash) == Ok::<int, int>(p as int),
            Err(e) => sp_token(input@, pos as int, TokenKind::Dash) == Err::<int, int>(
                e.pos as int,
            ),
        },
{
    check_token(input, pos, TokenKind::Dash)
}

pub fn t_equal_to(input: &Tokens, pos: usize) -> (r: Result<usize, ParseError>)
    ensures
        match r {
            Ok(p) => sp_token(input@, pos as int, TokenKind::EqualTo) == Ok::<int, int>(p as int),
            Err(e) => sp_token(input@, pos as int, TokenKind::EqualTo) == Err::<int, int>(
                e.pos as int,
            ),
        },
{
    check_token(input, pos, TokenKind::EqualTo)
}

pub fn t_equal(input: &Tokens, pos: usize) -> (r: Result<usize, ParseError>)
    ensures
        match r {
            Ok(p) => sp_token(input@, pos as int, TokenKind::Equal) == Ok::<int, int>(p as int),
            Err(e) => sp_token(input@, pos as int, TokenKind::Equal) == Err::<int, int>(
                e.pos as int,
            ),
        },
{
    check_token(input, pos, TokenKind::Equal)
}

pub fn t_not_equal_to(input: &Tokens, pos: usize) -> (r: Result<usize, ParseError>)
    ensures
        match r {
            Ok(p) => sp_token(input@, pos as int, TokenKind::NotEqualTo) == Ok::<int, int>(
                p as int,
            ),
            Err(e) => sp_token(input@, pos as int, TokenKind::NotEqualTo) == Err::<int, int>(
                e.pos as int,
            ),
        },
{
    check_token(input, pos, TokenKind::NotEqualTo)
}

pub fn t_less_than(input: &Tokens, pos: usize) -> (r: Result<usize, ParseError>)
    ensures
        match r {
            Ok(p) => sp_token(input@, pos as int, TokenKind::LessThan) == Ok::<int, int>(p as int),
            Err(e) => sp_token(input@, pos as int, TokenKind::LessThan) == Err::<int, int>(
                e.pos as int,
            ),
        },
{
    check_token(input, pos, TokenKind::LessThan)
}

pub fn t_less_than_or_equal_to(input: &Tokens, pos: usize) -> (r: Result<usize, ParseError>)
    ensures
        match r {
            Ok(p) => sp_token(input@, pos as int, TokenKind::LessThanOrEqualTo) == Ok::<int, int>(
                p as int,
            ),
            Err(e) => sp_token(input@, pos as int, TokenKind::LessThanOrEqualTo) == Err::<
                int,
                int,
            >(e.pos as int),
        },
{
    check_token(input, pos, TokenKind::LessThanOrEqualTo)
}

pub fn t_greater_than(input: &Tokens, pos: usize) -> (r: Result<usize, ParseError>)
    ensures
        match r {
            Ok(p) => sp_token(input@, pos as int, TokenKind::GreaterThan) == Ok::<int, int>(
                p as int,
            ),
            Err(e) => sp_token(input@, pos as int, TokenKind::GreaterThan) == Err::<int, int>(
                e.pos as int,
            ),
        },
{
    check_token(input, pos, TokenKind::GreaterThan)
}

pub fn t_greater_than_or_equal_to(input: &Tokens, pos: usize) -> (r: Result<usize, ParseError>)
    ensures
        match r {
            Ok(p) => sp_token(input@, pos as int, TokenKind::GreaterThanOrEqualTo) == Ok::<
                int,
                int,
            >(p as int),
            Err(e) => sp_token(input@, pos as int, TokenKind::GreaterThanOrEqualTo) == Err::<
                int,
                int,
            >(e.pos as int),
        },
{
    check_token(input, pos, TokenKind::GreaterThanOrEqualTo)
}

proof fn lemma_digits_value_nonneg(b: Seq<u8>)
    requires
        all_digit_bytes(b),
    ensures
        digits_value(b) >= 0,
    decreases b.len(),
{
    if b.len() > 0 {
        assert(all_digit_bytes(b.drop_last()));
        lemma_digits_value_nonneg(b.drop_last());
    }
}

/// Appending digits can only grow the denoted value.
proof fn lemma_digits_value_mono(b: Seq<u8>, k: int)
    requires
        all_digit_bytes(b),
        0 <= k <= b.len(),
    ensures
        digits_value(b) >= digits_value(b.subrange(0, k)),
    decreases b.len() - k,
{
    if k < b.len() {
        lemma_digits_value_mono(b, k + 1);
        let p = b.subrange(0, k);
        let q = b.subrange(0, k + 1);
        assert(q.drop_last() =~= p);
        assert(q.last() == b[k]);
        assert(all_digit_bytes(p));
        lemma_digits_value_nonneg(p);
        assert(digits_value(q) == digits_value(p) * 10 + (b[k] - 48));
    } else {
        assert(b.subrange(0, k) =~= b);
    }
}

/// `identifier = alpha alnum*`: the lexemes concatenated into a name.
pub fn identifier(input: &Tokens, pos: usize) -> (r: Result<(usize, Node), ParseError>)
    ensures
        parses_to(input@, pos as int, r, sp_identifier(input@, pos as int)),
{
    if pos < input.tokens.len() {
        if input.tokens[pos].kind == TokenKind::Alpha {
            let end = alnum_end(input, pos + 1);
            let bytes = collect_lexemes(input, pos, end);
            Ok((end, Node::Identifier { value: bytes }))
        } else {
            Err(ParseError { pos })
        }
    } else {
        Err(ParseError { pos })
    }
}

/// `number = digit+`: the digit run read as a signed 32-bit integer; a run
/// with a non-digit lexeme byte or a value past the 32-bit range is a match
/// failure at the run's start.
pub fn number(input: &Tokens, pos: usize) -> (r: Result<(usize, Node), ParseError>)
    ensures
        parses_to(input@, pos as int, r, sp_number(input@, pos as int)),
{
    if !(pos < input.tokens.len()) {
        return Err(ParseError { pos });
    }
    if !(input.tokens[pos].kind == TokenKind::Digit) {
        return Err(ParseError { pos });
    }
    let end = digit_end(input, pos + 1);
    let bytes = collect_lexemes(input, pos, end);
    let mut acc: i32 = 0;
    let mut j: usize = 0;
    proof {
        assert(bytes@.subrange(0, 0) =~= Seq::<u8>::empty());
    }
    while j < bytes.len()
        invariant
            j <= bytes@.len(),
            all_digit_bytes(bytes@.subrange(0, j as int)),
            acc == digits_value(bytes@.subrange(0, j as int)),
            0 <= acc,
            bytes@ == lexemes(input@, pos as int, end as int),
            sp_digit_end(input@, pos as int + 1) == end as int,
            pos < input@.len(),
            input@[pos as int].kind == TokenKind::Digit,
        decreases bytes@.len() - j,
    {
        let ghost pre = bytes@.subrange(0, j as int);
        let ghost pre1 = bytes@.subrange(0, j as int + 1);
        proof {
            assert(pre1.drop_last() =~= pre);
            assert(pre1.last() == bytes@[j as int]);
        }
        let b = bytes[j];
        if b < 48 || 57 < b {
            proof {
                assert(!crate::lexer::is_digit_byte(bytes@[j as int]));
                assert(!all_digit_bytes(bytes@));
            }
            return Err(ParseError { pos });
        }
        let d = (b - 48) as i32;
        let stepped: Option<i32> = match acc.checked_mul(10) {
            Some(m) => m.checked_add(d),
            None => None,
        };
        match stepped {
            Some(v) => {
                proof {
                    assert(digits_value(pre1) == acc * 10 + (b - 48));
                }
                acc = v;
            },
            None => {
                proof {
                    assert(digits_value(pre1) == acc * 10 + (b - 48));
                    assert(digits_value(pre1) > i32::MAX);
                    if all_digit_bytes(bytes@) {
                        lemma_digits_value_mono(bytes@, j as int + 1);
                    }
                    assert(!(all_digit_bytes(bytes@) && digits_value(bytes@) <= i32::MAX));
                }
                return Err(ParseError { pos });
            },
        }
        j += 1;
    }
    proof {
        assert(bytes@.subrange(0, bytes@.len() as int) =~= bytes@);
    }
    Ok((end, Node::Number { value: acc }))
}

/// `boolean = "true" | "false"`.
pub fn boolean(input: &Tokens, pos: usize) -> (r: Result<(usize, Node), ParseError>)
    ensures
        parses_to(input@, pos as int, r, sp_boolean(input@, pos as int)),
{
    if pos < input.tokens.len() {
        match input.tokens[pos].kind {
            TokenKind::True => Ok((pos + 1, Node::Bool { value: true })),
            TokenKind::False => Ok((pos + 1, Node::Bool { value: false })),
            _ => Err(ParseError { pos }),
        }
    } else {
        Err(ParseError { pos })
    }
}

/// `string = quote alnum* quote`: the lexemes between the quotes.
pub fn string(input: &Tokens, pos: usize) -> (r: Result<(usize, Node), ParseError>)
    ensures
        parses_to(input@, pos as int, r, sp_string(input@, pos as int)),
{
    let p1 = match check_token(input, pos, TokenKind::Quote) {
        Ok(p) => p,
        Err(e) => {
            return Err(e);
        },
    };
    let end = alnum_end(input, p1);
    let p2 = match check_token(input, end, TokenKind::Quote) {
        Ok(p) => p,
        Err(e) => {
            return Err(e);
        },
    };
    let bytes = collect_lexemes(input, p1, end);
    Ok((p2, Node::String { value: bytes }))
}

/// `comment = "//" alpha*`: the commented lexemes collected.
pub fn comment(input: &Tokens, pos: usize) -> (r: Result<(usize, Node), ParseError>)
    ensures
        parses_to(input@, pos as int, r, sp_comment(input@, pos as int)),
{
    let p1 = match check_token(input, pos, TokenKind::Slash) {
        Ok(p) => p,
        Err(e) => {
            return Err(e);
        },
    };
    let p2 = match check_token(input, p1, TokenKind::Slash) {
        Ok(p) => p,
        Err(e) => {
            return Err(e);
        },
    };
    let end = alpha_end(input, p2);
    let bytes = collect_lexemes(input, p2, end);
    proof {
        assert(pos < p2 <= end);
    }
    Ok((end, Node::Comment { value: bytes }))
}

/// `value = number | identifier | boolean`, tried in that order.
pub fn value(input: &Tokens, pos: usize) -> (r: Result<(usize, Node), ParseError>)
    ensures
        parses_to(input@, pos as int, r, sp_value(input@, pos as int)),
{
    match number(input, pos) {
        Ok(x) => Ok(x),
        Err(_) => match identifier(input, pos) {
            Ok(x) => Ok(x),
            Err(_) => boolean(input, pos),
        },
    }
}

/// `math_expression = value ("+" | "-") value`.
pub fn math_expression(input: &Tokens, pos: usize) -> (r: Result<(usize, Node), ParseError>)
    ensures
        parses_to(input@, pos as int, r, sp_math_expression(input@, pos as int)),
{
    let (p1, left) = match value(input, pos) {
        Ok(x) => x,
        Err(e) => {
            return Err(e);
        },
    };
    let (p2, tag) = match check_token(input, p1, TokenKind::Plus) {
        Ok(p) => (p, tag3(97, 100, 100)),
        Err(_) => match check_token(input, p1, TokenKind::Dash) {
            Ok(p) => (p, tag3(115, 117, 98)),
            Err(e) => {
                return Err(e);
            },
        },
    };
    let (p3, right) = match value(input, p2) {
        Ok(x) => x,
        Err(e) => {
            return Err(e);
        },
    };
    let mut children: Vec<Node> = Vec::new();
    children.push(left);
    children.push(right);
    let node = Node::MathExpression { name: tag, children };
    proof {
        broadcast use lemma_nodes_view;

        assert(nodes_view(node->MathExpression_children@) =~= seq![
            node->MathExpression_children@[0]@,
            node->MathExpression_children@[1]@,
        ]);
    }
    Ok((p3, node))
}

/// `conditional_operator`: one of the six comparison tokens, yielding its
/// kind.
pub fn conditional_operator(input: &Tokens, pos: usize) -> (r: Result<(usize, TokenKind), ParseError
>)
    ensures
        match r {
            Ok((p, k)) => sp_conditional_operator(input@, pos as int) == Ok::<(int, TokenKind), int>(
                (p as int, k),
            ) && pos < p <= input@.len(),
            Err(e) => sp_conditional_operator(input@, pos as int) == Err::<(int, TokenKind), int>(
                e.pos as int,
            ),
        },
{
    if pos < input.tokens.len() {
        let k = input.tokens[pos].kind;
        match k {
            TokenKind::GreaterThan => Ok((pos + 1, k)),
            TokenKind::LessThan => Ok((pos + 1, k)),
            TokenKind::GreaterThanOrEqualTo => Ok((pos + 1, k)),
            TokenKind::LessThanOrEqualTo => Ok((pos + 1, k)),
            TokenKind::EqualTo => Ok((pos + 1, k)),
            TokenKind::NotEqualTo => Ok((pos + 1, k)),
            _ => Err(ParseError { pos }),
        }
    } else {
        Err(ParseError { pos })
    }
}

/// The tag bytes of a comparison operator.
fn get_operator_name(kind: TokenKind) -> (r: Vec<u8>)
    requires
        is_comparison_kind(kind),
    ensures
        r@ == sp_op_name(kind),
{
    match kind {
        TokenKind::GreaterThan => tag3(103, 116, 95),
        TokenKind::LessThan => tag3(108, 116, 95),
        TokenKind::GreaterThanOrEqualTo => tag3(103, 116, 101),
        TokenKind::LessThanOrEqualTo => tag3(108, 116, 101),
        TokenKind::EqualTo => tag3(101, 113, 95),
        _ => tag3(110, 101, 113),
    }
}

/// Wrap one node in a fresh singleton-child vector.
fn one_child(n: Node) -> (r: Vec<Node>)
    ensures
        nodes_view(r@) == seq![n@],
{
    let mut r: Vec<Node> = Vec::new();
    let ghost nv = n@;
    r.push(n);
    proof {
        broadcast use lemma_nodes_view;

        assert(nodes_view(r@) =~= seq![nv]);
    }
    r
}

/// Put `n` in front of the nodes of `rest`.
fn cons_node(n: Node, rest: Vec<Node>) -> (r: Vec<Node>)
    ensures
        nodes_view(r@) == seq![n@] + nodes_view(rest@),
{
    let ghost nv = n@;
    let ghost restv = rest@;
    let mut r = rest;
    r.insert(0, n);
    proof {
        broadcast use lemma_nodes_view;

        assert(r@ =~= seq![n] + restv);
        assert(nodes_view(r@) =~= seq![nv] + nodes_view(restv));
    }
    r
}

/// `function_call = identifier "(" arguments? ")"`.
pub fn function_call(input: &Tokens, pos: usize) -> (r: Result<(usize, Node), ParseError>)
    ensures
        parses_to(input@, pos as int, r, sp_function_call(input@, pos as int)),
    decreases input@.len() - pos, 1int,
{
    let (p1, idn) = match identifier(input, pos) {
        Ok(x) => x,
        Err(e) => {
            return Err(e);
        },
    };
    let p2 = match check_token(input, p1, TokenKind::LeftParen) {
        Ok(p) => p,
        Err(e) => {
            return Err(e);
        },
    };
    proof {
        assert(nodes_view(Seq::<Node>::empty()) =~= Seq::<NodeV>::empty());
    }
    let (p3, group) = match arguments(input, p2) {
        Ok(x) => x,
        Err(_) => (p2, Node::FunctionArguments { children: Vec::new() }),
    };
    let p4 = match check_token(input, p3, TokenKind::RightParen) {
        Ok(p) => p,
        Err(e) => {
            return Err(e);
        },
    };
    let name = match idn {
        Node::Identifier { value } => value,
        _ => {
            return Err(ParseError { pos });
        },
    };
    Ok((p4, Node::FunctionCall { name, children: one_child(group) }))
}

/// `lower_precedence_expression = boolean | math_expression | function_call
/// | number | string | identifier`.
pub fn lower_precedence_expression(input: &Tokens, pos: usize) -> (r: Result<
    (usize, Node),
    ParseError,
>)
    ensures
        parses_to(input@, pos as int, r, sp_lower_precedence_expression(input@, pos as int)),
    decreases input@.len() - pos, 2int,
{
    match boolean(input, pos) {
        Ok(x) => Ok(x),
        Err(_) => match math_expression(input, pos) {
            Ok(x) => Ok(x),
            Err(_) => match function_call(input, pos) {
                Ok(x) => Ok(x),
                Err(_) => match number(input, pos) {
                    Ok(x) => Ok(x),
                    Err(_) => match string(input, pos) {
                        Ok(x) => Ok(x),
                        Err(_) => identifier(input, pos),
                    },
                },
            },
        },
    }
}

/// The left-associative fold of the comparison chain onto `acc`.
fn cond_tail(input: &Tokens, pos: usize, acc: Node) -> (r: (usize, Node))
    requires
        pos <= input@.len(),
    ensures
        ({
            let s = sp_cond_tail(input@, pos as int, acc@);
            r.0 as int == s.0 && r.1@ == s.1 && pos <= r.0 <= input@.len()
        }),
    decreases input@.len() - pos, 1int,
{
    let (p1, opk) = match conditional_operator(input, pos) {
        Ok(x) => x,
        Err(_) => {
            return (pos, acc);
        },
    };
    let (p2, right) = match lower_precedence_expression(input, p1) {
        Ok(x) => x,
        Err(_) => {
            return (pos, acc);
        },
    };
    let name = get_operator_name(opk);
    let ghost accv = acc@;
    let ghost rightv = right@;
    let left_expr = Node::Expression { children: one_child(acc) };
    let right_expr = Node::Expression { children: one_child(right) };
    let mut children: Vec<Node> = Vec::new();
    children.push(left_expr);
    children.push(right_expr);
    let acc2 = Node::ConditionalExpression { name, children };
    proof {
        broadcast use lemma_nodes_view;

        assert(acc2->ConditionalExpression_children@.len() == 2);
        assert(nodes_view(acc2->ConditionalExpression_children@) =~= seq![
            NodeV::Expression { children: seq![accv] },
            NodeV::Expression { children: seq![rightv] },
        ]);
    }
    cond_tail(input, p2, acc2)
}

/// `conditional_expression`: one operand, then the folded comparison chain.
pub fn conditional_expression(input: &Tokens, pos: usize) -> (r: Result<(usize, Node), ParseError>)
    ensures
        parses_to(input@, pos as int, r, sp_conditional_expression(input@, pos as int)),
    decreases input@.len() - pos, 3int,
{
    let (p1, first) = match lower_precedence_expression(input, pos) {
        Ok(x) => x,
        Err(e) => {
            return Err(e);
        },
    };
    let t = cond_tail(input, p1, first);
    Ok((t.0, t.1))
}

/// `expression`: the ordered alternation of all expression forms, wrapped in
/// one `Expression` node.
pub fn expression(input: &Tokens, pos: usize) -> (r: Result<(usize, Node), ParseError>)
    ensures
        parses_to(input@, pos as int, r, sp_expression(input@, pos as int)),
    decreases input@.len() - pos, 4int,
{
    let inner = match boolean(input, pos) {
        Ok(x) => Ok(x),
        Err(_) => match math_expression(input, pos) {
            Ok(x) => Ok(x),
            Err(_) => match conditional_expression(input, pos) {
                Ok(x) => Ok(x),
                Err(_) => match function_call(input, pos) {
                    Ok(x) => Ok(x),
                    Err(_) => match number(input, pos) {
                        Ok(x) => Ok(x),
                        Err(_) => match string(input, pos) {
                            Ok(x) => Ok(x),
                            Err(_) => identifier(input, pos),
                        },
                    },
                },
            },
        },
    };
    match inner {
        Err(e) => Err(e),
        Ok((p1, n)) => Ok((p1, Node::Expression { children: one_child(n) })),
    }
}

/// `other_arg = "," expression`.
pub fn other_arg(input: &Tokens, pos: usize) -> (r: Result<(usize, Node), ParseError>)
    ensures
        parses_to(input@, pos as int, r, sp_other_arg(input@, pos as int)),
    decreases input@.len() - pos, 1int,
{
    let p1 = match check_token(input, pos, TokenKind::Comma) {
        Ok(p) => p,
        Err(e) => {
            return Err(e);
        },
    };
    expression(input, p1)
}

/// The zero-or-more further `other_arg` matches.
fn other_list(input: &Tokens, pos: usize) -> (r: (usize, Vec<Node>))
    requires
        pos <= input@.len(),
    ensures
        ({
            let s = sp_other_list(input@, pos as int);
            r.0 as int == s.0 && nodes_view(r.1@) == s.1 && pos <= r.0 <= input@.len()
        }),
    decreases input@.len() - pos, 2int,
{
    match other_arg(input, pos) {
        Err(_) => {
            proof {
                assert(nodes_view(Seq::<Node>::empty()) =~= Seq::<NodeV>::empty());
            }
            (pos, Vec::new())
        },
        Ok((p1, n)) => {
            let rest = other_list(input, p1);
            (rest.0, cons_node(n, rest.1))
        },
    }
}

/// `arguments = expression ("," expression)*`.
pub fn arguments(input: &Tokens, pos: usize) -> (r: Result<(usize, Node), ParseError>)
    ensures
        parses_to(input@, pos as int, r, sp_arguments(input@, pos as int)),
    decreases input@.len() - pos, 5int,
{
    let (p1, arg) = match expression(input, pos) {
        Ok(x) => x,
        Err(e) => {
            return Err(e);
        },
    };
    let rest = other_list(input, p1);
    let children = cons_node(arg, rest.1);
    Ok((rest.0, Node::FunctionArguments { children }))
}

/// `variable_define = "let" identifier "=" expression`.
pub fn variable_define(input: &Tokens, pos: usize) -> (r: Result<(usize, Node), ParseError>)
    ensures
        parses_to(input@, pos as int, r, sp_variable_define(input@, pos as int)),
    decreases input@.len() - pos, 5int,
{
    let p1 = match check_token(input, pos, TokenKind::Let) {
        Ok(p) => p,
        Err(e) => {
            return Err(e);
        },
    };
    let (p2, idn) = match identifier(input, p1) {
        Ok(x) => x,
        Err(e) => {
            return Err(e);
        },
    };
    let p3 = match check_token(input, p2, TokenKind::Equal) {
        Ok(p) => p,
        Err(e) => {
            return Err(e);
        },
    };
    let (p4, exn) = match expression(input, p3) {
        Ok(x) => x,
        Err(e) => {
            return Err(e);
        },
    };
    let ghost idnv = idn@;
    let ghost exnv = exn@;
    let mut children: Vec<Node> = Vec::new();
    children.push(idn);
    children.push(exn);
    proof {
        broadcast use lemma_nodes_view;

        assert(nodes_view(children@) =~= seq![idnv, exnv]);
    }
    Ok((p4, Node::VariableDefine { children }))
}

/// `function_return = "return" (function_call | expression | identifier)`.
pub fn function_return(input: &Tokens, pos: usize) -> (r: Result<(usize, Node), ParseError>)
    ensures
        parses_to(input@, pos as int, r, sp_function_return(input@, pos as int)),
    decreases input@.len() - pos, 5int,
{
    let p1 = match check_token(input, pos, TokenKind::Return) {
        Ok(p) => p,
        Err(e) => {
            return Err(e);
        },
    };
    let inner = match function_call(input, p1) {
        Ok(x) => Ok(x),
        Err(_) => match expression(input, p1) {
            Ok(x) => Ok(x),
            Err(_) => identifier(input, p1),
        },
    };
    match inner {
        Err(e) => Err(e),
        Ok((p2, n)) => Ok((p2, Node::FunctionReturn { children: one_child(n) })),
    }
}

/// `statement = (variable_define | expression | function_return) ";"`.
pub fn statement(input: &Tokens, pos: usize) -> (r: Result<(usize, Node), ParseError>)
    ensures
        parses_to(input@, pos as int, r, sp_statement(input@, pos as int)),
    decreases input@.len() - pos, 6int,
{
    let inner = match variable_define(input, pos) {
        Ok(x) => Ok(x),
        Err(_) => match expression(input, pos) {
            Ok(x) => Ok(x),
            Err(_) => function_return(input, pos),
        },
    };
    let (p1, n) = match inner {
        Ok(x) => x,
        Err(e) => {
            return Err(e);
        },
    };
    match check_token(input, p1, TokenKind::Semicolon) {
        Err(e) => Err(e),
        Ok(p2) => Ok((p2, n)),
    }
}

/// The zero-or-more statements after the first one of a body.
fn stmt_rest(input: &Tokens, pos: usize) -> (r: (usize, Vec<Node>))
    requires
        pos <= input@.len(),
    ensures
        ({
            let s = sp_stmt_rest(input@, pos as int);
            r.0 as int == s.0 && nodes_view(r.1@) == s.1 && pos <= r.0 <= input@.len()
        }),
    decreases input@.len() - pos, 7int,
{
    match statement(input, pos) {
        Err(_) => {
            proof {
                assert(nodes_view(Seq::<Node>::empty()) =~= Seq::<NodeV>::empty());
            }
            (pos, Vec::new())
        },
        Ok((p1, n)) => {
            let rest = stmt_rest(input, p1);
            (rest.0, cons_node(n, rest.1))
        },
    }
}

/// One-or-more statements.
fn stmt_list(input: &Tokens, pos: usize) -> (r: Result<(usize, Vec<Node>), ParseError>)
    requires
        pos <= input@.len(),
    ensures
        match r {
            Ok((pf, v)) => sp_stmt_list(input@, pos as int) == Ok::<(int, Seq<NodeV>), int>(
                (pf as int, nodes_view(v@)),
            ) && pos < pf <= input@.len(),
            Err(e) => sp_stmt_list(input@, pos as int) == Err::<(int, Seq<NodeV>), int>(
                e.pos as int,
            ),
        },
    decreases input@.len() - pos, 7int,
{
    match statement(input, pos) {
        Err(e) => Err(e),
        Ok((p1, n)) => {
            let rest = stmt_rest(input, p1);
            Ok((rest.0, cons_node(n, rest.1)))
        },
    }
}

/// `function_define = "fn" identifier "(" arguments? ")" "{" statement+
/// "}"`.
pub fn function_define(input: &Tokens, pos: usize) -> (r: Result<(usize, Node), ParseError>)
    ensures
        parses_to(input@, pos as int, r, sp_function_define(input@, pos as int)),
    decreases input@.len() - pos, 8int,
{
    let p1 = match check_token(input, pos, TokenKind::Fn) {
        Ok(p) => p,
        Err(e) => {
            return Err(e);
        },
    };
    let (p2, idn) = match identifier(input, p1) {
        Ok(x) => x,
        Err(e) => {
            return Err(e);
        },
    };
    let p3 = match check_token(input, p2, TokenKind::LeftParen) {
        Ok(p) => p,
        Err(e) => {
            return Err(e);
        },
    };
    proof {
        assert(nodes_view(Seq::<Node>::empty()) =~= Seq::<NodeV>::empty());
    }
    let (p4, fa) = match arguments(input, p3) {
        Ok(x) => x,
        Err(_) => (p3, Node::FunctionArguments { children: Vec::new() }),
    };
    let p5 = match check_token(input, p4, TokenKind::RightParen) {
        Ok(p) => p,
        Err(e) => {
            return Err(e);
        },
    };
    let p6 = match check_token(input, p5, TokenKind::LeftCurly) {
        Ok(p) => p,
        Err(e) => {
            return Err(e);
        },
    };
    let (p7, stmts) = match stmt_list(input, p6) {
        Ok(x) => x,
        Err(e) => {
            return Err(e);
        },
    };
    let p8 = match check_token(input, p7, TokenKind::RightCurly) {
        Ok(p) => p,
        Err(e) => {
            return Err(e);
        },
    };
    let name = match idn {
        Node::Identifier { value } => value,
        _ => {
            return Err(ParseError { pos });
        },
    };
    let ghost fav = fa@;
    let body = Node::FunctionStatements { children: stmts };
    let ghost bodyv = body@;
    let mut children: Vec<Node> = Vec::new();
    children.push(fa);
    children.push(body);
    proof {
        broadcast use lemma_nodes_view;

        assert(nodes_view(children@) =~= seq![fav, bodyv]);
    }
    Ok((p8, Node::FunctionDefine { name, children }))
}

/// One item of a program.
fn program_item(input: &Tokens, pos: usize) -> (r: Result<(usize, Node), ParseError>)
    ensures
        parses_to(input@, pos as int, r, sp_program_item(input@, pos as int)),
    decreases input@.len() - pos, 9int,
{
    match function_define(input, pos) {
        Ok(x) => Ok(x),
        Err(_) => match expression(input, pos) {
            Ok(x) => Ok(x),
            Err(_) => match statement(input, pos) {
                Ok(x) => Ok(x),
                Err(_) => match string(input, pos) {
                    Ok(x) => Ok(x),
                    Err(_) => match boolean(input, pos) {
                        Ok(x) => Ok(x),
                        Err(_) => number(input, pos),
                    },
                },
            },
        },
    }
}

/// The zero-or-more program items after the first one.
fn program_rest(input: &Tokens, pos: usize) -> (r: (usize, Vec<Node>))
    requires
        pos <= input@.len(),
    ensures
        ({
            let s = sp_program_rest(input@, pos as int);
            r.0 as int == s.0 && nodes_view(r.1@) == s.1 && pos <= r.0 <= input@.len()
        }),
    decreases input@.len() - pos, 10int,
{
    match program_item(input, pos) {
        Err(_) => {
            proof {
                assert(nodes_view(Seq::<Node>::empty()) =~= Seq::<NodeV>::empty());
            }
            (pos, Vec::new())
        },
        Ok((p1, n)) => {
            let rest = program_rest(input, p1);
            (rest.0, cons_node(n, rest.1))
        },
    }
}

/// `program = item+`, the top grammar rule.
pub fn program(input: &Tokens, pos: usize) -> (r: Result<(usize, Node), ParseError>)
    ensures
        parses_to(input@, pos as int, r, sp_program(input@, pos as int)),
    decreases input@.len() - pos, 10int,
{
    let (p1, n) = match program_item(input, pos) {
        Ok(x) => x,
        Err(e) => {
            return Err(e);
        },
    };
    let rest = program_rest(input, p1);
    let children = cons_node(n, rest.1);
    Ok((rest.0, Node::Program { children }))
}

/// Whether a token stream holds one syntactically valid whole program: the
/// top rule matches and what it leaves is only the `EOF` sentinel, or
/// nothing.
pub open spec fn parses_fully(toks: Seq<TokenV>) -> bool {
    match sp_program(toks, 0) {
        Ok((p, _)) => crate::lexer::spec_is_done(toks.subrange(p, toks.len() as int)),
        Err(_) => false,
    }
}

/// Round-trip shape: whenever the lexed form of a source text is one valid
/// program, the top rule succeeds on it and its remainder is done.  With
/// the contracts of [`crate::lexer::lex`] and [`parse_program`], which pin
/// both calls to [`crate::lexer::lex_spec`] and [`sp_program`], this says
/// that parsing the lexed source succeeds and consumes the whole stream.
pub proof fn lemma_parse_round_trip(src: Seq<u8>)
    requires
        parses_fully(crate::lexer::lex_spec(src)),
    ensures
        ({
            let toks = crate::lexer::lex_spec(src);
            match sp_program(toks, 0) {
                Ok((p, nv)) => crate::lexer::spec_is_done(toks.subrange(p, toks.len() as int))
                    && nv is Program,
                Err(_) => false,
            }
        }),
{
    let toks = crate::lexer::lex_spec(src);
    match sp_program(toks, 0) {
        Ok((p, nv)) => {
            assert(nv is Program);
        },
        Err(_) => {
            assert(false);
        },
    }
}

/// Parses a whole token stream as a program, handing back the remaining
/// stream beside the tree.  The caller checks `is_done` on the remainder to
/// confirm the whole input was one valid program.
pub fn parse_program(input: Tokens) -> (r: Result<(Tokens, Node), ParseError>)
    ensures
        match r {
            Ok((rest, node)) => match sp_program(input@, 0) {
                Ok((p, nv)) => node@ == nv && rest@ == input@.subrange(p, input@.len() as int),
                Err(_) => false,
            },
            Err(e) => sp_program(input@, 0) == Err::<(int, NodeV), int>(e.pos as int),
        },
{
    let ghost iv = input@;
    match program(&input, 0) {
        Err(e) => Err(e),
        Ok((p, node)) => {
            let mut toks = input.tokens;
            let tail = toks.split_off(p);
            let rest = Tokens { tokens: tail };
            proof {
                assert(rest@ =~= iv.subrange(p as int, iv.len() as int));
            }
            Ok((rest, node))
        },
    }
}

} // verus!
