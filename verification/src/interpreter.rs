use vstd::prelude::*;
use vstd::string::StringExecFns;
use crate::error::{AsaErrorKind, AsaErrorV};
use crate::lexer::clone_bytes;
use crate::parser::{
    Node,
    NodeV,
    nodes_view,
    lemma_nodes_view,
    clone_node,
    add_tag,
    sub_tag,
    gt_tag,
    lt_tag,
    gte_tag,
    lte_tag,
    eq_tag,
    neq_tag,
};

verus! {

/// A runtime result: text, a signed 32-bit integer, or a boolean.  No
/// implicit coercion exists between the variants.
#[derive(Debug, PartialEq)]
pub enum Value {
    String(Vec<u8>),
    Number(i32),
    Bool(bool),
}

/// Mathematical image of a [`Value`].
pub enum ValueV {
    String(Seq<u8>),
    Number(i32),
    Bool(bool),
}

impl View for Value {
    type V = ValueV;

    open spec fn view(&self) -> ValueV {
        match self {
            Value::String(s) => ValueV::String(s@),
            Value::Number(n) => ValueV::Number(*n),
            Value::Bool(b) => ValueV::Bool(*b),
        }
    }
}

impl Clone for Value {
    fn clone(&self) -> (r: Value)
        ensures
            r@ == self@,
    {
        match self {
            Value::String(s) => Value::String(clone_bytes(s)),
            Value::Number(n) => Value::Number(*n),
            Value::Bool(b) => Value::Bool(*b),
        }
    }
}

/// One scope's bindings, name bytes to value.
type Frame = Vec<(Vec<u8>, Value)>;

/// The interpreter: a write-once function table and an explicit stack of
/// frames.  Both are per-instance; independent interpreters share nothing.
///
/// Scoping is dynamic and frame-granular: every `let` binding pushes a
/// frame of its own, and a completed call pops exactly one frame, so a body
/// with several bindings leaves its binding frames on the stack after the
/// call returns.  This reproduces the frame-per-binding model deliberately;
/// the evaluation relation below states it exactly.
#[derive(Debug)]
pub struct Interpreter {
    functions: Vec<(Vec<u8>, Node, Node)>,
    stack: Vec<Frame>,
}

/// The bindings a frame denotes; a later entry for the same name shadows an
/// earlier one.
pub open spec fn frame_map(s: Seq<(Vec<u8>, Value)>) -> Map<Seq<u8>, ValueV>
    decreases s.len(),
{
    if s.len() == 0 {
        Map::empty()
    } else {
        frame_map(s.drop_last()).insert(s.last().0@, s.last().1@)
    }
}

/// The function table a list of definitions denotes, each entry a
/// `(parameter-list, body)` pair under its name.
pub open spec fn fns_map(s: Seq<(Vec<u8>, Node, Node)>) -> Map<Seq<u8>, (NodeV, NodeV)>
    decreases s.len(),
{
    if s.len() == 0 {
        Map::empty()
    } else {
        fns_map(s.drop_last()).insert(s.last().0@, (s.last().1@, s.last().2@))
    }
}

/// View of the frame stack, innermost frame last.
pub open spec fn frames_view(s: Seq<Frame>) -> Seq<Map<Seq<u8>, ValueV>> {
    Seq::new(s.len(), |i: int| frame_map(s[i]@))
}

/// Mathematical image of an [`Interpreter`]: its function table and frame
/// stack.
#[verifier::ext_equal]
pub struct StateV {
    pub functions: Map<Seq<u8>, (NodeV, NodeV)>,
    pub stack: Seq<Map<Seq<u8>, ValueV>>,
}

impl View for Interpreter {
    type V = StateV;

    closed spec fn view(&self) -> StateV {
        StateV { functions: fns_map(self.functions@), stack: frames_view(self.stack@) }
    }
}

/// Whether two byte vectors hold the same bytes.
fn bytes_eq(a: &Vec<u8>, b: &Vec<u8>) -> (r: bool)
    ensures
        r == (a@ == b@),
{
    if a.len() != b.len() {
        proof {
            assert(a@ != b@);
        }
        return false;
    }
    let n = a.len();
    let mut i: usize = 0;
    while i < n
        invariant
            n == a@.len() == b@.len(),
            i <= n,
            forall|j: int| 0 <= j < i ==> a@[j] == b@[j],
        decreases n - i,
    {
        if a[i] != b[i] {
            proof {
                assert(a@ != b@);
            }
            return false;
        }
        i += 1;
    }
    proof {
        assert(a@ =~= b@);
    }
    true
}

/// Entries of `s` from `i` on never bind `name`, so the maps of `s` and of
/// its first `i` entries agree on `name`.
proof fn lemma_frame_map_skip(s: Seq<(Vec<u8>, Value)>, name: Seq<u8>, i: int)
    requires
        0 <= i <= s.len(),
        forall|j: int| i <= j < s.len() ==> s[j].0@ != name,
    ensures
        frame_map(s).contains_key(name) <==> frame_map(s.subrange(0, i)).contains_key(name),
        frame_map(s).contains_key(name) ==> frame_map(s)[name] == frame_map(s.subrange(0, i))[name],
    decreases s.len(),
{
    if i < s.len() {
        let d = s.drop_last();
        assert(s.last().0@ != name);
        assert(frame_map(s) == frame_map(d).insert(s.last().0@, s.last().1@));
        lemma_frame_map_skip(d, name, i);
        assert(d.subrange(0, i) =~= s.subrange(0, i));
    } else {
        assert(s.subrange(0, i) =~= s);
    }
}

/// The same, for the function table.
proof fn lemma_fns_map_skip(s: Seq<(Vec<u8>, Node, Node)>, name: Seq<u8>, i: int)
    requires
        0 <= i <= s.len(),
        forall|j: int| i <= j < s.len() ==> s[j].0@ != name,
    ensures
        fns_map(s).contains_key(name) <==> fns_map(s.subrange(0, i)).contains_key(name),
        fns_map(s).contains_key(name) ==> fns_map(s)[name] == fns_map(s.subrange(0, i))[name],
    decreases s.len(),
{
    if i < s.len() {
        let d = s.drop_last();
        assert(s.last().0@ != name);
        assert(fns_map(s) == fns_map(d).insert(s.last().0@, (s.last().1@, s.last().2@)));
        lemma_fns_map_skip(d, name, i);
        assert(d.subrange(0, i) =~= s.subrange(0, i));
    } else {
        assert(s.subrange(0, i) =~= s);
    }
}

/// The value bound to `name` in one frame, if any: the latest entry wins.
fn frame_lookup(frame: &Frame, name: &Vec<u8>) -> (r: Option<Value>)
    ensures
        match r {
            Some(v) => frame_map(frame@).contains_key(name@) && frame_map(frame@)[name@] == v@,
            None => !frame_map(frame@).contains_key(name@),
        },
{
    let n = frame.len();
    let mut i: usize = n;
    while i > 0
        invariant
            n == frame@.len(),
            i <= n,
            forall|j: int| i <= j < n ==> frame@[j].0@ != name@,
        decreases i,
    {
        i -= 1;
        if bytes_eq(&frame[i].0, name) {
            let v = frame[i].1.clone();
            proof {
                lemma_frame_map_skip(frame@, name@, i as int + 1);
                let pre = frame@.subrange(0, i as int + 1);
                assert(pre.drop_last() =~= frame@.subrange(0, i as int));
                assert(pre.last() == frame@[i as int]);
                assert(frame_map(pre) == frame_map(pre.drop_last()).insert(
                    frame@[i as int].0@,
                    frame@[i as int].1@,
                ));
            }
            return Some(v);
        }
    }
    proof {
        lemma_frame_map_skip(frame@, name@, 0);
        assert(frame@.subrange(0, 0) =~= Seq::<(Vec<u8>, Value)>::empty());
    }
    None
}

/// The parameter list and body registered under `name`, if any, as deep
/// copies.
fn fns_lookup(fns: &Vec<(Vec<u8>, Node, Node)>, name: &Vec<u8>) -> (r: Option<(Node, Node)>)
    ensures
        match r {
            Some((a, b)) => fns_map(fns@).contains_key(name@) && fns_map(fns@)[name@] == (a@, b@),
            None => !fns_map(fns@).contains_key(name@),
        },
{
    let n = fns.len();
    let mut i: usize = n;
    while i > 0
        invariant
            n == fns@.len(),
            i <= n,
            forall|j: int| i <= j < n ==> fns@[j].0@ != name@,
        decreases i,
    {
        i -= 1;
        if bytes_eq(&fns[i].0, name) {
            let a = clone_node(&fns[i].1);
            let b = clone_node(&fns[i].2);
            proof {
                lemma_fns_map_skip(fns@, name@, i as int + 1);
                let pre = fns@.subrange(0, i as int + 1);
                assert(pre.drop_last() =~= fns@.subrange(0, i as int));
                assert(pre.last() == fns@[i as int]);
                assert(fns_map(pre) == fns_map(pre.drop_last()).insert(
                    fns@[i as int].0@,
                    (fns@[i as int].1@, fns@[i as int].2@),
                ));
            }
            return Some((a, b));
        }
    }
    proof {
        lemma_fns_map_skip(fns@, name@, 0);
        assert(fns@.subrange(0, 0) =~= Seq::<(Vec<u8>, Node, Node)>::empty());
    }
    None
}

/// The value of `name` found by searching the frames innermost-out.
pub open spec fn lookup_stack(stack: Seq<Map<Seq<u8>, ValueV>>, name: Seq<u8>) -> Option<ValueV>
    decreases stack.len(),
{
    if stack.len() == 0 {
        None
    } else if stack.last().contains_key(name) {
        Some(stack.last()[name])
    } else {
        lookup_stack(stack.drop_last(), name)
    }
}

/// Search every frame, innermost first, for `name`.
fn stack_lookup(stack: &Vec<Frame>, name: &Vec<u8>) -> (r: Option<Value>)
    ensures
        match r {
            Some(v) => lookup_stack(frames_view(stack@), name@) == Some(v@),
            None => lookup_stack(frames_view(stack@), name@).is_none(),
        },
{
    let n = stack.len();
    let mut i: usize = n;
    proof {
        assert(frames_view(stack@).subrange(0, n as int) =~= frames_view(stack@));
    }
    while i > 0
        invariant
            n == stack@.len(),
            i <= n,
            lookup_stack(frames_view(stack@), name@) == lookup_stack(
                frames_view(stack@).subrange(0, i as int),
                name@,
            ),
        decreases i,
    {
        i -= 1;
        let ghost pre = frames_view(stack@).subrange(0, i as int + 1);
        proof {
            assert(pre.drop_last() =~= frames_view(stack@).subrange(0, i as int));
            assert(pre.last() == frame_map(stack@[i as int]@));
        }
        match frame_lookup(&stack[i], name) {
            Some(v) => {
                return Some(v);
            },
            None => {},
        }
    }
    proof {
        assert(frames_view(stack@).subrange(0, 0) =~= Seq::<Map<Seq<u8>, ValueV>>::empty());
    }
    None
}

// ---------------------------------------------------------------------------
// The evaluator, as spec functions: one recursive evaluation relation over
// node views, threading the interpreter state through every step.  The
// executable `exec` returns exactly what these functions compute.
// ---------------------------------------------------------------------------

/// Every byte is ASCII: below 128.
pub open spec fn ascii_bytes(b: Seq<u8>) -> bool {
    forall|i: int| 0 <= i < b.len() ==> b[i] < 128
}

/// ASCII bytes read as the characters of the same code points.
pub open spec fn ascii_view(b: Seq<u8>) -> Seq<char> {
    Seq::new(b.len(), |i: int| b[i] as char)
}

/// The message of the redefinition error.  It names the function whenever
/// the name bytes are ASCII, as every lexed identifier's are; a name that
/// no text can show is left out.
pub open spec fn redefined_msg(name: Seq<u8>) -> Seq<char> {
    if ascii_bytes(name) {
        "Function '"@ + ascii_view(name) + "' redefined"@
    } else {
        "Function redefined"@
    }
}

/// The message of the argument-count error, naming the function the same
/// way.
pub open spec fn arity_msg(name: Seq<u8>) -> Seq<char> {
    if ascii_bytes(name) {
        "Function '"@ + ascii_view(name) + "' called with an incorrect number of arguments"@
    } else {
        "Function called with an incorrect number of arguments"@
    }
}

/// A state together with what a step produced: a value or an error.
pub type EvalStep = (StateV, Result<ValueV, AsaErrorV>);

/// How many nested function calls `exec` is willing to make.  Each call
/// consumes one unit; a program that nests deeper is rejected with a generic
/// error rather than overrunning the machine stack, which a walk a few
/// thousand calls deep would otherwise do.
pub const MAX_CALL_DEPTH: u32 = 512;

/// Two's-complement wrap-around of the sum of two 32-bit integers.
pub open spec fn wrap_add(a: i32, b: i32) -> i32 {
    if a + b > i32::MAX {
        (a + b - 0x1_0000_0000) as i32
    } else if a + b < i32::MIN {
        (a + b + 0x1_0000_0000) as i32
    } else {
        (a + b) as i32
    }
}

/// Two's-complement wrap-around of the difference of two 32-bit integers.
pub open spec fn wrap_sub(a: i32, b: i32) -> i32 {
    if a - b > i32::MAX {
        (a - b - 0x1_0000_0000) as i32
    } else if a - b < i32::MIN {
        (a - b + 0x1_0000_0000) as i32
    } else {
        (a - b) as i32
    }
}

/// The stack after the one frame of a completed call is removed.
pub open spec fn pop_frame(stack: Seq<Map<Seq<u8>, ValueV>>) -> Seq<Map<Seq<u8>, ValueV>> {
    if stack.len() > 0 {
        stack.drop_last()
    } else {
        stack
    }
}

/// The result of comparing two values under an operator tag: a `Number`
/// pair supports all six comparators, a `Bool` pair only `eq_`/`neq`, and
/// any other pairing is a type mismatch.
pub open spec fn eval_comparison(name: Seq<u8>, l: ValueV, r: ValueV) -> Result<
    ValueV,
    AsaErrorV,
> {
    match (l, r) {
        (ValueV::Number(a), ValueV::Number(b)) => {
            if name == gt_tag() {
                Ok(ValueV::Bool(a > b))
            } else if name == lt_tag() {
                Ok(ValueV::Bool(a < b))
            } else if name == gte_tag() {
                Ok(ValueV::Bool(a >= b))
            } else if name == lte_tag() {
                Ok(ValueV::Bool(a <= b))
            } else if name == eq_tag() {
                Ok(ValueV::Bool(a == b))
            } else if name == neq_tag() {
                Ok(ValueV::Bool(a != b))
            } else {
                Err(AsaErrorV::Generic("Unknown conditional operator"@))
            }
        },
        (ValueV::Bool(x), ValueV::Bool(y)) => {
            if name == eq_tag() {
                Ok(ValueV::Bool(x == y))
            } else if name == neq_tag() {
                Ok(ValueV::Bool(x != y))
            } else {
                Err(AsaErrorV::Generic("Unsupported operator for boolean comparison"@))
            }
        },
        _ => Err(AsaErrorV::Generic("Mismatched types in conditional expression"@)),
    }
}

/// One step of evaluation.  Dispatches on the node's variant; every
/// recursive descent is structural except the call into a function body,
/// which spends one unit of `fuel`.
pub open spec fn eval(st: StateV, n: NodeV, fuel: nat) -> EvalStep
    decreases fuel, n, 2int,
{
    match n {
        NodeV::Program { children } => eval_program_children(st, children, 0, fuel),
        NodeV::MathExpression { name, children } => {
            if children.len() < 2 {
                (st, Err(AsaErrorV::Generic("Error"@)))
            } else {
                let r1 = eval_math_operand(st, children[0], fuel);
                match r1.1 {
                    Err(e) => (r1.0, Err(e)),
                    Ok(v1) => {
                        let r2 = eval_math_operand(r1.0, children[1], fuel);
                        match r2.1 {
                            Err(e) => (r2.0, Err(e)),
                            Ok(v2) => {
                                if name != add_tag() && name != sub_tag() {
                                    (r2.0, Err(AsaErrorV::Generic("Unknown operation"@)))
                                } else {
                                    match (v1, v2) {
                                        (ValueV::Number(a), ValueV::Number(b)) => (
                                            r2.0,
                                            Ok(
                                                ValueV::Number(
                                                    if name == add_tag() {
                                                        wrap_add(a, b)
                                                    } else {
                                                        wrap_sub(a, b)
                                                    },
                                                ),
                                            ),
                                        ),
                                        _ => (
                                            r2.0,
                                            Err(AsaErrorV::Generic("MathOperationError"@)),
                                        ),
                                    }
                                }
                            },
                        }
                    },
                }
            }
        },
        NodeV::ConditionalExpression { name, children } => {
            if children.len() != 2 {
                (
                    st,
                    Err(
                        AsaErrorV::Generic(
                            "Conditional expression must have exactly two operands"@,
                        ),
                    ),
                )
            } else {
                let r1 = eval_cond_operand(st, children[0], fuel);
                match r1.1 {
                    Err(e) => (r1.0, Err(e)),
                    Ok(lv) => {
                        let r2 = eval_cond_operand(r1.0, children[1], fuel);
                        match r2.1 {
                            Err(e) => (r2.0, Err(e)),
                            Ok(rv) => (r2.0, eval_comparison(name, lv, rv)),
                        }
                    },
                }
            }
        },
        NodeV::FunctionCall { .. } => eval_call(st, n, fuel),
        NodeV::FunctionDefine { name, children } => {
            if children.len() < 2 {
                (st, Err(AsaErrorV::Generic("Error"@)))
            } else if st.functions.contains_key(name) {
                (st, Err(AsaErrorV::Generic(redefined_msg(name))))
            } else {
                (
                    (StateV {
                        functions: st.functions.insert(name, (children[0], children[1])),
                        stack: st.stack,
                    }),
                    Ok(ValueV::Bool(true)),
                )
            }
        },
        NodeV::FunctionReturn { children } => {
            if st.stack.len() > 0 {
                if children.len() > 0 {
                    eval(st, children[0], fuel)
                } else {
                    (st, Err(AsaErrorV::Generic("Invalid return"@)))
                }
            } else {
                (st, Err(AsaErrorV::Generic("Invalid return"@)))
            }
        },
        NodeV::Identifier { value } => {
            if st.stack.len() > 0 && st.stack.last().contains_key(value) {
                (st, Ok(st.stack.last()[value]))
            } else {
                (st, Err(AsaErrorV::UndefinedFunction))
            }
        },
        NodeV::FunctionStatements { children } => {
            if children.len() == 0 {
                (st, Err(AsaErrorV::Generic("Invalid statement"@)))
            } else {
                match children[0] {
                    NodeV::VariableDefine { .. } => eval(st, children[0], fuel),
                    NodeV::FunctionReturn { .. } => eval(st, children[0], fuel),
                    _ => (st, Err(AsaErrorV::Generic("Invalid statement"@))),
                }
            }
        },
        NodeV::VariableDefine { children } => {
            if children.len() < 2 {
                (st, Err(AsaErrorV::Generic("Invalid variable definition"@)))
            } else {
                match children[0] {
                    NodeV::Identifier { value } => {
                        let r = eval(st, children[1], fuel);
                        match r.1 {
                            Err(e) => (r.0, Err(e)),
                            Ok(v) => (
                                (StateV {
                                    functions: r.0.functions,
                                    stack: r.0.stack.push(Map::empty().insert(value, v)),
                                }),
                                Ok(v),
                            ),
                        }
                    },
                    _ => (st, Err(AsaErrorV::Generic("Invalid variable definition"@))),
                }
            }
        },
        NodeV::Expression { children } => {
            if children.len() == 0 {
                (st, Err(AsaErrorV::Generic("Error"@)))
            } else {
                eval(st, children[0], fuel)
            }
        },
        NodeV::Number { value } => (st, Ok(ValueV::Number(value))),
        NodeV::String { value } => (st, Ok(ValueV::String(value))),
        NodeV::Bool { value } => (st, Ok(ValueV::Bool(value))),
        _ => (st, Err(AsaErrorV::Generic("Error"@))),
    }
}

/// A program's children in order: `FunctionDefine` children run for their
/// registration effect only; the first other child's result is the
/// program's result; a program of definitions alone yields `Bool(true)`.
pub open spec fn eval_program_children(st: StateV, children: Seq<NodeV>, i: int, fuel: nat) -> EvalStep
    decreases fuel, children, children.len() - i,
{
    if i < 0 || i >= children.len() {
        (st, Ok(ValueV::Bool(true)))
    } else {
        match children[i] {
            NodeV::FunctionDefine { .. } => {
                let r = eval(st, children[i], fuel);
                match r.1 {
                    Err(e) => (r.0, Err(e)),
                    Ok(_) => eval_program_children(r.0, children, i + 1, fuel),
                }
            },
            _ => eval(st, children[i], fuel),
        }
    }
}

/// An arithmetic operand: an identifier is looked up across the whole frame
/// stack, innermost first; anything else is evaluated.
pub open spec fn eval_math_operand(st: StateV, child: NodeV, fuel: nat) -> EvalStep
    decreases fuel, child, 3int,
{
    match child {
        NodeV::Identifier { value } => match lookup_stack(st.stack, value) {
            Some(v) => (st, Ok(v)),
            None => (st, Err(AsaErrorV::UndefinedFunction)),
        },
        _ => eval(st, child, fuel),
    }
}

/// A comparison operand: an `Expression` wrapper whose single child is
/// resolved, identifiers searched across the whole frame stack.
pub open spec fn eval_cond_operand(st: StateV, child: NodeV, fuel: nat) -> EvalStep
    decreases fuel, child, 3int,
{
    match child {
        NodeV::Expression { children } => {
            if children.len() > 0 {
                match children[0] {
                    NodeV::ConditionalExpression { .. } => eval(st, children[0], fuel),
                    NodeV::MathExpression { .. } => eval(st, children[0], fuel),
                    NodeV::Identifier { value } => match lookup_stack(st.stack, value) {
                        Some(v) => (st, Ok(v)),
                        None => (st, Err(AsaErrorV::VariableNotDefined(value))),
                    },
                    _ => eval(st, children[0], fuel),
                }
            } else {
                (
                    st,
                    Err(
                        AsaErrorV::Generic(
                            "Expected an Expression node as child of ConditionalExpression"@,
                        ),
                    ),
                )
            }
        },
        _ => (
            st,
            Err(
                AsaErrorV::Generic(
                    "Expected an Expression node as child of ConditionalExpression"@,
                ),
            ),
        ),
    }
}

/// Zips the expected parameter identifiers against the supplied argument
/// expressions positionally, evaluating each argument in the caller's
/// current state and building the callee's frame.
pub open spec fn eval_bind(
    st: StateV,
    expected: Seq<NodeV>,
    actual: Seq<NodeV>,
    i: int,
    frame: Map<Seq<u8>, ValueV>,
    fuel: nat,
) -> (StateV, Result<Map<Seq<u8>, ValueV>, AsaErrorV>)
    decreases fuel, actual, actual.len() - i,
{
    if i < 0 || i >= expected.len() || i >= actual.len() {
        (st, Ok(frame))
    } else {
        let av: EvalStep = match actual[i] {
            NodeV::Expression { children } => {
                if children.len() > 0 {
                    match children[0] {
                        NodeV::MathExpression { .. } => eval(st, children[0], fuel),
                        NodeV::ConditionalExpression { .. } => eval(st, children[0], fuel),
                        _ => eval(st, actual[i], fuel),
                    }
                } else {
                    (st, Err(AsaErrorV::Generic("Expected an expression node with children"@)))
                }
            },
            _ => eval(st, actual[i], fuel),
        };
        match av.1 {
            Err(e) => (av.0, Err(e)),
            Ok(v) => match expected[i] {
                NodeV::Expression { children } => {
                    if children.len() > 0 {
                        match children[0] {
                            NodeV::Identifier { value } => eval_bind(
                                av.0,
                                expected,
                                actual,
                                i + 1,
                                frame.insert(value, v),
                                fuel,
                            ),
                            _ => (
                                av.0,
                                Err(AsaErrorV::Generic("Expected identifier inside expression"@)),
                            ),
                        }
                    } else {
                        (
                            av.0,
                            Err(AsaErrorV::Generic("Expected identifier inside expression"@)),
                        )
                    }
                },
                _ => (av.0, Err(AsaErrorV::Generic("Expected expression node"@))),
            },
        }
    }
}

/// A function body's statements in order; the last one's value is the
/// call's value, `Bool(true)` for an empty body.
pub open spec fn eval_stmts(
    st: StateV,
    stmts: Seq<NodeV>,
    i: int,
    last: ValueV,
    fuel: nat,
) -> EvalStep
    decreases fuel, stmts, stmts.len() - i,
{
    if i < 0 || i >= stmts.len() {
        (st, Ok(last))
    } else {
        let r = eval(st, stmts[i], fuel);
        match r.1 {
            Err(e) => (r.0, Err(e)),
            Ok(v) => eval_stmts(r.0, stmts, i + 1, v, fuel),
        }
    }
}

/// A function call: look the callee up, bind the arguments in the caller's
/// state, push the new frame, run the body, pop the frame, and return the
/// last statement's value.  An error anywhere surfaces immediately, the
/// frame still in place.
pub open spec fn eval_call(st: StateV, n: NodeV, fuel: nat) -> EvalStep
    decreases fuel, n, 1int,
{
    match n {
        NodeV::FunctionCall { name, children } => {
            if fuel == 0 {
                (st, Err(AsaErrorV::Generic("Maximum recursion depth exceeded"@)))
            } else if !st.functions.contains_key(name) {
                (st, Err(AsaErrorV::UndefinedFunction))
            } else {
                let fargs = st.functions[name].0;
                let fbody = st.functions[name].1;
                let actual: Seq<NodeV> = if children.len() > 0 {
                    match children[0] {
                        NodeV::FunctionArguments { children: ac } => ac,
                        _ => Seq::empty(),
                    }
                } else {
                    Seq::empty()
                };
                let expected: Seq<NodeV> = match fargs {
                    NodeV::FunctionArguments { children: ec } => ec,
                    _ => Seq::empty(),
                };
                if expected.len() != actual.len() {
                    (st, Err(AsaErrorV::Generic(arity_msg(name))))
                } else {
                    let b = eval_bind(st, expected, actual, 0, Map::empty(), (fuel - 1) as nat);
                    match b.1 {
                        Err(e) => (b.0, Err(e)),
                        Ok(frame) => {
                            let st2 = StateV {
                                functions: b.0.functions,
                                stack: b.0.stack.push(frame),
                            };
                            let body_stmts: Seq<NodeV> = match fbody {
                                NodeV::FunctionStatements { children: bs } => bs,
                                _ => Seq::empty(),
                            };
                            let r = eval_stmts(
                                st2,
                                body_stmts,
                                0,
                                ValueV::Bool(true),
                                (fuel - 1) as nat,
                            );
                            match r.1 {
                                Err(e) => (r.0, Err(e)),
                                Ok(v) => (
                                    (StateV {
                                        functions: r.0.functions,
                                        stack: pop_frame(r.0.stack),
                                    }),
                                    Ok(v),
                                ),
                            }
                        },
                    }
                }
            }
        },
        _ => (st, Err(AsaErrorV::Generic("Error"@))),
    }
}

// ---------------------------------------------------------------------------
// The executable interpreter.
// ---------------------------------------------------------------------------

/// A two-operand arithmetic node evaluates, in every state and at every
/// depth, to a `Number` or to an error: never to a `Bool` or a `String`.
pub proof fn lemma_math_yields_number_or_error(st: StateV, n: NodeV, fuel: nat)
    requires
        n is MathExpression,
    ensures
        match eval(st, n, fuel).1 {
            Ok(v) => v is Number,
            Err(_) => true,
        },
{
}

/// A comparison node evaluates, in every state and at every depth, to a
/// `Bool` or to an error: never to a `Number` or a `String`.
pub proof fn lemma_comparison_yields_bool_or_error(st: StateV, n: NodeV, fuel: nat)
    requires
        n is ConditionalExpression,
    ensures
        match eval(st, n, fuel).1 {
            Ok(v) => v is Bool,
            Err(_) => true,
        },
{
}

/// What `exec` promises of its outcome: the same value or the same error
/// that the evaluation relation computes.
pub open spec fn exec_matches(r: Result<Value, AsaErrorKind>, res: Result<ValueV, AsaErrorV>) -> bool {
    match (r, res) {
        (Ok(v), Ok(vv)) => v@ == vv,
        (Err(e), Err(ee)) => e@ == ee,
        _ => false,
    }
}

/// A generic error carrying the given message.
fn generic_err(m: &str) -> (e: AsaErrorKind)
    ensures
        e@ == AsaErrorV::Generic(m@),
{
    AsaErrorKind::Generic(m.to_owned())
}

/// Whether every byte of `v` is ASCII.
fn is_ascii_bytes(v: &Vec<u8>) -> (r: bool)
    ensures
        r == ascii_bytes(v@),
{
    let n = v.len();
    let mut i: usize = 0;
    while i < n
        invariant
            n == v@.len(),
            i <= n,
            forall|j: int| 0 <= j < i ==> v@[j] < 128,
        decreases n - i,
    {
        if v[i] >= 128 {
            return false;
        }
        i += 1;
    }
    true
}

/// Relies on `String::from_utf8`: bytes below 128 are valid UTF-8, and each
/// decodes to the character of the same code point.
#[verifier::external_body]
fn ascii_string(bytes: Vec<u8>) -> (r: String)
    requires
        ascii_bytes(bytes@),
    ensures
        r@ == ascii_view(bytes@),
{
    match String::from_utf8(bytes) {
        Ok(s) => s,
        Err(_) => String::new(),
    }
}

/// The redefinition error for `name`.
fn redefinition_error(name: &Vec<u8>) -> (e: AsaErrorKind)
    ensures
        e@ == AsaErrorV::Generic(redefined_msg(name@)),
{
    if is_ascii_bytes(name) {
        let shown = ascii_string(clone_bytes(name));
        let mut m: String = "Function '".to_owned();
        m.append(shown.as_str());
        m.append("' redefined");
        AsaErrorKind::Generic(m)
    } else {
        AsaErrorKind::Generic("Function redefined".to_owned())
    }
}

/// The argument-count error for `name`.
fn arity_error(name: &Vec<u8>) -> (e: AsaErrorKind)
    ensures
        e@ == AsaErrorV::Generic(arity_msg(name@)),
{
    if is_ascii_bytes(name) {
        let shown = ascii_string(clone_bytes(name));
        let mut m: String = "Function '".to_owned();
        m.append(shown.as_str());
        m.append("' called with an incorrect number of arguments");
        AsaErrorKind::Generic(m)
    } else {
        AsaErrorKind::Generic("Function called with an incorrect number of arguments".to_owned())
    }
}

/// Whether `name` is exactly the three given bytes.
fn is_tag3(name: &Vec<u8>, a: u8, b: u8, c: u8) -> (r: bool)
    ensures
        r == (name@ == seq![a, b, c]),
{
    if name.len() == 3 {
        let same = name[0] == a && name[1] == b && name[2] == c;
        proof {
            if same {
                assert(name@ =~= seq![a, b, c]);
            }
        }
        same
    } else {
        false
    }
}

/// Compare two values under an operator tag.
fn compare_values(name: &Vec<u8>, l: Value, r: Value) -> (res: Result<Value, AsaErrorKind>)
    ensures
        exec_matches(res, eval_comparison(name@, l@, r@)),
{
    match (l, r) {
        (Value::Number(a), Value::Number(b)) => {
            if is_tag3(name, 103, 116, 95) {
                Ok(Value::Bool(a > b))
            } else if is_tag3(name, 108, 116, 95) {
                Ok(Value::Bool(a < b))
            } else if is_tag3(name, 103, 116, 101) {
                Ok(Value::Bool(a >= b))
            } else if is_tag3(name, 108, 116, 101) {
                Ok(Value::Bool(a <= b))
            } else if is_tag3(name, 101, 113, 95) {
                Ok(Value::Bool(a == b))
            } else if is_tag3(name, 110, 101, 113) {
                Ok(Value::Bool(a != b))
            } else {
                Err(generic_err("Unknown conditional operator"))
            }
        },
        (Value::Bool(x), Value::Bool(y)) => {
            if is_tag3(name, 101, 113, 95) {
                Ok(Value::Bool(x == y))
            } else if is_tag3(name, 110, 101, 113) {
                Ok(Value::Bool(x != y))
            } else {
                Err(generic_err("Unsupported operator for boolean comparison"))
            }
        },
        _ => Err(generic_err("Mismatched types in conditional expression")),
    }
}

/// The name of the entry function synthesised by `start_main`.
pub open spec fn main_name() -> Seq<u8> {
    seq![109u8, 97u8, 105u8, 110u8]
}

impl Interpreter {
    /// A fresh interpreter: empty function table, empty frame stack.
    pub fn new() -> (r: Interpreter)
        ensures
            r@ == (StateV { functions: Map::<Seq<u8>, (NodeV, NodeV)>::empty(), stack: Seq::<
                Map<Seq<u8>, ValueV>,
            >::empty() }),
    {
        let r = Interpreter { functions: Vec::new(), stack: Vec::new() };
        proof {
            assert(frames_view(r.stack@) =~= Seq::<Map<Seq<u8>, ValueV>>::empty());
            assert(r@ =~= (StateV {
                functions: Map::<Seq<u8>, (NodeV, NodeV)>::empty(),
                stack: Seq::<Map<Seq<u8>, ValueV>>::empty(),
            }));
        }
        r
    }

    /// Walks the tree and produces the value or the error that the
    /// evaluation relation assigns to it, updating the function table and
    /// the frame stack exactly as the relation says.
    pub fn exec(&mut self, node: &Node) -> (r: Result<Value, AsaErrorKind>)
        ensures
            ({
                let step = eval(old(self)@, node@, MAX_CALL_DEPTH as nat);
                final(self)@ == step.0 && exec_matches(r, step.1)
            }),
    {
        self.exec_at_depth(node, MAX_CALL_DEPTH)
    }

    /// Synthesises a call to `main` with the given argument nodes and
    /// executes it.
    pub fn start_main(&mut self, arguments: Vec<Node>) -> (r: Result<Value, AsaErrorKind>)
        ensures
            ({
                let step = eval(
                    old(self)@,
                    NodeV::FunctionCall { name: main_name(), children: nodes_view(arguments@) },
                    MAX_CALL_DEPTH as nat,
                );
                final(self)@ == step.0 && exec_matches(r, step.1)
            }),
    {
        let mut nm: Vec<u8> = Vec::new();
        nm.push(109);
        nm.push(97);
        nm.push(105);
        nm.push(110);
        proof {
            assert(nm@ =~= main_name());
        }
        let node = Node::FunctionCall { name: nm, children: arguments };
        self.exec(&node)
    }

    fn exec_at_depth(&mut self, node: &Node, fuel: u32) -> (r: Result<Value, AsaErrorKind>)
        ensures
            ({
                let step = eval(old(self)@, node@, fuel as nat);
                final(self)@ == step.0 && exec_matches(r, step.1)
            }),
        decreases fuel, *node, 0int,
    {
        match node {
            Node::Program { children } => self.exec_program(children, fuel),
            Node::MathExpression { name, children } => {
                proof {
                    lemma_nodes_view(children@);
                }
                if children.len() < 2 {
                    return Err(generic_err("Error"));
                }
                let v1 = match self.math_operand(&children[0], fuel) {
                    Ok(v) => v,
                    Err(e) => {
                        return Err(e);
                    },
                };
                let v2 = match self.math_operand(&children[1], fuel) {
                    Ok(v) => v,
                    Err(e) => {
                        return Err(e);
                    },
                };
                let is_add = is_tag3(name, 97, 100, 100);
                let is_sub = is_tag3(name, 115, 117, 98);
                if !is_add && !is_sub {
                    return Err(generic_err("Unknown operation"));
                }
                match (v1, v2) {
                    (Value::Number(a), Value::Number(b)) => {
                        if is_add {
                            Ok(Value::Number(a.wrapping_add(b)))
                        } else {
                            Ok(Value::Number(a.wrapping_sub(b)))
                        }
                    },
                    _ => Err(generic_err("MathOperationError")),
                }
            },
            Node::ConditionalExpression { name, children } => {
                proof {
                    lemma_nodes_view(children@);
                }
                if children.len() != 2 {
                    return Err(generic_err("Conditional expression must have exactly two operands"));
                }
                let lv = match self.cond_operand(&children[0], fuel) {
                    Ok(v) => v,
                    Err(e) => {
                        return Err(e);
                    },
                };
                let rv = match self.cond_operand(&children[1], fuel) {
                    Ok(v) => v,
                    Err(e) => {
                        return Err(e);
                    },
                };
                compare_values(name, lv, rv)
            },
            Node::FunctionCall { name, children } => self.exec_call(name, children, fuel),
            Node::FunctionDefine { name, children } => {
                proof {
                    lemma_nodes_view(children@);
                }
                if children.len() < 2 {
                    return Err(generic_err("Error"));
                }
                match fns_lookup(&self.functions, name) {
                    Some(_) => Err(redefinition_error(name)),
                    None => {
                        let nm = clone_bytes(name);
                        let fa = clone_node(&children[0]);
                        let fb = clone_node(&children[1]);
                        let ghost fns0 = self.functions@;
                        self.functions.push((nm, fa, fb));
                        proof {
                            assert(self.functions@.drop_last() =~= fns0);
                            assert(frames_view(self.stack@) == old(self)@.stack);
                        }
                        Ok(Value::Bool(true))
                    },
                }
            },
            Node::FunctionReturn { children } => {
                if self.stack.len() > 0 {
                    if children.len() > 0 {
                        proof {
                            lemma_nodes_view(children@);
                        }
                        self.exec_at_depth(&children[0], fuel)
                    } else {
                        Err(generic_err("Invalid return"))
                    }
                } else {
                    Err(generic_err("Invalid return"))
                }
            },
            Node::Identifier { value } => {
                if self.stack.len() > 0 {
                    let top = self.stack.len() - 1;
                    proof {
                        assert(frame_map(self.stack@[top as int]@) == self@.stack.last());
                    }
                    match frame_lookup(&self.stack[top], value) {
                        Some(v) => Ok(v),
                        None => Err(AsaErrorKind::UndefinedFunction),
                    }
                } else {
                    Err(AsaErrorKind::UndefinedFunction)
                }
            },
            Node::FunctionStatements { children } => {
                proof {
                    lemma_nodes_view(children@);
                }
                if children.len() == 0 {
                    return Err(generic_err("Invalid statement"));
                }
                match &children[0] {
                    Node::VariableDefine { .. } => self.exec_at_depth(&children[0], fuel),
                    Node::FunctionReturn { .. } => self.exec_at_depth(&children[0], fuel),
                    _ => Err(generic_err("Invalid statement")),
                }
            },
            Node::VariableDefine { children } => {
                proof {
                    lemma_nodes_view(children@);
                }
                if children.len() < 2 {
                    return Err(generic_err("Invalid variable definition"));
                }
                match &children[0] {
                    Node::Identifier { value } => {
                        let nm = clone_bytes(value);
                        let v = match self.exec_at_depth(&children[1], fuel) {
                            Ok(v) => v,
                            Err(e) => {
                                return Err(e);
                            },
                        };
                        let mut fr: Frame = Vec::new();
                        let bound = v.clone();
                        let ghost frv = (nm@, bound@);
                        fr.push((nm, bound));
                        proof {
                            assert(fr@.drop_last() =~= Seq::<(Vec<u8>, Value)>::empty());
                            assert(frame_map(fr@.drop_last())
                                == Map::<Seq<u8>, ValueV>::empty());
                            assert(frame_map(fr@) == Map::empty().insert(frv.0, frv.1));
                        }
                        let ghost stack0 = self.stack@;
                        self.stack.push(fr);
                        proof {
                            assert(frames_view(self.stack@) =~= frames_view(stack0).push(
                                frame_map(fr@),
                            ));
                        }
                        Ok(v)
                    },
                    _ => Err(generic_err("Invalid variable definition")),
                }
            },
            Node::Expression { children } => {
                proof {
                    lemma_nodes_view(children@);
                }
                if children.len() == 0 {
                    return Err(generic_err("Error"));
                }
                self.exec_at_depth(&children[0], fuel)
            },
            Node::Number { value } => Ok(Value::Number(*value)),
            Node::String { value } => Ok(Value::String(clone_bytes(value))),
            Node::Bool { value } => Ok(Value::Bool(*value)),
            _ => Err(generic_err("Error")),
        }
    }

    /// An arithmetic operand: identifiers are searched across the whole
    /// frame stack; anything else is evaluated.
    fn math_operand(&mut self, child: &Node, fuel: u32) -> (r: Result<Value, AsaErrorKind>)
        ensures
            ({
                let step = eval_math_operand(old(self)@, child@, fuel as nat);
                final(self)@ == step.0 && exec_matches(r, step.1)
            }),
        decreases fuel, *child, 3int,
    {
        match child {
            Node::Identifier { value } => match stack_lookup(&self.stack, value) {
                Some(v) => Ok(v),
                None => Err(AsaErrorKind::UndefinedFunction),
            },
            _ => self.exec_at_depth(child, fuel),
        }
    }

    /// A comparison operand: the single child of an `Expression` wrapper,
    /// identifiers searched across the whole frame stack.
    fn cond_operand(&mut self, child: &Node, fuel: u32) -> (r: Result<Value, AsaErrorKind>)
        ensures
            ({
                let step = eval_cond_operand(old(self)@, child@, fuel as nat);
                final(self)@ == step.0 && exec_matches(r, step.1)
            }),
        decreases fuel, *child, 3int,
    {
        match child {
            Node::Expression { children } => {
                proof {
                    lemma_nodes_view(children@);
                }
                if children.len() == 0 {
                    return Err(
                        generic_err("Expected an Expression node as child of ConditionalExpression"),
                    );
                }
                match &children[0] {
                    Node::ConditionalExpression { .. } => self.exec_at_depth(&children[0], fuel),
                    Node::MathExpression { .. } => self.exec_at_depth(&children[0], fuel),
                    Node::Identifier { value } => match stack_lookup(&self.stack, value) {
                        Some(v) => Ok(v),
                        None => Err(AsaErrorKind::VariableNotDefined(clone_bytes(value))),
                    },
                    _ => self.exec_at_depth(&children[0], fuel),
                }
            },
            _ => Err(generic_err("Expected an Expression node as child of ConditionalExpression")),
        }
    }

    /// A program's children in order.
    #[verifier::loop_isolation(false)]
    fn exec_program(&mut self, children: &Vec<Node>, fuel: u32) -> (r: Result<Value, AsaErrorKind>)
        ensures
            ({
                let step = eval_program_children(old(self)@, nodes_view(children@), 0, fuel as nat);
                final(self)@ == step.0 && exec_matches(r, step.1)
            }),
        decreases fuel, *children, 1int,
    {
        let ghost cs = nodes_view(children@);
        let ghost st0 = self@;
        proof {
            lemma_nodes_view(children@);
        }
        let n = children.len();
        let mut i: usize = 0;
        while i < n
            invariant
                n == children@.len(),
                cs == nodes_view(children@),
                cs.len() == n,
                forall|j: int| 0 <= j < n ==> cs[j] == children@[j]@,
                i <= n,
                eval_program_children(st0, cs, 0, fuel as nat) == eval_program_children(
                    self@,
                    cs,
                    i as int,
                    fuel as nat,
                ),
            decreases n - i,
        {
            proof {
                assert(decreases_to!(*children => children@[i as int]));
                assert(cs[i as int] == children@[i as int]@);
            }
            match &children[i] {
                Node::FunctionDefine { .. } => {
                    let ghost st_pre = self@;
                    let r = self.exec_at_depth(&children[i], fuel);
                    proof {
                        let sub = eval(st_pre, cs[i as int], fuel as nat);
                        assert(eval_program_children(st_pre, cs, i as int, fuel as nat) == (
                            match sub.1 {
                                Err(e) => (sub.0, Err::<ValueV, AsaErrorV>(e)),
                                Ok(_) => eval_program_children(sub.0, cs, i as int + 1, fuel as nat),
                            }
                        ));
                    }
                    match r {
                        Err(e) => {
                            return Err(e);
                        },
                        Ok(_) => {},
                    }
                    i += 1;
                },
                _ => {
                    let ghost st_pre = self@;
                    let r = self.exec_at_depth(&children[i], fuel);
                    proof {
                        assert(eval_program_children(st_pre, cs, i as int, fuel as nat) == eval(
                            st_pre,
                            cs[i as int],
                            fuel as nat,
                        ));
                    }
                    return r;
                },
            }
        }
        Ok(Value::Bool(true))
    }

    /// A function body's statements in order; the last value wins.
    #[verifier::loop_isolation(false)]
    fn exec_stmts(&mut self, stmts: &Vec<Node>, fuel: u32) -> (r: Result<Value, AsaErrorKind>)
        ensures
            ({
                let step = eval_stmts(
                    old(self)@,
                    nodes_view(stmts@),
                    0,
                    ValueV::Bool(true),
                    fuel as nat,
                );
                final(self)@ == step.0 && exec_matches(r, step.1)
            }),
        decreases fuel, *stmts, 1int,
    {
        let ghost sv = nodes_view(stmts@);
        let ghost st0 = self@;
        proof {
            lemma_nodes_view(stmts@);
        }
        let n = stmts.len();
        let mut last = Value::Bool(true);
        let mut i: usize = 0;
        while i < n
            invariant
                n == stmts@.len(),
                sv == nodes_view(stmts@),
                sv.len() == n,
                forall|j: int| 0 <= j < n ==> sv[j] == stmts@[j]@,
                i <= n,
                eval_stmts(st0, sv, 0, ValueV::Bool(true), fuel as nat) == eval_stmts(
                    self@,
                    sv,
                    i as int,
                    last@,
                    fuel as nat,
                ),
            decreases n - i,
        {
            proof {
                assert(decreases_to!(*stmts => stmts@[i as int]));
            }
            let ghost st_pre = self@;
            let ghost last_pre = last@;
            let r = self.exec_at_depth(&stmts[i], fuel);
            proof {
                assert(sv[i as int] == stmts@[i as int]@);
                let sub = eval(st_pre, sv[i as int], fuel as nat);
                assert(eval_stmts(st_pre, sv, i as int, last_pre, fuel as nat) == (match sub.1 {
                    Err(e) => (sub.0, Err::<ValueV, AsaErrorV>(e)),
                    Ok(v) => eval_stmts(sub.0, sv, i as int + 1, v, fuel as nat),
                }));
            }
            match r {
                Err(e) => {
                    return Err(e);
                },
                Ok(v) => {
                    last = v;
                },
            }
            i += 1;
        }
        Ok(last)
    }

    /// A function call: look up, bind, push, run the body, pop.
    #[verifier::loop_isolation(false)]
    fn exec_call(&mut self, name: &Vec<u8>, children: &Vec<Node>, fuel: u32) -> (r: Result<
        Value,
        AsaErrorKind,
    >)
        ensures
            ({
                let step = eval_call(
                    old(self)@,
                    NodeV::FunctionCall { name: name@, children: nodes_view(children@) },
                    fuel as nat,
                );
                final(self)@ == step.0 && exec_matches(r, step.1)
            }),
        decreases fuel, *children, 1int,
    {
        let ghost ncall = NodeV::FunctionCall { name: name@, children: nodes_view(children@) };
        proof {
            lemma_nodes_view(children@);
        }
        if fuel == 0 {
            return Err(generic_err("Maximum recursion depth exceeded"));
        }
        let (fargs, fbody) = match fns_lookup(&self.functions, name) {
            Some(x) => x,
            None => {
                return Err(AsaErrorKind::UndefinedFunction);
            },
        };
        let empty_actual: Vec<Node> = Vec::new();
        let actual: &Vec<Node> = if children.len() > 0 {
            match &children[0] {
                Node::FunctionArguments { children: ac } => ac,
                _ => &empty_actual,
            }
        } else {
            &empty_actual
        };
        let empty_expected: Vec<Node> = Vec::new();
        let expected: &Vec<Node> = match &fargs {
            Node::FunctionArguments { children: ec } => ec,
            _ => &empty_expected,
        };
        proof {
            assert(nodes_view(Seq::<Node>::empty()) =~= Seq::<NodeV>::empty());
            assert(old(self)@.functions.contains_key(name@));
            assert(old(self)@.functions[name@] == (fargs@, fbody@));
            assert(nodes_view(expected@) == (match fargs@ {
                NodeV::FunctionArguments { children: e } => e,
                _ => Seq::<NodeV>::empty(),
            }));
            assert(nodes_view(actual@) == (if nodes_view(children@).len() > 0 {
                match nodes_view(children@)[0] {
                    NodeV::FunctionArguments { children: ac } => ac,
                    _ => Seq::<NodeV>::empty(),
                }
            } else {
                Seq::<NodeV>::empty()
            }));
        }
        proof {
            lemma_nodes_view(expected@);
            lemma_nodes_view(actual@);
        }
        if expected.len() != actual.len() {
            return Err(arity_error(name));
        }
        let ghost st0 = self@;
        let ghost ev = nodes_view(expected@);
        let ghost av = nodes_view(actual@);
        let ghost bfuel = (fuel - 1) as nat;
        proof {
            assert(st0 == old(self)@);
            assert(eval_call(old(self)@, ncall, fuel as nat) == ({
                let b = eval_bind(st0, ev, av, 0, Map::<Seq<u8>, ValueV>::empty(), bfuel);
                (match b.1 {
                    Err(e) => (b.0, Err::<ValueV, AsaErrorV>(e)),
                    Ok(fr) => ({
                        let st2 = (StateV { functions: b.0.functions, stack: b.0.stack.push(fr) });
                        let body_stmts = (match fbody@ {
                            NodeV::FunctionStatements { children: bs } => bs,
                            _ => Seq::<NodeV>::empty(),
                        });
                        let rr = eval_stmts(st2, body_stmts, 0, ValueV::Bool(true), bfuel);
                        (match rr.1 {
                            Err(e) => (rr.0, Err::<ValueV, AsaErrorV>(e)),
                            Ok(v) => (
                                (StateV {
                                    functions: rr.0.functions,
                                    stack: pop_frame(rr.0.stack),
                                }),
                                Ok::<ValueV, AsaErrorV>(v),
                            ),
                        })
                    }),
                })
            }));
        }
        let mut frame: Frame = Vec::new();
        let mut i: usize = 0;
        while i < expected.len()
            invariant
                fuel >= 1,
                bfuel == (fuel - 1) as nat,
                ev == nodes_view(expected@),
                av == nodes_view(actual@),
                ev.len() == expected@.len(),
                av.len() == actual@.len(),
                expected@.len() == actual@.len(),
                forall|j: int| 0 <= j < ev.len() ==> ev[j] == expected@[j]@,
                forall|j: int| 0 <= j < av.len() ==> av[j] == actual@[j]@,
                i <= expected@.len(),
                eval_bind(st0, ev, av, 0, Map::empty(), bfuel) == eval_bind(
                    self@,
                    ev,
                    av,
                    i as int,
                    frame_map(frame@),
                    bfuel,
                ),
            decreases expected@.len() - i,
        {
            let ghost st_pre = self@;
            let ghost frame_pre = frame_map(frame@);
            proof {
                assert(av[i as int] == actual@[i as int]@);
                assert(ev[i as int] == expected@[i as int]@);
            }
            let arg_val: Value = match &actual[i] {
                Node::Expression { children: ec } => {
                    proof {
                        lemma_nodes_view(ec@);
                    }
                    if ec.len() > 0 {
                        let inner_r = match &ec[0] {
                            Node::MathExpression { .. } => self.exec_at_depth(&ec[0], fuel - 1),
                            Node::ConditionalExpression { .. } => self.exec_at_depth(
                                &ec[0],
                                fuel - 1,
                            ),
                            _ => self.exec_at_depth(&actual[i], fuel - 1),
                        };
                        match inner_r {
                            Ok(v) => v,
                            Err(e) => {
                                proof {
                                    assert(eval_bind(st_pre, ev, av, i as int, frame_pre, bfuel)
                                        == (self@, Err::<Map<Seq<u8>, ValueV>, AsaErrorV>(e@)));
                                    assert(eval_call(old(self)@, ncall, fuel as nat) == (
                                        self@,
                                        Err::<ValueV, AsaErrorV>(e@),
                                    ));
                                }
                                return Err(e);
                            },
                        }
                    } else {
                        let e = generic_err("Expected an expression node with children");
                        proof {
                            assert(eval_bind(st_pre, ev, av, i as int, frame_pre, bfuel) == (
                                self@,
                                Err::<Map<Seq<u8>, ValueV>, AsaErrorV>(e@),
                            ));
                            assert(eval_call(old(self)@, ncall, fuel as nat) == (
                                self@,
                                Err::<ValueV, AsaErrorV>(e@),
                            ));
                        }
                        return Err(e);
                    }
                },
                _ => {
                    match self.exec_at_depth(&actual[i], fuel - 1) {
                        Ok(v) => v,
                        Err(e) => {
                            proof {
                                assert(eval_bind(st_pre, ev, av, i as int, frame_pre, bfuel) == (
                                    self@,
                                    Err::<Map<Seq<u8>, ValueV>, AsaErrorV>(e@),
                                ));
                                assert(eval_call(old(self)@, ncall, fuel as nat) == (
                                    self@,
                                    Err::<ValueV, AsaErrorV>(e@),
                                ));
                            }
                            return Err(e);
                        },
                    }
                },
            };
            let pname: Vec<u8> = match &expected[i] {
                Node::Expression { children: xc } => {
                    proof {
                        lemma_nodes_view(xc@);
                    }
                    if xc.len() > 0 {
                        match &xc[0] {
                            Node::Identifier { value } => clone_bytes(value),
                            _ => {
                                let e = generic_err("Expected identifier inside expression");
                                proof {
                                    assert(eval_bind(st_pre, ev, av, i as int, frame_pre, bfuel)
                                        == (self@, Err::<Map<Seq<u8>, ValueV>, AsaErrorV>(e@)));
                                    assert(eval_call(old(self)@, ncall, fuel as nat) == (
                                        self@,
                                        Err::<ValueV, AsaErrorV>(e@),
                                    ));
                                }
                                return Err(e);
                            },
                        }
                    } else {
                        let e = generic_err("Expected identifier inside expression");
                        proof {
                            assert(eval_bind(st_pre, ev, av, i as int, frame_pre, bfuel) == (
                                self@,
                                Err::<Map<Seq<u8>, ValueV>, AsaErrorV>(e@),
                            ));
                            assert(eval_call(old(self)@, ncall, fuel as nat) == (
                                self@,
                                Err::<ValueV, AsaErrorV>(e@),
                            ));
                        }
                        return Err(e);
                    }
                },
                _ => {
                    let e = generic_err("Expected expression node");
                    proof {
                        assert(eval_bind(st_pre, ev, av, i as int, frame_pre, bfuel) == (
                            self@,
                            Err::<Map<Seq<u8>, ValueV>, AsaErrorV>(e@),
                        ));
                        assert(eval_call(old(self)@, ncall, fuel as nat) == (
                            self@,
                            Err::<ValueV, AsaErrorV>(e@),
                        ));
                    }
                    return Err(e);
                },
            };
            let ghost entry = (pname@, arg_val@);
            let ghost frame0 = frame@;
            frame.push((pname, arg_val));
            proof {
                assert(frame@.drop_last() =~= frame0);
                assert(frame_map(frame@) == frame_pre.insert(entry.0, entry.1));
                assert(eval_bind(st_pre, ev, av, i as int, frame_pre, bfuel) == eval_bind(
                    self@,
                    ev,
                    av,
                    i as int + 1,
                    frame_map(frame@),
                    bfuel,
                ));
            }
            i += 1;
        }
        let ghost bound_frame = frame_map(frame@);
        let ghost st_after_bind = self@;
        proof {
            assert(eval_bind(st0, ev, av, 0, Map::empty(), bfuel) == (
                st_after_bind,
                Ok::<Map<Seq<u8>, ValueV>, AsaErrorV>(bound_frame),
            ));
        }
        let ghost stack0 = self.stack@;
        self.stack.push(frame);
        proof {
            assert(frames_view(self.stack@) =~= frames_view(stack0).push(bound_frame));
            assert(self@ =~= (StateV {
                functions: st_after_bind.functions,
                stack: st_after_bind.stack.push(bound_frame),
            }));
        }
        let last = match &fbody {
            Node::FunctionStatements { children: bs } => {
                match self.exec_stmts(bs, fuel - 1) {
                    Ok(v) => v,
                    Err(e) => {
                        proof {
                            assert(eval_call(old(self)@, ncall, fuel as nat) == (
                                self@,
                                Err::<ValueV, AsaErrorV>(e@),
                            ));
                        }
                        return Err(e);
                    },
                }
            },
            _ => Value::Bool(true),
        };
        let ghost stack1 = self.stack@;
        let ghost st3 = self@;
        let _popped = self.stack.pop();
        proof {
            if stack1.len() > 0 {
                assert(frames_view(self.stack@) =~= frames_view(stack1).drop_last());
            } else {
                assert(frames_view(self.stack@) =~= frames_view(stack1));
            }
            assert(self@ =~= (StateV { functions: st3.functions, stack: pop_frame(st3.stack) }));
            assert(eval_call(old(self)@, ncall, fuel as nat) == (
                self@,
                Ok::<ValueV, AsaErrorV>(last@),
            ));
        }
        Ok(last)
    }
}

} // verus!
