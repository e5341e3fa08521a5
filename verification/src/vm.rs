//! The evaluator: an expression tree is walked eagerly against a mutable
//! variable environment, producing a runtime value or the first error.
//!
//! The environment is a chain of scopes: one global scope at the bottom, and
//! one fresh scope per active call above it. Name lookup walks the chain
//! innermost-first; assignment overwrites the innermost binding of the name,
//! in place, or creates the name in the innermost scope; a call binds its
//! arguments in its own fresh scope, which vanishes when the call ends.
//!
//! The executable evaluator is proved equal to the spec-level evaluator
//! `sp_eval`, a function from fuel, an expression and a scope-chain model (a
//! sequence of maps from name to value) to a result and the chain after the
//! walk. Fuel bounds call nesting only: expressions without calls never
//! consume any, and a program that nests calls deeper than the fuel ends in
//! `VMRecursionLimit` instead of unbounded recursion.

use vstd::prelude::*;
use crate::parser::ast::{
    exprs_view, lemma_exprs_view_index, names_view, parse_str, sp_parse, sp_term_error, Expr,
    ExprV,
};
use crate::lexer::tokenizer::sp_lex;
use crate::utils::{str_eq, SError, SRes};

verus! {

/// A runtime value.
#[derive(Debug, PartialEq)]
pub enum SValue {
    /// The absent value: an empty block's result, an assignment's result.
    NoneVal,
    Number(i32),
    Bool(bool),
    /// A function value: its own copy of the parameter names and the body.
    Function { params: Vec<String>, body: Expr },
}

/// The mathematical model of a runtime value.
pub enum ValueV {
    NoneVal,
    Number(i32),
    Bool(bool),
    Function { params: Seq<Seq<char>>, body: ExprV },
}

impl View for SValue {
    type V = ValueV;

    open spec fn view(&self) -> ValueV {
        match self {
            SValue::NoneVal => ValueV::NoneVal,
            SValue::Number(x) => ValueV::Number(*x),
            SValue::Bool(b) => ValueV::Bool(*b),
            SValue::Function { params, body } => ValueV::Function {
                params: names_view(params@),
                body: body@,
            },
        }
    }
}

/// The model of one scope: a map from variable name to value.
pub type EnvV = Map<Seq<char>, ValueV>;

/// The model of the whole environment: the scope chain, global scope first,
/// innermost scope last.
pub type ScopesV = Seq<EnvV>;

/// The view of an evaluation result.
pub open spec fn eval_res_view(r: SRes<SValue>) -> Result<ValueV, SError> {
    match r {
        Ok(v) => Ok(v@),
        Err(e) => Err(e),
    }
}

// ---------------------------------------------------------------------------
// The scope chain.
// ---------------------------------------------------------------------------

/// The value a name denotes: its binding in the innermost scope that has one.
pub open spec fn ch_lookup(chain: ScopesV, name: Seq<char>) -> Option<ValueV>
    decreases chain.len(),
{
    if chain.len() == 0 {
        None
    } else if chain.last().contains_key(name) {
        Some(chain.last()[name])
    } else {
        ch_lookup(chain.drop_last(), name)
    }
}

pub open spec fn ch_contains(chain: ScopesV, name: Seq<char>) -> bool {
    ch_lookup(chain, name) is Some
}

/// Assignment: the innermost scope that binds the name has that binding
/// overwritten in place; a name bound nowhere is created in the innermost
/// scope.
pub open spec fn ch_assign(chain: ScopesV, name: Seq<char>, v: ValueV) -> ScopesV
    decreases chain.len(),
{
    if chain.len() == 0 {
        chain
    } else if chain.last().contains_key(name) {
        chain.update(chain.len() - 1, chain.last().insert(name, v))
    } else if ch_contains(chain.drop_last(), name) {
        ch_assign(chain.drop_last(), name, v).push(chain.last())
    } else {
        chain.update(chain.len() - 1, chain.last().insert(name, v))
    }
}

/// Parameter binding: straight into the innermost scope, shadowing any outer
/// binding of the same name.
pub open spec fn ch_bind(chain: ScopesV, name: Seq<char>, v: ValueV) -> ScopesV {
    if chain.len() == 0 {
        chain
    } else {
        chain.update(chain.len() - 1, chain.last().insert(name, v))
    }
}

pub proof fn lemma_ch_lookup_iff(chain: ScopesV, name: Seq<char>)
    ensures
        ch_contains(chain, name) <==> exists|i: int|
            0 <= i < chain.len() && (#[trigger] chain[i]).contains_key(name),
    decreases chain.len(),
{
    if chain.len() > 0 {
        let prefix = chain.drop_last();
        lemma_ch_lookup_iff(prefix, name);
        if chain.last().contains_key(name) {
            assert((#[trigger] chain[chain.len() - 1]).contains_key(name));
        } else {
            if ch_contains(prefix, name) {
                let i = choose|i: int|
                    0 <= i < prefix.len() && (#[trigger] prefix[i]).contains_key(name);
                assert(prefix[i] == chain[i]);
                assert((#[trigger] chain[i]).contains_key(name));
            }
            if exists|i: int| 0 <= i < chain.len() && (#[trigger] chain[i]).contains_key(name) {
                let i = choose|i: int|
                    0 <= i < chain.len() && (#[trigger] chain[i]).contains_key(name);
                assert(i < chain.len() - 1);
                assert((#[trigger] prefix[i]).contains_key(name));
            }
        }
    }
}

pub proof fn lemma_ch_lookup_none(chain: ScopesV, name: Seq<char>)
    requires
        forall|i: int| 0 <= i < chain.len() ==> !(#[trigger] chain[i]).contains_key(name),
    ensures
        ch_lookup(chain, name) is None,
    decreases chain.len(),
{
    if chain.len() > 0 {
        let prefix = chain.drop_last();
        assert(!(#[trigger] chain[chain.len() - 1]).contains_key(name));
        assert forall|i: int| 0 <= i < prefix.len() implies !(#[trigger] prefix[i]).contains_key(
            name,
        ) by {
            assert(prefix[i] == chain[i]);
        }
        lemma_ch_lookup_none(prefix, name);
    }
}

/// Lookup finds the innermost scope that binds the name.
pub proof fn lemma_ch_lookup_at(chain: ScopesV, name: Seq<char>, i: int)
    requires
        0 <= i < chain.len(),
        chain[i].contains_key(name),
        forall|j: int| i < j < chain.len() ==> !(#[trigger] chain[j]).contains_key(name),
    ensures
        ch_lookup(chain, name) == Some(chain[i][name]),
    decreases chain.len(),
{
    if i < chain.len() - 1 {
        let prefix = chain.drop_last();
        assert(!(#[trigger] chain[chain.len() - 1]).contains_key(name));
        assert(prefix[i] == chain[i]);
        assert forall|j: int| i < j < prefix.len() implies !(#[trigger] prefix[j]).contains_key(
            name,
        ) by {
            assert(prefix[j] == chain[j]);
        }
        lemma_ch_lookup_at(prefix, name, i);
    }
}

/// Assignment rewrites exactly the innermost scope that binds the name.
pub proof fn lemma_ch_assign_at(chain: ScopesV, name: Seq<char>, v: ValueV, i: int)
    requires
        0 <= i < chain.len(),
        chain[i].contains_key(name),
        forall|j: int| i < j < chain.len() ==> !(#[trigger] chain[j]).contains_key(name),
    ensures
        ch_assign(chain, name, v) == chain.update(i, chain[i].insert(name, v)),
    decreases chain.len(),
{
    if i < chain.len() - 1 {
        let prefix = chain.drop_last();
        assert(!(#[trigger] chain[chain.len() - 1]).contains_key(name));
        assert(prefix[i] == chain[i]);
        assert forall|j: int| i < j < prefix.len() implies !(#[trigger] prefix[j]).contains_key(
            name,
        ) by {
            assert(prefix[j] == chain[j]);
        }
        lemma_ch_lookup_iff(prefix, name);
        assert((#[trigger] prefix[i]).contains_key(name));
        assert(ch_contains(prefix, name));
        lemma_ch_assign_at(prefix, name, v, i);
        assert(ch_assign(prefix, name, v).push(chain.last()) =~= chain.update(
            i,
            chain[i].insert(name, v),
        ));
    }
}

/// Assigning a name bound nowhere creates it in the innermost scope.
pub proof fn lemma_ch_assign_new(chain: ScopesV, name: Seq<char>, v: ValueV)
    requires
        chain.len() >= 1,
        forall|i: int| 0 <= i < chain.len() ==> !(#[trigger] chain[i]).contains_key(name),
    ensures
        ch_assign(chain, name, v) == chain.update(chain.len() - 1, chain.last().insert(name, v)),
{
    let prefix = chain.drop_last();
    assert(!(#[trigger] chain[chain.len() - 1]).contains_key(name));
    assert forall|i: int| 0 <= i < prefix.len() implies !(#[trigger] prefix[i]).contains_key(
        name,
    ) by {
        assert(prefix[i] == chain[i]);
    }
    lemma_ch_lookup_none(prefix, name);
}

// ---------------------------------------------------------------------------
// Sizes, the measure that grounds the evaluator's recursion.
// ---------------------------------------------------------------------------

/// The number of nodes of an expression.
pub open spec fn size(e: ExprV) -> nat
    decreases e,
{
    match e {
        ExprV::Block(es) => 1 + size_seq(es),
        ExprV::Function { params, body } => 1 + size(*body),
        ExprV::Return(b) => 1 + size(*b),
        ExprV::Call { callee, args } => 1 + size_seq(args),
        ExprV::BinaryOp { op, lhs, rhs } => 1 + size(*lhs) + size(*rhs),
        _ => 1,
    }
}

pub open spec fn size_seq(es: Seq<ExprV>) -> nat
    decreases es,
{
    if es.len() == 0 {
        0
    } else {
        size(es[0]) + size_seq(es.drop_first())
    }
}

// ---------------------------------------------------------------------------
// The spec-level evaluator.
// ---------------------------------------------------------------------------

/// The fixed coercion of a value to a number: `none` counts 0, a boolean 1 or
/// 0; a function value has no number.
pub open spec fn sp_to_number(v: ValueV) -> Result<i32, SError> {
    match v {
        ValueV::NoneVal => Ok(0),
        ValueV::Number(x) => Ok(x),
        ValueV::Bool(b) => Ok(
            if b {
                1
            } else {
                0
            },
        ),
        ValueV::Function { .. } => Err(SError::VMCannotConvertToNumber),
    }
}

/// The operator symbols the evaluator knows besides assignment.
pub open spec fn sp_known_op(op: Seq<char>) -> bool {
    op == "+"@ || op == "-"@ || op == "*"@ || op == "/"@ || op == "=="@ || op == "!="@ || op
        == "<"@ || op == "<="@ || op == ">"@ || op == ">="@ || op == "and"@ || op == "or"@
}

/// What an operator yields on two coerced numbers. `+`, `-` and `*` wrap
/// around on 32-bit overflow; `/` truncates toward zero and is an error when
/// the divisor is zero or the exact quotient does not fit; comparisons yield
/// booleans of the numeric order; `and` and `or` read each number as a truth
/// value (nonzero is true) and never short-circuit.
pub open spec fn sp_apply_op(op: Seq<char>, l: i32, r: i32) -> Result<ValueV, SError> {
    if op == "+"@ {
        Ok(ValueV::Number(l.wrapping_add(r)))
    } else if op == "-"@ {
        Ok(ValueV::Number(l.wrapping_sub(r)))
    } else if op == "*"@ {
        Ok(ValueV::Number(l.wrapping_mul(r)))
    } else if op == "/"@ {
        match l.checked_div(r) {
            Some(q) => Ok(ValueV::Number(q)),
            None => Err(SError::VMDivisionByZero),
        }
    } else if op == "=="@ {
        Ok(ValueV::Bool(l == r))
    } else if op == "!="@ {
        Ok(ValueV::Bool(l != r))
    } else if op == "<"@ {
        Ok(ValueV::Bool(l < r))
    } else if op == "<="@ {
        Ok(ValueV::Bool(l <= r))
    } else if op == ">"@ {
        Ok(ValueV::Bool(l > r))
    } else if op == ">="@ {
        Ok(ValueV::Bool(l >= r))
    } else if op == "and"@ {
        Ok(ValueV::Bool(l != 0 && r != 0))
    } else if op == "or"@ {
        Ok(ValueV::Bool(l != 0 || r != 0))
    } else {
        Err(SError::VMUnsupportedExpression)
    }
}

/// One evaluation step: literals are themselves; a block folds its children;
/// a function literal captures a copy of itself; a call runs a bound function
/// body in a fresh scope; a binary operation assigns or computes. A `return`
/// or bare variable reference is outside the evaluator's language and is the
/// unsupported-construct error.
pub open spec fn sp_eval(fuel: nat, e: ExprV, chain: ScopesV) -> (Result<ValueV, SError>, ScopesV)
    decreases fuel, size(e), 0int, 0int,
{
    match e {
        ExprV::NoneLit => (Ok(ValueV::NoneVal), chain),
        ExprV::Bool(b) => (Ok(ValueV::Bool(b)), chain),
        ExprV::Number(x) => (Ok(ValueV::Number(x)), chain),
        ExprV::Block(es) => sp_eval_block(fuel, es, chain),
        ExprV::Function { params, body } => (
            Ok(ValueV::Function { params, body: *body }),
            chain,
        ),
        ExprV::Call { callee, args } => sp_eval_call(fuel, callee, args, chain),
        ExprV::BinaryOp { op, lhs, rhs } => sp_eval_binop(fuel, op, *lhs, *rhs, chain),
        _ => (Err(SError::VMUnsupportedExpression), chain),
    }
}

/// A block's children evaluate in order; the last value is the block's, an
/// empty block's value is `none`, and the first error stops the walk.
pub open spec fn sp_eval_block(fuel: nat, es: Seq<ExprV>, chain: ScopesV) -> (
    Result<ValueV, SError>,
    ScopesV,
)
    decreases fuel, size_seq(es), 1int, es.len(),
{
    if es.len() == 0 {
        (Ok(ValueV::NoneVal), chain)
    } else {
        let r = sp_eval(fuel, es[0], chain);
        match r.0 {
            Err(e) => (Err(e), r.1),
            Ok(v) => {
                if es.len() == 1 {
                    (Ok(v), r.1)
                } else {
                    sp_eval_block(fuel, es.drop_first(), r.1)
                }
            },
        }
    }
}

/// Binds a call's arguments to its parameter names, left to right: each
/// argument evaluates in the chain as bound so far, then its parameter name
/// is bound in the call's own innermost scope, where it shadows any outer
/// binding and from which it vanishes when the call ends.
pub open spec fn sp_bind_args(
    fuel: nat,
    params: Seq<Seq<char>>,
    args: Seq<ExprV>,
    chain: ScopesV,
) -> (Result<(), SError>, ScopesV)
    decreases fuel, size_seq(args), 1int, args.len(),
{
    if params.len() == 0 || args.len() == 0 {
        (Ok(()), chain)
    } else {
        let r = sp_eval(fuel, args[0], chain);
        match r.0 {
            Err(e) => (Err(e), r.1),
            Ok(v) => sp_bind_args(
                fuel,
                params.drop_first(),
                args.drop_first(),
                ch_bind(r.1, params[0], v),
            ),
        }
    }
}

/// A call: the callee name must be bound, to a function value, whose
/// parameter count must equal the argument count; then, with one unit of fuel
/// spent, a fresh scope is pushed, the arguments are bound into it, the body
/// evaluates, and the scope is dropped again, error or no error. What the
/// body assigned to names of outer scopes stays; its own scope's bindings,
/// the parameters included, end with the call.
pub open spec fn sp_eval_call(fuel: nat, callee: Seq<char>, args: Seq<ExprV>, chain: ScopesV) -> (
    Result<ValueV, SError>,
    ScopesV,
)
    decreases fuel, size_seq(args), 2int, 0int,
{
    match ch_lookup(chain, callee) {
        None => (Err(SError::VMVariableDoesntExist), chain),
        Some(v) => match v {
            ValueV::Function { params, body } => {
                if params.len() != args.len() {
                    (Err(SError::VMMismatchArgumentListLength), chain)
                } else if fuel == 0 {
                    (Err(SError::VMRecursionLimit), chain)
                } else {
                    let br = sp_bind_args(fuel, params, args, chain.push(Map::empty()));
                    match br.0 {
                        Err(e) => (Err(e), br.1.drop_last()),
                        Ok(_) => {
                            let r = sp_eval((fuel - 1) as nat, body, br.1);
                            (r.0, r.1.drop_last())
                        },
                    }
                }
            },
            _ => (Err(SError::VMCannotCallNonFunction), chain),
        },
    }
}

/// A binary operation. `=` assigns; every other known operator evaluates and
/// coerces the left operand, then the right one, and applies `sp_apply_op`;
/// an unknown symbol is the unsupported-construct error before any operand
/// runs.
pub open spec fn sp_eval_binop(fuel: nat, op: Seq<char>, lhs: ExprV, rhs: ExprV, chain: ScopesV)
    -> (Result<ValueV, SError>, ScopesV)
    decreases fuel, size(lhs) + size(rhs), 2int, 0int,
{
    if op == "="@ {
        sp_eval_assign(fuel, lhs, rhs, chain)
    } else if sp_known_op(op) {
        sp_eval_arith(fuel, op, lhs, rhs, chain)
    } else {
        (Err(SError::VMUnsupportedExpression), chain)
    }
}

/// An assignment: the left operand must be syntactically a variable
/// reference; the right-hand side evaluates first, then the name is bound per
/// `ch_assign`. Its value is `none`.
pub open spec fn sp_eval_assign(fuel: nat, lhs: ExprV, rhs: ExprV, chain: ScopesV) -> (
    Result<ValueV, SError>,
    ScopesV,
)
    decreases fuel, size(lhs) + size(rhs), 1int, 0int,
{
    match lhs {
        ExprV::VarRef(name) => {
            let r = sp_eval(fuel, rhs, chain);
            match r.0 {
                Err(e) => (Err(e), r.1),
                Ok(v) => (Ok(ValueV::NoneVal), ch_assign(r.1, name, v)),
            }
        },
        _ => (Err(SError::VMCannotAssignNonVariable), chain),
    }
}

/// A computing operator: the left operand evaluates and coerces, then the
/// right one, then the operator applies.
pub open spec fn sp_eval_arith(fuel: nat, op: Seq<char>, lhs: ExprV, rhs: ExprV, chain: ScopesV)
    -> (Result<ValueV, SError>, ScopesV)
    decreases fuel, size(lhs) + size(rhs), 1int, 0int,
{
    let lr = sp_eval(fuel, lhs, chain);
    match lr.0 {
        Err(e) => (Err(e), lr.1),
        Ok(lv) => match sp_to_number(lv) {
            Err(e) => (Err(e), lr.1),
            Ok(ln) => {
                let rr = sp_eval(fuel, rhs, lr.1);
                match rr.0 {
                    Err(e) => (Err(e), rr.1),
                    Ok(rv) => match sp_to_number(rv) {
                        Err(e) => (Err(e), rr.1),
                        Ok(rn) => (sp_apply_op(op, ln, rn), rr.1),
                    },
                }
            },
        },
    }
}

/// What running one source string does to an environment: parse, then
/// evaluate with the standard fuel.
pub open spec fn sp_execute(s: Seq<char>, chain: ScopesV) -> (Result<ValueV, SError>, ScopesV) {
    let lx = sp_lex(s, 0);
    let pr = sp_parse(lx.0, sp_term_error(lx.1), 0);
    match pr.0 {
        Err(e) => (Err(e), chain),
        Ok(e) => sp_eval(CALL_DEPTH_LIMIT as nat, e, chain),
    }
}

/// How deeply calls may nest before evaluation stops with
/// `VMRecursionLimit`.
pub const CALL_DEPTH_LIMIT: u64 = 1000;

// ---------------------------------------------------------------------------
// Laws of the evaluator.
// ---------------------------------------------------------------------------

/// Law: evaluation has no hidden state. The outcome is a function of the
/// expression and the environment alone, so re-evaluating one immutable
/// parsed expression against equal environments, two freshly created ones in
/// particular, yields the same result and the same final environment both
/// times.
pub proof fn lemma_eval_no_hidden_state(fuel: nat, e: ExprV, chain1: ScopesV, chain2: ScopesV)
    requires
        chain1 == chain2,
    ensures
        sp_eval(fuel, e, chain1) == sp_eval(fuel, e, chain2),
{
}

// ---------------------------------------------------------------------------
// One scope, as stored: an entry list with unique names.
// ---------------------------------------------------------------------------

/// The map an entry list denotes: later entries would win, and each scope
/// keeps its keys unique, so each name has the one value stored with it.
pub open spec fn entries_map(entries: Seq<(String, SValue)>) -> EnvV
    decreases entries.len(),
{
    if entries.len() == 0 {
        Map::empty()
    } else {
        entries_map(entries.drop_last()).insert(entries.last().0@, entries.last().1@)
    }
}

/// No name occurs twice in the entry list.
pub open spec fn distinct_keys(entries: Seq<(String, SValue)>) -> bool {
    forall|i: int, j: int| 0 <= i < j < entries.len() ==> (#[trigger] entries[i]).0@ != (
    #[trigger] entries[j]).0@
}

/// The names of a scope, in the order they were first bound.
pub open spec fn scope_keys(entries: Seq<(String, SValue)>) -> Seq<Seq<char>> {
    Seq::new(entries.len(), |j: int| entries[j].0@)
}

/// With unique keys, the map holds exactly the entries: each entry is in the
/// map under its name, and every name in the map belongs to some entry.
proof fn lemma_entries_map_props(entries: Seq<(String, SValue)>)
    requires
        distinct_keys(entries),
    ensures
        forall|i: int| 0 <= i < entries.len() ==> entries_map(entries).contains_key(
            (#[trigger] entries[i]).0@,
        ) && entries_map(entries)[entries[i].0@] == entries[i].1@,
        forall|k: Seq<char>| entries_map(entries).contains_key(k) ==> exists|i: int|
            0 <= i < entries.len() && (#[trigger] entries[i]).0@ == k,
    decreases entries.len(),
{
    if entries.len() > 0 {
        let prefix = entries.drop_last();
        assert(distinct_keys(prefix)) by {
            assert forall|i: int, j: int| 0 <= i < j < prefix.len() implies (
            #[trigger] prefix[i]).0@ != (#[trigger] prefix[j]).0@ by {
                assert(prefix[i] == entries[i]);
                assert(prefix[j] == entries[j]);
            }
        }
        lemma_entries_map_props(prefix);
        assert forall|i: int| 0 <= i < entries.len() implies entries_map(entries).contains_key(
            (#[trigger] entries[i]).0@,
        ) && entries_map(entries)[entries[i].0@] == entries[i].1@ by {
            if i < entries.len() - 1 {
                assert(prefix[i] == entries[i]);
                assert(entries[i].0@ != entries[entries.len() - 1].0@);
            }
        }
        assert forall|k: Seq<char>| entries_map(entries).contains_key(k) implies exists|i: int|
            0 <= i < entries.len() && (#[trigger] entries[i]).0@ == k by {
            if k == entries.last().0@ {
                assert((#[trigger] entries[entries.len() - 1]).0@ == k);
            } else {
                assert(entries_map(prefix).contains_key(k));
                let i = choose|i: int| 0 <= i < prefix.len() && (#[trigger] prefix[i]).0@ == k;
                assert((#[trigger] entries[i]).0@ == k);
            }
        }
    }
}

/// Replacing the value stored at one entry, its key kept, is exactly an
/// insert of the new value under that key.
proof fn lemma_entries_map_update(entries: Seq<(String, SValue)>, i: int, value: SValue)
    requires
        distinct_keys(entries),
        0 <= i < entries.len(),
    ensures
        entries_map(entries.update(i, (entries[i].0, value))) == entries_map(entries).insert(
            entries[i].0@,
            value@,
        ),
        distinct_keys(entries.update(i, (entries[i].0, value))),
    decreases entries.len(),
{
    let updated = entries.update(i, (entries[i].0, value));
    assert(distinct_keys(updated)) by {
        assert forall|a: int, b: int| 0 <= a < b < updated.len() implies (
        #[trigger] updated[a]).0@ != (#[trigger] updated[b]).0@ by {
            assert(entries[a].0@ != entries[b].0@);
            assert(updated[a].0@ == entries[a].0@);
            assert(updated[b].0@ == entries[b].0@);
        }
    }
    let prefix = entries.drop_last();
    assert(distinct_keys(prefix)) by {
        assert forall|a: int, b: int| 0 <= a < b < prefix.len() implies (
        #[trigger] prefix[a]).0@ != (#[trigger] prefix[b]).0@ by {
            assert(prefix[a] == entries[a]);
            assert(prefix[b] == entries[b]);
        }
    }
    if i == entries.len() - 1 {
        assert(updated.drop_last() =~= prefix);
        assert(entries_map(updated) =~= entries_map(entries).insert(entries[i].0@, value@));
    } else {
        lemma_entries_map_update(prefix, i, value);
        assert(prefix[i] == entries[i]);
        assert(updated.drop_last() =~= prefix.update(i, (entries[i].0, value)));
        assert(updated.last() == entries.last());
        // the two inserts commute because the keys differ
        assert(entries[i].0@ != entries.last().0@);
        assert(entries_map(updated) =~= entries_map(entries).insert(entries[i].0@, value@));
    }
}

/// The index of the entry bound to a name, if the scope has one.
fn scope_find(scope: &Vec<(String, SValue)>, name: &str) -> (r: Option<usize>)
    ensures
        match r {
            Some(j) => (j as int) < scope@.len() && scope@[j as int].0@ == name@,
            None => forall|j: int| 0 <= j < scope@.len() ==> (#[trigger] scope@[j]).0@ != name@,
        },
{
    let mut j: usize = 0;
    while j < scope.len()
        invariant
            j <= scope@.len(),
            forall|i: int| 0 <= i < j ==> (#[trigger] scope@[i]).0@ != name@,
        decreases scope@.len() - j,
    {
        if str_eq(scope[j].0.as_str(), name) {
            return Some(j);
        }
        j = j + 1;
    }
    None
}

// ---------------------------------------------------------------------------
// The environment.
// ---------------------------------------------------------------------------

/// The mutable variable environment: the scope chain, global scope first,
/// innermost scope last.
///
/// Assigning to a bound name overwrites the value stored with that name in
/// place: the entry, key identity included, stays where it is, and only a
/// fresh name appends a new entry to the innermost scope.
#[derive(Debug)]
pub struct SContext {
    scopes: Vec<Vec<(String, SValue)>>,
}

impl View for SContext {
    type V = ScopesV;

    closed spec fn view(&self) -> ScopesV {
        Seq::new(self.scopes@.len(), |i: int| entries_map(self.scopes@[i]@))
    }
}

impl SContext {
    /// The bound names of each scope, in the order they were first bound.
    pub closed spec fn all_keys(&self) -> Seq<Seq<Seq<char>>> {
        Seq::new(self.scopes@.len(), |i: int| scope_keys(self.scopes@[i]@))
    }

    pub closed spec fn wf(&self) -> bool {
        self.scopes@.len() >= 1 && forall|i: int|
            0 <= i < self.scopes@.len() ==> distinct_keys((#[trigger] self.scopes@[i])@)
    }

    /// A fresh environment: one empty global scope.
    pub fn new() -> (r: SContext)
        ensures
            r.wf(),
            r@ == seq![Map::<Seq<char>, ValueV>::empty()],
    {
        let mut scopes: Vec<Vec<(String, SValue)>> = Vec::new();
        scopes.push(Vec::new());
        let r = SContext { scopes };
        proof {
            assert(r@ =~= seq![Map::<Seq<char>, ValueV>::empty()]);
        }
        r
    }

    /// The value a name denotes, if any: the innermost binding.
    pub fn get(&self, name: &str) -> (r: Option<&SValue>)
        requires
            self.wf(),
        ensures
            match r {
                Some(v) => ch_lookup(self@, name@) == Some(v@),
                None => ch_lookup(self@, name@) is None,
            },
    {
        let mut k: usize = self.scopes.len();
        while k > 0
            invariant
                self.wf(),
                k <= self.scopes@.len(),
                forall|i: int| k <= i < self@.len() ==> !(#[trigger] self@[i]).contains_key(name@),
            decreases k,
        {
            match scope_find(&self.scopes[k - 1], name) {
                Some(j) => {
                    proof {
                        lemma_entries_map_props(self.scopes@[k - 1]@);
                        lemma_ch_lookup_at(self@, name@, k - 1);
                    }
                    return Some(&self.scopes[k - 1][j].1);
                },
                None => {
                    proof {
                        lemma_entries_map_props(self.scopes@[k - 1]@);
                        if self@[k - 1].contains_key(name@) {
                            let jj = choose|jj: int|
                                0 <= jj < self.scopes@[k - 1]@.len() && (#[trigger] self.scopes@[k
                                    - 1]@[jj]).0@ == name@;
                            assert(false);
                        }
                    }
                },
            }
            k = k - 1;
        }
        proof {
            lemma_ch_lookup_none(self@, name@);
        }
        None
    }

    /// Assigns: the innermost scope that binds the name has that binding's
    /// value overwritten in place, its entry and key untouched, so the
    /// binding's identity never changes; a name bound nowhere appends a new
    /// entry to the innermost scope.
    pub fn set(&mut self, name: &str, value: SValue)
        requires
            old(self).wf(),
        ensures
            final(self).wf(),
            final(self)@ == ch_assign(old(self)@, name@, value@),
            final(self)@.len() == old(self)@.len(),
            ch_contains(old(self)@, name@) ==> final(self).all_keys() == old(self).all_keys(),
            !ch_contains(old(self)@, name@) ==> final(self).all_keys() == old(
                self,
            ).all_keys().update(
                old(self)@.len() - 1,
                old(self).all_keys().last().push(name@),
            ),
    {
        let ghost chain0 = self@;
        let ghost keys0 = self.all_keys();
        let mut k: usize = self.scopes.len();
        while k > 0
            invariant
                self.wf(),
                self@ == chain0,
                chain0 == old(self)@,
                keys0 == old(self).all_keys(),
                self.all_keys() == keys0,
                k <= self.scopes@.len(),
                forall|i: int| k <= i < self@.len() ==> !(#[trigger] self@[i]).contains_key(name@),
            decreases k,
        {
            match scope_find(&self.scopes[k - 1], name) {
                Some(j) => {
                    proof {
                        lemma_entries_map_props(self.scopes@[k - 1]@);
                        lemma_ch_lookup_iff(chain0, name@);
                        lemma_ch_assign_at(chain0, name@, value@, k - 1);
                    }
                    let ghost scopes_before = self.scopes@;
                    let ghost scope0 = self.scopes@[k - 1]@;
                    let mut scope = self.scopes.remove(k - 1);
                    let entry = scope.remove(j);
                    scope.insert(j, (entry.0, value));
                    proof {
                        assert(scope@ =~= scope0.update(j as int, (scope0[j as int].0, value)));
                        lemma_entries_map_update(scope0, j as int, value);
                        assert(entries_map(scope@) == entries_map(scope0).insert(name@, value@));
                    }
                    self.scopes.insert(k - 1, scope);
                    proof {
                        assert forall|i: int| 0 <= i < final(self)@.len() implies final(self)@[i]
                            == chain0.update(k - 1, chain0[k - 1].insert(name@, value@))[i] by {
                            if i != k - 1 {
                                assert(self.scopes@[i] == scopes_before[i]);
                                assert(chain0[i] == entries_map(scopes_before[i]@));
                            } else {
                                assert(chain0[i] == entries_map(scope0));
                            }
                        }
                        assert(final(self)@ =~= chain0.update(
                            k - 1,
                            chain0[k - 1].insert(name@, value@),
                        ));
                        assert forall|i: int| 0 <= i < final(self).all_keys().len() implies final(self).all_keys()[i] == keys0[i] by {
                            assert(keys0[i] == scope_keys(scopes_before[i]@));
                            if i == k - 1 {
                                assert forall|j2: int|
                                    0 <= j2 < scope_keys(self.scopes@[i]@).len() implies
                                    scope_keys(self.scopes@[i]@)[j2] == scope_keys(scope0)[j2] by {
                                    assert(self.scopes@[i]@[j2].0@ == scope0[j2].0@);
                                }
                                assert(scope_keys(self.scopes@[i]@) =~= scope_keys(scope0));
                            } else {
                                assert(self.scopes@[i] == scopes_before[i]);
                            }
                        }
                        assert(final(self).all_keys() =~= keys0);
                    }
                    return;
                },
                None => {
                    proof {
                        lemma_entries_map_props(self.scopes@[k - 1]@);
                        if self@[k - 1].contains_key(name@) {
                            let jj = choose|jj: int|
                                0 <= jj < self.scopes@[k - 1]@.len() && (#[trigger] self.scopes@[k
                                    - 1]@[jj]).0@ == name@;
                            assert(false);
                        }
                    }
                },
            }
            k = k - 1;
        }
        proof {
            lemma_ch_lookup_none(chain0, name@);
            lemma_ch_assign_new(chain0, name@, value@);
        }
        let ghost scopes_before = self.scopes@;
        let entry_name = name.to_owned();
        let mut last = match self.scopes.pop() {
            Some(s) => s,
            None => {
                proof {
                    assert(false);
                }
                Vec::new()
            },
        };
        let ghost last0 = last@;
        proof {
            assert(last0 == scopes_before.last()@);
            assert(chain0[chain0.len() - 1] == entries_map(last0));
            lemma_entries_map_props(last0);
            assert(!entries_map(last0).contains_key(name@));
        }
        last.push((entry_name, value));
        proof {
            assert(last@.drop_last() =~= last0);
            assert(entries_map(last@) == entries_map(last0).insert(name@, value@));
            assert(distinct_keys(last@)) by {
                assert forall|a: int, b: int| 0 <= a < b < last@.len() implies (
                #[trigger] last@[a]).0@ != (#[trigger] last@[b]).0@ by {
                    assert(last@[a] == last0[a]);
                    if b < last@.len() - 1 {
                        assert(last@[b] == last0[b]);
                    } else {
                        assert(last@[b].0@ == name@);
                        assert(entries_map(last0).contains_key(last0[a].0@));
                    }
                }
            }
            assert(scope_keys(last@) =~= scope_keys(last0).push(name@));
        }
        self.scopes.push(last);
        proof {
            assert forall|i: int| 0 <= i < final(self)@.len() implies final(self)@[i]
                == chain0.update(chain0.len() - 1, chain0.last().insert(name@, value@))[i] by {
                if i != final(self)@.len() - 1 {
                    assert(self.scopes@[i] == scopes_before[i]);
                    assert(chain0[i] == entries_map(scopes_before[i]@));
                }
            }
            assert(final(self)@ =~= chain0.update(
                chain0.len() - 1,
                chain0.last().insert(name@, value@),
            ));
            assert forall|i: int| 0 <= i < final(self).all_keys().len() implies final(self).all_keys()[i] == keys0.update(chain0.len() - 1, keys0.last().push(name@))[i] by {
                assert(keys0[i] == scope_keys(scopes_before[i]@));
                if i != final(self).all_keys().len() - 1 {
                    assert(self.scopes@[i] == scopes_before[i]);
                }
            }
            assert(final(self).all_keys() =~= keys0.update(
                chain0.len() - 1,
                keys0.last().push(name@),
            ));
        }
    }

    /// Binds a name in the innermost scope alone, as parameter binding does:
    /// an outer binding of the same name is shadowed, not touched.
    pub fn bind(&mut self, name: &str, value: SValue)
        requires
            old(self).wf(),
        ensures
            final(self).wf(),
            final(self)@ == ch_bind(old(self)@, name@, value@),
            final(self)@.len() == old(self)@.len(),
    {
        let ghost chain0 = self@;
        let ghost scopes_before = self.scopes@;
        let mut last = match self.scopes.pop() {
            Some(s) => s,
            None => {
                proof {
                    assert(false);
                }
                Vec::new()
            },
        };
        let ghost last0 = last@;
        proof {
            assert(last0 == scopes_before.last()@);
            assert(chain0[chain0.len() - 1] == entries_map(last0));
        }
        match scope_find(&last, name) {
            Some(j) => {
                proof {
                    lemma_entries_map_props(last0);
                }
                let entry = last.remove(j);
                last.insert(j, (entry.0, value));
                proof {
                    assert(last@ =~= last0.update(j as int, (last0[j as int].0, value)));
                    lemma_entries_map_update(last0, j as int, value);
                    assert(entries_map(last@) == entries_map(last0).insert(name@, value@));
                }
            },
            None => {
                let entry_name = name.to_owned();
                last.push((entry_name, value));
                proof {
                    assert(last@.drop_last() =~= last0);
                    assert(entries_map(last@) == entries_map(last0).insert(name@, value@));
                    assert(distinct_keys(last@)) by {
                        assert forall|a: int, b: int| 0 <= a < b < last@.len() implies (
                        #[trigger] last@[a]).0@ != (#[trigger] last@[b]).0@ by {
                            assert(last@[a] == last0[a]);
                            if b < last@.len() - 1 {
                                assert(last@[b] == last0[b]);
                            } else {
                                assert(last@[b].0@ == name@);
                            }
                        }
                    }
                }
            },
        }
        self.scopes.push(last);
        proof {
            assert forall|i: int| 0 <= i < final(self)@.len() implies final(self)@[i]
                == chain0.update(chain0.len() - 1, chain0.last().insert(name@, value@))[i] by {
                if i != final(self)@.len() - 1 {
                    assert(self.scopes@[i] == scopes_before[i]);
                    assert(chain0[i] == entries_map(scopes_before[i]@));
                }
            }
            assert(final(self)@ =~= chain0.update(
                chain0.len() - 1,
                chain0.last().insert(name@, value@),
            ));
        }
    }

    /// Opens a fresh, empty innermost scope.
    pub fn push_scope(&mut self)
        requires
            old(self).wf(),
        ensures
            final(self).wf(),
            final(self)@ == old(self)@.push(Map::<Seq<char>, ValueV>::empty()),
            final(self)@.len() == old(self)@.len() + 1,
    {
        let ghost chain0 = self@;
        let ghost scopes_before = self.scopes@;
        self.scopes.push(Vec::new());
        proof {
            assert forall|i: int| 0 <= i < final(self)@.len() implies final(self)@[i]
                == chain0.push(Map::<Seq<char>, ValueV>::empty())[i] by {
                if i < final(self)@.len() - 1 {
                    assert(self.scopes@[i] == scopes_before[i]);
                    assert(chain0[i] == entries_map(scopes_before[i]@));
                }
            }
            assert(final(self)@ =~= chain0.push(Map::<Seq<char>, ValueV>::empty()));
        }
    }

    /// Drops the innermost scope, every binding in it included.
    pub fn pop_scope(&mut self)
        requires
            old(self).wf(),
            old(self)@.len() >= 2,
        ensures
            final(self).wf(),
            final(self)@ == old(self)@.drop_last(),
            final(self)@.len() == old(self)@.len() - 1,
    {
        let ghost chain0 = self@;
        let ghost scopes_before = self.scopes@;
        let _ = self.scopes.pop();
        proof {
            assert forall|i: int| 0 <= i < final(self)@.len() implies final(self)@[i]
                == chain0.drop_last()[i] by {
                assert(self.scopes@[i] == scopes_before[i]);
                assert(chain0[i] == entries_map(scopes_before[i]@));
            }
            assert(final(self)@ =~= chain0.drop_last());
        }
    }
}

// ---------------------------------------------------------------------------
// The executable evaluator, proved equal to the spec-level evaluator.
// ---------------------------------------------------------------------------

impl SValue {
    /// The fixed numeric coercion, as a `Number` value.
    fn to_number(&self) -> (r: SRes<SValue>)
        ensures
            match sp_to_number(self@) {
                Ok(n) => r == Ok::<SValue, SError>(SValue::Number(n)),
                Err(e) => r == Err::<SValue, SError>(e),
            },
    {
        match self {
            SValue::NoneVal => Ok(SValue::Number(0)),
            SValue::Number(x) => Ok(SValue::Number(*x)),
            SValue::Bool(b) => Ok(
                SValue::Number(
                    if *b {
                        1
                    } else {
                        0
                    },
                ),
            ),
            SValue::Function { .. } => Err(SError::VMCannotConvertToNumber),
        }
    }
}

/// Whether the evaluator computes with this operator symbol.
fn known_op(op: &String) -> (r: bool)
    ensures
        r == sp_known_op(op@),
{
    str_eq(op.as_str(), "+") || str_eq(op.as_str(), "-") || str_eq(op.as_str(), "*") || str_eq(
        op.as_str(),
        "/",
    ) || str_eq(op.as_str(), "==") || str_eq(op.as_str(), "!=") || str_eq(op.as_str(), "<")
        || str_eq(op.as_str(), "<=") || str_eq(op.as_str(), ">") || str_eq(op.as_str(), ">=")
        || str_eq(op.as_str(), "and") || str_eq(op.as_str(), "or")
}

/// Applies a known operator to two coerced numbers.
fn apply_op(op: &String, l: i32, r: i32) -> (res: SRes<SValue>)
    ensures
        eval_res_view(res) == sp_apply_op(op@, l, r),
{
    if str_eq(op.as_str(), "+") {
        Ok(SValue::Number(l.wrapping_add(r)))
    } else if str_eq(op.as_str(), "-") {
        Ok(SValue::Number(l.wrapping_sub(r)))
    } else if str_eq(op.as_str(), "*") {
        Ok(SValue::Number(l.wrapping_mul(r)))
    } else if str_eq(op.as_str(), "/") {
        match l.checked_div(r) {
            Some(q) => Ok(SValue::Number(q)),
            None => Err(SError::VMDivisionByZero),
        }
    } else if str_eq(op.as_str(), "==") {
        Ok(SValue::Bool(l == r))
    } else if str_eq(op.as_str(), "!=") {
        Ok(SValue::Bool(l != r))
    } else if str_eq(op.as_str(), "<") {
        Ok(SValue::Bool(l < r))
    } else if str_eq(op.as_str(), "<=") {
        Ok(SValue::Bool(l <= r))
    } else if str_eq(op.as_str(), ">") {
        Ok(SValue::Bool(l > r))
    } else if str_eq(op.as_str(), ">=") {
        Ok(SValue::Bool(l >= r))
    } else if str_eq(op.as_str(), "and") {
        Ok(SValue::Bool(l != 0 && r != 0))
    } else if str_eq(op.as_str(), "or") {
        Ok(SValue::Bool(l != 0 || r != 0))
    } else {
        Err(SError::VMUnsupportedExpression)
    }
}

fn execute_none(_ctx: &mut SContext) -> (r: SRes<SValue>)
    ensures
        *final(_ctx) == *old(_ctx),
        r == Ok::<SValue, SError>(SValue::NoneVal),
{
    Ok(SValue::NoneVal)
}

fn execute_number(x: i32, _ctx: &mut SContext) -> (r: SRes<SValue>)
    ensures
        *final(_ctx) == *old(_ctx),
        r == Ok::<SValue, SError>(SValue::Number(x)),
{
    Ok(SValue::Number(x))
}

fn execute_bool(value: bool, _ctx: &mut SContext) -> (r: SRes<SValue>)
    ensures
        *final(_ctx) == *old(_ctx),
        r == Ok::<SValue, SError>(SValue::Bool(value)),
{
    Ok(SValue::Bool(value))
}

/// A function literal evaluates to a function value holding its own copy of
/// the parameter names and the body.
fn execute_function(params: &Vec<String>, body: &Expr, _ctx: &mut SContext) -> (r: SRes<SValue>)
    ensures
        *final(_ctx) == *old(_ctx),
        eval_res_view(r) == Ok::<ValueV, SError>(
            ValueV::Function { params: names_view(params@), body: body@ },
        ),
{
    Ok(
        SValue::Function {
            params: crate::parser::ast::clone_names(params),
            body: crate::parser::ast::clone_expr(body),
        },
    )
}

/// The children of a block, evaluated in order from index `i` on.
fn execute_block_from(exprs: &Vec<Expr>, i: usize, ctx: &mut SContext, fuel: u64) -> (r: SRes<
    SValue,
>)
    requires
        old(ctx).wf(),
        i <= exprs@.len(),
    ensures
        final(ctx).wf(),
        final(ctx)@.len() == old(ctx)@.len(),
        (eval_res_view(r), final(ctx)@) == sp_eval_block(
            fuel as nat,
            exprs_view(exprs@).skip(i as int),
            old(ctx)@,
        ),
    decreases fuel, size_seq(exprs_view(exprs@).skip(i as int)), 1int, exprs@.len() - i,
{
    proof {
        lemma_exprs_view_index(exprs@);
    }
    let ghost tail = exprs_view(exprs@).skip(i as int);
    if i == exprs.len() {
        proof {
            assert(tail.len() == 0);
        }
        return Ok(SValue::NoneVal);
    }
    proof {
        assert(tail[0] == exprs@[i as int]@);
    }
    let v = match execute_expr(&exprs[i], ctx, fuel) {
        Ok(v) => v,
        Err(e) => {
            return Err(e);
        },
    };
    if i + 1 == exprs.len() {
        proof {
            assert(tail.len() == 1);
        }
        Ok(v)
    } else {
        proof {
            assert(tail.drop_first() =~= exprs_view(exprs@).skip(i + 1));
        }
        execute_block_from(exprs, i + 1, ctx, fuel)
    }
}

/// A block: a strict fold over its children, whose value is the last one's,
/// `none` when there are none.
fn execute_block(exprs: &Vec<Expr>, ctx: &mut SContext, fuel: u64) -> (r: SRes<SValue>)
    requires
        old(ctx).wf(),
    ensures
        final(ctx).wf(),
        final(ctx)@.len() == old(ctx)@.len(),
        (eval_res_view(r), final(ctx)@) == sp_eval_block(
            fuel as nat,
            exprs_view(exprs@),
            old(ctx)@,
        ),
    decreases fuel, size_seq(exprs_view(exprs@)), 2int, 0int,
{
    proof {
        assert(exprs_view(exprs@).skip(0) =~= exprs_view(exprs@));
    }
    execute_block_from(exprs, 0, ctx, fuel)
}

/// Binds a call's arguments to its parameter names, from index `i` on, into
/// the innermost scope.
fn bind_args_from(params: &Vec<String>, args: &Vec<Expr>, i: usize, ctx: &mut SContext, fuel: u64)
    -> (r: Result<(), SError>)
    requires
        old(ctx).wf(),
        i <= args@.len(),
        params@.len() == args@.len(),
    ensures
        final(ctx).wf(),
        final(ctx)@.len() == old(ctx)@.len(),
        (r, final(ctx)@) == sp_bind_args(
            fuel as nat,
            names_view(params@).skip(i as int),
            exprs_view(args@).skip(i as int),
            old(ctx)@,
        ),
    decreases fuel, size_seq(exprs_view(args@).skip(i as int)), 1int, args@.len() - i,
{
    proof {
        lemma_exprs_view_index(args@);
    }
    let ghost ptail = names_view(params@).skip(i as int);
    let ghost atail = exprs_view(args@).skip(i as int);
    if i == args.len() {
        proof {
            assert(atail.len() == 0);
        }
        return Ok(());
    }
    proof {
        assert(atail[0] == args@[i as int]@);
        assert(ptail[0] == params@[i as int]@);
    }
    let v = match execute_expr(&args[i], ctx, fuel) {
        Ok(v) => v,
        Err(e) => {
            return Err(e);
        },
    };
    ctx.bind(params[i].as_str(), v);
    proof {
        assert(atail.drop_first() =~= exprs_view(args@).skip(i + 1));
        assert(ptail.drop_first() =~= names_view(params@).skip(i + 1));
    }
    bind_args_from(params, args, i + 1, ctx, fuel)
}

/// A call: looks the callee up through the chain, checks it is a function of
/// the right arity, spends one unit of fuel, then pushes a fresh scope, binds
/// the arguments into it, runs the body, and drops the scope again — on the
/// error paths too. The parameters never touch the caller's scopes.
fn execute_call(callee: &String, args: &Vec<Expr>, ctx: &mut SContext, fuel: u64) -> (r: SRes<
    SValue,
>)
    requires
        old(ctx).wf(),
    ensures
        final(ctx).wf(),
        final(ctx)@.len() == old(ctx)@.len(),
        (eval_res_view(r), final(ctx)@) == sp_eval_call(
            fuel as nat,
            callee@,
            exprs_view(args@),
            old(ctx)@,
        ),
    decreases fuel, size_seq(exprs_view(args@)), 3int, 0int,
{
    let (params, body) = match ctx.get(callee.as_str()) {
        None => {
            return Err(SError::VMVariableDoesntExist);
        },
        Some(SValue::Function { params, body }) => (
            crate::parser::ast::clone_names(params),
            crate::parser::ast::clone_expr(body),
        ),
        Some(_) => {
            return Err(SError::VMCannotCallNonFunction);
        },
    };
    if params.len() != args.len() {
        proof {
            lemma_exprs_view_index(args@);
        }
        return Err(SError::VMMismatchArgumentListLength);
    }
    if fuel == 0 {
        proof {
            lemma_exprs_view_index(args@);
        }
        return Err(SError::VMRecursionLimit);
    }
    ctx.push_scope();
    proof {
        lemma_exprs_view_index(args@);
        assert(names_view(params@).skip(0) =~= names_view(params@));
        assert(exprs_view(args@).skip(0) =~= exprs_view(args@));
    }
    match bind_args_from(&params, args, 0, ctx, fuel) {
        Err(e) => {
            ctx.pop_scope();
            return Err(e);
        },
        Ok(_) => {},
    }
    let r = execute_expr(&body, ctx, fuel - 1);
    ctx.pop_scope();
    r
}

/// An assignment: the left operand must be a variable reference; the
/// right-hand side evaluates, then the name is bound per `ch_assign`. Yields
/// `none`.
fn execute_assign(lhs: &Expr, rhs: &Expr, ctx: &mut SContext, fuel: u64) -> (r: SRes<SValue>)
    requires
        old(ctx).wf(),
    ensures
        final(ctx).wf(),
        final(ctx)@.len() == old(ctx)@.len(),
        (eval_res_view(r), final(ctx)@) == sp_eval_assign(fuel as nat, lhs@, rhs@, old(ctx)@),
    decreases fuel, size(lhs@) + size(rhs@), 1int, 0int,
{
    let name = match lhs {
        Expr::VarRef(s) => s,
        _ => {
            return Err(SError::VMCannotAssignNonVariable);
        },
    };
    let v = match execute_expr(rhs, ctx, fuel) {
        Ok(v) => v,
        Err(e) => {
            return Err(e);
        },
    };
    ctx.set(name.as_str(), v);
    Ok(SValue::NoneVal)
}

/// A computing operator: evaluate and coerce left, then right, then apply.
fn execute_arith(op: &String, lhs: &Expr, rhs: &Expr, ctx: &mut SContext, fuel: u64) -> (r: SRes<
    SValue,
>)
    requires
        old(ctx).wf(),
    ensures
        final(ctx).wf(),
        final(ctx)@.len() == old(ctx)@.len(),
        (eval_res_view(r), final(ctx)@) == sp_eval_arith(fuel as nat, op@, lhs@, rhs@, old(ctx)@),
    decreases fuel, size(lhs@) + size(rhs@), 1int, 0int,
{
    let lv = match execute_expr(lhs, ctx, fuel) {
        Ok(v) => v,
        Err(e) => {
            return Err(e);
        },
    };
    let ln = match lv.to_number() {
        Ok(SValue::Number(x)) => x,
        Ok(_) => {
            proof {
                assert(false);
            }
            return Err(SError::VMCannotConvertToNumber);
        },
        Err(e) => {
            return Err(e);
        },
    };
    let rv = match execute_expr(rhs, ctx, fuel) {
        Ok(v) => v,
        Err(e) => {
            return Err(e);
        },
    };
    let rn = match rv.to_number() {
        Ok(SValue::Number(x)) => x,
        Ok(_) => {
            proof {
                assert(false);
            }
            return Err(SError::VMCannotConvertToNumber);
        },
        Err(e) => {
            return Err(e);
        },
    };
    apply_op(op, ln, rn)
}

/// A binary operation: `=` assigns, a known operator computes, anything else
/// is the unsupported-construct error.
fn execute_binary_op(op: &String, lhs: &Expr, rhs: &Expr, ctx: &mut SContext, fuel: u64) -> (r:
    SRes<SValue>)
    requires
        old(ctx).wf(),
    ensures
        final(ctx).wf(),
        final(ctx)@.len() == old(ctx)@.len(),
        (eval_res_view(r), final(ctx)@) == sp_eval_binop(fuel as nat, op@, lhs@, rhs@, old(ctx)@),
    decreases fuel, size(lhs@) + size(rhs@), 2int, 0int,
{
    if str_eq(op.as_str(), "=") {
        execute_assign(lhs, rhs, ctx, fuel)
    } else if known_op(op) {
        execute_arith(op, lhs, rhs, ctx, fuel)
    } else {
        Err(SError::VMUnsupportedExpression)
    }
}

/// Evaluates one expression against the environment, with `fuel` bounding how
/// deeply calls may nest. The result and the scope chain's new state are
/// exactly those of the spec-level evaluator `sp_eval`.
pub fn execute_expr(e: &Expr, ctx: &mut SContext, fuel: u64) -> (r: SRes<SValue>)
    requires
        old(ctx).wf(),
    ensures
        final(ctx).wf(),
        final(ctx)@.len() == old(ctx)@.len(),
        (eval_res_view(r), final(ctx)@) == sp_eval(fuel as nat, e@, old(ctx)@),
    decreases fuel, size(e@), 0int, 0int,
{
    match e {
        Expr::NoneLit => execute_none(ctx),
        Expr::Number(x) => execute_number(*x, ctx),
        Expr::Bool(b) => execute_bool(*b, ctx),
        Expr::Block(exprs) => execute_block(exprs, ctx, fuel),
        Expr::Function { params, body } => execute_function(params, body, ctx),
        Expr::Call { callee, args } => execute_call(callee, args, ctx, fuel),
        Expr::BinaryOp { op, lhs, rhs } => execute_binary_op(op, &*lhs, &*rhs, ctx, fuel),
        _ => Err(SError::VMUnsupportedExpression),
    }
}

/// Parses and evaluates one source string against the environment, with the
/// standard call-depth fuel.
pub fn execute_str(s: &str, ctx: &mut SContext) -> (r: SRes<SValue>)
    requires
        old(ctx).wf(),
    ensures
        final(ctx).wf(),
        final(ctx)@.len() == old(ctx)@.len(),
        (eval_res_view(r), final(ctx)@) == sp_execute(s@, old(ctx)@),
{
    let e = match parse_str(s) {
        Ok(e) => e,
        Err(er) => {
            return Err(er);
        },
    };
    execute_expr(&e, ctx, CALL_DEPTH_LIMIT)
}

/// Parses and evaluates one owned source string.
pub fn execute_string(s: &String, ctx: &mut SContext) -> (r: SRes<SValue>)
    requires
        old(ctx).wf(),
    ensures
        final(ctx).wf(),
        final(ctx)@.len() == old(ctx)@.len(),
        (eval_res_view(r), final(ctx)@) == sp_execute(s@, old(ctx)@),
{
    execute_str(s.as_str(), ctx)
}

} // verus!
