//! From kernels as graphs of values to functions on tiles.
//!
//! Nodes are translated in order. Each value of the graph becomes a value of the function;
//! loops become blocks, and conditions change which lanes take part.
use vstd::prelude::*;

use crate::block_dsl::{BNode, BVal, BlockKernel, BlockState, TileGemmConfig, node_texts};
use crate::text::{dec, push_dec};
use crate::tile_ssa::{
    BinOpKind, CmpOpKind, ForLoop, ForLoopAcc, FuncState, ReduceKind, ScalarDType, TensorLayout,
    TileFunc, TileOp, TileType, UnaryOpKind, Value, scalar_type, tile_type, vector_type,
};

verus! {

/// The function after a node, and the value that the node became; or what is wrong with it.
pub type Step = Result<(FuncState, Option<Value>), Seq<char>>;

/// Whether the values that nodes became are values of the function.
pub open spec fn vals_ok(f: FuncState, vals: Seq<Option<Value>>) -> bool {
    forall|i: int|
        0 <= i < vals.len() ==> (#[trigger] vals[i] matches Some(v) ==> v.0 < f.types.len())
}

/// Whether a translated node came out as it should.
pub open spec fn step_agrees(f: FuncState, r: Result<Option<Value>, String>, step: Step) -> bool {
    match (r, step) {
        (Ok(v), Ok((s, w))) => f == s && v == w,
        (Err(e), Err(t)) => e@ == t,
        _ => false,
    }
}

/// Whether a translated node left a well-formed function with no less in it.
pub open spec fn moved_on(a: FuncState, b: FuncState, r: Result<Option<Value>, String>) -> bool {
    r matches Ok(v) ==> {
        &&& b.wf()
        &&& a.types.len() <= b.types.len()
        &&& a.blocks.len() <= b.blocks.len()
        &&& v matches Some(x) ==> x.0 < b.types.len()
    }
}

/// The message about a node without a value.
pub open spec fn not_found(b: BVal) -> Seq<char> {
    "BVal "@ + dec(b.0 as nat) + " not found in val_map"@
}

/// The value of a node, or that it has none.
pub open spec fn need1(vals: Seq<Option<Value>>, a: BVal) -> Result<Value, Seq<char>> {
    if a.0 < vals.len() {
        match vals[a.0 as int] {
            Some(v) => Ok(v),
            None => Err(not_found(a)),
        }
    } else {
        Err(not_found(a))
    }
}

/// The value of a node.
fn find1(vals: &Vec<Option<Value>>, a: BVal) -> (r: Result<Value, String>)
    ensures
        match (r, need1(vals@, a)) {
            (Ok(x), Ok(y)) => x == y,
            (Err(x), Err(y)) => x@ == y,
            _ => false,
        },
{
    if a.0 < vals.len() {
        match vals[a.0] {
            Some(v) => {
                return Ok(v);
            },
            None => {},
        }
    }
    let mut e = String::new();
    e.append("BVal ");
    push_dec(&mut e, a.0 as u64);
    e.append(" not found in val_map");
    assert(e@ =~= not_found(a));
    Err(e)
}

/// The values of two nodes, or which of them is missing first.
pub open spec fn need2(
    vals: Seq<Option<Value>>,
    a: BVal,
    b: BVal,
) -> Result<(Value, Value), Seq<char>> {
    match need1(vals, a) {
        Ok(a) => match need1(vals, b) {
            Ok(b) => Ok((a, b)),
            Err(x) => Err(x),
        },
        Err(x) => Err(x),
    }
}

/// The values of two nodes.
fn find2(vals: &Vec<Option<Value>>, a: BVal, b: BVal) -> (r: Result<(Value, Value), String>)
    ensures
        match (r, need2(vals@, a, b)) {
            (Ok(x), Ok(y)) => x == y,
            (Err(x), Err(y)) => x@ == y,
            _ => false,
        },
{
    match find1(vals, a) {
        Ok(a) => match find1(vals, b) {
            Ok(b) => Ok((a, b)),
            Err(x) => Err(x),
        },
        Err(x) => Err(x),
    }
}

/// The values of three nodes, or which of them is missing first.
pub open spec fn need3(
    vals: Seq<Option<Value>>,
    a: BVal,
    b: BVal,
    c: BVal,
) -> Result<(Value, Value, Value), Seq<char>> {
    match need2(vals, a, b) {
        Ok((a, b)) => match need1(vals, c) {
            Ok(c) => Ok((a, b, c)),
            Err(x) => Err(x),
        },
        Err(x) => Err(x),
    }
}

/// The values of three nodes.
fn find3(
    vals: &Vec<Option<Value>>,
    a: BVal,
    b: BVal,
    c: BVal,
) -> (r: Result<(Value, Value, Value), String>)
    ensures
        match (r, need3(vals@, a, b, c)) {
            (Ok(x), Ok(y)) => x == y,
            (Err(x), Err(y)) => x@ == y,
            _ => false,
        },
{
    match find2(vals, a, b) {
        Ok((a, b)) => match find1(vals, c) {
            Ok(c) => Ok((a, b, c)),
            Err(x) => Err(x),
        },
        Err(x) => Err(x),
    }
}

/// The values of four nodes, or which of them is missing first.
pub open spec fn need4(
    vals: Seq<Option<Value>>,
    a: BVal,
    b: BVal,
    c: BVal,
    d: BVal,
) -> Result<(Value, Value, Value, Value), Seq<char>> {
    match need3(vals, a, b, c) {
        Ok((a, b, c)) => match need1(vals, d) {
            Ok(d) => Ok((a, b, c, d)),
            Err(x) => Err(x),
        },
        Err(x) => Err(x),
    }
}

/// The values of four nodes.
fn find4(
    vals: &Vec<Option<Value>>,
    a: BVal,
    b: BVal,
    c: BVal,
    d: BVal,
) -> (r: Result<(Value, Value, Value, Value), String>)
    ensures
        match (r, need4(vals@, a, b, c, d)) {
            (Ok(x), Ok(y)) => x == y,
            (Err(x), Err(y)) => x@ == y,
            _ => false,
        },
{
    match find3(vals, a, b, c) {
        Ok((a, b, c)) => match find1(vals, d) {
            Ok(d) => Ok((a, b, c, d)),
            Err(x) => Err(x),
        },
        Err(x) => Err(x),
    }
}

/// The values of five nodes, or which of them is missing first.
pub open spec fn need5(
    vals: Seq<Option<Value>>,
    a: BVal,
    b: BVal,
    c: BVal,
    d: BVal,
    e: BVal,
) -> Result<(Value, Value, Value, Value, Value), Seq<char>> {
    match need4(vals, a, b, c, d) {
        Ok((a, b, c, d)) => match need1(vals, e) {
            Ok(e) => Ok((a, b, c, d, e)),
            Err(x) => Err(x),
        },
        Err(x) => Err(x),
    }
}

/// The values of five nodes.
fn find5(
    vals: &Vec<Option<Value>>,
    a: BVal,
    b: BVal,
    c: BVal,
    d: BVal,
    e: BVal,
) -> (r: Result<(Value, Value, Value, Value, Value), String>)
    ensures
        match (r, need5(vals@, a, b, c, d, e)) {
            (Ok(x), Ok(y)) => x == y,
            (Err(x), Err(y)) => x@ == y,
            _ => false,
        },
{
    match find4(vals, a, b, c, d) {
        Ok((a, b, c, d)) => match find1(vals, e) {
            Ok(e) => Ok((a, b, c, d, e)),
            Err(x) => Err(x),
        },
        Err(x) => Err(x),
    }
}

/// Translates an operation on two values.
#[verifier::opaque]
pub open spec fn binary_step(
    f: FuncState,
    vals: Seq<Option<Value>>,
    kind: BinOpKind,
    a: BVal,
    b: BVal,
) -> Step {
    match need2(vals, a, b) {
        Ok((a, b)) => {
            let v = f.next();
            let f = f.binary(kind, a, b);
            Ok((f, Some(v)))
        },
        Err(e) => Err(e),
    }
}

/// Translates an operation on two values.
fn binary(
    f: &mut TileFunc,
    vals: &Vec<Option<Value>>,
    kind: BinOpKind,
    a: BVal,
    b: BVal,
) -> (r: Result<Option<Value>, String>)
    requires
        old(f)@.wf(),
        vals_ok(old(f)@, vals@),
    ensures
        step_agrees(final(f)@, r, binary_step(old(f)@, vals@, kind, a, b)),
        moved_on(old(f)@, final(f)@, r),
{
    proof {
        reveal(binary_step);
    }
    match find2(vals, a, b) {
        Ok((a, b)) => {
            let v = f.binop_raw(kind, a, b);
            Ok(Some(v))
        },
        Err(e) => Err(e),
    }
}

/// It comes out with a value, if its operands have values.
proof fn lemma_binary(f: FuncState, vals: Seq<Option<Value>>, kind: BinOpKind, a: BVal, b: BVal)
    ensures
        binary_step(f, vals, kind, a, b) matches Ok((g, v)) ==> v is Some,
        need1(vals, a) is Ok && need1(vals, b) is Ok ==> binary_step(f, vals, kind, a, b) is Ok,
{
    reveal(binary_step);
}

/// Translates an operation on one value.
#[verifier::opaque]
pub open spec fn unary_step(
    f: FuncState,
    vals: Seq<Option<Value>>,
    kind: UnaryOpKind,
    a: BVal,
) -> Step {
    match need1(vals, a) {
        Ok(a) => {
            let v = f.next();
            let f = f.unary(kind, a);
            Ok((f, Some(v)))
        },
        Err(e) => Err(e),
    }
}

/// Translates an operation on one value.
fn unary(
    f: &mut TileFunc,
    vals: &Vec<Option<Value>>,
    kind: UnaryOpKind,
    a: BVal,
) -> (r: Result<Option<Value>, String>)
    requires
        old(f)@.wf(),
        vals_ok(old(f)@, vals@),
    ensures
        step_agrees(final(f)@, r, unary_step(old(f)@, vals@, kind, a)),
        moved_on(old(f)@, final(f)@, r),
{
    proof {
        reveal(unary_step);
    }
    match find1(vals, a) {
        Ok(a) => {
            let v = f.unary(kind, a);
            Ok(Some(v))
        },
        Err(e) => Err(e),
    }
}

/// It comes out with a value, if its operands have values.
proof fn lemma_unary(f: FuncState, vals: Seq<Option<Value>>, kind: UnaryOpKind, a: BVal)
    ensures
        unary_step(f, vals, kind, a) matches Ok((g, v)) ==> v is Some,
        need1(vals, a) is Ok ==> unary_step(f, vals, kind, a) is Ok,
{
    reveal(unary_step);
}

/// Translates a comparison.
#[verifier::opaque]
pub open spec fn comparison_step(
    f: FuncState,
    vals: Seq<Option<Value>>,
    kind: CmpOpKind,
    a: BVal,
    b: BVal,
) -> Step {
    match need2(vals, a, b) {
        Ok((a, b)) => {
            let v = f.next();
            let f = f.compare(kind, a, b);
            Ok((f, Some(v)))
        },
        Err(e) => Err(e),
    }
}

/// Translates a comparison.
fn comparison(
    f: &mut TileFunc,
    vals: &Vec<Option<Value>>,
    kind: CmpOpKind,
    a: BVal,
    b: BVal,
) -> (r: Result<Option<Value>, String>)
    requires
        old(f)@.wf(),
        vals_ok(old(f)@, vals@),
    ensures
        step_agrees(final(f)@, r, comparison_step(old(f)@, vals@, kind, a, b)),
        moved_on(old(f)@, final(f)@, r),
{
    proof {
        reveal(comparison_step);
    }
    match find2(vals, a, b) {
        Ok((a, b)) => {
            let v = f.compare(kind, a, b);
            Ok(Some(v))
        },
        Err(e) => Err(e),
    }
}

/// It comes out with a value, if its operands have values.
proof fn lemma_comparison(f: FuncState, vals: Seq<Option<Value>>, kind: CmpOpKind, a: BVal, b: BVal)
    ensures
        comparison_step(f, vals, kind, a, b) matches Ok((g, v)) ==> v is Some,
        need1(vals, a) is Ok && need1(vals, b) is Ok ==> comparison_step(f, vals, kind, a, b) is Ok,
{
    reveal(comparison_step);
}

/// Translates an operation with a constant.
#[verifier::opaque]
pub open spec fn with_const_step(
    f: FuncState,
    vals: Seq<Option<Value>>,
    kind: BinOpKind,
    c: u32,
    a: BVal,
) -> Step {
    match need1(vals, a) {
        Ok(a) => {
            let k = f.next();
            let f = f.const_u32(c);
            let v = f.next();
            let f = f.binary(kind, a, k);
            Ok((f, Some(v)))
        },
        Err(e) => Err(e),
    }
}

/// Translates an operation with a constant.
fn with_const(
    f: &mut TileFunc,
    vals: &Vec<Option<Value>>,
    kind: BinOpKind,
    c: u32,
    a: BVal,
) -> (r: Result<Option<Value>, String>)
    requires
        old(f)@.wf(),
        vals_ok(old(f)@, vals@),
    ensures
        step_agrees(final(f)@, r, with_const_step(old(f)@, vals@, kind, c, a)),
        moved_on(old(f)@, final(f)@, r),
{
    proof {
        reveal(with_const_step);
    }
    match find1(vals, a) {
        Ok(a) => {
            let k = f.const_u32(c);
            let v = f.binop_raw(kind, a, k);
            Ok(Some(v))
        },
        Err(e) => Err(e),
    }
}

/// It comes out with a value, if its operands have values.
proof fn lemma_with_const(f: FuncState, vals: Seq<Option<Value>>, kind: BinOpKind, c: u32, a: BVal)
    ensures
        with_const_step(f, vals, kind, c, a) matches Ok((g, v)) ==> v is Some,
        need1(vals, a) is Ok ==> with_const_step(f, vals, kind, c, a) is Ok,
{
    reveal(with_const_step);
}

/// Translates the conversion of bf16 bits to a float: they move to its upper half.
#[verifier::opaque]
pub open spec fn widening_step(f: FuncState, vals: Seq<Option<Value>>, a: BVal) -> Step {
    match need1(vals, a) {
        Ok(a) => {
            let sixteen = f.next();
            let f = f.const_u32(16);
            let v = f.next();
            let f = f.widen(a, sixteen);
            Ok((f, Some(v)))
        },
        Err(e) => Err(e),
    }
}

/// Translates the conversion of bf16 bits to a float: they move to its upper half.
fn widening(f: &mut TileFunc, vals: &Vec<Option<Value>>, a: BVal) -> (r: Result<
    Option<Value>,
    String,
>)
    requires
        old(f)@.wf(),
        vals_ok(old(f)@, vals@),
    ensures
        step_agrees(final(f)@, r, widening_step(old(f)@, vals@, a)),
        moved_on(old(f)@, final(f)@, r),
{
    proof {
        reveal(widening_step);
    }
    match find1(vals, a) {
        Ok(a) => {
            let sixteen = f.const_u32(16);
            let v = f.widen(a, sixteen);
            Ok(Some(v))
        },
        Err(e) => Err(e),
    }
}

/// It comes out with a value, if its operand has one.
proof fn lemma_widening(f: FuncState, vals: Seq<Option<Value>>, a: BVal)
    ensures
        widening_step(f, vals, a) matches Ok((g, v)) ==> v is Some,
        need1(vals, a) is Ok ==> widening_step(f, vals, a) is Ok,
{
    reveal(widening_step);
}

/// Translates a multiplication with addition.
#[verifier::opaque]
pub open spec fn fused_step(
    f: FuncState,
    vals: Seq<Option<Value>>,
    a: BVal,
    b: BVal,
    c: BVal,
) -> Step {
    match need3(vals, a, b, c) {
        Ok((a, b, c)) => {
            let v = f.next();
            let f = f.define(f.ty(a), TileOp::Fma { result: v, a, b, c });
            Ok((f, Some(v)))
        },
        Err(e) => Err(e),
    }
}

/// Translates a multiplication with addition.
fn fused(
    f: &mut TileFunc,
    vals: &Vec<Option<Value>>,
    a: BVal,
    b: BVal,
    c: BVal,
) -> (r: Result<Option<Value>, String>)
    requires
        old(f)@.wf(),
        vals_ok(old(f)@, vals@),
    ensures
        step_agrees(final(f)@, r, fused_step(old(f)@, vals@, a, b, c)),
        moved_on(old(f)@, final(f)@, r),
{
    proof {
        reveal(fused_step);
    }
    match find3(vals, a, b, c) {
        Ok((a, b, c)) => {
            let ty = *f.value_type(a);
            let v = f.next_value();
            let _ = f.define(ty, TileOp::Fma { result: v, a, b, c });
            Ok(Some(v))
        },
        Err(e) => Err(e),
    }
}

/// It comes out with a value, if its operands have values.
proof fn lemma_fused(f: FuncState, vals: Seq<Option<Value>>, a: BVal, b: BVal, c: BVal)
    ensures
        fused_step(f, vals, a, b, c) matches Ok((g, v)) ==> v is Some,
        need1(vals, a) is Ok && need1(vals, b) is Ok && need1(vals, c) is Ok
            ==> fused_step(f, vals, a, b, c) is Ok,
{
    reveal(fused_step);
}

/// Translates a selection.
#[verifier::opaque]
pub open spec fn selection_step(
    f: FuncState,
    vals: Seq<Option<Value>>,
    mask: BVal,
    on_true: BVal,
    on_false: BVal,
) -> Step {
    match need3(vals, mask, on_true, on_false) {
        Ok((mask, on_true, on_false)) => {
            let v = f.next();
            let f = f.define(f.ty(on_true), TileOp::Select { result: v, mask, on_true, on_false });
            Ok((f, Some(v)))
        },
        Err(e) => Err(e),
    }
}

/// Translates a selection.
fn selection(
    f: &mut TileFunc,
    vals: &Vec<Option<Value>>,
    mask: BVal,
    on_true: BVal,
    on_false: BVal,
) -> (r: Result<Option<Value>, String>)
    requires
        old(f)@.wf(),
        vals_ok(old(f)@, vals@),
    ensures
        step_agrees(final(f)@, r, selection_step(old(f)@, vals@, mask, on_true, on_false)),
        moved_on(old(f)@, final(f)@, r),
{
    proof {
        reveal(selection_step);
    }
    match find3(vals, mask, on_true, on_false) {
        Ok((mask, on_true, on_false)) => {
            let ty = *f.value_type(on_true);
            let v = f.next_value();
            let _ = f.define(ty, TileOp::Select { result: v, mask, on_true, on_false });
            Ok(Some(v))
        },
        Err(e) => Err(e),
    }
}

/// It comes out with a value, if its operands have values.
proof fn lemma_selection(
    f: FuncState,
    vals: Seq<Option<Value>>,
    mask: BVal,
    on_true: BVal,
    on_false: BVal,
)
    ensures
        selection_step(f, vals, mask, on_true, on_false) matches Ok((g, v)) ==> v is Some,
        need1(vals, mask) is Ok && need1(vals, on_true) is Ok && need1(vals, on_false) is Ok
            ==> selection_step(f, vals, mask, on_true, on_false) is Ok,
{
    reveal(selection_step);
}

/// Translates a load of floats; lanes outside the mask get zero.
#[verifier::opaque]
pub open spec fn float_load_step(
    f: FuncState,
    vals: Seq<Option<Value>>,
    ptr: BVal,
    index: BVal,
    mask: BVal,
) -> Step {
    match need3(vals, ptr, index, mask) {
        Ok((ptr, index, mask)) => {
            let zero = f.next();
            let f = f.const_f32(0);
            let v = f.next();
            let f = f.load_masked(ptr, index, mask, zero, ScalarDType::F32);
            Ok((f, Some(v)))
        },
        Err(e) => Err(e),
    }
}

/// Translates a load of floats; lanes outside the mask get zero.
fn float_load(
    f: &mut TileFunc,
    vals: &Vec<Option<Value>>,
    ptr: BVal,
    index: BVal,
    mask: BVal,
) -> (r: Result<Option<Value>, String>)
    requires
        old(f)@.wf(),
        vals_ok(old(f)@, vals@),
    ensures
        step_agrees(final(f)@, r, float_load_step(old(f)@, vals@, ptr, index, mask)),
        moved_on(old(f)@, final(f)@, r),
{
    proof {
        reveal(float_load_step);
    }
    match find3(vals, ptr, index, mask) {
        Ok((ptr, index, mask)) => {
            let zero = f.const_f32(0);
            let v = f.load_masked(ptr, index, mask, zero, ScalarDType::F32);
            Ok(Some(v))
        },
        Err(e) => Err(e),
    }
}

/// It comes out with a value, if its operands have values.
proof fn lemma_float_load(
    f: FuncState,
    vals: Seq<Option<Value>>,
    ptr: BVal,
    index: BVal,
    mask: BVal,
)
    ensures
        float_load_step(f, vals, ptr, index, mask) matches Ok((g, v)) ==> v is Some,
        need1(vals, ptr) is Ok && need1(vals, index) is Ok && need1(vals, mask) is Ok
            ==> float_load_step(f, vals, ptr, index, mask) is Ok,
{
    reveal(float_load_step);
}

/// Translates a load of words; lanes outside the mask get zero.
#[verifier::opaque]
pub open spec fn word_load_step(
    f: FuncState,
    vals: Seq<Option<Value>>,
    ptr: BVal,
    index: BVal,
    mask: BVal,
) -> Step {
    match need3(vals, ptr, index, mask) {
        Ok((ptr, index, mask)) => {
            let zero = f.next();
            let f = f.const_u32(0);
            let v = f.next();
            let f = f.load_masked(ptr, index, mask, zero, ScalarDType::U32);
            Ok((f, Some(v)))
        },
        Err(e) => Err(e),
    }
}

/// Translates a load of words; lanes outside the mask get zero.
fn word_load(
    f: &mut TileFunc,
    vals: &Vec<Option<Value>>,
    ptr: BVal,
    index: BVal,
    mask: BVal,
) -> (r: Result<Option<Value>, String>)
    requires
        old(f)@.wf(),
        vals_ok(old(f)@, vals@),
    ensures
        step_agrees(final(f)@, r, word_load_step(old(f)@, vals@, ptr, index, mask)),
        moved_on(old(f)@, final(f)@, r),
{
    proof {
        reveal(word_load_step);
    }
    match find3(vals, ptr, index, mask) {
        Ok((ptr, index, mask)) => {
            let zero = f.const_u32(0);
            let v = f.load_masked(ptr, index, mask, zero, ScalarDType::U32);
            Ok(Some(v))
        },
        Err(e) => Err(e),
    }
}

/// It comes out with a value, if its operands have values.
proof fn lemma_word_load(f: FuncState, vals: Seq<Option<Value>>, ptr: BVal, index: BVal, mask: BVal)
    ensures
        word_load_step(f, vals, ptr, index, mask) matches Ok((g, v)) ==> v is Some,
        need1(vals, ptr) is Ok && need1(vals, index) is Ok && need1(vals, mask) is Ok
            ==> word_load_step(f, vals, ptr, index, mask) is Ok,
{
    reveal(word_load_step);
}

/// Translates a load of bf16 values: their bits move to the upper half of a float.
#[verifier::opaque]
pub open spec fn bf16_load_step(
    f: FuncState,
    vals: Seq<Option<Value>>,
    ptr: BVal,
    index: BVal,
    mask: BVal,
) -> Step {
    match need3(vals, ptr, index, mask) {
        Ok((ptr, index, mask)) => {
            let zero = f.next();
            let f = f.const_u32(0);
            let raw = f.next();
            let f = f.load_masked(ptr, index, mask, zero, ScalarDType::BF16);
            let sixteen = f.next();
            let f = f.const_u32(16);
            let v = f.next();
            let f = f.widen(raw, sixteen);
            Ok((f, Some(v)))
        },
        Err(e) => Err(e),
    }
}

/// Translates a load of bf16 values: their bits move to the upper half of a float.
fn bf16_load(
    f: &mut TileFunc,
    vals: &Vec<Option<Value>>,
    ptr: BVal,
    index: BVal,
    mask: BVal,
) -> (r: Result<Option<Value>, String>)
    requires
        old(f)@.wf(),
        vals_ok(old(f)@, vals@),
    ensures
        step_agrees(final(f)@, r, bf16_load_step(old(f)@, vals@, ptr, index, mask)),
        moved_on(old(f)@, final(f)@, r),
{
    proof {
        reveal(bf16_load_step);
    }
    match find3(vals, ptr, index, mask) {
        Ok((ptr, index, mask)) => {
            let zero = f.const_u32(0);
            let raw = f.load_masked(ptr, index, mask, zero, ScalarDType::BF16);
            let sixteen = f.const_u32(16);
            let v = f.widen(raw, sixteen);
            Ok(Some(v))
        },
        Err(e) => Err(e),
    }
}

/// It comes out with a value, if its operands have values.
proof fn lemma_bf16_load(f: FuncState, vals: Seq<Option<Value>>, ptr: BVal, index: BVal, mask: BVal)
    ensures
        bf16_load_step(f, vals, ptr, index, mask) matches Ok((g, v)) ==> v is Some,
        need1(vals, ptr) is Ok && need1(vals, index) is Ok && need1(vals, mask) is Ok
            ==> bf16_load_step(f, vals, ptr, index, mask) is Ok,
{
    reveal(bf16_load_step);
}

/// Translates a store.
#[verifier::opaque]
pub open spec fn store_step(
    f: FuncState,
    vals: Seq<Option<Value>>,
    ptr: BVal,
    index: BVal,
    value: BVal,
    mask: BVal,
) -> Step {
    match need4(vals, ptr, index, value, mask) {
        Ok((ptr, index, value, mask)) => {
            let f = f.with_op(TileOp::Store { ptr, index, value, mask });
            Ok((f, None))
        },
        Err(e) => Err(e),
    }
}

/// Translates a store.
fn store(
    f: &mut TileFunc,
    vals: &Vec<Option<Value>>,
    ptr: BVal,
    index: BVal,
    value: BVal,
    mask: BVal,
) -> (r: Result<Option<Value>, String>)
    requires
        old(f)@.wf(),
        vals_ok(old(f)@, vals@),
    ensures
        step_agrees(final(f)@, r, store_step(old(f)@, vals@, ptr, index, value, mask)),
        moved_on(old(f)@, final(f)@, r),
{
    proof {
        reveal(store_step);
    }
    match find4(vals, ptr, index, value, mask) {
        Ok((ptr, index, value, mask)) => {
            f.push_op(TileOp::Store { ptr, index, value, mask });
            Ok(None)
        },
        Err(e) => Err(e),
    }
}

/// It comes out without a value, if its operands have values.
proof fn lemma_store(
    f: FuncState,
    vals: Seq<Option<Value>>,
    ptr: BVal,
    index: BVal,
    value: BVal,
    mask: BVal,
)
    ensures
        store_step(f, vals, ptr, index, value, mask) matches Ok((g, v)) ==> v is None,
        need1(vals, ptr) is Ok
            && need1(vals, index) is Ok
            && need1(vals, value) is Ok
            && need1(vals, mask) is Ok
            ==> store_step(f, vals, ptr, index, value, mask) is Ok,
{
    reveal(store_step);
}

/// Translates a store of bf16 values.
#[verifier::opaque]
pub open spec fn bf16_store_step(
    f: FuncState,
    vals: Seq<Option<Value>>,
    ptr: BVal,
    index: BVal,
    value: BVal,
    mask: BVal,
) -> Step {
    match need4(vals, ptr, index, value, mask) {
        Ok((ptr, index, value, mask)) => {
            let half = f.next();
            let f = f.cast(value, ScalarDType::BF16);
            let f = f.with_op(TileOp::Store { ptr, index, value: half, mask });
            Ok((f, None))
        },
        Err(e) => Err(e),
    }
}

/// Translates a store of bf16 values.
fn bf16_store(
    f: &mut TileFunc,
    vals: &Vec<Option<Value>>,
    ptr: BVal,
    index: BVal,
    value: BVal,
    mask: BVal,
) -> (r: Result<Option<Value>, String>)
    requires
        old(f)@.wf(),
        vals_ok(old(f)@, vals@),
    ensures
        step_agrees(final(f)@, r, bf16_store_step(old(f)@, vals@, ptr, index, value, mask)),
        moved_on(old(f)@, final(f)@, r),
{
    proof {
        reveal(bf16_store_step);
    }
    match find4(vals, ptr, index, value, mask) {
        Ok((ptr, index, value, mask)) => {
            let half = f.cast(value, ScalarDType::BF16);
            f.push_op(TileOp::Store { ptr, index, value: half, mask });
            Ok(None)
        },
        Err(e) => Err(e),
    }
}

/// It comes out without a value, if its operands have values.
proof fn lemma_bf16_store(
    f: FuncState,
    vals: Seq<Option<Value>>,
    ptr: BVal,
    index: BVal,
    value: BVal,
    mask: BVal,
)
    ensures
        bf16_store_step(f, vals, ptr, index, value, mask) matches Ok((g, v)) ==> v is None,
        need1(vals, ptr) is Ok
            && need1(vals, index) is Ok
            && need1(vals, value) is Ok
            && need1(vals, mask) is Ok
            ==> bf16_store_step(f, vals, ptr, index, value, mask) is Ok,
{
    reveal(bf16_store_step);
}

/// Translates an atomic addition.
#[verifier::opaque]
pub open spec fn atomic_add_step(
    f: FuncState,
    vals: Seq<Option<Value>>,
    ptr: BVal,
    index: BVal,
    value: BVal,
    mask: BVal,
) -> Step {
    match need4(vals, ptr, index, value, mask) {
        Ok((ptr, index, value, mask)) => {
            let f = f.with_op(TileOp::AtomicAddF32 { ptr, index, value, mask });
            Ok((f, None))
        },
        Err(e) => Err(e),
    }
}

/// Translates an atomic addition.
fn atomic_add(
    f: &mut TileFunc,
    vals: &Vec<Option<Value>>,
    ptr: BVal,
    index: BVal,
    value: BVal,
    mask: BVal,
) -> (r: Result<Option<Value>, String>)
    requires
        old(f)@.wf(),
        vals_ok(old(f)@, vals@),
    ensures
        step_agrees(final(f)@, r, atomic_add_step(old(f)@, vals@, ptr, index, value, mask)),
        moved_on(old(f)@, final(f)@, r),
{
    proof {
        reveal(atomic_add_step);
    }
    match find4(vals, ptr, index, value, mask) {
        Ok((ptr, index, value, mask)) => {
            f.push_op(TileOp::AtomicAddF32 { ptr, index, value, mask });
            Ok(None)
        },
        Err(e) => Err(e),
    }
}

/// It comes out without a value, if its operands have values.
proof fn lemma_atomic_add(
    f: FuncState,
    vals: Seq<Option<Value>>,
    ptr: BVal,
    index: BVal,
    value: BVal,
    mask: BVal,
)
    ensures
        atomic_add_step(f, vals, ptr, index, value, mask) matches Ok((g, v)) ==> v is None,
        need1(vals, ptr) is Ok
            && need1(vals, index) is Ok
            && need1(vals, value) is Ok
            && need1(vals, mask) is Ok
            ==> atomic_add_step(f, vals, ptr, index, value, mask) is Ok,
{
    reveal(atomic_add_step);
}

/// Translates a conversion.
#[verifier::opaque]
pub open spec fn conversion_step(
    f: FuncState,
    vals: Seq<Option<Value>>,
    dtype: ScalarDType,
    a: BVal,
) -> Step {
    match need1(vals, a) {
        Ok(a) => {
            let v = f.next();
            let f = f.cast(a, dtype);
            Ok((f, Some(v)))
        },
        Err(e) => Err(e),
    }
}

/// Translates a conversion.
fn conversion(
    f: &mut TileFunc,
    vals: &Vec<Option<Value>>,
    dtype: ScalarDType,
    a: BVal,
) -> (r: Result<Option<Value>, String>)
    requires
        old(f)@.wf(),
        vals_ok(old(f)@, vals@),
    ensures
        step_agrees(final(f)@, r, conversion_step(old(f)@, vals@, dtype, a)),
        moved_on(old(f)@, final(f)@, r),
{
    proof {
        reveal(conversion_step);
    }
    match find1(vals, a) {
        Ok(a) => {
            let v = f.cast(a, dtype);
            Ok(Some(v))
        },
        Err(e) => Err(e),
    }
}

/// It comes out with a value, if its operands have values.
proof fn lemma_conversion(f: FuncState, vals: Seq<Option<Value>>, dtype: ScalarDType, a: BVal)
    ensures
        conversion_step(f, vals, dtype, a) matches Ok((g, v)) ==> v is Some,
        need1(vals, a) is Ok ==> conversion_step(f, vals, dtype, a) is Ok,
{
    reveal(conversion_step);
}

/// Translates a reduction over a wave.
#[verifier::opaque]
pub open spec fn wave_reduce_step(
    f: FuncState,
    vals: Seq<Option<Value>>,
    kind: ReduceKind,
    src: BVal,
) -> Step {
    match need1(vals, src) {
        Ok(src) => {
            let v = f.next();
            let f = f.define(f.ty(src), TileOp::Reduce { result: v, kind, src });
            Ok((f, Some(v)))
        },
        Err(e) => Err(e),
    }
}

/// Translates a reduction over a wave.
fn wave_reduce(
    f: &mut TileFunc,
    vals: &Vec<Option<Value>>,
    kind: ReduceKind,
    src: BVal,
) -> (r: Result<Option<Value>, String>)
    requires
        old(f)@.wf(),
        vals_ok(old(f)@, vals@),
    ensures
        step_agrees(final(f)@, r, wave_reduce_step(old(f)@, vals@, kind, src)),
        moved_on(old(f)@, final(f)@, r),
{
    proof {
        reveal(wave_reduce_step);
    }
    match find1(vals, src) {
        Ok(src) => {
            let ty = *f.value_type(src);
            let v = f.next_value();
            let _ = f.define(ty, TileOp::Reduce { result: v, kind, src });
            Ok(Some(v))
        },
        Err(e) => Err(e),
    }
}

/// It comes out with a value, if its operands have values.
proof fn lemma_wave_reduce(f: FuncState, vals: Seq<Option<Value>>, kind: ReduceKind, src: BVal)
    ensures
        wave_reduce_step(f, vals, kind, src) matches Ok((g, v)) ==> v is Some,
        need1(vals, src) is Ok ==> wave_reduce_step(f, vals, kind, src) is Ok,
{
    reveal(wave_reduce_step);
}

/// Translates a reduction over a workgroup.
#[verifier::opaque]
pub open spec fn wg_reduce_step(
    f: FuncState,
    vals: Seq<Option<Value>>,
    kind: ReduceKind,
    block_size: u32,
    src: BVal,
) -> Step {
    match need1(vals, src) {
        Ok(src) => {
            let v = f.next();
            let f = f.define(f.ty(src), TileOp::WgReduce { result: v, kind, src, block_size });
            Ok((f, Some(v)))
        },
        Err(e) => Err(e),
    }
}

/// Translates a reduction over a workgroup.
fn wg_reduce(
    f: &mut TileFunc,
    vals: &Vec<Option<Value>>,
    kind: ReduceKind,
    block_size: u32,
    src: BVal,
) -> (r: Result<Option<Value>, String>)
    requires
        old(f)@.wf(),
        vals_ok(old(f)@, vals@),
    ensures
        step_agrees(final(f)@, r, wg_reduce_step(old(f)@, vals@, kind, block_size, src)),
        moved_on(old(f)@, final(f)@, r),
{
    proof {
        reveal(wg_reduce_step);
    }
    match find1(vals, src) {
        Ok(src) => {
            let ty = *f.value_type(src);
            let v = f.next_value();
            let _ = f.define(ty, TileOp::WgReduce { result: v, kind, src, block_size });
            Ok(Some(v))
        },
        Err(e) => Err(e),
    }
}

/// It comes out with a value, if its operands have values.
proof fn lemma_wg_reduce(
    f: FuncState,
    vals: Seq<Option<Value>>,
    kind: ReduceKind,
    block_size: u32,
    src: BVal,
)
    ensures
        wg_reduce_step(f, vals, kind, block_size, src) matches Ok((g, v)) ==> v is Some,
        need1(vals, src) is Ok ==> wg_reduce_step(f, vals, kind, block_size, src) is Ok,
{
    reveal(wg_reduce_step);
}

/// Translates a load from the local data share.
#[verifier::opaque]
pub open spec fn lds_load_step(
    f: FuncState,
    vals: Seq<Option<Value>>,
    base: BVal,
    offset: BVal,
) -> Step {
    match need2(vals, base, offset) {
        Ok((base, offset)) => {
            let v = f.next();
            let f = f.define(
                TileType { dtype: ScalarDType::F32, ..f.ty(offset) },
                TileOp::LdsLoad { result: v, base, offset },
            );
            Ok((f, Some(v)))
        },
        Err(e) => Err(e),
    }
}

/// Translates a load from the local data share.
fn lds_load(
    f: &mut TileFunc,
    vals: &Vec<Option<Value>>,
    base: BVal,
    offset: BVal,
) -> (r: Result<Option<Value>, String>)
    requires
        old(f)@.wf(),
        vals_ok(old(f)@, vals@),
    ensures
        step_agrees(final(f)@, r, lds_load_step(old(f)@, vals@, base, offset)),
        moved_on(old(f)@, final(f)@, r),
{
    proof {
        reveal(lds_load_step);
    }
    match find2(vals, base, offset) {
        Ok((base, offset)) => {
            let ty = f.value_type(offset).with_dtype(ScalarDType::F32);
            let v = f.next_value();
            let _ = f.define(ty, TileOp::LdsLoad { result: v, base, offset });
            Ok(Some(v))
        },
        Err(e) => Err(e),
    }
}

/// It comes out with a value, if its operands have values.
proof fn lemma_lds_load(f: FuncState, vals: Seq<Option<Value>>, base: BVal, offset: BVal)
    ensures
        lds_load_step(f, vals, base, offset) matches Ok((g, v)) ==> v is Some,
        need1(vals, base) is Ok && need1(vals, offset) is Ok
            ==> lds_load_step(f, vals, base, offset) is Ok,
{
    reveal(lds_load_step);
}

/// Translates a store to the local data share.
#[verifier::opaque]
pub open spec fn lds_store_step(
    f: FuncState,
    vals: Seq<Option<Value>>,
    base: BVal,
    offset: BVal,
    value: BVal,
) -> Step {
    match need3(vals, base, offset, value) {
        Ok((base, offset, value)) => {
            let f = f.with_op(TileOp::LdsStore { base, offset, value });
            Ok((f, None))
        },
        Err(e) => Err(e),
    }
}

/// Translates a store to the local data share.
fn lds_store(
    f: &mut TileFunc,
    vals: &Vec<Option<Value>>,
    base: BVal,
    offset: BVal,
    value: BVal,
) -> (r: Result<Option<Value>, String>)
    requires
        old(f)@.wf(),
        vals_ok(old(f)@, vals@),
    ensures
        step_agrees(final(f)@, r, lds_store_step(old(f)@, vals@, base, offset, value)),
        moved_on(old(f)@, final(f)@, r),
{
    proof {
        reveal(lds_store_step);
    }
    match find3(vals, base, offset, value) {
        Ok((base, offset, value)) => {
            f.push_op(TileOp::LdsStore { base, offset, value });
            Ok(None)
        },
        Err(e) => Err(e),
    }
}

/// It comes out without a value, if its operands have values.
proof fn lemma_lds_store(
    f: FuncState,
    vals: Seq<Option<Value>>,
    base: BVal,
    offset: BVal,
    value: BVal,
)
    ensures
        lds_store_step(f, vals, base, offset, value) matches Ok((g, v)) ==> v is None,
        need1(vals, base) is Ok && need1(vals, offset) is Ok && need1(vals, value) is Ok
            ==> lds_store_step(f, vals, base, offset, value) is Ok,
{
    reveal(lds_store_step);
}

/// Translates the packing of two floats.
#[verifier::opaque]
pub open spec fn packing_step(f: FuncState, vals: Seq<Option<Value>>, lo: BVal, hi: BVal) -> Step {
    match need2(vals, lo, hi) {
        Ok((lo, hi)) => {
            let v = f.next();
            let f = f.define(
                TileType { dtype: ScalarDType::U32, ..f.ty(lo) },
                TileOp::CvtPkBf16F32 { result: v, lo, hi },
            );
            Ok((f, Some(v)))
        },
        Err(e) => Err(e),
    }
}

/// Translates the packing of two floats.
fn packing(
    f: &mut TileFunc,
    vals: &Vec<Option<Value>>,
    lo: BVal,
    hi: BVal,
) -> (r: Result<Option<Value>, String>)
    requires
        old(f)@.wf(),
        vals_ok(old(f)@, vals@),
    ensures
        step_agrees(final(f)@, r, packing_step(old(f)@, vals@, lo, hi)),
        moved_on(old(f)@, final(f)@, r),
{
    proof {
        reveal(packing_step);
    }
    match find2(vals, lo, hi) {
        Ok((lo, hi)) => {
            let ty = f.value_type(lo).with_dtype(ScalarDType::U32);
            let v = f.next_value();
            let _ = f.define(ty, TileOp::CvtPkBf16F32 { result: v, lo, hi });
            Ok(Some(v))
        },
        Err(e) => Err(e),
    }
}

/// It comes out with a value, if its operands have values.
proof fn lemma_packing(f: FuncState, vals: Seq<Option<Value>>, lo: BVal, hi: BVal)
    ensures
        packing_step(f, vals, lo, hi) matches Ok((g, v)) ==> v is Some,
        need1(vals, lo) is Ok && need1(vals, hi) is Ok ==> packing_step(f, vals, lo, hi) is Ok,
{
    reveal(packing_step);
}

/// Translates a matrix instruction.
#[verifier::opaque]
pub open spec fn matrix_product_step(
    f: FuncState,
    vals: Seq<Option<Value>>,
    a: BVal,
    b: BVal,
    c: BVal,
) -> Step {
    match need3(vals, a, b, c) {
        Ok((a, b, c)) => {
            let v = f.next();
            let f = f.define(f.ty(c), TileOp::Wmma { result: v, a, b, c });
            Ok((f, Some(v)))
        },
        Err(e) => Err(e),
    }
}

/// Translates a matrix instruction.
fn matrix_product(
    f: &mut TileFunc,
    vals: &Vec<Option<Value>>,
    a: BVal,
    b: BVal,
    c: BVal,
) -> (r: Result<Option<Value>, String>)
    requires
        old(f)@.wf(),
        vals_ok(old(f)@, vals@),
    ensures
        step_agrees(final(f)@, r, matrix_product_step(old(f)@, vals@, a, b, c)),
        moved_on(old(f)@, final(f)@, r),
{
    proof {
        reveal(matrix_product_step);
    }
    match find3(vals, a, b, c) {
        Ok((a, b, c)) => {
            let ty = *f.value_type(c);
            let v = f.next_value();
            let _ = f.define(ty, TileOp::Wmma { result: v, a, b, c });
            Ok(Some(v))
        },
        Err(e) => Err(e),
    }
}

/// It comes out with a value, if its operands have values.
proof fn lemma_matrix_product(f: FuncState, vals: Seq<Option<Value>>, a: BVal, b: BVal, c: BVal)
    ensures
        matrix_product_step(f, vals, a, b, c) matches Ok((g, v)) ==> v is Some,
        need1(vals, a) is Ok && need1(vals, b) is Ok && need1(vals, c) is Ok
            ==> matrix_product_step(f, vals, a, b, c) is Ok,
{
    reveal(matrix_product_step);
}

/// Translates the extraction of one float.
#[verifier::opaque]
pub open spec fn extraction_step(
    f: FuncState,
    vals: Seq<Option<Value>>,
    idx: u32,
    src: BVal,
) -> Step {
    match need1(vals, src) {
        Ok(src) => {
            let v = f.next();
            let f = f.define(
                scalar_type(ScalarDType::F32),
                TileOp::ExtractF32 { result: v, src, idx },
            );
            Ok((f, Some(v)))
        },
        Err(e) => Err(e),
    }
}

/// Translates the extraction of one float.
fn extraction(
    f: &mut TileFunc,
    vals: &Vec<Option<Value>>,
    idx: u32,
    src: BVal,
) -> (r: Result<Option<Value>, String>)
    requires
        old(f)@.wf(),
        vals_ok(old(f)@, vals@),
    ensures
        step_agrees(final(f)@, r, extraction_step(old(f)@, vals@, idx, src)),
        moved_on(old(f)@, final(f)@, r),
{
    proof {
        reveal(extraction_step);
    }
    match find1(vals, src) {
        Ok(src) => {
            let ty = TileType::scalar(ScalarDType::F32);
            let v = f.next_value();
            let _ = f.define(ty, TileOp::ExtractF32 { result: v, src, idx });
            Ok(Some(v))
        },
        Err(e) => Err(e),
    }
}

/// It comes out with a value, if its operands have values.
proof fn lemma_extraction(f: FuncState, vals: Seq<Option<Value>>, idx: u32, src: BVal)
    ensures
        extraction_step(f, vals, idx, src) matches Ok((g, v)) ==> v is Some,
        need1(vals, src) is Ok ==> extraction_step(f, vals, idx, src) is Ok,
{
    reveal(extraction_step);
}

/// Translates the repetition of a word.
#[verifier::opaque]
pub open spec fn fragment_step(f: FuncState, vals: Seq<Option<Value>>, src: BVal) -> Step {
    match need1(vals, src) {
        Ok(src) => {
            let v = f.next();
            let f = f.define(
                vector_type(8, ScalarDType::U32),
                TileOp::SplatFragment { result: v, src },
            );
            Ok((f, Some(v)))
        },
        Err(e) => Err(e),
    }
}

/// Translates the repetition of a word.
fn fragment(
    f: &mut TileFunc,
    vals: &Vec<Option<Value>>,
    src: BVal,
) -> (r: Result<Option<Value>, String>)
    requires
        old(f)@.wf(),
        vals_ok(old(f)@, vals@),
    ensures
        step_agrees(final(f)@, r, fragment_step(old(f)@, vals@, src)),
        moved_on(old(f)@, final(f)@, r),
{
    proof {
        reveal(fragment_step);
    }
    match find1(vals, src) {
        Ok(src) => {
            let ty = TileType::vector(8, ScalarDType::U32);
            let v = f.next_value();
            let _ = f.define(ty, TileOp::SplatFragment { result: v, src });
            Ok(Some(v))
        },
        Err(e) => Err(e),
    }
}

/// It comes out with a value, if its operands have values.
proof fn lemma_fragment(f: FuncState, vals: Seq<Option<Value>>, src: BVal)
    ensures
        fragment_step(f, vals, src) matches Ok((g, v)) ==> v is Some,
        need1(vals, src) is Ok ==> fragment_step(f, vals, src) is Ok,
{
    reveal(fragment_step);
}

/// Translates a whole matrix multiplication: two tiles are loaded, multiplied and stored.
#[verifier::opaque]
pub open spec fn gemm_step(
    f: FuncState,
    vals: Seq<Option<Value>>,
    config: TileGemmConfig,
    a: BVal,
    b: BVal,
    y: BVal,
    k: BVal,
    n: BVal,
) -> Step {
    match need5(vals, a, b, y, k, n) {
        Ok((a, b, y, k, n)) => {
            let pid_m = f.next();
            let f = f.program_id(0);
            let pid_n = f.next();
            let f = f.program_id(1);
            let cm = f.next();
            let f = f.const_u32(config.tile_m);
            let cn = f.next();
            let f = f.const_u32(config.tile_n);
            let row_off = f.next();
            let f = f.binary(BinOpKind::Mul, pid_m, cm);
            let col_off = f.next();
            let f = f.binary(BinOpKind::Mul, pid_n, cn);
            let acc = f.next();
            let f = f.define(
                tile_type(
                    config.tile_m,
                    config.tile_n,
                    ScalarDType::F32,
                    TensorLayout::MmaAccumulator,
                ),
                TileOp::Splat { result: acc, bits: 0 },
            );
            let k0 = f.next();
            let f = f.const_u32(0);
            let tile_a = f.next();
            let f = f.define(
                tile_type(config.tile_m, config.tile_k, ScalarDType::BF16, TensorLayout::Shared),
                TileOp::TileLoad2D { result: tile_a, ptr: a, row: row_off, col: k0, stride: k },
            );
            let tile_b = f.next();
            let f = f.define(
                tile_type(config.tile_k, config.tile_n, ScalarDType::BF16, TensorLayout::Shared),
                TileOp::TileLoad2D { result: tile_b, ptr: b, row: col_off, col: k0, stride: k },
            );
            let acc2 = f.next();
            let f = f.define(
                f.ty(acc),
                TileOp::TileDot { result: acc2, a: tile_a, b: tile_b, acc },
            );
            let f = f.with_op(
                TileOp::TileStore2D { ptr: y, row: row_off, col: col_off, stride: n, value: acc2 },
            );
            Ok((f, None))
        },
        Err(e) => Err(e),
    }
}

/// Translates a whole matrix multiplication: two tiles are loaded, multiplied and stored.
fn gemm(
    f: &mut TileFunc,
    vals: &Vec<Option<Value>>,
    config: TileGemmConfig,
    a: BVal,
    b: BVal,
    y: BVal,
    k: BVal,
    n: BVal,
) -> (r: Result<Option<Value>, String>)
    requires
        old(f)@.wf(),
        vals_ok(old(f)@, vals@),
    ensures
        step_agrees(final(f)@, r, gemm_step(old(f)@, vals@, config, a, b, y, k, n)),
        moved_on(old(f)@, final(f)@, r),
{
    proof {
        reveal(gemm_step);
    }
    match find5(vals, a, b, y, k, n) {
        Ok((a, b, y, k, n)) => {
            let pid_m = f.program_id(0);
            let pid_n = f.program_id(1);
            let cm = f.const_u32(config.tile_m);
            let cn = f.const_u32(config.tile_n);
            let row_off = f.binop_raw(BinOpKind::Mul, pid_m, cm);
            let col_off = f.binop_raw(BinOpKind::Mul, pid_n, cn);
            let ty = TileType::tile(
                config.tile_m,
                config.tile_n,
                ScalarDType::F32,
                TensorLayout::MmaAccumulator,
            );
            let acc = f.next_value();
            let _ = f.define(ty, TileOp::Splat { result: acc, bits: 0 });
            let k0 = f.const_u32(0);
            let ty = TileType::tile(
                config.tile_m,
                config.tile_k,
                ScalarDType::BF16,
                TensorLayout::Shared,
            );
            let tile_a = f.next_value();
            let _ = f.define(
                ty,
                TileOp::TileLoad2D { result: tile_a, ptr: a, row: row_off, col: k0, stride: k },
            );
            let ty = TileType::tile(
                config.tile_k,
                config.tile_n,
                ScalarDType::BF16,
                TensorLayout::Shared,
            );
            let tile_b = f.next_value();
            let _ = f.define(
                ty,
                TileOp::TileLoad2D { result: tile_b, ptr: b, row: col_off, col: k0, stride: k },
            );
            let ty = *f.value_type(acc);
            let acc2 = f.next_value();
            let _ = f.define(ty, TileOp::TileDot { result: acc2, a: tile_a, b: tile_b, acc });
            f.push_op(
                TileOp::TileStore2D { ptr: y, row: row_off, col: col_off, stride: n, value: acc2 },
            );
            Ok(None)
        },
        Err(e) => Err(e),
    }
}

/// It comes out without a value, if its operands have values.
proof fn lemma_gemm(
    f: FuncState,
    vals: Seq<Option<Value>>,
    config: TileGemmConfig,
    a: BVal,
    b: BVal,
    y: BVal,
    k: BVal,
    n: BVal,
)
    ensures
        gemm_step(f, vals, config, a, b, y, k, n) matches Ok((g, v)) ==> v is None,
        need1(vals, a) is Ok
            && need1(vals, b) is Ok
            && need1(vals, y) is Ok
            && need1(vals, k) is Ok
            && need1(vals, n) is Ok
            ==> gemm_step(f, vals, config, a, b, y, k, n) is Ok,
{
    reveal(gemm_step);
}

/// Translates an argument.
#[verifier::opaque]
pub open spec fn argument_step(
    f: FuncState,
    vals: Seq<Option<Value>>,
    name: Seq<char>,
    kind: ScalarDType,
) -> Step {
    let v = f.next();
    let f = f.arg(name, kind);
    Ok((f, Some(v)))
}

/// Translates an argument.
fn argument(
    f: &mut TileFunc,
    vals: &Vec<Option<Value>>,
    name: &str,
    kind: ScalarDType,
) -> (r: Result<Option<Value>, String>)
    requires
        old(f)@.wf(),
        vals_ok(old(f)@, vals@),
    ensures
        step_agrees(final(f)@, r, argument_step(old(f)@, vals@, name@, kind)),
        moved_on(old(f)@, final(f)@, r),
{
    proof {
        reveal(argument_step);
    }
    let v = f.arg(name, kind);
    Ok(Some(v))
}

/// It comes out with a value.
proof fn lemma_argument(f: FuncState, vals: Seq<Option<Value>>, name: Seq<char>, kind: ScalarDType)
    ensures
        argument_step(f, vals, name, kind) matches Ok((g, v)) ==> v is Some,
        argument_step(f, vals, name, kind) is Ok,
{
    reveal(argument_step);
}

/// Translates the number of a workgroup.
#[verifier::opaque]
pub open spec fn workgroup_step(f: FuncState, vals: Seq<Option<Value>>, axis: u8) -> Step {
    let v = f.next();
    let f = f.program_id(axis);
    Ok((f, Some(v)))
}

/// Translates the number of a workgroup.
fn workgroup(
    f: &mut TileFunc,
    vals: &Vec<Option<Value>>,
    axis: u8,
) -> (r: Result<Option<Value>, String>)
    requires
        old(f)@.wf(),
        vals_ok(old(f)@, vals@),
    ensures
        step_agrees(final(f)@, r, workgroup_step(old(f)@, vals@, axis)),
        moved_on(old(f)@, final(f)@, r),
{
    proof {
        reveal(workgroup_step);
    }
    let v = f.program_id(axis);
    Ok(Some(v))
}

/// It comes out with a value.
proof fn lemma_workgroup(f: FuncState, vals: Seq<Option<Value>>, axis: u8)
    ensures
        workgroup_step(f, vals, axis) matches Ok((g, v)) ==> v is Some,
        workgroup_step(f, vals, axis) is Ok,
{
    reveal(workgroup_step);
}

/// Translates the number of a thread along x.
#[verifier::opaque]
pub open spec fn thread_x_step(
    f: FuncState,
    vals: Seq<Option<Value>>,
    total: u32,
    block_x: u32,
) -> Step {
    let v = f.next();
    let f = f.define(
        vector_type(total, ScalarDType::U32),
        TileOp::ThreadIdX2D { result: v, block_x },
    );
    Ok((f, Some(v)))
}

/// Translates the number of a thread along x.
fn thread_x(
    f: &mut TileFunc,
    vals: &Vec<Option<Value>>,
    total: u32,
    block_x: u32,
) -> (r: Result<Option<Value>, String>)
    requires
        old(f)@.wf(),
        vals_ok(old(f)@, vals@),
    ensures
        step_agrees(final(f)@, r, thread_x_step(old(f)@, vals@, total, block_x)),
        moved_on(old(f)@, final(f)@, r),
{
    proof {
        reveal(thread_x_step);
    }
    let ty = TileType::vector(total, ScalarDType::U32);
    let v = f.next_value();
    let _ = f.define(ty, TileOp::ThreadIdX2D { result: v, block_x });
    Ok(Some(v))
}

/// It comes out with a value.
proof fn lemma_thread_x(f: FuncState, vals: Seq<Option<Value>>, total: u32, block_x: u32)
    ensures
        thread_x_step(f, vals, total, block_x) matches Ok((g, v)) ==> v is Some,
        thread_x_step(f, vals, total, block_x) is Ok,
{
    reveal(thread_x_step);
}

/// Translates the number of a thread along y.
#[verifier::opaque]
pub open spec fn thread_y_step(
    f: FuncState,
    vals: Seq<Option<Value>>,
    total: u32,
    block_x: u32,
) -> Step {
    let v = f.next();
    let f = f.define(
        vector_type(total, ScalarDType::U32),
        TileOp::ThreadIdY2D { result: v, block_x },
    );
    Ok((f, Some(v)))
}

/// Translates the number of a thread along y.
fn thread_y(
    f: &mut TileFunc,
    vals: &Vec<Option<Value>>,
    total: u32,
    block_x: u32,
) -> (r: Result<Option<Value>, String>)
    requires
        old(f)@.wf(),
        vals_ok(old(f)@, vals@),
    ensures
        step_agrees(final(f)@, r, thread_y_step(old(f)@, vals@, total, block_x)),
        moved_on(old(f)@, final(f)@, r),
{
    proof {
        reveal(thread_y_step);
    }
    let ty = TileType::vector(total, ScalarDType::U32);
    let v = f.next_value();
    let _ = f.define(ty, TileOp::ThreadIdY2D { result: v, block_x });
    Ok(Some(v))
}

/// It comes out with a value.
proof fn lemma_thread_y(f: FuncState, vals: Seq<Option<Value>>, total: u32, block_x: u32)
    ensures
        thread_y_step(f, vals, total, block_x) matches Ok((g, v)) ==> v is Some,
        thread_y_step(f, vals, total, block_x) is Ok,
{
    reveal(thread_y_step);
}

/// Translates consecutive numbers from zero.
#[verifier::opaque]
pub open spec fn range_step(f: FuncState, vals: Seq<Option<Value>>, len: u32) -> Step {
    let v = f.next();
    let f = f.arange(0, len);
    Ok((f, Some(v)))
}

/// Translates consecutive numbers from zero.
fn range(
    f: &mut TileFunc,
    vals: &Vec<Option<Value>>,
    len: u32,
) -> (r: Result<Option<Value>, String>)
    requires
        old(f)@.wf(),
        vals_ok(old(f)@, vals@),
    ensures
        step_agrees(final(f)@, r, range_step(old(f)@, vals@, len)),
        moved_on(old(f)@, final(f)@, r),
{
    proof {
        reveal(range_step);
    }
    let v = f.arange(0, len);
    Ok(Some(v))
}

/// It comes out with a value.
proof fn lemma_range(f: FuncState, vals: Seq<Option<Value>>, len: u32)
    ensures
        range_step(f, vals, len) matches Ok((g, v)) ==> v is Some,
        range_step(f, vals, len) is Ok,
{
    reveal(range_step);
}

/// Translates consecutive numbers from some other number.
#[verifier::opaque]
pub open spec fn shifted_range_step(
    f: FuncState,
    vals: Seq<Option<Value>>,
    start: u32,
    len: u32,
) -> Step {
    let base = f.next();
    let f = f.arange(0, len);
    let offset = f.next();
    let f = f.const_u32(start);
    let v = f.next();
    let f = f.binary(BinOpKind::Add, base, offset);
    Ok((f, Some(v)))
}

/// Translates consecutive numbers from some other number.
fn shifted_range(
    f: &mut TileFunc,
    vals: &Vec<Option<Value>>,
    start: u32,
    len: u32,
) -> (r: Result<Option<Value>, String>)
    requires
        old(f)@.wf(),
        vals_ok(old(f)@, vals@),
    ensures
        step_agrees(final(f)@, r, shifted_range_step(old(f)@, vals@, start, len)),
        moved_on(old(f)@, final(f)@, r),
{
    proof {
        reveal(shifted_range_step);
    }
    let base = f.arange(0, len);
    let offset = f.const_u32(start);
    let v = f.binop_raw(BinOpKind::Add, base, offset);
    Ok(Some(v))
}

/// It comes out with a value.
proof fn lemma_shifted_range(f: FuncState, vals: Seq<Option<Value>>, start: u32, len: u32)
    ensures
        shifted_range_step(f, vals, start, len) matches Ok((g, v)) ==> v is Some,
        shifted_range_step(f, vals, start, len) is Ok,
{
    reveal(shifted_range_step);
}

/// Translates an unsigned constant.
#[verifier::opaque]
pub open spec fn word_step(f: FuncState, vals: Seq<Option<Value>>, c: u32) -> Step {
    let v = f.next();
    let f = f.const_u32(c);
    Ok((f, Some(v)))
}

/// Translates an unsigned constant.
fn word(f: &mut TileFunc, vals: &Vec<Option<Value>>, c: u32) -> (r: Result<Option<Value>, String>)
    requires
        old(f)@.wf(),
        vals_ok(old(f)@, vals@),
    ensures
        step_agrees(final(f)@, r, word_step(old(f)@, vals@, c)),
        moved_on(old(f)@, final(f)@, r),
{
    proof {
        reveal(word_step);
    }
    let v = f.const_u32(c);
    Ok(Some(v))
}

/// It comes out with a value.
proof fn lemma_word(f: FuncState, vals: Seq<Option<Value>>, c: u32)
    ensures
        word_step(f, vals, c) matches Ok((g, v)) ==> v is Some,
        word_step(f, vals, c) is Ok,
{
    reveal(word_step);
}

/// Translates a float constant.
#[verifier::opaque]
pub open spec fn float_step(f: FuncState, vals: Seq<Option<Value>>, bits: u32) -> Step {
    let v = f.next();
    let f = f.const_f32(bits);
    Ok((f, Some(v)))
}

/// Translates a float constant.
fn float(
    f: &mut TileFunc,
    vals: &Vec<Option<Value>>,
    bits: u32,
) -> (r: Result<Option<Value>, String>)
    requires
        old(f)@.wf(),
        vals_ok(old(f)@, vals@),
    ensures
        step_agrees(final(f)@, r, float_step(old(f)@, vals@, bits)),
        moved_on(old(f)@, final(f)@, r),
{
    proof {
        reveal(float_step);
    }
    let v = f.const_f32(bits);
    Ok(Some(v))
}

/// It comes out with a value.
proof fn lemma_float(f: FuncState, vals: Seq<Option<Value>>, bits: u32)
    ensures
        float_step(f, vals, bits) matches Ok((g, v)) ==> v is Some,
        float_step(f, vals, bits) is Ok,
{
    reveal(float_step);
}

/// Translates the allocation of local data share.
#[verifier::opaque]
pub open spec fn lds_space_step(f: FuncState, vals: Seq<Option<Value>>, size: u32) -> Step {
    let v = f.next();
    let f = f.define(scalar_type(ScalarDType::U32), TileOp::LdsAlloc { result: v, size });
    Ok((f, Some(v)))
}

/// Translates the allocation of local data share.
fn lds_space(
    f: &mut TileFunc,
    vals: &Vec<Option<Value>>,
    size: u32,
) -> (r: Result<Option<Value>, String>)
    requires
        old(f)@.wf(),
        vals_ok(old(f)@, vals@),
    ensures
        step_agrees(final(f)@, r, lds_space_step(old(f)@, vals@, size)),
        moved_on(old(f)@, final(f)@, r),
{
    proof {
        reveal(lds_space_step);
    }
    let ty = TileType::scalar(ScalarDType::U32);
    let v = f.next_value();
    let _ = f.define(ty, TileOp::LdsAlloc { result: v, size });
    Ok(Some(v))
}

/// It comes out with a value.
proof fn lemma_lds_space(f: FuncState, vals: Seq<Option<Value>>, size: u32)
    ensures
        lds_space_step(f, vals, size) matches Ok((g, v)) ==> v is Some,
        lds_space_step(f, vals, size) is Ok,
{
    reveal(lds_space_step);
}

/// Translates what has neither operands nor value.
#[verifier::opaque]
pub open spec fn plain_step(f: FuncState, vals: Seq<Option<Value>>, op: TileOp) -> Step {
    let f = f.with_op(op);
    Ok((f, None))
}

/// Translates what has neither operands nor value.
fn plain(
    f: &mut TileFunc,
    vals: &Vec<Option<Value>>,
    op: TileOp,
) -> (r: Result<Option<Value>, String>)
    requires
        old(f)@.wf(),
        vals_ok(old(f)@, vals@),
        op == TileOp::Barrier,
    ensures
        step_agrees(final(f)@, r, plain_step(old(f)@, vals@, op)),
        moved_on(old(f)@, final(f)@, r),
{
    proof {
        reveal(plain_step);
    }
    f.push_op(op);
    Ok(None)
}

/// It comes out without a value.
proof fn lemma_plain(f: FuncState, vals: Seq<Option<Value>>, op: TileOp)
    ensures
        plain_step(f, vals, op) matches Ok((g, v)) ==> v is None,
        plain_step(f, vals, op) is Ok,
{
    reveal(plain_step);
}

/// Translates a cleared accumulator.
#[verifier::opaque]
pub open spec fn zero_sums_step(f: FuncState, vals: Seq<Option<Value>>) -> Step {
    let v = f.next();
    let f = f.define(vector_type(8, ScalarDType::F32), TileOp::ZeroAcc { result: v });
    Ok((f, Some(v)))
}

/// Translates a cleared accumulator.
fn zero_sums(f: &mut TileFunc, vals: &Vec<Option<Value>>) -> (r: Result<Option<Value>, String>)
    requires
        old(f)@.wf(),
        vals_ok(old(f)@, vals@),
    ensures
        step_agrees(final(f)@, r, zero_sums_step(old(f)@, vals@)),
        moved_on(old(f)@, final(f)@, r),
{
    proof {
        reveal(zero_sums_step);
    }
    let ty = TileType::vector(8, ScalarDType::F32);
    let v = f.next_value();
    let _ = f.define(ty, TileOp::ZeroAcc { result: v });
    Ok(Some(v))
}

/// It comes out with a value.
proof fn lemma_zero_sums(f: FuncState, vals: Seq<Option<Value>>)
    ensures
        zero_sums_step(f, vals) matches Ok((g, v)) ==> v is Some,
        zero_sums_step(f, vals) is Ok,
{
    reveal(zero_sums_step);
}

/// Translates one node that is neither part of a loop nor of a condition.
#[verifier::opaque]
pub open spec fn node_step(
    k: BlockState,
    f: FuncState,
    vals: Seq<Option<Value>>,
    node: BNode<Seq<char>>,
) -> Step {
    match node {
        BNode::ArgPtr(name) => argument_step(f, vals, name, ScalarDType::Ptr),
        BNode::ArgU32(name) => argument_step(f, vals, name, ScalarDType::U32),
        BNode::ArgF32(name) => argument_step(f, vals, name, ScalarDType::F32),
        BNode::ProgramId(axis) => workgroup_step(f, vals, axis),
        BNode::ThreadIdY { block_x } => thread_y_step(f, vals, k.block_size, block_x),
        BNode::ConstU32(v) => word_step(f, vals, v),
        BNode::ConstF32(v) => float_step(f, vals, v),
        BNode::AddF32(a, b) | BNode::AddU32(a, b) => binary_step(f, vals, BinOpKind::Add, a, b),
        BNode::MulF32(a, b) | BNode::MulU32(a, b) => binary_step(f, vals, BinOpKind::Mul, a, b),
        BNode::SubF32(a, b) | BNode::SubU32(a, b) => binary_step(f, vals, BinOpKind::Sub, a, b),
        BNode::MaxF32(a, b) => binary_step(f, vals, BinOpKind::Max, a, b),
        BNode::MinF32(a, b) => binary_step(f, vals, BinOpKind::Min, a, b),
        BNode::DivF32(a, b) => binary_step(f, vals, BinOpKind::Div, a, b),
        BNode::AndBool(a, b) => binary_step(f, vals, BinOpKind::And, a, b),
        BNode::FmaF32(a, b, c) => fused_step(f, vals, a, b, c),
        BNode::ExpF32(a) => unary_step(f, vals, UnaryOpKind::Exp2, a),
        BNode::Log2F32(a) => unary_step(f, vals, UnaryOpKind::Log2, a),
        BNode::SqrtF32(a) => unary_step(f, vals, UnaryOpKind::Sqrt, a),
        BNode::RcpF32(a) => unary_step(f, vals, UnaryOpKind::Rcp, a),
        BNode::RsqrtF32(a) => unary_step(f, vals, UnaryOpKind::Rsqrt, a),
        BNode::AbsF32(a) => unary_step(f, vals, UnaryOpKind::Abs, a),
        BNode::NegF32(a) => unary_step(f, vals, UnaryOpKind::Neg, a),
        BNode::SinF32(a) => unary_step(f, vals, UnaryOpKind::Sin, a),
        BNode::CosF32(a) => unary_step(f, vals, UnaryOpKind::Cos, a),
        BNode::ShrConstU32(a, shift) => with_const_step(f, vals, BinOpKind::Shr, shift as u32, a),
        BNode::ShlConstU32(a, shift) => with_const_step(f, vals, BinOpKind::Shl, shift as u32, a),
        BNode::AndConstU32(a, c) => with_const_step(f, vals, BinOpKind::And, c, a),
        BNode::OrConstU32(a, c) => with_const_step(f, vals, BinOpKind::Or, c, a),
        BNode::XorConstU32(a, c) => with_const_step(f, vals, BinOpKind::Xor, c, a),
        BNode::LtU32(a, b) | BNode::CmpLtF32(a, b) => comparison_step(f, vals, CmpOpKind::Lt, a, b),
        BNode::GeU32(a, b) => comparison_step(f, vals, CmpOpKind::Ge, a, b),
        BNode::CmpGtF32(a, b) => comparison_step(f, vals, CmpOpKind::Lt, b, a),
        BNode::CmpEqF32(a, b) => comparison_step(f, vals, CmpOpKind::Eq, a, b),
        BNode::Select { mask, true_val, false_val } => selection_step(
            f,
            vals,
            mask,
            true_val,
            false_val,
        ),
        BNode::Load { ptr, offsets, mask } => float_load_step(f, vals, ptr, offsets, mask),
        BNode::LoadU32 { ptr, offsets, mask } => word_load_step(f, vals, ptr, offsets, mask),
        BNode::LoadBf16 { ptr, offsets, mask } => bf16_load_step(f, vals, ptr, offsets, mask),
        BNode::Store { ptr, offsets, val, mask } => store_step(f, vals, ptr, offsets, val, mask),
        BNode::StoreBf16 { ptr, offsets, val, mask } => bf16_store_step(
            f,
            vals,
            ptr,
            offsets,
            val,
            mask,
        ),
        BNode::AtomicAddF32 { ptr, offsets, val, mask } => atomic_add_step(
            f,
            vals,
            ptr,
            offsets,
            val,
            mask,
        ),
        BNode::CvtF32U32(a) => conversion_step(f, vals, ScalarDType::F32, a),
        BNode::CvtU32F32(a) => conversion_step(f, vals, ScalarDType::U32, a),
        BNode::CvtF32BF16(a) => widening_step(f, vals, a),
        BNode::WaveReduceAddF32(a) => wave_reduce_step(f, vals, ReduceKind::Add, a),
        BNode::WaveReduceMaxF32(a) => wave_reduce_step(f, vals, ReduceKind::Max, a),
        BNode::WgReduceAddF32(a) => wg_reduce_step(f, vals, ReduceKind::Add, k.block_size, a),
        BNode::WgReduceMaxF32(a) => wg_reduce_step(f, vals, ReduceKind::Max, k.block_size, a),
        BNode::WgReduceMinF32(a) => wg_reduce_step(f, vals, ReduceKind::Min, k.block_size, a),
        BNode::LdsAlloc { size_bytes } => lds_space_step(f, vals, size_bytes),
        BNode::LdsLoad { base, offset } => lds_load_step(f, vals, base, offset),
        BNode::LdsStore { base, offset, val } => lds_store_step(f, vals, base, offset, val),
        BNode::Barrier => plain_step(f, vals, TileOp::Barrier),
        BNode::ZeroAcc => zero_sums_step(f, vals),
        BNode::CvtPkBf16F32 { lo, hi } => packing_step(f, vals, lo, hi),
        BNode::Wmma { a, b, c } => matrix_product_step(f, vals, a, b, c),
        BNode::ExtractF32 { src, idx } => extraction_step(f, vals, idx, src),
        BNode::SplatFragment(a) => fragment_step(f, vals, a),
        BNode::TileGemm { a_ptr, b_ptr, y_ptr, k_dim, n_dim, config } => gemm_step(
            f,
            vals,
            config,
            a_ptr,
            b_ptr,
            y_ptr,
            k_dim,
            n_dim,
        ),
        BNode::ThreadId => if k.block_y > 1 {
            thread_x_step(f, vals, k.block_size, k.block_x)
        } else {
            range_step(f, vals, k.block_size)
        },
        BNode::Arange { start, end } => if start == 0 {
            range_step(f, vals, end)
        } else {
            shifted_range_step(f, vals, start, (end - start) as u32)
        },
        _ => Err(
            "AtomicAddU32Rtn not yet supported in block_dsl lowering (use T0Kernel directly)"@,
        ),
    }
}

/// Translates one node that is neither part of a loop nor of a condition.
fn translate_node(f: &mut TileFunc, kb: &BlockKernel, node: &BNode<String>, vals: &Vec<
    Option<Value>,
>) -> (r: Result<Option<Value>, String>)
    requires
        old(f)@.wf(),
        vals_ok(old(f)@, vals@),
        node@ matches BNode::Arange { start, end } ==> start <= end,
    ensures
        step_agrees(final(f)@, r, node_step(kb@, old(f)@, vals@, node@)),
        moved_on(old(f)@, final(f)@, r),
{
    proof {
        reveal(node_step);
    }
    match node {
        BNode::ArgPtr(name) => argument(f, vals, name.as_str(), ScalarDType::Ptr),
        BNode::ArgU32(name) => argument(f, vals, name.as_str(), ScalarDType::U32),
        BNode::ArgF32(name) => argument(f, vals, name.as_str(), ScalarDType::F32),
        BNode::ProgramId(axis) => workgroup(f, vals, *axis),
        BNode::ThreadIdY { block_x } => thread_y(f, vals, kb.get_block_size(), *block_x),
        BNode::ConstU32(v) => word(f, vals, *v),
        BNode::ConstF32(v) => float(f, vals, *v),
        BNode::AddF32(a, b) | BNode::AddU32(a, b) => binary(f, vals, BinOpKind::Add, *a, *b),
        BNode::MulF32(a, b) | BNode::MulU32(a, b) => binary(f, vals, BinOpKind::Mul, *a, *b),
        BNode::SubF32(a, b) | BNode::SubU32(a, b) => binary(f, vals, BinOpKind::Sub, *a, *b),
        BNode::MaxF32(a, b) => binary(f, vals, BinOpKind::Max, *a, *b),
        BNode::MinF32(a, b) => binary(f, vals, BinOpKind::Min, *a, *b),
        BNode::DivF32(a, b) => binary(f, vals, BinOpKind::Div, *a, *b),
        BNode::AndBool(a, b) => binary(f, vals, BinOpKind::And, *a, *b),
        BNode::FmaF32(a, b, c) => fused(f, vals, *a, *b, *c),
        BNode::ExpF32(a) => unary(f, vals, UnaryOpKind::Exp2, *a),
        BNode::Log2F32(a) => unary(f, vals, UnaryOpKind::Log2, *a),
        BNode::SqrtF32(a) => unary(f, vals, UnaryOpKind::Sqrt, *a),
        BNode::RcpF32(a) => unary(f, vals, UnaryOpKind::Rcp, *a),
        BNode::RsqrtF32(a) => unary(f, vals, UnaryOpKind::Rsqrt, *a),
        BNode::AbsF32(a) => unary(f, vals, UnaryOpKind::Abs, *a),
        BNode::NegF32(a) => unary(f, vals, UnaryOpKind::Neg, *a),
        BNode::SinF32(a) => unary(f, vals, UnaryOpKind::Sin, *a),
        BNode::CosF32(a) => unary(f, vals, UnaryOpKind::Cos, *a),
        BNode::ShrConstU32(a, shift) => with_const(f, vals, BinOpKind::Shr, *shift as u32, *a),
        BNode::ShlConstU32(a, shift) => with_const(f, vals, BinOpKind::Shl, *shift as u32, *a),
        BNode::AndConstU32(a, c) => with_const(f, vals, BinOpKind::And, *c, *a),
        BNode::OrConstU32(a, c) => with_const(f, vals, BinOpKind::Or, *c, *a),
        BNode::XorConstU32(a, c) => with_const(f, vals, BinOpKind::Xor, *c, *a),
        BNode::LtU32(a, b) | BNode::CmpLtF32(a, b) => comparison(f, vals, CmpOpKind::Lt, *a, *b),
        BNode::GeU32(a, b) => comparison(f, vals, CmpOpKind::Ge, *a, *b),
        BNode::CmpGtF32(a, b) => comparison(f, vals, CmpOpKind::Lt, *b, *a),
        BNode::CmpEqF32(a, b) => comparison(f, vals, CmpOpKind::Eq, *a, *b),
        BNode::Select { mask, true_val, false_val } => selection(
            f,
            vals,
            *mask,
            *true_val,
            *false_val,
        ),
        BNode::Load { ptr, offsets, mask } => float_load(f, vals, *ptr, *offsets, *mask),
        BNode::LoadU32 { ptr, offsets, mask } => word_load(f, vals, *ptr, *offsets, *mask),
        BNode::LoadBf16 { ptr, offsets, mask } => bf16_load(f, vals, *ptr, *offsets, *mask),
        BNode::Store { ptr, offsets, val, mask } => store(f, vals, *ptr, *offsets, *val, *mask),
        BNode::StoreBf16 { ptr, offsets, val, mask } => bf16_store(
            f,
            vals,
            *ptr,
            *offsets,
            *val,
            *mask,
        ),
        BNode::AtomicAddF32 { ptr, offsets, val, mask } => atomic_add(
            f,
            vals,
            *ptr,
            *offsets,
            *val,
            *mask,
        ),
        BNode::CvtF32U32(a) => conversion(f, vals, ScalarDType::F32, *a),
        BNode::CvtU32F32(a) => conversion(f, vals, ScalarDType::U32, *a),
        BNode::CvtF32BF16(a) => widening(f, vals, *a),
        BNode::WaveReduceAddF32(a) => wave_reduce(f, vals, ReduceKind::Add, *a),
        BNode::WaveReduceMaxF32(a) => wave_reduce(f, vals, ReduceKind::Max, *a),
        BNode::WgReduceAddF32(a) => wg_reduce(f, vals, ReduceKind::Add, kb.get_block_size(), *a),
        BNode::WgReduceMaxF32(a) => wg_reduce(f, vals, ReduceKind::Max, kb.get_block_size(), *a),
        BNode::WgReduceMinF32(a) => wg_reduce(f, vals, ReduceKind::Min, kb.get_block_size(), *a),
        BNode::LdsAlloc { size_bytes } => lds_space(f, vals, *size_bytes),
        BNode::LdsLoad { base, offset } => lds_load(f, vals, *base, *offset),
        BNode::LdsStore { base, offset, val } => lds_store(f, vals, *base, *offset, *val),
        BNode::Barrier => plain(f, vals, TileOp::Barrier),
        BNode::ZeroAcc => zero_sums(f, vals),
        BNode::CvtPkBf16F32 { lo, hi } => packing(f, vals, *lo, *hi),
        BNode::Wmma { a, b, c } => matrix_product(f, vals, *a, *b, *c),
        BNode::ExtractF32 { src, idx } => extraction(f, vals, *idx, *src),
        BNode::SplatFragment(a) => fragment(f, vals, *a),
        BNode::TileGemm { a_ptr, b_ptr, y_ptr, k_dim, n_dim, config } => gemm(
            f,
            vals,
            *config,
            *a_ptr,
            *b_ptr,
            *y_ptr,
            *k_dim,
            *n_dim,
        ),
        BNode::ThreadId => {
            let dims = kb.get_block_size_2d();
            if dims[1] > 1 {
                thread_x(f, vals, kb.get_block_size(), dims[0])
            } else {
                range(f, vals, kb.get_block_size())
            }
        },
        BNode::Arange { start, end } => if *start == 0 {
            range(f, vals, *end)
        } else {
            shifted_range(f, vals, *start, *end - *start)
        },
        _ => Err(
            "AtomicAddU32Rtn not yet supported in block_dsl lowering (use T0Kernel directly)".to_string(),
        ),
    }
}

// ── Loops and conditions ──
/// A translation under way: the function, what each node became, and the loops that are open.
#[verifier::ext_equal]
pub struct Progress {
    pub f: FuncState,
    pub vals: Seq<Option<Value>>,
    pub loops: Seq<Option<ForLoop>>,
    pub accs: Seq<Option<ForLoopAcc>>,
}

impl Progress {
    /// Nothing translated yet.
    pub open spec fn start(name: Seq<char>) -> Progress {
        Progress {
            f: FuncState::empty(name),
            vals: Seq::empty(),
            loops: Seq::empty(),
            accs: Seq::empty(),
        }
    }

    /// With one more node, which became a value or opened a loop.
    pub open spec fn with(
        self,
        f: FuncState,
        val: Option<Value>,
        lp: Option<ForLoop>,
        acc: Option<ForLoopAcc>,
    ) -> Progress {
        Progress {
            f,
            vals: self.vals.push(val),
            loops: self.loops.push(lp),
            accs: self.accs.push(acc),
        }
    }

    /// Whether values and loops are those of the function.
    pub open spec fn ok(self) -> bool {
        &&& self.f.wf()
        &&& vals_ok(self.f, self.vals)
        &&& self.loops.len() == self.vals.len()
        &&& self.accs.len() == self.vals.len()
        &&& forall|i: int|
            0 <= i < self.loops.len() ==> (#[trigger] self.loops[i] matches Some(lp) ==> lp.iv.0
                < self.f.types.len() && lp.exit < self.f.blocks.len())
        &&& forall|i: int|
            0 <= i < self.accs.len() ==> (#[trigger] self.accs[i] matches Some(lp) ==> lp.iv.0
                < self.f.types.len() && lp.acc.0 < self.f.types.len() && lp.result.0
                < self.f.types.len() && lp.exit < self.f.blocks.len())
    }
}

/// The message about an operand of a loop or a condition that has no value.
pub open spec fn not_mapped(who: Seq<char>, b: BVal) -> Seq<char> {
    who + " BVal "@ + dec(b.0 as nat) + " not mapped"@
}

/// The value of a node, for a loop or a condition.
pub open spec fn mapped(vals: Seq<Option<Value>>, who: Seq<char>, b: BVal) -> Result<
    Value,
    Seq<char>,
> {
    if b.0 < vals.len() {
        match vals[b.0 as int] {
            Some(v) => Ok(v),
            None => Err(not_mapped(who, b)),
        }
    } else {
        Err(not_mapped(who, b))
    }
}

/// The value of a node, for a loop or a condition.
fn map_operand(vals: &Vec<Option<Value>>, who: &str, b: BVal) -> (r: Result<Value, String>)
    ensures
        match (r, mapped(vals@, who@, b)) {
            (Ok(x), Ok(y)) => x == y,
            (Err(x), Err(y)) => x@ == y,
            _ => false,
        },
{
    if b.0 < vals.len() {
        match vals[b.0] {
            Some(v) => {
                return Ok(v);
            },
            None => {},
        }
    }
    let mut e = String::new();
    e.append(who);
    e.append(" BVal ");
    push_dec(&mut e, b.0 as u64);
    e.append(" not mapped");
    assert(e@ =~= not_mapped(who@, b));
    Err(e)
}

/// The message about the end of a loop that was not begun.
pub open spec fn unmatched(who: Seq<char>, node: usize) -> Seq<char> {
    who + dec(node as nat)
}

/// The message about the end of a loop that was not begun.
fn unmatched_message(who: &str, node: usize) -> (r: String)
    ensures
        r@ == unmatched(who@, node),
{
    let mut e = String::new();
    e.append(who);
    push_dec(&mut e, node as u64);
    assert(e@ =~= unmatched(who@, node));
    e
}

/// The open loop that a node began.
pub open spec fn open_loop(loops: Seq<Option<ForLoop>>, node: usize) -> Option<ForLoop> {
    if node < loops.len() {
        loops[node as int]
    } else {
        None
    }
}

/// The open loop that a node began, of those that carry a value.
pub open spec fn open_acc(accs: Seq<Option<ForLoopAcc>>, node: usize) -> Option<ForLoopAcc> {
    if node < accs.len() {
        accs[node as int]
    } else {
        None
    }
}

/// Begins a loop.
pub open spec fn begin_step(p: Progress, start: BVal, end: BVal, step: u32) -> Result<
    Progress,
    Seq<char>,
> {
    match mapped(p.vals, "ForBegin: start"@, start) {
        Err(e) => Err(e),
        Ok(s) => match mapped(p.vals, "ForBegin: end"@, end) {
            Err(e) => Err(e),
            Ok(t) => {
                let lp = p.f.next_loop(step);
                Ok(p.with(p.f.for_range(s, t), Some(lp.iv), Some(lp), None))
            },
        },
    }
}

/// Ends a loop.
pub open spec fn end_step(p: Progress, begin: usize) -> Result<Progress, Seq<char>> {
    match open_loop(p.loops, begin) {
        None => Err(unmatched("ForEnd: no matching ForBegin for node "@, begin)),
        Some(lp) => {
            let q = Progress { loops: p.loops.update(begin as int, None), ..p };
            Ok(q.with(p.f.end_for(lp), None, None, None))
        },
    }
}

/// Begins a loop that carries a value.
pub open spec fn begin_acc_step(
    p: Progress,
    start: BVal,
    end: BVal,
    step: u32,
    init: BVal,
) -> Result<Progress, Seq<char>> {
    match mapped(p.vals, "ForAccBegin: start"@, start) {
        Err(e) => Err(e),
        Ok(s) => match mapped(p.vals, "ForAccBegin: end"@, end) {
            Err(e) => Err(e),
            Ok(t) => match mapped(p.vals, "ForAccBegin: init_acc"@, init) {
                Err(e) => Err(e),
                Ok(i) => {
                    let lp = p.f.next_loop_acc(step);
                    Ok(p.with(p.f.for_range_acc(s, t, i), Some(lp.iv), None, Some(lp)))
                },
            },
        },
    }
}

/// The carried value inside a loop.
pub open spec fn phi_step(p: Progress, begin: usize) -> Result<Progress, Seq<char>> {
    match open_acc(p.accs, begin) {
        None => Err(unmatched("ForAccPhi: no matching ForAccBegin for node "@, begin)),
        Some(lp) => Ok(p.with(p.f, Some(lp.acc), None, None)),
    }
}

/// Ends a loop that carries a value.
pub open spec fn end_acc_step(p: Progress, begin: usize, new_acc: BVal) -> Result<
    Progress,
    Seq<char>,
> {
    match mapped(p.vals, "ForAccEnd: new_acc"@, new_acc) {
        Err(e) => Err(e),
        Ok(v) => match open_acc(p.accs, begin) {
            None => Err(unmatched("ForAccEnd: no matching ForAccBegin for node "@, begin)),
            Some(lp) => Ok(p.with(p.f.end_for_acc(lp, v), None, None, None)),
        },
    }
}

/// The carried value behind a loop.
pub open spec fn result_step(p: Progress, begin: usize) -> Result<Progress, Seq<char>> {
    match open_acc(p.accs, begin) {
        None => Err(unmatched("ForAccResult: no matching ForAccBegin for node "@, begin)),
        Some(lp) => {
            let q = Progress { accs: p.accs.update(begin as int, None), ..p };
            Ok(q.with(p.f, Some(lp.result), None, None))
        },
    }
}

/// Lets only the lanes of a mask go on.
pub open spec fn if_step(p: Progress, mask: BVal) -> Result<Progress, Seq<char>> {
    match mapped(p.vals, "IfMask: mask"@, mask) {
        Err(e) => Err(e),
        Ok(v) => Ok(p.with(p.f.with_op(TileOp::ExecMaskPush { mask: v }), None, None, None)),
    }
}

/// Translates one node.
#[verifier::opaque]
pub open spec fn progress_step(k: BlockState, p: Progress, node: BNode<Seq<char>>) -> Result<
    Progress,
    Seq<char>,
> {
    match node {
        BNode::ForBegin { start, end, step } => begin_step(p, start, end, step),
        BNode::ForEnd { begin_node } => end_step(p, begin_node),
        BNode::ForAccBegin { start, end, step, init_acc } => begin_acc_step(
            p,
            start,
            end,
            step,
            init_acc,
        ),
        BNode::ForAccPhi { begin_node } => phi_step(p, begin_node),
        BNode::ForAccEnd { begin_node, new_acc } => end_acc_step(p, begin_node, new_acc),
        BNode::ForAccResult { begin_node } => result_step(p, begin_node),
        BNode::IfMask(mask) => if_step(p, mask),
        BNode::ElseMask => Ok(p.with(p.f.with_op(TileOp::ExecMaskFlip), None, None, None)),
        BNode::EndIf => Ok(p.with(p.f.with_op(TileOp::ExecMaskPop), None, None, None)),
        _ => match node_step(k, p.f, p.vals, node) {
            Ok((f, v)) => Ok(p.with(f, v, None, None)),
            Err(e) => Err(e),
        },
    }
}

/// The translation of the first `n` nodes.
pub open spec fn translated(k: BlockState, n: nat) -> Result<Progress, Seq<char>>
    decreases n,
{
    if n == 0 {
        Ok(Progress::start(k.name))
    } else {
        match translated(k, (n - 1) as nat) {
            Ok(p) => progress_step(k, p, k.nodes[n - 1]),
            Err(e) => Err(e),
        }
    }
}

/// The function that a kernel becomes, or what is wrong with it.
pub open spec fn function_of(k: BlockState) -> Result<FuncState, Seq<char>> {
    match translated(k, k.nodes.len()) {
        Ok(p) => Ok(p.f.with_op(TileOp::Return)),
        Err(e) => Err(e),
    }
}

/// A translation under way.
struct Translator {
    f: TileFunc,
    vals: Vec<Option<Value>>,
    loops: Vec<Option<ForLoop>>,
    accs: Vec<Option<ForLoopAcc>>,
}

impl View for Translator {
    type V = Progress;

    closed spec fn view(&self) -> Progress {
        Progress { f: self.f@, vals: self.vals@, loops: self.loops@, accs: self.accs@ }
    }
}

/// Whether a step of a translation came out as it should.
pub open spec fn progress_agrees(
    p: Progress,
    r: Result<(), String>,
    step: Result<Progress, Seq<char>>,
) -> bool {
    match (r, step) {
        (Ok(_), Ok(q)) => p == q && p.ok(),
        (Err(e), Err(t)) => e@ == t,
        _ => false,
    }
}

/// A node that is no part of a loop keeps values and loops those of the function.
proof fn lemma_with_ok(
    p: Progress,
    f: FuncState,
    val: Option<Value>,
    lp: Option<ForLoop>,
    acc: Option<ForLoopAcc>,
)
    requires
        p.ok(),
        f.wf(),
        p.f.types.len() <= f.types.len(),
        p.f.blocks.len() <= f.blocks.len(),
        val matches Some(v) ==> v.0 < f.types.len(),
        lp matches Some(l) ==> l.iv.0 < f.types.len() && l.exit < f.blocks.len(),
        acc matches Some(l) ==> l.iv.0 < f.types.len() && l.acc.0 < f.types.len() && l.result.0
            < f.types.len() && l.exit < f.blocks.len(),
    ensures
        p.with(f, val, lp, acc).ok(),
{
    let q = p.with(f, val, lp, acc);
    assert forall|i: int| 0 <= i < q.vals.len() implies (#[trigger] q.vals[i] matches Some(v)
        ==> v.0 < q.f.types.len()) by {
        if i < p.vals.len() {
            assert(q.vals[i] == p.vals[i]);
        }
    }
    assert forall|i: int| 0 <= i < q.loops.len() implies (#[trigger] q.loops[i] matches Some(l)
        ==> l.iv.0 < q.f.types.len() && l.exit < q.f.blocks.len()) by {
        if i < p.loops.len() {
            assert(q.loops[i] == p.loops[i]);
        }
    }
    assert forall|i: int| 0 <= i < q.accs.len() implies (#[trigger] q.accs[i] matches Some(l)
        ==> l.iv.0 < q.f.types.len() && l.acc.0 < q.f.types.len() && l.result.0 < q.f.types.len()
        && l.exit < q.f.blocks.len()) by {
        if i < p.accs.len() {
            assert(q.accs[i] == p.accs[i]);
        }
    }
}

impl Translator {
    /// Notes what a node became.
    fn note(&mut self, val: Option<Value>, lp: Option<ForLoop>, acc: Option<ForLoopAcc>)
        ensures
            final(self)@ == old(self)@.with(old(self)@.f, val, lp, acc),
    {
        self.vals.push(val);
        self.loops.push(lp);
        self.accs.push(acc);
    }

    /// Begins a loop.
    fn begin(&mut self, start: BVal, end: BVal, step: u32) -> (r: Result<(), String>)
        requires
            old(self)@.ok(),
        ensures
            progress_agrees(final(self)@, r, begin_step(old(self)@, start, end, step)),
    {
        let s = match map_operand(&self.vals, "ForBegin: start", start) {
            Ok(v) => v,
            Err(e) => {
                return Err(e);
            },
        };
        let t = match map_operand(&self.vals, "ForBegin: end", end) {
            Ok(v) => v,
            Err(e) => {
                return Err(e);
            },
        };
        let lp = self.f.for_range_runtime(s, t, step);
        self.note(Some(lp.iv), Some(lp), None);
        proof {
            let p = old(self)@;
            lemma_with_ok(p, p.f.for_range(s, t), Some(lp.iv), Some(lp), None);
        }
        Ok(())
    }

    /// Ends a loop.
    fn end(&mut self, begin: usize) -> (r: Result<(), String>)
        requires
            old(self)@.ok(),
        ensures
            progress_agrees(final(self)@, r, end_step(old(self)@, begin)),
    {
        let lp = if begin < self.loops.len() {
            self.loops[begin]
        } else {
            None
        };
        match lp {
            None => Err(unmatched_message("ForEnd: no matching ForBegin for node ", begin)),
            Some(lp) => {
                self.loops.set(begin, None);
                self.f.end_for(&lp);
                let ghost q = Progress {
                    loops: old(self)@.loops.update(begin as int, None),
                    ..old(self)@
                };
                self.note(None, None, None);
                proof {
                    lemma_with_ok(q, q.f.end_for(lp), None, None, None);
                    assert(self@ =~= q.with(q.f.end_for(lp), None, None, None));
                }
                Ok(())
            },
        }
    }

    /// Begins a loop that carries a value.
    fn begin_acc(&mut self, start: BVal, end: BVal, step: u32, init: BVal) -> (r: Result<
        (),
        String,
    >)
        requires
            old(self)@.ok(),
        ensures
            progress_agrees(final(self)@, r, begin_acc_step(old(self)@, start, end, step, init)),
    {
        let s = match map_operand(&self.vals, "ForAccBegin: start", start) {
            Ok(v) => v,
            Err(e) => {
                return Err(e);
            },
        };
        let t = match map_operand(&self.vals, "ForAccBegin: end", end) {
            Ok(v) => v,
            Err(e) => {
                return Err(e);
            },
        };
        let i = match map_operand(&self.vals, "ForAccBegin: init_acc", init) {
            Ok(v) => v,
            Err(e) => {
                return Err(e);
            },
        };
        let lp = self.f.for_range_with_acc_runtime(s, t, step, i);
        self.note(Some(lp.iv), None, Some(lp));
        proof {
            let p = old(self)@;
            lemma_with_ok(p, p.f.for_range_acc(s, t, i), Some(lp.iv), None, Some(lp));
        }
        Ok(())
    }

    /// The carried value inside a loop.
    fn phi(&mut self, begin: usize) -> (r: Result<(), String>)
        requires
            old(self)@.ok(),
        ensures
            progress_agrees(final(self)@, r, phi_step(old(self)@, begin)),
    {
        let lp = if begin < self.accs.len() {
            self.accs[begin]
        } else {
            None
        };
        match lp {
            None => Err(unmatched_message("ForAccPhi: no matching ForAccBegin for node ", begin)),
            Some(lp) => {
                self.note(Some(lp.acc), None, None);
                proof {
                    lemma_with_ok(old(self)@, old(self)@.f, Some(lp.acc), None, None);
                }
                Ok(())
            },
        }
    }

    /// Ends a loop that carries a value.
    fn end_acc(&mut self, begin: usize, new_acc: BVal) -> (r: Result<(), String>)
        requires
            old(self)@.ok(),
        ensures
            progress_agrees(final(self)@, r, end_acc_step(old(self)@, begin, new_acc)),
    {
        let v = match map_operand(&self.vals, "ForAccEnd: new_acc", new_acc) {
            Ok(v) => v,
            Err(e) => {
                return Err(e);
            },
        };
        let lp = if begin < self.accs.len() {
            self.accs[begin]
        } else {
            None
        };
        match lp {
            None => Err(unmatched_message("ForAccEnd: no matching ForAccBegin for node ", begin)),
            Some(lp) => {
                self.f.end_for_acc(&lp, v);
                self.note(None, None, None);
                proof {
                    let p = old(self)@;
                    lemma_with_ok(p, p.f.end_for_acc(lp, v), None, None, None);
                }
                Ok(())
            },
        }
    }

    /// The carried value behind a loop.
    fn carried(&mut self, begin: usize) -> (r: Result<(), String>)
        requires
            old(self)@.ok(),
        ensures
            progress_agrees(final(self)@, r, result_step(old(self)@, begin)),
    {
        let lp = if begin < self.accs.len() {
            self.accs[begin]
        } else {
            None
        };
        match lp {
            None => Err(
                unmatched_message("ForAccResult: no matching ForAccBegin for node ", begin),
            ),
            Some(lp) => {
                self.accs.set(begin, None);
                let ghost q = Progress {
                    accs: old(self)@.accs.update(begin as int, None),
                    ..old(self)@
                };
                self.note(Some(lp.result), None, None);
                proof {
                    lemma_with_ok(q, q.f, Some(lp.result), None, None);
                    assert(self@ =~= q.with(q.f, Some(lp.result), None, None));
                }
                Ok(())
            },
        }
    }

    /// Appends an operation without a value.
    fn effect(&mut self, op: TileOp)
        requires
            old(self)@.ok(),
            old(self)@.f.knows(op),
            op.defines() is None,
        ensures
            final(self)@ == old(self)@.with(old(self)@.f.with_op(op), None, None, None),
            final(self)@.ok(),
    {
        self.f.push_op(op);
        self.note(None, None, None);
        proof {
            lemma_with_ok(old(self)@, old(self)@.f.with_op(op), None, None, None);
        }
    }

    /// Translates one node.
    fn step(&mut self, kb: &BlockKernel, node: &BNode<String>) -> (r: Result<(), String>)
        requires
            old(self)@.ok(),
            node@ matches BNode::Arange { start, end } ==> start <= end,
        ensures
            progress_agrees(final(self)@, r, progress_step(kb@, old(self)@, node@)),
    {
        proof {
            reveal(progress_step);
        }
        match node {
            BNode::ForBegin { start, end, step } => self.begin(*start, *end, *step),
            BNode::ForEnd { begin_node } => self.end(*begin_node),
            BNode::ForAccBegin { start, end, step, init_acc } => self.begin_acc(
                *start,
                *end,
                *step,
                *init_acc,
            ),
            BNode::ForAccPhi { begin_node } => self.phi(*begin_node),
            BNode::ForAccEnd { begin_node, new_acc } => self.end_acc(*begin_node, *new_acc),
            BNode::ForAccResult { begin_node } => self.carried(*begin_node),
            BNode::IfMask(mask) => match map_operand(&self.vals, "IfMask: mask", *mask) {
                Ok(v) => {
                    self.effect(TileOp::ExecMaskPush { mask: v });
                    Ok(())
                },
                Err(e) => Err(e),
            },
            BNode::ElseMask => {
                self.effect(TileOp::ExecMaskFlip);
                Ok(())
            },
            BNode::EndIf => {
                self.effect(TileOp::ExecMaskPop);
                Ok(())
            },
            _ => match translate_node(&mut self.f, kb, node, &self.vals) {
                Ok(v) => {
                    let ghost p = old(self)@;
                    let ghost f = self.f@;
                    self.note(v, None, None);
                    proof {
                        lemma_with_ok(p, f, v, None, None);
                    }
                    Ok(())
                },
                Err(e) => Err(e),
            },
        }
    }
}

/// Whether all ranges of numbers run upwards.
pub open spec fn ranges_ascend(nodes: Seq<BNode<Seq<char>>>) -> bool {
    forall|i: int|
        0 <= i < nodes.len() ==> (#[trigger] nodes[i] matches BNode::Arange { start, end } ==> start
            <= end)
}

/// Translates a kernel to a function on tiles. It fails where a node uses something that is
/// no value or comes later, where a loop ends that was not begun, and on an atomic addition
/// that gives the old value.
pub fn block_to_ssa(kb: &BlockKernel) -> (r: Result<TileFunc, String>)
    requires
        ranges_ascend(kb@.nodes),
    ensures
        match (r, function_of(kb@)) {
            (Ok(f), Ok(s)) => f@ == s && f@.wf(),
            (Err(e), Err(t)) => e@ == t,
            _ => false,
        },
{
    let mut t = Translator {
        f: TileFunc::new(kb.kernel_name()),
        vals: Vec::new(),
        loops: Vec::new(),
        accs: Vec::new(),
    };
    assert(t@ =~= Progress::start(kb@.name));
    let nodes = kb.get_nodes();
    let mut i: usize = 0;
    while i < nodes.len()
        invariant
            i <= nodes@.len(),
            node_texts(nodes@) == kb@.nodes,
            ranges_ascend(kb@.nodes),
            t@.ok(),
            translated(kb@, i as nat) == Ok::<Progress, Seq<char>>(t@),
        decreases nodes@.len() - i,
    {
        assert(kb@.nodes[i as int] == nodes@[i as int]@);
        match t.step(kb, &nodes[i]) {
            Ok(_) => {},
            Err(e) => {
                proof {
                    lemma_failure_stays(kb@, (i + 1) as nat, kb@.nodes.len());
                }
                return Err(e);
            },
        }
        i = i + 1;
    }
    let mut f = t.f;
    f.return_();
    Ok(f)
}

// ── What translates ──
/// Whether a node has a value.
pub open spec fn has_value(node: BNode<Seq<char>>) -> bool {
    match node {
        BNode::Store { .. }
        | BNode::AtomicAddF32 { .. }
        | BNode::StoreBf16 { .. }
        | BNode::LdsStore { .. }
        | BNode::Barrier
        | BNode::IfMask(_)
        | BNode::ElseMask
        | BNode::EndIf
        | BNode::ForEnd { .. }
        | BNode::ForAccEnd { .. }
        | BNode::TileGemm { .. } => false,
        _ => true,
    }
}

/// The values that a node uses.
pub open spec fn operands(node: BNode<Seq<char>>) -> Seq<BVal> {
    match node {
        BNode::AddF32(a, b) => seq![a, b],
        BNode::MulF32(a, b) => seq![a, b],
        BNode::SubF32(a, b) => seq![a, b],
        BNode::ExpF32(a) => seq![a],
        BNode::Log2F32(a) => seq![a],
        BNode::SqrtF32(a) => seq![a],
        BNode::RcpF32(a) => seq![a],
        BNode::RsqrtF32(a) => seq![a],
        BNode::AbsF32(a) => seq![a],
        BNode::NegF32(a) => seq![a],
        BNode::SinF32(a) => seq![a],
        BNode::CosF32(a) => seq![a],
        BNode::DivF32(a, b) => seq![a, b],
        BNode::MaxF32(a, b) => seq![a, b],
        BNode::MinF32(a, b) => seq![a, b],
        BNode::FmaF32(a, b, c) => seq![a, b, c],
        BNode::AddU32(a, b) => seq![a, b],
        BNode::SubU32(a, b) => seq![a, b],
        BNode::MulU32(a, b) => seq![a, b],
        BNode::ShrConstU32(a, _) => seq![a],
        BNode::ShlConstU32(a, _) => seq![a],
        BNode::AndConstU32(a, _) => seq![a],
        BNode::OrConstU32(a, _) => seq![a],
        BNode::XorConstU32(a, _) => seq![a],
        BNode::LtU32(a, b) => seq![a, b],
        BNode::GeU32(a, b) => seq![a, b],
        BNode::CmpLtF32(a, b) => seq![a, b],
        BNode::CmpGtF32(a, b) => seq![a, b],
        BNode::CmpEqF32(a, b) => seq![a, b],
        BNode::AndBool(a, b) => seq![a, b],
        BNode::Select { mask, true_val, false_val } => seq![mask, true_val, false_val],
        BNode::Load { ptr, offsets, mask } => seq![ptr, offsets, mask],
        BNode::LoadU32 { ptr, offsets, mask } => seq![ptr, offsets, mask],
        BNode::Store { ptr, offsets, val, mask } => seq![ptr, offsets, val, mask],
        BNode::AtomicAddF32 { ptr, offsets, val, mask } => seq![ptr, offsets, val, mask],
        BNode::AtomicAddU32Rtn { ptr, val } => seq![ptr, val],
        BNode::LoadBf16 { ptr, offsets, mask } => seq![ptr, offsets, mask],
        BNode::StoreBf16 { ptr, offsets, val, mask } => seq![ptr, offsets, val, mask],
        BNode::CvtF32U32(a) => seq![a],
        BNode::CvtU32F32(a) => seq![a],
        BNode::CvtF32BF16(a) => seq![a],
        BNode::WaveReduceAddF32(a) => seq![a],
        BNode::WaveReduceMaxF32(a) => seq![a],
        BNode::LdsLoad { base, offset } => seq![base, offset],
        BNode::LdsStore { base, offset, val } => seq![base, offset, val],
        BNode::IfMask(a) => seq![a],
        BNode::ForBegin { start, end, .. } => seq![start, end],
        BNode::ForAccBegin { start, end, init_acc, .. } => seq![start, end, init_acc],
        BNode::ForAccEnd { new_acc, .. } => seq![new_acc],
        BNode::WgReduceAddF32(a) => seq![a],
        BNode::WgReduceMaxF32(a) => seq![a],
        BNode::WgReduceMinF32(a) => seq![a],
        BNode::CvtPkBf16F32 { lo, hi } => seq![lo, hi],
        BNode::Wmma { a, b, c } => seq![a, b, c],
        BNode::ExtractF32 { src, .. } => seq![src],
        BNode::SplatFragment(a) => seq![a],
        BNode::TileGemm {
            a_ptr,
            b_ptr,
            y_ptr,
            k_dim,
            n_dim,
            ..
        } => seq![a_ptr, b_ptr, y_ptr, k_dim, n_dim],
        _ => Seq::empty(),
    }
}

/// Whether a loop was ended among the first `n` nodes.
pub open spec fn ended(k: BlockState, begin: int, n: int) -> bool {
    exists|j: int|
        0 <= j < n && j < k.nodes.len() && (#[trigger] k.nodes[j] matches BNode::ForEnd {
            begin_node,
        } && begin_node == begin)
}

/// Whether the value that a loop carries was taken out among the first `n` nodes.
pub open spec fn taken_out(k: BlockState, begin: int, n: int) -> bool {
    exists|j: int|
        0 <= j < n && j < k.nodes.len() && (#[trigger] k.nodes[j] matches BNode::ForAccResult {
            begin_node,
        } && begin_node == begin)
}

/// Whether a node uses only earlier nodes with a value, and belongs to an open loop if it
/// belongs to any.
pub open spec fn node_fits(k: BlockState, i: int) -> bool {
    let node = k.nodes[i];
    &&& forall|j: int|
        0 <= j < operands(node).len() ==> (#[trigger] operands(node)[j]).0 < i && has_value(
            k.nodes[operands(node)[j].0 as int],
        )
    &&& !(node is AtomicAddU32Rtn)
    &&& match node {
        BNode::ForEnd { begin_node } => begin_node < i && k.nodes[begin_node as int] is ForBegin
            && !ended(k, begin_node as int, i),
        BNode::ForAccPhi { begin_node }
        | BNode::ForAccEnd { begin_node, .. }
        | BNode::ForAccResult { begin_node } => begin_node < i
            && k.nodes[begin_node as int] is ForAccBegin && !taken_out(k, begin_node as int, i),
        _ => true,
    }
}

/// What a node that is no part of a loop or a condition becomes: a value if it has one. It
/// translates whenever its operands did.
proof fn lemma_node_step(
    k: BlockState,
    f: FuncState,
    vals: Seq<Option<Value>>,
    node: BNode<Seq<char>>,
)
    requires
        !(node is ForBegin || node is ForEnd || node is ForAccBegin || node is ForAccPhi
            || node is ForAccEnd || node is ForAccResult || node is IfMask || node is ElseMask
            || node is EndIf),
    ensures
        node_step(k, f, vals, node) matches Ok((g, v)) ==> (v is Some <==> has_value(node)),
        !(node is AtomicAddU32Rtn) && (forall|j: int|
            0 <= j < operands(node).len() ==> need1(vals, #[trigger] operands(node)[j]) is Ok)
            ==> node_step(k, f, vals, node) is Ok,
{
    reveal(node_step);
    match node {
        BNode::ArgPtr(name) => {
            lemma_argument(f, vals, name, ScalarDType::Ptr);
        },
        BNode::ArgU32(name) => {
            lemma_argument(f, vals, name, ScalarDType::U32);
        },
        BNode::ArgF32(name) => {
            lemma_argument(f, vals, name, ScalarDType::F32);
        },
        BNode::ProgramId(axis) => {
            lemma_workgroup(f, vals, axis);
        },
        BNode::ThreadIdY { block_x } => {
            lemma_thread_y(f, vals, k.block_size, block_x);
        },
        BNode::ConstU32(v) => {
            lemma_word(f, vals, v);
        },
        BNode::ConstF32(v) => {
            lemma_float(f, vals, v);
        },
        BNode::AddF32(a, b) | BNode::AddU32(a, b) => {
            lemma_binary(f, vals, BinOpKind::Add, a, b);
        },
        BNode::MulF32(a, b) | BNode::MulU32(a, b) => {
            lemma_binary(f, vals, BinOpKind::Mul, a, b);
        },
        BNode::SubF32(a, b) | BNode::SubU32(a, b) => {
            lemma_binary(f, vals, BinOpKind::Sub, a, b);
        },
        BNode::MaxF32(a, b) => {
            lemma_binary(f, vals, BinOpKind::Max, a, b);
        },
        BNode::MinF32(a, b) => {
            lemma_binary(f, vals, BinOpKind::Min, a, b);
        },
        BNode::DivF32(a, b) => {
            lemma_binary(f, vals, BinOpKind::Div, a, b);
        },
        BNode::AndBool(a, b) => {
            lemma_binary(f, vals, BinOpKind::And, a, b);
        },
        BNode::FmaF32(a, b, c) => {
            lemma_fused(f, vals, a, b, c);
        },
        BNode::ExpF32(a) => {
            lemma_unary(f, vals, UnaryOpKind::Exp2, a);
        },
        BNode::Log2F32(a) => {
            lemma_unary(f, vals, UnaryOpKind::Log2, a);
        },
        BNode::SqrtF32(a) => {
            lemma_unary(f, vals, UnaryOpKind::Sqrt, a);
        },
        BNode::RcpF32(a) => {
            lemma_unary(f, vals, UnaryOpKind::Rcp, a);
        },
        BNode::RsqrtF32(a) => {
            lemma_unary(f, vals, UnaryOpKind::Rsqrt, a);
        },
        BNode::AbsF32(a) => {
            lemma_unary(f, vals, UnaryOpKind::Abs, a);
        },
        BNode::NegF32(a) => {
            lemma_unary(f, vals, UnaryOpKind::Neg, a);
        },
        BNode::SinF32(a) => {
            lemma_unary(f, vals, UnaryOpKind::Sin, a);
        },
        BNode::CosF32(a) => {
            lemma_unary(f, vals, UnaryOpKind::Cos, a);
        },
        BNode::ShrConstU32(a, shift) => {
            lemma_with_const(f, vals, BinOpKind::Shr, shift as u32, a);
        },
        BNode::ShlConstU32(a, shift) => {
            lemma_with_const(f, vals, BinOpKind::Shl, shift as u32, a);
        },
        BNode::AndConstU32(a, c) => {
            lemma_with_const(f, vals, BinOpKind::And, c, a);
        },
        BNode::OrConstU32(a, c) => {
            lemma_with_const(f, vals, BinOpKind::Or, c, a);
        },
        BNode::XorConstU32(a, c) => {
            lemma_with_const(f, vals, BinOpKind::Xor, c, a);
        },
        BNode::LtU32(a, b) | BNode::CmpLtF32(a, b) => {
            lemma_comparison(f, vals, CmpOpKind::Lt, a, b);
        },
        BNode::GeU32(a, b) => {
            lemma_comparison(f, vals, CmpOpKind::Ge, a, b);
        },
        BNode::CmpGtF32(a, b) => {
            lemma_comparison(f, vals, CmpOpKind::Lt, b, a);
        },
        BNode::CmpEqF32(a, b) => {
            lemma_comparison(f, vals, CmpOpKind::Eq, a, b);
        },
        BNode::Select { mask, true_val, false_val } => {
            lemma_selection(f, vals, mask, true_val, false_val);
        },
        BNode::Load { ptr, offsets, mask } => {
            lemma_float_load(f, vals, ptr, offsets, mask);
        },
        BNode::LoadU32 { ptr, offsets, mask } => {
            lemma_word_load(f, vals, ptr, offsets, mask);
        },
        BNode::LoadBf16 { ptr, offsets, mask } => {
            lemma_bf16_load(f, vals, ptr, offsets, mask);
        },
        BNode::Store { ptr, offsets, val, mask } => {
            lemma_store(f, vals, ptr, offsets, val, mask);
        },
        BNode::StoreBf16 { ptr, offsets, val, mask } => {
            lemma_bf16_store(f, vals, ptr, offsets, val, mask);
        },
        BNode::AtomicAddF32 { ptr, offsets, val, mask } => {
            lemma_atomic_add(f, vals, ptr, offsets, val, mask);
        },
        BNode::CvtF32U32(a) => {
            lemma_conversion(f, vals, ScalarDType::F32, a);
        },
        BNode::CvtU32F32(a) => {
            lemma_conversion(f, vals, ScalarDType::U32, a);
        },
        BNode::CvtF32BF16(a) => {
            lemma_widening(f, vals, a);
        },
        BNode::WaveReduceAddF32(a) => {
            lemma_wave_reduce(f, vals, ReduceKind::Add, a);
        },
        BNode::WaveReduceMaxF32(a) => {
            lemma_wave_reduce(f, vals, ReduceKind::Max, a);
        },
        BNode::WgReduceAddF32(a) => {
            lemma_wg_reduce(f, vals, ReduceKind::Add, k.block_size, a);
        },
        BNode::WgReduceMaxF32(a) => {
            lemma_wg_reduce(f, vals, ReduceKind::Max, k.block_size, a);
        },
        BNode::WgReduceMinF32(a) => {
            lemma_wg_reduce(f, vals, ReduceKind::Min, k.block_size, a);
        },
        BNode::LdsAlloc { size_bytes } => {
            lemma_lds_space(f, vals, size_bytes);
        },
        BNode::LdsLoad { base, offset } => {
            lemma_lds_load(f, vals, base, offset);
        },
        BNode::LdsStore { base, offset, val } => {
            lemma_lds_store(f, vals, base, offset, val);
        },
        BNode::Barrier => {
            lemma_plain(f, vals, TileOp::Barrier);
        },
        BNode::ZeroAcc => {
            lemma_zero_sums(f, vals);
        },
        BNode::CvtPkBf16F32 { lo, hi } => {
            lemma_packing(f, vals, lo, hi);
        },
        BNode::Wmma { a, b, c } => {
            lemma_matrix_product(f, vals, a, b, c);
        },
        BNode::ExtractF32 { src, idx } => {
            lemma_extraction(f, vals, idx, src);
        },
        BNode::SplatFragment(a) => {
            lemma_fragment(f, vals, a);
        },
        BNode::TileGemm { a_ptr, b_ptr, y_ptr, k_dim, n_dim, config } => {
            lemma_gemm(f, vals, config, a_ptr, b_ptr, y_ptr, k_dim, n_dim);
        },
        BNode::ThreadId => {
            lemma_thread_x(f, vals, k.block_size, k.block_x);
            lemma_range(f, vals, k.block_size);
        },
        BNode::Arange { start, end } => {
            lemma_range(f, vals, end);
            lemma_shifted_range(f, vals, start, (end - start) as u32);
        },
        _ => {},
    }
    let ops = operands(node);
    if ops.len() > 0 {
        assert(need1(vals, ops[0]) is Ok || need1(vals, ops[0]) is Err);
    }
    if ops.len() > 1 {
        assert(need1(vals, ops[1]) is Ok || need1(vals, ops[1]) is Err);
    }
    if ops.len() > 2 {
        assert(need1(vals, ops[2]) is Ok || need1(vals, ops[2]) is Err);
    }
    if ops.len() > 3 {
        assert(need1(vals, ops[3]) is Ok || need1(vals, ops[3]) is Err);
    }
    if ops.len() > 4 {
        assert(need1(vals, ops[4]) is Ok || need1(vals, ops[4]) is Err);
    }
}

/// In a translation every node that has a value became one, and no other did.
pub proof fn every_value_is_translated(k: BlockState, n: nat)
    requires
        n <= k.nodes.len(),
    ensures
        translated(k, n) matches Ok(p) ==> p.vals.len() == n && p.loops.len() == n && p.accs.len()
            == n && forall|i: int|
            0 <= i < n ==> (#[trigger] p.vals[i] is Some <==> has_value(k.nodes[i])),
    decreases n,
{
    if n > 0 {
        every_value_is_translated(k, (n - 1) as nat);
        match translated(k, (n - 1) as nat) {
            Ok(p) => {
                let node = k.nodes[n - 1];
                reveal(progress_step);
                if !(node is ForBegin || node is ForEnd || node is ForAccBegin || node is ForAccPhi
                    || node is ForAccEnd || node is ForAccResult || node is IfMask
                    || node is ElseMask || node is EndIf) {
                    lemma_node_step(k, p.f, p.vals, node);
                }
                match translated(k, n) {
                    Ok(q) => {
                        assert forall|i: int| 0 <= i < n implies (#[trigger] q.vals[i] is Some
                            <==> has_value(k.nodes[i])) by {
                            if i < n - 1 {
                                assert(q.vals[i] == p.vals[i]);
                            }
                        }
                    },
                    Err(_) => {},
                }
            },
            Err(_) => {},
        }
    }
}

/// Which loops are open in a translation: those begun and not ended, and those begun whose
/// carried value was not taken out.
proof fn lemma_open_loops(k: BlockState, n: nat)
    requires
        n <= k.nodes.len(),
    ensures
        translated(k, n) matches Ok(p) ==> p.loops.len() == n && p.accs.len() == n && (forall|i: int|
            0 <= i < n && k.nodes[i] is ForBegin && !ended(k, i, n as int)
                ==> #[trigger] p.loops[i] is Some) && (forall|i: int|
            0 <= i < n && k.nodes[i] is ForAccBegin && !taken_out(k, i, n as int)
                ==> #[trigger] p.accs[i] is Some),
    decreases n,
{
    if n > 0 {
        every_value_is_translated(k, (n - 1) as nat);
        every_value_is_translated(k, n);
        lemma_open_loops(k, (n - 1) as nat);
        match translated(k, (n - 1) as nat) {
            Ok(p) => {
                let node = k.nodes[n - 1];
                reveal(progress_step);
                match translated(k, n) {
                    Ok(q) => {
                        assert forall|i: int|
                            0 <= i < n && k.nodes[i] is ForBegin && !ended(
                                k,
                                i,
                                n as int,
                            ) implies #[trigger] q.loops[i] is Some by {
                            if i < n - 1 {
                                assert(!ended(k, i, n - 1)) by {
                                    if ended(k, i, n - 1) {
                                        let j = choose|j: int|
                                            0 <= j < n - 1 && j < k.nodes.len() && (
                                            #[trigger] k.nodes[j] matches BNode::ForEnd {
                                                begin_node,
                                            } && begin_node == i);
                                        assert(ended(k, i, n as int));
                                    }
                                }
                                assert(p.loops[i] is Some);
                                if let BNode::ForEnd { begin_node } = node {
                                    if begin_node == i {
                                        assert(k.nodes[n - 1] matches BNode::ForEnd {
                                            begin_node,
                                        } && begin_node == i);
                                        assert(ended(k, i, n as int));
                                    }
                                }
                            }
                        }
                        assert forall|i: int|
                            0 <= i < n && k.nodes[i] is ForAccBegin && !taken_out(
                                k,
                                i,
                                n as int,
                            ) implies #[trigger] q.accs[i] is Some by {
                            if i < n - 1 {
                                assert(!taken_out(k, i, n - 1)) by {
                                    if taken_out(k, i, n - 1) {
                                        let j = choose|j: int|
                                            0 <= j < n - 1 && j < k.nodes.len() && (
                                            #[trigger] k.nodes[j] matches BNode::ForAccResult {
                                                begin_node,
                                            } && begin_node == i);
                                        assert(taken_out(k, i, n as int));
                                    }
                                }
                                assert(p.accs[i] is Some);
                                if let BNode::ForAccResult { begin_node } = node {
                                    if begin_node == i {
                                        assert(k.nodes[n - 1] matches BNode::ForAccResult {
                                            begin_node,
                                        } && begin_node == i);
                                        assert(taken_out(k, i, n as int));
                                    }
                                }
                            }
                        }
                    },
                    Err(_) => {},
                }
            },
            Err(_) => {},
        }
    }
}

/// A kernel translates if each node uses only earlier nodes with a value, every loop that is
/// ended is open, and no atomic addition gives the old value.
pub proof fn fitting_kernels_translate(k: BlockState, n: nat)
    requires
        n <= k.nodes.len(),
        forall|i: int| 0 <= i < n ==> #[trigger] node_fits(k, i),
    ensures
        translated(k, n) is Ok,
        n == k.nodes.len() ==> function_of(k) is Ok,
    decreases n,
{
    if n > 0 {
        fitting_kernels_translate(k, (n - 1) as nat);
        every_value_is_translated(k, (n - 1) as nat);
        lemma_open_loops(k, (n - 1) as nat);
        let node = k.nodes[n - 1];
        assert(node_fits(k, n - 1));
        match translated(k, (n - 1) as nat) {
            Ok(p) => {
                reveal(progress_step);
                let ops = operands(node);
                assert forall|j: int| 0 <= j < ops.len() implies need1(
                    p.vals,
                    #[trigger] ops[j],
                ) is Ok by {
                    assert(p.vals[ops[j].0 as int] is Some);
                }
                if ops.len() > 0 {
                    assert(need1(p.vals, ops[0]) is Ok);
                }
                if ops.len() > 1 {
                    assert(need1(p.vals, ops[1]) is Ok);
                }
                if ops.len() > 2 {
                    assert(need1(p.vals, ops[2]) is Ok);
                }
                if !(node is ForBegin || node is ForEnd || node is ForAccBegin || node is ForAccPhi
                    || node is ForAccEnd || node is ForAccResult || node is IfMask
                    || node is ElseMask || node is EndIf) {
                    lemma_node_step(k, p.f, p.vals, node);
                }
            },
            Err(_) => {},
        }
    }
}

/// Whether the first `n` nodes fit, and ranges of numbers among them run upwards.
pub open spec fn all_fit(k: BlockState, n: nat) -> bool
    decreases n,
{
    n == 0 || {
        &&& all_fit(k, (n - 1) as nat)
        &&& node_fits(k, n - 1)
        &&& k.nodes[n - 1] matches BNode::Arange { start, end } ==> start <= end
    }
}

proof fn lemma_all_fit(k: BlockState, n: nat)
    requires
        all_fit(k, n),
    ensures
        forall|i: int| 0 <= i < n ==> #[trigger] node_fits(k, i),
        forall|i: int|
            0 <= i < n ==> (#[trigger] k.nodes[i] matches BNode::Arange { start, end } ==> start
                <= end),
    decreases n,
{
    if n > 0 {
        lemma_all_fit(k, (n - 1) as nat);
    }
}

/// Nodes that fit, behind others that do.
pub proof fn lemma_more_fit(k: BlockState, n: nat, m: nat)
    requires
        all_fit(k, n),
        n <= m,
        forall|i: int| n <= i < m ==> #[trigger] node_fits(k, i),
        forall|i: int| n <= i < m ==> !(#[trigger] k.nodes[i] is Arange),
    ensures
        all_fit(k, m),
    decreases m,
{
    if n < m {
        lemma_more_fit(k, n, (m - 1) as nat);
    }
}

/// A kernel whose nodes all fit can be translated, and translates.
pub proof fn fitting_kernels_can_be_translated(k: BlockState)
    requires
        all_fit(k, k.nodes.len()),
    ensures
        ranges_ascend(k.nodes),
        function_of(k) is Ok,
{
    lemma_all_fit(k, k.nodes.len());
    fitting_kernels_translate(k, k.nodes.len());
}

/// Once a translation fails, it stays failed.
proof fn lemma_failure_stays(k: BlockState, n: nat, m: nat)
    requires
        n <= m,
        translated(k, n) is Err,
    ensures
        translated(k, m) == translated(k, n),
    decreases m,
{
    if n < m {
        lemma_failure_stays(k, n, (m - 1) as nat);
    }
}

} // verus!
