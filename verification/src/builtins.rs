//! The builtin types that error-type sets store as single bits, and the bit
//! arithmetic behind that representation.
use crate::error::{ErrorTypeView, EscErrorType};
use crate::text::str_eq;
use vstd::prelude::*;

verus! {

/// How many builtin types have a bit of their own.
pub const BUILTIN_COUNT: usize = 26;

/// The bits of all builtin types.
pub const ALL_BUILTIN_BITS: u64 = 0x3ff_ffff;

/// The name of the builtin type stored at bit `i` of a builtin set.
pub open spec fn builtin_name(i: int) -> Seq<char> {
    if i == 0 {
        "unknown"@
    } else if i == 1 {
        "undefined"@
    } else if i == 2 {
        "null"@
    } else if i == 3 {
        "boolean"@
    } else if i == 4 {
        "number"@
    } else if i == 5 {
        "string"@
    } else if i == 6 {
        "bigint"@
    } else if i == 7 {
        "symbol"@
    } else if i == 8 {
        "Function"@
    } else if i == 9 {
        "object"@
    } else if i == 10 {
        "Array"@
    } else if i == 11 {
        "Promise"@
    } else if i == 12 {
        "Generator"@
    } else if i == 13 {
        "AsyncGenerator"@
    } else if i == 14 {
        "Error"@
    } else if i == 15 {
        "TypeError"@
    } else if i == 16 {
        "RangeError"@
    } else if i == 17 {
        "ReferenceError"@
    } else if i == 18 {
        "SyntaxError"@
    } else if i == 19 {
        "URIError"@
    } else if i == 20 {
        "EvalError"@
    } else if i == 21 {
        "AggregateError"@
    } else if i == 22 {
        "DataView"@
    } else if i == 23 {
        "Uint8Array"@
    } else if i == 24 {
        "ArrayBuffer"@
    } else if i == 25 {
        "SharedArrayBuffer"@
    } else {
        Seq::empty()
    }
}

/// The first bit index, from `i` on, whose builtin name is `name`.
pub open spec fn builtin_index_from(name: Seq<char>, i: nat) -> Option<nat>
    decreases 26 - i,
{
    if i >= 26 {
        None
    } else if name == builtin_name(i as int) {
        Some(i)
    } else {
        builtin_index_from(name, i + 1)
    }
}

/// The bit index of a builtin type, if it has one.
pub open spec fn builtin_index(t: ErrorTypeView) -> Option<nat> {
    match t {
        ErrorTypeView::Builtin(name) => builtin_index_from(name, 0),
        ErrorTypeView::Node(..) => None,
    }
}

/// The view of the builtin type stored at bit `i`.
pub open spec fn builtin_at_view(i: nat) -> ErrorTypeView {
    ErrorTypeView::Builtin(builtin_name(i as int))
}

/// Whether bit `i` of `bits` is set.
pub open spec fn bit_set(bits: u64, i: u64) -> bool {
    (bits >> i) & 1u64 == 1u64
}

/// The single bit for index `i`.
pub open spec fn bit_of(i: u64) -> u64 {
    1u64 << i
}

/// The builtin types whose bits are set in `bits`.
pub open spec fn bits_view(bits: u64) -> Set<ErrorTypeView> {
    Set::new(|t: ErrorTypeView| builtin_index(t) matches Some(i) && bit_set(bits, i as u64))
}

proof fn lemma_index_from_found(name: Seq<char>, i: nat)
    requires
        i <= 26,
    ensures
        builtin_index_from(name, i) matches Some(k) ==> (i <= k && k < 26 && name == builtin_name(
            k as int,
        )),
        builtin_index_from(name, i) is None ==> forall|k: int|
            i <= k < 26 ==> name != builtin_name(k),
    decreases 26 - i,
{
    if i < 26 {
        lemma_index_from_found(name, i + 1);
    }
}

/// A bit index identifies its builtin type, and every builtin type's index is its own.
pub proof fn lemma_builtin_index(t: ErrorTypeView)
    ensures
        builtin_index(t) matches Some(i) ==> i < 26 && t == builtin_at_view(i),
        builtin_index(t) is None ==> forall|k: nat| k < 26 ==> t != builtin_at_view(k),
{
    if let ErrorTypeView::Builtin(name) = t {
        lemma_index_from_found(name, 0);
    }
}

proof fn lemma_index_of_builtin_0()
    ensures
        builtin_index_from(builtin_name(0), 0) == Some(0nat),
{
    reveal_strlit("unknown");
}

proof fn lemma_index_of_builtin_1()
    ensures
        builtin_index_from(builtin_name(1), 0) == Some(1nat),
{
    reveal_strlit("undefined");
    reveal_strlit("unknown");
    assert(builtin_name(1).len() != builtin_name(0).len());
    assert(builtin_name(1) != builtin_name(0));
    assert(builtin_index_from(builtin_name(1), 0) == builtin_index_from(builtin_name(1), 1));
}

proof fn lemma_index_of_builtin_2()
    ensures
        builtin_index_from(builtin_name(2), 0) == Some(2nat),
{
    reveal_strlit("null");
    reveal_strlit("unknown");
    reveal_strlit("undefined");
    assert(builtin_name(2).len() != builtin_name(0).len());
    assert(builtin_name(2) != builtin_name(0));
    assert(builtin_name(2).len() != builtin_name(1).len());
    assert(builtin_name(2) != builtin_name(1));
    assert(builtin_index_from(builtin_name(2), 1) == builtin_index_from(builtin_name(2), 2));
    assert(builtin_index_from(builtin_name(2), 0) == builtin_index_from(builtin_name(2), 1));
}

proof fn lemma_index_of_builtin_3()
    ensures
        builtin_index_from(builtin_name(3), 0) == Some(3nat),
{
    reveal_strlit("boolean");
    reveal_strlit("unknown");
    reveal_strlit("undefined");
    reveal_strlit("null");
    assert(builtin_name(3)[0] != builtin_name(0)[0]);
    assert(builtin_name(3) != builtin_name(0));
    assert(builtin_name(3).len() != builtin_name(1).len());
    assert(builtin_name(3) != builtin_name(1));
    assert(builtin_name(3).len() != builtin_name(2).len());
    assert(builtin_name(3) != builtin_name(2));
    assert(builtin_index_from(builtin_name(3), 2) == builtin_index_from(builtin_name(3), 3));
    assert(builtin_index_from(builtin_name(3), 1) == builtin_index_from(builtin_name(3), 2));
    assert(builtin_index_from(builtin_name(3), 0) == builtin_index_from(builtin_name(3), 1));
}

proof fn lemma_index_of_builtin_4()
    ensures
        builtin_index_from(builtin_name(4), 0) == Some(4nat),
{
    reveal_strlit("number");
    reveal_strlit("unknown");
    reveal_strlit("undefined");
    reveal_strlit("null");
    reveal_strlit("boolean");
    assert(builtin_name(4).len() != builtin_name(0).len());
    assert(builtin_name(4) != builtin_name(0));
    assert(builtin_name(4).len() != builtin_name(1).len());
    assert(builtin_name(4) != builtin_name(1));
    assert(builtin_name(4).len() != builtin_name(2).len());
    assert(builtin_name(4) != builtin_name(2));
    assert(builtin_name(4).len() != builtin_name(3).len());
    assert(builtin_name(4) != builtin_name(3));
    assert(builtin_index_from(builtin_name(4), 3) == builtin_index_from(builtin_name(4), 4));
    assert(builtin_index_from(builtin_name(4), 2) == builtin_index_from(builtin_name(4), 3));
    assert(builtin_index_from(builtin_name(4), 1) == builtin_index_from(builtin_name(4), 2));
    assert(builtin_index_from(builtin_name(4), 0) == builtin_index_from(builtin_name(4), 1));
}

proof fn lemma_index_of_builtin_5()
    ensures
        builtin_index_from(builtin_name(5), 0) == Some(5nat),
{
    reveal_strlit("string");
    reveal_strlit("unknown");
    reveal_strlit("undefined");
    reveal_strlit("null");
    reveal_strlit("boolean");
    reveal_strlit("number");
    assert(builtin_name(5).len() != builtin_name(0).len());
    assert(builtin_name(5) != builtin_name(0));
    assert(builtin_name(5).len() != builtin_name(1).len());
    assert(builtin_name(5) != builtin_name(1));
    assert(builtin_name(5).len() != builtin_name(2).len());
    assert(builtin_name(5) != builtin_name(2));
    assert(builtin_name(5).len() != builtin_name(3).len());
    assert(builtin_name(5) != builtin_name(3));
    assert(builtin_name(5)[0] != builtin_name(4)[0]);
    assert(builtin_name(5) != builtin_name(4));
    assert(builtin_index_from(builtin_name(5), 4) == builtin_index_from(builtin_name(5), 5));
    assert(builtin_index_from(builtin_name(5), 3) == builtin_index_from(builtin_name(5), 4));
    assert(builtin_index_from(builtin_name(5), 2) == builtin_index_from(builtin_name(5), 3));
    assert(builtin_index_from(builtin_name(5), 1) == builtin_index_from(builtin_name(5), 2));
    assert(builtin_index_from(builtin_name(5), 0) == builtin_index_from(builtin_name(5), 1));
}

proof fn lemma_index_of_builtin_6()
    ensures
        builtin_index_from(builtin_name(6), 0) == Some(6nat),
{
    reveal_strlit("bigint");
    reveal_strlit("unknown");
    reveal_strlit("undefined");
    reveal_strlit("null");
    reveal_strlit("boolean");
    reveal_strlit("number");
    reveal_strlit("string");
    assert(builtin_name(6).len() != builtin_name(0).len());
    assert(builtin_name(6) != builtin_name(0));
    assert(builtin_name(6).len() != builtin_name(1).len());
    assert(builtin_name(6) != builtin_name(1));
    assert(builtin_name(6).len() != builtin_name(2).len());
    assert(builtin_name(6) != builtin_name(2));
    assert(builtin_name(6).len() != builtin_name(3).len());
    assert(builtin_name(6) != builtin_name(3));
    assert(builtin_name(6)[0] != builtin_name(4)[0]);
    assert(builtin_name(6) != builtin_name(4));
    assert(builtin_name(6)[0] != builtin_name(5)[0]);
    assert(builtin_name(6) != builtin_name(5));
    assert(builtin_index_from(builtin_name(6), 5) == builtin_index_from(builtin_name(6), 6));
    assert(builtin_index_from(builtin_name(6), 4) == builtin_index_from(builtin_name(6), 5));
    assert(builtin_index_from(builtin_name(6), 3) == builtin_index_from(builtin_name(6), 4));
    assert(builtin_index_from(builtin_name(6), 2) == builtin_index_from(builtin_name(6), 3));
    assert(builtin_index_from(builtin_name(6), 1) == builtin_index_from(builtin_name(6), 2));
    assert(builtin_index_from(builtin_name(6), 0) == builtin_index_from(builtin_name(6), 1));
}

proof fn lemma_index_of_builtin_7()
    ensures
        builtin_index_from(builtin_name(7), 0) == Some(7nat),
{
    reveal_strlit("symbol");
    reveal_strlit("unknown");
    reveal_strlit("undefined");
    reveal_strlit("null");
    reveal_strlit("boolean");
    reveal_strlit("number");
    reveal_strlit("string");
    reveal_strlit("bigint");
    assert(builtin_name(7).len() != builtin_name(0).len());
    assert(builtin_name(7) != builtin_name(0));
    assert(builtin_name(7).len() != builtin_name(1).len());
    assert(builtin_name(7) != builtin_name(1));
    assert(builtin_name(7).len() != builtin_name(2).len());
    assert(builtin_name(7) != builtin_name(2));
    assert(builtin_name(7).len() != builtin_name(3).len());
    assert(builtin_name(7) != builtin_name(3));
    assert(builtin_name(7)[0] != builtin_name(4)[0]);
    assert(builtin_name(7) != builtin_name(4));
    assert(builtin_name(7)[1] != builtin_name(5)[1]);
    assert(builtin_name(7) != builtin_name(5));
    assert(builtin_name(7)[0] != builtin_name(6)[0]);
    assert(builtin_name(7) != builtin_name(6));
    assert(builtin_index_from(builtin_name(7), 6) == builtin_index_from(builtin_name(7), 7));
    assert(builtin_index_from(builtin_name(7), 5) == builtin_index_from(builtin_name(7), 6));
    assert(builtin_index_from(builtin_name(7), 4) == builtin_index_from(builtin_name(7), 5));
    assert(builtin_index_from(builtin_name(7), 3) == builtin_index_from(builtin_name(7), 4));
    assert(builtin_index_from(builtin_name(7), 2) == builtin_index_from(builtin_name(7), 3));
    assert(builtin_index_from(builtin_name(7), 1) == builtin_index_from(builtin_name(7), 2));
    assert(builtin_index_from(builtin_name(7), 0) == builtin_index_from(builtin_name(7), 1));
}

proof fn lemma_index_of_builtin_8()
    ensures
        builtin_index_from(builtin_name(8), 0) == Some(8nat),
{
    reveal_strlit("Function");
    reveal_strlit("unknown");
    reveal_strlit("undefined");
    reveal_strlit("null");
    reveal_strlit("boolean");
    reveal_strlit("number");
    reveal_strlit("string");
    reveal_strlit("bigint");
    reveal_strlit("symbol");
    assert(builtin_name(8).len() != builtin_name(0).len());
    assert(builtin_name(8) != builtin_name(0));
    assert(builtin_name(8).len() != builtin_name(1).len());
    assert(builtin_name(8) != builtin_name(1));
    assert(builtin_name(8).len() != builtin_name(2).len());
    assert(builtin_name(8) != builtin_name(2));
    assert(builtin_name(8).len() != builtin_name(3).len());
    assert(builtin_name(8) != builtin_name(3));
    assert(builtin_name(8).len() != builtin_name(4).len());
    assert(builtin_name(8) != builtin_name(4));
    assert(builtin_name(8).len() != builtin_name(5).len());
    assert(builtin_name(8) != builtin_name(5));
    assert(builtin_name(8).len() != builtin_name(6).len());
    assert(builtin_name(8) != builtin_name(6));
    assert(builtin_name(8).len() != builtin_name(7).len());
    assert(builtin_name(8) != builtin_name(7));
    assert(builtin_index_from(builtin_name(8), 7) == builtin_index_from(builtin_name(8), 8));
    assert(builtin_index_from(builtin_name(8), 6) == builtin_index_from(builtin_name(8), 7));
    assert(builtin_index_from(builtin_name(8), 5) == builtin_index_from(builtin_name(8), 6));
    assert(builtin_index_from(builtin_name(8), 4) == builtin_index_from(builtin_name(8), 5));
    assert(builtin_index_from(builtin_name(8), 3) == builtin_index_from(builtin_name(8), 4));
    assert(builtin_index_from(builtin_name(8), 2) == builtin_index_from(builtin_name(8), 3));
    assert(builtin_index_from(builtin_name(8), 1) == builtin_index_from(builtin_name(8), 2));
    assert(builtin_index_from(builtin_name(8), 0) == builtin_index_from(builtin_name(8), 1));
}

proof fn lemma_index_of_builtin_9()
    ensures
        builtin_index_from(builtin_name(9), 0) == Some(9nat),
{
    reveal_strlit("object");
    reveal_strlit("unknown");
    reveal_strlit("undefined");
    reveal_strlit("null");
    reveal_strlit("boolean");
    reveal_strlit("number");
    reveal_strlit("string");
    reveal_strlit("bigint");
    reveal_strlit("symbol");
    reveal_strlit("Function");
    assert(builtin_name(9).len() != builtin_name(0).len());
    assert(builtin_name(9) != builtin_name(0));
    assert(builtin_name(9).len() != builtin_name(1).len());
    assert(builtin_name(9) != builtin_name(1));
    assert(builtin_name(9).len() != builtin_name(2).len());
    assert(builtin_name(9) != builtin_name(2));
    assert(builtin_name(9).len() != builtin_name(3).len());
    assert(builtin_name(9) != builtin_name(3));
    assert(builtin_name(9)[0] != builtin_name(4)[0]);
    assert(builtin_name(9) != builtin_name(4));
    assert(builtin_name(9)[0] != builtin_name(5)[0]);
    assert(builtin_name(9) != builtin_name(5));
    assert(builtin_name(9)[0] != builtin_name(6)[0]);
    assert(builtin_name(9) != builtin_name(6));
    assert(builtin_name(9)[0] != builtin_name(7)[0]);
    assert(builtin_name(9) != builtin_name(7));
    assert(builtin_name(9).len() != builtin_name(8).len());
    assert(builtin_name(9) != builtin_name(8));
    assert(builtin_index_from(builtin_name(9), 8) == builtin_index_from(builtin_name(9), 9));
    assert(builtin_index_from(builtin_name(9), 7) == builtin_index_from(builtin_name(9), 8));
    assert(builtin_index_from(builtin_name(9), 6) == builtin_index_from(builtin_name(9), 7));
    assert(builtin_index_from(builtin_name(9), 5) == builtin_index_from(builtin_name(9), 6));
    assert(builtin_index_from(builtin_name(9), 4) == builtin_index_from(builtin_name(9), 5));
    assert(builtin_index_from(builtin_name(9), 3) == builtin_index_from(builtin_name(9), 4));
    assert(builtin_index_from(builtin_name(9), 2) == builtin_index_from(builtin_name(9), 3));
    assert(builtin_index_from(builtin_name(9), 1) == builtin_index_from(builtin_name(9), 2));
    assert(builtin_index_from(builtin_name(9), 0) == builtin_index_from(builtin_name(9), 1));
}

proof fn lemma_index_of_builtin_10()
    ensures
        builtin_index_from(builtin_name(10), 0) == Some(10nat),
{
    reveal_strlit("Array");
    reveal_strlit("unknown");
    reveal_strlit("undefined");
    reveal_strlit("null");
    reveal_strlit("boolean");
    reveal_strlit("number");
    reveal_strlit("string");
    reveal_strlit("bigint");
    reveal_strlit("symbol");
    reveal_strlit("Function");
    reveal_strlit("object");
    assert(builtin_name(10).len() != builtin_name(0).len());
    assert(builtin_name(10) != builtin_name(0));
    assert(builtin_name(10).len() != builtin_name(1).len());
    assert(builtin_name(10) != builtin_name(1));
    assert(builtin_name(10).len() != builtin_name(2).len());
    assert(builtin_name(10) != builtin_name(2));
    assert(builtin_name(10).len() != builtin_name(3).len());
    assert(builtin_name(10) != builtin_name(3));
    assert(builtin_name(10).len() != builtin_name(4).len());
    assert(builtin_name(10) != builtin_name(4));
    assert(builtin_name(10).len() != builtin_name(5).len());
    assert(builtin_name(10) != builtin_name(5));
    assert(builtin_name(10).len() != builtin_name(6).len());
    assert(builtin_name(10) != builtin_name(6));
    assert(builtin_name(10).len() != builtin_name(7).len());
    assert(builtin_name(10) != builtin_name(7));
    assert(builtin_name(10).len() != builtin_name(8).len());
    assert(builtin_name(10) != builtin_name(8));
    assert(builtin_name(10).len() != builtin_name(9).len());
    assert(builtin_name(10) != builtin_name(9));
    assert(builtin_index_from(builtin_name(10), 9) == builtin_index_from(builtin_name(10), 10));
    assert(builtin_index_from(builtin_name(10), 8) == builtin_index_from(builtin_name(10), 9));
    assert(builtin_index_from(builtin_name(10), 7) == builtin_index_from(builtin_name(10), 8));
    assert(builtin_index_from(builtin_name(10), 6) == builtin_index_from(builtin_name(10), 7));
    assert(builtin_index_from(builtin_name(10), 5) == builtin_index_from(builtin_name(10), 6));
    assert(builtin_index_from(builtin_name(10), 4) == builtin_index_from(builtin_name(10), 5));
    assert(builtin_index_from(builtin_name(10), 3) == builtin_index_from(builtin_name(10), 4));
    assert(builtin_index_from(builtin_name(10), 2) == builtin_index_from(builtin_name(10), 3));
    assert(builtin_index_from(builtin_name(10), 1) == builtin_index_from(builtin_name(10), 2));
    assert(builtin_index_from(builtin_name(10), 0) == builtin_index_from(builtin_name(10), 1));
}

proof fn lemma_index_of_builtin_11()
    ensures
        builtin_index_from(builtin_name(11), 0) == Some(11nat),
{
    reveal_strlit("Promise");
    reveal_strlit("unknown");
    reveal_strlit("undefined");
    reveal_strlit("null");
    reveal_strlit("boolean");
    reveal_strlit("number");
    reveal_strlit("string");
    reveal_strlit("bigint");
    reveal_strlit("symbol");
    reveal_strlit("Function");
    reveal_strlit("object");
    reveal_strlit("Array");
    assert(builtin_name(11)[0] != builtin_name(0)[0]);
    assert(builtin_name(11) != builtin_name(0));
    assert(builtin_name(11).len() != builtin_name(1).len());
    assert(builtin_name(11) != builtin_name(1));
    assert(builtin_name(11).len() != builtin_name(2).len());
    assert(builtin_name(11) != builtin_name(2));
    assert(builtin_name(11)[0] != builtin_name(3)[0]);
    assert(builtin_name(11) != builtin_name(3));
    assert(builtin_name(11).len() != builtin_name(4).len());
    assert(builtin_name(11) != builtin_name(4));
    assert(builtin_name(11).len() != builtin_name(5).len());
    assert(builtin_name(11) != builtin_name(5));
    assert(builtin_name(11).len() != builtin_name(6).len());
    assert(builtin_name(11) != builtin_name(6));
    assert(builtin_name(11).len() != builtin_name(7).len());
    assert(builtin_name(11) != builtin_name(7));
    assert(builtin_name(11).len() != builtin_name(8).len());
    assert(builtin_name(11) != builtin_name(8));
    assert(builtin_name(11).len() != builtin_name(9).len());
    assert(builtin_name(11) != builtin_name(9));
    assert(builtin_name(11).len() != builtin_name(10).len());
    assert(builtin_name(11) != builtin_name(10));
    assert(builtin_index_from(builtin_name(11), 10) == builtin_index_from(builtin_name(11), 11));
    assert(builtin_index_from(builtin_name(11), 9) == builtin_index_from(builtin_name(11), 10));
    assert(builtin_index_from(builtin_name(11), 8) == builtin_index_from(builtin_name(11), 9));
    assert(builtin_index_from(builtin_name(11), 7) == builtin_index_from(builtin_name(11), 8));
    assert(builtin_index_from(builtin_name(11), 6) == builtin_index_from(builtin_name(11), 7));
    assert(builtin_index_from(builtin_name(11), 5) == builtin_index_from(builtin_name(11), 6));
    assert(builtin_index_from(builtin_name(11), 4) == builtin_index_from(builtin_name(11), 5));
    assert(builtin_index_from(builtin_name(11), 3) == builtin_index_from(builtin_name(11), 4));
    assert(builtin_index_from(builtin_name(11), 2) == builtin_index_from(builtin_name(11), 3));
    assert(builtin_index_from(builtin_name(11), 1) == builtin_index_from(builtin_name(11), 2));
    assert(builtin_index_from(builtin_name(11), 0) == builtin_index_from(builtin_name(11), 1));
}

proof fn lemma_index_of_builtin_12()
    ensures
        builtin_index_from(builtin_name(12), 0) == Some(12nat),
{
    reveal_strlit("Generator");
    reveal_strlit("unknown");
    reveal_strlit("undefined");
    reveal_strlit("null");
    reveal_strlit("boolean");
    reveal_strlit("number");
    reveal_strlit("string");
    reveal_strlit("bigint");
    reveal_strlit("symbol");
    reveal_strlit("Function");
    reveal_strlit("object");
    reveal_strlit("Array");
    reveal_strlit("Promise");
    assert(builtin_name(12).len() != builtin_name(0).len());
    assert(builtin_name(12) != builtin_name(0));
    assert(builtin_name(12)[0] != builtin_name(1)[0]);
    assert(builtin_name(12) != builtin_name(1));
    assert(builtin_name(12).len() != builtin_name(2).len());
    assert(builtin_name(12) != builtin_name(2));
    assert(builtin_name(12).len() != builtin_name(3).len());
    assert(builtin_name(12) != builtin_name(3));
    assert(builtin_name(12).len() != builtin_name(4).len());
    assert(builtin_name(12) != builtin_name(4));
    assert(builtin_name(12).len() != builtin_name(5).len());
    assert(builtin_name(12) != builtin_name(5));
    assert(builtin_name(12).len() != builtin_name(6).len());
    assert(builtin_name(12) != builtin_name(6));
    assert(builtin_name(12).len() != builtin_name(7).len());
    assert(builtin_name(12) != builtin_name(7));
    assert(builtin_name(12).len() != builtin_name(8).len());
    assert(builtin_name(12) != builtin_name(8));
    assert(builtin_name(12).len() != builtin_name(9).len());
    assert(builtin_name(12) != builtin_name(9));
    assert(builtin_name(12).len() != builtin_name(10).len());
    assert(builtin_name(12) != builtin_name(10));
    assert(builtin_name(12).len() != builtin_name(11).len());
    assert(builtin_name(12) != builtin_name(11));
    assert(builtin_index_from(builtin_name(12), 11) == builtin_index_from(builtin_name(12), 12));
    assert(builtin_index_from(builtin_name(12), 10) == builtin_index_from(builtin_name(12), 11));
    assert(builtin_index_from(builtin_name(12), 9) == builtin_index_from(builtin_name(12), 10));
    assert(builtin_index_from(builtin_name(12), 8) == builtin_index_from(builtin_name(12), 9));
    assert(builtin_index_from(builtin_name(12), 7) == builtin_index_from(builtin_name(12), 8));
    assert(builtin_index_from(builtin_name(12), 6) == builtin_index_from(builtin_name(12), 7));
    assert(builtin_index_from(builtin_name(12), 5) == builtin_index_from(builtin_name(12), 6));
    assert(builtin_index_from(builtin_name(12), 4) == builtin_index_from(builtin_name(12), 5));
    assert(builtin_index_from(builtin_name(12), 3) == builtin_index_from(builtin_name(12), 4));
    assert(builtin_index_from(builtin_name(12), 2) == builtin_index_from(builtin_name(12), 3));
    assert(builtin_index_from(builtin_name(12), 1) == builtin_index_from(builtin_name(12), 2));
    assert(builtin_index_from(builtin_name(12), 0) == builtin_index_from(builtin_name(12), 1));
}

proof fn lemma_index_of_builtin_13()
    ensures
        builtin_index_from(builtin_name(13), 0) == Some(13nat),
{
    reveal_strlit("AsyncGenerator");
    reveal_strlit("unknown");
    reveal_strlit("undefined");
    reveal_strlit("null");
    reveal_strlit("boolean");
    reveal_strlit("number");
    reveal_strlit("string");
    reveal_strlit("bigint");
    reveal_strlit("symbol");
    reveal_strlit("Function");
    reveal_strlit("object");
    reveal_strlit("Array");
    reveal_strlit("Promise");
    reveal_strlit("Generator");
    assert(builtin_name(13).len() != builtin_name(0).len());
    assert(builtin_name(13) != builtin_name(0));
    assert(builtin_name(13).len() != builtin_name(1).len());
    assert(builtin_name(13) != builtin_name(1));
    assert(builtin_name(13).len() != builtin_name(2).len());
    assert(builtin_name(13) != builtin_name(2));
    assert(builtin_name(13).len() != builtin_name(3).len());
    assert(builtin_name(13) != builtin_name(3));
    assert(builtin_name(13).len() != builtin_name(4).len());
    assert(builtin_name(13) != builtin_name(4));
    assert(builtin_name(13).len() != builtin_name(5).len());
    assert(builtin_name(13) != builtin_name(5));
    assert(builtin_name(13).len() != builtin_name(6).len());
    assert(builtin_name(13) != builtin_name(6));
    assert(builtin_name(13).len() != builtin_name(7).len());
    assert(builtin_name(13) != builtin_name(7));
    assert(builtin_name(13).len() != builtin_name(8).len());
    assert(builtin_name(13) != builtin_name(8));
    assert(builtin_name(13).len() != builtin_name(9).len());
    assert(builtin_name(13) != builtin_name(9));
    assert(builtin_name(13).len() != builtin_name(10).len());
    assert(builtin_name(13) != builtin_name(10));
    assert(builtin_name(13).len() != builtin_name(11).len());
    assert(builtin_name(13) != builtin_name(11));
    assert(builtin_name(13).len() != builtin_name(12).len());
    assert(builtin_name(13) != builtin_name(12));
    assert(builtin_index_from(builtin_name(13), 12) == builtin_index_from(builtin_name(13), 13));
    assert(builtin_index_from(builtin_name(13), 11) == builtin_index_from(builtin_name(13), 12));
    assert(builtin_index_from(builtin_name(13), 10) == builtin_index_from(builtin_name(13), 11));
    assert(builtin_index_from(builtin_name(13), 9) == builtin_index_from(builtin_name(13), 10));
    assert(builtin_index_from(builtin_name(13), 8) == builtin_index_from(builtin_name(13), 9));
    assert(builtin_index_from(builtin_name(13), 7) == builtin_index_from(builtin_name(13), 8));
    assert(builtin_index_from(builtin_name(13), 6) == builtin_index_from(builtin_name(13), 7));
    assert(builtin_index_from(builtin_name(13), 5) == builtin_index_from(builtin_name(13), 6));
    assert(builtin_index_from(builtin_name(13), 4) == builtin_index_from(builtin_name(13), 5));
    assert(builtin_index_from(builtin_name(13), 3) == builtin_index_from(builtin_name(13), 4));
    assert(builtin_index_from(builtin_name(13), 2) == builtin_index_from(builtin_name(13), 3));
    assert(builtin_index_from(builtin_name(13), 1) == builtin_index_from(builtin_name(13), 2));
    assert(builtin_index_from(builtin_name(13), 0) == builtin_index_from(builtin_name(13), 1));
}

proof fn lemma_index_of_builtin_14()
    ensures
        builtin_index_from(builtin_name(14), 0) == Some(14nat),
{
    reveal_strlit("Error");
    reveal_strlit("unknown");
    reveal_strlit("undefined");
    reveal_strlit("null");
    reveal_strlit("boolean");
    reveal_strlit("number");
    reveal_strlit("string");
    reveal_strlit("bigint");
    reveal_strlit("symbol");
    reveal_strlit("Function");
    reveal_strlit("object");
    reveal_strlit("Array");
    reveal_strlit("Promise");
    reveal_strlit("Generator");
    reveal_strlit("AsyncGenerator");
    assert(builtin_name(14).len() != builtin_name(0).len());
    assert(builtin_name(14) != builtin_name(0));
    assert(builtin_name(14).len() != builtin_name(1).len());
    assert(builtin_name(14) != builtin_name(1));
    assert(builtin_name(14).len() != builtin_name(2).len());
    assert(builtin_name(14) != builtin_name(2));
    assert(builtin_name(14).len() != builtin_name(3).len());
    assert(builtin_name(14) != builtin_name(3));
    assert(builtin_name(14).len() != builtin_name(4).len());
    assert(builtin_name(14) != builtin_name(4));
    assert(builtin_name(14).len() != builtin_name(5).len());
    assert(builtin_name(14) != builtin_name(5));
    assert(builtin_name(14).len() != builtin_name(6).len());
    assert(builtin_name(14) != builtin_name(6));
    assert(builtin_name(14).len() != builtin_name(7).len());
    assert(builtin_name(14) != builtin_name(7));
    assert(builtin_name(14).len() != builtin_name(8).len());
    assert(builtin_name(14) != builtin_name(8));
    assert(builtin_name(14).len() != builtin_name(9).len());
    assert(builtin_name(14) != builtin_name(9));
    assert(builtin_name(14)[0] != builtin_name(10)[0]);
    assert(builtin_name(14) != builtin_name(10));
    assert(builtin_name(14).len() != builtin_name(11).len());
    assert(builtin_name(14) != builtin_name(11));
    assert(builtin_name(14).len() != builtin_name(12).len());
    assert(builtin_name(14) != builtin_name(12));
    assert(builtin_name(14).len() != builtin_name(13).len());
    assert(builtin_name(14) != builtin_name(13));
    assert(builtin_index_from(builtin_name(14), 13) == builtin_index_from(builtin_name(14), 14));
    assert(builtin_index_from(builtin_name(14), 12) == builtin_index_from(builtin_name(14), 13));
    assert(builtin_index_from(builtin_name(14), 11) == builtin_index_from(builtin_name(14), 12));
    assert(builtin_index_from(builtin_name(14), 10) == builtin_index_from(builtin_name(14), 11));
    assert(builtin_index_from(builtin_name(14), 9) == builtin_index_from(builtin_name(14), 10));
    assert(builtin_index_from(builtin_name(14), 8) == builtin_index_from(builtin_name(14), 9));
    assert(builtin_index_from(builtin_name(14), 7) == builtin_index_from(builtin_name(14), 8));
    assert(builtin_index_from(builtin_name(14), 6) == builtin_index_from(builtin_name(14), 7));
    assert(builtin_index_from(builtin_name(14), 5) == builtin_index_from(builtin_name(14), 6));
    assert(builtin_index_from(builtin_name(14), 4) == builtin_index_from(builtin_name(14), 5));
    assert(builtin_index_from(builtin_name(14), 3) == builtin_index_from(builtin_name(14), 4));
    assert(builtin_index_from(builtin_name(14), 2) == builtin_index_from(builtin_name(14), 3));
    assert(builtin_index_from(builtin_name(14), 1) == builtin_index_from(builtin_name(14), 2));
    assert(builtin_index_from(builtin_name(14), 0) == builtin_index_from(builtin_name(14), 1));
}

proof fn lemma_index_of_builtin_15()
    ensures
        builtin_index_from(builtin_name(15), 0) == Some(15nat),
{
    reveal_strlit("TypeError");
    reveal_strlit("unknown");
    reveal_strlit("undefined");
    reveal_strlit("null");
    reveal_strlit("boolean");
    reveal_strlit("number");
    reveal_strlit("string");
    reveal_strlit("bigint");
    reveal_strlit("symbol");
    reveal_strlit("Function");
    reveal_strlit("object");
    reveal_strlit("Array");
    reveal_strlit("Promise");
    reveal_strlit("Generator");
    reveal_strlit("AsyncGenerator");
    reveal_strlit("Error");
    assert(builtin_name(15).len() != builtin_name(0).len());
    assert(builtin_name(15) != builtin_name(0));
    assert(builtin_name(15)[0] != builtin_name(1)[0]);
    assert(builtin_name(15) != builtin_name(1));
    assert(builtin_name(15).len() != builtin_name(2).len());
    assert(builtin_name(15) != builtin_name(2));
    assert(builtin_name(15).len() != builtin_name(3).len());
    assert(builtin_name(15) != builtin_name(3));
    assert(builtin_name(15).len() != builtin_name(4).len());
    assert(builtin_name(15) != builtin_name(4));
    assert(builtin_name(15).len() != builtin_name(5).len());
    assert(builtin_name(15) != builtin_name(5));
    assert(builtin_name(15).len() != builtin_name(6).len());
    assert(builtin_name(15) != builtin_name(6));
    assert(builtin_name(15).len() != builtin_name(7).len());
    assert(builtin_name(15) != builtin_name(7));
    assert(builtin_name(15).len() != builtin_name(8).len());
    assert(builtin_name(15) != builtin_name(8));
    assert(builtin_name(15).len() != builtin_name(9).len());
    assert(builtin_name(15) != builtin_name(9));
    assert(builtin_name(15).len() != builtin_name(10).len());
    assert(builtin_name(15) != builtin_name(10));
    assert(builtin_name(15).len() != builtin_name(11).len());
    assert(builtin_name(15) != builtin_name(11));
    assert(builtin_name(15)[0] != builtin_name(12)[0]);
    assert(builtin_name(15) != builtin_name(12));
    assert(builtin_name(15).len() != builtin_name(13).len());
    assert(builtin_name(15) != builtin_name(13));
    assert(builtin_name(15).len() != builtin_name(14).len());
    assert(builtin_name(15) != builtin_name(14));
    assert(builtin_index_from(builtin_name(15), 14) == builtin_index_from(builtin_name(15), 15));
    assert(builtin_index_from(builtin_name(15), 13) == builtin_index_from(builtin_name(15), 14));
    assert(builtin_index_from(builtin_name(15), 12) == builtin_index_from(builtin_name(15), 13));
    assert(builtin_index_from(builtin_name(15), 11) == builtin_index_from(builtin_name(15), 12));
    assert(builtin_index_from(builtin_name(15), 10) == builtin_index_from(builtin_name(15), 11));
    assert(builtin_index_from(builtin_name(15), 9) == builtin_index_from(builtin_name(15), 10));
    assert(builtin_index_from(builtin_name(15), 8) == builtin_index_from(builtin_name(15), 9));
    assert(builtin_index_from(builtin_name(15), 7) == builtin_index_from(builtin_name(15), 8));
    assert(builtin_index_from(builtin_name(15), 6) == builtin_index_from(builtin_name(15), 7));
    assert(builtin_index_from(builtin_name(15), 5) == builtin_index_from(builtin_name(15), 6));
    assert(builtin_index_from(builtin_name(15), 4) == builtin_index_from(builtin_name(15), 5));
    assert(builtin_index_from(builtin_name(15), 3) == builtin_index_from(builtin_name(15), 4));
    assert(builtin_index_from(builtin_name(15), 2) == builtin_index_from(builtin_name(15), 3));
    assert(builtin_index_from(builtin_name(15), 1) == builtin_index_from(builtin_name(15), 2));
    assert(builtin_index_from(builtin_name(15), 0) == builtin_index_from(builtin_name(15), 1));
}

proof fn lemma_index_of_builtin_16()
    ensures
        builtin_index_from(builtin_name(16), 0) == Some(16nat),
{
    reveal_strlit("RangeError");
    reveal_strlit("unknown");
    reveal_strlit("undefined");
    reveal_strlit("null");
    reveal_strlit("boolean");
    reveal_strlit("number");
    reveal_strlit("string");
    reveal_strlit("bigint");
    reveal_strlit("symbol");
    reveal_strlit("Function");
    reveal_strlit("object");
    reveal_strlit("Array");
    reveal_strlit("Promise");
    reveal_strlit("Generator");
    reveal_strlit("AsyncGenerator");
    reveal_strlit("Error");
    reveal_strlit("TypeError");
    assert(builtin_name(16).len() != builtin_name(0).len());
    assert(builtin_name(16) != builtin_name(0));
    assert(builtin_name(16).len() != builtin_name(1).len());
    assert(builtin_name(16) != builtin_name(1));
    assert(builtin_name(16).len() != builtin_name(2).len());
    assert(builtin_name(16) != builtin_name(2));
    assert(builtin_name(16).len() != builtin_name(3).len());
    assert(builtin_name(16) != builtin_name(3));
    assert(builtin_name(16).len() != builtin_name(4).len());
    assert(builtin_name(16) != builtin_name(4));
    assert(builtin_name(16).len() != builtin_name(5).len());
    assert(builtin_name(16) != builtin_name(5));
    assert(builtin_name(16).len() != builtin_name(6).len());
    assert(builtin_name(16) != builtin_name(6));
    assert(builtin_name(16).len() != builtin_name(7).len());
    assert(builtin_name(16) != builtin_name(7));
    assert(builtin_name(16).len() != builtin_name(8).len());
    assert(builtin_name(16) != builtin_name(8));
    assert(builtin_name(16).len() != builtin_name(9).len());
    assert(builtin_name(16) != builtin_name(9));
    assert(builtin_name(16).len() != builtin_name(10).len());
    assert(builtin_name(16) != builtin_name(10));
    assert(builtin_name(16).len() != builtin_name(11).len());
    assert(builtin_name(16) != builtin_name(11));
    assert(builtin_name(16).len() != builtin_name(12).len());
    assert(builtin_name(16) != builtin_name(12));
    assert(builtin_name(16).len() != builtin_name(13).len());
    assert(builtin_name(16) != builtin_name(13));
    assert(builtin_name(16).len() != builtin_name(14).len());
    assert(builtin_name(16) != builtin_name(14));
    assert(builtin_name(16).len() != builtin_name(15).len());
    assert(builtin_name(16) != builtin_name(15));
    assert(builtin_index_from(builtin_name(16), 15) == builtin_index_from(builtin_name(16), 16));
    assert(builtin_index_from(builtin_name(16), 14) == builtin_index_from(builtin_name(16), 15));
    assert(builtin_index_from(builtin_name(16), 13) == builtin_index_from(builtin_name(16), 14));
    assert(builtin_index_from(builtin_name(16), 12) == builtin_index_from(builtin_name(16), 13));
    assert(builtin_index_from(builtin_name(16), 11) == builtin_index_from(builtin_name(16), 12));
    assert(builtin_index_from(builtin_name(16), 10) == builtin_index_from(builtin_name(16), 11));
    assert(builtin_index_from(builtin_name(16), 9) == builtin_index_from(builtin_name(16), 10));
    assert(builtin_index_from(builtin_name(16), 8) == builtin_index_from(builtin_name(16), 9));
    assert(builtin_index_from(builtin_name(16), 7) == builtin_index_from(builtin_name(16), 8));
    assert(builtin_index_from(builtin_name(16), 6) == builtin_index_from(builtin_name(16), 7));
    assert(builtin_index_from(builtin_name(16), 5) == builtin_index_from(builtin_name(16), 6));
    assert(builtin_index_from(builtin_name(16), 4) == builtin_index_from(builtin_name(16), 5));
    assert(builtin_index_from(builtin_name(16), 3) == builtin_index_from(builtin_name(16), 4));
    assert(builtin_index_from(builtin_name(16), 2) == builtin_index_from(builtin_name(16), 3));
    assert(builtin_index_from(builtin_name(16), 1) == builtin_index_from(builtin_name(16), 2));
    assert(builtin_index_from(builtin_name(16), 0) == builtin_index_from(builtin_name(16), 1));
}

proof fn lemma_index_of_builtin_17()
    ensures
        builtin_index_from(builtin_name(17), 0) == Some(17nat),
{
    reveal_strlit("ReferenceError");
    reveal_strlit("unknown");
    reveal_strlit("undefined");
    reveal_strlit("null");
    reveal_strlit("boolean");
    reveal_strlit("number");
    reveal_strlit("string");
    reveal_strlit("bigint");
    reveal_strlit("symbol");
    reveal_strlit("Function");
    reveal_strlit("object");
    reveal_strlit("Array");
    reveal_strlit("Promise");
    reveal_strlit("Generator");
    reveal_strlit("AsyncGenerator");
    reveal_strlit("Error");
    reveal_strlit("TypeError");
    reveal_strlit("RangeError");
    assert(builtin_name(17).len() != builtin_name(0).len());
    assert(builtin_name(17) != builtin_name(0));
    assert(builtin_name(17).len() != builtin_name(1).len());
    assert(builtin_name(17) != builtin_name(1));
    assert(builtin_name(17).len() != builtin_name(2).len());
    assert(builtin_name(17) != builtin_name(2));
    assert(builtin_name(17).len() != builtin_name(3).len());
    assert(builtin_name(17) != builtin_name(3));
    assert(builtin_name(17).len() != builtin_name(4).len());
    assert(builtin_name(17) != builtin_name(4));
    assert(builtin_name(17).len() != builtin_name(5).len());
    assert(builtin_name(17) != builtin_name(5));
    assert(builtin_name(17).len() != builtin_name(6).len());
    assert(builtin_name(17) != builtin_name(6));
    assert(builtin_name(17).len() != builtin_name(7).len());
    assert(builtin_name(17) != builtin_name(7));
    assert(builtin_name(17).len() != builtin_name(8).len());
    assert(builtin_name(17) != builtin_name(8));
    assert(builtin_name(17).len() != builtin_name(9).len());
    assert(builtin_name(17) != builtin_name(9));
    assert(builtin_name(17).len() != builtin_name(10).len());
    assert(builtin_name(17) != builtin_name(10));
    assert(builtin_name(17).len() != builtin_name(11).len());
    assert(builtin_name(17) != builtin_name(11));
    assert(builtin_name(17).len() != builtin_name(12).len());
    assert(builtin_name(17) != builtin_name(12));
    assert(builtin_name(17)[0] != builtin_name(13)[0]);
    assert(builtin_name(17) != builtin_name(13));
    assert(builtin_name(17).len() != builtin_name(14).len());
    assert(builtin_name(17) != builtin_name(14));
    assert(builtin_name(17).len() != builtin_name(15).len());
    assert(builtin_name(17) != builtin_name(15));
    assert(builtin_name(17).len() != builtin_name(16).len());
    assert(builtin_name(17) != builtin_name(16));
    assert(builtin_index_from(builtin_name(17), 16) == builtin_index_from(builtin_name(17), 17));
    assert(builtin_index_from(builtin_name(17), 15) == builtin_index_from(builtin_name(17), 16));
    assert(builtin_index_from(builtin_name(17), 14) == builtin_index_from(builtin_name(17), 15));
    assert(builtin_index_from(builtin_name(17), 13) == builtin_index_from(builtin_name(17), 14));
    assert(builtin_index_from(builtin_name(17), 12) == builtin_index_from(builtin_name(17), 13));
    assert(builtin_index_from(builtin_name(17), 11) == builtin_index_from(builtin_name(17), 12));
    assert(builtin_index_from(builtin_name(17), 10) == builtin_index_from(builtin_name(17), 11));
    assert(builtin_index_from(builtin_name(17), 9) == builtin_index_from(builtin_name(17), 10));
    assert(builtin_index_from(builtin_name(17), 8) == builtin_index_from(builtin_name(17), 9));
    assert(builtin_index_from(builtin_name(17), 7) == builtin_index_from(builtin_name(17), 8));
    assert(builtin_index_from(builtin_name(17), 6) == builtin_index_from(builtin_name(17), 7));
    assert(builtin_index_from(builtin_name(17), 5) == builtin_index_from(builtin_name(17), 6));
    assert(builtin_index_from(builtin_name(17), 4) == builtin_index_from(builtin_name(17), 5));
    assert(builtin_index_from(builtin_name(17), 3) == builtin_index_from(builtin_name(17), 4));
    assert(builtin_index_from(builtin_name(17), 2) == builtin_index_from(builtin_name(17), 3));
    assert(builtin_index_from(builtin_name(17), 1) == builtin_index_from(builtin_name(17), 2));
    assert(builtin_index_from(builtin_name(17), 0) == builtin_index_from(builtin_name(17), 1));
}

proof fn lemma_index_of_builtin_18()
    ensures
        builtin_index_from(builtin_name(18), 0) == Some(18nat),
{
    reveal_strlit("SyntaxError");
    reveal_strlit("unknown");
    reveal_strlit("undefined");
    reveal_strlit("null");
    reveal_strlit("boolean");
    reveal_strlit("number");
    reveal_strlit("string");
    reveal_strlit("bigint");
    reveal_strlit("symbol");
    reveal_strlit("Function");
    reveal_strlit("object");
    reveal_strlit("Array");
    reveal_strlit("Promise");
    reveal_strlit("Generator");
    reveal_strlit("AsyncGenerator");
    reveal_strlit("Error");
    reveal_strlit("TypeError");
    reveal_strlit("RangeError");
    reveal_strlit("ReferenceError");
    assert(builtin_name(18).len() != builtin_name(0).len());
    assert(builtin_name(18) != builtin_name(0));
    assert(builtin_name(18).len() != builtin_name(1).len());
    assert(builtin_name(18) != builtin_name(1));
    assert(builtin_name(18).len() != builtin_name(2).len());
    assert(builtin_name(18) != builtin_name(2));
    assert(builtin_name(18).len() != builtin_name(3).len());
    assert(builtin_name(18) != builtin_name(3));
    assert(builtin_name(18).len() != builtin_name(4).len());
    assert(builtin_name(18) != builtin_name(4));
    assert(builtin_name(18).len() != builtin_name(5).len());
    assert(builtin_name(18) != builtin_name(5));
    assert(builtin_name(18).len() != builtin_name(6).len());
    assert(builtin_name(18) != builtin_name(6));
    assert(builtin_name(18).len() != builtin_name(7).len());
    assert(builtin_name(18) != builtin_name(7));
    assert(builtin_name(18).len() != builtin_name(8).len());
    assert(builtin_name(18) != builtin_name(8));
    assert(builtin_name(18).len() != builtin_name(9).len());
    assert(builtin_name(18) != builtin_name(9));
    assert(builtin_name(18).len() != builtin_name(10).len());
    assert(builtin_name(18) != builtin_name(10));
    assert(builtin_name(18).len() != builtin_name(11).len());
    assert(builtin_name(18) != builtin_name(11));
    assert(builtin_name(18).len() != builtin_name(12).len());
    assert(builtin_name(18) != builtin_name(12));
    assert(builtin_name(18).len() != builtin_name(13).len());
    assert(builtin_name(18) != builtin_name(13));
    assert(builtin_name(18).len() != builtin_name(14).len());
    assert(builtin_name(18) != builtin_name(14));
    assert(builtin_name(18).len() != builtin_name(15).len());
    assert(builtin_name(18) != builtin_name(15));
    assert(builtin_name(18).len() != builtin_name(16).len());
    assert(builtin_name(18) != builtin_name(16));
    assert(builtin_name(18).len() != builtin_name(17).len());
    assert(builtin_name(18) != builtin_name(17));
    assert(builtin_index_from(builtin_name(18), 17) == builtin_index_from(builtin_name(18), 18));
    assert(builtin_index_from(builtin_name(18), 16) == builtin_index_from(builtin_name(18), 17));
    assert(builtin_index_from(builtin_name(18), 15) == builtin_index_from(builtin_name(18), 16));
    assert(builtin_index_from(builtin_name(18), 14) == builtin_index_from(builtin_name(18), 15));
    assert(builtin_index_from(builtin_name(18), 13) == builtin_index_from(builtin_name(18), 14));
    assert(builtin_index_from(builtin_name(18), 12) == builtin_index_from(builtin_name(18), 13));
    assert(builtin_index_from(builtin_name(18), 11) == builtin_index_from(builtin_name(18), 12));
    assert(builtin_index_from(builtin_name(18), 10) == builtin_index_from(builtin_name(18), 11));
    assert(builtin_index_from(builtin_name(18), 9) == builtin_index_from(builtin_name(18), 10));
    assert(builtin_index_from(builtin_name(18), 8) == builtin_index_from(builtin_name(18), 9));
    assert(builtin_index_from(builtin_name(18), 7) == builtin_index_from(builtin_name(18), 8));
    assert(builtin_index_from(builtin_name(18), 6) == builtin_index_from(builtin_name(18), 7));
    assert(builtin_index_from(builtin_name(18), 5) == builtin_index_from(builtin_name(18), 6));
    assert(builtin_index_from(builtin_name(18), 4) == builtin_index_from(builtin_name(18), 5));
    assert(builtin_index_from(builtin_name(18), 3) == builtin_index_from(builtin_name(18), 4));
    assert(builtin_index_from(builtin_name(18), 2) == builtin_index_from(builtin_name(18), 3));
    assert(builtin_index_from(builtin_name(18), 1) == builtin_index_from(builtin_name(18), 2));
    assert(builtin_index_from(builtin_name(18), 0) == builtin_index_from(builtin_name(18), 1));
}

proof fn lemma_index_of_builtin_19()
    ensures
        builtin_index_from(builtin_name(19), 0) == Some(19nat),
{
    reveal_strlit("URIError");
    reveal_strlit("unknown");
    reveal_strlit("undefined");
    reveal_strlit("null");
    reveal_strlit("boolean");
    reveal_strlit("number");
    reveal_strlit("string");
    reveal_strlit("bigint");
    reveal_strlit("symbol");
    reveal_strlit("Function");
    reveal_strlit("object");
    reveal_strlit("Array");
    reveal_strlit("Promise");
    reveal_strlit("Generator");
    reveal_strlit("AsyncGenerator");
    reveal_strlit("Error");
    reveal_strlit("TypeError");
    reveal_strlit("RangeError");
    reveal_strlit("ReferenceError");
    reveal_strlit("SyntaxError");
    assert(builtin_name(19).len() != builtin_name(0).len());
    assert(builtin_name(19) != builtin_name(0));
    assert(builtin_name(19).len() != builtin_name(1).len());
    assert(builtin_name(19) != builtin_name(1));
    assert(builtin_name(19).len() != builtin_name(2).len());
    assert(builtin_name(19) != builtin_name(2));
    assert(builtin_name(19).len() != builtin_name(3).len());
    assert(builtin_name(19) != builtin_name(3));
    assert(builtin_name(19).len() != builtin_name(4).len());
    assert(builtin_name(19) != builtin_name(4));
    assert(builtin_name(19).len() != builtin_name(5).len());
    assert(builtin_name(19) != builtin_name(5));
    assert(builtin_name(19).len() != builtin_name(6).len());
    assert(builtin_name(19) != builtin_name(6));
    assert(builtin_name(19).len() != builtin_name(7).len());
    assert(builtin_name(19) != builtin_name(7));
    assert(builtin_name(19)[0] != builtin_name(8)[0]);
    assert(builtin_name(19) != builtin_name(8));
    assert(builtin_name(19).len() != builtin_name(9).len());
    assert(builtin_name(19) != builtin_name(9));
    assert(builtin_name(19).len() != builtin_name(10).len());
    assert(builtin_name(19) != builtin_name(10));
    assert(builtin_name(19).len() != builtin_name(11).len());
    assert(builtin_name(19) != builtin_name(11));
    assert(builtin_name(19).len() != builtin_name(12).len());
    assert(builtin_name(19) != builtin_name(12));
    assert(builtin_name(19).len() != builtin_name(13).len());
    assert(builtin_name(19) != builtin_name(13));
    assert(builtin_name(19).len() != builtin_name(14).len());
    assert(builtin_name(19) != builtin_name(14));
    assert(builtin_name(19).len() != builtin_name(15).len());
    assert(builtin_name(19) != builtin_name(15));
    assert(builtin_name(19).len() != builtin_name(16).len());
    assert(builtin_name(19) != builtin_name(16));
    assert(builtin_name(19).len() != builtin_name(17).len());
    assert(builtin_name(19) != builtin_name(17));
    assert(builtin_name(19).len() != builtin_name(18).len());
    assert(builtin_name(19) != builtin_name(18));
    assert(builtin_index_from(builtin_name(19), 18) == builtin_index_from(builtin_name(19), 19));
    assert(builtin_index_from(builtin_name(19), 17) == builtin_index_from(builtin_name(19), 18));
    assert(builtin_index_from(builtin_name(19), 16) == builtin_index_from(builtin_name(19), 17));
    assert(builtin_index_from(builtin_name(19), 15) == builtin_index_from(builtin_name(19), 16));
    assert(builtin_index_from(builtin_name(19), 14) == builtin_index_from(builtin_name(19), 15));
    assert(builtin_index_from(builtin_name(19), 13) == builtin_index_from(builtin_name(19), 14));
    assert(builtin_index_from(builtin_name(19), 12) == builtin_index_from(builtin_name(19), 13));
    assert(builtin_index_from(builtin_name(19), 11) == builtin_index_from(builtin_name(19), 12));
    assert(builtin_index_from(builtin_name(19), 10) == builtin_index_from(builtin_name(19), 11));
    assert(builtin_index_from(builtin_name(19), 9) == builtin_index_from(builtin_name(19), 10));
    assert(builtin_index_from(builtin_name(19), 8) == builtin_index_from(builtin_name(19), 9));
    assert(builtin_index_from(builtin_name(19), 7) == builtin_index_from(builtin_name(19), 8));
    assert(builtin_index_from(builtin_name(19), 6) == builtin_index_from(builtin_name(19), 7));
    assert(builtin_index_from(builtin_name(19), 5) == builtin_index_from(builtin_name(19), 6));
    assert(builtin_index_from(builtin_name(19), 4) == builtin_index_from(builtin_name(19), 5));
    assert(builtin_index_from(builtin_name(19), 3) == builtin_index_from(builtin_name(19), 4));
    assert(builtin_index_from(builtin_name(19), 2) == builtin_index_from(builtin_name(19), 3));
    assert(builtin_index_from(builtin_name(19), 1) == builtin_index_from(builtin_name(19), 2));
    assert(builtin_index_from(builtin_name(19), 0) == builtin_index_from(builtin_name(19), 1));
}

proof fn lemma_index_of_builtin_20()
    ensures
        builtin_index_from(builtin_name(20), 0) == Some(20nat),
{
    reveal_strlit("EvalError");
    reveal_strlit("unknown");
    reveal_strlit("undefined");
    reveal_strlit("null");
    reveal_strlit("boolean");
    reveal_strlit("number");
    reveal_strlit("string");
    reveal_strlit("bigint");
    reveal_strlit("symbol");
    reveal_strlit("Function");
    reveal_strlit("object");
    reveal_strlit("Array");
    reveal_strlit("Promise");
    reveal_strlit("Generator");
    reveal_strlit("AsyncGenerator");
    reveal_strlit("Error");
    reveal_strlit("TypeError");
    reveal_strlit("RangeError");
    reveal_strlit("ReferenceError");
    reveal_strlit("SyntaxError");
    reveal_strlit("URIError");
    assert(builtin_name(20).len() != builtin_name(0).len());
    assert(builtin_name(20) != builtin_name(0));
    assert(builtin_name(20)[0] != builtin_name(1)[0]);
    assert(builtin_name(20) != builtin_name(1));
    assert(builtin_name(20).len() != builtin_name(2).len());
    assert(builtin_name(20) != builtin_name(2));
    assert(builtin_name(20).len() != builtin_name(3).len());
    assert(builtin_name(20) != builtin_name(3));
    assert(builtin_name(20).len() != builtin_name(4).len());
    assert(builtin_name(20) != builtin_name(4));
    assert(builtin_name(20).len() != builtin_name(5).len());
    assert(builtin_name(20) != builtin_name(5));
    assert(builtin_name(20).len() != builtin_name(6).len());
    assert(builtin_name(20) != builtin_name(6));
    assert(builtin_name(20).len() != builtin_name(7).len());
    assert(builtin_name(20) != builtin_name(7));
    assert(builtin_name(20).len() != builtin_name(8).len());
    assert(builtin_name(20) != builtin_name(8));
    assert(builtin_name(20).len() != builtin_name(9).len());
    assert(builtin_name(20) != builtin_name(9));
    assert(builtin_name(20).len() != builtin_name(10).len());
    assert(builtin_name(20) != builtin_name(10));
    assert(builtin_name(20).len() != builtin_name(11).len());
    assert(builtin_name(20) != builtin_name(11));
    assert(builtin_name(20)[0] != builtin_name(12)[0]);
    assert(builtin_name(20) != builtin_name(12));
    assert(builtin_name(20).len() != builtin_name(13).len());
    assert(builtin_name(20) != builtin_name(13));
    assert(builtin_name(20).len() != builtin_name(14).len());
    assert(builtin_name(20) != builtin_name(14));
    assert(builtin_name(20)[0] != builtin_name(15)[0]);
    assert(builtin_name(20) != builtin_name(15));
    assert(builtin_name(20).len() != builtin_name(16).len());
    assert(builtin_name(20) != builtin_name(16));
    assert(builtin_name(20).len() != builtin_name(17).len());
    assert(builtin_name(20) != builtin_name(17));
    assert(builtin_name(20).len() != builtin_name(18).len());
    assert(builtin_name(20) != builtin_name(18));
    assert(builtin_name(20).len() != builtin_name(19).len());
    assert(builtin_name(20) != builtin_name(19));
    assert(builtin_index_from(builtin_name(20), 19) == builtin_index_from(builtin_name(20), 20));
    assert(builtin_index_from(builtin_name(20), 18) == builtin_index_from(builtin_name(20), 19));
    assert(builtin_index_from(builtin_name(20), 17) == builtin_index_from(builtin_name(20), 18));
    assert(builtin_index_from(builtin_name(20), 16) == builtin_index_from(builtin_name(20), 17));
    assert(builtin_index_from(builtin_name(20), 15) == builtin_index_from(builtin_name(20), 16));
    assert(builtin_index_from(builtin_name(20), 14) == builtin_index_from(builtin_name(20), 15));
    assert(builtin_index_from(builtin_name(20), 13) == builtin_index_from(builtin_name(20), 14));
    assert(builtin_index_from(builtin_name(20), 12) == builtin_index_from(builtin_name(20), 13));
    assert(builtin_index_from(builtin_name(20), 11) == builtin_index_from(builtin_name(20), 12));
    assert(builtin_index_from(builtin_name(20), 10) == builtin_index_from(builtin_name(20), 11));
    assert(builtin_index_from(builtin_name(20), 9) == builtin_index_from(builtin_name(20), 10));
    assert(builtin_index_from(builtin_name(20), 8) == builtin_index_from(builtin_name(20), 9));
    assert(builtin_index_from(builtin_name(20), 7) == builtin_index_from(builtin_name(20), 8));
    assert(builtin_index_from(builtin_name(20), 6) == builtin_index_from(builtin_name(20), 7));
    assert(builtin_index_from(builtin_name(20), 5) == builtin_index_from(builtin_name(20), 6));
    assert(builtin_index_from(builtin_name(20), 4) == builtin_index_from(builtin_name(20), 5));
    assert(builtin_index_from(builtin_name(20), 3) == builtin_index_from(builtin_name(20), 4));
    assert(builtin_index_from(builtin_name(20), 2) == builtin_index_from(builtin_name(20), 3));
    assert(builtin_index_from(builtin_name(20), 1) == builtin_index_from(builtin_name(20), 2));
    assert(builtin_index_from(builtin_name(20), 0) == builtin_index_from(builtin_name(20), 1));
}

proof fn lemma_index_of_builtin_21()
    ensures
        builtin_index_from(builtin_name(21), 0) == Some(21nat),
{
    reveal_strlit("AggregateError");
    reveal_strlit("unknown");
    reveal_strlit("undefined");
    reveal_strlit("null");
    reveal_strlit("boolean");
    reveal_strlit("number");
    reveal_strlit("string");
    reveal_strlit("bigint");
    reveal_strlit("symbol");
    reveal_strlit("Function");
    reveal_strlit("object");
    reveal_strlit("Array");
    reveal_strlit("Promise");
    reveal_strlit("Generator");
    reveal_strlit("AsyncGenerator");
    reveal_strlit("Error");
    reveal_strlit("TypeError");
    reveal_strlit("RangeError");
    reveal_strlit("ReferenceError");
    reveal_strlit("SyntaxError");
    reveal_strlit("URIError");
    reveal_strlit("EvalError");
    assert(builtin_name(21).len() != builtin_name(0).len());
    assert(builtin_name(21) != builtin_name(0));
    assert(builtin_name(21).len() != builtin_name(1).len());
    assert(builtin_name(21) != builtin_name(1));
    assert(builtin_name(21).len() != builtin_name(2).len());
    assert(builtin_name(21) != builtin_name(2));
    assert(builtin_name(21).len() != builtin_name(3).len());
    assert(builtin_name(21) != builtin_name(3));
    assert(builtin_name(21).len() != builtin_name(4).len());
    assert(builtin_name(21) != builtin_name(4));
    assert(builtin_name(21).len() != builtin_name(5).len());
    assert(builtin_name(21) != builtin_name(5));
    assert(builtin_name(21).len() != builtin_name(6).len());
    assert(builtin_name(21) != builtin_name(6));
    assert(builtin_name(21).len() != builtin_name(7).len());
    assert(builtin_name(21) != builtin_name(7));
    assert(builtin_name(21).len() != builtin_name(8).len());
    assert(builtin_name(21) != builtin_name(8));
    assert(builtin_name(21).len() != builtin_name(9).len());
    assert(builtin_name(21) != builtin_name(9));
    assert(builtin_name(21).len() != builtin_name(10).len());
    assert(builtin_name(21) != builtin_name(10));
    assert(builtin_name(21).len() != builtin_name(11).len());
    assert(builtin_name(21) != builtin_name(11));
    assert(builtin_name(21).len() != builtin_name(12).len());
    assert(builtin_name(21) != builtin_name(12));
    assert(builtin_name(21)[1] != builtin_name(13)[1]);
    assert(builtin_name(21) != builtin_name(13));
    assert(builtin_name(21).len() != builtin_name(14).len());
    assert(builtin_name(21) != builtin_name(14));
    assert(builtin_name(21).len() != builtin_name(15).len());
    assert(builtin_name(21) != builtin_name(15));
    assert(builtin_name(21).len() != builtin_name(16).len());
    assert(builtin_name(21) != builtin_name(16));
    assert(builtin_name(21)[0] != builtin_name(17)[0]);
    assert(builtin_name(21) != builtin_name(17));
    assert(builtin_name(21).len() != builtin_name(18).len());
    assert(builtin_name(21) != builtin_name(18));
    assert(builtin_name(21).len() != builtin_name(19).len());
    assert(builtin_name(21) != builtin_name(19));
    assert(builtin_name(21).len() != builtin_name(20).len());
    assert(builtin_name(21) != builtin_name(20));
    assert(builtin_index_from(builtin_name(21), 20) == builtin_index_from(builtin_name(21), 21));
    assert(builtin_index_from(builtin_name(21), 19) == builtin_index_from(builtin_name(21), 20));
    assert(builtin_index_from(builtin_name(21), 18) == builtin_index_from(builtin_name(21), 19));
    assert(builtin_index_from(builtin_name(21), 17) == builtin_index_from(builtin_name(21), 18));
    assert(builtin_index_from(builtin_name(21), 16) == builtin_index_from(builtin_name(21), 17));
    assert(builtin_index_from(builtin_name(21), 15) == builtin_index_from(builtin_name(21), 16));
    assert(builtin_index_from(builtin_name(21), 14) == builtin_index_from(builtin_name(21), 15));
    assert(builtin_index_from(builtin_name(21), 13) == builtin_index_from(builtin_name(21), 14));
    assert(builtin_index_from(builtin_name(21), 12) == builtin_index_from(builtin_name(21), 13));
    assert(builtin_index_from(builtin_name(21), 11) == builtin_index_from(builtin_name(21), 12));
    assert(builtin_index_from(builtin_name(21), 10) == builtin_index_from(builtin_name(21), 11));
    assert(builtin_index_from(builtin_name(21), 9) == builtin_index_from(builtin_name(21), 10));
    assert(builtin_index_from(builtin_name(21), 8) == builtin_index_from(builtin_name(21), 9));
    assert(builtin_index_from(builtin_name(21), 7) == builtin_index_from(builtin_name(21), 8));
    assert(builtin_index_from(builtin_name(21), 6) == builtin_index_from(builtin_name(21), 7));
    assert(builtin_index_from(builtin_name(21), 5) == builtin_index_from(builtin_name(21), 6));
    assert(builtin_index_from(builtin_name(21), 4) == builtin_index_from(builtin_name(21), 5));
    assert(builtin_index_from(builtin_name(21), 3) == builtin_index_from(builtin_name(21), 4));
    assert(builtin_index_from(builtin_name(21), 2) == builtin_index_from(builtin_name(21), 3));
    assert(builtin_index_from(builtin_name(21), 1) == builtin_index_from(builtin_name(21), 2));
    assert(builtin_index_from(builtin_name(21), 0) == builtin_index_from(builtin_name(21), 1));
}

proof fn lemma_index_of_builtin_22()
    ensures
        builtin_index_from(builtin_name(22), 0) == Some(22nat),
{
    reveal_strlit("DataView");
    reveal_strlit("unknown");
    reveal_strlit("undefined");
    reveal_strlit("null");
    reveal_strlit("boolean");
    reveal_strlit("number");
    reveal_strlit("string");
    reveal_strlit("bigint");
    reveal_strlit("symbol");
    reveal_strlit("Function");
    reveal_strlit("object");
    reveal_strlit("Array");
    reveal_strlit("Promise");
    reveal_strlit("Generator");
    reveal_strlit("AsyncGenerator");
    reveal_strlit("Error");
    reveal_strlit("TypeError");
    reveal_strlit("RangeError");
    reveal_strlit("ReferenceError");
    reveal_strlit("SyntaxError");
    reveal_strlit("URIError");
    reveal_strlit("EvalError");
    reveal_strlit("AggregateError");
    assert(builtin_name(22).len() != builtin_name(0).len());
    assert(builtin_name(22) != builtin_name(0));
    assert(builtin_name(22).len() != builtin_name(1).len());
    assert(builtin_name(22) != builtin_name(1));
    assert(builtin_name(22).len() != builtin_name(2).len());
    assert(builtin_name(22) != builtin_name(2));
    assert(builtin_name(22).len() != builtin_name(3).len());
    assert(builtin_name(22) != builtin_name(3));
    assert(builtin_name(22).len() != builtin_name(4).len());
    assert(builtin_name(22) != builtin_name(4));
    assert(builtin_name(22).len() != builtin_name(5).len());
    assert(builtin_name(22) != builtin_name(5));
    assert(builtin_name(22).len() != builtin_name(6).len());
    assert(builtin_name(22) != builtin_name(6));
    assert(builtin_name(22).len() != builtin_name(7).len());
    assert(builtin_name(22) != builtin_name(7));
    assert(builtin_name(22)[0] != builtin_name(8)[0]);
    assert(builtin_name(22) != builtin_name(8));
    assert(builtin_name(22).len() != builtin_name(9).len());
    assert(builtin_name(22) != builtin_name(9));
    assert(builtin_name(22).len() != builtin_name(10).len());
    assert(builtin_name(22) != builtin_name(10));
    assert(builtin_name(22).len() != builtin_name(11).len());
    assert(builtin_name(22) != builtin_name(11));
    assert(builtin_name(22).len() != builtin_name(12).len());
    assert(builtin_name(22) != builtin_name(12));
    assert(builtin_name(22).len() != builtin_name(13).len());
    assert(builtin_name(22) != builtin_name(13));
    assert(builtin_name(22).len() != builtin_name(14).len());
    assert(builtin_name(22) != builtin_name(14));
    assert(builtin_name(22).len() != builtin_name(15).len());
    assert(builtin_name(22) != builtin_name(15));
    assert(builtin_name(22).len() != builtin_name(16).len());
    assert(builtin_name(22) != builtin_name(16));
    assert(builtin_name(22).len() != builtin_name(17).len());
    assert(builtin_name(22) != builtin_name(17));
    assert(builtin_name(22).len() != builtin_name(18).len());
    assert(builtin_name(22) != builtin_name(18));
    assert(builtin_name(22)[0] != builtin_name(19)[0]);
    assert(builtin_name(22) != builtin_name(19));
    assert(builtin_name(22).len() != builtin_name(20).len());
    assert(builtin_name(22) != builtin_name(20));
    assert(builtin_name(22).len() != builtin_name(21).len());
    assert(builtin_name(22) != builtin_name(21));
    assert(builtin_index_from(builtin_name(22), 21) == builtin_index_from(builtin_name(22), 22));
    assert(builtin_index_from(builtin_name(22), 20) == builtin_index_from(builtin_name(22), 21));
    assert(builtin_index_from(builtin_name(22), 19) == builtin_index_from(builtin_name(22), 20));
    assert(builtin_index_from(builtin_name(22), 18) == builtin_index_from(builtin_name(22), 19));
    assert(builtin_index_from(builtin_name(22), 17) == builtin_index_from(builtin_name(22), 18));
    assert(builtin_index_from(builtin_name(22), 16) == builtin_index_from(builtin_name(22), 17));
    assert(builtin_index_from(builtin_name(22), 15) == builtin_index_from(builtin_name(22), 16));
    assert(builtin_index_from(builtin_name(22), 14) == builtin_index_from(builtin_name(22), 15));
    assert(builtin_index_from(builtin_name(22), 13) == builtin_index_from(builtin_name(22), 14));
    assert(builtin_index_from(builtin_name(22), 12) == builtin_index_from(builtin_name(22), 13));
    assert(builtin_index_from(builtin_name(22), 11) == builtin_index_from(builtin_name(22), 12));
    assert(builtin_index_from(builtin_name(22), 10) == builtin_index_from(builtin_name(22), 11));
    assert(builtin_index_from(builtin_name(22), 9) == builtin_index_from(builtin_name(22), 10));
    assert(builtin_index_from(builtin_name(22), 8) == builtin_index_from(builtin_name(22), 9));
    assert(builtin_index_from(builtin_name(22), 7) == builtin_index_from(builtin_name(22), 8));
    assert(builtin_index_from(builtin_name(22), 6) == builtin_index_from(builtin_name(22), 7));
    assert(builtin_index_from(builtin_name(22), 5) == builtin_index_from(builtin_name(22), 6));
    assert(builtin_index_from(builtin_name(22), 4) == builtin_index_from(builtin_name(22), 5));
    assert(builtin_index_from(builtin_name(22), 3) == builtin_index_from(builtin_name(22), 4));
    assert(builtin_index_from(builtin_name(22), 2) == builtin_index_from(builtin_name(22), 3));
    assert(builtin_index_from(builtin_name(22), 1) == builtin_index_from(builtin_name(22), 2));
    assert(builtin_index_from(builtin_name(22), 0) == builtin_index_from(builtin_name(22), 1));
}

proof fn lemma_index_of_builtin_23()
    ensures
        builtin_index_from(builtin_name(23), 0) == Some(23nat),
{
    reveal_strlit("Uint8Array");
    reveal_strlit("unknown");
    reveal_strlit("undefined");
    reveal_strlit("null");
    reveal_strlit("boolean");
    reveal_strlit("number");
    reveal_strlit("string");
    reveal_strlit("bigint");
    reveal_strlit("symbol");
    reveal_strlit("Function");
    reveal_strlit("object");
    reveal_strlit("Array");
    reveal_strlit("Promise");
    reveal_strlit("Generator");
    reveal_strlit("AsyncGenerator");
    reveal_strlit("Error");
    reveal_strlit("TypeError");
    reveal_strlit("RangeError");
    reveal_strlit("ReferenceError");
    reveal_strlit("SyntaxError");
    reveal_strlit("URIError");
    reveal_strlit("EvalError");
    reveal_strlit("AggregateError");
    reveal_strlit("DataView");
    assert(builtin_name(23).len() != builtin_name(0).len());
    assert(builtin_name(23) != builtin_name(0));
    assert(builtin_name(23).len() != builtin_name(1).len());
    assert(builtin_name(23) != builtin_name(1));
    assert(builtin_name(23).len() != builtin_name(2).len());
    assert(builtin_name(23) != builtin_name(2));
    assert(builtin_name(23).len() != builtin_name(3).len());
    assert(builtin_name(23) != builtin_name(3));
    assert(builtin_name(23).len() != builtin_name(4).len());
    assert(builtin_name(23) != builtin_name(4));
    assert(builtin_name(23).len() != builtin_name(5).len());
    assert(builtin_name(23) != builtin_name(5));
    assert(builtin_name(23).len() != builtin_name(6).len());
    assert(builtin_name(23) != builtin_name(6));
    assert(builtin_name(23).len() != builtin_name(7).len());
    assert(builtin_name(23) != builtin_name(7));
    assert(builtin_name(23).len() != builtin_name(8).len());
    assert(builtin_name(23) != builtin_name(8));
    assert(builtin_name(23).len() != builtin_name(9).len());
    assert(builtin_name(23) != builtin_name(9));
    assert(builtin_name(23).len() != builtin_name(10).len());
    assert(builtin_name(23) != builtin_name(10));
    assert(builtin_name(23).len() != builtin_name(11).len());
    assert(builtin_name(23) != builtin_name(11));
    assert(builtin_name(23).len() != builtin_name(12).len());
    assert(builtin_name(23) != builtin_name(12));
    assert(builtin_name(23).len() != builtin_name(13).len());
    assert(builtin_name(23) != builtin_name(13));
    assert(builtin_name(23).len() != builtin_name(14).len());
    assert(builtin_name(23) != builtin_name(14));
    assert(builtin_name(23).len() != builtin_name(15).len());
    assert(builtin_name(23) != builtin_name(15));
    assert(builtin_name(23)[0] != builtin_name(16)[0]);
    assert(builtin_name(23) != builtin_name(16));
    assert(builtin_name(23).len() != builtin_name(17).len());
    assert(builtin_name(23) != builtin_name(17));
    assert(builtin_name(23).len() != builtin_name(18).len());
    assert(builtin_name(23) != builtin_name(18));
    assert(builtin_name(23).len() != builtin_name(19).len());
    assert(builtin_name(23) != builtin_name(19));
    assert(builtin_name(23).len() != builtin_name(20).len());
    assert(builtin_name(23) != builtin_name(20));
    assert(builtin_name(23).len() != builtin_name(21).len());
    assert(builtin_name(23) != builtin_name(21));
    assert(builtin_name(23).len() != builtin_name(22).len());
    assert(builtin_name(23) != builtin_name(22));
    assert(builtin_index_from(builtin_name(23), 22) == builtin_index_from(builtin_name(23), 23));
    assert(builtin_index_from(builtin_name(23), 21) == builtin_index_from(builtin_name(23), 22));
    assert(builtin_index_from(builtin_name(23), 20) == builtin_index_from(builtin_name(23), 21));
    assert(builtin_index_from(builtin_name(23), 19) == builtin_index_from(builtin_name(23), 20));
    assert(builtin_index_from(builtin_name(23), 18) == builtin_index_from(builtin_name(23), 19));
    assert(builtin_index_from(builtin_name(23), 17) == builtin_index_from(builtin_name(23), 18));
    assert(builtin_index_from(builtin_name(23), 16) == builtin_index_from(builtin_name(23), 17));
    assert(builtin_index_from(builtin_name(23), 15) == builtin_index_from(builtin_name(23), 16));
    assert(builtin_index_from(builtin_name(23), 14) == builtin_index_from(builtin_name(23), 15));
    assert(builtin_index_from(builtin_name(23), 13) == builtin_index_from(builtin_name(23), 14));
    assert(builtin_index_from(builtin_name(23), 12) == builtin_index_from(builtin_name(23), 13));
    assert(builtin_index_from(builtin_name(23), 11) == builtin_index_from(builtin_name(23), 12));
    assert(builtin_index_from(builtin_name(23), 10) == builtin_index_from(builtin_name(23), 11));
    assert(builtin_index_from(builtin_name(23), 9) == builtin_index_from(builtin_name(23), 10));
    assert(builtin_index_from(builtin_name(23), 8) == builtin_index_from(builtin_name(23), 9));
    assert(builtin_index_from(builtin_name(23), 7) == builtin_index_from(builtin_name(23), 8));
    assert(builtin_index_from(builtin_name(23), 6) == builtin_index_from(builtin_name(23), 7));
    assert(builtin_index_from(builtin_name(23), 5) == builtin_index_from(builtin_name(23), 6));
    assert(builtin_index_from(builtin_name(23), 4) == builtin_index_from(builtin_name(23), 5));
    assert(builtin_index_from(builtin_name(23), 3) == builtin_index_from(builtin_name(23), 4));
    assert(builtin_index_from(builtin_name(23), 2) == builtin_index_from(builtin_name(23), 3));
    assert(builtin_index_from(builtin_name(23), 1) == builtin_index_from(builtin_name(23), 2));
    assert(builtin_index_from(builtin_name(23), 0) == builtin_index_from(builtin_name(23), 1));
}

proof fn lemma_index_of_builtin_24()
    ensures
        builtin_index_from(builtin_name(24), 0) == Some(24nat),
{
    reveal_strlit("ArrayBuffer");
    reveal_strlit("unknown");
    reveal_strlit("undefined");
    reveal_strlit("null");
    reveal_strlit("boolean");
    reveal_strlit("number");
    reveal_strlit("string");
    reveal_strlit("bigint");
    reveal_strlit("symbol");
    reveal_strlit("Function");
    reveal_strlit("object");
    reveal_strlit("Array");
    reveal_strlit("Promise");
    reveal_strlit("Generator");
    reveal_strlit("AsyncGenerator");
    reveal_strlit("Error");
    reveal_strlit("TypeError");
    reveal_strlit("RangeError");
    reveal_strlit("ReferenceError");
    reveal_strlit("SyntaxError");
    reveal_strlit("URIError");
    reveal_strlit("EvalError");
    reveal_strlit("AggregateError");
    reveal_strlit("DataView");
    reveal_strlit("Uint8Array");
    assert(builtin_name(24).len() != builtin_name(0).len());
    assert(builtin_name(24) != builtin_name(0));
    assert(builtin_name(24).len() != builtin_name(1).len());
    assert(builtin_name(24) != builtin_name(1));
    assert(builtin_name(24).len() != builtin_name(2).len());
    assert(builtin_name(24) != builtin_name(2));
    assert(builtin_name(24).len() != builtin_name(3).len());
    assert(builtin_name(24) != builtin_name(3));
    assert(builtin_name(24).len() != builtin_name(4).len());
    assert(builtin_name(24) != builtin_name(4));
    assert(builtin_name(24).len() != builtin_name(5).len());
    assert(builtin_name(24) != builtin_name(5));
    assert(builtin_name(24).len() != builtin_name(6).len());
    assert(builtin_name(24) != builtin_name(6));
    assert(builtin_name(24).len() != builtin_name(7).len());
    assert(builtin_name(24) != builtin_name(7));
    assert(builtin_name(24).len() != builtin_name(8).len());
    assert(builtin_name(24) != builtin_name(8));
    assert(builtin_name(24).len() != builtin_name(9).len());
    assert(builtin_name(24) != builtin_name(9));
    assert(builtin_name(24).len() != builtin_name(10).len());
    assert(builtin_name(24) != builtin_name(10));
    assert(builtin_name(24).len() != builtin_name(11).len());
    assert(builtin_name(24) != builtin_name(11));
    assert(builtin_name(24).len() != builtin_name(12).len());
    assert(builtin_name(24) != builtin_name(12));
    assert(builtin_name(24).len() != builtin_name(13).len());
    assert(builtin_name(24) != builtin_name(13));
    assert(builtin_name(24).len() != builtin_name(14).len());
    assert(builtin_name(24) != builtin_name(14));
    assert(builtin_name(24).len() != builtin_name(15).len());
    assert(builtin_name(24) != builtin_name(15));
    assert(builtin_name(24).len() != builtin_name(16).len());
    assert(builtin_name(24) != builtin_name(16));
    assert(builtin_name(24).len() != builtin_name(17).len());
    assert(builtin_name(24) != builtin_name(17));
    assert(builtin_name(24)[0] != builtin_name(18)[0]);
    assert(builtin_name(24) != builtin_name(18));
    assert(builtin_name(24).len() != builtin_name(19).len());
    assert(builtin_name(24) != builtin_name(19));
    assert(builtin_name(24).len() != builtin_name(20).len());
    assert(builtin_name(24) != builtin_name(20));
    assert(builtin_name(24).len() != builtin_name(21).len());
    assert(builtin_name(24) != builtin_name(21));
    assert(builtin_name(24).len() != builtin_name(22).len());
    assert(builtin_name(24) != builtin_name(22));
    assert(builtin_name(24).len() != builtin_name(23).len());
    assert(builtin_name(24) != builtin_name(23));
    assert(builtin_index_from(builtin_name(24), 23) == builtin_index_from(builtin_name(24), 24));
    assert(builtin_index_from(builtin_name(24), 22) == builtin_index_from(builtin_name(24), 23));
    assert(builtin_index_from(builtin_name(24), 21) == builtin_index_from(builtin_name(24), 22));
    assert(builtin_index_from(builtin_name(24), 20) == builtin_index_from(builtin_name(24), 21));
    assert(builtin_index_from(builtin_name(24), 19) == builtin_index_from(builtin_name(24), 20));
    assert(builtin_index_from(builtin_name(24), 18) == builtin_index_from(builtin_name(24), 19));
    assert(builtin_index_from(builtin_name(24), 17) == builtin_index_from(builtin_name(24), 18));
    assert(builtin_index_from(builtin_name(24), 16) == builtin_index_from(builtin_name(24), 17));
    assert(builtin_index_from(builtin_name(24), 15) == builtin_index_from(builtin_name(24), 16));
    assert(builtin_index_from(builtin_name(24), 14) == builtin_index_from(builtin_name(24), 15));
    assert(builtin_index_from(builtin_name(24), 13) == builtin_index_from(builtin_name(24), 14));
    assert(builtin_index_from(builtin_name(24), 12) == builtin_index_from(builtin_name(24), 13));
    assert(builtin_index_from(builtin_name(24), 11) == builtin_index_from(builtin_name(24), 12));
    assert(builtin_index_from(builtin_name(24), 10) == builtin_index_from(builtin_name(24), 11));
    assert(builtin_index_from(builtin_name(24), 9) == builtin_index_from(builtin_name(24), 10));
    assert(builtin_index_from(builtin_name(24), 8) == builtin_index_from(builtin_name(24), 9));
    assert(builtin_index_from(builtin_name(24), 7) == builtin_index_from(builtin_name(24), 8));
    assert(builtin_index_from(builtin_name(24), 6) == builtin_index_from(builtin_name(24), 7));
    assert(builtin_index_from(builtin_name(24), 5) == builtin_index_from(builtin_name(24), 6));
    assert(builtin_index_from(builtin_name(24), 4) == builtin_index_from(builtin_name(24), 5));
    assert(builtin_index_from(builtin_name(24), 3) == builtin_index_from(builtin_name(24), 4));
    assert(builtin_index_from(builtin_name(24), 2) == builtin_index_from(builtin_name(24), 3));
    assert(builtin_index_from(builtin_name(24), 1) == builtin_index_from(builtin_name(24), 2));
    assert(builtin_index_from(builtin_name(24), 0) == builtin_index_from(builtin_name(24), 1));
}

proof fn lemma_index_of_builtin_25()
    ensures
        builtin_index_from(builtin_name(25), 0) == Some(25nat),
{
    reveal_strlit("SharedArrayBuffer");
    reveal_strlit("unknown");
    reveal_strlit("undefined");
    reveal_strlit("null");
    reveal_strlit("boolean");
    reveal_strlit("number");
    reveal_strlit("string");
    reveal_strlit("bigint");
    reveal_strlit("symbol");
    reveal_strlit("Function");
    reveal_strlit("object");
    reveal_strlit("Array");
    reveal_strlit("Promise");
    reveal_strlit("Generator");
    reveal_strlit("AsyncGenerator");
    reveal_strlit("Error");
    reveal_strlit("TypeError");
    reveal_strlit("RangeError");
    reveal_strlit("ReferenceError");
    reveal_strlit("SyntaxError");
    reveal_strlit("URIError");
    reveal_strlit("EvalError");
    reveal_strlit("AggregateError");
    reveal_strlit("DataView");
    reveal_strlit("Uint8Array");
    reveal_strlit("ArrayBuffer");
    assert(builtin_name(25).len() != builtin_name(0).len());
    assert(builtin_name(25) != builtin_name(0));
    assert(builtin_name(25).len() != builtin_name(1).len());
    assert(builtin_name(25) != builtin_name(1));
    assert(builtin_name(25).len() != builtin_name(2).len());
    assert(builtin_name(25) != builtin_name(2));
    assert(builtin_name(25).len() != builtin_name(3).len());
    assert(builtin_name(25) != builtin_name(3));
    assert(builtin_name(25).len() != builtin_name(4).len());
    assert(builtin_name(25) != builtin_name(4));
    assert(builtin_name(25).len() != builtin_name(5).len());
    assert(builtin_name(25) != builtin_name(5));
    assert(builtin_name(25).len() != builtin_name(6).len());
    assert(builtin_name(25) != builtin_name(6));
    assert(builtin_name(25).len() != builtin_name(7).len());
    assert(builtin_name(25) != builtin_name(7));
    assert(builtin_name(25).len() != builtin_name(8).len());
    assert(builtin_name(25) != builtin_name(8));
    assert(builtin_name(25).len() != builtin_name(9).len());
    assert(builtin_name(25) != builtin_name(9));
    assert(builtin_name(25).len() != builtin_name(10).len());
    assert(builtin_name(25) != builtin_name(10));
    assert(builtin_name(25).len() != builtin_name(11).len());
    assert(builtin_name(25) != builtin_name(11));
    assert(builtin_name(25).len() != builtin_name(12).len());
    assert(builtin_name(25) != builtin_name(12));
    assert(builtin_name(25).len() != builtin_name(13).len());
    assert(builtin_name(25) != builtin_name(13));
    assert(builtin_name(25).len() != builtin_name(14).len());
    assert(builtin_name(25) != builtin_name(14));
    assert(builtin_name(25).len() != builtin_name(15).len());
    assert(builtin_name(25) != builtin_name(15));
    assert(builtin_name(25).len() != builtin_name(16).len());
    assert(builtin_name(25) != builtin_name(16));
    assert(builtin_name(25).len() != builtin_name(17).len());
    assert(builtin_name(25) != builtin_name(17));
    assert(builtin_name(25).len() != builtin_name(18).len());
    assert(builtin_name(25) != builtin_name(18));
    assert(builtin_name(25).len() != builtin_name(19).len());
    assert(builtin_name(25) != builtin_name(19));
    assert(builtin_name(25).len() != builtin_name(20).len());
    assert(builtin_name(25) != builtin_name(20));
    assert(builtin_name(25).len() != builtin_name(21).len());
    assert(builtin_name(25) != builtin_name(21));
    assert(builtin_name(25).len() != builtin_name(22).len());
    assert(builtin_name(25) != builtin_name(22));
    assert(builtin_name(25).len() != builtin_name(23).len());
    assert(builtin_name(25) != builtin_name(23));
    assert(builtin_name(25).len() != builtin_name(24).len());
    assert(builtin_name(25) != builtin_name(24));
    assert(builtin_index_from(builtin_name(25), 24) == builtin_index_from(builtin_name(25), 25));
    assert(builtin_index_from(builtin_name(25), 23) == builtin_index_from(builtin_name(25), 24));
    assert(builtin_index_from(builtin_name(25), 22) == builtin_index_from(builtin_name(25), 23));
    assert(builtin_index_from(builtin_name(25), 21) == builtin_index_from(builtin_name(25), 22));
    assert(builtin_index_from(builtin_name(25), 20) == builtin_index_from(builtin_name(25), 21));
    assert(builtin_index_from(builtin_name(25), 19) == builtin_index_from(builtin_name(25), 20));
    assert(builtin_index_from(builtin_name(25), 18) == builtin_index_from(builtin_name(25), 19));
    assert(builtin_index_from(builtin_name(25), 17) == builtin_index_from(builtin_name(25), 18));
    assert(builtin_index_from(builtin_name(25), 16) == builtin_index_from(builtin_name(25), 17));
    assert(builtin_index_from(builtin_name(25), 15) == builtin_index_from(builtin_name(25), 16));
    assert(builtin_index_from(builtin_name(25), 14) == builtin_index_from(builtin_name(25), 15));
    assert(builtin_index_from(builtin_name(25), 13) == builtin_index_from(builtin_name(25), 14));
    assert(builtin_index_from(builtin_name(25), 12) == builtin_index_from(builtin_name(25), 13));
    assert(builtin_index_from(builtin_name(25), 11) == builtin_index_from(builtin_name(25), 12));
    assert(builtin_index_from(builtin_name(25), 10) == builtin_index_from(builtin_name(25), 11));
    assert(builtin_index_from(builtin_name(25), 9) == builtin_index_from(builtin_name(25), 10));
    assert(builtin_index_from(builtin_name(25), 8) == builtin_index_from(builtin_name(25), 9));
    assert(builtin_index_from(builtin_name(25), 7) == builtin_index_from(builtin_name(25), 8));
    assert(builtin_index_from(builtin_name(25), 6) == builtin_index_from(builtin_name(25), 7));
    assert(builtin_index_from(builtin_name(25), 5) == builtin_index_from(builtin_name(25), 6));
    assert(builtin_index_from(builtin_name(25), 4) == builtin_index_from(builtin_name(25), 5));
    assert(builtin_index_from(builtin_name(25), 3) == builtin_index_from(builtin_name(25), 4));
    assert(builtin_index_from(builtin_name(25), 2) == builtin_index_from(builtin_name(25), 3));
    assert(builtin_index_from(builtin_name(25), 1) == builtin_index_from(builtin_name(25), 2));
    assert(builtin_index_from(builtin_name(25), 0) == builtin_index_from(builtin_name(25), 1));
}

/// The builtin type at bit `k` has index `k`: the builtin names are distinct.
pub proof fn lemma_index_of_builtin(k: nat)
    requires
        k < 26,
    ensures
        builtin_index(builtin_at_view(k)) == Some(k),
{
    if k == 0 {
        lemma_index_of_builtin_0();
    } else if k == 1 {
        lemma_index_of_builtin_1();
    } else if k == 2 {
        lemma_index_of_builtin_2();
    } else if k == 3 {
        lemma_index_of_builtin_3();
    } else if k == 4 {
        lemma_index_of_builtin_4();
    } else if k == 5 {
        lemma_index_of_builtin_5();
    } else if k == 6 {
        lemma_index_of_builtin_6();
    } else if k == 7 {
        lemma_index_of_builtin_7();
    } else if k == 8 {
        lemma_index_of_builtin_8();
    } else if k == 9 {
        lemma_index_of_builtin_9();
    } else if k == 10 {
        lemma_index_of_builtin_10();
    } else if k == 11 {
        lemma_index_of_builtin_11();
    } else if k == 12 {
        lemma_index_of_builtin_12();
    } else if k == 13 {
        lemma_index_of_builtin_13();
    } else if k == 14 {
        lemma_index_of_builtin_14();
    } else if k == 15 {
        lemma_index_of_builtin_15();
    } else if k == 16 {
        lemma_index_of_builtin_16();
    } else if k == 17 {
        lemma_index_of_builtin_17();
    } else if k == 18 {
        lemma_index_of_builtin_18();
    } else if k == 19 {
        lemma_index_of_builtin_19();
    } else if k == 20 {
        lemma_index_of_builtin_20();
    } else if k == 21 {
        lemma_index_of_builtin_21();
    } else if k == 22 {
        lemma_index_of_builtin_22();
    } else if k == 23 {
        lemma_index_of_builtin_23();
    } else if k == 24 {
        lemma_index_of_builtin_24();
    } else if k == 25 {
        lemma_index_of_builtin_25();
    }
}

/// Index `i` is a valid bit index exactly when it is the index of a builtin type.
pub proof fn lemma_index_iff(t: ErrorTypeView, i: nat)
    requires
        i < 26,
    ensures
        (builtin_index(t) == Some(i)) <==> t == builtin_at_view(i),
{
    lemma_builtin_index(t);
    lemma_index_of_builtin(i);
}

proof fn lemma_bit_or(b: u64, i: u64, j: u64)
    by (bit_vector)
    requires
        i < 64,
        j < 64,
    ensures
        bit_set(b | bit_of(i), j) == (bit_set(b, j) || i == j),
{
}

proof fn lemma_bit_clear(b: u64, i: u64, j: u64)
    by (bit_vector)
    requires
        i < 64,
        j < 64,
    ensures
        bit_set(b & !bit_of(i), j) == (bit_set(b, j) && i != j),
{
}

proof fn lemma_bit_union(a: u64, b: u64, j: u64)
    by (bit_vector)
    requires
        j < 64,
    ensures
        bit_set(a | b, j) == (bit_set(a, j) || bit_set(b, j)),
{
}

proof fn lemma_bit_test(b: u64, i: u64)
    by (bit_vector)
    requires
        i < 64,
    ensures
        (b & bit_of(i) != 0) == bit_set(b, i),
{
}

pub proof fn lemma_bits_stay_bounded(a: u64, b: u64, i: u64)
    by (bit_vector)
    requires
        a <= 0x3ff_ffff,
        b <= 0x3ff_ffff,
        i < 26,
    ensures
        bit_of(i) <= 0x3ff_ffff,
        bit_of(i) != 0,
        a | bit_of(i) <= 0x3ff_ffff,
        a & !bit_of(i) <= 0x3ff_ffff,
        a | b <= 0x3ff_ffff,
        bit_set(bit_of(i), i),
{
}

proof fn lemma_zero_bits(j: u64)
    by (bit_vector)
    requires
        j < 64,
    ensures
        !bit_set(0, j),
{
}

proof fn lemma_bits_nonzero_conj(b: u64)
    by (bit_vector)
    requires
        b <= 0x3ff_ffff,
        !bit_set(b, 0) && !bit_set(b, 1) && !bit_set(b, 2) && !bit_set(b, 3) && !bit_set(b, 4) && !bit_set(b, 5) && !bit_set(b, 6) && !bit_set(b, 7) && !bit_set(b, 8) && !bit_set(b, 9) && !bit_set(b, 10) && !bit_set(b, 11) && !bit_set(b, 12) && !bit_set(b, 13) && !bit_set(b, 14) && !bit_set(b, 15) && !bit_set(b, 16) && !bit_set(b, 17) && !bit_set(b, 18) && !bit_set(b, 19) && !bit_set(b, 20) && !bit_set(b, 21) && !bit_set(b, 22) && !bit_set(b, 23) && !bit_set(b, 24) && !bit_set(b, 25),
    ensures
        b == 0,
{
}

proof fn lemma_bits_ext_conj(a: u64, b: u64)
    by (bit_vector)
    requires
        a <= 0x3ff_ffff,
        b <= 0x3ff_ffff,
        (bit_set(a, 0) == bit_set(b, 0)) && (bit_set(a, 1) == bit_set(b, 1)) && (bit_set(a, 2) == bit_set(b, 2)) && (bit_set(a, 3) == bit_set(b, 3)) && (bit_set(a, 4) == bit_set(b, 4)) && (bit_set(a, 5) == bit_set(b, 5)) && (bit_set(a, 6) == bit_set(b, 6)) && (bit_set(a, 7) == bit_set(b, 7)) && (bit_set(a, 8) == bit_set(b, 8)) && (bit_set(a, 9) == bit_set(b, 9)) && (bit_set(a, 10) == bit_set(b, 10)) && (bit_set(a, 11) == bit_set(b, 11)) && (bit_set(a, 12) == bit_set(b, 12)) && (bit_set(a, 13) == bit_set(b, 13)) && (bit_set(a, 14) == bit_set(b, 14)) && (bit_set(a, 15) == bit_set(b, 15)) && (bit_set(a, 16) == bit_set(b, 16)) && (bit_set(a, 17) == bit_set(b, 17)) && (bit_set(a, 18) == bit_set(b, 18)) && (bit_set(a, 19) == bit_set(b, 19)) && (bit_set(a, 20) == bit_set(b, 20)) && (bit_set(a, 21) == bit_set(b, 21)) && (bit_set(a, 22) == bit_set(b, 22)) && (bit_set(a, 23) == bit_set(b, 23)) && (bit_set(a, 24) == bit_set(b, 24)) && (bit_set(a, 25) == bit_set(b, 25)),
    ensures
        a == b,
{
}

/// Testing bit `i` by masking.
pub proof fn lemma_bit_test_pub(b: u64, i: u64)
    requires
        i < 64,
    ensures
        (b & bit_of(i) != 0) == bit_set(b, i),
        bit_of(i) == 1u64 << i,
{
    lemma_bit_test(b, i);
}

/// A nonempty bit set of builtins holds some bit below 26.
pub proof fn lemma_bits_nonzero(b: u64)
    requires
        b <= ALL_BUILTIN_BITS,
        b != 0,
    ensures
        exists|i: u64| i < 26 && bit_set(b, i),
{
    if forall|i: u64| i < 26 ==> !bit_set(b, i) {
        lemma_bits_nonzero_conj(b);
    }
}

/// Two builtin bit sets with the same bits below 26 are equal.
pub proof fn lemma_bits_ext(a: u64, b: u64)
    requires
        a <= ALL_BUILTIN_BITS,
        b <= ALL_BUILTIN_BITS,
        forall|i: u64| i < 26 ==> bit_set(a, i) == bit_set(b, i),
    ensures
        a == b,
{
    lemma_bits_ext_conj(a, b);
}

/// Membership in the view of a bit set.
pub proof fn lemma_bits_view_contains(b: u64, t: ErrorTypeView)
    requires
        b <= ALL_BUILTIN_BITS,
    ensures
        bits_view(b).contains(t) <==> (builtin_index(t) matches Some(i) && bit_set(b, i as u64)),
        bits_view(b).contains(t) ==> builtin_index(t) is Some,
{
}

/// Setting bit `i` adds the builtin type at `i`.
pub proof fn lemma_bits_insert(b: u64, i: u64)
    requires
        b <= ALL_BUILTIN_BITS,
        i < 26,
    ensures
        (b | bit_of(i)) <= ALL_BUILTIN_BITS,
        bits_view(b | bit_of(i)) == bits_view(b).insert(builtin_at_view(i as nat)),
{
    lemma_bits_stay_bounded(b, b, i);
    assert forall|t: ErrorTypeView| bits_view(b | bit_of(i)).contains(t) <==> bits_view(b).insert(
        builtin_at_view(i as nat),
    ).contains(t) by {
        lemma_builtin_index(t);
        lemma_index_iff(t, i as nat);
        if let Some(j) = builtin_index(t) {
            lemma_bit_or(b, i, j as u64);
        }
    }
    assert(bits_view(b | bit_of(i)) =~= bits_view(b).insert(builtin_at_view(i as nat)));
}

/// Clearing bit `i` removes the builtin type at `i`.
pub proof fn lemma_bits_remove(b: u64, i: u64)
    requires
        b <= ALL_BUILTIN_BITS,
        i < 26,
    ensures
        (b & !bit_of(i)) <= ALL_BUILTIN_BITS,
        bits_view(b & !bit_of(i)) == bits_view(b).remove(builtin_at_view(i as nat)),
{
    lemma_bits_stay_bounded(b, b, i);
    assert forall|t: ErrorTypeView| bits_view(b & !bit_of(i)).contains(t) <==> bits_view(b).remove(
        builtin_at_view(i as nat),
    ).contains(t) by {
        lemma_builtin_index(t);
        lemma_index_iff(t, i as nat);
        if let Some(j) = builtin_index(t) {
            lemma_bit_clear(b, i, j as u64);
        }
    }
    assert(bits_view(b & !bit_of(i)) =~= bits_view(b).remove(builtin_at_view(i as nat)));
}

/// The union of two bit sets holds the builtin types of both.
pub proof fn lemma_bits_union(a: u64, b: u64)
    requires
        a <= ALL_BUILTIN_BITS,
        b <= ALL_BUILTIN_BITS,
    ensures
        (a | b) <= ALL_BUILTIN_BITS,
        bits_view(a | b) == bits_view(a).union(bits_view(b)),
{
    lemma_bits_stay_bounded(a, b, 0);
    assert forall|t: ErrorTypeView| bits_view(a | b).contains(t) <==> bits_view(a).union(
        bits_view(b),
    ).contains(t) by {
        lemma_builtin_index(t);
        if let Some(j) = builtin_index(t) {
            lemma_bit_union(a, b, j as u64);
        }
    }
    assert(bits_view(a | b) =~= bits_view(a).union(bits_view(b)));
}

/// The bit set with no bits holds nothing; any other holds something.
pub proof fn lemma_bits_empty(b: u64)
    requires
        b <= ALL_BUILTIN_BITS,
    ensures
        (b == 0) <==> bits_view(b).is_empty(),
        b == 0 ==> bits_view(b) == Set::<ErrorTypeView>::empty(),
{
    if b == 0 {
        assert forall|t: ErrorTypeView| !bits_view(b).contains(t) by {
            if let Some(j) = builtin_index(t) {
                lemma_builtin_index(t);
                lemma_zero_bits(j as u64);
            }
        }
        assert(bits_view(b) =~= Set::<ErrorTypeView>::empty());
    } else {
        lemma_bits_nonzero(b);
        let i = choose|i: u64| i < 26 && bit_set(b, i);
        lemma_index_of_builtin(i as nat);
        assert(bits_view(b).contains(builtin_at_view(i as nat)));
    }
}

/// Bit sets with the same builtin types are the same bits.
pub proof fn lemma_bits_view_injective(a: u64, b: u64)
    requires
        a <= ALL_BUILTIN_BITS,
        b <= ALL_BUILTIN_BITS,
        bits_view(a) == bits_view(b),
    ensures
        a == b,
{
    assert forall|i: u64| i < 26 implies bit_set(a, i) == bit_set(b, i) by {
        lemma_index_of_builtin(i as nat);
        assert(bits_view(a).contains(builtin_at_view(i as nat)) == bit_set(a, i));
        assert(bits_view(b).contains(builtin_at_view(i as nat)) == bit_set(b, i));
    }
    lemma_bits_ext(a, b);
}

/// The name of the builtin type stored at bit `i`.
fn builtin_name_at(i: usize) -> (r: &'static str)
    requires
        i < 26,
    ensures
        r@ == builtin_name(i as int),
{
    if i == 0 {
        "unknown"
    } else if i == 1 {
        "undefined"
    } else if i == 2 {
        "null"
    } else if i == 3 {
        "boolean"
    } else if i == 4 {
        "number"
    } else if i == 5 {
        "string"
    } else if i == 6 {
        "bigint"
    } else if i == 7 {
        "symbol"
    } else if i == 8 {
        "Function"
    } else if i == 9 {
        "object"
    } else if i == 10 {
        "Array"
    } else if i == 11 {
        "Promise"
    } else if i == 12 {
        "Generator"
    } else if i == 13 {
        "AsyncGenerator"
    } else if i == 14 {
        "Error"
    } else if i == 15 {
        "TypeError"
    } else if i == 16 {
        "RangeError"
    } else if i == 17 {
        "ReferenceError"
    } else if i == 18 {
        "SyntaxError"
    } else if i == 19 {
        "URIError"
    } else if i == 20 {
        "EvalError"
    } else if i == 21 {
        "AggregateError"
    } else if i == 22 {
        "DataView"
    } else if i == 23 {
        "Uint8Array"
    } else if i == 24 {
        "ArrayBuffer"
    } else if i == 25 {
        "SharedArrayBuffer"
    } else {
        "SharedArrayBuffer"
    }
}

/// The builtin type stored at bit `i`.
pub fn builtin_at(i: usize) -> (r: EscErrorType)
    requires
        i < 26,
    ensures
        r@ == builtin_at_view(i as nat),
{
    EscErrorType::builtin(builtin_name_at(i))
}

/// The bit of a type in a builtin set, or zero for types without one.
pub fn builtin_bit(value: &EscErrorType) -> (r: u64)
    ensures
        match builtin_index(value@) {
            Some(i) => r == bit_of(i as u64) && i < 26 && r != 0 && r <= ALL_BUILTIN_BITS,
            None => r == 0,
        },
{
    proof {
        lemma_builtin_index(value@);
        if let Some(i) = builtin_index(value@) {
            lemma_bits_stay_bounded(0, 0, i as u64);
        }
    }
    let name = match value.builtin_name() {
        Some(name) => name,
        None => return 0,
    };
    let mut i: usize = 0;
    while i < 26
        invariant
            0 <= i <= 26,
            value@ == ErrorTypeView::Builtin(name@),
            builtin_index_from(name@, 0) == builtin_index_from(name@, i as nat),
        decreases 26 - i,
    {
        if str_eq(name, builtin_name_at(i)) {
            proof {
                lemma_bits_stay_bounded(0, 0, i as u64);
            }
            let bit = 1u64 << (i as u64);
            return bit;
        }
        i = i + 1;
    }
    0
}

} // verus!
