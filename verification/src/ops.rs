//! The closed, tagged set of validation operations that schemas compile to,
//! and what each scalar check says about a focused value.

use vstd::prelude::*;
use crate::value::{Number, NumView, JsonView, num_val18, arr_elems, dec_str};

verus! {

/// The canonical primitive kinds the `type` keyword can name.
#[derive(Debug, Clone, Copy, PartialEq, Eq, Structural)]
pub enum TypeTag {
    Str,
    Num,
    Int,
    Bool,
    Null,
    Obj,
    Arr,
}

/// Whether a value is of the given primitive kind.
pub open spec fn tag_matches(tag: TypeTag, v: JsonView) -> bool {
    match tag {
        TypeTag::Str => v is Str,
        TypeTag::Num => v is Num,
        TypeTag::Int => v matches JsonView::Num(n) && n.s == 0,
        TypeTag::Bool => v is Bool,
        TypeTag::Null => v is Null,
        TypeTag::Obj => v is Obj,
        TypeTag::Arr => v is Arr,
    }
}

/// One validation operation of a compiled schema.
#[derive(Debug)]
pub enum Op {
    /// The focused value must be of this kind.
    CheckType(TypeTag),
    /// A focused number must be at least this large.
    CheckMinimum(Number),
    /// A focused number must be at most this large.
    CheckMaximum(Number),
    /// A focused number must be strictly larger than this.
    CheckExclusiveMinimum(Number),
    /// A focused number must be strictly smaller than this.
    CheckExclusiveMaximum(Number),
    /// A focused string must have at least this many characters.
    CheckMinLength(u64),
    /// A focused string must have at most this many characters.
    CheckMaxLength(u64),
    /// A focused array must have at least this many elements.
    CheckMinItems(u64),
    /// A focused array must have at most this many elements.
    CheckMaxItems(u64),
    /// Open the object bracket holding the property checks.
    EnterObject,
    /// Descend into the named property of the focused object, or skip its
    /// window; a required property that is absent is an issue.
    CheckProperty { key: String, required: bool },
    /// Close the object bracket.
    ExitObject,
    /// Open the array bracket holding the item window.
    EnterArray,
    /// Descend into the next element of the focused array, or leave the
    /// bracket when no elements remain.
    CheckArrayItems,
    /// Close the array bracket: advance to the next element and rewind, or
    /// continue past the bracket.
    ExitArray,
    /// End of the compiled sequence.
    Done,
}

/// Mathematical model of an operation.
pub enum OpView {
    CheckType(TypeTag),
    CheckMinimum(NumView),
    CheckMaximum(NumView),
    CheckExclusiveMinimum(NumView),
    CheckExclusiveMaximum(NumView),
    CheckMinLength(int),
    CheckMaxLength(int),
    CheckMinItems(int),
    CheckMaxItems(int),
    EnterObject,
    CheckProperty { key: Seq<char>, required: bool },
    ExitObject,
    EnterArray,
    CheckArrayItems,
    ExitArray,
    Done,
}

impl View for Op {
    type V = OpView;

    open spec fn view(&self) -> OpView {
        match self {
            Op::CheckType(t) => OpView::CheckType(*t),
            Op::CheckMinimum(n) => OpView::CheckMinimum(n@),
            Op::CheckMaximum(n) => OpView::CheckMaximum(n@),
            Op::CheckExclusiveMinimum(n) => OpView::CheckExclusiveMinimum(n@),
            Op::CheckExclusiveMaximum(n) => OpView::CheckExclusiveMaximum(n@),
            Op::CheckMinLength(c) => OpView::CheckMinLength(*c as int),
            Op::CheckMaxLength(c) => OpView::CheckMaxLength(*c as int),
            Op::CheckMinItems(c) => OpView::CheckMinItems(*c as int),
            Op::CheckMaxItems(c) => OpView::CheckMaxItems(*c as int),
            Op::EnterObject => OpView::EnterObject,
            Op::CheckProperty { key, required } => OpView::CheckProperty {
                key: key@,
                required: *required,
            },
            Op::ExitObject => OpView::ExitObject,
            Op::EnterArray => OpView::EnterArray,
            Op::CheckArrayItems => OpView::CheckArrayItems,
            Op::ExitArray => OpView::ExitArray,
            Op::Done => OpView::Done,
        }
    }
}

/// Models of a sequence of operations.
pub open spec fn ops_view(ops: Seq<Op>) -> Seq<OpView> {
    ops.map_values(|op: Op| op@)
}

pub proof fn lemma_ops_view_push(ops: Seq<Op>, op: Op)
    ensures
        ops_view(ops.push(op)) =~= ops_view(ops).push(op@),
{
}

/// Pushing is appending a singleton.
pub proof fn lemma_push_is_concat<A>(s: Seq<A>, x: A)
    ensures
        s.push(x) == s + seq![x],
{
    assert(s.push(x) =~= s + seq![x]);
}

/// Whether an operation is a scalar check: one that reads only the focused
/// value and never moves the traversal context.
pub open spec fn is_scalar_check(op: OpView) -> bool {
    match op {
        OpView::CheckType(_) => true,
        OpView::CheckMinimum(_) => true,
        OpView::CheckMaximum(_) => true,
        OpView::CheckExclusiveMinimum(_) => true,
        OpView::CheckExclusiveMaximum(_) => true,
        OpView::CheckMinLength(_) => true,
        OpView::CheckMaxLength(_) => true,
        OpView::CheckMinItems(_) => true,
        OpView::CheckMaxItems(_) => true,
        _ => false,
    }
}

/// The kind name a value reports in type-mismatch diagnostics: a number
/// written as an integer is an "integer", any other number a "number".
pub open spec fn spec_type_name(v: JsonView) -> Seq<char> {
    match v {
        JsonView::Null => "null"@,
        JsonView::Bool(_) => "boolean"@,
        JsonView::Num(n) => if n.s == 0 {
            "integer"@
        } else {
            "number"@
        },
        JsonView::Str(_) => "string"@,
        JsonView::Arr(_) => "array"@,
        JsonView::Obj(_) => "object"@,
    }
}

/// The name of a primitive kind, as the `type` keyword writes it.
pub open spec fn tag_name(tag: TypeTag) -> Seq<char> {
    match tag {
        TypeTag::Str => "string"@,
        TypeTag::Num => "number"@,
        TypeTag::Int => "integer"@,
        TypeTag::Bool => "boolean"@,
        TypeTag::Null => "null"@,
        TypeTag::Obj => "object"@,
        TypeTag::Arr => "array"@,
    }
}

/// The message a failed scalar check reports of the focused value: a type
/// mismatch names the expected and the found kind, an item-count failure
/// names the count and the bound.
pub open spec fn check_message(op: OpView, v: JsonView) -> Seq<char> {
    match op {
        OpView::CheckType(tag) => "Expected type \""@ + tag_name(tag) + "\", got "@
            + spec_type_name(v),
        OpView::CheckMinimum(_) => "Number below minimum"@,
        OpView::CheckMaximum(_) => "Number above maximum"@,
        OpView::CheckExclusiveMinimum(_) => "Number not above exclusiveMinimum"@,
        OpView::CheckExclusiveMaximum(_) => "Number not below exclusiveMaximum"@,
        OpView::CheckMinLength(_) => "String shorter than minLength"@,
        OpView::CheckMaxLength(_) => "String longer than maxLength"@,
        OpView::CheckMinItems(c) => "Array has "@ + dec_str(arr_elems(v).len())
            + " items, minimum is "@ + dec_str(if c >= 0 { c as nat } else { 0 }),
        OpView::CheckMaxItems(c) => "Array has "@ + dec_str(arr_elems(v).len())
            + " items, maximum is "@ + dec_str(if c >= 0 { c as nat } else { 0 }),
        _ => ""@,
    }
}

/// The message reported for an absent required property, naming it.
pub open spec fn missing_property_message(key: Seq<char>) -> Seq<char> {
    "Missing required property '"@ + key + "'"@
}

/// Whether a scalar check holds of the focused value.  A check whose
/// applicable kind does not match the value is silently satisfied: a length
/// bound constrains only strings, a numeric bound only numbers, an item
/// bound only arrays.
pub open spec fn check_passes(op: OpView, v: JsonView) -> bool {
    match op {
        OpView::CheckType(tag) => tag_matches(tag, v),
        OpView::CheckMinimum(b) => v matches JsonView::Num(n) ==> num_val18(n) >= num_val18(b),
        OpView::CheckMaximum(b) => v matches JsonView::Num(n) ==> num_val18(n) <= num_val18(b),
        OpView::CheckExclusiveMinimum(b) => v matches JsonView::Num(n) ==> num_val18(n) > num_val18(b),
        OpView::CheckExclusiveMaximum(b) => v matches JsonView::Num(n) ==> num_val18(n) < num_val18(b),
        OpView::CheckMinLength(c) => v matches JsonView::Str(s) ==> s.len() >= c,
        OpView::CheckMaxLength(c) => v matches JsonView::Str(s) ==> s.len() <= c,
        OpView::CheckMinItems(c) => v matches JsonView::Arr(items) ==> items.len() >= c,
        OpView::CheckMaxItems(c) => v matches JsonView::Arr(items) ==> items.len() <= c,
        _ => true,
    }
}

} // verus!
