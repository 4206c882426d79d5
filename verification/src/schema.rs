//! The spec-level shape of a schema document: which keywords a node
//! declares, the parsed schema tree, and the operation-sequence layout of
//! its compiled form.

use vstd::prelude::*;
use crate::value::{
    JsonView, MemberView, NumView, obj_lookup, json_size,
    lemma_obj_lookup_size, lemma_member_size_seq_elem,
};
use crate::ops::{OpView, TypeTag};

verus! {

/// The value of `key` in a schema node, when the node is an object that
/// declares it.
pub open spec fn keyword(s: JsonView, key: Seq<char>) -> Option<JsonView> {
    match s {
        JsonView::Obj(members) => obj_lookup(members, key),
        _ => Option::None,
    }
}

/// The recognized kind named by the node's `type` keyword, if any; an
/// unrecognized or non-string `type` names none.
pub open spec fn type_keyword(s: JsonView) -> Option<TypeTag> {
    match keyword(s, "type"@) {
        Option::Some(JsonView::Str(name)) => parse_tag(name),
        _ => Option::None,
    }
}

/// The kind a type name denotes.
pub open spec fn parse_tag(name: Seq<char>) -> Option<TypeTag> {
    if name == "string"@ {
        Option::Some(TypeTag::Str)
    } else if name == "number"@ {
        Option::Some(TypeTag::Num)
    } else if name == "integer"@ {
        Option::Some(TypeTag::Int)
    } else if name == "boolean"@ {
        Option::Some(TypeTag::Bool)
    } else if name == "null"@ {
        Option::Some(TypeTag::Null)
    } else if name == "object"@ {
        Option::Some(TypeTag::Obj)
    } else if name == "array"@ {
        Option::Some(TypeTag::Arr)
    } else {
        Option::None
    }
}

/// A numeric keyword's number, when present with a number value.
pub open spec fn num_keyword(s: JsonView, key: Seq<char>) -> Option<NumView> {
    match keyword(s, key) {
        Option::Some(JsonView::Num(n)) => Option::Some(n),
        _ => Option::None,
    }
}

/// A count keyword: present with a value written as a non-negative integer
/// that fits `u64`.
pub open spec fn count_keyword(s: JsonView, key: Seq<char>) -> Option<int> {
    match keyword(s, key) {
        Option::Some(JsonView::Num(n)) => if n.s == 0 && 0 <= n.m <= u64::MAX {
            Option::Some(n.m)
        } else {
            Option::None
        },
        _ => Option::None,
    }
}

/// Whether the node's `required` list names `key`.
pub open spec fn required_has(s: JsonView, key: Seq<char>) -> bool {
    match keyword(s, "required"@) {
        Option::Some(JsonView::Arr(entries)) => exists|i: int|
            0 <= i < entries.len() && entries[i] == JsonView::Str(key),
        _ => false,
    }
}

/// The properties map of the node, when declared as an object.
pub open spec fn properties_of(s: JsonView) -> Option<Seq<MemberView>> {
    match keyword(s, "properties"@) {
        Option::Some(JsonView::Obj(props)) => Option::Some(props),
        _ => Option::None,
    }
}

/// An optional operation as a zero- or one-element sequence.
pub open spec fn opt_op(o: Option<OpView>) -> Seq<OpView> {
    match o {
        Option::Some(op) => seq![op],
        Option::None => Seq::empty(),
    }
}

/// The node's `type` check, when the keyword names a recognized kind.
pub open spec fn type_term(s: JsonView) -> Seq<OpView> {
    opt_op(match type_keyword(s) {
        Option::Some(t) => Option::Some(OpView::CheckType(t)),
        Option::None => Option::None,
    })
}

/// The node's four numeric-range checks, each where declared as a number.
pub open spec fn range_terms(s: JsonView) -> Seq<OpView> {
    opt_op(match num_keyword(s, "minimum"@) {
        Option::Some(n) => Option::Some(OpView::CheckMinimum(n)),
        Option::None => Option::None,
    }) + opt_op(match num_keyword(s, "maximum"@) {
        Option::Some(n) => Option::Some(OpView::CheckMaximum(n)),
        Option::None => Option::None,
    }) + opt_op(match num_keyword(s, "exclusiveMinimum"@) {
        Option::Some(n) => Option::Some(OpView::CheckExclusiveMinimum(n)),
        Option::None => Option::None,
    }) + opt_op(match num_keyword(s, "exclusiveMaximum"@) {
        Option::Some(n) => Option::Some(OpView::CheckExclusiveMaximum(n)),
        Option::None => Option::None,
    })
}

/// The node's two string-length checks, each where declared as a usable
/// count.
pub open spec fn length_terms(s: JsonView) -> Seq<OpView> {
    opt_op(match count_keyword(s, "minLength"@) {
        Option::Some(c) => Option::Some(OpView::CheckMinLength(c)),
        Option::None => Option::None,
    }) + opt_op(match count_keyword(s, "maxLength"@) {
        Option::Some(c) => Option::Some(OpView::CheckMaxLength(c)),
        Option::None => Option::None,
    })
}

/// The scalar checks a node emits ahead of any object or array bracket:
/// type, numeric range, then string length, each only where declared.
pub open spec fn scalar_ops(s: JsonView) -> Seq<OpView> {
    type_term(s) + range_terms(s) + length_terms(s)
}

/// The array-size checks a node emits after its object bracket and before
/// its array bracket.
pub open spec fn size_ops(s: JsonView) -> Seq<OpView> {
    opt_op(match count_keyword(s, "minItems"@) {
        Option::Some(c) => Option::Some(OpView::CheckMinItems(c)),
        Option::None => Option::None,
    }) + opt_op(match count_keyword(s, "maxItems"@) {
        Option::Some(c) => Option::Some(OpView::CheckMaxItems(c)),
        Option::None => Option::None,
    })
}

/// One declared property of a parsed schema node.
pub struct PropNode {
    pub key: Seq<char>,
    pub required: bool,
    pub sub: SchemaNode,
}

/// A schema node with its keywords resolved: the scalar checks, the
/// declared properties in document order, the array-size checks, and the
/// item sub-schema.
pub struct SchemaNode {
    pub scalars: Seq<OpView>,
    pub props: Option<Seq<PropNode>>,
    pub sizes: Seq<OpView>,
    pub items: Option<Box<SchemaNode>>,
}

/// Resolves a schema document's keywords into a schema tree.  Keywords a
/// node does not declare, and declarations of unusable shape, contribute
/// nothing.
pub open spec fn parse_schema(s: JsonView) -> SchemaNode
    decreases json_size(s), 1int, 0int,
        via parse_schema_dec
{
    SchemaNode {
        scalars: scalar_ops(s),
        props: match properties_of(s) {
            Option::Some(props) => Option::Some(parse_props(s, props, 0)),
            Option::None => Option::None,
        },
        sizes: size_ops(s),
        items: match keyword(s, "items"@) {
            Option::Some(sub) => Option::Some(Box::new(parse_schema(sub))),
            Option::None => Option::None,
        },
    }
}

/// The parsed properties `props[i..]` of a node `s` whose properties map is
/// `props`.  Required-ness is a membership flag on the declared
/// properties: a name in the `required` list that no declared property
/// carries flags nothing and is never reported.
pub open spec fn parse_props(s: JsonView, props: Seq<MemberView>, i: int) -> Seq<PropNode>
    decreases json_size(s), 0int, props.len() - i,
        when properties_of(s) == Option::Some(props)
        via parse_props_dec
{
    if i < 0 || i >= props.len() {
        Seq::empty()
    } else {
        seq![
            PropNode {
                key: props[i].key,
                required: required_has(s, props[i].key),
                sub: parse_schema(props[i].value),
            },
        ] + parse_props(s, props, i + 1)
    }
}

#[via_fn]
proof fn parse_schema_dec(s: JsonView) {
    match s {
        JsonView::Obj(members) => {
            if keyword(s, "items"@) is Some {
                lemma_obj_lookup_size(members, "items"@);
            }
        },
        _ => {},
    }
}

#[via_fn]
proof fn parse_props_dec(s: JsonView, props: Seq<MemberView>, i: int) {
    if 0 <= i < props.len() {
        match s {
            JsonView::Obj(members) => {
                lemma_obj_lookup_size(members, "properties"@);
                lemma_member_size_seq_elem(props, i);
            },
            _ => {},
        }
    }
}

pub proof fn lemma_parse_props_index(s: JsonView, props: Seq<MemberView>, i: int)
    requires
        properties_of(s) == Option::Some(props),
        0 <= i <= props.len(),
    ensures
        parse_props(s, props, i) =~= Seq::new(
            (props.len() - i) as nat,
            |k: int| PropNode {
                key: props[i + k].key,
                required: required_has(s, props[i + k].key),
                sub: parse_schema(props[i + k].value),
            },
        ),
    decreases props.len() - i,
{
    if i < props.len() {
        lemma_parse_props_index(s, props, i + 1);
    }
}

/// The operation sequence a schema node compiles to: scalar checks, the
/// object bracket with one window per declared property, array-size checks,
/// then the array bracket with the item window.  `Done` is appended once,
/// at the root.
pub open spec fn node_ops(n: SchemaNode) -> Seq<OpView>
    decreases n, 3int,
{
    n.scalars + obj_seg(n) + n.sizes + arr_seg(n)
}

/// The node's object bracket: `EnterObject`, the property windows,
/// `ExitObject`; empty when no properties map is declared.
pub open spec fn obj_seg(n: SchemaNode) -> Seq<OpView>
    decreases n, 2int,
{
    match n.props {
        Option::Some(props) => seq![OpView::EnterObject] + props_ops(props, 0)
            + seq![OpView::ExitObject],
        Option::None => Seq::empty(),
    }
}

/// The node's array bracket: `EnterArray`, `CheckArrayItems`, the item
/// window, `ExitArray`; empty when no item sub-schema is declared.
pub open spec fn arr_seg(n: SchemaNode) -> Seq<OpView>
    decreases n, 2int,
{
    match n.items {
        Option::Some(sub) => seq![OpView::EnterArray, OpView::CheckArrayItems]
            + node_ops(*sub) + seq![OpView::ExitArray],
        Option::None => Seq::empty(),
    }
}

/// The operations of the property windows `props[i..]`: each window is the
/// property's `CheckProperty` followed by its sub-schema's operations.
pub open spec fn props_ops(props: Seq<PropNode>, i: int) -> Seq<OpView>
    decreases props, props.len() - i,
{
    if i < 0 || i >= props.len() {
        Seq::empty()
    } else {
        seq![OpView::CheckProperty { key: props[i].key, required: props[i].required }]
            + node_ops(props[i].sub) + props_ops(props, i + 1)
    }
}

/// The complete compiled sequence of a schema document.
pub open spec fn compiled_ops(s: JsonView) -> Seq<OpView> {
    node_ops(parse_schema(s)) + seq![OpView::Done]
}

/// Whether a list holds scalar checks only.
pub open spec fn scalars_wf(w: Seq<OpView>) -> bool {
    forall|k: int| 0 <= k < w.len() ==> crate::ops::is_scalar_check(#[trigger] w[k])
}

/// Whether a schema node is well formed: its scalar and size segments hold
/// scalar checks only, recursively.  Every parsed schema node is.
pub open spec fn node_wf(n: SchemaNode) -> bool
    decreases n, 1int,
{
    &&& scalars_wf(n.scalars)
    &&& scalars_wf(n.sizes)
    &&& match n.props {
        Option::Some(props) => props_wf(props, 0),
        Option::None => true,
    }
    &&& match n.items {
        Option::Some(sub) => node_wf(*sub),
        Option::None => true,
    }
}

pub open spec fn props_wf(props: Seq<PropNode>, i: int) -> bool
    decreases props, props.len() - i,
{
    if i < 0 || i >= props.len() {
        true
    } else {
        node_wf(props[i].sub) && props_wf(props, i + 1)
    }
}

pub proof fn lemma_props_wf_elem(props: Seq<PropNode>, i: int)
    requires
        props_wf(props, 0),
        0 <= i < props.len(),
    ensures
        node_wf(props[i].sub),
    decreases i,
{
    lemma_props_wf_at(props, 0, i);
}

proof fn lemma_props_wf_at(props: Seq<PropNode>, j: int, i: int)
    requires
        props_wf(props, j),
        0 <= j <= i < props.len(),
    ensures
        node_wf(props[i].sub),
    decreases i - j,
{
    if j < i {
        lemma_props_wf_at(props, j + 1, i);
    }
}

/// Scalar term lists hold scalar checks only.
proof fn lemma_terms_scalar(s: JsonView)
    ensures
        scalars_wf(scalar_ops(s)),
        scalars_wf(size_ops(s)),
{
}

/// Parsing yields a well-formed schema node.
pub proof fn lemma_parse_schema_wf(s: JsonView)
    ensures
        node_wf(parse_schema(s)),
    decreases json_size(s), 1int, 0int,
{
    lemma_terms_scalar(s);
    match properties_of(s) {
        Option::Some(props) => {
            lemma_parse_props_wf(s, props, 0);
        },
        Option::None => {},
    }
    match keyword(s, "items"@) {
        Option::Some(sub) => {
            match s {
                JsonView::Obj(members) => {
                    lemma_obj_lookup_size(members, "items"@);
                },
                _ => {},
            }
            lemma_parse_schema_wf(sub);
        },
        Option::None => {},
    }
}

proof fn lemma_parse_props_wf(s: JsonView, props: Seq<MemberView>, i: int)
    requires
        properties_of(s) == Option::Some(props),
        0 <= i,
    ensures
        props_wf(parse_props(s, props, i), 0),
    decreases json_size(s), 0int, props.len() - i,
{
    if i < props.len() {
        match s {
            JsonView::Obj(members) => {
                lemma_obj_lookup_size(members, "properties"@);
                lemma_member_size_seq_elem(props, i);
            },
            _ => {},
        }
        lemma_parse_schema_wf(props[i].value);
        lemma_parse_props_wf(s, props, i + 1);
        let parsed = parse_props(s, props, i);
        let tail = parse_props(s, props, i + 1);
        assert(parsed.drop_first() =~= tail);
        lemma_props_wf_shift(parsed, tail);
    }
}

/// If the tail of a parsed list is well formed and its head's sub-node is,
/// the whole list is.
proof fn lemma_props_wf_shift(parsed: Seq<PropNode>, tail: Seq<PropNode>)
    requires
        parsed.len() == tail.len() + 1,
        parsed.drop_first() == tail,
        node_wf(parsed[0].sub),
        props_wf(tail, 0),
    ensures
        props_wf(parsed, 0),
    decreases parsed.len(),
{
    lemma_props_wf_unshift(parsed, tail, 0);
}

proof fn lemma_props_wf_unshift(parsed: Seq<PropNode>, tail: Seq<PropNode>, i: int)
    requires
        parsed.len() == tail.len() + 1,
        parsed.drop_first() == tail,
        node_wf(parsed[0].sub),
        props_wf(tail, 0),
        0 <= i <= tail.len(),
        props_wf(tail, i),
    ensures
        props_wf(parsed, i + 1),
        i == 0 ==> props_wf(parsed, 0),
    decreases tail.len() - i,
{
    if i < tail.len() {
        lemma_props_wf_unshift(parsed, tail, i + 1);
        assert(parsed[i + 1] == tail[i]);
    }
    if i == 0 {
        assert(props_wf(parsed, 1));
    }
}

} // verus!
