//! The schema compiler: one recursive descent over the schema document,
//! emitting the flat operation sequence that the execution engines walk.

use vstd::prelude::*;
use crate::value::{
    JsonValue, JsonView, json_view, json_view_seq, member_view_seq, json_size,
    str_eq, find_member, lemma_member_view_seq, lemma_json_view_seq,
    lemma_obj_lookup_size, lemma_member_size_seq_elem,
};
use crate::ops::{Op, OpView, TypeTag, ops_view, lemma_ops_view_push, lemma_push_is_concat};
use crate::schema::{
    keyword, parse_tag, num_keyword, count_keyword, required_has,
    properties_of, opt_op, scalar_ops, size_ops, type_term, range_terms,
    length_terms, parse_schema, parse_props, node_ops, obj_seg, arr_seg,
    props_ops, compiled_ops, lemma_parse_props_index,
};
use vstd::seq_lib::lemma_concat_associative;

verus! {

/// The recognized kind named by a `type` string, if any.
pub(crate) fn parse_type_tag_of(name: &String) -> (r: Option<TypeTag>)
    ensures
        r == parse_tag(name@),
{
    if str_eq(name.as_str(), "string") {
        Option::Some(TypeTag::Str)
    } else if str_eq(name.as_str(), "number") {
        Option::Some(TypeTag::Num)
    } else if str_eq(name.as_str(), "integer") {
        Option::Some(TypeTag::Int)
    } else if str_eq(name.as_str(), "boolean") {
        Option::Some(TypeTag::Bool)
    } else if str_eq(name.as_str(), "null") {
        Option::Some(TypeTag::Null)
    } else if str_eq(name.as_str(), "object") {
        Option::Some(TypeTag::Obj)
    } else if str_eq(name.as_str(), "array") {
        Option::Some(TypeTag::Arr)
    } else {
        Option::None
    }
}

/// The value of a keyword of the schema node, when the node is an object
/// that declares it.
fn lookup<'a>(schema: &'a JsonValue, key: &str) -> (r: Option<&'a JsonValue>)
    ensures
        match r {
            Option::Some(v) => keyword(schema@, key@) == Option::Some(json_view(*v)),
            Option::None => keyword(schema@, key@) is None,
        },
{
    match schema {
        JsonValue::Obj(members) => {
            match find_member(members, key) {
                Option::Some(i) => Option::Some(&members[i].value),
                Option::None => Option::None,
            }
        },
        _ => Option::None,
    }
}

/// Whether the `required` keyword value is a list naming `key`.
fn required_contains(req: Option<&JsonValue>, key: &String) -> (r: bool)
    ensures
        r == (match req {
            Option::Some(rv) => match json_view(*rv) {
                JsonView::Arr(entries) => exists|i: int|
                    0 <= i < entries.len() && entries[i] == JsonView::Str(key@),
                _ => false,
            },
            Option::None => false,
        }),
{
    match req {
        Option::None => false,
        Option::Some(rv) => match rv {
            JsonValue::Arr(items) => {
                proof {
                    lemma_json_view_seq(*items, 0);
                }
                let ghost entries = json_view_seq(*items, 0);
                let mut j: usize = 0;
                while j < items.len()
                    invariant
                        0 <= j <= items@.len(),
                        entries == json_view_seq(*items, 0),
                        entries =~= Seq::new(
                            items@.len() as nat,
                            |k: int| json_view(items@[k]),
                        ),
                        req matches Option::Some(rv2) && json_view(*rv2) == JsonView::Arr(entries),
                        forall|k: int| 0 <= k < j ==> entries[k] != JsonView::Str(key@),
                    decreases items@.len() - j,
                {
                    match &items[j] {
                        JsonValue::Str(sv) => {
                            if str_eq(sv.as_str(), key.as_str()) {
                                proof {
                                    assert(entries[j as int] == JsonView::Str(key@));
                                }
                                return true;
                            }
                            proof {
                                assert(entries[j as int] != JsonView::Str(key@));
                            }
                        },
                        _ => {
                            proof {
                                assert(entries[j as int] != JsonView::Str(key@));
                            }
                        },
                    }
                    j = j + 1;
                }
                false
            },
            _ => false,
        },
    }
}

/// Emits the node's `type` check.
fn emit_type_check(schema: &JsonValue, out: &mut Vec<Op>)
    ensures
        ops_view(final(out)@) == ops_view(old(out)@) + type_term(schema@),
{
    let ghost s = schema@;
    let ghost g0 = ops_view(out@);
    let ghost mut term: Seq<OpView> = Seq::empty();
    if let Option::Some(v) = lookup(schema, "type") {
        if let JsonValue::Str(name) = v {
            if let Option::Some(tag) = parse_type_tag_of(name) {
                proof {
                    lemma_ops_view_push(out@, Op::CheckType(tag));
                }
                out.push(Op::CheckType(tag));
                proof {
                    term = seq![OpView::CheckType(tag)];
                }
            }
        }
    }
    proof {
        assert(term == type_term(s));
        assert(ops_view(out@) =~= g0 + term);
    }
}

/// Emits the node's numeric-range checks in their fixed order.
#[verifier::rlimit(50)]
fn emit_range_checks(schema: &JsonValue, out: &mut Vec<Op>)
    ensures
        ops_view(final(out)@) == ops_view(old(out)@) + range_terms(schema@),
{
    let ghost s = schema@;
    let ghost g0 = ops_view(out@);
    let ghost mut acc: Seq<OpView> = Seq::empty();
    let ghost mut term: Seq<OpView> = Seq::empty();

    if let Option::Some(v) = lookup(schema, "minimum") {
        if let JsonValue::Num(n) = v {
            proof {
                lemma_ops_view_push(out@, Op::CheckMinimum(*n));
            }
            out.push(Op::CheckMinimum(*n));
            proof {
                term = seq![OpView::CheckMinimum(n@)];
            }
        }
    }
    proof {
        assert(term == opt_op(match num_keyword(s, "minimum"@) {
            Option::Some(n) => Option::Some(OpView::CheckMinimum(n)),
            Option::None => Option::None,
        }));
        acc = acc + term;
        assert(ops_view(out@) =~= g0 + acc);
        term = Seq::empty();
    }

    if let Option::Some(v) = lookup(schema, "maximum") {
        if let JsonValue::Num(n) = v {
            proof {
                lemma_ops_view_push(out@, Op::CheckMaximum(*n));
            }
            out.push(Op::CheckMaximum(*n));
            proof {
                term = seq![OpView::CheckMaximum(n@)];
            }
        }
    }
    proof {
        assert(term == opt_op(match num_keyword(s, "maximum"@) {
            Option::Some(n) => Option::Some(OpView::CheckMaximum(n)),
            Option::None => Option::None,
        }));
        acc = acc + term;
        assert(ops_view(out@) =~= g0 + acc);
        term = Seq::empty();
    }

    if let Option::Some(v) = lookup(schema, "exclusiveMinimum") {
        if let JsonValue::Num(n) = v {
            proof {
                lemma_ops_view_push(out@, Op::CheckExclusiveMinimum(*n));
            }
            out.push(Op::CheckExclusiveMinimum(*n));
            proof {
                term = seq![OpView::CheckExclusiveMinimum(n@)];
            }
        }
    }
    proof {
        assert(term == opt_op(match num_keyword(s, "exclusiveMinimum"@) {
            Option::Some(n) => Option::Some(OpView::CheckExclusiveMinimum(n)),
            Option::None => Option::None,
        }));
        acc = acc + term;
        assert(ops_view(out@) =~= g0 + acc);
        term = Seq::empty();
    }

    if let Option::Some(v) = lookup(schema, "exclusiveMaximum") {
        if let JsonValue::Num(n) = v {
            proof {
                lemma_ops_view_push(out@, Op::CheckExclusiveMaximum(*n));
            }
            out.push(Op::CheckExclusiveMaximum(*n));
            proof {
                term = seq![OpView::CheckExclusiveMaximum(n@)];
            }
        }
    }
    proof {
        assert(term == opt_op(match num_keyword(s, "exclusiveMaximum"@) {
            Option::Some(n) => Option::Some(OpView::CheckExclusiveMaximum(n)),
            Option::None => Option::None,
        }));
        acc = acc + term;
        assert(acc == range_terms(s));
        assert(ops_view(out@) =~= g0 + acc);
    }
}

/// Emits the node's string-length checks.
#[verifier::rlimit(50)]
fn emit_length_checks(schema: &JsonValue, out: &mut Vec<Op>)
    ensures
        ops_view(final(out)@) == ops_view(old(out)@) + length_terms(schema@),
{
    let ghost s = schema@;
    let ghost g0 = ops_view(out@);
    let ghost mut acc: Seq<OpView> = Seq::empty();
    let ghost mut term: Seq<OpView> = Seq::empty();

    if let Option::Some(v) = lookup(schema, "minLength") {
        if let JsonValue::Num(n) = v {
            if let Option::Some(c) = n.as_u64() {
                proof {
                    lemma_ops_view_push(out@, Op::CheckMinLength(c));
                }
                out.push(Op::CheckMinLength(c));
                proof {
                    term = seq![OpView::CheckMinLength(c as int)];
                }
            }
        }
    }
    proof {
        assert(term == opt_op(match count_keyword(s, "minLength"@) {
            Option::Some(c) => Option::Some(OpView::CheckMinLength(c)),
            Option::None => Option::None,
        }));
        acc = acc + term;
        assert(ops_view(out@) =~= g0 + acc);
        term = Seq::empty();
    }

    if let Option::Some(v) = lookup(schema, "maxLength") {
        if let JsonValue::Num(n) = v {
            if let Option::Some(c) = n.as_u64() {
                proof {
                    lemma_ops_view_push(out@, Op::CheckMaxLength(c));
                }
                out.push(Op::CheckMaxLength(c));
                proof {
                    term = seq![OpView::CheckMaxLength(c as int)];
                }
            }
        }
    }
    proof {
        assert(term == opt_op(match count_keyword(s, "maxLength"@) {
            Option::Some(c) => Option::Some(OpView::CheckMaxLength(c)),
            Option::None => Option::None,
        }));
        acc = acc + term;
        assert(acc == length_terms(s));
        assert(ops_view(out@) =~= g0 + acc);
    }
}

/// Emits the node's scalar checks: type, numeric range, string length.
fn emit_scalar_checks(schema: &JsonValue, out: &mut Vec<Op>)
    ensures
        ops_view(final(out)@) == ops_view(old(out)@) + scalar_ops(schema@),
{
    let ghost s = schema@;
    let ghost g0 = ops_view(out@);
    emit_type_check(schema, out);
    emit_range_checks(schema, out);
    proof {
        lemma_concat_associative(g0, type_term(s), range_terms(s));
    }
    emit_length_checks(schema, out);
    proof {
        lemma_concat_associative(g0, type_term(s) + range_terms(s), length_terms(s));
    }
}


/// Emits the node's array-size checks.
fn emit_size_checks(schema: &JsonValue, out: &mut Vec<Op>)
    ensures
        ops_view(final(out)@) == ops_view(old(out)@) + size_ops(schema@),
{
    let ghost s = schema@;
    let ghost g0 = ops_view(out@);
    let ghost mut acc: Seq<OpView> = Seq::empty();
    let ghost mut term: Seq<OpView> = Seq::empty();

    if let Option::Some(v) = lookup(schema, "minItems") {
        if let JsonValue::Num(n) = v {
            if let Option::Some(c) = n.as_u64() {
                proof {
                    lemma_ops_view_push(out@, Op::CheckMinItems(c));
                }
                out.push(Op::CheckMinItems(c));
                proof {
                    term = seq![OpView::CheckMinItems(c as int)];
                }
            }
        }
    }
    proof {
        assert(term == opt_op(match count_keyword(s, "minItems"@) {
            Option::Some(c) => Option::Some(OpView::CheckMinItems(c)),
            Option::None => Option::None,
        }));
        acc = acc + term;
        assert(ops_view(out@) =~= g0 + acc);
        term = Seq::empty();
    }

    if let Option::Some(v) = lookup(schema, "maxItems") {
        if let JsonValue::Num(n) = v {
            if let Option::Some(c) = n.as_u64() {
                proof {
                    lemma_ops_view_push(out@, Op::CheckMaxItems(c));
                }
                out.push(Op::CheckMaxItems(c));
                proof {
                    term = seq![OpView::CheckMaxItems(c as int)];
                }
            }
        }
    }
    proof {
        assert(term == opt_op(match count_keyword(s, "maxItems"@) {
            Option::Some(c) => Option::Some(OpView::CheckMaxItems(c)),
            Option::None => Option::None,
        }));
        acc = acc + term;
        assert(acc == size_ops(s));
        assert(ops_view(out@) =~= g0 + acc);
    }
}

/// Emits the node's whole operation window: scalar checks, the object
/// bracket, size checks, then the array bracket.
fn emit_node(schema: &JsonValue, out: &mut Vec<Op>)
    ensures
        ops_view(final(out)@) == ops_view(old(out)@) + node_ops(parse_schema(schema@)),
    decreases json_size(schema@), 1int,
{
    let ghost s = schema@;
    let ghost n = parse_schema(s);
    let ghost g0 = ops_view(out@);

    emit_scalar_checks(schema, out);
    emit_object_part(schema, out);
    proof {
        lemma_concat_associative(g0, n.scalars, obj_seg(n));
    }
    emit_size_checks(schema, out);
    proof {
        lemma_concat_associative(g0, n.scalars + obj_seg(n), n.sizes);
    }
    assert(ops_view(out@) == g0 + (n.scalars + obj_seg(n) + n.sizes));

    // array bracket
    let ghost g3 = ops_view(out@);
    if let Option::Some(sub) = lookup(schema, "items") {
        let ghost pre1 = out@;
        out.push(Op::EnterArray);
        proof {
            lemma_ops_view_push(pre1, Op::EnterArray);
            lemma_push_is_concat(ops_view(pre1), OpView::EnterArray);
        }
        let ghost pre2 = out@;
        out.push(Op::CheckArrayItems);
        proof {
            lemma_ops_view_push(pre2, Op::CheckArrayItems);
            lemma_push_is_concat(ops_view(pre2), OpView::CheckArrayItems);
            lemma_concat_associative(g3, seq![OpView::EnterArray], seq![OpView::CheckArrayItems]);
            assert(seq![OpView::EnterArray] + seq![OpView::CheckArrayItems]
                =~= seq![OpView::EnterArray, OpView::CheckArrayItems]);
            match s {
                JsonView::Obj(members) => {
                    lemma_obj_lookup_size(members, "items"@);
                },
                _ => {
                    assert(false);
                },
            }
        }
        let ghost head = seq![OpView::EnterArray, OpView::CheckArrayItems];
        assert(ops_view(out@) == g3 + head);
        let ghost w = node_ops(parse_schema(json_view(*sub)));
        emit_node(sub, out);
        proof {
            lemma_concat_associative(g3, head, w);
        }
        let ghost pre3 = out@;
        out.push(Op::ExitArray);
        proof {
            lemma_ops_view_push(pre3, Op::ExitArray);
            lemma_push_is_concat(ops_view(pre3), OpView::ExitArray);
            lemma_concat_associative(g3, head + w, seq![OpView::ExitArray]);
            assert(n.items == Option::Some(Box::new(parse_schema(json_view(*sub)))));
            assert(ops_view(out@) == g3 + (head + w + seq![OpView::ExitArray]));
        }
    } else {
        assert(n.items is None);
    }
    proof {
        if n.items is None {
            assert(g3 + arr_seg(n) =~= g3);
        }
        assert(ops_view(out@) == g3 + arr_seg(n));
        lemma_concat_associative(g0, n.scalars + obj_seg(n) + n.sizes, arr_seg(n));
        assert(node_ops(n) == n.scalars + obj_seg(n) + n.sizes + arr_seg(n));
    }
}

/// Emits the node's object bracket: `EnterObject`, one window per declared
/// property in document order, `ExitObject`; nothing when the node declares
/// no properties map.
fn emit_object_part(schema: &JsonValue, out: &mut Vec<Op>)
    ensures
        ops_view(final(out)@) == ops_view(old(out)@) + (match parse_schema(schema@).props {
            Option::Some(props) => seq![OpView::EnterObject] + props_ops(props, 0)
                + seq![OpView::ExitObject],
            Option::None => Seq::empty(),
        }),
    decreases json_size(schema@), 0int,
{
    let ghost s = schema@;
    let ghost g0 = ops_view(out@);
    let props_val = lookup(schema, "properties");
    if let Option::Some(pv) = props_val {
        if let JsonValue::Obj(pmembers) = pv {
            proof {
                lemma_member_view_seq(*pmembers, 0);
            }
            let ghost props_mv = member_view_seq(*pmembers, 0);
            let ghost pnodes = parse_props(s, props_mv, 0);
            proof {
                assert(properties_of(s) == Option::Some(props_mv));
                lemma_parse_props_index(s, props_mv, 0);
                lemma_ops_view_push(out@, Op::EnterObject);
            }
            out.push(Op::EnterObject);
            let ghost g1 = ops_view(out@);
            let req = lookup(schema, "required");
            let mut i: usize = 0;
            while i < pmembers.len()
                invariant
                    0 <= i <= pmembers@.len(),
                    s == schema@,
                    props_mv == member_view_seq(*pmembers, 0),
                    props_mv =~= Seq::new(
                        pmembers@.len() as nat,
                        |k: int| crate::value::MemberView {
                            key: pmembers@[k].key@,
                            value: json_view(pmembers@[k].value),
                        },
                    ),
                    properties_of(s) == Option::Some(props_mv),
                    pnodes == parse_props(s, props_mv, 0),
                    pnodes =~= Seq::new(
                        props_mv.len() as nat,
                        |k: int| crate::schema::PropNode {
                            key: props_mv[k].key,
                            required: required_has(s, props_mv[k].key),
                            sub: parse_schema(props_mv[k].value),
                        },
                    ),
                    match req {
                        Option::Some(rv) => keyword(s, "required"@)
                            == Option::Some(json_view(*rv)),
                        Option::None => keyword(s, "required"@) is None,
                    },
                    ops_view(out@) + props_ops(pnodes, i as int) =~= g1 + props_ops(pnodes, 0),
                decreases pmembers@.len() - i,
            {
                let ghost gpre = ops_view(out@);
                let ghost pre_ops = out@;
                let key: String = pmembers[i].key.clone();
                let is_req: bool = required_contains(req, &key);
                proof {
                    assert(is_req == required_has(s, props_mv[i as int].key));
                }
                out.push(Op::CheckProperty { key, required: is_req });
                proof {
                    lemma_ops_view_push(pre_ops, out@.last());
                }
                proof {
                    match s {
                        JsonView::Obj(smembers) => {
                            lemma_obj_lookup_size(smembers, "properties"@);
                        },
                        _ => {
                            assert(false);
                        },
                    }
                    lemma_member_size_seq_elem(props_mv, i as int);
                }
                emit_node(&pmembers[i].value, out);
                proof {
                    assert(props_ops(pnodes, i as int) == seq![
                        OpView::CheckProperty {
                            key: pnodes[i as int].key,
                            required: pnodes[i as int].required,
                        },
                    ] + node_ops(pnodes[i as int].sub) + props_ops(pnodes, i as int + 1));
                    assert(ops_view(out@) =~= gpre + seq![
                        OpView::CheckProperty {
                            key: pnodes[i as int].key,
                            required: pnodes[i as int].required,
                        },
                    ] + node_ops(pnodes[i as int].sub));
                    assert(ops_view(out@) + props_ops(pnodes, i as int + 1) =~= g1
                        + props_ops(pnodes, 0));
                }
                i = i + 1;
            }
            proof {
                lemma_ops_view_push(out@, Op::ExitObject);
            }
            out.push(Op::ExitObject);
            assert(ops_view(out@) =~= g0 + (seq![OpView::EnterObject] + props_ops(pnodes, 0)
                + seq![OpView::ExitObject]));
            assert(parse_schema(s).props == Option::Some(pnodes));
        } else {
            assert(parse_schema(s).props is None);
        }
    } else {
        assert(parse_schema(s).props is None);
    }
}

/// A compiled schema: the flat operation sequence of one schema document,
/// created once and never changed afterwards.
pub struct CompiledSchema {
    ops: Vec<Op>,
    source: Ghost<JsonView>,
}

impl CompiledSchema {
    /// The operations are exactly the compiled form of the source document.
    #[verifier::type_invariant]
    spec fn wf(self) -> bool {
        ops_view(self.ops@) == compiled_ops(self.source@)
    }

    /// The schema document this was compiled from.
    pub closed spec fn spec_source(self) -> JsonView {
        self.source@
    }

    /// The compiled operations: an ordered, immutable view of the
    /// instruction sequence.
    pub fn ops(&self) -> (r: &Vec<Op>)
        ensures
            ops_view(r@) == compiled_ops(self.spec_source()),
    {
        proof {
            use_type_invariant(self);
        }
        &self.ops
    }

    /// How many operations the compiled form has.
    pub fn len(&self) -> (r: usize)
        ensures
            r == compiled_ops(self.spec_source()).len(),
    {
        proof {
            use_type_invariant(self);
        }
        self.ops.len()
    }
}

/// Compiles a schema document into its flat operation sequence.  The one
/// recursive descent happens here; every later validation call only walks
/// the result.
pub fn compile(doc: &JsonValue) -> (r: CompiledSchema)
    ensures
        r.spec_source() == doc@,
{
    let mut ops: Vec<Op> = Vec::new();
    emit_node(doc, &mut ops);
    proof {
        lemma_ops_view_push(ops@, Op::Done);
    }
    ops.push(Op::Done);
    assert(ops_view(ops@) =~= compiled_ops(doc@));
    CompiledSchema { ops, source: Ghost(doc@) }
}

} // verus!
