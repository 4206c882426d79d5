//! What a compiled schema means: the exact list of issues its execution
//! reports for a value, defined over the parsed schema tree.  Every
//! execution engine is verified against this one definition.

use vstd::prelude::*;
use crate::value::{
    JsonView, arr_elems, json_size, json_size_seq, obj_lookup, lemma_json_size_seq_elem,
};
use crate::ops::{OpView, check_passes, check_message, missing_property_message};
use crate::schema::{SchemaNode, PropNode, parse_schema};
use crate::types::{IssueView, SegView};

verus! {

/// The issue a failed check reports at `path`: an issue at the root
/// carries no path at all.
pub open spec fn issue_at(message: Seq<char>, path: Seq<SegView>) -> IssueView {
    IssueView {
        message,
        path: if path.len() == 0 {
            Option::None
        } else {
            Option::Some(path)
        },
    }
}

/// The named member of a focused value; nothing unless the value is an
/// object that has the key.
pub open spec fn value_member(v: JsonView, key: Seq<char>) -> Option<JsonView> {
    match v {
        JsonView::Obj(members) => obj_lookup(members, key),
        _ => Option::None,
    }
}

/// Issues of a list of scalar checks against the focused value, in order.
pub open spec fn checks_issues(ops: Seq<OpView>, v: JsonView, path: Seq<SegView>) -> Seq<IssueView>
    decreases ops.len(),
{
    if ops.len() == 0 {
        Seq::empty()
    } else {
        (if check_passes(ops[0], v) {
            Seq::empty()
        } else {
            seq![issue_at(check_message(ops[0], v), path)]
        }) + checks_issues(ops.drop_first(), v, path)
    }
}

/// The issues a schema node reports for the value focused at `path`:
/// scalar checks, then the declared properties in order, then array-size
/// checks, then every array element against the item sub-schema.
pub open spec fn node_issues(n: SchemaNode, v: JsonView, path: Seq<SegView>) -> Seq<IssueView>
    decreases n, json_size(v), 3int,
{
    checks_issues(n.scalars, v, path) + obj_stage_issues(n, v, path)
        + checks_issues(n.sizes, v, path) + items_stage_issues(n, v, path)
}

/// The issues of the node's object bracket.
pub open spec fn obj_stage_issues(n: SchemaNode, v: JsonView, path: Seq<SegView>) -> Seq<IssueView>
    decreases n, json_size(v), 2int,
{
    match n.props {
        Option::Some(props) => props_issues(props, v, path, 0),
        Option::None => Seq::empty(),
    }
}

/// The issues of the node's array bracket.
pub open spec fn items_stage_issues(n: SchemaNode, v: JsonView, path: Seq<SegView>) -> Seq<IssueView>
    decreases n, json_size(v), 2int,
{
    match n.items {
        Option::Some(sub) => items_issues(*sub, arr_elems(v), path, 0),
        Option::None => Seq::empty(),
    }
}

/// The issues of the properties `props[i..]`: a present property is
/// validated under its key's path; an absent required one is a single
/// issue there; an absent optional one reports nothing.
pub open spec fn props_issues(props: Seq<PropNode>, v: JsonView, path: Seq<SegView>, i: int) -> Seq<IssueView>
    decreases props, json_size(v), props.len() - i,
{
    if i < 0 || i >= props.len() {
        Seq::empty()
    } else {
        (match value_member(v, props[i].key) {
            Option::Some(sub_v) => node_issues(
                props[i].sub,
                sub_v,
                path.push(SegView::Key(props[i].key)),
            ),
            Option::None => if props[i].required {
                seq![
                    issue_at(
                        missing_property_message(props[i].key),
                        path.push(SegView::Key(props[i].key)),
                    ),
                ]
            } else {
                Seq::empty()
            },
        }) + props_issues(props, v, path, i + 1)
    }
}

/// The issues of the array elements `elems[j..]`, each validated against
/// the item sub-schema under its index's path.
pub open spec fn items_issues(sub: SchemaNode, elems: Seq<JsonView>, path: Seq<SegView>, j: int) -> Seq<IssueView>
    decreases sub, json_size_seq(elems) + 1, elems.len() - j,
        via items_issues_dec
{
    if j < 0 || j >= elems.len() {
        Seq::empty()
    } else {
        node_issues(sub, elems[j], path.push(SegView::Index(j)))
            + items_issues(sub, elems, path, j + 1)
    }
}

#[via_fn]
proof fn items_issues_dec(sub: SchemaNode, elems: Seq<JsonView>, path: Seq<SegView>, j: int) {
    if 0 <= j < elems.len() {
        lemma_json_size_seq_elem(elems, j);
    }
}

/// The full list of issues a compiled schema reports for a value.
pub open spec fn schema_issues(s: JsonView, v: JsonView) -> Seq<IssueView> {
    node_issues(parse_schema(s), v, Seq::empty())
}

/// Whether the value satisfies the schema: no check fails.
pub open spec fn schema_valid(s: JsonView, v: JsonView) -> bool {
    schema_issues(s, v).len() == 0
}

/// The engines agree: for every schema and value, the full-diagnostic
/// engine reports success exactly when the boolean fast path (and the
/// direct engine) answers true, since all three are pinned to
/// `schema_valid`, and an empty issue list is exactly validity.
pub proof fn lemma_engines_agree(s: JsonView, v: JsonView)
    ensures
        (schema_issues(s, v) =~= Seq::<IssueView>::empty()) == schema_valid(s, v),
{
}

} // verus!
