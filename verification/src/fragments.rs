//! Building schema documents: inserting the target's schema-identifier
//! field and composing object and string schemas from parts.

use vstd::prelude::*;
use vstd::string::{StringExecFns, StrSliceExecFns};
use crate::types::JsonSchemaTarget;
use crate::value::{
    JsonValue, JsonView, Member, MemberView, Number, json_view, json_view_seq,
    member_view_seq, lemma_json_view_seq, lemma_member_view_seq,
};

verus! {

/// Replaces the first member with the key, or appends one.
pub open spec fn upsert(members: Seq<MemberView>, key: Seq<char>, value: JsonView) -> Seq<
    MemberView,
>
    decreases members.len(),
{
    if members.len() == 0 {
        seq![MemberView { key, value }]
    } else if members[0].key == key {
        seq![MemberView { key, value }] + members.drop_first()
    } else {
        seq![members[0]] + upsert(members.drop_first(), key, value)
    }
}

proof fn lemma_upsert_found(members: Seq<MemberView>, key: Seq<char>, value: JsonView, i: int)
    requires
        0 <= i < members.len(),
        members[i].key == key,
        forall|j: int| 0 <= j < i ==> (#[trigger] members[j]).key != key,
    ensures
        upsert(members, key, value) =~= members.update(i, MemberView { key, value }),
    decreases i,
{
    if i == 0 {
        assert(upsert(members, key, value) == seq![MemberView { key, value }]
            + members.drop_first());
    } else {
        lemma_upsert_found(members.drop_first(), key, value, i - 1);
        assert(members.update(i, MemberView { key, value }).drop_first()
            =~= members.drop_first().update(i - 1, MemberView { key, value }));
    }
}

proof fn lemma_upsert_absent(members: Seq<MemberView>, key: Seq<char>, value: JsonView)
    requires
        forall|j: int| 0 <= j < members.len() ==> (#[trigger] members[j]).key != key,
    ensures
        upsert(members, key, value) =~= members.push(MemberView { key, value }),
    decreases members.len(),
{
    if members.len() > 0 {
        lemma_upsert_absent(members.drop_first(), key, value);
        assert(members.push(MemberView { key, value }).drop_first() =~= members.drop_first().push(
            MemberView { key, value },
        ));
    }
}

/// Replaces the first member with the key, or appends one.
pub(crate) fn upsert_in(members: &mut Vec<Member>, key: &str, value: JsonValue)
    ensures
        member_view_seq(*final(members), 0) == upsert(
            member_view_seq(*old(members), 0),
            key@,
            json_view(value),
        ),
{
    proof {
        lemma_member_view_seq(*old(members), 0);
    }
    let ghost mv = member_view_seq(*old(members), 0);
    match find_member_first(members, key) {
        Option::Some(i) => {
            let old_m = members.remove(i);
            members.insert(i, Member { key: old_m.key, value });
            proof {
                assert(members@ =~= old(members)@.update(
                    i as int,
                    Member { key: old_m.key, value },
                ));
                lemma_member_view_seq(*members, 0);
                lemma_upsert_found(mv, key@, json_view(value), i as int);
                assert(member_view_seq(*members, 0) =~= mv.update(
                    i as int,
                    MemberView { key: key@, value: json_view(value) },
                ));
            }
        },
        Option::None => {
            let ghost pre = members@;
            members.push(Member { key: key.to_owned(), value });
            proof {
                lemma_member_view_seq(*members, 0);
                lemma_upsert_absent(mv, key@, json_view(value));
                assert(member_view_seq(*members, 0) =~= mv.push(
                    MemberView { key: key@, value: json_view(value) },
                ));
            }
        },
    }
}

/// The position of the first member with the given key, if any.
fn find_member_first(members: &Vec<Member>, key: &str) -> (r: Option<usize>)
    ensures
        match r {
            Option::Some(i) => {
                &&& 0 <= i < members@.len()
                &&& members@[i as int].key@ == key@
                &&& forall|j: int| 0 <= j < i ==> (#[trigger] members@[j]).key@ != key@
            },
            Option::None => forall|j: int| 0 <= j < members@.len()
                ==> (#[trigger] members@[j]).key@ != key@,
        },
{
    let mut i: usize = 0;
    while i < members.len()
        invariant
            0 <= i <= members@.len(),
            forall|j: int| 0 <= j < i ==> (#[trigger] members@[j]).key@ != key@,
        decreases members@.len() - i,
    {
        if crate::value::str_eq(members[i].key.as_str(), key) {
            return Option::Some(i);
        }
        i = i + 1;
    }
    Option::None
}

/// The target's schema-identifier value.
pub open spec fn uri_view(target: JsonSchemaTarget) -> Seq<char> {
    match target {
        JsonSchemaTarget::Draft202012 => "https://json-schema.org/draft/2020-12/schema"@,
        JsonSchemaTarget::Draft07 => "http://json-schema.org/draft-07/schema#"@,
        JsonSchemaTarget::OpenApi30 => ""@,
    }
}

/// A schema document with the target's schema-identifier field added:
/// untouched for targets that define none, and for non-object documents.
pub open spec fn with_schema_uri(doc: JsonView, target: JsonSchemaTarget) -> JsonView {
    match doc {
        JsonView::Obj(members) => if uri_view(target).len() > 0 {
            JsonView::Obj(upsert(members, "$schema"@, JsonView::Str(uri_view(target))))
        } else {
            doc
        },
        _ => doc,
    }
}

/// Adds the target's schema-identifier field to an object document.
pub fn add_schema_uri(schema: &mut JsonValue, target: JsonSchemaTarget)
    ensures
        json_view(*final(schema)) == with_schema_uri(json_view(*old(schema)), target),
{
    proof {
        reveal_strlit("https://json-schema.org/draft/2020-12/schema");
        reveal_strlit("http://json-schema.org/draft-07/schema#");
        reveal_strlit("");
    }
    let uri: &str = target.schema_uri();
    if uri.unicode_len() == 0 {
        return ;
    }
    match schema {
        JsonValue::Obj(members) => {
            upsert_in(members, "$schema", JsonValue::Str(uri.to_owned()));
        },
        _ => {},
    }
}

/// Builds an object schema from its properties and required names; the
/// `required` list appears only when it is not empty, and the target's
/// schema-identifier field is added where the target defines one.
pub fn create_object_schema(
    target: JsonSchemaTarget,
    properties: Vec<Member>,
    required: Vec<String>,
) -> (r: JsonValue)
    ensures
        r@ == with_schema_uri(
            JsonView::Obj(
                seq![
                    MemberView { key: "type"@, value: JsonView::Str("object"@) },
                    MemberView {
                        key: "properties"@,
                        value: JsonView::Obj(member_view_seq(properties, 0)),
                    },
                ] + (if required@.len() == 0 {
                    Seq::<MemberView>::empty()
                } else {
                    seq![
                        MemberView {
                            key: "required"@,
                            value: JsonView::Arr(
                                required@.map_values(|s: String| JsonView::Str(s@)),
                            ),
                        },
                    ]
                }),
            ),
            target,
        ),
{
    let ghost props_mv = member_view_seq(properties, 0);
    let mut members: Vec<Member> = Vec::new();
    members.push(Member { key: String::from_str("type"), value: JsonValue::Str(String::from_str("object")) });
    members.push(Member { key: String::from_str("properties"), value: JsonValue::Obj(properties) });
    if required.len() > 0 {
        let mut names: Vec<JsonValue> = Vec::new();
        let mut i: usize = 0;
        while i < required.len()
            invariant
                0 <= i <= required@.len(),
                names@.len() == i,
                forall|k: int| 0 <= k < i ==> json_view(#[trigger] names@[k])
                    == JsonView::Str(required@[k]@),
            decreases required@.len() - i,
        {
            names.push(JsonValue::Str(required[i].clone()));
            i = i + 1;
        }
        proof {
            lemma_json_view_seq(names, 0);
            assert(json_view_seq(names, 0) =~= required@.map_values(
                |s: String| JsonView::Str(s@),
            ));
        }
        members.push(Member { key: String::from_str("required"), value: JsonValue::Arr(names) });
    }
    let mut schema = JsonValue::Obj(members);
    proof {
        lemma_member_view_seq(schema->Obj_0, 0);
        assert(member_view_seq(schema->Obj_0, 0) =~= seq![
            MemberView { key: "type"@, value: JsonView::Str("object"@) },
            MemberView { key: "properties"@, value: JsonView::Obj(props_mv) },
        ] + (if required@.len() == 0 {
            Seq::<MemberView>::empty()
        } else {
            seq![
                MemberView {
                    key: "required"@,
                    value: JsonView::Arr(required@.map_values(|s: String| JsonView::Str(s@))),
                },
            ]
        }));
    }
    add_schema_uri(&mut schema, target);
    schema
}

/// Builds a string schema carrying the given length constraints.
pub fn string_schema_with_constraints(min_length: Option<u64>, max_length: Option<u64>) -> (r:
    JsonValue)
    ensures
        r@ == JsonView::Obj(
            seq![MemberView { key: "type"@, value: JsonView::Str("string"@) }] + (
            match min_length {
                Option::Some(c) => seq![
                    MemberView {
                        key: "minLength"@,
                        value: JsonView::Num(crate::value::NumView { m: c as int, s: 0 }),
                    },
                ],
                Option::None => Seq::<MemberView>::empty(),
            }) + (match max_length {
                Option::Some(c) => seq![
                    MemberView {
                        key: "maxLength"@,
                        value: JsonView::Num(crate::value::NumView { m: c as int, s: 0 }),
                    },
                ],
                Option::None => Seq::<MemberView>::empty(),
            }),
        ),
{
    let mut members: Vec<Member> = Vec::new();
    members.push(Member { key: String::from_str("type"), value: JsonValue::Str(String::from_str("string")) });
    if let Option::Some(c) = min_length {
        members.push(Member {
            key: String::from_str("minLength"),
            value: JsonValue::Num(Number::from_u64(c)),
        });
    }
    if let Option::Some(c) = max_length {
        members.push(Member {
            key: String::from_str("maxLength"),
            value: JsonValue::Num(Number::from_u64(c)),
        });
    }
    let schema = JsonValue::Obj(members);
    proof {
        lemma_member_view_seq(schema->Obj_0, 0);
        assert(member_view_seq(schema->Obj_0, 0) =~= seq![
            MemberView { key: "type"@, value: JsonView::Str("string"@) },
        ] + (match min_length {
            Option::Some(c) => seq![
                MemberView {
                    key: "minLength"@,
                    value: JsonView::Num(crate::value::NumView { m: c as int, s: 0 }),
                },
            ],
            Option::None => Seq::<MemberView>::empty(),
        }) + (match max_length {
            Option::Some(c) => seq![
                MemberView {
                    key: "maxLength"@,
                    value: JsonView::Num(crate::value::NumView { m: c as int, s: 0 }),
                },
            ],
            Option::None => Seq::<MemberView>::empty(),
        }));
    }
    schema
}

} // verus!
