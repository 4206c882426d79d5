//! The validation trait for typed values, its implementations for the
//! primitive types and the constrained-string types, and the free helpers
//! for type names and target parsing.

use vstd::prelude::*;
use vstd::string::{StringExecFns, StrSliceExecFns};
use crate::fragments::{with_schema_uri, upsert, add_schema_uri};
use crate::schema::parse_tag;
use crate::ops::{TypeTag, tag_matches, spec_type_name};
use crate::types::{ValidationResult, ValidationIssue, IssueView, JsonSchemaTarget, issues_view};
use crate::value::{
    JsonValue, JsonView, Member, MemberView, NumView, json_view, json_view_seq,
    member_view_seq, lemma_json_view_seq, lemma_member_view_seq, str_eq_ci,
    eq_ignore_ascii_case, dec_str, u64_string,
};

verus! {

/// A type that can validate an untyped value into itself.
pub trait Valrs: Sized {
    /// The validated output type.
    type Output;

    /// Which values validate successfully.
    spec fn spec_accepts(v: JsonView) -> bool;

    /// What the returned output says of the accepted value.
    spec fn output_matches(v: JsonView, out: &Self::Output) -> bool;

    /// The one message reported when a value is rejected.
    spec fn failure_message(v: JsonView) -> Seq<char>;

    /// Validates an untyped value and returns a typed result: success
    /// exactly on the accepted values, with a faithful output; a rejection
    /// carries exactly one issue, with the type's message and no path.
    fn validate(value: &JsonValue) -> (r: ValidationResult<Self::Output>)
        ensures
            r.spec_is_success() == Self::spec_accepts(value@),
            r matches ValidationResult::Success(out) ==> Self::output_matches(value@, &out),
            !r.spec_is_success() ==> r.spec_issues() == seq![
                IssueView { message: Self::failure_message(value@), path: Option::None },
            ],
    ;
}

/// A validating type that can also describe itself as a schema document.
pub trait StandardJsonSchema: Valrs {
    /// The schema document for each target version.
    spec fn spec_schema(target: JsonSchemaTarget) -> JsonView;

    /// The schema for the input type.
    fn json_schema_input(target: JsonSchemaTarget) -> (r: JsonValue)
        ensures
            r@ == Self::spec_schema(target),
    ;

    /// The schema for the output type; these validators do not transform,
    /// so it equals the input schema.
    fn json_schema_output(target: JsonSchemaTarget) -> (r: JsonValue)
        ensures
            r@ == Self::spec_schema(target),
    ;
}

/// A type's schema for use as a property of a larger object schema: the
/// bare fragment, without a schema-identifier field.
pub fn property_schema<T: StandardJsonSchema>() -> (r: JsonValue)
    ensures
        r@ == T::spec_schema(JsonSchemaTarget::OpenApi30),
{
    T::json_schema_input(JsonSchemaTarget::OpenApi30)
}

/// A one-keyword schema document: `{ "type": <name> }`, plus the target's
/// schema-identifier field.  This is also the schema document of the
/// floating-point number types, which validate outside the library:
/// `simple_type_schema("number", target)`.
pub fn simple_type_schema(name: &str, target: JsonSchemaTarget) -> (r: JsonValue)
    ensures
        r@ == with_schema_uri(
            JsonView::Obj(seq![MemberView { key: "type"@, value: JsonView::Str(name@) }]),
            target,
        ),
{
    let mut members: Vec<Member> = Vec::new();
    members.push(Member { key: String::from_str("type"), value: JsonValue::Str(name.to_owned()) });
    let mut schema = JsonValue::Obj(members);
    proof {
        lemma_member_view_seq(schema->Obj_0, 0);
        assert(member_view_seq(schema->Obj_0, 0) =~= seq![
            MemberView { key: "type"@, value: JsonView::Str(name@) },
        ]);
    }
    add_schema_uri(&mut schema, target);
    schema
}

impl Valrs for String {
    type Output = String;

    open spec fn spec_accepts(v: JsonView) -> bool {
        v is Str
    }

    open spec fn output_matches(v: JsonView, out: &String) -> bool {
        v == JsonView::Str(out@)
    }

    open spec fn failure_message(v: JsonView) -> Seq<char> {
        "Expected string"@
    }

    fn validate(value: &JsonValue) -> (r: ValidationResult<String>) {
        match value {
            JsonValue::Str(s) => ValidationResult::success(s.clone()),
            _ => ValidationResult::failure("Expected string"),
        }
    }
}

impl StandardJsonSchema for String {
    open spec fn spec_schema(target: JsonSchemaTarget) -> JsonView {
        with_schema_uri(
            JsonView::Obj(seq![MemberView { key: "type"@, value: JsonView::Str("string"@) }]),
            target,
        )
    }

    fn json_schema_input(target: JsonSchemaTarget) -> (r: JsonValue) {
        simple_type_schema("string", target)
    }

    fn json_schema_output(target: JsonSchemaTarget) -> (r: JsonValue) {
        simple_type_schema("string", target)
    }
}

impl Valrs for bool {
    type Output = bool;

    open spec fn spec_accepts(v: JsonView) -> bool {
        v is Bool
    }

    open spec fn output_matches(v: JsonView, out: &bool) -> bool {
        v == JsonView::Bool(*out)
    }

    open spec fn failure_message(v: JsonView) -> Seq<char> {
        "Expected boolean"@
    }

    fn validate(value: &JsonValue) -> (r: ValidationResult<bool>) {
        match value {
            JsonValue::Bool(b) => ValidationResult::success(*b),
            _ => ValidationResult::failure("Expected boolean"),
        }
    }
}

impl StandardJsonSchema for bool {
    open spec fn spec_schema(target: JsonSchemaTarget) -> JsonView {
        with_schema_uri(
            JsonView::Obj(seq![MemberView { key: "type"@, value: JsonView::Str("boolean"@) }]),
            target,
        )
    }

    fn json_schema_input(target: JsonSchemaTarget) -> (r: JsonValue) {
        simple_type_schema("boolean", target)
    }

    fn json_schema_output(target: JsonSchemaTarget) -> (r: JsonValue) {
        simple_type_schema("boolean", target)
    }
}

impl Valrs for () {
    type Output = ();

    open spec fn spec_accepts(v: JsonView) -> bool {
        v is Null
    }

    open spec fn output_matches(v: JsonView, out: &()) -> bool {
        true
    }

    open spec fn failure_message(v: JsonView) -> Seq<char> {
        "Expected null"@
    }

    fn validate(value: &JsonValue) -> (r: ValidationResult<()>) {
        match value {
            JsonValue::Null => ValidationResult::success(()),
            _ => ValidationResult::failure("Expected null"),
        }
    }
}

impl StandardJsonSchema for () {
    open spec fn spec_schema(target: JsonSchemaTarget) -> JsonView {
        with_schema_uri(
            JsonView::Obj(seq![MemberView { key: "type"@, value: JsonView::Str("null"@) }]),
            target,
        )
    }

    fn json_schema_input(target: JsonSchemaTarget) -> (r: JsonValue) {
        simple_type_schema("null", target)
    }

    fn json_schema_output(target: JsonSchemaTarget) -> (r: JsonValue) {
        simple_type_schema("null", target)
    }
}

/// Accepts a value written as an integer within the given bounds; the
/// returned number is its value.
fn validate_int_range(value: &JsonValue, lo: i64, hi: i64, range_message: &str) -> (r:
    ValidationResult<i64>)
    ensures
        r.spec_is_success() == (value@ matches JsonView::Num(n) && n.s == 0 && lo <= n.m <= hi),
        r matches ValidationResult::Success(x) ==> value@ == JsonView::Num(
            NumView { m: x as int, s: 0 },
        ),
        !r.spec_is_success() ==> r.spec_issues() == seq![
            IssueView {
                message: (if value@ matches JsonView::Num(n) && n.s == 0 && i64::MIN <= n.m
                    <= i64::MAX {
                    range_message@
                } else {
                    "Expected integer"@
                }),
                path: Option::None,
            },
        ],
{
    match value {
        JsonValue::Num(n) => match n.as_i64() {
            Option::Some(x) => if lo <= x && x <= hi {
                ValidationResult::success(x)
            } else {
                ValidationResult::failure(range_message)
            },
            Option::None => ValidationResult::failure("Expected integer"),
        },
        _ => ValidationResult::failure("Expected integer"),
    }
}

/// Accepts a value written as a non-negative integer within the bound.
fn validate_uint_range(value: &JsonValue, hi: u64, range_message: &str) -> (r: ValidationResult<
    u64,
>)
    ensures
        r.spec_is_success() == (value@ matches JsonView::Num(n) && n.s == 0 && 0 <= n.m <= hi),
        r matches ValidationResult::Success(x) ==> value@ == JsonView::Num(
            NumView { m: x as int, s: 0 },
        ),
        !r.spec_is_success() ==> r.spec_issues() == seq![
            IssueView {
                message: (if value@ matches JsonView::Num(n) && n.s == 0 && 0 <= n.m
                    <= u64::MAX {
                    range_message@
                } else {
                    "Expected non-negative integer"@
                }),
                path: Option::None,
            },
        ],
{
    match value {
        JsonValue::Num(n) => match n.as_u64() {
            Option::Some(x) => if x <= hi {
                ValidationResult::success(x)
            } else {
                ValidationResult::failure(range_message)
            },
            Option::None => ValidationResult::failure("Expected non-negative integer"),
        },
        _ => ValidationResult::failure("Expected non-negative integer"),
    }
}

impl Valrs for i8 {
    type Output = i8;

    open spec fn spec_accepts(v: JsonView) -> bool {
        v matches JsonView::Num(n) && n.s == 0 && i8::MIN <= n.m <= i8::MAX
    }

    open spec fn output_matches(v: JsonView, out: &i8) -> bool {
        v == JsonView::Num(NumView { m: *out as int, s: 0 })
    }

    open spec fn failure_message(v: JsonView) -> Seq<char> {
        if v matches JsonView::Num(n) && n.s == 0 && i64::MIN <= n.m <= i64::MAX {
            "Integer out of range for i8 (-128 to 127)"@
        } else {
            "Expected integer"@
        }
    }

    fn validate(value: &JsonValue) -> (r: ValidationResult<i8>) {
        match validate_int_range(value, -128, 127, "Integer out of range for i8 (-128 to 127)") {
            ValidationResult::Success(x) => ValidationResult::success(x as i8),
            ValidationResult::Failure(issues) => ValidationResult::failures(issues),
        }
    }
}

impl Valrs for i16 {
    type Output = i16;

    open spec fn spec_accepts(v: JsonView) -> bool {
        v matches JsonView::Num(n) && n.s == 0 && i16::MIN <= n.m <= i16::MAX
    }

    open spec fn output_matches(v: JsonView, out: &i16) -> bool {
        v == JsonView::Num(NumView { m: *out as int, s: 0 })
    }

    open spec fn failure_message(v: JsonView) -> Seq<char> {
        if v matches JsonView::Num(n) && n.s == 0 && i64::MIN <= n.m <= i64::MAX {
            "Integer out of range for i16 (-32768 to 32767)"@
        } else {
            "Expected integer"@
        }
    }

    fn validate(value: &JsonValue) -> (r: ValidationResult<i16>) {
        match validate_int_range(
            value,
            -32768,
            32767,
            "Integer out of range for i16 (-32768 to 32767)",
        ) {
            ValidationResult::Success(x) => ValidationResult::success(x as i16),
            ValidationResult::Failure(issues) => ValidationResult::failures(issues),
        }
    }
}

impl Valrs for i32 {
    type Output = i32;

    open spec fn spec_accepts(v: JsonView) -> bool {
        v matches JsonView::Num(n) && n.s == 0 && i32::MIN <= n.m <= i32::MAX
    }

    open spec fn output_matches(v: JsonView, out: &i32) -> bool {
        v == JsonView::Num(NumView { m: *out as int, s: 0 })
    }

    open spec fn failure_message(v: JsonView) -> Seq<char> {
        if v matches JsonView::Num(n) && n.s == 0 && i64::MIN <= n.m <= i64::MAX {
            "Integer out of range for i32 (-2147483648 to 2147483647)"@
        } else {
            "Expected integer"@
        }
    }

    fn validate(value: &JsonValue) -> (r: ValidationResult<i32>) {
        match validate_int_range(
            value,
            -2147483648,
            2147483647,
            "Integer out of range for i32 (-2147483648 to 2147483647)",
        ) {
            ValidationResult::Success(x) => ValidationResult::success(x as i32),
            ValidationResult::Failure(issues) => ValidationResult::failures(issues),
        }
    }
}

impl Valrs for i64 {
    type Output = i64;

    open spec fn spec_accepts(v: JsonView) -> bool {
        v matches JsonView::Num(n) && n.s == 0 && i64::MIN <= n.m <= i64::MAX
    }

    open spec fn output_matches(v: JsonView, out: &i64) -> bool {
        v == JsonView::Num(NumView { m: *out as int, s: 0 })
    }

    open spec fn failure_message(v: JsonView) -> Seq<char> {
        "Expected integer"@
    }

    fn validate(value: &JsonValue) -> (r: ValidationResult<i64>) {
        validate_int_range(value, i64::MIN, i64::MAX, "Expected integer")
    }
}

impl Valrs for u8 {
    type Output = u8;

    open spec fn spec_accepts(v: JsonView) -> bool {
        v matches JsonView::Num(n) && n.s == 0 && 0 <= n.m <= u8::MAX
    }

    open spec fn output_matches(v: JsonView, out: &u8) -> bool {
        v == JsonView::Num(NumView { m: *out as int, s: 0 })
    }

    open spec fn failure_message(v: JsonView) -> Seq<char> {
        if v matches JsonView::Num(n) && n.s == 0 && 0 <= n.m <= u64::MAX {
            "Integer out of range for u8 (0 to 255)"@
        } else {
            "Expected non-negative integer"@
        }
    }

    fn validate(value: &JsonValue) -> (r: ValidationResult<u8>) {
        match validate_uint_range(value, 255, "Integer out of range for u8 (0 to 255)") {
            ValidationResult::Success(x) => ValidationResult::success(x as u8),
            ValidationResult::Failure(issues) => ValidationResult::failures(issues),
        }
    }
}

impl Valrs for u16 {
    type Output = u16;

    open spec fn spec_accepts(v: JsonView) -> bool {
        v matches JsonView::Num(n) && n.s == 0 && 0 <= n.m <= u16::MAX
    }

    open spec fn output_matches(v: JsonView, out: &u16) -> bool {
        v == JsonView::Num(NumView { m: *out as int, s: 0 })
    }

    open spec fn failure_message(v: JsonView) -> Seq<char> {
        if v matches JsonView::Num(n) && n.s == 0 && 0 <= n.m <= u64::MAX {
            "Integer out of range for u16 (0 to 65535)"@
        } else {
            "Expected non-negative integer"@
        }
    }

    fn validate(value: &JsonValue) -> (r: ValidationResult<u16>) {
        match validate_uint_range(value, 65535, "Integer out of range for u16 (0 to 65535)") {
            ValidationResult::Success(x) => ValidationResult::success(x as u16),
            ValidationResult::Failure(issues) => ValidationResult::failures(issues),
        }
    }
}

impl Valrs for u32 {
    type Output = u32;

    open spec fn spec_accepts(v: JsonView) -> bool {
        v matches JsonView::Num(n) && n.s == 0 && 0 <= n.m <= u32::MAX
    }

    open spec fn output_matches(v: JsonView, out: &u32) -> bool {
        v == JsonView::Num(NumView { m: *out as int, s: 0 })
    }

    open spec fn failure_message(v: JsonView) -> Seq<char> {
        if v matches JsonView::Num(n) && n.s == 0 && 0 <= n.m <= u64::MAX {
            "Integer out of range for u32 (0 to 4294967295)"@
        } else {
            "Expected non-negative integer"@
        }
    }

    fn validate(value: &JsonValue) -> (r: ValidationResult<u32>) {
        match validate_uint_range(
            value,
            4294967295,
            "Integer out of range for u32 (0 to 4294967295)",
        ) {
            ValidationResult::Success(x) => ValidationResult::success(x as u32),
            ValidationResult::Failure(issues) => ValidationResult::failures(issues),
        }
    }
}

impl Valrs for u64 {
    type Output = u64;

    open spec fn spec_accepts(v: JsonView) -> bool {
        v matches JsonView::Num(n) && n.s == 0 && 0 <= n.m <= u64::MAX
    }

    open spec fn output_matches(v: JsonView, out: &u64) -> bool {
        v == JsonView::Num(NumView { m: *out as int, s: 0 })
    }

    open spec fn failure_message(v: JsonView) -> Seq<char> {
        "Expected non-negative integer"@
    }

    fn validate(value: &JsonValue) -> (r: ValidationResult<u64>) {
        validate_uint_range(value, u64::MAX, "Expected integer")
    }
}

/// An integer type's schema document.
fn integer_schema(target: JsonSchemaTarget) -> (r: JsonValue)
    ensures
        r@ == with_schema_uri(
            JsonView::Obj(seq![MemberView { key: "type"@, value: JsonView::Str("integer"@) }]),
            target,
        ),
{
    simple_type_schema("integer", target)
}

impl StandardJsonSchema for i8 {
    open spec fn spec_schema(target: JsonSchemaTarget) -> JsonView {
        with_schema_uri(
            JsonView::Obj(seq![MemberView { key: "type"@, value: JsonView::Str("integer"@) }]),
            target,
        )
    }

    fn json_schema_input(target: JsonSchemaTarget) -> (r: JsonValue) {
        integer_schema(target)
    }

    fn json_schema_output(target: JsonSchemaTarget) -> (r: JsonValue) {
        integer_schema(target)
    }
}

impl StandardJsonSchema for i16 {
    open spec fn spec_schema(target: JsonSchemaTarget) -> JsonView {
        with_schema_uri(
            JsonView::Obj(seq![MemberView { key: "type"@, value: JsonView::Str("integer"@) }]),
            target,
        )
    }

    fn json_schema_input(target: JsonSchemaTarget) -> (r: JsonValue) {
        integer_schema(target)
    }

    fn json_schema_output(target: JsonSchemaTarget) -> (r: JsonValue) {
        integer_schema(target)
    }
}

impl StandardJsonSchema for i32 {
    open spec fn spec_schema(target: JsonSchemaTarget) -> JsonView {
        with_schema_uri(
            JsonView::Obj(seq![MemberView { key: "type"@, value: JsonView::Str("integer"@) }]),
            target,
        )
    }

    fn json_schema_input(target: JsonSchemaTarget) -> (r: JsonValue) {
        integer_schema(target)
    }

    fn json_schema_output(target: JsonSchemaTarget) -> (r: JsonValue) {
        integer_schema(target)
    }
}

impl StandardJsonSchema for i64 {
    open spec fn spec_schema(target: JsonSchemaTarget) -> JsonView {
        with_schema_uri(
            JsonView::Obj(seq![MemberView { key: "type"@, value: JsonView::Str("integer"@) }]),
            target,
        )
    }

    fn json_schema_input(target: JsonSchemaTarget) -> (r: JsonValue) {
        integer_schema(target)
    }

    fn json_schema_output(target: JsonSchemaTarget) -> (r: JsonValue) {
        integer_schema(target)
    }
}

impl StandardJsonSchema for u8 {
    open spec fn spec_schema(target: JsonSchemaTarget) -> JsonView {
        with_schema_uri(
            JsonView::Obj(seq![MemberView { key: "type"@, value: JsonView::Str("integer"@) }]),
            target,
        )
    }

    fn json_schema_input(target: JsonSchemaTarget) -> (r: JsonValue) {
        integer_schema(target)
    }

    fn json_schema_output(target: JsonSchemaTarget) -> (r: JsonValue) {
        integer_schema(target)
    }
}

impl StandardJsonSchema for u16 {
    open spec fn spec_schema(target: JsonSchemaTarget) -> JsonView {
        with_schema_uri(
            JsonView::Obj(seq![MemberView { key: "type"@, value: JsonView::Str("integer"@) }]),
            target,
        )
    }

    fn json_schema_input(target: JsonSchemaTarget) -> (r: JsonValue) {
        integer_schema(target)
    }

    fn json_schema_output(target: JsonSchemaTarget) -> (r: JsonValue) {
        integer_schema(target)
    }
}

impl StandardJsonSchema for u32 {
    open spec fn spec_schema(target: JsonSchemaTarget) -> JsonView {
        with_schema_uri(
            JsonView::Obj(seq![MemberView { key: "type"@, value: JsonView::Str("integer"@) }]),
            target,
        )
    }

    fn json_schema_input(target: JsonSchemaTarget) -> (r: JsonValue) {
        integer_schema(target)
    }

    fn json_schema_output(target: JsonSchemaTarget) -> (r: JsonValue) {
        integer_schema(target)
    }
}

impl StandardJsonSchema for u64 {
    open spec fn spec_schema(target: JsonSchemaTarget) -> JsonView {
        with_schema_uri(
            JsonView::Obj(seq![MemberView { key: "type"@, value: JsonView::Str("integer"@) }]),
            target,
        )
    }

    fn json_schema_input(target: JsonSchemaTarget) -> (r: JsonValue) {
        integer_schema(target)
    }

    fn json_schema_output(target: JsonSchemaTarget) -> (r: JsonValue) {
        integer_schema(target)
    }
}

impl<T: Valrs> Valrs for Option<T> {
    type Output = Option<T::Output>;

    open spec fn spec_accepts(v: JsonView) -> bool {
        v is Null || T::spec_accepts(v)
    }

    open spec fn output_matches(v: JsonView, out: &Option<T::Output>) -> bool {
        if v is Null {
            out is None
        } else {
            out matches Option::Some(inner) && T::output_matches(v, inner)
        }
    }

    open spec fn failure_message(v: JsonView) -> Seq<char> {
        T::failure_message(v)
    }

    fn validate(value: &JsonValue) -> (r: ValidationResult<Option<T::Output>>) {
        match value {
            JsonValue::Null => ValidationResult::success(Option::None),
            _ => match T::validate(value) {
                ValidationResult::Success(out) => ValidationResult::success(Option::Some(out)),
                ValidationResult::Failure(issues) => ValidationResult::failures(issues),
            },
        }
    }
}

impl<T: StandardJsonSchema> StandardJsonSchema for Option<T> {
    open spec fn spec_schema(target: JsonSchemaTarget) -> JsonView {
        match target {
            JsonSchemaTarget::OpenApi30 => match T::spec_schema(JsonSchemaTarget::OpenApi30) {
                JsonView::Obj(members) => JsonView::Obj(
                    upsert(members, "nullable"@, JsonView::Bool(true)),
                ),
                other => other,
            },
            _ => with_schema_uri(
                JsonView::Obj(
                    seq![
                        MemberView {
                            key: "anyOf"@,
                            value: JsonView::Arr(
                                seq![
                                    T::spec_schema(JsonSchemaTarget::OpenApi30),
                                    JsonView::Obj(
                                        seq![
                                            MemberView {
                                                key: "type"@,
                                                value: JsonView::Str("null"@),
                                            },
                                        ],
                                    ),
                                ],
                            ),
                        },
                    ],
                ),
                target,
            ),
        }
    }

    fn json_schema_input(target: JsonSchemaTarget) -> (r: JsonValue) {
        option_schema::<T>(target)
    }

    fn json_schema_output(target: JsonSchemaTarget) -> (r: JsonValue) {
        option_schema::<T>(target)
    }
}

/// An optional type's schema: `nullable: true` on the inner schema for
/// OpenAPI, an `anyOf` with the null type for the JSON Schema drafts.
fn option_schema<T: StandardJsonSchema>(target: JsonSchemaTarget) -> (r: JsonValue)
    ensures
        r@ == <Option<T> as StandardJsonSchema>::spec_schema(target),
{
    let inner = T::json_schema_input(JsonSchemaTarget::OpenApi30);
    match target {
        JsonSchemaTarget::OpenApi30 => {
            let mut schema = inner;
            match &mut schema {
                JsonValue::Obj(members) => {
                    let ghost pre_members = member_view_seq(*members, 0);
                    proof {
                        assert(T::spec_schema(JsonSchemaTarget::OpenApi30) == JsonView::Obj(
                            pre_members,
                        ));
                    }
                    crate::fragments::upsert_in(members, "nullable", JsonValue::Bool(true));
                    proof {
                        assert(member_view_seq(*members, 0) == upsert(
                            pre_members,
                            "nullable"@,
                            JsonView::Bool(true),
                        ));
                    }
                },
                _ => {},
            }
            schema
        },
        _ => {
            let mut null_members: Vec<Member> = Vec::new();
            null_members.push(Member {
                key: String::from_str("type"),
                value: JsonValue::Str(String::from_str("null")),
            });
            let null_schema = JsonValue::Obj(null_members);
            proof {
                lemma_member_view_seq(null_schema->Obj_0, 0);
                assert(member_view_seq(null_schema->Obj_0, 0) =~= seq![
                    MemberView { key: "type"@, value: JsonView::Str("null"@) },
                ]);
            }
            let mut variants: Vec<JsonValue> = Vec::new();
            variants.push(inner);
            variants.push(null_schema);
            proof {
                lemma_json_view_seq(variants, 0);
                assert(json_view_seq(variants, 0) =~= seq![
                    T::spec_schema(JsonSchemaTarget::OpenApi30),
                    JsonView::Obj(seq![MemberView { key: "type"@, value: JsonView::Str("null"@) }]),
                ]);
            }
            let mut members: Vec<Member> = Vec::new();
            members.push(Member { key: String::from_str("anyOf"), value: JsonValue::Arr(variants) });
            let mut schema = JsonValue::Obj(members);
            proof {
                lemma_member_view_seq(schema->Obj_0, 0);
                assert(member_view_seq(schema->Obj_0, 0) =~= seq![
                    MemberView {
                        key: "anyOf"@,
                        value: JsonView::Arr(
                            seq![
                                T::spec_schema(JsonSchemaTarget::OpenApi30),
                                JsonView::Obj(
                                    seq![
                                        MemberView {
                                            key: "type"@,
                                            value: JsonView::Str("null"@),
                                        },
                                    ],
                                ),
                            ],
                        ),
                    },
                ]);
            }
            add_schema_uri(&mut schema, target);
            schema
        },
    }
}

/// A string that must not be empty.
#[derive(Debug, Clone, PartialEq, Eq)]
pub struct NonEmptyString(pub String);

impl Valrs for NonEmptyString {
    type Output = NonEmptyString;

    open spec fn spec_accepts(v: JsonView) -> bool {
        v matches JsonView::Str(s) && s.len() > 0
    }

    open spec fn output_matches(v: JsonView, out: &NonEmptyString) -> bool {
        v == JsonView::Str(out.0@)
    }

    open spec fn failure_message(v: JsonView) -> Seq<char> {
        if v is Str {
            "String must not be empty"@
        } else {
            "Expected string"@
        }
    }

    fn validate(value: &JsonValue) -> (r: ValidationResult<NonEmptyString>) {
        match value {
            JsonValue::Str(s) => if s.as_str().unicode_len() > 0 {
                ValidationResult::success(NonEmptyString(s.clone()))
            } else {
                ValidationResult::failure("String must not be empty")
            },
            _ => ValidationResult::failure("Expected string"),
        }
    }
}

impl StandardJsonSchema for NonEmptyString {
    open spec fn spec_schema(target: JsonSchemaTarget) -> JsonView {
        with_schema_uri(
            JsonView::Obj(
                seq![
                    MemberView { key: "type"@, value: JsonView::Str("string"@) },
                    MemberView { key: "minLength"@, value: JsonView::Num(NumView { m: 1, s: 0 }) },
                ],
            ),
            target,
        )
    }

    fn json_schema_input(target: JsonSchemaTarget) -> (r: JsonValue) {
        let r = length_bounded_string_schema(Option::Some(1), Option::None, target);
        proof {
            lemma_two_member_shape(
                MemberView { key: "type"@, value: JsonView::Str("string"@) },
                MemberView { key: "minLength"@, value: JsonView::Num(NumView { m: 1, s: 0 }) },
            );
        }
        r
    }

    fn json_schema_output(target: JsonSchemaTarget) -> (r: JsonValue) {
        Self::json_schema_input(target)
    }
}

/// A string with at least `N` characters.
#[derive(Debug, Clone, PartialEq, Eq)]
pub struct MinLengthString<const N: usize>(pub String);

impl<const N: usize> Valrs for MinLengthString<N> {
    type Output = MinLengthString<N>;

    open spec fn spec_accepts(v: JsonView) -> bool {
        v matches JsonView::Str(s) && s.len() >= N
    }

    open spec fn output_matches(v: JsonView, out: &MinLengthString<N>) -> bool {
        v == JsonView::Str(out.0@)
    }

    open spec fn failure_message(v: JsonView) -> Seq<char> {
        match v {
            JsonView::Str(s) => "String must be at least "@ + dec_str(N as nat)
                + " characters, got "@ + dec_str(s.len()),
            _ => "Expected string"@,
        }
    }

    fn validate(value: &JsonValue) -> (r: ValidationResult<MinLengthString<N>>) {
        match value {
            JsonValue::Str(s) => {
                let len = s.as_str().unicode_len();
                if len >= N {
                    ValidationResult::success(MinLengthString(s.clone()))
                } else {
                    let mut message = String::from_str("String must be at least ");
                    message.append(u64_string(N as u64).as_str());
                    message.append(" characters, got ");
                    message.append(u64_string(len as u64).as_str());
                    let issue = ValidationIssue { message, path: Option::None };
                    let r = ValidationResult::failures(vec![issue]);
                    proof {
                        assert(r.spec_issues() =~= seq![
                            IssueView {
                                message: Self::failure_message(value@),
                                path: Option::None,
                            },
                        ]);
                    }
                    r
                }
            },
            _ => ValidationResult::failure("Expected string"),
        }
    }
}

impl<const N: usize> StandardJsonSchema for MinLengthString<N> {
    open spec fn spec_schema(target: JsonSchemaTarget) -> JsonView {
        with_schema_uri(
            JsonView::Obj(
                seq![
                    MemberView { key: "type"@, value: JsonView::Str("string"@) },
                    MemberView {
                        key: "minLength"@,
                        value: JsonView::Num(NumView { m: N as int, s: 0 }),
                    },
                ],
            ),
            target,
        )
    }

    fn json_schema_input(target: JsonSchemaTarget) -> (r: JsonValue) {
        let r = length_bounded_string_schema(Option::Some(N as u64), Option::None, target);
        proof {
            lemma_two_member_shape(
                MemberView { key: "type"@, value: JsonView::Str("string"@) },
                MemberView {
                    key: "minLength"@,
                    value: JsonView::Num(NumView { m: N as int, s: 0 }),
                },
            );
        }
        r
    }

    fn json_schema_output(target: JsonSchemaTarget) -> (r: JsonValue) {
        Self::json_schema_input(target)
    }
}

/// A string with at most `N` characters.
#[derive(Debug, Clone, PartialEq, Eq)]
pub struct MaxLengthString<const N: usize>(pub String);

impl<const N: usize> Valrs for MaxLengthString<N> {
    type Output = MaxLengthString<N>;

    open spec fn spec_accepts(v: JsonView) -> bool {
        v matches JsonView::Str(s) && s.len() <= N
    }

    open spec fn output_matches(v: JsonView, out: &MaxLengthString<N>) -> bool {
        v == JsonView::Str(out.0@)
    }

    open spec fn failure_message(v: JsonView) -> Seq<char> {
        match v {
            JsonView::Str(s) => "String must be at most "@ + dec_str(N as nat)
                + " characters, got "@ + dec_str(s.len()),
            _ => "Expected string"@,
        }
    }

    fn validate(value: &JsonValue) -> (r: ValidationResult<MaxLengthString<N>>) {
        match value {
            JsonValue::Str(s) => {
                let len = s.as_str().unicode_len();
                if len <= N {
                    ValidationResult::success(MaxLengthString(s.clone()))
                } else {
                    let mut message = String::from_str("String must be at most ");
                    message.append(u64_string(N as u64).as_str());
                    message.append(" characters, got ");
                    message.append(u64_string(len as u64).as_str());
                    let issue = ValidationIssue { message, path: Option::None };
                    let r = ValidationResult::failures(vec![issue]);
                    proof {
                        assert(r.spec_issues() =~= seq![
                            IssueView {
                                message: Self::failure_message(value@),
                                path: Option::None,
                            },
                        ]);
                    }
                    r
                }
            },
            _ => ValidationResult::failure("Expected string"),
        }
    }
}

impl<const N: usize> StandardJsonSchema for MaxLengthString<N> {
    open spec fn spec_schema(target: JsonSchemaTarget) -> JsonView {
        with_schema_uri(
            JsonView::Obj(
                seq![
                    MemberView { key: "type"@, value: JsonView::Str("string"@) },
                    MemberView {
                        key: "maxLength"@,
                        value: JsonView::Num(NumView { m: N as int, s: 0 }),
                    },
                ],
            ),
            target,
        )
    }

    fn json_schema_input(target: JsonSchemaTarget) -> (r: JsonValue) {
        let r = length_bounded_string_schema(Option::None, Option::Some(N as u64), target);
        proof {
            lemma_two_member_shape_max(
                MemberView { key: "type"@, value: JsonView::Str("string"@) },
                MemberView {
                    key: "maxLength"@,
                    value: JsonView::Num(NumView { m: N as int, s: 0 }),
                },
            );
        }
        r
    }

    fn json_schema_output(target: JsonSchemaTarget) -> (r: JsonValue) {
        Self::json_schema_input(target)
    }
}

proof fn lemma_two_member_shape(a: MemberView, b: MemberView)
    ensures
        seq![a] + seq![b] + Seq::<MemberView>::empty() =~= seq![a, b],
{
}

proof fn lemma_two_member_shape_max(a: MemberView, b: MemberView)
    ensures
        seq![a] + Seq::<MemberView>::empty() + seq![b] =~= seq![a, b],
{
}

/// A string schema with length constraints and the target's
/// schema-identifier field.
fn length_bounded_string_schema(
    min_length: Option<u64>,
    max_length: Option<u64>,
    target: JsonSchemaTarget,
) -> (r: JsonValue)
    ensures
        r@ == with_schema_uri(
            JsonView::Obj(
                seq![MemberView { key: "type"@, value: JsonView::Str("string"@) }] + (
                match min_length {
                    Option::Some(c) => seq![
                        MemberView {
                            key: "minLength"@,
                            value: JsonView::Num(NumView { m: c as int, s: 0 }),
                        },
                    ],
                    Option::None => Seq::<MemberView>::empty(),
                }) + (match max_length {
                    Option::Some(c) => seq![
                        MemberView {
                            key: "maxLength"@,
                            value: JsonView::Num(NumView { m: c as int, s: 0 }),
                        },
                    ],
                    Option::None => Seq::<MemberView>::empty(),
                }),
            ),
            target,
        ),
{
    let mut schema = crate::fragments::string_schema_with_constraints(min_length, max_length);
    add_schema_uri(&mut schema, target);
    schema
}

/// Whether a value matches a `type` keyword value, as the engines read it
/// at validation time: a recognized name must match the value's kind, an
/// unrecognized name passes, and a list passes when any entry does.
pub open spec fn spec_validate_type(v: JsonView, t: JsonView) -> bool
    decreases t, 1int,
{
    match t {
        JsonView::Str(name) => match parse_tag(name) {
            Option::Some(tag) => tag_matches(tag, v),
            Option::None => true,
        },
        JsonView::Arr(entries) => spec_any_type_matches(v, entries, 0),
        _ => true,
    }
}

pub open spec fn spec_any_type_matches(v: JsonView, entries: Seq<JsonView>, i: int) -> bool
    decreases entries, entries.len() - i,
{
    if i < 0 || i >= entries.len() {
        false
    } else {
        spec_validate_type(v, entries[i]) || spec_any_type_matches(v, entries, i + 1)
    }
}

/// Whether a value matches the expected `type` keyword value.
pub fn validate_type(value: &JsonValue, type_value: &JsonValue) -> (r: bool)
    ensures
        r == spec_validate_type(value@, type_value@),
    decreases json_view(*type_value),
{
    match type_value {
        JsonValue::Str(name) => {
            match crate::compile::parse_type_tag_of(name) {
                Option::Some(tag) => crate::engine::tag_match(tag, value),
                Option::None => true,
            }
        },
        JsonValue::Arr(entries) => {
            proof {
                lemma_json_view_seq(*entries, 0);
            }
            let ghost ev = json_view_seq(*entries, 0);
            let mut i: usize = 0;
            while i < entries.len()
                invariant
                    *type_value == JsonValue::Arr(*entries),
                    0 <= i <= entries@.len(),
                    ev == json_view_seq(*entries, 0),
                    ev =~= Seq::new(entries@.len() as nat, |k: int| json_view(entries@[k])),
                    forall|k: int| 0 <= k < i ==> !spec_validate_type(
                        json_view(*value),
                        #[trigger] ev[k],
                    ),
                decreases entries@.len() - i,
            {
                proof {
                    let jv = json_view(*type_value);
                    let s = json_view_seq(*entries, 0);
                    assert(jv == JsonView::Arr(s));
                    assert(decreases_to!(jv => jv->Arr_0));
                    assert(decreases_to!(s => s[i as int]));
                    assert(s[i as int] == json_view(entries@[i as int]));
                }
                if validate_type(value, &entries[i]) {
                    proof {
                        lemma_any_type_from(json_view(*value), ev, i as int);
                    }
                    return true;
                }
                i = i + 1;
            }
            proof {
                lemma_any_type_none(json_view(*value), ev, 0);
            }
            false
        },
        _ => true,
    }
}

proof fn lemma_any_type_from(v: JsonView, entries: Seq<JsonView>, i: int)
    requires
        0 <= i < entries.len(),
        spec_validate_type(v, entries[i]),
    ensures
        spec_any_type_matches(v, entries, 0),
    decreases i,
{
    if i > 0 {
        lemma_any_type_up(v, entries, i, 0);
    }
}

proof fn lemma_any_type_up(v: JsonView, entries: Seq<JsonView>, i: int, j: int)
    requires
        0 <= j <= i < entries.len(),
        spec_validate_type(v, entries[i]),
    ensures
        spec_any_type_matches(v, entries, j),
    decreases i - j,
{
    if j < i {
        lemma_any_type_up(v, entries, i, j + 1);
    }
}

proof fn lemma_any_type_none(v: JsonView, entries: Seq<JsonView>, j: int)
    requires
        0 <= j,
        forall|k: int| 0 <= k < entries.len() ==> !spec_validate_type(v, #[trigger] entries[k]),
    ensures
        !spec_any_type_matches(v, entries, j),
    decreases entries.len() - j,
{
    if j < entries.len() {
        lemma_any_type_none(v, entries, j + 1);
    }
}

/// A human-readable kind name for a value.
pub fn json_type_name(value: &JsonValue) -> (r: &'static str)
    ensures
        r@ == spec_type_name(value@),
{
    match value {
        JsonValue::Null => "null",
        JsonValue::Bool(_) => "boolean",
        JsonValue::Num(n) => if n.is_integer() {
            "integer"
        } else {
            "number"
        },
        JsonValue::Str(_) => "string",
        JsonValue::Arr(_) => "array",
        JsonValue::Obj(_) => "object",
    }
}

/// An unrecognized schema-target name.
#[derive(Debug, Clone)]
pub struct TargetParseError {
    /// The name that was not recognized.
    pub target: String,
}

/// The target a name denotes, if recognized; the match ignores ASCII
/// case.
pub open spec fn spec_parse_target(s: Seq<char>) -> Option<JsonSchemaTarget> {
    if str_eq_ci(s, "draft-2020-12"@) || str_eq_ci(s, "draft2020-12"@) || str_eq_ci(
        s,
        "2020-12"@,
    ) {
        Option::Some(JsonSchemaTarget::Draft202012)
    } else if str_eq_ci(s, "draft-07"@) || str_eq_ci(s, "draft07"@) || str_eq_ci(s, "07"@) {
        Option::Some(JsonSchemaTarget::Draft07)
    } else if str_eq_ci(s, "openapi-3.0"@) || str_eq_ci(s, "openapi30"@) || str_eq_ci(
        s,
        "openapi"@,
    ) {
        Option::Some(JsonSchemaTarget::OpenApi30)
    } else {
        Option::None
    }
}

/// Parses a schema-target name, ignoring ASCII case.
pub fn parse_target(target: &str) -> (r: Result<JsonSchemaTarget, TargetParseError>)
    ensures
        match r {
            Result::Ok(t) => spec_parse_target(target@) == Option::Some(t),
            Result::Err(e) => spec_parse_target(target@) is None && e.target@ == target@,
        },
{
    if eq_ignore_ascii_case(target, "draft-2020-12") || eq_ignore_ascii_case(
        target,
        "draft2020-12",
    ) || eq_ignore_ascii_case(target, "2020-12") {
        Result::Ok(JsonSchemaTarget::Draft202012)
    } else if eq_ignore_ascii_case(target, "draft-07") || eq_ignore_ascii_case(target, "draft07")
        || eq_ignore_ascii_case(target, "07") {
        Result::Ok(JsonSchemaTarget::Draft07)
    } else if eq_ignore_ascii_case(target, "openapi-3.0") || eq_ignore_ascii_case(
        target,
        "openapi30",
    ) || eq_ignore_ascii_case(target, "openapi") {
        Result::Ok(JsonSchemaTarget::OpenApi30)
    } else {
        Result::Err(TargetParseError { target: target.to_owned() })
    }
}

/// A type's schema document for a target named as text.
pub fn json_schema_for_type<T: StandardJsonSchema>(target: &str) -> (r: Result<
    JsonValue,
    TargetParseError,
>)
    ensures
        match r {
            Result::Ok(schema) => spec_parse_target(target@) matches Option::Some(t)
                && schema@ == T::spec_schema(t),
            Result::Err(e) => spec_parse_target(target@) is None && e.target@ == target@,
        },
{
    match parse_target(target) {
        Result::Ok(t) => Result::Ok(T::json_schema_input(t)),
        Result::Err(e) => Result::Err(e),
    }
}

/// The vendor name of this schema library.
pub fn vendor() -> (r: String)
    ensures
        r@ == "valrs"@,
{
    String::from_str("valrs")
}

/// The specification version this library supports.
pub fn version() -> (r: u8)
    ensures
        r == 1,
{
    1
}

} // verus!
