use valrs::compile::{CompiledSchema, compile};
use valrs::engine::{full_diagnostic, boolean_fastpath, direct_fastpath};
use valrs::fragments::{create_object_schema, string_schema_with_constraints};
use valrs::ops::Op;
use valrs::registry::SchemaRegistry;
use valrs::types::{JsonSchemaTarget, PathSegment, ValidationResult};
use valrs::validators::{
    json_type_name, parse_target, property_schema, simple_type_schema, validate_type,
    vendor, version, MaxLengthString, MinLengthString, NonEmptyString,
    StandardJsonSchema, Valrs,
};
use valrs::value::{JsonValue, Member, Number};

fn jnull() -> JsonValue {
    JsonValue::Null
}

fn jbool(b: bool) -> JsonValue {
    JsonValue::Bool(b)
}

fn jint(i: i64) -> JsonValue {
    JsonValue::Num(Number::from_i64(i))
}

fn juint(u: u64) -> JsonValue {
    JsonValue::Num(Number::from_u64(u))
}

fn jdec(m: i64, s: u32) -> JsonValue {
    JsonValue::Num(Number::from_decimal(m, s))
}

fn jstr(s: &str) -> JsonValue {
    JsonValue::Str(s.to_string())
}

fn jarr(items: Vec<JsonValue>) -> JsonValue {
    JsonValue::Arr(items)
}

fn jobj(pairs: Vec<(&str, JsonValue)>) -> JsonValue {
    JsonValue::Obj(
        pairs
            .into_iter()
            .map(|(k, v)| Member { key: k.to_string(), value: v })
            .collect(),
    )
}

fn get<'a>(v: &'a JsonValue, key: &str) -> Option<&'a JsonValue> {
    match v {
        JsonValue::Obj(members) => members.iter().find(|m| m.key == key).map(|m| &m.value),
        _ => None,
    }
}

fn str_of(v: &JsonValue) -> &str {
    match v {
        JsonValue::Str(s) => s.as_str(),
        _ => panic!("not a string"),
    }
}

fn int_of(v: &JsonValue) -> i64 {
    match v {
        JsonValue::Num(n) => n.as_i64().expect("not an integer"),
        _ => panic!("not a number"),
    }
}

fn check(schema: &JsonValue, value: &JsonValue) -> ValidationResult<JsonValue> {
    full_diagnostic(&compile(schema), value)
}

// ----- schema fragments -----

#[test]
fn test_create_object_schema() {
    let properties = vec![
        Member { key: "name".to_string(), value: jobj(vec![("type", jstr("string"))]) },
        Member { key: "age".to_string(), value: jobj(vec![("type", jstr("integer"))]) },
    ];
    let required = vec!["name".to_string(), "age".to_string()];
    let schema = create_object_schema(JsonSchemaTarget::Draft202012, properties, required);

    assert_eq!(str_of(get(&schema, "type").unwrap()), "object");
    let props = get(&schema, "properties").unwrap();
    assert_eq!(str_of(get(get(props, "name").unwrap(), "type").unwrap()), "string");
    assert_eq!(str_of(get(get(props, "age").unwrap(), "type").unwrap()), "integer");
    let req = match get(&schema, "required").unwrap() {
        JsonValue::Arr(items) => items,
        _ => panic!("required is not a list"),
    };
    assert!(req.iter().any(|v| str_of(v) == "name"));
    assert!(req.iter().any(|v| str_of(v) == "age"));
    assert_eq!(
        str_of(get(&schema, "$schema").unwrap()),
        "https://json-schema.org/draft/2020-12/schema"
    );
}

#[test]
fn test_create_object_schema_no_required() {
    let schema = create_object_schema(JsonSchemaTarget::OpenApi30, Vec::new(), Vec::new());
    assert_eq!(str_of(get(&schema, "type").unwrap()), "object");
    assert!(get(&schema, "required").is_none());
    assert!(get(&schema, "$schema").is_none());
}

#[test]
fn test_string_schema_with_constraints() {
    let schema = string_schema_with_constraints(Some(1), Some(100));
    assert_eq!(str_of(get(&schema, "type").unwrap()), "string");
    assert_eq!(int_of(get(&schema, "minLength").unwrap()), 1);
    assert_eq!(int_of(get(&schema, "maxLength").unwrap()), 100);
}

#[test]
fn test_string_schema_with_only_min() {
    let schema = string_schema_with_constraints(Some(5), None);
    assert_eq!(str_of(get(&schema, "type").unwrap()), "string");
    assert_eq!(int_of(get(&schema, "minLength").unwrap()), 5);
    assert!(get(&schema, "maxLength").is_none());
}

#[test]
fn test_string_schema_with_only_max() {
    let schema = string_schema_with_constraints(None, Some(50));
    assert_eq!(str_of(get(&schema, "type").unwrap()), "string");
    assert!(get(&schema, "minLength").is_none());
    assert_eq!(int_of(get(&schema, "maxLength").unwrap()), 50);
}

#[test]
fn test_property_schema() {
    let schema = property_schema::<String>();
    assert_eq!(str_of(get(&schema, "type").unwrap()), "string");
    assert!(get(&schema, "$schema").is_none());
}

#[test]
fn test_property_schema_integer() {
    let schema = property_schema::<i32>();
    assert_eq!(str_of(get(&schema, "type").unwrap()), "integer");
    assert!(get(&schema, "$schema").is_none());
}

// ----- target parsing and reflection helpers -----

#[test]
fn test_parse_target() {
    assert!(matches!(parse_target("draft-2020-12"), Ok(JsonSchemaTarget::Draft202012)));
    assert!(matches!(parse_target("draft-07"), Ok(JsonSchemaTarget::Draft07)));
    assert!(matches!(parse_target("openapi-3.0"), Ok(JsonSchemaTarget::OpenApi30)));
    assert!(parse_target("invalid").is_err());
}

#[test]
fn parse_target_ignores_ascii_case() {
    assert!(matches!(parse_target("DRAFT-07"), Ok(JsonSchemaTarget::Draft07)));
    assert!(matches!(parse_target("Draft-2020-12"), Ok(JsonSchemaTarget::Draft202012)));
    assert!(matches!(parse_target("OpenAPI-3.0"), Ok(JsonSchemaTarget::OpenApi30)));
    assert_eq!(parse_target("draught-07").unwrap_err().target, "draught-07");
}

#[test]
fn number_schema_document() {
    let schema = simple_type_schema("number", JsonSchemaTarget::Draft07);
    assert_eq!(str_of(get(&schema, "type").unwrap()), "number");
    assert_eq!(
        str_of(get(&schema, "$schema").unwrap()),
        "http://json-schema.org/draft-07/schema#"
    );
}

#[test]
fn typed_validators_report_the_original_messages() {
    assert_eq!(String::validate(&jint(1)).issues()[0].message, "Expected string");
    assert_eq!(bool::validate(&jint(1)).issues()[0].message, "Expected boolean");
    assert_eq!(<()>::validate(&jint(1)).issues()[0].message, "Expected null");
    assert_eq!(
        i8::validate(&jint(128)).issues()[0].message,
        "Integer out of range for i8 (-128 to 127)"
    );
    assert_eq!(i8::validate(&jdec(314, 2)).issues()[0].message, "Expected integer");
    assert_eq!(
        u32::validate(&jint(-1)).issues()[0].message,
        "Expected non-negative integer"
    );
    assert_eq!(
        MinLengthString::<3>::validate(&jstr("ab")).issues()[0].message,
        "String must be at least 3 characters, got 2"
    );
    assert_eq!(
        MaxLengthString::<5>::validate(&jstr("abcdef")).issues()[0].message,
        "String must be at most 5 characters, got 6"
    );
    assert_eq!(
        <Option<i32>>::validate(&jstr("x")).issues()[0].message,
        "Expected integer"
    );
}

#[test]
fn test_validate_type() {
    assert!(validate_type(&jstr("hello"), &jstr("string")));
    assert!(!validate_type(&jint(123), &jstr("string")));

    assert!(validate_type(&jint(123), &jstr("integer")));
    assert!(validate_type(&jdec(1235, 1), &jstr("number")));

    assert!(validate_type(&jbool(true), &jstr("boolean")));
    assert!(validate_type(&jnull(), &jstr("null")));

    assert!(validate_type(&jobj(vec![]), &jstr("object")));
    assert!(validate_type(&jarr(vec![]), &jstr("array")));
}

#[test]
fn test_json_type_name() {
    assert_eq!(json_type_name(&jnull()), "null");
    assert_eq!(json_type_name(&jbool(true)), "boolean");
    assert_eq!(json_type_name(&jint(42)), "integer");
    assert_eq!(json_type_name(&jdec(314, 2)), "number");
    assert_eq!(json_type_name(&jstr("hello")), "string");
    assert_eq!(json_type_name(&jarr(vec![])), "array");
    assert_eq!(json_type_name(&jobj(vec![])), "object");
}

#[test]
fn metadata_reports_vendor_and_version() {
    assert_eq!(vendor(), "valrs");
    assert_eq!(version(), 1);
}

// ----- the compiled engines -----

#[test]
fn test_validate_against_schema_simple() {
    let schema = jobj(vec![("type", jstr("string"))]);
    let result = check(&schema, &jstr("hello"));
    assert!(result.is_success());

    let result = check(&schema, &jint(123));
    assert!(result.is_failure());
}

#[test]
fn test_validate_against_schema_object() {
    let schema = jobj(vec![
        ("type", jstr("object")),
        (
            "properties",
            jobj(vec![
                ("name", jobj(vec![("type", jstr("string"))])),
                ("age", jobj(vec![("type", jstr("integer"))])),
            ]),
        ),
        ("required", jarr(vec![jstr("name")])),
    ]);

    let result = check(&schema, &jobj(vec![("name", jstr("Alice")), ("age", jint(30))]));
    assert!(result.is_success());

    let result = check(&schema, &jobj(vec![("age", jint(30))]));
    assert!(result.is_failure());

    let result = check(&schema, &jobj(vec![("name", jint(123))]));
    assert!(result.is_failure());
}

#[test]
fn test_validate_against_schema_array() {
    let schema = jobj(vec![
        ("type", jstr("array")),
        ("items", jobj(vec![("type", jstr("integer"))])),
        ("minItems", jint(1)),
        ("maxItems", jint(3)),
    ]);

    let result = check(&schema, &jarr(vec![jint(1), jint(2), jint(3)]));
    assert!(result.is_success());

    let result = check(&schema, &jarr(vec![]));
    assert!(result.is_failure());

    let result = check(&schema, &jarr(vec![jint(1), jint(2), jint(3), jint(4)]));
    assert!(result.is_failure());

    let result = check(&schema, &jarr(vec![jint(1), jstr("two"), jint(3)]));
    assert!(result.is_failure());
}

#[test]
fn issue_paths_locate_the_failure() {
    let schema = jobj(vec![
        ("type", jstr("object")),
        (
            "properties",
            jobj(vec![
                ("name", jobj(vec![("type", jstr("string"))])),
                ("age", jobj(vec![("type", jstr("integer"))])),
            ]),
        ),
        ("required", jarr(vec![jstr("name")])),
    ]);

    // a missing required property reports a path holding its key
    let result = check(&schema, &jobj(vec![("age", jint(30))]));
    let issues = result.issues();
    assert_eq!(issues.len(), 1);
    assert_eq!(issues[0].message, "Missing required property 'name'");
    let path = issues[0].path.as_ref().unwrap();
    assert!(path.contains(&PathSegment::Key("name".to_string())));

    // a mistyped property reports the path of that property
    let result = check(&schema, &jobj(vec![("name", jint(123))]));
    let issues = result.issues();
    assert_eq!(issues.len(), 1);
    assert_eq!(issues[0].message, "Expected type \"string\", got integer");
    assert_eq!(issues[0].path.as_ref().unwrap(), &vec![PathSegment::Key("name".to_string())]);

    // a mistyped element reports the path of its index
    let arr_schema = jobj(vec![
        ("type", jstr("array")),
        ("items", jobj(vec![("type", jstr("integer"))])),
    ]);
    let result = check(&arr_schema, &jarr(vec![jint(1), jstr("two"), jint(3)]));
    let issues = result.issues();
    assert_eq!(issues.len(), 1);
    assert_eq!(issues[0].message, "Expected type \"integer\", got string");
    assert_eq!(issues[0].path.as_ref().unwrap(), &vec![PathSegment::Index(1)]);
}

#[test]
fn size_issues_carry_the_counts_and_no_path() {
    let schema = jobj(vec![
        ("type", jstr("array")),
        ("items", jobj(vec![("type", jstr("integer"))])),
        ("minItems", jint(1)),
        ("maxItems", jint(3)),
    ]);

    let result = check(&schema, &jarr(vec![]));
    let issues = result.issues();
    assert_eq!(issues.len(), 1);
    assert_eq!(issues[0].message, "Array has 0 items, minimum is 1");
    assert!(issues[0].path.is_none());

    let result = check(&schema, &jarr(vec![jint(1), jint(2), jint(3), jint(4)]));
    let issues = result.issues();
    assert_eq!(issues.len(), 1);
    assert_eq!(issues[0].message, "Array has 4 items, maximum is 3");
    assert!(issues[0].path.is_none());
}

#[test]
fn root_failures_carry_no_path() {
    let schema = jobj(vec![("type", jstr("string"))]);
    let result = check(&schema, &jint(123));
    let issues = result.issues();
    assert_eq!(issues.len(), 1);
    assert_eq!(issues[0].message, "Expected type \"string\", got integer");
    assert!(issues[0].path.is_none());
}

#[test]
fn exclusive_bounds_reject_their_endpoints() {
    let schema = jobj(vec![
        ("type", jstr("number")),
        ("exclusiveMinimum", jint(0)),
        ("exclusiveMaximum", jint(100)),
    ]);
    assert!(check(&schema, &jint(50)).is_success());
    assert!(check(&schema, &jint(0)).is_failure());
    assert!(check(&schema, &jint(100)).is_failure());
}

#[test]
fn inclusive_bounds_accept_their_endpoints() {
    let schema = jobj(vec![
        ("type", jstr("number")),
        ("minimum", jint(0)),
        ("maximum", jint(100)),
    ]);
    assert!(check(&schema, &jint(0)).is_success());
    assert!(check(&schema, &jint(100)).is_success());
    assert!(check(&schema, &jint(-1)).is_failure());
    assert!(check(&schema, &jint(101)).is_failure());
    assert!(check(&schema, &jdec(5, 1)).is_success());
}

#[test]
fn length_bounds_count_characters() {
    let schema = jobj(vec![
        ("type", jstr("string")),
        ("minLength", jint(2)),
        ("maxLength", jint(3)),
    ]);
    assert!(check(&schema, &jstr("a")).is_failure());
    assert!(check(&schema, &jstr("ab")).is_success());
    assert!(check(&schema, &jstr("abc")).is_success());
    assert!(check(&schema, &jstr("abcd")).is_failure());
    // a length bound on a non-string is a silent no-op
    assert!(check(&schema, &jint(7)).is_failure());  // only the type check fires
    let untyped = jobj(vec![("minLength", jint(2))]);
    assert!(check(&untyped, &jint(7)).is_success());
}

#[test]
fn empty_and_foreign_schemas_accept_everything() {
    let empty = jobj(vec![]);
    assert!(check(&empty, &jint(1)).is_success());
    assert!(check(&empty, &jstr("x")).is_success());

    let not_an_object = jbool(true);
    assert!(check(&not_an_object, &jobj(vec![("a", jint(1))])).is_success());
}

#[test]
fn compiled_sequence_holds_one_property_check_per_declared_property() {
    let schema = jobj(vec![
        ("type", jstr("object")),
        (
            "properties",
            jobj(vec![
                ("a", jobj(vec![("type", jstr("string"))])),
                ("b", jobj(vec![("type", jstr("integer"))])),
            ]),
        ),
        ("required", jarr(vec![jstr("a")])),
    ]);
    let compiled: CompiledSchema = compile(&schema);
    let mut flags: Vec<(String, bool)> = Vec::new();
    for op in compiled.ops().iter() {
        if let Op::CheckProperty { key, required } = op {
            flags.push((key.clone(), *required));
        }
    }
    assert_eq!(flags.len(), 2);
    assert_eq!(flags[0], ("a".to_string(), true));
    assert_eq!(flags[1], ("b".to_string(), false));
}

#[test]
fn engines_agree_on_success_and_failure() {
    let schema = jobj(vec![
        ("type", jstr("object")),
        (
            "properties",
            jobj(vec![
                ("name", jobj(vec![("type", jstr("string")), ("minLength", jint(1))])),
                (
                    "scores",
                    jobj(vec![
                        ("type", jstr("array")),
                        ("items", jobj(vec![("type", jstr("integer"))])),
                        ("maxItems", jint(2)),
                    ]),
                ),
            ]),
        ),
        ("required", jarr(vec![jstr("name")])),
    ]);
    let compiled = compile(&schema);
    let inputs = vec![
        jobj(vec![("name", jstr("a")), ("scores", jarr(vec![jint(1)]))]),
        jobj(vec![("name", jstr(""))]),
        jobj(vec![("scores", jarr(vec![jint(1), jint(2), jint(3)]))]),
        jobj(vec![("name", jstr("b")), ("scores", jarr(vec![jstr("x")]))]),
        jint(5),
        jarr(vec![]),
    ];
    for value in inputs.iter() {
        let full = full_diagnostic(&compiled, value).is_success();
        let fast = boolean_fastpath(&compiled, value);
        let direct = direct_fastpath(&compiled, value);
        assert_eq!(full, fast);
        assert_eq!(full, direct);
    }
}

#[test]
fn compiling_twice_behaves_identically() {
    let schema = jobj(vec![
        ("type", jstr("object")),
        ("properties", jobj(vec![("n", jobj(vec![("type", jstr("integer"))]))])),
    ]);
    let first = compile(&schema);
    let second = compile(&schema);
    let inputs = vec![
        jobj(vec![("n", jint(1))]),
        jobj(vec![("n", jstr("x"))]),
        jnull(),
    ];
    for value in inputs.iter() {
        assert_eq!(
            full_diagnostic(&first, value).is_success(),
            full_diagnostic(&second, value).is_success()
        );
        assert_eq!(boolean_fastpath(&first, value), boolean_fastpath(&second, value));
    }
}

// ----- the registry -----

#[test]
fn test_schema_registry() {
    let mut registry = SchemaRegistry::new();

    let schema = jobj(vec![
        ("type", jstr("object")),
        ("properties", jobj(vec![("name", jobj(vec![("type", jstr("string"))]))])),
        ("required", jarr(vec![jstr("name")])),
    ]);

    assert!(!registry.has_schema("User"));

    registry.register("User", schema);

    assert!(registry.has_schema("User"));
    assert!(!registry.has_schema("Unknown"));
}

#[test]
fn registry_validates_against_registered_schemas() {
    let mut registry = SchemaRegistry::new();
    registry.register("S", jobj(vec![("type", jstr("string"))]));

    assert!(registry.validate("S", &jstr("hello")).unwrap().is_success());
    assert!(registry.validate("S", &jint(3)).unwrap().is_failure());
    assert_eq!(registry.validate_fast("S", &jstr("hello")).unwrap(), true);
    assert_eq!(registry.validate_fast("S", &jint(3)).unwrap(), false);

    // a name never registered is an error, never a silent success
    assert!(registry.validate("Missing", &jstr("hello")).is_err());
    assert!(registry.validate_fast("Missing", &jstr("hello")).is_err());
}

#[test]
fn registering_again_replaces_the_compiled_schema() {
    let mut registry = SchemaRegistry::new();
    registry.register("S", jobj(vec![("type", jstr("string"))]));
    assert!(registry.validate("S", &jint(1)).unwrap().is_failure());

    registry.register("S", jobj(vec![("type", jstr("integer"))]));
    assert!(registry.validate("S", &jint(1)).unwrap().is_success());
    assert!(registry.validate("S", &jstr("x")).unwrap().is_failure());
}

#[test]
fn unregister_and_list_report_the_store() {
    let mut registry = SchemaRegistry::new();
    registry.register("A", jobj(vec![("type", jstr("string"))]));
    registry.register("B", jobj(vec![("type", jstr("integer"))]));

    let mut names = registry.list_schemas();
    names.sort();
    assert_eq!(names, vec!["A".to_string(), "B".to_string()]);

    assert!(registry.unregister("A"));
    assert!(!registry.unregister("A"));
    assert!(!registry.has_schema("A"));
    assert!(registry.has_schema("B"));
}

#[test]
fn registry_reflects_the_original_document() {
    let mut registry = SchemaRegistry::new();
    registry.register("S", jobj(vec![("type", jstr("object"))]));

    let doc = registry.json_schema("S", JsonSchemaTarget::Draft202012).unwrap();
    assert_eq!(str_of(get(&doc, "type").unwrap()), "object");
    assert_eq!(
        str_of(get(&doc, "$schema").unwrap()),
        "https://json-schema.org/draft/2020-12/schema"
    );

    let doc = registry.json_schema("S", JsonSchemaTarget::OpenApi30).unwrap();
    assert!(get(&doc, "$schema").is_none());

    assert!(registry.json_schema("Missing", JsonSchemaTarget::Draft07).is_err());
}

// ----- typed validators -----

#[test]
fn test_string_validation() {
    assert!(String::validate(&jstr("hello")).is_success());
    assert!(String::validate(&jstr("")).is_success());
    assert!(String::validate(&jint(123)).is_failure());
    assert!(String::validate(&jnull()).is_failure());
}

#[test]
fn test_bool_validation() {
    assert!(bool::validate(&jbool(true)).is_success());
    assert!(bool::validate(&jbool(false)).is_success());
    assert!(bool::validate(&jstr("true")).is_failure());
    assert!(bool::validate(&jint(1)).is_failure());
}

#[test]
fn test_null_validation() {
    assert!(<()>::validate(&jnull()).is_success());
    assert!(<()>::validate(&jint(0)).is_failure());
    assert!(<()>::validate(&jstr("")).is_failure());
}

#[test]
fn test_i32_validation() {
    assert!(i32::validate(&jint(42)).is_success());
    assert!(i32::validate(&jint(-42)).is_success());
    assert!(i32::validate(&jint(2147483647)).is_success());
    assert!(i32::validate(&jint(2147483648_i64)).is_failure());
    assert!(i32::validate(&jstr("42")).is_failure());
}

#[test]
fn test_u32_validation() {
    assert!(u32::validate(&jint(42)).is_success());
    assert!(u32::validate(&jint(0)).is_success());
    assert!(u32::validate(&jint(-1)).is_failure());
    assert!(u32::validate(&juint(4294967295_u64)).is_success());
    assert!(u32::validate(&juint(4294967296_u64)).is_failure());
}

#[test]
fn test_i8_range() {
    assert!(i8::validate(&jint(127)).is_success());
    assert!(i8::validate(&jint(-128)).is_success());
    assert!(i8::validate(&jint(128)).is_failure());
    assert!(i8::validate(&jint(-129)).is_failure());
}

#[test]
fn test_non_empty_string() {
    assert!(NonEmptyString::validate(&jstr("hello")).is_success());
    assert!(NonEmptyString::validate(&jstr("")).is_failure());
}

#[test]
fn test_min_length_string() {
    assert!(MinLengthString::<3>::validate(&jstr("abc")).is_success());
    assert!(MinLengthString::<3>::validate(&jstr("abcd")).is_success());
    assert!(MinLengthString::<3>::validate(&jstr("ab")).is_failure());
}

#[test]
fn test_max_length_string() {
    assert!(MaxLengthString::<5>::validate(&jstr("abc")).is_success());
    assert!(MaxLengthString::<5>::validate(&jstr("abcde")).is_success());
    assert!(MaxLengthString::<5>::validate(&jstr("abcdef")).is_failure());
}

#[test]
fn test_option_string_validation() {
    let result = <Option<String>>::validate(&jnull());
    assert!(result.is_success());
    assert_eq!(result.ok(), Some(None));

    let result = <Option<String>>::validate(&jstr("hello"));
    assert!(result.is_success());
    assert_eq!(result.ok(), Some(Some("hello".to_string())));

    let result = <Option<String>>::validate(&jint(123));
    assert!(result.is_failure());
}

#[test]
fn test_option_i32_validation() {
    let result = <Option<i32>>::validate(&jnull());
    assert_eq!(result.ok(), Some(None));

    let result = <Option<i32>>::validate(&jint(42));
    assert_eq!(result.ok(), Some(Some(42)));

    let result = <Option<i32>>::validate(&jstr("42"));
    assert!(result.is_failure());
}

#[test]
fn test_nested_option() {
    let result = <Option<Option<i32>>>::validate(&jnull());
    assert_eq!(result.ok(), Some(None));

    let result = <Option<Option<i32>>>::validate(&jint(42));
    assert_eq!(result.ok(), Some(Some(Some(42))));
}

// ----- schema documents of the typed validators -----

#[test]
fn test_string_json_schema() {
    let schema = <String as StandardJsonSchema>::json_schema_input(JsonSchemaTarget::Draft202012);
    assert_eq!(str_of(get(&schema, "type").unwrap()), "string");
    assert_eq!(
        str_of(get(&schema, "$schema").unwrap()),
        "https://json-schema.org/draft/2020-12/schema"
    );
}

#[test]
fn test_bool_json_schema() {
    let schema = <bool as StandardJsonSchema>::json_schema_input(JsonSchemaTarget::Draft202012);
    assert_eq!(str_of(get(&schema, "type").unwrap()), "boolean");
    assert_eq!(
        str_of(get(&schema, "$schema").unwrap()),
        "https://json-schema.org/draft/2020-12/schema"
    );
}

#[test]
fn test_null_json_schema() {
    let schema = <() as StandardJsonSchema>::json_schema_input(JsonSchemaTarget::Draft202012);
    assert_eq!(str_of(get(&schema, "type").unwrap()), "null");
}

#[test]
fn test_i32_json_schema() {
    let schema = <i32 as StandardJsonSchema>::json_schema_input(JsonSchemaTarget::Draft202012);
    assert_eq!(str_of(get(&schema, "type").unwrap()), "integer");
    assert_eq!(
        str_of(get(&schema, "$schema").unwrap()),
        "https://json-schema.org/draft/2020-12/schema"
    );
}

#[test]
fn test_u64_json_schema() {
    let schema = <u64 as StandardJsonSchema>::json_schema_input(JsonSchemaTarget::OpenApi30);
    assert_eq!(str_of(get(&schema, "type").unwrap()), "integer");
    assert!(get(&schema, "$schema").is_none());
}

#[test]
fn test_non_empty_string_json_schema() {
    let schema = <NonEmptyString as StandardJsonSchema>::json_schema_input(
        JsonSchemaTarget::OpenApi30,
    );
    assert_eq!(str_of(get(&schema, "type").unwrap()), "string");
    assert_eq!(int_of(get(&schema, "minLength").unwrap()), 1);
}

#[test]
fn test_min_length_string_json_schema() {
    let schema = <MinLengthString<5> as StandardJsonSchema>::json_schema_input(
        JsonSchemaTarget::OpenApi30,
    );
    assert_eq!(str_of(get(&schema, "type").unwrap()), "string");
    assert_eq!(int_of(get(&schema, "minLength").unwrap()), 5);
}

#[test]
fn test_max_length_string_json_schema() {
    let schema = <MaxLengthString<10> as StandardJsonSchema>::json_schema_input(
        JsonSchemaTarget::OpenApi30,
    );
    assert_eq!(str_of(get(&schema, "type").unwrap()), "string");
    assert_eq!(int_of(get(&schema, "maxLength").unwrap()), 10);
}

#[test]
fn test_option_string_json_schema_openapi() {
    let schema = <Option<String> as StandardJsonSchema>::json_schema_input(
        JsonSchemaTarget::OpenApi30,
    );
    assert_eq!(str_of(get(&schema, "type").unwrap()), "string");
    assert!(matches!(get(&schema, "nullable"), Some(JsonValue::Bool(true))));
}

#[test]
fn test_option_string_json_schema_draft_2020_12() {
    let schema = <Option<String> as StandardJsonSchema>::json_schema_input(
        JsonSchemaTarget::Draft202012,
    );
    let any_of = match get(&schema, "anyOf").unwrap() {
        JsonValue::Arr(items) => items,
        _ => panic!("anyOf is not a list"),
    };
    assert_eq!(any_of.len(), 2);
    assert_eq!(str_of(get(&any_of[0], "type").unwrap()), "string");
    assert_eq!(str_of(get(&any_of[1], "type").unwrap()), "null");
    assert_eq!(
        str_of(get(&schema, "$schema").unwrap()),
        "https://json-schema.org/draft/2020-12/schema"
    );
}

#[test]
fn test_option_i32_json_schema() {
    let schema = <Option<i32> as StandardJsonSchema>::json_schema_input(
        JsonSchemaTarget::OpenApi30,
    );
    assert_eq!(str_of(get(&schema, "type").unwrap()), "integer");
    assert!(matches!(get(&schema, "nullable"), Some(JsonValue::Bool(true))));
}

// ----- results, issues and paths -----

#[test]
fn test_path_prefix() {
    let result: ValidationResult<i32> = ValidationResult::failure("error");
    let result = result.with_path_prefix(PathSegment::Key("field".to_string()));
    if let ValidationResult::Failure(issues) = result {
        assert_eq!(issues[0].path, Some(vec![PathSegment::Key("field".to_string())]));
    } else {
        panic!("expected a failure");
    }
}

#[test]
fn result_accessors_report_the_outcome() {
    let ok: ValidationResult<i32> = ValidationResult::success(42);
    assert!(ok.is_success());
    assert!(!ok.is_failure());
    assert_eq!(ok.issues().len(), 0);
    assert_eq!(ok.ok(), Some(42));

    let bad: ValidationResult<i32> = ValidationResult::failure("Invalid");
    assert!(bad.is_failure());
    assert_eq!(bad.issues().len(), 1);
    assert_eq!(bad.issues()[0].message, "Invalid");
    assert_eq!(bad.ok(), None);
}
