use json_schema_diff::diff;
use json_schema_diff::diff_walker::cost_matrix;
use json_schema_diff::diff_walker::diff_pairs;
use json_schema_diff::diff_walker::DiffWalker;
use json_schema_diff::diff_walker::Documents;
use json_schema_diff::double::Double;
use json_schema_diff::json::JsonNumber;
use json_schema_diff::json::JsonValue;
use json_schema_diff::names::NameMap;
use json_schema_diff::resolver::Resolver;
use json_schema_diff::schema::InstanceTypes;
use json_schema_diff::schema::Items;
use json_schema_diff::schema::RootSchema;
use json_schema_diff::schema::Schema;
use json_schema_diff::schema::SchemaObject;
use json_schema_diff::Change;
use json_schema_diff::ChangeKind;
use json_schema_diff::Error;
use json_schema_diff::JsonSchemaType;
use json_schema_diff::Range;

fn number(value: f64) -> Double {
    Double::from_bits(value.to_bits()).unwrap()
}

fn to_value(value: &serde_json::Value) -> JsonValue {
    match value {
        serde_json::Value::Null => JsonValue::Null,
        serde_json::Value::Bool(b) => JsonValue::Bool(*b),
        serde_json::Value::Number(n) => {
            if let Some(u) = n.as_u64() {
                JsonValue::Number(JsonNumber::PosInt(u))
            } else if let Some(i) = n.as_i64() {
                JsonValue::Number(JsonNumber::NegInt(i))
            } else {
                JsonValue::Number(JsonNumber::Float(number(n.as_f64().unwrap())))
            }
        }
        serde_json::Value::String(s) => JsonValue::String(s.clone()),
        serde_json::Value::Array(items) => JsonValue::Array(items.iter().map(to_value).collect()),
        serde_json::Value::Object(members) => {
            let mut out = NameMap::new();
            for (name, member) in members {
                out.insert(name.clone(), to_value(member));
            }
            JsonValue::Object(out)
        }
    }
}

fn to_type(ty: &schemars::schema::InstanceType) -> JsonSchemaType {
    match ty {
        schemars::schema::InstanceType::String => JsonSchemaType::String,
        schemars::schema::InstanceType::Number => JsonSchemaType::Number,
        schemars::schema::InstanceType::Integer => JsonSchemaType::Integer,
        schemars::schema::InstanceType::Object => JsonSchemaType::Object,
        schemars::schema::InstanceType::Array => JsonSchemaType::Array,
        schemars::schema::InstanceType::Boolean => JsonSchemaType::Boolean,
        schemars::schema::InstanceType::Null => JsonSchemaType::Null,
    }
}

fn to_schema(schema: &schemars::schema::Schema) -> Schema {
    match schema {
        schemars::schema::Schema::Bool(b) => Schema::Bool(*b),
        schemars::schema::Schema::Object(o) => Schema::Object(to_object(o)),
    }
}

fn to_object(object: &schemars::schema::SchemaObject) -> SchemaObject {
    let mut out = SchemaObject::new();
    out.id = object.metadata.as_ref().and_then(|m| m.id.clone());
    out.reference = object.reference.clone();
    out.instance_type = object.instance_type.as_ref().map(|types| match types {
        schemars::schema::SingleOrVec::Single(ty) => InstanceTypes::Single(to_type(ty)),
        schemars::schema::SingleOrVec::Vec(tys) => InstanceTypes::Many(tys.iter().map(to_type).collect()),
    });
    out.const_value = object.const_value.as_ref().map(to_value);
    out.format = object.format.clone();
    if let Some(facet) = &object.number {
        out.number.minimum = facet.minimum.map(number);
        out.number.maximum = facet.maximum.map(number);
        out.number.exclusive_minimum = facet.exclusive_minimum.map(number);
        out.number.exclusive_maximum = facet.exclusive_maximum.map(number);
    }
    if let Some(facet) = &object.string {
        out.min_length = facet.min_length;
        out.max_length = facet.max_length;
        out.pattern = facet.pattern.clone();
    }
    if let Some(facet) = &object.object {
        for (name, schema) in &facet.properties {
            out.properties.insert(name.clone(), to_schema(schema));
        }
        for name in &facet.required {
            out.required.insert(name.clone(), ());
        }
        out.additional_properties = facet.additional_properties.as_ref().map(|s| Box::new(to_schema(s)));
    }
    if let Some(facet) = &object.array {
        out.items = facet.items.as_ref().map(|items| match items {
            schemars::schema::SingleOrVec::Single(s) => Items::Single(Box::new(to_schema(s))),
            schemars::schema::SingleOrVec::Vec(v) => Items::Tuple(v.iter().map(to_schema).collect()),
        });
    }
    if let Some(facet) = &object.subschemas {
        out.any_of = facet.any_of.as_ref().map(|v| v.iter().map(to_schema).collect());
        out.not = facet.not.as_ref().map(|s| Box::new(to_schema(s)));
    }
    let read = [
        "$id",
        "$ref",
        "type",
        "const",
        "minimum",
        "maximum",
        "exclusiveMinimum",
        "exclusiveMaximum",
        "minLength",
        "maxLength",
        "pattern",
        "format",
        "properties",
        "required",
        "additionalProperties",
        "items",
        "anyOf",
        "not",
    ];
    if let serde_json::Value::Object(keywords) = serde_json::to_value(object).unwrap() {
        for (name, value) in &keywords {
            if !read.contains(&name.as_str()) {
                out.other.insert(name.clone(), to_value(value));
            }
        }
    }
    out
}

fn root(text: &str) -> RootSchema {
    let parsed: schemars::schema::RootSchema = serde_json::from_str(text).unwrap();
    let mut definitions = NameMap::new();
    for (name, schema) in &parsed.definitions {
        definitions.insert(name.clone(), to_schema(schema));
    }
    RootSchema { schema: to_object(&parsed.schema), definitions }
}

fn changes(lhs: &str, rhs: &str) -> Vec<Change> {
    diff(root(lhs), root(rhs)).unwrap()
}

fn at(path: &str, change: ChangeKind) -> Change {
    Change { path: path.to_owned(), change }
}

fn type_add(path: &str, added: JsonSchemaType) -> Change {
    at(path, ChangeKind::TypeAdd { added })
}

fn type_remove(path: &str, removed: JsonSchemaType) -> Change {
    at(path, ChangeKind::TypeRemove { removed })
}

#[test]
fn draft7_definitions() {
    let root = root(
        r#"{
                "definitions": {
                    "A": {}
                }
            }"#,
    );
    let resolver = Resolver::for_schema(&root);

    let resolved = resolver.resolve(&root, "#/definitions/A");
    assert!(resolved.is_some());

    let resolved = resolver.resolve(&root, "#/definitions/not-there");
    assert!(resolved.is_none());
}

#[test]
fn draft7_root_has_id() {
    let root = root(
        r#"{
                "$id": "urn:uuid:e773a2e8-d746-4dc6-9480-0bba5ff33504",
                "definitions": {
                    "A": {}
                }
            }"#,
    );
    let resolver = Resolver::for_schema(&root);

    let resolved = resolver.resolve(&root, "#/definitions/A");
    assert!(resolved.is_some());
    let resolved = resolver.resolve(
        &root,
        "urn:uuid:e773a2e8-d746-4dc6-9480-0bba5ff33504#/definitions/A",
    );
    assert!(resolved.is_some());
}

#[test]
fn draft7_definition_has_id() {
    let root = root(
        r#"{
                "definitions": {
                    "A": {
                        "$id": "some-id"
                    }
                }
            }"#,
    );
    let resolver = Resolver::for_schema(&root);

    let resolved = resolver.resolve(&root, "some-id");
    assert!(resolved.is_some());
    assert_eq!(resolved, resolver.resolve(&root, "#/definitions/A"))
}

#[test]
fn draft2020_12_defs() {
    let root = root(
        r#"{
                "$defs": {
                    "A": {
                        "$id": "some-id"
                    }
                }
            }"#,
    );
    let resolver = Resolver::for_schema(&root);

    let resolved = resolver.resolve(&root, "#/$defs/A");
    assert!(resolved.is_some());
    assert_eq!(resolved, resolver.resolve(&root, "some-id"));

    let resolved = resolver.resolve(&root, "#/$defs/not-there");
    assert!(resolved.is_none());
}

#[test]
fn resolver_finds_the_named_definition() {
    let root = root(r#"{"definitions": {"A": {"type": "string"}, "B": {"type": "number"}}}"#);
    let resolver = Resolver::for_schema(&root);
    let a = resolver.resolve(&root, "#/definitions/A").unwrap();
    let b = resolver.resolve(&root, "#/$defs/B").unwrap();
    assert_eq!(a.effective_type().explode(), vec![JsonSchemaType::String]);
    assert_eq!(b.effective_type().explode(), vec![JsonSchemaType::Integer, JsonSchemaType::Number]);
    assert!(resolver.resolve(&root, "#/definitions/").is_none());
    assert!(resolver.resolve(&root, "A").is_none());
}

#[test]
fn resolver_later_definition_takes_a_shared_text() {
    let root = root(r##"{"definitions": {"A": {"type": "string"}, "B": {"$id": "#/definitions/A", "type": "number"}}}"##);
    let resolver = Resolver::for_schema(&root);
    let found = resolver.resolve(&root, "#/definitions/A").unwrap();
    assert_eq!(found.effective_type().explode(), vec![JsonSchemaType::Integer, JsonSchemaType::Number]);
}

#[test]
fn string_to_number() {
    assert_eq!(
        changes(r#"{"type":"string"}"#, r#"{"type":"number"}"#),
        vec![
            type_remove("", JsonSchemaType::String),
            type_add("", JsonSchemaType::Number),
            type_add("", JsonSchemaType::Integer),
        ]
    );
}

#[test]
fn integer_to_number() {
    assert_eq!(
        changes(r#"{"type":"integer"}"#, r#"{"type":"number"}"#),
        vec![type_add("", JsonSchemaType::Number)]
    );
}

#[test]
fn additional_properties_false_to_true() {
    let path = ".<additionalProperties>";
    assert_eq!(
        changes(r#"{"additionalProperties":false}"#, r#"{"additionalProperties":true}"#),
        vec![
            type_add(path, JsonSchemaType::String),
            type_add(path, JsonSchemaType::Number),
            type_add(path, JsonSchemaType::Integer),
            type_add(path, JsonSchemaType::Object),
            type_add(path, JsonSchemaType::Array),
            type_add(path, JsonSchemaType::Boolean),
            type_add(path, JsonSchemaType::Null),
        ]
    );
}

#[test]
fn property_added_under_open_parent() {
    let found = changes(
        r#"{"type":"object","properties":{"hello":{"type":"string"}},"additionalProperties":true}"#,
        r#"{"type":"object","properties":{"hello":{"type":"string"},"world":{"type":"string"}},"additionalProperties":true}"#,
    );
    assert_eq!(
        found,
        vec![at(
            "",
            ChangeKind::PropertyAdd { lhs_additional_properties: true, added: "world".to_owned() }
        )]
    );
    assert!(found[0].change.is_breaking());
    assert!(found[0].is_breaking());
}

#[test]
fn property_removed_under_closed_parent() {
    let found = changes(
        r#"{"properties":{"a":{},"b":{}},"additionalProperties":false}"#,
        r#"{"properties":{"b":{}},"additionalProperties":false}"#,
    );
    assert_eq!(
        found,
        vec![at(
            "",
            ChangeKind::PropertyRemove { lhs_additional_properties: false, removed: "a".to_owned() }
        )]
    );
    assert!(found[0].change.is_breaking());
}

#[test]
fn any_of_branches_in_another_order() {
    assert_eq!(
        changes(
            r#"{"anyOf":[{"type":"array"},{"type":"string"}]}"#,
            r#"{"anyOf":[{"type":"string"},{"type":"array"}]}"#
        ),
        vec![]
    );
}

#[test]
fn minimum_removed_and_added() {
    assert_eq!(
        changes(r#"{"type":"number","minimum":1.0}"#, r#"{"type":"number"}"#),
        vec![at("", ChangeKind::RangeRemove { removed: Range::Minimum(number(1.0)) })]
    );
    assert_eq!(
        changes(r#"{"type":"number"}"#, r#"{"type":"number","minimum":1.0}"#),
        vec![at("", ChangeKind::RangeAdd { added: Range::Minimum(number(1.0)) })]
    );
}

#[test]
fn required_removed_and_added() {
    let removed = changes(r#"{"required":["value"]}"#, r#"{"required":[]}"#);
    assert_eq!(removed, vec![at("", ChangeKind::RequiredRemove { property: "value".to_owned() })]);
    assert!(!removed[0].change.is_breaking());
    let added = changes(r#"{"required":[]}"#, r#"{"required":["value"]}"#);
    assert_eq!(added, vec![at("", ChangeKind::RequiredAdd { property: "value".to_owned() })]);
    assert!(added[0].change.is_breaking());
}

#[test]
fn a_schema_against_itself_shows_nothing() {
    let text = r##"{
        "$id": "urn:example",
        "type": "object",
        "properties": {
            "a": {"type": ["string", "number"], "minLength": 1, "minimum": 2},
            "b": {"anyOf": [{"type": "array", "items": [{"type": "string"}, true]}, {"const": {"x": 1}}]},
            "c": {"$ref": "#/definitions/C"}
        },
        "required": ["a"],
        "additionalProperties": {"type": "null"},
        "definitions": {"C": {"type": "array", "items": {"format": "date"}}}
    }"##;
    assert_eq!(changes(text, text), vec![]);
}

#[test]
fn all_bounds_are_compared_in_order() {
    assert_eq!(
        changes(
            r#"{"minimum":1,"maximum":5,"exclusiveMinimum":0}"#,
            r#"{"minimum":2,"exclusiveMinimum":0,"exclusiveMaximum":9}"#
        ),
        vec![
            at(
                "",
                ChangeKind::RangeChange {
                    old_value: Range::Minimum(number(1.0)),
                    new_value: Range::Minimum(number(2.0))
                }
            ),
            at("", ChangeKind::RangeRemove { removed: Range::Maximum(number(5.0)) }),
            at("", ChangeKind::RangeAdd { added: Range::ExclusiveMaximum(number(9.0)) }),
        ]
    );
}

#[test]
fn bounds_of_a_single_branch_count() {
    assert_eq!(
        changes(r#"{"anyOf":[{"type":"number","minimum":1}]}"#, r#"{"type":"number","minimum":1}"#),
        vec![]
    );
    assert_eq!(
        changes(r#"{"anyOf":[{"type":"number","minimum":1}]}"#, r#"{"type":"number"}"#),
        vec![at("", ChangeKind::RangeRemove { removed: Range::Minimum(number(1.0)) })]
    );
}

#[test]
fn string_keywords_are_compared_in_order() {
    assert_eq!(
        changes(
            r#"{"type":"string","format":"date","pattern":"a","minLength":1,"maxLength":9}"#,
            r#"{"type":"string","format":"time","minLength":2}"#
        ),
        vec![
            at(
                "",
                ChangeKind::FormatChange { old_value: "date".to_owned(), new_value: "time".to_owned() }
            ),
            at("", ChangeKind::PatternRemove { removed: "a".to_owned() }),
            at("", ChangeKind::MinLengthChange { old_value: 1, new_value: 2 }),
            at("", ChangeKind::MaxLengthRemove { removed: 9 }),
        ]
    );
    assert_eq!(
        changes(r#"{"type":"string"}"#, r#"{"type":"string","format":"date","pattern":"a","maxLength":9}"#),
        vec![
            at("", ChangeKind::FormatAdd { added: "date".to_owned() }),
            at("", ChangeKind::PatternAdd { added: "a".to_owned() }),
            at("", ChangeKind::MaxLengthAdd { added: 9 }),
        ]
    );
}

#[test]
fn constants_are_compared() {
    assert_eq!(
        changes(r#"{"const":"a"}"#, r#"{"const":"b"}"#),
        vec![
            at("", ChangeKind::ConstRemove { removed: JsonValue::String("a".to_owned()) }),
            at("", ChangeKind::ConstAdd { added: JsonValue::String("b".to_owned()) }),
        ]
    );
    assert_eq!(
        changes(r#"{"const":1}"#, r#"{}"#),
        vec![
            type_add("", JsonSchemaType::String),
            type_add("", JsonSchemaType::Object),
            type_add("", JsonSchemaType::Array),
            type_add("", JsonSchemaType::Boolean),
            type_add("", JsonSchemaType::Null),
            at("", ChangeKind::ConstRemove { removed: JsonValue::Number(JsonNumber::PosInt(1)) }),
        ]
    );
    assert_eq!(changes(r#"{"const":1}"#, r#"{"const":1}"#), vec![]);
    assert_eq!(
        changes(r#"{"const":1}"#, r#"{"const":1.0}"#),
        vec![
            at("", ChangeKind::ConstRemove { removed: JsonValue::Number(JsonNumber::PosInt(1)) }),
            at("", ChangeKind::ConstAdd { added: JsonValue::Number(JsonNumber::Float(number(1.0))) }),
        ]
    );
}

#[test]
fn a_primitive_constant_leaves_the_other_keywords() {
    assert_eq!(
        changes(r#"{"type":"number","const":1,"minimum":0}"#, r#"{"type":"number","minimum":0}"#),
        vec![at("", ChangeKind::ConstRemove { removed: JsonValue::Number(JsonNumber::PosInt(1)) })]
    );
}

#[test]
fn an_object_constant_is_compared_by_property() {
    assert_eq!(
        changes(r#"{"const":{"a":1,"b":{"c":true}}}"#, r#"{"const":{"a":2,"b":{"c":true},"d":null}}"#),
        vec![
            at("", ChangeKind::PropertyAdd { lhs_additional_properties: true, added: "d".to_owned() }),
            at(".a", ChangeKind::ConstRemove { removed: JsonValue::Number(JsonNumber::PosInt(1)) }),
            at(".a", ChangeKind::ConstAdd { added: JsonValue::Number(JsonNumber::PosInt(2)) }),
        ]
    );
}

#[test]
fn properties_are_walked_in_the_order_of_their_names() {
    assert_eq!(
        changes(
            r#"{"properties":{"b":{"type":"string"},"a":{"type":"string"},"z":{},"c":{}}}"#,
            r#"{"properties":{"b":{"type":"null"},"a":{"type":"boolean"},"y":{},"d":{}}}"#
        ),
        vec![
            at("", ChangeKind::PropertyRemove { lhs_additional_properties: true, removed: "c".to_owned() }),
            at("", ChangeKind::PropertyRemove { lhs_additional_properties: true, removed: "z".to_owned() }),
            at("", ChangeKind::PropertyAdd { lhs_additional_properties: true, added: "d".to_owned() }),
            at("", ChangeKind::PropertyAdd { lhs_additional_properties: true, added: "y".to_owned() }),
            type_remove(".a", JsonSchemaType::String),
            type_add(".a", JsonSchemaType::Boolean),
            type_remove(".b", JsonSchemaType::String),
            type_add(".b", JsonSchemaType::Null),
        ]
    );
}

#[test]
fn tuples_of_different_lengths() {
    assert_eq!(
        changes(
            r#"{"items":[{"type":"string"},{"type":"string"},{"type":"string"}]}"#,
            r#"{"items":[{"type":"string"},{"type":"null"}]}"#
        ),
        vec![
            at("", ChangeKind::TupleChange { new_length: 2 }),
            type_remove(".1", JsonSchemaType::String),
            type_add(".1", JsonSchemaType::Null),
        ]
    );
}

#[test]
fn array_items_are_compared_under_a_question_mark() {
    assert_eq!(
        changes(r#"{"items":{"type":"string"}}"#, r#"{"items":{"type":"null"}}"#),
        vec![type_remove(".?", JsonSchemaType::String), type_add(".?", JsonSchemaType::Null)]
    );
}

#[test]
fn array_to_tuple_and_back() {
    assert_eq!(
        changes(r#"{"items":{"type":"string"}}"#, r#"{"items":[{"type":"string"},{"type":"null"}]}"#),
        vec![
            at("", ChangeKind::ArrayToTuple { new_length: 2 }),
            type_remove(".1", JsonSchemaType::String),
            type_add(".1", JsonSchemaType::Null),
        ]
    );
    assert_eq!(
        changes(r#"{"items":[{"type":"string"},{"type":"null"}]}"#, r#"{"items":{"type":"string"}}"#),
        vec![
            at("", ChangeKind::TupleToArray { old_length: 2 }),
            type_remove(".1", JsonSchemaType::Null),
            type_add(".1", JsonSchemaType::String),
        ]
    );
}

#[test]
fn positions_are_written_in_decimal() {
    let many = |last: &str| {
        let mut items = vec![r#"{"type":"string"}"#.to_owned(); 12];
        items.push(format!(r#"{{"type":"{}"}}"#, last));
        format!(r#"{{"items":[{}]}}"#, items.join(","))
    };
    assert_eq!(
        changes(&many("string"), &many("null")),
        vec![type_remove(".12", JsonSchemaType::String), type_add(".12", JsonSchemaType::Null)]
    );
}

#[test]
fn a_list_of_types_is_split() {
    assert_eq!(
        changes(r#"{"type":["string","number"],"minLength":1}"#, r#"{"type":["string","number"],"minLength":2}"#),
        vec![at("", ChangeKind::MinLengthChange { old_value: 1, new_value: 2 })]
    );
    assert_eq!(
        changes(r#"{"type":["string","null"]}"#, r#"{"type":["string"]}"#),
        vec![type_remove("", JsonSchemaType::Null)]
    );
}

#[test]
fn a_split_on_the_old_side_only_keeps_the_branch_number() {
    assert_eq!(
        changes(
            r#"{"type":["string","number"],"minimum":1}"#,
            r#"{"anyOf":[{"type":"string"},{"type":"number","minimum":2}]}"#
        ),
        vec![at(
            ".<anyOf:1>",
            ChangeKind::RangeChange {
                old_value: Range::Minimum(number(1.0)),
                new_value: Range::Minimum(number(2.0))
            }
        )]
    );
}

#[test]
fn any_of_branches_are_located_by_the_new_branch() {
    assert_eq!(
        changes(
            r#"{"anyOf":[{"type":"array","items":{"type":"string"}},{"type":"string"}]}"#,
            r#"{"anyOf":[{"type":"string"},{"type":"array","items":{"type":"null"}}]}"#
        ),
        vec![
            type_remove(".<anyOf:1>.?", JsonSchemaType::String),
            type_add(".<anyOf:1>.?", JsonSchemaType::Null),
        ]
    );
}

#[test]
fn a_shorter_any_of_is_padded_with_false() {
    assert_eq!(
        changes(r#"{"anyOf":[{"type":"string"}]}"#, r#"{"anyOf":[{"type":"string"},{"type":"null"}]}"#),
        vec![type_add("", JsonSchemaType::Null)]
    );
}

#[test]
fn references_are_followed_in_their_own_documents() {
    assert_eq!(
        changes(
            r##"{"properties":{"a":{"$ref":"#/definitions/A"}},"definitions":{"A":{"type":"string"}}}"##,
            r##"{"properties":{"a":{"$ref":"#/definitions/A"}},"definitions":{"A":{"type":"null"}}}"##
        ),
        vec![type_remove(".a", JsonSchemaType::String), type_add(".a", JsonSchemaType::Null)]
    );
}

#[test]
fn a_reference_that_means_nothing_is_left_alone() {
    assert_eq!(
        changes(r##"{"$ref":"#/definitions/missing","type":"string"}"##, r#"{"type":"string"}"#),
        vec![]
    );
}

#[test]
fn a_reference_to_itself_ends_in_an_error() {
    let text = r##"{"$ref":"#/definitions/A","definitions":{"A":{"properties":{"a":{"$ref":"#/definitions/A"}}}}}"##;
    assert_eq!(diff(root(text), root(text)), Err(Error::DiffDepth));
}

#[test]
fn the_walk_goes_no_deeper_than_it_may() {
    let text = r#"{"properties":{"a":{"properties":{"b":{"type":"string"}}}}}"#;
    let schema = |text: &str| Schema::Object(root(text).schema);
    let mut shallow = DiffWalker::with_max_depth(root(text), root(text), 2);
    assert_eq!(shallow.diff("", &schema(text), &schema(text)), Err(Error::DiffDepth));
    let mut deep = DiffWalker::with_max_depth(root(text), root(text), 3);
    assert_eq!(deep.diff("", &schema(text), &schema(text)), Ok(()));
    assert!(deep.changes().is_empty());
}

#[test]
fn a_walker_records_after_what_it_has() {
    let lhs = r#"{"type":"string"}"#;
    let rhs = r#"{"type":"null"}"#;
    let schema = |text: &str| Schema::Object(root(text).schema);
    let mut walker = DiffWalker::new(root(lhs), root(rhs));
    walker.diff(".x", &schema(lhs), &schema(rhs)).unwrap();
    walker.diff(".y", &Schema::Bool(true), &Schema::Bool(false)).unwrap();
    let found = walker.into_changes();
    assert_eq!(found.len(), 9);
    assert_eq!(found[0], type_remove(".x", JsonSchemaType::String));
    assert_eq!(found[1], type_add(".x", JsonSchemaType::Null));
    assert_eq!(found[2], type_remove(".y", JsonSchemaType::String));
    assert_eq!(found[8], type_remove(".y", JsonSchemaType::Null));
}

#[test]
fn paths_are_rows_of_dotted_segments() {
    let found = changes(
        r#"{"properties":{"p":{"items":[{"anyOf":[{"additionalProperties":{"type":"string"}},{"type":"null"}]}]}}}"#,
        r#"{"properties":{"p":{"items":[{"anyOf":[{"type":"null"},{"additionalProperties":{"type":"number"}}]}]}}}"#,
    );
    assert!(!found.is_empty());
    for change in &found {
        assert_eq!(change.path, ".p.0.<anyOf:1>.<additionalProperties>");
    }
}

fn branches(texts: &[&str]) -> Vec<Schema> {
    texts.iter().map(|text| Schema::Object(root(text).schema)).collect()
}

#[test]
fn the_costs_are_the_numbers_of_changes() {
    let documents = Documents::new(root("{}"), root("{}"));
    let lhs = branches(&[r#"{"type":"string","minLength":1}"#, r#"{"type":"number","minimum":1}"#]);
    let rhs = branches(&[r#"{"type":"number","minimum":2}"#, r#"{"type":"string","minLength":3}"#]);
    assert_eq!(cost_matrix(&documents, 4, &lhs, &rhs), Ok(vec![5, 1, 1, 5]));
    assert_eq!(cost_matrix(&documents, 4, &lhs, &lhs), Ok(vec![0, 5, 5, 0]));
    assert_eq!(cost_matrix(&documents, 0, &lhs, &rhs), Err(Error::DiffDepth));
    assert_eq!(cost_matrix(&documents, 4, &vec![], &vec![]), Ok(vec![]));
}

#[test]
fn pairs_are_compared_as_they_are_given() {
    let documents = Documents::new(root("{}"), root("{}"));
    let lhs = branches(&[r#"{"type":"string","minLength":1}"#, r#"{"type":"number","minimum":1}"#]);
    let rhs = branches(&[r#"{"type":"number","minimum":2}"#, r#"{"type":"string","minLength":3}"#]);
    let length = || ChangeKind::MinLengthChange { old_value: 1, new_value: 3 };
    let bound = || ChangeKind::RangeChange {
        old_value: Range::Minimum(number(1.0)),
        new_value: Range::Minimum(number(2.0)),
    };

    let mut sink = vec![];
    diff_pairs(&documents, &mut sink, 4, ".x", false, &lhs, &rhs, &vec![1, 0]).unwrap();
    assert_eq!(sink, vec![at(".x.<anyOf:1>", length()), at(".x.<anyOf:0>", bound())]);

    let mut sink = vec![];
    diff_pairs(&documents, &mut sink, 4, ".x", true, &lhs, &rhs, &vec![1, 0]).unwrap();
    assert_eq!(sink, vec![at(".x", length()), at(".x", bound())]);

    let mut sink = vec![];
    diff_pairs(&documents, &mut sink, 4, "", false, &lhs, &rhs, &vec![0, 1]).unwrap();
    assert_eq!(
        sink,
        vec![
            at(".<anyOf:0>", ChangeKind::RangeAdd { added: Range::Minimum(number(2.0)) }),
            at(".<anyOf:0>", ChangeKind::MinLengthRemove { removed: 1 }),
            at(".<anyOf:1>", ChangeKind::RangeRemove { removed: Range::Minimum(number(1.0)) }),
            at(".<anyOf:1>", ChangeKind::MinLengthAdd { added: 3 }),
        ]
    );

    let mut sink = vec![];
    assert_eq!(
        diff_pairs(&documents, &mut sink, 0, "", false, &lhs, &rhs, &vec![0, 1]),
        Err(Error::DiffDepth)
    );
}

#[test]
fn the_cheapest_pairing_is_taken() {
    assert_eq!(
        changes(
            r#"{"anyOf":[{"type":"string","minLength":1},{"type":"number","minimum":1}]}"#,
            r#"{"anyOf":[{"type":"number","minimum":2},{"type":"string","minLength":3}]}"#
        ),
        vec![
            at(".<anyOf:1>", ChangeKind::MinLengthChange { old_value: 1, new_value: 3 }),
            at(
                ".<anyOf:0>",
                ChangeKind::RangeChange {
                    old_value: Range::Minimum(number(1.0)),
                    new_value: Range::Minimum(number(2.0))
                }
            ),
        ]
    );
}

#[test]
fn a_schema_with_a_keyword_that_is_not_read_is_not_empty() {
    assert_eq!(
        changes(
            r#"{"type":"object","properties":{"a":{}},"additionalProperties":{"description":"anything"}}"#,
            r#"{"type":"object","additionalProperties":{"description":"anything"}}"#
        ),
        vec![at(
            "",
            ChangeKind::PropertyRemove { lhs_additional_properties: false, removed: "a".to_owned() }
        )]
    );
    assert_eq!(
        changes(
            r#"{"type":"object","properties":{"a":{}},"additionalProperties":{}}"#,
            r#"{"type":"object","additionalProperties":{}}"#
        ),
        vec![at(
            "",
            ChangeKind::PropertyRemove { lhs_additional_properties: true, removed: "a".to_owned() }
        )]
    );
    assert_eq!(changes(r#"{"not":{"title":"t"}}"#, r#"{}"#), vec![]);
    assert_eq!(changes(r#"{"title":"old","enum":[1,2]}"#, r#"{"title":"new","enum":[3]}"#), vec![]);
    assert_eq!(
        changes(r#"{"additionalProperties":{"title":"old"}}"#, r#"{"additionalProperties":{"title":"new"}}"#),
        vec![]
    );
}

#[test]
fn the_same_documents_give_the_same_changes() {
    let lhs = r#"{"anyOf":[{"type":"string","minLength":1},{"type":"number","minimum":1},{"type":"null"}],"properties":{"a":{"type":["string","null"]}}}"#;
    let rhs = r#"{"anyOf":[{"type":"null"},{"type":"number","minimum":2},{"type":"string","minLength":3}],"properties":{"a":{"type":"string"},"b":{}}}"#;
    let first = changes(lhs, rhs);
    let second = changes(lhs, rhs);
    assert!(!first.is_empty());
    assert_eq!(first, second);
}
