use json_schema_diff::align::min_cost_pairs;
use json_schema_diff::double::Double;
use json_schema_diff::json::JsonNumber;
use json_schema_diff::json::JsonValue;
use json_schema_diff::lattice::type_of_value;
use json_schema_diff::lattice::InternalJsonSchemaType;
use json_schema_diff::names::name_order;
use json_schema_diff::names::NameMap;
use json_schema_diff::names::NameOrder;
use json_schema_diff::normalize::normalize_const;
use json_schema_diff::normalize::restrictions_for_single_type;
use json_schema_diff::normalize::split_types;
use json_schema_diff::path::any_of_path;
use json_schema_diff::path::index_path;
use json_schema_diff::path::property_path;
use json_schema_diff::schema::InstanceTypes;
use json_schema_diff::schema::Schema;
use json_schema_diff::schema::SchemaObject;
use json_schema_diff::ChangeKind;
use json_schema_diff::JsonSchemaType;

fn all() -> Vec<JsonSchemaType> {
    vec![
        JsonSchemaType::String,
        JsonSchemaType::Number,
        JsonSchemaType::Integer,
        JsonSchemaType::Object,
        JsonSchemaType::Array,
        JsonSchemaType::Boolean,
        JsonSchemaType::Null,
    ]
}

#[test]
fn number_takes_integer_along() {
    assert_eq!(
        InternalJsonSchemaType::Simple(JsonSchemaType::Number).explode(),
        vec![JsonSchemaType::Integer, JsonSchemaType::Number]
    );
    let set = InternalJsonSchemaType::Simple(JsonSchemaType::Number).into_set();
    assert_eq!(set.to_sorted(), vec![JsonSchemaType::Number, JsonSchemaType::Integer]);
    let set = InternalJsonSchemaType::Simple(JsonSchemaType::Integer).into_set();
    assert_eq!(set.to_sorted(), vec![JsonSchemaType::Integer]);
}

#[test]
fn any_and_never() {
    assert_eq!(InternalJsonSchemaType::Any.explode(), all());
    assert_eq!(InternalJsonSchemaType::Any.into_set().to_sorted(), all());
    assert_eq!(InternalJsonSchemaType::Never.explode(), vec![]);
    assert!(InternalJsonSchemaType::Never.into_set().to_sorted().is_empty());
}

#[test]
fn a_list_gives_what_its_members_give() {
    let list = InternalJsonSchemaType::Multiple(vec![
        JsonSchemaType::Null,
        JsonSchemaType::Number,
        JsonSchemaType::Null,
    ]);
    assert_eq!(
        list.explode(),
        vec![JsonSchemaType::Null, JsonSchemaType::Integer, JsonSchemaType::Number, JsonSchemaType::Null]
    );
    let list = InternalJsonSchemaType::Multiple(vec![JsonSchemaType::Null, JsonSchemaType::Number]);
    assert_eq!(
        list.into_set().to_sorted(),
        vec![JsonSchemaType::Number, JsonSchemaType::Integer, JsonSchemaType::Null]
    );
}

#[test]
fn the_effective_type_follows_the_keywords() {
    let mut node = SchemaObject::new();
    assert_eq!(node.effective_type(), InternalJsonSchemaType::Any);
    node.not = Some(Box::new(Schema::Bool(true)));
    assert_eq!(node.effective_type(), InternalJsonSchemaType::Never);
    node.not = Some(Box::new(Schema::Bool(false)));
    assert_eq!(node.effective_type(), InternalJsonSchemaType::Any);
    node.any_of = Some(vec![
        Schema::Bool(false),
        Schema::Object({
            let mut branch = SchemaObject::new();
            branch.instance_type = Some(InstanceTypes::Single(JsonSchemaType::Number));
            branch
        }),
        Schema::Object({
            let mut branch = SchemaObject::new();
            branch.instance_type = Some(InstanceTypes::Single(JsonSchemaType::String));
            branch
        }),
    ]);
    assert_eq!(
        node.effective_type(),
        InternalJsonSchemaType::Multiple(vec![
            JsonSchemaType::String,
            JsonSchemaType::Number,
            JsonSchemaType::Integer
        ])
    );
    node.properties.insert("a".to_owned(), Schema::Bool(true));
    assert_eq!(node.effective_type(), InternalJsonSchemaType::Simple(JsonSchemaType::Object));
    node.const_value = Some(JsonValue::Number(JsonNumber::PosInt(3)));
    assert_eq!(node.effective_type(), InternalJsonSchemaType::Simple(JsonSchemaType::Number));
    node.instance_type = Some(InstanceTypes::Many(vec![JsonSchemaType::Null]));
    assert_eq!(node.effective_type(), InternalJsonSchemaType::Multiple(vec![JsonSchemaType::Null]));
    node.instance_type = Some(InstanceTypes::Single(JsonSchemaType::Boolean));
    assert_eq!(node.effective_type(), InternalJsonSchemaType::Simple(JsonSchemaType::Boolean));
}

#[test]
fn the_type_of_a_value() {
    assert_eq!(type_of_value(&JsonValue::Null), JsonSchemaType::Null);
    assert_eq!(type_of_value(&JsonValue::Bool(true)), JsonSchemaType::Boolean);
    assert_eq!(type_of_value(&JsonValue::Number(JsonNumber::NegInt(-1))), JsonSchemaType::Number);
    assert_eq!(type_of_value(&JsonValue::String(String::new())), JsonSchemaType::String);
    assert_eq!(type_of_value(&JsonValue::Array(vec![])), JsonSchemaType::Array);
    assert_eq!(type_of_value(&JsonValue::Object(NameMap::new())), JsonSchemaType::Object);
}

#[test]
fn true_and_false_as_objects() {
    assert!(Schema::Bool(true).into_object().is_true());
    assert!(SchemaObject::new().is_true());
    let mut described = SchemaObject::new();
    described.other.insert("title".to_owned(), JsonValue::String("any".to_owned()));
    assert!(!described.is_true());
    assert!(!described.equals(&SchemaObject::new()));
    assert!(described.equals(&described.clone()));
    let never = Schema::Bool(false).into_object();
    assert!(!never.is_true());
    assert_eq!(never.not, Some(Box::new(Schema::Object(SchemaObject::new()))));
    assert_eq!(never.effective_type(), InternalJsonSchemaType::Never);
}

#[test]
fn splitting_keeps_the_keywords_of_each_type() {
    let mut node = SchemaObject::new();
    node.instance_type = Some(InstanceTypes::Many(vec![JsonSchemaType::String, JsonSchemaType::Object]));
    node.min_length = Some(2);
    node.format = Some("date".to_owned());
    node.required.insert("a".to_owned(), ());
    node.id = Some("x".to_owned());
    let string = restrictions_for_single_type(&node, JsonSchemaType::String);
    let object = restrictions_for_single_type(&node, JsonSchemaType::Object);
    let mut expected_string = SchemaObject::new();
    expected_string.instance_type = Some(InstanceTypes::Single(JsonSchemaType::String));
    expected_string.min_length = Some(2);
    expected_string.format = Some("date".to_owned());
    assert_eq!(string, Schema::Object(expected_string));
    let mut expected_object = SchemaObject::new();
    expected_object.instance_type = Some(InstanceTypes::Single(JsonSchemaType::Object));
    expected_object.required.insert("a".to_owned(), ());
    assert_eq!(object, Schema::Object(expected_object));
    assert!(split_types(&mut node));
    let mut expected = SchemaObject::new();
    expected.any_of = Some(vec![string, object]);
    assert_eq!(node, expected);
    assert!(!split_types(&mut node));
    assert_eq!(node, expected);
}

#[test]
fn a_single_type_is_not_split() {
    let mut node = SchemaObject::new();
    node.instance_type = Some(InstanceTypes::Single(JsonSchemaType::String));
    assert!(!split_types(&mut node));
    node.instance_type = Some(InstanceTypes::Many(vec![JsonSchemaType::String]));
    node.any_of = Some(vec![]);
    assert!(!split_types(&mut node));
}

#[test]
fn an_object_constant_becomes_properties() {
    let mut inner = NameMap::new();
    inner.insert("c".to_owned(), JsonValue::Bool(true));
    let mut members = NameMap::new();
    members.insert("b".to_owned(), JsonValue::Object(inner));
    members.insert("a".to_owned(), JsonValue::Null);
    let mut node = SchemaObject::new();
    node.instance_type = Some(InstanceTypes::Single(JsonSchemaType::Object));
    node.const_value = Some(JsonValue::Object(members));
    normalize_const(&mut node);
    let mut c = SchemaObject::new();
    c.const_value = Some(JsonValue::Bool(true));
    let mut b = SchemaObject::new();
    b.properties.insert("c".to_owned(), Schema::Object(c));
    let mut a = SchemaObject::new();
    a.const_value = Some(JsonValue::Null);
    let mut expected = SchemaObject::new();
    expected.properties.insert("a".to_owned(), Schema::Object(a));
    expected.properties.insert("b".to_owned(), Schema::Object(b));
    assert_eq!(node, expected);
    normalize_const(&mut node);
    assert_eq!(node, expected);
}

#[test]
fn a_primitive_constant_stays() {
    let mut node = SchemaObject::new();
    node.instance_type = Some(InstanceTypes::Single(JsonSchemaType::String));
    node.const_value = Some(JsonValue::String("a".to_owned()));
    normalize_const(&mut node);
    let mut expected = SchemaObject::new();
    expected.instance_type = Some(InstanceTypes::Single(JsonSchemaType::String));
    expected.const_value = Some(JsonValue::String("a".to_owned()));
    assert_eq!(node, expected);
}

#[test]
fn names_are_ordered_by_their_bytes() {
    assert_eq!(name_order("a", "b"), NameOrder::Before);
    assert_eq!(name_order("b", "a"), NameOrder::After);
    assert_eq!(name_order("a", "a"), NameOrder::Same);
    assert_eq!(name_order("", "a"), NameOrder::Before);
    assert_eq!(name_order("ab", "a"), NameOrder::After);
    assert_eq!(name_order("Z", "a"), NameOrder::Before);
    assert_eq!(name_order("z", "\u{e9}"), NameOrder::Before);
    assert_eq!(name_order("\u{ffff}", "\u{10000}"), NameOrder::Before);
}

#[test]
fn a_name_map_keeps_its_names_sorted() {
    let mut map = NameMap::new();
    map.insert("m".to_owned(), 1);
    map.insert("a".to_owned(), 2);
    map.insert("z".to_owned(), 3);
    map.insert("m".to_owned(), 4);
    assert_eq!(map.len(), 3);
    assert_eq!(map.name_at(0), "a");
    assert_eq!(map.name_at(1), "m");
    assert_eq!(map.name_at(2), "z");
    assert_eq!(*map.value_at(1), 4);
    assert_eq!(map.find("z"), Some(2));
    assert_eq!(map.find("b"), None);
    assert_eq!(map.get("a"), Some(&2));
    assert_eq!(map.get(""), None);
}

#[test]
fn numbers_compare_by_value() {
    let number = |value: f64| Double::from_bits(value.to_bits()).unwrap();
    assert!(number(0.0).equals(&number(-0.0)));
    assert!(number(0.0) == number(-0.0));
    assert!(number(-1.5).le(&number(-1.25)));
    assert!(!number(-1.25).le(&number(-1.5)));
    assert!(number(2.0).ge(&number(-3.0)));
    assert!(number(1e300).ge(&number(1e-300)));
    assert!(number(-1e-300).le(&number(0.0)));
    assert!(!number(1.0).equals(&number(1.0000000000000002)));
    assert_eq!(number(1.0).to_bits(), 1.0f64.to_bits());
    assert!(Double::from_bits(f64::NAN.to_bits()).is_none());
    assert!(Double::from_bits(f64::INFINITY.to_bits()).is_none());
    assert!(Double::from_bits(f64::NEG_INFINITY.to_bits()).is_none());
    assert!(Double::from_bits(f64::MAX.to_bits()).is_some());
    assert!(Double::from_bits(f64::MIN.to_bits()).is_some());
}

#[test]
fn json_values_compare_by_structure() {
    let number = |value: f64| Double::from_bits(value.to_bits()).unwrap();
    let one = JsonValue::Number(JsonNumber::PosInt(1));
    let one_float = JsonValue::Number(JsonNumber::Float(number(1.0)));
    assert!(one.equals(&one.clone()));
    assert!(!one.equals(&one_float));
    let mut a = NameMap::new();
    a.insert("x".to_owned(), JsonValue::Array(vec![one.clone(), JsonValue::Null]));
    a.insert("y".to_owned(), JsonValue::Bool(false));
    let mut b = NameMap::new();
    b.insert("y".to_owned(), JsonValue::Bool(false));
    b.insert("x".to_owned(), JsonValue::Array(vec![one.clone(), JsonValue::Null]));
    assert!(JsonValue::Object(a).equals(&JsonValue::Object(b)));
    assert!(!JsonValue::Array(vec![one.clone()]).equals(&JsonValue::Array(vec![one.clone(), one.clone()])));
    assert!(!JsonValue::Null.equals(&JsonValue::Bool(false)));
    assert!(JsonValue::Object(NameMap::new()).is_object());
    assert!(!JsonValue::Array(vec![]).is_object());
}

#[test]
fn schemas_compare_by_keyword() {
    let mut a = SchemaObject::new();
    a.pattern = Some("x".to_owned());
    a.properties.insert("p".to_owned(), Schema::Bool(false));
    let b = a.clone();
    assert!(a.equals(&b));
    assert_eq!(a, b);
    let mut c = a.clone();
    c.properties.insert("p".to_owned(), Schema::Bool(true));
    assert!(!a.equals(&c));
    assert!(!Schema::Bool(true).equals(&Schema::Object(SchemaObject::new())));
    assert!(Schema::Bool(true).equals(&Schema::Bool(true)));
}

#[test]
fn paths_are_put_together() {
    assert_eq!(property_path("", "a"), ".a");
    assert_eq!(property_path(".a", "b.c"), ".a.b.c");
    assert_eq!(index_path(".a", 0), ".a.0");
    assert_eq!(index_path("", 1234567890), ".1234567890");
    assert_eq!(any_of_path(".x", 10), ".x.<anyOf:10>");
}

#[test]
fn the_cheapest_pairs_are_chosen() {
    assert_eq!(min_cost_pairs(2, vec![5, 0, 0, 5]), vec![1, 0]);
    assert_eq!(min_cost_pairs(3, vec![0, 4, 4, 4, 4, 0, 4, 0, 4]), vec![0, 2, 1]);
    assert_eq!(min_cost_pairs(1, vec![7]), vec![0]);
    assert_eq!(min_cost_pairs(0, vec![]), vec![]);
    assert_eq!(min_cost_pairs(2, vec![0x7fff_ffff, 1, 1, 0x7fff_ffff]), vec![1, 0]);
}

#[test]
fn which_changes_are_breaking() {
    let text = |s: &str| s.to_owned();
    assert!(!ChangeKind::TypeAdd { added: JsonSchemaType::Null }.is_breaking());
    assert!(ChangeKind::TypeRemove { removed: JsonSchemaType::Null }.is_breaking());
    assert!(ChangeKind::ConstAdd { added: JsonValue::Null }.is_breaking());
    assert!(!ChangeKind::ConstRemove { removed: JsonValue::Null }.is_breaking());
    assert!(ChangeKind::PropertyAdd { lhs_additional_properties: true, added: text("a") }.is_breaking());
    assert!(!ChangeKind::PropertyAdd { lhs_additional_properties: false, added: text("a") }.is_breaking());
    assert!(!ChangeKind::PropertyRemove { lhs_additional_properties: true, removed: text("a") }.is_breaking());
    assert!(ChangeKind::PropertyRemove { lhs_additional_properties: false, removed: text("a") }.is_breaking());
    assert!(!ChangeKind::TupleToArray { old_length: 1 }.is_breaking());
    assert!(ChangeKind::ArrayToTuple { new_length: 1 }.is_breaking());
    assert!(ChangeKind::TupleChange { new_length: 1 }.is_breaking());
    assert!(!ChangeKind::RequiredRemove { property: text("a") }.is_breaking());
    assert!(ChangeKind::RequiredAdd { property: text("a") }.is_breaking());
    assert!(ChangeKind::FormatAdd { added: text("a") }.is_breaking());
    assert!(!ChangeKind::FormatRemove { removed: text("a") }.is_breaking());
    assert!(ChangeKind::FormatChange { old_value: text("a"), new_value: text("b") }.is_breaking());
    assert!(ChangeKind::PatternAdd { added: text("a") }.is_breaking());
    assert!(!ChangeKind::PatternRemove { removed: text("a") }.is_breaking());
    assert!(ChangeKind::PatternChange { old_value: text("a"), new_value: text("b") }.is_breaking());
    assert!(ChangeKind::MinLengthAdd { added: 1 }.is_breaking());
    assert!(!ChangeKind::MinLengthRemove { removed: 1 }.is_breaking());
    assert!(ChangeKind::MinLengthChange { old_value: 1, new_value: 2 }.is_breaking());
    assert!(!ChangeKind::MinLengthChange { old_value: 2, new_value: 1 }.is_breaking());
    assert!(ChangeKind::MaxLengthAdd { added: 1 }.is_breaking());
    assert!(!ChangeKind::MaxLengthRemove { removed: 1 }.is_breaking());
    assert!(!ChangeKind::MaxLengthChange { old_value: 1, new_value: 2 }.is_breaking());
    assert!(ChangeKind::MaxLengthChange { old_value: 2, new_value: 1 }.is_breaking());
}

#[test]
fn bounds_added_and_removed_are_classified() {
    let number = |value: f64| Double::from_bits(value.to_bits()).unwrap();
    assert!(ChangeKind::RangeAdd { added: json_schema_diff::Range::Maximum(number(1.0)) }.is_breaking());
    assert!(!ChangeKind::RangeRemove { removed: json_schema_diff::Range::Maximum(number(1.0)) }.is_breaking());
    assert!(!ChangeKind::RangeChange {
        old_value: json_schema_diff::Range::ExclusiveMinimum(number(1.0)),
        new_value: json_schema_diff::Range::Minimum(number(1.0)),
    }
    .is_breaking());
    assert!(ChangeKind::RangeChange {
        old_value: json_schema_diff::Range::ExclusiveMinimum(number(1.0)),
        new_value: json_schema_diff::Range::Minimum(number(2.0)),
    }
    .is_breaking());
    assert!(!ChangeKind::RangeChange {
        old_value: json_schema_diff::Range::ExclusiveMaximum(number(1.0)),
        new_value: json_schema_diff::Range::Maximum(number(1.0)),
    }
    .is_breaking());
    assert!(ChangeKind::RangeChange {
        old_value: json_schema_diff::Range::Minimum(number(1.0)),
        new_value: json_schema_diff::Range::Maximum(number(1.0)),
    }
    .is_breaking());
}

#[test]
fn one_type_as_an_effective_type() {
    assert_eq!(
        InternalJsonSchemaType::from(JsonSchemaType::Number),
        InternalJsonSchemaType::Simple(JsonSchemaType::Number)
    );
    let converted: InternalJsonSchemaType = JsonSchemaType::Null.into();
    assert_eq!(converted.explode(), vec![JsonSchemaType::Null]);
}

#[test]
fn errors_are_told_apart() {
    let parse = json_schema_diff::Error::Parse("expected a value".to_owned());
    assert_ne!(parse, json_schema_diff::Error::DiffDepth);
    assert_eq!(parse, json_schema_diff::Error::Parse("expected a value".to_owned()));
}
