//! The two rewrites that a comparison applies to a schema object before
//! it looks at its keywords.
//!
//! A schema object with a list of types is split into an `anyOf` with one
//! branch per type. A schema object whose `const` is a JSON object is
//! turned into one that declares a property for each member.

use vstd::prelude::*;
use crate::json::JsonModel;
use crate::json::JsonValue;
use crate::lattice::InternalJsonSchemaType;
use crate::lattice::effective_type;
use crate::names::NameMap;
use crate::names::sorted;
use crate::schema::InstanceTypes;
use crate::schema::NodeModel;
use crate::schema::Schema;
use crate::schema::SchemaModel;
use crate::schema::SchemaObject;
use crate::schema::TypesModel;
use crate::schema::clone_boxed;
use crate::schema::clone_items;
use crate::schema::clone_names;
use crate::schema::clone_properties;
use crate::schema::clone_text;
use crate::schema::lemma_schema_views;
use crate::schema::schema_views;
use crate::types::JsonSchemaType;

verus! {

/// The schema object that admits the one type `t` and nothing else.
pub open spec fn single_type(t: JsonSchemaType) -> NodeModel {
    NodeModel { instance_type: Some(TypesModel::Single(t)), ..NodeModel::empty() }
}

/// `node` cut down to the one type `t`: it admits `t` and keeps the
/// keywords that speak of values of that type (the lengths, pattern and
/// format for a string; the bounds for a number or an integer; the
/// properties, required names and schema for undeclared properties for an
/// object; the items for an array) and no others.
pub open spec fn projection(node: NodeModel, t: JsonSchemaType) -> SchemaModel {
    SchemaModel::Object(
        match t {
            JsonSchemaType::String => NodeModel {
                min_length: node.min_length,
                max_length: node.max_length,
                pattern: node.pattern,
                format: node.format,
                ..single_type(t)
            },
            JsonSchemaType::Number | JsonSchemaType::Integer => NodeModel { number: node.number, ..single_type(t) },
            JsonSchemaType::Object => NodeModel {
                properties: node.properties,
                required: node.required,
                additional_properties: node.additional_properties,
                ..single_type(t)
            },
            JsonSchemaType::Array => NodeModel { items: node.items, ..single_type(t) },
            JsonSchemaType::Boolean | JsonSchemaType::Null => single_type(t),
        },
    )
}

/// `node` cut down to each of the listed types in turn.
pub open spec fn projections(node: NodeModel, types: Seq<JsonSchemaType>) -> Seq<SchemaModel> {
    Seq::new(types.len(), |i: int| projection(node, types[i]))
}

/// Whether a schema object is to be split: its effective type is a list
/// and it has no `anyOf` of its own.
#[verifier::opaque]
pub open spec fn is_split(node: NodeModel) -> bool {
    effective_type(node) is Multiple && node.any_of is None
}

/// The schema object after splitting: where it is to be split, an object
/// whose only keyword is an `anyOf` with one branch for each listed type;
/// else the object itself.
#[verifier::opaque]
pub open spec fn split_node(node: NodeModel) -> NodeModel {
    if is_split(node) {
        NodeModel {
            any_of: Some(projections(node, effective_type(node)->Multiple_0)),
            ..NodeModel::empty()
        }
    } else {
        node
    }
}

/// The schema object that demands the value `value`: for a JSON object,
/// one that declares a property for each member, demanding the member's
/// value in the same way; for any other value, one whose only keyword is
/// `const`.
pub open spec fn const_schema(value: JsonModel) -> NodeModel
    decreases value, 0int,
{
    match value {
        JsonModel::Object(members) => NodeModel {
            properties: const_properties(members, members.len() as int),
            ..NodeModel::empty()
        },
        _ => NodeModel { const_value: Some(value), ..NodeModel::empty() },
    }
}

/// The properties that demand the values of the first `n` members.
pub open spec fn const_properties(members: Seq<(Seq<char>, JsonModel)>, n: int) -> Seq<(Seq<char>, SchemaModel)>
    decreases members, n,
{
    if n <= 0 || n > members.len() {
        Seq::empty()
    } else {
        const_properties(members, n - 1).push(
            (members[n - 1].0, SchemaModel::Object(const_schema(members[n - 1].1))),
        )
    }
}

/// The schema object after its constant is normalized: where `const` is
/// a JSON object, the schema object that demands that value property by
/// property; else the object itself.
#[verifier::opaque]
pub open spec fn const_normalized(node: NodeModel) -> NodeModel {
    if node.const_value is Some && node.const_value->Some_0 is Object {
        const_schema(node.const_value->Some_0)
    } else {
        node
    }
}

/// `const_properties` goes member by member.
pub proof fn lemma_const_properties(members: Seq<(Seq<char>, JsonModel)>, n: int)
    requires
        0 <= n <= members.len(),
    ensures
        const_properties(members, n).len() == n,
        forall|i: int|
            0 <= i < n ==> (#[trigger] const_properties(members, n)[i]) == (
                members[i].0,
                SchemaModel::Object(const_schema(members[i].1)),
            ),
    decreases n,
{
    reveal_with_fuel(const_properties, 2);
    if n > 0 {
        lemma_const_properties(members, n - 1);
    }
}

/// Splitting a second time changes nothing.
pub proof fn lemma_split_types_idempotent(node: NodeModel)
    ensures
        split_node(split_node(node)) == split_node(node),
        !is_split(split_node(node)),
{
    reveal(split_node);
    reveal(is_split);
}

/// Normalizing the constant a second time changes nothing.
pub proof fn lemma_normalize_const_idempotent(node: NodeModel)
    ensures
        const_normalized(const_normalized(node)) == const_normalized(node),
{
    reveal(const_normalized);
    reveal_with_fuel(const_schema, 2);
}

/// `schema_object` cut down to the one type `ty`.
pub fn restrictions_for_single_type(schema_object: &SchemaObject, ty: JsonSchemaType) -> (r: Schema)
    ensures
        r@ == projection(schema_object@, ty),
{
    let mut ret = SchemaObject::new();
    ret.instance_type = Some(InstanceTypes::Single(ty));
    match ty {
        JsonSchemaType::String => {
            ret.min_length = schema_object.min_length;
            ret.max_length = schema_object.max_length;
            ret.pattern = clone_text(&schema_object.pattern);
            ret.format = clone_text(&schema_object.format);
        },
        JsonSchemaType::Number | JsonSchemaType::Integer => {
            ret.number = schema_object.number;
        },
        JsonSchemaType::Object => {
            ret.properties = clone_properties(&schema_object.properties);
            ret.required = clone_names(&schema_object.required);
            ret.additional_properties = clone_boxed(&schema_object.additional_properties);
        },
        JsonSchemaType::Array => {
            ret.items = clone_items(&schema_object.items);
        },
        _ => {},
    }
    let r = Schema::Object(ret);
    proof {
        r.lemma_view();
        ret.lemma_view();
        schema_object.lemma_view();
        reveal_with_fuel(crate::schema::boxed_view, 2);
        reveal_with_fuel(crate::schema::items_view, 2);
        assert(ret@.properties =~= projection(schema_object@, ty)->Object_0.properties);
        assert(ret@.required =~= projection(schema_object@, ty)->Object_0.required);
    }
    r
}

/// Splits a schema object with a list of types into an `anyOf` with one
/// branch per type, and says whether it did.
pub fn split_types(schema_object: &mut SchemaObject) -> (split: bool)
    ensures
        split == is_split(old(schema_object)@),
        final(schema_object)@ == split_node(old(schema_object)@),
{
    proof {
        reveal(split_node);
        reveal(is_split);
        schema_object.lemma_view();
    }
    if schema_object.any_of.is_some() {
        return false;
    }
    match schema_object.effective_type() {
        InternalJsonSchemaType::Multiple(types) => {
            let mut branches: Vec<Schema> = Vec::new();
            let mut i: usize = 0;
            while i < types.len()
                invariant
                    i <= types@.len(),
                    branches@.len() == i,
                    forall|k: int|
                        0 <= k < i ==> (#[trigger] branches@[k])@ == projection(schema_object@, types@[k]),
                decreases types@.len() - i,
            {
                let branch = restrictions_for_single_type(schema_object, types[i]);
                branches.push(branch);
                i += 1;
            }
            let ghost before = schema_object@;
            let mut split = SchemaObject::new();
            split.any_of = Some(branches);
            proof {
                split.lemma_view();
                lemma_schema_views(branches@);
                assert(schema_views(branches@) =~= projections(before, types@));
                assert(split@.properties =~= Seq::empty());
                assert(split@.required =~= Seq::empty());
            }
            *schema_object = split;
            true
        },
        _ => false,
    }
}

/// The schema object that demands the value `value`.
pub fn do_normalize(value: &JsonValue) -> (r: SchemaObject)
    ensures
        r@ == const_schema(value@),
    decreases value,
{
    proof {
        value.lemma_scalar_view();
        reveal_with_fuel(const_schema, 2);
    }
    match value {
        JsonValue::Object(members) => {
            let mut properties: NameMap<Schema> = NameMap::new();
            let mut i: usize = 0;
            proof {
                use_type_invariant(members);
                JsonValue::lemma_object_view(*members);
            }
            let ghost model = value@->Object_0;
            while i < members.len()
                invariant
                    *value == JsonValue::Object(*members),
                    model == value@->Object_0,
                    value@ is Object,
                    sorted(members.names()),
                    members.names().len() == members.values().len(),
                    model.len() == members.names().len(),
                    forall|k: int|
                        0 <= k < members.names().len() ==> (#[trigger] model[k]) == (
                            members.names()[k],
                            members.values()[k]@,
                        ),
                    i <= members.names().len(),
                    properties.names() == members.names().subrange(0, i as int),
                    properties.values().len() == i,
                    forall|k: int|
                        0 <= k < i ==> (#[trigger] properties.values()[k])@ == SchemaModel::Object(
                            const_schema(members.values()[k]@),
                        ),
                decreases members.names().len() - i,
            {
                proof {
                    assert(decreases_to!(*value => value->Object_0));
                    assert(decreases_to!(*members => members.entries));
                    assert(decreases_to!(members.entries => members.entries[i as int]));
                    assert(decreases_to!(members.entries[i as int] => members.entries[i as int].value));
                }
                let name = members.name_at(i).clone();
                let inner = do_normalize(members.value_at(i));
                let schema = Schema::Object(inner);
                proof {
                    schema.lemma_view();
                }
                properties.append(name, schema);
                proof {
                    assert(properties.names() =~= members.names().subrange(0, i + 1));
                }
                i += 1;
            }
            let mut r = SchemaObject::new();
            r.properties = properties;
            proof {
                r.lemma_view();
                lemma_const_properties(model, model.len() as int);
                assert(properties.names() =~= members.names());
                assert(r@.properties =~= const_properties(model, model.len() as int));
                assert(r@.required =~= Seq::empty());
            }
            r
        },
        _ => {
            let mut r = SchemaObject::new();
            r.const_value = Some(value.clone());
            proof {
                r.lemma_view();
                assert(r@.properties =~= Seq::empty());
                assert(r@.required =~= Seq::empty());
            }
            r
        },
    }
}

/// Normalizes the constant of a schema object: where `const` is a JSON
/// object, the schema object becomes one that declares a property for
/// each member.
pub fn normalize_const(schema_object: &mut SchemaObject)
    ensures
        final(schema_object)@ == const_normalized(old(schema_object)@),
{
    proof {
        reveal(const_normalized);
        schema_object.lemma_view();
    }
    let normalized = match &schema_object.const_value {
        Some(value) => {
            if value.is_object() {
                Some(do_normalize(value))
            } else {
                None
            }
        },
        None => None,
    };
    match normalized {
        Some(node) => {
            *schema_object = node;
        },
        None => {},
    }
}

} // verus!
