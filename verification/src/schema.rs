//! Schema documents: the keywords that a comparison reads.

use vstd::prelude::*;
use crate::double::Double;
use crate::json::JsonModel;
use crate::json::JsonValue;
use crate::json::clone_members;
use crate::json::lemma_members_view;
use crate::json::members_view;
use crate::json::same_members;
use crate::names::Entry;
use crate::names::NameMap;
use crate::types::JsonSchemaType;

verus! {

/// The value of `type`: one type, or a list of them.
#[derive(Debug, PartialEq)]
pub enum InstanceTypes {
    Single(JsonSchemaType),
    Many(Vec<JsonSchemaType>),
}

/// What an [`InstanceTypes`] stands for.
pub ghost enum TypesModel {
    Single(JsonSchemaType),
    Many(Seq<JsonSchemaType>),
}

impl View for InstanceTypes {
    type V = TypesModel;

    open spec fn view(&self) -> TypesModel {
        match self {
            InstanceTypes::Single(t) => TypesModel::Single(*t),
            InstanceTypes::Many(ts) => TypesModel::Many(ts@),
        }
    }
}

/// The bounds on a number: `minimum`, `maximum`, `exclusiveMinimum` and
/// `exclusiveMaximum`.
#[derive(Clone, Copy, Debug, PartialEq)]
pub struct NumberFacet {
    pub minimum: Option<Double>,
    pub maximum: Option<Double>,
    pub exclusive_minimum: Option<Double>,
    pub exclusive_maximum: Option<Double>,
}

/// What a [`NumberFacet`] stands for: each bound by its ordering key.
pub ghost struct NumberFacetModel {
    pub minimum: Option<int>,
    pub maximum: Option<int>,
    pub exclusive_minimum: Option<int>,
    pub exclusive_maximum: Option<int>,
}

/// The ordering key of a bound, if there is one.
pub open spec fn bound_view(bound: Option<Double>) -> Option<int> {
    match bound {
        Some(d) => Some(d@),
        None => None,
    }
}

/// The characters of a text, if there is one.
pub open spec fn text_view(text: Option<String>) -> Option<Seq<char>> {
    match text {
        Some(s) => Some(s@),
        None => None,
    }
}

impl View for NumberFacet {
    type V = NumberFacetModel;

    open spec fn view(&self) -> NumberFacetModel {
        NumberFacetModel {
            minimum: bound_view(self.minimum),
            maximum: bound_view(self.maximum),
            exclusive_minimum: bound_view(self.exclusive_minimum),
            exclusive_maximum: bound_view(self.exclusive_maximum),
        }
    }
}

impl NumberFacetModel {
    /// No bound at all.
    pub open spec fn empty() -> NumberFacetModel {
        NumberFacetModel { minimum: None, maximum: None, exclusive_minimum: None, exclusive_maximum: None }
    }
}

/// The value of `items`: one schema for every item, or one schema per
/// position.
#[derive(Debug, PartialEq)]
pub enum Items {
    Single(Box<Schema>),
    Tuple(Vec<Schema>),
}

/// What an [`Items`] stands for.
pub ghost enum ItemsModel {
    Single(Box<SchemaModel>),
    Tuple(Seq<SchemaModel>),
}

/// A schema: `true`, `false`, or an object of keywords.
#[derive(Debug, PartialEq)]
pub enum Schema {
    Bool(bool),
    Object(SchemaObject),
}

/// What a [`Schema`] stands for.
pub ghost enum SchemaModel {
    Bool(bool),
    Object(NodeModel),
}

/// A schema object. A keyword that is absent is `None`, or empty where it
/// is a collection.
#[derive(Debug, PartialEq)]
pub struct SchemaObject {
    /// `$id`
    pub id: Option<String>,
    /// `$ref`
    pub reference: Option<String>,
    /// `type`
    pub instance_type: Option<InstanceTypes>,
    /// `const`
    pub const_value: Option<JsonValue>,
    /// The bounds on a number.
    pub number: NumberFacet,
    /// `minLength`
    pub min_length: Option<u32>,
    /// `maxLength`
    pub max_length: Option<u32>,
    /// `pattern`
    pub pattern: Option<String>,
    /// `format`
    pub format: Option<String>,
    /// `properties`
    pub properties: NameMap<Schema>,
    /// `required`
    pub required: NameMap<()>,
    /// `additionalProperties`
    pub additional_properties: Option<Box<Schema>>,
    /// `items`
    pub items: Option<Items>,
    /// `anyOf`
    pub any_of: Option<Vec<Schema>>,
    /// `not`
    pub not: Option<Box<Schema>>,
    /// Every other keyword, with its value as it stands. The comparison
    /// does not read it, but a schema object that has one is not empty.
    pub other: NameMap<JsonValue>,
}

/// What a [`SchemaObject`] stands for. Properties are listed in the order
/// of their names, and so are the required names.
pub ghost struct NodeModel {
    pub id: Option<Seq<char>>,
    pub reference: Option<Seq<char>>,
    pub instance_type: Option<TypesModel>,
    pub const_value: Option<JsonModel>,
    pub number: NumberFacetModel,
    pub min_length: Option<u32>,
    pub max_length: Option<u32>,
    pub pattern: Option<Seq<char>>,
    pub format: Option<Seq<char>>,
    pub properties: Seq<(Seq<char>, SchemaModel)>,
    pub required: Seq<Seq<char>>,
    pub additional_properties: Option<Box<SchemaModel>>,
    pub items: Option<ItemsModel>,
    pub any_of: Option<Seq<SchemaModel>>,
    pub not: Option<Box<SchemaModel>>,
    pub other: Seq<(Seq<char>, JsonModel)>,
}

impl NodeModel {
    /// The schema object without any keyword.
    pub open spec fn empty() -> NodeModel {
        NodeModel {
            id: None,
            reference: None,
            instance_type: None,
            const_value: None,
            number: NumberFacetModel::empty(),
            min_length: None,
            max_length: None,
            pattern: None,
            format: None,
            properties: Seq::empty(),
            required: Seq::empty(),
            additional_properties: None,
            items: None,
            any_of: None,
            not: None,
            other: Seq::empty(),
        }
    }

    /// The names of the properties.
    pub open spec fn property_names(self) -> Seq<Seq<char>> {
        Seq::new(self.properties.len(), |i: int| self.properties[i].0)
    }
}

impl SchemaModel {
    /// The schema as an object: `true` is the object without keywords,
    /// `false` the object that holds only `not: {}`.
    pub open spec fn into_object(self) -> NodeModel {
        match self {
            SchemaModel::Bool(true) => NodeModel::empty(),
            SchemaModel::Bool(false) => NodeModel {
                not: Some(Box::new(SchemaModel::Object(NodeModel::empty()))),
                ..NodeModel::empty()
            },
            SchemaModel::Object(node) => node,
        }
    }
}

/// What each of the schemas stands for.
pub open(crate) spec fn schema_views(items: Seq<Schema>) -> Seq<SchemaModel>
    decreases items,
{
    if items.len() == 0 {
        Seq::empty()
    } else {
        schema_views(items.drop_last()).push(items.last().model())
    }
}

/// What each of the properties stands for, under its name.
pub open(crate) spec fn property_views(entries: Seq<Entry<Schema>>) -> Seq<(Seq<char>, SchemaModel)>
    decreases entries,
{
    if entries.len() == 0 {
        Seq::empty()
    } else {
        property_views(entries.drop_last()).push((entries.last().name@, entries.last().value.model()))
    }
}

/// What the properties in a map stand for, in the order of their names.
pub open(crate) spec fn properties_view(map: NameMap<Schema>) -> Seq<(Seq<char>, SchemaModel)> {
    property_views(map.entries@)
}

/// What the schema in the box stands for, if there is one.
pub open(crate) spec fn boxed_view(schema: Option<Box<Schema>>) -> Option<Box<SchemaModel>>
    decreases schema,
{
    match schema {
        Some(b) => Some(Box::new(b.model())),
        None => None,
    }
}

/// What the value of `items` stands for, if there is one.
pub open(crate) spec fn items_view(items: Option<Items>) -> Option<ItemsModel>
    decreases items,
{
    match items {
        Some(Items::Single(b)) => Some(ItemsModel::Single(Box::new(b.model()))),
        Some(Items::Tuple(v)) => Some(ItemsModel::Tuple(schema_views(v@))),
        None => None,
    }
}

/// What the branches of `anyOf` stand for, if there are any.
pub open(crate) spec fn branches_view(branches: Option<Vec<Schema>>) -> Option<Seq<SchemaModel>>
    decreases branches,
{
    match branches {
        Some(v) => Some(schema_views(v@)),
        None => None,
    }
}

/// What the constant stands for, if there is one.
pub open spec fn const_view(value: Option<JsonValue>) -> Option<JsonModel> {
    match value {
        Some(v) => Some(v@),
        None => None,
    }
}

/// What the value of `type` stands for, if there is one.
pub open spec fn types_view(types: Option<InstanceTypes>) -> Option<TypesModel> {
    match types {
        Some(t) => Some(t@),
        None => None,
    }
}

impl Schema {
    /// What the schema stands for.
    pub open(crate) spec fn model(&self) -> SchemaModel
        decreases self,
    {
        match self {
            Schema::Bool(b) => SchemaModel::Bool(*b),
            Schema::Object(o) => SchemaModel::Object(o.model()),
        }
    }
}

impl View for Schema {
    type V = SchemaModel;

    open spec fn view(&self) -> SchemaModel {
        self.model()
    }
}

impl SchemaObject {
    /// What the schema object stands for.
    pub open(crate) spec fn model(&self) -> NodeModel
        decreases self,
    {
        NodeModel {
            id: text_view(self.id),
            reference: text_view(self.reference),
            instance_type: types_view(self.instance_type),
            const_value: const_view(self.const_value),
            number: self.number@,
            min_length: self.min_length,
            max_length: self.max_length,
            pattern: text_view(self.pattern),
            format: text_view(self.format),
            properties: property_views(self.properties.entries@),
            required: self.required.names(),
            additional_properties: boxed_view(self.additional_properties),
            items: items_view(self.items),
            any_of: branches_view(self.any_of),
            not: boxed_view(self.not),
            other: members_view(self.other),
        }
    }
}

impl View for SchemaObject {
    type V = NodeModel;

    open spec fn view(&self) -> NodeModel {
        self.model()
    }
}

/// `schema_views` goes schema by schema.
pub proof fn lemma_schema_views(items: Seq<Schema>)
    ensures
        schema_views(items).len() == items.len(),
        forall|i: int| 0 <= i < items.len() ==> (#[trigger] schema_views(items)[i]) == items[i]@,
    decreases items.len(),
{
    reveal_with_fuel(schema_views, 2);
    if items.len() > 0 {
        lemma_schema_views(items.drop_last());
    }
}

/// The properties in a map stand for the map's entries, name by name.
pub proof fn lemma_properties_view(map: NameMap<Schema>)
    ensures
        properties_view(map).len() == map.names().len(),
        forall|i: int|
            0 <= i < map.names().len() ==> (#[trigger] properties_view(map)[i]) == (
                map.names()[i],
                map.values()[i]@,
            ),
{
    lemma_property_views(map.entries@);
}

/// `property_views` goes property by property.
pub proof fn lemma_property_views(entries: Seq<Entry<Schema>>)
    ensures
        property_views(entries).len() == entries.len(),
        forall|i: int|
            0 <= i < entries.len() ==> (#[trigger] property_views(entries)[i]) == (entries[i].name@, entries[i].value@),
    decreases entries.len(),
{
    reveal_with_fuel(property_views, 2);
    if entries.len() > 0 {
        lemma_property_views(entries.drop_last());
    }
}

impl Schema {
    /// A schema is `true`, `false`, or what its object stands for.
    pub proof fn lemma_view(self)
        ensures
            self matches Schema::Bool(b) ==> self@ == SchemaModel::Bool(b),
            self matches Schema::Object(o) ==> self@ == SchemaModel::Object(o@),
    {
        reveal_with_fuel(Schema::model, 2);
    }
}

impl SchemaObject {
    /// The keywords of the object one by one.
    pub proof fn lemma_view(self)
        ensures
            self@.id == text_view(self.id),
            self@.reference == text_view(self.reference),
            self@.instance_type == types_view(self.instance_type),
            self@.const_value == const_view(self.const_value),
            self@.number == self.number@,
            self@.min_length == self.min_length,
            self@.max_length == self.max_length,
            self@.pattern == text_view(self.pattern),
            self@.format == text_view(self.format),
            self@.properties == properties_view(self.properties),
            self@.properties.len() == self.properties.names().len(),
            self@.property_names() == self.properties.names(),
            forall|i: int|
                0 <= i < self.properties.names().len() ==> (#[trigger] self@.properties[i]) == (
                    self.properties.names()[i],
                    self.properties.values()[i]@,
                ),
            self@.required == self.required.names(),
            self@.additional_properties == (match self.additional_properties {
                Some(b) => Some(Box::new((*b)@)),
                None => None,
            }),
            self@.items == (match self.items {
                Some(Items::Single(b)) => Some(ItemsModel::Single(Box::new((*b)@))),
                Some(Items::Tuple(v)) => Some(ItemsModel::Tuple(schema_views(v@))),
                None => None,
            }),
            self@.any_of == (match self.any_of {
                Some(v) => Some(schema_views(v@)),
                None => None,
            }),
            self@.not == (match self.not {
                Some(b) => Some(Box::new((*b)@)),
                None => None,
            }),
            self@.other == members_view(self.other),
            self@.other.len() == self.other.names().len(),
    {
        lemma_members_view(self.other);
        reveal_with_fuel(SchemaObject::model, 2);
        reveal_with_fuel(boxed_view, 2);
        reveal_with_fuel(items_view, 2);
        reveal_with_fuel(branches_view, 2);
        lemma_property_views(self.properties.entries@);
        assert(self@.property_names() =~= self.properties.names());
    }

    /// The schema object without any keyword.
    pub fn new() -> (r: SchemaObject)
        ensures
            r@ == NodeModel::empty(),
    {
        let r = SchemaObject {
            id: None,
            reference: None,
            instance_type: None,
            const_value: None,
            number: NumberFacet { minimum: None, maximum: None, exclusive_minimum: None, exclusive_maximum: None },
            min_length: None,
            max_length: None,
            pattern: None,
            format: None,
            properties: NameMap::new(),
            required: NameMap::new(),
            additional_properties: None,
            items: None,
            any_of: None,
            not: None,
            other: NameMap::new(),
        };
        proof {
            r.lemma_view();
            assert(r@.properties =~= Seq::empty());
            assert(r@.other =~= Seq::empty());
        }
        r
    }

    /// Whether the object holds no keyword: such a schema accepts
    /// everything.
    pub fn is_true(&self) -> (r: bool)
        ensures
            r == (self@ == NodeModel::empty()),
    {
        proof {
            self.lemma_view();
        }
        let r = self.id.is_none() && self.reference.is_none() && self.instance_type.is_none()
            && self.const_value.is_none() && self.number.minimum.is_none() && self.number.maximum.is_none()
            && self.number.exclusive_minimum.is_none() && self.number.exclusive_maximum.is_none()
            && self.min_length.is_none() && self.max_length.is_none() && self.pattern.is_none()
            && self.format.is_none() && self.properties.len() == 0 && self.required.len() == 0
            && self.additional_properties.is_none() && self.items.is_none() && self.any_of.is_none()
            && self.not.is_none() && self.other.len() == 0;
        proof {
            if r {
                assert(self@.properties =~= Seq::empty());
                assert(self@.required =~= Seq::empty());
                assert(self@.other =~= Seq::empty());
            }
        }
        r
    }
}

impl Schema {
    /// The schema as an object: `true` becomes the object without
    /// keywords, `false` the object that holds only `not: {}`.
    pub fn into_object(self) -> (r: SchemaObject)
        ensures
            r@ == self@.into_object(),
    {
        proof {
            self.lemma_view();
        }
        match self {
            Schema::Bool(true) => SchemaObject::new(),
            Schema::Bool(false) => {
                let inner = Schema::Object(SchemaObject::new());
                let mut r = SchemaObject::new();
                proof {
                    inner.lemma_view();
                }
                r.not = Some(Box::new(inner));
                proof {
                    r.lemma_view();
                    assert(r@.properties =~= Seq::empty());
                    assert(r@.required =~= Seq::empty());
                    assert(r@.other =~= Seq::empty());
                }
                r
            },
            Schema::Object(o) => o,
        }
    }
}

/// A copy of a text, if there is one.
pub(crate) fn clone_text(text: &Option<String>) -> (r: Option<String>)
    ensures
        text_view(r) == text_view(*text),
{
    match text {
        Some(s) => Some(s.clone()),
        None => None,
    }
}

/// A copy of a constant, if there is one.
pub(crate) fn clone_const(value: &Option<JsonValue>) -> (r: Option<JsonValue>)
    ensures
        const_view(r) == const_view(*value),
{
    match value {
        Some(v) => Some(v.clone()),
        None => None,
    }
}

/// A copy of a list of types.
pub(crate) fn clone_type_list(types: &Vec<JsonSchemaType>) -> (r: Vec<JsonSchemaType>)
    ensures
        r@ == types@,
{
    let mut out: Vec<JsonSchemaType> = Vec::new();
    let mut i: usize = 0;
    while i < types.len()
        invariant
            i <= types@.len(),
            out@ == types@.subrange(0, i as int),
        decreases types@.len() - i,
    {
        out.push(types[i]);
        proof {
            assert(out@ =~= types@.subrange(0, i + 1));
        }
        i += 1;
    }
    proof {
        assert(out@ =~= types@);
    }
    out
}

/// A copy of a value of `type`, if there is one.
pub(crate) fn clone_types(types: &Option<InstanceTypes>) -> (r: Option<InstanceTypes>)
    ensures
        types_view(r) == types_view(*types),
{
    match types {
        Some(InstanceTypes::Single(t)) => Some(InstanceTypes::Single(*t)),
        Some(InstanceTypes::Many(ts)) => Some(InstanceTypes::Many(clone_type_list(ts))),
        None => None,
    }
}

/// A copy of a set of names.
pub(crate) fn clone_names(names: &NameMap<()>) -> (r: NameMap<()>)
    ensures
        r.names() == names.names(),
{
    let mut out: NameMap<()> = NameMap::new();
    let mut i: usize = 0;
    proof {
        use_type_invariant(names);
    }
    while i < names.len()
        invariant
            crate::names::sorted(names.names()),
            i <= names.names().len(),
            out.names() == names.names().subrange(0, i as int),
        decreases names.names().len() - i,
    {
        let name = names.name_at(i).clone();
        out.append(name, ());
        proof {
            assert(out.names() =~= names.names().subrange(0, i + 1));
        }
        i += 1;
    }
    proof {
        assert(out.names() =~= names.names());
    }
    out
}

/// A copy of a list of schemas.
pub(crate) fn clone_schemas(schemas: &Vec<Schema>) -> (r: Vec<Schema>)
    ensures
        schema_views(r@) == schema_views(schemas@),
        r@.len() == schemas@.len(),
    decreases schemas,
{
    let mut out: Vec<Schema> = Vec::new();
    let mut i: usize = 0;
    while i < schemas.len()
        invariant
            i <= schemas@.len(),
            out@.len() == i,
            forall|k: int| 0 <= k < i ==> out@[k]@ == schemas@[k]@,
        decreases schemas@.len() - i,
    {
        proof {
            assert(decreases_to!(*schemas => schemas[i as int]));
        }
        let c = schemas[i].clone();
        out.push(c);
        i += 1;
    }
    proof {
        lemma_schema_views(out@);
        lemma_schema_views(schemas@);
        assert(schema_views(out@) =~= schema_views(schemas@));
    }
    out
}

/// A copy of the properties.
pub(crate) fn clone_properties(properties: &NameMap<Schema>) -> (r: NameMap<Schema>)
    ensures
        r.names() == properties.names(),
        r.values().len() == properties.values().len(),
        forall|k: int| 0 <= k < r.values().len() ==> r.values()[k]@ == properties.values()[k]@,
    decreases properties,
{
    let mut out: NameMap<Schema> = NameMap::new();
    let mut i: usize = 0;
    proof {
        use_type_invariant(properties);
    }
    while i < properties.len()
        invariant
            crate::names::sorted(properties.names()),
            properties.names().len() == properties.values().len(),
            i <= properties.names().len(),
            out.names() == properties.names().subrange(0, i as int),
            out.values().len() == i,
            forall|k: int| 0 <= k < i ==> out.values()[k]@ == properties.values()[k]@,
        decreases properties.names().len() - i,
    {
        proof {
            assert(decreases_to!(*properties => properties.entries));
            assert(decreases_to!(properties.entries => properties.entries[i as int]));
            assert(decreases_to!(properties.entries[i as int] => properties.entries[i as int].value));
        }
        let name = properties.name_at(i).clone();
        let value = properties.value_at(i).clone();
        out.append(name, value);
        proof {
            assert(out.names() =~= properties.names().subrange(0, i + 1));
        }
        i += 1;
    }
    proof {
        assert(out.names() =~= properties.names());
    }
    out
}

/// A copy of a schema in a box, if there is one.
pub(crate) fn clone_boxed(schema: &Option<Box<Schema>>) -> (r: Option<Box<Schema>>)
    ensures
        boxed_view(r) == boxed_view(*schema),
    decreases schema,
{
    proof {
        reveal_with_fuel(boxed_view, 2);
    }
    match schema {
        Some(b) => {
            let c: Schema = (**b).clone();
            Some(Box::new(c))
        },
        None => None,
    }
}

/// A copy of a value of `items`, if there is one.
pub(crate) fn clone_items(items: &Option<Items>) -> (r: Option<Items>)
    ensures
        items_view(r) == items_view(*items),
    decreases items,
{
    proof {
        reveal_with_fuel(items_view, 2);
    }
    match items {
        Some(Items::Single(b)) => {
            let c: Schema = (**b).clone();
            Some(Items::Single(Box::new(c)))
        },
        Some(Items::Tuple(v)) => Some(Items::Tuple(clone_schemas(v))),
        None => None,
    }
}

/// A copy of the branches of `anyOf`, if there are any.
pub(crate) fn clone_branches(branches: &Option<Vec<Schema>>) -> (r: Option<Vec<Schema>>)
    ensures
        branches_view(r) == branches_view(*branches),
    decreases branches,
{
    proof {
        reveal_with_fuel(branches_view, 2);
    }
    match branches {
        Some(v) => Some(clone_schemas(v)),
        None => None,
    }
}

impl Clone for Schema {
    fn clone(&self) -> (r: Self)
        ensures
            r@ == self@,
        decreases self,
    {
        proof {
            self.lemma_view();
        }
        let r = match self {
            Schema::Bool(b) => Schema::Bool(*b),
            Schema::Object(o) => Schema::Object(o.clone()),
        };
        proof {
            r.lemma_view();
        }
        r
    }
}

impl Clone for SchemaObject {
    fn clone(&self) -> (r: Self)
        ensures
            r@ == self@,
        decreases self,
    {
        let r = SchemaObject {
            id: clone_text(&self.id),
            reference: clone_text(&self.reference),
            instance_type: clone_types(&self.instance_type),
            const_value: clone_const(&self.const_value),
            number: self.number,
            min_length: self.min_length,
            max_length: self.max_length,
            pattern: clone_text(&self.pattern),
            format: clone_text(&self.format),
            properties: clone_properties(&self.properties),
            required: clone_names(&self.required),
            additional_properties: clone_boxed(&self.additional_properties),
            items: clone_items(&self.items),
            any_of: clone_branches(&self.any_of),
            not: clone_boxed(&self.not),
            other: clone_members(&self.other),
        };
        proof {
            reveal_with_fuel(SchemaObject::model, 2);
            lemma_property_views(r.properties.entries@);
            lemma_property_views(self.properties.entries@);
            assert(r.properties.names().len() == r.properties.entries@.len());
            assert forall|i: int| 0 <= i < r@.properties.len() implies r@.properties[i] == self@.properties[i] by {
                assert(r.properties.names()[i] == self.properties.names()[i]);
                assert(r.properties.values()[i]@ == self.properties.values()[i]@);
            }
            assert(r@.properties =~= self@.properties);
        }
        r
    }
}

/// Whether two optional texts are the same.
pub(crate) fn same_text(a: &Option<String>, b: &Option<String>) -> (r: bool)
    ensures
        r == (text_view(*a) == text_view(*b)),
{
    match (a, b) {
        (Some(x), Some(y)) => *x == *y,
        (None, None) => true,
        _ => false,
    }
}

/// Whether two optional bounds are the same number.
pub(crate) fn same_bound(a: &Option<Double>, b: &Option<Double>) -> (r: bool)
    ensures
        r == (bound_view(*a) == bound_view(*b)),
{
    match (a, b) {
        (Some(x), Some(y)) => x.equals(y),
        (None, None) => true,
        _ => false,
    }
}

/// Whether two optional lengths are the same.
pub(crate) fn same_length(a: &Option<u32>, b: &Option<u32>) -> (r: bool)
    ensures
        r == (*a == *b),
{
    match (a, b) {
        (Some(x), Some(y)) => *x == *y,
        (None, None) => true,
        _ => false,
    }
}

/// Whether two optional constants are the same value.
pub(crate) fn same_const(a: &Option<JsonValue>, b: &Option<JsonValue>) -> (r: bool)
    ensures
        r == (const_view(*a) == const_view(*b)),
{
    match (a, b) {
        (Some(x), Some(y)) => x.equals(y),
        (None, None) => true,
        _ => false,
    }
}

/// Whether two lists of types are the same.
pub(crate) fn same_type_list(a: &Vec<JsonSchemaType>, b: &Vec<JsonSchemaType>) -> (r: bool)
    ensures
        r == (a@ == b@),
{
    if a.len() != b.len() {
        return false;
    }
    let mut i: usize = 0;
    while i < a.len()
        invariant
            i <= a@.len(),
            a@.len() == b@.len(),
            forall|k: int| 0 <= k < i ==> a@[k] == b@[k],
        decreases a@.len() - i,
    {
        if a[i] != b[i] {
            return false;
        }
        i += 1;
    }
    proof {
        assert(a@ =~= b@);
    }
    true
}

/// Whether two values of `type` are the same.
pub(crate) fn same_types(a: &Option<InstanceTypes>, b: &Option<InstanceTypes>) -> (r: bool)
    ensures
        r == (types_view(*a) == types_view(*b)),
{
    match (a, b) {
        (Some(InstanceTypes::Single(x)), Some(InstanceTypes::Single(y))) => *x == *y,
        (Some(InstanceTypes::Many(x)), Some(InstanceTypes::Many(y))) => same_type_list(x, y),
        (None, None) => true,
        _ => false,
    }
}

impl NumberFacet {
    /// No bound at all.
    pub fn new() -> (r: NumberFacet)
        ensures
            r@ == NumberFacetModel::empty(),
    {
        NumberFacet { minimum: None, maximum: None, exclusive_minimum: None, exclusive_maximum: None }
    }

    /// Whether there is no bound at all.
    pub fn is_empty(&self) -> (r: bool)
        ensures
            r == (self@ == NumberFacetModel::empty()),
    {
        self.minimum.is_none() && self.maximum.is_none() && self.exclusive_minimum.is_none()
            && self.exclusive_maximum.is_none()
    }

    /// Whether two sets of bounds are the same.
    pub fn equals(&self, other: &NumberFacet) -> (r: bool)
        ensures
            r == (self@ == other@),
    {
        same_bound(&self.minimum, &other.minimum) && same_bound(&self.maximum, &other.maximum) && same_bound(
            &self.exclusive_minimum,
            &other.exclusive_minimum,
        ) && same_bound(&self.exclusive_maximum, &other.exclusive_maximum)
    }
}

/// Whether two sets of names are the same.
pub(crate) fn same_names(a: &NameMap<()>, b: &NameMap<()>) -> (r: bool)
    ensures
        r == (a.names() == b.names()),
{
    if a.len() != b.len() {
        return false;
    }
    let mut i: usize = 0;
    while i < a.len()
        invariant
            i <= a.names().len(),
            a.names().len() == b.names().len(),
            forall|k: int| 0 <= k < i ==> a.names()[k] == b.names()[k],
        decreases a.names().len() - i,
    {
        if *a.name_at(i) != *b.name_at(i) {
            return false;
        }
        i += 1;
    }
    proof {
        assert(a.names() =~= b.names());
    }
    true
}

/// Whether two lists of schemas are the same.
pub(crate) fn same_schemas(a: &Vec<Schema>, b: &Vec<Schema>) -> (r: bool)
    ensures
        r == (schema_views(a@) == schema_views(b@)),
    decreases a,
{
    proof {
        lemma_schema_views(a@);
        lemma_schema_views(b@);
    }
    if a.len() != b.len() {
        return false;
    }
    let mut i: usize = 0;
    while i < a.len()
        invariant
            i <= a@.len(),
            a@.len() == b@.len(),
            forall|k: int| 0 <= k < i ==> a@[k]@ == b@[k]@,
        decreases a@.len() - i,
    {
        proof {
            assert(decreases_to!(*a => a[i as int]));
        }
        if !a[i].equals(&b[i]) {
            proof {
                lemma_schema_views(a@);
                lemma_schema_views(b@);
                assert(schema_views(a@)[i as int] != schema_views(b@)[i as int]);
            }
            return false;
        }
        i += 1;
    }
    proof {
        lemma_schema_views(a@);
        lemma_schema_views(b@);
        assert(schema_views(a@) =~= schema_views(b@));
    }
    true
}

/// Whether two sets of properties are the same.
pub(crate) fn same_properties(a: &NameMap<Schema>, b: &NameMap<Schema>) -> (r: bool)
    ensures
        r == (properties_view(*a) == properties_view(*b)),
    decreases a,
{
    proof {
        lemma_property_views(a.entries@);
        lemma_property_views(b.entries@);
    }
    if a.len() != b.len() {
        return false;
    }
    let mut i: usize = 0;
    while i < a.len()
        invariant
            i <= a.names().len(),
            a.names().len() == b.names().len(),
            a.names().len() == a.values().len(),
            b.names().len() == b.values().len(),
            forall|k: int| 0 <= k < i ==> a.names()[k] == b.names()[k],
            forall|k: int| 0 <= k < i ==> a.values()[k]@ == b.values()[k]@,
        decreases a.names().len() - i,
    {
        proof {
            assert(decreases_to!(*a => a.entries));
            assert(decreases_to!(a.entries => a.entries[i as int]));
            assert(decreases_to!(a.entries[i as int] => a.entries[i as int].value));
        }
        if *a.name_at(i) != *b.name_at(i) {
            proof {
                lemma_property_views(a.entries@);
                lemma_property_views(b.entries@);
                assert(property_views(a.entries@)[i as int] != property_views(b.entries@)[i as int]);
            }
            return false;
        }
        if !a.value_at(i).equals(b.value_at(i)) {
            proof {
                lemma_property_views(a.entries@);
                lemma_property_views(b.entries@);
                assert(property_views(a.entries@)[i as int] != property_views(b.entries@)[i as int]);
            }
            return false;
        }
        i += 1;
    }
    proof {
        lemma_property_views(a.entries@);
        lemma_property_views(b.entries@);
        assert forall|k: int| 0 <= k < a.names().len() implies property_views(a.entries@)[k] == property_views(
            b.entries@,
        )[k] by {
            assert(a.names()[k] == b.names()[k]);
            assert(a.values()[k]@ == b.values()[k]@);
        }
        assert(property_views(a.entries@) =~= property_views(b.entries@));
    }
    true
}

/// Whether two optional schemas in boxes are the same.
pub(crate) fn same_boxed(a: &Option<Box<Schema>>, b: &Option<Box<Schema>>) -> (r: bool)
    ensures
        r == (boxed_view(*a) == boxed_view(*b)),
    decreases a,
{
    proof {
        reveal_with_fuel(boxed_view, 2);
    }
    match (a, b) {
        (Some(x), Some(y)) => {
            let r = (**x).equals(&**y);
            r
        },
        (None, None) => true,
        _ => false,
    }
}

/// Whether two values of `items` are the same.
pub(crate) fn same_items(a: &Option<Items>, b: &Option<Items>) -> (r: bool)
    ensures
        r == (items_view(*a) == items_view(*b)),
    decreases a,
{
    proof {
        reveal_with_fuel(items_view, 2);
    }
    match (a, b) {
        (Some(Items::Single(x)), Some(Items::Single(y))) => {
            let r = (**x).equals(&**y);
            r
        },
        (Some(Items::Tuple(x)), Some(Items::Tuple(y))) => same_schemas(x, y),
        (None, None) => true,
        _ => false,
    }
}

/// Whether two optional lists of branches are the same.
pub(crate) fn same_branches(a: &Option<Vec<Schema>>, b: &Option<Vec<Schema>>) -> (r: bool)
    ensures
        r == (branches_view(*a) == branches_view(*b)),
    decreases a,
{
    proof {
        reveal_with_fuel(branches_view, 2);
    }
    match (a, b) {
        (Some(x), Some(y)) => same_schemas(x, y),
        (None, None) => true,
        _ => false,
    }
}

impl Schema {
    /// Whether two schemas are the same, keyword by keyword.
    pub fn equals(&self, other: &Schema) -> (r: bool)
        ensures
            r == (self@ == other@),
        decreases self,
    {
        proof {
            self.lemma_view();
            other.lemma_view();
        }
        match (self, other) {
            (Schema::Bool(a), Schema::Bool(b)) => *a == *b,
            (Schema::Object(a), Schema::Object(b)) => a.equals(b),
            _ => false,
        }
    }
}

impl SchemaObject {
    /// Whether two schema objects are the same, keyword by keyword.
    pub fn equals(&self, other: &SchemaObject) -> (r: bool)
        ensures
            r == (self@ == other@),
        decreases self,
    {
        proof {
            reveal_with_fuel(SchemaObject::model, 2);
        }
        same_text(&self.id, &other.id) && same_text(&self.reference, &other.reference) && same_types(
            &self.instance_type,
            &other.instance_type,
        ) && same_const(&self.const_value, &other.const_value) && self.number.equals(&other.number)
            && same_length(&self.min_length, &other.min_length) && same_length(
            &self.max_length,
            &other.max_length,
        ) && same_text(&self.pattern, &other.pattern) && same_text(&self.format, &other.format)
            && same_properties(&self.properties, &other.properties) && same_names(
            &self.required,
            &other.required,
        ) && same_boxed(&self.additional_properties, &other.additional_properties) && same_items(
            &self.items,
            &other.items,
        ) && same_branches(&self.any_of, &other.any_of) && same_boxed(&self.not, &other.not) && same_members(
            &self.other,
            &other.other,
        )
    }
}

/// A schema document: the schema at its root and the definitions that
/// the schemas in it refer to.
#[derive(Debug, PartialEq)]
pub struct RootSchema {
    /// The schema at the root.
    pub schema: SchemaObject,
    /// `definitions`, or `$defs`.
    pub definitions: NameMap<Schema>,
}

/// What a [`RootSchema`] stands for. The definitions are listed in the
/// order of their names.
pub ghost struct RootModel {
    pub schema: NodeModel,
    pub definitions: Seq<(Seq<char>, SchemaModel)>,
}

impl View for RootSchema {
    type V = RootModel;

    open(crate) spec fn view(&self) -> RootModel {
        RootModel { schema: self.schema@, definitions: properties_view(self.definitions) }
    }
}

/// The schema that the entries hold under `name`, if any.
pub open spec fn find_named(entries: Seq<(Seq<char>, SchemaModel)>, name: Seq<char>) -> Option<SchemaModel> {
    if exists|i: int| 0 <= i < entries.len() && entries[i].0 == name {
        let i = choose|i: int| 0 <= i < entries.len() && entries[i].0 == name;
        Some(entries[i].1)
    } else {
        None
    }
}

/// What a schema stands for, if there is one.
pub open spec fn schema_option_view(schema: Option<Schema>) -> Option<SchemaModel> {
    match schema {
        Some(s) => Some(s@),
        None => None,
    }
}

/// Looking a name up among what a map's entries stand for gives what the
/// map's own entry under that name stands for.
pub proof fn lemma_find_named(map: NameMap<Schema>, name: Seq<char>)
    requires
        crate::names::sorted(map.names()),
    ensures
        find_named(properties_view(map), name) == schema_option_view(map.spec_get(name)),
{
    let entries = properties_view(map);
    lemma_properties_view(map);
    crate::names::lemma_sorted_distinct(map.names());
    let names = map.names();
    let values = map.values();
    assert(names.len() == values.len());
    if exists|i: int| 0 <= i < entries.len() && entries[i].0 == name {
        let i = choose|i: int| 0 <= i < entries.len() && entries[i].0 == name;
        assert(entries[i] == (names[i], values[i]@));
        assert(names[i] == name);
        crate::names::lemma_index_of(names, name, i);
        assert(map.spec_get(name) == Some(values[i]));
        assert(find_named(entries, name) == Some(entries[i].1));
    } else {
        if names.contains(name) {
            let j = names.index_of(name);
            assert(0 <= j < names.len() && names[j] == name);
            assert(entries[j] == (names[j], values[j]@));
            assert(0 <= j < entries.len() && entries[j].0 == name);
        }
        assert(map.spec_get(name) is None);
    }
}

impl RootSchema {
    /// The parts of the document one by one.
    pub proof fn lemma_view(self)
        ensures
            self@.schema == self.schema@,
            self@.definitions.len() == self.definitions.names().len(),
            forall|i: int|
                0 <= i < self.definitions.names().len() ==> (#[trigger] self@.definitions[i]) == (
                    self.definitions.names()[i],
                    self.definitions.values()[i]@,
                ),
    {
        lemma_property_views(self.definitions.entries@);
    }
}

impl Clone for RootSchema {
    fn clone(&self) -> (r: Self)
        ensures
            r@ == self@,
    {
        let r = RootSchema { schema: self.schema.clone(), definitions: clone_properties(&self.definitions) };
        proof {
            r.lemma_view();
            self.lemma_view();
            assert forall|i: int| 0 <= i < r@.definitions.len() implies r@.definitions[i] == self@.definitions[i] by {
                assert(r.definitions.names()[i] == self.definitions.names()[i]);
                assert(r.definitions.values()[i]@ == self.definitions.values()[i]@);
            }
            assert(r@.definitions =~= self@.definitions);
        }
        r
    }
}

} // verus!
