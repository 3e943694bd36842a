//! The types a schema admits.
//!
//! A schema's effective type is read off its keywords; its set of admitted
//! types treats `integer` as part of `number`.

use vstd::prelude::*;
use crate::json::JsonModel;
use crate::json::JsonValue;
use crate::schema::InstanceTypes;
use crate::schema::NodeModel;
use crate::schema::Schema;
use crate::schema::SchemaModel;
use crate::schema::SchemaObject;
use crate::schema::TypesModel;
use crate::schema::lemma_schema_views;
use crate::schema::schema_views;
use crate::types::JsonSchemaType;

verus! {

/// The seven types in their fixed order.
pub open spec fn all_types() -> Seq<JsonSchemaType> {
    seq![
        JsonSchemaType::String,
        JsonSchemaType::Number,
        JsonSchemaType::Integer,
        JsonSchemaType::Object,
        JsonSchemaType::Array,
        JsonSchemaType::Boolean,
        JsonSchemaType::Null,
    ]
}

/// The type at position `i` of the fixed order.
pub fn type_at(i: usize) -> (t: JsonSchemaType)
    requires
        i < 7,
    ensures
        t == all_types()[i as int],
{
    if i == 0 {
        JsonSchemaType::String
    } else if i == 1 {
        JsonSchemaType::Number
    } else if i == 2 {
        JsonSchemaType::Integer
    } else if i == 3 {
        JsonSchemaType::Object
    } else if i == 4 {
        JsonSchemaType::Array
    } else if i == 5 {
        JsonSchemaType::Boolean
    } else {
        JsonSchemaType::Null
    }
}

/// The position of a type in the fixed order.
pub open spec fn type_index(t: JsonSchemaType) -> int {
    match t {
        JsonSchemaType::String => 0,
        JsonSchemaType::Number => 1,
        JsonSchemaType::Integer => 2,
        JsonSchemaType::Object => 3,
        JsonSchemaType::Array => 4,
        JsonSchemaType::Boolean => 5,
        JsonSchemaType::Null => 6,
    }
}

/// Every type stands at its position in the fixed order.
pub proof fn lemma_all_types(t: JsonSchemaType)
    ensures
        all_types().len() == 7,
        0 <= type_index(t) < 7,
        all_types()[type_index(t)] == t,
{
}

/// The type of a JSON value. Every number counts as `number`.
pub open spec fn value_type(value: JsonModel) -> JsonSchemaType {
    match value {
        JsonModel::Number(_) => JsonSchemaType::Number,
        JsonModel::Null => JsonSchemaType::Null,
        JsonModel::String(_) => JsonSchemaType::String,
        JsonModel::Bool(_) => JsonSchemaType::Boolean,
        JsonModel::Array(_) => JsonSchemaType::Array,
        JsonModel::Object(_) => JsonSchemaType::Object,
    }
}

/// The type of a JSON value.
pub fn type_of_value(value: &JsonValue) -> (t: JsonSchemaType)
    ensures
        t == value_type(value@),
{
    proof {
        value.lemma_scalar_view();
    }
    match value {
        JsonValue::Number(_) => JsonSchemaType::Number,
        JsonValue::Null => JsonSchemaType::Null,
        JsonValue::String(_) => JsonSchemaType::String,
        JsonValue::Bool(_) => JsonSchemaType::Boolean,
        JsonValue::Array(_) => JsonSchemaType::Array,
        JsonValue::Object(_) => JsonSchemaType::Object,
    }
}

/// A set of types.
#[derive(Clone, Copy, Debug, PartialEq, Eq)]
pub struct TypeSet {
    pub string: bool,
    pub number: bool,
    pub integer: bool,
    pub object: bool,
    pub array: bool,
    pub boolean: bool,
    pub null: bool,
}

impl TypeSet {
    /// Whether `t` is in the set.
    pub open spec fn has(self, t: JsonSchemaType) -> bool {
        match t {
            JsonSchemaType::String => self.string,
            JsonSchemaType::Number => self.number,
            JsonSchemaType::Integer => self.integer,
            JsonSchemaType::Object => self.object,
            JsonSchemaType::Array => self.array,
            JsonSchemaType::Boolean => self.boolean,
            JsonSchemaType::Null => self.null,
        }
    }

    /// The empty set.
    pub fn new() -> (s: TypeSet)
        ensures
            s@ == Set::<JsonSchemaType>::empty(),
    {
        let s = TypeSet {
            string: false,
            number: false,
            integer: false,
            object: false,
            array: false,
            boolean: false,
            null: false,
        };
        assert(s@ =~= Set::<JsonSchemaType>::empty());
        s
    }

    /// Whether `t` is in the set.
    pub fn contains(&self, t: JsonSchemaType) -> (r: bool)
        ensures
            r == self@.contains(t),
    {
        match t {
            JsonSchemaType::String => self.string,
            JsonSchemaType::Number => self.number,
            JsonSchemaType::Integer => self.integer,
            JsonSchemaType::Object => self.object,
            JsonSchemaType::Array => self.array,
            JsonSchemaType::Boolean => self.boolean,
            JsonSchemaType::Null => self.null,
        }
    }

    /// Adds `t` to the set.
    pub fn insert(&mut self, t: JsonSchemaType)
        ensures
            final(self)@ == old(self)@.insert(t),
    {
        match t {
            JsonSchemaType::String => {
                self.string = true;
            },
            JsonSchemaType::Number => {
                self.number = true;
            },
            JsonSchemaType::Integer => {
                self.integer = true;
            },
            JsonSchemaType::Object => {
                self.object = true;
            },
            JsonSchemaType::Array => {
                self.array = true;
            },
            JsonSchemaType::Boolean => {
                self.boolean = true;
            },
            JsonSchemaType::Null => {
                self.null = true;
            },
        }
        assert(self@ =~= old(self)@.insert(t));
    }

    /// The members of the set in the fixed order of the types.
    pub fn to_sorted(&self) -> (r: Vec<JsonSchemaType>)
        ensures
            r@ == sorted_types(self@),
    {
        let mut out: Vec<JsonSchemaType> = Vec::new();
        let mut i: usize = 0;
        while i < 7
            invariant
                i <= 7,
                out@ == sorted_prefix(self@, i as int),
            decreases 7 - i,
        {
            let t = type_at(i);
            if self.contains(t) {
                out.push(t);
            }
            i += 1;
            proof {
                reveal_with_fuel(sorted_prefix, 2);
            }
        }
        out
    }
}

impl View for TypeSet {
    type V = Set<JsonSchemaType>;

    open spec fn view(&self) -> Set<JsonSchemaType> {
        Set::new(|t: JsonSchemaType| self.has(t))
    }
}

/// The members of `set` among the first `n` types of the fixed order.
pub open spec fn sorted_prefix(set: Set<JsonSchemaType>, n: int) -> Seq<JsonSchemaType>
    decreases n,
{
    if n <= 0 {
        Seq::empty()
    } else if set.contains(all_types()[n - 1]) {
        sorted_prefix(set, n - 1).push(all_types()[n - 1])
    } else {
        sorted_prefix(set, n - 1)
    }
}

/// The members of `set` in the fixed order of the types.
pub open spec fn sorted_types(set: Set<JsonSchemaType>) -> Seq<JsonSchemaType> {
    sorted_prefix(set, 7)
}

/// The effective type of a schema.
#[derive(Debug, PartialEq)]
pub enum InternalJsonSchemaType {
    /// One type.
    Simple(JsonSchemaType),
    /// Every type.
    Any,
    /// No type.
    Never,
    /// Several types, as listed.
    Multiple(Vec<JsonSchemaType>),
}

/// What an [`InternalJsonSchemaType`] stands for.
pub ghost enum TypeModel {
    Simple(JsonSchemaType),
    Any,
    Never,
    Multiple(Seq<JsonSchemaType>),
}

impl View for InternalJsonSchemaType {
    type V = TypeModel;

    open spec fn view(&self) -> TypeModel {
        match self {
            InternalJsonSchemaType::Simple(t) => TypeModel::Simple(*t),
            InternalJsonSchemaType::Any => TypeModel::Any,
            InternalJsonSchemaType::Never => TypeModel::Never,
            InternalJsonSchemaType::Multiple(ts) => TypeModel::Multiple(ts@),
        }
    }
}

impl From<JsonSchemaType> for InternalJsonSchemaType {
    fn from(other: JsonSchemaType) -> (r: InternalJsonSchemaType) {
        InternalJsonSchemaType::Simple(other)
    }
}

impl vstd::std_specs::convert::FromSpecImpl<JsonSchemaType> for InternalJsonSchemaType {
    open spec fn obeys_from_spec() -> bool {
        true
    }

    /// The effective type that is the one type `other`.
    open spec fn from_spec(other: JsonSchemaType) -> InternalJsonSchemaType {
        InternalJsonSchemaType::Simple(other)
    }
}

/// The types that one type stands for: `number` takes `integer` along.
pub open spec fn explode_one(t: JsonSchemaType) -> Seq<JsonSchemaType> {
    if t == JsonSchemaType::Number {
        seq![JsonSchemaType::Integer, JsonSchemaType::Number]
    } else {
        seq![t]
    }
}

/// What the first `n` of the listed types stand for, in their order.
pub open spec fn explode_prefix(types: Seq<JsonSchemaType>, n: int) -> Seq<JsonSchemaType>
    decreases n,
{
    if n <= 0 {
        Seq::empty()
    } else {
        explode_prefix(types, n - 1) + explode_one(types[n - 1])
    }
}

/// The types that an effective type stands for, as a list.
pub open spec fn explode(t: TypeModel) -> Seq<JsonSchemaType> {
    match t {
        TypeModel::Simple(x) => explode_one(x),
        TypeModel::Any => all_types(),
        TypeModel::Never => Seq::empty(),
        TypeModel::Multiple(xs) => explode_prefix(xs, xs.len() as int),
    }
}

/// The types that an effective type stands for, as a set.
pub open spec fn into_set(t: TypeModel) -> Set<JsonSchemaType> {
    Set::new(|x: JsonSchemaType| explode(t).contains(x))
}

/// A type is among what a list stands for exactly if the list names it,
/// or it is `integer` and the list names `number`.
pub proof fn lemma_explode_prefix(types: Seq<JsonSchemaType>, n: int, x: JsonSchemaType)
    requires
        0 <= n <= types.len(),
    ensures
        explode_prefix(types, n).contains(x) <==> exists|k: int|
            0 <= k < n && (types[k] == x || (types[k] == JsonSchemaType::Number && x == JsonSchemaType::Integer)),
    decreases n,
{
    reveal_with_fuel(explode_prefix, 2);
    if n > 0 {
        lemma_explode_prefix(types, n - 1, x);
        let before = explode_prefix(types, n - 1);
        let last = explode_one(types[n - 1]);
        let whole = before + last;
        if whole.contains(x) {
            let i = choose|i: int| 0 <= i < whole.len() && whole[i] == x;
            if i < before.len() {
                assert(before[i] == x);
                assert(before.contains(x));
            } else {
                assert(last[i - before.len()] == x);
            }
        }
        if before.contains(x) {
            let i = choose|i: int| 0 <= i < before.len() && before[i] == x;
            assert(whole[i] == x);
        }
        if types[n - 1] == x {
            if x == JsonSchemaType::Number {
                assert(last[1] == x);
                assert(whole[before.len() as int + 1] == x);
            } else {
                assert(last[0] == x);
                assert(whole[before.len() as int] == x);
            }
        }
        if types[n - 1] == JsonSchemaType::Number && x == JsonSchemaType::Integer {
            assert(last[0] == x);
            assert(whole[before.len() as int] == x);
        }
    }
}

impl InternalJsonSchemaType {
    /// The types that the effective type stands for, as a list: `number`
    /// gives `integer` and `number`, every type gives all seven in their
    /// fixed order, and a list gives what its members give, in its order.
    pub fn explode(self) -> (r: Vec<JsonSchemaType>)
        ensures
            r@ == explode(self@),
    {
        match self {
            InternalJsonSchemaType::Simple(x) => {
                let mut out: Vec<JsonSchemaType> = Vec::new();
                if x == JsonSchemaType::Number {
                    out.push(JsonSchemaType::Integer);
                    out.push(JsonSchemaType::Number);
                } else {
                    out.push(x);
                }
                proof {
                    assert(out@ =~= explode_one(x));
                }
                out
            },
            InternalJsonSchemaType::Any => {
                let mut out: Vec<JsonSchemaType> = Vec::new();
                out.push(JsonSchemaType::String);
                out.push(JsonSchemaType::Number);
                out.push(JsonSchemaType::Integer);
                out.push(JsonSchemaType::Object);
                out.push(JsonSchemaType::Array);
                out.push(JsonSchemaType::Boolean);
                out.push(JsonSchemaType::Null);
                proof {
                    assert(out@ =~= all_types());
                }
                out
            },
            InternalJsonSchemaType::Never => Vec::new(),
            InternalJsonSchemaType::Multiple(xs) => {
                let mut out: Vec<JsonSchemaType> = Vec::new();
                let mut i: usize = 0;
                while i < xs.len()
                    invariant
                        i <= xs@.len(),
                        out@ == explode_prefix(xs@, i as int),
                    decreases xs@.len() - i,
                {
                    let x = xs[i];
                    let ghost before = out@;
                    if x == JsonSchemaType::Number {
                        out.push(JsonSchemaType::Integer);
                        out.push(JsonSchemaType::Number);
                    } else {
                        out.push(x);
                    }
                    i += 1;
                    proof {
                        reveal_with_fuel(explode_prefix, 2);
                        assert(out@ =~= before + explode_one(x));
                    }
                }
                out
            },
        }
    }

    /// The types that the effective type stands for, as a set.
    pub fn into_set(self) -> (r: TypeSet)
        ensures
            r@ == into_set(self@),
    {
        let ghost model = self@;
        let list = self.explode();
        let mut out = TypeSet::new();
        let mut i: usize = 0;
        while i < list.len()
            invariant
                i <= list@.len(),
                forall|x: JsonSchemaType| out@.contains(x) <==> list@.subrange(0, i as int).contains(x),
            decreases list@.len() - i,
        {
            let ghost before = out@;
            out.insert(list[i]);
            proof {
                let lo = list@.subrange(0, i as int);
                let hi = list@.subrange(0, i + 1);
                assert(hi =~= lo.push(list@[i as int]));
                assert forall|x: JsonSchemaType| out@.contains(x) <==> hi.contains(x) by {
                    if lo.contains(x) {
                        let k = choose|k: int| 0 <= k < lo.len() && lo[k] == x;
                        assert(hi[k] == x);
                    }
                    if x == list@[i as int] {
                        assert(hi[i as int] == x);
                    }
                    if hi.contains(x) {
                        let k = choose|k: int| 0 <= k < hi.len() && hi[k] == x;
                        if k < i {
                            assert(lo[k] == x);
                        }
                    }
                }
            }
            i += 1;
        }
        proof {
            assert(list@.subrange(0, i as int) =~= list@);
            assert(out@ =~= into_set(model));
        }
        out
    }
}

impl TypeSet {
    /// The types that are in either set.
    pub fn union(&self, other: &TypeSet) -> (r: TypeSet)
        ensures
            r@ == self@.union(other@),
    {
        let r = TypeSet {
            string: self.string || other.string,
            number: self.number || other.number,
            integer: self.integer || other.integer,
            object: self.object || other.object,
            array: self.array || other.array,
            boolean: self.boolean || other.boolean,
            null: self.null || other.null,
        };
        assert(r@ =~= self@.union(other@));
        r
    }
}

/// The effective type of a schema object, read off its keywords: its
/// `type` if it has one; else the type of its `const`; else `object` if
/// it declares properties; else what its `anyOf` branches admit between
/// them; else nothing if it negates the schema that accepts everything;
/// else everything. References are not followed.
pub open spec fn effective_type(node: NodeModel) -> TypeModel
    decreases node, 0int,
{
    if node.instance_type is Some {
        match node.instance_type->Some_0 {
            TypesModel::Single(t) => TypeModel::Simple(t),
            TypesModel::Many(ts) => TypeModel::Multiple(ts),
        }
    } else if node.const_value is Some {
        TypeModel::Simple(value_type(node.const_value->Some_0))
    } else if node.properties.len() > 0 {
        TypeModel::Simple(JsonSchemaType::Object)
    } else if node.any_of is Some {
        TypeModel::Multiple(
            sorted_types(branch_types(node.any_of->Some_0, node.any_of->Some_0.len() as int)),
        )
    } else if node.not is Some && node.not->Some_0.into_object() == NodeModel::empty() {
        TypeModel::Never
    } else {
        TypeModel::Any
    }
}

/// The effective type of a schema: everything for `true`, nothing for
/// `false`, else that of its object.
pub open spec fn schema_type(schema: SchemaModel) -> TypeModel
    decreases schema, 0int,
{
    match schema {
        SchemaModel::Bool(true) => TypeModel::Any,
        SchemaModel::Bool(false) => TypeModel::Never,
        SchemaModel::Object(node) => effective_type(node),
    }
}

/// The types that the first `n` branches admit between them.
pub open spec fn branch_types(branches: Seq<SchemaModel>, n: int) -> Set<JsonSchemaType>
    decreases branches, n,
{
    if n <= 0 || n > branches.len() {
        Set::empty()
    } else {
        branch_types(branches, n - 1).union(into_set(schema_type(branches[n - 1])))
    }
}

/// The effective type of a schema is that of the object it turns into.
pub proof fn lemma_schema_type(schema: SchemaModel)
    ensures
        schema_type(schema) == effective_type(schema.into_object()),
{
    reveal_with_fuel(schema_type, 2);
    reveal_with_fuel(effective_type, 2);
}

/// The types that a list of schemas admits between them.
pub fn branch_type_set(branches: &Vec<Schema>) -> (r: TypeSet)
    ensures
        r@ == branch_types(schema_views(branches@), branches@.len() as int),
    decreases branches,
{
    let mut out = TypeSet::new();
    let mut i: usize = 0;
    proof {
        reveal_with_fuel(branch_types, 2);
    }
    while i < branches.len()
        invariant
            i <= branches@.len(),
            out@ == branch_types(schema_views(branches@), i as int),
        decreases branches@.len() - i,
    {
        proof {
            assert(decreases_to!(*branches => branches[i as int]));
        }
        let t = branches[i].effective_type();
        let set = t.into_set();
        out = out.union(&set);
        proof {
            reveal_with_fuel(branch_types, 2);
            lemma_schema_views(branches@);
        }
        i += 1;
    }
    out
}

impl Schema {
    /// The effective type of the schema.
    pub fn effective_type(&self) -> (r: InternalJsonSchemaType)
        ensures
            r@ == schema_type(self@),
        decreases self,
    {
        proof {
            self.lemma_view();
            reveal_with_fuel(schema_type, 2);
        }
        match self {
            Schema::Bool(true) => InternalJsonSchemaType::Any,
            Schema::Bool(false) => InternalJsonSchemaType::Never,
            Schema::Object(o) => o.effective_type(),
        }
    }

    /// Whether the schema accepts everything: `true`, or an object without
    /// keywords.
    pub fn is_true(&self) -> (r: bool)
        ensures
            r == (self@.into_object() == NodeModel::empty()),
    {
        proof {
            self.lemma_view();
        }
        match self {
            Schema::Bool(b) => *b,
            Schema::Object(o) => o.is_true(),
        }
    }
}

impl SchemaObject {
    /// The effective type of the schema object.
    pub fn effective_type(&self) -> (r: InternalJsonSchemaType)
        ensures
            r@ == effective_type(self@),
        decreases self,
    {
        proof {
            self.lemma_view();
            reveal_with_fuel(effective_type, 2);
        }
        if let Some(types) = &self.instance_type {
            let r = match types {
                InstanceTypes::Single(t) => InternalJsonSchemaType::Simple(*t),
                InstanceTypes::Many(ts) => InternalJsonSchemaType::Multiple(crate::schema::clone_type_list(ts)),
            };
            r
        } else if let Some(value) = &self.const_value {
            let r = InternalJsonSchemaType::Simple(type_of_value(value));
            r
        } else if self.properties.len() > 0 {
            let r = InternalJsonSchemaType::Simple(JsonSchemaType::Object);
            r
        } else if let Some(branches) = &self.any_of {
            let set = branch_type_set(branches);
            let r = InternalJsonSchemaType::Multiple(set.to_sorted());
            proof {
                lemma_schema_views(branches@);
            }
            r
        } else if let Some(negated) = &self.not {
            let r = if negated.is_true() {
                InternalJsonSchemaType::Never
            } else {
                InternalJsonSchemaType::Any
            };
            r
        } else {
            let r = InternalJsonSchemaType::Any;
            r
        }
    }
}

/// `number` stands for `number` and `integer`, and whatever effective
/// type admits `number` admits `integer` too.
pub proof fn lemma_number_takes_integer(t: TypeModel)
    ensures
        into_set(TypeModel::Simple(JsonSchemaType::Number)) == set![JsonSchemaType::Number, JsonSchemaType::Integer],
        into_set(t).contains(JsonSchemaType::Number) ==> into_set(t).contains(JsonSchemaType::Integer),
{
    let number = explode(TypeModel::Simple(JsonSchemaType::Number));
    assert(number[0] == JsonSchemaType::Integer);
    assert(number[1] == JsonSchemaType::Number);
    assert(into_set(TypeModel::Simple(JsonSchemaType::Number)) =~= set![JsonSchemaType::Number, JsonSchemaType::Integer]);
    if into_set(t).contains(JsonSchemaType::Number) {
        match t {
            TypeModel::Simple(x) => {
                assert(x == JsonSchemaType::Number);
                assert(explode(t)[0] == JsonSchemaType::Integer);
            },
            TypeModel::Any => {
                assert(all_types()[2] == JsonSchemaType::Integer);
            },
            TypeModel::Never => {},
            TypeModel::Multiple(xs) => {
                lemma_explode_prefix(xs, xs.len() as int, JsonSchemaType::Number);
                lemma_explode_prefix(xs, xs.len() as int, JsonSchemaType::Integer);
            },
        }
    }
}

} // verus!
