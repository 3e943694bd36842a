//! JSON values, as far as the comparison of schemas reads them.

use vstd::prelude::*;
use crate::double::Double;
use crate::names::Entry;
use crate::names::NameMap;
use crate::names::sorted;

verus! {

/// A JSON number: a non-negative integer, a negative integer, or any
/// other finite number. Numbers of different forms are never equal.
#[derive(Clone, Copy, Debug, PartialEq)]
pub enum JsonNumber {
    PosInt(u64),
    NegInt(i64),
    Float(Double),
}

/// What a [`JsonNumber`] stands for.
pub ghost enum NumberModel {
    PosInt(u64),
    NegInt(i64),
    Float(int),
}

impl View for JsonNumber {
    type V = NumberModel;

    open spec fn view(&self) -> NumberModel {
        match self {
            JsonNumber::PosInt(n) => NumberModel::PosInt(*n),
            JsonNumber::NegInt(n) => NumberModel::NegInt(*n),
            JsonNumber::Float(d) => NumberModel::Float(d@),
        }
    }
}

impl JsonNumber {
    /// Equality of two numbers: the same form and the same value.
    pub fn equals(&self, other: &JsonNumber) -> (r: bool)
        ensures
            r == (self@ == other@),
    {
        match (self, other) {
            (JsonNumber::PosInt(a), JsonNumber::PosInt(b)) => *a == *b,
            (JsonNumber::NegInt(a), JsonNumber::NegInt(b)) => *a == *b,
            (JsonNumber::Float(a), JsonNumber::Float(b)) => a.equals(b),
            _ => false,
        }
    }
}

/// A JSON value. The members of an object are kept sorted by name.
#[derive(Debug, PartialEq)]
pub enum JsonValue {
    Null,
    Bool(bool),
    Number(JsonNumber),
    String(String),
    Array(Vec<JsonValue>),
    Object(NameMap<JsonValue>),
}

/// What a [`JsonValue`] stands for. The members of an object are listed
/// in the order of their names.
pub ghost enum JsonModel {
    Null,
    Bool(bool),
    Number(NumberModel),
    String(Seq<char>),
    Array(Seq<JsonModel>),
    Object(Seq<(Seq<char>, JsonModel)>),
}

impl View for JsonValue {
    type V = JsonModel;

    open spec fn view(&self) -> JsonModel {
        self.model()
    }
}

/// What each of the values stands for.
pub open(crate) spec fn json_views(items: Seq<JsonValue>) -> Seq<JsonModel>
    decreases items,
{
    if items.len() == 0 {
        Seq::empty()
    } else {
        json_views(items.drop_last()).push(items.last().model())
    }
}

/// What each of the members stands for, under its name.
pub open(crate) spec fn member_views(entries: Seq<Entry<JsonValue>>) -> Seq<(Seq<char>, JsonModel)>
    decreases entries,
{
    if entries.len() == 0 {
        Seq::empty()
    } else {
        member_views(entries.drop_last()).push((entries.last().name@, entries.last().value.model()))
    }
}

/// What the members in a map stand for, in the order of their names.
pub open(crate) spec fn members_view(members: NameMap<JsonValue>) -> Seq<(Seq<char>, JsonModel)> {
    member_views(members.entries@)
}

/// The members in a map stand for the map's entries, name by name.
pub proof fn lemma_members_view(members: NameMap<JsonValue>)
    ensures
        members_view(members).len() == members.names().len(),
        forall|i: int|
            0 <= i < members.names().len() ==> (#[trigger] members_view(members)[i]) == (
                members.names()[i],
                members.values()[i]@,
            ),
{
    lemma_member_views(members.entries@);
}

/// `json_views` goes value by value.
proof fn lemma_json_views(items: Seq<JsonValue>)
    ensures
        json_views(items).len() == items.len(),
        forall|i: int| 0 <= i < items.len() ==> (#[trigger] json_views(items)[i]) == items[i]@,
    decreases items.len(),
{
    reveal_with_fuel(json_views, 2);
    if items.len() > 0 {
        lemma_json_views(items.drop_last());
    }
}

/// `member_views` goes member by member.
proof fn lemma_member_views(entries: Seq<Entry<JsonValue>>)
    ensures
        member_views(entries).len() == entries.len(),
        forall|i: int|
            0 <= i < entries.len() ==> (#[trigger] member_views(entries)[i]) == (entries[i].name@, entries[i].value@),
    decreases entries.len(),
{
    reveal_with_fuel(member_views, 2);
    if entries.len() > 0 {
        lemma_member_views(entries.drop_last());
    }
}

impl JsonValue {
    /// What the value stands for.
    pub open(crate) spec fn model(&self) -> JsonModel
        decreases self,
    {
        match self {
            JsonValue::Null => JsonModel::Null,
            JsonValue::Bool(b) => JsonModel::Bool(*b),
            JsonValue::Number(n) => JsonModel::Number(n@),
            JsonValue::String(s) => JsonModel::String(s@),
            JsonValue::Array(items) => JsonModel::Array(json_views(items@)),
            JsonValue::Object(members) => JsonModel::Object(member_views(members.entries@)),
        }
    }

    /// What the simple values stand for.
    pub proof fn lemma_scalar_view(self)
        ensures
            self is Null ==> self@ == JsonModel::Null,
            self matches JsonValue::Bool(b) ==> self@ == JsonModel::Bool(b),
            self matches JsonValue::Number(n) ==> self@ == JsonModel::Number(n@),
            self matches JsonValue::String(s) ==> self@ == JsonModel::String(s@),
            self is Array ==> self@ is Array,
            self is Object ==> self@ is Object,
    {
        reveal_with_fuel(JsonValue::model, 2);
    }

    /// An object stands for its members, name by name, in the map's order.
    pub proof fn lemma_object_view(members: NameMap<JsonValue>)
        ensures
            JsonValue::Object(members)@ == JsonModel::Object(members_view(members)),
            JsonValue::Object(members)@ is Object,
            JsonValue::Object(members)@->Object_0.len() == members.names().len(),
            forall|i: int|
                0 <= i < members.names().len() ==> (#[trigger] JsonValue::Object(members)@->Object_0[i]) == (
                    members.names()[i],
                    members.values()[i]@,
                ),
    {
        reveal_with_fuel(JsonValue::model, 2);
        lemma_member_views(members.entries@);
    }

    /// An array stands for its elements, one by one.
    pub proof fn lemma_array_view(items: Vec<JsonValue>)
        ensures
            JsonValue::Array(items)@ is Array,
            JsonValue::Array(items)@->Array_0.len() == items@.len(),
            forall|i: int| 0 <= i < items@.len() ==> (#[trigger] JsonValue::Array(items)@->Array_0[i]) == items@[i]@,
    {
        reveal_with_fuel(JsonValue::model, 2);
        lemma_json_views(items@);
    }

    /// Whether the value is an object.
    pub fn is_object(&self) -> (r: bool)
        ensures
            r == (self@ is Object),
    {
        proof {
            self.lemma_scalar_view();
        }
        match self {
            JsonValue::Object(_) => true,
            _ => false,
        }
    }

    /// Structural equality of two values.
    pub fn equals(&self, other: &JsonValue) -> (r: bool)
        ensures
            r == (self@ == other@),
        decreases self,
    {
        proof {
            self.lemma_scalar_view();
            other.lemma_scalar_view();
        }
        match (self, other) {
            (JsonValue::Null, JsonValue::Null) => true,
            (JsonValue::Bool(a), JsonValue::Bool(b)) => *a == *b,
            (JsonValue::Number(a), JsonValue::Number(b)) => a.equals(b),
            (JsonValue::String(a), JsonValue::String(b)) => *a == *b,
            (JsonValue::Array(a), JsonValue::Array(b)) => {
                proof {
                    JsonValue::lemma_array_view(*a);
                    JsonValue::lemma_array_view(*b);
                }
                if a.len() != b.len() {
                    return false;
                }
                let mut i: usize = 0;
                while i < a.len()
                    invariant
                        *self == JsonValue::Array(*a),
                        *other == JsonValue::Array(*b),
                        i <= a@.len(),
                        a@.len() == b@.len(),
                        forall|k: int| 0 <= k < i ==> a@[k]@ == b@[k]@,
                    decreases a@.len() - i,
                {
                    proof {
                        assert(decreases_to!(*self => self->Array_0));
                        assert(decreases_to!(*a => a[i as int]));
                    }
                    if !a[i].equals(&b[i]) {
                        proof {
                            JsonValue::lemma_array_view(*a);
                            JsonValue::lemma_array_view(*b);
                            assert(self@->Array_0[i as int] != other@->Array_0[i as int]);
                        }
                        return false;
                    }
                    i += 1;
                }
                proof {
                    JsonValue::lemma_array_view(*a);
                    JsonValue::lemma_array_view(*b);
                    assert(self@->Array_0 =~= other@->Array_0);
                }
                true
            },
            (JsonValue::Object(a), JsonValue::Object(b)) => {
                proof {
                    JsonValue::lemma_object_view(*a);
                    JsonValue::lemma_object_view(*b);
                }
                same_members(a, b)
            },
            _ => false,
        }
    }
}

impl Clone for JsonValue {
    fn clone(&self) -> (r: Self)
        ensures
            r@ == self@,
        decreases self,
    {
        proof {
            self.lemma_scalar_view();
        }
        match self {
            JsonValue::Null => {
                let r = JsonValue::Null;
                proof {
                    r.lemma_scalar_view();
                }
                r
            },
            JsonValue::Bool(b) => {
                let r = JsonValue::Bool(*b);
                proof {
                    r.lemma_scalar_view();
                }
                r
            },
            JsonValue::Number(n) => {
                let r = JsonValue::Number(*n);
                proof {
                    r.lemma_scalar_view();
                }
                r
            },
            JsonValue::String(s) => {
                let r = JsonValue::String(s.clone());
                proof {
                    r.lemma_scalar_view();
                }
                r
            },
            JsonValue::Array(items) => {
                let mut out: Vec<JsonValue> = Vec::new();
                let mut i: usize = 0;
                while i < items.len()
                    invariant
                        *self == JsonValue::Array(*items),
                        i <= items@.len(),
                        out@.len() == i,
                        forall|k: int| 0 <= k < i ==> out@[k]@ == items@[k]@,
                    decreases items@.len() - i,
                {
                    proof {
                        assert(decreases_to!(*self => self->Array_0));
                        assert(decreases_to!(*items => items[i as int]));
                    }
                    let c = items[i].clone();
                    out.push(c);
                    i += 1;
                }
                let r = JsonValue::Array(out);
                proof {
                    JsonValue::lemma_array_view(out);
                    JsonValue::lemma_array_view(*items);
                    assert(r@->Array_0 =~= self@->Array_0);
                }
                r
            },
            JsonValue::Object(members) => {
                let r = JsonValue::Object(clone_members(members));
                proof {
                    JsonValue::lemma_object_view(r->Object_0);
                    JsonValue::lemma_object_view(*members);
                }
                r
            },
        }
    }
}

/// A copy of the members of an object.
pub fn clone_members(members: &NameMap<JsonValue>) -> (r: NameMap<JsonValue>)
    ensures
        members_view(r) == members_view(*members),
    decreases members,
{
    let mut out: NameMap<JsonValue> = NameMap::new();
    let mut i: usize = 0;
    proof {
        use_type_invariant(members);
    }
    while i < members.len()
        invariant
            sorted(members.names()),
            members.names().len() == members.values().len(),
            out.names().len() == out.values().len(),
            i <= members.names().len(),
            out.names() == members.names().subrange(0, i as int),
            out.values().len() == i,
            forall|k: int| 0 <= k < i ==> out.values()[k]@ == members.values()[k]@,
        decreases members.names().len() - i,
    {
        proof {
            assert(decreases_to!(*members => members.entries));
            assert(decreases_to!(members.entries => members.entries[i as int]));
            assert(decreases_to!(members.entries[i as int] => members.entries[i as int].value));
        }
        let name = members.name_at(i).clone();
        let value = members.value_at(i).clone();
        out.append(name, value);
        proof {
            assert(out.names() =~= members.names().subrange(0, i + 1));
        }
        i += 1;
    }
    proof {
        lemma_members_view(out);
        lemma_members_view(*members);
        assert(out.names() =~= members.names());
        assert(members_view(out) =~= members_view(*members));
    }
    out
}

/// Whether two objects have the same members.
pub fn same_members(a: &NameMap<JsonValue>, b: &NameMap<JsonValue>) -> (r: bool)
    ensures
        r == (members_view(*a) == members_view(*b)),
    decreases a,
{
    proof {
        lemma_members_view(*a);
        lemma_members_view(*b);
    }
    if a.len() != b.len() {
        return false;
    }
    let mut i: usize = 0;
    while i < a.len()
        invariant
            i <= a.names().len(),
            a.names().len() == b.names().len(),
            a.names().len() == a.values().len(),
            b.names().len() == b.values().len(),
            forall|k: int| 0 <= k < i ==> a.names()[k] == b.names()[k],
            forall|k: int| 0 <= k < i ==> a.values()[k]@ == b.values()[k]@,
        decreases a.names().len() - i,
    {
        proof {
            assert(decreases_to!(*a => a.entries));
            assert(decreases_to!(a.entries => a.entries[i as int]));
            assert(decreases_to!(a.entries[i as int] => a.entries[i as int].value));
        }
        if *a.name_at(i) != *b.name_at(i) {
            proof {
                lemma_members_view(*a);
                lemma_members_view(*b);
                assert(members_view(*a)[i as int] != members_view(*b)[i as int]);
            }
            return false;
        }
        if !a.value_at(i).equals(b.value_at(i)) {
            proof {
                lemma_members_view(*a);
                lemma_members_view(*b);
                assert(members_view(*a)[i as int] != members_view(*b)[i as int]);
            }
            return false;
        }
        i += 1;
    }
    proof {
        lemma_members_view(*a);
        lemma_members_view(*b);
        assert forall|k: int| 0 <= k < a.names().len() implies members_view(*a)[k] == members_view(*b)[k] by {
            assert(a.names()[k] == b.names()[k]);
            assert(a.values()[k]@ == b.values()[k]@);
        }
        assert(members_view(*a) =~= members_view(*b));
    }
    true
}

} // verus!
