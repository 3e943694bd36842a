//! References: from the text of a `$ref` to the definition it means.

use vstd::prelude::*;
use crate::names::NameMap;
use crate::schema::RootModel;
use crate::schema::RootSchema;
use crate::schema::Schema;
use crate::schema::SchemaModel;
use crate::schema::SchemaObject;
use crate::schema::find_named;
use crate::schema::lemma_find_named;

verus! {

/// The `$id` of a schema, if it has one.
pub open spec fn schema_id(schema: SchemaModel) -> Option<Seq<char>> {
    match schema {
        SchemaModel::Object(node) => node.id,
        SchemaModel::Bool(_) => None,
    }
}

/// The table after the definition `key` is entered: under the
/// definition's own `$id`, if it has one; under the root's `$id` followed
/// by `#/definitions/key` and by `#/$defs/key`, if the root has one; and
/// under `#/definitions/key` and `#/$defs/key`. A text that was in the
/// table already now means `key`.
pub open spec fn with_definition(
    table: Map<Seq<char>, Seq<char>>,
    root_id: Option<Seq<char>>,
    key: Seq<char>,
    schema: SchemaModel,
) -> Map<Seq<char>, Seq<char>> {
    let with_own = match schema_id(schema) {
        Some(id) => table.insert(id, key),
        None => table,
    };
    let with_root = match root_id {
        Some(r) => with_own.insert(r + "#/definitions/"@ + key, key).insert(r + "#/$defs/"@ + key, key),
        None => with_own,
    };
    with_root.insert("#/definitions/"@ + key, key).insert("#/$defs/"@ + key, key)
}

/// Whether `reference` is one of the texts under which the definition
/// `key` is entered.
pub open spec fn names_definition(
    root_id: Option<Seq<char>>,
    key: Seq<char>,
    schema: SchemaModel,
    reference: Seq<char>,
) -> bool {
    ||| schema_id(schema) == Some(reference)
    ||| root_id is Some && reference == root_id->Some_0 + "#/definitions/"@ + key
    ||| root_id is Some && reference == root_id->Some_0 + "#/$defs/"@ + key
    ||| reference == "#/definitions/"@ + key
    ||| reference == "#/$defs/"@ + key
}

/// The table after the first `n` definitions are entered, in the order of
/// their names.
pub open spec fn ref_table_prefix(root: RootModel, n: int) -> Map<Seq<char>, Seq<char>>
    decreases n,
{
    if n <= 0 {
        Map::empty()
    } else {
        with_definition(
            ref_table_prefix(root, n - 1),
            root.schema.id,
            root.definitions[n - 1].0,
            root.definitions[n - 1].1,
        )
    }
}

/// The table of a document: from the text of a reference to the name of
/// the definition it means.
pub open spec fn ref_table(root: RootModel) -> Map<Seq<char>, Seq<char>> {
    ref_table_prefix(root, root.definitions.len() as int)
}

/// What `reference` means by `table` among `definitions`: the definition
/// whose name the table gives for exactly that text, if the table has the
/// text and there is a definition of that name.
pub open spec fn resolve_with(
    table: Map<Seq<char>, Seq<char>>,
    definitions: Seq<(Seq<char>, SchemaModel)>,
    reference: Seq<char>,
) -> Option<SchemaModel> {
    if table.contains_key(reference) {
        find_named(definitions, table[reference])
    } else {
        None
    }
}

/// What `reference` means in the document `root`.
pub open spec fn resolve(root: RootModel, reference: Seq<char>) -> Option<SchemaModel> {
    resolve_with(ref_table(root), root.definitions, reference)
}

/// The table of references of one document.
#[derive(Debug, PartialEq)]
pub struct Resolver {
    ref_lookup: NameMap<String>,
}

impl View for Resolver {
    type V = Map<Seq<char>, Seq<char>>;

    closed spec fn view(&self) -> Map<Seq<char>, Seq<char>> {
        Map::new(
            |r: Seq<char>| self.ref_lookup.spec_get(r) is Some,
            |r: Seq<char>| self.ref_lookup.spec_get(r)->Some_0@,
        )
    }
}

impl SchemaObject {
    /// The `$id` of the schema object, if it has one.
    pub fn get_schema_id(&self) -> (r: Option<&String>)
        ensures
            r matches Some(s) ==> self@.id == Some(s@),
            r is None ==> self@.id is None,
    {
        proof {
            self.lemma_view();
        }
        match &self.id {
            Some(id) => Some(id),
            None => None,
        }
    }
}

impl Schema {
    /// The `$id` of the schema, if it has one.
    pub fn get_schema_id(&self) -> (r: Option<&String>)
        ensures
            r matches Some(s) ==> schema_id(self@) == Some(s@),
            r is None ==> schema_id(self@) is None,
    {
        proof {
            self.lemma_view();
        }
        match self {
            Schema::Object(o) => o.get_schema_id(),
            Schema::Bool(_) => None,
        }
    }
}

impl Resolver {
    fn enter(&mut self, reference: String, key: &String)
        ensures
            final(self)@ == old(self)@.insert(reference@, key@),
    {
        let owned = key.clone();
        self.ref_lookup.insert(reference, owned);
        assert(self@ =~= old(self)@.insert(reference@, key@));
    }

    /// The table of references of the document `root`.
    pub fn for_schema(root: &RootSchema) -> (r: Resolver)
        ensures
            r@ == ref_table(root@),
    {
        let mut out = Resolver { ref_lookup: NameMap::new() };
        proof {
            root.lemma_view();
            assert(out@ =~= Map::<Seq<char>, Seq<char>>::empty());
        }
        let root_id = root.schema.get_schema_id();
        let mut i: usize = 0;
        while i < root.definitions.len()
            invariant
                i <= root.definitions.names().len(),
                root.definitions.names().len() == root.definitions.values().len(),
                root@.definitions.len() == root.definitions.names().len(),
                forall|k: int|
                    0 <= k < root.definitions.names().len() ==> (#[trigger] root@.definitions[k]) == (
                        root.definitions.names()[k],
                        root.definitions.values()[k]@,
                    ),
                root_id matches Some(s) ==> root@.schema.id == Some(s@),
                root_id is None ==> root@.schema.id is None,
                out@ == ref_table_prefix(root@, i as int),
            decreases root.definitions.names().len() - i,
        {
            let key = root.definitions.name_at(i);
            let schema = root.definitions.value_at(i);
            let ghost before = out@;
            if let Some(id) = schema.get_schema_id() {
                out.enter(id.clone(), key);
            }
            if let Some(r) = root_id {
                let mut a = r.clone();
                a.append("#/definitions/");
                a.append(key.as_str());
                out.enter(a, key);
                let mut b = r.clone();
                b.append("#/$defs/");
                b.append(key.as_str());
                out.enter(b, key);
            }
            let mut c = String::from_str("#/definitions/");
            c.append(key.as_str());
            out.enter(c, key);
            let mut d = String::from_str("#/$defs/");
            d.append(key.as_str());
            out.enter(d, key);
            proof {
                reveal_with_fuel(ref_table_prefix, 2);
                assert(root@.definitions[i as int].0 == key@);
                assert(root@.definitions[i as int].1 == schema@);
                assert(out@ == with_definition(before, root@.schema.id, key@, schema@));
            }
            i += 1;
        }
        out
    }

    /// The definition of `root` that `reference` means by this table: the
    /// one whose name the table gives for exactly that text. `root` is
    /// meant to be the document that the table was made for; with another
    /// one the name is looked up among that document's definitions.
    pub fn resolve<'a>(&self, root: &'a RootSchema, reference: &str) -> (r: Option<&'a Schema>)
        ensures
            (match r {
                Some(s) => Some(s@),
                None => None,
            }) == resolve_with(self@, root@.definitions, reference@),
    {
        proof {
            use_type_invariant(&root.definitions);
        }
        match self.ref_lookup.get(reference) {
            Some(key) => {
                proof {
                    lemma_find_named(root.definitions, key@);
                }
                root.definitions.get(key.as_str())
            },
            None => None,
        }
    }
}

/// After a definition is entered, the texts that name it mean it, and
/// every other text means what it meant before.
pub proof fn lemma_with_definition(
    table: Map<Seq<char>, Seq<char>>,
    root_id: Option<Seq<char>>,
    key: Seq<char>,
    schema: SchemaModel,
    reference: Seq<char>,
)
    ensures
        names_definition(root_id, key, schema, reference) ==> with_definition(table, root_id, key, schema).contains_key(
            reference,
        ) && with_definition(table, root_id, key, schema)[reference] == key,
        !names_definition(root_id, key, schema, reference) ==> (with_definition(
            table,
            root_id,
            key,
            schema,
        ).contains_key(reference) <==> table.contains_key(reference)),
        !names_definition(root_id, key, schema, reference) && table.contains_key(reference) ==> with_definition(
            table,
            root_id,
            key,
            schema,
        )[reference] == table[reference],
{
}

/// The table of a document has exactly the texts that name one of its
/// definitions, and gives each the name of the last definition, in the
/// order of the names, that the text names.
pub proof fn lemma_ref_table(root: RootModel, n: int, reference: Seq<char>)
    requires
        0 <= n <= root.definitions.len(),
    ensures
        ref_table_prefix(root, n).contains_key(reference) <==> exists|i: int|
            0 <= i < n && #[trigger] names_definition(
                root.schema.id,
                root.definitions[i].0,
                root.definitions[i].1,
                reference,
            ),
        ref_table_prefix(root, n).contains_key(reference) ==> exists|i: int|
            0 <= i < n && #[trigger] names_definition(
                root.schema.id,
                root.definitions[i].0,
                root.definitions[i].1,
                reference,
            ) && ref_table_prefix(root, n)[reference] == root.definitions[i].0 && forall|j: int|
                i < j < n ==> !#[trigger] names_definition(
                    root.schema.id,
                    root.definitions[j].0,
                    root.definitions[j].1,
                    reference,
                ),
    decreases n,
{
    if n > 0 {
        lemma_ref_table(root, n - 1, reference);
        let before = ref_table_prefix(root, n - 1);
        let key = root.definitions[n - 1].0;
        let schema = root.definitions[n - 1].1;
        lemma_with_definition(before, root.schema.id, key, schema, reference);
        if names_definition(root.schema.id, key, schema, reference) {
            assert(names_definition(root.schema.id, root.definitions[n - 1].0, root.definitions[n - 1].1, reference));
        } else if before.contains_key(reference) {
            let i = choose|i: int|
                0 <= i < n - 1 && #[trigger] names_definition(
                    root.schema.id,
                    root.definitions[i].0,
                    root.definitions[i].1,
                    reference,
                ) && before[reference] == root.definitions[i].0 && forall|j: int|
                    i < j < n - 1 ==> !#[trigger] names_definition(
                        root.schema.id,
                        root.definitions[j].0,
                        root.definitions[j].1,
                        reference,
                    );
            assert(names_definition(root.schema.id, root.definitions[i].0, root.definitions[i].1, reference));
            assert forall|j: int| i < j < n implies !#[trigger] names_definition(
                root.schema.id,
                root.definitions[j].0,
                root.definitions[j].1,
                reference,
            ) by {}
        } else {
            if exists|i: int|
                0 <= i < n && #[trigger] names_definition(
                    root.schema.id,
                    root.definitions[i].0,
                    root.definitions[i].1,
                    reference,
                ) {
                let i = choose|i: int|
                    0 <= i < n && #[trigger] names_definition(
                        root.schema.id,
                        root.definitions[i].0,
                        root.definitions[i].1,
                        reference,
                    );
                assert(i < n - 1);
            }
        }
    }
}

} // verus!
