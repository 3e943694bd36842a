//! Structural diff of two JSON Schema documents.
//!
//! The library compares an old schema document with a new one and lists
//! the atomic changes between them: a type that is no longer admitted, a
//! property that was added, a bound that was raised, and so on. Each
//! change is located by a path into the schema, and [`ChangeKind::is_breaking`]
//! tells whether it can make a document that the old schema accepted fail
//! under the new one.
//!
//! [`diff`] compares two documents from their roots. [`DiffWalker`] does
//! the same for any two schemas of two documents and keeps adding to the
//! changes it has recorded.
//!
//! The modules, from the leaves up:
//!
//! - [`double`], [`json`], [`names`]: finite numbers, JSON values, and
//!   maps keyed by name.
//! - [`types`]: the change records and which of them are breaking.
//! - [`schema`]: schema documents.
//! - [`lattice`]: the types that a schema admits.
//! - [`resolver`]: what a `$ref` means.
//! - [`normalize`]: splitting a list of types, and turning a constant
//!   object into properties.
//! - [`align`]: pairing the branches of two `anyOf` lists.
//! - [`path`]: the paths that locate changes.
//! - [`walk`]: what a comparison finds, as a function of the schemas;
//!   [`facts`]: what holds of it.
//! - [`facets`], [`diff_walker`]: the comparison itself.

use vstd::prelude::*;

pub mod align;
pub mod diff_walker;
pub mod double;
pub mod facets;
pub mod facts;
pub mod json;
pub mod lattice;
pub mod names;
pub mod normalize;
pub mod path;
pub mod resolver;
pub mod schema;
pub mod types;
pub mod walk;

pub use crate::diff_walker::DiffWalker;
pub use crate::resolver::Resolver;
pub use crate::types::Change;
pub use crate::types::ChangeKind;
pub use crate::types::Error;
pub use crate::types::JsonSchemaType;
pub use crate::types::Range;

use crate::diff_walker::DEFAULT_MAX_DEPTH;
use crate::facts::lemma_located_paths;
use crate::path::is_path;
use crate::schema::RootModel;
use crate::schema::RootSchema;
use crate::schema::Schema;
use crate::schema::SchemaModel;
use crate::types::change_views;
use crate::walk::Outcome;
use crate::walk::WalkContext;
use crate::walk::located;
use crate::walk::walk_schema;

verus! {

/// The changes from the old document `lhs` to the new document `rhs`,
/// found by a walk from their roots that goes [`DEFAULT_MAX_DEPTH`] pairs
/// deep.
pub open spec fn changes_between(lhs: RootModel, rhs: RootModel) -> Outcome {
    walk_schema(
        WalkContext { lhs, rhs },
        DEFAULT_MAX_DEPTH as nat,
        SchemaModel::Object(lhs.schema),
        SchemaModel::Object(rhs.schema),
    )
}

/// Compares two schema documents: `lhs` is the old one, `rhs` the new one.
///
/// Returns the changes in the order of the walk, each located by a path
/// from the root; or [`Error::DiffDepth`] where the schemas nest, or refer
/// to each other, more deeply than the walk goes. A document compared with
/// itself has no changes.
pub fn diff(lhs: RootSchema, rhs: RootSchema) -> (r: Result<Vec<Change>, Error>)
    ensures
        match r {
            Ok(changes) => changes_between(lhs@, rhs@) is Some && change_views(changes@) == located(
                Seq::empty(),
                changes_between(lhs@, rhs@)->Some_0,
            ),
            Err(e) => changes_between(lhs@, rhs@) is None && e is DiffDepth,
        },
        r matches Ok(changes) ==> forall|i: int| 0 <= i < changes@.len() ==> is_path(#[trigger] changes@[i].path@),
        lhs@ == rhs@ ==> (r matches Ok(changes) ==> changes@.len() == 0),
{
    let lhs_schema = Schema::Object(lhs.schema.clone());
    let rhs_schema = Schema::Object(rhs.schema.clone());
    let ghost ctx = WalkContext { lhs: lhs@, rhs: rhs@ };
    proof {
        lhs_schema.lemma_view();
        rhs_schema.lemma_view();
        lhs.lemma_view();
        rhs.lemma_view();
        reveal_strlit("");
    }
    let mut walker = DiffWalker::new(lhs, rhs);
    match walker.diff("", &lhs_schema, &rhs_schema) {
        Ok(_) => {
            let changes = walker.into_changes();
            proof {
                let found = changes_between(ctx.lhs, ctx.rhs)->Some_0;
                reveal(crate::walk::emitted);
                assert(""@ =~= Seq::<char>::empty());
                assert(change_views(Seq::<Change>::empty()) + located(Seq::empty(), found) =~= located(
                    Seq::empty(),
                    found,
                ));
                crate::path::lemma_root_is_path();
                assert forall|i: int| 0 <= i < changes@.len() implies is_path(#[trigger] changes@[i].path@) by {
                    lemma_located_paths(Seq::empty(), found, i);
                    assert(change_views(changes@)[i] == changes@[i]@);
                }
                if ctx.lhs == ctx.rhs {
                    assert(change_views(changes@).len() == changes@.len());
                }
            }
            Ok(changes)
        },
        Err(e) => Err(e),
    }
}

} // verus!
