//! What a comparison of two schemas finds, stated as a function of the
//! schemas.
//!
//! The changes are listed in the order of the walk: depth first, and at
//! each pair of schema objects first what the branches of `anyOf` give,
//! then types, constant, properties, bounds on numbers, the schema for
//! undeclared properties, items, required names, and the keywords for
//! strings. Each change is located by the steps that lead to it from the
//! pair at which the walk began.

use vstd::prelude::*;
use crate::align::COST_CAP;
use crate::align::kuhn_munkres_min_assignment;
use crate::json::JsonModel;
use crate::lattice::all_types;
use crate::lattice::effective_type;
use crate::lattice::into_set;
use crate::normalize::const_normalized;
use crate::normalize::is_split;
use crate::normalize::split_node;
use crate::path::Segment;
use crate::path::path_text;
use crate::resolver::resolve;
use crate::schema::ItemsModel;
use crate::schema::NodeModel;
use crate::schema::NumberFacetModel;
use crate::schema::RootModel;
use crate::schema::SchemaModel;
use crate::schema::find_named;
use crate::types::Change;
use crate::types::ChangeKindModel;
use crate::types::ChangeModel;
use crate::types::JsonSchemaType;
use crate::types::RangeModel;
use crate::types::change_views;

verus! {

/// A change with the steps that lead to it.
pub ghost struct Located {
    pub path: Seq<Segment>,
    pub change: ChangeKindModel,
}

/// The changes that a walk finds; `None` where it would have to go
/// deeper than it may.
pub type Outcome = Option<Seq<Located>>;

/// A change at the place where the walk stands.
pub open spec fn here(change: ChangeKindModel) -> Located {
    Located { path: Seq::empty(), change }
}

/// The changes found one step further down, seen from above that step.
pub open spec fn under(segment: Segment, changes: Seq<Located>) -> Seq<Located> {
    Seq::new(changes.len(), |i: int| Located { path: seq![segment] + changes[i].path, change: changes[i].change })
}

/// `under`, where the walk further down came to an end.
pub open spec fn under_outcome(segment: Segment, outcome: Outcome) -> Outcome {
    match outcome {
        Some(changes) => Some(under(segment, changes)),
        None => None,
    }
}

/// The change records for changes found from the path `parent` on.
pub open spec fn located(parent: Seq<char>, changes: Seq<Located>) -> Seq<ChangeModel> {
    Seq::new(changes.len(), |i: int| ChangeModel { path: parent + path_text(changes[i].path), change: changes[i].change })
}

/// One outcome after another: both their changes in that order, if both
/// came to an end.
pub open spec fn chain(first: Outcome, second: Outcome) -> Outcome {
    match (first, second) {
        (Some(a), Some(b)) => Some(a + b),
        _ => None,
    }
}

/// The two documents that the schemas under comparison belong to. A
/// reference in an old schema is looked up in `lhs`, one in a new schema
/// in `rhs`.
pub ghost struct WalkContext {
    pub lhs: RootModel,
    pub rhs: RootModel,
}

/// The schema object that stands for `node` once its reference is
/// followed: the definition that `$ref` means in `root`, if `node` has a
/// `$ref` and it means one; else `node` itself.
#[verifier::opaque]
pub open spec fn resolved(root: RootModel, node: NodeModel) -> NodeModel {
    match node.reference {
        Some(reference) => match resolve(root, reference) {
            Some(schema) => schema.into_object(),
            None => node,
        },
        None => node,
    }
}

/// The branches, followed by as many `false` as make them `n`.
pub open spec fn padded(branches: Seq<SchemaModel>, n: nat) -> Seq<SchemaModel> {
    if n <= branches.len() {
        branches
    } else {
        Seq::new(
            n,
            |i: int|
                if i < branches.len() {
                    branches[i]
                } else {
                    SchemaModel::Bool(false)
                },
        )
    }
}

/// Whether both schema objects have an `anyOf`.
pub open spec fn both_any_of(lhs: NodeModel, rhs: NodeModel) -> bool {
    lhs.any_of is Some && rhs.any_of is Some
}

/// The greater of the numbers of branches of the two.
pub open spec fn common_length(lhs: NodeModel, rhs: NodeModel) -> nat {
    if lhs.any_of->Some_0.len() >= rhs.any_of->Some_0.len() {
        lhs.any_of->Some_0.len()
    } else {
        rhs.any_of->Some_0.len()
    }
}

/// `node` as the alignment of its branches with those of `other` leaves
/// it: where both have an `anyOf`, with its branches padded to the common
/// length.
#[verifier::opaque]
pub open spec fn aligned(node: NodeModel, other: NodeModel) -> NodeModel {
    if both_any_of(node, other) {
        NodeModel { any_of: Some(padded(node.any_of->Some_0, common_length(node, other))), ..node }
    } else {
        node
    }
}

/// A `TypeRemove` for each of the first `n` types, in their fixed order,
/// that `lhs` admits and `rhs` does not.
pub open spec fn type_removals(lhs: Set<JsonSchemaType>, rhs: Set<JsonSchemaType>, n: int) -> Seq<Located>
    decreases n,
{
    if n <= 0 {
        Seq::empty()
    } else if lhs.contains(all_types()[n - 1]) && !rhs.contains(all_types()[n - 1]) {
        type_removals(lhs, rhs, n - 1).push(here(ChangeKindModel::TypeRemove { removed: all_types()[n - 1] }))
    } else {
        type_removals(lhs, rhs, n - 1)
    }
}

/// A `TypeAdd` for each of the first `n` types, in their fixed order,
/// that `rhs` admits and `lhs` does not.
pub open spec fn type_additions(lhs: Set<JsonSchemaType>, rhs: Set<JsonSchemaType>, n: int) -> Seq<Located>
    decreases n,
{
    if n <= 0 {
        Seq::empty()
    } else if rhs.contains(all_types()[n - 1]) && !lhs.contains(all_types()[n - 1]) {
        type_additions(lhs, rhs, n - 1).push(here(ChangeKindModel::TypeAdd { added: all_types()[n - 1] }))
    } else {
        type_additions(lhs, rhs, n - 1)
    }
}

/// The changes of type between two schema objects: the types that only
/// the old one admits, then the types that only the new one admits.
#[verifier::opaque]
pub open spec fn type_changes(lhs: NodeModel, rhs: NodeModel) -> Seq<Located> {
    type_removals(into_set(effective_type(lhs)), into_set(effective_type(rhs)), 7) + type_additions(
        into_set(effective_type(lhs)),
        into_set(effective_type(rhs)),
        7,
    )
}

/// The changes of constant: a removal where only the old schema has one,
/// an addition where only the new one has, and both where the two differ.
#[verifier::opaque]
pub open spec fn const_changes(lhs: Option<JsonModel>, rhs: Option<JsonModel>) -> Seq<Located> {
    match (lhs, rhs) {
        (Some(value), None) => seq![here(ChangeKindModel::ConstRemove { removed: value })],
        (None, Some(value)) => seq![here(ChangeKindModel::ConstAdd { added: value })],
        (Some(l), Some(r)) => if l != r {
            seq![here(ChangeKindModel::ConstRemove { removed: l }), here(ChangeKindModel::ConstAdd { added: r })]
        } else {
            Seq::empty()
        },
        (None, None) => Seq::empty(),
    }
}

/// Whether a schema object lets undeclared properties through: it has no
/// `additionalProperties`, or one that accepts everything.
pub open spec fn lets_additional_through(node: NodeModel) -> bool {
    match node.additional_properties {
        Some(schema) => schema.into_object() == NodeModel::empty(),
        None => true,
    }
}

/// A `PropertyRemove` for each of the first `n` names of `lhs` that `rhs`
/// lacks.
pub open spec fn property_removals(open: bool, lhs: Seq<Seq<char>>, rhs: Seq<Seq<char>>, n: int) -> Seq<Located>
    decreases n,
{
    if n <= 0 {
        Seq::empty()
    } else if !rhs.contains(lhs[n - 1]) {
        property_removals(open, lhs, rhs, n - 1).push(
            here(ChangeKindModel::PropertyRemove { lhs_additional_properties: open, removed: lhs[n - 1] }),
        )
    } else {
        property_removals(open, lhs, rhs, n - 1)
    }
}

/// A `PropertyAdd` for each of the first `n` names of `rhs` that `lhs`
/// lacks.
pub open spec fn property_additions(open: bool, lhs: Seq<Seq<char>>, rhs: Seq<Seq<char>>, n: int) -> Seq<Located>
    decreases n,
{
    if n <= 0 {
        Seq::empty()
    } else if !lhs.contains(rhs[n - 1]) {
        property_additions(open, lhs, rhs, n - 1).push(
            here(ChangeKindModel::PropertyAdd { lhs_additional_properties: open, added: rhs[n - 1] }),
        )
    } else {
        property_additions(open, lhs, rhs, n - 1)
    }
}

/// The bounds that count for a schema object: its own, if it has any;
/// else those of the one branch of its `anyOf`, if it has exactly one;
/// else none.
pub open spec fn number_validation(node: NodeModel) -> NumberFacetModel {
    if node.number != NumberFacetModel::empty() {
        node.number
    } else if node.any_of is Some && node.any_of->Some_0.len() == 1 {
        node.any_of->Some_0[0].into_object().number
    } else {
        NumberFacetModel::empty()
    }
}

/// The kinds of bound.
#[derive(Clone, Copy, Debug, PartialEq, Eq)]
pub enum BoundKind {
    Minimum,
    Maximum,
    ExclusiveMinimum,
    ExclusiveMaximum,
}

/// The bound of the given kind at the given value.
pub open spec fn bound(kind: BoundKind, value: int) -> RangeModel {
    match kind {
        BoundKind::Minimum => RangeModel::Minimum(value),
        BoundKind::Maximum => RangeModel::Maximum(value),
        BoundKind::ExclusiveMinimum => RangeModel::ExclusiveMinimum(value),
        BoundKind::ExclusiveMaximum => RangeModel::ExclusiveMaximum(value),
    }
}

/// The change of one bound: an addition, a removal, a change of value, or
/// nothing.
pub open spec fn bound_changes(kind: BoundKind, lhs: Option<int>, rhs: Option<int>) -> Seq<Located> {
    match (lhs, rhs) {
        (None, Some(value)) => seq![here(ChangeKindModel::RangeAdd { added: bound(kind, value) })],
        (Some(value), None) => seq![here(ChangeKindModel::RangeRemove { removed: bound(kind, value) })],
        (Some(l), Some(r)) => if l != r {
            seq![here(ChangeKindModel::RangeChange { old_value: bound(kind, l), new_value: bound(kind, r) })]
        } else {
            Seq::empty()
        },
        (None, None) => Seq::empty(),
    }
}

/// The changes of the bounds on numbers: of `minimum`, `maximum`,
/// `exclusiveMinimum` and `exclusiveMaximum`, in that order.
pub open spec fn range_changes(lhs: NumberFacetModel, rhs: NumberFacetModel) -> Seq<Located> {
    bound_changes(BoundKind::Minimum, lhs.minimum, rhs.minimum) + bound_changes(
        BoundKind::Maximum,
        lhs.maximum,
        rhs.maximum,
    ) + bound_changes(BoundKind::ExclusiveMinimum, lhs.exclusive_minimum, rhs.exclusive_minimum) + bound_changes(
        BoundKind::ExclusiveMaximum,
        lhs.exclusive_maximum,
        rhs.exclusive_maximum,
    )
}

/// A `RequiredRemove` for each of the first `n` names of `lhs` that `rhs`
/// lacks.
pub open spec fn required_removals(lhs: Seq<Seq<char>>, rhs: Seq<Seq<char>>, n: int) -> Seq<Located>
    decreases n,
{
    if n <= 0 {
        Seq::empty()
    } else if !rhs.contains(lhs[n - 1]) {
        required_removals(lhs, rhs, n - 1).push(here(ChangeKindModel::RequiredRemove { property: lhs[n - 1] }))
    } else {
        required_removals(lhs, rhs, n - 1)
    }
}

/// A `RequiredAdd` for each of the first `n` names of `rhs` that `lhs`
/// lacks.
pub open spec fn required_additions(lhs: Seq<Seq<char>>, rhs: Seq<Seq<char>>, n: int) -> Seq<Located>
    decreases n,
{
    if n <= 0 {
        Seq::empty()
    } else if !lhs.contains(rhs[n - 1]) {
        required_additions(lhs, rhs, n - 1).push(here(ChangeKindModel::RequiredAdd { property: rhs[n - 1] }))
    } else {
        required_additions(lhs, rhs, n - 1)
    }
}

/// The changes of the required names: those no longer required, then
/// those newly required, each in the order of the names.
pub open spec fn required_changes(lhs: Seq<Seq<char>>, rhs: Seq<Seq<char>>) -> Seq<Located> {
    required_removals(lhs, rhs, lhs.len() as int) + required_additions(lhs, rhs, rhs.len() as int)
}

/// The change of `format`.
pub open spec fn format_changes(lhs: Option<Seq<char>>, rhs: Option<Seq<char>>) -> Seq<Located> {
    match (lhs, rhs) {
        (None, Some(value)) => seq![here(ChangeKindModel::FormatAdd { added: value })],
        (Some(value), None) => seq![here(ChangeKindModel::FormatRemove { removed: value })],
        (Some(l), Some(r)) => if l != r {
            seq![here(ChangeKindModel::FormatChange { old_value: l, new_value: r })]
        } else {
            Seq::empty()
        },
        (None, None) => Seq::empty(),
    }
}

/// The change of `pattern`.
pub open spec fn pattern_changes(lhs: Option<Seq<char>>, rhs: Option<Seq<char>>) -> Seq<Located> {
    match (lhs, rhs) {
        (None, Some(value)) => seq![here(ChangeKindModel::PatternAdd { added: value })],
        (Some(value), None) => seq![here(ChangeKindModel::PatternRemove { removed: value })],
        (Some(l), Some(r)) => if l != r {
            seq![here(ChangeKindModel::PatternChange { old_value: l, new_value: r })]
        } else {
            Seq::empty()
        },
        (None, None) => Seq::empty(),
    }
}

/// The change of `minLength`.
pub open spec fn min_length_changes(lhs: Option<u32>, rhs: Option<u32>) -> Seq<Located> {
    match (lhs, rhs) {
        (None, Some(value)) => seq![here(ChangeKindModel::MinLengthAdd { added: value })],
        (Some(value), None) => seq![here(ChangeKindModel::MinLengthRemove { removed: value })],
        (Some(l), Some(r)) => if l != r {
            seq![here(ChangeKindModel::MinLengthChange { old_value: l, new_value: r })]
        } else {
            Seq::empty()
        },
        (None, None) => Seq::empty(),
    }
}

/// The change of `maxLength`.
pub open spec fn max_length_changes(lhs: Option<u32>, rhs: Option<u32>) -> Seq<Located> {
    match (lhs, rhs) {
        (None, Some(value)) => seq![here(ChangeKindModel::MaxLengthAdd { added: value })],
        (Some(value), None) => seq![here(ChangeKindModel::MaxLengthRemove { removed: value })],
        (Some(l), Some(r)) => if l != r {
            seq![here(ChangeKindModel::MaxLengthChange { old_value: l, new_value: r })]
        } else {
            Seq::empty()
        },
        (None, None) => Seq::empty(),
    }
}

/// The changes of the keywords for strings: of `format`, `pattern`,
/// `minLength` and `maxLength`, in that order.
pub open spec fn string_changes(lhs: NodeModel, rhs: NodeModel) -> Seq<Located> {
    format_changes(lhs.format, rhs.format) + pattern_changes(lhs.pattern, rhs.pattern) + min_length_changes(
        lhs.min_length,
        rhs.min_length,
    ) + max_length_changes(lhs.max_length, rhs.max_length)
}

/// The cost of pairing two branches: the number of changes between them,
/// counted no further than the cap.
pub open spec fn capped(count: nat) -> i64 {
    if count >= COST_CAP {
        COST_CAP
    } else {
        count as i64
    }
}

/// What a walk finds at one pair of schema objects, in three parts.
pub ghost struct Parts {
    /// What the branches of `anyOf` give.
    pub branches: Outcome,
    /// The changes of type at the pair itself.
    pub types: Seq<Located>,
    /// The change of constant and what the other keywords give.
    pub rest: Outcome,
}

/// The parts put together. Where the pair is itself a pair of `anyOf`
/// branches, the changes of type are left out: the branches above state
/// them.
pub open spec fn assemble(comparing_any_of: bool, parts: Parts) -> Outcome {
    chain(
        parts.branches,
        chain(
            Some(
                if comparing_any_of {
                    Seq::empty()
                } else {
                    parts.types
                },
            ),
            parts.rest,
        ),
    )
}

/// The changes between the schema objects `lhs` and `rhs`, found by a walk
/// that may go `depth` pairs deep.
pub open spec fn walk(ctx: WalkContext, depth: nat, comparing_any_of: bool, lhs: NodeModel, rhs: NodeModel) -> Outcome
    decreases depth, 0int, 0int,
{
    if depth == 0 {
        None
    } else {
        assemble(comparing_any_of, walk_parts(ctx, (depth - 1) as nat, lhs, rhs))
    }
}

/// The changes between the schemas `lhs` and `rhs`.
pub open spec fn walk_schema(ctx: WalkContext, depth: nat, lhs: SchemaModel, rhs: SchemaModel) -> Outcome
    decreases depth, 1int, 0int,
{
    walk(ctx, depth, false, lhs.into_object(), rhs.into_object())
}

/// The three parts of what a walk finds at the pair `lhs` and `rhs`. On
/// each side the reference is followed and a list of types is split;
/// then the branches are aligned and compared, the types compared, the
/// constants normalized and compared, and, unless a side was split, the
/// other keywords compared.
pub open spec fn walk_parts(ctx: WalkContext, depth: nat, lhs: NodeModel, rhs: NodeModel) -> Parts
    decreases depth, 9int, 0int,
{
    let lhs_resolved = resolved(ctx.lhs, lhs);
    let rhs_resolved = resolved(ctx.rhs, rhs);
    let lhs_split = split_node(lhs_resolved);
    let rhs_split = split_node(rhs_resolved);
    let lhs_aligned = aligned(lhs_split, rhs_split);
    let rhs_aligned = aligned(rhs_split, lhs_split);
    let lhs_normal = const_normalized(lhs_aligned);
    let rhs_normal = const_normalized(rhs_aligned);
    Parts {
        branches: any_of_changes(ctx, depth, is_split(rhs_resolved), lhs_split, rhs_split),
        types: type_changes(lhs_aligned, rhs_aligned),
        rest: chain(
            Some(const_changes(lhs_normal.const_value, rhs_normal.const_value)),
            if !is_split(lhs_resolved) && !is_split(rhs_resolved) {
                facet_changes(ctx, depth, lhs_normal, rhs_normal)
            } else {
                Some(Seq::empty())
            },
        ),
    }
}

/// What the branches of `anyOf` give: nothing unless both schema objects
/// have an `anyOf`; else the branches are padded to the same number, each
/// old branch is paired with a new one so that the pairs cost least, and
/// the pairs are compared in the order of the old branches.
pub open spec fn any_of_changes(
    ctx: WalkContext,
    depth: nat,
    rhs_was_split: bool,
    lhs: NodeModel,
    rhs: NodeModel,
) -> Outcome
    decreases depth, 8int, 0int,
{
    if both_any_of(lhs, rhs) {
        let n = common_length(lhs, rhs);
        let lhs_branches = padded(lhs.any_of->Some_0, n);
        let rhs_branches = padded(rhs.any_of->Some_0, n);
        match trial_costs(ctx, depth, lhs_branches, rhs_branches, n, (n * n) as int) {
            Some(costs) => pair_changes(
                ctx,
                depth,
                rhs_was_split,
                lhs_branches,
                rhs_branches,
                kuhn_munkres_min_assignment(n, costs),
                n as int,
            ),
            None => None,
        }
    } else {
        Some(Seq::empty())
    }
}

/// The first `k` costs of the matrix, row by row: the cost in row `i` and
/// column `j` is the capped number of changes between old branch `i` and
/// new branch `j`.
pub open spec fn trial_costs(
    ctx: WalkContext,
    depth: nat,
    lhs: Seq<SchemaModel>,
    rhs: Seq<SchemaModel>,
    n: nat,
    k: int,
) -> Option<Seq<i64>>
    decreases depth, 6int, k,
{
    if k <= 0 || n == 0 {
        Some(Seq::empty())
    } else {
        match trial_costs(ctx, depth, lhs, rhs, n, k - 1) {
            Some(costs) => match walk_schema(ctx, depth, lhs[(k - 1) / (n as int)], rhs[(k - 1) % (n as int)]) {
                Some(changes) => Some(costs.push(capped(changes.len()))),
                None => None,
            },
            None => None,
        }
    }
}

/// Where the changes of the pair of old branch `i` are located: at the
/// parent itself if the new schema's `anyOf` comes from splitting its
/// types, else under the new branch's number.
pub open spec fn under_branch(rhs_was_split: bool, branch: usize, outcome: Outcome) -> Outcome {
    if rhs_was_split {
        outcome
    } else {
        under_outcome(Segment::AnyOf(branch as nat), outcome)
    }
}

/// What the first `k` pairs give: old branch `i` against new branch
/// `pairs[i]`.
pub open spec fn pair_changes(
    ctx: WalkContext,
    depth: nat,
    rhs_was_split: bool,
    lhs: Seq<SchemaModel>,
    rhs: Seq<SchemaModel>,
    pairs: Seq<usize>,
    k: int,
) -> Outcome
    decreases depth, 6int, k,
{
    if k <= 0 {
        Some(Seq::empty())
    } else {
        chain(
            pair_changes(ctx, depth, rhs_was_split, lhs, rhs, pairs, k - 1),
            under_branch(
                rhs_was_split,
                pairs[k - 1],
                walk(ctx, depth, true, lhs[k - 1].into_object(), rhs[pairs[k - 1] as int].into_object()),
            ),
        )
    }
}

/// What the keywords for values of one type give: properties, bounds on
/// numbers, the schema for undeclared properties, items, required names,
/// and the keywords for strings, in that order.
pub open spec fn facet_changes(ctx: WalkContext, depth: nat, lhs: NodeModel, rhs: NodeModel) -> Outcome
    decreases depth, 7int, 0int,
{
    chain(
        property_changes(ctx, depth, lhs, rhs),
        chain(
            Some(range_changes(number_validation(lhs), number_validation(rhs))),
            chain(
                additional_changes(ctx, depth, lhs, rhs),
                chain(
                    items_changes(ctx, depth, lhs.items, rhs.items),
                    Some(required_changes(lhs.required, rhs.required) + string_changes(lhs, rhs)),
                ),
            ),
        ),
    )
}

/// What the properties give: the names that only the old schema
/// declares, then those that only the new one declares, then what the
/// schemas of the names in both give, each list in the order of the names.
pub open spec fn property_changes(ctx: WalkContext, depth: nat, lhs: NodeModel, rhs: NodeModel) -> Outcome
    decreases depth, 6int, 0int,
{
    chain(
        Some(
            property_removals(
                lets_additional_through(lhs),
                lhs.property_names(),
                rhs.property_names(),
                lhs.properties.len() as int,
            ) + property_additions(
                lets_additional_through(lhs),
                lhs.property_names(),
                rhs.property_names(),
                rhs.properties.len() as int,
            ),
        ),
        common_properties(ctx, depth, lhs.properties, rhs.properties, rhs.properties.len() as int),
    )
}

/// What the first `n` properties of the new schema give that the old one
/// declares too.
pub open spec fn common_properties(
    ctx: WalkContext,
    depth: nat,
    lhs: Seq<(Seq<char>, SchemaModel)>,
    rhs: Seq<(Seq<char>, SchemaModel)>,
    n: int,
) -> Outcome
    decreases depth, 5int, n,
{
    if n <= 0 {
        Some(Seq::empty())
    } else {
        chain(
            common_properties(ctx, depth, lhs, rhs, n - 1),
            match find_named(lhs, rhs[n - 1].0) {
                Some(old) => under_outcome(
                    Segment::Property(rhs[n - 1].0),
                    walk_schema(ctx, depth, old, rhs[n - 1].1),
                ),
                None => Some(Seq::empty()),
            },
        )
    }
}

/// What the schemas for undeclared properties give: where both schema
/// objects have one and the two differ, the changes between them.
pub open spec fn additional_changes(ctx: WalkContext, depth: nat, lhs: NodeModel, rhs: NodeModel) -> Outcome
    decreases depth, 6int, 0int,
{
    if lhs.additional_properties is Some && rhs.additional_properties is Some && lhs.additional_properties
        != rhs.additional_properties {
        under_outcome(
            Segment::AdditionalProperties,
            walk_schema(ctx, depth, *lhs.additional_properties->Some_0, *rhs.additional_properties->Some_0),
        )
    } else {
        Some(Seq::empty())
    }
}

/// What the items give. Two lists of schemas: a `TupleChange` if their
/// lengths differ, then the schemas at the same positions. Two single
/// schemas: the changes between them. A single schema against a list: an
/// `ArrayToTuple`, then the single schema against each of the list. A
/// list against a single schema: a `TupleToArray`, then each of the list
/// against the single schema. Nothing in any other case.
pub open spec fn items_changes(ctx: WalkContext, depth: nat, lhs: Option<ItemsModel>, rhs: Option<ItemsModel>) -> Outcome
    decreases depth, 6int, 0int,
{
    match (lhs, rhs) {
        (Some(ItemsModel::Tuple(l)), Some(ItemsModel::Tuple(r))) => chain(
            Some(
                if l.len() != r.len() {
                    seq![here(ChangeKindModel::TupleChange { new_length: r.len() as usize })]
                } else {
                    Seq::empty()
                },
            ),
            tuple_changes(
                ctx,
                depth,
                l,
                r,
                if l.len() <= r.len() {
                    l.len() as int
                } else {
                    r.len() as int
                },
            ),
        ),
        (Some(ItemsModel::Single(l)), Some(ItemsModel::Single(r))) => under_outcome(
            Segment::AnyItem,
            walk_schema(ctx, depth, *l, *r),
        ),
        (Some(ItemsModel::Single(l)), Some(ItemsModel::Tuple(r))) => chain(
            Some(seq![here(ChangeKindModel::ArrayToTuple { new_length: r.len() as usize })]),
            tuple_changes(ctx, depth, Seq::new(r.len(), |i: int| *l), r, r.len() as int),
        ),
        (Some(ItemsModel::Tuple(l)), Some(ItemsModel::Single(r))) => chain(
            Some(seq![here(ChangeKindModel::TupleToArray { old_length: l.len() as usize })]),
            tuple_changes(ctx, depth, l, Seq::new(l.len(), |i: int| *r), l.len() as int),
        ),
        _ => Some(Seq::empty()),
    }
}

/// What the first `n` positions give: the old schema at position `i`
/// against the new one at the same position.
pub open spec fn tuple_changes(ctx: WalkContext, depth: nat, lhs: Seq<SchemaModel>, rhs: Seq<SchemaModel>, n: int) -> Outcome
    decreases depth, 5int, n,
{
    if n <= 0 {
        Some(Seq::empty())
    } else {
        chain(
            tuple_changes(ctx, depth, lhs, rhs, n - 1),
            under_outcome(Segment::Index((n - 1) as nat), walk_schema(ctx, depth, lhs[n - 1], rhs[n - 1])),
        )
    }
}

/// Whether the records `after` are the records `before` followed by the
/// records for `changes`, found from the path `path` on.
#[verifier::opaque]
pub open spec fn emitted(before: Seq<Change>, after: Seq<Change>, path: Seq<char>, changes: Seq<Located>) -> bool {
    change_views(after) == change_views(before) + located(path, changes)
}

/// What comparing the branches of the matrix cell `c` gives, the cells
/// counted row by row.
pub open spec fn trial(ctx: WalkContext, depth: nat, lhs: Seq<SchemaModel>, rhs: Seq<SchemaModel>, n: nat, c: int) -> Outcome {
    walk_schema(ctx, depth, lhs[c / (n as int)], rhs[c % (n as int)])
}

/// Whether a schema object admits a type.
pub open spec fn admits(node: NodeModel, t: JsonSchemaType) -> bool {
    into_set(effective_type(node)).contains(t)
}

} // verus!
