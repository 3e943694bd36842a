//! What holds of the walk: the facts that the recording functions rest
//! on, and what the library states of the changes it finds.

use vstd::prelude::*;
use crate::lattice::all_types;
use crate::lattice::effective_type;
use crate::lattice::into_set;
use crate::lattice::lemma_all_types;
use crate::lattice::type_index;
use crate::normalize::const_normalized;
use crate::normalize::is_split;
use crate::normalize::split_node;
use crate::path::Segment;
use crate::path::is_path;
use crate::path::path_text;
use crate::path::segment_text;
use crate::schema::NodeModel;
use crate::schema::SchemaModel;
use crate::types::Change;
use crate::types::ChangeKindModel;
use crate::types::JsonSchemaType;
use crate::types::change_views;
use crate::walk::Located;
use crate::walk::WalkContext;
use crate::walk::admits;
use crate::walk::aligned;
use crate::walk::any_of_changes;
use crate::walk::assemble;
use crate::walk::capped;
use crate::walk::chain;
use crate::walk::common_properties;
use crate::walk::const_changes;
use crate::walk::emitted;
use crate::walk::facet_changes;
use crate::walk::here;
use crate::walk::located;
use crate::walk::number_validation;
use crate::walk::pair_changes;
use crate::walk::property_additions;
use crate::walk::property_removals;
use crate::walk::range_changes;
use crate::walk::required_additions;
use crate::walk::required_changes;
use crate::walk::required_removals;
use crate::walk::resolved;
use crate::walk::string_changes;
use crate::walk::trial;
use crate::walk::trial_costs;
use crate::walk::tuple_changes;
use crate::walk::type_additions;
use crate::walk::type_changes;
use crate::walk::type_removals;
use crate::walk::under;
use crate::walk::under_branch;
use crate::walk::walk;
use crate::walk::walk_parts;

verus! {

/// The text of a row of segments begins with the text of its first.
pub proof fn lemma_path_text_first(segment: Segment, rest: Seq<Segment>)
    ensures
        path_text(seq![segment] + rest) == segment_text(segment) + path_text(rest),
    decreases rest.len(),
{
    let whole = seq![segment] + rest;
    if rest.len() == 0 {
        assert(whole.drop_last() =~= Seq::<Segment>::empty());
        assert(path_text(whole.drop_last()) =~= Seq::<char>::empty());
        assert(path_text(whole) =~= segment_text(segment) + path_text(rest));
    } else {
        lemma_path_text_first(segment, rest.drop_last());
        assert(whole.drop_last() =~= seq![segment] + rest.drop_last());
        assert(whole.last() == rest.last());
        assert(path_text(whole) =~= segment_text(segment) + path_text(rest));
    }
}

/// When nothing is emitted, the records stay as they are.
pub proof fn lemma_emitted_nothing(before: Seq<Change>, path: Seq<char>)
    ensures
        emitted(before, before, path, Seq::empty()),
{
    reveal(emitted);
    assert(change_views(before) =~= change_views(before) + located(path, Seq::empty()));
}

/// What is emitted in two steps is emitted in all.
pub proof fn lemma_emitted_then(
    before: Seq<Change>,
    middle: Seq<Change>,
    after: Seq<Change>,
    path: Seq<char>,
    first: Seq<Located>,
    second: Seq<Located>,
)
    requires
        emitted(before, middle, path, first),
        emitted(middle, after, path, second),
    ensures
        emitted(before, after, path, first + second),
{
    reveal(emitted);
    assert(located(path, first + second) =~= located(path, first) + located(path, second));
    assert(change_views(after) =~= change_views(before) + located(path, first + second));
}

/// What is emitted one step further down is emitted here, under that
/// step.
pub proof fn lemma_emitted_under(
    before: Seq<Change>,
    after: Seq<Change>,
    path: Seq<char>,
    segment: Segment,
    changes: Seq<Located>,
)
    requires
        emitted(before, after, path + segment_text(segment), changes),
    ensures
        emitted(before, after, path, under(segment, changes)),
{
    reveal(emitted);
    assert forall|i: int| 0 <= i < changes.len() implies located(path, under(segment, changes))[i] == located(
        path + segment_text(segment),
        changes,
    )[i] by {
        lemma_path_text_first(segment, changes[i].path);
        assert(path + (segment_text(segment) + path_text(changes[i].path)) =~= (path + segment_text(segment))
            + path_text(changes[i].path));
    }
    assert(located(path, under(segment, changes)) =~= located(path + segment_text(segment), changes));
}

/// One record more is one change emitted at the path itself.
pub proof fn lemma_emitted_one(before: Seq<Change>, record: Change)
    ensures
        emitted(before, before.push(record), record.path@, seq![here(record.change@)]),
{
    reveal(emitted);
    let path = record.path@;
    assert(path_text(Seq::<Segment>::empty()) =~= Seq::<char>::empty());
    assert(path + path_text(Seq::<Segment>::empty()) =~= path);
    assert(located(path, seq![here(record.change@)]) =~= seq![record@]);
    assert(change_views(before.push(record)) =~= change_views(before) + seq![record@]);
}

/// A pair that shows no change when compared for itself shows none when
/// compared as a pair of `anyOf` branches.
pub proof fn lemma_no_change_as_branches(ctx: WalkContext, depth: nat, lhs: NodeModel, rhs: NodeModel)
    requires
        walk(ctx, depth, false, lhs, rhs) == Some(Seq::<Located>::empty()),
    ensures
        walk(ctx, depth, true, lhs, rhs) == Some(Seq::<Located>::empty()),
{
    reveal_with_fuel(walk, 2);
    let parts = walk_parts(ctx, (depth - 1) as nat, lhs, rhs);
    let whole = assemble(false, parts);
    assert(whole == Some(Seq::<Located>::empty()));
    assert(parts.branches is Some && parts.rest is Some);
    assert(whole->Some_0 == parts.branches->Some_0 + (parts.types + parts.rest->Some_0));
    assert(parts.branches->Some_0.len() == 0);
    assert(parts.rest->Some_0.len() == 0);
    assert(parts.branches->Some_0 + (Seq::<Located>::empty() + parts.rest->Some_0) =~= Seq::<Located>::empty());
}

/// Two equal sets of types show no change of type.
pub proof fn lemma_same_types(lhs: Set<JsonSchemaType>, n: int)
    ensures
        type_removals(lhs, lhs, n) == Seq::<Located>::empty(),
        type_additions(lhs, lhs, n) == Seq::<Located>::empty(),
    decreases n,
{
    if n > 0 {
        lemma_same_types(lhs, n - 1);
    }
}

/// Two equal lists of names show no property removed and none added.
pub proof fn lemma_same_properties(open: bool, names: Seq<Seq<char>>, n: int)
    requires
        n <= names.len(),
    ensures
        property_removals(open, names, names, n) == Seq::<Located>::empty(),
        property_additions(open, names, names, n) == Seq::<Located>::empty(),
    decreases n,
{
    if n > 0 {
        lemma_same_properties(open, names, n - 1);
        assert(names.contains(names[n - 1]));
    }
}

/// Two equal lists of required names show no change.
pub proof fn lemma_same_required(names: Seq<Seq<char>>, n: int)
    requires
        n <= names.len(),
    ensures
        required_removals(names, names, n) == Seq::<Located>::empty(),
        required_additions(names, names, n) == Seq::<Located>::empty(),
    decreases n,
{
    if n > 0 {
        lemma_same_required(names, n - 1);
        assert(names.contains(names[n - 1]));
    }
}

/// A schema object compared with itself shows no change of type, of
/// constant, of bounds, of required names or of the keywords for
/// strings.
pub proof fn lemma_same_keywords(node: NodeModel)
    ensures
        type_changes(node, node) == Seq::<Located>::empty(),
        const_changes(node.const_value, node.const_value) == Seq::<Located>::empty(),
        range_changes(number_validation(node), number_validation(node)) == Seq::<Located>::empty(),
        required_changes(node.required, node.required) == Seq::<Located>::empty(),
        string_changes(node, node) == Seq::<Located>::empty(),
{
    reveal(type_changes);
    reveal(const_changes);
    lemma_same_types(into_set(effective_type(node)), 7);
    lemma_same_required(node.required, node.required.len() as int);
    assert(type_changes(node, node) =~= Seq::<Located>::empty());
    assert(range_changes(number_validation(node), number_validation(node)) =~= Seq::<Located>::empty());
    assert(required_changes(node.required, node.required) =~= Seq::<Located>::empty());
    assert(string_changes(node, node) =~= Seq::<Located>::empty());
}

/// Once a trial has gone too deep, the matrix has no costs.
pub proof fn lemma_trial_costs_none(
    ctx: WalkContext,
    depth: nat,
    lhs: Seq<SchemaModel>,
    rhs: Seq<SchemaModel>,
    n: nat,
    k: int,
    m: int,
)
    requires
        trial_costs(ctx, depth, lhs, rhs, n, k) is None,
        k <= m,
    ensures
        trial_costs(ctx, depth, lhs, rhs, n, m) is None,
    decreases m - k,
{
    reveal_with_fuel(trial_costs, 2);
    if k < m {
        lemma_trial_costs_none(ctx, depth, lhs, rhs, n, k, m - 1);
    }
}

/// Each cost of the matrix is the capped number of changes between the
/// old branch of its row and the new branch of its column.
pub proof fn lemma_trial_costs_cells(
    ctx: WalkContext,
    depth: nat,
    lhs: Seq<SchemaModel>,
    rhs: Seq<SchemaModel>,
    n: nat,
    k: int,
)
    requires
        trial_costs(ctx, depth, lhs, rhs, n, k) is Some,
        n > 0,
        0 <= k,
    ensures
        trial_costs(ctx, depth, lhs, rhs, n, k)->Some_0.len() == k,
        forall|c: int| 0 <= c < k ==> (#[trigger] trial(ctx, depth, lhs, rhs, n, c)) is Some,
        forall|c: int|
            0 <= c < k ==> trial_costs(ctx, depth, lhs, rhs, n, k)->Some_0[c] == capped(
                (#[trigger] trial(ctx, depth, lhs, rhs, n, c))->Some_0.len(),
            ),
    decreases k,
{
    reveal_with_fuel(trial_costs, 2);
    if k > 0 {
        lemma_trial_costs_cells(ctx, depth, lhs, rhs, n, k - 1);
        let before = trial_costs(ctx, depth, lhs, rhs, n, k - 1)->Some_0;
        let whole = trial_costs(ctx, depth, lhs, rhs, n, k)->Some_0;
        assert(trial(ctx, depth, lhs, rhs, n, k - 1) is Some);
        assert(whole == before.push(capped(trial(ctx, depth, lhs, rhs, n, k - 1)->Some_0.len())));
        assert forall|c: int| 0 <= c < k implies whole[c] == capped(
            (#[trigger] trial(ctx, depth, lhs, rhs, n, c))->Some_0.len(),
        ) by {
            if c < k - 1 {
                assert(whole[c] == before[c]);
            }
        }
    }
}

/// Once a pair has gone too deep, the pairs give no outcome.
pub proof fn lemma_pair_changes_none(
    ctx: WalkContext,
    depth: nat,
    rhs_was_split: bool,
    lhs: Seq<SchemaModel>,
    rhs: Seq<SchemaModel>,
    pairs: Seq<usize>,
    k: int,
    m: int,
)
    requires
        pair_changes(ctx, depth, rhs_was_split, lhs, rhs, pairs, k) is None,
        k <= m,
    ensures
        pair_changes(ctx, depth, rhs_was_split, lhs, rhs, pairs, m) is None,
    decreases m - k,
{
    reveal_with_fuel(pair_changes, 2);
    if k < m {
        lemma_pair_changes_none(ctx, depth, rhs_was_split, lhs, rhs, pairs, k, m - 1);
    }
}

/// Where no pair shows a change, the pairs give no change.
pub proof fn lemma_pair_changes_nothing(
    ctx: WalkContext,
    depth: nat,
    rhs_was_split: bool,
    lhs: Seq<SchemaModel>,
    rhs: Seq<SchemaModel>,
    pairs: Seq<usize>,
    k: int,
)
    requires
        forall|i: int|
            0 <= i < k ==> #[trigger] walk(ctx, depth, true, lhs[i].into_object(), rhs[pairs[i] as int].into_object())
                == Some(Seq::<Located>::empty()),
    ensures
        pair_changes(ctx, depth, rhs_was_split, lhs, rhs, pairs, k) == Some(Seq::<Located>::empty()),
    decreases k,
{
    reveal_with_fuel(pair_changes, 2);
    if k > 0 {
        lemma_pair_changes_nothing(ctx, depth, rhs_was_split, lhs, rhs, pairs, k - 1);
        let one = walk(ctx, depth, true, lhs[k - 1].into_object(), rhs[pairs[k - 1] as int].into_object());
        assert(one == Some(Seq::<Located>::empty()));
        let placed = under_branch(rhs_was_split, pairs[k - 1], one);
        assert(placed->Some_0 =~= Seq::<Located>::empty());
        assert(Seq::<Located>::empty() + placed->Some_0 =~= Seq::<Located>::empty());
    }
}

/// Once a property has gone too deep, the properties give no outcome.
pub proof fn lemma_common_properties_none(
    ctx: WalkContext,
    depth: nat,
    lhs: Seq<(Seq<char>, SchemaModel)>,
    rhs: Seq<(Seq<char>, SchemaModel)>,
    k: int,
    m: int,
)
    requires
        common_properties(ctx, depth, lhs, rhs, k) is None,
        k <= m,
    ensures
        common_properties(ctx, depth, lhs, rhs, m) is None,
    decreases m - k,
{
    reveal_with_fuel(common_properties, 2);
    if k < m {
        lemma_common_properties_none(ctx, depth, lhs, rhs, k, m - 1);
    }
}

/// Once a position has gone too deep, the positions give no outcome.
pub proof fn lemma_tuple_changes_none(
    ctx: WalkContext,
    depth: nat,
    lhs: Seq<SchemaModel>,
    rhs: Seq<SchemaModel>,
    k: int,
    m: int,
)
    requires
        tuple_changes(ctx, depth, lhs, rhs, k) is None,
        k <= m,
    ensures
        tuple_changes(ctx, depth, lhs, rhs, m) is None,
    decreases m - k,
{
    reveal_with_fuel(tuple_changes, 2);
    if k < m {
        lemma_tuple_changes_none(ctx, depth, lhs, rhs, k, m - 1);
    }
}

/// The text of two rows of segments, one after the other, is the text of
/// the first followed by the text of the second.
pub proof fn lemma_path_text_concat(first: Seq<Segment>, second: Seq<Segment>)
    ensures
        path_text(first + second) == path_text(first) + path_text(second),
    decreases second.len(),
{
    if second.len() == 0 {
        assert(first + second =~= first);
        assert(path_text(first) + path_text(second) =~= path_text(first));
    } else {
        lemma_path_text_concat(first, second.drop_last());
        assert((first + second).drop_last() =~= first + second.drop_last());
        assert((first + second).last() == second.last());
        assert(path_text(first + second) =~= path_text(first) + path_text(second));
    }
}

/// Every change found from a path on is located by a path: by the empty
/// text, or by a row of segments each of which is a dot followed by a
/// property's name, by the number of a position, by `?`, by
/// `<additionalProperties>` or by `<anyOf:` with the number of a branch
/// and `>`.
pub proof fn lemma_located_paths(parent: Seq<char>, changes: Seq<Located>, i: int)
    requires
        is_path(parent),
        0 <= i < changes.len(),
    ensures
        is_path(located(parent, changes)[i].path),
{
    let segments = choose|segments: Seq<Segment>| path_text(segments) == parent;
    lemma_path_text_concat(segments, changes[i].path);
    assert(path_text(segments + changes[i].path) == located(parent, changes)[i].path);
}

/// What a walk finds at a pair, spelled out step by step.
pub proof fn lemma_walk_steps(ctx: WalkContext, depth: nat, comparing_any_of: bool, lhs: NodeModel, rhs: NodeModel)
    requires
        depth > 0,
    ensures
        walk(ctx, depth, comparing_any_of, lhs, rhs) == chain(
            any_of_changes(
                ctx,
                (depth - 1) as nat,
                is_split(resolved(ctx.rhs, rhs)),
                split_node(resolved(ctx.lhs, lhs)),
                split_node(resolved(ctx.rhs, rhs)),
            ),
            chain(
                Some(
                    if comparing_any_of {
                        Seq::empty()
                    } else {
                        type_changes(
                            aligned(split_node(resolved(ctx.lhs, lhs)), split_node(resolved(ctx.rhs, rhs))),
                            aligned(split_node(resolved(ctx.rhs, rhs)), split_node(resolved(ctx.lhs, lhs))),
                        )
                    },
                ),
                chain(
                    Some(
                        const_changes(
                            const_normalized(
                                aligned(split_node(resolved(ctx.lhs, lhs)), split_node(resolved(ctx.rhs, rhs))),
                            ).const_value,
                            const_normalized(
                                aligned(split_node(resolved(ctx.rhs, rhs)), split_node(resolved(ctx.lhs, lhs))),
                            ).const_value,
                        ),
                    ),
                    if !is_split(resolved(ctx.lhs, lhs)) && !is_split(resolved(ctx.rhs, rhs)) {
                        facet_changes(
                            ctx,
                            (depth - 1) as nat,
                            const_normalized(
                                aligned(split_node(resolved(ctx.lhs, lhs)), split_node(resolved(ctx.rhs, rhs))),
                            ),
                            const_normalized(
                                aligned(split_node(resolved(ctx.rhs, rhs)), split_node(resolved(ctx.lhs, lhs))),
                            ),
                        )
                    } else {
                        Some(Seq::empty())
                    },
                ),
            ),
        ),
{
    reveal_with_fuel(walk, 2);
    reveal_with_fuel(walk_parts, 2);
}

/// A schema object compared with itself in one and the same document
/// shows no change, if its branches show none and its other keywords
/// show none.
pub proof fn lemma_same_walk(ctx: WalkContext, depth: nat, comparing_any_of: bool, node: NodeModel)
    requires
        depth > 0,
        ctx.lhs == ctx.rhs,
        any_of_changes(
            ctx,
            (depth - 1) as nat,
            is_split(resolved(ctx.lhs, node)),
            split_node(resolved(ctx.lhs, node)),
            split_node(resolved(ctx.lhs, node)),
        ) == Some(Seq::<Located>::empty()),
        !is_split(resolved(ctx.lhs, node)) ==> facet_changes(
            ctx,
            (depth - 1) as nat,
            const_normalized(aligned(split_node(resolved(ctx.lhs, node)), split_node(resolved(ctx.lhs, node)))),
            const_normalized(aligned(split_node(resolved(ctx.lhs, node)), split_node(resolved(ctx.lhs, node)))),
        ) == Some(Seq::<Located>::empty()),
    ensures
        walk(ctx, depth, comparing_any_of, node, node) == Some(Seq::<Located>::empty()),
{
    lemma_walk_steps(ctx, depth, comparing_any_of, node, node);
    let prepared = split_node(resolved(ctx.lhs, node));
    let lined = aligned(prepared, prepared);
    lemma_same_keywords(lined);
    lemma_same_keywords(const_normalized(lined));
    let empty = Seq::<Located>::empty();
    assert(empty + empty =~= empty);
}

/// The removals among the first `n` types are, in the fixed order, the
/// types that `lhs` has and `rhs` lacks.
pub proof fn lemma_type_removals(lhs: Set<JsonSchemaType>, rhs: Set<JsonSchemaType>, n: int)
    requires
        0 <= n <= 7,
    ensures
        forall|i: int|
            0 <= i < type_removals(lhs, rhs, n).len() ==> {
                let found = #[trigger] type_removals(lhs, rhs, n)[i];
                &&& found.path == Seq::<Segment>::empty()
                &&& found.change is TypeRemove
                &&& type_index(found.change->TypeRemove_removed) < n
                &&& lhs.contains(found.change->TypeRemove_removed)
                &&& !rhs.contains(found.change->TypeRemove_removed)
            },
        forall|i: int, j: int|
            0 <= i < j < type_removals(lhs, rhs, n).len() ==> type_index(
                type_removals(lhs, rhs, n)[i].change->TypeRemove_removed,
            ) < type_index(type_removals(lhs, rhs, n)[j].change->TypeRemove_removed),
        forall|t: JsonSchemaType|
            type_index(t) < n && lhs.contains(t) && !rhs.contains(t) ==> type_removals(lhs, rhs, n).contains(
                here(ChangeKindModel::TypeRemove { removed: t }),
            ),
    decreases n,
{
    if n > 0 {
        lemma_type_removals(lhs, rhs, n - 1);
        let before = type_removals(lhs, rhs, n - 1);
        let whole = type_removals(lhs, rhs, n);
        let last = all_types()[n - 1];
        lemma_all_types(last);
        assert(type_index(last) == n - 1);
        assert forall|t: JsonSchemaType|
            type_index(t) < n && lhs.contains(t) && !rhs.contains(t) implies whole.contains(
            here(ChangeKindModel::TypeRemove { removed: t }),
        ) by {
            lemma_all_types(t);
            if type_index(t) < n - 1 {
                let k = choose|k: int|
                    0 <= k < before.len() && before[k] == here(ChangeKindModel::TypeRemove { removed: t });
                assert(whole[k] == before[k]);
            } else {
                assert(t == last);
                assert(whole[whole.len() - 1] == here(ChangeKindModel::TypeRemove { removed: t }));
            }
        }
    }
}

/// The additions among the first `n` types are, in the fixed order, the
/// types that `rhs` has and `lhs` lacks.
pub proof fn lemma_type_additions(lhs: Set<JsonSchemaType>, rhs: Set<JsonSchemaType>, n: int)
    requires
        0 <= n <= 7,
    ensures
        forall|i: int|
            0 <= i < type_additions(lhs, rhs, n).len() ==> {
                let found = #[trigger] type_additions(lhs, rhs, n)[i];
                &&& found.path == Seq::<Segment>::empty()
                &&& found.change is TypeAdd
                &&& type_index(found.change->TypeAdd_added) < n
                &&& rhs.contains(found.change->TypeAdd_added)
                &&& !lhs.contains(found.change->TypeAdd_added)
            },
        forall|i: int, j: int|
            0 <= i < j < type_additions(lhs, rhs, n).len() ==> type_index(
                type_additions(lhs, rhs, n)[i].change->TypeAdd_added,
            ) < type_index(type_additions(lhs, rhs, n)[j].change->TypeAdd_added),
        forall|t: JsonSchemaType|
            type_index(t) < n && rhs.contains(t) && !lhs.contains(t) ==> type_additions(lhs, rhs, n).contains(
                here(ChangeKindModel::TypeAdd { added: t }),
            ),
    decreases n,
{
    if n > 0 {
        lemma_type_additions(lhs, rhs, n - 1);
        let before = type_additions(lhs, rhs, n - 1);
        let whole = type_additions(lhs, rhs, n);
        let last = all_types()[n - 1];
        lemma_all_types(last);
        assert(type_index(last) == n - 1);
        assert forall|t: JsonSchemaType|
            type_index(t) < n && rhs.contains(t) && !lhs.contains(t) implies whole.contains(
            here(ChangeKindModel::TypeAdd { added: t }),
        ) by {
            lemma_all_types(t);
            if type_index(t) < n - 1 {
                let k = choose|k: int|
                    0 <= k < before.len() && before[k] == here(ChangeKindModel::TypeAdd { added: t });
                assert(whole[k] == before[k]);
            } else {
                assert(t == last);
                assert(whole[whole.len() - 1] == here(ChangeKindModel::TypeAdd { added: t }));
            }
        }
    }
}

/// The changes of type between two schema objects are exactly the types
/// that one of them admits and the other does not: a `TypeRemove` for
/// each type that only the old one admits, a `TypeAdd` for each type
/// that only the new one admits, each once, and nothing else.
pub proof fn lemma_type_changes(lhs: NodeModel, rhs: NodeModel)
    ensures
        forall|t: JsonSchemaType|
            #[trigger] type_changes(lhs, rhs).contains(here(ChangeKindModel::TypeRemove { removed: t })) <==> admits(
                lhs,
                t,
            ) && !admits(rhs, t),
        forall|t: JsonSchemaType|
            #[trigger] type_changes(lhs, rhs).contains(here(ChangeKindModel::TypeAdd { added: t })) <==> admits(rhs, t)
                && !admits(lhs, t),
        forall|i: int|
            0 <= i < type_changes(lhs, rhs).len() ==> {
                let found = #[trigger] type_changes(lhs, rhs)[i];
                &&& found.path == Seq::<Segment>::empty()
                &&& found.change is TypeRemove || found.change is TypeAdd
            },
        type_changes(lhs, rhs).no_duplicates(),
{
    reveal(type_changes);
    let l = into_set(effective_type(lhs));
    let r = into_set(effective_type(rhs));
    let removed = type_removals(l, r, 7);
    let added = type_additions(l, r, 7);
    let whole = removed + added;
    lemma_type_removals(l, r, 7);
    lemma_type_additions(l, r, 7);
    assert forall|t: JsonSchemaType|
        #[trigger] whole.contains(here(ChangeKindModel::TypeRemove { removed: t })) <==> admits(lhs, t) && !admits(
            rhs,
            t,
        ) by {
        let wanted = here(ChangeKindModel::TypeRemove { removed: t });
        lemma_all_types(t);
        if whole.contains(wanted) {
            let k = choose|k: int| 0 <= k < whole.len() && whole[k] == wanted;
            if k < removed.len() {
                assert(removed[k] == wanted);
            } else {
                assert(added[k - removed.len()] == wanted);
            }
        }
        if l.contains(t) && !r.contains(t) {
            let k = choose|k: int| 0 <= k < removed.len() && removed[k] == wanted;
            assert(whole[k] == wanted);
        }
    }
    assert forall|t: JsonSchemaType|
        #[trigger] whole.contains(here(ChangeKindModel::TypeAdd { added: t })) <==> admits(rhs, t) && !admits(
            lhs,
            t,
        ) by {
        let wanted = here(ChangeKindModel::TypeAdd { added: t });
        lemma_all_types(t);
        if whole.contains(wanted) {
            let k = choose|k: int| 0 <= k < whole.len() && whole[k] == wanted;
            if k < removed.len() {
                assert(removed[k] == wanted);
            } else {
                assert(added[k - removed.len()] == wanted);
            }
        }
        if r.contains(t) && !l.contains(t) {
            let k = choose|k: int| 0 <= k < added.len() && added[k] == wanted;
            assert(whole[removed.len() + k] == wanted);
        }
    }
    assert forall|i: int| 0 <= i < whole.len() implies {
        let found = #[trigger] whole[i];
        &&& found.path == Seq::<Segment>::empty()
        &&& found.change is TypeRemove || found.change is TypeAdd
    } by {
        if i < removed.len() {
            assert(whole[i] == removed[i]);
        } else {
            assert(whole[i] == added[i - removed.len()]);
        }
    }
    assert forall|i: int, j: int| 0 <= i < whole.len() && 0 <= j < whole.len() && i != j implies whole[i]
        != whole[j] by {
        let a = if i < j {
            i
        } else {
            j
        };
        let b = if i < j {
            j
        } else {
            i
        };
        if b < removed.len() {
            assert(whole[a] == removed[a] && whole[b] == removed[b]);
        } else if a >= removed.len() {
            assert(whole[a] == added[a - removed.len()] && whole[b] == added[b - removed.len()]);
        } else {
            assert(whole[a] == removed[a] && whole[b] == added[b - removed.len()]);
        }
    }
}

} // verus!
