//! The walk over two schemas that records their changes.

use vstd::prelude::*;
use vstd::arithmetic::div_mod::lemma_fundamental_div_mod_converse;
use crate::align::COST_CAP;
use crate::align::cell;
use crate::align::is_cost_matrix;
use crate::align::lemma_cell_index;
use crate::align::lemma_zero_diagonal;
use crate::align::min_cost_pairs;
use crate::facets::diff_const;
use crate::facets::diff_instance_types;
use crate::facets::diff_range;
use crate::facets::diff_required;
use crate::facets::diff_strings;
use crate::facets::emit;
use crate::facts::lemma_common_properties_none;
use crate::facts::lemma_emitted_nothing;
use crate::facts::lemma_emitted_then;
use crate::facts::lemma_emitted_under;
use crate::facts::lemma_no_change_as_branches;
use crate::facts::lemma_pair_changes_none;
use crate::facts::lemma_pair_changes_nothing;
use crate::facts::lemma_same_keywords;
use crate::facts::lemma_same_properties;
use crate::facts::lemma_same_walk;
use crate::facts::lemma_trial_costs_cells;
use crate::facts::lemma_trial_costs_none;
use crate::facts::lemma_tuple_changes_none;
use crate::facts::lemma_walk_steps;
use crate::normalize::split_types;
use crate::path::Segment;
use crate::path::additional_properties_path;
use crate::path::any_item_path;
use crate::path::any_of_path;
use crate::path::index_path;
use crate::path::property_path;
use crate::resolver::Resolver;
use crate::resolver::ref_table;
use crate::resolver::resolve;
use crate::schema::Items;
use crate::schema::NodeModel;
use crate::schema::RootSchema;
use crate::schema::Schema;
use crate::schema::SchemaModel;
use crate::schema::SchemaObject;
use crate::schema::lemma_find_named;
use crate::schema::lemma_schema_views;
use crate::schema::schema_views;
use crate::types::Change;
use crate::types::ChangeKind;
use crate::types::ChangeKindModel;
use crate::types::Error;
use crate::walk::Located;
use crate::walk::Outcome;
use crate::walk::WalkContext;
use crate::walk::additional_changes;
use crate::walk::aligned;
use crate::walk::any_of_changes;
use crate::walk::capped;
use crate::walk::common_length;
use crate::walk::common_properties;
use crate::walk::const_changes;
use crate::walk::emitted;
use crate::walk::facet_changes;
use crate::walk::here;
use crate::walk::items_changes;
use crate::walk::lets_additional_through;
use crate::walk::number_validation;
use crate::walk::padded;
use crate::walk::pair_changes;
use crate::walk::property_additions;
use crate::walk::property_changes;
use crate::walk::property_removals;
use crate::walk::range_changes;
use crate::walk::required_changes;
use crate::walk::resolved;
use crate::walk::string_changes;
use crate::walk::trial;
use crate::walk::trial_costs;
use crate::walk::tuple_changes;
use crate::walk::type_changes;
use crate::walk::under;
use crate::walk::under_branch;
use crate::walk::under_outcome;
use crate::walk::walk;
use crate::walk::walk_schema;

verus! {

/// The two documents under comparison, each with its table of
/// references.
pub struct Documents {
    lhs_root: RootSchema,
    rhs_root: RootSchema,
    lhs_resolver: Resolver,
    rhs_resolver: Resolver,
}

impl View for Documents {
    type V = WalkContext;

    closed spec fn view(&self) -> WalkContext {
        WalkContext { lhs: self.lhs_root@, rhs: self.rhs_root@ }
    }
}

impl Documents {
    #[verifier::type_invariant]
    closed spec fn tables_fit(&self) -> bool {
        &&& self.lhs_resolver@ == ref_table(self.lhs_root@)
        &&& self.rhs_resolver@ == ref_table(self.rhs_root@)
    }

    /// The old document `lhs_root` and the new document `rhs_root`, with
    /// their tables of references.
    pub fn new(lhs_root: RootSchema, rhs_root: RootSchema) -> (r: Documents)
        ensures
            r@ == (WalkContext { lhs: lhs_root@, rhs: rhs_root@ }),
    {
        let lhs_resolver = Resolver::for_schema(&lhs_root);
        let rhs_resolver = Resolver::for_schema(&rhs_root);
        Documents { lhs_root, rhs_root, lhs_resolver, rhs_resolver }
    }

    /// The old document.
    pub fn lhs_root(&self) -> (r: &RootSchema)
        ensures
            r@ == self@.lhs,
    {
        &self.lhs_root
    }

    /// The new document.
    pub fn rhs_root(&self) -> (r: &RootSchema)
        ensures
            r@ == self@.rhs,
    {
        &self.rhs_root
    }

    /// The schema object that stands for `node` in the old document once
    /// its reference is followed, if it has one that means a definition.
    fn follow_lhs(&self, node: &SchemaObject) -> (r: Option<SchemaObject>)
        ensures
            (match r {
                Some(o) => o@,
                None => node@,
            }) == resolved(self@.lhs, node@),
    {
        proof {
            reveal(resolved);
            use_type_invariant(self);
            node.lemma_view();
        }
        match &node.reference {
            Some(reference) => match self.lhs_resolver.resolve(&self.lhs_root, reference.as_str()) {
                Some(schema) => Some(schema.clone().into_object()),
                None => None,
            },
            None => None,
        }
    }

    /// The schema object that stands for `node` in the new document once
    /// its reference is followed, if it has one that means a definition.
    fn follow_rhs(&self, node: &SchemaObject) -> (r: Option<SchemaObject>)
        ensures
            (match r {
                Some(o) => o@,
                None => node@,
            }) == resolved(self@.rhs, node@),
    {
        proof {
            reveal(resolved);
            use_type_invariant(self);
            node.lemma_view();
        }
        match &node.reference {
            Some(reference) => match self.rhs_resolver.resolve(&self.rhs_root, reference.as_str()) {
                Some(schema) => Some(schema.clone().into_object()),
                None => None,
            },
            None => None,
        }
    }
}

/// Follows the references of both schema objects: each that has a `$ref`
/// which means a definition in its own document becomes that definition.
pub fn resolve_references(documents: &Documents, lhs: &mut SchemaObject, rhs: &mut SchemaObject)
    ensures
        final(lhs)@ == resolved(documents@.lhs, old(lhs)@),
        final(rhs)@ == resolved(documents@.rhs, old(rhs)@),
{
    match documents.follow_lhs(lhs) {
        Some(inner) => {
            *lhs = inner;
        },
        None => {},
    }
    match documents.follow_rhs(rhs) {
        Some(inner) => {
            *rhs = inner;
        },
        None => {},
    }
}

/// Whether a walk reported what it was to find: on success, the records
/// of `outcome` after those that were there; on failure, that it had to
/// go too deep.
pub open spec fn reported(
    result: Result<(), Error>,
    outcome: Outcome,
    before: Seq<Change>,
    after: Seq<Change>,
    path: Seq<char>,
) -> bool {
    match result {
        Ok(_) => outcome is Some && emitted(before, after, path, outcome->Some_0),
        Err(e) => outcome is None && e is DiffDepth,
    }
}

/// Whether the two sides of a comparison are the same: the same
/// documents and the same schemas.
pub open spec fn same_sides<T>(ctx: WalkContext, lhs: T, rhs: T) -> bool {
    ctx.lhs == ctx.rhs && lhs == rhs
}

/// Pads the branches of `anyOf` with `false` until there are `n`.
fn pad_branches(node: &mut SchemaObject, n: usize)
    requires
        old(node)@.any_of is Some,
    ensures
        final(node)@ == (NodeModel { any_of: Some(padded(old(node)@.any_of->Some_0, n as nat)), ..old(node)@ }),
        final(node).any_of is Some,
        schema_views(final(node).any_of->Some_0@) == padded(old(node)@.any_of->Some_0, n as nat),
{
    proof {
        node.lemma_view();
    }
    let mut branches = match node.any_of.take() {
        Some(b) => b,
        None => Vec::new(),
    };
    let ghost given = branches@;
    while branches.len() < n
        invariant
            given.len() <= branches@.len(),
            branches@.len() <= n || branches@.len() == given.len(),
            forall|k: int| 0 <= k < given.len() ==> branches@[k] == given[k],
            forall|k: int| given.len() <= k < branches@.len() ==> branches@[k] == Schema::Bool(false),
        decreases n - branches@.len(),
    {
        branches.push(Schema::Bool(false));
    }
    proof {
        lemma_schema_views(branches@);
        lemma_schema_views(given);
        assert forall|k: int| 0 <= k < branches@.len() implies schema_views(branches@)[k] == padded(
            schema_views(given),
            n as nat,
        )[k] by {
            if k >= given.len() {
                branches@[k].lemma_view();
            }
        }
        assert(schema_views(branches@) =~= padded(schema_views(given), n as nat));
    }
    node.any_of = Some(branches);
    proof {
        node.lemma_view();
        reveal_with_fuel(SchemaObject::model, 2);
    }
}

/// Records the changes between two schemas, found by a walk that may go
/// `depth` pairs deep. With the same documents and the same schema on
/// both sides a walk that comes to an end finds nothing.
pub fn diff_schemas(
    documents: &Documents,
    sink: &mut Vec<Change>,
    depth: usize,
    json_path: &str,
    lhs: &Schema,
    rhs: &Schema,
) -> (r: Result<(), Error>)
    ensures
        reported(r, walk_schema(documents@, depth as nat, lhs@, rhs@), old(sink)@, final(sink)@, json_path@),
        same_sides(documents@, lhs@, rhs@) && r is Ok ==> walk_schema(documents@, depth as nat, lhs@, rhs@) == Some(
            Seq::<Located>::empty(),
        ),
    decreases depth, 1int,
{
    proof {
        reveal_with_fuel(walk_schema, 2);
    }
    let l = lhs.clone().into_object();
    let r = rhs.clone().into_object();
    do_diff(documents, sink, depth, json_path, false, l, r)
}

/// Records the changes between two schema objects, found by a walk that
/// may go `depth` pairs deep: what the branches of `anyOf` give; the
/// changes of type, unless the pair is itself a pair of `anyOf` branches;
/// the change of constant; and, unless a list of types was split on
/// either side, what the other keywords give.
pub fn do_diff(
    documents: &Documents,
    sink: &mut Vec<Change>,
    depth: usize,
    json_path: &str,
    comparing_any_of: bool,
    lhs: SchemaObject,
    rhs: SchemaObject,
) -> (r: Result<(), Error>)
    ensures
        reported(
            r,
            walk(documents@, depth as nat, comparing_any_of, lhs@, rhs@),
            old(sink)@,
            final(sink)@,
            json_path@,
        ),
        same_sides(documents@, lhs@, rhs@) && r is Ok ==> walk(documents@, depth as nat, comparing_any_of, lhs@, rhs@)
            == Some(Seq::<Located>::empty()),
    decreases depth, 0int,
{
    if depth == 0 {
        proof {
            reveal_with_fuel(walk, 1);
        }
        return Err(Error::DiffDepth);
    }
    let ghost ctx = documents@;
    let ghost given = lhs@;
    let ghost same = same_sides(ctx, lhs@, rhs@);
    proof {
        lemma_walk_steps(ctx, depth as nat, comparing_any_of, lhs@, rhs@);
    }
    let mut lhs = lhs;
    let mut rhs = rhs;
    resolve_references(documents, &mut lhs, &mut rhs);
    let is_lhs_split = split_types(&mut lhs);
    let is_rhs_split = split_types(&mut rhs);
    let ghost s0 = sink@;
    let ghost branches = any_of_changes(ctx, (depth - 1) as nat, is_rhs_split, lhs@, rhs@);
    match diff_any_of(documents, sink, depth - 1, json_path, is_rhs_split, &mut lhs, &mut rhs) {
        Err(e) => {
            return Err(e);
        },
        Ok(_) => {},
    }
    let ghost s1 = sink@;
    let ghost types = if comparing_any_of {
        Seq::<Located>::empty()
    } else {
        type_changes(lhs@, rhs@)
    };
    if !comparing_any_of {
        diff_instance_types(sink, json_path, &lhs, &rhs);
    } else {
        proof {
            lemma_emitted_nothing(s1, json_path@);
        }
    }
    let ghost s2 = sink@;
    diff_const(sink, json_path, &mut lhs, &mut rhs);
    let ghost s3 = sink@;
    let ghost consts = const_changes(lhs@.const_value, rhs@.const_value);
    let ghost facets = if !is_lhs_split && !is_rhs_split {
        facet_changes(ctx, (depth - 1) as nat, lhs@, rhs@)
    } else {
        Some(Seq::<Located>::empty())
    };
    if !is_lhs_split && !is_rhs_split {
        match diff_facets(documents, sink, depth - 1, json_path, &lhs, &rhs) {
            Err(e) => {
                return Err(e);
            },
            Ok(_) => {},
        }
    } else {
        proof {
            lemma_emitted_nothing(s3, json_path@);
        }
    }
    proof {
        lemma_emitted_then(s2, s3, sink@, json_path@, consts, facets->Some_0);
        lemma_emitted_then(s1, s2, sink@, json_path@, types, consts + facets->Some_0);
        lemma_emitted_then(s0, s1, sink@, json_path@, branches->Some_0, types + (consts + facets->Some_0));
        if same {
            lemma_same_walk(ctx, depth as nat, comparing_any_of, given);
        }
    }
    Ok(())
}

/// The costs of pairing each old branch with each new branch, row by
/// row: the number of changes between the two, counted no further than
/// the cap.
pub fn cost_matrix(documents: &Documents, depth: usize, lhs: &Vec<Schema>, rhs: &Vec<Schema>) -> (r: Result<
    Vec<i64>,
    Error,
>)
    requires
        lhs@.len() == rhs@.len(),
    ensures
        match r {
            Ok(costs) => trial_costs(
                documents@,
                depth as nat,
                schema_views(lhs@),
                schema_views(rhs@),
                lhs@.len(),
                (lhs@.len() * lhs@.len()) as int,
            ) == Some(costs@) && is_cost_matrix(lhs@.len(), costs@) && (same_sides(
                documents@,
                schema_views(lhs@),
                schema_views(rhs@),
            ) ==> forall|i: int| 0 <= i < lhs@.len() ==> #[trigger] cell(lhs@.len(), costs@, i, i) == 0),
            Err(e) => trial_costs(
                documents@,
                depth as nat,
                schema_views(lhs@),
                schema_views(rhs@),
                lhs@.len(),
                (lhs@.len() * lhs@.len()) as int,
            ) is None && e is DiffDepth,
        },
    decreases depth, 6int,
{
    let n = lhs.len();
    let ghost ctx = documents@;
    let ghost ls = schema_views(lhs@);
    let ghost rs = schema_views(rhs@);
    let ghost same = same_sides(ctx, ls, rs);
    let mut costs: Vec<i64> = Vec::new();
    proof {
        reveal_with_fuel(trial_costs, 2);
        lemma_schema_views(lhs@);
        lemma_schema_views(rhs@);
        assert(0 * n == 0) by (nonlinear_arith);
    }
    let mut i: usize = 0;
    while i < n
        invariant
            n == lhs@.len(),
            n == rhs@.len(),
            ctx == documents@,
            ls == schema_views(lhs@),
            rs == schema_views(rhs@),
            same == same_sides(ctx, ls, rs),
            i <= n,
            costs@.len() == i * n,
            trial_costs(ctx, depth as nat, ls, rs, n as nat, i * n) == Some(costs@),
            forall|c: int| 0 <= c < costs@.len() ==> 0 <= #[trigger] costs@[c] <= COST_CAP,
            same ==> forall|a: int| 0 <= a < i ==> #[trigger] cell(n as nat, costs@, a, a) == 0,
        decreases n - i,
    {
        let mut j: usize = 0;
        while j < n
            invariant
                n == lhs@.len(),
                n == rhs@.len(),
                ctx == documents@,
                ls == schema_views(lhs@),
                rs == schema_views(rhs@),
                same == same_sides(ctx, ls, rs),
                i < n,
                j <= n,
                costs@.len() == i * n + j,
                trial_costs(ctx, depth as nat, ls, rs, n as nat, i * n + j) == Some(costs@),
                forall|c: int| 0 <= c < costs@.len() ==> 0 <= #[trigger] costs@[c] <= COST_CAP,
                same ==> forall|a: int| 0 <= a < i ==> #[trigger] cell(n as nat, costs@, a, a) == 0,
                same && j > i ==> cell(n as nat, costs@, i as int, i as int) == 0,
            decreases n - j,
        {
            let ghost k = i * n + j;
            let ghost before = costs@;
            proof {
                lemma_fundamental_div_mod_converse(k, n as int, i as int, j as int);
                lemma_cell_index(n as nat, i as int, j as int);
                lemma_schema_views(lhs@);
                lemma_schema_views(rhs@);
                reveal_with_fuel(trial_costs, 2);
            }
            let mut scratch: Vec<Change> = Vec::new();
            match diff_schemas(documents, &mut scratch, depth, "", &lhs[i], &rhs[j]) {
                Err(e) => {
                    proof {
                        assert(trial_costs(ctx, depth as nat, ls, rs, n as nat, k + 1) is None);
                        lemma_trial_costs_none(ctx, depth as nat, ls, rs, n as nat, k + 1, n * n);
                    }
                    return Err(e);
                },
                Ok(_) => {},
            }
            let count = scratch.len();
            let cost: i64 = if count >= 0x7fff_ffff {
                COST_CAP
            } else {
                count as i64
            };
            costs.push(cost);
            proof {
                let found = walk_schema(ctx, depth as nat, ls[i as int], rs[j as int]);
                assert(found is Some);
                assert(scratch@.len() == found->Some_0.len()) by {
                    reveal(emitted);
                    assert(crate::types::change_views(scratch@).len() == scratch@.len());
                    assert(crate::walk::located(""@, found->Some_0).len() == found->Some_0.len());
                }
                assert(cost == capped(found->Some_0.len()));
                assert(trial_costs(ctx, depth as nat, ls, rs, n as nat, k + 1) == Some(costs@));
                assert(i * n + (j + 1) == k + 1) by (nonlinear_arith)
                    requires
                        k == i * n + j,
                ;
                assert forall|a: int| 0 <= a < i implies #[trigger] cell(n as nat, costs@, a, a) == cell(
                    n as nat,
                    before,
                    a,
                    a,
                ) by {
                    lemma_cell_index(n as nat, a, a);
                    assert(a * n + a < i * n + j) by (nonlinear_arith)
                        requires
                            0 <= a < i,
                            0 <= j,
                            a < n,
                    ;
                }
                if same && j == i {
                    assert(found == Some(Seq::<Located>::empty()));
                    assert(cell(n as nat, costs@, i as int, i as int) == cost);
                }
                if same && j > i {
                    assert(i * n + i < k) by (nonlinear_arith)
                        requires
                            k == i * n + j,
                            j > i,
                    ;
                    assert(cell(n as nat, costs@, i as int, i as int) == cell(n as nat, before, i as int, i as int));
                }
            }
            j += 1;
        }
        proof {
            assert(i * n + n == (i + 1) * n) by (nonlinear_arith);
        }
        i += 1;
    }
    proof {
        assert(costs@.len() == n * n);
    }
    Ok(costs)
}

/// Records what the pairs give: for each old branch in turn, the changes
/// between it and the new branch that `pairs` gives it, located under
/// that new branch's number, or at the parent itself where the new
/// schema's `anyOf` comes from splitting its types.
pub fn diff_pairs(
    documents: &Documents,
    sink: &mut Vec<Change>,
    depth: usize,
    json_path: &str,
    is_rhs_split: bool,
    lhs: &Vec<Schema>,
    rhs: &Vec<Schema>,
    pairs: &Vec<usize>,
) -> (r: Result<(), Error>)
    requires
        pairs@.len() == lhs@.len(),
        forall|i: int| 0 <= i < pairs@.len() ==> (#[trigger] pairs@[i]) < rhs@.len(),
    ensures
        reported(
            r,
            pair_changes(
                documents@,
                depth as nat,
                is_rhs_split,
                schema_views(lhs@),
                schema_views(rhs@),
                pairs@,
                lhs@.len() as int,
            ),
            old(sink)@,
            final(sink)@,
            json_path@,
        ),
    decreases depth, 6int,
{
    let n = lhs.len();
    let ghost ctx = documents@;
    let ghost ls = schema_views(lhs@);
    let ghost rs = schema_views(rhs@);
    let ghost start = sink@;
    proof {
        reveal_with_fuel(pair_changes, 2);
        lemma_emitted_nothing(start, json_path@);
    }
    let mut i: usize = 0;
    while i < n
        invariant
            n == lhs@.len(),
            pairs@.len() == n,
            forall|k: int| 0 <= k < pairs@.len() ==> (#[trigger] pairs@[k]) < rhs@.len(),
            ctx == documents@,
            ls == schema_views(lhs@),
            rs == schema_views(rhs@),
            i <= n,
            pair_changes(ctx, depth as nat, is_rhs_split, ls, rs, pairs@, i as int) is Some,
            emitted(
                start,
                sink@,
                json_path@,
                pair_changes(ctx, depth as nat, is_rhs_split, ls, rs, pairs@, i as int)->Some_0,
            ),
        decreases n - i,
    {
        let j = pairs[i];
        let ghost before = sink@;
        let ghost done = pair_changes(ctx, depth as nat, is_rhs_split, ls, rs, pairs@, i as int)->Some_0;
        let new_path = if is_rhs_split {
            json_path.to_owned()
        } else {
            any_of_path(json_path, j)
        };
        let l = lhs[i].clone().into_object();
        let r = rhs[j].clone().into_object();
        proof {
            lemma_schema_views(lhs@);
            lemma_schema_views(rhs@);
            reveal_with_fuel(pair_changes, 2);
        }
        let ghost found = walk(ctx, depth as nat, true, l@, r@);
        match do_diff(documents, sink, depth, new_path.as_str(), true, l, r) {
            Err(e) => {
                proof {
                    assert(pair_changes(ctx, depth as nat, is_rhs_split, ls, rs, pairs@, i + 1) is None);
                    lemma_pair_changes_none(ctx, depth as nat, is_rhs_split, ls, rs, pairs@, i + 1, n as int);
                }
                return Err(e);
            },
            Ok(_) => {},
        }
        proof {
            let placed = under_branch(is_rhs_split, j, found);
            if !is_rhs_split {
                lemma_emitted_under(before, sink@, json_path@, Segment::AnyOf(j as nat), found->Some_0);
            }
            lemma_emitted_then(start, before, sink@, json_path@, done, placed->Some_0);
        }
        i += 1;
    }
    Ok(())
}

/// Aligns and compares the branches of `anyOf`. Unless both schema
/// objects have an `anyOf`, nothing happens. Else both lists of branches
/// are padded with `false` to the same number and stay so; each old
/// branch is paired with a new one so that the numbers of changes within
/// the pairs add up to as little as possible; and what the pairs give is
/// recorded.
pub fn diff_any_of(
    documents: &Documents,
    sink: &mut Vec<Change>,
    depth: usize,
    json_path: &str,
    is_rhs_split: bool,
    lhs: &mut SchemaObject,
    rhs: &mut SchemaObject,
) -> (r: Result<(), Error>)
    ensures
        r is Ok ==> final(lhs)@ == aligned(old(lhs)@, old(rhs)@) && final(rhs)@ == aligned(old(rhs)@, old(lhs)@),
        reported(
            r,
            any_of_changes(documents@, depth as nat, is_rhs_split, old(lhs)@, old(rhs)@),
            old(sink)@,
            final(sink)@,
            json_path@,
        ),
        same_sides(documents@, old(lhs)@, old(rhs)@) && r is Ok ==> any_of_changes(
            documents@,
            depth as nat,
            is_rhs_split,
            old(lhs)@,
            old(rhs)@,
        ) == Some(Seq::<Located>::empty()),
    decreases depth, 8int,
{
    let ghost ctx = documents@;
    let ghost l0 = lhs@;
    let ghost r0 = rhs@;
    proof {
        reveal(aligned);
        reveal_with_fuel(any_of_changes, 2);
        lhs.lemma_view();
        rhs.lemma_view();
        lemma_emitted_nothing(sink@, json_path@);
    }
    let lhs_len = match &lhs.any_of {
        Some(branches) => {
            proof {
                lemma_schema_views(branches@);
            }
            branches.len()
        },
        None => {
            return Ok(());
        },
    };
    let rhs_len = match &rhs.any_of {
        Some(branches) => {
            proof {
                lemma_schema_views(branches@);
            }
            branches.len()
        },
        None => {
            return Ok(());
        },
    };
    let n = if lhs_len >= rhs_len {
        lhs_len
    } else {
        rhs_len
    };
    pad_branches(lhs, n);
    pad_branches(rhs, n);
    assert(n == common_length(l0, r0));
    assert(lhs@ == aligned(l0, r0));
    assert(rhs@ == aligned(r0, l0));
    match (&lhs.any_of, &rhs.any_of) {
        (Some(l), Some(r)) => {
            proof {
                lemma_schema_views(l@);
                lemma_schema_views(r@);
            }
            let ghost ls = schema_views(l@);
            let ghost rs = schema_views(r@);
            let costs = match cost_matrix(documents, depth, l, r) {
                Ok(costs) => costs,
                Err(e) => {
                    return Err(e);
                },
            };
            let ghost matrix = costs@;
            let pairs = min_cost_pairs(n, costs);
            let r = diff_pairs(documents, sink, depth, json_path, is_rhs_split, l, r, &pairs);
            proof {
                if same_sides(ctx, l0, r0) && r is Ok {
                    assert(ls == rs);
                    lemma_zero_diagonal(n as nat, matrix, pairs@);
                    if n > 0 {
                        lemma_trial_costs_cells(ctx, depth as nat, ls, rs, n as nat, n * n);
                    }
                    assert forall|i: int| 0 <= i < n implies #[trigger] walk(
                        ctx,
                        depth as nat,
                        true,
                        ls[i].into_object(),
                        rs[pairs@[i] as int].into_object(),
                    ) == Some(Seq::<Located>::empty()) by {
                        let j = pairs@[i] as int;
                        let c = i * n + j;
                        lemma_cell_index(n as nat, i, j);
                        lemma_fundamental_div_mod_converse(c, n as int, i, j);
                        assert(cell(n as nat, matrix, i, j) == 0);
                        let found = trial(ctx, depth as nat, ls, rs, n as nat, c);
                        assert(found is Some);
                        assert(matrix[c] == capped(found->Some_0.len()));
                        assert(found->Some_0.len() == 0);
                        assert(found->Some_0 =~= Seq::<Located>::empty());
                        reveal_with_fuel(walk_schema, 2);
                        lemma_no_change_as_branches(ctx, depth as nat, ls[i].into_object(), rs[j].into_object());
                    }
                    lemma_pair_changes_nothing(ctx, depth as nat, is_rhs_split, ls, rs, pairs@, n as int);
                }
            }
            r
        },
        _ => Ok(()),
    }
}

/// Records what the keywords for values of one type give: properties,
/// bounds on numbers, the schema for undeclared properties, items,
/// required names, and the keywords for strings, in that order.
pub fn diff_facets(
    documents: &Documents,
    sink: &mut Vec<Change>,
    depth: usize,
    json_path: &str,
    lhs: &SchemaObject,
    rhs: &SchemaObject,
) -> (r: Result<(), Error>)
    ensures
        reported(r, facet_changes(documents@, depth as nat, lhs@, rhs@), old(sink)@, final(sink)@, json_path@),
        same_sides(documents@, lhs@, rhs@) && r is Ok ==> facet_changes(documents@, depth as nat, lhs@, rhs@) == Some(
            Seq::<Located>::empty(),
        ),
    decreases depth, 7int,
{
    let ghost ctx = documents@;
    proof {
        reveal_with_fuel(facet_changes, 2);
    }
    let ghost s0 = sink@;
    match diff_properties(documents, sink, depth, json_path, lhs, rhs) {
        Err(e) => {
            return Err(e);
        },
        Ok(_) => {},
    }
    let ghost s1 = sink@;
    diff_range(sink, json_path, lhs, rhs);
    let ghost s2 = sink@;
    match diff_additional_properties(documents, sink, depth, json_path, lhs, rhs) {
        Err(e) => {
            return Err(e);
        },
        Ok(_) => {},
    }
    let ghost s3 = sink@;
    match diff_array_items(documents, sink, depth, json_path, lhs, rhs) {
        Err(e) => {
            return Err(e);
        },
        Ok(_) => {},
    }
    let ghost s4 = sink@;
    diff_required(sink, json_path, lhs, rhs);
    let ghost s5 = sink@;
    diff_strings(sink, json_path, lhs, rhs);
    proof {
        let a = property_changes(ctx, depth as nat, lhs@, rhs@)->Some_0;
        let b = range_changes(number_validation(lhs@), number_validation(rhs@));
        let c = additional_changes(ctx, depth as nat, lhs@, rhs@)->Some_0;
        let d = items_changes(ctx, depth as nat, lhs@.items, rhs@.items)->Some_0;
        let e = required_changes(lhs@.required, rhs@.required);
        let f = string_changes(lhs@, rhs@);
        lemma_emitted_then(s4, s5, sink@, json_path@, e, f);
        lemma_emitted_then(s3, s4, sink@, json_path@, d, e + f);
        lemma_emitted_then(s2, s3, sink@, json_path@, c, d + (e + f));
        lemma_emitted_then(s1, s2, sink@, json_path@, b, c + (d + (e + f)));
        lemma_emitted_then(s0, s1, sink@, json_path@, a, b + (c + (d + (e + f))));
        if same_sides(ctx, lhs@, rhs@) {
            lemma_same_keywords(lhs@);
            assert(a + (b + (c + (d + (e + f)))) =~= Seq::<Located>::empty());
        }
    }
    Ok(())
}

/// Records what the properties give: a `PropertyRemove` for each name
/// that only the old schema declares, then a `PropertyAdd` for each name
/// that only the new one declares, then the changes between the two
/// schemas of each name that both declare, each list in the order of the
/// names.
pub fn diff_properties(
    documents: &Documents,
    sink: &mut Vec<Change>,
    depth: usize,
    json_path: &str,
    lhs: &SchemaObject,
    rhs: &SchemaObject,
) -> (r: Result<(), Error>)
    ensures
        reported(r, property_changes(documents@, depth as nat, lhs@, rhs@), old(sink)@, final(sink)@, json_path@),
        same_sides(documents@, lhs@, rhs@) && r is Ok ==> property_changes(documents@, depth as nat, lhs@, rhs@)
            == Some(Seq::<Located>::empty()),
    decreases depth, 6int,
{
    let ghost ctx = documents@;
    let ghost start = sink@;
    let ghost l = lhs@.property_names();
    let ghost r = rhs@.property_names();
    let ghost same = same_sides(ctx, lhs@, rhs@);
    proof {
        reveal_with_fuel(property_changes, 2);
        lhs.lemma_view();
        rhs.lemma_view();
        lemma_emitted_nothing(start, json_path@);
        use_type_invariant(&lhs.properties);
        use_type_invariant(&rhs.properties);
    }
    let lhs_additional_properties = match &lhs.additional_properties {
        Some(schema) => schema.is_true(),
        None => true,
    };
    let ghost open = lets_additional_through(lhs@);
    assert(lhs_additional_properties == open);
    let mut i: usize = 0;
    while i < lhs.properties.len()
        invariant
            i <= l.len(),
            l == lhs.properties.names(),
            r == rhs.properties.names(),
            lhs_additional_properties == open,
            emitted(start, sink@, json_path@, property_removals(open, l, r, i as int)),
        decreases l.len() - i,
    {
        let name = lhs.properties.name_at(i);
        let ghost before = sink@;
        let ghost done = property_removals(open, l, r, i as int);
        let found = rhs.properties.find(name.as_str());
        proof {
            if let Some(k) = found {
                assert(r[k as int] == name@);
            }
        }
        if found.is_none() {
            emit(
                sink,
                json_path,
                ChangeKind::PropertyRemove { lhs_additional_properties, removed: name.clone() },
            );
            proof {
                let one = seq![
                    here(ChangeKindModel::PropertyRemove { lhs_additional_properties: open, removed: name@ }),
                ];
                lemma_emitted_then(start, before, sink@, json_path@, done, one);
                assert(done + one =~= done.push(one[0]));
            }
        }
        i += 1;
    }
    let ghost s1 = sink@;
    proof {
        lemma_emitted_nothing(s1, json_path@);
    }
    let mut j: usize = 0;
    while j < rhs.properties.len()
        invariant
            j <= r.len(),
            l == lhs.properties.names(),
            r == rhs.properties.names(),
            lhs_additional_properties == open,
            emitted(s1, sink@, json_path@, property_additions(open, l, r, j as int)),
        decreases r.len() - j,
    {
        let name = rhs.properties.name_at(j);
        let ghost before = sink@;
        let ghost done = property_additions(open, l, r, j as int);
        let found = lhs.properties.find(name.as_str());
        proof {
            if let Some(k) = found {
                assert(l[k as int] == name@);
            }
        }
        if found.is_none() {
            emit(sink, json_path, ChangeKind::PropertyAdd { lhs_additional_properties, added: name.clone() });
            proof {
                let one = seq![
                    here(ChangeKindModel::PropertyAdd { lhs_additional_properties: open, added: name@ }),
                ];
                lemma_emitted_then(s1, before, sink@, json_path@, done, one);
                assert(done + one =~= done.push(one[0]));
            }
        }
        j += 1;
    }
    let ghost s2 = sink@;
    let ghost lp = lhs@.properties;
    let ghost rp = rhs@.properties;
    proof {
        lemma_emitted_nothing(s2, json_path@);
        reveal_with_fuel(common_properties, 2);
    }
    let mut k: usize = 0;
    while k < rhs.properties.len()
        invariant
            k <= rp.len(),
            ctx == documents@,
            lp == lhs@.properties,
            rp == rhs@.properties,
            same == same_sides(ctx, lhs@, rhs@),
            lp == crate::schema::properties_view(lhs.properties),
            rp.len() == rhs.properties.names().len(),
            rhs.properties.names().len() == rhs.properties.values().len(),
            forall|i: int|
                0 <= i < rhs.properties.names().len() ==> (#[trigger] rp[i]) == (
                    rhs.properties.names()[i],
                    rhs.properties.values()[i]@,
                ),
            crate::names::sorted(lhs.properties.names()),
            crate::names::sorted(rhs.properties.names()),
            common_properties(ctx, depth as nat, lp, rp, k as int) is Some,
            emitted(s2, sink@, json_path@, common_properties(ctx, depth as nat, lp, rp, k as int)->Some_0),
            same ==> common_properties(ctx, depth as nat, lp, rp, k as int) == Some(Seq::<Located>::empty()),
        decreases rp.len() - k,
    {
        let name = rhs.properties.name_at(k);
        let rhs_child = rhs.properties.value_at(k);
        let ghost before = sink@;
        let ghost done = common_properties(ctx, depth as nat, lp, rp, k as int)->Some_0;
        proof {
            lemma_find_named(lhs.properties, name@);
            reveal_with_fuel(common_properties, 2);
            assert(rp[k as int] == (name@, rhs_child@));
        }
        match lhs.properties.get(name.as_str()) {
            Some(lhs_child) => {
                let new_path = property_path(json_path, name.as_str());
                let ghost found = walk_schema(ctx, depth as nat, lhs_child@, rhs_child@);
                proof {
                    if same {
                        lemma_find_named(rhs.properties, name@);
                        crate::names::lemma_index_of(rhs.properties.names(), name@, k as int);
                    }
                }
                match diff_schemas(documents, sink, depth, new_path.as_str(), lhs_child, rhs_child) {
                    Err(e) => {
                        proof {
                            assert(common_properties(ctx, depth as nat, lp, rp, k + 1) is None);
                            lemma_common_properties_none(ctx, depth as nat, lp, rp, k + 1, rp.len() as int);
                        }
                        return Err(e);
                    },
                    Ok(_) => {},
                }
                proof {
                    lemma_emitted_under(before, sink@, json_path@, Segment::Property(name@), found->Some_0);
                    lemma_emitted_then(
                        s2,
                        before,
                        sink@,
                        json_path@,
                        done,
                        under(Segment::Property(name@), found->Some_0),
                    );
                    if same {
                        assert(found == Some(Seq::<Located>::empty()));
                        assert(done + under(Segment::Property(name@), found->Some_0) =~= Seq::<Located>::empty());
                    }
                }
            },
            None => {
                proof {
                    lemma_emitted_nothing(before, json_path@);
                    lemma_emitted_then(s2, before, sink@, json_path@, done, Seq::<Located>::empty());
                    assert(done + Seq::<Located>::empty() =~= done);
                }
            },
        }
        k += 1;
    }
    proof {
        let a = property_removals(open, l, r, l.len() as int);
        let b = property_additions(open, l, r, r.len() as int);
        let c = common_properties(ctx, depth as nat, lp, rp, rp.len() as int)->Some_0;
        lemma_emitted_then(start, s1, s2, json_path@, a, b);
        lemma_emitted_then(start, s2, sink@, json_path@, a + b, c);
        if same {
            lemma_same_properties(open, l, l.len() as int);
            assert((a + b) + c =~= Seq::<Located>::empty());
        }
    }
    Ok(())
}

/// Records what the schemas for undeclared properties give: where both
/// schema objects have one and the two differ, the changes between them.
pub fn diff_additional_properties(
    documents: &Documents,
    sink: &mut Vec<Change>,
    depth: usize,
    json_path: &str,
    lhs: &SchemaObject,
    rhs: &SchemaObject,
) -> (r: Result<(), Error>)
    ensures
        reported(r, additional_changes(documents@, depth as nat, lhs@, rhs@), old(sink)@, final(sink)@, json_path@),
        same_sides(documents@, lhs@, rhs@) && r is Ok ==> additional_changes(documents@, depth as nat, lhs@, rhs@)
            == Some(Seq::<Located>::empty()),
    decreases depth, 6int,
{
    let ghost ctx = documents@;
    let ghost start = sink@;
    proof {
        reveal_with_fuel(additional_changes, 2);
        lhs.lemma_view();
        rhs.lemma_view();
        lemma_emitted_nothing(start, json_path@);
    }
    match (&lhs.additional_properties, &rhs.additional_properties) {
        (Some(l), Some(r)) => {
            if !l.equals(r) {
                let new_path = additional_properties_path(json_path);
                let ghost found = walk_schema(ctx, depth as nat, (**l)@, (**r)@);
                match diff_schemas(documents, sink, depth, new_path.as_str(), l, r) {
                    Err(e) => {
                        return Err(e);
                    },
                    Ok(_) => {},
                }
                proof {
                    lemma_emitted_under(start, sink@, json_path@, Segment::AdditionalProperties, found->Some_0);
                }
            }
            Ok(())
        },
        _ => Ok(()),
    }
}

/// Records what one position gives: the changes between the two schemas,
/// located under the position's number.
fn diff_position(
    documents: &Documents,
    sink: &mut Vec<Change>,
    depth: usize,
    json_path: &str,
    i: usize,
    lhs: &Schema,
    rhs: &Schema,
) -> (r: Result<(), Error>)
    ensures
        reported(
            r,
            under_outcome(Segment::Index(i as nat), walk_schema(documents@, depth as nat, lhs@, rhs@)),
            old(sink)@,
            final(sink)@,
            json_path@,
        ),
        same_sides(documents@, lhs@, rhs@) && r is Ok ==> walk_schema(documents@, depth as nat, lhs@, rhs@) == Some(
            Seq::<Located>::empty(),
        ),
    decreases depth, 2int,
{
    let ghost start = sink@;
    let new_path = index_path(json_path, i);
    let ghost found = walk_schema(documents@, depth as nat, lhs@, rhs@);
    match diff_schemas(documents, sink, depth, new_path.as_str(), lhs, rhs) {
        Err(e) => {
            return Err(e);
        },
        Ok(_) => {},
    }
    proof {
        lemma_emitted_under(start, sink@, json_path@, Segment::Index(i as nat), found->Some_0);
    }
    Ok(())
}

/// The schema at position `i`: that of the list, or the one schema that
/// stands for every position.
fn side_at<'a>(list: Option<&'a Vec<Schema>>, single: &'a Schema, i: usize) -> (r: &'a Schema)
    requires
        list matches Some(v) ==> i < v@.len(),
    ensures
        *r == (match list {
            Some(v) => v@[i as int],
            None => *single,
        }),
{
    match list {
        Some(v) => &v[i],
        None => single,
    }
}

/// The schemas of `n` positions: those of the list, or the one schema
/// `n` times.
pub open spec fn side_views(list: Option<&Vec<Schema>>, single: &Schema, n: nat) -> Seq<SchemaModel> {
    match list {
        Some(v) => schema_views(v@),
        None => Seq::new(n, |i: int| single@),
    }
}

/// Records what the first `n` positions give, each side a list of
/// schemas or one schema for every position.
fn diff_positions(
    documents: &Documents,
    sink: &mut Vec<Change>,
    depth: usize,
    json_path: &str,
    lhs_list: Option<&Vec<Schema>>,
    lhs_single: &Schema,
    rhs_list: Option<&Vec<Schema>>,
    rhs_single: &Schema,
    n: usize,
) -> (r: Result<(), Error>)
    requires
        lhs_list matches Some(v) ==> n <= v@.len(),
        rhs_list matches Some(v) ==> n <= v@.len(),
    ensures
        reported(
            r,
            tuple_changes(
                documents@,
                depth as nat,
                side_views(lhs_list, lhs_single, n as nat),
                side_views(rhs_list, rhs_single, n as nat),
                n as int,
            ),
            old(sink)@,
            final(sink)@,
            json_path@,
        ),
        documents@.lhs == documents@.rhs && r is Ok && (forall|i: int|
            0 <= i < n ==> (#[trigger] side_views(lhs_list, lhs_single, n as nat)[i]) == side_views(
                rhs_list,
                rhs_single,
                n as nat,
            )[i]) ==> tuple_changes(
            documents@,
            depth as nat,
            side_views(lhs_list, lhs_single, n as nat),
            side_views(rhs_list, rhs_single, n as nat),
            n as int,
        ) == Some(Seq::<Located>::empty()),
    decreases depth, 5int,
{
    let ghost ctx = documents@;
    let ghost start = sink@;
    let ghost ls = side_views(lhs_list, lhs_single, n as nat);
    let ghost rs = side_views(rhs_list, rhs_single, n as nat);
    let ghost same = ctx.lhs == ctx.rhs && (forall|i: int| 0 <= i < n ==> (#[trigger] ls[i]) == rs[i]);
    proof {
        reveal_with_fuel(tuple_changes, 2);
        lemma_emitted_nothing(start, json_path@);
    }
    let mut i: usize = 0;
    while i < n
        invariant
            i <= n,
            ctx == documents@,
            ls == side_views(lhs_list, lhs_single, n as nat),
            rs == side_views(rhs_list, rhs_single, n as nat),
            lhs_list matches Some(v) ==> n <= v@.len(),
            rhs_list matches Some(v) ==> n <= v@.len(),
            same == (ctx.lhs == ctx.rhs && (forall|i: int| 0 <= i < n ==> (#[trigger] ls[i]) == rs[i])),
            tuple_changes(ctx, depth as nat, ls, rs, i as int) is Some,
            emitted(start, sink@, json_path@, tuple_changes(ctx, depth as nat, ls, rs, i as int)->Some_0),
            same ==> tuple_changes(ctx, depth as nat, ls, rs, i as int) == Some(Seq::<Located>::empty()),
        decreases n - i,
    {
        let l = side_at(lhs_list, lhs_single, i);
        let r = side_at(rhs_list, rhs_single, i);
        let ghost before = sink@;
        let ghost done = tuple_changes(ctx, depth as nat, ls, rs, i as int)->Some_0;
        proof {
            reveal_with_fuel(tuple_changes, 2);
            if let Some(v) = lhs_list {
                lemma_schema_views(v@);
            }
            if let Some(v) = rhs_list {
                lemma_schema_views(v@);
            }
            assert(ls[i as int] == l@);
            assert(rs[i as int] == r@);
        }
        let ghost found = under_outcome(Segment::Index(i as nat), walk_schema(ctx, depth as nat, l@, r@));
        match diff_position(documents, sink, depth, json_path, i, l, r) {
            Err(e) => {
                proof {
                    assert(tuple_changes(ctx, depth as nat, ls, rs, i + 1) is None);
                    lemma_tuple_changes_none(ctx, depth as nat, ls, rs, i + 1, n as int);
                }
                return Err(e);
            },
            Ok(_) => {},
        }
        proof {
            lemma_emitted_then(start, before, sink@, json_path@, done, found->Some_0);
            if same {
                assert(done + found->Some_0 =~= Seq::<Located>::empty());
            }
        }
        i += 1;
    }
    Ok(())
}

/// Records what the items give. Two lists of schemas: a `TupleChange`
/// with the new length if the lengths differ, then the changes between
/// the schemas at the same positions, as far as both lists go. Two single
/// schemas: the changes between them. A single schema against a list: an
/// `ArrayToTuple` with the length of the list, then the changes between
/// the single schema and each schema of the list. A list against a single
/// schema: a `TupleToArray` with the length of the list, then the changes
/// between each schema of the list and the single schema. Nothing in any
/// other case.
pub fn diff_array_items(
    documents: &Documents,
    sink: &mut Vec<Change>,
    depth: usize,
    json_path: &str,
    lhs: &SchemaObject,
    rhs: &SchemaObject,
) -> (r: Result<(), Error>)
    ensures
        reported(
            r,
            items_changes(documents@, depth as nat, lhs@.items, rhs@.items),
            old(sink)@,
            final(sink)@,
            json_path@,
        ),
        same_sides(documents@, lhs@, rhs@) && r is Ok ==> items_changes(
            documents@,
            depth as nat,
            lhs@.items,
            rhs@.items,
        ) == Some(Seq::<Located>::empty()),
    decreases depth, 6int,
{
    let ghost ctx = documents@;
    let ghost start = sink@;
    let filler = Schema::Bool(true);
    proof {
        reveal_with_fuel(items_changes, 2);
        lhs.lemma_view();
        rhs.lemma_view();
        lemma_emitted_nothing(start, json_path@);
    }
    match (&lhs.items, &rhs.items) {
        (Some(Items::Tuple(lhs_items)), Some(Items::Tuple(rhs_items))) => {
            proof {
                lemma_schema_views(lhs_items@);
                lemma_schema_views(rhs_items@);
            }
            if lhs_items.len() != rhs_items.len() {
                emit(sink, json_path, ChangeKind::TupleChange { new_length: rhs_items.len() });
            }
            let ghost middle = sink@;
            let n = if lhs_items.len() <= rhs_items.len() {
                lhs_items.len()
            } else {
                rhs_items.len()
            };
            let r = diff_positions(
                documents,
                sink,
                depth,
                json_path,
                Some(lhs_items),
                &filler,
                Some(rhs_items),
                &filler,
                n,
            );
            proof {
                let ls = schema_views(lhs_items@);
                let rs = schema_views(rhs_items@);
                let first = if ls.len() != rs.len() {
                    seq![here(ChangeKindModel::TupleChange { new_length: rs.len() as usize })]
                } else {
                    Seq::<Located>::empty()
                };
                let rest = tuple_changes(ctx, depth as nat, ls, rs, n as int);
                if r is Ok {
                    lemma_emitted_then(start, middle, sink@, json_path@, first, rest->Some_0);
                    if same_sides(ctx, lhs@, rhs@) {
                        assert(first + rest->Some_0 =~= Seq::<Located>::empty());
                    }
                }
            }
            r
        },
        (Some(Items::Single(lhs_inner)), Some(Items::Single(rhs_inner))) => {
            let new_path = any_item_path(json_path);
            let ghost found = walk_schema(ctx, depth as nat, (**lhs_inner)@, (**rhs_inner)@);
            match diff_schemas(documents, sink, depth, new_path.as_str(), lhs_inner, rhs_inner) {
                Err(e) => {
                    return Err(e);
                },
                Ok(_) => {},
            }
            proof {
                lemma_emitted_under(start, sink@, json_path@, Segment::AnyItem, found->Some_0);
                if same_sides(ctx, lhs@, rhs@) {
                    assert(under(Segment::AnyItem, found->Some_0) =~= Seq::<Located>::empty());
                }
            }
            Ok(())
        },
        (Some(Items::Single(lhs_inner)), Some(Items::Tuple(rhs_items))) => {
            proof {
                lemma_schema_views(rhs_items@);
            }
            emit(sink, json_path, ChangeKind::ArrayToTuple { new_length: rhs_items.len() });
            let ghost middle = sink@;
            let n = rhs_items.len();
            let r = diff_positions(documents, sink, depth, json_path, None, lhs_inner, Some(rhs_items), &filler, n);
            proof {
                let rs = schema_views(rhs_items@);
                let ls = Seq::new(rs.len(), |i: int| (**lhs_inner)@);
                let first = seq![here(ChangeKindModel::ArrayToTuple { new_length: rs.len() as usize })];
                let rest = tuple_changes(ctx, depth as nat, ls, rs, n as int);
                if r is Ok {
                    lemma_emitted_then(start, middle, sink@, json_path@, first, rest->Some_0);
                }
            }
            r
        },
        (Some(Items::Tuple(lhs_items)), Some(Items::Single(rhs_inner))) => {
            proof {
                lemma_schema_views(lhs_items@);
            }
            emit(sink, json_path, ChangeKind::TupleToArray { old_length: lhs_items.len() });
            let ghost middle = sink@;
            let n = lhs_items.len();
            let r = diff_positions(documents, sink, depth, json_path, Some(lhs_items), &filler, None, rhs_inner, n);
            proof {
                let ls = schema_views(lhs_items@);
                let rs = Seq::new(ls.len(), |i: int| (**rhs_inner)@);
                let first = seq![here(ChangeKindModel::TupleToArray { old_length: ls.len() as usize })];
                let rest = tuple_changes(ctx, depth as nat, ls, rs, n as int);
                if r is Ok {
                    lemma_emitted_then(start, middle, sink@, json_path@, first, rest->Some_0);
                }
            }
            r
        },
        _ => Ok(()),
    }
}

/// How many pairs deep a walk goes unless told otherwise.
pub const DEFAULT_MAX_DEPTH: usize = 128;

/// A walk over two documents that records the changes it finds.
pub struct DiffWalker {
    changes: Vec<Change>,
    documents: Documents,
    max_depth: usize,
}

impl DiffWalker {
    /// The changes recorded so far, in the order in which they were found.
    pub closed spec fn recorded(&self) -> Seq<Change> {
        self.changes@
    }

    /// The two documents of the walk.
    pub closed spec fn context(&self) -> WalkContext {
        self.documents@
    }

    /// How many pairs deep the walk goes.
    pub closed spec fn depth_limit(&self) -> nat {
        self.max_depth as nat
    }

    /// A walk over the old document `lhs_root` and the new document
    /// `rhs_root` that goes [`DEFAULT_MAX_DEPTH`] pairs deep and has
    /// recorded nothing yet.
    pub fn new(lhs_root: RootSchema, rhs_root: RootSchema) -> (r: DiffWalker)
        ensures
            r.recorded() == Seq::<Change>::empty(),
            r.context() == (WalkContext { lhs: lhs_root@, rhs: rhs_root@ }),
            r.depth_limit() == DEFAULT_MAX_DEPTH,
    {
        DiffWalker { changes: Vec::new(), documents: Documents::new(lhs_root, rhs_root), max_depth: DEFAULT_MAX_DEPTH }
    }

    /// A walk like that of [`DiffWalker::new`] that goes `max_depth` pairs
    /// deep.
    pub fn with_max_depth(lhs_root: RootSchema, rhs_root: RootSchema, max_depth: usize) -> (r: DiffWalker)
        ensures
            r.recorded() == Seq::<Change>::empty(),
            r.context() == (WalkContext { lhs: lhs_root@, rhs: rhs_root@ }),
            r.depth_limit() == max_depth,
    {
        DiffWalker { changes: Vec::new(), documents: Documents::new(lhs_root, rhs_root), max_depth }
    }

    /// The changes recorded so far.
    pub fn changes(&self) -> (r: &Vec<Change>)
        ensures
            r@ == self.recorded(),
    {
        &self.changes
    }

    /// Ends the walk and hands over the changes it has recorded.
    pub fn into_changes(self) -> (r: Vec<Change>)
        ensures
            r@ == self.recorded(),
    {
        self.changes
    }

    /// The old document.
    pub fn lhs_root(&self) -> (r: &RootSchema)
        ensures
            r@ == self.context().lhs,
    {
        self.documents.lhs_root()
    }

    /// The new document.
    pub fn rhs_root(&self) -> (r: &RootSchema)
        ensures
            r@ == self.context().rhs,
    {
        self.documents.rhs_root()
    }

    /// Compares the schemas `lhs` and `rhs` and records the changes between
    /// them, located from `json_path` on. On success the records of the
    /// changes stand after those recorded before; the walk fails where it
    /// would have to go deeper than it may. Comparing a schema with itself
    /// in one and the same document records nothing.
    pub fn diff(&mut self, json_path: &str, lhs: &Schema, rhs: &Schema) -> (r: Result<(), Error>)
        ensures
            final(self).context() == old(self).context(),
            final(self).depth_limit() == old(self).depth_limit(),
            reported(
                r,
                walk_schema(old(self).context(), old(self).depth_limit(), lhs@, rhs@),
                old(self).recorded(),
                final(self).recorded(),
                json_path@,
            ),
            same_sides(old(self).context(), lhs@, rhs@) && r is Ok ==> walk_schema(
                old(self).context(),
                old(self).depth_limit(),
                lhs@,
                rhs@,
            ) == Some(Seq::<Located>::empty()),
    {
        diff_schemas(&self.documents, &mut self.changes, self.max_depth, json_path, lhs, rhs)
    }
}

} // verus!
