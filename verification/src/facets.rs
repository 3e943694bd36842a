//! The comparisons that look at one pair of schema objects only: types,
//! constant, bounds on numbers, required names, and the keywords for
//! strings.

use vstd::prelude::*;
use crate::double::Double;
use crate::facts::lemma_emitted_nothing;
use crate::facts::lemma_emitted_one;
use crate::facts::lemma_emitted_then;
use crate::lattice::effective_type;
use crate::lattice::into_set;
use crate::lattice::type_at;
use crate::normalize::const_normalized;
use crate::normalize::normalize_const;
use crate::schema::NumberFacet;
use crate::schema::Schema;
use crate::schema::SchemaObject;
use crate::schema::lemma_schema_views;
use crate::types::Change;
use crate::types::ChangeKind;
use crate::types::ChangeKindModel;
use crate::types::Range;
use crate::walk::BoundKind;
use crate::walk::bound;
use crate::walk::bound_changes;
use crate::walk::const_changes;
use crate::walk::emitted;
use crate::walk::format_changes;
use crate::walk::here;
use crate::walk::max_length_changes;
use crate::walk::min_length_changes;
use crate::walk::number_validation;
use crate::walk::pattern_changes;
use crate::walk::range_changes;
use crate::walk::required_additions;
use crate::walk::required_changes;
use crate::walk::required_removals;
use crate::walk::string_changes;
use crate::walk::type_additions;
use crate::walk::type_changes;
use crate::walk::type_removals;

verus! {

/// Records one change at the path `json_path`.
pub fn emit(sink: &mut Vec<Change>, json_path: &str, change: ChangeKind)
    ensures
        emitted(old(sink)@, final(sink)@, json_path@, seq![here(change@)]),
        final(sink)@.len() == old(sink)@.len() + 1,
{
    let record = Change { path: json_path.to_owned(), change };
    proof {
        lemma_emitted_one(sink@, record);
    }
    sink.push(record);
}

/// Records the changes of type between two schema objects: a
/// `TypeRemove` for each type that only the old one admits, then a
/// `TypeAdd` for each type that only the new one admits, each in the
/// fixed order of the types.
pub fn diff_instance_types(sink: &mut Vec<Change>, json_path: &str, lhs: &SchemaObject, rhs: &SchemaObject)
    ensures
        emitted(old(sink)@, final(sink)@, json_path@, type_changes(lhs@, rhs@)),
{
    let lhs_ty = lhs.effective_type().into_set();
    let rhs_ty = rhs.effective_type().into_set();
    let ghost start = sink@;
    proof {
        reveal(type_changes);
    }
    let ghost l = into_set(effective_type(lhs@));
    let ghost r = into_set(effective_type(rhs@));
    proof {
        lemma_emitted_nothing(start, json_path@);
    }
    let mut i: usize = 0;
    while i < 7
        invariant
            i <= 7,
            lhs_ty@ == l,
            rhs_ty@ == r,
            emitted(start, sink@, json_path@, type_removals(l, r, i as int)),
        decreases 7 - i,
    {
        let t = type_at(i);
        let ghost before = sink@;
        let ghost done = type_removals(l, r, i as int);
        if lhs_ty.contains(t) && !rhs_ty.contains(t) {
            emit(sink, json_path, ChangeKind::TypeRemove { removed: t });
            proof {
                let one = seq![here(ChangeKindModel::TypeRemove { removed: t })];
                lemma_emitted_then(start, before, sink@, json_path@, done, one);
                assert(done + one =~= done.push(one[0]));
            }
        }
        i += 1;
    }
    let ghost middle = sink@;
    proof {
        lemma_emitted_nothing(middle, json_path@);
    }
    let mut j: usize = 0;
    while j < 7
        invariant
            j <= 7,
            lhs_ty@ == l,
            rhs_ty@ == r,
            emitted(middle, sink@, json_path@, type_additions(l, r, j as int)),
        decreases 7 - j,
    {
        let t = type_at(j);
        let ghost before = sink@;
        let ghost done = type_additions(l, r, j as int);
        if rhs_ty.contains(t) && !lhs_ty.contains(t) {
            emit(sink, json_path, ChangeKind::TypeAdd { added: t });
            proof {
                let one = seq![here(ChangeKindModel::TypeAdd { added: t })];
                lemma_emitted_then(middle, before, sink@, json_path@, done, one);
                assert(done + one =~= done.push(one[0]));
            }
        }
        j += 1;
    }
    proof {
        lemma_emitted_then(start, middle, sink@, json_path@, type_removals(l, r, 7), type_additions(l, r, 7));
    }
}

/// Normalizes the constants of both schema objects and records the
/// change of constant between them: a `ConstRemove` where only the old
/// one has a constant, a `ConstAdd` where only the new one has, and both,
/// in that order, where the two constants differ.
pub fn diff_const(sink: &mut Vec<Change>, json_path: &str, lhs: &mut SchemaObject, rhs: &mut SchemaObject)
    ensures
        final(lhs)@ == const_normalized(old(lhs)@),
        final(rhs)@ == const_normalized(old(rhs)@),
        emitted(
            old(sink)@,
            final(sink)@,
            json_path@,
            const_changes(final(lhs)@.const_value, final(rhs)@.const_value),
        ),
{
    normalize_const(lhs);
    normalize_const(rhs);
    let ghost start = sink@;
    proof {
        reveal(const_changes);
        lhs.lemma_view();
        rhs.lemma_view();
        lemma_emitted_nothing(start, json_path@);
    }
    match (&lhs.const_value, &rhs.const_value) {
        (Some(value), None) => {
            emit(sink, json_path, ChangeKind::ConstRemove { removed: value.clone() });
        },
        (None, Some(value)) => {
            emit(sink, json_path, ChangeKind::ConstAdd { added: value.clone() });
        },
        (Some(l), Some(r)) => {
            if !l.equals(r) {
                emit(sink, json_path, ChangeKind::ConstRemove { removed: l.clone() });
                let ghost middle = sink@;
                emit(sink, json_path, ChangeKind::ConstAdd { added: r.clone() });
                proof {
                    let first = seq![here(ChangeKindModel::ConstRemove { removed: l@ })];
                    let second = seq![here(ChangeKindModel::ConstAdd { added: r@ })];
                    lemma_emitted_then(start, middle, sink@, json_path@, first, second);
                    assert(first + second =~= const_changes(Some(l@), Some(r@)));
                }
            }
        },
        (None, None) => {},
    }
}

impl SchemaObject {
    /// The bounds that count for the schema object: its own, if it has
    /// any; else those of the one branch of its `anyOf`, if it has exactly
    /// one; else none.
    pub fn number_validation(&self) -> (r: NumberFacet)
        ensures
            r@ == number_validation(self@),
    {
        proof {
            self.lemma_view();
        }
        if !self.number.is_empty() {
            self.number
        } else {
            match &self.any_of {
                Some(branches) => {
                    proof {
                        lemma_schema_views(branches@);
                    }
                    if branches.len() == 1 {
                        proof {
                            branches@[0].lemma_view();
                        }
                        match &branches[0] {
                            Schema::Object(o) => {
                                proof {
                                    o.lemma_view();
                                }
                                o.number
                            },
                            Schema::Bool(_) => NumberFacet::new(),
                        }
                    } else {
                        NumberFacet::new()
                    }
                },
                None => NumberFacet::new(),
            }
        }
    }
}

/// The bound of the given kind at the given value.
pub fn make_range(kind: BoundKind, value: Double) -> (r: Range)
    ensures
        r@ == bound(kind, value@),
{
    match kind {
        BoundKind::Minimum => Range::Minimum(value),
        BoundKind::Maximum => Range::Maximum(value),
        BoundKind::ExclusiveMinimum => Range::ExclusiveMinimum(value),
        BoundKind::ExclusiveMaximum => Range::ExclusiveMaximum(value),
    }
}

/// Records the change of one bound.
pub fn diff_bound(sink: &mut Vec<Change>, json_path: &str, kind: BoundKind, lhs: Option<Double>, rhs: Option<Double>)
    ensures
        emitted(
            old(sink)@,
            final(sink)@,
            json_path@,
            bound_changes(kind, crate::schema::bound_view(lhs), crate::schema::bound_view(rhs)),
        ),
{
    proof {
        lemma_emitted_nothing(sink@, json_path@);
    }
    match (lhs, rhs) {
        (None, Some(value)) => {
            emit(sink, json_path, ChangeKind::RangeAdd { added: make_range(kind, value) });
        },
        (Some(value), None) => {
            emit(sink, json_path, ChangeKind::RangeRemove { removed: make_range(kind, value) });
        },
        (Some(l), Some(r)) => {
            if !l.equals(&r) {
                emit(
                    sink,
                    json_path,
                    ChangeKind::RangeChange { old_value: make_range(kind, l), new_value: make_range(kind, r) },
                );
            }
        },
        (None, None) => {},
    }
}

/// Records the changes of the bounds on numbers: of `minimum`, `maximum`,
/// `exclusiveMinimum` and `exclusiveMaximum`, in that order, each an
/// addition, a removal or a change of value.
pub fn diff_range(sink: &mut Vec<Change>, json_path: &str, lhs: &SchemaObject, rhs: &SchemaObject)
    ensures
        emitted(
            old(sink)@,
            final(sink)@,
            json_path@,
            range_changes(number_validation(lhs@), number_validation(rhs@)),
        ),
{
    let l = lhs.number_validation();
    let r = rhs.number_validation();
    let ghost s0 = sink@;
    diff_bound(sink, json_path, BoundKind::Minimum, l.minimum, r.minimum);
    let ghost s1 = sink@;
    diff_bound(sink, json_path, BoundKind::Maximum, l.maximum, r.maximum);
    let ghost s2 = sink@;
    diff_bound(sink, json_path, BoundKind::ExclusiveMinimum, l.exclusive_minimum, r.exclusive_minimum);
    let ghost s3 = sink@;
    diff_bound(sink, json_path, BoundKind::ExclusiveMaximum, l.exclusive_maximum, r.exclusive_maximum);
    proof {
        let a = bound_changes(BoundKind::Minimum, l@.minimum, r@.minimum);
        let b = bound_changes(BoundKind::Maximum, l@.maximum, r@.maximum);
        let c = bound_changes(BoundKind::ExclusiveMinimum, l@.exclusive_minimum, r@.exclusive_minimum);
        let d = bound_changes(BoundKind::ExclusiveMaximum, l@.exclusive_maximum, r@.exclusive_maximum);
        lemma_emitted_then(s0, s1, s2, json_path@, a, b);
        lemma_emitted_then(s0, s2, s3, json_path@, a + b, c);
        lemma_emitted_then(s0, s3, sink@, json_path@, a + b + c, d);
    }
}

/// Records the changes of the required names: a `RequiredRemove` for
/// each name that only the old schema requires, then a `RequiredAdd` for
/// each name that only the new one requires, each in the order of the
/// names.
pub fn diff_required(sink: &mut Vec<Change>, json_path: &str, lhs: &SchemaObject, rhs: &SchemaObject)
    ensures
        emitted(old(sink)@, final(sink)@, json_path@, required_changes(lhs@.required, rhs@.required)),
{
    let ghost start = sink@;
    let ghost l = lhs@.required;
    let ghost r = rhs@.required;
    proof {
        lhs.lemma_view();
        rhs.lemma_view();
        lemma_emitted_nothing(start, json_path@);
    }
    let mut i: usize = 0;
    while i < lhs.required.len()
        invariant
            i <= l.len(),
            l == lhs.required.names(),
            r == rhs.required.names(),
            emitted(start, sink@, json_path@, required_removals(l, r, i as int)),
        decreases l.len() - i,
    {
        let name = lhs.required.name_at(i);
        let ghost before = sink@;
        let ghost done = required_removals(l, r, i as int);
        let found = rhs.required.find(name.as_str());
        proof {
            if let Some(k) = found {
                assert(r[k as int] == name@);
            }
        }
        if found.is_none() {
            emit(sink, json_path, ChangeKind::RequiredRemove { property: name.clone() });
            proof {
                let one = seq![here(ChangeKindModel::RequiredRemove { property: name@ })];
                lemma_emitted_then(start, before, sink@, json_path@, done, one);
                assert(done + one =~= done.push(one[0]));
            }
        }
        i += 1;
    }
    let ghost middle = sink@;
    proof {
        lemma_emitted_nothing(middle, json_path@);
    }
    let mut j: usize = 0;
    while j < rhs.required.len()
        invariant
            j <= r.len(),
            l == lhs.required.names(),
            r == rhs.required.names(),
            emitted(middle, sink@, json_path@, required_additions(l, r, j as int)),
        decreases r.len() - j,
    {
        let name = rhs.required.name_at(j);
        let ghost before = sink@;
        let ghost done = required_additions(l, r, j as int);
        let found = lhs.required.find(name.as_str());
        proof {
            if let Some(k) = found {
                assert(l[k as int] == name@);
            }
        }
        if found.is_none() {
            emit(sink, json_path, ChangeKind::RequiredAdd { property: name.clone() });
            proof {
                let one = seq![here(ChangeKindModel::RequiredAdd { property: name@ })];
                lemma_emitted_then(middle, before, sink@, json_path@, done, one);
                assert(done + one =~= done.push(one[0]));
            }
        }
        j += 1;
    }
    proof {
        lemma_emitted_then(
            start,
            middle,
            sink@,
            json_path@,
            required_removals(l, r, l.len() as int),
            required_additions(l, r, r.len() as int),
        );
    }
}

/// Records the change of `format`.
pub fn diff_format(sink: &mut Vec<Change>, json_path: &str, lhs: &Option<String>, rhs: &Option<String>)
    ensures
        emitted(
            old(sink)@,
            final(sink)@,
            json_path@,
            format_changes(crate::schema::text_view(*lhs), crate::schema::text_view(*rhs)),
        ),
{
    proof {
        lemma_emitted_nothing(sink@, json_path@);
    }
    match (lhs, rhs) {
        (None, Some(value)) => {
            emit(sink, json_path, ChangeKind::FormatAdd { added: value.clone() });
        },
        (Some(value), None) => {
            emit(sink, json_path, ChangeKind::FormatRemove { removed: value.clone() });
        },
        (Some(l), Some(r)) => {
            if *l != *r {
                emit(sink, json_path, ChangeKind::FormatChange { old_value: l.clone(), new_value: r.clone() });
            }
        },
        (None, None) => {},
    }
}

/// Records the change of `pattern`.
pub fn diff_pattern(sink: &mut Vec<Change>, json_path: &str, lhs: &Option<String>, rhs: &Option<String>)
    ensures
        emitted(
            old(sink)@,
            final(sink)@,
            json_path@,
            pattern_changes(crate::schema::text_view(*lhs), crate::schema::text_view(*rhs)),
        ),
{
    proof {
        lemma_emitted_nothing(sink@, json_path@);
    }
    match (lhs, rhs) {
        (None, Some(value)) => {
            emit(sink, json_path, ChangeKind::PatternAdd { added: value.clone() });
        },
        (Some(value), None) => {
            emit(sink, json_path, ChangeKind::PatternRemove { removed: value.clone() });
        },
        (Some(l), Some(r)) => {
            if *l != *r {
                emit(sink, json_path, ChangeKind::PatternChange { old_value: l.clone(), new_value: r.clone() });
            }
        },
        (None, None) => {},
    }
}

/// Records the change of `minLength`.
pub fn diff_min_length(sink: &mut Vec<Change>, json_path: &str, lhs: Option<u32>, rhs: Option<u32>)
    ensures
        emitted(old(sink)@, final(sink)@, json_path@, min_length_changes(lhs, rhs)),
{
    proof {
        lemma_emitted_nothing(sink@, json_path@);
    }
    match (lhs, rhs) {
        (None, Some(value)) => {
            emit(sink, json_path, ChangeKind::MinLengthAdd { added: value });
        },
        (Some(value), None) => {
            emit(sink, json_path, ChangeKind::MinLengthRemove { removed: value });
        },
        (Some(l), Some(r)) => {
            if l != r {
                emit(sink, json_path, ChangeKind::MinLengthChange { old_value: l, new_value: r });
            }
        },
        (None, None) => {},
    }
}

/// Records the change of `maxLength`.
pub fn diff_max_length(sink: &mut Vec<Change>, json_path: &str, lhs: Option<u32>, rhs: Option<u32>)
    ensures
        emitted(old(sink)@, final(sink)@, json_path@, max_length_changes(lhs, rhs)),
{
    proof {
        lemma_emitted_nothing(sink@, json_path@);
    }
    match (lhs, rhs) {
        (None, Some(value)) => {
            emit(sink, json_path, ChangeKind::MaxLengthAdd { added: value });
        },
        (Some(value), None) => {
            emit(sink, json_path, ChangeKind::MaxLengthRemove { removed: value });
        },
        (Some(l), Some(r)) => {
            if l != r {
                emit(sink, json_path, ChangeKind::MaxLengthChange { old_value: l, new_value: r });
            }
        },
        (None, None) => {},
    }
}

/// Records the changes of the keywords for strings: of `format`,
/// `pattern`, `minLength` and `maxLength`, in that order, each an
/// addition, a removal or a change of value.
pub fn diff_strings(sink: &mut Vec<Change>, json_path: &str, lhs: &SchemaObject, rhs: &SchemaObject)
    ensures
        emitted(old(sink)@, final(sink)@, json_path@, string_changes(lhs@, rhs@)),
{
    proof {
        lhs.lemma_view();
        rhs.lemma_view();
    }
    let ghost s0 = sink@;
    diff_format(sink, json_path, &lhs.format, &rhs.format);
    let ghost s1 = sink@;
    diff_pattern(sink, json_path, &lhs.pattern, &rhs.pattern);
    let ghost s2 = sink@;
    diff_min_length(sink, json_path, lhs.min_length, rhs.min_length);
    let ghost s3 = sink@;
    diff_max_length(sink, json_path, lhs.max_length, rhs.max_length);
    proof {
        let a = format_changes(lhs@.format, rhs@.format);
        let b = pattern_changes(lhs@.pattern, rhs@.pattern);
        let c = min_length_changes(lhs@.min_length, rhs@.min_length);
        let d = max_length_changes(lhs@.max_length, rhs@.max_length);
        lemma_emitted_then(s0, s1, s2, json_path@, a, b);
        lemma_emitted_then(s0, s2, s3, json_path@, a + b, c);
        lemma_emitted_then(s0, s3, sink@, json_path@, a + b + c, d);
    }
}

} // verus!
