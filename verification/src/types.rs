//! The change records that a comparison produces, and which of them are
//! breaking.

use vstd::prelude::*;
use crate::double::Double;
use crate::json::JsonModel;
use crate::json::JsonValue;

verus! {

/// The primitive types of JSON Schema, in their fixed order.
#[derive(Clone, Copy, Debug, PartialEq, Eq, PartialOrd, Ord, Hash, Structural)]
pub enum JsonSchemaType {
    String,
    Number,
    Integer,
    Object,
    Array,
    Boolean,
    Null,
}

/// A bound on a number, with its value.
#[derive(Clone, Copy, Debug, PartialEq)]
pub enum Range {
    Minimum(Double),
    Maximum(Double),
    ExclusiveMinimum(Double),
    ExclusiveMaximum(Double),
}

/// What a [`Range`] stands for: the kind of bound and the ordering key of
/// its value.
pub ghost enum RangeModel {
    Minimum(int),
    Maximum(int),
    ExclusiveMinimum(int),
    ExclusiveMaximum(int),
}

impl View for Range {
    type V = RangeModel;

    open spec fn view(&self) -> RangeModel {
        match self {
            Range::Minimum(v) => RangeModel::Minimum(v@),
            Range::Maximum(v) => RangeModel::Maximum(v@),
            Range::ExclusiveMinimum(v) => RangeModel::ExclusiveMinimum(v@),
            Range::ExclusiveMaximum(v) => RangeModel::ExclusiveMaximum(v@),
        }
    }
}

/// The kind of a change, with the data that belongs to it.
#[allow(inconsistent_fields)]
#[derive(Debug, PartialEq)]
pub enum ChangeKind {
    /// A type is now allowed in addition.
    TypeAdd { added: JsonSchemaType },
    /// A type is no longer allowed.
    TypeRemove { removed: JsonSchemaType },
    /// A constant is now demanded.
    ConstAdd { added: JsonValue },
    /// A constant is no longer demanded.
    ConstRemove { removed: JsonValue },
    /// A property was declared; `lhs_additional_properties` tells whether
    /// the old schema let undeclared properties through.
    PropertyAdd { lhs_additional_properties: bool, added: String },
    /// A property is no longer declared.
    PropertyRemove { lhs_additional_properties: bool, removed: String },
    /// A bound on a number was added.
    RangeAdd { added: Range },
    /// A bound on a number was removed.
    RangeRemove { removed: Range },
    /// A bound on a number has another value.
    RangeChange { old_value: Range, new_value: Range },
    /// An array checked item by item is now checked by one schema.
    TupleToArray { old_length: usize },
    /// An array checked by one schema is now checked item by item.
    ArrayToTuple { new_length: usize },
    /// The number of items checked one by one has changed.
    TupleChange { new_length: usize },
    /// A property need no longer be present.
    RequiredRemove { property: String },
    /// A property must now be present.
    RequiredAdd { property: String },
    /// A format was added.
    FormatAdd { added: String },
    /// A format was removed.
    FormatRemove { removed: String },
    /// The format is another one.
    FormatChange { old_value: String, new_value: String },
    /// A pattern was added.
    PatternAdd { added: String },
    /// A pattern was removed.
    PatternRemove { removed: String },
    /// The pattern is another one.
    PatternChange { old_value: String, new_value: String },
    /// A least length was added.
    MinLengthAdd { added: u32 },
    /// A least length was removed.
    MinLengthRemove { removed: u32 },
    /// The least length has another value.
    MinLengthChange { old_value: u32, new_value: u32 },
    /// A greatest length was added.
    MaxLengthAdd { added: u32 },
    /// A greatest length was removed.
    MaxLengthRemove { removed: u32 },
    /// The greatest length has another value.
    MaxLengthChange { old_value: u32, new_value: u32 },
}

/// What a [`ChangeKind`] stands for.
#[allow(inconsistent_fields)]
pub ghost enum ChangeKindModel {
    TypeAdd { added: JsonSchemaType },
    TypeRemove { removed: JsonSchemaType },
    ConstAdd { added: JsonModel },
    ConstRemove { removed: JsonModel },
    PropertyAdd { lhs_additional_properties: bool, added: Seq<char> },
    PropertyRemove { lhs_additional_properties: bool, removed: Seq<char> },
    RangeAdd { added: RangeModel },
    RangeRemove { removed: RangeModel },
    RangeChange { old_value: RangeModel, new_value: RangeModel },
    TupleToArray { old_length: usize },
    ArrayToTuple { new_length: usize },
    TupleChange { new_length: usize },
    RequiredRemove { property: Seq<char> },
    RequiredAdd { property: Seq<char> },
    FormatAdd { added: Seq<char> },
    FormatRemove { removed: Seq<char> },
    FormatChange { old_value: Seq<char>, new_value: Seq<char> },
    PatternAdd { added: Seq<char> },
    PatternRemove { removed: Seq<char> },
    PatternChange { old_value: Seq<char>, new_value: Seq<char> },
    MinLengthAdd { added: u32 },
    MinLengthRemove { removed: u32 },
    MinLengthChange { old_value: u32, new_value: u32 },
    MaxLengthAdd { added: u32 },
    MaxLengthRemove { removed: u32 },
    MaxLengthChange { old_value: u32, new_value: u32 },
}

impl View for ChangeKind {
    type V = ChangeKindModel;

    open spec fn view(&self) -> ChangeKindModel {
        match self {
            ChangeKind::TypeAdd { added } => ChangeKindModel::TypeAdd { added: *added },
            ChangeKind::TypeRemove { removed } => ChangeKindModel::TypeRemove { removed: *removed },
            ChangeKind::ConstAdd { added } => ChangeKindModel::ConstAdd { added: added@ },
            ChangeKind::ConstRemove { removed } => ChangeKindModel::ConstRemove { removed: removed@ },
            ChangeKind::PropertyAdd { lhs_additional_properties, added } => ChangeKindModel::PropertyAdd {
                lhs_additional_properties: *lhs_additional_properties,
                added: added@,
            },
            ChangeKind::PropertyRemove { lhs_additional_properties, removed } => ChangeKindModel::PropertyRemove {
                lhs_additional_properties: *lhs_additional_properties,
                removed: removed@,
            },
            ChangeKind::RangeAdd { added } => ChangeKindModel::RangeAdd { added: added@ },
            ChangeKind::RangeRemove { removed } => ChangeKindModel::RangeRemove { removed: removed@ },
            ChangeKind::RangeChange { old_value, new_value } => ChangeKindModel::RangeChange {
                old_value: old_value@,
                new_value: new_value@,
            },
            ChangeKind::TupleToArray { old_length } => ChangeKindModel::TupleToArray { old_length: *old_length },
            ChangeKind::ArrayToTuple { new_length } => ChangeKindModel::ArrayToTuple { new_length: *new_length },
            ChangeKind::TupleChange { new_length } => ChangeKindModel::TupleChange { new_length: *new_length },
            ChangeKind::RequiredRemove { property } => ChangeKindModel::RequiredRemove { property: property@ },
            ChangeKind::RequiredAdd { property } => ChangeKindModel::RequiredAdd { property: property@ },
            ChangeKind::FormatAdd { added } => ChangeKindModel::FormatAdd { added: added@ },
            ChangeKind::FormatRemove { removed } => ChangeKindModel::FormatRemove { removed: removed@ },
            ChangeKind::FormatChange { old_value, new_value } => ChangeKindModel::FormatChange {
                old_value: old_value@,
                new_value: new_value@,
            },
            ChangeKind::PatternAdd { added } => ChangeKindModel::PatternAdd { added: added@ },
            ChangeKind::PatternRemove { removed } => ChangeKindModel::PatternRemove { removed: removed@ },
            ChangeKind::PatternChange { old_value, new_value } => ChangeKindModel::PatternChange {
                old_value: old_value@,
                new_value: new_value@,
            },
            ChangeKind::MinLengthAdd { added } => ChangeKindModel::MinLengthAdd { added: *added },
            ChangeKind::MinLengthRemove { removed } => ChangeKindModel::MinLengthRemove { removed: *removed },
            ChangeKind::MinLengthChange { old_value, new_value } => ChangeKindModel::MinLengthChange {
                old_value: *old_value,
                new_value: *new_value,
            },
            ChangeKind::MaxLengthAdd { added } => ChangeKindModel::MaxLengthAdd { added: *added },
            ChangeKind::MaxLengthRemove { removed } => ChangeKindModel::MaxLengthRemove { removed: *removed },
            ChangeKind::MaxLengthChange { old_value, new_value } => ChangeKindModel::MaxLengthChange {
                old_value: *old_value,
                new_value: *new_value,
            },
        }
    }
}

/// Whether replacing the bound `old` by `new` can turn a number away
/// that was accepted before. A lower bound may only go down, an upper
/// bound only up, and an exclusive bound may become inclusive at a value
/// that admits at least as much; everything else counts as breaking.
pub open spec fn range_change_breaking(old: RangeModel, new: RangeModel) -> bool {
    match (old, new) {
        (RangeModel::ExclusiveMinimum(exc), RangeModel::Minimum(min)) => !(exc >= min),
        (RangeModel::ExclusiveMaximum(exc), RangeModel::Maximum(max)) => !(exc <= max),
        (RangeModel::Minimum(l), RangeModel::Minimum(r)) => !(l >= r),
        (RangeModel::ExclusiveMinimum(l), RangeModel::ExclusiveMinimum(r)) => !(l >= r),
        (RangeModel::Maximum(l), RangeModel::Maximum(r)) => !(l <= r),
        (RangeModel::ExclusiveMaximum(l), RangeModel::ExclusiveMaximum(r)) => !(l <= r),
        _ => true,
    }
}

/// Whether a change can make a document that the old schema accepted
/// fail under the new one.
pub open spec fn breaking(change: ChangeKindModel) -> bool {
    match change {
        ChangeKindModel::TypeAdd { .. } => false,
        ChangeKindModel::TypeRemove { .. } => true,
        ChangeKindModel::ConstAdd { .. } => true,
        ChangeKindModel::ConstRemove { .. } => false,
        ChangeKindModel::PropertyAdd { lhs_additional_properties, .. } => lhs_additional_properties,
        ChangeKindModel::PropertyRemove { lhs_additional_properties, .. } => !lhs_additional_properties,
        ChangeKindModel::RangeAdd { .. } => true,
        ChangeKindModel::RangeRemove { .. } => false,
        ChangeKindModel::RangeChange { old_value, new_value } => range_change_breaking(old_value, new_value),
        ChangeKindModel::TupleToArray { .. } => false,
        ChangeKindModel::ArrayToTuple { .. } => true,
        ChangeKindModel::TupleChange { .. } => true,
        ChangeKindModel::RequiredRemove { .. } => false,
        ChangeKindModel::RequiredAdd { .. } => true,
        ChangeKindModel::FormatAdd { .. } => true,
        ChangeKindModel::FormatRemove { .. } => false,
        ChangeKindModel::FormatChange { .. } => true,
        ChangeKindModel::PatternAdd { .. } => true,
        ChangeKindModel::PatternRemove { .. } => false,
        ChangeKindModel::PatternChange { .. } => true,
        ChangeKindModel::MinLengthAdd { .. } => true,
        ChangeKindModel::MinLengthRemove { .. } => false,
        ChangeKindModel::MinLengthChange { old_value, new_value } => new_value > old_value,
        ChangeKindModel::MaxLengthAdd { .. } => true,
        ChangeKindModel::MaxLengthRemove { .. } => false,
        ChangeKindModel::MaxLengthChange { old_value, new_value } => new_value < old_value,
    }
}

impl ChangeKind {
    /// Whether the change is breaking.
    pub fn is_breaking(&self) -> (r: bool)
        ensures
            r == breaking(self@),
    {
        match self {
            ChangeKind::TypeAdd { .. } => false,
            ChangeKind::TypeRemove { .. } => true,
            ChangeKind::ConstAdd { .. } => true,
            ChangeKind::ConstRemove { .. } => false,
            ChangeKind::PropertyAdd { lhs_additional_properties, .. } => *lhs_additional_properties,
            ChangeKind::PropertyRemove { lhs_additional_properties, .. } => !*lhs_additional_properties,
            ChangeKind::RangeAdd { .. } => true,
            ChangeKind::RangeRemove { .. } => false,
            ChangeKind::RangeChange { old_value, new_value } => {
                match (old_value, new_value) {
                    (Range::ExclusiveMinimum(exc), Range::Minimum(min)) => !exc.ge(min),
                    (Range::ExclusiveMaximum(exc), Range::Maximum(max)) => !exc.le(max),
                    (Range::Minimum(l), Range::Minimum(r)) => !l.ge(r),
                    (Range::ExclusiveMinimum(l), Range::ExclusiveMinimum(r)) => !l.ge(r),
                    (Range::Maximum(l), Range::Maximum(r)) => !l.le(r),
                    (Range::ExclusiveMaximum(l), Range::ExclusiveMaximum(r)) => !l.le(r),
                    _ => true,
                }
            },
            ChangeKind::TupleToArray { .. } => false,
            ChangeKind::ArrayToTuple { .. } => true,
            ChangeKind::TupleChange { .. } => true,
            ChangeKind::RequiredRemove { .. } => false,
            ChangeKind::RequiredAdd { .. } => true,
            ChangeKind::FormatAdd { .. } => true,
            ChangeKind::FormatRemove { .. } => false,
            ChangeKind::FormatChange { .. } => true,
            ChangeKind::PatternAdd { .. } => true,
            ChangeKind::PatternRemove { .. } => false,
            ChangeKind::PatternChange { .. } => true,
            ChangeKind::MinLengthAdd { .. } => true,
            ChangeKind::MinLengthRemove { .. } => false,
            ChangeKind::MinLengthChange { old_value, new_value } => *new_value > *old_value,
            ChangeKind::MaxLengthAdd { .. } => true,
            ChangeKind::MaxLengthRemove { .. } => false,
            ChangeKind::MaxLengthChange { old_value, new_value } => *new_value < *old_value,
        }
    }
}

/// One change between the old schema and the new one.
#[derive(Debug, PartialEq)]
pub struct Change {
    /// Where the change is: `""` for the root, `".foo"` for the property
    /// `foo`, and so on downwards.
    pub path: String,
    /// What has changed there.
    pub change: ChangeKind,
}

/// What a [`Change`] stands for.
pub ghost struct ChangeModel {
    pub path: Seq<char>,
    pub change: ChangeKindModel,
}

impl View for Change {
    type V = ChangeModel;

    open spec fn view(&self) -> ChangeModel {
        ChangeModel { path: self.path@, change: self.change@ }
    }
}

impl Change {
    /// Whether the change is breaking.
    pub fn is_breaking(&self) -> (r: bool)
        ensures
            r == breaking(self@.change),
    {
        self.change.is_breaking()
    }
}

/// What each of the changes stands for.
pub open spec fn change_views(changes: Seq<Change>) -> Seq<ChangeModel> {
    changes.map_values(|c: Change| c@)
}

/// Why a comparison gave no result.
#[derive(Debug, PartialEq)]
pub enum Error {
    /// A document could not be read as a schema. The message says why.
    Parse(String),
    /// The schemas nest, or refer to each other, more deeply than the
    /// comparison was allowed to follow.
    DiffDepth,
}

} // verus!
