use json_schema_diff::double::Double;
use json_schema_diff::ChangeKind;
use json_schema_diff::Range;

fn num(value: f64) -> Double {
    Double::from_bits(value.to_bits()).unwrap()
}

#[test]
fn is_range_change_breaking() {
    assert!(!ChangeKind::RangeChange {
        old_value: Range::Minimum(num(1.0)),
        new_value: Range::Minimum(num(1.0)),
    }
    .is_breaking());

    assert!(ChangeKind::RangeChange {
        old_value: Range::Minimum(num(1.0)),
        new_value: Range::Minimum(num(2.0)),
    }
    .is_breaking());

    assert!(!ChangeKind::RangeChange {
        old_value: Range::Minimum(num(2.0)),
        new_value: Range::Minimum(num(1.0)),
    }
    .is_breaking());

    assert!(ChangeKind::RangeChange {
        old_value: Range::Minimum(num(1.0)),
        new_value: Range::ExclusiveMinimum(num(1.0)),
    }
    .is_breaking());

    assert!(ChangeKind::RangeChange {
        old_value: Range::Minimum(num(1.0)),
        new_value: Range::ExclusiveMinimum(num(2.0)),
    }
    .is_breaking());

    assert!(ChangeKind::RangeChange {
        old_value: Range::Minimum(num(2.0)),
        new_value: Range::ExclusiveMinimum(num(1.0)),
    }
    .is_breaking());

    assert!(!ChangeKind::RangeChange {
        old_value: Range::ExclusiveMinimum(num(1.0)),
        new_value: Range::ExclusiveMinimum(num(1.0)),
    }
    .is_breaking());

    assert!(ChangeKind::RangeChange {
        old_value: Range::ExclusiveMinimum(num(1.0)),
        new_value: Range::ExclusiveMinimum(num(2.0)),
    }
    .is_breaking());

    assert!(!ChangeKind::RangeChange {
        old_value: Range::ExclusiveMinimum(num(2.0)),
        new_value: Range::ExclusiveMinimum(num(1.0)),
    }
    .is_breaking());

    assert!(!ChangeKind::RangeChange {
        old_value: Range::Maximum(num(1.0)),
        new_value: Range::Maximum(num(1.0)),
    }
    .is_breaking());

    assert!(!ChangeKind::RangeChange {
        old_value: Range::Maximum(num(1.0)),
        new_value: Range::Maximum(num(2.0)),
    }
    .is_breaking());

    assert!(ChangeKind::RangeChange {
        old_value: Range::Maximum(num(2.0)),
        new_value: Range::Maximum(num(1.0)),
    }
    .is_breaking());

    assert!(ChangeKind::RangeChange {
        old_value: Range::Maximum(num(1.0)),
        new_value: Range::ExclusiveMaximum(num(1.0)),
    }
    .is_breaking());

    assert!(ChangeKind::RangeChange {
        old_value: Range::Maximum(num(1.0)),
        new_value: Range::ExclusiveMaximum(num(2.0)),
    }
    .is_breaking());

    assert!(ChangeKind::RangeChange {
        old_value: Range::Maximum(num(2.0)),
        new_value: Range::ExclusiveMaximum(num(1.0)),
    }
    .is_breaking());

    assert!(!ChangeKind::RangeChange {
        old_value: Range::ExclusiveMaximum(num(1.0)),
        new_value: Range::ExclusiveMaximum(num(1.0)),
    }
    .is_breaking());

    assert!(!ChangeKind::RangeChange {
        old_value: Range::ExclusiveMaximum(num(1.0)),
        new_value: Range::ExclusiveMaximum(num(2.0)),
    }
    .is_breaking());

    assert!(ChangeKind::RangeChange {
        old_value: Range::ExclusiveMaximum(num(2.0)),
        new_value: Range::ExclusiveMaximum(num(1.0)),
    }
    .is_breaking());
}
