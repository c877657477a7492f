use columnar_ipc::errors::{CorruptionKind, IpcError};
use columnar_ipc::selector::{col, Expr, Selector};
use columnar_ipc::time_unit::{convert_time_units, ArrowTimeUnit, TimeUnit};
use columnar_ipc::time_unit::TimeUnit::{Milliseconds, Microseconds, Nanoseconds};

#[test]
fn time_unit_labels() {
    assert_eq!(TimeUnit::Nanoseconds.to_ascii(), "ns");
    assert_eq!(TimeUnit::Microseconds.to_ascii(), "us");
    assert_eq!(TimeUnit::Milliseconds.to_ascii(), "ms");
    assert_eq!(TimeUnit::Microseconds.display_str(), "\u{3bc}s");
}

#[test]
fn time_unit_arrow_mapping() {
    assert_eq!(TimeUnit::Nanoseconds.to_arrow(), ArrowTimeUnit::Nanosecond);
    assert_eq!(TimeUnit::Microseconds.to_arrow(), ArrowTimeUnit::Microsecond);
    assert_eq!(TimeUnit::Milliseconds.to_arrow(), ArrowTimeUnit::Millisecond);
    assert_eq!(TimeUnit::from_arrow(&ArrowTimeUnit::Second), TimeUnit::Milliseconds);
    assert_eq!(TimeUnit::from_arrow(&ArrowTimeUnit::Nanosecond), TimeUnit::Nanoseconds);
}

#[test]
fn unit_conversion_scales_and_truncates() {
    assert_eq!(convert_time_units(1_500, Nanoseconds, Microseconds), 1);
    assert_eq!(convert_time_units(2_000_000, Nanoseconds, Milliseconds), 2);
    assert_eq!(convert_time_units(3, Microseconds, Nanoseconds), 3_000);
    assert_eq!(convert_time_units(1_999, Microseconds, Milliseconds), 1);
    assert_eq!(convert_time_units(4, Milliseconds, Microseconds), 4_000);
    assert_eq!(convert_time_units(5, Milliseconds, Nanoseconds), 5_000_000);
    assert_eq!(convert_time_units(42, Nanoseconds, Nanoseconds), 42);
    // truncation is toward zero for negative values
    assert_eq!(convert_time_units(-1_500, Nanoseconds, Microseconds), -1);
}

#[test]
fn selector_algebra_builds_trees() {
    let a = Selector::new(col("a".into()));
    let b = Selector::from_name("b".into());
    match a.add(b) {
        Selector::Add(l, r) => {
            assert_eq!(*l, Selector::Root(Box::new(Expr::Column("a".into()))));
            assert_eq!(*r, Selector::Root(Box::new(Expr::Column("b".into()))));
        },
        _ => panic!("union must build an addition node"),
    }
    let a = Selector::from_name("a".into());
    let b = Selector::from_name("b".into());
    assert!(matches!(a.bitand(b), Selector::Intersect(_, _)));
    let a = Selector::from_name("a".into());
    let b = Selector::from_name("b".into());
    assert!(matches!(a.bitxor(b), Selector::ExclusiveOr(_, _)));
    let a = Selector::from_name("a".into());
    let b = Selector::from_name("b".into());
    assert!(matches!(a.sub(b), Selector::Sub(_, _)));
    let e = Selector::from_expr(Expr::Column("c".into()));
    assert_eq!(e, Selector::Root(Box::new(Expr::Column("c".into()))));
}

#[test]
fn error_kind_names_are_stable() {
    assert_eq!(
        IpcError::Corruption(CorruptionKind::MissingNode { at: 0 }).kind_name(),
        "corruption"
    );
    assert_eq!(IpcError::MemoryMapCompressed.kind_name(), "memory map of compressed file");
}
