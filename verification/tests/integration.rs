use pykep_core::integration::{add_statistics, add_stats, EventDirection, IntegrationStats, Termination};

fn stats(rhs_evaluations: usize, accepted_steps: usize, rejected_steps: usize) -> IntegrationStats {
    IntegrationStats {
        rhs_evaluations,
        accepted_steps,
        rejected_steps,
    }
}

#[test]
fn statistics_accumulate_field_by_field() {
    let mut total = IntegrationStats::default();
    assert_eq!(total, stats(0, 0, 0));
    add_statistics(&mut total, stats(10, 3, 1));
    assert_eq!(total, stats(10, 3, 1));
    add_stats(&mut total, stats(5, 2, 0));
    assert_eq!(total, stats(15, 5, 1));
}

#[test]
fn accumulation_is_associative() {
    let (a, b, c) = (stats(1, 2, 3), stats(40, 50, 60), stats(700, 800, 900));
    let mut left = a;
    add_statistics(&mut left, b);
    add_statistics(&mut left, c);
    let mut right_tail = b;
    add_statistics(&mut right_tail, c);
    let mut right = a;
    add_statistics(&mut right, right_tail);
    assert_eq!(left, right);
    assert_eq!(left, stats(741, 852, 963));
}

#[test]
fn defaults_and_variants() {
    assert_eq!(EventDirection::default(), EventDirection::Either);
    assert_ne!(EventDirection::Increasing, EventDirection::Decreasing);
    assert_ne!(Termination::FinalTime, Termination::Event);
}
