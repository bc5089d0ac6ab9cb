use schemaui::lifecycle::{deadline_from_seconds, EXIT_TIMEOUT};
use std::time::Duration;

#[test]
fn no_flag_means_no_deadline() {
    assert_eq!(deadline_from_seconds(None), None);
}

#[test]
fn zero_means_no_deadline_rather_than_an_instant_one() {
    assert_eq!(deadline_from_seconds(Some(0)), None);
}

#[test]
fn a_positive_second_count_becomes_that_budget() {
    assert_eq!(deadline_from_seconds(Some(1)), Some(Duration::from_secs(1)));
    assert_eq!(
        deadline_from_seconds(Some(3_600)),
        Some(Duration::from_secs(3_600))
    );
}

#[test]
fn the_timeout_code_does_not_collide_with_a_generic_failure() {
    assert_ne!(EXIT_TIMEOUT, 0);
    assert_ne!(EXIT_TIMEOUT, 1);
}
