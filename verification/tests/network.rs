use sysutil::delta::{column_total, rate_from_totals, rows_have_arity};
use sysutil::{compute_network_delta, networkRate, Family, NetworkRate, Ratio, SampleError, Snapshot};

fn per_second(r: Ratio) -> f64 {
    r.num as f64 / (r.den as f64 / 1000.0)
}

fn interface(received: usize, transmitted: usize) -> Vec<usize> {
    vec![received, 0, 0, 0, 0, 0, 0, 0, transmitted, 0, 0, 0, 0, 0, 0, 0]
}

#[test]
fn rate_over_half_a_second() {
    let before = Snapshot { rows: vec![interface(1000, 500)] };
    let after = Snapshot { rows: vec![interface(1500, 600)] };
    let rate = compute_network_delta(&before, &after, 500).unwrap();
    assert_eq!(rate.download, Ratio { num: 500, den: 500 });
    assert_eq!(rate.upload, Ratio { num: 100, den: 500 });
    assert_eq!(per_second(rate.download), 500.0 / 0.5);
    assert_eq!(per_second(rate.upload), 200.0);
}

#[test]
fn rate_sums_all_interfaces() {
    let before = Snapshot { rows: vec![interface(10, 1), interface(20, 2), interface(30, 3)] };
    let after = Snapshot { rows: vec![interface(11, 1), interface(25, 4), interface(130, 3)] };
    let rate = compute_network_delta(&before, &after, 250).unwrap();
    assert_eq!(rate, NetworkRate {
        download: Ratio { num: 106, den: 250 },
        upload: Ratio { num: 2, den: 250 },
    });
}

#[test]
fn one_interface_may_go_down_while_the_total_does_not() {
    let before = Snapshot { rows: vec![interface(10, 5), interface(20, 5)] };
    let after = Snapshot { rows: vec![interface(5, 5), interface(30, 5)] };
    let rate = compute_network_delta(&before, &after, 1000).unwrap();
    assert_eq!(rate.download, Ratio { num: 5, den: 1000 });
    assert_eq!(rate.upload, Ratio { num: 0, den: 1000 });
}

#[test]
fn no_interfaces_give_zero_rates() {
    let none = Snapshot { rows: vec![] };
    let rate = compute_network_delta(&none, &Snapshot { rows: vec![] }, 500).unwrap();
    assert_eq!(rate.download, Ratio { num: 0, den: 500 });
    assert_eq!(rate.upload, Ratio { num: 0, den: 500 });
}

#[test]
fn zero_elapsed_time_is_an_error() {
    let before = Snapshot { rows: vec![interface(1000, 500)] };
    let after = Snapshot { rows: vec![interface(1500, 600)] };
    assert_eq!(
        compute_network_delta(&before, &after, 0).unwrap_err(),
        SampleError::ZeroElapsedDelta
    );
}

#[test]
fn a_total_that_went_down_is_reported() {
    let before = Snapshot { rows: vec![interface(1000, 500)] };
    let after = Snapshot { rows: vec![interface(999, 600)] };
    assert_eq!(
        compute_network_delta(&before, &after, 500).unwrap_err(),
        SampleError::CounterRegressed
    );
    let after = Snapshot { rows: vec![interface(1000, 499)] };
    assert_eq!(
        compute_network_delta(&before, &after, 500).unwrap_err(),
        SampleError::CounterRegressed
    );
}

#[test]
fn an_interface_that_appeared_is_a_shape_mismatch() {
    let before = Snapshot { rows: vec![interface(1, 1)] };
    let after = Snapshot { rows: vec![interface(1, 1), interface(2, 2)] };
    assert_eq!(
        compute_network_delta(&before, &after, 500).unwrap_err(),
        SampleError::SnapshotShapeMismatch
    );
    assert_eq!(
        compute_network_delta(&after, &before, 0).unwrap_err(),
        SampleError::SnapshotShapeMismatch
    );
}

#[test]
fn a_short_interface_row_is_a_shape_mismatch() {
    let before = Snapshot { rows: vec![vec![1, 2, 3, 4, 5, 6, 7, 8]] };
    let after = Snapshot { rows: vec![interface(1, 1)] };
    assert_eq!(
        compute_network_delta(&before, &after, 500).unwrap_err(),
        SampleError::SnapshotShapeMismatch
    );
    assert_eq!(
        compute_network_delta(&after, &before, 500).unwrap_err(),
        SampleError::SnapshotShapeMismatch
    );
}

#[test]
fn rate_from_two_pairs_of_totals() {
    assert_eq!(
        rate_from_totals((1000, 500), (1500, 600), 500),
        Ok(NetworkRate {
            download: Ratio { num: 500, den: 500 },
            upload: Ratio { num: 100, den: 500 },
        })
    );
    assert_eq!(rate_from_totals((1, 1), (1, 1), 0), Err(SampleError::ZeroElapsedDelta));
    assert_eq!(rate_from_totals((2, 1), (1, 1), 1), Err(SampleError::CounterRegressed));
    assert_eq!(rate_from_totals((1, 2), (1, 1), 1), Err(SampleError::CounterRegressed));
}

#[test]
fn column_helpers() {
    let s = Snapshot { rows: vec![interface(7, 9), interface(usize::MAX, 1)] };
    assert_eq!(column_total(&s, 0), usize::MAX as u128 + 7);
    assert_eq!(column_total(&s, 8), 10);
    assert!(rows_have_arity(&s, Family::Network));
    assert!(rows_have_arity(&s, Family::Cpu));
    let short = Snapshot { rows: vec![vec![1, 2, 3, 4, 5, 6, 7]] };
    assert!(rows_have_arity(&short, Family::Cpu));
    assert!(!rows_have_arity(&short, Family::Network));
}

#[test]
fn rate_from_two_texts() {
    let before = b"Inter-| Receive | Transmit\n lo: 1000 1 0 0 0 0 0 0 500 1 0 0 0 0 0 0\n";
    let after = b"Inter-| Receive | Transmit\n lo: 1500 2 0 0 0 0 0 0 600 2 0 0 0 0 0 0\n";
    let rate = networkRate(before, after, 500).unwrap();
    assert_eq!(rate.download, Ratio { num: 500, den: 500 });
    assert_eq!(rate.upload, Ratio { num: 100, den: 500 });
}

#[test]
fn rate_from_texts_reports_each_failure() {
    let good = b"lo: 1 0 0 0 0 0 0 0 1";
    assert_eq!(networkRate(b"", good, 500), Err(SampleError::SourceUnavailable));
    assert_eq!(networkRate(good, b"", 500), Err(SampleError::SourceUnavailable));
    assert_eq!(
        networkRate(b"lo: 1 0 0 0 0 0 0 0 q", good, 500),
        Err(SampleError::MalformedCounterLine { line: 0, family: Family::Network })
    );
    assert_eq!(
        networkRate(good, b"lo: 1 0 0 0 0 0 0 0 1\nwl: 1 0 0 0 0 0 0 0 1", 500),
        Err(SampleError::SnapshotShapeMismatch)
    );
    assert_eq!(networkRate(good, good, 0), Err(SampleError::ZeroElapsedDelta));
    assert_eq!(networkRate(good, b"lo: 0 0 0 0 0 0 0 0 1", 500), Err(SampleError::CounterRegressed));
}
