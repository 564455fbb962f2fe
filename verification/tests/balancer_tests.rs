use ssl_proxy_manager::balancer::{select_upstream, total, BalanceError};
use ssl_proxy_manager::config::Upstream;

fn upstreams(weights: &[i32]) -> Vec<Upstream> {
    weights
        .iter()
        .enumerate()
        .map(|(i, w)| Upstream { url: format!("http://10.0.0.{}:80", i + 1), weight: *w })
        .collect()
}

#[test]
fn draws_fall_to_the_first_cumulative_weight_above() {
    let ups = upstreams(&[3, 1, 2]);
    let chosen: Vec<usize> = (0..6).map(|d| select_upstream(&ups, d).unwrap()).collect();
    assert_eq!(chosen, vec![0, 0, 0, 1, 2, 2]);
}

#[test]
fn shares_equal_weights_over_a_full_cycle() {
    let ups = upstreams(&[5, 0, 3, 2]);
    let mut hits = [0u32; 4];
    for d in 0..10_000u64 {
        hits[select_upstream(&ups, d).unwrap()] += 1;
    }
    assert_eq!(hits, [5000, 0, 3000, 2000]);
}

#[test]
fn zero_weight_is_never_selected() {
    let ups = upstreams(&[0, 7, 0]);
    for d in 0..1000u64 {
        assert_eq!(select_upstream(&ups, d.wrapping_mul(0x9E37_79B9_7F4A_7C15)), Ok(1));
    }
}

#[test]
fn all_zero_weights_fail_closed() {
    assert_eq!(select_upstream(&upstreams(&[0, 0]), 5), Err(BalanceError::NoAvailableUpstream));
    assert_eq!(select_upstream(&upstreams(&[]), 0), Err(BalanceError::NoAvailableUpstream));
}

#[test]
fn negative_weights_count_as_zero() {
    let ups = upstreams(&[-4, 2, -1]);
    assert_eq!(total(&ups), 2);
    for d in 0..50u64 {
        assert_eq!(select_upstream(&ups, d), Ok(1));
    }
    assert_eq!(select_upstream(&upstreams(&[-1]), 0), Err(BalanceError::NoAvailableUpstream));
}

#[test]
fn random_number_is_reduced_by_the_total() {
    let ups = upstreams(&[1, 1]);
    assert_eq!(select_upstream(&ups, 0), Ok(0));
    assert_eq!(select_upstream(&ups, 1), Ok(1));
    assert_eq!(select_upstream(&ups, 2), Ok(0));
    assert_eq!(select_upstream(&ups, u64::MAX), Ok(1));
}

#[test]
fn total_sums_large_weights_without_overflow() {
    let ups = upstreams(&[i32::MAX, i32::MAX, i32::MAX]);
    assert_eq!(total(&ups), 3 * (i32::MAX as u128));
    assert_eq!(select_upstream(&ups, i32::MAX as u64), Ok(1));
}

#[test]
fn selection_keeps_no_state_between_calls() {
    let ups = upstreams(&[3, 1]);
    for _ in 0..5 {
        assert_eq!(select_upstream(&ups, 3), Ok(1));
        assert_eq!(select_upstream(&ups, 0), Ok(0));
    }
}
