use minceraft::hit::closest_hit;

#[test]
fn no_hits() {
    assert_eq!(closest_hit(&vec![]), None);
    assert_eq!(closest_hit(&vec![None, None]), None);
}

#[test]
fn nearest_wins() {
    assert_eq!(closest_hit(&vec![Some(9), Some(4), Some(6)]), Some(1));
    assert_eq!(closest_hit(&vec![None, Some(u64::MAX)]), Some(1));
    assert_eq!(closest_hit(&vec![Some(0), Some(0)]), Some(0));
}

#[test]
fn first_of_equally_near() {
    assert_eq!(closest_hit(&vec![None, Some(5), Some(3), Some(3)]), Some(2));
    assert_eq!(closest_hit(&vec![Some(3), Some(2), Some(2), Some(3)]), Some(1));
}

/// Keys made from non-negative distances the way the game makes them compare
/// as the distances do.
#[test]
fn distance_keys_keep_order() {
    let key = |t: f64| -> u64 {
        let b = t.to_bits();
        if b >> 63 == 0 { b | (1 << 63) } else { !b }
    };
    let ts = [0.0, 0.25, 1.0, 1.5, 3.75, 100.0, -2.0];
    let hits: Vec<Option<u64>> = ts.iter().map(|t| Some(key(*t))).collect();
    assert_eq!(closest_hit(&hits), Some(6));
    let hits: Vec<Option<u64>> = ts[..6].iter().rev().map(|t| Some(key(*t))).collect();
    assert_eq!(closest_hit(&hits), Some(5));
}
