use racers::sensor::{closest_hit, closest_sector, scan_order, segment_points};

#[test]
fn closest_sector_first_on_tie() {
    assert_eq!(closest_sector(&vec![7]), 0);
    assert_eq!(closest_sector(&vec![9, 4, 6, 4]), 1);
    assert_eq!(closest_sector(&vec![2, 2, 2]), 0);
    assert_eq!(closest_sector(&vec![5, 8, 1]), 2);
}

#[test]
fn closest_sector_on_float_distances() {
    let d: Vec<f32> = vec![12.5, 3.25, 3.5, 100.0];
    let keys: Vec<u32> = d.iter().map(|x| x.to_bits()).collect();
    assert_eq!(closest_sector(&keys), 1);
}

#[test]
fn closest_hit_takes_minimum_over_both_edges() {
    // left edge of a segment hit further away than the right edge of it
    let hits = vec![None, Some(40), Some(25), None, Some(60)];
    assert_eq!(closest_hit(&hits, 1200), 25);
}

#[test]
fn closest_hit_defaults_to_cap() {
    assert_eq!(closest_hit(&vec![], 1200), 1200);
    assert_eq!(closest_hit(&vec![None, None], 1200), 1200);
    assert_eq!(closest_hit(&vec![Some(5000)], 1200), 1200);
}

#[test]
fn scan_wraps_round_the_track() {
    assert_eq!(scan_order(2, 4), vec![2, 3, 0, 1]);
    assert_eq!(scan_order(0, 3), vec![0, 1, 2]);
}

#[test]
fn segment_neighbours_wrap() {
    assert_eq!(segment_points(0, 4), (3, 0, 1, 2));
    assert_eq!(segment_points(2, 4), (1, 2, 3, 0));
    assert_eq!(segment_points(3, 4), (2, 3, 0, 1));
    assert_eq!(segment_points(1, 2), (0, 1, 0, 1));
}
