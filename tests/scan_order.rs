use ray_tracing_in_one_weekend::image::{pixel_at, scan_order};

#[test]
fn first_pixel_is_top_left() {
    assert_eq!(pixel_at(0, 4, 3), (0, 2));
}

#[test]
fn rows_run_left_to_right_then_down() {
    assert_eq!(pixel_at(3, 4, 3), (3, 2));
    assert_eq!(pixel_at(5, 4, 3), (1, 1));
    assert_eq!(pixel_at(11, 4, 3), (3, 0));
}

#[test]
fn small_image_order() {
    assert_eq!(scan_order(2, 2), vec![(0, 1), (1, 1), (0, 0), (1, 0)]);
}

#[test]
fn empty_image_has_no_pixels() {
    assert!(scan_order(0, 5).is_empty());
    assert!(scan_order(5, 0).is_empty());
}

#[test]
fn every_pixel_once() {
    let (w, h) = (400, 225);
    let order = scan_order(w, h);
    assert_eq!(order.len(), w * h);
    let mut seen = vec![false; w * h];
    for (k, &(i, j)) in order.iter().enumerate() {
        assert_eq!(pixel_at(k, w, h), (i, j));
        let slot = j * w + i;
        assert!(!seen[slot]);
        seen[slot] = true;
    }
    assert!(seen.iter().all(|&s| s));
}
