use imaging_diffusion::histogram::{CellCoordinates, PhotonHistogram};

fn at(x: i64, y: i64, z: i64) -> CellCoordinates {
    CellCoordinates { x, y, z }
}

fn csv_text(h: &PhotonHistogram) -> String {
    String::from_utf8(h.to_csv()).unwrap()
}

#[test]
fn new_histogram_is_empty() {
    let h = PhotonHistogram::new(3);
    assert_eq!(h.cell_number(), 3);
    assert_eq!(h.cells().len(), 27);
    assert!(h.cells().iter().all(|&v| v == 0));
    assert_eq!(h.get(27), None);
}

#[test]
fn zero_cells_drop_everything() {
    let mut h = PhotonHistogram::new(0);
    h.count(at(0, 0, 0));
    assert_eq!(h.cells().len(), 0);
    assert_eq!(csv_text(&h), "");
}

#[test]
fn flush_of_two_by_two_grid() {
    let mut h = PhotonHistogram::new(2);
    // cell (0,0,0) holds floored coordinates -1 on each axis
    for _ in 0..3 {
        h.count(at(-1, -1, -1));
    }
    // cell (1,1,1) holds floored coordinates 0 on each axis
    h.count(at(0, 0, 0));
    let text = csv_text(&h);
    assert_eq!(text, "3,0,0,0,0,0,0,1");
    let values: Vec<u32> = text.split(',').map(|t| t.parse().unwrap()).collect();
    assert_eq!(values.len(), 8);
    assert_eq!(values.iter().filter(|&&v| v != 0).count(), 2);
}

#[test]
fn index_is_z_major() {
    let h = PhotonHistogram::new(4);
    // cell (x=1, y=2, z=3): floored coordinates shifted by -2
    assert_eq!(h.get_index(at(-1, 0, 1)), Some(3 * 16 + 2 * 4 + 1));
    assert_eq!(h.get_index(at(-2, -2, -2)), Some(0));
    assert_eq!(h.get_index(at(1, 1, 1)), Some(63));
}

#[test]
fn upper_face_is_outside_on_every_axis() {
    let h = PhotonHistogram::new(2);
    // with domain size 2 and two cells, a position of exactly 1.0 floors to 1
    assert_eq!(h.get_index(at(1, 0, 0)), None);
    assert_eq!(h.get_index(at(0, 1, 0)), None);
    assert_eq!(h.get_index(at(0, 0, 1)), None);
    // and the lower face, -1.0, is inside
    assert_eq!(h.get_index(at(-1, 0, 0)), Some(1 * 4 + 1 * 2 + 0));
    assert_eq!(h.get_index(at(0, -1, 0)), Some(1 * 4 + 0 + 1));
    assert_eq!(h.get_index(at(0, 0, -1)), Some(0 + 1 * 2 + 1));
}

#[test]
fn odd_grid_bounds() {
    let h = PhotonHistogram::new(3);
    assert_eq!(h.get_index(at(-1, -1, -1)), Some(0));
    assert_eq!(h.get_index(at(1, 1, 1)), Some(26));
    assert_eq!(h.get_index(at(2, 0, 0)), None);
    assert_eq!(h.get_index(at(-2, 0, 0)), None);
}

#[test]
fn out_of_domain_counts_are_dropped() {
    let mut h = PhotonHistogram::new(2);
    h.count(at(5, 0, 0));
    h.count(at(0, -7, 0));
    h.count(at(i64::MAX, i64::MIN, 0));
    assert!(h.cells().iter().all(|&v| v == 0));
}

#[test]
fn count_times_adds_to_one_cell() {
    let mut h = PhotonHistogram::new(2);
    h.count_times(at(0, -1, 0), 12);
    h.count_times(at(0, -1, 0), 0);
    assert_eq!(h.get(5), Some(12));
    assert_eq!(csv_text(&h), "0,0,0,0,0,12,0,0");
}

#[test]
fn count_all_tallies_each_cell() {
    let mut h = PhotonHistogram::new(2);
    let points = vec![at(0, 0, 0), at(-1, -1, -1), at(0, 0, 0), at(3, 0, 0)];
    h.count_all(&points);
    assert_eq!(h.get(7), Some(2));
    assert_eq!(h.get(0), Some(1));
    assert_eq!(h.cells().iter().map(|&v| v as u64).sum::<u64>(), 3);
}

#[test]
fn merging_worker_histograms_loses_nothing() {
    let a = vec![at(0, 0, 0), at(-1, 0, 0), at(0, 0, 0)];
    let b = vec![at(0, 0, 0), at(-1, -1, -1), at(9, 9, 9)];
    let mut left = PhotonHistogram::new(2);
    left.count_all(&a);
    let mut right = PhotonHistogram::new(2);
    right.count_all(&b);
    assert!(left.merge(&right));

    let mut whole = PhotonHistogram::new(2);
    let mut both = b.clone();
    both.extend(a.iter().copied());
    whole.count_all(&both);
    assert_eq!(left.cells(), whole.cells());
    assert_eq!(left.get(7), Some(3));
    assert_eq!(left.get(6), Some(1));
    assert_eq!(left.get(0), Some(1));
}

#[test]
fn merge_refuses_other_shape() {
    let mut a = PhotonHistogram::new(2);
    a.count(at(0, 0, 0));
    let mut b = PhotonHistogram::new(3);
    b.count(at(0, 0, 0));
    assert!(!a.merge(&b));
    assert_eq!(csv_text(&a), "0,0,0,0,0,0,0,1");
}

#[test]
fn large_counts_print_all_digits() {
    let mut h = PhotonHistogram::new(1);
    h.count_times(at(0, 0, 0), 1_234_567);
    assert_eq!(csv_text(&h), "1234567");
}
