use loop_points::{detect_loop_pairs, DurationWindow};

struct Matrix {
    rows: usize,
    cols: usize,
    data: Vec<f32>,
}

impl Matrix {
    fn column(&self, c: usize) -> Vec<f32> {
        (0..self.rows).map(|r| self.data[r * self.cols + c]).collect()
    }
}

fn harmonic_distance(a: &[f32], b: &[f32]) -> f32 {
    a.iter().zip(b.iter()).map(|(x, y)| (x - y) * (x - y)).sum::<f32>().sqrt()
}

fn loudness_difference(a: &[f32], b: &[f32]) -> f32 {
    let peak = |v: &[f32]| v.iter().cloned().fold(f32::NEG_INFINITY, f32::max);
    (peak(a) - peak(b)).abs()
}

fn detect(
    chroma: &Matrix,
    power_db: &Matrix,
    beats: &[usize],
    tolerance: &[f32],
    min_loop_duration: usize,
    max_loop_duration: usize,
    loudness_tolerance: f32,
) -> Vec<(usize, usize, f32, f32)> {
    let judge = |e: usize, s: usize| {
        let d = harmonic_distance(&chroma.column(beats[e]), &chroma.column(beats[s]));
        if d <= tolerance[e] {
            let l = loudness_difference(&power_db.column(beats[e]), &power_db.column(beats[s]));
            if l <= loudness_tolerance {
                return Some((d, l));
            }
        }
        None
    };
    let frames = chroma.cols.min(power_db.cols);
    let window = DurationWindow { min_loop_duration, max_loop_duration };
    detect_loop_pairs(beats, frames, tolerance.len(), window, judge)
        .unwrap()
        .into_iter()
        .map(|p| (p.loop_start, p.loop_end, p.measures.0, p.measures.1))
        .collect()
}

#[test]
fn identical_columns_make_a_loop() {
    let chroma = Matrix {
        rows: 2,
        cols: 4,
        data: vec![
            1.0, 0.0, 1.0, 0.3, //
            0.0, 1.0, 0.0, 0.7,
        ],
    };
    let power_db = Matrix {
        rows: 2,
        cols: 4,
        data: vec![
            -10.0, -30.0, -10.0, -5.0, //
            -20.0, -25.0, -12.0, -40.0,
        ],
    };
    let r = detect(&chroma, &power_db, &[0, 1, 2, 3], &[0.0, 0.0, 0.0, 0.0], 1, 3, 0.5);
    assert!(r.contains(&(0, 2, 0.0, 0.0)));
    for &(start, end, _, _) in &r {
        let mixed = (start % 2 == 0) != (end % 2 == 0);
        assert!(!mixed, "pair ({start}, {end}) pairs unlike columns");
    }
    assert_eq!(r, vec![(0, 2, 0.0, 0.0)]);
}

#[test]
fn loudness_gap_rejects_a_harmonic_match() {
    let chroma = Matrix { rows: 1, cols: 3, data: vec![0.5, 0.9, 0.5] };
    let power_db = Matrix { rows: 1, cols: 3, data: vec![-10.0, -10.0, -11.0] };
    let r = detect(&chroma, &power_db, &[0, 1, 2], &[0.1, 0.1, 0.1], 1, 2, 0.5);
    assert!(r.is_empty());
    let r = detect(&chroma, &power_db, &[0, 1, 2], &[0.1, 0.1, 0.1], 1, 2, 1.0);
    assert_eq!(r, vec![(0, 2, 0.0, 1.0)]);
}

#[test]
fn chroma_distance_is_euclidean() {
    let chroma = Matrix { rows: 2, cols: 2, data: vec![0.0, 3.0, 0.0, 4.0] };
    let power_db = Matrix { rows: 1, cols: 2, data: vec![-6.0, -6.0] };
    let r = detect(&chroma, &power_db, &[0, 1], &[5.0, 5.0], 1, 1, 0.0);
    assert_eq!(r, vec![(0, 1, 5.0, 0.0)]);
    let r = detect(&chroma, &power_db, &[0, 1], &[4.9, 4.9], 1, 1, 0.0);
    assert!(r.is_empty());
}
