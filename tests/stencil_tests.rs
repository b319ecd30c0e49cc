use adjoint_check::state::State;
use adjoint_check::stencil::{ad_apply_stencil_one, apply_stencil_one, left_of, right_of};

fn dot(a: &[i64], b: &[i64]) -> i64 {
    a.iter().zip(b.iter()).map(|(x, y)| x * y).sum()
}

fn forward(x: &[i64], wl: i64, wr: i64) -> Vec<i64> {
    let mut s = State::new(x.to_vec(), None).unwrap();
    apply_stencil_one(&mut s, |l: i64, r: i64| wl * l + wr * r);
    s.vec()
}

fn adjoint(y: &[i64], wl: i64, wr: i64) -> Vec<i64> {
    let mut s = State::new(y.to_vec(), None).unwrap();
    ad_apply_stencil_one(&mut s, |c: i64| (wl * c, wr * c), |a: i64, b: i64| a + b, 0);
    s.vec()
}

#[test]
fn neighbours_wrap_around() {
    assert_eq!(left_of(0, 5), 4);
    assert_eq!(right_of(4, 5), 0);
    assert_eq!(left_of(3, 5), 2);
    assert_eq!(right_of(3, 5), 4);
    assert_eq!(left_of(0, 2), 1);
    assert_eq!(right_of(0, 2), 1);
}

#[test]
fn forward_sweep_reads_a_snapshot() {
    assert_eq!(forward(&[1, 2, 3, 4, 5], 1, 10), vec![25, 31, 42, 53, 14]);
}

#[test]
fn reverse_sweep_scatters_to_both_neighbours() {
    assert_eq!(adjoint(&[1, 2, 3, 4, 5], 1, 10), vec![52, 13, 24, 35, 41]);
}

#[test]
fn sweeps_are_transposes_exactly() {
    let x = [3, -1, 4, 1, -5, 9, 2];
    let y = [2, 7, -1, 8, 2, -8, 1];
    let (wl, wr) = (3, -2);
    assert_eq!(dot(&forward(&x, wl, wr), &y), dot(&x, &adjoint(&y, wl, wr)));
    let fx = forward(&x, wl, wr);
    assert_eq!(dot(&fx, &fx), dot(&adjoint(&fx, wl, wr), &x));
}

#[test]
fn smallest_cycles_count_each_neighbour_once() {
    assert_eq!(forward(&[1, 2], 1, 10), vec![22, 11]);
    assert_eq!(adjoint(&[1, 2], 1, 10), vec![22, 11]);
    assert_eq!(forward(&[1, 2, 3], 1, 10), vec![23, 31, 12]);
    assert_eq!(adjoint(&[1, 2, 3], 1, 10), vec![32, 13, 21]);
    for n in 2..5usize {
        let x: Vec<i64> = (1..=n as i64).collect();
        let y: Vec<i64> = (0..n as i64).map(|v| 7 - 2 * v).collect();
        assert_eq!(dot(&forward(&x, 2, 5), &y), dot(&x, &adjoint(&y, 2, 5)));
    }
}

#[test]
fn sweeping_a_cleared_accumulator_adds_nothing() {
    let once = adjoint(&forward(&[1, 2, 3, 4], 2, 3), 2, 3);
    assert_ne!(once, vec![0, 0, 0, 0]);
    assert_eq!(adjoint(&[0, 0, 0, 0], 2, 3), vec![0, 0, 0, 0]);
}

#[test]
fn sweeps_keep_names() {
    let mut s = State::new(vec![1i64, 2, 3], Some(vec!["p", "q", "r"])).unwrap();
    apply_stencil_one(&mut s, |l: i64, r: i64| l + r);
    assert_eq!(s.get_by_name("q"), Ok(4));
    ad_apply_stencil_one(&mut s, |c: i64| (c, 0), |a: i64, b: i64| a + b, 0);
    assert_eq!(s.get_by_name("q"), Ok(3));
}
