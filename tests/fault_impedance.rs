use iec60909::{
    assemble, impedance_diagonal, Admittances, BranchNodes, Busbar, Entry, Topology,
};
use num_complex::Complex64;

fn labels(v: &[&str]) -> Vec<String> {
    v.iter().map(|s| s.to_string()).collect()
}

fn branch(from: &str, to: &str) -> BranchNodes {
    BranchNodes { from: from.to_string(), to: to.to_string() }
}

fn milliohm(re: f64, im: f64) -> Complex64 {
    Complex64::new(re / 1000.0, im / 1000.0)
}

fn y(z: Complex64) -> Result<Complex64, iec60909::ImpedanceError> {
    Ok(Complex64::new(1.0, 0.0) / z)
}

/// Solves `a x = b` by Gaussian elimination with partial pivoting.
fn dense_solve(a: &[Vec<Complex64>], b: Vec<Complex64>) -> Option<Vec<Complex64>> {
    let n = b.len();
    let mut m: Vec<Vec<Complex64>> = a.to_vec();
    let mut x = b;
    for c in 0..n {
        let p = (c..n).max_by(|&i, &j| m[i][c].norm().partial_cmp(&m[j][c].norm()).unwrap())?;
        if m[p][c].norm() == 0.0 {
            return None;
        }
        m.swap(c, p);
        x.swap(c, p);
        for r in c + 1..n {
            let f = m[r][c] / m[c][c];
            for k in c..n {
                let v = m[c][k];
                m[r][k] -= f * v;
            }
            let v = x[c];
            x[r] -= f * v;
        }
    }
    for c in (0..n).rev() {
        let mut s = x[c];
        for k in c + 1..n {
            s -= m[c][k] * x[k];
        }
        x[c] = s / m[c][c];
    }
    Some(x)
}

fn dense(n: usize, entries: &[Entry<Complex64>]) -> Vec<Vec<Complex64>> {
    let mut a = vec![vec![Complex64::new(0.0, 0.0); n]; n];
    for e in entries {
        if e.subtract {
            a[e.row][e.col] -= e.value;
        } else {
            a[e.row][e.col] += e.value;
        }
    }
    a
}

/// Short-circuit impedance at the 0.4 kV side of T1 in the system of
/// section 3 of IEC 60909-4, from the element impedances that the standard
/// tabulates for it.
#[test]
fn section3_fault_impedance_at_t1() {
    let t = Topology {
        busbars: vec![
            Busbar::new(labels(&["Q1", "Q", "Q2"]), 20_000),
            Busbar::new(labels(&["L1", "L3", "L2"]), 400),
        ],
        feeders: labels(&["Q"]),
        power_stations: vec![],
        generators: vec![],
        transformers: vec![branch("Q1", "T1"), branch("Q2", "T2")],
        three_winding_transformers: vec![],
        motors: vec![],
        lines: vec![branch("L4", "F3")],
        cables: vec![branch("T1", "L1"), branch("T2", "L2"), branch("L3", "L4")],
    };
    let a = Admittances {
        feeders: vec![y(milliohm(0.053, 0.531))],
        transformers: vec![y(milliohm(2.684, 10.054)), y(milliohm(4.712, 15.698))],
        cables: vec![
            y(milliohm(0.385, 0.395)),
            y(milliohm(0.416, 0.136)),
            y(milliohm(5.420, 1.740)),
        ],
        lines: vec![y(milliohm(18.50, 14.85))],
        power_stations: vec![],
        three_winding_transformers: vec![],
    };
    let ix = t.nodes();
    let n = ix.count();
    let entries = assemble(&t, &ix, &a).unwrap();
    let matrix = dense(n, &entries);
    let zero = Complex64::new(0.0, 0.0);
    let one = Complex64::new(1.0, 0.0);
    let diag = impedance_diagonal(n, zero, one, |b| dense_solve(&matrix, b)).unwrap();
    let map = ix.fault_map(&diag);
    let zk = map.iter().find(|(l, _)| l == "T1").map(|(_, z)| *z).unwrap();
    assert!((zk.re - 1.881 / 1000.0).abs() < 1e-6);
    assert!((zk.im - 6.746 / 1000.0).abs() < 1e-6);

    // Only the feeder ties the network to ground, so at its own node the
    // driving-point impedance is the feeder's.
    let zq = map.iter().find(|(l, _)| l == "Q").map(|(_, z)| *z).unwrap();
    assert!((zq.re - 0.053 / 1000.0).abs() < 1e-9);
    assert!((zq.im - 0.531 / 1000.0).abs() < 1e-9);
}
