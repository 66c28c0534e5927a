use iec60909::{
    assemble, Terminal, c_or_default, impedance_diagonal, voltage_correction_factor, voltage_level,
    Admittances, BranchNodes, Busbar, BusbarIndex, ElementKind, Entry, ImpedanceError,
    NetworkError, NodeIndex, StationNodes, Topology, VoltageLevel, WindingNodes,
};

fn labels(v: &[&str]) -> Vec<String> {
    v.iter().map(|s| s.to_string()).collect()
}

fn branch(from: &str, to: &str) -> BranchNodes {
    BranchNodes { from: from.to_string(), to: to.to_string() }
}

/// The connections of the 20 kV / 0.4 kV system of section 3 of IEC 60909-4.
fn section3() -> Topology {
    Topology {
        busbars: vec![
            Busbar::new(labels(&["Q1", "Q", "Q2"]), 20_000),
            Busbar { nodes: labels(&["L1", "L3", "L2"]), un: 400, cmax: Some(105), cmin: None },
        ],
        feeders: labels(&["Q"]),
        power_stations: vec![],
        generators: vec![],
        transformers: vec![branch("Q1", "T1"), branch("Q2", "T2")],
        three_winding_transformers: vec![],
        motors: vec![],
        lines: vec![branch("L4", "F3")],
        cables: vec![branch("T1", "L1"), branch("T2", "L2"), branch("L3", "L4")],
    }
}

fn node(ix: &NodeIndex, label: &str) -> Option<usize> {
    ix.node(&label.to_string())
}

#[test]
fn correction_factor_low_voltage() {
    assert_eq!(voltage_correction_factor(300, true, true), 95);
    assert_eq!(voltage_correction_factor(300, false, true), 105);
    assert_eq!(voltage_correction_factor(300, false, false), 110);
}

#[test]
fn correction_factor_medium_voltage() {
    assert_eq!(voltage_correction_factor(20_000, true, true), 100);
    assert_eq!(voltage_correction_factor(20_000, false, true), 110);
    assert_eq!(voltage_correction_factor(20_000, false, false), 110);
}

#[test]
fn correction_factor_high_voltage() {
    assert_eq!(voltage_correction_factor(150_000, true, false), 100);
    assert_eq!(voltage_correction_factor(150_000, false, true), 110);
    assert_eq!(voltage_correction_factor(150_000, false, false), 110);
}

#[test]
fn correction_factor_band_edges() {
    assert_eq!(voltage_correction_factor(1000, true, true), 95);
    assert_eq!(voltage_correction_factor(1001, true, true), 100);
    assert_eq!(voltage_correction_factor(1000, false, true), 105);
    assert_eq!(voltage_correction_factor(1001, false, true), 110);
    assert_eq!(voltage_level(0), VoltageLevel::Low);
    assert_eq!(voltage_level(1000), VoltageLevel::Low);
    assert_eq!(voltage_level(1001), VoltageLevel::Medium);
    assert_eq!(voltage_level(35_000), VoltageLevel::Medium);
    assert_eq!(voltage_level(35_001), VoltageLevel::High);
}

#[test]
fn correction_factor_never_falls_with_voltage() {
    let voltages = [0u64, 230, 400, 1000, 1001, 10_000, 35_000, 35_001, 110_000, 380_000];
    for min in [true, false] {
        for six in [true, false] {
            for w in voltages.windows(2) {
                let a = voltage_correction_factor(w[0], min, six);
                let b = voltage_correction_factor(w[1], min, six);
                assert!(a <= b);
            }
        }
    }
}

#[test]
fn busbar_correction_factor_explicit_or_default() {
    let mut b = Busbar::new(labels(&["A"]), 400);
    assert_eq!(c_or_default(&b), 105);
    b.cmax = Some(110);
    assert_eq!(c_or_default(&b), 110);
    let hv = Busbar::new(labels(&["B"]), 110_000);
    assert_eq!(c_or_default(&hv), 110);
}

#[test]
fn busbar_index_lookup() {
    let t = section3();
    let ix = BusbarIndex::new(&t.busbars);
    assert_eq!(ix.len(), 2);
    assert_eq!(ix.busbar(&"Q".to_string()), Some(0));
    assert_eq!(ix.busbar(&"Q2".to_string()), Some(0));
    assert_eq!(ix.busbar(&"L3".to_string()), Some(1));
    assert_eq!(ix.busbar(&"T1".to_string()), None);
    let empty = BusbarIndex::empty();
    assert_eq!(empty.len(), 0);
    assert_eq!(empty.busbar(&"Q".to_string()), None);
}

#[test]
fn busbar_index_takes_last_busbar_of_a_label() {
    let busbars = vec![
        Busbar::new(labels(&["X", "Y"]), 400),
        Busbar::new(labels(&["Z", "Y"]), 400),
    ];
    let ix = BusbarIndex::new(&busbars);
    assert_eq!(ix.busbar(&"X".to_string()), Some(0));
    assert_eq!(ix.busbar(&"Y".to_string()), Some(1));
}

#[test]
fn scan_order_of_terminals() {
    let t = Topology {
        busbars: vec![],
        feeders: labels(&["f"]),
        power_stations: vec![StationNodes {
            generator: "g".to_string(),
            hv: "h".to_string(),
            lv: "l".to_string(),
        }],
        generators: labels(&["G"]),
        transformers: vec![branch("t1", "t2")],
        three_winding_transformers: vec![WindingNodes {
            hv: "a".to_string(),
            mv: "b".to_string(),
            lv: "c".to_string(),
        }],
        motors: labels(&["m"]),
        lines: vec![branch("x", "y")],
        cables: vec![branch("u", "v")],
    };
    assert_eq!(
        t.scan(),
        labels(&["f", "g", "h", "l", "G", "t1", "t2", "a", "b", "c", "m", "x", "y", "u", "v"])
    );
    let ix = t.nodes();
    assert_eq!(ix.count(), 16);
    assert_eq!(node(&ix, "f"), Some(0));
    assert_eq!(node(&ix, "v"), Some(14));
    assert_eq!(ix.star_node(0), Some(15));
    assert_eq!(ix.star_node(1), None);
}

#[test]
fn node_numbering_section3() {
    let ix = section3().nodes();
    assert_eq!(ix.count(), 6);
    for label in ["Q", "Q1", "Q2"] {
        assert_eq!(node(&ix, label), Some(0));
    }
    for label in ["L1", "L2", "L3"] {
        assert_eq!(node(&ix, label), Some(1));
    }
    assert_eq!(node(&ix, "T1"), Some(2));
    assert_eq!(node(&ix, "T2"), Some(3));
    assert_eq!(node(&ix, "L4"), Some(4));
    assert_eq!(node(&ix, "F3"), Some(5));
    assert_eq!(node(&ix, "nowhere"), None);
}

#[test]
fn node_numbering_merges_shared_labels() {
    let t = Topology {
        busbars: vec![],
        feeders: labels(&["A"]),
        power_stations: vec![],
        generators: vec![],
        transformers: vec![branch("A", "B"), branch("A", "B")],
        three_winding_transformers: vec![],
        motors: vec![],
        lines: vec![],
        cables: vec![branch("B", "C")],
    };
    let ix = t.nodes();
    assert_eq!(ix.count(), 3);
    assert_eq!(node(&ix, "A"), Some(0));
    assert_eq!(node(&ix, "B"), Some(1));
    assert_eq!(node(&ix, "C"), Some(2));
}

fn section3_admittances(feeder: Result<f64, ImpedanceError>) -> Admittances<f64> {
    Admittances {
        feeders: vec![feeder],
        transformers: vec![Ok(2.0), Ok(3.0)],
        cables: vec![Ok(5.0), Ok(7.0), Ok(11.0)],
        lines: vec![Ok(13.0)],
        power_stations: vec![],
        three_winding_transformers: vec![],
    }
}

fn entry(row: usize, col: usize, value: f64, subtract: bool) -> (usize, usize, f64, bool) {
    let e = Entry { row, col, value, subtract };
    (e.row, e.col, e.value, e.subtract)
}

#[test]
fn stamping_order_and_signs() {
    let t = section3();
    let ix = t.nodes();
    let entries = assemble(&t, &ix, &section3_admittances(Ok(1.0))).unwrap();
    let got: Vec<(usize, usize, f64, bool)> =
        entries.iter().map(|e| (e.row, e.col, e.value, e.subtract)).collect();
    let expected = vec![
        entry(0, 0, 1.0, false),
        entry(0, 0, 2.0, false),
        entry(0, 2, 2.0, true),
        entry(2, 0, 2.0, true),
        entry(2, 2, 2.0, false),
        entry(0, 0, 3.0, false),
        entry(0, 3, 3.0, true),
        entry(3, 0, 3.0, true),
        entry(3, 3, 3.0, false),
        entry(2, 2, 5.0, false),
        entry(2, 1, 5.0, true),
        entry(1, 2, 5.0, true),
        entry(1, 1, 5.0, false),
        entry(3, 3, 7.0, false),
        entry(3, 1, 7.0, true),
        entry(1, 3, 7.0, true),
        entry(1, 1, 7.0, false),
        entry(1, 1, 11.0, false),
        entry(1, 4, 11.0, true),
        entry(4, 1, 11.0, true),
        entry(4, 4, 11.0, false),
        entry(4, 4, 13.0, false),
        entry(4, 5, 13.0, true),
        entry(5, 4, 13.0, true),
        entry(5, 5, 13.0, false),
    ];
    assert_eq!(got, expected);
}

#[test]
fn zero_impedance_aborts_assembly() {
    let t = section3();
    let ix = t.nodes();
    let r = assemble(&t, &ix, &section3_admittances(Err(ImpedanceError::ZeroImpedance)));
    assert_eq!(
        r.unwrap_err(),
        NetworkError::Element {
            kind: ElementKind::Feeder,
            position: 0,
            cause: ImpedanceError::ZeroImpedance
        }
    );
}

#[test]
fn first_failing_element_is_reported() {
    let t = section3();
    let ix = t.nodes();
    let mut a = section3_admittances(Ok(1.0));
    a.cables[1] = Err(ImpedanceError::ZeroImpedance);
    a.lines[0] = Err(ImpedanceError::MissingRating);
    let r = assemble(&t, &ix, &a);
    assert_eq!(
        r.unwrap_err(),
        NetworkError::Element {
            kind: ElementKind::Cable,
            position: 1,
            cause: ImpedanceError::ZeroImpedance
        }
    );
    let mut a = section3_admittances(Ok(1.0));
    a.transformers[0] = Err(ImpedanceError::InconsistentRating);
    assert_eq!(
        assemble(&t, &ix, &a).unwrap_err(),
        NetworkError::Element {
            kind: ElementKind::Transformer,
            position: 0,
            cause: ImpedanceError::InconsistentRating
        }
    );
}

#[test]
fn unresolved_node_is_reported() {
    let t = section3();
    let mut smaller = section3();
    smaller.lines.clear();
    let ix = smaller.nodes();
    let r = assemble(&t, &ix, &section3_admittances(Ok(1.0)));
    assert_eq!(
        r.unwrap_err(),
        NetworkError::UnresolvedNode { kind: ElementKind::Line, position: 0 }
    );
}

#[test]
fn diagonal_of_a_diagonal_system() {
    let y = [2.0f64, 4.0, 8.0];
    let solve = |b: Vec<f64>| Some(b.iter().zip(y.iter()).map(|(x, d)| x / d).collect());
    let d = impedance_diagonal(3, 0.0, 1.0, solve).unwrap();
    assert_eq!(d, vec![0.5, 0.25, 0.125]);
}

#[test]
fn diagonal_of_a_coupled_system() {
    // Y = [[3, -1], [-1, 2]], inverse = [[2, 1], [1, 3]] / 5.
    let solve = |b: Vec<f64>| {
        let det = 5.0;
        Some(vec![(2.0 * b[0] + b[1]) / det, (b[0] + 3.0 * b[1]) / det])
    };
    let d = impedance_diagonal(2, 0.0, 1.0, solve).unwrap();
    assert!((d[0] - 0.4).abs() < 1e-12);
    assert!((d[1] - 0.6).abs() < 1e-12);
}

#[test]
fn each_solve_gets_a_fresh_unit_vector() {
    let solve = |b: Vec<i64>| {
        let ones = b.iter().filter(|&&x| x == 1).count();
        let zeros = b.iter().filter(|&&x| x == 0).count();
        assert_eq!((ones, zeros), (1, b.len() - 1));
        Some(b.iter().map(|x| x * 10).collect())
    };
    assert_eq!(impedance_diagonal(4, 0i64, 1i64, solve).unwrap(), vec![10, 10, 10, 10]);
}

#[test]
fn failed_solve_is_singular() {
    let solve = |_b: Vec<f64>| None;
    assert_eq!(impedance_diagonal(2, 0.0, 1.0, solve), Err(NetworkError::SingularSystem));
    let short = |_b: Vec<f64>| Some(vec![1.0]);
    assert_eq!(impedance_diagonal(2, 0.0, 1.0, short), Err(NetworkError::SingularSystem));
    let empty = |_b: Vec<f64>| None;
    assert_eq!(impedance_diagonal(0, 0.0, 1.0, empty), Ok(vec![]));
}

#[test]
fn fault_map_pairs_labels_with_their_node_values() {
    let ix = section3().nodes();
    let diag: Vec<u32> = vec![10, 11, 12, 13, 14, 15];
    let map = ix.fault_map(&diag);
    assert_eq!(map.len(), 10);
    let find = |l: &str| map.iter().find(|(t, _)| t == l).map(|(_, v)| *v);
    assert_eq!(find("Q"), Some(10));
    assert_eq!(find("Q2"), Some(10));
    assert_eq!(find("L2"), Some(11));
    assert_eq!(find("T1"), Some(12));
    assert_eq!(find("T2"), Some(13));
    assert_eq!(find("L4"), Some(14));
    assert_eq!(find("F3"), Some(15));
    assert_eq!(find("L9"), None);
}

#[test]
fn repeated_computation_gives_same_result() {
    let t = section3();
    let a = section3_admittances(Ok(1.0));
    let first = assemble(&t, &t.nodes(), &a).unwrap();
    let second = assemble(&t, &t.nodes(), &a).unwrap();
    let key = |v: &Vec<Entry<f64>>| -> Vec<(usize, usize, f64, bool)> {
        v.iter().map(|e| (e.row, e.col, e.value, e.subtract)).collect()
    };
    assert_eq!(key(&first), key(&second));
    let ix1 = t.nodes();
    let ix2 = t.nodes();
    for label in ["Q", "L1", "T1", "T2", "L4", "F3"] {
        assert_eq!(node(&ix1, label), node(&ix2, label));
    }
}

fn empty_topology() -> Topology {
    Topology {
        busbars: vec![],
        feeders: vec![],
        power_stations: vec![],
        generators: vec![],
        transformers: vec![],
        three_winding_transformers: vec![],
        motors: vec![],
        lines: vec![],
        cables: vec![],
    }
}

fn no_admittances() -> Admittances<f64> {
    Admittances {
        feeders: vec![],
        transformers: vec![],
        cables: vec![],
        lines: vec![],
        power_stations: vec![],
        three_winding_transformers: vec![],
    }
}

fn key(v: &[Entry<f64>]) -> Vec<(usize, usize, f64, bool)> {
    v.iter().map(|e| (e.row, e.col, e.value, e.subtract)).collect()
}

#[test]
fn three_winding_transformer_stamps_a_star() {
    let mut t = empty_topology();
    t.three_winding_transformers = vec![WindingNodes {
        hv: "A".to_string(),
        mv: "B".to_string(),
        lv: "C".to_string(),
    }];
    let ix = t.nodes();
    assert_eq!(ix.count(), 4);
    assert_eq!(ix.star_node(0), Some(3));
    let mut a = no_admittances();
    a.three_winding_transformers = vec![Ok((2.0, 3.0, 5.0))];
    let entries = assemble(&t, &ix, &a).unwrap();
    let expected = vec![
        entry(0, 0, 2.0, false),
        entry(0, 3, 2.0, true),
        entry(3, 0, 2.0, true),
        entry(3, 3, 2.0, false),
        entry(1, 1, 3.0, false),
        entry(1, 3, 3.0, true),
        entry(3, 1, 3.0, true),
        entry(3, 3, 3.0, false),
        entry(2, 2, 5.0, false),
        entry(2, 3, 5.0, true),
        entry(3, 2, 5.0, true),
        entry(3, 3, 5.0, false),
    ];
    assert_eq!(key(&entries), expected);
}

#[test]
fn power_station_is_a_shunt_at_its_hv_node() {
    let mut t = empty_topology();
    t.busbars = vec![Busbar::new(labels(&["Q"]), 110_000)];
    t.power_stations = vec![StationNodes {
        generator: "G".to_string(),
        hv: "Q".to_string(),
        lv: "G".to_string(),
    }];
    let ix = t.nodes();
    assert_eq!(ix.count(), 2);
    let mut a = no_admittances();
    a.power_stations = vec![Ok(7.0)];
    let entries = assemble(&t, &ix, &a).unwrap();
    assert_eq!(key(&entries), vec![entry(0, 0, 7.0, false)]);
}

#[test]
fn failing_three_winding_transformer_is_reported() {
    let mut t = section3();
    t.three_winding_transformers = vec![WindingNodes {
        hv: "Q".to_string(),
        mv: "T1".to_string(),
        lv: "X".to_string(),
    }];
    let ix = t.nodes();
    let mut a = section3_admittances(Ok(1.0));
    a.three_winding_transformers = vec![Err(ImpedanceError::InconsistentRating)];
    assert_eq!(
        assemble(&t, &ix, &a).unwrap_err(),
        NetworkError::Element {
            kind: ElementKind::ThreeWindingTransformer,
            position: 0,
            cause: ImpedanceError::InconsistentRating
        }
    );
    let branch = iec60909::branches(&t, &a).pop().unwrap();
    assert!(matches!(branch.to, Terminal::Star(0)));
}

#[test]
fn fault_map_lists_each_label_once() {
    let mut t = empty_topology();
    t.busbars = vec![
        Busbar::new(labels(&["A", "B", "A"]), 400),
        Busbar::new(labels(&["B", "C"]), 400),
    ];
    t.feeders = labels(&["C", "D", "D"]);
    let ix = t.nodes();
    assert_eq!(ix.count(), 3);
    let map = ix.fault_map(&vec![10u32, 11, 12]);
    let mut got: Vec<(String, u32)> = map;
    got.sort();
    assert_eq!(
        got,
        vec![
            ("A".to_string(), 10),
            ("B".to_string(), 11),
            ("C".to_string(), 11),
            ("D".to_string(), 12)
        ]
    );
}
