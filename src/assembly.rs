use vstd::prelude::*;

use crate::busbar::busbar_groups;
use crate::nodes::{fresh_labels, NodeIndex};
use crate::topology::{BranchNodes, StationNodes, Topology, WindingNodes};

verus! {

/// The kinds of element that the admittance matrix takes in.
#[derive(Clone, Copy, Debug, PartialEq, Eq, Structural)]
pub enum ElementKind {
    Feeder,
    Transformer,
    Cable,
    Line,
    PowerStation,
    ThreeWindingTransformer,
}

/// Why an element's impedance could not be had.
#[derive(Clone, Copy, Debug, PartialEq, Eq, Structural)]
pub enum ImpedanceError {
    /// A rating that the element's formula needs is not given.
    MissingRating,
    /// The ratings contradict each other (a resistive share above the total).
    InconsistentRating,
    /// The impedance is exactly zero, so its admittance would be infinite.
    ZeroImpedance,
}

/// Why a fault-impedance computation stopped.
#[derive(Clone, Copy, Debug, PartialEq, Eq, Structural)]
pub enum NetworkError {
    /// The element at `position` among those of its kind has no usable impedance.
    Element { kind: ElementKind, position: usize, cause: ImpedanceError },
    /// The element at `position` among those of its kind names a node without a number.
    UnresolvedNode { kind: ElementKind, position: usize },
    /// The admittance matrix could not be factorised or solved.
    SingularSystem,
}

/// One additive contribution to the admittance matrix: `value` is added to
/// entry (`row`, `col`), or taken from it where `subtract` is set.
#[derive(Clone, Copy, Debug)]
pub struct Entry<T> {
    pub row: usize,
    pub col: usize,
    pub value: T,
    pub subtract: bool,
}

/// The far end of a branch: the reference node (ground), a labelled node,
/// or the internal star node of the three-winding transformer at a position.
#[derive(Clone, Debug)]
pub enum Terminal {
    Ground,
    Node(String),
    Star(usize),
}

/// An element, or one winding of one, as the matrix sees it: a branch from
/// the node labelled `from` to `to`, with its admittance or the reason it
/// has none.
#[derive(Debug)]
pub struct Branch<T> {
    pub kind: ElementKind,
    pub position: usize,
    pub from: String,
    pub to: Terminal,
    pub admittance: Result<T, ImpedanceError>,
}

/// The admittance of each stamped element, or why it has none, in the order
/// of the topology's lists. A power-station unit gives the admittance of its
/// reduced impedance, a three-winding transformer those of its HV, MV and LV
/// star impedances.
pub struct Admittances<T> {
    pub feeders: Vec<Result<T, ImpedanceError>>,
    pub transformers: Vec<Result<T, ImpedanceError>>,
    pub cables: Vec<Result<T, ImpedanceError>>,
    pub lines: Vec<Result<T, ImpedanceError>>,
    pub power_stations: Vec<Result<T, ImpedanceError>>,
    pub three_winding_transformers: Vec<Result<(T, T, T), ImpedanceError>>,
}

/// Whether the admittances are given for exactly the elements of `t`.
pub open spec fn admittances_match<T>(t: Topology, a: Admittances<T>) -> bool {
    &&& a.feeders@.len() == t.feeders@.len()
    &&& a.transformers@.len() == t.transformers@.len()
    &&& a.cables@.len() == t.cables@.len()
    &&& a.lines@.len() == t.lines@.len()
    &&& a.power_stations@.len() == t.power_stations@.len()
    &&& a.three_winding_transformers@.len() == t.three_winding_transformers@.len()
}

/// Feeders: shunts from their node to ground.
pub open spec fn shunt_branches<T>(
    kind: ElementKind,
    nodes: Seq<String>,
    adm: Seq<Result<T, ImpedanceError>>,
) -> Seq<Branch<T>> {
    Seq::new(
        nodes.len(),
        |i: int|
            Branch {
                kind,
                position: i as usize,
                from: nodes[i],
                to: Terminal::Ground,
                admittance: adm[i],
            },
    )
}

/// Series elements: branches between their two nodes.
pub open spec fn series_branches<T>(
    kind: ElementKind,
    nodes: Seq<BranchNodes>,
    adm: Seq<Result<T, ImpedanceError>>,
) -> Seq<Branch<T>> {
    Seq::new(
        nodes.len(),
        |i: int|
            Branch {
                kind,
                position: i as usize,
                from: nodes[i].from,
                to: Terminal::Node(nodes[i].to),
                admittance: adm[i],
            },
    )
}

/// Power-station units: their reduced impedance, referred to the HV side of
/// the unit transformer, as a shunt from that node to ground.
pub open spec fn station_branches<T>(
    nodes: Seq<StationNodes>,
    adm: Seq<Result<T, ImpedanceError>>,
) -> Seq<Branch<T>> {
    Seq::new(
        nodes.len(),
        |i: int|
            Branch {
                kind: ElementKind::PowerStation,
                position: i as usize,
                from: nodes[i].hv,
                to: Terminal::Ground,
                admittance: adm[i],
            },
    )
}

/// One star admittance (0: HV, 1: MV, 2: LV) of a three-winding transformer.
pub open spec fn winding_admittance<T>(adm: Result<(T, T, T), ImpedanceError>, w: int) -> Result<
    T,
    ImpedanceError,
> {
    match adm {
        Ok(y) => Ok(
            if w == 0 {
                y.0
            } else if w == 1 {
                y.1
            } else {
                y.2
            },
        ),
        Err(e) => Err(e),
    }
}

/// The three windings of the three-winding transformer at position `p`:
/// branches from its HV, MV and LV nodes to its star node.
pub open spec fn star_of<T>(w: WindingNodes, adm: Result<(T, T, T), ImpedanceError>, p: int) -> Seq<
    Branch<T>,
> {
    seq![
        Branch {
            kind: ElementKind::ThreeWindingTransformer,
            position: p as usize,
            from: w.hv,
            to: Terminal::Star(p as usize),
            admittance: winding_admittance(adm, 0),
        },
        Branch {
            kind: ElementKind::ThreeWindingTransformer,
            position: p as usize,
            from: w.mv,
            to: Terminal::Star(p as usize),
            admittance: winding_admittance(adm, 1),
        },
        Branch {
            kind: ElementKind::ThreeWindingTransformer,
            position: p as usize,
            from: w.lv,
            to: Terminal::Star(p as usize),
            admittance: winding_admittance(adm, 2),
        },
    ]
}

/// The windings of the first `n` three-winding transformers.
pub open spec fn star_branches<T>(
    nodes: Seq<WindingNodes>,
    adm: Seq<Result<(T, T, T), ImpedanceError>>,
    n: nat,
) -> Seq<Branch<T>>
    decreases n,
{
    if n == 0 {
        Seq::empty()
    } else {
        star_branches(nodes, adm, (n - 1) as nat) + star_of(
            nodes[n - 1],
            adm[n - 1],
            n - 1,
        )
    }
}

/// The branches of a network in stamping order: feeders, transformers,
/// cables, lines, power-station units, windings of three-winding
/// transformers.
pub open spec fn branches_of<T>(t: Topology, a: Admittances<T>) -> Seq<Branch<T>> {
    shunt_branches(ElementKind::Feeder, t.feeders@, a.feeders@) + series_branches(
        ElementKind::Transformer,
        t.transformers@,
        a.transformers@,
    ) + series_branches(ElementKind::Cable, t.cables@, a.cables@) + series_branches(
        ElementKind::Line,
        t.lines@,
        a.lines@,
    ) + station_branches(t.power_stations@, a.power_stations@) + star_branches(
        t.three_winding_transformers@,
        a.three_winding_transformers@,
        t.three_winding_transformers@.len(),
    )
}

/// The entries of a series branch from node j to node k: y at (j, j) and
/// (k, k), -y at (j, k) and (k, j).
pub open spec fn series_stamp<T>(j: nat, k: nat, y: T) -> Seq<Entry<T>> {
    seq![
        Entry { row: j as usize, col: j as usize, value: y, subtract: false },
        Entry { row: j as usize, col: k as usize, value: y, subtract: true },
        Entry { row: k as usize, col: j as usize, value: y, subtract: true },
        Entry { row: k as usize, col: k as usize, value: y, subtract: false },
    ]
}

/// The entries of one branch: y at (j, j) for a shunt at j, the series
/// stamp for a branch between two nodes.
pub open spec fn stamp<T>(ix: NodeIndex, b: Branch<T>) -> Result<Seq<Entry<T>>, NetworkError> {
    match b.admittance {
        Err(cause) => Err(NetworkError::Element { kind: b.kind, position: b.position, cause }),
        Ok(y) => match ix.node_spec(b.from@) {
            None => Err(NetworkError::UnresolvedNode { kind: b.kind, position: b.position }),
            Some(j) => match b.to {
                Terminal::Ground => Ok(
                    seq![Entry { row: j as usize, col: j as usize, value: y, subtract: false }],
                ),
                Terminal::Node(to) => match ix.node_spec(to@) {
                    None => Err(NetworkError::UnresolvedNode { kind: b.kind, position: b.position }),
                    Some(k) => Ok(series_stamp(j, k, y)),
                },
                Terminal::Star(p) => match ix.star_spec(p as nat) {
                    None => Err(NetworkError::UnresolvedNode { kind: b.kind, position: b.position }),
                    Some(k) => Ok(series_stamp(j, k, y)),
                },
            },
        },
    }
}

/// The entries of all branches in order, or the error of the first branch
/// that cannot be stamped.
pub open spec fn assembled<T>(ix: NodeIndex, bs: Seq<Branch<T>>) -> Result<Seq<Entry<T>>, NetworkError>
    decreases bs.len(),
{
    if bs.len() == 0 {
        Ok(Seq::empty())
    } else {
        match assembled(ix, bs.drop_last()) {
            Err(e) => Err(e),
            Ok(prev) => match stamp(ix, bs.last()) {
                Err(e) => Err(e),
                Ok(es) => Ok(prev + es),
            },
        }
    }
}

/// Once a prefix of the branches fails, the whole list fails with the same error.
pub proof fn lemma_assembled_error_persists<T>(ix: NodeIndex, bs: Seq<Branch<T>>, i: int)
    requires
        0 <= i <= bs.len(),
        assembled(ix, bs.subrange(0, i)) is Err,
    ensures
        assembled(ix, bs) == assembled(ix, bs.subrange(0, i)),
    decreases bs.len() - i,
{
    if i < bs.len() {
        assert(bs.subrange(0, i + 1).drop_last() =~= bs.subrange(0, i));
        lemma_assembled_error_persists(ix, bs, i + 1);
    } else {
        assert(bs.subrange(0, i) =~= bs);
    }
}

/// Assembly succeeds exactly when every branch can be stamped: an element
/// whose impedance is missing or zero, or that names a label without a node,
/// makes the whole assembly fail.
pub proof fn lemma_assembled_ok_iff<T>(ix: NodeIndex, bs: Seq<Branch<T>>)
    ensures
        assembled(ix, bs) is Ok <==> forall|k: int| 0 <= k < bs.len() ==> #[trigger] stamp(ix, bs[k]) is Ok,
    decreases bs.len(),
{
    if bs.len() > 0 {
        lemma_assembled_ok_iff(ix, bs.drop_last());
        assert forall|k: int| 0 <= k < bs.len() - 1 implies bs.drop_last()[k] == bs[k] by {}
        if assembled(ix, bs) is Ok {
            assert forall|k: int| 0 <= k < bs.len() implies #[trigger] stamp(ix, bs[k]) is Ok by {
                if k < bs.len() - 1 {
                    assert(stamp(ix, bs.drop_last()[k]) is Ok);
                }
            }
        }
        if forall|k: int| 0 <= k < bs.len() ==> #[trigger] stamp(ix, bs[k]) is Ok {
            assert forall|k: int| 0 <= k < bs.drop_last().len() implies #[trigger] stamp(
                ix,
                bs.drop_last()[k],
            ) is Ok by {
                assert(stamp(ix, bs[k]) is Ok);
            }
            assert(stamp(ix, bs[bs.len() - 1]) is Ok);
        }
    }
}

/// A branch whose impedance is unusable, a zero impedance among them, makes
/// the whole assembly fail: it never proceeds past such an element.
pub proof fn lemma_unusable_element_fails<T>(ix: NodeIndex, bs: Seq<Branch<T>>, k: int)
    requires
        0 <= k < bs.len(),
        bs[k].admittance is Err,
    ensures
        assembled(ix, bs) is Err,
{
    lemma_assembled_ok_iff(ix, bs);
    assert(stamp(ix, bs[k]) is Err);
}

/// Two numberings with the same busbars and fresh labels stamp every list
/// of branches alike.
pub proof fn lemma_assembled_same_numbering<T>(ix1: NodeIndex, ix2: NodeIndex, bs: Seq<Branch<T>>)
    requires
        ix1.groups() == ix2.groups(),
        ix1.fresh() == ix2.fresh(),
        ix1.star_count() == ix2.star_count(),
    ensures
        assembled(ix1, bs) == assembled(ix2, bs),
    decreases bs.len(),
{
    if bs.len() > 0 {
        lemma_assembled_same_numbering(ix1, ix2, bs.drop_last());
    }
}

/// Numbering and assembling an unchanged network twice gives every label the
/// same node and yields the same entries, or the same error.
pub proof fn lemma_assembly_repeatable<T>(
    t: Topology,
    a: Admittances<T>,
    ix1: NodeIndex,
    ix2: NodeIndex,
)
    requires
        ix1.groups() == busbar_groups(t.busbars@),
        ix1.fresh() == fresh_labels(busbar_groups(t.busbars@), t.scan_labels()),
        ix2.groups() == busbar_groups(t.busbars@),
        ix2.fresh() == fresh_labels(busbar_groups(t.busbars@), t.scan_labels()),
        ix1.star_count() == t.three_winding_transformers@.len(),
        ix2.star_count() == t.three_winding_transformers@.len(),
    ensures
        forall|l: Seq<char>| ix1.node_spec(l) == ix2.node_spec(l),
        forall|p: nat| ix1.star_spec(p) == ix2.star_spec(p),
        ix1.count_spec() == ix2.count_spec(),
        assembled(ix1, branches_of(t, a)) == assembled(ix2, branches_of(t, a)),
{
    lemma_assembled_same_numbering(ix1, ix2, branches_of(t, a));
}

/// The branches of a network with their admittances, in stamping order.
pub fn branches<T: Copy>(t: &Topology, a: &Admittances<T>) -> (r: Vec<Branch<T>>)
    requires
        admittances_match(*t, *a),
    ensures
        r@ == branches_of(*t, *a),
{
    let mut r: Vec<Branch<T>> = Vec::new();
    let mut i: usize = 0;
    while i < t.feeders.len()
        invariant
            admittances_match(*t, *a),
            i <= t.feeders@.len(),
            r@ == shunt_branches(ElementKind::Feeder, t.feeders@, a.feeders@).subrange(0, i as int),
        decreases t.feeders.len() - i,
    {
        let b = Branch {
            kind: ElementKind::Feeder,
            position: i,
            from: t.feeders[i].clone(),
            to: Terminal::Ground,
            admittance: a.feeders[i],
        };
        r.push(b);
        proof {
            assert(r@ =~= shunt_branches(ElementKind::Feeder, t.feeders@, a.feeders@).subrange(
                0,
                i + 1,
            ));
        }
        i += 1;
    }
    let ghost shunts = r@;
    push_series_branches(&mut r, ElementKind::Transformer, &t.transformers, &a.transformers);
    push_series_branches(&mut r, ElementKind::Cable, &t.cables, &a.cables);
    push_series_branches(&mut r, ElementKind::Line, &t.lines, &a.lines);
    push_station_branches(&mut r, &t.power_stations, &a.power_stations);
    push_star_branches(&mut r, &t.three_winding_transformers, &a.three_winding_transformers);
    proof {
        assert(shunts =~= shunt_branches(ElementKind::Feeder, t.feeders@, a.feeders@));
        assert(r@ =~= branches_of(*t, *a));
    }
    r
}

fn push_series_branches<T: Copy>(
    out: &mut Vec<Branch<T>>,
    kind: ElementKind,
    nodes: &Vec<BranchNodes>,
    adm: &Vec<Result<T, ImpedanceError>>,
)
    requires
        nodes@.len() == adm@.len(),
    ensures
        final(out)@ == old(out)@ + series_branches(kind, nodes@, adm@),
{
    let ghost start = out@;
    let mut i: usize = 0;
    while i < nodes.len()
        invariant
            nodes@.len() == adm@.len(),
            i <= nodes@.len(),
            out@ == start + series_branches(kind, nodes@, adm@).subrange(0, i as int),
        decreases nodes.len() - i,
    {
        let b = Branch {
            kind,
            position: i,
            from: nodes[i].from.clone(),
            to: Terminal::Node(nodes[i].to.clone()),
            admittance: adm[i],
        };
        out.push(b);
        proof {
            assert(out@ =~= start + series_branches(kind, nodes@, adm@).subrange(0, i + 1));
        }
        i += 1;
    }
    assert(series_branches(kind, nodes@, adm@).subrange(0, nodes@.len() as int) =~= series_branches(
        kind,
        nodes@,
        adm@,
    ));
}

fn push_station_branches<T: Copy>(
    out: &mut Vec<Branch<T>>,
    nodes: &Vec<StationNodes>,
    adm: &Vec<Result<T, ImpedanceError>>,
)
    requires
        nodes@.len() == adm@.len(),
    ensures
        final(out)@ == old(out)@ + station_branches(nodes@, adm@),
{
    let ghost start = out@;
    let mut i: usize = 0;
    while i < nodes.len()
        invariant
            nodes@.len() == adm@.len(),
            i <= nodes@.len(),
            out@ == start + station_branches(nodes@, adm@).subrange(0, i as int),
        decreases nodes.len() - i,
    {
        let b = Branch {
            kind: ElementKind::PowerStation,
            position: i,
            from: nodes[i].hv.clone(),
            to: Terminal::Ground,
            admittance: adm[i],
        };
        out.push(b);
        proof {
            assert(out@ =~= start + station_branches(nodes@, adm@).subrange(0, i + 1));
        }
        i += 1;
    }
    assert(station_branches(nodes@, adm@).subrange(0, nodes@.len() as int) =~= station_branches(
        nodes@,
        adm@,
    ));
}

fn winding<T: Copy>(adm: Result<(T, T, T), ImpedanceError>, w: usize) -> (r: Result<
    T,
    ImpedanceError,
>)
    requires
        w < 3,
    ensures
        r == winding_admittance(adm, w as int),
{
    match adm {
        Ok(y) => Ok(
            if w == 0 {
                y.0
            } else if w == 1 {
                y.1
            } else {
                y.2
            },
        ),
        Err(e) => Err(e),
    }
}

fn push_star_branches<T: Copy>(
    out: &mut Vec<Branch<T>>,
    nodes: &Vec<WindingNodes>,
    adm: &Vec<Result<(T, T, T), ImpedanceError>>,
)
    requires
        nodes@.len() == adm@.len(),
    ensures
        final(out)@ == old(out)@ + star_branches(nodes@, adm@, nodes@.len()),
{
    let ghost start = out@;
    let mut i: usize = 0;
    assert(start + star_branches(nodes@, adm@, 0) =~= start);
    while i < nodes.len()
        invariant
            nodes@.len() == adm@.len(),
            i <= nodes@.len(),
            out@ == start + star_branches(nodes@, adm@, i as nat),
        decreases nodes.len() - i,
    {
        let w = &nodes[i];
        let y = adm[i];
        let ghost before = out@;
        out.push(
            Branch {
                kind: ElementKind::ThreeWindingTransformer,
                position: i,
                from: w.hv.clone(),
                to: Terminal::Star(i),
                admittance: winding(y, 0),
            },
        );
        out.push(
            Branch {
                kind: ElementKind::ThreeWindingTransformer,
                position: i,
                from: w.mv.clone(),
                to: Terminal::Star(i),
                admittance: winding(y, 1),
            },
        );
        out.push(
            Branch {
                kind: ElementKind::ThreeWindingTransformer,
                position: i,
                from: w.lv.clone(),
                to: Terminal::Star(i),
                admittance: winding(y, 2),
            },
        );
        proof {
            assert(out@ =~= before + star_of(nodes@[i as int], adm@[i as int], i as int));
            assert(out@ =~= start + star_branches(nodes@, adm@, (i + 1) as nat));
        }
        i += 1;
    }
}

/// Appends the series stamp of a branch from node `j` to node `k`.
fn push_series_stamp<T: Copy>(out: &mut Vec<Entry<T>>, j: usize, k: usize, y: T)
    ensures
        final(out)@ == old(out)@ + series_stamp(j as nat, k as nat, y),
{
    let ghost before = out@;
    out.push(Entry { row: j, col: j, value: y, subtract: false });
    out.push(Entry { row: j, col: k, value: y, subtract: true });
    out.push(Entry { row: k, col: j, value: y, subtract: true });
    out.push(Entry { row: k, col: k, value: y, subtract: false });
    assert(out@ =~= before + series_stamp(j as nat, k as nat, y));
}

/// Stamps the admittance of every feeder, transformer, cable, line,
/// power-station unit and three-winding transformer winding into
/// coordinate-form entries of the nodal admittance matrix, or reports the
/// first element, in that order, whose impedance is unusable or that names a
/// node without a number.
pub fn assemble<T: Copy>(t: &Topology, ix: &NodeIndex, a: &Admittances<T>) -> (r: Result<
    Vec<Entry<T>>,
    NetworkError,
>)
    requires
        ix.wf(),
        admittances_match(*t, *a),
    ensures
        r matches Ok(v) ==> assembled(*ix, branches_of(*t, *a)) == Ok::<_, NetworkError>(v@),
        r matches Err(e) ==> assembled(*ix, branches_of(*t, *a)) == Err::<Seq<Entry<T>>, _>(e),
        r matches Ok(v) ==> forall|k: int|
            0 <= k < v@.len() ==> (#[trigger] v@[k]).row < ix.count_spec() && v@[k].col
                < ix.count_spec(),
{
    let bs = branches(t, a);
    let mut out: Vec<Entry<T>> = Vec::new();
    let mut i: usize = 0;
    assert(bs@.subrange(0, 0) =~= Seq::<Branch<T>>::empty());
    while i < bs.len()
        invariant
            ix.wf(),
            bs@ == branches_of(*t, *a),
            i <= bs@.len(),
            assembled(*ix, bs@.subrange(0, i as int)) == Ok::<_, NetworkError>(out@),
            forall|k: int|
                0 <= k < out@.len() ==> (#[trigger] out@[k]).row < ix.count_spec() && out@[k].col
                    < ix.count_spec(),
        decreases bs.len() - i,
    {
        let b = &bs[i];
        proof {
            assert(bs@.subrange(0, i + 1).drop_last() =~= bs@.subrange(0, i as int));
            assert(bs@.subrange(0, i + 1).last() == *b);
        }
        let y = match b.admittance {
            Ok(y) => y,
            Err(cause) => {
                proof {
                    lemma_assembled_error_persists(*ix, bs@, i + 1);
                }
                return Err(NetworkError::Element { kind: b.kind, position: b.position, cause });
            },
        };
        let j = match ix.node(&b.from) {
            Some(j) => j,
            None => {
                proof {
                    lemma_assembled_error_persists(*ix, bs@, i + 1);
                }
                return Err(NetworkError::UnresolvedNode { kind: b.kind, position: b.position });
            },
        };
        let far = match &b.to {
            Terminal::Ground => None,
            Terminal::Node(to) => match ix.node(to) {
                Some(k) => Some(k),
                None => {
                    proof {
                        lemma_assembled_error_persists(*ix, bs@, i + 1);
                    }
                    return Err(NetworkError::UnresolvedNode { kind: b.kind, position: b.position });
                },
            },
            Terminal::Star(p) => match ix.star_node(*p) {
                Some(k) => Some(k),
                None => {
                    proof {
                        lemma_assembled_error_persists(*ix, bs@, i + 1);
                    }
                    return Err(NetworkError::UnresolvedNode { kind: b.kind, position: b.position });
                },
            },
        };
        let ghost before = out@;
        match far {
            None => {
                out.push(Entry { row: j, col: j, value: y, subtract: false });
                proof {
                    assert(out@ =~= before + seq![Entry { row: j, col: j, value: y, subtract: false }]);
                }
            },
            Some(k) => {
                push_series_stamp(&mut out, j, k, y);
            },
        }
        proof {
            assert forall|q: int| 0 <= q < out@.len() implies (#[trigger] out@[q]).row
                < ix.count_spec() && out@[q].col < ix.count_spec() by {
                if q < before.len() {
                    assert(out@[q] == before[q]);
                }
            }
        }
        i += 1;
    }
    assert(bs@.subrange(0, bs@.len() as int) =~= bs@);
    Ok(out)
}

} // verus!
