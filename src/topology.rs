use vstd::prelude::*;

use crate::busbar::{labels_of, Busbar};

verus! {

/// The two terminals of a series element (transformer, line, cable).
#[derive(Clone, Debug)]
pub struct BranchNodes {
    pub from: String,
    pub to: String,
}

/// The terminals of a power-station unit: the generator terminal and the two
/// sides of the unit transformer.
#[derive(Clone, Debug)]
pub struct StationNodes {
    pub generator: String,
    pub hv: String,
    pub lv: String,
}

/// The terminals of a three-winding transformer.
#[derive(Clone, Debug)]
pub struct WindingNodes {
    pub hv: String,
    pub mv: String,
    pub lv: String,
}

/// How the elements of a network are connected: the busbars and, for each
/// kind of element in network order, the labels of its terminals.
#[derive(Clone, Debug)]
pub struct Topology {
    pub busbars: Vec<Busbar>,
    pub feeders: Vec<String>,
    pub power_stations: Vec<StationNodes>,
    pub generators: Vec<String>,
    pub transformers: Vec<BranchNodes>,
    pub three_winding_transformers: Vec<WindingNodes>,
    pub motors: Vec<String>,
    pub lines: Vec<BranchNodes>,
    pub cables: Vec<BranchNodes>,
}

/// Terminal labels of series elements, each element's two in turn.
pub open spec fn branch_labels(v: Seq<BranchNodes>) -> Seq<Seq<char>>
    decreases v.len(),
{
    if v.len() == 0 {
        Seq::empty()
    } else {
        branch_labels(v.drop_last()) + seq![v.last().from@, v.last().to@]
    }
}

/// Terminal labels of power-station units: generator, HV side, LV side.
pub open spec fn station_labels(v: Seq<StationNodes>) -> Seq<Seq<char>>
    decreases v.len(),
{
    if v.len() == 0 {
        Seq::empty()
    } else {
        station_labels(v.drop_last()) + seq![v.last().generator@, v.last().hv@, v.last().lv@]
    }
}

/// Terminal labels of three-winding transformers: HV, MV, LV.
pub open spec fn winding_labels(v: Seq<WindingNodes>) -> Seq<Seq<char>>
    decreases v.len(),
{
    if v.len() == 0 {
        Seq::empty()
    } else {
        winding_labels(v.drop_last()) + seq![v.last().hv@, v.last().mv@, v.last().lv@]
    }
}

impl Topology {
    /// Every terminal label that an element names, in the fixed scan order:
    /// feeders, power-station units, generators, transformers, three-winding
    /// transformers, motors, lines, cables.
    pub open spec fn scan_labels(&self) -> Seq<Seq<char>> {
        labels_of(self.feeders@) + station_labels(self.power_stations@) + labels_of(
            self.generators@,
        ) + branch_labels(self.transformers@) + winding_labels(self.three_winding_transformers@)
            + labels_of(self.motors@) + branch_labels(self.lines@) + branch_labels(self.cables@)
    }

    /// The terminal labels of every element, in scan order.
    pub fn scan(&self) -> (r: Vec<String>)
        ensures
            labels_of(r@) == self.scan_labels(),
    {
        let mut r: Vec<String> = Vec::new();
        assert(labels_of(r@) =~= Seq::<Seq<char>>::empty());
        push_labels(&mut r, &self.feeders);
        push_station_labels(&mut r, &self.power_stations);
        push_labels(&mut r, &self.generators);
        push_branch_labels(&mut r, &self.transformers);
        push_winding_labels(&mut r, &self.three_winding_transformers);
        push_labels(&mut r, &self.motors);
        push_branch_labels(&mut r, &self.lines);
        push_branch_labels(&mut r, &self.cables);
        assert(labels_of(r@) =~= self.scan_labels());
        r
    }
}

/// Labels of `out` followed by one more label.
proof fn lemma_labels_push(out: Seq<String>, s: String)
    ensures
        labels_of(out.push(s)) == labels_of(out) + seq![s@],
{
    assert(labels_of(out.push(s)) =~= labels_of(out) + seq![s@]);
}

fn push_labels(out: &mut Vec<String>, v: &Vec<String>)
    ensures
        labels_of(final(out)@) == labels_of(old(out)@) + labels_of(v@),
{
    let ghost start = labels_of(out@);
    let mut i: usize = 0;
    while i < v.len()
        invariant
            i <= v.len(),
            labels_of(out@) == start + labels_of(v@.subrange(0, i as int)),
        decreases v.len() - i,
    {
        proof {
            lemma_labels_push(out@, v@[i as int]);
            assert(labels_of(v@.subrange(0, i + 1)) =~= labels_of(v@.subrange(0, i as int)) + seq![
                v@[i as int]@,
            ]);
        }
        out.push(v[i].clone());
        i += 1;
    }
    assert(v@.subrange(0, v@.len() as int) =~= v@);
}

fn push_branch_labels(out: &mut Vec<String>, v: &Vec<BranchNodes>)
    ensures
        labels_of(final(out)@) == labels_of(old(out)@) + branch_labels(v@),
{
    let ghost start = labels_of(out@);
    let mut i: usize = 0;
    assert(branch_labels(v@.subrange(0, 0)) =~= Seq::<Seq<char>>::empty());
    assert(start + Seq::<Seq<char>>::empty() =~= start);
    while i < v.len()
        invariant
            i <= v.len(),
            labels_of(out@) == start + branch_labels(v@.subrange(0, i as int)),
        decreases v.len() - i,
    {
        let ghost before = out@;
        let e = &v[i];
        out.push(e.from.clone());
        out.push(e.to.clone());
        proof {
            lemma_labels_push(before, e.from);
            lemma_labels_push(before.push(e.from), e.to);
            assert(v@.subrange(0, i + 1).drop_last() =~= v@.subrange(0, i as int));
            assert(labels_of(out@) =~= start + branch_labels(v@.subrange(0, i + 1)));
        }
        i += 1;
    }
    assert(v@.subrange(0, v@.len() as int) =~= v@);
}

fn push_station_labels(out: &mut Vec<String>, v: &Vec<StationNodes>)
    ensures
        labels_of(final(out)@) == labels_of(old(out)@) + station_labels(v@),
{
    let ghost start = labels_of(out@);
    let mut i: usize = 0;
    assert(station_labels(v@.subrange(0, 0)) =~= Seq::<Seq<char>>::empty());
    assert(start + Seq::<Seq<char>>::empty() =~= start);
    while i < v.len()
        invariant
            i <= v.len(),
            labels_of(out@) == start + station_labels(v@.subrange(0, i as int)),
        decreases v.len() - i,
    {
        let ghost before = out@;
        let e = &v[i];
        out.push(e.generator.clone());
        out.push(e.hv.clone());
        out.push(e.lv.clone());
        proof {
            lemma_labels_push(before, e.generator);
            lemma_labels_push(before.push(e.generator), e.hv);
            lemma_labels_push(before.push(e.generator).push(e.hv), e.lv);
            assert(v@.subrange(0, i + 1).drop_last() =~= v@.subrange(0, i as int));
            assert(labels_of(out@) =~= start + station_labels(v@.subrange(0, i + 1)));
        }
        i += 1;
    }
    assert(v@.subrange(0, v@.len() as int) =~= v@);
}

fn push_winding_labels(out: &mut Vec<String>, v: &Vec<WindingNodes>)
    ensures
        labels_of(final(out)@) == labels_of(old(out)@) + winding_labels(v@),
{
    let ghost start = labels_of(out@);
    let mut i: usize = 0;
    assert(winding_labels(v@.subrange(0, 0)) =~= Seq::<Seq<char>>::empty());
    assert(start + Seq::<Seq<char>>::empty() =~= start);
    while i < v.len()
        invariant
            i <= v.len(),
            labels_of(out@) == start + winding_labels(v@.subrange(0, i as int)),
        decreases v.len() - i,
    {
        let ghost before = out@;
        let e = &v[i];
        out.push(e.hv.clone());
        out.push(e.mv.clone());
        out.push(e.lv.clone());
        proof {
            lemma_labels_push(before, e.hv);
            lemma_labels_push(before.push(e.hv), e.mv);
            lemma_labels_push(before.push(e.hv).push(e.mv), e.lv);
            assert(v@.subrange(0, i + 1).drop_last() =~= v@.subrange(0, i as int));
            assert(labels_of(out@) =~= start + winding_labels(v@.subrange(0, i + 1)));
        }
        i += 1;
    }
    assert(v@.subrange(0, v@.len() as int) =~= v@);
}

} // verus!
