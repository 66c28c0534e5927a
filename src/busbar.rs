use vstd::prelude::*;

use crate::correction::{correction_factor_spec, voltage_correction_factor};

verus! {

/// The character sequences of a list of node labels.
pub open spec fn labels_of(v: Seq<String>) -> Seq<Seq<char>> {
    v.map_values(|s: String| s@)
}

/// A set of node labels that share one physical bus.
#[derive(Clone, Debug)]
pub struct Busbar {
    /// Labels of the terminals tied to this bus.
    pub nodes: Vec<String>,
    /// Nominal system voltage (V).
    pub un: u64,
    /// Voltage correction factor for maximum short-circuit currents (per cent).
    pub cmax: Option<u32>,
    /// Voltage correction factor for minimum short-circuit currents (per cent).
    pub cmin: Option<u32>,
}

impl Busbar {
    /// A busbar with the given labels and nominal voltage (V), whose
    /// correction factors take the standard's defaults.
    pub fn new(nodes: Vec<String>, un: u64) -> (b: Busbar)
        ensures
            b.nodes == nodes,
            b.un == un,
            b.cmax is None,
            b.cmin is None,
    {
        Busbar { nodes, un, cmax: None, cmin: None }
    }

    /// The labels of this busbar as character sequences.
    pub open spec fn labels(&self) -> Seq<Seq<char>> {
        labels_of(self.nodes@)
    }
}

/// The effective maximum correction factor of a busbar (per cent): its own
/// value where one is set, else the standard's default for its voltage.
pub open spec fn effective_cmax(b: Busbar) -> nat {
    match b.cmax {
        Some(c) => c as nat,
        None => correction_factor_spec(b.un as nat, false, true),
    }
}

/// The effective maximum correction factor of `busbar` (per cent).
pub fn c_or_default(busbar: &Busbar) -> (c: u32)
    ensures
        c as nat == effective_cmax(*busbar),
{
    match busbar.cmax {
        Some(c) => c,
        None => voltage_correction_factor(busbar.un, false, true),
    }
}

/// Whether `t` is among the labels `v`.
pub fn contains_label(v: &Vec<String>, t: &String) -> (r: bool)
    ensures
        r == labels_of(v@).contains(t@),
{
    let mut i: usize = 0;
    while i < v.len()
        invariant
            i <= v.len(),
            forall|k: int| 0 <= k < i ==> v@[k]@ != t@,
        decreases v.len() - i,
    {
        if v[i] == *t {
            assert(labels_of(v@)[i as int] == t@);
            return true;
        }
        i += 1;
    }
    assert(!labels_of(v@).contains(t@)) by {
        if labels_of(v@).contains(t@) {
            let k = choose|k: int| 0 <= k < labels_of(v@).len() && labels_of(v@)[k] == t@;
            assert(v@[k]@ == t@);
        }
    }
    false
}

/// A copy of a list of labels.
pub fn copy_labels(v: &Vec<String>) -> (r: Vec<String>)
    ensures
        labels_of(r@) == labels_of(v@),
{
    let mut r: Vec<String> = Vec::new();
    let mut i: usize = 0;
    while i < v.len()
        invariant
            i <= v.len(),
            r@.len() == i,
            forall|k: int| 0 <= k < i ==> r@[k]@ == v@[k]@,
        decreases v.len() - i,
    {
        r.push(v[i].clone());
        i += 1;
    }
    assert(labels_of(r@) =~= labels_of(v@));
    r
}

/// Position of the last group among `groups` that holds label `t`.
pub open spec fn last_group_of(groups: Seq<Seq<Seq<char>>>, t: Seq<char>) -> Option<nat>
    decreases groups.len(),
{
    if groups.len() == 0 {
        None
    } else if groups.last().contains(t) {
        Some((groups.len() - 1) as nat)
    } else {
        last_group_of(groups.drop_last(), t)
    }
}

/// The label groups of a list of busbars.
pub open spec fn busbar_groups(busbars: Seq<Busbar>) -> Seq<Seq<Seq<char>>> {
    busbars.map_values(|b: Busbar| b.labels())
}

/// A found group lies within the list and holds the label; where none is
/// found, no group holds it.
pub proof fn lemma_last_group_of(groups: Seq<Seq<Seq<char>>>, t: Seq<char>)
    ensures
        last_group_of(groups, t) matches Some(b) ==> b < groups.len() && groups[b as int].contains(t),
        last_group_of(groups, t) is None ==> forall|b: int| 0 <= b < groups.len() ==> !groups[b].contains(t),
    decreases groups.len(),
{
    if groups.len() > 0 && !groups.last().contains(t) {
        lemma_last_group_of(groups.drop_last(), t);
        assert forall|b: int| 0 <= b < groups.len() - 1 implies groups[b] == groups.drop_last()[b] by {}
    }
}

/// Lookup from a node label to the busbar that it belongs to. Where a label
/// is listed under several busbars, the last of them is taken.
pub struct BusbarIndex {
    groups: Vec<Vec<String>>,
}

impl View for BusbarIndex {
    type V = Seq<Seq<Seq<char>>>;

    /// The labels of each busbar, in the order of the busbars.
    closed spec fn view(&self) -> Seq<Seq<Seq<char>>> {
        self.groups@.map_values(|g: Vec<String>| labels_of(g@))
    }
}

impl BusbarIndex {
    /// The index of the given busbars.
    pub fn new(busbars: &Vec<Busbar>) -> (ix: BusbarIndex)
        ensures
            ix@ == busbar_groups(busbars@),
    {
        let mut groups: Vec<Vec<String>> = Vec::new();
        let mut i: usize = 0;
        while i < busbars.len()
            invariant
                i <= busbars.len(),
                groups@.len() == i,
                forall|k: int| 0 <= k < i ==> labels_of(#[trigger] groups@[k]@) == busbars@[k].labels(),
            decreases busbars.len() - i,
        {
            groups.push(copy_labels(&busbars[i].nodes));
            i += 1;
        }
        let ix = BusbarIndex { groups };
        assert(ix@ =~= busbar_groups(busbars@));
        ix
    }

    /// An index without busbars.
    pub fn empty() -> (ix: BusbarIndex)
        ensures
            ix@ == Seq::<Seq<Seq<char>>>::empty(),
    {
        let ix = BusbarIndex { groups: Vec::new() };
        assert(ix@ =~= Seq::<Seq<Seq<char>>>::empty());
        ix
    }

    /// Number of busbars indexed.
    pub fn len(&self) -> (n: usize)
        ensures
            n == self@.len(),
    {
        self.groups.len()
    }

    /// Position of the busbar that `node` belongs to, if any.
    pub fn busbar(&self, node: &String) -> (r: Option<usize>)
        ensures
            r matches Some(b) ==> last_group_of(self@, node@) == Some(b as nat),
            r is None ==> last_group_of(self@, node@) is None,
    {
        let mut i: usize = self.groups.len();
        assert(self@.subrange(0, i as int) =~= self@);
        while i > 0
            invariant
                i <= self.groups@.len(),
                last_group_of(self@, node@) == last_group_of(self@.subrange(0, i as int), node@),
            decreases i,
        {
            let found = contains_label(&self.groups[i - 1], node);
            let ghost pre = self@.subrange(0, i as int);
            assert(pre.last() == self@[i - 1]);
            assert(self@[i - 1] == labels_of(self.groups@[i - 1]@));
            assert(pre.drop_last() =~= self@.subrange(0, i - 1));
            if found {
                return Some(i - 1);
            }
            i -= 1;
        }
        assert(self@.subrange(0, 0) =~= Seq::<Seq<Seq<char>>>::empty());
        None
    }
}

} // verus!
