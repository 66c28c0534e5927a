use vstd::prelude::*;

use crate::busbar::{
    busbar_groups, contains_label, labels_of, last_group_of, lemma_last_group_of, BusbarIndex,
};
use crate::topology::Topology;

verus! {

/// The labels that elements name outside every busbar, each once, in the
/// order of their first appearance in `scan`.
pub open spec fn fresh_labels(groups: Seq<Seq<Seq<char>>>, scan: Seq<Seq<char>>) -> Seq<Seq<char>>
    decreases scan.len(),
{
    if scan.len() == 0 {
        Seq::empty()
    } else {
        let prev = fresh_labels(groups, scan.drop_last());
        let t = scan.last();
        if last_group_of(groups, t) is Some || prev.contains(t) {
            prev
        } else {
            prev.push(t)
        }
    }
}

/// The node number of label `t`: the busbar's position for a label of a
/// busbar, else the number of busbars plus the label's place among the
/// fresh labels.
pub open spec fn node_of(groups: Seq<Seq<Seq<char>>>, fresh: Seq<Seq<char>>, t: Seq<char>) -> Option<nat> {
    match last_group_of(groups, t) {
        Some(b) => Some(b),
        None => if fresh.contains(t) {
            Some((groups.len() + fresh.index_of(t)) as nat)
        } else {
            None
        },
    }
}

/// The number of busbars, labels that elements name, and three-winding
/// transformers in a topology: a bound on the number of nodes.
pub open spec fn topology_size(t: Topology) -> nat {
    t.busbars@.len() + t.scan_labels().len() + t.three_winding_transformers@.len()
}

/// Fresh labels are distinct, belong to no busbar, and come from the scan.
pub proof fn lemma_fresh_labels(groups: Seq<Seq<Seq<char>>>, scan: Seq<Seq<char>>)
    ensures
        fresh_labels(groups, scan).no_duplicates(),
        fresh_labels(groups, scan).len() <= scan.len(),
        forall|t: Seq<char>| #[trigger]
            fresh_labels(groups, scan).contains(t) ==> last_group_of(groups, t) is None
                && scan.contains(t),
        forall|t: Seq<char>|
            scan.contains(t) && last_group_of(groups, t) is None ==> #[trigger] fresh_labels(
                groups,
                scan,
            ).contains(t),
    decreases scan.len(),
{
    if scan.len() > 0 {
        lemma_fresh_labels(groups, scan.drop_last());
        let prev = fresh_labels(groups, scan.drop_last());
        let t = scan.last();
        assert forall|u: Seq<char>| scan.drop_last().contains(u) implies scan.contains(u) by {
            let k = choose|k: int| 0 <= k < scan.drop_last().len() && scan.drop_last()[k] == u;
            assert(scan[k] == u);
        }
        assert forall|u: Seq<char>| scan.contains(u) && !scan.drop_last().contains(u) implies u
            == t by {
            let k = choose|k: int| 0 <= k < scan.len() && scan[k] == u;
            if k < scan.len() - 1 {
                assert(scan.drop_last()[k] == u);
            }
        }
        if !(last_group_of(groups, t) is Some || prev.contains(t)) {
            let f = prev.push(t);
            assert forall|u: Seq<char>| #[trigger] f.contains(u) implies prev.contains(u) || u
                == t by {
                let k = choose|k: int| 0 <= k < f.len() && f[k] == u;
                if k < prev.len() {
                    assert(prev[k] == u);
                }
            }
            assert forall|u: Seq<char>| prev.contains(u) implies #[trigger] f.contains(u) by {
                let k = choose|k: int| 0 <= k < prev.len() && prev[k] == u;
                assert(f[k] == u);
            }
            assert(f[prev.len() as int] == t);
        }
    }
}

/// The numbering of the electrical nodes of a network: each busbar is one
/// node, and every other label that an element names is a node of its own.
pub struct NodeIndex {
    busbars: BusbarIndex,
    fresh: Vec<String>,
    listed: Vec<String>,
    stars: usize,
}

impl NodeIndex {
    /// The labels of each busbar.
    pub closed spec fn groups(&self) -> Seq<Seq<Seq<char>>> {
        self.busbars@
    }

    /// The labels outside every busbar, numbered after the busbars.
    pub closed spec fn fresh(&self) -> Seq<Seq<char>> {
        labels_of(self.fresh@)
    }

    /// Every label that has a number, in the order in which `fault_map` reports them.
    pub closed spec fn listed(&self) -> Seq<Seq<char>> {
        labels_of(self.listed@)
    }

    /// The number of internal star nodes, one per three-winding transformer.
    pub closed spec fn star_count(&self) -> nat {
        self.stars as nat
    }

    /// The number of the star node of the three-winding transformer at
    /// position `p`: after the busbars and the fresh labels.
    pub open spec fn star_spec(&self, p: nat) -> Option<nat> {
        if p < self.star_count() {
            Some(self.groups().len() + self.fresh().len() + p)
        } else {
            None
        }
    }

    /// The number of label `t`, if it has one.
    pub open spec fn node_spec(&self, t: Seq<char>) -> Option<nat> {
        node_of(self.groups(), self.fresh(), t)
    }

    /// The number of nodes.
    pub open spec fn count_spec(&self) -> nat {
        self.groups().len() + self.fresh().len() + self.star_count()
    }

    pub open spec fn wf(&self) -> bool {
        &&& self.fresh().no_duplicates()
        &&& self.listed().no_duplicates()
        &&& forall|t: Seq<char>| #[trigger]
            self.fresh().contains(t) ==> last_group_of(self.groups(), t) is None
        &&& self.count_spec() <= usize::MAX
        &&& forall|t: Seq<char>| #[trigger]
            self.listed().contains(t) <==> self.node_spec(t) is Some
    }

    /// The number of nodes.
    pub fn count(&self) -> (n: usize)
        requires
            self.wf(),
        ensures
            n == self.count_spec(),
    {
        self.busbars.len() + self.fresh.len() + self.stars
    }

    /// The number of the star node of the three-winding transformer at `p`.
    pub fn star_node(&self, p: usize) -> (r: Option<usize>)
        requires
            self.wf(),
        ensures
            r matches Some(i) ==> self.star_spec(p as nat) == Some(i as nat) && i < self.count_spec(),
            r is None ==> self.star_spec(p as nat) is None,
    {
        if p < self.stars {
            Some(self.busbars.len() + self.fresh.len() + p)
        } else {
            None
        }
    }

    /// The number of the node that label `t` belongs to.
    pub fn node(&self, t: &String) -> (r: Option<usize>)
        requires
            self.wf(),
        ensures
            r matches Some(i) ==> self.node_spec(t@) == Some(i as nat) && i < self.count_spec(),
            r is None ==> self.node_spec(t@) is None,
    {
        proof {
            lemma_last_group_of(self.groups(), t@);
        }
        match self.busbars.busbar(t) {
            Some(b) => Some(b),
            None => {
                let mut k: usize = 0;
                while k < self.fresh.len()
                    invariant
                        self.wf(),
                        k <= self.fresh@.len(),
                        forall|j: int| 0 <= j < k ==> self.fresh@[j]@ != t@,
                    decreases self.fresh.len() - k,
                {
                    if self.fresh[k] == *t {
                        proof {
                            let f = self.fresh();
                            assert(f.len() == self.fresh@.len());
                            assert(f[k as int] == t@);
                            assert(f.contains(t@));
                            let j = f.index_of(t@);
                            assert(f[j] == t@);
                            assert(f.no_duplicates());
                            assert(0 <= j < f.len());
                            if j != k {
                                assert(f[j] != f[k as int]);
                            }
                            assert(self.busbars@.len() == self.groups().len());
                        }
                        return Some(self.busbars.len() + k);
                    }
                    k += 1;
                }
                proof {
                    if self.fresh().contains(t@) {
                        let j = choose|j: int| 0 <= j < self.fresh().len() && self.fresh()[j] == t@;
                        assert(self.fresh@[j]@ == t@);
                    }
                }
                None
            },
        }
    }
}

impl NodeIndex {
    /// Pairs every numbered label, each once, with the value that `diag`
    /// holds for its node, in the order of `listed`.
    pub fn fault_map<T: Copy>(&self, diag: &Vec<T>) -> (r: Vec<(String, T)>)
        requires
            self.wf(),
            diag@.len() == self.count_spec(),
        ensures
            r@.len() == self.listed().len(),
            self.listed().no_duplicates(),
            forall|k: int|
                0 <= k < r@.len() ==> (#[trigger] r@[k]).0@ == self.listed()[k] && self.node_spec(
                    self.listed()[k],
                ) is Some && r@[k].1 == diag@[self.node_spec(self.listed()[k])->0 as int],
    {
        let mut r: Vec<(String, T)> = Vec::new();
        let mut k: usize = 0;
        while k < self.listed.len()
            invariant
                self.wf(),
                diag@.len() == self.count_spec(),
                k <= self.listed@.len(),
                r@.len() == k,
                self.listed().len() == self.listed@.len(),
                forall|j: int|
                    0 <= j < k ==> (#[trigger] r@[j]).0@ == self.listed()[j] && self.node_spec(
                        self.listed()[j],
                    ) is Some && r@[j].1 == diag@[self.node_spec(self.listed()[j])->0 as int],
            decreases self.listed.len() - k,
        {
            let t = &self.listed[k];
            proof {
                assert(self.listed()[k as int] == t@);
                assert(self.listed().contains(t@));
            }
            match self.node(t) {
                Some(i) => {
                    r.push((t.clone(), diag[i]));
                },
                None => {},
            }
            k += 1;
        }
        r
    }
}

impl Topology {
    /// Numbers the electrical nodes: busbars first, in their order; then
    /// every label outside the busbars, in scan order, at its first
    /// appearance; then one internal star node per three-winding
    /// transformer. Labels of one busbar, and equal labels, share a number.
    pub fn nodes(&self) -> (ix: NodeIndex)
        requires
            topology_size(*self) <= usize::MAX,
        ensures
            ix.wf(),
            ix.groups() == busbar_groups(self.busbars@),
            ix.fresh() == fresh_labels(busbar_groups(self.busbars@), self.scan_labels()),
            ix.star_count() == self.three_winding_transformers@.len(),
    {
        let busbars = BusbarIndex::new(&self.busbars);
        let ghost groups = busbar_groups(self.busbars@);
        let scan = self.scan();
        let ghost s = labels_of(scan@);
        let mut fresh: Vec<String> = Vec::new();
        let mut i: usize = 0;
        assert(s.subrange(0, 0) =~= Seq::<Seq<char>>::empty());
        assert(labels_of(fresh@) =~= Seq::<Seq<char>>::empty());
        while i < scan.len()
            invariant
                busbars@ == groups,
                s == labels_of(scan@),
                i <= scan@.len(),
                labels_of(fresh@) == fresh_labels(groups, s.subrange(0, i as int)),
            decreases scan.len() - i,
        {
            let known = busbars.busbar(&scan[i]).is_some() || contains_label(&fresh, &scan[i]);
            proof {
                assert(s.subrange(0, i + 1).drop_last() =~= s.subrange(0, i as int));
                assert(s.subrange(0, i + 1).last() == scan@[i as int]@);
            }
            if !known {
                proof {
                    assert(labels_of(fresh@.push(scan@[i as int])) =~= labels_of(fresh@).push(
                        scan@[i as int]@,
                    ));
                }
                fresh.push(scan[i].clone());
            }
            i += 1;
        }
        proof {
            assert(s.subrange(0, s.len() as int) =~= s);
            lemma_fresh_labels(groups, s);
        }
        let ghost fr = labels_of(fresh@);
        // Every label with a number, each once: those of the busbars, then the fresh ones.
        let mut listed: Vec<String> = Vec::new();
        let mut b: usize = 0;
        assert(labels_of(listed@) =~= Seq::<Seq<char>>::empty());
        while b < self.busbars.len()
            invariant
                busbars@ == groups,
                groups == busbar_groups(self.busbars@),
                b <= self.busbars@.len(),
                labels_of(listed@).no_duplicates(),
                forall|t: Seq<char>| #[trigger]
                    labels_of(listed@).contains(t) ==> last_group_of(groups, t) is Some,
                forall|c: int, t: Seq<char>|
                    0 <= c < b && #[trigger] groups[c].contains(t) ==> labels_of(
                        listed@,
                    ).contains(t),
            decreases self.busbars.len() - b,
        {
            let nodes = &self.busbars[b].nodes;
            let mut k: usize = 0;
            while k < nodes.len()
                invariant
                    busbars@ == groups,
                    groups == busbar_groups(self.busbars@),
                    b < self.busbars@.len(),
                    nodes == self.busbars@[b as int].nodes,
                    k <= nodes@.len(),
                    labels_of(listed@).no_duplicates(),
                    forall|t: Seq<char>| #[trigger]
                        labels_of(listed@).contains(t) ==> last_group_of(groups, t) is Some,
                    forall|c: int, t: Seq<char>|
                        0 <= c < b && #[trigger] groups[c].contains(t) ==> labels_of(
                            listed@,
                        ).contains(t),
                    forall|j: int| 0 <= j < k ==> labels_of(listed@).contains(#[trigger] nodes@[j]@),
                decreases nodes.len() - k,
            {
                if !contains_label(&listed, &nodes[k]) {
                    let ghost before = listed@;
                    listed.push(nodes[k].clone());
                    proof {
                        let t = nodes@[k as int]@;
                        assert(groups[b as int] == labels_of(nodes@));
                        assert(labels_of(nodes@)[k as int] == t);
                        assert(groups[b as int].contains(t));
                        lemma_last_group_of(groups, t);
                        let old_l = labels_of(before);
                        let new_l = labels_of(listed@);
                        assert(new_l =~= old_l.push(t));
                        assert(new_l[before.len() as int] == t);
                        assert forall|u: Seq<char>| old_l.contains(u) implies new_l.contains(u) by {
                            let j = choose|j: int| 0 <= j < old_l.len() && old_l[j] == u;
                            assert(new_l[j] == u);
                        }
                        assert forall|u: Seq<char>| #[trigger]
                            new_l.contains(u) implies last_group_of(groups, u) is Some by {
                            let j = choose|j: int| 0 <= j < new_l.len() && new_l[j] == u;
                            if j < before.len() {
                                assert(old_l[j] == u);
                                assert(old_l.contains(u));
                            }
                        }
                        assert forall|i: int, j: int|
                            0 <= i < new_l.len() && 0 <= j < new_l.len() && i != j implies new_l[i]
                            != new_l[j] by {
                            if i < old_l.len() && j == old_l.len() {
                                assert(old_l[i] != t);
                            } else if j < old_l.len() && i == old_l.len() {
                                assert(old_l[j] != t);
                            }
                        }
                    }
                }
                k += 1;
            }
            proof {
                assert forall|c: int, t: Seq<char>|
                    0 <= c < b + 1 && #[trigger] groups[c].contains(t) implies labels_of(
                        listed@,
                    ).contains(t) by {
                    if c == b {
                        assert(groups[c] == labels_of(nodes@));
                        let j = choose|j: int|
                            0 <= j < labels_of(nodes@).len() && labels_of(nodes@)[j] == t;
                        assert(nodes@[j]@ == t);
                    }
                }
            }
            b += 1;
        }
        let ghost group_part = labels_of(listed@);
        let mut k: usize = 0;
        assert(fr.subrange(0, 0) =~= Seq::<Seq<char>>::empty());
        assert(group_part + fr.subrange(0, 0) =~= group_part);
        while k < fresh.len()
            invariant
                k <= fresh@.len(),
                fr == labels_of(fresh@),
                group_part.len() <= listed@.len(),
                labels_of(listed@) == group_part + fr.subrange(0, k as int),
            decreases fresh.len() - k,
        {
            let ghost before = listed@;
            listed.push(fresh[k].clone());
            proof {
                assert(labels_of(listed@) =~= labels_of(before).push(fresh@[k as int]@));
                assert(labels_of(listed@) =~= group_part + fr.subrange(0, k + 1));
            }
            k += 1;
        }
        let stars = self.three_winding_transformers.len();
        let ix = NodeIndex { busbars, fresh, listed, stars };
        proof {
            assert(fr.subrange(0, fr.len() as int) =~= fr);
            assert(ix.listed() == group_part + fr);
            assert forall|t: Seq<char>| #[trigger] ix.listed().contains(t) <==> ix.node_spec(t) is Some by {
                lemma_last_group_of(groups, t);
                if ix.listed().contains(t) {
                    let j = choose|j: int| 0 <= j < ix.listed().len() && ix.listed()[j] == t;
                    if j < group_part.len() {
                        assert(group_part[j] == t);
                        assert(group_part.contains(t));
                    } else {
                        assert(fr[j - group_part.len()] == t);
                        assert(fr.contains(t));
                    }
                }
                if ix.node_spec(t) is Some {
                    match last_group_of(groups, t) {
                        Some(c) => {
                            assert(groups[c as int].contains(t));
                            assert(group_part.contains(t));
                            let j = choose|j: int| 0 <= j < group_part.len() && group_part[j] == t;
                            assert(ix.listed()[j] == t);
                        },
                        None => {
                            assert(fr.contains(t));
                            let j = choose|j: int| 0 <= j < fr.len() && fr[j] == t;
                            assert(ix.listed()[group_part.len() + j] == t);
                        },
                    }
                }
            }
            let l = ix.listed();
            assert forall|i: int, j: int|
                0 <= i < l.len() && 0 <= j < l.len() && i != j implies l[i] != l[j] by {
                let g = group_part.len() as int;
                if i < g && j < g {
                    assert(group_part[i] != group_part[j]);
                } else if i >= g && j >= g {
                    assert(fr[i - g] != fr[j - g]);
                } else if i < g {
                    assert(group_part.contains(group_part[i]));
                    assert(fr.contains(fr[j - g]));
                } else {
                    assert(group_part.contains(group_part[j]));
                    assert(fr.contains(fr[i - g]));
                }
            }
            assert(groups.len() == self.busbars@.len());
            assert(self.scan_labels().len() >= fr.len());
        }
        ix
    }
}

} // verus!
