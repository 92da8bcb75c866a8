use vstd::prelude::*;
use std::collections::HashMap;
use crate::frame_deal::mesh_h::macs_view;

verus! {

broadcast use vstd::std_specs::hash::group_hash_axioms;

/// A round of version queries: the MACs to ask in turn, the position of the next one,
/// and the versions received so far, keyed by position.
pub struct NodeVersion {
    pub macs: Vec<Vec<u8>>,
    pub index: u8,
    pub version: HashMap<u8, Vec<u8>>,
}

/// What a `NodeVersion` holds.
pub struct NodeVersionView {
    pub macs: Seq<Seq<u8>>,
    pub index: u8,
    pub version: Map<u8, Seq<u8>>,
}

impl View for NodeVersion {
    type V = NodeVersionView;

    open spec fn view(&self) -> NodeVersionView {
        NodeVersionView {
            macs: macs_view(self.macs@),
            index: self.index,
            version: self.version@.map_values(|v: Vec<u8>| v@),
        }
    }
}

/// The round after the reply `reply`: stored under the current position, which moves
/// on; ignored once the position reaches the number of MACs taken modulo 256.
pub open spec fn version_step(v: NodeVersionView, reply: Seq<u8>) -> NodeVersionView {
    if v.index < v.macs.len() % 256 {
        NodeVersionView {
            macs: v.macs,
            index: (v.index + 1) as u8,
            version: v.version.insert(v.index, reply),
        }
    } else {
        v
    }
}

/// The round after the replies `replies`, one after another.
pub open spec fn version_steps(v: NodeVersionView, replies: Seq<Seq<u8>>) -> NodeVersionView
    decreases replies.len(),
{
    if replies.len() == 0 {
        v
    } else {
        version_step(version_steps(v, replies.drop_last()), replies.last())
    }
}

fn clone_macs(macs: &Vec<Vec<u8>>) -> (r: Vec<Vec<u8>>)
    ensures
        macs_view(r@) == macs_view(macs@),
{
    let mut r: Vec<Vec<u8>> = Vec::new();
    let mut i: usize = 0;
    while i < macs.len()
        invariant
            i <= macs@.len(),
            macs_view(r@) =~= macs_view(macs@.take(i as int)),
        decreases macs@.len() - i,
    {
        let ghost before = r@;
        r.push(macs[i].clone());
        assert(macs_view(r@) =~= macs_view(before).push(macs@[i as int]@));
        i = i + 1;
        assert(macs_view(r@) =~= macs_view(macs@.take(i as int)));
    }
    assert(macs@.take(i as int) =~= macs@);
    r
}

impl NodeVersion {
    pub fn new() -> (n: NodeVersion)
        ensures
            n@.macs.len() == 0,
            n@.index == 0,
            n@.version == Map::<u8, Seq<u8>>::empty(),
    {
        let n = NodeVersion { macs: Vec::new(), index: 0, version: HashMap::new() };
        assert(n@.version =~= Map::<u8, Seq<u8>>::empty());
        n
    }

    /// Starts a new round over `macs`.
    pub fn set(&mut self, macs: Vec<Vec<u8>>)
        ensures
            final(self)@.macs == macs_view(macs@),
            final(self)@.index == 0,
            final(self)@.version == Map::<u8, Seq<u8>>::empty(),
    {
        self.macs = clone_macs(&macs);
        self.index = 0;
        self.version = HashMap::new();
        assert(self@.version =~= Map::<u8, Seq<u8>>::empty());
    }

    /// Records the version of the node asked last and moves to the next one; ignored
    /// once the position reaches the number of MACs taken modulo 256.
    pub fn set_version(&mut self, version: &[u8])
        ensures
            final(self)@ == version_step(old(self)@, version@),
    {
        if self.index >= (self.macs.len() % 256) as u8 {
            return;
        }
        let v = vstd::slice::slice_to_vec(version);
        self.version.insert(self.index, v);
        self.index = self.index + 1;
        assert(self@.version =~= old(self)@.version.insert(old(self)@.index, version@));
    }

    /// The MAC to ask next; empty when the round is over.
    pub fn get_next_mac(&mut self) -> (mac: Vec<u8>)
        ensures
            final(self)@ == old(self)@,
            old(self)@.index < old(self)@.macs.len() ==> mac@ == old(self)@.macs[old(self)@.index as int],
            old(self)@.index >= old(self)@.macs.len() ==> mac@.len() == 0,
    {
        if (self.index as usize) < self.macs.len() {
            self.macs[self.index as usize].clone()
        } else {
            Vec::new()
        }
    }
}


/// A round started over `macs` stores the replies by position, in the order they come,
/// asks next for the MAC after the last reply, and ignores replies once every MAC (taken
/// modulo 256) has answered.
pub proof fn lemma_version_round(macs: Seq<Seq<u8>>, replies: Seq<Seq<u8>>)
    ensures
        ({
            let n = macs.len() % 256;
            let start = NodeVersionView { macs, index: 0, version: Map::empty() };
            let k = if replies.len() <= n { replies.len() } else { n };
            let v = version_steps(start, replies);
            &&& v.macs == macs
            &&& v.index == k
            &&& v.version == Map::new(|i: u8| i < k, |i: u8| replies[i as int])
            &&& v == version_steps(start, replies.take(k as int))
        }),
    decreases replies.len(),
{
    let n = macs.len() % 256;
    let start = NodeVersionView { macs, index: 0, version: Map::empty() };
    if replies.len() == 0 {
        assert(start.version =~= Map::new(|i: u8| i < 0, |i: u8| replies[i as int]));
        assert(replies.take(0) =~= replies);
    } else {
        let p = replies.drop_last();
        lemma_version_round(macs, p);
        let kp = if p.len() <= n { p.len() } else { n };
        let vp = version_steps(start, p);
        assert(vp.version == Map::new(|i: u8| i < kp, |i: u8| p[i as int]));
        if p.len() < n {
            assert(replies.take(replies.len() as int) =~= replies);
            assert(version_steps(start, replies).version =~= Map::new(
                |i: u8| i < replies.len(),
                |i: u8| replies[i as int],
            ));
        } else {
            assert(p.take(kp as int) =~= replies.take(kp as int));
            assert(Map::new(|i: u8| i < kp, |i: u8| p[i as int]) =~= Map::new(
                |i: u8| i < kp,
                |i: u8| replies[i as int],
            ));
        }
    }
}

} // verus!
