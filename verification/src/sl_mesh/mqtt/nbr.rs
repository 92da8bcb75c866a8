use vstd::prelude::*;
use crate::frame_deal::mesh_h::{NetNbr, NbrView, nbrs_view};
use crate::frame_lib::mesh::{trans_to_string, hex_string};
use crate::str_map::StrMap;

verus! {

/// Neighbour lists of the nodes, keyed by the hexadecimal text of the node MAC.
pub struct NodeNbr {
    pub nbrs: StrMap<Vec<NetNbr>>,
}

impl View for NodeNbr {
    type V = Map<Seq<char>, Seq<NbrView>>;

    open spec fn view(&self) -> Map<Seq<char>, Seq<NbrView>> {
        self.nbrs@.map_values(|v: Vec<NetNbr>| nbrs_view(v@))
    }
}

fn clone_nbrs(nbr: &Vec<NetNbr>) -> (r: Vec<NetNbr>)
    ensures
        nbrs_view(r@) == nbrs_view(nbr@),
{
    let mut r: Vec<NetNbr> = Vec::new();
    let mut i: usize = 0;
    while i < nbr.len()
        invariant
            i <= nbr@.len(),
            nbrs_view(r@) =~= nbrs_view(nbr@.take(i as int)),
        decreases nbr@.len() - i,
    {
        let ghost before = r@;
        r.push(nbr[i].clone());
        assert(nbrs_view(r@) =~= nbrs_view(before).push(nbr@[i as int]@));
        i = i + 1;
        assert(nbrs_view(r@) =~= nbrs_view(nbr@.take(i as int)));
    }
    assert(nbr@.take(i as int) =~= nbr@);
    r
}

impl NodeNbr {
    /// Records the neighbours of the node with MAC `mac` (ignored when shorter than 16
    /// bytes).
    pub fn insert_nbr(&mut self, mac: &[u8], nbr: &Vec<NetNbr>)
        ensures
            mac@.len() < 16 ==> final(self)@ == old(self)@,
            mac@.len() >= 16 ==> final(self)@ == old(self)@.insert(hex_string(mac@), nbrs_view(nbr@)),
    {
        if mac.len() < 16 {
            return;
        }
        let node_mac: String = trans_to_string(mac);
        let ghost key = node_mac@;
        let list = clone_nbrs(nbr);
        self.nbrs.insert(node_mac, list);
        assert(self@ =~= old(self)@.insert(key, nbrs_view(nbr@)));
    }

    /// Forgets the neighbours of the node with MAC `mac` (ignored when shorter than 16
    /// bytes).
    pub fn rm_route(&mut self, mac: &[u8])
        ensures
            mac@.len() < 16 ==> final(self)@ == old(self)@,
            mac@.len() >= 16 ==> final(self)@ == old(self)@.remove(hex_string(mac@)),
    {
        if mac.len() < 16 {
            return;
        }
        let node_mac: String = trans_to_string(mac);
        self.nbrs.remove(node_mac.as_str());
        assert(self@ =~= old(self)@.remove(hex_string(mac@)));
    }
}

} // verus!
