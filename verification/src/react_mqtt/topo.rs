use vstd::prelude::*;
use crate::frame_lib::mesh::{trans_to_string, hex_string};
use crate::str_map::StrMap;

verus! {

/// A node of the mesh and its parent.
pub struct Node {
    pub node_mac: Vec<u8>,
    pub parent_mac: Vec<u8>,
}

/// The mesh topology: each node with its parent, keyed by the node MAC text.
pub struct Topo {
    pub nodes: StrMap<Node>,
}

impl View for Topo {
    type V = Map<Seq<char>, (Seq<u8>, Seq<u8>)>;

    open spec fn view(&self) -> Map<Seq<char>, (Seq<u8>, Seq<u8>)> {
        self.nodes@.map_values(|n: Node| (n.node_mac@, n.parent_mac@))
    }
}

/// Whether a route (node MAC, parent MAC, ...) has both MACs, each of 16 bytes or more.
pub open spec fn route_ok(node: Seq<Vec<u8>>) -> bool {
    node.len() >= 2 && node[0]@.len() >= 16 && node[1]@.len() >= 16
}

impl Topo {
    /// Records the parent of a node from a route `[node MAC, parent MAC, ...]`; a route
    /// without two MACs of 16 bytes or more is ignored.
    pub fn insert_route(&mut self, node: Vec<Vec<u8>>)
        ensures
            !route_ok(node@) ==> final(self)@ == old(self)@,
            route_ok(node@) ==> final(self)@ == old(self)@.insert(
                hex_string(node@[0]@),
                (node@[0]@, node@[1]@),
            ),
    {
        if node.len() < 2 {
            return;
        }
        if node[0].len() < 16 || node[1].len() < 16 {
            return;
        }
        let node_mac: String = trans_to_string(node[0].as_slice());
        let ghost key = node_mac@;
        let entry = Node { node_mac: node[0].clone(), parent_mac: node[1].clone() };
        self.nodes.insert(node_mac, entry);
        assert(self@ =~= old(self)@.insert(key, (node@[0]@, node@[1]@)));
    }

    /// Forgets the node of a route `[node MAC, parent MAC, ...]`; a route without two
    /// MACs of 16 bytes or more is ignored.
    pub fn rm_route(&mut self, node: Vec<Vec<u8>>)
        ensures
            !route_ok(node@) ==> final(self)@ == old(self)@,
            route_ok(node@) ==> final(self)@ == old(self)@.remove(hex_string(node@[0]@)),
    {
        if node.len() < 2 {
            return;
        }
        if node[0].len() < 16 || node[1].len() < 16 {
            return;
        }
        let node_mac: String = trans_to_string(node[0].as_slice());
        self.nodes.remove(node_mac.as_str());
        assert(self@ =~= old(self)@.remove(hex_string(node@[0]@)));
    }
}

} // verus!
