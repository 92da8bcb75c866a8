use vstd::prelude::*;
use crate::str_map::StrMap;

verus! {

/// Firmware versions that nodes reported, keyed by node MAC text.
pub struct NodeVersion {
    pub version: StrMap<Vec<u8>>,
}

impl View for NodeVersion {
    type V = Map<Seq<char>, Seq<u8>>;

    open spec fn view(&self) -> Map<Seq<char>, Seq<u8>> {
        self.version@.map_values(|v: Vec<u8>| v@)
    }
}

impl NodeVersion {
    pub fn new() -> (n: NodeVersion)
        ensures
            n@ == Map::<Seq<char>, Seq<u8>>::empty(),
    {
        let n = NodeVersion { version: StrMap::new() };
        assert(n@ =~= Map::<Seq<char>, Seq<u8>>::empty());
        n
    }

    pub fn set_version(&mut self, mac: String, version: &[u8])
        ensures
            final(self)@ == old(self)@.insert(mac@, version@),
    {
        let ghost key = mac@;
        self.version.insert(mac, vstd::slice::slice_to_vec(version));
        assert(self@ =~= old(self)@.insert(key, version@));
    }
}

} // verus!
