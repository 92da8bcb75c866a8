use vstd::prelude::*;
use crate::str_map::StrMap;

verus! {

/// A device that may join the mesh.
pub struct Device {
    pub site: String,
    pub bar_code: Vec<u8>,
}

/// The devices that may join the mesh, keyed by MAC text.
pub struct WhiteList {
    pub devices: StrMap<Device>,
}

impl View for WhiteList {
    type V = Map<Seq<char>, (Seq<char>, Seq<u8>)>;

    open spec fn view(&self) -> Map<Seq<char>, (Seq<char>, Seq<u8>)> {
        self.devices@.map_values(|d: Device| (d.site@, d.bar_code@))
    }
}

impl WhiteList {
    pub fn insert_device(&mut self, mac: String, device: Device)
        ensures
            final(self)@ == old(self)@.insert(mac@, (device.site@, device.bar_code@)),
    {
        let ghost key = mac@;
        let ghost entry = (device.site@, device.bar_code@);
        self.devices.insert(mac, Device { bar_code: device.bar_code.clone(), site: device.site });
        assert(self@ =~= old(self)@.insert(key, entry));
    }

    pub fn rm_route(&mut self, mac: String)
        ensures
            final(self)@ == old(self)@.remove(mac@),
    {
        self.devices.remove(mac.as_str());
        assert(self@ =~= old(self)@.remove(mac@));
    }

    /// Forgets every device.
    pub fn clear(&mut self)
        ensures
            final(self)@ == Map::<Seq<char>, (Seq<char>, Seq<u8>)>::empty(),
    {
        self.devices.clear();
        assert(self@ =~= Map::<Seq<char>, (Seq<char>, Seq<u8>)>::empty());
    }
}

} // verus!
