use vstd::prelude::*;
use crate::frame_lib::mesh::{trans_to_vec, wrap_command, hex_bytes, command_frame};
use crate::mqtts::mqtt_h::{MeshMessage, Token, message_for, next_token};

verus! {

/// Mesh command that tells a node to leave the network.
pub const CMD_NODE_LEAVE: u8 = 17;

/// A request that a node leave the network for `duration`.
pub struct NodeLeave {
    pub mac: String,
    pub duration: u32,
}

/// Little-endian bytes of a 32-bit value.
pub open spec fn le32(v: u32) -> Seq<u8> {
    seq![(v % 256) as u8, (v / 256 % 256) as u8, (v / 65536 % 256) as u8, (v / 16777216) as u8]
}

/// Payload of a node-leave command: a count of one, the node MAC, the duration.
pub open spec fn leave_payload(mac: Seq<u8>, duration: u32) -> Seq<u8> {
    seq![1u8] + mac + le32(duration)
}

impl NodeLeave {
    /// The node-leave command for the radio manager, numbered by `token`; none when the
    /// MAC text does not decode to 16 bytes (and `token` is then left alone).
    pub fn get_frame_json(&self, token: &mut Token) -> (m: Option<MeshMessage>)
        ensures
            hex_bytes(self.mac@).len() != 16 ==> m is None && final(token).token == old(token).token,
            hex_bytes(self.mac@).len() == 16 ==> m is Some,
            hex_bytes(self.mac@).len() == 16 ==> m.unwrap()@ == message_for(
                old(token).token,
                command_frame(CMD_NODE_LEAVE, leave_payload(hex_bytes(self.mac@), self.duration)),
            ),
            hex_bytes(self.mac@).len() == 16 ==> final(token).token == next_token(old(token).token),
    {
        let mut data: Vec<u8> = Vec::new();
        let mac: Vec<u8> = trans_to_vec(&self.mac);
        data.push(1);
        let mut i: usize = 0;
        while i < mac.len()
            invariant
                i <= mac@.len(),
                data@ == seq![1u8] + mac@.take(i as int),
            decreases mac@.len() - i,
        {
            data.push(mac[i]);
            i = i + 1;
            assert(data@ =~= seq![1u8] + mac@.take(i as int));
        }
        if mac.len() != 16 {
            return None;
        }
        let d = self.duration;
        data.push((d & 0x000000FF) as u8);
        data.push(((d & 0x0000FF00) >> 8) as u8);
        data.push(((d & 0x00FF0000) >> 16) as u8);
        data.push(((d & 0xFF000000) >> 24) as u8);
        proof {
            assert((d & 0x000000FF) == d % 256) by (bit_vector);
            assert(((d & 0x0000FF00) >> 8) == d / 256 % 256) by (bit_vector);
            assert(((d & 0x00FF0000) >> 16) == d / 65536 % 256) by (bit_vector);
            assert(((d & 0xFF000000) >> 24) == d / 16777216) by (bit_vector);
            assert(mac@.take(16) =~= mac@);
            assert(data@ =~= leave_payload(mac@, d));
        }
        let frame = wrap_command(CMD_NODE_LEAVE, data.as_slice());
        Some(MeshMessage::new(token, frame.as_slice()))
    }
}

} // verus!
