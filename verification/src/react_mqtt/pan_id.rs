use vstd::prelude::*;
use crate::frame_lib::mesh::{trans_to_vec, wrap_command, hex_bytes, command_frame};
use crate::mqtts::mqtt_h::{MeshMessage, Token, message_for, next_token};

verus! {

/// Mesh command that sets the PAN id of a node.
pub const CMD_SET_PAN_ID: u8 = 27;

/// A request that a node join the PAN with id `pan_id` (both as hexadecimal text).
pub struct PanID {
    pub mac: String,
    pub pan_id: String,
}

/// Payload of a set-PAN-id command: a count of one, the node MAC, the two PAN id bytes.
pub open spec fn pan_payload(mac: Seq<u8>, pan_id: Seq<u8>) -> Seq<u8> {
    seq![1u8] + mac + seq![pan_id[0], pan_id[1]]
}

/// Whether the texts of a set-PAN-id request decode to a 16-byte MAC and a 2-byte id.
pub open spec fn pan_ok(mac: Seq<char>, pan_id: Seq<char>) -> bool {
    hex_bytes(mac).len() == 16 && hex_bytes(pan_id).len() == 2
}

impl PanID {
    /// The set-PAN-id command for the radio manager, numbered by `token`; none when
    /// the texts do not decode to a 16-byte MAC and a 2-byte id (and `token` is then
    /// left alone).
    pub fn get_frame_json(&self, token: &mut Token) -> (m: Option<MeshMessage>)
        ensures
            !pan_ok(self.mac@, self.pan_id@) ==> m is None && final(token).token == old(token).token,
            pan_ok(self.mac@, self.pan_id@) ==> m is Some,
            pan_ok(self.mac@, self.pan_id@) ==> m.unwrap()@ == message_for(
                old(token).token,
                command_frame(
                    CMD_SET_PAN_ID,
                    pan_payload(hex_bytes(self.mac@), hex_bytes(self.pan_id@)),
                ),
            ),
            pan_ok(self.mac@, self.pan_id@) ==> final(token).token == next_token(old(token).token),
    {
        let mut data: Vec<u8> = Vec::new();
        let mac: Vec<u8> = trans_to_vec(&self.mac);
        let pan_id: Vec<u8> = trans_to_vec(&self.pan_id);
        data.push(1);
        let mut i: usize = 0;
        while i < mac.len()
            invariant
                i <= mac@.len(),
                data@ == seq![1u8] + mac@.take(i as int),
            decreases mac@.len() - i,
        {
            data.push(mac[i]);
            i = i + 1;
            assert(data@ =~= seq![1u8] + mac@.take(i as int));
        }
        if mac.len() != 16 || pan_id.len() != 2 {
            return None;
        }
        data.push(pan_id[0]);
        data.push(pan_id[1]);
        assert(mac@.take(16) =~= mac@);
        assert(data@ =~= pan_payload(mac@, pan_id@));
        let frame = wrap_command(CMD_SET_PAN_ID, data.as_slice());
        Some(MeshMessage::new(token, frame.as_slice()))
    }
}

} // verus!
