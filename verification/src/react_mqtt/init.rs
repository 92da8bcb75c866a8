use vstd::prelude::*;
use crate::frame_deal::mesh_h::{NodeStatus, macs_view};
use crate::frame_lib::mesh::{wrap_command, command_frame, hex_bytes, hex_string};
use crate::mqtts::mqtt_h::{
    Token, Publish, Payload, PayloadView, message_for, next_token, publishes_view, mesh_publish,
    TXTOPIC,
};
use crate::sl_mesh::mqtt::init as current;
use crate::sl_mesh::mqtt::init::{
    CMD_VERSION, json_byte_lists, decode_byte_lists, version_query, topo_after_status,
    nbrs_after_status, online_after_leave, whitelist_after_set,
};
use crate::sl_mesh::mqtt::online::{Online, online_after_add};
use crate::sl_mesh::mqtt::nbr::NodeNbr;
use crate::sl_mesh::mqtt::net_test::{NetTest, TestView, count_one, count_fits};
use super::topo::Topo;
use super::white_list::WhiteList;
use super::version::{NodeVersion, NodeVersionView, version_steps, lemma_version_round};
use super::pan_id::{PanID, pan_ok, pan_payload, CMD_SET_PAN_ID};
use super::node_leave::{NodeLeave, leave_payload, CMD_NODE_LEAVE};

verus! {

/// Takes in a node status report: the node is online, and its parent and neighbours
/// are recorded.
pub fn deal_node_status(
    online: &mut Online,
    topo: &mut Topo,
    node_nbr: &mut NodeNbr,
    node_status: NodeStatus,
)
    ensures
        final(online)@ == online_after_add(old(online)@, hex_string(node_status.mac@)),
        final(topo)@ == topo_after_status(old(topo)@, node_status@),
        final(node_nbr)@ == nbrs_after_status(old(node_nbr)@, node_status@),
{
    current::deal_node_status(online, topo, node_nbr, node_status);
}

/// Takes in a node-leave report: each node goes offline.
pub fn deal_node_leave(online: &mut Online, node_mac: Vec<Vec<u8>>)
    ensures
        final(online)@ == online_after_leave(old(online)@, macs_view(node_mac@)),
{
    current::deal_node_leave(online, node_mac);
}

/// Takes in a node's answer during a network test.
pub fn recv_node_reponse(net_test: &mut NetTest, mac_array: &[u8])
    requires
        count_fits(old(net_test)@.flag, old(net_test)@.res, hex_string(mac_array@)),
    ensures
        final(net_test)@ == (TestView {
            res: count_one(old(net_test)@.flag, old(net_test)@.res, hex_string(mac_array@)),
            ..old(net_test)@
        }),
{
    current::recv_node_reponse(net_test, mac_array);
}

/// The version round after a version report: the report recorded, the round moved on.
pub open spec fn round_after_report(v: NodeVersionView, version: Seq<u8>) -> NodeVersionView {
    if v.index < v.macs.len() % 256 {
        NodeVersionView {
            macs: v.macs,
            index: (v.index + 1) as u8,
            version: v.version.insert(v.index, version),
        }
    } else {
        v
    }
}

/// The MAC that a version round asks next; empty when the round is over.
pub open spec fn next_mac(v: NodeVersionView) -> Seq<u8> {
    if v.index < v.macs.len() {
        v.macs[v.index as int]
    } else {
        seq![]
    }
}

/// Takes in a node's version report and sends the version query to the next node of
/// the round, when its MAC has 16 bytes.
pub fn recv_node_version(node_version: &mut NodeVersion, token: &mut Token, version: &[u8]) -> (r:
    Vec<Publish>)
    ensures
        final(node_version)@ == round_after_report(old(node_version)@, version@),
        ({
            let next = next_mac(final(node_version)@);
            &&& next.len() != 16 ==> r@.len() == 0 && final(token).token == old(token).token
            &&& next.len() == 16 ==> final(token).token == next_token(old(token).token)
                && publishes_view(r@) == seq![version_query(TXTOPIC@, old(token).token, next)]
        }),
{
    node_version.set_version(version);
    let next = node_version.get_next_mac();
    let mut r: Vec<Publish> = Vec::new();
    if next.len() != 16 {
        return r;
    }
    let frame = wrap_command(CMD_VERSION, next.as_slice());
    r.push(mesh_publish(token, TXTOPIC, frame.as_slice()));
    assert(publishes_view(r@) =~= seq![version_query(TXTOPIC@, old(token).token, next@)]);
    r
}

/// Sends a set-PAN-id command on `topic`; nothing when the request does not hold a
/// 16-byte MAC and a 2-byte id.
pub fn set_pan_id(token: &mut Token, topic: &str, pan_id: &PanID) -> (r: Vec<Publish>)
    ensures
        !pan_ok(pan_id.mac@, pan_id.pan_id@) ==> r@.len() == 0 && final(token).token == old(
            token,
        ).token,
        pan_ok(pan_id.mac@, pan_id.pan_id@) ==> final(token).token == next_token(old(token).token),
        pan_ok(pan_id.mac@, pan_id.pan_id@) ==> publishes_view(r@) == seq![
            (
                topic@,
                PayloadView::Mesh(
                    message_for(
                        old(token).token,
                        command_frame(
                            CMD_SET_PAN_ID,
                            pan_payload(hex_bytes(pan_id.mac@), hex_bytes(pan_id.pan_id@)),
                        ),
                    ),
                ),
            ),
        ],
{
    let mut r: Vec<Publish> = Vec::new();
    match pan_id.get_frame_json(token) {
        None => {},
        Some(m) => {
            r.push(Publish { topic: topic.to_owned(), payload: Payload::Mesh(m) });
        },
    }
    assert(r@.len() > 0 ==> publishes_view(r@) =~= seq![r@[0]@]);
    r
}

/// Sends a node-leave command on `topic`; nothing when the request does not hold a
/// 16-byte MAC.
pub fn command_node_leave(token: &mut Token, topic: &str, node_leave: &NodeLeave) -> (r: Vec<
    Publish,
>)
    ensures
        hex_bytes(node_leave.mac@).len() != 16 ==> r@.len() == 0 && final(token).token == old(
            token,
        ).token,
        hex_bytes(node_leave.mac@).len() == 16 ==> final(token).token == next_token(
            old(token).token,
        ),
        hex_bytes(node_leave.mac@).len() == 16 ==> publishes_view(r@) == seq![
            (
                topic@,
                PayloadView::Mesh(
                    message_for(
                        old(token).token,
                        command_frame(
                            CMD_NODE_LEAVE,
                            leave_payload(hex_bytes(node_leave.mac@), node_leave.duration),
                        ),
                    ),
                ),
            ),
        ],
{
    let mut r: Vec<Publish> = Vec::new();
    match node_leave.get_frame_json(token) {
        None => {},
        Some(m) => {
            r.push(Publish { topic: topic.to_owned(), payload: Payload::Mesh(m) });
        },
    }
    assert(r@.len() > 0 ==> publishes_view(r@) =~= seq![r@[0]@]);
    r
}

/// Sends the register command on `topic`.
pub fn command_register(token: &mut Token, topic: &str) -> (r: Vec<Publish>)
    ensures
        final(token).token == next_token(old(token).token),
        publishes_view(r@) == seq![
            (
                topic@,
                PayloadView::Mesh(
                    message_for(
                        old(token).token,
                        command_frame(current::CMD_REGISTER, seq![255u8]),
                    ),
                ),
            ),
        ],
{
    current::command_register(token, topic)
}

/// Starts a version round over `macs` (when present) and sends, on `topic`, the version
/// query to the first node, when its MAC has 16 bytes.
pub fn start_version_round(
    node_version: &mut NodeVersion,
    token: &mut Token,
    topic: &str,
    macs: Option<Vec<Vec<u8>>>,
) -> (r: Vec<Publish>)
    ensures
        macs is None ==> final(node_version)@ == old(node_version)@ && r@.len() == 0
            && final(token).token == old(token).token,
        macs matches Some(m) ==> {
            &&& final(node_version)@.macs == macs_view(m@)
            &&& final(node_version)@.index == 0
            &&& final(node_version)@.version == Map::<u8, Seq<u8>>::empty()
            &&& (m@.len() == 0 || m@[0]@.len() != 16) ==> r@.len() == 0 && final(token).token == old(
                token,
            ).token
            &&& (m@.len() > 0 && m@[0]@.len() == 16) ==> final(token).token == next_token(
                old(token).token,
            ) && publishes_view(r@) == seq![version_query(topic@, old(token).token, m@[0]@)]
        },
{
    let mut r: Vec<Publish> = Vec::new();
    match macs {
        None => r,
        Some(mac) => {
            if mac.len() == 0 {
                node_version.set(mac);
                return r;
            }
            let first = mac[0].clone();
            node_version.set(mac);
            if first.len() != 16 {
                return r;
            }
            let frame = wrap_command(CMD_VERSION, first.as_slice());
            r.push(mesh_publish(token, topic, frame.as_slice()));
            assert(publishes_view(r@) =~= seq![version_query(topic@, old(token).token, first@)]);
            r
        },
    }
}

/// Starts a version round over the MACs that the JSON text `data` lists; nothing when
/// `data` does not decode.
pub fn start_get_version(node_version: &mut NodeVersion, token: &mut Token, topic: &str, data: &str) -> (r: Vec<Publish>)
    ensures
        json_byte_lists(data@) is None ==> final(node_version)@ == old(node_version)@ && r@.len()
            == 0 && final(token).token == old(token).token,
        json_byte_lists(data@) matches Some(m) ==> {
            &&& final(node_version)@.macs == m
            &&& final(node_version)@.index == 0
            &&& final(node_version)@.version == Map::<u8, Seq<u8>>::empty()
            &&& (m.len() == 0 || m[0].len() != 16) ==> r@.len() == 0 && final(token).token == old(
                token,
            ).token
            &&& (m.len() > 0 && m[0].len() == 16) ==> final(token).token == next_token(
                old(token).token,
            ) && publishes_view(r@) == seq![version_query(topic@, old(token).token, m[0])]
        },
{
    let macs = decode_byte_lists(data);
    start_version_round(node_version, token, topic, macs)
}

/// Replaces the whitelist with the listed devices; an empty list changes nothing.
pub fn whitelist_set(white_list: &mut WhiteList, lists: Vec<current::Device>)
    ensures
        final(white_list)@ == whitelist_after_set(old(white_list)@, lists@),
{
    current::response_whitelist_set(white_list, lists);
}


/// A version reply that the round takes is stored under the position of the MAC
/// asked and moves the query on to the MAC after it; the round is over (nothing more
/// is asked) once the last MAC replied.
pub proof fn lemma_reply_asks_next(v: NodeVersionView, reply: Seq<u8>)
    requires
        v.index < v.macs.len() % 256,
    ensures
        round_after_report(v, reply).macs == v.macs,
        round_after_report(v, reply).index == v.index + 1,
        round_after_report(v, reply).version == v.version.insert(v.index, reply),
        round_after_report(v, reply) == super::version::version_step(v, reply),
        v.index + 1 < v.macs.len() ==> next_mac(round_after_report(v, reply)) == v.macs[v.index
            + 1],
        v.index + 1 >= v.macs.len() ==> next_mac(round_after_report(v, reply)).len() == 0,
        next_mac(v) == v.macs[v.index as int],
{
}

/// In a round started over `macs`, after `k` replies (fewer than the MACs, taken
/// modulo 256) the node asked is the MAC at position `k`: each MAC is asked once, in
/// list order.
pub proof fn lemma_round_asks_in_order(macs: Seq<Seq<u8>>, replies: Seq<Seq<u8>>)
    requires
        replies.len() < macs.len() % 256,
    ensures
        next_mac(version_steps(NodeVersionView { macs, index: 0, version: Map::empty() }, replies))
            == macs[replies.len() as int],
{
    lemma_version_round(macs, replies);
}

} // verus!
