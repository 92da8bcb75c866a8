use vstd::prelude::*;
use crate::frame_deal::mesh_h::{NodeStatus, StatusView, NbrView, macs_view};
use crate::frame_lib::mesh::{trans_to_string, hex_string, wrap_command, command_frame};
use crate::mqtts::mqtt_h::{
    Token, Publish, Payload, PayloadView, message_for, next_token, token_after,
    publishes_view, mesh_publish, text_publish,
};
use crate::react_mqtt::topo::Topo;
use crate::react_mqtt::white_list::{WhiteList, Device as ListedDevice};
use crate::react_mqtt::pan_id::{PanID, pan_ok, pan_payload, CMD_SET_PAN_ID};
use crate::react_mqtt::node_leave::{NodeLeave, leave_payload, CMD_NODE_LEAVE};
use crate::frame_lib::mesh::hex_bytes;
use super::online::{Online, node_in, node_out, online_after_add, online_after_remove, json_string_list};
use super::nbr::NodeNbr;
use super::net_test::{NetTest, TestView, count_one, count_fits, zero_counts};
use super::version::NodeVersion;

verus! {

/// Mesh command that registers the mesh.
pub const CMD_REGISTER: u8 = 19;

/// Mesh command that asks a node for its version.
pub const CMD_VERSION: u8 = 42;

/// The list of byte lists that `rustc_serialize::json::decode` reads from the JSON
/// text `text`, or `None` where it fails.
pub uninterp spec fn json_byte_lists(text: Seq<char>) -> Option<Seq<Seq<u8>>>;

/// Decodes JSON text holding a list of byte lists.
///
/// Trusted: calls `rustc_serialize::json::decode::<Vec<Vec<u8>>>` and claims that it
/// succeeds exactly where `json_byte_lists` is `Some`, with that value: the decoder's
/// result depends on the text alone.
#[verifier::external_body]
pub(crate) fn decode_byte_lists(text: &str) -> (r: Option<Vec<Vec<u8>>>)
    ensures
        r is Some <==> json_byte_lists(text@) is Some,
        r matches Some(v) ==> macs_view(v@) == json_byte_lists(text@).unwrap(),
{
    rustc_serialize::json::decode::<Vec<Vec<u8>>>(text).ok()
}

/// The list of 16-bit numbers that `rustc_serialize::json::decode` reads from the
/// JSON text `text`, or `None` where it fails.
pub uninterp spec fn json_u16_list(text: Seq<char>) -> Option<Seq<u16>>;

/// Decodes JSON text holding a list of 16-bit numbers.
///
/// Trusted: calls `rustc_serialize::json::decode::<Vec<u16>>` and claims that it
/// succeeds exactly where `json_u16_list` is `Some`, with that value: the decoder's
/// result depends on the text alone.
#[verifier::external_body]
fn decode_u16_list(text: &str) -> (r: Option<Vec<u16>>)
    ensures
        r is Some <==> json_u16_list(text@) is Some,
        r matches Some(v) ==> v@ == json_u16_list(text@).unwrap(),
{
    rustc_serialize::json::decode::<Vec<u16>>(text).ok()
}

/// The topology after a node status report: the node and the parent of its first
/// route, when there is a route and both MACs have 16 bytes or more.
pub open spec fn topo_after_status(
    t: Map<Seq<char>, (Seq<u8>, Seq<u8>)>,
    st: StatusView,
) -> Map<Seq<char>, (Seq<u8>, Seq<u8>)> {
    if st.net_routes.len() > 0 && st.mac.len() >= 16 && st.net_routes[0].parent_mac.len() >= 16 {
        t.insert(hex_string(st.mac), (st.mac, st.net_routes[0].parent_mac))
    } else {
        t
    }
}

/// The neighbour lists after a node status report that lists neighbours.
pub open spec fn nbrs_after_status(
    n: Map<Seq<char>, Seq<NbrView>>,
    st: StatusView,
) -> Map<Seq<char>, Seq<NbrView>> {
    if st.nbrs.len() > 0 && st.mac.len() >= 16 {
        n.insert(hex_string(st.mac), st.nbrs)
    } else {
        n
    }
}

/// Takes in a node status report: the node is online, and its parent and neighbours
/// are recorded.
pub fn deal_node_status(
    online: &mut Online,
    topo: &mut Topo,
    node_nbr: &mut NodeNbr,
    node_status: NodeStatus,
)
    ensures
        final(online)@ == online_after_add(old(online)@, hex_string(node_status.mac@)),
        final(topo)@ == topo_after_status(old(topo)@, node_status@),
        final(node_nbr)@ == nbrs_after_status(old(node_nbr)@, node_status@),
{
    let mac: String = trans_to_string(node_status.mac.as_slice());
    node_in(online, &mac);
    if node_status.net_routes.len() > 0 {
        let mut route: Vec<Vec<u8>> = Vec::new();
        route.push(node_status.mac.clone());
        route.push(node_status.net_routes[0].parent_mac.clone());
        topo.insert_route(route);
    }
    if node_status.nbrs.len() > 0 {
        node_nbr.insert_nbr(node_status.mac.as_slice(), &node_status.nbrs);
    }
}

/// The online list after the nodes with MACs `macs` left, in turn.
pub open spec fn online_after_leave(s: Seq<Seq<char>>, macs: Seq<Seq<u8>>) -> Seq<Seq<char>>
    decreases macs.len(),
{
    if macs.len() == 0 {
        s
    } else {
        online_after_remove(online_after_leave(s, macs.drop_last()), hex_string(macs.last()))
    }
}

/// Takes in a node-leave report: each node goes offline.
pub fn deal_node_leave(online: &mut Online, node_mac: Vec<Vec<u8>>)
    ensures
        final(online)@ == online_after_leave(old(online)@, macs_view(node_mac@)),
{
    let ghost ms = macs_view(node_mac@);
    let mut i: usize = 0;
    while i < node_mac.len()
        invariant
            i <= node_mac@.len(),
            ms == macs_view(node_mac@),
            online@ == online_after_leave(old(online)@, ms.take(i as int)),
        decreases node_mac@.len() - i,
    {
        let mac: String = trans_to_string(node_mac[i].as_slice());
        node_out(online, &mac);
        assert(ms.take(i + 1).drop_last() =~= ms.take(i as int));
        i = i + 1;
    }
    assert(ms.take(i as int) =~= ms);
}

/// Takes in a node's answer during a network test.
pub fn recv_node_reponse(net_test: &mut NetTest, mac_array: &[u8])
    requires
        count_fits(old(net_test)@.flag, old(net_test)@.res, hex_string(mac_array@)),
    ensures
        final(net_test)@ == (TestView {
            res: count_one(old(net_test)@.flag, old(net_test)@.res, hex_string(mac_array@)),
            ..old(net_test)@
        }),
{
    let mac: String = trans_to_string(mac_array);
    net_test.recode_rx(mac);
}

/// Takes in a node's version report.
pub fn recv_node_version(node_version: &mut NodeVersion, mac: String, version: &[u8])
    ensures
        final(node_version)@ == old(node_version)@.insert(mac@, version@),
{
    node_version.set_version(mac, version);
}

/// Answers a request for the online list on `topic`.
pub fn reponse_online_get(online: &Online, topic: &str) -> (r: Vec<Publish>)
    ensures
        publishes_view(r@) == seq![(topic@, PayloadView::Text(json_string_list(online@)))],
{
    let text = online.get();
    let mut r: Vec<Publish> = Vec::new();
    r.push(Publish { topic: topic.to_owned(), payload: Payload::Text(text) });
    assert(publishes_view(r@) =~= seq![(topic@, PayloadView::Text(json_string_list(online@)))]);
    r
}

/// Topic of the answer to a set-PAN-id request.
pub const PAN_ID_RESPONSE_TOPIC: &'static str = "hy-mesh/pan_id/response";

/// Topic of the answer to a node-leave command.
pub const NODE_LEAVE_RESPONSE_TOPIC: &'static str = "hy-mesh/command_node_leave/response";

/// Sends a set-PAN-id command on `topic` and answers the request; nothing when the
/// request does not hold a 16-byte MAC and a 2-byte id.
pub fn set_pan_id(token: &mut Token, topic: &str, pan_id: &PanID) -> (r: Vec<Publish>)
    ensures
        !pan_ok(pan_id.mac@, pan_id.pan_id@) ==> r@.len() == 0 && final(token).token == old(
            token,
        ).token,
        pan_ok(pan_id.mac@, pan_id.pan_id@) ==> final(token).token == next_token(old(token).token),
        pan_ok(pan_id.mac@, pan_id.pan_id@) ==> publishes_view(r@) == seq![
            (
                topic@,
                PayloadView::Mesh(
                    message_for(
                        old(token).token,
                        command_frame(
                            CMD_SET_PAN_ID,
                            pan_payload(hex_bytes(pan_id.mac@), hex_bytes(pan_id.pan_id@)),
                        ),
                    ),
                ),
            ),
            (PAN_ID_RESPONSE_TOPIC@, PayloadView::Text("{}"@)),
        ],
{
    let mut r: Vec<Publish> = Vec::new();
    match pan_id.get_frame_json(token) {
        None => {},
        Some(m) => {
            r.push(Publish { topic: topic.to_owned(), payload: Payload::Mesh(m) });
            r.push(text_publish(PAN_ID_RESPONSE_TOPIC, "{}"));
        },
    }
    proof {
        if pan_ok(pan_id.mac@, pan_id.pan_id@) {
            assert(publishes_view(r@) =~= seq![
                (
                    topic@,
                    PayloadView::Mesh(
                        message_for(
                            old(token).token,
                            command_frame(
                                CMD_SET_PAN_ID,
                                pan_payload(hex_bytes(pan_id.mac@), hex_bytes(pan_id.pan_id@)),
                            ),
                        ),
                    ),
                ),
                (PAN_ID_RESPONSE_TOPIC@, PayloadView::Text("{}"@)),
            ]);
        }
    }
    r
}

/// Sends a node-leave command on `topic` and answers the request; nothing when the
/// request does not hold a 16-byte MAC.
pub fn command_node_leave(token: &mut Token, topic: &str, node_leave: &NodeLeave) -> (r: Vec<
    Publish,
>)
    ensures
        hex_bytes(node_leave.mac@).len() != 16 ==> r@.len() == 0 && final(token).token == old(
            token,
        ).token,
        hex_bytes(node_leave.mac@).len() == 16 ==> final(token).token == next_token(
            old(token).token,
        ),
        hex_bytes(node_leave.mac@).len() == 16 ==> publishes_view(r@) == seq![
            (
                topic@,
                PayloadView::Mesh(
                    message_for(
                        old(token).token,
                        command_frame(
                            CMD_NODE_LEAVE,
                            leave_payload(hex_bytes(node_leave.mac@), node_leave.duration),
                        ),
                    ),
                ),
            ),
            (NODE_LEAVE_RESPONSE_TOPIC@, PayloadView::Text("{}"@)),
        ],
{
    let mut r: Vec<Publish> = Vec::new();
    match node_leave.get_frame_json(token) {
        None => {},
        Some(m) => {
            r.push(Publish { topic: topic.to_owned(), payload: Payload::Mesh(m) });
            r.push(text_publish(NODE_LEAVE_RESPONSE_TOPIC, "{}"));
        },
    }
    proof {
        if hex_bytes(node_leave.mac@).len() == 16 {
            assert(publishes_view(r@) =~= seq![
                (
                    topic@,
                    PayloadView::Mesh(
                        message_for(
                            old(token).token,
                            command_frame(
                                CMD_NODE_LEAVE,
                                leave_payload(hex_bytes(node_leave.mac@), node_leave.duration),
                            ),
                        ),
                    ),
                ),
                (NODE_LEAVE_RESPONSE_TOPIC@, PayloadView::Text("{}"@)),
            ]);
        }
    }
    r
}

/// Sends the register command on `topic`.
pub fn command_register(token: &mut Token, topic: &str) -> (r: Vec<Publish>)
    ensures
        final(token).token == next_token(old(token).token),
        publishes_view(r@) == seq![
            (
                topic@,
                PayloadView::Mesh(message_for(old(token).token, command_frame(CMD_REGISTER, seq![255u8]))),
            ),
        ],
{
    let mut data: Vec<u8> = Vec::new();
    data.push(255);
    assert(data@ =~= seq![255u8]);
    let frame = wrap_command(CMD_REGISTER, data.as_slice());
    let mut r: Vec<Publish> = Vec::new();
    r.push(mesh_publish(token, topic, frame.as_slice()));
    assert(publishes_view(r@) =~= seq![
        (
            topic@,
            PayloadView::Mesh(message_for(old(token).token, command_frame(CMD_REGISTER, seq![255u8]))),
        ),
    ]);
    r
}

/// The version query to the node with MAC `mac`, on `topic`, when the token counter
/// stands at `token`.
pub open spec fn version_query(topic: Seq<char>, token: u16, mac: Seq<u8>) -> (
    Seq<char>,
    PayloadView,
) {
    (topic, PayloadView::Mesh(message_for(token, command_frame(CMD_VERSION, mac))))
}

/// Sends a version query on `topic` to each node of `macs` in turn, up to the first MAC
/// that does not have 16 bytes.
pub fn version_query_publishes(token: &mut Token, topic: &str, macs: &Vec<Vec<u8>>) -> (r: Vec<
    Publish,
>)
    ensures
        r@.len() <= macs@.len(),
        r@.len() == macs@.len() || macs@[r@.len() as int]@.len() != 16,
        forall|j: int| 0 <= j < r@.len() ==> #[trigger] macs@[j]@.len() == 16,
        forall|j: int|
            0 <= j < r@.len() ==> #[trigger] r@[j]@ == version_query(
                topic@,
                token_after(old(token).token, j as nat),
                macs@[j]@,
            ),
        final(token).token == token_after(old(token).token, r@.len() as nat),
{
    let mut r: Vec<Publish> = Vec::new();
    let mut i: usize = 0;
    while i < macs.len()
        invariant
            i <= macs@.len(),
            r@.len() == i,
            forall|j: int| 0 <= j < i ==> #[trigger] macs@[j]@.len() == 16,
            forall|j: int|
                0 <= j < i ==> #[trigger] r@[j]@ == version_query(
                    topic@,
                    token_after(old(token).token, j as nat),
                    macs@[j]@,
                ),
            token.token == token_after(old(token).token, i as nat),
        decreases macs@.len() - i,
    {
        if macs[i].len() != 16 {
            return r;
        }
        let frame = wrap_command(CMD_VERSION, macs[i].as_slice());
        r.push(mesh_publish(token, topic, frame.as_slice()));
        i = i + 1;
    }
    r
}

/// Starts a version search: sends a version query on `topic` to each node whose MAC
/// the JSON text `data` lists, up to the first MAC that does not have 16 bytes;
/// nothing when `data` does not decode.
pub fn response_start_get_version(token: &mut Token, topic: &str, data: &str) -> (r: Vec<Publish>)
    ensures
        json_byte_lists(data@) is None ==> r@.len() == 0 && final(token).token == old(token).token,
        json_byte_lists(data@) matches Some(macs) ==> {
            &&& r@.len() <= macs.len()
            &&& r@.len() == macs.len() || macs[r@.len() as int].len() != 16
            &&& forall|j: int| 0 <= j < r@.len() ==> #[trigger] macs[j].len() == 16
            &&& forall|j: int|
                0 <= j < r@.len() ==> #[trigger] r@[j]@ == version_query(
                    topic@,
                    token_after(old(token).token, j as nat),
                    macs[j],
                )
            &&& final(token).token == token_after(old(token).token, r@.len() as nat)
        },
{
    match decode_byte_lists(data) {
        Some(macs) => version_query_publishes(token, topic, &macs),
        None => Vec::new(),
    }
}

/// A whitelist entry as a whitelist update lists it.
pub struct Device {
    pub mac: String,
    pub site: String,
    pub bar_code: String,
}

/// The whitelist after an update that lists `devices` in turn: unchanged for an empty
/// list, else exactly the listed devices (a later entry for a MAC wins), each bar code
/// kept as its UTF-8 bytes.
pub open spec fn whitelist_after_set(
    w: Map<Seq<char>, (Seq<char>, Seq<u8>)>,
    devices: Seq<Device>,
) -> Map<Seq<char>, (Seq<char>, Seq<u8>)> {
    if devices.len() == 0 {
        w
    } else {
        whitelist_of(devices)
    }
}

/// The whitelist that holds the listed devices, inserted in turn.
pub open spec fn whitelist_of(devices: Seq<Device>) -> Map<Seq<char>, (Seq<char>, Seq<u8>)>
    decreases devices.len(),
{
    if devices.len() == 0 {
        Map::empty()
    } else {
        let d = devices.last();
        whitelist_of(devices.drop_last()).insert(d.mac@, (d.site@, vstd::utf8::encode_utf8(d.bar_code@)))
    }
}

/// Replaces the whitelist with the listed devices; an empty list changes nothing.
pub fn response_whitelist_set(white_list: &mut WhiteList, lists: Vec<Device>)
    ensures
        final(white_list)@ == whitelist_after_set(old(white_list)@, lists@),
{
    if lists.len() == 0 {
        return;
    }
    white_list.clear();
    let mut i: usize = 0;
    while i < lists.len()
        invariant
            i <= lists@.len(),
            white_list@ == whitelist_of(lists@.take(i as int)),
        decreases lists@.len() - i,
    {
        let device = &lists[i];
        let bar_code = vstd::slice::slice_to_vec(device.bar_code.as_str().as_bytes());
        white_list.insert_device(
            device.mac.clone(),
            ListedDevice { site: device.site.clone(), bar_code },
        );
        assert(lists@.take(i + 1).drop_last() =~= lists@.take(i as int));
        i = i + 1;
    }
    assert(lists@.take(i as int) =~= lists@);
}

/// Answers on `topic` a network-test configuration `[interval, duration, ...]`: it is
/// taken (with counts for the whitelisted nodes) unless it is missing or short, or a
/// test runs.
pub fn net_test_configure(
    net_test: &mut NetTest,
    white_list: &WhiteList,
    topic: &str,
    config: Option<Vec<u16>>,
) -> (r: Vec<Publish>)
    ensures
        ({
            let ok = config matches Some(c) && c@.len() >= 2;
            &&& !ok ==> final(net_test)@ == old(net_test)@ && publishes_view(r@) == seq![
                (topic@, PayloadView::Text("test config data error"@)),
            ]
            &&& ok && old(net_test)@.flag ==> final(net_test)@ == old(net_test)@ && publishes_view(
                r@,
            ) == seq![(topic@, PayloadView::Text("test is already started"@))]
            &&& ok && !old(net_test)@.flag ==> final(net_test)@ == (TestView {
                flag: false,
                res: zero_counts(white_list@),
                send: zero_counts(white_list@),
                interval: config.unwrap()@[0],
                duration: config.unwrap()@[1],
            }) && publishes_view(r@) == seq![(topic@, PayloadView::Text("test config success"@))]
        }),
{
    let mut r: Vec<Publish> = Vec::new();
    match config {
        None => {
            r.push(text_publish(topic, "test config data error"));
        },
        Some(c) => {
            if c.len() < 2 {
                r.push(text_publish(topic, "test config data error"));
            } else if net_test.test.flag == true {
                r.push(text_publish(topic, "test is already started"));
            } else {
                net_test.init(c[0], c[1], white_list);
                r.push(text_publish(topic, "test config success"));
            }
        },
    }
    assert(publishes_view(r@) =~= seq![r@[0]@]);
    r
}

/// Answers a network-test configuration request whose data is the JSON text `data`.
pub fn response_net_test_set(
    net_test: &mut NetTest,
    white_list: &WhiteList,
    topic: &str,
    data: &str,
) -> (r: Vec<Publish>)
    ensures
        ({
            let ok = json_u16_list(data@) matches Some(c) && c.len() >= 2;
            &&& !ok ==> final(net_test)@ == old(net_test)@ && publishes_view(r@) == seq![
                (topic@, PayloadView::Text("test config data error"@)),
            ]
            &&& ok && old(net_test)@.flag ==> final(net_test)@ == old(net_test)@ && publishes_view(
                r@,
            ) == seq![(topic@, PayloadView::Text("test is already started"@))]
            &&& ok && !old(net_test)@.flag ==> final(net_test)@ == (TestView {
                flag: false,
                res: zero_counts(white_list@),
                send: zero_counts(white_list@),
                interval: json_u16_list(data@).unwrap()[0],
                duration: json_u16_list(data@).unwrap()[1],
            }) && publishes_view(r@) == seq![(topic@, PayloadView::Text("test config success"@))]
        }),
{
    let config = decode_u16_list(data);
    net_test_configure(net_test, white_list, topic, config)
}

/// Stops a running network test and answers on `topic`; tells whether the test runner
/// must be told to stop.
pub fn response_net_test_stop(net_test: &mut NetTest, topic: &str) -> (r: (Vec<Publish>, bool))
    ensures
        r.1 == old(net_test)@.flag,
        final(net_test)@ == (TestView { flag: false, ..old(net_test)@ }),
        !old(net_test)@.flag ==> publishes_view(r.0@) == seq![
            (topic@, PayloadView::Text("test is already stopped"@)),
        ],
        old(net_test)@.flag ==> publishes_view(r.0@) == seq![
            (topic@, PayloadView::Text("test success"@)),
        ],
{
    let mut r: Vec<Publish> = Vec::new();
    if net_test.test.flag == false {
        r.push(text_publish(topic, "test is already stopped"));
        assert(publishes_view(r@) =~= seq![r@[0]@]);
        return (r, false);
    }
    net_test.stop_test();
    r.push(text_publish(topic, "test success"));
    assert(publishes_view(r@) =~= seq![r@[0]@]);
    (r, true)
}

/// Starts a stopped network test and answers on `topic`; tells whether the test
/// runner must be handed the test.
pub fn response_net_test_start(net_test: &mut NetTest, topic: &str) -> (r: (Vec<Publish>, bool))
    ensures
        r.1 == !old(net_test)@.flag,
        final(net_test)@ == (TestView { flag: true, ..old(net_test)@ }),
        old(net_test)@.flag ==> publishes_view(r.0@) == seq![
            (topic@, PayloadView::Text("test is already started"@)),
        ],
        !old(net_test)@.flag ==> publishes_view(r.0@) == seq![
            (topic@, PayloadView::Text("test success"@)),
        ],
{
    let mut r: Vec<Publish> = Vec::new();
    if net_test.test.flag == true {
        r.push(text_publish(topic, "test is already started"));
        assert(publishes_view(r@) =~= seq![r@[0]@]);
        return (r, false);
    }
    net_test.start_test();
    r.push(text_publish(topic, "test success"));
    assert(publishes_view(r@) =~= seq![r@[0]@]);
    (r, true)
}


/// A status report from a node with a MAC of at least 16 bytes records, under the
/// node's MAC text, its whole neighbour list as reported (when it lists any) and the
/// node with the parent of its first route (when it has a route to a parent MAC of
/// at least 16 bytes); every other node's entries stay as they were, and a report
/// without neighbours (or routes) leaves that store unchanged.
pub proof fn lemma_status_recorded(
    n: Map<Seq<char>, Seq<NbrView>>,
    t: Map<Seq<char>, (Seq<u8>, Seq<u8>)>,
    st: StatusView,
    other: Seq<char>,
)
    requires
        other != hex_string(st.mac),
    ensures
        st.nbrs.len() > 0 && st.mac.len() >= 16 ==> nbrs_after_status(n, st).contains_key(
            hex_string(st.mac),
        ) && nbrs_after_status(n, st)[hex_string(st.mac)] == st.nbrs,
        st.nbrs.len() == 0 ==> nbrs_after_status(n, st) == n,
        nbrs_after_status(n, st).contains_key(other) == n.contains_key(other),
        n.contains_key(other) ==> nbrs_after_status(n, st)[other] == n[other],
        st.net_routes.len() > 0 && st.mac.len() >= 16 && st.net_routes[0].parent_mac.len() >= 16
            ==> topo_after_status(t, st).contains_key(hex_string(st.mac)) && topo_after_status(
            t,
            st,
        )[hex_string(st.mac)] == (st.mac, st.net_routes[0].parent_mac),
        st.net_routes.len() == 0 ==> topo_after_status(t, st) == t,
        topo_after_status(t, st).contains_key(other) == t.contains_key(other),
        t.contains_key(other) ==> topo_after_status(t, st)[other] == t[other],
{
}

/// A whitelist update that lists devices holds exactly the listed MACs, each with the
/// site and the UTF-8 bytes of the bar code of its last listed entry; an empty update
/// changes nothing.
pub proof fn lemma_whitelist_set(w: Map<Seq<char>, (Seq<char>, Seq<u8>)>, ds: Seq<Device>)
    ensures
        ds.len() == 0 ==> whitelist_after_set(w, ds) == w,
        ds.len() > 0 ==> forall|k: Seq<char>|
            #[trigger] whitelist_after_set(w, ds).contains_key(k) <==> exists|i: int|
                0 <= i < ds.len() && ds[i].mac@ == k,
        ds.len() > 0 ==> forall|i: int|
            0 <= i < ds.len() && (forall|j: int| i < j < ds.len() ==> ds[j].mac@ != ds[i].mac@)
                ==> whitelist_after_set(w, ds)[#[trigger] ds[i].mac@] == (
                ds[i].site@,
                vstd::utf8::encode_utf8(ds[i].bar_code@),
            ),
{
    lemma_whitelist_of(ds);
}

proof fn lemma_whitelist_of(ds: Seq<Device>)
    ensures
        forall|k: Seq<char>|
            #[trigger] whitelist_of(ds).contains_key(k) <==> exists|i: int|
                0 <= i < ds.len() && ds[i].mac@ == k,
        forall|i: int|
            0 <= i < ds.len() && (forall|j: int| i < j < ds.len() ==> ds[j].mac@ != ds[i].mac@)
                ==> whitelist_of(ds)[#[trigger] ds[i].mac@] == (
                ds[i].site@,
                vstd::utf8::encode_utf8(ds[i].bar_code@),
            ),
    decreases ds.len(),
{
    if ds.len() > 0 {
        let p = ds.drop_last();
        lemma_whitelist_of(p);
        let d = ds.last();
        assert forall|k: Seq<char>| #[trigger] whitelist_of(ds).contains_key(k) <==> exists|i: int|
            0 <= i < ds.len() && ds[i].mac@ == k by {
            if exists|i: int| 0 <= i < ds.len() && ds[i].mac@ == k {
                let i = choose|i: int| 0 <= i < ds.len() && ds[i].mac@ == k;
                if i < p.len() {
                    assert(p[i] == ds[i]);
                }
            }
            if whitelist_of(p).contains_key(k) {
                let i = choose|i: int| 0 <= i < p.len() && p[i].mac@ == k;
                assert(ds[i] == p[i]);
            }
        }
        assert forall|i: int|
            0 <= i < ds.len() && (forall|j: int| i < j < ds.len() ==> ds[j].mac@ != ds[i].mac@)
                implies whitelist_of(ds)[#[trigger] ds[i].mac@] == (
                ds[i].site@,
                vstd::utf8::encode_utf8(ds[i].bar_code@),
            ) by {
            if i < p.len() {
                assert(p[i] == ds[i]);
                assert(ds[ds.len() - 1].mac@ != ds[i].mac@);
                assert forall|j: int| i < j < p.len() implies p[j].mac@ != p[i].mac@ by {
                    assert(p[j] == ds[j]);
                }
            }
        }
    }
}

} // verus!
