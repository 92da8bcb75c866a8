use vstd::prelude::*;
use crate::text::{str_trim, str_equal, trim_spec};
use crate::frame_lib::mesh::{
    trans_to_vec, frame_judge_crc16, hex_bytes, hex_string, crc_matches, frame_69, frame_body,
    length_field, lemma_hex_roundtrip, lemma_built_69_frame_passes_crc, MESH_HEAD, MESH_END,
};

verus! {

/// Scan of a byte stream for inner mesh frames, from position `i` on. At a head byte
/// with two more bytes after it, the little-endian length that follows is checked: a
/// frame that fits and ends with the end byte is taken whole and the scan goes on after
/// it; otherwise the scan moves one byte on. A head byte too close to the end stops the
/// scan. `None` when the scan never completes: a zero length at the very start, or a
/// zero length right after an end byte.
pub open spec fn mesh_scan(s: Seq<u8>, i: int) -> Option<Seq<u8>>
    decreases s.len() - i,
    when 0 <= i
{
    if i >= s.len() {
        Some(seq![])
    } else if s[i] == MESH_HEAD {
        if i + 2 >= s.len() {
            Some(seq![])
        } else {
            let l = s[i + 1] + 256 * s[i + 2];
            if i + l > s.len() {
                mesh_scan(s, i + 1)
            } else if l == 0 {
                if i == 0 || s[i - 1] == MESH_END {
                    None
                } else {
                    mesh_scan(s, i + 1)
                }
            } else if s[i + l - 1] != MESH_END {
                mesh_scan(s, i + 1)
            } else {
                match mesh_scan(s, i + l) {
                    Some(r) => Some(s.subrange(i, i + l) + r),
                    None => None,
                }
            }
        }
    } else {
        mesh_scan(s, i + 1)
    }
}

/// Whether the scan for inner mesh frames completes on `frame`.
pub fn mesh_scan_completes(frame: &[u8]) -> (ok: bool)
    ensures
        ok == (mesh_scan(frame@, 0) is Some),
{
    let ghost s = frame@;
    let mut index: usize = 0;
    while index < frame.len()
        invariant
            s == frame@,
            index <= s.len(),
            (mesh_scan(s, 0) is Some) == (mesh_scan(s, index as int) is Some),
        decreases s.len() - index,
    {
        if frame[index] == MESH_HEAD {
            if frame.len() - index <= 2 {
                return true;
            }
            let length: usize = (frame[index + 1] as usize) + 256 * (frame[index + 2] as usize);
            if length > frame.len() - index {
                index = index + 1;
            } else if length == 0 {
                if index == 0 || frame[index - 1] == MESH_END {
                    return false;
                }
                index = index + 1;
            } else if frame[index + length - 1] != MESH_END {
                index = index + 1;
            } else {
                index = index + length;
            }
        } else {
            index = index + 1;
        }
    }
    true
}

/// The inner mesh frames found in `frame`, one after another.
pub fn get_mesh_from_vec(frame: &[u8]) -> (mesh_frame: Vec<u8>)
    requires
        mesh_scan(frame@, 0) is Some,
    ensures
        mesh_frame@ == mesh_scan(frame@, 0).unwrap(),
{
    let ghost s = frame@;
    let mut mesh_frame: Vec<u8> = Vec::new();
    let mut index: usize = 0;
    while index < frame.len()
        invariant
            s == frame@,
            index <= s.len(),
            mesh_scan(s, 0) is Some,
            mesh_scan(s, index as int) is Some,
            mesh_frame@ + mesh_scan(s, index as int).unwrap() == mesh_scan(s, 0).unwrap(),
        ensures
            mesh_frame@ == mesh_scan(s, 0).unwrap(),
        decreases s.len() - index,
    {
        if frame[index] == MESH_HEAD {
            if frame.len() - index <= 2 {
                assert(mesh_frame@ =~= mesh_frame@ + mesh_scan(s, index as int).unwrap());
                assert(mesh_frame@ =~= mesh_scan(s, 0).unwrap());
                break;
            }
            let length: usize = (frame[index + 1] as usize) + 256 * (frame[index + 2] as usize);
            if length > frame.len() - index {
                index = index + 1;
                continue;
            }
            if length == 0 || frame[index + length - 1] != MESH_END {
                index = index + 1;
                continue;
            }
            let ghost before = mesh_frame@;
            let end: usize = index + length;
            let mut x: usize = index;
            while x < end
                invariant
                    s == frame@,
                    end == index + length,
                    index <= x <= end <= s.len(),
                    mesh_frame@ == before + s.subrange(index as int, x as int),
                decreases end - x,
            {
                mesh_frame.push(frame[x]);
                x = x + 1;
                assert(mesh_frame@ =~= before + s.subrange(index as int, x as int));
            }
            assert(mesh_frame@ + mesh_scan(s, (index + length) as int).unwrap() =~= before
                + mesh_scan(s, index as int).unwrap());
            index = index + length;
            continue;
        }
        index = index + 1;
    }
    mesh_frame
}


/// Whether the scan of the bytes that `body` decodes to completes and, where those
/// bytes are not empty, finds at least three bytes of mesh frames.
pub open spec fn mesh_data_ok(body: Seq<char>) -> bool {
    let f = hex_bytes(body);
    f.len() == 0 || (mesh_scan(f, 0) is Some && mesh_scan(f, 0).unwrap().len() >= 3)
}

/// The mesh frames carried by the hexadecimal message body `body`, when there are any
/// and their CRC checks out.
pub open spec fn mesh_data(body: Seq<char>) -> Option<Seq<u8>> {
    let f = hex_bytes(body);
    if f.len() == 0 {
        None
    } else {
        let m = mesh_scan(f, 0).unwrap();
        if crc_matches(m) {
            Some(m)
        } else {
            None
        }
    }
}

/// Whether `deal_data` can take the message body `data`.
pub fn mesh_data_accepted(data: &String) -> (ok: bool)
    ensures
        ok == mesh_data_ok(data@),
{
    let frame = trans_to_vec(data);
    if frame.len() == 0 {
        return true;
    }
    if !mesh_scan_completes(frame.as_slice()) {
        return false;
    }
    let mesh_frame = get_mesh_from_vec(frame.as_slice());
    mesh_frame.len() >= 3
}

/// The checked mesh frames of a message body: decodes the hexadecimal text, takes the
/// inner mesh frames out of it and keeps them when their CRC checks out.
pub fn deal_data(data: &String) -> (r: Option<Vec<u8>>)
    requires
        mesh_data_ok(data@),
    ensures
        r matches Some(m) ==> mesh_data(data@) == Some(m@),
        r is None ==> mesh_data(data@) is None,
{
    let frame = trans_to_vec(data);
    if frame.len() == 0 {
        return None;
    }
    let mesh_frame = get_mesh_from_vec(frame.as_slice());
    if !frame_judge_crc16(&mesh_frame) {
        return None;
    }
    Some(mesh_frame)
}


/// The scan for inner mesh frames finds a frame built by `create_69_frame` with the
/// mesh head and end bytes whole, and nothing else, when the payload length fits the
/// length field.
pub proof fn lemma_scan_finds_built_frame(frame_type: u8, data: Seq<u8>)
    requires
        data.len() + 7 <= 65535,
    ensures
        mesh_scan(frame_69(MESH_HEAD, frame_type, data, MESH_END), 0) == Some(
            frame_69(MESH_HEAD, frame_type, data, MESH_END),
        ),
{
    let f = frame_69(MESH_HEAD, frame_type, data, MESH_END);
    let body = frame_body(MESH_HEAD, frame_type, length_field(data.len(), 7), data);
    let len16 = length_field(data.len(), 7);
    assert(len16 == data.len() + 7);
    assert(f.len() == data.len() + 7);
    assert(f[0] == MESH_HEAD);
    assert(f[1] == len16 % 256);
    assert(f[2] == len16 / 256);
    assert(f[1] + 256 * f[2] == f.len());
    assert(f[f.len() - 1] == MESH_END);
    assert(mesh_scan(f, f.len() as int) == Some(Seq::<u8>::empty()));
    assert(f.subrange(0, f.len() as int) + Seq::<u8>::empty() =~= f);
}

/// A message body that holds, as hexadecimal text, a frame built by `create_69_frame`
/// with the mesh head and end bytes is accepted by `deal_data`, which gives the frame
/// back.
pub proof fn lemma_built_frame_passes_deal_data(frame_type: u8, data: Seq<u8>)
    requires
        data.len() + 7 <= 65535,
    ensures
        mesh_data_ok(hex_string(frame_69(MESH_HEAD, frame_type, data, MESH_END))),
        mesh_data(hex_string(frame_69(MESH_HEAD, frame_type, data, MESH_END))) == Some(
            frame_69(MESH_HEAD, frame_type, data, MESH_END),
        ),
{
    let f = frame_69(MESH_HEAD, frame_type, data, MESH_END);
    lemma_hex_roundtrip(f);
    lemma_scan_finds_built_frame(frame_type, data);
    lemma_built_69_frame_passes_crc(MESH_HEAD, frame_type, data, MESH_END);
}


/// Topic on which the radio manager forwards mesh data.
pub const DATA_TOPIC: &'static str = "comlm/notify/message/rfmanage/rfmanage";

/// Topic on which mesh commands are sent to the radio manager.
pub const COMMAND_TOPIC: &'static str = "rfmanage/notify/message/comlm/comlm";

/// What an incoming MQTT message asks of the monitor; each reply or command goes to
/// the topic it carries.
#[derive(Debug, PartialEq, Eq)]
pub enum MqttRequest {
    /// Checked mesh frames to log and to hand to the frame processors.
    MeshFrame(Vec<u8>),
    TopoGet(&'static str),
    NbrGet(&'static str),
    WhitelistGet(&'static str),
    OnlineGet(&'static str),
    PanIdSet(&'static str, String),
    CommandNodeLeave(&'static str, String),
    CommandRegister(&'static str),
    VersionSearch(&'static str, String),
    WhitelistSet(String),
    VersionGet(&'static str),
    NetTestSet(&'static str, String),
    NetTestStart(&'static str),
    NetTestStop(&'static str),
    NetTestGet(&'static str),
    /// Nothing to do.
    Ignore,
}

/// What an `MqttRequest` holds.
pub enum RequestView {
    MeshFrame(Seq<u8>),
    TopoGet(Seq<char>),
    NbrGet(Seq<char>),
    WhitelistGet(Seq<char>),
    OnlineGet(Seq<char>),
    PanIdSet(Seq<char>, Seq<char>),
    CommandNodeLeave(Seq<char>, Seq<char>),
    CommandRegister(Seq<char>),
    VersionSearch(Seq<char>, Seq<char>),
    WhitelistSet(Seq<char>),
    VersionGet(Seq<char>),
    NetTestSet(Seq<char>, Seq<char>),
    NetTestStart(Seq<char>),
    NetTestStop(Seq<char>),
    NetTestGet(Seq<char>),
    Ignore,
}

impl View for MqttRequest {
    type V = RequestView;

    open spec fn view(&self) -> RequestView {
        match self {
            MqttRequest::MeshFrame(f) => RequestView::MeshFrame(f@),
            MqttRequest::TopoGet(t) => RequestView::TopoGet(t@),
            MqttRequest::NbrGet(t) => RequestView::NbrGet(t@),
            MqttRequest::WhitelistGet(t) => RequestView::WhitelistGet(t@),
            MqttRequest::OnlineGet(t) => RequestView::OnlineGet(t@),
            MqttRequest::PanIdSet(t, d) => RequestView::PanIdSet(t@, d@),
            MqttRequest::CommandNodeLeave(t, d) => RequestView::CommandNodeLeave(t@, d@),
            MqttRequest::CommandRegister(t) => RequestView::CommandRegister(t@),
            MqttRequest::VersionSearch(t, d) => RequestView::VersionSearch(t@, d@),
            MqttRequest::WhitelistSet(d) => RequestView::WhitelistSet(d@),
            MqttRequest::VersionGet(t) => RequestView::VersionGet(t@),
            MqttRequest::NetTestSet(t, d) => RequestView::NetTestSet(t@, d@),
            MqttRequest::NetTestStart(t) => RequestView::NetTestStart(t@),
            MqttRequest::NetTestStop(t) => RequestView::NetTestStop(t@),
            MqttRequest::NetTestGet(t) => RequestView::NetTestGet(t@),
            MqttRequest::Ignore => RequestView::Ignore,
        }
    }
}

/// The request that a message on `topic` (compared without surrounding whitespace)
/// with body data `body` makes.
pub open spec fn request_for(topic: Seq<char>, body: Seq<char>) -> RequestView {
    let t = trim_spec(topic);
    if t == DATA_TOPIC@ {
        match mesh_data(body) {
            Some(m) => RequestView::MeshFrame(m),
            None => RequestView::Ignore,
        }
    } else if t == "hy-mesh/topo/get"@ {
        RequestView::TopoGet("hy-mesh/topo/response"@)
    } else if t == "hy-mesh/nbr/get"@ {
        RequestView::NbrGet("hy-mesh/nbr/response"@)
    } else if t == "hy-mesh/whitelist/get"@ {
        RequestView::WhitelistGet("hy-mesh/whitelist/response"@)
    } else if t == "hy-mesh/online/get"@ {
        RequestView::OnlineGet("hy-mesh/online/response"@)
    } else if t == "hy-mesh/pan_id/set"@ {
        RequestView::PanIdSet(COMMAND_TOPIC@, body)
    } else if t == "hy-mesh/command_node_leave/set"@ {
        RequestView::CommandNodeLeave(COMMAND_TOPIC@, body)
    } else if t == "hy-mesh/command_register/set"@ {
        RequestView::CommandRegister(COMMAND_TOPIC@)
    } else if t == "hy-mesh/version/search"@ {
        RequestView::VersionSearch(COMMAND_TOPIC@, body)
    } else if t == "hy-mesh/whitelist/set"@ {
        RequestView::WhitelistSet(body)
    } else if t == "hy-mesh/version/get"@ {
        RequestView::VersionGet("hy-mesh/version/response"@)
    } else if t == "hy-mesh/net_test/set"@ {
        RequestView::NetTestSet("hy-mesh/test/set/response"@, body)
    } else if t == "hy-mesh/net_test/start"@ {
        RequestView::NetTestStart("hy-mesh/test/start/response"@)
    } else if t == "hy-mesh/net_test/stop"@ {
        RequestView::NetTestStop("hy-mesh/test/stop/response"@)
    } else if t == "hy-mesh/net_test/get"@ {
        RequestView::NetTestGet("hy-mesh/net_test/response"@)
    } else {
        RequestView::Ignore
    }
}

/// Routes a decoded MQTT message: `topic` is its topic and `data` the data of its body.
pub fn res_data(topic: &str, data: &String) -> (r: MqttRequest)
    requires
        trim_spec(topic@) == DATA_TOPIC@ ==> mesh_data_ok(data@),
    ensures
        r@ == request_for(topic@, data@),
{
    let t = str_trim(topic);
    if str_equal(t, DATA_TOPIC) {
        match deal_data(data) {
            Some(m) => MqttRequest::MeshFrame(m),
            None => MqttRequest::Ignore,
        }
    } else if str_equal(t, "hy-mesh/topo/get") {
        MqttRequest::TopoGet("hy-mesh/topo/response")
    } else if str_equal(t, "hy-mesh/nbr/get") {
        MqttRequest::NbrGet("hy-mesh/nbr/response")
    } else if str_equal(t, "hy-mesh/whitelist/get") {
        MqttRequest::WhitelistGet("hy-mesh/whitelist/response")
    } else if str_equal(t, "hy-mesh/online/get") {
        MqttRequest::OnlineGet("hy-mesh/online/response")
    } else if str_equal(t, "hy-mesh/pan_id/set") {
        MqttRequest::PanIdSet(COMMAND_TOPIC, data.clone())
    } else if str_equal(t, "hy-mesh/command_node_leave/set") {
        MqttRequest::CommandNodeLeave(COMMAND_TOPIC, data.clone())
    } else if str_equal(t, "hy-mesh/command_register/set") {
        MqttRequest::CommandRegister(COMMAND_TOPIC)
    } else if str_equal(t, "hy-mesh/version/search") {
        MqttRequest::VersionSearch(COMMAND_TOPIC, data.clone())
    } else if str_equal(t, "hy-mesh/whitelist/set") {
        MqttRequest::WhitelistSet(data.clone())
    } else if str_equal(t, "hy-mesh/version/get") {
        MqttRequest::VersionGet("hy-mesh/version/response")
    } else if str_equal(t, "hy-mesh/net_test/set") {
        MqttRequest::NetTestSet("hy-mesh/test/set/response", data.clone())
    } else if str_equal(t, "hy-mesh/net_test/start") {
        MqttRequest::NetTestStart("hy-mesh/test/start/response")
    } else if str_equal(t, "hy-mesh/net_test/stop") {
        MqttRequest::NetTestStop("hy-mesh/test/stop/response")
    } else if str_equal(t, "hy-mesh/net_test/get") {
        MqttRequest::NetTestGet("hy-mesh/net_test/response")
    } else {
        MqttRequest::Ignore
    }
}

} // verus!
