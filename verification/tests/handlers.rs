use mesh_monitor::frame_deal::mesh_h::{NetNbr, NetRoute, NodeStatus};
use mesh_monitor::frame_lib::mesh::{create_69_frame, trans_to_string};
use mesh_monitor::mqtts::mqtt_h::{Payload, Publish, Token};
use mesh_monitor::mqtts::subdeals::{res_data, MqttRequest};
use mesh_monitor::react_mqtt::init as older;
use mesh_monitor::react_mqtt::node_leave::NodeLeave;
use mesh_monitor::react_mqtt::pan_id::PanID;
use mesh_monitor::react_mqtt::topo::Topo;
use mesh_monitor::react_mqtt::version::NodeVersion as RoundVersion;
use mesh_monitor::react_mqtt::white_list::WhiteList;
use mesh_monitor::sl_mesh::mqtt::init::{
    command_node_leave, command_register, deal_node_leave, deal_node_status, net_test_configure,
    recv_node_reponse, recv_node_version, reponse_online_get, response_net_test_set,
    response_net_test_start, response_net_test_stop, response_start_get_version,
    response_whitelist_set, set_pan_id, version_query_publishes, Device,
};
use mesh_monitor::sl_mesh::mqtt::nbr::NodeNbr;
use mesh_monitor::sl_mesh::mqtt::net_test::NetTest;
use mesh_monitor::sl_mesh::mqtt::online::Online;
use mesh_monitor::sl_mesh::mqtt::version::NodeVersion;
use mesh_monitor::str_map::StrMap;

fn mac(start: u8) -> Vec<u8> {
    (start..start + 16).collect()
}

fn mesh_data(p: &Publish) -> (String, String, u32) {
    match &p.payload {
        Payload::Mesh(m) => (m.token.clone(), m.body.data.clone(), m.body.len),
        Payload::Text(_) => panic!("expected a mesh message"),
    }
}

fn text(p: &Publish) -> String {
    match &p.payload {
        Payload::Text(t) => t.clone(),
        Payload::Mesh(_) => panic!("expected text"),
    }
}

const LEAVE: &str = "68220020691c0011010102030405060708090a0b0c0d0e0f1078563412ce5e434c16";
const PAN: &str = "68200020691a001b010102030405060708090a0b0c0d0e0f1012340ccc433016";
const VERSION: &str = "681d00206917002a0102030405060708090a0b0c0d0e0f10a93f430216";

#[test]
fn topics_are_routed() {
    let body = "payload".to_string();
    assert_eq!(res_data("  hy-mesh/topo/get \n", &body), MqttRequest::TopoGet("hy-mesh/topo/response"));
    assert_eq!(res_data("hy-mesh/nbr/get", &body), MqttRequest::NbrGet("hy-mesh/nbr/response"));
    assert_eq!(
        res_data("hy-mesh/whitelist/get", &body),
        MqttRequest::WhitelistGet("hy-mesh/whitelist/response")
    );
    assert_eq!(res_data("hy-mesh/online/get", &body), MqttRequest::OnlineGet("hy-mesh/online/response"));
    assert_eq!(
        res_data("hy-mesh/pan_id/set", &body),
        MqttRequest::PanIdSet("rfmanage/notify/message/comlm/comlm", body.clone())
    );
    assert_eq!(
        res_data("hy-mesh/command_node_leave/set", &body),
        MqttRequest::CommandNodeLeave("rfmanage/notify/message/comlm/comlm", body.clone())
    );
    assert_eq!(
        res_data("hy-mesh/command_register/set", &body),
        MqttRequest::CommandRegister("rfmanage/notify/message/comlm/comlm")
    );
    assert_eq!(
        res_data("hy-mesh/version/search", &body),
        MqttRequest::VersionSearch("rfmanage/notify/message/comlm/comlm", body.clone())
    );
    assert_eq!(res_data("hy-mesh/whitelist/set", &body), MqttRequest::WhitelistSet(body.clone()));
    assert_eq!(res_data("hy-mesh/version/get", &body), MqttRequest::VersionGet("hy-mesh/version/response"));
    assert_eq!(
        res_data("hy-mesh/net_test/set", &body),
        MqttRequest::NetTestSet("hy-mesh/test/set/response", body.clone())
    );
    assert_eq!(res_data("hy-mesh/net_test/start", &body), MqttRequest::NetTestStart("hy-mesh/test/start/response"));
    assert_eq!(res_data("hy-mesh/net_test/stop", &body), MqttRequest::NetTestStop("hy-mesh/test/stop/response"));
    assert_eq!(res_data("hy-mesh/net_test/get", &body), MqttRequest::NetTestGet("hy-mesh/net_test/response"));
    assert_eq!(res_data("unknown/topic", &body), MqttRequest::Ignore);
    assert_eq!(res_data("hy-mesh/topo/get/x", &body), MqttRequest::Ignore);
}

#[test]
fn mesh_data_topic_yields_checked_frame() {
    let inner = create_69_frame(105, 144, &[1, 2], 67);
    let body = trans_to_string(&inner);
    assert_eq!(res_data("comlm/notify/message/rfmanage/rfmanage", &body), MqttRequest::MeshFrame(inner));
    assert_eq!(res_data("comlm/notify/message/rfmanage/rfmanage", &"".to_string()), MqttRequest::Ignore);
}

#[test]
fn node_status_updates_stores() {
    let mut online = Online::new();
    let mut topo = Topo { nodes: StrMap::new() };
    let mut nbr = NodeNbr { nbrs: StrMap::new() };
    let st = NodeStatus {
        mac: mac(1),
        net_routes: vec![NetRoute { parent_mac: mac(2), pan_id: 1, layer: 1, rank: 1 }],
        nbrs: vec![NetNbr { nbr_mac: mac(3), rssi: 1, lqi: 1 }],
    };
    deal_node_status(&mut online, &mut topo, &mut nbr, st);
    let key = trans_to_string(&mac(1));
    assert_eq!(online.online, vec![key.clone()]);
    assert_eq!(topo.nodes.get(&key).unwrap().parent_mac, mac(2));
    assert_eq!(nbr.nbrs.len(), 1);
    older::deal_node_status(
        &mut online,
        &mut topo,
        &mut nbr,
        NodeStatus { mac: mac(5), net_routes: vec![], nbrs: vec![] },
    );
    assert_eq!(online.online.len(), 2);
    assert_eq!(topo.nodes.len(), 1);
    deal_node_leave(&mut online, vec![mac(1), mac(9)]);
    assert_eq!(online.online, vec![trans_to_string(&mac(5))]);
    older::deal_node_leave(&mut online, vec![mac(5)]);
    assert_eq!(online.online.len(), 0);
}

#[test]
fn online_reply_is_json_text() {
    let mut online = Online::new();
    online.add("ab".to_string());
    let r = reponse_online_get(&online, "hy-mesh/online/response");
    assert_eq!(r.len(), 1);
    assert_eq!(r[0].topic, "hy-mesh/online/response");
    assert_eq!(text(&r[0]), "[\"ab\"]");
}

#[test]
fn node_leave_command_frame() {
    let mut token = Token::new(0);
    let nl = NodeLeave { mac: trans_to_string(&mac(1)), duration: 0x1234_5678 };
    let m = nl.get_frame_json(&mut token).unwrap();
    assert_eq!(m.body.data, LEAVE);
    let bad = NodeLeave { mac: "0102".to_string(), duration: 1 };
    assert!(bad.get_frame_json(&mut token).is_none());
    assert_eq!(token.get(), 1);
    let r = command_node_leave(&mut token, "t", &nl);
    assert_eq!(r.len(), 2);
    assert_eq!(mesh_data(&r[0]), ("2".to_string(), LEAVE.to_string(), LEAVE.len() as u32));
    assert_eq!(r[1].topic, "hy-mesh/command_node_leave/response");
    assert_eq!(text(&r[1]), "{}");
    assert_eq!(command_node_leave(&mut token, "t", &bad).len(), 0);
    assert_eq!(older::command_node_leave(&mut token, "t", &nl).len(), 1);
}

#[test]
fn pan_id_command_frame() {
    let mut token = Token::new(0);
    let p = PanID { mac: trans_to_string(&mac(1)), pan_id: "1234".to_string() };
    let m = p.get_frame_json(&mut token).unwrap();
    assert_eq!(m.body.data, PAN);
    let bad = PanID { mac: trans_to_string(&mac(1)), pan_id: "12".to_string() };
    assert!(bad.get_frame_json(&mut token).is_none());
    let r = set_pan_id(&mut token, "t", &p);
    assert_eq!(r.len(), 2);
    assert_eq!(r[1].topic, "hy-mesh/pan_id/response");
    assert_eq!(set_pan_id(&mut token, "t", &bad).len(), 0);
    let r = older::set_pan_id(&mut token, "t", &p);
    assert_eq!(r.len(), 1);
    assert_eq!(mesh_data(&r[0]).1, PAN);
}

#[test]
fn register_command() {
    let mut token = Token::new(0);
    let r = command_register(&mut token, "t");
    assert_eq!(r.len(), 1);
    assert_eq!(mesh_data(&r[0]).1, "680e002069080013ff371943ac16");
    assert_eq!(older::command_register(&mut token, "t").len(), 1);
    assert_eq!(token.get(), 2);
}

#[test]
fn version_queries_stop_at_bad_mac() {
    let mut token = Token::new(0);
    let r = version_query_publishes(&mut token, "t", &vec![mac(1), mac(1), vec![1], mac(1)]);
    assert_eq!(r.len(), 2);
    assert_eq!(mesh_data(&r[0]), ("1".to_string(), VERSION.to_string(), VERSION.len() as u32));
    assert_eq!(mesh_data(&r[1]).0, "2");
    let json = format!("[{:?}]", mac(1)).replace(' ', "");
    let r = response_start_get_version(&mut token, "t", &json);
    assert_eq!(r.len(), 1);
    assert_eq!(mesh_data(&r[0]).1, VERSION);
    assert_eq!(response_start_get_version(&mut token, "t", "not json").len(), 0);
}

#[test]
fn version_round_of_older_handlers() {
    let mut token = Token::new(0);
    let mut v = RoundVersion::new();
    let json = format!("[{:?},{:?}]", mac(1), mac(1)).replace(' ', "");
    let r = older::start_get_version(&mut v, &mut token, "t", &json);
    assert_eq!(r.len(), 1);
    assert_eq!(v.macs.len(), 2);
    let r = older::recv_node_version(&mut v, &mut token, &[1, 0]);
    assert_eq!(r.len(), 1);
    assert_eq!(r[0].topic, "rfmanage/notify/message/comlm/comlm");
    assert_eq!(mesh_data(&r[0]).1, VERSION);
    let r = older::recv_node_version(&mut v, &mut token, &[2, 0]);
    assert_eq!(r.len(), 0);
    assert_eq!(v.version.len(), 2);
    assert_eq!(older::start_get_version(&mut v, &mut token, "t", "[]").len(), 0);
    assert_eq!(v.macs.len(), 0);
    assert_eq!(older::start_get_version(&mut v, &mut token, "t", "{").len(), 0);
}

#[test]
fn version_reports_recorded() {
    let mut v = NodeVersion::new();
    recv_node_version(&mut v, "m".to_string(), &[4]);
    assert_eq!(v.version.get("m"), Some(&vec![4]));
}

#[test]
fn whitelist_update() {
    let mut w = WhiteList { devices: StrMap::new() };
    response_whitelist_set(
        &mut w,
        vec![
            Device { mac: "m1".to_string(), site: "s1".to_string(), bar_code: "b1".to_string() },
            Device { mac: "m2".to_string(), site: "s2".to_string(), bar_code: "b2".to_string() },
        ],
    );
    assert_eq!(w.devices.len(), 2);
    assert_eq!(w.devices.get("m1").unwrap().bar_code, b"b1".to_vec());
    response_whitelist_set(&mut w, vec![]);
    assert_eq!(w.devices.len(), 2);
    older::whitelist_set(
        &mut w,
        vec![Device { mac: "m3".to_string(), site: "s3".to_string(), bar_code: "b3".to_string() }],
    );
    assert_eq!(w.devices.len(), 1);
    assert!(w.devices.contains_key("m3"));
}

#[test]
fn net_test_requests() {
    let mut w = WhiteList { devices: StrMap::new() };
    response_whitelist_set(
        &mut w,
        vec![Device { mac: "m1".to_string(), site: String::new(), bar_code: String::new() }],
    );
    let mut t = NetTest::new();
    let r = response_net_test_set(&mut t, &w, "t", "[5]");
    assert_eq!(text(&r[0]), "test config data error");
    let r = response_net_test_set(&mut t, &w, "t", "oops");
    assert_eq!(text(&r[0]), "test config data error");
    let r = response_net_test_set(&mut t, &w, "t", "[5,60]");
    assert_eq!(text(&r[0]), "test config success");
    assert_eq!(t.test.interval, 5);
    let (r, notify) = response_net_test_stop(&mut t, "t");
    assert_eq!((text(&r[0]), notify), ("test is already stopped".to_string(), false));
    let (r, notify) = response_net_test_start(&mut t, "t");
    assert_eq!((text(&r[0]), notify), ("test success".to_string(), true));
    let (r, notify) = response_net_test_start(&mut t, "t");
    assert_eq!((text(&r[0]), notify), ("test is already started".to_string(), false));
    let r = net_test_configure(&mut t, &w, "t", Some(vec![4, 8]));
    assert_eq!(text(&r[0]), "test is already started");
    recv_node_reponse(&mut t, b"\x00");
    older::recv_node_reponse(&mut t, b"\x00");
    let (r, notify) = response_net_test_stop(&mut t, "t");
    assert_eq!((text(&r[0]), notify), ("test success".to_string(), true));
}
