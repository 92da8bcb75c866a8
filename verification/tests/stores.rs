use mesh_monitor::frame_deal::mesh_h::{NetNbr, NetRoute, NodeStatus};
use mesh_monitor::mqtts::mqtt_h::{MeshMessage, Token};
use mesh_monitor::react_mqtt::topo::Topo;
use mesh_monitor::react_mqtt::version::NodeVersion as RoundVersion;
use mesh_monitor::react_mqtt::white_list::{Device, WhiteList};
use mesh_monitor::sl_mesh::mqtt::nbr::NodeNbr;
use mesh_monitor::sl_mesh::mqtt::net_test::{runner_accepts, runner_nodes, runner_schedule, NetTest};
use mesh_monitor::sl_mesh::mqtt::online::{get_online, node_in, node_out, Online};
use mesh_monitor::sl_mesh::mqtt::version::NodeVersion;
use mesh_monitor::str_map::StrMap;

fn mac(start: u8) -> Vec<u8> {
    (start..start + 16).collect()
}

fn keys<V>(m: &StrMap<V>) -> Vec<String> {
    m.entries().iter().map(|(k, _)| k.clone()).collect()
}

#[test]
fn online_list_keeps_each_node_once() {
    let mut online = Online::new();
    node_in(&mut online, &"a".to_string());
    node_in(&mut online, &"b".to_string());
    node_in(&mut online, &"a".to_string());
    assert_eq!(online.online, vec!["a".to_string(), "b".to_string()]);
    assert_eq!(get_online(&online), "[\"a\",\"b\"]");
    node_out(&mut online, &"a".to_string());
    assert_eq!(online.online, vec!["b".to_string()]);
    node_out(&mut online, &"zz".to_string());
    assert_eq!(online.get(), "[\"b\"]");
    let empty = Online::new();
    assert_eq!(empty.get(), "[]");
}

#[test]
fn online_add_and_remove_directly() {
    let mut online = Online::new();
    online.add("x".to_string());
    online.add("y".to_string());
    online.remove("x".to_string());
    assert_eq!(online.online, vec!["y".to_string()]);
}

#[test]
fn str_map_insert_replace_remove() {
    let mut m: StrMap<u16> = StrMap::new();
    m.insert("k1".to_string(), 1);
    m.insert("k2".to_string(), 2);
    m.insert("k1".to_string(), 3);
    assert_eq!(m.len(), 2);
    assert_eq!(m.get("k1"), Some(&3));
    assert_eq!(keys(&m), vec!["k1".to_string(), "k2".to_string()]);
    m.remove("k1");
    assert_eq!(m.get("k1"), None);
    assert!(m.contains_key("k2"));
    m.clear();
    assert_eq!(m.len(), 0);
}

#[test]
fn topo_records_parents() {
    let mut topo = Topo { nodes: StrMap::new() };
    topo.insert_route(vec![mac(1), mac(0xa0)]);
    let key = mesh_monitor::frame_lib::mesh::trans_to_string(&mac(1));
    let node = topo.nodes.get(&key).unwrap();
    assert_eq!(node.parent_mac, mac(0xa0));
    topo.insert_route(vec![vec![1, 2], mac(0xa0)]);
    topo.insert_route(vec![mac(2)]);
    assert_eq!(topo.nodes.len(), 1);
    topo.rm_route(vec![mac(1), mac(0xa0)]);
    assert_eq!(topo.nodes.len(), 0);
}

#[test]
fn neighbours_are_recorded() {
    let mut nbr = NodeNbr { nbrs: StrMap::new() };
    let list = vec![NetNbr { nbr_mac: mac(3), rssi: 1, lqi: 2 }];
    nbr.insert_nbr(&mac(1), &list);
    nbr.insert_nbr(&[1, 2, 3], &list);
    assert_eq!(nbr.nbrs.len(), 1);
    let key = mesh_monitor::frame_lib::mesh::trans_to_string(&mac(1));
    assert_eq!(nbr.nbrs.get(&key), Some(&list));
    nbr.rm_route(&mac(1));
    assert_eq!(nbr.nbrs.len(), 0);
}

#[test]
fn whitelist_insert_remove_clear() {
    let mut w = WhiteList { devices: StrMap::new() };
    w.insert_device("m1".to_string(), Device { site: "s".to_string(), bar_code: vec![1] });
    w.insert_device("m2".to_string(), Device { site: "t".to_string(), bar_code: vec![2] });
    assert_eq!(w.devices.len(), 2);
    w.rm_route("m1".to_string());
    assert_eq!(w.devices.len(), 1);
    w.clear();
    assert_eq!(w.devices.len(), 0);
}

#[test]
fn version_reports_keyed_by_mac() {
    let mut v = NodeVersion::new();
    v.set_version("m1".to_string(), &[1, 2]);
    v.set_version("m1".to_string(), &[3]);
    assert_eq!(v.version.get("m1"), Some(&vec![3]));
}

#[test]
fn version_round_advances() {
    let mut v = RoundVersion::new();
    v.set(vec![mac(1), mac(2)]);
    assert_eq!(v.get_next_mac(), mac(1));
    v.set_version(&[9]);
    assert_eq!(v.index, 1);
    assert_eq!(v.get_next_mac(), mac(2));
    v.set_version(&[8]);
    assert_eq!(v.get_next_mac(), Vec::<u8>::new());
    v.set_version(&[7]);
    assert_eq!(v.index, 2);
    assert_eq!(v.version.get(&0), Some(&vec![9]));
    assert_eq!(v.version.get(&1), Some(&vec![8]));
    assert_eq!(v.version.len(), 2);
}

#[test]
fn net_test_counts_only_while_running() {
    let mut w = WhiteList { devices: StrMap::new() };
    w.insert_device("m1".to_string(), Device { site: "s".to_string(), bar_code: vec![] });
    let mut t = NetTest::new();
    t.init(5, 60, &w);
    assert_eq!(t.test.res.get("m1"), Some(&0));
    t.recode_rx("m1".to_string());
    assert_eq!(t.test.res.get("m1"), Some(&0));
    assert!(t.start_test());
    assert!(!t.start_test());
    t.recode_rx("m1".to_string());
    t.recode_tx("m1".to_string());
    t.recode_tx("m1".to_string());
    t.recode_rx("other".to_string());
    assert_eq!(t.test.res.get("m1"), Some(&1));
    assert_eq!(t.test.send.get("m1"), Some(&2));
    assert_eq!(t.test.res.get("other"), None);
    assert!(t.stop_test());
    assert!(!t.stop_test());
    assert_eq!(t.test.interval, 5);
    assert_eq!(t.test.duration, 60);
}

#[test]
fn net_test_runner_plan() {
    let mut w = WhiteList { devices: StrMap::new() };
    w.insert_device("a".to_string(), Device { site: String::new(), bar_code: vec![] });
    w.insert_device("b".to_string(), Device { site: String::new(), bar_code: vec![] });
    let mut t = NetTest::new();
    t.init(4, 10, &w);
    assert!(!runner_accepts(&t.test));
    t.start_test();
    assert!(runner_accepts(&t.test));
    let nodes = runner_nodes(&t.test);
    assert_eq!(nodes, vec!["a".to_string(), "b".to_string()]);
    assert_eq!(runner_schedule(&nodes, 4, 10), vec!["a".to_string(), "b".to_string(), "a".to_string()]);
    assert_eq!(runner_schedule(&nodes, 5, 10), vec!["a".to_string(), "b".to_string()]);
    assert_eq!(runner_schedule(&vec![], 5, 10), Vec::<String>::new());
    t.init(3, 10, &w);
    t.start_test();
    assert!(!runner_accepts(&t.test));
    t.stop_test();
    t.init(4, 7, &w);
    t.start_test();
    assert!(!runner_accepts(&t.test));
}

#[test]
fn token_counts_and_restarts() {
    let mut token = Token::new(0);
    let m = MeshMessage::new(&mut token, &[0xab, 0x01]);
    assert_eq!(m.token, "1");
    assert_eq!(m.body.kind, 255);
    assert_eq!(m.body.len, 4);
    assert_eq!(m.body.data, "ab01");
    assert_eq!(token.get(), 1);
    token.set(4096);
    let m = MeshMessage::new(&mut token, &[]);
    assert_eq!(m.token, "4097");
    let m = MeshMessage::new(&mut token, &[]);
    assert_eq!(m.token, "1");
    token.add(10);
    assert_eq!(token.get(), 11);
}

#[test]
fn node_status_types_compare() {
    let s = NodeStatus {
        mac: mac(1),
        net_routes: vec![NetRoute { parent_mac: mac(2), pan_id: 1, layer: 1, rank: 1 }],
        nbrs: vec![],
    };
    assert_eq!(s.net_routes.len(), 1);
}
