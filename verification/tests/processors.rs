use mesh_monitor::frame_deal::mesh_h::{
    FrameProcessor, FrameProcessorMaster, MeshEvent, NetNbr, NetRoute, NodeStatus, Processor90,
    Processor92, Processor97,
};

fn mac(start: u8) -> Vec<u8> {
    (start..start + 16).collect()
}

fn report_frame() -> Vec<u8> {
    let mut f = vec![0u8; 53];
    f[3] = 144;
    for (i, b) in mac(1).iter().enumerate() {
        f[5 + i] = *b;
    }
    f.push(1);
    f.extend_from_slice(&mac(0xa0));
    f.extend_from_slice(&[0x34, 0x12, 2, 1, 0, 0, 0]);
    f.push(1);
    f.extend_from_slice(&mac(0x40));
    f.extend_from_slice(&[200, 100]);
    f
}

fn expected_status(node: Vec<u8>) -> NodeStatus {
    NodeStatus {
        mac: node,
        net_routes: vec![NetRoute { parent_mac: mac(0xa0), pan_id: 0x1234, layer: 2, rank: 1 }],
        nbrs: vec![NetNbr { nbr_mac: mac(0x40), rssi: 200, lqi: 100 }],
    }
}

#[test]
fn status_report_is_parsed() {
    let p = Processor90 { frame_type: 144 };
    assert_eq!(p.get_frame_type(), 144);
    let events = p.on_new_frame(&report_frame());
    assert_eq!(events, vec![MeshEvent::NodeStatus(expected_status(mac(1)))]);
}

#[test]
fn status_report_truncated_gives_nothing() {
    let p = Processor90 { frame_type: 144 };
    let mut f = report_frame();
    f.pop();
    assert_eq!(p.on_new_frame(&f), vec![]);
    assert_eq!(p.on_new_frame(&f[..54]), vec![]);
}

#[test]
fn status_report_with_zero_counts_gives_nothing() {
    let p = Processor90 { frame_type: 144 };
    let f = vec![0u8; 60];
    assert_eq!(p.on_new_frame(&f), vec![]);
}

#[test]
fn status_report_needs_byte_after_routes() {
    let p = Processor90 { frame_type: 144 };
    let mut f = vec![0u8; 53];
    f.push(1);
    f.extend_from_slice(&[0u8; 23]);
    assert_eq!(p.on_new_frame(&f), vec![]);
    f.push(0);
    let events = p.on_new_frame(&f);
    assert_eq!(events.len(), 1);
}

#[test]
fn leave_report_is_parsed() {
    let p = Processor92 { frame_type: 146 };
    let mut f = vec![0u8, 0, 0, 146, 2];
    f.extend_from_slice(&mac(1));
    f.extend_from_slice(&mac(17));
    assert_eq!(p.on_new_frame(&f), vec![MeshEvent::NodeLeave(vec![mac(1), mac(17)])]);
    f.pop();
    assert_eq!(p.on_new_frame(&f), vec![]);
    assert_eq!(p.on_new_frame(&[0, 0, 0, 146, 0]), vec![MeshEvent::NodeLeave(vec![])]);
    assert_eq!(p.on_new_frame(&[0, 0, 0, 146]), vec![]);
}

#[test]
fn query_response_is_parsed() {
    let p = Processor97 { frame_type: 151 };
    let mut f = vec![0u8, 0, 0, 151];
    f.extend_from_slice(&mac(1));
    f.extend_from_slice(&[0, 0]);
    assert_eq!(
        p.on_new_frame(&f),
        vec![
            MeshEvent::NodeResponse(mac(1)),
            MeshEvent::NodeStatus(NodeStatus { mac: mac(1), net_routes: vec![], nbrs: vec![] }),
        ]
    );
    let mut g = vec![0u8, 0, 0, 151];
    g.extend_from_slice(&mac(1));
    g.push(1);
    g.extend_from_slice(&mac(0xa0));
    g.extend_from_slice(&[0x34, 0x12, 2, 1, 0, 0, 0]);
    g.push(1);
    g.extend_from_slice(&mac(0x40));
    g.extend_from_slice(&[200, 100]);
    assert_eq!(
        p.on_new_frame(&g),
        vec![MeshEvent::NodeResponse(mac(1)), MeshEvent::NodeStatus(expected_status(mac(1)))]
    );
    g.pop();
    assert_eq!(p.on_new_frame(&g), vec![MeshEvent::NodeResponse(mac(1))]);
    assert_eq!(p.on_new_frame(&g[..21]), vec![]);
}

#[test]
fn master_dispatches_by_type() {
    let mut master = FrameProcessorMaster { frame_processors: Vec::new() };
    master.register_frame_processor(Box::new(Processor90 { frame_type: 144 }));
    master.register_frame_processor(Box::new(Processor92 { frame_type: 146 }));
    master.register_frame_processor(Box::new(Processor97 { frame_type: 151 }));
    let events = master.dispatch_new_frame(&report_frame());
    assert_eq!(events, vec![MeshEvent::NodeStatus(expected_status(mac(1)))]);
    assert_eq!(master.dispatch_new_frame(&[0, 0, 0, 146, 0]), vec![MeshEvent::NodeLeave(vec![])]);
    assert_eq!(master.dispatch_new_frame(&[0, 0, 0, 1, 0]), vec![]);
}

#[test]
fn master_deletes_a_type() {
    let mut master = FrameProcessorMaster { frame_processors: Vec::new() };
    master.register_frame_processor(Box::new(Processor90 { frame_type: 144 }));
    master.register_frame_processor(Box::new(Processor92 { frame_type: 146 }));
    master.del_frame_processor(144);
    assert_eq!(master.frame_processors.len(), 1);
    assert_eq!(master.frame_processors[0].get_frame_type(), 146);
    master.del_frame_processor(7);
    assert_eq!(master.frame_processors.len(), 1);
    let empty = FrameProcessorMaster { frame_processors: Vec::new() };
    assert_eq!(empty.dispatch_new_frame(&[]), vec![]);
}
