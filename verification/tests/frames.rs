use mesh_monitor::common::tool;
use mesh_monitor::frame_lib::mesh::{
    create_68_frame, create_69_frame, frame_judge_crc16, hex_to_inter, inter_to_hex, trans_to_string,
    trans_to_vec, wrap_command,
};
use mesh_monitor::log::log_frame::{
    file_pointer_from_bytes, gen_log_frame, log_record_at, pointer_bytes, LocalTime,
};
use mesh_monitor::mqtts::subdeals::{deal_data, get_mesh_from_vec, mesh_data_accepted, mesh_scan_completes};

#[test]
fn hex_digits_convert_both_ways() {
    assert_eq!(hex_to_inter('0'), 0);
    assert_eq!(hex_to_inter('9'), 9);
    assert_eq!(hex_to_inter('a'), 10);
    assert_eq!(hex_to_inter('f'), 15);
    assert_eq!(hex_to_inter('A'), 16);
    assert_eq!(hex_to_inter('g'), 16);
    assert_eq!(inter_to_hex(0), '0');
    assert_eq!(inter_to_hex(9), '9');
    assert_eq!(inter_to_hex(10), 'a');
    assert_eq!(inter_to_hex(15), 'f');
    assert_eq!(inter_to_hex(16), 'x');
    assert_eq!(inter_to_hex(255), 'x');
    assert_eq!(tool::hex_to_inter('c'), 12);
    assert_eq!(tool::inter_to_hex(12), 'c');
}

#[test]
fn bytes_to_hex_text_and_back() {
    let text = trans_to_string(&[0x0f, 0xa0, 0x00, 0xff]);
    assert_eq!(text, "0fa000ff");
    assert_eq!(trans_to_vec(&text), vec![0x0f, 0xa0, 0x00, 0xff]);
    assert_eq!(tool::trans_to_string(&[0x12]), "12");
    assert_eq!(tool::trans_to_vec(&"12".to_string()), vec![0x12]);
}

#[test]
fn hex_text_edge_cases() {
    assert_eq!(trans_to_vec(&"".to_string()), Vec::<u8>::new());
    assert_eq!(trans_to_vec(&"abc".to_string()), vec![0xab]);
    assert_eq!(trans_to_vec(&"0g".to_string()), Vec::<u8>::new());
    assert_eq!(trans_to_vec(&"AB".to_string()), Vec::<u8>::new());
    assert_eq!(trans_to_string(&[]), "");
}

#[test]
fn frame_69_exact_bytes() {
    let f = create_69_frame(105, 42, &[1, 2, 3], 67);
    assert_eq!(f, vec![105, 10, 0, 42, 1, 2, 3, 250, 21, 67]);
    assert!(frame_judge_crc16(&f));
    let mut bad = f.clone();
    bad[4] = 9;
    assert!(!frame_judge_crc16(&bad));
}

#[test]
fn frame_68_exact_bytes() {
    let f = create_68_frame(104, 32, &[1, 2, 3], 22);
    assert_eq!(f, vec![104, 9, 0, 32, 1, 2, 3, 151, 22]);
}

#[test]
fn long_payload_uses_both_length_bytes() {
    let data = vec![0u8; 300];
    let f = create_69_frame(105, 1, &data, 67);
    assert_eq!(f.len(), 307);
    assert_eq!(f[1], (307 % 256) as u8);
    assert_eq!(f[2], 1);
    assert!(frame_judge_crc16(&f));
}

#[test]
fn register_command_bytes() {
    let f = wrap_command(19, &[255]);
    assert_eq!(f, vec![104, 14, 0, 32, 105, 8, 0, 19, 255, 55, 25, 67, 172, 22]);
}

#[test]
fn mesh_frames_found_in_noise() {
    let inner = create_69_frame(105, 144, &[7, 8], 67);
    let mut stream = vec![1, 2, 105, 200, 3];
    stream.extend_from_slice(&inner);
    stream.push(9);
    assert!(mesh_scan_completes(&stream));
    assert_eq!(get_mesh_from_vec(&stream), inner);
}

#[test]
fn mesh_scan_stops_on_zero_length_at_start() {
    assert!(!mesh_scan_completes(&[105, 0, 0, 1]));
    assert!(!mesh_scan_completes(&[67, 105, 0, 0]));
    assert!(mesh_scan_completes(&[1, 105, 0, 0]));
    assert_eq!(get_mesh_from_vec(&[1, 105, 0, 0]), Vec::<u8>::new());
}

#[test]
fn mesh_scan_head_too_close_to_end() {
    assert!(mesh_scan_completes(&[105, 3]));
    assert_eq!(get_mesh_from_vec(&[105, 3]), Vec::<u8>::new());
}

#[test]
fn deal_data_accepts_built_frame() {
    let inner = create_69_frame(105, 151, &[1, 2, 3, 4], 67);
    let body = trans_to_string(&inner);
    assert!(mesh_data_accepted(&body));
    assert_eq!(deal_data(&body), Some(inner));
}

#[test]
fn deal_data_rejects_bad_crc_and_empty() {
    let mut inner = create_69_frame(105, 151, &[1, 2, 3, 4], 67);
    inner[5] = 0;
    let body = trans_to_string(&inner);
    assert!(mesh_data_accepted(&body));
    assert_eq!(deal_data(&body), None);
    assert!(mesh_data_accepted(&"zz".to_string()));
    assert_eq!(deal_data(&"zz".to_string()), None);
}

#[test]
fn data_without_mesh_frame_is_not_accepted() {
    assert!(!mesh_data_accepted(&"0102".to_string()));
}

#[test]
fn log_pointer_round_trip() {
    assert_eq!(pointer_bytes(0x0102_0304), vec![4, 3, 2, 1]);
    assert_eq!(file_pointer_from_bytes(&[4, 3, 2, 1]), 0x0102_0304);
    assert_eq!(file_pointer_from_bytes(&[0, 0, 0, 3]), 4);
    assert_eq!(file_pointer_from_bytes(&[4, 3, 2, 0]), 0x0002_0304);
    assert_eq!(file_pointer_from_bytes(&[0, 0, 0, 2]), 0x0200_0000);
    assert_eq!(file_pointer_from_bytes(&[1, 0, 0, 2]), 4);
}

#[test]
fn log_record_layout() {
    let t = LocalTime { year: 2020, month: 7, day: 2, hour: 13, second: 35 };
    assert_eq!(log_record_at(&t, &[9, 8]), vec![228, 7, 7, 2, 13, 35, 9, 8]);
    let old = LocalTime { year: -1, month: 1, day: 1, hour: 0, second: 0 };
    assert_eq!(log_record_at(&old, &[]), vec![255, 0, 1, 1, 0, 0]);
}

#[test]
fn log_record_of_now() {
    let r = gen_log_frame(&[0x69, 0x07, 0x00]);
    assert_eq!(r.len(), 9);
    assert!((1..=12).contains(&r[2]));
    assert!((1..=31).contains(&r[3]));
    assert!(r[4] <= 23);
    assert!(r[5] <= 59);
    assert_eq!(&r[6..], &[0x69, 0x07, 0x00]);
}
