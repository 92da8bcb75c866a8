use vstd::prelude::*;
use crate::frame_lib::mesh::{self as mesh, hex_value, hex_digit, hex_bytes, hex_string};

verus! {

pub fn hex_to_inter(hex: char) -> (v: u8)
    ensures
        v == hex_value(hex),
{
    mesh::hex_to_inter(hex)
}

pub fn inter_to_hex(hex: u8) -> (c: char)
    ensures
        c == hex_digit(hex),
{
    mesh::inter_to_hex(hex)
}

pub fn trans_to_vec(data: &String) -> (frame_vec: Vec<u8>)
    ensures
        frame_vec@ == hex_bytes(data@),
{
    mesh::trans_to_vec(data)
}

pub fn trans_to_string(data: &[u8]) -> (d_string: String)
    ensures
        d_string@ == hex_string(data@),
{
    mesh::trans_to_string(data)
}

} // verus!
