use vstd::prelude::*;
use super::mesh::{crc_shift, crc_shifts, crc16_spec, lemma_crc16_every_byte};

verus! {

/// Eight shift steps, written out.
spec fn shift8(x: u16) -> u16 {
    crc_shift(crc_shift(crc_shift(crc_shift(crc_shift(crc_shift(crc_shift(crc_shift(x))))))))
}

proof fn lemma_shift8(x: u16)
    ensures
        crc_shifts(x, 8) == shift8(x),
{
    reveal_with_fuel(crc_shifts, 9);
}

/// The CRC has the published check value of CRC-16/MODBUS (init 0xFFFF, reflected
/// polynomial 0xA001): 0x4B37 for the ASCII digits "123456789".
pub proof fn lemma_crc16_check_value()
    ensures
        crc16_spec(seq![0x31u8, 0x32, 0x33, 0x34, 0x35, 0x36, 0x37, 0x38, 0x39]) == 0x4b37u16,
{
    assert(shift8(0xffffu16 ^ 0x31u16) == 0x947eu16) by (bit_vector);
    lemma_shift8((0xffffu16 ^ 0x31u16) as u16);
    lemma_crc16_every_byte(Seq::<u8>::empty(), 0x31u8);
    assert(shift8(0x947eu16 ^ 0x32u16) == 0xf595u16) by (bit_vector);
    lemma_shift8((0x947eu16 ^ 0x32u16) as u16);
    lemma_crc16_every_byte(Seq::<u8>::empty().push(0x31u8), 0x32u8);
    assert(shift8(0xf595u16 ^ 0x33u16) == 0x7a75u16) by (bit_vector);
    lemma_shift8((0xf595u16 ^ 0x33u16) as u16);
    lemma_crc16_every_byte(Seq::<u8>::empty().push(0x31u8).push(0x32u8), 0x33u8);
    assert(shift8(0x7a75u16 ^ 0x34u16) == 0x30bau16) by (bit_vector);
    lemma_shift8((0x7a75u16 ^ 0x34u16) as u16);
    lemma_crc16_every_byte(Seq::<u8>::empty().push(0x31u8).push(0x32u8).push(0x33u8), 0x34u8);
    assert(shift8(0x30bau16 ^ 0x35u16) == 0xa471u16) by (bit_vector);
    lemma_shift8((0x30bau16 ^ 0x35u16) as u16);
    lemma_crc16_every_byte(Seq::<u8>::empty().push(0x31u8).push(0x32u8).push(0x33u8).push(0x34u8), 0x35u8);
    assert(shift8(0xa471u16 ^ 0x36u16) == 0x32e4u16) by (bit_vector);
    lemma_shift8((0xa471u16 ^ 0x36u16) as u16);
    lemma_crc16_every_byte(Seq::<u8>::empty().push(0x31u8).push(0x32u8).push(0x33u8).push(0x34u8).push(0x35u8), 0x36u8);
    assert(shift8(0x32e4u16 ^ 0x37u16) == 0x9d73u16) by (bit_vector);
    lemma_shift8((0x32e4u16 ^ 0x37u16) as u16);
    lemma_crc16_every_byte(Seq::<u8>::empty().push(0x31u8).push(0x32u8).push(0x33u8).push(0x34u8).push(0x35u8).push(0x36u8), 0x37u8);
    assert(shift8(0x9d73u16 ^ 0x38u16) == 0x37ddu16) by (bit_vector);
    lemma_shift8((0x9d73u16 ^ 0x38u16) as u16);
    lemma_crc16_every_byte(Seq::<u8>::empty().push(0x31u8).push(0x32u8).push(0x33u8).push(0x34u8).push(0x35u8).push(0x36u8).push(0x37u8), 0x38u8);
    assert(shift8(0x37ddu16 ^ 0x39u16) == 0x4b37u16) by (bit_vector);
    lemma_shift8((0x37ddu16 ^ 0x39u16) as u16);
    lemma_crc16_every_byte(Seq::<u8>::empty().push(0x31u8).push(0x32u8).push(0x33u8).push(0x34u8).push(0x35u8).push(0x36u8).push(0x37u8).push(0x38u8), 0x39u8);
    assert(Seq::<u8>::empty().push(0x31u8).push(0x32u8).push(0x33u8).push(0x34u8).push(0x35u8).push(0x36u8).push(0x37u8).push(0x38u8).push(0x39u8) =~= seq![0x31u8, 0x32, 0x33, 0x34, 0x35, 0x36, 0x37, 0x38, 0x39]);
}

} // verus!
