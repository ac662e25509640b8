//! CRC-16 of DAB packet mode (ETSI EN 300 401 §5.3.2.3): generator
//! polynomial x^16 + x^12 + x^5 + 1, register preset to all ones, the
//! register complemented on output, transmitted most significant byte first.
use vstd::prelude::*;

verus! {

/// One shift of the CRC register (the next message bit already xored into bit 15).
pub open spec fn crc_shift(c: u16) -> u16 {
    if c & 0x8000u16 != 0 {
        ((c << 1u16) ^ 0x1021u16) as u16
    } else {
        (c << 1u16) as u16
    }
}

/// `n` shifts of the CRC register.
pub open spec fn crc_shifts(c: u16, n: nat) -> u16
    decreases n,
{
    if n == 0 {
        c
    } else {
        crc_shift(crc_shifts(c, (n - 1) as nat))
    }
}

/// The CRC register after one more message byte, most significant bit first.
pub open spec fn crc_byte(c: u16, b: u8) -> u16 {
    crc_shifts(c ^ ((b as u16) << 8u16), 8)
}

/// The CRC register after a whole message, starting from all ones.
pub open spec fn crc_register(data: Seq<u8>) -> u16
    decreases data.len(),
{
    if data.len() == 0 {
        0xFFFFu16
    } else {
        crc_byte(crc_register(data.drop_last()), data.last())
    }
}

/// The transmitted CRC-16 of a message.
pub open spec fn spec_crc16(data: Seq<u8>) -> u16 {
    crc_register(data) ^ 0xFFFFu16
}

/// The last two bytes of `data` carry the CRC-16 of the bytes before them.
pub open spec fn spec_crc16_ok(data: Seq<u8>) -> bool {
    &&& data.len() >= 2
    &&& spec_crc16(data.take(data.len() - 2)) == (data[data.len() - 2] as u16) * 256u16
        + data[data.len() - 1] as u16
}

/// CRC-16 (CCITT polynomial, preset all ones, complemented) of `data`.
pub fn crc16_ccitt(data: &[u8]) -> (crc: u16)
    ensures
        crc == spec_crc16(data@),
{
    let mut crc: u16 = 0xFFFF;
    let mut i: usize = 0;
    while i < data.len()
        invariant
            0 <= i <= data.len(),
            crc == crc_register(data@.take(i as int)),
        decreases data.len() - i,
    {
        let start: u16 = crc ^ ((data[i] as u16) << 8u16);
        crc = start;
        let mut k: usize = 0;
        while k < 8
            invariant
                0 <= k <= 8,
                crc == crc_shifts(start, k as nat),
            decreases 8 - k,
        {
            if crc & 0x8000 != 0 {
                crc = (crc << 1u16) ^ 0x1021;
            } else {
                crc = crc << 1u16;
            }
            k += 1;
        }
        proof {
            assert(data@.take(i + 1).drop_last() =~= data@.take(i as int));
        }
        i += 1;
    }
    proof {
        assert(data@.take(data@.len() as int) =~= data@);
    }
    crc ^ 0xFFFF
}

/// True when the last two bytes of `data` are the CRC-16 of the rest.
pub fn crc16_check(data: &[u8]) -> (ok: bool)
    ensures
        ok == spec_crc16_ok(data@),
{
    if data.len() < 2 {
        return false;
    }
    let n = data.len() - 2;
    let crc = crc16_ccitt(vstd::slice::slice_subrange(data, 0, n));
    proof {
        assert(data@.subrange(0, n as int) =~= data@.take(n as int));
    }
    crc == (data[n] as u16) * 256 + data[n + 1] as u16
}

} // verus!
