//! The text of a UUID.

use vstd::prelude::*;

verus! {

/// The hexadecimal digit of a number below sixteen, in lower case.
pub open spec fn hex_digit(d: u8) -> u8 {
    if d < 10 {
        (0x30 + d) as u8
    } else {
        (0x61 + d - 10) as u8
    }
}

/// The byte at `index` of a 128-bit number, counted from its high end.
pub open spec fn uuid_byte(value: u128, index: int) -> u8 {
    ((value >> ((8 * (15 - index)) as u128)) & 0xff) as u8
}

/// The two digits of the bytes from `from` up to `to`, in order.
pub open spec fn hex_group(value: u128, from: int, to: int) -> Seq<u8>
    decreases to - from,
{
    if from >= to {
        Seq::empty()
    } else {
        hex_group(value, from, to - 1) + seq![
            hex_digit(uuid_byte(value, to - 1) / 16),
            hex_digit(uuid_byte(value, to - 1) % 16),
        ]
    }
}

/// The text of a UUID: the sixteen bytes of the number from its high end,
/// in lower-case hexadecimal, in groups of 4, 2, 2, 2 and 6 bytes with
/// hyphens between them.
pub open spec fn uuid_text(value: u128) -> Seq<u8> {
    hex_group(value, 0, 4) + seq![0x2du8] + hex_group(value, 4, 6) + seq![0x2du8] + hex_group(
        value,
        6,
        8,
    ) + seq![0x2du8] + hex_group(value, 8, 10) + seq![0x2du8] + hex_group(value, 10, 16)
}

/// The hexadecimal digit of a number below sixteen.
fn hex(d: u8) -> (c: u8)
    requires
        d < 16,
    ensures
        c == hex_digit(d),
{
    if d < 10 {
        0x30 + d
    } else {
        0x61 + (d - 10)
    }
}

/// Appends the digits of the bytes from `from` up to `to`.
fn write_group(buf: &mut Vec<u8>, value: u128, from: usize, to: usize)
    requires
        from <= to <= 16,
    ensures
        final(buf)@ == old(buf)@ + hex_group(value, from as int, to as int),
{
    let mut i: usize = from;
    assert(buf@ =~= old(buf)@ + hex_group(value, from as int, from as int));
    while i < to
        invariant
            from <= i <= to <= 16,
            buf@ == old(buf)@ + hex_group(value, from as int, i as int),
        decreases to - i,
    {
        let shift: u128 = (8 * (15 - i)) as u128;
        let byte: u8 = ((value >> shift) & 0xff) as u8;
        assert(byte == uuid_byte(value, i as int));
        buf.push(hex(byte / 16));
        buf.push(hex(byte % 16));
        assert(buf@ =~= old(buf)@ + hex_group(value, from as int, i + 1));
        i = i + 1;
    }
}

/// A UUID to be encoded.
pub struct UUID {
    value: u128,
}

impl UUID {
    /// The UUID that is the number `value`.
    pub fn new(value: u128) -> (uuid: Self)
        ensures
            uuid@ == value,
    {
        UUID { value }
    }

    /// The number of the UUID.
    pub closed spec fn view(&self) -> u128 {
        self.value
    }

    /// Appends the text of the UUID.
    pub fn write_buf(&self, buf: &mut Vec<u8>)
        ensures
            final(buf)@ == old(buf)@ + uuid_text(self@),
    {
        write_group(buf, self.value, 0, 4);
        buf.push(0x2du8);
        write_group(buf, self.value, 4, 6);
        buf.push(0x2du8);
        write_group(buf, self.value, 6, 8);
        buf.push(0x2du8);
        write_group(buf, self.value, 8, 10);
        buf.push(0x2du8);
        write_group(buf, self.value, 10, 16);
        assert(buf@ =~= old(buf)@ + uuid_text(self@));
    }
}

} // verus!
