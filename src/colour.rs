use vstd::prelude::*;

verus! {

/// The decimal digits of `n` as ASCII, without leading zeros.
pub open spec fn decimal(n: nat) -> Seq<u8>
    decreases n,
{
    if n < 10 {
        seq![(48 + n) as u8]
    } else {
        decimal(n / 10) + seq![(48 + n % 10) as u8]
    }
}

/// One pixel as a line of plain text: the three channels in decimal, separated by
/// single spaces, ending with a newline.
pub open spec fn colour_line(rgb: [u8; 3]) -> Seq<u8> {
    decimal(rgb[0] as nat) + seq![32u8] + decimal(rgb[1] as nat) + seq![32u8] + decimal(
        rgb[2] as nat,
    ) + seq![10u8]
}

/// Appends the decimal digits of `v` to `buf`.
fn push_decimal(buf: &mut Vec<u8>, v: u8)
    ensures
        final(buf)@ == old(buf)@ + decimal(v as nat),
{
    proof {
        reveal_with_fuel(decimal, 3);
    }
    if v >= 100 {
        buf.push(48 + v / 100);
        buf.push(48 + (v / 10) % 10);
        buf.push(48 + v % 10);
        assert(decimal(v as nat) =~= seq![(48 + v / 100) as u8, (48 + (v / 10) % 10) as u8, (48
            + v % 10) as u8]);
    } else if v >= 10 {
        buf.push(48 + v / 10);
        buf.push(48 + v % 10);
        assert(decimal(v as nat) =~= seq![(48 + v / 10) as u8, (48 + v % 10) as u8]);
    } else {
        buf.push(48 + v);
    }
    assert(buf@ =~= old(buf)@ + decimal(v as nat));
}

/// Appends the text line of one pixel (see `colour_line`) to `buf`.
pub fn write_colour(buf: &mut Vec<u8>, rgb: &[u8; 3])
    ensures
        final(buf)@ == old(buf)@ + colour_line(*rgb),
{
    push_decimal(buf, rgb[0]);
    buf.push(32);
    push_decimal(buf, rgb[1]);
    buf.push(32);
    push_decimal(buf, rgb[2]);
    buf.push(10);
    assert(buf@ =~= old(buf)@ + colour_line(*rgb));
}

} // verus!
