use vstd::prelude::*;

verus! {

/// A display colour: three channels of 0 to 255.
#[derive(Clone, Copy, Debug, PartialEq, Eq, Structural)]
pub struct Colour {
    pub r: u8,
    pub g: u8,
    pub b: u8,
}

impl Colour {
    pub fn new(r: u8, g: u8, b: u8) -> (c: Colour)
        ensures
            c == (Colour { r, g, b }),
    {
        Colour { r, g, b }
    }

    /// A grey: every channel set to `v`.
    pub fn from_element(v: u8) -> (c: Colour)
        ensures
            c == (Colour { r: v, g: v, b: v }),
    {
        Colour { r: v, g: v, b: v }
    }
}

/// The three ASCII decimal digits of `n`, most significant first.
pub open spec fn digits(n: u8) -> Seq<u8> {
    seq![(48 + n / 100) as u8, (48 + (n / 10) % 10) as u8, (48 + n % 10) as u8]
}

/// Splits a byte into its three decimal digits: `255` gives `b"255"`,
/// `10` gives `b"010"`.
pub fn btod(num: u8) -> (r: [u8; 3])
    ensures
        r@ == digits(num),
{
    let hundreds: u8 = num / 100;
    let tens: u8 = (num - hundreds * 100) / 10;
    let units: u8 = num - hundreds * 100 - tens * 10;
    let r = [48 + hundreds, 48 + tens, 48 + units];
    assert(r@ =~= digits(num));
    r
}

} // verus!
