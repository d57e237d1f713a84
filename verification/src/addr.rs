//! The host-address model: a 32-bit IPv4 address held as four octets.

use vstd::prelude::*;

use crate::text::dec_chars;
use crate::text::push_char;
use crate::text::push_decimal;

verus! {

/// One IPv4 host address.  Ordering between addresses is by the 32-bit
/// integer value `o1.o2.o3.o4` reads as in network byte order.
#[derive(Clone, Copy, Debug, PartialEq, Eq, Structural)]
pub struct Ipv4Address {
    pub o1: u8,
    pub o2: u8,
    pub o3: u8,
    pub o4: u8,
}

impl Ipv4Address {
    /// The 32-bit integer value of the address.
    pub open spec fn value(self) -> int {
        self.o1 * 0x100_0000 + self.o2 * 0x1_0000 + self.o3 * 0x100 + self.o4
    }

    /// The address whose 32-bit value is `v`, written out by base-256 digits.
    pub open spec fn spec_from(v: u32) -> Ipv4Address {
        Ipv4Address {
            o1: (v / 0x100_0000) as u8,
            o2: ((v / 0x1_0000) % 0x100) as u8,
            o3: ((v / 0x100) % 0x100) as u8,
            o4: (v % 0x100) as u8,
        }
    }

    pub fn new(o1: u8, o2: u8, o3: u8, o4: u8) -> (r: Ipv4Address)
        ensures
            r == (Ipv4Address { o1, o2, o3, o4 }),
    {
        Ipv4Address { o1, o2, o3, o4 }
    }

    /// The address as one 32-bit integer.
    pub fn to_u32(self) -> (v: u32)
        ensures
            v == self.value(),
    {
        proof {
            assert(self.value() < 0x1_0000_0000) by {
                assert(self.o1 * 0x100_0000 <= 255 * 0x100_0000) by (nonlinear_arith)
                    requires self.o1 <= 255;
            }
        }
        (self.o1 as u32) * 0x100_0000 + (self.o2 as u32) * 0x1_0000 + (self.o3 as u32) * 0x100
            + (self.o4 as u32)
    }

    /// The address whose 32-bit integer value is `v`.
    pub fn from_u32(v: u32) -> (r: Ipv4Address)
        ensures
            r == Ipv4Address::spec_from(v),
            r.value() == v,
    {
        let o1 = (v >> 24) as u8;
        let o2 = (v >> 16) as u8;
        let o3 = (v >> 8) as u8;
        let o4 = v as u8;
        proof {
            assert(((v >> 24) as u8) * 0x100_0000 + ((v >> 16) as u8) * 0x1_0000
                + ((v >> 8) as u8) * 0x100 + (v as u8) == v) by (bit_vector);
            assert((v >> 24) as u8 == (v / 0x100_0000) as u8 && (v >> 16) as u8 == ((v
                / 0x1_0000) % 0x100) as u8 && (v >> 8) as u8 == ((v / 0x100) % 0x100) as u8 && v
                as u8 == (v % 0x100) as u8) by (bit_vector);
        }
        Ipv4Address { o1, o2, o3, o4 }
    }
}

impl Ipv4Address {
    /// The dotted-quad rendering of the address.
    pub open spec fn spec_chars(self) -> Seq<char> {
        dec_chars(self.o1 as int) + seq!['.'] + dec_chars(self.o2 as int) + seq!['.'] + dec_chars(
            self.o3 as int,
        ) + seq!['.'] + dec_chars(self.o4 as int)
    }

    /// Writes the address as a dotted quad.
    pub fn ip_string(&self) -> (r: String)
        ensures
            r@ == self.spec_chars(),
    {
        let mut out = String::new();
        push_decimal(&mut out, self.o1 as usize);
        push_char(&mut out, '.');
        push_decimal(&mut out, self.o2 as usize);
        push_char(&mut out, '.');
        push_decimal(&mut out, self.o3 as usize);
        push_char(&mut out, '.');
        push_decimal(&mut out, self.o4 as usize);
        assert(out@ =~= self.spec_chars());
        out
    }
}

} // verus!
