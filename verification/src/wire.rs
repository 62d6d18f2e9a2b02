//! Network byte order and IPv4 addresses as plain numbers.

use vstd::prelude::*;
use vstd::slice::slice_subrange;
use vstd::string::StringSliceAdditionalSpecFns;

verus! {

/// The number spelled by the first four bytes of `b`, most significant first.
/// The definition is kept from the solver until it is revealed.
#[verifier::opaque]
pub open spec fn be_value(b: Seq<u8>) -> int
    recommends
        b.len() >= 4,
{
    b[0] * 16777216 + b[1] * 65536 + b[2] * 256 + b[3]
}

/// The four bytes that spell `x`, most significant first.
/// The definition is kept from the solver until it is revealed.
#[verifier::opaque]
pub open spec fn be_bytes_of(x: u32) -> Seq<u8> {
    seq![
        (x / 16777216) as u8,
        (x / 65536 % 256) as u8,
        (x / 256 % 256) as u8,
        (x % 256) as u8,
    ]
}

/// Writing a number out and reading it back gives the number again.
pub proof fn lemma_be_value_of_bytes(x: u32)
    ensures
        be_bytes_of(x).len() == 4,
        be_value(be_bytes_of(x)) == x,
{
    reveal(be_value);
    reveal(be_bytes_of);
}

/// Reading four bytes and writing the number out gives the four bytes again.
pub proof fn lemma_be_bytes_of_value(b: Seq<u8>)
    requires
        b.len() == 4,
    ensures
        0 <= be_value(b) <= u32::MAX,
        be_bytes_of(be_value(b) as u32) == b,
{
    reveal(be_value);
    reveal(be_bytes_of);
    let b0: int = b[0] as int;
    let b1: int = b[1] as int;
    let b2: int = b[2] as int;
    let b3: int = b[3] as int;
    let v: int = b0 * 16777216 + b1 * 65536 + b2 * 256 + b3;
    assert(v == be_value(b));
    assert(v % 256 == b3);
    assert(v / 256 == b0 * 65536 + b1 * 256 + b2);
    assert(v / 256 % 256 == b2);
    assert(v / 65536 == b0 * 256 + b1);
    assert(v / 65536 % 256 == b1);
    assert(v / 16777216 == b0);
    let out = be_bytes_of(v as u32);
    assert(out.len() == 4);
    assert(out[0] == b[0]);
    assert(out[1] == b[1]);
    assert(out[2] == b[2]);
    assert(out[3] == b[3]);
    assert(out =~= b);
}

/// Conversion between a value and its representation in network byte order.
pub trait BigEndianBytes: Sized {
    /// The bytes that stand for `self`.
    spec fn be_seq(&self) -> Seq<u8>;

    /// The value that the leading bytes of `s` stand for.
    spec fn of_be_seq(s: Seq<u8>) -> Self;

    fn as_be_bytes(&self) -> (out: Vec<u8>)
        ensures
            out@ == self.be_seq(),
    ;

    fn from_be_bytes(slice: &[u8]) -> (out: Self)
        requires
            slice@.len() >= 4,
        ensures
            out == Self::of_be_seq(slice@),
    ;
}

impl BigEndianBytes for u32 {
    open spec fn be_seq(&self) -> Seq<u8> {
        be_bytes_of(*self)
    }

    open spec fn of_be_seq(s: Seq<u8>) -> u32 {
        be_value(s) as u32
    }

    fn as_be_bytes(&self) -> (out: Vec<u8>) {
        let x: u32 = *self;
        let mut out: Vec<u8> = Vec::with_capacity(4);
        out.push((x / 16777216) as u8);
        out.push((x / 65536 % 256) as u8);
        out.push((x / 256 % 256) as u8);
        out.push((x % 256) as u8);
        proof {
            reveal(be_bytes_of);
        }
        assert(out@ =~= be_bytes_of(x));
        out
    }

    fn from_be_bytes(slice: &[u8]) -> (out: u32) {
        let b0: u32 = slice[0] as u32;
        let b1: u32 = slice[1] as u32;
        let b2: u32 = slice[2] as u32;
        let b3: u32 = slice[3] as u32;
        proof {
            reveal(be_value);
        }
        b0 * 16777216 + b1 * 65536 + b2 * 256 + b3
    }
}

/// Reads the big-endian number that starts at byte `at` of `b`.
pub fn read_u32(b: &[u8], at: usize) -> (out: u32)
    requires
        at + 4 <= b@.len(),
    ensures
        out == be_value(b@.subrange(at as int, at + 4)),
{
    let len: usize = b.len();
    assert(at + 4 <= len);
    proof {
        reveal(be_value);
    }
    <u32 as BigEndianBytes>::from_be_bytes(slice_subrange(b, at, at + 4))
}

/// Appends the big-endian bytes of `x` to `buf`.
pub fn write_u32(buf: &mut Vec<u8>, x: u32)
    ensures
        final(buf)@ == old(buf)@ + be_bytes_of(x),
{
    let mut bytes: Vec<u8> = x.as_be_bytes();
    buf.append(&mut bytes);
}

/// How far the reading of a dotted quad has come: whether all was well so
/// far, how many numbers are complete and what they spell together, what the
/// number under way spells, and whether it has a digit yet.
pub struct QuadScan {
    pub ok: bool,
    pub done: int,
    pub acc: int,
    pub value: int,
    pub digits: bool,
}

/// The reading of a dotted quad after one more byte: a digit goes on with
/// the number under way, unless that is a lone zero or would pass 255; a dot
/// completes it, unless it has no digit or is the fourth; anything else is
/// wrong.
pub open spec fn quad_step(st: QuadScan, byte: u8) -> QuadScan {
    if !st.ok {
        st
    } else if 48 <= byte <= 57 {
        let d = byte - 48;
        if !st.digits {
            QuadScan { value: d, digits: true, ..st }
        } else if st.value == 0 || st.value * 10 + d > 255 {
            QuadScan { ok: false, ..st }
        } else {
            QuadScan { value: st.value * 10 + d, ..st }
        }
    } else if byte == 46 && st.digits && st.done < 3 {
        QuadScan { done: st.done + 1, acc: st.acc * 256 + st.value, value: 0, digits: false, ..st }
    } else {
        QuadScan { ok: false, ..st }
    }
}

/// The reading of a dotted quad after the bytes `s`.
pub open spec fn quad_scan(s: Seq<u8>) -> QuadScan
    decreases s.len(),
{
    if s.len() == 0 {
        QuadScan { ok: true, done: 0, acc: 0, value: 0, digits: false }
    } else {
        quad_step(quad_scan(s.drop_last()), s.last())
    }
}

/// The address that the bytes `s` spell in dotted-quad notation, if they
/// spell one.
pub open spec fn quad_value(s: Seq<u8>) -> Option<Ipv4Addr> {
    let st = quad_scan(s);
    if st.ok && st.done == 3 && st.digits {
        Some(Ipv4Addr { bits: (st.acc * 256 + st.value) as u32 })
    } else {
        None
    }
}

/// An IPv4 address, held as the 32-bit number that its four octets spell.
#[derive(Clone, Copy, Debug, PartialEq, Eq, Structural, Hash)]
pub struct Ipv4Addr {
    pub bits: u32,
}

impl Ipv4Addr {
    /// The address `a.b.c.d` as a number.
    pub open spec fn spec_new(a: u8, b: u8, c: u8, d: u8) -> Ipv4Addr {
        Ipv4Addr { bits: (a * 16777216 + b * 65536 + c * 256 + d) as u32 }
    }

    /// The four octets of the address, in the order in which they are written.
    pub open spec fn spec_octets(self) -> Seq<u8> {
        be_bytes_of(self.bits)
    }

    /// The address `a.b.c.d`.
    pub fn new(a: u8, b: u8, c: u8, d: u8) -> (ip: Ipv4Addr)
        ensures
            ip == Ipv4Addr::spec_new(a, b, c, d),
            ip.spec_octets() == seq![a, b, c, d],
    {
        let bits: u32 = (a as u32) * 16777216 + (b as u32) * 65536 + (c as u32) * 256 + (d as u32);
        proof {
            reveal(be_value);
            lemma_be_bytes_of_value(seq![a, b, c, d]);
        }
        Ipv4Addr { bits }
    }

    /// The four octets of the address.
    pub fn octets(&self) -> (out: [u8; 4])
        ensures
            out@ == self.spec_octets(),
    {
        let x: u32 = self.bits;
        let out: [u8; 4] = [
            (x / 16777216) as u8,
            (x / 65536 % 256) as u8,
            (x / 256 % 256) as u8,
            (x % 256) as u8,
        ];
        proof {
            reveal(be_bytes_of);
        }
        assert(out@ =~= be_bytes_of(x));
        out
    }

    /// Reads an address in dotted-quad notation: four numbers from 0 to 255,
    /// written in decimal without needless zeros in front, with a dot between
    /// each two and nothing else.
    pub fn parse(text: &str) -> (out: Option<Ipv4Addr>)
        ensures
            out == quad_value(text.spec_bytes()),
    {
        let bytes: &[u8] = text.as_bytes();
        let mut ok: bool = true;
        let mut done: u8 = 0;
        let mut acc: u32 = 0;
        let mut value: u32 = 0;
        let mut digits: bool = false;
        let mut i: usize = 0;
        while i < bytes.len()
            invariant
                i <= bytes@.len(),
                done <= 3,
                value <= 255,
                done == 0 ==> acc == 0,
                done == 1 ==> acc < 256,
                done == 2 ==> acc < 65536,
                acc < 16777216,
                quad_scan(bytes@.take(i as int)) == (QuadScan {
                    ok,
                    done: done as int,
                    acc: acc as int,
                    value: value as int,
                    digits,
                }),
            decreases bytes@.len() - i,
        {
            assert(bytes@.take(i + 1).drop_last() =~= bytes@.take(i as int));
            let byte: u8 = bytes[i];
            if !ok {
            } else if 48 <= byte && byte <= 57 {
                let d: u32 = (byte - 48) as u32;
                if !digits {
                    value = d;
                    digits = true;
                } else if value == 0 || value * 10 + d > 255 {
                    ok = false;
                } else {
                    value = value * 10 + d;
                }
            } else if byte == 46 && digits && done < 3 {
                acc = acc * 256 + value;
                done = done + 1;
                value = 0;
                digits = false;
            } else {
                ok = false;
            }
            i = i + 1;
        }
        assert(bytes@.take(bytes@.len() as int) =~= bytes@);
        if ok && done == 3 && digits {
            Some(Ipv4Addr { bits: acc * 256 + value })
        } else {
            None
        }
    }

    /// The address whose number is `bits`.
    pub fn from_bits(bits: u32) -> (ip: Ipv4Addr)
        ensures
            ip.bits == bits,
    {
        Ipv4Addr { bits }
    }

    /// The address as a number.
    pub fn to_bits(&self) -> (bits: u32)
        ensures
            bits == self.bits,
    {
        self.bits
    }
}

} // verus!
