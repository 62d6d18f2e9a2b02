//! The control messages and their byte layout on the wire.

use vstd::prelude::*;
use crate::wire::{be_bytes_of, be_value, read_u32, write_u32, Ipv4Addr};
use crate::wire::{lemma_be_bytes_of_value, lemma_be_value_of_bytes};

verus! {

/// UDP port on which control messages travel.
pub const AODV_PORT: u16 = 654;

/// UDP port of the local control channel of a running instance.
pub const INSTANCE_PORT: u16 = 15_292;

/// Why a buffer is not a control message.
#[derive(Clone, Copy, Debug, PartialEq, Eq, Structural)]
pub enum ParseFailure {
    /// The buffer holds no byte at all.
    EmptyBuffer,
    /// No message kind has this type byte together with this length.
    WrongLengthOrType,
    /// The length is not one that the message kind has.
    WrongLength,
    /// The type byte is not that of the message kind.
    WrongType,
}

/// The error of every failed parse.
#[derive(Clone, Copy, Debug, PartialEq, Eq, Structural)]
pub struct ParseError {
    pub reason: ParseFailure,
}

impl ParseError {
    /// The error of a parse that failed for the given reason.
    pub fn new(reason: ParseFailure) -> (e: ParseError)
        ensures
            e == (ParseError { reason }),
    {
        ParseError { reason }
    }

    /// A sentence that says what was wrong with the buffer.
    pub fn message(&self) -> (text: &'static str)
        ensures
            text@ == match self.reason {
                ParseFailure::EmptyBuffer => "Buffer is empty"@,
                ParseFailure::WrongLengthOrType => "Wrong length or type bit"@,
                ParseFailure::WrongLength => "This is not the right size for the message"@,
                ParseFailure::WrongType => "This is not the right type for the message"@,
            },
    {
        match self.reason {
            ParseFailure::EmptyBuffer => "Buffer is empty",
            ParseFailure::WrongLengthOrType => "Wrong length or type bit",
            ParseFailure::WrongLength => "This is not the right size for the message",
            ParseFailure::WrongType => "This is not the right type for the message",
        }
    }
}

/// Whether the bit of the given weight (a power of two) is set in `byte`.
pub open spec fn bit_set(byte: u8, weight: int) -> bool {
    (byte as int / weight) % 2 == 1
}

/// `weight` if `flag` holds, else nothing.
pub open spec fn bit_of(flag: bool, weight: int) -> int {
    if flag {
        weight
    } else {
        0
    }
}

fn flag_bit(flag: bool, weight: u8) -> (out: u8)
    ensures
        out == bit_of(flag, weight as int),
{
    if flag {
        weight
    } else {
        0
    }
}

/// Route request.
///
/// ```text
///  0                   1                   2                   3
///  0 1 2 3 4 5 6 7 8 9 0 1 2 3 4 5 6 7 8 9 0 1 2 3 4 5 6 7 8 9 0 1
/// +-+-+-+-+-+-+-+-+-+-+-+-+-+-+-+-+-+-+-+-+-+-+-+-+-+-+-+-+-+-+-+-+
/// |     Type      |J|R|G|D|U|   Reserved          |   Hop Count   |
/// +-+-+-+-+-+-+-+-+-+-+-+-+-+-+-+-+-+-+-+-+-+-+-+-+-+-+-+-+-+-+-+-+
/// |                            RREQ ID                            |
/// |                    Destination IP Address                     |
/// |                  Destination Sequence Number                  |
/// |                    Originator IP Address                      |
/// |                  Originator Sequence Number                   |
/// +-+-+-+-+-+-+-+-+-+-+-+-+-+-+-+-+-+-+-+-+-+-+-+-+-+-+-+-+-+-+-+-+
/// ```
#[allow(clippy::upper_case_acronyms)]
#[derive(Clone, Copy, Debug, PartialEq, Eq, Structural)]
pub struct RREQ {
    /// Join flag
    pub j: bool,
    /// Repair flag
    pub r: bool,
    /// Gratuitous RREP flag
    pub g: bool,
    /// Destination only flag
    pub d: bool,
    /// Unknown sequence number
    pub u: bool,
    pub hop_count: u8,
    pub rreq_id: u32,
    pub dest_ip: Ipv4Addr,
    pub dest_seq_num: u32,
    pub orig_ip: Ipv4Addr,
    pub orig_seq_num: u32,
}

impl RREQ {
    /// The flag byte of the message.
    pub open spec fn flag_byte(self) -> u8 {
        (bit_of(self.j, 128) + bit_of(self.r, 64) + bit_of(self.g, 32) + bit_of(self.d, 16)
            + bit_of(self.u, 8)) as u8
    }

    /// The 24 bytes of the message.
    pub open spec fn wire(self) -> Seq<u8> {
        seq![1u8, self.flag_byte(), 0u8, self.hop_count] + be_bytes_of(self.rreq_id) + be_bytes_of(
            self.dest_ip.bits,
        ) + be_bytes_of(self.dest_seq_num) + be_bytes_of(self.orig_ip.bits) + be_bytes_of(
            self.orig_seq_num,
        )
    }

    /// The message that 24 bytes spell; reserved bits are not looked at.
    pub open spec fn decoded(b: Seq<u8>) -> RREQ
        recommends
            b.len() == 24,
    {
        RREQ {
            j: bit_set(b[1], 128),
            r: bit_set(b[1], 64),
            g: bit_set(b[1], 32),
            d: bit_set(b[1], 16),
            u: bit_set(b[1], 8),
            hop_count: b[3],
            rreq_id: be_value(b.subrange(4, 8)) as u32,
            dest_ip: Ipv4Addr { bits: be_value(b.subrange(8, 12)) as u32 },
            dest_seq_num: be_value(b.subrange(12, 16)) as u32,
            orig_ip: Ipv4Addr { bits: be_value(b.subrange(16, 20)) as u32 },
            orig_seq_num: be_value(b.subrange(20, 24)) as u32,
        }
    }

    /// What parsing `b` as a route request gives.
    pub open spec fn parse_spec(b: Seq<u8>) -> Result<RREQ, ParseError> {
        if b.len() != 24 {
            Err(ParseError { reason: ParseFailure::WrongLength })
        } else if b[0] != 1 {
            Err(ParseError { reason: ParseFailure::WrongType })
        } else {
            Ok(RREQ::decoded(b))
        }
    }

    /// Reads a route request from a byte slice.
    pub fn new(b: &[u8]) -> (res: Result<RREQ, ParseError>)
        ensures
            res == RREQ::parse_spec(b@),
    {
        if b.len() != 24 {
            return Err(ParseError::new(ParseFailure::WrongLength));
        }
        if b[0] != 1 {
            return Err(ParseError::new(ParseFailure::WrongType));
        }
        Ok(
            RREQ {
                j: (b[1] / 128) % 2 == 1,
                r: (b[1] / 64) % 2 == 1,
                g: (b[1] / 32) % 2 == 1,
                d: (b[1] / 16) % 2 == 1,
                u: (b[1] / 8) % 2 == 1,
                hop_count: b[3],
                rreq_id: read_u32(b, 4),
                dest_ip: Ipv4Addr::from_bits(read_u32(b, 8)),
                dest_seq_num: read_u32(b, 12),
                orig_ip: Ipv4Addr::from_bits(read_u32(b, 16)),
                orig_seq_num: read_u32(b, 20),
            },
        )
    }

    /// The bytes of the message as they go on the wire.
    pub fn bit_message(&self) -> (out: Vec<u8>)
        ensures
            out@ == self.wire(),
    {
        let mut b: Vec<u8> = Vec::with_capacity(24);
        b.push(1);
        b.push(
            flag_bit(self.j, 128) + flag_bit(self.r, 64) + flag_bit(self.g, 32) + flag_bit(
                self.d,
                16,
            ) + flag_bit(self.u, 8),
        );
        b.push(0);
        b.push(self.hop_count);
        write_u32(&mut b, self.rreq_id);
        write_u32(&mut b, self.dest_ip.to_bits());
        write_u32(&mut b, self.dest_seq_num);
        write_u32(&mut b, self.orig_ip.to_bits());
        write_u32(&mut b, self.orig_seq_num);
        assert(b@ =~= self.wire());
        b
    }
}

/// Route reply.
///
/// ```text
///  0                   1                   2                   3
///  0 1 2 3 4 5 6 7 8 9 0 1 2 3 4 5 6 7 8 9 0 1 2 3 4 5 6 7 8 9 0 1
/// +-+-+-+-+-+-+-+-+-+-+-+-+-+-+-+-+-+-+-+-+-+-+-+-+-+-+-+-+-+-+-+-+
/// |     Type      |R|A|    Reserved     |Prefix Sz|   Hop Count   |
/// +-+-+-+-+-+-+-+-+-+-+-+-+-+-+-+-+-+-+-+-+-+-+-+-+-+-+-+-+-+-+-+-+
/// |                     Destination IP Address                    |
/// |                  Destination Sequence Number                  |
/// |                    Originator IP Address                      |
/// |                           Lifetime                            |
/// +-+-+-+-+-+-+-+-+-+-+-+-+-+-+-+-+-+-+-+-+-+-+-+-+-+-+-+-+-+-+-+-+
/// ```
#[allow(clippy::upper_case_acronyms)]
#[derive(Clone, Copy, Debug, PartialEq, Eq, Structural)]
pub struct RREP {
    /// Repair flag
    pub r: bool,
    /// Acknowledgment required flag
    pub a: bool,
    /// Prefix size, five bits
    pub prefix_size: u8,
    pub hop_count: u8,
    pub dest_ip: Ipv4Addr,
    pub dest_seq_num: u32,
    pub orig_ip: Ipv4Addr,
    /// Lifetime in milliseconds
    pub lifetime: u32,
}

impl RREP {
    /// A reply whose prefix size fits its five bits.
    pub open spec fn wf(self) -> bool {
        self.prefix_size < 32
    }

    /// The flag byte of the message.
    pub open spec fn flag_byte(self) -> u8 {
        (bit_of(self.r, 128) + bit_of(self.a, 64)) as u8
    }

    /// The 20 bytes of the message.
    pub open spec fn wire(self) -> Seq<u8> {
        seq![2u8, self.flag_byte(), (self.prefix_size % 32) as u8, self.hop_count] + be_bytes_of(
            self.dest_ip.bits,
        ) + be_bytes_of(self.dest_seq_num) + be_bytes_of(self.orig_ip.bits) + be_bytes_of(
            self.lifetime,
        )
    }

    /// The message that 20 bytes spell; reserved bits are not looked at.
    pub open spec fn decoded(b: Seq<u8>) -> RREP
        recommends
            b.len() == 20,
    {
        RREP {
            r: bit_set(b[1], 128),
            a: bit_set(b[1], 64),
            prefix_size: (b[2] % 32) as u8,
            hop_count: b[3],
            dest_ip: Ipv4Addr { bits: be_value(b.subrange(4, 8)) as u32 },
            dest_seq_num: be_value(b.subrange(8, 12)) as u32,
            orig_ip: Ipv4Addr { bits: be_value(b.subrange(12, 16)) as u32 },
            lifetime: be_value(b.subrange(16, 20)) as u32,
        }
    }

    /// What parsing `b` as a route reply gives.
    pub open spec fn parse_spec(b: Seq<u8>) -> Result<RREP, ParseError> {
        if b.len() != 20 {
            Err(ParseError { reason: ParseFailure::WrongLength })
        } else if b[0] != 2 {
            Err(ParseError { reason: ParseFailure::WrongType })
        } else {
            Ok(RREP::decoded(b))
        }
    }

    /// Reads a route reply from a byte slice.
    pub fn new(b: &[u8]) -> (res: Result<RREP, ParseError>)
        ensures
            res == RREP::parse_spec(b@),
    {
        if b.len() != 20 {
            return Err(ParseError::new(ParseFailure::WrongLength));
        }
        if b[0] != 2 {
            return Err(ParseError::new(ParseFailure::WrongType));
        }
        Ok(
            RREP {
                r: (b[1] / 128) % 2 == 1,
                a: (b[1] / 64) % 2 == 1,
                prefix_size: b[2] % 32,
                hop_count: b[3],
                dest_ip: Ipv4Addr::from_bits(read_u32(b, 4)),
                dest_seq_num: read_u32(b, 8),
                orig_ip: Ipv4Addr::from_bits(read_u32(b, 12)),
                lifetime: read_u32(b, 16),
            },
        )
    }

    /// The bytes of the message as they go on the wire.
    pub fn bit_message(&self) -> (out: Vec<u8>)
        ensures
            out@ == self.wire(),
    {
        let mut b: Vec<u8> = Vec::with_capacity(20);
        b.push(2);
        b.push(flag_bit(self.r, 128) + flag_bit(self.a, 64));
        b.push(self.prefix_size % 32);
        b.push(self.hop_count);
        write_u32(&mut b, self.dest_ip.to_bits());
        write_u32(&mut b, self.dest_seq_num);
        write_u32(&mut b, self.orig_ip.to_bits());
        write_u32(&mut b, self.lifetime);
        assert(b@ =~= self.wire());
        b
    }
}

/// The eight bytes of one unreachable destination: address, then sequence number.
pub open spec fn udest_bytes(entry: (Ipv4Addr, u32)) -> Seq<u8> {
    be_bytes_of(entry.0.bits) + be_bytes_of(entry.1)
}

/// The bytes of a list of unreachable destinations, one after the other.
pub open spec fn udest_list_bytes(list: Seq<(Ipv4Addr, u32)>) -> Seq<u8> {
    Seq::new((8 * list.len()) as nat, |i: int| udest_bytes(list[i / 8])[i % 8])
}

/// The unreachable destination that starts at byte `at` of `b`.
pub open spec fn udest_at(b: Seq<u8>, at: int) -> (Ipv4Addr, u32) {
    (
        Ipv4Addr { bits: be_value(b.subrange(at, at + 4)) as u32 },
        be_value(b.subrange(at + 4, at + 8)) as u32,
    )
}

/// The unreachable destinations that follow the four header bytes of `b`.
pub open spec fn udest_list_of(b: Seq<u8>) -> Seq<(Ipv4Addr, u32)> {
    Seq::new(((b.len() - 4) / 8) as nat, |k: int| udest_at(b, 4 + 8 * k))
}

/// Route error.
///
/// ```text
///  0                   1                   2                   3
///  0 1 2 3 4 5 6 7 8 9 0 1 2 3 4 5 6 7 8 9 0 1 2 3 4 5 6 7 8 9 0 1
/// +-+-+-+-+-+-+-+-+-+-+-+-+-+-+-+-+-+-+-+-+-+-+-+-+-+-+-+-+-+-+-+-+
/// |     Type      |N|          Reserved           |   DestCount   |
/// +-+-+-+-+-+-+-+-+-+-+-+-+-+-+-+-+-+-+-+-+-+-+-+-+-+-+-+-+-+-+-+-+
/// |            Unreachable Destination IP Address (1)             |
/// |         Unreachable Destination Sequence Number (1)           |
/// |  Additional Unreachable Destination IP Addresses (if needed)  |
/// |Additional Unreachable Destination Sequence Numbers (if needed)|
/// +-+-+-+-+-+-+-+-+-+-+-+-+-+-+-+-+-+-+-+-+-+-+-+-+-+-+-+-+-+-+-+-+
/// ```
#[allow(clippy::upper_case_acronyms)]
#[derive(Clone, Debug, PartialEq, Eq)]
pub struct RERR {
    /// No delete flag
    pub n: bool,
    /// Number of unreachable destinations
    pub dest_count: u8,
    /// Unreachable destinations, each with its sequence number
    pub udest_list: Vec<(Ipv4Addr, u32)>,
}

/// What a route error says: its flag, its count and its list as a sequence.
pub struct RerrView {
    pub n: bool,
    pub dest_count: u8,
    pub udest_list: Seq<(Ipv4Addr, u32)>,
}

impl RerrView {
    /// A route error that names between 1 and 255 destinations and counts them rightly.
    pub open spec fn wf(self) -> bool {
        &&& 1 <= self.udest_list.len() <= 255
        &&& self.dest_count == self.udest_list.len()
    }

    /// The bytes of the message. The count byte is taken from the length of the list.
    pub open spec fn wire(self) -> Seq<u8> {
        seq![3u8, bit_of(self.n, 128) as u8, 0u8, (self.udest_list.len() % 256) as u8]
            + udest_list_bytes(self.udest_list)
    }
}

impl View for RERR {
    type V = RerrView;

    open spec fn view(&self) -> RerrView {
        RerrView { n: self.n, dest_count: self.dest_count, udest_list: self.udest_list@ }
    }
}

impl RERR {
    /// Whether `b` has the length of a route error.
    pub open spec fn length_fits(b: Seq<u8>) -> bool {
        b.len() >= 12 && (b.len() - 4) % 8 == 0
    }

    /// The message that the bytes spell. Its count is the number of destinations
    /// that the buffer holds; the count byte and the reserved bits are not looked at.
    pub open spec fn decoded(b: Seq<u8>) -> RerrView
        recommends
            RERR::length_fits(b),
    {
        RerrView {
            n: bit_set(b[1], 128),
            dest_count: (((b.len() - 4) / 8) % 256) as u8,
            udest_list: udest_list_of(b),
        }
    }

    /// What parsing `b` as a route error gives.
    pub open spec fn parse_spec(b: Seq<u8>) -> Result<RerrView, ParseError> {
        if !RERR::length_fits(b) {
            Err(ParseError { reason: ParseFailure::WrongLength })
        } else if b[0] != 3 {
            Err(ParseError { reason: ParseFailure::WrongType })
        } else {
            Ok(RERR::decoded(b))
        }
    }

    /// Reads a route error from a byte slice.
    pub fn new(b: &[u8]) -> (res: Result<RERR, ParseError>)
        ensures
            match res {
                Ok(m) => RERR::parse_spec(b@) == Ok::<RerrView, ParseError>(m@),
                Err(e) => RERR::parse_spec(b@) == Err::<RerrView, ParseError>(e),
            },
    {
        let len: usize = b.len();
        if len < 12 || (len - 4) % 8 != 0 {
            return Err(ParseError::new(ParseFailure::WrongLength));
        }
        if b[0] != 3 {
            return Err(ParseError::new(ParseFailure::WrongType));
        }
        let count: usize = (len - 4) / 8;
        let mut udest_list: Vec<(Ipv4Addr, u32)> = Vec::new();
        let mut k: usize = 0;
        while k < count
            invariant
                len == b@.len(),
                count == (len - 4) / 8,
                (len - 4) % 8 == 0,
                len >= 12,
                k <= count,
                udest_list@ =~= udest_list_of(b@).take(k as int),
            decreases count - k,
        {
            let at: usize = 4 + 8 * k;
            let ip: Ipv4Addr = Ipv4Addr::from_bits(read_u32(b, at));
            let seq_num: u32 = read_u32(b, at + 4);
            udest_list.push((ip, seq_num));
            k = k + 1;
        }
        assert(udest_list@ =~= udest_list_of(b@));
        Ok(RERR { n: (b[1] / 128) % 2 == 1, dest_count: (count % 256) as u8, udest_list })
    }

    /// The bytes of the message as they go on the wire.
    pub fn bit_message(&self) -> (out: Vec<u8>)
        ensures
            out@ == self@.wire(),
    {
        let mut b: Vec<u8> = Vec::new();
        let n: usize = self.udest_list.len();
        b.push(3);
        b.push(flag_bit(self.n, 128));
        b.push(0);
        b.push((n % 256) as u8);
        let ghost head: Seq<u8> = b@;
        let mut i: usize = 0;
        while i < n
            invariant
                n == self.udest_list@.len(),
                i <= n,
                head.len() == 4,
                b@ =~= head + udest_list_bytes(self.udest_list@.take(i as int)),
            decreases n - i,
        {
            let entry: (Ipv4Addr, u32) = self.udest_list[i];
            let ghost before: Seq<u8> = b@;
            write_u32(&mut b, entry.0.to_bits());
            write_u32(&mut b, entry.1);
            proof {
                lemma_be_value_of_bytes(entry.0.bits);
                lemma_be_value_of_bytes(entry.1);
                let shorter = self.udest_list@.take(i as int);
                let longer = self.udest_list@.take(i + 1);
                assert(b@ =~= before + udest_bytes(entry));
                assert forall|x: int| 0 <= x < 8 * (i + 1) implies (#[trigger] (head
                    + udest_list_bytes(longer))[4 + x]) == b@[4 + x] by {
                    if x < 8 * i {
                        assert(longer[x / 8] == shorter[x / 8]);
                    } else {
                        assert(x / 8 == i as int);
                        assert(x % 8 == x - 8 * i);
                    }
                }
                assert(b@ =~= head + udest_list_bytes(longer));
            }
            i = i + 1;
        }
        assert(self.udest_list@.take(n as int) =~= self.udest_list@);
        b
    }
}

/// What a control message says.
pub enum MessageView {
    Rreq(RREQ),
    Rrep(RREP),
    Rerr(RerrView),
    Hello(RREP),
    Ack,
}

impl MessageView {
    /// A message whose every field fits the place it has on the wire.
    pub open spec fn wf(self) -> bool {
        match self {
            MessageView::Rreq(_) => true,
            MessageView::Rrep(r) => r.wf(),
            MessageView::Rerr(e) => e.wf(),
            MessageView::Hello(r) => r.wf(),
            MessageView::Ack => true,
        }
    }

    /// The bytes of the message. A hello message has the bytes of the reply it holds.
    pub open spec fn wire(self) -> Seq<u8> {
        match self {
            MessageView::Rreq(r) => r.wire(),
            MessageView::Rrep(r) => r.wire(),
            MessageView::Rerr(e) => e.wire(),
            MessageView::Hello(r) => r.wire(),
            MessageView::Ack => seq![4u8, 0u8],
        }
    }
}

/// Every kind of control message.
#[derive(Clone, Debug, PartialEq, Eq)]
pub enum AodvMessage {
    Rreq(RREQ),
    Rrep(RREP),
    Rerr(RERR),
    Hello(RREP),
    Ack,
}

impl View for AodvMessage {
    type V = MessageView;

    open spec fn view(&self) -> MessageView {
        match *self {
            AodvMessage::Rreq(r) => MessageView::Rreq(r),
            AodvMessage::Rrep(r) => MessageView::Rrep(r),
            AodvMessage::Rerr(e) => MessageView::Rerr(e@),
            AodvMessage::Hello(r) => MessageView::Hello(r),
            AodvMessage::Ack => MessageView::Ack,
        }
    }
}

impl AodvMessage {
    /// What parsing `b` gives: the kind is chosen by the type byte and the length.
    /// A hello message is never the result, for on the wire it is a route reply.
    pub open spec fn parse_spec(b: Seq<u8>) -> Result<MessageView, ParseError> {
        if b.len() == 0 {
            Err(ParseError { reason: ParseFailure::EmptyBuffer })
        } else if b[0] == 1 && b.len() == 24 {
            Ok(MessageView::Rreq(RREQ::decoded(b)))
        } else if b[0] == 2 && b.len() == 20 {
            Ok(MessageView::Rrep(RREP::decoded(b)))
        } else if b[0] == 3 && b.len() % 4 == 0 {
            match RERR::parse_spec(b) {
                Ok(e) => Ok(MessageView::Rerr(e)),
                Err(e) => Err(e),
            }
        } else if b[0] == 4 && b.len() == 2 {
            Ok(MessageView::Ack)
        } else {
            Err(ParseError { reason: ParseFailure::WrongLengthOrType })
        }
    }

    /// Reads a control message from a byte slice.
    pub fn parse(b: &[u8]) -> (res: Result<AodvMessage, ParseError>)
        ensures
            match res {
                Ok(m) => AodvMessage::parse_spec(b@) == Ok::<MessageView, ParseError>(m@),
                Err(e) => AodvMessage::parse_spec(b@) == Err::<MessageView, ParseError>(e),
            },
    {
        let len: usize = b.len();
        if len == 0 {
            return Err(ParseError::new(ParseFailure::EmptyBuffer));
        }
        let tag: u8 = b[0];
        if tag == 1 && len == 24 {
            match RREQ::new(b) {
                Ok(r) => Ok(AodvMessage::Rreq(r)),
                Err(e) => Err(e),
            }
        } else if tag == 2 && len == 20 {
            match RREP::new(b) {
                Ok(r) => Ok(AodvMessage::Rrep(r)),
                Err(e) => Err(e),
            }
        } else if tag == 3 && len % 4 == 0 {
            match RERR::new(b) {
                Ok(r) => Ok(AodvMessage::Rerr(r)),
                Err(e) => Err(e),
            }
        } else if tag == 4 && len == 2 {
            Ok(AodvMessage::Ack)
        } else {
            Err(ParseError::new(ParseFailure::WrongLengthOrType))
        }
    }

    /// The bytes of the message as they go on the wire.
    pub fn bit_message(&self) -> (out: Vec<u8>)
        ensures
            out@ == self@.wire(),
    {
        match self {
            AodvMessage::Rreq(r) => r.bit_message(),
            AodvMessage::Rrep(r) => r.bit_message(),
            AodvMessage::Rerr(r) => r.bit_message(),
            AodvMessage::Hello(r) => r.bit_message(),
            AodvMessage::Ack => {
                let mut out: Vec<u8> = Vec::new();
                out.push(4);
                out.push(0);
                assert(out@ =~= seq![4u8, 0u8]);
                out
            },
        }
    }
}

/// The codec that a datagram transport drives: it never fails, a buffer that is
/// no message is dropped.
pub struct AodvCodec;

impl AodvCodec {
    /// The message in a received datagram, or nothing where it holds none.
    pub fn decode(&mut self, buf: &[u8]) -> (res: Option<AodvMessage>)
        ensures
            match res {
                Some(m) => AodvMessage::parse_spec(buf@) == Ok::<MessageView, ParseError>(m@),
                None => AodvMessage::parse_spec(buf@) is Err,
            },
    {
        match AodvMessage::parse(buf) {
            Ok(msg) => Some(msg),
            Err(_) => None,
        }
    }

    /// Appends the bytes of `msg` to the datagram under construction.
    pub fn encode(&mut self, msg: &AodvMessage, into: &mut Vec<u8>)
        ensures
            final(into)@ == old(into)@ + msg@.wire(),
    {
        let mut bytes: Vec<u8> = msg.bit_message();
        into.append(&mut bytes);
    }
}

/// Whether a buffer is written the way this node writes its own messages:
/// every reserved bit is zero and the count byte of a route error is the number
/// of destinations that follow (up to a multiple of 256).
pub open spec fn is_canonical(b: Seq<u8>) -> bool {
    if b.len() < 2 {
        false
    } else if b[0] == 1 {
        b[1] % 8 == 0 && b[2] == 0
    } else if b[0] == 2 {
        b[1] % 64 == 0 && b[2] < 32
    } else if b[0] == 3 {
        b[1] % 128 == 0 && b[2] == 0 && b[3] == ((b.len() - 4) / 8) % 256
    } else {
        b[1] == 0
    }
}

/// Four bytes cut out of a buffer, read as a number and written out again, are
/// the four bytes.
proof fn lemma_word_round_trip(b: Seq<u8>, at: int)
    requires
        0 <= at,
        at + 4 <= b.len(),
    ensures
        be_bytes_of(be_value(b.subrange(at, at + 4)) as u32) == b.subrange(at, at + 4),
{
    lemma_be_bytes_of_value(b.subrange(at, at + 4));
}

/// A number written out at byte `at` of a buffer is read back from there.
proof fn lemma_word_read_back(b: Seq<u8>, at: int, x: u32)
    requires
        0 <= at,
        at + 4 <= b.len(),
        b.subrange(at, at + 4) =~= be_bytes_of(x),
    ensures
        be_value(b.subrange(at, at + 4)) as u32 == x,
{
    lemma_be_value_of_bytes(x);
}

/// The five flags of a byte whose low three bits are zero add up to the byte.
proof fn lemma_flags_of_byte(x: u8)
    ensures
        x % 8 == 0 ==> bit_of(bit_set(x, 128), 128) + bit_of(bit_set(x, 64), 64) + bit_of(
            bit_set(x, 32),
            32,
        ) + bit_of(bit_set(x, 16), 16) + bit_of(bit_set(x, 8), 8) == x,
        x % 64 == 0 ==> bit_of(bit_set(x, 128), 128) + bit_of(bit_set(x, 64), 64) == x,
        x % 128 == 0 ==> bit_of(bit_set(x, 128), 128) == x,
{
    assert(x % 8 == 0 ==> bit_of(bit_set(x, 128), 128) + bit_of(bit_set(x, 64), 64) + bit_of(
        bit_set(x, 32),
        32,
    ) + bit_of(bit_set(x, 16), 16) + bit_of(bit_set(x, 8), 8) == x) by (nonlinear_arith)
        requires
            0 <= x < 256,
    ;
}

/// A byte made of flags gives the flags back.
proof fn lemma_byte_of_flags(f7: bool, f6: bool, f5: bool, f4: bool, f3: bool)
    ensures
        ({
            let x = (bit_of(f7, 128) + bit_of(f6, 64) + bit_of(f5, 32) + bit_of(f4, 16) + bit_of(
                f3,
                8,
            )) as u8;
            &&& bit_set(x, 128) == f7
            &&& bit_set(x, 64) == f6
            &&& bit_set(x, 32) == f5
            &&& bit_set(x, 16) == f4
            &&& bit_set(x, 8) == f3
        }),
{
}

proof fn lemma_rreq_wire_of_decoded(b: Seq<u8>)
    requires
        b.len() == 24,
        b[0] == 1,
        b[1] % 8 == 0,
        b[2] == 0,
    ensures
        RREQ::decoded(b).wire() == b,
{
    let m = RREQ::decoded(b);
    lemma_word_round_trip(b, 4);
    lemma_word_round_trip(b, 8);
    lemma_word_round_trip(b, 12);
    lemma_word_round_trip(b, 16);
    lemma_word_round_trip(b, 20);
    lemma_flags_of_byte(b[1]);
    assert(m.flag_byte() == b[1]);
    let head = seq![1u8, m.flag_byte(), 0u8, m.hop_count];
    assert(head =~= b.subrange(0, 4));
    assert(m.wire() == b.subrange(0, 4) + b.subrange(4, 8) + b.subrange(8, 12) + b.subrange(
        12,
        16,
    ) + b.subrange(16, 20) + b.subrange(20, 24));
    assert(m.wire() =~= b);
}

proof fn lemma_rrep_wire_of_decoded(b: Seq<u8>)
    requires
        b.len() == 20,
        b[0] == 2,
        b[1] % 64 == 0,
        b[2] < 32,
    ensures
        RREP::decoded(b).wire() == b,
{
    let m = RREP::decoded(b);
    lemma_word_round_trip(b, 4);
    lemma_word_round_trip(b, 8);
    lemma_word_round_trip(b, 12);
    lemma_word_round_trip(b, 16);
    lemma_flags_of_byte(b[1]);
    assert(m.flag_byte() == b[1]);
    let head = seq![2u8, m.flag_byte(), (m.prefix_size % 32) as u8, m.hop_count];
    assert(head =~= b.subrange(0, 4));
    assert(m.wire() == b.subrange(0, 4) + b.subrange(4, 8) + b.subrange(8, 12) + b.subrange(
        12,
        16,
    ) + b.subrange(16, 20));
    assert(m.wire() =~= b);
}

/// The bytes of a list of destinations taken out of a buffer are the bytes of
/// the buffer behind its header.
proof fn lemma_udest_bytes_of_list(b: Seq<u8>)
    requires
        RERR::length_fits(b),
    ensures
        udest_list_bytes(udest_list_of(b)) == b.subrange(4, b.len() as int),
{
    let list = udest_list_of(b);
    let body = b.subrange(4, b.len() as int);
    assert forall|i: int| 0 <= i < 8 * list.len() implies #[trigger] udest_list_bytes(list)[i]
        == body[i] by {
        let k = i / 8;
        let r = i % 8;
        lemma_word_round_trip(b, 4 + 8 * k);
        lemma_word_round_trip(b, 8 + 8 * k);
        assert(list[k] == udest_at(b, 4 + 8 * k));
        let lo = b.subrange(4 + 8 * k, 8 + 8 * k);
        let hi = b.subrange(8 + 8 * k, 12 + 8 * k);
        assert(udest_bytes(list[k]) == lo + hi);
        if r < 4 {
            assert((lo + hi)[r] == lo[r]);
        } else {
            assert((lo + hi)[r] == hi[r - 4]);
        }
    }
    assert(udest_list_bytes(list) =~= body);
}

proof fn lemma_rerr_wire_of_decoded(b: Seq<u8>)
    requires
        RERR::length_fits(b),
        b[0] == 3,
        b[1] % 128 == 0,
        b[2] == 0,
        b[3] == ((b.len() - 4) / 8) % 256,
    ensures
        RERR::decoded(b).wire() == b,
{
    let m = RERR::decoded(b);
    lemma_udest_bytes_of_list(b);
    lemma_flags_of_byte(b[1]);
    let head = seq![3u8, bit_of(m.n, 128) as u8, 0u8, (m.udest_list.len() % 256) as u8];
    assert(head =~= b.subrange(0, 4));
    assert(m.wire() =~= b);
}

/// Encoding what was decoded gives the buffer back, for every buffer that
/// parses and is canonical.
pub proof fn lemma_wire_of_parse(b: Seq<u8>)
    requires
        is_canonical(b),
        AodvMessage::parse_spec(b) is Ok,
    ensures
        AodvMessage::parse_spec(b)->Ok_0.wire() == b,
{
    if b[0] == 1 && b.len() == 24 {
        lemma_rreq_wire_of_decoded(b);
    } else if b[0] == 2 && b.len() == 20 {
        lemma_rrep_wire_of_decoded(b);
    } else if b[0] == 3 && b.len() % 4 == 0 {
        lemma_rerr_wire_of_decoded(b);
    } else {
        assert(seq![4u8, 0u8] =~= b);
    }
}

proof fn lemma_rreq_decoded_of_wire(r: RREQ)
    ensures
        r.wire().len() == 24,
        r.wire()[0] == 1,
        RREQ::decoded(r.wire()) == r,
{
    let b = r.wire();
    lemma_be_value_of_bytes(r.rreq_id);
    lemma_be_value_of_bytes(r.dest_ip.bits);
    lemma_be_value_of_bytes(r.dest_seq_num);
    lemma_be_value_of_bytes(r.orig_ip.bits);
    lemma_be_value_of_bytes(r.orig_seq_num);
    assert(b.len() == 24);
    lemma_word_read_back(b, 4, r.rreq_id);
    lemma_word_read_back(b, 8, r.dest_ip.bits);
    lemma_word_read_back(b, 12, r.dest_seq_num);
    lemma_word_read_back(b, 16, r.orig_ip.bits);
    lemma_word_read_back(b, 20, r.orig_seq_num);
    lemma_byte_of_flags(r.j, r.r, r.g, r.d, r.u);
    assert(b[1] == r.flag_byte());
    assert(b[3] == r.hop_count);
}

proof fn lemma_rrep_decoded_of_wire(r: RREP)
    requires
        r.wf(),
    ensures
        r.wire().len() == 20,
        r.wire()[0] == 2,
        RREP::decoded(r.wire()) == r,
{
    let b = r.wire();
    lemma_be_value_of_bytes(r.dest_ip.bits);
    lemma_be_value_of_bytes(r.dest_seq_num);
    lemma_be_value_of_bytes(r.orig_ip.bits);
    lemma_be_value_of_bytes(r.lifetime);
    assert(b.len() == 20);
    lemma_word_read_back(b, 4, r.dest_ip.bits);
    lemma_word_read_back(b, 8, r.dest_seq_num);
    lemma_word_read_back(b, 12, r.orig_ip.bits);
    lemma_word_read_back(b, 16, r.lifetime);
    lemma_byte_of_flags(r.r, r.a, false, false, false);
    assert(b[1] == r.flag_byte());
    assert(b[2] == r.prefix_size);
    assert(b[3] == r.hop_count);
}

proof fn lemma_rerr_decoded_of_wire(e: RerrView)
    requires
        e.wf(),
    ensures
        RERR::length_fits(e.wire()),
        e.wire()[0] == 3,
        RERR::decoded(e.wire()) == e,
{
    let b = e.wire();
    let list = e.udest_list;
    assert(b.len() == 4 + 8 * list.len());
    assert forall|k: int| 0 <= k < list.len() implies #[trigger] udest_at(b, 4 + 8 * k)
        == list[k] by {
        lemma_be_value_of_bytes(list[k].0.bits);
        lemma_be_value_of_bytes(list[k].1);
        let entry = udest_bytes(list[k]);
        assert(entry.len() == 8);
        assert forall|x: int| 0 <= x < 8 implies b[4 + 8 * k + x] == entry[x] by {
            assert((8 * k + x) / 8 == k);
            assert((8 * k + x) % 8 == x);
            assert(b[4 + 8 * k + x] == udest_list_bytes(list)[8 * k + x]);
        }
        assert(b.subrange(4 + 8 * k, 8 + 8 * k) =~= be_bytes_of(list[k].0.bits));
        assert(b.subrange(8 + 8 * k, 12 + 8 * k) =~= be_bytes_of(list[k].1));
        lemma_word_read_back(b, 4 + 8 * k, list[k].0.bits);
        lemma_word_read_back(b, 8 + 8 * k, list[k].1);
    }
    assert(udest_list_of(b) =~= list);
    lemma_byte_of_flags(e.n, false, false, false, false);
    assert(b[1] == bit_of(e.n, 128) as u8);
}

/// Decoding what was encoded gives the message back, for every well-formed
/// message but a hello message, which comes back as the route reply it is on
/// the wire.
pub proof fn lemma_parse_of_wire(m: MessageView)
    requires
        m.wf(),
        !(m is Hello),
    ensures
        AodvMessage::parse_spec(m.wire()) == Ok::<MessageView, ParseError>(m),
{
    match m {
        MessageView::Rreq(r) => {
            lemma_rreq_decoded_of_wire(r);
        },
        MessageView::Rrep(r) => {
            lemma_rrep_decoded_of_wire(r);
        },
        MessageView::Rerr(e) => {
            lemma_rerr_decoded_of_wire(e);
        },
        MessageView::Hello(_) => {},
        MessageView::Ack => {},
    }
}

/// A hello message travels as the route reply it holds, and is read back as one.
pub proof fn lemma_hello_parses_as_reply(r: RREP)
    requires
        r.wf(),
    ensures
        AodvMessage::parse_spec(MessageView::Hello(r).wire()) == Ok::<MessageView, ParseError>(
            MessageView::Rrep(r),
        ),
{
    lemma_rrep_decoded_of_wire(r);
}

} // verus!
