//! DCC: the offers peers send over CTCP to chat or transfer files
//! directly, and the requests this client sends.
use vstd::prelude::*;

use crate::text::{
    ascii_upper, ascii_upper_range, chars_of, owned, parse_unsigned, push_decimal,
    push_str_chars, seq_eq, span_texts, spec_decimal, spec_parse_unsigned, string_of,
    string_of_range, word_spans, words,
};

verus! {

/// What a DCC offer is for.
#[derive(Debug, Clone, Copy, PartialEq, Eq, Structural)]
pub enum DccType {
    Chat,
    Send,
    Get,
}

/// An IP address: four octets, or an IPv6 address as one 128-bit number.
#[derive(Debug, Clone, Copy, PartialEq, Eq, Structural)]
pub enum IpAddress {
    V4(u8, u8, u8, u8),
    V6(u128),
}

/// A DCC offer received from a peer.
#[derive(Debug, Clone)]
pub struct DccOffer {
    pub kind: DccType,
    pub from: String,
    pub filename: Option<String>,
    pub address: IpAddress,
    pub port: u16,
    pub size: Option<u64>,
}

/// A DCC transfer in progress: who with, which file, how far along, and
/// when it started (milliseconds since the Unix epoch).
#[derive(Debug)]
pub struct DccTransfer {
    pub kind: DccType,
    pub peer: String,
    pub filename: Option<String>,
    pub bytes_transferred: u64,
    pub total_bytes: Option<u64>,
    pub started_at: i64,
}

/// What an offer says, with its texts as character sequences.
pub struct DccOfferModel {
    pub kind: DccType,
    pub from: Seq<char>,
    pub filename: Option<Seq<char>>,
    pub address: IpAddress,
    pub port: u16,
    pub size: Option<u64>,
}

pub open spec fn opt_seq(o: Option<String>) -> Option<Seq<char>> {
    match o {
        Some(s) => Some(s@),
        None => None,
    }
}

impl View for DccOffer {
    type V = DccOfferModel;

    open spec fn view(&self) -> DccOfferModel {
        DccOfferModel {
            kind: self.kind,
            from: self.from@,
            filename: opt_seq(self.filename),
            address: self.address,
            port: self.port,
            size: self.size,
        }
    }
}

/// The IPv4 address DCC writes as the number `n`: its low 32 bits, most
/// significant octet first.
pub open spec fn spec_ip_from_long(n: int) -> IpAddress {
    let v = n % 0x1_0000_0000;
    IpAddress::V4(
        (v / 0x100_0000) as u8,
        ((v / 0x1_0000) % 0x100) as u8,
        ((v / 0x100) % 0x100) as u8,
        (v % 0x100) as u8,
    )
}

/// The number DCC writes for an address; an IPv6 address has none, and is
/// written as 0.
pub open spec fn spec_ip_to_long(a: IpAddress) -> int {
    match a {
        IpAddress::V4(a, b, c, d) => a * 0x100_0000 + b * 0x1_0000 + c * 0x100 + d,
        IpAddress::V6(_) => 0,
    }
}

/// The IPv4 address for a DCC address number (its low 32 bits count).
pub fn ip_from_long(long: u64) -> (r: IpAddress)
    ensures
        r == spec_ip_from_long(long as int),
{
    let v: u64 = long % 0x1_0000_0000;
    IpAddress::V4(
        (v / 0x100_0000) as u8,
        ((v / 0x1_0000) % 0x100) as u8,
        ((v / 0x100) % 0x100) as u8,
        (v % 0x100) as u8,
    )
}

/// The DCC address number of an address; 0 for IPv6.
pub fn ip_to_long(addr: IpAddress) -> (r: u64)
    ensures
        r == spec_ip_to_long(addr),
        r < 0x1_0000_0000,
{
    match addr {
        IpAddress::V4(a, b, c, d) => a as u64 * 0x100_0000 + b as u64 * 0x1_0000 + c as u64 * 0x100
            + d as u64,
        IpAddress::V6(_) => 0,
    }
}

/// Writing an IPv4 address as a DCC number and reading it back gives the
/// address.
pub proof fn lemma_ip_round_trip(a: u8, b: u8, c: u8, d: u8)
    ensures
        spec_ip_from_long(spec_ip_to_long(IpAddress::V4(a, b, c, d))) == IpAddress::V4(a, b, c, d),
{
    let n = spec_ip_to_long(IpAddress::V4(a, b, c, d));
    let (ai, bi, ci, di) = (a as int, b as int, c as int, d as int);
    assert(n < 0x1_0000_0000 && n % 0x1_0000_0000 == n) by (nonlinear_arith)
        requires
            n == ai * 0x100_0000 + bi * 0x1_0000 + ci * 0x100 + di,
            0 <= ai < 256 && 0 <= bi < 256 && 0 <= ci < 256 && 0 <= di < 256,
    ;
    assert(n / 0x100_0000 == ai && (n / 0x1_0000) % 0x100 == bi && (n / 0x100) % 0x100 == ci && n
        % 0x100 == di) by (nonlinear_arith)
        requires
            n == ai * 0x100_0000 + bi * 0x1_0000 + ci * 0x100 + di,
            0 <= ai < 256 && 0 <= bi < 256 && 0 <= ci < 256 && 0 <= di < 256,
    ;
}

/// Reading a DCC number as an address and writing it back gives its low
/// 32 bits.
pub proof fn lemma_long_round_trip(n: nat)
    ensures
        spec_ip_to_long(spec_ip_from_long(n as int)) == n % 0x1_0000_0000,
{
    let v = n % 0x1_0000_0000;
    assert(v / 0x100_0000 * 0x100_0000 + ((v / 0x1_0000) % 0x100) * 0x1_0000 + ((v / 0x100) % 0x100)
        * 0x100 + v % 0x100 == v);
}

/// What [`DccOffer::parse`] reads from the parameters of a DCC request:
/// at least four words, the first `SEND` or `CHAT` in any case, then for
/// SEND the file name, address number, port and an optional size, and for
/// CHAT a word, the address number and the port.
pub open spec fn spec_dcc_parse(from: Seq<char>, params: Seq<char>) -> Option<DccOfferModel> {
    let ws = words(params);
    if ws.len() < 4 {
        None
    } else {
        let kind = ascii_upper(ws[0]);
        let ip = spec_parse_unsigned(ws[2], u64::MAX as int);
        let port = spec_parse_unsigned(ws[3], u16::MAX as int);
        if kind != "SEND"@ && kind != "CHAT"@ {
            None
        } else if ip is None || port is None {
            None
        } else if kind == "SEND"@ {
            Some(
                DccOfferModel {
                    kind: DccType::Send,
                    from,
                    filename: Some(ws[1]),
                    address: spec_ip_from_long(ip->0),
                    port: port->0 as u16,
                    size: if ws.len() > 4 {
                        match spec_parse_unsigned(ws[4], u64::MAX as int) {
                            Some(n) => Some(n as u64),
                            None => None,
                        }
                    } else {
                        None
                    },
                },
            )
        } else {
            Some(
                DccOfferModel {
                    kind: DccType::Chat,
                    from,
                    filename: None,
                    address: spec_ip_from_long(ip->0),
                    port: port->0 as u16,
                    size: None,
                },
            )
        }
    }
}

/// The CTCP text offering the file `filename` of `size` bytes at
/// `addr`:`port`.
pub open spec fn spec_send_request(filename: Seq<char>, addr: IpAddress, port: u16, size: u64) -> Seq<
    char,
> {
    "\x01DCC SEND "@ + filename + seq![' '] + spec_decimal(spec_ip_to_long(addr) as nat) + seq![' ']
        + spec_decimal(port as nat) + seq![' '] + spec_decimal(size as nat) + seq!['\x01']
}

/// The CTCP text offering a chat at `addr`:`port`.
pub open spec fn spec_chat_request(addr: IpAddress, port: u16) -> Seq<char> {
    "\x01DCC CHAT chat "@ + spec_decimal(spec_ip_to_long(addr) as nat) + seq![' '] + spec_decimal(
        port as nat,
    ) + seq!['\x01']
}

impl DccOffer {
    /// Reads the parameters of a DCC request from `from`.
    pub fn parse(from: &str, params: &str) -> (r: Option<DccOffer>)
        ensures
            match r {
                Some(o) => spec_dcc_parse(from@, params@) == Some(o@),
                None => spec_dcc_parse(from@, params@) is None,
            },
    {
        let v = chars_of(params);
        let parts = word_spans(&v);
        proof {
            assert(span_texts(v@, parts@).len() == parts@.len());
        }
        if parts.len() < 4 {
            return None;
        }
        let ghost ws = words(params@);
        proof {
            assert forall|k: int| 0 <= k < parts@.len() implies v@.subrange(
                parts@[k].0 as int,
                parts@[k].1 as int,
            ) == ws[k] by {
                assert(span_texts(v@, parts@)[k] == ws[k]);
            }
        }
        let (a0, b0) = parts[0];
        let kind = ascii_upper_range(&v, a0, b0);
        let send = chars_of("SEND");
        let chat = chars_of("CHAT");
        let is_send = seq_eq(&kind, &send);
        let is_chat = seq_eq(&kind, &chat);
        if !is_send && !is_chat {
            return None;
        }
        let (a2, b2) = parts[2];
        let ip = match parse_unsigned(&v, a2, b2, u64::MAX) {
            Some(n) => n,
            None => return None,
        };
        let (a3, b3) = parts[3];
        let port = match parse_unsigned(&v, a3, b3, 0xffff) {
            Some(n) => n as u16,
            None => return None,
        };
        if is_send {
            let (a1, b1) = parts[1];
            let filename = string_of_range(&v, a1, b1);
            let size = if parts.len() > 4 {
                let (a4, b4) = parts[4];
                parse_unsigned(&v, a4, b4, u64::MAX)
            } else {
                None
            };
            Some(
                DccOffer {
                    kind: DccType::Send,
                    from: owned(from),
                    filename: Some(filename),
                    address: ip_from_long(ip),
                    port,
                    size,
                },
            )
        } else {
            Some(
                DccOffer {
                    kind: DccType::Chat,
                    from: owned(from),
                    filename: None,
                    address: ip_from_long(ip),
                    port,
                    size: None,
                },
            )
        }
    }

    /// The CTCP text offering the file `filename` of `size` bytes at
    /// `addr`:`port`.
    pub fn send_request(filename: &str, addr: IpAddress, port: u16, size: u64) -> (r: String)
        ensures
            r@ == spec_send_request(filename@, addr, port, size),
    {
        let mut out: Vec<char> = Vec::new();
        push_str_chars(&mut out, "\x01DCC SEND ");
        push_str_chars(&mut out, filename);
        out.push(' ');
        push_decimal(&mut out, ip_to_long(addr));
        out.push(' ');
        push_decimal(&mut out, port as u64);
        out.push(' ');
        push_decimal(&mut out, size);
        out.push('\x01');
        string_of(&out)
    }

    /// The CTCP text offering a chat at `addr`:`port`.
    pub fn chat_request(addr: IpAddress, port: u16) -> (r: String)
        ensures
            r@ == spec_chat_request(addr, port),
    {
        let mut out: Vec<char> = Vec::new();
        push_str_chars(&mut out, "\x01DCC CHAT chat ");
        push_decimal(&mut out, ip_to_long(addr));
        out.push(' ');
        push_decimal(&mut out, port as u64);
        out.push('\x01');
        string_of(&out)
    }
}

/// The acknowledgement a receiver sends after `total` bytes: the low 32
/// bits of the count, most significant byte first.
pub fn dcc_ack(total: u64) -> (r: [u8; 4])
    ensures
        r@ == seq![
            ((total % 0x1_0000_0000) / 0x100_0000) as u8,
            ((total / 0x1_0000) % 0x100) as u8,
            ((total / 0x100) % 0x100) as u8,
            (total % 0x100) as u8,
        ],
{
    let v: u64 = total % 0x1_0000_0000;
    let r = [
        (v / 0x100_0000) as u8,
        ((total / 0x1_0000) % 0x100) as u8,
        ((total / 0x100) % 0x100) as u8,
        (total % 0x100) as u8,
    ];
    assert(r@ =~= seq![
        ((total % 0x1_0000_0000) / 0x100_0000) as u8,
        ((total / 0x1_0000) % 0x100) as u8,
        ((total / 0x100) % 0x100) as u8,
        (total % 0x100) as u8,
    ]);
    r
}

} // verus!
