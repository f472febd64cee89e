//! The SOCKS5 address that opens every proxied stream:
//! `[ATYP (1 byte) | ADDR (variable) | PORT (2 bytes, big-endian)]`.
//!
//! `SocksAddrReader` reads it field by field: it names how many bytes it needs
//! next, and decides what to do with them once they have been read.
use vstd::prelude::*;
use vstd::utf8::{valid_utf8, decode_utf8, encode_utf8, encode_utf8_decode_utf8};

verus! {

/// Address type byte of an IPv4 address.
pub const ATYP_IPV4: u8 = 1;
/// Address type byte of a domain name.
pub const ATYP_DOMAIN: u8 = 3;
/// Address type byte of an IPv6 address.
pub const ATYP_IPV6: u8 = 4;

/// The host part of a SOCKS5 address.
#[derive(Debug, Clone, PartialEq, Eq)]
pub enum SocksHost {
    Ipv4([u8; 4]),
    Domain(String),
    Ipv6([u8; 16]),
}

/// A destination read from a stream.
#[derive(Debug, Clone, PartialEq, Eq)]
pub struct SocksAddr {
    pub host: SocksHost,
    pub port: u16,
}

/// The mathematical value of a host: the address bytes, or the domain's characters.
pub enum HostView {
    Ipv4(Seq<u8>),
    Domain(Seq<char>),
    Ipv6(Seq<u8>),
}

/// The mathematical value of a destination.
pub struct SocksAddrView {
    pub host: HostView,
    pub port: u16,
}

impl View for SocksHost {
    type V = HostView;

    open spec fn view(&self) -> HostView {
        match self {
            SocksHost::Ipv4(a) => HostView::Ipv4(a@),
            SocksHost::Domain(d) => HostView::Domain(d@),
            SocksHost::Ipv6(a) => HostView::Ipv6(a@),
        }
    }
}

impl View for SocksAddr {
    type V = SocksAddrView;

    open spec fn view(&self) -> SocksAddrView {
        SocksAddrView { host: self.host@, port: self.port }
    }
}

/// The field of the address that a read is for.
#[derive(Debug, Clone, Copy, PartialEq, Eq, Structural)]
pub enum SocksField {
    AddressType,
    Ipv4,
    DomainLength,
    Domain,
    Ipv6,
    Port,
}

/// Why an address could not be read.
#[derive(Debug, Clone, Copy, PartialEq, Eq, Structural)]
pub enum SocksAddrError {
    /// The stream ended before the field was complete.
    Truncated(SocksField),
    /// The address type byte is none of 1, 3 and 4.
    UnsupportedAddressType(u8),
    /// A domain name of length 0.
    InvalidDomainLength,
    /// A domain name that is not UTF-8: how many of its bytes are valid UTF-8 before
    /// the fault, and the length of the invalid sequence there (`None` where the
    /// name ends inside a character).
    InvalidDomainName { valid_up_to: usize, error_len: Option<usize> },
}

/// The length of the longest prefix of `s` that is valid UTF-8.
pub open spec fn valid_utf8_prefix_len(s: Seq<u8>) -> nat
    decreases s.len(),
{
    if s.len() == 0 || valid_utf8(s) {
        s.len()
    } else {
        valid_utf8_prefix_len(s.drop_last())
    }
}

/// What `std::str::Utf8Error::error_len` reports for bytes that are not UTF-8.
pub uninterp spec fn utf8_error_len(bytes: Seq<u8>) -> Option<usize>;

/// The error for a domain name `name` that is not UTF-8.
pub open spec fn invalid_domain_name(name: Seq<u8>) -> SocksAddrError {
    SocksAddrError::InvalidDomainName {
        valid_up_to: valid_utf8_prefix_len(name) as usize,
        error_len: utf8_error_len(name),
    }
}

/// The big-endian number of two bytes.
pub open spec fn port_of(hi: u8, lo: u8) -> u16 {
    (hi * 256 + lo) as u16
}

/// A port is read big-endian: the first byte counts 256 times, the second once, as
/// plain integers (so bytes 0x20 0xFB give 8443), and every pair of bytes gives a
/// different port.
pub proof fn lemma_port_is_big_endian(hi: u8, lo: u8)
    ensures
        port_of(hi, lo) as int == 256 * (hi as int) + (lo as int),
        forall|h2: u8, l2: u8| #[trigger] port_of(h2, l2) == port_of(hi, lo) ==> h2 == hi && l2 == lo,
{
    assert forall|h2: u8, l2: u8| #[trigger] port_of(h2, l2) == port_of(hi, lo) implies h2 == hi
        && l2 == lo by {
        assert(port_of(h2, l2) as int == 256 * (h2 as int) + (l2 as int)) by (nonlinear_arith);
        assert(port_of(hi, lo) as int == 256 * (hi as int) + (lo as int)) by (nonlinear_arith);
        assert(h2 == hi && l2 == lo) by (nonlinear_arith)
            requires
                256 * (h2 as int) + (l2 as int) == 256 * (hi as int) + (lo as int),
                0 <= l2 < 256,
                0 <= lo < 256,
        ;
    }
}

/// What a complete stream `s` (followed by its end) yields as a destination, and how
/// many of its bytes the destination takes.
///
/// The address type is read with a single read into a zeroed byte, so a stream that
/// is already at its end reads as address type 0.
pub open spec fn spec_parse_socks_addr(s: Seq<u8>) -> Result<(SocksAddrView, nat), SocksAddrError> {
    let atyp: u8 = if s.len() == 0 { 0 } else { s[0] };
    let rest = if s.len() == 0 { s } else { s.skip(1) };
    let head: nat = if s.len() == 0 { 0 } else { 1 };
    if atyp == ATYP_IPV4 {
        if rest.len() < 4 {
            Err(SocksAddrError::Truncated(SocksField::Ipv4))
        } else {
            spec_parse_port(HostView::Ipv4(rest.take(4)), rest.skip(4), head + 4)
        }
    } else if atyp == ATYP_DOMAIN {
        if rest.len() < 1 {
            Err(SocksAddrError::Truncated(SocksField::DomainLength))
        } else {
            let len = rest[0];
            if len == 0 {
                Err(SocksAddrError::InvalidDomainLength)
            } else if rest.len() < 1 + len {
                Err(SocksAddrError::Truncated(SocksField::Domain))
            } else {
                let name = rest.subrange(1, 1 + len);
                if !valid_utf8(name) {
                    Err(invalid_domain_name(name))
                } else {
                    spec_parse_port(
                        HostView::Domain(decode_utf8(name)),
                        rest.skip(1 + len),
                        head + 1 + len as nat,
                    )
                }
            }
        }
    } else if atyp == ATYP_IPV6 {
        if rest.len() < 16 {
            Err(SocksAddrError::Truncated(SocksField::Ipv6))
        } else {
            spec_parse_port(HostView::Ipv6(rest.take(16)), rest.skip(16), head + 16)
        }
    } else {
        Err(SocksAddrError::UnsupportedAddressType(atyp))
    }
}

/// The port that follows a host, `used` bytes into the stream.
pub open spec fn spec_parse_port(host: HostView, s: Seq<u8>, used: nat) -> Result<
    (SocksAddrView, nat),
    SocksAddrError,
> {
    if s.len() < 2 {
        Err(SocksAddrError::Truncated(SocksField::Port))
    } else {
        Ok((SocksAddrView { host, port: port_of(s[0], s[1]) }, used + 2))
    }
}

/// Where a reader stands: which field it reads next.
#[derive(Debug, Clone, PartialEq, Eq)]
pub enum SocksAddrReader {
    AddressType,
    Ipv4,
    Ipv6,
    DomainLength,
    Domain(u8),
    Port(SocksHost),
}

/// The mathematical value of a reader's position.
pub enum ReaderView {
    AddressType,
    Ipv4,
    Ipv6,
    DomainLength,
    Domain(u8),
    Port(HostView),
}

impl View for SocksAddrReader {
    type V = ReaderView;

    open spec fn view(&self) -> ReaderView {
        match self {
            SocksAddrReader::AddressType => ReaderView::AddressType,
            SocksAddrReader::Ipv4 => ReaderView::Ipv4,
            SocksAddrReader::Ipv6 => ReaderView::Ipv6,
            SocksAddrReader::DomainLength => ReaderView::DomainLength,
            SocksAddrReader::Domain(n) => ReaderView::Domain(*n),
            SocksAddrReader::Port(h) => ReaderView::Port(h@),
        }
    }
}

/// What the reader decides after a field has been read.
#[derive(Debug, Clone, PartialEq, Eq)]
pub enum SocksRead {
    /// Read the next field.
    Next(SocksAddrReader),
    /// The address is complete.
    Done(SocksAddr),
    /// The address is refused.
    Failed(SocksAddrError),
}

/// The mathematical value of a decision.
pub enum SocksReadView {
    Next(ReaderView),
    Done(SocksAddrView),
    Failed(SocksAddrError),
}

impl View for SocksRead {
    type V = SocksReadView;

    open spec fn view(&self) -> SocksReadView {
        match self {
            SocksRead::Next(r) => SocksReadView::Next(r@),
            SocksRead::Done(a) => SocksReadView::Done(a@),
            SocksRead::Failed(e) => SocksReadView::Failed(*e),
        }
    }
}

/// How many bytes the reader reads next.
pub open spec fn spec_need(r: ReaderView) -> nat {
    match r {
        ReaderView::AddressType => 1,
        ReaderView::Ipv4 => 4,
        ReaderView::Ipv6 => 16,
        ReaderView::DomainLength => 1,
        ReaderView::Domain(n) => n as nat,
        ReaderView::Port(_) => 2,
    }
}

/// The field that the reader reads next.
pub open spec fn spec_field(r: ReaderView) -> SocksField {
    match r {
        ReaderView::AddressType => SocksField::AddressType,
        ReaderView::Ipv4 => SocksField::Ipv4,
        ReaderView::Ipv6 => SocksField::Ipv6,
        ReaderView::DomainLength => SocksField::DomainLength,
        ReaderView::Domain(_) => SocksField::Domain,
        ReaderView::Port(_) => SocksField::Port,
    }
}

/// The decision on the bytes `chunk` read for the reader's next field.
pub open spec fn spec_advance(r: ReaderView, chunk: Seq<u8>) -> SocksReadView {
    match r {
        ReaderView::AddressType => {
            let atyp = chunk[0];
            if atyp == ATYP_IPV4 {
                SocksReadView::Next(ReaderView::Ipv4)
            } else if atyp == ATYP_DOMAIN {
                SocksReadView::Next(ReaderView::DomainLength)
            } else if atyp == ATYP_IPV6 {
                SocksReadView::Next(ReaderView::Ipv6)
            } else {
                SocksReadView::Failed(SocksAddrError::UnsupportedAddressType(atyp))
            }
        },
        ReaderView::Ipv4 => SocksReadView::Next(ReaderView::Port(HostView::Ipv4(chunk))),
        ReaderView::Ipv6 => SocksReadView::Next(ReaderView::Port(HostView::Ipv6(chunk))),
        ReaderView::DomainLength => {
            if chunk[0] == 0 {
                SocksReadView::Failed(SocksAddrError::InvalidDomainLength)
            } else {
                SocksReadView::Next(ReaderView::Domain(chunk[0]))
            }
        },
        ReaderView::Domain(_) => {
            if valid_utf8(chunk) {
                SocksReadView::Next(ReaderView::Port(HostView::Domain(decode_utf8(chunk))))
            } else {
                SocksReadView::Failed(invalid_domain_name(chunk))
            }
        },
        ReaderView::Port(h) => SocksReadView::Done(
            SocksAddrView { host: h, port: port_of(chunk[0], chunk[1]) },
        ),
    }
}

/// How many reads a reader still has ahead of it, at most.
pub open spec fn reader_rank(r: ReaderView) -> nat {
    match r {
        ReaderView::AddressType => 3,
        ReaderView::DomainLength => 2,
        ReaderView::Ipv4 => 1,
        ReaderView::Ipv6 => 1,
        ReaderView::Domain(_) => 1,
        ReaderView::Port(_) => 0,
    }
}

/// What a reader at `r` ends in when every read is answered from the stream `s`,
/// `used` bytes of the stream having been read before.
///
/// The address type is read with a single read into a zeroed byte, which stays 0
/// at the end of the stream; every other field is read exactly, and a stream that
/// ends first leaves the field truncated.
pub open spec fn spec_run_reader(r: ReaderView, s: Seq<u8>, used: nat) -> Result<
    (SocksAddrView, nat),
    SocksAddrError,
>
    decreases reader_rank(r),
{
    let at_type = r is AddressType;
    if !at_type && s.len() < spec_need(r) {
        Err(SocksAddrError::Truncated(spec_field(r)))
    } else {
        let took: nat = if at_type && s.len() == 0 { 0 } else { spec_need(r) };
        let chunk = if at_type && s.len() == 0 { seq![0u8] } else { s.take(spec_need(r) as int) };
        match spec_advance(r, chunk) {
            SocksReadView::Next(next) => {
                spec_run_reader(next, s.skip(took as int), used + took)
            },
            SocksReadView::Done(a) => Ok((a, used + took)),
            SocksReadView::Failed(e) => Err(e),
        }
    }
}

/// Reading an address field by field, each read answered from the stream, gives
/// what the whole stream yields as a destination, and takes the same bytes.
pub proof fn lemma_reader_reads_socks_addr(s: Seq<u8>)
    ensures
        spec_run_reader(ReaderView::AddressType, s, 0) == spec_parse_socks_addr(s),
{
    reveal_with_fuel(spec_run_reader, 4);
    if s.len() > 0 {
        let rest = s.skip(1);
        assert(s.take(1) =~= seq![s[0]]);
        if s[0] == ATYP_DOMAIN && rest.len() >= 1 {
            assert(rest.take(1) =~= seq![rest[0]]);
            let len = rest[0];
            if len > 0 && rest.len() >= 1 + len {
                assert(rest.skip(1).take(len as int) =~= rest.subrange(1, 1 + len));
                assert(rest.skip(1).skip(len as int) =~= rest.skip(1 + len));
            }
        }
    }
}

/// Calls `String::from_utf8`, which accepts the bytes exactly when they are UTF-8,
/// and then holds those very bytes. Its error gives `Utf8Error::valid_up_to`, the
/// greatest length of a prefix that is valid UTF-8, and `Utf8Error::error_len`.
#[verifier::external_body]
fn utf8_string(bytes: Vec<u8>) -> (res: Result<String, (usize, Option<usize>)>)
    ensures
        res is Ok <==> valid_utf8(bytes@),
        res matches Ok(s) ==> encode_utf8(s@) == bytes@,
        res matches Err((v, l)) ==> v == valid_utf8_prefix_len(bytes@) && l == utf8_error_len(
            bytes@,
        ),
{
    match String::from_utf8(bytes) {
        Ok(s) => Ok(s),
        Err(e) => Err((e.utf8_error().valid_up_to(), e.utf8_error().error_len())),
    }
}

/// A fresh vector holding the bytes of a slice.
fn copy_to_vec(data: &[u8]) -> (res: Vec<u8>)
    ensures
        res@ == data@,
{
    let mut res: Vec<u8> = Vec::new();
    for i in 0..data.len()
        invariant
            res@ == data@.take(i as int),
    {
        res.push(data[i]);
        assert(data@.take(i + 1) =~= data@.take(i as int).push(data@[i as int]));
    }
    assert(data@.take(data@.len() as int) =~= data@);
    res
}

impl SocksAddrReader {
    /// A reader at the start of an address.
    pub fn new() -> (res: Self)
        ensures
            res@ == ReaderView::AddressType,
    {
        SocksAddrReader::AddressType
    }

    /// How many bytes to read for the next field.
    pub fn need(&self) -> (res: usize)
        ensures
            res == spec_need(self@),
    {
        match self {
            SocksAddrReader::AddressType => 1,
            SocksAddrReader::Ipv4 => 4,
            SocksAddrReader::Ipv6 => 16,
            SocksAddrReader::DomainLength => 1,
            SocksAddrReader::Domain(n) => *n as usize,
            SocksAddrReader::Port(_) => 2,
        }
    }

    /// The field that the next read is for.
    pub fn field(&self) -> (res: SocksField)
        ensures
            res == spec_field(self@),
    {
        match self {
            SocksAddrReader::AddressType => SocksField::AddressType,
            SocksAddrReader::Ipv4 => SocksField::Ipv4,
            SocksAddrReader::Ipv6 => SocksField::Ipv6,
            SocksAddrReader::DomainLength => SocksField::DomainLength,
            SocksAddrReader::Domain(_) => SocksField::Domain,
            SocksAddrReader::Port(_) => SocksField::Port,
        }
    }

    /// Decides on the bytes read for the next field.
    pub fn advance(self, chunk: &[u8]) -> (res: SocksRead)
        requires
            chunk@.len() == spec_need(self@),
        ensures
            res@ == spec_advance(self@, chunk@),
    {
        match self {
            SocksAddrReader::AddressType => {
                let atyp = chunk[0];
                if atyp == ATYP_IPV4 {
                    SocksRead::Next(SocksAddrReader::Ipv4)
                } else if atyp == ATYP_DOMAIN {
                    SocksRead::Next(SocksAddrReader::DomainLength)
                } else if atyp == ATYP_IPV6 {
                    SocksRead::Next(SocksAddrReader::Ipv6)
                } else {
                    SocksRead::Failed(SocksAddrError::UnsupportedAddressType(atyp))
                }
            },
            SocksAddrReader::Ipv4 => {
                let ip = [chunk[0], chunk[1], chunk[2], chunk[3]];
                assert(ip@ =~= chunk@);
                SocksRead::Next(SocksAddrReader::Port(SocksHost::Ipv4(ip)))
            },
            SocksAddrReader::Ipv6 => {
                let ip = [
                    chunk[0],
                    chunk[1],
                    chunk[2],
                    chunk[3],
                    chunk[4],
                    chunk[5],
                    chunk[6],
                    chunk[7],
                    chunk[8],
                    chunk[9],
                    chunk[10],
                    chunk[11],
                    chunk[12],
                    chunk[13],
                    chunk[14],
                    chunk[15],
                ];
                assert(ip@ =~= chunk@);
                SocksRead::Next(SocksAddrReader::Port(SocksHost::Ipv6(ip)))
            },
            SocksAddrReader::DomainLength => {
                if chunk[0] == 0 {
                    SocksRead::Failed(SocksAddrError::InvalidDomainLength)
                } else {
                    SocksRead::Next(SocksAddrReader::Domain(chunk[0]))
                }
            },
            SocksAddrReader::Domain(_) => {
                let bytes = copy_to_vec(chunk);
                match utf8_string(bytes) {
                    Ok(name) => {
                        proof {
                            encode_utf8_decode_utf8(name@);
                        }
                        SocksRead::Next(SocksAddrReader::Port(SocksHost::Domain(name)))
                    },
                    Err((valid_up_to, error_len)) => SocksRead::Failed(
                        SocksAddrError::InvalidDomainName { valid_up_to, error_len },
                    ),
                }
            },
            SocksAddrReader::Port(host) => {
                let port: u16 = (chunk[0] as u16) * 256 + (chunk[1] as u16);
                SocksRead::Done(SocksAddr { host, port })
            },
        }
    }
}

} // verus!
