use vstd::prelude::*;
use vstd::string::StringExecFns;

verus! {

/// The length of an Ethernet header: two hardware addresses and a type field.
pub const MAC_HEADER_LEN: usize = 14;

/// The length of a frame that holds an Ethernet header and a minimal IPv4
/// header, without options.
pub const IPV4_FRAME_MIN_LEN: usize = 34;

/// The link-layer type code of IPv4.
pub const ETHERTYPE_IPV4: u16 = 0x0800;

/// Relies on `String::push`: the character is appended at the end.
#[verifier::external_body]
fn push_char(s: &mut String, c: char)
    ensures
        final(s)@ == old(s)@.push(c),
{
    s.push(c)
}

/// The lower-case hexadecimal digit of `d`, for `d` below 16.
pub open spec fn hex_digit(d: int) -> char {
    if d < 10 {
        (48 + d) as char
    } else {
        (87 + d) as char
    }
}

/// The decimal digit of `d`, for `d` below 10.
pub open spec fn dec_digit(d: int) -> char {
    (48 + d) as char
}

/// A byte as two hexadecimal digits.
pub open spec fn hex_octet(b: u8) -> Seq<char> {
    let v = b as int;
    seq![hex_digit(v / 16), hex_digit(v % 16)]
}

/// A byte in decimal, without leading zeros.
pub open spec fn dec_octet(b: u8) -> Seq<char> {
    let v = b as int;
    if v >= 100 {
        seq![dec_digit(v / 100), dec_digit((v / 10) % 10), dec_digit(v % 10)]
    } else if v >= 10 {
        seq![dec_digit(v / 10), dec_digit(v % 10)]
    } else {
        seq![dec_digit(v)]
    }
}

fn hex_char(d: u8) -> (c: char)
    requires
        d < 16,
    ensures
        c == hex_digit(d as int),
{
    if d < 10 {
        (48 + d) as char
    } else {
        (87 + d) as char
    }
}

fn dec_char(d: u8) -> (c: char)
    requires
        d < 10,
    ensures
        c == dec_digit(d as int),
{
    (48 + d) as char
}

fn push_hex_octet(s: &mut String, b: u8)
    ensures
        final(s)@ == old(s)@ + hex_octet(b),
{
    push_char(s, hex_char(b / 16));
    push_char(s, hex_char(b % 16));
    assert(s@ =~= old(s)@ + hex_octet(b));
}

fn push_dec_octet(s: &mut String, b: u8)
    ensures
        final(s)@ == old(s)@ + dec_octet(b),
{
    if b >= 100 {
        push_char(s, dec_char(b / 100));
        push_char(s, dec_char((b / 10) % 10));
    } else if b >= 10 {
        push_char(s, dec_char(b / 10));
    }
    push_char(s, dec_char(b % 10));
    assert(s@ =~= old(s)@ + dec_octet(b));
}

/// A 6-byte hardware address, in the order in which it is sent.
#[derive(Clone, Copy, Debug, PartialEq, Eq, Structural)]
pub struct MacAddress(pub u8, pub u8, pub u8, pub u8, pub u8, pub u8);

/// A hardware address as six two-digit hexadecimal octets joined by colons.
pub open spec fn mac_text(m: MacAddress) -> Seq<char> {
    hex_octet(m.0) + seq![':'] + hex_octet(m.1) + seq![':'] + hex_octet(m.2) + seq![':'] + hex_octet(
        m.3,
    ) + seq![':'] + hex_octet(m.4) + seq![':'] + hex_octet(m.5)
}

fn push_mac(s: &mut String, m: &MacAddress)
    ensures
        final(s)@ == old(s)@ + mac_text(*m),
{
    push_hex_octet(s, m.0);
    push_char(s, ':');
    push_hex_octet(s, m.1);
    push_char(s, ':');
    push_hex_octet(s, m.2);
    push_char(s, ':');
    push_hex_octet(s, m.3);
    push_char(s, ':');
    push_hex_octet(s, m.4);
    push_char(s, ':');
    push_hex_octet(s, m.5);
    assert(s@ =~= old(s)@ + mac_text(*m));
}

impl MacAddress {
    /// The address read from the six bytes of `b` at `at`.
    pub fn from_bytes(b: &[u8], at: usize) -> (r: MacAddress)
        requires
            at + 6 <= b@.len(),
        ensures
            r == MacAddress(
                b@[at as int],
                b@[at + 1],
                b@[at + 2],
                b@[at + 3],
                b@[at + 4],
                b@[at + 5],
            ),
    {
        MacAddress(b[at], b[at + 1], b[at + 2], b[at + 3], b[at + 4], b[at + 5])
    }

    /// The address as colon-separated hexadecimal octets.
    pub fn to_string(&self) -> (r: String)
        ensures
            r@ == mac_text(*self),
    {
        let mut s = String::new();
        push_mac(&mut s, self);
        assert(s@ =~= mac_text(*self));
        s
    }
}

/// A 4-byte IPv4 address, in the order in which it is sent.
#[derive(Clone, Copy, Debug, PartialEq, Eq, Structural)]
pub struct IPv4Address(pub u8, pub u8, pub u8, pub u8);

/// An IPv4 address in dotted-decimal form.
pub open spec fn ipv4_text(a: IPv4Address) -> Seq<char> {
    dec_octet(a.0) + seq!['.'] + dec_octet(a.1) + seq!['.'] + dec_octet(a.2) + seq!['.'] + dec_octet(
        a.3,
    )
}

fn push_ipv4(s: &mut String, a: &IPv4Address)
    ensures
        final(s)@ == old(s)@ + ipv4_text(*a),
{
    push_dec_octet(s, a.0);
    push_char(s, '.');
    push_dec_octet(s, a.1);
    push_char(s, '.');
    push_dec_octet(s, a.2);
    push_char(s, '.');
    push_dec_octet(s, a.3);
    assert(s@ =~= old(s)@ + ipv4_text(*a));
}

impl IPv4Address {
    /// The address read from the four bytes of `b` at `at`.
    pub fn from_bytes(b: &[u8], at: usize) -> (r: IPv4Address)
        requires
            at + 4 <= b@.len(),
        ensures
            r == IPv4Address(b@[at as int], b@[at + 1], b@[at + 2], b@[at + 3]),
    {
        IPv4Address(b[at], b[at + 1], b[at + 2], b[at + 3])
    }

    /// The address in dotted-decimal form.
    pub fn to_string(&self) -> (r: String)
        ensures
            r@ == ipv4_text(*self),
    {
        let mut s = String::new();
        push_ipv4(&mut s, self);
        assert(s@ =~= ipv4_text(*self));
        s
    }
}

/// The big-endian 16-bit value of the bytes `hi` and `lo`.
pub open spec fn be_u16(hi: u8, lo: u8) -> u16 {
    (hi as int * 256 + lo as int) as u16
}

/// The name under which a link-layer type code is shown.
pub open spec fn ethertype_name(t: u16) -> Seq<char> {
    if t == ETHERTYPE_IPV4 {
        "IPv4"@
    } else {
        "Unknown"@
    }
}

/// The Ethernet header at the front of a frame.
#[derive(Clone, Copy, Debug, PartialEq, Eq, Structural)]
pub struct MacHeader {
    pub dst: MacAddress,
    pub src: MacAddress,
    /// The type field, in host order.
    pub ethertype: u16,
}

/// The Ethernet header that the first 14 bytes of `f` hold.
pub open spec fn mac_header_of(f: Seq<u8>) -> MacHeader {
    MacHeader {
        dst: MacAddress(f[0], f[1], f[2], f[3], f[4], f[5]),
        src: MacAddress(f[6], f[7], f[8], f[9], f[10], f[11]),
        ethertype: be_u16(f[12], f[13]),
    }
}

/// A header as "Type <name>. <source> -> <destination>".
pub open spec fn mac_header_text(h: MacHeader) -> Seq<char> {
    "Type "@ + ethertype_name(h.ethertype) + ". "@ + mac_text(h.src) + " -> "@ + mac_text(h.dst)
}

impl MacHeader {
    /// Reads the Ethernet header at the front of `frame`; `None` where the
    /// frame is shorter than a header.
    pub fn parse(frame: &[u8]) -> (r: Option<MacHeader>)
        ensures
            frame@.len() < MAC_HEADER_LEN ==> r is None,
            frame@.len() >= MAC_HEADER_LEN ==> r == Some(mac_header_of(frame@)),
    {
        if frame.len() < MAC_HEADER_LEN {
            return None;
        }
        let dst = MacAddress::from_bytes(frame, 0);
        let src = MacAddress::from_bytes(frame, 6);
        let ethertype = (frame[12] as u16) * 256 + frame[13] as u16;
        Some(MacHeader { dst, src, ethertype })
    }

    /// The link-layer type code.
    pub fn ethertype(&self) -> (r: u16)
        ensures
            r == self.ethertype,
    {
        self.ethertype
    }

    /// Whether the type code announces an IPv4 packet.
    pub fn is_ipv4(&self) -> (r: bool)
        ensures
            r == (self.ethertype == ETHERTYPE_IPV4),
    {
        self.ethertype == ETHERTYPE_IPV4
    }

    /// "IPv4" for the IPv4 type code, "Unknown" for any other.
    pub fn ethertype_string(&self) -> (r: &'static str)
        ensures
            r@ == ethertype_name(self.ethertype),
    {
        if self.ethertype == ETHERTYPE_IPV4 {
            "IPv4"
        } else {
            "Unknown"
        }
    }

    /// The header as "Type <name>. <source> -> <destination>".
    pub fn to_string(&self) -> (r: String)
        ensures
            r@ == mac_header_text(*self),
    {
        let mut s = String::from_str("Type ");
        s.append(self.ethertype_string());
        s.append(". ");
        push_mac(&mut s, &self.src);
        s.append(" -> ");
        push_mac(&mut s, &self.dst);
        s
    }
}

/// The addresses of a minimal IPv4 header, one without options.
#[derive(Clone, Copy, Debug, PartialEq, Eq, Structural)]
pub struct IPv4Header {
    pub src: IPv4Address,
    pub dst: IPv4Address,
}

/// The IPv4 addresses that a frame holds behind its Ethernet header.
pub open spec fn ipv4_header_of(f: Seq<u8>) -> IPv4Header {
    IPv4Header {
        src: IPv4Address(f[26], f[27], f[28], f[29]),
        dst: IPv4Address(f[30], f[31], f[32], f[33]),
    }
}

/// A header as "<source> -> <destination>".
pub open spec fn ipv4_header_text(h: IPv4Header) -> Seq<char> {
    ipv4_text(h.src) + " -> "@ + ipv4_text(h.dst)
}

impl IPv4Header {
    /// Reads the addresses of the IPv4 header behind the Ethernet header of
    /// `frame`; `None` where the frame is too short to hold them.
    pub fn parse(frame: &[u8]) -> (r: Option<IPv4Header>)
        ensures
            frame@.len() < IPV4_FRAME_MIN_LEN ==> r is None,
            frame@.len() >= IPV4_FRAME_MIN_LEN ==> r == Some(ipv4_header_of(frame@)),
    {
        if frame.len() < IPV4_FRAME_MIN_LEN {
            return None;
        }
        let src = IPv4Address::from_bytes(frame, 26);
        let dst = IPv4Address::from_bytes(frame, 30);
        Some(IPv4Header { src, dst })
    }

    /// The header as "<source> -> <destination>".
    pub fn to_string(&self) -> (r: String)
        ensures
            r@ == ipv4_header_text(*self),
    {
        let mut s = String::new();
        push_ipv4(&mut s, &self.src);
        s.append(" -> ");
        push_ipv4(&mut s, &self.dst);
        assert(s@ =~= ipv4_header_text(*self));
        s
    }
}

/// The headers that a frame shows: its Ethernet header where it holds one,
/// and behind it the IPv4 addresses where the type code is IPv4 and the
/// frame is long enough. Reading them never fails: a frame too short for a
/// header is left uninterpreted.
pub open spec fn frame_headers_of(f: Seq<u8>) -> (Option<MacHeader>, Option<IPv4Header>) {
    if f.len() < MAC_HEADER_LEN {
        (None, None)
    } else if mac_header_of(f).ethertype == ETHERTYPE_IPV4 && f.len() >= IPV4_FRAME_MIN_LEN {
        (Some(mac_header_of(f)), Some(ipv4_header_of(f)))
    } else {
        (Some(mac_header_of(f)), None)
    }
}

/// Reads the headers at the front of `frame`, for display.
pub fn frame_headers(frame: &[u8]) -> (r: (Option<MacHeader>, Option<IPv4Header>))
    ensures
        r == frame_headers_of(frame@),
{
    match MacHeader::parse(frame) {
        None => (None, None),
        Some(mac) => {
            if mac.is_ipv4() {
                (Some(mac), IPv4Header::parse(frame))
            } else {
                (Some(mac), None)
            }
        },
    }
}

/// A type field classifies as IPv4 exactly when its two bytes, in network
/// order, are 0x08 and 0x00; every other pair classifies as unknown.
pub proof fn lemma_ipv4_type_bytes(hi: u8, lo: u8)
    ensures
        (be_u16(hi, lo) == ETHERTYPE_IPV4) <==> (hi == 0x08 && lo == 0x00),
        ethertype_name(be_u16(hi, lo)) == (if hi == 0x08 && lo == 0x00 {
            "IPv4"@
        } else {
            "Unknown"@
        }),
{
}

} // verus!
