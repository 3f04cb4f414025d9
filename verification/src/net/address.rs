//! Network addresses, as plain values.

use vstd::prelude::*;

use crate::text::{push_char, str_eq};

verus! {

/// An IPv4 address: its four octets, first octet first.
#[derive(Clone, Copy, Debug)]
pub struct Ipv4Addr {
    pub octets: [u8; 4],
}

/// An IPv6 address: its eight 16-bit segments, first segment first.
#[derive(Clone, Copy, Debug)]
pub struct Ipv6Addr {
    pub segments: [u16; 8],
}

/// An IP address of either version.
#[derive(Clone, Copy, Debug)]
pub enum IpAddr {
    V4(Ipv4Addr),
    V6(Ipv6Addr),
}

/// An IP address and a port.
#[derive(Clone, Copy, Debug)]
pub struct SocketAddr {
    pub ip: IpAddr,
    pub port: u16,
}

impl Ipv4Addr {
    /// The address `a.b.c.d`.
    pub fn new(a: u8, b: u8, c: u8, d: u8) -> (addr: Ipv4Addr)
        ensures
            addr.octets@ == seq![a, b, c, d],
    {
        let addr = Ipv4Addr { octets: [a, b, c, d] };
        assert(addr.octets@ =~= seq![a, b, c, d]);
        addr
    }

    /// Whether two addresses hold the same octets.
    pub fn same(&self, other: &Ipv4Addr) -> (same: bool)
        ensures
            same == (self.octets@ == other.octets@),
    {
        let same = self.octets[0] == other.octets[0] && self.octets[1] == other.octets[1]
            && self.octets[2] == other.octets[2] && self.octets[3] == other.octets[3];
        proof {
            if same {
                assert(self.octets@ =~= other.octets@);
            }
        }
        same
    }
}

impl Ipv6Addr {
    /// The address with the given segments.
    pub fn new(segments: [u16; 8]) -> (addr: Ipv6Addr)
        ensures
            addr.segments == segments,
    {
        Ipv6Addr { segments }
    }

    /// Whether two addresses hold the same segments.
    pub fn same(&self, other: &Ipv6Addr) -> (same: bool)
        ensures
            same == (self.segments@ == other.segments@),
    {
        let mut i: usize = 0;
        while i < 8
            invariant
                i <= 8,
                forall|j: int| 0 <= j < i ==> self.segments@[j] == other.segments@[j],
            decreases 8 - i,
        {
            if self.segments[i] != other.segments[i] {
                return false;
            }
            i += 1;
        }
        assert(self.segments@ =~= other.segments@);
        true
    }
}

/// What an IP address holds.
pub ghost enum IpAddrView {
    V4(Seq<u8>),
    V6(Seq<u16>),
}

impl View for IpAddr {
    type V = IpAddrView;

    open spec fn view(&self) -> IpAddrView {
        match self {
            IpAddr::V4(v4) => IpAddrView::V4(v4.octets@),
            IpAddr::V6(v6) => IpAddrView::V6(v6.segments@),
        }
    }
}

impl IpAddr {
    /// Whether two addresses are of the same version and hold the same
    /// numbers.
    pub fn same(&self, other: &IpAddr) -> (same: bool)
        ensures
            same == (self@ == other@),
    {
        match (self, other) {
            (IpAddr::V4(a), IpAddr::V4(b)) => a.same(b),
            (IpAddr::V6(a), IpAddr::V6(b)) => a.same(b),
            _ => false,
        }
    }
}

impl SocketAddr {
    /// The socket address of `ip` and `port`.
    pub fn new(ip: IpAddr, port: u16) -> (addr: SocketAddr)
        ensures
            addr.ip == ip,
            addr.port == port,
    {
        SocketAddr { ip, port }
    }

    /// The IP address of this socket address.
    pub fn ip(&self) -> (ip: IpAddr)
        ensures
            ip == self.ip,
    {
        self.ip
    }

    /// The port of this socket address.
    pub fn port(&self) -> (port: u16)
        ensures
            port == self.port,
    {
        self.port
    }
}

/// The host of an endpoint: a name still to be resolved, or an IP address.
#[derive(Debug)]
pub enum AddressKind {
    Name(String),
    Ip(IpAddr),
}

/// What the host of an endpoint holds.
pub ghost enum AddressKindView {
    Name(Seq<char>),
    Ip(IpAddrView),
}

impl View for AddressKind {
    type V = AddressKindView;

    open spec fn view(&self) -> AddressKindView {
        match self {
            AddressKind::Name(name) => AddressKindView::Name(name@),
            AddressKind::Ip(ip) => AddressKindView::Ip(ip@),
        }
    }
}

impl Clone for AddressKind {
    fn clone(&self) -> (copy: AddressKind)
        ensures
            copy@ == self@,
    {
        match self {
            AddressKind::Name(name) => AddressKind::Name(name.clone()),
            AddressKind::Ip(ip) => AddressKind::Ip(*ip),
        }
    }
}

/// The address of an endpoint: a host and a port.
#[derive(Debug)]
pub struct EndpointAddress {
    pub host: AddressKind,
    pub port: u16,
}

/// What the address of an endpoint holds.
pub ghost struct EndpointAddressView {
    pub host: AddressKindView,
    pub port: u16,
}

impl View for EndpointAddress {
    type V = EndpointAddressView;

    open spec fn view(&self) -> EndpointAddressView {
        EndpointAddressView { host: self.host@, port: self.port }
    }
}

impl Clone for EndpointAddress {
    fn clone(&self) -> (copy: EndpointAddress)
        ensures
            copy@ == self@,
    {
        EndpointAddress { host: self.host.clone(), port: self.port }
    }
}

impl PartialEq for EndpointAddress {
    fn eq(&self, other: &EndpointAddress) -> (same: bool) {
        let same_host = match (&self.host, &other.host) {
            (AddressKind::Name(a), AddressKind::Name(b)) => str_eq(a.as_str(), b.as_str()),
            (AddressKind::Ip(a), AddressKind::Ip(b)) => a.same(b),
            _ => false,
        };
        same_host && self.port == other.port
    }
}

impl Eq for EndpointAddress {}

impl vstd::std_specs::cmp::PartialEqSpecImpl for EndpointAddress {
    open spec fn obeys_eq_spec() -> bool {
        true
    }

    open spec fn eq_spec(&self, other: &EndpointAddress) -> bool {
        self@ == other@
    }
}

impl EndpointAddress {
    /// The address of the given host and port.
    pub fn new(host: AddressKind, port: u16) -> (addr: EndpointAddress)
        ensures
            addr.host == host,
            addr.port == port,
    {
        EndpointAddress { host, port }
    }

    /// The address of the given IP address and port.
    pub fn from_socket_addr(socket: SocketAddr) -> (addr: EndpointAddress)
        ensures
            addr@ == (EndpointAddressView {
                host: AddressKindView::Ip(socket.ip@),
                port: socket.port,
            }),
    {
        EndpointAddress { host: AddressKind::Ip(socket.ip), port: socket.port }
    }

    /// The port of this address.
    pub fn port(&self) -> (port: u16)
        ensures
            port == self.port,
    {
        self.port
    }
}

/// The decimal digits of a number, without leading zeros.
pub open spec fn decimal(n: nat) -> Seq<char>
    decreases n,
{
    if n < 10 {
        seq![((48 + n) as u8) as char]
    } else {
        decimal(n / 10).push(((48 + n % 10) as u8) as char)
    }
}

/// The character of a hexadecimal digit: `0` to `9`, then `a` to `f`.
pub open spec fn hex_digit(d: nat) -> char {
    if d < 10 {
        ((48 + d) as u8) as char
    } else {
        ((87 + d) as u8) as char
    }
}

/// The hexadecimal digits of a number, in lower case and without leading
/// zeros.
pub open spec fn hex(n: nat) -> Seq<char>
    decreases n,
{
    if n < 16 {
        seq![hex_digit(n)]
    } else {
        hex(n / 16).push(hex_digit(n % 16))
    }
}

/// The dotted form of four octets.
pub open spec fn dotted(octets: Seq<u8>) -> Seq<char> {
    decimal(octets[0] as nat) + seq!['.'] + decimal(octets[1] as nat) + seq!['.'] + decimal(
        octets[2] as nat,
    ) + seq!['.'] + decimal(octets[3] as nat)
}

/// Segments in hexadecimal, with a colon between each two.
pub open spec fn colon_separated(segments: Seq<u16>) -> Seq<char>
    decreases segments.len(),
{
    if segments.len() == 0 {
        Seq::empty()
    } else if segments.len() == 1 {
        hex(segments[0] as nat)
    } else {
        colon_separated(segments.drop_last()) + seq![':'] + hex(segments.last() as nat)
    }
}

/// Whether the `len` segments from `start` on are all zero.
pub open spec fn zero_run(segments: Seq<u16>, start: int, len: int) -> bool {
    &&& 0 <= start
    &&& 0 <= len
    &&& start + len <= segments.len()
    &&& forall|i: int| start <= i < start + len ==> segments[i] == 0
}

/// Whether the run of zeros at `start` is the longest in the address, and of
/// those that are as long, the first.
pub open spec fn longest_zero_run(segments: Seq<u16>, start: int, len: int) -> bool {
    &&& zero_run(segments, start, len)
    &&& forall|other: int, other_len: int|
        #![trigger zero_run(segments, other, other_len)]
        zero_run(segments, other, other_len) ==> other_len < len || (other_len == len && other
            >= start)
}

/// The text of eight segments whose longest run of zeros is the one at
/// `start`: a run of two or more is written as `::`.
pub open spec fn compressed(segments: Seq<u16>, start: int, len: int) -> Seq<char> {
    if len > 1 {
        colon_separated(segments.subrange(0, start)) + seq![':', ':'] + colon_separated(
            segments.subrange(start + len, segments.len() as int),
        )
    } else {
        colon_separated(segments)
    }
}

impl IpAddrView {
    /// Whether this is an IPv6 address that stands for an IPv4 address: its
    /// first five segments are zero and the sixth is `ffff`.
    pub open spec fn is_mapped(self) -> bool {
        self matches IpAddrView::V6(s) && s.len() == 8 && s[0] == 0 && s[1] == 0 && s[2] == 0
            && s[3] == 0 && s[4] == 0 && s[5] == 0xffff
    }

    /// The canonical form of the address: an IPv6 address that stands for an
    /// IPv4 address becomes that address, whose octets are the bytes of the
    /// last two segments.
    pub open spec fn canonical(self) -> IpAddrView {
        match self {
            IpAddrView::V6(s) if self.is_mapped() => IpAddrView::V4(
                seq![
                    (s[6] / 256) as u8,
                    (s[6] % 256) as u8,
                    (s[7] / 256) as u8,
                    (s[7] % 256) as u8,
                ],
            ),
            _ => self,
        }
    }

    /// The text of the address. An IPv4 address is written as four decimal
    /// octets with dots between them. An IPv6 address that stands for an
    /// IPv4 address is written as `::ffff:` and that address. Any other IPv6
    /// address is written as eight hexadecimal segments with colons between
    /// them, the longest run of zero segments shortened to `::` where it has
    /// more than one segment.
    pub open spec fn text(self) -> Seq<char> {
        match self {
            IpAddrView::V4(octets) => dotted(octets),
            IpAddrView::V6(segments) => if self.is_mapped() {
                seq![':', ':', 'f', 'f', 'f', 'f', ':'] + self.canonical().text_v4()
            } else {
                let (start, len) = choose|start: int, len: int|
                    longest_zero_run(segments, start, len);
                compressed(segments, start, len)
            },
        }
    }

    /// The dotted form of an IPv4 address.
    pub open spec fn text_v4(self) -> Seq<char> {
        match self {
            IpAddrView::V4(octets) => dotted(octets),
            IpAddrView::V6(_) => Seq::empty(),
        }
    }
}

/// The canonical form of an address is canonical itself.
pub proof fn lemma_canonical_is_canonical(ip: IpAddrView)
    ensures
        ip.canonical().canonical() == ip.canonical(),
        !ip.canonical().is_mapped(),
{
}

/// An address has one longest first run of zeros.
proof fn lemma_one_longest_run(segments: Seq<u16>, start: int, len: int)
    requires
        longest_zero_run(segments, start, len),
    ensures
        (choose|start: int, len: int| longest_zero_run(segments, start, len)) == (start, len),
{
    let (other, other_len) = choose|start: int, len: int| longest_zero_run(segments, start, len);
    assert(longest_zero_run(segments, other, other_len));
    assert(zero_run(segments, other, other_len));
    assert(zero_run(segments, start, len));
}

/// The character of a digit.
fn digit_of(d: u8) -> (c: char)
    requires
        d < 16,
    ensures
        c == hex_digit(d as nat),
        d < 10 ==> c == ((48 + d) as u8) as char,
{
    if d < 10 {
        (48 + d) as char
    } else {
        (87 + d) as char
    }
}

/// Writes a number in decimal at the end of the text.
fn push_decimal(text: &mut String, n: u8)
    ensures
        final(text)@ == old(text)@ + decimal(n as nat),
{
    reveal_with_fuel(decimal, 3);
    if n >= 100 {
        push_char(text, digit_of(n / 100));
    }
    if n >= 10 {
        push_char(text, digit_of((n / 10) % 10));
    }
    push_char(text, digit_of(n % 10));
    assert(text@ =~= old(text)@ + decimal(n as nat));
}

/// Writes a number in hexadecimal at the end of the text.
fn push_hex(text: &mut String, n: u16)
    ensures
        final(text)@ == old(text)@ + hex(n as nat),
{
    reveal_with_fuel(hex, 4);
    if n >= 0x1000 {
        push_char(text, digit_of((n / 0x1000) as u8));
    }
    if n >= 0x100 {
        push_char(text, digit_of(((n / 0x100) % 16) as u8));
    }
    if n >= 0x10 {
        push_char(text, digit_of(((n / 0x10) % 16) as u8));
    }
    push_char(text, digit_of((n % 16) as u8));
    assert(text@ =~= old(text)@ + hex(n as nat));
}

/// Writes the segments from `from` up to `to`, with colons between them,
/// at the end of the text.
fn push_segments(text: &mut String, segments: &[u16; 8], from: usize, to: usize)
    requires
        from <= to <= 8,
    ensures
        final(text)@ == old(text)@ + colon_separated(segments@.subrange(from as int, to as int)),
{
    let mut i: usize = from;
    assert(segments@.subrange(from as int, from as int) =~= Seq::<u16>::empty());
    assert(text@ =~= old(text)@ + Seq::<char>::empty());
    while i < to
        invariant
            from <= i <= to <= 8,
            text@ == old(text)@ + colon_separated(segments@.subrange(from as int, i as int)),
        decreases to - i,
    {
        let ghost part = segments@.subrange(from as int, i + 1);
        assert(part.drop_last() =~= segments@.subrange(from as int, i as int));
        assert(part.last() == segments@[i as int]);
        if i > from {
            push_char(text, ':');
        }
        push_hex(text, segments[i]);
        assert(text@ =~= old(text)@ + colon_separated(part));
        i += 1;
    }
}

/// The longest run of zero segments, and of those that are as long, the
/// first: where it starts and how long it is.
fn find_longest_zero_run(segments: &[u16; 8]) -> (run: (usize, usize))
    ensures
        longest_zero_run(segments@, run.0 as int, run.1 as int),
        run.0 + run.1 <= 8,
{
    let mut best_start: usize = 0;
    let mut best_len: usize = 0;
    let mut len: usize = 0;
    let mut i: usize = 0;
    while i < 8
        invariant
            i <= 8,
            len <= i,
            zero_run(segments@, i - len, len as int),
            len < i ==> segments@[i - len - 1] != 0,
            zero_run(segments@, best_start as int, best_len as int),
            best_start + best_len <= i,
            best_len == 0 ==> best_start == 0,
            len <= best_len,
            forall|other: int, other_len: int|
                #![trigger zero_run(segments@, other, other_len)]
                zero_run(segments@, other, other_len) && other + other_len <= i ==> other_len
                    < best_len || (other_len == best_len && other >= best_start),
        decreases 8 - i,
    {
        if segments[i] == 0 {
            len += 1;
            if len > best_len {
                best_start = i + 1 - len;
                best_len = len;
            }
        } else {
            len = 0;
        }
        i += 1;
        assert forall|other: int, other_len: int|
            #![trigger zero_run(segments@, other, other_len)]
            zero_run(segments@, other, other_len) && other + other_len <= i implies other_len
                < best_len || (other_len == best_len && other >= best_start) by {
            if other + other_len == i && other_len > 0 {
                assert(segments@[i - 1] == 0);
                if other < i - len {
                    assert(segments@[i - len - 1] == 0);
                }
            }
        }
    }
    (best_start, best_len)
}

impl IpAddr {
    /// The canonical form of this address: an IPv6 address that stands for
    /// an IPv4 address becomes that address.
    pub fn to_canonical(&self) -> (canonical: IpAddr)
        ensures
            canonical@ == self@.canonical(),
    {
        match self {
            IpAddr::V4(_) => *self,
            IpAddr::V6(v6) => {
                let s = &v6.segments;
                if s[0] == 0 && s[1] == 0 && s[2] == 0 && s[3] == 0 && s[4] == 0 && s[5]
                    == 0xffff {
                    IpAddr::V4(
                        Ipv4Addr::new(
                            (s[6] / 256) as u8,
                            (s[6] % 256) as u8,
                            (s[7] / 256) as u8,
                            (s[7] % 256) as u8,
                        ),
                    )
                } else {
                    *self
                }
            },
        }
    }

    /// The text of this address.
    pub fn to_string(&self) -> (text: String)
        ensures
            text@ == self@.text(),
    {
        let mut text = String::new();
        match self.to_canonical() {
            IpAddr::V4(v4) => {
                if let IpAddr::V6(_) = self {
                    push_char(&mut text, ':');
                    push_char(&mut text, ':');
                    push_char(&mut text, 'f');
                    push_char(&mut text, 'f');
                    push_char(&mut text, 'f');
                    push_char(&mut text, 'f');
                    push_char(&mut text, ':');
                }
                let ghost prefix = text@;
                push_decimal(&mut text, v4.octets[0]);
                push_char(&mut text, '.');
                push_decimal(&mut text, v4.octets[1]);
                push_char(&mut text, '.');
                push_decimal(&mut text, v4.octets[2]);
                push_char(&mut text, '.');
                push_decimal(&mut text, v4.octets[3]);
                assert(text@ =~= prefix + dotted(v4.octets@));
                assert(text@ =~= self@.text());
            },
            IpAddr::V6(v6) => {
                let (start, len) = find_longest_zero_run(&v6.segments);
                proof {
                    lemma_one_longest_run(v6.segments@, start as int, len as int);
                }
                if len > 1 {
                    push_segments(&mut text, &v6.segments, 0, start);
                    push_char(&mut text, ':');
                    push_char(&mut text, ':');
                    push_segments(&mut text, &v6.segments, start + len, 8);
                } else {
                    push_segments(&mut text, &v6.segments, 0, 8);
                    assert(v6.segments@.subrange(0, 8) =~= v6.segments@);
                }
                assert(text@ =~= compressed(v6.segments@, start as int, len as int));
            },
        }
        text
    }
}

} // verus!
