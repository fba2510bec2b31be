use vstd::prelude::*;
use vstd::string::StrSliceExecFns;

use crate::text::{find_text, push_decimal, read_number};

verus! {

/// An IPv4 address.
#[derive(Debug, Clone, Copy, PartialEq, Eq, Hash, Structural)]
pub struct Ipv4Addr {
    pub a: u8,
    pub b: u8,
    pub c: u8,
    pub d: u8,
}

/// The number of an octet, written without leading zeros.
pub open spec fn octet_of(s: Seq<char>) -> Option<u8> {
    if crate::text::is_plain_number(s) && crate::text::digits_value(s) <= 255 {
        Some(crate::text::digits_value(s) as u8)
    } else {
        None
    }
}

/// The address that a text stands for: four octets with dots between them.
pub open spec fn address_of(s: Seq<char>) -> Option<Ipv4Addr> {
    let i = crate::text::find(s, seq!['.'], 0);
    let j = crate::text::find(s, seq!['.'], i + 1);
    let k = crate::text::find(s, seq!['.'], j + 1);
    if i < 0 || j < 0 || k < 0 {
        None
    } else {
        match (
            octet_of(s.subrange(0, i)),
            octet_of(s.subrange(i + 1, j)),
            octet_of(s.subrange(j + 1, k)),
            octet_of(s.subrange(k + 1, s.len() as int)),
        ) {
            (Some(a), Some(b), Some(c), Some(d)) => Some(Ipv4Addr { a, b, c, d }),
            _ => None,
        }
    }
}

fn read_octet(s: &str) -> (r: Option<u8>)
    ensures
        r == octet_of(s@),
{
    if s.unicode_len() > 1 && s.get_char(0) == '0' {
        return None;
    }
    match read_number(s, 255) {
        Some(n) => Some(n as u8),
        None => None,
    }
}

impl Ipv4Addr {
    /// The address that stands for any.
    pub fn unspecified() -> (r: Self)
        ensures
            r == (Ipv4Addr { a: 0, b: 0, c: 0, d: 0 }),
    {
        Ipv4Addr { a: 0, b: 0, c: 0, d: 0 }
    }

    /// Whether the address is of a group: 224.0.0.0 to 239.255.255.255.
    pub open spec fn multicast(self) -> bool {
        224 <= self.a <= 239
    }

    pub fn is_multicast(&self) -> (r: bool)
        ensures
            r == self.multicast(),
    {
        224 <= self.a && self.a <= 239
    }

    pub fn is_unspecified(&self) -> (r: bool)
        ensures
            r == (*self == Ipv4Addr { a: 0, b: 0, c: 0, d: 0 }),
    {
        self.a == 0 && self.b == 0 && self.c == 0 && self.d == 0
    }

    /// The address as one number, first octet first.
    pub open spec fn number(self) -> int {
        ((self.a * 256 + self.b) * 256 + self.c) * 256 + self.d
    }

    pub fn to_number(&self) -> (r: u32)
        ensures
            r == self.number(),
    {
        ((self.a as u32 * 256 + self.b as u32) * 256 + self.c as u32) * 256 + self.d as u32
    }

    /// The address as text.
    pub open spec fn text(self) -> Seq<char> {
        crate::text::decimal(self.a as nat) + seq!['.'] + crate::text::decimal(self.b as nat)
            + seq!['.'] + crate::text::decimal(self.c as nat) + seq!['.'] + crate::text::decimal(
            self.d as nat,
        )
    }

    /// Appends the address.
    pub fn push_text(&self, s: &mut String)
        ensures
            final(s)@ == old(s)@ + self.text(),
    {
        proof {
            reveal_strlit(".");
            assert("."@ =~= seq!['.']);
        }
        push_decimal(s, self.a as u64);
        vstd::string::StringExecFns::append(s, ".");
        push_decimal(s, self.b as u64);
        vstd::string::StringExecFns::append(s, ".");
        push_decimal(s, self.c as u64);
        vstd::string::StringExecFns::append(s, ".");
        push_decimal(s, self.d as u64);
        assert(s@ =~= old(s)@ + self.text());
    }

    /// The address as text.
    pub fn to_text(&self) -> (r: String)
        ensures
            r@ == self.text(),
    {
        let mut s = String::new();
        self.push_text(&mut s);
        assert(s@ =~= self.text());
        s
    }

    /// Reads an address.
    pub fn parse(s: &str) -> (r: Option<Self>)
        ensures
            r == address_of(s@),
    {
        proof {
            reveal_strlit(".");
            assert("."@ =~= seq!['.']);
        }
        let n: usize = s.unicode_len();
        let i: usize = match find_text(s, ".", 0) {
            Some(i) => i,
            None => return None,
        };
        let j: usize = match find_text(s, ".", i + 1) {
            Some(j) => j,
            None => return None,
        };
        let k: usize = match find_text(s, ".", j + 1) {
            Some(k) => k,
            None => return None,
        };
        match (
            read_octet(s.substring_char(0, i)),
            read_octet(s.substring_char(i + 1, j)),
            read_octet(s.substring_char(j + 1, k)),
            read_octet(s.substring_char(k + 1, n)),
        ) {
            (Some(a), Some(b), Some(c), Some(d)) => Some(Ipv4Addr { a, b, c, d }),
            _ => None,
        }
    }
}

/// The error for a text that is no address.
#[derive(Debug, Clone, Copy, PartialEq, Eq, Structural)]
pub struct AddrParseError;

impl std::str::FromStr for Ipv4Addr {
    type Err = AddrParseError;

    fn from_str(s: &str) -> (r: Result<Self, AddrParseError>)
        ensures
            r == match address_of(s@) {
                Some(addr) => Ok(addr),
                None => Err(AddrParseError),
            },
    {
        match Ipv4Addr::parse(s) {
            Some(addr) => Ok(addr),
            None => Err(AddrParseError),
        }
    }
}

/// Where a piece without the character `c` comes first, `c` behind it is the
/// first one.
pub proof fn lemma_find_behind(before: Seq<char>, piece: Seq<char>, c: char, after: Seq<char>)
    requires
        forall|i: int| 0 <= i < piece.len() ==> piece[i] != c,
    ensures
        crate::text::find(
            before + piece + seq![c] + after,
            seq![c],
            before.len() as int,
        ) == before.len() + piece.len(),
    decreases piece.len(),
{
    let s = before + piece + seq![c] + after;
    let n = before.len() as int;
    if piece.len() == 0 {
        assert(s.subrange(n, n + 1) =~= seq![c]);
    } else {
        let there = s.subrange(n, n + 1);
        assert(there[0] == piece[0]);
        assert(there != seq![c]);
        let next = before.push(piece[0]);
        lemma_find_behind(next, piece.skip(1), c, after);
        assert(next + piece.skip(1) + seq![c] + after =~= s);
    }
}

/// A piece without the character `c` at the end holds none of it.
pub proof fn lemma_find_nothing(before: Seq<char>, piece: Seq<char>, c: char)
    requires
        forall|i: int| 0 <= i < piece.len() ==> piece[i] != c,
    ensures
        crate::text::find(before + piece, seq![c], before.len() as int) == -1,
    decreases piece.len(),
{
    let s = before + piece;
    let n = before.len() as int;
    if piece.len() > 0 {
        let there = s.subrange(n, n + 1);
        assert(there[0] == piece[0]);
        assert(there != seq![c]);
        let next = before.push(piece[0]);
        lemma_find_nothing(next, piece.skip(1), c);
        assert(next + piece.skip(1) =~= s);
    }
}

/// What [`find`](crate::text::find) finds, is there, and not before.
proof fn lemma_find_is_there(s: Seq<char>, c: char, from: int)
    requires
        0 <= from,
        crate::text::find(s, seq![c], from) >= 0,
    ensures
        from <= crate::text::find(s, seq![c], from) < s.len(),
        s[crate::text::find(s, seq![c], from)] == c,
    decreases s.len() - from,
{
    if s.subrange(from, from + 1) == seq![c] {
        assert(s.subrange(from, from + 1)[0] == c);
    } else {
        lemma_find_is_there(s, c, from + 1);
    }
}

/// Where the dots stand between four pieces that hold none.
proof fn lemma_dots_between(a: Seq<char>, b: Seq<char>, c: Seq<char>, d: Seq<char>)
    requires
        !a.contains('.'),
        !b.contains('.'),
        !c.contains('.'),
    ensures
        ({
            let s = a + seq!['.'] + b + seq!['.'] + c + seq!['.'] + d;
            let i = a.len() as int;
            let j = i + 1 + b.len();
            let k = j + 1 + c.len();
            &&& crate::text::find(s, seq!['.'], 0) == i
            &&& crate::text::find(s, seq!['.'], i + 1) == j
            &&& crate::text::find(s, seq!['.'], j + 1) == k
            &&& s.subrange(0, i) == a
            &&& s.subrange(i + 1, j) == b
            &&& s.subrange(j + 1, k) == c
            &&& s.subrange(k + 1, s.len() as int) == d
        }),
{
    let dot = seq!['.'];
    let s = a + dot + b + dot + c + dot + d;
    let i = a.len() as int;
    let j = i + 1 + b.len();
    let k = j + 1 + c.len();
    assert(crate::text::find(s, dot, 0) == i) by {
        let after = b + dot + c + dot + d;
        assert forall|n: int| 0 <= n < a.len() implies a[n] != '.' by {
            assert(a.contains(a[n]));
        }
        lemma_find_behind(Seq::empty(), a, '.', after);
        assert(Seq::<char>::empty() + a + dot + after =~= s);
    }
    assert(crate::text::find(s, dot, i + 1) == j) by {
        let before = a + dot;
        let after = c + dot + d;
        assert forall|n: int| 0 <= n < b.len() implies b[n] != '.' by {
            assert(b.contains(b[n]));
        }
        lemma_find_behind(before, b, '.', after);
        assert(before + b + dot + after =~= s);
    }
    assert(crate::text::find(s, dot, j + 1) == k) by {
        let before = a + dot + b + dot;
        assert forall|n: int| 0 <= n < c.len() implies c[n] != '.' by {
            assert(c.contains(c[n]));
        }
        lemma_find_behind(before, c, '.', d);
        assert(before + c + dot + d =~= s);
    }
    assert(s.subrange(0, i) =~= a);
    assert(s.subrange(i + 1, j) =~= b);
    assert(s.subrange(j + 1, k) =~= c);
    assert(s.subrange(k + 1, s.len() as int) =~= d);
}

proof fn lemma_octet_reads_back(n: u8)
    ensures
        octet_of(crate::text::decimal(n as nat)) == Some(n),
        !crate::text::decimal(n as nat).contains('.'),
{
    crate::text::lemma_decimal_reads_back(n as nat);
}

/// An address is read back from its text.
pub proof fn law_address_text_is_read_back(addr: Ipv4Addr)
    ensures
        address_of(addr.text()) == Some(addr),
{
    lemma_octet_reads_back(addr.a);
    lemma_octet_reads_back(addr.b);
    lemma_octet_reads_back(addr.c);
    lemma_octet_reads_back(addr.d);
    lemma_dots_between(
        crate::text::decimal(addr.a as nat),
        crate::text::decimal(addr.b as nat),
        crate::text::decimal(addr.c as nat),
        crate::text::decimal(addr.d as nat),
    );
}

/// Nothing but its text is read as an address.
pub proof fn law_only_its_text_is_an_address(s: Seq<char>)
    requires
        address_of(s) is Some,
    ensures
        s == address_of(s)->0.text(),
{
    let i = crate::text::find(s, seq!['.'], 0);
    let j = crate::text::find(s, seq!['.'], i + 1);
    let k = crate::text::find(s, seq!['.'], j + 1);
    lemma_find_is_there(s, '.', 0);
    lemma_find_is_there(s, '.', i + 1);
    lemma_find_is_there(s, '.', j + 1);
    crate::text::lemma_plain_number_is_decimal(s.subrange(0, i));
    crate::text::lemma_plain_number_is_decimal(s.subrange(i + 1, j));
    crate::text::lemma_plain_number_is_decimal(s.subrange(j + 1, k));
    crate::text::lemma_plain_number_is_decimal(s.subrange(k + 1, s.len() as int));
    assert(s =~= s.subrange(0, i) + seq!['.'] + s.subrange(i + 1, j) + seq!['.'] + s.subrange(
        j + 1,
        k,
    ) + seq!['.'] + s.subrange(k + 1, s.len() as int));
}

/// An IPv4 address and a port.
#[derive(Debug, Clone, Copy, PartialEq, Eq, Hash, Structural)]
pub struct SocketAddrV4 {
    pub ip: Ipv4Addr,
    pub port: u16,
}

impl SocketAddrV4 {
    /// Address and port as one number.
    pub open spec fn key(self) -> int {
        self.ip.number() * 65536 + self.port
    }

    pub fn to_key(&self) -> (r: u64)
        ensures
            r == self.key(),
    {
        self.ip.to_number() as u64 * 65536 + self.port as u64
    }
}

/// The address and port of no one.
pub fn unspecified_source() -> (r: SocketAddrV4)
    ensures
        r == (SocketAddrV4 { ip: Ipv4Addr { a: 0, b: 0, c: 0, d: 0 }, port: 0 }),
{
    SocketAddrV4 { ip: Ipv4Addr::unspecified(), port: 0 }
}

/// Distinct addresses and ports have distinct numbers.
pub proof fn law_keys_are_unique(x: SocketAddrV4, y: SocketAddrV4)
    requires
        x.key() == y.key(),
    ensures
        x == y,
{
}

/// Groups are the addresses from 224.0.0.0 to 239.255.255.255; the number of
/// an address counts its octets as digits of base 256.
pub proof fn law_groups_and_numbers(addr: Ipv4Addr)
    ensures
        addr.multicast() <==> 3_758_096_384 <= addr.number() <= 4_026_531_839,
        addr.number() == 16_777_216 * addr.a + 65_536 * addr.b + 256 * addr.c + addr.d,
{
}

} // verus!
