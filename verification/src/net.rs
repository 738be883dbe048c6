//! Network addresses.

use vstd::prelude::*;

use crate::text::{
    digit, digits, join, lemma_join_split, lemma_split_concat, lemma_split_join,
    lemma_split_nonempty, lemma_split_whole, opt_text, split, split_on, texts, to_chars, trim,
    trimmed,
};

verus! {

/// An address of the Internet Protocol: four bytes, or eight groups of two.
#[derive(Debug, Clone, Copy)]
pub enum IpAddr {
    V4([u8; 4]),
    V6([u16; 8]),
}

/// An IPv4 address that is private, loopback, link-local or unspecified.
pub open spec fn private_v4(a: Seq<u8>) -> bool {
    ||| a[0] == 10
    ||| a[0] == 172 && 16 <= a[1] <= 31
    ||| a[0] == 192 && a[1] == 168
    ||| a[0] == 127
    ||| a[0] == 169 && a[1] == 254
    ||| a[0] == 0 && a[1] == 0 && a[2] == 0 && a[3] == 0
}

/// An IPv6 address that is loopback, unspecified, unique local or link-local.
pub open spec fn private_v6(a: Seq<u16>) -> bool {
    ||| (forall|i: int| 0 <= i < 7 ==> #[trigger] a[i] == 0) && a[7] <= 1
    ||| 0xfc00 <= a[0] <= 0xfdff
    ||| 0xfe80 <= a[0] <= 0xfebf
}

/// An address that does not belong to the public network.
pub open spec fn private(ip: IpAddr) -> bool {
    match ip {
        IpAddr::V4(a) => private_v4(a@),
        IpAddr::V6(a) => private_v6(a@),
    }
}

/// Whether an address does not belong to the public network.
pub fn is_private_ip(ip: IpAddr) -> (r: bool)
    ensures
        r == private(ip),
{
    match ip {
        IpAddr::V4(a) => {
            a[0] == 10 || (a[0] == 172 && 16 <= a[1] && a[1] <= 31) || (a[0] == 192 && a[1] == 168)
                || a[0] == 127 || (a[0] == 169 && a[1] == 254) || (a[0] == 0 && a[1] == 0 && a[2] == 0
                && a[3] == 0)
        },
        IpAddr::V6(a) => {
            let s: u16 = a[0];
            proof {
                assert((s & 0xfe00 == 0xfc00) == (0xfc00 <= s && s <= 0xfdff)) by (bit_vector);
                assert((s & 0xffc0 == 0xfe80) == (0xfe80 <= s && s <= 0xfebf)) by (bit_vector);
                if forall|i: int| 0 <= i < 7 ==> #[trigger] a@[i] == 0 {
                    assert(a@[0] == 0 && a@[1] == 0 && a@[2] == 0 && a@[3] == 0 && a@[4] == 0 && a@[5] == 0
                        && a@[6] == 0);
                }
            }
            (a[0] == 0 && a[1] == 0 && a[2] == 0 && a[3] == 0 && a[4] == 0 && a[5] == 0 && a[6] == 0
                && a[7] <= 1) || s & 0xfe00 == 0xfc00 || s & 0xffc0 == 0xfe80
        },
    }
}

// ---------------------------------------------------------------------------
// Addresses as text
// ---------------------------------------------------------------------------

/// The four numbers of an IPv4 address as text.
pub open spec fn quad(a: Seq<u8>) -> Seq<Seq<char>> {
    seq![digits(a[0] as nat), digits(a[1] as nat), digits(a[2] as nat), digits(a[3] as nat)]
}

/// An IPv4 address in dotted form.
pub open spec fn dotted(a: Seq<u8>) -> Seq<char> {
    join(quad(a), '.')
}

proof fn lemma_digits_small(n: nat)
    requires
        n < 1000,
    ensures
        n < 10 ==> digits(n) == seq![digit(n)],
        10 <= n < 100 ==> digits(n) == seq![digit(n / 10), digit(n % 10)],
        100 <= n ==> digits(n) == seq![digit(n / 100), digit(n / 10 % 10), digit(n % 10)],
{
    reveal_with_fuel(digits, 3);
    assert(n / 10 / 10 == n / 100);
    if 10 <= n < 100 {
        assert(digits(n) =~= seq![digit(n / 10), digit(n % 10)]);
    }
    if 100 <= n {
        assert(digits(n) =~= seq![digit(n / 100), digit(n / 10 % 10), digit(n % 10)]);
    }
}

proof fn lemma_digits_no_dot(n: nat)
    requires
        n < 1000,
    ensures
        !digits(n).contains('.'),
{
    lemma_digits_small(n);
    let s = digits(n);
    assert forall|i: int| 0 <= i < s.len() implies #[trigger] s[i] != '.' by {
        assert(s[i] == digit(n) || s[i] == digit(n / 10) || s[i] == digit(n % 10) || s[i] == digit(
            n / 100,
        ) || s[i] == digit(n / 10 % 10));
    }
}

/// The value of a decimal digit.
fn digit_value(c: char) -> (r: Option<u16>)
    ensures
        match r {
            Some(d) => d < 10 && c == digit(d as nat),
            None => forall|d: nat| d < 10 ==> c != #[trigger] digit(d),
        },
{
    if '0' <= c && c <= '9' {
        Some((c as u32 - 48) as u16)
    } else {
        None
    }
}

/// The number below 256 that a text writes without leading zeros.
fn octet(piece: &str) -> (r: Option<u8>)
    ensures
        match r {
            Some(n) => piece@ == digits(n as nat),
            None => forall|n: nat| n < 256 ==> piece@ != #[trigger] digits(n),
        },
{
    let cs = to_chars(piece);
    let len: usize = cs.len();
    proof {
        assert forall|n: nat| n < 256 implies 1 <= #[trigger] digits(n).len() <= 3 by {
            lemma_digits_small(n);
        }
    }
    if len == 0 || len > 3 {
        return None;
    }
    let mut value: u16 = 0;
    let mut i: usize = 0;
    while i < len
        invariant
            len == cs@.len(),
            1 <= len <= 3,
            cs@ == piece@,
            i <= len,
            i == 0 ==> value == 0,
            i == 1 ==> value < 10 && cs@[0] == digit(value as nat),
            i == 2 ==> value < 100 && cs@[0] == digit(value as nat / 10) && cs@[1] == digit(
                value as nat % 10,
            ),
            i == 3 ==> value < 1000 && cs@[0] == digit(value as nat / 100) && cs@[1] == digit(
                value as nat / 10 % 10,
            ) && cs@[2] == digit(value as nat % 10),
        decreases len - i,
    {
        match digit_value(cs[i]) {
            Some(d) => {
                let ghost was = value as nat;
                value = value * 10 + d;
                assert(value as nat / 10 == was && value as nat % 10 == d);
                assert(value as nat / 100 == was / 10);
            },
            None => {
                proof {
                    assert forall|n: nat| n < 256 implies piece@ != #[trigger] digits(n) by {
                        lemma_digits_small(n);
                        if piece@ == digits(n) {
                            assert(cs@[i as int] == digits(n)[i as int]);
                            assert(digits(n)[i as int] == digit(n) || digits(n)[i as int] == digit(n / 10)
                                || digits(n)[i as int] == digit(n % 10) || digits(n)[i as int] == digit(
                                n / 100,
                            ) || digits(n)[i as int] == digit(n / 10 % 10));
                        }
                    }
                }
                return None;
            },
        }
        i = i + 1;
    }
    proof {
        lemma_digits_small(value as nat);
        assert forall|n: nat| n < 256 && piece@ == #[trigger] digits(n) implies n == value by {
            lemma_digits_small(n);
            assert(cs@[0] == digits(n)[0]);
            if len > 1 {
                assert(cs@[1] == digits(n)[1]);
            }
            if len > 2 {
                assert(cs@[2] == digits(n)[2]);
            }
        }
        assert(digits(value as nat).len() == len ==> digits(value as nat) =~= piece@);
    }
    if value > 255 || (len > 1 && cs[0] == '0') {
        proof {
            assert forall|n: nat| n < 256 implies piece@ != #[trigger] digits(n) by {
                lemma_digits_small(n);
            }
        }
        return None;
    }
    Some(value as u8)
}

proof fn lemma_digits_once(m: nat, n: nat)
    requires
        m < 1000,
        n < 1000,
        digits(m) == digits(n),
    ensures
        m == n,
{
    lemma_digits_small(m);
    lemma_digits_small(n);
    let a = digits(m);
    let b = digits(n);
    assert(a[0] == b[0]);
    if a.len() > 1 {
        assert(a[1] == b[1]);
    }
    if a.len() > 2 {
        assert(a[2] == b[2]);
    }
}

/// No two addresses are written alike.
pub proof fn lemma_dotted_once(a: Seq<u8>, b: Seq<u8>)
    requires
        a.len() == 4,
        b.len() == 4,
        dotted(a) == dotted(b),
    ensures
        a == b,
{
    assert forall|i: int| 0 <= i < 4 implies !(#[trigger] quad(a)[i]).contains('.') by {
        lemma_digits_no_dot(a[i] as nat);
    }
    assert forall|i: int| 0 <= i < 4 implies !(#[trigger] quad(b)[i]).contains('.') by {
        lemma_digits_no_dot(b[i] as nat);
    }
    lemma_split_join(quad(a), '.');
    lemma_split_join(quad(b), '.');
    assert forall|i: int| 0 <= i < 4 implies a[i] == b[i] by {
        assert(quad(a)[i] == quad(b)[i]);
        lemma_digits_once(a[i] as nat, b[i] as nat);
    }
    assert(a =~= b);
}

/// The IPv4 address that a text writes in dotted form.
pub fn parse_ipv4(s: &str) -> (r: Option<[u8; 4]>)
    ensures
        match r {
            Some(a) => s@ == dotted(a@),
            None => forall|a: Seq<u8>| a.len() == 4 ==> s@ != #[trigger] dotted(a),
        },
{
    let pieces = split_on(s, '.');
    proof {
        lemma_join_split(s@, '.');
        assert forall|a: Seq<u8>| a.len() == 4 && s@ == #[trigger] dotted(a) implies texts(pieces@) == quad(
            a,
        ) by {
            lemma_digits_no_dot(a[0] as nat);
            lemma_digits_no_dot(a[1] as nat);
            lemma_digits_no_dot(a[2] as nat);
            lemma_digits_no_dot(a[3] as nat);
            lemma_split_join(quad(a), '.');
        }
    }
    if pieces.len() != 4 {
        return None;
    }
    proof {
        assert(texts(pieces@)[0] == pieces@[0]@);
        assert(texts(pieces@)[1] == pieces@[1]@);
        assert(texts(pieces@)[2] == pieces@[2]@);
        assert(texts(pieces@)[3] == pieces@[3]@);
    }
    match (
        octet(pieces[0].as_str()),
        octet(pieces[1].as_str()),
        octet(pieces[2].as_str()),
        octet(pieces[3].as_str()),
    ) {
        (Some(a), Some(b), Some(c), Some(d)) => {
            let r: [u8; 4] = [a, b, c, d];
            assert(texts(pieces@) =~= quad(r@));
            Some(r)
        },
        _ => {
            proof {
                assert forall|a: Seq<u8>| a.len() == 4 implies s@ != #[trigger] dotted(a) by {
                    if s@ == dotted(a) {
                        assert(pieces@[0]@ == digits(a[0] as nat));
                        assert(pieces@[1]@ == digits(a[1] as nat));
                        assert(pieces@[2]@ == digits(a[2] as nat));
                        assert(pieces@[3]@ == digits(a[3] as nat));
                    }
                }
            }
            None
        },
    }
}

// ---------------------------------------------------------------------------
// Who is asking
// ---------------------------------------------------------------------------

/// The address to count a request under: that of the peer, unless the peer is a proxy on a private
/// network that names the client.
pub open spec fn client(
    remote: IpAddr,
    remote_text: Seq<char>,
    forwarded: Option<Seq<char>>,
    named: Option<Seq<char>>,
) -> Seq<char> {
    let first = match forwarded {
        Some(f) => trimmed(split(f, ',')[0]),
        None => Seq::<char>::empty(),
    };
    if !private(remote) {
        remote_text
    } else if first.len() > 0 {
        first
    } else {
        match named {
            Some(x) => x,
            None => remote_text,
        }
    }
}

/// The address to count a request under, from the peer's address, the peer's address as text, and
/// the headers `X-Forwarded-For` and `X-Real-IP`.
pub fn real_ip(
    remote: IpAddr,
    remote_text: String,
    forwarded: Option<String>,
    named: Option<String>,
) -> (r: String)
    ensures
        r@ == client(remote, remote_text@, opt_text(forwarded), opt_text(named)),
{
    if !is_private_ip(remote) {
        return remote_text;
    }
    match forwarded {
        Some(f) => {
            let pieces = split_on(f.as_str(), ',');
            assert(texts(pieces@)[0] == pieces@[0]@);
            let first = trim(pieces[0].as_str());
            if first.as_str().unicode_len() > 0 {
                return first;
            }
        },
        None => {},
    }
    match named {
        Some(x) => x,
        None => remote_text,
    }
}

// ---------------------------------------------------------------------------
// Laws
// ---------------------------------------------------------------------------

/// An IPv4 address as one number.
pub open spec fn v4_number(a: Seq<u8>) -> int {
    a[0] * 0x100_0000 + a[1] * 0x1_0000 + a[2] * 0x100 + a[3]
}

/// The IPv4 addresses that are not public are those from 10.0.0.0 to 10.255.255.255, from 127.0.0.0 to
/// 127.255.255.255, from 169.254.0.0 to 169.254.255.255, from 172.16.0.0 to 172.31.255.255, from
/// 192.168.0.0 to 192.168.255.255, and 0.0.0.0.
pub proof fn law_private_ranges(a: Seq<u8>)
    requires
        a.len() == 4,
    ensures
        private_v4(a) <==> {
            let n = v4_number(a);
            ||| 0x0a00_0000 <= n <= 0x0aff_ffff
            ||| 0x7f00_0000 <= n <= 0x7fff_ffff
            ||| 0xa9fe_0000 <= n <= 0xa9fe_ffff
            ||| 0xac10_0000 <= n <= 0xac1f_ffff
            ||| 0xc0a8_0000 <= n <= 0xc0a8_ffff
            ||| n == 0
        },
{
    let n = v4_number(a);
    let low = a[1] * 0x1_0000 + a[2] * 0x100 + a[3];
    assert(0 <= low < 0x100_0000);
    assert(n == a[0] * 0x100_0000 + low);
    let lower = a[2] * 0x100 + a[3];
    assert(0 <= lower < 0x1_0000);
    assert(low == a[1] * 0x1_0000 + lower);
}

/// The IPv6 addresses that are not public are `::` and `::1`, those that start with the seven bits of
/// `fc00`, and those that start with the ten bits of `fe80`.
pub proof fn law_private_prefixes(a: Seq<u16>)
    requires
        a.len() == 8,
    ensures
        private_v6(a) <==> {
            ||| a[0] == 0 && a[1] == 0 && a[2] == 0 && a[3] == 0 && a[4] == 0 && a[5] == 0 && a[6] == 0 && (
            a[7] == 0 || a[7] == 1)
            ||| a[0] / 0x200 == 0xfc00u16 / 0x200
            ||| a[0] / 0x40 == 0xfe80u16 / 0x40
        },
{
    let s = a[0];
    if a[0] == 0 && a[1] == 0 && a[2] == 0 && a[3] == 0 && a[4] == 0 && a[5] == 0 && a[6] == 0 {
        assert(forall|i: int| 0 <= i < 7 ==> #[trigger] a[i] == 0);
    }
    if forall|i: int| 0 <= i < 7 ==> #[trigger] a[i] == 0 {
        assert(a[0] == 0 && a[1] == 0 && a[2] == 0 && a[3] == 0 && a[4] == 0 && a[5] == 0 && a[6] == 0);
    }
}

/// An IPv4 address is written as its four numbers with dots between them.
pub proof fn law_dotted_form(a: Seq<u8>)
    requires
        a.len() == 4,
    ensures
        dotted(a) == digits(a[0] as nat) + seq!['.'] + digits(a[1] as nat) + seq!['.'] + digits(a[2] as nat)
            + seq!['.'] + digits(a[3] as nat),
{
    reveal_with_fuel(join, 5);
    let q = quad(a);
    assert(q.drop_last() =~= seq![q[0], q[1], q[2]]);
    assert(q.drop_last().drop_last() =~= seq![q[0], q[1]]);
    assert(q.drop_last().drop_last().drop_last() =~= seq![q[0]]);
    assert(dotted(a) =~= q[0] + seq!['.'] + q[1] + seq!['.'] + q[2] + seq!['.'] + q[3]);
}

/// A peer on the public network counts under its own address, whatever it says of others.
pub proof fn law_strangers_speak_for_themselves(
    remote: IpAddr,
    remote_text: Seq<char>,
    forwarded: Option<Seq<char>>,
    named: Option<Seq<char>>,
)
    requires
        !private(remote),
    ensures
        client(remote, remote_text, forwarded, named) == remote_text,
{
}

/// A proxy on a private network speaks for the first client that it names: what stands before the first
/// comma of the forwarded addresses, without the blanks around it. Only where that is empty or missing
/// it is the other header that counts, and without either the address of the proxy.
pub proof fn law_proxies_name_the_first_client(
    remote: IpAddr,
    remote_text: Seq<char>,
    first: Seq<char>,
    rest: Seq<char>,
    named: Seq<char>,
)
    requires
        private(remote),
        !first.contains(','),
    ensures
        trimmed(first).len() > 0 ==> {
            &&& client(remote, remote_text, Some(first), Some(named)) == trimmed(first)
            &&& client(remote, remote_text, Some(first), None) == trimmed(first)
            &&& client(remote, remote_text, Some(first + seq![','] + rest), Some(named)) == trimmed(first)
            &&& client(remote, remote_text, Some(first + seq![','] + rest), None) == trimmed(first)
        },
        trimmed(first).len() == 0 ==> {
            &&& client(remote, remote_text, Some(first), Some(named)) == named
            &&& client(remote, remote_text, Some(first), None) == remote_text
            &&& client(remote, remote_text, Some(first + seq![','] + rest), Some(named)) == named
            &&& client(remote, remote_text, Some(first + seq![','] + rest), None) == remote_text
        },
        client(remote, remote_text, None, Some(named)) == named,
        client(remote, remote_text, None, None) == remote_text,
{
    lemma_split_whole(first, ',');
    lemma_split_concat(first, rest, ',');
    lemma_split_nonempty(rest, ',');
    assert(split(first, ',')[0] == first);
    assert(first.push(',') + rest =~= first + seq![','] + rest);
    assert(split(first + seq![','] + rest, ',')[0] == first);
}

} // verus!
