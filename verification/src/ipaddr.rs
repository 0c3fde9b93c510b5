//! IP addresses and ranges of addresses: how they are read, compared and
//! written.
use vstd::prelude::*;
use crate::text::{chars_of, check_digits, digits_in, nat_to_dec, push_char, push_nat, read_digits,
    value_in};
use crate::value::IpNet;

verus! {

/// The first position from `i` up to `hi` that holds `c`, or `hi`.
pub open spec fn find_char(s: Seq<char>, c: char, i: int, hi: int) -> int
    decreases hi - i,
{
    if i < 0 || i >= hi || hi > s.len() {
        hi
    } else if s[i] == c {
        i
    } else {
        find_char(s, c, i + 1, hi)
    }
}

/// The first position from `i` up to `hi` that holds `c`, or `hi`.
pub fn find(s: &Vec<char>, c: char, i: usize, hi: usize) -> (r: usize)
    requires
        hi <= s.len(),
    ensures
        r == find_char(s@, c, i as int, hi as int),
        i <= hi ==> i <= r <= hi,
        i > hi ==> r == hi,
{
    if i >= hi {
        return hi;
    }
    let mut k: usize = i;
    while k < hi && s[k] != c
        invariant
            i <= k <= hi <= s.len(),
            find_char(s@, c, i as int, hi as int) == find_char(s@, c, k as int, hi as int),
        decreases hi - k,
    {
        k += 1;
    }
    k
}

/// The number written in decimal at the positions from `lo` up to `hi`:
/// at most `max_digits` digits, without a leading zero unless it is `0`,
/// and at most `max`.
pub open spec fn small_number(s: Seq<char>, lo: int, hi: int, max_digits: int, max: nat)
    -> Option<nat> {
    if digits_in(s, lo, hi) && hi - lo <= max_digits && (hi - lo == 1 || s[lo] != '0') && value_in(
        s,
        lo,
        hi,
    ) <= max {
        Some(value_in(s, lo, hi))
    } else {
        None
    }
}

fn read_small(s: &Vec<char>, lo: usize, hi: usize, max_digits: usize, max: u128) -> (r: Option<u128>)
    requires
        hi <= s.len(),
        max <= 0xffff,
    ensures
        r is Some <==> small_number(s@, lo as int, hi as int, max_digits as int, max as nat)
            is Some,
        r is Some ==> r->0 == small_number(
            s@,
            lo as int,
            hi as int,
            max_digits as int,
            max as nat,
        )->0,
        r is Some ==> r->0 <= max,
{
    if !check_digits(s, lo, hi) {
        return None;
    }
    if hi - lo > max_digits {
        return None;
    }
    if hi - lo != 1 && s[lo] == '0' {
        return None;
    }
    read_digits(s, lo, hi, max)
}

/// The IPv4 address written at the positions up to `hi`: four numbers up
/// to 255, separated by `.`.
pub open spec fn parse_v4(s: Seq<char>, hi: int) -> Option<nat> {
    let d1 = find_char(s, '.', 0, hi);
    let d2 = find_char(s, '.', d1 + 1, hi);
    let d3 = find_char(s, '.', d2 + 1, hi);
    if d1 >= hi || d2 >= hi || d3 >= hi {
        None
    } else {
        match (
            small_number(s, 0, d1, 3, 255),
            small_number(s, d1 + 1, d2, 3, 255),
            small_number(s, d2 + 1, d3, 3, 255),
            small_number(s, d3 + 1, hi, 3, 255),
        ) {
            (Some(a), Some(b), Some(c), Some(d)) => Some(((a * 256 + b) * 256 + c) * 256 + d),
            _ => None,
        }
    }
}

fn read_v4(s: &Vec<char>, hi: usize) -> (r: Option<u32>)
    requires
        hi <= s.len(),
    ensures
        r is Some <==> parse_v4(s@, hi as int) is Some,
        r is Some ==> r->0 == parse_v4(s@, hi as int)->0,
{
    let d1 = find(s, '.', 0, hi);
    if d1 >= hi {
        return None;
    }
    let d2 = find(s, '.', d1 + 1, hi);
    if d2 >= hi {
        return None;
    }
    let d3 = find(s, '.', d2 + 1, hi);
    if d3 >= hi {
        return None;
    }
    let a = read_small(s, 0, d1, 3, 255);
    let b = read_small(s, d1 + 1, d2, 3, 255);
    let c = read_small(s, d2 + 1, d3, 3, 255);
    let d = read_small(s, d3 + 1, hi, 3, 255);
    match (a, b, c, d) {
        (Some(a), Some(b), Some(c), Some(d)) => Some((((a * 256 + b) * 256 + c) * 256 + d) as u32),
        _ => None,
    }
}

/// Whether `c` is a hexadecimal digit.
pub open spec fn is_hex(c: char) -> bool {
    ('0' <= c && c <= '9') || ('a' <= c && c <= 'f') || ('A' <= c && c <= 'F')
}

/// The number that a hexadecimal digit stands for.
pub open spec fn hex_value(c: char) -> nat {
    if '0' <= c && c <= '9' {
        ((c as u32) - 48) as nat
    } else if 'a' <= c && c <= 'f' {
        ((c as u32) - 87) as nat
    } else {
        ((c as u32) - 55) as nat
    }
}

/// The number written in hexadecimal at the positions from `lo` up to
/// `hi`: one to four hexadecimal digits.
pub open spec fn hex_group(s: Seq<char>, lo: int, hi: int) -> Option<nat> {
    if lo < 0 || hi > s.len() || hi - lo < 1 || hi - lo > 4 {
        None
    } else if !(forall|k: int| lo <= k < hi ==> is_hex(#[trigger] s[k])) {
        None
    } else if hi - lo == 1 {
        Some(hex_value(s[lo]))
    } else if hi - lo == 2 {
        Some(hex_value(s[lo]) * 16 + hex_value(s[lo + 1]))
    } else if hi - lo == 3 {
        Some((hex_value(s[lo]) * 16 + hex_value(s[lo + 1])) * 16 + hex_value(s[lo + 2]))
    } else {
        Some(
            ((hex_value(s[lo]) * 16 + hex_value(s[lo + 1])) * 16 + hex_value(s[lo + 2])) * 16
                + hex_value(s[lo + 3]),
        )
    }
}

fn read_hex_digit(c: char) -> (r: Option<u128>)
    ensures
        r is Some <==> is_hex(c),
        r is Some ==> r->0 == hex_value(c) && r->0 < 16,
{
    if '0' <= c && c <= '9' {
        Some((c as u32 - 48) as u128)
    } else if 'a' <= c && c <= 'f' {
        Some((c as u32 - 87) as u128)
    } else if 'A' <= c && c <= 'F' {
        Some((c as u32 - 55) as u128)
    } else {
        None
    }
}

fn read_hex_group(s: &Vec<char>, lo: usize, hi: usize) -> (r: Option<u128>)
    requires
        hi <= s.len(),
    ensures
        r is Some <==> hex_group(s@, lo as int, hi as int) is Some,
        r is Some ==> r->0 == hex_group(s@, lo as int, hi as int)->0 && r->0 < 65536,
{
    if hi <= lo || hi - lo > 4 {
        return None;
    }
    let n = hi - lo;
    let d0 = match read_hex_digit(s[lo]) {
        Some(d) => d,
        None => {
            return None;
        },
    };
    if n == 1 {
        assert forall|k: int| lo <= k < hi implies is_hex(#[trigger] s@[k]) by {}
        return Some(d0);
    }
    let d1 = match read_hex_digit(s[lo + 1]) {
        Some(d) => d,
        None => {
            return None;
        },
    };
    if n == 2 {
        assert forall|k: int| lo <= k < hi implies is_hex(#[trigger] s@[k]) by {}
        return Some(d0 * 16 + d1);
    }
    let d2 = match read_hex_digit(s[lo + 2]) {
        Some(d) => d,
        None => {
            return None;
        },
    };
    if n == 3 {
        assert forall|k: int| lo <= k < hi implies is_hex(#[trigger] s@[k]) by {}
        return Some((d0 * 16 + d1) * 16 + d2);
    }
    let d3 = match read_hex_digit(s[lo + 3]) {
        Some(d) => d,
        None => {
            return None;
        },
    };
    assert forall|k: int| lo <= k < hi implies is_hex(#[trigger] s@[k]) by {}
    Some(((d0 * 16 + d1) * 16 + d2) * 16 + d3)
}

/// The hexadecimal groups written from `lo` up to `hi`, separated by `:`,
/// after the groups `acc`. There is at least one group and none is empty.
pub open spec fn groups_from(s: Seq<char>, lo: int, hi: int, acc: Seq<nat>) -> Option<Seq<nat>>
    decreases hi - lo,
{
    if lo < 0 || lo >= hi || hi > s.len() {
        None
    } else {
        let c = find_char(s, ':', lo, hi);
        match hex_group(s, lo, c) {
            None => None,
            Some(g) => if c >= hi {
                Some(acc.push(g))
            } else {
                groups_from(s, c + 1, hi, acc.push(g))
            },
        }
    }
}

/// The hexadecimal groups written from `lo` up to `hi`, which may be none.
pub open spec fn groups_in(s: Seq<char>, lo: int, hi: int) -> Option<Seq<nat>> {
    if lo >= hi {
        Some(Seq::empty())
    } else {
        groups_from(s, lo, hi, Seq::empty())
    }
}

/// The first position from `i` on at which `::` stands before `hi`, or `hi`.
pub open spec fn double_colon(s: Seq<char>, i: int, hi: int) -> int
    decreases hi - i,
{
    if i < 0 || i + 1 >= hi || hi > s.len() {
        hi
    } else if s[i] == ':' && s[i + 1] == ':' {
        i
    } else {
        double_colon(s, i + 1, hi)
    }
}

/// `n` groups that are zero.
pub open spec fn zero_groups(n: nat) -> Seq<nat> {
    Seq::new(n, |i: int| 0nat)
}

/// The eight groups of the IPv6 address written at the positions up to
/// `hi`: eight groups separated by `:`, or fewer with one `::` that stands
/// for the groups that are left out, all of them zero.
pub open spec fn parse_v6_groups(s: Seq<char>, hi: int) -> Option<Seq<nat>> {
    let p = double_colon(s, 0, hi);
    if p >= hi {
        match groups_in(s, 0, hi) {
            Some(g) => if g.len() == 8 {
                Some(g)
            } else {
                None
            },
            None => None,
        }
    } else {
        match (groups_in(s, 0, p), groups_in(s, p + 2, hi)) {
            (Some(l), Some(r)) => if l.len() + r.len() <= 7 {
                Some(l + zero_groups((8 - l.len() - r.len()) as nat) + r)
            } else {
                None
            },
            _ => None,
        }
    }
}

/// The address that eight groups of sixteen bits make, the first of them
/// the most significant.
pub open spec fn address_of(g: Seq<nat>) -> nat {
    g[0] * 0x1_0000_0000_0000_0000_0000_0000_0000 + g[1] * 0x1_0000_0000_0000_0000_0000_0000 + g[2]
        * 0x1_0000_0000_0000_0000_0000 + g[3] * 0x1_0000_0000_0000_0000 + g[4] * 0x1_0000_0000_0000
        + g[5] * 0x1_0000_0000 + g[6] * 0x1_0000 + g[7]
}

/// The groups of a vector of numbers below 65536.
pub open spec fn groups_view(v: Seq<u128>) -> Seq<nat> {
    Seq::new(v.len(), |i: int| v[i] as nat)
}

fn read_groups(s: &Vec<char>, lo: usize, hi: usize) -> (r: Option<Vec<u128>>)
    requires
        hi <= s.len(),
    ensures
        r is Some <==> groups_in(s@, lo as int, hi as int) is Some,
        r is Some ==> groups_view(r->0@) == groups_in(s@, lo as int, hi as int)->0,
        r is Some ==> forall|k: int| 0 <= k < r->0.len() ==> #[trigger] r->0[k] < 65536,
{
    let mut out: Vec<u128> = Vec::new();
    if lo >= hi {
        assert(groups_view(out@) =~= Seq::empty());
        return Some(out);
    }
    let mut i: usize = lo;
    assert(groups_view(out@) =~= Seq::empty());
    loop
        invariant
            lo <= i < hi <= s.len(),
            groups_in(s@, lo as int, hi as int) == groups_from(
                s@,
                i as int,
                hi as int,
                groups_view(out@),
            ),
            forall|k: int| 0 <= k < out.len() ==> #[trigger] out[k] < 65536,
        decreases hi - i,
    {
        let c = find(s, ':', i, hi);
        match read_hex_group(s, i, c) {
            None => {
                return None;
            },
            Some(g) => {
                let ghost before = groups_view(out@);
                out.push(g);
                assert(groups_view(out@) =~= before.push(g as nat));
                if c >= hi {
                    return Some(out);
                }
                if c + 1 >= hi {
                    assert(groups_from(s@, c + 1, hi as int, groups_view(out@)) is None);
                    return None;
                }
                i = c + 1;
            },
        }
    }
}

fn find_double_colon(s: &Vec<char>, hi: usize) -> (r: usize)
    requires
        hi <= s.len(),
    ensures
        r == double_colon(s@, 0, hi as int),
        r <= hi,
        r < hi ==> r + 1 < hi,
{
    let mut i: usize = 0;
    while i < hi && hi - i > 1
        invariant
            i <= hi <= s.len(),
            double_colon(s@, 0, hi as int) == double_colon(s@, i as int, hi as int),
        decreases hi - i,
    {
        if s[i] == ':' && s[i + 1] == ':' {
            return i;
        }
        i += 1;
    }
    hi
}

fn read_v6(s: &Vec<char>, hi: usize) -> (r: Option<u128>)
    requires
        hi <= s.len(),
    ensures
        r is Some <==> parse_v6_groups(s@, hi as int) is Some,
        r is Some ==> r->0 == address_of(parse_v6_groups(s@, hi as int)->0),
{
    let p = find_double_colon(s, hi);
    let mut groups: Vec<u128> = Vec::new();
    if p >= hi {
        match read_groups(s, 0, hi) {
            Some(g) => {
                if g.len() != 8 {
                    return None;
                }
                groups = g;
            },
            None => {
                return None;
            },
        }
    } else {
        match (read_groups(s, 0, p), read_groups(s, p + 2, hi)) {
            (Some(l), Some(r)) => {
                if l.len() > 7 || r.len() > 7 - l.len() {
                    return None;
                }
                let ghost lv = groups_view(l@);
                let ghost rv = groups_view(r@);
                let zeros: usize = 8 - l.len() - r.len();
                let mut i: usize = 0;
                while i < l.len()
                    invariant
                        i <= l.len(),
                        groups.len() == i,
                        forall|k: int| 0 <= k < i ==> groups[k] == l[k],
                    decreases l.len() - i,
                {
                    groups.push(l[i]);
                    i += 1;
                }
                let mut z: usize = 0;
                while z < zeros
                    invariant
                        z <= zeros,
                        groups.len() == l.len() + z,
                        forall|k: int| 0 <= k < l.len() ==> groups[k] == l[k],
                        forall|k: int| l.len() <= k < l.len() + z ==> groups[k] == 0,
                    decreases zeros - z,
                {
                    groups.push(0);
                    z += 1;
                }
                let mut j: usize = 0;
                while j < r.len()
                    invariant
                        j <= r.len(),
                        zeros == 8 - l.len() - r.len(),
                        l.len() + r.len() <= 7,
                        groups.len() == l.len() + zeros + j,
                        forall|k: int| 0 <= k < l.len() ==> groups[k] == l[k],
                        forall|k: int| l.len() <= k < l.len() + zeros ==> groups[k] == 0,
                        forall|k: int| 0 <= k < j ==> groups[l.len() + zeros + k] == r[k],
                    decreases r.len() - j,
                {
                    groups.push(r[j]);
                    j += 1;
                }
                assert(groups_view(groups@) =~= lv + zero_groups(zeros as nat) + rv);
                assert forall|k: int| 0 <= k < groups.len() implies #[trigger] groups[k]
                    < 65536 by {
                    if k < l.len() {
                        assert(l[k] < 65536);
                    } else if k >= l.len() + zeros {
                        assert(r[k - l.len() - zeros] < 65536);
                    }
                }
            },
            _ => {
                return None;
            },
        }
    }
    assert(groups.len() == 8);
    let g0 = groups[0];
    let g1 = groups[1];
    let g2 = groups[2];
    let g3 = groups[3];
    let g4 = groups[4];
    let g5 = groups[5];
    let g6 = groups[6];
    let g7 = groups[7];
    assert(groups_view(groups@)[0] == g0);
    assert(groups_view(groups@)[1] == g1);
    assert(groups_view(groups@)[2] == g2);
    assert(groups_view(groups@)[3] == g3);
    assert(groups_view(groups@)[4] == g4);
    assert(groups_view(groups@)[5] == g5);
    assert(groups_view(groups@)[6] == g6);
    assert(groups_view(groups@)[7] == g7);
    Some(
        g0 * 0x1_0000_0000_0000_0000_0000_0000_0000 + g1 * 0x1_0000_0000_0000_0000_0000_0000 + g2
            * 0x1_0000_0000_0000_0000_0000 + g3 * 0x1_0000_0000_0000_0000 + g4
            * 0x1_0000_0000_0000 + g5 * 0x1_0000_0000 + g6 * 0x1_0000 + g7,
    )
}

/// The prefix length written after the `/` at position `slash`: `max`
/// when there is no `/`.
pub open spec fn parse_prefix(s: Seq<char>, slash: int, max: nat) -> Option<nat> {
    if slash >= s.len() {
        Some(max)
    } else {
        small_number(s, slash + 1, s.len() as int, 3, max)
    }
}

/// The address or range of addresses that `s` denotes: an IPv4 address of
/// four decimal numbers, or an IPv6 address of hexadecimal groups, and
/// optionally `/` and a prefix length.
pub open spec fn parse_ip(s: Seq<char>) -> Option<IpNet> {
    let slash = find_char(s, '/', 0, s.len() as int);
    if find_char(s, ':', 0, slash) < slash {
        match (parse_v6_groups(s, slash), parse_prefix(s, slash, 128)) {
            (Some(g), Some(p)) => Some(IpNet::V6 { addr: address_of(g) as u128, prefix: p as u8 }),
            _ => None,
        }
    } else {
        match (parse_v4(s, slash), parse_prefix(s, slash, 32)) {
            (Some(a), Some(p)) => Some(IpNet::V4 { addr: a as u32, prefix: p as u8 }),
            _ => None,
        }
    }
}

/// The address or range of addresses that `s` denotes.
pub fn ip_from_str(s: &str) -> (r: Option<IpNet>)
    ensures
        r == parse_ip(s@),
{
    let cs = chars_of(s);
    let n = cs.len();
    let slash = find(&cs, '/', 0, n);
    let v6 = find(&cs, ':', 0, slash) < slash;
    let max: u128 = if v6 {
        128
    } else {
        32
    };
    let prefix: u8 = if slash >= n {
        max as u8
    } else {
        match read_small(&cs, slash + 1, n, 3, max) {
            Some(p) => p as u8,
            None => {
                return None;
            },
        }
    };
    if v6 {
        match read_v6(&cs, slash) {
            Some(a) => Some(IpNet::V6 { addr: a, prefix }),
            None => None,
        }
    } else {
        match read_v4(&cs, slash) {
            Some(a) => Some(IpNet::V4 { addr: a, prefix }),
            None => None,
        }
    }
}

/// Whether the range `a` lies within the range `b`: both are of one
/// family, the prefix of `a` is no shorter than that of `b`, and the
/// addresses agree on the bits of the prefix of `b`.
pub open spec fn in_range(a: IpNet, b: IpNet) -> bool {
    match (a, b) {
        (IpNet::V4 { addr: x, prefix: p }, IpNet::V4 { addr: y, prefix: q }) => p >= q && q <= 32
            && (q == 0 || (x >> ((32 - q) as u32)) == (y >> ((32 - q) as u32))),
        (IpNet::V6 { addr: x, prefix: p }, IpNet::V6 { addr: y, prefix: q }) => p >= q && q <= 128
            && (q == 0 || (x >> ((128 - q) as u32)) == (y >> ((128 - q) as u32))),
        _ => false,
    }
}

/// The loopback addresses of the family of `a`.
pub open spec fn loopback_range(a: IpNet) -> IpNet {
    match a {
        IpNet::V4 { .. } => IpNet::V4 { addr: 0x7f00_0000, prefix: 8 },
        IpNet::V6 { .. } => IpNet::V6 { addr: 1, prefix: 128 },
    }
}

/// The multicast addresses of the family of `a`.
pub open spec fn multicast_range(a: IpNet) -> IpNet {
    match a {
        IpNet::V4 { .. } => IpNet::V4 { addr: 0xe000_0000, prefix: 4 },
        IpNet::V6 { .. } => IpNet::V6 {
            addr: 0xff00_0000_0000_0000_0000_0000_0000_0000,
            prefix: 8,
        },
    }
}

/// Whether the range `a` lies within the range `b`.
pub fn is_in_range(a: &IpNet, b: &IpNet) -> (r: bool)
    ensures
        r == in_range(*a, *b),
{
    match (a, b) {
        (IpNet::V4 { addr: x, prefix: p }, IpNet::V4 { addr: y, prefix: q }) => {
            let q: u8 = *q;
            if *p < q || q > 32 {
                false
            } else if q == 0 {
                true
            } else {
                let shift: u32 = (32 - q) as u32;
                (*x >> shift) == (*y >> shift)
            }
        },
        (IpNet::V6 { addr: x, prefix: p }, IpNet::V6 { addr: y, prefix: q }) => {
            let q: u8 = *q;
            if *p < q || q > 128 {
                false
            } else if q == 0 {
                true
            } else {
                let shift: u32 = (128 - q) as u32;
                (*x >> shift) == (*y >> shift)
            }
        },
        _ => false,
    }
}

/// Whether `a` is a range of loopback addresses.
pub fn is_loopback(a: &IpNet) -> (r: bool)
    ensures
        r == in_range(*a, loopback_range(*a)),
{
    match a {
        IpNet::V4 { .. } => is_in_range(a, &IpNet::V4 { addr: 0x7f00_0000, prefix: 8 }),
        IpNet::V6 { .. } => is_in_range(a, &IpNet::V6 { addr: 1, prefix: 128 }),
    }
}

/// Whether `a` is a range of multicast addresses.
pub fn is_multicast(a: &IpNet) -> (r: bool)
    ensures
        r == in_range(*a, multicast_range(*a)),
{
    match a {
        IpNet::V4 { .. } => is_in_range(a, &IpNet::V4 { addr: 0xe000_0000, prefix: 4 }),
        IpNet::V6 { .. } => is_in_range(
            a,
            &IpNet::V6 { addr: 0xff00_0000_0000_0000_0000_0000_0000_0000, prefix: 8 },
        ),
    }
}

/// The character for a hexadecimal digit.
pub open spec fn hex_char(d: nat) -> char {
    if d < 10 {
        ((48 + d) as u8) as char
    } else {
        ((87 + d) as u8) as char
    }
}

/// Hexadecimal notation of a natural number, without leading zeros.
pub open spec fn nat_to_hex(n: nat) -> Seq<char>
    decreases n,
{
    if n < 16 {
        seq![hex_char(n)]
    } else {
        nat_to_hex(n / 16).push(hex_char(n % 16))
    }
}

fn push_hex(out: &mut String, n: u128)
    ensures
        final(out)@ == old(out)@ + nat_to_hex(n as nat),
    decreases n,
{
    if n >= 16 {
        push_hex(out, n / 16);
    }
    let d: u8 = (n % 16) as u8;
    if d < 10 {
        push_char(out, (48u8 + d) as char);
    } else {
        push_char(out, (87u8 + d) as char);
    }
    assert(out@ =~= old(out)@ + nat_to_hex(n as nat));
}

/// The last `n` numbers of a dotted address, each below 256, separated by `.`.
pub open spec fn octets_text(addr: nat, n: nat) -> Seq<char>
    decreases n,
{
    if n <= 1 {
        nat_to_dec(addr % 256)
    } else {
        octets_text(addr / 256, (n - 1) as nat) + seq!['.'] + nat_to_dec(addr % 256)
    }
}

/// The last `n` groups of an address, each in hexadecimal, separated by `:`.
pub open spec fn groups_text(addr: nat, n: nat) -> Seq<char>
    decreases n,
{
    if n <= 1 {
        nat_to_hex(addr % 0x1_0000)
    } else {
        groups_text(addr / 0x1_0000, (n - 1) as nat) + seq![':'] + nat_to_hex(addr % 0x1_0000)
    }
}

/// How a prefix length is written: not at all where it is that of a
/// single address, and else after a `/`.
pub open spec fn prefix_text(prefix: u8, full: u8) -> Seq<char> {
    if prefix == full {
        Seq::empty()
    } else {
        seq!['/'] + nat_to_dec(prefix as nat)
    }
}

/// How an address or a range of addresses is written: an IPv4 address as
/// four decimal numbers, an IPv6 address as eight hexadecimal groups, and
/// the prefix length after a `/` where it is not that of a single address.
pub open spec fn show_ip(ip: IpNet) -> Seq<char> {
    match ip {
        IpNet::V4 { addr, prefix } => octets_text(addr as nat, 4) + prefix_text(prefix, 32),
        IpNet::V6 { addr, prefix } => groups_text(addr as nat, 8) + prefix_text(prefix, 128),
    }
}

fn push_octets(out: &mut String, addr: u32, n: u8)
    ensures
        final(out)@ == old(out)@ + octets_text(addr as nat, n as nat),
    decreases n,
{
    if n > 1 {
        push_octets(out, addr / 256, n - 1);
        push_char(out, '.');
    }
    push_nat(out, (addr % 256) as u64);
    assert(out@ =~= old(out)@ + octets_text(addr as nat, n as nat));
}

fn push_groups(out: &mut String, addr: u128, n: u8)
    ensures
        final(out)@ == old(out)@ + groups_text(addr as nat, n as nat),
    decreases n,
{
    if n > 1 {
        push_groups(out, addr / 0x1_0000, n - 1);
        push_char(out, ':');
    }
    push_hex(out, addr % 0x1_0000);
    assert(out@ =~= old(out)@ + groups_text(addr as nat, n as nat));
}

fn push_prefix(out: &mut String, prefix: u8, full: u8)
    ensures
        final(out)@ == old(out)@ + prefix_text(prefix, full),
{
    if prefix != full {
        push_char(out, '/');
        push_nat(out, prefix as u64);
    }
    assert(out@ =~= old(out)@ + prefix_text(prefix, full));
}

/// Appends an address or a range of addresses to `out`.
pub fn write_ip(out: &mut String, ip: &IpNet)
    ensures
        final(out)@ == old(out)@ + show_ip(*ip),
{
    match ip {
        IpNet::V4 { addr, prefix } => {
            push_octets(out, *addr, 4);
            push_prefix(out, *prefix, 32);
        },
        IpNet::V6 { addr, prefix } => {
            push_groups(out, *addr, 8);
            push_prefix(out, *prefix, 128);
        },
    }
    assert(out@ =~= old(out)@ + show_ip(*ip));
}

} // verus!
