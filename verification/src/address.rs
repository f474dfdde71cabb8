//! The textual forms of an IP address.
//!
//! An IPv4 address is written as four decimal numbers from 0 to 255 with
//! dots between them, none with a superfluous leading zero. An IPv6 address
//! is written as eight groups of one to four hexadecimal digits with colons
//! between them; one run of zero groups may be written `::`, and the last
//! two groups may be written as an IPv4 address. Nothing else is an address:
//! no host name, no surrounding space, no zone, no port.

use vstd::prelude::*;
use vstd::slice::*;
use vstd::string::*;
use vstd::utf8::encode_utf8;

verus! {

/// The byte `.`.
pub const DOT: u8 = 0x2e;

/// The byte `:`.
pub const COLON: u8 = 0x3a;

/// An IP address, by its numbers.
#[derive(Clone, Copy, Debug, PartialEq, Eq, Structural)]
pub enum IpAddress {
    /// The four numbers of an IPv4 address, in the order written.
    V4(u8, u8, u8, u8),
    /// The eight groups of an IPv6 address, in the order written.
    V6(u16, u16, u16, u16, u16, u16, u16, u16),
}

/// The fields of `s`: what stands before, between and after the bytes equal
/// to `sep`. There is always at least one field, and a field may be empty.
pub open spec fn split(s: Seq<u8>, sep: u8) -> Seq<Seq<u8>>
    decreases s.len(),
{
    if s.len() == 0 {
        seq![Seq::empty()]
    } else {
        let front = split(s.drop_last(), sep);
        if s.last() == sep {
            front.push(Seq::empty())
        } else {
            front.drop_last().push(front.last().push(s.last()))
        }
    }
}

/// Whether `b` is a decimal digit.
pub open spec fn is_digit(b: u8) -> bool {
    0x30 <= b <= 0x39
}

/// The number that the decimal digits `s` denote.
pub open spec fn decimal_value(s: Seq<u8>) -> nat
    decreases s.len(),
{
    if s.len() == 0 {
        0
    } else {
        decimal_value(s.drop_last()) * 10 + (s.last() - 0x30) as nat
    }
}

/// Whether `s` is one number of an IPv4 address: one to three digits, no
/// leading zero before another digit, at most 255.
pub open spec fn is_octet(s: Seq<u8>) -> bool {
    &&& 1 <= s.len() <= 3
    &&& forall|i: int| 0 <= i < s.len() ==> is_digit(#[trigger] s[i])
    &&& s.len() > 1 ==> s[0] != 0x30
    &&& decimal_value(s) <= 255
}

/// The numbers of the IPv4 address that `s` is, if it is one.
pub open spec fn ipv4_of(s: Seq<u8>) -> Option<(u8, u8, u8, u8)> {
    let f = split(s, DOT);
    if f.len() == 4 && is_octet(f[0]) && is_octet(f[1]) && is_octet(f[2]) && is_octet(f[3]) {
        Some(
            (
                decimal_value(f[0]) as u8,
                decimal_value(f[1]) as u8,
                decimal_value(f[2]) as u8,
                decimal_value(f[3]) as u8,
            ),
        )
    } else {
        None
    }
}

/// Whether `b` is a hexadecimal digit, of either case.
pub open spec fn is_hex_digit(b: u8) -> bool {
    is_digit(b) || 0x41 <= b <= 0x46 || 0x61 <= b <= 0x66
}

/// The value of the hexadecimal digit `b`.
pub open spec fn hex_digit_value(b: u8) -> nat
    recommends
        is_hex_digit(b),
{
    if is_digit(b) {
        (b - 0x30) as nat
    } else if 0x41 <= b <= 0x46 {
        (b - 0x41 + 10) as nat
    } else {
        (b - 0x61 + 10) as nat
    }
}

/// The number that the hexadecimal digits `s` denote.
pub open spec fn hex_value(s: Seq<u8>) -> nat
    decreases s.len(),
{
    if s.len() == 0 {
        0
    } else {
        hex_value(s.drop_last()) * 16 + hex_digit_value(s.last())
    }
}

/// Whether `s` is one group of an IPv6 address: one to four hexadecimal
/// digits.
pub open spec fn is_group(s: Seq<u8>) -> bool {
    &&& 1 <= s.len() <= 4
    &&& forall|i: int| 0 <= i < s.len() ==> is_hex_digit(#[trigger] s[i])
}

/// The group made of two bytes, the first being the upper half.
pub open spec fn join(high: u8, low: u8) -> u16 {
    (high * 256 + low) as u16
}

/// The list of groups that `s` is, if it is one: groups with single colons
/// between them, or nothing at all. Where `v4_tail` holds the last two
/// groups may be written as an IPv4 address.
#[verifier::opaque]
pub open spec fn groups_of(s: Seq<u8>, v4_tail: bool) -> Option<Seq<u16>> {
    if s.len() == 0 {
        Some(Seq::empty())
    } else {
        let f = split(s, COLON);
        let body = f.drop_last();
        if forall|i: int| 0 <= i < body.len() ==> is_group(#[trigger] body[i]) {
            let head = Seq::new(body.len(), |i: int| hex_value(body[i]) as u16);
            if is_group(f.last()) {
                Some(head.push(hex_value(f.last()) as u16))
            } else if v4_tail {
                match ipv4_of(f.last()) {
                    Some((a, b, c, d)) => Some(head.push(join(a, b)).push(join(c, d))),
                    None => None,
                }
            } else {
                None
            }
        } else {
            None
        }
    }
}

/// Whether two colons stand at `k` and `k + 1`.
pub open spec fn double_colon_at(s: Seq<u8>, k: int) -> bool {
    0 <= k && k + 1 < s.len() && s[k] == COLON && s[k + 1] == COLON
}

/// Where the first `::` of `s` stands, if there is one.
#[verifier::opaque]
pub open spec fn first_double_colon(s: Seq<u8>) -> Option<int> {
    if exists|k: int| double_colon_at(s, k) {
        Some(choose|k: int| double_colon_at(s, k) && forall|j: int| j < k ==> !double_colon_at(s, j))
    } else {
        None
    }
}

/// `count` groups of zero.
pub open spec fn zero_groups(count: nat) -> Seq<u16> {
    Seq::new(count, |i: int| 0u16)
}

/// The eight groups of the IPv6 address that `s` is, if it is one.
///
/// Without `::` the text is a list of exactly eight groups. With `::` it is
/// cut at the first one: before it stands a list of plain groups, after it a
/// list of groups, both together at most seven, and `::` stands for the
/// zero groups that are missing.
pub open spec fn ipv6_of(s: Seq<u8>) -> Option<Seq<u16>> {
    match first_double_colon(s) {
        None => match groups_of(s, true) {
            Some(g) if g.len() == 8 => Some(g),
            _ => None,
        },
        Some(k) => match (groups_of(s.take(k), false), groups_of(s.skip(k + 2), true)) {
            (Some(h), Some(t)) if h.len() + t.len() <= 7 => Some(
                h + zero_groups((8 - h.len() - t.len()) as nat) + t,
            ),
            _ => None,
        },
    }
}

/// The address that the text `s` is, if it is one.
pub open spec fn address_of(s: Seq<u8>) -> Option<IpAddress> {
    match ipv4_of(s) {
        Some((a, b, c, d)) => Some(IpAddress::V4(a, b, c, d)),
        None => match ipv6_of(s) {
            Some(g) => Some(v6_of_groups(g)),
            None => None,
        },
    }
}

/// The address that a text is, if it is one. A text is judged by its bytes:
/// no character beyond ASCII is part of an address.
pub open spec fn address_of_text(text: Seq<char>) -> Option<IpAddress> {
    address_of(encode_utf8(text))
}

/// The start and the end of each field of `s`.
fn split_fields(s: &[u8], sep: u8) -> (fields: Vec<(usize, usize)>)
    ensures
        fields.len() == split(s@, sep).len(),
        forall|j: int|
            0 <= j < fields.len() ==> (#[trigger] fields[j]).0 <= fields[j].1 <= s.len() && split(
                s@,
                sep,
            )[j] == s@.subrange(fields[j].0 as int, fields[j].1 as int),
{
    let mut fields: Vec<(usize, usize)> = Vec::new();
    let mut start: usize = 0;
    let mut i: usize = 0;
    while i < s.len()
        invariant
            start <= i <= s.len(),
            split(s@.take(i as int), sep).len() == fields.len() + 1,
            forall|j: int|
                0 <= j < fields.len() ==> (#[trigger] fields[j]).0 <= fields[j].1 <= s.len()
                    && split(s@.take(i as int), sep)[j] == s@.subrange(
                    fields[j].0 as int,
                    fields[j].1 as int,
                ),
            split(s@.take(i as int), sep).last() == s@.subrange(start as int, i as int),
        decreases s.len() - i,
    {
        proof {
            assert(s@.take(i + 1).drop_last() =~= s@.take(i as int));
            assert(s@.take(i + 1).last() == s@[i as int]);
            assert(s@.subrange(start as int, i as int).push(s@[i as int]) =~= s@.subrange(
                start as int,
                i + 1,
            ));
            assert(Seq::<u8>::empty() =~= s@.subrange(i + 1, i + 1));
        }
        if s[i] == sep {
            fields.push((start, i));
            start = i + 1;
        }
        i += 1;
    }
    proof {
        assert(s@.take(i as int) =~= s@);
    }
    fields.push((start, i));
    fields
}

/// Reads one number of an IPv4 address.
fn parse_octet(s: &[u8]) -> (value: Option<u8>)
    ensures
        value is Some <==> is_octet(s@),
        value matches Some(v) ==> v == decimal_value(s@),
{
    if s.len() == 0 || s.len() > 3 {
        return None;
    }
    if s.len() > 1 && s[0] == 0x30 {
        return None;
    }
    let mut v: u32 = 0;
    let mut i: usize = 0;
    while i < s.len()
        invariant
            i <= s.len() <= 3,
            forall|j: int| 0 <= j < i ==> is_digit(#[trigger] s@[j]),
            v == decimal_value(s@.take(i as int)),
            i == 0 ==> v == 0,
            i == 1 ==> v <= 9,
            i == 2 ==> v <= 99,
            i == 3 ==> v <= 999,
        decreases s.len() - i,
    {
        let b = s[i];
        if b < 0x30 || b > 0x39 {
            return None;
        }
        proof {
            assert(s@.take(i + 1).drop_last() =~= s@.take(i as int));
        }
        v = v * 10 + (b - 0x30) as u32;
        i += 1;
    }
    proof {
        assert(s@.take(i as int) =~= s@);
    }
    if v > 255 {
        None
    } else {
        Some(v as u8)
    }
}

/// Reads an IPv4 address.
pub fn parse_ipv4(s: &[u8]) -> (numbers: Option<(u8, u8, u8, u8)>)
    ensures
        numbers == ipv4_of(s@),
{
    let fields = split_fields(s, DOT);
    if fields.len() != 4 {
        return None;
    }
    let a = parse_octet(slice_subrange(s, fields[0].0, fields[0].1));
    let b = parse_octet(slice_subrange(s, fields[1].0, fields[1].1));
    let c = parse_octet(slice_subrange(s, fields[2].0, fields[2].1));
    let d = parse_octet(slice_subrange(s, fields[3].0, fields[3].1));
    match (a, b, c, d) {
        (Some(a), Some(b), Some(c), Some(d)) => Some((a, b, c, d)),
        _ => None,
    }
}

/// The text whose fields are `fields`: the fields with one `sep` between
/// each two of them.
pub open spec fn joined(fields: Seq<Seq<u8>>, sep: u8) -> Seq<u8>
    decreases fields.len(),
{
    if fields.len() == 0 {
        Seq::empty()
    } else if fields.len() == 1 {
        fields[0]
    } else {
        joined(fields.drop_last(), sep) + seq![sep] + fields.last()
    }
}

/// Whether no field holds the separator.
pub open spec fn free_of(fields: Seq<Seq<u8>>, sep: u8) -> bool {
    forall|i: int, j: int|
        0 <= i < fields.len() && 0 <= j < fields[i].len() ==> #[trigger] fields[i][j] != sep
}

/// The fields of a text hold no separator, and put together again with
/// separators between them they give the text back.
pub proof fn lemma_split_is_exact(s: Seq<u8>, sep: u8)
    ensures
        split(s, sep).len() >= 1,
        free_of(split(s, sep), sep),
        joined(split(s, sep), sep) == s,
    decreases s.len(),
{
    if s.len() > 0 {
        let front = split(s.drop_last(), sep);
        let fields = split(s, sep);
        lemma_split_is_exact(s.drop_last(), sep);
        assert(s =~= s.drop_last().push(s.last()));
        if s.last() == sep {
            assert(fields.drop_last() =~= front);
            assert(joined(fields, sep) =~= s);
            assert forall|i: int, j: int|
                0 <= i < fields.len() && 0 <= j < fields[i].len() implies #[trigger] fields[i][j]
                != sep by {
                assert(fields[i] == front[i]);
            }
        } else {
            let last = front.last().push(s.last());
            assert(fields.last() == last);
            assert(fields.drop_last() =~= front.drop_last());
            if front.len() == 1 {
                assert(joined(fields, sep) =~= s);
            } else {
                assert(joined(front, sep) == joined(front.drop_last(), sep) + seq![sep]
                    + front.last());
                assert(joined(fields, sep) =~= s);
            }
            assert forall|i: int, j: int|
                0 <= i < fields.len() && 0 <= j < fields[i].len() implies #[trigger] fields[i][j]
                != sep by {
                if i < fields.len() - 1 {
                    assert(fields[i] == front[i]);
                } else if j < front.last().len() {
                    assert(fields[i][j] == front[front.len() - 1][j]);
                }
            }
        }
    } else {
        assert(joined(split(s, sep), sep) =~= s);
    }
}

/// No other fields give the text: fields that hold no separator are the
/// fields of the text that they are put together to.
pub proof fn lemma_split_is_unique(fields: Seq<Seq<u8>>, sep: u8)
    requires
        fields.len() >= 1,
        free_of(fields, sep),
    ensures
        split(joined(fields, sep), sep) == fields,
    decreases joined(fields, sep).len(),
{
    let s = joined(fields, sep);
    let tail = fields.last();
    if tail.len() > 0 {
        let shorter = fields.drop_last().push(tail.drop_last());
        assert(shorter.drop_last() =~= fields.drop_last());
        assert(joined(shorter, sep) =~= s.drop_last());
        assert(tail[tail.len() - 1] != sep);
        assert(s.last() == tail.last());
        assert forall|i: int, j: int|
            0 <= i < shorter.len() && 0 <= j < shorter[i].len() implies #[trigger] shorter[i][j]
            != sep by {
            if i < shorter.len() - 1 {
                assert(shorter[i] == fields[i]);
            } else {
                assert(shorter[i][j] == fields[fields.len() - 1][j]);
            }
        }
        lemma_split_is_unique(shorter, sep);
        assert(tail.drop_last().push(tail.last()) =~= tail);
        assert(split(s, sep) =~= fields);
    } else if fields.len() == 1 {
        assert(s =~= Seq::<u8>::empty());
        assert(split(s, sep) =~= fields);
    } else {
        let shorter = fields.drop_last();
        assert(s =~= joined(shorter, sep).push(sep));
        assert(s.drop_last() =~= joined(shorter, sep));
        assert forall|i: int, j: int|
            0 <= i < shorter.len() && 0 <= j < shorter[i].len() implies #[trigger] shorter[i][j]
            != sep by {
            assert(shorter[i] == fields[i]);
        }
        lemma_split_is_unique(shorter, sep);
        assert(tail =~= Seq::<u8>::empty());
        assert(split(s, sep) =~= fields);
    }
}

proof fn lemma_least_double_colon(s: Seq<u8>, k: int)
    requires
        double_colon_at(s, k),
    ensures
        exists|m: int| double_colon_at(s, m) && forall|j: int| j < m ==> !double_colon_at(s, j),
    decreases k,
{
    if exists|j: int| j < k && double_colon_at(s, j) {
        let j = choose|j: int| j < k && double_colon_at(s, j);
        lemma_least_double_colon(s, j);
    } else {
        assert(double_colon_at(s, k) && forall|j: int| j < k ==> !double_colon_at(s, j));
    }
}

/// The first `::` is the one with no `::` before it, and there is none
/// exactly when the text holds no `::` at all.
pub proof fn lemma_first_double_colon(s: Seq<u8>)
    ensures
        match first_double_colon(s) {
            Some(k) => double_colon_at(s, k) && forall|j: int| j < k ==> !double_colon_at(s, j),
            None => forall|k: int| !double_colon_at(s, k),
        },
{
    reveal(first_double_colon);
    if exists|k: int| double_colon_at(s, k) {
        let k = choose|k: int| double_colon_at(s, k);
        lemma_least_double_colon(s, k);
    }
}

/// A text has at least one field.
pub proof fn lemma_split_has_a_field(s: Seq<u8>, sep: u8)
    ensures
        split(s, sep).len() >= 1,
    decreases s.len(),
{
    if s.len() > 0 {
        lemma_split_has_a_field(s.drop_last(), sep);
    }
}

/// Reads one group of an IPv6 address.
fn parse_group(s: &[u8]) -> (value: Option<u16>)
    ensures
        value is Some <==> is_group(s@),
        value matches Some(v) ==> v == hex_value(s@),
{
    if s.len() == 0 || s.len() > 4 {
        return None;
    }
    let mut v: u32 = 0;
    let mut i: usize = 0;
    while i < s.len()
        invariant
            i <= s.len() <= 4,
            forall|j: int| 0 <= j < i ==> is_hex_digit(#[trigger] s@[j]),
            v == hex_value(s@.take(i as int)),
            i == 0 ==> v == 0,
            i == 1 ==> v <= 0xf,
            i == 2 ==> v <= 0xff,
            i == 3 ==> v <= 0xfff,
            i == 4 ==> v <= 0xffff,
        decreases s.len() - i,
    {
        let b = s[i];
        let d: u32 = if 0x30 <= b && b <= 0x39 {
            (b - 0x30) as u32
        } else if 0x41 <= b && b <= 0x46 {
            (b - 0x41) as u32 + 10
        } else if 0x61 <= b && b <= 0x66 {
            (b - 0x61) as u32 + 10
        } else {
            return None;
        };
        proof {
            assert(s@.take(i + 1).drop_last() =~= s@.take(i as int));
        }
        v = v * 16 + d;
        i += 1;
    }
    proof {
        assert(s@.take(i as int) =~= s@);
    }
    Some(v as u16)
}

/// Reads a list of groups.
fn parse_groups(s: &[u8], v4_tail: bool) -> (groups: Option<Vec<u16>>)
    ensures
        match groups {
            Some(g) => groups_of(s@, v4_tail) == Some(g@),
            None => groups_of(s@, v4_tail) is None,
        },
{
    reveal(groups_of);
    if s.len() == 0 {
        let groups: Vec<u16> = Vec::new();
        assert(groups@ =~= Seq::<u16>::empty());
        return Some(groups);
    }
    let fields = split_fields(s, COLON);
    let ghost f = split(s@, COLON);
    let ghost body = f.drop_last();
    proof {
        lemma_split_has_a_field(s@, COLON);
    }
    let n = fields.len();
    let mut groups: Vec<u16> = Vec::new();
    let mut i: usize = 0;
    while i + 1 < n
        invariant
            n == fields.len(),
            n == f.len(),
            n >= 1,
            f == split(s@, COLON),
            body == f.drop_last(),
            i + 1 <= n,
            groups.len() == i,
            forall|j: int|
                0 <= j < fields.len() ==> (#[trigger] fields[j]).0 <= fields[j].1 <= s.len()
                    && f[j] == s@.subrange(fields[j].0 as int, fields[j].1 as int),
            forall|j: int| 0 <= j < i ==> is_group(#[trigger] body[j]),
            forall|j: int| 0 <= j < i ==> #[trigger] groups[j] == hex_value(body[j]) as u16,
        decreases n - i,
    {
        let field = slice_subrange(s, fields[i].0, fields[i].1);
        assert(field@ == body[i as int]);
        match parse_group(field) {
            Some(g) => {
                groups.push(g);
            },
            None => {
                proof {
                    reveal(groups_of);
                }
                return None;
            },
        }
        i += 1;
    }
    let ghost head = Seq::new(body.len(), |j: int| hex_value(body[j]) as u16);
    assert(groups@ =~= head);
    let last = slice_subrange(s, fields[n - 1].0, fields[n - 1].1);
    assert(last@ == f.last());
    match parse_group(last) {
        Some(g) => {
            groups.push(g);
            Some(groups)
        },
        None => {
            if v4_tail {
                match parse_ipv4(last) {
                    Some((a, b, c, d)) => {
                        groups.push((a as u16) * 256 + (b as u16));
                        groups.push((c as u16) * 256 + (d as u16));
                        Some(groups)
                    },
                    None => None,
                }
            } else {
                None
            }
        },
    }
}

/// Finds the first `::`.
fn find_double_colon(s: &[u8]) -> (found: Option<usize>)
    ensures
        match found {
            Some(k) => first_double_colon(s@) == Some(k as int) && k + 2 <= s.len(),
            None => first_double_colon(s@) is None,
        },
{
    reveal(first_double_colon);
    if s.len() < 2 {
        return None;
    }
    let mut k: usize = 0;
    while k < s.len() - 1
        invariant
            2 <= s.len(),
            k <= s.len() - 1,
            forall|j: int| j < k ==> !double_colon_at(s@, j),
        decreases s.len() - k,
    {
        if s[k] == COLON && s[k + 1] == COLON {
            proof {
                reveal(first_double_colon);
                assert(double_colon_at(s@, k as int));
                let c = choose|c: int|
                    double_colon_at(s@, c) && forall|j: int| j < c ==> !double_colon_at(s@, j);
                assert(c == k);
            }
            return Some(k);
        }
        k += 1;
    }
    None
}

/// The address with the eight groups `g`.
pub open spec fn v6_of_groups(g: Seq<u16>) -> IpAddress
    recommends
        g.len() == 8,
{
    IpAddress::V6(g[0], g[1], g[2], g[3], g[4], g[5], g[6], g[7])
}

fn v6_from(g: &Vec<u16>) -> (address: IpAddress)
    requires
        g.len() == 8,
    ensures
        address == v6_of_groups(g@),
{
    IpAddress::V6(g[0], g[1], g[2], g[3], g[4], g[5], g[6], g[7])
}

/// Puts the zero groups that `::` stands for between the groups before
/// and after it.
fn assemble(h: &Vec<u16>, t: &Vec<u16>) -> (all: Vec<u16>)
    requires
        h.len() + t.len() <= 7,
    ensures
        all@ == h@ + zero_groups((8 - h.len() - t.len()) as nat) + t@,
        all.len() == 8,
{
    let gap = 8 - h.len() - t.len();
    let mut all: Vec<u16> = Vec::new();
    let mut i: usize = 0;
    while i < h.len()
        invariant
            i <= h.len(),
            all@ == h@.take(i as int),
        decreases h.len() - i,
    {
        all.push(h[i]);
        assert(all@ =~= h@.take(i + 1));
        i += 1;
    }
    assert(h@.take(i as int) =~= h@);
    let mut z: usize = 0;
    while z < gap
        invariant
            z <= gap,
            all@ == h@ + zero_groups(z as nat),
        decreases gap - z,
    {
        all.push(0);
        assert(all@ =~= h@ + zero_groups((z + 1) as nat));
        z += 1;
    }
    let mut j: usize = 0;
    while j < t.len()
        invariant
            j <= t.len(),
            all@ == h@ + zero_groups(gap as nat) + t@.take(j as int),
        decreases t.len() - j,
    {
        all.push(t[j]);
        assert(all@ =~= h@ + zero_groups(gap as nat) + t@.take(j + 1));
        j += 1;
    }
    assert(t@.take(j as int) =~= t@);
    all
}

/// Reads an IPv6 address.
pub fn parse_ipv6(s: &[u8]) -> (address: Option<IpAddress>)
    ensures
        match address {
            Some(a) => ipv6_of(s@) matches Some(g) && a == v6_of_groups(g),
            None => ipv6_of(s@) is None,
        },
{
    match find_double_colon(s) {
        None => match parse_groups(s, true) {
            Some(g) => {
                if g.len() == 8 {
                    Some(v6_from(&g))
                } else {
                    None
                }
            },
            None => None,
        },
        Some(k) => {
            let head = parse_groups(slice_subrange(s, 0, k), false);
            let tail = parse_groups(slice_subrange(s, k + 2, s.len()), true);
            match (head, tail) {
                (Some(h), Some(t)) => {
                    if h.len() <= 7 && t.len() <= 7 - h.len() {
                        let all = assemble(&h, &t);
                        Some(v6_from(&all))
                    } else {
                        None
                    }
                },
                _ => None,
            }
        },
    }
}

/// Reads an IP address from its text.
///
/// The result is the address exactly when the text is one of the written
/// forms of an address, and nothing otherwise.
pub fn parse_address(text: &str) -> (address: Option<IpAddress>)
    ensures
        address == address_of_text(text@),
{
    let bytes = text.as_bytes();
    match parse_ipv4(bytes) {
        Some((a, b, c, d)) => Some(IpAddress::V4(a, b, c, d)),
        None => parse_ipv6(bytes),
    }
}

} // verus!
