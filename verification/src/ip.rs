//! Addresses and networks as plain values: an IPv6 address is a `u128`, a
//! network a `(u128, prefix)` pair, and IPv4 lives in the mapped
//! `::ffff:0:0/96` block. Textual IPv4 and CIDR forms are parsed here, and
//! networks are rendered back to text.

use vstd::prelude::*;
use vstd::string::*;
use crate::text::{
    dec_string, hex_string, spec_dec, spec_hex, spec_split_keep, split_keep,
};

verus! {

/// Whether `ip` lies in the network `net/cidr` (IPv4). A prefix of zero
/// matches everything; prefixes above 32 are clamped.
pub open spec fn spec_ipv4_in_prefix(ip: u32, net: u32, cidr: u32) -> bool {
    let c = if cidr < 32 { cidr } else { 32 };
    if c == 0 {
        true
    } else {
        (ip >> (32 - c)) == (net >> (32 - c))
    }
}

/// Whether `ip` lies in the network `net/cidr` (IPv6). A prefix of zero
/// matches everything; prefixes above 128 are clamped.
pub open spec fn spec_ipv6_in_prefix(ip: u128, net: u128, cidr: u32) -> bool {
    let c = if cidr < 128 { cidr } else { 128 };
    if c == 0 {
        true
    } else {
        (ip >> ((128 - c) as u128)) == (net >> ((128 - c) as u128))
    }
}

/// Whether two IPv6 networks overlap: they agree on the shorter of the two
/// prefixes.
pub open spec fn spec_ipv6_overlap(a_addr: u128, a_len: u8, b_addr: u128, b_len: u8) -> bool {
    let minp: u32 = if a_len < b_len {
        a_len as u32
    } else {
        b_len as u32
    };
    spec_ipv6_in_prefix(a_addr, b_addr, minp)
}

/// Check whether `ip` lies in `net/cidr` (IPv4).
pub fn ipv4_in_prefix(ip: u32, net: u32, cidr: u32) -> (r: bool)
    ensures
        r == spec_ipv4_in_prefix(ip, net, cidr),
{
    let c: u32 = if cidr < 32 { cidr } else { 32 };
    if c == 0 {
        true
    } else {
        (ip >> (32 - c)) == (net >> (32 - c))
    }
}

/// Check whether `ip` lies in `net/cidr` (IPv6).
pub fn ipv6_in_prefix(ip: u128, net: u128, cidr: u32) -> (r: bool)
    ensures
        r == spec_ipv6_in_prefix(ip, net, cidr),
{
    let c: u32 = if cidr < 128 { cidr } else { 128 };
    if c == 0 {
        true
    } else {
        (ip >> ((128 - c) as u128)) == (net >> ((128 - c) as u128))
    }
}

/// Check whether two IPv6 networks overlap (shorter prefix wins).
pub fn ipv6_overlap(a_addr: u128, a_len: u8, b_addr: u128, b_len: u8) -> (r: bool)
    ensures
        r == spec_ipv6_overlap(a_addr, a_len, b_addr, b_len),
{
    let minp: u32 = if a_len < b_len {
        a_len as u32
    } else {
        b_len as u32
    };
    ipv6_in_prefix(a_addr, b_addr, minp)
}

/// An IPv4 address mapped into IPv6 space: `::ffff:a.b.c.d`.
pub open spec fn spec_v4_to_v6(v4: u32) -> u128 {
    0xffff_0000_0000u128 | (v4 as u128)
}

/// Map an IPv4 address into the `::ffff:0:0/96` block.
pub fn v4_to_v6(v4: u32) -> (r: u128)
    ensures
        r == spec_v4_to_v6(v4),
{
    0xffff_0000_0000u128 | (v4 as u128)
}

/// Whether `c` is a decimal digit.
pub open spec fn spec_is_digit(c: char) -> bool {
    '0' <= c && c <= '9'
}

/// The numeric value of the decimal digits `p`, most significant first.
pub open spec fn spec_dec_val(p: Seq<char>) -> nat
    decreases p.len(),
{
    if p.len() == 0 {
        0nat
    } else {
        spec_dec_val(p.drop_last()) * 10 + (p.last() as u32 - '0' as u32) as nat
    }
}

/// A valid dotted-quad octet: one to three digits, no leading zero (except
/// `0` itself), value at most 255.
pub open spec fn spec_octet_ok(p: Seq<char>) -> bool {
    &&& 1 <= p.len() <= 3
    &&& forall|i: int| 0 <= i < p.len() ==> spec_is_digit(#[trigger] p[i])
    &&& (p.len() == 1 || p[0] != '0')
    &&& spec_dec_val(p) <= 255
}

/// A valid CIDR prefix-length field for an IPv4 network: one or two
/// digits, no leading zero except `0` itself, value at most 32.
pub open spec fn spec_v4_prefix_ok(p: Seq<char>) -> bool {
    &&& 1 <= p.len() <= 2
    &&& forall|i: int| 0 <= i < p.len() ==> spec_is_digit(#[trigger] p[i])
    &&& (p.len() == 1 || p[0] != '0')
    &&& spec_dec_val(p) <= 32
}

/// The address an IPv4 dotted-quad text denotes, if it is one: four valid
/// octets separated by dots.
pub open spec fn spec_parse_ipv4(s: Seq<char>) -> Option<u32> {
    let parts = spec_split_keep(s, '.');
    if parts.len() == 4 && spec_octet_ok(parts[0]) && spec_octet_ok(parts[1]) && spec_octet_ok(
        parts[2],
    ) && spec_octet_ok(parts[3]) {
        Some(
            (((spec_dec_val(parts[0]) as u32) << 24u32) | ((spec_dec_val(parts[1]) as u32)
                << 16u32) | ((spec_dec_val(parts[2]) as u32) << 8u32) | (spec_dec_val(
                parts[3],
            ) as u32)),
        )
    } else {
        None
    }
}

/// The IPv4 network a CIDR text denotes, if it is one: a dotted quad, a
/// slash, and a prefix length up to 32.
pub open spec fn spec_parse_cidr4(s: Seq<char>) -> Option<(u32, u8)> {
    let parts = spec_split_keep(s, '/');
    if parts.len() == 2 && spec_v4_prefix_ok(parts[1]) {
        match spec_parse_ipv4(parts[0]) {
            Some(a) => Some((a, spec_dec_val(parts[1]) as u8)),
            None => None,
        }
    } else {
        None
    }
}

fn parse_small_dec(p: &String, max_len: usize, max_val: u32) -> (r: Option<u32>)
    requires
        1 <= max_len <= 3,
        max_val <= 999,
    ensures
        ({
            let ok = 1 <= p@.len() <= max_len && (forall|i: int|
                0 <= i < p@.len() ==> spec_is_digit(#[trigger] p@[i])) && (p@.len() == 1 || p@[0]
                != '0') && spec_dec_val(p@) <= max_val;
            &&& ok ==> r == Some(spec_dec_val(p@) as u32)
            &&& !ok ==> r is None
        }),
{
    let n = p.as_str().unicode_len();
    if n < 1 || n > max_len {
        return None;
    }
    let mut val: u32 = 0;
    let mut i: usize = 0;
    proof {
        assert(p@.take(0) =~= Seq::<char>::empty());
    }
    while i < n
        invariant
            n == p@.len(),
            n <= 3,
            i <= n,
            forall|k: int| 0 <= k < i ==> spec_is_digit(#[trigger] p@[k]),
            val == spec_dec_val(p@.take(i as int)),
            i == 0 ==> val == 0,
            i == 1 ==> val <= 9,
            i == 2 ==> val <= 99,
            i == 3 ==> val <= 999,
        decreases n - i,
    {
        let c = p.as_str().get_char(i);
        if c < '0' || c > '9' {
            return None;
        }
        proof {
            assert(p@.take(i + 1).drop_last() =~= p@.take(i as int));
            assert(p@.take(i + 1).last() == p@[i as int]);
        }
        let d: u32 = (c as u32) - 48;
        val = val * 10 + d;
        i = i + 1;
        proof {
            assert(spec_dec_val(p@.take(i as int)) == spec_dec_val(p@.take(i as int - 1)) * 10 + (
            p@[i as int - 1] as u32 - '0' as u32) as nat);
        }
    }
    proof {
        assert(p@.take(n as int) =~= p@);
    }
    if n > 1 && p.as_str().get_char(0) == '0' {
        return None;
    }
    if val > max_val {
        return None;
    }
    Some(val)
}

/// Parse an IPv4 dotted quad. `None` exactly when the text is not one.
pub fn parse_ipv4(s: &str) -> (r: Option<u32>)
    ensures
        r == spec_parse_ipv4(s@),
{
    let parts = split_keep(s, '.');
    proof {
        assert(parts.deep_view().len() == parts@.len());
    }
    if parts.len() != 4 {
        return None;
    }
    proof {
        assert(parts@[0]@ == parts.deep_view()[0]);
        assert(parts@[1]@ == parts.deep_view()[1]);
        assert(parts@[2]@ == parts.deep_view()[2]);
        assert(parts@[3]@ == parts.deep_view()[3]);
    }
    let a = match parse_small_dec(&parts[0], 3, 255) {
        Some(v) => v,
        None => {
            return None;
        },
    };
    let b = match parse_small_dec(&parts[1], 3, 255) {
        Some(v) => v,
        None => {
            return None;
        },
    };
    let c = match parse_small_dec(&parts[2], 3, 255) {
        Some(v) => v,
        None => {
            return None;
        },
    };
    let d = match parse_small_dec(&parts[3], 3, 255) {
        Some(v) => v,
        None => {
            return None;
        },
    };
    Some((a << 24u32) | (b << 16u32) | (c << 8u32) | d)
}

/// Parse an IPv4 CIDR (`a.b.c.d/len`). `None` exactly when the text is not
/// one.
pub fn parse_cidr4(s: &str) -> (r: Option<(u32, u8)>)
    ensures
        r == spec_parse_cidr4(s@),
{
    let parts = split_keep(s, '/');
    proof {
        assert(parts.deep_view().len() == parts@.len());
    }
    if parts.len() != 2 {
        return None;
    }
    proof {
        assert(parts@[0]@ == parts.deep_view()[0]);
        assert(parts@[1]@ == parts.deep_view()[1]);
    }
    let plen = match parse_small_dec(&parts[1], 2, 32) {
        Some(v) => v,
        None => {
            return None;
        },
    };
    let addr = match parse_ipv4(parts[0].as_str()) {
        Some(v) => v,
        None => {
            return None;
        },
    };
    Some((addr, plen as u8))
}

/// Whether `c` is a hex digit, either case.
pub open spec fn spec_is_hex_digit(c: char) -> bool {
    ('0' <= c && c <= '9') || ('a' <= c && c <= 'f') || ('A' <= c && c <= 'F')
}

/// The value of one hex digit.
pub open spec fn spec_hex_digit_val(c: char) -> nat {
    if '0' <= c && c <= '9' {
        (c as u32 - '0' as u32) as nat
    } else if 'a' <= c && c <= 'f' {
        (c as u32 - 'a' as u32 + 10) as nat
    } else {
        (c as u32 - 'A' as u32 + 10) as nat
    }
}

/// The numeric value of the hex digits `p`, most significant first.
pub open spec fn spec_hex_val(p: Seq<char>) -> nat
    decreases p.len(),
{
    if p.len() == 0 {
        0nat
    } else {
        spec_hex_val(p.drop_last()) * 16 + spec_hex_digit_val(p.last())
    }
}

/// A valid IPv6 address group: one to four hex digits.
pub open spec fn spec_hex_group_ok(p: Seq<char>) -> bool {
    &&& 1 <= p.len() <= 4
    &&& forall|i: int| 0 <= i < p.len() ==> spec_is_hex_digit(#[trigger] p[i])
}

fn parse_hex_group(p: &String) -> (r: Option<u64>)
    ensures
        spec_hex_group_ok(p@) ==> (r matches Some(v) && v as nat == spec_hex_val(p@) && v
            <= 0xffff),
        !spec_hex_group_ok(p@) ==> r is None,
{
    let n = p.as_str().unicode_len();
    if n < 1 || n > 4 {
        return None;
    }
    let mut val: u64 = 0;
    let mut i: usize = 0;
    proof {
        assert(p@.take(0) =~= Seq::<char>::empty());
    }
    while i < n
        invariant
            n == p@.len(),
            n <= 4,
            i <= n,
            forall|k: int| 0 <= k < i ==> spec_is_hex_digit(#[trigger] p@[k]),
            val == spec_hex_val(p@.take(i as int)),
            i == 0 ==> val == 0,
            i == 1 ==> val <= 0xf,
            i == 2 ==> val <= 0xff,
            i == 3 ==> val <= 0xfff,
            i == 4 ==> val <= 0xffff,
        decreases n - i,
    {
        let c = p.as_str().get_char(i);
        let d: u64 = if c >= '0' && c <= '9' {
            (c as u32 as u64) - 48
        } else if c >= 'a' && c <= 'f' {
            (c as u32 as u64) - 97 + 10
        } else if c >= 'A' && c <= 'F' {
            (c as u32 as u64) - 65 + 10
        } else {
            return None;
        };
        proof {
            assert(p@.take(i + 1).drop_last() =~= p@.take(i as int));
            assert(p@.take(i + 1).last() == p@[i as int]);
            assert(d as nat == spec_hex_digit_val(p@[i as int]));
        }
        val = val * 16 + d;
        i = i + 1;
    }
    proof {
        assert(p@.take(n as int) =~= p@);
    }
    Some(val)
}

/// The packed value and group count of a run of address fields, most
/// significant first. A field is a hex group (one 16-bit group); when
/// `dotted_tail` is set the final field may instead be a dotted quad (two
/// groups). Fails on an invalid field or when more than eight groups
/// accumulate.
pub open spec fn spec_fold_fields(fs: Seq<Seq<char>>, dotted_tail: bool) -> Option<(nat, nat)>
    decreases fs.len(),
{
    if fs.len() == 0 {
        Some((0nat, 0nat))
    } else {
        match spec_fold_fields(fs.drop_last(), false) {
            None => None,
            Some(vc) => {
                let last = fs.last();
                if spec_hex_group_ok(last) {
                    if vc.1 + 1 <= 8 {
                        Some((vc.0 * 0x10000 + spec_hex_val(last), vc.1 + 1))
                    } else {
                        None
                    }
                } else {
                    match spec_parse_ipv4(last) {
                        Some(ip) => if dotted_tail && vc.1 + 2 <= 8 {
                            Some((vc.0 * 0x1_0000_0000 + ip as nat, vc.1 + 2))
                        } else {
                            None
                        },
                        None => None,
                    }
                }
            },
        }
    }
}

proof fn lemma_fold_none_prefix(fs: Seq<Seq<char>>, d: bool, j: int)
    requires
        0 <= j < fs.len(),
        spec_fold_fields(fs.take(j), false) is None,
    ensures
        spec_fold_fields(fs, d) is None,
    decreases fs.len() - j,
{
    assert(fs.take(j + 1).drop_last() =~= fs.take(j));
    if j + 1 < fs.len() {
        lemma_fold_none_prefix(fs, d, j + 1);
    } else {
        assert(fs.drop_last() =~= fs.take(j));
    }
}

fn fold_fields(fields: &Vec<String>, start: usize, end: usize, dotted_tail: bool) -> (r: Option<
    (u128, u8),
>)
    requires
        start <= end <= fields@.len(),
    ensures
        ({
            let folded = spec_fold_fields(
                fields.deep_view().subrange(start as int, end as int),
                dotted_tail,
            );
            &&& (folded matches Some(vc) ==> r matches Some(p) && p.0 as nat == vc.0 && p.1 as nat
                == vc.1 && p.1 <= 8)
            &&& (folded is None ==> r is None)
        }),
{
    let ghost sub = fields.deep_view().subrange(start as int, end as int);
    let mut acc: u128 = 0;
    let mut cnt: u8 = 0;
    let mut i: usize = start;
    proof {
        assert(sub.take(0) =~= Seq::<Seq<char>>::empty());
    }
    while i < end
        invariant
            start <= i <= end <= fields@.len(),
            sub == fields.deep_view().subrange(start as int, end as int),
            i < end ==> spec_fold_fields(sub.take(i - start), false) == Some(
                (acc as nat, cnt as nat),
            ),
            i == end ==> spec_fold_fields(sub, dotted_tail) == Some((acc as nat, cnt as nat)),
            cnt <= 8,
            cnt == 0 ==> acc == 0,
            cnt == 1 ==> acc <= 0xffff,
            cnt == 2 ==> acc <= 0xffff_ffff,
            cnt == 3 ==> acc <= 0xffff_ffff_ffff,
            cnt == 4 ==> acc <= 0xffff_ffff_ffff_ffff,
            cnt == 5 ==> acc <= 0xffff_ffff_ffff_ffff_ffff,
            cnt == 6 ==> acc <= 0xffff_ffff_ffff_ffff_ffff_ffff,
            cnt == 7 ==> acc <= 0xffff_ffff_ffff_ffff_ffff_ffff_ffff,
        decreases end - i,
    {
        let m = i - start;
        let dotted_here = dotted_tail && i + 1 == end;
        proof {
            assert(sub.take(m + 1).drop_last() =~= sub.take(m as int));
            assert(sub.take(m + 1).last() == sub[m as int]);
            assert(sub[m as int] == fields.deep_view()[i as int]);
            assert(fields.deep_view()[i as int] == fields@[i as int]@);
        }
        let ok: bool = match parse_hex_group(&fields[i]) {
            Some(g) => {
                if cnt >= 8 {
                    false
                } else {
                    acc = acc * 0x10000 + (g as u128);
                    cnt = cnt + 1;
                    true
                }
            },
            None => {
                match parse_ipv4(fields[i].as_str()) {
                    Some(ip) => {
                        if dotted_here && cnt <= 6 {
                            acc = acc * 0x1_0000_0000 + (ip as u128);
                            cnt = cnt + 2;
                            true
                        } else {
                            false
                        }
                    },
                    None => false,
                }
            },
        };
        if !ok {
            proof {
                let flag = if m + 1 == sub.len() { dotted_tail } else { false };
                assert(spec_fold_fields(sub.take(m + 1), flag) is None);
                if m + 1 < sub.len() {
                    lemma_fold_none_prefix(sub, dotted_tail, m + 1);
                } else {
                    assert(sub.take(m + 1) =~= sub);
                }
            }
            return None;
        }
        i = i + 1;
        proof {
            let flag = if i - start == sub.len() { dotted_tail } else { false };
            assert(spec_fold_fields(sub.take(i - start), flag) == Some((acc as nat, cnt as nat)));
            if i - start < sub.len() {
                assert(spec_fold_fields(sub.take(i - start), false) == Some(
                    (acc as nat, cnt as nat),
                ));
            }
        }
    }
    proof {
        assert(sub.take(end - start) =~= sub);
    }
    Some((acc, cnt))
}

/// How many fields of `fs` are empty.
pub open spec fn spec_count_empty(fs: Seq<Seq<char>>) -> nat
    decreases fs.len(),
{
    if fs.len() == 0 {
        0nat
    } else {
        spec_count_empty(fs.drop_last()) + (if fs.last().len() == 0 {
            1nat
        } else {
            0nat
        })
    }
}

/// The index of the first empty field, or the length when none is empty.
pub open spec fn spec_find_empty(fs: Seq<Seq<char>>) -> int
    decreases fs.len(),
{
    if fs.len() == 0 {
        0
    } else if fs[0].len() == 0 {
        0
    } else {
        1 + spec_find_empty(fs.drop_first())
    }
}

proof fn lemma_find_empty(fs: Seq<Seq<char>>)
    ensures
        0 <= spec_find_empty(fs) <= fs.len(),
        forall|j: int| 0 <= j < spec_find_empty(fs) ==> (#[trigger] fs[j]).len() != 0,
        spec_find_empty(fs) < fs.len() ==> fs[spec_find_empty(fs)].len() == 0,
    decreases fs.len(),
{
    if fs.len() > 0 && fs[0].len() != 0 {
        lemma_find_empty(fs.drop_first());
        assert forall|j: int| 0 <= j < spec_find_empty(fs) implies (#[trigger] fs[j]).len()
            != 0 by {
            if j >= 1 {
                assert(fs.drop_first()[j - 1] == fs[j]);
                assert(j - 1 < spec_find_empty(fs.drop_first()));
            }
        }
        if spec_find_empty(fs) < fs.len() {
            assert(fs.drop_first()[spec_find_empty(fs.drop_first())] == fs[spec_find_empty(fs)]);
        }
    }
}

/// The value of `front` as the top groups of an address (there are `fl` of
/// them) combined with `back` as the bottom groups, zeros between.
pub open spec fn spec_assemble(front: nat, fl: nat, back: nat) -> u128 {
    if fl == 0 {
        back as u128
    } else {
        ((front as u128) << ((16 * (8 - fl)) as u128)) | (back as u128)
    }
}

fn assemble(front: u128, fl: u8, back: u128) -> (r: u128)
    requires
        1 <= fl <= 8,
    ensures
        r == spec_assemble(front as nat, fl as nat, back as nat),
{
    let sh: u32 = 16 * (8 - (fl as u32));
    front << (sh as u128) | back
}

/// The address an IPv6 text denotes, if it is one. The accepted grammar:
/// fields of one to four hex digits separated by colons — eight of them,
/// or fewer with a single `::` eliding the zero groups between (leading,
/// trailing, or in the middle; `::` alone is the zero address) — and the
/// final field may be an IPv4 dotted quad standing for the last two
/// groups.
pub open spec fn spec_parse_ipv6(s: Seq<char>) -> Option<u128> {
    let fs = spec_split_keep(s, ':');
    let k = spec_count_empty(fs);
    let n = fs.len() as int;
    if k == 0 {
        match spec_fold_fields(fs, true) {
            Some(vc) => if vc.1 == 8 {
                Some(vc.0 as u128)
            } else {
                None
            },
            None => None,
        }
    } else if k == 1 {
        let p = spec_find_empty(fs);
        if 0 < p < n - 1 {
            match (spec_fold_fields(fs.take(p), false), spec_fold_fields(fs.skip(p + 1), true)) {
                (Some(f), Some(b)) => if f.1 + b.1 <= 7 {
                    Some(spec_assemble(f.0, f.1, b.0))
                } else {
                    None
                },
                _ => None,
            }
        } else {
            None
        }
    } else if k == 2 {
        if n >= 3 && fs[0].len() == 0 && fs[1].len() == 0 {
            match spec_fold_fields(fs.skip(2), true) {
                Some(b) => if b.1 <= 7 {
                    Some(b.0 as u128)
                } else {
                    None
                },
                None => None,
            }
        } else if n >= 3 && fs[n - 1].len() == 0 && fs[n - 2].len() == 0 {
            match spec_fold_fields(fs.take(n - 2), false) {
                Some(f) => if 1 <= f.1 <= 7 {
                    Some(spec_assemble(f.0, f.1, 0))
                } else {
                    None
                },
                None => None,
            }
        } else {
            None
        }
    } else if k == 3 && n == 3 && fs[0].len() == 0 && fs[1].len() == 0 && fs[2].len() == 0 {
        Some(0u128)
    } else {
        None
    }
}

/// Parse an IPv6 address text (see [`spec_parse_ipv6`] for the grammar).
pub fn parse_ipv6(s: &str) -> (r: Option<u128>)
    ensures
        r == spec_parse_ipv6(s@),
{
    let fields = split_keep(s, ':');
    let ghost fs = spec_split_keep(s@, ':');
    let n = fields.len();
    proof {
        assert(fields.deep_view() == fs);
        assert(fs.len() == n);
    }
    // Count the empty fields and find the first one.
    let mut k: usize = 0;
    let mut first_empty: usize = n;
    let mut i: usize = 0;
    proof {
        assert(fs.take(0) =~= Seq::<Seq<char>>::empty());
    }
    while i < n
        invariant
            i <= n == fields@.len(),
            fields.deep_view() == fs,
            k <= i,
            k == spec_count_empty(fs.take(i as int)),
            first_empty == n || (first_empty < i && fs[first_empty as int].len() == 0),
            forall|j: int| 0 <= j < i && j < first_empty ==> (#[trigger] fs[j]).len() != 0,
        decreases n - i,
    {
        proof {
            assert(fs.take(i + 1).drop_last() =~= fs.take(i as int));
            assert(fs.take(i + 1).last() == fs[i as int]);
            assert(fs[i as int] == fields@[i as int]@);
        }
        if fields[i].as_str().unicode_len() == 0 {
            proof {
                assert(fields.deep_view()[i as int] == fields@[i as int]@);
                assert(fs[i as int].len() == 0);
            }
            k = k + 1;
            if first_empty == n {
                first_empty = i;
            }
        }
        i = i + 1;
    }
    proof {
        assert(fs.take(n as int) =~= fs);
        lemma_find_empty(fs);
        if first_empty < n {
            assert(first_empty as int == spec_find_empty(fs)) by {
                if (first_empty as int) < spec_find_empty(fs) {
                    assert(fs[first_empty as int].len() != 0);
                }
                if spec_find_empty(fs) < first_empty as int {
                    assert(fs[spec_find_empty(fs)].len() != 0);
                }
            }
        } else {
            assert(forall|j: int| 0 <= j < fs.len() ==> (#[trigger] fs[j]).len() != 0);
            lemma_count_empty_zero(fs);
        }
    }
    if k == 0 {
        proof {
            assert(fields.deep_view().subrange(0, n as int) =~= fs);
        }
        match fold_fields(&fields, 0, n, true) {
            Some((v, c)) => if c == 8 {
                Some(v)
            } else {
                None
            },
            None => None,
        }
    } else if k == 1 {
        let p = first_empty;
        if 0 < p && p < n - 1 {
            proof {
                assert(fields.deep_view().subrange(0, p as int) =~= fs.take(p as int));
                assert(fields.deep_view().subrange(p + 1, n as int) =~= fs.skip(p + 1));
            }
            let front = fold_fields(&fields, 0, p, false);
            let back = fold_fields(&fields, p + 1, n, true);
            match (front, back) {
                (Some((fv, fc)), Some((bv, bc))) => {
                    if fc + bc <= 7 {
                        if fc == 0 {
                            Some(bv)
                        } else {
                            Some(assemble(fv, fc, bv))
                        }
                    } else {
                        None
                    }
                },
                _ => None,
            }
        } else {
            None
        }
    } else if k == 2 {
        if n >= 3 {
            if fields[0].as_str().unicode_len() == 0 && fields[1].as_str().unicode_len() == 0 {
                proof {
                    assert(fields.deep_view().subrange(2, n as int) =~= fs.skip(2));
                }
                match fold_fields(&fields, 2, n, true) {
                    Some((bv, bc)) => if bc <= 7 {
                        Some(bv)
                    } else {
                        None
                    },
                    None => None,
                }
            } else if fields[n - 1].as_str().unicode_len() == 0 && fields[n
                - 2].as_str().unicode_len() == 0 {
                proof {
                    assert(fields.deep_view().subrange(0, n - 2) =~= fs.take(n - 2));
                }
                match fold_fields(&fields, 0, n - 2, false) {
                    Some((fv, fc)) => if 1 <= fc && fc <= 7 {
                        Some(assemble(fv, fc, 0))
                    } else {
                        None
                    },
                    None => None,
                }
            } else {
                None
            }
        } else {
            None
        }
    } else if k == 3 && n == 3 && fields[0].as_str().unicode_len() == 0 && fields[
        1
    ].as_str().unicode_len() == 0 && fields[2].as_str().unicode_len() == 0 {
        Some(0)
    } else {
        None
    }
}

proof fn lemma_count_empty_zero(fs: Seq<Seq<char>>)
    requires
        forall|j: int| 0 <= j < fs.len() ==> (#[trigger] fs[j]).len() != 0,
    ensures
        spec_count_empty(fs) == 0,
    decreases fs.len(),
{
    if fs.len() > 0 {
        assert(forall|j: int|
            0 <= j < fs.drop_last().len() ==> #[trigger] fs.drop_last()[j] == fs[j]);
        lemma_count_empty_zero(fs.drop_last());
    }
}

/// The address an IP text denotes: a dotted quad (mapped into the
/// `::ffff:0:0/96` block, as std maps IPv4 into IPv6 space) or an IPv6
/// text.
pub open spec fn spec_parse_ip(s: Seq<char>) -> Option<u128> {
    match spec_parse_ipv4(s) {
        Some(v4) => Some(spec_v4_to_v6(v4)),
        None => spec_parse_ipv6(s),
    }
}

/// Parse an IP address of either family into IPv6 space.
pub fn parse_ip(s: &str) -> (r: Option<u128>)
    ensures
        r == spec_parse_ip(s@),
{
    match parse_ipv4(s) {
        Some(v4) => Some(v4_to_v6(v4)),
        None => parse_ipv6(s),
    }
}

/// The IPv6 network a CIDR text denotes, if it is one: an IPv6 address, a
/// slash, and a prefix length up to 128.
pub open spec fn spec_parse_cidr6(s: Seq<char>) -> Option<(u128, u8)> {
    let parts = spec_split_keep(s, '/');
    if parts.len() == 2 && spec_v6_prefix_ok(parts[1]) {
        match spec_parse_ipv6(parts[0]) {
            Some(a) => Some((a, spec_dec_val(parts[1]) as u8)),
            None => None,
        }
    } else {
        None
    }
}

/// A valid prefix-length field for an IPv6 network: one to three digits,
/// no leading zero except `0` itself, value at most 128.
pub open spec fn spec_v6_prefix_ok(p: Seq<char>) -> bool {
    &&& 1 <= p.len() <= 3
    &&& forall|i: int| 0 <= i < p.len() ==> spec_is_digit(#[trigger] p[i])
    &&& (p.len() == 1 || p[0] != '0')
    &&& spec_dec_val(p) <= 128
}

/// Parse an IPv6 CIDR (`addr/len`). `None` exactly when the text is not
/// one.
pub fn parse_cidr6(s: &str) -> (r: Option<(u128, u8)>)
    ensures
        r == spec_parse_cidr6(s@),
{
    let parts = split_keep(s, '/');
    proof {
        assert(parts.deep_view().len() == parts@.len());
    }
    if parts.len() != 2 {
        return None;
    }
    proof {
        assert(parts@[0]@ == parts.deep_view()[0]);
        assert(parts@[1]@ == parts.deep_view()[1]);
    }
    let plen = match parse_small_dec(&parts[1], 3, 128) {
        Some(v) => v,
        None => {
            return None;
        },
    };
    let addr = match parse_ipv6(parts[0].as_str()) {
        Some(v) => v,
        None => {
            return None;
        },
    };
    Some((addr, plen as u8))
}

/// The IPv6-space network a CIDR query denotes: an IPv4 network mapped
/// with its prefix lengthened by 96, or an IPv6 network as written.
pub open spec fn spec_parse_cidr(s: Seq<char>) -> Option<(u128, u8)> {
    match spec_parse_cidr4(s) {
        Some(q) => Some((spec_v4_to_v6(q.0), (q.1 + 96) as u8)),
        None => spec_parse_cidr6(s),
    }
}

/// Parse a CIDR of either family into IPv6 space.
pub fn parse_cidr(s: &str) -> (r: Option<(u128, u8)>)
    ensures
        r == spec_parse_cidr(s@),
{
    match parse_cidr4(s) {
        Some((net4, plen)) => Some((v4_to_v6(net4), plen + 96)),
        None => parse_cidr6(s),
    }
}

/// One 16-bit group of an IPv6 address: bits `k .. k + 16`.
pub open spec fn spec_group(addr: u128, k: u128) -> nat {
    ((addr >> k) & 0xffff) as nat
}

fn group(addr: u128, k: u32) -> (r: u64)
    requires
        k <= 112,
    ensures
        r as nat == spec_group(addr, k as u128),
{
    let g: u128 = (addr >> (k as u128)) & 0xffff;
    proof {
        assert((addr >> (k as u128)) & 0xffff <= 0xffff) by (bit_vector);
    }
    g as u64
}

/// One octet of an IPv4 address: bits `k .. k + 8` of the low word.
pub open spec fn spec_v4_octet(addr: u128, k: u128) -> nat {
    ((addr >> k) & 0xff) as nat
}

fn v4_octet(addr: u128, k: u32) -> (r: u64)
    requires
        k <= 24,
    ensures
        r as nat == spec_v4_octet(addr, k as u128),
{
    let g: u128 = (addr >> (k as u128)) & 0xff;
    proof {
        assert((addr >> (k as u128)) & 0xff <= 0xff) by (bit_vector);
    }
    g as u64
}

/// The text of the network `addr/prefix`. A network inside the IPv4-mapped
/// block (`::ffff:0:0/96`, prefix at least 96) renders as the dotted quad
/// with the prefix reduced by 96; anything else renders as eight
/// colon-separated hex groups (no zero compression) with the full prefix.
pub open spec fn spec_net_str(addr: u128, prefix: u8) -> Seq<char> {
    if prefix >= 96 && (addr >> 32u128) == 0xffff {
        spec_dec(spec_v4_octet(addr, 24)) + seq!['.'] + spec_dec(spec_v4_octet(addr, 16))
            + seq!['.'] + spec_dec(spec_v4_octet(addr, 8)) + seq!['.'] + spec_dec(
            spec_v4_octet(addr, 0),
        ) + seq!['/'] + spec_dec((prefix - 96) as nat)
    } else {
        spec_hex(spec_group(addr, 112)) + seq![':'] + spec_hex(spec_group(addr, 96)) + seq![':']
            + spec_hex(spec_group(addr, 80)) + seq![':'] + spec_hex(spec_group(addr, 64))
            + seq![':'] + spec_hex(spec_group(addr, 48)) + seq![':'] + spec_hex(
            spec_group(addr, 32),
        ) + seq![':'] + spec_hex(spec_group(addr, 16)) + seq![':'] + spec_hex(spec_group(addr, 0))
            + seq!['/'] + spec_dec(prefix as nat)
    }
}

/// Render the network `addr/prefix` as text (see [`spec_net_str`]).
pub fn net_to_string(addr: u128, prefix: u8) -> (r: String)
    ensures
        r@ == spec_net_str(addr, prefix),
{
    proof {
        reveal_strlit(".");
        reveal_strlit(":");
        reveal_strlit("/");
    }
    if prefix >= 96 && (addr >> 32u128) == 0xffff {
        let mut s = dec_string(v4_octet(addr, 24));
        s.append(".");
        let o = dec_string(v4_octet(addr, 16));
        s.append(o.as_str());
        s.append(".");
        let o = dec_string(v4_octet(addr, 8));
        s.append(o.as_str());
        s.append(".");
        let o = dec_string(v4_octet(addr, 0));
        s.append(o.as_str());
        s.append("/");
        let o = dec_string((prefix - 96) as u64);
        s.append(o.as_str());
        proof {
            assert(s@ =~= spec_net_str(addr, prefix));
        }
        s
    } else {
        let mut s = hex_string(group(addr, 112));
        s.append(":");
        let o = hex_string(group(addr, 96));
        s.append(o.as_str());
        s.append(":");
        let o = hex_string(group(addr, 80));
        s.append(o.as_str());
        s.append(":");
        let o = hex_string(group(addr, 64));
        s.append(o.as_str());
        s.append(":");
        let o = hex_string(group(addr, 48));
        s.append(o.as_str());
        s.append(":");
        let o = hex_string(group(addr, 32));
        s.append(o.as_str());
        s.append(":");
        let o = hex_string(group(addr, 16));
        s.append(o.as_str());
        s.append(":");
        let o = hex_string(group(addr, 0));
        s.append(o.as_str());
        s.append("/");
        let o = dec_string(prefix as u64);
        s.append(o.as_str());
        proof {
            assert(s@ =~= spec_net_str(addr, prefix));
        }
        s
    }
}

} // verus!
