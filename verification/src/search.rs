//! Read-only search over the device catalog: exact-IP lookup through the
//! longest-prefix table, CIDR and textual network matches, then
//! case-insensitive substring matches over circuit, device and site names.
//! Results are deduplicated by key and capped at 50.

use vstd::prelude::*;
use vstd::string::*;
use crate::ip::{
    ipv6_overlap, net_to_string, parse_cidr, parse_ip, spec_ipv6_in_prefix, spec_ipv6_overlap,
    spec_net_str, spec_parse_cidr, spec_parse_ip,
};
use crate::text::{spec_dec, dec_string, spec_trim, strings_equal, trim_spaces};

verus! {

/// A search query.
#[derive(Debug)]
pub struct SearchRequest {
    /// The term to look for.
    pub term: String,
}

/// One search hit.
#[derive(Debug)]
pub enum SearchResult {
    /// A subscriber circuit, matched by name.
    Circuit {
        /// Circuit identifier.
        id: String,
        /// Circuit name.
        name: String,
    },
    /// A device, matched by address, network or name.
    Device {
        /// Identifier of the circuit the device belongs to.
        circuit_id: String,
        /// Display name (possibly with the matched network appended).
        name: String,
        /// Name of the circuit the device belongs to.
        circuit_name: String,
    },
    /// A site, matched by name.
    Site {
        /// Index of the site in the network tree.
        idx: usize,
        /// Site name.
        name: String,
    },
}

/// One device of the catalog.
#[derive(Debug)]
pub struct CatalogDevice {
    /// Identifier of the circuit the device belongs to.
    pub circuit_id: String,
    /// Name of the circuit the device belongs to.
    pub circuit_name: String,
    /// The device's own name.
    pub device_name: String,
}

/// One entry of the longest-prefix-match table: a network and the index of
/// the device it belongs to.
#[derive(Debug, Clone, Copy, PartialEq, Eq, Structural)]
pub struct TrieEntry {
    /// Network address (IPv6; IPv4 lives in the mapped block).
    pub address: u128,
    /// Prefix length, at most 128.
    pub prefix: u8,
    /// Index into the device list.
    pub device_index: usize,
}

/// What search runs over: the device list, the prefix table over it, and
/// the site names of the network tree, in tree order.
#[derive(Debug)]
pub struct SearchCatalog {
    /// All shaped devices.
    pub devices: Vec<CatalogDevice>,
    /// Longest-prefix-match table into `devices`.
    pub trie: Vec<TrieEntry>,
    /// Site names, indexed by position in the network tree.
    pub site_names: Vec<String>,
}

/// ASCII lowercase of one character; anything but `A`-`Z` is unchanged.
pub open spec fn spec_lower_char(c: char) -> char {
    if c == 'A' { 'a' }
    else if c == 'B' { 'b' }
    else if c == 'C' { 'c' }
    else if c == 'D' { 'd' }
    else if c == 'E' { 'e' }
    else if c == 'F' { 'f' }
    else if c == 'G' { 'g' }
    else if c == 'H' { 'h' }
    else if c == 'I' { 'i' }
    else if c == 'J' { 'j' }
    else if c == 'K' { 'k' }
    else if c == 'L' { 'l' }
    else if c == 'M' { 'm' }
    else if c == 'N' { 'n' }
    else if c == 'O' { 'o' }
    else if c == 'P' { 'p' }
    else if c == 'Q' { 'q' }
    else if c == 'R' { 'r' }
    else if c == 'S' { 's' }
    else if c == 'T' { 't' }
    else if c == 'U' { 'u' }
    else if c == 'V' { 'v' }
    else if c == 'W' { 'w' }
    else if c == 'X' { 'x' }
    else if c == 'Y' { 'y' }
    else if c == 'Z' { 'z' }
    else { c }
}

fn lower_char(c: char) -> (r: char)
    ensures
        r == spec_lower_char(c),
{
    if c == 'A' { 'a' }
    else if c == 'B' { 'b' }
    else if c == 'C' { 'c' }
    else if c == 'D' { 'd' }
    else if c == 'E' { 'e' }
    else if c == 'F' { 'f' }
    else if c == 'G' { 'g' }
    else if c == 'H' { 'h' }
    else if c == 'I' { 'i' }
    else if c == 'J' { 'j' }
    else if c == 'K' { 'k' }
    else if c == 'L' { 'l' }
    else if c == 'M' { 'm' }
    else if c == 'N' { 'n' }
    else if c == 'O' { 'o' }
    else if c == 'P' { 'p' }
    else if c == 'Q' { 'q' }
    else if c == 'R' { 'r' }
    else if c == 'S' { 's' }
    else if c == 'T' { 't' }
    else if c == 'U' { 'u' }
    else if c == 'V' { 'v' }
    else if c == 'W' { 'w' }
    else if c == 'X' { 'x' }
    else if c == 'Y' { 'y' }
    else if c == 'Z' { 'z' }
    else { c }
}

/// Whether the needle matches the hay at position `k`, ignoring ASCII case.
pub open spec fn spec_ci_match_at(hay: Seq<char>, needle: Seq<char>, k: int) -> bool {
    forall|j: int|
        0 <= j < needle.len() ==> spec_lower_char(hay[k + j]) == spec_lower_char(
            #[trigger] needle[j],
        )
}

/// Whether the needle occurs in the hay, ignoring ASCII case.
pub open spec fn spec_contains_ci(hay: Seq<char>, needle: Seq<char>) -> bool {
    exists|k: int| 0 <= k && k + needle.len() <= hay.len() && spec_ci_match_at(hay, needle, k)
}

/// Case-insensitive (ASCII) substring test.
pub fn contains_ci(hay: &String, needle: &String) -> (r: bool)
    ensures
        r == spec_contains_ci(hay@, needle@),
{
    let hn = hay.as_str().unicode_len();
    let nn = needle.as_str().unicode_len();
    if nn > hn {
        return false;
    }
    let mut k: usize = 0;
    while k <= hn - nn
        invariant
            nn <= hn == hay@.len(),
            nn == needle@.len(),
            k <= hn - nn + 1,
            forall|k2: int| 0 <= k2 < k ==> !spec_ci_match_at(hay@, needle@, k2),
        decreases hn + 1 - nn - k,
    {
        let mut j: usize = 0;
        let mut ok: bool = true;
        while j < nn
            invariant
                nn <= hn == hay@.len(),
                nn == needle@.len(),
                k + nn <= hn,
                j <= nn,
                ok ==> forall|j2: int|
                    0 <= j2 < j ==> spec_lower_char(hay@[k + j2]) == spec_lower_char(
                        #[trigger] needle@[j2],
                    ),
                !ok ==> !spec_ci_match_at(hay@, needle@, k as int),
            decreases nn - j,
        {
            if ok {
                let hc = lower_char(hay.as_str().get_char(k + j));
                let nc = lower_char(needle.as_str().get_char(j));
                if hc != nc {
                    proof {
                        assert(spec_lower_char(hay@[k + j]) != spec_lower_char(needle@[j as int]));
                    }
                    ok = false;
                }
            }
            j = j + 1;
        }
        if ok {
            proof {
                assert(spec_ci_match_at(hay@, needle@, k as int));
            }
            return true;
        }
        k = k + 1;
    }
    proof {
        assert(!spec_contains_ci(hay@, needle@));
    }
    false
}

/// Whether `s` begins with `prefix`, character for character.
pub open spec fn spec_starts_with(s: Seq<char>, prefix: Seq<char>) -> bool {
    prefix.len() <= s.len() && s.take(prefix.len() as int) == prefix
}

/// Case-sensitive prefix test.
pub fn starts_with(s: &String, prefix: &String) -> (r: bool)
    ensures
        r == spec_starts_with(s@, prefix@),
{
    let sn = s.as_str().unicode_len();
    let pn = prefix.as_str().unicode_len();
    if pn > sn {
        return false;
    }
    let mut i: usize = 0;
    while i < pn
        invariant
            pn <= sn == s@.len(),
            pn == prefix@.len(),
            i <= pn,
            forall|j: int| 0 <= j < i ==> s@[j] == prefix@[j],
        decreases pn - i,
    {
        if s.as_str().get_char(i) != prefix.as_str().get_char(i) {
            proof {
                assert(s@.take(pn as int)[i as int] != prefix@[i as int]);
            }
            return false;
        }
        i = i + 1;
    }
    proof {
        assert(s@.take(pn as int) =~= prefix@);
    }
    true
}

/// Whether `c` occurs in `s`.
pub open spec fn spec_contains_char(s: Seq<char>, c: char) -> bool {
    exists|i: int| 0 <= i < s.len() && s[i] == c
}

fn contains_char(s: &String, c: char) -> (r: bool)
    ensures
        r == spec_contains_char(s@, c),
{
    let n = s.as_str().unicode_len();
    let mut i: usize = 0;
    while i < n
        invariant
            n == s@.len(),
            i <= n,
            forall|j: int| 0 <= j < i ==> s@[j] != c,
        decreases n - i,
    {
        if s.as_str().get_char(i) == c {
            return true;
        }
        i = i + 1;
    }
    false
}

/// The best (longest-prefix) table entry matching `ip`; the earliest entry
/// wins a tie.
pub open spec fn spec_best_match(trie: Seq<TrieEntry>, ip: u128) -> Option<TrieEntry>
    decreases trie.len(),
{
    if trie.len() == 0 {
        None
    } else {
        let rest = spec_best_match(trie.drop_first(), ip);
        let e = trie[0];
        if spec_ipv6_in_prefix(ip, e.address, e.prefix as u32) {
            match rest {
                None => Some(e),
                Some(b) => if e.prefix >= b.prefix {
                    Some(e)
                } else {
                    Some(b)
                },
            }
        } else {
            rest
        }
    }
}

proof fn lemma_best_match_snoc(trie: Seq<TrieEntry>, x: TrieEntry, ip: u128)
    ensures
        spec_best_match(trie.push(x), ip) == ({
            let b = spec_best_match(trie, ip);
            if spec_ipv6_in_prefix(ip, x.address, x.prefix as u32) {
                match b {
                    None => Some(x),
                    Some(b0) => if b0.prefix >= x.prefix {
                        Some(b0)
                    } else {
                        Some(x)
                    },
                }
            } else {
                b
            }
        }),
    decreases trie.len(),
{
    let s = trie.push(x);
    if trie.len() == 0 {
        assert(s.drop_first() =~= Seq::<TrieEntry>::empty());
        assert(s[0] == x);
        assert(spec_best_match(Seq::<TrieEntry>::empty(), ip) is None);
    } else {
        assert(s[0] == trie[0]);
        assert(s.drop_first() =~= trie.drop_first().push(x));
        lemma_best_match_snoc(trie.drop_first(), x, ip);
    }
}

proof fn lemma_best_match_in(trie: Seq<TrieEntry>, ip: u128)
    ensures
        spec_best_match(trie, ip) matches Some(e) ==> exists|j: int|
            0 <= j < trie.len() && trie[j] == e,
    decreases trie.len(),
{
    if trie.len() > 0 {
        lemma_best_match_in(trie.drop_first(), ip);
        match spec_best_match(trie.drop_first(), ip) {
            Some(b) => {
                let j = choose|j: int| 0 <= j < trie.drop_first().len() && trie.drop_first()[j]
                    == b;
                assert(trie[j + 1] == b);
            },
            None => {},
        }
    }
}

/// The longest-prefix match for `ip` in the table (see [`spec_best_match`]).
pub fn best_match(trie: &Vec<TrieEntry>, ip: u128) -> (r: Option<TrieEntry>)
    ensures
        r == spec_best_match(trie@, ip),
{
    let mut best: Option<TrieEntry> = None;
    let mut i: usize = 0;
    proof {
        assert(trie@.take(0) =~= Seq::<TrieEntry>::empty());
    }
    while i < trie.len()
        invariant
            i <= trie@.len(),
            best == spec_best_match(trie@.take(i as int), ip),
        decreases trie@.len() - i,
    {
        proof {
            lemma_best_match_snoc(trie@.take(i as int), trie@[i as int], ip);
            assert(trie@.take(i + 1) =~= trie@.take(i as int).push(trie@[i as int]));
        }
        let e = trie[i];
        let matches_ip = crate::ip::ipv6_in_prefix(ip, e.address, e.prefix as u32);
        if matches_ip {
            let replace = match best {
                None => true,
                Some(b) => e.prefix > b.prefix,
            };
            if replace {
                best = Some(e);
            }
        }
        i = i + 1;
    }
    proof {
        assert(trie@.take(trie@.len() as int) =~= trie@);
    }
    best
}

/// The deduplication key of a result: `Circuit:<id>`,
/// `Device:<circuit_id>:<name>` or `Site:<idx>`.
pub open spec fn spec_key(r: SearchResult) -> Seq<char> {
    match r {
        SearchResult::Circuit { id, .. } => "Circuit:"@ + id@,
        SearchResult::Device { circuit_id, name, .. } => "Device:"@ + circuit_id@ + ":"@ + name@,
        SearchResult::Site { idx, .. } => "Site:"@ + spec_dec(idx as nat),
    }
}

fn result_key(r: &SearchResult) -> (k: String)
    ensures
        k@ == spec_key(*r),
{
    match r {
        SearchResult::Circuit { id, .. } => {
            let mut s = String::from_str("Circuit:");
            s.append(id.as_str());
            s
        },
        SearchResult::Device { circuit_id, name, .. } => {
            let mut s = String::from_str("Device:");
            s.append(circuit_id.as_str());
            s.append(":");
            s.append(name.as_str());
            proof {
                assert(s@ =~= "Device:"@ + circuit_id@ + ":"@ + name@);
            }
            s
        },
        SearchResult::Site { idx, .. } => {
            let mut s = String::from_str("Site:");
            let d = dec_string(*idx as u64);
            s.append(d.as_str());
            s
        },
    }
}

/// A result is grounded in the catalog: a circuit or device hit names a
/// device entry that really carries those names (by substring match on the
/// trimmed term, or — for a device — through a prefix-table entry whose
/// rendered network is appended to the display name), and a site hit names
/// the site at its index.
pub open spec fn spec_justified(
    r: SearchResult,
    devices: Seq<CatalogDevice>,
    trie: Seq<TrieEntry>,
    sites: Seq<String>,
    t: Seq<char>,
) -> bool {
    match r {
        SearchResult::Circuit { id, name } => exists|i: int|
            0 <= i < devices.len() && (#[trigger] devices[i]).circuit_id@ == id@
                && devices[i].circuit_name@ == name@ && spec_contains_ci(name@, t),
        SearchResult::Site { idx, name } => idx < sites.len() && sites[idx as int]@ == name@
            && spec_contains_ci(name@, t),
        SearchResult::Device { circuit_id, name, circuit_name } => exists|i: int|
            0 <= i < devices.len() && (#[trigger] devices[i]).circuit_id@ == circuit_id@
                && devices[i].circuit_name@ == circuit_name@ && ((devices[i].device_name@ == name@
                && spec_contains_ci(name@, t)) || (exists|j: int|
                0 <= j < trie.len() && (#[trigger] trie[j]).device_index == i && name@
                    == devices[i].device_name@ + seq![' ', '('] + spec_net_str(
                    trie[j].address,
                    trie[j].prefix,
                ) + seq![')'])),
    }
}

/// The network a term queries by CIDR overlap, when the term reaches that
/// pass: it looks like an address (holds a dot or colon), is at least
/// three characters, holds a slash, and parses as a CIDR of either family
/// (IPv4 networks mapped into IPv6 space with the prefix lengthened by
/// 96).
pub open spec fn spec_cidr_query(t: Seq<char>) -> Option<(u128, u8)> {
    if (spec_contains_char(t, '.') || spec_contains_char(t, ':')) && t.len() >= 3
        && spec_contains_char(t, '/') {
        spec_parse_cidr(t)
    } else {
        None
    }
}

/// The deduplication key of the device hit a prefix-table entry produces:
/// the device's circuit, and its name with the rendered network appended.
pub open spec fn spec_net_hit_key(devices: Seq<CatalogDevice>, e: TrieEntry) -> Seq<char> {
    "Device:"@ + devices[e.device_index as int].circuit_id@ + ":"@
        + devices[e.device_index as int].device_name@ + seq![' ', '('] + spec_net_str(
        e.address,
        e.prefix,
    ) + seq![')']
}

/// CIDR completeness over the first `upto` prefix-table entries: for every
/// entry there that overlaps the query network and points at a real
/// device, the results carry its device hit — unless the cap of 50 was
/// reached.
pub open spec fn spec_cidr_served(
    rs: Seq<SearchResult>,
    devices: Seq<CatalogDevice>,
    trie: Seq<TrieEntry>,
    q: Option<(u128, u8)>,
    upto: int,
) -> bool {
    match q {
        None => true,
        Some(qq) => forall|j: int|
            (0 <= j < upto && j < trie.len() && spec_ipv6_overlap(
                (#[trigger] trie[j]).address,
                trie[j].prefix,
                qq.0,
                qq.1,
            ) && trie[j].device_index < devices.len()) ==> (rs.len() == 50 || exists|k: int|
                0 <= k < rs.len() && spec_key(#[trigger] rs[k]) == spec_net_hit_key(
                    devices,
                    trie[j],
                )),
    }
}

proof fn lemma_cidr_served_extend(
    rs1: Seq<SearchResult>,
    rs2: Seq<SearchResult>,
    devices: Seq<CatalogDevice>,
    trie: Seq<TrieEntry>,
    q: Option<(u128, u8)>,
    upto: int,
)
    requires
        spec_cidr_served(rs1, devices, trie, q, upto),
        rs1.len() <= rs2.len() <= 50,
        forall|k: int| 0 <= k < rs1.len() ==> rs2[k] == rs1[k],
    ensures
        spec_cidr_served(rs2, devices, trie, q, upto),
{
    match q {
        None => {},
        Some(qq) => {
            assert forall|j: int|
                (0 <= j < upto && j < trie.len() && spec_ipv6_overlap(
                    (#[trigger] trie[j]).address,
                    trie[j].prefix,
                    qq.0,
                    qq.1,
                ) && trie[j].device_index < devices.len()) implies (rs2.len() == 50 || exists|
                k: int,
            |
                0 <= k < rs2.len() && spec_key(#[trigger] rs2[k]) == spec_net_hit_key(
                    devices,
                    trie[j],
                )) by {
                if rs1.len() == 50 {
                } else if exists|k: int|
                    0 <= k < rs1.len() && spec_key(#[trigger] rs1[k]) == spec_net_hit_key(
                        devices,
                        trie[j],
                    ) {
                    let k = choose|k: int|
                        0 <= k < rs1.len() && spec_key(#[trigger] rs1[k]) == spec_net_hit_key(
                            devices,
                            trie[j],
                        );
                    assert(rs2[k] == rs1[k]);
                    assert(spec_key(rs2[k]) == spec_net_hit_key(devices, trie[j]));
                }
            }
        },
    }
}

/// Results arrive in pass order: first address/network device hits, then
/// circuit/device name hits, then site hits.
pub open spec fn spec_kind_segments(rs: Seq<SearchResult>, a: int, b: int) -> bool {
    &&& 0 <= a <= b <= rs.len()
    &&& forall|k: int| 0 <= k < a ==> (#[trigger] rs[k]) is Device
    &&& forall|k: int| a <= k < b ==> (#[trigger] rs[k]) is Circuit || (#[trigger] rs[k]) is Device
    &&& forall|k: int| b <= k < rs.len() ==> (#[trigger] rs[k]) is Site
}

/// The running state of a search is well formed: at most 50 results, the
/// seen list holds exactly the results' keys, and the keys are pairwise
/// distinct.
pub open spec fn spec_results_ok(results: Seq<SearchResult>, seen: Seq<Seq<char>>) -> bool {
    &&& results.len() <= 50
    &&& seen.len() == results.len()
    &&& forall|i: int| 0 <= i < results.len() ==> seen[i] == spec_key(#[trigger] results[i])
    &&& forall|i: int, j: int|
        0 <= i < j < results.len() ==> spec_key(#[trigger] results[i]) != spec_key(
            #[trigger] results[j],
        )
}

/// Add `r` unless the cap is reached or an equal-keyed result is present.
#[verifier::loop_isolation(false)]
fn push_result(results: &mut Vec<SearchResult>, seen: &mut Vec<String>, r: SearchResult)
    requires
        spec_results_ok(old(results)@, old(seen).deep_view()),
    ensures
        spec_results_ok(final(results)@, final(seen).deep_view()),
        old(results)@.len() < 50 && (forall|i: int|
            0 <= i < old(results)@.len() ==> spec_key(#[trigger] old(results)@[i]) != spec_key(r))
            ==> final(results)@ == old(results)@.push(r),
        final(results)@ == old(results)@ || final(results)@ == old(results)@.push(r),
        final(results)@.len() == 50 || exists|k: int|
            0 <= k < final(results)@.len() && spec_key(#[trigger] final(results)@[k]) == spec_key(
                r,
            ),
{
    if results.len() >= 50 {
        return ;
    }
    let key = result_key(&r);
    let mut i: usize = 0;
    while i < seen.len()
        invariant
            i <= seen@.len(),
            key@ == spec_key(r),
            forall|j: int| 0 <= j < i ==> seen@[j]@ != key@,
        decreases seen@.len() - i,
    {
        if strings_equal(&seen[i], &key) {
            proof {
                assert(seen.deep_view()[i as int] == key@);
                assert(spec_key(results@[i as int]) == spec_key(r));
            }
            return ;
        }
        i = i + 1;
    }
    let ghost rs0 = results@;
    let ghost sn0 = seen.deep_view();
    seen.push(key);
    results.push(r);
    proof {
        assert(seen.deep_view() =~= sn0.push(spec_key(r)));
        assert(forall|j: int| 0 <= j < rs0.len() ==> spec_key(#[trigger] rs0[j]) != spec_key(r));
        assert(results@[rs0.len() as int] == r);
    }
}

/// Search the catalog for `term`.
///
/// Dispatch runs in four passes: an exact IPv4 address goes
/// through the longest-prefix table; a term that looks like a network
/// matches table entries by CIDR overlap or by textual prefix of the
/// rendered network; then circuit, device and site names are matched
/// case-insensitively. At most 50 results come back, deduplicated by key,
/// and an exact-IP hit is always first.
#[verifier::loop_isolation(false)]
#[verifier::rlimit(100)]
pub fn search(catalog: &SearchCatalog, term: &String) -> (r: Vec<SearchResult>)
    ensures
        r@.len() <= 50,
        forall|i: int, j: int|
            0 <= i < j < r@.len() ==> spec_key(#[trigger] r@[i]) != spec_key(#[trigger] r@[j]),
        forall|k: int|
            0 <= k < r@.len() ==> spec_justified(
                #[trigger] r@[k],
                catalog.devices@,
                catalog.trie@,
                catalog.site_names@,
                spec_trim(term@),
            ),
        ({
            match spec_parse_ip(spec_trim(term@)) {
                Some(ip) => match spec_best_match(catalog.trie@, ip) {
                    Some(e) => e.device_index < catalog.devices@.len() ==> r@.len() > 0 && (r@[0]
                        matches SearchResult::Device { circuit_id, name, circuit_name }
                        && circuit_id@ == catalog.devices@[e.device_index as int].circuit_id@
                        && circuit_name@ == catalog.devices@[e.device_index as int].circuit_name@
                        && name@ == catalog.devices@[e.device_index as int].device_name@
                        + seq![' ', '('] + spec_net_str(e.address, e.prefix) + seq![')']),
                    None => true,
                },
                None => true,
            }
        }),
        spec_parse_ip(spec_trim(term@)) is None && spec_trim(term@).len() < 3 ==> r@.len() == 0,
        spec_cidr_served(
            r@,
            catalog.devices@,
            catalog.trie@,
            spec_cidr_query(spec_trim(term@)),
            catalog.trie@.len() as int,
        ),
        exists|a: int, b: int| spec_kind_segments(r@, a, b),
{
    let trimmed = trim_spaces(term.as_str());
    let ghost cq = spec_cidr_query(trimmed@);
    let mut results: Vec<SearchResult> = Vec::new();
    let mut seen: Vec<String> = Vec::new();

    // First pass: exact IP match through the longest-prefix table.
    match parse_ip(trimmed.as_str()) {
        Some(ip6) => {
            match best_match(&catalog.trie, ip6) {
                Some(e) => {
                    if e.device_index < catalog.devices.len() {
                        let dev = &catalog.devices[e.device_index];
                        let mut name = dev.device_name.clone();
                        name.append(" (");
                        let ns = net_to_string(e.address, e.prefix);
                        name.append(ns.as_str());
                        name.append(")");
                        proof {
                            reveal_strlit(" (");
                            reveal_strlit(")");
                            assert(name@ =~= dev.device_name@ + seq![' ', '('] + spec_net_str(
                                e.address,
                                e.prefix,
                            ) + seq![')']);
                        }
                        let hit = SearchResult::Device {
                            circuit_id: dev.circuit_id.clone(),
                            name,
                            circuit_name: dev.circuit_name.clone(),
                        };
                        let ghost hit_g = hit;
                        push_result(&mut results, &mut seen, hit);
                        proof {
                            assert(results@ =~= Seq::<SearchResult>::empty().push(hit_g));
                            assert(results@[0] == hit_g);
                            lemma_best_match_in(catalog.trie@, ip6);
                            let jw = choose|j: int|
                                0 <= j < catalog.trie@.len() && catalog.trie@[j] == e;
                            assert(catalog.trie@[jw].device_index == e.device_index);
                            assert(catalog.devices@[e.device_index as int] == *dev);
                            assert(spec_justified(
                                hit_g,
                                catalog.devices@,
                                catalog.trie@,
                                catalog.site_names@,
                                trimmed@,
                            ));
                        }
                    }
                },
                None => {},
            }
        },
        None => {},
    }
    let ghost head = results@;

    // Second pass: CIDR overlap or textual prefix over the table.
    let looks_like_prefix = contains_char(&trimmed, '.') || contains_char(&trimmed, ':');
    if looks_like_prefix && trimmed.as_str().unicode_len() >= 3 {
        if contains_char(&trimmed, '/') {
            match parse_cidr(trimmed.as_str()) {
                Some((net6, mlen)) => {
                    proof {
                        assert(cq == Some((net6, mlen)));
                    }
                    let mut i: usize = 0;
                    while i < catalog.trie.len()
                        invariant
                            i <= catalog.trie@.len(),
                            cq == Some((net6, mlen)),
                            spec_results_ok(results@, seen.deep_view()),
                            head.len() <= results@.len(),
                            forall|k: int| 0 <= k < head.len() ==> results@[k] == head[k],
                            forall|k: int|
                                0 <= k < results@.len() ==> spec_justified(
                                    #[trigger] results@[k],
                                    catalog.devices@,
                                    catalog.trie@,
                                    catalog.site_names@,
                                    trimmed@,
                                ),
                            forall|k: int|
                                0 <= k < results@.len() ==> (#[trigger] results@[k]) is Device,
                            spec_cidr_served(
                                results@,
                                catalog.devices@,
                                catalog.trie@,
                                cq,
                                i as int,
                            ),
                        decreases catalog.trie@.len() - i,
                    {
                        let e = catalog.trie[i];
                        let ghost pre_iter = results@;
                        if ipv6_overlap(e.address, e.prefix, net6, mlen) {
                            if e.device_index < catalog.devices.len() {
                                let dev = &catalog.devices[e.device_index];
                                let mut name = dev.device_name.clone();
                                name.append(" (");
                                let ns = net_to_string(e.address, e.prefix);
                                name.append(ns.as_str());
                                name.append(")");
                                proof {
                                    reveal_strlit(" (");
                                    reveal_strlit(")");
                                    assert(name@ =~= dev.device_name@ + seq![' ', '(']
                                        + spec_net_str(e.address, e.prefix) + seq![')']);
                                }
                                let hit = SearchResult::Device {
                                    circuit_id: dev.circuit_id.clone(),
                                    name,
                                    circuit_name: dev.circuit_name.clone(),
                                };
                                let ghost hitc = hit;
                                let ghost pre = results@;
                                push_result(&mut results, &mut seen, hit);
                                proof {
                                    assert(catalog.trie@[i as int] == e);
                                    assert(catalog.devices@[e.device_index as int] == *dev);
                                    assert(spec_justified(
                                        hitc,
                                        catalog.devices@,
                                        catalog.trie@,
                                        catalog.site_names@,
                                        trimmed@,
                                    ));
                                    assert(spec_key(hitc) =~= spec_net_hit_key(
                                        catalog.devices@,
                                        catalog.trie@[i as int],
                                    ));
                                    lemma_cidr_served_extend(
                                        pre,
                                        results@,
                                        catalog.devices@,
                                        catalog.trie@,
                                        cq,
                                        i as int,
                                    );
                                    assert forall|k: int|
                                        0 <= k < results@.len() implies spec_justified(
                                        #[trigger] results@[k],
                                        catalog.devices@,
                                        catalog.trie@,
                                        catalog.site_names@,
                                        trimmed@,
                                    ) by {
                                        if k < pre.len() {
                                            assert(results@[k] == pre[k]);
                                        } else {
                                            assert(results@[k] == hitc);
                                        }
                                    }
                                }
                            }
                        }
                        i = i + 1;
                        proof {
                            assert(spec_cidr_served(
                                results@,
                                catalog.devices@,
                                catalog.trie@,
                                cq,
                                i as int,
                            ));
                        }
                    }
                },
                None => {},
            }
        } else {
            let mut i: usize = 0;
            while i < catalog.trie.len()
                invariant
                    i <= catalog.trie@.len(),
                    spec_results_ok(results@, seen.deep_view()),
                    head.len() <= results@.len(),
                    forall|k: int| 0 <= k < head.len() ==> results@[k] == head[k],
                    forall|k: int|
                        0 <= k < results@.len() ==> spec_justified(
                            #[trigger] results@[k],
                            catalog.devices@,
                            catalog.trie@,
                            catalog.site_names@,
                            trimmed@,
                        ),
                    forall|k: int|
                        0 <= k < results@.len() ==> (#[trigger] results@[k]) is Device,
                decreases catalog.trie@.len() - i,
            {
                let e = catalog.trie[i];
                let ns = net_to_string(e.address, e.prefix);
                if starts_with(&ns, &trimmed) {
                    if e.device_index < catalog.devices.len() {
                        let dev = &catalog.devices[e.device_index];
                        let mut name = dev.device_name.clone();
                        name.append(" (");
                        name.append(ns.as_str());
                        name.append(")");
                        proof {
                            reveal_strlit(" (");
                            reveal_strlit(")");
                            assert(name@ =~= dev.device_name@ + seq![' ', '(']
                                + spec_net_str(e.address, e.prefix) + seq![')']);
                        }
                        let hit = SearchResult::Device {
                            circuit_id: dev.circuit_id.clone(),
                            name,
                            circuit_name: dev.circuit_name.clone(),
                        };
                        let ghost hitc = hit;
                        let ghost pre = results@;
                        push_result(&mut results, &mut seen, hit);
                        proof {
                            assert(catalog.trie@[i as int] == e);
                            assert(catalog.devices@[e.device_index as int] == *dev);
                            assert(spec_justified(
                                hitc,
                                catalog.devices@,
                                catalog.trie@,
                                catalog.site_names@,
                                trimmed@,
                            ));
                            assert forall|k: int|
                                0 <= k < results@.len() implies spec_justified(
                                #[trigger] results@[k],
                                catalog.devices@,
                                catalog.trie@,
                                catalog.site_names@,
                                trimmed@,
                            ) by {
                                if k < pre.len() {
                                    assert(results@[k] == pre[k]);
                                } else {
                                    assert(results@[k] == hitc);
                                }
                            }
                        }
                    }
                }
                i = i + 1;
            }
        }
    }
    let ghost after_net = results@;
    proof {
        assert(spec_cidr_served(
            after_net,
            catalog.devices@,
            catalog.trie@,
            cq,
            catalog.trie@.len() as int,
        ));
        assert(forall|k: int| 0 <= k < after_net.len() ==> (#[trigger] after_net[k]) is Device);
    }

    // Third pass: circuit and device name substring matches.
    if trimmed.as_str().unicode_len() >= 3 {
        let mut i: usize = 0;
        while i < catalog.devices.len()
            invariant
                i <= catalog.devices@.len(),
                spec_results_ok(results@, seen.deep_view()),
                after_net.len() <= results@.len(),
                forall|k: int| 0 <= k < after_net.len() ==> results@[k] == after_net[k],
                forall|k: int|
                    after_net.len() <= k < results@.len() ==> (#[trigger] results@[k]) is Circuit
                        || (#[trigger] results@[k]) is Device,
                forall|k: int|
                    0 <= k < results@.len() ==> spec_justified(
                        #[trigger] results@[k],
                        catalog.devices@,
                        catalog.trie@,
                        catalog.site_names@,
                        trimmed@,
                    ),
                spec_cidr_served(
                    results@,
                    catalog.devices@,
                    catalog.trie@,
                    cq,
                    catalog.trie@.len() as int,
                ),
            decreases catalog.devices@.len() - i,
        {
            let sd = &catalog.devices[i];
            if contains_ci(&sd.circuit_name, &trimmed) {
                let hit = SearchResult::Circuit {
                    id: sd.circuit_id.clone(),
                    name: sd.circuit_name.clone(),
                };
                let ghost hitc = hit;
                let ghost pre = results@;
                push_result(&mut results, &mut seen, hit);
                proof {
                    assert(catalog.devices@[i as int] == *sd);
                    assert(spec_justified(
                        hitc,
                        catalog.devices@,
                        catalog.trie@,
                        catalog.site_names@,
                        trimmed@,
                    ));
                    lemma_cidr_served_extend(
                        pre,
                        results@,
                        catalog.devices@,
                        catalog.trie@,
                        cq,
                        catalog.trie@.len() as int,
                    );
                    assert forall|k: int|
                        0 <= k < results@.len() implies spec_justified(
                        #[trigger] results@[k],
                        catalog.devices@,
                        catalog.trie@,
                        catalog.site_names@,
                        trimmed@,
                    ) by {
                        if k < pre.len() {
                            assert(results@[k] == pre[k]);
                        } else {
                            assert(results@[k] == hitc);
                        }
                    }
                }
            }
            if contains_ci(&sd.device_name, &trimmed) {
                let hit = SearchResult::Device {
                    circuit_id: sd.circuit_id.clone(),
                    name: sd.device_name.clone(),
                    circuit_name: sd.circuit_name.clone(),
                };
                let ghost hitc = hit;
                let ghost pre = results@;
                push_result(&mut results, &mut seen, hit);
                proof {
                    assert(catalog.devices@[i as int] == *sd);
                    assert(spec_justified(
                        hitc,
                        catalog.devices@,
                        catalog.trie@,
                        catalog.site_names@,
                        trimmed@,
                    ));
                    lemma_cidr_served_extend(
                        pre,
                        results@,
                        catalog.devices@,
                        catalog.trie@,
                        cq,
                        catalog.trie@.len() as int,
                    );
                    assert forall|k: int|
                        0 <= k < results@.len() implies spec_justified(
                        #[trigger] results@[k],
                        catalog.devices@,
                        catalog.trie@,
                        catalog.site_names@,
                        trimmed@,
                    ) by {
                        if k < pre.len() {
                            assert(results@[k] == pre[k]);
                        } else {
                            assert(results@[k] == hitc);
                        }
                    }
                }
            }
            i = i + 1;
        }
    }
    let ghost after_names = results@;
    proof {
        assert(after_net.len() <= after_names.len());
        assert(forall|k: int| 0 <= k < after_net.len() ==> after_names[k] == after_net[k]);
        assert(forall|k: int|
            after_net.len() <= k < after_names.len() ==> (#[trigger] after_names[k]) is Circuit
                || (#[trigger] after_names[k]) is Device);
    }

    // Fourth pass: site name substring matches.
    if trimmed.as_str().unicode_len() >= 3 {
        let mut i: usize = 0;
        while i < catalog.site_names.len()
            invariant
                i <= catalog.site_names@.len(),
                spec_results_ok(results@, seen.deep_view()),
                after_names.len() <= results@.len(),
                forall|k: int| 0 <= k < after_names.len() ==> results@[k] == after_names[k],
                forall|k: int|
                    after_names.len() <= k < results@.len() ==> (#[trigger] results@[k]) is Site,
                forall|k: int|
                    0 <= k < results@.len() ==> spec_justified(
                        #[trigger] results@[k],
                        catalog.devices@,
                        catalog.trie@,
                        catalog.site_names@,
                        trimmed@,
                    ),
                spec_cidr_served(
                    results@,
                    catalog.devices@,
                    catalog.trie@,
                    cq,
                    catalog.trie@.len() as int,
                ),
            decreases catalog.site_names@.len() - i,
        {
            if contains_ci(&catalog.site_names[i], &trimmed) {
                let hit = SearchResult::Site { idx: i, name: catalog.site_names[i].clone() };
                let ghost hitc = hit;
                let ghost pre = results@;
                push_result(&mut results, &mut seen, hit);
                proof {
                    assert(spec_justified(
                        hitc,
                        catalog.devices@,
                        catalog.trie@,
                        catalog.site_names@,
                        trimmed@,
                    ));
                    lemma_cidr_served_extend(
                        pre,
                        results@,
                        catalog.devices@,
                        catalog.trie@,
                        cq,
                        catalog.trie@.len() as int,
                    );
                    assert forall|k: int|
                        0 <= k < results@.len() implies spec_justified(
                        #[trigger] results@[k],
                        catalog.devices@,
                        catalog.trie@,
                        catalog.site_names@,
                        trimmed@,
                    ) by {
                        if k < pre.len() {
                            assert(results@[k] == pre[k]);
                        } else {
                            assert(results@[k] == hitc);
                        }
                    }
                }
            }
            i = i + 1;
        }
    }
    proof {
        let a = after_net.len() as int;
        let b = after_names.len() as int;
        assert forall|k: int| 0 <= k < a implies (#[trigger] results@[k]) is Device by {
            assert(results@[k] == after_names[k]);
            assert(after_names[k] == after_net[k]);
        }
        assert forall|k: int| a <= k < b implies (#[trigger] results@[k]) is Circuit || (
        #[trigger] results@[k]) is Device by {
            assert(results@[k] == after_names[k]);
        }
        assert(spec_kind_segments(results@, a, b));
        if head.len() > 0 {
            assert(results@[0] == after_names[0]);
            assert(after_names[0] == after_net[0]);
            assert(after_net[0] == head[0]);
        }
    }
    results
}

} // verus!