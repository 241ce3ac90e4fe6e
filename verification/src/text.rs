//! Rendering of unsigned integers as decimal and lowercase-hex text.
//!
//! `tc` command tokens embed numbers in both bases; the spec-level
//! functions here define the exact character sequences, and the exec
//! functions are proved to produce them.

use vstd::prelude::*;
use vstd::string::*;

verus! {

/// The character for one decimal digit value.
pub open spec fn dec_digit(d: int) -> char {
    if d == 0 { '0' }
    else if d == 1 { '1' }
    else if d == 2 { '2' }
    else if d == 3 { '3' }
    else if d == 4 { '4' }
    else if d == 5 { '5' }
    else if d == 6 { '6' }
    else if d == 7 { '7' }
    else if d == 8 { '8' }
    else { '9' }
}

/// The character for one hex digit value, lowercase.
pub open spec fn hex_digit(d: int) -> char {
    if d < 10 { dec_digit(d) }
    else if d == 10 { 'a' }
    else if d == 11 { 'b' }
    else if d == 12 { 'c' }
    else if d == 13 { 'd' }
    else if d == 14 { 'e' }
    else { 'f' }
}

/// Decimal rendering of `n`, most significant digit first, no leading zeros
/// (except that zero itself renders as "0").
pub open spec fn spec_dec(n: nat) -> Seq<char>
    decreases n,
{
    if n < 10 {
        seq![dec_digit(n as int)]
    } else {
        spec_dec(n / 10).push(dec_digit((n % 10) as int))
    }
}

/// Lowercase hex rendering of `n`, most significant digit first, no leading
/// zeros (except that zero itself renders as "0"). No "0x" prefix.
pub open spec fn spec_hex(n: nat) -> Seq<char>
    decreases n,
{
    if n < 16 {
        seq![hex_digit(n as int)]
    } else {
        spec_hex(n / 16).push(hex_digit((n % 16) as int))
    }
}

fn dec_digit_str(d: u64) -> (r: &'static str)
    requires
        d < 10,
    ensures
        r@ == seq![dec_digit(d as int)],
{
    proof {
        reveal_strlit("0");
        reveal_strlit("1");
        reveal_strlit("2");
        reveal_strlit("3");
        reveal_strlit("4");
        reveal_strlit("5");
        reveal_strlit("6");
        reveal_strlit("7");
        reveal_strlit("8");
        reveal_strlit("9");
    }
    let r: &'static str = if d == 0 { "0" }
    else if d == 1 { "1" }
    else if d == 2 { "2" }
    else if d == 3 { "3" }
    else if d == 4 { "4" }
    else if d == 5 { "5" }
    else if d == 6 { "6" }
    else if d == 7 { "7" }
    else if d == 8 { "8" }
    else { "9" };
    proof {
        assert(r@ =~= seq![dec_digit(d as int)]);
    }
    r
}

fn hex_digit_str(d: u64) -> (r: &'static str)
    requires
        d < 16,
    ensures
        r@ == seq![hex_digit(d as int)],
{
    proof {
        reveal_strlit("a");
        reveal_strlit("b");
        reveal_strlit("c");
        reveal_strlit("d");
        reveal_strlit("e");
        reveal_strlit("f");
    }
    let r: &'static str = if d < 10 { dec_digit_str(d) }
    else if d == 10 { "a" }
    else if d == 11 { "b" }
    else if d == 12 { "c" }
    else if d == 13 { "d" }
    else if d == 14 { "e" }
    else { "f" };
    proof {
        assert(r@ =~= seq![hex_digit(d as int)]);
    }
    r
}

/// Render `n` in decimal.
pub fn dec_string(n: u64) -> (r: String)
    ensures
        r@ == spec_dec(n as nat),
    decreases n,
{
    if n < 10 {
        String::from_str(dec_digit_str(n))
    } else {
        let mut s = dec_string(n / 10);
        s.append(dec_digit_str(n % 10));
        proof {
            assert(s@ =~= spec_dec(n as nat));
        }
        s
    }
}

/// Tokens of `s` up to position `i`, given the partial word `cur` read so
/// far: words are maximal runs of non-space characters, and empty words are
/// dropped.
pub open spec fn split_acc(s: Seq<char>, i: int, cur: Seq<char>) -> Seq<Seq<char>>
    decreases s.len() - i,
    when 0 <= i <= s.len()
{
    if i >= s.len() {
        if cur.len() == 0 {
            Seq::<Seq<char>>::empty()
        } else {
            seq![cur]
        }
    } else if s[i] == ' ' {
        if cur.len() == 0 {
            split_acc(s, i + 1, Seq::<char>::empty())
        } else {
            seq![cur] + split_acc(s, i + 1, Seq::<char>::empty())
        }
    } else {
        split_acc(s, i + 1, cur.push(s[i]))
    }
}

/// The space-separated tokens of `s`, in order, empty tokens dropped.
pub open spec fn spec_split_ws(s: Seq<char>) -> Seq<Seq<char>> {
    split_acc(s, 0, Seq::<char>::empty())
}

/// Split `s` on spaces into its non-empty tokens.
pub fn split_spaces(s: &str) -> (r: Vec<String>)
    ensures
        r.deep_view() == spec_split_ws(s@),
{
    let n = s.unicode_len();
    let mut out: Vec<String> = Vec::new();
    let mut ws: usize = 0;
    let mut i: usize = 0;
    proof {
        assert(s@.subrange(0, 0) =~= Seq::<char>::empty());
        assert(out.deep_view() + split_acc(s@, 0, s@.subrange(0, 0)) =~= spec_split_ws(s@));
    }
    while i < n
        invariant
            n == s@.len(),
            ws <= i <= n,
            spec_split_ws(s@) == out.deep_view() + split_acc(
                s@,
                i as int,
                s@.subrange(ws as int, i as int),
            ),
        decreases n - i,
    {
        let c = s.get_char(i);
        if c == ' ' {
            if i > ws {
                let w = s.substring_char(ws, i);
                let ghost old_out = out.deep_view();
                out.push(String::from_str(w));
                proof {
                    assert(out.deep_view() =~= old_out.push(s@.subrange(ws as int, i as int)));
                    assert(old_out + (seq![s@.subrange(ws as int, i as int)] + split_acc(
                        s@,
                        i + 1,
                        Seq::<char>::empty(),
                    )) =~= out.deep_view() + split_acc(s@, i + 1, Seq::<char>::empty()));
                }
            }
            ws = i + 1;
            i = i + 1;
            proof {
                assert(s@.subrange(ws as int, i as int) =~= Seq::<char>::empty());
            }
        } else {
            i = i + 1;
            proof {
                assert(s@.subrange(ws as int, i as int) =~= s@.subrange(
                    ws as int,
                    i as int - 1,
                ).push(s@[i as int - 1]));
            }
        }
    }
    if n > ws {
        let w = s.substring_char(ws, n);
        let ghost old_out = out.deep_view();
        out.push(String::from_str(w));
        proof {
            assert(out.deep_view() =~= old_out.push(s@.subrange(ws as int, n as int)));
            assert(old_out + seq![s@.subrange(ws as int, n as int)] =~= out.deep_view());
        }
    }
    proof {
        assert(spec_split_ws(s@) =~= out.deep_view());
    }
    out
}

/// Fields of `s` split at every occurrence of `sep`, from position `i`,
/// with the partial field `cur` read so far. Unlike [`split_acc`], empty
/// fields are kept, so `n` separators always yield `n + 1` fields.
pub open spec fn split_keep_acc(s: Seq<char>, i: int, cur: Seq<char>, sep: char) -> Seq<Seq<char>>
    decreases s.len() - i,
    when 0 <= i <= s.len()
{
    if i >= s.len() {
        seq![cur]
    } else if s[i] == sep {
        seq![cur] + split_keep_acc(s, i + 1, Seq::<char>::empty(), sep)
    } else {
        split_keep_acc(s, i + 1, cur.push(s[i]), sep)
    }
}

/// The fields of `s` between occurrences of `sep`, empty fields kept.
pub open spec fn spec_split_keep(s: Seq<char>, sep: char) -> Seq<Seq<char>> {
    split_keep_acc(s, 0, Seq::<char>::empty(), sep)
}

/// Split `s` at every `sep`, keeping empty fields.
pub fn split_keep(s: &str, sep: char) -> (r: Vec<String>)
    ensures
        r.deep_view() == spec_split_keep(s@, sep),
{
    let n = s.unicode_len();
    let mut out: Vec<String> = Vec::new();
    let mut ws: usize = 0;
    let mut i: usize = 0;
    proof {
        assert(s@.subrange(0, 0) =~= Seq::<char>::empty());
    }
    while i < n
        invariant
            n == s@.len(),
            ws <= i <= n,
            spec_split_keep(s@, sep) == out.deep_view() + split_keep_acc(
                s@,
                i as int,
                s@.subrange(ws as int, i as int),
                sep,
            ),
        decreases n - i,
    {
        let c = s.get_char(i);
        if c == sep {
            let w = s.substring_char(ws, i);
            let ghost old_out = out.deep_view();
            out.push(String::from_str(w));
            proof {
                assert(out.deep_view() =~= old_out.push(s@.subrange(ws as int, i as int)));
                assert(old_out + (seq![s@.subrange(ws as int, i as int)] + split_keep_acc(
                    s@,
                    i + 1,
                    Seq::<char>::empty(),
                    sep,
                )) =~= out.deep_view() + split_keep_acc(s@, i + 1, Seq::<char>::empty(), sep));
            }
            ws = i + 1;
            i = i + 1;
            proof {
                assert(s@.subrange(ws as int, i as int) =~= Seq::<char>::empty());
            }
        } else {
            i = i + 1;
            proof {
                assert(s@.subrange(ws as int, i as int) =~= s@.subrange(
                    ws as int,
                    i as int - 1,
                ).push(s@[i as int - 1]));
            }
        }
    }
    let w = s.substring_char(ws, n);
    let ghost old_out = out.deep_view();
    out.push(String::from_str(w));
    proof {
        assert(out.deep_view() =~= old_out.push(s@.subrange(ws as int, n as int)));
        assert(spec_split_keep(s@, sep) =~= out.deep_view());
    }
    out
}

/// Leading spaces of `s` from position `i`: the first index at or after
/// `i` holding a non-space, or the length.
pub open spec fn spec_skip_spaces(s: Seq<char>, i: int) -> int
    decreases s.len() - i,
    when 0 <= i <= s.len()
{
    if i >= s.len() {
        i
    } else if s[i] == ' ' {
        spec_skip_spaces(s, i + 1)
    } else {
        i
    }
}

/// Trailing spaces of `s` before position `e`: the least position at or
/// before `e` such that everything between it and `e` is spaces, stopping
/// at the first non-space.
pub open spec fn spec_rskip_spaces(s: Seq<char>, e: int) -> int
    decreases e,
    when 0 <= e <= s.len()
{
    if e <= 0 {
        0
    } else if s[e - 1] == ' ' {
        spec_rskip_spaces(s, e - 1)
    } else {
        e
    }
}

/// The content of `s` with leading and trailing spaces removed: everything
/// from the first non-space to the last one.
pub open spec fn spec_trim(s: Seq<char>) -> Seq<char> {
    let b = spec_skip_spaces(s, 0);
    let e = spec_rskip_spaces(s, s.len() as int);
    if b < e {
        s.subrange(b, e)
    } else {
        Seq::<char>::empty()
    }
}

/// Remove leading and trailing spaces.
pub fn trim_spaces(s: &str) -> (r: String)
    ensures
        r@ == spec_trim(s@),
{
    let n = s.unicode_len();
    let mut b: usize = 0;
    while b < n && s.get_char(b) == ' '
        invariant
            n == s@.len(),
            b <= n,
            spec_skip_spaces(s@, 0) == spec_skip_spaces(s@, b as int),
        decreases n - b,
    {
        b = b + 1;
    }
    let mut e: usize = n;
    while e > 0 && s.get_char(e - 1) == ' '
        invariant
            n == s@.len(),
            e <= n,
            spec_rskip_spaces(s@, n as int) == spec_rskip_spaces(s@, e as int),
        decreases e,
    {
        e = e - 1;
    }
    proof {
        assert(b as int == spec_skip_spaces(s@, b as int));
        assert(e as int == spec_rskip_spaces(s@, e as int));
    }
    if b < e {
        let w = s.substring_char(b, e);
        let r = String::from_str(w);
        proof {
            assert(r@ =~= spec_trim(s@));
        }
        r
    } else {
        let r = String::new();
        proof {
            assert(r@ =~= spec_trim(s@));
        }
        r
    }
}

/// Whether two strings hold the same characters.
pub fn strings_equal(a: &String, b: &String) -> (r: bool)
    ensures
        r == (a@ == b@),
{
    a.eq(b)
}

/// Whether a string equals a literal, at the level of views.
pub fn string_eq_str(s: &String, lit: &str) -> (r: bool)
    ensures
        r == (s@ == lit@),
{
    let other = String::from_str(lit);
    s.eq(&other)
}

/// Render `n` in lowercase hex, without a "0x" prefix.
pub fn hex_string(n: u64) -> (r: String)
    ensures
        r@ == spec_hex(n as nat),
    decreases n,
{
    if n < 16 {
        String::from_str(hex_digit_str(n))
    } else {
        let mut s = hex_string(n / 16);
        s.append(hex_digit_str(n % 16));
        proof {
            assert(s@ =~= spec_hex(n as nat));
        }
        s
    }
}

} // verus!
