//! Textual IP addresses: which texts denote an IPv4 or an IPv6 address.
//!
//! IPv4 is the dotted quad of four decimal octets. IPv6 is the
//! colon-separated notation of eight 16-bit groups in hexadecimal, in which
//! one `::` may stand for one or more zero groups and the last two groups
//! may be written as a dotted quad.

use crate::text::{chars_of, ranges_within, slices, split_on, split_ranges};
use vstd::prelude::*;

verus! {

/// Whether `c` is one of `0` to `9`.
pub open spec fn is_digit(c: char) -> bool {
    '0' as u32 <= c as u32 <= '9' as u32
}

/// Whether `c` is a hexadecimal digit, in either case.
pub open spec fn is_hex_digit(c: char) -> bool {
    ||| is_digit(c)
    ||| 'a' as u32 <= c as u32 <= 'f' as u32
    ||| 'A' as u32 <= c as u32 <= 'F' as u32
}

/// The number that a decimal digit stands for.
pub open spec fn digit_value(c: char) -> nat {
    (c as u32 - '0' as u32) as nat
}

/// The number that a text of decimal digits denotes.
pub open spec fn decimal_value(s: Seq<char>) -> nat
    decreases s.len(),
{
    if s.len() == 0 {
        0
    } else {
        decimal_value(s.drop_last()) * 10 + digit_value(s.last())
    }
}

/// Whether `s` is a decimal octet: one to three digits, no leading zero
/// before another digit, at most 255.
pub open spec fn is_octet(s: Seq<char>) -> bool {
    &&& 1 <= s.len() <= 3
    &&& forall|i: int| 0 <= i < s.len() ==> is_digit(#[trigger] s[i])
    &&& (s.len() > 1 ==> s[0] != '0')
    &&& decimal_value(s) <= 255
}

/// Whether `s` is an IPv4 address: four octets separated by `.`.
pub open spec fn is_ipv4_text(s: Seq<char>) -> bool {
    let parts = split_on(s, '.');
    &&& parts.len() == 4
    &&& forall|k: int| 0 <= k < 4 ==> is_octet(#[trigger] parts[k])
}

/// Whether `s` is one group of an IPv6 address: one to four hex digits.
pub open spec fn is_hex_group(s: Seq<char>) -> bool {
    &&& 1 <= s.len() <= 4
    &&& forall|i: int| 0 <= i < s.len() ==> is_hex_digit(#[trigger] s[i])
}

/// Whether every piece is a hex group.
pub open spec fn all_hex_groups(pieces: Seq<Seq<char>>) -> bool {
    forall|k: int| 0 <= k < pieces.len() ==> is_hex_group(#[trigger] pieces[k])
}

/// The pieces of a run of groups: what stands between its colons. An empty
/// run has no piece.
pub open spec fn colon_pieces(s: Seq<char>) -> Seq<Seq<char>> {
    if s.len() == 0 {
        Seq::empty()
    } else {
        split_on(s, ':')
    }
}

/// The number of 16-bit groups that the pieces denote, if they are well
/// formed: all of them hex groups, or, where `quad_allowed`, all but the last
/// hex groups and the last an IPv4 address, which stands for two groups.
pub open spec fn group_count(pieces: Seq<Seq<char>>, quad_allowed: bool) -> Option<nat> {
    if all_hex_groups(pieces) {
        Some(pieces.len())
    } else if quad_allowed && pieces.len() > 0 && all_hex_groups(pieces.drop_last())
        && is_ipv4_text(pieces.last()) {
        Some(pieces.len() + 1)
    } else {
        None
    }
}

/// Index of the first `::` in `s`, or `s.len()` where `s` holds none.
pub open spec fn first_double_colon(s: Seq<char>) -> nat
    decreases s.len(),
{
    if s.len() < 2 {
        s.len()
    } else if s[0] == ':' && s[1] == ':' {
        0
    } else {
        (1 + first_double_colon(s.drop_first())) as nat
    }
}

/// Whether `s` is an IPv6 address. Without `::` it has exactly eight groups.
/// With `::`, the groups before the first `::` (none of them a dotted quad)
/// and those after it are at most seven together.
pub open spec fn is_ipv6_text(s: Seq<char>) -> bool {
    let i = first_double_colon(s) as int;
    if i < s.len() {
        let head = group_count(colon_pieces(s.take(i)), false);
        let tail = group_count(colon_pieces(s.skip(i + 2)), true);
        head is Some && tail is Some && head.unwrap() + tail.unwrap() <= 7
    } else {
        group_count(colon_pieces(s), true) == Some(8nat)
    }
}

/// Whether `s` is an IP address of either family.
pub open spec fn is_ip_text(s: Seq<char>) -> bool {
    is_ipv4_text(s) || is_ipv6_text(s)
}

/// `first_double_colon(s)` is the `k` before which no `::` starts and at
/// which one starts or `s` ends.
pub proof fn lemma_first_double_colon(s: Seq<char>, k: int)
    requires
        0 <= k <= s.len(),
        forall|j: int|
            0 <= j < k && j + 1 < s.len() ==> !(s[j] == ':' && #[trigger] s[j + 1] == ':'),
        k < s.len() ==> k + 1 < s.len() && s[k] == ':' && s[k + 1] == ':',
    ensures
        first_double_colon(s) == k,
    decreases s.len(),
{
    if s.len() >= 2 && k > 0 {
        let r = s.drop_first();
        assert(!(s[0] == ':' && s[0int + 1] == ':'));
        assert forall|j: int| 0 <= j < k - 1 && j + 1 < r.len() implies !(r[j] == ':'
            && #[trigger] r[j + 1] == ':') by {
            assert(r[j] == s[j + 1]);
            assert(r[j + 1] == s[(j + 1) + 1]);
        }
        lemma_first_double_colon(r, k - 1);
    }
}

/// Decides `is_digit`.
pub fn is_digit_char(c: char) -> (b: bool)
    ensures
        b == is_digit(c),
{
    let n: u32 = c as u32;
    '0' as u32 <= n && n <= '9' as u32
}

/// Decides `is_hex_digit`.
pub fn is_hex_digit_char(c: char) -> (b: bool)
    ensures
        b == is_hex_digit(c),
{
    let n: u32 = c as u32;
    ('0' as u32 <= n && n <= '9' as u32) || ('a' as u32 <= n && n <= 'f' as u32) || ('A' as u32 <= n
        && n <= 'F' as u32)
}

/// Decides `is_octet` of the range `from..to`.
pub fn is_octet_range(chars: &Vec<char>, from: usize, to: usize) -> (b: bool)
    requires
        from <= to <= chars.len(),
    ensures
        b == is_octet(chars@.subrange(from as int, to as int)),
{
    let ghost s = chars@.subrange(from as int, to as int);
    if to - from == 0 || to - from > 3 {
        return false;
    }
    if to - from > 1 && chars[from] == '0' {
        assert(s[0] == '0');
        return false;
    }
    let mut value: u32 = 0;
    let mut i: usize = from;
    while i < to
        invariant
            from <= i <= to <= chars.len(),
            to - from <= 3,
            s == chars@.subrange(from as int, to as int),
            forall|j: int| 0 <= j < i - from ==> is_digit(#[trigger] s[j]),
            value == decimal_value(s.take(i - from)),
            i - from == 0 ==> value == 0,
            i - from == 1 ==> value <= 9,
            i - from == 2 ==> value <= 99,
            i - from == 3 ==> value <= 999,
        decreases to - i,
    {
        let c = chars[i];
        if !is_digit_char(c) {
            assert(!is_digit(s[i - from]));
            return false;
        }
        proof {
            let now = s.take(i - from + 1);
            assert(now.drop_last() =~= s.take(i - from));
            assert(now.last() == c);
        }
        value = value * 10 + (c as u32 - '0' as u32);
        i += 1;
    }
    proof {
        assert(s.take(to - from) =~= s);
    }
    value <= 255
}

/// Decides `is_ipv4_text` of the range `from..to`.
pub fn is_ipv4_range(chars: &Vec<char>, from: usize, to: usize) -> (b: bool)
    requires
        from <= to <= chars.len(),
    ensures
        b == is_ipv4_text(chars@.subrange(from as int, to as int)),
{
    let parts = split_ranges(chars, from, to, '.');
    if parts.len() != 4 {
        return false;
    }
    let ghost pieces = slices(chars@, parts@);
    let mut k: usize = 0;
    while k < 4
        invariant
            k <= 4,
            parts.len() == 4,
            pieces == slices(chars@, parts@),
            pieces == split_on(chars@.subrange(from as int, to as int), '.'),
            ranges_within(parts@, from as int, to as int),
            from <= to <= chars.len(),
            forall|j: int| 0 <= j < k ==> is_octet(#[trigger] pieces[j]),
        decreases 4 - k,
    {
        let (a, b) = parts[k];
        assert(pieces[k as int] == chars@.subrange(a as int, b as int));
        if !is_octet_range(chars, a, b) {
            return false;
        }
        k += 1;
    }
    true
}

/// Decides `is_hex_group` of the range `from..to`.
pub fn is_hex_group_range(chars: &Vec<char>, from: usize, to: usize) -> (b: bool)
    requires
        from <= to <= chars.len(),
    ensures
        b == is_hex_group(chars@.subrange(from as int, to as int)),
{
    let ghost s = chars@.subrange(from as int, to as int);
    if to - from == 0 || to - from > 4 {
        return false;
    }
    let mut i: usize = from;
    while i < to
        invariant
            from <= i <= to <= chars.len(),
            s == chars@.subrange(from as int, to as int),
            forall|j: int| 0 <= j < i - from ==> is_hex_digit(#[trigger] s[j]),
        decreases to - i,
    {
        if !is_hex_digit_char(chars[i]) {
            assert(!is_hex_digit(s[i - from]));
            return false;
        }
        i += 1;
    }
    true
}

/// The index of the first `::` within `from..to`, or `to` where there is none.
pub fn find_double_colon(chars: &Vec<char>, from: usize, to: usize) -> (i: usize)
    requires
        from <= to <= chars.len(),
    ensures
        from <= i <= to,
        i < to ==> i + 1 < to,
        i - from == first_double_colon(chars@.subrange(from as int, to as int)),
{
    let ghost s = chars@.subrange(from as int, to as int);
    let mut i: usize = from;
    while i < to && i + 1 < to
        invariant
            from <= i <= to <= chars.len(),
            s == chars@.subrange(from as int, to as int),
            forall|j: int|
                0 <= j < i - from && j + 1 < s.len() ==> !(s[j] == ':' && #[trigger] s[j + 1]
                    == ':'),
        decreases to - i,
    {
        if chars[i] == ':' && chars[i + 1] == ':' {
            proof {
                assert(s[i - from] == ':' && s[i - from + 1] == ':');
                lemma_first_double_colon(s, i - from);
            }
            return i;
        }
        proof {
            assert(!(s[i - from] == ':' && s[(i - from) + 1] == ':'));
        }
        i += 1;
    }
    proof {
        lemma_first_double_colon(s, to - from);
    }
    to
}

/// The number of groups that the run of groups `from..to` denotes, where it is
/// well formed and denotes at most `max`.
pub fn count_groups(
    chars: &Vec<char>,
    from: usize,
    to: usize,
    quad_allowed: bool,
    max: usize,
) -> (r: Option<usize>)
    requires
        from <= to <= chars.len(),
    ensures
        r == match group_count(
            colon_pieces(chars@.subrange(from as int, to as int)),
            quad_allowed,
        ) {
            Some(n) => if n <= max {
                Some(n as usize)
            } else {
                None
            },
            None => None,
        },
{
    let ghost s = chars@.subrange(from as int, to as int);
    let parts = if from == to {
        Vec::new()
    } else {
        split_ranges(chars, from, to, ':')
    };
    let ghost pieces = slices(chars@, parts@);
    assert(pieces =~= colon_pieces(s));
    let n = parts.len();
    if n == 0 {
        return Some(0);
    }
    if n > max {
        return None;
    }
    let mut k: usize = 0;
    while k + 1 < n
        invariant
            k < n,
            n == parts.len(),
            pieces == slices(chars@, parts@),
            pieces == colon_pieces(s),
            ranges_within(parts@, from as int, to as int),
            from <= to <= chars.len(),
            s == chars@.subrange(from as int, to as int),
            forall|j: int| 0 <= j < k ==> is_hex_group(#[trigger] pieces[j]),
        decreases n - k,
    {
        let (a, b) = parts[k];
        assert(pieces[k as int] == chars@.subrange(a as int, b as int));
        if !is_hex_group_range(chars, a, b) {
            assert(!is_hex_group(pieces[k as int]));
            assert(pieces.drop_last()[k as int] == pieces[k as int]);
            return None;
        }
        k += 1;
    }
    let (a, b) = parts[n - 1];
    assert(pieces.last() == chars@.subrange(a as int, b as int));
    assert(all_hex_groups(pieces.drop_last())) by {
        assert forall|j: int| 0 <= j < pieces.drop_last().len() implies is_hex_group(
            #[trigger] pieces.drop_last()[j],
        ) by {
            assert(pieces.drop_last()[j] == pieces[j]);
        }
    }
    if is_hex_group_range(chars, a, b) {
        assert(all_hex_groups(pieces)) by {
            assert forall|j: int| 0 <= j < pieces.len() implies is_hex_group(
                #[trigger] pieces[j],
            ) by {
                if j == n - 1 {
                    assert(pieces[j] == pieces.last());
                }
            }
        }
        Some(n)
    } else {
        assert(!all_hex_groups(pieces)) by {
            assert(!is_hex_group(pieces[n - 1]));
        }
        if quad_allowed && n < max && is_ipv4_range(chars, a, b) {
            Some(n + 1)
        } else {
            None
        }
    }
}

/// Decides `is_ipv6_text` of the range `from..to`.
pub fn is_ipv6_range(chars: &Vec<char>, from: usize, to: usize) -> (b: bool)
    requires
        from <= to <= chars.len(),
    ensures
        b == is_ipv6_text(chars@.subrange(from as int, to as int)),
{
    let ghost s = chars@.subrange(from as int, to as int);
    let i = find_double_colon(chars, from, to);
    if i < to {
        proof {
            assert(s.take(i - from) =~= chars@.subrange(from as int, i as int));
            assert(s.skip(i - from + 2) =~= chars@.subrange(i + 2, to as int));
        }
        match count_groups(chars, from, i, false, 7) {
            Some(head) => count_groups(chars, i + 2, to, true, 7 - head).is_some(),
            None => false,
        }
    } else {
        match count_groups(chars, from, to, true, 8) {
            Some(n) => n == 8,
            None => false,
        }
    }
}

/// Decides `is_ip_text` of the range `from..to`.
pub fn is_ip_range(chars: &Vec<char>, from: usize, to: usize) -> (b: bool)
    requires
        from <= to <= chars.len(),
    ensures
        b == is_ip_text(chars@.subrange(from as int, to as int)),
{
    is_ipv4_range(chars, from, to) || is_ipv6_range(chars, from, to)
}

/// Whether `s` is the text of an IPv4 or IPv6 address.
pub fn is_ip_address(s: &str) -> (b: bool)
    ensures
        b == is_ip_text(s@),
{
    let chars = chars_of(s);
    proof {
        assert(chars@.subrange(0, chars@.len() as int) =~= s@);
    }
    is_ip_range(&chars, 0, chars.len())
}

} // verus!
