//! Character-level text operations: white space, trimming, splitting, joining.
//!
//! A text is modelled as a `Seq<char>`. The scanning functions work on a
//! vector of characters and on index ranges into it, so that every piece they
//! find is a sub-range of the text it was found in.

use vstd::prelude::*;

verus! {

broadcast use vstd::string::group_string_axioms;

/// Whether `c` is a Unicode white-space character (the `White_Space` property).
pub open spec fn is_whitespace(c: char) -> bool {
    let n = c as u32;
    ||| 0x09 <= n <= 0x0D
    ||| n == 0x20
    ||| n == 0x85
    ||| n == 0xA0
    ||| n == 0x1680
    ||| 0x2000 <= n <= 0x200A
    ||| n == 0x2028
    ||| n == 0x2029
    ||| n == 0x202F
    ||| n == 0x205F
    ||| n == 0x3000
}

/// Number of white-space characters at the start of `s`.
pub open spec fn leading_whitespace(s: Seq<char>) -> nat
    decreases s.len(),
{
    if s.len() > 0 && is_whitespace(s[0]) {
        (1 + leading_whitespace(s.drop_first())) as nat
    } else {
        0
    }
}

/// Number of white-space characters at the end of `s`.
pub open spec fn trailing_whitespace(s: Seq<char>) -> nat
    decreases s.len(),
{
    if s.len() > 0 && is_whitespace(s.last()) {
        (1 + trailing_whitespace(s.drop_last())) as nat
    } else {
        0
    }
}

/// Number of characters at the start of `s` that are not white space.
pub open spec fn word_len(s: Seq<char>) -> nat
    decreases s.len(),
{
    if s.len() > 0 && !is_whitespace(s[0]) {
        (1 + word_len(s.drop_first())) as nat
    } else {
        0
    }
}

/// `s` without its leading white space.
pub open spec fn trim_start(s: Seq<char>) -> Seq<char> {
    s.skip(leading_whitespace(s) as int)
}

/// `s` without its trailing white space.
pub open spec fn trim_end(s: Seq<char>) -> Seq<char> {
    s.take(s.len() - trailing_whitespace(s))
}

/// `s` without its leading and trailing white space.
pub open spec fn trim(s: Seq<char>) -> Seq<char> {
    trim_end(trim_start(s))
}

/// The `n`-th (from 0) maximal run of characters of `s` that are not white
/// space, if `s` has that many.
pub open spec fn word_at(s: Seq<char>, n: nat) -> Option<Seq<char>>
    decreases n,
{
    let t = trim_start(s);
    if t.len() == 0 {
        None
    } else if n == 0 {
        Some(t.take(word_len(t) as int))
    } else {
        word_at(t.skip(word_len(t) as int), (n - 1) as nat)
    }
}

/// Index of the first `c` in `s`, or `s.len()` where `s` holds no `c`.
pub open spec fn index_of(s: Seq<char>, c: char) -> nat
    decreases s.len(),
{
    if s.len() == 0 || s[0] == c {
        0
    } else {
        (1 + index_of(s.drop_first(), c)) as nat
    }
}

/// The pieces of `s` between occurrences of `sep`, in order. A text without
/// `sep` is one piece; `n` occurrences give `n + 1` pieces, of which any may
/// be empty.
pub open spec fn split_on(s: Seq<char>, sep: char) -> Seq<Seq<char>>
    decreases s.len(),
{
    let i = index_of(s, sep) as int;
    if i < s.len() {
        seq![s.take(i)] + split_on(s.skip(i + 1), sep)
    } else {
        seq![s]
    }
}

/// The parts in order, with `sep` between each two neighbours.
pub open spec fn join(parts: Seq<Seq<char>>, sep: Seq<char>) -> Seq<char>
    decreases parts.len(),
{
    if parts.len() == 0 {
        Seq::empty()
    } else if parts.len() == 1 {
        parts[0]
    } else {
        join(parts.drop_last(), sep) + sep + parts.last()
    }
}

/// The sub-texts of `s` that `ranges` delimit, each as `(start, end)`.
pub open spec fn slices(s: Seq<char>, ranges: Seq<(usize, usize)>) -> Seq<Seq<char>> {
    Seq::new(ranges.len(), |k: int| s.subrange(ranges[k].0 as int, ranges[k].1 as int))
}

/// Whether every range of `ranges` lies within `from..to`.
pub open spec fn ranges_within(ranges: Seq<(usize, usize)>, from: int, to: int) -> bool {
    forall|k: int|
        0 <= k < ranges.len() ==> from <= (#[trigger] ranges[k]).0 <= ranges[k].1 <= to
}

/// The views of the strings of `v`.
pub open spec fn texts(v: Seq<String>) -> Seq<Seq<char>> {
    Seq::new(v.len(), |k: int| v[k]@)
}

/// The views of a sequence that grew by one string are the views of the
/// sequence, grown by the view of that string.
pub proof fn lemma_texts_push(v: Seq<String>, s: String)
    ensures
        texts(v.push(s)) == texts(v).push(s@),
{
    assert(texts(v.push(s)) =~= texts(v).push(s@));
}

/// `leading_whitespace(s)` is the `k` at which the leading white space ends.
pub proof fn lemma_leading_whitespace(s: Seq<char>, k: int)
    requires
        0 <= k <= s.len(),
        forall|i: int| 0 <= i < k ==> is_whitespace(#[trigger] s[i]),
        k < s.len() ==> !is_whitespace(s[k]),
    ensures
        leading_whitespace(s) == k,
    decreases k,
{
    if k > 0 {
        let r = s.drop_first();
        assert forall|i: int| 0 <= i < k - 1 implies is_whitespace(#[trigger] r[i]) by {
            assert(r[i] == s[i + 1]);
        }
        lemma_leading_whitespace(r, k - 1);
    }
}

/// `trailing_whitespace(s)` is the number of characters from `k` on, where
/// `k` is the index at which the trailing white space starts.
pub proof fn lemma_trailing_whitespace(s: Seq<char>, k: int)
    requires
        0 <= k <= s.len(),
        forall|i: int| k <= i < s.len() ==> is_whitespace(#[trigger] s[i]),
        k > 0 ==> !is_whitespace(s[k - 1]),
    ensures
        trailing_whitespace(s) == s.len() - k,
    decreases s.len() - k,
{
    if k < s.len() {
        let r = s.drop_last();
        assert forall|i: int| k <= i < r.len() implies is_whitespace(#[trigger] r[i]) by {
            assert(r[i] == s[i]);
        }
        lemma_trailing_whitespace(r, k);
    }
}

/// `word_len(s)` is the `k` at which the leading run of other characters ends.
pub proof fn lemma_word_len(s: Seq<char>, k: int)
    requires
        0 <= k <= s.len(),
        forall|i: int| 0 <= i < k ==> !is_whitespace(#[trigger] s[i]),
        k < s.len() ==> is_whitespace(s[k]),
    ensures
        word_len(s) == k,
    decreases k,
{
    if k > 0 {
        let r = s.drop_first();
        assert forall|i: int| 0 <= i < k - 1 implies !is_whitespace(#[trigger] r[i]) by {
            assert(r[i] == s[i + 1]);
        }
        lemma_word_len(r, k - 1);
    }
}

/// `index_of(s, c)` is the `k` before which `s` holds no `c` and at which it
/// holds one or ends.
pub proof fn lemma_index_of(s: Seq<char>, c: char, k: int)
    requires
        0 <= k <= s.len(),
        forall|i: int| 0 <= i < k ==> #[trigger] s[i] != c,
        k < s.len() ==> s[k] == c,
    ensures
        index_of(s, c) == k,
    decreases k,
{
    if k > 0 {
        let r = s.drop_first();
        assert forall|i: int| 0 <= i < k - 1 implies #[trigger] r[i] != c by {
            assert(r[i] == s[i + 1]);
        }
        lemma_index_of(r, c, k - 1);
    }
}

/// The white space at either end of a text is no longer than the text.
pub proof fn lemma_whitespace_within(s: Seq<char>)
    ensures
        leading_whitespace(s) <= s.len(),
        trailing_whitespace(s) <= s.len(),
    decreases s.len(),
{
    if s.len() > 0 {
        lemma_whitespace_within(s.drop_first());
        lemma_whitespace_within(s.drop_last());
    }
}

/// A text that neither starts nor ends with white space is its own trim.
pub proof fn lemma_trim_tight(s: Seq<char>)
    requires
        s.len() > 0 ==> !is_whitespace(s[0]) && !is_whitespace(s.last()),
    ensures
        trim(s) == s,
{
    assert(trim_start(s) =~= s);
    assert(trim_end(s) =~= s);
}

/// The first piece of a text is what stands before its first separator, and
/// the other pieces are those of what stands after it.
pub proof fn lemma_split_first(a: Seq<char>, b: Seq<char>, sep: char)
    requires
        forall|i: int| 0 <= i < a.len() ==> #[trigger] a[i] != sep,
    ensures
        split_on(a + seq![sep] + b, sep) == seq![a] + split_on(b, sep),
{
    let s = a + seq![sep] + b;
    assert forall|i: int| 0 <= i < a.len() implies #[trigger] s[i] != sep by {
        assert(s[i] == a[i]);
    }
    lemma_index_of(s, sep, a.len() as int);
    assert(s.take(a.len() as int) =~= a);
    assert(s.skip(a.len() as int + 1) =~= b);
}

/// Decides `is_whitespace`.
pub fn is_whitespace_char(c: char) -> (b: bool)
    ensures
        b == is_whitespace(c),
{
    let n: u32 = c as u32;
    (0x09 <= n && n <= 0x0D) || n == 0x20 || n == 0x85 || n == 0xA0 || n == 0x1680 || (0x2000 <= n
        && n <= 0x200A) || n == 0x2028 || n == 0x2029 || n == 0x202F || n == 0x205F || n == 0x3000
}

/// The characters of `s`, in order.
pub fn chars_of(s: &str) -> (chars: Vec<char>)
    ensures
        chars@ == s@,
{
    let mut chars: Vec<char> = Vec::new();
    for c in it: s.chars()
        invariant
            it.seq() == s@,
            chars@ == s@.take(it.index()),
    {
        chars.push(c);
    }
    chars
}

/// The index at which the white space that starts at `from` ends, within
/// `from..to`.
pub fn skip_whitespace(chars: &Vec<char>, from: usize, to: usize) -> (i: usize)
    requires
        from <= to <= chars.len(),
    ensures
        from <= i <= to,
        i - from == leading_whitespace(chars@.subrange(from as int, to as int)),
{
    let mut i: usize = from;
    while i < to && is_whitespace_char(chars[i])
        invariant
            from <= i <= to <= chars.len(),
            forall|j: int| from <= j < i ==> is_whitespace(#[trigger] chars@[j]),
        decreases to - i,
    {
        i += 1;
    }
    proof {
        lemma_leading_whitespace(chars@.subrange(from as int, to as int), i - from);
    }
    i
}

/// The index at which the white space that ends at `to` starts, within
/// `from..to`.
pub fn skip_whitespace_back(chars: &Vec<char>, from: usize, to: usize) -> (i: usize)
    requires
        from <= to <= chars.len(),
    ensures
        from <= i <= to,
        to - i == trailing_whitespace(chars@.subrange(from as int, to as int)),
{
    let mut i: usize = to;
    while i > from && is_whitespace_char(chars[i - 1])
        invariant
            from <= i <= to <= chars.len(),
            forall|j: int| i <= j < to ==> is_whitespace(#[trigger] chars@[j]),
        decreases i - from,
    {
        i -= 1;
    }
    proof {
        lemma_trailing_whitespace(chars@.subrange(from as int, to as int), i - from);
    }
    i
}

/// The index at which the run of other characters that starts at `from`
/// ends, within `from..to`.
pub fn skip_word(chars: &Vec<char>, from: usize, to: usize) -> (i: usize)
    requires
        from <= to <= chars.len(),
    ensures
        from <= i <= to,
        i - from == word_len(chars@.subrange(from as int, to as int)),
{
    let mut i: usize = from;
    while i < to && !is_whitespace_char(chars[i])
        invariant
            from <= i <= to <= chars.len(),
            forall|j: int| from <= j < i ==> !is_whitespace(#[trigger] chars@[j]),
        decreases to - i,
    {
        i += 1;
    }
    proof {
        lemma_word_len(chars@.subrange(from as int, to as int), i - from);
    }
    i
}

/// The range of `from..to` that is left when the white space at both ends is
/// taken away.
pub fn trim_range(chars: &Vec<char>, from: usize, to: usize) -> (r: (usize, usize))
    requires
        from <= to <= chars.len(),
    ensures
        from <= r.0 <= r.1 <= to,
        chars@.subrange(r.0 as int, r.1 as int) == trim(chars@.subrange(from as int, to as int)),
{
    let a = skip_whitespace(chars, from, to);
    let b = skip_whitespace_back(chars, a, to);
    proof {
        let whole = chars@.subrange(from as int, to as int);
        assert(trim_start(whole) =~= chars@.subrange(a as int, to as int));
        assert(trim_end(chars@.subrange(a as int, to as int)) =~= chars@.subrange(
            a as int,
            b as int,
        ));
    }
    (a, b)
}

/// The range of the `n`-th white-space-delimited word of `from..to`, if there
/// are that many.
pub fn word_range(chars: &Vec<char>, from: usize, to: usize, n: usize) -> (r: Option<
    (usize, usize),
>)
    requires
        from <= to <= chars.len(),
    ensures
        match r {
            Some((a, b)) => from <= a <= b <= to && word_at(
                chars@.subrange(from as int, to as int),
                n as nat,
            ) == Some(chars@.subrange(a as int, b as int)),
            None => word_at(chars@.subrange(from as int, to as int), n as nat) is None,
        },
{
    let mut start: usize = from;
    let mut left: usize = n;
    loop
        invariant
            from <= start <= to <= chars.len(),
            left <= n,
            word_at(chars@.subrange(from as int, to as int), n as nat) == word_at(
                chars@.subrange(start as int, to as int),
                left as nat,
            ),
        decreases left,
    {
        let a = skip_whitespace(chars, start, to);
        let b = skip_word(chars, a, to);
        proof {
            let rest = chars@.subrange(start as int, to as int);
            let t = chars@.subrange(a as int, to as int);
            assert(trim_start(rest) =~= t);
            assert(t.take(word_len(t) as int) =~= chars@.subrange(a as int, b as int));
            assert(t.skip(word_len(t) as int) =~= chars@.subrange(b as int, to as int));
        }
        if a == to {
            return None;
        }
        if left == 0 {
            return Some((a, b));
        }
        start = b;
        left -= 1;
    }
}

/// The index of the first `c` within `from..to`, or `to` where there is none.
pub fn find_char(chars: &Vec<char>, from: usize, to: usize, c: char) -> (i: usize)
    requires
        from <= to <= chars.len(),
    ensures
        from <= i <= to,
        i - from == index_of(chars@.subrange(from as int, to as int), c),
{
    let mut i: usize = from;
    while i < to && chars[i] != c
        invariant
            from <= i <= to <= chars.len(),
            forall|j: int| from <= j < i ==> #[trigger] chars@[j] != c,
        decreases to - i,
    {
        i += 1;
    }
    proof {
        lemma_index_of(chars@.subrange(from as int, to as int), c, i - from);
    }
    i
}

/// The ranges of the pieces of `from..to` between occurrences of `sep`.
pub fn split_ranges(chars: &Vec<char>, from: usize, to: usize, sep: char) -> (ranges: Vec<
    (usize, usize),
>)
    requires
        from <= to <= chars.len(),
    ensures
        slices(chars@, ranges@) == split_on(chars@.subrange(from as int, to as int), sep),
        ranges_within(ranges@, from as int, to as int),
{
    let mut ranges: Vec<(usize, usize)> = Vec::new();
    let mut start: usize = from;
    let ghost whole = chars@.subrange(from as int, to as int);
    loop
        invariant_except_break
            from <= start <= to <= chars.len(),
            whole == chars@.subrange(from as int, to as int),
            split_on(whole, sep) == slices(chars@, ranges@) + split_on(
                chars@.subrange(start as int, to as int),
                sep,
            ),
            ranges_within(ranges@, from as int, to as int),
        ensures
            slices(chars@, ranges@) == split_on(whole, sep),
            ranges_within(ranges@, from as int, to as int),
        decreases to - start,
    {
        let i = find_char(chars, start, to, sep);
        let ghost before = ranges@;
        ranges.push((start, i));
        proof {
            let rest = chars@.subrange(start as int, to as int);
            assert(slices(chars@, ranges@) =~= slices(chars@, before) + seq![
                chars@.subrange(start as int, i as int),
            ]);
            assert(rest.take(i - start) =~= chars@.subrange(start as int, i as int));
            if i < to {
                assert(rest.skip(i - start + 1) =~= chars@.subrange(i + 1, to as int));
            } else {
                assert(rest =~= chars@.subrange(start as int, i as int));
            }
        }
        if i == to {
            break ;
        }
        start = i + 1;
    }
    ranges
}

/// Whether the range `from..to` starts with `prefix`.
pub fn starts_with_range(chars: &Vec<char>, from: usize, to: usize, prefix: &Vec<char>) -> (b:
    bool)
    requires
        from <= to <= chars.len(),
    ensures
        b == prefix@.is_prefix_of(chars@.subrange(from as int, to as int)),
{
    let ghost s = chars@.subrange(from as int, to as int);
    if prefix.len() > to - from {
        return false;
    }
    let mut i: usize = 0;
    while i < prefix.len()
        invariant
            i <= prefix.len() <= to - from,
            from <= to <= chars.len(),
            s == chars@.subrange(from as int, to as int),
            forall|j: int| 0 <= j < i ==> prefix@[j] == #[trigger] s[j],
        decreases prefix.len() - i,
    {
        if chars[from + i] != prefix[i] {
            assert(s.subrange(0, prefix@.len() as int)[i as int] != prefix@[i as int]);
            return false;
        }
        i += 1;
    }
    assert(prefix@ =~= s.subrange(0, prefix@.len() as int));
    true
}

/// The strings of `parts` in order, with `sep` between each two neighbours.
pub fn join_strings(parts: &Vec<String>, sep: &str) -> (out: String)
    ensures
        out@ == join(texts(parts@), sep@),
{
    let mut out = String::new();
    let mut i: usize = 0;
    while i < parts.len()
        invariant
            i <= parts.len(),
            out@ == join(texts(parts@).take(i as int), sep@),
        decreases parts.len() - i,
    {
        let ghost before = texts(parts@).take(i as int);
        let ghost now = texts(parts@).take(i + 1);
        if i > 0 {
            out.append(sep);
        }
        out.append(parts[i].as_str());
        proof {
            assert(now.drop_last() =~= before);
            assert(now.last() == parts@[i as int]@);
        }
        i += 1;
    }
    proof {
        assert(texts(parts@).take(parts.len() as int) =~= texts(parts@));
    }
    out
}

} // verus!
