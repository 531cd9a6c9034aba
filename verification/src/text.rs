//! Character sequences: searching, splitting, trimming and joining, each
//! with the mathematical function that it computes.

use vstd::prelude::*;

verus! {

/// The contents of a sequence of character vectors.
pub open spec fn rows(vectors: Seq<Vec<char>>) -> Seq<Seq<char>> {
    vectors.map_values(|v: Vec<char>| v@)
}

/// The views of a sequence of strings.
pub open spec fn texts(strings: Seq<String>) -> Seq<Seq<char>> {
    strings.map_values(|s: String| s@)
}

/// Whether `pat` stands in `s` at position `at`.
pub open spec fn matches_at(s: Seq<char>, pat: Seq<char>, at: int) -> bool {
    0 <= at && at + pat.len() <= s.len() && s.subrange(at, at + pat.len()) == pat
}

/// The first position at or after `from` where `pat` stands in `s`.
pub open spec fn find_from(s: Seq<char>, pat: Seq<char>, from: int) -> Option<int>
    decreases s.len() + 1 - from,
{
    if from < 0 || from + pat.len() > s.len() {
        None
    } else if matches_at(s, pat, from) {
        Some(from)
    } else {
        find_from(s, pat, from + 1)
    }
}

/// The pieces of `s` from position `from` on, cut at each occurrence of
/// `pat`, the occurrences taken from the left and never overlapping.
pub open spec fn split_from(s: Seq<char>, pat: Seq<char>, from: int) -> Seq<Seq<char>>
    decreases s.len() + 1 - from,
{
    match find_from(s, pat, from) {
        Some(at) => if pat.len() > 0 && from <= at && at + pat.len() <= s.len() {
            seq![s.subrange(from, at)] + split_from(s, pat, at + pat.len())
        } else {
            seq![s.subrange(from, s.len() as int)]
        },
        None => seq![s.subrange(from, s.len() as int)],
    }
}

/// The pieces of `s` between the occurrences of `pat`.
pub open spec fn split(s: Seq<char>, pat: Seq<char>) -> Seq<Seq<char>> {
    split_from(s, pat, 0)
}

/// The parts put together with `sep` between each two neighbours.
pub open spec fn join(parts: Seq<Seq<char>>, sep: Seq<char>) -> Seq<char>
    decreases parts.len(),
{
    if parts.len() == 0 {
        Seq::empty()
    } else if parts.len() == 1 {
        parts[0]
    } else {
        parts[0] + sep + join(parts.drop_first(), sep)
    }
}

/// The characters with the Unicode property White_Space.
pub open spec fn is_whitespace(c: char) -> bool {
    let n = c as u32;
    ||| 0x09 <= n <= 0x0d
    ||| n == 0x20
    ||| n == 0x85
    ||| n == 0xa0
    ||| n == 0x1680
    ||| 0x2000 <= n <= 0x200a
    ||| n == 0x2028
    ||| n == 0x2029
    ||| n == 0x202f
    ||| n == 0x205f
    ||| n == 0x3000
}

/// The first position at or after `from` that holds no white space.
pub open spec fn skip_whitespace(s: Seq<char>, from: int) -> int
    decreases s.len() - from,
{
    if 0 <= from < s.len() && is_whitespace(s[from]) {
        skip_whitespace(s, from + 1)
    } else {
        from
    }
}

/// The end of the last stretch before `to` that ends in no white space.
pub open spec fn drop_whitespace(s: Seq<char>, to: int) -> int
    decreases to,
{
    if 0 < to <= s.len() && is_whitespace(s[to - 1]) {
        drop_whitespace(s, to - 1)
    } else {
        to
    }
}

/// `s` without the white space at its two ends.
pub open spec fn trim(s: Seq<char>) -> Seq<char> {
    let start = skip_whitespace(s, 0);
    let end = drop_whitespace(s, s.len() as int);
    if start < end {
        s.subrange(start, end)
    } else {
        Seq::empty()
    }
}

/// Whether `s` begins with `prefix`.
pub open spec fn starts_with(s: Seq<char>, prefix: Seq<char>) -> bool {
    prefix.len() <= s.len() && s.subrange(0, prefix.len() as int) == prefix
}

/// The characters of a string, one by one.
pub fn chars_of(s: &str) -> (out: Vec<char>)
    ensures
        out@ == s@,
{
    let mut out: Vec<char> = Vec::new();
    for c in it: s.chars()
        invariant
            out@ == it.seq().take(it.index() as int),
            it.seq() == s@,
    {
        out.push(c);
    }
    out
}

/// `String::from_iter` over the characters: the string that holds exactly
/// these characters in this order.
#[verifier::external_body]
pub(crate) fn string_of_chars(chars: &Vec<char>) -> (out: String)
    ensures
        out@ == chars@,
{
    String::from_iter(chars.iter())
}

/// Tests whether `pat` stands in `s` at position `at`.
pub fn has_at(s: &Vec<char>, pat: &Vec<char>, at: usize) -> (found: bool)
    ensures
        found == matches_at(s@, pat@, at as int),
{
    if pat.len() > s.len() || at > s.len() - pat.len() {
        return false;
    }
    let mut k: usize = 0;
    while k < pat.len()
        invariant
            k <= pat.len(),
            at + pat.len() <= s.len(),
            forall|j: int| 0 <= j < k ==> s@[at + j] == pat@[j],
        decreases pat.len() - k,
    {
        if s[at + k] != pat[k] {
            proof {
                assert(s@.subrange(at as int, at + pat.len())[k as int] == s@[at + k]);
            }
            return false;
        }
        k += 1;
    }
    proof {
        assert(s@.subrange(at as int, at + pat.len()) =~= pat@);
    }
    true
}

/// Finds the first occurrence of `pat` in `s` at or after `from`.
pub fn find(s: &Vec<char>, pat: &Vec<char>, from: usize) -> (found: Option<usize>)
    ensures
        found matches Some(at) ==> find_from(s@, pat@, from as int) == Some(at as int),
        found is None ==> find_from(s@, pat@, from as int) is None,
{
    if pat.len() > s.len() || from > s.len() - pat.len() {
        return None;
    }
    let last: usize = s.len() - pat.len();
    let mut at: usize = from;
    loop
        invariant
            from <= at <= last,
            last == s.len() - pat.len(),
            find_from(s@, pat@, from as int) == find_from(s@, pat@, at as int),
        decreases last - at,
    {
        if has_at(s, pat, at) {
            return Some(at);
        }
        if at == last {
            proof {
                assert(find_from(s@, pat@, at + 1) is None);
            }
            return None;
        }
        at += 1;
    }
}

/// A copy of the characters of `s` from `from` up to `to`.
pub fn slice_of(s: &Vec<char>, from: usize, to: usize) -> (out: Vec<char>)
    requires
        from <= to <= s.len(),
    ensures
        out@ == s@.subrange(from as int, to as int),
{
    let mut out: Vec<char> = Vec::new();
    let mut k: usize = from;
    while k < to
        invariant
            from <= k <= to <= s.len(),
            out@ == s@.subrange(from as int, k as int),
        decreases to - k,
    {
        out.push(s[k]);
        k += 1;
        proof {
            assert(out@ =~= s@.subrange(from as int, k as int));
        }
    }
    out
}

/// Cuts `s` at each occurrence of `pat`.
pub fn split_chars(s: &Vec<char>, pat: &Vec<char>) -> (parts: Vec<Vec<char>>)
    requires
        pat.len() > 0,
    ensures
        rows(parts@) == split(s@, pat@),
{
    let mut parts: Vec<Vec<char>> = Vec::new();
    let mut from: usize = 0;
    loop
        invariant
            pat.len() > 0,
            from <= s.len(),
            split(s@, pat@) == rows(parts@) + split_from(s@, pat@, from as int),
        decreases s.len() - from,
    {
        match find(s, pat, from) {
            Some(at) => {
                proof {
                    lemma_find_bounds(s@, pat@, from as int);
                }
                let piece = slice_of(s, from, at);
                let ghost before = rows(parts@);
                parts.push(piece);
                proof {
                    assert(rows(parts@) =~= before + seq![s@.subrange(from as int, at as int)]);
                }
                from = at + pat.len();
            },
            None => {
                let piece = slice_of(s, from, s.len());
                let ghost before = rows(parts@);
                parts.push(piece);
                proof {
                    assert(rows(parts@) =~= before + seq![
                        s@.subrange(from as int, s.len() as int),
                    ]);
                }
                return parts;
            },
        }
    }
}

/// A found position lies at or after the start and leaves room for the
/// pattern, which stands there; nothing matches before it.
pub proof fn lemma_find_bounds(s: Seq<char>, pat: Seq<char>, from: int)
    ensures
        find_from(s, pat, from) matches Some(at) ==> from <= at && matches_at(s, pat, at)
            && forall|k: int| from <= k < at ==> !#[trigger] matches_at(s, pat, k),
        find_from(s, pat, from) is None ==> forall|k: int|
            0 <= from <= k ==> !#[trigger] matches_at(s, pat, k),
    decreases s.len() + 1 - from,
{
    if from < 0 || from + pat.len() > s.len() {
    } else if matches_at(s, pat, from) {
    } else {
        lemma_find_bounds(s, pat, from + 1);
    }
}

/// Tests a character for the Unicode property White_Space.
pub fn char_is_whitespace(c: char) -> (white: bool)
    ensures
        white == is_whitespace(c),
{
    let n: u32 = c as u32;
    (0x09 <= n && n <= 0x0d) || n == 0x20 || n == 0x85 || n == 0xa0 || n == 0x1680 || (0x2000 <= n
        && n <= 0x200a) || n == 0x2028 || n == 0x2029 || n == 0x202f || n == 0x205f || n == 0x3000
}

/// Removes the white space at the two ends of `s`.
pub fn trim_chars(s: &Vec<char>) -> (out: Vec<char>)
    ensures
        out@ == trim(s@),
{
    let mut start: usize = 0;
    while start < s.len() && char_is_whitespace(s[start])
        invariant
            start <= s.len(),
            skip_whitespace(s@, 0) == skip_whitespace(s@, start as int),
        decreases s.len() - start,
    {
        start += 1;
    }
    let mut end: usize = s.len();
    while end > 0 && char_is_whitespace(s[end - 1])
        invariant
            end <= s.len(),
            drop_whitespace(s@, s.len() as int) == drop_whitespace(s@, end as int),
        decreases end,
    {
        end -= 1;
    }
    if start < end {
        slice_of(s, start, end)
    } else {
        Vec::new()
    }
}

/// Tests whether `s` begins with `prefix`.
pub fn begins_with(s: &Vec<char>, prefix: &Vec<char>) -> (found: bool)
    ensures
        found == starts_with(s@, prefix@),
{
    has_at(s, prefix, 0)
}

/// Tests two character sequences for equality.
pub fn same_chars(a: &Vec<char>, b: &Vec<char>) -> (same: bool)
    ensures
        same == (a@ == b@),
{
    if a.len() != b.len() {
        return false;
    }
    let found = has_at(a, b, 0);
    proof {
        assert(a@.subrange(0, a@.len() as int) =~= a@);
    }
    found
}


/// Joining one part more puts the separator and the part at the end.
pub proof fn lemma_join_push(parts: Seq<Seq<char>>, sep: Seq<char>, last: Seq<char>)
    ensures
        join(parts.push(last), sep) == if parts.len() == 0 {
            last
        } else {
            join(parts, sep) + sep + last
        },
    decreases parts.len(),
{
    let all = parts.push(last);
    if parts.len() == 0 {
    } else {
        assert(all.drop_first() =~= parts.drop_first().push(last));
        lemma_join_push(parts.drop_first(), sep, last);
        if parts.len() == 1 {
            assert(parts.drop_first().len() == 0);
            assert(join(all, sep) =~= join(parts, sep) + sep + last);
        } else {
            assert(join(all, sep) =~= join(parts, sep) + sep + last);
        }
    }
}

/// Puts the strings from position `from` on together, with `sep` between
/// each two neighbours.
pub fn join_strings(parts: &Vec<String>, from: usize, sep: &str) -> (out: String)
    requires
        from <= parts.len(),
    ensures
        out@ == join(texts(parts@).skip(from as int), sep@),
{
    let mut out = String::new();
    let mut i: usize = from;
    while i < parts.len()
        invariant
            from <= i <= parts.len(),
            out@ == join(texts(parts@).subrange(from as int, i as int), sep@),
        decreases parts.len() - i,
    {
        if i > from {
            out.append(sep);
        }
        out.append(parts[i].as_str());
        proof {
            let before = texts(parts@).subrange(from as int, i as int);
            lemma_join_push(before, sep@, parts@[i as int]@);
            assert(texts(parts@).subrange(from as int, i + 1) =~= before.push(parts@[i as int]@));
        }
        i += 1;
    }
    proof {
        assert(texts(parts@).subrange(from as int, parts.len() as int) =~= texts(parts@).skip(
            from as int,
        ));
    }
    out
}

} // verus!
