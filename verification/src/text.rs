//! The text model: substring containment and line splitting, both specified
//! over sequences of characters and implemented over borrowed string slices.

use vstd::prelude::*;

verus! {

// ---------------------------------------------------------------------------
// Substring containment
// ---------------------------------------------------------------------------
/// `needle` occurs in `hay` starting at index `i`.
pub open spec fn contains_at(hay: Seq<char>, needle: Seq<char>, i: int) -> bool {
    &&& 0 <= i
    &&& i + needle.len() <= hay.len()
    &&& hay.subrange(i, i + needle.len()) == needle
}

/// `needle` occurs contiguously somewhere in `hay`.
pub open spec fn contains_seq(hay: Seq<char>, needle: Seq<char>) -> bool {
    exists|i: int| contains_at(hay, needle, i)
}

/// The empty sequence is contained in every sequence.
pub proof fn lemma_empty_contained(hay: Seq<char>, needle: Seq<char>)
    requires
        needle.len() == 0,
    ensures
        contains_seq(hay, needle),
{
    assert(hay.subrange(0, 0) =~= needle);
    assert(contains_at(hay, needle, 0));
}

/// Whether `needle@` occurs in `hay@` starting at char index `i`.
fn matches_at(hay: &str, needle: &str, i: usize, n: usize) -> (r: bool)
    requires
        n == needle@.len(),
        i + n <= hay@.len(),
        hay@.len() <= usize::MAX,
    ensures
        r == contains_at(hay@, needle@, i as int),
{
    let mut j: usize = 0;
    while j < n
        invariant
            n == needle@.len(),
            i + n <= hay@.len(),
            hay@.len() <= usize::MAX,
            j <= n,
            forall|l: int| 0 <= l < j ==> hay@[i + l] == needle@[l],
        decreases n - j,
    {
        if hay.get_char(i + j) != needle.get_char(j) {
            proof {
                assert(!contains_at(hay@, needle@, i as int)) by {
                    if hay@.subrange(i as int, i + n) == needle@ {
                        assert(hay@.subrange(i as int, i + n)[j as int] == hay@[i + j]);
                    }
                }
            }
            return false;
        }
        j += 1;
    }
    proof {
        assert(hay@.subrange(i as int, i + n) =~= needle@);
    }
    true
}

/// Whether `needle@` occurs contiguously anywhere in `hay@`.
pub fn contains_str(hay: &str, needle: &str) -> (r: bool)
    ensures
        r == contains_seq(hay@, needle@),
{
    let h = hay.unicode_len();
    let n = needle.unicode_len();
    if n > h {
        proof {
            assert(forall|k: int| !contains_at(hay@, needle@, k));
        }
        return false;
    }
    if n == 0 {
        proof {
            lemma_empty_contained(hay@, needle@);
        }
        return true;
    }
    let last = h - n;
    let mut i: usize = 0;
    while i <= last
        invariant
            h == hay@.len(),
            n == needle@.len(),
            1 <= n <= h,
            last == h - n,
            i <= last + 1,
            forall|k: int| 0 <= k < i ==> !contains_at(hay@, needle@, k),
        decreases last - i + 1,
    {
        if matches_at(hay, needle, i, n) {
            return true;
        }
        i += 1;
    }
    proof {
        assert forall|k: int| !contains_at(hay@, needle@, k) by {
            if 0 <= k <= last {
                assert(!contains_at(hay@, needle@, k));
            }
        }
    }
    false
}

// ---------------------------------------------------------------------------
// Line splitting
// ---------------------------------------------------------------------------
/// Index of the first line feed in `s`, or `s.len()` if there is none.
pub open spec fn first_nl(s: Seq<char>) -> nat
    decreases s.len(),
{
    if s.len() == 0 {
        0
    } else if s[0] == '\n' {
        0
    } else {
        1 + first_nl(s.subrange(1, s.len() as int))
    }
}

/// A line with its trailing carriage return, if any, stripped.
pub open spec fn strip_cr(line: Seq<char>) -> Seq<char> {
    if line.len() > 0 && line.last() == '\r' {
        line.drop_last()
    } else {
        line
    }
}

/// The lines of `s`: the maximal runs of characters between line feeds, each
/// with a trailing carriage return stripped.  A final line need not be
/// terminated to count, and a final line feed does not open an empty line.
pub open spec fn lines_of(s: Seq<char>) -> Seq<Seq<char>>
    decreases s.len(),
{
    if s.len() == 0 {
        Seq::empty()
    } else {
        let i = first_nl(s) as int;
        if i < s.len() {
            seq![strip_cr(s.subrange(0, i))] + lines_of(s.subrange(i + 1, s.len() as int))
        } else {
            seq![strip_cr(s)]
        }
    }
}

/// Where no character of `s` is a line feed, `first_nl` is the length of `s`.
proof fn lemma_first_nl_none(s: Seq<char>)
    requires
        forall|j: int| 0 <= j < s.len() ==> s[j] != '\n',
    ensures
        first_nl(s) == s.len(),
    decreases s.len(),
{
    if s.len() > 0 {
        let tail = s.subrange(1, s.len() as int);
        assert(forall|j: int| 0 <= j < tail.len() ==> tail[j] == s[j + 1]);
        lemma_first_nl_none(tail);
    }
}

/// Where `s[k]` is the first line feed of `s`, `first_nl` is `k`.
proof fn lemma_first_nl_at(s: Seq<char>, k: int)
    requires
        0 <= k < s.len(),
        s[k] == '\n',
        forall|j: int| 0 <= j < k ==> s[j] != '\n',
    ensures
        first_nl(s) == k,
    decreases k,
{
    if k > 0 {
        let tail = s.subrange(1, s.len() as int);
        assert(forall|j: int| 0 <= j < tail.len() ==> tail[j] == s[j + 1]);
        lemma_first_nl_at(tail, k - 1);
    }
}

/// Splitting off the first line of the suffix of `s` that starts at `start`,
/// when the first line feed at or after `start` is at `i`.
proof fn lemma_lines_step(s: Seq<char>, start: int, i: int)
    requires
        0 <= start <= i < s.len(),
        s[i] == '\n',
        forall|j: int| start <= j < i ==> s[j] != '\n',
    ensures
        lines_of(s.subrange(start, s.len() as int)) == seq![strip_cr(s.subrange(start, i))]
            + lines_of(s.subrange(i + 1, s.len() as int)),
{
    let sub = s.subrange(start, s.len() as int);
    assert(forall|j: int| 0 <= j < sub.len() ==> sub[j] == s[start + j]);
    lemma_first_nl_at(sub, i - start);
    assert(sub.subrange(0, i - start) =~= s.subrange(start, i));
    assert(sub.subrange(i - start + 1, sub.len() as int) =~= s.subrange(i + 1, s.len() as int));
}

/// The suffix of `s` that starts at `start` and holds no line feed is one line.
proof fn lemma_lines_last(s: Seq<char>, start: int)
    requires
        0 <= start < s.len(),
        forall|j: int| start <= j < s.len() ==> s[j] != '\n',
    ensures
        lines_of(s.subrange(start, s.len() as int)) == seq![
            strip_cr(s.subrange(start, s.len() as int)),
        ],
{
    let sub = s.subrange(start, s.len() as int);
    assert(forall|j: int| 0 <= j < sub.len() ==> sub[j] == s[start + j]);
    lemma_first_nl_none(sub);
}

// ---------------------------------------------------------------------------
// Subsequences
// ---------------------------------------------------------------------------
/// `sub` can be obtained from `sup` by deleting elements without reordering.
pub open spec fn subsequence_of<A>(sub: Seq<A>, sup: Seq<A>) -> bool
    decreases sup.len(),
{
    if sub.len() == 0 {
        true
    } else if sup.len() == 0 {
        false
    } else {
        (sub.last() == sup.last() && subsequence_of(sub.drop_last(), sup.drop_last()))
            || subsequence_of(sub, sup.drop_last())
    }
}

/// A filtered sequence is a subsequence of the sequence it was filtered from.
pub proof fn lemma_filter_subsequence<A>(s: Seq<A>, pred: spec_fn(A) -> bool)
    ensures
        subsequence_of(s.filter(pred), s),
    decreases s.len(),
{
    reveal(Seq::filter);
    if s.len() > 0 {
        let rest = s.drop_last();
        lemma_filter_subsequence(rest, pred);
        if pred(s.last()) {
            assert(s.filter(pred) == rest.filter(pred).push(s.last()));
            assert(s.filter(pred).drop_last() =~= rest.filter(pred));
            assert(s.filter(pred).last() == s.last());
        } else {
            assert(s.filter(pred) == rest.filter(pred));
        }
    }
}

/// Filtering with a predicate that every element satisfies keeps the whole
/// sequence.
pub proof fn lemma_filter_all<A>(s: Seq<A>, pred: spec_fn(A) -> bool)
    requires
        forall|i: int| 0 <= i < s.len() ==> pred(s[i]),
    ensures
        s.filter(pred) == s,
    decreases s.len(),
{
    reveal(Seq::filter);
    if s.len() > 0 {
        let rest = s.drop_last();
        assert(forall|i: int| 0 <= i < rest.len() ==> rest[i] == s[i]);
        lemma_filter_all(rest, pred);
        assert(pred(s.last()));
        assert(rest.push(s.last()) =~= s);
    }
}

/// Splits `contents` into borrowed line views, one per line of `lines_of`.
pub fn split_lines<'a>(contents: &'a str) -> (r: Vec<&'a str>)
    ensures
        r.deep_view() == lines_of(contents@),
{
    let len = contents.unicode_len();
    let mut r: Vec<&'a str> = Vec::new();
    let mut start: usize = 0;
    let mut i: usize = 0;
    proof {
        assert(r.deep_view() =~= Seq::<Seq<char>>::empty());
        assert(contents@.subrange(0, len as int) =~= contents@);
    }
    while i < len
        invariant
            len == contents@.len(),
            start <= i <= len,
            forall|j: int| start <= j < i ==> contents@[j] != '\n',
            lines_of(contents@) == r.deep_view() + lines_of(
                contents@.subrange(start as int, len as int),
            ),
        decreases len - i,
    {
        let c = contents.get_char(i);
        if c == '\n' {
            let end: usize = if i > start && contents.get_char(i - 1) == '\r' {
                i - 1
            } else {
                i
            };
            let line = contents.substring_char(start, end);
            proof {
                lemma_lines_step(contents@, start as int, i as int);
                let raw = contents@.subrange(start as int, i as int);
                if i > start && contents@[i - 1] == '\r' {
                    assert(raw.last() == contents@[i - 1]);
                    assert(strip_cr(raw) =~= contents@.subrange(start as int, end as int));
                } else {
                    assert(strip_cr(raw) =~= contents@.subrange(start as int, end as int));
                }
            }
            let ghost pre = r.deep_view();
            let ghost rest = contents@.subrange(i + 1, len as int);
            r.push(line);
            proof {
                assert(r.deep_view() =~= pre.push(line@));
                assert(pre.push(line@) + lines_of(rest) =~= pre + (seq![line@] + lines_of(rest)));
            }
            start = i + 1;
        }
        i += 1;
    }
    if start < len {
        let end: usize = if contents.get_char(len - 1) == '\r' {
            len - 1
        } else {
            len
        };
        let line = contents.substring_char(start, end);
        proof {
            lemma_lines_last(contents@, start as int);
            let raw = contents@.subrange(start as int, len as int);
            if contents@[len - 1] == '\r' {
                assert(raw.last() == contents@[len - 1]);
                assert(strip_cr(raw) =~= contents@.subrange(start as int, end as int));
            } else {
                assert(strip_cr(raw) =~= contents@.subrange(start as int, end as int));
            }
        }
        let ghost pre = r.deep_view();
        r.push(line);
        proof {
            assert(r.deep_view() =~= pre.push(line@));
            assert(pre.push(line@) =~= pre + seq![line@]);
        }
    } else {
        proof {
            assert(contents@.subrange(start as int, len as int) =~= Seq::<char>::empty());
            assert(r.deep_view() + Seq::<Seq<char>>::empty() =~= r.deep_view());
        }
    }
    r
}

} // verus!
