//! Splitting file contents into lines.
//!
//! A line ends at a line feed or at a carriage return followed by a line
//! feed; the terminator is not part of the line. Text after the last line
//! terminator, if any, is a final line.

use vstd::prelude::*;

verus! {

/// Index of the first line feed in `s`, or `s.len()` if there is none.
pub open spec fn first_nl(s: Seq<char>) -> nat
    decreases s.len(),
{
    if s.len() == 0 {
        0
    } else if s[0] == '\n' {
        0
    } else {
        1 + first_nl(s.subrange(1, s.len() as int))
    }
}

/// A line as returned to the caller: a trailing carriage return left by a
/// `\r\n` terminator is stripped.
pub open spec fn strip_cr(l: Seq<char>) -> Seq<char> {
    if l.len() > 0 && l.last() == '\r' {
        l.drop_last()
    } else {
        l
    }
}

/// The lines of `s`, in order. Empty contents have no lines; a trailing
/// line feed does not open an extra empty final line.
pub open spec fn spec_lines(s: Seq<char>) -> Seq<Seq<char>>
    decreases s.len(),
{
    if s.len() == 0 {
        Seq::empty()
    } else {
        let i = first_nl(s) as int;
        if i < s.len() {
            seq![strip_cr(s.subrange(0, i))] + spec_lines(s.subrange(i + 1, s.len() as int))
        } else {
            seq![s]
        }
    }
}

/// `first_nl` points at the first line feed: nothing before it is a line
/// feed, and it is in bounds exactly when `s` holds a line feed at all.
pub proof fn lemma_first_nl(s: Seq<char>)
    ensures
        first_nl(s) <= s.len(),
        forall|k: int| 0 <= k < first_nl(s) ==> s[k] != '\n',
        first_nl(s) < s.len() ==> s[first_nl(s) as int] == '\n',
    decreases s.len(),
{
    if s.len() == 0 {
    } else if s[0] == '\n' {
    } else {
        let t = s.subrange(1, s.len() as int);
        lemma_first_nl(t);
        assert forall|k: int| 0 <= k < first_nl(s) implies s[k] != '\n' by {
            if k > 0 {
                assert(s[k] == t[k - 1]);
            }
        }
        if first_nl(s) < s.len() {
            assert(s[first_nl(s) as int] == t[first_nl(t) as int]);
        }
    }
}

/// `first_nl` is the only index with its properties: if nothing in `s`
/// before `i` is a line feed and `i` is either a line feed or the end,
/// then `first_nl(s) == i`.
pub proof fn lemma_first_nl_unique(s: Seq<char>, i: int)
    requires
        0 <= i <= s.len(),
        forall|k: int| 0 <= k < i ==> s[k] != '\n',
        i < s.len() ==> s[i] == '\n',
    ensures
        first_nl(s) == i,
{
    lemma_first_nl(s);
    if first_nl(s) < i {
        assert(s[first_nl(s) as int] == '\n');
    }
    if i < first_nl(s) {
        assert(s[i] != '\n');
    }
}

/// Splits `contents` into its lines, as `spec_lines` describes; each
/// returned slice borrows from `contents`.
pub fn split_lines<'a>(contents: &'a str) -> (r: Vec<&'a str>)
    ensures
        r.deep_view() == spec_lines(contents@),
{
    let n = contents.unicode_len();
    let mut r: Vec<&'a str> = Vec::new();
    let mut start: usize = 0;
    let mut i: usize = 0;
    proof {
        assert(r.deep_view() =~= Seq::<Seq<char>>::empty());
        assert(contents@.subrange(0, n as int) =~= contents@);
        assert(Seq::<Seq<char>>::empty() + spec_lines(contents@) =~= spec_lines(contents@));
    }
    while i < n
        invariant
            start <= i <= n,
            n == contents@.len(),
            forall|k: int| start <= k < i ==> contents@[k] != '\n',
            spec_lines(contents@) == r.deep_view() + spec_lines(
                contents@.subrange(start as int, n as int),
            ),
        decreases n - i,
    {
        let c = contents.get_char(i);
        if c == '\n' {
            let end = if i > start && contents.get_char(i - 1) == '\r' {
                i - 1
            } else {
                i
            };
            let line = contents.substring_char(start, end);
            let ghost pre = r.deep_view();
            proof {
                lemma_split_step(contents@, start as int, i as int, end as int);
            }
            r.push(line);
            proof {
                assert(r.deep_view() =~= pre + seq![line@]);
                assert(spec_lines(contents@) =~= r.deep_view() + spec_lines(
                    contents@.subrange(i + 1, n as int),
                ));
            }
            start = i + 1;
        }
        i = i + 1;
    }
    if start < n {
        let line = contents.substring_char(start, n);
        let ghost pre = r.deep_view();
        proof {
            let suffix = contents@.subrange(start as int, n as int);
            lemma_first_nl_unique(suffix, suffix.len() as int);
            assert(spec_lines(suffix) =~= seq![suffix]);
        }
        r.push(line);
        proof {
            assert(r.deep_view() =~= pre + seq![line@]);
            assert(spec_lines(contents@) == r.deep_view());
        }
    } else {
        proof {
            assert(contents@.subrange(start as int, n as int).len() == 0);
            assert(spec_lines(contents@) =~= r.deep_view());
        }
    }
    r
}

/// One unfolding of `spec_lines` at a line feed: if the first line feed of
/// the suffix of `s` that starts at `start` stands at `i`, the lines of
/// that suffix are the line `[start, end)` followed by the lines of the
/// suffix that starts at `i + 1`.
proof fn lemma_split_step(s: Seq<char>, start: int, i: int, end: int)
    requires
        0 <= start <= i < s.len(),
        s[i] == '\n',
        forall|k: int| start <= k < i ==> s[k] != '\n',
        end == if i > start && s[i - 1] == '\r' {
            i - 1
        } else {
            i
        },
    ensures
        spec_lines(s.subrange(start, s.len() as int)) == seq![s.subrange(start, end)]
            + spec_lines(s.subrange(i + 1, s.len() as int)),
{
    let n = s.len() as int;
    let suffix = s.subrange(start, n);
    assert forall|k: int| 0 <= k < i - start implies suffix[k] != '\n' by {
        assert(suffix[k] == s[start + k]);
    }
    lemma_first_nl_unique(suffix, i - start);
    let chunk = suffix.subrange(0, i - start);
    assert(chunk =~= s.subrange(start, i));
    assert(suffix.subrange(i - start + 1, suffix.len() as int) =~= s.subrange(i + 1, n));
    if i > start && s[i - 1] == '\r' {
        assert(chunk.len() > 0 && chunk.last() == '\r');
        assert(strip_cr(chunk) =~= s.subrange(start, end));
    } else {
        assert(strip_cr(chunk) =~= s.subrange(start, end));
    }
}

} // verus!
