//! The computing half of the declaration-rewriting pass: normalizing one
//! rendered `use` declaration's spacing, and finding the line of a file that
//! carries a given statement.  Reading and writing files around these stays
//! outside the library.

use vstd::prelude::*;

use vstd::string::StrSliceExecFns;

verus! {

/// The index of the first occurrence of `c` in `s` at or after `i`, or the
/// length of `s` where there is none.
pub open spec fn find_char(s: Seq<char>, c: char, i: int) -> int
    decreases s.len() - i,
{
    if i < 0 || i >= s.len() {
        s.len() as int
    } else if s[i] == c {
        i
    } else {
        find_char(s, c, i + 1)
    }
}

/// Where no occurrence lies in `[i, j)`, the search from `i` is the search
/// from `j`.
pub proof fn lemma_find_char_skip(s: Seq<char>, c: char, i: int, j: int)
    requires
        0 <= i <= j <= s.len(),
        forall|k: int| i <= k < j ==> s[k] != c,
    ensures
        find_char(s, c, i) == find_char(s, c, j),
    decreases j - i,
{
    if i < j {
        lemma_find_char_skip(s, c, i + 1, j);
    }
}

/// The search result is an occurrence, and nothing before it is one.
pub proof fn lemma_find_char_found(s: Seq<char>, c: char, i: int)
    requires
        0 <= i <= s.len(),
    ensures
        i <= find_char(s, c, i) <= s.len(),
        find_char(s, c, i) < s.len() ==> s[find_char(s, c, i)] == c,
        forall|k: int| i <= k < find_char(s, c, i) ==> s[k] != c,
    decreases s.len() - i,
{
    if i < s.len() && s[i] != c {
        lemma_find_char_found(s, c, i + 1);
    }
}

/// `s` without its occurrences of `c`, order kept.
pub open spec fn remove_char(s: Seq<char>, c: char) -> Seq<char>
    decreases s.len(),
{
    if s.len() == 0 {
        Seq::empty()
    } else if s.last() == c {
        remove_char(s.drop_last(), c)
    } else {
        remove_char(s.drop_last(), c).push(s.last())
    }
}

/// Finds the first occurrence of `c` in `s` at or after `start`, as an
/// index, or the length of `s` where there is none.
fn find_char_from(s: &str, c: char, start: usize) -> (r: usize)
    requires
        start <= s@.len(),
    ensures
        r == find_char(s@, c, start as int),
{
    let n = s.unicode_len();
    let mut i: usize = start;
    while i < n
        invariant
            start <= i <= n,
            n == s@.len(),
            forall|k: int| start <= k < i ==> s@[k] != c,
        decreases n - i,
    {
        if s.get_char(i) == c {
            proof {
                lemma_find_char_skip(s@, c, start as int, i as int);
            }
            return i;
        }
        i = i + 1;
    }
    proof {
        lemma_find_char_skip(s@, c, start as int, n as int);
    }
    n
}

/// Normalizes one rendered declaration's spacing: everything up to and
/// including the first space is kept, and every further space is removed —
/// `use a :: b ;` becomes `use a::b;`.  Nothing is returned where the text
/// has no space at all.
pub fn normalize_statement_text(original: &str) -> (r: Option<String>)
    ensures
        ({
            let k = find_char(original@, ' ', 0);
            match r {
                Some(t) => k < original@.len() && t@ == original@.take(k + 1) + remove_char(
                    original@.skip(k + 1),
                    ' ',
                ),
                None => k == original@.len(),
            }
        }),
{
    let n = original.unicode_len();
    let k = find_char_from(original, ' ', 0);
    proof {
        lemma_find_char_found(original@, ' ', 0);
    }
    if k >= n {
        return None;
    }
    let mut out: String = original.substring_char(0, k + 1).to_owned();
    proof {
        assert(original@.subrange(0, k + 1) =~= original@.take(k + 1));
        assert(original@.skip(k + 1).subrange(0, 0) =~= Seq::<char>::empty());
        assert(out@ =~= original@.take(k + 1) + remove_char(original@.skip(k + 1).subrange(0, 0), ' '));
    }
    let mut i: usize = k + 1;
    while i < n
        invariant
            k + 1 <= i <= n,
            n == original@.len(),
            k == find_char(original@, ' ', 0),
            out@ == original@.take(k + 1) + remove_char(
                original@.skip(k + 1).subrange(0, i - k - 1),
                ' ',
            ),
        decreases n - i,
    {
        let piece = original.substring_char(i, i + 1);
        proof {
            assert(piece@ =~= seq![original@[i as int]]);
        }
        let ghost prev_part = original@.skip(k + 1).subrange(0, i - k - 1);
        let ghost next_part = original@.skip(k + 1).subrange(0, i - k);
        proof {
            assert(next_part.drop_last() =~= prev_part);
            assert(next_part.last() == original@[i as int]);
        }
        if piece.get_char(0) != ' ' {
            out.append(piece);
            proof {
                assert(out@ =~= original@.take(k + 1) + remove_char(next_part, ' '));
            }
        } else {
            proof {
                assert(out@ =~= original@.take(k + 1) + remove_char(next_part, ' '));
            }
        }
        i = i + 1;
    }
    proof {
        assert(original@.skip(k + 1).subrange(0, n - k - 1) =~= original@.skip(k + 1));
    }
    Some(out)
}

/// Whether `needle` occurs in `hay` as a contiguous run of characters.
pub open spec fn is_substring(hay: Seq<char>, needle: Seq<char>) -> bool {
    exists|q: int|
        0 <= q && q + needle.len() <= hay.len() && #[trigger] hay.subrange(
            q,
            q + needle.len() as int,
        ) == needle
}

/// Decides whether `needle` occurs in `hay`.
pub fn contains_sub(hay: &str, needle: &str) -> (r: bool)
    ensures
        r == is_substring(hay@, needle@),
{
    let h = hay.unicode_len();
    let m = needle.unicode_len();
    if m > h {
        return false;
    }
    if m == 0 {
        proof {
            assert(hay@.subrange(0, 0 + needle@.len() as int) =~= needle@);
        }
        return true;
    }
    let mut q: usize = 0;
    while q <= h - m
        invariant
            1 <= m <= h,
            h == hay@.len(),
            m == needle@.len(),
            q <= h - m + 1,
            forall|p: int| 0 <= p < q ==> #[trigger] hay@.subrange(p, p + m) != needle@,
        decreases h - m - q + 1,
    {
        let mut j: usize = 0;
        let mut matches_here: bool = true;
        while j < m && matches_here
            invariant
                j <= m,
                q + m <= h,
                h == hay@.len(),
                m == needle@.len(),
                matches_here ==> forall|u: int| 0 <= u < j ==> hay@[q + u] == needle@[u],
                !matches_here ==> hay@.subrange(q as int, q + m) != needle@,
            decreases m - j + (if matches_here {
                1int
            } else {
                0int
            }),
        {
            if hay.get_char(q + j) != needle.get_char(j) {
                proof {
                    assert(hay@.subrange(q as int, q + m)[j as int] == hay@[q + j]);
                }
                matches_here = false;
            } else {
                j = j + 1;
            }
        }
        if matches_here {
            proof {
                assert(hay@.subrange(q as int, q + m) =~= needle@);
            }
            return true;
        }
        q = q + 1;
    }
    proof {
        assert forall|p: int| 0 <= p && p + needle@.len() <= hay@.len() implies #[trigger] hay@.subrange(
            p,
            p + needle@.len() as int,
        ) != needle@ by {
            assert(p < q);
        }
    }
    false
}

/// One line of `s` from position `i` on: its characters up to the next line
/// break, the carriage return before the break dropped, paired with the
/// position after the break.
pub open spec fn line_at(s: Seq<char>, i: int) -> (Seq<char>, int) {
    let k = find_char(s, '\n', i);
    let raw = s.subrange(i, k);
    let line = if raw.len() > 0 && raw.last() == '\r' {
        raw.drop_last()
    } else {
        raw
    };
    (line, k + 1)
}

/// The first line of `s` from position `i` on that carries `needle`, walking
/// the line breaks in order.
pub open spec fn first_line_with(s: Seq<char>, i: int, needle: Seq<char>) -> Option<Seq<char>>
    decreases s.len() - i,
{
    if i < 0 || i > s.len() {
        None
    } else {
        let (line, next) = line_at(s, i);
        if is_substring(line, needle) {
            Some(line)
        } else if next > s.len() || next <= i {
            None
        } else {
            first_line_with(s, next, needle)
        }
    }
}

/// The first line of `content` that carries `needle`, or nothing where no
/// line does.  A line runs to the next line break, with a carriage return
/// before the break dropped.
pub fn find_line_containing(content: &str, needle: &str) -> (r: Option<String>)
    ensures
        match r {
            Some(t) => first_line_with(content@, 0, needle@) == Some(t@),
            None => first_line_with(content@, 0, needle@) is None,
        },
{
    find_line_from(content, 0, needle)
}

/// The first line of `content` at or after position `i` that carries
/// `needle`.
fn find_line_from(content: &str, i: usize, needle: &str) -> (r: Option<String>)
    requires
        i <= content@.len(),
    ensures
        match r {
            Some(t) => first_line_with(content@, i as int, needle@) == Some(t@),
            None => first_line_with(content@, i as int, needle@) is None,
        },
    decreases content@.len() - i,
{
    let n = content.unicode_len();
    let raw_end = find_char_from(content, '\n', i);
    proof {
        lemma_find_char_found(content@, '\n', i as int);
    }
    let line_end: usize = if raw_end > i && content.get_char(raw_end - 1) == '\r' {
        raw_end - 1
    } else {
        raw_end
    };
    let line = content.substring_char(i, line_end);
    proof {
        let raw = content@.subrange(i as int, raw_end as int);
        assert(raw.len() == raw_end - i);
        if raw_end > i {
            assert(raw.last() == content@[raw_end - 1]);
        }
        if raw.len() > 0 && raw.last() == '\r' {
            assert(line_end == raw_end - 1);
            assert(raw.drop_last() =~= content@.subrange(i as int, line_end as int));
        } else {
            assert(line_end == raw_end);
            assert(raw =~= content@.subrange(i as int, line_end as int));
        }
        assert(line@ == line_at(content@, i as int).0);
        assert(line_at(content@, i as int).1 == raw_end + 1);
    }
    if contains_sub(line, needle) {
        return Some(line.to_owned());
    }
    if raw_end >= n {
        return None;
    }
    let tail = find_line_from(content, raw_end + 1, needle);
    proof {
        assert(first_line_with(content@, i as int, needle@) == first_line_with(
            content@,
            raw_end + 1,
            needle@,
        ));
    }
    tail
}

} // verus!
