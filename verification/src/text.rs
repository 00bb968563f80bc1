use vstd::prelude::*;

verus! {

/// The first index `k >= j` of `s` that holds a newline.
pub open spec fn newline_from(s: Seq<char>, j: int) -> Option<int>
    decreases s.len() - j,
{
    if j < 0 || j >= s.len() {
        None
    } else if s[j] == '\n' {
        Some(j)
    } else {
        newline_from(s, j + 1)
    }
}

pub proof fn lemma_newline_bounds(s: Seq<char>, j: int)
    requires
        0 <= j,
    ensures
        newline_from(s, j) matches Some(k) ==> j <= k < s.len() && s[k] == '\n',
    decreases s.len() - j,
{
    if j < s.len() && s[j] != '\n' {
        lemma_newline_bounds(s, j + 1);
    }
}

/// A line without the carriage return that ended it, if any.
pub open spec fn strip_cr(line: Seq<char>) -> Seq<char> {
    if line.len() > 0 && line.last() == '\r' {
        line.drop_last()
    } else {
        line
    }
}

/// The lines of a text: the pieces between newlines, each without a carriage
/// return that came right before its newline; a last newline does not start
/// another line, and an empty text has no lines.
pub open spec fn text_lines(s: Seq<char>) -> Seq<Seq<char>>
    decreases s.len(),
{
    if s.len() == 0 {
        Seq::empty()
    } else {
        match newline_from(s, 0) {
            None => seq![s],
            Some(k) => {
                proof {
                    lemma_newline_bounds(s, 0);
                }
                seq![strip_cr(s.take(k))] + text_lines(s.skip(k + 1))
            },
        }
    }
}

pub open spec fn no_newline(s: Seq<char>) -> bool {
    forall|i: int| 0 <= i < s.len() ==> s[i] != '\n'
}

proof fn lemma_newline_skips(s: Seq<char>, j: int, m: int)
    requires
        0 <= j <= m <= s.len(),
        forall|i: int| j <= i < m ==> s[i] != '\n',
    ensures
        newline_from(s, j) == newline_from(s, m),
    decreases m - j,
{
    if j < m {
        lemma_newline_skips(s, j + 1, m);
    }
}

/// A newline right after a piece without newlines ends that piece's line.
proof fn lemma_lines_break(cur: Seq<char>, rest: Seq<char>)
    requires
        no_newline(cur),
        rest.len() > 0,
        rest[0] == '\n',
    ensures
        text_lines(cur + rest) == seq![strip_cr(cur)] + text_lines(rest.skip(1)),
{
    let s = cur + rest;
    lemma_newline_skips(s, 0, cur.len() as int);
    assert(s.take(cur.len() as int) =~= cur);
    assert(s.skip(cur.len() as int + 1) =~= rest.skip(1));
}

/// A piece without newlines is one line, unless it is empty.
proof fn lemma_lines_last(cur: Seq<char>)
    requires
        no_newline(cur),
    ensures
        text_lines(cur) == (if cur.len() == 0 {
            Seq::<Seq<char>>::empty()
        } else {
            seq![cur]
        }),
{
    lemma_newline_skips(cur, 0, cur.len() as int);
}

pub open spec fn line_views(lines: Seq<Vec<char>>) -> Seq<Seq<char>> {
    lines.map_values(|l: Vec<char>| l@)
}

/// Splits a text into its lines, as `text_lines` says.
pub fn split_lines(text: &str) -> (r: Vec<Vec<char>>)
    ensures
        line_views(r@) == text_lines(text@),
{
    let mut done: Vec<Vec<char>> = Vec::new();
    let mut cur: Vec<char> = Vec::new();
    assert(line_views(done@) =~= Seq::<Seq<char>>::empty());
    assert(cur@ + text@.skip(0) =~= text@);
    for ch in it: text.chars()
        invariant
            it.seq() == text@,
            no_newline(cur@),
            text_lines(text@) == line_views(done@) + text_lines(cur@ + text@.skip(it.index() as int)),
    {
        let ghost rest = text@.skip(it.index() as int);
        let ghost old_done = done@;
        let ghost old_cur = cur@;
        assert(rest[0] == ch);
        if ch == '\n' {
            proof {
                lemma_lines_break(cur@, rest);
                assert(rest.skip(1) =~= text@.skip(it.index() + 1));
            }
            let n = cur.len();
            if n > 0 && cur[n - 1] == '\r' {
                cur.pop();
            }
            done.push(cur);
            cur = Vec::new();
            proof {
                assert(line_views(done@) =~= line_views(old_done) + seq![strip_cr(old_cur)]);
                assert(cur@ + text@.skip(it.index() + 1) =~= text@.skip(it.index() + 1));
                assert(line_views(old_done) + (seq![strip_cr(old_cur)] + text_lines(
                    text@.skip(it.index() + 1),
                )) =~= line_views(done@) + text_lines(text@.skip(it.index() + 1)));
            }
        } else {
            cur.push(ch);
            assert(cur@ + text@.skip(it.index() + 1) =~= old_cur + rest);
        }
    }
    assert(cur@ + text@.skip(text@.len() as int) =~= cur@);
    proof {
        lemma_lines_last(cur@);
    }
    if cur.len() > 0 {
        let ghost old_done = done@;
        done.push(cur);
        assert(line_views(done@) =~= line_views(old_done) + seq![cur@]);
    } else {
        assert(line_views(done@) + Seq::<Seq<char>>::empty() =~= line_views(done@));
    }
    done
}

} // verus!

verus! {

/// Lines written back, each followed by a newline.
pub open spec fn joined(lines: Seq<Seq<char>>) -> Seq<char>
    decreases lines.len(),
{
    if lines.len() == 0 {
        Seq::empty()
    } else {
        lines[0] + seq!['\n'] + joined(lines.skip(1))
    }
}

proof fn lemma_newline_found(s: Seq<char>, j: int, m: int)
    requires
        0 <= j <= m < s.len(),
        s[m] == '\n',
    ensures
        newline_from(s, j) is Some,
    decreases m - j,
{
    if s[j] != '\n' {
        lemma_newline_found(s, j + 1, m);
    }
}

/// No line holds a newline; and a text without carriage returns that is empty
/// or ends with a newline is its lines written back, each followed by a
/// newline.
pub proof fn lemma_lines_rejoin(s: Seq<char>)
    ensures
        forall|i: int| 0 <= i < text_lines(s).len() ==> no_newline(#[trigger] text_lines(s)[i]),
        (forall|i: int| 0 <= i < s.len() ==> s[i] != '\r') && (s.len() == 0 || s.last() == '\n')
            ==> joined(text_lines(s)) == s,
    decreases s.len(),
{
    if s.len() > 0 {
        lemma_newline_bounds(s, 0);
        match newline_from(s, 0) {
            None => {
                if s.last() == '\n' {
                    lemma_newline_found(s, 0, s.len() - 1);
                }
                assert forall|i: int| 0 <= i < s.len() implies s[i] != '\n' by {
                    if s[i] == '\n' {
                        lemma_newline_found(s, 0, i);
                    }
                }
            },
            Some(k) => {
                let rest = s.skip(k + 1);
                lemma_lines_rejoin(rest);
                let first = strip_cr(s.take(k));
                assert forall|i: int| 0 <= i < k implies s[i] != '\n' by {
                    if s[i] == '\n' {
                        lemma_first_newline(s, 0, i);
                    }
                }
                assert(text_lines(s) == seq![first] + text_lines(rest));
                assert forall|i: int| 0 <= i < text_lines(s).len() implies no_newline(
                    #[trigger] text_lines(s)[i],
                ) by {
                    if i > 0 {
                        assert(text_lines(s)[i] == text_lines(rest)[i - 1]);
                    }
                }
                if (forall|i: int| 0 <= i < s.len() ==> s[i] != '\r') && s.last() == '\n' {
                    assert forall|i: int| 0 <= i < rest.len() implies rest[i] != '\r' by {
                        assert(rest[i] == s[i + k + 1]);
                    }
                    if rest.len() > 0 {
                        assert(rest.last() == s.last());
                    }
                    if k > 0 {
                        assert(s.take(k).last() == s[k - 1]);
                    }
                    assert(first == s.take(k));
                    assert((seq![first] + text_lines(rest)).skip(1) =~= text_lines(rest));
                    assert(joined(text_lines(s)) == first + seq!['\n'] + joined(text_lines(rest)));
                    assert(s =~= s.take(k) + seq!['\n'] + rest);
                }
            },
        }
    }
}

/// The newline that `newline_from` finds is the first one.
proof fn lemma_first_newline(s: Seq<char>, j: int, i: int)
    requires
        0 <= j <= i < s.len(),
        s[i] == '\n',
    ensures
        newline_from(s, j) matches Some(k) && k <= i,
    decreases i - j,
{
    if s[j] != '\n' {
        lemma_first_newline(s, j + 1, i);
    }
}

} // verus!
