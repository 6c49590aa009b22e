//! Searching the lines of a text for a query string, case-sensitively or
//! case-insensitively, plus the argument handling of the little search
//! program built on it.

use vstd::prelude::*;

verus! {

/// The index of the first line break in `s`, or `s.len()` if there is
/// none.
pub open spec fn first_break(s: Seq<char>) -> nat
    decreases s.len(),
{
    if s.len() == 0 {
        0
    } else if s[0] == '\n' {
        0
    } else {
        1 + first_break(s.subrange(1, s.len() as int))
    }
}

/// A line with a trailing carriage return removed, as line splitting
/// does.
pub open spec fn strip_cr(l: Seq<char>) -> Seq<char> {
    if l.len() > 0 && l[l.len() - 1] == '\r' {
        l.subrange(0, l.len() - 1)
    } else {
        l
    }
}

/// The lines of `s`: split at every line break, with the break itself
/// and a carriage return right before it dropped, and no empty final
/// line after a trailing break.  A carriage return at the very end of
/// the text, with no break after it, stays.
pub open spec fn lines_of(s: Seq<char>) -> Seq<Seq<char>>
    decreases s.len(),
{
    if s.len() == 0 {
        Seq::empty()
    } else {
        let fb = first_break(s) as int;
        if fb >= s.len() {
            seq![s]
        } else {
            seq![strip_cr(s.subrange(0, fb))] + lines_of(s.subrange(fb + 1, s.len() as int))
        }
    }
}

/// `needle` occurs contiguously in `hay`.
pub open spec fn contains_seq(hay: Seq<char>, needle: Seq<char>) -> bool {
    exists|i: int|
        0 <= i && i + needle.len() <= hay.len() && #[trigger] hay.subrange(
            i,
            i + needle.len() as int,
        ) == needle
}

/// What a case-insensitive search keeps: the lowercase image of the line
/// contains the lowercase image of the query.
pub open spec fn matches_folded(line: Seq<char>, query: Seq<char>) -> bool {
    contains_seq(lower_of(line), lower_of(query))
}

/// The lines of `file` that contain `query`.
pub open spec fn spec_search(file: Seq<char>, query: Seq<char>) -> Seq<Seq<char>> {
    lines_of(file).filter(|l: Seq<char>| contains_seq(l, query))
}

/// The lines of `file` that contain `query` up to case folding.  The
/// kept lines are returned as they stand in `file`, not folded.
pub open spec fn spec_search_ci(file: Seq<char>, query: Seq<char>) -> Seq<Seq<char>> {
    lines_of(file).filter(|l: Seq<char>| matches_folded(l, query))
}

pub uninterp spec fn lower_of(s: Seq<char>) -> Seq<char>;

/// Relies on str::to_lowercase: the lowercase image of a string is a
/// function of its characters alone.
#[verifier::external_body]
fn lowercase(s: &str) -> (r: String)
    ensures
        r@ == lower_of(s@),
{
    s.to_lowercase()
}

proof fn lemma_first_break_is(s: Seq<char>, j: int)
    requires
        0 <= j <= s.len(),
        forall|t: int| 0 <= t < j ==> s[t] != '\n',
        j < s.len() ==> s[j] == '\n',
    ensures
        first_break(s) == j,
    decreases s.len(),
{
    if s.len() == 0 {
    } else if j == 0 {
    } else {
        let tail = s.subrange(1, s.len() as int);
        assert forall|t: int| 0 <= t < j - 1 implies tail[t] != '\n' by {
            assert(tail[t] == s[t + 1]);
        }
        assert(j - 1 < tail.len() ==> tail[j - 1] == s[j]);
        lemma_first_break_is(tail, j - 1);
    }
}

/// Checks whether `needle` matches `hay` starting at character `i`.
fn matches_at(hay: &str, i: usize, needle: &str) -> (r: bool)
    requires
        i + needle@.len() <= hay@.len(),
    ensures
        r == (hay@.subrange(i as int, i + needle@.len()) == needle@),
{
    let hlen = hay.unicode_len();
    let nlen = needle.unicode_len();
    for j in 0..nlen
        invariant
            hlen == hay@.len(),
            i + nlen <= hlen,
            nlen == needle@.len(),
            forall|t: int| 0 <= t < j ==> hay@[i + t] == needle@[t],
    {
        if hay.get_char(i + j) != needle.get_char(j) {
            proof {
                assert(hay@.subrange(i as int, i + needle@.len())[j as int] == hay@[i + j]);
            }
            return false;
        }
    }
    proof {
        assert(hay@.subrange(i as int, i + needle@.len()) =~= needle@);
    }
    true
}

/// Whether `hay` contains `needle` as a contiguous run of characters.
fn contains_str(hay: &str, needle: &str) -> (r: bool)
    ensures
        r == contains_seq(hay@, needle@),
{
    let hlen = hay.unicode_len();
    let nlen = needle.unicode_len();
    if nlen > hlen {
        proof {
            assert(!contains_seq(hay@, needle@));
        }
        return false;
    }
    if nlen == 0 {
        proof {
            assert(hay@.subrange(0, 0 + needle@.len() as int) =~= needle@);
            assert(contains_seq(hay@, needle@));
        }
        return true;
    }
    let last = hlen - nlen;
    for i in 0..last + 1
        invariant
            hlen == hay@.len(),
            nlen == needle@.len(),
            last == hlen - nlen,
            forall|t: int|
                0 <= t < i ==> #[trigger] hay@.subrange(t, t + needle@.len() as int) != needle@,
    {
        if matches_at(hay, i, needle) {
            return true;
        }
    }
    false
}

/// The lines of `file` that contain `query`, in order.
pub fn search(file: &str, query: &str) -> (r: Vec<String>)
    ensures
        r@.map_values(|l: String| l@) == spec_search(file@, query@),
{
    let n = file.unicode_len();
    let mut res: Vec<String> = Vec::new();
    let mut pos: usize = 0;
    let ghost pred = |l: Seq<char>| contains_seq(l, query@);
    let ghost mut done: Seq<Seq<char>> = Seq::empty();
    proof {
        assert(file@.subrange(0, n as int) =~= file@);
        assert(lines_of(file@) =~= done + lines_of(file@.subrange(pos as int, n as int)));
    }
    while pos < n
        invariant
            n == file@.len(),
            0 <= pos <= n,
            lines_of(file@) == done + lines_of(file@.subrange(pos as int, n as int)),
            res@.map_values(|l: String| l@) == done.filter(pred),
            pred == (|l: Seq<char>| contains_seq(l, query@)),
        decreases n - pos,
    {
        let mut j = pos;
        while j < n && file.get_char(j) != '\n'
            invariant
                n == file@.len(),
                pos <= j <= n,
                forall|t: int| pos <= t < j ==> file@[t] != '\n',
            decreases n - j,
        {
            j = j + 1;
        }
        let end = if j < n && j > pos && file.get_char(j - 1) == '\r' {
            j - 1
        } else {
            j
        };
        let line = file.substring_char(pos, end);
        let ghost rest = file@.subrange(pos as int, n as int);
        let ghost raw = file@.subrange(pos as int, j as int);
        proof {
            assert forall|t: int| 0 <= t < j - pos implies rest[t] != '\n' by {
                assert(rest[t] == file@[pos + t]);
            }
            assert(j < n ==> rest[j - pos] == file@[j as int]);
            lemma_first_break_is(rest, j - pos);
            assert(raw =~= rest.subrange(0, j - pos));
            if j < n {
                assert(line@ =~= strip_cr(raw));
            } else {
                assert(line@ =~= raw);
            }
        }
        let keep = contains_str(line, query);
        if keep {
            res.push(line.to_owned());
        }
        proof {
            let prev_done = done;
            let ghost this_line = if j < n {
                strip_cr(raw)
            } else {
                raw
            };
            done = done.push(this_line);
            reveal(Seq::filter);
            assert(done.drop_last() =~= prev_done);
            assert(done.last() == this_line);
            if keep {
                assert(done.filter(pred) =~= prev_done.filter(pred).push(this_line));
                assert(res@.map_values(|l: String| l@) =~= done.filter(pred));
            } else {
                assert(done.filter(pred) =~= prev_done.filter(pred));
            }
            if j < n {
                assert(lines_of(rest) == seq![strip_cr(rest.subrange(0, j - pos))] + lines_of(
                    rest.subrange(j - pos + 1, rest.len() as int),
                ));
                assert(rest.subrange(j - pos + 1, rest.len() as int) =~= file@.subrange(
                    j + 1,
                    n as int,
                ));
                assert(lines_of(file@) =~= done + lines_of(file@.subrange(j + 1, n as int)));
            } else {
                assert(lines_of(rest) == seq![rest]);
                assert(rest =~= raw);
                assert(file@.subrange(n as int, n as int) =~= Seq::<char>::empty());
                assert(lines_of(file@) =~= done + lines_of(file@.subrange(j as int, n as int)));
            }
        }
        pos = if j < n {
            j + 1
        } else {
            j
        };
    }
    proof {
        assert(file@.subrange(pos as int, n as int) =~= Seq::<char>::empty());
        assert(lines_of(file@) =~= done);
    }
    res
}

/// The lines of `file` that contain `query` up to case folding, in
/// order; the kept lines are returned as they stand in `file`.
pub fn search_case_insensitive(file: &str, query: &str) -> (r: Vec<String>)
    ensures
        r@.map_values(|l: String| l@) == spec_search_ci(file@, query@),
{
    let folded_query = lowercase(query);
    let n = file.unicode_len();
    let mut res: Vec<String> = Vec::new();
    let mut pos: usize = 0;
    let ghost pred = |l: Seq<char>| matches_folded(l, query@);
    let ghost mut done: Seq<Seq<char>> = Seq::empty();
    proof {
        assert(file@.subrange(0, n as int) =~= file@);
        assert(lines_of(file@) =~= done + lines_of(file@.subrange(pos as int, n as int)));
    }
    while pos < n
        invariant
            n == file@.len(),
            0 <= pos <= n,
            folded_query@ == lower_of(query@),
            lines_of(file@) == done + lines_of(file@.subrange(pos as int, n as int)),
            res@.map_values(|l: String| l@) == done.filter(pred),
            pred == (|l: Seq<char>| matches_folded(l, query@)),
        decreases n - pos,
    {
        let mut j = pos;
        while j < n && file.get_char(j) != '\n'
            invariant
                n == file@.len(),
                pos <= j <= n,
                forall|t: int| pos <= t < j ==> file@[t] != '\n',
            decreases n - j,
        {
            j = j + 1;
        }
        let end = if j < n && j > pos && file.get_char(j - 1) == '\r' {
            j - 1
        } else {
            j
        };
        let line = file.substring_char(pos, end);
        let ghost rest = file@.subrange(pos as int, n as int);
        let ghost raw = file@.subrange(pos as int, j as int);
        proof {
            assert forall|t: int| 0 <= t < j - pos implies rest[t] != '\n' by {
                assert(rest[t] == file@[pos + t]);
            }
            assert(j < n ==> rest[j - pos] == file@[j as int]);
            lemma_first_break_is(rest, j - pos);
            assert(raw =~= rest.subrange(0, j - pos));
            if j < n {
                assert(line@ =~= strip_cr(raw));
            } else {
                assert(line@ =~= raw);
            }
        }
        let folded_line = lowercase(line);
        let keep = contains_str(folded_line.as_str(), folded_query.as_str());
        if keep {
            res.push(line.to_owned());
        }
        proof {
            let prev_done = done;
            let ghost this_line = if j < n {
                strip_cr(raw)
            } else {
                raw
            };
            done = done.push(this_line);
            reveal(Seq::filter);
            assert(done.drop_last() =~= prev_done);
            assert(done.last() == this_line);
            if keep {
                assert(done.filter(pred) =~= prev_done.filter(pred).push(this_line));
                assert(res@.map_values(|l: String| l@) =~= done.filter(pred));
            } else {
                assert(done.filter(pred) =~= prev_done.filter(pred));
            }
            if j < n {
                assert(lines_of(rest) == seq![strip_cr(rest.subrange(0, j - pos))] + lines_of(
                    rest.subrange(j - pos + 1, rest.len() as int),
                ));
                assert(rest.subrange(j - pos + 1, rest.len() as int) =~= file@.subrange(
                    j + 1,
                    n as int,
                ));
                assert(lines_of(file@) =~= done + lines_of(file@.subrange(j + 1, n as int)));
            } else {
                assert(lines_of(rest) == seq![rest]);
                assert(rest =~= raw);
                assert(file@.subrange(n as int, n as int) =~= Seq::<char>::empty());
                assert(lines_of(file@) =~= done + lines_of(file@.subrange(j as int, n as int)));
            }
        }
        pos = if j < n {
            j + 1
        } else {
            j
        };
    }
    proof {
        assert(file@.subrange(pos as int, n as int) =~= Seq::<char>::empty());
        assert(lines_of(file@) =~= done);
    }
    res
}

/// The configuration of the little search program: which file to read,
/// what to look for, and whether case matters.
#[allow(non_snake_case)]
pub struct Finder {
    pub query: String,
    pub file: String,
    pub isSensitive: bool,
}

impl Finder {
    /// Builds the configuration from the argument list (the program name
    /// first, then the file, then the query) and the case-sensitivity
    /// switch.  Fails with "no file" when no argument follows the program
    /// name and with "no query" when only one does.
    #[allow(non_snake_case)]
    pub fn new(args: &Vec<String>, isSensitive: bool) -> (r: Result<Finder, String>)
        ensures
            (r is Ok) <==> args@.len() >= 3,
            r is Ok ==> r->Ok_0.file@ == args@[1]@ && r->Ok_0.query@ == args@[2]@
                && r->Ok_0.isSensitive == isSensitive,
            args@.len() < 2 ==> r is Err && r->Err_0@ == "no file"@,
            args@.len() == 2 ==> r is Err && r->Err_0@ == "no query"@,
    {
        if args.len() < 2 {
            return Err("no file".to_owned());
        }
        if args.len() < 3 {
            return Err("no query".to_owned());
        }
        let file = args[1].clone();
        let query = args[2].clone();
        Ok(Finder { query, file, isSensitive })
    }
}

} // verus!
