//! Splitting text into lines, counting them, and rendering them numbered.
use vstd::prelude::*;
use vstd::string::*;
use crate::text::{decimal, push_char, push_decimal};

verus! {

broadcast use vstd::string::group_string_axioms;

/// A line without the carriage return that may stand before its newline.
pub open spec fn strip_cr(l: Seq<char>) -> Seq<char> {
    if l.len() > 0 && l.last() == '\r' {
        l.drop_last()
    } else {
        l
    }
}

/// Scanning `s` from the start: the lines that a newline has ended so far,
/// and the characters after the last newline.
pub open spec fn scan(s: Seq<char>) -> (Seq<Seq<char>>, Seq<char>)
    decreases s.len(),
{
    if s.len() == 0 {
        (seq![], seq![])
    } else {
        let (done, rest) = scan(s.drop_last());
        if s.last() == '\n' {
            (done.push(strip_cr(rest)), seq![])
        } else {
            (done, rest.push(s.last()))
        }
    }
}

/// The lines of `s`: split at each `\n` (a `\r` right before it belongs to
/// the line ending), where a final line ending adds no empty line.
pub open spec fn lines_of(s: Seq<char>) -> Seq<Seq<char>> {
    let (done, rest) = scan(s);
    if rest.len() == 0 {
        done
    } else {
        done.push(rest)
    }
}

/// The number of newline characters in `s`.
pub open spec fn newlines(s: Seq<char>) -> nat
    decreases s.len(),
{
    if s.len() == 0 {
        0
    } else {
        newlines(s.drop_last()) + if s.last() == '\n' { 1nat } else { 0nat }
    }
}

/// The number of segments of `s` that a newline ends, plus one for a
/// non-empty final segment that none ends.
pub open spec fn segment_count(s: Seq<char>) -> nat {
    newlines(s) + if s.len() > 0 && s.last() != '\n' { 1nat } else { 0nat }
}

proof fn lemma_newlines_bound(s: Seq<char>)
    ensures
        newlines(s) <= s.len(),
        s.len() > 0 && s.last() != '\n' ==> newlines(s) < s.len(),
    decreases s.len(),
{
    if s.len() > 0 {
        lemma_newlines_bound(s.drop_last());
    }
}

proof fn lemma_scan_shape(s: Seq<char>)
    ensures
        scan(s).0.len() == newlines(s),
        scan(s).1.len() == 0 <==> (s.len() == 0 || s.last() == '\n'),
    decreases s.len(),
{
    if s.len() > 0 {
        lemma_scan_shape(s.drop_last());
    }
}

/// The lines of a text are as many as its segments: each one that a newline
/// ends, and a non-empty last one without a newline; empty text has none.
pub proof fn lemma_line_count(s: Seq<char>)
    ensures
        lines_of(s).len() == segment_count(s),
        s.len() == 0 ==> lines_of(s).len() == 0,
{
    lemma_scan_shape(s);
}

/// The number of lines in `contents`.
pub fn count(contents: &str) -> (r: usize)
    ensures
        r == lines_of(contents@).len(),
        r == segment_count(contents@),
{
    let len: usize = contents.unicode_len();
    let mut n: usize = 0;
    let mut last_is_newline: bool = false;
    let mut any: bool = false;
    for c in it: contents.chars()
        invariant
            it.seq() == contents@,
            it.index() <= contents@.len(),
            contents@.len() == len,
            n == newlines(contents@.take(it.index() as int)),
            n <= it.index(),
            any == (it.index() > 0),
            any ==> last_is_newline == (contents@[it.index() - 1] == '\n'),
    {
        let ghost k = it.index();
        assert(contents@.take(k + 1).drop_last() =~= contents@.take(k));
        if c == '\n' {
            n = n + 1;
        }
        last_is_newline = c == '\n';
        any = true;
    }
    assert(contents@.take(contents@.len() as int) =~= contents@);
    proof {
        lemma_line_count(contents@);
    }
    if any && !last_is_newline {
        assert(n < len) by {
            lemma_newlines_bound(contents@);
        }
        n + 1
    } else {
        n
    }
}

/// Line `i` (counted from 1) rendered with its number: `"{i}. {line}"`.
pub open spec fn numbered_line(i: nat, line: Seq<char>) -> Seq<char> {
    decimal(i) + seq!['.', ' '] + line
}

/// Each line rendered with its number, counted from 1.
pub open spec fn numbered(lines: Seq<Seq<char>>) -> Seq<Seq<char>> {
    Seq::new(lines.len(), |k: int| numbered_line((k + 1) as nat, lines[k]))
}

/// The pieces joined by single newlines, with none before the first or after
/// the last.
pub open spec fn join_lines(pieces: Seq<Seq<char>>) -> Seq<char>
    decreases pieces.len(),
{
    if pieces.len() == 0 {
        seq![]
    } else if pieces.len() == 1 {
        pieces[0]
    } else {
        join_lines(pieces.drop_last()) + seq!['\n'] + pieces.last()
    }
}

/// The numbered rendition of the lines of `s`.
pub open spec fn enumerated(s: Seq<char>) -> Seq<char> {
    join_lines(numbered(lines_of(s)))
}

/// The lines of `contents`, in order.
pub fn split_lines(contents: &str) -> (r: Vec<String>)
    ensures
        r.deep_view() == lines_of(contents@),
{
    let mut done: Vec<String> = Vec::new();
    let mut cur: String = String::new();
    let mut held_cr: bool = false;
    for c in it: contents.chars()
        invariant
            it.seq() == contents@,
            it.index() <= contents@.len(),
            done.deep_view() == scan(contents@.take(it.index() as int)).0,
            held_cr == (scan(contents@.take(it.index() as int)).1.len() > 0
                && scan(contents@.take(it.index() as int)).1.last() == '\r'),
            cur@ == strip_cr(scan(contents@.take(it.index() as int)).1),
    {
        let ghost k = it.index();
        assert(contents@.take(k + 1).drop_last() =~= contents@.take(k));
        let ghost rest = scan(contents@.take(k)).1;
        if c == '\n' {
            done.push(cur);
            cur = String::new();
            held_cr = false;
            assert(done.deep_view() =~= scan(contents@.take(k + 1)).0);
        } else {
            if held_cr {
                push_char(&mut cur, '\r');
                assert(cur@ =~= rest);
            }
            if c == '\r' {
                held_cr = true;
                assert(cur@ =~= rest.push(c).drop_last());
            } else {
                push_char(&mut cur, c);
                held_cr = false;
            }
            assert(done.deep_view() =~= scan(contents@.take(k + 1)).0);
        }
    }
    assert(contents@.take(contents@.len() as int) =~= contents@);
    if held_cr {
        push_char(&mut cur, '\r');
    }
    assert(cur@ =~= scan(contents@).1);
    if !cur.as_str().is_empty() {
        done.push(cur);
    }
    assert(done.deep_view() =~= lines_of(contents@));
    done
}

/// The number of lines in `contents`, and each line rendered as
/// `"{i}. {line}"` (counted from 1), joined by newlines.
pub fn count_and_print(contents: &str) -> (r: (usize, String))
    ensures
        r.0 == lines_of(contents@).len(),
        r.1@ == enumerated(contents@),
{
    let lines = split_lines(contents);
    let ghost ls = lines_of(contents@);
    let mut out: String = String::new();
    let mut i: usize = 0;
    while i < lines.len()
        invariant
            lines.deep_view() == ls,
            i <= lines.len(),
            out@ == join_lines(numbered(ls).take(i as int)),
        decreases lines.len() - i,
    {
        if i != 0 {
            push_char(&mut out, '\n');
        }
        push_decimal(&mut out, i + 1);
        push_char(&mut out, '.');
        push_char(&mut out, ' ');
        out.append(lines[i].as_str());
        proof {
            let t = numbered(ls).take(i + 1);
            assert(t.drop_last() =~= numbered(ls).take(i as int));
            assert(lines[i as int]@ == ls[i as int]);
            if i == 0 {
                assert(out@ =~= t[0]);
            } else {
                assert(out@ =~= join_lines(t.drop_last()) + seq!['\n'] + t.last());
            }
        }
        i = i + 1;
    }
    assert(numbered(ls).take(i as int) =~= numbered(ls));
    (i, out)
}

/// `s` split at every `\n`, keeping empty pieces: `k` newlines give `k + 1`
/// pieces.
pub open spec fn split_newlines(s: Seq<char>) -> Seq<Seq<char>>
    decreases s.len(),
{
    if s.len() == 0 {
        seq![seq![]]
    } else {
        let p = split_newlines(s.drop_last());
        if s.last() == '\n' {
            p.push(seq![])
        } else {
            p.update(p.len() - 1, p.last().push(s.last()))
        }
    }
}

/// `s` holds no newline.
pub open spec fn no_newline(s: Seq<char>) -> bool {
    forall|j: int| 0 <= j < s.len() ==> s[j] != '\n'
}

proof fn lemma_split_nonempty(s: Seq<char>)
    ensures
        split_newlines(s).len() >= 1,
    decreases s.len(),
{
    if s.len() > 0 {
        lemma_split_nonempty(s.drop_last());
    }
}

proof fn lemma_split_after_newline(x: Seq<char>, y: Seq<char>)
    requires
        no_newline(y),
    ensures
        split_newlines(x + seq!['\n'] + y) == split_newlines(x).push(y),
    decreases y.len(),
{
    let a = x + seq!['\n'];
    assert(a.drop_last() =~= x);
    if y.len() == 0 {
        assert(a + y =~= a);
        assert(y =~= seq![]);
    } else {
        assert(no_newline(y.drop_last())) by {
            assert forall|j: int| 0 <= j < y.len() - 1 implies y.drop_last()[j] != '\n' by {
                assert(y.drop_last()[j] == y[j]);
            }
        }
        assert(y[y.len() - 1] != '\n');
        assert((a + y).last() == y.last());
        lemma_split_after_newline(x, y.drop_last());
        assert((a + y).drop_last() =~= a + y.drop_last());
        assert(x + seq!['\n'] + y.drop_last() =~= a + y.drop_last());
        assert(y.drop_last().push(y.last()) =~= y);
        assert(split_newlines(x).push(y.drop_last()).update(
            split_newlines(x).len() as int,
            y.drop_last().push(y.last()),
        ) =~= split_newlines(x).push(y));
    }
}

proof fn lemma_split_single(y: Seq<char>)
    requires
        no_newline(y),
    ensures
        split_newlines(y) == seq![y],
    decreases y.len(),
{
    if y.len() == 0 {
        assert(y =~= seq![]);
    } else {
        lemma_split_single(y.drop_last());
        assert(y.drop_last().push(y.last()) =~= y);
        assert(seq![y.drop_last()].update(0, y.drop_last().push(y.last())) =~= seq![y]);
    }
}

proof fn lemma_split_join(pieces: Seq<Seq<char>>)
    requires
        pieces.len() >= 1,
        forall|k: int| 0 <= k < pieces.len() ==> no_newline(#[trigger] pieces[k]),
    ensures
        split_newlines(join_lines(pieces)) == pieces,
    decreases pieces.len(),
{
    if pieces.len() == 1 {
        lemma_split_single(pieces[0]);
        assert(seq![pieces[0]] =~= pieces);
    } else {
        let init = pieces.drop_last();
        assert forall|k: int| 0 <= k < init.len() implies no_newline(#[trigger] init[k]) by {
            assert(init[k] == pieces[k]);
        }
        lemma_split_join(init);
        assert(no_newline(pieces[pieces.len() - 1]));
        lemma_split_after_newline(join_lines(init), pieces.last());
        assert(init.push(pieces.last()) =~= pieces);
    }
}

proof fn lemma_scan_no_newline(s: Seq<char>)
    ensures
        no_newline(scan(s).1),
        forall|k: int| 0 <= k < scan(s).0.len() ==> no_newline(#[trigger] scan(s).0[k]),
    decreases s.len(),
{
    if s.len() > 0 {
        lemma_scan_no_newline(s.drop_last());
    }
}

proof fn lemma_lines_no_newline(s: Seq<char>)
    ensures
        forall|k: int| 0 <= k < lines_of(s).len() ==> no_newline(#[trigger] lines_of(s)[k]),
{
    lemma_scan_no_newline(s);
}

proof fn lemma_decimal_digits(n: nat)
    ensures
        no_newline(decimal(n)),
    decreases n,
{
    if n >= 10 {
        lemma_decimal_digits(n / 10);
    }
}

/// Both ways of processing a text agree on how many lines it has.
pub proof fn lemma_counts_agree(s: Seq<char>)
    ensures
        numbered(lines_of(s)).len() == lines_of(s).len(),
        lines_of(s).len() == segment_count(s),
{
    lemma_line_count(s);
}

/// Splitting the numbered rendition of a text with at least one line at each
/// newline gives one piece per line, in order; each piece is the line's
/// number, `". "`, and then the line exactly as it was.
pub proof fn lemma_enumeration_recovers_lines(s: Seq<char>)
    requires
        lines_of(s).len() >= 1,
    ensures
        split_newlines(enumerated(s)).len() == lines_of(s).len(),
        forall|k: int| 0 <= k < lines_of(s).len() ==> {
            let piece = #[trigger] split_newlines(enumerated(s))[k];
            let prefix = decimal((k + 1) as nat) + seq!['.', ' '];
            &&& piece.take(prefix.len() as int) == prefix
            &&& piece.skip(prefix.len() as int) == lines_of(s)[k]
        },
{
    let ls = lines_of(s);
    let ns = numbered(ls);
    lemma_lines_no_newline(s);
    assert forall|k: int| 0 <= k < ns.len() implies no_newline(#[trigger] ns[k]) by {
        lemma_decimal_digits((k + 1) as nat);
        let line = ls[k];
        assert(no_newline(line));
        let prefix = decimal((k + 1) as nat) + seq!['.', ' '];
        assert forall|j: int| 0 <= j < ns[k].len() implies ns[k][j] != '\n' by {
            if j >= prefix.len() {
                assert(ns[k][j] == line[j - prefix.len()]);
            } else if j >= decimal((k + 1) as nat).len() {
                assert(ns[k][j] == seq!['.', ' '][j - decimal((k + 1) as nat).len()]);
            } else {
                assert(ns[k][j] == decimal((k + 1) as nat)[j]);
            }
        }
    }
    lemma_split_join(ns);
    assert forall|k: int| 0 <= k < ls.len() implies {
        let piece = #[trigger] split_newlines(enumerated(s))[k];
        let prefix = decimal((k + 1) as nat) + seq!['.', ' '];
        &&& piece.take(prefix.len() as int) == prefix
        &&& piece.skip(prefix.len() as int) == ls[k]
    } by {
        let prefix = decimal((k + 1) as nat) + seq!['.', ' '];
        assert(ns[k] == prefix + ls[k]);
        assert((prefix + ls[k]).take(prefix.len() as int) =~= prefix);
        assert((prefix + ls[k]).skip(prefix.len() as int) =~= ls[k]);
    }
}

/// Counting and enumerating depend on the text alone: equal texts give equal
/// results, however often they are processed.
pub proof fn lemma_deterministic(a: Seq<char>, b: Seq<char>)
    requires
        a == b,
    ensures
        lines_of(a) == lines_of(b),
        lines_of(a).len() == lines_of(b).len(),
        enumerated(a) == enumerated(b),
{
}

} // verus!
