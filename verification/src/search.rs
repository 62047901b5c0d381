//! Searching a text for another, and cutting it into pieces.

use crate::text::{append, chars_of, lead, lead_len, lemma_lead, slice_of, views, CharSet, Class};
use vstd::prelude::*;

verus! {

/// Whether `p` stands in `s` at index `i`.
pub open spec fn occurs_at(s: Seq<char>, p: Seq<char>, i: int) -> bool {
    0 <= i && i + p.len() <= s.len() && s.subrange(i, i + p.len()) == p
}

/// Whether `p` stands somewhere in `s`.
pub open spec fn contains(s: Seq<char>, p: Seq<char>) -> bool {
    exists|i: int| occurs_at(s, p, i)
}

/// Whether `s` begins with `p`.
pub open spec fn starts_with(s: Seq<char>, p: Seq<char>) -> bool {
    occurs_at(s, p, 0)
}

/// Whether `s` ends with `p`.
pub open spec fn ends_with(s: Seq<char>, p: Seq<char>) -> bool {
    occurs_at(s, p, s.len() - p.len())
}

/// The least index at which `p` stands in `s`.
pub open spec fn find(s: Seq<char>, p: Seq<char>) -> Option<int>
    decreases s.len(),
{
    if occurs_at(s, p, 0) {
        Some(0)
    } else if s.len() == 0 {
        None
    } else {
        match find(s.drop_first(), p) {
            Some(i) => Some(i + 1),
            None => None,
        }
    }
}

proof fn lemma_occurs_shift(s: Seq<char>, p: Seq<char>, i: int)
    requires
        s.len() > 0,
        0 <= i,
    ensures
        occurs_at(s.drop_first(), p, i) == occurs_at(s, p, i + 1),
{
    let t = s.drop_first();
    if i + p.len() <= t.len() {
        assert(t.subrange(i, i + p.len()) =~= s.subrange(i + 1, i + 1 + p.len()));
    }
}

/// `find` gives the first place where `p` stands, and `None` only where there is none.
pub proof fn lemma_find(s: Seq<char>, p: Seq<char>)
    ensures
        match find(s, p) {
            Some(i) => occurs_at(s, p, i) && forall|j: int| 0 <= j < i ==> !occurs_at(s, p, j),
            None => !contains(s, p),
        },
    decreases s.len(),
{
    if occurs_at(s, p, 0) {
    } else if s.len() == 0 {
        assert forall|i: int| !occurs_at(s, p, i) by {
            if occurs_at(s, p, i) {
                assert(i == 0);
            }
        }
    } else {
        let t = s.drop_first();
        lemma_find(t, p);
        match find(t, p) {
            Some(i) => {
                lemma_occurs_shift(s, p, i);
                assert forall|j: int| 0 <= j < i + 1 implies !occurs_at(s, p, j) by {
                    if j > 0 {
                        lemma_occurs_shift(s, p, j - 1);
                    }
                }
            },
            None => {
                assert forall|i: int| !occurs_at(s, p, i) by {
                    if occurs_at(s, p, i) {
                        lemma_occurs_shift(s, p, i - 1);
                        assert(occurs_at(t, p, i - 1));
                    }
                }
            },
        }
    }
}

/// The first place where `p` stands is what `find` gives.
pub proof fn lemma_find_is(s: Seq<char>, p: Seq<char>, k: int)
    requires
        occurs_at(s, p, k),
        forall|j: int| 0 <= j < k ==> !occurs_at(s, p, j),
    ensures
        find(s, p) == Some(k),
{
    lemma_find(s, p);
    match find(s, p) {
        Some(i) => {
            if i < k {
                assert(!occurs_at(s, p, i));
            }
        },
        None => {},
    }
}

/// Where `p` stands nowhere, `find` gives `None`.
pub proof fn lemma_find_none(s: Seq<char>, p: Seq<char>)
    requires
        forall|j: int| !occurs_at(s, p, j),
    ensures
        find(s, p) is None,
{
    lemma_find(s, p);
}

/// Whether `p` stands in `s` at index `i`.
pub fn occurs_at_index(s: &Vec<char>, p: &Vec<char>, i: usize) -> (r: bool)
    ensures
        r == occurs_at(s@, p@, i as int),
{
    if p.len() > s.len() || i > s.len() - p.len() {
        return false;
    }
    let mut j: usize = 0;
    while j < p.len()
        invariant
            j <= p.len(),
            i + p.len() <= s.len(),
            s@.subrange(i as int, i + j) == p@.take(j as int),
        decreases p.len() - j,
    {
        if s[i + j] != p[j] {
            assert(s@.subrange(i as int, i + p.len())[j as int] != p@[j as int]);
            return false;
        }
        j += 1;
        assert(s@.subrange(i as int, i + j) == s@.subrange(i as int, i + j - 1).push(
            s@[i + j - 1],
        ));
        assert(p@.take(j as int) == p@.take(j - 1).push(p@[j - 1]));
    }
    assert(p@.take(p.len() as int) == p@);
    true
}

/// The least index at which `p` stands in `s`.
pub fn find_in(s: &Vec<char>, p: &Vec<char>) -> (r: Option<usize>)
    ensures
        match r {
            Some(i) => find(s@, p@) == Some(i as int) && i + p.len() <= s.len(),
            None => find(s@, p@) is None,
        },
{
    if p.len() > s.len() {
        proof {
            lemma_find_none(s@, p@);
        }
        return None;
    }
    let last: usize = s.len() - p.len();
    let mut i: usize = 0;
    while i < last
        invariant
            last == s.len() - p.len(),
            i <= last,
            forall|j: int| 0 <= j < i ==> !occurs_at(s@, p@, j),
        decreases last - i,
    {
        if occurs_at_index(s, p, i) {
            proof {
                lemma_find_is(s@, p@, i as int);
            }
            return Some(i);
        }
        i += 1;
    }
    if occurs_at_index(s, p, last) {
        proof {
            lemma_find_is(s@, p@, last as int);
        }
        return Some(last);
    }
    proof {
        lemma_find_none(s@, p@);
    }
    None
}

/// Whether the string `p` stands somewhere in `s`.
pub fn has_str(s: &Vec<char>, p: &str) -> (r: bool)
    ensures
        r == contains(s@, p@),
{
    let pv = chars_of(p);
    let f = find_in(s, &pv);
    proof {
        lemma_find(s@, p@);
    }
    f.is_some()
}

/// Whether `s` begins with the string `p`.
pub fn begins_with(s: &Vec<char>, p: &str) -> (r: bool)
    ensures
        r == starts_with(s@, p@),
{
    let pv = chars_of(p);
    occurs_at_index(s, &pv, 0)
}

/// Whether `s` ends with the string `p`.
pub fn finishes_with(s: &Vec<char>, p: &str) -> (r: bool)
    ensures
        r == ends_with(s@, p@),
{
    let pv = chars_of(p);
    if pv.len() > s.len() {
        return false;
    }
    occurs_at_index(s, &pv, s.len() - pv.len())
}


/// The pieces of `s` between the places where `sep` stands, taken from the left.
/// A text in which `sep` stands nowhere is its own single piece, and so is
/// every text where `sep` is empty.
pub open spec fn split(s: Seq<char>, sep: Seq<char>) -> Seq<Seq<char>>
    decreases s.len(),
    via split_decreases
{
    if sep.len() == 0 {
        seq![s]
    } else {
        match find(s, sep) {
            Some(i) => seq![s.take(i)] + split(s.skip(i + sep.len()), sep),
            None => seq![s],
        }
    }
}

#[via_fn]
proof fn split_decreases(s: Seq<char>, sep: Seq<char>) {
    lemma_find(s, sep);
}

/// A split has at least one piece.
pub proof fn lemma_split_len(s: Seq<char>, sep: Seq<char>)
    ensures
        split(s, sep).len() >= 1,
    decreases s.len(),
{
    if sep.len() > 0 {
        lemma_find(s, sep);
        match find(s, sep) {
            Some(i) => {
                lemma_split_len(s.skip(i + sep.len()), sep);
            },
            None => {},
        }
    }
}

/// The pieces of `s` between the places where `sep` stands.
pub fn split_on(s: &Vec<char>, sep: &Vec<char>) -> (r: Vec<Vec<char>>)
    ensures
        views(r@) == split(s@, sep@),
        r.len() >= 1,
{
    let mut out: Vec<Vec<char>> = Vec::new();
    if sep.len() == 0 {
        let whole = slice_of(s, 0, s.len());
        assert(whole@ == s@);
        out.push(whole);
        assert(views(out@) == seq![s@]);
        return out;
    }
    let mut start: usize = 0;
    proof {
        assert(s@.skip(0) == s@);
        assert(views(out@) + split(s@, sep@) == split(s@, sep@));
    }
    loop
        invariant_except_break
            sep.len() > 0,
            start <= s.len(),
            split(s@, sep@) == views(out@) + split(s@.skip(start as int), sep@),
        ensures
            views(out@) == split(s@, sep@),
            out.len() >= 1,
        decreases s.len() - start,
    {
        let rest = slice_of(s, start, s.len());
        assert(rest@ == s@.skip(start as int));
        let ghost before = views(out@);
        match find_in(&rest, sep) {
            Some(i) => {
                let piece = slice_of(&rest, 0, i);
                out.push(piece);
                proof {
                    assert(rest@.skip(i + sep.len()) == s@.skip(start + i + sep.len()));
                    assert(views(out@) == before + seq![rest@.take(i as int)]);
                    assert(split(s@, sep@) == views(out@) + split(
                        s@.skip(start + i + sep.len()),
                        sep@,
                    ));
                }
                start = start + i + sep.len();
            },
            None => {
                out.push(rest);
                proof {
                    assert(views(out@) == before + seq![rest@]);
                }
                break ;
            },
        }
    }
    out
}

/// The pieces of `s` between the places where the string `sep` stands.
pub fn split_str(s: &Vec<char>, sep: &str) -> (r: Vec<Vec<char>>)
    ensures
        views(r@) == split(s@, sep@),
        r.len() >= 1,
{
    let sv = chars_of(sep);
    split_on(s, &sv)
}

/// The pieces joined, with `sep` between each two.
pub open spec fn join(parts: Seq<Seq<char>>, sep: Seq<char>) -> Seq<char>
    decreases parts.len(),
{
    if parts.len() == 0 {
        Seq::empty()
    } else if parts.len() == 1 {
        parts[0]
    } else {
        join(parts.drop_last(), sep) + sep + parts.last()
    }
}

/// The pieces joined, with the string `sep` between each two.
pub fn join_with(parts: &Vec<Vec<char>>, sep: &str) -> (r: Vec<char>)
    ensures
        r@ == join(views(parts@), sep@),
{
    let sv = chars_of(sep);
    let mut out: Vec<char> = Vec::new();
    let mut i: usize = 0;
    while i < parts.len()
        invariant
            i <= parts.len(),
            sv@ == sep@,
            out@ == join(views(parts@).take(i as int), sep@),
        decreases parts.len() - i,
    {
        let ghost prev = views(parts@).take(i as int);
        if i > 0 {
            append(&mut out, &sv);
        }
        append(&mut out, &parts[i]);
        i += 1;
        proof {
            let cur = views(parts@).take(i as int);
            assert(cur.drop_last() == prev);
            assert(cur.last() == parts@[i - 1]@);
            if i == 1 {
                assert(out@ == parts@[0]@);
            }
        }
    }
    assert(views(parts@).take(parts.len() as int) == views(parts@));
    out
}

/// `s` without a carriage return at its end.
pub open spec fn strip_cr(s: Seq<char>) -> Seq<char> {
    if s.len() > 0 && s.last() == '\r' {
        s.drop_last()
    } else {
        s
    }
}

/// The lines of `s`. A line ends at a line feed, or at a carriage return
/// followed by one; neither is part of the line. What follows the last line
/// feed is a line of its own unless it is empty.
pub open spec fn lines(s: Seq<char>) -> Seq<Seq<char>> {
    let parts = split(s, seq!['\n']);
    let ended = Seq::new((parts.len() - 1) as nat, |i: int| strip_cr(parts[i]));
    if parts.last().len() == 0 {
        ended
    } else {
        ended.push(parts.last())
    }
}

/// The lines of `s`.
pub fn lines_of(s: &Vec<char>) -> (r: Vec<Vec<char>>)
    ensures
        views(r@) == lines(s@),
{
    let mut sep: Vec<char> = Vec::new();
    sep.push('\n');
    assert(sep@ == seq!['\n']);
    let mut parts = split_on(s, &sep);
    let ghost all = views(parts@);
    let n = parts.len();
    let mut out: Vec<Vec<char>> = Vec::new();
    let mut i: usize = 0;
    while i < n - 1
        invariant
            n == parts.len(),
            n >= 1,
            i <= n - 1,
            all == views(parts@),
            views(out@) == Seq::new(i as nat, |j: int| strip_cr(all[j])),
        decreases n - i,
    {
        let ghost before = views(out@);
        let p = &parts[i];
        let m = p.len();
        let line = if m > 0 && p[m - 1] == '\r' {
            slice_of(p, 0, m - 1)
        } else {
            slice_of(p, 0, m)
        };
        assert(line@ == strip_cr(all[i as int]));
        out.push(line);
        i += 1;
        assert(views(out@) == before.push(line@));
        assert(views(out@) == Seq::new(i as nat, |j: int| strip_cr(all[j])));
    }
    let last = &parts[n - 1];
    assert(last@ == all.last());
    if last.len() > 0 {
        let ghost before = views(out@);
        let copy = slice_of(last, 0, last.len());
        assert(copy@ == last@);
        out.push(copy);
        assert(views(out@) == before.push(all.last()));
    }
    out
}

/// The ending of a line that a line feed ends: a carriage return and a line
/// feed where the carriage return stands before the line feed, else the line
/// feed alone.
pub open spec fn ending_of(part: Seq<char>) -> Seq<char> {
    if part.len() > 0 && part.last() == '\r' {
        "\r\n"@
    } else {
        "\n"@
    }
}

/// The endings of the lines of `s`, one for each line: what ends the line in
/// the text, and nothing for a last line that nothing ends.
pub open spec fn line_ends(s: Seq<char>) -> Seq<Seq<char>> {
    let parts = split(s, seq!['\n']);
    let ended = Seq::new((parts.len() - 1) as nat, |i: int| ending_of(parts[i]));
    if parts.last().len() == 0 {
        ended
    } else {
        ended.push(Seq::empty())
    }
}

/// The first `n` lines, each with its ending after it, one after the other.
pub open spec fn unlines(ls: Seq<Seq<char>>, es: Seq<Seq<char>>, n: int) -> Seq<char>
    decreases n,
{
    if n <= 0 {
        Seq::empty()
    } else {
        unlines(ls, es, n - 1) + ls[n - 1] + es[n - 1]
    }
}

/// The lines, each with its ending after it, one after the other.
pub open spec fn with_ends(ls: Seq<Seq<char>>, es: Seq<Seq<char>>) -> Seq<char> {
    unlines(ls, es, ls.len() as int)
}

/// The lines of `s` and their endings.
pub fn lines_and_ends(s: &Vec<char>) -> (r: (Vec<Vec<char>>, Vec<Vec<char>>))
    ensures
        views(r.0@) == lines(s@),
        views(r.1@) == line_ends(s@),
        r.0.len() == r.1.len(),
{
    proof {
        reveal_strlit("\n");
        reveal_strlit("\r\n");
    }
    let mut sep: Vec<char> = Vec::new();
    sep.push('\n');
    assert(sep@ == seq!['\n']);
    let parts = split_on(s, &sep);
    let ghost all = views(parts@);
    let n = parts.len();
    let mut out: Vec<Vec<char>> = Vec::new();
    let mut ends: Vec<Vec<char>> = Vec::new();
    let mut i: usize = 0;
    while i < n - 1
        invariant
            n == parts.len(),
            n >= 1,
            i <= n - 1,
            all == views(parts@),
            out.len() == i,
            ends.len() == i,
            views(out@) == Seq::new(i as nat, |j: int| strip_cr(all[j])),
            views(ends@) == Seq::new(i as nat, |j: int| ending_of(all[j])),
        decreases n - i,
    {
        let ghost before = views(out@);
        let ghost ends_before = views(ends@);
        let p = &parts[i];
        let m = p.len();
        let with_cr = m > 0 && p[m - 1] == '\r';
        let line = if with_cr {
            slice_of(p, 0, m - 1)
        } else {
            slice_of(p, 0, m)
        };
        let end = if with_cr {
            chars_of("\r\n")
        } else {
            chars_of("\n")
        };
        assert(line@ == strip_cr(all[i as int]));
        assert(end@ == ending_of(all[i as int]));
        out.push(line);
        ends.push(end);
        i += 1;
        assert(views(out@) == before.push(line@));
        assert(views(ends@) == ends_before.push(end@));
        assert(views(out@) == Seq::new(i as nat, |j: int| strip_cr(all[j])));
        assert(views(ends@) == Seq::new(i as nat, |j: int| ending_of(all[j])));
    }
    let last = &parts[n - 1];
    assert(last@ == all.last());
    if last.len() > 0 {
        let ghost before = views(out@);
        let ghost ends_before = views(ends@);
        let copy = slice_of(last, 0, last.len());
        assert(copy@ == last@);
        out.push(copy);
        ends.push(Vec::new());
        assert(views(out@) == before.push(all.last()));
        assert(views(ends@) == ends_before.push(Seq::<char>::empty()));
    }
    (out, ends)
}

/// The lines, each with its ending after it, one after the other.
pub fn unlines_of(ls: &Vec<Vec<char>>, es: &Vec<Vec<char>>) -> (r: Vec<char>)
    requires
        ls.len() == es.len(),
    ensures
        r@ == with_ends(views(ls@), views(es@)),
{
    let mut out: Vec<char> = Vec::new();
    let mut i: usize = 0;
    while i < ls.len()
        invariant
            i <= ls.len(),
            ls.len() == es.len(),
            out@ == unlines(views(ls@), views(es@), i as int),
        decreases ls.len() - i,
    {
        append(&mut out, &ls[i]);
        append(&mut out, &es[i]);
        i += 1;
    }
    out
}

/// The words of `s`: its longest runs of characters that are not white space.
pub open spec fn words(s: Seq<char>) -> Seq<Seq<char>>
    decreases s.len(),
    via words_decreases
{
    let t = trim_start_space(s);
    if t.len() == 0 {
        Seq::empty()
    } else {
        let n = lead(t, Class::NotSpace) as int;
        seq![t.take(n)] + words(t.skip(n))
    }
}

/// `s` without its leading white space.
pub open spec fn trim_start_space(s: Seq<char>) -> Seq<char> {
    s.skip(lead(s, Class::Space) as int)
}

#[via_fn]
proof fn words_decreases(s: Seq<char>) {
    let t = trim_start_space(s);
    lemma_lead(s, Class::Space);
    if t.len() != 0 {
        lemma_lead(t, Class::NotSpace);
        assert(t[0] == s[lead(s, Class::Space) as int]);
        assert(lead(t, Class::NotSpace) > 0);
    }
}

/// The words of `s`.
pub fn words_of(s: &Vec<char>) -> (r: Vec<Vec<char>>)
    ensures
        views(r@) == words(s@),
{
    let mut out: Vec<Vec<char>> = Vec::new();
    let mut rest = slice_of(s, 0, s.len());
    assert(rest@ == s@);
    loop
        invariant_except_break
            words(s@) == views(out@) + words(rest@),
        ensures
            views(out@) == words(s@),
        decreases rest.len(),
    {
        let ghost before = views(out@);
        let skip = lead_len(&rest, &CharSet::Space);
        let t = slice_of(&rest, skip, rest.len());
        assert(t@ == trim_start_space(rest@));
        if t.len() == 0 {
            assert(words(rest@) == Seq::<Seq<char>>::empty());
            assert(views(out@) + words(rest@) == views(out@));
            break ;
        }
        let n = lead_len(&t, &CharSet::NotSpace);
        proof {
            lemma_lead(rest@, Class::Space);
            lemma_lead(t@, Class::NotSpace);
            assert(t@[0] == rest@[skip as int]);
            assert(n > 0);
        }
        let word = slice_of(&t, 0, n);
        out.push(word);
        rest = slice_of(&t, n, t.len());
        proof {
            assert(views(out@) == before + seq![t@.take(n as int)]);
            assert(words(s@) == views(out@) + words(rest@));
        }
    }
    out
}


/// In a text without the character `c`, the one-character text `c` is not
/// found.
pub proof fn lemma_find_absent(a: Seq<char>, c: char)
    requires
        !a.contains(c),
    ensures
        find(a, seq![c]) is None,
{
    assert forall|j: int| !occurs_at(a, seq![c], j) by {
        if occurs_at(a, seq![c], j) {
            assert(a.subrange(j, j + 1)[0] == c);
            assert(a[j] == c);
        }
    }
    lemma_find_none(a, seq![c]);
}

/// Where `c` follows a text without it, that is the first place where `c` is
/// found.
pub proof fn lemma_find_after(a: Seq<char>, c: char, rest: Seq<char>)
    requires
        !a.contains(c),
    ensures
        find(a + seq![c] + rest, seq![c]) == Some(a.len() as int),
{
    let s = a + seq![c] + rest;
    assert(s.subrange(a.len() as int, a.len() as int + 1) == seq![c]);
    assert forall|j: int| 0 <= j < a.len() implies !occurs_at(s, seq![c], j) by {
        if occurs_at(s, seq![c], j) {
            assert(s.subrange(j, j + 1)[0] == c);
            assert(a[j] == c);
        }
    }
    lemma_find_is(s, seq![c], a.len() as int);
}

/// Splitting at `c` a text that begins with a piece without `c`, then `c`:
/// the piece comes first, and the rest is split in the same way.
pub proof fn lemma_split_head(a: Seq<char>, c: char, rest: Seq<char>)
    requires
        !a.contains(c),
    ensures
        split(a + seq![c] + rest, seq![c]) == seq![a] + split(rest, seq![c]),
{
    let s = a + seq![c] + rest;
    lemma_find_after(a, c, rest);
    assert(s.take(a.len() as int) == a);
    assert(s.skip(a.len() as int + 1) == rest);
}

/// A text without `c` is the one piece of its split at `c`.
pub proof fn lemma_split_whole(a: Seq<char>, c: char)
    requires
        !a.contains(c),
    ensures
        split(a, seq![c]) == seq![a],
{
    lemma_find_absent(a, c);
}

/// Joining two pieces or more puts the first piece and the separator before
/// the join of the others.
pub proof fn lemma_join_head(parts: Seq<Seq<char>>, sep: Seq<char>)
    requires
        parts.len() >= 2,
    ensures
        join(parts, sep) == parts[0] + sep + join(parts.drop_first(), sep),
    decreases parts.len(),
{
    let tail = parts.drop_first();
    let init = parts.drop_last();
    assert(join(parts, sep) == join(init, sep) + sep + parts.last());
    if parts.len() == 2 {
        assert(init.len() == 1 && init[0] == parts[0]);
        assert(tail.len() == 1 && tail[0] == parts[1]);
        assert(join(init, sep) == parts[0]);
        assert(join(tail, sep) == parts[1]);
    } else {
        lemma_join_head(init, sep);
        assert(init.drop_first() == tail.drop_last());
        assert(tail.last() == parts.last());
        assert(join(tail, sep) == join(tail.drop_last(), sep) + sep + tail.last());
        assert(init[0] == parts[0]);
        assert(parts[0] + sep + join(init.drop_first(), sep) + sep + parts.last() == parts[0] + sep
            + (join(init.drop_first(), sep) + sep + parts.last()));
    }
}

/// Splitting at `c` what was joined with `c` gives the pieces back, where no
/// piece holds `c`.
pub proof fn lemma_split_join(parts: Seq<Seq<char>>, c: char)
    requires
        parts.len() >= 1,
        forall|i: int| 0 <= i < parts.len() ==> !(#[trigger] parts[i]).contains(c),
    ensures
        split(join(parts, seq![c]), seq![c]) == parts,
    decreases parts.len(),
{
    if parts.len() == 1 {
        lemma_split_whole(parts[0], c);
        assert(parts == seq![parts[0]]);
    } else {
        let rest = parts.drop_first();
        lemma_join_head(parts, seq![c]);
        assert forall|i: int| 0 <= i < rest.len() implies !(#[trigger] rest[i]).contains(c) by {
            assert(rest[i] == parts[i + 1]);
        }
        lemma_split_join(rest, c);
        lemma_split_head(parts[0], c, join(rest, seq![c]));
        assert(seq![parts[0]] + rest == parts);
    }
}


/// Where the one-character text `c` is first found in `s`, nothing before
/// that place is `c`; where it is not found, nothing in `s` is `c`.
pub proof fn lemma_find_char(s: Seq<char>, c: char)
    ensures
        match find(s, seq![c]) {
            Some(i) => 0 <= i < s.len() && s[i] == c && !s.take(i).contains(c) && s == s.take(i)
                + seq![c] + s.skip(i + 1),
            None => !s.contains(c),
        },
{
    lemma_find(s, seq![c]);
    match find(s, seq![c]) {
        Some(i) => {
            assert(s.subrange(i, i + 1)[0] == c);
            assert forall|j: int| 0 <= j < i implies s.take(i)[j] != c by {
                if s[j] == c {
                    assert(s.subrange(j, j + 1) =~= seq![c]);
                    assert(occurs_at(s, seq![c], j));
                }
            }
            assert(s =~= s.take(i) + seq![c] + s.skip(i + 1));
        },
        None => {
            assert forall|j: int| 0 <= j < s.len() implies s[j] != c by {
                if s[j] == c {
                    assert(s.subrange(j, j + 1) =~= seq![c]);
                    assert(occurs_at(s, seq![c], j));
                }
            }
        },
    }
}

/// The split of two texts put together: the pieces of the first but its last,
/// the last piece of the first with the first piece of the second, and the
/// other pieces of the second.
pub proof fn lemma_split_concat(u: Seq<char>, v: Seq<char>, c: char)
    ensures
        split(u, seq![c]).len() >= 1,
        split(v, seq![c]).len() >= 1,
        split(u + v, seq![c]) == split(u, seq![c]).drop_last() + seq![
            split(u, seq![c]).last() + split(v, seq![c])[0],
        ] + split(v, seq![c]).drop_first(),
    decreases u.len(),
{
    let sep = seq![c];
    lemma_split_len(u, sep);
    lemma_split_len(v, sep);
    lemma_find_char(u, c);
    match find(u, sep) {
        Some(i) => {
            let head = u.take(i);
            let rest = u.skip(i + 1);
            lemma_split_concat(rest, v, c);
            assert(u + v =~= head + sep + (rest + v));
            lemma_split_head(head, c, rest + v);
            lemma_split_head(head, c, rest);
            let sr = split(rest, sep);
            let su = split(u, sep);
            assert(su == seq![head] + sr);
            assert(su.drop_last() =~= seq![head] + sr.drop_last());
            assert(su.last() == sr.last());
            assert(split(u + v, sep) =~= su.drop_last() + seq![su.last() + split(v, sep)[0]]
                + split(v, sep).drop_first());
        },
        None => {
            lemma_split_whole(u, c);
            lemma_find_char(v, c);
            match find(v, sep) {
                Some(j) => {
                    let vh = v.take(j);
                    let vr = v.skip(j + 1);
                    assert(u + v =~= (u + vh) + sep + vr);
                    assert(!(u + vh).contains(c)) by {
                        if (u + vh).contains(c) {
                            let k = choose|k: int| 0 <= k < (u + vh).len() && (u + vh)[k] == c;
                            if k < u.len() {
                                assert(u[k] == c);
                            } else {
                                assert(vh[k - u.len()] == c);
                            }
                        }
                    }
                    lemma_split_head(u + vh, c, vr);
                    lemma_split_head(vh, c, vr);
                    let sv = split(v, sep);
                    assert(sv == seq![vh] + split(vr, sep));
                    assert(sv.drop_first() =~= split(vr, sep));
                    assert(split(u + v, sep) =~= seq![u].drop_last() + seq![u + sv[0]]
                        + sv.drop_first());
                },
                None => {
                    lemma_split_whole(v, c);
                    assert(!(u + v).contains(c)) by {
                        if (u + v).contains(c) {
                            let k = choose|k: int| 0 <= k < (u + v).len() && (u + v)[k] == c;
                            if k < u.len() {
                                assert(u[k] == c);
                            } else {
                                assert(v[k - u.len()] == c);
                            }
                        }
                    }
                    lemma_split_whole(u + v, c);
                    assert(split(u + v, sep) =~= seq![u].drop_last() + seq![u + seq![v][0]]
                        + seq![v].drop_first());
                },
            }
        },
    }
}

/// The split of a text around a middle without `c`: the middle stands in one
/// piece, between the last piece of what is before it and the first piece of
/// what is after it.
pub proof fn lemma_split_around(b: Seq<char>, x: Seq<char>, a: Seq<char>, c: char)
    requires
        !x.contains(c),
    ensures
        split(b, seq![c]).len() >= 1,
        split(a, seq![c]).len() >= 1,
        split(b + x + a, seq![c]) == split(b, seq![c]).drop_last() + seq![
            split(b, seq![c]).last() + x + split(a, seq![c])[0],
        ] + split(a, seq![c]).drop_first(),
{
    let sep = seq![c];
    lemma_split_concat(b, x, c);
    lemma_split_whole(x, c);
    lemma_split_concat(b + x, a, c);
    let sb = split(b, sep);
    let sbx = split(b + x, sep);
    assert(sbx =~= sb.drop_last() + seq![sb.last() + x]);
    assert(sbx.drop_last() =~= sb.drop_last());
    assert(sbx.last() == sb.last() + x);
}

/// Whether two lists are of one length and alike at every index but `k`.
pub open spec fn same_but_at(p: Seq<Seq<char>>, q: Seq<Seq<char>>, k: int) -> bool {
    p.len() == q.len() && forall|i: int| 0 <= i < p.len() && i != k ==> p[i] == q[i]
}

/// Two texts that differ in a middle that is not empty and holds no line feed
/// have the same lines, but for the line in which the middle stands.
pub proof fn lemma_lines_around(b: Seq<char>, x: Seq<char>, y: Seq<char>, a: Seq<char>)
    requires
        !x.contains('\n'),
        !y.contains('\n'),
        x.len() > 0,
        y.len() > 0,
    ensures
        split(b, seq!['\n']).len() >= 1,
        same_but_at(lines(b + x + a), lines(b + y + a), split(b, seq!['\n']).len() - 1),
{
    let sep = seq!['\n'];
    lemma_split_around(b, x, a, '\n');
    lemma_split_around(b, y, a, '\n');
    let sb = split(b, sep);
    let sa = split(a, sep);
    let p = split(b + x + a, sep);
    let q = split(b + y + a, sep);
    let k = sb.len() - 1;
    assert(p.len() == q.len());
    assert(p[k] == sb.last() + x + sa[0]);
    assert(q[k] == sb.last() + y + sa[0]);
    assert(p[k].len() > 0);
    assert(q[k].len() > 0);
    assert forall|i: int| 0 <= i < p.len() && i != k implies p[i] == q[i] by {
        if i < k {
            assert(p[i] == sb.drop_last()[i]);
            assert(q[i] == sb.drop_last()[i]);
        } else {
            assert(p[i] == sa.drop_first()[i - k - 1]);
            assert(q[i] == sa.drop_first()[i - k - 1]);
        }
    }
    let lp = lines(b + x + a);
    let lq = lines(b + y + a);
    assert(p.last().len() == 0 <==> q.last().len() == 0);
    assert(lp.len() == lq.len());
    assert forall|i: int| 0 <= i < lp.len() && i != k implies lp[i] == lq[i] by {
        if i < p.len() - 1 {
            assert(lp[i] == strip_cr(p[i]));
            assert(lq[i] == strip_cr(q[i]));
        } else {
            assert(lp[i] == p.last());
            assert(lq[i] == q.last());
        }
    }
}


/// Two texts without a character make a text without it.
pub proof fn lemma_concat_lacks(a: Seq<char>, b: Seq<char>, c: char)
    requires
        !a.contains(c),
        !b.contains(c),
    ensures
        !(a + b).contains(c),
{
    assert forall|j: int| 0 <= j < (a + b).len() implies (a + b)[j] != c by {
        if j < a.len() {
            assert(a[j] != c);
        } else {
            assert(b[j - a.len()] != c);
        }
    }
}

/// A part of a text without a character is without it.
pub proof fn lemma_part_lacks(s: Seq<char>, from: int, to: int, c: char)
    requires
        0 <= from <= to <= s.len(),
        !s.contains(c),
    ensures
        !s.subrange(from, to).contains(c),
{
    assert forall|j: int| 0 <= j < to - from implies s.subrange(from, to)[j] != c by {
        assert(s[from + j] != c);
    }
}

/// No piece of a split at `c` holds `c`.
pub proof fn lemma_split_pieces(s: Seq<char>, c: char)
    ensures
        forall|i: int|
            0 <= i < split(s, seq![c]).len() ==> !(#[trigger] split(s, seq![c])[i]).contains(c),
    decreases s.len(),
{
    let sep = seq![c];
    lemma_find_char(s, c);
    match find(s, sep) {
        Some(k) => {
            let rest = s.skip(k + 1);
            lemma_split_pieces(rest, c);
            let p = split(s, sep);
            assert(p == seq![s.take(k)] + split(rest, sep));
            assert forall|i: int| 0 <= i < p.len() implies !(#[trigger] p[i]).contains(c) by {
                if i > 0 {
                    assert(p[i] == split(rest, sep)[i - 1]);
                }
            }
        },
        None => {},
    }
}

/// No line of a text holds a line feed.
pub proof fn lemma_lines_lack_feed(s: Seq<char>)
    ensures
        forall|i: int| 0 <= i < lines(s).len() ==> !(#[trigger] lines(s)[i]).contains('\n'),
{
    let parts = split(s, seq!['\n']);
    lemma_split_len(s, seq!['\n']);
    lemma_split_pieces(s, '\n');
    assert forall|i: int| 0 <= i < lines(s).len() implies !(#[trigger] lines(s)[i]).contains(
        '\n',
    ) by {
        if i < parts.len() - 1 {
            assert(!parts[i].contains('\n'));
            if parts[i].len() > 0 {
                lemma_part_lacks(parts[i], 0, parts[i].len() - 1, '\n');
            }
        } else {
            assert(lines(s)[i] == parts.last());
            assert(!parts[parts.len() - 1].contains('\n'));
        }
    }
}

/// Whether the lines can be told from their join: there is one at least, none
/// holds a line feed, none but the last ends in a carriage return, and the
/// last is not empty.
pub open spec fn plain_lines(ls: Seq<Seq<char>>) -> bool {
    &&& ls.len() >= 1
    &&& forall|i: int| 0 <= i < ls.len() ==> !(#[trigger] ls[i]).contains('\n')
    &&& forall|i: int| 0 <= i < ls.len() - 1 ==> strip_cr(#[trigger] ls[i]) == ls[i]
    &&& ls.last().len() > 0
}

/// The lines of what was joined with line feeds are the lines that were
/// joined.
pub proof fn lemma_lines_join(ls: Seq<Seq<char>>)
    requires
        plain_lines(ls),
    ensures
        lines(join(ls, "\n"@)) == ls,
{
    reveal_strlit("\n");
    assert("\n"@ =~= seq!['\n']);
    lemma_split_join(ls, '\n');
    let parts = split(join(ls, "\n"@), seq!['\n']);
    assert(parts == ls);
    let ended = Seq::new((parts.len() - 1) as nat, |i: int| strip_cr(parts[i]));
    assert(ended =~= ls.drop_last());
    assert(ended.push(ls.last()) =~= ls);
}


/// Joining the pieces of a split with the separator gives the text back.
pub proof fn lemma_join_split(s: Seq<char>, sep: Seq<char>)
    requires
        sep.len() > 0,
    ensures
        join(split(s, sep), sep) == s,
    decreases s.len(),
{
    lemma_find(s, sep);
    match find(s, sep) {
        Some(i) => {
            let rest = s.skip(i + sep.len());
            lemma_join_split(rest, sep);
            lemma_split_len(rest, sep);
            let parts = seq![s.take(i)] + split(rest, sep);
            assert(parts[0] == s.take(i));
            assert(parts.drop_first() == split(rest, sep));
            lemma_join_head(parts, sep);
            assert(s.take(i) + sep + rest == s) by {
                assert(s.subrange(i, i + sep.len()) == sep);
                assert(s.take(i) + s.subrange(i, i + sep.len()) + rest =~= s);
            }
        },
        None => {},
    }
}


/// The first `k` pieces, each with a line feed after it, one after the other.
pub open spec fn terminated(parts: Seq<Seq<char>>, k: int) -> Seq<char>
    decreases k,
{
    if k <= 0 {
        Seq::empty()
    } else {
        terminated(parts, k - 1) + parts[k - 1] + seq!['\n']
    }
}

proof fn lemma_join_terminated(parts: Seq<Seq<char>>, k: int)
    requires
        0 <= k < parts.len(),
    ensures
        join(parts.take(k + 1), seq!['\n']) == terminated(parts, k) + parts[k],
    decreases k,
{
    let cur = parts.take(k + 1);
    if k == 0 {
        assert(cur.len() == 1 && cur[0] == parts[0]);
        assert(terminated(parts, 0) + parts[0] == parts[0]);
    } else {
        lemma_join_terminated(parts, k - 1);
        assert(cur.drop_last() == parts.take(k));
        assert(cur.last() == parts[k]);
        assert(join(cur, seq!['\n']) == join(parts.take(k), seq!['\n']) + seq!['\n'] + parts[k]);
        assert(terminated(parts, k - 1) + parts[k - 1] + seq!['\n'] + parts[k] == terminated(
            parts,
            k,
        ) + parts[k]);
    }
}

/// A piece without its carriage return, and then its ending, is the piece
/// and a line feed.
proof fn lemma_strip_cr_ending(p: Seq<char>)
    ensures
        strip_cr(p) + ending_of(p) == p + seq!['\n'],
        ending_of(p).len() > 0,
{
    reveal_strlit("\n");
    reveal_strlit("\r\n");
    assert("\n"@ =~= seq!['\n']);
    assert("\r\n"@ =~= seq!['\r', '\n']);
    assert(strip_cr(p) + ending_of(p) =~= p + seq!['\n']);
}

proof fn lemma_unlines_terminated(s: Seq<char>, k: int)
    requires
        0 <= k <= split(s, seq!['\n']).len() - 1,
    ensures
        unlines(lines(s), line_ends(s), k) == terminated(split(s, seq!['\n']), k),
    decreases k,
{
    if k > 0 {
        lemma_unlines_terminated(s, k - 1);
        let parts = split(s, seq!['\n']);
        lemma_strip_cr_ending(parts[k - 1]);
        assert(lines(s)[k - 1] == strip_cr(parts[k - 1]));
        assert(line_ends(s)[k - 1] == ending_of(parts[k - 1]));
        assert(unlines(lines(s), line_ends(s), k - 1) + strip_cr(parts[k - 1]) + ending_of(
            parts[k - 1],
        ) == unlines(lines(s), line_ends(s), k - 1) + (strip_cr(parts[k - 1]) + ending_of(
            parts[k - 1],
        )));
        assert(terminated(parts, k - 1) + (parts[k - 1] + seq!['\n']) == terminated(parts, k));
    }
}

/// A text is its lines with their endings: cutting a text into lines loses
/// nothing of it.
pub proof fn lemma_unlines_lines(s: Seq<char>)
    ensures
        lines(s).len() == line_ends(s).len(),
        with_ends(lines(s), line_ends(s)) == s,
{
    let sep = seq!['\n'];
    let parts = split(s, sep);
    lemma_split_len(s, sep);
    let n = parts.len() as int;
    lemma_join_split(s, sep);
    lemma_join_terminated(parts, n - 1);
    assert(parts.take(n) == parts);
    lemma_unlines_terminated(s, n - 1);
    if parts.last().len() == 0 {
        assert(terminated(parts, n - 1) + parts[n - 1] == terminated(parts, n - 1));
    } else {
        assert(lines(s)[n - 1] == parts[n - 1]);
        assert(line_ends(s)[n - 1] == Seq::<char>::empty());
        assert(unlines(lines(s), line_ends(s), n - 1) + parts[n - 1] + Seq::<char>::empty()
            == terminated(parts, n - 1) + parts[n - 1]);
    }
}

/// Whether lines and endings are such as a text has them: no line holds a
/// line feed; an ending is a line feed, with a carriage return before it or,
/// where the line does not end in one, without; and only the last line may be
/// without ending, and then is not empty.
pub open spec fn well_ended(ls: Seq<Seq<char>>, es: Seq<Seq<char>>) -> bool {
    &&& ls.len() == es.len()
    &&& forall|i: int| 0 <= i < ls.len() ==> !(#[trigger] ls[i]).contains('\n')
    &&& forall|i: int|
        0 <= i < ls.len() ==> (#[trigger] es[i]) == "\r\n"@ || (es[i] == "\n"@ && strip_cr(ls[i])
            == ls[i]) || (es[i].len() == 0 && i == ls.len() - 1 && ls[i].len() > 0)
}

/// The lines of a text and their endings are such as a text has them.
pub proof fn lemma_lines_well_ended(s: Seq<char>)
    ensures
        well_ended(lines(s), line_ends(s)),
{
    reveal_strlit("\n");
    reveal_strlit("\r\n");
    let parts = split(s, seq!['\n']);
    lemma_split_len(s, seq!['\n']);
    lemma_lines_lack_feed(s);
    let ls = lines(s);
    let es = line_ends(s);
    assert forall|i: int| 0 <= i < ls.len() implies (#[trigger] es[i]) == "\r\n"@ || (es[i]
        == "\n"@ && strip_cr(ls[i]) == ls[i]) || (es[i].len() == 0 && i == ls.len() - 1
        && ls[i].len() > 0) by {
        if i < parts.len() - 1 {
            assert(ls[i] == strip_cr(parts[i]));
            assert(es[i] == ending_of(parts[i]));
        } else {
            assert(ls[i] == parts.last());
        }
    }
}

/// The piece of a text that a line with its ending is: the line, with the
/// carriage return of its ending after it.
pub open spec fn piece_of(line: Seq<char>, end: Seq<char>) -> Seq<char> {
    if end == "\r\n"@ {
        line.push('\r')
    } else {
        line
    }
}

/// The pieces between the line feeds of the text that the lines with their
/// endings make.
pub open spec fn pieces_of(ls: Seq<Seq<char>>, es: Seq<Seq<char>>) -> Seq<Seq<char>> {
    let body = Seq::new(ls.len(), |i: int| piece_of(ls[i], es[i]));
    if ls.len() > 0 && es.last().len() == 0 {
        body
    } else {
        body.push(Seq::empty())
    }
}

proof fn lemma_unlines_pieces(ls: Seq<Seq<char>>, es: Seq<Seq<char>>, k: int)
    requires
        well_ended(ls, es),
        0 <= k <= ls.len(),
        forall|i: int| 0 <= i < k ==> (#[trigger] es[i]).len() > 0,
    ensures
        unlines(ls, es, k) == terminated(pieces_of(ls, es), k),
    decreases k,
{
    reveal_strlit("\n");
    reveal_strlit("\r\n");
    if k > 0 {
        lemma_unlines_pieces(ls, es, k - 1);
        let q = pieces_of(ls, es);
        assert(q[k - 1] == piece_of(ls[k - 1], es[k - 1]));
        assert(es[k - 1].len() > 0);
        assert(ls[k - 1] + es[k - 1] =~= q[k - 1] + seq!['\n']);
        assert(unlines(ls, es, k - 1) + ls[k - 1] + es[k - 1] == unlines(ls, es, k - 1) + (ls[k
            - 1] + es[k - 1]));
        assert(terminated(q, k - 1) + (q[k - 1] + seq!['\n']) == terminated(q, k));
    }
}

/// Lines with endings such as a text has them are the lines, with those
/// endings, of the text that they make.
pub proof fn lemma_lines_of_unlines(ls: Seq<Seq<char>>, es: Seq<Seq<char>>)
    requires
        well_ended(ls, es),
    ensures
        lines(with_ends(ls, es)) == ls,
        line_ends(with_ends(ls, es)) == es,
{
    reveal_strlit("\n");
    reveal_strlit("\r\n");
    let n = ls.len() as int;
    let q = pieces_of(ls, es);
    let text = with_ends(ls, es);
    let unended = n > 0 && es.last().len() == 0;
    assert forall|i: int| 0 <= i < q.len() implies !(#[trigger] q[i]).contains('\n') by {
        if i < n {
            assert(q[i] == piece_of(ls[i], es[i]));
            assert(!ls[i].contains('\n'));
            if es[i] == "\r\n"@ {
                lemma_concat_lacks(ls[i], seq!['\r'], '\n');
                assert(ls[i].push('\r') == ls[i] + seq!['\r']);
            }
        }
    }
    assert forall|i: int| 0 <= i < n - 1 implies (#[trigger] es[i]).len() > 0 by {}
    if unended {
        lemma_unlines_pieces(ls, es, n - 1);
        lemma_join_terminated(q, n - 1);
        assert(q.take(n) == q);
        assert(q[n - 1] == ls[n - 1]);
        assert(unlines(ls, es, n) == unlines(ls, es, n - 1) + ls[n - 1] + es[n - 1]);
        assert(unlines(ls, es, n - 1) + ls[n - 1] + es[n - 1] == unlines(ls, es, n - 1) + ls[n
            - 1]);
        assert(text == join(q, seq!['\n']));
    } else {
        assert forall|i: int| 0 <= i < n implies (#[trigger] es[i]).len() > 0 by {}
        lemma_unlines_pieces(ls, es, n);
        lemma_join_terminated(q, n);
        assert(q.take(n + 1) == q);
        assert(terminated(q, n) + q[n] == terminated(q, n));
        assert(text == join(q, seq!['\n']));
    }
    lemma_split_join(q, '\n');
    let parts = split(text, seq!['\n']);
    assert(parts == q);
    let got = lines(text);
    let got_ends = line_ends(text);
    assert(got.len() == n);
    assert(got_ends.len() == n);
    assert forall|i: int| 0 <= i < n implies got[i] == ls[i] && got_ends[i] == es[i] by {
        if es[i].len() > 0 {
            assert(i < q.len() - 1);
            assert(got[i] == strip_cr(q[i]));
            assert(got_ends[i] == ending_of(q[i]));
            if es[i] == "\r\n"@ {
                assert(q[i] == ls[i].push('\r'));
                assert(q[i].drop_last() == ls[i]);
            } else {
                assert(q[i] == ls[i]);
                assert(strip_cr(ls[i]) == ls[i]);
                if ls[i].len() > 0 && ls[i].last() == '\r' {
                    assert(ls[i].drop_last().len() != ls[i].len());
                }
            }
        } else {
            assert(i == n - 1);
            assert(got[i] == q.last());
        }
    }
    assert(got =~= ls);
    assert(got_ends =~= es);
}

} // verus!
