//! Reading a deployment script, writing a new one, and changing the
//! environment variables of one that exists without touching its other lines.

use crate::models::{DeploymentScript, EnvVar, PortMapping, VolumeMount};
use crate::models::docker::container::PortView;
use crate::models::docker::script::{
    distinct_keys, has_key, key_index, secret_key, EnvVarView, ScriptView, VolumeView,
};
use crate::number::{decimal, parse_u16, push_decimal, read_u16};
use crate::pattern::{
    captures_all, captures_first, escape, escaped, group, group_of, groups_view, is_match,
    matches_view, regex_all, regex_first, whole_in_text, Found, Groups,
};
use crate::search::{
    begins_with, contains, ends_with, finishes_with, has_str, join, join_with, lemma_concat_lacks,
    lemma_lines_around, lemma_lines_of_unlines, lemma_lines_well_ended, lemma_part_lacks,
    lemma_unlines_lines, line_ends, lines, lines_and_ends, lines_of, occurs_at, same_but_at, split,
    starts_with, strip_cr, unlines_of, with_ends,
};
use crate::text::{
    append, append_str, append_texts, chars_of, copy_chars, copy_str, lead, lead_len, lemma_lead,
    lemma_replace_lacks, lemma_trail, opt_view, replace_char, replace_each, slice_of, string_of,
    trim, trim_end, trim_end_in, trim_in, trim_start, trim_start_in, trim_ws, uppercase, views,
    CharSet, Class,
};
use vstd::prelude::*;

verus! {

/// A value between double quotes as a shell reads them: each backslash and each
/// double quote in it has a backslash before it.
pub open spec fn shell_quoted(value: Seq<char>) -> Seq<char> {
    seq!['"'] + replace_char(replace_char(value, '\\', "\\\\"@), '"', "\\\""@) + seq!['"']
}

/// Whether a text stands between two double quotes.
pub open spec fn in_quotes(q: Seq<char>) -> bool {
    q.len() >= 2 && q.first() == '"' && q.last() == '"'
}

/// Every value is written between double quotes: the empty one and one with a
/// space, a `$` or a double quote in it as any other. This holds where a
/// variable is added to a script, where its value is replaced, and in the line
/// of a new script that sets it.
pub proof fn lemma_values_are_quoted(key: Seq<char>, value: Seq<char>)
    ensures
        in_quotes(shell_quoted(value)),
        in_quotes(value_in_quotes(value)),
        env_flag(key, value) == "-e "@ + key + "="@ + shell_quoted(value),
        env_line(EnvVarView { key, value, is_secret: false }) == "  -e "@ + key + "="@ + (seq!['"']
            + value + seq!['"']),
        in_quotes(seq!['"'] + value + seq!['"']),
{
    reveal_strlit("=\"");
    reveal_strlit("=");
    reveal_strlit("\"");
    assert("=\""@ =~= "="@ + seq!['"']);
    assert("\""@ =~= seq!['"']);
    assert("  -e "@ + key + "=\""@ + value + "\""@ =~= "  -e "@ + key + "="@ + (seq!['"'] + value
        + seq!['"']));
}

/// The value between double quotes, for use in a shell script.
pub fn quote_chars(value: &Vec<char>) -> (r: Vec<char>)
    ensures
        r@ == shell_quoted(value@),
{
    let a = replace_each(value, '\\', "\\\\");
    let b = replace_each(&a, '"', "\\\"");
    let mut out: Vec<char> = Vec::new();
    out.push('"');
    append(&mut out, &b);
    out.push('"');
    assert(out@ == shell_quoted(value@));
    out
}

/// The value between double quotes, for use in a shell script.
pub fn escape_shell_value(value: &str) -> (r: String)
    ensures
        r@ == shell_quoted(value@),
        in_quotes(r@),
{
    string_of(&quote_chars(&chars_of(value)))
}

/// What a line of a script can be to the search for a place to insert.
#[derive(Clone, Copy, PartialEq, Eq, Structural)]
pub enum Mark {
    /// The line sets an environment variable: it holds `-e` and a space, or
    /// begins with `-e`.
    Env,
    /// The line begins with a flag: `-p`, `-v` or two dashes.
    Flag,
    /// The line names the image at the end of a continued command: it begins
    /// with `$` or holds `$REPO`, has no `=`, and the line before it ends in a
    /// backslash.
    Image,
    /// The line begins with `docker start`.
    Start,
}

/// Whether line `i` is what `mark` says, leading and trailing white space aside.
pub open spec fn marked(ls: Seq<Seq<char>>, i: int, mark: Mark) -> bool {
    let t = trim(ls[i], Class::Space);
    match mark {
        Mark::Env => contains(t, "-e "@) || starts_with(t, "-e"@),
        Mark::Flag => starts_with(t, "-p"@) || starts_with(t, "-v"@) || starts_with(t, "--"@),
        Mark::Image => (starts_with(t, "$"@) || contains(t, "$REPO"@)) && !contains(t, "="@) && i
            > 0 && ends_with(trim_end(ls[i - 1], Class::Space), "\\"@),
        Mark::Start => starts_with(t, "docker start"@),
    }
}

/// The last of the first `n` lines that is what `mark` says.
pub open spec fn last_marked(ls: Seq<Seq<char>>, mark: Mark, n: int) -> Option<int>
    decreases n,
{
    if n <= 0 {
        None
    } else if marked(ls, n - 1, mark) {
        Some(n - 1)
    } else {
        last_marked(ls, mark, n - 1)
    }
}

/// The first line from index `from` on that is what `mark` says.
pub open spec fn first_marked(ls: Seq<Seq<char>>, mark: Mark, from: int) -> Option<int>
    decreases ls.len() - from,
{
    if from >= ls.len() {
        None
    } else if marked(ls, from, mark) {
        Some(from)
    } else {
        first_marked(ls, mark, from + 1)
    }
}

/// The line after which a new variable goes: the last line that sets a
/// variable, else the last that begins with a flag, else the line before the
/// last one that names the image.
pub open spec fn anchor(ls: Seq<Seq<char>>) -> Option<int> {
    let n = ls.len() as int;
    if last_marked(ls, Mark::Env, n) is Some {
        last_marked(ls, Mark::Env, n)
    } else if last_marked(ls, Mark::Flag, n) is Some {
        last_marked(ls, Mark::Flag, n)
    } else {
        match last_marked(ls, Mark::Image, n) {
            Some(i) => Some(i - 1),
            None => None,
        }
    }
}

/// The white space at the start of a line.
pub open spec fn indent_of(line: Seq<char>) -> Seq<char> {
    line.take(lead(line, Class::Space) as int)
}

/// The white space that a new variable's line begins with: that of the last
/// line that sets a variable, else that of the last that begins with a flag,
/// else two spaces.
pub open spec fn new_indent(ls: Seq<Seq<char>>) -> Seq<char> {
    let n = ls.len() as int;
    match last_marked(ls, Mark::Env, n) {
        Some(i) => indent_of(ls[i]),
        None => match last_marked(ls, Mark::Flag, n) {
            Some(i) => indent_of(ls[i]),
            None => "  "@,
        },
    }
}

/// The flag that sets `key` to `value`.
pub open spec fn env_flag(key: Seq<char>, value: Seq<char>) -> Seq<char> {
    "-e "@ + key + "="@ + shell_quoted(value)
}

/// A line made to continue on the next: unchanged where a backslash ends it,
/// trailing white space aside, else with a space and a backslash in place of
/// its trailing white space.
pub open spec fn continued(line: Seq<char>) -> Seq<char> {
    if ends_with(trim_end(line, Class::Space), "\\"@) {
        line
    } else {
        trim_end(line, Class::Space) + " \\"@
    }
}

/// Whether the line after line `a` goes on with the command: there is one, and
/// it is neither blank nor a comment.
pub open spec fn goes_on_after(ls: Seq<Seq<char>>, a: int) -> bool {
    a + 1 < ls.len() && trim(ls[a + 1], Class::Space).len() > 0 && !starts_with(
        trim(ls[a + 1], Class::Space),
        "#"@,
    )
}

/// The lines with `line` put in after line `a`, which is made to continue; the
/// new line continues too where the command goes on after it.
pub open spec fn inserted_after(ls: Seq<Seq<char>>, a: int, line: Seq<char>) -> Seq<Seq<char>> {
    ls.take(a) + seq![
        continued(ls[a]),
        if goes_on_after(ls, a) {
            line + " \\"@
        } else {
            line
        },
    ] + ls.skip(a + 1)
}

/// The lines with `line` put in before line `i`.
pub open spec fn inserted_before(ls: Seq<Seq<char>>, i: int, line: Seq<char>) -> Seq<Seq<char>> {
    ls.take(i) + seq![line] + ls.skip(i)
}

/// An ending for a line that is followed by another: the ending itself, or a
/// line feed where the line had none.
pub open spec fn end_or_feed(end: Seq<char>) -> Seq<char> {
    if end.len() > 0 {
        end
    } else {
        "\n"@
    }
}

/// The endings of the lines once a line is put in after line `a`: the new line
/// takes the ending of line `a`, which gets a line feed where it had none.
pub open spec fn ends_after(es: Seq<Seq<char>>, a: int) -> Seq<Seq<char>> {
    es.take(a) + seq![end_or_feed(es[a]), es[a]] + es.skip(a + 1)
}

/// The endings of the lines once a line is put in before line `i`: the new
/// line ends as line `i` does, with a line feed where that has no ending.
pub open spec fn ends_before(es: Seq<Seq<char>>, i: int) -> Seq<Seq<char>> {
    es.take(i) + seq![end_or_feed(es[i])] + es.skip(i)
}

/// The script text with a variable added. The new line goes after the anchor
/// line; where no line is an anchor, before the first `docker start` line;
/// where there is none either, the text stays as it is. Every other line
/// keeps its ending, and so the text around the new line is as it was.
pub open spec fn with_env_var(content: Seq<char>, key: Seq<char>, value: Seq<char>) -> Seq<char> {
    let ls = lines(content);
    let es = line_ends(content);
    match anchor(ls) {
        Some(a) => with_ends(
            inserted_after(ls, a, new_indent(ls) + env_flag(key, value)),
            ends_after(es, a),
        ),
        None => match first_marked(ls, Mark::Start, 0) {
            Some(i) => with_ends(
                inserted_before(ls, i, "  "@ + env_flag(key, value) + " \\"@),
                ends_before(es, i),
            ),
            None => content,
        },
    }
}

/// Whether line `i` is what `mark` says.
pub fn is_marked(ls: &Vec<Vec<char>>, i: usize, mark: Mark) -> (r: bool)
    requires
        i < ls.len(),
    ensures
        r == marked(views(ls@), i as int, mark),
{
    let t = trim_ws(&ls[i]);
    match mark {
        Mark::Env => has_str(&t, "-e ") || begins_with(&t, "-e"),
        Mark::Flag => begins_with(&t, "-p") || begins_with(&t, "-v") || begins_with(&t, "--"),
        Mark::Image => {
            if i == 0 {
                return false;
            }
            let prev = trim_end_in(&ls[i - 1], &CharSet::Space);
            (begins_with(&t, "$") || has_str(&t, "$REPO")) && !has_str(&t, "=") && finishes_with(
                &prev,
                "\\",
            )
        },
        Mark::Start => begins_with(&t, "docker start"),
    }
}

/// The last line that is what `mark` says.
pub fn find_last_marked(ls: &Vec<Vec<char>>, mark: Mark) -> (r: Option<usize>)
    ensures
        match r {
            Some(i) => last_marked(views(ls@), mark, ls.len() as int) == Some(i as int) && i
                < ls.len() && marked(views(ls@), i as int, mark),
            None => last_marked(views(ls@), mark, ls.len() as int) is None,
        },
{
    let mut last: Option<usize> = None;
    let mut i: usize = 0;
    while i < ls.len()
        invariant
            i <= ls.len(),
            match last {
                Some(k) => last_marked(views(ls@), mark, i as int) == Some(k as int) && k
                    < ls.len() && marked(views(ls@), k as int, mark),
                None => last_marked(views(ls@), mark, i as int) is None,
            },
        decreases ls.len() - i,
    {
        if is_marked(ls, i, mark) {
            last = Some(i);
        }
        i += 1;
    }
    last
}

/// The first line that is what `mark` says.
pub fn find_first_marked(ls: &Vec<Vec<char>>, mark: Mark) -> (r: Option<usize>)
    ensures
        match r {
            Some(i) => first_marked(views(ls@), mark, 0) == Some(i as int) && i < ls.len(),
            None => first_marked(views(ls@), mark, 0) is None,
        },
{
    let mut i: usize = 0;
    while i < ls.len()
        invariant
            i <= ls.len(),
            first_marked(views(ls@), mark, 0) == first_marked(views(ls@), mark, i as int),
        decreases ls.len() - i,
    {
        if is_marked(ls, i, mark) {
            return Some(i);
        }
        i += 1;
    }
    None
}

/// The white space at the start of a line.
pub fn indent(line: &Vec<char>) -> (r: Vec<char>)
    ensures
        r@ == indent_of(line@),
{
    let n = lead_len(line, &CharSet::Space);
    slice_of(line, 0, n)
}

/// The flag that sets `key` to `value`.
pub fn env_flag_chars(key: &str, value: &str) -> (r: Vec<char>)
    ensures
        r@ == env_flag(key@, value@),
{
    let mut out = chars_of("-e ");
    append_str(&mut out, key);
    append_str(&mut out, "=");
    append(&mut out, &quote_chars(&chars_of(value)));
    assert(out@ == env_flag(key@, value@));
    out
}

/// The line made to continue on the next.
pub fn continue_line(line: &Vec<char>) -> (r: Vec<char>)
    ensures
        r@ == continued(line@),
{
    let mut t = trim_end_in(line, &CharSet::Space);
    if finishes_with(&t, "\\") {
        copy_chars(line)
    } else {
        append_str(&mut t, " \\");
        t
    }
}

/// Adds the variable `key` with `value` to the script text, on a line of its
/// own after the last line that sets a variable or begins with a flag, and
/// leaves every other line but the one before it as it is.
pub fn add_env_var(content: &str, key: &str, value: &str) -> (r: String)
    ensures
        r@ == with_env_var(content@, key@, value@),
{
    proof {
        reveal_strlit("\n");
    }
    let (ls, es) = lines_and_ends(&chars_of(content));
    assert(views(es@).len() == es.len());
    let last_env = find_last_marked(&ls, Mark::Env);
    let last_flag = find_last_marked(&ls, Mark::Flag);
    let image = find_last_marked(&ls, Mark::Image);
    let after: Option<usize> = match last_env {
        Some(i) => Some(i),
        None => match last_flag {
            Some(i) => Some(i),
            None => match image {
                Some(i) => Some((i - 1) as usize),
                None => None,
            },
        },
    };
    assert(match after {
        Some(a) => anchor(views(ls@)) == Some(a as int),
        None => anchor(views(ls@)) is None,
    });
    let flag = env_flag_chars(key, value);
    match after {
        Some(a) => {
            let mut line = match last_env {
                Some(i) => indent(&ls[i]),
                None => match last_flag {
                    Some(i) => indent(&ls[i]),
                    None => chars_of("  "),
                },
            };
            assert(line@ == new_indent(views(ls@)));
            append(&mut line, &flag);
            let ghost new_line = line@;
            let goes_on = a + 1 < ls.len() && {
                let next = trim_ws(&ls[a + 1]);
                next.len() > 0 && !begins_with(&next, "#")
            };
            assert(goes_on == goes_on_after(views(ls@), a as int));
            if goes_on {
                append_str(&mut line, " \\");
            }
            let mut out: Vec<Vec<char>> = Vec::new();
            append_texts(&mut out, &ls, 0, a);
            out.push(continue_line(&ls[a]));
            out.push(line);
            assert(views(out@) == views(ls@).take(a as int) + seq![
                continued(views(ls@)[a as int]),
                if goes_on_after(views(ls@), a as int) {
                    new_line + " \\"@
                } else {
                    new_line
                },
            ]);
            append_texts(&mut out, &ls, a + 1, ls.len());
            assert(views(ls@).subrange(a + 1, ls.len() as int) == views(ls@).skip(a + 1));
            assert(views(out@) == inserted_after(views(ls@), a as int, new_line));
            let mut ends: Vec<Vec<char>> = Vec::new();
            append_texts(&mut ends, &es, 0, a);
            assert(views(es@)[a as int] == es@[a as int]@);
            let anchor_end = if es[a].len() > 0 {
                copy_chars(&es[a])
            } else {
                chars_of("\n")
            };
            ends.push(anchor_end);
            ends.push(copy_chars(&es[a]));
            assert(views(ends@) == views(es@).take(a as int) + seq![
                end_or_feed(views(es@)[a as int]),
                views(es@)[a as int],
            ]);
            append_texts(&mut ends, &es, a + 1, es.len());
            assert(views(es@).subrange(a + 1, es.len() as int) == views(es@).skip(a + 1));
            assert(views(ends@) == ends_after(views(es@), a as int));
            assert(views(out@).len() == out.len());
            assert(views(ends@).len() == ends.len());
            string_of(&unlines_of(&out, &ends))
        },
        None => match find_first_marked(&ls, Mark::Start) {
            Some(i) => {
                let mut line = chars_of("  ");
                append(&mut line, &flag);
                append_str(&mut line, " \\");
                let mut out: Vec<Vec<char>> = Vec::new();
                append_texts(&mut out, &ls, 0, i);
                out.push(line);
                assert(views(out@) == views(ls@).take(i as int) + seq![
                    "  "@ + env_flag(key@, value@) + " \\"@,
                ]);
                append_texts(&mut out, &ls, i, ls.len());
                assert(views(ls@).subrange(i as int, ls.len() as int) == views(ls@).skip(
                    i as int,
                ));
                let mut ends: Vec<Vec<char>> = Vec::new();
                append_texts(&mut ends, &es, 0, i);
                assert(views(es@)[i as int] == es@[i as int]@);
                let new_end = if es[i].len() > 0 {
                    copy_chars(&es[i])
                } else {
                    chars_of("\n")
                };
                ends.push(new_end);
                assert(views(ends@) == views(es@).take(i as int) + seq![
                    end_or_feed(views(es@)[i as int]),
                ]);
                append_texts(&mut ends, &es, i, es.len());
                assert(views(es@).subrange(i as int, es.len() as int) == views(es@).skip(
                    i as int,
                ));
                assert(views(ends@) == ends_before(views(es@), i as int));
                assert(views(out@).len() == out.len());
                assert(views(ends@).len() == ends.len());
                string_of(&unlines_of(&out, &ends))
            },
            None => string_of(&chars_of(content)),
        },
    }
}

/// The pattern that finds the flag for `key` in a line.
pub open spec fn removal_pattern(key: Seq<char>) -> Seq<char> {
    "-e\\s*"@ + escaped(key) + "="@
}

/// Whether a line sets `key`: the flag's pattern matches in it, leading and
/// trailing white space aside.
pub open spec fn sets_key(line: Seq<char>, key: Seq<char>) -> bool {
    regex_first(removal_pattern(key), trim(line, Class::Space)).is_some()
}

/// Whether line `i` is one to take out.
pub open spec fn hit(hits: Seq<bool>, i: int) -> bool {
    0 <= i < hits.len() && hits[i]
}

/// Whether one of the first `n` lines is one to take out.
pub open spec fn any_hit(hits: Seq<bool>, n: int) -> bool {
    exists|i: int| 0 <= i < n && hit(hits, i)
}

/// Whether the command still goes on once line `i` is gone: the line itself
/// ends in a backslash, white space at its end aside, and the line after it
/// is not blank.
pub open spec fn more_after(ls: Seq<Seq<char>>, i: int) -> bool {
    ends_with(trim_end(ls[i], Class::Space), "\\"@) && i + 1 < ls.len() && trim(
        ls[i + 1],
        Class::Space,
    ).len() > 0
}

/// A line without the backslashes that end it and the white space around them.
pub open spec fn uncontinued(line: Seq<char>) -> Seq<char> {
    trim_end(
        trim_end(trim_end(line, Class::Space), Class::AnyOf(seq!['\\'])),
        Class::Space,
    )
}

/// What is kept of the first `n` lines: each line that is not taken out, as it
/// is. Where a line is taken out and the command does not go on after it, the
/// kept line before it no longer continues; where the command goes on, that
/// line keeps its backslash.
pub open spec fn kept_lines(ls: Seq<Seq<char>>, hits: Seq<bool>, n: int) -> Seq<Seq<char>>
    decreases n,
{
    if n <= 0 {
        Seq::empty()
    } else {
        let prev = kept_lines(ls, hits, n - 1);
        if !hit(hits, n - 1) {
            prev.push(ls[n - 1])
        } else if prev.len() > 0 && ends_with(trim_end(prev.last(), Class::Space), "\\"@)
            && !more_after(ls, n - 1) {
            prev.update(prev.len() - 1, uncontinued(prev.last()))
        } else {
            prev
        }
    }
}

/// The endings of the lines among the first `n` that are not taken out.
pub open spec fn kept_ends(es: Seq<Seq<char>>, hits: Seq<bool>, n: int) -> Seq<Seq<char>>
    decreases n,
{
    if n <= 0 {
        Seq::empty()
    } else if hit(hits, n - 1) {
        kept_ends(es, hits, n - 1)
    } else {
        kept_ends(es, hits, n - 1).push(es[n - 1])
    }
}

/// The text without the lines to take out: as it is where there is none. A
/// line goes with its ending, and every line that stays keeps its own.
pub open spec fn without_lines(content: Seq<char>, hits: Seq<bool>) -> Seq<char> {
    let ls = lines(content);
    let es = line_ends(content);
    if any_hit(hits, ls.len() as int) {
        with_ends(kept_lines(ls, hits, ls.len() as int), kept_ends(es, hits, ls.len() as int))
    } else {
        content
    }
}

/// For each line, whether it sets `key`.
pub open spec fn key_hits(ls: Seq<Seq<char>>, key: Seq<char>) -> Seq<bool> {
    Seq::new(ls.len(), |i: int| sets_key(ls[i], key))
}

/// The script text without the lines that set `key`.
pub open spec fn without_env_var(content: Seq<char>, key: Seq<char>) -> Seq<char> {
    without_lines(content, key_hits(lines(content), key))
}

/// A line without the backslashes that end it.
pub fn uncontinue(line: &Vec<char>) -> (r: Vec<char>)
    ensures
        r@ == uncontinued(line@),
{
    proof {
        reveal_strlit("\\");
        assert("\\"@ =~= seq!['\\']);
    }
    let a = trim_end_in(line, &CharSet::Space);
    let b = trim_end_in(&a, &CharSet::any_of("\\"));
    trim_end_in(&b, &CharSet::Space)
}

/// Takes out of the text the lines that `hits` marks, one flag per line, and
/// mends the continuation of the line before each. Every other line stays as
/// it is, with its ending.
pub fn remove_lines(content: &str, hits: &Vec<bool>) -> (r: String)
    ensures
        r@ == without_lines(content@, hits@),
{
    let (ls, es) = lines_and_ends(&chars_of(content));
    let mut out: Vec<Vec<char>> = Vec::new();
    let mut ends: Vec<Vec<char>> = Vec::new();
    let mut found = false;
    let mut i: usize = 0;
    while i < ls.len()
        invariant
            i <= ls.len(),
            ls.len() == es.len(),
            out.len() == ends.len(),
            views(ls@) == lines(content@),
            views(es@) == line_ends(content@),
            views(out@) == kept_lines(views(ls@), hits@, i as int),
            views(ends@) == kept_ends(views(es@), hits@, i as int),
            found == any_hit(hits@, i as int),
        decreases ls.len() - i,
    {
        let ghost before = views(out@);
        let ghost ends_before = views(ends@);
        let is_hit = i < hits.len() && hits[i];
        if !is_hit {
            out.push(copy_chars(&ls[i]));
            ends.push(copy_chars(&es[i]));
            assert(views(out@) == before.push(ls@[i as int]@));
            assert(views(ends@) == ends_before.push(es@[i as int]@));
        } else {
            found = true;
            if out.len() > 0 {
                let last = out.len() - 1;
                let goes_on = finishes_with(&trim_end_in(&ls[i], &CharSet::Space), "\\") && i + 1
                    < ls.len() && trim_ws(&ls[i + 1]).len() > 0;
                assert(goes_on == more_after(views(ls@), i as int));
                let continues = finishes_with(&trim_end_in(&out[last], &CharSet::Space), "\\");
                assert(before.last() == out@[last as int]@);
                if continues && !goes_on {
                    let mended = uncontinue(&out[last]);
                    out.set(last, mended);
                    assert(views(out@) == before.update(
                        before.len() - 1,
                        uncontinued(before.last()),
                    ));
                }
            }
        }
        proof {
            if any_hit(hits@, i as int) {
                let k = choose|k: int| 0 <= k < i && hit(hits@, k);
                assert(0 <= k < i + 1 && hit(hits@, k));
            }
            if is_hit {
                assert(0 <= i < i + 1 && hit(hits@, i as int));
            }
            if any_hit(hits@, i + 1) && !is_hit {
                let k = choose|k: int| 0 <= k < i + 1 && hit(hits@, k);
                assert(0 <= k < i && hit(hits@, k));
            }
        }
        i += 1;
    }
    if found {
        assert(views(out@).len() == out.len());
        string_of(&unlines_of(&out, &ends))
    } else {
        crate::text::copy_str(content)
    }
}

/// Takes the lines that set `key` out of the script text and mends the
/// continuation of the line before each. A text in which no line sets the key
/// comes back as it is.
pub fn remove_env_var(content: &str, key: &str) -> (r: String)
    ensures
        r@ == without_env_var(content@, key@),
{
    let mut pattern = chars_of("-e\\s*");
    append_str(&mut pattern, escape(key).as_str());
    append_str(&mut pattern, "=");
    let pattern = string_of(&pattern);
    assert(pattern@ == removal_pattern(key@));
    let ls = lines_of(&chars_of(content));
    let mut hits: Vec<bool> = Vec::new();
    let mut i: usize = 0;
    while i < ls.len()
        invariant
            i <= ls.len(),
            pattern@ == removal_pattern(key@),
            hits@ == key_hits(views(ls@), key@).take(i as int),
        decreases ls.len() - i,
    {
        let t = string_of(&trim_ws(&ls[i]));
        hits.push(is_match(pattern.as_str(), t.as_str()));
        i += 1;
        assert(hits@ == key_hits(views(ls@), key@).take(i as int));
    }
    assert(key_hits(views(ls@), key@).take(ls.len() as int) == key_hits(views(ls@), key@));
    remove_lines(content, &hits)
}

/// The patterns that find the flag for `key` with its value, in the order in
/// which they are tried: a value in double quotes, in single quotes, then a
/// bare one, each first with white space after `-e` and then without.
pub open spec fn update_patterns(key: Seq<char>) -> Seq<Seq<char>> {
    let k = escaped(key);
    seq![
        "(-e\\s+"@ + k + "=)\"([^\"]*)\""@,
        "(-e\\s+"@ + k + "=)'([^']*)'"@,
        "(-e\\s+"@ + k + "=)([^\\s\\\\]+)"@,
        "(-e"@ + k + "=)\"([^\"]*)\""@,
        "(-e"@ + k + "=)'([^']*)'"@,
        "(-e"@ + k + "=)([^\\s\\\\]+)"@,
    ]
}

/// A value between double quotes with a backslash before each backslash and
/// each `$` in it.
pub open spec fn value_in_quotes(value: Seq<char>) -> Seq<char> {
    seq!['"'] + replace_char(replace_char(value, '\\', "\\\\"@), '$', "\\$"@) + seq!['"']
}

/// The text in which a match stands, with the match replaced by its group 1
/// and the new value in quotes.
pub open spec fn respliced(
    f: (Seq<char>, Seq<Option<Seq<char>>>, Seq<char>),
    value: Seq<char>,
) -> Seq<char> {
    f.0 + (match group(f.1, 1) {
        Some(head) => head,
        None => Seq::empty(),
    }) + value_in_quotes(value) + f.2
}

/// The script text with the value of `key` replaced where the first of the
/// patterns from index `n` on that matches has found it; as it is where none
/// matches.
pub open spec fn updated_from(
    content: Seq<char>,
    key: Seq<char>,
    value: Seq<char>,
    n: int,
) -> Seq<char>
    decreases update_patterns(key).len() - n,
{
    if n < 0 || n >= update_patterns(key).len() {
        content
    } else {
        match regex_first(update_patterns(key)[n], content) {
            Some(f) => respliced(f, value),
            None => updated_from(content, key, value, n + 1),
        }
    }
}

/// The script text with the value of `key` replaced by `value`.
pub open spec fn with_value(content: Seq<char>, key: Seq<char>, value: Seq<char>) -> Seq<char> {
    updated_from(content, key, value, 0)
}

/// The value is replaced where the first pattern that matches has found the
/// flag: where the patterns before pattern `n` match nowhere and pattern `n`
/// matches, the text is the one in which that match is replaced.
pub proof fn lemma_update_uses_first_match(
    content: Seq<char>,
    key: Seq<char>,
    value: Seq<char>,
    n: int,
)
    requires
        0 <= n < update_patterns(key).len(),
    ensures
        (forall|j: int|
            0 <= j < n ==> regex_first(#[trigger] update_patterns(key)[j], content) is None)
            ==> with_value(content, key, value) == updated_from(content, key, value, n),
        (forall|j: int|
            0 <= j < n ==> regex_first(#[trigger] update_patterns(key)[j], content) is None)
            ==> (regex_first(update_patterns(key)[n], content) matches Some(f) ==> with_value(
            content,
            key,
            value,
        ) == respliced(f, value)),
    decreases n,
{
    if n > 0 {
        lemma_update_uses_first_match(content, key, value, n - 1);
        if forall|j: int|
            0 <= j < n ==> regex_first(#[trigger] update_patterns(key)[j], content) is None {
            assert(regex_first(update_patterns(key)[n - 1], content) is None);
            assert(updated_from(content, key, value, n - 1) == updated_from(
                content,
                key,
                value,
                n,
            ));
        }
    }
    assert(updated_from(content, key, value, n) == (match regex_first(
        update_patterns(key)[n],
        content,
    ) {
        Some(f) => respliced(f, value),
        None => updated_from(content, key, value, n + 1),
    }));
}

/// Replacing the value of a variable changes one line and no other: the
/// lines of the text before and after are alike but for the line in which the
/// flag was found. This holds where the flag found stands on one line and the
/// new value holds no line feed.
pub proof fn lemma_update_touches_one_line(
    content: Seq<char>,
    f: (Seq<char>, Seq<Option<Seq<char>>>, Seq<char>),
    value: Seq<char>,
)
    requires
        whole_in_text(f, content),
        f.1[0].unwrap().len() > 0,
        !f.1[0].unwrap().contains('\n'),
        !value.contains('\n'),
    ensures
        same_but_at(
            lines(content),
            lines(respliced(f, value)),
            split(f.0, seq!['\n']).len() - 1,
        ),
{
    let whole = f.1[0].unwrap();
    let head = match group(f.1, 1) {
        Some(head) => head,
        None => Seq::empty(),
    };
    assert(!head.contains('\n')) by {
        if group(f.1, 1) is Some {
            assert(f.1[1].is_some());
            assert(contains(whole, head));
            let i = choose|i: int| occurs_at(whole, head, i);
            assert forall|j: int| 0 <= j < head.len() implies head[j] != '\n' by {
                assert(head[j] == whole.subrange(i, i + head.len())[j]);
                assert(whole[i + j] != '\n');
            }
        }
    }
    reveal_strlit("\\\\");
    reveal_strlit("\\$");
    let once = replace_char(value, '\\', "\\\\"@);
    lemma_replace_lacks(value, '\\', "\\\\"@, '\n');
    lemma_replace_lacks(once, '$', "\\$"@, '\n');
    let quoted = value_in_quotes(value);
    let inner = replace_char(once, '$', "\\$"@);
    assert forall|j: int| 0 <= j < quoted.len() implies quoted[j] != '\n' by {
        if 0 < j < quoted.len() - 1 {
            assert(quoted[j] == inner[j - 1]);
        }
    }
    let y = head + quoted;
    assert forall|j: int| 0 <= j < y.len() implies y[j] != '\n' by {
        if j < head.len() {
            assert(y[j] == head[j]);
        } else {
            assert(y[j] == quoted[j - head.len()]);
        }
    }
    assert(respliced(f, value) =~= f.0 + y + f.2);
    lemma_lines_around(f.0, whole, y, f.2);
}

/// The text in which `found` stands, with the match replaced by its group 1 and
/// `value` in quotes.
pub fn replace_value(found: &Found, value: &str) -> (r: String)
    ensures
        r@ == respliced(found@, value@),
{
    let mut out = chars_of(found.before.as_str());
    match group_of(&found.groups, 1) {
        Some(head) => {
            append_str(&mut out, head.as_str());
        },
        None => {},
    }
    let a = replace_each(&chars_of(value), '\\', "\\\\");
    let b = replace_each(&a, '$', "\\$");
    out.push('"');
    append(&mut out, &b);
    out.push('"');
    append_str(&mut out, found.after.as_str());
    assert(out@ == respliced(found@, value@));
    string_of(&out)
}

/// The patterns that find the flag for `key` with its value.
pub fn update_pattern_list(key: &str) -> (r: Vec<String>)
    ensures
        views(r@) == update_patterns(key@),
{
    let k = escape(key);
    let mut out: Vec<String> = Vec::new();
    let heads = ["(-e\\s+", "(-e"];
    let tails = ["=)\"([^\"]*)\"", "=)'([^']*)'", "=)([^\\s\\\\]+)"];
    let mut h: usize = 0;
    while h < 2
        invariant
            h <= 2,
            heads@ == seq!["(-e\\s+", "(-e"],
            tails@ == seq!["=)\"([^\"]*)\"", "=)'([^']*)'", "=)([^\\s\\\\]+)"],
            k@ == escaped(key@),
            views(out@) == update_patterns(key@).take(3 * h),
        decreases 2 - h,
    {
        let mut t: usize = 0;
        while t < 3
            invariant
                h < 2,
                t <= 3,
                heads@ == seq!["(-e\\s+", "(-e"],
                tails@ == seq!["=)\"([^\"]*)\"", "=)'([^']*)'", "=)([^\\s\\\\]+)"],
                k@ == escaped(key@),
                views(out@) == update_patterns(key@).take(3 * h + t),
            decreases 3 - t,
        {
            let ghost before = views(out@);
            let mut p = chars_of(heads[h]);
            append_str(&mut p, k.as_str());
            append_str(&mut p, tails[t]);
            assert(p@ == update_patterns(key@)[3 * h + t]);
            out.push(string_of(&p));
            t += 1;
            assert(views(out@) == before.push(p@));
            assert(views(out@) == update_patterns(key@).take(3 * h + t));
        }
        h += 1;
    }
    assert(update_patterns(key@).take(6) == update_patterns(key@));
    out
}

/// Replaces the value of `key` in the script text by `value`, in double
/// quotes, where the flag for the key is found; every character outside the
/// flag stays as it is.
pub fn update_env_var(content: &str, key: &str, new_value: &str) -> (r: String)
    ensures
        r@ == with_value(content@, key@, new_value@),
{
    let patterns = update_pattern_list(key);
    let mut i: usize = 0;
    while i < patterns.len()
        invariant
            i <= patterns.len(),
            views(patterns@) == update_patterns(key@),
            with_value(content@, key@, new_value@) == updated_from(
                content@,
                key@,
                new_value@,
                i as int,
            ),
        decreases patterns.len() - i,
    {
        assert(views(patterns@)[i as int] == patterns@[i as int]@);
        match captures_first(patterns[i].as_str(), content) {
            Some(found) => {
                return replace_value(&found, new_value);
            },
            None => {},
        }
        i += 1;
    }
    crate::text::copy_str(content)
}

/// The script text after the first `n` of the variables it had were looked at:
/// those that the script no longer has are taken out.
pub open spec fn after_removals(
    content: Seq<char>,
    original: Seq<EnvVarView>,
    current: Seq<EnvVarView>,
    n: int,
) -> Seq<char>
    decreases n,
{
    if n <= 0 {
        content
    } else {
        let prev = after_removals(content, original, current, n - 1);
        if has_key(current, original[n - 1].key) {
            prev
        } else {
            without_env_var(prev, original[n - 1].key)
        }
    }
}

/// The script text after the first `n` of the variables it has now were
/// written: the value of one that it had is replaced, and one that it had not
/// is added.
pub open spec fn after_settings(
    content: Seq<char>,
    original: Seq<EnvVarView>,
    current: Seq<EnvVarView>,
    n: int,
) -> Seq<char>
    decreases n,
{
    if n <= 0 {
        content
    } else {
        let prev = after_settings(content, original, current, n - 1);
        if has_key(original, current[n - 1].key) {
            with_value(prev, current[n - 1].key, current[n - 1].value)
        } else {
            with_env_var(prev, current[n - 1].key, current[n - 1].value)
        }
    }
}

/// The text of a script brought up to its variables: first the variables that
/// it had and has no longer are taken out, then each variable it has is
/// written, in order.
pub open spec fn patched(script: ScriptView, original: Seq<EnvVarView>) -> Seq<char> {
    after_settings(
        after_removals(script.raw_content, original, script.env_vars, original.len() as int),
        original,
        script.env_vars,
        script.env_vars.len() as int,
    )
}

/// Brings the text of a script that exists up to its variables, where
/// `original_env_vars` are the variables that the text was read with. Only the
/// lines of variables that were added, changed or taken out are touched.
pub fn apply_script_changes(script: &DeploymentScript, original_env_vars: &Vec<EnvVar>) -> (r:
    String)
    ensures
        r@ == patched(script@, views(original_env_vars@)),
{
    let mut content = script.raw_content.clone();
    let mut i: usize = 0;
    while i < original_env_vars.len()
        invariant
            i <= original_env_vars.len(),
            content@ == after_removals(
                script@.raw_content,
                views(original_env_vars@),
                script@.env_vars,
                i as int,
            ),
        decreases original_env_vars.len() - i,
    {
        let key = original_env_vars[i].key.as_str();
        assert(views(original_env_vars@)[i as int].key == key@);
        match key_index(&script.env_vars, key) {
            None => {
                content = remove_env_var(content.as_str(), key);
            },
            Some(k) => {
                assert(views(script.env_vars@)[k as int].key == key@);
            },
        }
        i += 1;
    }
    let ghost base = content@;
    let mut j: usize = 0;
    while j < script.env_vars.len()
        invariant
            j <= script.env_vars.len(),
            content@ == after_settings(
                base,
                views(original_env_vars@),
                script@.env_vars,
                j as int,
            ),
        decreases script.env_vars.len() - j,
    {
        let env = &script.env_vars[j];
        assert(script@.env_vars[j as int] == env@);
        match key_index(original_env_vars, env.key.as_str()) {
            Some(k) => {
                assert(views(original_env_vars@)[k as int].key == env.key@);
                content = update_env_var(content.as_str(), env.key.as_str(), env.value.as_str());
            },
            None => {
                content = add_env_var(content.as_str(), env.key.as_str(), env.value.as_str());
            },
        }
        j += 1;
    }
    content
}

/// The line of a new script that maps a port.
pub open spec fn port_line(p: PortView) -> Seq<char> {
    "  -p "@ + decimal(p.host_port as nat) + ":"@ + decimal(p.container_port as nat)
}

/// The line of a new script that mounts a volume.
pub open spec fn volume_line(v: VolumeView) -> Seq<char> {
    "  -v "@ + v.host_path + ":"@ + v.container_path + (if v.read_only {
        ":ro"@
    } else {
        Seq::empty()
    })
}

/// The line of a new script that sets a variable.
pub open spec fn env_line(e: EnvVarView) -> Seq<char> {
    "  -e "@ + e.key + "=\""@ + e.value + "\""@
}

/// The parts of the `docker create` command of a new script, one to a line.
pub open spec fn create_parts(script: ScriptView) -> Seq<Seq<char>> {
    seq!["docker create"@] + (match script.network {
        Some(network) => seq!["  --net="@ + network],
        None => Seq::empty(),
    }) + seq!["  --name $NAME"@, "  --restart=unless-stopped"@] + Seq::new(
        script.ports.len(),
        |i: int| port_line(script.ports[i]),
    ) + Seq::new(script.volumes.len(), |i: int| volume_line(script.volumes[i])) + Seq::new(
        script.env_vars.len(),
        |i: int| env_line(script.env_vars[i]),
    ) + seq!["  $REPO"@]
}

/// The lines of a new script.
pub open spec fn script_lines(script: ScriptView) -> Seq<Seq<char>> {
    seq![
        "#!/usr/bin/env bash"@,
        Seq::empty(),
        "# Configuration"@,
        "NAME='"@ + script.container_name + "'"@,
        "REPO=\""@ + script.repo + "\""@,
        Seq::empty(),
        "docker pull $REPO"@,
        "docker stop $NAME"@,
        "docker rm $NAME"@,
        Seq::empty(),
        join(create_parts(script), " \\\n"@),
        Seq::empty(),
        "docker start $NAME"@,
    ]
}

/// The text of a new script.
pub open spec fn script_text(script: ScriptView) -> Seq<char> {
    join(script_lines(script), "\n"@)
}

/// The text of a new script for what `script` holds: a shebang, the name and
/// the image, pull, stop and remove, a `docker create` with one flag to a
/// line, and the start.
pub fn generate_script(script: &DeploymentScript) -> (r: String)
    ensures
        r@ == script_text(script@),
{
    let mut parts: Vec<Vec<char>> = Vec::new();
    parts.push(chars_of("docker create"));
    match &script.network {
        Some(network) => {
            let mut l = chars_of("  --net=");
            append_str(&mut l, network.as_str());
            parts.push(l);
        },
        None => {},
    }
    parts.push(chars_of("  --name $NAME"));
    parts.push(chars_of("  --restart=unless-stopped"));
    let ghost head = views(parts@);
    assert(head == seq!["docker create"@] + (match script@.network {
        Some(network) => seq!["  --net="@ + network],
        None => Seq::empty(),
    }) + seq!["  --name $NAME"@, "  --restart=unless-stopped"@]);
    let ghost port_lines = Seq::new(script@.ports.len(), |i: int| port_line(script@.ports[i]));
    let mut i: usize = 0;
    while i < script.ports.len()
        invariant
            i <= script.ports.len(),
            port_lines == Seq::new(script@.ports.len(), |i: int| port_line(script@.ports[i])),
            views(parts@) == head + port_lines.take(i as int),
        decreases script.ports.len() - i,
    {
        let ghost before = views(parts@);
        let p = &script.ports[i];
        let mut l = chars_of("  -p ");
        push_decimal(&mut l, p.host_port as u64);
        append_str(&mut l, ":");
        push_decimal(&mut l, p.container_port as u64);
        assert(l@ == port_line(script@.ports[i as int]));
        parts.push(l);
        i += 1;
        assert(views(parts@) == before.push(port_lines[i - 1]));
        assert(views(parts@) == head + port_lines.take(i as int));
    }
    assert(port_lines.take(script.ports.len() as int) == port_lines);
    let ghost volume_lines = Seq::new(
        script@.volumes.len(),
        |i: int| volume_line(script@.volumes[i]),
    );
    let mut i: usize = 0;
    while i < script.volumes.len()
        invariant
            i <= script.volumes.len(),
            volume_lines == Seq::new(
                script@.volumes.len(),
                |i: int| volume_line(script@.volumes[i]),
            ),
            views(parts@) == head + port_lines + volume_lines.take(i as int),
        decreases script.volumes.len() - i,
    {
        let ghost before = views(parts@);
        let v = &script.volumes[i];
        let mut l = chars_of("  -v ");
        append_str(&mut l, v.host_path.as_str());
        append_str(&mut l, ":");
        append_str(&mut l, v.container_path.as_str());
        if v.read_only {
            append_str(&mut l, ":ro");
        }
        assert(l@ == volume_line(script@.volumes[i as int]));
        parts.push(l);
        i += 1;
        assert(views(parts@) == before.push(volume_lines[i - 1]));
        assert(views(parts@) == head + port_lines + volume_lines.take(i as int));
    }
    assert(volume_lines.take(script.volumes.len() as int) == volume_lines);
    let ghost env_lines = Seq::new(
        script@.env_vars.len(),
        |i: int| env_line(script@.env_vars[i]),
    );
    let mut i: usize = 0;
    while i < script.env_vars.len()
        invariant
            i <= script.env_vars.len(),
            env_lines == Seq::new(script@.env_vars.len(), |i: int| env_line(script@.env_vars[i])),
            views(parts@) == head + port_lines + volume_lines + env_lines.take(i as int),
        decreases script.env_vars.len() - i,
    {
        let ghost before = views(parts@);
        let e = &script.env_vars[i];
        let mut l = chars_of("  -e ");
        append_str(&mut l, e.key.as_str());
        append_str(&mut l, "=\"");
        append_str(&mut l, e.value.as_str());
        append_str(&mut l, "\"");
        assert(l@ == env_line(script@.env_vars[i as int]));
        parts.push(l);
        i += 1;
        assert(views(parts@) == before.push(env_lines[i - 1]));
        assert(views(parts@) == head + port_lines + volume_lines + env_lines.take(i as int));
    }
    assert(env_lines.take(script.env_vars.len() as int) == env_lines);
    let ghost before = views(parts@);
    parts.push(chars_of("  $REPO"));
    assert(views(parts@) == before.push("  $REPO"@));
    assert(views(parts@) == create_parts(script@));
    let create = join_with(&parts, " \\\n");

    let mut name = chars_of("NAME='");
    append_str(&mut name, script.container_name.as_str());
    append_str(&mut name, "'");
    let mut repo = chars_of("REPO=\"");
    append_str(&mut repo, script.repo.as_str());
    append_str(&mut repo, "\"");
    let mut lines: Vec<Vec<char>> = Vec::new();
    lines.push(chars_of("#!/usr/bin/env bash"));
    lines.push(Vec::new());
    lines.push(chars_of("# Configuration"));
    lines.push(name);
    lines.push(repo);
    lines.push(Vec::new());
    lines.push(chars_of("docker pull $REPO"));
    lines.push(chars_of("docker stop $NAME"));
    lines.push(chars_of("docker rm $NAME"));
    lines.push(Vec::new());
    lines.push(create);
    lines.push(Vec::new());
    lines.push(chars_of("docker start $NAME"));
    assert(views(lines@) == script_lines(script@));
    string_of(&join_with(&lines, "\n"))
}

/// What is asked of a captured text before it is taken.
#[derive(Clone, Copy, PartialEq, Eq, Structural)]
pub enum Accept {
    /// Nothing: the text is taken as it is.
    Any,
    /// A container's name: quotes around it are dropped, and a name that begins
    /// with `$` is refused.
    Name,
    /// An image: one that begins with a dash or with `$` is refused.
    Image,
}

/// What is taken of a captured text.
pub open spec fn accepted(kind: Accept, m: Seq<char>) -> Option<Seq<char>> {
    match kind {
        Accept::Any => Some(m),
        Accept::Name => {
            let name = trim(trim(m, Class::AnyOf("\""@)), Class::AnyOf("'"@));
            if starts_with(name, "$"@) {
                None
            } else {
                Some(name)
            }
        },
        Accept::Image => if starts_with(m, "-"@) || starts_with(m, "$"@) {
            None
        } else {
            Some(m)
        },
    }
}

/// What is taken of the first match of a pattern: its group 1, as `kind` asks.
pub open spec fn taken(
    kind: Accept,
    found: Option<(Seq<char>, Seq<Option<Seq<char>>>, Seq<char>)>,
) -> Option<Seq<char>> {
    match found {
        Some(f) => match group(f.1, 1) {
            Some(m) => accepted(kind, m),
            None => None,
        },
        None => None,
    }
}

/// What the first of the patterns from index `n` on that yields something
/// yields.
pub open spec fn first_taken(
    kind: Accept,
    patterns: Seq<Seq<char>>,
    text: Seq<char>,
    n: int,
) -> Option<Seq<char>>
    decreases patterns.len() - n,
{
    if n < 0 || n >= patterns.len() {
        None
    } else {
        match taken(kind, regex_first(patterns[n], text)) {
            Some(v) => Some(v),
            None => first_taken(kind, patterns, text, n + 1),
        }
    }
}

/// What is taken of a captured text.
pub fn accept(kind: Accept, m: &str) -> (r: Option<String>)
    ensures
        opt_view(r) == accepted(kind, m@),
{
    let v = chars_of(m);
    match kind {
        Accept::Any => Some(string_of(&v)),
        Accept::Name => {
            let a = trim_in(&v, &CharSet::any_of("\""));
            let name = trim_in(&a, &CharSet::any_of("'"));
            if begins_with(&name, "$") {
                None
            } else {
                Some(string_of(&name))
            }
        },
        Accept::Image => if begins_with(&v, "-") || begins_with(&v, "$") {
            None
        } else {
            Some(string_of(&v))
        },
    }
}

/// What is taken of a match.
pub fn take_found(kind: Accept, found: &Option<Found>) -> (r: Option<String>)
    ensures
        opt_view(r) == taken(kind, crate::pattern::found_view(*found)),
{
    match found {
        Some(f) => match group_of(&f.groups, 1) {
            Some(m) => accept(kind, m.as_str()),
            None => None,
        },
        None => None,
    }
}

/// What the first of the patterns that yields something yields in the text.
pub fn find_first_taken(kind: Accept, patterns: &Vec<String>, text: &str) -> (r: Option<String>)
    ensures
        opt_view(r) == first_taken(kind, views(patterns@), text@, 0),
{
    let mut i: usize = 0;
    while i < patterns.len()
        invariant
            i <= patterns.len(),
            first_taken(kind, views(patterns@), text@, 0) == first_taken(
                kind,
                views(patterns@),
                text@,
                i as int,
            ),
        decreases patterns.len() - i,
    {
        assert(views(patterns@)[i as int] == patterns@[i as int]@);
        let found = captures_first(patterns[i].as_str(), text);
        match take_found(kind, &found) {
            Some(v) => {
                return Some(v);
            },
            None => {},
        }
        i += 1;
    }
    None
}

/// The patterns that find the value given to a shell variable: in single
/// quotes, in double quotes, then bare.
pub open spec fn variable_patterns(name: Seq<char>) -> Seq<Seq<char>> {
    seq![name + "='([^']*)'"@, name + "=\"([^\"]*)\""@, name + "=(\\S+)"@]
}

/// The patterns that find the network of a container.
pub open spec fn network_patterns() -> Seq<Seq<char>> {
    seq!["--net=(\\S+)"@, "--network=(\\S+)"@, "--net\\s+(\\S+)"@, "--network\\s+(\\S+)"@]
}

/// The patterns that find the restart policy of a container.
pub open spec fn restart_patterns() -> Seq<Seq<char>> {
    seq!["--restart=(\\S+)"@, "--restart\\s+(\\S+)"@]
}

/// The patterns that find the name given to a container by flag.
pub open spec fn name_flag_patterns() -> Seq<Seq<char>> {
    seq!["--name=([^\\s\\\\]+)"@, "--name\\s+([^\\s\\\\]+)"@]
}

/// The pattern that finds the image at the end of a `docker run` or `docker
/// create` line.
pub open spec fn image_patterns() -> Seq<Seq<char>> {
    seq![
        "(?:docker\\s+(?:run|create)[^\\n]*?)\\s+([a-zA-Z0-9._/-]+(?::[a-zA-Z0-9._-]+)?)\\s*(?:\\n|$)"@,
    ]
}

/// The pattern that finds a flag that sets a variable. At each flag three
/// readings are tried in turn: a value in double quotes, in single quotes,
/// then a bare one.
pub open spec fn env_pattern() -> Seq<char> {
    "-e\\s+([A-Za-z_][A-Za-z0-9_]*)=\"([^\"]*)\"|-e\\s+([A-Za-z_][A-Za-z0-9_]*)='([^']*)'|-e\\s*([A-Za-z_][A-Za-z0-9_]*)=(\\S+)"@
}

/// The pattern that finds the flags that mount a volume.
pub open spec fn volume_pattern() -> Seq<char> {
    "-v\\s+([^:\\s]+):([^:\\s]+)(:ro)?"@
}

/// The pattern that finds the flags that map a port.
pub open spec fn port_pattern() -> Seq<char> {
    "-p\\s+(\\d+):(\\d+)(/\\w+)?"@
}

/// The strings as owned values, in order.
fn owned(list: &[&str]) -> (r: Vec<String>)
    ensures
        r.len() == list.len(),
        forall|i: int| 0 <= i < list.len() ==> (#[trigger] r@[i])@ == list@[i]@,
{
    let mut out: Vec<String> = Vec::new();
    let mut i: usize = 0;
    while i < list.len()
        invariant
            i <= list.len(),
            out.len() == i,
            forall|j: int| 0 <= j < i ==> (#[trigger] out@[j])@ == list@[j]@,
        decreases list.len() - i,
    {
        out.push(copy_str(list[i]));
        i += 1;
    }
    out
}

/// The value given to the shell variable `var_name` in the script text.
pub fn extract_variable(content: &str, var_name: &str) -> (r: Option<String>)
    ensures
        opt_view(r) == first_taken(Accept::Any, variable_patterns(var_name@), content@, 0),
{
    let tails = ["='([^']*)'", "=\"([^\"]*)\"", "=(\\S+)"];
    let mut patterns: Vec<String> = Vec::new();
    let mut i: usize = 0;
    while i < 3
        invariant
            i <= 3,
            tails@ == seq!["='([^']*)'", "=\"([^\"]*)\"", "=(\\S+)"],
            views(patterns@) == variable_patterns(var_name@).take(i as int),
        decreases 3 - i,
    {
        let ghost before = views(patterns@);
        let mut p = chars_of(var_name);
        append_str(&mut p, tails[i]);
        patterns.push(string_of(&p));
        i += 1;
        assert(views(patterns@) == before.push(p@));
        assert(views(patterns@) == variable_patterns(var_name@).take(i as int));
    }
    assert(variable_patterns(var_name@).take(3) == variable_patterns(var_name@));
    find_first_taken(Accept::Any, &patterns, content)
}

/// The network that the script puts its container on.
pub fn extract_network(content: &str) -> (r: Option<String>)
    ensures
        opt_view(r) == first_taken(Accept::Any, network_patterns(), content@, 0),
{
    let patterns = owned(
        &["--net=(\\S+)", "--network=(\\S+)", "--net\\s+(\\S+)", "--network\\s+(\\S+)"],
    );
    assert(views(patterns@) == network_patterns());
    find_first_taken(Accept::Any, &patterns, content)
}

/// The restart policy that the script gives its container.
pub fn extract_restart_policy(content: &str) -> (r: Option<String>)
    ensures
        opt_view(r) == first_taken(Accept::Any, restart_patterns(), content@, 0),
{
    let patterns = owned(&["--restart=(\\S+)", "--restart\\s+(\\S+)"]);
    assert(views(patterns@) == restart_patterns());
    find_first_taken(Accept::Any, &patterns, content)
}

/// The name that the script gives its container by flag, unless it is a
/// reference to a variable.
pub fn extract_container_name_flag(content: &str) -> (r: Option<String>)
    ensures
        opt_view(r) == first_taken(Accept::Name, name_flag_patterns(), content@, 0),
{
    let patterns = owned(&["--name=([^\\s\\\\]+)", "--name\\s+([^\\s\\\\]+)"]);
    assert(views(patterns@) == name_flag_patterns());
    find_first_taken(Accept::Name, &patterns, content)
}

/// The image named at the end of the script's `docker run` or `docker create`
/// line, unless it is a flag or a reference to a variable.
pub fn extract_docker_image(content: &str) -> (r: Option<String>)
    ensures
        opt_view(r) == first_taken(Accept::Image, image_patterns(), content@, 0),
{
    let patterns = owned(
        &[
            "(?:docker\\s+(?:run|create)[^\\n]*?)\\s+([a-zA-Z0-9._/-]+(?::[a-zA-Z0-9._-]+)?)\\s*(?:\\n|$)",
        ],
    );
    assert(views(patterns@) == image_patterns());
    find_first_taken(Accept::Image, &patterns, content)
}

/// The variable with the given key and value.
pub open spec fn env_var_of(key: Seq<char>, value: Seq<char>) -> EnvVarView {
    EnvVarView { key, value, is_secret: secret_key(uppercase(key)) }
}

/// The key and the value of a flag that was found: the groups of the reading
/// that matched, of which there are three pairs.
pub open spec fn flag_of(g: Groups) -> Option<(Seq<char>, Seq<char>)> {
    if group(g, 1) is Some && group(g, 2) is Some {
        Some((group(g, 1)->0, group(g, 2)->0))
    } else if group(g, 3) is Some && group(g, 4) is Some {
        Some((group(g, 3)->0, group(g, 4)->0))
    } else if group(g, 5) is Some && group(g, 6) is Some {
        Some((group(g, 5)->0, group(g, 6)->0))
    } else {
        None
    }
}

/// The variables after the first `n` flags were looked at, in the order of
/// the text: a flag adds its variable unless the key is there already.
pub open spec fn with_env_matches(acc: Seq<EnvVarView>, ms: Seq<Groups>, n: int) -> Seq<
    EnvVarView,
>
    decreases n,
{
    if n <= 0 {
        acc
    } else {
        let prev = with_env_matches(acc, ms, n - 1);
        match flag_of(ms[n - 1]) {
            Some((key, value)) => if has_key(prev, key) {
                prev
            } else {
                prev.push(env_var_of(key, value))
            },
            None => prev,
        }
    }
}

/// The variables that the script sets, in the order in which their flags stand
/// in the text; of two flags for one key the first counts and the later is
/// passed over.
pub open spec fn env_vars_in(content: Seq<char>) -> Seq<EnvVarView> {
    with_env_matches(
        Seq::empty(),
        regex_all(env_pattern(), content),
        regex_all(env_pattern(), content).len() as int,
    )
}

/// Among the variables that flags add, no key occurs twice that did not
/// before.
pub proof fn lemma_matches_keep_keys_distinct(acc: Seq<EnvVarView>, ms: Seq<Groups>, n: int)
    requires
        distinct_keys(acc),
    ensures
        distinct_keys(with_env_matches(acc, ms, n)),
    decreases n,
{
    if n > 0 {
        lemma_matches_keep_keys_distinct(acc, ms, n - 1);
        let prev = with_env_matches(acc, ms, n - 1);
        match flag_of(ms[n - 1]) {
            Some((key, value)) => {
                if !has_key(prev, key) {
                    let next = prev.push(env_var_of(key, value));
                    assert forall|i: int, j: int| 0 <= i < j < next.len() implies (
                    #[trigger] next[i]).key != (#[trigger] next[j]).key by {
                        if j < prev.len() {
                            assert(next[i] == prev[i]);
                            assert(next[j] == prev[j]);
                        } else {
                            assert(next[i] == prev[i]);
                            assert(prev[i].key != key);
                        }
                    }
                }
            },
            None => {},
        }
    }
}

/// The variables that are there stay as they are, each at its place, whatever
/// flags follow: a later flag for a key that is there changes nothing.
pub proof fn lemma_first_flag_wins(acc: Seq<EnvVarView>, ms: Seq<Groups>, n: int, k: int)
    requires
        0 <= k < acc.len(),
        0 <= n,
    ensures
        with_env_matches(acc, ms, n).len() >= acc.len(),
        with_env_matches(acc, ms, n)[k] == acc[k],
    decreases n,
{
    if n > 0 {
        lemma_first_flag_wins(acc, ms, n - 1, k);
    }
}

/// The key and the value of a flag that was found.
pub fn flag_from(m: &Vec<Option<String>>) -> (r: Option<(&String, &String)>)
    ensures
        match r {
            Some((key, value)) => flag_of(groups_view(m@)) == Some((key@, value@)),
            None => flag_of(groups_view(m@)) is None,
        },
{
    match (group_of(m, 1), group_of(m, 2)) {
        (Some(key), Some(value)) => Some((key, value)),
        _ => match (group_of(m, 3), group_of(m, 4)) {
            (Some(key), Some(value)) => Some((key, value)),
            _ => match (group_of(m, 5), group_of(m, 6)) {
                (Some(key), Some(value)) => Some((key, value)),
                _ => None,
            },
        },
    }
}

/// Adds to `vars` the variable of each flag whose key `vars` does not hold
/// yet, in the order of the flags.
pub fn add_env_matches(vars: &mut Vec<EnvVar>, matches: &Vec<Vec<Option<String>>>)
    ensures
        views(final(vars)@) == with_env_matches(
            views(old(vars)@),
            matches_view(matches@),
            matches.len() as int,
        ),
{
    let mut i: usize = 0;
    while i < matches.len()
        invariant
            i <= matches.len(),
            views(vars@) == with_env_matches(views(old(vars)@), matches_view(matches@), i as int),
        decreases matches.len() - i,
    {
        let ghost before = views(vars@);
        let m = &matches[i];
        assert(matches_view(matches@)[i as int] == groups_view(m@));
        match flag_from(m) {
            Some((key, value)) => {
                match key_index(vars, key.as_str()) {
                    Some(k) => {
                        assert(before[k as int].key == key@);
                    },
                    None => {
                        vars.push(EnvVar::new(key.clone(), value.clone()));
                        assert(views(vars@) == before.push(env_var_of(key@, value@)));
                    },
                }
            },
            None => {},
        }
        i += 1;
    }
}

/// The variables that the script sets, in the order of their flags; of two
/// flags for one key the first counts.
pub fn extract_env_vars(content: &str) -> (r: Vec<EnvVar>)
    ensures
        views(r@) == env_vars_in(content@),
        distinct_keys(views(r@)),
{
    let matches = captures_all(
        "-e\\s+([A-Za-z_][A-Za-z0-9_]*)=\"([^\"]*)\"|-e\\s+([A-Za-z_][A-Za-z0-9_]*)='([^']*)'|-e\\s*([A-Za-z_][A-Za-z0-9_]*)=(\\S+)",
        content,
    );
    assert(matches_view(matches@).len() == matches.len());
    let mut vars: Vec<EnvVar> = Vec::new();
    assert(views(vars@) == Seq::<EnvVarView>::empty());
    proof {
        lemma_matches_keep_keys_distinct(
            views(vars@),
            matches_view(matches@),
            matches.len() as int,
        );
    }
    add_env_matches(&mut vars, &matches);
    vars
}

/// The volume mounts that the first `n` matches give: one for each match with
/// groups 1 and 2, read-only where group 3 took part.
pub open spec fn volumes_of(ms: Seq<Groups>, n: int) -> Seq<VolumeView>
    decreases n,
{
    if n <= 0 {
        Seq::empty()
    } else {
        let prev = volumes_of(ms, n - 1);
        match (group(ms[n - 1], 1), group(ms[n - 1], 2)) {
            (Some(host), Some(container)) => prev.push(
                VolumeView {
                    host_path: host,
                    container_path: container,
                    read_only: group(ms[n - 1], 3).is_some(),
                },
            ),
            _ => prev,
        }
    }
}

/// The volume mounts that the matches give.
pub fn volumes_from(matches: &Vec<Vec<Option<String>>>) -> (r: Vec<VolumeMount>)
    ensures
        views(r@) == volumes_of(matches_view(matches@), matches.len() as int),
{
    let mut out: Vec<VolumeMount> = Vec::new();
    let mut i: usize = 0;
    assert(views(out@) == volumes_of(matches_view(matches@), 0));
    while i < matches.len()
        invariant
            i <= matches.len(),
            views(out@) == volumes_of(matches_view(matches@), i as int),
        decreases matches.len() - i,
    {
        let ghost before = views(out@);
        let m = &matches[i];
        assert(matches_view(matches@)[i as int] == groups_view(m@));
        match (group_of(m, 1), group_of(m, 2)) {
            (Some(host), Some(container)) => {
                let v = VolumeMount {
                    host_path: host.clone(),
                    container_path: container.clone(),
                    read_only: group_of(m, 3).is_some(),
                };
                out.push(v);
                assert(views(out@) == before.push(v@));
            },
            _ => {},
        }
        i += 1;
    }
    out
}

/// The volume mounts that the script asks for.
pub fn extract_volumes(content: &str) -> (r: Vec<VolumeMount>)
    ensures
        views(r@) == volumes_of(
            regex_all(volume_pattern(), content@),
            regex_all(volume_pattern(), content@).len() as int,
        ),
{
    let matches = captures_all("-v\\s+([^:\\s]+):([^:\\s]+)(:ro)?", content);
    assert(matches_view(matches@).len() == matches.len());
    volumes_from(&matches)
}

/// The protocol of a port mapping: what group 3 holds after its slashes, `tcp`
/// where the group took no part.
pub open spec fn protocol_of(g: Option<Seq<char>>) -> Seq<char> {
    match g {
        Some(p) => trim_start(p, Class::AnyOf("/"@)),
        None => "tcp"@,
    }
}

/// The port mappings that the first `n` matches give: one for each match whose
/// groups 1 and 2 are port numbers.
pub open spec fn ports_of(ms: Seq<Groups>, n: int) -> Seq<PortView>
    decreases n,
{
    if n <= 0 {
        Seq::empty()
    } else {
        let prev = ports_of(ms, n - 1);
        match (group(ms[n - 1], 1), group(ms[n - 1], 2)) {
            (Some(host), Some(container)) => match (parse_u16(host), parse_u16(container)) {
                (Some(host_port), Some(container_port)) => prev.push(
                    PortView {
                        host_port,
                        container_port,
                        protocol: protocol_of(group(ms[n - 1], 3)),
                    },
                ),
                _ => prev,
            },
            _ => prev,
        }
    }
}

/// The port mappings that the matches give.
pub fn ports_from(matches: &Vec<Vec<Option<String>>>) -> (r: Vec<PortMapping>)
    ensures
        views(r@) == ports_of(matches_view(matches@), matches.len() as int),
{
    let mut out: Vec<PortMapping> = Vec::new();
    let mut i: usize = 0;
    assert(views(out@) == ports_of(matches_view(matches@), 0));
    while i < matches.len()
        invariant
            i <= matches.len(),
            views(out@) == ports_of(matches_view(matches@), i as int),
        decreases matches.len() - i,
    {
        let ghost before = views(out@);
        let m = &matches[i];
        assert(matches_view(matches@)[i as int] == groups_view(m@));
        match (group_of(m, 1), group_of(m, 2)) {
            (Some(host), Some(container)) => {
                let hp = read_u16(&chars_of(host.as_str()));
                let cp = read_u16(&chars_of(container.as_str()));
                match (hp, cp) {
                    (Some(host_port), Some(container_port)) => {
                        let protocol = match group_of(m, 3) {
                            Some(p) => string_of(
                                &trim_start_in(&chars_of(p.as_str()), &CharSet::any_of("/")),
                            ),
                            None => copy_str("tcp"),
                        };
                        let p = PortMapping { host_port, container_port, protocol };
                        out.push(p);
                        assert(views(out@) == before.push(p@));
                    },
                    _ => {},
                }
            },
            _ => {},
        }
        i += 1;
    }
    out
}

/// The port mappings that the script asks for.
pub fn extract_ports(content: &str) -> (r: Vec<PortMapping>)
    ensures
        views(r@) == ports_of(
            regex_all(port_pattern(), content@),
            regex_all(port_pattern(), content@).len() as int,
        ),
{
    let matches = captures_all("-p\\s+(\\d+):(\\d+)(/\\w+)?", content);
    assert(matches_view(matches@).len() == matches.len());
    ports_from(&matches)
}

/// The text of an optional text, empty where there is none.
pub open spec fn or_empty(o: Option<Seq<char>>) -> Seq<char> {
    match o {
        Some(s) => s,
        None => Seq::empty(),
    }
}

/// What is read of a script text: the container's name from the variable
/// `NAME`, else from the `--name` flag; the image from the variable `REPO`,
/// else from the end of the `docker` line; the variables, volumes, ports,
/// network and restart policy from their flags.
pub open spec fn parsed(content: Seq<char>, path: Seq<char>, client_name: Seq<char>) -> ScriptView {
    ScriptView {
        path,
        client_name,
        container_name: match first_taken(Accept::Any, variable_patterns("NAME"@), content, 0) {
            Some(name) => name,
            None => or_empty(first_taken(Accept::Name, name_flag_patterns(), content, 0)),
        },
        repo: match first_taken(Accept::Any, variable_patterns("REPO"@), content, 0) {
            Some(repo) => repo,
            None => or_empty(first_taken(Accept::Image, image_patterns(), content, 0)),
        },
        env_vars: env_vars_in(content),
        volumes: volumes_of(
            regex_all(volume_pattern(), content),
            regex_all(volume_pattern(), content).len() as int,
        ),
        network: first_taken(Accept::Any, network_patterns(), content, 0),
        ports: ports_of(
            regex_all(port_pattern(), content),
            regex_all(port_pattern(), content).len() as int,
        ),
        restart_policy: first_taken(Accept::Any, restart_patterns(), content, 0),
        raw_content: content,
        last_modified: None,
    }
}

/// Reads a script text into a deployment script of the given path and owner.
pub fn parse_script(content: &str, path: &str, client_name: &str) -> (r: DeploymentScript)
    ensures
        r@ == parsed(content@, path@, client_name@),
        r.wf(),
{
    let container_name = match extract_variable(content, "NAME") {
        Some(name) => name,
        None => match extract_container_name_flag(content) {
            Some(name) => name,
            None => String::new(),
        },
    };
    let repo = match extract_variable(content, "REPO") {
        Some(repo) => repo,
        None => match extract_docker_image(content) {
            Some(image) => image,
            None => String::new(),
        },
    };
    DeploymentScript {
        path: copy_str(path),
        client_name: copy_str(client_name),
        container_name,
        repo,
        env_vars: extract_env_vars(content),
        volumes: extract_volumes(content),
        network: extract_network(content),
        ports: extract_ports(content),
        restart_policy: extract_restart_policy(content),
        raw_content: copy_str(content),
        last_modified: None,
    }
}

/// The marks that take out line `k` of `n` lines and no other.
pub open spec fn only_line(k: int, n: int) -> Seq<bool> {
    Seq::new(n as nat, |i: int| i == k)
}

/// What becomes of the line after which a variable was added, once the added
/// line is taken out again: it still continues where the command goes on
/// after it, and no longer does where it does not.
pub open spec fn mended(ls: Seq<Seq<char>>, a: int) -> Seq<char> {
    if goes_on_after(ls, a) {
        continued(ls[a])
    } else {
        uncontinued(continued(ls[a]))
    }
}

/// A line with a space and a backslash after it ends in a backslash, white
/// space at its end aside; a line that ends in a double quote does not.
pub proof fn lemma_flag_line_ends(line: Seq<char>)
    requires
        line.len() > 0,
        line.last() == '"',
    ensures
        ends_with(trim_end(line + " \\"@, Class::Space), "\\"@),
        !ends_with(trim_end(line, Class::Space), "\\"@),
{
    reveal_strlit("\\");
    reveal_strlit(" \\");
    let c = line + " \\"@;
    assert(c.last() == '\\');
    assert(!crate::text::is_space('\\'));
    assert(!crate::text::is_space('"'));
    crate::text::lemma_trail_is(c, Class::Space, 0);
    assert(trim_end(c, Class::Space) == c);
    assert(c.subrange(c.len() - 1, c.len() as int) == "\\"@);
    crate::text::lemma_trail_is(line, Class::Space, 0);
    assert(trim_end(line, Class::Space) == line);
    if ends_with(line, "\\"@) {
        assert(line.subrange(line.len() - 1, line.len() as int)[0] == '\\');
    }
}

proof fn lemma_kept_ends_only(es: Seq<Seq<char>>, k: int, n: int)
    requires
        0 <= n <= es.len(),
        0 <= k,
    ensures
        kept_ends(es, only_line(k, es.len() as int), n) == (if n <= k {
            es.take(n)
        } else {
            es.take(k) + es.subrange(k + 1, n)
        }),
    decreases n,
{
    let hits = only_line(k, es.len() as int);
    if n > 0 {
        lemma_kept_ends_only(es, k, n - 1);
        if n - 1 < k {
            assert(es.take(n - 1).push(es[n - 1]) == es.take(n));
        } else if n - 1 == k {
            assert(hit(hits, k));
            assert(es.take(k) + es.subrange(k + 1, n) == es.take(k));
        } else {
            assert(!hit(hits, n - 1));
            assert((es.take(k) + es.subrange(k + 1, n - 1)).push(es[n - 1]) == es.take(k)
                + es.subrange(k + 1, n));
        }
    } else {
        assert(es.take(0) == Seq::<Seq<char>>::empty());
    }
}

/// A line that was made to continue ends in a backslash, white space at its
/// end aside.
pub proof fn lemma_continued_ends(line: Seq<char>)
    ensures
        ends_with(trim_end(continued(line), Class::Space), "\\"@),
{
    reveal_strlit("\\");
    reveal_strlit(" \\");
    let t = trim_end(line, Class::Space);
    if !ends_with(t, "\\"@) {
        let c = t + " \\"@;
        assert(c.last() == '\\');
        assert(!crate::text::is_space('\\'));
        crate::text::lemma_trail_is(c, Class::Space, 0);
        assert(trim_end(c, Class::Space) == c);
        assert(c.subrange(c.len() - 1, c.len() as int) == "\\"@);
    }
}

proof fn lemma_kept_before(ls: Seq<Seq<char>>, k: int, n: int)
    requires
        0 <= n <= k,
        n <= ls.len(),
    ensures
        kept_lines(ls, only_line(k, ls.len() as int), n) == ls.take(n),
    decreases n,
{
    if n > 0 {
        lemma_kept_before(ls, k, n - 1);
        assert(ls.take(n - 1).push(ls[n - 1]) == ls.take(n));
    }
}

proof fn lemma_kept_after(ls: Seq<Seq<char>>, k: int, n: int)
    requires
        0 <= k < n <= ls.len(),
    ensures
        kept_lines(ls, only_line(k, ls.len() as int), n) == kept_lines(
            ls,
            only_line(k, ls.len() as int),
            k + 1,
        ) + ls.subrange(k + 1, n),
    decreases n,
{
    let hits = only_line(k, ls.len() as int);
    if n == k + 1 {
        assert(ls.subrange(k + 1, n) == Seq::<Seq<char>>::empty());
        assert(kept_lines(ls, hits, k + 1) + Seq::<Seq<char>>::empty() == kept_lines(
            ls,
            hits,
            k + 1,
        ));
    } else {
        lemma_kept_after(ls, k, n - 1);
        assert(!hit(hits, n - 1));
        assert((kept_lines(ls, hits, k + 1) + ls.subrange(k + 1, n - 1)).push(ls[n - 1])
            == kept_lines(ls, hits, k + 1) + ls.subrange(k + 1, n));
    }
}

/// Taking out the line that was put in for a variable gives back the lines as
/// they were, but for the line before it: that line continues where the
/// command goes on after it, and does not where it does not. The endings come
/// back too, but that the line before has one where it had none. This holds
/// of a new line that ends in a double quote, as the line of a flag does.
pub proof fn lemma_insert_then_remove(
    ls: Seq<Seq<char>>,
    es: Seq<Seq<char>>,
    a: int,
    line: Seq<char>,
)
    requires
        0 <= a < ls.len(),
        es.len() == ls.len(),
        line.len() > 0,
        line.last() == '"',
    ensures
        inserted_after(ls, a, line).len() == ls.len() + 1,
        ends_after(es, a).len() == ls.len() + 1,
        kept_lines(
            inserted_after(ls, a, line),
            only_line(a + 1, ls.len() as int + 1),
            ls.len() as int + 1,
        ) == ls.update(a, mended(ls, a)),
        kept_ends(ends_after(es, a), only_line(a + 1, ls.len() as int + 1), ls.len() as int + 1)
            == es.update(a, end_or_feed(es[a])),
{
    let put = inserted_after(ls, a, line);
    let n = ls.len() as int;
    let hits = only_line(a + 1, n + 1);
    assert(put.len() == n + 1);
    assert(put[a] == continued(ls[a]));
    lemma_kept_before(put, a + 1, a + 1);
    let prev = kept_lines(put, hits, a + 1);
    assert(prev == put.take(a + 1));
    assert(prev.last() == continued(ls[a]));
    lemma_continued_ends(ls[a]);
    lemma_flag_line_ends(line);
    assert(hit(hits, a + 1));
    if a + 2 < put.len() {
        assert(put[a + 2] == ls[a + 1]);
    }
    assert(more_after(put, a + 1) == goes_on_after(ls, a));
    let at = kept_lines(put, hits, a + 2);
    assert(at == prev.update(prev.len() - 1, mended(ls, a))) by {
        if goes_on_after(ls, a) {
            assert(prev.update(prev.len() - 1, continued(ls[a])) == prev);
        }
    }
    lemma_kept_after(put, a + 1, n + 1);
    assert(put.subrange(a + 2, n + 1) == ls.skip(a + 1));
    assert(at + ls.skip(a + 1) == ls.update(a, mended(ls, a)));
    let ends = ends_after(es, a);
    assert(ends.len() == n + 1);
    lemma_kept_ends_only(ends, a + 1, n + 1);
    assert(ends.take(a + 1) + ends.subrange(a + 2, n + 1) == es.update(a, end_or_feed(es[a])));
}

/// The line that is put in for a variable holds no line feed where key and
/// value hold none, and does not end in a carriage return.
proof fn lemma_new_line_is_plain(ls: Seq<Seq<char>>, key: Seq<char>, value: Seq<char>, more: bool)
    requires
        forall|i: int| 0 <= i < ls.len() ==> !(#[trigger] ls[i]).contains('\n'),
        !key.contains('\n'),
        !value.contains('\n'),
    ensures
        ({
            let line = new_indent(ls) + env_flag(key, value);
            let put = if more {
                line + " \\"@
            } else {
                line
            };
            !put.contains('\n') && put.len() > 0 && strip_cr(put) == put && line.len() > 0
                && line.last() == '"'
        }),
{
    reveal_strlit("  ");
    reveal_strlit("-e ");
    reveal_strlit("=");
    reveal_strlit(" \\");
    reveal_strlit("\\\\");
    reveal_strlit("\\\"");
    let n = ls.len() as int;
    let indent = new_indent(ls);
    assert(!indent.contains('\n')) by {
        match last_marked(ls, Mark::Env, n) {
            Some(i) => {
                lemma_last_marked(ls, Mark::Env, n);
                lemma_lead(ls[i], Class::Space);
                lemma_part_lacks(ls[i], 0, lead(ls[i], Class::Space) as int, '\n');
            },
            None => match last_marked(ls, Mark::Flag, n) {
                Some(i) => {
                    lemma_last_marked(ls, Mark::Flag, n);
                    lemma_lead(ls[i], Class::Space);
                    lemma_part_lacks(ls[i], 0, lead(ls[i], Class::Space) as int, '\n');
                },
                None => {},
            },
        }
    }
    let once = replace_char(value, '\\', "\\\\"@);
    lemma_replace_lacks(value, '\\', "\\\\"@, '\n');
    lemma_replace_lacks(once, '"', "\\\""@, '\n');
    let inner = replace_char(once, '"', "\\\""@);
    let quoted = shell_quoted(value);
    lemma_concat_lacks(seq!['"'], inner, '\n');
    lemma_concat_lacks(seq!['"'] + inner, seq!['"'], '\n');
    lemma_concat_lacks("-e "@, key, '\n');
    lemma_concat_lacks("-e "@ + key, "="@, '\n');
    lemma_concat_lacks("-e "@ + key + "="@, quoted, '\n');
    let flag = env_flag(key, value);
    lemma_concat_lacks(indent, flag, '\n');
    let line = indent + flag;
    assert(quoted.last() == '"');
    assert(flag.last() == '"');
    assert(line.last() == '"');
    if more {
        lemma_concat_lacks(line, " \\"@, '\n');
        assert((line + " \\"@).last() == '\\');
    }
}

/// The last of the first `n` lines that is what `mark` says is one of them.
proof fn lemma_last_marked(ls: Seq<Seq<char>>, mark: Mark, n: int)
    requires
        0 <= n <= ls.len(),
    ensures
        match last_marked(ls, mark, n) {
            Some(i) => 0 <= i < n && marked(ls, i, mark),
            None => true,
        },
    decreases n,
{
    if n > 0 && !marked(ls, n - 1, mark) {
        lemma_last_marked(ls, mark, n - 1);
    }
}

/// The anchor is one of the lines.
pub proof fn lemma_anchor_in_range(ls: Seq<Seq<char>>)
    ensures
        match anchor(ls) {
            Some(a) => 0 <= a < ls.len(),
            None => true,
        },
{
    let n = ls.len() as int;
    lemma_last_marked(ls, Mark::Env, n);
    lemma_last_marked(ls, Mark::Flag, n);
    lemma_last_marked(ls, Mark::Image, n);
}

/// A line made to continue is not empty, holds no line feed where the line
/// holds none, and does not end in a carriage return where the line does not.
proof fn lemma_continued_is_plain(line: Seq<char>)
    requires
        !line.contains('\n'),
    ensures
        !continued(line).contains('\n'),
        strip_cr(line) == line ==> strip_cr(continued(line)) == continued(line),
        continued(line).len() > 0,
{
    reveal_strlit(" \\");
    reveal_strlit("\\");
    let t = trim_end(line, Class::Space);
    lemma_trail(line, Class::Space);
    if ends_with(t, "\\"@) {
        assert(t.len() > 0);
    } else {
        lemma_part_lacks(line, 0, line.len() - crate::text::trail(line, Class::Space), '\n');
        lemma_concat_lacks(t, " \\"@, '\n');
        assert((t + " \\"@).last() == '\\');
    }
}


/// Adding a variable to a script and taking its line out again gives back the
/// script line by line, each line with its ending, but for the line before the
/// added one: it continues where the command goes on after it and does not
/// where it does not, and it has an ending where it had none. Where that line
/// continued before and the command goes on after it, the script comes back
/// as it was, character for character. This holds of a script with a line to
/// add the variable after, where that line does not end in a carriage return
/// that no line feed follows, and of a key and a value without line feed.
pub proof fn lemma_add_then_remove(content: Seq<char>, key: Seq<char>, value: Seq<char>)
    requires
        anchor(lines(content)) is Some,
        !key.contains('\n'),
        !value.contains('\n'),
        line_ends(content)[anchor(lines(content))->0].len() > 0 || strip_cr(
            lines(content)[anchor(lines(content))->0],
        ) == lines(content)[anchor(lines(content))->0],
    ensures
        ({
            let ls = lines(content);
            let es = line_ends(content);
            let a = anchor(ls)->0;
            let added = with_env_var(content, key, value);
            let back = without_lines(added, only_line(a + 1, ls.len() as int + 1));
            &&& 0 <= a < ls.len()
            &&& lines(added) == inserted_after(ls, a, new_indent(ls) + env_flag(key, value))
            &&& line_ends(added) == ends_after(es, a)
            &&& back == with_ends(ls.update(a, mended(ls, a)), es.update(a, end_or_feed(es[a])))
            &&& goes_on_after(ls, a) && ends_with(trim_end(ls[a], Class::Space), "\\"@) ==> back
                == content
            &&& key_hits(lines(added), key) == only_line(a + 1, ls.len() as int + 1)
                ==> without_env_var(added, key) == back
        }),
{
    reveal_strlit("\n");
    reveal_strlit("\r\n");
    let ls = lines(content);
    let es = line_ends(content);
    let a = anchor(ls)->0;
    let n = ls.len() as int;
    lemma_anchor_in_range(ls);
    lemma_lines_well_ended(content);
    lemma_unlines_lines(content);
    let line = new_indent(ls) + env_flag(key, value);
    let put = inserted_after(ls, a, line);
    let ends = ends_after(es, a);
    let added = with_env_var(content, key, value);
    assert(added == with_ends(put, ends));
    lemma_new_line_is_plain(ls, key, value, goes_on_after(ls, a));
    lemma_continued_is_plain(ls[a]);
    assert(put.len() == n + 1);
    assert(ends.len() == n + 1);
    assert forall|i: int| 0 <= i < put.len() implies !(#[trigger] put[i]).contains('\n') by {
        if i < a {
            assert(put[i] == ls[i]);
        } else if i > a + 1 {
            assert(put[i] == ls[i - 1]);
        }
    }
    assert forall|i: int| 0 <= i < put.len() implies (#[trigger] ends[i]) == "\r\n"@ || (ends[i]
        == "\n"@ && strip_cr(put[i]) == put[i]) || (ends[i].len() == 0 && i == put.len() - 1
        && put[i].len() > 0) by {
        if i < a {
            assert(put[i] == ls[i]);
            assert(ends[i] == es[i]);
        } else if i == a {
            assert(put[i] == continued(ls[a]));
            assert(ends[i] == end_or_feed(es[a]));
        } else if i == a + 1 {
            assert(ends[i] == es[a]);
        } else {
            assert(put[i] == ls[i - 1]);
            assert(ends[i] == es[i - 1]);
        }
    }
    lemma_lines_of_unlines(put, ends);
    lemma_insert_then_remove(ls, es, a, line);
    let hits = only_line(a + 1, n + 1);
    assert(hit(hits, a + 1));
    assert(any_hit(hits, lines(added).len() as int));
    if goes_on_after(ls, a) && ends_with(trim_end(ls[a], Class::Space), "\\"@) {
        assert(es[a].len() > 0);
        assert(ls.update(a, mended(ls, a)) == ls);
        assert(es.update(a, end_or_feed(es[a])) == es);
    }
}


/// Adding a variable among the flags of a command and removing it again
/// leaves what is read of the script as it was: the text comes back character
/// for character, and with it every variable, value for value. This holds
/// where the line to add after continues and the command goes on after it,
/// and where the pattern for the key finds the added line and no other line:
/// that much is asked of the pattern and not proved of it.
pub proof fn lemma_add_then_remove_keeps_variables(
    content: Seq<char>,
    key: Seq<char>,
    value: Seq<char>,
    path: Seq<char>,
    client_name: Seq<char>,
)
    requires
        anchor(lines(content)) is Some,
        !key.contains('\n'),
        !value.contains('\n'),
        goes_on_after(lines(content), anchor(lines(content))->0),
        ends_with(
            trim_end(lines(content)[anchor(lines(content))->0], Class::Space),
            "\\"@,
        ),
    ensures
        ({
            let added = with_env_var(content, key, value);
            let back = without_env_var(added, key);
            key_hits(lines(added), key) == only_line(
                anchor(lines(content))->0 + 1,
                lines(content).len() as int + 1,
            ) ==> back == content && env_vars_in(back) == env_vars_in(content) && parsed(
                back,
                path,
                client_name,
            ) == parsed(content, path, client_name)
        }),
{
    let a = anchor(lines(content))->0;
    lemma_anchor_in_range(lines(content));
    lemma_lines_well_ended(content);
    reveal_strlit("\n");
    reveal_strlit("\r\n");
    assert(line_ends(content)[a].len() > 0);
    lemma_add_then_remove(content, key, value);
}

} // verus!
