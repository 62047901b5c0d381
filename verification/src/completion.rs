//! Completing a path that was typed in part from the names that begin with
//! what was typed.

use crate::docker::discovery::listed;
use crate::models::host::{Host, HostView};
use crate::number::{decimal, push_decimal};
use crate::search::{ends_with, finishes_with, lines_of, occurs_at_index, starts_with};
use crate::text::{
    append, chars_of, concat2, concat3, copy_chars, copy_str, opt_view, slice_of, str_eq, string_of,
    trim, trim_ws, views, Class,
};
use vstd::prelude::*;

verus! {

/// How many characters two texts have in common at their start.
pub open spec fn common_len(a: Seq<char>, b: Seq<char>) -> nat
    decreases a.len(),
{
    if a.len() > 0 && b.len() > 0 && a[0] == b[0] {
        1 + common_len(a.drop_first(), b.drop_first())
    } else {
        0
    }
}

/// The longest text with which the first `n` texts all begin: the first text
/// where there is only one, and the empty text where there is none.
pub open spec fn common_upto(entries: Seq<Seq<char>>, n: int) -> Seq<char>
    decreases n,
{
    if entries.len() == 0 {
        Seq::empty()
    } else if n <= 1 {
        entries[0]
    } else {
        let prev = common_upto(entries, n - 1);
        prev.take(common_len(prev, entries[n - 1]) as int)
    }
}

/// The longest text with which all the texts begin.
pub open spec fn common_prefix(entries: Seq<Seq<char>>) -> Seq<char> {
    common_upto(entries, entries.len() as int)
}

proof fn lemma_common_len_is(a: Seq<char>, b: Seq<char>, n: int)
    requires
        0 <= n <= a.len(),
        n <= b.len(),
        a.take(n) == b.take(n),
        n == a.len() || n == b.len() || a[n] != b[n],
    ensures
        common_len(a, b) == n,
    decreases n,
{
    if n > 0 {
        assert(a[0] == a.take(n)[0]);
        assert(b[0] == b.take(n)[0]);
        let a1 = a.drop_first();
        let b1 = b.drop_first();
        assert(a1.take(n - 1) == a.take(n).drop_first());
        assert(b1.take(n - 1) == b.take(n).drop_first());
        if n < a.len() && n < b.len() {
            assert(a1[n - 1] == a[n]);
            assert(b1[n - 1] == b[n]);
        }
        lemma_common_len_is(a1, b1, n - 1);
    }
}

/// How many characters the two texts have in common at their start.
pub fn common_length(a: &Vec<char>, b: &Vec<char>) -> (r: usize)
    ensures
        r == common_len(a@, b@),
        r <= a.len(),
{
    let mut i: usize = 0;
    while i < a.len() && i < b.len() && a[i] == b[i]
        invariant
            i <= a.len(),
            i <= b.len(),
            a@.take(i as int) == b@.take(i as int),
        decreases a.len() - i,
    {
        i += 1;
        assert(a@.take(i as int) == a@.take(i - 1).push(a@[i - 1]));
        assert(b@.take(i as int) == b@.take(i - 1).push(b@[i - 1]));
    }
    proof {
        lemma_common_len_is(a@, b@, i as int);
    }
    i
}

/// The longest text with which all the texts begin.
pub fn longest_common_prefix(entries: &Vec<Vec<char>>) -> (r: Vec<char>)
    ensures
        r@ == common_prefix(views(entries@)),
{
    assert(views(entries@).len() == entries.len());
    if entries.len() == 0 {
        return Vec::new();
    }
    let mut common = copy_chars(&entries[0]);
    assert(views(entries@)[0] == entries@[0]@);
    let mut i: usize = 1;
    while i < entries.len()
        invariant
            1 <= i <= entries.len(),
            common@ == common_upto(views(entries@), i as int),
        decreases entries.len() - i,
    {
        assert(views(entries@)[i as int] == entries@[i as int]@);
        let n = common_length(&common, &entries[i]);
        common = slice_of(&common, 0, n);
        i += 1;
    }
    assert(views(entries@).len() == entries.len());
    common
}

/// The names among the first `n` that begin with the prefix, in order.
pub open spec fn matching_upto(names: Seq<Seq<char>>, prefix: Seq<char>, n: int) -> Seq<Seq<char>>
    decreases n,
{
    if n <= 0 {
        Seq::empty()
    } else if starts_with(names[n - 1], prefix) {
        matching_upto(names, prefix, n - 1).push(names[n - 1])
    } else {
        matching_upto(names, prefix, n - 1)
    }
}

/// What the names that begin with the prefix have in common at their start;
/// `None` where no name begins with it.
pub open spec fn completion(names: Seq<Seq<char>>, prefix: Seq<char>) -> Option<Seq<char>> {
    let found = matching_upto(names, prefix, names.len() as int);
    if found.len() == 0 {
        None
    } else {
        Some(common_prefix(found))
    }
}

/// What the names that begin with the prefix have in common at their start.
pub fn complete_among(names: &Vec<Vec<char>>, prefix: &Vec<char>) -> (r: Option<Vec<char>>)
    ensures
        match r {
            Some(c) => completion(views(names@), prefix@) == Some(c@),
            None => completion(views(names@), prefix@) is None,
        },
{
    let mut found: Vec<Vec<char>> = Vec::new();
    let mut i: usize = 0;
    assert(views(found@) == matching_upto(views(names@), prefix@, 0));
    while i < names.len()
        invariant
            i <= names.len(),
            views(found@) == matching_upto(views(names@), prefix@, i as int),
        decreases names.len() - i,
    {
        let ghost before = views(found@);
        assert(views(names@)[i as int] == names@[i as int]@);
        if occurs_at_index(&names[i], prefix, 0) {
            found.push(copy_chars(&names[i]));
            assert(views(found@) == before.push(names@[i as int]@));
        }
        i += 1;
    }
    assert(views(names@).len() == names.len());
    assert(views(found@).len() == found.len());
    if found.len() == 0 {
        None
    } else {
        Some(longest_common_prefix(&found))
    }
}

/// What the names that begin with the prefix have in common at their start.
pub fn complete_name(names: &Vec<String>, prefix: &str) -> (r: Option<String>)
    ensures
        match r {
            Some(c) => completion(views(names@), prefix@) == Some(c@),
            None => completion(views(names@), prefix@) is None,
        },
{
    let mut list: Vec<Vec<char>> = Vec::new();
    let mut i: usize = 0;
    while i < names.len()
        invariant
            i <= names.len(),
            views(list@) == views(names@).take(i as int),
        decreases names.len() - i,
    {
        let ghost before = views(list@);
        list.push(chars_of(names[i].as_str()));
        i += 1;
        assert(views(list@) == before.push(names@[i - 1]@));
        assert(views(list@) == views(names@).take(i as int));
    }
    assert(views(names@).take(names.len() as int) == views(names@));
    match complete_among(&list, &chars_of(prefix)) {
        Some(c) => Some(string_of(&c)),
        None => None,
    }
}

/// The index of the last `/` in a text.
pub open spec fn last_slash(s: Seq<char>) -> Option<int>
    decreases s.len(),
{
    if s.len() == 0 {
        None
    } else if s.last() == '/' {
        Some(s.len() - 1)
    } else {
        last_slash(s.drop_last())
    }
}

/// The directory to list for a path typed in part: the path where it ends in
/// `/`, else the path up to its last `/`, and `./` where it has none.
pub open spec fn listed_dir(partial: Seq<char>) -> Seq<char> {
    match last_slash(partial) {
        Some(i) => partial.take(i + 1),
        None => "./"@,
    }
}

/// What was typed of the name: what follows the last `/` of the path.
pub open spec fn typed_name(partial: Seq<char>) -> Seq<char> {
    match last_slash(partial) {
        Some(i) => partial.skip(i + 1),
        None => partial,
    }
}

/// The path on the host completed from the names that `ls -1` gave for its
/// directory: the directory and what the names that begin with the typed name
/// have in common. `None` for an empty path and where no name begins so.
pub open spec fn remote_completion(partial: Seq<char>, output: Seq<char>) -> Option<Seq<char>> {
    if partial.len() == 0 {
        None
    } else {
        match completion(listed(output), typed_name(partial)) {
            Some(common) => Some(
                (match last_slash(partial) {
                    Some(i) => partial.take(i + 1),
                    None => "./"@,
                }) + common,
            ),
            None => None,
        }
    }
}

fn find_last_slash(s: &Vec<char>) -> (r: Option<usize>)
    ensures
        match r {
            Some(i) => last_slash(s@) == Some(i as int) && i < s.len(),
            None => last_slash(s@) is None,
        },
{
    let mut i: usize = s.len();
    assert(s@.take(s.len() as int) == s@);
    while i > 0
        invariant
            i <= s.len(),
            last_slash(s@) == last_slash(s@.take(i as int)),
        decreases i,
    {
        assert(s@.take(i as int).last() == s@[i - 1]);
        assert(s@.take(i as int).drop_last() == s@.take(i - 1));
        if s[i - 1] == '/' {
            return Some(i - 1);
        }
        i -= 1;
    }
    None
}

/// The directory to list for the path typed in part.
pub fn directory_to_list(partial: &str) -> (r: String)
    ensures
        r@ == listed_dir(partial@),
{
    let p = chars_of(partial);
    match find_last_slash(&p) {
        Some(i) => string_of(&slice_of(&p, 0, i + 1)),
        None => copy_str("./"),
    }
}

/// The path on the host completed from what `ls -1` printed for its
/// directory.
pub fn complete_remote_path(partial: &str, output: &str) -> (r: Option<String>)
    ensures
        match r {
            Some(c) => remote_completion(partial@, output@) == Some(c@),
            None => remote_completion(partial@, output@) is None,
        },
{
    let p = chars_of(partial);
    if p.len() == 0 {
        return None;
    }
    let slash = find_last_slash(&p);
    let prefix = match slash {
        Some(i) => slice_of(&p, i + 1, p.len()),
        None => copy_chars(&p),
    };
    let ls = lines_of(&chars_of(output));
    assert(views(ls@).len() == ls.len());
    let mut names: Vec<Vec<char>> = Vec::new();
    let mut i: usize = 0;
    assert(views(names@) == crate::docker::discovery::entries_in(views(ls@), 0));
    while i < ls.len()
        invariant
            i <= ls.len(),
            views(names@) == crate::docker::discovery::entries_in(views(ls@), i as int),
        decreases ls.len() - i,
    {
        let ghost before = views(names@);
        assert(views(ls@)[i as int] == ls@[i as int]@);
        let t = trim_ws(&ls[i]);
        if t.len() > 0 {
            names.push(t);
            assert(views(names@) == before.push(trim(ls@[i as int]@, Class::Space)));
        }
        i += 1;
    }
    match complete_among(&names, &prefix) {
        Some(common) => {
            let mut out = match slash {
                Some(i) => slice_of(&p, 0, i + 1),
                None => chars_of("./"),
            };
            append(&mut out, &common);
            Some(string_of(&out))
        },
        None => None,
    }
}

/// Two arguments for each key: `-i`, then the path.
pub open spec fn key_arguments(keys: Seq<Seq<char>>, n: int) -> Seq<Seq<char>>
    decreases n,
{
    if n <= 0 {
        Seq::empty()
    } else {
        key_arguments(keys, n - 1) + seq!["-i"@, keys[n - 1]]
    }
}

/// The arguments with which `ssh` lists a directory of a host, one name to a
/// line: the address with the user before it, port and keys, the option that
/// accepts the key of a host that is new, and the command.
pub open spec fn list_arguments(h: HostView, dir: Seq<char>) -> Seq<Seq<char>> {
    seq![
        match h.user {
            Some(user) => user + "@"@ + h.hostname,
            None => h.hostname,
        },
    ] + (match h.port {
        Some(port) => seq!["-p"@, decimal(port as nat)],
        None => Seq::empty(),
    }) + (match h.identity_file {
        Some(keys) => key_arguments(keys, keys.len() as int),
        None => Seq::empty(),
    }) + seq!["-o"@, "StrictHostKeyChecking=no"@, "ls -1 '"@ + dir + "'"@]
}

/// The arguments with which `ssh` lists the directory of the host.
pub fn remote_list_arguments(host: &Host, dir: &str) -> (r: Vec<String>)
    ensures
        views(r@) == list_arguments(host@, dir@),
{
    let mut args: Vec<String> = Vec::new();
    let target = match &host.user {
        Some(user) => concat3(user.as_str(), "@", host.hostname.as_str()),
        None => host.hostname.clone(),
    };
    args.push(target);
    let ghost a = views(args@);
    assert(a == seq![
        match host@.user {
            Some(user) => user + "@"@ + host@.hostname,
            None => host@.hostname,
        },
    ]);
    match host.port {
        Some(port) => {
            let mut p: Vec<char> = Vec::new();
            push_decimal(&mut p, port as u64);
            assert(p@ == decimal(port as nat));
            args.push(copy_str("-p"));
            args.push(string_of(&p));
            assert(views(args@) == a + seq!["-p"@, decimal(port as nat)]);
        },
        None => {
            assert(views(args@) == a + Seq::<Seq<char>>::empty());
        },
    }
    let ghost c = views(args@);
    match &host.identity_file {
        Some(keys) => {
            let mut i: usize = 0;
            assert(views(args@) == c + key_arguments(views(keys@), 0));
            while i < keys.len()
                invariant
                    i <= keys.len(),
                    views(args@) == c + key_arguments(views(keys@), i as int),
                decreases keys.len() - i,
            {
                let ghost before = views(args@);
                assert(views(keys@)[i as int] == keys@[i as int]@);
                args.push(copy_str("-i"));
                args.push(keys[i].clone());
                i += 1;
                assert(views(args@) == before + seq!["-i"@, keys@[i - 1]@]);
                assert(views(args@) == c + (key_arguments(views(keys@), i - 1) + seq![
                    "-i"@,
                    keys@[i - 1]@,
                ]));
            }
            assert(views(keys@).len() == keys.len());
        },
        None => {
            assert(views(args@) == c + Seq::<Seq<char>>::empty());
        },
    }
    let ghost d = views(args@);
    args.push(copy_str("-o"));
    args.push(copy_str("StrictHostKeyChecking=no"));
    args.push(concat3("ls -1 '", dir, "'"));
    assert(views(args@) == d + seq!["-o"@, "StrictHostKeyChecking=no"@, "ls -1 '"@ + dir@ + "'"@]);
    args
}


/// The directory to list and the start of the name for a local path typed in
/// part, given what the path has as its parent and as its last part: the path
/// itself and nothing where it ends in `/`; the parent and the last part
/// where the parent is not empty; else the current directory and the path.
/// `None` for an empty path, and where a last part is called for and there is
/// none.
pub open spec fn local_target(
    partial: Seq<char>,
    parent: Option<Seq<char>>,
    file_name: Option<Seq<char>>,
) -> Option<(Seq<char>, Seq<char>)> {
    if partial.len() == 0 {
        None
    } else if ends_with(partial, "/"@) {
        Some((partial, Seq::empty()))
    } else if parent is Some && parent->0.len() > 0 {
        match file_name {
            Some(name) => Some((parent->0, name)),
            None => None,
        }
    } else {
        Some(("."@, partial))
    }
}

/// The local path completed with what the names have in common: after the
/// path where it ends in `/`, else after the parent and a `/`, and alone
/// where the parent is empty.
pub open spec fn local_completed(
    partial: Seq<char>,
    parent: Option<Seq<char>>,
    common: Seq<char>,
) -> Seq<char> {
    if ends_with(partial, "/"@) {
        partial + common
    } else if parent is Some && parent->0.len() > 0 {
        if parent->0 == "/"@ {
            "/"@ + common
        } else {
            parent->0 + "/"@ + common
        }
    } else {
        common
    }
}

/// The local path completed from the names in its directory.
pub open spec fn local_completion(
    partial: Seq<char>,
    parent: Option<Seq<char>>,
    file_name: Option<Seq<char>>,
    names: Seq<Seq<char>>,
) -> Option<Seq<char>> {
    match local_target(partial, parent, file_name) {
        Some((dir, prefix)) => match completion(names, prefix) {
            Some(common) => Some(local_completed(partial, parent, common)),
            None => None,
        },
        None => None,
    }
}

/// The view of an optional pair of strings.
pub open spec fn pair_view(p: Option<(String, String)>) -> Option<(Seq<char>, Seq<char>)> {
    match p {
        Some((a, b)) => Some((a@, b@)),
        None => None,
    }
}

/// The directory to list and the start of the name, given the parent and the
/// last part of the path.
pub fn local_target_from(partial: &str, parent: &Option<String>, file_name: &Option<String>) -> (r:
    Option<(String, String)>)
    ensures
        pair_view(r) == local_target(partial@, opt_view(*parent), opt_view(*file_name)),
{
    let p = chars_of(partial);
    if p.len() == 0 {
        return None;
    }
    if finishes_with(&p, "/") {
        return Some((copy_str(partial), String::new()));
    }
    let with_parent = match parent {
        Some(dir) => !dir.as_str().is_empty(),
        None => false,
    };
    if with_parent {
        match (parent, file_name) {
            (Some(dir), Some(name)) => Some((dir.clone(), name.clone())),
            _ => None,
        }
    } else {
        Some((copy_str("."), copy_str(partial)))
    }
}

/// The local path completed from the names in its directory, given the parent
/// and the last part of the path.
pub fn complete_local_from(
    partial: &str,
    parent: &Option<String>,
    file_name: &Option<String>,
    names: &Vec<String>,
) -> (r: Option<String>)
    ensures
        opt_view(r) == local_completion(
            partial@,
            opt_view(*parent),
            opt_view(*file_name),
            views(names@),
        ),
{
    match local_target_from(partial, parent, file_name) {
        Some((dir, prefix)) => match complete_name(names, prefix.as_str()) {
            Some(common) => {
                let p = chars_of(partial);
                let with_parent = match parent {
                    Some(dir) => !dir.as_str().is_empty(),
                    None => false,
                };
                if finishes_with(&p, "/") {
                    Some(concat2(partial, common.as_str()))
                } else if with_parent {
                    match parent {
                        Some(dir) => {
                            if str_eq(dir.as_str(), "/") {
                                Some(concat2("/", common.as_str()))
                            } else {
                                Some(concat3(dir.as_str(), "/", common.as_str()))
                            }
                        },
                        None => Some(common),
                    }
                } else {
                    Some(common)
                }
            },
            None => None,
        },
        None => None,
    }
}

/// Asks `Path::parent` for the path without its last part. Nothing is claimed
/// of the value: how a path is parted depends on the system.
#[verifier::external_body]
pub(crate) fn path_parent(path: &str) -> Option<String> {
    std::path::Path::new(path).parent().map(|p| p.to_string_lossy().to_string())
}

/// Asks `Path::file_name` for the last part of the path. Nothing is claimed of
/// the value: how a path is parted depends on the system.
#[verifier::external_body]
pub(crate) fn path_file_name(path: &str) -> Option<String> {
    std::path::Path::new(path).file_name().map(|n| n.to_string_lossy().to_string())
}

/// The directory to list and the start of the name for a local path typed in
/// part, as the system parts the path.
pub fn local_completion_target(partial: &str) -> (r: Option<(String, String)>)
    ensures
        exists|parent: Option<Seq<char>>, file_name: Option<Seq<char>>|
            pair_view(r) == local_target(partial@, parent, file_name),
        partial@.len() == 0 ==> r is None,
{
    let parent = path_parent(partial);
    let file_name = path_file_name(partial);
    let r = local_target_from(partial, &parent, &file_name);
    assert(pair_view(r) == local_target(partial@, opt_view(parent), opt_view(file_name)));
    r
}

/// The local path completed from the names in its directory, as the system
/// parts the path.
pub fn autocomplete_path_among(partial: &str, names: &Vec<String>) -> (r: Option<String>)
    ensures
        exists|parent: Option<Seq<char>>, file_name: Option<Seq<char>>|
            opt_view(r) == local_completion(partial@, parent, file_name, views(names@)),
        partial@.len() == 0 ==> r is None,
{
    let parent = path_parent(partial);
    let file_name = path_file_name(partial);
    let r = complete_local_from(partial, &parent, &file_name, names);
    assert(opt_view(r) == local_completion(
        partial@,
        opt_view(parent),
        opt_view(file_name),
        views(names@),
    ));
    r
}

} // verus!
