//! Text as sequences of characters.
//!
//! Strings cross the library's boundary as `&str` and `String`; inside, text is
//! a `Vec<char>` whose view is the `Seq<char>` that the contracts speak of.

use vstd::prelude::*;

verus! {

/// `String::push` appends one character to the string.
pub assume_specification[ String::push ](s: &mut String, c: char)
    ensures
        final(s)@ == old(s)@.push(c),
;

/// The characters of `s`, in order.
pub fn chars_of(s: &str) -> (v: Vec<char>)
    ensures
        v@ == s@,
{
    let mut v: Vec<char> = Vec::new();
    for c in it: s.chars()
        invariant
            v@ == it.seq().take(it.index()),
            it.seq() == s@,
    {
        v.push(c);
    }
    v
}

/// The string made of the characters of `v`, in order.
pub fn string_of(v: &Vec<char>) -> (s: String)
    ensures
        s@ == v@,
{
    let mut s = String::new();
    let mut i: usize = 0;
    while i < v.len()
        invariant
            i <= v.len(),
            s@ == v@.take(i as int),
        decreases v.len() - i,
    {
        s.push(v[i]);
        i += 1;
        assert(v@.take(i as int) == v@.take(i - 1).push(v@[i - 1]));
    }
    assert(v@.take(v.len() as int) == v@);
    s
}

/// A copy of the characters of `v` from index `from` up to, not including, `to`.
pub fn slice_of(v: &Vec<char>, from: usize, to: usize) -> (r: Vec<char>)
    requires
        from <= to <= v.len(),
    ensures
        r@ == v@.subrange(from as int, to as int),
{
    let mut r: Vec<char> = Vec::new();
    let mut i: usize = from;
    while i < to
        invariant
            from <= i <= to <= v.len(),
            r@ == v@.subrange(from as int, i as int),
        decreases to - i,
    {
        r.push(v[i]);
        i += 1;
        assert(v@.subrange(from as int, i as int) == v@.subrange(from as int, i - 1).push(
            v@[i - 1],
        ));
    }
    r
}

/// Appends the characters of `tail` to `v`.
pub fn append(v: &mut Vec<char>, tail: &Vec<char>)
    ensures
        final(v)@ == old(v)@ + tail@,
{
    let mut i: usize = 0;
    while i < tail.len()
        invariant
            i <= tail.len(),
            v@ == old(v)@ + tail@.take(i as int),
        decreases tail.len() - i,
    {
        v.push(tail[i]);
        i += 1;
        assert(tail@.take(i as int) == tail@.take(i - 1).push(tail@[i - 1]));
        assert(v@ == old(v)@ + tail@.take(i as int));
    }
    assert(tail@.take(tail.len() as int) == tail@);
}

/// Appends the characters of the string `tail` to `v`.
pub fn append_str(v: &mut Vec<char>, tail: &str)
    ensures
        final(v)@ == old(v)@ + tail@,
{
    let t = chars_of(tail);
    append(v, &t);
}

/// Whether the two texts hold the same characters.
pub fn same(a: &Vec<char>, b: &Vec<char>) -> (r: bool)
    ensures
        r == (a@ == b@),
{
    if a.len() != b.len() {
        return false;
    }
    let mut i: usize = 0;
    while i < a.len()
        invariant
            i <= a.len(),
            a.len() == b.len(),
            a@.take(i as int) == b@.take(i as int),
        decreases a.len() - i,
    {
        if a[i] != b[i] {
            return false;
        }
        i += 1;
        assert(a@.take(i as int) == a@.take(i - 1).push(a@[i - 1]));
        assert(b@.take(i as int) == b@.take(i - 1).push(b@[i - 1]));
    }
    assert(a@.take(a.len() as int) == a@);
    assert(b@.take(b.len() as int) == b@);
    true
}


/// The views of the items of `v`, in order.
pub open spec fn views<T: View>(v: Seq<T>) -> Seq<T::V> {
    Seq::new(v.len(), |i: int| v[i]@)
}

/// Whether `c` is white space: the characters with the Unicode property
/// White_Space.
pub open spec fn is_space(c: char) -> bool {
    let n = c as u32;
    (0x09 <= n <= 0x0d) || n == 0x20 || n == 0x85 || n == 0xa0 || n == 0x1680 || (0x2000 <= n
        <= 0x200a) || n == 0x2028 || n == 0x2029 || n == 0x202f || n == 0x205f || n == 0x3000
}

pub fn is_whitespace(c: char) -> (r: bool)
    ensures
        r == is_space(c),
{
    let n: u32 = c as u32;
    (0x09 <= n && n <= 0x0d) || n == 0x20 || n == 0x85 || n == 0xa0 || n == 0x1680 || (0x2000 <= n
        && n <= 0x200a) || n == 0x2028 || n == 0x2029 || n == 0x202f || n == 0x205f || n == 0x3000
}

/// A set of characters, as contracts name it.
pub enum Class {
    /// White space.
    Space,
    /// Everything but white space.
    NotSpace,
    /// The characters of the given text.
    AnyOf(Seq<char>),
    /// Everything but the characters of the given text.
    NoneOf(Seq<char>),
}

impl Class {
    pub open spec fn has(self, c: char) -> bool {
        match self {
            Class::Space => is_space(c),
            Class::NotSpace => !is_space(c),
            Class::AnyOf(set) => set.contains(c),
            Class::NoneOf(set) => !set.contains(c),
        }
    }
}

/// A set of characters, as code holds it.
pub enum CharSet {
    Space,
    NotSpace,
    AnyOf(Vec<char>),
    NoneOf(Vec<char>),
}

impl View for CharSet {
    type V = Class;

    open spec fn view(&self) -> Class {
        match self {
            CharSet::Space => Class::Space,
            CharSet::NotSpace => Class::NotSpace,
            CharSet::AnyOf(set) => Class::AnyOf(set@),
            CharSet::NoneOf(set) => Class::NoneOf(set@),
        }
    }
}

/// Whether `c` is one of the characters of `set`.
pub fn has_char(set: &Vec<char>, c: char) -> (r: bool)
    ensures
        r == set@.contains(c),
{
    let mut i: usize = 0;
    while i < set.len()
        invariant
            i <= set.len(),
            forall|j: int| 0 <= j < i ==> set@[j] != c,
        decreases set.len() - i,
    {
        if set[i] == c {
            return true;
        }
        i += 1;
    }
    false
}

impl CharSet {
    pub fn any_of(set: &str) -> (r: CharSet)
        ensures
            r@ == Class::AnyOf(set@),
    {
        CharSet::AnyOf(chars_of(set))
    }

    pub fn none_of(set: &str) -> (r: CharSet)
        ensures
            r@ == Class::NoneOf(set@),
    {
        CharSet::NoneOf(chars_of(set))
    }

    pub fn has(&self, c: char) -> (r: bool)
        ensures
            r == self@.has(c),
    {
        match self {
            CharSet::Space => is_whitespace(c),
            CharSet::NotSpace => !is_whitespace(c),
            CharSet::AnyOf(set) => has_char(set, c),
            CharSet::NoneOf(set) => !has_char(set, c),
        }
    }
}

/// How many characters at the start of `s` are in `k`, up to the first that is not.
pub open spec fn lead(s: Seq<char>, k: Class) -> nat
    decreases s.len(),
{
    if s.len() > 0 && k.has(s[0]) {
        1 + lead(s.drop_first(), k)
    } else {
        0
    }
}

/// How many characters at the end of `s` are in `k`, back to the last that is not.
pub open spec fn trail(s: Seq<char>, k: Class) -> nat
    decreases s.len(),
{
    if s.len() > 0 && k.has(s.last()) {
        1 + trail(s.drop_last(), k)
    } else {
        0
    }
}

/// `s` without its leading characters in `k`.
pub open spec fn trim_start(s: Seq<char>, k: Class) -> Seq<char> {
    s.skip(lead(s, k) as int)
}

/// `s` without its trailing characters in `k`.
pub open spec fn trim_end(s: Seq<char>, k: Class) -> Seq<char> {
    s.take(s.len() - trail(s, k))
}

/// `s` without its leading and trailing characters in `k`.
pub open spec fn trim(s: Seq<char>, k: Class) -> Seq<char> {
    trim_end(trim_start(s, k), k)
}

/// `lead` is the length of the longest prefix within `k`.
pub proof fn lemma_lead(s: Seq<char>, k: Class)
    ensures
        lead(s, k) <= s.len(),
        forall|j: int| 0 <= j < lead(s, k) ==> k.has(#[trigger] s[j]),
        lead(s, k) < s.len() ==> !k.has(s[lead(s, k) as int]),
    decreases s.len(),
{
    if s.len() > 0 && k.has(s[0]) {
        let t = s.drop_first();
        lemma_lead(t, k);
        assert forall|j: int| 0 <= j < lead(s, k) implies k.has(#[trigger] s[j]) by {
            if j > 0 {
                assert(s[j] == t[j - 1]);
            }
        }
        if lead(s, k) < s.len() {
            assert(s[lead(s, k) as int] == t[lead(t, k) as int]);
        }
    }
}

/// A prefix within `k` that cannot be made longer has the length `lead`.
pub proof fn lemma_lead_is(s: Seq<char>, k: Class, n: int)
    requires
        0 <= n <= s.len(),
        forall|j: int| 0 <= j < n ==> k.has(#[trigger] s[j]),
        n < s.len() ==> !k.has(s[n]),
    ensures
        lead(s, k) == n,
    decreases s.len(),
{
    if n > 0 {
        let t = s.drop_first();
        assert(k.has(s[0]));
        assert forall|j: int| 0 <= j < n - 1 implies k.has(#[trigger] t[j]) by {
            assert(t[j] == s[j + 1]);
        }
        lemma_lead_is(t, k, n - 1);
    }
}

/// `trail` is the length of the longest suffix within `k`.
pub proof fn lemma_trail(s: Seq<char>, k: Class)
    ensures
        trail(s, k) <= s.len(),
        forall|j: int| s.len() - trail(s, k) <= j < s.len() ==> k.has(#[trigger] s[j]),
        trail(s, k) < s.len() ==> !k.has(s[s.len() - trail(s, k) - 1]),
    decreases s.len(),
{
    if s.len() > 0 && k.has(s.last()) {
        let t = s.drop_last();
        lemma_trail(t, k);
        assert forall|j: int| s.len() - trail(s, k) <= j < s.len() implies k.has(
            #[trigger] s[j],
        ) by {
            if j < s.len() - 1 {
                assert(s[j] == t[j]);
            }
        }
        if trail(s, k) < s.len() {
            assert(s[s.len() - trail(s, k) - 1] == t[t.len() - trail(t, k) - 1]);
        }
    }
}

/// A suffix within `k` that cannot be made longer has the length `trail`.
pub proof fn lemma_trail_is(s: Seq<char>, k: Class, n: int)
    requires
        0 <= n <= s.len(),
        forall|j: int| s.len() - n <= j < s.len() ==> k.has(#[trigger] s[j]),
        n < s.len() ==> !k.has(s[s.len() - n - 1]),
    ensures
        trail(s, k) == n,
    decreases s.len(),
{
    if n > 0 {
        let t = s.drop_last();
        assert(k.has(s[s.len() - 1]));
        assert forall|j: int| t.len() - (n - 1) <= j < t.len() implies k.has(#[trigger] t[j]) by {
            assert(t[j] == s[j]);
        }
        lemma_trail_is(t, k, n - 1);
    }
}

/// The number of leading characters of `s` that are in `set`.
pub fn lead_len(s: &Vec<char>, set: &CharSet) -> (n: usize)
    ensures
        n == lead(s@, set@),
        n <= s.len(),
{
    let mut i: usize = 0;
    while i < s.len() && set.has(s[i])
        invariant
            i <= s.len(),
            forall|j: int| 0 <= j < i ==> set@.has(#[trigger] s@[j]),
        decreases s.len() - i,
    {
        i += 1;
    }
    proof {
        lemma_lead_is(s@, set@, i as int);
    }
    i
}

/// The number of trailing characters of `s` that are in `set`.
pub fn trail_len(s: &Vec<char>, set: &CharSet) -> (n: usize)
    ensures
        n == trail(s@, set@),
        n <= s.len(),
{
    let mut i: usize = 0;
    while i < s.len() && set.has(s[s.len() - 1 - i])
        invariant
            i <= s.len(),
            forall|j: int| s.len() - i <= j < s.len() ==> set@.has(#[trigger] s@[j]),
        decreases s.len() - i,
    {
        i += 1;
    }
    proof {
        lemma_trail_is(s@, set@, i as int);
    }
    i
}

pub fn trim_start_in(s: &Vec<char>, set: &CharSet) -> (r: Vec<char>)
    ensures
        r@ == trim_start(s@, set@),
{
    let n = lead_len(s, set);
    slice_of(s, n, s.len())
}

pub fn trim_end_in(s: &Vec<char>, set: &CharSet) -> (r: Vec<char>)
    ensures
        r@ == trim_end(s@, set@),
{
    let n = trail_len(s, set);
    slice_of(s, 0, s.len() - n)
}

pub fn trim_in(s: &Vec<char>, set: &CharSet) -> (r: Vec<char>)
    ensures
        r@ == trim(s@, set@),
{
    let t = trim_start_in(s, set);
    trim_end_in(&t, set)
}

/// `s` without leading and trailing white space.
pub fn trim_ws(s: &Vec<char>) -> (r: Vec<char>)
    ensures
        r@ == trim(s@, Class::Space),
{
    trim_in(s, &CharSet::Space)
}


/// The view of an optional string.
pub open spec fn opt_view(o: Option<String>) -> Option<Seq<char>> {
    match o {
        Some(s) => Some(s@),
        None => None,
    }
}

/// `s` with each `c` in it replaced by the text `with`.
pub open spec fn replace_char(s: Seq<char>, c: char, with: Seq<char>) -> Seq<char>
    decreases s.len(),
{
    if s.len() == 0 {
        Seq::empty()
    } else {
        replace_char(s.drop_last(), c, with) + (if s.last() == c {
            with
        } else {
            seq![s.last()]
        })
    }
}

/// A character that is neither in a text nor in what replaces another
/// character is not in the text after the replacing.
pub proof fn lemma_replace_lacks(s: Seq<char>, c: char, with: Seq<char>, other: char)
    requires
        !s.contains(other),
        !with.contains(other),
    ensures
        !replace_char(s, c, with).contains(other),
    decreases s.len(),
{
    if s.len() > 0 {
        let init = s.drop_last();
        assert forall|j: int| 0 <= j < init.len() implies init[j] != other by {
            assert(init[j] == s[j]);
        }
        lemma_replace_lacks(init, c, with, other);
        let head = replace_char(init, c, with);
        let tail = if s.last() == c {
            with
        } else {
            seq![s.last()]
        };
        assert(s[s.len() - 1] != other);
        assert forall|j: int| 0 <= j < (head + tail).len() implies (head + tail)[j] != other by {
            if j < head.len() {
                assert(head[j] != other);
            } else {
                assert(tail[j - head.len()] != other);
            }
        }
    }
}

/// `s` with each `c` in it replaced by the string `with`.
pub fn replace_each(s: &Vec<char>, c: char, with: &str) -> (r: Vec<char>)
    ensures
        r@ == replace_char(s@, c, with@),
{
    let w = chars_of(with);
    let mut out: Vec<char> = Vec::new();
    let mut i: usize = 0;
    while i < s.len()
        invariant
            i <= s.len(),
            w@ == with@,
            out@ == replace_char(s@.take(i as int), c, with@),
        decreases s.len() - i,
    {
        let ghost before = out@;
        if s[i] == c {
            append(&mut out, &w);
        } else {
            out.push(s[i]);
            assert(out@ == before + seq![s@[i as int]]);
        }
        i += 1;
        proof {
            let cur = s@.take(i as int);
            assert(cur.drop_last() == s@.take(i - 1));
            assert(cur.last() == s@[i - 1]);
        }
    }
    assert(s@.take(s.len() as int) == s@);
    out
}

/// The lower-case form of a text, as `str::to_lowercase` gives it.
pub uninterp spec fn lowercase(s: Seq<char>) -> Seq<char>;

/// The upper-case form of a text, as `str::to_uppercase` gives it.
pub uninterp spec fn uppercase(s: Seq<char>) -> Seq<char>;

/// Calls `str::to_lowercase`, which maps each character as Unicode's
/// Lowercase property defines; the result depends on the text alone.
#[verifier::external_body]
pub(crate) fn to_lowercase(s: &str) -> (r: String)
    ensures
        r@ == lowercase(s@),
{
    s.to_lowercase()
}

/// Calls `str::to_uppercase`, which maps each character as Unicode's
/// Uppercase property defines; the result depends on the text alone.
#[verifier::external_body]
pub(crate) fn to_uppercase(s: &str) -> (r: String)
    ensures
        r@ == uppercase(s@),
{
    s.to_uppercase()
}


/// Whether the two strings hold the same characters.
pub fn str_eq(a: &str, b: &str) -> (r: bool)
    ensures
        r == (a@ == b@),
{
    same(&chars_of(a), &chars_of(b))
}

/// A copy of the string.
pub fn copy_str(s: &str) -> (r: String)
    ensures
        r@ == s@,
{
    string_of(&chars_of(s))
}

/// A copy of the strings, in order.
pub fn copy_strings(v: &Vec<String>) -> (r: Vec<String>)
    ensures
        views(r@) == views(v@),
{
    let mut out: Vec<String> = Vec::new();
    let mut i: usize = 0;
    while i < v.len()
        invariant
            i <= v.len(),
            views(out@) == views(v@).take(i as int),
        decreases v.len() - i,
    {
        let ghost before = views(out@);
        out.push(v[i].clone());
        i += 1;
        assert(views(out@) == before.push(v@[i - 1]@));
        assert(views(out@) == views(v@).take(i as int));
    }
    assert(views(v@).take(v.len() as int) == views(v@));
    out
}

/// A copy of the optional string.
pub fn copy_opt(o: &Option<String>) -> (r: Option<String>)
    ensures
        opt_view(r) == opt_view(*o),
{
    match o {
        Some(s) => Some(s.clone()),
        None => None,
    }
}


/// A copy of the text.
pub fn copy_chars(v: &Vec<char>) -> (r: Vec<char>)
    ensures
        r@ == v@,
{
    let r = slice_of(v, 0, v.len());
    assert(v@.subrange(0, v.len() as int) == v@);
    r
}

/// Appends copies of the texts of `src` from index `from` up to, not
/// including, `to`.
pub fn append_texts(out: &mut Vec<Vec<char>>, src: &Vec<Vec<char>>, from: usize, to: usize)
    requires
        from <= to <= src.len(),
    ensures
        views(final(out)@) == views(old(out)@) + views(src@).subrange(from as int, to as int),
{
    let mut i: usize = from;
    assert(views(out@) == views(old(out)@) + views(src@).subrange(from as int, from as int));
    while i < to
        invariant
            from <= i <= to <= src.len(),
            views(out@) == views(old(out)@) + views(src@).subrange(from as int, i as int),
        decreases to - i,
    {
        let ghost before = views(out@);
        out.push(copy_chars(&src[i]));
        i += 1;
        assert(views(out@) == before.push(src@[i - 1]@));
        assert(views(out@) == views(old(out)@) + views(src@).subrange(from as int, i as int));
    }
}


/// The two strings, one after the other.
pub fn concat2(a: &str, b: &str) -> (r: String)
    ensures
        r@ == a@ + b@,
{
    let mut out = chars_of(a);
    append_str(&mut out, b);
    string_of(&out)
}

/// The three strings, one after the other.
pub fn concat3(a: &str, b: &str, c: &str) -> (r: String)
    ensures
        r@ == a@ + b@ + c@,
{
    let mut out = chars_of(a);
    append_str(&mut out, b);
    append_str(&mut out, c);
    string_of(&out)
}


/// The view of an optional list of strings.
pub open spec fn opt_views(o: Option<Vec<String>>) -> Option<Seq<Seq<char>>> {
    match o {
        Some(v) => Some(views(v@)),
        None => None,
    }
}

/// A copy of the optional list of strings.
pub fn copy_opt_strings(o: &Option<Vec<String>>) -> (r: Option<Vec<String>>)
    ensures
        opt_views(r) == opt_views(*o),
{
    match o {
        Some(v) => Some(copy_strings(v)),
        None => None,
    }
}

/// Whether one of the strings is `s`.
pub fn has_string(list: &Vec<String>, s: &str) -> (r: bool)
    ensures
        r == views(list@).contains(s@),
{
    let mut i: usize = 0;
    while i < list.len()
        invariant
            i <= list.len(),
            forall|j: int| 0 <= j < i ==> views(list@)[j] != s@,
        decreases list.len() - i,
    {
        if str_eq(list[i].as_str(), s) {
            assert(views(list@)[i as int] == s@);
            return true;
        }
        i += 1;
    }
    false
}

} // verus!
