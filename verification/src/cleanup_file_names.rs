//! Removing bracketed annotations from file and directory names.
//!
//! An annotation is optional whitespace, `[`, any characters but `]`, and
//! `]`. A name is read from the left; wherever an annotation starts it is
//! left out whole, and reading goes on behind it.

use vstd::prelude::*;
use crate::paths::str_eq;
use crate::text::{char_is_space, is_space};

verus! {

/// The first index from `i` on whose character is no whitespace, or the
/// length of `s`.
pub open spec fn skip_spaces(s: Seq<char>, i: int) -> int
    decreases s.len() - i,
{
    if 0 <= i < s.len() && is_space(s[i]) {
        skip_spaces(s, i + 1)
    } else {
        i
    }
}

/// The first index from `i` on that holds `]`, or the length of `s`.
pub open spec fn find_close(s: Seq<char>, i: int) -> int
    decreases s.len() - i,
{
    if 0 <= i < s.len() && s[i] != ']' {
        find_close(s, i + 1)
    } else {
        i
    }
}

/// Where the annotation that starts at `i` ends: behind the first `]` that
/// follows the `[` which stands after the whitespace at `i`. `None` where
/// no annotation starts at `i`.
pub open spec fn annotation_end(s: Seq<char>, i: int) -> Option<int> {
    let open = skip_spaces(s, i);
    if 0 <= open < s.len() && s[open] == '[' {
        let close = find_close(s, open + 1);
        if close < s.len() {
            Some(close + 1)
        } else {
            None
        }
    } else {
        None
    }
}

/// What is left of `s` from `i` on once every annotation is removed.
pub open spec fn stripped_from(s: Seq<char>, i: int) -> Seq<char>
    decreases s.len() - i,
{
    if i < 0 || i >= s.len() {
        Seq::empty()
    } else {
        match annotation_end(s, i) {
            Some(end) => if end > i {
                stripped_from(s, end)
            } else {
                Seq::empty()
            },
            None => seq![s[i]] + stripped_from(s, i + 1),
        }
    }
}

/// The name with every annotation removed.
pub open spec fn stripped(s: Seq<char>) -> Seq<char> {
    stripped_from(s, 0)
}

proof fn lemma_skip_spaces_bounds(s: Seq<char>, i: int)
    requires
        0 <= i <= s.len(),
    ensures
        i <= skip_spaces(s, i) <= s.len(),
        forall|k: int| i <= k < skip_spaces(s, i) ==> is_space(#[trigger] s[k]),
        skip_spaces(s, i) < s.len() ==> !is_space(s[skip_spaces(s, i)]),
    decreases s.len() - i,
{
    if i < s.len() && is_space(s[i]) {
        lemma_skip_spaces_bounds(s, i + 1);
    }
}

proof fn lemma_find_close_bounds(s: Seq<char>, i: int)
    requires
        0 <= i <= s.len(),
    ensures
        i <= find_close(s, i) <= s.len(),
        forall|k: int| i <= k < find_close(s, i) ==> #[trigger] s[k] != ']',
        find_close(s, i) < s.len() ==> s[find_close(s, i)] == ']',
    decreases s.len() - i,
{
    if i < s.len() && s[i] != ']' {
        lemma_find_close_bounds(s, i + 1);
    }
}

/// An annotation has the documented shape: whitespace, `[`, characters
/// other than `]`, and `]`; and it is not empty.
pub proof fn lemma_annotation_shape(s: Seq<char>, i: int)
    requires
        0 <= i < s.len(),
        annotation_end(s, i) is Some,
    ensures
        ({
            let open = skip_spaces(s, i);
            let end = annotation_end(s, i)->0;
            &&& i <= open < end - 1 < s.len()
            &&& forall|k: int| i <= k < open ==> is_space(#[trigger] s[k])
            &&& s[open] == '['
            &&& forall|k: int| open < k < end - 1 ==> #[trigger] s[k] != ']'
            &&& s[end - 1] == ']'
        }),
{
    lemma_skip_spaces_bounds(s, i);
    lemma_find_close_bounds(s, skip_spaces(s, i) + 1);
}

fn find_annotation_end(name: &str, n: usize, i: usize) -> (r: Option<usize>)
    requires
        i < n,
        n == name@.len(),
    ensures
        match r {
            Some(end) => annotation_end(name@, i as int) == Some(end as int) && i < end <= n,
            None => annotation_end(name@, i as int) is None,
        },
{
    let mut open: usize = i;
    loop
        invariant
            i <= open <= n,
            n == name@.len(),
            skip_spaces(name@, i as int) == skip_spaces(name@, open as int),
        ensures
            i <= open <= n,
            skip_spaces(name@, i as int) == open,
        decreases n - open,
    {
        if open >= n {
            break ;
        }
        let c = name.get_char(open);
        if !char_is_space(c) {
            break ;
        }
        open += 1;
    }
    if open >= n {
        return None;
    }
    if name.get_char(open) != '[' {
        return None;
    }
    let mut close: usize = open + 1;
    loop
        invariant
            open < close <= n,
            n == name@.len(),
            find_close(name@, open as int + 1) == find_close(name@, close as int),
        ensures
            open < close <= n,
            find_close(name@, open as int + 1) == close,
        decreases n - close,
    {
        if close >= n {
            break ;
        }
        let c = name.get_char(close);
        if c == ']' {
            break ;
        }
        close += 1;
    }
    if close >= n {
        None
    } else {
        Some(close + 1)
    }
}

/// Removes every bracketed annotation from a name; all other characters
/// stay as they are and where they are.
pub fn sanitize_name(name: &str) -> (r: String)
    ensures
        r@ == stripped(name@),
{
    let n: usize = name.unicode_len();
    let mut out = String::new();
    let mut i: usize = 0;
    proof {
        assert(out@ + stripped_from(name@, 0) =~= stripped(name@));
    }
    while i < n
        invariant
            i <= n,
            n == name@.len(),
            out@ + stripped_from(name@, i as int) == stripped(name@),
        decreases n - i,
    {
        let ghost before = out@;
        match find_annotation_end(name, n, i) {
            Some(end) => {
                i = end;
            },
            None => {
                out.append(name.substring_char(i, i + 1));
                proof {
                    assert(name@.subrange(i as int, i as int + 1) =~= seq![name@[i as int]]);
                    assert(out@ + stripped_from(name@, i as int + 1) =~= before + (seq![
                        name@[i as int],
                    ] + stripped_from(name@, i as int + 1)));
                }
                i += 1;
            },
        }
    }
    proof {
        assert(out@ + stripped_from(name@, n as int) =~= out@);
    }
    out
}

/// A name in which no annotation starts anywhere is left exactly as it is.
pub proof fn lemma_plain_name_unchanged(s: Seq<char>)
    requires
        forall|i: int| 0 <= i < s.len() ==> (#[trigger] annotation_end(s, i)) is None,
    ensures
        stripped(s) == s,
{
    lemma_plain_tail_unchanged(s, 0);
    assert(s.skip(0) =~= s);
}

proof fn lemma_plain_tail_unchanged(s: Seq<char>, i: int)
    requires
        0 <= i <= s.len(),
        forall|k: int| i <= k < s.len() ==> (#[trigger] annotation_end(s, k)) is None,
    ensures
        stripped_from(s, i) == s.skip(i),
    decreases s.len() - i,
{
    if i < s.len() {
        lemma_plain_tail_unchanged(s, i + 1);
        assert(annotation_end(s, i) is None);
        assert(seq![s[i]] + s.skip(i + 1) =~= s.skip(i));
    } else {
        assert(s.skip(i) =~= Seq::<char>::empty());
    }
}

/// A name without `[` holds no annotation and is left exactly as it is.
pub proof fn lemma_name_without_bracket_unchanged(s: Seq<char>)
    requires
        forall|i: int| 0 <= i < s.len() ==> #[trigger] s[i] != '[',
    ensures
        stripped(s) == s,
{
    assert forall|i: int| 0 <= i < s.len() implies (#[trigger] annotation_end(s, i)) is None by {
        lemma_skip_spaces_bounds(s, i);
    }
    lemma_plain_name_unchanged(s);
}

/// Where the first annotation of a name starts at `i`, the result is the
/// name's first `i` characters unchanged, followed by what is left of the
/// name behind the annotation.
pub proof fn lemma_first_annotation_removed(s: Seq<char>, i: int)
    requires
        0 <= i < s.len(),
        annotation_end(s, i) is Some,
        forall|k: int| 0 <= k < i ==> (#[trigger] annotation_end(s, k)) is None,
    ensures
        stripped(s) == s.take(i) + stripped_from(s, annotation_end(s, i)->0),
{
    lemma_annotation_shape(s, i);
    lemma_prefix_kept(s, 0, i);
    assert(s.subrange(0, i) =~= s.take(i));
}

proof fn lemma_prefix_kept(s: Seq<char>, from: int, i: int)
    requires
        0 <= from <= i <= s.len(),
        forall|k: int| from <= k < i ==> (#[trigger] annotation_end(s, k)) is None,
    ensures
        stripped_from(s, from) == s.subrange(from, i) + stripped_from(s, i),
    decreases i - from,
{
    if from < i {
        lemma_prefix_kept(s, from + 1, i);
        assert(annotation_end(s, from) is None);
        assert(seq![s[from]] + (s.subrange(from + 1, i) + stripped_from(s, i)) =~= s.subrange(
            from,
            i,
        ) + stripped_from(s, i));
    } else {
        assert(s.subrange(from, i) + stripped_from(s, i) =~= stripped_from(s, i));
    }
}

/// A name with exactly one annotation, and nothing like one behind it,
/// loses the annotation with the whitespace before it and keeps every
/// other character.
pub proof fn lemma_only_annotation_removed(s: Seq<char>, i: int)
    requires
        0 <= i < s.len(),
        annotation_end(s, i) is Some,
        forall|k: int| 0 <= k < i ==> (#[trigger] annotation_end(s, k)) is None,
        forall|k: int|
            annotation_end(s, i)->0 <= k < s.len() ==> (#[trigger] annotation_end(s, k)) is None,
    ensures
        stripped(s) == s.take(i) + s.skip(annotation_end(s, i)->0),
{
    lemma_annotation_shape(s, i);
    lemma_first_annotation_removed(s, i);
    lemma_plain_tail_unchanged(s, annotation_end(s, i)->0);
}

/// What is to be done with one directory entry.
pub enum RenameDecision {
    /// The name holds no annotation: the entry is left alone.
    Keep,
    /// The entry is renamed to the given name.
    Rename(String),
}

/// The decision on a name: it is renamed to its cleaned form, unless that
/// is the name itself.
pub open spec fn decision_ok(r: RenameDecision, name: Seq<char>) -> bool {
    if stripped(name) == name {
        r is Keep
    } else {
        r matches RenameDecision::Rename(n) && n@ == stripped(name)
    }
}

/// Decides on one entry by its name.
pub fn plan_rename(name: &str) -> (r: RenameDecision)
    ensures
        decision_ok(r, name@),
{
    let cleaned = sanitize_name(name);
    if str_eq(cleaned.as_str(), name) {
        RenameDecision::Keep
    } else {
        RenameDecision::Rename(cleaned)
    }
}

/// Decides on every entry of a directory, by the entries' names and in
/// their order.
pub fn run(names: &Vec<String>) -> (r: Vec<RenameDecision>)
    ensures
        r.len() == names.len(),
        forall|i: int| 0 <= i < r.len() ==> decision_ok(#[trigger] r[i], names@[i]@),
{
    let mut out: Vec<RenameDecision> = Vec::new();
    let mut i: usize = 0;
    while i < names.len()
        invariant
            i <= names.len(),
            out.len() == i,
            forall|j: int| 0 <= j < i ==> decision_ok(#[trigger] out[j], names@[j]@),
        decreases names.len() - i,
    {
        out.push(plan_rename(names[i].as_str()));
        i += 1;
    }
    out
}

} // verus!
