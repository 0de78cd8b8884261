//! The order in which the entries of a directory are taken: ascending by
//! path, component by component and character by character.

use vstd::prelude::*;
use crate::paths::SourceFile;
use crate::text::{str_chars, strs};

verus! {

/// `a` sorts before `b`: at the first place where they differ `a` has the
/// smaller character, or `a` ends there and `b` goes on.
pub open spec fn chars_lt(a: Seq<char>, b: Seq<char>) -> bool
    decreases a.len(),
{
    if b.len() == 0 {
        false
    } else if a.len() == 0 {
        true
    } else if a[0] != b[0] {
        a[0] < b[0]
    } else {
        chars_lt(a.drop_first(), b.drop_first())
    }
}

/// The path `a` sorts before the path `b`: at the first component where
/// they differ `a` has the one that sorts first, or `a` ends there and `b`
/// goes on.
pub open spec fn path_lt(a: Seq<Seq<char>>, b: Seq<Seq<char>>) -> bool
    decreases a.len(),
{
    if b.len() == 0 {
        false
    } else if a.len() == 0 {
        true
    } else if a[0] != b[0] {
        chars_lt(a[0], b[0])
    } else {
        path_lt(a.drop_first(), b.drop_first())
    }
}

/// The path of a file as components.
pub open spec fn key(f: SourceFile) -> Seq<Seq<char>> {
    strs(f.parts@)
}

proof fn lemma_chars_lt_irreflexive(a: Seq<char>)
    ensures
        !chars_lt(a, a),
    decreases a.len(),
{
    if a.len() > 0 {
        lemma_chars_lt_irreflexive(a.drop_first());
    }
}

proof fn lemma_chars_lt_transitive(a: Seq<char>, b: Seq<char>, c: Seq<char>)
    requires
        chars_lt(a, b),
        chars_lt(b, c),
    ensures
        chars_lt(a, c),
    decreases a.len(),
{
    if a.len() > 0 && a[0] == b[0] && b[0] == c[0] {
        lemma_chars_lt_transitive(a.drop_first(), b.drop_first(), c.drop_first());
    }
}

proof fn lemma_chars_lt_total(a: Seq<char>, b: Seq<char>)
    ensures
        chars_lt(a, b) || chars_lt(b, a) || a == b,
    decreases a.len(),
{
    if a.len() > 0 && b.len() > 0 && a[0] == b[0] {
        lemma_chars_lt_total(a.drop_first(), b.drop_first());
        if a.drop_first() == b.drop_first() {
            assert(a =~= seq![a[0]] + a.drop_first());
            assert(b =~= seq![b[0]] + b.drop_first());
        }
    } else if a.len() == 0 && b.len() == 0 {
        assert(a =~= b);
    }
}

/// No path sorts before itself.
pub proof fn lemma_path_lt_irreflexive(a: Seq<Seq<char>>)
    ensures
        !path_lt(a, a),
    decreases a.len(),
{
    if a.len() > 0 {
        lemma_path_lt_irreflexive(a.drop_first());
    }
}

/// Sorting before is transitive.
pub proof fn lemma_path_lt_transitive(a: Seq<Seq<char>>, b: Seq<Seq<char>>, c: Seq<Seq<char>>)
    requires
        path_lt(a, b),
        path_lt(b, c),
    ensures
        path_lt(a, c),
    decreases a.len(),
{
    if a.len() > 0 {
        if a[0] == b[0] && b[0] == c[0] {
            lemma_path_lt_transitive(a.drop_first(), b.drop_first(), c.drop_first());
        } else if a[0] != b[0] && b[0] != c[0] {
            lemma_chars_lt_transitive(a[0], b[0], c[0]);
            lemma_chars_lt_irreflexive(a[0]);
        }
    }
}

/// Of two different paths one sorts before the other.
pub proof fn lemma_path_lt_total(a: Seq<Seq<char>>, b: Seq<Seq<char>>)
    ensures
        path_lt(a, b) || path_lt(b, a) || a == b,
    decreases a.len(),
{
    if a.len() > 0 && b.len() > 0 {
        if a[0] == b[0] {
            lemma_path_lt_total(a.drop_first(), b.drop_first());
            if a.drop_first() == b.drop_first() {
                assert(a =~= seq![a[0]] + a.drop_first());
                assert(b =~= seq![b[0]] + b.drop_first());
            }
        } else {
            lemma_chars_lt_total(a[0], b[0]);
        }
    } else if a.len() == 0 && b.len() == 0 {
        assert(a =~= b);
    }
}

/// Where `c` does not sort before `b`, nor `b` before `a`, `c` does not
/// sort before `a`.
pub proof fn lemma_path_order_chains(a: Seq<Seq<char>>, b: Seq<Seq<char>>, c: Seq<Seq<char>>)
    requires
        !path_lt(b, a),
        !path_lt(c, b),
    ensures
        !path_lt(c, a),
{
    if path_lt(c, a) {
        lemma_path_lt_total(a, b);
        if a != b {
            lemma_path_lt_transitive(c, a, b);
        }
    }
}

/// How one sequence stands to another in the order.
pub enum Rank {
    Before,
    Same,
    After,
}

/// `r` says how `a` stands to `b`, character by character.
pub open spec fn chars_rank_ok(r: Rank, a: Seq<char>, b: Seq<char>) -> bool {
    match r {
        Rank::Before => chars_lt(a, b),
        Rank::Same => a == b,
        Rank::After => chars_lt(b, a),
    }
}

/// `r` says how the path `a` stands to the path `b`.
pub open spec fn path_rank_ok(r: Rank, a: Seq<Seq<char>>, b: Seq<Seq<char>>) -> bool {
    match r {
        Rank::Before => path_lt(a, b),
        Rank::Same => a == b,
        Rank::After => path_lt(b, a),
    }
}

proof fn lemma_chars_lt_skips_common(a: Seq<char>, b: Seq<char>, i: int)
    requires
        0 <= i <= a.len(),
        i <= b.len(),
        a.take(i) == b.take(i),
    ensures
        chars_lt(a, b) == chars_lt(a.skip(i), b.skip(i)),
    decreases i,
{
    if i == 0 {
        assert(a.skip(0) =~= a);
        assert(b.skip(0) =~= b);
    } else {
        assert(a.take(i - 1) =~= a.take(i).take(i - 1));
        assert(b.take(i - 1) =~= b.take(i).take(i - 1));
        lemma_chars_lt_skips_common(a, b, i - 1);
        assert(a.take(i)[i - 1] == b.take(i)[i - 1]);
        assert(a.take(i)[i - 1] == a[i - 1]);
        assert(b.take(i)[i - 1] == b[i - 1]);
        assert(a.skip(i - 1)[0] == a[i - 1]);
        assert(b.skip(i - 1)[0] == b[i - 1]);
        assert(a.skip(i - 1).len() > 0);
        assert(b.skip(i - 1).len() > 0);
        assert(a.skip(i - 1).drop_first() =~= a.skip(i));
        assert(b.skip(i - 1).drop_first() =~= b.skip(i));
    }
}

proof fn lemma_path_lt_skips_common(a: Seq<Seq<char>>, b: Seq<Seq<char>>, i: int)
    requires
        0 <= i <= a.len(),
        i <= b.len(),
        a.take(i) == b.take(i),
    ensures
        path_lt(a, b) == path_lt(a.skip(i), b.skip(i)),
    decreases i,
{
    if i == 0 {
        assert(a.skip(0) =~= a);
        assert(b.skip(0) =~= b);
    } else {
        assert(a.take(i - 1) =~= a.take(i).take(i - 1));
        assert(b.take(i - 1) =~= b.take(i).take(i - 1));
        lemma_path_lt_skips_common(a, b, i - 1);
        assert(a.take(i)[i - 1] == b.take(i)[i - 1]);
        assert(a.take(i)[i - 1] == a[i - 1]);
        assert(b.take(i)[i - 1] == b[i - 1]);
        assert(a.skip(i - 1)[0] == a[i - 1]);
        assert(b.skip(i - 1)[0] == b[i - 1]);
        assert(a.skip(i - 1).len() > 0);
        assert(b.skip(i - 1).len() > 0);
        assert(a.skip(i - 1).drop_first() =~= a.skip(i));
        assert(b.skip(i - 1).drop_first() =~= b.skip(i));
    }
}

/// Compares two strings character by character.
pub fn rank_chars(a: &Vec<char>, b: &Vec<char>) -> (r: Rank)
    ensures
        chars_rank_ok(r, a@, b@),
{
    let mut i: usize = 0;
    while i < a.len() && i < b.len()
        invariant
            i <= a.len(),
            i <= b.len(),
            a@.take(i as int) == b@.take(i as int),
        decreases a.len() - i,
    {
        let x: char = a[i];
        let y: char = b[i];
        if x != y {
            proof {
                lemma_chars_lt_skips_common(a@, b@, i as int);
                lemma_chars_lt_skips_common(b@, a@, i as int);
                assert(a@.skip(i as int)[0] == a@[i as int]);
                assert(b@.skip(i as int)[0] == b@[i as int]);
            }
            if x < y {
                return Rank::Before;
            } else {
                return Rank::After;
            }
        }
        proof {
            assert(a@.take(i as int + 1) =~= a@.take(i as int).push(a@[i as int]));
            assert(b@.take(i as int + 1) =~= b@.take(i as int).push(b@[i as int]));
        }
        i += 1;
    }
    proof {
        lemma_chars_lt_skips_common(a@, b@, i as int);
        lemma_chars_lt_skips_common(b@, a@, i as int);
        if i == a.len() && i == b.len() {
            assert(a@.take(i as int) =~= a@);
            assert(b@.take(i as int) =~= b@);
        }
    }
    if i < b.len() {
        Rank::Before
    } else if i < a.len() {
        Rank::After
    } else {
        Rank::Same
    }
}

/// The characters of each component of a path.
pub open spec fn chars_key(k: Seq<Vec<char>>) -> Seq<Seq<char>> {
    k.map_values(|c: Vec<char>| c@)
}

/// Compares two paths component by component.
pub fn rank_paths(a: &Vec<Vec<char>>, b: &Vec<Vec<char>>) -> (r: Rank)
    ensures
        path_rank_ok(r, chars_key(a@), chars_key(b@)),
{
    let ghost ka = chars_key(a@);
    let ghost kb = chars_key(b@);
    let mut i: usize = 0;
    while i < a.len() && i < b.len()
        invariant
            i <= a.len(),
            i <= b.len(),
            ka == chars_key(a@),
            kb == chars_key(b@),
            ka.take(i as int) == kb.take(i as int),
        decreases a.len() - i,
    {
        let r = rank_chars(&a[i], &b[i]);
        proof {
            assert(ka[i as int] == a@[i as int]@);
            assert(kb[i as int] == b@[i as int]@);
        }
        match r {
            Rank::Same => {},
            other => {
                proof {
                    lemma_path_lt_skips_common(ka, kb, i as int);
                    lemma_path_lt_skips_common(kb, ka, i as int);
                    assert(ka.skip(i as int)[0] == ka[i as int]);
                    assert(kb.skip(i as int)[0] == kb[i as int]);
                    lemma_chars_lt_irreflexive(ka[i as int]);
                }
                return other;
            },
        }
        proof {
            assert(ka.take(i as int + 1) =~= ka.take(i as int).push(ka[i as int]));
            assert(kb.take(i as int + 1) =~= kb.take(i as int).push(kb[i as int]));
        }
        i += 1;
    }
    proof {
        lemma_path_lt_skips_common(ka, kb, i as int);
        lemma_path_lt_skips_common(kb, ka, i as int);
        if i == a.len() && i == b.len() {
            assert(ka.take(i as int) =~= ka);
            assert(kb.take(i as int) =~= kb);
        }
    }
    if i < b.len() {
        Rank::Before
    } else if i < a.len() {
        Rank::After
    } else {
        Rank::Same
    }
}

/// The entry at place `q` of the order does not sort before the entry at
/// place `p`.
pub open spec fn in_order(order: Seq<usize>, files: Seq<SourceFile>, p: int, q: int) -> bool {
    !path_lt(key(files[order[q] as int]), key(files[order[p] as int]))
}

/// The places from `lo` up to `hi` hold their entries in ascending order.
pub open spec fn ascending(order: Seq<usize>, files: Seq<SourceFile>, lo: int, hi: int) -> bool {
    forall|p: int, q: int| lo <= p < q < hi ==> #[trigger] in_order(order, files, p, q)
}

/// `order` names each of `n` entries at most once, and nothing else.
pub open spec fn is_arrangement(order: Seq<usize>, n: int) -> bool {
    &&& order.len() == n
    &&& forall|p: int| 0 <= p < n ==> 0 <= #[trigger] order[p] < n
    &&& forall|p: int, q: int| 0 <= p < q < n ==> #[trigger] order[p] != #[trigger] order[q]
}

/// `order` arranges the entries of a listing by ascending path.
pub open spec fn is_sorted_order(order: Seq<usize>, files: Seq<SourceFile>) -> bool {
    is_arrangement(order, files.len() as int) && ascending(order, files, 0, files.len() as int)
}

fn part_chars(parts: &Vec<String>) -> (r: Vec<Vec<char>>)
    ensures
        chars_key(r@) == strs(parts@),
{
    let mut out: Vec<Vec<char>> = Vec::new();
    let mut i: usize = 0;
    while i < parts.len()
        invariant
            i <= parts.len(),
            chars_key(out@) == strs(parts@).take(i as int),
        decreases parts.len() - i,
    {
        let ghost before = out@;
        let part = str_chars(parts[i].as_str());
        let ghost added = part@;
        out.push(part);
        proof {
            assert(chars_key(out@) =~= chars_key(before).push(added));
            assert(strs(parts@).take(i as int + 1) =~= strs(parts@).take(i as int).push(
                parts@[i as int]@,
            ));
        }
        i += 1;
    }
    proof {
        assert(strs(parts@).take(parts.len() as int) =~= strs(parts@));
    }
    out
}

fn path_keys(files: &Vec<SourceFile>) -> (keys: Vec<Vec<Vec<char>>>)
    ensures
        keys.len() == files.len(),
        forall|i: int| 0 <= i < keys.len() ==> chars_key((#[trigger] keys[i])@) == key(files[i]),
{
    let mut keys: Vec<Vec<Vec<char>>> = Vec::new();
    let mut i: usize = 0;
    while i < files.len()
        invariant
            i <= files.len(),
            keys.len() == i,
            forall|j: int| 0 <= j < i ==> chars_key((#[trigger] keys[j])@) == key(files[j]),
        decreases files.len() - i,
    {
        keys.push(part_chars(&files[i].parts));
        i += 1;
    }
    keys
}

/// The order in which the entries of a listing are taken: each entry once,
/// ascending by path. The result holds the entries' indices.
pub fn sorted_order(files: &Vec<SourceFile>) -> (order: Vec<usize>)
    ensures
        is_sorted_order(order@, files@),
{
    let keys = path_keys(files);
    let n: usize = files.len();
    let mut order: Vec<usize> = Vec::new();
    let mut c: usize = 0;
    while c < n
        invariant
            c <= n,
            order.len() == c,
            forall|p: int| 0 <= p < c ==> #[trigger] order[p] == p,
        decreases n - c,
    {
        order.push(c);
        c += 1;
    }
    if n == 0 {
        return order;
    }
    let mut i: usize = 1;
    while i < n
        invariant
            1 <= i <= n,
            n == files.len(),
            keys.len() == n,
            forall|x: int| 0 <= x < n ==> chars_key((#[trigger] keys[x])@) == key(files[x]),
            is_arrangement(order@, n as int),
            ascending(order@, files@, 0, i as int),
        decreases n - i,
    {
        let mut j: usize = i;
        let mut moving = true;
        while j > 0 && moving
            invariant
                j <= i < n,
                n == files.len(),
                keys.len() == n,
                forall|x: int| 0 <= x < n ==> chars_key((#[trigger] keys[x])@) == key(files[x]),
                is_arrangement(order@, n as int),
                ascending(order@, files@, 0, j as int),
                ascending(order@, files@, j as int, i as int + 1),
                forall|p: int, q: int|
                    0 <= p < j && j < q <= i ==> #[trigger] in_order(order@, files@, p, q),
                !moving ==> j > 0 && in_order(order@, files@, j as int - 1, j as int),
            decreases j + (if moving {
                1int
            } else {
                0int
            }),
        {
            let a: usize = order[j - 1];
            let b: usize = order[j];
            let ghost before = order@;
            match rank_paths(&keys[b], &keys[a]) {
                Rank::Before => {
                    order.set(j - 1, b);
                    order.set(j, a);
                    proof {
                        let ka = key(files@[a as int]);
                        let kb = key(files@[b as int]);
                        assert(path_lt(kb, ka));
                        if path_lt(ka, kb) {
                            lemma_path_lt_transitive(ka, kb, ka);
                            lemma_path_lt_irreflexive(ka);
                        }
                        assert forall|p: int, q: int| 0 <= p < q < j - 1 implies #[trigger] in_order(
                            order@,
                            files@,
                            p,
                            q,
                        ) by {
                            assert(in_order(before, files@, p, q));
                        }
                        assert forall|p: int, q: int| j - 1 <= p < q < i + 1 implies #[trigger] in_order(
                            order@,
                            files@,
                            p,
                            q,
                        ) by {
                            if p == j - 1 {
                                if q == j {
                                } else {
                                    assert(in_order(before, files@, j as int, q));
                                }
                            } else if p == j {
                                assert(in_order(before, files@, j - 1, q));
                            } else {
                                assert(in_order(before, files@, p, q));
                            }
                        }
                        assert forall|p: int, q: int| 0 <= p < j - 1 && j - 1 < q <= i implies #[trigger] in_order(
                            order@,
                            files@,
                            p,
                            q,
                        ) by {
                            if q == j {
                                assert(in_order(before, files@, p, j - 1));
                            } else {
                                assert(in_order(before, files@, p, q));
                            }
                        }
                        assert(is_arrangement(order@, n as int)) by {
                            assert forall|p: int| 0 <= p < n implies 0 <= #[trigger] order@[p]
                                < n by {
                                if p == j - 1 {
                                    assert(before[j as int] < n);
                                } else if p == j {
                                    assert(before[j - 1] < n);
                                } else {
                                    assert(order@[p] == before[p]);
                                }
                            }
                            assert forall|p: int, q: int| 0 <= p < q < n implies #[trigger] order@[p]
                                != #[trigger] order@[q] by {
                                let sp = if p == j - 1 {
                                    j as int
                                } else if p == j {
                                    j - 1
                                } else {
                                    p
                                };
                                let sq = if q == j - 1 {
                                    j as int
                                } else if q == j {
                                    j - 1
                                } else {
                                    q
                                };
                                assert(order@[p] == before[sp]);
                                assert(order@[q] == before[sq]);
                                if sp < sq {
                                    assert(before[sp] != before[sq]);
                                } else {
                                    assert(before[sq] != before[sp]);
                                }
                            }
                        }
                    }
                    j -= 1;
                },
                Rank::Same => {
                    proof {
                        lemma_path_lt_irreflexive(key(files@[a as int]));
                    }
                    moving = false;
                },
                Rank::After => {
                    proof {
                        let ka = key(files@[a as int]);
                        let kb = key(files@[b as int]);
                        if path_lt(kb, ka) {
                            lemma_path_lt_transitive(ka, kb, ka);
                            lemma_path_lt_irreflexive(ka);
                        }
                    }
                    moving = false;
                },
            }
        }
        proof {
            assert forall|p: int, q: int| 0 <= p < q < i + 1 implies #[trigger] in_order(
                order@,
                files@,
                p,
                q,
            ) by {
                if q < j {
                    assert(in_order(order@, files@, p, q));
                } else if p >= j {
                    assert(in_order(order@, files@, p, q));
                } else if q > j {
                    assert(in_order(order@, files@, p, q));
                } else {
                    assert(j > 0 && !moving);
                    assert(in_order(order@, files@, j - 1, j as int));
                    if p < j - 1 {
                        assert(in_order(order@, files@, p, j - 1));
                        lemma_path_order_chains(
                            key(files@[order@[p] as int]),
                            key(files@[order@[j - 1] as int]),
                            key(files@[order@[j as int] as int]),
                        );
                    }
                }
            }
        }
        i += 1;
    }
    order
}

/// The paths of a listing in the given order.
pub open spec fn listed(order: Seq<usize>, files: Seq<SourceFile>) -> Seq<Seq<Seq<char>>> {
    Seq::new(order.len(), |k: int| key(files[order[k] as int]))
}

/// Each path sorts before every path behind it.
pub open spec fn strictly_ascending(paths: Seq<Seq<Seq<char>>>) -> bool {
    forall|p: int, q: int| 0 <= p < q < paths.len() ==> path_lt(#[trigger] paths[p], #[trigger] paths[q])
}

/// No two entries of the listing have the same path.
pub open spec fn distinct_paths(files: Seq<SourceFile>) -> bool {
    forall|i: int, j: int|
        0 <= i < j < files.len() ==> key(#[trigger] files[i]) != key(#[trigger] files[j])
}

/// A sorted order of entries with different paths is strictly ascending.
pub proof fn lemma_sorted_order_strict(order: Seq<usize>, files: Seq<SourceFile>)
    requires
        is_sorted_order(order, files),
        distinct_paths(files),
    ensures
        strictly_ascending(listed(order, files)),
{
    let paths = listed(order, files);
    assert forall|p: int, q: int| 0 <= p < q < paths.len() implies path_lt(
        #[trigger] paths[p],
        #[trigger] paths[q],
    ) by {
        assert(in_order(order, files, p, q));
        let x = order[p] as int;
        let y = order[q] as int;
        assert(order[p] != order[q]);
        if x < y {
            assert(key(files[x]) != key(files[y]));
        } else {
            assert(key(files[y]) != key(files[x]));
        }
        lemma_path_lt_total(key(files[x]), key(files[y]));
    }
}

proof fn lemma_common_prefix(a: Seq<Seq<Seq<char>>>, b: Seq<Seq<Seq<char>>>, k: int)
    requires
        strictly_ascending(a),
        strictly_ascending(b),
        forall|e: Seq<Seq<char>>| a.contains(e) <==> b.contains(e),
        0 <= k <= a.len(),
        k <= b.len(),
    ensures
        a.take(k) == b.take(k),
    decreases k,
{
    if k == 0 {
        assert(a.take(0) =~= b.take(0));
    } else {
        lemma_common_prefix(a, b, k - 1);
        let at = k - 1;
        assert forall|i: int| 0 <= i < at implies a[i] == b[i] by {
            assert(a.take(at)[i] == b.take(at)[i]);
        }
        let e = a[at];
        assert(a.contains(e));
        assert(b.contains(e));
        let r = choose|r: int| 0 <= r < b.len() && b[r] == e;
        let f = b[at];
        assert(b.contains(f));
        assert(a.contains(f));
        let s = choose|s: int| 0 <= s < a.len() && a[s] == f;
        lemma_path_lt_irreflexive(e);
        lemma_path_lt_irreflexive(f);
        if r < at {
            assert(a[r] == b[r]);
            assert(path_lt(a[r], a[at]));
        } else if s < at {
            assert(a[s] == b[s]);
            assert(path_lt(b[s], b[at]));
        } else if r > at && s > at {
            assert(path_lt(b[at], b[r]));
            assert(path_lt(a[at], a[s]));
            lemma_path_lt_transitive(e, f, e);
        }
        assert(a[at] == b[at]);
        assert(a.take(k) =~= b.take(k));
    }
}

/// Two ascending listings that hold the same paths are the same listing,
/// place by place: the order in which a directory was enumerated leaves no
/// trace in the sorted result.
pub proof fn lemma_ascending_listing_unique(a: Seq<Seq<Seq<char>>>, b: Seq<Seq<Seq<char>>>)
    requires
        strictly_ascending(a),
        strictly_ascending(b),
        forall|e: Seq<Seq<char>>| a.contains(e) <==> b.contains(e),
    ensures
        a == b,
{
    if a.len() <= b.len() {
        lemma_common_prefix(a, b, a.len() as int);
        if a.len() < b.len() {
            let e = b[a.len() as int];
            assert(b.contains(e));
            assert(a.contains(e));
            let s = choose|s: int| 0 <= s < a.len() && a[s] == e;
            assert(a.take(a.len() as int)[s] == b.take(a.len() as int)[s]);
            assert(path_lt(b[s], b[a.len() as int]));
            lemma_path_lt_irreflexive(e);
        }
        assert(a.take(a.len() as int) =~= a);
        assert(b.take(b.len() as int) =~= b);
    } else {
        lemma_common_prefix(a, b, b.len() as int);
        let e = a[b.len() as int];
        assert(a.contains(e));
        assert(b.contains(e));
        let s = choose|s: int| 0 <= s < b.len() && b[s] == e;
        assert(a.take(b.len() as int)[s] == b.take(b.len() as int)[s]);
        assert(path_lt(a[s], a[b.len() as int]));
        lemma_path_lt_irreflexive(e);
    }
}

/// An arrangement of `n` entries names every one of them.
pub proof fn lemma_arrangement_reaches_all(order: Seq<usize>, n: int, i: int)
    requires
        is_arrangement(order, n),
        0 <= i < n,
    ensures
        exists|p: int| 0 <= p < n && #[trigger] order[p] == i,
{
    let named = Seq::new(n as nat, |p: int| order[p] as int);
    assert forall|p: int, q: int| 0 <= p < named.len() && 0 <= q < named.len() && p != q implies named[p]
        != named[q] by {
        if p < q {
            assert(order[p] != order[q]);
        } else {
            assert(order[q] != order[p]);
        }
    }
    named.unique_seq_to_set();
    vstd::set_lib::lemma_int_range(0, n);
    vstd::seq_lib::seq_to_set_is_finite(named);
    assert forall|v: int| named.to_set().contains(v) implies vstd::set_lib::set_int_range(
        0,
        n,
    ).contains(v) by {
        let p = choose|p: int| 0 <= p < named.len() && named[p] == v;
        assert(0 <= order[p] < n);
    }
    vstd::set_lib::lemma_subset_equality(named.to_set(), vstd::set_lib::set_int_range(0, n));
    assert(vstd::set_lib::set_int_range(0, n).contains(i));
    assert(named.to_set().contains(i));
    assert(named.contains(i));
    let p = choose|p: int| 0 <= p < named.len() && named[p] == i;
    assert(order[p] == i);
}

/// Some entry of the listing has the path `e`.
pub open spec fn holds_path(files: Seq<SourceFile>, e: Seq<Seq<char>>) -> bool {
    exists|i: int| 0 <= i < files.len() && key(#[trigger] files[i]) == e
}

/// Two listings that hold the same paths, each path once, come out of
/// sorting as the same paths in the same places, however each listing was
/// enumerated.
pub proof fn lemma_sorted_listings_agree(
    first: Seq<SourceFile>,
    first_order: Seq<usize>,
    second: Seq<SourceFile>,
    second_order: Seq<usize>,
)
    requires
        is_sorted_order(first_order, first),
        is_sorted_order(second_order, second),
        distinct_paths(first),
        distinct_paths(second),
        forall|e: Seq<Seq<char>>| holds_path(first, e) <==> holds_path(second, e),
    ensures
        listed(first_order, first) == listed(second_order, second),
{
    let a = listed(first_order, first);
    let b = listed(second_order, second);
    lemma_sorted_order_strict(first_order, first);
    lemma_sorted_order_strict(second_order, second);
    assert forall|e: Seq<Seq<char>>| a.contains(e) <==> b.contains(e) by {
        lemma_listed_holds(first_order, first, e);
        lemma_listed_holds(second_order, second, e);
    }
    lemma_ascending_listing_unique(a, b);
}

proof fn lemma_listed_holds(order: Seq<usize>, files: Seq<SourceFile>, e: Seq<Seq<char>>)
    requires
        is_sorted_order(order, files),
    ensures
        listed(order, files).contains(e) <==> holds_path(files, e),
{
    let paths = listed(order, files);
    if paths.contains(e) {
        let k = choose|k: int| 0 <= k < paths.len() && paths[k] == e;
        assert(0 <= order[k] < files.len());
        assert(key(files[order[k] as int]) == e);
    }
    if holds_path(files, e) {
        let i = choose|i: int| 0 <= i < files.len() && key(#[trigger] files[i]) == e;
        lemma_arrangement_reaches_all(order, files.len() as int, i);
        let p = choose|p: int| 0 <= p < files.len() && #[trigger] order[p] == i;
        assert(paths[p] == e);
    }
}

} // verus!
