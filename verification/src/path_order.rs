//! The distinct directories of a list of paths, in path order.
//!
//! Which paths are the same, and which of two comes first, is the platform's to say:
//! separators, drives and shares differ between platforms. Of paths in slashes every
//! platform says the same. They compare component by component: the root before `.`,
//! `.` before `..`, and those before names, which compare by their characters. Repeated
//! separators and a `.` past the front do not count.

use vstd::prelude::*;

verus! {

/// How one path stands to another.
#[derive(Debug, Clone, Copy, PartialEq, Eq, Structural)]
pub enum PathOrder {
    Before,
    Same,
    After,
}

/// A path in slashes: one without another platform's separators and without a drive or a
/// share in front, which every platform reads alike.
pub open spec fn in_slashes(s: Seq<char>) -> bool {
    &&& forall|i: int| 0 <= i < s.len() ==> #[trigger] s[i] != '\\' && s[i] != ':'
    &&& !(s.len() >= 2 && s[0] == '/' && s[1] == '/')
}

/// Where the piece that starts at `from` ends: at the next slash, or at the end of the
/// text.
pub open spec fn piece_end(s: Seq<char>, from: int) -> int
    decreases s.len() - from,
{
    if from >= s.len() || from < 0 {
        s.len() as int
    } else if s[from] == '/' {
        from
    } else {
        piece_end(s, from + 1)
    }
}

/// The component that a piece is, if it is one: nothing between two slashes is none, nor
/// is a dot past the front.
pub open spec fn piece_components(piece: Seq<char>, first: bool) -> Seq<Seq<char>> {
    if piece.len() == 0 || (piece == seq!['.'] && !first) {
        Seq::empty()
    } else {
        seq![piece]
    }
}

/// The components of the pieces from `from` on.
pub open spec fn components_from(s: Seq<char>, from: int) -> Seq<Seq<char>>
    decreases s.len() + 1 - from,
{
    if from >= s.len() || from < 0 {
        Seq::empty()
    } else {
        let end = piece_end(s, from);
        if end < from || end > s.len() {
            Seq::empty()
        } else {
            piece_components(s.subrange(from, end), from == 0) + components_from(s, end + 1)
        }
    }
}

/// The root, as a component.
pub open spec fn root() -> Seq<char> {
    seq!['/']
}

/// The components of a path in slashes.
pub open spec fn components(s: Seq<char>) -> Seq<Seq<char>> {
    if s.len() > 0 && s[0] == '/' {
        seq![root()] + components_from(s, 0)
    } else {
        components_from(s, 0)
    }
}

/// The kind of a component: the root, the directory itself, the one above, or a name.
pub open spec fn kind(c: Seq<char>) -> int {
    if c == root() {
        0
    } else if c == seq!['.'] {
        1
    } else if c == seq!['.', '.'] {
        2
    } else {
        3
    }
}

/// Lexicographic order of texts.
pub open spec fn text_before(a: Seq<char>, b: Seq<char>) -> bool
    decreases a.len(),
{
    if b.len() == 0 {
        false
    } else if a.len() == 0 {
        true
    } else if a[0] == b[0] {
        text_before(a.subrange(1, a.len() as int), b.subrange(1, b.len() as int))
    } else {
        (a[0] as int) < (b[0] as int)
    }
}

/// The order of components: by kind, and names by their texts.
pub open spec fn component_before(a: Seq<char>, b: Seq<char>) -> bool {
    kind(a) < kind(b) || (kind(a) == kind(b) && text_before(a, b))
}

/// Lexicographic order of components.
pub open spec fn comes_before(a: Seq<Seq<char>>, b: Seq<Seq<char>>) -> bool
    decreases a.len(),
{
    if b.len() == 0 {
        false
    } else if a.len() == 0 {
        true
    } else if a[0] == b[0] {
        comes_before(a.subrange(1, a.len() as int), b.subrange(1, b.len() as int))
    } else {
        component_before(a[0], b[0])
    }
}

/// How two paths in slashes stand to each other.
pub open spec fn slash_order(a: Seq<char>, b: Seq<char>) -> PathOrder {
    if components(a) == components(b) {
        PathOrder::Same
    } else if comes_before(components(a), components(b)) {
        PathOrder::Before
    } else {
        PathOrder::After
    }
}

/// The order of paths in slashes.
pub open spec fn by_slashes() -> spec_fn(Seq<char>, Seq<char>) -> PathOrder {
    |a: Seq<char>, b: Seq<char>| slash_order(a, b)
}

/// Whether paths are ordered in one row, in which some share a place.
#[verifier::opaque]
pub open spec fn is_order(order: spec_fn(Seq<char>, Seq<char>) -> PathOrder) -> bool {
    &&& forall|a: Seq<char>| #[trigger] order(a, a) == PathOrder::Same
    &&& forall|a: Seq<char>, b: Seq<char>|
        #[trigger] order(a, b) == PathOrder::Before <==> order(b, a) == PathOrder::After
    &&& forall|a: Seq<char>, b: Seq<char>, c: Seq<char>|
        #[trigger] order(a, b) == PathOrder::Before && #[trigger] order(b, c) == PathOrder::Before
            ==> order(a, c) == PathOrder::Before
    &&& forall|a: Seq<char>, b: Seq<char>, c: Seq<char>|
        #[trigger] order(a, b) == PathOrder::Same ==> order(a, c) == #[trigger] order(b, c)
}

proof fn lemma_text_before(a: Seq<char>, b: Seq<char>, c: Seq<char>)
    ensures
        !text_before(a, a),
        a != b ==> text_before(a, b) != text_before(b, a),
        text_before(a, b) && text_before(b, c) ==> text_before(a, c),
    decreases a.len(),
{
    if a.len() > 0 {
        let a1 = a.subrange(1, a.len() as int);
        let b1 = b.subrange(1, b.len() as int);
        let c1 = c.subrange(1, c.len() as int);
        lemma_text_before(a1, b1, c1);
        if b.len() > 0 && a[0] == b[0] && a1 == b1 {
            assert(a =~= seq![a[0]] + a1);
            assert(b =~= seq![b[0]] + b1);
        }
    } else if b.len() == 0 {
        assert(a =~= b);
    }
}

proof fn lemma_component_before(a: Seq<char>, b: Seq<char>, c: Seq<char>)
    ensures
        !component_before(a, a),
        a != b ==> component_before(a, b) != component_before(b, a),
        component_before(a, b) && component_before(b, c) ==> component_before(a, c),
{
    lemma_text_before(a, b, c);
}

proof fn lemma_comes_before(a: Seq<Seq<char>>, b: Seq<Seq<char>>, c: Seq<Seq<char>>)
    ensures
        !comes_before(a, a),
        a != b ==> comes_before(a, b) != comes_before(b, a),
        comes_before(a, b) && comes_before(b, c) ==> comes_before(a, c),
    decreases a.len(),
{
    if a.len() > 0 {
        let a1 = a.subrange(1, a.len() as int);
        let b1 = b.subrange(1, b.len() as int);
        let c1 = c.subrange(1, c.len() as int);
        lemma_comes_before(a1, b1, c1);
        if b.len() > 0 {
            lemma_component_before(a[0], b[0], b[0]);
            if a[0] == b[0] && a1 == b1 {
                assert(a =~= seq![a[0]] + a1);
                assert(b =~= seq![b[0]] + b1);
            }
            if c.len() > 0 {
                lemma_component_before(a[0], b[0], c[0]);
            }
        }
    } else if b.len() == 0 {
        assert(a =~= b);
    }
}

/// Paths in slashes are ordered in one row, in which spellings of the same components
/// share a place.
pub proof fn law_slashes_are_ordered()
    ensures
        is_order(by_slashes()),
{
    reveal(is_order);
    let order = by_slashes();
    assert forall|a: Seq<char>, b: Seq<char>| #[trigger] order(a, b) == PathOrder::Before
        <==> order(b, a) == PathOrder::After by {
        lemma_comes_before(components(a), components(b), components(b));
    }
    assert forall|a: Seq<char>, b: Seq<char>, c: Seq<char>|
        #[trigger] order(a, b) == PathOrder::Before && #[trigger] order(b, c)
            == PathOrder::Before implies order(a, c) == PathOrder::Before by {
        lemma_comes_before(components(a), components(b), components(c));
        lemma_comes_before(components(b), components(a), components(b));
    }
}

proof fn lemma_piece_end(s: Seq<char>, from: int)
    requires
        0 <= from <= s.len(),
    ensures
        from <= piece_end(s, from) <= s.len(),
        forall|i: int| from <= i < piece_end(s, from) ==> s[i] != '/',
    decreases s.len() - from,
{
    if from < s.len() && s[from] != '/' {
        lemma_piece_end(s, from + 1);
    }
}

proof fn lemma_no_root_from(s: Seq<char>, from: int)
    requires
        0 <= from,
    ensures
        forall|i: int|
            0 <= i < components_from(s, from).len() ==> #[trigger] components_from(s, from)[i]
                != root(),
    decreases s.len() + 1 - from,
{
    if from < s.len() {
        let end = piece_end(s, from);
        lemma_piece_end(s, from);
        lemma_no_root_from(s, end + 1);
        let piece = s.subrange(from, end);
        let here = piece_components(piece, from == 0);
        let rest = components_from(s, end + 1);
        assert forall|i: int| 0 <= i < components_from(s, from).len() implies #[trigger]
            components_from(s, from)[i] != root() by {
            if i < here.len() {
                if piece == root() {
                    assert(piece[0] == '/');
                    assert(s[from] == piece[0]);
                }
            } else {
                assert(components_from(s, from)[i] == rest[i - here.len()]);
            }
        }
    }
}

/// Only the first component of a path can be the root.
pub proof fn lemma_root_is_first(s: Seq<char>, i: int)
    requires
        0 < i < components(s).len(),
    ensures
        components(s)[i] != root(),
{
    lemma_no_root_from(s, 0);
    if s.len() > 0 && s[0] == '/' {
        assert(components(s)[i] == components_from(s, 0)[i - 1]);
    }
}

/// The texts of a list.
pub open spec fn texts(dirs: Seq<String>) -> Seq<Seq<char>> {
    Seq::new(dirs.len(), |i: int| dirs[i]@)
}

/// The texts of a list of optional paths.
pub open spec fn optional_texts(parents: Seq<Option<String>>) -> Seq<Option<Seq<char>>> {
    Seq::new(
        parents.len(),
        |i: int|
            match parents[i] {
                Some(p) => Some(p@),
                None => None,
            },
    )
}

/// Whether a path is there and not empty.
pub open spec fn names_dir(p: Option<Seq<char>>) -> bool {
    p is Some && p->0.len() > 0
}

/// Whether a text is one of the directories of a list.
pub open spec fn among(parents: Seq<Option<Seq<char>>>, d: Seq<char>) -> bool {
    exists|i: int| 0 <= i < parents.len() && names_dir(#[trigger] parents[i]) && parents[i]->0 == d
}

/// Whether a directory is the first of a list that has its place in an order.
#[verifier::opaque]
pub open spec fn is_first_spelling(
    order: spec_fn(Seq<char>, Seq<char>) -> PathOrder,
    parents: Seq<Option<Seq<char>>>,
    d: Seq<char>,
) -> bool {
    exists|i: int|
        #![trigger parents[i]]
        0 <= i < parents.len() && names_dir(parents[i]) && parents[i]->0 == d && forall|j: int|
            0 <= j < i && names_dir(#[trigger] parents[j]) ==> order(parents[j]->0, d)
                != PathOrder::Same
}

/// Some directory of a list has the place of `p`.
#[verifier::opaque]
pub open spec fn has_place(
    order: spec_fn(Seq<char>, Seq<char>) -> PathOrder,
    dirs: Seq<Seq<char>>,
    p: Seq<char>,
) -> bool {
    exists|k: int| 0 <= k < dirs.len() && order(#[trigger] dirs[k], p) == PathOrder::Same
}

/// Whether `dirs` is the list of the distinct directories among `parents`: in order, each
/// in its first spelling, the empty one left out.
pub open spec fn distinct_dirs(
    order: spec_fn(Seq<char>, Seq<char>) -> PathOrder,
    parents: Seq<Option<Seq<char>>>,
    dirs: Seq<Seq<char>>,
) -> bool {
    &&& forall|i: int, j: int|
        0 <= i < j < dirs.len() ==> order(#[trigger] dirs[i], #[trigger] dirs[j])
            == PathOrder::Before
    &&& forall|k: int|
        0 <= k < dirs.len() ==> is_first_spelling(order, parents, #[trigger] dirs[k])
    &&& forall|i: int|
        0 <= i < parents.len() && names_dir(#[trigger] parents[i]) ==> has_place(
            order,
            dirs,
            parents[i]->0,
        )
}

/// Whether a comparison answers by an order, asked of the directories of a list.
pub open spec fn follows<F: Fn(&String, &String) -> PathOrder>(
    compare: F,
    order: spec_fn(Seq<char>, Seq<char>) -> PathOrder,
    parents: Seq<Option<Seq<char>>>,
) -> bool {
    forall|a: String, b: String, r: PathOrder|
        among(parents, a@) && among(parents, b@) && #[trigger] call_ensures(compare, (&a, &b), r)
            ==> r == order(a@, b@)
}

/// Whether a comparison can answer that two paths are the same.
pub open spec fn may_be_same<F: Fn(&String, &String) -> PathOrder>(
    compare: F,
    d: Seq<char>,
    p: Seq<char>,
) -> bool {
    exists|a: String, b: String| #[trigger]
        call_ensures(compare, (&a, &b), PathOrder::Same) && a@ == d && b@ == p
}

/// Whether `dirs` holds directories of `parents` only, and of each of them itself or one
/// that the comparison found to be the same.
pub open spec fn holds_all<F: Fn(&String, &String) -> PathOrder>(
    compare: F,
    parents: Seq<Option<Seq<char>>>,
    dirs: Seq<Seq<char>>,
) -> bool {
    &&& forall|k: int| 0 <= k < dirs.len() ==> among(parents, #[trigger] dirs[k])
    &&& forall|i: int|
        0 <= i < parents.len() && names_dir(#[trigger] parents[i]) ==> is_held(
            compare,
            dirs,
            parents[i]->0,
        )
}

/// Whether a directory is on a list, or one that the comparison found to be the same.
pub open spec fn is_held<F: Fn(&String, &String) -> PathOrder>(
    compare: F,
    dirs: Seq<Seq<char>>,
    p: Seq<char>,
) -> bool {
    exists|k: int|
        0 <= k < dirs.len() && (#[trigger] dirs[k] == p || may_be_same(compare, dirs[k], p))
}

/// Where a path belongs in an ordered list, and whether it is there already.
fn place<F: Fn(&String, &String) -> PathOrder>(
    dirs: &Vec<String>,
    p: &String,
    compare: &F,
) -> (r: (usize, bool))
    requires
        forall|a: &String, b: &String| call_requires(*compare, (a, b)),
    ensures
        r.0 <= dirs@.len(),
        r.1 ==> r.0 < dirs@.len(),
        forall|k: int|
            0 <= k < r.0 ==> call_ensures(
                *compare,
                (&#[trigger] dirs@[k], p),
                PathOrder::Before,
            ),
        r.0 < dirs@.len() ==> call_ensures(
            *compare,
            (&dirs@[r.0 as int], p),
            if r.1 {
                PathOrder::Same
            } else {
                PathOrder::After
            },
        ),
{
    let mut at: usize = 0;
    while at < dirs.len()
        invariant
            at <= dirs@.len(),
            forall|a: &String, b: &String| call_requires(*compare, (a, b)),
            forall|k: int|
                0 <= k < at ==> call_ensures(
                    *compare,
                    (&#[trigger] dirs@[k], p),
                    PathOrder::Before,
                ),
        decreases dirs@.len() - at,
    {
        match compare(&dirs[at], p) {
            PathOrder::Before => {
                at = at + 1;
            },
            PathOrder::Same => {
                return (at, true);
            },
            PathOrder::After => {
                return (at, false);
            },
        }
    }
    (at, false)
}

/// The distinct directories of a list, in the order that `compare` answers by.
pub fn unique_dirs<F: Fn(&String, &String) -> PathOrder>(
    parents: &Vec<Option<String>>,
    compare: &F,
) -> (r: Vec<String>)
    requires
        forall|a: &String, b: &String| call_requires(*compare, (a, b)),
    ensures
        holds_all(*compare, optional_texts(parents@), texts(r@)),
        forall|order: spec_fn(Seq<char>, Seq<char>) -> PathOrder|
            is_order(order) && #[trigger] follows(*compare, order, optional_texts(parents@))
                ==> distinct_dirs(order, optional_texts(parents@), texts(r@)),
{
    let ghost all = optional_texts(parents@);
    let mut dirs: Vec<String> = Vec::new();
    let mut i: usize = 0;
    while i < parents.len()
        invariant
            i <= parents@.len(),
            all == optional_texts(parents@),
            forall|a: &String, b: &String| call_requires(*compare, (a, b)),
            holds_all(*compare, all.subrange(0, i as int), texts(dirs@)),
            forall|order: spec_fn(Seq<char>, Seq<char>) -> PathOrder|
                is_order(order) && #[trigger] follows(*compare, order, all) ==> distinct_dirs(
                    order,
                    all.subrange(0, i as int),
                    texts(dirs@),
                ),
        decreases parents@.len() - i,
    {
        let ghost seen = all.subrange(0, i as int);
        let ghost next = all.subrange(0, i + 1);
        let ghost was = texts(dirs@);
        let ghost mut grew = false;
        match &parents[i] {
            None => {},
            Some(p) => {
                if p.as_str().unicode_len() > 0 {
                    let (at, known): (usize, bool) = place(&dirs, p, compare);
                    let ghost before = dirs@;
                    if !known {
                        let text: String = p.clone();
                        dirs.insert(at, text);
                    }
                    proof {
                        assert(all[i as int] == Some(p@));
                        assert(among(all, p@));
                        assert forall|k: int| 0 <= k < was.len() implies among(
                            all,
                            #[trigger] was[k],
                        ) by {
                            lemma_among_more(seen, all, was[k]);
                        }
                        if known {
                            assert(may_be_same(*compare, was[at as int], p@));
                            lemma_hold_keep(*compare, seen, next, was, i as int, at as int);
                        } else {
                            assert(texts(dirs@) =~= was.insert(at as int, p@));
                            lemma_hold_insert(*compare, seen, next, was, i as int, at as int, p@);
                        }
                        assert forall|order: spec_fn(Seq<char>, Seq<char>) -> PathOrder|
                            is_order(order) && #[trigger] follows(
                                *compare,
                                order,
                                all,
                            ) implies distinct_dirs(order, next, texts(dirs@)) by {
                            assert forall|k: int| 0 <= k < at implies order(
                                #[trigger] was[k],
                                p@,
                            ) == PathOrder::Before by {
                                assert(call_ensures(
                                    *compare,
                                    (&before[k], p),
                                    PathOrder::Before,
                                ));
                            }
                            if known {
                                lemma_has_place(order, was, p@, at as int);
                                lemma_keep(order, seen, next, was, i as int);
                            } else {
                                if at < was.len() {
                                    assert(order(was[at as int], p@) == PathOrder::After);
                                }
                                lemma_insert(order, seen, next, was, at as int, p@, i as int);
                            }
                        }
                        grew = true;
                    }
                }
            },
        }
        proof {
            if !grew {
                assert(!names_dir(next[i as int]));
                lemma_hold_skip(*compare, seen, next, was, i as int);
                assert forall|order: spec_fn(Seq<char>, Seq<char>) -> PathOrder|
                    is_order(order) && #[trigger] follows(
                        *compare,
                        order,
                        all,
                    ) implies distinct_dirs(order, next, was) by {
                    lemma_keep(order, seen, next, was, i as int);
                }
            }
        }
        i = i + 1;
    }
    assert(all.subrange(0, i as int) =~= all);
    dirs
}

proof fn lemma_among_more(seen: Seq<Option<Seq<char>>>, all: Seq<Option<Seq<char>>>, d: Seq<char>)
    requires
        seen.len() <= all.len(),
        seen =~= all.subrange(0, seen.len() as int),
        among(seen, d),
    ensures
        among(all, d),
{
    let i = choose|i: int|
        0 <= i < seen.len() && names_dir(#[trigger] seen[i]) && seen[i]->0 == d;
    assert(all[i] == seen[i]);
}

proof fn lemma_hold_skip<F: Fn(&String, &String) -> PathOrder>(
    compare: F,
    seen: Seq<Option<Seq<char>>>,
    next: Seq<Option<Seq<char>>>,
    dirs: Seq<Seq<char>>,
    n: int,
)
    requires
        n == seen.len(),
        next.len() == n + 1,
        seen =~= next.subrange(0, n),
        holds_all(compare, seen, dirs),
        names_dir(next[n]) ==> is_held(compare, dirs, next[n]->0),
    ensures
        holds_all(compare, next, dirs),
{
    assert forall|k: int| 0 <= k < dirs.len() implies among(next, #[trigger] dirs[k]) by {
        lemma_among_more(seen, next, dirs[k]);
    }
    assert forall|i: int| 0 <= i < next.len() && names_dir(#[trigger] next[i]) implies is_held(
        compare,
        dirs,
        next[i]->0,
    ) by {
        if i < n {
            assert(seen[i] == next[i]);
        }
    }
}

proof fn lemma_hold_keep<F: Fn(&String, &String) -> PathOrder>(
    compare: F,
    seen: Seq<Option<Seq<char>>>,
    next: Seq<Option<Seq<char>>>,
    dirs: Seq<Seq<char>>,
    n: int,
    at: int,
)
    requires
        n == seen.len(),
        next.len() == n + 1,
        seen =~= next.subrange(0, n),
        holds_all(compare, seen, dirs),
        0 <= at < dirs.len(),
        names_dir(next[n]),
        may_be_same(compare, dirs[at], next[n]->0),
    ensures
        holds_all(compare, next, dirs),
{
    lemma_hold_skip(compare, seen, next, dirs, n);
}

proof fn lemma_hold_insert<F: Fn(&String, &String) -> PathOrder>(
    compare: F,
    seen: Seq<Option<Seq<char>>>,
    next: Seq<Option<Seq<char>>>,
    dirs: Seq<Seq<char>>,
    n: int,
    at: int,
    p: Seq<char>,
)
    requires
        n == seen.len(),
        next.len() == n + 1,
        seen =~= next.subrange(0, n),
        holds_all(compare, seen, dirs),
        0 <= at <= dirs.len(),
        next[n] == Some(p),
        p.len() > 0,
    ensures
        holds_all(compare, next, dirs.insert(at, p)),
{
    let dirs2 = dirs.insert(at, p);
    assert forall|k: int| 0 <= k < dirs2.len() implies among(next, #[trigger] dirs2[k]) by {
        if k == at {
            assert(names_dir(next[n]));
        } else {
            let o = if k < at {
                k
            } else {
                k - 1
            };
            assert(dirs2[k] == dirs[o]);
            lemma_among_more(seen, next, dirs[o]);
        }
    }
    assert forall|i: int| 0 <= i < next.len() && names_dir(#[trigger] next[i]) implies is_held(
        compare,
        dirs2,
        next[i]->0,
    ) by {
        if i < n {
            assert(seen[i] == next[i]);
            let q = next[i]->0;
            assert(is_held(compare, dirs, q));
            let k = choose|k: int|
                0 <= k < dirs.len() && (#[trigger] dirs[k] == q || may_be_same(
                    compare,
                    dirs[k],
                    q,
                ));
            let o = if k < at {
                k
            } else {
                k + 1
            };
            assert(dirs2[o] == dirs[k]);
        } else {
            assert(dirs2[at] == p);
        }
    }
}

/// A path already listed, empty or absent leaves the list alone.
proof fn lemma_keep(
    order: spec_fn(Seq<char>, Seq<char>) -> PathOrder,
    seen: Seq<Option<Seq<char>>>,
    next: Seq<Option<Seq<char>>>,
    dirs: Seq<Seq<char>>,
    n: int,
)
    requires
        n == seen.len(),
        next.len() == n + 1,
        seen =~= next.subrange(0, n),
        distinct_dirs(order, seen, dirs),
        names_dir(next[n]) ==> has_place(order, dirs, next[n]->0),
    ensures
        distinct_dirs(order, next, dirs),
{
    assert forall|k: int| 0 <= k < dirs.len() implies is_first_spelling(
        order,
        next,
        #[trigger] dirs[k],
    ) by {
        lemma_first_spelling_stays(order, seen, next, dirs[k]);
    }
    assert forall|i: int| 0 <= i < next.len() && names_dir(#[trigger] next[i]) implies has_place(
        order,
        dirs,
        next[i]->0,
    ) by {
        if i < n {
            assert(seen[i] == next[i]);
        }
    }
}

proof fn lemma_first_spelling_stays(
    order: spec_fn(Seq<char>, Seq<char>) -> PathOrder,
    seen: Seq<Option<Seq<char>>>,
    next: Seq<Option<Seq<char>>>,
    d: Seq<char>,
)
    requires
        next.len() >= seen.len(),
        seen =~= next.subrange(0, seen.len() as int),
        is_first_spelling(order, seen, d),
    ensures
        is_first_spelling(order, next, d),
{
    reveal(is_first_spelling);
    let i = choose|i: int|
        #![trigger seen[i]]
        0 <= i < seen.len() && names_dir(seen[i]) && seen[i]->0 == d && forall|j: int|
            0 <= j < i && names_dir(#[trigger] seen[j]) ==> order(seen[j]->0, d)
                != PathOrder::Same;
    assert(next[i] == seen[i]);
    assert forall|j: int| 0 <= j < i && names_dir(#[trigger] next[j]) implies order(
        next[j]->0,
        d,
    ) != PathOrder::Same by {
        assert(seen[j] == next[j]);
    }
}

/// What an order says of three paths.
proof fn lemma_order(
    order: spec_fn(Seq<char>, Seq<char>) -> PathOrder,
    a: Seq<char>,
    b: Seq<char>,
    c: Seq<char>,
)
    requires
        is_order(order),
    ensures
        order(a, b) == PathOrder::Before <==> order(b, a) == PathOrder::After,
        order(a, b) == PathOrder::Before && order(b, c) == PathOrder::Before ==> order(a, c)
            == PathOrder::Before,
        order(a, b) == PathOrder::Same ==> order(a, c) == order(b, c),
        order(a, a) == PathOrder::Same,
{
    reveal(is_order);
}

/// Where a path was inserted, the list reads as before, on either side.
proof fn lemma_inserted(dirs: Seq<Seq<char>>, at: int, p: Seq<char>, k: int)
    requires
        0 <= at <= dirs.len(),
        0 <= k < dirs.insert(at, p).len(),
    ensures
        k < at ==> dirs.insert(at, p)[k] == dirs[k],
        k == at ==> dirs.insert(at, p)[k] == p,
        k > at ==> dirs.insert(at, p)[k] == dirs[k - 1],
{
}

/// Everything from where a path was inserted comes after it.
proof fn lemma_rest_after(
    order: spec_fn(Seq<char>, Seq<char>) -> PathOrder,
    dirs: Seq<Seq<char>>,
    at: int,
    p: Seq<char>,
    k: int,
)
    requires
        is_order(order),
        0 <= at <= k < dirs.len(),
        order(dirs[at], p) == PathOrder::After,
        k > at ==> order(dirs[at], dirs[k]) == PathOrder::Before,
    ensures
        order(p, dirs[k]) == PathOrder::Before,
        order(dirs[k], p) == PathOrder::After,
{
    lemma_order(order, p, dirs[at], dirs[k]);
    lemma_order(order, p, dirs[k], p);
}

/// A list stays ordered where a path is inserted at its place.
proof fn lemma_insert_ordered(
    order: spec_fn(Seq<char>, Seq<char>) -> PathOrder,
    dirs: Seq<Seq<char>>,
    at: int,
    p: Seq<char>,
    i: int,
    j: int,
)
    requires
        is_order(order),
        0 <= at <= dirs.len(),
        forall|a: int, b: int|
            0 <= a < b < dirs.len() ==> order(#[trigger] dirs[a], #[trigger] dirs[b])
                == PathOrder::Before,
        forall|k: int| 0 <= k < at ==> order(#[trigger] dirs[k], p) == PathOrder::Before,
        at < dirs.len() ==> order(dirs[at], p) == PathOrder::After,
        0 <= i < j < dirs.insert(at, p).len(),
    ensures
        order(dirs.insert(at, p)[i], dirs.insert(at, p)[j]) == PathOrder::Before,
{
    lemma_inserted(dirs, at, p, i);
    lemma_inserted(dirs, at, p, j);
    if i == at {
        lemma_rest_after(order, dirs, at, p, j - 1);
    }
}

/// A path that is new to a list has no spelling before it.
proof fn lemma_insert_is_first(
    order: spec_fn(Seq<char>, Seq<char>) -> PathOrder,
    dirs: Seq<Seq<char>>,
    at: int,
    p: Seq<char>,
    q: Seq<char>,
)
    requires
        is_order(order),
        0 <= at <= dirs.len(),
        forall|a: int, b: int|
            0 <= a < b < dirs.len() ==> order(#[trigger] dirs[a], #[trigger] dirs[b])
                == PathOrder::Before,
        forall|k: int| 0 <= k < at ==> order(#[trigger] dirs[k], p) == PathOrder::Before,
        at < dirs.len() ==> order(dirs[at], p) == PathOrder::After,
        has_place(order, dirs, q),
    ensures
        order(q, p) != PathOrder::Same,
{
    reveal(has_place);
    let k = choose|k: int| 0 <= k < dirs.len() && order(#[trigger] dirs[k], q) == PathOrder::Same;
    lemma_order(order, dirs[k], q, p);
    if k >= at {
        lemma_rest_after(order, dirs, at, p, k);
    }
}

proof fn lemma_first_spelling(
    order: spec_fn(Seq<char>, Seq<char>) -> PathOrder,
    parents: Seq<Option<Seq<char>>>,
    i: int,
)
    requires
        0 <= i < parents.len(),
        names_dir(parents[i]),
        forall|j: int|
            0 <= j < i && names_dir(#[trigger] parents[j]) ==> order(parents[j]->0, parents[i]->0)
                != PathOrder::Same,
    ensures
        is_first_spelling(order, parents, parents[i]->0),
{
    reveal(is_first_spelling);
}

proof fn lemma_has_place(
    order: spec_fn(Seq<char>, Seq<char>) -> PathOrder,
    dirs: Seq<Seq<char>>,
    p: Seq<char>,
    k: int,
)
    requires
        0 <= k < dirs.len(),
        order(dirs[k], p) == PathOrder::Same,
    ensures
        has_place(order, dirs, p),
{
    reveal(has_place);
}

proof fn lemma_place_stays(
    order: spec_fn(Seq<char>, Seq<char>) -> PathOrder,
    dirs: Seq<Seq<char>>,
    at: int,
    p: Seq<char>,
    q: Seq<char>,
)
    requires
        0 <= at <= dirs.len(),
        has_place(order, dirs, q),
    ensures
        has_place(order, dirs.insert(at, p), q),
{
    reveal(has_place);
    let k = choose|k: int| 0 <= k < dirs.len() && order(#[trigger] dirs[k], q) == PathOrder::Same;
    let o = if k < at {
        k
    } else {
        k + 1
    };
    lemma_inserted(dirs, at, p, o);
}

/// A new path is inserted at its place.
proof fn lemma_insert(
    order: spec_fn(Seq<char>, Seq<char>) -> PathOrder,
    seen: Seq<Option<Seq<char>>>,
    next: Seq<Option<Seq<char>>>,
    dirs: Seq<Seq<char>>,
    at: int,
    p: Seq<char>,
    n: int,
)
    requires
        is_order(order),
        n == seen.len(),
        next.len() == n + 1,
        seen =~= next.subrange(0, n),
        next[n] == Some(p),
        p.len() > 0,
        distinct_dirs(order, seen, dirs),
        0 <= at <= dirs.len(),
        forall|k: int| 0 <= k < at ==> order(#[trigger] dirs[k], p) == PathOrder::Before,
        at < dirs.len() ==> order(dirs[at], p) == PathOrder::After,
    ensures
        distinct_dirs(order, next, dirs.insert(at, p)),
{
    let dirs2 = dirs.insert(at, p);
    assert forall|i: int, j: int| 0 <= i < j < dirs2.len() implies order(
        #[trigger] dirs2[i],
        #[trigger] dirs2[j],
    ) == PathOrder::Before by {
        lemma_insert_ordered(order, dirs, at, p, i, j);
    }
    assert forall|k: int| 0 <= k < dirs2.len() implies is_first_spelling(
        order,
        next,
        #[trigger] dirs2[k],
    ) by {
        lemma_inserted(dirs, at, p, k);
        if k == at {
            assert forall|j: int| 0 <= j < n && names_dir(#[trigger] next[j]) implies order(
                next[j]->0,
                p,
            ) != PathOrder::Same by {
                assert(seen[j] == next[j]);
                lemma_insert_is_first(order, dirs, at, p, next[j]->0);
            }
            lemma_first_spelling(order, next, n);
        } else {
            lemma_first_spelling_stays(order, seen, next, dirs2[k]);
        }
    }
    assert forall|i: int| 0 <= i < next.len() && names_dir(#[trigger] next[i]) implies has_place(
        order,
        dirs2,
        next[i]->0,
    ) by {
        if i < n {
            assert(seen[i] == next[i]);
            lemma_place_stays(order, dirs, at, p, next[i]->0);
        } else {
            lemma_inserted(dirs, at, p, at);
            lemma_order(order, p, p, p);
            lemma_has_place(order, dirs2, p, at);
        }
    }
}

} // verus!
