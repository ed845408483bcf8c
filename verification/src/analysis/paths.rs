//! How printed paths are read: without their generic arguments, and by their last segments.

use crate::text::{has_suffix, joined, lemma_suffix};
use vstd::prelude::*;

verus! {

/// How many angle brackets are open at the end of `s`; a closing one too many counts as none.
pub open spec fn bracket_depth(s: Seq<char>) -> nat
    decreases s.len(),
{
    if s.len() == 0 {
        0
    } else {
        let d = bracket_depth(s.drop_last());
        if s.last() == '<' {
            d + 1
        } else if s.last() == '>' && d > 0 {
            (d - 1) as nat
        } else {
            d
        }
    }
}

/// The characters of `s` that stand outside all angle brackets, without the brackets.
pub open spec fn outside_brackets(s: Seq<char>) -> Seq<char>
    decreases s.len(),
{
    if s.len() == 0 {
        Seq::empty()
    } else {
        let kept = outside_brackets(s.drop_last());
        if s.last() == '<' || s.last() == '>' || bracket_depth(s.drop_last()) > 0 {
            kept
        } else {
            kept.push(s.last())
        }
    }
}

/// Four colons stand at position `i` of `s`.
pub open spec fn four_colons_at(s: Seq<char>, i: int) -> bool {
    &&& 0 <= i
    &&& i + 4 <= s.len()
    &&& s[i] == ':'
    &&& s[i + 1] == ':'
    &&& s[i + 2] == ':'
    &&& s[i + 3] == ':'
}

/// `s` with every run of four or more colons shortened, two at a time, to fewer than four.
pub open spec fn collapse_colons(s: Seq<char>) -> Seq<char>
    decreases s.len(),
{
    if s.len() == 0 {
        s
    } else if four_colons_at(s, 0) {
        collapse_colons(s.skip(2))
    } else {
        seq![s[0]] + collapse_colons(s.skip(1))
    }
}

/// A printed path without its generic arguments.
pub open spec fn without_generics(s: Seq<char>) -> Seq<char> {
    collapse_colons(outside_brackets(s))
}

/// A printed path, generic arguments aside, ends with the given segments.
pub open spec fn path_matches(actual: Seq<char>, path: Seq<Seq<char>>) -> bool {
    has_suffix(without_generics(actual), joined(path, "::"@))
}

/// A printed path is that of `Pin::new_unchecked`.
pub open spec fn names_pin_new_unchecked(path: Seq<char>) -> bool {
    ||| path_matches(path, seq!["core"@, "pin"@, "Pin"@, "new_unchecked"@])
    ||| path_matches(path, seq!["std"@, "pin"@, "Pin"@, "new_unchecked"@])
}

/// A printed path is that of `Pin`.
pub open spec fn names_pin(path: Seq<char>) -> bool {
    ||| path_matches(path, seq!["core"@, "pin"@, "Pin"@])
    ||| path_matches(path, seq!["std"@, "pin"@, "Pin"@])
}

/// `s` with each four colons in a row, from the left and without overlap, replaced by two.
pub open spec fn halve_colons(s: Seq<char>) -> Seq<char>
    decreases s.len(),
{
    if s.len() == 0 {
        s
    } else if four_colons_at(s, 0) {
        seq![':', ':'] + halve_colons(s.skip(4))
    } else {
        seq![s[0]] + halve_colons(s.skip(1))
    }
}

/// A run of `k` colons.
spec fn colons(k: nat) -> Seq<char> {
    Seq::new(k, |i: int| ':')
}

/// A path without generic arguments holds no angle bracket and no four colons in a row.
pub proof fn lemma_without_generics_clean(s: Seq<char>)
    ensures
        forall|i: int|
            0 <= i < without_generics(s).len() ==> without_generics(s)[i] != '<'
                && without_generics(s)[i] != '>',
        forall|i: int| !four_colons_at(without_generics(s), i),
{
    lemma_outside_brackets_clean(s);
    lemma_collapse_clean(outside_brackets(s));
    lemma_collapse_keeps_out(outside_brackets(s), '<');
    lemma_collapse_keeps_out(outside_brackets(s), '>');
}

/// A path that holds no angle bracket and no four colons in a row stays as it is.
pub proof fn lemma_without_generics_unchanged(s: Seq<char>)
    requires
        forall|i: int| 0 <= i < s.len() ==> s[i] != '<' && s[i] != '>',
        forall|i: int| !four_colons_at(s, i),
    ensures
        without_generics(s) == s,
{
    lemma_outside_brackets_unchanged(s);
    lemma_collapse_unchanged(s);
}

/// Removing generic arguments once more changes nothing.
pub proof fn lemma_without_generics_idempotent(s: Seq<char>)
    ensures
        without_generics(without_generics(s)) == without_generics(s),
{
    lemma_without_generics_clean(s);
    lemma_without_generics_unchanged(without_generics(s));
}

/// Collapsing the colons is what replacing four colons by two comes to, when it is repeated
/// until nothing changes any more: a replacement does not change the collapsed form, and a
/// text that a replacement leaves alone is its own collapsed form.
pub proof fn lemma_collapse_is_repeated_halving(s: Seq<char>)
    ensures
        collapse_colons(halve_colons(s)) == collapse_colons(s),
        halve_colons(s) == s ==> collapse_colons(s) == s,
        halve_colons(s) != s ==> halve_colons(s).len() < s.len(),
{
    lemma_halving_after_colons(0, s);
    assert(colons(0) + s =~= s);
    assert(colons(0) + halve_colons(s) =~= halve_colons(s));
    lemma_halving_shortens(s);
    if halve_colons(s) == s {
        assert forall|i: int| !four_colons_at(s, i) by {}
        lemma_collapse_unchanged(s);
    }
}

proof fn lemma_outside_brackets_clean(s: Seq<char>)
    ensures
        forall|i: int|
            0 <= i < outside_brackets(s).len() ==> outside_brackets(s)[i] != '<'
                && outside_brackets(s)[i] != '>',
    decreases s.len(),
{
    if s.len() > 0 {
        let kept = outside_brackets(s.drop_last());
        let r = outside_brackets(s);
        lemma_outside_brackets_clean(s.drop_last());
        assert forall|i: int| 0 <= i < r.len() implies r[i] != '<' && r[i] != '>' by {
            if i < kept.len() {
                assert(r[i] == kept[i]);
            }
        }
    }
}

proof fn lemma_outside_brackets_unchanged(s: Seq<char>)
    requires
        forall|i: int| 0 <= i < s.len() ==> s[i] != '<' && s[i] != '>',
    ensures
        outside_brackets(s) == s,
        bracket_depth(s) == 0,
    decreases s.len(),
{
    if s.len() > 0 {
        assert forall|i: int| 0 <= i < s.drop_last().len() implies s.drop_last()[i] != '<'
            && s.drop_last()[i] != '>' by {
            assert(s.drop_last()[i] == s[i]);
        }
        lemma_outside_brackets_unchanged(s.drop_last());
        assert(s.drop_last().push(s.last()) =~= s);
    } else {
        assert(outside_brackets(s) =~= s);
    }
}

proof fn lemma_collapse_keeps_out(s: Seq<char>, c: char)
    requires
        forall|i: int| 0 <= i < s.len() ==> s[i] != c,
    ensures
        forall|i: int| 0 <= i < collapse_colons(s).len() ==> collapse_colons(s)[i] != c,
    decreases s.len(),
{
    if s.len() > 0 {
        if four_colons_at(s, 0) {
            lemma_collapse_keeps_out(s.skip(2), c);
            assert(collapse_colons(s) == collapse_colons(s.skip(2)));
        } else {
            let q = collapse_colons(s.skip(1));
            let r = collapse_colons(s);
            lemma_collapse_keeps_out(s.skip(1), c);
            assert forall|i: int| 0 <= i < r.len() implies r[i] != c by {
                if i > 0 {
                    assert(r[i] == q[i - 1]);
                }
            }
        }
    }
}

/// `s` begins with `n` colons.
spec fn colons_first(s: Seq<char>, n: nat) -> bool {
    n <= s.len() && forall|j: int| 0 <= j < n ==> s[j] == ':'
}

/// Where the collapsed form begins with up to three colons, so does the text itself.
proof fn lemma_collapse_start(s: Seq<char>, n: nat)
    requires
        n <= 3,
        colons_first(collapse_colons(s), n),
    ensures
        colons_first(s, n),
    decreases s.len(),
{
    if s.len() > 0 && n > 0 && !four_colons_at(s, 0) {
        let t = s.skip(1);
        let q = collapse_colons(t);
        let r = collapse_colons(s);
        assert forall|j: int| 0 <= j < n - 1 implies q[j] == ':' by {
            assert(r[j + 1] == q[j]);
        }
        lemma_collapse_start(t, (n - 1) as nat);
        assert(r[0] == s[0]);
        assert forall|j: int| 0 <= j < n implies s[j] == ':' by {
            if j > 0 {
                assert(t[j - 1] == s[j]);
            }
        }
    }
}

proof fn lemma_collapse_clean(s: Seq<char>)
    ensures
        forall|i: int| !four_colons_at(collapse_colons(s), i),
    decreases s.len(),
{
    if s.len() > 0 {
        if four_colons_at(s, 0) {
            lemma_collapse_clean(s.skip(2));
            assert(collapse_colons(s) == collapse_colons(s.skip(2)));
        } else {
            let t = s.skip(1);
            let q = collapse_colons(t);
            let r = collapse_colons(s);
            lemma_collapse_clean(t);
            assert forall|i: int| !four_colons_at(r, i) by {
                if four_colons_at(r, i) {
                    if i > 0 {
                        assert(four_colons_at(q, i - 1));
                    } else {
                        assert(q[0] == r[1] && q[1] == r[2] && q[2] == r[3]);
                        assert(colons_first(q, 3));
                        lemma_collapse_start(t, 3);
                        assert(t[0] == s[1] && t[1] == s[2] && t[2] == s[3]);
                        assert(four_colons_at(s, 0));
                    }
                }
            }
        }
    }
}

proof fn lemma_collapse_unchanged(s: Seq<char>)
    requires
        forall|i: int| !four_colons_at(s, i),
    ensures
        collapse_colons(s) == s,
    decreases s.len(),
{
    if s.len() > 0 {
        let t = s.skip(1);
        assert forall|i: int| !four_colons_at(t, i) by {
            assert(!four_colons_at(s, i + 1));
        }
        lemma_collapse_unchanged(t);
        assert(seq![s[0]] + t =~= s);
    }
}

/// What stands after a run of colons and one other character is collapsed by itself.
proof fn lemma_collapse_after_other(k: nat, x: char, a: Seq<char>, b: Seq<char>)
    requires
        x != ':',
        collapse_colons(a) == collapse_colons(b),
    ensures
        collapse_colons(colons(k) + seq![x] + a) == collapse_colons(colons(k) + seq![x] + b),
    decreases k,
{
    let p = colons(k) + seq![x] + a;
    let q = colons(k) + seq![x] + b;
    assert(p[k as int] == x && q[k as int] == x);
    if k >= 4 {
        assert(four_colons_at(p, 0) && four_colons_at(q, 0));
        let m = (k - 2) as nat;
        assert(p.skip(2) =~= colons(m) + seq![x] + a);
        assert(q.skip(2) =~= colons(m) + seq![x] + b);
        lemma_collapse_after_other(m, x, a, b);
    } else if k > 0 {
        let m = (k - 1) as nat;
        assert(!four_colons_at(p, 0) && !four_colons_at(q, 0));
        assert(p.skip(1) =~= colons(m) + seq![x] + a);
        assert(q.skip(1) =~= colons(m) + seq![x] + b);
        lemma_collapse_after_other(m, x, a, b);
    } else {
        assert(!four_colons_at(p, 0) && !four_colons_at(q, 0));
        assert(p.skip(1) =~= a);
        assert(q.skip(1) =~= b);
    }
}

proof fn lemma_halving_after_colons(k: nat, t: Seq<char>)
    ensures
        collapse_colons(colons(k) + halve_colons(t)) == collapse_colons(colons(k) + t),
    decreases t.len(),
{
    if t.len() == 0 {
    } else if four_colons_at(t, 0) {
        let u = t.skip(4);
        let m = (k + 2) as nat;
        lemma_halving_after_colons(m, u);
        assert(colons(k) + halve_colons(t) =~= colons(m) + halve_colons(u));
        let full = colons(k) + t;
        assert(full[0] == ':' && full[1] == ':' && full[2] == ':' && full[3] == ':') by {
            assert forall|i: int| 0 <= i < k + 4 implies full[i] == ':' by {
                if i >= k {
                    assert(full[i] == t[i - k]);
                }
            }
        }
        assert(four_colons_at(full, 0));
        assert(full.skip(2) =~= colons(m) + u) by {
            assert forall|i: int| 0 <= i < full.skip(2).len() implies full.skip(2)[i] == (colons(m)
                + u)[i] by {
                if i < m {
                    if i + 2 >= k {
                        assert(full[i + 2] == t[i + 2 - k]);
                    }
                }
            }
        }
    } else {
        let u = t.skip(1);
        if t[0] == ':' {
            let m = (k + 1) as nat;
            lemma_halving_after_colons(m, u);
            assert(colons(k) + halve_colons(t) =~= colons(m) + halve_colons(u));
            assert(colons(k) + t =~= colons(m) + u);
        } else {
            lemma_halving_after_colons(0, u);
            assert(colons(0) + halve_colons(u) =~= halve_colons(u));
            assert(colons(0) + u =~= u);
            lemma_collapse_after_other(k, t[0], halve_colons(u), u);
            assert(colons(k) + halve_colons(t) =~= colons(k) + seq![t[0]] + halve_colons(u));
            assert(colons(k) + t =~= colons(k) + seq![t[0]] + u);
        }
    }
}

proof fn lemma_halving_shortens(s: Seq<char>)
    ensures
        (exists|i: int| four_colons_at(s, i)) ==> halve_colons(s).len() < s.len(),
        (forall|i: int| !four_colons_at(s, i)) ==> halve_colons(s) == s,
        halve_colons(s).len() <= s.len(),
    decreases s.len(),
{
    if s.len() > 0 {
        if four_colons_at(s, 0) {
            lemma_halving_shortens(s.skip(4));
        } else {
            let t = s.skip(1);
            lemma_halving_shortens(t);
            if exists|i: int| four_colons_at(s, i) {
                let i = choose|i: int| four_colons_at(s, i);
                assert(four_colons_at(t, i - 1));
            } else {
                assert forall|i: int| !four_colons_at(t, i) by {
                    assert(!four_colons_at(s, i + 1));
                }
                assert(seq![s[0]] + t =~= s);
            }
        }
    }
}

/// How many more angle brackets are opened in `s` than closed.
pub open spec fn open_brackets(s: Seq<char>) -> int
    decreases s.len(),
{
    if s.len() == 0 {
        0
    } else {
        open_brackets(s.drop_last()) + if s.last() == '<' {
            1int
        } else if s.last() == '>' {
            -1
        } else {
            0
        }
    }
}

/// The angle brackets in `s` belong together.
pub open spec fn balanced(s: Seq<char>) -> bool {
    &&& open_brackets(s) == 0
    &&& forall|k: int| 0 <= k <= s.len() ==> open_brackets(#[trigger] s.take(k)) >= 0
}

/// `s` holds no angle bracket.
pub open spec fn no_brackets(s: Seq<char>) -> bool {
    forall|i: int| 0 <= i < s.len() ==> #[trigger] s[i] != '<' && s[i] != '>'
}

/// A list of generic arguments, and all that is nested in it, is dropped; what stands before and
/// behind it is kept.
pub proof fn lemma_arguments_dropped(a: Seq<char>, inner: Seq<char>, b: Seq<char>)
    requires
        no_brackets(a),
        balanced(inner),
        no_brackets(b),
    ensures
        outside_brackets(a + seq!['<'] + inner + seq!['>'] + b) == a + b,
        without_generics(a + seq!['<'] + inner + seq!['>'] + b) == collapse_colons(a + b),
{
    let opened = a + seq!['<'];
    assert forall|i: int| 0 <= i < a.len() implies a[i] != '<' && a[i] != '>' by {}
    lemma_outside_brackets_unchanged(a);
    assert(opened.drop_last() =~= a);
    assert(bracket_depth(opened) == 1 && outside_brackets(opened) == a);
    lemma_inside_dropped(opened, inner, inner.len() as int);
    assert(inner.take(inner.len() as int) =~= inner);
    let closed = opened + inner + seq!['>'];
    assert(closed.drop_last() =~= opened + inner);
    assert(bracket_depth(closed) == 0 && outside_brackets(closed) == a);
    lemma_outside_kept(closed, b);
}

proof fn lemma_inside_dropped(opened: Seq<char>, inner: Seq<char>, k: int)
    requires
        balanced(inner),
        bracket_depth(opened) == 1,
        0 <= k <= inner.len(),
    ensures
        bracket_depth(opened + inner.take(k)) == 1 + open_brackets(inner.take(k)),
        outside_brackets(opened + inner.take(k)) == outside_brackets(opened),
    decreases k,
{
    let now = opened + inner.take(k);
    if k == 0 {
        assert(now =~= opened);
    } else {
        lemma_inside_dropped(opened, inner, k - 1);
        assert(inner.take(k).drop_last() =~= inner.take(k - 1));
        assert(now.drop_last() =~= opened + inner.take(k - 1));
        assert(now.last() == inner.take(k).last());
    }
}

proof fn lemma_outside_kept(closed: Seq<char>, b: Seq<char>)
    requires
        bracket_depth(closed) == 0,
        no_brackets(b),
    ensures
        bracket_depth(closed + b) == 0,
        outside_brackets(closed + b) == outside_brackets(closed) + b,
    decreases b.len(),
{
    let all = closed + b;
    if b.len() == 0 {
        assert(all =~= closed);
        assert(outside_brackets(closed) + b =~= outside_brackets(closed));
    } else {
        let rest = b.drop_last();
        assert forall|i: int| 0 <= i < rest.len() implies #[trigger] rest[i] != '<' && rest[i]
            != '>' by {
            assert(rest[i] == b[i]);
        }
        lemma_outside_kept(closed, rest);
        assert(all.drop_last() =~= closed + rest);
        assert(b[b.len() - 1] == all.last());
        assert(outside_brackets(all) =~= outside_brackets(closed) + b);
    }
}

/// A path is that of `Pin::new_unchecked` exactly when, generic arguments aside, it ends with one
/// of the two ways to write it; and likewise for `Pin`.
pub proof fn lemma_pin_paths(path: Seq<char>)
    ensures
        names_pin_new_unchecked(path) <==> {
            ||| exists|start: Seq<char>|
                without_generics(path) == #[trigger] (start + "core::pin::Pin::new_unchecked"@)
            ||| exists|start: Seq<char>|
                without_generics(path) == #[trigger] (start + "std::pin::Pin::new_unchecked"@)
        },
        names_pin(path) <==> {
            ||| exists|start: Seq<char>| without_generics(path) == #[trigger] (start
                + "core::pin::Pin"@)
            ||| exists|start: Seq<char>| without_generics(path) == #[trigger] (start
                + "std::pin::Pin"@)
        },
{
    reveal_strlit("core");
    reveal_strlit("std");
    reveal_strlit("pin");
    reveal_strlit("Pin");
    reveal_strlit("new_unchecked");
    reveal_strlit("::");
    reveal_strlit("core::pin::Pin::new_unchecked");
    reveal_strlit("std::pin::Pin::new_unchecked");
    reveal_strlit("core::pin::Pin");
    reveal_strlit("std::pin::Pin");
    let sep = "::"@;
    lemma_joined_three("core"@, "pin"@, "Pin"@, sep);
    lemma_joined_three("std"@, "pin"@, "Pin"@, sep);
    lemma_joined_four("core"@, "pin"@, "Pin"@, "new_unchecked"@, sep);
    lemma_joined_four("std"@, "pin"@, "Pin"@, "new_unchecked"@, sep);
    assert(joined(seq!["core"@, "pin"@, "Pin"@], sep) =~= "core::pin::Pin"@);
    assert(joined(seq!["std"@, "pin"@, "Pin"@], sep) =~= "std::pin::Pin"@);
    assert(joined(seq!["core"@, "pin"@, "Pin"@, "new_unchecked"@], sep)
        =~= "core::pin::Pin::new_unchecked"@);
    assert(joined(seq!["std"@, "pin"@, "Pin"@, "new_unchecked"@], sep)
        =~= "std::pin::Pin::new_unchecked"@);
    let text = without_generics(path);
    lemma_suffix(text, "core::pin::Pin"@);
    lemma_suffix(text, "std::pin::Pin"@);
    lemma_suffix(text, "core::pin::Pin::new_unchecked"@);
    lemma_suffix(text, "std::pin::Pin::new_unchecked"@);
}

proof fn lemma_joined_three(a: Seq<char>, b: Seq<char>, c: Seq<char>, sep: Seq<char>)
    ensures
        joined(seq![a, b, c], sep) == a + sep + b + sep + c,
{
    assert(seq![a, b, c].drop_last() =~= seq![a, b]);
    assert(seq![a, b].drop_last() =~= seq![a]);
    assert(joined(seq![a], sep) == a);
    assert(joined(seq![a, b], sep) == a + sep + b);
}

proof fn lemma_joined_four(a: Seq<char>, b: Seq<char>, c: Seq<char>, d: Seq<char>, sep: Seq<char>)
    ensures
        joined(seq![a, b, c, d], sep) == a + sep + b + sep + c + sep + d,
{
    assert(seq![a, b, c, d].drop_last() =~= seq![a, b, c]);
    lemma_joined_three(a, b, c, sep);
}

/// Where no angle bracket is open, what follows is read as if it stood alone.
proof fn lemma_read_on(closed: Seq<char>, b: Seq<char>)
    requires
        bracket_depth(closed) == 0,
    ensures
        bracket_depth(closed + b) == bracket_depth(b),
        outside_brackets(closed + b) == outside_brackets(closed) + outside_brackets(b),
    decreases b.len(),
{
    let all = closed + b;
    if b.len() == 0 {
        assert(all =~= closed);
    } else {
        lemma_read_on(closed, b.drop_last());
        assert(all.drop_last() =~= closed + b.drop_last());
        assert(all.last() == b.last());
        assert(outside_brackets(all) =~= outside_brackets(closed) + outside_brackets(b));
    }
}

/// Each list of generic arguments is dropped, also where more of them follow. A closing bracket
/// that closes nothing is dropped alone, and from an opening one that is never closed on nothing
/// is kept.
pub proof fn lemma_arguments_dropped_in_turn(a: Seq<char>, inner: Seq<char>, b: Seq<char>)
    requires
        no_brackets(a),
        balanced(inner),
    ensures
        outside_brackets(a + seq!['<'] + inner + seq!['>'] + b) == a + outside_brackets(b),
        outside_brackets(a + seq!['>'] + b) == a + outside_brackets(b),
        outside_brackets(a + seq!['<'] + inner) == a,
{
    let opened = a + seq!['<'];
    assert forall|i: int| 0 <= i < a.len() implies a[i] != '<' && a[i] != '>' by {}
    lemma_outside_brackets_unchanged(a);
    assert(opened.drop_last() =~= a);
    assert(bracket_depth(opened) == 1 && outside_brackets(opened) == a);
    lemma_inside_dropped(opened, inner, inner.len() as int);
    assert(inner.take(inner.len() as int) =~= inner);
    let closed = opened + inner + seq!['>'];
    assert(closed.drop_last() =~= opened + inner);
    lemma_read_on(closed, b);
    let stray = a + seq!['>'];
    assert(stray.drop_last() =~= a);
    lemma_read_on(stray, b);
}

/// A printed path matches a list of segments exactly when, its generic arguments aside, it is
/// those segments with `::` between them, and anything before.
pub proof fn lemma_path_matches(
    actual: Seq<char>,
    a: Seq<char>,
    b: Seq<char>,
    c: Seq<char>,
    d: Seq<char>,
)
    ensures
        path_matches(actual, seq![a, b, c]) <==> exists|start: Seq<char>|
            without_generics(actual) == #[trigger] (start + (a + "::"@ + b + "::"@ + c)),
        path_matches(actual, seq![a, b, c, d]) <==> exists|start: Seq<char>|
            without_generics(actual) == #[trigger] (start + (a + "::"@ + b + "::"@ + c + "::"@
                + d)),
{
    lemma_joined_three(a, b, c, "::"@);
    lemma_joined_four(a, b, c, d, "::"@);
    lemma_suffix(without_generics(actual), a + "::"@ + b + "::"@ + c);
    lemma_suffix(without_generics(actual), a + "::"@ + b + "::"@ + c + "::"@ + d);
}

} // verus!
