//! Sets of names, kept in ascending order.

use crate::text::{chars_of, texts};
use vstd::prelude::*;

verus! {

/// `a` and `b` agree before position `k`, and `a` is the lesser of the two there.
pub open spec fn lesser_at(a: Seq<char>, b: Seq<char>, k: int) -> bool {
    &&& 0 <= k <= a.len()
    &&& k < b.len()
    &&& forall|j: int| 0 <= j < k ==> a[j] == b[j]
    &&& k == a.len() || a[k] < b[k]
}

/// `a` comes before `b` in the lexicographic order of their characters.
pub open spec fn text_before(a: Seq<char>, b: Seq<char>) -> bool {
    exists|k: int| lesser_at(a, b, k)
}

/// Each text comes before all those that follow it.
pub open spec fn ascending(list: Seq<Seq<char>>) -> bool {
    forall|i: int, j: int| 0 <= i < j < list.len() ==> text_before(list[i], list[j])
}

/// The members of a finite set of texts in ascending order.
pub open spec fn listing(set: Set<Seq<char>>) -> Seq<Seq<char>> {
    choose|list: Seq<Seq<char>>| ascending(list) && list.to_set() == set
}

/// No text comes before itself, and of two texts at most one comes before the other.
pub proof fn lemma_text_before_asymmetric(a: Seq<char>, b: Seq<char>)
    requires
        text_before(a, b),
    ensures
        a != b,
        !text_before(b, a),
{
    let k = choose|k: int| lesser_at(a, b, k);
    if a == b {
        assert(lesser_at(a, a, k));
        assert(false);
    }
    if text_before(b, a) {
        let m = choose|m: int| lesser_at(b, a, m);
        if k < m {
            assert(b[k] == a[k]);
        } else if m < k {
            assert(a[m] == b[m]);
        }
        assert(false);
    }
}

/// The order of texts is transitive.
pub proof fn lemma_text_before_transitive(a: Seq<char>, b: Seq<char>, c: Seq<char>)
    requires
        text_before(a, b),
        text_before(b, c),
    ensures
        text_before(a, c),
{
    let k = choose|k: int| lesser_at(a, b, k);
    let m = choose|m: int| lesser_at(b, c, m);
    let n = if k < m {
        k
    } else {
        m
    };
    assert(lesser_at(a, c, n)) by {
        assert forall|j: int| 0 <= j < n implies a[j] == c[j] by {
            assert(a[j] == b[j]);
            assert(b[j] == c[j]);
        }
        if k < m {
            assert(b[k] == c[k]);
        } else if m < k {
            assert(a[m] == b[m]);
        }
    }
}

/// Of two different texts one comes before the other.
pub proof fn lemma_text_before_total(a: Seq<char>, b: Seq<char>)
    requires
        a != b,
    ensures
        text_before(a, b) || text_before(b, a),
{
    lemma_text_before_total_from(a, b, 0);
}

proof fn lemma_text_before_total_from(a: Seq<char>, b: Seq<char>, k: int)
    requires
        a != b,
        0 <= k <= a.len(),
        k <= b.len(),
        forall|j: int| 0 <= j < k ==> a[j] == b[j],
    ensures
        text_before(a, b) || text_before(b, a),
    decreases a.len() - k,
{
    if k == a.len() && k == b.len() {
        assert(a =~= b);
    } else if k == a.len() {
        assert(lesser_at(a, b, k));
    } else if k == b.len() {
        assert(lesser_at(b, a, k));
    } else if a[k] < b[k] {
        assert(lesser_at(a, b, k));
    } else if b[k] < a[k] {
        assert(lesser_at(b, a, k));
    } else {
        lemma_text_before_total_from(a, b, k + 1);
    }
}

/// An ascending list holds no text twice.
pub proof fn lemma_ascending_distinct(list: Seq<Seq<char>>)
    requires
        ascending(list),
    ensures
        list.no_duplicates(),
{
    assert forall|i: int, j: int|
        0 <= i < list.len() && 0 <= j < list.len() && i != j implies list[i] != list[j] by {
        if i < j {
            lemma_text_before_asymmetric(list[i], list[j]);
        } else {
            lemma_text_before_asymmetric(list[j], list[i]);
        }
    }
}

/// A set of texts has at most one ascending list.
pub proof fn lemma_listing_unique(a: Seq<Seq<char>>, b: Seq<Seq<char>>)
    requires
        ascending(a),
        ascending(b),
        a.to_set() == b.to_set(),
    ensures
        a == b,
    decreases a.len(),
{
    if a.len() == 0 {
        if b.len() > 0 {
            assert(b.to_set().contains(b[0]));
            assert(a.to_set().contains(b[0]));
        }
        assert(a =~= b);
    } else {
        assert(a.to_set().contains(a.last()));
        assert(b.contains(a.last()));
        let j = b.index_of(a.last());
        assert(b.to_set().contains(b.last()));
        assert(a.contains(b.last()));
        let i = a.index_of(b.last());
        if j < b.len() - 1 {
            assert(text_before(b[j], b.last()));
            assert(text_before(a.last(), b.last()));
            lemma_text_before_asymmetric(a.last(), b.last());
            assert(i < a.len() - 1);
            assert(text_before(a[i], a.last()));
            assert(false);
        }
        assert(a.last() == b.last());
        lemma_ascending_distinct(a);
        lemma_ascending_distinct(b);
        assert forall|t: Seq<char>| a.drop_last().to_set().contains(t) implies b.drop_last().to_set().contains(
            t,
        ) by {
            lemma_member_before_last(a, b, t);
        }
        assert forall|t: Seq<char>| b.drop_last().to_set().contains(t) implies a.drop_last().to_set().contains(
            t,
        ) by {
            lemma_member_before_last(b, a, t);
        }
        assert(a.drop_last().to_set() =~= b.drop_last().to_set());
        lemma_listing_unique(a.drop_last(), b.drop_last());
        assert(a =~= a.drop_last().push(a.last()));
        assert(b =~= b.drop_last().push(b.last()));
    }
}

proof fn lemma_member_before_last(a: Seq<Seq<char>>, b: Seq<Seq<char>>, t: Seq<char>)
    requires
        a.len() > 0,
        b.len() > 0,
        a.no_duplicates(),
        a.to_set() == b.to_set(),
        a.last() == b.last(),
        a.drop_last().to_set().contains(t),
    ensures
        b.drop_last().to_set().contains(t),
{
    let i = a.drop_last().index_of(t);
    assert(a[i] == t);
    assert(t != a.last());
    assert(a.to_set().contains(t));
    assert(b.contains(t));
    let j = b.index_of(t);
    assert(b.drop_last()[j] == t);
}

/// A text is put into an ascending list behind those that come before it.
proof fn lemma_inserted(list: Seq<Seq<char>>, i: int, text: Seq<char>)
    requires
        ascending(list),
        0 <= i <= list.len(),
        forall|j: int| 0 <= j < i ==> text_before(list[j], text),
        i < list.len() ==> text_before(text, list[i]),
    ensures
        ascending(list.insert(i, text)),
        list.insert(i, text).to_set() == list.to_set().insert(text),
        !list.to_set().contains(text),
{
    let after = list.insert(i, text);
    assert forall|j: int| i <= j < list.len() implies text_before(text, list[j]) by {
        if j > i {
            lemma_text_before_transitive(text, list[i], list[j]);
        }
    }
    assert forall|m: int, n: int| 0 <= m < n < after.len() implies text_before(
        after[m],
        after[n],
    ) by {
        let p = if m < i {
            m
        } else {
            m - 1
        };
        let q = if n < i {
            n
        } else {
            n - 1
        };
        assert(m != i ==> after[m] == list[p]);
        assert(n != i ==> after[n] == list[q]);
    }
    assert forall|t: Seq<char>| after.to_set().contains(t) <==> list.to_set().insert(
        text,
    ).contains(t) by {
        if after.contains(t) {
            let m = after.index_of(t);
            if m < i {
                assert(list[m] == t);
            } else if m > i {
                assert(list[m - 1] == t);
            }
        }
        if list.contains(t) {
            let m = list.index_of(t);
            if m < i {
                assert(after[m] == t);
            } else {
                assert(after[m + 1] == t);
            }
        }
        assert(after[i] == text);
    }
    assert(after.to_set() =~= list.to_set().insert(text));
    if list.to_set().contains(text) {
        let m = list.index_of(text);
        if m < i {
            lemma_text_before_asymmetric(list[m], text);
        } else {
            lemma_text_before_asymmetric(text, list[m]);
        }
    }
}

/// The place for a text that an ascending list does not hold.
proof fn lemma_place(list: Seq<Seq<char>>, text: Seq<char>) -> (i: int)
    requires
        ascending(list),
        !list.contains(text),
    ensures
        0 <= i <= list.len(),
        forall|j: int| 0 <= j < i ==> text_before(list[j], text),
        i < list.len() ==> text_before(text, list[i]),
    decreases list.len(),
{
    if list.len() == 0 {
        0
    } else {
        let rest = list.drop_last();
        assert(list[list.len() - 1] == list.last());
        assert(!rest.contains(text)) by {
            if rest.contains(text) {
                assert(list[rest.index_of(text)] == text);
            }
        }
        let i = lemma_place(rest, text);
        assert forall|j: int| 0 <= j < i implies text_before(list[j], text) by {
            assert(list[j] == rest[j]);
        }
        if i == rest.len() {
            lemma_text_before_total(list.last(), text);
            if text_before(list.last(), text) {
                i + 1
            } else {
                i
            }
        } else {
            assert(list[i] == rest[i]);
            i
        }
    }
}

/// Every finite set of texts has an ascending list: its listing holds its members, each once.
pub proof fn lemma_listing(set: Set<Seq<char>>)
    requires
        set.finite(),
    ensures
        ascending(listing(set)),
        listing(set).to_set() == set,
        listing(set).no_duplicates(),
    decreases set.len(),
{
    if set.is_empty() {
        let list = Seq::<Seq<char>>::empty();
        assert(list.to_set() =~= set);
        assert(ascending(list));
    } else {
        let text = set.choose();
        let rest = set.remove(text);
        lemma_listing(rest);
        let list = listing(rest);
        assert(!list.contains(text)) by {
            if list.contains(text) {
                assert(list.to_set().contains(text));
            }
        }
        let i = lemma_place(list, text);
        lemma_inserted(list, i, text);
        assert(rest.insert(text) =~= set);
        assert(ascending(list.insert(i, text)) && list.insert(i, text).to_set() == set);
    }
    lemma_ascending_distinct(listing(set));
}

/// How one text stands to another.
#[derive(Clone, Copy, PartialEq, Eq, Structural, Debug)]
pub enum Order {
    Before,
    Same,
    After,
}

/// How `a` stands to `b` in the lexicographic order of characters.
pub fn order_of(a: &str, b: &str) -> (r: Order)
    ensures
        r == Order::Before <==> text_before(a@, b@),
        r == Order::Same <==> a@ == b@,
        r == Order::After <==> text_before(b@, a@),
{
    let x = chars_of(a);
    let y = chars_of(b);
    let mut i: usize = 0;
    while i < x.len() && i < y.len()
        invariant
            x@ == a@,
            y@ == b@,
            i <= x.len(),
            i <= y.len(),
            forall|j: int| 0 <= j < i ==> a@[j] == b@[j],
        decreases x.len() - i,
    {
        if x[i] < y[i] {
            assert(lesser_at(a@, b@, i as int));
            proof {
                lemma_text_before_asymmetric(a@, b@);
            }
            return Order::Before;
        }
        if y[i] < x[i] {
            assert(lesser_at(b@, a@, i as int));
            proof {
                lemma_text_before_asymmetric(b@, a@);
            }
            return Order::After;
        }
        i += 1;
    }
    if i < y.len() {
        assert(lesser_at(a@, b@, i as int));
        proof {
            lemma_text_before_asymmetric(a@, b@);
        }
        return Order::Before;
    }
    if i < x.len() {
        assert(lesser_at(b@, a@, i as int));
        proof {
            lemma_text_before_asymmetric(b@, a@);
        }
        return Order::After;
    }
    assert(a@ =~= b@);
    proof {
        if text_before(a@, a@) {
            lemma_text_before_asymmetric(a@, a@);
        }
    }
    Order::Same
}

/// A set of names, held as an ascending list.
pub struct NameSet {
    names: Vec<String>,
}

impl View for NameSet {
    type V = Set<Seq<char>>;

    closed spec fn view(&self) -> Set<Seq<char>> {
        texts(self.names@).to_set()
    }
}

impl NameSet {
    #[verifier::type_invariant]
    spec fn inv(self) -> bool {
        ascending(texts(self.names@))
    }

    /// The empty set.
    pub fn new() -> (r: NameSet)
        ensures
            r@ == Set::<Seq<char>>::empty(),
    {
        let r = NameSet { names: Vec::new() };
        assert(r@ =~= Set::<Seq<char>>::empty());
        r
    }

    /// Whether the name is in the set.
    pub fn contains(&self, name: &str) -> (r: bool)
        ensures
            r == self@.contains(name@),
    {
        let mut i: usize = 0;
        while i < self.names.len()
            invariant
                i <= self.names.len(),
                forall|j: int| 0 <= j < i ==> self.names@[j]@ != name@,
            decreases self.names.len() - i,
        {
            if order_of(self.names[i].as_str(), name) == Order::Same {
                assert(texts(self.names@)[i as int] == name@);
                return true;
            }
            i += 1;
        }
        false
    }

    /// Adds a name; returns whether it was not in the set before.
    pub fn insert(&mut self, name: String) -> (fresh: bool)
        ensures
            final(self)@ == old(self)@.insert(name@),
            fresh == !old(self)@.contains(name@),
    {
        proof {
            use_type_invariant(&*self);
        }
        let ghost before = self.names@;
        let mut names: Vec<String> = Vec::new();
        std::mem::swap(&mut names, &mut self.names);
        let fresh = insert_sorted(&mut names, name);
        self.names = names;
        assert(final(self)@ =~= texts(before).to_set().insert(name@));
        fresh
    }

    /// How many names the set holds.
    pub fn len(&self) -> (n: usize)
        ensures
            n == self@.len(),
            self@.finite(),
    {
        proof {
            use_type_invariant(self);
            lemma_ascending_distinct(texts(self.names@));
            texts(self.names@).unique_seq_to_set();
            vstd::seq_lib::seq_to_set_is_finite(texts(self.names@));
        }
        self.names.len()
    }

    /// Whether the set holds no name.
    pub fn is_empty(&self) -> (r: bool)
        ensures
            r == (self@ == Set::<Seq<char>>::empty()),
    {
        proof {
            if self.names@.len() == 0 {
                assert(self@ =~= Set::<Seq<char>>::empty());
            } else {
                assert(texts(self.names@)[0] == self.names@[0]@);
                assert(self@.contains(self.names@[0]@));
            }
        }
        self.names.len() == 0
    }

    /// The names in ascending order.
    pub fn sorted(&self) -> (r: &Vec<String>)
        ensures
            texts(r@) == listing(self@),
    {
        proof {
            use_type_invariant(self);
            let list = texts(self.names@);
            assert(ascending(list) && list.to_set() == self@);
            lemma_listing_unique(list, listing(self@));
        }
        &self.names
    }
}

fn insert_sorted(names: &mut Vec<String>, name: String) -> (fresh: bool)
    requires
        ascending(texts(old(names)@)),
    ensures
        ascending(texts(final(names)@)),
        texts(final(names)@).to_set() == texts(old(names)@).to_set().insert(name@),
        fresh == !texts(old(names)@).to_set().contains(name@),
{
    let ghost before = texts(names@);
    let mut i: usize = 0;
    while i < names.len()
        invariant
            i <= names.len(),
            texts(names@) == before,
            ascending(before),
            forall|j: int| 0 <= j < i ==> text_before(before[j], name@),
        ensures
            i <= names.len(),
            texts(names@) == before,
            ascending(before),
            forall|j: int| 0 <= j < i ==> text_before(before[j], name@),
            i < names.len() ==> text_before(name@, before[i as int]),
        decreases names.len() - i,
    {
        assert(before[i as int] == names@[i as int]@);
        match order_of(names[i].as_str(), name.as_str()) {
            Order::Before => {
                i += 1;
            },
            Order::Same => {
                assert(before.to_set().contains(name@));
                assert(before.to_set() =~= before.to_set().insert(name@));
                return false;
            },
            Order::After => {
                break;
            },
        }
    }
    let ghost entry = name;
    names.insert(i, name);
    proof {
        assert(texts(names@) =~= before.insert(i as int, entry@));
        lemma_inserted(before, i as int, entry@);
    }
    true
}

/// Of two texts that agree up to some point, the one with the lesser character there comes
/// first, and so does the one that ends there.
pub proof fn lemma_text_before_by_character(
    common: Seq<char>,
    c: char,
    d: char,
    a: Seq<char>,
    b: Seq<char>,
)
    requires
        c < d,
    ensures
        text_before(common + seq![c] + a, common + seq![d] + b),
        text_before(common, common + seq![d] + b),
{
    let k = common.len() as int;
    assert(lesser_at(common + seq![c] + a, common + seq![d] + b, k));
    assert(lesser_at(common, common + seq![d] + b, k));
}

} // verus!
