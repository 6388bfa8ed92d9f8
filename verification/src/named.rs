//! Lists of values under names, kept in the order of the names.

use crate::message::characters;
use crate::value::Value;
use vstd::prelude::*;

verus! {

/// Does `a` come before `b`, character by character?
pub open spec fn before(a: Seq<char>, b: Seq<char>) -> bool
    decreases b.len(),
{
    if b.len() == 0 {
        false
    } else if a.len() == 0 {
        true
    } else {
        a[0] < b[0] || a[0] == b[0] && before(a.drop_first(), b.drop_first())
    }
}

/// Of two names one comes before the other, or they are the same.
proof fn lemma_trichotomy(a: Seq<char>, b: Seq<char>)
    ensures
        before(a, b) || before(b, a) || a == b,
        !(before(a, b) && before(b, a)),
        a == b ==> !before(a, b),
    decreases b.len(),
{
    if a.len() > 0 && b.len() > 0 {
        lemma_trichotomy(a.drop_first(), b.drop_first());
        if a.drop_first() == b.drop_first() && a[0] == b[0] {
            assert(a =~= seq![a[0]] + a.drop_first());
            assert(b =~= seq![b[0]] + b.drop_first());
        }
    } else if a.len() == 0 && b.len() == 0 {
        assert(a =~= b);
    }
}

/// The order of names is transitive.
proof fn lemma_transitive(a: Seq<char>, b: Seq<char>, c: Seq<char>)
    requires
        before(a, b),
        before(b, c),
    ensures
        before(a, c),
    decreases c.len(),
{
    if a.len() > 0 && b.len() > 0 && c.len() > 0 {
        if a[0] == b[0] && b[0] == c[0] {
            lemma_transitive(a.drop_first(), b.drop_first(), c.drop_first());
        }
    }
}

/// Does `a` come before `b`, character by character?
pub fn comes_before(a: &str, b: &str) -> (r: bool)
    ensures
        r == before(a@, b@),
{
    let x = characters(a);
    let y = characters(b);
    let mut i: usize = 0;
    assert(x@.skip(0) =~= x@);
    assert(y@.skip(0) =~= y@);
    while i < x.len() && i < y.len() && x[i] == y[i]
        invariant
            i <= x@.len(),
            i <= y@.len(),
            x@ == a@,
            y@ == b@,
            before(a@, b@) == before(x@.skip(i as int), y@.skip(i as int)),
        decreases x@.len() - i,
    {
        assert(x@.skip(i as int).drop_first() =~= x@.skip(i + 1));
        assert(y@.skip(i as int).drop_first() =~= y@.skip(i + 1));
        i = i + 1;
    }
    if i >= y.len() {
        return false;
    }
    if i >= x.len() {
        return true;
    }
    x[i] < y[i]
}

/// Lists of values under names; each name occurs once, and the names ascend.
#[derive(Debug)]
pub struct Named<T> {
    names: Vec<String>,
    lists: Vec<Vec<T>>,
}

/// The mathematical model of a [`Named`].
pub struct Table<T> {
    /// The names.
    pub names: Seq<Seq<char>>,
    /// The list of each name.
    pub lists: Seq<Seq<T>>,
}

impl<T> Table<T> {
    /// One list per name, and the names ascend.
    pub open spec fn well_formed(self) -> bool {
        &&& self.names.len() == self.lists.len()
        &&& forall|i: int, j: int|
            0 <= i < j < self.names.len() ==> before(
                #[trigger] self.names[i],
                #[trigger] self.names[j],
            )
    }

    /// Is there a list under the name?
    pub open spec fn has(self, name: Seq<char>) -> bool {
        exists|i: int| 0 <= i < self.names.len() && #[trigger] self.names[i] == name
    }

    /// The place of a name.
    pub open spec fn place(self, name: Seq<char>) -> int {
        choose|i: int| 0 <= i < self.names.len() && #[trigger] self.names[i] == name
    }

    /// The list under the name, or an empty one.
    pub open spec fn list(self, name: Seq<char>) -> Seq<T> {
        if self.has(name) {
            self.lists[self.place(name)]
        } else {
            Seq::empty()
        }
    }
}

impl<T: Value> Table<T> {
    /// The same names with lists of equal values.
    pub open spec fn same(self, other: Self) -> bool {
        &&& self.names == other.names
        &&& self.lists.len() == other.lists.len()
        &&& forall|i: int|
            #![trigger self.lists[i]]
            0 <= i < self.lists.len() ==> {
                &&& self.lists[i].len() == other.lists[i].len()
                &&& forall|j: int|
                    0 <= j < self.lists[i].len() ==> (#[trigger] self.lists[i][j]).equal(
                        other.lists[i][j],
                    )
            }
    }
}

impl<T> View for Named<T> {
    type V = Table<T>;

    closed spec fn view(&self) -> Table<T> {
        table_of(self.names@, self.lists@)
    }
}

/// The table of names and their lists.
spec fn table_of<T>(names: Seq<String>, lists: Seq<Vec<T>>) -> Table<T> {
    Table {
        names: names.map_values(|s: String| s@),
        lists: lists.map_values(|v: Vec<T>| v@),
    }
}

/// A name has one place only.
proof fn lemma_place<T>(t: Table<T>, i: int)
    requires
        t.well_formed(),
        0 <= i < t.names.len(),
    ensures
        t.has(t.names[i]),
        t.place(t.names[i]) == i,
        t.list(t.names[i]) == t.lists[i],
{
    let k = t.place(t.names[i]);
    assert(0 <= k < t.names.len() && t.names[k] == t.names[i]);
    lemma_trichotomy(t.names[i], t.names[k]);
    if k < i {
        assert(before(t.names[k], t.names[i]));
    } else if i < k {
        assert(before(t.names[i], t.names[k]));
    }
}

/// The table with a value appended to the list of its place `i`.
pub open spec fn appended<T>(t: Table<T>, i: int, value: T) -> Table<T> {
    Table { names: t.names, lists: t.lists.update(i, t.lists[i].push(value)) }
}

/// The table with a new name and a list of one value at place `i`.
pub open spec fn inserted<T>(t: Table<T>, i: int, name: Seq<char>, value: T) -> Table<T> {
    Table { names: t.names.insert(i, name), lists: t.lists.insert(i, seq![value]) }
}

/// Appending to a list changes that list alone.
proof fn lemma_appended<T>(t: Table<T>, i: int, value: T)
    requires
        t.well_formed(),
        0 <= i < t.names.len(),
    ensures
        appended(t, i, value).well_formed(),
        forall|k: Seq<char>| #[trigger] appended(t, i, value).has(k) == t.has(k),
        appended(t, i, value).list(t.names[i]) == t.list(t.names[i]).push(value),
        forall|k: Seq<char>|
            k != t.names[i] ==> #[trigger] appended(t, i, value).list(k) == t.list(k),
{
    let next = appended(t, i, value);
    lemma_place(t, i);
    lemma_place(next, i);
    assert forall|k: Seq<char>| k != t.names[i] implies #[trigger] next.list(k) == t.list(k) by {
        if t.has(k) {
            let j = t.place(k);
            lemma_place(t, j);
            lemma_place(next, j);
        }
    }
}

/// Inserting a name between smaller and larger ones keeps the order, and leaves the
/// other lists alone.
proof fn lemma_inserted<T>(t: Table<T>, i: int, name: Seq<char>, value: T)
    requires
        t.well_formed(),
        0 <= i <= t.names.len(),
        forall|j: int| 0 <= j < i ==> before(#[trigger] t.names[j], name),
        i < t.names.len() ==> before(name, t.names[i]),
    ensures
        inserted(t, i, name, value).well_formed(),
        !t.has(name),
        forall|k: Seq<char>|
            #[trigger] inserted(t, i, name, value).has(k) == (t.has(k) || k == name),
        inserted(t, i, name, value).list(name) == seq![value],
        forall|k: Seq<char>|
            k != name ==> #[trigger] inserted(t, i, name, value).list(k) == t.list(k),
{
    let next = inserted(t, i, name, value);
    assert forall|a: int| i <= a < t.names.len() implies before(name, #[trigger] t.names[a]) by {
        if a > i {
            assert(before(t.names[i], t.names[a]));
            lemma_transitive(name, t.names[i], t.names[a]);
        }
    }
    assert forall|a: int, b: int| 0 <= a < b < next.names.len() implies before(
        #[trigger] next.names[a],
        #[trigger] next.names[b],
    ) by {
        let oa = if a < i {
            a
        } else {
            a - 1
        };
        let ob = if b < i {
            b
        } else {
            b - 1
        };
        if a != i {
            assert(next.names[a] == t.names[oa]);
        }
        if b != i {
            assert(next.names[b] == t.names[ob]);
        }
    }
    if t.has(name) {
        let k = t.place(name);
        lemma_trichotomy(t.names[k], name);
        assert(false);
    }
    assert(next.names[i] == name);
    lemma_place(next, i);
    assert forall|k: Seq<char>| #[trigger] next.has(k) == (t.has(k) || k == name) by {
        if t.has(k) {
            let j = t.place(k);
            assert(t.names[j] == k);
            if j < i {
                assert(next.names[j] == k);
            } else {
                assert(next.names[j + 1] == k);
            }
        }
        if next.has(k) && k != name {
            let j = next.place(k);
            assert(next.names[j] == k);
            if j < i {
                assert(t.names[j] == k);
            } else {
                assert(j != i);
                assert(t.names[j - 1] == k);
            }
        }
    }
    assert forall|k: Seq<char>| k != name implies #[trigger] next.list(k) == t.list(k) by {
        if t.has(k) {
            let j = t.place(k);
            assert(t.names[j] == k);
            lemma_place(t, j);
            if j < i {
                assert(next.names[j] == k);
                lemma_place(next, j);
                assert(next.lists[j] == t.lists[j]);
            } else {
                assert(next.names[j + 1] == k);
                lemma_place(next, j + 1);
                assert(next.lists[j + 1] == t.lists[j]);
            }
        } else {
            assert(!next.has(k));
        }
    }
}

impl<T> Named<T> {
    #[verifier::type_invariant]
    spec fn is_well_formed(self) -> bool {
        self@.well_formed()
    }

    /// No names.
    pub fn new() -> (r: Self)
        ensures
            r@.names.len() == 0,
            r@.well_formed(),
            forall|k: Seq<char>| !#[trigger] r@.has(k),
    {
        Named { names: Vec::new(), lists: Vec::new() }
    }

    /// How many names there are.
    pub fn len(&self) -> (r: usize)
        ensures
            r == self@.names.len(),
            self@.well_formed(),
    {
        proof {
            use_type_invariant(self);
        }
        self.names.len()
    }

    /// Are there no names?
    pub fn is_empty(&self) -> (r: bool)
        ensures
            r == (self@.names.len() == 0),
            self@.well_formed(),
    {
        proof {
            use_type_invariant(self);
        }
        self.names.len() == 0
    }

    /// The name at a place.
    pub fn name(&self, i: usize) -> (r: &String)
        requires
            i < self@.names.len(),
        ensures
            r@ == self@.names[i as int],
    {
        &self.names[i]
    }

    /// The list at a place.
    pub fn list_at(&self, i: usize) -> (r: &Vec<T>)
        requires
            i < self@.names.len(),
        ensures
            r@ == self@.lists[i as int],
            r@ == self@.list(self@.names[i as int]),
            self@.well_formed(),
    {
        proof {
            use_type_invariant(self);
            lemma_place(self@, i as int);
        }
        &self.lists[i]
    }

    /// The first place whose name does not come before `name`.
    fn place_for(&self, name: &str) -> (r: usize)
        ensures
            r <= self@.names.len(),
            forall|j: int| 0 <= j < r ==> before(#[trigger] self@.names[j], name@),
            r < self@.names.len() ==> !before(self@.names[r as int], name@),
    {
        let mut i: usize = 0;
        while i < self.names.len() && comes_before(self.names[i].as_str(), name)
            invariant
                i <= self.names@.len(),
                self@.names.len() == self.names@.len(),
                forall|j: int| 0 <= j < i ==> before(#[trigger] self@.names[j], name@),
            decreases self.names@.len() - i,
        {
            assert(self@.names[i as int] == self.names@[i as int]@);
            i = i + 1;
        }
        if i < self.names.len() {
            assert(self@.names[i as int] == self.names@[i as int]@);
        }
        i
    }

    /// The list under a name.
    pub fn get(&self, name: &str) -> (r: Option<&Vec<T>>)
        ensures
            match r {
                Some(list) => self@.has(name@) && list@ == self@.list(name@),
                None => !self@.has(name@),
            },
    {
        proof {
            use_type_invariant(self);
        }
        let i: usize = self.place_for(name);
        if i < self.names.len() && !comes_before(name, self.names[i].as_str()) {
            proof {
                assert(self@.names[i as int] == self.names@[i as int]@);
                lemma_trichotomy(self@.names[i as int], name@);
                lemma_place(self@, i as int);
            }
            return Some(&self.lists[i]);
        }
        proof {
            if self@.has(name@) {
                let k = self@.place(name@);
                lemma_trichotomy(self@.names[k], name@);
                assert(k >= i);
                if k > i {
                    assert(before(self@.names[i as int], self@.names[k]));
                } else {
                    assert(self@.names[i as int] == self.names@[i as int]@);
                }
            }
        }
        None
    }

    /// Append a value to the list under a name, which is new where it has none.
    pub fn push(&mut self, name: &str, value: T)
        ensures
            final(self)@.well_formed(),
            forall|k: Seq<char>|
                #[trigger] final(self)@.has(k) == (old(self)@.has(k) || k == name@),
            final(self)@.list(name@) == old(self)@.list(name@).push(value),
            forall|k: Seq<char>|
                k != name@ ==> #[trigger] final(self)@.list(k) == old(self)@.list(k),
    {
        proof {
            use_type_invariant(&*self);
        }
        let ghost t = self@;
        let i: usize = self.place_for(name);
        let known = i < self.names.len() && !comes_before(name, self.names[i].as_str());
        proof {
            if i < t.names.len() {
                assert(t.names[i as int] == self.names@[i as int]@);
                lemma_trichotomy(t.names[i as int], name@);
            }
        }
        let mut taken: Named<T> = Named { names: Vec::new(), lists: Vec::new() };
        core::mem::swap(self, &mut taken);
        let Named { names, lists } = taken;
        let mut lists = lists;
        if known {
            proof {
                lemma_appended(t, i as int, value);
            }
            let mut list = lists.remove(i);
            list.push(value);
            lists.insert(i, list);
            assert(table_of(names@, lists@).names =~= appended(t, i as int, value).names);
            assert(table_of(names@, lists@).lists =~= appended(t, i as int, value).lists);
            *self = Named { names, lists };
        } else {
            let mut names = names;
            proof {
                lemma_inserted(t, i as int, name@, value);
            }
            let mut list: Vec<T> = Vec::new();
            list.push(value);
            let ghost one = list@;
            assert(one =~= seq![value]);
            names.insert(i, name.to_owned());
            lists.insert(i, list);
            assert(table_of(names@, lists@).names =~= inserted(t, i as int, name@, value).names);
            assert(table_of(names@, lists@).lists =~= inserted(t, i as int, name@, value).lists);
            *self = Named { names, lists };
            assert(t.list(name@).push(value) =~= seq![value]);
        }
    }
}

impl<T: Value> Named<T> {
    /// The same names with lists of equal values?
    pub fn equals(&self, other: &Self) -> (r: bool)
        ensures
            r == self@.same(other@),
    {
        let (a, b) = (&self.names, &other.names);
        let (x, y) = (&self.lists, &other.lists);
        let r = a.equals(b) && x.equals(y);
        proof {
            let (t, u) = (self@, other@);
            if a.equal(*b) {
                assert forall|i: int| 0 <= i < t.names.len() implies t.names[i] == u.names[i] by {
                    assert(a@[i].equal(b@[i]));
                }
                assert(t.names =~= u.names);
            }
            if t.names == u.names {
                assert(a@.len() == t.names.len() && b@.len() == u.names.len());
                assert forall|i: int| 0 <= i < a@.len() implies (#[trigger] a@[i]).equal(b@[i]) by {
                    assert(t.names[i] == a@[i]@ && u.names[i] == b@[i]@);
                }
            }
            if x.equal(*y) {
                assert forall|i: int| #![trigger t.lists[i]] 0 <= i < t.lists.len() implies {
                    &&& t.lists[i].len() == u.lists[i].len()
                    &&& forall|j: int|
                        0 <= j < t.lists[i].len() ==> (#[trigger] t.lists[i][j]).equal(
                            u.lists[i][j],
                        )
                } by {
                    assert(x@[i].equal(y@[i]));
                    assert(t.lists[i] == x@[i]@ && u.lists[i] == y@[i]@);
                }
            }
            if t.same(u) {
                assert forall|i: int| 0 <= i < x@.len() implies (#[trigger] x@[i]).equal(y@[i]) by {
                    assert(t.lists[i] == x@[i]@ && u.lists[i] == y@[i]@);
                    assert forall|j: int| 0 <= j < x@[i]@.len() implies (
                    #[trigger] x@[i]@[j]).equal(y@[i]@[j]) by {
                        assert(t.lists[i][j].equal(u.lists[i][j]));
                    }
                }
            }
        }
        r
    }
}

impl<T: Value> PartialEq for Named<T> {
    fn eq(&self, other: &Self) -> (r: bool) {
        self.equals(other)
    }
}

impl<T: Value> vstd::std_specs::cmp::PartialEqSpecImpl for Named<T> {
    open spec fn obeys_eq_spec() -> bool {
        true
    }

    open spec fn eq_spec(&self, other: &Self) -> bool {
        self@.same(other@)
    }
}

impl Eq for Named<usize> {

}

impl<T: Copy> Clone for Named<T> {
    fn clone(&self) -> (r: Self)
        ensures
            r@ == self@,
    {
        proof {
            use_type_invariant(self);
        }
        let mut names: Vec<String> = Vec::new();
        let mut lists: Vec<Vec<T>> = Vec::new();
        let n: usize = self.names.len();
        for i in 0..n
            invariant
                n == self.names@.len(),
                n == self.lists@.len(),
                names@.len() == i,
                lists@.len() == i,
                forall|k: int| 0 <= k < i ==> (#[trigger] names@[k])@ == self.names@[k]@,
                forall|k: int| 0 <= k < i ==> (#[trigger] lists@[k])@ == self.lists@[k]@,
        {
            names.push(self.names[i].clone());
            let list = &self.lists[i];
            let mut copy: Vec<T> = Vec::new();
            for j in 0..list.len()
                invariant
                    copy@ == list@.take(j as int),
            {
                copy.push(list[j]);
                assert(copy@ =~= list@.take(j + 1));
            }
            assert(copy@ =~= list@);
            lists.push(copy);
        }
        proof {
            let a = table_of(names@, lists@);
            let b = table_of(self.names@, self.lists@);
            assert(a.names =~= b.names);
            assert(a.lists =~= b.lists);
        }
        Named { names, lists }
    }
}

/// Where two names part, the lower character comes first, and a name comes before every
/// longer one that begins with it.
proof fn lemma_before(a: Seq<char>, b: Seq<char>)
    ensures
        before(a, b) <==> exists|k: int|
            0 <= k <= a.len() && k < b.len() && a.take(k) == #[trigger] b.take(k) && (k == a.len()
                || a[k] < b[k]),
    decreases b.len(),
{
    if before(a, b) {
        if a.len() == 0 {
            assert(a.take(0) =~= b.take(0));
        } else if a[0] < b[0] {
            assert(a.take(0) =~= b.take(0));
        } else {
            let (x, y) = (a.drop_first(), b.drop_first());
            lemma_before(x, y);
            let k = choose|k: int|
                0 <= k <= x.len() && k < y.len() && x.take(k) == #[trigger] y.take(k) && (k
                    == x.len() || x[k] < y[k]);
            assert(a.take(k + 1) =~= seq![a[0]] + x.take(k));
            assert(b.take(k + 1) =~= seq![b[0]] + y.take(k));
            assert(a.take(k + 1) == b.take(k + 1));
        }
    }
    if exists|k: int|
        0 <= k <= a.len() && k < b.len() && a.take(k) == #[trigger] b.take(k) && (k == a.len()
            || a[k] < b[k]) {
        let k = choose|k: int|
            0 <= k <= a.len() && k < b.len() && a.take(k) == #[trigger] b.take(k) && (k == a.len()
                || a[k] < b[k]);
        if k > 0 {
            let (x, y) = (a.drop_first(), b.drop_first());
            assert(a[0] == a.take(k)[0] && b[0] == b.take(k)[0]);
            assert(x.take(k - 1) =~= a.take(k).drop_first());
            assert(y.take(k - 1) =~= b.take(k).drop_first());
            assert(x.take(k - 1) == y.take(k - 1));
            lemma_before(x, y);
        }
    }
}

/// Names are ordered as in a dictionary: where two of them part, the lower character
/// comes first, and a name comes before every longer one that begins with it. Of two
/// different names exactly one comes before the other.
pub proof fn names_are_ordered_as_in_a_dictionary(a: &str, b: &str, r: bool, s: bool)
    requires
        call_ensures(comes_before, (a, b), r),
        call_ensures(comes_before, (b, a), s),
    ensures
        r <==> exists|k: int|
            0 <= k <= a@.len() && k < b@.len() && a@.take(k) == #[trigger] b@.take(k) && (k
                == a@.len() || a@[k] < b@[k]),
        a@ == b@ ==> !r && !s,
        a@ != b@ ==> (r <==> !s),
{
    lemma_before(a@, b@);
    lemma_trichotomy(a@, b@);
}

/// What was put under a name is found under it: behind what was there before, and alone
/// where nothing was; what stands under any other name stays as it is.
pub proof fn lookups_find_what_was_put<T>(
    n: &mut Named<T>,
    name: &str,
    value: T,
    key: &str,
    found: Option<&Vec<T>>,
    found_after: Option<&Vec<T>>,
)
    requires
        call_ensures(Named::<T>::push, (n, name, value), ()),
        call_ensures(Named::<T>::get, (&*old(n), key), found),
        call_ensures(Named::<T>::get, (&*final(n), key), found_after),
    ensures
        key@ == name@ ==> found_after is Some,
        key@ == name@ && found is Some ==> found_after->0@ == found->0@.push(value),
        key@ == name@ && found is None ==> found_after->0@ == seq![value],
        key@ != name@ ==> (found is Some <==> found_after is Some),
        key@ != name@ && found is Some ==> found_after->0@ == found->0@,
{
    if found is None {
        assert(Seq::<T>::empty().push(value) =~= seq![value]);
    }
}

/// A new list holds nothing, and what stands at an index is what is found under its name;
/// the names are in order and none occurs twice.
pub proof fn indices_and_names_agree<T>(
    n: &Named<T>,
    i: usize,
    name: &String,
    at: &Vec<T>,
    key: &str,
    found: Option<&Vec<T>>,
    empty: Named<T>,
    nothing: Option<&Vec<T>>,
)
    requires
        i < n@.names.len(),
        call_ensures(Named::<T>::name, (n, i), name),
        call_ensures(Named::<T>::list_at, (n, i), at),
        key@ == name@,
        call_ensures(Named::<T>::get, (n, key), found),
        call_ensures(Named::<T>::new, (), empty),
        call_ensures(Named::<T>::get, (&empty, key), nothing),
    ensures
        found is Some,
        found->0@ == at@,
        nothing is None,
        forall|j: int, k: int|
            0 <= j < k < n@.names.len() ==> #[trigger] n@.names[j] != #[trigger] n@.names[k],
{
    assert forall|j: int, k: int| 0 <= j < k < n@.names.len() implies #[trigger] n@.names[j]
        != #[trigger] n@.names[k] by {
        lemma_trichotomy(n@.names[j], n@.names[k]);
    }
}

} // verus!
