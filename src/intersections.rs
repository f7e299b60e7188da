//! Ray/object intersections and the ordered collections that hold them.
use crate::object_id::ObjectID;
use crate::time::Time;
use vstd::multiset::Multiset;
use vstd::prelude::*;

verus! {

broadcast use vstd::seq_lib::group_to_multiset_ensures;

/// A hit of a ray on an object: the ray parameter and the object hit.
#[derive(Clone, Copy, Debug, PartialEq, Eq, Structural)]
pub struct Intersection {
    pub t: Time,
    pub object: ObjectID,
}

impl Intersection {
    pub open spec fn key(self) -> int {
        self.t.key()
    }

    pub open spec fn is_nan(self) -> bool {
        self.t.is_nan_spec()
    }

    pub fn new(t: Time, object: ObjectID) -> (r: Intersection)
        ensures
            r.t == t,
            r.object == object,
    {
        Intersection { t, object }
    }

    /// The ray parameter at which the hit occurred.
    pub fn t(&self) -> (r: Time)
        ensures
            r == self.t,
    {
        self.t
    }

    /// The object that was hit.
    pub fn object(&self) -> (r: ObjectID)
        ensures
            r == self.object,
    {
        self.object
    }
}

/// Non-decreasing by ray parameter.
pub open spec fn is_sorted(s: Seq<Intersection>) -> bool {
    forall|i: int, j: int| 0 <= i <= j < s.len() ==> s[i].key() <= s[j].key()
}

/// No ray parameter is a NaN.
pub open spec fn has_no_nan(s: Seq<Intersection>) -> bool {
    forall|i: int| 0 <= i < s.len() ==> !(#[trigger] s[i]).is_nan()
}

/// The position at which a hit with key `k` is inserted: after every element
/// whose key is not larger than `k`.
pub open spec fn upper_bound(s: Seq<Intersection>, k: int) -> int
    decreases s.len(),
{
    if s.len() == 0 {
        0
    } else if s.last().key() <= k {
        s.len() as int
    } else {
        upper_bound(s.drop_last(), k)
    }
}

/// `s` with `x` inserted in order, after the elements that tie with it.
pub open spec fn insert_sorted(s: Seq<Intersection>, x: Intersection) -> Seq<Intersection> {
    s.insert(upper_bound(s, x.key()), x)
}

/// `s` with every element of `xs` that is not a NaN inserted in order, one
/// after another.
pub open spec fn insert_all(s: Seq<Intersection>, xs: Seq<Intersection>) -> Seq<Intersection>
    decreases xs.len(),
{
    if xs.len() == 0 {
        s
    } else {
        let prev = insert_all(s, xs.drop_last());
        if xs.last().is_nan() {
            prev
        } else {
            insert_sorted(prev, xs.last())
        }
    }
}

/// The hits of `xs` ordered by ray parameter; hits that tie keep their order
/// in `xs`, and NaN parameters are no hits.
pub open spec fn sorted_by_time(xs: Seq<Intersection>) -> Seq<Intersection> {
    insert_all(Seq::empty(), xs)
}

/// The per-object hit lists merged one after another into one ordered list.
pub open spec fn gathered(lists: Seq<Seq<Intersection>>) -> Seq<Intersection>
    decreases lists.len(),
{
    if lists.len() == 0 {
        Seq::empty()
    } else {
        insert_all(gathered(lists.drop_last()), lists.last())
    }
}

/// Every hit of every list, with its multiplicity.
pub open spec fn all_hits(lists: Seq<Seq<Intersection>>) -> Multiset<Intersection>
    decreases lists.len(),
{
    if lists.len() == 0 {
        Multiset::empty()
    } else {
        all_hits(lists.drop_last()).add(lists.last().to_multiset())
    }
}

/// `i` is the first position whose ray parameter is not negative.
pub open spec fn is_first_hit(s: Seq<Intersection>, i: int) -> bool {
    &&& 0 <= i < s.len()
    &&& s[i].key() >= 0
    &&& forall|j: int| 0 <= j < i ==> s[j].key() < 0
}

/// Some ray parameter in `s` is not negative.
pub open spec fn has_hit(s: Seq<Intersection>) -> bool {
    exists|i: int| 0 <= i < s.len() && s[i].key() >= 0
}

/// `p` splits `s` into the elements with key at most `k` and those above it.
pub open spec fn splits_at(s: Seq<Intersection>, k: int, p: int) -> bool {
    &&& 0 <= p <= s.len()
    &&& forall|i: int| 0 <= i < p ==> s[i].key() <= k
    &&& forall|i: int| p <= i < s.len() ==> s[i].key() > k
}

proof fn lemma_split_is_upper_bound(s: Seq<Intersection>, k: int, p: int)
    requires
        splits_at(s, k, p),
    ensures
        p == upper_bound(s, k),
    decreases s.len(),
{
    if s.len() > 0 {
        let last = s.len() - 1;
        if s.last().key() <= k {
            if p <= last {
                assert(s[last].key() > k);
            }
        } else {
            if p == s.len() {
                assert(s[last].key() <= k);
            }
            assert(splits_at(s.drop_last(), k, p));
            lemma_split_is_upper_bound(s.drop_last(), k, p);
        }
    }
}

proof fn lemma_upper_bound_splits(s: Seq<Intersection>, k: int)
    requires
        is_sorted(s),
    ensures
        splits_at(s, k, upper_bound(s, k)),
    decreases s.len(),
{
    if s.len() > 0 {
        let last = s.len() - 1;
        if s.last().key() <= k {
            assert forall|i: int| 0 <= i < s.len() implies s[i].key() <= k by {
                assert(s[i].key() <= s[last].key());
            }
        } else {
            let d = s.drop_last();
            assert(is_sorted(d));
            lemma_upper_bound_splits(d, k);
            let p = upper_bound(d, k);
            assert forall|i: int| 0 <= i < p implies s[i].key() <= k by {
                assert(s[i] == d[i]);
            }
            assert forall|i: int| p <= i < s.len() implies s[i].key() > k by {
                if i < last {
                    assert(s[i] == d[i]);
                }
            }
        }
    }
}

proof fn lemma_insert_sorted(s: Seq<Intersection>, x: Intersection)
    requires
        is_sorted(s),
        has_no_nan(s),
        !x.is_nan(),
    ensures
        is_sorted(insert_sorted(s, x)),
        has_no_nan(insert_sorted(s, x)),
        insert_sorted(s, x).to_multiset() == s.to_multiset().insert(x),
{
    let p = upper_bound(s, x.key());
    lemma_upper_bound_splits(s, x.key());
    let r = s.insert(p, x);
    assert forall|i: int, j: int| 0 <= i <= j < r.len() implies r[i].key() <= r[j].key() by {
        if j < p {
            assert(r[i] == s[i] && r[j] == s[j]);
        } else if j == p {
            assert(r[j] == x);
            if i < p {
                assert(r[i] == s[i]);
            }
        } else {
            assert(r[j] == s[j - 1]);
            if i < p {
                assert(r[i] == s[i]);
            } else if i == p {
                assert(r[i] == x);
            } else {
                assert(r[i] == s[i - 1]);
            }
        }
    }
    assert forall|i: int| 0 <= i < r.len() implies !(#[trigger] r[i]).is_nan() by {
        if i < p {
            assert(r[i] == s[i]);
        } else if i > p {
            assert(r[i] == s[i - 1]);
        }
    }
    vstd::seq_lib::to_multiset_insert(s, p, x);
}

proof fn lemma_insert_all(s: Seq<Intersection>, xs: Seq<Intersection>)
    requires
        is_sorted(s),
        has_no_nan(s),
    ensures
        is_sorted(insert_all(s, xs)),
        has_no_nan(insert_all(s, xs)),
        forall|x: Intersection|
            #[trigger] insert_all(s, xs).to_multiset().count(x) == s.to_multiset().count(x) + (
            if x.is_nan() {
                0
            } else {
                xs.to_multiset().count(x)
            }),
    decreases xs.len(),
{
    if xs.len() == 0 {
        assert(xs.to_multiset() =~= Multiset::empty());
    } else {
        let d = xs.drop_last();
        let l = xs.last();
        lemma_insert_all(s, d);
        assert(xs == d.push(l));
        vstd::seq_lib::to_multiset_build(d, l);
        if !l.is_nan() {
            lemma_insert_sorted(insert_all(s, d), l);
        }
    }
}

/// Hits of one ray, ordered by ray parameter.
#[derive(Debug)]
pub struct Intersections {
    items: Vec<Intersection>,
}

impl View for Intersections {
    type V = Seq<Intersection>;

    closed spec fn view(&self) -> Seq<Intersection> {
        self.items@
    }
}

/// Inserts `x` after every element of `items` whose parameter is not larger.
fn insert_in_order(items: &mut Vec<Intersection>, x: Intersection)
    requires
        is_sorted(old(items)@),
        has_no_nan(old(items)@),
        !x.is_nan(),
    ensures
        final(items)@ == insert_sorted(old(items)@, x),
        is_sorted(final(items)@),
        has_no_nan(final(items)@),
{
    let ghost s = items@;
    let mut lo: usize = 0;
    let mut hi: usize = items.len();
    while lo < hi
        invariant
            items@ == s,
            is_sorted(s),
            0 <= lo <= hi <= s.len(),
            forall|i: int| 0 <= i < lo ==> s[i].key() <= x.key(),
            forall|i: int| hi <= i < s.len() ==> s[i].key() > x.key(),
        decreases hi - lo,
    {
        let mid = lo + (hi - lo) / 2;
        if items[mid].t.le(&x.t) {
            assert forall|i: int| 0 <= i < mid + 1 implies s[i].key() <= x.key() by {
                assert(s[i].key() <= s[mid as int].key());
            }
            lo = mid + 1;
        } else {
            assert forall|i: int| mid <= i < s.len() implies s[i].key() > x.key() by {
                assert(s[mid as int].key() <= s[i].key());
            }
            hi = mid;
        }
    }
    proof {
        lemma_split_is_upper_bound(s, x.key(), lo as int);
        lemma_insert_sorted(s, x);
    }
    items.insert(lo, x);
}

/// Inserts every hit of `xs` that is not a NaN into `items`, in turn.
fn insert_each(items: &mut Vec<Intersection>, xs: &Vec<Intersection>)
    requires
        is_sorted(old(items)@),
        has_no_nan(old(items)@),
    ensures
        final(items)@ == insert_all(old(items)@, xs@),
        is_sorted(final(items)@),
        has_no_nan(final(items)@),
{
    let ghost s = items@;
    let n = xs.len();
    let mut i: usize = 0;
    while i < n
        invariant
            n == xs@.len(),
            i <= n,
            is_sorted(s),
            has_no_nan(s),
            items@ == insert_all(s, xs@.take(i as int)),
        decreases n - i,
    {
        let x = xs[i];
        proof {
            assert(xs@.take(i + 1).drop_last() =~= xs@.take(i as int));
            lemma_insert_all(s, xs@.take(i as int));
        }
        if !x.t.is_nan() {
            insert_in_order(items, x);
        }
        i = i + 1;
    }
    proof {
        assert(xs@.take(n as int) =~= xs@);
        lemma_insert_all(s, xs@);
    }
}

impl Intersections {
    #[verifier::type_invariant]
    spec fn well_formed(self) -> bool {
        is_sorted(self.items@) && has_no_nan(self.items@)
    }

    /// Orders `intersections` by ray parameter. Hits that tie keep their
    /// order; a NaN parameter marks no hit and is left out.
    pub fn new(intersections: Vec<Intersection>) -> (r: Intersections)
        ensures
            r@ == sorted_by_time(intersections@),
            forall|x: Intersection|
                #[trigger] r@.to_multiset().count(x) == if x.is_nan() {
                    0
                } else {
                    intersections@.to_multiset().count(x)
                },
    {
        let mut items: Vec<Intersection> = Vec::new();
        insert_each(&mut items, &intersections);
        proof {
            lemma_insert_all(Seq::empty(), intersections@);
        }
        Intersections { items }
    }

    /// The collection with no hit.
    pub fn empty() -> (r: Intersections)
        ensures
            r@ == Seq::<Intersection>::empty(),
    {
        Intersections { items: Vec::new() }
    }

    /// Inserts every hit of `intersections` at its place in the order. Every
    /// hit is kept, also one whose parameter equals one already present.
    pub fn add_intersections(&mut self, intersections: Intersections)
        ensures
            final(self)@ == insert_all(old(self)@, intersections@),
            final(self)@.to_multiset() == old(self)@.to_multiset().add(
                intersections@.to_multiset(),
            ),
    {
        self.merge(&intersections);
    }

    fn merge(&mut self, other: &Intersections)
        ensures
            final(self)@ == insert_all(old(self)@, other@),
            final(self)@.to_multiset() == old(self)@.to_multiset().add(other@.to_multiset()),
    {
        proof {
            use_type_invariant(&*self);
            use_type_invariant(other);
            lemma_insert_all(self@, other@);
        }
        let mut items: Vec<Intersection> = Vec::new();
        std::mem::swap(&mut items, &mut self.items);
        insert_each(&mut items, &other.items);
        self.items = items;
        proof {
            assert forall|x: Intersection| #[trigger]
                self@.to_multiset().count(x) == old(self)@.to_multiset().add(
                    other@.to_multiset(),
                ).count(x) by {
                if x.is_nan() {
                    if other@.to_multiset().count(x) > 0 {
                        let i = choose|i: int| 0 <= i < other@.len() && other@[i] == x;
                        assert(!other@[i].is_nan());
                    }
                }
            }
            assert(self@.to_multiset() =~= old(self)@.to_multiset().add(other@.to_multiset()));
        }
    }

    /// The hit that is visible along the ray: the first one, in order, whose
    /// parameter is zero or positive. None when every parameter is negative.
    pub fn hit(&self) -> (r: Option<&Intersection>)
        ensures
            r is None <==> !has_hit(self@),
            r matches Some(h) ==> exists|i: int| is_first_hit(self@, i) && *h == self@[i],
            r matches Some(h) ==> h.key() >= 0 && forall|j: int|
                0 <= j < self@.len() && self@[j].key() >= 0 ==> h.key() <= #[trigger] self@[j].key(),
    {
        proof {
            use_type_invariant(self);
        }
        let n = self.items.len();
        let mut i: usize = 0;
        while i < n
            invariant
                n == self@.len(),
                i <= n,
                is_sorted(self@),
                forall|j: int| 0 <= j < i ==> self@[j].key() < 0,
            decreases n - i,
        {
            if self.items[i].t.is_non_negative() {
                assert(is_first_hit(self@, i as int));
                assert forall|j: int| 0 <= j < self@.len() && self@[j].key() >= 0 implies self@[i as int].key()
                    <= #[trigger] self@[j].key() by {
                    if j < i {
                        assert(self@[j].key() < 0);
                    }
                }
                return Some(&self.items[i]);
            }
            i = i + 1;
        }
        None
    }

    /// Whether the visible hit lies strictly before `limit` along the ray.
    pub fn hit_before(&self, limit: Time) -> (r: bool)
        ensures
            r == exists|i: int| is_first_hit(self@, i) && self@[i].key() < limit.key(),
    {
        match self.hit() {
            Some(h) => h.t.lt(&limit),
            None => false,
        }
    }

    /// The number of hits.
    pub fn len(&self) -> (r: usize)
        ensures
            r == self@.len(),
    {
        self.items.len()
    }

    pub fn is_empty(&self) -> (r: bool)
        ensures
            r == (self@.len() == 0),
    {
        self.items.len() == 0
    }

    /// The hit at position `index` in the order.
    pub fn index(&self, index: usize) -> (r: &Intersection)
        requires
            index < self@.len(),
        ensures
            *r == self@[index as int],
    {
        &self.items[index]
    }

    /// The hits of every object, merged one object after another.
    pub fn gather(per_object: Vec<Intersections>) -> (r: Intersections)
        ensures
            r@ == gathered(per_object@.map_values(|l: Intersections| l@)),
            r@.to_multiset() == all_hits(per_object@.map_values(|l: Intersections| l@)),
    {
        let ghost lists = per_object@.map_values(|l: Intersections| l@);
        let mut r = Intersections::empty();
        let n = per_object.len();
        let mut i: usize = 0;
        while i < n
            invariant
                n == per_object@.len(),
                i <= n,
                lists == per_object@.map_values(|l: Intersections| l@),
                r@ == gathered(lists.take(i as int)),
                r@.to_multiset() == all_hits(lists.take(i as int)),
            decreases n - i,
        {
            assert(lists.take(i + 1).drop_last() =~= lists.take(i as int));
            r.merge(&per_object[i]);
            i = i + 1;
        }
        assert(lists.take(n as int) =~= lists);
        r
    }
}

/// Every collection of intersections is ordered by ray parameter: sorting a
/// list, inserting a list into an ordered one, and gathering per-object lists
/// all give a non-decreasing sequence with no NaN parameter.
pub proof fn lemma_built_sorted(
    xs: Seq<Intersection>,
    s: Seq<Intersection>,
    lists: Seq<Seq<Intersection>>,
)
    requires
        is_sorted(s),
        has_no_nan(s),
    ensures
        is_sorted(sorted_by_time(xs)),
        has_no_nan(sorted_by_time(xs)),
        is_sorted(insert_all(s, xs)),
        has_no_nan(insert_all(s, xs)),
        is_sorted(gathered(lists)),
        has_no_nan(gathered(lists)),
{
    lemma_insert_all(Seq::empty(), xs);
    lemma_insert_all(s, xs);
    lemma_gathered_sorted(lists);
}

proof fn lemma_gathered_sorted(lists: Seq<Seq<Intersection>>)
    ensures
        is_sorted(gathered(lists)),
        has_no_nan(gathered(lists)),
    decreases lists.len(),
{
    if lists.len() > 0 {
        lemma_gathered_sorted(lists.drop_last());
        lemma_insert_all(gathered(lists.drop_last()), lists.last());
    }
}

/// Intersecting the same scene with the same ray twice gives the same ordered
/// sequence: what `Intersections::gather` returns is a function of the
/// per-object hit lists alone, ties between objects included.
pub proof fn lemma_gather_repeatable(
    per_object: Seq<Intersections>,
    first: Intersections,
    second: Intersections,
)
    requires
        first@ == gathered(per_object.map_values(|l: Intersections| l@)),
        second@ == gathered(per_object.map_values(|l: Intersections| l@)),
    ensures
        first@ == second@,
{
}

/// A scene without objects shows nothing along any ray: gathering no
/// per-object hit lists gives the empty sequence, which has no visible hit.
pub proof fn lemma_no_objects_no_hit(per_object: Seq<Seq<Intersection>>)
    requires
        per_object.len() == 0,
    ensures
        gathered(per_object) == Seq::<Intersection>::empty(),
        !has_hit(gathered(per_object)),
{
}

} // verus!
