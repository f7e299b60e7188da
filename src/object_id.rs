//! Object identity: an arena owns the shapes of a scene and hands each one an
//! identifier at insertion time, its position in the arena.
use vstd::prelude::*;

verus! {

/// The identity of an object held by an `Arena`.
///
/// Two objects with equal attributes are still different objects; identity is
/// compared through this value, never through the attributes.
#[derive(Clone, Copy, Debug, PartialEq, Eq, Structural)]
pub struct ObjectID {
    id: usize,
}

impl View for ObjectID {
    type V = nat;

    closed spec fn view(&self) -> nat {
        self.id as nat
    }
}

impl ObjectID {
    /// The object's numeric identifier.
    pub fn id(&self) -> (r: usize)
        ensures
            r == self@,
    {
        self.id
    }
}

/// Owns a sequence of objects; the object at position `i` has identifier `i`.
#[derive(Debug)]
pub struct Arena<T> {
    items: Vec<T>,
}

impl<T> View for Arena<T> {
    type V = Seq<T>;

    closed spec fn view(&self) -> Seq<T> {
        self.items@
    }
}

/// The identifier that the next object inserted into `arena` receives.
pub fn next_object_id<T>(arena: &Arena<T>) -> (r: usize)
    ensures
        r == arena@.len(),
{
    arena.items.len()
}

impl<T> Arena<T> {
    /// An arena holding no object.
    pub fn new() -> (r: Arena<T>)
        ensures
            r@ == Seq::<T>::empty(),
    {
        Arena { items: Vec::new() }
    }

    /// The number of objects held.
    pub fn len(&self) -> (r: usize)
        ensures
            r == self@.len(),
    {
        self.items.len()
    }

    /// Takes ownership of `item` and returns the identity it was given.
    pub fn insert(&mut self, item: T) -> (r: ObjectID)
        ensures
            r@ == old(self)@.len(),
            final(self)@ == old(self)@.push(item),
    {
        let id = next_object_id(self);
        self.items.push(item);
        ObjectID { id }
    }

    /// The object with identity `id`, if this arena holds one.
    pub fn get(&self, id: ObjectID) -> (r: Option<&T>)
        ensures
            r == (if id@ < self@.len() {
                Some(&self@[id@ as int])
            } else {
                None
            }),
    {
        if id.id < self.items.len() {
            Some(&self.items[id.id])
        } else {
            None
        }
    }

    /// The identities of all objects held, in order of insertion.
    pub fn ids(&self) -> (r: Vec<ObjectID>)
        ensures
            r@.len() == self@.len(),
            forall|i: int| 0 <= i < r@.len() ==> #[trigger] r@[i]@ == i,
    {
        let mut r: Vec<ObjectID> = Vec::new();
        let n = self.items.len();
        let mut i: usize = 0;
        while i < n
            invariant
                i <= n,
                n == self@.len(),
                r@.len() == i,
                forall|j: int| 0 <= j < r@.len() ==> #[trigger] r@[j]@ == j,
            decreases n - i,
        {
            r.push(ObjectID { id: i });
            i = i + 1;
        }
        r
    }
}

} // verus!
