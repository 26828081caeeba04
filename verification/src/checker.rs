//! A brute-force adjacency oracle: a flat list of positioned objects that
//! answers "who is within distance" by scanning everything. Slow on purpose —
//! it is the simple reference the spatial index is measured against.

use vstd::prelude::*;
use crate::spatial::cheb;
use crate::{concat_map, concat_map_prefix, find_first, lemma_find_first_spec};

verus! {

/// A positioned object with a payload big enough to make scans honest.
pub struct TestObject {
    pub pos: (i32, i32),
    pub dummy_data: [u8; 400],
}

impl TestObject {
    pub fn new(pos: (i32, i32)) -> (r: TestObject)
        ensures
            r.pos == pos,
    {
        TestObject { pos, dummy_data: [0; 400] }
    }
}

/// The entries keyed by an id.
pub open spec fn by_object_id(id: i32) -> spec_fn((i32, TestObject)) -> bool {
    |e: (i32, TestObject)| e.0 == id
}

/// What one entry contributes to an adjacency scan: its id when it lies
/// within the distance of the queried position.
pub open spec fn within_fn(pos: (i32, i32), d: i32) -> spec_fn((i32, TestObject)) -> Seq<i32> {
    |e: (i32, TestObject)| if cheb((e.1.pos.0 as int, e.1.pos.1 as int),
        (pos.0 as int, pos.1 as int)) <= d {
        seq![e.0]
    } else {
        Seq::empty()
    }
}

/// The brute-force checker: every object, checked against every query.
pub struct LazyChecker {
    distance: i32,
    objects: Vec<(i32, TestObject)>,
}

impl LazyChecker {
    pub closed spec fn objects(self) -> Seq<(i32, TestObject)> {
        self.objects@
    }

    pub closed spec fn spec_distance(self) -> i32 {
        self.distance
    }

    pub fn new(distance: i32) -> (r: Self)
        ensures
            r.spec_distance() == distance,
            r.objects() == Seq::<(i32, TestObject)>::empty(),
    {
        LazyChecker { distance, objects: Vec::new() }
    }

    pub fn insert(&mut self, id: i32, o: TestObject)
        ensures
            final(self).objects() == old(self).objects().push((id, o)),
            final(self).spec_distance() == old(self).spec_distance(),
    {
        self.objects.push((id, o));
    }

    /// The ids of every object within the configured Chebyshev distance of
    /// `pos`, in insertion order.
    pub fn get_adjacent(&self, pos: (i32, i32)) -> (r: Vec<i32>)
        ensures
            r@ == concat_map(self.objects(), within_fn(pos, self.spec_distance())),
    {
        let ghost f = within_fn(pos, self.distance);
        let mut out: Vec<i32> = Vec::new();
        let n = self.objects.len();
        let mut i: usize = 0;
        while i < n
            invariant
                n == self.objects@.len(),
                i <= n,
                f == within_fn(pos, self.spec_distance()),
                out@ == concat_map_prefix(self.objects@, f, i as nat),
            decreases n - i,
        {
            let entry = &self.objects[i];
            let d = crate::spatial::distance(entry.1.pos, pos);
            if d <= self.distance as i64 {
                out.push(entry.0);
                proof {
                    assert(f(self.objects@[i as int]) =~= seq![self.objects@[i as int].0]);
                    assert(out@ =~= concat_map_prefix(self.objects@, f, (i + 1) as nat));
                }
            } else {
                proof {
                    assert(f(self.objects@[i as int]) =~= Seq::<i32>::empty());
                    assert(out@ =~= concat_map_prefix(self.objects@, f, (i + 1) as nat));
                }
            }
            i = i + 1;
        }
        proof {
            assert(concat_map_prefix(self.objects@, f, n as nat)
                == concat_map(self.objects@, f));
        }
        out
    }

    /// The object stored under an id; the id must be present.
    pub fn get_object(&self, id: i32) -> (r: &TestObject)
        requires
            find_first(self.objects(), by_object_id(id)) is Some,
        ensures
            *r == self.objects()[find_first(self.objects(), by_object_id(id))->0].1,
    {
        let n = self.objects.len();
        let mut i: usize = 0;
        while i < n
            invariant
                n == self.objects@.len(),
                i <= n,
                forall|k: int| 0 <= k < i ==> (#[trigger] self.objects@[k]).0 != id,
            decreases n - i,
        {
            if self.objects[i].0 == id {
                proof {
                    lemma_find_first_spec(self.objects@, by_object_id(id));
                    match find_first(self.objects@, by_object_id(id)) {
                        Some(j) => {
                            assert(by_object_id(id)(self.objects@[j]));
                            assert(j == i) by {
                                if j < i {
                                    assert(self.objects@[j].0 != id);
                                }
                                if i < j {
                                    assert(!by_object_id(id)(self.objects@[i as int]));
                                }
                            }
                        },
                        None => {
                            assert(!by_object_id(id)(self.objects@[i as int]));
                        },
                    }
                }
                return &self.objects[i].1;
            }
            i = i + 1;
        }
        proof {
            lemma_find_first_spec(self.objects@, by_object_id(id));
            if let Some(j) = find_first(self.objects@, by_object_id(id)) {
                assert(by_object_id(id)(self.objects@[j]));
            }
        }
        vstd::pervasive::unreached()
    }

    /// Removes the object stored under an id; the id must be present.
    pub fn remove(&mut self, id: i32)
        requires
            find_first(old(self).objects(), by_object_id(id)) is Some,
        ensures
            final(self).objects() == old(self).objects().remove(
                find_first(old(self).objects(), by_object_id(id))->0),
            final(self).spec_distance() == old(self).spec_distance(),
    {
        let n = self.objects.len();
        let mut i: usize = 0;
        while i < n
            invariant
                n == self.objects@.len(),
                i <= n,
                forall|k: int| 0 <= k < i ==> (#[trigger] self.objects@[k]).0 != id,
                *self == *old(self),
            decreases n - i,
        {
            if self.objects[i].0 == id {
                proof {
                    lemma_find_first_spec(self.objects@, by_object_id(id));
                    match find_first(self.objects@, by_object_id(id)) {
                        Some(j) => {
                            assert(by_object_id(id)(self.objects@[j]));
                            assert(j == i) by {
                                if j < i {
                                    assert(self.objects@[j].0 != id);
                                }
                                if i < j {
                                    assert(!by_object_id(id)(self.objects@[i as int]));
                                }
                            }
                        },
                        None => {
                            assert(!by_object_id(id)(self.objects@[i as int]));
                        },
                    }
                }
                self.objects.remove(i);
                return;
            }
            i = i + 1;
        }
        proof {
            lemma_find_first_spec(self.objects@, by_object_id(id));
            if let Some(j) = find_first(self.objects@, by_object_id(id)) {
                assert(by_object_id(id)(self.objects@[j]));
            }
        }
    }
}

} // verus!
