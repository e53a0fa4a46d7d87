//! A table of objects keyed by identifier, shared by the in-memory holders
//! of desired and of actual state.
use vstd::prelude::*;
use crate::object::{
    has_id, is_listing, lemma_objects_map, objects_map, unique_ids, Object, ObjectID,
};

verus! {

/// `s` with the object at `i` replaced by one of the same identifier
/// describes the old state with that entry overwritten.
proof fn lemma_update(s: Seq<Object>, i: int, o: Object)
    requires
        unique_ids(s),
        0 <= i < s.len(),
        s[i].id == o.id,
    ensures
        unique_ids(s.update(i, o)),
        objects_map(s.update(i, o)) == objects_map(s).insert(o.id, o.value),
{
    let t = s.update(i, o);
    assert(unique_ids(t)) by {
        assert forall|a: int, b: int| 0 <= a < t.len() && 0 <= b < t.len() && a != b implies t[a].id
            != t[b].id by {
            assert(t[a].id == s[a].id && t[b].id == s[b].id);
        }
    }
    lemma_objects_map(s);
    lemma_objects_map(t);
    let m = objects_map(s).insert(o.id, o.value);
    assert forall|id: ObjectID| #[trigger] objects_map(t).contains_key(id) <==> m.contains_key(id) by {
        if has_id(s, id) {
            let j = choose|j: int| 0 <= j < s.len() && #[trigger] s[j].id == id;
            assert(t[j].id == id);
        }
        if has_id(t, id) {
            let j = choose|j: int| 0 <= j < t.len() && #[trigger] t[j].id == id;
            assert(s[j].id == id);
        }
    }
    assert forall|id: ObjectID| #[trigger] objects_map(t).contains_key(id) implies objects_map(t)[id]
        == m[id] by {
        let j = choose|j: int| 0 <= j < t.len() && #[trigger] t[j].id == id;
        assert(objects_map(t)[t[j].id] == t[j].value);
        if j != i {
            assert(objects_map(s)[s[j].id] == s[j].value);
        }
    }
    assert(objects_map(t) =~= m);
}

/// `s` without the object at `i` describes the old state without its entry.
proof fn lemma_remove(s: Seq<Object>, i: int)
    requires
        unique_ids(s),
        0 <= i < s.len(),
    ensures
        unique_ids(s.remove(i)),
        objects_map(s.remove(i)) == objects_map(s).remove(s[i].id),
{
    let t = s.remove(i);
    let gone = s[i].id;
    assert forall|a: int| 0 <= a < t.len() implies #[trigger] t[a] == s[if a < i { a } else { a + 1 }] by {}
    assert(unique_ids(t)) by {
        assert forall|a: int, b: int| 0 <= a < t.len() && 0 <= b < t.len() && a != b implies t[a].id
            != t[b].id by {
            assert(t[a] == s[if a < i { a } else { a + 1 }]);
            assert(t[b] == s[if b < i { b } else { b + 1 }]);
        }
    }
    lemma_objects_map(s);
    lemma_objects_map(t);
    let m = objects_map(s).remove(gone);
    assert forall|id: ObjectID| #[trigger] objects_map(t).contains_key(id) <==> m.contains_key(id) by {
        if has_id(s, id) && id != gone {
            let j = choose|j: int| 0 <= j < s.len() && #[trigger] s[j].id == id;
            let k = if j < i { j } else { j - 1 };
            assert(t[k] == s[j]);
            assert(t[k].id == id);
        }
        if has_id(t, id) {
            let j = choose|j: int| 0 <= j < t.len() && #[trigger] t[j].id == id;
            let k = if j < i { j } else { j + 1 };
            assert(t[j] == s[k]);
            assert(s[k].id == id);
        }
    }
    assert forall|id: ObjectID| #[trigger] objects_map(t).contains_key(id) implies objects_map(t)[id]
        == m[id] by {
        let j = choose|j: int| 0 <= j < t.len() && #[trigger] t[j].id == id;
        let k = if j < i { j } else { j + 1 };
        assert(t[j] == s[k]);
        assert(objects_map(t)[t[j].id] == t[j].value);
        assert(objects_map(s)[s[k].id] == s[k].value);
    }
    assert(objects_map(t) =~= m);
}

/// Objects held in insertion order, no identifier twice.
pub struct ObjectTable {
    objects: Vec<Object>,
}

impl View for ObjectTable {
    type V = Map<ObjectID, u64>;

    closed spec fn view(&self) -> Map<ObjectID, u64> {
        objects_map(self.objects@)
    }
}

impl ObjectTable {
    #[verifier::type_invariant]
    spec fn inv(&self) -> bool {
        unique_ids(self.objects@)
    }

    pub fn new() -> (r: ObjectTable)
        ensures
            r@ == Map::<ObjectID, u64>::empty(),
    {
        ObjectTable { objects: Vec::new() }
    }

    /// Position of the object with identifier `id`.
    fn position(&self, id: ObjectID) -> (r: Option<usize>)
        ensures
            match r {
                Some(i) => i < self.objects@.len() && self.objects@[i as int].id == id,
                None => !has_id(self.objects@, id),
            },
    {
        let mut i: usize = 0;
        while i < self.objects.len()
            invariant
                i <= self.objects@.len(),
                forall|j: int| 0 <= j < i ==> #[trigger] self.objects@[j].id != id,
            decreases self.objects@.len() - i,
        {
            if self.objects[i].id == id {
                return Some(i);
            }
            i = i + 1;
        }
        None
    }

    pub fn get(&self, id: ObjectID) -> (r: Option<Object>)
        ensures
            match r {
                Some(o) => self@.contains_key(id) && o.id == id && o.value == self@[id],
                None => !self@.contains_key(id),
            },
    {
        proof {
            use_type_invariant(self);
            lemma_objects_map(self.objects@);
        }
        match self.position(id) {
            Some(i) => Some(self.objects[i]),
            None => None,
        }
    }

    pub fn list(&self) -> (r: Vec<Object>)
        ensures
            is_listing(r@, self@),
    {
        proof {
            use_type_invariant(self);
        }
        self.objects.clone()
    }

    pub fn insert(&mut self, object: Object)
        ensures
            final(self)@ == old(self)@.insert(object.id, object.value),
    {
        proof {
            use_type_invariant(&*self);
        }
        let found = self.position(object.id);
        let mut objects: Vec<Object> = Vec::new();
        std::mem::swap(&mut objects, &mut self.objects);
        match found {
            Some(i) => {
                proof {
                    lemma_update(objects@, i as int, object);
                }
                objects.set(i, object);
            },
            None => {
                proof {
                    assert forall|a: int, b: int|
                        0 <= a < objects@.len() + 1 && 0 <= b < objects@.len() + 1 && a != b implies
                        #[trigger] objects@.push(object)[a].id != #[trigger] objects@.push(object)[b].id by {
                        if a == objects@.len() {
                            assert(objects@[b].id != object.id);
                        }
                        if b == objects@.len() {
                            assert(objects@[a].id != object.id);
                        }
                    }
                    assert(objects@.push(object).drop_last() == objects@);
                }
                objects.push(object);
            },
        }
        self.objects = objects;
    }

    pub fn set_value(&mut self, id: ObjectID, value: u64)
        ensures
            final(self)@ == if old(self)@.contains_key(id) {
                old(self)@.insert(id, value)
            } else {
                old(self)@
            },
    {
        proof {
            use_type_invariant(&*self);
            lemma_objects_map(self.objects@);
        }
        match self.position(id) {
            Some(i) => {
                let mut objects: Vec<Object> = Vec::new();
                std::mem::swap(&mut objects, &mut self.objects);
                let object = Object { id, value };
                proof {
                    lemma_update(objects@, i as int, object);
                }
                objects.set(i, object);
                self.objects = objects;
            },
            None => {},
        }
    }

    pub fn remove(&mut self, id: ObjectID)
        ensures
            final(self)@ == old(self)@.remove(id),
    {
        proof {
            use_type_invariant(&*self);
            lemma_objects_map(self.objects@);
        }
        match self.position(id) {
            Some(i) => {
                let mut objects: Vec<Object> = Vec::new();
                std::mem::swap(&mut objects, &mut self.objects);
                proof {
                    lemma_remove(objects@, i as int);
                }
                objects.remove(i);
                self.objects = objects;
            },
            None => {
                proof {
                    assert(self@ =~= self@.remove(id));
                }
            },
        }
    }
}

} // verus!
