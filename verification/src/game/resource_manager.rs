//! A cache of loaded resources (bitmaps, sounds), keyed by name: a
//! resource is loaded once and shared from then on.

use vstd::prelude::*;
use std::rc::Rc;
use std::marker::PhantomData;

verus! {

/// Something that can load a resource by name, given some context `U`
/// (the graphics core, the audio addon): the name to cache it under, and
/// the resource.
pub trait ResourceLoader<T, U>: Sized {
    fn load(dummy: Option<Self>, key: &str, user_data: &U) -> Option<(String, T)>;
}

/// `Rc::clone`: another pointer to the same allocation, so the same value.
#[verifier::external_body]
fn share<T>(r: &Rc<T>) -> (s: Rc<T>)
    ensures
        *s == **r,
{
    Rc::clone(r)
}

/// The value cached under `k` in `es`, the first entry with that key.
pub open spec fn find<T>(es: Seq<(Seq<char>, T)>, k: Seq<char>) -> Option<T>
    decreases es.len(),
{
    if es.len() == 0 {
        None
    } else if es[0].0 == k {
        Some(es[0].1)
    } else {
        find(es.drop_first(), k)
    }
}

proof fn lemma_find_at<T>(es: Seq<(Seq<char>, T)>, k: Seq<char>, i: int)
    requires
        0 <= i < es.len(),
        es[i].0 == k,
        forall|j: int| 0 <= j < i ==> es[j].0 != k,
    ensures
        find(es, k) == Some(es[i].1),
    decreases i,
{
    if i > 0 {
        lemma_find_at(es.drop_first(), k, i - 1);
    }
}

proof fn lemma_find_absent<T>(es: Seq<(Seq<char>, T)>, k: Seq<char>)
    requires
        forall|j: int| 0 <= j < es.len() ==> es[j].0 != k,
    ensures
        find(es, k) is None,
    decreases es.len(),
{
    if es.len() > 0 {
        lemma_find_absent(es.drop_first(), k);
    }
}

pub struct ResourceManager<T, L> {
    data: Vec<(String, Rc<T>)>,
    loader: PhantomData<L>,
}

impl<T, L> ResourceManager<T, L> {
    /// The cached entries, as (name, resource), in the order first cached.
    pub closed spec fn entries(&self) -> Seq<(Seq<char>, T)> {
        self.data@.map_values(|e: (String, Rc<T>)| (e.0@, *e.1))
    }

    /// The resource cached under `k`, if any.
    pub open spec fn cached(&self, k: Seq<char>) -> Option<T> {
        find(self.entries(), k)
    }

    pub fn new() -> (m: ResourceManager<T, L>)
        ensures
            forall|k: Seq<char>| #[trigger] m.cached(k) is None,
    {
        ResourceManager { data: Vec::new(), loader: PhantomData }
    }

    /// The resource cached under `key`, shared.
    pub fn lookup(&self, key: &str) -> (r: Option<Rc<T>>)
        ensures
            match r {
                Some(v) => self.cached(key@) == Some(*v),
                None => self.cached(key@) is None,
            },
    {
        let k = key.to_owned();
        let mut i: usize = 0;
        while i < self.data.len()
            invariant
                i <= self.data@.len(),
                k@ == key@,
                forall|j: int| 0 <= j < i ==> self.entries()[j].0 != key@,
            decreases self.data@.len() - i,
        {
            if self.data[i].0 == k {
                proof {
                    assert(self.entries()[i as int].0 == key@);
                    lemma_find_at(self.entries(), key@, i as int);
                }
                return Some(share(&self.data[i].1));
            }
            proof {
                assert(self.entries()[i as int].0 != key@);
            }
            i = i + 1;
        }
        proof {
            lemma_find_absent(self.entries(), key@);
        }
        None
    }

    /// Caches `value` under `key`, replacing what was cached under that
    /// name, and hands it back shared.
    pub fn store(&mut self, key: String, value: T) -> (r: Rc<T>)
        ensures
            *r == value,
            forall|k: Seq<char>|
                #[trigger] final(self).cached(k) == if k == key@ {
                    Some(value)
                } else {
                    old(self).cached(k)
                },
    {
        let ghost val = value;
        let v = Rc::new(value);
        let mut i: usize = 0;
        while i < self.data.len()
            invariant
                i <= self.data@.len(),
                *v == val,
                val == value,
                self.data@ == old(self).data@,
                forall|j: int| 0 <= j < i ==> self.entries()[j].0 != key@,
            decreases self.data@.len() - i,
        {
            if self.data[i].0 == key {
                let shared = share(&v);
                let ghost es = self.entries();
                self.data.set(i, (key, shared));
                assert(self.data@[i as int].1 == shared);
                proof {
                    let es2 = self.entries();
                    assert(es2 =~= es.update(i as int, (key@, val)));
                    assert forall|k: Seq<char>| #[trigger] find(es2, k) == if k == key@ {
                        Some(value)
                    } else {
                        find(es, k)
                    } by {
                        lemma_find_update(es, i as int, key@, value, k);
                    }
                }
                return v;
            }
            proof {
                assert(self.entries()[i as int].0 != key@);
            }
            i = i + 1;
        }
        let ghost es = self.entries();
        let shared = share(&v);
        self.data.push((key, shared));
        proof {
            let es2 = self.entries();
            assert(es2 =~= es.push((key@, value)));
            assert forall|k: Seq<char>| #[trigger] find(es2, k) == if k == key@ {
                Some(value)
            } else {
                find(es, k)
            } by {
                lemma_find_push(es, key@, value, k);
            }
        }
        v
    }
}

impl<T, L> ResourceManager<T, L> {
    /// The resource named `key`: the cached one if there is one; otherwise
    /// whatever the loader gives, which is then cached under the name the
    /// loader gives with it.
    pub fn load<U>(&mut self, key: &str, user_data: &U) -> (r: Option<Rc<T>>)
        where L: ResourceLoader<T, U>,
        ensures
            old(self).cached(key@) is Some ==> r is Some && *r.unwrap() == old(self).cached(key@).unwrap()
                && forall|k: Seq<char>| #[trigger] final(self).cached(k) == old(self).cached(k),
            old(self).cached(key@) is None ==> exists|out: Option<(String, T)>|
                #[trigger] call_ensures(L::load, (None::<L>, key, user_data), out) && match out {
                    None => r is None && forall|k: Seq<char>|
                        #[trigger] final(self).cached(k) == old(self).cached(k),
                    Some(kv) => r is Some && *r.unwrap() == kv.1 && forall|k: Seq<char>|
                        #[trigger] final(self).cached(k) == if k == kv.0@ {
                            Some(kv.1)
                        } else {
                            old(self).cached(k)
                        },
                },
    {
        match self.lookup(key) {
            Some(v) => Some(v),
            None => {
                let f = L::load;
                let out = f(None, key, user_data);
                let ghost out_copy = out;
                match out {
                    Some((k, v)) => {
                        let r = self.store(k, v);
                        assert(call_ensures(L::load, (None::<L>, key, user_data), out_copy));
                        Some(r)
                    },
                    None => None,
                }
            },
        }
    }
}

proof fn lemma_find_update<T>(es: Seq<(Seq<char>, T)>, i: int, key: Seq<char>, value: T, k: Seq<char>)
    requires
        0 <= i < es.len(),
        es[i].0 == key,
        forall|j: int| 0 <= j < i ==> es[j].0 != key,
    ensures
        find(es.update(i, (key, value)), k) == if k == key {
            Some(value)
        } else {
            find(es, k)
        },
    decreases i,
{
    if i == 0 {
        assert(es.update(i, (key, value)).drop_first() =~= es.drop_first());
    } else {
        assert(es.update(i, (key, value)).drop_first() =~= es.drop_first().update(i - 1, (key, value)));
        lemma_find_update(es.drop_first(), i - 1, key, value, k);
    }
}

proof fn lemma_find_push<T>(es: Seq<(Seq<char>, T)>, key: Seq<char>, value: T, k: Seq<char>)
    requires
        forall|j: int| 0 <= j < es.len() ==> es[j].0 != key,
    ensures
        find(es.push((key, value)), k) == if k == key {
            Some(value)
        } else {
            find(es, k)
        },
    decreases es.len(),
{
    if es.len() == 0 {
        assert(es.push((key, value)).drop_first() =~= Seq::<(Seq<char>, T)>::empty());
    } else {
        assert(es.push((key, value)).drop_first() =~= es.drop_first().push((key, value)));
        lemma_find_push(es.drop_first(), key, value, k);
    }
}

} // verus!
