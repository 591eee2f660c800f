//! The library's header map: an ordered multimap from lower-case ASCII
//! header names to byte-string values.
//!
//! HTTP header names are case-insensitive, so the map stores every name
//! lower-cased and looks names up by their lower-case form. Values are
//! arbitrary byte strings; what a value may hold is checked where a response
//! header is accepted from the host runtime.

use vstd::prelude::*;

use crate::ascii::{lower_bytes, spec_lower};

verus! {

/// The mathematical content of a header map: name/value pairs in order.
pub type HeadersView = Seq<(Seq<u8>, Seq<u8>)>;

/// An ordered multimap of HTTP headers. Names are stored lower-cased.
#[derive(Debug)]
pub struct Headers {
    entries: Vec<(Vec<u8>, Vec<u8>)>,
}

impl View for Headers {
    type V = HeadersView;

    closed spec fn view(&self) -> HeadersView {
        Seq::new(self.entries@.len(), |i: int| (self.entries@[i].0@, self.entries@[i].1@))
    }
}

/// All names of `h` are lower-case ASCII.
pub open spec fn names_lower(h: HeadersView) -> bool {
    forall|i: int| 0 <= i < h.len() ==> #[trigger] h[i].0 == spec_lower(h[i].0)
}

/// The position of the first entry of `h` named `name`, or `-1` if there is
/// none.
pub open spec fn spec_find(h: HeadersView, name: Seq<u8>) -> int
    decreases h.len(),
{
    if h.len() == 0 {
        -1
    } else if h[0].0 == name {
        0
    } else {
        let r = spec_find(h.drop_first(), name);
        if r < 0 {
            -1
        } else {
            r + 1
        }
    }
}

/// `h` has an entry named `name`.
pub open spec fn spec_has(h: HeadersView, name: Seq<u8>) -> bool {
    spec_find(h, name) >= 0
}

/// The value of the first entry of `h` named `name`.
pub open spec fn spec_get(h: HeadersView, name: Seq<u8>) -> Option<Seq<u8>> {
    if spec_has(h, name) {
        Some(h[spec_find(h, name)].1)
    } else {
        None
    }
}

/// `h` without its entries named `name`.
pub open spec fn spec_remove(h: HeadersView, name: Seq<u8>) -> HeadersView
    decreases h.len(),
{
    if h.len() == 0 {
        h
    } else if h[0].0 == name {
        spec_remove(h.drop_first(), name)
    } else {
        seq![h[0]] + spec_remove(h.drop_first(), name)
    }
}

/// The values of all entries of `h` named `name`, in order.
pub open spec fn spec_values(h: HeadersView, name: Seq<u8>) -> Seq<Seq<u8>>
    decreases h.len(),
{
    if h.len() == 0 {
        Seq::empty()
    } else if h[0].0 == name {
        seq![h[0].1] + spec_values(h.drop_first(), name)
    } else {
        spec_values(h.drop_first(), name)
    }
}

/// `spec_find` lands on an entry named `name`, the first one.
pub proof fn lemma_find_first(h: HeadersView, name: Seq<u8>)
    ensures
        spec_has(h, name) ==> {
            &&& 0 <= spec_find(h, name) < h.len()
            &&& h[spec_find(h, name)].0 == name
            &&& forall|j: int| 0 <= j < spec_find(h, name) ==> h[j].0 != name
        },
        !spec_has(h, name) ==> forall|j: int| 0 <= j < h.len() ==> h[j].0 != name,
    decreases h.len(),
{
    if h.len() > 0 && h[0].0 != name {
        lemma_find_first(h.drop_first(), name);
        let r = spec_find(h.drop_first(), name);
        if r >= 0 {
            assert(spec_find(h, name) == r + 1);
            assert(h[r + 1] == h.drop_first()[r]);
            assert forall|j: int| 0 <= j < r + 1 implies h[j].0 != name by {
                if j > 0 {
                    assert(h.drop_first()[j - 1] == h[j]);
                }
            }
        } else {
            assert forall|j: int| 0 <= j < h.len() implies h[j].0 != name by {
                if j > 0 {
                    assert(h.drop_first()[j - 1] == h[j]);
                }
            }
        }
    }
}

impl Headers {
    /// Every stored name is lower-case ASCII.
    pub open spec fn wf(&self) -> bool {
        names_lower(self@)
    }

    /// An empty header map.
    pub fn new() -> (r: Headers)
        ensures
            r@ =~= Seq::<(Seq<u8>, Seq<u8>)>::empty(),
            r.wf(),
    {
        let r = Headers { entries: Vec::new() };
        proof {
            assert(r@ =~= Seq::<(Seq<u8>, Seq<u8>)>::empty());
        }
        r
    }

    /// How many entries the map holds.
    pub fn len(&self) -> (r: usize)
        ensures
            r == self@.len(),
    {
        self.entries.len()
    }

    /// The entry at position `i`, as borrowed byte strings.
    pub fn entry_at(&self, i: usize) -> (r: (&Vec<u8>, &Vec<u8>))
        requires
            i < self@.len(),
        ensures
            r.0@ == self@[i as int].0,
            r.1@ == self@[i as int].1,
    {
        let e = &self.entries[i];
        (&e.0, &e.1)
    }

    /// The position of the first entry named `name`, if any. `name` must be
    /// given lower-cased, as `spec_find` compares names exactly.
    pub fn find(&self, name: &[u8]) -> (r: Option<usize>)
        ensures
            match r {
                Some(i) => spec_find(self@, name@) == i as int && i < self@.len(),
                None => spec_find(self@, name@) == -1,
            },
    {
        let ghost h = self@;
        proof {
            assert(h.skip(0) =~= h);
        }
        let mut i: usize = 0;
        while i < self.entries.len()
            invariant
                i <= h.len(),
                h.len() == self.entries@.len(),
                h == self@,
                forall|j: int| 0 <= j < i ==> h[j].0 != name@,
                spec_find(h, name@) == if spec_find(h.skip(i as int), name@) < 0 {
                    -1int
                } else {
                    spec_find(h.skip(i as int), name@) + i
                },
            decreases h.len() - i,
        {
            let ghost pre = h.skip(i as int);
            proof {
                assert(pre.drop_first() =~= h.skip(i as int + 1));
                assert(pre[0] == h[i as int]);
            }
            if crate::ascii::bytes_eq(self.entries[i].0.as_slice(), name) {
                proof {
                    assert(spec_find(pre, name@) == 0);
                }
                return Some(i);
            }
            i = i + 1;
        }
        proof {
            assert(h.skip(h.len() as int) =~= Seq::<(Seq<u8>, Seq<u8>)>::empty());
        }
        None
    }

    /// Does the map hold an entry named `name` (given lower-cased)?
    pub fn contains_name(&self, name: &[u8]) -> (r: bool)
        ensures
            r == spec_has(self@, name@),
    {
        self.find(name).is_some()
    }

    /// The value of the first entry named `name` (given lower-cased).
    pub fn get(&self, name: &[u8]) -> (r: Option<&Vec<u8>>)
        ensures
            match r {
                Some(v) => spec_get(self@, name@) == Some(v@),
                None => spec_get(self@, name@) is None,
            },
    {
        match self.find(name) {
            Some(i) => Some(&self.entries[i].1),
            None => None,
        }
    }

    /// Add an entry at the end, keeping earlier entries of the same name.
    /// The name is stored lower-cased.
    pub fn append(&mut self, name: Vec<u8>, value: Vec<u8>)
        ensures
            final(self)@ =~= old(self)@.push((spec_lower(name@), value@)),
            old(self).wf() ==> final(self).wf(),
    {
        let lname = lower_bytes(name.as_slice());
        proof {
            assert(spec_lower(spec_lower(name@)) =~= spec_lower(name@));
        }
        self.entries.push((lname, value));
    }

    /// Replace the value of the entry at position `i`.
    pub fn set_value_at(&mut self, i: usize, value: Vec<u8>)
        requires
            i < old(self)@.len(),
        ensures
            final(self)@ =~= old(self)@.update(i as int, (old(self)@[i as int].0, value@)),
            old(self).wf() ==> final(self).wf(),
    {
        let name = crate::ascii::copy_bytes(self.entries[i].0.as_slice());
        self.entries.set(i, (name, value));
        proof {
            assert(self@ =~= old(self)@.update(i as int, (old(self)@[i as int].0, value@)));
            if old(self).wf() {
                assert forall|j: int| 0 <= j < self@.len() implies #[trigger] self@[j].0
                    == spec_lower(self@[j].0) by {
                    assert(self@[j].0 == old(self)@[j].0);
                }
            }
        }
    }

    /// Drop every entry named `name` (given lower-cased).
    pub fn remove(&mut self, name: &[u8])
        ensures
            final(self)@ =~= spec_remove(old(self)@, name@),
            old(self).wf() ==> final(self).wf(),
    {
        let ghost h = old(self)@;
        let mut out: Vec<(Vec<u8>, Vec<u8>)> = Vec::new();
        let ghost n = h.len() as int;
        proof {
            assert(h.skip(0) =~= h);
        }
        let mut i: usize = 0;
        while i < self.entries.len()
            invariant
                i <= n,
                n == self.entries@.len(),
                h == self@,
                spec_remove(h, name@) =~= Seq::new(out@.len(), |j: int| (out@[j].0@, out@[j].1@))
                    + spec_remove(h.skip(i as int), name@),
            decreases n - i,
        {
            let ghost pre = h.skip(i as int);
            proof {
                assert(pre.drop_first() =~= h.skip(i as int + 1));
                assert(pre[0] == h[i as int]);
            }
            let ghost oldout = out@;
            if crate::ascii::bytes_eq(self.entries[i].0.as_slice(), name) {
            } else {
                let kname = crate::ascii::copy_bytes(self.entries[i].0.as_slice());
                let kval = crate::ascii::copy_bytes(self.entries[i].1.as_slice());
                out.push((kname, kval));
                proof {
                    assert(Seq::new(out@.len(), |j: int| (out@[j].0@, out@[j].1@)) =~= Seq::new(
                        oldout.len(),
                        |j: int| (oldout[j].0@, oldout[j].1@),
                    ).push(pre[0]));
                    assert(Seq::new(oldout.len(), |j: int| (oldout[j].0@, oldout[j].1@)).push(
                        pre[0],
                    ) + spec_remove(h.skip(i as int + 1), name@) =~= Seq::new(
                        oldout.len(),
                        |j: int| (oldout[j].0@, oldout[j].1@),
                    ) + (seq![pre[0]] + spec_remove(pre.drop_first(), name@)));
                }
            }
            i = i + 1;
        }
        proof {
            assert(h.skip(h.len() as int) =~= Seq::<(Seq<u8>, Seq<u8>)>::empty());
        }
        self.entries = out;
        proof {
            assert(self@ =~= Seq::new(self.entries@.len(), |j: int| (
                self.entries@[j].0@,
                self.entries@[j].1@,
            )));
            assert(self@ =~= spec_remove(h, name@));
            if old(self).wf() {
                lemma_remove_spec(h, name@);
                assert forall|j: int| 0 <= j < self@.len() implies #[trigger] self@[j].0
                    == spec_lower(self@[j].0) by {
                    assert(h.contains(spec_remove(h, name@)[j]));
                    let k = choose|k: int| 0 <= k < h.len() && h[k] == self@[j];
                    assert(h[k].0 == spec_lower(h[k].0));
                }
            }
        }
    }
}

/// Removal keeps exactly the entries with other names, so a removed name is
/// gone and the others keep their order.
pub proof fn lemma_remove_spec(h: HeadersView, name: Seq<u8>)
    ensures
        !spec_has(spec_remove(h, name), name),
        forall|i: int|
            0 <= i < spec_remove(h, name).len() ==> #[trigger] spec_remove(h, name)[i].0 != name,
        spec_remove(h, name).len() <= h.len(),
        forall|i: int|
            0 <= i < spec_remove(h, name).len() ==> h.contains(#[trigger] spec_remove(h, name)[i]),
    decreases h.len(),
{
    if h.len() > 0 {
        lemma_remove_spec(h.drop_first(), name);
        let r = spec_remove(h, name);
        assert(forall|i: int| 0 <= i < h.drop_first().len() ==> h.contains(
            #[trigger] h.drop_first()[i],
        )) by {
            assert(forall|i: int| 0 <= i < h.drop_first().len() ==> h.drop_first()[i] == h[i + 1]);
        }
        if h[0].0 != name {
            assert(forall|i: int| 0 <= i < r.len() ==> #[trigger] r[i].0 != name) by {
                assert(r[0] == h[0]);
                assert(forall|i: int|
                    1 <= i < r.len() ==> r[i] == spec_remove(h.drop_first(), name)[i - 1]);
            }
            if spec_find(r, name) >= 0 {
                lemma_find_first(r, name);
            }
        }
    }
}

} // verus!
