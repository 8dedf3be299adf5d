//! The image store: an index of captured images.
//!
//! The store maps names to image bytes and is the single place the rig
//! publishes captured artifacts. Its view is a map from name to bytes;
//! `names_seq` additionally exposes the names in insertion order. The
//! on-disk blob mirror is kept outside the library by whoever drives it.

use vstd::prelude::*;

verus! {

/// Why a fetch fails: the name was never stored (or was wiped by a reset).
#[derive(Clone, Copy, Debug, PartialEq, Eq, Structural)]
pub enum StoreError {
    NotFound,
}

pub struct ImageStore {
    names: Vec<String>,
    blobs: Vec<Vec<u8>>,
}

impl View for ImageStore {
    type V = Map<Seq<char>, Seq<u8>>;

    closed spec fn view(&self) -> Map<Seq<char>, Seq<u8>> {
        Map::new(
            |name: Seq<char>| self.names@.map_values(|s: String| s@).contains(name),
            |name: Seq<char>| self.blobs@[self.slot_of(name)]@,
        )
    }
}

impl ImageStore {
    /// The stored names, in insertion order.
    pub closed spec fn names_seq(&self) -> Seq<Seq<char>> {
        self.names@.map_values(|s: String| s@)
    }

    spec fn slot_of(&self, name: Seq<char>) -> int {
        choose|i: int| 0 <= i < self.names@.len() && self.names@[i]@ == name
    }

    /// Well-formed: one blob per name, and no name listed twice.
    pub closed spec fn wf(&self) -> bool {
        &&& self.names@.len() == self.blobs@.len()
        &&& forall|i: int, j: int|
            0 <= i < j < self.names@.len() ==> self.names@[i]@ != self.names@[j]@
    }

    /// A name is in the view's domain exactly when it is among the stored
    /// names.
    pub proof fn lemma_dom_names(&self)
        ensures
            forall|n: Seq<char>|
                #[trigger] self@.dom().contains(n) <==> self.names_seq().contains(n),
    {
    }

    /// A well-formed store lists no name twice.
    pub proof fn lemma_names_distinct(&self)
        requires
            self.wf(),
        ensures
            forall|i: int, j: int|
                0 <= i < j < self.names_seq().len() ==> self.names_seq()[i]
                    != self.names_seq()[j],
    {
        assert forall|i: int, j: int| 0 <= i < j < self.names_seq().len()
            implies self.names_seq()[i] != self.names_seq()[j] by {
            assert(self.names_seq()[i] == self.names@[i]@);
            assert(self.names_seq()[j] == self.names@[j]@);
        }
    }

    proof fn lemma_slot(&self, name: Seq<char>, i: int)
        requires
            self.wf(),
            0 <= i < self.names@.len(),
            self.names@[i]@ == name,
        ensures
            self.slot_of(name) == i,
    {
        let j = self.slot_of(name);
        assert(0 <= j < self.names@.len() && self.names@[j]@ == name) by {
            assert(0 <= i < self.names@.len() && self.names@[i]@ == name);
        }
        if j != i {
            assert(self.names@[i]@ != self.names@[j]@);
        }
    }

    proof fn lemma_view_at(&self, i: int)
        requires
            self.wf(),
            0 <= i < self.names@.len(),
        ensures
            self@.dom().contains(self.names@[i]@),
            self@[self.names@[i]@] == self.blobs@[i]@,
    {
        assert(self.names_seq()[i] == self.names@[i]@);
        assert(self.names_seq().contains(self.names@[i]@));
        self.lemma_slot(self.names@[i]@, i);
    }

    /// A fresh store holds nothing.
    pub fn new() -> (s: ImageStore)
        ensures
            s.wf(),
            s@ == Map::<Seq<char>, Seq<u8>>::empty(),
            s.names_seq() == Seq::<Seq<char>>::empty(),
    {
        let s = ImageStore { names: Vec::new(), blobs: Vec::new() };
        proof {
            assert(s.names_seq() =~= Seq::<Seq<char>>::empty());
            assert(s@ =~= Map::<Seq<char>, Seq<u8>>::empty());
        }
        s
    }

    fn find(&self, name: &String) -> (r: Option<usize>)
        requires
            self.wf(),
        ensures
            match r {
                Some(i) => 0 <= i < self.names@.len() && self.names@[i as int]@ == name@,
                None => !self.names_seq().contains(name@),
            },
    {
        let mut i: usize = 0;
        while i < self.names.len()
            invariant
                self.wf(),
                i <= self.names@.len(),
                forall|j: int| 0 <= j < i ==> self.names@[j]@ != name@,
            decreases self.names@.len() - i,
        {
            if self.names[i] == *name {
                return Some(i);
            }
            i = i + 1;
        }
        proof {
            assert(forall|j: int|
                0 <= j < self.names_seq().len() ==> #[trigger] self.names_seq()[j] != name@);
        }
        None
    }

    /// Stores `image` under `name`: afterwards the index maps `name` to
    /// exactly those bytes. Storing under an existing name keeps a single
    /// index entry and replaces its bytes.
    pub fn store_image(&mut self, name: String, image: &[u8])
        requires
            old(self).wf(),
        ensures
            final(self).wf(),
            final(self)@ == old(self)@.insert(name@, image@),
            old(self).names_seq().contains(name@) ==> final(self).names_seq()
                == old(self).names_seq(),
            !old(self).names_seq().contains(name@) ==> final(self).names_seq() == old(
                self,
            ).names_seq().push(name@),
    {
        let ghost pre = *self;
        let ghost nv = name@;
        match self.find(&name) {
            Some(i) => {
                self.blobs.set(i, vstd::slice::slice_to_vec(image));
                proof {
                    let iv = i as int;
                    assert(self.names_seq() =~= pre.names_seq());
                    assert(self.names_seq()[iv] == nv);
                    assert(self.names_seq().contains(nv));
                    self.lemma_view_at(iv);
                    pre.lemma_view_at(iv);
                    assert(self.blobs@[iv]@ == image@);
                    self.lemma_dom_names();
                    pre.lemma_dom_names();
                    assert(self@.dom() =~= pre@.insert(nv, image@).dom());
                    assert forall|n: Seq<char>| self@.dom().contains(n) && n != nv implies self@[n]
                        == pre@[n] by {
                        let j = choose|j: int|
                            0 <= j < self.names_seq().len() && self.names_seq()[j] == n;
                        assert(self.names@[j]@ == n);
                        self.lemma_view_at(j);
                        pre.lemma_view_at(j);
                        assert(j != iv);
                        assert(self.blobs@[j] == pre.blobs@[j]);
                    }
                    assert(self@ =~= pre@.insert(nv, image@));
                }
            },
            None => {
                self.names.push(name);
                self.blobs.push(vstd::slice::slice_to_vec(image));
                proof {
                    let len0 = pre.names@.len() as int;
                    assert(self.names_seq() =~= pre.names_seq().push(nv));
                    assert(self.wf()) by {
                        assert forall|j: int| 0 <= j < len0 implies #[trigger] pre.names@[j]@
                            != nv by {
                            assert(pre.names_seq()[j] == pre.names@[j]@);
                        }
                    }
                    self.lemma_view_at(len0);
                    assert(self.blobs@[len0]@ == image@);
                    self.lemma_dom_names();
                    pre.lemma_dom_names();
                    assert(self@.dom() =~= pre@.insert(nv, image@).dom()) by {
                        assert forall|n: Seq<char>| self.names_seq().contains(n) implies (
                        pre.names_seq().contains(n) || n == nv) by {
                            let j = choose|j: int|
                                0 <= j < self.names_seq().len() && self.names_seq()[j] == n;
                            if j < len0 {
                                assert(pre.names_seq()[j] == n);
                            }
                        }
                        assert forall|n: Seq<char>| pre.names_seq().contains(n)
                            implies self.names_seq().contains(n) by {
                            let j = choose|j: int|
                                0 <= j < pre.names_seq().len() && pre.names_seq()[j] == n;
                            assert(self.names_seq()[j] == n);
                        }
                    }
                    assert forall|n: Seq<char>| self@.dom().contains(n) && n != nv implies self@[n]
                        == pre@[n] by {
                        let j = choose|j: int|
                            0 <= j < self.names_seq().len() && self.names_seq()[j] == n;
                        assert(self.names@[j]@ == n);
                        assert(j != len0);
                        assert(pre.names_seq()[j] == n);
                        self.lemma_view_at(j);
                        pre.lemma_view_at(j);
                    }
                    assert(self@ =~= pre@.insert(nv, image@));
                }
            },
        }
    }

    /// Returns the stored names, in insertion order.
    pub fn get_image_list(&self) -> (r: Vec<String>)
        requires
            self.wf(),
        ensures
            r@.len() == self.names_seq().len(),
            forall|i: int| 0 <= i < r@.len() ==> #[trigger] r@[i]@ == self.names_seq()[i],
    {
        let mut out: Vec<String> = Vec::new();
        let mut i: usize = 0;
        while i < self.names.len()
            invariant
                i <= self.names@.len(),
                out@.len() == i,
                forall|j: int| 0 <= j < i ==> #[trigger] out@[j]@ == self.names@[j]@,
            decreases self.names@.len() - i,
        {
            out.push(self.names[i].clone());
            i = i + 1;
        }
        out
    }

    /// Fetches the bytes stored under `name`. Exactly the names outside the
    /// index are `NotFound`; a present name yields the exact bytes most
    /// recently stored under it.
    pub fn get_image(&self, name: &String) -> (r: Result<Vec<u8>, StoreError>)
        requires
            self.wf(),
        ensures
            match r {
                Ok(bytes) => self@.dom().contains(name@) && bytes@ == self@[name@],
                Err(e) => e == StoreError::NotFound && !self@.dom().contains(name@),
            },
    {
        match self.find(name) {
            Some(i) => {
                let bytes = vstd::slice::slice_to_vec(self.blobs[i].as_slice());
                proof {
                    self.lemma_view_at(i as int);
                }
                Ok(bytes)
            },
            None => Err(StoreError::NotFound),
        }
    }

    /// Wipes the index: the listing becomes empty and every previously
    /// fetchable name is absent afterwards.
    pub fn reset(&mut self)
        ensures
            final(self).wf(),
            final(self)@ == Map::<Seq<char>, Seq<u8>>::empty(),
            final(self).names_seq() == Seq::<Seq<char>>::empty(),
            forall|n: Seq<char>| !final(self)@.dom().contains(n),
    {
        self.names = Vec::new();
        self.blobs = Vec::new();
        proof {
            assert(self.names_seq() =~= Seq::<Seq<char>>::empty());
            assert(self@ =~= Map::<Seq<char>, Seq<u8>>::empty());
        }
    }
}

} // verus!
