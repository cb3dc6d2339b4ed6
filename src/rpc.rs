//! The registry of the control API's methods, at most one per name.

use vstd::prelude::*;
use crate::method::Method;

verus! {

/// The control API server and the methods it serves.
pub struct Server<M> {
    /// The registered methods, in the order of registration.
    pub methods: Vec<M>,
}

impl<M: Method> View for Server<M> {
    type V = Seq<M>;

    open spec fn view(&self) -> Seq<M> {
        self.methods@
    }
}

impl<M: Method> Server<M> {
    /// Whether no two methods share a name.
    pub open spec fn wf(&self) -> bool {
        forall|i: int, j: int|
            0 <= i < j < self@.len() ==> (#[trigger] self@[i]).spec_name() != (
            #[trigger] self@[j]).spec_name()
    }

    /// A server with no methods.
    pub fn new() -> (r: Server<M>)
        ensures
            r.wf(),
            r@ == Seq::<M>::empty(),
    {
        Server { methods: Vec::new() }
    }

    /// Starts serving; the transport is not part of this library.
    pub fn run(&self) {
    }

    /// Registers a method; the first one registered under the same name is
    /// replaced in its place, otherwise the method is appended.
    pub fn add_method(&mut self, m: M)
        ensures
            old(self).wf() ==> final(self).wf(),
            (exists|k: int| 0 <= k < old(self)@.len() && (#[trigger] old(self)@[k]).spec_name() == m.spec_name())
                ==> (exists|k: int|
                0 <= k < old(self)@.len() && (#[trigger] old(self)@[k]).spec_name() == m.spec_name()
                    && (forall|j: int| 0 <= j < k ==> (#[trigger] old(self)@[j]).spec_name() != m.spec_name())
                    && final(self)@ == old(self)@.update(k, m)),
            (forall|k: int| 0 <= k < old(self)@.len() ==> (#[trigger] old(self)@[k]).spec_name() != m.spec_name())
                ==> final(self)@ == old(self)@.push(m),
    {
        let name = m.name().to_owned();
        let mut i: usize = 0;
        while i < self.methods.len()
            invariant
                i <= self@.len(),
                self@ == old(self)@,
                name@ == m.spec_name(),
                forall|k: int| 0 <= k < i ==> (#[trigger] self@[k]).spec_name() != m.spec_name(),
            decreases self@.len() - i,
        {
            let existing = self.methods[i].name().to_owned();
            if existing == name {
                self.methods.set(i, m);
                assert(old(self)@[i as int].spec_name() == m.spec_name());
                assert(old(self).wf() ==> self.wf()) by {
                    if old(self).wf() {
                        assert forall|a: int, b: int| 0 <= a < b < self@.len() implies (
                        #[trigger] self@[a]).spec_name() != (#[trigger] self@[b]).spec_name() by {
                            if a != i && b != i {
                                assert(self@[a] == old(self)@[a]);
                                assert(self@[b] == old(self)@[b]);
                            } else if a == i {
                                assert(self@[b] == old(self)@[b]);
                            } else {
                                assert(self@[a] == old(self)@[a]);
                            }
                        }
                    }
                }
                return;
            }
            i = i + 1;
        }
        self.methods.push(m);
        assert(old(self).wf() ==> self.wf()) by {
            if old(self).wf() {
                assert forall|a: int, b: int| 0 <= a < b < self@.len() implies (
                #[trigger] self@[a]).spec_name() != (#[trigger] self@[b]).spec_name() by {
                    if b < old(self)@.len() {
                        assert(self@[a] == old(self)@[a]);
                        assert(self@[b] == old(self)@[b]);
                    } else {
                        assert(self@[a] == old(self)@[a]);
                    }
                }
            }
        }
    }
}

} // verus!
