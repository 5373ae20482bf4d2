//! The global symbol table: names bound to stable storage slots.
use vstd::prelude::*;

verus! {

/// What a storage slot holds.
#[derive(PartialEq, Eq, Structural, Clone, Copy, Debug)]
pub enum SlotValue {
    /// The placeholder stored before a name's real value is known.
    Undefined,
    /// A value handle produced by code generation.
    Handle(u64),
}

/// Names bound to slots of an arena of values. A slot, once handed out,
/// keeps its index, so references taken to it stay valid.
pub struct GlobalScope {
    pub names: Vec<String>,
    pub slots: Vec<usize>,
    pub values: Vec<SlotValue>,
}

impl GlobalScope {
    /// One entry per name, one slot per entry, every slot in the arena.
    pub open spec fn wf(&self) -> bool {
        &&& self.names@.len() == self.slots@.len()
        &&& forall|i: int| 0 <= i < self.slots@.len() ==> self.slots@[i] < self.values@.len()
        &&& forall|i: int, j: int|
            #![trigger self.names@[i], self.names@[j]]
            0 <= i < self.names@.len() && 0 <= j < self.names@.len() && i != j
                ==> self.names@[i]@ != self.names@[j]@
        &&& forall|i: int, j: int|
            #![trigger self.slots@[i], self.slots@[j]]
            0 <= i < self.slots@.len() && 0 <= j < self.slots@.len() && i != j
                ==> self.slots@[i] != self.slots@[j]
    }

    pub open spec fn bound(&self, n: Seq<char>) -> bool {
        exists|i: int| 0 <= i < self.names@.len() && self.names@[i]@ == n
    }

    pub open spec fn entry_of(&self, n: Seq<char>) -> int {
        choose|i: int| 0 <= i < self.names@.len() && self.names@[i]@ == n
    }

    /// The slot that `n` is bound to.
    pub open spec fn slot_of(&self, n: Seq<char>) -> int {
        self.slots@[self.entry_of(n)] as int
    }

    /// The value stored for `n`.
    pub open spec fn value_of(&self, n: Seq<char>) -> SlotValue {
        self.values@[self.slot_of(n)]
    }

    pub proof fn lemma_entry_of(&self, i: int)
        requires
            self.wf(),
            0 <= i < self.names@.len(),
        ensures
            self.bound(self.names@[i]@),
            self.entry_of(self.names@[i]@) == i,
            self.slot_of(self.names@[i]@) == self.slots@[i],
    {
        let n = self.names@[i]@;
        assert(self.names@[i]@ == n);
        let j = self.entry_of(n);
        assert(0 <= j < self.names@.len() && self.names@[j]@ == n);
        if j != i {
            assert(self.names@[i]@ != self.names@[j]@);
        }
    }

    pub fn new() -> (r: Self)
        ensures
            r.wf(),
            r.names@.len() == 0,
            r.values@.len() == 0,
            forall|n: Seq<char>| !r.bound(n),
    {
        GlobalScope { names: Vec::new(), slots: Vec::new(), values: Vec::new() }
    }

    /// The entry that binds `name`, if any.
    fn find(&self, name: &String) -> (r: Option<usize>)
        requires
            self.wf(),
        ensures
            r is Some <==> self.bound(name@),
            r matches Some(i) ==> i < self.names@.len() && self.names@[i as int]@ == name@
                && self.entry_of(name@) == i,
    {
        let mut i: usize = 0;
        while i < self.names.len()
            invariant
                self.wf(),
                i <= self.names@.len(),
                forall|k: int| 0 <= k < i ==> self.names@[k]@ != name@,
            decreases self.names@.len() - i,
        {
            if self.names[i] == *name {
                proof {
                    self.lemma_entry_of(i as int);
                }
                return Some(i);
            }
            i = i + 1;
        }
        None
    }

    /// The slot bound to `name`, if any.
    pub fn lookup(&self, name: &str) -> (r: Option<usize>)
        requires
            self.wf(),
        ensures
            r is Some <==> self.bound(name@),
            r matches Some(s) ==> s == self.slot_of(name@) && s < self.values@.len(),
    {
        let key = String::from_str(name);
        match self.find(&key) {
            Some(i) => Some(self.slots[i]),
            None => None,
        }
    }

    /// Overwrites the value of an existing binding in place; returns
    /// whether `name` was bound. Never creates a binding.
    pub fn store_variable(&mut self, name: &str, value: SlotValue) -> (r: bool)
        requires
            old(self).wf(),
        ensures
            final(self).wf(),
            r == old(self).bound(name@),
            final(self).names@ == old(self).names@,
            final(self).slots@ == old(self).slots@,
            r ==> final(self).values@ == old(self).values@.update(old(self).slot_of(name@), value),
            !r ==> final(self).values@ == old(self).values@,
    {
        match self.lookup(name) {
            Some(s) => {
                self.values.set(s, value);
                assert(self.values@.len() == old(self).values@.len());
                assert(self.wf());
                true
            },
            None => false,
        }
    }

    /// Allocates a fresh slot holding `value`.
    pub fn new_global_slot(&mut self, value: SlotValue) -> (r: usize)
        requires
            old(self).wf(),
            old(self).values@.len() < usize::MAX,
        ensures
            final(self).wf(),
            r == old(self).values@.len(),
            final(self).values@ == old(self).values@.push(value),
            final(self).names@ == old(self).names@,
            final(self).slots@ == old(self).slots@,
    {
        let r = self.values.len();
        self.values.push(value);
        assert(forall|i: int| 0 <= i < self.slots@.len() ==> old(self).slots@[i] < self.values@.len());
        r
    }

    /// Binds a name that is not yet bound to a slot that no name uses.
    pub fn add_variable(&mut self, name: &str, slot: usize)
        requires
            old(self).wf(),
            !old(self).bound(name@),
            slot < old(self).values@.len(),
            forall|i: int| 0 <= i < old(self).slots@.len() ==> old(self).slots@[i] != slot,
        ensures
            final(self).wf(),
            final(self).names@.len() == old(self).names@.len() + 1,
            final(self).names@.last()@ == name@,
            final(self).names@.drop_last() == old(self).names@,
            final(self).slots@ == old(self).slots@.push(slot),
            final(self).values@ == old(self).values@,
    {
        let key = String::from_str(name);
        self.names.push(key);
        self.slots.push(slot);
        proof {
            let s = *final(self);
            let o = *old(self);
            assert(s.names@.drop_last() =~= o.names@);
            assert forall|i: int| 0 <= i < s.slots@.len() implies s.slots@[i] < s.values@.len() by {
                if i < o.slots@.len() {
                    assert(s.slots@[i] == o.slots@[i]);
                }
            }
            assert forall|i: int, j: int|
                0 <= i < s.names@.len() && 0 <= j < s.names@.len() && i != j implies #[trigger] s.names@[i]@
                != #[trigger] s.names@[j]@ && s.slots@[i] != s.slots@[j] by {
                if i < o.names@.len() && j < o.names@.len() {
                    assert(s.names@[i] == o.names@[i] && s.names@[j] == o.names@[j]);
                    assert(s.slots@[i] == o.slots@[i] && s.slots@[j] == o.slots@[j]);
                } else if i < o.names@.len() {
                    assert(s.names@[i] == o.names@[i] && s.slots@[i] == o.slots@[i]);
                    assert(o.names@[i]@ != name@);
                } else {
                    assert(s.names@[j] == o.names@[j] && s.slots@[j] == o.slots@[j]);
                    assert(o.names@[j]@ != name@);
                }
            }
        }
    }

    /// The binding rule: an unbound name gets a fresh slot holding
    /// `value`; a bound name keeps its slot, whose value is overwritten.
    pub fn add_or_update_global_variable(&mut self, name: &str, value: SlotValue)
        requires
            old(self).wf(),
            old(self).bound(name@) || old(self).values@.len() < usize::MAX,
        ensures
            final(self).wf(),
            final(self).bound(name@),
            forall|n: Seq<char>| #[trigger] final(self).bound(n) <==> old(self).bound(n) || n == name@,
            forall|n: Seq<char>| #[trigger] old(self).bound(n) ==> final(self).slot_of(n) == old(self).slot_of(n),
            final(self).value_of(name@) == value,
            old(self).bound(name@) ==> final(self).values@.len() == old(self).values@.len(),
            !old(self).bound(name@) ==> final(self).values@.len() == old(self).values@.len() + 1
                && final(self).slot_of(name@) == old(self).values@.len(),
            forall|k: int|
                0 <= k < old(self).values@.len() && k != final(self).slot_of(name@)
                    ==> final(self).values@[k] == old(self).values@[k],
            final(self).names@.len() <= old(self).names@.len() + 1,
    {
        let ghost prev = *self;
        if !self.store_variable(name, value) {
            let slot = self.new_global_slot(SlotValue::Undefined);
            self.values.set(slot, value);
            assert(self.values@.len() == prev.values@.len() + 1);
            assert(forall|i: int| 0 <= i < self.slots@.len() ==> self.slots@[i] < prev.values@.len());
            assert(self.wf());
            self.add_variable(name, slot);
            proof {
                self.lemma_entry_of(self.names@.len() - 1);
            }
        } else {
            proof {
                prev.lemma_entry_of(prev.entry_of(name@));
            }
        }
        proof {
            assert(self.names@.subrange(0, prev.names@.len() as int) =~= prev.names@);
            assert(self.slots@.subrange(0, prev.slots@.len() as int) =~= prev.slots@);
            self.lemma_rebind(prev, name@);
        }
    }

    proof fn lemma_rebind(&self, prev: GlobalScope, name: Seq<char>)
        requires
            prev.wf(),
            self.wf(),
            self.names@.len() >= prev.names@.len(),
            self.names@.subrange(0, prev.names@.len() as int) == prev.names@,
            self.slots@.subrange(0, prev.slots@.len() as int) == prev.slots@,
            prev.bound(name) ==> self.names@ == prev.names@,
            !prev.bound(name) ==> self.names@.len() == prev.names@.len() + 1
                && self.names@.last()@ == name,
        ensures
            forall|n: Seq<char>| #[trigger] self.bound(n) <==> prev.bound(n) || n == name,
            forall|n: Seq<char>| #[trigger] prev.bound(n) ==> self.slot_of(n) == prev.slot_of(n),
    {
        assert forall|n: Seq<char>| #[trigger] self.bound(n) <==> prev.bound(n) || n == name by {
            if prev.bound(n) {
                let i = prev.entry_of(n);
                assert(self.names@[i] == self.names@.subrange(0, prev.names@.len() as int)[i]);
            }
            if n == name && !prev.bound(name) {
                assert(self.names@[self.names@.len() - 1]@ == name);
            }
            if self.bound(n) {
                let i = self.entry_of(n);
                if i < prev.names@.len() {
                    assert(self.names@[i] == self.names@.subrange(0, prev.names@.len() as int)[i]);
                }
            }
        }
        assert forall|n: Seq<char>| #[trigger] prev.bound(n) implies self.slot_of(n) == prev.slot_of(n) by {
            let i = prev.entry_of(n);
            prev.lemma_entry_of(i);
            assert(self.names@[i] == self.names@.subrange(0, prev.names@.len() as int)[i]);
            assert(self.slots@[i] == self.slots@.subrange(0, prev.slots@.len() as int)[i]);
            self.lemma_entry_of(i);
        }
    }
}

} // verus!
