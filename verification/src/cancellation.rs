//! Bookkeeping of which conversations are currently being processed.
use vstd::prelude::*;
use crate::text::str_eq;

verus! {

/// Tracks which conversations are currently being processed by the
/// conversation queue. Prevents concurrent processing loops for the same
/// conversation.
pub struct ConversationProcessingState {
    active: Vec<String>,
}

impl View for ConversationProcessingState {
    type V = Set<Seq<char>>;

    closed spec fn view(&self) -> Set<Seq<char>> {
        self.active@.map_values(|s: String| s@).to_set()
    }
}

impl ConversationProcessingState {
    /// No conversation occurs twice in the active list.
    #[verifier::type_invariant]
    closed spec fn distinct(self) -> bool {
        forall|i: int, j: int|
            0 <= i < j < self.active@.len() ==> self.active@[i]@ != self.active@[j]@
    }

    pub fn new() -> (r: Self)
        ensures
            r@ == Set::<Seq<char>>::empty(),
    {
        let r = ConversationProcessingState { active: Vec::new() };
        assert(r.active@.map_values(|s: String| s@) =~= Seq::<Seq<char>>::empty());
        assert(r@ =~= Set::<Seq<char>>::empty());
        r
    }

    fn position(&self, conv_id: &str) -> (r: Option<usize>)
        ensures
            match r {
                Some(i) => i < self.active@.len() && self.active@[i as int]@ == conv_id@,
                None => forall|i: int| 0 <= i < self.active@.len() ==> self.active@[i]@ != conv_id@,
            },
    {
        let mut i: usize = 0;
        while i < self.active.len()
            invariant
                i <= self.active@.len(),
                forall|k: int| 0 <= k < i ==> self.active@[k]@ != conv_id@,
            decreases self.active.len() - i,
        {
            if str_eq(self.active[i].as_str(), conv_id) {
                return Some(i);
            }
            i = i + 1;
        }
        None
    }

    proof fn lemma_contains(&self, id: Seq<char>)
        ensures
            self@.contains(id) <==> exists|i: int| 0 <= i < self.active@.len() && self.active@[i]@ == id,
    {
        let m = self.active@.map_values(|s: String| s@);
        if self@.contains(id) {
            let i = choose|i: int| 0 <= i < m.len() && m[i] == id;
            assert(self.active@[i]@ == id);
        }
        if exists|i: int| 0 <= i < self.active@.len() && self.active@[i]@ == id {
            let i = choose|i: int| 0 <= i < self.active@.len() && self.active@[i]@ == id;
            assert(m[i] == id);
        }
    }

    /// Whether the conversation is currently being processed.
    pub fn is_active(&self, conv_id: &str) -> (r: bool)
        ensures
            r == self@.contains(conv_id@),
    {
        proof {
            self.lemma_contains(conv_id@);
        }
        self.position(conv_id).is_some()
    }

    /// Marks the conversation as active. Returns true if it was idle (the
    /// caller should start processing).
    pub fn try_acquire(&mut self, conv_id: &str) -> (r: bool)
        ensures
            r == !old(self)@.contains(conv_id@),
            final(self)@ == old(self)@.insert(conv_id@),
    {
        proof {
            use_type_invariant(&*self);
            self.lemma_contains(conv_id@);
        }
        if self.position(conv_id).is_some() {
            proof {
                assert(self@.insert(conv_id@) =~= self@);
            }
            false
        } else {
            let ghost old_self = *self;
            let id = crate::text::to_owned_string(conv_id);
            let mut active: Vec<String> = Vec::new();
            std::mem::swap(&mut active, &mut self.active);
            active.push(id);
            let ghost pushed = active@;
            self.active = active;
            proof {
                let m0 = old_self.active@.map_values(|s: String| s@);
                let m1 = self.active@.map_values(|s: String| s@);
                assert(m1 =~= m0.push(conv_id@));
                assert forall|x: Seq<char>| self@.contains(x) <==> old_self@.insert(conv_id@).contains(x) by {
                    if self@.contains(x) {
                        let k = choose|k: int| 0 <= k < m1.len() && m1[k] == x;
                        if k < m0.len() {
                            assert(m0[k] == x);
                        }
                    }
                    if old_self@.contains(x) {
                        let k = choose|k: int| 0 <= k < m0.len() && m0[k] == x;
                        assert(m1[k] == x);
                    }
                    if x == conv_id@ {
                        assert(m1[m0.len() as int] == x);
                    }
                }
                assert(self@ =~= old_self@.insert(conv_id@));
            }
            true
        }
    }

    /// Releases the active slot of the conversation.
    pub fn release(&mut self, conv_id: &str)
        ensures
            final(self)@ == old(self)@.remove(conv_id@),
    {
        proof {
            use_type_invariant(&*self);
        }
        match self.position(conv_id) {
            Some(i) => {
                let ghost old_self = *self;
                let mut active: Vec<String> = Vec::new();
            std::mem::swap(&mut active, &mut self.active);
                active.remove(i);
                self.active = active;
                proof {
                    let m0 = old_self.active@.map_values(|s: String| s@);
                    let m1 = self.active@.map_values(|s: String| s@);
                    assert(m1 =~= m0.remove(i as int));
                    assert forall|x: Seq<char>| self@.contains(x) <==> old_self@.remove(conv_id@).contains(x) by {
                        if self@.contains(x) {
                            let k = choose|k: int| 0 <= k < m1.len() && m1[k] == x;
                            if k < i {
                                assert(m0[k] == x);
                                assert(x != conv_id@);
                            } else {
                                assert(m0[k + 1] == x);
                                assert(x != conv_id@);
                            }
                        }
                        if old_self@.remove(conv_id@).contains(x) {
                            let k = choose|k: int| 0 <= k < m0.len() && m0[k] == x;
                            assert(k != i);
                            if k < i {
                                assert(m1[k] == x);
                            } else {
                                assert(m1[k - 1] == x);
                            }
                        }
                    }
                    assert(self@ =~= old_self@.remove(conv_id@));
                }
            },
            None => {
                proof {
                    self.lemma_contains(conv_id@);
                    assert(self@.remove(conv_id@) =~= self@);
                }
            },
        }
    }
}

/// Law: a conversation can be acquired only while it is idle; once acquired
/// it is active and a second acquisition is refused; releasing it makes it
/// idle again, so it can be acquired anew. Other conversations are
/// unaffected.
pub proof fn law_acquire_release(s: Set<Seq<char>>, id: Seq<char>, other: Seq<char>)
    requires
        other != id,
    ensures
        s.insert(id).contains(id),
        !s.insert(id).remove(id).contains(id),
        s.insert(id).remove(id).contains(other) == s.contains(other),
        s.insert(id).contains(other) == s.contains(other),
{
}

} // verus!
