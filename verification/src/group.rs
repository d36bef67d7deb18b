//! The group counter: per destination-directory prefix, how many files the
//! active numbered group has received and which group is active. A new
//! prefix starts in group 0; when the active group already holds `threshold`
//! files, the next assignment rolls over to a fresh group. State lives for
//! one run only.
use vstd::prelude::*;
use crate::codec::{bytes_eq, append_bytes};

verus! {

/// Counter state for one destination prefix.
pub struct GroupSlot {
    pub prefix: Vec<u8>,
    pub count: usize,
    pub index: usize,
}

/// The mathematical image of one slot.
#[verifier::ext_equal]
pub ghost struct SlotV {
    pub prefix: Seq<u8>,
    pub count: nat,
    pub index: nat,
}

impl View for GroupSlot {
    type V = SlotV;

    open spec fn view(&self) -> SlotV {
        SlotV { prefix: self.prefix@, count: self.count as nat, index: self.index as nat }
    }
}

/// The first slot holding `p`, or -1 when no slot does.
pub open spec fn find_slot(s: Seq<SlotV>, p: Seq<u8>) -> int
    decreases s.len(),
{
    if s.len() == 0 {
        -1
    } else if s[0].prefix == p {
        0
    } else {
        let r = find_slot(s.drop_first(), p);
        if r == -1 {
            -1
        } else {
            r + 1
        }
    }
}

pub proof fn lemma_find_slot(s: Seq<SlotV>, p: Seq<u8>)
    ensures
        find_slot(s, p) == -1 ==> forall|k: int| 0 <= k < s.len() ==> s[k].prefix != p,
        find_slot(s, p) != -1 ==> {
            let i = find_slot(s, p);
            &&& 0 <= i < s.len()
            &&& s[i].prefix == p
            &&& forall|k: int| 0 <= k < i ==> s[k].prefix != p
        },
    decreases s.len(),
{
    if s.len() == 0 {
    } else if s[0].prefix == p {
    } else {
        lemma_find_slot(s.drop_first(), p);
        let r = find_slot(s.drop_first(), p);
        if r == -1 {
            assert forall|k: int| 0 <= k < s.len() implies s[k].prefix != p by {
                if k > 0 {
                    assert(s.drop_first()[k - 1] == s[k]);
                }
            }
        } else {
            assert(s.drop_first()[r] == s[r + 1]);
            assert forall|k: int| 0 <= k < r + 1 implies s[k].prefix != p by {
                if k > 0 {
                    assert(s.drop_first()[k - 1] == s[k]);
                }
            }
        }
    }
}

/// What one assignment does to the counter state: which group the new file
/// joins, and the state afterwards.
pub open spec fn spec_assign(s: Seq<SlotV>, p: Seq<u8>, thr: nat) -> (Seq<SlotV>, nat) {
    let i = find_slot(s, p);
    if i == -1 {
        (s.push(SlotV { prefix: p, count: 1, index: 0 }), 0)
    } else {
        let sl = s[i];
        if sl.count < thr {
            (s.update(i, SlotV { prefix: sl.prefix, count: sl.count + 1, index: sl.index }), sl.index)
        } else {
            (s.update(i, SlotV { prefix: sl.prefix, count: 1, index: sl.index + 1 }), sl.index + 1)
        }
    }
}

/// Counter well-formedness: prefixes are distinct and every active group
/// holds between 1 and `thr` files.
pub open spec fn slots_wf(s: Seq<SlotV>, thr: nat) -> bool {
    &&& forall|k1: int, k2: int|
        0 <= k1 < k2 < s.len() ==> s[k1].prefix != s[k2].prefix
    &&& forall|k: int| 0 <= k < s.len() ==> 1 <= #[trigger] s[k].count <= thr
}

/// Well-formedness carries over an update that keeps the slot's prefix and a
/// count between 1 and `thr`.
proof fn lemma_updated_wf(s0: Seq<SlotV>, s1: Seq<SlotV>, j: int, thr: nat)
    requires
        slots_wf(s0, thr),
        0 <= j < s0.len(),
        s1.len() == s0.len(),
        s1[j].prefix == s0[j].prefix,
        1 <= s1[j].count <= thr,
        forall|k: int| 0 <= k < s0.len() && k != j ==> s1[k] == s0[k],
    ensures
        slots_wf(s1, thr),
{
    assert forall|k1: int, k2: int|
        0 <= k1 < k2 < s1.len() implies s1[k1].prefix != s1[k2].prefix by {
        assert(s1[k1].prefix == s0[k1].prefix);
        assert(s1[k2].prefix == s0[k2].prefix);
    }
    assert forall|k: int| 0 <= k < s1.len() implies 1 <= #[trigger] s1[k].count <= thr by {
        if k != j {
            assert(s1[k] == s0[k]);
            assert(1 <= s0[k].count <= thr);
        }
    }
}

/// One assignment keeps the counter well-formed.
pub proof fn lemma_assign_wf(s: Seq<SlotV>, p: Seq<u8>, thr: nat)
    requires
        thr >= 1,
        slots_wf(s, thr),
    ensures
        slots_wf(spec_assign(s, p, thr).0, thr),
{
    let s1 = spec_assign(s, p, thr).0;
    let i = find_slot(s, p);
    lemma_find_slot(s, p);
    if i == -1 {
        assert forall|k1: int, k2: int|
            0 <= k1 < k2 < s1.len() implies s1[k1].prefix != s1[k2].prefix by {
            if k2 < s.len() {
                assert(s1[k1] == s[k1] && s1[k2] == s[k2]);
            } else {
                assert(s1[k1] == s[k1] && s1[k2].prefix == p);
            }
        }
        assert forall|k: int| 0 <= k < s1.len() implies 1 <= #[trigger] s1[k].count <= thr by {
            if k < s.len() {
                assert(s1[k] == s[k]);
            }
        }
    } else {
        lemma_updated_wf(s, s1, i, thr);
    }
}

/// Where the first slot holding `p` is known to stand, find_slot finds it.
pub proof fn lemma_find_slot_at(s: Seq<SlotV>, p: Seq<u8>, i: int)
    requires
        0 <= i < s.len(),
        s[i].prefix == p,
        forall|k: int| 0 <= k < i ==> s[k].prefix != p,
    ensures
        find_slot(s, p) == i,
    decreases s.len(),
{
    if i == 0 {
    } else {
        assert(s[0].prefix != p);
        assert forall|k: int| 0 <= k < i - 1 implies s.drop_first()[k].prefix != p by {
            assert(s.drop_first()[k] == s[k + 1]);
        }
        assert(s.drop_first()[i - 1] == s[i]);
        lemma_find_slot_at(s.drop_first(), p, i - 1);
    }
}

/// One assignment raises a slot's combined group index and count by at most
/// one: the bound every slot obeys rises by at most one per file planned.
pub proof fn lemma_assign_loads(s: Seq<SlotV>, p: Seq<u8>, thr: nat, bound: nat)
    requires
        thr >= 1,
        slots_wf(s, thr),
        forall|k: int| 0 <= k < s.len() ==> #[trigger] s[k].index + s[k].count <= bound,
    ensures
        forall|k: int|
            0 <= k < spec_assign(s, p, thr).0.len() ==> #[trigger] spec_assign(s, p, thr).0[k].index
                + spec_assign(s, p, thr).0[k].count <= bound + 1,
{
    let s1 = spec_assign(s, p, thr).0;
    let i = find_slot(s, p);
    lemma_find_slot(s, p);
    assert forall|k: int| 0 <= k < s1.len() implies #[trigger] s1[k].index + s1[k].count <= bound
        + 1 by {
        if i == -1 {
            if k < s.len() {
                assert(s1[k] == s[k]);
            } else {
                assert(s1[k].index + s1[k].count == 1);
            }
        } else {
            if k != i {
                assert(s1[k] == s[k]);
            } else {
                assert(1 <= s[i].count);
            }
        }
    }
}

/// The run-scoped group counter.
pub struct GroupCounter {
    pub slots: Vec<GroupSlot>,
    pub threshold: usize,
}

impl View for GroupCounter {
    type V = Seq<SlotV>;

    open spec fn view(&self) -> Seq<SlotV> {
        self.slots@.map_values(|g: GroupSlot| g@)
    }
}

impl GroupCounter {
    pub open spec fn wf(self) -> bool {
        self.threshold >= 1 && slots_wf(self@, self.threshold as nat)
    }

    /// A fresh counter: no prefix seen yet.
    pub fn new(threshold: usize) -> (c: Self)
        requires
            threshold >= 1,
        ensures
            c.wf(),
            c@ == Seq::<SlotV>::empty(),
            c.threshold == threshold,
    {
        let c = GroupCounter { slots: Vec::new(), threshold };
        proof {
            assert(c@ =~= Seq::<SlotV>::empty());
        }
        c
    }

    /// Assigns the next file under `prefix` to a group: the count rises by
    /// one, or rolls over to a fresh group when the active one is full. A
    /// prefix seen for the first time joins group 0.
    #[verifier::loop_isolation(false)]
    pub fn assign(&mut self, prefix: &Vec<u8>) -> (g: usize)
        requires
            old(self).wf(),
            forall|k: int|
                0 <= k < old(self)@.len() ==> old(self)@[k].index + old(self)@[k].count
                    < usize::MAX,
        ensures
            final(self).wf(),
            final(self).threshold == old(self).threshold,
            final(self)@ == spec_assign(old(self)@, prefix@, old(self).threshold as nat).0,
            g as nat == spec_assign(old(self)@, prefix@, old(self).threshold as nat).1,
    {
        let ghost s0 = self@;
        let ghost thr = self.threshold as nat;
        let n = self.slots.len();
        proof {
            assert(s0.len() == self.slots@.len());
        }
        let mut j: usize = 0;
        while j < n
            invariant
                j <= n,
                n == self.slots@.len(),
                s0.len() == n,
                forall|k: int| 0 <= k < j ==> s0[k].prefix != prefix@,
                *self == *old(self),
                s0 == self@,
            decreases n - j,
        {
            proof {
                assert(s0[j as int] == self.slots@[j as int]@);
            }
            if bytes_eq(&self.slots[j].prefix, prefix) {
                proof {
                    lemma_find_slot(s0, prefix@);
                    assert(s0[j as int].prefix == prefix@);
                    assert(find_slot(s0, prefix@) == j);
                }
                let c = self.slots[j].count;
                let idx = self.slots[j].index;
                if c < self.threshold {
                    self.slots[j].count = c + 1;
                    proof {
                        assert(self@ =~= s0.update(
                            j as int,
                            SlotV { prefix: prefix@, count: c as nat + 1, index: idx as nat },
                        ));
                        lemma_updated_wf(s0, self@, j as int, thr);
                    }
                    return idx;
                } else {
                    self.slots[j].count = 1;
                    self.slots[j].index = idx + 1;
                    proof {
                        assert(self@ =~= s0.update(
                            j as int,
                            SlotV { prefix: prefix@, count: 1, index: idx as nat + 1 },
                        ));
                        lemma_updated_wf(s0, self@, j as int, thr);
                    }
                    return idx + 1;
                }
            }
            j = j + 1;
        }
        proof {
            lemma_find_slot(s0, prefix@);
            assert(find_slot(s0, prefix@) == -1);
        }
        let mut owned: Vec<u8> = Vec::new();
        append_bytes(&mut owned, prefix);
        proof {
            assert(Seq::<u8>::empty() + prefix@ =~= prefix@);
        }
        self.slots.push(GroupSlot { prefix: owned, count: 1, index: 0 });
        proof {
            assert(self@ =~= s0.push(SlotV { prefix: prefix@, count: 1, index: 0 }));
            let s1 = self@;
            assert forall|k1: int, k2: int|
                0 <= k1 < k2 < s1.len() implies s1[k1].prefix != s1[k2].prefix by {
                if k2 < s1.len() - 1 {
                    assert(s1[k1] == s0[k1] && s1[k2] == s0[k2]);
                } else {
                    assert(s1[k1] == s0[k1] && s1[k2].prefix == prefix@);
                }
            }
            assert forall|k: int| 0 <= k < s1.len() implies 1 <= #[trigger] s1[k].count
                <= thr by {
                if k < s1.len() - 1 {
                    assert(s1[k] == s0[k]);
                }
            }
        }
        0
    }
}

} // verus!
