//! Run-wide laws of the planner, proved once and for all inputs: the
//! threshold invariant, determinism of the plan, and the processing limit.
use vstd::prelude::*;
use crate::group::{SlotV, spec_assign, slots_wf, find_slot, lemma_find_slot, lemma_assign_wf,
    lemma_find_slot_at};
use crate::pattern::PatternToken;
use crate::planner::{EntryV, RunOptions, grouping_enabled, spec_plan, spec_plan_from,
    spec_prefix};
use crate::order::spec_sort;
use crate::record::ExtractOutcome;

verus! {

/// How many plan entries land in group `g` under destination prefix `p`.
pub open spec fn count_group(entries: Seq<EntryV>, p: Seq<u8>, g: nat) -> nat
    decreases entries.len(),
{
    if entries.len() == 0 {
        0
    } else {
        (if entries[0].prefix == p && entries[0].group == Some(g) {
            1nat
        } else {
            0nat
        }) + count_group(entries.drop_first(), p, g)
    }
}

/// How many more entries group `g` under prefix `p` may still receive, given
/// the counter state.
pub open spec fn remaining_cap(slots: Seq<SlotV>, p: Seq<u8>, g: nat, thr: nat) -> nat {
    let i = find_slot(slots, p);
    if i == -1 {
        thr
    } else {
        let sl = slots[i];
        if g < sl.index {
            0
        } else if g == sl.index {
            (thr - sl.count) as nat
        } else {
            thr
        }
    }
}

proof fn lemma_count_group_cons(e: EntryV, rest: Seq<EntryV>, p: Seq<u8>, g: nat)
    ensures
        count_group(seq![e] + rest, p, g) == (if e.prefix == p && e.group == Some(g) {
            1nat
        } else {
            0nat
        }) + count_group(rest, p, g),
{
    let s = seq![e] + rest;
    assert(s[0] == e);
    assert(s.drop_first() =~= rest);
}

proof fn lemma_threshold_from(
    s: Seq<ExtractOutcome>,
    i: int,
    slots: Seq<SlotV>,
    planned: nat,
    toks: Seq<PatternToken>,
    o: RunOptions,
    p: Seq<u8>,
    g: nat,
)
    requires
        grouping_enabled(o),
        slots_wf(slots, o.threshold as nat),
    ensures
        count_group(spec_plan_from(s, i, slots, planned, toks, o).entries, p, g) <= remaining_cap(
            slots,
            p,
            g,
            o.threshold as nat,
        ),
    decreases s.len() - i,
{
    let thr = o.threshold as nat;
    if i < 0 || i >= s.len() {
    } else {
        match s[i] {
            ExtractOutcome::Failed(_) => {
                lemma_threshold_from(s, i + 1, slots, planned, toks, o, p, g);
            },
            ExtractOutcome::Good(rec) => {
                if !crate::planner::rec_extract_ok(rec, toks, o) {
                    lemma_threshold_from(s, i + 1, slots, planned, toks, o, p, g);
                } else if o.limit > 0 && planned >= o.limit as nat {
                    lemma_threshold_from(s, i + 1, slots, planned, toks, o, p, g);
                } else {
                    let prefix = spec_prefix(rec, toks, o);
                    let gi = spec_assign(slots, prefix, thr).1;
                    let slots2 = spec_assign(slots, prefix, thr).0;
                    let rest = spec_plan_from(s, i + 1, slots2, planned + 1, toks, o);
                    lemma_assign_wf(slots, prefix, thr);
                    lemma_threshold_from(s, i + 1, slots2, planned + 1, toks, o, p, g);
                    lemma_find_slot(slots, prefix);
                    let i0 = find_slot(slots, prefix);
                    let ev = EntryV {
                        source: rec.path@,
                        prefix: prefix,
                        group: Some(gi),
                        dest: crate::planner::spec_dest(
                            prefix,
                            Some(gi),
                            crate::codec::basename(rec.path@),
                        ),
                    };
                    lemma_count_group_cons(ev, rest.entries, p, g);
                    lemma_find_slot(slots, p);
                    let v = if i0 == -1 {
                        SlotV { prefix: prefix, count: 1, index: 0 }
                    } else if slots[i0].count < thr {
                        SlotV {
                            prefix: prefix,
                            count: slots[i0].count + 1,
                            index: slots[i0].index,
                        }
                    } else {
                        SlotV { prefix: prefix, count: 1, index: slots[i0].index + 1 }
                    };
                    let at = if i0 == -1 {
                        slots.len() as int
                    } else {
                        i0
                    };
                    assert(slots2.len() == slots.len() + (if i0 == -1 {
                        1int
                    } else {
                        0int
                    }));
                    assert(slots2[at] =~~= v);
                    assert(forall|k: int|
                        0 <= k < slots2.len() && k != at ==> slots2[k] == slots[k]);
                    if prefix == p {
                        assert forall|k: int| 0 <= k < at implies slots2[k].prefix != p by {
                            assert(slots2[k] == slots[k]);
                        }
                        lemma_find_slot_at(slots2, p, at);
                    } else {
                        let j = find_slot(slots, p);
                        if j != -1 {
                            assert(slots[j].prefix == p);
                            assert(j != at);
                            assert(slots2[j] == slots[j]);
                            assert forall|k: int| 0 <= k < j implies slots2[k].prefix != p by {
                                if k == at {
                                    assert(slots2[k].prefix == prefix);
                                } else {
                                    assert(slots2[k] == slots[k]);
                                }
                            }
                            lemma_find_slot_at(slots2, p, j);
                        } else {
                            lemma_find_slot(slots2, p);
                            if find_slot(slots2, p) != -1 {
                                let j2 = find_slot(slots2, p);
                                assert(slots2[j2].prefix == p);
                                if j2 == at {
                                    assert(slots2[j2].prefix == prefix);
                                    assert(false);
                                } else {
                                    assert(slots2[j2] == slots[j2]);
                                    assert(false);
                                }
                            }
                        }
                    }
                }
            },
        }
    }
}

/// Threshold invariant: with grouping enabled, no numbered group directory
/// ever receives more than `threshold` plan entries — for every destination
/// prefix and every group number, over the whole plan of a run.
pub proof fn lemma_threshold_invariant(
    files: Seq<ExtractOutcome>,
    toks: Seq<PatternToken>,
    o: RunOptions,
    p: Seq<u8>,
    g: nat,
)
    requires
        grouping_enabled(o),
    ensures
        count_group(spec_plan(files, toks, o).entries, p, g) <= o.threshold as nat,
{
    let sorted = spec_sort(files, o.case_sensitive);
    assert(slots_wf(Seq::<SlotV>::empty(), o.threshold as nat));
    lemma_threshold_from(sorted, 0, Seq::<SlotV>::empty(), 0, toks, o, p, g);
}

/// Determinism: the plan is a function of the input set, the pattern and
/// the options alone — two runs over equal inputs produce identical plans,
/// destinations and group numbers included.
pub proof fn lemma_plan_deterministic(
    files_a: Seq<ExtractOutcome>,
    files_b: Seq<ExtractOutcome>,
    toks_a: Seq<PatternToken>,
    toks_b: Seq<PatternToken>,
    o_a: RunOptions,
    o_b: RunOptions,
)
    requires
        files_a == files_b,
        toks_a == toks_b,
        o_a == o_b,
    ensures
        spec_plan(files_a, toks_a, o_a) == spec_plan(files_b, toks_b, o_b),
{
}

proof fn lemma_limit_from(
    s: Seq<ExtractOutcome>,
    i: int,
    slots: Seq<SlotV>,
    planned: nat,
    toks: Seq<PatternToken>,
    o: RunOptions,
)
    requires
        o.limit > 0,
    ensures
        planned < o.limit as nat ==> spec_plan_from(s, i, slots, planned, toks, o).entries.len()
            <= o.limit as nat - planned,
        planned >= o.limit as nat ==> spec_plan_from(s, i, slots, planned, toks, o).entries.len()
            == 0,
    decreases s.len() - i,
{
    if i < 0 || i >= s.len() {
    } else {
        match s[i] {
            ExtractOutcome::Failed(_) => {
                lemma_limit_from(s, i + 1, slots, planned, toks, o);
            },
            ExtractOutcome::Good(rec) => {
                if !crate::planner::rec_extract_ok(rec, toks, o) {
                    lemma_limit_from(s, i + 1, slots, planned, toks, o);
                } else if planned >= o.limit as nat {
                    lemma_limit_from(s, i + 1, slots, planned, toks, o);
                } else {
                    let prefix = spec_prefix(rec, toks, o);
                    let slots2 = if grouping_enabled(o) {
                        spec_assign(slots, prefix, o.threshold as nat).0
                    } else {
                        slots
                    };
                    lemma_limit_from(s, i + 1, slots2, planned + 1, toks, o);
                }
            },
        }
    }
}

/// Limit enforcement: with a positive limit, at most `limit` entries are
/// planned; everything beyond is reported as skipped, never planned.
pub proof fn lemma_limit_enforced(
    files: Seq<ExtractOutcome>,
    toks: Seq<PatternToken>,
    o: RunOptions,
)
    requires
        o.limit > 0,
    ensures
        spec_plan(files, toks, o).entries.len() <= o.limit as nat,
{
    lemma_limit_from(spec_sort(files, o.case_sensitive), 0, Seq::<SlotV>::empty(), 0, toks, o);
}

} // verus!
