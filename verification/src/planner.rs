//! The path planner. Candidate files are sorted by source path, then each
//! file in order is either planned (its destination composed from the
//! expanded pattern, the hash-split segment, the numbered group directory
//! and its own filename), skipped once the processing limit is reached, or
//! recorded as failed. The whole plan is a function of the input set and
//! the options alone.
use vstd::prelude::*;
use crate::codec::{join, basename, dec_of, hex_of, join_path, path_basename, clone_bytes,
    hash_segment, push_dec};
use crate::group::{GroupCounter, SlotV, spec_assign, lemma_assign_loads};
use crate::order::{spec_sort, sort_outcomes};
use crate::pattern::{Pattern, PatternToken, count_hash, spec_expand, expand};
use crate::record::{FileRecord, ExtractOutcome};
use vstd::pervasive::unreached;

verus! {

/// A SHA-1 digest is 20 bytes, so its hex encoding is 40 characters; the
/// hash-split length can be at most this.
pub const DIGEST_HEX_LEN: usize = 40;

/// The immutable options of one run.
#[derive(Clone, Copy, PartialEq, Eq, Structural, Debug)]
pub struct RunOptions {
    /// Max files per numbered group directory; 0 disables grouping.
    pub threshold: usize,
    /// Cap on files planned; 0 means unlimited.
    pub limit: usize,
    /// How many hex characters of the digest form the hash-split segment.
    pub hash_split: usize,
    /// Report only, never mutate.
    pub dry_run: bool,
    /// Leave out the numbered group directory entirely.
    pub disable_group_dir: bool,
    /// Sort source paths case-sensitively.
    pub case_sensitive: bool,
    /// Verbosity of the surrounding tool; the planner ignores it.
    pub verbosity: usize,
}

/// Grouping is on when a positive threshold is set and the group directory
/// is not disabled.
pub open spec fn grouping_enabled(o: RunOptions) -> bool {
    o.threshold >= 1 && !o.disable_group_dir
}

/// A fatal startup error: the requested hash-split length cannot be cut from
/// the digest.
#[derive(Clone, Copy, PartialEq, Eq, Structural, Debug)]
pub enum ConfigError {
    BadHashSplit { given: usize, digest_hex_len: usize },
}

/// The configuration is sound: when the pattern asks for a hash split, the
/// split length is positive and within the digest's hex length.
pub open spec fn spec_config_ok(toks: Seq<PatternToken>, o: RunOptions) -> bool {
    count_hash(toks) >= 1 ==> 1 <= o.hash_split <= DIGEST_HEX_LEN
}

/// Startup validation, before any file is touched.
pub fn validate_options(pattern: &Pattern, opts: &RunOptions) -> (r: Result<(), ConfigError>)
    requires
        pattern.wf(),
    ensures
        r is Ok <==> spec_config_ok(pattern@, *opts),
        r is Err ==> r->Err_0 == (ConfigError::BadHashSplit {
            given: opts.hash_split,
            digest_hex_len: DIGEST_HEX_LEN,
        }),
{
    if pattern.has_hash && (opts.hash_split < 1 || opts.hash_split > DIGEST_HEX_LEN) {
        Err(ConfigError::BadHashSplit { given: opts.hash_split, digest_hex_len: DIGEST_HEX_LEN })
    } else {
        Ok(())
    }
}

/// One planned move: where a source file goes, through which prefix, and in
/// which numbered group (absent when grouping is disabled).
pub struct PlanEntry {
    pub source: Vec<u8>,
    pub prefix: Vec<u8>,
    pub group: Option<usize>,
    pub dest: Vec<u8>,
}

/// The mathematical image of one plan entry.
#[verifier::ext_equal]
pub ghost struct EntryV {
    pub source: Seq<u8>,
    pub prefix: Seq<u8>,
    pub group: Option<nat>,
    pub dest: Seq<u8>,
}

impl View for PlanEntry {
    type V = EntryV;

    open spec fn view(&self) -> EntryV {
        EntryV {
            source: self.source@,
            prefix: self.prefix@,
            group: match self.group {
                Some(g) => Some(g as nat),
                None => None,
            },
            dest: self.dest@,
        }
    }
}

/// The whole plan of a run: entries to execute, paths skipped because the
/// limit was reached, and paths whose extraction failed.
pub struct Plan {
    pub entries: Vec<PlanEntry>,
    pub skipped: Vec<Vec<u8>>,
    pub failed: Vec<Vec<u8>>,
}

/// The mathematical image of a plan.
#[verifier::ext_equal]
pub ghost struct PlanV {
    pub entries: Seq<EntryV>,
    pub skipped: Seq<Seq<u8>>,
    pub failed: Seq<Seq<u8>>,
}

/// The views of a sequence of byte strings.
pub open spec fn views_of(vs: Seq<Vec<u8>>) -> Seq<Seq<u8>> {
    vs.map_values(|b: Vec<u8>| b@)
}

/// The views of a sequence of plan entries.
pub open spec fn entry_views(es: Seq<PlanEntry>) -> Seq<EntryV> {
    es.map_values(|e: PlanEntry| e@)
}

impl View for Plan {
    type V = PlanV;

    open spec fn view(&self) -> PlanV {
        PlanV {
            entries: entry_views(self.entries@),
            skipped: views_of(self.skipped@),
            failed: views_of(self.failed@),
        }
    }
}

/// A record can be planned: when the pattern asks for a hash split, the
/// digest is there and long enough for the requested segment.
pub open spec fn rec_extract_ok(rec: FileRecord, toks: Seq<PatternToken>, o: RunOptions) -> bool {
    count_hash(toks) >= 1 ==> (rec.digest is Some && o.hash_split <= 2 * rec.digest->0@.len())
}

/// The hash-split segment of a record: the first `hash_split` characters of
/// the digest's hex encoding, or empty when the pattern has no hash split.
pub open spec fn spec_hash_seg(rec: FileRecord, toks: Seq<PatternToken>, o: RunOptions) -> Seq<
    u8,
> {
    if count_hash(toks) >= 1 {
        hex_of(rec.digest->0@).take(o.hash_split as int)
    } else {
        Seq::empty()
    }
}

/// The destination prefix of a record: its root joined with the expanded
/// pattern.
pub open spec fn spec_prefix(rec: FileRecord, toks: Seq<PatternToken>, o: RunOptions) -> Seq<u8> {
    join(rec.root@, spec_expand(toks, rec.year, rec.month, rec.day, spec_hash_seg(rec, toks, o)))
}

/// The full destination of an entry: prefix, then the numbered group
/// directory when grouping is on, then the unaltered filename.
pub open spec fn spec_dest(prefix: Seq<u8>, group: Option<nat>, filename: Seq<u8>) -> Seq<u8> {
    match group {
        Some(g) => join(join(prefix, dec_of(g)), filename),
        None => join(prefix, filename),
    }
}

/// What planning does from position `i` of the sorted outcomes on, with the
/// counter state `slots` and `planned` files already planned.
pub open spec fn spec_plan_from(
    s: Seq<ExtractOutcome>,
    i: int,
    slots: Seq<SlotV>,
    planned: nat,
    toks: Seq<PatternToken>,
    o: RunOptions,
) -> PlanV
    decreases s.len() - i,
{
    if i < 0 || i >= s.len() {
        PlanV { entries: Seq::empty(), skipped: Seq::empty(), failed: Seq::empty() }
    } else {
        match s[i] {
            ExtractOutcome::Failed(p) => {
                let rest = spec_plan_from(s, i + 1, slots, planned, toks, o);
                PlanV {
                    entries: rest.entries,
                    skipped: rest.skipped,
                    failed: seq![p@] + rest.failed,
                }
            },
            ExtractOutcome::Good(rec) => {
                if !rec_extract_ok(rec, toks, o) {
                    let rest = spec_plan_from(s, i + 1, slots, planned, toks, o);
                    PlanV {
                        entries: rest.entries,
                        skipped: rest.skipped,
                        failed: seq![rec.path@] + rest.failed,
                    }
                } else if o.limit > 0 && planned >= o.limit as nat {
                    let rest = spec_plan_from(s, i + 1, slots, planned, toks, o);
                    PlanV {
                        entries: rest.entries,
                        skipped: seq![rec.path@] + rest.skipped,
                        failed: rest.failed,
                    }
                } else {
                    let prefix = spec_prefix(rec, toks, o);
                    let group = if grouping_enabled(o) {
                        Some(spec_assign(slots, prefix, o.threshold as nat).1)
                    } else {
                        None
                    };
                    let slots2 = if grouping_enabled(o) {
                        spec_assign(slots, prefix, o.threshold as nat).0
                    } else {
                        slots
                    };
                    let entry = EntryV {
                        source: rec.path@,
                        prefix: prefix,
                        group: group,
                        dest: spec_dest(prefix, group, basename(rec.path@)),
                    };
                    let rest = spec_plan_from(s, i + 1, slots2, planned + 1, toks, o);
                    PlanV {
                        entries: seq![entry] + rest.entries,
                        skipped: rest.skipped,
                        failed: rest.failed,
                    }
                }
            },
        }
    }
}

/// The plan of a whole run: sort, then plan in order from a fresh counter.
pub open spec fn spec_plan(
    files: Seq<ExtractOutcome>,
    toks: Seq<PatternToken>,
    o: RunOptions,
) -> PlanV {
    spec_plan_from(spec_sort(files, o.case_sensitive), 0, Seq::empty(), 0, toks, o)
}

/// Plans a run: sorts the outcomes by source path and walks them once,
/// producing for each either a plan entry, a skipped-by-limit note, or a
/// failed-extraction note. The result is exactly `spec_plan` of the inputs.
#[verifier::loop_isolation(false)]
pub fn plan_files(files: Vec<ExtractOutcome>, pattern: &Pattern, opts: &RunOptions) -> (r: Plan)
    requires
        pattern.wf(),
    ensures
        r@ == spec_plan(files@, pattern@, *opts),
{
    let ghost filesv = files@;
    let ghost toks = pattern@;
    let ghost o = *opts;
    let sorted = sort_outcomes(files, opts.case_sensitive);
    let thr_init: usize = if opts.threshold >= 1 {
        opts.threshold
    } else {
        1
    };
    let mut counter = GroupCounter::new(thr_init);
    let mut entries: Vec<PlanEntry> = Vec::new();
    let mut skipped: Vec<Vec<u8>> = Vec::new();
    let mut failed: Vec<Vec<u8>> = Vec::new();
    let mut planned: usize = 0;
    let mut i: usize = 0;
    let n = sorted.len();
    proof {
        assert(entry_views(entries@) =~= Seq::<EntryV>::empty());
        assert(views_of(skipped@) =~= Seq::<Seq<u8>>::empty());
        assert(views_of(failed@) =~= Seq::<Seq<u8>>::empty());
    }
    while i < n
        invariant
            i <= n,
            n == sorted@.len(),
            planned <= i,
            counter.wf(),
            counter.threshold == thr_init,
            forall|k: int|
                0 <= k < counter@.len() ==> #[trigger] counter@[k].index + counter@[k].count
                    <= planned,
            spec_plan(filesv, toks, o) == (PlanV {
                entries: entry_views(entries@) + spec_plan_from(
                    sorted@,
                    i as int,
                    counter@,
                    planned as nat,
                    toks,
                    o,
                ).entries,
                skipped: views_of(skipped@) + spec_plan_from(
                    sorted@,
                    i as int,
                    counter@,
                    planned as nat,
                    toks,
                    o,
                ).skipped,
                failed: views_of(failed@) + spec_plan_from(
                    sorted@,
                    i as int,
                    counter@,
                    planned as nat,
                    toks,
                    o,
                ).failed,
            }),
        decreases n - i,
    {
        let ghost cv0 = counter@;
        let ghost pl0 = planned as nat;
        let ghost rest0 = spec_plan_from(sorted@, i as int, cv0, pl0, toks, o);
        let ghost rest1 = spec_plan_from(sorted@, i as int + 1, cv0, pl0, toks, o);
        match &sorted[i] {
            ExtractOutcome::Failed(p) => {
                proof {
                    assert(sorted@[i as int] == ExtractOutcome::Failed(*p));
                    assert(rest0 == PlanV {
                        entries: rest1.entries,
                        skipped: rest1.skipped,
                        failed: seq![p@] + rest1.failed,
                    });
                }
                let copy = clone_bytes(p);
                let ghost fv0 = views_of(failed@);
                failed.push(copy);
                proof {
                    assert(views_of(failed@) =~= fv0 + seq![p@]);
                    assert(fv0 + seq![p@] + rest1.failed =~= fv0 + (seq![p@] + rest1.failed));
                }
            },
            ExtractOutcome::Good(rec) => {
                proof {
                    assert(sorted@[i as int] == ExtractOutcome::Good(*rec));
                }
                let extract_ok: bool = if pattern.has_hash {
                    match &rec.digest {
                        Some(d) => d.len() >= opts.hash_split / 2 + opts.hash_split % 2,
                        None => false,
                    }
                } else {
                    true
                };
                proof {
                    assert(extract_ok == rec_extract_ok(*rec, toks, o));
                }
                if !extract_ok {
                    proof {
                        assert(rest0 == PlanV {
                            entries: rest1.entries,
                            skipped: rest1.skipped,
                            failed: seq![rec.path@] + rest1.failed,
                        });
                    }
                    let copy = clone_bytes(&rec.path);
                    let ghost fv0 = views_of(failed@);
                    failed.push(copy);
                    proof {
                        assert(views_of(failed@) =~= fv0 + seq![rec.path@]);
                        assert(fv0 + seq![rec.path@] + rest1.failed =~= fv0 + (seq![rec.path@]
                            + rest1.failed));
                    }
                } else if opts.limit > 0 && planned >= opts.limit {
                    proof {
                        assert(rest0 == PlanV {
                            entries: rest1.entries,
                            skipped: seq![rec.path@] + rest1.skipped,
                            failed: rest1.failed,
                        });
                    }
                    let copy = clone_bytes(&rec.path);
                    let ghost sv0 = views_of(skipped@);
                    skipped.push(copy);
                    proof {
                        assert(views_of(skipped@) =~= sv0 + seq![rec.path@]);
                        assert(sv0 + seq![rec.path@] + rest1.skipped =~= sv0 + (seq![rec.path@]
                            + rest1.skipped));
                    }
                } else {
                    let seg: Vec<u8> = if pattern.has_hash {
                        match &rec.digest {
                            Some(d) => hash_segment(d, opts.hash_split),
                            None => unreached(),
                        }
                    } else {
                        Vec::new()
                    };
                    proof {
                        assert(seg@ == spec_hash_seg(*rec, toks, o));
                    }
                    let expanded = expand(pattern, rec.year, rec.month, rec.day, &seg);
                    let prefix = join_path(&rec.root, &expanded);
                    proof {
                        assert(prefix@ == spec_prefix(*rec, toks, o));
                    }
                    let filename = path_basename(&rec.path);
                    let grouping: bool = opts.threshold >= 1 && !opts.disable_group_dir;
                    proof {
                        assert(grouping == grouping_enabled(o));
                        if grouping {
                            assert(counter.threshold == o.threshold);
                        }
                    }
                    let group_idx: Option<usize> = if grouping {
                        proof {
                            lemma_assign_loads(cv0, prefix@, o.threshold as nat, pl0);
                        }
                        Some(counter.assign(&prefix))
                    } else {
                        None
                    };
                    let ghost groupv: Option<nat> = match group_idx {
                        Some(g) => Some(g as nat),
                        None => None,
                    };
                    proof {
                        if grouping {
                            assert(groupv == Some(
                                spec_assign(cv0, prefix@, o.threshold as nat).1,
                            ));
                            assert(counter@ == spec_assign(cv0, prefix@, o.threshold as nat).0);
                        } else {
                            assert(counter@ == cv0);
                        }
                    }
                    let dest: Vec<u8> = match &group_idx {
                        Some(g) => {
                            let mut gd: Vec<u8> = Vec::new();
                            push_dec(*g as u64, &mut gd);
                            proof {
                                assert(Seq::<u8>::empty() + dec_of(*g as nat) =~= dec_of(
                                    *g as nat,
                                ));
                            }
                            let d1 = join_path(&prefix, &gd);
                            join_path(&d1, &filename)
                        },
                        None => join_path(&prefix, &filename),
                    };
                    proof {
                        assert(dest@ == spec_dest(prefix@, groupv, basename(rec.path@)));
                    }
                    let source = clone_bytes(&rec.path);
                    let ghost ev0 = entry_views(entries@);
                    let ghost entryv = EntryV {
                        source: rec.path@,
                        prefix: prefix@,
                        group: groupv,
                        dest: spec_dest(prefix@, groupv, basename(rec.path@)),
                    };
                    proof {
                        assert(rest0 == PlanV {
                            entries: seq![entryv] + spec_plan_from(
                                sorted@,
                                i as int + 1,
                                counter@,
                                pl0 + 1,
                                toks,
                                o,
                            ).entries,
                            skipped: spec_plan_from(
                                sorted@,
                                i as int + 1,
                                counter@,
                                pl0 + 1,
                                toks,
                                o,
                            ).skipped,
                            failed: spec_plan_from(
                                sorted@,
                                i as int + 1,
                                counter@,
                                pl0 + 1,
                                toks,
                                o,
                            ).failed,
                        });
                    }
                    let entry = PlanEntry { source, prefix, group: group_idx, dest };
                    proof {
                        assert(entry@ =~~= entryv);
                    }
                    entries.push(entry);
                    planned = planned + 1;
                    proof {
                        let restn = spec_plan_from(
                            sorted@,
                            i as int + 1,
                            counter@,
                            planned as nat,
                            toks,
                            o,
                        );
                        assert(entry_views(entries@) =~= ev0 + seq![entryv]);
                        assert(ev0 + seq![entryv] + restn.entries =~= ev0 + (seq![entryv]
                            + restn.entries));
                    }
                }
            },
        }
        i = i + 1;
    }
    proof {
        assert(spec_plan_from(sorted@, n as int, counter@, planned as nat, toks, o) == (PlanV {
            entries: Seq::<EntryV>::empty(),
            skipped: Seq::<Seq<u8>>::empty(),
            failed: Seq::<Seq<u8>>::empty(),
        }));
        assert(entry_views(entries@) + Seq::<EntryV>::empty() =~= entry_views(entries@));
        assert(views_of(skipped@) + Seq::<Seq<u8>>::empty() =~= views_of(skipped@));
        assert(views_of(failed@) + Seq::<Seq<u8>>::empty() =~= views_of(failed@));
    }
    Plan { entries, skipped, failed }
}

} // verus!
