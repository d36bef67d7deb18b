//! The processing order. Group assignment is stateful, so candidate files
//! are sorted by full source path before planning: byte-lexicographically
//! when case-sensitive, otherwise by the ASCII-folded path with ties between
//! names differing only in case broken toward the byte-larger name, so that
//! toggling case sensitivity observably reorders such names.
use vstd::prelude::*;
use crate::record::{ExtractOutcome, outcome_path, path_of};

verus! {

/// ASCII case folding of one byte: uppercase letters map to lowercase.
pub open spec fn fold_byte(b: u8) -> u8 {
    if 65 <= b && b <= 90 {
        (b + 32) as u8
    } else {
        b
    }
}

/// ASCII case folding of a byte string.
pub open spec fn fold_seq(s: Seq<u8>) -> Seq<u8> {
    s.map_values(|b: u8| fold_byte(b))
}

/// Byte-lexicographic order: `a` comes no later than `b`.
pub open spec fn lex_le(a: Seq<u8>, b: Seq<u8>) -> bool
    decreases a.len(),
{
    if a.len() == 0 {
        true
    } else if b.len() == 0 {
        false
    } else if a[0] < b[0] {
        true
    } else if a[0] > b[0] {
        false
    } else {
        lex_le(a.drop_first(), b.drop_first())
    }
}

/// The sort key order for a run: raw bytes when case-sensitive; otherwise
/// folded bytes, with folded ties broken toward the byte-larger raw path.
pub open spec fn key_le(case_sensitive: bool, a: Seq<u8>, b: Seq<u8>) -> bool {
    if case_sensitive {
        lex_le(a, b)
    } else if fold_seq(a) == fold_seq(b) {
        lex_le(b, a)
    } else {
        lex_le(fold_seq(a), fold_seq(b))
    }
}

/// Byte-lexicographic comparison.
pub fn lex_le_bytes(a: &Vec<u8>, b: &Vec<u8>) -> (r: bool)
    ensures
        r == lex_le(a@, b@),
{
    let mut i: usize = 0;
    proof {
        assert(a@.skip(0) =~= a@);
        assert(b@.skip(0) =~= b@);
    }
    while i < a.len() && i < b.len()
        invariant
            i <= a@.len(),
            i <= b@.len(),
            lex_le(a@, b@) == lex_le(a@.skip(i as int), b@.skip(i as int)),
        decreases a@.len() - i,
    {
        let x = a[i];
        let y = b[i];
        proof {
            let sa = a@.skip(i as int);
            let sb = b@.skip(i as int);
            assert(sa[0] == a@[i as int]);
            assert(sb[0] == b@[i as int]);
            assert(sa.drop_first() =~= a@.skip(i as int + 1));
            assert(sb.drop_first() =~= b@.skip(i as int + 1));
        }
        if x < y {
            return true;
        }
        if x > y {
            return false;
        }
        i = i + 1;
    }
    proof {
        if i >= a@.len() {
            assert(a@.skip(i as int).len() == 0);
        } else {
            assert(b@.skip(i as int).len() == 0);
            assert(a@.skip(i as int).len() > 0);
        }
    }
    a.len() <= b.len()
}

/// ASCII case folding of one byte.
pub fn fold_byte_exec(b: u8) -> (r: u8)
    ensures
        r == fold_byte(b),
{
    if 65 <= b && b <= 90 {
        b + 32
    } else {
        b
    }
}

/// A folded copy of a byte string.
pub fn fold_bytes(src: &Vec<u8>) -> (r: Vec<u8>)
    ensures
        r@ == fold_seq(src@),
{
    let mut r: Vec<u8> = Vec::new();
    let mut i: usize = 0;
    while i < src.len()
        invariant
            i <= src@.len(),
            r@ == fold_seq(src@.take(i as int)),
        decreases src@.len() - i,
    {
        let b = fold_byte_exec(src[i]);
        proof {
            assert(fold_seq(src@.take(i as int + 1)) =~= fold_seq(src@.take(i as int)) + seq![
                fold_byte(src@[i as int]),
            ]);
        }
        r.push(b);
        i = i + 1;
    }
    proof {
        assert(src@.take(src@.len() as int) =~= src@);
    }
    r
}

/// Compares two paths in the run's sort-key order.
pub fn key_le_bytes(case_sensitive: bool, a: &Vec<u8>, b: &Vec<u8>) -> (r: bool)
    ensures
        r == key_le(case_sensitive, a@, b@),
{
    if case_sensitive {
        lex_le_bytes(a, b)
    } else {
        let fa = fold_bytes(a);
        let fb = fold_bytes(b);
        if crate::codec::bytes_eq(&fa, &fb) {
            lex_le_bytes(b, a)
        } else {
            lex_le_bytes(&fa, &fb)
        }
    }
}

/// Where a new element lands in a sorted sequence: after every element whose
/// key comes no later than its own.
pub open spec fn spec_insert(
    x: ExtractOutcome,
    s: Seq<ExtractOutcome>,
    case_sensitive: bool,
) -> Seq<ExtractOutcome>
    decreases s.len(),
{
    if s.len() == 0 {
        seq![x]
    } else if key_le(case_sensitive, outcome_path(s[0]), outcome_path(x)) {
        seq![s[0]] + spec_insert(x, s.drop_first(), case_sensitive)
    } else {
        seq![x] + s
    }
}

/// Insertion sort of the outcomes by source path.
pub open spec fn spec_sort(s: Seq<ExtractOutcome>, case_sensitive: bool) -> Seq<ExtractOutcome>
    decreases s.len(),
{
    if s.len() == 0 {
        s
    } else {
        spec_insert(s.last(), spec_sort(s.drop_last(), case_sensitive), case_sensitive)
    }
}

proof fn lemma_insert_split(
    x: ExtractOutcome,
    s: Seq<ExtractOutcome>,
    case_sensitive: bool,
    j: int,
)
    requires
        0 <= j <= s.len(),
        forall|k: int|
            0 <= k < j ==> key_le(case_sensitive, outcome_path(#[trigger] s[k]), outcome_path(x)),
    ensures
        spec_insert(x, s, case_sensitive) == s.take(j) + spec_insert(
            x,
            s.skip(j),
            case_sensitive,
        ),
    decreases j,
{
    if j == 0 {
        assert(s.take(0) =~= Seq::<ExtractOutcome>::empty());
        assert(s.skip(0) =~= s);
        assert(s.take(0) + spec_insert(x, s, case_sensitive) =~= spec_insert(
            x,
            s,
            case_sensitive,
        ));
    } else {
        assert(key_le(case_sensitive, outcome_path(s[0]), outcome_path(x)));
        lemma_insert_split(x, s.drop_first(), case_sensitive, j - 1);
        assert(s.drop_first().take(j - 1) =~= s.take(j).drop_first());
        assert(s.drop_first().skip(j - 1) =~= s.skip(j));
        assert(seq![s[0]] + (s.drop_first().take(j - 1) + spec_insert(
            x,
            s.skip(j),
            case_sensitive,
        )) =~= s.take(j) + spec_insert(x, s.skip(j), case_sensitive));
    }
}

/// The position a new outcome lands at: after every element whose key comes
/// no later than its own.
fn find_insert_pos(v: &Vec<ExtractOutcome>, x: &ExtractOutcome, case_sensitive: bool) -> (j: usize)
    ensures
        j <= v@.len(),
        forall|k: int|
            0 <= k < j ==> key_le(
                case_sensitive,
                outcome_path(#[trigger] v@[k]),
                outcome_path(*x),
            ),
        j < v@.len() ==> !key_le(case_sensitive, outcome_path(v@[j as int]), outcome_path(*x)),
{
    let mut j: usize = 0;
    while j < v.len()
        invariant
            j <= v@.len(),
            forall|k: int|
                0 <= k < j ==> key_le(
                    case_sensitive,
                    outcome_path(#[trigger] v@[k]),
                    outcome_path(*x),
                ),
        decreases v@.len() - j,
    {
        if !key_le_bytes(case_sensitive, path_of(&v[j]), path_of(x)) {
            return j;
        }
        j = j + 1;
    }
    j
}

/// Inserts one outcome into a run of already-placed outcomes, keeping the
/// key order.
fn insert_sorted(v: &mut Vec<ExtractOutcome>, x: ExtractOutcome, case_sensitive: bool)
    ensures
        final(v)@ == spec_insert(x, old(v)@, case_sensitive),
{
    let ghost s0 = v@;
    let j = find_insert_pos(v, &x, case_sensitive);
    proof {
        lemma_insert_split(x, s0, case_sensitive, j as int);
        if j < s0.len() {
            assert(s0.skip(j as int)[0] == s0[j as int]);
            assert(spec_insert(x, s0.skip(j as int), case_sensitive) == seq![x] + s0.skip(
                j as int,
            ));
        } else {
            assert(s0.skip(j as int).len() == 0);
        }
        assert(s0.insert(j as int, x) =~= s0.take(j as int) + spec_insert(
            x,
            s0.skip(j as int),
            case_sensitive,
        ));
    }
    v.insert(j, x);
}

/// Sorts the outcomes by source path in the run's key order.
pub fn sort_outcomes(files: Vec<ExtractOutcome>, case_sensitive: bool) -> (r: Vec<ExtractOutcome>)
    ensures
        r@ == spec_sort(files@, case_sensitive),
    decreases files@.len(),
{
    let ghost f0 = files@;
    let mut files = files;
    match files.pop() {
        None => {
            proof {
                assert(f0.len() == 0);
            }
            files
        },
        Some(x) => {
            let mut sorted = sort_outcomes(files, case_sensitive);
            insert_sorted(&mut sorted, x, case_sensitive);
            proof {
                assert(f0.drop_last() =~= f0.take(f0.len() - 1));
            }
            sorted
        },
    }
}


/// The outcomes stand in key order.
pub open spec fn sorted_by_key(s: Seq<ExtractOutcome>, case_sensitive: bool) -> bool {
    forall|k1: int, k2: int|
        0 <= k1 < k2 < s.len() ==> key_le(
            case_sensitive,
            outcome_path(#[trigger] s[k1]),
            outcome_path(#[trigger] s[k2]),
        )
}

proof fn lemma_lex_total(a: Seq<u8>, b: Seq<u8>)
    ensures
        lex_le(a, b) || lex_le(b, a),
    decreases a.len(),
{
    if a.len() > 0 && b.len() > 0 && a[0] == b[0] {
        lemma_lex_total(a.drop_first(), b.drop_first());
    }
}

/// The key order is total: of any two paths, one comes no later than the
/// other.
pub proof fn lemma_key_total(case_sensitive: bool, a: Seq<u8>, b: Seq<u8>)
    ensures
        key_le(case_sensitive, a, b) || key_le(case_sensitive, b, a),
{
    if case_sensitive {
        lemma_lex_total(a, b);
    } else if fold_seq(a) == fold_seq(b) {
        lemma_lex_total(a, b);
    } else {
        lemma_lex_total(fold_seq(a), fold_seq(b));
    }
}

proof fn lemma_lex_trans(a: Seq<u8>, b: Seq<u8>, c: Seq<u8>)
    requires
        lex_le(a, b),
        lex_le(b, c),
    ensures
        lex_le(a, c),
    decreases a.len(),
{
    if a.len() > 0 {
        assert(b.len() > 0);
        assert(c.len() > 0);
        if a[0] == b[0] && b[0] == c[0] {
            lemma_lex_trans(a.drop_first(), b.drop_first(), c.drop_first());
        }
    }
}

proof fn lemma_lex_antisym(a: Seq<u8>, b: Seq<u8>)
    requires
        lex_le(a, b),
        lex_le(b, a),
    ensures
        a == b,
    decreases a.len(),
{
    if a.len() == 0 {
        assert(b.len() == 0);
        assert(a =~= b);
    } else {
        assert(b.len() > 0);
        assert(a[0] == b[0]);
        lemma_lex_antisym(a.drop_first(), b.drop_first());
        assert(a.len() == b.len());
        assert forall|k: int| 0 <= k < a.len() implies a[k] == b[k] by {
            if k > 0 {
                assert(a.drop_first()[k - 1] == a[k]);
                assert(b.drop_first()[k - 1] == b[k]);
            }
        }
        assert(a =~= b);
    }
}

/// The key order is transitive.
pub proof fn lemma_key_trans(case_sensitive: bool, a: Seq<u8>, b: Seq<u8>, c: Seq<u8>)
    requires
        key_le(case_sensitive, a, b),
        key_le(case_sensitive, b, c),
    ensures
        key_le(case_sensitive, a, c),
{
    if case_sensitive {
        lemma_lex_trans(a, b, c);
    } else {
        let fa = fold_seq(a);
        let fb = fold_seq(b);
        let fc = fold_seq(c);
        if fa == fb && fb == fc {
            lemma_lex_trans(c, b, a);
        } else if fa != fb && fb != fc {
            lemma_lex_trans(fa, fb, fc);
            if fa == fc {
                lemma_lex_antisym(fa, fb);
                assert(false);
            }
        }
    }
}

proof fn lemma_insert_sorted_keeps(x: ExtractOutcome, s: Seq<ExtractOutcome>, case_sensitive: bool)
    requires
        sorted_by_key(s, case_sensitive),
    ensures
        sorted_by_key(spec_insert(x, s, case_sensitive), case_sensitive),
        forall|k: int|
            0 <= k < spec_insert(x, s, case_sensitive).len() ==> spec_insert(
                x,
                s,
                case_sensitive,
            )[k] == x || s.contains(#[trigger] spec_insert(x, s, case_sensitive)[k]),
    decreases s.len(),
{
    let r = spec_insert(x, s, case_sensitive);
    if s.len() == 0 {
        assert(r =~= seq![x]);
    } else if key_le(case_sensitive, outcome_path(s[0]), outcome_path(x)) {
        let sd = s.drop_first();
        let ri = spec_insert(x, sd, case_sensitive);
        assert forall|k1: int, k2: int| 0 <= k1 < k2 < sd.len() implies key_le(
            case_sensitive,
            outcome_path(#[trigger] sd[k1]),
            outcome_path(#[trigger] sd[k2]),
        ) by {
            assert(sd[k1] == s[k1 + 1] && sd[k2] == s[k2 + 1]);
        }
        lemma_insert_sorted_keeps(x, sd, case_sensitive);
        assert(r == seq![s[0]] + ri);
        assert forall|k: int| 0 <= k < r.len() implies r[k] == x || s.contains(
            #[trigger] r[k],
        ) by {
            if k == 0 {
                assert(r[0] == s[0]);
                assert(s.contains(r[0])) by {
                    assert(s[0] == r[0]);
                }
            } else {
                assert(r[k] == ri[k - 1]);
                if ri[k - 1] != x {
                    assert(sd.contains(ri[k - 1]));
                    let j = choose|j: int| 0 <= j < sd.len() && sd[j] == ri[k - 1];
                    assert(s[j + 1] == ri[k - 1]);
                    assert(s.contains(r[k])) by {
                        assert(s[j + 1] == r[k]);
                    }
                }
            }
        }
        assert forall|k1: int, k2: int| 0 <= k1 < k2 < r.len() implies key_le(
            case_sensitive,
            outcome_path(#[trigger] r[k1]),
            outcome_path(#[trigger] r[k2]),
        ) by {
            if k1 == 0 {
                assert(r[k2] == ri[k2 - 1]);
                if ri[k2 - 1] == x {
                    assert(key_le(case_sensitive, outcome_path(s[0]), outcome_path(x)));
                } else {
                    assert(sd.contains(ri[k2 - 1]));
                    let j = choose|j: int| 0 <= j < sd.len() && sd[j] == ri[k2 - 1];
                    assert(sd[j] == s[j + 1]);
                    assert(key_le(case_sensitive, outcome_path(s[0]), outcome_path(s[j + 1])));
                }
            } else {
                assert(r[k1] == ri[k1 - 1] && r[k2] == ri[k2 - 1]);
            }
        }
    } else {
        lemma_key_total(case_sensitive, outcome_path(s[0]), outcome_path(x));
        assert(key_le(case_sensitive, outcome_path(x), outcome_path(s[0])));
        assert(r == seq![x] + s);
        assert forall|k1: int, k2: int| 0 <= k1 < k2 < r.len() implies key_le(
            case_sensitive,
            outcome_path(#[trigger] r[k1]),
            outcome_path(#[trigger] r[k2]),
        ) by {
            if k1 == 0 {
                assert(r[k2] == s[k2 - 1]);
                if k2 == 1 {
                } else {
                    assert(key_le(
                        case_sensitive,
                        outcome_path(s[0]),
                        outcome_path(s[k2 - 1]),
                    ));
                    lemma_key_trans(
                        case_sensitive,
                        outcome_path(x),
                        outcome_path(s[0]),
                        outcome_path(s[k2 - 1]),
                    );
                }
            } else {
                assert(r[k1] == s[k1 - 1] && r[k2] == s[k2 - 1]);
            }
        }
        assert forall|k: int| 0 <= k < r.len() implies r[k] == x || s.contains(
            #[trigger] r[k],
        ) by {
            if k > 0 {
                assert(s[k - 1] == r[k]);
            }
        }
    }
}

proof fn lemma_insert_multiset(x: ExtractOutcome, s: Seq<ExtractOutcome>, case_sensitive: bool)
    ensures
        spec_insert(x, s, case_sensitive).to_multiset() =~= s.to_multiset().insert(x),
    decreases s.len(),
{
    broadcast use vstd::seq_lib::group_to_multiset_ensures;

    let r = spec_insert(x, s, case_sensitive);
    if s.len() == 0 {
        assert(r =~= Seq::<ExtractOutcome>::empty().push(x));
        assert(s =~= Seq::<ExtractOutcome>::empty());
    } else if key_le(case_sensitive, outcome_path(s[0]), outcome_path(x)) {
        let sd = s.drop_first();
        let ri = spec_insert(x, sd, case_sensitive);
        lemma_insert_multiset(x, sd, case_sensitive);
        assert(r == seq![s[0]] + ri);
        assert(r.remove(0) =~= ri);
        assert(r[0] == s[0]);
        assert(r.remove(0).to_multiset() =~= r.to_multiset().remove(s[0]));
        assert(r.contains(s[0])) by {
            assert(r[0] == s[0]);
        }
        assert(r.to_multiset().count(s[0]) > 0);
        assert(r.to_multiset() =~= ri.to_multiset().insert(s[0]));
        assert(s.remove(0) =~= sd);
        assert(s.remove(0).to_multiset() =~= s.to_multiset().remove(s[0]));
        assert(s.contains(s[0])) by {
            assert(s[0] == s[0]);
        }
        assert(s.to_multiset().count(s[0]) > 0);
        assert(s.to_multiset() =~= sd.to_multiset().insert(s[0]));
        assert(ri.to_multiset() =~= sd.to_multiset().insert(x));
        assert(r.to_multiset() =~= sd.to_multiset().insert(x).insert(s[0]));
        assert(sd.to_multiset().insert(x).insert(s[0]) =~= sd.to_multiset().insert(s[0]).insert(
            x,
        ));
    } else {
        assert(r == seq![x] + s);
        assert(r.remove(0) =~= s);
        assert(r[0] == x);
        assert(r.remove(0).to_multiset() =~= r.to_multiset().remove(x));
        assert(r.contains(x)) by {
            assert(r[0] == x);
        }
        assert(r.to_multiset().count(x) > 0);
        assert(r.to_multiset() =~= s.to_multiset().insert(x));
    }
}

/// The sort is correct: its result stands in key order and holds exactly the
/// input outcomes, multiplicity included. Together with the key order being
/// total and transitive, this is what makes group assignment reproducible.
pub proof fn lemma_sort_correct(s: Seq<ExtractOutcome>, case_sensitive: bool)
    ensures
        sorted_by_key(spec_sort(s, case_sensitive), case_sensitive),
        spec_sort(s, case_sensitive).to_multiset() =~= s.to_multiset(),
    decreases s.len(),
{
    broadcast use vstd::seq_lib::group_to_multiset_ensures;

    if s.len() == 0 {
    } else {
        let sd = s.drop_last();
        let sorted_sd = spec_sort(sd, case_sensitive);
        lemma_sort_correct(sd, case_sensitive);
        lemma_insert_sorted_keeps(s.last(), sorted_sd, case_sensitive);
        lemma_insert_multiset(s.last(), sorted_sd, case_sensitive);
        assert(s =~= sd.push(s.last()));
        assert(sd.push(s.last()).to_multiset() =~= sd.to_multiset().insert(s.last()));
        assert(spec_sort(s, case_sensitive).to_multiset() =~= sorted_sd.to_multiset().insert(
            s.last(),
        ));
    }
}

} // verus!
