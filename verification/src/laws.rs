//! The aggregation's governing properties, proved over the ghost model
//! of `stats`: hardlinks count once, the grand total is the exact sum
//! of the owners' totals, and the final statistics do not depend on the
//! order in which a tree's entries were visited.

use vstd::prelude::*;
use vstd::seq_lib::group_to_multiset_ensures;
use crate::wrap::add64;
use crate::stats::{
    RecView, UserView, file_id, lemma_file_id_injective, chosen_size, lookup, step, run, sum64,
};

verus! {

broadcast use group_to_multiset_ensures;

/// The element-wise sum of a sequence, in unbounded integers.
pub open spec fn sum_int(s: Seq<u64>) -> int
    decreases s.len(),
{
    if s.len() == 0 {
        0
    } else {
        sum_int(s.drop_last()) + s.last()
    }
}

proof fn lemma_sum_int_nonneg(s: Seq<u64>)
    ensures
        sum_int(s) >= 0,
    decreases s.len(),
{
    if s.len() > 0 {
        lemma_sum_int_nonneg(s.drop_last());
    }
}

/// Wherever the mathematical sum of the owners' counters fits in 64
/// bits, the wrapping sum the grand total uses equals it exactly: the
/// total row really is the sum of the owner rows.
pub proof fn lemma_sum64_exact(s: Seq<u64>)
    requires
        sum_int(s) <= u64::MAX,
    ensures
        sum64(s) == sum_int(s),
    decreases s.len(),
{
    if s.len() > 0 {
        lemma_sum_int_nonneg(s.drop_last());
        lemma_sum64_exact(s.drop_last());
    }
}

/// One owner's statistics are internally consistent: the identity set
/// is finite and the file count is its size, modulo 2^64 as the
/// counter wraps; below 2^64 distinct files the two agree exactly.
pub open spec fn user_inv(u: UserView) -> bool {
    u.files.finite() && u.n_files == (u.files.len() % 0x1_0000_0000_0000_0000) as u64
}

/// [`user_inv`] holds of every owner the map knows.
pub open spec fn seen_inv(m: Map<u32, UserView>) -> bool {
    forall|uid: u32| m.contains_key(uid) ==> #[trigger] user_inv(m[uid])
}

proof fn lemma_step_preserves_seen_inv(m: Map<u32, UserView>, r: RecView, apparent_size: bool)
    requires
        seen_inv(m),
    ensures
        seen_inv(step(m, r, apparent_size)),
{
    broadcast use vstd::set::group_set_axioms;

    let mm = 0x1_0000_0000_0000_0000int;
    let u = lookup(m, r.uid);
    let id = file_id(r.dev, r.ino);
    if m.contains_key(r.uid) {
        assert(user_inv(m[r.uid]));
    }
    if !u.files.contains(id) {
        let a = u.files.len() as int;
        assert(u.files.insert(id).len() == a + 1);
        assert(add64(u.n_files, 1) == ((a + 1) % mm) as u64) by {
            vstd::arithmetic::div_mod::lemma_add_mod_noop(a, 1, mm);
            if a % mm == mm - 1 {
                assert((a % mm + 1) % mm == 0);
            } else {
                vstd::arithmetic::div_mod::lemma_small_mod((a % mm + 1) as nat, mm as nat);
            }
        }
    }
    assert forall|uid: u32| step(m, r, apparent_size).contains_key(uid) implies user_inv(
        #[trigger] step(m, r, apparent_size)[uid],
    ) by {
        if uid != r.uid {
            assert(user_inv(m[uid]));
        }
    }
}

/// The data-model invariant of the aggregation: starting from owners
/// whose file counts match their identity sets, every traversal leaves
/// every owner that way — `seen` and `file_count` never drift apart.
pub proof fn lemma_seen_matches_file_count(
    m: Map<u32, UserView>,
    s: Seq<RecView>,
    apparent_size: bool,
)
    requires
        seen_inv(m),
    ensures
        seen_inv(run(m, s, apparent_size)),
    decreases s.len(),
{
    if s.len() > 0 {
        lemma_seen_matches_file_count(m, s.drop_last(), apparent_size);
        lemma_step_preserves_seen_inv(run(m, s.drop_last(), apparent_size), s.last(), apparent_size);
    }
}

/// `b` records the same filesystem object as `a` only with the same
/// sizes: what one traversal of an unchanged tree always yields.
pub open spec fn compat(a: RecView, b: RecView) -> bool {
    (a.dev == b.dev && a.ino == b.ino) ==> (a.len == b.len && a.blocks == b.blocks)
}

/// Every pair of records in `s` is consistent: one identity, one size.
pub open spec fn coherent(s: Seq<RecView>) -> bool {
    forall|x: RecView, y: RecView| #![trigger s.contains(x), s.contains(y)]
        s.contains(x) && s.contains(y) ==> compat(x, y)
}

/// Records of one object: same owner, identity and sizes as `r0`.
pub open spec fn same_link(a: RecView, r0: RecView) -> bool {
    a.uid == r0.uid && a.dev == r0.dev && a.ino == r0.ino && a.len == r0.len && a.blocks
        == r0.blocks
}

/// Every record in `s` is a hardlink of the object `r0` describes.
pub open spec fn all_links_of(s: Seq<RecView>, r0: RecView) -> bool {
    forall|k: int| 0 <= k < s.len() ==> #[trigger] same_link(s[k], r0)
}

/// Hardlinks count once.  Visiting an object with `N = s.len()`
/// hardlinks (N >= 1), all owned by `r0.uid` and not yet counted for
/// that owner, adds to that owner exactly one file, N - 1 links and one
/// chosen size, whatever the order of the links; no other owner moves.
pub proof fn lemma_hardlink_counting(
    m: Map<u32, UserView>,
    s: Seq<RecView>,
    r0: RecView,
    apparent_size: bool,
)
    requires
        s.len() >= 1,
        all_links_of(s, r0),
        !lookup(m, r0.uid).files.contains(file_id(r0.dev, r0.ino)),
        lookup(m, r0.uid).n_files < u64::MAX,
        lookup(m, r0.uid).n_links + s.len() - 1 <= u64::MAX,
        lookup(m, r0.uid).n_bytes + chosen_size(r0, apparent_size) <= u64::MAX,
    ensures
        run(m, s, apparent_size) == m.insert(
            r0.uid,
            (UserView {
                n_files: (lookup(m, r0.uid).n_files + 1) as u64,
                n_links: (lookup(m, r0.uid).n_links + s.len() - 1) as u64,
                n_bytes: (lookup(m, r0.uid).n_bytes + chosen_size(r0, apparent_size)) as u64,
                files: lookup(m, r0.uid).files.insert(file_id(r0.dev, r0.ino)),
            }),
        ),
    decreases s.len(),
{
    let u = lookup(m, r0.uid);
    let id = file_id(r0.dev, r0.ino);
    if s.len() == 1 {
        assert(same_link(s[0], r0));
        assert(chosen_size(s[0], apparent_size) == chosen_size(r0, apparent_size));
        assert(s.drop_last().len() == 0);
        assert(run(m, s.drop_last(), apparent_size) == m);
        assert(s.last() == s[0]);
        assert(run(m, s, apparent_size) == step(m, s[0], apparent_size));
        assert(file_id(s[0].dev, s[0].ino) == id);
        assert(run(m, s, apparent_size) =~~= m.insert(
            r0.uid,
            (UserView {
                n_files: (u.n_files + 1) as u64,
                n_links: (u.n_links + s.len() - 1) as u64,
                n_bytes: (u.n_bytes + chosen_size(r0, apparent_size)) as u64,
                files: u.files.insert(id),
            }),
        ));
    } else {
        let dl = s.drop_last();
        assert(all_links_of(dl, r0)) by {
            assert(forall|k: int| 0 <= k < dl.len() ==> dl[k] == s[k] && #[trigger] same_link(
                s[k],
                r0,
            ));
        }
        lemma_hardlink_counting(m, dl, r0, apparent_size);
        let prev = run(m, dl, apparent_size);
        assert(same_link(s.last(), r0));
        assert(lookup(prev, r0.uid).files.contains(id));
        assert(run(m, s, apparent_size) =~~= m.insert(
            r0.uid,
            (UserView {
                n_files: (u.n_files + 1) as u64,
                n_links: (u.n_links + s.len() - 1) as u64,
                n_bytes: (u.n_bytes + chosen_size(r0, apparent_size)) as u64,
                files: u.files.insert(id),
            }),
        ));
    }
}

proof fn lemma_step_commute(m: Map<u32, UserView>, a: RecView, b: RecView, apparent_size: bool)
    requires
        compat(a, b),
        compat(b, a),
    ensures
        step(step(m, a, apparent_size), b, apparent_size) == step(
            step(m, b, apparent_size),
            a,
            apparent_size,
        ),
{
    if a.dev == b.dev && a.ino == b.ino {
        assert(step(step(m, a, apparent_size), b, apparent_size) =~~= step(
            step(m, b, apparent_size),
            a,
            apparent_size,
        ));
    } else {
        assert(file_id(a.dev, a.ino) != file_id(b.dev, b.ino)) by {
            if file_id(a.dev, a.ino) == file_id(b.dev, b.ino) {
                lemma_file_id_injective(a.dev, a.ino, b.dev, b.ino);
            }
        }
        assert(step(step(m, a, apparent_size), b, apparent_size) =~~= step(
            step(m, b, apparent_size),
            a,
            apparent_size,
        ));
    }
}

proof fn lemma_run_commute_one(
    m: Map<u32, UserView>,
    s: Seq<RecView>,
    a: RecView,
    apparent_size: bool,
)
    requires
        forall|x: RecView| #[trigger] s.contains(x) ==> compat(a, x) && compat(x, a),
    ensures
        run(step(m, a, apparent_size), s, apparent_size) == step(
            run(m, s, apparent_size),
            a,
            apparent_size,
        ),
    decreases s.len(),
{
    if s.len() > 0 {
        let dl = s.drop_last();
        assert forall|x: RecView| #[trigger] dl.contains(x) implies s.contains(x) by {
            let k = choose|k: int| 0 <= k < dl.len() && dl[k] == x;
            assert(s[k] == x);
        }
        lemma_run_commute_one(m, dl, a, apparent_size);
        assert(s.contains(s.last()));
        assert(compat(a, s.last()) && compat(s.last(), a));
        lemma_step_commute(run(m, dl, apparent_size), a, s.last(), apparent_size);
    }
}

proof fn lemma_run_append(m: Map<u32, UserView>, s: Seq<RecView>, t: Seq<RecView>, apparent_size: bool)
    ensures
        run(m, s + t, apparent_size) == run(run(m, s, apparent_size), t, apparent_size),
    decreases t.len(),
{
    if t.len() == 0 {
        assert(s + t =~= s);
    } else {
        assert((s + t).drop_last() =~= s + t.drop_last());
        assert((s + t).last() == t.last());
        lemma_run_append(m, s, t.drop_last(), apparent_size);
    }
}

/// Order independence.  Two traversals that visit the same entries (as
/// a multiset, so in any order), each entry describing its object
/// consistently, leave identical statistics from any starting state:
/// the final counts do not depend on enumeration order.
pub proof fn lemma_run_order_independent(
    m: Map<u32, UserView>,
    s1: Seq<RecView>,
    s2: Seq<RecView>,
    apparent_size: bool,
)
    requires
        s1.to_multiset() == s2.to_multiset(),
        coherent(s1),
    ensures
        run(m, s1, apparent_size) == run(m, s2, apparent_size),
    decreases s1.len(),
{
    if s1.len() == 0 {
        assert(s2.to_multiset().len() == 0);
        assert(s2.len() == 0);
    } else {
        let a = s1.last();
        assert(s1.contains(a));
        assert(s2.to_multiset().count(a) > 0);
        assert(s2.contains(a));
        let i = s2.index_of(a);
        assert(0 <= i < s2.len() && s2[i] == a);
        let pre = s2.subrange(0, i);
        let suf = s2.subrange(i + 1, s2.len() as int);
        assert(s2 =~= pre + seq![a] + suf);
        lemma_run_append(m, pre + seq![a], suf, apparent_size);
        lemma_run_append(m, pre, seq![a], apparent_size);
        assert(run(run(m, pre, apparent_size), seq![a], apparent_size) == step(
            run(m, pre, apparent_size),
            a,
            apparent_size,
        )) by {
            assert(seq![a].drop_last() =~= Seq::<RecView>::empty());
            assert(seq![a].last() == a);
            assert(run(run(m, pre, apparent_size), Seq::<RecView>::empty(), apparent_size) == run(
                m,
                pre,
                apparent_size,
            ));
        }
        assert forall|x: RecView| #[trigger] suf.contains(x) implies s2.contains(x) by {
            let k = choose|k: int| 0 <= k < suf.len() && suf[k] == x;
            assert(s2[k + i + 1] == x);
        }
        assert forall|x: RecView| #[trigger] s2.contains(x) implies s1.contains(x) by {
            assert(s2.to_multiset().count(x) > 0);
            assert(s1.to_multiset().count(x) > 0);
        }
        assert forall|x: RecView| #[trigger] suf.contains(x) implies compat(a, x) && compat(
            x,
            a,
        ) by {
            assert(s1.contains(x));
            assert(s1.contains(a));
        }
        lemma_run_commute_one(run(m, pre, apparent_size), suf, a, apparent_size);
        lemma_run_append(m, pre, suf, apparent_size);
        let s2r = s2.remove(i);
        assert(s2r =~= pre + suf);
        assert(run(m, s2, apparent_size) == step(run(m, s2r, apparent_size), a, apparent_size));
        let dl = s1.drop_last();
        assert(dl =~= s1.remove(s1.len() - 1));
        assert(dl.to_multiset() == s1.to_multiset().remove(a));
        assert(s2r.to_multiset() == s2.to_multiset().remove(a));
        assert forall|x: RecView| #[trigger] dl.contains(x) implies s1.contains(x) by {
            let k = choose|k: int| 0 <= k < dl.len() && dl[k] == x;
            assert(s1[k] == x);
        }
        assert(coherent(dl));
        lemma_run_order_independent(m, dl, s2r, apparent_size);
    }
}

} // verus!
