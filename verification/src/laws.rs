//! The staging transaction's governing properties, stated and proved
//! against the specifications the executable functions carry.

use vstd::prelude::*;

use crate::fsmodel::{apply_one, apply_seq, lemma_apply_seq_concat, lemma_apply_seq_singleton};
use crate::paths::{
    ext_of, has_ext, lemma_noop_fixpoint, lemma_retype_changes, lemma_retype_idempotent,
    lemma_with_ext_spec, retype_noop, valid_ext, with_ext,
};
use crate::plan::{
    bsl_ext, diff_post_actions, diff_pre_actions, lemma_bsl_valid, merge_post_actions,
    merge_pre_actions, merge_seed_src, staged_name,
};
use crate::staging::{
    cleanup_actions, retype_action, retype_actions, ActionV, RemovalPolicy, TransformMode,
};

verus! {

/// Retyping skips a path whose current extension already equals the
/// target: the path keeps its name, and the action list is the one the
/// remaining paths produce on their own.
pub proof fn lemma_retyper_skips_matched(
    ps: Seq<Seq<char>>,
    e: Seq<char>,
    mode: TransformMode,
    i: int,
)
    requires
        0 <= i < ps.len(),
        has_ext(ps[i]),
        ext_of(ps[i]) == e,
    ensures
        with_ext(ps[i], e) == ps[i],
        retype_actions(ps, e, mode) == retype_actions(ps.remove(i), e, mode),
    decreases ps.len(),
{
    lemma_noop_fixpoint(ps[i], e);
    if i == ps.len() - 1 {
        assert(ps.remove(i) =~= ps.drop_last());
        assert(retype_noop(ps.last(), e));
        assert(retype_actions(ps, e, mode) =~= retype_actions(ps.drop_last(), e, mode));
    } else {
        assert(ps.drop_last()[i] == ps[i]);
        lemma_retyper_skips_matched(ps.drop_last(), e, mode, i);
        assert(ps.remove(i).drop_last() =~= ps.drop_last().remove(i));
        assert(ps.remove(i).last() == ps.last());
    }
}

/// Retyping is idempotent: on paths already carrying the target
/// extension's form, a second pass changes no path and performs no
/// file-system action at all.
pub proof fn lemma_retyper_idempotent(ps: Seq<Seq<char>>, e: Seq<char>, mode: TransformMode)
    requires
        valid_ext(e),
    ensures
        forall|i: int|
            0 <= i < ps.len() ==> retype_noop(#[trigger] with_ext(ps[i], e), e) && with_ext(
                with_ext(ps[i], e),
                e,
            ) == with_ext(ps[i], e),
        retype_actions(ps.map_values(|p: Seq<char>| with_ext(p, e)), e, mode) == Seq::<
            ActionV,
        >::empty(),
    decreases ps.len(),
{
    assert forall|i: int| 0 <= i < ps.len() implies retype_noop(#[trigger] with_ext(ps[i], e), e)
        && with_ext(with_ext(ps[i], e), e) == with_ext(ps[i], e) by {
        lemma_retype_idempotent(ps[i], e);
    }
    let staged = ps.map_values(|p: Seq<char>| with_ext(p, e));
    if ps.len() == 0 {
        assert(staged =~= Seq::<Seq<char>>::empty());
    } else {
        lemma_retyper_idempotent(ps.drop_last(), e, mode);
        assert(staged.drop_last() =~= ps.drop_last().map_values(|p: Seq<char>| with_ext(p, e)));
        assert(staged.last() == with_ext(ps.last(), e));
        lemma_retype_idempotent(ps.last(), e);
        assert(retype_actions(staged, e, mode) =~= retype_actions(staged.drop_last(), e, mode));
    }
}

/// Whether `k` is the staged name of some entry the retype really moves.
pub open spec fn is_staged_name(ps: Seq<Seq<char>>, e: Seq<char>, k: Seq<char>) -> bool {
    exists|i: int| 0 <= i < ps.len() && !retype_noop(ps[i], e) && k == with_ext(ps[i], e)
}

/// Whether `k` is the current name of some entry the retype really moves.
pub open spec fn is_moved_source(ps: Seq<Seq<char>>, e: Seq<char>, k: Seq<char>) -> bool {
    exists|i: int| 0 <= i < ps.len() && !retype_noop(ps[i], e) && k == ps[i]
}

/// Every listed path names a file of `m`.
pub open spec fn all_present(m: Map<Seq<char>, Seq<char>>, ps: Seq<Seq<char>>) -> bool {
    forall|i: int| 0 <= i < ps.len() ==> m.dom().contains(#[trigger] ps[i])
}

/// No staged name collides: not with any listed path, nor with another
/// entry's staged name.
pub open spec fn staged_names_fresh(ps: Seq<Seq<char>>, e: Seq<char>) -> bool {
    &&& forall|i: int, j: int|
        #![trigger with_ext(ps[i], e), ps[j]]
        0 <= i < ps.len() && 0 <= j < ps.len() && !retype_noop(ps[i], e) ==> with_ext(ps[i], e)
            != ps[j]
    &&& forall|i: int, j: int|
        0 <= i < ps.len() && 0 <= j < ps.len() && i != j && !retype_noop(ps[i], e)
            && !retype_noop(ps[j], e) ==> #[trigger] with_ext(ps[i], e) != #[trigger] with_ext(
            ps[j],
            e,
        )
}

/// Copy-mode retyping succeeds on files that exist, and afterwards both
/// names stand: every input file keeps its name and content, and every
/// really-moved entry's staged name holds the very same content.
pub proof fn lemma_copy_keeps_both(m: Map<Seq<char>, Seq<char>>, ps: Seq<Seq<char>>, e: Seq<char>)
    requires
        valid_ext(e),
        all_present(m, ps),
        staged_names_fresh(ps, e),
    ensures
        apply_seq(m, retype_actions(ps, e, TransformMode::Copy)) matches Some(m2) && ({
            &&& forall|j: int|
                0 <= j < ps.len() ==> m2.dom().contains(#[trigger] ps[j]) && m2[ps[j]] == m[ps[j]]
            &&& forall|i: int|
                0 <= i < ps.len() && !retype_noop(ps[i], e) ==> m2.dom().contains(
                    #[trigger] with_ext(ps[i], e),
                ) && m2[with_ext(ps[i], e)] == m[ps[i]]
            &&& forall|k: Seq<char>|
                !is_staged_name(ps, e, k) ==> (#[trigger] m2.dom().contains(k) <==> m.dom().contains(
                    k,
                )) && (m.dom().contains(k) ==> m2[k] == m[k])
        }),
    decreases ps.len(),
{
    let acts = retype_actions(ps, e, TransformMode::Copy);
    if ps.len() == 0 {
        assert(acts =~= Seq::<ActionV>::empty());
    } else {
        let dl = ps.drop_last();
        let p = ps.last();
        assert forall|i: int| 0 <= i < dl.len() implies m.dom().contains(#[trigger] dl[i]) by {
            assert(dl[i] == ps[i]);
        }
        assert forall|i: int, j: int|
            #![trigger with_ext(dl[i], e), dl[j]]
            0 <= i < dl.len() && 0 <= j < dl.len() && !retype_noop(dl[i], e) implies with_ext(
            dl[i],
            e,
        ) != dl[j] by {
            assert(dl[i] == ps[i] && dl[j] == ps[j]);
        }
        assert forall|i: int, j: int|
            0 <= i < dl.len() && 0 <= j < dl.len() && i != j && !retype_noop(dl[i], e)
                && !retype_noop(dl[j], e) implies #[trigger] with_ext(dl[i], e)
            != #[trigger] with_ext(dl[j], e) by {
            assert(dl[i] == ps[i] && dl[j] == ps[j]);
        }
        lemma_copy_keeps_both(m, dl, e);
        let m1 = apply_seq(m, retype_actions(dl, e, TransformMode::Copy))->Some_0;
        lemma_apply_seq_concat(
            m,
            retype_actions(dl, e, TransformMode::Copy),
            if retype_noop(p, e) {
                Seq::empty()
            } else {
                seq![retype_action(p, e, TransformMode::Copy)]
            },
        );
        assert forall|k: Seq<char>| is_staged_name(dl, e, k) implies is_staged_name(ps, e, k) by {
            let i = choose|i: int| 0 <= i < dl.len() && !retype_noop(dl[i], e) && k == with_ext(dl[i], e);
            assert(dl[i] == ps[i]);
            assert(0 <= i < ps.len() && !retype_noop(ps[i], e) && k == with_ext(ps[i], e));
        }
        if retype_noop(p, e) {
            assert(acts =~= retype_actions(dl, e, TransformMode::Copy));
            assert(!is_staged_name(dl, e, p));
            assert(m1.dom().contains(p) && m1[p] == m[p]);
            assert forall|k: Seq<char>| is_staged_name(ps, e, k) implies is_staged_name(
                dl,
                e,
                k,
            ) by {
                let i = choose|i: int|
                    0 <= i < ps.len() && !retype_noop(ps[i], e) && k == with_ext(ps[i], e);
                assert(i < ps.len() - 1);
                assert(dl[i] == ps[i]);
            }
            assert(apply_seq(m, acts) == Some(m1));
            assert forall|j: int| 0 <= j < ps.len() implies m1.dom().contains(#[trigger] ps[j])
                && m1[ps[j]] == m[ps[j]] by {
                if j < ps.len() - 1 {
                    assert(dl[j] == ps[j]);
                }
            }
            assert forall|i: int|
                0 <= i < ps.len() && !retype_noop(ps[i], e) implies m1.dom().contains(
                #[trigger] with_ext(ps[i], e),
            ) && m1[with_ext(ps[i], e)] == m[ps[i]] by {
                assert(i < ps.len() - 1);
                assert(dl[i] == ps[i]);
            }
            assert forall|k: Seq<char>| !is_staged_name(ps, e, k) implies (
            #[trigger] m1.dom().contains(k) <==> m.dom().contains(k)) && (m.dom().contains(k)
                ==> m1[k] == m[k]) by {
                assert(!is_staged_name(dl, e, k));
            }
        } else {
            let w = with_ext(p, e);
            let act = retype_action(p, e, TransformMode::Copy);
            assert(!is_staged_name(dl, e, p));
            assert(m1.dom().contains(p) && m1[p] == m[p]);
            assert(seq![act].first() == act);
            assert(seq![act].drop_first() =~= Seq::<ActionV>::empty());
            assert(apply_one(m1, act) == Some(m1.insert(w, m1[p])));
            let m2 = m1.insert(w, m[p]);
            lemma_apply_seq_singleton(m1, act);
            assert(apply_seq(m1, seq![act]) == Some(m2));
            assert(apply_seq(m, acts) == Some(m2));
            assert(is_staged_name(ps, e, w)) by {
                assert(0 <= ps.len() - 1 < ps.len() && !retype_noop(ps[ps.len() - 1], e) && w
                    == with_ext(ps[ps.len() - 1], e));
            }
            assert forall|j: int| 0 <= j < ps.len() implies m2.dom().contains(#[trigger] ps[j])
                && m2[ps[j]] == m[ps[j]] by {
                assert(w != ps[j]);
                if j < ps.len() - 1 {
                    assert(dl[j] == ps[j]);
                } else {
                    assert(!is_staged_name(dl, e, p));
                }
            }
            assert forall|i: int|
                0 <= i < ps.len() && !retype_noop(ps[i], e) implies m2.dom().contains(
                #[trigger] with_ext(ps[i], e),
            ) && m2[with_ext(ps[i], e)] == m[ps[i]] by {
                if i < ps.len() - 1 {
                    assert(dl[i] == ps[i]);
                    assert(with_ext(ps[i], e) != w);
                }
            }
            assert forall|k: Seq<char>| !is_staged_name(ps, e, k) implies (
            #[trigger] m2.dom().contains(k) <==> m.dom().contains(k)) && (m.dom().contains(k)
                ==> m2[k] == m[k]) by {
                assert(k != w);
                assert(!is_staged_name(dl, e, k));
                assert(m2.dom().contains(k) == m1.dom().contains(k));
                assert(m1.dom().contains(k) <==> m.dom().contains(k));
                if m.dom().contains(k) {
                    assert(m2[k] == m1[k]);
                    assert(m1[k] == m[k]);
                }
            }
        }
    }
}

/// Rename-mode retyping succeeds on files that exist, and afterwards only
/// the staged names stand: every really-moved entry's original name is
/// gone, its staged name holds the original content, and skipped entries
/// are untouched.
pub proof fn lemma_rename_moves(m: Map<Seq<char>, Seq<char>>, ps: Seq<Seq<char>>, e: Seq<char>)
    requires
        valid_ext(e),
        all_present(m, ps),
        staged_names_fresh(ps, e),
        forall|i: int, j: int|
            0 <= i < ps.len() && 0 <= j < ps.len() && i != j && !retype_noop(ps[i], e)
                && !retype_noop(ps[j], e) ==> ps[i] != ps[j],
    ensures
        apply_seq(m, retype_actions(ps, e, TransformMode::Rename)) matches Some(m2) && ({
            &&& forall|i: int|
                0 <= i < ps.len() && !retype_noop(ps[i], e) ==> m2.dom().contains(
                    #[trigger] with_ext(ps[i], e),
                ) && m2[with_ext(ps[i], e)] == m[ps[i]] && !m2.dom().contains(ps[i])
            &&& forall|j: int|
                0 <= j < ps.len() && retype_noop(ps[j], e) ==> m2.dom().contains(#[trigger] ps[j])
                    && m2[ps[j]] == m[ps[j]]
            &&& forall|k: Seq<char>|
                !is_staged_name(ps, e, k) && !is_moved_source(ps, e, k) ==> (
                #[trigger] m2.dom().contains(k) <==> m.dom().contains(k)) && (m.dom().contains(k)
                    ==> m2[k] == m[k])
        }),
    decreases ps.len(),
{
    let acts = retype_actions(ps, e, TransformMode::Rename);
    if ps.len() == 0 {
        assert(acts =~= Seq::<ActionV>::empty());
    } else {
        let dl = ps.drop_last();
        let p = ps.last();
        assert forall|i: int| 0 <= i < dl.len() implies m.dom().contains(#[trigger] dl[i]) by {
            assert(dl[i] == ps[i]);
        }
        assert forall|i: int, j: int|
            #![trigger with_ext(dl[i], e), dl[j]]
            0 <= i < dl.len() && 0 <= j < dl.len() && !retype_noop(dl[i], e) implies with_ext(
            dl[i],
            e,
        ) != dl[j] by {
            assert(dl[i] == ps[i] && dl[j] == ps[j]);
        }
        assert forall|i: int, j: int|
            0 <= i < dl.len() && 0 <= j < dl.len() && i != j && !retype_noop(dl[i], e)
                && !retype_noop(dl[j], e) implies #[trigger] with_ext(dl[i], e)
            != #[trigger] with_ext(dl[j], e) && dl[i] != dl[j] by {
            assert(dl[i] == ps[i] && dl[j] == ps[j]);
        }
        lemma_rename_moves(m, dl, e);
        let m1 = apply_seq(m, retype_actions(dl, e, TransformMode::Rename))->Some_0;
        lemma_apply_seq_concat(
            m,
            retype_actions(dl, e, TransformMode::Rename),
            if retype_noop(p, e) {
                Seq::empty()
            } else {
                seq![retype_action(p, e, TransformMode::Rename)]
            },
        );
        assert forall|k: Seq<char>| is_staged_name(dl, e, k) implies is_staged_name(ps, e, k) by {
            let i = choose|i: int| 0 <= i < dl.len() && !retype_noop(dl[i], e) && k == with_ext(dl[i], e);
            assert(dl[i] == ps[i]);
            assert(0 <= i < ps.len() && !retype_noop(ps[i], e) && k == with_ext(ps[i], e));
        }
        assert forall|k: Seq<char>| is_moved_source(dl, e, k) implies is_moved_source(
            ps,
            e,
            k,
        ) by {
            let i = choose|i: int| 0 <= i < dl.len() && !retype_noop(dl[i], e) && k == dl[i];
            assert(dl[i] == ps[i]);
            assert(0 <= i < ps.len() && !retype_noop(ps[i], e) && k == ps[i]);
        }
        if retype_noop(p, e) {
            assert(acts =~= retype_actions(dl, e, TransformMode::Rename));
            assert(!is_staged_name(dl, e, p));
            assert(!is_moved_source(dl, e, p)) by {
                if is_moved_source(dl, e, p) {
                    let i = choose|i: int| 0 <= i < dl.len() && !retype_noop(dl[i], e) && p == dl[i];
                    assert(dl[i] == ps[i]);
                    assert(retype_noop(ps[i], e) == retype_noop(p, e));
                }
            }
            assert(m1.dom().contains(p) && m1[p] == m[p]);
            assert forall|k: Seq<char>| is_staged_name(ps, e, k) implies is_staged_name(
                dl,
                e,
                k,
            ) by {
                let i = choose|i: int|
                    0 <= i < ps.len() && !retype_noop(ps[i], e) && k == with_ext(ps[i], e);
                assert(i < ps.len() - 1);
                assert(dl[i] == ps[i]);
            }
            assert forall|k: Seq<char>| is_moved_source(ps, e, k) implies is_moved_source(
                dl,
                e,
                k,
            ) by {
                let i = choose|i: int| 0 <= i < ps.len() && !retype_noop(ps[i], e) && k == ps[i];
                assert(i < ps.len() - 1);
                assert(dl[i] == ps[i]);
            }
            assert(apply_seq(m, acts) == Some(m1));
            assert forall|i: int|
                0 <= i < ps.len() && !retype_noop(ps[i], e) implies m1.dom().contains(
                #[trigger] with_ext(ps[i], e),
            ) && m1[with_ext(ps[i], e)] == m[ps[i]] && !m1.dom().contains(ps[i]) by {
                assert(i < ps.len() - 1);
                assert(dl[i] == ps[i]);
            }
            assert forall|j: int|
                0 <= j < ps.len() && retype_noop(ps[j], e) implies m1.dom().contains(
                #[trigger] ps[j],
            ) && m1[ps[j]] == m[ps[j]] by {
                if j < ps.len() - 1 {
                    assert(dl[j] == ps[j]);
                }
            }
            assert forall|k: Seq<char>|
                !is_staged_name(ps, e, k) && !is_moved_source(ps, e, k) implies (
            #[trigger] m1.dom().contains(k) <==> m.dom().contains(k)) && (m.dom().contains(k)
                ==> m1[k] == m[k]) by {
                assert(!is_staged_name(dl, e, k));
                assert(!is_moved_source(dl, e, k));
            }
        } else {
            let w = with_ext(p, e);
            let act = retype_action(p, e, TransformMode::Rename);
            lemma_retype_changes(p, e);
            assert(!is_staged_name(dl, e, p));
            assert(!is_moved_source(dl, e, p)) by {
                if is_moved_source(dl, e, p) {
                    let i = choose|i: int| 0 <= i < dl.len() && !retype_noop(dl[i], e) && p == dl[i];
                    assert(dl[i] == ps[i]);
                }
            }
            assert(m1.dom().contains(p) && m1[p] == m[p]);
            assert(seq![act].first() == act);
            assert(seq![act].drop_first() =~= Seq::<ActionV>::empty());
            let m2 = m1.remove(p).insert(w, m[p]);
            assert(apply_one(m1, act) == Some(m2));
            lemma_apply_seq_singleton(m1, act);
            assert(apply_seq(m1, seq![act]) == Some(m2));
            assert(apply_seq(m, acts) == Some(m2));
            assert(is_staged_name(ps, e, w)) by {
                assert(0 <= ps.len() - 1 < ps.len() && !retype_noop(ps[ps.len() - 1], e) && w
                    == with_ext(ps[ps.len() - 1], e));
            }
            assert(is_moved_source(ps, e, p)) by {
                assert(0 <= ps.len() - 1 < ps.len() && !retype_noop(ps[ps.len() - 1], e) && p
                    == ps[ps.len() - 1]);
            }
            assert forall|i: int|
                0 <= i < ps.len() && !retype_noop(ps[i], e) implies m2.dom().contains(
                #[trigger] with_ext(ps[i], e),
            ) && m2[with_ext(ps[i], e)] == m[ps[i]] && !m2.dom().contains(ps[i]) by {
                if i < ps.len() - 1 {
                    assert(dl[i] == ps[i]);
                    assert(with_ext(ps[i], e) != w);
                    assert(with_ext(ps[i], e) != p);
                    assert(ps[i] != w);
                    assert(ps[i] != p);
                } else {
                    assert(w != p);
                }
            }
            assert forall|j: int|
                0 <= j < ps.len() && retype_noop(ps[j], e) implies m2.dom().contains(
                #[trigger] ps[j],
            ) && m2[ps[j]] == m[ps[j]] by {
                assert(j < ps.len() - 1);
                assert(dl[j] == ps[j]);
                assert(ps[j] != w);
                assert(ps[j] != p) by {
                    if ps[j] == p {
                        assert(retype_noop(ps[j], e) == retype_noop(p, e));
                    }
                }
            }
            assert forall|k: Seq<char>|
                !is_staged_name(ps, e, k) && !is_moved_source(ps, e, k) implies (
            #[trigger] m2.dom().contains(k) <==> m.dom().contains(k)) && (m.dom().contains(k)
                ==> m2[k] == m[k]) by {
                assert(k != w);
                assert(k != p);
                assert(!is_staged_name(dl, e, k));
                assert(!is_moved_source(dl, e, k));
                assert(m2.dom().contains(k) == m1.dom().contains(k));
                assert(m1.dom().contains(k) <==> m.dom().contains(k));
                if m.dom().contains(k) {
                    assert(m2[k] == m1[k]);
                    assert(m1[k] == m[k]);
                }
            }
        }
    }
}

/// A really-moved path's staged name differs from every path that a
/// retype would also really move.
pub proof fn lemma_staged_differs(x: Seq<char>, y: Seq<char>, e: Seq<char>)
    requires
        valid_ext(e),
        !retype_noop(x, e),
        !retype_noop(y, e),
    ensures
        with_ext(x, e) != y,
{
    lemma_with_ext_spec(x, e);
    if with_ext(x, e) == y {
        assert(has_ext(y) && ext_of(y) == e);
    }
}

/// Round trip of a merge under `Rename` and `Remove`: of the four
/// original paths and their staged forms, exactly the merge result under
/// its original name survives, holding the seeded source's content, and
/// every file outside the operation is untouched.
#[verifier::rlimit(50)]
pub proof fn lemma_merge_round_trip(
    m0: Map<Seq<char>, Seq<char>>,
    base: Seq<char>,
    second: Seq<char>,
    old_vendor: Seq<char>,
    merged: Seq<char>,
    from_second: bool,
)
    requires
        m0.dom().contains(base),
        m0.dom().contains(second),
        m0.dom().contains(old_vendor),
        !retype_noop(base, bsl_ext()),
        !retype_noop(second, bsl_ext()),
        !retype_noop(old_vendor, bsl_ext()),
        !retype_noop(merged, bsl_ext()),
        base != second && base != old_vendor && base != merged,
        second != old_vendor && second != merged,
        old_vendor != merged,
        staged_name(base) != staged_name(second),
        staged_name(base) != staged_name(old_vendor),
        staged_name(base) != staged_name(merged),
        staged_name(second) != staged_name(old_vendor),
        staged_name(second) != staged_name(merged),
        staged_name(old_vendor) != staged_name(merged),
    ensures
        apply_seq(
            m0,
            merge_pre_actions(base, second, old_vendor, merged, from_second, TransformMode::Rename)
                + merge_post_actions(base, second, old_vendor, merged, RemovalPolicy::Remove),
        ) matches Some(mf) && ({
            &&& mf.dom().contains(merged)
            &&& mf[merged] == m0[merge_seed_src(base, second, from_second)]
            &&& !mf.dom().contains(base)
            &&& !mf.dom().contains(second)
            &&& !mf.dom().contains(old_vendor)
            &&& !mf.dom().contains(staged_name(base))
            &&& !mf.dom().contains(staged_name(second))
            &&& !mf.dom().contains(staged_name(old_vendor))
            &&& !mf.dom().contains(staged_name(merged))
            &&& forall|k: Seq<char>|
                k != base && k != second && k != old_vendor && k != merged && k != staged_name(
                    base,
                ) && k != staged_name(second) && k != staged_name(old_vendor) && k != staged_name(
                    merged,
                ) ==> (#[trigger] mf.dom().contains(k) <==> m0.dom().contains(k)) && (
                m0.dom().contains(k) ==> mf[k] == m0[k])
        }),
{
    let e = bsl_ext();
    lemma_bsl_valid();
    let ps = seq![base, second, old_vendor, merged];
    let chosen = merge_seed_src(base, second, from_second);
    let seed = ActionV::CopyFile { src: chosen, dst: merged };
    let pre = merge_pre_actions(
        base,
        second,
        old_vendor,
        merged,
        from_second,
        TransformMode::Rename,
    );
    let retype = retype_actions(ps, e, TransformMode::Rename);
    assert(pre =~= seq![seed] + retype);
    let m1 = m0.insert(merged, m0[chosen]);
    lemma_apply_seq_singleton(m0, seed);
    lemma_apply_seq_concat(m0, seq![seed], retype);
    assert(apply_one(m0, seed) == Some(m1));
    assert(apply_seq(m0, pre) == apply_seq(m1, retype));
    assert(ps[0] == base && ps[1] == second && ps[2] == old_vendor && ps[3] == merged);
    assert forall|i: int| 0 <= i < ps.len() implies m1.dom().contains(#[trigger] ps[i]) by {
        if i == 0 {
            assert(ps[0] == base);
        } else if i == 1 {
            assert(ps[1] == second);
        } else if i == 2 {
            assert(ps[2] == old_vendor);
        } else {
            assert(ps[3] == merged);
        }
    }
    assert forall|i: int| 0 <= i < ps.len() implies !retype_noop(#[trigger] ps[i], e) by {
        if i == 0 {
            assert(ps[0] == base);
        } else if i == 1 {
            assert(ps[1] == second);
        } else if i == 2 {
            assert(ps[2] == old_vendor);
        } else {
            assert(ps[3] == merged);
        }
    }
    assert forall|i: int, j: int|
        #![trigger with_ext(ps[i], e), ps[j]]
        0 <= i < ps.len() && 0 <= j < ps.len() && !retype_noop(ps[i], e) implies with_ext(ps[i], e)
        != ps[j] by {
        lemma_staged_differs(ps[i], ps[j], e);
    }
    assert(staged_name(base) == with_ext(base, e) && staged_name(second) == with_ext(second, e)
        && staged_name(old_vendor) == with_ext(old_vendor, e) && staged_name(merged) == with_ext(
        merged,
        e,
    ));
    assert forall|i: int, j: int|
        0 <= i < ps.len() && 0 <= j < ps.len() && i != j && !retype_noop(ps[i], e)
            && !retype_noop(ps[j], e) implies #[trigger] with_ext(ps[i], e) != #[trigger] with_ext(
        ps[j],
        e,
    ) by {
        assert(ps[0] == base && ps[1] == second && ps[2] == old_vendor && ps[3] == merged);
    }
    assert(staged_names_fresh(ps, e));
    assert forall|i: int, j: int|
        0 <= i < ps.len() && 0 <= j < ps.len() && i != j && !retype_noop(ps[i], e)
            && !retype_noop(ps[j], e) implies ps[i] != ps[j] by {
        assert(ps[0] == base && ps[1] == second && ps[2] == old_vendor && ps[3] == merged);
    }
    lemma_rename_moves(m1, ps, e);
    let m2 = apply_seq(m1, retype)->Some_0;
    assert(m2.dom().contains(with_ext(ps[0], e)) && m2[with_ext(ps[0], e)] == m1[ps[0]]
        && !m2.dom().contains(ps[0]));
    assert(m2.dom().contains(with_ext(ps[1], e)) && m2[with_ext(ps[1], e)] == m1[ps[1]]
        && !m2.dom().contains(ps[1]));
    assert(m2.dom().contains(with_ext(ps[2], e)) && m2[with_ext(ps[2], e)] == m1[ps[2]]
        && !m2.dom().contains(ps[2]));
    assert(m2.dom().contains(with_ext(ps[3], e)) && m2[with_ext(ps[3], e)] == m1[ps[3]]
        && !m2.dom().contains(ps[3]));
    assert(m1[base] == m0[base] && m1[second] == m0[second] && m1[old_vendor] == m0[old_vendor]
        && m1[merged] == m0[chosen]);
    // Reconciliation and cleanup.
    let w_m = staged_name(merged);
    lemma_retype_changes(merged, e);
    assert(w_m != merged);
    let post = merge_post_actions(base, second, old_vendor, merged, RemovalPolicy::Remove);
    let ren = ActionV::RenameFile { src: w_m, dst: merged };
    let rm1 = ActionV::RemoveFile { path: staged_name(base) };
    let rm2 = ActionV::RemoveFile { path: staged_name(second) };
    let rm3 = ActionV::RemoveFile { path: staged_name(old_vendor) };
    assert(cleanup_actions(
        seq![staged_name(base), staged_name(second), staged_name(old_vendor)],
    ) =~= seq![rm1, rm2, rm3]);
    assert(post =~= seq![ren] + seq![rm1, rm2, rm3]);
    let m3 = m2.remove(w_m).insert(merged, m2[w_m]);
    lemma_apply_seq_singleton(m2, ren);
    lemma_apply_seq_concat(m2, seq![ren], seq![rm1, rm2, rm3]);
    assert(apply_one(m2, ren) == Some(m3));
    lemma_staged_differs(base, merged, e);
    lemma_staged_differs(second, merged, e);
    lemma_staged_differs(old_vendor, merged, e);
    let m4 = m3.remove(staged_name(base));
    assert(seq![rm1, rm2, rm3] =~= seq![rm1] + seq![rm2, rm3]);
    lemma_apply_seq_singleton(m3, rm1);
    lemma_apply_seq_concat(m3, seq![rm1], seq![rm2, rm3]);
    assert(apply_one(m3, rm1) == Some(m4));
    let m5 = m4.remove(staged_name(second));
    assert(seq![rm2, rm3] =~= seq![rm2] + seq![rm3]);
    lemma_apply_seq_singleton(m4, rm2);
    lemma_apply_seq_concat(m4, seq![rm2], seq![rm3]);
    assert(apply_one(m4, rm2) == Some(m5));
    let m6 = m5.remove(staged_name(old_vendor));
    lemma_apply_seq_singleton(m5, rm3);
    assert(apply_one(m5, rm3) == Some(m6));
    assert(apply_seq(m2, post) == Some(m6));
    lemma_apply_seq_concat(m0, pre, post);
    assert(pre + post =~= merge_pre_actions(
        base,
        second,
        old_vendor,
        merged,
        from_second,
        TransformMode::Rename,
    ) + merge_post_actions(base, second, old_vendor, merged, RemovalPolicy::Remove));
    assert(apply_seq(m0, pre + post) == Some(m6));
    assert(m6.dom().contains(merged) && m6[merged] == m0[chosen]);
    assert(!m6.dom().contains(base) && !m6.dom().contains(second) && !m6.dom().contains(
        old_vendor,
    ));
    assert forall|k: Seq<char>|
        k != base && k != second && k != old_vendor && k != merged && k != staged_name(base) && k
            != staged_name(second) && k != staged_name(old_vendor) && k != staged_name(
            merged,
        ) implies (#[trigger] m6.dom().contains(k) <==> m0.dom().contains(k)) && (
    m0.dom().contains(k) ==> m6[k] == m0[k]) by {
        assert(!is_staged_name(ps, e, k)) by {
            if is_staged_name(ps, e, k) {
                let i = choose|i: int|
                    0 <= i < ps.len() && !retype_noop(ps[i], e) && k == with_ext(ps[i], e);
                assert(ps[0] == base && ps[1] == second && ps[2] == old_vendor && ps[3] == merged);
            }
        }
        assert(!is_moved_source(ps, e, k)) by {
            if is_moved_source(ps, e, k) {
                let i = choose|i: int| 0 <= i < ps.len() && !retype_noop(ps[i], e) && k == ps[i];
                assert(ps[0] == base && ps[1] == second && ps[2] == old_vendor && ps[3] == merged);
            }
        }
        assert(m2.dom().contains(k) <==> m1.dom().contains(k));
        assert(m1.dom().contains(k) <==> m0.dom().contains(k));
        if m0.dom().contains(k) {
            assert(m2[k] == m1[k]);
            assert(m1[k] == m0[k]);
        }
    }
}

/// A merge under `Copy` and `Remove` cleans up completely: the four
/// original names survive — the three inputs with their contents, the
/// merge result holding the seeded source's content — while no staged
/// name does, and every file outside the operation is untouched.
#[verifier::rlimit(100)]
#[verifier::spinoff_prover]
pub proof fn lemma_merge_copy_cleanup(
    m0: Map<Seq<char>, Seq<char>>,
    base: Seq<char>,
    second: Seq<char>,
    old_vendor: Seq<char>,
    merged: Seq<char>,
    from_second: bool,
)
    requires
        m0.dom().contains(base),
        m0.dom().contains(second),
        m0.dom().contains(old_vendor),
        !retype_noop(base, bsl_ext()),
        !retype_noop(second, bsl_ext()),
        !retype_noop(old_vendor, bsl_ext()),
        !retype_noop(merged, bsl_ext()),
        base != second && base != old_vendor && base != merged,
        second != old_vendor && second != merged,
        old_vendor != merged,
        staged_name(base) != staged_name(second),
        staged_name(base) != staged_name(old_vendor),
        staged_name(base) != staged_name(merged),
        staged_name(second) != staged_name(old_vendor),
        staged_name(second) != staged_name(merged),
        staged_name(old_vendor) != staged_name(merged),
    ensures
        apply_seq(
            m0,
            merge_pre_actions(base, second, old_vendor, merged, from_second, TransformMode::Copy)
                + merge_post_actions(base, second, old_vendor, merged, RemovalPolicy::Remove),
        ) matches Some(mf) && ({
            &&& mf.dom().contains(base) && mf[base] == m0[base]
            &&& mf.dom().contains(second) && mf[second] == m0[second]
            &&& mf.dom().contains(old_vendor) && mf[old_vendor] == m0[old_vendor]
            &&& mf.dom().contains(merged)
            &&& mf[merged] == m0[merge_seed_src(base, second, from_second)]
            &&& !mf.dom().contains(staged_name(base))
            &&& !mf.dom().contains(staged_name(second))
            &&& !mf.dom().contains(staged_name(old_vendor))
            &&& !mf.dom().contains(staged_name(merged))
            &&& forall|k: Seq<char>|
                k != base && k != second && k != old_vendor && k != merged && k != staged_name(
                    base,
                ) && k != staged_name(second) && k != staged_name(old_vendor) && k != staged_name(
                    merged,
                ) ==> (#[trigger] mf.dom().contains(k) <==> m0.dom().contains(k)) && (
                m0.dom().contains(k) ==> mf[k] == m0[k])
        }),
{
    let e = bsl_ext();
    lemma_bsl_valid();
    let ps = seq![base, second, old_vendor, merged];
    let chosen = merge_seed_src(base, second, from_second);
    let seed = ActionV::CopyFile { src: chosen, dst: merged };
    let pre = merge_pre_actions(base, second, old_vendor, merged, from_second, TransformMode::Copy);
    let retype = retype_actions(ps, e, TransformMode::Copy);
    assert(pre =~= seq![seed] + retype);
    let m1 = m0.insert(merged, m0[chosen]);
    lemma_apply_seq_singleton(m0, seed);
    lemma_apply_seq_concat(m0, seq![seed], retype);
    assert(apply_one(m0, seed) == Some(m1));
    assert(apply_seq(m0, pre) == apply_seq(m1, retype));
    assert(ps[0] == base && ps[1] == second && ps[2] == old_vendor && ps[3] == merged);
    assert forall|i: int| 0 <= i < ps.len() implies m1.dom().contains(#[trigger] ps[i]) by {
        if i == 0 {
            assert(ps[0] == base);
        } else if i == 1 {
            assert(ps[1] == second);
        } else if i == 2 {
            assert(ps[2] == old_vendor);
        } else {
            assert(ps[3] == merged);
        }
    }
    assert forall|i: int| 0 <= i < ps.len() implies !retype_noop(#[trigger] ps[i], e) by {
        if i == 0 {
            assert(ps[0] == base);
        } else if i == 1 {
            assert(ps[1] == second);
        } else if i == 2 {
            assert(ps[2] == old_vendor);
        } else {
            assert(ps[3] == merged);
        }
    }
    assert forall|i: int, j: int|
        #![trigger with_ext(ps[i], e), ps[j]]
        0 <= i < ps.len() && 0 <= j < ps.len() && !retype_noop(ps[i], e) implies with_ext(ps[i], e)
        != ps[j] by {
        lemma_staged_differs(ps[i], ps[j], e);
    }
    assert(staged_name(base) == with_ext(base, e) && staged_name(second) == with_ext(second, e)
        && staged_name(old_vendor) == with_ext(old_vendor, e) && staged_name(merged) == with_ext(
        merged,
        e,
    ));
    assert forall|i: int, j: int|
        0 <= i < ps.len() && 0 <= j < ps.len() && i != j && !retype_noop(ps[i], e)
            && !retype_noop(ps[j], e) implies #[trigger] with_ext(ps[i], e) != #[trigger] with_ext(
        ps[j],
        e,
    ) by {
        assert(ps[0] == base && ps[1] == second && ps[2] == old_vendor && ps[3] == merged);
    }
    assert(staged_names_fresh(ps, e));
    lemma_copy_keeps_both(m1, ps, e);
    let m2 = apply_seq(m1, retype)->Some_0;
    assert(m2.dom().contains(ps[0]) && m2[ps[0]] == m1[ps[0]]);
    assert(m2.dom().contains(ps[1]) && m2[ps[1]] == m1[ps[1]]);
    assert(m2.dom().contains(ps[2]) && m2[ps[2]] == m1[ps[2]]);
    assert(m2.dom().contains(ps[3]) && m2[ps[3]] == m1[ps[3]]);
    assert(m2.dom().contains(with_ext(ps[0], e)) && m2[with_ext(ps[0], e)] == m1[ps[0]]);
    assert(m2.dom().contains(with_ext(ps[1], e)) && m2[with_ext(ps[1], e)] == m1[ps[1]]);
    assert(m2.dom().contains(with_ext(ps[2], e)) && m2[with_ext(ps[2], e)] == m1[ps[2]]);
    assert(m2.dom().contains(with_ext(ps[3], e)) && m2[with_ext(ps[3], e)] == m1[ps[3]]);
    assert(m1[base] == m0[base] && m1[second] == m0[second] && m1[old_vendor] == m0[old_vendor]
        && m1[merged] == m0[chosen]);
    let w_m = staged_name(merged);
    lemma_retype_changes(merged, e);
    assert(w_m != merged);
    let post = merge_post_actions(base, second, old_vendor, merged, RemovalPolicy::Remove);
    let ren = ActionV::RenameFile { src: w_m, dst: merged };
    let rm1 = ActionV::RemoveFile { path: staged_name(base) };
    let rm2 = ActionV::RemoveFile { path: staged_name(second) };
    let rm3 = ActionV::RemoveFile { path: staged_name(old_vendor) };
    assert(cleanup_actions(
        seq![staged_name(base), staged_name(second), staged_name(old_vendor)],
    ) =~= seq![rm1, rm2, rm3]);
    assert(post =~= seq![ren] + seq![rm1, rm2, rm3]);
    let m3 = m2.remove(w_m).insert(merged, m2[w_m]);
    lemma_apply_seq_singleton(m2, ren);
    lemma_apply_seq_concat(m2, seq![ren], seq![rm1, rm2, rm3]);
    assert(apply_one(m2, ren) == Some(m3));
    lemma_staged_differs(base, merged, e);
    lemma_staged_differs(second, merged, e);
    lemma_staged_differs(old_vendor, merged, e);
    lemma_staged_differs(base, base, e);
    lemma_staged_differs(second, second, e);
    lemma_staged_differs(old_vendor, old_vendor, e);
    lemma_staged_differs(base, second, e);
    lemma_staged_differs(base, old_vendor, e);
    lemma_staged_differs(second, base, e);
    lemma_staged_differs(second, old_vendor, e);
    lemma_staged_differs(old_vendor, base, e);
    lemma_staged_differs(old_vendor, second, e);
    lemma_staged_differs(merged, base, e);
    lemma_staged_differs(merged, second, e);
    lemma_staged_differs(merged, old_vendor, e);
    lemma_staged_differs(merged, merged, e);
    let m4 = m3.remove(staged_name(base));
    assert(seq![rm1, rm2, rm3] =~= seq![rm1] + seq![rm2, rm3]);
    lemma_apply_seq_singleton(m3, rm1);
    lemma_apply_seq_concat(m3, seq![rm1], seq![rm2, rm3]);
    assert(apply_one(m3, rm1) == Some(m4));
    let m5 = m4.remove(staged_name(second));
    assert(seq![rm2, rm3] =~= seq![rm2] + seq![rm3]);
    lemma_apply_seq_singleton(m4, rm2);
    lemma_apply_seq_concat(m4, seq![rm2], seq![rm3]);
    assert(apply_one(m4, rm2) == Some(m5));
    let m6 = m5.remove(staged_name(old_vendor));
    lemma_apply_seq_singleton(m5, rm3);
    assert(apply_one(m5, rm3) == Some(m6));
    assert(apply_seq(m2, post) == Some(m6));
    lemma_apply_seq_concat(m0, pre, post);
    assert(pre + post =~= merge_pre_actions(
        base,
        second,
        old_vendor,
        merged,
        from_second,
        TransformMode::Copy,
    ) + merge_post_actions(base, second, old_vendor, merged, RemovalPolicy::Remove));
    assert(apply_seq(m0, pre + post) == Some(m6));
    assert(m6.dom().contains(merged) && m6[merged] == m0[chosen]);
    assert(m6.dom().contains(base) && m6[base] == m0[base]);
    assert(m6.dom().contains(second) && m6[second] == m0[second]);
    assert(m6.dom().contains(old_vendor) && m6[old_vendor] == m0[old_vendor]);
    assert forall|k: Seq<char>|
        k != base && k != second && k != old_vendor && k != merged && k != staged_name(base) && k
            != staged_name(second) && k != staged_name(old_vendor) && k != staged_name(
            merged,
        ) implies (#[trigger] m6.dom().contains(k) <==> m0.dom().contains(k)) && (
    m0.dom().contains(k) ==> m6[k] == m0[k]) by {
        assert(!is_staged_name(ps, e, k)) by {
            if is_staged_name(ps, e, k) {
                let i = choose|i: int|
                    0 <= i < ps.len() && !retype_noop(ps[i], e) && k == with_ext(ps[i], e);
                assert(ps[0] == base && ps[1] == second && ps[2] == old_vendor && ps[3] == merged);
            }
        }
        assert(m2.dom().contains(k) <==> m1.dom().contains(k));
        assert(m1.dom().contains(k) <==> m0.dom().contains(k));
        if m0.dom().contains(k) {
            assert(m2[k] == m1[k]);
            assert(m1[k] == m0[k]);
        }
    }
}

/// A diff under `Rename` and `Remove` leaves no trace: both originals
/// were renamed away and both staged files removed, and every file
/// outside the operation is untouched.
#[verifier::rlimit(50)]
#[verifier::spinoff_prover]
pub proof fn lemma_diff_round_trip(m0: Map<Seq<char>, Seq<char>>, base: Seq<char>, second: Seq<char>)
    requires
        m0.dom().contains(base),
        m0.dom().contains(second),
        !retype_noop(base, bsl_ext()),
        !retype_noop(second, bsl_ext()),
        base != second,
        staged_name(base) != staged_name(second),
    ensures
        apply_seq(
            m0,
            diff_pre_actions(base, second, TransformMode::Rename) + diff_post_actions(
                base,
                second,
                RemovalPolicy::Remove,
            ),
        ) matches Some(mf) && ({
            &&& !mf.dom().contains(base)
            &&& !mf.dom().contains(second)
            &&& !mf.dom().contains(staged_name(base))
            &&& !mf.dom().contains(staged_name(second))
            &&& forall|k: Seq<char>|
                k != base && k != second && k != staged_name(base) && k != staged_name(second)
                    ==> (#[trigger] mf.dom().contains(k) <==> m0.dom().contains(k)) && (
                m0.dom().contains(k) ==> mf[k] == m0[k])
        }),
{
    let e = bsl_ext();
    lemma_bsl_valid();
    let ps = seq![base, second];
    let pre = diff_pre_actions(base, second, TransformMode::Rename);
    assert(ps[0] == base && ps[1] == second);
    assert forall|i: int| 0 <= i < ps.len() implies m0.dom().contains(#[trigger] ps[i])
        && !retype_noop(ps[i], e) by {
        if i == 0 {
            assert(ps[0] == base);
        } else {
            assert(ps[1] == second);
        }
    }
    assert forall|i: int, j: int|
        #![trigger with_ext(ps[i], e), ps[j]]
        0 <= i < ps.len() && 0 <= j < ps.len() && !retype_noop(ps[i], e) implies with_ext(ps[i], e)
        != ps[j] by {
        lemma_staged_differs(ps[i], ps[j], e);
    }
    assert(staged_name(base) == with_ext(base, e) && staged_name(second) == with_ext(second, e));
    assert forall|i: int, j: int|
        0 <= i < ps.len() && 0 <= j < ps.len() && i != j && !retype_noop(ps[i], e)
            && !retype_noop(ps[j], e) implies #[trigger] with_ext(ps[i], e) != #[trigger] with_ext(
        ps[j],
        e,
    ) && ps[i] != ps[j] by {
        assert(ps[0] == base && ps[1] == second);
    }
    assert(staged_names_fresh(ps, e));
    lemma_rename_moves(m0, ps, e);
    let m1 = apply_seq(m0, retype_actions(ps, e, TransformMode::Rename))->Some_0;
    assert(m1.dom().contains(with_ext(ps[0], e)) && !m1.dom().contains(ps[0]));
    assert(m1.dom().contains(with_ext(ps[1], e)) && !m1.dom().contains(ps[1]));
    let post = diff_post_actions(base, second, RemovalPolicy::Remove);
    let rm1 = ActionV::RemoveFile { path: staged_name(base) };
    let rm2 = ActionV::RemoveFile { path: staged_name(second) };
    assert(cleanup_actions(seq![staged_name(base), staged_name(second)]) =~= seq![rm1, rm2]);
    assert(post =~= seq![rm1] + seq![rm2]);
    let m2 = m1.remove(staged_name(base));
    lemma_apply_seq_singleton(m1, rm1);
    lemma_apply_seq_concat(m1, seq![rm1], seq![rm2]);
    assert(apply_one(m1, rm1) == Some(m2));
    let m3 = m2.remove(staged_name(second));
    lemma_apply_seq_singleton(m2, rm2);
    assert(apply_one(m2, rm2) == Some(m3));
    assert(apply_seq(m1, post) == Some(m3));
    lemma_apply_seq_concat(m0, pre, post);
    assert(apply_seq(m0, pre + post) == Some(m3));
    lemma_staged_differs(base, base, e);
    lemma_staged_differs(base, second, e);
    lemma_staged_differs(second, base, e);
    lemma_staged_differs(second, second, e);
    assert(!m3.dom().contains(base) && !m3.dom().contains(second));
    assert forall|k: Seq<char>|
        k != base && k != second && k != staged_name(base) && k != staged_name(
            second,
        ) implies (#[trigger] m3.dom().contains(k) <==> m0.dom().contains(k)) && (
    m0.dom().contains(k) ==> m3[k] == m0[k]) by {
        assert(!is_staged_name(ps, e, k)) by {
            if is_staged_name(ps, e, k) {
                let i = choose|i: int|
                    0 <= i < ps.len() && !retype_noop(ps[i], e) && k == with_ext(ps[i], e);
                assert(ps[0] == base && ps[1] == second);
            }
        }
        assert(!is_moved_source(ps, e, k)) by {
            if is_moved_source(ps, e, k) {
                let i = choose|i: int| 0 <= i < ps.len() && !retype_noop(ps[i], e) && k == ps[i];
                assert(ps[0] == base && ps[1] == second);
            }
        }
        assert(m1.dom().contains(k) <==> m0.dom().contains(k));
        if m0.dom().contains(k) {
            assert(m1[k] == m0[k]);
        }
    }
}

} // verus!
