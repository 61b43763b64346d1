//! The public-input accumulator.
//!
//! Groth16 verification folds the proof's public inputs against the
//! verifying key's input-commitment points into one aggregate point,
//! `vk_x = ic[0] + sum_i [input_i] ic[i + 1]`.  The fold is a verified
//! loop; each scalar multiplication and addition goes through the trusted
//! group-operation wrappers and is pinned by their names, so the result is
//! exactly the value of [`accumulate_spec`].

use vstd::prelude::*;
use vstd::pervasive::unreached;
use crate::bytes_be::{be_nat, pow256, strip_leading_zeros, lemma_stripped_bound, clone_bytes};
use crate::point::{G1Point, G1View, g1_on_curve};
use crate::curve::{g1_add_pt, g1_mul_pt, g1_add_points, g1_mul_scalar, r_nat};
use crate::errors::VerifyError;

verus! {

/// The views of a sequence of points.
pub open spec fn g1_views(s: Seq<G1Point>) -> Seq<G1View> {
    Seq::new(s.len(), |i: int| s[i]@)
}

/// The values of a sequence of big-endian scalars.
pub open spec fn scalar_vals(s: Seq<Vec<u8>>) -> Seq<nat> {
    Seq::new(s.len(), |i: int| be_nat(s[i]@))
}

/// The terms of the fold: each input commitment scaled by its public input,
/// the scalar reduced modulo the scalar-field order.
pub open spec fn acc_terms(ics_tail: Seq<G1View>, ks: Seq<nat>) -> Seq<G1View> {
    Seq::new(ks.len(), |i: int| g1_mul_pt(ics_tail[i], ks[i] % r_nat()))
}

/// A left fold of group additions over a sequence of terms.
pub open spec fn fold_sum(acc: G1View, terms: Seq<G1View>) -> G1View
    decreases terms.len(),
{
    if terms.len() == 0 {
        acc
    } else {
        fold_sum(g1_add_pt(acc, terms[0]), terms.skip(1))
    }
}

/// The accumulated point `vk_x`, as a value: the constant term plus the
/// scaled commitments, in index order.
pub open spec fn accumulate_spec(ics: Seq<G1View>, ks: Seq<nat>) -> G1View
    recommends
        ics.len() == ks.len() + 1,
{
    fold_sum(ics[0], acc_terms(ics.skip(1), ks))
}

/// Appending one term to a left fold adds it on at the end.
pub proof fn lemma_fold_snoc(acc: G1View, terms: Seq<G1View>, t: G1View)
    ensures
        fold_sum(acc, terms.push(t)) == g1_add_pt(fold_sum(acc, terms), t),
    decreases terms.len(),
{
    if terms.len() == 0 {
        assert(terms.push(t).skip(1) =~= Seq::<G1View>::empty());
        assert(terms.push(t)[0] == t);
        assert(fold_sum(g1_add_pt(acc, t), Seq::<G1View>::empty()) == g1_add_pt(acc, t));
        assert(fold_sum(acc, terms) == acc);
    } else {
        assert(terms.push(t).skip(1) =~= terms.skip(1).push(t));
        assert(terms.push(t)[0] == terms[0]);
        assert(fold_sum(acc, terms.push(t)) == fold_sum(
            g1_add_pt(acc, terms[0]),
            terms.skip(1).push(t),
        ));
        lemma_fold_snoc(g1_add_pt(acc, terms[0]), terms.skip(1), t);
        assert(fold_sum(acc, terms) == fold_sum(g1_add_pt(acc, terms[0]), terms.skip(1)));
    }
}

/// A fold over a single term is one addition.
pub proof fn lemma_fold_single(acc: G1View, t: G1View)
    ensures
        fold_sum(acc, seq![t]) == g1_add_pt(acc, t),
{
    assert(seq![t].skip(1) =~= Seq::<G1View>::empty());
    assert(fold_sum(acc, seq![t]) == fold_sum(g1_add_pt(acc, t), seq![t].skip(1)));
    assert(fold_sum(g1_add_pt(acc, t), Seq::<G1View>::empty()) == g1_add_pt(acc, t));
}

/// A fold over a concatenation is a fold over the first part, folded on.
pub proof fn lemma_fold_append(acc: G1View, s: Seq<G1View>, t: Seq<G1View>)
    ensures
        fold_sum(acc, s + t) == fold_sum(fold_sum(acc, s), t),
    decreases s.len(),
{
    if s.len() == 0 {
        assert(s + t =~= t);
    } else {
        assert((s + t)[0] == s[0]);
        assert((s + t).skip(1) =~= s.skip(1) + t);
        lemma_fold_append(g1_add_pt(acc, s[0]), s.skip(1), t);
    }
}

/// Whether every scalar of the sequence fits the multiplier's 512-bit
/// window.  Every value below the scalar-field order does.
pub open spec fn scalars_in_window(ks: Seq<nat>) -> bool {
    forall|i: int| 0 <= i < ks.len() ==> #[trigger] ks[i] < pow256(64)
}

/// Fold the public inputs against the input-commitment points into the
/// aggregate point `vk_x`.
///
/// Exactly when the commitment count is not the input count plus one, the
/// call fails with `ShapeMismatch`; when the shape is right but some input
/// does not fit the multiplier's 512-bit window (no value below the
/// scalar-field order is affected), it fails with `MalformedPoint`;
/// otherwise it returns `vk_x` as [`accumulate_spec`] gives it, processing
/// the inputs in index order.
pub fn accumulate(ics: &Vec<G1Point>, public_inputs: &Vec<Vec<u8>>) -> (r: Result<
    G1Point,
    VerifyError,
>)
    requires
        forall|i: int|
            0 <= i < ics@.len() ==> (#[trigger] ics@[i]).wf() && g1_on_curve(ics@[i]@),
    ensures
        (ics@.len() != public_inputs@.len() + 1) <==> r == Err::<G1Point, VerifyError>(
            VerifyError::ShapeMismatch,
        ),
        ics@.len() == public_inputs@.len() + 1 ==> (r is Ok <==> scalars_in_window(
            scalar_vals(public_inputs@),
        )),
        ics@.len() == public_inputs@.len() + 1 && !scalars_in_window(scalar_vals(public_inputs@))
            ==> r == Err::<G1Point, VerifyError>(VerifyError::MalformedPoint),
        r matches Ok(v) ==> v.wf() && g1_on_curve(v@) && v@ == accumulate_spec(
            g1_views(ics@),
            scalar_vals(public_inputs@),
        ),
{
    if ics.len() == 0 || ics.len() - 1 != public_inputs.len() {
        return Err(VerifyError::ShapeMismatch);
    }
    let n = public_inputs.len();
    let mut acc = ics[0].duplicate();
    let mut i: usize = 0;
    while i < n
        invariant
            0 <= i <= n,
            ics@.len() == n + 1,
            public_inputs@.len() == n,
            forall|k: int|
                0 <= k < ics@.len() ==> (#[trigger] ics@[k]).wf() && g1_on_curve(ics@[k]@),
            acc.wf(),
            g1_on_curve(acc@),
            acc@ == fold_sum(
                ics@[0]@,
                acc_terms(
                    g1_views(ics@).skip(1).take(i as int),
                    scalar_vals(public_inputs@).take(i as int),
                ),
            ),
            forall|k: int|
                0 <= k < i ==> #[trigger] scalar_vals(public_inputs@)[k] < pow256(64),
        decreases n - i,
    {
        let s = strip_leading_zeros(&public_inputs[i]);
        proof {
            lemma_stripped_bound(s@, 64);
        }
        if s.len() > 64 {
            proof {
                assert(scalar_vals(public_inputs@)[i as int] == be_nat(public_inputs@[i as int]@));
                assert(scalar_vals(public_inputs@)[i as int] >= pow256(64));
            }
            return Err(VerifyError::MalformedPoint);
        }
        let term = g1_mul_scalar(&ics[i + 1], &s);
        let next = g1_add_points(&acc, &term);
        proof {
            let tv = g1_views(ics@).skip(1).take(i as int);
            let kv = scalar_vals(public_inputs@).take(i as int);
            lemma_fold_snoc(ics@[0]@, acc_terms(tv, kv), term@);
            assert(acc_terms(tv, kv).push(term@) =~= acc_terms(
                g1_views(ics@).skip(1).take(i + 1),
                scalar_vals(public_inputs@).take(i + 1),
            ));
        }
        acc = next;
        i = i + 1;
    }
    proof {
        assert(g1_views(ics@).skip(1).take(n as int) =~= g1_views(ics@).skip(1));
        assert(scalar_vals(public_inputs@).take(n as int) =~= scalar_vals(public_inputs@));
    }
    Ok(acc)
}

/// A sequence with the entries at positions `i` and `j` exchanged.
pub open spec fn swap_at<A>(s: Seq<A>, i: int, j: int) -> Seq<A> {
    s.update(i, s[j]).update(j, s[i])
}

/// Accumulation does not depend on the order of the commitment/input
/// pairs: exchanging the pair at any position `j` with the pair at any
/// later position `k` — each commitment travelling together with its own
/// public input — leaves the accumulated point unchanged, because the
/// curve group is abelian.  Transpositions generate every permutation, so
/// any reordering of the pairs can be reduced to this statement.  The two
/// components of the result are the two accumulations, computed by
/// separate calls, and they are equal.
#[verifier::rlimit(100)]
pub fn accumulate_swap_pairs(ics: &Vec<G1Point>, public_inputs: &Vec<Vec<u8>>, j: usize, k: usize) -> (r:
    (G1Point, G1Point))
    requires
        forall|i: int|
            0 <= i < ics@.len() ==> (#[trigger] ics@[i]).wf() && g1_on_curve(ics@[i]@),
        ics@.len() == public_inputs@.len() + 1,
        scalars_in_window(scalar_vals(public_inputs@)),
        1 <= j < k,
        k < ics@.len(),
    ensures
        r.0@ == accumulate_spec(g1_views(ics@), scalar_vals(public_inputs@)),
        r.1@ == accumulate_spec(
            swap_at(g1_views(ics@), j as int, k as int),
            swap_at(scalar_vals(public_inputs@), j - 1, k - 1),
        ),
        r.0@ == r.1@,
{
    let ghost vs = g1_views(ics@);
    let ghost ks = scalar_vals(public_inputs@);
    let ghost vs2 = swap_at(vs, j as int, k as int);
    let ghost ks2 = swap_at(ks, j - 1, k - 1);
    let n = ics.len();

    // the same data with the pairs at j and k exchanged
    let mut ics2: Vec<G1Point> = Vec::new();
    let mut idx: usize = 0;
    while idx < n
        invariant
            0 <= idx <= n,
            n == ics@.len(),
            1 <= j < k < n,
            vs == g1_views(ics@),
            vs2 == swap_at(vs, j as int, k as int),
            forall|i: int|
                0 <= i < ics@.len() ==> (#[trigger] ics@[i]).wf() && g1_on_curve(ics@[i]@),
            ics2@.len() == idx,
            forall|t: int|
                0 <= t < idx ==> (#[trigger] ics2@[t])@ == vs2[t] && ics2@[t].wf() && g1_on_curve(
                    ics2@[t]@,
                ),
        decreases n - idx,
    {
        if idx == j {
            ics2.push(ics[k].duplicate());
        } else if idx == k {
            ics2.push(ics[j].duplicate());
        } else {
            ics2.push(ics[idx].duplicate());
        }
        idx = idx + 1;
    }
    let m = public_inputs.len();
    let mut inputs2: Vec<Vec<u8>> = Vec::new();
    let mut idx2: usize = 0;
    while idx2 < m
        invariant
            0 <= idx2 <= m,
            m == public_inputs@.len(),
            1 <= j < k,
            k - 1 < m,
            ks == scalar_vals(public_inputs@),
            ks2 == swap_at(ks, j - 1, k - 1),
            inputs2@.len() == idx2,
            forall|t: int| 0 <= t < idx2 ==> be_nat((#[trigger] inputs2@[t])@) == ks2[t],
        decreases m - idx2,
    {
        if idx2 == j - 1 {
            inputs2.push(clone_bytes(&public_inputs[k - 1]));
        } else if idx2 == k - 1 {
            inputs2.push(clone_bytes(&public_inputs[j - 1]));
        } else {
            inputs2.push(clone_bytes(&public_inputs[idx2]));
        }
        idx2 = idx2 + 1;
    }
    proof {
        assert(scalar_vals(inputs2@) =~= ks2);
        assert(g1_views(ics2@) =~= vs2);
        assert forall|i: int| 0 <= i < ks2.len() implies #[trigger] ks2[i] < pow256(64) by {
            if i == j - 1 {
                assert(ks[k - 1] < pow256(64));
            } else if i == k - 1 {
                assert(ks[j - 1] < pow256(64));
            } else {
                assert(ks[i] < pow256(64));
            }
        }
    }

    // both accumulations; the window and shape conditions hold for both
    let first = match accumulate(ics, public_inputs) {
        Ok(v) => v,
        Err(_) => unreached(),
    };
    let second = match accumulate(&ics2, &inputs2) {
        Ok(v) => v,
        Err(_) => unreached(),
    };

    // the prefix before position j, as a point
    let mut pre_ics: Vec<G1Point> = Vec::new();
    let mut idx3: usize = 0;
    while idx3 < j
        invariant
            0 <= idx3 <= j,
            j < ics@.len(),
            forall|i: int|
                0 <= i < ics@.len() ==> (#[trigger] ics@[i]).wf() && g1_on_curve(ics@[i]@),
            pre_ics@.len() == idx3,
            forall|t: int|
                0 <= t < idx3 ==> (#[trigger] pre_ics@[t])@ == ics@[t]@ && pre_ics@[t].wf()
                    && g1_on_curve(pre_ics@[t]@),
        decreases j - idx3,
    {
        pre_ics.push(ics[idx3].duplicate());
        idx3 = idx3 + 1;
    }
    let mut pre_inputs: Vec<Vec<u8>> = Vec::new();
    let mut idx4: usize = 0;
    while idx4 < j - 1
        invariant
            0 <= idx4 <= j - 1,
            1 <= j,
            j - 1 <= public_inputs@.len(),
            pre_inputs@.len() == idx4,
            forall|t: int|
                0 <= t < idx4 ==> be_nat((#[trigger] pre_inputs@[t])@) == be_nat(
                    public_inputs@[t]@,
                ),
        decreases j - 1 - idx4,
    {
        pre_inputs.push(clone_bytes(&public_inputs[idx4]));
        idx4 = idx4 + 1;
    }
    proof {
        assert(g1_views(pre_ics@) =~= vs.take(j as int));
        assert(scalar_vals(pre_inputs@) =~= ks.take(j - 1));
        assert forall|i: int| 0 <= i < ks.take(j - 1).len() implies #[trigger] ks.take(j - 1)[i]
            < pow256(64) by {
            assert(ks[i] < pow256(64));
        }
    }
    let acc_pre = match accumulate(&pre_ics, &pre_inputs) {
        Ok(v) => v,
        Err(_) => unreached(),
    };

    // the two exchanged terms, as points
    let s1 = strip_leading_zeros(&public_inputs[j - 1]);
    let s2 = strip_leading_zeros(&public_inputs[k - 1]);
    proof {
        lemma_stripped_bound(s1@, 64);
        lemma_stripped_bound(s2@, 64);
        assert(ks[j - 1] < pow256(64));
        assert(ks[k - 1] < pow256(64));
    }
    let tx = g1_mul_scalar(&ics[j], &s1);
    let ty = g1_mul_scalar(&ics[k], &s2);

    let ghost terms = acc_terms(vs.skip(1), ks);
    let ghost terms2 = acc_terms(vs2.skip(1), ks2);
    let ghost jj = j as int;
    let ghost kk = k as int;
    let ghost mid = terms.subrange(jj, kk - 1);

    // walk the middle block, harvesting the facts that let the two
    // exchanged terms commute across it: along the way, `bx = b + tx` and
    // `by = b + ty` for the running block fold `b`
    let mut b = acc_pre.duplicate();
    let mut bx = g1_add_points(&acc_pre, &tx);
    let mut by = g1_add_points(&acc_pre, &ty);
    let mut t: usize = 0;
    let ghost a = acc_pre@;
    while t < k - 1 - j
        invariant
            0 <= t <= k - 1 - j,
            1 <= j < k < n,
            n == ics@.len(),
            n == public_inputs@.len() + 1,
            vs == g1_views(ics@),
            ks == scalar_vals(public_inputs@),
            terms == acc_terms(vs.skip(1), ks),
            mid == terms.subrange(jj, kk - 1),
            jj == j as int,
            kk == k as int,
            forall|i: int|
                0 <= i < ics@.len() ==> (#[trigger] ics@[i]).wf() && g1_on_curve(ics@[i]@),
            forall|i: int| 0 <= i < ks.len() ==> #[trigger] ks[i] < pow256(64),
            tx.wf() && g1_on_curve(tx@) && tx@ == terms[jj - 1],
            ty.wf() && g1_on_curve(ty@) && ty@ == terms[kk - 1],
            b.wf() && g1_on_curve(b@),
            bx.wf() && g1_on_curve(bx@),
            by.wf() && g1_on_curve(by@),
            b@ == fold_sum(a, mid.take(t as int)),
            bx@ == fold_sum(g1_add_pt(a, tx@), mid.take(t as int)),
            by@ == fold_sum(g1_add_pt(a, ty@), mid.take(t as int)),
            bx@ == g1_add_pt(b@, tx@),
            by@ == g1_add_pt(b@, ty@),
            crate::curve::g1_add_assoc_fact(b@, tx@, bx@),
            crate::curve::g1_add_assoc_fact(b@, ty@, by@),
        decreases k - 1 - j - t,
    {
        let s_mid = strip_leading_zeros(&public_inputs[j + t]);
        proof {
            lemma_stripped_bound(s_mid@, 64);
            assert(ks[jj + t] < pow256(64));
        }
        let tm = g1_mul_scalar(&ics[j + t + 1], &s_mid);
        proof {
            assert(tm@ == terms[jj + t]);
            assert(mid[t as int] == terms[jj + t]);
        }
        let nb = g1_add_points(&b, &tm);
        let u = g1_add_points(&tx, &tm);
        let w = g1_add_points(&ty, &tm);
        let nbx = g1_add_points(&nb, &tx);
        let nby = g1_add_points(&nb, &ty);
        proof {
            // fold one more middle term onto each running point
            lemma_fold_snoc(a, mid.take(t as int), mid[t as int]);
            lemma_fold_snoc(g1_add_pt(a, tx@), mid.take(t as int), mid[t as int]);
            lemma_fold_snoc(g1_add_pt(a, ty@), mid.take(t as int), mid[t as int]);
            assert(mid.take(t as int).push(mid[t as int]) =~= mid.take(t + 1));
            // (b + tx) + m == b + (tx + m) == b + (m + tx) == (b + m) + tx
            assert(g1_add_pt(bx@, tm@) == g1_add_pt(b@, g1_add_pt(tx@, tm@)));
            assert(u@ == g1_add_pt(tx@, tm@) && u@ == g1_add_pt(tm@, tx@));
            assert(g1_add_pt(nb@, tx@) == g1_add_pt(b@, g1_add_pt(tm@, tx@)));
            assert(nbx@ == g1_add_pt(bx@, tm@));
            // and likewise for ty
            assert(g1_add_pt(by@, tm@) == g1_add_pt(b@, g1_add_pt(ty@, tm@)));
            assert(w@ == g1_add_pt(ty@, tm@) && w@ == g1_add_pt(tm@, ty@));
            assert(g1_add_pt(nb@, ty@) == g1_add_pt(b@, g1_add_pt(tm@, ty@)));
            assert(nby@ == g1_add_pt(by@, tm@));
        }
        b = nb;
        bx = nbx;
        by = nby;
        t = t + 1;
    }

    // close the block with the other exchanged term on each side
    let cx = g1_add_points(&bx, &ty);
    let cy = g1_add_points(&by, &tx);
    let u2 = g1_add_points(&tx, &ty);
    proof {
        // (b + tx) + ty == b + (tx + ty) == b + (ty + tx) == (b + ty) + tx
        assert(g1_add_pt(bx@, ty@) == g1_add_pt(b@, g1_add_pt(tx@, ty@)));
        assert(u2@ == g1_add_pt(tx@, ty@) && u2@ == g1_add_pt(ty@, tx@));
        assert(g1_add_pt(by@, tx@) == g1_add_pt(b@, g1_add_pt(ty@, tx@)));
        assert(cx@ == cy@);

        let tail = terms.skip(kk);
        assert(mid.take(k - 1 - j) =~= mid);

        // the original terms split as prefix ++ [tx] ++ mid ++ [ty] ++ tail
        assert(terms =~= terms.take(jj - 1) + (seq![terms[jj - 1]] + (mid + (seq![terms[kk - 1]]
            + tail))));
        lemma_fold_append(vs[0], terms.take(jj - 1), seq![terms[jj - 1]] + (mid + (seq![terms[kk
            - 1]] + tail)));
        let pre_terms = acc_terms(vs.take(jj).skip(1), ks.take(jj - 1));
        assert(pre_terms =~= terms.take(jj - 1));
        assert(a == fold_sum(vs[0], terms.take(jj - 1)));
        assert(seq![terms[jj - 1]] + (mid + (seq![terms[kk - 1]] + tail)) =~= (seq![terms[jj - 1]]
            + mid) + (seq![terms[kk - 1]] + tail));
        lemma_fold_append(a, seq![terms[jj - 1]] + mid, seq![terms[kk - 1]] + tail);
        lemma_fold_append(a, seq![terms[jj - 1]], mid);
        lemma_fold_single(a, terms[jj - 1]);
        assert(fold_sum(a, seq![terms[jj - 1]]) == g1_add_pt(a, tx@));
        assert(fold_sum(a, seq![terms[jj - 1]] + mid) == bx@);
        lemma_fold_append(bx@, seq![terms[kk - 1]], tail);
        lemma_fold_single(bx@, terms[kk - 1]);
        assert(fold_sum(bx@, seq![terms[kk - 1]]) == cx@);
        assert(first@ == fold_sum(cx@, tail));

        // the swapped terms split the same way with tx and ty exchanged
        assert(terms2 =~= terms.take(jj - 1) + (seq![terms[kk - 1]] + (mid + (seq![terms[jj - 1]]
            + tail)))) by {
            assert forall|i: int| 0 <= i < terms2.len() implies terms2[i] == (terms.take(jj - 1)
                + (seq![terms[kk - 1]] + (mid + (seq![terms[jj - 1]] + tail))))[i] by {
                if i == jj - 1 {
                    assert(terms2[i] == g1_mul_pt(vs2.skip(1)[i], ks2[i] % r_nat()));
                } else if i == kk - 1 {
                    assert(terms2[i] == g1_mul_pt(vs2.skip(1)[i], ks2[i] % r_nat()));
                } else {
                    assert(terms2[i] == g1_mul_pt(vs2.skip(1)[i], ks2[i] % r_nat()));
                }
            }
        }
        lemma_fold_append(vs2[0], terms.take(jj - 1), seq![terms[kk - 1]] + (mid + (seq![terms[jj
            - 1]] + tail)));
        assert(vs2[0] == vs[0]);
        assert(seq![terms[kk - 1]] + (mid + (seq![terms[jj - 1]] + tail)) =~= (seq![terms[kk - 1]]
            + mid) + (seq![terms[jj - 1]] + tail));
        lemma_fold_append(a, seq![terms[kk - 1]] + mid, seq![terms[jj - 1]] + tail);
        lemma_fold_append(a, seq![terms[kk - 1]], mid);
        lemma_fold_single(a, terms[kk - 1]);
        assert(fold_sum(a, seq![terms[kk - 1]]) == g1_add_pt(a, ty@));
        assert(fold_sum(a, seq![terms[kk - 1]] + mid) == by@);
        lemma_fold_append(by@, seq![terms[jj - 1]], tail);
        lemma_fold_single(by@, terms[jj - 1]);
        assert(fold_sum(by@, seq![terms[jj - 1]]) == cy@);
        assert(second@ == fold_sum(cy@, tail));
    }
    (first, second)
}

} // verus!
