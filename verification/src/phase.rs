//! What a phase yields: behind each partial solution, the solutions of the
//! phase depth by depth, as a specification and as a lazy sequence.

use vstd::prelude::*;
use crate::algs::{
    applied, apply_alg, solution_merged, Algorithm, AlgorithmView, Solution, SolutionStepView,
    SolutionView,
};
use crate::cancel::CancelToken;
use crate::cube::{Invertible, Move, Turnable};
use crate::df_search::{algs_view, dfs_iter, lemma_variant_lengths, variant_results};
use crate::step::{DefaultStepOptions, NissType, Step, StepVariant};
use crate::stream::{
    dec_cap, firstn, grown, is_capped, lemma_firstn_absorb, lemma_firstn_first, lemma_grown_extend,
    lemma_grown_none, lemma_grown_stop, min_cap, sols_view, SolutionList, SolutionSource,
};

verus! {

/// The solution `parent` with each of `algs` in turn as one more step,
/// under the name of the phase and that of the variant.
pub open spec fn extend_all(
    parent: SolutionView,
    name: Seq<char>,
    variant: Seq<char>,
    algs: Seq<AlgorithmView>,
) -> Seq<SolutionView> {
    Seq::new(algs.len(), |i: int| parent.push(SolutionStepView { name, variant, alg: algs[i] }))
}

/// What the variants `variants` find at `depth` from `cube`, variant by
/// variant, each algorithm as one more step of `parent`.
pub open spec fn variants_results<'a, C: Turnable + Invertible>(
    variants: Seq<Box<dyn StepVariant<C> + 'a>>,
    name: Seq<char>,
    cube: C,
    depth: u8,
    niss: NissType,
    prev_normal: Option<Move>,
    prev_inverse: Option<Move>,
    parent: SolutionView,
) -> Seq<SolutionView>
    decreases variants.len(),
{
    if variants.len() == 0 {
        Seq::empty()
    } else {
        extend_all(
            parent,
            name,
            variants[0].spec_name(),
            variant_results(&*variants[0], cube, depth, niss, prev_normal, prev_inverse),
        ) + variants_results(
            variants.skip(1),
            name,
            cube,
            depth,
            niss,
            prev_normal,
            prev_inverse,
            parent,
        )
    }
}

/// All that the phase finds with exactly `depth` moves behind the partial
/// solution `parent` of the puzzle `cube`: the search starts from the state
/// that `parent` leads to and knows the last move of each track.
pub open spec fn depth_results<'a, C: Turnable + Invertible>(
    step: &Step<'a, C>,
    opts: DefaultStepOptions,
    cube: C,
    parent: SolutionView,
    depth: u8,
) -> Seq<SolutionView> {
    let alg = solution_merged(parent);
    variants_results(
        step.step_variants@,
        step.name@,
        applied(cube, alg),
        depth,
        opts.niss_type,
        alg.last_normal(),
        alg.last_inverse(),
        parent,
    )
}

/// What the phase yields behind `parent` for the depths from `depth` to the
/// largest: depth by depth, at each depth no more than the quality cap.
pub open spec fn depths_from<'a, C: Turnable + Invertible>(
    step: &Step<'a, C>,
    opts: DefaultStepOptions,
    cube: C,
    parent: SolutionView,
    depth: int,
) -> Seq<SolutionView>
    decreases opts.max_moves - depth + 1,
{
    if depth < 0 || depth > opts.max_moves {
        Seq::empty()
    } else {
        firstn(
            depth_results(step, opts, cube, parent, depth as u8),
            opts.spec_quality_cap(depth as u8),
        )
            + depths_from(step, opts, cube, parent, depth + 1)
    }
}

/// What the phase yields behind the partial solutions `parents`, parent by
/// parent, for each the depths from the smallest to the largest.
pub open spec fn expand<'a, C: Turnable + Invertible>(
    step: &Step<'a, C>,
    opts: DefaultStepOptions,
    cube: C,
    parents: Seq<SolutionView>,
) -> Seq<SolutionView>
    decreases parents.len(),
{
    if parents.len() == 0 {
        Seq::empty()
    } else {
        depths_from(step, opts, cube, parents[0], opts.min_moves as int) + expand(
            step,
            opts,
            cube,
            parents.skip(1),
        )
    }
}

/// The output of a phase: what it yields behind `parents`, cut at the
/// phase's limit.
pub open spec fn step_output<'a, C: Turnable + Invertible>(
    step: &Step<'a, C>,
    opts: DefaultStepOptions,
    cube: C,
    parents: Seq<SolutionView>,
) -> Seq<SolutionView> {
    firstn(expand(step, opts, cube, parents), opts.step_limit)
}

/// Whether the last step of the solution `s` has between `lo` and `hi`
/// moves.
pub open spec fn last_step_within(s: SolutionView, lo: int, hi: int) -> bool {
    s.len() > 0 && lo <= s.last().alg.len() <= hi
}

/// Whether the last step of every solution of `s` has between `lo` and
/// `hi` moves.
pub open spec fn all_within(s: Seq<SolutionView>, lo: int, hi: int) -> bool {
    forall|i: int| 0 <= i < s.len() ==> last_step_within(#[trigger] s[i], lo, hi)
}

/// Two lists of solutions whose last steps lie within bounds make one,
/// within the wider bounds.
pub proof fn lemma_all_within_concat(
    a: Seq<SolutionView>,
    b: Seq<SolutionView>,
    lo_a: int,
    lo_b: int,
    hi: int,
)
    requires
        all_within(a, lo_a, hi),
        all_within(b, lo_b, hi),
    ensures
        all_within(a + b, if lo_a <= lo_b { lo_a } else { lo_b }, hi),
{
    let lo = if lo_a <= lo_b { lo_a } else { lo_b };
    assert forall|i: int| 0 <= i < (a + b).len() implies last_step_within(
        #[trigger] (a + b)[i],
        lo,
        hi,
    ) by {
        if i < a.len() {
            assert((a + b)[i] == a[i]);
        } else {
            assert((a + b)[i] == b[i - a.len()]);
        }
    }
}

/// What holds of the last step of every solution holds of that of the
/// first few.
pub proof fn lemma_all_within_firstn(s: Seq<SolutionView>, cap: Option<usize>, lo: int, hi: int)
    requires
        all_within(s, lo, hi),
    ensures
        all_within(firstn(s, cap), lo, hi),
{
    assert forall|i: int| 0 <= i < firstn(s, cap).len() implies last_step_within(
        #[trigger] firstn(s, cap)[i],
        lo,
        hi,
    ) by {
        assert(firstn(s, cap)[i] == s[i]);
    }
}

/// What the variants find at `depth` ends in a step of exactly `depth`
/// moves.
pub proof fn lemma_variants_lengths<'a, C: Turnable + Invertible>(
    variants: Seq<Box<dyn StepVariant<C> + 'a>>,
    name: Seq<char>,
    cube: C,
    depth: u8,
    niss: NissType,
    prev_normal: Option<Move>,
    prev_inverse: Option<Move>,
    parent: SolutionView,
)
    ensures
        all_within(
            variants_results(variants, name, cube, depth, niss, prev_normal, prev_inverse, parent),
            depth as int,
            depth as int,
        ),
    decreases variants.len(),
{
    if variants.len() > 0 {
        let raw = variant_results(&*variants[0], cube, depth, niss, prev_normal, prev_inverse);
        let first = extend_all(parent, name, variants[0].spec_name(), raw);
        lemma_variant_lengths(&*variants[0], cube, depth, niss, prev_normal, prev_inverse);
        assert forall|i: int| 0 <= i < first.len() implies last_step_within(
            #[trigger] first[i],
            depth as int,
            depth as int,
        ) by {
            assert(first[i].last().alg == raw[i]);
        }
        lemma_variants_lengths(
            variants.skip(1),
            name,
            cube,
            depth,
            niss,
            prev_normal,
            prev_inverse,
            parent,
        );
        lemma_all_within_concat(
            first,
            variants_results(
                variants.skip(1),
                name,
                cube,
                depth,
                niss,
                prev_normal,
                prev_inverse,
                parent,
            ),
            depth as int,
            depth as int,
            depth as int,
        );
    }
}

/// What a phase yields behind one starting point from `depth` on ends in a
/// step of at least `depth` and at most `max_moves` moves.
pub proof fn lemma_depths_lengths<'a, C: Turnable + Invertible>(
    step: &Step<'a, C>,
    opts: DefaultStepOptions,
    cube: C,
    parent: SolutionView,
    depth: int,
)
    requires
        depth >= 0,
    ensures
        all_within(depths_from(step, opts, cube, parent, depth), depth, opts.max_moves as int),
    decreases opts.max_moves - depth + 1,
{
    if depth > opts.max_moves {
    } else {
        let alg = solution_merged(parent);
        let all = depth_results(step, opts, cube, parent, depth as u8);
        lemma_variants_lengths(
            step.step_variants@,
            step.name@,
            applied(cube, alg),
            depth as u8,
            opts.niss_type,
            alg.last_normal(),
            alg.last_inverse(),
            parent,
        );
        assert(all_within(all, depth, opts.max_moves as int));
        lemma_all_within_firstn(
            all,
            opts.spec_quality_cap(depth as u8),
            depth,
            opts.max_moves as int,
        );
        lemma_depths_lengths(step, opts, cube, parent, depth + 1);
        lemma_all_within_concat(
            firstn(all, opts.spec_quality_cap(depth as u8)),
            depths_from(step, opts, cube, parent, depth + 1),
            depth,
            depth + 1,
            opts.max_moves as int,
        );
    }
}

/// No solution that a phase yields ends in a step of fewer than
/// `min_moves` or more than `max_moves` moves.
pub proof fn lemma_expand_lengths<'a, C: Turnable + Invertible>(
    step: &Step<'a, C>,
    opts: DefaultStepOptions,
    cube: C,
    parents: Seq<SolutionView>,
)
    ensures
        all_within(
            expand(step, opts, cube, parents),
            opts.min_moves as int,
            opts.max_moves as int,
        ),
        all_within(
            step_output(step, opts, cube, parents),
            opts.min_moves as int,
            opts.max_moves as int,
        ),
    decreases parents.len(),
{
    if parents.len() > 0 {
        lemma_depths_lengths(step, opts, cube, parents[0], opts.min_moves as int);
        lemma_expand_lengths(step, opts, cube, parents.skip(1));
        lemma_all_within_concat(
            depths_from(step, opts, cube, parents[0], opts.min_moves as int),
            expand(step, opts, cube, parents.skip(1)),
            opts.min_moves as int,
            opts.min_moves as int,
            opts.max_moves as int,
        );
    }
    lemma_all_within_firstn(
        expand(step, opts, cube, parents),
        opts.step_limit,
        opts.min_moves as int,
        opts.max_moves as int,
    );
}

/// Whether no solution of `s` has a longer last step than one that comes
/// later.
pub open spec fn ordered_by_last_step(s: Seq<SolutionView>) -> bool {
    forall|i: int, j: int|
        0 <= i <= j < s.len() ==> (#[trigger] s[i]).last().alg.len() <= (#[trigger] s[j]).last().alg.len()
}

/// Behind one starting point a phase yields its shorter solutions before
/// its longer ones.
pub proof fn lemma_depths_ordered<'a, C: Turnable + Invertible>(
    step: &Step<'a, C>,
    opts: DefaultStepOptions,
    cube: C,
    parent: SolutionView,
    depth: int,
)
    requires
        depth >= 0,
    ensures
        ordered_by_last_step(depths_from(step, opts, cube, parent, depth)),
    decreases opts.max_moves - depth + 1,
{
    if depth > opts.max_moves {
    } else {
        let alg = solution_merged(parent);
        let all = depth_results(step, opts, cube, parent, depth as u8);
        let first = firstn(all, opts.spec_quality_cap(depth as u8));
        let rest = depths_from(step, opts, cube, parent, depth + 1);
        lemma_variants_lengths(
            step.step_variants@,
            step.name@,
            applied(cube, alg),
            depth as u8,
            opts.niss_type,
            alg.last_normal(),
            alg.last_inverse(),
            parent,
        );
        lemma_all_within_firstn(all, opts.spec_quality_cap(depth as u8), depth, depth);
        lemma_depths_lengths(step, opts, cube, parent, depth + 1);
        lemma_depths_ordered(step, opts, cube, parent, depth + 1);
        let whole = first + rest;
        assert forall|i: int, j: int| 0 <= i <= j < whole.len() implies (#[trigger] whole[i]).last().alg.len()
            <= (#[trigger] whole[j]).last().alg.len() by {
            if i < first.len() {
                assert(whole[i] == first[i]);
                assert(last_step_within(first[i], depth, depth));
            } else {
                assert(whole[i] == rest[i - first.len()]);
                assert(last_step_within(rest[i - first.len()], depth + 1, opts.max_moves as int));
            }
            if j < first.len() {
                assert(whole[j] == first[j]);
                assert(last_step_within(first[j], depth, depth));
            } else {
                assert(whole[j] == rest[j - first.len()]);
                assert(last_step_within(rest[j - first.len()], depth + 1, opts.max_moves as int));
            }
        }
    }
}

/// Whether the solution `s` has one step for each of the phases with the
/// options `phases`, each with no fewer moves than the phase's least and no
/// more than its largest number.
pub open spec fn fits(s: SolutionView, phases: Seq<DefaultStepOptions>) -> bool {
    &&& s.len() == phases.len()
    &&& forall|j: int|
        0 <= j < s.len() ==> phases[j].min_moves <= (#[trigger] s[j]).alg.len()
            <= phases[j].max_moves
}

/// Whether every solution of `s` fits the phases.
pub open spec fn all_fit(s: Seq<SolutionView>, phases: Seq<DefaultStepOptions>) -> bool {
    forall|i: int| 0 <= i < s.len() ==> fits(#[trigger] s[i], phases)
}

/// Two lists of solutions that fit the phases make one.
pub proof fn lemma_all_fit_concat(
    a: Seq<SolutionView>,
    b: Seq<SolutionView>,
    phases: Seq<DefaultStepOptions>,
)
    requires
        all_fit(a, phases),
        all_fit(b, phases),
    ensures
        all_fit(a + b, phases),
{
    assert forall|i: int| 0 <= i < (a + b).len() implies fits(#[trigger] (a + b)[i], phases) by {
        if i < a.len() {
            assert((a + b)[i] == a[i]);
        } else {
            assert((a + b)[i] == b[i - a.len()]);
        }
    }
}

/// The first of a list of solutions that fit the phases fit them.
pub proof fn lemma_all_fit_firstn(
    s: Seq<SolutionView>,
    cap: Option<usize>,
    phases: Seq<DefaultStepOptions>,
)
    requires
        all_fit(s, phases),
    ensures
        all_fit(firstn(s, cap), phases),
{
    assert forall|i: int| 0 <= i < firstn(s, cap).len() implies fits(
        #[trigger] firstn(s, cap)[i],
        phases,
    ) by {
        assert(firstn(s, cap)[i] == s[i]);
    }
}

/// What the variants find at a depth within the bounds of their phase,
/// behind a solution that fits the phases before, fits these and their own.
pub proof fn lemma_variants_fit<'a, C: Turnable + Invertible>(
    variants: Seq<Box<dyn StepVariant<C> + 'a>>,
    name: Seq<char>,
    cube: C,
    depth: u8,
    niss: NissType,
    prev_normal: Option<Move>,
    prev_inverse: Option<Move>,
    parent: SolutionView,
    phases: Seq<DefaultStepOptions>,
    opts: DefaultStepOptions,
)
    requires
        fits(parent, phases),
        opts.min_moves <= depth <= opts.max_moves,
    ensures
        all_fit(
            variants_results(variants, name, cube, depth, niss, prev_normal, prev_inverse, parent),
            phases.push(opts),
        ),
    decreases variants.len(),
{
    if variants.len() > 0 {
        let raw = variant_results(&*variants[0], cube, depth, niss, prev_normal, prev_inverse);
        let first = extend_all(parent, name, variants[0].spec_name(), raw);
        lemma_variant_lengths(&*variants[0], cube, depth, niss, prev_normal, prev_inverse);
        assert forall|i: int| 0 <= i < first.len() implies fits(
            #[trigger] first[i],
            phases.push(opts),
        ) by {
            let s = first[i];
            assert(s == parent.push(
                SolutionStepView { name, variant: variants[0].spec_name(), alg: raw[i] },
            ));
            assert forall|j: int| 0 <= j < s.len() implies phases.push(opts)[j].min_moves <= (
            #[trigger] s[j]).alg.len() <= phases.push(opts)[j].max_moves by {
                if j < parent.len() {
                    assert(s[j] == parent[j]);
                    assert(phases.push(opts)[j] == phases[j]);
                } else {
                    assert(s[j].alg == raw[i]);
                }
            }
        }
        lemma_variants_fit(
            variants.skip(1),
            name,
            cube,
            depth,
            niss,
            prev_normal,
            prev_inverse,
            parent,
            phases,
            opts,
        );
        lemma_all_fit_concat(
            first,
            variants_results(
                variants.skip(1),
                name,
                cube,
                depth,
                niss,
                prev_normal,
                prev_inverse,
                parent,
            ),
            phases.push(opts),
        );
    }
}

/// What a phase yields behind a solution that fits the phases before fits
/// these and the phase itself.
pub proof fn lemma_depths_fit<'a, C: Turnable + Invertible>(
    step: &Step<'a, C>,
    opts: DefaultStepOptions,
    cube: C,
    parent: SolutionView,
    depth: int,
    phases: Seq<DefaultStepOptions>,
)
    requires
        fits(parent, phases),
        depth >= opts.min_moves,
    ensures
        all_fit(depths_from(step, opts, cube, parent, depth), phases.push(opts)),
    decreases opts.max_moves - depth + 1,
{
    if depth > opts.max_moves {
    } else {
        let alg = solution_merged(parent);
        let all = depth_results(step, opts, cube, parent, depth as u8);
        lemma_variants_fit(
            step.step_variants@,
            step.name@,
            applied(cube, alg),
            depth as u8,
            opts.niss_type,
            alg.last_normal(),
            alg.last_inverse(),
            parent,
            phases,
            opts,
        );
        lemma_all_fit_firstn(all, opts.spec_quality_cap(depth as u8), phases.push(opts));
        lemma_depths_fit(step, opts, cube, parent, depth + 1, phases);
        lemma_all_fit_concat(
            firstn(all, opts.spec_quality_cap(depth as u8)),
            depths_from(step, opts, cube, parent, depth + 1),
            phases.push(opts),
        );
    }
}

/// Behind solutions that fit the phases before, a phase yields solutions
/// that fit these and the phase itself: one more step, of no fewer than
/// `min_moves` and no more than `max_moves` moves.
pub proof fn lemma_expand_fit<'a, C: Turnable + Invertible>(
    step: &Step<'a, C>,
    opts: DefaultStepOptions,
    cube: C,
    parents: Seq<SolutionView>,
    phases: Seq<DefaultStepOptions>,
)
    requires
        all_fit(parents, phases),
    ensures
        all_fit(expand(step, opts, cube, parents), phases.push(opts)),
        all_fit(step_output(step, opts, cube, parents), phases.push(opts)),
    decreases parents.len(),
{
    if parents.len() > 0 {
        lemma_depths_fit(step, opts, cube, parents[0], opts.min_moves as int, phases);
        assert forall|i: int| 0 <= i < parents.skip(1).len() implies fits(
            #[trigger] parents.skip(1)[i],
            phases,
        ) by {
            assert(parents.skip(1)[i] == parents[i + 1]);
        }
        lemma_expand_fit(step, opts, cube, parents.skip(1), phases);
        lemma_all_fit_concat(
            depths_from(step, opts, cube, parents[0], opts.min_moves as int),
            expand(step, opts, cube, parents.skip(1)),
            phases.push(opts),
        );
    }
    lemma_all_fit_firstn(expand(step, opts, cube, parents), opts.step_limit, phases.push(opts));
}

/// Appends to `out` what the phase finds with exactly `depth` moves behind
/// `parent`, until `out` has reached the cap or the token is set. Returns
/// whether the token stopped the search.
pub fn search_depth<'a, C: Turnable + Invertible + Copy>(
    step: &Step<'a, C>,
    opts: &DefaultStepOptions,
    cube: C,
    parent: &Solution,
    depth: u8,
    cap: Option<usize>,
    cancel: Option<&CancelToken>,
    out: &mut Vec<Solution>,
) -> (interrupted: bool)
    ensures
        grown(
            sols_view(old(out)@),
            sols_view(final(out)@),
            depth_results(step, *opts, cube, parent@, depth),
            cap,
            cancel is Some,
            interrupted,
        ),
{
    let alg = parent.merged();
    let mut state = cube;
    apply_alg(&mut state, &alg);
    let prev_normal = alg.last_normal();
    let prev_inverse = alg.last_inverse();
    let niss = opts.niss_type;
    let ghost before = sols_view(out@);
    let ghost total = depth_results(step, *opts, cube, parent@, depth);
    let ghost mut done: Seq<SolutionView> = Seq::empty();
    let mut i: usize = 0;
    proof {
        lemma_grown_none(before, done, cap, cancel is Some, false);
        assert(step.step_variants@.skip(0) =~= step.step_variants@);
        assert(done + total =~= total);
    }
    while i < step.step_variants.len()
        invariant
            i <= step.step_variants.len(),
            before == sols_view(old(out)@),
            total == depth_results(step, *opts, cube, parent@, depth),
            total == done + variants_results(
                step.step_variants@.skip(i as int),
                step.name@,
                state,
                depth,
                niss,
                prev_normal,
                prev_inverse,
                parent@,
            ),
            grown(before, sols_view(out@), done, cap, cancel is Some, false),
            out@.len() - before.len() == done.len(),
        decreases step.step_variants.len() - i,
    {
        let ghost rest = variants_results(
            step.step_variants@.skip(i as int + 1),
            step.name@,
            state,
            depth,
            niss,
            prev_normal,
            prev_inverse,
            parent@,
        );
        let v = &step.step_variants[i];
        let ghost raw = variant_results(&**v, state, depth, niss, prev_normal, prev_inverse);
        let ghost found_all = extend_all(parent@, step.name@, v.spec_name(), raw);
        proof {
            assert(step.step_variants@.skip(i as int).skip(1) =~= step.step_variants@.skip(
                i as int + 1,
            ));
            assert(step.step_variants@.skip(i as int)[0] == *v);
            assert(total =~= (done + found_all) + rest);
        }
        if is_capped(out.len(), cap) {
            proof {
                lemma_grown_stop(
                    before,
                    sols_view(out@),
                    done,
                    found_all + rest,
                    cap,
                    cancel is Some,
                    false,
                );
                assert(done + (found_all + rest) =~= total);
            }
            return false;
        }
        let sub_cap = match cap {
            Some(c) => Some(c - out.len()),
            None => None,
        };
        let mut found: Vec<Algorithm> = Vec::new();
        let interrupted = dfs_iter(
            &**v,
            state,
            depth,
            niss,
            prev_normal,
            prev_inverse,
            sub_cap,
            cancel,
            &mut found,
        );
        let name = v.name();
        let ghost mid = sols_view(out@);
        let mut j: usize = 0;
        proof {
            assert(algs_view(found@) =~= raw.take(found@.len() as int));
            assert(mid + found_all.take(0) =~= mid);
        }
        while j < found.len()
            invariant
                j <= found.len(),
                found@.len() <= raw.len(),
                algs_view(found@) == raw.take(found@.len() as int),
                found_all == extend_all(parent@, step.name@, name@, raw),
                sols_view(out@) == mid + found_all.take(j as int),
            decreases found.len() - j,
        {
            let ghost so_far = sols_view(out@);
            let mut sol = parent.clone();
            sol.add_step(step.name().to_owned(), name.to_owned(), found[j].clone());
            proof {
                assert(algs_view(found@)[j as int] == raw[j as int]);
                assert(sol@ == found_all[j as int]);
            }
            out.push(sol);
            proof {
                assert(sols_view(out@) =~= so_far.push(found_all[j as int]));
                assert(found_all.take(j as int + 1) =~= found_all.take(j as int).push(
                    found_all[j as int],
                ));
            }
            j += 1;
        }
        proof {
            assert(grown(mid, sols_view(out@), found_all, cap, cancel is Some, interrupted));
            lemma_grown_extend(
                before,
                mid,
                sols_view(out@),
                done,
                found_all,
                cap,
                cancel is Some,
                interrupted,
            );
        }
        if interrupted || is_capped(out.len(), cap) {
            proof {
                lemma_grown_stop(
                    before,
                    sols_view(out@),
                    done + found_all,
                    rest,
                    cap,
                    cancel is Some,
                    interrupted,
                );
            }
            return interrupted;
        }
        proof {
            done = done + found_all;
        }
        i += 1;
    }
    proof {
        assert(step.step_variants@.skip(i as int).len() == 0);
        assert(total =~= done);
    }
    false
}

/// A lazy sequence of solutions of any kind. Once it has yielded `None` it
/// yields nothing more.
pub struct SolutionIterator<'a> {
    solutions: Box<dyn SolutionSource + 'a>,
    finished: bool,
}

impl<'a> SolutionIterator<'a> {
    /// Whether the sequence has yielded `None`.
    pub closed spec fn finished(&self) -> bool {
        self.finished
    }

    /// The solutions of a list, in order.
    pub fn from_list(list: SolutionList) -> (r: SolutionIterator<'a>)
        requires
            list.inv(),
        ensures
            r.inv(),
            !r.finished(),
            r.remaining() == list.remaining(),
            r.halted() == list.halted(),
            r.cancellable() == list.cancellable(),
    {
        SolutionIterator { solutions: Box::new(list), finished: false }
    }

    /// The solutions of a phase.
    pub fn from_step<C: Turnable + Invertible + Copy + 'a>(step: StepIterator<'a, C>) -> (r:
        SolutionIterator<'a>)
        requires
            step.inv(),
        ensures
            r.inv(),
            !r.finished(),
            r.remaining() == step.remaining(),
            r.halted() == step.halted(),
            r.cancellable() == step.cancellable(),
    {
        SolutionIterator { solutions: Box::new(step), finished: false }
    }
}

impl<'a> SolutionSource for SolutionIterator<'a> {
    closed spec fn inv(&self) -> bool {
        &&& self.solutions.inv()
        &&& self.finished ==> self.solutions.halted() || self.solutions.remaining().len() == 0
    }

    closed spec fn remaining(&self) -> Seq<SolutionView> {
        self.solutions.remaining()
    }

    closed spec fn halted(&self) -> bool {
        self.solutions.halted()
    }

    closed spec fn cancellable(&self) -> bool {
        self.solutions.cancellable()
    }

    fn next(&mut self) -> (r: Option<Solution>)
        ensures
            old(self).finished() ==> r is None,
            r is None ==> final(self).finished(),
            r is Some ==> !final(self).finished(),
    {
        if self.finished {
            return None;
        }
        let r = self.solutions.next();
        if r.is_none() {
            self.finished = true;
        }
        r
    }
}

/// The lazy output of one phase: behind each partial solution that the
/// source yields, the phase's solutions by depth. A search is run only when
/// an item is asked for and none is at hand, for one starting point and one
/// depth, and for no more items than may still be yielded.
#[verifier::reject_recursive_types(C)]
pub struct StepIterator<'a, C> {
    source: SolutionIterator<'a>,
    step: &'a Step<'a, C>,
    opts: DefaultStepOptions,
    cube: C,
    cancel: Option<&'a CancelToken>,
    /// How many items may still be yielded.
    allowance: Option<usize>,
    /// The starting point whose depths are being searched.
    parent: Option<Solution>,
    /// The next depth to search behind `parent`.
    depth: u16,
    /// What the last search found, and how much of it was yielded.
    buffer: Vec<Solution>,
    pos: usize,
    stopped: bool,
}

impl<'a, C: Turnable + Invertible + Copy> StepIterator<'a, C> {
    /// The phase `step` behind the partial solutions that `algs` yields.
    /// Nothing is searched before the first item is asked for.
    pub fn new(
        algs: SolutionIterator<'a>,
        step: &'a Step<'a, C>,
        search_opts: DefaultStepOptions,
        cube: C,
        cancel_token: Option<&'a CancelToken>,
    ) -> (r: StepIterator<'a, C>)
        requires
            algs.inv(),
        ensures
            r.inv(),
            r.remaining() == step_output(step, search_opts, cube, algs.remaining()),
            r.halted() == algs.halted(),
            r.cancellable() == (cancel_token is Some || algs.cancellable()),
    {
        let r = StepIterator {
            source: algs,
            step,
            opts: search_opts,
            cube,
            cancel: cancel_token,
            allowance: search_opts.step_limit,
            parent: None,
            depth: 0,
            buffer: Vec::new(),
            pos: 0,
            stopped: false,
        };
        proof {
            assert(sols_view(r.buffer@).skip(0) =~= Seq::<SolutionView>::empty());
            assert(r.pending() =~= expand(step, search_opts, cube, algs.remaining()));
        }
        r
    }

    /// What is still to come if there were no limit.
    closed spec fn pending(&self) -> Seq<SolutionView> {
        sols_view(self.buffer@).skip(self.pos as int) + (match self.parent {
            Some(p) => depths_from(self.step, self.opts, self.cube, p@, self.depth as int),
            None => Seq::empty(),
        }) + expand(self.step, self.opts, self.cube, self.source.remaining())
    }
}

impl<'a, C: Turnable + Invertible + Copy> SolutionSource for StepIterator<'a, C> {
    closed spec fn inv(&self) -> bool {
        &&& self.source.inv()
        &&& self.pos <= self.buffer@.len()
        &&& self.depth <= 256
        &&& (self.cancel is None ==> !self.stopped)
    }

    closed spec fn remaining(&self) -> Seq<SolutionView> {
        firstn(self.pending(), self.allowance)
    }

    closed spec fn halted(&self) -> bool {
        self.stopped || self.source.halted()
    }

    closed spec fn cancellable(&self) -> bool {
        self.cancel is Some || self.source.cancellable()
    }

    fn next(&mut self) -> (r: Option<Solution>) {
        if is_capped(0, self.allowance) {
            return None;
        }
        match self.cancel {
            Some(token) => {
                if token.is_cancelled() {
                    self.stopped = true;
                    return None;
                }
            },
            None => {},
        }
        loop
            invariant
                self.inv(),
                self.remaining() == old(self).remaining(),
                self.allowance == old(self).allowance,
                self.allowance != Some(0usize),
                self.cancellable() == old(self).cancellable(),
                old(self).halted() ==> self.halted(),
                !self.cancellable() ==> self.halted() == old(self).halted(),
            decreases
                self.source.remaining().len(),
                (if self.parent is Some {
                    1int
                } else {
                    0int
                }),
                256 - self.depth,
        {
            if self.pos < self.buffer.len() {
                let s = self.buffer[self.pos].clone();
                proof {
                    lemma_firstn_first(self.pending(), self.allowance);
                    assert(self.pending().skip(1) =~= sols_view(self.buffer@).skip(
                        self.pos as int + 1,
                    ) + (match self.parent {
                        Some(p) => depths_from(self.step, self.opts, self.cube, p@, self.depth as int),
                        None => Seq::empty(),
                    }) + expand(self.step, self.opts, self.cube, self.source.remaining()));
                }
                self.pos += 1;
                self.allowance = dec_cap(self.allowance);
                return Some(s);
            }
            let ghost tail = expand(self.step, self.opts, self.cube, self.source.remaining());
            let search = match &self.parent {
                Some(_) => self.depth <= self.opts.max_moves as u16,
                None => false,
            };
            if search {
                let depth = self.depth as u8;
                let quality = self.opts.quality_cap(depth);
                let cap = min_cap(quality, self.allowance);
                let mut found: Vec<Solution> = Vec::new();
                let ghost parent = self.parent->0@;
                let ghost all = depth_results(self.step, self.opts, self.cube, parent, depth);
                let ghost later = depths_from(
                    self.step,
                    self.opts,
                    self.cube,
                    parent,
                    self.depth as int + 1,
                );
                let interrupted = match &self.parent {
                    Some(p) => search_depth(
                        self.step,
                        &self.opts,
                        self.cube,
                        p,
                        depth,
                        cap,
                        self.cancel,
                        &mut found,
                    ),
                    None => false,
                };
                if interrupted {
                    self.stopped = true;
                    return None;
                }
                proof {
                    assert(sols_view(found@) =~= firstn(all, cap));
                    lemma_firstn_absorb(all, later + tail, quality, self.allowance);
                    assert(self.pending() =~= firstn(all, quality) + (later + tail));
                    assert(sols_view(found@).skip(0) + later + tail =~= firstn(all, cap) + (later
                        + tail));
                }
                self.buffer = found;
                self.pos = 0;
                self.depth = self.depth + 1;
            } else {
                proof {
                    assert(self.pending() =~= tail);
                }
                self.parent = None;
                match self.source.next() {
                    None => {
                        return None;
                    },
                    Some(p) => {
                        proof {
                            assert(tail == depths_from(
                                self.step,
                                self.opts,
                                self.cube,
                                p@,
                                self.opts.min_moves as int,
                            ) + expand(self.step, self.opts, self.cube, self.source.remaining()));
                        }
                        self.depth = self.opts.min_moves as u16;
                        self.parent = Some(p);
                    },
                }
            }
        }
    }
}

} // verus!
