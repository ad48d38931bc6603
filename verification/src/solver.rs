//! The two pipelines that chain phases: a lazy one that streams solutions
//! and an eager one that keeps the shortest candidates of every phase.

use vstd::prelude::*;
use crate::algs::{saturated, solution_len, Solution, SolutionStepView, SolutionView};
use crate::cancel::CancelToken;
use crate::cube::{Invertible, Turnable};
use crate::phase::{
    all_fit, depths_from, expand, fits, lemma_all_fit_concat, lemma_all_fit_firstn,
    lemma_depths_fit, lemma_expand_fit, step_output, SolutionIterator,
};
use crate::step::{next_step, DefaultStepOptions, Step};
use crate::stream::{
    firstn, grown, is_capped, lemma_grown_extend, lemma_grown_none, lemma_grown_stop, sols_view,
    SolutionList, SolutionSource,
};

verus! {

/// The one solution that every pipeline starts from: the one without steps.
pub open spec fn start_solutions() -> Seq<SolutionView> {
    seq![Seq::<SolutionStepView>::empty()]
}

/// What the streaming pipeline yields after the first `k` phases: each
/// phase takes the output of the one before as its starting points.
pub open spec fn stream_output<'a, C: Turnable + Invertible>(
    steps: Seq<(Step<'a, C>, DefaultStepOptions)>,
    cube: C,
    k: int,
) -> Seq<SolutionView>
    decreases k,
{
    if k <= 0 {
        start_solutions()
    } else {
        step_output(&steps[k - 1].0, steps[k - 1].1, cube, stream_output(steps, cube, k - 1))
    }
}

/// The list that holds the solution without steps and nothing else.
pub fn start_list() -> (r: SolutionList)
    ensures
        r.inv(),
        r.remaining() == start_solutions(),
        !r.halted(),
        !r.cancellable(),
{
    let mut start: Vec<Solution> = Vec::new();
    start.push(Solution::new());
    let r = SolutionList::new(start);
    proof {
        assert(r.remaining() =~= start_solutions());
    }
    r
}

/// The streaming pipeline: the phases `steps` in order, each a lazy
/// sequence over that of the phase before, each cut at its own limit.
/// Nothing is searched before the first item is asked for.
pub fn solve_steps<'a, C: Turnable + Invertible + Copy + 'a>(
    puzzle: C,
    steps: &'a Vec<(Step<'a, C>, DefaultStepOptions)>,
    cancel_token: Option<&'a CancelToken>,
) -> (r: SolutionIterator<'a>)
    ensures
        r.inv(),
        !r.finished(),
        r.remaining() == stream_output(steps@, puzzle, steps@.len() as int),
        !r.halted(),
        cancel_token is None ==> !r.cancellable(),
{
    let mut solutions = SolutionIterator::from_list(start_list());
    let mut i: usize = 0;
    while i < steps.len()
        invariant
            i <= steps.len(),
            solutions.inv(),
            !solutions.finished(),
            solutions.remaining() == stream_output(steps@, puzzle, i as int),
            !solutions.halted(),
            cancel_token is None ==> !solutions.cancellable(),
        decreases steps.len() - i,
    {
        let next = next_step(solutions, &steps[i].0, steps[i].1, puzzle, cancel_token);
        solutions = SolutionIterator::from_step(next);
        i += 1;
    }
    solutions
}

/// The key by which the eager pipeline orders candidates: the number of
/// moves, saturating at the largest `usize`.
pub open spec fn length_key(s: SolutionView) -> usize {
    saturated(solution_len(s))
}

/// The items of `s` whose key is `key`, in the order of `s`.
pub open spec fn of_length(s: Seq<SolutionView>, key: int) -> Seq<SolutionView>
    decreases s.len(),
{
    if s.len() == 0 {
        Seq::empty()
    } else {
        (if length_key(s[0]) == key {
            seq![s[0]]
        } else {
            Seq::empty()
        }) + of_length(s.skip(1), key)
    }
}

/// The items of `s` whose key lies between `from` and `to`, by key, and
/// under one key in the order of `s`.
pub open spec fn by_length(s: Seq<SolutionView>, from: int, to: int) -> Seq<SolutionView>
    decreases to - from + 1,
{
    if from > to {
        Seq::empty()
    } else {
        of_length(s, from) + by_length(s, from + 1, to)
    }
}

/// The largest key in `s`, or zero.
pub open spec fn max_length(s: Seq<SolutionView>) -> usize
    decreases s.len(),
{
    if s.len() == 0 {
        0
    } else {
        let rest = max_length(s.skip(1));
        if length_key(s[0]) > rest {
            length_key(s[0])
        } else {
            rest
        }
    }
}

/// `s` in the order of a stable sort by the number of moves: shortest
/// first, and candidates of equal length in the order of `s`.
pub open spec fn sorted_by_length(s: Seq<SolutionView>) -> Seq<SolutionView> {
    by_length(s, 0, max_length(s) as int)
}

/// The shortest `limit` of `candidates`, or all of them where there is no
/// limit, in the order of a stable sort by the number of moves.
pub fn shortest(candidates: &Vec<Solution>, limit: Option<usize>) -> (r: Vec<Solution>)
    ensures
        sols_view(r@) == firstn(sorted_by_length(sols_view(candidates@)), limit),
{
    let ghost s = sols_view(candidates@);
    let mut keys: Vec<usize> = Vec::new();
    let mut i: usize = 0;
    while i < candidates.len()
        invariant
            i <= candidates.len(),
            s == sols_view(candidates@),
            keys@.len() == i,
            forall|j: int| 0 <= j < i ==> keys@[j] == length_key(#[trigger] s[j]),
        decreases candidates.len() - i,
    {
        keys.push(candidates[i].len());
        i += 1;
    }
    let mut longest: usize = 0;
    while i > 0
        invariant
            i <= candidates@.len(),
            s == sols_view(candidates@),
            keys@.len() == candidates@.len(),
            forall|j: int| 0 <= j < keys@.len() ==> keys@[j] == length_key(#[trigger] s[j]),
            longest == max_length(s.skip(i as int)),
        decreases i,
    {
        i -= 1;
        proof {
            assert(s.skip(i as int).skip(1) =~= s.skip(i as int + 1));
        }
        if keys[i] > longest {
            longest = keys[i];
        }
    }
    proof {
        assert(s.skip(0) =~= s);
    }
    let ghost total = sorted_by_length(s);
    let ghost mut done: Seq<SolutionView> = Seq::empty();
    let mut out: Vec<Solution> = Vec::new();
    let mut key: usize = 0;
    proof {
        lemma_grown_none(sols_view(out@), done, limit, false, false);
        assert(done + total =~= total);
    }
    loop
        invariant_except_break
            key <= longest,
            s == sols_view(candidates@),
            keys@.len() == candidates@.len(),
            forall|j: int| 0 <= j < keys@.len() ==> keys@[j] == length_key(#[trigger] s[j]),
            total == done + by_length(s, key as int, longest as int),
            grown(Seq::<SolutionView>::empty(), sols_view(out@), done, limit, false, false),
            out@.len() == done.len(),
        ensures
            sols_view(out@) == firstn(total, limit),
        decreases longest - key,
    {
        let ghost later = by_length(s, key as int + 1, longest as int);
        let ghost block = of_length(s, key as int);
        let ghost mut part: Seq<SolutionView> = Seq::empty();
        let ghost base = sols_view(out@);
        let mut j: usize = 0;
        proof {
            assert(s.skip(0) =~= s);
            assert(part + block =~= block);
            lemma_grown_none(base, part, limit, false, false);
        }
        while j < candidates.len()
            invariant
                j <= candidates.len(),
                s == sols_view(candidates@),
                keys@.len() == candidates@.len(),
                forall|j: int| 0 <= j < keys@.len() ==> keys@[j] == length_key(#[trigger] s[j]),
                block == part + of_length(s.skip(j as int), key as int),
                grown(base, sols_view(out@), part, limit, false, false),
                out@.len() - base.len() == part.len(),
            ensures
                is_capped(out.len(), limit) || j == candidates.len(),
            decreases candidates.len() - j,
        {
            let ghost rest = of_length(s.skip(j as int + 1), key as int);
            let ghost item: Seq<SolutionView> = if length_key(s[j as int]) == key {
                seq![s[j as int]]
            } else {
                Seq::empty()
            };
            proof {
                assert(s.skip(j as int).skip(1) =~= s.skip(j as int + 1));
                assert(s.skip(j as int)[0] == s[j as int]);
                assert(block =~= (part + item) + rest);
            }
            if is_capped(out.len(), limit) {
                break ;
            }
            if keys[j] == key {
                let ghost mid = sols_view(out@);
                out.push(candidates[j].clone());
                proof {
                    assert(item.take(1) =~= item);
                    assert(sols_view(out@) =~= mid + item.take(1));
                    assert(grown(mid, sols_view(out@), item, limit, false, false));
                    lemma_grown_extend(base, mid, sols_view(out@), part, item, limit, false, false);
                }
            } else {
                proof {
                    assert(part + item =~= part);
                }
            }
            proof {
                part = part + item;
            }
            j += 1;
        }
        proof {
            if is_capped(out.len(), limit) {
                lemma_grown_stop(
                    base,
                    sols_view(out@),
                    part,
                    of_length(s.skip(j as int), key as int),
                    limit,
                    false,
                    false,
                );
            } else {
                assert(s.skip(j as int).len() == 0);
                assert(block =~= part);
            }
            lemma_grown_extend(
                Seq::<SolutionView>::empty(),
                base,
                sols_view(out@),
                done,
                block,
                limit,
                false,
                false,
            );
            assert(total =~= (done + block) + later);
        }
        if is_capped(out.len(), limit) || key == longest {
            proof {
                if is_capped(out.len(), limit) {
                    lemma_grown_stop(
                        Seq::<SolutionView>::empty(),
                        sols_view(out@),
                        done + block,
                        later,
                        limit,
                        false,
                        false,
                    );
                } else {
                    assert(later =~= Seq::<SolutionView>::empty());
                    assert((done + block) + later =~= done + block);
                }
                lemma_grown_firstn(sols_view(out@), total, limit);
            }
            break ;
        }
        proof {
            done = done + block;
        }
        key += 1;
    }
    out
}

/// Whether the solutions of `s` stand in the order of their keys.
pub open spec fn ordered_by_length(s: Seq<SolutionView>) -> bool {
    forall|i: int, j: int|
        0 <= i <= j < s.len() ==> length_key(#[trigger] s[i]) <= length_key(#[trigger] s[j])
}

/// Whether the key of every solution of `s` lies between `lo` and `hi`.
pub open spec fn keys_within(s: Seq<SolutionView>, lo: int, hi: int) -> bool {
    forall|i: int| 0 <= i < s.len() ==> lo <= length_key(#[trigger] s[i]) <= hi
}

/// The solutions of one key in a list that is put together of two are
/// those of the first part followed by those of the second.
pub proof fn lemma_of_length_concat(a: Seq<SolutionView>, b: Seq<SolutionView>, key: int)
    ensures
        of_length(a + b, key) == of_length(a, key) + of_length(b, key),
    decreases a.len(),
{
    if a.len() == 0 {
        assert(a + b =~= b);
        assert(of_length(a, key) + of_length(b, key) =~= of_length(b, key));
    } else {
        lemma_of_length_concat(a.skip(1), b, key);
        assert((a + b).skip(1) =~= a.skip(1) + b);
        assert((a + b)[0] == a[0]);
        let first: Seq<SolutionView> = if length_key(a[0]) == key {
            seq![a[0]]
        } else {
            Seq::empty()
        };
        assert(of_length(a + b, key) =~= first + (of_length(a.skip(1), key) + of_length(b, key)));
        assert(of_length(a, key) + of_length(b, key) =~= first + (of_length(a.skip(1), key)
            + of_length(b, key)));
    }
}

/// The solutions of the key `wanted` among those of the key `key` are all
/// of these where the keys are the same, and none else. All of them bear
/// the key `key`.
pub proof fn lemma_of_length_twice(s: Seq<SolutionView>, key: int, wanted: int)
    ensures
        of_length(of_length(s, key), wanted) == (if key == wanted {
            of_length(s, key)
        } else {
            Seq::empty()
        }),
        keys_within(of_length(s, key), key, key),
    decreases s.len(),
{
    if s.len() == 0 {
    } else {
        lemma_of_length_twice(s.skip(1), key, wanted);
        let first: Seq<SolutionView> = if length_key(s[0]) == key {
            seq![s[0]]
        } else {
            Seq::empty()
        };
        let rest = of_length(s.skip(1), key);
        lemma_of_length_concat(first, rest, wanted);
        if length_key(s[0]) == key {
            assert(first.skip(1) =~= Seq::<SolutionView>::empty());
            assert(of_length(first.skip(1), wanted) =~= Seq::<SolutionView>::empty());
            if key == wanted {
                assert(of_length(first, wanted) =~= first);
            } else {
                assert(of_length(first, wanted) =~= Seq::<SolutionView>::empty());
            }
        } else {
            assert(of_length(first, wanted) =~= Seq::<SolutionView>::empty());
        }
        assert(of_length(of_length(s, key), wanted) =~= of_length(first, wanted) + of_length(
            rest,
            wanted,
        ));
        assert forall|i: int| 0 <= i < of_length(s, key).len() implies key <= length_key(
            #[trigger] of_length(s, key)[i],
        ) <= key by {
            if i < first.len() {
                assert(of_length(s, key)[i] == first[i]);
            } else {
                assert(of_length(s, key)[i] == rest[i - first.len()]);
            }
        }
    }
}

/// No solution of `s` has a key above the largest.
pub proof fn lemma_max_length(s: Seq<SolutionView>, key: int)
    ensures
        keys_within(s, 0, max_length(s) as int),
        key > max_length(s) ==> of_length(s, key) == Seq::<SolutionView>::empty(),
    decreases s.len(),
{
    if s.len() > 0 {
        lemma_max_length(s.skip(1), key);
        assert forall|i: int| 0 <= i < s.len() implies 0 <= length_key(#[trigger] s[i])
            <= max_length(s) by {
            if i > 0 {
                assert(s[i] == s.skip(1)[i - 1]);
            }
        }
        if key > max_length(s) {
            assert(of_length(s, key) =~= Seq::<SolutionView>::empty());
        }
    }
}

/// The list by key holds, of every key within its range, the solutions of
/// that key in the order in which `s` holds them, and none of another key;
/// and it stands in the order of the keys.
pub proof fn lemma_by_length(s: Seq<SolutionView>, from: int, to: int, key: int)
    ensures
        of_length(by_length(s, from, to), key) == (if from <= key <= to {
            of_length(s, key)
        } else {
            Seq::empty()
        }),
        keys_within(by_length(s, from, to), from, to),
        ordered_by_length(by_length(s, from, to)),
    decreases to - from + 1,
{
    if from > to {
    } else {
        let first = of_length(s, from);
        let rest = by_length(s, from + 1, to);
        lemma_by_length(s, from + 1, to, key);
        lemma_of_length_twice(s, from, key);
        lemma_of_length_concat(first, rest, key);
        if from == key {
            assert(of_length(first, key) + of_length(rest, key) =~= of_length(s, key));
        } else {
            assert(of_length(first, key) + of_length(rest, key) =~= of_length(rest, key));
        }
        let all = by_length(s, from, to);
        assert forall|i: int| 0 <= i < all.len() implies from <= length_key(#[trigger] all[i])
            <= to by {
            if i < first.len() {
                assert(all[i] == first[i]);
            } else {
                assert(all[i] == rest[i - first.len()]);
            }
        }
        assert forall|i: int, j: int| 0 <= i <= j < all.len() implies length_key(
            #[trigger] all[i],
        ) <= length_key(#[trigger] all[j]) by {
            if i < first.len() {
                assert(all[i] == first[i]);
            } else {
                assert(all[i] == rest[i - first.len()]);
            }
            if j < first.len() {
                assert(all[j] == first[j]);
            } else {
                assert(all[j] == rest[j - first.len()]);
            }
        }
    }
}

/// The order of the eager pipeline is that of a stable sort: the solutions
/// stand in the order of their number of moves, and those of any one number
/// of moves are the same, in the same order, as among the candidates.
pub proof fn lemma_sorted_by_length(s: Seq<SolutionView>, key: int)
    ensures
        ordered_by_length(sorted_by_length(s)),
        of_length(sorted_by_length(s), key) == of_length(s, key),
{
    lemma_by_length(s, 0, max_length(s) as int, key);
    lemma_max_length(s, key);
    if key < 0 {
        lemma_negative_key(s, key);
    }
}

/// No solution has a key below zero.
pub proof fn lemma_negative_key(s: Seq<SolutionView>, key: int)
    requires
        key < 0,
    ensures
        of_length(s, key) == Seq::<SolutionView>::empty(),
    decreases s.len(),
{
    if s.len() > 0 {
        lemma_negative_key(s.skip(1), key);
        assert(of_length(s, key) =~= Seq::<SolutionView>::empty());
    }
}

/// Of the candidates of a phase, the eager pipeline hands on the first of
/// the stable order, as many as the limit admits: none that it drops has
/// fewer moves than one that it keeps.
pub proof fn lemma_shortest_kept(s: Seq<SolutionView>, limit: Option<usize>, kept: int, dropped: int)
    requires
        0 <= kept < firstn(sorted_by_length(s), limit).len(),
        firstn(sorted_by_length(s), limit).len() <= dropped < sorted_by_length(s).len(),
    ensures
        firstn(sorted_by_length(s), limit)[kept] == sorted_by_length(s)[kept],
        length_key(sorted_by_length(s)[kept]) <= length_key(sorted_by_length(s)[dropped]),
{
    lemma_sorted_by_length(s, 0);
}

/// Every phase of the streaming pipeline yields no more than its limit,
/// and all that the phase finds where there is no limit.
pub proof fn lemma_stream_limit<'a, C: Turnable + Invertible>(
    steps: Seq<(Step<'a, C>, DefaultStepOptions)>,
    cube: C,
    k: int,
)
    requires
        0 < k <= steps.len(),
    ensures
        steps[k - 1].1.step_limit matches Some(limit) ==> stream_output(steps, cube, k).len()
            <= limit,
        steps[k - 1].1.step_limit is None ==> stream_output(steps, cube, k) == expand(
            &steps[k - 1].0,
            steps[k - 1].1,
            cube,
            stream_output(steps, cube, k - 1),
        ),
{
}

/// What a phase of the eager pipeline hands on: of all that the phase
/// yields behind all of `parents`, the shortest up to the phase's limit, in
/// the order of a stable sort by the number of moves.
pub open spec fn eager_stage<'a, C: Turnable + Invertible>(
    step: &Step<'a, C>,
    opts: DefaultStepOptions,
    cube: C,
    parents: Seq<SolutionView>,
) -> Seq<SolutionView> {
    firstn(sorted_by_length(expand(step, opts, cube, parents)), opts.step_limit)
}

/// What the eager pipeline holds after the first `k` phases.
pub open spec fn eager_output<'a, C: Turnable + Invertible>(
    steps: Seq<(Step<'a, C>, DefaultStepOptions)>,
    cube: C,
    k: int,
) -> Seq<SolutionView>
    decreases k,
{
    if k <= 0 {
        start_solutions()
    } else {
        eager_stage(&steps[k - 1].0, steps[k - 1].1, cube, eager_output(steps, cube, k - 1))
    }
}

/// The options of the phases `steps`, phase by phase.
pub open spec fn options_of<'a, C>(steps: Seq<(Step<'a, C>, DefaultStepOptions)>) -> Seq<
    DefaultStepOptions,
> {
    Seq::new(steps.len(), |i: int| steps[i].1)
}

/// Every solution that the streaming pipeline yields after `k` phases has
/// one step for each of them, and no step has fewer moves than its phase's
/// least or more than its largest number.
pub proof fn lemma_stream_fits<'a, C: Turnable + Invertible>(
    steps: Seq<(Step<'a, C>, DefaultStepOptions)>,
    cube: C,
    k: int,
)
    requires
        0 <= k <= steps.len(),
    ensures
        all_fit(stream_output(steps, cube, k), options_of(steps).take(k)),
    decreases k,
{
    if k > 0 {
        lemma_stream_fits(steps, cube, k - 1);
        lemma_expand_fit(
            &steps[k - 1].0,
            steps[k - 1].1,
            cube,
            stream_output(steps, cube, k - 1),
            options_of(steps).take(k - 1),
        );
        assert(options_of(steps).take(k - 1).push(steps[k - 1].1) =~= options_of(steps).take(k));
    } else {
        assert(fits(start_solutions()[0], options_of(steps).take(0)));
    }
}

/// The solutions of one key among solutions that fit the phases fit them.
pub proof fn lemma_of_length_fits(s: Seq<SolutionView>, key: int, phases: Seq<DefaultStepOptions>)
    requires
        all_fit(s, phases),
    ensures
        all_fit(of_length(s, key), phases),
    decreases s.len(),
{
    if s.len() > 0 {
        assert forall|i: int| 0 <= i < s.skip(1).len() implies fits(
            #[trigger] s.skip(1)[i],
            phases,
        ) by {
            assert(s.skip(1)[i] == s[i + 1]);
        }
        lemma_of_length_fits(s.skip(1), key, phases);
        let first: Seq<SolutionView> = if length_key(s[0]) == key {
            seq![s[0]]
        } else {
            Seq::empty()
        };
        assert(all_fit(first, phases));
        lemma_all_fit_concat(first, of_length(s.skip(1), key), phases);
    }
}

/// The solutions by key among solutions that fit the phases fit them.
pub proof fn lemma_by_length_fits(
    s: Seq<SolutionView>,
    from: int,
    to: int,
    phases: Seq<DefaultStepOptions>,
)
    requires
        all_fit(s, phases),
    ensures
        all_fit(by_length(s, from, to), phases),
    decreases to - from + 1,
{
    if from <= to {
        lemma_of_length_fits(s, from, phases);
        lemma_by_length_fits(s, from + 1, to, phases);
        lemma_all_fit_concat(of_length(s, from), by_length(s, from + 1, to), phases);
    }
}

/// Every solution that the eager pipeline holds after `k` phases has one
/// step for each of them, and no step has fewer moves than its phase's
/// least or more than its largest number.
pub proof fn lemma_eager_fits<'a, C: Turnable + Invertible>(
    steps: Seq<(Step<'a, C>, DefaultStepOptions)>,
    cube: C,
    k: int,
)
    requires
        0 <= k <= steps.len(),
    ensures
        all_fit(eager_output(steps, cube, k), options_of(steps).take(k)),
    decreases k,
{
    if k > 0 {
        let phases = options_of(steps).take(k);
        lemma_eager_fits(steps, cube, k - 1);
        lemma_expand_fit(
            &steps[k - 1].0,
            steps[k - 1].1,
            cube,
            eager_output(steps, cube, k - 1),
            options_of(steps).take(k - 1),
        );
        assert(options_of(steps).take(k - 1).push(steps[k - 1].1) =~= phases);
        let all = expand(&steps[k - 1].0, steps[k - 1].1, cube, eager_output(steps, cube, k - 1));
        lemma_by_length_fits(all, 0, max_length(all) as int, phases);
        lemma_all_fit_firstn(sorted_by_length(all), steps[k - 1].1.step_limit, phases);
    } else {
        assert(fits(start_solutions()[0], options_of(steps).take(0)));
    }
}

/// The options `opts` without the limit.
pub open spec fn spec_unlimited(opts: DefaultStepOptions) -> DefaultStepOptions {
    DefaultStepOptions { step_limit: None, ..opts }
}

#[verifier::when_used_as_spec(spec_unlimited)]
pub fn unlimited(opts: DefaultStepOptions) -> (r: DefaultStepOptions)
    ensures
        r == spec_unlimited(opts),
{
    DefaultStepOptions {
        niss_type: opts.niss_type,
        min_moves: opts.min_moves,
        max_moves: opts.max_moves,
        step_quality: opts.step_quality,
        step_limit: None,
    }
}

/// What a phase yields behind one starting point does not depend on the
/// phase's limit.
pub proof fn lemma_depths_without_limit<'a, C: Turnable + Invertible>(
    step: &Step<'a, C>,
    opts: DefaultStepOptions,
    cube: C,
    parent: SolutionView,
    depth: int,
)
    ensures
        depths_from(step, spec_unlimited(opts), cube, parent, depth) == depths_from(
            step,
            opts,
            cube,
            parent,
            depth,
        ),
    decreases opts.max_moves - depth + 1,
{
    if depth < 0 || depth > opts.max_moves {
    } else {
        lemma_depths_without_limit(step, opts, cube, parent, depth + 1);
    }
}

/// What a phase yields behind its starting points does not depend on the
/// phase's limit.
pub proof fn lemma_expand_without_limit<'a, C: Turnable + Invertible>(
    step: &Step<'a, C>,
    opts: DefaultStepOptions,
    cube: C,
    parents: Seq<SolutionView>,
)
    ensures
        expand(step, spec_unlimited(opts), cube, parents) == expand(step, opts, cube, parents),
    decreases parents.len(),
{
    if parents.len() > 0 {
        lemma_depths_without_limit(step, opts, cube, parents[0], opts.min_moves as int);
        lemma_expand_without_limit(step, opts, cube, parents.skip(1));
    }
}

/// Appends to `candidates` all that the phase yields behind `parent`, or,
/// where the token is set meanwhile, the first part of it.
pub fn collect_step<'a, C: Turnable + Invertible + Copy>(
    step: &'a Step<'a, C>,
    opts: DefaultStepOptions,
    puzzle: C,
    parent: &Solution,
    cancel_token: Option<&'a CancelToken>,
    candidates: &mut Vec<Solution>,
)
    ensures
        old(candidates)@.len() <= final(candidates)@.len(),
        final(candidates)@.len() - old(candidates)@.len() <= depths_from(
            step,
            opts,
            puzzle,
            parent@,
            opts.min_moves as int,
        ).len(),
        sols_view(final(candidates)@) == sols_view(old(candidates)@) + depths_from(
            step,
            opts,
            puzzle,
            parent@,
            opts.min_moves as int,
        ).take(final(candidates)@.len() - old(candidates)@.len()),
        cancel_token is None ==> sols_view(final(candidates)@) == sols_view(old(candidates)@)
            + depths_from(step, opts, puzzle, parent@, opts.min_moves as int),
{
    let mut one: Vec<Solution> = Vec::new();
    one.push(parent.clone());
    let list = SolutionList::new(one);
    let ghost parents = seq![parent@];
    proof {
        assert(list.remaining() =~= parents);
        assert(parents.skip(1) =~= Seq::<SolutionView>::empty());
        assert(expand(step, opts, puzzle, Seq::<SolutionView>::empty()) =~= Seq::<
            SolutionView,
        >::empty());
        assert(parents[0] == parent@);
        lemma_expand_without_limit(step, opts, puzzle, parents);
        assert(expand(step, opts, puzzle, parents) =~= depths_from(
            step,
            opts,
            puzzle,
            parent@,
            opts.min_moves as int,
        ));
    }
    let mut found = next_step(
        SolutionIterator::from_list(list),
        step,
        unlimited(opts),
        puzzle,
        cancel_token,
    );
    let ghost all = found.remaining();
    let ghost before = sols_view(candidates@);
    proof {
        assert(all == depths_from(step, opts, puzzle, parent@, opts.min_moves as int));
        assert(before.len() == candidates@.len());
    }
    let ghost mut count: int = 0;
    proof {
        assert(all.skip(0) =~= all);
        assert(before + all.take(0) =~= before);
    }
    loop
        invariant_except_break
            found.inv(),
            cancel_token is None ==> !found.halted(),
            cancel_token is None ==> !found.cancellable(),
            0 <= count <= all.len(),
            found.remaining() == all.skip(count),
            sols_view(candidates@) == before + all.take(count),
        ensures
            0 <= count <= all.len(),
            sols_view(candidates@) == before + all.take(count),
            cancel_token is None ==> sols_view(candidates@) == before + all,
        decreases found.remaining().len(),
    {
        match found.next() {
            Some(s) => {
                let ghost so_far = sols_view(candidates@);
                candidates.push(s);
                proof {
                    assert(sols_view(candidates@) =~= so_far.push(all[count]));
                    assert(all.take(count + 1) =~= all.take(count).push(all[count]));
                    assert(all.skip(count).skip(1) =~= all.skip(count + 1));
                    count = count + 1;
                }
            },
            None => {
                proof {
                    if cancel_token is None {
                        assert(all.take(count) =~= all);
                    }
                }
                break ;
            },
        }
    }
}

/// The eager pipeline: every phase is run to its end behind every
/// solution that the phase before has handed on, and of all that it yields
/// the shortest are handed on, up to the phase's limit, in the order of a
/// stable sort by the number of moves.
///
/// Without a token the result is exactly that. With a token that is set
/// meanwhile, the phases run on what was found until then; what comes
/// back still has one step for every phase, each within the bounds of its
/// phase, and is no more than the limit of the last phase admits.
pub fn solve_steps_vec<'a, C: Turnable + Invertible + Copy>(
    puzzle: C,
    steps: &'a Vec<(Step<'a, C>, DefaultStepOptions)>,
    cancel_token: Option<&'a CancelToken>,
) -> (r: Vec<Solution>)
    ensures
        cancel_token is None ==> sols_view(r@) == eager_output(
            steps@,
            puzzle,
            steps@.len() as int,
        ),
        steps@.len() > 0 ==> (steps@.last().1.step_limit matches Some(l) ==> r@.len() <= l),
        all_fit(sols_view(r@), options_of(steps@)),
{
    let mut solutions: Vec<Solution> = Vec::new();
    solutions.push(Solution::new());
    let mut k: usize = 0;
    proof {
        assert(sols_view(solutions@) =~= start_solutions());
        assert(fits(start_solutions()[0], options_of(steps@).take(0)));
    }
    while k < steps.len()
        invariant
            k <= steps.len(),
            cancel_token is None ==> sols_view(solutions@) == eager_output(steps@, puzzle, k as int),
            k > 0 ==> (steps@[k - 1].1.step_limit matches Some(l) ==> solutions@.len() <= l),
            all_fit(sols_view(solutions@), options_of(steps@).take(k as int)),
        decreases steps.len() - k,
    {
        let ghost before = options_of(steps@).take(k as int);
        let ghost phases = options_of(steps@).take(k as int + 1);
        proof {
            assert(before.push(steps@[k as int].1) =~= phases);
        }
        let step = &steps[k].0;
        let opts = steps[k].1;
        let ghost parents = sols_view(solutions@);
        let ghost total = expand(step, opts, puzzle, parents);
        let ghost mut done: Seq<SolutionView> = Seq::empty();
        let mut candidates: Vec<Solution> = Vec::new();
        let mut i: usize = 0;
        proof {
            assert(parents.skip(0) =~= parents);
            assert(done + total =~= total);
            assert(sols_view(candidates@) =~= done);
        }
        while i < solutions.len()
            invariant
                i <= solutions.len(),
                parents == sols_view(solutions@),
                total == done + expand(step, opts, puzzle, parents.skip(i as int)),
                cancel_token is None ==> sols_view(candidates@) == done,
                all_fit(parents, before),
                before.push(opts) == phases,
                all_fit(sols_view(candidates@), phases),
            decreases solutions.len() - i,
        {
            let ghost so_far = sols_view(candidates@);
            let ghost found = depths_from(step, opts, puzzle, parents[i as int], opts.min_moves as int);
            proof {
                assert(parents.skip(i as int).skip(1) =~= parents.skip(i as int + 1));
                assert(parents.skip(i as int)[0] == parents[i as int]);
                assert(total =~= (done + found) + expand(
                    step,
                    opts,
                    puzzle,
                    parents.skip(i as int + 1),
                ));
            }
            collect_step(step, opts, puzzle, &solutions[i], cancel_token, &mut candidates);
            proof {
                done = done + found;
                let added = found.take(candidates@.len() - so_far.len());
                lemma_depths_fit(
                    step,
                    opts,
                    puzzle,
                    parents[i as int],
                    opts.min_moves as int,
                    before,
                );
                assert forall|j: int| 0 <= j < added.len() implies fits(
                    #[trigger] added[j],
                    phases,
                ) by {
                    assert(added[j] == found[j]);
                }
                lemma_all_fit_concat(so_far, added, phases);
            }
            i += 1;
        }
        proof {
            assert(parents.skip(i as int).len() == 0);
            assert(total =~= done);
        }
        proof {
            let all = sols_view(candidates@);
            lemma_by_length_fits(all, 0, max_length(all) as int, phases);
            lemma_all_fit_firstn(sorted_by_length(all), opts.step_limit, phases);
        }
        solutions = shortest(&candidates, opts.step_limit);
        proof {
            assert(sols_view(solutions@).len() == solutions@.len());
        }
        k += 1;
    }
    proof {
        assert(options_of(steps@).take(k as int) =~= options_of(steps@));
    }
    solutions
}

/// A list that has grown from nothing by `results` under a cap, without
/// interruption, holds the first items of `results` up to the cap.
pub proof fn lemma_grown_firstn<T>(after: Seq<T>, results: Seq<T>, cap: Option<usize>)
    requires
        grown(Seq::<T>::empty(), after, results, cap, false, false),
    ensures
        after == firstn(results, cap),
{
    assert(after =~= firstn(results, cap));
}

} // verus!
