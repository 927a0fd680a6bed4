use vstd::prelude::*;

use crate::action::{ActionSpec, AiAction};
use crate::facts::{
    disagree, fact, lemma_fact_ext, lemma_prop_index_bijective, prop_index, satisfies, AiFacts,
    AiProp, NUM_PROPS,
};

verus! {

/// Upper bound on the nodes one search expands: the number of distinct
/// partial assignments over the declared facts (three choices per fact), so a
/// search that skips residual states it has already expanded never hits it.
pub const MAX_PLAN_EXPANSIONS: usize = 6561;

/// The effects of the first catalog entry tagged `a` (none if no entry is).
pub open spec fn effect_of(cat: Seq<ActionSpec>, a: AiAction) -> Map<AiProp, bool>
    decreases cat.len(),
{
    if cat.len() == 0 {
        Map::empty()
    } else if cat[0].action == a {
        cat[0].postconditions@
    } else {
        effect_of(cat.drop_first(), a)
    }
}

/// The state reached from `s` by applying the effects of `plan`, in order.
pub open spec fn apply_plan(s: Map<AiProp, bool>, cat: Seq<ActionSpec>, plan: Seq<AiAction>) -> Map<
    AiProp,
    bool,
>
    decreases plan.len(),
{
    if plan.len() == 0 {
        s
    } else {
        apply_plan(s.union_prefer_right(effect_of(cat, plan[0])), cat, plan.drop_first())
    }
}

/// Applying the effects of `plan` to `current` reaches `goal`.
pub open spec fn achieves(
    current: Map<AiProp, bool>,
    goal: Map<AiProp, bool>,
    cat: Seq<ActionSpec>,
    plan: Seq<AiAction>,
) -> bool {
    satisfies(apply_plan(current, cat, plan), goal)
}

/// Some catalog entry is tagged `a`.
pub open spec fn in_catalog(cat: Seq<ActionSpec>, a: AiAction) -> bool {
    exists|i: int| 0 <= i < cat.len() && cat[i].action == a
}

/// Some catalog entry has the effect `p := v`.
pub open spec fn producible(cat: Seq<ActionSpec>, p: AiProp, v: bool) -> bool {
    exists|i: int| 0 <= i < cat.len() && #[trigger] fact(cat[i].postconditions@, p) == Some(v)
}

/// A fact of `residual` that no action of the catalog can bring about.
pub open spec fn unsatisfiable(residual: Map<AiProp, bool>, cat: Seq<ActionSpec>, p: AiProp) -> bool {
    residual.contains_key(p) && !producible(cat, p, residual[p])
}

/// A fact on which `current` disagrees with the goal and that no action
/// produces with the goal's value.
pub open spec fn unreachable_goal_fact(
    current: Map<AiProp, bool>,
    goal: Map<AiProp, bool>,
    cat: Seq<ActionSpec>,
    p: AiProp,
) -> bool {
    disagree(fact(current, p), fact(goal, p)) && !producible(cat, p, goal[p])
}

/// The goal restricted to the facts on which `current` disagrees with it
/// (both give the fact, with different values).
pub open spec fn initial_residual(current: Map<AiProp, bool>, goal: Map<AiProp, bool>) -> Map<
    AiProp,
    bool,
> {
    Map::new(|p: AiProp| disagree(fact(current, p), fact(goal, p)), |p: AiProp| goal[p])
}

// One fact of a regression step. `r`: the residual's value, `q`: the effect,
// `e`: the precondition, `c`: the current value.
/// The effect settles a fact that the residual asks for.
pub open spec fn settles(r: Option<bool>, q: Option<bool>) -> bool {
    r is Some && q == r
}

/// The effect sets a fact that the residual asks for to the other value.
pub open spec fn undoes(r: Option<bool>, q: Option<bool>) -> bool {
    r is Some && q is Some && q != r
}

/// What the residual still asks of a fact once the effect is applied.
pub open spec fn left_over(r: Option<bool>, q: Option<bool>) -> Option<bool> {
    if settles(r, q) {
        None
    } else {
        r
    }
}

/// What the precondition asks of a fact on which `current` disagrees with it.
pub open spec fn still_needed(e: Option<bool>, c: Option<bool>) -> Option<bool> {
    if disagree(e, c) {
        e
    } else {
        None
    }
}

/// The new residual's value of a fact.
pub open spec fn regressed(r: Option<bool>, q: Option<bool>, e: Option<bool>, c: Option<bool>) -> Option<
    bool,
> {
    if still_needed(e, c) is Some {
        still_needed(e, c)
    } else {
        left_over(r, q)
    }
}

/// The precondition asks of a fact the opposite of what is left over.
pub open spec fn clashes(r: Option<bool>, q: Option<bool>, e: Option<bool>, c: Option<bool>) -> bool {
    left_over(r, q) is Some && still_needed(e, c) is Some && left_over(r, q) != still_needed(e, c)
}

/// `a` can be the last action before the state that `residual` describes.
pub open spec fn regresses(
    residual: Map<AiProp, bool>,
    a: ActionSpec,
    current: Map<AiProp, bool>,
) -> bool {
    &&& exists|p: AiProp| #[trigger]
        settles(fact(residual, p), fact(a.postconditions@, p))
    &&& forall|p: AiProp|
        !#[trigger] undoes(fact(residual, p), fact(a.postconditions@, p))
    &&& forall|p: AiProp|
        !#[trigger] clashes(
            fact(residual, p),
            fact(a.postconditions@, p),
            fact(a.preconditions@, p),
            fact(current, p),
        )
}

/// The residual before `a`: what `a` leaves unsettled, plus those of its
/// preconditions that do not already hold now.
pub open spec fn regression(
    residual: Map<AiProp, bool>,
    a: ActionSpec,
    current: Map<AiProp, bool>,
) -> Map<AiProp, bool> {
    Map::new(
        |p: AiProp|
            regressed(
                fact(residual, p),
                fact(a.postconditions@, p),
                fact(a.preconditions@, p),
                fact(current, p),
            ) is Some,
        |p: AiProp|
            regressed(
                fact(residual, p),
                fact(a.postconditions@, p),
                fact(a.preconditions@, p),
                fact(current, p),
            )->Some_0,
    )
}

proof fn lemma_effect_of_from_catalog(cat: Seq<ActionSpec>, a: AiAction)
    ensures
        effect_of(cat, a) == Map::<AiProp, bool>::empty() || exists|i: int|
            0 <= i < cat.len() && cat[i].postconditions@ == effect_of(cat, a),
    decreases cat.len(),
{
    if cat.len() > 0 && cat[0].action != a {
        lemma_effect_of_from_catalog(cat.drop_first(), a);
        if effect_of(cat, a) != Map::<AiProp, bool>::empty() {
            let i = choose|i: int|
                0 <= i < cat.drop_first().len() && cat.drop_first()[i].postconditions@ == effect_of(
                    cat.drop_first(),
                    a,
                );
            assert(cat[i + 1] == cat.drop_first()[i]);
        }
    }
}

/// A fact that no action produces with value `v` keeps, through any plan,
/// the other value if it started with it.
proof fn lemma_apply_never_produces(
    s: Map<AiProp, bool>,
    cat: Seq<ActionSpec>,
    plan: Seq<AiAction>,
    p: AiProp,
    v: bool,
)
    requires
        fact(s, p) == Some(!v),
        !producible(cat, p, v),
    ensures
        fact(apply_plan(s, cat, plan), p) == Some(!v),
    decreases plan.len(),
{
    if plan.len() > 0 {
        let e = effect_of(cat, plan[0]);
        lemma_effect_of_from_catalog(cat, plan[0]);
        if e != Map::<AiProp, bool>::empty() {
            let i = choose|i: int| 0 <= i < cat.len() && cat[i].postconditions@ == e;
            assert(fact(cat[i].postconditions@, p) != Some(v));
        }
        let s2 = s.union_prefer_right(e);
        assert(fact(s2, p) == Some(!v));
        lemma_apply_never_produces(s2, cat, plan.drop_first(), p, v);
    }
}

/// No plan reaches a goal that asks for a fact no action produces.
pub proof fn lemma_unreachable_fact_blocks_every_plan(
    current: Map<AiProp, bool>,
    goal: Map<AiProp, bool>,
    cat: Seq<ActionSpec>,
    plan: Seq<AiAction>,
    p: AiProp,
)
    requires
        unreachable_goal_fact(current, goal, cat, p),
    ensures
        !achieves(current, goal, cat, plan),
{
    lemma_apply_never_produces(current, cat, plan, p, goal[p]);
    assert(disagree(fact(apply_plan(current, cat, plan), p), fact(goal, p)));
}

/// The effects of the first catalog entry tagged `a`.
fn effect_lookup(cat: &Vec<ActionSpec>, a: AiAction) -> (r: AiFacts)
    ensures
        r@ == effect_of(cat@, a),
{
    let mut j: usize = 0;
    assert(cat@.subrange(0, cat@.len() as int) == cat@);
    while j < cat.len()
        invariant
            j <= cat@.len(),
            effect_of(cat@, a) == effect_of(cat@.subrange(j as int, cat@.len() as int), a),
        decreases cat@.len() - j,
    {
        let ghost rest = cat@.subrange(j as int, cat@.len() as int);
        assert(rest[0] == cat@[j as int]);
        if cat[j].action == a {
            return cat[j].postconditions;
        }
        assert(rest.drop_first() == cat@.subrange(j + 1, cat@.len() as int));
        j += 1;
    }
    AiFacts::new()
}

/// Whether applying the effects of `plan` to `current`, in order, reaches `goal`.
pub fn plan_achieves(
    current: &AiFacts,
    goal: &AiFacts,
    cat: &Vec<ActionSpec>,
    plan: &Vec<AiAction>,
) -> (r: bool)
    ensures
        r == achieves(current@, goal@, cat@, plan@),
{
    let mut state = *current;
    let mut i: usize = 0;
    assert(plan@.subrange(0, plan@.len() as int) == plan@);
    while i < plan.len()
        invariant
            i <= plan@.len(),
            apply_plan(state@, cat@, plan@.subrange(i as int, plan@.len() as int)) == apply_plan(
                current@,
                cat@,
                plan@,
            ),
        decreases plan@.len() - i,
    {
        let ghost rest = plan@.subrange(i as int, plan@.len() as int);
        assert(rest[0] == plan@[i as int]);
        assert(rest.drop_first() == plan@.subrange(i + 1, plan@.len() as int));
        let effect = effect_lookup(cat, plan[i]);
        state.overlay(&effect);
        i += 1;
    }
    assert(plan@.subrange(plan@.len() as int, plan@.len() as int).len() == 0);
    let mut k: usize = 0;
    while k < NUM_PROPS
        invariant
            k <= NUM_PROPS,
            apply_plan(current@, cat@, plan@) == state@,
            forall|p: AiProp|
                prop_index(p) < k ==> !#[trigger] disagree(fact(state@, p), fact(goal@, p)),
        decreases NUM_PROPS - k,
    {
        let p = AiProp::from_index(k);
        proof {
            lemma_prop_index_bijective();
        }
        match goal.get(p) {
            Some(v) => {
                match state.get(p) {
                    Some(w) => {
                        if w != v {
                            assert(disagree(fact(state@, p), fact(goal@, p)));
                            return false;
                        }
                    },
                    None => {},
                }
            },
            None => {},
        }
        k += 1;
    }
    proof {
        lemma_prop_index_bijective();
    }
    true
}

/// The goal facts on which `current` disagrees with `goal`.
pub fn initial_residual_of(current: &AiFacts, goal: &AiFacts) -> (r: AiFacts)
    ensures
        r@ == initial_residual(current@, goal@),
{
    let mut r = AiFacts::new();
    let mut k: usize = 0;
    while k < NUM_PROPS
        invariant
            k <= NUM_PROPS,
            forall|p: AiProp| #[trigger]
                fact(r@, p) == if prop_index(p) < k {
                    fact(initial_residual(current@, goal@), p)
                } else {
                    None
                },
        decreases NUM_PROPS - k,
    {
        let p = AiProp::from_index(k);
        proof {
            lemma_prop_index_bijective();
        }
        let ghost before = r@;
        if let Some(v) = goal.get(p) {
            let now = current.get(p);
            let agrees = match now {
                Some(w) => w == v,
                None => true,
            };
            if !agrees {
                r.insert(p, v);
            }
        }
        assert forall|q: AiProp| #[trigger]
            fact(r@, q) == if prop_index(q) < k + 1 {
                fact(initial_residual(current@, goal@), q)
            } else {
                None
            } by {
            if q != p {
                assert(prop_index(q) != k);
                assert(fact(before, q) == fact(r@, q));
            }
        }
        k += 1;
    }
    proof {
        lemma_prop_index_bijective();
        lemma_fact_ext(r@, initial_residual(current@, goal@));
    }
    r
}

/// The residual before `action`, if `action` can be the last step towards
/// `residual` (see `regresses`).
pub fn regress(residual: &AiFacts, action: &ActionSpec, current: &AiFacts) -> (r: Option<AiFacts>)
    ensures
        r is Some <==> regresses(residual@, *action, current@),
        r is Some ==> r->Some_0@ == regression(residual@, *action, current@),
{
    let mut next = AiFacts::new();
    let mut settles_one = false;
    let mut k: usize = 0;
    while k < NUM_PROPS
        invariant
            k <= NUM_PROPS,
            settles_one <==> exists|p: AiProp|
                prop_index(p) < k && #[trigger] settles(
                    fact(residual@, p),
                    fact(action.postconditions@, p),
                ),
            forall|p: AiProp|
                prop_index(p) < k ==> !#[trigger] undoes(
                    fact(residual@, p),
                    fact(action.postconditions@, p),
                ),
            forall|p: AiProp|
                prop_index(p) < k ==> !#[trigger] clashes(
                    fact(residual@, p),
                    fact(action.postconditions@, p),
                    fact(action.preconditions@, p),
                    fact(current@, p),
                ),
            forall|p: AiProp| #[trigger]
                fact(next@, p) == if prop_index(p) < k {
                    regressed(
                        fact(residual@, p),
                        fact(action.postconditions@, p),
                        fact(action.preconditions@, p),
                        fact(current@, p),
                    )
                } else {
                    None
                },
        decreases NUM_PROPS - k,
    {
        let p = AiProp::from_index(k);
        proof {
            lemma_prop_index_bijective();
        }
        let r = residual.get(p);
        let q = action.postconditions.get(p);
        let e = action.preconditions.get(p);
        let c = current.get(p);
        let settled = match (r, q) {
            (Some(rv), Some(qv)) => rv == qv,
            _ => false,
        };
        let undone = match (r, q) {
            (Some(rv), Some(qv)) => rv != qv,
            _ => false,
        };
        if undone {
            assert(undoes(fact(residual@, p), fact(action.postconditions@, p)));
            return None;
        }
        let left = if settled {
            None
        } else {
            r
        };
        let needed = match (e, c) {
            (Some(ev), Some(cv)) => if ev == cv {
                None
            } else {
                e
            },
            _ => None,
        };
        assert(left == left_over(fact(residual@, p), fact(action.postconditions@, p)));
        assert(needed == still_needed(fact(action.preconditions@, p), fact(current@, p)));
        match (left, needed) {
            (Some(lv), Some(nv)) => {
                if lv != nv {
                    assert(clashes(
                        fact(residual@, p),
                        fact(action.postconditions@, p),
                        fact(action.preconditions@, p),
                        fact(current@, p),
                    ));
                    return None;
                }
            },
            _ => {},
        }
        if settled {
            settles_one = true;
        }
        let ghost before = next@;
        match needed {
            Some(nv) => next.insert(p, nv),
            None => match left {
                Some(lv) => next.insert(p, lv),
                None => {},
            },
        }
        assert forall|q: AiProp| #[trigger]
            fact(next@, q) == if prop_index(q) < k + 1 {
                regressed(
                    fact(residual@, q),
                    fact(action.postconditions@, q),
                    fact(action.preconditions@, q),
                    fact(current@, q),
                )
            } else {
                None
            } by {
            if q != p {
                assert(prop_index(q) != k);
                assert(fact(before, q) == fact(next@, q));
            }
        }
        k += 1;
    }
    proof {
        lemma_prop_index_bijective();
    }
    if !settles_one {
        return None;
    }
    proof {
        lemma_fact_ext(next@, regression(residual@, *action, current@));
    }
    Some(next)
}

/// Catalog entry `i` alone reaches the goal: its preconditions hold now,
/// applying its effects to `current` satisfies `goal`, no earlier entry has its
/// tag, and no entry costs less.
pub open spec fn one_step_solution(
    current: Map<AiProp, bool>,
    goal: Map<AiProp, bool>,
    cat: Seq<ActionSpec>,
    i: int,
) -> bool {
    &&& 0 <= i < cat.len()
    &&& satisfies(current, cat[i].preconditions@)
    &&& satisfies(current.union_prefer_right(cat[i].postconditions@), goal)
    &&& forall|j: int| 0 <= j < i ==> #[trigger] cat[j].action != cat[i].action
    &&& forall|j: int| 0 <= j < cat.len() ==> cat[i].cost <= #[trigger] cat[j].cost
}

proof fn lemma_effect_of_first(cat: Seq<ActionSpec>, i: int)
    requires
        0 <= i < cat.len(),
        forall|j: int| 0 <= j < i ==> #[trigger] cat[j].action != cat[i].action,
    ensures
        effect_of(cat, cat[i].action) == cat[i].postconditions@,
    decreases i,
{
    if i > 0 {
        let rest = cat.drop_first();
        assert(rest[i - 1] == cat[i]);
        assert forall|j: int| 0 <= j < i - 1 implies #[trigger] rest[j].action != rest[i - 1].action by {
            assert(rest[j] == cat[j + 1]);
        }
        lemma_effect_of_first(rest, i - 1);
    }
}

/// A one-step solution regresses the initial residual to nothing, and the
/// plan made of its tag reaches the goal.
proof fn lemma_one_step_solution(
    current: Map<AiProp, bool>,
    goal: Map<AiProp, bool>,
    cat: Seq<ActionSpec>,
    i: int,
)
    requires
        one_step_solution(current, goal, cat, i),
        !satisfies(current, goal),
    ensures
        regresses(initial_residual(current, goal), cat[i], current),
        regression(initial_residual(current, goal), cat[i], current) == Map::<AiProp, bool>::empty(),
        achieves(current, goal, cat, seq![cat[i].action]),
{
    let r0 = initial_residual(current, goal);
    let a = cat[i];
    let after = current.union_prefer_right(a.postconditions@);
    let w = choose|p: AiProp| #[trigger] disagree(fact(current, p), fact(goal, p));
    assert(!disagree(fact(after, w), fact(goal, w)));
    assert(fact(after, w) == Some(goal[w]));
    assert(settles(fact(r0, w), fact(a.postconditions@, w)));
    assert forall|p: AiProp| !#[trigger] undoes(fact(r0, p), fact(a.postconditions@, p)) by {
        if r0.contains_key(p) {
            assert(!disagree(fact(after, p), fact(goal, p)));
            assert(fact(after, p) == Some(goal[p]));
        }
    }
    assert forall|p: AiProp|
        #[trigger] regressed(
            fact(r0, p),
            fact(a.postconditions@, p),
            fact(a.preconditions@, p),
            fact(current, p),
        ) is None by {
        assert(!disagree(fact(current, p), fact(a.preconditions@, p)));
        if r0.contains_key(p) {
            assert(!disagree(fact(after, p), fact(goal, p)));
            assert(fact(after, p) == Some(goal[p]));
        }
    }
    assert forall|p: AiProp|
        !#[trigger] clashes(
            fact(r0, p),
            fact(a.postconditions@, p),
            fact(a.preconditions@, p),
            fact(current, p),
        ) by {
        assert(!disagree(fact(current, p), fact(a.preconditions@, p)));
        if r0.contains_key(p) {
            assert(!disagree(fact(after, p), fact(goal, p)));
            assert(fact(after, p) == Some(goal[p]));
        }
    }
    assert(regression(r0, a, current) =~= Map::<AiProp, bool>::empty());
    lemma_effect_of_first(cat, i);
    let plan = seq![a.action];
    assert(plan.drop_first() =~= Seq::<AiAction>::empty());
    assert(apply_plan(current, cat, plan) == apply_plan(after, cat, plan.drop_first()));
}

/// A search node: what is still to be made true, and the actions (as catalog
/// positions, in execution order) that follow once it is.
struct PlanNode {
    residual: AiFacts,
    steps: Vec<usize>,
    cost: u64,
}

/// Every step of `n` names an entry of a catalog of `len` entries.
spec fn steps_in_catalog(n: PlanNode, len: nat) -> bool {
    forall|i: int| 0 <= i < n.steps@.len() ==> #[trigger] n.steps@[i] < len
}

/// The residual keeps every goal fact that can never be produced.
spec fn keeps_unreachable(
    r: Map<AiProp, bool>,
    current: Map<AiProp, bool>,
    goal: Map<AiProp, bool>,
    cat: Seq<ActionSpec>,
) -> bool {
    forall|p: AiProp| #[trigger]
        unreachable_goal_fact(current, goal, cat, p) ==> fact(r, p) == Some(goal[p])
}

/// Position of the first cheapest node.
fn cheapest(frontier: &Vec<PlanNode>) -> (r: usize)
    requires
        frontier@.len() > 0,
    ensures
        r < frontier@.len(),
        forall|k: int| 0 <= k < frontier@.len() ==> frontier@[r as int].cost <= #[trigger] frontier@[k].cost,
        forall|k: int| 0 <= k < r ==> frontier@[r as int].cost < #[trigger] frontier@[k].cost,
{
    let mut best: usize = 0;
    let mut i: usize = 1;
    while i < frontier.len()
        invariant
            best < i <= frontier@.len(),
            forall|k: int| 0 <= k < i ==> frontier@[best as int].cost <= #[trigger] frontier@[k].cost,
            forall|k: int| 0 <= k < best ==> frontier@[best as int].cost < #[trigger] frontier@[k].cost,
        decreases frontier@.len() - i,
    {
        if frontier[i].cost < frontier[best].cost {
            best = i;
        }
        i += 1;
    }
    best
}

/// Whether `seen` holds an assignment equal to `facts`.
fn seen_before(seen: &Vec<AiFacts>, facts: &AiFacts) -> (r: bool)
    ensures
        seen@.len() == 0 ==> !r,
{
    let mut i: usize = 0;
    while i < seen.len()
        invariant
            i <= seen@.len(),
        decreases seen@.len() - i,
    {
        if same_facts(&seen[i], facts) {
            return true;
        }
        i += 1;
    }
    false
}

/// Whether two assignments specify the same facts with the same values.
pub fn same_facts(a: &AiFacts, b: &AiFacts) -> (r: bool)
    ensures
        r == (a@ == b@),
{
    let mut k: usize = 0;
    while k < NUM_PROPS
        invariant
            k <= NUM_PROPS,
            forall|p: AiProp| prop_index(p) < k ==> #[trigger] fact(a@, p) == fact(b@, p),
        decreases NUM_PROPS - k,
    {
        let p = AiProp::from_index(k);
        proof {
            lemma_prop_index_bijective();
        }
        let same = match (a.get(p), b.get(p)) {
            (Some(x), Some(y)) => x == y,
            (None, None) => true,
            _ => false,
        };
        if !same {
            assert(fact(a@, p) != fact(b@, p));
            return false;
        }
        k += 1;
    }
    proof {
        lemma_prop_index_bijective();
        lemma_fact_ext(a@, b@);
    }
    true
}

/// The action tags of a sequence of catalog positions.
fn tags_of(steps: &Vec<usize>, cat: &Vec<ActionSpec>) -> (r: Vec<AiAction>)
    requires
        forall|i: int| 0 <= i < steps@.len() ==> #[trigger] steps@[i] < cat@.len(),
    ensures
        r@.len() == steps@.len(),
        forall|i: int| 0 <= i < r@.len() ==> #[trigger] r@[i] == cat@[steps@[i] as int].action,
{
    let mut r: Vec<AiAction> = Vec::new();
    let mut i: usize = 0;
    while i < steps.len()
        invariant
            i <= steps@.len(),
            forall|i: int| 0 <= i < steps@.len() ==> #[trigger] steps@[i] < cat@.len(),
            r@.len() == i,
            forall|j: int| 0 <= j < i ==> #[trigger] r@[j] == cat@[steps@[j] as int].action,
        decreases steps@.len() - i,
    {
        r.push(cat[steps[i]].action);
        i += 1;
    }
    r
}

/// What `plan` promises of its result `r` for `current`, `goal` and `cat`:
/// - a plan reaches the goal and is made of catalog actions;
/// - a goal that `current` already satisfies gives the empty plan;
/// - a cheapest action that reaches the goal alone gives success (with a
///   catalog of fewer than `MAX_PLAN_EXPANSIONS` entries);
/// - a goal fact that disagrees with `current` and that no action produces
///   gives failure, and the failed state keeps that fact with the goal's value;
/// - a failed state specifies at least one fact.
pub open spec fn plan_outcome(
    current: Map<AiProp, bool>,
    goal: Map<AiProp, bool>,
    cat: Seq<ActionSpec>,
    r: Result<Vec<AiAction>, AiFacts>,
) -> bool {
    &&& r is Ok ==> achieves(current, goal, cat, r->Ok_0@)
    &&& r is Ok ==> forall|i: int| 0 <= i < r->Ok_0@.len() ==> in_catalog(cat, #[trigger] r->Ok_0@[i])
    &&& satisfies(current, goal) ==> r is Ok && r->Ok_0@.len() == 0
    &&& cat.len() < MAX_PLAN_EXPANSIONS && (exists|i: int| one_step_solution(current, goal, cat, i))
        ==> r is Ok
    &&& (exists|p: AiProp| unreachable_goal_fact(current, goal, cat, p)) ==> r is Err
    &&& r is Err ==> exists|p: AiProp| #[trigger] r->Err_0@.contains_key(p)
    &&& r is Err ==> forall|p: AiProp|
        #[trigger] unreachable_goal_fact(current, goal, cat, p) ==> fact(r->Err_0@, p) == Some(goal[p])
            && unsatisfiable(r->Err_0@, cat, p)
}

/// The node of the plan made of catalog entry `i` alone, at cost `c`.
spec fn solution_node(n: PlanNode, i: int, c: u64) -> bool {
    n.residual@ == Map::<AiProp, bool>::empty() && n.steps@ == seq![i as usize] && n.cost == c
}

/// The cost of a child of a node that cost `parent`: at least that, and at
/// least the cost of some catalog entry.
spec fn child_cost(n: PlanNode, parent: u64, cat: Seq<ActionSpec>) -> bool {
    n.cost >= parent && exists|j: int| 0 <= j < cat.len() && n.cost >= #[trigger] cat[j].cost as u64
}

/// Pushes, in catalog order, a child of `node` for every catalog entry that
/// can be the last step towards its residual state.
fn expand(
    node: &PlanNode,
    catalog: &Vec<ActionSpec>,
    current: &AiFacts,
    goal: &AiFacts,
    frontier: &mut Vec<PlanNode>,
)
    requires
        steps_in_catalog(*node, catalog@.len()),
        keeps_unreachable(node.residual@, current@, goal@, catalog@),
        forall|i: int|
            0 <= i < old(frontier)@.len() ==> steps_in_catalog(
                #[trigger] old(frontier)@[i],
                catalog@.len(),
            ),
        forall|i: int|
            0 <= i < old(frontier)@.len() ==> keeps_unreachable(
                #[trigger] old(frontier)@[i].residual@,
                current@,
                goal@,
                catalog@,
            ),
    ensures
        old(frontier)@.len() <= final(frontier)@.len() <= old(frontier)@.len() + catalog@.len(),
        forall|k: int| 0 <= k < old(frontier)@.len() ==> #[trigger] final(frontier)@[k] == old(frontier)@[k],
        forall|i: int|
            0 <= i < final(frontier)@.len() ==> steps_in_catalog(
                #[trigger] final(frontier)@[i],
                catalog@.len(),
            ),
        forall|i: int|
            0 <= i < final(frontier)@.len() ==> keeps_unreachable(
                #[trigger] final(frontier)@[i].residual@,
                current@,
                goal@,
                catalog@,
            ),
        forall|k: int|
            old(frontier)@.len() <= k < final(frontier)@.len() ==> child_cost(
                #[trigger] final(frontier)@[k],
                node.cost,
                catalog@,
            ),
        forall|j: int|
            0 <= j < catalog@.len() && regresses(node.residual@, #[trigger] catalog@[j], current@)
                ==> exists|k: int|
                old(frontier)@.len() <= k <= old(frontier)@.len() + j && k < final(frontier)@.len()
                    && final(frontier)@[k].residual@ == regression(node.residual@, catalog@[j], current@)
                    && final(frontier)@[k].steps@ == seq![j as usize] + node.steps@
                    && final(frontier)@[k].cost == node.cost.saturating_add(catalog@[j].cost as u64),
{
    let ghost base = frontier@.len();
    let mut j: usize = 0;
    while j < catalog.len()
        invariant
            j <= catalog@.len(),
            base == old(frontier)@.len(),
            base <= frontier@.len() <= base + j,
            steps_in_catalog(*node, catalog@.len()),
            keeps_unreachable(node.residual@, current@, goal@, catalog@),
            forall|k: int| 0 <= k < base ==> #[trigger] frontier@[k] == old(frontier)@[k],
            forall|i: int|
                0 <= i < frontier@.len() ==> steps_in_catalog(
                    #[trigger] frontier@[i],
                    catalog@.len(),
                ),
            forall|i: int|
                0 <= i < frontier@.len() ==> keeps_unreachable(
                    #[trigger] frontier@[i].residual@,
                    current@,
                    goal@,
                    catalog@,
                ),
            forall|k: int|
                base <= k < frontier@.len() ==> child_cost(#[trigger] frontier@[k], node.cost, catalog@),
            forall|jj: int|
                0 <= jj < j && regresses(node.residual@, #[trigger] catalog@[jj], current@) ==> exists|
                    k: int,
                |
                    base <= k <= base + jj && k < frontier@.len() && frontier@[k].residual@
                        == regression(node.residual@, catalog@[jj], current@) && frontier@[k].steps@
                        == seq![jj as usize] + node.steps@ && frontier@[k].cost
                        == node.cost.saturating_add(catalog@[jj].cost as u64),
        decreases catalog@.len() - j,
    {
        let ghost before = frontier@;
        match regress(&node.residual, &catalog[j], current) {
            Some(prev) => {
                assert(keeps_unreachable(prev@, current@, goal@, catalog@)) by {
                    assert forall|p: AiProp| #[trigger]
                        unreachable_goal_fact(
                            current@,
                            goal@,
                            catalog@,
                            p,
                        ) implies fact(prev@, p) == Some(goal@[p]) by {
                        assert(fact(node.residual@, p) == Some(goal@[p]));
                        if fact(catalog@[j as int].postconditions@, p) == Some(goal@[p]) {
                            assert(producible(catalog@, p, goal@[p]));
                        }
                        assert(!clashes(
                            fact(node.residual@, p),
                            fact(catalog@[j as int].postconditions@, p),
                            fact(catalog@[j as int].preconditions@, p),
                            fact(current@, p),
                        ));
                    }
                }
                let mut steps: Vec<usize> = Vec::new();
                steps.push(j);
                let mut m: usize = 0;
                while m < node.steps.len()
                    invariant
                        m <= node.steps@.len(),
                        j < catalog@.len(),
                        steps_in_catalog(*node, catalog@.len()),
                        steps@ == seq![j as usize] + node.steps@.subrange(0, m as int),
                    decreases node.steps@.len() - m,
                {
                    steps.push(node.steps[m]);
                    m += 1;
                    assert(steps@ =~= seq![j as usize] + node.steps@.subrange(0, m as int));
                }
                assert(node.steps@.subrange(0, node.steps@.len() as int) == node.steps@);
                let cost = node.cost.saturating_add(catalog[j].cost as u64);
                let child = PlanNode { residual: prev, steps, cost };
                assert(steps_in_catalog(child, catalog@.len())) by {
                    assert forall|i: int| 0 <= i < child.steps@.len() implies #[trigger] child.steps@[i]
                        < catalog@.len() by {
                        if i > 0 {
                            assert(child.steps@[i] == node.steps@[i - 1]);
                        }
                    }
                }
                frontier.push(child);
                assert(frontier@[before.len() as int] == child);
            },
            None => {},
        }
        assert forall|k: int| 0 <= k < base implies #[trigger] frontier@[k] == old(frontier)@[k] by {
            assert(frontier@[k] == before[k]);
        }
        assert forall|jj: int|
            0 <= jj < j + 1 && regresses(node.residual@, #[trigger] catalog@[jj], current@) implies exists|
                k: int,
            |
                base <= k <= base + jj && k < frontier@.len() && frontier@[k].residual@ == regression(
                    node.residual@,
                    catalog@[jj],
                    current@,
                ) && frontier@[k].steps@ == seq![jj as usize] + node.steps@ && frontier@[k].cost
                    == node.cost.saturating_add(catalog@[jj].cost as u64) by {
            if jj < j {
                let k = choose|k: int|
                    base <= k <= base + jj && k < before.len() && before[k].residual@ == regression(
                        node.residual@,
                        catalog@[jj],
                        current@,
                    ) && before[k].steps@ == seq![jj as usize] + node.steps@ && before[k].cost
                        == node.cost.saturating_add(catalog@[jj].cost as u64);
                assert(frontier@[k] == before[k]);
            } else {
                assert(frontier@[before.len() as int].residual@ == regression(
                    node.residual@,
                    catalog@[jj],
                    current@,
                ));
            }
        }
        assert forall|k: int| base <= k < frontier@.len() implies child_cost(
            #[trigger] frontier@[k],
            node.cost,
            catalog@,
        ) by {
            if k < before.len() {
                assert(frontier@[k] == before[k]);
            } else {
                assert(frontier@[k].cost >= catalog@[j as int].cost as u64);
            }
        }
        j += 1;
    }
}

/// Regression planning: searches backward from the goal facts that `current`
/// does not already satisfy, always expanding the cheapest candidate first
/// (the earliest pushed among equals, children pushed in catalog order). An
/// action is a candidate for a residual state if its effects settle at least
/// one of its facts and undo none; the state before it is what it leaves
/// unsettled plus those of its preconditions that `current` does not already
/// satisfy. A residual state that reduces to nothing yields the plan in
/// execution order, which is accepted if applying its effects to `current`
/// reaches the goal. On failure the smallest residual state met is returned.
///
/// Planning succeeds with no action when `current` already satisfies the goal,
/// and succeeds whenever a cheapest catalog action reaches the goal on its
/// own; it fails whenever the goal asks for a fact that does not hold and
/// that no action produces, and the failed state then keeps that fact.
pub fn plan(current: &AiFacts, goal: &AiFacts, catalog: &Vec<ActionSpec>) -> (r: Result<
    Vec<AiAction>,
    AiFacts,
>)
    ensures
        plan_outcome(current@, goal@, catalog@, r),
{
    let start = initial_residual_of(current, goal);
    if start.is_empty() {
        assert forall|p: AiProp| !#[trigger] disagree(fact(current@, p), fact(goal@, p)) by {
            assert(!start@.contains_key(p));
        }
        assert(apply_plan(current@, catalog@, Seq::<AiAction>::empty()) == current@);
        return Ok(Vec::new());
    }
    assert(!satisfies(current@, goal@)) by {
        let p = choose|p: AiProp| start@.contains_key(p);
        assert(disagree(fact(current@, p), fact(goal@, p)));
    }
    let ghost has_sol = catalog@.len() < MAX_PLAN_EXPANSIONS && exists|i: int|
        one_step_solution(current@, goal@, catalog@, i);
    let ghost si: int = if has_sol {
        choose|i: int| one_step_solution(current@, goal@, catalog@, i)
    } else {
        0
    };
    let ghost c: u64 = if has_sol {
        catalog@[si].cost as u64
    } else {
        0
    };
    let ghost mut ks: int = 0;
    let mut frontier: Vec<PlanNode> = Vec::new();
    frontier.push(PlanNode { residual: start, steps: Vec::new(), cost: 0 });
    let mut visited: Vec<AiFacts> = Vec::new();
    let mut best = start;
    let mut expansions: usize = 0;
    while expansions < MAX_PLAN_EXPANSIONS && frontier.len() > 0
        invariant
            expansions <= MAX_PLAN_EXPANSIONS,
            forall|i: int|
                0 <= i < frontier@.len() ==> steps_in_catalog(
                    #[trigger] frontier@[i],
                    catalog@.len(),
                ),
            forall|i: int|
                0 <= i < frontier@.len() ==> keeps_unreachable(
                    #[trigger] frontier@[i].residual@,
                    current@,
                    goal@,
                    catalog@,
                ),
            keeps_unreachable(best@, current@, goal@, catalog@),
            exists|p: AiProp| #[trigger] best@.contains_key(p),
            !satisfies(current@, goal@),
            start@ == initial_residual(current@, goal@),
            exists|p: AiProp| #[trigger] start@.contains_key(p),
            has_sol ==> one_step_solution(current@, goal@, catalog@, si),
            has_sol ==> catalog@.len() < MAX_PLAN_EXPANSIONS,
            has_sol ==> c == catalog@[si].cost,
            expansions == 0 ==> frontier@.len() == 1 && frontier@[0].residual@ == start@
                && frontier@[0].steps@.len() == 0 && frontier@[0].cost == 0 && visited@.len() == 0,
            has_sol && expansions >= 1 ==> 0 <= ks < frontier@.len() && solution_node(
                frontier@[ks],
                si,
                c,
            ) && expansions + ks <= catalog@.len() && forall|k: int|
                0 <= k < frontier@.len() ==> c <= #[trigger] frontier@[k].cost,
        decreases MAX_PLAN_EXPANSIONS - expansions,
    {
        let idx = cheapest(&frontier);
        let ghost before = frontier@;
        let node = frontier.remove(idx);
        assert(node == before[idx as int]);
        assert(steps_in_catalog(node, catalog@.len()));
        assert(keeps_unreachable(node.residual@, current@, goal@, catalog@));
        let ghost hit = has_sol && expansions >= 1 && idx as int == ks;
        proof {
            if hit {
                assert(solution_node(node, si, c));
            }
            if has_sol && expansions >= 1 {
                assert(before[ks].cost == c);
                if idx > ks {
                    assert(before[idx as int].cost <= before[ks].cost);
                }
                if idx < ks {
                    assert(frontier@[ks - 1] == before[ks]);
                    ks = ks - 1;
                    assert forall|k: int| 0 <= k < frontier@.len() implies c <= #[trigger] frontier@[k].cost by {
                        if k < idx {
                            assert(frontier@[k] == before[k]);
                        } else {
                            assert(frontier@[k] == before[k + 1]);
                        }
                    }
                }
            }
        }
        let ghost first = expansions == 0;
        expansions += 1;
        if node.residual.is_empty() {
            let actions = tags_of(&node.steps, catalog);
            proof {
                if hit {
                    assert(node.steps@ == seq![si as usize]);
                    assert(actions@.len() == 1);
                    assert(actions@[0] == catalog@[si].action);
                    assert(actions@ =~= seq![catalog@[si].action]);
                    lemma_one_step_solution(current@, goal@, catalog@, si);
                }
            }
            if plan_achieves(current, goal, catalog, &actions) {
                assert forall|i: int| 0 <= i < actions@.len() implies in_catalog(
                    catalog@,
                    #[trigger] actions@[i],
                ) by {
                    assert(node.steps@[i] < catalog@.len());
                }
                return Ok(actions);
            }
            proof {
                if first {
                    assert(node.residual@ == start@);
                    let w = choose|p: AiProp| #[trigger] start@.contains_key(p);
                    assert(node.residual@.contains_key(w));
                }
            }
        } else if !seen_before(&visited, &node.residual) {
            visited.push(node.residual);
            if node.residual.len() < best.len() {
                best = node.residual;
            }
            let ghost old_len = frontier@.len();
            let ghost kept = frontier@;
            expand(&node, catalog, current, goal, &mut frontier);
            proof {
                if has_sol {
                    if first {
                        lemma_one_step_solution(current@, goal@, catalog@, si);
                        assert(node.residual@ == initial_residual(current@, goal@));
                        let k = choose|k: int|
                            old_len <= k <= old_len + si && k < frontier@.len() && frontier@[k].residual@
                                == regression(node.residual@, catalog@[si], current@)
                                && frontier@[k].steps@ == seq![si as usize] + node.steps@
                                && frontier@[k].cost == node.cost.saturating_add(
                                catalog@[si].cost as u64,
                            );
                        assert(frontier@[k].steps@ =~= seq![si as usize]);
                        ks = k;
                    } else {
                        assert(frontier@[ks] == kept[ks]);
                    }
                    assert forall|k: int| 0 <= k < frontier@.len() implies c <= #[trigger] frontier@[k].cost by {
                        if k < old_len {
                            assert(frontier@[k] == kept[k]);
                        } else {
                            assert(child_cost(frontier@[k], node.cost, catalog@));
                            let j = choose|j: int|
                                0 <= j < catalog@.len() && frontier@[k].cost >= #[trigger] catalog@[j].cost as u64;
                            assert(catalog@[si].cost <= catalog@[j].cost);
                        }
                    }
                }
            }
        } else {
            proof {
                if first {
                    assert(false);
                }
            }
        }
    }
    let res: Result<Vec<AiAction>, AiFacts> = Err(best);
    proof {
        let w = choose|p: AiProp| #[trigger] best@.contains_key(p);
        assert(res->Err_0@.contains_key(w));
        assert forall|p: AiProp|
            #[trigger] unreachable_goal_fact(current@, goal@, catalog@, p) implies fact(best@, p) == Some(
            goal@[p],
        ) && unsatisfiable(best@, catalog@, p) by {
            assert(fact(best@, p) == Some(goal@[p]));
        }
    }
    res
}

/// The facts of a failed residual state that no action of the catalog can
/// bring about at all, in declaration order.
pub fn unsatisfiable_facts(failed: &AiFacts, catalog: &Vec<ActionSpec>) -> (r: Vec<AiProp>)
    ensures
        forall|p: AiProp| r@.contains(p) <==> unsatisfiable(failed@, catalog@, p),
        forall|i: int, j: int|
            0 <= i < j < r@.len() ==> prop_index(#[trigger] r@[i]) < prop_index(#[trigger] r@[j]),
{
    let mut r: Vec<AiProp> = Vec::new();
    let mut k: usize = 0;
    while k < NUM_PROPS
        invariant
            k <= NUM_PROPS,
            forall|p: AiProp|
                r@.contains(p) <==> (prop_index(p) < k && unsatisfiable(failed@, catalog@, p)),
            forall|i: int| 0 <= i < r@.len() ==> prop_index(#[trigger] r@[i]) < k,
            forall|i: int, j: int|
                0 <= i < j < r@.len() ==> prop_index(#[trigger] r@[i]) < prop_index(
                    #[trigger] r@[j],
                ),
        decreases NUM_PROPS - k,
    {
        let p = AiProp::from_index(k);
        proof {
            lemma_prop_index_bijective();
        }
        if let Some(v) = failed.get(p) {
            let mut produced = false;
            let mut j: usize = 0;
            while j < catalog.len()
                invariant
                    j <= catalog@.len(),
                    produced <==> exists|i: int|
                        0 <= i < j && #[trigger] fact(catalog@[i].postconditions@, p) == Some(v),
                decreases catalog@.len() - j,
            {
                let w = catalog[j].postconditions.get(p);
                let hit = match w {
                    Some(x) => x == v,
                    None => false,
                };
                assert(hit == (fact(catalog@[j as int].postconditions@, p) == Some(v)));
                if hit {
                    produced = true;
                }
                j += 1;
            }
            if !produced {
                let ghost before = r@;
                r.push(p);
                assert forall|q: AiProp|
                    r@.contains(q) <==> (prop_index(q) < k + 1 && unsatisfiable(
                        failed@,
                        catalog@,
                        q,
                    )) by {
                    if q == p {
                        assert(r@[r@.len() - 1] == p);
                    } else {
                        assert(r@ == before.push(p));
                        if before.contains(q) {
                            let i = choose|i: int| 0 <= i < before.len() && before[i] == q;
                            assert(r@[i] == q);
                        }
                        if r@.contains(q) {
                            let i = choose|i: int| 0 <= i < r@.len() && r@[i] == q;
                            assert(i < before.len());
                            assert(before[i] == q);
                        }
                    }
                }
            } else {
                assert(!unsatisfiable(failed@, catalog@, p));
            }
        }
        k += 1;
    }
    proof {
        lemma_prop_index_bijective();
    }
    r
}

} // verus!
