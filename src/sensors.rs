use vstd::prelude::*;

use crate::facts::{
    fact, lemma_fact_ext, lemma_prop_index_bijective, prop_index, AiFacts, AiProp, NUM_PROPS,
};

verus! {

/// Thresholds of the distance and health sensors, in world units and percent.
/// They may change between two evaluations.
#[derive(Clone, Copy, Debug, PartialEq, Eq, Structural)]
pub struct SensorConfig {
    pub on_top_dist: u32,
    pub in_range_dist: u32,
    pub close_dist: u32,
    pub health_low_percent: u32,
}

/// What the sensors read of one agent and its active target, as handed over
/// by the world query interface. `target_pos` is `None` when the agent has no
/// target or the target has no resolvable position; `health` is the agent's
/// hit points and maximum, if it has any.
#[derive(Clone, Copy, Debug)]
pub struct AgentSnapshot {
    pub has_target: bool,
    pub pos: (i32, i32, i32),
    pub target_pos: Option<(i32, i32, i32)>,
    pub health: Option<(i32, i32)>,
}

/// Squared Euclidean distance between two points.
pub open spec fn dist_sq(a: (i32, i32, i32), b: (i32, i32, i32)) -> int {
    (a.0 - b.0) * (a.0 - b.0) + (a.1 - b.1) * (a.1 - b.1) + (a.2 - b.2) * (a.2 - b.2)
}

/// The target has a position strictly closer than `dist` to the agent.
pub open spec fn target_within(s: AgentSnapshot, dist: u32) -> bool {
    match s.target_pos {
        Some(t) => dist_sq(s.pos, t) < dist * dist,
        None => false,
    }
}

/// The agent's hit points are below `percent` percent of its maximum.
pub open spec fn health_below(s: AgentSnapshot, percent: u32) -> bool {
    match s.health {
        Some(h) => h.1 > 0 && h.0 * 100 < percent * h.1,
        None => false,
    }
}

/// What the sensor of fact `p` reports.
pub open spec fn sensed(p: AiProp, s: AgentSnapshot, c: SensorConfig) -> bool {
    match p {
        AiProp::HasTarget => s.has_target,
        AiProp::TargetDead => false,
        AiProp::HealthLow => health_below(s, c.health_low_percent),
        AiProp::OnTopOfTarget => target_within(s, c.on_top_dist),
        AiProp::TargetInRange => target_within(s, c.in_range_dist),
        AiProp::TargetClose => target_within(s, c.close_dist),
        AiProp::Exists => true,
        AiProp::Moving => false,
    }
}

/// The complete snapshot the sensors produce.
pub open spec fn sensed_facts(s: AgentSnapshot, c: SensorConfig) -> Map<AiProp, bool> {
    Map::new(|p: AiProp| true, |p: AiProp| sensed(p, s, c))
}

fn target_within_dist(s: &AgentSnapshot, dist: u32) -> (r: bool)
    ensures
        r == target_within(*s, dist),
{
    match s.target_pos {
        Some(t) => {
            let dx: i128 = s.pos.0 as i128 - t.0 as i128;
            let dy: i128 = s.pos.1 as i128 - t.1 as i128;
            let dz: i128 = s.pos.2 as i128 - t.2 as i128;
            assert(0 <= dx * dx <= 0x1_0000_0000_0000_0000) by (nonlinear_arith)
                requires
                    -0x1_0000_0000 <= dx <= 0x1_0000_0000,
            ;
            assert(0 <= dy * dy <= 0x1_0000_0000_0000_0000) by (nonlinear_arith)
                requires
                    -0x1_0000_0000 <= dy <= 0x1_0000_0000,
            ;
            assert(0 <= dz * dz <= 0x1_0000_0000_0000_0000) by (nonlinear_arith)
                requires
                    -0x1_0000_0000 <= dz <= 0x1_0000_0000,
            ;
            let d = dist as i128;
            assert(d * d <= 0x1_0000_0000_0000_0000) by (nonlinear_arith)
                requires
                    0 <= d <= 0x1_0000_0000,
            ;
            dx * dx + dy * dy + dz * dz < d * d
        },
        None => false,
    }
}

fn health_below_percent(s: &AgentSnapshot, percent: u32) -> (r: bool)
    ensures
        r == health_below(*s, percent),
{
    match s.health {
        Some(h) => {
            let hp = h.0 as i128;
            let max = h.1 as i128;
            let pct = percent as i128;
            assert(-0x1_0000_0000_0000 <= hp * 100 <= 0x1_0000_0000_0000) by (nonlinear_arith)
                requires
                    -0x1_0000_0000 <= hp <= 0x1_0000_0000,
            ;
            assert(-0x1_0000_0000_0000_0000 <= pct * max <= 0x1_0000_0000_0000_0000)
                by (nonlinear_arith)
                requires
                    -0x1_0000_0000 <= max <= 0x1_0000_0000,
                    0 <= pct <= 0x1_0000_0000,
            ;
            max > 0 && hp * 100 < pct * max
        },
        None => false,
    }
}

/// Runs the sensor of one fact.
pub fn sense(p: AiProp, s: &AgentSnapshot, c: &SensorConfig) -> (r: bool)
    ensures
        r == sensed(p, *s, *c),
{
    match p {
        AiProp::HasTarget => s.has_target,
        AiProp::TargetDead => false,
        AiProp::HealthLow => health_below_percent(s, c.health_low_percent),
        AiProp::OnTopOfTarget => target_within_dist(s, c.on_top_dist),
        AiProp::TargetInRange => target_within_dist(s, c.in_range_dist),
        AiProp::TargetClose => target_within_dist(s, c.close_dist),
        AiProp::Exists => true,
        AiProp::Moving => false,
    }
}

/// Runs every sensor and returns a snapshot covering all declared facts.
pub fn evaluate(s: &AgentSnapshot, c: &SensorConfig) -> (r: AiFacts)
    ensures
        r@ == sensed_facts(*s, *c),
{
    let mut facts = AiFacts::new();
    let mut k: usize = 0;
    while k < NUM_PROPS
        invariant
            k <= NUM_PROPS,
            forall|p: AiProp| #[trigger]
                fact(facts@, p) == if prop_index(p) < k {
                    Some(sensed(p, *s, *c))
                } else {
                    None
                },
        decreases NUM_PROPS - k,
    {
        let p = AiProp::from_index(k);
        proof {
            lemma_prop_index_bijective();
        }
        let ghost before = facts@;
        let v = sense(p, s, c);
        facts.insert(p, v);
        assert forall|q: AiProp| #[trigger]
            fact(facts@, q) == if prop_index(q) < k + 1 {
                Some(sensed(q, *s, *c))
            } else {
                None
            } by {
            if q != p {
                assert(prop_index(q) != k);
                assert(fact(before, q) == fact(facts@, q));
            }
        }
        k += 1;
    }
    proof {
        lemma_prop_index_bijective();
        lemma_fact_ext(facts@, sensed_facts(*s, *c));
    }
    facts
}

} // verus!
