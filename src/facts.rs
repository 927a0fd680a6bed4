use vstd::prelude::*;

verus! {

/// Number of facts an agent's situation is described by.
pub const NUM_PROPS: usize = 8;

/// A named boolean property of an agent's situation.
#[derive(Clone, Copy, Debug, PartialEq, Eq, Hash, PartialOrd, Ord, Structural)]
pub enum AiProp {
    HasTarget,
    TargetDead,
    HealthLow,
    OnTopOfTarget,
    TargetInRange,
    TargetClose,
    Exists,
    Moving,
}

/// Position of a fact in the declaration order.
pub open spec fn prop_index(p: AiProp) -> nat {
    match p {
        AiProp::HasTarget => 0,
        AiProp::TargetDead => 1,
        AiProp::HealthLow => 2,
        AiProp::OnTopOfTarget => 3,
        AiProp::TargetInRange => 4,
        AiProp::TargetClose => 5,
        AiProp::Exists => 6,
        AiProp::Moving => 7,
    }
}

/// The fact declared at position `i`.
pub open spec fn prop_at(i: nat) -> AiProp
    recommends
        i < NUM_PROPS,
{
    if i == 0 {
        AiProp::HasTarget
    } else if i == 1 {
        AiProp::TargetDead
    } else if i == 2 {
        AiProp::HealthLow
    } else if i == 3 {
        AiProp::OnTopOfTarget
    } else if i == 4 {
        AiProp::TargetInRange
    } else if i == 5 {
        AiProp::TargetClose
    } else if i == 6 {
        AiProp::Exists
    } else {
        AiProp::Moving
    }
}

/// Declaration order is a bijection between facts and `0..NUM_PROPS`.
pub proof fn lemma_prop_index_bijective()
    ensures
        forall|p: AiProp| #[trigger] prop_index(p) < NUM_PROPS && prop_at(prop_index(p)) == p,
        forall|i: nat| i < NUM_PROPS ==> #[trigger] prop_index(prop_at(i)) == i,
        forall|p: AiProp, q: AiProp| prop_index(p) == prop_index(q) ==> p == q,
{
    assert forall|p: AiProp, q: AiProp| prop_index(p) == prop_index(q) implies p == q by {
        match p {
            AiProp::HasTarget => {},
            AiProp::TargetDead => {},
            AiProp::HealthLow => {},
            AiProp::OnTopOfTarget => {},
            AiProp::TargetInRange => {},
            AiProp::TargetClose => {},
            AiProp::Exists => {},
            AiProp::Moving => {},
        }
    }
}

/// The value a fact holds in a freshly seeded state.
pub open spec fn prop_default(p: AiProp) -> bool {
    p == AiProp::Exists
}

impl AiProp {
    pub fn index(&self) -> (r: usize)
        ensures
            r == prop_index(*self),
            r < NUM_PROPS,
    {
        match self {
            AiProp::HasTarget => 0,
            AiProp::TargetDead => 1,
            AiProp::HealthLow => 2,
            AiProp::OnTopOfTarget => 3,
            AiProp::TargetInRange => 4,
            AiProp::TargetClose => 5,
            AiProp::Exists => 6,
            AiProp::Moving => 7,
        }
    }

    pub fn from_index(i: usize) -> (r: AiProp)
        requires
            i < NUM_PROPS,
        ensures
            r == prop_at(i as nat),
    {
        if i == 0 {
            AiProp::HasTarget
        } else if i == 1 {
            AiProp::TargetDead
        } else if i == 2 {
            AiProp::HealthLow
        } else if i == 3 {
            AiProp::OnTopOfTarget
        } else if i == 4 {
            AiProp::TargetInRange
        } else if i == 5 {
            AiProp::TargetClose
        } else if i == 6 {
            AiProp::Exists
        } else {
            AiProp::Moving
        }
    }
}

/// A (possibly partial) assignment of boolean values to facts. Facts that are
/// absent are "don't care".
#[derive(Clone, Copy, Debug, PartialEq, Eq)]
pub struct AiFacts {
    vals: [Option<bool>; 8],
}

impl View for AiFacts {
    type V = Map<AiProp, bool>;

    closed spec fn view(&self) -> Map<AiProp, bool> {
        Map::new(
            |p: AiProp| self.vals@[prop_index(p) as int] is Some,
            |p: AiProp| self.vals@[prop_index(p) as int]->Some_0,
        )
    }
}

/// The value a partial assignment gives a fact, if any.
pub open spec fn fact(m: Map<AiProp, bool>, p: AiProp) -> Option<bool> {
    if m.contains_key(p) {
        Some(m[p])
    } else {
        None
    }
}

/// Two values of one fact disagree: both are given and they differ.
pub open spec fn disagree(a: Option<bool>, b: Option<bool>) -> bool {
    a is Some && b is Some && a != b
}

/// `s` agrees with `goal` on every fact the two share; a fact that `s`
/// leaves out is no disagreement.
pub open spec fn satisfies(s: Map<AiProp, bool>, goal: Map<AiProp, bool>) -> bool {
    forall|p: AiProp| !#[trigger] disagree(fact(s, p), fact(goal, p))
}

impl AiFacts {
    pub fn new() -> (r: AiFacts)
        ensures
            r@ == Map::<AiProp, bool>::empty(),
    {
        let r = AiFacts { vals: [None, None, None, None, None, None, None, None] };
        assert(r@ =~= Map::<AiProp, bool>::empty());
        r
    }

    pub fn get(&self, p: AiProp) -> (r: Option<bool>)
        ensures
            r == (if self@.contains_key(p) { Some(self@[p]) } else { None::<bool> }),
    {
        self.vals[p.index()]
    }

    /// Number of facts the assignment specifies.
    pub fn len(&self) -> (r: usize)
        ensures
            r <= NUM_PROPS,
            r == 0 <==> (forall|p: AiProp| !#[trigger] self@.contains_key(p)),
    {
        let mut n: usize = 0;
        let mut i: usize = 0;
        while i < NUM_PROPS
            invariant
                n <= i <= NUM_PROPS,
                n == 0 <==> (forall|p: AiProp| prop_index(p) < i ==> !#[trigger] self@.contains_key(p)),
            decreases NUM_PROPS - i,
        {
            proof {
                lemma_prop_index_bijective();
                assert(self@.contains_key(prop_at(i as nat)) == (self.vals@[i as int] is Some));
            }
            if self.vals[i].is_some() {
                n += 1;
            }
            i += 1;
        }
        n
    }

    /// Whether the assignment specifies no fact at all.
    pub fn is_empty(&self) -> (r: bool)
        ensures
            r == (forall|p: AiProp| !#[trigger] self@.contains_key(p)),
    {
        self.len() == 0
    }

    /// Overwrites the facts that `other` specifies with its values.
    pub fn overlay(&mut self, other: &AiFacts)
        ensures
            final(self)@ == old(self)@.union_prefer_right(other@),
    {
        let mut i: usize = 0;
        while i < NUM_PROPS
            invariant
                i <= NUM_PROPS,
                forall|p: AiProp| #[trigger] fact(self@, p) == if prop_index(p) < i {
                    fact(old(self)@.union_prefer_right(other@), p)
                } else {
                    fact(old(self)@, p)
                },
            decreases NUM_PROPS - i,
        {
            let p = AiProp::from_index(i);
            proof {
                lemma_prop_index_bijective();
            }
            let ghost before = self@;
            if let Some(v) = other.get(p) {
                self.insert(p, v);
            }
            assert forall|q: AiProp| #[trigger] fact(self@, q) == if prop_index(q) < i + 1 {
                fact(old(self)@.union_prefer_right(other@), q)
            } else {
                fact(old(self)@, q)
            } by {
                assert(fact(before, q) == if prop_index(q) < i {
                    fact(old(self)@.union_prefer_right(other@), q)
                } else {
                    fact(old(self)@, q)
                });
                if q != p {
                    assert(prop_index(q) != i);
                }
            }
            i += 1;
        }
        proof {
            lemma_prop_index_bijective();
            lemma_fact_ext(self@, old(self)@.union_prefer_right(other@));
        }
    }

    pub fn insert(&mut self, p: AiProp, v: bool)
        ensures
            final(self)@ == old(self)@.insert(p, v),
    {
        let i = p.index();
        self.vals[i] = Some(v);
        proof {
            lemma_prop_index_bijective();
        }
        assert(final(self)@ =~= old(self)@.insert(p, v));
    }
}

/// Two assignments that give every fact the same value are equal.
pub proof fn lemma_fact_ext(a: Map<AiProp, bool>, b: Map<AiProp, bool>)
    requires
        forall|p: AiProp| #[trigger] fact(a, p) == fact(b, p),
    ensures
        a == b,
{
    assert forall|p: AiProp| a.contains_key(p) == b.contains_key(p) by {
        assert(fact(a, p) == fact(b, p));
    }
    assert forall|p: AiProp| a.contains_key(p) implies a[p] == b[p] by {
        assert(fact(a, p) == fact(b, p));
    }
    assert(a =~= b);
}

/// Every declared fact, in declaration order.
pub fn all_props() -> (r: Vec<AiProp>)
    ensures
        r@.len() == NUM_PROPS,
        forall|i: int| 0 <= i < NUM_PROPS ==> #[trigger] r@[i] == prop_at(i as nat),
{
    vec![
        AiProp::HasTarget,
        AiProp::TargetDead,
        AiProp::HealthLow,
        AiProp::OnTopOfTarget,
        AiProp::TargetInRange,
        AiProp::TargetClose,
        AiProp::Exists,
        AiProp::Moving,
    ]
}

/// The seed state of an agent: every fact at its declared default.
pub open spec fn default_facts_map() -> Map<AiProp, bool> {
    Map::new(|p: AiProp| true, |p: AiProp| prop_default(p))
}

/// A complete state with every fact at its declared default.
pub fn default_ai_facts() -> (r: AiFacts)
    ensures
        r@ == default_facts_map(),
{
    let props = all_props();
    let mut facts = AiFacts::new();
    let mut i: usize = 0;
    while i < props.len()
        invariant
            props@.len() == NUM_PROPS,
            forall|k: int| 0 <= k < NUM_PROPS ==> #[trigger] props@[k] == prop_at(k as nat),
            i <= NUM_PROPS,
            forall|p: AiProp| #[trigger] facts@.contains_key(p) <==> prop_index(p) < i,
            forall|p: AiProp| #[trigger] facts@.contains_key(p) ==> facts@[p] == prop_default(p),
        decreases NUM_PROPS - i,
    {
        let p = props[i];
        proof {
            lemma_prop_index_bijective();
        }
        facts.insert(p, p == AiProp::Exists);
        i += 1;
    }
    proof {
        lemma_prop_index_bijective();
    }
    assert(facts@ =~= default_facts_map());
    facts
}

} // verus!
