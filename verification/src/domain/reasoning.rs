//! Reasoning ("thinking") levels and how each maps onto a protocol.

use vstd::prelude::*;

verus! {

#[derive(Debug, Clone, Copy, PartialEq, Eq, PartialOrd, Ord, Hash, Structural)]
pub enum ReasoningLevel {
    Off,
    Low,
    Medium,
    High,
    XHigh,
    Max,
    Auto,
}

/// Position of a level in the declared order.
pub open spec fn level_rank(l: ReasoningLevel) -> nat {
    match l {
        ReasoningLevel::Off => 0,
        ReasoningLevel::Low => 1,
        ReasoningLevel::Medium => 2,
        ReasoningLevel::High => 3,
        ReasoningLevel::XHigh => 4,
        ReasoningLevel::Max => 5,
        ReasoningLevel::Auto => 6,
    }
}

/// The variant name of a level, as `{:?}` writes it.
pub open spec fn spec_level_debug(l: ReasoningLevel) -> Seq<char> {
    match l {
        ReasoningLevel::Off => "Off"@,
        ReasoningLevel::Low => "Low"@,
        ReasoningLevel::Medium => "Medium"@,
        ReasoningLevel::High => "High"@,
        ReasoningLevel::XHigh => "XHigh"@,
        ReasoningLevel::Max => "Max"@,
        ReasoningLevel::Auto => "Auto"@,
    }
}

pub fn level_debug(l: ReasoningLevel) -> (r: &'static str)
    ensures
        r@ == spec_level_debug(l),
{
    match l {
        ReasoningLevel::Off => "Off",
        ReasoningLevel::Low => "Low",
        ReasoningLevel::Medium => "Medium",
        ReasoningLevel::High => "High",
        ReasoningLevel::XHigh => "XHigh",
        ReasoningLevel::Max => "Max",
        ReasoningLevel::Auto => "Auto",
    }
}

pub fn rank_of(l: ReasoningLevel) -> (r: u8)
    ensures
        r as nat == level_rank(l),
{
    match l {
        ReasoningLevel::Off => 0,
        ReasoningLevel::Low => 1,
        ReasoningLevel::Medium => 2,
        ReasoningLevel::High => 3,
        ReasoningLevel::XHigh => 4,
        ReasoningLevel::Max => 5,
        ReasoningLevel::Auto => 6,
    }
}

pub proof fn lemma_rank_injective(a: ReasoningLevel, b: ReasoningLevel)
    ensures
        level_rank(a) == level_rank(b) <==> a == b,
{
}

#[derive(Debug, Clone, PartialEq, Eq)]
pub enum ReasoningMapping {
    Disabled,
    Effort(String),
    BudgetTokens(u32),
    Adaptive,
    NativeLevel(String),
}

/// Mathematical form of a mapping.
pub enum Mapping {
    Disabled,
    Effort(Seq<char>),
    BudgetTokens(u32),
    Adaptive,
    NativeLevel(Seq<char>),
}

impl View for ReasoningMapping {
    type V = Mapping;

    open spec fn view(&self) -> Mapping {
        match self {
            ReasoningMapping::Disabled => Mapping::Disabled,
            ReasoningMapping::Effort(s) => Mapping::Effort(s@),
            ReasoningMapping::BudgetTokens(b) => Mapping::BudgetTokens(*b),
            ReasoningMapping::Adaptive => Mapping::Adaptive,
            ReasoningMapping::NativeLevel(s) => Mapping::NativeLevel(s@),
        }
    }
}

impl ReasoningMapping {
    pub fn duplicate(&self) -> (r: Self)
        ensures
            r@ == self@,
    {
        match self {
            ReasoningMapping::Disabled => ReasoningMapping::Disabled,
            ReasoningMapping::Effort(s) => ReasoningMapping::Effort(s.clone()),
            ReasoningMapping::BudgetTokens(b) => ReasoningMapping::BudgetTokens(*b),
            ReasoningMapping::Adaptive => ReasoningMapping::Adaptive,
            ReasoningMapping::NativeLevel(s) => ReasoningMapping::NativeLevel(s.clone()),
        }
    }
}

/// Level table: entries in strictly increasing level order.
pub open spec fn levels_wf(levels: Seq<(ReasoningLevel, ReasoningMapping)>) -> bool {
    forall|i: int, j: int|
        0 <= i < j < levels.len() ==> level_rank(#[trigger] levels[i].0) < level_rank(
            #[trigger] levels[j].0,
        )
}

/// The mapping stored for `level`.
pub open spec fn levels_get(levels: Seq<(ReasoningLevel, ReasoningMapping)>, level: ReasoningLevel) -> Option<Mapping>
    decreases levels.len(),
{
    if levels.len() == 0 {
        None
    } else if levels[0].0 == level {
        Some(levels[0].1@)
    } else {
        levels_get(levels.drop_first(), level)
    }
}

/// Levels of the table as a map.
pub open spec fn levels_map(levels: Seq<(ReasoningLevel, ReasoningMapping)>) -> Map<ReasoningLevel, Mapping> {
    Map::new(|l: ReasoningLevel| levels_get(levels, l) is Some, |l: ReasoningLevel| levels_get(levels, l)->0)
}

proof fn lemma_levels_get_first(levels: Seq<(ReasoningLevel, ReasoningMapping)>, i: int)
    requires
        0 <= i < levels.len(),
        forall|j: int| 0 <= j < i ==> #[trigger] levels[j].0 != levels[i].0,
    ensures
        levels_get(levels, levels[i].0) == Some(levels[i].1@),
    decreases levels.len(),
{
    if i > 0 {
        assert(levels[0].0 != levels[i].0);
        assert(levels.drop_first()[i - 1] == levels[i]);
        assert forall|j: int| 0 <= j < i - 1 implies #[trigger] levels.drop_first()[j].0 != levels.drop_first()[i - 1].0 by {
            assert(levels.drop_first()[j] == levels[j + 1]);
        }
        lemma_levels_get_first(levels.drop_first(), i - 1);
    }
}

proof fn lemma_levels_get_at(levels: Seq<(ReasoningLevel, ReasoningMapping)>, i: int)
    requires
        levels_wf(levels),
        0 <= i < levels.len(),
    ensures
        levels_get(levels, levels[i].0) == Some(levels[i].1@),
{
    assert forall|j: int| 0 <= j < i implies #[trigger] levels[j].0 != levels[i].0 by {
        assert(level_rank(levels[j].0) < level_rank(levels[i].0));
    }
    lemma_levels_get_first(levels, i);
}

proof fn lemma_levels_get_none(levels: Seq<(ReasoningLevel, ReasoningMapping)>, level: ReasoningLevel)
    requires
        forall|i: int| 0 <= i < levels.len() ==> #[trigger] levels[i].0 != level,
    ensures
        levels_get(levels, level) is None,
    decreases levels.len(),
{
    if levels.len() > 0 {
        assert forall|i: int| 0 <= i < levels.drop_first().len() implies #[trigger] levels.drop_first()[i].0 != level by {
            assert(levels.drop_first()[i] == levels[i + 1]);
        }
        lemma_levels_get_none(levels.drop_first(), level);
    }
}

#[derive(Debug, Clone)]
pub struct ReasoningCapability {
    /// Thinking support stated by a catalog; derived from levels and budgets where absent.
    pub supported: Option<bool>,
    /// Default thinking budget shown in the host's model catalog.
    pub thinking_budget: Option<i32>,
    /// Smallest thinking budget the host may set for the model.
    pub min_thinking_budget: Option<u32>,
    /// Mapping of each supported level, in level order.
    pub levels: Vec<(ReasoningLevel, ReasoningMapping)>,
}

impl Default for ReasoningCapability {
    fn default() -> (r: Self)
        ensures
            r.supported is None && r.thinking_budget is None && r.min_thinking_budget is None,
            r.levels@.len() == 0,
    {
        ReasoningCapability {
            supported: None,
            thinking_budget: None,
            min_thinking_budget: None,
            levels: Vec::new(),
        }
    }
}

impl ReasoningCapability {
    pub open spec fn wf(&self) -> bool {
        levels_wf(self.levels@)
    }

    pub open spec fn spec_supports_reasoning(&self) -> bool {
        match self.supported {
            Some(b) => b,
            None => self.levels@.len() > 0 || self.thinking_budget is Some
                || self.min_thinking_budget is Some,
        }
    }

    /// The mapping configured for `level`.
    pub fn mapping_for(&self, level: ReasoningLevel) -> (r: Option<&ReasoningMapping>)
        ensures
            r matches Some(m) ==> levels_get(self.levels@, level) == Some(m@),
            r is None ==> levels_get(self.levels@, level) is None,
    {
        let mut i: usize = 0;
        while i < self.levels.len()
            invariant
                i <= self.levels@.len(),
                forall|j: int| 0 <= j < i ==> #[trigger] self.levels@[j].0 != level,
            decreases self.levels.len() - i,
        {
            if self.levels[i].0 == level {
                proof {
                    lemma_levels_get_first(self.levels@, i as int);
                }
                return Some(&self.levels[i].1);
            }
            i += 1;
        }
        proof {
            lemma_levels_get_none(self.levels@, level);
        }
        None
    }

    pub fn supports_reasoning(&self) -> (r: bool)
        ensures
            r == self.spec_supports_reasoning(),
    {
        match self.supported {
            Some(b) => b,
            None => self.levels.len() > 0 || self.thinking_budget.is_some()
                || self.min_thinking_budget.is_some(),
        }
    }

    /// Sets the mapping of `level`, replacing any earlier one.
    pub fn set_mapping(&mut self, level: ReasoningLevel, mapping: ReasoningMapping)
        requires
            old(self).wf(),
        ensures
            final(self).wf(),
            final(self).supported == old(self).supported,
            final(self).thinking_budget == old(self).thinking_budget,
            final(self).min_thinking_budget == old(self).min_thinking_budget,
            levels_map(final(self).levels@) == levels_map(old(self).levels@).insert(level, mapping@),
    {
        insert_level(&mut self.levels, level, mapping);
    }
}

/// Inserts `(level, mapping)` into a level table, replacing an equal level.
pub fn insert_level(levels: &mut Vec<(ReasoningLevel, ReasoningMapping)>, level: ReasoningLevel, mapping: ReasoningMapping)
    requires
        levels_wf(old(levels)@),
    ensures
        levels_wf(final(levels)@),
        levels_map(final(levels)@) == levels_map(old(levels)@).insert(level, mapping@),
{
    let ghost old_levels = levels@;
    let rank = rank_of(level);
    let mut i: usize = 0;
    while i < levels.len() && rank_of(levels[i].0) < rank
        invariant
            i <= levels@.len(),
            levels@ == old_levels,
            levels_wf(old_levels),
            rank as nat == level_rank(level),
            forall|j: int| 0 <= j < i ==> level_rank(#[trigger] old_levels[j].0) < level_rank(level),
        decreases levels.len() - i,
    {
        i += 1;
    }
    let ghost mv = mapping@;
    if i < levels.len() && levels[i].0 == level {
        levels.set(i, (level, mapping));
        proof {
            let n = levels@;
            assert(levels_wf(n)) by {
                assert forall|a: int, b: int| 0 <= a < b < n.len() implies level_rank(#[trigger] n[a].0)
                    < level_rank(#[trigger] n[b].0) by {
                    assert(n[a].0 == old_levels[a].0);
                    assert(n[b].0 == old_levels[b].0);
                }
            }
            lemma_map_after_set(old_levels, n, i as int, level, mv);
        }
    } else {
        levels.insert(i, (level, mapping));
        proof {
            let n = levels@;
            assert(levels_wf(n)) by {
                assert forall|a: int, b: int| 0 <= a < b < n.len() implies level_rank(#[trigger] n[a].0)
                    < level_rank(#[trigger] n[b].0) by {
                    if a < i && b < i {
                        assert(n[a] == old_levels[a] && n[b] == old_levels[b]);
                    } else if a < i && b == i {
                        assert(n[a] == old_levels[a]);
                    } else if a < i {
                        assert(n[a] == old_levels[a] && n[b] == old_levels[b - 1]);
                    } else if a == i {
                        assert(n[b] == old_levels[b - 1]);
                        assert(level_rank(old_levels[i as int].0) >= level_rank(level));
                        if b - 1 > i {
                            assert(level_rank(old_levels[i as int].0) < level_rank(old_levels[b - 1].0));
                        }
                        assert(old_levels[i as int].0 != level);
                    } else {
                        assert(n[a] == old_levels[a - 1] && n[b] == old_levels[b - 1]);
                    }
                }
            }
            assert forall|j: int| 0 <= j < old_levels.len() implies #[trigger] old_levels[j].0 != level by {
                if j > i {
                    assert(level_rank(old_levels[i as int].0) < level_rank(old_levels[j].0));
                }
            }
            assert(n =~= old_levels.insert(i as int, n[i as int]));
            lemma_map_after_insert(old_levels, n, i as int, level, mv);
        }
    }
}

pub proof fn lemma_levels_get_char(levels: Seq<(ReasoningLevel, ReasoningMapping)>, level: ReasoningLevel)
    requires
        levels_wf(levels),
    ensures
        levels_get(levels, level) is Some <==> exists|i: int| 0 <= i < levels.len() && #[trigger] levels[i].0 == level,
        forall|i: int| 0 <= i < levels.len() && #[trigger] levels[i].0 == level ==> levels_get(levels, level) == Some(levels[i].1@),
{
    if exists|i: int| 0 <= i < levels.len() && #[trigger] levels[i].0 == level {
        let i = choose|i: int| 0 <= i < levels.len() && #[trigger] levels[i].0 == level;
        lemma_levels_get_at(levels, i);
    } else {
        lemma_levels_get_none(levels, level);
    }
    assert forall|i: int| 0 <= i < levels.len() && #[trigger] levels[i].0 == level implies levels_get(levels, level) == Some(levels[i].1@) by {
        lemma_levels_get_at(levels, i);
    }
}

proof fn lemma_map_after_set(
    o: Seq<(ReasoningLevel, ReasoningMapping)>,
    n: Seq<(ReasoningLevel, ReasoningMapping)>,
    i: int,
    level: ReasoningLevel,
    mv: Mapping,
)
    requires
        levels_wf(o),
        levels_wf(n),
        0 <= i < o.len(),
        n.len() == o.len(),
        o[i].0 == level,
        n[i].0 == level,
        n[i].1@ == mv,
        forall|j: int| 0 <= j < o.len() && j != i ==> n[j] == o[j],
    ensures
        levels_map(n) == levels_map(o).insert(level, mv),
{
    assert forall|l: ReasoningLevel| #[trigger] levels_get(n, l) == (if l == level { Some(mv) } else { levels_get(o, l) }) by {
        lemma_levels_get_char(n, l);
        lemma_levels_get_char(o, l);
        if l != level {
            if exists|j: int| 0 <= j < o.len() && #[trigger] o[j].0 == l {
                let j = choose|j: int| 0 <= j < o.len() && #[trigger] o[j].0 == l;
                assert(n[j] == o[j]);
            }
            if exists|j: int| 0 <= j < n.len() && #[trigger] n[j].0 == l {
                let j = choose|j: int| 0 <= j < n.len() && #[trigger] n[j].0 == l;
                assert(n[j] == o[j]);
            }
        }
    }
    assert(levels_map(n) =~= levels_map(o).insert(level, mv));
}

proof fn lemma_map_after_insert(
    o: Seq<(ReasoningLevel, ReasoningMapping)>,
    n: Seq<(ReasoningLevel, ReasoningMapping)>,
    i: int,
    level: ReasoningLevel,
    mv: Mapping,
)
    requires
        levels_wf(o),
        levels_wf(n),
        0 <= i <= o.len(),
        n == o.insert(i, n[i]),
        n[i].0 == level,
        n[i].1@ == mv,
        forall|j: int| 0 <= j < o.len() ==> #[trigger] o[j].0 != level,
    ensures
        levels_map(n) == levels_map(o).insert(level, mv),
{
    assert forall|l: ReasoningLevel| #[trigger] levels_get(n, l) == (if l == level { Some(mv) } else { levels_get(o, l) }) by {
        lemma_levels_get_char(n, l);
        lemma_levels_get_char(o, l);
        if l != level {
            if exists|j: int| 0 <= j < o.len() && #[trigger] o[j].0 == l {
                let j = choose|j: int| 0 <= j < o.len() && #[trigger] o[j].0 == l;
                if j < i {
                    assert(n[j] == o[j]);
                } else {
                    assert(n[j + 1] == o[j]);
                }
            }
            if exists|j: int| 0 <= j < n.len() && #[trigger] n[j].0 == l {
                let j = choose|j: int| 0 <= j < n.len() && #[trigger] n[j].0 == l;
                if j < i {
                    assert(n[j] == o[j]);
                } else if j > i {
                    assert(n[j] == o[j - 1]);
                }
            }
        }
    }
    assert(levels_map(n) =~= levels_map(o).insert(level, mv));
}

} // verus!
