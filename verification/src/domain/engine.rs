use std::collections::HashMap;
use vstd::prelude::*;
use vstd::std_specs::hash::group_hash_axioms;

use crate::text::decimal;
use crate::domain::score::{score_ge, score_lt, spec_score, Score, EMERGENCY_PATTERN, HALF_PATTERN, ONE_PATTERN};

verus! {

broadcast use group_hash_axioms;

/// The kinds of yield source, from the safest to the riskiest.
#[derive(Clone, Copy, Debug, PartialEq, Eq, Structural, PartialOrd, Ord, Hash)]
pub enum RiskSpectrum {
    Sovereign,
    StablecoinSavings,
    LiquidStaking,
    DiversifiedLending,
    MultiStrategy,
}

/// The position of a kind of source, from the safest (0) up.
pub open spec fn spec_ordinal(s: RiskSpectrum) -> u8 {
    match s {
        RiskSpectrum::Sovereign => 0,
        RiskSpectrum::StablecoinSavings => 1,
        RiskSpectrum::LiquidStaking => 2,
        RiskSpectrum::DiversifiedLending => 3,
        RiskSpectrum::MultiStrategy => 4,
    }
}

/// The kind of source at a position.
pub open spec fn spec_from_ordinal(o: u8) -> RiskSpectrum {
    if o == 0 {
        RiskSpectrum::Sovereign
    } else if o == 1 {
        RiskSpectrum::StablecoinSavings
    } else if o == 2 {
        RiskSpectrum::LiquidStaking
    } else if o == 3 {
        RiskSpectrum::DiversifiedLending
    } else {
        RiskSpectrum::MultiStrategy
    }
}

/// The number of kinds of source.
pub const SPECTRUM_LEN: u8 = 5;

impl RiskSpectrum {
    /// The position of this kind of source, from the safest (0) up.
    pub fn ordinal(self) -> (o: u8)
        ensures
            o == spec_ordinal(self),
            o < SPECTRUM_LEN,
            spec_from_ordinal(o) == self,
    {
        match self {
            RiskSpectrum::Sovereign => 0,
            RiskSpectrum::StablecoinSavings => 1,
            RiskSpectrum::LiquidStaking => 2,
            RiskSpectrum::DiversifiedLending => 3,
            RiskSpectrum::MultiStrategy => 4,
        }
    }
}

/// Target weights, in percent, of the kinds of source. Held in a hash map
/// keyed by the kind's position, so that a weight is found by an integer key.
#[derive(Debug)]
pub struct SourceWeights {
    by_ordinal: HashMap<u8, u8>,
}

impl SourceWeights {
    #[verifier::type_invariant]
    spec fn keys_are_positions(self) -> bool {
        forall|k: u8| #[trigger] self.by_ordinal@.contains_key(k) ==> k < SPECTRUM_LEN
    }

    /// The weights as a map from kind of source to percent.
    pub closed spec fn weights(self) -> Map<RiskSpectrum, u8> {
        Map::new(
            |s: RiskSpectrum| self.by_ordinal@.contains_key(spec_ordinal(s)),
            |s: RiskSpectrum| self.by_ordinal@[spec_ordinal(s)],
        )
    }

    /// No weights.
    pub fn new() -> (w: SourceWeights)
        ensures
            w.weights() == Map::<RiskSpectrum, u8>::empty(),
    {
        let w = SourceWeights { by_ordinal: HashMap::new() };
        assert(w.weights() =~= Map::<RiskSpectrum, u8>::empty());
        w
    }

    /// Sets the weight of a kind of source.
    pub fn insert(&mut self, source: RiskSpectrum, weight: u8)
        ensures
            final(self).weights() == old(self).weights().insert(source, weight),
    {
        proof {
            use_type_invariant(&*self);
        }
        let mut m = HashMap::new();
        std::mem::swap(&mut m, &mut self.by_ordinal);
        m.insert(source.ordinal(), weight);
        self.by_ordinal = m;
        proof {
            assert forall|s: RiskSpectrum|
                #![trigger old(self).weights().insert(source, weight).dom().contains(s)]
                old(self).weights().insert(source, weight).dom().contains(s)
                    == self.weights().dom().contains(s) by {
                if s != source {
                    assert(spec_ordinal(s) != spec_ordinal(source));
                }
            }
            assert(self.weights() =~= old(self).weights().insert(source, weight));
        }
    }

    /// The weight of a kind of source, where it has one.
    pub fn get(&self, source: RiskSpectrum) -> (r: Option<u8>)
        ensures
            r == (if self.weights().contains_key(source) {
                Some(self.weights()[source])
            } else {
                None
            }),
    {
        let o = source.ordinal();
        match self.by_ordinal.get(&o) {
            Some(w) => Some(*w),
            None => None,
        }
    }

    /// Whether a kind of source has a weight.
    pub fn contains_key(&self, source: RiskSpectrum) -> (r: bool)
        ensures
            r == self.weights().contains_key(source),
    {
        let o = source.ordinal();
        self.by_ordinal.contains_key(&o)
    }

    /// Whether no kind of source has a weight.
    pub fn is_empty(&self) -> (r: bool)
        ensures
            r == (self.weights().dom() == Set::<RiskSpectrum>::empty()),
    {
        proof {
            use_type_invariant(self);
        }
        let r = self.by_ordinal.is_empty();
        proof {
            if r {
                assert(self.weights().dom() =~= Set::<RiskSpectrum>::empty());
            } else {
                let k = choose|k: u8| self.by_ordinal@.contains_key(k);
                assert(self.by_ordinal@.contains_key(k));
                assert(spec_ordinal(spec_from_ordinal(k)) == k);
                assert(self.weights().dom().contains(spec_from_ordinal(k)));
            }
        }
        r
    }
}


impl Clone for SourceWeights {
    fn clone(&self) -> (c: Self)
        ensures
            c.weights() == self.weights(),
    {
        proof {
            use_type_invariant(self);
        }
        let c = SourceWeights { by_ordinal: self.by_ordinal.clone() };
        assert(c.weights() =~= self.weights());
        c
    }
}

/// The vault's risk settings.
#[derive(Debug)]
pub struct VaultConfig {
    /// The kinds of source that deposits may go to, in order of preference.
    pub approved_sources: Vec<RiskSpectrum>,
    /// The largest share of the vault, in percent, that one source may hold.
    pub max_exposure_per_source: u8,
    /// The largest share of a deposit or of the portfolio, in percent, in a single adapter.
    pub concentration_limit: u8,
    /// The health score under which an adapter is in breach.
    pub derisking_health_threshold: Score,
    /// Whether the sentinel may recommend derisking on its own.
    pub auto_derisk_enabled: bool,
    /// Target weights of the kinds of source, in percent.
    pub source_weights: SourceWeights,
}

impl Default for VaultConfig {
    fn default() -> (c: Self)
        ensures
            c.approved_sources@ == seq![RiskSpectrum::Sovereign],
            c.max_exposure_per_source == 100,
            c.concentration_limit == 80,
            c.derisking_health_threshold == spec_score(HALF_PATTERN),
            c.auto_derisk_enabled,
            c.source_weights.weights() == Map::<RiskSpectrum, u8>::empty(),
    {
        VaultConfig {
            approved_sources: vec![RiskSpectrum::Sovereign],
            max_exposure_per_source: 100,
            concentration_limit: 80,
            derisking_health_threshold: Score::from_bits(HALF_PATTERN),
            auto_derisk_enabled: true,
            source_weights: SourceWeights::new(),
        }
    }
}

impl Clone for VaultConfig {
    fn clone(&self) -> (c: Self)
        ensures
            c.approved_sources@ == self.approved_sources@,
            c.max_exposure_per_source == self.max_exposure_per_source,
            c.concentration_limit == self.concentration_limit,
            c.derisking_health_threshold == self.derisking_health_threshold,
            c.auto_derisk_enabled == self.auto_derisk_enabled,
            c.source_weights.weights() == self.source_weights.weights(),
    {
        let mut approved_sources: Vec<RiskSpectrum> = Vec::new();
        let mut i: usize = 0;
        while i < self.approved_sources.len()
            invariant
                i <= self.approved_sources@.len(),
                approved_sources@ == self.approved_sources@.take(i as int),
            decreases self.approved_sources@.len() - i,
        {
            approved_sources.push(self.approved_sources[i]);
            i += 1;
            assert(approved_sources@ =~= self.approved_sources@.take(i as int));
        }
        assert(approved_sources@ =~= self.approved_sources@);
        VaultConfig {
            approved_sources,
            max_exposure_per_source: self.max_exposure_per_source,
            concentration_limit: self.concentration_limit,
            derisking_health_threshold: self.derisking_health_threshold,
            auto_derisk_enabled: self.auto_derisk_enabled,
            source_weights: self.source_weights.clone(),
        }
    }
}

/// An amount placed with one adapter.
#[derive(Clone, Debug)]
pub struct Allocation {
    pub source: RiskSpectrum,
    pub adapter_name: String,
    /// In wei.
    pub amount: u128,
}

/// What an adapter reported of its health.
#[derive(Clone, Debug)]
pub struct HealthStatus {
    pub adapter_name: String,
    /// From 0.0 (critical) to 1.0 (healthy).
    pub score: Score,
    pub oracle_fresh: bool,
    pub liquidity_adequate: bool,
    pub utilisation_rate: Score,
    pub details: String,
}

/// What the engine recommends doing about the vault's risk.
#[derive(Clone, Debug)]
pub enum DeriskAction {
    Hold,
    Migrate { from: String, to: RiskSpectrum },
    EmergencyWithdraw { adapter: String },
}

/// A [`DeriskAction`] with its adapter names as character sequences.
pub enum DeriskActionView {
    Hold,
    Migrate { from: Seq<char>, to: RiskSpectrum },
    EmergencyWithdraw { adapter: Seq<char> },
}

impl View for DeriskAction {
    type V = DeriskActionView;

    open spec fn view(&self) -> DeriskActionView {
        match self {
            DeriskAction::Hold => DeriskActionView::Hold,
            DeriskAction::Migrate { from, to } => DeriskActionView::Migrate { from: from@, to: *to },
            DeriskAction::EmergencyWithdraw { adapter } => DeriskActionView::EmergencyWithdraw {
                adapter: adapter@,
            },
        }
    }
}

/// The adapter that serves a kind of source.
pub open spec fn spec_adapter_name(s: RiskSpectrum) -> Seq<char> {
    match s {
        RiskSpectrum::Sovereign => "sovereign_bond"@,
        RiskSpectrum::StablecoinSavings => "aave_savings"@,
        RiskSpectrum::LiquidStaking => "liquid_staking"@,
        RiskSpectrum::DiversifiedLending => "compound_lending"@,
        RiskSpectrum::MultiStrategy => "multi_strategy"@,
    }
}

/// The name of the adapter that serves a kind of source.
pub fn adapter_name_for(spectrum: RiskSpectrum) -> (name: String)
    ensures
        name@ == spec_adapter_name(spectrum),
{
    match spectrum {
        RiskSpectrum::Sovereign => String::from_str("sovereign_bond"),
        RiskSpectrum::StablecoinSavings => String::from_str("aave_savings"),
        RiskSpectrum::LiquidStaking => String::from_str("liquid_staking"),
        RiskSpectrum::DiversifiedLending => String::from_str("compound_lending"),
        RiskSpectrum::MultiStrategy => String::from_str("multi_strategy"),
    }
}

// --- Derisking ---

/// The score of a perfectly healthy adapter.
pub open spec fn full_health() -> Score {
    spec_score(ONE_PATTERN)
}

/// The score under which a degraded adapter calls for an emergency withdrawal.
pub open spec fn emergency_level() -> Score {
    spec_score(EMERGENCY_PATTERN)
}

/// The score of the entry at `w`, or full health where there is none.
pub open spec fn score_at(h: Seq<HealthStatus>, w: Option<int>) -> Score {
    match w {
        Some(i) => h[i].score,
        None => full_health(),
    }
}

/// Scanning the first `n` reports from full health, the last report seen
/// whose score is below the lowest one seen before it.
pub open spec fn running_worst(h: Seq<HealthStatus>, n: nat) -> Option<int>
    decreases n,
{
    if n == 0 {
        None
    } else {
        let prev = running_worst(h, (n - 1) as nat);
        if score_lt(h[n - 1].score, score_at(h, prev)) {
            Some(n - 1)
        } else {
            prev
        }
    }
}

/// What the sentinel recommends for these reports.
pub open spec fn derisk_plan(
    auto_derisk_enabled: bool,
    threshold: Score,
    h: Seq<HealthStatus>,
) -> DeriskActionView {
    if !auto_derisk_enabled {
        DeriskActionView::Hold
    } else {
        let w = running_worst(h, h.len());
        let worst = score_at(h, w);
        let name = match w {
            Some(i) => h[i].adapter_name@,
            None => Seq::<char>::empty(),
        };
        if score_ge(worst, threshold) {
            DeriskActionView::Hold
        } else if score_lt(worst, emergency_level()) {
            DeriskActionView::EmergencyWithdraw { adapter: name }
        } else {
            DeriskActionView::Migrate { from: name, to: RiskSpectrum::Sovereign }
        }
    }
}

proof fn lemma_running_worst_in_range(h: Seq<HealthStatus>, n: nat)
    ensures
        running_worst(h, n) matches Some(i) ==> 0 <= i < n,
    decreases n,
{
    if n > 0 {
        lemma_running_worst_in_range(h, (n - 1) as nat);
    }
}

/// The running worst is a lowest report: no report before it scores below it,
/// and its score is below full health.
proof fn lemma_running_worst_is_lowest(h: Seq<HealthStatus>, n: nat)
    requires
        n <= h.len(),
    ensures
        running_worst(h, n) matches Some(i) ==> {
            &&& 0 <= i < n
            &&& score_lt(h[i].score, full_health())
            &&& forall|j: int| 0 <= j < n ==> !score_lt(#[trigger] h[j].score, h[i].score)
            &&& forall|j: int| 0 <= j < i ==> !score_ge(h[i].score, #[trigger] h[j].score)
        },
        running_worst(h, n) is None ==> forall|j: int|
            0 <= j < n ==> !score_lt(#[trigger] h[j].score, full_health()),
    decreases n,
{
    if n > 0 {
        lemma_running_worst_is_lowest(h, (n - 1) as nat);
        let prev = running_worst(h, (n - 1) as nat);
        let cur = score_at(h, prev);
        if score_lt(h[n - 1].score, cur) {
            assert forall|j: int| 0 <= j < n implies !score_lt(#[trigger] h[j].score, h[n - 1].score) by {
                if j < n - 1 {
                    assert(!score_lt(h[j].score, cur));
                }
            }
            assert forall|j: int| 0 <= j < n - 1 implies !score_ge(h[n - 1].score, #[trigger] h[j].score) by {
                assert(!score_lt(h[j].score, cur));
            }
            assert(score_lt(h[n - 1].score, full_health())) by {
                if prev is Some {
                    assert(score_lt(cur, full_health()));
                }
            }
        }
    }
}

/// Derisking never acts while it is disabled. Enabled, it holds while every
/// adapter scores at least the threshold (and the threshold is at most full
/// health), and it never holds while some adapter scores under the threshold.
/// When it acts, it names the first adapter with the lowest score of all the
/// reports (or none, where no report is below full health): it withdraws from
/// it at once exactly when some report is under the emergency level, and
/// otherwise migrates to sovereign bonds.
pub proof fn lemma_derisk_targets_the_worst(
    auto_derisk_enabled: bool,
    threshold: Score,
    h: Seq<HealthStatus>,
)
    ensures
        ({
            let a = derisk_plan(auto_derisk_enabled, threshold, h);
            &&& !auto_derisk_enabled ==> a == DeriskActionView::Hold
            &&& (forall|i: int| 0 <= i < h.len() ==> score_ge(#[trigger] h[i].score, threshold))
                && score_ge(full_health(), threshold) ==> a == DeriskActionView::Hold
            &&& auto_derisk_enabled && (exists|i: int|
                0 <= i < h.len() && score_lt(#[trigger] h[i].score, threshold)) ==> a
                != DeriskActionView::Hold
            &&& auto_derisk_enabled && (exists|i: int|
                0 <= i < h.len() && score_lt(#[trigger] h[i].score, threshold) && score_lt(
                    h[i].score,
                    emergency_level(),
                )) ==> a is EmergencyWithdraw
            &&& a matches DeriskActionView::EmergencyWithdraw { adapter } ==> exists|i: int|
                0 <= i < h.len() && #[trigger] h[i].adapter_name@ == adapter && score_lt(
                    h[i].score,
                    emergency_level(),
                ) && (forall|j: int| 0 <= j < h.len() ==> !score_lt(#[trigger] h[j].score, h[i].score))
                    && (forall|j: int| 0 <= j < i ==> !score_ge(h[i].score, #[trigger] h[j].score))
            &&& a matches DeriskActionView::Migrate { from, to } ==> {
                &&& to == RiskSpectrum::Sovereign
                &&& forall|j: int| 0 <= j < h.len() ==> !score_lt(#[trigger] h[j].score, emergency_level())
                &&& (exists|i: int|
                    0 <= i < h.len() && #[trigger] h[i].adapter_name@ == from && !score_ge(
                        h[i].score,
                        threshold,
                    ) && (forall|j: int| 0 <= j < h.len() ==> !score_lt(#[trigger] h[j].score, h[i].score))
                        && (forall|j: int| 0 <= j < i ==> !score_ge(h[i].score, #[trigger] h[j].score)))
                    || (from == Seq::<char>::empty() && !score_ge(full_health(), threshold) && forall|j: int|
                    0 <= j < h.len() ==> !score_lt(#[trigger] h[j].score, full_health()))
            }
        }),
{
    lemma_running_worst_is_lowest(h, h.len());
    let w = running_worst(h, h.len());
    let worst = score_at(h, w);
    if let Some(k) = w {
        if forall|m: int| 0 <= m < h.len() ==> score_ge(#[trigger] h[m].score, threshold) {
            assert(score_ge(h[k].score, threshold));
        }
        assert(h[k].adapter_name@ == h[k].adapter_name@);
    }
    if exists|i: int| 0 <= i < h.len() && score_lt(#[trigger] h[i].score, threshold) {
        let i = choose|i: int| 0 <= i < h.len() && score_lt(#[trigger] h[i].score, threshold);
        assert(!score_lt(h[i].score, worst));
        assert(!score_ge(worst, threshold));
        if score_lt(h[i].score, emergency_level()) {
            assert(score_lt(worst, emergency_level()));
        }
    }
}

/// Decide, from the adapters' health reports, whether to hold, migrate away
/// from the worst adapter, or withdraw from it at once.
pub fn should_derisk(config: &VaultConfig, health_data: &[HealthStatus]) -> (action: DeriskAction)
    ensures
        action@ == derisk_plan(
            config.auto_derisk_enabled,
            config.derisking_health_threshold,
            health_data@,
        ),
        ({
            let h = health_data@;
            let threshold = config.derisking_health_threshold;
            &&& !config.auto_derisk_enabled ==> action@ == DeriskActionView::Hold
            &&& (forall|i: int| 0 <= i < h.len() ==> score_ge(#[trigger] h[i].score, threshold))
                && score_ge(full_health(), threshold) ==> action@ == DeriskActionView::Hold
            &&& config.auto_derisk_enabled && (exists|i: int|
                0 <= i < h.len() && score_lt(#[trigger] h[i].score, threshold)) ==> action@
                != DeriskActionView::Hold
            &&& config.auto_derisk_enabled && (exists|i: int|
                0 <= i < h.len() && score_lt(#[trigger] h[i].score, threshold) && score_lt(
                    h[i].score,
                    emergency_level(),
                )) ==> action@ is EmergencyWithdraw
            &&& action@ matches DeriskActionView::EmergencyWithdraw { adapter } ==> exists|i: int|
                0 <= i < h.len() && #[trigger] h[i].adapter_name@ == adapter && score_lt(
                    h[i].score,
                    emergency_level(),
                ) && (forall|j: int| 0 <= j < h.len() ==> !score_lt(#[trigger] h[j].score, h[i].score))
                    && (forall|j: int| 0 <= j < i ==> !score_ge(h[i].score, #[trigger] h[j].score))
            &&& action@ matches DeriskActionView::Migrate { from, to } ==> {
                &&& to == RiskSpectrum::Sovereign
                &&& forall|j: int| 0 <= j < h.len() ==> !score_lt(#[trigger] h[j].score, emergency_level())
                &&& (exists|i: int|
                    0 <= i < h.len() && #[trigger] h[i].adapter_name@ == from && !score_ge(
                        h[i].score,
                        threshold,
                    ) && (forall|j: int| 0 <= j < h.len() ==> !score_lt(#[trigger] h[j].score, h[i].score))
                        && (forall|j: int| 0 <= j < i ==> !score_ge(h[i].score, #[trigger] h[j].score)))
                    || (from == Seq::<char>::empty() && !score_ge(full_health(), threshold) && forall|j: int|
                    0 <= j < h.len() ==> !score_lt(#[trigger] h[j].score, full_health()))
            }
        }),
{
    proof {
        lemma_derisk_targets_the_worst(
            config.auto_derisk_enabled,
            config.derisking_health_threshold,
            health_data@,
        );
    }
    if !config.auto_derisk_enabled {
        return DeriskAction::Hold;
    }
    let ghost h = health_data@;
    let mut worst_score = Score::from_bits(ONE_PATTERN);
    let mut worst: Option<usize> = None;
    let mut i: usize = 0;
    while i < health_data.len()
        invariant
            h == health_data@,
            i <= h.len(),
            match worst {
                Some(k) => running_worst(h, i as nat) == Some(k as int),
                None => running_worst(h, i as nat) is None,
            },
            worst_score == score_at(h, running_worst(h, i as nat)),
        decreases h.len() - i,
    {
        if health_data[i].score.is_below(&worst_score) {
            worst_score = health_data[i].score;
            worst = Some(i);
        }
        i += 1;
    }
    proof {
        lemma_running_worst_in_range(h, h.len());
    }
    let worst_adapter = match worst {
        Some(k) => health_data[k].adapter_name.clone(),
        None => String::new(),
    };
    if worst_score.is_at_least(&config.derisking_health_threshold) {
        DeriskAction::Hold
    } else if worst_score.is_below(&Score::from_bits(EMERGENCY_PATTERN)) {
        DeriskAction::EmergencyWithdraw { adapter: worst_adapter }
    } else {
        DeriskAction::Migrate { from: worst_adapter, to: RiskSpectrum::Sovereign }
    }
}


// --- Portfolio ---

/// The sum of the amounts of a sequence of allocations.
pub open spec fn amounts_sum(a: Seq<Allocation>) -> int
    decreases a.len(),
{
    if a.len() == 0 {
        0
    } else {
        amounts_sum(a.drop_last()) + a.last().amount
    }
}

/// What the vault has placed, allocation by allocation, and the total deposited.
#[derive(Clone, Debug)]
pub struct Portfolio {
    pub allocations: Vec<Allocation>,
    pub total_deposited: u128,
}

impl Portfolio {
    /// The total deposited is the sum of the allocations' amounts.
    pub open spec fn is_consistent(&self) -> bool {
        self.total_deposited == amounts_sum(self.allocations@)
    }

    /// An empty portfolio.
    pub fn new() -> (p: Portfolio)
        ensures
            p.allocations@.len() == 0,
            p.total_deposited == 0,
            p.is_consistent(),
    {
        Portfolio { allocations: Vec::new(), total_deposited: 0 }
    }

    /// The total deposited.
    pub fn total_deposited(&self) -> (t: u128)
        ensures
            t == self.total_deposited,
    {
        self.total_deposited
    }

    /// The allocations, in the order they were added.
    pub fn allocations(&self) -> (a: &[Allocation])
        ensures
            a@ == self.allocations@,
    {
        self.allocations.as_slice()
    }

    /// Records an allocation and adds its amount to the total deposited.
    pub fn add_allocation(&mut self, alloc: Allocation)
        requires
            old(self).total_deposited + alloc.amount <= u128::MAX,
        ensures
            final(self).total_deposited == old(self).total_deposited + alloc.amount,
            final(self).allocations@ == old(self).allocations@.push(alloc),
    {
        self.total_deposited = self.total_deposited + alloc.amount;
        self.allocations.push(alloc);
    }
}

impl Default for Portfolio {
    fn default() -> (p: Self)
        ensures
            p.allocations@.len() == 0,
            p.total_deposited == 0,
    {
        Portfolio::new()
    }
}

/// Adding an allocation to a portfolio whose total is the sum of its
/// allocations, as `add_allocation` does, leaves the total the sum of the
/// allocations.
pub proof fn lemma_add_allocation_keeps_total(before: Portfolio, after: Portfolio, alloc: Allocation)
    requires
        before.is_consistent(),
        after.total_deposited == before.total_deposited + alloc.amount,
        after.allocations@ == before.allocations@.push(alloc),
    ensures
        after.is_consistent(),
{
    assert(after.allocations@.drop_last() =~= before.allocations@);
}

/// A portfolio built from an empty one by adding allocations one after the
/// other, as `add_allocation` does, holds exactly those allocations, in the
/// order they were added. `steps[k]` is the portfolio after the first `k`
/// additions.
pub proof fn lemma_allocations_keep_insertion_order(steps: Seq<Portfolio>, added: Seq<Allocation>)
    requires
        steps.len() == added.len() + 1,
        steps[0].allocations@.len() == 0,
        forall|k: int|
            0 <= k < added.len() ==> #[trigger] steps[k + 1].allocations@ == steps[k].allocations@.push(
                added[k],
            ),
    ensures
        steps.last().allocations@ == added,
    decreases added.len(),
{
    if added.len() > 0 {
        let n = added.len() - 1;
        let fewer_steps = steps.take(steps.len() - 1);
        let fewer = added.take(n);
        assert forall|k: int| 0 <= k < fewer.len() implies #[trigger] fewer_steps[k + 1].allocations@
            == fewer_steps[k].allocations@.push(fewer[k]) by {
            assert(steps[k + 1].allocations@ == steps[k].allocations@.push(added[k]));
        }
        lemma_allocations_keep_insertion_order(fewer_steps, fewer);
        assert(steps[n + 1].allocations@ == steps[n].allocations@.push(added[n]));
        assert(added =~= fewer.push(added[n]));
    } else {
        assert(steps.last().allocations@ =~= added);
    }
}

// --- Risk evaluation ---

/// A rule of the vault that a report or an allocation breaks.
#[derive(Clone, Debug)]
pub enum Breach {
    /// The adapter's score is below the derisking threshold.
    Health { adapter: String, score: Score, threshold: Score },
    /// The adapter's price oracle is stale.
    OracleStale { adapter: String },
    /// The adapter's liquidity is too low.
    LiquidityLow { adapter: String },
    /// The adapter holds a larger share of the portfolio than the limit.
    Concentration { adapter: String, pct: u8, limit: u8 },
}

/// The text that reports a breach, for every kind but a health breach, whose
/// text shows the scores as decimal numbers.
pub open spec fn breach_text(b: Breach) -> Option<Seq<char>> {
    match b {
        Breach::Health { .. } => None,
        Breach::OracleStale { adapter } => Some("oracle_stale: "@ + adapter@),
        Breach::LiquidityLow { adapter } => Some("liquidity_low: "@ + adapter@),
        Breach::Concentration { adapter, pct, limit } => Some(
            "concentration_breach: "@ + adapter@ + " at "@ + decimal(pct as nat) + "% exceeds "@
                + decimal(limit as nat) + "% limit"@,
        ),
    }
}

impl Breach {
    /// The text that reports this breach, where it needs no decimal numbers.
    pub fn message(&self) -> (m: Option<String>)
        ensures
            match m {
                Some(t) => breach_text(*self) == Some(t@),
                None => breach_text(*self) is None,
            },
    {
        match self {
            Breach::Health { .. } => None,
            Breach::OracleStale { adapter } => {
                let mut t = String::from_str("oracle_stale: ");
                t.append(adapter.as_str());
                Some(t)
            },
            Breach::LiquidityLow { adapter } => {
                let mut t = String::from_str("liquidity_low: ");
                t.append(adapter.as_str());
                Some(t)
            },
            Breach::Concentration { adapter, pct, limit } => {
                let mut t = String::from_str("concentration_breach: ");
                t.append(adapter.as_str());
                t.append(" at ");
                crate::text::push_decimal(&mut t, *pct);
                t.append("% exceeds ");
                crate::text::push_decimal(&mut t, *limit);
                t.append("% limit");
                Some(t)
            },
        }
    }
}

/// The result of a risk evaluation.
#[derive(Clone, Debug)]
pub struct RiskAssessment {
    pub breaches: Vec<Breach>,
    pub recommended_action: DeriskAction,
}

/// The breaches that one health report shows, in the order health, oracle, liquidity.
pub open spec fn report_breaches(h: HealthStatus, threshold: Score) -> Seq<Breach> {
    (if score_lt(h.score, threshold) {
        seq![Breach::Health { adapter: h.adapter_name, score: h.score, threshold }]
    } else {
        Seq::empty()
    }) + (if !h.oracle_fresh {
        seq![Breach::OracleStale { adapter: h.adapter_name }]
    } else {
        Seq::empty()
    }) + (if !h.liquidity_adequate {
        seq![Breach::LiquidityLow { adapter: h.adapter_name }]
    } else {
        Seq::empty()
    })
}

/// The breaches that a sequence of health reports shows, report by report.
pub open spec fn health_breaches(h: Seq<HealthStatus>, threshold: Score) -> Seq<Breach>
    decreases h.len(),
{
    if h.len() == 0 {
        Seq::empty()
    } else {
        health_breaches(h.drop_last(), threshold) + report_breaches(h.last(), threshold)
    }
}

/// The concentration breaches of the first `n` allocations, whose shares of
/// the portfolio in percent are `pcts`.
pub open spec fn concentration_breaches(a: Seq<Allocation>, pcts: Seq<u8>, limit: u8, n: nat) -> Seq<Breach>
    decreases n,
{
    if n == 0 {
        Seq::empty()
    } else {
        concentration_breaches(a, pcts, limit, (n - 1) as nat) + (if pcts[n - 1] > limit {
            seq![Breach::Concentration { adapter: a[n - 1].adapter_name, pct: pcts[n - 1], limit }]
        } else {
            Seq::empty()
        })
    }
}

/// The vault approves a single kind of source and everything it holds is in
/// that source: the whole portfolio then sits where it is meant to, and its
/// concentration is not a breach.
pub open spec fn held_in_only_source(config: VaultConfig, portfolio: Portfolio) -> bool {
    &&& config.approved_sources@.len() == 1
    &&& forall|i: int|
        0 <= i < portfolio.allocations@.len() ==> #[trigger] portfolio.allocations@[i].source
            == config.approved_sources@[0]
}

/// Whether the vault approves a single kind of source and holds everything in it.
fn holds_only_approved_source(config: &VaultConfig, portfolio: &Portfolio) -> (r: bool)
    ensures
        r == held_in_only_source(*config, *portfolio),
{
    if config.approved_sources.len() != 1 {
        return false;
    }
    let only = config.approved_sources[0];
    let allocs = portfolio.allocations();
    let mut i: usize = 0;
    while i < allocs.len()
        invariant
            allocs@ == portfolio.allocations@,
            config.approved_sources@.len() == 1,
            only == config.approved_sources@[0],
            i <= allocs@.len(),
            forall|j: int| 0 <= j < i ==> #[trigger] allocs@[j].source == only,
        decreases allocs@.len() - i,
    {
        if allocs[i].source != only {
            return false;
        }
        i += 1;
    }
    true
}

/// All the breaches: the health reports' in order, then, where anything is
/// deposited and the portfolio is not held wholly in the only approved
/// source, the allocations'.
pub open spec fn risk_breaches(
    config: VaultConfig,
    portfolio: Portfolio,
    h: Seq<HealthStatus>,
    pcts: Seq<u8>,
) -> Seq<Breach> {
    health_breaches(h, config.derisking_health_threshold) + (if portfolio.total_deposited > 0
        && !held_in_only_source(config, portfolio) {
        concentration_breaches(
            portfolio.allocations@,
            pcts,
            config.concentration_limit,
            portfolio.allocations@.len(),
        )
    } else {
        Seq::empty()
    })
}

/// Among the first `n` reports (`n >= 1`), the first one with the lowest
/// score: a later report replaces the one held only where its score is below.
pub open spec fn first_lowest(h: Seq<HealthStatus>, n: nat) -> int
    decreases n,
{
    if n <= 1 {
        0
    } else {
        let prev = first_lowest(h, (n - 1) as nat);
        if score_lt(h[n - 1].score, h[prev].score) {
            n - 1
        } else {
            prev
        }
    }
}

/// What a risk evaluation recommends: hold where nothing is breached or no
/// adapter reported; otherwise withdraw from the lowest-scoring adapter at
/// once where its score is under the emergency level, else migrate away from it.
pub open spec fn assessment_plan(breaches: Seq<Breach>, h: Seq<HealthStatus>) -> DeriskActionView {
    if breaches.len() == 0 || h.len() == 0 {
        DeriskActionView::Hold
    } else {
        let w = h[first_lowest(h, h.len())];
        if score_lt(w.score, emergency_level()) {
            DeriskActionView::EmergencyWithdraw { adapter: w.adapter_name@ }
        } else {
            DeriskActionView::Migrate { from: w.adapter_name@, to: RiskSpectrum::Sovereign }
        }
    }
}

proof fn lemma_first_lowest_in_range(h: Seq<HealthStatus>, n: nat)
    requires
        n >= 1,
    ensures
        0 <= first_lowest(h, n) < n,
    decreases n,
{
    if n > 1 {
        lemma_first_lowest_in_range(h, (n - 1) as nat);
    }
}

/// Check the adapters' health and the portfolio's concentration against the
/// vault's rules, and recommend what to do. `allocation_pcts[i]` is the
/// share, in whole percent, that allocation `i` holds of the total deposited.
pub fn evaluate_risk(
    config: &VaultConfig,
    portfolio: &Portfolio,
    health_data: &[HealthStatus],
    allocation_pcts: &[u8],
) -> (assessment: RiskAssessment)
    requires
        allocation_pcts@.len() == portfolio.allocations@.len(),
    ensures
        assessment.breaches@ == risk_breaches(*config, *portfolio, health_data@, allocation_pcts@),
        assessment.recommended_action@ == assessment_plan(assessment.breaches@, health_data@),
        ({
            let h = health_data@;
            let pcts = allocation_pcts@;
            let breaches = assessment.breaches@;
            let a = assessment.recommended_action@;
            let threshold = config.derisking_health_threshold;
            let allocs = portfolio.allocations@;
            let checked = portfolio.total_deposited > 0 && !(config.approved_sources@.len() == 1
                && forall|k: int|
                0 <= k < allocs.len() ==> (#[trigger] allocs[k]).source == config.approved_sources@[0]);
            &&& forall|i: int|
                0 <= i < h.len() ==> {
                    &&& score_lt(#[trigger] h[i].score, threshold) ==> breaches.contains(
                        Breach::Health { adapter: h[i].adapter_name, score: h[i].score, threshold },
                    )
                    &&& !h[i].oracle_fresh ==> breaches.contains(
                        Breach::OracleStale { adapter: h[i].adapter_name },
                    )
                    &&& !h[i].liquidity_adequate ==> breaches.contains(
                        Breach::LiquidityLow { adapter: h[i].adapter_name },
                    )
                }
            &&& checked ==> forall|i: int|
                0 <= i < allocs.len() ==> (#[trigger] pcts[i] > config.concentration_limit
                    <==> breaches.contains(
                    Breach::Concentration {
                        adapter: allocs[i].adapter_name,
                        pct: pcts[i],
                        limit: config.concentration_limit,
                    },
                ))
            &&& forall|m: int|
                0 <= m < breaches.len() ==> (exists|i: int|
                    0 <= i < h.len() && justified_by_report(#[trigger] breaches[m], h[i], threshold))
                    || (checked && exists|i: int|
                    0 <= i < allocs.len() && pcts[i] > config.concentration_limit && breaches[m]
                        == (Breach::Concentration {
                        adapter: allocs[i].adapter_name,
                        pct: pcts[i],
                        limit: config.concentration_limit,
                    }))
            &&& forall|m1: int, m2: int|
                0 <= m1 < m2 < breaches.len() && (#[trigger] breaches[m1] is Concentration) ==> (
                #[trigger] breaches[m2] is Concentration)
            &&& (a == DeriskActionView::Hold) <==> (breaches.len() == 0 || h.len() == 0)
            &&& breaches.len() > 0 && h.len() > 0 ==> exists|i: int|
                0 <= i < h.len() && (forall|j: int|
                    0 <= j < h.len() ==> !score_lt(#[trigger] h[j].score, h[i].score)) && (forall|j: int|
                    0 <= j < i ==> !score_ge(h[i].score, #[trigger] h[j].score)) && (if score_lt(
                    #[trigger] h[i].score,
                    emergency_level(),
                ) {
                    a == DeriskActionView::EmergencyWithdraw { adapter: h[i].adapter_name@ }
                } else {
                    a == DeriskActionView::Migrate {
                        from: h[i].adapter_name@,
                        to: RiskSpectrum::Sovereign,
                    }
                })
        }),
{
    proof {
        lemma_risk_assessment_reports_every_cause(*config, *portfolio, health_data@, allocation_pcts@);
    }
    let ghost h = health_data@;
    let threshold = config.derisking_health_threshold;
    let mut breaches: Vec<Breach> = Vec::new();
    let mut i: usize = 0;
    while i < health_data.len()
        invariant
            h == health_data@,
            i <= h.len(),
            threshold == config.derisking_health_threshold,
            breaches@ == health_breaches(h.take(i as int), threshold),
        decreases h.len() - i,
    {
        let report = &health_data[i];
        let ghost before = breaches@;
        if report.score.is_below(&threshold) {
            breaches.push(
                Breach::Health { adapter: report.adapter_name.clone(), score: report.score, threshold },
            );
        }
        if !report.oracle_fresh {
            breaches.push(Breach::OracleStale { adapter: report.adapter_name.clone() });
        }
        if !report.liquidity_adequate {
            breaches.push(Breach::LiquidityLow { adapter: report.adapter_name.clone() });
        }
        proof {
            assert(h.take(i + 1).drop_last() =~= h.take(i as int));
            assert(h.take(i + 1).last() == h[i as int]);
            assert(breaches@ =~= before + report_breaches(h[i as int], threshold));
        }
        i += 1;
    }
    assert(h.take(h.len() as int) =~= h);
    let ghost health_part = breaches@;
    let total = portfolio.total_deposited();
    if total > 0 && !holds_only_approved_source(config, portfolio) {
        let allocs = portfolio.allocations();
        let ghost a = allocs@;
        let mut j: usize = 0;
        while j < allocs.len()
            invariant
                a == allocs@,
                a == portfolio.allocations@,
                allocation_pcts@.len() == a.len(),
                j <= a.len(),
                breaches@ == health_part + concentration_breaches(
                    a,
                    allocation_pcts@,
                    config.concentration_limit,
                    j as nat,
                ),
            decreases a.len() - j,
        {
            let pct = allocation_pcts[j];
            if pct > config.concentration_limit {
                breaches.push(
                    Breach::Concentration {
                        adapter: allocs[j].adapter_name.clone(),
                        pct,
                        limit: config.concentration_limit,
                    },
                );
            }
            proof {
                assert(breaches@ =~= health_part + concentration_breaches(
                    a,
                    allocation_pcts@,
                    config.concentration_limit,
                    (j + 1) as nat,
                ));
            }
            j += 1;
        }
    } else {
        assert(breaches@ =~= health_part + Seq::<Breach>::empty());
    }
    let recommended_action = if breaches.len() == 0 || health_data.len() == 0 {
        DeriskAction::Hold
    } else {
        let mut low: usize = 0;
        let mut k: usize = 1;
        while k < health_data.len()
            invariant
                h == health_data@,
                1 <= k <= h.len(),
                low as int == first_lowest(h, k as nat),
            decreases h.len() - k,
        {
            proof {
                lemma_first_lowest_in_range(h, k as nat);
            }
            if health_data[k].score.is_below(&health_data[low].score) {
                low = k;
            }
            k += 1;
        }
        proof {
            lemma_first_lowest_in_range(h, h.len());
        }
        let worst = &health_data[low];
        if worst.score.is_below(&Score::from_bits(EMERGENCY_PATTERN)) {
            DeriskAction::EmergencyWithdraw { adapter: worst.adapter_name.clone() }
        } else {
            DeriskAction::Migrate { from: worst.adapter_name.clone(), to: RiskSpectrum::Sovereign }
        }
    };
    RiskAssessment { breaches, recommended_action }
}


proof fn lemma_first_lowest_is_first_lowest(h: Seq<HealthStatus>, n: nat)
    requires
        1 <= n <= h.len(),
    ensures
        0 <= first_lowest(h, n) < n,
        forall|j: int| 0 <= j < n ==> !score_lt(#[trigger] h[j].score, h[first_lowest(h, n)].score),
        forall|j: int|
            0 <= j < first_lowest(h, n) ==> !score_ge(h[first_lowest(h, n)].score, #[trigger] h[j].score),
    decreases n,
{
    if n > 1 {
        lemma_first_lowest_is_first_lowest(h, (n - 1) as nat);
        let prev = first_lowest(h, (n - 1) as nat);
        if score_lt(h[n - 1].score, h[prev].score) {
            assert forall|j: int| 0 <= j < n implies !score_lt(#[trigger] h[j].score, h[n - 1].score) by {
                if j < n - 1 {
                    assert(!score_lt(h[j].score, h[prev].score));
                }
            }
            assert forall|j: int| 0 <= j < n - 1 implies !score_ge(h[n - 1].score, #[trigger] h[j].score) by {
                assert(!score_lt(h[j].score, h[prev].score));
            }
        }
    }
}

proof fn lemma_contains_concat(a: Seq<Breach>, b: Seq<Breach>, x: Breach)
    ensures
        (a + b).contains(x) <==> (a.contains(x) || b.contains(x)),
{
    if a.contains(x) {
        let k = choose|k: int| 0 <= k < a.len() && a[k] == x;
        assert((a + b)[k] == x);
    }
    if b.contains(x) {
        let k = choose|k: int| 0 <= k < b.len() && b[k] == x;
        assert((a + b)[a.len() + k] == x);
    }
    if (a + b).contains(x) {
        let k = choose|k: int| 0 <= k < (a + b).len() && (a + b)[k] == x;
        if k < a.len() {
            assert(a[k] == x);
        } else {
            assert(b[k - a.len()] == x);
        }
    }
}

/// A breach is justified by a report when it is that report's health breach
/// (score under the threshold), stale-oracle breach or low-liquidity breach.
pub open spec fn justified_by_report(b: Breach, r: HealthStatus, threshold: Score) -> bool {
    ||| b == Breach::Health { adapter: r.adapter_name, score: r.score, threshold } && score_lt(
        r.score,
        threshold,
    )
    ||| b == Breach::OracleStale { adapter: r.adapter_name } && !r.oracle_fresh
    ||| b == Breach::LiquidityLow { adapter: r.adapter_name } && !r.liquidity_adequate
}

proof fn lemma_health_breaches_cover(h: Seq<HealthStatus>, threshold: Score)
    ensures
        forall|i: int|
            0 <= i < h.len() ==> {
                &&& score_lt(#[trigger] h[i].score, threshold) ==> health_breaches(h, threshold).contains(
                    Breach::Health { adapter: h[i].adapter_name, score: h[i].score, threshold },
                )
                &&& !h[i].oracle_fresh ==> health_breaches(h, threshold).contains(
                    Breach::OracleStale { adapter: h[i].adapter_name },
                )
                &&& !h[i].liquidity_adequate ==> health_breaches(h, threshold).contains(
                    Breach::LiquidityLow { adapter: h[i].adapter_name },
                )
            },
        forall|m: int|
            0 <= m < health_breaches(h, threshold).len() ==> exists|i: int|
                0 <= i < h.len() && justified_by_report(
                    #[trigger] health_breaches(h, threshold)[m],
                    h[i],
                    threshold,
                ),
    decreases h.len(),
{
    if h.len() > 0 {
        let p = h.drop_last();
        let r = h.last();
        lemma_health_breaches_cover(p, threshold);
        let hp = health_breaches(p, threshold);
        let x = (if score_lt(r.score, threshold) {
            seq![Breach::Health { adapter: r.adapter_name, score: r.score, threshold }]
        } else {
            Seq::empty()
        });
        let y = (if !r.oracle_fresh {
            seq![Breach::OracleStale { adapter: r.adapter_name }]
        } else {
            Seq::empty()
        });
        let z = (if !r.liquidity_adequate {
            seq![Breach::LiquidityLow { adapter: r.adapter_name }]
        } else {
            Seq::empty()
        });
        let all = health_breaches(h, threshold);
        assert(all == hp + (x + y + z));
        assert(report_breaches(r, threshold) == x + y + z);
        assert forall|i: int| 0 <= i < h.len() implies {
            &&& score_lt(#[trigger] h[i].score, threshold) ==> all.contains(
                Breach::Health { adapter: h[i].adapter_name, score: h[i].score, threshold },
            )
            &&& !h[i].oracle_fresh ==> all.contains(Breach::OracleStale { adapter: h[i].adapter_name })
            &&& !h[i].liquidity_adequate ==> all.contains(
                Breach::LiquidityLow { adapter: h[i].adapter_name },
            )
        } by {
            let bh = Breach::Health { adapter: h[i].adapter_name, score: h[i].score, threshold };
            let bo = Breach::OracleStale { adapter: h[i].adapter_name };
            let bl = Breach::LiquidityLow { adapter: h[i].adapter_name };
            lemma_contains_concat(hp, x + y + z, bh);
            lemma_contains_concat(hp, x + y + z, bo);
            lemma_contains_concat(hp, x + y + z, bl);
            lemma_contains_concat(x + y, z, bh);
            lemma_contains_concat(x + y, z, bo);
            lemma_contains_concat(x + y, z, bl);
            lemma_contains_concat(x, y, bh);
            lemma_contains_concat(x, y, bo);
            lemma_contains_concat(x, y, bl);
            if i < h.len() - 1 {
                assert(p[i] == h[i]);
            } else {
                assert(h[i] == r);
                if score_lt(r.score, threshold) {
                    assert(x[0] == bh);
                }
                if !r.oracle_fresh {
                    assert(y[0] == bo);
                }
                if !r.liquidity_adequate {
                    assert(z[0] == bl);
                }
            }
        }
        assert forall|m: int| 0 <= m < all.len() implies exists|i: int|
            0 <= i < h.len() && justified_by_report(#[trigger] all[m], h[i], threshold) by {
            if m < hp.len() {
                assert(all[m] == hp[m]);
                let i = choose|i: int| 0 <= i < p.len() && justified_by_report(hp[m], p[i], threshold);
                assert(p[i] == h[i]);
            } else {
                let k = m - hp.len();
                let t = x + y + z;
                assert(all[m] == t[k]);
                assert(h[h.len() - 1] == r);
                assert(justified_by_report(t[k], r, threshold));
            }
        }
    }
}

/// A risk evaluation reports, for every adapter, a health breach when its
/// score is under the threshold, a stale-oracle breach when its oracle is
/// stale and a low-liquidity breach when its liquidity is low, whatever its
/// score; and, where the portfolio is checked, a concentration breach for every
/// allocation over the limit. Every breach it reports has such a cause. It
/// holds exactly when nothing is breached or no adapter reported; otherwise it
/// acts on the first adapter with the lowest score of all the reports,
/// withdrawing at once exactly when that score is under the emergency level,
/// and otherwise migrating to sovereign bonds.
pub proof fn lemma_risk_assessment_reports_every_cause(
    config: VaultConfig,
    portfolio: Portfolio,
    h: Seq<HealthStatus>,
    pcts: Seq<u8>,
)
    requires
        pcts.len() == portfolio.allocations@.len(),
    ensures
        ({
            let breaches = risk_breaches(config, portfolio, h, pcts);
            let a = assessment_plan(breaches, h);
            let threshold = config.derisking_health_threshold;
            let allocs = portfolio.allocations@;
            let checked = portfolio.total_deposited > 0 && !(config.approved_sources@.len() == 1
                && forall|k: int|
                0 <= k < allocs.len() ==> (#[trigger] allocs[k]).source == config.approved_sources@[0]);
            &&& forall|i: int|
                0 <= i < h.len() ==> {
                    &&& score_lt(#[trigger] h[i].score, threshold) ==> breaches.contains(
                        Breach::Health { adapter: h[i].adapter_name, score: h[i].score, threshold },
                    )
                    &&& !h[i].oracle_fresh ==> breaches.contains(
                        Breach::OracleStale { adapter: h[i].adapter_name },
                    )
                    &&& !h[i].liquidity_adequate ==> breaches.contains(
                        Breach::LiquidityLow { adapter: h[i].adapter_name },
                    )
                }
            &&& checked ==> forall|i: int|
                0 <= i < allocs.len() ==> (#[trigger] pcts[i] > config.concentration_limit
                    <==> breaches.contains(
                    Breach::Concentration {
                        adapter: allocs[i].adapter_name,
                        pct: pcts[i],
                        limit: config.concentration_limit,
                    },
                ))
            &&& forall|m: int|
                0 <= m < breaches.len() ==> (exists|i: int|
                    0 <= i < h.len() && justified_by_report(#[trigger] breaches[m], h[i], threshold))
                    || (checked && exists|i: int|
                    0 <= i < allocs.len() && pcts[i] > config.concentration_limit && breaches[m]
                        == (Breach::Concentration {
                        adapter: allocs[i].adapter_name,
                        pct: pcts[i],
                        limit: config.concentration_limit,
                    }))
            &&& forall|m1: int, m2: int|
                0 <= m1 < m2 < breaches.len() && (#[trigger] breaches[m1] is Concentration) ==> (
                #[trigger] breaches[m2] is Concentration)
            &&& (a == DeriskActionView::Hold) <==> (breaches.len() == 0 || h.len() == 0)
            &&& breaches.len() > 0 && h.len() > 0 ==> exists|i: int|
                0 <= i < h.len() && (forall|j: int|
                    0 <= j < h.len() ==> !score_lt(#[trigger] h[j].score, h[i].score)) && (forall|j: int|
                    0 <= j < i ==> !score_ge(h[i].score, #[trigger] h[j].score)) && (if score_lt(
                    #[trigger] h[i].score,
                    emergency_level(),
                ) {
                    a == DeriskActionView::EmergencyWithdraw { adapter: h[i].adapter_name@ }
                } else {
                    a == DeriskActionView::Migrate {
                        from: h[i].adapter_name@,
                        to: RiskSpectrum::Sovereign,
                    }
                })
        }),
{
    let threshold = config.derisking_health_threshold;
    let allocs = portfolio.allocations@;
    let hb = health_breaches(h, threshold);
    let checked = portfolio.total_deposited > 0 && !held_in_only_source(config, portfolio);
    let cb = if checked {
        concentration_breaches(allocs, pcts, config.concentration_limit, allocs.len())
    } else {
        Seq::<Breach>::empty()
    };
    let breaches = risk_breaches(config, portfolio, h, pcts);
    assert(breaches == hb + cb);
    lemma_health_breaches_cover(h, threshold);
    lemma_concentration_breach_iff_over_limit(allocs, pcts, config.concentration_limit, allocs.len());
    lemma_concentration_breaches_mention(allocs, pcts, config.concentration_limit, allocs.len());
    assert forall|i: int| 0 <= i < h.len() implies {
        &&& score_lt(#[trigger] h[i].score, threshold) ==> breaches.contains(
            Breach::Health { adapter: h[i].adapter_name, score: h[i].score, threshold },
        )
        &&& !h[i].oracle_fresh ==> breaches.contains(Breach::OracleStale { adapter: h[i].adapter_name })
        &&& !h[i].liquidity_adequate ==> breaches.contains(
            Breach::LiquidityLow { adapter: h[i].adapter_name },
        )
    } by {
        lemma_contains_concat(hb, cb, Breach::Health { adapter: h[i].adapter_name, score: h[i].score, threshold });
        lemma_contains_concat(hb, cb, Breach::OracleStale { adapter: h[i].adapter_name });
        lemma_contains_concat(hb, cb, Breach::LiquidityLow { adapter: h[i].adapter_name });
    }
    if checked {
        assert forall|i: int| 0 <= i < allocs.len() implies (#[trigger] pcts[i] > config.concentration_limit
            <==> breaches.contains(
            Breach::Concentration {
                adapter: allocs[i].adapter_name,
                pct: pcts[i],
                limit: config.concentration_limit,
            },
        )) by {
            let b = Breach::Concentration {
                adapter: allocs[i].adapter_name,
                pct: pcts[i],
                limit: config.concentration_limit,
            };
            lemma_contains_concat(hb, cb, b);
        }
    }
    assert forall|m: int| 0 <= m < breaches.len() implies (exists|i: int|
        0 <= i < h.len() && justified_by_report(#[trigger] breaches[m], h[i], threshold)) || (checked
        && exists|i: int|
        0 <= i < allocs.len() && pcts[i] > config.concentration_limit && breaches[m]
            == (Breach::Concentration {
            adapter: allocs[i].adapter_name,
            pct: pcts[i],
            limit: config.concentration_limit,
        })) by {
        if m < hb.len() {
            assert(breaches[m] == hb[m]);
        } else {
            assert(breaches[m] == cb[m - hb.len()]);
        }
    }
    assert forall|m1: int, m2: int|
        0 <= m1 < m2 < breaches.len() && (#[trigger] breaches[m1] is Concentration) implies (
        #[trigger] breaches[m2] is Concentration) by {
        if m1 < hb.len() {
            assert(breaches[m1] == hb[m1]);
        }
        if m2 >= hb.len() {
            assert(breaches[m2] == cb[m2 - hb.len()]);
        }
    }
    if breaches.len() > 0 && h.len() > 0 {
        lemma_first_lowest_is_first_lowest(h, h.len());
    }
}

/// A risk evaluation holds exactly when nothing is breached or no adapter
/// reported; otherwise it acts on the first lowest-scoring adapter, and only
/// moves funds to sovereign bonds.
pub proof fn lemma_assessment_acts_on_breaches(breaches: Seq<Breach>, h: Seq<HealthStatus>)
    ensures
        (assessment_plan(breaches, h) == DeriskActionView::Hold) <==> (breaches.len() == 0 || h.len()
            == 0),
        assessment_plan(breaches, h) matches DeriskActionView::Migrate { from, to } ==> to
            == RiskSpectrum::Sovereign,
        breaches.len() > 0 && h.len() > 0 ==> ({
            let w = h[first_lowest(h, h.len())];
            assessment_plan(breaches, h) == DeriskActionView::EmergencyWithdraw {
                adapter: w.adapter_name@,
            } || assessment_plan(breaches, h) == DeriskActionView::Migrate {
                from: w.adapter_name@,
                to: RiskSpectrum::Sovereign,
            }
        }),
{
}

proof fn lemma_no_health_breaches(h: Seq<HealthStatus>, threshold: Score)
    requires
        forall|i: int|
            0 <= i < h.len() ==> !score_lt(#[trigger] h[i].score, threshold) && h[i].oracle_fresh
                && h[i].liquidity_adequate,
    ensures
        health_breaches(h, threshold).len() == 0,
    decreases h.len(),
{
    if h.len() > 0 {
        let p = h.drop_last();
        assert forall|i: int| 0 <= i < p.len() implies !score_lt(#[trigger] p[i].score, threshold)
            && p[i].oracle_fresh && p[i].liquidity_adequate by {
            assert(p[i] == h[i]);
        }
        lemma_no_health_breaches(p, threshold);
        assert(h.last() == h[h.len() - 1]);
    }
}

proof fn lemma_no_concentration_breaches(a: Seq<Allocation>, pcts: Seq<u8>, limit: u8, n: nat)
    requires
        n <= pcts.len(),
        forall|i: int| 0 <= i < n ==> #[trigger] pcts[i] <= limit,
    ensures
        concentration_breaches(a, pcts, limit, n).len() == 0,
    decreases n,
{
    if n > 0 {
        lemma_no_concentration_breaches(a, pcts, limit, (n - 1) as nat);
    }
}

/// A vault whose adapters all report healthy (score at least the threshold,
/// fresh oracle, adequate liquidity) and whose portfolio is empty, held wholly
/// in its only approved source, or within the concentration limit everywhere,
/// has nothing breached, and its evaluation holds.
pub proof fn lemma_healthy_vault_holds(
    config: VaultConfig,
    portfolio: Portfolio,
    h: Seq<HealthStatus>,
    pcts: Seq<u8>,
)
    requires
        pcts.len() == portfolio.allocations@.len(),
        forall|i: int|
            0 <= i < h.len() ==> !score_lt(#[trigger] h[i].score, config.derisking_health_threshold)
                && h[i].oracle_fresh && h[i].liquidity_adequate,
        portfolio.total_deposited == 0 || held_in_only_source(config, portfolio) || forall|i: int|
            0 <= i < pcts.len() ==> #[trigger] pcts[i] <= config.concentration_limit,
    ensures
        risk_breaches(config, portfolio, h, pcts).len() == 0,
        assessment_plan(risk_breaches(config, portfolio, h, pcts), h) == DeriskActionView::Hold,
{
    lemma_no_health_breaches(h, config.derisking_health_threshold);
    if portfolio.total_deposited > 0 && !held_in_only_source(config, portfolio) {
        lemma_no_concentration_breaches(
            portfolio.allocations@,
            pcts,
            config.concentration_limit,
            portfolio.allocations@.len(),
        );
    }
}

/// An allocation is reported as a concentration breach exactly when its share
/// exceeds the limit.
pub proof fn lemma_concentration_breach_iff_over_limit(
    a: Seq<Allocation>,
    pcts: Seq<u8>,
    limit: u8,
    n: nat,
)
    requires
        n <= a.len(),
        n <= pcts.len(),
    ensures
        forall|i: int|
            0 <= i < n ==> (pcts[i] > limit <==> concentration_breaches(a, pcts, limit, n).contains(
                Breach::Concentration { adapter: a[i].adapter_name, pct: pcts[i], limit },
            )),
    decreases n,
{
    if n > 0 {
        lemma_concentration_breach_iff_over_limit(a, pcts, limit, (n - 1) as nat);
        let prev = concentration_breaches(a, pcts, limit, (n - 1) as nat);
        lemma_concentration_breaches_mention(a, pcts, limit, (n - 1) as nat);
        let k = n - 1;
        let b = Breach::Concentration { adapter: a[k].adapter_name, pct: pcts[k], limit };
        let tail = if pcts[k] > limit {
            seq![b]
        } else {
            Seq::<Breach>::empty()
        };
        let all = concentration_breaches(a, pcts, limit, n);
        assert(all == prev + tail);
        assert forall|i: int| 0 <= i < n implies (pcts[i] > limit <==> #[trigger] all.contains(
            Breach::Concentration { adapter: a[i].adapter_name, pct: pcts[i], limit },
        )) by {
            let bi = Breach::Concentration { adapter: a[i].adapter_name, pct: pcts[i], limit };
            if i < k {
                if prev.contains(bi) {
                    let m = choose|m: int| 0 <= m < prev.len() && prev[m] == bi;
                    assert(all[m] == bi);
                }
                if all.contains(bi) {
                    let m = choose|m: int| 0 <= m < all.len() && all[m] == bi;
                    if m >= prev.len() {
                        assert(pcts[k] > limit && bi == b);
                        assert(pcts[i] > limit);
                    } else {
                        assert(prev[m] == bi);
                    }
                }
            } else {
                if pcts[k] > limit {
                    assert(all[prev.len() as int] == b);
                } else {
                    if all.contains(bi) {
                        let m = choose|m: int| 0 <= m < all.len() && all[m] == bi;
                        assert(prev[m] == bi);
                        assert(pcts[k] > limit);
                    }
                }
            }
        }
    }
}

/// Every concentration breach among the first `n` allocations names one of
/// them that is over the limit.
proof fn lemma_concentration_breaches_mention(a: Seq<Allocation>, pcts: Seq<u8>, limit: u8, n: nat)
    requires
        n <= a.len(),
        n <= pcts.len(),
    ensures
        forall|m: int|
            0 <= m < concentration_breaches(a, pcts, limit, n).len() ==> exists|i: int|
                0 <= i < n && pcts[i] > limit && #[trigger] concentration_breaches(
                    a,
                    pcts,
                    limit,
                    n,
                )[m] == (Breach::Concentration { adapter: a[i].adapter_name, pct: pcts[i], limit }),
    decreases n,
{
    if n > 0 {
        lemma_concentration_breaches_mention(a, pcts, limit, (n - 1) as nat);
        let prev = concentration_breaches(a, pcts, limit, (n - 1) as nat);
        let all = concentration_breaches(a, pcts, limit, n);
        assert forall|m: int| 0 <= m < all.len() implies exists|i: int|
            0 <= i < n && pcts[i] > limit && #[trigger] all[m] == (Breach::Concentration {
                adapter: a[i].adapter_name,
                pct: pcts[i],
                limit,
            }) by {
            if m < prev.len() {
                assert(all[m] == prev[m]);
            } else {
                let k = n - 1;
                assert(all[m] == Breach::Concentration { adapter: a[k].adapter_name, pct: pcts[k], limit });
            }
        }
    }
}

// --- Allocation ---

/// A recommended split of a deposit across adapters.
#[derive(Clone, Debug)]
pub struct AllocationPlan {
    pub allocations: Vec<Allocation>,
}

pub open spec fn min_int(a: int, b: int) -> int {
    if a <= b {
        a
    } else {
        b
    }
}

/// The weight of a kind of source, 0 where it has none.
pub open spec fn weight_of(w: Map<RiskSpectrum, u8>, s: RiskSpectrum) -> int {
    if w.contains_key(s) {
        w[s] as int
    } else {
        0
    }
}

/// The sum of the weights of the first `n` approved sources, counted once per appearance.
pub open spec fn weight_total(sources: Seq<RiskSpectrum>, w: Map<RiskSpectrum, u8>, n: nat) -> int
    decreases n,
{
    if n == 0 {
        0
    } else {
        weight_total(sources, w, (n - 1) as nat) + weight_of(w, sources[n - 1])
    }
}

/// Every approved source has a weight, and the weights add up to 100.
pub open spec fn weights_valid(sources: Seq<RiskSpectrum>, w: Map<RiskSpectrum, u8>) -> bool {
    &&& forall|i: int| 0 <= i < sources.len() ==> w.contains_key(#[trigger] sources[i])
    &&& weight_total(sources, w, sources.len()) == 100
}

/// The most that one adapter may receive of a deposit.
pub open spec fn concentration_cap(d: int, limit: int) -> int {
    d * limit / 100
}

/// What an approved source other than the last receives: its weighted part
/// where the weights are valid, else an equal part, and never more than the cap.
pub open spec fn share(
    sources: Seq<RiskSpectrum>,
    w: Map<RiskSpectrum, u8>,
    d: int,
    limit: int,
    i: int,
) -> int {
    if weights_valid(sources, w) {
        min_int(d * weight_of(w, sources[i]) / 100, concentration_cap(d, limit))
    } else {
        min_int(d / (sources.len() as int), concentration_cap(d, limit))
    }
}

/// What the first `k` approved sources receive together.
pub open spec fn shares_before(
    sources: Seq<RiskSpectrum>,
    w: Map<RiskSpectrum, u8>,
    d: int,
    limit: int,
    k: nat,
) -> int
    decreases k,
{
    if k == 0 {
        0
    } else {
        shares_before(sources, w, d, limit, (k - 1) as nat) + share(sources, w, d, limit, k - 1)
    }
}

/// What the approved source at position `i` receives of a deposit `d`: the
/// whole deposit where it is the only one; otherwise its share, and for the
/// last one what the others left, capped.
pub open spec fn planned_amount(
    sources: Seq<RiskSpectrum>,
    w: Map<RiskSpectrum, u8>,
    d: int,
    limit: int,
    i: int,
) -> int {
    if sources.len() == 1 {
        d
    } else if i < sources.len() - 1 {
        share(sources, w, d, limit, i)
    } else {
        min_int(
            d - shares_before(sources, w, d, limit, (sources.len() - 1) as nat),
            concentration_cap(d, limit),
        )
    }
}

/// The deposit can be planned without an arithmetic overflow: the cap, the
/// sum of the weights (in 16 bits) and each weighted part can be computed.
pub open spec fn allocation_fits(config: VaultConfig, d: u128) -> bool {
    let sources = config.approved_sources@;
    let w = config.source_weights.weights();
    sources.len() >= 2 ==> {
        &&& d * config.concentration_limit <= u128::MAX
        &&& weight_total(sources, w, sources.len()) <= u16::MAX
        &&& weights_valid(sources, w) ==> forall|i: int|
            0 <= i < sources.len() - 1 ==> d * weight_of(w, #[trigger] sources[i]) <= u128::MAX
    }
}

proof fn lemma_weight_total_monotone(sources: Seq<RiskSpectrum>, w: Map<RiskSpectrum, u8>, k: nat, n: nat)
    requires
        k <= n,
    ensures
        0 <= weight_total(sources, w, k) <= weight_total(sources, w, n),
    decreases n,
{
    if n > k {
        lemma_weight_total_monotone(sources, w, k, (n - 1) as nat);
    } else if k > 0 {
        lemma_weight_total_monotone(sources, w, (k - 1) as nat, (k - 1) as nat);
    }
}

proof fn lemma_weighted_shares(
    sources: Seq<RiskSpectrum>,
    w: Map<RiskSpectrum, u8>,
    d: int,
    limit: int,
    k: nat,
)
    requires
        weights_valid(sources, w),
        sources.len() >= 2,
        k <= sources.len(),
        d >= 0,
        limit >= 0,
    ensures
        0 <= shares_before(sources, w, d, limit, k),
        shares_before(sources, w, d, limit, k) * 100 <= d * weight_total(sources, w, k),
    decreases k,
{
    if k > 0 {
        lemma_weighted_shares(sources, w, d, limit, (k - 1) as nat);
        let x = weight_of(w, sources[k - 1]);
        let cap = concentration_cap(d, limit);
        assert(x >= 0);
        assert(d * x >= 0) by (nonlinear_arith)
            requires
                d >= 0,
                x >= 0,
        ;
        assert(cap >= 0) by (nonlinear_arith)
            requires
                d >= 0,
                limit >= 0,
                cap == d * limit / 100,
        ;
        assert((d * x / 100) * 100 <= d * x) by (nonlinear_arith)
            requires
                d * x >= 0,
        ;
        let prev = weight_total(sources, w, (k - 1) as nat);
        assert(d * (prev + x) == d * prev + d * x) by (nonlinear_arith);
    }
}

proof fn lemma_equal_shares(
    sources: Seq<RiskSpectrum>,
    w: Map<RiskSpectrum, u8>,
    d: int,
    limit: int,
    k: nat,
)
    requires
        !weights_valid(sources, w),
        sources.len() >= 2,
        d >= 0,
        limit >= 0,
    ensures
        0 <= shares_before(sources, w, d, limit, k) <= k * (d / (sources.len() as int)),
    decreases k,
{
    if k > 0 {
        lemma_equal_shares(sources, w, d, limit, (k - 1) as nat);
        let n = sources.len() as int;
        let cap = concentration_cap(d, limit);
        assert(cap >= 0) by (nonlinear_arith)
            requires
                d >= 0,
                limit >= 0,
                cap == d * limit / 100,
        ;
        assert(d / n >= 0) by (nonlinear_arith)
            requires
                d >= 0,
                n >= 2,
        ;
        assert((k - 1) * (d / n) + d / n == k * (d / n)) by (nonlinear_arith);
    }
}

/// Before the last approved source, the shares never add up to more than the deposit.
proof fn lemma_shares_within_deposit(
    sources: Seq<RiskSpectrum>,
    w: Map<RiskSpectrum, u8>,
    d: int,
    limit: int,
    k: nat,
)
    requires
        sources.len() >= 2,
        k <= sources.len() - 1,
        d >= 0,
        limit >= 0,
    ensures
        0 <= shares_before(sources, w, d, limit, k) <= d,
{
    let n = sources.len() as int;
    if weights_valid(sources, w) {
        lemma_weighted_shares(sources, w, d, limit, k);
        lemma_weight_total_monotone(sources, w, k, sources.len());
        let s = shares_before(sources, w, d, limit, k);
        let wt = weight_total(sources, w, k);
        assert(s <= d) by (nonlinear_arith)
            requires
                s * 100 <= d * wt,
                wt <= 100,
                d >= 0,
        ;
    } else {
        lemma_equal_shares(sources, w, d, limit, k);
        assert(k * (d / n) <= d) by (nonlinear_arith)
            requires
                k <= n - 1,
                n >= 2,
                d >= 0,
                k >= 0,
        ;
    }
}

/// Whether every approved source has a weight and the weights add up to 100.
fn weights_are_valid(config: &VaultConfig) -> (r: bool)
    requires
        weight_total(config.approved_sources@, config.source_weights.weights(), config.approved_sources@.len()) <= u16::MAX,
    ensures
        r == weights_valid(config.approved_sources@, config.source_weights.weights()),
{
    let sources = &config.approved_sources;
    let ghost w = config.source_weights.weights();
    let mut all_present = true;
    let mut sum: u16 = 0;
    let mut i: usize = 0;
    while i < sources.len()
        invariant
            i <= sources@.len(),
            w == config.source_weights.weights(),
            sources == &config.approved_sources,
            weight_total(sources@, w, sources@.len()) <= u16::MAX,
            all_present == (forall|j: int| 0 <= j < i ==> w.contains_key(#[trigger] sources@[j])),
            sum == weight_total(sources@, w, i as nat),
        decreases sources@.len() - i,
    {
        proof {
            lemma_weight_total_monotone(sources@, w, (i + 1) as nat, sources@.len());
        }
        let s = sources[i];
        if !config.source_weights.contains_key(s) {
            all_present = false;
        }
        match config.source_weights.get(s) {
            Some(x) => {
                sum = sum + x as u16;
            },
            None => {},
        }
        i += 1;
    }
    all_present && sum == 100
}

/// With two or more approved sources, every source but the last receives its
/// part capped at `deposit * limit / 100`: where every approved source has a
/// weight and the weights add up to 100, its part is `deposit * weight / 100`,
/// otherwise it is `deposit / n`.
pub proof fn lemma_planned_parts(
    sources: Seq<RiskSpectrum>,
    w: Map<RiskSpectrum, u8>,
    d: int,
    limit: int,
)
    requires
        sources.len() >= 2,
    ensures
        forall|i: int|
            0 <= i < sources.len() - 1 ==> {
                let cap = d * limit / 100;
                let part = if (forall|k: int| 0 <= k < sources.len() ==> w.contains_key(#[trigger] sources[k]))
                    && weight_total(sources, w, sources.len()) == 100 {
                    d * (w[sources[i]] as int) / 100
                } else {
                    d / (sources.len() as int)
                };
                #[trigger] planned_amount(sources, w, d, limit, i) == if part <= cap {
                    part
                } else {
                    cap
                }
            },
{
}

proof fn lemma_plan_prefix_sums(plan: Seq<Allocation>, sources: Seq<RiskSpectrum>, w: Map<RiskSpectrum, u8>, d: int, limit: int, k: nat)
    requires
        sources.len() >= 2,
        plan.len() == sources.len(),
        k <= sources.len() - 1,
        forall|i: int| 0 <= i < sources.len() - 1 ==> #[trigger] plan[i].amount == share(sources, w, d, limit, i),
    ensures
        amounts_sum(plan.take(k as int)) == shares_before(sources, w, d, limit, k),
    decreases k,
{
    if k > 0 {
        lemma_plan_prefix_sums(plan, sources, w, d, limit, (k - 1) as nat);
        assert(plan.take(k as int).drop_last() =~= plan.take(k - 1));
        assert(plan.take(k as int).last() == plan[k - 1]);
    } else {
        assert(plan.take(0) =~= Seq::<Allocation>::empty());
    }
}

/// Whether a deposit can be planned for this configuration without an
/// arithmetic overflow (see [`allocation_fits`]).
pub fn can_plan(config: &VaultConfig, deposit_amount: u128) -> (r: bool)
    ensures
        r == allocation_fits(*config, deposit_amount),
{
    let sources = &config.approved_sources;
    let ghost w = config.source_weights.weights();
    let n = sources.len();
    if n < 2 {
        return true;
    }
    if deposit_amount.checked_mul(config.concentration_limit as u128).is_none() {
        return false;
    }
    let mut total: u128 = 0;
    let mut i: usize = 0;
    while i < n
        invariant
            sources == &config.approved_sources,
            w == config.source_weights.weights(),
            n == sources@.len(),
            i <= n,
            total == weight_total(sources@, w, i as nat),
            total <= 255 * i,
        decreases n - i,
    {
        match config.source_weights.get(sources[i]) {
            Some(x) => {
                total = total + x as u128;
            },
            None => {},
        }
        i += 1;
    }
    if total > u16::MAX as u128 {
        return false;
    }
    if !weights_are_valid(config) {
        return true;
    }
    let mut j: usize = 0;
    while j < n - 1
        invariant
            sources == &config.approved_sources,
            w == config.source_weights.weights(),
            n == sources@.len(),
            n >= 2,
            j <= n - 1,
            weights_valid(sources@, w),
            deposit_amount * config.concentration_limit <= u128::MAX,
            weight_total(sources@, w, n as nat) <= u16::MAX,
            forall|k: int|
                0 <= k < j ==> deposit_amount * weight_of(w, #[trigger] sources@[k]) <= u128::MAX,
        decreases n - 1 - j,
    {
        let weight: u128 = match config.source_weights.get(sources[j]) {
            Some(x) => x as u128,
            None => 0,
        };
        if deposit_amount.checked_mul(weight).is_none() {
            assert(weight == weight_of(w, sources@[j as int]));
            assert(deposit_amount * weight_of(w, sources@[j as int]) > u128::MAX);
            return false;
        }
        j += 1;
    }
    true
}

/// Split a deposit across the approved sources: all of it to a single one;
/// otherwise by the target weights where they are valid, else equally, each
/// capped at the concentration limit, the last one taking what the others
/// left (capped as well).
pub fn recommend_allocation(config: &VaultConfig, deposit_amount: u128) -> (plan: AllocationPlan)
    requires
        allocation_fits(*config, deposit_amount),
    ensures
        plan.allocations@.len() == config.approved_sources@.len(),
        forall|i: int|
            #![trigger plan.allocations@[i]]
            0 <= i < plan.allocations@.len() ==> {
                &&& plan.allocations@[i].source == config.approved_sources@[i]
                &&& plan.allocations@[i].adapter_name@ == spec_adapter_name(config.approved_sources@[i])
                &&& plan.allocations@[i].amount == planned_amount(
                    config.approved_sources@,
                    config.source_weights.weights(),
                    deposit_amount as int,
                    config.concentration_limit as int,
                    i,
                )
            },
        amounts_sum(plan.allocations@) <= deposit_amount,
        config.approved_sources@.len() >= 2 ==> forall|i: int|
            0 <= i < plan.allocations@.len() ==> #[trigger] plan.allocations@[i].amount
                <= concentration_cap(deposit_amount as int, config.concentration_limit as int),
        config.approved_sources@.len() >= 1 && config.concentration_limit >= 100 ==> amounts_sum(
            plan.allocations@,
        ) == deposit_amount,
        config.approved_sources@.len() == 1 ==> plan.allocations@[0].amount == deposit_amount,
        config.approved_sources@.len() >= 2 ==> ({
            let sources = config.approved_sources@;
            let w = config.source_weights.weights();
            let n = sources.len() as int;
            let d = deposit_amount as int;
            let cap = d * config.concentration_limit / 100;
            let weighted = (forall|k: int| 0 <= k < n ==> w.contains_key(#[trigger] sources[k]))
                && weight_total(sources, w, n as nat) == 100;
            let rest = d - amounts_sum(plan.allocations@.take(n - 1));
            &&& forall|i: int|
                0 <= i < n - 1 ==> {
                    let part = if weighted {
                        d * (w[sources[i]] as int) / 100
                    } else {
                        d / n
                    };
                    (#[trigger] plan.allocations@[i]).amount == if part <= cap {
                        part
                    } else {
                        cap
                    }
                }
            &&& plan.allocations@[n - 1].amount == if rest <= cap {
                rest
            } else {
                cap
            }
        }),
{
    proof {
        if config.approved_sources@.len() >= 2 {
            lemma_planned_parts(
                config.approved_sources@,
                config.source_weights.weights(),
                deposit_amount as int,
                config.concentration_limit as int,
            );
        }
    }
    let sources = &config.approved_sources;
    let ghost src = sources@;
    let ghost w = config.source_weights.weights();
    let ghost d = deposit_amount as int;
    let ghost limit = config.concentration_limit as int;
    if sources.len() == 0 {
        return AllocationPlan { allocations: Vec::new() };
    }
    if sources.len() == 1 {
        let mut allocations: Vec<Allocation> = Vec::new();
        allocations.push(
            Allocation { source: sources[0], adapter_name: adapter_name_for(sources[0]), amount: deposit_amount },
        );
        proof {
            assert(allocations@.drop_last() =~= Seq::<Allocation>::empty());
            assert(amounts_sum(allocations@.drop_last()) == 0);
        }
        return AllocationPlan { allocations };
    }
    let max_per_source: u128 = deposit_amount * (config.concentration_limit as u128) / 100;
    let weighted = weights_are_valid(config);
    let n = sources.len();
    let last_idx = n - 1;
    let base: u128 = deposit_amount / (n as u128);
    let mut allocations: Vec<Allocation> = Vec::new();
    let mut allocated: u128 = 0;
    let mut i: usize = 0;
    while i < n
        invariant
            sources == &config.approved_sources,
            src == sources@,
            w == config.source_weights.weights(),
            d == deposit_amount as int,
            limit == config.concentration_limit as int,
            n == src.len(),
            n >= 2,
            last_idx == n - 1,
            i <= n,
            allocation_fits(*config, deposit_amount),
            max_per_source == concentration_cap(d, limit),
            weighted == weights_valid(src, w),
            base == d / n as int,
            allocations@.len() == i,
            i < n ==> allocated == shares_before(src, w, d, limit, i as nat),
            allocated == amounts_sum(allocations@),
            allocated <= d,
            i == n && limit >= 100 ==> allocated == d,
            forall|j: int|
                #![trigger allocations@[j]]
                0 <= j < i ==> {
                    &&& allocations@[j].source == src[j]
                    &&& allocations@[j].adapter_name@ == spec_adapter_name(src[j])
                    &&& allocations@[j].amount == planned_amount(src, w, d, limit, j)
                    &&& allocations@[j].amount <= max_per_source
                },
        decreases n - i,
    {
        let source = sources[i];
        proof {
            if i < last_idx {
                lemma_shares_within_deposit(src, w, d, limit, (i + 1) as nat);
            }
            lemma_shares_within_deposit(src, w, d, limit, i as nat);
        }
        let amount: u128 = if i == last_idx {
            deposit_amount - allocated
        } else if weighted {
            let weight: u128 = match config.source_weights.get(source) {
                Some(x) => x as u128,
                None => 0,
            };
            assert(d * weight_of(w, src[i as int]) <= u128::MAX);
            let raw: u128 = deposit_amount * weight / 100;
            if raw < max_per_source {
                raw
            } else {
                max_per_source
            }
        } else if base < max_per_source {
            base
        } else {
            max_per_source
        };
        let amount: u128 = if amount < max_per_source {
            amount
        } else {
            max_per_source
        };
        proof {
            if limit >= 100 {
                assert(max_per_source >= d) by (nonlinear_arith)
                    requires
                        max_per_source == d * limit / 100,
                        limit >= 100,
                        d >= 0,
                ;
            }
        }
        let ghost before = allocations@;
        allocations.push(Allocation { source, adapter_name: adapter_name_for(source), amount });
        proof {
            assert(allocations@.drop_last() =~= before);
        }
        allocated = allocated + amount;
        i += 1;
    }
    proof {
        lemma_plan_prefix_sums(allocations@, src, w, d, limit, (n - 1) as nat);
    }
    AllocationPlan { allocations }
}


// --- Rebalance drift detection ---

/// How far one source's actual share is from its target.
#[derive(Clone, Debug)]
pub struct DriftInfo {
    pub adapter_name: String,
    pub target_pct: u8,
    pub actual_pct: u8,
    pub drift_pct: i16,
}

/// Whether the portfolio has drifted from its target weights, and by how much.
#[derive(Clone, Debug)]
pub struct RebalanceRecommendation {
    pub needs_rebalance: bool,
    pub drifts: Vec<DriftInfo>,
    pub reasoning: String,
}

/// What the first `n` allocations of a kind of source hold together.
pub open spec fn source_total(a: Seq<Allocation>, source: RiskSpectrum, n: nat) -> int
    decreases n,
{
    if n == 0 {
        0
    } else {
        source_total(a, source, (n - 1) as nat) + (if a[n - 1].source == source {
            a[n - 1].amount as int
        } else {
            0
        })
    }
}

proof fn lemma_source_total_monotone(a: Seq<Allocation>, source: RiskSpectrum, k: nat, n: nat)
    requires
        k <= n,
    ensures
        0 <= source_total(a, source, k) <= source_total(a, source, n),
    decreases n,
{
    if n > k {
        lemma_source_total_monotone(a, source, k, (n - 1) as nat);
    } else if k > 0 {
        lemma_source_total_monotone(a, source, (k - 1) as nat, (k - 1) as nat);
    }
}

/// Every allocation belongs to exactly one kind of source: the holdings of the
/// five kinds add up to the sum of all the amounts.
pub proof fn lemma_source_totals_partition(a: Seq<Allocation>, n: nat)
    requires
        n <= a.len(),
    ensures
        source_total(a, RiskSpectrum::Sovereign, n) + source_total(a, RiskSpectrum::StablecoinSavings, n)
            + source_total(a, RiskSpectrum::LiquidStaking, n) + source_total(
            a,
            RiskSpectrum::DiversifiedLending,
            n,
        ) + source_total(a, RiskSpectrum::MultiStrategy, n) == amounts_sum(a.take(n as int)),
    decreases n,
{
    if n > 0 {
        lemma_source_totals_partition(a, (n - 1) as nat);
        assert(a.take(n as int).drop_last() =~= a.take(n - 1));
        assert(a.take(n as int).last() == a[n - 1]);
    } else {
        assert(a.take(0) =~= Seq::<Allocation>::empty());
    }
}

/// What the portfolio holds of a kind of source, where that sum fits in 128 bits.
pub fn source_amount(portfolio: &Portfolio, source: RiskSpectrum) -> (r: Option<u128>)
    ensures
        r == (if source_total(portfolio.allocations@, source, portfolio.allocations@.len())
            <= u128::MAX {
            Some(source_total(portfolio.allocations@, source, portfolio.allocations@.len()) as u128)
        } else {
            None
        }),
{
    let allocs = portfolio.allocations();
    let ghost a = allocs@;
    let mut sum: u128 = 0;
    let mut i: usize = 0;
    while i < allocs.len()
        invariant
            a == allocs@,
            a == portfolio.allocations@,
            i <= a.len(),
            sum == source_total(a, source, i as nat),
        decreases a.len() - i,
    {
        if allocs[i].source == source {
            if sum > u128::MAX - allocs[i].amount {
                proof {
                    lemma_source_total_monotone(a, source, (i + 1) as nat, a.len());
                }
                return None;
            }
            sum = sum + allocs[i].amount;
        }
        i += 1;
    }
    Some(sum)
}

/// The target weight of a kind of source, 0 where it has none.
pub open spec fn target_of(w: Map<RiskSpectrum, u8>, s: RiskSpectrum) -> u8 {
    if w.contains_key(s) {
        w[s]
    } else {
        0
    }
}

/// The drift of a share from its target, in percentage points.
pub open spec fn drift_of(actual: u8, target: u8) -> int {
    actual - target
}

/// A drift beyond the threshold, in either direction.
pub open spec fn drift_exceeds(drift: int, threshold: u8) -> bool {
    drift > threshold || -drift > threshold
}

/// Where there are deposits and target weights, one drift entry per approved
/// source: its adapter, its target, its actual share and their difference.
pub open spec fn drift_matches(
    d: DriftInfo,
    w: Map<RiskSpectrum, u8>,
    source: RiskSpectrum,
    actual: u8,
) -> bool {
    &&& d.adapter_name@ == spec_adapter_name(source)
    &&& d.target_pct == target_of(w, source)
    &&& d.actual_pct == actual
    &&& d.drift_pct == drift_of(actual, target_of(w, source))
}

/// Some approved source's share drifts beyond the threshold.
pub open spec fn some_drift_exceeds(
    sources: Seq<RiskSpectrum>,
    w: Map<RiskSpectrum, u8>,
    pcts: Seq<u8>,
    threshold: u8,
) -> bool {
    exists|i: int|
        0 <= i < sources.len() && drift_exceeds(
            drift_of(#[trigger] pcts[i], target_of(w, sources[i])),
            threshold,
        )
}

/// The explanation given where there is nothing to compare.
pub open spec fn nothing_to_compare_text() -> Seq<char> {
    "No deposits or no target weights configured"@
}

/// The explanation given after comparing shares with targets.
pub open spec fn drift_text(needs_rebalance: bool, threshold: u8) -> Seq<char> {
    if needs_rebalance {
        "Portfolio drift exceeds "@ + decimal(threshold as nat) + "% threshold, rebalance recommended"@
    } else {
        "All allocations within "@ + decimal(threshold as nat) + "% drift threshold"@
    }
}

/// A source's share drifts beyond the threshold when it is over its target by
/// more than the threshold or under it by more than the threshold (a source
/// without a weight targets 0%).
pub proof fn lemma_drift_flags_both_directions(
    sources: Seq<RiskSpectrum>,
    w: Map<RiskSpectrum, u8>,
    pcts: Seq<u8>,
    threshold: u8,
)
    requires
        pcts.len() == sources.len(),
    ensures
        some_drift_exceeds(sources, w, pcts, threshold) <==> exists|i: int|
            0 <= i < sources.len() && ({
                let target: int = if w.contains_key(sources[i]) {
                    w[sources[i]] as int
                } else {
                    0
                };
                #[trigger] pcts[i] - target > threshold || target - pcts[i] > threshold
            }),
{
}

/// Compare each approved source's actual share of the portfolio with its
/// target weight. `actual_pcts[i]` is the share, in whole percent, that
/// approved source `i` holds of the total deposited.
pub fn check_rebalance(
    config: &VaultConfig,
    portfolio: &Portfolio,
    drift_threshold_pct: u8,
    actual_pcts: &[u8],
) -> (rec: RebalanceRecommendation)
    requires
        actual_pcts@.len() == config.approved_sources@.len(),
    ensures
        ({
            let sources = config.approved_sources@;
            let w = config.source_weights.weights();
            if portfolio.total_deposited == 0 || w.dom() == Set::<RiskSpectrum>::empty() {
                &&& !rec.needs_rebalance
                &&& rec.drifts@.len() == 0
                &&& rec.reasoning@ == "No deposits or no target weights configured"@
                &&& rec.reasoning@ == nothing_to_compare_text()
            } else {
                &&& rec.drifts@.len() == sources.len()
                &&& forall|i: int|
                    0 <= i < sources.len() ==> drift_matches(
                        #[trigger] rec.drifts@[i],
                        w,
                        sources[i],
                        actual_pcts@[i],
                    )
                &&& rec.needs_rebalance == some_drift_exceeds(
                    sources,
                    w,
                    actual_pcts@,
                    drift_threshold_pct,
                )
                &&& rec.reasoning@ == drift_text(rec.needs_rebalance, drift_threshold_pct)
                &&& rec.reasoning@ == if rec.needs_rebalance {
                    "Portfolio drift exceeds "@ + decimal(drift_threshold_pct as nat)
                        + "% threshold, rebalance recommended"@
                } else {
                    "All allocations within "@ + decimal(drift_threshold_pct as nat) + "% drift threshold"@
                }
            }
        }),
        portfolio.total_deposited > 0 && config.source_weights.weights().dom() != Set::<
            RiskSpectrum,
        >::empty() ==> {
            &&& forall|i: int|
                0 <= i < config.approved_sources@.len() ==> {
                    &&& (#[trigger] rec.drifts@[i]).target_pct == (if config.source_weights.weights().contains_key(
                        config.approved_sources@[i],
                    ) {
                        config.source_weights.weights()[config.approved_sources@[i]]
                    } else {
                        0u8
                    })
                    &&& rec.drifts@[i].actual_pct == actual_pcts@[i]
                    &&& rec.drifts@[i].drift_pct == actual_pcts@[i] as int - rec.drifts@[i].target_pct as int
                }
            &&& rec.needs_rebalance <==> exists|i: int|
                0 <= i < config.approved_sources@.len() && ((#[trigger] rec.drifts@[i]).drift_pct
                    > drift_threshold_pct || rec.drifts@[i].drift_pct < -(drift_threshold_pct as int))
        },
{
    let ghost w = config.source_weights.weights();
    if portfolio.total_deposited == 0 || config.source_weights.is_empty() {
        return RebalanceRecommendation {
            needs_rebalance: false,
            drifts: Vec::new(),
            reasoning: String::from_str("No deposits or no target weights configured"),
        };
    }
    let sources = &config.approved_sources;
    let mut drifts: Vec<DriftInfo> = Vec::new();
    let mut needs_rebalance = false;
    let mut i: usize = 0;
    while i < sources.len()
        invariant
            sources == &config.approved_sources,
            w == config.source_weights.weights(),
            actual_pcts@.len() == sources@.len(),
            i <= sources@.len(),
            drifts@.len() == i,
            forall|j: int|
                0 <= j < i ==> drift_matches(
                    #[trigger] drifts@[j],
                    w,
                    sources@[j],
                    actual_pcts@[j],
                ),
            needs_rebalance == exists|j: int|
                0 <= j < i && drift_exceeds(
                    drift_of(#[trigger] actual_pcts@[j], target_of(w, sources@[j])),
                    drift_threshold_pct,
                ),
        decreases sources@.len() - i,
    {
        let source = sources[i];
        let target_pct: u8 = match config.source_weights.get(source) {
            Some(x) => x,
            None => 0,
        };
        let actual_pct = actual_pcts[i];
        let drift: i16 = actual_pct as i16 - target_pct as i16;
        let magnitude: u16 = if drift < 0 {
            (-drift) as u16
        } else {
            drift as u16
        };
        if magnitude > drift_threshold_pct as u16 {
            needs_rebalance = true;
        }
        drifts.push(
            DriftInfo {
                adapter_name: adapter_name_for(source),
                target_pct,
                actual_pct,
                drift_pct: drift,
            },
        );
        i += 1;
    }
    proof {
        let src = sources@;
        let n = src.len() as int;
        let t = drift_threshold_pct;
        if needs_rebalance {
            let j = choose|j: int|
                0 <= j < n && drift_exceeds(
                    drift_of(#[trigger] actual_pcts@[j], target_of(w, src[j])),
                    t,
                );
            assert(drift_matches(drifts@[j], w, src[j], actual_pcts@[j]));
        } else {
            assert forall|i: int| 0 <= i < n implies !((#[trigger] drifts@[i]).drift_pct > t
                || drifts@[i].drift_pct < -(t as int)) by {
                assert(drift_matches(drifts@[i], w, src[i], actual_pcts@[i]));
                assert(!drift_exceeds(drift_of(actual_pcts@[i], target_of(w, src[i])), t));
            }
        }
    }
    let mut reasoning = String::new();
    if needs_rebalance {
        reasoning.append("Portfolio drift exceeds ");
        crate::text::push_decimal(&mut reasoning, drift_threshold_pct);
        reasoning.append("% threshold, rebalance recommended");
    } else {
        reasoning.append("All allocations within ");
        crate::text::push_decimal(&mut reasoning, drift_threshold_pct);
        reasoning.append("% drift threshold");
    }
    RebalanceRecommendation { needs_rebalance, drifts, reasoning }
}


} // verus!
