//! The search engine's shared state: attempt accounting and the atomic
//! check-and-insert that admits matches up to a quota. The same state serves
//! both modes: a race to the first match is a quota of one.
use vstd::prelude::*;
use crate::pattern::{MatchSpec, evaluate};

verus! {

/// A confirmed match: the public identifier and the keypair it came from.
pub struct Hit<K> {
    pub public_id: String,
    pub keypair: K,
}

/// The identifiers of a sequence of hits.
pub open spec fn ids_of<K>(hits: Seq<Hit<K>>) -> Seq<Seq<char>> {
    hits.map_values(|h: Hit<K>| h.public_id@)
}

/// What became of one candidate handed to `SearchState::absorb`.
#[derive(Clone, Copy, Debug, PartialEq, Eq, Structural)]
pub enum Absorbed {
    /// It matched and was admitted.
    Registered,
    /// It does not satisfy the pattern.
    NotMatched,
    /// The quota was already full; the candidate is discarded.
    QuotaReached,
    /// An equal public identifier was admitted before.
    Duplicate,
}

/// The state one search run shares between its workers.
pub struct SearchState<K> {
    spec: MatchSpec,
    target: usize,
    attempts: u64,
    hits: Vec<Hit<K>>,
}

/// The outcome of a run, handed to the caller once at the end.
pub struct SearchReport<K> {
    pub attempts: u64,
    pub matches: Vec<Hit<K>>,
    pub elapsed_nanos: u64,
}

impl<K> SearchState<K> {
    pub closed spec fn pattern(&self) -> MatchSpec {
        self.spec
    }

    pub closed spec fn target_spec(&self) -> nat {
        self.target as nat
    }

    pub closed spec fn attempts_spec(&self) -> nat {
        self.attempts as nat
    }

    /// The identifiers admitted so far, in order of admission.
    pub closed spec fn ids(&self) -> Seq<Seq<char>> {
        ids_of(self.hits@)
    }

    /// The keypairs admitted so far, in the order of `ids`.
    pub closed spec fn keys(&self) -> Seq<K> {
        self.hits@.map_values(|h: Hit<K>| h.keypair)
    }

    pub open spec fn complete(&self) -> bool {
        self.ids().len() == self.target_spec()
    }

    /// The state's invariant: a positive quota never exceeded, every admitted
    /// identifier a full match and distinct from the others, and at least one
    /// attempt for each of them.
    pub closed spec fn wf(&self) -> bool {
        &&& self.target >= 1
        &&& self.hits@.len() <= self.target
        &&& self.hits@.len() <= self.attempts
        &&& forall|i: int| 0 <= i < self.hits@.len() ==> self.spec.accepts(#[trigger] self.hits@[i].public_id@)
        &&& forall|i: int, j: int| 0 <= i < j < self.hits@.len() ==>
            #[trigger] self.hits@[i].public_id@ != #[trigger] self.hits@[j].public_id@
    }

    /// `id` would be admitted now.
    pub open spec fn admits(&self, id: Seq<char>) -> bool {
        !self.complete() && self.pattern().accepts(id) && !self.ids().contains(id)
    }

    /// How `absorb` takes the state `a` to `b` on a candidate `id` and answers `r`.
    pub open spec fn absorb_step(a: Self, b: Self, id: Seq<char>, r: Absorbed) -> bool {
        &&& b.pattern() == a.pattern()
        &&& b.target_spec() == a.target_spec()
        &&& b.attempts_spec() == a.attempts_spec() + 1
        &&& b.ids() == (if a.admits(id) { a.ids().push(id) } else { a.ids() })
        &&& r == (if a.complete() {
            Absorbed::QuotaReached
        } else if !a.pattern().accepts(id) {
            Absorbed::NotMatched
        } else if a.ids().contains(id) {
            Absorbed::Duplicate
        } else {
            Absorbed::Registered
        })
    }

    /// A fresh state for a run that needs `target` matches of `spec`.
    pub fn new(spec: MatchSpec, target: usize) -> (s: Self)
        requires
            target >= 1,
        ensures
            s.wf(),
            s.pattern() == spec,
            s.target_spec() == target,
            s.attempts_spec() == 0,
            s.ids() == Seq::<Seq<char>>::empty(),
            s.keys() == Seq::<K>::empty(),
    {
        let s = SearchState { spec, target, attempts: 0, hits: Vec::new() };
        assert(s.ids() =~= Seq::<Seq<char>>::empty());
        assert(s.keys() =~= Seq::<K>::empty());
        s
    }

    /// Whether the quota is full; once it is, workers stop drawing candidates.
    pub fn is_complete(&self) -> (r: bool)
        requires
            self.wf(),
        ensures
            r == self.complete(),
    {
        self.hits.len() == self.target
    }

    pub fn attempts(&self) -> (r: u64)
        ensures
            r as nat == self.attempts_spec(),
    {
        self.attempts
    }

    pub fn target(&self) -> (r: usize)
        ensures
            r as nat == self.target_spec(),
    {
        self.target
    }

    pub fn match_count(&self) -> (r: usize)
        ensures
            r as nat == self.ids().len(),
    {
        self.hits.len()
    }

    /// Whether an identifier equal to `id` was admitted already.
    fn holds_id(&self, id: &String) -> (r: bool)
        ensures
            r == self.ids().contains(id@),
    {
        let mut i: usize = 0;
        while i < self.hits.len()
            invariant
                i <= self.hits@.len(),
                forall|k: int| 0 <= k < i ==> self.hits@[k].public_id@ != id@,
            decreases self.hits@.len() - i,
        {
            if self.hits[i].public_id == *id {
                assert(self.ids()[i as int] == id@);
                return true;
            }
            i += 1;
        }
        proof {
            if self.ids().contains(id@) {
                let k = choose|k: int| 0 <= k < self.ids().len() && self.ids()[k] == id@;
                assert(self.hits@[k].public_id@ == id@);
            }
        }
        false
    }

    /// Counts one generated candidate and, in one step, admits it if the quota
    /// is not yet full, it matches the pattern, and its identifier is new.
    pub fn absorb(&mut self, public_id: String, keypair: K) -> (r: Absorbed)
        requires
            old(self).wf(),
            old(self).attempts_spec() < u64::MAX,
        ensures
            final(self).wf(),
            Self::absorb_step(*old(self), *final(self), public_id@, r),
            final(self).keys() == (if old(self).admits(public_id@) {
                old(self).keys().push(keypair)
            } else {
                old(self).keys()
            }),
    {
        let ghost a = *self;
        self.attempts = self.attempts + 1;
        if self.hits.len() == self.target {
            return Absorbed::QuotaReached;
        }
        let outcome = evaluate(&self.spec, public_id.as_str());
        if !outcome.matched {
            return Absorbed::NotMatched;
        }
        if self.holds_id(&public_id) {
            return Absorbed::Duplicate;
        }
        self.hits.push(Hit { public_id, keypair });
        proof {
            assert(self.ids() =~= a.ids().push(public_id@));
            assert(self.keys() =~= a.keys().push(keypair));
            assert forall|i: int, j: int| 0 <= i < j < self.hits@.len() implies
                #[trigger] self.hits@[i].public_id@ != #[trigger] self.hits@[j].public_id@ by {
                if j == self.hits@.len() - 1 {
                    assert(a.ids()[i] == self.hits@[i].public_id@);
                }
            }
        }
        Absorbed::Registered
    }

    /// Hands the final attempt count and matches to the caller.
    pub fn into_report(self, elapsed_nanos: u64) -> (r: SearchReport<K>)
        requires
            self.wf(),
        ensures
            r.attempts as nat == self.attempts_spec(),
            ids_of(r.matches@) == self.ids(),
            r.matches@.map_values(|h: Hit<K>| h.keypair) == self.keys(),
            r.elapsed_nanos == elapsed_nanos,
    {
        SearchReport { attempts: self.attempts, matches: self.hits, elapsed_nanos }
    }

    /// Every reachable state respects the quota, holds no two equal
    /// identifiers, holds only full matches, and has counted at least one
    /// attempt per match.
    pub proof fn lemma_state_bounds(&self)
        requires
            self.wf(),
        ensures
            self.ids().len() <= self.target_spec(),
            self.ids().len() <= self.attempts_spec(),
            self.target_spec() >= 1,
            self.ids().no_duplicates(),
            forall|i: int| 0 <= i < self.ids().len() ==> self.pattern().accepts(#[trigger] self.ids()[i]),
    {
        assert forall|i: int, j: int| 0 <= i < self.ids().len() && 0 <= j < self.ids().len() && i != j
            implies self.ids()[i] != self.ids()[j] by {
            if i < j {
                assert(self.hits@[i].public_id@ != self.hits@[j].public_id@);
            } else {
                assert(self.hits@[j].public_id@ != self.hits@[i].public_id@);
            }
        }
        assert forall|i: int| 0 <= i < self.ids().len() implies self.pattern().accepts(#[trigger] self.ids()[i]) by {
            assert(self.spec.accepts(self.hits@[i].public_id@));
        }
    }
}

/// Quota exactness: absorbing one candidate, from any valid state and in any
/// interleaving of workers, never takes the matches past the target and never
/// admits an identifier twice.
pub proof fn lemma_quota_never_exceeded<K>(
    a: SearchState<K>,
    b: SearchState<K>,
    id: Seq<char>,
    r: Absorbed,
)
    requires
        a.wf(),
        SearchState::absorb_step(a, b, id, r),
    ensures
        b.ids().len() <= b.target_spec(),
        b.ids().no_duplicates(),
        r == Absorbed::Registered <==> b.ids().len() == a.ids().len() + 1,
        r != Absorbed::Registered ==> b.ids() == a.ids(),
{
    a.lemma_state_bounds();
    if a.admits(id) {
        assert forall|i: int, j: int| 0 <= i < b.ids().len() && 0 <= j < b.ids().len() && i != j
            implies b.ids()[i] != b.ids()[j] by {
            if j == a.ids().len() {
                assert(a.ids()[i] == b.ids()[i]);
            } else if i == a.ids().len() {
                assert(a.ids()[j] == b.ids()[j]);
            }
        }
    }
}

/// Once the quota is full the state no longer changes its matches: every
/// further candidate is counted and discarded.
pub proof fn lemma_complete_is_final<K>(
    a: SearchState<K>,
    b: SearchState<K>,
    id: Seq<char>,
    r: Absorbed,
)
    requires
        a.complete(),
        SearchState::absorb_step(a, b, id, r),
    ensures
        r == Absorbed::QuotaReached,
        b.ids() == a.ids(),
        b.complete(),
{
}

/// With a quota of one, the first registered candidate is the only winner:
/// it completes the state, and the next candidate, whatever it is, is
/// discarded.
pub proof fn lemma_single_winner<K>(
    a: SearchState<K>,
    b: SearchState<K>,
    c: SearchState<K>,
    first: Seq<char>,
    second: Seq<char>,
    r1: Absorbed,
    r2: Absorbed,
)
    requires
        a.wf(),
        a.target_spec() == 1,
        SearchState::absorb_step(a, b, first, r1),
        SearchState::absorb_step(b, c, second, r2),
        r1 == Absorbed::Registered,
    ensures
        a.ids().len() == 0,
        b.complete(),
        b.ids() == seq![first],
        r2 == Absorbed::QuotaReached,
        c.ids() == b.ids(),
{
    a.lemma_state_bounds();
    assert(b.ids() =~= seq![first]);
}

/// Every absorbed candidate adds exactly one attempt, matched or not, and
/// attempts never fall below the number of matches.
pub proof fn lemma_attempts_increase<K>(
    a: SearchState<K>,
    b: SearchState<K>,
    id: Seq<char>,
    r: Absorbed,
)
    requires
        a.wf(),
        SearchState::absorb_step(a, b, id, r),
    ensures
        b.attempts_spec() == a.attempts_spec() + 1,
        b.attempts_spec() >= b.ids().len(),
{
    a.lemma_state_bounds();
}

/// The parameters of one run.
pub struct SearchConfig {
    pub spec: MatchSpec,
    pub target_count: usize,
    pub worker_count: usize,
    pub batch_size: usize,
}

/// A configuration the engine refuses before any work starts.
#[derive(Clone, Copy, Debug, PartialEq, Eq, Structural)]
pub enum ConfigError {
    ZeroTargetCount,
    ZeroWorkerCount,
    ZeroBatchSize,
    /// No pattern and more than one target: ill-defined, so refused.
    PatternlessMultiple,
}

/// How a valid configuration is run.
#[derive(Clone, Copy, Debug, PartialEq, Eq, Structural)]
pub enum SearchMode {
    /// No pattern and one target: one fresh keypair, no search.
    Unfiltered,
    /// One target: the first match wins and stops every worker.
    FirstMatch,
    /// Several targets: matches accumulate up to the quota.
    Quota,
}

/// The mode `config` runs in, or the reason it is refused.
pub open spec fn plan_spec(config: SearchConfig) -> Result<SearchMode, ConfigError> {
    if config.target_count == 0 {
        Err(ConfigError::ZeroTargetCount)
    } else if config.worker_count == 0 {
        Err(ConfigError::ZeroWorkerCount)
    } else if config.batch_size == 0 {
        Err(ConfigError::ZeroBatchSize)
    } else if config.spec.is_patternless() && config.target_count > 1 {
        Err(ConfigError::PatternlessMultiple)
    } else if config.spec.is_patternless() {
        Ok(SearchMode::Unfiltered)
    } else if config.target_count == 1 {
        Ok(SearchMode::FirstMatch)
    } else {
        Ok(SearchMode::Quota)
    }
}

/// Checks `config` and picks its mode.
pub fn plan(config: &SearchConfig) -> (r: Result<SearchMode, ConfigError>)
    ensures
        r == plan_spec(*config),
{
    if config.target_count == 0 {
        Err(ConfigError::ZeroTargetCount)
    } else if config.worker_count == 0 {
        Err(ConfigError::ZeroWorkerCount)
    } else if config.batch_size == 0 {
        Err(ConfigError::ZeroBatchSize)
    } else if !config.spec.has_pattern() && config.target_count > 1 {
        Err(ConfigError::PatternlessMultiple)
    } else if !config.spec.has_pattern() {
        Ok(SearchMode::Unfiltered)
    } else if config.target_count == 1 {
        Ok(SearchMode::FirstMatch)
    } else {
        Ok(SearchMode::Quota)
    }
}

/// The report of a patternless single-target run: the one fresh keypair is
/// the sole match and counts as one attempt.
pub fn unfiltered_report<K>(public_id: String, keypair: K, elapsed_nanos: u64) -> (r: SearchReport<K>)
    ensures
        r.attempts == 1,
        ids_of(r.matches@) == seq![public_id@],
        r.elapsed_nanos == elapsed_nanos,
{
    let mut matches: Vec<Hit<K>> = Vec::new();
    matches.push(Hit { public_id, keypair });
    let r = SearchReport { attempts: 1, matches, elapsed_nanos };
    assert(ids_of(r.matches@) =~= seq![public_id@]);
    r
}

/// The identifiers admitted after absorbing the candidates `cs` in turn,
/// starting from the admitted identifiers `ids`.
pub open spec fn absorb_all(spec: MatchSpec, target: nat, ids: Seq<Seq<char>>, cs: Seq<Seq<char>>) -> Seq<Seq<char>>
    decreases cs.len(),
{
    if cs.len() == 0 {
        ids
    } else {
        let prev = absorb_all(spec, target, ids, cs.drop_last());
        let id = cs.last();
        if prev.len() < target && spec.accepts(id) && !prev.contains(id) {
            prev.push(id)
        } else {
            prev
        }
    }
}

/// The attempts and the admitted identifiers after a single worker has drawn
/// the candidates of `source` in order, stopping as soon as the quota is full.
pub open spec fn replay_model(spec: MatchSpec, target: nat, source: Seq<Seq<char>>) -> (nat, Seq<Seq<char>>)
    decreases source.len(),
{
    if source.len() == 0 {
        (0, Seq::empty())
    } else {
        let prev = replay_model(spec, target, source.drop_last());
        let id = source.last();
        if prev.1.len() == target {
            prev
        } else if spec.accepts(id) && !prev.1.contains(id) {
            (prev.0 + 1, prev.1.push(id))
        } else {
            (prev.0 + 1, prev.1)
        }
    }
}

proof fn lemma_replay_stays_complete(spec: MatchSpec, target: nat, source: Seq<Seq<char>>, i: int)
    requires
        0 <= i <= source.len(),
        replay_model(spec, target, source.subrange(0, i)).1.len() == target,
    ensures
        replay_model(spec, target, source) == replay_model(spec, target, source.subrange(0, i)),
    decreases source.len() - i,
{
    if i < source.len() {
        let next = source.subrange(0, i + 1);
        assert(next.drop_last() =~= source.subrange(0, i));
        assert(source.subrange(0, i + 1).subrange(0, i + 1) =~= next);
        lemma_replay_stays_complete(spec, target, source, i + 1);
    } else {
        assert(source.subrange(0, i) =~= source);
    }
}

/// The identifiers of a source of candidates.
pub open spec fn source_ids(source: Seq<String>) -> Seq<Seq<char>> {
    source.map_values(|s: String| s@)
}

/// Runs the search over a fixed sequence of public identifiers instead of
/// fresh keypairs; each match carries its index in `source`.
pub fn replay(spec: MatchSpec, target: usize, source: &Vec<String>) -> (r: SearchReport<usize>)
    requires
        target >= 1,
        source@.len() < u64::MAX,
    ensures
        r.attempts as nat == replay_model(spec, target as nat, source_ids(source@)).0,
        ids_of(r.matches@) == replay_model(spec, target as nat, source_ids(source@)).1,
        forall|k: int| 0 <= k < r.matches@.len() ==>
            (#[trigger] r.matches@[k]).keypair < source@.len()
            && source@[r.matches@[k].keypair as int]@ == r.matches@[k].public_id@,
        forall|k: int, j: int| #![trigger r.matches@[k], source@[j]] 0 <= k < r.matches@.len() && 0 <= j < r.matches@[k].keypair ==>
            source@[j]@ != r.matches@[k].public_id@,
        r.elapsed_nanos == 0,
{
    let ghost src = source_ids(source@);
    let mut state: SearchState<usize> = SearchState::new(spec, target);
    let mut i: usize = 0;
    assert(src.subrange(0, 0) =~= Seq::<Seq<char>>::empty());
    while i < source.len() && !state.is_complete()
        invariant
            state.wf(),
            state.pattern() == spec,
            state.target_spec() == target,
            i <= source@.len(),
            source@.len() < u64::MAX,
            src == source_ids(source@),
            state.attempts_spec() == replay_model(spec, target as nat, src.subrange(0, i as int)).0,
            state.ids() == replay_model(spec, target as nat, src.subrange(0, i as int)).1,
            state.attempts_spec() <= i,
            state.keys().len() == state.ids().len(),
            forall|k: int| 0 <= k < state.keys().len() ==>
                #[trigger] state.keys()[k] < i
                && source@[state.keys()[k] as int]@ == state.ids()[k],
            forall|k: int, j: int| #![trigger state.keys()[k], source@[j]] 0 <= k < state.keys().len() && 0 <= j < state.keys()[k] ==>
                source@[j]@ != state.ids()[k],
            forall|j: int| 0 <= j < i && spec.accepts(#[trigger] src[j]) ==> state.ids().contains(src[j]),
        decreases source@.len() - i,
    {
        let id = source[i].clone();
        proof {
            assert(src.subrange(0, i + 1).drop_last() =~= src.subrange(0, i as int));
            assert(src.subrange(0, i + 1).last() == src[i as int]);
            assert(id@ == src[i as int]);
        }
        let ghost before = state;
        let _ = state.absorb(id, i);
        proof {
            assert forall|j: int| 0 <= j < i + 1 && spec.accepts(#[trigger] src[j]) implies state.ids().contains(src[j]) by {
                if j < i {
                    assert(before.ids().contains(src[j]));
                    let m = choose|m: int| 0 <= m < before.ids().len() && before.ids()[m] == src[j];
                    assert(state.ids()[m] == src[j]);
                } else {
                    if !before.ids().contains(src[j]) {
                        assert(state.ids()[before.ids().len() as int] == src[j]);
                    }
                }
            }
            assert forall|k: int, j: int| #![trigger state.keys()[k], source@[j]] 0 <= k < state.keys().len() && 0 <= j < state.keys()[k] implies
                source@[j]@ != state.ids()[k] by {
                if k == before.keys().len() {
                    if source@[j]@ == state.ids()[k] {
                        assert(src[j] == source@[j]@);
                        assert(before.ids().contains(src[j]));
                    }
                } else {
                    assert(state.keys()[k] == before.keys()[k]);
                    assert(state.ids()[k] == before.ids()[k]);
                }
            }
        }
        i += 1;
    }
    proof {
        if i < source@.len() {
            lemma_replay_stays_complete(spec, target as nat, src, i as int);
        } else {
            assert(src.subrange(0, i as int) =~= src);
        }
    }
    let r = state.into_report(0);
    proof {
        assert forall|k: int| 0 <= k < r.matches@.len() implies
            (#[trigger] r.matches@[k]).keypair < source@.len()
            && source@[r.matches@[k].keypair as int]@ == r.matches@[k].public_id@ by {
            assert(r.matches@.map_values(|h: Hit<usize>| h.keypair)[k] == state.keys()[k]);
            assert(ids_of(r.matches@)[k] == state.ids()[k]);
        }
        assert forall|k: int, j: int| #![trigger r.matches@[k], source@[j]] 0 <= k < r.matches@.len() && 0 <= j < r.matches@[k].keypair implies
            source@[j]@ != r.matches@[k].public_id@ by {
            assert(r.matches@.map_values(|h: Hit<usize>| h.keypair)[k] == state.keys()[k]);
            assert(ids_of(r.matches@)[k] == state.ids()[k]);
        }
    }
    r
}

/// A run over a fixed source of identifiers counts at least one attempt per
/// match and at most one per identifier of the source; its matches respect
/// the quota and are distinct full matches; and fewer matches than the quota
/// means every candidate of the source was drawn.
pub proof fn lemma_replay_bounds(spec: MatchSpec, target: nat, first: Seq<Seq<char>>)
    ensures
        replay_model(spec, target, first).1.len() <= replay_model(spec, target, first).0,
        replay_model(spec, target, first).0 <= first.len(),
        replay_model(spec, target, first).1.len() <= target,
        replay_model(spec, target, first).1.no_duplicates(),
        replay_model(spec, target, first).1.len() < target ==> replay_model(spec, target, first).0 == first.len(),
        forall|k: int| 0 <= k < replay_model(spec, target, first).1.len()
            ==> spec.accepts(#[trigger] replay_model(spec, target, first).1[k]),
    decreases first.len(),
{
    if first.len() > 0 {
        let rest = first.drop_last();
        lemma_replay_bounds(spec, target, rest);
        let prev = replay_model(spec, target, rest);
        let id = first.last();
        if prev.1.len() != target && spec.accepts(id) && !prev.1.contains(id) {
            let cur = prev.1.push(id);
            assert forall|i: int, j: int| 0 <= i < cur.len() && 0 <= j < cur.len() && i != j
                implies cur[i] != cur[j] by {
                if j == prev.1.len() {
                    assert(prev.1[i] == cur[i]);
                } else if i == prev.1.len() {
                    assert(prev.1[j] == cur[j]);
                }
            }
            assert forall|k: int| 0 <= k < cur.len() implies spec.accepts(#[trigger] cur[k]) by {
                if k < prev.1.len() {
                    assert(cur[k] == prev.1[k]);
                }
            }
        }
    }
}

/// A source none of whose identifiers matches is drawn whole and admits
/// nothing.
pub proof fn lemma_replay_no_match(spec: MatchSpec, target: nat, source: Seq<Seq<char>>)
    requires
        target >= 1,
        forall|j: int| 0 <= j < source.len() ==> !spec.accepts(#[trigger] source[j]),
    ensures
        replay_model(spec, target, source) == (source.len(), Seq::<Seq<char>>::empty()),
    decreases source.len(),
{
    if source.len() > 0 {
        let rest = source.drop_last();
        assert forall|j: int| 0 <= j < rest.len() implies !spec.accepts(#[trigger] rest[j]) by {
            assert(rest[j] == source[j]);
        }
        lemma_replay_no_match(spec, target, rest);
    }
}

/// With a quota of one, the run over a fixed source selects the first
/// identifier that matches, at position `k`, after exactly `k + 1` attempts.
pub proof fn lemma_replay_first_match(spec: MatchSpec, source: Seq<Seq<char>>, k: int)
    requires
        0 <= k < source.len(),
        spec.accepts(source[k]),
        forall|j: int| 0 <= j < k ==> !spec.accepts(#[trigger] source[j]),
    ensures
        replay_model(spec, 1, source) == ((k + 1) as nat, seq![source[k]]),
    decreases source.len(),
{
    let rest = source.drop_last();
    if source.len() == k + 1 {
        assert forall|j: int| 0 <= j < rest.len() implies !spec.accepts(#[trigger] rest[j]) by {
            assert(rest[j] == source[j]);
        }
        lemma_replay_no_match(spec, 1, rest);
        assert(Seq::<Seq<char>>::empty().push(source[k]) =~= seq![source[k]]);
    } else {
        assert(rest[k] == source[k]);
        assert forall|j: int| 0 <= j < k implies !spec.accepts(#[trigger] rest[j]) by {
            assert(rest[j] == source[j]);
        }
        lemma_replay_first_match(spec, rest, k);
    }
}

/// Drawing one more identifier that does not match, before the quota is
/// full, costs exactly one more attempt and changes no match.
pub proof fn lemma_replay_extra_miss(
    spec: MatchSpec,
    target: nat,
    before: Seq<Seq<char>>,
    miss: Seq<char>,
    after: Seq<Seq<char>>,
)
    requires
        !spec.accepts(miss),
        replay_model(spec, target, before).1.len() < target,
    ensures
        replay_model(spec, target, before.push(miss) + after).0 == replay_model(spec, target, before + after).0 + 1,
        replay_model(spec, target, before.push(miss) + after).1 == replay_model(spec, target, before + after).1,
    decreases after.len(),
{
    if after.len() == 0 {
        assert(before.push(miss) + after =~= before.push(miss));
        assert(before + after =~= before);
        assert(before.push(miss).drop_last() =~= before);
    } else {
        let shorter = after.drop_last();
        lemma_replay_extra_miss(spec, target, before, miss, shorter);
        assert((before.push(miss) + after).drop_last() =~= before.push(miss) + shorter);
        assert((before + after).drop_last() =~= before + shorter);
        assert((before.push(miss) + after).last() == after.last());
        assert((before + after).last() == after.last());
    }
}

} // verus!
