//! The match predicate: a conjunction of optional prefix, suffix and substring
//! conditions on a public identifier.
use vstd::prelude::*;

verus! {

/// `p` is an initial segment of `s`.
pub open spec fn seq_starts_with(s: Seq<char>, p: Seq<char>) -> bool {
    p.len() <= s.len() && s.subrange(0, p.len() as int) == p
}

/// `p` is a final segment of `s`.
pub open spec fn seq_ends_with(s: Seq<char>, p: Seq<char>) -> bool {
    p.len() <= s.len() && s.subrange(s.len() - p.len(), s.len() as int) == p
}

/// `p` stands in `s` starting at position `i`.
pub open spec fn occurs_at(s: Seq<char>, p: Seq<char>, i: int) -> bool {
    0 <= i && i + p.len() <= s.len() && s.subrange(i, i + p.len()) == p
}

/// `p` stands somewhere in `s`.
pub open spec fn seq_contains(s: Seq<char>, p: Seq<char>) -> bool {
    exists|i: int| occurs_at(s, p, i)
}

/// The pattern a public identifier must satisfy. Every present field is a
/// condition; absent fields impose nothing.
pub struct MatchSpec {
    pub prefix: Option<String>,
    pub suffix: Option<String>,
    pub contains: Option<String>,
}

/// What `evaluate` reports: how many conditions were configured, how many of
/// them hold, and whether the identifier is a full match.
#[derive(Clone, Copy, Debug, PartialEq, Eq, Structural)]
pub struct MatchOutcome {
    pub matched: bool,
    pub expected_criteria: u8,
    pub satisfied_criteria: u8,
}

impl MatchSpec {
    pub open spec fn prefix_holds(&self, id: Seq<char>) -> bool {
        match self.prefix {
            Some(p) => seq_starts_with(id, p@),
            None => true,
        }
    }

    pub open spec fn suffix_holds(&self, id: Seq<char>) -> bool {
        match self.suffix {
            Some(p) => seq_ends_with(id, p@),
            None => true,
        }
    }

    pub open spec fn contains_holds(&self, id: Seq<char>) -> bool {
        match self.contains {
            Some(p) => seq_contains(id, p@),
            None => true,
        }
    }

    /// No condition is configured at all.
    pub open spec fn is_patternless(&self) -> bool {
        self.prefix is None && self.suffix is None && self.contains is None
    }

    /// The number of configured conditions.
    pub open spec fn expected_count(&self) -> nat {
        (if self.prefix is Some { 1nat } else { 0nat })
        + (if self.suffix is Some { 1nat } else { 0nat })
        + (if self.contains is Some { 1nat } else { 0nat })
    }

    /// The number of configured conditions that `id` satisfies.
    pub open spec fn satisfied_count(&self, id: Seq<char>) -> nat {
        (if self.prefix is Some && self.prefix_holds(id) { 1nat } else { 0nat })
        + (if self.suffix is Some && self.suffix_holds(id) { 1nat } else { 0nat })
        + (if self.contains is Some && self.contains_holds(id) { 1nat } else { 0nat })
    }

    /// `id` is a full match: at least one condition is configured and every
    /// configured condition holds.
    pub open spec fn accepts(&self, id: Seq<char>) -> bool {
        !self.is_patternless() && self.prefix_holds(id) && self.suffix_holds(id)
            && self.contains_holds(id)
    }

    /// Whether any condition is configured.
    pub fn has_pattern(&self) -> (r: bool)
        ensures
            r == !self.is_patternless(),
    {
        self.prefix.is_some() || self.suffix.is_some() || self.contains.is_some()
    }
}

/// A full match by counting is the same as the conjunction of every present
/// condition, with at least one present.
pub proof fn lemma_counting_is_conjunction(spec: MatchSpec, id: Seq<char>)
    ensures
        (spec.expected_count() > 0 && spec.satisfied_count(id) == spec.expected_count())
            <==> spec.accepts(id),
        spec.satisfied_count(id) <= spec.expected_count() <= 3,
        spec.expected_count() == 0 <==> spec.is_patternless(),
{
}

/// The characters of `s`, one per element.
pub fn chars_of(s: &str) -> (r: Vec<char>)
    ensures
        r@ == s@,
{
    let n = s.unicode_len();
    let mut r: Vec<char> = Vec::new();
    let mut i: usize = 0;
    while i < n
        invariant
            n == s@.len(),
            i <= n,
            r@ == s@.subrange(0, i as int),
        decreases n - i,
    {
        r.push(s.get_char(i));
        i += 1;
        assert(r@ =~= s@.subrange(0, i as int));
    }
    assert(r@ =~= s@);
    r
}

fn matches_at(s: &Vec<char>, p: &Vec<char>, start: usize) -> (r: bool)
    requires
        start + p@.len() <= s@.len(),
    ensures
        r == occurs_at(s@, p@, start as int),
{
    let n = s.len();
    let mut j: usize = 0;
    while j < p.len()
        invariant
            n == s@.len(),
            start + p@.len() <= s@.len(),
            j <= p@.len(),
            forall|k: int| 0 <= k < j ==> s@[start + k] == p@[k],
        decreases p@.len() - j,
    {
        if s[start + j] != p[j] {
            assert(s@.subrange(start as int, start + p@.len())[j as int] != p@[j as int]);
            return false;
        }
        j += 1;
    }
    assert(s@.subrange(start as int, start + p@.len()) =~= p@);
    true
}

/// Whether `p` is an initial segment of `s`.
pub fn starts_with_chars(s: &Vec<char>, p: &Vec<char>) -> (r: bool)
    ensures
        r == seq_starts_with(s@, p@),
{
    if p.len() > s.len() {
        false
    } else {
        matches_at(s, p, 0)
    }
}

/// Whether `p` is a final segment of `s`.
pub fn ends_with_chars(s: &Vec<char>, p: &Vec<char>) -> (r: bool)
    ensures
        r == seq_ends_with(s@, p@),
{
    if p.len() > s.len() {
        false
    } else {
        matches_at(s, p, s.len() - p.len())
    }
}

/// Whether `p` stands somewhere in `s`.
pub fn contains_chars(s: &Vec<char>, p: &Vec<char>) -> (r: bool)
    ensures
        r == seq_contains(s@, p@),
{
    if p.len() > s.len() {
        return false;
    }
    let last = s.len() - p.len();
    let mut i: usize = 0;
    loop
        invariant
            last == s@.len() - p@.len(),
            i <= last,
            forall|k: int| 0 <= k < i ==> !occurs_at(s@, p@, k),
        ensures
            i == last,
            forall|k: int| 0 <= k <= last ==> !occurs_at(s@, p@, k),
        decreases last - i,
    {
        if matches_at(s, p, i) {
            return true;
        }
        if i == last {
            break;
        }
        i += 1;
    }
    assert forall|k: int| !occurs_at(s@, p@, k) by {
        if 0 <= k && k + p@.len() <= s@.len() {
            assert(k <= i);
        }
    }
    false
}

/// Evaluates `spec` against `public_id`, counting the configured conditions
/// and those that hold. A full match needs at least one condition and all of
/// them satisfied.
pub fn evaluate(spec: &MatchSpec, public_id: &str) -> (r: MatchOutcome)
    ensures
        r.expected_criteria as nat == spec.expected_count(),
        r.satisfied_criteria as nat == spec.satisfied_count(public_id@),
        r.matched == (r.expected_criteria > 0 && r.satisfied_criteria == r.expected_criteria),
        r.matched == spec.accepts(public_id@),
{
    let id = chars_of(public_id);
    let mut expected: u8 = 0;
    let mut satisfied: u8 = 0;
    match &spec.prefix {
        Some(p) => {
            expected += 1;
            let pc = chars_of(p.as_str());
            if starts_with_chars(&id, &pc) {
                satisfied += 1;
            }
        },
        None => {},
    }
    match &spec.suffix {
        Some(p) => {
            expected += 1;
            let pc = chars_of(p.as_str());
            if ends_with_chars(&id, &pc) {
                satisfied += 1;
            }
        },
        None => {},
    }
    match &spec.contains {
        Some(p) => {
            expected += 1;
            let pc = chars_of(p.as_str());
            if contains_chars(&id, &pc) {
                satisfied += 1;
            }
        },
        None => {},
    }
    proof {
        lemma_counting_is_conjunction(*spec, public_id@);
    }
    MatchOutcome {
        matched: expected > 0 && satisfied == expected,
        expected_criteria: expected,
        satisfied_criteria: satisfied,
    }
}

} // verus!
