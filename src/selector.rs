//! The registry of backend processors and the dispatch protocol.
//!
//! A payment goes first to the healthy processor with the lowest rate. When
//! that attempt fails, the processors that a fresh look at the registry shows
//! healthy are tried in stored order; when none was healthy to begin with,
//! every processor is tried. Each attempt marks its processor healthy or
//! failed. The attempts themselves are made by the caller: this module
//! decides what to try next and what each outcome does to the registry.
use vstd::prelude::*;
use crate::table::{keyed, keys_distinct, has_key, index_of, lookup, lemma_index_of, lemma_same_keys};

verus! {

/// The rate a processor is registered with: 5%, in millionths.
pub const DEFAULT_RATE: u64 = 50000;

/// One registered backend.
#[derive(Debug, Clone)]
pub struct ProcessorInfo {
    pub name: String,
    /// Base endpoint, without a trailing `/payments`.
    pub url: String,
    /// Cost per transaction in millionths of the amount; lower is preferred.
    pub rate: u64,
    pub is_healthy: bool,
    /// Failed attempts since the last success.
    pub failure_count: u32,
}

/// A backend's reply to an accepted payment.
#[derive(Debug, Clone)]
pub struct PaymentProcessorResponse {
    pub message: String,
}

/// Why a payment could not be placed.
#[derive(Debug, Clone, Copy, PartialEq, Eq, Structural)]
pub enum DispatchError {
    /// Every processor that was eligible was tried, and each attempt failed.
    AllProcessorsUnavailable,
}

/// What came of one attempt at a backend.
#[derive(Debug, Clone)]
pub enum AttemptOutcome {
    /// A success status with a readable body.
    Accepted(PaymentProcessorResponse),
    /// A success status whose body is not a response.
    Unreadable,
    /// A status other than success.
    Rejected(u16),
    /// No answer: connection failure or timeout.
    Unreachable,
}

/// What the caller is to do next with a payment.
#[derive(Debug, Clone)]
pub enum DispatchStep {
    /// Send the payment to this processor and report the outcome.
    Attempt(ProcessorInfo),
    /// The payment was placed; this is the backend's reply.
    Succeeded(PaymentProcessorResponse),
    /// The payment could not be placed.
    Failed(DispatchError),
}

/// The registry as a list keyed by processor name.
pub open spec fn by_name(s: Seq<ProcessorInfo>) -> Seq<(Seq<char>, ProcessorInfo)> {
    s.map_values(|p: ProcessorInfo| (p.name@, p))
}

/// No name is registered twice.
pub open spec fn names_distinct(s: Seq<ProcessorInfo>) -> bool {
    keys_distinct(by_name(s))
}

/// Whether the processor named `n` is registered and flagged healthy.
pub open spec fn healthy_of(s: Seq<ProcessorInfo>, n: Seq<char>) -> bool {
    match lookup(by_name(s), n) {
        Some(p) => p.is_healthy,
        None => false,
    }
}

/// One more failure, the counter stopping at its largest value.
pub open spec fn next_failure_count(c: u32) -> u32 {
    if c < u32::MAX {
        (c + 1) as u32
    } else {
        c
    }
}

/// A processor after a failed attempt.
pub open spec fn as_failed(p: ProcessorInfo) -> ProcessorInfo {
    ProcessorInfo {
        name: p.name,
        url: p.url,
        rate: p.rate,
        is_healthy: false,
        failure_count: next_failure_count(p.failure_count),
    }
}

/// A processor after a successful attempt.
pub open spec fn as_healthy(p: ProcessorInfo) -> ProcessorInfo {
    ProcessorInfo { name: p.name, url: p.url, rate: p.rate, is_healthy: true, failure_count: 0 }
}

/// A processor with another rate.
pub open spec fn with_rate(p: ProcessorInfo, rate: u64) -> ProcessorInfo {
    ProcessorInfo {
        name: p.name,
        url: p.url,
        rate: rate,
        is_healthy: p.is_healthy,
        failure_count: p.failure_count,
    }
}

/// The registry after a failed attempt at `n`; unchanged where `n` is unknown.
pub open spec fn mark_failed(s: Seq<ProcessorInfo>, n: Seq<char>) -> Seq<ProcessorInfo> {
    if has_key(by_name(s), n) {
        let i = index_of(by_name(s), n);
        s.update(i, as_failed(s[i]))
    } else {
        s
    }
}

/// The registry after a successful attempt at `n`; unchanged where `n` is unknown.
pub open spec fn mark_healthy(s: Seq<ProcessorInfo>, n: Seq<char>) -> Seq<ProcessorInfo> {
    if has_key(by_name(s), n) {
        let i = index_of(by_name(s), n);
        s.update(i, as_healthy(s[i]))
    } else {
        s
    }
}

/// The registry with `rate` for `n`; unchanged where `n` is unknown.
pub open spec fn set_rate(s: Seq<ProcessorInfo>, n: Seq<char>, rate: u64) -> Seq<ProcessorInfo> {
    if has_key(by_name(s), n) {
        let i = index_of(by_name(s), n);
        s.update(i, with_rate(s[i], rate))
    } else {
        s
    }
}

/// Some processor is flagged healthy.
pub open spec fn has_healthy(s: Seq<ProcessorInfo>) -> bool {
    exists|i: int| 0 <= i < s.len() && #[trigger] s[i].is_healthy
}

/// Position `i` holds the first of the healthy processors with the lowest rate.
pub open spec fn is_default_choice(s: Seq<ProcessorInfo>, i: int) -> bool {
    &&& 0 <= i < s.len()
    &&& s[i].is_healthy
    &&& forall|j: int| 0 <= j < s.len() && #[trigger] s[j].is_healthy ==> s[i].rate <= s[j].rate
    &&& forall|j: int| 0 <= j < i && #[trigger] s[j].is_healthy ==> s[i].rate < s[j].rate
}

/// The position of the default candidate (meaningful where some processor is healthy).
pub open spec fn default_index(s: Seq<ProcessorInfo>) -> int {
    choose|i: int| is_default_choice(s, i)
}

/// The healthy processors, in stored order.
pub open spec fn healthy_entries(s: Seq<ProcessorInfo>) -> Seq<ProcessorInfo>
    decreases s.len(),
{
    if s.len() == 0 {
        Seq::empty()
    } else if s.last().is_healthy {
        healthy_entries(s.drop_last()).push(s.last())
    } else {
        healthy_entries(s.drop_last())
    }
}

/// A freshly registered processor.
pub open spec fn registered(name: String, url: String) -> ProcessorInfo {
    ProcessorInfo { name: name, url: url, rate: DEFAULT_RATE, is_healthy: true, failure_count: 0 }
}

/// What an attempt's outcome turns into once the next target is known.
pub open spec fn step_for(targets: Seq<ProcessorInfo>, position: int) -> DispatchStep {
    if 0 <= position < targets.len() {
        DispatchStep::Attempt(targets[position])
    } else {
        DispatchStep::Failed(DispatchError::AllProcessorsUnavailable)
    }
}

/// The lowest rate is chosen, and the first of equal rates: one choice at most.
pub proof fn lemma_default_unique(s: Seq<ProcessorInfo>, i: int, j: int)
    requires
        is_default_choice(s, i),
        is_default_choice(s, j),
    ensures
        i == j,
{
    if i < j {
        assert(s[i].is_healthy);
    } else if j < i {
        assert(s[j].is_healthy);
    }
}

/// Where some processor is healthy, there is a default candidate.
pub proof fn lemma_default_exists(s: Seq<ProcessorInfo>)
    requires
        has_healthy(s),
    ensures
        is_default_choice(s, default_index(s)),
    decreases s.len(),
{
    let n = s.len() - 1;
    let pre = s.drop_last();
    if has_healthy(pre) {
        lemma_default_exists(pre);
        let d = default_index(pre);
        assert(pre[d] == s[d]);
        if s[n].is_healthy && s[n].rate < s[d].rate {
            assert forall|j: int| 0 <= j < s.len() && #[trigger] s[j].is_healthy implies s[n].rate
                <= s[j].rate by {
                if j < n {
                    assert(pre[j] == s[j]);
                }
            }
            assert forall|j: int| 0 <= j < n && #[trigger] s[j].is_healthy implies s[n].rate
                < s[j].rate by {
                assert(pre[j] == s[j]);
            }
            assert(is_default_choice(s, n));
        } else {
            assert forall|j: int| 0 <= j < s.len() && #[trigger] s[j].is_healthy implies s[d].rate
                <= s[j].rate by {
                if j < n {
                    assert(pre[j] == s[j]);
                }
            }
            assert forall|j: int| 0 <= j < d && #[trigger] s[j].is_healthy implies s[d].rate
                < s[j].rate by {
                assert(pre[j] == s[j]);
            }
            assert(is_default_choice(s, d));
        }
    } else {
        let h = choose|i: int| 0 <= i < s.len() && #[trigger] s[i].is_healthy;
        if h < n {
            assert(pre[h] == s[h]);
        }
        assert forall|j: int| 0 <= j < s.len() && #[trigger] s[j].is_healthy implies j == n by {
            if j < n {
                assert(pre[j] == s[j]);
            }
        }
        assert(is_default_choice(s, n));
    }
}

/// A processor is among the healthy ones exactly when it is flagged healthy.
pub proof fn lemma_healthy_entries(s: Seq<ProcessorInfo>, i: int)
    requires
        0 <= i < s.len(),
        s[i].is_healthy,
    ensures
        exists|j: int| 0 <= j < healthy_entries(s).len() && #[trigger] healthy_entries(s)[j] == s[i],
    decreases s.len(),
{
    let n = s.len() - 1;
    let h = healthy_entries(s);
    if i == n {
        assert(h[h.len() - 1] == s[i]);
    } else {
        let pre = s.drop_last();
        assert(pre[i] == s[i]);
        lemma_healthy_entries(pre, i);
        let j = choose|j: int|
            0 <= j < healthy_entries(pre).len() && #[trigger] healthy_entries(pre)[j] == pre[i];
        assert(h[j] == s[i]);
    }
}

/// Renaming nothing: an update that keeps the name keeps the positions of all names.
proof fn lemma_update_keeps_names(s: Seq<ProcessorInfo>, i: int, p: ProcessorInfo)
    requires
        names_distinct(s),
        0 <= i < s.len(),
        p.name == s[i].name,
    ensures
        names_distinct(s.update(i, p)),
        forall|k: Seq<char>| #[trigger] has_key(by_name(s.update(i, p)), k) == has_key(by_name(s), k),
        forall|k: Seq<char>|
            has_key(by_name(s), k) ==> #[trigger] index_of(by_name(s.update(i, p)), k) == index_of(
                by_name(s),
                k,
            ),
{
    let a = by_name(s);
    let b = by_name(s.update(i, p));
    assert forall|j: int| 0 <= j < a.len() implies #[trigger] a[j].0 == b[j].0 by {}
    lemma_same_keys(a, b);
}

/// A failed attempt at one processor leaves it unhealthy and every other
/// processor's health as it was.
pub proof fn lemma_failure_is_isolated(s: Seq<ProcessorInfo>, n: Seq<char>, m: Seq<char>)
    requires
        names_distinct(s),
        has_key(by_name(s), n),
        m != n,
    ensures
        !healthy_of(mark_failed(s, n), n),
        healthy_of(mark_failed(s, n), m) == healthy_of(s, m),
{
    let i = index_of(by_name(s), n);
    assert(by_name(s)[i].0 == n);
    lemma_update_keeps_names(s, i, as_failed(s[i]));
    if has_key(by_name(s), m) {
        let j = index_of(by_name(s), m);
        assert(by_name(s)[j].0 == m);
    }
}

/// Marking a processor healthy after a failure resets its counter and its flag.
pub proof fn lemma_recovery_resets(s: Seq<ProcessorInfo>, n: Seq<char>)
    requires
        names_distinct(s),
        has_key(by_name(s), n),
    ensures
        lookup(by_name(mark_healthy(mark_failed(s, n), n)), n) matches Some(p) && p.is_healthy
            && p.failure_count == 0,
        healthy_of(mark_healthy(mark_failed(s, n), n), n),
{
    let i = index_of(by_name(s), n);
    assert(by_name(s)[i].0 == n);
    lemma_update_keeps_names(s, i, as_failed(s[i]));
    let s1 = mark_failed(s, n);
    lemma_update_keeps_names(s1, i, as_healthy(s1[i]));
}

/// An accepted attempt leaves its processor healthy with no failures counted,
/// and every other processor as it was.
pub proof fn lemma_success_marks_healthy(s: Seq<ProcessorInfo>, n: Seq<char>)
    requires
        names_distinct(s),
        has_key(by_name(s), n),
    ensures
        names_distinct(mark_healthy(s, n)),
        lookup(by_name(mark_healthy(s, n)), n) matches Some(p) && p.is_healthy && p.failure_count
            == 0 && p.name@ == n,
        forall|m: Seq<char>|
            m != n ==> #[trigger] lookup(by_name(mark_healthy(s, n)), m) == lookup(by_name(s), m),
{
    let i = index_of(by_name(s), n);
    assert(by_name(s)[i].0 == n);
    lemma_update_keeps_names(s, i, as_healthy(s[i]));
    let t = mark_healthy(s, n);
    assert forall|m: Seq<char>| m != n implies #[trigger] lookup(by_name(t), m) == lookup(
        by_name(s),
        m,
    ) by {
        if has_key(by_name(s), m) {
            let j = index_of(by_name(s), m);
            assert(by_name(s)[j].0 == m);
        }
    }
}

/// When every attempt fails and nothing else touches the registry, a payment
/// sent from a registry with a healthy processor tries each processor that was
/// healthy when it started: the default candidate first, then every other one
/// in the sweep.
pub proof fn lemma_every_healthy_processor_tried(s: Seq<ProcessorInfo>)
    requires
        names_distinct(s),
        has_healthy(s),
    ensures
        is_default_choice(s, default_index(s)),
        forall|i: int|
            0 <= i < s.len() && #[trigger] s[i].is_healthy ==> i == default_index(s) || exists|
                j: int,
            |
                0 <= j < healthy_entries(mark_failed(s, s[default_index(s)].name@)).len()
                    && #[trigger] healthy_entries(mark_failed(s, s[default_index(s)].name@))[j]
                    == s[i],
{
    lemma_default_exists(s);
    let d = default_index(s);
    let n = s[d].name@;
    assert(by_name(s)[d].0 == n);
    lemma_index_of(by_name(s), d);
    let s1 = mark_failed(s, n);
    assert forall|i: int| 0 <= i < s.len() && #[trigger] s[i].is_healthy && i != d implies exists|
        j: int,
    |
        0 <= j < healthy_entries(s1).len() && #[trigger] healthy_entries(s1)[j] == s[i] by {
        assert(s1[i] == s[i]);
        lemma_healthy_entries(s1, i);
    }
}

/// The registry and result of trying `targets` from `position` on, where a
/// backend accepts exactly when `accepts` holds of its name: the name of the
/// processor that placed the payment, or none.
pub open spec fn sweep(
    reg: Seq<ProcessorInfo>,
    targets: Seq<ProcessorInfo>,
    position: int,
    accepts: spec_fn(Seq<char>) -> bool,
) -> (Seq<ProcessorInfo>, Option<Seq<char>>)
    decreases targets.len() - position,
{
    if position < 0 || position >= targets.len() {
        (reg, None)
    } else if accepts(targets[position].name@) {
        (mark_healthy(reg, targets[position].name@), Some(targets[position].name@))
    } else {
        sweep(mark_failed(reg, targets[position].name@), targets, position + 1, accepts)
    }
}

/// The registry and result of a whole payment started on `s` with no other
/// change to the registry while it runs, as `begin_payment` and
/// `record_attempt` carry it out.
pub open spec fn payment(s: Seq<ProcessorInfo>, accepts: spec_fn(Seq<char>) -> bool) -> (
    Seq<ProcessorInfo>,
    Option<Seq<char>>,
) {
    if has_healthy(s) {
        let d = s[default_index(s)].name@;
        if accepts(d) {
            (mark_healthy(s, d), Some(d))
        } else {
            let r1 = mark_failed(s, d);
            sweep(r1, healthy_entries(r1), 0, accepts)
        }
    } else {
        sweep(s, s, 0, accepts)
    }
}

/// A sweep places the payment only with a backend that accepts, and gives up
/// only when every target from `position` on refused.
pub proof fn lemma_sweep_outcome(
    reg: Seq<ProcessorInfo>,
    targets: Seq<ProcessorInfo>,
    position: int,
    accepts: spec_fn(Seq<char>) -> bool,
)
    requires
        0 <= position,
    ensures
        sweep(reg, targets, position, accepts).1 matches Some(n) ==> accepts(n),
        sweep(reg, targets, position, accepts).1 is None ==> forall|j: int|
            position <= j < targets.len() ==> !accepts(#[trigger] targets[j].name@),
    decreases targets.len() - position,
{
    if position < targets.len() && !accepts(targets[position].name@) {
        lemma_sweep_outcome(
            mark_failed(reg, targets[position].name@),
            targets,
            position + 1,
            accepts,
        );
    }
}

/// A payment started on a registry with a healthy processor, with nothing
/// else touching the registry, either is placed by exactly one backend, one
/// that accepts, or fails only when every processor healthy at the start
/// refused.
pub proof fn lemma_payment_outcome(s: Seq<ProcessorInfo>, accepts: spec_fn(Seq<char>) -> bool)
    requires
        names_distinct(s),
        has_healthy(s),
    ensures
        payment(s, accepts).1 matches Some(n) ==> accepts(n),
        payment(s, accepts).1 is None ==> forall|i: int|
            0 <= i < s.len() && #[trigger] s[i].is_healthy ==> !accepts(s[i].name@),
{
    lemma_every_healthy_processor_tried(s);
    let d = default_index(s);
    let n = s[d].name@;
    if !accepts(n) {
        let r1 = mark_failed(s, n);
        let h = healthy_entries(r1);
        lemma_sweep_outcome(r1, h, 0, accepts);
        if payment(s, accepts).1 is None {
            assert forall|i: int| 0 <= i < s.len() && #[trigger] s[i].is_healthy implies !accepts(
                s[i].name@,
            ) by {
                if i != d {
                    let j = choose|j: int| 0 <= j < h.len() && #[trigger] h[j] == s[i];
                    assert(!accepts(h[j].name@));
                }
            }
        }
    }
}

/// A copy of a processor record.
fn copy_info(p: &ProcessorInfo) -> (r: ProcessorInfo)
    ensures
        r == *p,
{
    ProcessorInfo {
        name: p.name.clone(),
        url: p.url.clone(),
        rate: p.rate,
        is_healthy: p.is_healthy,
        failure_count: p.failure_count,
    }
}

/// Sorts a backend's answer into an outcome: accepted only with a success
/// status and a body that reads as a response.
pub fn classify_response(status: u16, body: Option<PaymentProcessorResponse>) -> (r:
    AttemptOutcome)
    ensures
        200 <= status < 300 && body is Some ==> r == AttemptOutcome::Accepted(body->Some_0),
        200 <= status < 300 && body is None ==> r is Unreadable,
        !(200 <= status < 300) ==> r == AttemptOutcome::Rejected(status),
{
    if 200 <= status && status < 300 {
        match body {
            Some(b) => AttemptOutcome::Accepted(b),
            None => AttemptOutcome::Unreadable,
        }
    } else {
        AttemptOutcome::Rejected(status)
    }
}

/// The state of one payment between attempts.
pub struct PaymentAttempts {
    targets: Vec<ProcessorInfo>,
    position: usize,
    preferred: bool,
}

impl PaymentAttempts {
    /// The processors this stage tries, in order.
    pub closed spec fn targets(&self) -> Seq<ProcessorInfo> {
        self.targets@
    }

    /// How many of the targets have been tried.
    pub closed spec fn position(&self) -> int {
        self.position as int
    }

    /// Whether the single attempt at the default candidate is under way.
    pub closed spec fn on_preferred(&self) -> bool {
        self.preferred
    }

    /// Whether an attempt is awaited, that is, whether a target is left.
    pub fn is_pending(&self) -> (r: bool)
        ensures
            r == (self.position() < self.targets().len()),
    {
        self.position < self.targets.len()
    }
}

/// The registry of backend processors.
pub struct ProcessorSelector {
    processors: Vec<ProcessorInfo>,
}

impl View for ProcessorSelector {
    type V = Seq<ProcessorInfo>;

    closed spec fn view(&self) -> Seq<ProcessorInfo> {
        self.processors@
    }
}

impl ProcessorSelector {
    /// No name is registered twice.
    pub open spec fn wf(&self) -> bool {
        names_distinct(self@)
    }

    /// A registry of two processors, `default` and then `fallback`.
    pub fn new(default_url: String, fallback_url: String) -> (r: Self)
        ensures
            r.wf(),
            r@.len() == 2,
            r@[0].name@ == "default"@,
            r@[0] == registered(r@[0].name, default_url),
            r@[1].name@ == "fallback"@,
            r@[1] == registered(r@[1].name, fallback_url),
    {
        let mut config: Vec<(String, String)> = Vec::new();
        config.push((String::from_str("default"), default_url));
        config.push((String::from_str("fallback"), fallback_url));
        proof {
            reveal_strlit("default");
            reveal_strlit("fallback");
            assert(config@[0].0@[0] != config@[1].0@[0]);
            assert(keyed(config@)[0].0 != keyed(config@)[1].0);
        }
        Self::with_config(config)
    }

    /// A registry with one healthy processor at the default rate per pair of
    /// name and base URL, in the order given.
    pub fn with_config(config: Vec<(String, String)>) -> (r: Self)
        requires
            keys_distinct(keyed(config@)),
        ensures
            r.wf(),
            r@.len() == config@.len(),
            forall|i: int|
                0 <= i < config@.len() ==> #[trigger] r@[i] == registered(
                    config@[i].0,
                    config@[i].1,
                ),
    {
        let mut processors: Vec<ProcessorInfo> = Vec::new();
        let mut i: usize = 0;
        while i < config.len()
            invariant
                0 <= i <= config@.len(),
                processors@.len() == i,
                keys_distinct(keyed(config@)),
                forall|j: int|
                    0 <= j < i ==> #[trigger] processors@[j] == registered(
                        config@[j].0,
                        config@[j].1,
                    ),
            decreases config@.len() - i,
        {
            let (name, url) = (&config[i].0, &config[i].1);
            processors.push(
                ProcessorInfo {
                    name: name.clone(),
                    url: url.clone(),
                    rate: DEFAULT_RATE,
                    is_healthy: true,
                    failure_count: 0,
                },
            );
            i = i + 1;
        }
        let r = ProcessorSelector { processors };
        assert forall|a: int, b: int|
            0 <= a < by_name(r@).len() && 0 <= b < by_name(r@).len() && a != b implies #[trigger] by_name(
            r@,
        )[a].0 != #[trigger] by_name(r@)[b].0 by {
            assert(keyed(config@)[a].0 != keyed(config@)[b].0);
        }
        r
    }

    /// A copy of the whole registry, in stored order.
    pub fn get_processors(&self) -> (r: Vec<ProcessorInfo>)
        ensures
            r@ == self@,
    {
        let mut out: Vec<ProcessorInfo> = Vec::new();
        let mut i: usize = 0;
        while i < self.processors.len()
            invariant
                0 <= i <= self@.len(),
                out@ == self@.subrange(0, i as int),
            decreases self@.len() - i,
        {
            out.push(copy_info(&self.processors[i]));
            i = i + 1;
            assert(out@ =~= self@.subrange(0, i as int));
        }
        assert(out@ =~= self@);
        out
    }

    /// The healthy processor with the lowest rate, the first of equal rates;
    /// none where no processor is healthy.
    pub fn get_default_processor(&self) -> (r: Option<ProcessorInfo>)
        ensures
            r is None <==> !has_healthy(self@),
            r is Some ==> is_default_choice(self@, default_index(self@)) && r == Some(
                self@[default_index(self@)],
            ),
    {
        match self.default_position() {
            Some(i) => Some(copy_info(&self.processors[i])),
            None => None,
        }
    }

    /// The position of the default candidate.
    fn default_position(&self) -> (r: Option<usize>)
        ensures
            r is None <==> !has_healthy(self@),
            r matches Some(i) ==> i == default_index(self@) && is_default_choice(self@, i as int),
    {
        let ghost s = self@;
        let n = self.processors.len();
        let mut best: Option<usize> = None;
        let mut i: usize = 0;
        while i < n
            invariant
                s == self@,
                n == s.len(),
                0 <= i <= n,
                match best {
                    Some(b) => {
                        &&& b < i
                        &&& s[b as int].is_healthy
                        &&& forall|j: int|
                            0 <= j < i && #[trigger] s[j].is_healthy ==> s[b as int].rate
                                <= s[j].rate
                        &&& forall|j: int|
                            0 <= j < b && #[trigger] s[j].is_healthy ==> s[b as int].rate
                                < s[j].rate
                    },
                    None => forall|j: int| 0 <= j < i ==> !#[trigger] s[j].is_healthy,
                },
            decreases n - i,
        {
            if self.processors[i].is_healthy {
                match best {
                    Some(b) => {
                        if self.processors[i].rate < self.processors[b].rate {
                            best = Some(i);
                        }
                    },
                    None => {
                        best = Some(i);
                    },
                }
            }
            i = i + 1;
        }
        proof {
            match best {
                Some(b) => {
                    assert(is_default_choice(s, b as int));
                    lemma_default_unique(s, b as int, default_index(s));
                },
                None => {},
            }
        }
        best
    }

    /// Each processor's name and rate, in stored order.
    pub fn get_processor_rates(&self) -> (r: Vec<(String, u64)>)
        ensures
            r@.len() == self@.len(),
            forall|i: int|
                0 <= i < self@.len() ==> #[trigger] r@[i] == (self@[i].name, self@[i].rate),
    {
        let mut out: Vec<(String, u64)> = Vec::new();
        let mut i: usize = 0;
        while i < self.processors.len()
            invariant
                0 <= i <= self@.len(),
                out@.len() == i,
                forall|j: int| 0 <= j < i ==> #[trigger] out@[j] == (self@[j].name, self@[j].rate),
            decreases self@.len() - i,
        {
            out.push((self.processors[i].name.clone(), self.processors[i].rate));
            i = i + 1;
        }
        out
    }

    /// The position of the processor named `name`.
    fn position_of(&self, name: &str) -> (r: Option<usize>)
        requires
            self.wf(),
        ensures
            match r {
                Some(i) => i < self@.len() && has_key(by_name(self@), name@) && i == index_of(
                    by_name(self@),
                    name@,
                ),
                None => !has_key(by_name(self@), name@),
            },
    {
        let key = name.to_owned();
        let ghost ks = by_name(self@);
        let mut i: usize = 0;
        while i < self.processors.len()
            invariant
                0 <= i <= self@.len(),
                ks == by_name(self@),
                keys_distinct(ks),
                key@ == name@,
                forall|j: int| 0 <= j < i ==> ks[j].0 != name@,
            decreases self@.len() - i,
        {
            if self.processors[i].name == key {
                proof {
                    assert(ks[i as int].0 == name@);
                    lemma_index_of(ks, i as int);
                }
                return Some(i);
            }
            i = i + 1;
        }
        proof {
            if has_key(ks, name@) {
                let j = index_of(ks, name@);
                assert(ks[j].0 == name@);
            }
        }
        None
    }

    /// Sets the rate of the processor named `name`; nothing where it is unknown.
    pub fn update_processor_rate(&mut self, name: &str, rate: u64)
        requires
            old(self).wf(),
        ensures
            final(self).wf(),
            final(self)@ == set_rate(old(self)@, name@, rate),
    {
        if let Some(i) = self.position_of(name) {
            let p = &self.processors[i];
            let q = ProcessorInfo {
                name: p.name.clone(),
                url: p.url.clone(),
                rate,
                is_healthy: p.is_healthy,
                failure_count: p.failure_count,
            };
            proof {
                lemma_update_keeps_names(self@, i as int, q);
            }
            self.processors.set(i, q);
        }
    }

    /// Flags the processor named `name` unhealthy and counts one more failure;
    /// nothing where it is unknown.
    pub fn mark_processor_failed(&mut self, name: &str)
        requires
            old(self).wf(),
        ensures
            final(self).wf(),
            final(self)@ == mark_failed(old(self)@, name@),
    {
        if let Some(i) = self.position_of(name) {
            let p = &self.processors[i];
            let count = if p.failure_count < u32::MAX {
                p.failure_count + 1
            } else {
                p.failure_count
            };
            let q = ProcessorInfo {
                name: p.name.clone(),
                url: p.url.clone(),
                rate: p.rate,
                is_healthy: false,
                failure_count: count,
            };
            proof {
                lemma_update_keeps_names(self@, i as int, q);
            }
            self.processors.set(i, q);
        }
    }

    /// Flags the processor named `name` healthy and clears its failure count;
    /// nothing where it is unknown.
    pub fn mark_processor_healthy(&mut self, name: &str)
        requires
            old(self).wf(),
        ensures
            final(self).wf(),
            final(self)@ == mark_healthy(old(self)@, name@),
    {
        if let Some(i) = self.position_of(name) {
            let p = &self.processors[i];
            let q = ProcessorInfo {
                name: p.name.clone(),
                url: p.url.clone(),
                rate: p.rate,
                is_healthy: true,
                failure_count: 0,
            };
            proof {
                lemma_update_keeps_names(self@, i as int, q);
            }
            self.processors.set(i, q);
        }
    }

    /// Whether the processor named `name` is registered and flagged healthy.
    pub fn is_processor_healthy(&self, name: &str) -> (r: bool)
        requires
            self.wf(),
        ensures
            r == healthy_of(self@, name@),
    {
        match self.position_of(name) {
            Some(i) => self.processors[i].is_healthy,
            None => false,
        }
    }

    /// The processors flagged healthy, in stored order.
    fn healthy_snapshot(&self) -> (r: Vec<ProcessorInfo>)
        ensures
            r@ == healthy_entries(self@),
    {
        let ghost s = self@;
        let mut out: Vec<ProcessorInfo> = Vec::new();
        let mut i: usize = 0;
        while i < self.processors.len()
            invariant
                s == self@,
                0 <= i <= s.len(),
                out@ == healthy_entries(s.subrange(0, i as int)),
            decreases s.len() - i,
        {
            proof {
                assert(s.subrange(0, i + 1).drop_last() =~= s.subrange(0, i as int));
            }
            if self.processors[i].is_healthy {
                out.push(copy_info(&self.processors[i]));
            }
            i = i + 1;
        }
        assert(s.subrange(0, s.len() as int) =~= s);
        out
    }

    /// Starts a payment: the default candidate alone where some processor is
    /// healthy, every processor in stored order otherwise.
    pub fn begin_payment(&self) -> (r: (PaymentAttempts, DispatchStep))
        ensures
            r.0.position() == 0,
            r.0.on_preferred() == has_healthy(self@),
            has_healthy(self@) ==> is_default_choice(self@, default_index(self@)) && r.0.targets()
                == seq![self@[default_index(self@)]],
            !has_healthy(self@) ==> r.0.targets() == self@,
            r.1 == step_for(r.0.targets(), 0),
    {
        let plan = match self.default_position() {
            Some(i) => {
                let mut targets: Vec<ProcessorInfo> = Vec::new();
                targets.push(copy_info(&self.processors[i]));
                assert(targets@ =~= seq![self@[i as int]]);
                PaymentAttempts { targets, position: 0, preferred: true }
            },
            None => PaymentAttempts { targets: self.get_processors(), position: 0, preferred: false },
        };
        let step = if plan.targets.len() > 0 {
            DispatchStep::Attempt(copy_info(&plan.targets[0]))
        } else {
            DispatchStep::Failed(DispatchError::AllProcessorsUnavailable)
        };
        (plan, step)
    }

    /// Takes the outcome of the attempt at the current target. An accepted
    /// payment marks the target healthy and ends the payment with the
    /// backend's reply. Any other outcome marks it failed and moves on: after
    /// the default candidate, to the processors then flagged healthy; after a
    /// sweep target, to the next one; with none left, the payment fails.
    ///
    /// The registry is looked at for the sweep in the same step that marks
    /// the default candidate failed, so that candidate is never in its own
    /// sweep: unlike a sweep over a copy taken later, it cannot be tried a
    /// second time within one payment.
    pub fn record_attempt(&mut self, plan: &mut PaymentAttempts, outcome: AttemptOutcome) -> (r:
        DispatchStep)
        requires
            old(self).wf(),
            old(plan).position() < old(plan).targets().len(),
        ensures
            final(self).wf(),
            ({
                let t = old(plan).targets()[old(plan).position()];
                match outcome {
                    AttemptOutcome::Accepted(resp) => {
                        &&& final(self)@ == mark_healthy(old(self)@, t.name@)
                        &&& r == DispatchStep::Succeeded(resp)
                        &&& final(plan).targets() == old(plan).targets()
                        &&& final(plan).position() == old(plan).targets().len()
                        &&& final(plan).on_preferred() == old(plan).on_preferred()
                    },
                    _ => {
                        &&& final(self)@ == mark_failed(old(self)@, t.name@)
                        &&& old(plan).on_preferred() ==> final(plan).targets() == healthy_entries(
                            final(self)@,
                        ) && final(plan).position() == 0
                        &&& !old(plan).on_preferred() ==> final(plan).targets() == old(
                            plan,
                        ).targets() && final(plan).position() == old(plan).position() + 1
                        &&& !final(plan).on_preferred()
                        &&& r == step_for(final(plan).targets(), final(plan).position())
                    },
                }
            }),
    {
        let pos = plan.position;
        let len = plan.targets.len();
        let name = plan.targets[pos].name.clone();
        match outcome {
            AttemptOutcome::Accepted(resp) => {
                self.mark_processor_healthy(name.as_str());
                plan.position = len;
                DispatchStep::Succeeded(resp)
            },
            _ => {
                self.mark_processor_failed(name.as_str());
                if plan.preferred {
                    plan.targets = self.healthy_snapshot();
                    plan.position = 0;
                    plan.preferred = false;
                } else {
                    plan.position = pos + 1;
                }
                if plan.position < plan.targets.len() {
                    DispatchStep::Attempt(copy_info(&plan.targets[plan.position]))
                } else {
                    DispatchStep::Failed(DispatchError::AllProcessorsUnavailable)
                }
            },
        }
    }
}

} // verus!
