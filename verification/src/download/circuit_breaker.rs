//! A circuit breaker for each domain: after repeated failures, requests to the
//! domain are blocked for a while.

use vstd::prelude::*;
use std::time::Instant;
use crate::text::texts;
use crate::text_map::{
    key_index, keys_distinct, lemma_map_of, lemma_map_of_take, map_of, TextMap,
};
use crate::web::{parse_url, url_parts};

verus! {

/// The state of a circuit.
#[derive(Debug, Clone, Copy, PartialEq, Eq, Structural)]
pub enum CircuitState {
    /// Requests pass.
    Closed,
    /// Requests are blocked.
    Open,
    /// One request may test whether the service is back.
    HalfOpen,
}

/// The circuit of one domain. Times are nanoseconds on the breaker's clock.
#[derive(Debug, Clone, Copy)]
pub struct DomainCircuit {
    pub state: CircuitState,
    /// Failures in a row.
    pub failures: u32,
    pub opened_at: Option<u128>,
    pub last_success: Option<u128>,
}

/// How a circuit breaker behaves. Durations are in nanoseconds.
#[derive(Debug, Clone, Copy)]
pub struct CircuitBreakerConfig {
    /// How many failures in a row open a circuit.
    pub failure_threshold: u32,
    /// How long a circuit stays open before a request may test the service.
    pub cooldown_duration: u128,
    /// How long after the last success the failures are counted from zero again,
    /// once.
    pub success_reset_duration: u128,
}

impl Default for CircuitBreakerConfig {
    fn default() -> (r: CircuitBreakerConfig)
        ensures
            r.failure_threshold == 5,
            r.cooldown_duration == 60_000_000_000,
            r.success_reset_duration == 300_000_000_000,
    {
        CircuitBreakerConfig {
            failure_threshold: 5,
            cooldown_duration: 60_000_000_000,
            success_reset_duration: 300_000_000_000,
        }
    }
}

/// A moment of the monotonic clock.
#[verifier::external_type_specification]
#[verifier::external_body]
pub struct ExInstant(Instant);

/// `std::time::Instant::now`. Nothing is claimed of the moment.
#[verifier::external_body]
fn instant_now() -> (r: Instant) {
    Instant::now()
}

/// `std::time::Instant::elapsed` in nanoseconds. Nothing is claimed of
/// the number: it depends on when the call is made.
#[verifier::external_body]
fn nanos_since(start: &Instant) -> (r: u128) {
    start.elapsed().as_nanos()
}

/// Circuit breakers for all domains.
pub struct CircuitBreaker {
    config: CircuitBreakerConfig,
    circuits: TextMap<DomainCircuit>,
    /// The download that tests the service, by domain.
    testers: TextMap<u128>,
    start: Instant,
}

/// What a circuit breaker knows.
#[verifier::ext_equal]
pub struct BreakerView {
    pub config: CircuitBreakerConfig,
    pub circuits: Map<Seq<char>, DomainCircuit>,
    pub testers: Map<Seq<char>, u128>,
}

impl View for CircuitBreaker {
    type V = BreakerView;

    closed spec fn view(&self) -> BreakerView {
        BreakerView {
            config: self.config,
            circuits: self.circuits@,
            testers: self.testers@,
        }
    }
}

/// The circuit of a domain that nothing is known of.
pub open spec fn new_circuit() -> DomainCircuit {
    DomainCircuit { state: CircuitState::Closed, failures: 0, opened_at: None, last_success: None }
}

/// How long ago `then` was, or zero if it is yet to come.
pub open spec fn elapsed(then: u128, now: u128) -> int {
    if now <= then {
        0
    } else {
        now - then
    }
}

/// A circuit after it was asked whether a request may pass: an open one that
/// has cooled down is half open.
pub open spec fn circuit_checked(
    c: DomainCircuit,
    config: CircuitBreakerConfig,
    now: u128,
) -> DomainCircuit {
    if c.state == CircuitState::Open && c.opened_at is Some && elapsed(c.opened_at->0, now)
        >= config.cooldown_duration {
        DomainCircuit { state: CircuitState::HalfOpen, ..c }
    } else {
        c
    }
}

/// A circuit after a request that succeeded.
pub open spec fn circuit_succeeded(c: DomainCircuit, now: u128) -> DomainCircuit {
    DomainCircuit {
        state: CircuitState::Closed,
        failures: 0,
        opened_at: None,
        last_success: Some(now),
    }
}

/// Whether a failure is the first one after the last success has grown old.
pub open spec fn reset_due(c: DomainCircuit, config: CircuitBreakerConfig, now: u128) -> bool {
    c.last_success is Some && elapsed(c.last_success->0, now) > config.success_reset_duration
}

/// The failures in a row of a circuit, another one counted.
pub open spec fn failures_counted(
    c: DomainCircuit,
    config: CircuitBreakerConfig,
    now: u128,
) -> int {
    if reset_due(c, config, now) {
        1
    } else {
        c.failures + 1
    }
}

/// Whether a failed request opens the circuit.
pub open spec fn failure_opens(c: DomainCircuit, config: CircuitBreakerConfig, now: u128) -> bool {
    c.state == CircuitState::HalfOpen || (c.state == CircuitState::Closed && failures_counted(
        c,
        config,
        now,
    ) >= config.failure_threshold)
}

/// A circuit after a request that failed. A success that has grown old is
/// forgotten, so that the failures that follow add up.
pub open spec fn circuit_failed(
    c: DomainCircuit,
    config: CircuitBreakerConfig,
    now: u128,
) -> DomainCircuit {
    let opens = failure_opens(c, config, now);
    DomainCircuit {
        state: if opens {
            CircuitState::Open
        } else {
            c.state
        },
        failures: failures_counted(c, config, now) as u32,
        opened_at: if opens {
            Some(now)
        } else {
            c.opened_at
        },
        last_success: if reset_due(c, config, now) {
            None
        } else {
            c.last_success
        },
    }
}

/// Whether a breaker behaves as by default and nothing is known of any domain.
pub open spec fn new_breaker(b: BreakerView) -> bool {
    &&& b.circuits == Map::<Seq<char>, DomainCircuit>::empty()
    &&& b.testers == Map::<Seq<char>, u128>::empty()
    &&& b.config.failure_threshold == 5
    &&& b.config.cooldown_duration == 60_000_000_000
    &&& b.config.success_reset_duration == 300_000_000_000
}

/// The downloads that test services, but for one of them.
pub open spec fn testers_without(m: Map<Seq<char>, u128>, id: u128) -> Map<Seq<char>, u128> {
    Map::new(|d: Seq<char>| m.contains_key(d) && m[d] != id, |d: Seq<char>| m[d])
}

impl BreakerView {
    /// The circuit of a domain.
    pub open spec fn circuit(self, domain: Seq<char>) -> DomainCircuit {
        if self.circuits.contains_key(domain) {
            self.circuits[domain]
        } else {
            new_circuit()
        }
    }

    /// The same breaker with another circuit for one domain.
    pub open spec fn with(self, domain: Seq<char>, c: DomainCircuit) -> BreakerView {
        BreakerView { circuits: self.circuits.insert(domain, c), ..self }
    }

    /// One more failure can be counted for every domain.
    pub open spec fn countable(self) -> bool {
        forall|d: Seq<char>| #[trigger]
            self.circuits.contains_key(d) ==> self.circuits[d].failures < u32::MAX
    }

    /// After a request was asked for at the moment `now`.
    pub open spec fn checked(self, domain: Seq<char>, now: u128) -> BreakerView {
        self.with(domain, circuit_checked(self.circuit(domain), self.config, now))
    }

    /// After a request succeeded at the moment `now`, which ends a test.
    pub open spec fn succeeded(self, domain: Seq<char>, now: u128) -> BreakerView {
        BreakerView {
            testers: self.testers.remove(domain),
            ..self.with(domain, circuit_succeeded(self.circuit(domain), now))
        }
    }

    /// After a request failed at the moment `now`, which ends a test.
    pub open spec fn failed(self, domain: Seq<char>, now: u128) -> BreakerView {
        BreakerView {
            testers: self.testers.remove(domain),
            ..self.with(domain, circuit_failed(self.circuit(domain), self.config, now))
        }
    }

    /// Whether requests to a domain are blocked: its circuit is open, or half
    /// open while a download tests the service.
    pub open spec fn blocks(self, domain: Seq<char>) -> bool {
        match self.circuit(domain).state {
            CircuitState::Closed => false,
            CircuitState::Open => true,
            CircuitState::HalfOpen => self.testers.contains_key(domain),
        }
    }

    /// With a download that starts: behind a half open circuit it tests the
    /// service.
    pub open spec fn passed(self, domain: Seq<char>, id: u128) -> BreakerView {
        if self.circuit(domain).state == CircuitState::HalfOpen {
            BreakerView { testers: self.testers.insert(domain, id), ..self }
        } else {
            self
        }
    }

    /// After a download stopped, which ends a test without a result.
    pub open spec fn released(self, id: u128) -> BreakerView {
        BreakerView { testers: testers_without(self.testers, id), ..self }
    }

    /// With nothing known of a domain.
    pub open spec fn forgotten(self, domain: Seq<char>) -> BreakerView {
        BreakerView {
            circuits: self.circuits.remove(domain),
            testers: self.testers.remove(domain),
            ..self
        }
    }

    /// With nothing known of any domain.
    pub open spec fn emptied(self) -> BreakerView {
        BreakerView { circuits: Map::empty(), testers: Map::empty(), ..self }
    }
}

// ---------------------------------------------------------------------------
// Laws
// ---------------------------------------------------------------------------

/// What an open circuit waits for, and what failures do to a circuit: it is half
/// open once the cooldown has passed; a failure adds to those in a row, or starts
/// over once the last success has grown too old; it opens a half open circuit, and
/// a closed one when the threshold is reached.
pub proof fn law_circuit_by_its_numbers(c: DomainCircuit, config: CircuitBreakerConfig, now: u128)
    requires
        c.failures < u32::MAX,
    ensures
        ({
            let r = circuit_checked(c, config, now);
            let cooled = c.opened_at is Some && (now - c.opened_at->0 >= config.cooldown_duration
                || config.cooldown_duration == 0);
            &&& c.state == CircuitState::Open && cooled ==> r.state == CircuitState::HalfOpen
            &&& !(c.state == CircuitState::Open && cooled) ==> r.state == c.state
            &&& r.failures == c.failures
            &&& r.opened_at == c.opened_at
            &&& r.last_success == c.last_success
        }),
        ({
            let r = circuit_failed(c, config, now);
            let old = c.last_success is Some && now - c.last_success->0
                > config.success_reset_duration;
            let opens = c.state == CircuitState::HalfOpen || (c.state == CircuitState::Closed
                && r.failures >= config.failure_threshold);
            &&& old ==> r.failures == 1 && r.last_success is None
            &&& !old ==> r.failures == c.failures + 1 && r.last_success == c.last_success
            &&& opens ==> r.state == CircuitState::Open && r.opened_at == Some(now)
            &&& !opens ==> r.state == c.state && r.opened_at == c.opened_at
        }),
        ({
            let r = circuit_succeeded(c, now);
            &&& r.state == CircuitState::Closed
            &&& r.failures == 0
            &&& r.opened_at is None
            &&& r.last_success == Some(now)
        }),
{
}

/// Requests pass while a circuit is closed, and never while it is open; while it is
/// half open, they pass unless a download tests the service. Of an unknown domain
/// the circuit is closed.
pub proof fn law_what_passes(b: BreakerView, domain: Seq<char>, id: u128)
    ensures
        b.circuit(domain).state == CircuitState::Closed ==> !b.blocks(domain),
        b.circuit(domain).state == CircuitState::Open ==> b.blocks(domain),
        b.circuit(domain).state == CircuitState::HalfOpen ==> (b.blocks(domain)
            <==> b.testers.contains_key(domain)),
        !b.circuits.contains_key(domain) ==> !b.blocks(domain) && b.circuit(domain).failures == 0
            && b.circuit(domain).last_success is None && b.circuit(domain).opened_at is None,
        b.circuit(domain).state != CircuitState::HalfOpen ==> b.passed(domain, id) == b,
        b.passed(domain, id).circuits == b.circuits,
        b.passed(domain, id).config == b.config,
{
}

/// A domain that is forgotten is as one that nothing was known of, and no other
/// domain changes; so are all when all are.
pub proof fn law_forgetting(b: BreakerView, domain: Seq<char>, other: Seq<char>)
    ensures
        !b.forgotten(domain).circuits.contains_key(domain),
        !b.forgotten(domain).testers.contains_key(domain),
        other != domain ==> b.forgotten(domain).circuit(other) == b.circuit(other)
            && b.forgotten(domain).blocks(other) == b.blocks(other),
        !b.emptied().circuits.contains_key(other),
        !b.emptied().blocks(other),
        b.forgotten(domain).config == b.config,
        b.emptied().config == b.config,
{
}

/// A download that stops gives up its tests, and no other gives up any.
pub proof fn law_only_its_own_tests(b: BreakerView, id: u128, domain: Seq<char>)
    ensures
        b.released(id).testers.contains_key(domain) <==> b.testers.contains_key(domain)
            && b.testers[domain] != id,
        b.released(id).testers.contains_key(domain) ==> b.released(id).testers[domain]
            == b.testers[domain],
        b.released(id).circuits == b.circuits,
        b.released(id).config == b.config,
{
}

/// A breaker that knows nothing opens after five failures, waits a minute, and forgets
/// failures five minutes after a success.
pub proof fn law_new_breakers(b: BreakerView, domain: Seq<char>)
    requires
        new_breaker(b),
    ensures
        !b.blocks(domain),
        b.circuit(domain).failures == 0,
        b.config.failure_threshold == 5,
        b.config.cooldown_duration == 60 * 1_000_000_000,
        b.config.success_reset_duration == 5 * 60 * 1_000_000_000,
        b.testers == Map::<Seq<char>, u128>::empty(),
{
}

/// A circuit after requests that failed one after another at the given moments.
pub open spec fn failed_in_a_row(
    c: DomainCircuit,
    config: CircuitBreakerConfig,
    moments: Seq<u128>,
) -> DomainCircuit
    decreases moments.len(),
{
    if moments.len() == 0 {
        c
    } else {
        circuit_failed(
            failed_in_a_row(c, config, moments.drop_last()),
            config,
            moments.last(),
        )
    }
}

/// A closed circuit opens with the failure that reaches the threshold, and no
/// sooner. The last success, if there is one, grows old before the first of the
/// failures or not before the last.
pub proof fn law_opens_at_threshold(
    c: DomainCircuit,
    config: CircuitBreakerConfig,
    moments: Seq<u128>,
)
    requires
        c.state == CircuitState::Closed,
        moments.len() >= 1,
        c.failures + moments.len() <= u32::MAX,
        reset_due(c, config, moments[0]) || forall|i: int|
            0 <= i < moments.len() ==> !reset_due(c, config, #[trigger] moments[i]),
    ensures
        ({
            let count = failures_counted(c, config, moments[0]) + moments.len() - 1;
            let r = failed_in_a_row(c, config, moments);
            &&& r.failures == count
            &&& r.failures >= moments.len()
            &&& r.state == (if count >= config.failure_threshold {
                CircuitState::Open
            } else {
                CircuitState::Closed
            })
            &&& r.last_success == (if reset_due(c, config, moments[0]) {
                None
            } else {
                c.last_success
            })
        }),
    decreases moments.len(),
{
    let before = moments.drop_last();
    if before.len() == 0 {
        assert(failed_in_a_row(c, config, before) == c);
    } else {
        assert forall|i: int| 0 <= i < before.len() && !reset_due(c, config, moments[0]) implies
            !reset_due(c, config, #[trigger] before[i]) by {
            assert(before[i] == moments[i]);
        }
        law_opens_at_threshold(c, config, before);
        assert(moments.last() == moments[moments.len() - 1]);
    }
}

/// What failures make of a closed circuit: it is open, or closed with a count
/// below the threshold, and the count falls once at most.
proof fn lemma_failures_add_up(
    c: DomainCircuit,
    config: CircuitBreakerConfig,
    moments: Seq<u128>,
)
    requires
        c.state == CircuitState::Closed,
        c.failures + moments.len() <= u32::MAX,
    ensures
        ({
            let r = failed_in_a_row(c, config, moments);
            let n = moments.len();
            &&& r.failures <= c.failures + n
            &&& r.state == CircuitState::Open || r.state == CircuitState::Closed
            &&& r.state == CircuitState::Closed && n > 0 ==> r.failures < config.failure_threshold
            &&& r.last_success is Some ==> r.failures == c.failures + n
            &&& r.state == CircuitState::Closed && c.last_success is None ==> r.failures
                == c.failures + n
            &&& r.state == CircuitState::Closed && n > 0 ==> r.failures >= n || r.failures + config.failure_threshold
                > n
            &&& r.last_success is Some ==> c.last_success is Some
        }),
    decreases moments.len(),
{
    if moments.len() > 0 {
        lemma_failures_add_up(c, config, moments.drop_last());
    }
}

/// Every closed circuit opens in the end: twice as many failures in a row as
/// the threshold says are enough, whenever they happen.
pub proof fn law_failures_open_in_the_end(
    c: DomainCircuit,
    config: CircuitBreakerConfig,
    moments: Seq<u128>,
)
    requires
        c.state == CircuitState::Closed,
        moments.len() >= 1,
        moments.len() + 1 >= 2 * config.failure_threshold,
        c.failures + moments.len() <= u32::MAX,
    ensures
        failed_in_a_row(c, config, moments).state == CircuitState::Open,
{
    lemma_failures_add_up(c, config, moments);
}

/// A success closes a circuit and forgets its failures, whatever it was before.
pub proof fn law_success_resets(b: BreakerView, domain: Seq<char>, now: u128)
    ensures
        b.succeeded(domain, now).circuit(domain).state == CircuitState::Closed,
        b.succeeded(domain, now).circuit(domain).failures == 0,
{
}

/// What happens to one domain does not touch another.
pub proof fn law_domains_independent(
    b: BreakerView,
    domain: Seq<char>,
    other: Seq<char>,
    now: u128,
)
    requires
        domain != other,
    ensures
        b.checked(domain, now).circuit(other) == b.circuit(other),
        b.succeeded(domain, now).circuit(other) == b.circuit(other),
        b.failed(domain, now).circuit(other) == b.circuit(other),
{
}

/// Behind a half open circuit one download passes and no other, until it
/// succeeds, fails or stops: a success closes the circuit, a failure opens it,
/// and if it stops, another download may pass.
pub proof fn law_one_test_at_a_time(
    b: BreakerView,
    domain: Seq<char>,
    id: u128,
    other: u128,
    now: u128,
)
    requires
        b.circuit(domain).state == CircuitState::HalfOpen,
        !b.blocks(domain),
    ensures
        b.passed(domain, id).blocks(domain),
        b.passed(domain, id).checked(domain, now).blocks(domain),
        id != other ==> b.passed(domain, id).released(other).blocks(domain),
        !b.passed(domain, id).succeeded(domain, now).blocks(domain),
        b.passed(domain, id).failed(domain, now).circuit(domain).state == CircuitState::Open,
        b.passed(domain, id).released(id).circuit(domain).state == CircuitState::HalfOpen,
        !b.passed(domain, id).released(id).blocks(domain),
{
}

/// A circuit that a failure opened stays open until the cooldown is over; then
/// it is half open, and if a request fails then, it is open again from that
/// moment on.
pub proof fn law_cooldown(
    c: DomainCircuit,
    config: CircuitBreakerConfig,
    opened: u128,
    now: u128,
)
    requires
        failure_opens(c, config, opened),
    ensures
        circuit_checked(circuit_failed(c, config, opened), config, now).state == (if elapsed(
            opened,
            now,
        ) >= config.cooldown_duration {
            CircuitState::HalfOpen
        } else {
            CircuitState::Open
        }),
        elapsed(opened, now) >= config.cooldown_duration ==> circuit_failed(
            circuit_checked(circuit_failed(c, config, opened), config, now),
            config,
            now,
        ).opened_at == Some(now),
{
}

impl CircuitBreaker {
    /// A breaker with the default behaviour and nothing known of any domain.
    pub fn new() -> (r: CircuitBreaker)
        ensures
            new_breaker(r@),
    {
        let config: CircuitBreakerConfig = CircuitBreakerConfig::default();
        Self::with_config(config)
    }

    /// A breaker with the given behaviour and nothing known of any domain.
    pub fn with_config(config: CircuitBreakerConfig) -> (r: CircuitBreaker)
        ensures
            r@ == (BreakerView { config, circuits: Map::empty(), testers: Map::empty() }),
    {
        CircuitBreaker {
            config,
            circuits: TextMap::new(),
            testers: TextMap::new(),
            start: instant_now(),
        }
    }

    fn circuit(&self, domain: &str) -> (r: DomainCircuit)
        ensures
            r == self@.circuit(domain@),
    {
        match self.circuits.get(domain) {
            Some(c) => *c,
            None => DomainCircuit {
                state: CircuitState::Closed,
                failures: 0,
                opened_at: None,
                last_success: None,
            },
        }
    }

    /// The state of the circuit of a domain, asked at the moment `now` whether a
    /// request may pass.
    pub fn can_request_at(&mut self, domain: &str, now: u128) -> (r: CircuitState)
        ensures
            final(self)@ == old(self)@.checked(domain@, now),
            r == final(self)@.circuit(domain@).state,
    {
        let mut c = self.circuit(domain);
        if c.state == CircuitState::Open {
            if let Some(opened) = c.opened_at {
                let waited: u128 = if now <= opened {
                    0
                } else {
                    now - opened
                };
                if waited >= self.config.cooldown_duration {
                    c = DomainCircuit { state: CircuitState::HalfOpen, ..c };
                }
            }
        }
        self.circuits.insert(domain.to_owned(), c);
        c.state
    }

    /// The state of the circuit of a domain, asked now whether a request may
    /// pass.
    pub fn can_request(&mut self, domain: &str) -> (r: CircuitState)
        ensures
            exists|now: u128| final(self)@ == #[trigger] old(self)@.checked(domain@, now),
            r == final(self)@.circuit(domain@).state,
    {
        let now: u128 = self.present();
        self.can_request_at(domain, now)
    }

    /// Whether requests to a domain are blocked, as things stand.
    pub fn blocks(&self, domain: &str) -> (r: bool)
        ensures
            r == self@.blocks(domain@),
    {
        match self.circuit(domain).state {
            CircuitState::Closed => false,
            CircuitState::Open => true,
            CircuitState::HalfOpen => self.testers.contains_key(domain),
        }
    }

    /// Lets a download pass: behind a half open circuit it tests the service.
    pub fn let_pass(&mut self, domain: &str, id: u128)
        ensures
            final(self)@ == old(self)@.passed(domain@, id),
    {
        if self.circuit(domain).state == CircuitState::HalfOpen {
            self.testers.insert(domain.to_owned(), id);
        }
    }

    /// Ends the test that a download makes, if it makes one, without a result.
    pub fn release(&mut self, id: u128)
        ensures
            final(self)@ == old(self)@.released(id),
    {
        let n: usize = self.testers.len();
        let ghost ps = self.testers.pairs();
        let mut kept: TextMap<u128> = TextMap::new();
        assert(ps.take(0) =~= Seq::<(Seq<char>, u128)>::empty());
        proof {
            lemma_map_of(ps.take(0));
            assert(map_of(ps.take(0)) =~= Map::empty());
            assert(kept@ =~= testers_without(map_of(ps.take(0)), id));
        }
        for i in 0..n
            invariant
                *self == *old(self),
                n == ps.len(),
                ps == self.testers.pairs(),
                keys_distinct(ps),
                kept@ == testers_without(map_of(ps.take(i as int)), id),
        {
            let tester: u128 = *self.testers.value_at(i);
            proof {
                lemma_map_of_take(ps, i as int);
            }
            let ghost before = map_of(ps.take(i as int));
            let ghost k = ps[i as int].0;
            assert(!before.contains_key(k)) by {
                lemma_map_of(ps.take(i as int));
            }
            if tester != id {
                kept.insert(self.testers.key_at(i).clone(), tester);
            }
            assert(kept@ =~= testers_without(before.insert(k, tester), id));
        }
        assert(ps.take(n as int) =~= ps);
        self.testers = kept;
    }

    /// The present moment of the breaker's clock.
    pub(crate) fn present(&self) -> (r: u128) {
        nanos_since(&self.start)
    }

    /// Records that a request succeeded at the moment `now`.
    pub fn record_success_at(&mut self, domain: &str, now: u128)
        ensures
            final(self)@ == old(self)@.succeeded(domain@, now),
    {
        let c = DomainCircuit {
            state: CircuitState::Closed,
            failures: 0,
            opened_at: None,
            last_success: Some(now),
        };
        self.circuits.insert(domain.to_owned(), c);
        let _ = self.testers.remove(domain);
    }

    /// Records that a request succeeded now.
    pub fn record_success(&mut self, domain: &str)
        ensures
            exists|now: u128| final(self)@ == #[trigger] old(self)@.succeeded(domain@, now),
    {
        let now: u128 = self.present();
        self.record_success_at(domain, now)
    }

    /// Records that a request failed at the moment `now`, and says whether that
    /// opened the circuit.
    pub fn record_failure_at(&mut self, domain: &str, now: u128) -> (r: bool)
        requires
            old(self)@.circuit(domain@).failures < u32::MAX,
        ensures
            final(self)@ == old(self)@.failed(domain@, now),
            r == failure_opens(old(self)@.circuit(domain@), old(self)@.config, now),
    {
        let c = self.circuit(domain);
        let mut failures: u32 = c.failures;
        let mut last_success = c.last_success;
        if let Some(last) = c.last_success {
            let waited: u128 = if now <= last {
                0
            } else {
                now - last
            };
            if waited > self.config.success_reset_duration {
                failures = 0;
                last_success = None;
            }
        }
        failures = failures + 1;
        let opens: bool = c.state == CircuitState::HalfOpen || (c.state == CircuitState::Closed
            && failures >= self.config.failure_threshold);
        let next = if opens {
            DomainCircuit {
                state: CircuitState::Open,
                failures,
                opened_at: Some(now),
                last_success,
            }
        } else {
            DomainCircuit { failures, last_success, ..c }
        };
        self.circuits.insert(domain.to_owned(), next);
        let _ = self.testers.remove(domain);
        opens
    }

    /// Records that a request failed now, and says whether that opened the
    /// circuit.
    pub fn record_failure(&mut self, domain: &str) -> (r: bool)
        requires
            old(self)@.circuit(domain@).failures < u32::MAX,
        ensures
            exists|now: u128|
                final(self)@ == #[trigger] old(self)@.failed(domain@, now) && r == failure_opens(
                    old(self)@.circuit(domain@),
                    old(self)@.config,
                    now,
                ),
    {
        let now: u128 = self.present();
        self.record_failure_at(domain, now)
    }

    /// The state of a domain's circuit and its failures in a row.
    pub fn get_status(&self, domain: &str) -> (r: (CircuitState, u32))
        ensures
            r.0 == self@.circuit(domain@).state,
            r.1 == self@.circuit(domain@).failures,
    {
        let c = self.circuit(domain);
        (c.state, c.failures)
    }

    /// Whether the circuit of a domain is open now.
    pub fn is_open(&mut self, domain: &str) -> (r: bool)
        ensures
            exists|now: u128| final(self)@ == #[trigger] old(self)@.checked(domain@, now),
            r == (final(self)@.circuit(domain@).state == CircuitState::Open),
    {
        let state = self.can_request(domain);
        state == CircuitState::Open
    }

    /// Forgets what is known of a domain.
    pub fn reset(&mut self, domain: &str)
        ensures
            final(self)@ == old(self)@.forgotten(domain@),
    {
        let _ = self.circuits.remove(domain);
        let _ = self.testers.remove(domain);
    }

    /// Forgets what is known of all domains.
    pub fn clear_all(&mut self)
        ensures
            final(self)@ == old(self)@.emptied(),
    {
        self.circuits.clear();
        self.testers.clear();
    }

    /// Whether one more failure can be counted for every domain.
    pub fn can_count(&self) -> (r: bool)
        ensures
            r == self@.countable(),
    {
        let n: usize = self.circuits.len();
        let ghost ps = self.circuits.pairs();
        proof {
            crate::text_map::lemma_map_of(ps);
        }
        for i in 0..n
            invariant
                n == ps.len(),
                ps == self.circuits.pairs(),
                crate::text_map::keys_distinct(ps),
                forall|k: int| 0 <= k < i ==> (#[trigger] ps[k]).1.failures < u32::MAX,
        {
            if self.circuits.value_at(i).failures == u32::MAX {
                proof {
                    crate::text_map::lemma_map_of(ps);
                    assert(self@.circuits.contains_key(ps[i as int].0));
                }
                return false;
            }
        }
        true
    }

    /// The domains whose circuits are open, each once.
    pub fn get_open_circuits(&self) -> (r: Vec<String>)
        ensures
            texts(r@).no_duplicates(),
            forall|d: Seq<char>| #[trigger]
                texts(r@).contains(d) <==> self@.circuits.contains_key(d) && self@.circuits[d].state
                    == CircuitState::Open,
    {
        let mut out: Vec<String> = Vec::new();
        let n: usize = self.circuits.len();
        let ghost ps = self.circuits.pairs();
        for i in 0..n
            invariant
                n == ps.len(),
                ps == self.circuits.pairs(),
                forall|d: Seq<char>| #[trigger]
                    texts(out@).contains(d) <==> exists|k: int|
                        0 <= k < i && (#[trigger] ps[k]).0 == d && ps[k].1.state
                            == CircuitState::Open,
                texts(out@).no_duplicates(),
                crate::text_map::keys_distinct(ps),
        {
            if self.circuits.value_at(i).state == CircuitState::Open {
                let d = self.circuits.key_at(i).clone();
                let ghost before = texts(out@);
                out.push(d);
                proof {
                    assert(texts(out@) =~= before.push(d@));
                    assert(!before.contains(d@));
                    assert forall|e: Seq<char>| #[trigger] texts(out@).contains(e) <==> exists|k: int|
                        0 <= k < i + 1 && (#[trigger] ps[k]).0 == e && ps[k].1.state
                            == CircuitState::Open by {
                        if texts(out@).contains(e) {
                            if e == d@ {
                                assert(ps[i as int].0 == e);
                            } else {
                                let j = choose|j: int|
                                    0 <= j < texts(out@).len() && texts(out@)[j] == e;
                                assert(before[j] == e);
                                assert(before.contains(e));
                            }
                        }
                        if exists|k: int|
                            0 <= k < i + 1 && (#[trigger] ps[k]).0 == e && ps[k].1.state
                                == CircuitState::Open {
                            let k = choose|k: int|
                                0 <= k < i + 1 && (#[trigger] ps[k]).0 == e && ps[k].1.state
                                    == CircuitState::Open;
                            if k < i {
                                assert(before.contains(e));
                                let j = choose|j: int| 0 <= j < before.len() && before[j] == e;
                                assert(texts(out@)[j] == e);
                            } else {
                                assert(texts(out@)[before.len() as int] == e);
                            }
                        }
                    }
                }
            } else {
                proof {
                    assert forall|e: Seq<char>| #[trigger] texts(out@).contains(e) <==> exists|k: int|
                        0 <= k < i + 1 && (#[trigger] ps[k]).0 == e && ps[k].1.state
                            == CircuitState::Open by {}
                }
            }
        }
        proof {
            lemma_map_of(ps);
            assert forall|d: Seq<char>| #[trigger] texts(out@).contains(d) <==> self@.circuits.contains_key(d)
                && self@.circuits[d].state == CircuitState::Open by {
                if texts(out@).contains(d) {
                    let k = choose|k: int|
                        0 <= k < n && (#[trigger] ps[k]).0 == d && ps[k].1.state
                            == CircuitState::Open;
                    assert(self@.circuits.contains_key(ps[k].0));
                }
                if self@.circuits.contains_key(d) && self@.circuits[d].state == CircuitState::Open {
                    let k = key_index(ps, d);
                    assert(ps[k].0 == d && ps[k].1.state == CircuitState::Open);
                }
            }
        }
        out
    }
}

impl Default for CircuitBreaker {
    fn default() -> (r: CircuitBreaker)
        ensures
            new_breaker(r@),
    {
        Self::new()
    }
}

/// The domain that a URL is tracked under: its host, if it has one.
pub open spec fn domain_of(url: Seq<char>) -> Option<Seq<char>> {
    match url_parts(url) {
        Some(u) => u.host,
        None => None,
    }
}

/// The domain that a URL is tracked under.
pub fn extract_domain(url: &str) -> (r: Option<String>)
    ensures
        crate::text::opt_text(r) == domain_of(url@),
{
    match parse_url(url) {
        Some(u) => u.host,
        None => None,
    }
}

/// A failure that opens a circuit is told as such: it opens a half open one, and a closed
/// one when so many in a row have failed. A success closes it.
pub proof fn law_record_failure(b: &mut CircuitBreaker, domain: &str, now: u128, r: bool)
    requires
        old(b)@.circuit(domain@).failures < u32::MAX,
        call_ensures(CircuitBreaker::record_failure_at, (b, domain, now), r),
    ensures
        ({
            let before = old(b)@.circuit(domain@);
            let after = final(b)@.circuit(domain@);
            &&& r <==> before.state == CircuitState::HalfOpen || (before.state
                == CircuitState::Closed && after.failures >= old(b)@.config.failure_threshold)
            &&& r ==> after.state == CircuitState::Open && after.opened_at == Some(now)
            &&& !r ==> after.state == before.state && after.opened_at == before.opened_at
            &&& after.failures == before.failures + 1 || (after.failures == 1
                && before.last_success is Some && now - before.last_success->0
                > old(b)@.config.success_reset_duration)
        }),
{
    law_circuit_by_its_numbers(old(b)@.circuit(domain@), old(b)@.config, now);
}

/// A request may be made while the circuit is not open; an open one lets the next
/// request test the service once it has cooled down.
pub proof fn law_can_request(b: &mut CircuitBreaker, domain: &str, now: u128, r: CircuitState)
    requires
        old(b)@.circuit(domain@).failures < u32::MAX,
        call_ensures(CircuitBreaker::can_request_at, (b, domain, now), r),
    ensures
        ({
            let c = old(b)@.circuit(domain@);
            let cooled = c.opened_at is Some && (now - c.opened_at->0
                >= old(b)@.config.cooldown_duration || old(b)@.config.cooldown_duration == 0);
            &&& c.state == CircuitState::Open && cooled ==> r == CircuitState::HalfOpen
            &&& !(c.state == CircuitState::Open && cooled) ==> r == c.state
            &&& final(b)@.circuit(domain@).failures == c.failures
            &&& final(b)@.testers == old(b)@.testers
        }),
{
    law_circuit_by_its_numbers(old(b)@.circuit(domain@), old(b)@.config, now);
}

/// The domain of a URL is its host.
pub proof fn law_extract_domain(url: &str, r: Option<String>)
    requires
        call_ensures(extract_domain, (url,), r),
    ensures
        url_parts(url@) is None ==> r is None,
        url_parts(url@) is Some ==> crate::text::opt_text(r) == url_parts(url@)->0.host,
{
}

} // verus!
