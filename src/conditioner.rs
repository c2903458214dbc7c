use vstd::prelude::*;

use crate::delay_queue::{insert_by_release, sorted_by_release, DelayQueue};
use crate::error::{ClientSocketError, ConfigError};
use crate::packet::Packet;

verus! {

/// Probabilities are counted in millionths: this value stands for one.
pub const PROBABILITY_SCALE: u32 = 1000000;

/// How a link conditioner perturbs traffic. Probabilities are in millionths
/// (`PROBABILITY_SCALE` is certainty); durations are in milliseconds.
#[derive(Clone, Copy, Debug, PartialEq, Eq, Structural)]
pub struct LinkConditionerConfig {
    /// Chance that a packet is silently discarded.
    pub packet_loss_probability: u32,
    /// Chance that a surviving packet is scheduled twice.
    pub packet_duplication_probability: u32,
    /// Base delay applied to every surviving packet.
    pub min_latency: u64,
    /// Largest extra delay drawn per packet.
    pub jitter: u64,
}

impl LinkConditionerConfig {
    /// Both probabilities lie in [0, 1].
    pub open spec fn wf(&self) -> bool {
        self.packet_loss_probability <= PROBABILITY_SCALE
            && self.packet_duplication_probability <= PROBABILITY_SCALE
    }

    /// A configuration, refused when a probability lies above one.
    pub fn new(
        packet_loss_probability: u32,
        packet_duplication_probability: u32,
        min_latency: u64,
        jitter: u64,
    ) -> (r: Result<LinkConditionerConfig, ConfigError>)
        ensures
            packet_loss_probability > PROBABILITY_SCALE ==> r == Err::<
                LinkConditionerConfig,
                ConfigError,
            >(ConfigError::LossProbabilityOutOfRange),
            packet_loss_probability <= PROBABILITY_SCALE && packet_duplication_probability
                > PROBABILITY_SCALE ==> r == Err::<LinkConditionerConfig, ConfigError>(
                ConfigError::DuplicationProbabilityOutOfRange,
            ),
            packet_loss_probability <= PROBABILITY_SCALE && packet_duplication_probability
                <= PROBABILITY_SCALE ==> r == Ok::<LinkConditionerConfig, ConfigError>(
                (LinkConditionerConfig {
                    packet_loss_probability,
                    packet_duplication_probability,
                    min_latency,
                    jitter,
                }),
            ),
    {
        if packet_loss_probability > PROBABILITY_SCALE {
            Err(ConfigError::LossProbabilityOutOfRange)
        } else if packet_duplication_probability > PROBABILITY_SCALE {
            Err(ConfigError::DuplicationProbabilityOutOfRange)
        } else {
            Ok(
                LinkConditionerConfig {
                    packet_loss_probability,
                    packet_duplication_probability,
                    min_latency,
                    jitter,
                },
            )
        }
    }

    /// Whether the configuration is in range.
    pub fn is_valid(&self) -> (r: bool)
        ensures
            r == self.wf(),
    {
        self.packet_loss_probability <= PROBABILITY_SCALE
            && self.packet_duplication_probability <= PROBABILITY_SCALE
    }
}

/// The random values drawn for one packet: two uniform draws in
/// [0, `PROBABILITY_SCALE`) and two jitter draws in [0, `jitter`].
#[derive(Clone, Copy, Debug, PartialEq, Eq, Structural)]
pub struct Draws {
    pub loss: u32,
    pub duplication: u32,
    pub jitter: u64,
    pub duplicate_jitter: u64,
}

impl Draws {
    /// The draws lie in the ranges that `config` gives them.
    pub open spec fn fit(&self, config: LinkConditionerConfig) -> bool {
        self.loss < PROBABILITY_SCALE && self.duplication < PROBABILITY_SCALE && self.jitter
            <= config.jitter && self.duplicate_jitter <= config.jitter
    }

    /// Whether the draws lie in the ranges that `config` gives them.
    pub fn fits(&self, config: &LinkConditionerConfig) -> (r: bool)
        ensures
            r == self.fit(*config),
    {
        self.loss < PROBABILITY_SCALE && self.duplication < PROBABILITY_SCALE && self.jitter
            <= config.jitter && self.duplicate_jitter <= config.jitter
    }
}

/// The instant `delay` milliseconds after `now`, held at the largest time
/// when it lies beyond it.
pub open spec fn release_time(now: u64, delay: int) -> u64 {
    if now + delay > u64::MAX {
        u64::MAX
    } else {
        (now + delay) as u64
    }
}

/// The release times at which a packet seen at `now` is scheduled: none when
/// the loss draw falls under the loss probability; otherwise one at
/// `now + min_latency + jitter`, and a second, separately jittered one when
/// the duplication draw falls under the duplication probability.
pub open spec fn planned_releases(config: LinkConditionerConfig, now: u64, draws: Draws) -> Seq<u64> {
    if draws.loss < config.packet_loss_probability {
        seq![]
    } else if draws.duplication < config.packet_duplication_probability {
        seq![
            release_time(now, config.min_latency + draws.jitter),
            release_time(now, config.min_latency + draws.duplicate_jitter),
        ]
    } else {
        seq![release_time(now, config.min_latency + draws.jitter)]
    }
}

/// `q` with an entry for `p` put in its place for the first time of
/// `releases`, then for the second (a packet is never planned more than
/// twice).
pub open spec fn schedule_all(q: Seq<(u64, Seq<u8>)>, releases: Seq<u64>, p: Seq<u8>) -> Seq<
    (u64, Seq<u8>),
> {
    if releases.len() == 0 {
        q
    } else if releases.len() == 1 {
        insert_by_release(q, releases[0], p)
    } else {
        insert_by_release(insert_by_release(q, releases[0], p), releases[1], p)
    }
}

/// The instant `latency + extra` milliseconds after `now`, held at the
/// largest time.
fn release_after(now: u64, latency: u64, extra: u64) -> (r: u64)
    ensures
        r == release_time(now, latency + extra),
{
    now.saturating_add(latency.saturating_add(extra))
}

/// Decides, from the draws made for one packet seen at `now`, at which times
/// it is to be released.
pub fn plan_delivery(config: &LinkConditionerConfig, now: u64, draws: Draws) -> (r: Vec<u64>)
    requires
        config.wf(),
        draws.fit(*config),
    ensures
        r@ == planned_releases(*config, now, draws),
{
    if draws.loss < config.packet_loss_probability {
        Vec::new()
    } else {
        let first = release_after(now, config.min_latency, draws.jitter);
        if draws.duplication < config.packet_duplication_probability {
            let second = release_after(now, config.min_latency, draws.duplicate_jitter);
            let r = vec![first, second];
            assert(r@ =~= planned_releases(*config, now, draws));
            r
        } else {
            let r = vec![first];
            assert(r@ =~= planned_releases(*config, now, draws));
            r
        }
    }
}

/// One direction of a link conditioner: packets pass through a drop test,
/// an optional duplication, and a delay, and wait in a queue until due.
pub struct LinkConditioner {
    config: LinkConditionerConfig,
    queue: DelayQueue,
}

impl LinkConditioner {
    /// The configuration in force.
    pub closed spec fn config_spec(&self) -> LinkConditionerConfig {
        self.config
    }

    /// The packets held back, with their release times, earliest first.
    pub closed spec fn pending(&self) -> Seq<(u64, Seq<u8>)> {
        self.queue@
    }

    /// The conditioner's invariant.
    pub closed spec fn wf(&self) -> bool {
        self.config.wf() && self.queue.wf()
    }

    /// A conditioner holding nothing.
    pub fn new(config: LinkConditionerConfig) -> (r: LinkConditioner)
        requires
            config.wf(),
        ensures
            r.wf(),
            r.config_spec() == config,
            r.pending() == Seq::<(u64, Seq<u8>)>::empty(),
    {
        LinkConditioner { config, queue: DelayQueue::new() }
    }

    /// The configuration in force.
    pub fn config(&self) -> (r: LinkConditionerConfig)
        ensures
            r == self.config_spec(),
    {
        self.config
    }

    /// Pending release times never decrease.
    pub proof fn lemma_pending_sorted(&self)
        requires
            self.wf(),
        ensures
            sorted_by_release(self.pending()),
            self.config_spec().wf(),
    {
    }

    /// Number of packets held back.
    pub fn pending_len(&self) -> (r: usize)
        ensures
            r as int == self.pending().len(),
    {
        self.queue.len()
    }

    /// Subjects `packet`, seen at `now`, to the drop test, the duplication
    /// test and the delay, with the random values in `draws`, and holds each
    /// surviving copy until its release time.
    pub fn condition(&mut self, packet: Packet, now: u64, draws: Draws)
        requires
            old(self).wf(),
            draws.fit(old(self).config_spec()),
        ensures
            final(self).wf(),
            final(self).config_spec() == old(self).config_spec(),
            final(self).pending() == schedule_all(
                old(self).pending(),
                planned_releases(old(self).config_spec(), now, draws),
                packet@,
            ),
    {
        let releases = plan_delivery(&self.config, now, draws);
        if releases.len() == 1 {
            self.queue.schedule(releases[0], packet);
        } else if releases.len() == 2 {
            self.queue.schedule(releases[0], packet.duplicate());
            self.queue.schedule(releases[1], packet);
        }
    }

    /// Takes one result of the wrapped transport's `receive`, seen at `now`:
    /// a packet is conditioned with `draws` and `Ok(true)` says to poll the
    /// wrapped transport again; `Ok(None)` gives `Ok(false)`; an error is
    /// handed back exactly as it came, and nothing is held for it.
    pub fn intercept_receive(
        &mut self,
        inner: Result<Option<Packet>, ClientSocketError>,
        now: u64,
        draws: Draws,
    ) -> (r: Result<bool, ClientSocketError>)
        requires
            old(self).wf(),
            draws.fit(old(self).config_spec()),
        ensures
            final(self).wf(),
            final(self).config_spec() == old(self).config_spec(),
            match inner {
                Ok(Some(p)) => r == Ok::<bool, ClientSocketError>(true) && final(self).pending()
                    == schedule_all(
                    old(self).pending(),
                    planned_releases(old(self).config_spec(), now, draws),
                    p@,
                ),
                Ok(None) => r == Ok::<bool, ClientSocketError>(false) && final(self).pending()
                    == old(self).pending(),
                Err(e) => r == Err::<bool, ClientSocketError>(e) && final(self).pending() == old(
                    self,
                ).pending(),
            },
    {
        match inner {
            Ok(Some(p)) => {
                self.condition(p, now, draws);
                Ok(true)
            },
            Ok(None) => Ok(false),
            Err(e) => Err(e),
        }
    }

    /// Hands out the earliest held packet if its release time has come.
    pub fn pop_due(&mut self, now: u64) -> (r: Option<Packet>)
        requires
            old(self).wf(),
        ensures
            final(self).wf(),
            final(self).config_spec() == old(self).config_spec(),
            old(self).pending().len() > 0 && old(self).pending()[0].0 <= now ==> r is Some
                && r->Some_0@ == old(self).pending()[0].1 && final(self).pending() == old(
                self,
            ).pending().drop_first(),
            !(old(self).pending().len() > 0 && old(self).pending()[0].0 <= now) ==> r is None
                && final(self).pending() == old(self).pending(),
    {
        self.queue.pop_due(now)
    }
}

/// An entry due no earlier than everything in a queue goes at its end.
pub proof fn lemma_insert_latest(q: Seq<(u64, Seq<u8>)>, r: u64, p: Seq<u8>)
    requires
        forall|i: int| 0 <= i < q.len() ==> q[i].0 <= r,
    ensures
        insert_by_release(q, r, p) == q.push((r, p)),
{
    if q.len() > 0 {
        assert(q.last() == q[q.len() - 1]);
    }
    assert(q.insert(q.len() as int, (r, p)) =~= q.push((r, p)));
}

/// With a loss probability of one, every packet is dropped: conditioning it
/// schedules nothing and leaves the held packets as they were, so nothing
/// new can ever be delivered.
pub proof fn lemma_total_loss_delivers_nothing(
    config: LinkConditionerConfig,
    q: Seq<(u64, Seq<u8>)>,
    now: u64,
    draws: Draws,
    p: Seq<u8>,
)
    requires
        config.wf(),
        config.packet_loss_probability == PROBABILITY_SCALE,
        draws.fit(config),
    ensures
        planned_releases(config, now, draws).len() == 0,
        schedule_all(q, planned_releases(config, now, draws), p) == q,
{
}

/// With no loss and no jitter, a packet seen at `now` is released
/// `min_latency` later (or at the largest time, where that lies beyond it),
/// and when every held packet is due no later, its copies join the end of
/// the queue: packets leave in the order they were seen.
pub proof fn lemma_fixed_delay_keeps_order(
    config: LinkConditionerConfig,
    q: Seq<(u64, Seq<u8>)>,
    now: u64,
    draws: Draws,
    p: Seq<u8>,
)
    requires
        config.wf(),
        config.packet_loss_probability == 0,
        config.jitter == 0,
        draws.fit(config),
        forall|i: int| 0 <= i < q.len() ==> q[i].0 <= release_time(now, config.min_latency as int),
    ensures
        planned_releases(config, now, draws).len() >= 1,
        forall|i: int|
            0 <= i < planned_releases(config, now, draws).len() ==> planned_releases(
                config,
                now,
                draws,
            )[i] == release_time(now, config.min_latency as int),
        now + config.min_latency <= u64::MAX ==> release_time(now, config.min_latency as int)
            == now + config.min_latency,
        schedule_all(q, planned_releases(config, now, draws), p) == q + planned_releases(
            config,
            now,
            draws,
        ).map_values(|r: u64| (r, p)),
{
    let t = release_time(now, config.min_latency as int);
    let rs = planned_releases(config, now, draws);
    lemma_insert_latest(q, t, p);
    let q1 = q.push((t, p));
    if rs.len() == 1 {
        assert(q + rs.map_values(|r: u64| (r, p)) =~= q1);
    } else {
        assert forall|i: int| 0 <= i < q1.len() implies q1[i].0 <= t by {
            if i < q.len() {
                assert(q1[i] == q[i]);
            }
        }
        lemma_insert_latest(q1, t, p);
        assert(q + rs.map_values(|r: u64| (r, p)) =~= q1.push((t, p)));
    }
}

/// The held packets after each `(now, draws, packet)` of `events` is
/// conditioned in turn, starting from `q`.
pub open spec fn condition_run(
    config: LinkConditionerConfig,
    q: Seq<(u64, Seq<u8>)>,
    events: Seq<(u64, Draws, Seq<u8>)>,
) -> Seq<(u64, Seq<u8>)>
    decreases events.len(),
{
    if events.len() == 0 {
        q
    } else {
        let e = events.last();
        schedule_all(condition_run(config, q, events.drop_last()), planned_releases(config, e.0, e.1), e.2)
    }
}

/// The entries that `events` add, in the order their packets were seen,
/// each packet's copies together.
pub open spec fn appended_in_order(
    config: LinkConditionerConfig,
    events: Seq<(u64, Draws, Seq<u8>)>,
) -> Seq<(u64, Seq<u8>)>
    decreases events.len(),
{
    if events.len() == 0 {
        seq![]
    } else {
        let e = events.last();
        appended_in_order(config, events.drop_last()) + planned_releases(config, e.0, e.1).map_values(
            |r: u64| (r, e.2),
        )
    }
}

/// With a loss probability of one, no number of sends delivers anything:
/// the held packets stay as they were.
pub proof fn lemma_total_loss_over_run(
    config: LinkConditionerConfig,
    q: Seq<(u64, Seq<u8>)>,
    events: Seq<(u64, Draws, Seq<u8>)>,
)
    requires
        config.wf(),
        config.packet_loss_probability == PROBABILITY_SCALE,
        forall|i: int| 0 <= i < events.len() ==> (#[trigger] events[i]).1.fit(config),
    ensures
        condition_run(config, q, events) == q,
    decreases events.len(),
{
    if events.len() > 0 {
        let e = events.last();
        assert(e == events[events.len() - 1]);
        assert forall|i: int| 0 <= i < events.drop_last().len() implies (
        #[trigger] events.drop_last()[i]).1.fit(config) by {
            assert(events.drop_last()[i] == events[i]);
        }
        lemma_total_loss_over_run(config, q, events.drop_last());
        lemma_total_loss_delivers_nothing(config, condition_run(config, q, events.drop_last()), e.0, e.1, e.2);
    }
}

/// With no loss and no jitter, when packets are seen at times that never go
/// back and nothing held is due after the first of them plus `min_latency`,
/// the packets are queued, and so released, in the order they were seen,
/// each `min_latency` after it was seen (or at the largest time).
pub proof fn lemma_fixed_delay_run_keeps_order(
    config: LinkConditionerConfig,
    q: Seq<(u64, Seq<u8>)>,
    events: Seq<(u64, Draws, Seq<u8>)>,
)
    requires
        config.wf(),
        config.packet_loss_probability == 0,
        config.jitter == 0,
        forall|i: int| 0 <= i < events.len() ==> (#[trigger] events[i]).1.fit(config),
        forall|i: int, j: int| 0 <= i <= j < events.len() ==> events[i].0 <= events[j].0,
        events.len() > 0 ==> forall|i: int|
            0 <= i < q.len() ==> q[i].0 <= release_time(events[0].0, config.min_latency as int),
    ensures
        condition_run(config, q, events) == q + appended_in_order(config, events),
        forall|i: int|
            0 <= i < appended_in_order(config, events).len() ==> exists|j: int|
                0 <= j < events.len() && #[trigger] appended_in_order(config, events)[i] == (
                    release_time(events[j].0, config.min_latency as int),
                    events[j].2,
                ),
    decreases events.len(),
{
    if events.len() == 0 {
        assert(q + appended_in_order(config, events) =~= q);
    } else {
        let n = events.len() - 1;
        let e = events[n];
        let prev = events.drop_last();
        assert(e == events.last());
        assert forall|i: int| 0 <= i < prev.len() implies (#[trigger] prev[i]).1.fit(config) by {
            assert(prev[i] == events[i]);
        }
        assert forall|i: int, j: int| 0 <= i <= j < prev.len() implies prev[i].0 <= prev[j].0 by {
            assert(prev[i] == events[i] && prev[j] == events[j]);
        }
        if prev.len() > 0 {
            assert(prev[0] == events[0]);
        }
        lemma_fixed_delay_run_keeps_order(config, q, prev);
        let a = appended_in_order(config, prev);
        let before = condition_run(config, q, prev);
        let t = release_time(e.0, config.min_latency as int);
        assert forall|i: int| 0 <= i < before.len() implies before[i].0 <= t by {
            if i < q.len() {
                assert(before[i] == q[i]);
                assert(events[0].0 <= e.0);
            } else {
                assert(before[i] == a[i - q.len()]);
                let j = choose|j: int|
                    0 <= j < prev.len() && #[trigger] a[i - q.len()] == (
                        release_time(prev[j].0, config.min_latency as int),
                        prev[j].2,
                    );
                assert(prev[j] == events[j]);
                assert(events[j].0 <= e.0);
            }
        }
        lemma_fixed_delay_keeps_order(config, before, e.0, e.1, e.2);
        let rs = planned_releases(config, e.0, e.1);
        let added = rs.map_values(|r: u64| (r, e.2));
        assert(appended_in_order(config, events) == a + added);
        assert(q + (a + added) =~= (q + a) + added);
        assert forall|i: int| 0 <= i < appended_in_order(config, events).len() implies exists|j: int|
            0 <= j < events.len() && #[trigger] appended_in_order(config, events)[i] == (
                release_time(events[j].0, config.min_latency as int),
                events[j].2,
            ) by {
            if i < a.len() {
                assert(appended_in_order(config, events)[i] == a[i]);
                let j = choose|j: int|
                    0 <= j < prev.len() && #[trigger] a[i] == (
                        release_time(prev[j].0, config.min_latency as int),
                        prev[j].2,
                    );
                assert(prev[j] == events[j]);
            } else {
                assert(appended_in_order(config, events)[i] == added[i - a.len()]);
                assert(added[i - a.len()] == (rs[i - a.len()], e.2));
            }
        }
    }
}

/// Whatever the jitter, no held packet is handed out before its release
/// time: `pop_due` hands out the earliest one only once it is due, and while
/// the earliest is not due, none of the others is either.
pub proof fn lemma_never_released_early(c: LinkConditioner, now: u64)
    requires
        c.wf(),
        c.pending().len() > 0,
        c.pending()[0].0 > now,
    ensures
        forall|i: int| 0 <= i < c.pending().len() ==> #[trigger] c.pending()[i].0 > now,
{
    c.lemma_pending_sorted();
    assert forall|i: int| 0 <= i < c.pending().len() implies #[trigger] c.pending()[i].0 > now by {
        assert(c.pending()[0].0 <= c.pending()[i].0);
    }
}

} // verus!
