//! The synchronisation step: compare a reading with the published value,
//! decide whether to publish, and advance the published value only on a
//! confirmed publication.
use vstd::prelude::*;

use crate::errors::{ApiError, PublishError};

verus! {

/// A tolerance of one billionth, in fixed-point units.
pub const DEFAULT_EPSILON: u128 = 1_000_000_000;

/// The distance between two values.
pub open spec fn abs_diff(a: u128, b: u128) -> nat {
    if a >= b {
        (a - b) as nat
    } else {
        (b - a) as nat
    }
}

/// A reading differs enough from the last published value to be published.
pub open spec fn exceeds_tolerance(last: u128, fetched: u128, epsilon: u128) -> bool {
    abs_diff(last, fetched) > epsilon
}

/// Why a tick ended without a publication.
#[derive(Clone, Copy, Debug, PartialEq, Eq, Structural)]
pub enum SkipReason {
    /// No usable reading this tick.
    Failed(ApiError),
    /// A zero reading is taken for a provider outage, not a rate.
    ZeroReading,
    /// The reading is within tolerance of the published value.
    Unchanged,
    /// A publication is still awaiting its outcome.
    InFlight,
}

/// What the caller is to do after a reading.
#[derive(Clone, Copy, Debug, PartialEq, Eq, Structural)]
pub enum Action {
    Skip(SkipReason),
    /// Submit this fixed-point value to the ledger and report the outcome.
    Publish(u128),
}

/// The state of the relay as contracts see it.
pub struct RelayModel {
    /// The last value confirmed on the ledger, or the zero sentinel.
    pub published: u128,
    /// The tolerance below which a change is not published.
    pub epsilon: u128,
    /// The value whose publication awaits its outcome, if any.
    pub in_flight: Option<u128>,
}

/// One tick's decision on a reading.
pub open spec fn reading_step(m: RelayModel, reading: Result<u128, ApiError>) -> (
    RelayModel,
    Action,
) {
    if m.in_flight is Some {
        (m, Action::Skip(SkipReason::InFlight))
    } else {
        match reading {
            Err(e) => (m, Action::Skip(SkipReason::Failed(e))),
            Ok(v) => if v == 0 {
                (m, Action::Skip(SkipReason::ZeroReading))
            } else if !exceeds_tolerance(m.published, v, m.epsilon) {
                (m, Action::Skip(SkipReason::Unchanged))
            } else {
                (RelayModel { in_flight: Some(v), ..m }, Action::Publish(v))
            },
        }
    }
}

/// The effect of a publication's outcome.
pub open spec fn outcome_step(m: RelayModel, outcome: Result<(), PublishError>) -> RelayModel {
    match m.in_flight {
        None => m,
        Some(v) => match outcome {
            Ok(()) => RelayModel { published: v, epsilon: m.epsilon, in_flight: None },
            Err(_) => RelayModel { in_flight: None, ..m },
        },
    }
}

/// Decides whether `fetched` is to be published over `last`.
pub fn should_publish(last: u128, fetched: u128, epsilon: u128) -> (r: bool)
    ensures
        r == exceeds_tolerance(last, fetched, epsilon),
{
    let delta = if last >= fetched {
        last - fetched
    } else {
        fetched - last
    };
    delta > epsilon
}

/// The relay's published-state cell together with its tick discipline.
/// Readers see only confirmed values: a value under publication is held
/// apart until its outcome arrives.
pub struct SyncLoop {
    published: u128,
    epsilon: u128,
    in_flight: Option<u128>,
}

impl View for SyncLoop {
    type V = RelayModel;

    closed spec fn view(&self) -> RelayModel {
        RelayModel { published: self.published, epsilon: self.epsilon, in_flight: self.in_flight }
    }
}

impl SyncLoop {
    /// A relay at cold start: nothing published, the sentinel zero in place.
    pub fn new(epsilon: u128) -> (r: Self)
        ensures
            r@ == (RelayModel { published: 0, epsilon, in_flight: None }),
    {
        SyncLoop { published: 0, epsilon, in_flight: None }
    }

    /// The last confirmed value.
    pub fn published(&self) -> (r: u128)
        ensures
            r == self@.published,
    {
        self.published
    }

    pub fn epsilon(&self) -> (r: u128)
        ensures
            r == self@.epsilon,
    {
        self.epsilon
    }

    /// The value awaiting confirmation, if any.
    pub fn in_flight(&self) -> (r: Option<u128>)
        ensures
            r == self@.in_flight,
    {
        self.in_flight
    }

    /// Takes one tick's reading and says whether to publish it.
    pub fn on_reading(&mut self, reading: Result<u128, ApiError>) -> (a: Action)
        ensures
            (final(self)@, a) == reading_step(old(self)@, reading),
    {
        if self.in_flight.is_some() {
            return Action::Skip(SkipReason::InFlight);
        }
        match reading {
            Err(e) => Action::Skip(SkipReason::Failed(e)),
            Ok(v) => {
                if v == 0 {
                    Action::Skip(SkipReason::ZeroReading)
                } else if !should_publish(self.published, v, self.epsilon) {
                    Action::Skip(SkipReason::Unchanged)
                } else {
                    self.in_flight = Some(v);
                    Action::Publish(v)
                }
            },
        }
    }

    /// Takes the outcome of the publication in flight. Only a confirmed
    /// publication advances the published value.
    pub fn on_publish_outcome(&mut self, outcome: Result<(), PublishError>)
        ensures
            final(self)@ == outcome_step(old(self)@, outcome),
    {
        match self.in_flight {
            None => {},
            Some(v) => {
                if outcome.is_ok() {
                    self.published = v;
                }
                self.in_flight = None;
            },
        }
    }
}


/// A reading within tolerance of the published value starts no publication
/// and leaves the state as it was.
pub proof fn law_within_tolerance_is_quiet(m: RelayModel, fetched: u128)
    requires
        !exceeds_tolerance(m.published, fetched, m.epsilon),
    ensures
        reading_step(m, Ok(fetched)).0 == m,
        !(reading_step(m, Ok(fetched)).1 is Publish),
{
}

/// A reading past tolerance is published, and once the ledger confirms it,
/// it is the published value; the same reading then publishes nothing more,
/// and a repeated confirmation changes nothing.
pub proof fn law_confirmed_publication_is_recorded_once(m: RelayModel, fetched: u128)
    requires
        m.in_flight is None,
        fetched != 0,
        exceeds_tolerance(m.published, fetched, m.epsilon),
    ensures
        reading_step(m, Ok(fetched)).1 == Action::Publish(fetched),
        outcome_step(reading_step(m, Ok(fetched)).0, Ok(())).published == fetched,
        outcome_step(reading_step(m, Ok(fetched)).0, Ok(())).in_flight is None,
        reading_step(outcome_step(reading_step(m, Ok(fetched)).0, Ok(())), Ok(fetched)).1
            == Action::Skip(SkipReason::Unchanged),
        outcome_step(outcome_step(reading_step(m, Ok(fetched)).0, Ok(())), Ok(()))
            == outcome_step(reading_step(m, Ok(fetched)).0, Ok(())),
{
}

/// A failed publication leaves the state as it was before the reading, so
/// the next tick with the same reading publishes it again.
pub proof fn law_failed_publication_is_retried(m: RelayModel, fetched: u128, e: PublishError)
    requires
        reading_step(m, Ok(fetched)).1 == Action::Publish(fetched),
    ensures
        outcome_step(reading_step(m, Ok(fetched)).0, Err(e)) == m,
        reading_step(outcome_step(reading_step(m, Ok(fetched)).0, Err(e)), Ok(fetched)).1
            == Action::Publish(fetched),
{
}

/// Readers never see a value whose publication is unconfirmed: a reading
/// never moves the published value, and an outcome moves it only when it
/// confirms the value in flight, to that value.
pub proof fn law_unconfirmed_value_is_never_visible(
    m: RelayModel,
    reading: Result<u128, ApiError>,
    outcome: Result<(), PublishError>,
)
    ensures
        reading_step(m, reading).0.published == m.published,
        outcome_step(m, outcome).published != m.published ==> outcome is Ok && m.in_flight
            == Some(outcome_step(m, outcome).published),
        outcome_step(m, outcome).in_flight is None,
{
}

} // verus!
