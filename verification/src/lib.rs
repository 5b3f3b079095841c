//! Values that can be watched for changes.
//!
//! A [`Value`] holds something, and any number of [`Observer`]s can watch it.
//! Set the value and every observer that waits is told and gives out the new
//! value; let the value hang up and every observer's stream of values ends.
//!
//! This is for *state*, not for events. Observers always see the current value.
//! One that polls slowly skips what was there in between, and a value that is
//! equal to the one that an observer gave out last is not given out again.
//!
//! * [`value`] and [`observer`] are the two sides of it, with [`aggregate`] for
//!   watching several values at once, and [`look`] for reading a value that
//!   others use at the same time.
//! * [`flip_card`] is where a value is stored, and [`registrations`] is how its
//!   observers are found. Both can be shared: what each party does is a series
//!   of atomic steps, and `flip_card_laws`, `wakeup_laws` and `poll_laws` prove
//!   what holds however those steps are interleaved.
//! * [`registry`] is a record of the values that there are, for debugging, and
//!   [`exfiltrate_provider`] answers questions about it. What the values hold
//!   is never told: `report_laws` proves it.
//!
//! The library never blocks and never waits, and it wakes no task itself: what
//! has to be told to a task is returned, as the wakers that the caller is to
//! wake. Locking, threads, clocks and executors are up to its callers.

pub mod active_observation;
pub mod aggregate;
pub mod decimal;
pub mod exfiltrate_provider;
pub mod flip_card;
pub mod flip_card_laws;
pub mod look;
pub mod observer;
pub mod poll_laws;
pub mod registrations;
pub mod registry;
pub mod registry_laws;
pub mod report_laws;
mod stack;
pub mod value;
pub mod value_laws;
mod wakers;
pub mod wakeup_laws;

pub use observer::Observer;
pub use value::Value;
