//! The publication hub: a bounded broadcast channel on which the logger
//! republishes every entry that it has appended. A watcher that falls behind
//! loses the oldest entries it has not read and is told so; the logger is
//! never held up.
//!
//! The channel numbers what it takes in: the hub stands at the number that
//! the next entry gets, and a watcher stands at the number of the entry
//! that it reads next.

use crate::entry::Entry;
use vstd::prelude::*;

verus! {

#[verifier::external_type_specification]
#[verifier::external_body]
#[verifier::reject_recursive_types(T)]
pub struct ExSender<T>(tokio::sync::broadcast::Sender<T>);

#[verifier::external_type_specification]
#[verifier::external_body]
#[verifier::reject_recursive_types(T)]
pub struct ExReceiver<T>(tokio::sync::broadcast::Receiver<T>);

/// Number of entries that the hub keeps for a watcher that is behind.
pub const HUB_CAPACITY: usize = 16;

/// The number that the channel gives the next entry it takes in.
pub uninterp spec fn hub_position(tx: tokio::sync::broadcast::Sender<Entry>) -> u64;

/// The number of the entry that the watcher reads next.
pub uninterp spec fn watcher_position(rx: tokio::sync::broadcast::Receiver<Entry>) -> u64;

/// The position behind `p`. The channel counts in 64 bits and begins again
/// at 0.
pub open spec fn position_after(p: u64) -> u64 {
    if p == u64::MAX {
        0
    } else {
        (p + 1) as u64
    }
}

/// `tokio::sync::broadcast::channel`, of which the sending half is kept:
/// a hub without watchers, which stands at 0. The channel refuses a
/// capacity of zero and one above half of the largest number.
#[verifier::external_body]
pub(crate) fn hub_open(capacity: usize) -> (tx: tokio::sync::broadcast::Sender<Entry>)
    requires
        0 < capacity <= usize::MAX / 2,
    ensures
        hub_position(tx) == 0,
{
    tokio::sync::broadcast::channel(capacity).0
}

/// `Sender::send`: where there is a watcher at this moment, the channel
/// takes the entry in for all of them, moves on by one and says how many
/// they are; where there is none, it takes nothing in and stays where it
/// stands.
#[verifier::external_body]
pub(crate) fn hub_publish(tx: &mut tokio::sync::broadcast::Sender<Entry>, entry: Entry) -> (reached:
    Option<usize>)
    ensures
        reached matches Some(n) ==> n >= 1 && hub_position(*final(tx)) == position_after(
            hub_position(*old(tx)),
        ),
        reached is None ==> hub_position(*final(tx)) == hub_position(*old(tx)),
{
    tx.send(entry).ok()
}

/// `Sender::subscribe`: a new watcher, which stands where the hub stands:
/// it reads what the channel takes in from now on. The channel gives up
/// when a quarter of the largest number of watchers is reached.
#[verifier::external_body]
pub(crate) fn hub_subscribe(tx: &tokio::sync::broadcast::Sender<Entry>) -> (rx:
    tokio::sync::broadcast::Receiver<Entry>)
    ensures
        watcher_position(rx) == hub_position(*tx),
{
    tx.subscribe()
}

} // verus!
