use vstd::prelude::*;

verus! {

/// The closed set of domain events, each with a typed payload.
#[derive(Clone, Copy, PartialEq, Eq, Structural, Debug)]
pub enum DomainEvent {
    TimetableCreated { id: u128 },
    TimetableUpdated { id: u128 },
    TimetableDeleted { id: u128 },
    SubstitutionRequested { id: u128 },
    SubstitutionAccepted { id: u128 },
    SubstitutionRejected { id: u128 },
}

#[verifier::external_type_specification]
#[verifier::external_body]
#[verifier::reject_recursive_types(T)]
pub struct ExSender<T>(tokio::sync::broadcast::Sender<T>);

#[verifier::external_type_specification]
#[verifier::external_body]
#[verifier::reject_recursive_types(T)]
pub struct ExReceiver<T>(tokio::sync::broadcast::Receiver<T>);

/// Relies on tokio's `broadcast::channel`: a bounded multi-producer,
/// multi-consumer fan-out channel. It panics when `capacity` is zero or
/// above `usize::MAX / 2`, so those capacities are ruled out here. The
/// initial receiver is dropped; subscribers come later.
#[verifier::external_body]
fn broadcast_channel(capacity: usize) -> tokio::sync::broadcast::Sender<DomainEvent>
    requires
        0 < capacity <= usize::MAX / 2,
{
    let (tx, _rx) = tokio::sync::broadcast::channel(capacity);
    tx
}

/// Relies on tokio's `broadcast::Sender::send`: hands the value to every
/// receiver subscribed at this moment, or reports that none listen. The
/// result is discarded either way: fan-out is best-effort and producers
/// never block.
#[verifier::external_body]
fn send_event(tx: &tokio::sync::broadcast::Sender<DomainEvent>, event: DomainEvent) {
    let _ = tx.send(event);
}

/// Relies on tokio's `broadcast::Sender::subscribe`: a new receiver that
/// sees every event sent after this call, skipping any it falls behind on.
#[verifier::external_body]
fn subscribe_to(
    tx: &tokio::sync::broadcast::Sender<DomainEvent>,
) -> tokio::sync::broadcast::Receiver<DomainEvent> {
    tx.subscribe()
}

/// The process-wide fan-out channel for domain events, created once at
/// composition time with a fixed capacity and handed to the producers.
/// Its view is the sequence of events broadcast so far, oldest first, so a
/// producer's contract can say which event it emitted.
pub struct Broadcaster {
    tx: tokio::sync::broadcast::Sender<DomainEvent>,
    log: Ghost<Seq<DomainEvent>>,
}

impl View for Broadcaster {
    type V = Seq<DomainEvent>;

    closed spec fn view(&self) -> Seq<DomainEvent> {
        self.log@
    }
}

impl Broadcaster {
    pub fn new(capacity: usize) -> (r: Broadcaster)
        requires
            0 < capacity <= usize::MAX / 2,
        ensures
            r@ == Seq::<DomainEvent>::empty(),
    {
        Broadcaster { tx: broadcast_channel(capacity), log: Ghost(Seq::empty()) }
    }

    /// Delivers the event to every live subscriber; with none, it is lost.
    /// Either way it goes on record as broadcast.
    pub fn broadcast(&mut self, event: DomainEvent)
        ensures
            final(self)@ == old(self)@.push(event),
    {
        send_event(&self.tx, event);
        proof {
            self.log@ = self.log@.push(event);
        }
    }

    /// A private queue view of all events broadcast after this call.
    pub fn subscribe(&self) -> tokio::sync::broadcast::Receiver<DomainEvent> {
        subscribe_to(&self.tx)
    }
}

} // verus!
