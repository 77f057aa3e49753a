use vstd::prelude::*;

verus! {

/// What a notification was about.
#[derive(Clone, Copy, PartialEq, Eq, Structural, Debug)]
pub enum NotificationKind {
    SubstitutionRequested,
    SubstitutionAccepted,
    SubstitutionRejected,
}

/// One notification request: its kind and the substitution it concerns.
#[derive(Clone, Copy, PartialEq, Eq, Structural, Debug)]
pub struct NotificationRecord {
    pub kind: NotificationKind,
    pub substitution_id: u128,
}

/// The narrow interface to notification delivery. Delivery itself is an
/// outside concern; this records, in order, what it was asked to deliver.
#[derive(Clone, Debug)]
pub struct NotificationService {
    requested: Vec<NotificationRecord>,
}

impl View for NotificationService {
    type V = Seq<NotificationRecord>;

    closed spec fn view(&self) -> Seq<NotificationRecord> {
        self.requested@
    }
}

impl Default for NotificationService {
    fn default() -> (s: Self)
        ensures
            s@ == Seq::<NotificationRecord>::empty(),
    {
        NotificationService { requested: Vec::new() }
    }
}

impl NotificationService {
    pub fn new() -> (s: Self)
        ensures
            s@ == Seq::<NotificationRecord>::empty(),
    {
        NotificationService { requested: Vec::new() }
    }

    pub fn send_substitution_request_notification(&mut self, substitution_id: u128)
        ensures
            final(self)@ == old(self)@.push(
                NotificationRecord {
                    kind: NotificationKind::SubstitutionRequested,
                    substitution_id,
                },
            ),
    {
        self.requested.push(
            NotificationRecord { kind: NotificationKind::SubstitutionRequested, substitution_id },
        );
    }

    pub fn send_substitution_accepted_notification(&mut self, substitution_id: u128)
        ensures
            final(self)@ == old(self)@.push(
                NotificationRecord { kind: NotificationKind::SubstitutionAccepted, substitution_id },
            ),
    {
        self.requested.push(
            NotificationRecord { kind: NotificationKind::SubstitutionAccepted, substitution_id },
        );
    }

    pub fn send_substitution_rejected_notification(&mut self, substitution_id: u128)
        ensures
            final(self)@ == old(self)@.push(
                NotificationRecord { kind: NotificationKind::SubstitutionRejected, substitution_id },
            ),
    {
        self.requested.push(
            NotificationRecord { kind: NotificationKind::SubstitutionRejected, substitution_id },
        );
    }

    /// The notification requests made so far, oldest first.
    pub fn requests(&self) -> (r: Vec<NotificationRecord>)
        ensures
            r@ == self@,
    {
        let mut r: Vec<NotificationRecord> = Vec::new();
        let mut i: usize = 0;
        while i < self.requested.len()
            invariant
                i <= self.requested.len(),
                r@ == self.requested@.take(i as int),
            decreases self.requested.len() - i,
        {
            r.push(self.requested[i]);
            proof {
                assert(self.requested@.take(i as int + 1) =~= self.requested@.take(i as int).push(
                    self.requested@[i as int],
                ));
            }
            i = i + 1;
        }
        proof {
            assert(self.requested@.take(self.requested@.len() as int) =~= self.requested@);
        }
        r
    }
}

} // verus!
