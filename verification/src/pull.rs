//! A viewer's pull, step by step: every track is looked up before any is added to
//! the connection. A failure while adding would leave transceivers behind that
//! duplicate media once the pull is tried again, so what was added is taken back.

use vstd::prelude::*;

use crate::sfu;
use crate::sfu::{SfuError, TrackWait};
use crate::text;

verus! {

/// What has to be done next in a pull.
pub enum PullStep {
    /// Look for the track at this position.
    LookUp(usize),
    /// Add the track at this position to the connection.
    Attach(usize),
    /// Every track has been added: make the offer.
    Offer,
    /// Nothing has been added: report this.
    Refuse(SfuError),
    /// Take the first so many tracks back, and report this.
    Undo { count: usize, error: SfuError },
}

/// What has to be done next, as plain values.
pub enum PullStepView {
    LookUp(int),
    Attach(int),
    Offer,
    Refuse(sfu::SfuErrorView),
    Undo { count: int, error: sfu::SfuErrorView },
}

impl View for PullStep {
    type V = PullStepView;

    open spec fn view(&self) -> PullStepView {
        match *self {
            PullStep::LookUp(i) => PullStepView::LookUp(i as int),
            PullStep::Attach(i) => PullStepView::Attach(i as int),
            PullStep::Offer => PullStepView::Offer,
            PullStep::Refuse(e) => PullStepView::Refuse(e@),
            PullStep::Undo { count, error } => PullStepView::Undo {
                count: count as int,
                error: error@,
            },
        }
    }
}

/// What came of a step.
pub enum PullEvent {
    /// The track was looked for.
    LookedUp(TrackWait),
    /// The track was added.
    Attached,
    /// The track could not be added, for this reason.
    AttachFailed(String),
}

/// What came of a step, as plain values.
pub enum PullEventView {
    LookedUp(sfu::TrackWaitView),
    Attached,
    AttachFailed(Seq<char>),
}

impl View for PullEvent {
    type V = PullEventView;

    open spec fn view(&self) -> PullEventView {
        match *self {
            PullEvent::LookedUp(wait) => PullEventView::LookedUp(wait@),
            PullEvent::Attached => PullEventView::Attached,
            PullEvent::AttachFailed(reason) => PullEventView::AttachFailed(reason@),
        }
    }
}

/// A pull: the tracks it names and what has to be done next.
pub struct Pull {
    pub names: Vec<String>,
    pub step: PullStep,
}

/// A pull as plain values.
pub struct PullView {
    pub names: Seq<Seq<char>>,
    pub step: PullStepView,
}

impl View for Pull {
    type V = PullView;

    open spec fn view(&self) -> PullView {
        PullView { names: text::texts(self.names@), step: self.step@ }
    }
}

impl PullView {
    /// A track that has to be looked up, added or taken back is one that the pull
    /// names.
    pub open spec fn wf(self) -> bool {
        match self.step {
            PullStepView::LookUp(i) => 0 <= i < self.names.len(),
            PullStepView::Attach(i) => 0 <= i < self.names.len(),
            PullStepView::Undo { count, .. } => 0 <= count < self.names.len(),
            _ => true,
        }
    }
}

/// A pull of some tracks at its start.
pub open spec fn started(names: Seq<Seq<char>>) -> PullView {
    PullView {
        names,
        step: if names.len() == 0 {
            PullStepView::Offer
        } else {
            PullStepView::LookUp(0)
        },
    }
}

/// A pull after something came of its step. Whatever does not belong to the step
/// changes nothing.
pub open spec fn advanced(p: PullView, event: PullEventView) -> PullView {
    let step = match (p.step, event) {
        (PullStepView::LookUp(i), PullEventView::LookedUp(sfu::TrackWaitView::Ready)) => if i + 1
            < p.names.len() {
            PullStepView::LookUp(i + 1)
        } else {
            PullStepView::Attach(0)
        },
        (PullStepView::LookUp(_), PullEventView::LookedUp(sfu::TrackWaitView::GaveUp(e))) =>
            PullStepView::Refuse(e),
        (PullStepView::Attach(i), PullEventView::Attached) => if i + 1 < p.names.len() {
            PullStepView::Attach(i + 1)
        } else {
            PullStepView::Offer
        },
        (PullStepView::Attach(i), PullEventView::AttachFailed(reason)) => PullStepView::Undo {
            count: i,
            error: sfu::SfuErrorView::AddTrack { name: p.names[i], reason },
        },
        (step, _) => step,
    };
    PullView { step, ..p }
}

impl Pull {
    /// A pull of some tracks at its start.
    pub fn new(names: &[String]) -> (r: Pull)
        ensures
            r@ == started(text::texts(names@)),
            r@.wf(),
    {
        let mut own: Vec<String> = Vec::new();
        let mut i: usize = 0;
        while i < names.len()
            invariant
                i <= names@.len(),
                own@ == names@.take(i as int),
            decreases names.len() - i,
        {
            own.push(names[i].clone());
            i += 1;
        }
        assert(own@ == names@);
        let step = if own.len() == 0 {
            PullStep::Offer
        } else {
            PullStep::LookUp(0)
        };
        Pull { names: own, step }
    }

    /// Takes what came of the step at hand.
    pub fn advance(&mut self, event: PullEvent)
        requires
            old(self)@.wf(),
        ensures
            final(self)@ == advanced(old(self)@, event@),
            final(self)@.wf(),
            final(self).names == old(self).names,
            match (old(self)@.step, event@) {
                (PullStepView::LookUp(_), PullEventView::LookedUp(sfu::TrackWaitView::GaveUp(e))) =>
                    final(self)@.step == PullStepView::Refuse(e),
                (PullStepView::Attach(i), PullEventView::AttachFailed(why)) => {
                    &&& final(self)@.step matches PullStepView::Undo { count, error }
                    &&& count == i
                    &&& error == sfu::SfuErrorView::AddTrack {
                        name: old(self)@.names[i],
                        reason: why,
                    }
                },
                _ => true,
            },
    {
        let n = self.names.len();
        match (&self.step, event) {
            (PullStep::LookUp(i), PullEvent::LookedUp(TrackWait::Ready)) => {
                let next: usize = *i + 1;
                self.step = if next < n {
                    PullStep::LookUp(next)
                } else {
                    PullStep::Attach(0)
                };
            },
            (PullStep::LookUp(_), PullEvent::LookedUp(TrackWait::GaveUp(e))) => {
                self.step = PullStep::Refuse(e);
            },
            (PullStep::Attach(i), PullEvent::Attached) => {
                let next: usize = *i + 1;
                self.step = if next < n {
                    PullStep::Attach(next)
                } else {
                    PullStep::Offer
                };
            },
            (PullStep::Attach(i), PullEvent::AttachFailed(reason)) => {
                let count: usize = *i;
                let name = self.names[count].clone();
                assert(text::texts(self.names@)[count as int] == name@);
                self.step = PullStep::Undo { count, error: SfuError::AddTrack { name, reason } };
            },
            _ => {},
        }
    }
}

/// A pull of some tracks after some events.
pub open spec fn after_events(names: Seq<Seq<char>>, events: Seq<PullEventView>) -> PullView
    decreases events.len(),
{
    if events.len() == 0 {
        started(names)
    } else {
        advanced(after_events(names, events.drop_last()), events.last())
    }
}

/// The track at this position has been looked up and was live.
pub open spec fn seen_live(names: Seq<Seq<char>>, events: Seq<PullEventView>, i: int) -> bool
    decreases events.len(),
{
    events.len() > 0 && {
        ||| seen_live(names, events.drop_last(), i)
        ||| after_events(names, events.drop_last()).step == PullStepView::LookUp(i)
            && events.last() == PullEventView::LookedUp(sfu::TrackWaitView::Ready)
    }
}

/// The track at this position has been added to the connection.
pub open spec fn attached(names: Seq<Seq<char>>, events: Seq<PullEventView>, i: int) -> bool
    decreases events.len(),
{
    events.len() > 0 && {
        ||| attached(names, events.drop_last(), i)
        ||| after_events(names, events.drop_last()).step == PullStepView::Attach(i)
            && events.last() == PullEventView::Attached
    }
}

/// Where a pull stands says what it has done, whatever has happened: as long as it
/// looks tracks up or where it gave up on one, none has been added. None is added
/// before all have been seen live. The offer is made once all have been added, and
/// where one could not be, exactly those that had been are taken back.
pub proof fn pull_adds_all_or_nothing(names: Seq<Seq<char>>, events: Seq<PullEventView>)
    ensures
        ({
            let p = after_events(names, events);
            let n = names.len() as int;
            &&& p.names == names
            &&& p.wf()
            &&& match p.step {
                PullStepView::LookUp(i) => {
                    &&& forall|j: int| #[trigger] seen_live(names, events, j) <==> 0 <= j < i
                    &&& forall|j: int| !#[trigger] attached(names, events, j)
                },
                PullStepView::Refuse(_) => {
                    &&& exists|j: int| 0 <= j < n && !#[trigger] seen_live(names, events, j)
                    &&& forall|j: int| !#[trigger] attached(names, events, j)
                },
                PullStepView::Attach(i) => {
                    &&& forall|j: int| 0 <= j < n ==> #[trigger] seen_live(names, events, j)
                    &&& forall|j: int| #[trigger] attached(names, events, j) <==> 0 <= j < i
                },
                PullStepView::Offer => {
                    &&& forall|j: int| 0 <= j < n ==> #[trigger] seen_live(names, events, j)
                    &&& forall|j: int| #[trigger] attached(names, events, j) <==> 0 <= j < n
                },
                PullStepView::Undo { count, .. } => {
                    &&& forall|j: int| 0 <= j < n ==> #[trigger] seen_live(names, events, j)
                    &&& forall|j: int| #[trigger] attached(names, events, j) <==> 0 <= j < count
                },
            }
        }),
    decreases events.len(),
{
    if events.len() > 0 {
        let rest = events.drop_last();
        pull_adds_all_or_nothing(names, rest);
        let before = after_events(names, rest);
        let after = after_events(names, events);
        assert forall|j: int| #[trigger] seen_live(names, events, j) <==> seen_live(names, rest, j)
            || (before.step == PullStepView::LookUp(j) && events.last()
            == PullEventView::LookedUp(sfu::TrackWaitView::Ready)) by {}
        assert forall|j: int| #[trigger] attached(names, events, j) <==> attached(names, rest, j)
            || (before.step == PullStepView::Attach(j) && events.last()
            == PullEventView::Attached) by {}
        if let PullStepView::Refuse(_) = after.step {
            if let PullStepView::LookUp(i) = before.step {
                assert(!seen_live(names, events, i));
            } else {
                let j = choose|j: int| 0 <= j < names.len() && !#[trigger] seen_live(
                    names,
                    rest,
                    j,
                );
                assert(!seen_live(names, events, j));
            }
        }
    }
}

/// A pull that names a track which is not seen live adds nothing at all: it makes no
/// offer, and there is nothing to take back.
pub proof fn pull_of_a_dead_track_adds_nothing(
    names: Seq<Seq<char>>,
    events: Seq<PullEventView>,
    dead: int,
)
    requires
        0 <= dead < names.len(),
        !seen_live(names, events, dead),
    ensures
        forall|j: int| !#[trigger] attached(names, events, j),
        after_events(names, events).step is LookUp || after_events(names, events).step is Refuse,
{
    pull_adds_all_or_nothing(names, events);
}

/// A failure ends a pull at once and is reported as it is: where a track does not go live, with
/// the reason that looking for it gave, and where one cannot be added, with its name and the
/// reason, once those added before it have been taken back. A pull that has ended, and one that
/// still waits for a track, stays where it is.
pub proof fn pull_fails_with_its_reason(
    names: Seq<Seq<char>>,
    i: int,
    e: sfu::SfuErrorView,
    why: Seq<char>,
    event: PullEventView,
)
    ensures
        advanced(
            PullView { names, step: PullStepView::LookUp(i) },
            PullEventView::LookedUp(sfu::TrackWaitView::GaveUp(e)),
        ) == (PullView { names, step: PullStepView::Refuse(e) }),
        advanced(
            PullView { names, step: PullStepView::LookUp(i) },
            PullEventView::LookedUp(sfu::TrackWaitView::Retry),
        ) == (PullView { names, step: PullStepView::LookUp(i) }),
        advanced(
            PullView { names, step: PullStepView::Attach(i) },
            PullEventView::AttachFailed(why),
        ) == (PullView {
            names,
            step: PullStepView::Undo {
                count: i,
                error: sfu::SfuErrorView::AddTrack { name: names[i], reason: why },
            },
        }),
        advanced(PullView { names, step: PullStepView::Offer }, event).step is Offer,
        advanced(PullView { names, step: PullStepView::Refuse(e) }, event).step
            == PullStepView::Refuse(e),
{
}

/// A pull begins with its first track and takes every track in turn, first to look it up and
/// then to add it. One that names nothing is ready to offer.
pub proof fn pull_takes_every_track_in_turn(names: Seq<Seq<char>>, i: int)
    requires
        0 <= i < names.len(),
    ensures
        ({
            let seen = PullEventView::LookedUp(sfu::TrackWaitView::Ready);
            let looking = advanced(PullView { names, step: PullStepView::LookUp(i) }, seen);
            let adding = advanced(
                PullView { names, step: PullStepView::Attach(i) },
                PullEventView::Attached,
            );
            &&& started(names).step == PullStepView::LookUp(0)
            &&& started(names).names == names
            &&& started(Seq::empty()).step is Offer
            &&& looking.names == names && adding.names == names
            &&& i + 1 < names.len() ==> looking.step == PullStepView::LookUp(i + 1) && adding.step
                == PullStepView::Attach(i + 1)
            &&& i + 1 == names.len() ==> looking.step == PullStepView::Attach(0)
                && adding.step is Offer
        }),
{
}

} // verus!
