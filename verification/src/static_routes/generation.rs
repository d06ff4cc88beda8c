//! The course of one piece of generation work.
//!
//! The work renders what the first caller asked for, publishes it, and subscribes to
//! the events that ask for it to be rendered again. It goes on until the
//! subscriptions end.

use vstd::prelude::*;

verus! {

/// What asks for a render.
#[derive(Clone, Copy, Debug, PartialEq, Eq, Structural)]
pub enum Trigger {
    /// A caller.
    Request,
    /// A subscription.
    Subscription,
}

/// Where the work stands.
#[derive(Clone, Copy, Debug, PartialEq, Eq, Structural)]
pub enum Phase {
    /// Room for the subscriptions is asked for.
    Reserving,
    /// A caller or a subscription is waited for.
    Waiting,
    /// Room for a render is asked for.
    Admitting(Trigger),
    /// Room for a render is waited for.
    Queued,
    Rendering,
    Publishing,
    /// The subscriptions are made.
    Subscribing,
    Ended,
}

/// One piece of generation work.
#[derive(Clone, Copy, Debug, PartialEq, Eq, Structural)]
pub struct Generation {
    pub phase: Phase,
    /// Whether nothing was rendered yet.
    pub first: bool,
    /// Whether there are limits on work.
    pub managed: bool,
    /// How many subscriptions there are to make.
    pub wanted: usize,
    /// Whether subscriptions are open.
    pub streams: bool,
}

/// What happened.
#[derive(Clone, Copy, Debug, PartialEq, Eq, Structural)]
pub enum GenerationEvent {
    /// Room for the subscriptions was asked for; whether there is any.
    Reserved(bool),
    Triggered(Trigger),
    /// The subscriptions have ended; whether a caller asked for a render meanwhile.
    Exhausted { requested: bool },
    /// Room for a render was asked for; whether there is any.
    Admitted(bool),
    /// There is room for the render that waits.
    SlotFreed,
    /// Everybody who waited has gone.
    Abandoned,
    /// The page was rendered, or failed to.
    Rendered(bool),
    /// The page was published, or handed to those who wait; or that failed.
    Published(bool),
    /// The subscriptions were made; whether any is open.
    Subscribed(bool),
}

/// What to do.
#[derive(Clone, Copy, Debug, PartialEq, Eq, Structural)]
pub enum GenerationAction {
    /// Ask for room for the subscriptions.
    Reserve,
    /// Wait for a caller or a subscription.
    Wait,
    /// Ask for room for a render.
    Admit,
    /// Refuse those who wait, and go on waiting.
    RefuseAndWait,
    /// Refuse those who wait, and wait for room for a render.
    RefuseAndQueue,
    /// Render. A render that can be abandoned ends when everybody who waits is gone.
    Render { abandonable: bool },
    Publish,
    Subscribe,
    /// Hand the result to those who wait. It is the last one if the work is over.
    Finish { terminal: bool },
    /// Hand the refusal to those who wait, as the last result.
    Fail,
    /// Refuse those who wait, and end.
    RefuseAndEnd,
    /// End.
    End,
}

/// The work and what it does next.
pub type Step = (Generation, GenerationAction);

/// A render, for which room is asked first where there are limits.
pub open spec fn asked(work: Generation, trigger: Trigger) -> Step {
    if work.managed {
        (Generation { phase: Phase::Admitting(trigger), ..work }, GenerationAction::Admit)
    } else {
        rendering(work)
    }
}

pub open spec fn rendering(work: Generation) -> Step {
    (
        Generation { phase: Phase::Rendering, ..work },
        GenerationAction::Render { abandonable: work.wanted == 0 },
    )
}

/// A result is handed out. It is the last one if no subscription is open.
pub open spec fn finished(work: Generation) -> Step {
    (
        Generation {
            phase: if work.streams {
                Phase::Waiting
            } else {
                Phase::Ended
            },
            first: false,
            ..work
        },
        GenerationAction::Finish { terminal: !work.streams },
    )
}

pub open spec fn ended(work: Generation, action: GenerationAction) -> Step {
    (Generation { phase: Phase::Ended, ..work }, action)
}

/// The beginning of a piece of work.
pub open spec fn begun(managed: bool, wanted: usize) -> Step {
    let work = Generation {
        phase: Phase::Reserving,
        first: true,
        managed,
        wanted,
        streams: false,
    };
    if managed {
        (work, GenerationAction::Reserve)
    } else {
        rendering(work)
    }
}

/// Whether an event can happen where the work stands.
pub open spec fn expected(phase: Phase, event: GenerationEvent) -> bool {
    match event {
        GenerationEvent::Reserved(_) => phase == Phase::Reserving,
        GenerationEvent::Triggered(_) => phase == Phase::Waiting,
        GenerationEvent::Exhausted { .. } => phase == Phase::Waiting,
        GenerationEvent::Admitted(_) => phase is Admitting,
        GenerationEvent::SlotFreed => phase == Phase::Queued,
        GenerationEvent::Abandoned => phase == Phase::Rendering,
        GenerationEvent::Rendered(_) => phase == Phase::Rendering,
        GenerationEvent::Published(_) => phase == Phase::Publishing,
        GenerationEvent::Subscribed(_) => phase == Phase::Subscribing,
    }
}

/// What becomes of the work on an event.
pub open spec fn advanced(work: Generation, event: GenerationEvent) -> Step {
    match event {
        GenerationEvent::Reserved(room) => if room {
            asked(work, Trigger::Request)
        } else {
            ended(work, GenerationAction::Fail)
        },
        GenerationEvent::Triggered(trigger) => asked(work, trigger),
        GenerationEvent::Exhausted { requested } => if requested {
            asked(Generation { streams: false, ..work }, Trigger::Request)
        } else {
            ended(Generation { streams: false, ..work }, GenerationAction::End)
        },
        GenerationEvent::Admitted(true) => rendering(work),
        GenerationEvent::Admitted(false) => if work.first {
            ended(work, GenerationAction::Fail)
        } else if work.phase == Phase::Admitting(Trigger::Subscription) {
            (Generation { phase: Phase::Queued, ..work }, GenerationAction::RefuseAndQueue)
        } else if work.streams {
            (Generation { phase: Phase::Waiting, ..work }, GenerationAction::RefuseAndWait)
        } else {
            ended(work, GenerationAction::RefuseAndEnd)
        },
        GenerationEvent::SlotFreed => rendering(work),
        GenerationEvent::Abandoned => ended(work, GenerationAction::End),
        GenerationEvent::Rendered(true) => (
            Generation { phase: Phase::Publishing, ..work },
            GenerationAction::Publish,
        ),
        GenerationEvent::Rendered(false) => finished(work),
        GenerationEvent::Published(ok) => if work.first && (!work.managed || ok) && work.wanted
            > 0 {
            (Generation { phase: Phase::Subscribing, ..work }, GenerationAction::Subscribe)
        } else {
            finished(work)
        },
        GenerationEvent::Subscribed(open) => finished(Generation { streams: open, ..work }),
    }
}

impl Generation {
    /// Begins a piece of work.
    pub fn begin(managed: bool, wanted: usize) -> (step: (Generation, GenerationAction))
        ensures
            step == begun(managed, wanted),
    {
        let work = Generation {
            phase: Phase::Reserving,
            first: true,
            managed,
            wanted,
            streams: false,
        };
        if managed {
            (work, GenerationAction::Reserve)
        } else {
            work.render()
        }
    }

    fn ask(self, trigger: Trigger) -> (step: (Generation, GenerationAction))
        ensures
            step == asked(self, trigger),
    {
        if self.managed {
            (Generation { phase: Phase::Admitting(trigger), ..self }, GenerationAction::Admit)
        } else {
            self.render()
        }
    }

    fn render(self) -> (step: (Generation, GenerationAction))
        ensures
            step == rendering(self),
    {
        let abandonable = self.wanted == 0;
        (
            Generation { phase: Phase::Rendering, ..self },
            GenerationAction::Render { abandonable },
        )
    }

    fn finish(self) -> (step: (Generation, GenerationAction))
        ensures
            step == finished(self),
    {
        let phase = if self.streams {
            Phase::Waiting
        } else {
            Phase::Ended
        };
        let terminal = !self.streams;
        (Generation { phase, first: false, ..self }, GenerationAction::Finish { terminal })
    }

    fn end(self, action: GenerationAction) -> (step: (Generation, GenerationAction))
        ensures
            step == ended(self, action),
    {
        (Generation { phase: Phase::Ended, ..self }, action)
    }

    /// Takes an event in, and says what to do.
    pub fn run(self, event: GenerationEvent) -> (step: (Generation, GenerationAction))
        requires
            expected(self.phase, event),
        ensures
            step == advanced(self, event),
    {
        match event {
            GenerationEvent::Reserved(room) => if room {
                self.ask(Trigger::Request)
            } else {
                self.end(GenerationAction::Fail)
            },
            GenerationEvent::Triggered(trigger) => self.ask(trigger),
            GenerationEvent::Exhausted { requested } => {
                let work = Generation { streams: false, ..self };
                if requested {
                    work.ask(Trigger::Request)
                } else {
                    work.end(GenerationAction::End)
                }
            },
            GenerationEvent::Admitted(room) => {
                if room {
                    return self.render();
                }
                if self.first {
                    return self.end(GenerationAction::Fail);
                }
                match self.phase {
                    Phase::Admitting(Trigger::Subscription) => (
                        Generation { phase: Phase::Queued, ..self },
                        GenerationAction::RefuseAndQueue,
                    ),
                    _ => if self.streams {
                        (
                            Generation { phase: Phase::Waiting, ..self },
                            GenerationAction::RefuseAndWait,
                        )
                    } else {
                        self.end(GenerationAction::RefuseAndEnd)
                    },
                }
            },
            GenerationEvent::SlotFreed => self.render(),
            GenerationEvent::Abandoned => self.end(GenerationAction::End),
            GenerationEvent::Rendered(ok) => if ok {
                (Generation { phase: Phase::Publishing, ..self }, GenerationAction::Publish)
            } else {
                self.finish()
            },
            GenerationEvent::Published(ok) => if self.first && (!self.managed || ok) && self.wanted
                > 0 {
                (Generation { phase: Phase::Subscribing, ..self }, GenerationAction::Subscribe)
            } else {
                self.finish()
            },
            GenerationEvent::Subscribed(open) => (Generation { streams: open, ..self }).finish(),
        }
    }
}

// ---------------------------------------------------------------------------
// Laws
// ---------------------------------------------------------------------------
/// What holds of every piece of work: without limits no room is asked for, without
/// subscriptions none is open, and while nothing was rendered none is open either.
/// Work that waits has open subscriptions.
pub open spec fn sound(work: Generation) -> bool {
    &&& !work.managed ==> !(work.phase is Admitting) && work.phase != Phase::Reserving && work.phase
        != Phase::Queued
    &&& work.wanted == 0 ==> !work.streams && work.phase != Phase::Subscribing && work.phase
        != Phase::Waiting
    &&& work.first ==> !work.streams && work.phase != Phase::Waiting && work.phase != Phase::Queued
    &&& work.phase == Phase::Waiting ==> work.streams
    &&& work.phase == Phase::Subscribing ==> work.first
    &&& work.phase == Phase::Queued ==> work.streams
    &&& work.phase == Phase::Admitting(Trigger::Subscription) ==> work.streams
}

/// All work is sound, from its beginning on.
pub proof fn work_stays_sound(work: Generation, event: GenerationEvent, managed: bool, wanted: usize)
    ensures
        sound(begun(managed, wanted).0),
        sound(work) && expected(work.phase, event) && (event matches GenerationEvent::Subscribed(
            open,
        ) ==> open ==> work.wanted > 0) ==> sound(advanced(work, event).0),
{
}

/// Work without subscriptions ends with its first result, and hands it out as the
/// last one.
pub proof fn plain_work_ends_after_one_result(work: Generation, event: GenerationEvent)
    requires
        sound(work),
        expected(work.phase, event),
        work.wanted == 0,
        advanced(work, event).1 is Finish,
    ensures
        advanced(work, event).0.phase == Phase::Ended,
        advanced(work, event).1 == (GenerationAction::Finish { terminal: true }),
{
}

/// A result is the last one exactly if the work is over with it.
pub proof fn terminal_results_end_the_work(work: Generation, event: GenerationEvent)
    requires
        expected(work.phase, event),
        advanced(work, event).1 is Finish,
    ensures
        advanced(work, event).1->terminal <==> advanced(work, event).0.phase == Phase::Ended,
{
}

/// An event of a subscription is never lost: where there is no room, it waits for it
/// and is rendered then.
pub proof fn subscription_events_are_kept(work: Generation)
    requires
        !work.first,
        work.phase == Phase::Admitting(Trigger::Subscription),
    ensures
        advanced(work, GenerationEvent::Admitted(false)).1 == GenerationAction::RefuseAndQueue,
        advanced(
            advanced(work, GenerationEvent::Admitted(false)).0,
            GenerationEvent::SlotFreed,
        ).1 is Render,
{
}

/// Subscriptions are made only after the first render; where there are limits, only
/// after it was published. Then the work is no longer at its first render.
pub proof fn subscriptions_follow_the_first_result(work: Generation, event: GenerationEvent)
    requires
        sound(work),
        expected(work.phase, event),
        advanced(work, event).1 == GenerationAction::Subscribe,
    ensures
        work.first,
        work.phase == Phase::Publishing,
        work.managed ==> event == GenerationEvent::Published(true),
        advanced(work, event).0.phase == Phase::Subscribing,
        forall|open: bool|
            !(#[trigger] advanced(advanced(work, event).0, GenerationEvent::Subscribed(open))).0.first,
{
}

/// Subscriptions are made at most once: work beyond its first render stays beyond it,
/// and subscribes no more.
pub proof fn subscriptions_are_made_once(work: Generation, event: GenerationEvent)
    requires
        expected(work.phase, event),
        !work.first,
    ensures
        !advanced(work, event).0.first,
        advanced(work, event).1 != GenerationAction::Subscribe,
{
}

/// A refusal before the first render is the last result.
pub proof fn first_refusal_ends_the_work(work: Generation)
    requires
        work.first,
    ensures
        advanced(work, GenerationEvent::Admitted(false)) == ended(work, GenerationAction::Fail),
        advanced(work, GenerationEvent::Reserved(false)) == ended(work, GenerationAction::Fail),
{
}

/// Where there are limits, work begins by asking for room, first for its subscriptions and
/// then for a render; where there are none, it begins by rendering.
pub proof fn work_begins_with_a_render(managed: bool, wanted: usize)
    ensures
        ({
            let (work, action) = begun(managed, wanted);
            &&& work.first && work.managed == managed && work.wanted == wanted && !work.streams
            &&& !managed ==> action is Render && work.phase == Phase::Rendering
            &&& managed ==> action == GenerationAction::Reserve && work.phase == Phase::Reserving
            &&& managed ==> {
                let (admitted, next) = advanced(work, GenerationEvent::Reserved(true));
                &&& next == GenerationAction::Admit
                &&& advanced(admitted, GenerationEvent::Admitted(true)).1 is Render
                &&& advanced(admitted, GenerationEvent::Admitted(true)).0.phase == Phase::Rendering
            }
        }),
{
}

/// What was rendered is published, and what failed to is handed out as it is. A render
/// that nobody waits for any more ends the work.
pub proof fn renders_are_published(work: Generation)
    ensures
        advanced(work, GenerationEvent::Rendered(true)).1 == GenerationAction::Publish,
        advanced(work, GenerationEvent::Rendered(true)).0.phase == Phase::Publishing,
        advanced(work, GenerationEvent::Rendered(false)).1 is Finish,
        advanced(work, GenerationEvent::Abandoned).1 == GenerationAction::End,
        advanced(work, GenerationEvent::Abandoned).0.phase == Phase::Ended,
        work.streams ==> advanced(work, GenerationEvent::Rendered(false)).0.phase == Phase::Waiting,
        !work.streams ==> advanced(work, GenerationEvent::Rendered(false)).0.phase == Phase::Ended,
{
}

/// The first result that was published is followed by the subscriptions, if there are
/// any, and the work goes on exactly if one of them is open. Every other result is handed
/// out at once.
pub proof fn published_results_are_handed_out(work: Generation, ok: bool, open: bool)
    ensures
        work.first && work.wanted > 0 && ok ==> advanced(work, GenerationEvent::Published(ok)).1
            == GenerationAction::Subscribe,
        work.first && work.wanted > 0 && !ok ==> (advanced(
            work,
            GenerationEvent::Published(ok),
        ).1 == GenerationAction::Subscribe <==> !work.managed),
        !work.first || work.wanted == 0 ==> advanced(work, GenerationEvent::Published(ok)).1
            is Finish,
        advanced(work, GenerationEvent::Subscribed(open)).1 == (GenerationAction::Finish {
            terminal: !open,
        }),
        advanced(work, GenerationEvent::Subscribed(open)).0.streams == open,
        advanced(work, GenerationEvent::Subscribed(open)).0.phase == (if open {
            Phase::Waiting
        } else {
            Phase::Ended
        }),
{
}

/// Every trigger leads to a render, for which room is asked where there are limits; so
/// does a caller who asked while the subscriptions ended. Without one the work ends.
pub proof fn triggers_lead_to_renders(work: Generation, trigger: Trigger)
    ensures
        work.managed ==> advanced(work, GenerationEvent::Triggered(trigger)).1
            == GenerationAction::Admit,
        !work.managed ==> advanced(work, GenerationEvent::Triggered(trigger)).1 is Render,
        advanced(
            advanced(work, GenerationEvent::Triggered(trigger)).0,
            GenerationEvent::Admitted(true),
        ).1 is Render,
        work.managed ==> advanced(work, GenerationEvent::Exhausted { requested: true }).1
            == GenerationAction::Admit,
        !work.managed ==> advanced(work, GenerationEvent::Exhausted { requested: true }).1
            is Render,
        advanced(work, GenerationEvent::Exhausted { requested: false }).1 == GenerationAction::End,
        advanced(work, GenerationEvent::Exhausted { requested: false }).0.phase == Phase::Ended,
        !advanced(work, GenerationEvent::Exhausted { requested: true }).0.streams,
        !advanced(work, GenerationEvent::Exhausted { requested: false }).0.streams,
        advanced(work, GenerationEvent::SlotFreed).1 is Render,
{
}

/// A caller for whom there is no room is refused. The work then waits for its
/// subscriptions, if one is open, and ends if none is.
pub proof fn refused_requests_do_not_stop_subscriptions(work: Generation)
    requires
        !work.first,
        work.phase == Phase::Admitting(Trigger::Request),
    ensures
        work.streams ==> advanced(work, GenerationEvent::Admitted(false)).1
            == GenerationAction::RefuseAndWait && advanced(
            work,
            GenerationEvent::Admitted(false),
        ).0.phase == Phase::Waiting,
        !work.streams ==> advanced(work, GenerationEvent::Admitted(false)).1
            == GenerationAction::RefuseAndEnd && advanced(
            work,
            GenerationEvent::Admitted(false),
        ).0.phase == Phase::Ended,
{
}

/// What a piece of work was begun with stays: its limits and its subscriptions. A render
/// can be abandoned exactly if there are no subscriptions, and subscriptions open and
/// close only when they are made or end.
pub proof fn work_keeps_its_terms(work: Generation, event: GenerationEvent)
    ensures
        advanced(work, event).0.managed == work.managed,
        advanced(work, event).0.wanted == work.wanted,
        advanced(work, event).1 matches GenerationAction::Render { abandonable } ==> (abandonable
            <==> work.wanted == 0) && advanced(work, event).0.phase == Phase::Rendering,
        !(event is Subscribed) && !(event is Exhausted) ==> advanced(work, event).0.streams
            == work.streams,
        work.first && !advanced(work, event).0.first ==> advanced(work, event).1 is Finish,
{
}

} // verus!
