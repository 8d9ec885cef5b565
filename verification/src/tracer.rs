//! The life of one light path: how many bounces it is followed through and how
//! it ends; and the seed of each image row.
use vstd::prelude::*;

verus! {

/// What happened to the ray at one step of its path.
#[derive(Copy, Clone, Debug, PartialEq, Eq, Structural)]
pub enum Event {
    /// The ray hit nothing and left the scene.
    Missed,
    /// The ray hit something and the material swallowed it.
    Absorbed,
    /// The ray hit something and the material sent a new ray on.
    Scattered,
}

/// How a path ends.
#[derive(Copy, Clone, Debug, PartialEq, Eq, Structural)]
pub enum Fate {
    /// The path left the scene: it carries the colour of the sky, dimmed by
    /// every surface it met.
    Escaped,
    /// A material absorbed the path: it carries no light.
    Absorbed,
    /// The path used up its bounces: it carries no light either.
    Exhausted,
}

impl Fate {
    /// Whether a path with this end carries light.
    pub open spec fn lit(self) -> bool {
        self == Fate::Escaped
    }

    /// Whether a path with this end carries light.
    pub fn carries_light(&self) -> (lit: bool)
        ensures
            lit == self.lit(),
    {
        match self {
            Fate::Escaped => true,
            Fate::Absorbed => false,
            Fate::Exhausted => false,
        }
    }
}

/// A path under way: the number of bounces it may still take, at least one.
#[derive(Copy, Clone, Debug, PartialEq, Eq, Structural)]
pub struct Path {
    pub bounces: u32,
}

/// Where a path stands after a step.
#[derive(Copy, Clone, Debug, PartialEq, Eq, Structural)]
pub enum Step {
    /// The path goes on.
    Trace(Path),
    /// The path has ended.
    Done(Fate),
}

/// Where a path with `bounces` left stands after `event`: a miss or an
/// absorption ends it, and so does the scattering that takes its last bounce.
pub open spec fn after(bounces: u32, event: Event) -> Step {
    match event {
        Event::Missed => Step::Done(Fate::Escaped),
        Event::Absorbed => Step::Done(Fate::Absorbed),
        Event::Scattered => if bounces <= 1 {
            Step::Done(Fate::Exhausted)
        } else {
            Step::Trace(Path { bounces: (bounces - 1) as u32 })
        },
    }
}

/// Where a path that starts with `bounces` stands after a run of events. Events
/// after the end of the path change nothing.
pub open spec fn run(bounces: u32, events: Seq<Event>) -> Step
    decreases events.len(),
{
    if events.len() == 0 {
        Step::Trace(Path { bounces })
    } else {
        match run(bounces, events.drop_last()) {
            Step::Trace(path) => after(path.bounces, events.last()),
            Step::Done(fate) => Step::Done(fate),
        }
    }
}

impl Path {
    /// A path at its start, with the whole bounce budget.
    pub fn new(max_depth: u32) -> (path: Path)
        requires
            max_depth > 0,
        ensures
            path.bounces == max_depth,
    {
        Path { bounces: max_depth }
    }

    /// Takes the path one step further.
    pub fn advance(self, event: Event) -> (step: Step)
        requires
            self.bounces > 0,
        ensures
            step == after(self.bounces, event),
            step matches Step::Trace(next) ==> 0 < next.bounces < self.bounces,
    {
        match event {
            Event::Missed => Step::Done(Fate::Escaped),
            Event::Absorbed => Step::Done(Fate::Absorbed),
            Event::Scattered => {
                let left = self.bounces - 1;
                if left == 0 {
                    Step::Done(Fate::Exhausted)
                } else {
                    Step::Trace(Path { bounces: left })
                }
            },
        }
    }
}

/// How many of the events are scatterings.
pub open spec fn scatterings(events: Seq<Event>) -> nat
    decreases events.len(),
{
    if events.len() == 0 {
        0
    } else {
        scatterings(events.drop_last()) + if events.last() == Event::Scattered {
            1nat
        } else {
            0nat
        }
    }
}

/// What a path is followed through: each call moves the ray one step and says
/// what happened to it.
///
/// The contract asks one thing of an implementation, which the library cannot
/// check where the implementation computes outside it: that `seen` is the
/// record of what `bounce` has said so far.
pub trait Bounce {
    /// The events that the walker has reported so far, the oldest first.
    spec fn seen(&self) -> Vec<Event>;

    /// Moves the ray one step and reports what happened to it.
    fn bounce(&mut self) -> (event: Event)
        ensures
            final(self).seen()@ == old(self).seen()@.push(event),
    ;
}

/// What the walker has reported since it had reported `before` events.
pub open spec fn since<B: Bounce>(walker: &B, before: nat) -> Seq<Event> {
    walker.seen()@.skip(before as int)
}

/// Follows a path to its end and says how it ended and how many times it was
/// scattered on the way.
///
/// The walker is asked for one event after another, until an event ends the
/// path: a miss, an absorption, or the scattering that takes the last of the
/// `max_depth` bounces. It is not asked again after that.
pub fn trace<B: Bounce>(walker: &mut B, max_depth: u32) -> (end: (Fate, u32))
    requires
        max_depth > 0,
    ensures
        ({
            let before = old(walker).seen()@;
            let events = since(final(walker), before.len());
            &&& final(walker).seen()@ == before + events
            &&& events.len() >= 1
            &&& run(max_depth, events.drop_last()) is Trace
            &&& run(max_depth, events) == Step::Done(end.0)
            &&& end.1 == scatterings(events)
        }),
        end.1 <= max_depth,
        end.0 == Fate::Exhausted <==> end.1 == max_depth,
{
    let ghost before = walker.seen()@;
    let mut path = Path::new(max_depth);
    let mut scattered: u32 = 0;
    let mut ended: Option<Fate> = None;
    proof {
        assert(since(walker, before.len()) =~= Seq::<Event>::empty());
        assert(before + Seq::<Event>::empty() =~= before);
    }
    while ended.is_none()
        invariant
            path.bounces > 0,
            walker.seen()@ == before + since(walker, before.len()),
            scattered == scatterings(since(walker, before.len())),
            scattered <= max_depth,
            ended is None ==> path.bounces + scattered == max_depth && run(
                max_depth,
                since(walker, before.len()),
            ) == Step::Trace(path),
            ended matches Some(fate) ==> {
                let events = since(walker, before.len());
                &&& events.len() >= 1
                &&& run(max_depth, events.drop_last()) is Trace
                &&& run(max_depth, events) == Step::Done(fate)
                &&& fate == Fate::Exhausted <==> scattered == max_depth
            },
        decreases path.bounces + if ended is None { 1int } else { 0int },
    {
        let ghost so_far = since(walker, before.len());
        let event = walker.bounce();
        proof {
            let events = since(walker, before.len());
            assert(events =~= so_far.push(event));
            assert(events.drop_last() =~= so_far);
            assert(events.last() == event);
            assert(walker.seen()@ =~= before + events);
            assert(run(max_depth, events) == after(path.bounces, event));
            assert(scatterings(events) == scatterings(so_far) + if event == Event::Scattered {
                1nat
            } else {
                0nat
            });
        }
        let was_scattered = match event {
            Event::Scattered => true,
            _ => false,
        };
        match path.advance(event) {
            Step::Trace(next) => {
                path = next;
                scattered = scattered + 1;
            },
            Step::Done(fate) => {
                if was_scattered {
                    scattered = scattered + 1;
                }
                ended = Some(fate);
            },
        }
    }
    (ended.unwrap(), scattered)
}

/// A path with a budget of `bounces` has ended once it has seen that many
/// events, whatever they were.
pub proof fn lemma_budget_ends_path(bounces: u32, events: Seq<Event>)
    requires
        bounces > 0,
        events.len() >= bounces,
    ensures
        run(bounces, events) is Done,
{
    lemma_run_counts_down(bounces, events.subrange(0, bounces as int));
    lemma_done_stays_done(bounces, events, bounces as int);
}

/// A path that is still under way has been scattered at every step, and has
/// one bounce less for each.
pub proof fn lemma_run_counts_down(bounces: u32, events: Seq<Event>)
    requires
        bounces > 0,
    ensures
        run(bounces, events) matches Step::Trace(path) ==> path.bounces + events.len() == bounces
            && path.bounces > 0 && forall|i: int|
            0 <= i < events.len() ==> events[i] == Event::Scattered,
        events.len() >= bounces ==> run(bounces, events) is Done,
    decreases events.len(),
{
    if events.len() > 0 {
        let head = events.drop_last();
        lemma_run_counts_down(bounces, head);
        if run(bounces, events) is Trace {
            assert forall|i: int| 0 <= i < events.len() implies events[i] == Event::Scattered by {
                if i < head.len() {
                    assert(head[i] == events[i]);
                }
            }
        }
    }
}

/// Once a path has ended, further events do not change how it ended.
pub proof fn lemma_done_stays_done(bounces: u32, events: Seq<Event>, n: int)
    requires
        0 <= n <= events.len(),
        run(bounces, events.subrange(0, n)) is Done,
    ensures
        run(bounces, events) == run(bounces, events.subrange(0, n)),
    decreases events.len() - n,
{
    if n < events.len() {
        let head = events.drop_last();
        assert(head.subrange(0, n) =~= events.subrange(0, n));
        lemma_done_stays_done(bounces, head, n);
    } else {
        assert(events.subrange(0, n) =~= events);
    }
}

/// A path that has seen nothing but a miss escapes: it carries the colour of
/// the sky as it is, having met no surface.
pub proof fn lemma_first_miss_escapes(bounces: u32)
    requires
        bounces > 0,
    ensures
        run(bounces, seq![Event::Missed]) == Step::Done(Fate::Escaped),
{
    let events = seq![Event::Missed];
    assert(events.drop_last().len() == 0);
    assert(run(bounces, events.drop_last()) == Step::Trace(Path { bounces }));
    assert(events.last() == Event::Missed);
}

/// The seed of the random stream of image row `row`, in a render whose own
/// seed is `seed`: `(seed + 1) * row`, in arithmetic modulo 2^64.
pub open spec fn row_seed_of(seed: u64, row: u64) -> u64 {
    (((seed + 1) % 0x1_0000_0000_0000_0000) * row % 0x1_0000_0000_0000_0000) as u64
}

/// The seed of the random stream of an image row. It depends on the row and on
/// the seed of the render, and on nothing else.
pub fn row_seed(seed: u64, row: usize) -> (s: u64)
    ensures
        s == row_seed_of(seed, row as u64),
{
    seed.wrapping_add(1).wrapping_mul(row as u64)
}

} // verus!
