//! The single-wire protocol as a grammar of bus events.
//!
//! Each stage of a read attempt is described by a value that says how the
//! stage went. From that value follow both the events that the stage leaves
//! in the log and the result that it returns.
use vstd::prelude::*;
use crate::bus::Event;
use crate::error::ErrorKind;
use crate::frame::{decode, Pulse};

verus! {

/// The events of finding the line at `level` on `ticks` reads in a row, each
/// followed by a wait of one microsecond.
pub open spec fn held<E>(ticks: nat, level: bool) -> Seq<Event<E>> {
    Seq::new(
        2 * ticks,
        |i: int|
            if i % 2 == 0 {
                Event::Sampled(Ok(level))
            } else {
                Event::WaitedUs(1)
            },
    )
}

/// One more tick at the level is one more read and one more wait.
pub proof fn lemma_held_step<E>(ticks: nat, level: bool)
    ensures
        held::<E>(ticks + 1, level) == held::<E>(ticks, level).push(
            Event::Sampled(Ok(level)),
        ).push(Event::WaitedUs(1)),
{
    assert(held::<E>(ticks + 1, level) =~= held::<E>(ticks, level).push(
        Event::Sampled(Ok(level)),
    ).push(Event::WaitedUs(1)));
}

/// How the measurement of one pulse went.
pub enum Poll<E> {
    /// The line left the level after so many ticks.
    Edge(u8),
    /// After so many ticks, reading the line failed.
    Fault(u8, E),
    /// The line was at the level on every one of the 256 reads.
    Expired,
}

impl<E> Poll<E> {
    /// The events of measuring a pulse of level `level`.
    pub open spec fn events(self, level: bool) -> Seq<Event<E>> {
        match self {
            Poll::Edge(ticks) => held(ticks as nat, level).push(Event::Sampled(Ok(!level))),
            Poll::Fault(ticks, e) => held(ticks as nat, level).push(Event::Sampled(Err(e))),
            Poll::Expired => held(256, level),
        }
    }

    /// What the measurement returns.
    pub open spec fn result(self) -> Result<u8, ErrorKind<E>> {
        match self {
            Poll::Edge(ticks) => Ok(ticks),
            Poll::Fault(_, e) => Err(ErrorKind::Io(e)),
            Poll::Expired => Err(ErrorKind::Timeout),
        }
    }
}

/// The events of a start signal on which the pin never failed: pull the
/// line up for a millisecond, hold it low for the start delay of the sensor
/// model, release it and wait 40 microseconds for the sensor to take over.
pub open spec fn start_signal<E>(start_delay: u16) -> Seq<Event<E>> {
    seq![
        Event::DroveHigh(None),
        Event::WaitedMs(1),
        Event::DroveLow(None),
        Event::WaitedUs(start_delay),
        Event::DroveHigh(None),
        Event::WaitedUs(40),
    ]
}

/// How the handshake went: the start signal of the host and the two
/// acknowledgement pulses of the sensor, a low one and then a high one.
pub enum Handshake<E> {
    /// Driving the line high for the pull-up failed.
    PullUp(E),
    /// Driving the line low failed.
    Start(E),
    /// Releasing the line failed.
    Release(E),
    /// The start signal went out and the low acknowledgement did not end.
    AckLow(Poll<E>),
    /// The low acknowledgement ended after so many ticks, and the high one
    /// was measured as given.
    AckHigh(u8, Poll<E>),
}

impl<E> Handshake<E> {
    /// A low acknowledgement that ended is followed by the high one.
    pub open spec fn wf(self) -> bool {
        self matches Handshake::AckLow(poll) ==> !(poll is Edge)
    }

    /// The events of the handshake with a sensor whose start delay is
    /// `start_delay` microseconds.
    pub open spec fn events(self, start_delay: u16) -> Seq<Event<E>> {
        match self {
            Handshake::PullUp(e) => seq![Event::DroveHigh(Some(e))],
            Handshake::Start(e) => seq![
                Event::DroveHigh(None),
                Event::WaitedMs(1),
                Event::DroveLow(Some(e)),
            ],
            Handshake::Release(e) => seq![
                Event::DroveHigh(None),
                Event::WaitedMs(1),
                Event::DroveLow(None),
                Event::WaitedUs(start_delay),
                Event::DroveHigh(Some(e)),
            ],
            Handshake::AckLow(poll) => start_signal(start_delay) + poll.events(false),
            Handshake::AckHigh(low, poll) => start_signal(start_delay) + Poll::Edge(low).events(
                false,
            ) + poll.events(true),
        }
    }

    /// What the handshake returns: success once both acknowledgements have
    /// ended, else the failure of the step that failed.
    pub open spec fn result(self) -> Result<(), ErrorKind<E>> {
        match self {
            Handshake::PullUp(e) => Err(ErrorKind::Io(e)),
            Handshake::Start(e) => Err(ErrorKind::Io(e)),
            Handshake::Release(e) => Err(ErrorKind::Io(e)),
            Handshake::AckLow(poll) => match poll.result() {
                Ok(_) => Ok(()),
                Err(e) => Err(e),
            },
            Handshake::AckHigh(_, poll) => match poll.result() {
                Ok(_) => Ok(()),
                Err(e) => Err(e),
            },
        }
    }
}

/// The events of measuring one pulse pair in full: the low delimiter, then
/// the high pulse.
pub open spec fn pair_events<E>(pulse: Pulse) -> Seq<Event<E>> {
    Poll::Edge(pulse.lo).events(false) + Poll::Edge(pulse.hi).events(true)
}

/// The events of measuring pulse pairs in full, one pair after the other.
pub open spec fn pulse_events<E>(pulses: Seq<Pulse>) -> Seq<Event<E>>
    decreases pulses.len(),
{
    if pulses.len() == 0 {
        Seq::empty()
    } else {
        pulse_events(pulses.drop_last()) + pair_events(pulses.last())
    }
}

/// How the measuring of the 40 pulse pairs of a transmission went.
pub enum Frame<E> {
    /// After the pulse pairs measured in full, the low delimiter of the
    /// next bit did not end.
    Delimiter(Seq<Pulse>, Poll<E>),
    /// After the pulse pairs measured in full, the low delimiter of the
    /// next bit took so many ticks and its high pulse did not end.
    Data(Seq<Pulse>, u8, Poll<E>),
    /// All pulse pairs were measured.
    Complete(Seq<Pulse>),
}

impl<E> Frame<E> {
    /// The pulse pairs that were measured in full.
    pub open spec fn measured(self) -> Seq<Pulse> {
        match self {
            Frame::Delimiter(pulses, _) => pulses,
            Frame::Data(pulses, _, _) => pulses,
            Frame::Complete(pulses) => pulses,
        }
    }

    /// Whether this is the measuring of a transmission of `pairs` pulse
    /// pairs: all of them measured, or fewer and then a pulse that did not
    /// end.
    pub open spec fn wf_for(self, pairs: nat) -> bool {
        match self {
            Frame::Delimiter(pulses, poll) => pulses.len() < pairs && !(poll is Edge),
            Frame::Data(pulses, _, poll) => pulses.len() < pairs && !(poll is Edge),
            Frame::Complete(pulses) => pulses.len() == pairs,
        }
    }

    /// The same measuring without the first pulse pair.
    pub open spec fn peeled(self) -> Self {
        match self {
            Frame::Delimiter(pulses, poll) => Frame::Delimiter(pulses.skip(1), poll),
            Frame::Data(pulses, lo, poll) => Frame::Data(pulses.skip(1), lo, poll),
            Frame::Complete(pulses) => Frame::Complete(pulses.skip(1)),
        }
    }

    /// A transmission has 40 pulse pairs.
    pub open spec fn wf(self) -> bool {
        self.wf_for(40)
    }

    /// The events of the measuring.
    pub open spec fn events(self) -> Seq<Event<E>> {
        match self {
            Frame::Delimiter(pulses, poll) => pulse_events(pulses) + poll.events(false),
            Frame::Data(pulses, lo, poll) => pulse_events(pulses) + Poll::Edge(lo).events(false)
                + poll.events(true),
            Frame::Complete(pulses) => pulse_events(pulses),
        }
    }

    /// What comes of the measuring: the failure of the pulse that did not
    /// end, or what the pulse pairs decode to, which is the four data bytes
    /// or a checksum error.
    pub open spec fn result(self) -> Result<Seq<u8>, ErrorKind<E>> {
        match self {
            Frame::Delimiter(_, poll) => Err(poll.result()->Err_0),
            Frame::Data(_, _, poll) => Err(poll.result()->Err_0),
            Frame::Complete(pulses) => decode(pulses),
        }
    }
}

/// How one read attempt went.
pub enum Attempt<E> {
    /// The handshake failed.
    Unanswered(Handshake<E>),
    /// The handshake succeeded and the pulses were measured as given.
    Answered(Handshake<E>, Frame<E>),
}

impl<E> Attempt<E> {
    /// Pulses are measured after a handshake that succeeded, and only then.
    pub open spec fn wf(self) -> bool {
        match self {
            Attempt::Unanswered(handshake) => handshake.wf() && handshake.result() is Err,
            Attempt::Answered(handshake, frame) => {
                &&& handshake.wf()
                &&& handshake.result() is Ok
                &&& frame.wf()
            },
        }
    }

    /// The events of the attempt on a sensor whose start delay is
    /// `start_delay` microseconds.
    pub open spec fn events(self, start_delay: u16) -> Seq<Event<E>> {
        match self {
            Attempt::Unanswered(handshake) => handshake.events(start_delay),
            Attempt::Answered(handshake, frame) => handshake.events(start_delay) + frame.events(),
        }
    }

    /// What the attempt returns: the failure of the step that failed, or
    /// what the 40 pulse pairs decode to.
    pub open spec fn result(self) -> Result<Seq<u8>, ErrorKind<E>> {
        match self {
            Attempt::Unanswered(handshake) => Err(handshake.result()->Err_0),
            Attempt::Answered(_, frame) => frame.result(),
        }
    }
}

/// The pin's error, if the event is a call on the pin that failed.
pub open spec fn fault<E>(event: Event<E>) -> Option<E> {
    match event {
        Event::Sampled(Err(e)) => Some(e),
        Event::DroveHigh(Some(e)) => Some(e),
        Event::DroveLow(Some(e)) => Some(e),
        _ => None,
    }
}

/// Whether no call on the pin failed.
pub open spec fn clean<E>(events: Seq<Event<E>>) -> bool {
    forall|i: int| 0 <= i < events.len() ==> fault(#[trigger] events[i]) is None
}

proof fn lemma_pulse_events_clean<E>(pulses: Seq<Pulse>)
    ensures
        clean(pulse_events::<E>(pulses)),
    decreases pulses.len(),
{
    if pulses.len() > 0 {
        lemma_pulse_events_clean::<E>(pulses.drop_last());
        assert(clean(Poll::<E>::Edge(pulses.last().lo).events(false)));
        assert(clean(Poll::<E>::Edge(pulses.last().hi).events(true)));
    }
}

proof fn lemma_pulse_events_front<E>(pulses: Seq<Pulse>)
    requires
        pulses.len() > 0,
    ensures
        pulse_events::<E>(pulses) == pair_events::<E>(pulses[0]) + pulse_events::<E>(
            pulses.skip(1),
        ),
    decreases pulses.len(),
{
    let rest = pulses.skip(1);
    if pulses.len() == 1 {
        assert(pulse_events::<E>(pulses.drop_last()) =~= Seq::empty());
        assert(pulse_events::<E>(rest) =~= Seq::empty());
        assert(pulse_events::<E>(pulses) =~= pair_events::<E>(pulses[0]) + pulse_events::<E>(
            rest,
        ));
    } else {
        let init = pulses.drop_last();
        lemma_pulse_events_front::<E>(init);
        assert(rest.drop_last() =~= init.skip(1));
        assert(rest.last() == pulses.last());
        assert(pulse_events::<E>(pulses) =~= pair_events::<E>(pulses[0]) + pulse_events::<E>(
            rest,
        ));
    }
}

/// Equal prefixes cancel.
proof fn lemma_cancel<A>(head: Seq<A>, x: Seq<A>, y: Seq<A>)
    requires
        head + x == head + y,
    ensures
        x == y,
{
    assert(x =~= (head + x).skip(head.len() as int));
    assert(y =~= (head + y).skip(head.len() as int));
}

/// The events of a measurement tell where it ends: of two measurements of
/// which each is followed by further events, and which give the same events
/// in all, the first are the same and so is what follows them.
pub proof fn lemma_poll_prefix_free<E>(
    p: Poll<E>,
    q: Poll<E>,
    level: bool,
    x: Seq<Event<E>>,
    y: Seq<Event<E>>,
)
    requires
        p.events(level) + x == q.events(level) + y,
    ensures
        p == q,
        x == y,
{
    let all = p.events(level) + x;
    let ticks_p: int = match p {
        Poll::Edge(ticks) => ticks as int,
        Poll::Fault(ticks, _) => ticks as int,
        Poll::Expired => 256,
    };
    let ticks_q: int = match q {
        Poll::Edge(ticks) => ticks as int,
        Poll::Fault(ticks, _) => ticks as int,
        Poll::Expired => 256,
    };
    assert(p.events(level).len() >= 2 * ticks_p);
    assert(q.events(level).len() >= 2 * ticks_q);
    if ticks_p < ticks_q {
        assert(all[2 * ticks_p] == p.events(level)[2 * ticks_p]);
        assert(all[2 * ticks_p] == q.events(level)[2 * ticks_p]);
        assert(q.events(level)[2 * ticks_p] == Event::<E>::Sampled(Ok(level)));
        assert(false);
    }
    if ticks_q < ticks_p {
        assert(all[2 * ticks_q] == q.events(level)[2 * ticks_q]);
        assert(all[2 * ticks_q] == p.events(level)[2 * ticks_q]);
        assert(p.events(level)[2 * ticks_q] == Event::<E>::Sampled(Ok(level)));
        assert(false);
    }
    if ticks_p < 256 {
        assert(all[2 * ticks_p] == p.events(level)[2 * ticks_p]);
        assert(all[2 * ticks_p] == q.events(level)[2 * ticks_p]);
    }
    assert(p == q);
    lemma_cancel(p.events(level), x, y);
}

/// What the line did during a measurement settles how the measurement
/// went: two measurements with the same events are the same.
pub proof fn lemma_poll_determined<E>(p: Poll<E>, q: Poll<E>, level: bool)
    requires
        p.events(level) == q.events(level),
    ensures
        p == q,
{
    lemma_poll_prefix_free(p, q, level, Seq::empty(), Seq::empty());
}

/// A measurement ends in a timeout exactly if the line was found at the
/// level on all 256 reads, and returns `ticks` exactly if it was found at
/// the level on `ticks` reads and at the other level on the next.
pub proof fn lemma_pulse_outcome<E>(poll: Poll<E>, level: bool, ticks: u8)
    ensures
        poll.events(level) == held::<E>(256, level) <==> poll.result() == Err::<u8, ErrorKind<E>>(
            ErrorKind::Timeout,
        ),
        poll.events(level) == held::<E>(ticks as nat, level).push(Event::Sampled(Ok(!level)))
            <==> poll.result() == Ok::<u8, ErrorKind<E>>(ticks),
{
    if poll.events(level) == held::<E>(256, level) {
        lemma_poll_determined(poll, Poll::Expired, level);
    }
    if poll.events(level) == held::<E>(ticks as nat, level).push(Event::Sampled(Ok(!level))) {
        lemma_poll_determined(poll, Poll::Edge(ticks), level);
    }
}

/// The events of a handshake tell how it went and where it ends.
pub proof fn lemma_handshake_prefix_free<E>(
    g: Handshake<E>,
    h: Handshake<E>,
    start_delay: u16,
    x: Seq<Event<E>>,
    y: Seq<Event<E>>,
)
    requires
        g.wf(),
        h.wf(),
        g.events(start_delay) + x == h.events(start_delay) + y,
    ensures
        g == h,
        x == y,
{
    let all = g.events(start_delay) + x;
    let sent = start_signal::<E>(start_delay);
    assert(all[0] == g.events(start_delay)[0]);
    assert(all[0] == h.events(start_delay)[0]);
    if !(g is PullUp) && !(h is PullUp) {
        assert(all[2] == g.events(start_delay)[2]);
        assert(all[2] == h.events(start_delay)[2]);
        if !(g is Start) && !(h is Start) {
            assert(all[4] == g.events(start_delay)[4]);
            assert(all[4] == h.events(start_delay)[4]);
        }
    }
    match (g, h) {
        (Handshake::AckLow(p), Handshake::AckLow(q)) => {
            assert(sent + (p.events(false) + x) =~= all);
            assert(sent + (q.events(false) + y) =~= all);
            lemma_cancel(sent, p.events(false) + x, q.events(false) + y);
            lemma_poll_prefix_free(p, q, false, x, y);
        },
        (Handshake::AckLow(p), Handshake::AckHigh(low, q)) => {
            let edge = Poll::<E>::Edge(low);
            let rest = q.events(true) + y;
            assert(sent + (p.events(false) + x) =~= all);
            assert(sent + (edge.events(false) + rest) =~= all);
            lemma_cancel(sent, p.events(false) + x, edge.events(false) + rest);
            lemma_poll_prefix_free(p, edge, false, x, rest);
        },
        (Handshake::AckHigh(low, p), Handshake::AckLow(q)) => {
            let edge = Poll::<E>::Edge(low);
            let rest = p.events(true) + x;
            assert(sent + (edge.events(false) + rest) =~= all);
            assert(sent + (q.events(false) + y) =~= all);
            lemma_cancel(sent, edge.events(false) + rest, q.events(false) + y);
            lemma_poll_prefix_free(edge, q, false, rest, y);
        },
        (Handshake::AckHigh(low_g, p), Handshake::AckHigh(low_h, q)) => {
            let edge_g = Poll::<E>::Edge(low_g);
            let edge_h = Poll::<E>::Edge(low_h);
            let rest_g = p.events(true) + x;
            let rest_h = q.events(true) + y;
            assert(sent + (edge_g.events(false) + rest_g) =~= all);
            assert(sent + (edge_h.events(false) + rest_h) =~= all);
            lemma_cancel(sent, edge_g.events(false) + rest_g, edge_h.events(false) + rest_h);
            lemma_poll_prefix_free(edge_g, edge_h, false, rest_g, rest_h);
            lemma_poll_prefix_free(p, q, true, x, y);
        },
        _ => {
            assert(g == h);
            lemma_cancel(g.events(start_delay), x, y);
        },
    }
}

/// The events of a frame of which a pulse pair was measured in full begin
/// with the events of its first pair.
proof fn lemma_frame_front<E>(f: Frame<E>)
    requires
        f.measured().len() > 0,
    ensures
        f.events() == Poll::<E>::Edge(f.measured()[0].lo).events(false) + (Poll::<E>::Edge(
            f.measured()[0].hi,
        ).events(true) + f.peeled().events()),
{
    lemma_pulse_events_front::<E>(f.measured());
    assert(f.events() =~= Poll::<E>::Edge(f.measured()[0].lo).events(false) + (Poll::<E>::Edge(
        f.measured()[0].hi,
    ).events(true) + f.peeled().events()));
}

/// A frame whose events begin with the events of a pulse pair has that
/// pair as the first that it measured.
proof fn lemma_first_pair<E>(f: Frame<E>, pairs: nat, first: Pulse, rest: Seq<Event<E>>)
    requires
        pairs > 0,
        f.wf_for(pairs),
        f.events() == Poll::<E>::Edge(first.lo).events(false) + (Poll::<E>::Edge(first.hi).events(
            true,
        ) + rest),
    ensures
        f.measured().len() > 0,
        f.measured()[0] == first,
        f.peeled().events() == rest,
{
    let none = Seq::<Event<E>>::empty();
    let lo = Poll::<E>::Edge(first.lo);
    let hi = Poll::<E>::Edge(first.hi);
    if f.measured().len() > 0 {
        let lo_f = Poll::<E>::Edge(f.measured()[0].lo);
        let hi_f = Poll::<E>::Edge(f.measured()[0].hi);
        lemma_frame_front(f);
        lemma_poll_prefix_free(
            lo_f,
            lo,
            false,
            hi_f.events(true) + f.peeled().events(),
            hi.events(true) + rest,
        );
        lemma_poll_prefix_free(hi_f, hi, true, f.peeled().events(), rest);
    } else {
        assert(pulse_events::<E>(f.measured()) =~= none);
        match f {
            Frame::Delimiter(_, p) => {
                assert(f.events() =~= p.events(false) + none);
                lemma_poll_prefix_free(p, lo, false, none, hi.events(true) + rest);
            },
            Frame::Data(_, ticks, p) => {
                let edge = Poll::<E>::Edge(ticks);
                assert(f.events() =~= edge.events(false) + (p.events(true) + none));
                lemma_poll_prefix_free(
                    edge,
                    lo,
                    false,
                    p.events(true) + none,
                    hi.events(true) + rest,
                );
                lemma_poll_prefix_free(p, hi, true, none, rest);
            },
            Frame::Complete(_) => {},
        }
    }
}

proof fn lemma_frame_determined_for<E>(f: Frame<E>, g: Frame<E>, pairs: nat)
    requires
        f.wf_for(pairs),
        g.wf_for(pairs),
        f.events() == g.events(),
    ensures
        f == g,
    decreases pairs,
{
    let none = Seq::<Event<E>>::empty();
    if f.measured().len() > 0 {
        lemma_frame_front(f);
        lemma_first_pair(g, pairs, f.measured()[0], f.peeled().events());
        lemma_frame_determined_for(f.peeled(), g.peeled(), (pairs - 1) as nat);
        assert(f.measured() =~= seq![f.measured()[0]] + f.peeled().measured());
        assert(g.measured() =~= seq![g.measured()[0]] + g.peeled().measured());
    } else if g.measured().len() > 0 {
        lemma_frame_front(g);
        lemma_first_pair(f, pairs, g.measured()[0], g.peeled().events());
    } else {
        assert(f.measured() =~= g.measured());
        assert(pulse_events::<E>(f.measured()) =~= none);
        match (f, g) {
            (Frame::Delimiter(_, p), Frame::Delimiter(_, q)) => {
                assert(f.events() =~= p.events(false) + none);
                assert(g.events() =~= q.events(false) + none);
                lemma_poll_prefix_free(p, q, false, none, none);
            },
            (Frame::Delimiter(_, p), Frame::Data(_, lo, q)) => {
                let edge = Poll::<E>::Edge(lo);
                assert(f.events() =~= p.events(false) + none);
                assert(g.events() =~= edge.events(false) + q.events(true));
                lemma_poll_prefix_free(p, edge, false, none, q.events(true));
            },
            (Frame::Data(_, lo, p), Frame::Delimiter(_, q)) => {
                let edge = Poll::<E>::Edge(lo);
                assert(f.events() =~= edge.events(false) + p.events(true));
                assert(g.events() =~= q.events(false) + none);
                lemma_poll_prefix_free(edge, q, false, p.events(true), none);
            },
            (Frame::Data(_, lo_f, p), Frame::Data(_, lo_g, q)) => {
                let edge_f = Poll::<E>::Edge(lo_f);
                let edge_g = Poll::<E>::Edge(lo_g);
                assert(f.events() =~= edge_f.events(false) + p.events(true));
                assert(g.events() =~= edge_g.events(false) + q.events(true));
                lemma_poll_prefix_free(edge_f, edge_g, false, p.events(true), q.events(true));
                lemma_poll_determined(p, q, true);
            },
            _ => {},
        }
    }
}

/// What the line did while the pulses were measured settles how the
/// measuring went.
pub proof fn lemma_frame_determined<E>(f: Frame<E>, g: Frame<E>)
    requires
        f.wf(),
        g.wf(),
        f.events() == g.events(),
    ensures
        f == g,
{
    lemma_frame_determined_for(f, g, 40);
}

/// What was done on the pin and what it answered settle how a read attempt
/// went, and with it what the attempt returns: two attempts with the same
/// events are the same.
pub proof fn lemma_attempt_determined<E>(a: Attempt<E>, b: Attempt<E>, start_delay: u16)
    requires
        a.wf(),
        b.wf(),
        a.events(start_delay) == b.events(start_delay),
    ensures
        a == b,
        a.result() == b.result(),
{
    let none = Seq::<Event<E>>::empty();
    match (a, b) {
        (Attempt::Unanswered(g), Attempt::Unanswered(h)) => {
            assert(g.events(start_delay) + none =~= h.events(start_delay) + none);
            lemma_handshake_prefix_free(g, h, start_delay, none, none);
        },
        (Attempt::Unanswered(g), Attempt::Answered(h, frame)) => {
            assert(g.events(start_delay) + none =~= h.events(start_delay) + frame.events());
            lemma_handshake_prefix_free(g, h, start_delay, none, frame.events());
        },
        (Attempt::Answered(g, frame), Attempt::Unanswered(h)) => {
            assert(g.events(start_delay) + frame.events() =~= h.events(start_delay) + none);
            lemma_handshake_prefix_free(g, h, start_delay, frame.events(), none);
        },
        (Attempt::Answered(g, frame_g), Attempt::Answered(h, frame_h)) => {
            lemma_handshake_prefix_free(g, h, start_delay, frame_g.events(), frame_h.events());
            lemma_frame_determined(frame_g, frame_h);
        },
    }
}

/// A failed read of the line is the last event of a measurement and its
/// error is what the measurement returns.
pub proof fn lemma_fault_ends_poll<E>(poll: Poll<E>, level: bool, i: int, e: E)
    requires
        0 <= i < poll.events(level).len(),
        fault(poll.events(level)[i]) == Some(e),
    ensures
        i == poll.events(level).len() - 1,
        poll.result() == Err::<u8, ErrorKind<E>>(ErrorKind::Io(e)),
{
}

/// A failed call on the pin is the last event of a handshake and its error
/// is what the handshake returns.
pub proof fn lemma_fault_ends_handshake<E>(
    handshake: Handshake<E>,
    start_delay: u16,
    i: int,
    e: E,
)
    requires
        handshake.wf(),
        0 <= i < handshake.events(start_delay).len(),
        fault(handshake.events(start_delay)[i]) == Some(e),
    ensures
        i == handshake.events(start_delay).len() - 1,
        handshake.result() == Err::<(), ErrorKind<E>>(ErrorKind::Io(e)),
{
    let sent = start_signal::<E>(start_delay);
    match handshake {
        Handshake::AckLow(poll) => {
            lemma_fault_ends_poll(poll, false, i - sent.len(), e);
        },
        Handshake::AckHigh(low, poll) => {
            let edge = Poll::<E>::Edge(low).events(false);
            assert(clean(edge));
            lemma_fault_ends_poll(poll, true, i - sent.len() - edge.len(), e);
        },
        _ => {},
    }
}

/// A failed read of the line is the last event of the measuring of a frame
/// and its error is what comes of the measuring.
pub proof fn lemma_fault_ends_frame<E>(frame: Frame<E>, i: int, e: E)
    requires
        frame.wf(),
        0 <= i < frame.events().len(),
        fault(frame.events()[i]) == Some(e),
    ensures
        i == frame.events().len() - 1,
        frame.result() == Err::<Seq<u8>, ErrorKind<E>>(ErrorKind::Io(e)),
{
    let body = pulse_events::<E>(frame.measured());
    lemma_pulse_events_clean::<E>(frame.measured());
    match frame {
        Frame::Delimiter(_, poll) => {
            lemma_fault_ends_poll(poll, false, i - body.len(), e);
        },
        Frame::Data(_, lo, poll) => {
            let edge = Poll::<E>::Edge(lo).events(false);
            assert(clean(edge));
            lemma_fault_ends_poll(poll, true, i - body.len() - edge.len(), e);
        },
        Frame::Complete(_) => {},
    }
}

/// A failed call on the pin ends the read attempt then and there: it is
/// the last event of the attempt, and the attempt returns the pin's error,
/// not a timeout and not a checksum error. In particular a handshake on
/// which the pin fails is followed by no measurement and no decoding.
pub proof fn lemma_fault_ends_attempt<E>(attempt: Attempt<E>, start_delay: u16, i: int, e: E)
    requires
        attempt.wf(),
        0 <= i < attempt.events(start_delay).len(),
        fault(attempt.events(start_delay)[i]) == Some(e),
    ensures
        i == attempt.events(start_delay).len() - 1,
        attempt.result() == Err::<Seq<u8>, ErrorKind<E>>(ErrorKind::Io(e)),
{
    match attempt {
        Attempt::Unanswered(handshake) => {
            lemma_fault_ends_handshake(handshake, start_delay, i, e);
        },
        Attempt::Answered(handshake, frame) => {
            let head = handshake.events(start_delay);
            if i < head.len() {
                lemma_fault_ends_handshake(handshake, start_delay, i, e);
            } else {
                lemma_fault_ends_frame(frame, i - head.len(), e);
            }
        },
    }
}

} // verus!
