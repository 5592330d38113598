use vstd::prelude::*;

verus! {

/// What the status light should show.
#[derive(Clone, Copy, Debug, PartialEq, Eq, Structural)]
pub enum BlinkCommand {
    /// Switch the light off and keep it off.
    Off,
    /// Keep the light on.
    Solid,
    /// Toggle the light every so many milliseconds.
    AlternateEveryMilli(u64),
    /// On for two seconds, then so many short blinks, then off for half a second; again and again.
    SolidThenPulseN(usize),
}

/// What to do to the light.
#[derive(Clone, Copy, Debug, PartialEq, Eq, Structural)]
pub enum LedAction {
    SetHigh,
    SetLow,
    Toggle,
}

/// What to do now: an optional change of the light, then how long to wait
/// before the next step (`None`: wait for the next command only).
#[derive(Clone, Copy, Debug, PartialEq, Eq, Structural)]
pub struct BlinkAction {
    pub led: Option<LedAction>,
    pub wait_ms: Option<u64>,
}

/// What the light's driver is told: a new command, or that the wait it was
/// given has passed.
#[derive(Clone, Copy, Debug, PartialEq, Eq, Structural)]
pub enum BlinkEvent {
    Received(BlinkCommand),
    TimerElapsed,
}

/// A step that changes the light and then waits.
pub open spec fn timed(led: LedAction, ms: u64) -> BlinkAction {
    BlinkAction { led: Some(led), wait_ms: Some(ms) }
}

/// One period of the "solid then `n` pulses" pattern: on for 2 s, then `n`
/// times off for 250 ms and on for 250 ms, then off for 500 ms.
pub open spec fn pulse_cycle(n: nat) -> Seq<BlinkAction> {
    seq![timed(LedAction::SetHigh, 2000)] + Seq::new(
        2 * n,
        |i: int|
            if i % 2 == 0 {
                timed(LedAction::SetLow, 250)
            } else {
                timed(LedAction::SetHigh, 250)
            },
    ) + seq![timed(LedAction::SetLow, 500)]
}

/// One period of the alternating pattern: toggle, wait, toggle, wait.
pub open spec fn alternate_cycle(ms: u64) -> Seq<BlinkAction> {
    seq![timed(LedAction::Toggle, ms), timed(LedAction::Toggle, ms)]
}

/// The steps a command repeats, in order.
pub open spec fn cycle(cmd: BlinkCommand) -> Seq<BlinkAction> {
    match cmd {
        BlinkCommand::Off => seq![BlinkAction { led: Some(LedAction::SetLow), wait_ms: None }],
        BlinkCommand::Solid => seq![BlinkAction { led: Some(LedAction::SetHigh), wait_ms: None }],
        BlinkCommand::AlternateEveryMilli(ms) => alternate_cycle(ms),
        BlinkCommand::SolidThenPulseN(n) => pulse_cycle(n as nat),
    }
}

/// Where the light's driver stands in a period of its pattern.
#[derive(Clone, Copy, Debug, PartialEq, Eq, Structural)]
pub enum Phase {
    /// The first step of the period.
    Start,
    /// The off half of the pulse with this number (from 0).
    PulseLow(usize),
    /// The on half of the pulse with this number (from 0).
    PulseHigh(usize),
    /// The last step of the period.
    End,
}

/// The light's driver: the command being shown and the step it is at.
pub struct Blinker {
    command: BlinkCommand,
    phase: Phase,
}

/// The position of a phase in the command's period.
pub open spec fn phase_index(cmd: BlinkCommand, phase: Phase) -> int {
    match phase {
        Phase::Start => 0,
        Phase::PulseLow(k) => 1 + 2 * k,
        Phase::PulseHigh(k) => 2 + 2 * k,
        Phase::End => cycle(cmd).len() - 1,
    }
}

/// The phases a command's period goes through.
pub open spec fn phase_fits(cmd: BlinkCommand, phase: Phase) -> bool {
    match phase {
        Phase::Start => true,
        Phase::End => cmd is AlternateEveryMilli || cmd is SolidThenPulseN,
        Phase::PulseLow(k) => cmd matches BlinkCommand::SolidThenPulseN(n) && k < n,
        Phase::PulseHigh(k) => cmd matches BlinkCommand::SolidThenPulseN(n) && k < n,
    }
}

/// The state a driver goes to on an event.
pub open spec fn next_state(cmd: BlinkCommand, index: int, event: BlinkEvent) -> (BlinkCommand, int) {
    match event {
        BlinkEvent::Received(c) => (c, 0),
        BlinkEvent::TimerElapsed => (cmd, (index + 1) % (cycle(cmd).len() as int)),
    }
}

impl Blinker {
    /// The command being shown.
    pub closed spec fn command(self) -> BlinkCommand {
        self.command
    }

    /// The position of the current step in the command's period.
    pub closed spec fn index(self) -> int {
        phase_index(self.command, self.phase)
    }

    #[verifier::type_invariant]
    spec fn phase_in_cycle(self) -> bool {
        phase_fits(self.command, self.phase)
    }

    /// A driver that is to show nothing; it changes the light on its first event.
    pub fn new() -> (res: Self)
        ensures
            res.command() == BlinkCommand::Off,
            res.index() == 0,
            cycle(res.command()).len() == 1,
    {
        Blinker { command: BlinkCommand::Off, phase: Phase::Start }
    }

    /// The step of the period at the current phase.
    fn current(&self) -> (res: BlinkAction)
        ensures
            res == cycle(self.command())[self.index()],
    {
        proof {
            use_type_invariant(self);
        }
        match self.command {
            BlinkCommand::Off => BlinkAction { led: Some(LedAction::SetLow), wait_ms: None },
            BlinkCommand::Solid => BlinkAction { led: Some(LedAction::SetHigh), wait_ms: None },
            BlinkCommand::AlternateEveryMilli(ms) => alternate_ms(ms),
            BlinkCommand::SolidThenPulseN(n) => solid_then_pulse_n(n, self.phase),
        }
    }

    /// Takes in an event and says what to do next: a new command starts its
    /// pattern from the first step; a passed wait moves to the next step of
    /// the period, back to the first after the last.
    pub fn handle(&mut self, event: BlinkEvent) -> (res: BlinkAction)
        ensures
            (final(self).command(), final(self).index()) == next_state(
                old(self).command(),
                old(self).index(),
                event,
            ),
            0 <= final(self).index() < cycle(final(self).command()).len(),
            res == cycle(final(self).command())[final(self).index()],
    {
        proof {
            use_type_invariant(&*self);
        }
        match event {
            BlinkEvent::Received(c) => {
                *self = Blinker { command: c, phase: Phase::Start };
            },
            BlinkEvent::TimerElapsed => {
                let next = match (self.command, self.phase) {
                    (BlinkCommand::AlternateEveryMilli(_), Phase::Start) => Phase::End,
                    (BlinkCommand::SolidThenPulseN(n), Phase::Start) => {
                        if n > 0 {
                            Phase::PulseLow(0)
                        } else {
                            Phase::End
                        }
                    },
                    (BlinkCommand::SolidThenPulseN(_), Phase::PulseLow(k)) => Phase::PulseHigh(k),
                    (BlinkCommand::SolidThenPulseN(n), Phase::PulseHigh(k)) => {
                        if k + 1 < n {
                            Phase::PulseLow(k + 1)
                        } else {
                            Phase::End
                        }
                    },
                    _ => Phase::Start,
                };
                proof {
                    lemma_cycle_len(self.command);
                    let len = cycle(self.command).len() as int;
                    let i = phase_index(self.command, self.phase);
                    let j = phase_index(self.command, next);
                    assert(0 <= j < len);
                    if i + 1 < len {
                        assert(j == i + 1);
                        vstd::arithmetic::div_mod::lemma_small_mod((i + 1) as nat, len as nat);
                    } else {
                        assert(i + 1 == len && j == 0);
                        vstd::arithmetic::div_mod::lemma_mod_self_0(len);
                    }
                }
                *self = Blinker { command: self.command, phase: next };
            },
        }
        self.current()
    }
}

/// The length of a command's period.
pub proof fn lemma_cycle_len(cmd: BlinkCommand)
    ensures
        cycle(cmd).len() == match cmd {
            BlinkCommand::Off => 1int,
            BlinkCommand::Solid => 1,
            BlinkCommand::AlternateEveryMilli(_) => 2,
            BlinkCommand::SolidThenPulseN(n) => 2 * n + 2,
        },
{
}

/// The step of the "solid then `n` pulses" pattern at `phase`.
pub fn solid_then_pulse_n(n: usize, phase: Phase) -> (res: BlinkAction)
    requires
        phase_fits(BlinkCommand::SolidThenPulseN(n), phase),
    ensures
        res == pulse_cycle(n as nat)[phase_index(BlinkCommand::SolidThenPulseN(n), phase)],
{
    match phase {
        Phase::Start => BlinkAction { led: Some(LedAction::SetHigh), wait_ms: Some(2000) },
        Phase::PulseLow(k) => {
            assert(pulse_cycle(n as nat)[1 + 2 * k] == timed(LedAction::SetLow, 250));
            BlinkAction { led: Some(LedAction::SetLow), wait_ms: Some(250) }
        },
        Phase::PulseHigh(k) => {
            assert(pulse_cycle(n as nat)[2 + 2 * k] == timed(LedAction::SetHigh, 250));
            BlinkAction { led: Some(LedAction::SetHigh), wait_ms: Some(250) }
        },
        Phase::End => BlinkAction { led: Some(LedAction::SetLow), wait_ms: Some(500) },
    }
}

/// The step of the alternating pattern: toggle, then wait `ms`.
pub fn alternate_ms(ms: u64) -> (res: BlinkAction)
    ensures
        res == alternate_cycle(ms)[0],
        res == alternate_cycle(ms)[1],
{
    BlinkAction { led: Some(LedAction::Toggle), wait_ms: Some(ms) }
}

/// The state a driver reaches through a list of events, one after another.
pub open spec fn run(cmd: BlinkCommand, index: int, events: Seq<BlinkEvent>) -> (BlinkCommand, int)
    decreases events.len(),
{
    if events.len() == 0 {
        (cmd, index)
    } else {
        let (c, i) = run(cmd, index, events.drop_last());
        next_state(c, i, events.last())
    }
}

/// `k` passed waits in a row.
pub open spec fn timer_events(k: nat) -> Seq<BlinkEvent> {
    Seq::new(k, |i: int| BlinkEvent::TimerElapsed)
}

/// Whatever the driver was doing, after a command and then `k` passed waits
/// it is at step `k` of the command's period, counted round and round: it
/// plays the command's pattern from its start, over and over, until the next
/// command comes.
pub proof fn lemma_command_plays_cycle(cmd: BlinkCommand, index: int, c: BlinkCommand, k: nat)
    ensures
        run(cmd, index, seq![BlinkEvent::Received(c)] + timer_events(k)) == (c, (k as int) % (
        cycle(c).len() as int)),
    decreases k,
{
    lemma_cycle_len(c);
    let len = cycle(c).len() as int;
    let events = seq![BlinkEvent::Received(c)] + timer_events(k);
    if k == 0 {
        assert(events.drop_last() =~= Seq::<BlinkEvent>::empty());
        vstd::arithmetic::div_mod::lemma_small_mod(0, len as nat);
    } else {
        lemma_command_plays_cycle(cmd, index, c, (k - 1) as nat);
        assert(events.drop_last() =~= seq![BlinkEvent::Received(c)] + timer_events((k - 1) as nat));
        assert(events.last() == BlinkEvent::TimerElapsed);
        vstd::arithmetic::div_mod::lemma_add_mod_noop_right(1, (k - 1) as int, len);
    }
}

/// The number of steps that switch the light off for a short blink (250 ms).
pub open spec fn short_blinks(steps: Seq<BlinkAction>) -> nat
    decreases steps.len(),
{
    if steps.len() == 0 {
        0
    } else {
        short_blinks(steps.drop_last()) + if steps.last() == timed(LedAction::SetLow, 250) {
            1nat
        } else {
            0nat
        }
    }
}

/// The time one period of steps takes, in milliseconds.
pub open spec fn period_ms(steps: Seq<BlinkAction>) -> nat
    decreases steps.len(),
{
    if steps.len() == 0 {
        0
    } else {
        period_ms(steps.drop_last()) + match steps.last().wait_ms {
            Some(ms) => ms as nat,
            None => 0nat,
        }
    }
}

proof fn lemma_single(a: BlinkAction)
    ensures
        short_blinks(seq![a]) == if a == timed(LedAction::SetLow, 250) {
            1nat
        } else {
            0nat
        },
        period_ms(seq![a]) == match a.wait_ms {
            Some(ms) => ms as nat,
            None => 0nat,
        },
{
    let one = seq![a];
    assert(one.len() == 1);
    assert(one.last() == a);
    assert(one.drop_last() =~= Seq::<BlinkAction>::empty());
    assert(short_blinks(Seq::<BlinkAction>::empty()) == 0);
    assert(period_ms(Seq::<BlinkAction>::empty()) == 0);
}

proof fn lemma_counts_concat(a: Seq<BlinkAction>, b: Seq<BlinkAction>)
    ensures
        short_blinks(a + b) == short_blinks(a) + short_blinks(b),
        period_ms(a + b) == period_ms(a) + period_ms(b),
    decreases b.len(),
{
    if b.len() > 0 {
        lemma_counts_concat(a, b.drop_last());
        assert((a + b).drop_last() =~= a + b.drop_last());
        assert((a + b).last() == b.last());
    } else {
        assert(a + b =~= a);
    }
}

/// The pulses of the "solid then `n` pulses" pattern.
spec fn pulses(n: nat) -> Seq<BlinkAction> {
    Seq::new(
        2 * n,
        |i: int|
            if i % 2 == 0 {
                timed(LedAction::SetLow, 250)
            } else {
                timed(LedAction::SetHigh, 250)
            },
    )
}

proof fn lemma_pulses(n: nat)
    ensures
        short_blinks(pulses(n)) == n,
        period_ms(pulses(n)) == 500 * n,
    decreases n,
{
    if n > 0 {
        lemma_pulses((n - 1) as nat);
        let pair = seq![timed(LedAction::SetLow, 250), timed(LedAction::SetHigh, 250)];
        assert forall|i: int| 0 <= i < 2 * n implies #[trigger] pulses(n)[i] == (pulses(
            (n - 1) as nat,
        ) + pair)[i] by {
            if i >= 2 * (n - 1) {
                assert(i - 2 * (n - 1) == 0 ==> i % 2 == 0);
                assert(i - 2 * (n - 1) == 1 ==> i % 2 == 1);
            }
        }
        assert(pulses(n) =~= pulses((n - 1) as nat) + pair);
        lemma_counts_concat(pulses((n - 1) as nat), pair);
        assert(pair =~= seq![timed(LedAction::SetLow, 250)] + seq![timed(LedAction::SetHigh, 250)]);
        lemma_counts_concat(seq![timed(LedAction::SetLow, 250)], seq![timed(LedAction::SetHigh, 250)]);
        lemma_single(timed(LedAction::SetLow, 250));
        lemma_single(timed(LedAction::SetHigh, 250));
    } else {
        assert(pulses(n) =~= Seq::<BlinkAction>::empty());
    }
}

/// A period of the "solid then `n` pulses" pattern shows the light on for
/// two seconds, then blinks it exactly `n` times, and lasts 2.5 s plus half a
/// second per blink.
pub proof fn lemma_pulse_cycle_blinks(n: nat)
    ensures
        pulse_cycle(n)[0] == timed(LedAction::SetHigh, 2000),
        short_blinks(pulse_cycle(n)) == n,
        period_ms(pulse_cycle(n)) == 2500 + 500 * n,
{
    let lead = seq![timed(LedAction::SetHigh, 2000)];
    let tail = seq![timed(LedAction::SetLow, 500)];
    assert(pulse_cycle(n) =~= lead + pulses(n) + tail);
    lemma_pulses(n);
    lemma_counts_concat(lead, pulses(n));
    lemma_counts_concat(lead + pulses(n), tail);
    lemma_single(timed(LedAction::SetHigh, 2000));
    lemma_single(timed(LedAction::SetLow, 500));
}

/// Every step of the alternating pattern toggles the light and then waits
/// `ms`, so the light changes every `ms` milliseconds and is back where it
/// began after each period.
pub proof fn lemma_alternate_toggles(ms: u64)
    ensures
        forall|i: int|
            0 <= i < cycle(BlinkCommand::AlternateEveryMilli(ms)).len() ==> #[trigger] cycle(
                BlinkCommand::AlternateEveryMilli(ms),
            )[i] == timed(LedAction::Toggle, ms),
        cycle(BlinkCommand::AlternateEveryMilli(ms)).len() == 2,
        period_ms(cycle(BlinkCommand::AlternateEveryMilli(ms))) == 2 * ms,
{
    let t = timed(LedAction::Toggle, ms);
    assert(cycle(BlinkCommand::AlternateEveryMilli(ms)) =~= seq![t] + seq![t]);
    lemma_counts_concat(seq![t], seq![t]);
    lemma_single(t);
}

/// The "solid then `n` pulses" pattern step by step: on for 2 s; then for
/// each pulse `k` below `n`, off for 250 ms and back on for 250 ms; then off
/// for 500 ms.
pub proof fn lemma_pulse_steps(n: nat)
    ensures
        pulse_cycle(n).len() == 2 * n + 2,
        pulse_cycle(n)[0] == (BlinkAction { led: Some(LedAction::SetHigh), wait_ms: Some(2000) }),
        forall|k: int|
            0 <= k < n ==> #[trigger] pulse_cycle(n)[1 + 2 * k] == (BlinkAction {
                led: Some(LedAction::SetLow),
                wait_ms: Some(250),
            }),
        forall|k: int|
            0 <= k < n ==> #[trigger] pulse_cycle(n)[2 + 2 * k] == (BlinkAction {
                led: Some(LedAction::SetHigh),
                wait_ms: Some(250),
            }),
        pulse_cycle(n)[2 * n + 1int] == (BlinkAction { led: Some(LedAction::SetLow), wait_ms: Some(500) }),
{
    assert forall|k: int| 0 <= k < n implies #[trigger] pulse_cycle(n)[1 + 2 * k] == (BlinkAction {
        led: Some(LedAction::SetLow),
        wait_ms: Some(250),
    }) by {
        assert((2 * k) % 2 == 0);
    }
    assert forall|k: int| 0 <= k < n implies #[trigger] pulse_cycle(n)[2 + 2 * k] == (BlinkAction {
        led: Some(LedAction::SetHigh),
        wait_ms: Some(250),
    }) by {
        assert((2 * k + 1) % 2 == 1);
    }
}

} // verus!
