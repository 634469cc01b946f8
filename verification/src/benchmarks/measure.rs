//! The schedule of a measurement: which launches, waits and readings of the clock follow
//! each other.
//!
//! First come launches that are not timed. Then come the windows: the device is waited
//! for, the clock is started, a fixed number of launches is made, and the time of the
//! window is taken, where asked for after another wait.

use vstd::prelude::*;

verus! {

/// How often a measurement launches.
#[derive(Clone, Copy, Debug, PartialEq, Eq, Structural)]
pub struct Counts {
    /// The launches before the first window.
    pub warmup: u32,
    /// The windows.
    pub samples: usize,
    /// The launches of a window.
    pub iters: u32,
    /// Whether the device is waited for before the time of a window is taken.
    pub settle: bool,
}

/// What is done at a step of a measurement.
#[derive(Clone, Copy, Debug, PartialEq, Eq, Structural)]
pub enum Action {
    Launch,
    /// Waits until the device has done what was launched.
    Sync,
    /// Starts the clock of a window.
    Start,
    /// Takes the time since the clock was started as that of the window.
    Record,
}

/// Where a measurement stands.
#[derive(Clone, Copy, Debug, PartialEq, Eq, Structural)]
pub enum Stage {
    /// So many launches were made before the first window.
    Warming(u32),
    /// So many windows are over.
    Between(usize),
    /// So many windows are over, and the device was waited for.
    Waited(usize),
    /// So many windows are over, and so many launches of the next were made.
    Running(usize, u32),
    /// So many windows are over, and the launches of the next were made and waited for.
    Settled(usize),
}

impl Counts {
    /// Where a measurement starts.
    pub open spec fn first(self) -> Stage {
        Stage::Warming(0)
    }

    /// A measurement can stand there.
    pub open spec fn reaches(self, stage: Stage) -> bool {
        match stage {
            Stage::Warming(n) => n <= self.warmup,
            Stage::Between(s) => s <= self.samples,
            Stage::Waited(s) => s < self.samples,
            Stage::Running(s, i) => s < self.samples && i <= self.iters,
            Stage::Settled(s) => s < self.samples && self.settle,
        }
    }

    /// What is done next and where the measurement stands then; nothing at the end.
    pub open spec fn next_of(self, stage: Stage) -> Option<(Action, Stage)> {
        match stage {
            Stage::Warming(n) => if n < self.warmup {
                Some((Action::Launch, Stage::Warming((n + 1) as u32)))
            } else {
                Some((Action::Sync, Stage::Between(0)))
            },
            Stage::Between(s) => if s < self.samples {
                Some((Action::Sync, Stage::Waited(s)))
            } else {
                None
            },
            Stage::Waited(s) => Some((Action::Start, Stage::Running(s, 0))),
            Stage::Running(s, i) => if i < self.iters {
                Some((Action::Launch, Stage::Running(s, (i + 1) as u32)))
            } else if self.settle {
                Some((Action::Sync, Stage::Settled(s)))
            } else {
                Some((Action::Record, Stage::Between((s + 1) as usize)))
            },
            Stage::Settled(s) => Some((Action::Record, Stage::Between((s + 1) as usize))),
        }
    }

    /// Where a measurement starts.
    pub fn start(self) -> (stage: Stage)
        ensures
            stage == self.first(),
            self.reaches(stage),
    {
        Stage::Warming(0)
    }

    /// What is done next and where the measurement stands then; nothing at the end.
    pub fn next(self, stage: Stage) -> (r: Option<(Action, Stage)>)
        requires
            self.reaches(stage),
        ensures
            r == self.next_of(stage),
            r matches Some((_, s)) ==> self.reaches(s),
    {
        match stage {
            Stage::Warming(n) => if n < self.warmup {
                Some((Action::Launch, Stage::Warming(n + 1)))
            } else {
                Some((Action::Sync, Stage::Between(0)))
            },
            Stage::Between(s) => if s < self.samples {
                Some((Action::Sync, Stage::Waited(s)))
            } else {
                None
            },
            Stage::Waited(s) => Some((Action::Start, Stage::Running(s, 0))),
            Stage::Running(s, i) => if i < self.iters {
                Some((Action::Launch, Stage::Running(s, i + 1)))
            } else if self.settle {
                Some((Action::Sync, Stage::Settled(s)))
            } else {
                Some((Action::Record, Stage::Between(s + 1)))
            },
            Stage::Settled(s) => Some((Action::Record, Stage::Between(s + 1))),
        }
    }

    /// So many launches.
    pub open spec fn launches(n: nat) -> Seq<Action> {
        Seq::new(n, |i: int| Action::Launch)
    }

    /// The end of a window.
    pub open spec fn closing(self) -> Seq<Action> {
        if self.settle {
            seq![Action::Sync, Action::Record]
        } else {
            seq![Action::Record]
        }
    }

    /// A window.
    pub open spec fn window(self) -> Seq<Action> {
        seq![Action::Sync, Action::Start] + Self::launches(self.iters as nat) + self.closing()
    }

    /// So many windows.
    pub open spec fn windows(self, n: nat) -> Seq<Action>
        decreases n,
    {
        if n == 0 {
            Seq::empty()
        } else {
            self.window() + self.windows((n - 1) as nat)
        }
    }

    /// All that a measurement does.
    pub open spec fn trace(self) -> Seq<Action> {
        Self::launches(self.warmup as nat) + seq![Action::Sync] + self.windows(self.samples as nat)
    }

    /// What a measurement still does from where it stands.
    pub open spec fn rest(self, stage: Stage) -> Seq<Action> {
        match stage {
            Stage::Warming(n) => Self::launches((self.warmup - n) as nat) + seq![Action::Sync]
                + self.windows(self.samples as nat),
            Stage::Between(s) => self.windows((self.samples - s) as nat),
            Stage::Waited(s) => seq![Action::Start] + Self::launches(self.iters as nat)
                + self.closing() + self.windows((self.samples - s - 1) as nat),
            Stage::Running(s, i) => Self::launches((self.iters - i) as nat) + self.closing()
                + self.windows((self.samples - s - 1) as nat),
            Stage::Settled(s) => seq![Action::Record] + self.windows(
                (self.samples - s - 1) as nat,
            ),
        }
    }
}

/// How often an action is done.
pub open spec fn count(s: Seq<Action>, action: Action) -> nat
    decreases s.len(),
{
    if s.len() == 0 {
        0
    } else {
        count(s.drop_last(), action) + if s.last() == action {
            1nat
        } else {
            0nat
        }
    }
}

/// The count of two lists is the sum of their counts.
proof fn count_adds(a: Seq<Action>, b: Seq<Action>, action: Action)
    ensures
        count(a + b, action) == count(a, action) + count(b, action),
    decreases b.len(),
{
    if b.len() == 0 {
        assert(a + b =~= a);
    } else {
        count_adds(a, b.drop_last(), action);
        assert((a + b).drop_last() =~= a + b.drop_last());
    }
}

/// So many launches are so many.
proof fn launches_are_counted(n: nat)
    ensures
        count(Counts::launches(n), Action::Launch) == n,
        count(Counts::launches(n), Action::Record) == 0,
    decreases n,
{
    if n > 0 {
        launches_are_counted((n - 1) as nat);
        assert(Counts::launches(n).drop_last() =~= Counts::launches((n - 1) as nat));
    }
}

/// A window makes its launches and takes one time.
proof fn window_is_counted(c: Counts)
    ensures
        count(c.window(), Action::Launch) == c.iters,
        count(c.window(), Action::Record) == 1,
{
    let head = seq![Action::Sync, Action::Start];
    let body = Counts::launches(c.iters as nat);
    launches_are_counted(c.iters as nat);
    reveal_with_fuel(count, 3);
    assert(head.drop_last() =~= seq![Action::Sync]);
    assert(seq![Action::Sync].drop_last() =~= Seq::<Action>::empty());
    assert(seq![Action::Record].drop_last() =~= Seq::<Action>::empty());
    assert(seq![Action::Sync, Action::Record].drop_last() =~= seq![Action::Sync]);
    count_adds(head, body, Action::Launch);
    count_adds(head, body, Action::Record);
    count_adds(head + body, c.closing(), Action::Launch);
    count_adds(head + body, c.closing(), Action::Record);
}

/// So many windows make as many times their launches and take as many times.
proof fn windows_are_counted(c: Counts, n: nat)
    ensures
        count(c.windows(n), Action::Launch) == n * c.iters,
        count(c.windows(n), Action::Record) == n,
    decreases n,
{
    if n > 0 {
        windows_are_counted(c, (n - 1) as nat);
        window_is_counted(c);
        count_adds(c.window(), c.windows((n - 1) as nat), Action::Launch);
        count_adds(c.window(), c.windows((n - 1) as nat), Action::Record);
        let iters = c.iters as int;
        assert((n - 1) * iters + iters == n * iters) by (nonlinear_arith);
    } else {
        assert(0 * c.iters == 0) by (nonlinear_arith);
    }
}

/// A measurement makes its warm-up launches and the launches of its windows, no more and
/// no fewer, and takes one time for each window.
pub proof fn launches_are_as_asked(c: Counts)
    ensures
        count(c.trace(), Action::Launch) == c.warmup + c.samples * c.iters,
        count(c.trace(), Action::Record) == c.samples,
{
    let head = Counts::launches(c.warmup as nat);
    let sync = seq![Action::Sync];
    launches_are_counted(c.warmup as nat);
    windows_are_counted(c, c.samples as nat);
    reveal_with_fuel(count, 2);
    assert(sync.drop_last() =~= Seq::<Action>::empty());
    count_adds(head, sync, Action::Launch);
    count_adds(head, sync, Action::Record);
    count_adds(head + sync, c.windows(c.samples as nat), Action::Launch);
    count_adds(head + sync, c.windows(c.samples as nat), Action::Record);
}

/// Each step does the first thing of what is left, and there is nothing left exactly at the
/// end. So the steps from the start do all that the measurement does, in order.
pub proof fn steps_follow_the_trace(c: Counts, stage: Stage)
    requires
        c.reaches(stage),
    ensures
        c.rest(c.first()) == c.trace(),
        match c.next_of(stage) {
            Some((action, then_at)) => c.reaches(then_at) && c.rest(stage) == seq![action] + c.rest(
                then_at,
            ),
            None => c.rest(stage) == Seq::<Action>::empty(),
        },
{
    match stage {
        Stage::Warming(n) => {
            if n < c.warmup {
                assert(c.rest(stage) =~= seq![Action::Launch] + c.rest(
                    Stage::Warming((n + 1) as u32),
                ));
            } else {
                assert(c.rest(stage) =~= seq![Action::Sync] + c.rest(Stage::Between(0)));
            }
        },
        Stage::Between(s) => {
            if s < c.samples {
                assert(c.rest(stage) =~= seq![Action::Sync] + c.rest(Stage::Waited(s)));
            }
        },
        Stage::Waited(s) => {
            assert(c.rest(stage) =~= seq![Action::Start] + c.rest(Stage::Running(s, 0)));
        },
        Stage::Running(s, i) => {
            if i < c.iters {
                assert(c.rest(stage) =~= seq![Action::Launch] + c.rest(
                    Stage::Running(s, (i + 1) as u32),
                ));
            } else if c.settle {
                assert(c.rest(stage) =~= seq![Action::Sync] + c.rest(Stage::Settled(s)));
            } else {
                assert(c.rest(stage) =~= seq![Action::Record] + c.rest(
                    Stage::Between((s + 1) as usize),
                ));
            }
        },
        Stage::Settled(s) => {},
    }
}

/// The passes of a measurement over a workload.
#[derive(Clone, Copy, Debug, PartialEq, Eq, Structural)]
pub struct Passes {
    /// All passes.
    pub total: u128,
    /// The passes at the start whose throughput is not recorded.
    pub unrecorded: u128,
}

/// The passes of a measurement of `samples` throughputs: one more comes first where a
/// warm-up is asked for, and is not recorded.
pub fn passes(samples: usize, warmup: bool) -> (p: Passes)
    ensures
        p.unrecorded == (if warmup {
            1int
        } else {
            0int
        }),
        p.total == samples + p.unrecorded,
        p.recorded(p.total as nat) == samples,
        p.total > 0 ==> (p.records(0) <==> !warmup),
{
    let unrecorded: u128 = if warmup {
        1
    } else {
        0
    };
    let p = Passes { total: samples as u128 + unrecorded, unrecorded };
    proof {
        every_sample_has_one_pass(p, p.total as nat);
    }
    p
}

impl Passes {
    /// Whether the throughput of a pass is recorded.
    pub open spec fn records(self, pass: int) -> bool {
        self.unrecorded <= pass < self.total
    }

    /// Whether the throughput of a pass is recorded.
    pub fn is_recorded(self, pass: u128) -> (r: bool)
        ensures
            r == self.records(pass as int),
    {
        self.unrecorded <= pass && pass < self.total
    }

    /// The recorded ones of the first `n` passes.
    pub open spec fn recorded(self, n: nat) -> nat
        decreases n,
    {
        if n == 0 {
            0
        } else {
            self.recorded((n - 1) as nat) + if self.records(n - 1) {
                1nat
            } else {
                0nat
            }
        }
    }
}

/// Exactly as many passes are recorded as samples were asked for, with a warm-up or
/// without, and none but the one of the warm-up is not; nothing is recorded behind the last.
pub proof fn every_sample_has_one_pass(p: Passes, n: nat)
    requires
        p.unrecorded <= p.total,
        n <= p.total,
    ensures
        p.recorded(n) == (if n <= p.unrecorded {
            0int
        } else {
            n - p.unrecorded
        }),
        n == p.total ==> p.recorded(n) == p.total - p.unrecorded && !p.records(n as int),
    decreases n,
{
    if n > 0 {
        every_sample_has_one_pass(p, (n - 1) as nat);
    }
}

/// What a measurement does at each place. The warm-up launches come first, then a wait. Each
/// window waits, starts its clock, makes its launches, waits again if it settles, and takes
/// its time; and the windows follow each other.
pub proof fn windows_are_timed_around_their_launches(c: Counts, w: int, i: int)
    ensures
        ({
            let t = c.trace();
            let length = c.iters + (if c.settle {
                4int
            } else {
                3int
            });
            let first = c.warmup + 1 + w * length;
            &&& t.len() == c.warmup + 1 + c.samples * length
            &&& 0 <= i < c.warmup ==> t[i] == Action::Launch
            &&& t[c.warmup as int] == Action::Sync
            &&& 0 <= w < c.samples ==> {
                &&& t[first] == Action::Sync
                &&& t[first + 1] == Action::Start
                &&& 0 <= i < c.iters ==> t[first + 2 + i] == Action::Launch
                &&& c.settle ==> t[first + 2 + c.iters] == Action::Sync
                &&& t[first + length - 1] == Action::Record
            }
        }),
{
    let length = c.iters + (if c.settle {
        4int
    } else {
        3int
    });
    windows_have_their_places(c, c.samples as nat, w);
    let t = c.trace();
    let head = Counts::launches(c.warmup as nat) + seq![Action::Sync];
    assert(head.len() == c.warmup + 1);
    assert(t == head + c.windows(c.samples as nat));
    let first = w * length;
    if 0 <= w < c.samples {
        let part = c.windows(c.samples as nat).subrange(first, first + length);
        assert(part == c.window());
        assert forall|j: int| 0 <= j < length implies t[c.warmup + 1 + first + j]
            == #[trigger] c.window()[j] by {
            assert(part[j] == c.windows(c.samples as nat)[first + j]);
            assert(t[head.len() + (first + j)] == c.windows(c.samples as nat)[first + j]);
        }
        assert(c.window()[0] == Action::Sync);
        assert(c.window()[1] == Action::Start);
        if 0 <= i < c.iters {
            assert(c.window()[2 + i] == Action::Launch);
        }
        if c.settle {
            assert(c.window()[2 + c.iters] == Action::Sync);
        }
        assert(c.window()[length - 1] == Action::Record);
    }
}

proof fn windows_have_their_places(c: Counts, n: nat, w: int)
    ensures
        ({
            let length = c.iters + (if c.settle {
                4int
            } else {
                3int
            });
            &&& c.window().len() == length
            &&& c.windows(n).len() == n * length
            &&& 0 <= w < n ==> 0 <= w * length && w * length + length <= n * length
                && c.windows(n).subrange(w * length, w * length + length) == c.window()
        }),
    decreases n,
{
    let length = c.iters + (if c.settle {
        4int
    } else {
        3int
    });
    assert(c.window().len() == length);
    if n == 0 {
        assert(0 * length == 0) by (nonlinear_arith);
    } else {
        windows_have_their_places(c, (n - 1) as nat, w - 1);
        assert((n - 1) * length + length == n * length) by (nonlinear_arith);
        assert((w - 1) * length + length == w * length) by (nonlinear_arith);
        let all = c.windows(n);
        let rest = c.windows((n - 1) as nat);
        assert(all == c.window() + rest);
        if w == 0 {
            assert(0 * length == 0) by (nonlinear_arith);
            assert(length <= n * length) by (nonlinear_arith)
                requires
                    n >= 1,
                    length >= 0,
            ;
            assert(all.subrange(0, length) =~= c.window());
        } else if 0 < w < n {
            let a = (w - 1) * length;
            assert(all.subrange(w * length, w * length + length) =~= rest.subrange(a, a + length));
        }
    }
}

} // verus!
