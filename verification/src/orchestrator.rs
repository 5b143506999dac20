//! The daemon's side of a test session.
//!
//! The orchestrator waits for the rig to announce itself, walks it through a fixed boot
//! choreography, starts a session, runs the planned tests with a reset of the rig before
//! every fiftieth, and ends the session by resetting the link. It does nothing itself:
//! `next` says what its driver has to do, one directive at a time, and `deliver` takes what
//! the driver received.

use crate::packet::{
    text_fits, LogEntry, LogSeverity, Packet, PacketModel, PowerState, Scene, MAX_TEXT_LEN,
};
use crate::report::{
    announcement, announcement_spec, report_views, unexpected, unexpected_spec, Report,
    ReportModel,
};
use vstd::prelude::*;

verus! {

/// After this many tests the rig is reset before the next one starts.
pub const RESET_INTERVAL: u32 = 50;

/// The pause between two tests is shorter than this many milliseconds.
pub const JITTER_BOUND_MS: u64 = 300;

/// How long the logo stays on the display, in milliseconds.
pub const LOGO_PAUSE_MS: u64 = 3000;

/// How long the machine gets to boot after its power button was pressed, in milliseconds.
pub const BOOT_PAUSE_MS: u64 = 5000;

/// The number of directives from the rig's announcement up to the start of the session.
pub const BOOT_STEPS: u8 = 8;

/// Where a connection stands.
#[derive(Clone, Copy, Debug, PartialEq, Eq, Structural)]
pub enum Phase {
    AwaitingLink,
    LinkAnnounced,
    SessionRunning,
    Draining,
}

/// What comes next within a running session.
#[derive(Clone, Copy, Debug, PartialEq, Eq, Structural)]
pub enum Stage {
    /// The test scene has yet to be put on the display.
    Scene,
    /// A test, a reset or the end of the session is due.
    Start,
    /// A test was started and the pause behind it is due.
    Settle,
}

/// Where an orchestrator stands: the phase, and the counters that the phase uses.
#[derive(Clone, Copy, Debug, PartialEq, Eq, Structural)]
pub struct Position {
    pub phase: Phase,
    /// How much of the boot choreography has been emitted.
    pub boot_step: u8,
    pub stage: Stage,
    /// How many tests of the session have been started.
    pub current_index: u32,
    /// How many tests have been started since the rig was last reset.
    pub tests_since_reset: u32,
}

/// What a session consists of.
#[derive(Clone, Debug, PartialEq, Eq)]
pub struct SessionPlan {
    pub total_tests: u32,
    pub author: String,
    pub title: String,
    pub ref_id: String,
    /// The names of the tests, taken in turn and over again until `total_tests` have run.
    pub test_names: Vec<String>,
}

/// What a `SessionPlan` stands for.
pub struct PlanModel {
    pub total_tests: u32,
    pub author: Seq<char>,
    pub title: Seq<char>,
    pub ref_id: Seq<char>,
    pub test_names: Seq<Seq<char>>,
}

impl View for SessionPlan {
    type V = PlanModel;

    open spec fn view(&self) -> PlanModel {
        PlanModel {
            total_tests: self.total_tests,
            author: self.author@,
            title: self.title@,
            ref_id: self.ref_id@,
            test_names: Seq::new(self.test_names@.len(), |i: int| self.test_names@[i]@),
        }
    }
}

impl PlanModel {
    /// Whether a session can be run from the plan: every text fits a packet, and there is
    /// a name to give to a test if there is a test.
    pub open spec fn wf(self) -> bool {
        &&& text_fits(self.author)
        &&& text_fits(self.title)
        &&& text_fits(self.ref_id)
        &&& forall|i: int|
            0 <= i < self.test_names.len() ==> text_fits(#[trigger] self.test_names[i])
        &&& self.total_tests > 0 ==> self.test_names.len() > 0
    }

    /// The name of the test with the given index: the names are gone through in a cycle.
    pub open spec fn test_name(self, index: int) -> Seq<char> {
        self.test_names[index % self.test_names.len() as int]
    }
}

/// The session as it stands, for whoever wants to look at it.
#[derive(Clone, Debug, PartialEq, Eq)]
pub struct TestSession {
    pub total_tests: u32,
    pub author: String,
    pub title: String,
    pub ref_id: String,
    pub current_index: u32,
    pub tests_since_reset: u32,
}

/// What the driver of an orchestrator has to do next.
#[derive(Clone, Debug, PartialEq, Eq)]
pub enum Directive {
    /// Receive a packet and deliver it.
    Receive,
    /// Send this packet.
    Send(Packet),
    /// Let this much time pass.
    Pause { millis: u64 },
}

/// What a `Directive` stands for.
pub enum DirectiveModel {
    Receive,
    Send(PacketModel),
    Pause { millis: u64 },
}

impl View for Directive {
    type V = DirectiveModel;

    open spec fn view(&self) -> DirectiveModel {
        match *self {
            Directive::Receive => DirectiveModel::Receive,
            Directive::Send(packet) => DirectiveModel::Send(packet@),
            Directive::Pause { millis } => DirectiveModel::Pause { millis },
        }
    }
}

/// Where every connection begins.
pub open spec fn initial() -> Position {
    Position {
        phase: Phase::AwaitingLink,
        boot_step: 0,
        stage: Stage::Scene,
        current_index: 0,
        tests_since_reset: 0,
    }
}

/// Where the orchestrator stands once the rig has announced itself.
pub open spec fn announced() -> Position {
    Position {
        phase: Phase::LinkAnnounced,
        boot_step: 0,
        stage: Stage::Scene,
        current_index: 0,
        tests_since_reset: 0,
    }
}

/// Where the orchestrator stands once it has started a session.
pub open spec fn session_started() -> Position {
    Position {
        phase: Phase::SessionRunning,
        boot_step: 0,
        stage: Stage::Scene,
        current_index: 0,
        tests_since_reset: 0,
    }
}

/// Where the orchestrator stands once a session has ended.
pub open spec fn drained() -> Position {
    Position {
        phase: Phase::Draining,
        boot_step: 0,
        stage: Stage::Scene,
        current_index: 0,
        tests_since_reset: 0,
    }
}

/// Whether a position is one that an orchestrator for `total_tests` tests can be in.
pub open spec fn position_wf(at: Position, total_tests: u32) -> bool {
    &&& at.boot_step < BOOT_STEPS
    &&& at.current_index <= total_tests
    &&& at.tests_since_reset <= RESET_INTERVAL
    &&& at.tests_since_reset <= at.current_index
    &&& at.stage == Stage::Settle ==> at.current_index > 0
}

/// The packet that starts the planned session.
pub open spec fn session_start_packet(plan: PlanModel) -> PacketModel {
    PacketModel::StartTestSession {
        total_tests: plan.total_tests,
        author: plan.author,
        title: plan.title,
        ref_id: plan.ref_id,
    }
}

/// The boot choreography, directive by directive. It models a physical boot with real
/// settle times, so the pauses are part of it.
pub open spec fn boot_directive(plan: PlanModel, step: u8) -> DirectiveModel {
    if step == 0 {
        DirectiveModel::Send(PacketModel::SetScene(Scene::Logo))
    } else if step == 1 {
        DirectiveModel::Pause { millis: LOGO_PAUSE_MS }
    } else if step == 2 {
        DirectiveModel::Send(PacketModel::SetScene(Scene::Log))
    } else if step == 3 {
        DirectiveModel::Send(
            PacketModel::Log { severity: LogSeverity::Info, message: "booting machine..."@ },
        )
    } else if step == 4 {
        DirectiveModel::Send(PacketModel::SetPowerState(PowerState::On))
    } else if step == 5 {
        DirectiveModel::Send(PacketModel::PressPower)
    } else if step == 6 {
        DirectiveModel::Pause { millis: BOOT_PAUSE_MS }
    } else {
        DirectiveModel::Send(session_start_packet(plan))
    }
}

/// One step of the orchestrator: where it stands afterwards, and what its driver has to
/// do. `entropy` is a fresh random number, of which only a pause between tests makes use.
pub open spec fn step(plan: PlanModel, at: Position, entropy: u64) -> (Position, DirectiveModel) {
    match at.phase {
        Phase::AwaitingLink | Phase::Draining => (at, DirectiveModel::Receive),
        Phase::LinkAnnounced => (
            if at.boot_step + 1 < BOOT_STEPS {
                Position { boot_step: (at.boot_step + 1) as u8, ..at }
            } else {
                session_started()
            },
            boot_directive(plan, at.boot_step),
        ),
        Phase::SessionRunning => match at.stage {
            Stage::Scene => (
                Position { stage: Stage::Start, ..at },
                DirectiveModel::Send(PacketModel::SetScene(Scene::Test)),
            ),
            Stage::Start => {
                if at.current_index >= plan.total_tests {
                    (drained(), DirectiveModel::Send(PacketModel::ResetLink))
                } else if at.tests_since_reset >= RESET_INTERVAL {
                    (
                        Position { tests_since_reset: 0, ..at },
                        DirectiveModel::Send(PacketModel::PressReset),
                    )
                } else {
                    (
                        Position {
                            stage: Stage::Settle,
                            current_index: (at.current_index + 1) as u32,
                            tests_since_reset: (at.tests_since_reset + 1) as u32,
                            ..at
                        },
                        DirectiveModel::Send(
                            PacketModel::StartTest {
                                name: plan.test_name(at.current_index as int),
                            },
                        ),
                    )
                }
            },
            Stage::Settle => (
                Position { stage: Stage::Start, ..at },
                DirectiveModel::Pause { millis: entropy % JITTER_BOUND_MS },
            ),
        },
    }
}

/// Whether the step that is due makes use of a random number: only the pause behind a
/// test does.
pub open spec fn draws_jitter(at: Position) -> bool {
    at.phase == Phase::SessionRunning && at.stage == Stage::Settle
}

/// Whether a packet is the one that the orchestrator waits for where it stands.
pub open spec fn expected(at: Position, packet: PacketModel) -> bool {
    packet is LinkOnline && (at.phase == Phase::AwaitingLink || at.phase == Phase::Draining)
}

/// Where the orchestrator stands after a packet was delivered. Only the rig's
/// announcement, while the orchestrator waits for it, changes anything.
pub open spec fn delivered(at: Position, packet: PacketModel) -> Position {
    if expected(at, packet) {
        announced()
    } else {
        at
    }
}

/// What the daemon logs when a packet is delivered: the rig's firmware version and
/// identifier when it announces itself as expected, and a warning about anything else.
pub open spec fn reports_spec(at: Position, packet: PacketModel) -> Seq<ReportModel> {
    if expected(at, packet) {
        announcement_spec(packet->uid, packet->version)
    } else {
        seq![unexpected_spec(packet)]
    }
}

fn fits(text: &str) -> (fits: bool)
    ensures
        fits == text_fits(text@),
{
    text.as_bytes().len() <= MAX_TEXT_LEN
}

fn plan_is_wf(plan: &SessionPlan) -> (wf: bool)
    ensures
        wf == plan@.wf(),
{
    if !fits(plan.author.as_str()) || !fits(plan.title.as_str()) || !fits(plan.ref_id.as_str()) {
        return false;
    }
    if plan.total_tests > 0 && plan.test_names.len() == 0 {
        return false;
    }
    let mut i: usize = 0;
    while i < plan.test_names.len()
        invariant
            i <= plan.test_names.len(),
            forall|j: int| 0 <= j < i ==> text_fits(#[trigger] plan@.test_names[j]),
        decreases plan.test_names.len() - i,
    {
        if !fits(plan.test_names[i].as_str()) {
            assert(!text_fits(plan@.test_names[i as int]));
            return false;
        }
        i += 1;
    }
    true
}

/// The daemon's state machine for one connection.
pub struct Orchestrator {
    plan: SessionPlan,
    at: Position,
}

impl Orchestrator {
    #[verifier::type_invariant]
    spec fn inv(self) -> bool {
        self.plan@.wf() && position_wf(self.at, self.plan.total_tests)
    }

    /// The plan that the orchestrator follows.
    pub closed spec fn plan(&self) -> PlanModel {
        self.plan@
    }

    /// Where the orchestrator stands.
    pub closed spec fn position(&self) -> Position {
        self.at
    }

    /// An orchestrator for a new connection, unless no session can be run from the plan.
    pub fn new(plan: SessionPlan) -> (res: Option<Orchestrator>)
        ensures
            match res {
                Some(orchestrator) => plan@.wf() && orchestrator.plan() == plan@
                    && orchestrator.position() == initial(),
                None => !plan@.wf(),
            },
    {
        if !plan_is_wf(&plan) {
            return None;
        }
        Some(
            Orchestrator {
                plan,
                at: Position {
                    phase: Phase::AwaitingLink,
                    boot_step: 0,
                    stage: Stage::Scene,
                    current_index: 0,
                    tests_since_reset: 0,
                },
            },
        )
    }

    /// Where the orchestrator stands.
    pub fn at(&self) -> (at: Position)
        ensures
            at == self.position(),
    {
        self.at
    }

    /// The phase that the connection is in.
    pub fn phase(&self) -> (phase: Phase)
        ensures
            phase == self.position().phase,
    {
        self.at.phase
    }

    /// The running session, if one is running.
    pub fn session(&self) -> (session: Option<TestSession>)
        ensures
            match session {
                Some(s) => {
                    &&& self.position().phase == Phase::SessionRunning
                    &&& s.total_tests == self.plan().total_tests
                    &&& s.author@ == self.plan().author
                    &&& s.title@ == self.plan().title
                    &&& s.ref_id@ == self.plan().ref_id
                    &&& s.current_index == self.position().current_index
                    &&& s.tests_since_reset == self.position().tests_since_reset
                },
                None => self.position().phase != Phase::SessionRunning,
            },
    {
        match self.at.phase {
            Phase::SessionRunning => Some(
                TestSession {
                    total_tests: self.plan.total_tests,
                    author: self.plan.author.clone(),
                    title: self.plan.title.clone(),
                    ref_id: self.plan.ref_id.clone(),
                    current_index: self.at.current_index,
                    tests_since_reset: self.at.tests_since_reset,
                },
            ),
            _ => None,
        }
    }

    fn boot(&self, step: u8) -> (directive: Directive)
        ensures
            directive@ == boot_directive(self.plan(), step),
    {
        if step == 0 {
            Directive::Send(Packet::SetScene(Scene::Logo))
        } else if step == 1 {
            Directive::Pause { millis: LOGO_PAUSE_MS }
        } else if step == 2 {
            Directive::Send(Packet::SetScene(Scene::Log))
        } else if step == 3 {
            Directive::Send(
                Packet::Log(
                    LogEntry {
                        severity: LogSeverity::Info,
                        message: "booting machine...".to_owned(),
                    },
                ),
            )
        } else if step == 4 {
            Directive::Send(Packet::SetPowerState(PowerState::On))
        } else if step == 5 {
            Directive::Send(Packet::PressPower)
        } else if step == 6 {
            Directive::Pause { millis: BOOT_PAUSE_MS }
        } else {
            Directive::Send(
                Packet::StartTestSession {
                    total_tests: self.plan.total_tests,
                    author: self.plan.author.clone(),
                    title: self.plan.title.clone(),
                    ref_id: self.plan.ref_id.clone(),
                },
            )
        }
    }

    /// What the driver has to do next. The orchestrator moves on as if it were done.
    ///
    /// `entropy` is a fresh random number; the pause between two tests is its remainder by
    /// `JITTER_BOUND_MS`.
    pub fn next(&mut self, entropy: u64) -> (directive: Directive)
        ensures
            final(self).plan() == old(self).plan(),
            (final(self).position(), directive@) == step(
                old(self).plan(),
                old(self).position(),
                entropy,
            ),
    {
        proof {
            use_type_invariant(&*self);
        }
        let at = self.at;
        match at.phase {
            Phase::AwaitingLink | Phase::Draining => Directive::Receive,
            Phase::LinkAnnounced => {
                let directive = self.boot(at.boot_step);
                if at.boot_step + 1 < BOOT_STEPS {
                    self.at = Position { boot_step: at.boot_step + 1, ..at };
                } else {
                    self.at = Position {
                        phase: Phase::SessionRunning,
                        boot_step: 0,
                        stage: Stage::Scene,
                        current_index: 0,
                        tests_since_reset: 0,
                    };
                }
                directive
            },
            Phase::SessionRunning => match at.stage {
                Stage::Scene => {
                    self.at = Position { stage: Stage::Start, ..at };
                    Directive::Send(Packet::SetScene(Scene::Test))
                },
                Stage::Start => {
                    if at.current_index >= self.plan.total_tests {
                        self.at = Position {
                            phase: Phase::Draining,
                            boot_step: 0,
                            stage: Stage::Scene,
                            current_index: 0,
                            tests_since_reset: 0,
                        };
                        Directive::Send(Packet::ResetLink)
                    } else if at.tests_since_reset >= RESET_INTERVAL {
                        self.at = Position { tests_since_reset: 0, ..at };
                        Directive::Send(Packet::PressReset)
                    } else {
                        let turn = at.current_index as usize % self.plan.test_names.len();
                        let name = self.plan.test_names[turn].clone();
                        self.at = Position {
                            stage: Stage::Settle,
                            current_index: at.current_index + 1,
                            tests_since_reset: at.tests_since_reset + 1,
                            ..at
                        };
                        Directive::Send(Packet::StartTest { name })
                    }
                },
                Stage::Settle => {
                    self.at = Position { stage: Stage::Start, ..at };
                    Directive::Pause { millis: entropy % JITTER_BOUND_MS }
                },
            },
        }
    }

    /// Takes a packet that the driver received, and says what to log about it.
    ///
    /// The rig's announcement, while the orchestrator waits for it, begins the boot
    /// choreography. Every other packet, an unknown one included, is dropped and leaves
    /// the orchestrator where it stands.
    pub fn deliver(&mut self, packet: &Packet) -> (reports: Vec<Report>)
        ensures
            final(self).plan() == old(self).plan(),
            final(self).position() == delivered(old(self).position(), packet@),
            report_views(reports@) == reports_spec(old(self).position(), packet@),
    {
        proof {
            use_type_invariant(&*self);
        }
        let waiting = match self.at.phase {
            Phase::AwaitingLink | Phase::Draining => true,
            _ => false,
        };
        match packet {
            Packet::LinkOnline { uid, version } => {
                if waiting {
                    self.at = Position {
                        phase: Phase::LinkAnnounced,
                        boot_step: 0,
                        stage: Stage::Scene,
                        current_index: 0,
                        tests_since_reset: 0,
                    };
                    return announcement(uid, version.as_str());
                }
            },
            _ => {},
        }
        let mut reports: Vec<Report> = Vec::new();
        reports.push(unexpected(packet));
        assert(report_views(reports@) =~= reports_spec(old(self).position(), packet@));
        reports
    }

    /// `next` with a fresh random number from the operating system where the step that is
    /// due makes use of one.
    ///
    /// Only the pause behind a test does. Every other step is taken without asking the
    /// operating system for anything, and is the step that `next` takes on any number. Where
    /// the pause is due and the operating system has no randomness to give, no step is
    /// taken and the answer is nothing.
    pub fn next_with_fresh_jitter(&mut self) -> (directive: Option<Directive>)
        ensures
            final(self).plan() == old(self).plan(),
            match directive {
                Some(d) => if draws_jitter(old(self).position()) {
                    exists|entropy: u64|
                        (final(self).position(), d@) == #[trigger] step(
                            old(self).plan(),
                            old(self).position(),
                            entropy,
                        )
                } else {
                    (final(self).position(), d@) == step(
                        old(self).plan(),
                        old(self).position(),
                        0,
                    )
                },
                None => draws_jitter(old(self).position()) && final(self).position() == old(self)
                    .position(),
            },
    {
        let pause_is_due = match (self.at.phase, self.at.stage) {
            (Phase::SessionRunning, Stage::Settle) => true,
            _ => false,
        };
        if pause_is_due {
            match crate::entropy::fresh_number() {
                Some(entropy) => Some(self.next(entropy)),
                None => None,
            }
        } else {
            Some(self.next(0))
        }
    }
}

/// Where the orchestrator stands after one step for each number in `entropy`.
pub open spec fn position_after(plan: PlanModel, at: Position, entropy: Seq<u64>) -> Position
    decreases entropy.len(),
{
    if entropy.len() == 0 {
        at
    } else {
        step(plan, position_after(plan, at, entropy.drop_last()), entropy.last()).0
    }
}

/// The directives of one step for each number in `entropy`, in order.
pub open spec fn trace(plan: PlanModel, at: Position, entropy: Seq<u64>) -> Seq<DirectiveModel>
    decreases entropy.len(),
{
    if entropy.len() == 0 {
        Seq::empty()
    } else {
        trace(plan, at, entropy.drop_last()).push(
            step(plan, position_after(plan, at, entropy.drop_last()), entropy.last()).1,
        )
    }
}

/// The packets that a sequence of directives sends, in order.
pub open spec fn sent(directives: Seq<DirectiveModel>) -> Seq<PacketModel>
    decreases directives.len(),
{
    if directives.len() == 0 {
        Seq::empty()
    } else {
        match directives.last() {
            DirectiveModel::Send(packet) => sent(directives.drop_last()).push(packet),
            _ => sent(directives.drop_last()),
        }
    }
}

/// Whether the rig is reset before the test with the given index starts.
pub open spec fn reset_before(index: nat) -> bool {
    index > 0 && index % (RESET_INTERVAL as nat) == 0
}

/// The packets of the first `count` tests of a session: a start for each test, with a
/// reset of the rig before every fiftieth start that is not the first.
pub open spec fn test_packets(plan: PlanModel, count: nat) -> Seq<PacketModel>
    decreases count,
{
    if count == 0 {
        Seq::empty()
    } else {
        let index = (count - 1) as nat;
        let start = PacketModel::StartTest { name: plan.test_name(index as int) };
        if reset_before(index) {
            test_packets(plan, index).push(PacketModel::PressReset).push(start)
        } else {
            test_packets(plan, index).push(start)
        }
    }
}

/// The number of resets among the packets of the first `count` tests.
pub open spec fn resets_within(count: nat) -> nat {
    if count == 0 {
        0
    } else {
        ((count - 1) / (RESET_INTERVAL as int)) as nat
    }
}

/// The number of directives that the first `count` tests take: the scene, then a start
/// and a pause for each test, and the resets.
pub open spec fn steps_for(count: nat) -> nat {
    1 + 2 * count + resets_within(count)
}

/// The number of tests started since the last reset, once `count` tests have started.
pub open spec fn since_reset(count: nat) -> nat {
    if count == 0 {
        0
    } else {
        ((count - 1) % (RESET_INTERVAL as int) + 1) as nat
    }
}

/// How many of `packets` start a test.
pub open spec fn starts_in(packets: Seq<PacketModel>) -> nat
    decreases packets.len(),
{
    if packets.len() == 0 {
        0
    } else if packets.last() is StartTest {
        starts_in(packets.drop_last()) + 1
    } else {
        starts_in(packets.drop_last())
    }
}

/// How many of `packets` reset the rig.
pub open spec fn resets_in(packets: Seq<PacketModel>) -> nat
    decreases packets.len(),
{
    if packets.len() == 0 {
        0
    } else if packets.last() is PressReset {
        resets_in(packets.drop_last()) + 1
    } else {
        resets_in(packets.drop_last())
    }
}

proof fn lemma_one_more_step(plan: PlanModel, at: Position, entropy: Seq<u64>, k: int)
    requires
        0 <= k < entropy.len(),
    ensures
        position_after(plan, at, entropy.take(k + 1)) == step(
            plan,
            position_after(plan, at, entropy.take(k)),
            entropy[k],
        ).0,
        trace(plan, at, entropy.take(k + 1)) == trace(plan, at, entropy.take(k)).push(
            step(plan, position_after(plan, at, entropy.take(k)), entropy[k]).1,
        ),
        sent(trace(plan, at, entropy.take(k + 1))) == match step(
            plan,
            position_after(plan, at, entropy.take(k)),
            entropy[k],
        ).1 {
            DirectiveModel::Send(packet) => sent(trace(plan, at, entropy.take(k))).push(packet),
            _ => sent(trace(plan, at, entropy.take(k))),
        },
{
    let longer = entropy.take(k + 1);
    assert(longer.drop_last() =~= entropy.take(k));
    assert(longer.last() == entropy[k]);
    let directives = trace(plan, at, longer);
    assert(directives.drop_last() =~= trace(plan, at, entropy.take(k)));
}

/// A session up to the point where `count` tests have been started and paused for: the
/// orchestrator is due to start the next one, and has sent the test scene and the packets
/// of those tests.
proof fn lemma_tests_run(plan: PlanModel, entropy: Seq<u64>, count: nat)
    requires
        plan.wf(),
        count <= plan.total_tests,
        steps_for(count) <= entropy.len(),
    ensures
        position_after(plan, session_started(), entropy.take(steps_for(count) as int)) == (
        Position {
            stage: Stage::Start,
            current_index: count as u32,
            tests_since_reset: since_reset(count) as u32,
            ..session_started()
        }),
        sent(trace(plan, session_started(), entropy.take(steps_for(count) as int))) == seq![
            PacketModel::SetScene(Scene::Test),
        ] + test_packets(plan, count),
    decreases count,
{
    let at = session_started();
    let scene = seq![PacketModel::SetScene(Scene::Test)];
    if count == 0 {
        assert(entropy.take(0).len() == 0);
        lemma_one_more_step(plan, at, entropy, 0);
        assert(sent(trace(plan, at, entropy.take(0))) =~= Seq::<PacketModel>::empty());
        assert(Seq::<PacketModel>::empty().push(PacketModel::SetScene(Scene::Test)) =~= scene
            + test_packets(plan, 0));
    } else {
        let index = (count - 1) as nat;
        let done = steps_for(index) as int;
        lemma_tests_run(plan, entropy, index);
        let start = PacketModel::StartTest { name: plan.test_name(index as int) };
        if reset_before(index) {
            lemma_one_more_step(plan, at, entropy, done);
            lemma_one_more_step(plan, at, entropy, done + 1);
            lemma_one_more_step(plan, at, entropy, done + 2);
            assert((scene + test_packets(plan, index)).push(PacketModel::PressReset).push(start)
                =~= scene + test_packets(plan, count));
        } else {
            lemma_one_more_step(plan, at, entropy, done);
            lemma_one_more_step(plan, at, entropy, done + 1);
            assert((scene + test_packets(plan, index)).push(start) =~= scene + test_packets(
                plan,
                count,
            ));
        }
    }
}

/// A whole session, from its start to the reset of the link: the orchestrator sends the
/// test scene, the packets of all planned tests and the reset of the link, in this order
/// and nothing else, and then waits for the rig to announce itself again.
pub proof fn lemma_session_runs_as_planned(plan: PlanModel, entropy: Seq<u64>)
    requires
        plan.wf(),
        entropy.len() == steps_for(plan.total_tests as nat) + 1,
    ensures
        position_after(plan, session_started(), entropy) == drained(),
        sent(trace(plan, session_started(), entropy)) == (seq![
            PacketModel::SetScene(Scene::Test),
        ] + test_packets(plan, plan.total_tests as nat)).push(PacketModel::ResetLink),
{
    let total = plan.total_tests as nat;
    lemma_tests_run(plan, entropy, total);
    lemma_one_more_step(plan, session_started(), entropy, steps_for(total) as int);
    assert(entropy.take(entropy.len() as int) =~= entropy);
}

/// Among the packets of the first `count` tests there are `count` starts of a test, and
/// a reset for every full fifty tests that another test follows.
pub proof fn lemma_test_packet_counts(plan: PlanModel, count: nat)
    ensures
        starts_in(test_packets(plan, count)) == count,
        resets_in(test_packets(plan, count)) == resets_within(count),
        test_packets(plan, count).len() == count + resets_within(count),
    decreases count,
{
    if count > 0 {
        let index = (count - 1) as nat;
        lemma_test_packet_counts(plan, index);
        let before = test_packets(plan, index);
        let all = test_packets(plan, count);
        if reset_before(index) {
            let with_reset = before.push(PacketModel::PressReset);
            assert(all.drop_last() =~= with_reset);
            assert(with_reset.drop_last() =~= before);
            assert(starts_in(with_reset) == starts_in(before));
            assert(resets_in(with_reset) == resets_in(before) + 1);
        } else {
            assert(all.drop_last() =~= before);
        }
    }
}

/// Each reset among the packets of the first `count` tests stands where a positive
/// multiple of fifty tests has been started, directly before the next start.
pub proof fn lemma_resets_follow_fifty_tests(plan: PlanModel, count: nat, j: int)
    requires
        0 <= j < test_packets(plan, count).len(),
        test_packets(plan, count)[j] is PressReset,
    ensures
        starts_in(test_packets(plan, count).take(j)) > 0,
        starts_in(test_packets(plan, count).take(j)) % (RESET_INTERVAL as nat) == 0,
        j + 1 < test_packets(plan, count).len(),
        test_packets(plan, count)[j + 1] is StartTest,
    decreases count,
{
    let index = (count - 1) as nat;
    let before = test_packets(plan, index);
    let all = test_packets(plan, count);
    if j < before.len() {
        assert(all[j] == before[j]);
        lemma_resets_follow_fifty_tests(plan, index, j);
        assert(all.take(j) =~= before.take(j));
        if j + 1 < before.len() {
            assert(all[j + 1] == before[j + 1]);
        }
    } else {
        lemma_test_packet_counts(plan, index);
        assert(all.take(j) =~= before);
    }
}

/// The boot choreography: from the rig's announcement the orchestrator emits its eight
/// directives in their order, pauses included, and has then started the session.
pub proof fn lemma_boot_choreography(plan: PlanModel, entropy: Seq<u64>)
    requires
        entropy.len() == BOOT_STEPS,
    ensures
        position_after(plan, announced(), entropy) == session_started(),
        trace(plan, announced(), entropy) == Seq::new(
            BOOT_STEPS as nat,
            |i: int| boot_directive(plan, i as u8),
        ),
{
    let at = announced();
    assert(entropy.take(0).len() == 0);
    lemma_one_more_step(plan, at, entropy, 0);
    lemma_one_more_step(plan, at, entropy, 1);
    lemma_one_more_step(plan, at, entropy, 2);
    lemma_one_more_step(plan, at, entropy, 3);
    lemma_one_more_step(plan, at, entropy, 4);
    lemma_one_more_step(plan, at, entropy, 5);
    lemma_one_more_step(plan, at, entropy, 6);
    lemma_one_more_step(plan, at, entropy, 7);
    assert(entropy.take(8) =~= entropy);
    assert(trace(plan, at, entropy) =~= Seq::new(
        BOOT_STEPS as nat,
        |i: int| boot_directive(plan, i as u8),
    ));
}

/// A packet of a variant that this version does not know is dropped wherever the
/// orchestrator stands: the position stays, and one warning is all that comes of it.
pub proof fn lemma_unknown_is_dropped(at: Position, packet: PacketModel)
    requires
        packet is Unknown,
    ensures
        delivered(at, packet) == at,
        reports_spec(at, packet).len() == 1,
        reports_spec(at, packet)[0].severity == LogSeverity::Warn,
{
}

/// Whatever step is taken, the counters stay in their ranges, the index of a running
/// session never goes down and is zero only where a session has just been started, and a
/// pause between two tests stays below its bound.
pub proof fn lemma_step_keeps_order(plan: PlanModel, at: Position, entropy: u64)
    requires
        position_wf(at, plan.total_tests),
    ensures
        position_wf(step(plan, at, entropy).0, plan.total_tests),
        at.phase == Phase::SessionRunning ==> (step(
            plan,
            at,
            entropy,
        ).1 matches DirectiveModel::Pause { millis } ==> millis < JITTER_BOUND_MS),
        at.phase == Phase::SessionRunning && step(plan, at, entropy).0.phase
            == Phase::SessionRunning ==> step(plan, at, entropy).0.current_index
            >= at.current_index,
        at.phase != Phase::SessionRunning && step(plan, at, entropy).0.phase
            == Phase::SessionRunning ==> step(plan, at, entropy).0.current_index == 0 && step(
            plan,
            at,
            entropy,
        ).1 == DirectiveModel::Send(session_start_packet(plan)),
{
}

/// A step that draws no jitter is the same step whatever the random number.
pub proof fn lemma_only_the_pause_draws_jitter(
    plan: PlanModel,
    at: Position,
    entropy: u64,
    other: u64,
)
    requires
        !draws_jitter(at),
    ensures
        step(plan, at, entropy) == step(plan, at, other),
{
}

/// Every packet that the orchestrator hands out can be put on the wire.
pub proof fn lemma_directives_can_be_sent(plan: PlanModel, at: Position, entropy: u64)
    requires
        plan.wf(),
        position_wf(at, plan.total_tests),
    ensures
        step(plan, at, entropy).1 matches DirectiveModel::Send(packet) ==> packet.wf(),
{
    if at.phase == Phase::LinkAnnounced && at.boot_step == 3 {
        let message = "booting machine..."@;
        reveal_strlit("booting machine...");
        assert(vstd::utf8::is_ascii_chars(message));
        vstd::utf8::is_ascii_chars_encode_utf8(message);
    }
    if at.phase == Phase::SessionRunning && at.stage == Stage::Start && at.current_index
        < plan.total_tests {
        let turn = at.current_index as int % plan.test_names.len() as int;
        assert(text_fits(plan.test_names[turn]));
    }
}

/// A whole connection, from the rig's announcement to the reset of the link: the
/// orchestrator sends the packets of the boot choreography, the test scene, the packets of
/// all planned tests and the reset of the link, in this order and nothing else.
pub proof fn lemma_connection_runs_as_planned(plan: PlanModel, entropy: Seq<u64>)
    requires
        plan.wf(),
        entropy.len() == BOOT_STEPS + steps_for(plan.total_tests as nat) + 1,
    ensures
        position_after(plan, announced(), entropy) == drained(),
        sent(trace(plan, announced(), entropy)) == (boot_packets(plan) + seq![
            PacketModel::SetScene(Scene::Test),
        ] + test_packets(plan, plan.total_tests as nat)).push(PacketModel::ResetLink),
{
    let boot = entropy.take(BOOT_STEPS as int);
    let rest = entropy.skip(BOOT_STEPS as int);
    lemma_boot_choreography(plan, boot);
    lemma_session_runs_as_planned(plan, rest);
    assert(entropy =~= boot + rest);
    lemma_trace_continues(plan, announced(), boot, rest);
    let boot_trace = trace(plan, announced(), boot);
    assert(boot_trace.len() == 8);
    let none = Seq::<DirectiveModel>::empty();
    assert(sent(none) =~= Seq::<PacketModel>::empty());
    assert(boot_trace.take(0) =~= none);
    lemma_sent_one_more(boot_trace, 0);
    lemma_sent_one_more(boot_trace, 1);
    lemma_sent_one_more(boot_trace, 2);
    lemma_sent_one_more(boot_trace, 3);
    lemma_sent_one_more(boot_trace, 4);
    lemma_sent_one_more(boot_trace, 5);
    lemma_sent_one_more(boot_trace, 6);
    lemma_sent_one_more(boot_trace, 7);
    assert(boot_trace.take(8) =~= boot_trace);
    assert(sent(boot_trace) =~= boot_packets(plan));
    lemma_sent_continues(boot_trace, trace(plan, session_started(), rest));
}

/// The packets of the boot choreography.
pub open spec fn boot_packets(plan: PlanModel) -> Seq<PacketModel> {
    seq![
        PacketModel::SetScene(Scene::Logo),
        PacketModel::SetScene(Scene::Log),
        PacketModel::Log { severity: LogSeverity::Info, message: "booting machine..."@ },
        PacketModel::SetPowerState(PowerState::On),
        PacketModel::PressPower,
        session_start_packet(plan),
    ]
}

proof fn lemma_sent_one_more(directives: Seq<DirectiveModel>, k: int)
    requires
        0 <= k < directives.len(),
    ensures
        sent(directives.take(k + 1)) == match directives[k] {
            DirectiveModel::Send(packet) => sent(directives.take(k)).push(packet),
            _ => sent(directives.take(k)),
        },
{
    assert(directives.take(k + 1).drop_last() =~= directives.take(k));
}

proof fn lemma_sent_continues(first: Seq<DirectiveModel>, second: Seq<DirectiveModel>)
    ensures
        sent(first + second) == sent(first) + sent(second),
    decreases second.len(),
{
    if second.len() == 0 {
        assert(first + second =~= first);
        assert(sent(first) + sent(second) =~= sent(first));
    } else {
        lemma_sent_continues(first, second.drop_last());
        assert((first + second).drop_last() =~= first + second.drop_last());
        assert(sent(first + second) =~= sent(first) + sent(second));
    }
}

/// Steps taken one after the other are the steps of one run.
proof fn lemma_trace_continues(plan: PlanModel, at: Position, first: Seq<u64>, second: Seq<u64>)
    ensures
        position_after(plan, at, first + second) == position_after(
            plan,
            position_after(plan, at, first),
            second,
        ),
        trace(plan, at, first + second) == trace(plan, at, first) + trace(
            plan,
            position_after(plan, at, first),
            second,
        ),
    decreases second.len(),
{
    let middle = position_after(plan, at, first);
    if second.len() == 0 {
        assert(first + second =~= first);
        assert(trace(plan, at, first) + trace(plan, middle, second) =~= trace(plan, at, first));
    } else {
        lemma_trace_continues(plan, at, first, second.drop_last());
        assert((first + second).drop_last() =~= first + second.drop_last());
        assert(trace(plan, at, first + second) =~= trace(plan, at, first) + trace(
            plan,
            middle,
            second,
        ));
    }
}

} // verus!
