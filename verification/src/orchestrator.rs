//! The start sequence of a project: which service is handled next, and what
//! is done for it.
//!
//! The sequence takes the services in their start order. For each it waits,
//! within a bound, until the services that it depends on are running, has
//! the service spawned, registers the process at once, and waits, within a
//! bound, for the service to become ready. The caller performs each action
//! (it sleeps, spawns, probes, prints) and reports what happened; the
//! sequence answers with the next action.

use vstd::prelude::*;
use vstd::string::StringExecFns;
use std::time::SystemTime;
use crate::config::{ProjectConfig, Service};
use crate::error::ToolError;
use crate::health::{PollEvent, PollPlan, PollStep, TargetModel};
use crate::registry::{new_record, running, ProcessModel, ProcessState};
use crate::resolver::{find_service, first_named, is_known, lemma_first_named, pointed, resolve_order};
use crate::start::StartArgs;

verus! {

/// What can go wrong with one service while the project starts.
#[derive(Debug, Clone, Copy, PartialEq, Eq, Structural)]
pub enum Trouble {
    /// The command of the service could not be spawned.
    SpawnFailed,
    /// A service that it depends on was not running within the bound.
    DependencyTimeout,
    /// The service was not ready within the bound.
    HealthCheckTimeout,
}

/// How a start sequence ended.
#[derive(Debug, Clone, Copy, PartialEq, Eq, Structural)]
pub enum Outcome {
    /// Every service was handled.
    Completed,
    /// The sequence stopped at the service at `index` of the start order.
    Aborted { index: usize, trouble: Trouble },
}

/// What the caller of a start sequence does next. `index` is the place of
/// the service in the start order.
#[derive(Debug, Clone, Copy, PartialEq, Eq, Structural)]
pub enum Action {
    /// Report that the filters leave the service out; then `Continue`.
    Skip { index: usize },
    /// Sleep, for a dependency of the service is not running; then `Slept`.
    AwaitDependencies { index: usize, sleep_ms: u64 },
    /// Spawn the command of the service, and watch the process until it
    /// ends if `monitor` is set; then `Spawned` or `SpawnFailed`.
    Spawn { index: usize, monitor: bool },
    /// Try the readiness check of the service once; then `Probed`.
    Probe { index: usize },
    /// Sleep, for the service is not ready; then `Slept`.
    AwaitReady { index: usize, sleep_ms: u64 },
    /// Report the trouble with the service; then `Continue`.
    Warn { index: usize, trouble: Trouble },
    /// Nothing is left to do.
    Finished(Outcome),
}

/// What the caller of a start sequence reports. An elapsed time is that
/// since the wait for the service at hand began, in milliseconds.
#[derive(Debug, Clone, Copy, PartialEq, Eq, Structural)]
pub enum Event {
    /// The report was made.
    Continue,
    /// The sleep is over.
    Slept { elapsed_ms: u64 },
    /// The command was spawned as the process `pid`.
    Spawned { pid: u32 },
    /// The command could not be spawned.
    SpawnFailed,
    /// The readiness check was tried, with this result.
    Probed { ok: bool, elapsed_ms: u64 },
}

/// The bounds of the waits of a start sequence, and whether a bound that was
/// missed ends the sequence.
#[derive(Debug, Clone, Copy, PartialEq, Eq, Structural)]
pub struct StartOptions {
    pub dependency_wait: PollPlan,
    pub health_wait: PollPlan,
    pub abort_on_dependency_timeout: bool,
    pub abort_on_health_timeout: bool,
}

impl Default for StartOptions {
    /// Ten seconds for dependencies and thirty for readiness, tried every half
    /// second; a bound that was missed is reported and the sequence goes on.
    fn default() -> (options: Self)
        ensures
            options == (StartOptions {
                dependency_wait: PollPlan { timeout_ms: 10_000, interval_ms: 500 },
                health_wait: PollPlan { timeout_ms: 30_000, interval_ms: 500 },
                abort_on_dependency_timeout: false,
                abort_on_health_timeout: false,
            }),
    {
        StartOptions {
            dependency_wait: PollPlan { timeout_ms: 10_000, interval_ms: 500 },
            health_wait: PollPlan { timeout_ms: 30_000, interval_ms: 500 },
            abort_on_dependency_timeout: false,
            abort_on_health_timeout: false,
        }
    }
}

/// A start sequence, as a plain value.
pub struct SequenceModel {
    pub args: StartArgs,
    pub project: ProjectConfig,
    pub order: Seq<Service>,
    pub options: StartOptions,
    pub pending: Action,
}

/// What the readiness check of `service` probes; nothing where it has none.
pub open spec fn target_of_service(service: Service) -> TargetModel {
    match service.health_check {
        Some(check) => check.target_of(),
        None => TargetModel::Nothing,
    }
}

impl SequenceModel {
    /// Whether the filters let the service at `index` start.
    pub open spec fn selected(self, index: int) -> bool {
        self.args.selects(self.order[index].name@)
    }

    /// Whether every dependency of the service at `index` that names a
    /// service of the project is running. A dependency that names none
    /// counts as met.
    pub open spec fn dependencies_ready(self, records: Map<u32, ProcessModel>, index: int) -> bool {
        forall|k: int|
            0 <= k < self.order[index].dependencies@.len() && is_known(
                self.project.service_list(),
                (#[trigger] self.order[index].dependencies@[k])@,
            ) ==> running(records, self.project.name@, self.order[index].dependencies@[k]@)
    }

    /// Whether `trouble` ends the sequence: a spawn that failed does in the
    /// foreground, a bound that was missed where the options say so.
    pub open spec fn aborts_on(self, trouble: Trouble) -> bool {
        match trouble {
            Trouble::SpawnFailed => !self.args.background,
            Trouble::DependencyTimeout => self.options.abort_on_dependency_timeout,
            Trouble::HealthCheckTimeout => self.options.abort_on_health_timeout,
        }
    }

    /// What follows `trouble` with the service at `index`: the end of the
    /// sequence, or a warning.
    pub open spec fn trouble_action(self, index: usize, trouble: Trouble) -> Action {
        if self.aborts_on(trouble) {
            Action::Finished(Outcome::Aborted { index, trouble })
        } else {
            Action::Warn { index, trouble }
        }
    }

    /// The action that spawns the service at `index`: watched in the
    /// foreground, not in the background.
    pub open spec fn spawn_action(self, index: usize) -> Action {
        Action::Spawn { index, monitor: !self.args.background }
    }

    /// What follows a look at the dependencies of the service at `index`
    /// when `elapsed_ms` of the wait for them have passed.
    pub open spec fn after_dependency_check(
        self,
        records: Map<u32, ProcessModel>,
        index: usize,
        elapsed_ms: u64,
    ) -> Action {
        let ok = self.dependencies_ready(records, index as int);
        match self.options.dependency_wait.decide(PollEvent::Tried { ok, elapsed_ms }) {
            PollStep::Ready => self.spawn_action(index),
            PollStep::Sleep(sleep_ms) => Action::AwaitDependencies { index, sleep_ms },
            _ => self.trouble_action(index, Trouble::DependencyTimeout),
        }
    }

    /// The first action for the service at `index`: the end where the order
    /// has no such place; a skip where the filters leave the service out;
    /// else what follows a first look at its dependencies.
    pub open spec fn enter(self, records: Map<u32, ProcessModel>, index: int) -> Action {
        if index >= self.order.len() {
            Action::Finished(Outcome::Completed)
        } else if !self.selected(index) {
            Action::Skip { index: index as usize }
        } else {
            self.after_dependency_check(records, index as usize, 0)
        }
    }

    /// The action that follows `event`, with `records` in the registry. An
    /// event that does not answer the pending action changes nothing.
    pub open spec fn next_action(self, records: Map<u32, ProcessModel>, event: Event) -> Action {
        match (self.pending, event) {
            (Action::Skip { index }, Event::Continue) => self.enter(records, index + 1),
            (Action::AwaitDependencies { index, .. }, Event::Slept { elapsed_ms }) => {
                match self.options.dependency_wait.decide(PollEvent::Slept { elapsed_ms }) {
                    PollStep::Try => self.after_dependency_check(records, index, elapsed_ms),
                    _ => self.trouble_action(index, Trouble::DependencyTimeout),
                }
            },
            (Action::Spawn { index, .. }, Event::Spawned { pid }) => {
                if target_of_service(self.order[index as int]) is Nothing {
                    self.enter(records, index + 1)
                } else {
                    Action::Probe { index }
                }
            },
            (Action::Spawn { index, .. }, Event::SpawnFailed) => self.trouble_action(
                index,
                Trouble::SpawnFailed,
            ),
            (Action::Probe { index }, Event::Probed { ok, elapsed_ms }) => {
                match self.options.health_wait.decide(PollEvent::Tried { ok, elapsed_ms }) {
                    PollStep::Ready => self.enter(records, index + 1),
                    PollStep::Sleep(sleep_ms) => Action::AwaitReady { index, sleep_ms },
                    _ => self.trouble_action(index, Trouble::HealthCheckTimeout),
                }
            },
            (Action::AwaitReady { index, .. }, Event::Slept { elapsed_ms }) => {
                match self.options.health_wait.decide(PollEvent::Slept { elapsed_ms }) {
                    PollStep::Try => Action::Probe { index },
                    _ => self.trouble_action(index, Trouble::HealthCheckTimeout),
                }
            },
            (Action::Warn { index, trouble }, Event::Continue) => {
                if trouble == Trouble::DependencyTimeout {
                    self.spawn_action(index)
                } else {
                    self.enter(records, index + 1)
                }
            },
            (pending, _) => pending,
        }
    }

    /// Whether `event` reports that the service at hand was spawned.
    pub open spec fn registers(self, event: Event) -> bool {
        self.pending is Spawn && event is Spawned
    }

    /// The registry after `event`: with the new process of the service at
    /// hand, started at `start_time`, where the event reports a spawn;
    /// unchanged after any other event.
    pub open spec fn next_records(
        self,
        records: Map<u32, ProcessModel>,
        event: Event,
        start_time: SystemTime,
    ) -> Map<u32, ProcessModel> {
        match (self.pending, event) {
            (Action::Spawn { index, .. }, Event::Spawned { pid }) => records.insert(
                pid,
                new_record(
                    pid,
                    self.order[index as int].name@,
                    self.project.name@,
                    self.order[index as int].command@,
                    start_time,
                ),
            ),
            _ => records,
        }
    }

    /// Whether `action` fits the sequence: it names a place of the start
    /// order; it skips only what the filters leave out and handles only
    /// what they let start; and a spawn is watched in the foreground only.
    pub open spec fn fits(self, action: Action) -> bool {
        match action {
            Action::Skip { index } => index < self.order.len() && !self.selected(index as int),
            Action::AwaitDependencies { index, .. } => index < self.order.len() && self.selected(
                index as int,
            ),
            Action::Spawn { index, monitor } => index < self.order.len() && self.selected(
                index as int,
            ) && monitor == !self.args.background,
            Action::Probe { index } => index < self.order.len() && self.selected(index as int),
            Action::AwaitReady { index, .. } => index < self.order.len() && self.selected(
                index as int,
            ),
            Action::Warn { index, .. } => index < self.order.len() && self.selected(index as int),
            Action::Finished(Outcome::Aborted { index, .. }) => index < self.order.len()
                && self.selected(index as int),
            Action::Finished(Outcome::Completed) => true,
        }
    }

    /// The sequence is in order: it follows the start order of its project,
    /// and its pending action fits it.
    pub open spec fn wf(self) -> bool {
        &&& self.order == resolve_order(self.project.service_list())
        &&& self.order.len() <= usize::MAX
        &&& self.fits(self.pending)
    }
}

/// A start sequence of one project: its services in their start order, and
/// the action that the caller is to perform next.
#[derive(Debug)]
pub struct StartSequence<'a> {
    args: &'a StartArgs,
    project: &'a ProjectConfig,
    order: Vec<&'a Service>,
    options: StartOptions,
    pending: Action,
}

impl<'a> View for StartSequence<'a> {
    type V = SequenceModel;

    closed spec fn view(&self) -> SequenceModel {
        SequenceModel {
            args: *self.args,
            project: *self.project,
            order: pointed(self.order@),
            options: self.options,
            pending: self.pending,
        }
    }
}

/// Whether a service of the project is named `name`.
fn names_service(project: &ProjectConfig, name: &str) -> (known: bool)
    ensures
        known == is_known(project.service_list(), name@),
{
    match &project.services {
        Some(services) => {
            let found = find_service(services.as_slice(), name);
            proof {
                lemma_first_named(services@, name@);
                if let Some(j) = first_named(services@, name@) {
                    assert(services@[j].name@ == name@);
                }
            }
            found.is_some()
        },
        None => false,
    }
}

impl<'a> StartSequence<'a> {
    /// Whether every dependency of the service at `index` that names a
    /// service of the project is registered as running.
    fn dependencies_ready(&self, registry: &ProcessState, index: usize) -> (ready: bool)
        requires
            index < self@.order.len(),
        ensures
            ready == self@.dependencies_ready(registry@, index as int),
    {
        let service = self.order[index];
        assert(*service == self@.order[index as int]);
        let mut k: usize = 0;
        while k < service.dependencies.len()
            invariant
                k <= service.dependencies@.len(),
                *service == self@.order[index as int],
                forall|j: int|
                    0 <= j < k && is_known(
                        self@.project.service_list(),
                        (#[trigger] service.dependencies@[j])@,
                    ) ==> running(registry@, self@.project.name@, service.dependencies@[j]@),
            decreases service.dependencies@.len() - k,
        {
            let name = service.dependencies[k].as_str();
            if names_service(self.project, name) && !registry.is_service_running(
                self.project.name.as_str(),
                name,
            ) {
                assert(is_known(
                    self@.project.service_list(),
                    (#[trigger] service.dependencies@[k as int])@,
                ));
                return false;
            }
            k += 1;
        }
        true
    }

    /// What follows `trouble` with the service at `index`.
    fn trouble_action(&self, index: usize, trouble: Trouble) -> (action: Action)
        ensures
            action == self@.trouble_action(index, trouble),
    {
        let aborts = match trouble {
            Trouble::SpawnFailed => !self.args.background,
            Trouble::DependencyTimeout => self.options.abort_on_dependency_timeout,
            Trouble::HealthCheckTimeout => self.options.abort_on_health_timeout,
        };
        if aborts {
            Action::Finished(Outcome::Aborted { index, trouble })
        } else {
            Action::Warn { index, trouble }
        }
    }

    /// Looks at the dependencies of the service at `index`, `elapsed_ms`
    /// into the wait for them, and says what follows.
    fn after_dependency_check(&self, registry: &ProcessState, index: usize, elapsed_ms: u64) -> (action:
        Action)
        requires
            index < self@.order.len(),
        ensures
            action == self@.after_dependency_check(registry@, index, elapsed_ms),
    {
        let ok = self.dependencies_ready(registry, index);
        match self.options.dependency_wait.next_step(PollEvent::Tried { ok, elapsed_ms }) {
            PollStep::Ready => Action::Spawn { index, monitor: !self.args.background },
            PollStep::Sleep(sleep_ms) => Action::AwaitDependencies { index, sleep_ms },
            _ => self.trouble_action(index, Trouble::DependencyTimeout),
        }
    }

    /// The first action for the service at `index`.
    fn enter(&self, registry: &ProcessState, index: usize) -> (action: Action)
        requires
            index <= self@.order.len(),
        ensures
            action == self@.enter(registry@, index as int),
    {
        if index >= self.order.len() {
            Action::Finished(Outcome::Completed)
        } else {
            let service = self.order[index];
            assert(*service == self@.order[index as int]);
            if !self.args.should_start_service(service) {
                Action::Skip { index }
            } else {
                self.after_dependency_check(registry, index, 0)
            }
        }
    }

    /// A start sequence for `project` under the filters of `args`, with
    /// `registry` holding what runs already. The arguments are checked
    /// first: where they are refused there is no sequence, and so nothing
    /// to spawn.
    pub fn new(
        args: &'a StartArgs,
        project: &'a ProjectConfig,
        options: StartOptions,
        registry: &ProcessState,
    ) -> (made: Result<StartSequence<'a>, ToolError>)
        ensures
            match made {
                Ok(sequence) => {
                    &&& args.refusal() is None
                    &&& sequence@.wf()
                    &&& sequence@.args == *args
                    &&& sequence@.project == *project
                    &&& sequence@.options == options
                    &&& sequence@.pending == sequence@.enter(registry@, 0)
                },
                Err(ToolError::ConfigError(reason)) => args.refusal() == Some(reason@),
                Err(_) => false,
            },
    {
        match args.validate_args() {
            Err(error) => Err(error),
            Ok(_) => {
                let order = match &project.services {
                    Some(services) => args.sort_services_by_dependencies(services.as_slice()),
                    None => Vec::new(),
                };
                proof {
                    if project.services is None {
                        assert(pointed(order@) =~= resolve_order(project.service_list()));
                    }
                }
                let mut sequence = StartSequence {
                    args,
                    project,
                    order,
                    options,
                    pending: Action::Finished(Outcome::Completed),
                };
                let first = sequence.enter(registry, 0);
                let ghost blank = sequence@;
                let count = sequence.order.len();
                sequence.pending = first;
                proof {
                    assert(sequence.order@.len() == count);
                    assert(first == blank.enter(registry@, 0));
                    assert(sequence@.enter(registry@, 0) == blank.enter(registry@, 0));
                    assert(sequence@.order.len() == sequence.order@.len());
                    lemma_enter_fits(sequence@, registry@, 0);
                }
                Ok(sequence)
            },
        }
    }

    /// The action that the caller is to perform.
    pub fn pending(&self) -> (action: Action)
        ensures
            action == self@.pending,
    {
        self.pending
    }

    /// The number of services in the start order.
    pub fn len(&self) -> (n: usize)
        ensures
            n == self@.order.len(),
    {
        self.order.len()
    }

    /// The service at `index` of the start order.
    pub fn service(&self, index: usize) -> (service: &'a Service)
        requires
            index < self@.order.len(),
        ensures
            *service == self@.order[index as int],
    {
        self.order[index]
    }

    /// Takes the report `event` of the caller and answers with the next
    /// action, `next_action`. Where the event reports that the service at
    /// hand was spawned, its process is registered as running before
    /// anything else is decided; no other event changes the registry.
    pub fn step(&mut self, registry: &mut ProcessState, event: Event) -> (action: Action)
        requires
            old(self)@.wf(),
            old(registry).wf(),
        ensures
            final(self)@.wf(),
            final(registry).wf(),
            final(self)@ == (SequenceModel { pending: action, ..old(self)@ }),
            action == old(self)@.next_action(final(registry)@, event),
            exists|start_time: SystemTime|
                final(registry)@ == #[trigger] old(self)@.next_records(
                    old(registry)@,
                    event,
                    start_time,
                ),
    {
        let ghost before = self@;
        let ghost stay: SystemTime = arbitrary();
        let action = match (self.pending, event) {
            (Action::Skip { index }, Event::Continue) => self.enter(registry, index + 1),
            (Action::AwaitDependencies { index, .. }, Event::Slept { elapsed_ms }) => {
                match self.options.dependency_wait.next_step(PollEvent::Slept { elapsed_ms }) {
                    PollStep::Try => self.after_dependency_check(registry, index, elapsed_ms),
                    _ => self.trouble_action(index, Trouble::DependencyTimeout),
                }
            },
            (Action::Spawn { index, .. }, Event::Spawned { pid }) => {
                let service = self.order[index];
                assert(*service == before.order[index as int]);
                registry.add_process(
                    pid,
                    service.name.as_str(),
                    self.project.name.as_str(),
                    service.command.as_str(),
                );
                proof {
                    let start_time = choose|start_time: SystemTime|
                        registry@ == old(registry)@.insert(
                            pid,
                            #[trigger] new_record(
                                pid,
                                service.name@,
                                self.project.name@,
                                service.command@,
                                start_time,
                            ),
                        );
                    assert(registry@ == before.next_records(old(registry)@, event, start_time));
                }
                let probes = match &service.health_check {
                    Some(check) => !is_nothing(&check.probe_target()),
                    None => false,
                };
                if probes {
                    Action::Probe { index }
                } else {
                    self.enter(registry, index + 1)
                }
            },
            (Action::Spawn { index, .. }, Event::SpawnFailed) => self.trouble_action(
                index,
                Trouble::SpawnFailed,
            ),
            (Action::Probe { index }, Event::Probed { ok, elapsed_ms }) => {
                match self.options.health_wait.next_step(PollEvent::Tried { ok, elapsed_ms }) {
                    PollStep::Ready => self.enter(registry, index + 1),
                    PollStep::Sleep(sleep_ms) => Action::AwaitReady { index, sleep_ms },
                    _ => self.trouble_action(index, Trouble::HealthCheckTimeout),
                }
            },
            (Action::AwaitReady { index, .. }, Event::Slept { elapsed_ms }) => {
                match self.options.health_wait.next_step(PollEvent::Slept { elapsed_ms }) {
                    PollStep::Try => Action::Probe { index },
                    _ => self.trouble_action(index, Trouble::HealthCheckTimeout),
                }
            },
            (Action::Warn { index, trouble }, Event::Continue) => {
                match trouble {
                    Trouble::DependencyTimeout => Action::Spawn {
                        index,
                        monitor: !self.args.background,
                    },
                    _ => self.enter(registry, index + 1),
                }
            },
            (pending, _) => pending,
        };
        self.pending = action;
        proof {
            if !before.registers(event) {
                assert(registry@ == before.next_records(old(registry)@, event, stay));
            }
            lemma_next_action_fits(before, registry@, event);
        }
        action
    }
}

/// Whether `error` reports `trouble` with the service named `name`: a
/// process error with the detail for a spawn that failed, and the error of
/// its kind, with the name of the service, for a bound that was missed.
pub open spec fn reports(error: ToolError, trouble: Trouble, name: Seq<char>, detail: Seq<char>) -> bool {
    match trouble {
        Trouble::SpawnFailed => error matches ToolError::ProcessError(text) && text@
            == "Failed to start service "@ + name + ": "@ + detail,
        Trouble::DependencyTimeout => error matches ToolError::DependencyTimeout(text) && text@
            == name,
        Trouble::HealthCheckTimeout => error matches ToolError::HealthCheckTimeout(text) && text@
            == name,
    }
}

/// The error that reports `trouble` with `service`; `detail` says why a
/// spawn failed.
pub fn trouble_error(service: &Service, trouble: Trouble, detail: &str) -> (error: ToolError)
    ensures
        reports(error, trouble, service.name@, detail@),
{
    match trouble {
        Trouble::SpawnFailed => ToolError::ProcessError(
            "Failed to start service ".to_owned().concat(service.name.as_str()).concat(": ").concat(
                detail,
            ),
        ),
        Trouble::DependencyTimeout => ToolError::DependencyTimeout(service.name.clone()),
        Trouble::HealthCheckTimeout => ToolError::HealthCheckTimeout(service.name.clone()),
    }
}

/// Whether `target` is nothing to probe.
pub fn is_nothing(target: &crate::health::ProbeTarget) -> (nothing: bool)
    ensures
        nothing == (target@ is Nothing),
{
    match target {
        crate::health::ProbeTarget::Nothing => true,
        _ => false,
    }
}

proof fn lemma_trouble_fits(sequence: SequenceModel, index: usize, trouble: Trouble)
    requires
        index < sequence.order.len(),
        sequence.selected(index as int),
    ensures
        sequence.fits(sequence.trouble_action(index, trouble)),
{
}

proof fn lemma_dependency_check_fits(
    sequence: SequenceModel,
    records: Map<u32, ProcessModel>,
    index: usize,
    elapsed_ms: u64,
)
    requires
        index < sequence.order.len(),
        sequence.selected(index as int),
    ensures
        sequence.fits(sequence.after_dependency_check(records, index, elapsed_ms)),
{
    lemma_trouble_fits(sequence, index, Trouble::DependencyTimeout);
}

proof fn lemma_enter_fits(sequence: SequenceModel, records: Map<u32, ProcessModel>, index: int)
    requires
        0 <= index <= sequence.order.len() <= usize::MAX,
    ensures
        sequence.fits(sequence.enter(records, index)),
{
    if index < sequence.order.len() && sequence.selected(index) {
        lemma_dependency_check_fits(sequence, records, index as usize, 0);
    }
}

/// The action that follows an event fits the sequence as the pending action
/// did: no step leaves the start order, and none spawns, probes or waits
/// for a service that the filters leave out.
pub proof fn lemma_next_action_fits(sequence: SequenceModel, records: Map<u32, ProcessModel>, event: Event)
    requires
        sequence.wf(),
    ensures
        sequence.fits(sequence.next_action(records, event)),
        (SequenceModel { pending: sequence.next_action(records, event), ..sequence }).wf(),
{
    let next = sequence.next_action(records, event);
    match (sequence.pending, event) {
        (Action::Skip { index }, Event::Continue) => {
            lemma_enter_fits(sequence, records, index + 1);
        },
        (Action::AwaitDependencies { index, .. }, Event::Slept { elapsed_ms }) => {
            lemma_dependency_check_fits(sequence, records, index, elapsed_ms);
            lemma_trouble_fits(sequence, index, Trouble::DependencyTimeout);
        },
        (Action::Spawn { index, .. }, Event::Spawned { pid }) => {
            lemma_enter_fits(sequence, records, index + 1);
        },
        (Action::Spawn { index, .. }, Event::SpawnFailed) => {
            lemma_trouble_fits(sequence, index, Trouble::SpawnFailed);
        },
        (Action::Probe { index }, Event::Probed { ok, elapsed_ms }) => {
            lemma_enter_fits(sequence, records, index + 1);
            lemma_trouble_fits(sequence, index, Trouble::HealthCheckTimeout);
        },
        (Action::AwaitReady { index, .. }, Event::Slept { elapsed_ms }) => {
            lemma_trouble_fits(sequence, index, Trouble::HealthCheckTimeout);
        },
        (Action::Warn { index, trouble }, Event::Continue) => {
            lemma_enter_fits(sequence, records, index + 1);
        },
        _ => {},
    }
    assert(sequence.fits(next));
    let after = SequenceModel { pending: next, ..sequence };
    assert(after.fits(next) == sequence.fits(next)) by {
        lemma_fits_ignores_pending(sequence, after, next);
    }
}

proof fn lemma_fits_ignores_pending(first: SequenceModel, second: SequenceModel, action: Action)
    requires
        first.args == second.args,
        first.order == second.order,
    ensures
        first.fits(action) == second.fits(action),
{
}

impl SequenceModel {
    /// How far the sequence has come when `action` is pending: four steps
    /// for each service, of which the spawn is the third.
    pub open spec fn place(self, action: Action) -> int {
        match action {
            Action::Skip { index } => 4 * index,
            Action::AwaitDependencies { index, .. } => 4 * index,
            Action::Warn { index, trouble } => if trouble == Trouble::DependencyTimeout {
                4 * index + 1
            } else {
                4 * index + 3
            },
            Action::Spawn { index, .. } => 4 * index + 2,
            Action::Probe { index } => 4 * index + 3,
            Action::AwaitReady { index, .. } => 4 * index + 3,
            Action::Finished(Outcome::Aborted { index, .. }) => 4 * index + 3,
            Action::Finished(Outcome::Completed) => 4 * (self.order.len() as int),
        }
    }
}

proof fn lemma_enter_place(sequence: SequenceModel, records: Map<u32, ProcessModel>, index: int)
    requires
        0 <= index <= sequence.order.len() <= usize::MAX,
    ensures
        sequence.place(sequence.enter(records, index)) >= 4 * index,
{
}

/// No step of a sequence goes back, and the answer to a spawn goes on: so
/// the services are taken in the start order, and none is spawned twice.
pub proof fn lemma_steps_go_forward(
    sequence: SequenceModel,
    records: Map<u32, ProcessModel>,
    event: Event,
)
    requires
        sequence.wf(),
    ensures
        sequence.place(sequence.next_action(records, event)) >= sequence.place(sequence.pending),
        sequence.pending is Spawn && (event is Spawned || event is SpawnFailed) ==> sequence.place(
            sequence.next_action(records, event),
        ) > sequence.place(sequence.pending),
{
    match (sequence.pending, event) {
        (Action::Skip { index }, Event::Continue) => {
            lemma_enter_place(sequence, records, index + 1);
        },
        (Action::Spawn { index, .. }, Event::Spawned { pid }) => {
            lemma_enter_place(sequence, records, index + 1);
        },
        (Action::Probe { index }, Event::Probed { ok, elapsed_ms }) => {
            lemma_enter_place(sequence, records, index + 1);
        },
        (Action::Warn { index, trouble }, Event::Continue) => {
            lemma_enter_place(sequence, records, index + 1);
        },
        _ => {},
    }
}

/// Only a service that the filters let start is spawned; one that they
/// leave out is skipped, which is no failure.
pub proof fn lemma_spawn_needs_selection(
    sequence: SequenceModel,
    records: Map<u32, ProcessModel>,
    event: Event,
)
    requires
        sequence.wf(),
    ensures
        sequence.next_action(records, event) matches Action::Spawn { index, .. } ==> index
            < sequence.order.len() && sequence.selected(index as int),
        sequence.next_action(records, event) matches Action::Skip { index } ==> index
            < sequence.order.len() && !sequence.selected(index as int),
{
    lemma_next_action_fits(sequence, records, event);
}

/// Once the spawn of a service is reported, the registry holds a running
/// process of that service: whoever asks after the step whether the service
/// is running is told that it is.
pub proof fn lemma_spawned_service_runs(
    sequence: SequenceModel,
    records: Map<u32, ProcessModel>,
    event: Event,
    start_time: SystemTime,
)
    requires
        sequence.registers(event),
    ensures
        running(
            sequence.next_records(records, event, start_time),
            sequence.project.name@,
            sequence.order[sequence.pending->Spawn_index as int].name@,
        ),
{
    let index = sequence.pending->Spawn_index;
    let pid = event->Spawned_pid;
    crate::registry::lemma_registered_is_running(
        records,
        pid,
        sequence.order[index as int].name@,
        sequence.project.name@,
        sequence.order[index as int].command@,
        start_time,
    );
}

/// A sequence that has finished stays finished, whatever is reported, and
/// changes the registry no more.
pub proof fn lemma_finished_is_final(
    sequence: SequenceModel,
    records: Map<u32, ProcessModel>,
    event: Event,
    start_time: SystemTime,
)
    requires
        sequence.pending is Finished,
    ensures
        sequence.next_action(records, event) == sequence.pending,
        sequence.next_records(records, event, start_time) == records,
{
}

/// The sequence and the registry after the first `n` of the reports
/// `events`, the process of report `k`, where it is a spawn, being started
/// at `times[k]`.
pub open spec fn after_events(
    sequence: SequenceModel,
    records: Map<u32, ProcessModel>,
    events: Seq<Event>,
    times: Seq<SystemTime>,
    n: nat,
) -> (SequenceModel, Map<u32, ProcessModel>)
    decreases n,
{
    if n == 0 {
        (sequence, records)
    } else {
        let (earlier, held) = after_events(sequence, records, events, times, (n - 1) as nat);
        let event = events[n - 1];
        let kept = earlier.next_records(held, event, times[n - 1]);
        (SequenceModel { pending: earlier.next_action(kept, event), ..earlier }, kept)
    }
}

proof fn lemma_run_goes_forward(
    sequence: SequenceModel,
    records: Map<u32, ProcessModel>,
    events: Seq<Event>,
    times: Seq<SystemTime>,
    a: nat,
    b: nat,
)
    requires
        sequence.wf(),
        a <= b,
    ensures
        after_events(sequence, records, events, times, b).0.wf(),
        after_events(sequence, records, events, times, b).0.order == sequence.order,
        after_events(sequence, records, events, times, b).0.args == sequence.args,
        sequence.place(after_events(sequence, records, events, times, a).0.pending)
            <= sequence.place(after_events(sequence, records, events, times, b).0.pending),
    decreases b,
{
    if b > 0 {
        let (earlier, held) = after_events(sequence, records, events, times, (b - 1) as nat);
        if a < b {
            lemma_run_goes_forward(sequence, records, events, times, a, (b - 1) as nat);
        } else {
            lemma_run_goes_forward(sequence, records, events, times, (b - 1) as nat, (b - 1) as nat);
        }
        let event = events[b - 1];
        let kept = earlier.next_records(held, event, times[b - 1]);
        lemma_next_action_fits(earlier, kept, event);
        lemma_steps_go_forward(earlier, kept, event);
        assert(earlier.place(earlier.next_action(kept, event)) == sequence.place(
            earlier.next_action(kept, event),
        ));
        assert(earlier.place(earlier.pending) == sequence.place(earlier.pending));
    }
}

/// Over any run of a sequence, whatever is reported: the spawns that are
/// answered come in the start order, each service at most once, and each
/// for a service that the filters let start.
pub proof fn lemma_each_service_is_spawned_once(
    sequence: SequenceModel,
    records: Map<u32, ProcessModel>,
    events: Seq<Event>,
    times: Seq<SystemTime>,
    a: nat,
    b: nat,
)
    requires
        sequence.wf(),
        a < b,
        after_events(sequence, records, events, times, a).0.pending is Spawn,
        events[a as int] is Spawned || events[a as int] is SpawnFailed,
        after_events(sequence, records, events, times, b).0.pending is Spawn,
    ensures
        after_events(sequence, records, events, times, a).0.pending->Spawn_index < after_events(
            sequence,
            records,
            events,
            times,
            b,
        ).0.pending->Spawn_index,
        sequence.selected(
            after_events(sequence, records, events, times, b).0.pending->Spawn_index as int,
        ),
{
    let (first, held) = after_events(sequence, records, events, times, a);
    lemma_run_goes_forward(sequence, records, events, times, a, a);
    let event = events[a as int];
    let kept = first.next_records(held, event, times[a as int]);
    lemma_steps_go_forward(first, kept, event);
    assert(first.place(first.next_action(kept, event)) == sequence.place(
        first.next_action(kept, event),
    ));
    assert(first.place(first.pending) == sequence.place(first.pending));
    lemma_run_goes_forward(sequence, records, events, times, a + 1, b);
}

} // verus!
