//! The registry of the processes that were started: one record for each
//! process id, found by id, by service and by project.
//!
//! The registry holds what is known of each process. The handle of the
//! process itself stays with the caller, who keeps it under the same id and
//! ends the processes that `drain` hands back.

use vstd::prelude::*;
use vstd::std_specs::iter::IteratorSpec;
use std::collections::HashMap;
use std::time::SystemTime;

verus! {

/// A point in time of the system clock, `std::time::SystemTime`. Nothing is
/// known of its value.
#[verifier::external_type_specification]
#[verifier::external_body]
pub struct ExSystemTime(SystemTime);

/// The time now, `SystemTime::now` of the standard library. Nothing is
/// claimed of the result: it differs from call to call.
#[verifier::external_body]
fn current_time() -> SystemTime {
    SystemTime::now()
}

/// The state of a process, as a plain value.
pub enum StatusModel {
    Running,
    Stopped,
    Error(Seq<char>),
}

/// The record of a process, as a plain value.
pub struct ProcessModel {
    pub pid: u32,
    pub service_name: Seq<char>,
    pub project_name: Seq<char>,
    pub command: Seq<char>,
    pub start_time: SystemTime,
    pub status: StatusModel,
}

/// The state of a process: running, ended in success, or failed with a
/// reason.
#[derive(Debug)]
pub enum ProcessStatus {
    Running,
    Stopped,
    Error(String),
}

impl View for ProcessStatus {
    type V = StatusModel;

    open spec fn view(&self) -> StatusModel {
        match self {
            ProcessStatus::Running => StatusModel::Running,
            ProcessStatus::Stopped => StatusModel::Stopped,
            ProcessStatus::Error(reason) => StatusModel::Error(reason@),
        }
    }
}

impl Clone for ProcessStatus {
    fn clone(&self) -> (copy: Self)
        ensures
            copy@ == self@,
    {
        match self {
            ProcessStatus::Running => ProcessStatus::Running,
            ProcessStatus::Stopped => ProcessStatus::Stopped,
            ProcessStatus::Error(reason) => ProcessStatus::Error(reason.clone()),
        }
    }
}

/// How a process ended, as a plain value.
pub enum OutcomeModel {
    Succeeded,
    Failed(Seq<char>),
}

/// How a process ended: in success, or in failure with a reason.
#[derive(Debug)]
pub enum ExitOutcome {
    Succeeded,
    Failed(String),
}

impl View for ExitOutcome {
    type V = OutcomeModel;

    open spec fn view(&self) -> OutcomeModel {
        match self {
            ExitOutcome::Succeeded => OutcomeModel::Succeeded,
            ExitOutcome::Failed(reason) => OutcomeModel::Failed(reason@),
        }
    }
}

/// The state that a process is in after it ended with `outcome`.
pub open spec fn status_after(outcome: OutcomeModel) -> StatusModel {
    match outcome {
        OutcomeModel::Succeeded => StatusModel::Stopped,
        OutcomeModel::Failed(reason) => StatusModel::Error(reason),
    }
}

/// What is known of one process that was started.
#[derive(Debug)]
pub struct ProcessInfo {
    pub pid: u32,
    pub service_name: String,
    pub project_name: String,
    pub command: String,
    pub start_time: SystemTime,
    pub status: ProcessStatus,
}

impl View for ProcessInfo {
    type V = ProcessModel;

    open spec fn view(&self) -> ProcessModel {
        ProcessModel {
            pid: self.pid,
            service_name: self.service_name@,
            project_name: self.project_name@,
            command: self.command@,
            start_time: self.start_time,
            status: self.status@,
        }
    }
}

impl Clone for ProcessInfo {
    fn clone(&self) -> (copy: Self)
        ensures
            copy@ == self@,
    {
        ProcessInfo {
            pid: self.pid,
            service_name: self.service_name.clone(),
            project_name: self.project_name.clone(),
            command: self.command.clone(),
            start_time: self.start_time,
            status: self.status.clone(),
        }
    }
}

/// The record that a registration writes: a running process.
pub open spec fn new_record(
    pid: u32,
    service_name: Seq<char>,
    project_name: Seq<char>,
    command: Seq<char>,
    start_time: SystemTime,
) -> ProcessModel {
    ProcessModel {
        pid,
        service_name,
        project_name,
        command,
        start_time,
        status: StatusModel::Running,
    }
}

/// Whether `record` is a running process of the service `service_name` of
/// the project `project_name`.
pub open spec fn runs(record: ProcessModel, project_name: Seq<char>, service_name: Seq<char>) -> bool {
    record.project_name == project_name && record.service_name == service_name
        && record.status is Running
}

/// Whether `records` holds a running process of that service of that project.
pub open spec fn running(
    records: Map<u32, ProcessModel>,
    project_name: Seq<char>,
    service_name: Seq<char>,
) -> bool {
    exists|pid: u32| #[trigger] records.contains_key(pid) && runs(records[pid], project_name, service_name)
}

/// Whether `record` is a running process of the project `project_name`.
pub open spec fn runs_in(record: ProcessModel, project_name: Seq<char>) -> bool {
    record.project_name == project_name && record.status is Running
}

/// The records after the process `pid` ended with `outcome`: its record, if
/// there is one, has the state that follows from the outcome; nothing else
/// changes.
pub open spec fn exited(records: Map<u32, ProcessModel>, pid: u32, outcome: OutcomeModel) -> Map<
    u32,
    ProcessModel,
> {
    if records.contains_key(pid) {
        records.insert(pid, ProcessModel { status: status_after(outcome), ..records[pid] })
    } else {
        records
    }
}

/// Every record is kept under the process id that it holds.
pub open spec fn keyed_by_pid(records: Map<u32, ProcessModel>) -> bool {
    forall|pid: u32| #[trigger] records.contains_key(pid) ==> records[pid].pid == pid
}

/// Whether `list` holds, each once and in any order, the records of
/// `records` that `wanted` accepts.
pub open spec fn lists(
    list: Seq<ProcessModel>,
    records: Map<u32, ProcessModel>,
    wanted: spec_fn(ProcessModel) -> bool,
) -> bool {
    &&& forall|i: int|
        0 <= i < list.len() ==> records.contains_key((#[trigger] list[i]).pid) && records[list[i].pid]
            == list[i] && wanted(list[i])
    &&& forall|i: int, j: int|
        0 <= i < j < list.len() ==> (#[trigger] list[i]).pid != (#[trigger] list[j]).pid
    &&& forall|pid: u32|
        #[trigger] records.contains_key(pid) && wanted(records[pid]) ==> exists|i: int|
            0 <= i < list.len() && (#[trigger] list[i]).pid == pid
}

/// The plain values of a list of records.
pub open spec fn models(list: Seq<ProcessInfo>) -> Seq<ProcessModel> {
    Seq::new(list.len(), |i: int| list[i]@)
}

/// The registry: the records of the processes that were started, each under
/// its process id.
#[derive(Debug)]
pub struct ProcessState {
    processes: HashMap<u32, ProcessInfo>,
}

impl View for ProcessState {
    type V = Map<u32, ProcessModel>;

    closed spec fn view(&self) -> Map<u32, ProcessModel> {
        self.processes@.map_values(|info: ProcessInfo| info@)
    }
}

impl ProcessState {
    /// The registry is in order: every record is kept under the process id
    /// that it holds.
    pub open spec fn wf(&self) -> bool {
        keyed_by_pid(self@)
    }

    /// A registry without records.
    pub fn new() -> (state: Self)
        ensures
            state@ == Map::<u32, ProcessModel>::empty(),
            state.wf(),
    {
        let state = ProcessState { processes: HashMap::new() };
        assert(state@ =~= Map::<u32, ProcessModel>::empty());
        state
    }

    /// Registers the process `pid` as a running process of the service
    /// `service_name` of the project `project_name`, started with `command`
    /// at the time of the call, and returns its id. A record that stood
    /// under the same id is replaced. From then on the service counts as
    /// running.
    pub fn add_process(
        &mut self,
        pid: u32,
        service_name: &str,
        project_name: &str,
        command: &str,
    ) -> (id: u32)
        requires
            old(self).wf(),
        ensures
            id == pid,
            exists|start_time: SystemTime|
                final(self)@ == old(self)@.insert(
                    pid,
                    #[trigger] new_record(pid, service_name@, project_name@, command@, start_time),
                ),
            running(final(self)@, project_name@, service_name@),
            final(self).wf(),
    {
        let process_info = ProcessInfo {
            pid,
            service_name: service_name.to_owned(),
            project_name: project_name.to_owned(),
            command: command.to_owned(),
            start_time: current_time(),
            status: ProcessStatus::Running,
        };
        let ghost record = process_info@;
        self.processes.insert(pid, process_info);
        proof {
            assert(record == new_record(
                pid,
                service_name@,
                project_name@,
                command@,
                record.start_time,
            ));
            assert(self@ =~= old(self)@.insert(pid, record));
            assert(keyed_by_pid(self@));
            lemma_registered_is_running(
                old(self)@,
                pid,
                service_name@,
                project_name@,
                command@,
                record.start_time,
            );
        }
        pid
    }

    /// Removes the record of the process `pid`. Where there is none, nothing
    /// changes.
    pub fn remove_process(&mut self, pid: u32)
        requires
            old(self).wf(),
        ensures
            final(self).wf(),
            final(self)@ == old(self)@.remove(pid),
            !old(self)@.contains_key(pid) ==> final(self)@ == old(self)@,
    {
        self.processes.remove(&pid);
        proof {
            assert(self@ =~= old(self)@.remove(pid));
            if !old(self)@.contains_key(pid) {
                assert(old(self)@.remove(pid) =~= old(self)@);
            }
        }
    }

    /// Writes down that the process `pid` ended with `outcome`: its record
    /// is stopped after a success and failed, with the reason, after a
    /// failure. Where there is no such record, nothing changes.
    pub fn mark_exited(&mut self, pid: u32, outcome: ExitOutcome)
        requires
            old(self).wf(),
        ensures
            final(self).wf(),
            final(self)@ == exited(old(self)@, pid, outcome@),
    {
        let found = self.processes.remove(&pid);
        match found {
            Some(info) => {
                let status = match outcome {
                    ExitOutcome::Succeeded => ProcessStatus::Stopped,
                    ExitOutcome::Failed(reason) => ProcessStatus::Error(reason),
                };
                let updated = ProcessInfo {
                    pid: info.pid,
                    service_name: info.service_name,
                    project_name: info.project_name,
                    command: info.command,
                    start_time: info.start_time,
                    status,
                };
                self.processes.insert(pid, updated);
                proof {
                    assert(self@ =~= exited(old(self)@, pid, outcome@));
                }
            },
            None => {
                proof {
                    assert(self@ =~= old(self)@);
                }
            },
        }
    }

    /// The number of records.
    pub fn process_count(&self) -> (count: usize)
        ensures
            count == self@.len(),
    {
        proof {
            assert(self@.dom() =~= self.processes@.dom());
        }
        self.processes.len()
    }

    /// Whether a running process of the service `service_name` of the
    /// project `project_name` is registered.
    pub fn is_service_running(&self, project_name: &str, service_name: &str) -> (found: bool)
        ensures
            found == running(self@, project_name@, service_name@),
    {
        broadcast use vstd::std_specs::hash::group_hash_axioms;

        let ghost held = vstd::std_specs::hash::spec_hash_map_iter(&self.processes).remaining();
        let mut found = false;
        for entry in it: self.processes.iter()
            invariant
                it.seq() == held,
                found == exists|j: int|
                    0 <= j < it.index() && runs((#[trigger] held[j]).1@, project_name@, service_name@),
        {
            let info = entry.1;
            if info.project_name.as_str().eq(project_name) && info.service_name.as_str().eq(
                service_name,
            ) && is_running_status(&info.status) {
                found = true;
            }
        }
        proof {
            if found {
                let j = choose|j: int|
                    0 <= j < held.len() && runs((#[trigger] held[j]).1@, project_name@, service_name@);
                let pid = *held[j].0;
                assert(self.processes@.contains_key(pid) && self.processes@[pid] == *held[j].1);
                assert(self@.contains_key(pid));
            }
            if running(self@, project_name@, service_name@) {
                let pid = choose|pid: u32| #[trigger]
                    self@.contains_key(pid) && runs(self@[pid], project_name@, service_name@);
                assert(self.processes@.contains_key(pid));
                assert(held.contains((&pid, &self.processes@[pid])));
                let j = choose|j: int| 0 <= j < held.len() && held[j] == (&pid, &self.processes@[pid]);
                assert(runs(held[j].1@, project_name@, service_name@));
            }
        }
        found
    }

    /// A copy of every record, in no particular order.
    pub fn get_all_processes(&self) -> (list: Vec<ProcessInfo>)
        requires
            self.wf(),
        ensures
            lists(models(list@), self@, |record: ProcessModel| true),
            list@.len() == self@.len(),
    {
        broadcast use vstd::std_specs::hash::group_hash_axioms;

        let ghost held = vstd::std_specs::hash::spec_hash_map_iter(&self.processes).remaining();
        let mut list: Vec<ProcessInfo> = Vec::new();
        for entry in it: self.processes.iter()
            invariant
                it.seq() == held,
                held.no_duplicates(),
                list@.len() == it.index(),
                forall|j: int| 0 <= j < list@.len() ==> (#[trigger] list@[j])@ == held[j].1@,
        {
            list.push(entry.1.clone());
        }
        proof {
            let found = models(list@);
            assert(self@.dom() =~= self.processes@.dom());
            assert forall|i: int| 0 <= i < found.len() implies self@.contains_key(
                (#[trigger] found[i]).pid,
            ) && self@[found[i].pid] == found[i] by {
                let pid = *held[i].0;
                assert(self.processes@.contains_key(pid) && self.processes@[pid] == *held[i].1);
                assert(self@.contains_key(pid));
                assert(list@[i]@ == held[i].1@);
            }
            assert forall|i: int, j: int| 0 <= i < j < found.len() implies (#[trigger] found[i]).pid != (
            #[trigger] found[j]).pid by {
                let pi = *held[i].0;
                let pj = *held[j].0;
                assert(self.processes@.contains_key(pi) && self.processes@[pi] == *held[i].1);
                assert(self.processes@.contains_key(pj) && self.processes@[pj] == *held[j].1);
                assert(self@.contains_key(pi) && self@.contains_key(pj));
                assert(list@[i]@ == held[i].1@ && list@[j]@ == held[j].1@);
                if pi == pj {
                    assert(held[i] == held[j]);
                }
            }
            assert forall|pid: u32| #[trigger] self@.contains_key(pid) implies exists|i: int|
                0 <= i < found.len() && (#[trigger] found[i]).pid == pid by {
                assert(self.processes@.contains_key(pid));
                assert(held.contains((&pid, &self.processes@[pid])));
                let i = choose|i: int| 0 <= i < held.len() && held[i] == (&pid, &self.processes@[pid]);
                assert(list@[i]@ == held[i].1@);
                assert(found[i].pid == pid);
            }
        }
        list
    }

    /// A copy of the record of every running process of the project
    /// `project_name`, in no particular order.
    pub fn get_project_processes(&self, project_name: &str) -> (list: Vec<ProcessInfo>)
        requires
            self.wf(),
        ensures
            lists(models(list@), self@, |record: ProcessModel| runs_in(record, project_name@)),
    {
        let all = self.get_all_processes();
        let ghost every = models(all@);
        let mut list: Vec<ProcessInfo> = Vec::new();
        let mut i: usize = 0;
        while i < all.len()
            invariant
                i <= all@.len(),
                every == models(all@),
                lists(every, self@, |record: ProcessModel| true),
                forall|j: int|
                    0 <= j < list@.len() ==> runs_in((#[trigger] list@[j])@, project_name@)
                        && exists|k: int| 0 <= k < i && every[k] == list@[j]@,
                forall|j: int, k: int|
                    0 <= j < k < list@.len() ==> (#[trigger] list@[j]).pid != (#[trigger] list@[k]).pid,
                forall|k: int|
                    0 <= k < i && runs_in((#[trigger] every[k]), project_name@) ==> exists|j: int|
                        0 <= j < list@.len() && (#[trigger] list@[j])@ == every[k],
            decreases all@.len() - i,
        {
            let info = &all[i];
            assert(info@ == every[i as int]);
            if info.project_name.as_str().eq(project_name) && is_running_status(&info.status) {
                let ghost before = list@;
                list.push(info.clone());
                proof {
                    let last = before.len() as int;
                    assert(list@[last]@ == every[i as int]);
                    assert forall|j: int, k: int| 0 <= j < k < list@.len() implies (
                    #[trigger] list@[j]).pid != (#[trigger] list@[k]).pid by {
                        if k == last {
                            assert(list@[j] == before[j]);
                            let m = choose|m: int| 0 <= m < i && every[m] == before[j]@;
                            assert(every[m].pid != every[i as int].pid);
                        } else {
                            assert(list@[j] == before[j] && list@[k] == before[k]);
                        }
                    }
                    assert forall|j: int| 0 <= j < list@.len() implies runs_in(
                        (#[trigger] list@[j])@,
                        project_name@,
                    ) && exists|k: int| 0 <= k < i + 1 && every[k] == list@[j]@ by {
                        if j < last {
                            assert(list@[j] == before[j]);
                            let m = choose|m: int| 0 <= m < i && every[m] == before[j]@;
                            assert(every[m] == list@[j]@);
                        } else {
                            assert(every[i as int] == list@[j]@);
                        }
                    }
                    assert forall|k: int|
                        0 <= k < i + 1 && runs_in((#[trigger] every[k]), project_name@) implies exists|
                        j: int,
                    | 0 <= j < list@.len() && (#[trigger] list@[j])@ == every[k] by {
                        if k < i {
                            let j = choose|j: int| 0 <= j < before.len() && (#[trigger] before[j])@ == every[k];
                            assert(list@[j] == before[j]);
                        } else {
                            assert(list@[last]@ == every[k]);
                        }
                    }
                }
            }
            i += 1;
        }
        proof {
            let found = models(list@);
            let wanted = |record: ProcessModel| runs_in(record, project_name@);
            assert forall|j: int| 0 <= j < found.len() implies self@.contains_key(
                (#[trigger] found[j]).pid,
            ) && self@[found[j].pid] == found[j] && wanted(found[j]) by {
                assert(runs_in(list@[j]@, project_name@));
                let k = choose|k: int| 0 <= k < i && every[k] == list@[j]@;
                assert(self@.contains_key(every[k].pid));
            }
            assert forall|j: int, k: int| 0 <= j < k < found.len() implies (#[trigger] found[j]).pid != (
            #[trigger] found[k]).pid by {
                assert(list@[j].pid != list@[k].pid);
            }
            assert forall|pid: u32| #[trigger] self@.contains_key(pid) && wanted(self@[pid]) implies exists|
                j: int,
            | 0 <= j < found.len() && (#[trigger] found[j]).pid == pid by {
                let k = choose|k: int| 0 <= k < every.len() && (#[trigger] every[k]).pid == pid;
                assert(self@[every[k].pid] == every[k]);
                let j = choose|j: int| 0 <= j < list@.len() && (#[trigger] list@[j])@ == every[k];
                assert(found[j].pid == pid);
            }
        }
        list
    }

    /// Takes every record out of the registry and hands them back, in no
    /// particular order: the processes that a caller who gives up the
    /// registry still has to end.
    pub fn drain(&mut self) -> (list: Vec<ProcessInfo>)
        requires
            old(self).wf(),
        ensures
            final(self).wf(),
            final(self)@ == Map::<u32, ProcessModel>::empty(),
            lists(models(list@), old(self)@, |record: ProcessModel| true),
            list@.len() == old(self)@.len(),
    {
        let list = self.get_all_processes();
        self.processes.clear();
        proof {
            assert(self@ =~= Map::<u32, ProcessModel>::empty());
        }
        list
    }
}

/// Whether `status` is that of a running process.
pub fn is_running_status(status: &ProcessStatus) -> (b: bool)
    ensures
        b == (status@ is Running),
{
    match status {
        ProcessStatus::Running => true,
        _ => false,
    }
}

impl Default for ProcessState {
    fn default() -> (state: Self)
        ensures
            state@ == Map::<u32, ProcessModel>::empty(),
            state.wf(),
    {
        ProcessState::new()
    }
}

/// Once a process is registered for a service of a project, that service
/// of that project counts as running, whatever the registry held before.
pub proof fn lemma_registered_is_running(
    records: Map<u32, ProcessModel>,
    pid: u32,
    service_name: Seq<char>,
    project_name: Seq<char>,
    command: Seq<char>,
    start_time: SystemTime,
)
    ensures
        running(
            records.insert(pid, new_record(pid, service_name, project_name, command, start_time)),
            project_name,
            service_name,
        ),
{
    let after = records.insert(
        pid,
        new_record(pid, service_name, project_name, command, start_time),
    );
    assert(after.contains_key(pid) && runs(after[pid], project_name, service_name));
}

/// To remove a process id that has no record changes nothing.
pub proof fn lemma_remove_unknown(records: Map<u32, ProcessModel>, pid: u32)
    requires
        !records.contains_key(pid),
    ensures
        records.remove(pid) == records,
{
    assert(records.remove(pid) =~= records);
}

/// After a process ended, its record is not that of a running process, and
/// a service counts as running only if another process of it still runs.
pub proof fn lemma_exited_not_running(
    records: Map<u32, ProcessModel>,
    pid: u32,
    outcome: OutcomeModel,
    project_name: Seq<char>,
    service_name: Seq<char>,
)
    ensures
        exited(records, pid, outcome).dom() == records.dom(),
        records.contains_key(pid) ==> !(exited(records, pid, outcome)[pid].status is Running),
        running(exited(records, pid, outcome), project_name, service_name) <==> exists|other: u32|
            other != pid && #[trigger] records.contains_key(other) && runs(
                records[other],
                project_name,
                service_name,
            ),
{
    let after = exited(records, pid, outcome);
    assert(after.dom() =~= records.dom());
    if running(after, project_name, service_name) {
        let other = choose|other: u32| #[trigger]
            after.contains_key(other) && runs(after[other], project_name, service_name);
        assert(other != pid);
        assert(records.contains_key(other) && runs(records[other], project_name, service_name));
    }
    if exists|other: u32|
        other != pid && #[trigger] records.contains_key(other) && runs(
            records[other],
            project_name,
            service_name,
        ) {
        let other = choose|other: u32|
            other != pid && #[trigger] records.contains_key(other) && runs(
                records[other],
                project_name,
                service_name,
            );
        assert(after.contains_key(other) && runs(after[other], project_name, service_name));
    }
}

} // verus!
