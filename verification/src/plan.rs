//! The plan of a start: what would be started, in which order, where and
//! how checked, without starting anything.

use vstd::prelude::*;
use vstd::string::StringExecFns;
use crate::config::{ProjectConfig, Service};
use crate::health::{ProbeTarget, TargetModel};
use crate::orchestrator::target_of_service;
use crate::resolver::{pointed, resolve_order};
use crate::start::StartArgs;

verus! {

/// What the plan says of one service.
#[derive(Debug)]
pub struct PlanEntry {
    pub name: String,
    pub command: String,
    /// The directory in which the command would run.
    pub working_dir: String,
    /// What its readiness check would probe.
    pub check: ProbeTarget,
    /// Whether the filters let it start.
    pub selected: bool,
}

/// What the plan says of one service, as a plain value.
pub struct PlanModel {
    pub name: Seq<char>,
    pub command: Seq<char>,
    pub working_dir: Seq<char>,
    pub check: TargetModel,
    pub selected: bool,
}

impl View for PlanEntry {
    type V = PlanModel;

    open spec fn view(&self) -> PlanModel {
        PlanModel {
            name: self.name@,
            command: self.command@,
            working_dir: self.working_dir@,
            check: self.check@,
            selected: self.selected,
        }
    }
}

/// What the plan says of `service` of `project` under the filters of `args`.
pub open spec fn planned(args: StartArgs, project: ProjectConfig, service: Service) -> PlanModel {
    PlanModel {
        name: service.name@,
        command: service.command@,
        working_dir: project.working_directory_of(service),
        check: target_of_service(service),
        selected: args.selects(service.name@),
    }
}

/// The line that shows one service of a plan.
pub open spec fn plan_line(entry: PlanModel) -> Seq<char> {
    if entry.selected {
        "  ✅ "@ + entry.name + ": "@ + entry.command
    } else {
        "  ❌ "@ + entry.name + ": (skipped)"@
    }
}

impl PlanEntry {
    /// The line that shows the service: its command if it would start, and
    /// that it is skipped if not.
    pub fn line(&self) -> (line: String)
        ensures
            line@ == plan_line(self@),
    {
        if self.selected {
            "  ✅ ".to_owned().concat(self.name.as_str()).concat(": ").concat(
                self.command.as_str(),
            )
        } else {
            "  ❌ ".to_owned().concat(self.name.as_str()).concat(": (skipped)")
        }
    }
}

impl StartArgs {
    /// The plan of a start of `project`: one entry for each service, in the
    /// start order, with the command, the directory in which it would run,
    /// what its readiness check would probe, and whether the filters let
    /// it start. Nothing is started.
    pub fn dry_run(&self, project: &ProjectConfig) -> (plan: Vec<PlanEntry>)
        ensures
            plan@.len() == resolve_order(project.service_list()).len(),
            forall|k: int|
                0 <= k < plan@.len() ==> (#[trigger] plan@[k])@ == planned(
                    *self,
                    *project,
                    resolve_order(project.service_list())[k],
                ),
    {
        let mut plan: Vec<PlanEntry> = Vec::new();
        match &project.services {
            Some(services) => {
                let order = self.sort_services_by_dependencies(services.as_slice());
                let ghost placed = resolve_order(project.service_list());
                let mut k: usize = 0;
                while k < order.len()
                    invariant
                        k <= order@.len(),
                        pointed(order@) == placed,
                        plan@.len() == k,
                        forall|j: int|
                            0 <= j < k ==> (#[trigger] plan@[j])@ == planned(*self, *project, placed[j]),
                    decreases order@.len() - k,
                {
                    let service = order[k];
                    assert(*service == placed[k as int]);
                    let check = match &service.health_check {
                        Some(health_check) => health_check.probe_target(),
                        None => ProbeTarget::Nothing,
                    };
                    plan.push(
                        PlanEntry {
                            name: service.name.clone(),
                            command: service.command.clone(),
                            working_dir: project.working_directory(service),
                            check,
                            selected: self.should_start_service(service),
                        },
                    );
                    k += 1;
                }
                assert(order@.len() == placed.len());
            },
            None => {},
        }
        plan
    }
}

} // verus!
