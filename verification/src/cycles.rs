//! Finding a cycle among the dependencies of a project.
//!
//! The start order takes a cycle in silence. Whether there is one shows in
//! the order itself: without a cycle every service stands after all the
//! services that it depends on, and with one some service does not.

use vstd::prelude::*;
use vstd::string::StringExecFns;
use crate::config::Service;
use crate::error::ToolError;
use crate::resolver::{find_service, first_named, is_known, lemma_first_named, pointed, resolve_order};
use crate::resolver_proofs::{acyclic, lemma_acyclic_iff_settled, placed_before, settled};
use crate::start::StartArgs;

verus! {

/// A dependency that closes a cycle: a service, and a service that it
/// depends on that does not start before it.
#[derive(Debug)]
pub struct CycleEdge {
    pub service: String,
    pub dependency: String,
}

/// Whether dependency `i` of the service at place `p` of the start order of
/// `all` names a service that the order does not place before that place.
pub open spec fn unsettled_at(all: Seq<Service>, p: int, i: int) -> bool {
    &&& 0 <= p < resolve_order(all).len()
    &&& 0 <= i < resolve_order(all)[p].dependencies@.len()
    &&& is_known(all, resolve_order(all)[p].dependencies@[i]@)
    &&& !placed_before(resolve_order(all), p, resolve_order(all)[p].dependencies@[i]@)
}

/// Whether dependency `i` of the service at place `p` is the first
/// dependency that the start order of `all` leaves unsettled: of the first
/// such service of the order, and among its dependencies the first.
pub open spec fn first_unsettled(all: Seq<Service>, p: int, i: int) -> bool {
    &&& unsettled_at(all, p, i)
    &&& forall|r: int, k: int| r < p ==> !#[trigger] unsettled_at(all, r, k)
    &&& forall|k: int| k < i ==> !#[trigger] unsettled_at(all, p, k)
}

/// Whether the service named `service` depends on the service named
/// `dependency` without the start order of `all` placing that before it,
/// and this is the first such dependency in the order.
pub open spec fn closes_cycle(all: Seq<Service>, service: Seq<char>, dependency: Seq<char>) -> bool {
    exists|p: int, i: int| #[trigger]
        first_unsettled(all, p, i) && resolve_order(all)[p].name@ == service && resolve_order(
            all,
        )[p].dependencies@[i]@ == dependency
}

/// Whether a service named `name` stands among the first `p` of `order`.
fn stands_before(order: &Vec<&Service>, p: usize, name: &str) -> (found: bool)
    requires
        p <= order@.len(),
    ensures
        found == placed_before(pointed(order@), p as int, name@),
{
    let mut q: usize = 0;
    while q < p
        invariant
            q <= p <= order@.len(),
            forall|j: int| 0 <= j < q ==> (#[trigger] pointed(order@)[j]).name@ != name@,
        decreases p - q,
    {
        if order[q].name.as_str().eq(name) {
            assert(pointed(order@)[q as int].name@ == name@);
            return true;
        }
        q += 1;
    }
    false
}

impl StartArgs {
    /// Looks for a cycle among the dependencies of `services`. Where there is
    /// none the result is `None`; where there is one, it is the first
    /// dependency that closes a cycle.
    pub fn find_cycle(&self, services: &[Service]) -> (found: Option<CycleEdge>)
        ensures
            match found {
                None => acyclic(services@),
                Some(edge) => !acyclic(services@) && closes_cycle(
                    services@,
                    edge.service@,
                    edge.dependency@,
                ),
            },
    {
        let order = self.sort_services_by_dependencies(services);
        let ghost all = services@;
        let ghost out = resolve_order(all);
        let ghost none = Set::<Seq<char>>::empty();
        proof {
            lemma_acyclic_iff_settled(all);
        }
        let mut p: usize = 0;
        while p < order.len()
            invariant
                p <= order@.len(),
                all == services@,
                out == pointed(order@),
                out == resolve_order(all),
                none == Set::<Seq<char>>::empty(),
                acyclic(all) <==> settled(all, out, none),
                forall|r: int, i: int|
                    0 <= r < p && 0 <= i < out[r].dependencies@.len() && is_known(
                        all,
                        out[r].dependencies@[i]@,
                    ) ==> placed_before(out, r, #[trigger] out[r].dependencies@[i]@),
            decreases order@.len() - p,
        {
            let service = order[p];
            assert(*service == out[p as int]);
            let mut i: usize = 0;
            while i < service.dependencies.len()
                invariant
                    i <= service.dependencies@.len(),
                    p < order@.len(),
                    all == services@,
                    out == pointed(order@),
                    out == resolve_order(all),
                    none == Set::<Seq<char>>::empty(),
                    acyclic(all) <==> settled(all, out, none),
                    *service == out[p as int],
                    forall|r: int, i: int|
                        0 <= r < p && 0 <= i < out[r].dependencies@.len() && is_known(
                            all,
                            out[r].dependencies@[i]@,
                        ) ==> placed_before(out, r, #[trigger] out[r].dependencies@[i]@),
                    forall|k: int|
                        0 <= k < i && is_known(all, (#[trigger] service.dependencies@[k])@)
                            ==> placed_before(out, p as int, service.dependencies@[k]@),
                decreases service.dependencies@.len() - i,
            {
                let name = service.dependencies[i].as_str();
                let known = find_service(services, name).is_some();
                proof {
                    lemma_first_named(all, name@);
                    if let Some(j) = first_named(all, name@) {
                        assert(all[j].name@ == name@);
                    }
                }
                if known && !stands_before(&order, p, name) {
                    proof {
                        let dep = out[p as int].dependencies@[i as int]@;
                        assert(dep == name@);
                        assert(is_known(all, dep));
                        assert(!placed_before(out, p as int, dep));
                        assert(!none.contains(dep));
                        assert(!settled(all, out, none));
                        assert(first_unsettled(all, p as int, i as int));
                    }
                    return Some(
                        CycleEdge { service: service.name.clone(), dependency: name.to_owned() },
                    );
                }
                i += 1;
            }
            p += 1;
        }
        proof {
            assert(settled(all, out, none));
        }
        None
    }

    /// Checks that the dependencies of `services` hold no cycle: where they
    /// hold one, the result is a configuration error that names a dependency
    /// that closes it.
    pub fn check_acyclic(&self, services: &[Service]) -> (checked: Result<(), ToolError>)
        ensures
            match checked {
                Ok(_) => acyclic(services@),
                Err(ToolError::ConfigError(reason)) => !acyclic(services@) && exists|
                    service: Seq<char>,
                    dependency: Seq<char>,
                |
                    closes_cycle(services@, service, dependency) && reason@ == #[trigger] cycle_text(
                        service,
                        dependency,
                    ),
                Err(_) => false,
            },
    {
        match self.find_cycle(services) {
            None => Ok(()),
            Some(edge) => {
                let reason = "Dependency cycle: service '".to_owned().concat(
                    edge.service.as_str(),
                ).concat("' depends on '").concat(edge.dependency.as_str()).concat(
                    "', which cannot start before it",
                );
                assert(reason@ == cycle_text(edge.service@, edge.dependency@));
                Err(ToolError::ConfigError(reason))
            },
        }
    }
}

/// The words of the error for a dependency that closes a cycle.
pub open spec fn cycle_text(service: Seq<char>, dependency: Seq<char>) -> Seq<char> {
    "Dependency cycle: service '"@ + service + "' depends on '"@ + dependency
        + "', which cannot start before it"@
}

} // verus!
