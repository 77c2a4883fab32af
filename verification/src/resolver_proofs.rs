//! What holds of the start order, for every project.

use vstd::prelude::*;
use crate::config::Service;
use crate::resolver::{
    dependencies_order, first_named, is_first_named, is_known, lemma_first_named,
    lemma_names_of_concat, lemma_names_of_push, lemma_unvisited_grow, lemma_unvisited_insert,
    names_of, resolve_order, resolve_prefix, strangeness, unvisited, visit_order,
};

verus! {

/// No service of `placed` bears a name of `visited`.
pub open spec fn fresh_names(placed: Seq<Service>, visited: Set<Seq<char>>) -> bool {
    forall|p: int| 0 <= p < placed.len() ==> !visited.contains((#[trigger] placed[p]).name@)
}

/// No two services of `placed` bear the same name.
pub open spec fn distinct_names(placed: Seq<Service>) -> bool {
    forall|p: int, q: int|
        0 <= p < q < placed.len() ==> (#[trigger] placed[p]).name@ != (#[trigger] placed[q]).name@
}

/// Whether `service` is the first service of `all` that bears its name.
pub open spec fn is_first(all: Seq<Service>, service: Service) -> bool {
    exists|j: int| is_first_named(all, service.name@, j) && all[j] == service
}

/// Every service of `placed` is the first service of `all` of its name.
pub open spec fn drawn_from(all: Seq<Service>, placed: Seq<Service>) -> bool {
    forall|p: int| 0 <= p < placed.len() ==> is_first(all, #[trigger] placed[p])
}

/// A service named `name` stands in `placed` before place `p`.
pub open spec fn placed_before(placed: Seq<Service>, p: int, name: Seq<char>) -> bool {
    exists|q: int| 0 <= q < p && (#[trigger] placed[q]).name@ == name
}

/// Every dependency of every service of `placed` that names a service of
/// `all` is in `done` or stands in `placed` before the service that names it.
pub open spec fn settled(all: Seq<Service>, placed: Seq<Service>, done: Set<Seq<char>>) -> bool {
    forall|p: int, i: int|
        0 <= p < placed.len() && 0 <= i < placed[p].dependencies@.len() && is_known(
            all,
            placed[p].dependencies@[i]@,
        ) ==> done.contains(placed[p].dependencies@[i]@) || placed_before(
            placed,
            p,
            #[trigger] placed[p].dependencies@[i]@,
        )
}

/// `rank` gives every service a number above those of the services that it
/// depends on. Of several services with one name only the first counts: a
/// name stands for the first service that bears it, and no other starts.
pub open spec fn ranked(all: Seq<Service>, rank: spec_fn(Seq<char>) -> nat) -> bool {
    forall|s: int, i: int|
        is_first_named(all, all[s].name@, s) && 0 <= i < all[s].dependencies@.len() && is_known(
            all,
            all[s].dependencies@[i]@,
        ) ==> rank(#[trigger] all[s].dependencies@[i]@) < rank(all[s].name@)
}

/// The dependencies of `all` hold no cycle: the services can be numbered so
/// that each has a number above those of the services that it depends on.
/// (A finite graph can be numbered so exactly when it has no cycle.)
pub open spec fn acyclic(all: Seq<Service>) -> bool {
    exists|rank: spec_fn(Seq<char>) -> nat| ranked(all, rank)
}

/// No two services of `all` bear the same name.
pub open spec fn unique_names(all: Seq<Service>) -> bool {
    distinct_names(all)
}

proof fn lemma_concat_structure(
    all: Seq<Service>,
    before: Seq<Service>,
    next: Seq<Service>,
    visited: Set<Seq<char>>,
)
    requires
        fresh_names(before, visited),
        distinct_names(before),
        drawn_from(all, before),
        fresh_names(next, visited + names_of(before)),
        distinct_names(next),
        drawn_from(all, next),
    ensures
        fresh_names(before + next, visited),
        distinct_names(before + next),
        drawn_from(all, before + next),
{
    let joined = before + next;
    assert forall|p: int| 0 <= p < joined.len() implies !visited.contains(
        (#[trigger] joined[p]).name@,
    ) && is_first(all, joined[p]) by {
        if p < before.len() {
            assert(joined[p] == before[p]);
        } else {
            assert(joined[p] == next[p - before.len()]);
        }
    }
    assert forall|p: int, q: int| 0 <= p < q < joined.len() implies (#[trigger] joined[p]).name@
        != (#[trigger] joined[q]).name@ by {
        if q < before.len() {
            assert(joined[p] == before[p] && joined[q] == before[q]);
        } else if p >= before.len() {
            assert(joined[p] == next[p - before.len()] && joined[q] == next[q - before.len()]);
        } else {
            assert(joined[p] == before[p] && joined[q] == next[q - before.len()]);
            assert(names_of(before).contains(before[p].name@));
        }
    }
}

/// What a visit places: services that were not marked, no name twice, each
/// the first of its name; and after the visit the service's name is marked.
pub proof fn lemma_visit_structure(all: Seq<Service>, service: Service, visited: Set<Seq<char>>)
    requires
        visited.contains(service.name@) || is_first(all, service),
    ensures
        fresh_names(visit_order(all, service, visited), visited),
        distinct_names(visit_order(all, service, visited)),
        drawn_from(all, visit_order(all, service, visited)),
        (visited + names_of(visit_order(all, service, visited))).contains(service.name@),
    decreases unvisited(all, visited), strangeness(all, service), 0nat,
{
    if !visited.contains(service.name@) {
        let deps = service.dependencies@;
        let v1 = visited.insert(service.name@);
        let j = choose|j: int| is_first_named(all, service.name@, j) && all[j] == service;
        assert(is_known(all, service.name@));
        lemma_unvisited_insert(all, visited, service.name@);
        lemma_dependencies_structure(all, deps, deps.len(), v1);
        let inner = dependencies_order(all, deps, deps.len(), v1);
        let out = inner.push(service);
        assert(out == visit_order(all, service, visited));
        assert forall|p: int| 0 <= p < out.len() implies !visited.contains(
            (#[trigger] out[p]).name@,
        ) && is_first(all, out[p]) by {
            if p < inner.len() {
                assert(out[p] == inner[p]);
            }
        }
        assert forall|p: int, q: int| 0 <= p < q < out.len() implies (#[trigger] out[p]).name@ != (
        #[trigger] out[q]).name@ by {
            assert(out[p] == inner[p]);
            if q < inner.len() {
                assert(out[q] == inner[q]);
            }
        }
        assert(out[out.len() - 1].name@ == service.name@);
    }
}

/// What the visits of the first `k` dependencies place: services that were
/// not marked, no name twice, each the first of its name; and after them
/// every one of these dependencies that names a service is marked.
pub proof fn lemma_dependencies_structure(
    all: Seq<Service>,
    deps: Seq<String>,
    k: nat,
    visited: Set<Seq<char>>,
)
    requires
        k <= deps.len(),
    ensures
        fresh_names(dependencies_order(all, deps, k, visited), visited),
        distinct_names(dependencies_order(all, deps, k, visited)),
        drawn_from(all, dependencies_order(all, deps, k, visited)),
        forall|i: int|
            0 <= i < k && is_known(all, (#[trigger] deps[i])@) ==> (visited + names_of(
                dependencies_order(all, deps, k, visited),
            )).contains(deps[i]@),
    decreases unvisited(all, visited), 1nat, k,
{
    if k > 0 {
        let before = dependencies_order(all, deps, (k - 1) as nat, visited);
        lemma_dependencies_structure(all, deps, (k - 1) as nat, visited);
        lemma_first_named(all, deps[k - 1]@);
        match first_named(all, deps[k - 1]@) {
            Some(j) => {
                let v1 = visited + names_of(before);
                let next = visit_order(all, all[j], v1);
                lemma_unvisited_grow(all, visited, v1);
                assert(is_known(all, all[j].name@));
                assert(is_first(all, all[j]));
                lemma_visit_structure(all, all[j], v1);
                lemma_concat_structure(all, before, next, visited);
                lemma_names_of_concat(before, next);
            },
            None => {},
        }
    }
}

/// The start order holds every name once: no two of its services bear the
/// same name, each is the first service of the project of its name, and
/// every service of the project finds its name in it. This holds with
/// cycles among the dependencies as well as without.
pub proof fn lemma_resolve_prefix_total(all: Seq<Service>, n: nat)
    requires
        n <= all.len(),
    ensures
        distinct_names(resolve_prefix(all, n)),
        drawn_from(all, resolve_prefix(all, n)),
        forall|i: int| 0 <= i < n ==> names_of(resolve_prefix(all, n)).contains((#[trigger] all[i]).name@),
    decreases n,
{
    if n > 0 {
        let before = resolve_prefix(all, (n - 1) as nat);
        let service = all[n - 1];
        lemma_resolve_prefix_total(all, (n - 1) as nat);
        let v = names_of(before);
        let next = visit_order(all, service, v);
        if !v.contains(service.name@) {
            assert forall|j: int| 0 <= j < n - 1 implies (#[trigger] all[j]).name@
                != service.name@ by {
                assert(names_of(before).contains(all[j].name@));
            }
            assert(is_first_named(all, service.name@, n - 1));
        }
        lemma_visit_structure(all, service, v);
        assert(fresh_names(before, Set::<Seq<char>>::empty()));
        assert(Set::<Seq<char>>::empty() + names_of(before) =~= v);
        lemma_concat_structure(all, before, next, Set::<Seq<char>>::empty());
        lemma_names_of_concat(before, next);
    }
}

/// The start order is total: every service of the project has its name in
/// it, no name stands in it twice, and each of its services is the first
/// service of the project that bears its name. A cycle among the
/// dependencies changes none of this.
pub proof fn lemma_resolve_order_total(all: Seq<Service>)
    ensures
        distinct_names(resolve_order(all)),
        drawn_from(all, resolve_order(all)),
        forall|i: int| 0 <= i < all.len() ==> names_of(resolve_order(all)).contains((#[trigger] all[i]).name@),
{
    lemma_resolve_prefix_total(all, all.len());
}

proof fn lemma_settled_concat(
    all: Seq<Service>,
    before: Seq<Service>,
    next: Seq<Service>,
    done: Set<Seq<char>>,
)
    requires
        settled(all, before, done),
        settled(all, next, done + names_of(before)),
    ensures
        settled(all, before + next, done),
{
    let joined = before + next;
    assert forall|p: int, i: int|
        0 <= p < joined.len() && 0 <= i < joined[p].dependencies@.len() && is_known(
            all,
            joined[p].dependencies@[i]@,
        ) implies done.contains(joined[p].dependencies@[i]@) || placed_before(
        joined,
        p,
        #[trigger] joined[p].dependencies@[i]@,
    ) by {
        let name = joined[p].dependencies@[i]@;
        if p < before.len() {
            assert(joined[p] == before[p]);
            assert(done.contains(name) || placed_before(before, p, before[p].dependencies@[i]@));
            if !done.contains(name) {
                let q = choose|q: int| 0 <= q < p && (#[trigger] before[q]).name@ == name;
                assert(joined[q].name@ == name);
            }
        } else {
            let inner = p - before.len();
            assert(joined[p] == next[inner]);
            assert((done + names_of(before)).contains(name) || placed_before(
                next,
                inner,
                next[inner].dependencies@[i]@,
            ));
            if done.contains(name) {
            } else if names_of(before).contains(name) {
                let q = choose|q: int| 0 <= q < before.len() && (#[trigger] before[q]).name@ == name;
                assert(joined[q].name@ == name);
            } else {
                let q = choose|q: int| 0 <= q < inner && (#[trigger] next[q]).name@ == name;
                assert(joined[before.len() + q].name@ == name);
            }
        }
    }
}

proof fn lemma_visit_settled(
    all: Seq<Service>,
    s: int,
    visited: Set<Seq<char>>,
    done: Set<Seq<char>>,
    rank: spec_fn(Seq<char>) -> nat,
)
    requires
        ranked(all, rank),
        0 <= s < all.len(),
        visited.contains(all[s].name@) || is_first_named(all, all[s].name@, s),
        done.subset_of(visited),
        forall|a: Seq<char>|
            visited.contains(a) && !done.contains(a) ==> rank(a) > rank(all[s].name@),
    ensures
        settled(all, visit_order(all, all[s], visited), done),
        (done + names_of(visit_order(all, all[s], visited))).contains(all[s].name@),
    decreases unvisited(all, visited), strangeness(all, all[s]), 0nat,
{
    let service = all[s];
    if !visited.contains(service.name@) {
        let deps = service.dependencies@;
        let v1 = visited.insert(service.name@);
        assert(is_known(all, service.name@));
        lemma_unvisited_insert(all, visited, service.name@);
        let bound = rank(service.name@);
        lemma_dependencies_settled(all, deps, deps.len(), v1, done, rank, bound);
        let inner = dependencies_order(all, deps, deps.len(), v1);
        let out = inner.push(service);
        assert(out == visit_order(all, service, visited));
        assert forall|p: int, i: int|
            0 <= p < out.len() && 0 <= i < out[p].dependencies@.len() && is_known(
                all,
                out[p].dependencies@[i]@,
            ) implies done.contains(out[p].dependencies@[i]@) || placed_before(
            out,
            p,
            #[trigger] out[p].dependencies@[i]@,
        ) by {
            let name = out[p].dependencies@[i]@;
            if p < inner.len() {
                assert(out[p] == inner[p]);
                assert(done.contains(name) || placed_before(inner, p, inner[p].dependencies@[i]@));
                if !done.contains(name) {
                    let q = choose|q: int| 0 <= q < p && (#[trigger] inner[q]).name@ == name;
                    assert(out[q].name@ == name);
                }
            } else {
                assert(out[p] == service);
                assert(is_known(all, (#[trigger] deps[i])@));
                assert((done + names_of(inner)).contains(deps[i]@));
                if !done.contains(name) {
                    let q = choose|q: int| 0 <= q < inner.len() && (#[trigger] inner[q]).name@ == name;
                    assert(out[q].name@ == name);
                }
            }
        }
        lemma_names_of_push(inner, service);
    }
}

proof fn lemma_dependencies_settled(
    all: Seq<Service>,
    deps: Seq<String>,
    k: nat,
    visited: Set<Seq<char>>,
    done: Set<Seq<char>>,
    rank: spec_fn(Seq<char>) -> nat,
    bound: nat,
)
    requires
        ranked(all, rank),
        k <= deps.len(),
        done.subset_of(visited),
        forall|i: int| 0 <= i < k && is_known(all, (#[trigger] deps[i])@) ==> rank(deps[i]@) < bound,
        forall|a: Seq<char>| visited.contains(a) && !done.contains(a) ==> rank(a) >= bound,
    ensures
        settled(all, dependencies_order(all, deps, k, visited), done),
        forall|i: int|
            0 <= i < k && is_known(all, (#[trigger] deps[i])@) ==> (done + names_of(
                dependencies_order(all, deps, k, visited),
            )).contains(deps[i]@),
    decreases unvisited(all, visited), 1nat, k,
{
    if k > 0 {
        let before = dependencies_order(all, deps, (k - 1) as nat, visited);
        lemma_dependencies_settled(all, deps, (k - 1) as nat, visited, done, rank, bound);
        lemma_first_named(all, deps[k - 1]@);
        match first_named(all, deps[k - 1]@) {
            Some(j) => {
                let v1 = visited + names_of(before);
                let d1 = done + names_of(before);
                let next = visit_order(all, all[j], v1);
                lemma_unvisited_grow(all, visited, v1);
                assert(is_known(all, all[j].name@));
                assert(is_known(all, (#[trigger] deps[k - 1])@));
                lemma_visit_settled(all, j, v1, d1, rank);
                lemma_settled_concat(all, before, next, done);
                lemma_names_of_concat(before, next);
            },
            None => {},
        }
    }
}

proof fn lemma_resolve_prefix_settled(all: Seq<Service>, n: nat, rank: spec_fn(Seq<char>) -> nat)
    requires
        ranked(all, rank),
        n <= all.len(),
    ensures
        settled(all, resolve_prefix(all, n), Set::<Seq<char>>::empty()),
    decreases n,
{
    if n > 0 {
        let before = resolve_prefix(all, (n - 1) as nat);
        lemma_resolve_prefix_settled(all, (n - 1) as nat, rank);
        let v = names_of(before);
        let next = visit_order(all, all[n - 1], v);
        lemma_resolve_prefix_total(all, (n - 1) as nat);
        if !v.contains(all[n - 1].name@) {
            assert forall|j: int| 0 <= j < n - 1 implies (#[trigger] all[j]).name@ != all[n
                - 1].name@ by {
                assert(v.contains(all[j].name@));
            }
        }
        lemma_visit_settled(all, n - 1, v, v, rank);
        assert(Set::<Seq<char>>::empty() + names_of(before) =~= v);
        lemma_settled_concat(all, before, next, Set::<Seq<char>>::empty());
    }
}

/// Where the dependencies hold no cycle, the start order places every
/// service after all of its dependencies: each dependency of a service that
/// names a service of the project stands earlier in the order than the
/// service that names it.
pub proof fn lemma_dependencies_come_first(all: Seq<Service>)
    requires
        acyclic(all),
    ensures
        forall|p: int, i: int|
            0 <= p < resolve_order(all).len() && 0 <= i < resolve_order(
                all,
            )[p].dependencies@.len() && is_known(all, resolve_order(all)[p].dependencies@[i]@)
                ==> placed_before(
                resolve_order(all),
                p,
                #[trigger] resolve_order(all)[p].dependencies@[i]@,
            ),
{
    let rank = choose|rank: spec_fn(Seq<char>) -> nat| ranked(all, rank);
    lemma_resolve_prefix_settled(all, all.len(), rank);
}

/// The names of `placed`, in its order.
pub open spec fn name_list(placed: Seq<Service>) -> Seq<Seq<char>> {
    Seq::new(placed.len(), |i: int| placed[i].name@)
}

/// Where no two services of the project bear the same name, the start order
/// is the project's services in another order: it is as long as the
/// project has services, holds each of them, and holds nothing else.
pub proof fn lemma_resolve_order_permutes(all: Seq<Service>)
    requires
        unique_names(all),
    ensures
        resolve_order(all).len() == all.len(),
        forall|i: int| 0 <= i < all.len() ==> resolve_order(all).contains(#[trigger] all[i]),
        forall|p: int| 0 <= p < resolve_order(all).len() ==> all.contains(#[trigger] resolve_order(all)[p]),
{
    let out = resolve_order(all);
    lemma_resolve_order_total(all);
    let given = name_list(all);
    let found = name_list(out);
    assert(given.no_duplicates()) by {
        assert forall|i: int, j: int| 0 <= i < given.len() && 0 <= j < given.len() && i != j implies given[i] != given[j] by {
            if i < j {
                assert(all[i].name@ != all[j].name@);
            } else {
                assert(all[j].name@ != all[i].name@);
            }
        }
    }
    assert(found.no_duplicates()) by {
        assert forall|i: int, j: int| 0 <= i < found.len() && 0 <= j < found.len() && i != j implies found[i] != found[j] by {
            if i < j {
                assert(out[i].name@ != out[j].name@);
            } else {
                assert(out[j].name@ != out[i].name@);
            }
        }
    }
    assert forall|p: int| 0 <= p < out.len() implies all.contains(#[trigger] out[p]) by {
        assert(is_first(all, out[p]));
        let j = choose|j: int| is_first_named(all, out[p].name@, j) && all[j] == out[p];
        assert(all[j] == out[p]);
    }
    assert forall|i: int| 0 <= i < all.len() implies out.contains(#[trigger] all[i]) by {
        assert(names_of(out).contains(all[i].name@));
        let p = choose|p: int| 0 <= p < out.len() && (#[trigger] out[p]).name@ == all[i].name@;
        assert(is_first(all, out[p]));
        let j = choose|j: int| is_first_named(all, out[p].name@, j) && all[j] == out[p];
        if j < i {
            assert(all[j].name@ != all[i].name@);
        }
        if i < j {
            assert(all[i].name@ != all[j].name@);
        }
        assert(out[p] == all[i]);
    }
    assert(given.to_set() =~= found.to_set()) by {
        assert forall|name: Seq<char>| given.to_set().contains(name) implies found.to_set().contains(name) by {
            let i = choose|i: int| 0 <= i < given.len() && given[i] == name;
            assert(out.contains(all[i]));
            let p = choose|p: int| 0 <= p < out.len() && out[p] == all[i];
            assert(found[p] == name);
        }
        assert forall|name: Seq<char>| found.to_set().contains(name) implies given.to_set().contains(name) by {
            let p = choose|p: int| 0 <= p < found.len() && found[p] == name;
            assert(all.contains(out[p]));
            let i = choose|i: int| 0 <= i < all.len() && all[i] == out[p];
            assert(given[i] == name);
        }
    }
    given.unique_seq_to_set();
    found.unique_seq_to_set();
}

/// The place of the service named `name` in `placed`; 0 where there is none.
pub open spec fn place_of(placed: Seq<Service>, name: Seq<char>) -> nat {
    if exists|p: int| 0 <= p < placed.len() && (#[trigger] placed[p]).name@ == name {
        (choose|p: int| 0 <= p < placed.len() && (#[trigger] placed[p]).name@ == name) as nat
    } else {
        0
    }
}

/// Whether the start order of `all` places every service after all of its
/// dependencies.
pub open spec fn order_is_settled(all: Seq<Service>) -> bool {
    settled(all, resolve_order(all), Set::<Seq<char>>::empty())
}

/// The dependencies hold no cycle exactly when the start order places
/// every service after all of its dependencies: a look at the order tells
/// whether there is a cycle.
pub proof fn lemma_acyclic_iff_settled(all: Seq<Service>)
    ensures
        acyclic(all) <==> order_is_settled(all),
{
    let out = resolve_order(all);
    if acyclic(all) {
        let rank = choose|rank: spec_fn(Seq<char>) -> nat| ranked(all, rank);
        lemma_resolve_prefix_settled(all, all.len(), rank);
    }
    if order_is_settled(all) {
        lemma_resolve_order_total(all);
        let rank = |name: Seq<char>| place_of(out, name);
        assert forall|s: int, i: int|
            is_first_named(all, all[s].name@, s) && 0 <= i < all[s].dependencies@.len() && is_known(
                all,
                all[s].dependencies@[i]@,
            ) implies rank(#[trigger] all[s].dependencies@[i]@) < rank(all[s].name@) by {
            let name = all[s].name@;
            let dep = all[s].dependencies@[i]@;
            assert(names_of(out).contains(name));
            let p = choose|p: int| 0 <= p < out.len() && (#[trigger] out[p]).name@ == name;
            assert(is_first(all, out[p]));
            let j = choose|j: int| is_first_named(all, out[p].name@, j) && all[j] == out[p];
            if j < s {
                assert(all[j].name@ != name);
            }
            if s < j {
                assert(all[s].name@ != name);
            }
            assert(out[p] == all[s]);
            assert(placed_before(out, p, out[p].dependencies@[i]@));
            let q = choose|q: int| 0 <= q < p && (#[trigger] out[q]).name@ == dep;
            let dep_place = place_of(out, dep) as int;
            let own_place = place_of(out, name) as int;
            assert(out[dep_place].name@ == dep);
            assert(out[own_place].name@ == name);
            if dep_place < q {
                assert(out[dep_place].name@ != out[q].name@);
            }
            if q < dep_place {
                assert(out[q].name@ != out[dep_place].name@);
            }
            if own_place < p {
                assert(out[own_place].name@ != out[p].name@);
            }
            if p < own_place {
                assert(out[p].name@ != out[own_place].name@);
            }
        }
        assert(ranked(all, rank));
    }
}

/// Whether the service at place `i` of `all` lists the name of the service
/// at place `j` among its dependencies.
pub open spec fn depends_on(all: Seq<Service>, i: int, j: int) -> bool {
    exists|d: int|
        0 <= d < all[i].dependencies@.len() && (#[trigger] all[i].dependencies@[d])@ == all[j].name@
}

/// Whether `walk` is a cycle of dependencies of `all`: places of services,
/// each the first of its name, each depending on the next, and the last
/// the same as the first.
pub open spec fn is_cycle(all: Seq<Service>, walk: Seq<int>) -> bool {
    &&& walk.len() >= 2
    &&& walk.last() == walk[0]
    &&& forall|k: int| 0 <= k < walk.len() ==> is_first_named(all, all[walk[k]].name@, #[trigger] walk[k])
    &&& forall|k: int| 0 <= k < walk.len() - 1 ==> depends_on(all, #[trigger] walk[k], walk[k + 1])
}

proof fn lemma_walk_descends(
    all: Seq<Service>,
    walk: Seq<int>,
    rank: spec_fn(Seq<char>) -> nat,
    k: int,
)
    requires
        ranked(all, rank),
        0 <= k < walk.len(),
        forall|k: int|
            0 <= k < walk.len() ==> is_first_named(all, all[walk[k]].name@, #[trigger] walk[k]),
        forall|k: int| 0 <= k < walk.len() - 1 ==> depends_on(all, #[trigger] walk[k], walk[k + 1]),
    ensures
        rank(all[walk[k]].name@) + k <= rank(all[walk[0]].name@),
    decreases k,
{
    if k > 0 {
        lemma_walk_descends(all, walk, rank, k - 1);
        let i = walk[k - 1];
        let j = walk[k];
        assert(depends_on(all, walk[k - 1], walk[k - 1 + 1]));
        let d = choose|d: int|
            0 <= d < all[i].dependencies@.len() && (#[trigger] all[i].dependencies@[d])@ == all[j].name@;
        assert(is_first_named(all, all[walk[k]].name@, walk[k]));
        assert(is_first_named(all, all[walk[k - 1]].name@, walk[k - 1]));
        assert(is_known(all, all[i].dependencies@[d]@));
        assert(rank(all[i].dependencies@[d]@) < rank(all[i].name@));
    }
}

/// Where the dependencies hold a cycle, they cannot be numbered: a cycle in
/// the plain sense is a cycle in the sense of `acyclic`.
pub proof fn lemma_cycle_is_not_acyclic(all: Seq<Service>, walk: Seq<int>)
    requires
        is_cycle(all, walk),
    ensures
        !acyclic(all),
{
    if acyclic(all) {
        let rank = choose|rank: spec_fn(Seq<char>) -> nat| ranked(all, rank);
        lemma_walk_descends(all, walk, rank, walk.len() - 1);
    }
}

} // verus!
