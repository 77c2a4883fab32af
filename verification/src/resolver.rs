//! The order in which the services of a project start.
//!
//! The order is that of a depth-first walk of the dependencies: the services
//! are taken as declared, and each is placed after the services that it
//! depends on, in the order in which it lists them. A service is marked when
//! the walk reaches it, before its dependencies are followed, so a cycle of
//! dependencies ends at the first service of the cycle that was reached:
//! that service is placed after the others of the cycle. A dependency that
//! names no service of the project is passed over.

use vstd::prelude::*;
use crate::config::Service;
use crate::resolver_proofs::unique_names;
use crate::start::StartArgs;

verus! {

/// The names of the services in `placed`.
pub open spec fn names_of(placed: Seq<Service>) -> Set<Seq<char>> {
    Set::new(|name: Seq<char>| exists|i: int| 0 <= i < placed.len() && (#[trigger] placed[i]).name@ == name)
}

/// The names in a list of marks.
pub open spec fn marked(marks: Seq<&str>) -> Set<Seq<char>> {
    Set::new(|name: Seq<char>| exists|i: int| 0 <= i < marks.len() && (#[trigger] marks[i])@ == name)
}

/// The services that a list of references points to.
pub open spec fn pointed(refs: Seq<&Service>) -> Seq<Service> {
    Seq::new(refs.len(), |i: int| *refs[i])
}

/// Whether `i` is the place of the first service of `all` named `name`.
pub open spec fn is_first_named(all: Seq<Service>, name: Seq<char>, i: int) -> bool {
    &&& 0 <= i < all.len()
    &&& all[i].name@ == name
    &&& forall|j: int| 0 <= j < i ==> (#[trigger] all[j]).name@ != name
}

/// Whether a service of `all` is named `name`.
pub open spec fn is_known(all: Seq<Service>, name: Seq<char>) -> bool {
    exists|i: int| 0 <= i < all.len() && (#[trigger] all[i]).name@ == name
}

/// The place of the first service of `all` named `name`, if there is one.
pub open spec fn first_named(all: Seq<Service>, name: Seq<char>) -> Option<int> {
    if exists|i: int| is_first_named(all, name, i) {
        Some(choose|i: int| is_first_named(all, name, i))
    } else {
        None
    }
}

/// How many services of `all` have a name that is not in `visited`.
pub open spec fn unvisited(all: Seq<Service>, visited: Set<Seq<char>>) -> nat
    decreases all.len(),
{
    if all.len() == 0 {
        0
    } else {
        unvisited(all.drop_last(), visited) + if visited.contains(all.last().name@) {
            0nat
        } else {
            1nat
        }
    }
}

/// 0 for a service whose name `all` knows, 2 for any other.
pub open spec fn strangeness(all: Seq<Service>, service: Service) -> nat {
    if is_known(all, service.name@) {
        0
    } else {
        2
    }
}

/// What a visit of `service` places, in order, when the names in `visited`
/// are marked: nothing if its own name is marked; else what its
/// dependencies place, then the service itself.
pub open spec fn visit_order(all: Seq<Service>, service: Service, visited: Set<Seq<char>>) -> Seq<Service>
    decreases unvisited(all, visited), strangeness(all, service), 0nat,
    via visit_order_decreases
{
    if visited.contains(service.name@) {
        Seq::empty()
    } else {
        dependencies_order(
            all,
            service.dependencies@,
            service.dependencies@.len(),
            visited.insert(service.name@),
        ).push(service)
    }
}

/// What visits of the first `k` names of `deps` place, one after the other,
/// starting from the marks in `visited`. Each name stands for the first
/// service of `all` that bears it; what a visit places is marked for the
/// visits after it. A name that no service bears places nothing.
pub open spec fn dependencies_order(
    all: Seq<Service>,
    deps: Seq<String>,
    k: nat,
    visited: Set<Seq<char>>,
) -> Seq<Service>
    decreases unvisited(all, visited), 1nat, k,
    via dependencies_order_decreases
{
    if k == 0 || k > deps.len() {
        Seq::empty()
    } else {
        let before = dependencies_order(all, deps, (k - 1) as nat, visited);
        match first_named(all, deps[k - 1]@) {
            Some(j) => before + visit_order(all, all[j], visited + names_of(before)),
            None => before,
        }
    }
}

#[via_fn]
proof fn visit_order_decreases(all: Seq<Service>, service: Service, visited: Set<Seq<char>>) {
    if !visited.contains(service.name@) {
        if is_known(all, service.name@) {
            lemma_unvisited_insert(all, visited, service.name@);
        } else {
            lemma_unvisited_grow(all, visited, visited.insert(service.name@));
        }
    }
}

#[via_fn]
proof fn dependencies_order_decreases(
    all: Seq<Service>,
    deps: Seq<String>,
    k: nat,
    visited: Set<Seq<char>>,
) {
    if !(k == 0 || k > deps.len()) {
        assert forall|more: Set<Seq<char>>| #[trigger]
            unvisited(all, visited + more) <= unvisited(all, visited) by {
            lemma_unvisited_grow(all, visited, visited + more);
        }
        lemma_first_named(all, deps[k - 1]@);
    }
}

/// The start order of `all` after its first `n` services were taken in
/// turn: each is visited with the names of all that was placed before it
/// marked.
pub open spec fn resolve_prefix(all: Seq<Service>, n: nat) -> Seq<Service>
    decreases n,
{
    if n == 0 || n > all.len() {
        Seq::empty()
    } else {
        let before = resolve_prefix(all, (n - 1) as nat);
        before + visit_order(all, all[n - 1], names_of(before))
    }
}

/// The start order of the services `all`.
pub open spec fn resolve_order(all: Seq<Service>) -> Seq<Service> {
    resolve_prefix(all, all.len())
}

/// What `first_named` finds is the first service of that name, and it finds
/// one whenever the name is known.
pub proof fn lemma_first_named(all: Seq<Service>, name: Seq<char>)
    ensures
        match first_named(all, name) {
            Some(j) => is_first_named(all, name, j),
            None => !is_known(all, name),
        },
        forall|i: int| is_first_named(all, name, i) ==> first_named(all, name) == Some(i),
{
    if is_known(all, name) {
        let i = choose|i: int| 0 <= i < all.len() && (#[trigger] all[i]).name@ == name;
        lemma_first_exists(all, name, i);
    }
    assert forall|i: int| is_first_named(all, name, i) implies first_named(all, name) == Some(i) by {
        let j = choose|j: int| is_first_named(all, name, j);
        if j < i {
            assert(all[j].name@ != name);
        }
        if i < j {
            assert(all[i].name@ != name);
        }
    }
}

proof fn lemma_first_exists(all: Seq<Service>, name: Seq<char>, i: int)
    requires
        0 <= i < all.len(),
        all[i].name@ == name,
    ensures
        exists|j: int| is_first_named(all, name, j),
    decreases i,
{
    if exists|j: int| 0 <= j < i && (#[trigger] all[j]).name@ == name {
        let j = choose|j: int| 0 <= j < i && (#[trigger] all[j]).name@ == name;
        lemma_first_exists(all, name, j);
    } else {
        assert(is_first_named(all, name, i));
    }
}

/// More marks leave no more services unvisited.
pub proof fn lemma_unvisited_grow(all: Seq<Service>, small: Set<Seq<char>>, large: Set<Seq<char>>)
    requires
        small.subset_of(large),
    ensures
        unvisited(all, large) <= unvisited(all, small),
    decreases all.len(),
{
    if all.len() > 0 {
        lemma_unvisited_grow(all.drop_last(), small, large);
    }
}

/// Marking a known name that was not marked leaves fewer services unvisited.
pub proof fn lemma_unvisited_insert(all: Seq<Service>, visited: Set<Seq<char>>, name: Seq<char>)
    requires
        is_known(all, name),
        !visited.contains(name),
    ensures
        unvisited(all, visited.insert(name)) < unvisited(all, visited),
    decreases all.len(),
{
    let i = choose|i: int| 0 <= i < all.len() && (#[trigger] all[i]).name@ == name;
    if all.last().name@ == name {
        lemma_unvisited_grow(all.drop_last(), visited, visited.insert(name));
    } else {
        assert(i < all.len() - 1);
        assert(all.drop_last()[i].name@ == name);
        lemma_unvisited_insert(all.drop_last(), visited, name);
    }
}

/// The names of two runs of services, one after the other, are the names
/// of the first and those of the second.
pub proof fn lemma_names_of_concat(first: Seq<Service>, second: Seq<Service>)
    ensures
        names_of(first + second) == names_of(first) + names_of(second),
{
    let joined = first + second;
    assert forall|name: Seq<char>| names_of(joined).contains(name) implies (names_of(first)
        + names_of(second)).contains(name) by {
        let i = choose|i: int| 0 <= i < joined.len() && (#[trigger] joined[i]).name@ == name;
        if i < first.len() {
            assert(first[i].name@ == name);
        } else {
            assert(second[i - first.len()].name@ == name);
        }
    }
    assert forall|name: Seq<char>| (names_of(first) + names_of(second)).contains(
        name,
    ) implies names_of(joined).contains(name) by {
        if names_of(first).contains(name) {
            let i = choose|i: int| 0 <= i < first.len() && (#[trigger] first[i]).name@ == name;
            assert(joined[i].name@ == name);
        } else {
            let i = choose|i: int| 0 <= i < second.len() && (#[trigger] second[i]).name@ == name;
            assert(joined[first.len() + i].name@ == name);
        }
    }
    assert(names_of(joined) =~= names_of(first) + names_of(second));
}

/// The names of a run of services with one more at its end.
pub proof fn lemma_names_of_push(placed: Seq<Service>, service: Service)
    ensures
        names_of(placed.push(service)) == names_of(placed).insert(service.name@),
{
    let one = seq![service];
    assert(placed.push(service) =~= placed + one);
    lemma_names_of_concat(placed, one);
    assert(names_of(one) =~= Set::empty().insert(service.name@)) by {
        assert(one[0].name@ == service.name@);
    }
    assert(names_of(placed) + names_of(one) =~= names_of(placed).insert(service.name@));
}

proof fn lemma_marked_push(longer: Seq<&str>)
    requires
        longer.len() > 0,
    ensures
        marked(longer) == marked(longer.drop_last()).insert(longer.last()@),
{
    let marks = longer.drop_last();
    let name = longer.last()@;
    assert forall|n: Seq<char>| marked(longer).contains(n) implies marked(marks).insert(
        name,
    ).contains(n) by {
        let i = choose|i: int| 0 <= i < longer.len() && (#[trigger] longer[i])@ == n;
        if i < marks.len() {
            assert(marks[i]@ == n);
        }
    }
    assert forall|n: Seq<char>| marked(marks).insert(name).contains(n) implies marked(
        longer,
    ).contains(n) by {
        if n == name {
            assert(longer[longer.len() - 1]@ == n);
        } else {
            let i = choose|i: int| 0 <= i < marks.len() && (#[trigger] marks[i])@ == n;
            assert(longer[i]@ == n);
        }
    }
    assert(marked(longer) =~= marked(marks).insert(name));
}

/// The place of the first service of `all` named `name`, if there is one.
pub fn find_service(all: &[Service], name: &str) -> (found: Option<usize>)
    ensures
        match found {
            Some(j) => first_named(all@, name@) == Some(j as int),
            None => first_named(all@, name@) is None,
        },
{
    let mut i: usize = 0;
    while i < all.len()
        invariant
            i <= all@.len(),
            forall|j: int| 0 <= j < i ==> (#[trigger] all@[j]).name@ != name@,
        decreases all@.len() - i,
    {
        if all[i].name.as_str().eq(name) {
            proof {
                assert(is_first_named(all@, name@, i as int));
                lemma_first_named(all@, name@);
            }
            return Some(i);
        }
        i += 1;
    }
    proof {
        lemma_first_named(all@, name@);
    }
    None
}

/// Whether no two services of `all` bear the same name.
pub fn has_unique_names(all: &[Service]) -> (unique: bool)
    ensures
        unique == unique_names(all@),
{
    let mut q: usize = 0;
    while q < all.len()
        invariant
            q <= all@.len(),
            forall|i: int, j: int|
                0 <= i < j < q ==> (#[trigger] all@[i]).name@ != (#[trigger] all@[j]).name@,
        decreases all@.len() - q,
    {
        let mut p: usize = 0;
        while p < q
            invariant
                p <= q < all@.len(),
                forall|i: int| 0 <= i < p ==> (#[trigger] all@[i]).name@ != all@[q as int].name@,
            decreases q - p,
        {
            if all[p].name.as_str().eq(all[q].name.as_str()) {
                return false;
            }
            p += 1;
        }
        q += 1;
    }
    true
}

/// Whether the list of marks holds `name`.
pub fn is_marked(marks: &Vec<&str>, name: &str) -> (b: bool)
    ensures
        b == marked(marks@).contains(name@),
{
    let mut i: usize = 0;
    while i < marks.len()
        invariant
            i <= marks@.len(),
            forall|j: int| 0 <= j < i ==> (#[trigger] marks@[j])@ != name@,
        decreases marks@.len() - i,
    {
        if marks[i].eq(name) {
            return true;
        }
        i += 1;
    }
    false
}

impl StartArgs {
    /// The services in the order in which they start: `resolve_order`.
    pub fn sort_services_by_dependencies<'a>(&self, services: &'a [Service]) -> (sorted: Vec<
        &'a Service,
    >)
        ensures
            pointed(sorted@) == resolve_order(services@),
    {
        let mut sorted: Vec<&'a Service> = Vec::new();
        let mut visited: Vec<&'a str> = Vec::new();
        let mut i: usize = 0;
        proof {
            assert(pointed(sorted@) =~= resolve_prefix(services@, 0));
            assert(marked(visited@) =~= names_of(pointed(sorted@)));
        }
        while i < services.len()
            invariant
                i <= services@.len(),
                pointed(sorted@) == resolve_prefix(services@, i as nat),
                marked(visited@) == names_of(pointed(sorted@)),
            decreases services@.len() - i,
        {
            proof {
                lemma_names_of_concat(
                    pointed(sorted@),
                    visit_order(services@, services@[i as int], marked(visited@)),
                );
            }
            self.visit_service(&services[i], services, &mut visited, &mut sorted);
            i += 1;
        }
        sorted
    }

    /// Visits one service: if its name is not marked, marks it, visits the
    /// services that it depends on, and places it after them. What is
    /// placed, and so what is marked, is `visit_order`.
    pub fn visit_service<'a>(
        &self,
        service: &'a Service,
        all_services: &'a [Service],
        visited: &mut Vec<&'a str>,
        sorted: &mut Vec<&'a Service>,
    )
        ensures
            pointed(final(sorted)@) == pointed(old(sorted)@) + visit_order(
                all_services@,
                *service,
                marked(old(visited)@),
            ),
            marked(final(visited)@) == marked(old(visited)@) + names_of(
                visit_order(all_services@, *service, marked(old(visited)@)),
            ),
        decreases
            unvisited(all_services@, marked(old(visited)@)),
            strangeness(all_services@, *service),
    {
        let ghost all = all_services@;
        let ghost v0 = marked(old(visited)@);
        let ghost s0 = pointed(old(sorted)@);
        if is_marked(visited, service.name.as_str()) {
            proof {
                assert(pointed(sorted@) =~= s0 + Seq::<Service>::empty());
                assert(names_of(Seq::<Service>::empty()) =~= Set::<Seq<char>>::empty());
                assert(marked(visited@) =~= v0 + Set::<Seq<char>>::empty());
            }
            return ;
        }
        visited.push(service.name.as_str());
        let ghost v1 = v0.insert(service.name@);
        let ghost deps = service.dependencies@;
        proof {
            lemma_marked_push(visited@);
            assert(visited@.drop_last() =~= old(visited)@);
            if is_known(all, service.name@) {
                lemma_unvisited_insert(all, v0, service.name@);
            } else {
                lemma_unvisited_grow(all, v0, v1);
            }
            assert(pointed(sorted@) =~= s0 + dependencies_order(all, deps, 0, v1));
            assert(names_of(dependencies_order(all, deps, 0, v1)) =~= Set::<Seq<char>>::empty());
            assert(marked(visited@) =~= v1 + names_of(dependencies_order(all, deps, 0, v1)));
        }
        let mut k: usize = 0;
        while k < service.dependencies.len()
            invariant
                all == all_services@,
                deps == service.dependencies@,
                v0 == marked(old(visited)@),
                k <= deps.len(),
                pointed(sorted@) == s0 + dependencies_order(all, deps, k as nat, v1),
                marked(visited@) == v1 + names_of(dependencies_order(all, deps, k as nat, v1)),
                unvisited(all, v1) < unvisited(all, v0) || (unvisited(all, v1) <= unvisited(
                    all,
                    v0,
                ) && strangeness(all, *service) == 2),
            decreases deps.len() - k,
        {
            let ghost before = dependencies_order(all, deps, k as nat, v1);
            let found = find_service(all_services, service.dependencies[k].as_str());
            match found {
                Some(j) => {
                    proof {
                        lemma_unvisited_grow(all, v1, v1 + names_of(before));
                        lemma_first_named(all, deps[k as int]@);
                        assert(is_known(all, all[j as int].name@));
                        lemma_names_of_concat(
                            before,
                            visit_order(all, all[j as int], v1 + names_of(before)),
                        );
                    }
                    self.visit_service(&all_services[j], all_services, visited, sorted);
                    proof {
                        let next = visit_order(all, all[j as int], v1 + names_of(before));
                        assert(pointed(sorted@) =~= s0 + (before + next));
                        assert(marked(visited@) =~= v1 + names_of(before + next));
                    }
                },
                None => {},
            }
            k += 1;
        }
        let ghost filled = sorted@;
        sorted.push(service);
        proof {
            let placed = dependencies_order(all, deps, deps.len(), v1);
            lemma_names_of_push(placed, *service);
            assert(pointed(sorted@) =~= pointed(filled).push(*service));
            assert(pointed(sorted@) =~= s0 + placed.push(*service));
            assert(marked(visited@) =~= v0 + names_of(placed.push(*service)));
        }
    }
}

} // verus!
