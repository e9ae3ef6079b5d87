//! What the import walk guarantees: every module once, dependencies before
//! importers wherever no import cycle stands in the way.

use vstd::prelude::*;

use crate::search::{first_match, lemma_first_match};
use crate::shape::compiled::shader::composer::{
    all_below, edges_of, free_count, holds_source, import_graph, import_order, import_paths_of,
    lemma_free_push, module_named, root_of, root_stack, scan_edges, walk, ShaderModule,
};

verus! {

/// Whether `path` follows import edges of `graph` from module to module.
pub open spec fn is_path(graph: Seq<Seq<usize>>, path: Seq<usize>) -> bool {
    &&& path.len() >= 1
    &&& forall|k: int| 0 <= k < path.len() ==> (#[trigger] path[k]) < graph.len()
    &&& forall|k: int|
        0 <= k < path.len() - 1 ==> graph[path[k] as int].contains(#[trigger] path[k + 1])
}

/// Whether module `to` can be reached from module `from` over import
/// edges; every module reaches itself.
pub open spec fn reaches(graph: Seq<Seq<usize>>, from: usize, to: usize) -> bool {
    exists|path: Seq<usize>| #[trigger]
        is_path(graph, path) && path.first() == from && path.last() == to
}

/// Whether no module imports itself, directly or through others.
pub open spec fn acyclic(graph: Seq<Seq<usize>>) -> bool {
    forall|path: Seq<usize>| #[trigger]
        is_path(graph, path) && path.len() >= 2 ==> path.first() != path.last()
}

/// Whether the import `edge` of the module listed at `at` is accounted for:
/// the imported module is on the stack, or it is listed, and listed earlier
/// unless it in turn reaches the importer.
pub open spec fn edge_settled(
    graph: Seq<Seq<usize>>,
    order: Seq<usize>,
    stack: Seq<usize>,
    at: int,
    edge: int,
) -> bool {
    let z = graph[order[at] as int][edge];
    z < graph.len() ==> stack.contains(z) || exists|p: int|
        0 <= p < order.len() && #[trigger] order[p] == z && (p < at || reaches(
            graph,
            z,
            order[at],
        ))
}

/// Whether the module listed at `at` is reached from one of `targets[i..]`.
pub open spec fn reached_from_targets(
    graph: Seq<Seq<usize>>,
    targets: Seq<usize>,
    i: int,
    order: Seq<usize>,
    at: int,
) -> bool {
    exists|k: int| i <= k < targets.len() && 0 <= k && reaches(graph, #[trigger] targets[k], order[at])
}

/// Whether module `z` is listed in `order` before position `at`.
pub open spec fn listed_before(order: Seq<usize>, at: int, z: usize) -> bool {
    exists|p: int| 0 <= p < at && order[p] == z
}

/// Every module reaches itself.
pub proof fn lemma_reaches_self(graph: Seq<Seq<usize>>, x: usize)
    requires
        x < graph.len(),
    ensures
        reaches(graph, x, x),
{
    let path = seq![x];
    assert(is_path(graph, path));
    assert(path.first() == x && path.last() == x);
}

/// An import edge followed by a path is a path.
pub proof fn lemma_reaches_step(graph: Seq<Seq<usize>>, from: usize, via: usize, to: usize)
    requires
        from < graph.len(),
        graph[from as int].contains(via),
        reaches(graph, via, to),
    ensures
        reaches(graph, from, to),
{
    let rest = choose|path: Seq<usize>| #[trigger]
        is_path(graph, path) && path.first() == via && path.last() == to;
    let path = seq![from] + rest;
    assert forall|k: int| 0 <= k < path.len() - 1 implies graph[path[k] as int].contains(
        #[trigger] path[k + 1],
    ) by {
        if k > 0 {
            assert(path[k] == rest[k - 1]);
            assert(path[k + 1] == rest[(k - 1) + 1]);
            assert(graph[rest[k - 1] as int].contains(rest[(k - 1) + 1]));
        } else {
            assert(path[0] == seq![from][0]);
            assert(path[1] == rest[0]);
        }
    }
    assert forall|k: int| 0 <= k < path.len() implies (#[trigger] path[k]) < graph.len() by {
        if k > 0 {
            assert(path[k] == rest[k - 1]);
        }
    }
    assert(is_path(graph, path));
    assert(path.first() == from);
    assert(path.last() == rest.last());
}

/// What one call of the walk does to the list: it keeps what was listed,
/// adds only modules of the graph that are neither listed nor on the stack,
/// adds none twice, covers every target, and settles every import of every
/// module it adds. Every module it adds is reached from one of the targets.
pub proof fn lemma_walk(
    graph: Seq<Seq<usize>>,
    targets: Seq<usize>,
    i: int,
    imported: Seq<usize>,
    stack: Seq<usize>,
)
    requires
        0 <= i,
    ensures
        ({
            let order = walk(graph, targets, i, imported, stack);
            &&& imported.len() <= order.len()
            &&& forall|j: int| 0 <= j < imported.len() ==> order[j] == imported[j]
            &&& forall|j: int|
                imported.len() <= j < order.len() ==> (#[trigger] order[j]) < graph.len()
                    && !stack.contains(order[j]) && !imported.contains(order[j])
            &&& imported.no_duplicates() ==> order.no_duplicates()
            &&& forall|k: int|
                i <= k < targets.len() && (#[trigger] targets[k]) < graph.len() ==> order.contains(
                    targets[k],
                ) || stack.contains(targets[k])
            &&& forall|j: int, e: int|
                imported.len() <= j < order.len() && 0 <= e < graph[order[j] as int].len()
                    ==> #[trigger] edge_settled(graph, order, stack, j, e)
            &&& forall|j: int|
                imported.len() <= j < order.len() ==> #[trigger] reached_from_targets(
                    graph,
                    targets,
                    i,
                    order,
                    j,
                )
        }),
    decreases free_count(stack, graph.len() as int), targets.len() - i,
{
    let order = walk(graph, targets, i, imported, stack);
    if i >= targets.len() {
        return ;
    }
    let y = targets[i];
    if y >= graph.len() || imported.contains(y) || stack.contains(y) {
        lemma_walk(graph, targets, i + 1, imported, stack);
        assert forall|k: int|
            i <= k < targets.len() && (#[trigger] targets[k]) < graph.len() implies order.contains(
            targets[k],
        ) || stack.contains(targets[k]) by {
            if k == i && imported.contains(y) {
                let at = choose|at: int| 0 <= at < imported.len() && imported[at] == y;
                assert(order[at] == y);
            }
        }
        assert forall|j: int| imported.len() <= j < order.len() implies #[trigger] reached_from_targets(
            graph,
            targets,
            i,
            order,
            j,
        ) by {
            assert(reached_from_targets(graph, targets, i + 1, order, j));
        }
        return ;
    }
    lemma_free_push(stack, graph.len() as int, y);
    let deeper = stack.push(y);
    let inner = walk(graph, graph[y as int], 0, imported, deeper);
    lemma_walk(graph, graph[y as int], 0, imported, deeper);
    let listed = inner.push(y);
    lemma_walk(graph, targets, i + 1, listed, stack);
    assert(order == walk(graph, targets, i + 1, listed, stack));
    let m = inner.len() as int;

    // what was listed is kept
    assert forall|j: int| 0 <= j < imported.len() implies order[j] == imported[j] by {
        assert(order[j] == listed[j]);
        assert(listed[j] == inner[j]);
    }
    assert forall|j: int| 0 <= j <= m implies order[j] == listed[j] by {}

    // the module itself is not among what its imports led to
    assert(!inner.contains(y)) by {
        if inner.contains(y) {
            let at = choose|at: int| 0 <= at < inner.len() && inner[at] == y;
            if at < imported.len() {
                assert(imported[at] == y);
            } else {
                assert(!deeper.contains(inner[at]));
                assert(deeper[stack.len() as int] == y);
            }
        }
    }

    // only fresh modules are added
    assert forall|j: int| imported.len() <= j < order.len() implies (#[trigger] order[j])
        < graph.len() && !stack.contains(order[j]) && !imported.contains(order[j]) by {
        if j < m {
            assert(order[j] == inner[j]);
            if stack.contains(inner[j]) {
                let at = choose|at: int| 0 <= at < stack.len() && stack[at] == inner[j];
                assert(deeper[at] == inner[j]);
            }
        } else if j == m {
            assert(order[j] == y);
        } else {
            if imported.contains(order[j]) {
                let at = choose|at: int| 0 <= at < imported.len() && imported[at] == order[j];
                assert(listed[at] == order[j]);
            }
        }
    }

    // none is added twice
    if imported.no_duplicates() {
        assert(listed.no_duplicates()) by {
            assert forall|a: int, b: int| 0 <= a < listed.len() && 0 <= b < listed.len() && a
                != b implies listed[a] != listed[b] by {
                if a == m {
                    assert(inner[b] == listed[b]);
                } else if b == m {
                    assert(inner[a] == listed[a]);
                }
            }
        }
    }

    // every target is covered
    assert forall|k: int|
        i <= k < targets.len() && (#[trigger] targets[k]) < graph.len() implies order.contains(
        targets[k],
    ) || stack.contains(targets[k]) by {
        if k == i {
            assert(order[m] == y);
        }
    }

    // every added module is reached from a target
    assert forall|j: int| imported.len() <= j < order.len() implies #[trigger] reached_from_targets(
        graph,
        targets,
        i,
        order,
        j,
    ) by {
        if j < m {
            assert(order[j] == inner[j]);
            assert(reached_from_targets(graph, graph[y as int], 0, inner, j));
            let k = choose|k: int|
                0 <= k < graph[y as int].len() && reaches(
                    graph,
                    #[trigger] graph[y as int][k],
                    inner[j],
                );
            lemma_reaches_step(graph, y, graph[y as int][k], inner[j]);
            assert(reaches(graph, targets[i], order[j]));
        } else if j == m {
            lemma_reaches_self(graph, y);
            assert(reaches(graph, targets[i], order[j]));
        } else {
            assert(reached_from_targets(graph, targets, i + 1, order, j));
        }
    }

    // every import of every added module is settled
    assert forall|j: int, e: int|
        imported.len() <= j < order.len() && 0 <= e < graph[order[j] as int].len()
        implies #[trigger] edge_settled(graph, order, stack, j, e) by {
        let x = order[j];
        let z = graph[x as int][e];
        if z < graph.len() {
            if j < m {
                assert(order[j] == inner[j]);
                assert(edge_settled(graph, inner, deeper, j, e));
                if deeper.contains(z) {
                    let at = choose|at: int| 0 <= at < deeper.len() && deeper[at] == z;
                    if at < stack.len() {
                        assert(stack[at] == z);
                    } else {
                        // the import closes a cycle through the module on
                        // top of the stack
                        assert(z == y);
                        assert(reached_from_targets(graph, graph[y as int], 0, inner, j));
                        let k = choose|k: int|
                            0 <= k < graph[y as int].len() && reaches(
                                graph,
                                #[trigger] graph[y as int][k],
                                inner[j],
                            );
                        lemma_reaches_step(graph, y, graph[y as int][k], inner[j]);
                        assert(order[m] == z);
                    }
                } else {
                    let p = choose|p: int|
                        0 <= p < inner.len() && #[trigger] inner[p] == z && (p < j || reaches(
                            graph,
                            z,
                            inner[j],
                        ));
                    assert(order[p] == z);
                }
            } else if j == m {
                assert(x == y);
                assert(graph[y as int][e] == z);
                if inner.contains(z) {
                    let p = choose|p: int| 0 <= p < inner.len() && inner[p] == z;
                    assert(order[p] == z);
                } else if deeper.contains(z) {
                    let at = choose|at: int| 0 <= at < deeper.len() && deeper[at] == z;
                    if at < stack.len() {
                        assert(stack[at] == z);
                    } else {
                        assert(z == y);
                        lemma_reaches_self(graph, y);
                        assert(order[m] == z);
                    }
                }
            } else {
                assert(edge_settled(graph, order, stack, j, e));
            }
        }
    }
}

/// Whether every module on `stack` is a module of the graph whose imports
/// are `targets`: the stack of a walk that starts at the root.
pub open spec fn stack_of_root(graph: Seq<Seq<usize>>, targets: Seq<usize>, stack: Seq<usize>) -> bool {
    forall|k: int|
        0 <= k < stack.len() ==> (#[trigger] stack[k]) < graph.len() && graph[stack[k] as int]
            == targets
}

/// Everything the targets reach is listed by a walk from an empty list,
/// unless it is the root on the stack.
pub proof fn lemma_reached_is_listed(
    graph: Seq<Seq<usize>>,
    targets: Seq<usize>,
    stack: Seq<usize>,
    path: Seq<usize>,
)
    requires
        is_path(graph, path),
        targets.contains(path.first()),
        stack_of_root(graph, targets, stack),
    ensures
        walk(graph, targets, 0, Seq::empty(), stack).contains(path.last()) || stack.contains(
            path.last(),
        ),
    decreases path.len(),
{
    let none = Seq::<usize>::empty();
    let order = walk(graph, targets, 0, none, stack);
    lemma_walk(graph, targets, 0, none, stack);
    if path.len() == 1 {
        let k = choose|k: int| 0 <= k < targets.len() && targets[k] == path.first();
        assert(targets[k] < graph.len());
        assert(order.contains(targets[k]) || stack.contains(targets[k]));
    } else {
        let shorter = path.drop_last();
        assert(is_path(graph, shorter)) by {
            assert forall|k: int| 0 <= k < shorter.len() - 1 implies graph[shorter[k] as int].contains(
                #[trigger] shorter[k + 1],
            ) by {
                assert(shorter[k] == path[k]);
                assert(shorter[k + 1] == path[k + 1]);
            }
            assert forall|k: int| 0 <= k < shorter.len() implies (#[trigger] shorter[k])
                < graph.len() by {
                assert(shorter[k] == path[k]);
            }
        }
        lemma_reached_is_listed(graph, targets, stack, shorter);
        let x = shorter.last();
        let z = path.last();
        assert(x == path[path.len() - 2]);
        assert(z == path[(path.len() - 2) + 1]);
        assert(graph[x as int].contains(z));
        assert(z < graph.len());
        if order.contains(x) {
            let j = choose|j: int| 0 <= j < order.len() && order[j] == x;
            let e = choose|e: int| 0 <= e < graph[x as int].len() && graph[x as int][e] == z;
            assert(edge_settled(graph, order, stack, j, e));
            if !stack.contains(z) {
                let p = choose|p: int|
                    0 <= p < order.len() && #[trigger] order[p] == z && (p < j || reaches(
                        graph,
                        z,
                        order[j],
                    ));
                assert(order[p] == z);
            }
        } else {
            // the step leaves the root, so it arrives at a target
            let at = choose|at: int| 0 <= at < stack.len() && stack[at] == x;
            assert(graph[stack[at] as int] == targets);
            let k = choose|k: int| 0 <= k < targets.len() && targets[k] == z;
            assert(targets[k] < graph.len());
            assert(order.contains(targets[k]) || stack.contains(targets[k]));
        }
    }
}

/// Where the import graph has no cycle, the walk that starts at the root
/// lists every module the targets reach exactly once, the root apart, and
/// every module after all the modules it imports.
pub proof fn lemma_acyclic_order(graph: Seq<Seq<usize>>, targets: Seq<usize>, stack: Seq<usize>)
    requires
        acyclic(graph),
        stack_of_root(graph, targets, stack),
    ensures
        ({
            let order = walk(graph, targets, 0, Seq::empty(), stack);
            &&& order.no_duplicates()
            &&& forall|t: usize, x: usize|
                targets.contains(t) && #[trigger] reaches(graph, t, x) ==> order.contains(x)
                    || stack.contains(x)
            &&& forall|j: int|
                0 <= j < order.len() ==> reached_from_targets(graph, targets, 0, order, j)
            &&& forall|j: int, e: int|
                0 <= j < order.len() && 0 <= e < graph[order[j] as int].len()
                    && graph[order[j] as int][e] < graph.len() ==> #[trigger] listed_before(
                    order,
                    j,
                    graph[order[j] as int][e],
                )
        }),
{
    let none = Seq::<usize>::empty();
    let order = walk(graph, targets, 0, none, stack);
    lemma_walk(graph, targets, 0, none, stack);
    assert forall|t: usize, x: usize|
        targets.contains(t) && #[trigger] reaches(graph, t, x) implies order.contains(x)
        || stack.contains(x) by {
        let path = choose|path: Seq<usize>| #[trigger]
            is_path(graph, path) && path.first() == t && path.last() == x;
        lemma_reached_is_listed(graph, targets, stack, path);
    }
    assert forall|j: int, e: int|
        0 <= j < order.len() && 0 <= e < graph[order[j] as int].len() && graph[order[j] as int][e]
            < graph.len() implies #[trigger] listed_before(order, j, graph[order[j] as int][e]) by {
        let x = order[j];
        let z = graph[x as int][e];
        assert(edge_settled(graph, order, stack, j, e));
        assert(graph[x as int][e] == z);
        assert(graph[x as int].contains(z));
        if stack.contains(z) {
            // the import would lead back to the root, which reaches the importer
            let at = choose|at: int| 0 <= at < stack.len() && stack[at] == z;
            assert(graph[stack[at] as int] == targets);
            assert(reached_from_targets(graph, targets, 0, order, j));
            let k = choose|k: int|
                0 <= k < targets.len() && reaches(graph, #[trigger] targets[k], order[j]);
            assert(graph[z as int][k] == targets[k]);
            assert(graph[z as int].contains(targets[k]));
            lemma_reaches_step(graph, z, targets[k], x);
            lemma_cycle_has_two(graph, x, z);
        } else {
            let p = choose|p: int|
                0 <= p < order.len() && #[trigger] order[p] == z && (p < j || reaches(graph, z, x));
            if !(p < j) {
                // the import would close a cycle
                lemma_cycle_has_two(graph, x, z);
            }
        }
    }
}

/// A module that imports a module that reaches it lies on a cycle.
proof fn lemma_cycle_has_two(graph: Seq<Seq<usize>>, x: usize, z: usize)
    requires
        x < graph.len(),
        graph[x as int].contains(z),
        reaches(graph, z, x),
    ensures
        !acyclic(graph),
{
    let rest = choose|path: Seq<usize>| #[trigger]
        is_path(graph, path) && path.first() == z && path.last() == x;
    let path = seq![x] + rest;
    assert forall|k: int| 0 <= k < path.len() - 1 implies graph[path[k] as int].contains(
        #[trigger] path[k + 1],
    ) by {
        if k > 0 {
            assert(path[k] == rest[k - 1]);
            assert(path[k + 1] == rest[(k - 1) + 1]);
            assert(graph[rest[k - 1] as int].contains(rest[(k - 1) + 1]));
        } else {
            assert(path[0] == seq![x][0]);
            assert(path[1] == rest[0]);
        }
    }
    assert forall|k: int| 0 <= k < path.len() implies (#[trigger] path[k]) < graph.len() by {
        if k > 0 {
            assert(path[k] == rest[k - 1]);
        }
    }
    assert(is_path(graph, path));
    assert(path.len() >= 2);
    assert(path.first() == x);
    assert(path.last() == rest.last());
}

/// Resolved imports name modules of the set.
pub proof fn lemma_scan_edges_below(
    modules: Seq<ShaderModule>,
    paths: Seq<Seq<char>>,
    i: int,
    found: Seq<usize>,
)
    requires
        all_below(found, modules.len() as int),
    ensures
        all_below(scan_edges(modules, paths, i, found), modules.len() as int),
    decreases paths.len() - i,
{
    if 0 <= i < paths.len() {
        let at = first_match(modules, module_named(paths[i]));
        if at < modules.len() {
            lemma_first_match(modules, module_named(paths[i]));
            lemma_scan_edges_below(modules, paths, i + 1, found.push(at as usize));
        } else {
            lemma_scan_edges_below(modules, paths, i + 1, found);
        }
    }
}

/// The root, if it is one of the modules, imports what its text imports.
pub proof fn lemma_root_stack(modules: Seq<ShaderModule>, source: Seq<char>)
    ensures
        stack_of_root(import_graph(modules), edges_of(modules, source), root_stack(modules, source)),
{
    let stack = root_stack(modules, source);
    lemma_first_match(modules, holds_source(source));
    assert forall|k: int| 0 <= k < stack.len() implies (#[trigger] stack[k]) < import_graph(
        modules,
    ).len() && import_graph(modules)[stack[k] as int] == edges_of(modules, source) by {
        let root = root_of(modules, source);
        assert(stack[k] == root as usize);
        assert(modules[root].source@ == source);
    }
}

/// On every fragment set, cyclic or not, the import order is defined and
/// lists exactly the modules that the root's imports reach, each once and
/// never the root itself: an import that leads back to the root is passed
/// over.
pub proof fn law_composition_lists_reached_modules_once(
    modules: Seq<ShaderModule>,
    source: Seq<char>,
)
    ensures
        ({
            let graph = import_graph(modules);
            let roots = edges_of(modules, source);
            let order = import_order(modules, source);
            &&& order.no_duplicates()
            &&& forall|j: int| 0 <= j < order.len() ==> (#[trigger] order[j]) < modules.len()
            &&& forall|j: int| 0 <= j < order.len() ==> (#[trigger] order[j]) != root_of(modules, source)
            &&& forall|t: usize, x: usize|
                roots.contains(t) && #[trigger] reaches(graph, t, x) ==> order.contains(x) || x
                    == root_of(modules, source)
            &&& forall|j: int|
                0 <= j < order.len() ==> reached_from_targets(graph, roots, 0, order, j)
        }),
{
    let graph = import_graph(modules);
    let roots = edges_of(modules, source);
    let none = Seq::<usize>::empty();
    let stack = root_stack(modules, source);
    let order = walk(graph, roots, 0, none, stack);
    lemma_walk(graph, roots, 0, none, stack);
    lemma_root_stack(modules, source);
    assert forall|j: int| 0 <= j < order.len() implies (#[trigger] order[j]) != root_of(
        modules,
        source,
    ) by {
        if order[j] == root_of(modules, source) {
            assert(stack[0] == order[j]);
            assert(stack.contains(order[j]));
        }
    }
    assert forall|t: usize, x: usize|
        roots.contains(t) && #[trigger] reaches(graph, t, x) implies order.contains(x) || x
        == root_of(modules, source) by {
        let path = choose|path: Seq<usize>| #[trigger]
            is_path(graph, path) && path.first() == t && path.last() == x;
        lemma_reached_is_listed(graph, roots, stack, path);
        assert(path.last() == x);
        if stack.contains(x) {
            let at = choose|at: int| 0 <= at < stack.len() && stack[at] == x;
            let root = root_of(modules, source);
            assert(stack.len() == 1 && at == 0);
            assert(0 <= root <= usize::MAX) by {
                crate::search::lemma_first_match(modules, holds_source(source));
            }
            assert(stack[0] == root as usize);
            assert(x == root);
        } else {
            assert(order.contains(x));
        }
    }
}

/// For a fragment set with no import cycle, the composed source lists each
/// module that the root reaches exactly once, and every module after all
/// the modules it imports; the root follows them all.
pub proof fn law_acyclic_composition_is_ordered(modules: Seq<ShaderModule>, source: Seq<char>)
    requires
        acyclic(import_graph(modules)),
    ensures
        ({
            let graph = import_graph(modules);
            let roots = edges_of(modules, source);
            let order = import_order(modules, source);
            &&& order.no_duplicates()
            &&& forall|t: usize, x: usize|
                roots.contains(t) && #[trigger] reaches(graph, t, x) ==> order.contains(x)
            &&& forall|j: int, e: int|
                0 <= j < order.len() && 0 <= e < graph[order[j] as int].len()
                    ==> #[trigger] listed_before(order, j, graph[order[j] as int][e])
        }),
{
    let graph = import_graph(modules);
    let roots = edges_of(modules, source);
    let stack = root_stack(modules, source);
    let order = import_order(modules, source);
    lemma_root_stack(modules, source);
    lemma_acyclic_order(graph, roots, stack);
    law_composition_lists_reached_modules_once(modules, source);
    assert forall|t: usize, x: usize|
        roots.contains(t) && #[trigger] reaches(graph, t, x) implies order.contains(x) by {
        if stack.contains(x) {
            // the root would reach itself through one of its imports
            let at = choose|at: int| 0 <= at < stack.len() && stack[at] == x;
            assert(graph[stack[at] as int] == roots);
            lemma_cycle_has_two(graph, x, t);
        }
    }
    assert forall|j: int, e: int|
        0 <= j < order.len() && 0 <= e < graph[order[j] as int].len()
        implies #[trigger] listed_before(order, j, graph[order[j] as int][e]) by {
        let x = order[j] as int;
        assert(x < modules.len());
        lemma_scan_edges_below(modules, import_paths_of(modules[x].source@), 0, Seq::empty());
        assert(graph[x] == edges_of(modules, modules[x].source@));
        assert(graph[order[j] as int][e] < graph.len());
        let walked = walk(graph, roots, 0, Seq::empty(), stack);
        assert(walked == order);
        assert(listed_before(walked, j, graph[walked[j] as int][e]));
    }
}

} // verus!
