//! Breadth-first walk of the entity graph, from the entities of a set of
//! seed memories to the other memories that mention the entities reached.
use vstd::prelude::*;
use std::collections::HashSet;

verus! {

broadcast use vstd::std_specs::hash::group_hash_axioms;

/// The entities linked to some seed memory, where `memory_entities` lists
/// `(memory_id, entity_id)` links.
pub open spec fn seed_entity_set(seeds: Seq<i64>, memory_entities: Seq<(i64, i64)>) -> Set<i64> {
    Set::new(
        |e: i64|
            exists|b: int|
                0 <= b < memory_entities.len() && seeds.contains(#[trigger] memory_entities[b].0)
                    && memory_entities[b].1 == e,
    )
}

/// The targets of the edges that leave a member of `s`, where `edges`
/// lists `(source_id, target_id)` relationships.
pub open spec fn successors(s: Set<i64>, edges: Seq<(i64, i64)>) -> Set<i64> {
    Set::new(
        |t: i64|
            exists|b: int| 0 <= b < edges.len() && s.contains(#[trigger] edges[b].0) && edges[b].1 == t,
    )
}

/// The entities at most `hops` edges away from `seed`.
pub open spec fn reachable_within(seed: Set<i64>, edges: Seq<(i64, i64)>, hops: nat) -> Set<i64>
    decreases hops,
{
    if hops == 0 {
        seed
    } else {
        let prev = reachable_within(seed, edges, (hops - 1) as nat);
        prev.union(successors(prev, edges))
    }
}

/// Memory `m` is reached through the graph: it is no seed, and it is
/// linked (by a link of a memory that is not deleted, `live_links`) to an
/// entity that the walk reaches and that is not itself a seed entity.
pub open spec fn is_graph_match(
    seeds: Seq<i64>,
    memory_entities: Seq<(i64, i64)>,
    edges: Seq<(i64, i64)>,
    live_links: Seq<(i64, i64)>,
    max_hops: nat,
    m: i64,
) -> bool {
    let seed_ents = seed_entity_set(seeds, memory_entities);
    &&& !seeds.contains(m)
    &&& exists|b: int|
        0 <= b < live_links.len() && #[trigger] live_links[b].0 == m && reachable_within(
            seed_ents,
            edges,
            max_hops,
        ).contains(live_links[b].1) && !seed_ents.contains(live_links[b].1)
}

/// Every element is smaller than the next: sorted, with no repeats.
pub open spec fn strictly_increasing(s: Seq<i64>) -> bool {
    forall|i: int, j: int| 0 <= i < j < s.len() ==> s[i] < s[j]
}

/// Adds `x` to a sorted vector without repeats, keeping it so.
fn insert_sorted_unique(v: &mut Vec<i64>, x: i64)
    requires
        strictly_increasing(old(v)@),
    ensures
        strictly_increasing(final(v)@),
        forall|y: i64| final(v)@.contains(y) <==> (old(v)@.contains(y) || y == x),
{
    let mut i: usize = 0;
    while i < v.len() && v[i] < x
        invariant
            i <= v.len(),
            v@ == old(v)@,
            strictly_increasing(v@),
            forall|k: int| 0 <= k < i ==> v@[k] < x,
        decreases v.len() - i,
    {
        i = i + 1;
    }
    if i < v.len() && v[i] == x {
        assert(v@[i as int] == x);
        return;
    }
    let ghost before = v@;
    assert(before == old(v)@);
    v.insert(i, x);
    proof {
        assert(forall|k: int| i <= k < before.len() ==> x < before[k]) by {
            assert forall|k: int| i <= k < before.len() implies x < before[k] by {
                if k > i {
                    assert(before[i as int] < before[k]);
                }
            }
        }
        assert(v@ =~= before.subrange(0, i as int).push(x) + before.subrange(i as int, before.len() as int));
        assert forall|y: i64| v@.contains(y) <==> (before.contains(y) || y == x) by {
            if v@.contains(y) {
                let k = choose|k: int| 0 <= k < v@.len() && v@[k] == y;
                if k < i {
                    assert(before[k] == y);
                } else if k > i {
                    assert(before[k - 1] == y);
                }
            }
            if before.contains(y) {
                let k = choose|k: int| 0 <= k < before.len() && before[k] == y;
                if k < i {
                    assert(v@[k] == y);
                } else {
                    assert(v@[k + 1] == y);
                }
            }
            if y == x {
                assert(v@[i as int] == x);
            }
        }
        assert(forall|y: i64| v@.contains(y) <==> (old(v)@.contains(y) || y == x));
    }
}

proof fn lemma_reach_of_empty(edges: Seq<(i64, i64)>, hops: nat)
    ensures
        reachable_within(Set::empty(), edges, hops) =~= Set::<i64>::empty(),
    decreases hops,
{
    if hops > 0 {
        lemma_reach_of_empty(edges, (hops - 1) as nat);
        assert(successors(Set::<i64>::empty(), edges) =~= Set::<i64>::empty());
    }
}

proof fn lemma_reach_closed(seed: Set<i64>, edges: Seq<(i64, i64)>, h: nat, k: nat)
    requires
        h <= k,
        successors(reachable_within(seed, edges, h), edges).subset_of(
            reachable_within(seed, edges, h),
        ),
    ensures
        reachable_within(seed, edges, k) == reachable_within(seed, edges, h),
    decreases k - h,
{
    if h < k {
        lemma_reach_closed(seed, edges, h, (k - 1) as nat);
        let prev = reachable_within(seed, edges, (k - 1) as nat);
        assert(prev.union(successors(prev, edges)) =~= prev);
    }
}

proof fn lemma_reach_monotone(seed: Set<i64>, edges: Seq<(i64, i64)>, h1: nat, h2: nat)
    requires
        h1 <= h2,
    ensures
        reachable_within(seed, edges, h1).subset_of(reachable_within(seed, edges, h2)),
    decreases h2 - h1,
{
    if h1 < h2 {
        lemma_reach_monotone(seed, edges, h1, (h2 - 1) as nat);
    }
}

/// Walking more hops never loses a memory: a memory that the walk reaches
/// within `h1` hops is reached within any `h2 >= h1` hops too.
pub proof fn lemma_graph_matches_grow_with_hops(
    seeds: Seq<i64>,
    memory_entities: Seq<(i64, i64)>,
    edges: Seq<(i64, i64)>,
    live_links: Seq<(i64, i64)>,
    h1: nat,
    h2: nat,
    m: i64,
)
    requires
        h1 <= h2,
        is_graph_match(seeds, memory_entities, edges, live_links, h1, m),
    ensures
        is_graph_match(seeds, memory_entities, edges, live_links, h2, m),
{
    let s0 = seed_entity_set(seeds, memory_entities);
    lemma_reach_monotone(s0, edges, h1, h2);
    let b = choose|b: int|
        0 <= b < live_links.len() && #[trigger] live_links[b].0 == m && reachable_within(
            s0,
            edges,
            h1,
        ).contains(live_links[b].1) && !s0.contains(live_links[b].1);
    assert(reachable_within(s0, edges, h2).contains(live_links[b].1));
}

/// Every edge of `e1` is an edge of `e2`.
pub open spec fn edges_within(e1: Seq<(i64, i64)>, e2: Seq<(i64, i64)>) -> bool {
    forall|c: int| 0 <= c < e1.len() ==> exists|d: int| 0 <= d < e2.len() && e2[d] == #[trigger] e1[c]
}

proof fn lemma_reach_grows_with_edges(
    seed: Set<i64>,
    e1: Seq<(i64, i64)>,
    e2: Seq<(i64, i64)>,
    hops: nat,
)
    requires
        edges_within(e1, e2),
    ensures
        reachable_within(seed, e1, hops).subset_of(reachable_within(seed, e2, hops)),
    decreases hops,
{
    if hops > 0 {
        let h = (hops - 1) as nat;
        lemma_reach_grows_with_edges(seed, e1, e2, h);
        let p1 = reachable_within(seed, e1, h);
        let p2 = reachable_within(seed, e2, h);
        assert forall|t: i64| #[trigger] successors(p1, e1).contains(t) implies successors(
            p2,
            e2,
        ).contains(t) by {
            let b = choose|b: int| 0 <= b < e1.len() && p1.contains(#[trigger] e1[b].0) && e1[b].1 == t;
            let d = choose|d: int| 0 <= d < e2.len() && e2[d] == #[trigger] e1[b];
            assert(p2.contains(e2[d].0));
        }
    }
}

/// More edges never lose a memory: a memory that the walk reaches over
/// the edges `e1` within `h1` hops is reached over any edges `e2` that
/// hold every edge of `e1`, within any `h2 >= h1` hops. A lower minimal
/// weight selects more relationships, so it loses no memory either.
pub proof fn lemma_graph_matches_grow_with_edges_and_hops(
    seeds: Seq<i64>,
    memory_entities: Seq<(i64, i64)>,
    e1: Seq<(i64, i64)>,
    e2: Seq<(i64, i64)>,
    live_links: Seq<(i64, i64)>,
    h1: nat,
    h2: nat,
    m: i64,
)
    requires
        edges_within(e1, e2),
        h1 <= h2,
        is_graph_match(seeds, memory_entities, e1, live_links, h1, m),
    ensures
        is_graph_match(seeds, memory_entities, e2, live_links, h2, m),
{
    let s0 = seed_entity_set(seeds, memory_entities);
    lemma_reach_grows_with_edges(s0, e1, e2, h1);
    let b = choose|b: int|
        0 <= b < live_links.len() && #[trigger] live_links[b].0 == m && reachable_within(
            s0,
            e1,
            h1,
        ).contains(live_links[b].1) && !s0.contains(live_links[b].1);
    assert(reachable_within(s0, e2, h1).contains(live_links[b].1));
    assert(is_graph_match(seeds, memory_entities, e2, live_links, h1, m));
    lemma_graph_matches_grow_with_hops(seeds, memory_entities, e2, live_links, h1, h2, m);
}

/// No memory is reached without walking: with no hop, or from no seed,
/// the walk reaches nothing.
pub proof fn lemma_no_hops_no_matches(
    seeds: Seq<i64>,
    memory_entities: Seq<(i64, i64)>,
    edges: Seq<(i64, i64)>,
    live_links: Seq<(i64, i64)>,
    max_hops: nat,
    m: i64,
)
    requires
        max_hops == 0 || seeds.len() == 0,
    ensures
        !is_graph_match(seeds, memory_entities, edges, live_links, max_hops, m),
{
    if seeds.len() == 0 {
        assert(seed_entity_set(seeds, memory_entities) =~= Set::<i64>::empty());
        lemma_reach_of_empty(edges, max_hops);
    }
}

/// `edges` holds an edge from `s` to `t`.
pub open spec fn has_edge(edges: Seq<(i64, i64)>, s: i64, t: i64) -> bool {
    exists|c: int| 0 <= c < edges.len() && #[trigger] edges[c] == (s, t)
}

proof fn lemma_push_contains(s: Seq<i64>, v: i64)
    ensures
        forall|x: i64| #[trigger] s.push(v).contains(x) <==> (s.contains(x) || x == v),
{
    let t = s.push(v);
    assert forall|x: i64| #[trigger] t.contains(x) <==> (s.contains(x) || x == v) by {
        if s.contains(x) {
            let k = choose|k: int| 0 <= k < s.len() && s[k] == x;
            assert(t[k] == x);
        }
        if x == v {
            assert(t[s.len() as int] == x);
        }
    }
}

/// Adds the targets of the edges that leave `entity_id` to `visited`, and
/// appends those that were not visited yet to `next`.
fn expand_entity(
    visited: &mut HashSet<i64>,
    next: &mut Vec<i64>,
    entity_id: i64,
    relationships: &[(i64, i64)],
)
    ensures
        forall|x: i64|
            final(visited)@.contains(x) <==> (old(visited)@.contains(x) || has_edge(
                relationships@,
                entity_id,
                x,
            )),
        forall|x: i64|
            final(next)@.contains(x) <==> (old(next)@.contains(x) || (final(visited)@.contains(x)
                && !old(visited)@.contains(x))),
{
    let ghost edges = relationships@;
    let ghost v0 = visited@;
    let ghost nx0 = next@;
    assert(v0 == old(visited)@ && nx0 == old(next)@);
    let mut neighbors: Vec<i64> = Vec::new();
    for b in 0..relationships.len()
        invariant
            edges == relationships@,
            visited@ == v0,
            next@ == nx0,
            forall|x: i64| neighbors@.contains(x) ==> !visited@.contains(x),
            forall|x: i64|
                neighbors@.contains(x) <==> (!visited@.contains(x) && exists|c: int|
                    0 <= c < b && #[trigger] edges[c] == (entity_id, x)),
    {
        let (source_id, target_id) = relationships[b];
        let ghost before = neighbors@;
        if source_id == entity_id && !visited.contains(&target_id) {
            neighbors.push(target_id);
        }
        proof {
            lemma_push_contains(before, target_id);
            assert(edges[b as int] == (source_id, target_id));
        }
    }
    let ghost v1 = visited@;
    let ghost n1 = next@;
    let ghost nb = neighbors@;
    assert(nb.take(0) =~= Seq::<i64>::empty());
    let mut k: usize = 0;
    while k < neighbors.len()
        invariant
            k <= neighbors@.len(),
            nb == neighbors@,
            edges == relationships@,
            forall|x: i64|
                nb.contains(x) <==> (!v1.contains(x) && exists|c: int|
                    0 <= c < edges.len() && #[trigger] edges[c] == (entity_id, x)),
            forall|x: i64|
                #[trigger] visited@.contains(x) <==> (v1.contains(x) || nb.take(k as int).contains(x)),
            forall|x: i64|
                #[trigger] next@.contains(x) <==> (n1.contains(x) || nb.take(k as int).contains(x)),
        decreases nb.len() - k,
    {
        let id = neighbors[k];
        proof {
            lemma_take_one_more(nb, k as int);
            lemma_push_contains(next@, id);
        }
        let ghost vb = visited@;
        visited.insert(id);
        next.push(id);
        assert(visited@ == vb.insert(id));
        assert(forall|x: i64| #[trigger] visited@.contains(x) <==> (v1.contains(x) || nb.take(k + 1).contains(x)));
        assert(forall|x: i64| #[trigger] next@.contains(x) <==> (n1.contains(x) || nb.take(k + 1).contains(x)));
        let ghost k0 = k;
        k = k + 1;
        assert(nb.take(k as int) == nb.take(k0 + 1));
    }
    proof {
        assert(nb.take(nb.len() as int) =~= nb);
        assert forall|x: i64| visited@.contains(x) <==> (v0.contains(x) || has_edge(edges, entity_id, x)) by {
            if has_edge(edges, entity_id, x) && !v0.contains(x) {
                let c = choose|c: int| 0 <= c < edges.len() && #[trigger] edges[c] == (entity_id, x);
                assert(nb.contains(x));
            }
        }
        assert(forall|x: i64| final(visited)@.contains(x) <==> (old(visited)@.contains(x) || has_edge(edges, entity_id, x)));
        assert(forall|x: i64| final(next)@.contains(x) <==> (old(next)@.contains(x) || (final(visited)@.contains(x) && !old(visited)@.contains(x))));
    }
}

/// One hop of the walk: every target of an edge that leaves the frontier
/// is visited; those that were not visited before form the next frontier.
fn walk_one_hop(visited: &mut HashSet<i64>, frontier: &Vec<i64>, relationships: &[(i64, i64)]) -> (next: Vec<i64>)
    ensures
        final(visited)@ == old(visited)@.union(successors(frontier@.to_set(), relationships@)),
        forall|x: i64| next@.contains(x) <==> (final(visited)@.contains(x) && !old(visited)@.contains(x)),
{
    let ghost v0 = visited@;
    let ghost f = frontier@;
    let ghost edges = relationships@;
    let mut next: Vec<i64> = Vec::new();
    for fi in 0..frontier.len()
        invariant
            f == frontier@,
            edges == relationships@,
            visited@ == v0.union(successors(f.take(fi as int).to_set(), edges)),
            forall|x: i64| next@.contains(x) <==> (visited@.contains(x) && !v0.contains(x)),
    {
        let entity_id = frontier[fi];
        let ghost vb = visited@;
        expand_entity(visited, &mut next, entity_id, relationships);
        proof {
            lemma_take_one_more(f, fi as int);
            let old_s = successors(f.take(fi as int).to_set(), edges);
            let new_s = successors(f.take(fi + 1).to_set(), edges);
            assert forall|x: i64| #[trigger] new_s.contains(x) <==> (old_s.contains(x) || has_edge(edges, entity_id, x)) by {
                if new_s.contains(x) {
                    let b = choose|b: int| 0 <= b < edges.len() && f.take(fi + 1).to_set().contains(#[trigger] edges[b].0) && edges[b].1 == x;
                    if f.take(fi as int).contains(edges[b].0) {
                        assert(f.take(fi as int).to_set().contains(edges[b].0));
                    } else {
                        assert(edges[b] == (entity_id, x));
                    }
                }
                if old_s.contains(x) {
                    let b = choose|b: int| 0 <= b < edges.len() && f.take(fi as int).to_set().contains(#[trigger] edges[b].0) && edges[b].1 == x;
                    assert(f.take(fi + 1).to_set().contains(edges[b].0));
                }
                if has_edge(edges, entity_id, x) {
                    let c = choose|c: int| 0 <= c < edges.len() && #[trigger] edges[c] == (entity_id, x);
                    assert(f.take(fi + 1).to_set().contains(edges[c].0));
                }
            }
            assert(visited@ =~= v0.union(new_s));
        }
    }
    proof {
        assert(f.take(f.len() as int) =~= f);
    }
    next
}

/// The memories reached from `seed_memory_ids` through the entity graph,
/// sorted, without repeats and without the seeds.
///
/// `memory_entities` holds the `(memory_id, entity_id)` links,
/// `relationships` the `(source_id, target_id)` edges that the walk may
/// follow (those of the namespace with at least the minimal weight), and
/// `live_memory_entities` the links whose memory is not deleted. The walk
/// goes at most `max_hops` edges from the seeds' entities.
pub fn traverse_from_memories(
    seed_memory_ids: &[i64],
    memory_entities: &[(i64, i64)],
    relationships: &[(i64, i64)],
    live_memory_entities: &[(i64, i64)],
    max_hops: u32,
) -> (result: Vec<i64>)
    ensures
        strictly_increasing(result@),
        forall|m: i64|
            result@.contains(m) <==> is_graph_match(
                seed_memory_ids@,
                memory_entities@,
                relationships@,
                live_memory_entities@,
                max_hops as nat,
                m,
            ),
{
    let ghost seeds = seed_memory_ids@;
    let ghost links = memory_entities@;
    let ghost edges = relationships@;
    let ghost live = live_memory_entities@;
    let ghost s0 = seed_entity_set(seeds, links);
    if seed_memory_ids.len() == 0 || max_hops == 0 {
        proof {
            if seeds.len() == 0 {
                assert(s0 =~= Set::<i64>::empty());
                lemma_reach_of_empty(edges, max_hops as nat);
            }
        }
        return Vec::new();
    }
    // Step 1: the seeds and their entities.

    let mut seed_set: HashSet<i64> = HashSet::new();
    for i in 0..seed_memory_ids.len()
        invariant
            seeds == seed_memory_ids@,
            forall|m: i64| seed_set@.contains(m) <==> seeds.take(i as int).contains(m),
    {
        proof {
            lemma_take_one_more(seeds, i as int);
        }
        seed_set.insert(seed_memory_ids[i]);
    }
    assert(seeds.take(seeds.len() as int) =~= seeds);

    let mut seed_entities: Vec<i64> = Vec::new();
    for j in 0..memory_entities.len()
        invariant
            seeds == seed_memory_ids@,
            links == memory_entities@,
            forall|m: i64| seed_set@.contains(m) <==> seeds.contains(m),
            strictly_increasing(seed_entities@),
            forall|e: i64|
                seed_entities@.contains(e) <==> exists|b: int|
                    0 <= b < j && seeds.contains(#[trigger] links[b].0) && links[b].1 == e,
    {
        let (m, e) = memory_entities[j];
        if seed_set.contains(&m) {
            insert_sorted_unique(&mut seed_entities, e);
        }
        proof {
            assert(links[j as int] == (m, e));
        }
    }
    assert(forall|e: i64| seed_entities@.contains(e) <==> s0.contains(e));

    if seed_entities.len() == 0 {
        proof {
            assert(s0 =~= Set::<i64>::empty()) by {
                assert forall|e: i64| !s0.contains(e) by {
                    if s0.contains(e) {
                        assert(seed_entities@.contains(e));
                    }
                }
            }
            lemma_reach_of_empty(edges, max_hops as nat);
        }
        return Vec::new();
    }
    // Step 2: breadth-first walk over the relationships.

    let mut visited: HashSet<i64> = HashSet::new();
    for j in 0..seed_entities.len()
        invariant
            forall|e: i64| visited@.contains(e) <==> seed_entities@.take(j as int).contains(e),
    {
        proof {
            lemma_take_one_more(seed_entities@, j as int);
        }
        visited.insert(seed_entities[j]);
    }
    assert(seed_entities@.take(seed_entities@.len() as int) =~= seed_entities@);
    assert(visited@ =~= s0);
    let mut frontier: Vec<i64> = seed_entities.clone();
    let mut hop: u32 = 0;
    while hop < max_hops
        invariant
            edges == relationships@,
            hop <= max_hops,
            visited@ == reachable_within(s0, edges, hop as nat),
            forall|x: i64| frontier@.contains(x) ==> visited@.contains(x),
            forall|b: int|
                0 <= b < edges.len() && visited@.contains(#[trigger] edges[b].0)
                    && !frontier@.contains(edges[b].0) ==> visited@.contains(edges[b].1),
        ensures
            visited@ == reachable_within(s0, edges, max_hops as nat),
        decreases max_hops - hop,
    {
        if frontier.len() == 0 {
            proof {
                assert(successors(visited@, edges).subset_of(visited@));
                lemma_reach_closed(s0, edges, hop as nat, max_hops as nat);
            }
            break ;
        }
        let ghost v0 = visited@;
        let ghost f0 = frontier@;
        let next_frontier = walk_one_hop(&mut visited, &frontier, relationships);
        proof {
            let v2 = visited@;
            assert(v2 =~= v0.union(successors(v0, edges))) by {
                assert forall|x: i64| #[trigger] successors(v0, edges).contains(x) implies v2.contains(x) by {
                    let b = choose|b: int| 0 <= b < edges.len() && v0.contains(#[trigger] edges[b].0) && edges[b].1 == x;
                    if f0.contains(edges[b].0) {
                        assert(f0.to_set().contains(edges[b].0));
                    }
                }
                assert forall|x: i64| #[trigger] successors(f0.to_set(), edges).contains(x) implies successors(v0, edges).contains(x) by {
                    let b = choose|b: int| 0 <= b < edges.len() && f0.to_set().contains(#[trigger] edges[b].0) && edges[b].1 == x;
                    assert(v0.contains(edges[b].0));
                }
            }
            assert forall|b: int|
                0 <= b < edges.len() && v2.contains(#[trigger] edges[b].0)
                    && !next_frontier@.contains(edges[b].0) implies v2.contains(edges[b].1) by {
                assert(v0.contains(edges[b].0));
                if f0.contains(edges[b].0) {
                    assert(f0.to_set().contains(edges[b].0));
                    assert(successors(f0.to_set(), edges).contains(edges[b].1));
                }
            }
        }
        frontier = next_frontier;
        hop = hop + 1;
    }
    // Step 3: memories linked to an entity that only the walk reached.

    let ghost reach = reachable_within(s0, edges, max_hops as nat);
    assert(visited@ == reach);
    let mut result: Vec<i64> = Vec::new();
    for b in 0..live_memory_entities.len()
        invariant
            live == live_memory_entities@,
            seeds == seed_memory_ids@,
            visited@ == reach,
            forall|m: i64| seed_set@.contains(m) <==> seeds.contains(m),
            forall|e: i64| seed_entities@.contains(e) <==> s0.contains(e),
            strictly_increasing(result@),
            forall|m: i64|
                #[trigger] result@.contains(m) <==> (!seeds.contains(m) && exists|c: int|
                    0 <= c < b && #[trigger] live[c].0 == m && reach.contains(live[c].1)
                        && !s0.contains(live[c].1)),
    {
        let (memory_id, entity_id) = live_memory_entities[b];
        if visited.contains(&entity_id) && !contains_id(&seed_entities, entity_id)
            && !seed_set.contains(&memory_id) {
            insert_sorted_unique(&mut result, memory_id);
        }
        proof {
            assert(live[b as int] == (memory_id, entity_id));
            assert forall|m: i64|
                #[trigger] result@.contains(m) <==> (!seeds.contains(m) && exists|c: int|
                    0 <= c < b + 1 && #[trigger] live[c].0 == m && reach.contains(live[c].1)
                        && !s0.contains(live[c].1)) by {
                if m == memory_id && !seeds.contains(m) && reach.contains(entity_id) && !s0.contains(entity_id) {
                    assert(live[b as int].0 == m);
                }
            }
        }
    }
    result
}

proof fn lemma_take_one_more(s: Seq<i64>, i: int)
    requires
        0 <= i < s.len(),
    ensures
        forall|x: i64| #[trigger] s.take(i + 1).contains(x) <==> (s.take(i).contains(x) || x == s[i]),
{
    let a = s.take(i);
    let t = s.take(i + 1);
    assert(t =~= a.push(s[i]));
    assert forall|x: i64| #[trigger] t.contains(x) <==> (a.contains(x) || x == s[i]) by {
        if a.contains(x) {
            let k = choose|k: int| 0 <= k < a.len() && a[k] == x;
            assert(t[k] == x);
        }
        if x == s[i] {
            assert(t[i] == x);
        }
        if t.contains(x) {
            let k = choose|k: int| 0 <= k < t.len() && t[k] == x;
            if k < i {
                assert(a[k] == x);
            }
        }
    }
}

/// Whether `x` occurs in `v`.
fn contains_id(v: &Vec<i64>, x: i64) -> (r: bool)
    ensures
        r == v@.contains(x),
{
    for i in 0..v.len()
        invariant
            forall|k: int| 0 <= k < i ==> v@[k] != x,
    {
        if v[i] == x {
            return true;
        }
    }
    false
}

} // verus!
