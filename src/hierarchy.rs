use vstd::prelude::*;

verus! {

/// One entity of the scene graph as the gizmo sees it: the index of its parent (if any),
/// the transform stored relative to that parent, and the world transform the host
/// accumulated for it from the parent chain.
///
/// The transform type is left to the caller: this module decides which entity receives
/// which value, never what a value is.
#[derive(Clone, Copy)]
pub struct Node<T> {
    pub parent: Option<usize>,
    pub local: Option<T>,
    pub world: Option<T>,
}

/// A snapshot of the scene graph; an entity is its index in `nodes`.
pub struct Scene<T> {
    pub nodes: Vec<Node<T>>,
}

/// The transforms handed to the interaction routine in one call, with the entity each
/// one belongs to: `worlds[j]` is the world transform of `entities[j]`.
pub struct Batch<T> {
    pub entities: Vec<usize>,
    pub worlds: Vec<T>,
}

/// Why an edit could not be written back.
#[derive(Clone, Copy, PartialEq, Eq, Structural, Debug)]
pub enum WriteBackError {
    /// An entity of the batch has no stored local transform.
    MissingLocal { entity: usize },
}

pub open spec fn has_world<T>(nodes: Seq<Node<T>>, e: usize) -> bool {
    (e as int) < nodes.len() && nodes[e as int].world is Some
}

pub open spec fn has_local<T>(nodes: Seq<Node<T>>, e: usize) -> bool {
    (e as int) < nodes.len() && nodes[e as int].local is Some
}

/// The selected entities whose world transform is known, in selection order.
pub open spec fn batch_entities<T>(nodes: Seq<Node<T>>, selected: Seq<usize>) -> Seq<usize> {
    selected.filter(|e: usize| has_world(nodes, e))
}

/// The last position below `m` at which `ents` names entity `e`, or -1.
pub open spec fn last_edit(ents: Seq<usize>, e: int, m: int) -> int
    decreases m,
{
    if m <= 0 {
        -1
    } else if ents[m - 1] as int == e {
        m - 1
    } else {
        last_edit(ents, e, m - 1)
    }
}

/// The scene after the first `m` results were stored as local transforms: an entity
/// named in that prefix takes the value paired with its last occurrence; parents and
/// world transforms stay as they were.
pub open spec fn edited_upto<T>(nodes: Seq<Node<T>>, ents: Seq<usize>, vals: Seq<T>, m: int) -> Seq<
    Node<T>,
> {
    Seq::new(
        nodes.len(),
        |i: int|
            {
                let j = last_edit(ents, i, m);
                if j >= 0 {
                    Node { parent: nodes[i].parent, local: Some(vals[j]), world: nodes[i].world }
                } else {
                    nodes[i]
                }
            },
    )
}

/// How many results are paired with a submitted entity.
pub open spec fn pair_count<T>(ents: Seq<usize>, vals: Seq<T>) -> int {
    if ents.len() <= vals.len() {
        ents.len() as int
    } else {
        vals.len() as int
    }
}

/// The scene after every result that has a submitted entity was stored.
pub open spec fn edited<T>(nodes: Seq<Node<T>>, ents: Seq<usize>, vals: Seq<T>) -> Seq<Node<T>> {
    edited_upto(nodes, ents, vals, pair_count(ents, vals))
}

/// Every entity among the first `m` of `ents` has a stored local transform.
pub open spec fn all_local<T>(nodes: Seq<Node<T>>, ents: Seq<usize>, m: int) -> bool {
    forall|j: int| 0 <= j < m ==> has_local(nodes, #[trigger] ents[j])
}

/// Collects, in selection order, each selected entity that has a world transform,
/// together with that transform. Entities without one are skipped.
pub fn gather_batch<T: Copy>(scene: &Scene<T>, selected: &Vec<usize>) -> (b: Batch<T>)
    ensures
        b.entities@ == batch_entities(scene.nodes@, selected@),
        b.worlds@.len() == b.entities@.len(),
        forall|j: int|
            0 <= j < b.worlds@.len() ==> Some(#[trigger] b.worlds@[j])
                == scene.nodes@[b.entities@[j] as int].world,
{
    let mut entities: Vec<usize> = Vec::new();
    let mut worlds: Vec<T> = Vec::new();
    let mut i: usize = 0;
    while i < selected.len()
        invariant
            i <= selected@.len(),
            entities@ == batch_entities(scene.nodes@, selected@.take(i as int)),
            worlds@.len() == entities@.len(),
            forall|j: int|
                0 <= j < worlds@.len() ==> Some(#[trigger] worlds@[j])
                    == scene.nodes@[entities@[j] as int].world,
        decreases selected@.len() - i,
    {
        let e = selected[i];
        proof {
            assert(selected@.take(i + 1) == selected@.take(i as int).push(e));
            selected@.take(i as int).lemma_filter_push(e, |x: usize| has_world(scene.nodes@, x));
        }
        if e < scene.nodes.len() {
            if let Some(w) = scene.nodes[e].world {
                entities.push(e);
                worlds.push(w);
            }
        }
        i += 1;
    }
    proof {
        assert(selected@.take(selected@.len() as int) == selected@);
    }
    Batch { entities, worlds }
}

/// Stores each result as the new local transform of the entity submitted at the same
/// position (results without an entity, or entities without a result, are ignored).
/// Every paired entity must carry a local transform; if one does not, nothing is
/// written and the first such entity is reported.
pub fn write_back<T: Copy>(scene: &mut Scene<T>, entities: &Vec<usize>, results: &Vec<T>) -> (r:
    Result<(), WriteBackError>)
    ensures
        r is Ok <==> all_local(old(scene).nodes@, entities@, pair_count(entities@, results@)),
        r is Ok ==> final(scene).nodes@ == edited(old(scene).nodes@, entities@, results@),
        r is Err ==> final(scene).nodes@ == old(scene).nodes@,
        forall|entity: usize|
            r == Err::<(), WriteBackError>(WriteBackError::MissingLocal { entity }) ==> exists|j: int|
                0 <= j < pair_count(entities@, results@) && #[trigger] entities@[j] == entity
                    && !has_local(old(scene).nodes@, entity) && all_local(
                    old(scene).nodes@,
                    entities@,
                    j,
                ),
{
    let m: usize = if entities.len() <= results.len() {
        entities.len()
    } else {
        results.len()
    };
    let mut k: usize = 0;
    while k < m
        invariant
            m == pair_count(entities@, results@),
            k <= m,
            all_local(scene.nodes@, entities@, k as int),
        decreases m - k,
    {
        let e = entities[k];
        if e >= scene.nodes.len() || scene.nodes[e].local.is_none() {
            return Err(WriteBackError::MissingLocal { entity: e });
        }
        k += 1;
    }
    let ghost start = scene.nodes@;
    let mut k: usize = 0;
    while k < m
        invariant
            m == pair_count(entities@, results@),
            k <= m,
            all_local(start, entities@, m as int),
            scene.nodes@ == edited_upto(start, entities@, results@, k as int),
        decreases m - k,
    {
        let e = entities[k];
        let node = scene.nodes[e];
        scene.nodes.set(e, Node { parent: node.parent, local: Some(results[k]), world: node.world });
        k += 1;
        assert(scene.nodes@ =~= edited_upto(start, entities@, results@, k as int));
    }
    Ok(())
}

/// The entity indices met walking up from `e` through at most `fuel` parents, `e` first.
pub open spec fn chain_ids<T>(nodes: Seq<Node<T>>, e: int, fuel: nat) -> Seq<int>
    decreases fuel,
{
    if fuel == 0 || e < 0 || e >= nodes.len() {
        seq![]
    } else {
        seq![e] + match nodes[e].parent {
            Some(p) => chain_ids(nodes, p as int, (fuel - 1) as nat),
            None => seq![],
        }
    }
}

/// The stored local transforms along the same walk. The host composes them into the
/// world transform of `e`, so equal chains give equal world transforms.
pub open spec fn local_chain<T>(nodes: Seq<Node<T>>, e: int, fuel: nat) -> Seq<Option<T>>
    decreases fuel,
{
    if fuel == 0 || e < 0 || e >= nodes.len() {
        seq![]
    } else {
        seq![nodes[e].local] + match nodes[e].parent {
            Some(p) => local_chain(nodes, p as int, (fuel - 1) as nat),
            None => seq![],
        }
    }
}

/// `e` and its ancestors (a walk of at most one step per entity).
pub open spec fn ancestry<T>(nodes: Seq<Node<T>>, e: int) -> Seq<int> {
    chain_ids(nodes, e, nodes.len())
}

/// The local transforms from which the world transform of `e` is computed.
pub open spec fn locals_along<T>(nodes: Seq<Node<T>>, e: int) -> Seq<Option<T>> {
    local_chain(nodes, e, nodes.len())
}

proof fn lemma_chains_agree<T>(a: Seq<Node<T>>, b: Seq<Node<T>>, e: int, fuel: nat)
    requires
        a.len() == b.len(),
        forall|i: int| 0 <= i < a.len() ==> (#[trigger] b[i]).parent == a[i].parent,
        forall|k: int|
            0 <= k < chain_ids(a, e, fuel).len() ==> b[#[trigger] chain_ids(a, e, fuel)[k]].local
                == a[chain_ids(a, e, fuel)[k]].local,
    ensures
        chain_ids(b, e, fuel) == chain_ids(a, e, fuel),
        local_chain(b, e, fuel) == local_chain(a, e, fuel),
    decreases fuel,
{
    if fuel == 0 || e < 0 || e >= a.len() {
    } else {
        assert(chain_ids(a, e, fuel)[0] == e);
        assert(b[e].parent == a[e].parent);
        if let Some(p) = a[e].parent {
            let rest = chain_ids(a, p as int, (fuel - 1) as nat);
            assert forall|k: int| 0 <= k < rest.len() implies b[#[trigger] rest[k]].local
                == a[rest[k]].local by {
                assert(chain_ids(a, e, fuel)[k + 1] == rest[k]);
            }
            lemma_chains_agree(a, b, p as int, (fuel - 1) as nat);
        }
    }
}

proof fn lemma_last_edit_unique(ents: Seq<usize>, j: int, m: int)
    requires
        0 <= j < m <= ents.len(),
        ents.no_duplicates(),
    ensures
        last_edit(ents, ents[j] as int, m) == j,
    decreases m,
{
    if m - 1 != j {
        lemma_last_edit_unique(ents, j, m - 1);
    }
}

proof fn lemma_last_edit_bounds(ents: Seq<usize>, e: int, m: int)
    requires
        0 <= m <= ents.len(),
    ensures
        last_edit(ents, e, m) < m,
        last_edit(ents, e, m) >= 0 ==> ents[last_edit(ents, e, m)] as int == e,
        last_edit(ents, e, m) < 0 ==> forall|j: int| 0 <= j < m ==> ents[j] as int != e,
    decreases m,
{
    if m > 0 {
        lemma_last_edit_bounds(ents, e, m - 1);
        if ents[m - 1] as int != e {
            assert forall|j: int| 0 <= j < m && last_edit(ents, e, m) < 0 implies ents[j] as int
                != e by {
                if j < m - 1 {
                    assert(last_edit(ents, e, m - 1) < 0);
                }
            }
        }
    }
}

proof fn lemma_chain_in_range<T>(nodes: Seq<Node<T>>, e: int, fuel: nat)
    ensures
        forall|k: int|
            0 <= k < chain_ids(nodes, e, fuel).len() ==> 0 <= #[trigger] chain_ids(nodes, e, fuel)[k]
                < nodes.len(),
    decreases fuel,
{
    if fuel == 0 || e < 0 || e >= nodes.len() {
    } else if let Some(p) = nodes[e].parent {
        lemma_chain_in_range(nodes, p as int, (fuel - 1) as nat);
        let rest = chain_ids(nodes, p as int, (fuel - 1) as nat);
        assert forall|k: int| 0 < k < chain_ids(nodes, e, fuel).len() implies #[trigger] chain_ids(
            nodes,
            e,
            fuel,
        )[k] == rest[k - 1] by {}
    }
}

/// Results are mapped back in submission order: when the submitted entities are
/// distinct, the `j`-th result becomes the local transform of the `j`-th entity.
pub proof fn results_follow_submission_order<T>(
    nodes: Seq<Node<T>>,
    ents: Seq<usize>,
    vals: Seq<T>,
    j: int,
)
    requires
        0 <= j < pair_count(ents, vals),
        ents[j] < nodes.len(),
        ents.no_duplicates(),
    ensures
        edited(nodes, ents, vals)[ents[j] as int].local == Some(vals[j]),
        edited(nodes, ents, vals)[ents[j] as int].parent == nodes[ents[j] as int].parent,
{
    lemma_last_edit_unique(ents, j, pair_count(ents, vals));
}

/// Writing back an edit leaves every entity outside the batch as it was, so a parent
/// that is not itself edited keeps its stored local transform; and an entity none of
/// whose ancestors (itself included) is edited, such as the sibling of an edited
/// child, keeps its ancestry and the local transforms its world transform is computed from.
pub proof fn edit_preserves_unedited_hierarchy<T>(
    nodes: Seq<Node<T>>,
    ents: Seq<usize>,
    vals: Seq<T>,
    e: int,
)
    requires
        0 <= e < nodes.len(),
        forall|j: int|
            0 <= j < pair_count(ents, vals) ==> !ancestry(nodes, e).contains(#[trigger] ents[j] as int),
    ensures
        edited(nodes, ents, vals)[e] == nodes[e],
        ancestry(edited(nodes, ents, vals), e) == ancestry(nodes, e),
        locals_along(edited(nodes, ents, vals), e) == locals_along(nodes, e),
{
    let m = pair_count(ents, vals);
    let after = edited(nodes, ents, vals);
    let chain = ancestry(nodes, e);
    lemma_chain_in_range(nodes, e, nodes.len());
    assert forall|i: int| 0 <= i < nodes.len() implies (#[trigger] after[i]).parent
        == nodes[i].parent by {
        lemma_last_edit_bounds(ents, i, m);
    }
    assert forall|k: int| 0 <= k < chain.len() implies after[#[trigger] chain[k]].local
        == nodes[chain[k]].local by {
        lemma_last_edit_bounds(ents, chain[k], m);
        if last_edit(ents, chain[k], m) >= 0 {
            assert(chain.contains(ents[last_edit(ents, chain[k], m)] as int));
        }
    }
    assert(chain[0] == e);
    lemma_last_edit_bounds(ents, e, m);
    if last_edit(ents, e, m) >= 0 {
        assert(chain.contains(ents[last_edit(ents, e, m)] as int));
    }
    lemma_chains_agree(nodes, after, e, nodes.len());
}

/// Writing back, for every submitted entity, the local transform it already has leaves
/// the scene exactly as it was.
pub proof fn rewriting_current_locals_changes_nothing<T>(
    nodes: Seq<Node<T>>,
    ents: Seq<usize>,
    vals: Seq<T>,
)
    requires
        forall|j: int|
            0 <= j < pair_count(ents, vals) && ents[j] < nodes.len() ==> nodes[#[trigger] ents[j] as int].local
                == Some(vals[j]),
    ensures
        edited(nodes, ents, vals) == nodes,
{
    let m = pair_count(ents, vals);
    assert forall|i: int| 0 <= i < nodes.len() implies #[trigger] edited(nodes, ents, vals)[i]
        == nodes[i] by {
        lemma_last_edit_bounds(ents, i, m);
    }
    assert(edited(nodes, ents, vals) =~= nodes);
}

} // verus!
