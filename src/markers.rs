use vstd::prelude::*;

verus! {

/// The kinds of non-visual entity that get an indicator mesh in the editor viewport.
#[derive(Clone, Copy, PartialEq, Eq, Structural, Debug)]
pub enum MarkerKind {
    PointLight,
    DirectionalLight,
    Camera,
}

/// An entity as marker synthesis sees it.
#[derive(Clone, Copy, PartialEq, Eq, Debug)]
pub struct MarkerEntity {
    /// The kind of indicator this entity should carry, if any.
    pub target: Option<MarkerKind>,
    /// Set once the entity was given its indicator.
    pub has_marker: bool,
    /// Set on an indicator entity itself: the kind it stands for.
    pub indicator: Option<MarkerKind>,
    pub parent: Option<usize>,
}

/// The entities of a world; an entity is its index in `entities`.
pub struct MarkerWorld {
    pub entities: Vec<MarkerEntity>,
}

pub open spec fn target_kind_spec(
    point_light: bool,
    directional_light: bool,
    camera: bool,
    editor_camera: bool,
) -> Option<MarkerKind> {
    if point_light {
        Some(MarkerKind::PointLight)
    } else if directional_light {
        Some(MarkerKind::DirectionalLight)
    } else if camera && !editor_camera {
        Some(MarkerKind::Camera)
    } else {
        None
    }
}

/// The indicator an entity should carry, from the components it has. A point light wins
/// over a directional light, which wins over a camera; the editor's own camera gets none.
pub fn target_kind(point_light: bool, directional_light: bool, camera: bool, editor_camera: bool) -> (r:
    Option<MarkerKind>)
    ensures
        r == target_kind_spec(point_light, directional_light, camera, editor_camera),
{
    if point_light {
        Some(MarkerKind::PointLight)
    } else if directional_light {
        Some(MarkerKind::DirectionalLight)
    } else if camera && !editor_camera {
        Some(MarkerKind::Camera)
    } else {
        None
    }
}

pub open spec fn marker_name_spec(kind: MarkerKind) -> Seq<char> {
    match kind {
        MarkerKind::PointLight => "PointLight Gizmo"@,
        MarkerKind::DirectionalLight => "DirectionalLight Gizmo"@,
        MarkerKind::Camera => "Camera Gizmo"@,
    }
}

impl MarkerKind {
    /// The display name given to an indicator of this kind.
    pub fn marker_name(&self) -> (r: &'static str)
        ensures
            r@ == marker_name_spec(*self),
    {
        match self {
            MarkerKind::PointLight => "PointLight Gizmo",
            MarkerKind::DirectionalLight => "DirectionalLight Gizmo",
            MarkerKind::Camera => "Camera Gizmo",
        }
    }

    /// Whether the marked entity itself must be made visible so that its indicator
    /// child is drawn (cameras carry no visibility of their own).
    pub fn forces_visibility(&self) -> (r: bool)
        ensures
            r == (*self == MarkerKind::Camera),
    {
        match self {
            MarkerKind::Camera => true,
            _ => false,
        }
    }
}

/// The entity should get an indicator and has none yet.
pub open spec fn eligible(e: MarkerEntity) -> bool {
    e.target is Some && !e.has_marker
}

/// The entity as it stands after synthesis visited it.
pub open spec fn marked(e: MarkerEntity) -> MarkerEntity {
    if eligible(e) {
        MarkerEntity { has_marker: true, ..e }
    } else {
        e
    }
}

/// The indicator child described by a spawn record (parent index, kind).
pub open spec fn indicator_for(spawn: (usize, MarkerKind)) -> MarkerEntity {
    MarkerEntity { target: None, has_marker: false, indicator: Some(spawn.1), parent: Some(spawn.0) }
}

/// The indicators to spawn for the first `k` entities: one for each eligible entity,
/// in index order, with its parent and kind.
pub open spec fn spawns_upto(s: Seq<MarkerEntity>, k: int) -> Seq<(usize, MarkerKind)>
    decreases k,
{
    if k <= 0 {
        seq![]
    } else if eligible(s[k - 1]) {
        spawns_upto(s, k - 1).push(((k - 1) as usize, s[k - 1].target->Some_0))
    } else {
        spawns_upto(s, k - 1)
    }
}

pub open spec fn spawns(s: Seq<MarkerEntity>) -> Seq<(usize, MarkerKind)> {
    spawns_upto(s, s.len() as int)
}

/// The world after one synthesis pass: every eligible entity is marked, and one
/// indicator child per eligible entity is appended.
pub open spec fn after_synthesis(s: Seq<MarkerEntity>) -> Seq<MarkerEntity> {
    s.map_values(|e: MarkerEntity| marked(e)) + spawns(s).map_values(
        |p: (usize, MarkerKind)| indicator_for(p),
    )
}

/// Marks every entity that should carry an indicator and has none, and appends one
/// indicator child for each; returns the spawned children's parents and kinds, in order.
pub fn add_gizmo_markers(world: &mut MarkerWorld) -> (spawned: Vec<(usize, MarkerKind)>)
    ensures
        spawned@ == spawns(old(world).entities@),
        final(world).entities@ == after_synthesis(old(world).entities@),
{
    let ghost start = world.entities@;
    let n = world.entities.len();
    let mut spawned: Vec<(usize, MarkerKind)> = Vec::new();
    let mut i: usize = 0;
    while i < n
        invariant
            n == start.len(),
            i <= n,
            world.entities@.len() == n,
            forall|j: int|
                0 <= j < n ==> #[trigger] world.entities@[j] == if j < i {
                    marked(start[j])
                } else {
                    start[j]
                },
            spawned@ == spawns_upto(start, i as int),
        decreases n - i,
    {
        let e = world.entities[i];
        if let Some(kind) = e.target {
            if !e.has_marker {
                world.entities.set(i, MarkerEntity { has_marker: true, ..e });
                spawned.push((i, kind));
            }
        }
        i += 1;
    }
    let ghost marked_all = start.map_values(|e: MarkerEntity| marked(e));
    assert(world.entities@ =~= marked_all);
    let mut j: usize = 0;
    while j < spawned.len()
        invariant
            spawned@ == spawns(start),
            j <= spawned@.len(),
            world.entities@ == marked_all + spawned@.take(j as int).map_values(
                |p: (usize, MarkerKind)| indicator_for(p),
            ),
        decreases spawned@.len() - j,
    {
        let (parent, kind) = spawned[j];
        world.entities.push(
            MarkerEntity { target: None, has_marker: false, indicator: Some(kind), parent: Some(parent) },
        );
        proof {
            assert(spawned@.take(j + 1) =~= spawned@.take(j as int).push(spawned@[j as int]));
        }
        j += 1;
        assert(world.entities@ =~= marked_all + spawned@.take(j as int).map_values(
            |p: (usize, MarkerKind)| indicator_for(p),
        ));
    }
    assert(spawned@.take(j as int) =~= spawned@);
    spawned
}

/// The entity is an indicator child of entity `i`.
pub open spec fn is_indicator_of(e: MarkerEntity, i: usize) -> bool {
    e.parent == Some(i) && e.indicator is Some
}

/// How many indicator children entity `i` has in `s`.
pub open spec fn indicators_of(s: Seq<MarkerEntity>, i: usize) -> nat
    decreases s.len(),
{
    if s.len() == 0 {
        0
    } else {
        indicators_of(s.drop_last(), i) + if is_indicator_of(s.last(), i) {
            1nat
        } else {
            0nat
        }
    }
}

proof fn lemma_indicators_concat(a: Seq<MarkerEntity>, b: Seq<MarkerEntity>, i: usize)
    ensures
        indicators_of(a + b, i) == indicators_of(a, i) + indicators_of(b, i),
    decreases b.len(),
{
    if b.len() > 0 {
        assert((a + b).drop_last() =~= a + b.drop_last());
        lemma_indicators_concat(a, b.drop_last(), i);
    } else {
        assert(a + b =~= a);
    }
}

proof fn lemma_indicators_marked(s: Seq<MarkerEntity>, i: usize)
    ensures
        indicators_of(s.map_values(|e: MarkerEntity| marked(e)), i) == indicators_of(s, i),
    decreases s.len(),
{
    if s.len() > 0 {
        assert(s.map_values(|e: MarkerEntity| marked(e)).drop_last() =~= s.drop_last().map_values(
            |e: MarkerEntity| marked(e),
        ));
        lemma_indicators_marked(s.drop_last(), i);
    }
}

proof fn lemma_indicators_spawned(s: Seq<MarkerEntity>, k: int, i: usize)
    requires
        0 <= k <= s.len() <= usize::MAX,
    ensures
        indicators_of(spawns_upto(s, k).map_values(|p: (usize, MarkerKind)| indicator_for(p)), i)
            == if (i as int) < k && eligible(s[i as int]) {
            1nat
        } else {
            0nat
        },
    decreases k,
{
    if k > 0 {
        lemma_indicators_spawned(s, k - 1, i);
        let prev = spawns_upto(s, k - 1);
        if eligible(s[k - 1]) {
            let q = ((k - 1) as usize, s[k - 1].target->Some_0);
            assert(prev.push(q).map_values(|p: (usize, MarkerKind)| indicator_for(p)).drop_last()
                =~= prev.map_values(|p: (usize, MarkerKind)| indicator_for(p)));
        }
    }
}

proof fn lemma_nothing_eligible(s: Seq<MarkerEntity>, k: int)
    requires
        0 <= k <= s.len(),
        forall|j: int| 0 <= j < s.len() ==> !eligible(#[trigger] s[j]),
    ensures
        spawns_upto(s, k) == Seq::<(usize, MarkerKind)>::empty(),
    decreases k,
{
    if k > 0 {
        lemma_nothing_eligible(s, k - 1);
    }
}

/// A second synthesis pass finds nothing to do: it spawns no indicator and leaves the
/// world exactly as the first pass left it.
pub proof fn marker_synthesis_idempotent(s: Seq<MarkerEntity>)
    ensures
        spawns(after_synthesis(s)) == Seq::<(usize, MarkerKind)>::empty(),
        after_synthesis(after_synthesis(s)) == after_synthesis(s),
{
    let once = after_synthesis(s);
    let n = s.len() as int;
    assert forall|j: int| 0 <= j < once.len() implies !eligible(#[trigger] once[j]) by {
        if j >= n {
            let sp = spawns(s).map_values(|p: (usize, MarkerKind)| indicator_for(p));
            assert(once[j] == sp[j - n]);
        }
    }
    lemma_nothing_eligible(once, once.len() as int);
    assert(once.map_values(|e: MarkerEntity| marked(e)) =~= once);
    assert(once + Seq::<(usize, MarkerKind)>::empty().map_values(
        |p: (usize, MarkerKind)| indicator_for(p),
    ) =~= once);
}

/// Synthesis gives each eligible entity exactly one more indicator child and every other
/// entity none; so an eligible entity that had no indicator has exactly one after any
/// number of passes.
pub proof fn one_indicator_per_eligible_entity(s: Seq<MarkerEntity>, i: usize)
    requires
        (i as int) < s.len() <= usize::MAX,
    ensures
        indicators_of(after_synthesis(s), i) == indicators_of(s, i) + if eligible(s[i as int]) {
            1nat
        } else {
            0nat
        },
        eligible(s[i as int]) && indicators_of(s, i) == 0 ==> indicators_of(
            after_synthesis(after_synthesis(s)),
            i,
        ) == 1,
{
    let marked_all = s.map_values(|e: MarkerEntity| marked(e));
    let sp = spawns(s).map_values(|p: (usize, MarkerKind)| indicator_for(p));
    lemma_indicators_concat(marked_all, sp, i);
    lemma_indicators_marked(s, i);
    lemma_indicators_spawned(s, s.len() as int, i);
    marker_synthesis_idempotent(s);
}

} // verus!
