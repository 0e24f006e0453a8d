//! Depth items, the scene collector and the depth sorter.
//!
//! The collector walks the scene tree composing transforms down each branch
//! and emits one depth item per entity that carries both a sprite and a
//! transform. The sorter orders the items ascending by the z component of
//! their transforms, keeping the traversal order of equal depths (a stable
//! sort), and reports an error when any depth is invalid.
use vstd::prelude::*;
use crate::transform::{Transform, Depth, compose, compose_spec};
use crate::scene::Scene;
use crate::RenderError;

verus! {

/// A renderable found by the collector: the chain of ancestor indices from
/// the traversal root down to the entity, plus its fully composed
/// camera-space transform. Items live for one frame only.
#[derive(Clone, Debug, PartialEq, Eq)]
pub struct DepthItem {
    pub path: Vec<usize>,
    pub transform: Transform,
}

/// The mathematical model of a depth item: its path as a sequence and its
/// transform.
pub open spec fn item_model(d: DepthItem) -> (Seq<usize>, Transform) {
    (d.path@, d.transform)
}

/// The models of a whole item list.
pub open spec fn models(s: Seq<DepthItem>) -> Seq<(Seq<usize>, Transform)> {
    s.map_values(|d: DepthItem| item_model(d))
}

proof fn lemma_models_push(s: Seq<DepthItem>, d: DepthItem)
    ensures
        models(s.push(d)) == models(s).push(item_model(d)),
{
    assert(models(s.push(d)) =~= models(s).push(item_model(d)));
}

proof fn lemma_models_drop_last(s: Seq<DepthItem>)
    requires
        s.len() > 0,
    ensures
        models(s.drop_last()) == models(s).drop_last(),
{
    assert(models(s.drop_last()) =~= models(s).drop_last());
}

/// The item (if any) that the entity at `idx` contributes: one item when it
/// carries both a sprite and a transform, composed with the inherited
/// offset and reached by `path` extended with the entity itself.
pub open spec fn sprite_item(scene: Scene, idx: usize, path: Seq<usize>, offset: Transform)
    -> Seq<(Seq<usize>, Transform)>
{
    if idx < scene.nodes@.len() {
        let node = scene.nodes@[idx as int];
        match (node.sprite, node.transform) {
            (Some(_), Some(t)) => seq![(path.push(idx), compose_spec(t, offset))],
            _ => Seq::empty(),
        }
    } else {
        Seq::empty()
    }
}

/// The items the entities of one container contribute themselves (no
/// recursion into children), in container order, starting at position `k`.
pub open spec fn level_items(
    scene: Scene,
    container: Seq<usize>,
    k: int,
    path: Seq<usize>,
    offset: Transform,
) -> Seq<(Seq<usize>, Transform)>
    decreases container.len() - k,
{
    if k < 0 || k >= container.len() {
        Seq::empty()
    } else {
        sprite_item(scene, container[k], path, offset)
            + level_items(scene, container, k + 1, path, offset)
    }
}

/// The items contributed by the subtrees of a container's entities, from
/// position `k` on: each entity's children are walked with the offset
/// composed with the entity's own transform when it has one, and with the
/// path extended by the entity. `bound` is a lower bound on the container's
/// indices, which keeps the recursion well-founded on the arena.
pub open spec fn child_items(
    scene: Scene,
    container: Seq<usize>,
    k: int,
    bound: int,
    path: Seq<usize>,
    offset: Transform,
) -> Seq<(Seq<usize>, Transform)>
    decreases scene.nodes@.len() - bound, container.len() - k, 0int,
    when 0 <= bound <= scene.nodes@.len()
{
    if k < 0 || k >= container.len() {
        Seq::empty()
    } else {
        let idx = container[k];
        let rest = child_items(scene, container, k + 1, bound, path, offset);
        if bound <= idx < scene.nodes@.len() {
            let node = scene.nodes@[idx as int];
            let sub_offset = match node.transform {
                Some(t) => compose_spec(t, offset),
                None => offset,
            };
            let sub = collect_container(
                scene, node.children@, idx + 1, path.push(idx), sub_offset);
            sub + rest
        } else {
            rest
        }
    }
}

/// Everything a container contributes: first the items of the entities
/// themselves, in container order, then the items of their subtrees.
pub open spec fn collect_container(
    scene: Scene,
    container: Seq<usize>,
    bound: int,
    path: Seq<usize>,
    offset: Transform,
) -> Seq<(Seq<usize>, Transform)>
    decreases scene.nodes@.len() - bound, container.len(), 1int,
    when 0 <= bound <= scene.nodes@.len()
{
    level_items(scene, container, 0, path, offset)
        + child_items(scene, container, 0, bound, path, offset)
}

/// The complete, order-stable item list of a scene under a base offset.
pub open spec fn collect_spec(scene: Scene, offset: Transform) -> Seq<(Seq<usize>, Transform)> {
    collect_container(scene, scene.roots@, 0, Seq::empty(), offset)
}

fn level_pass(
    scene: &Scene,
    container: &Vec<usize>,
    path: &Vec<usize>,
    offset: &Transform,
    out: &mut Vec<DepthItem>,
)
    ensures
        models(final(out)@) == models(old(out)@)
            + level_items(*scene, container@, 0, path@, *offset),
{
    let n = container.len();
    let mut k: usize = 0;
    while k < n
        invariant
            n == container@.len(),
            k <= n,
            models(out@) == models(old(out)@) + level_items(*scene, container@, 0, path@, *offset)
                .take(models(out@).len() - models(old(out)@).len()),
            level_items(*scene, container@, 0, path@, *offset)
                == level_items(*scene, container@, 0, path@, *offset)
                    .take(models(out@).len() - models(old(out)@).len())
                + level_items(*scene, container@, k as int, path@, *offset),
        decreases n - k,
    {
        let idx = container[k];
        let ghost pre = out@;
        if idx < scene.nodes.len() {
            let node = &scene.nodes[idx];
            match (&node.sprite, &node.transform) {
                (Some(_), Some(t)) => {
                    let mut item_path = path.clone();
                    item_path.push(idx);
                    let composed = compose(t, offset);
                    out.push(DepthItem { path: item_path, transform: composed });
                    proof {
                        lemma_models_push(pre, DepthItem {
                            path: out@[out@.len() - 1].path,
                            transform: composed,
                        });
                        assert(models(out@) =~= models(pre)
                            + sprite_item(*scene, idx, path@, *offset));
                    }
                }
                _ => {
                    assert(sprite_item(*scene, idx, path@, *offset) =~= Seq::empty());
                }
            }
        } else {
            assert(sprite_item(*scene, idx, path@, *offset) =~= Seq::empty());
        }
        proof {
            let full = level_items(*scene, container@, 0, path@, *offset);
            let done_pre = models(pre).len() - models(old(out)@).len();
            let done_post = models(out@).len() - models(old(out)@).len();
            assert(level_items(*scene, container@, k as int, path@, *offset)
                == sprite_item(*scene, idx, path@, *offset)
                    + level_items(*scene, container@, k as int + 1, path@, *offset));
            assert(models(out@) =~= models(old(out)@) + full.take(done_post));
            assert(full =~= full.take(done_post)
                + level_items(*scene, container@, k as int + 1, path@, *offset));
        }
        k = k + 1;
    }
    proof {
        let full = level_items(*scene, container@, 0, path@, *offset);
        assert(level_items(*scene, container@, n as int, path@, *offset) =~= Seq::empty());
        assert(full =~= full.take(models(out@).len() - models(old(out)@).len()));
        assert(models(out@) =~= models(old(out)@) + full);
    }
}

fn child_pass(
    scene: &Scene,
    container: &Vec<usize>,
    Ghost(bound): Ghost<int>,
    path: &Vec<usize>,
    offset: &Transform,
    out: &mut Vec<DepthItem>,
)
    requires
        scene.well_formed(),
        0 <= bound <= scene.nodes@.len(),
        forall|j: int| 0 <= j < container@.len() ==> bound <= #[trigger] container@[j],
    ensures
        models(final(out)@) == models(old(out)@)
            + child_items(*scene, container@, 0, bound, path@, *offset),
    decreases scene.nodes@.len() - bound, container@.len(), 0int,
{
    let n = container.len();
    let mut k: usize = 0;
    while k < n
        invariant
            scene.well_formed(),
            0 <= bound <= scene.nodes@.len(),
            forall|j: int| 0 <= j < container@.len() ==> bound <= #[trigger] container@[j],
            n == container@.len(),
            k <= n,
            child_items(*scene, container@, 0, bound, path@, *offset)
                == models(out@).skip(models(old(out)@).len() as int)
                + child_items(*scene, container@, k as int, bound, path@, *offset),
            models(out@).take(models(old(out)@).len() as int) == models(old(out)@),
            out@.len() >= old(out)@.len(),
        decreases n - k,
    {
        let idx = container[k];
        let ghost pre = out@;
        if idx < scene.nodes.len() {
            let sub_offset = match &scene.nodes[idx].transform {
                Some(t) => compose(t, offset),
                None => *offset,
            };
            let mut sub_path = path.clone();
            sub_path.push(idx);
            let children = &scene.nodes[idx].children;
            assert(forall|j: int| 0 <= j < children@.len()
                ==> idx as int + 1 <= #[trigger] children@[j]);
            collect_pass(scene, children, Ghost(idx as int + 1), &sub_path, &sub_offset, out);
            proof {
                assert(models(out@) =~= models(pre) + collect_container(
                    *scene, scene.nodes@[idx as int].children@, idx as int + 1,
                    path@.push(idx), sub_offset));
            }
        }
        proof {
            assert(child_items(*scene, container@, k as int, bound, path@, *offset)
                == (models(out@).skip(models(pre).len() as int))
                    + child_items(*scene, container@, k as int + 1, bound, path@, *offset));
            assert(models(out@).skip(models(old(out)@).len() as int)
                =~= models(pre).skip(models(old(out)@).len() as int)
                    + models(out@).skip(models(pre).len() as int));
            assert(models(out@).take(models(old(out)@).len() as int) =~= models(old(out)@));
        }
        k = k + 1;
    }
    proof {
        assert(child_items(*scene, container@, n as int, bound, path@, *offset)
            =~= Seq::empty());
        assert(models(out@) =~= models(out@).take(models(old(out)@).len() as int)
            + models(out@).skip(models(old(out)@).len() as int));
    }
}

/// Walks one container: the entities' own items first, then their subtrees.
fn collect_pass(
    scene: &Scene,
    container: &Vec<usize>,
    Ghost(bound): Ghost<int>,
    path: &Vec<usize>,
    offset: &Transform,
    out: &mut Vec<DepthItem>,
)
    requires
        scene.well_formed(),
        0 <= bound <= scene.nodes@.len(),
        forall|j: int| 0 <= j < container@.len() ==> bound <= #[trigger] container@[j],
    ensures
        models(final(out)@) == models(old(out)@)
            + collect_container(*scene, container@, bound, path@, *offset),
    decreases scene.nodes@.len() - bound, container@.len(), 1int,
{
    level_pass(scene, container, path, offset, out);
    child_pass(scene, container, Ghost(bound), path, offset, out);
    proof {
        assert(models(out@) =~= models(old(out)@)
            + collect_container(*scene, container@, bound, path@, *offset));
    }
}

/// Collects every renderable entity of the scene: an entity contributes one
/// depth item when it has both a sprite and a transform; every entity's
/// subtree is walked whether or not the entity is renderable itself,
/// composing its transform into the offset when it has one.
pub fn collect_renderable_entities(scene: &Scene, transform_offset: &Transform)
    -> (out: Vec<DepthItem>)
    requires
        scene.well_formed(),
    ensures
        models(out@) == collect_spec(*scene, *transform_offset),
{
    let mut out: Vec<DepthItem> = Vec::new();
    let roots = &scene.roots;
    assert(forall|j: int| 0 <= j < roots@.len() ==> 0 <= #[trigger] roots@[j]);
    collect_pass(scene, roots, Ghost(0), &Vec::new(), transform_offset, &mut out);
    proof {
        assert(models(out@) =~= collect_spec(*scene, *transform_offset));
    }
    out
}

/// The depth key an item is sorted by. Only finite depths are ever sorted;
/// an invalid depth makes the sorter fail instead.
pub open spec fn depth_z(item: (Seq<usize>, Transform)) -> int {
    match item.1.z {
        Depth::Finite(v) => v as int,
        Depth::Invalid => 0,
    }
}

/// Whether any item carries an invalid (non-comparable) depth.
pub open spec fn has_invalid_depth(s: Seq<(Seq<usize>, Transform)>) -> bool {
    exists|i: int| 0 <= i < s.len() && (#[trigger] s[i]).1.z is Invalid
}

/// Stable insertion of `x` into a depth-sorted sequence: `x` lands after
/// every item whose depth does not exceed its own.
pub open spec fn insert_sorted(s: Seq<(Seq<usize>, Transform)>, x: (Seq<usize>, Transform))
    -> Seq<(Seq<usize>, Transform)>
    decreases s.len(),
{
    if s.len() == 0 {
        seq![x]
    } else if depth_z(x) < depth_z(s.last()) {
        insert_sorted(s.drop_last(), x).push(s.last())
    } else {
        s.push(x)
    }
}

/// Stable sort by depth: the items in ascending depth order, items of equal
/// depth keeping their collection order.
pub open spec fn sort_by_depth_spec(s: Seq<(Seq<usize>, Transform)>)
    -> Seq<(Seq<usize>, Transform)>
    decreases s.len(),
{
    if s.len() == 0 {
        Seq::empty()
    } else {
        insert_sorted(sort_by_depth_spec(s.drop_last()), s.last())
    }
}

spec fn exec_z(d: DepthItem) -> int {
    depth_z(item_model(d))
}

fn insert_rec(v: Vec<DepthItem>, x: DepthItem) -> (r: Vec<DepthItem>)
    ensures
        models(r@) == insert_sorted(models(v@), item_model(x)),
    decreases v@.len(),
{
    let ghost pre = v@;
    let mut v = v;
    if v.len() == 0 {
        v.push(x);
        proof { lemma_models_push(pre, x); }
        v
    } else {
        let xz_invalid = matches!(x.transform.z, Depth::Invalid);
        let xz: i64 = match x.transform.z {
            Depth::Finite(z) => z,
            Depth::Invalid => 0,
        };
        let lz: i64 = match v[v.len() - 1].transform.z {
            Depth::Finite(z) => z,
            Depth::Invalid => 0,
        };
        assert(xz as int == depth_z(item_model(x)));
        assert(lz as int == depth_z(models(pre).last()));
        if xz < lz {
            let last = v.pop().unwrap();
            proof { lemma_models_drop_last(pre); }
            let mut r = insert_rec(v, x);
            let ghost mid = r@;
            r.push(last);
            proof {
                lemma_models_push(mid, last);
                assert(item_model(last) == models(pre).last());
            }
            r
        } else {
            v.push(x);
            proof { lemma_models_push(pre, x); }
            v
        }
    }
}

fn sort_rec(v: Vec<DepthItem>) -> (r: Vec<DepthItem>)
    ensures
        models(r@) == sort_by_depth_spec(models(v@)),
    decreases v@.len(),
{
    let ghost pre = v@;
    let mut v = v;
    if v.len() == 0 {
        assert(models(pre) =~= Seq::empty());
        v
    } else {
        let last = v.pop().unwrap();
        proof {
            lemma_models_drop_last(pre);
            assert(item_model(last) == models(pre).last());
        }
        let sorted = sort_rec(v);
        insert_rec(sorted, last)
    }
}

/// Sorts the collected items ascending by depth (stable: equal depths keep
/// their collection order). Fails with `InvalidDepth` — and only then —
/// when some item's depth is invalid, the reported form of a depth that
/// does not compare.
pub fn sort_by_depth(items: Vec<DepthItem>) -> (r: Result<Vec<DepthItem>, RenderError>)
    ensures
        match r {
            Ok(sorted) => !has_invalid_depth(models(items@))
                && models(sorted@) == sort_by_depth_spec(models(items@)),
            Err(e) => e == RenderError::InvalidDepth && has_invalid_depth(models(items@)),
        },
{
    let n = items.len();
    let mut k: usize = 0;
    while k < n
        invariant
            n == items@.len(),
            k <= n,
            forall|i: int| 0 <= i < k ==> !((#[trigger] models(items@)[i]).1.z is Invalid),
        decreases n - k,
    {
        if matches!(items[k].transform.z, Depth::Invalid) {
            assert(models(items@)[k as int].1.z is Invalid);
            return Err(RenderError::InvalidDepth);
        }
        k = k + 1;
    }
    Ok(sort_rec(items))
}

/// Whether a sequence is ascending by depth.
pub open spec fn z_sorted(s: Seq<(Seq<usize>, Transform)>) -> bool {
    forall|i: int, j: int| 0 <= i <= j < s.len()
        ==> depth_z(#[trigger] s[i]) <= depth_z(#[trigger] s[j])
}

proof fn lemma_insert_sorted_sorted(s: Seq<(Seq<usize>, Transform)>, x: (Seq<usize>, Transform))
    requires
        z_sorted(s),
    ensures
        z_sorted(insert_sorted(s, x)),
        insert_sorted(s, x).len() == s.len() + 1,
        forall|i: int| 0 <= i < insert_sorted(s, x).len()
            ==> depth_z(#[trigger] insert_sorted(s, x)[i]) <= depth_z(x)
                || depth_z(insert_sorted(s, x)[i]) <= depth_z(s.last()),
    decreases s.len(),
{
    if s.len() == 0 {
    } else if depth_z(x) < depth_z(s.last()) {
        assert(z_sorted(s.drop_last()));
        lemma_insert_sorted_sorted(s.drop_last(), x);
        let inner = insert_sorted(s.drop_last(), x);
        assert forall|i: int| 0 <= i < inner.len()
            implies depth_z(inner[i]) <= depth_z(s.last()) by {
            if s.len() > 1 {
                assert(depth_z(s.drop_last().last()) <= depth_z(s.last()));
            }
        }
        assert(z_sorted(inner.push(s.last())));
    } else {
        assert(z_sorted(s.push(x)));
    }
}

/// Depth ordering: after sorting, the items stand ascending by depth, so an
/// item with a strictly smaller finite depth is rasterized strictly before
/// (and thus may be overpainted by) any item with a larger one.
pub proof fn lemma_sort_by_depth_sorted(s: Seq<(Seq<usize>, Transform)>)
    ensures
        z_sorted(sort_by_depth_spec(s)),
        sort_by_depth_spec(s).len() == s.len(),
    decreases s.len(),
{
    if s.len() > 0 {
        lemma_sort_by_depth_sorted(s.drop_last());
        lemma_insert_sorted_sorted(sort_by_depth_spec(s.drop_last()), s.last());
    }
}

/// Depth ordering, pointwise: if the sorted list shows a strictly smaller
/// depth at position `i` than at position `j`, then `i` comes first.
pub proof fn lemma_depth_order(s: Seq<(Seq<usize>, Transform)>, i: int, j: int)
    requires
        0 <= i < sort_by_depth_spec(s).len(),
        0 <= j < sort_by_depth_spec(s).len(),
        depth_z(sort_by_depth_spec(s)[i]) < depth_z(sort_by_depth_spec(s)[j]),
    ensures
        i < j,
{
    lemma_sort_by_depth_sorted(s);
    if i >= j {
        assert(depth_z(sort_by_depth_spec(s)[j]) <= depth_z(sort_by_depth_spec(s)[i]));
    }
}

/// The subsequence of items whose depth is exactly `k`, in order.
pub open spec fn filter_by_z(s: Seq<(Seq<usize>, Transform)>, k: int)
    -> Seq<(Seq<usize>, Transform)>
    decreases s.len(),
{
    if s.len() == 0 {
        Seq::empty()
    } else if depth_z(s.last()) == k {
        filter_by_z(s.drop_last(), k).push(s.last())
    } else {
        filter_by_z(s.drop_last(), k)
    }
}

proof fn lemma_insert_sorted_filter(
    s: Seq<(Seq<usize>, Transform)>,
    x: (Seq<usize>, Transform),
    k: int,
)
    ensures
        filter_by_z(insert_sorted(s, x), k) == if depth_z(x) == k {
            filter_by_z(s, k).push(x)
        } else {
            filter_by_z(s, k)
        },
    decreases s.len(),
{
    reveal_with_fuel(filter_by_z, 3);
    if s.len() == 0 {
        assert(insert_sorted(s, x) =~= seq![x]);
        assert(seq![x].drop_last() =~= Seq::<(Seq<usize>, Transform)>::empty());
        assert(seq![x].last() == x);
    } else if depth_z(x) < depth_z(s.last()) {
        lemma_insert_sorted_filter(s.drop_last(), x, k);
        let inner = insert_sorted(s.drop_last(), x);
        let whole = inner.push(s.last());
        assert(insert_sorted(s, x) == whole);
        assert(whole.drop_last() =~= inner);
        assert(whole.last() == s.last());
        if depth_z(s.last()) == k {
            assert(depth_z(x) != k);
            assert(filter_by_z(whole, k) == filter_by_z(inner, k).push(s.last()));
            assert(filter_by_z(inner, k) == filter_by_z(s.drop_last(), k));
            assert(filter_by_z(s, k) == filter_by_z(s.drop_last(), k).push(s.last()));
        } else {
            assert(filter_by_z(whole, k) == filter_by_z(inner, k));
            assert(filter_by_z(s, k) == filter_by_z(s.drop_last(), k));
        }
    } else {
        let whole = s.push(x);
        assert(whole.drop_last() =~= s);
        assert(whole.last() == x);
    }
}

/// Stability: the items of any one depth stand in the same order after
/// sorting as they did when collected.
pub proof fn lemma_sort_by_depth_stable(s: Seq<(Seq<usize>, Transform)>, k: int)
    ensures
        filter_by_z(sort_by_depth_spec(s), k) == filter_by_z(s, k),
    decreases s.len(),
{
    if s.len() > 0 {
        lemma_sort_by_depth_stable(s.drop_last(), k);
        lemma_insert_sorted_filter(sort_by_depth_spec(s.drop_last()), s.last(), k);
    }
}

proof fn lemma_spriteless_level(
    scene: Scene,
    container: Seq<usize>,
    k: int,
    path: Seq<usize>,
    offset: Transform,
)
    requires
        forall|i: int| 0 <= i < scene.nodes@.len()
            ==> (#[trigger] scene.nodes@[i]).sprite is None,
    ensures
        level_items(scene, container, k, path, offset).len() == 0,
    decreases container.len() - k,
{
    if 0 <= k < container.len() {
        lemma_spriteless_level(scene, container, k + 1, path, offset);
    }
}

proof fn lemma_spriteless_children(
    scene: Scene,
    container: Seq<usize>,
    k: int,
    bound: int,
    path: Seq<usize>,
    offset: Transform,
)
    requires
        0 <= bound <= scene.nodes@.len(),
        forall|i: int| 0 <= i < scene.nodes@.len()
            ==> (#[trigger] scene.nodes@[i]).sprite is None,
    ensures
        child_items(scene, container, k, bound, path, offset).len() == 0,
    decreases scene.nodes@.len() - bound, container.len() - k, 0int,
{
    if 0 <= k < container.len() {
        let idx = container[k];
        lemma_spriteless_children(scene, container, k + 1, bound, path, offset);
        if bound <= idx < scene.nodes@.len() {
            let node = scene.nodes@[idx as int];
            let sub_offset = match node.transform {
                Some(t) => compose_spec(t, offset),
                None => offset,
            };
            lemma_spriteless_container(
                scene, node.children@, idx + 1, path.push(idx), sub_offset);
        }
    }
}

proof fn lemma_spriteless_container(
    scene: Scene,
    container: Seq<usize>,
    bound: int,
    path: Seq<usize>,
    offset: Transform,
)
    requires
        0 <= bound <= scene.nodes@.len(),
        forall|i: int| 0 <= i < scene.nodes@.len()
            ==> (#[trigger] scene.nodes@[i]).sprite is None,
    ensures
        collect_container(scene, container, bound, path, offset).len() == 0,
    decreases scene.nodes@.len() - bound, container.len(), 1int,
{
    lemma_spriteless_level(scene, container, 0, path, offset);
    lemma_spriteless_children(scene, container, 0, bound, path, offset);
}

/// A scene in which no entity carries a sprite collects no depth items:
/// rendering it touches nothing, so the frame shows the background color
/// alone.
pub proof fn lemma_spriteless_scene_collects_nothing(scene: Scene, offset: Transform)
    requires
        forall|i: int| 0 <= i < scene.nodes@.len()
            ==> (#[trigger] scene.nodes@[i]).sprite is None,
    ensures
        collect_spec(scene, offset).len() == 0,
{
    lemma_spriteless_container(scene, scene.roots@, 0, Seq::empty(), offset);
}

proof fn lemma_level_paths_valid(
    scene: Scene,
    container: Seq<usize>,
    k: int,
    path: Seq<usize>,
    offset: Transform,
)
    ensures
        forall|i: int| 0 <= i < level_items(scene, container, k, path, offset).len()
            ==> ({
                let p = (#[trigger] level_items(scene, container, k, path, offset)[i]).0;
                p.len() > 0 && p.last() < scene.nodes@.len()
            }),
    decreases container.len() - k,
{
    if 0 <= k < container.len() {
        lemma_level_paths_valid(scene, container, k + 1, path, offset);
        let si = sprite_item(scene, container[k], path, offset);
        let rest = level_items(scene, container, k + 1, path, offset);
        let whole = level_items(scene, container, k, path, offset);
        assert(whole == si + rest);
        assert forall|i: int| #![trigger whole[i]] 0 <= i < whole.len()
            implies whole[i].0.len() > 0 && whole[i].0.last() < scene.nodes@.len() by {
            if i < si.len() {
                assert(whole[i] == si[0]);
                assert(si[0].0 == path.push(container[k]));
                assert(path.push(container[k]).last() == container[k]);
            } else {
                assert(whole[i] == rest[i - si.len()]);
            }
        }
    }
}

proof fn lemma_child_paths_valid(
    scene: Scene,
    container: Seq<usize>,
    k: int,
    bound: int,
    path: Seq<usize>,
    offset: Transform,
)
    requires
        0 <= bound <= scene.nodes@.len(),
    ensures
        forall|i: int| 0 <= i < child_items(scene, container, k, bound, path, offset).len()
            ==> ({
                let p = (#[trigger] child_items(scene, container, k, bound, path, offset)[i]).0;
                p.len() > 0 && p.last() < scene.nodes@.len()
            }),
    decreases scene.nodes@.len() - bound, container.len() - k, 0int,
{
    if 0 <= k < container.len() {
        let idx = container[k];
        lemma_child_paths_valid(scene, container, k + 1, bound, path, offset);
        let rest = child_items(scene, container, k + 1, bound, path, offset);
        let whole = child_items(scene, container, k, bound, path, offset);
        if bound <= idx < scene.nodes@.len() {
            let node = scene.nodes@[idx as int];
            let sub_offset = match node.transform {
                Some(t) => compose_spec(t, offset),
                None => offset,
            };
            lemma_container_paths_valid(
                scene, node.children@, idx + 1, path.push(idx), sub_offset);
            let sub = collect_container(
                scene, node.children@, idx + 1, path.push(idx), sub_offset);
            assert(whole == sub + rest);
            assert forall|i: int| #![trigger whole[i]] 0 <= i < whole.len()
                implies whole[i].0.len() > 0 && whole[i].0.last() < scene.nodes@.len() by {
                if i < sub.len() {
                    assert(whole[i] == sub[i]);
                } else {
                    assert(whole[i] == rest[i - sub.len()]);
                }
            }
        } else {
            assert(whole == rest);
        }
    }
}

proof fn lemma_container_paths_valid(
    scene: Scene,
    container: Seq<usize>,
    bound: int,
    path: Seq<usize>,
    offset: Transform,
)
    requires
        0 <= bound <= scene.nodes@.len(),
    ensures
        forall|i: int| 0 <= i < collect_container(scene, container, bound, path, offset).len()
            ==> ({
                let p = (#[trigger] collect_container(scene, container, bound, path, offset)[i]).0;
                p.len() > 0 && p.last() < scene.nodes@.len()
            }),
    decreases scene.nodes@.len() - bound, container.len(), 1int,
{
    lemma_level_paths_valid(scene, container, 0, path, offset);
    lemma_child_paths_valid(scene, container, 0, bound, path, offset);
    let lv = level_items(scene, container, 0, path, offset);
    let ch = child_items(scene, container, 0, bound, path, offset);
    let whole = collect_container(scene, container, bound, path, offset);
    assert(whole == lv + ch);
    assert forall|i: int| #![trigger whole[i]] 0 <= i < whole.len()
        implies whole[i].0.len() > 0 && whole[i].0.last() < scene.nodes@.len() by {
        if i < lv.len() {
            assert(whole[i] == lv[i]);
        } else {
            assert(whole[i] == ch[i - lv.len()]);
        }
    }
}

/// Every collected item's path re-locates its entity: it is nonempty and
/// its last entry is a live arena index.
pub proof fn lemma_collect_paths_valid(scene: Scene, offset: Transform)
    ensures
        forall|i: int| 0 <= i < collect_spec(scene, offset).len()
            ==> ({
                let p = (#[trigger] collect_spec(scene, offset)[i]).0;
                p.len() > 0 && p.last() < scene.nodes@.len()
            }),
{
    lemma_container_paths_valid(scene, scene.roots@, 0, Seq::empty(), offset);
}

proof fn lemma_insert_sorted_membership(s: Seq<(Seq<usize>, Transform)>, x: (Seq<usize>, Transform))
    ensures
        forall|i: int| 0 <= i < insert_sorted(s, x).len()
            ==> #[trigger] insert_sorted(s, x)[i] == x
                || exists|j: int| 0 <= j < s.len() && s[j] == insert_sorted(s, x)[i],
    decreases s.len(),
{
    if s.len() == 0 {
    } else if depth_z(x) < depth_z(s.last()) {
        lemma_insert_sorted_membership(s.drop_last(), x);
        let inner = insert_sorted(s.drop_last(), x);
        let whole = inner.push(s.last());
        assert forall|i: int| 0 <= i < whole.len()
            implies #[trigger] whole[i] == x
                || exists|j: int| 0 <= j < s.len() && s[j] == whole[i] by {
            if i < inner.len() {
                assert(whole[i] == inner[i]);
                if inner[i] != x {
                    let j = choose|j: int| 0 <= j < s.drop_last().len()
                        && s.drop_last()[j] == inner[i];
                    assert(s[j] == whole[i]);
                }
            } else {
                assert(whole[i] == s.last());
                assert(s[s.len() - 1] == whole[i]);
            }
        }
    } else {
        let whole = s.push(x);
        assert forall|i: int| 0 <= i < whole.len()
            implies #[trigger] whole[i] == x
                || exists|j: int| 0 <= j < s.len() && s[j] == whole[i] by {
            if i < s.len() {
                assert(s[i] == whole[i]);
            }
        }
    }
}

/// Sorting permutes: every item of the sorted sequence is an item of the
/// collected one.
pub proof fn lemma_sort_membership(s: Seq<(Seq<usize>, Transform)>)
    ensures
        forall|i: int| 0 <= i < sort_by_depth_spec(s).len()
            ==> exists|j: int| 0 <= j < s.len()
                && (#[trigger] s[j]) == #[trigger] sort_by_depth_spec(s)[i],
    decreases s.len(),
{
    if s.len() > 0 {
        lemma_sort_membership(s.drop_last());
        lemma_insert_sorted_membership(sort_by_depth_spec(s.drop_last()), s.last());
        let whole = sort_by_depth_spec(s);
        assert forall|i: int| #![trigger whole[i]] 0 <= i < whole.len()
            implies exists|j: int| 0 <= j < s.len() && (#[trigger] s[j]) == whole[i] by {
            if whole[i] == s.last() {
                assert(s[s.len() - 1] == whole[i]);
            } else {
                let jin = choose|jin: int| 0 <= jin < sort_by_depth_spec(s.drop_last()).len()
                    && sort_by_depth_spec(s.drop_last())[jin] == whole[i];
                let j = choose|j: int| 0 <= j < s.drop_last().len()
                    && s.drop_last()[j] == sort_by_depth_spec(s.drop_last())[jin];
                assert(s[j] == whole[i]);
            }
        }
    }
}

} // verus!
