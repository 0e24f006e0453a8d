//! The scene: a tree of entities held in an arena. Each node owns its
//! component slots (transform, sprite, mask, camera) and a list of child
//! indices. The tree shape is kept by construction: a child's arena index is
//! always strictly greater than its parent's, so traversals terminate and
//! the containment relation is acyclic.
use vstd::prelude::*;
use crate::transform::Transform;
use crate::Sprite;
use crate::mask::Mask;
use crate::camera::Camera;

verus! {

/// One entity of the scene: its component slots and its children.
pub struct Node {
    pub transform: Option<Transform>,
    pub sprite: Option<Sprite>,
    pub mask: Option<Mask>,
    pub camera: Option<Camera>,
    pub children: Vec<usize>,
}

/// A scene: an arena of nodes plus the list of root entities.
pub struct Scene {
    pub nodes: Vec<Node>,
    pub roots: Vec<usize>,
}

impl Scene {
    /// Every child index points past its parent and into the arena, every
    /// root index is in the arena, and no index stands in two containers
    /// (nor twice in one): the containment relation is a tree per root,
    /// never a cycle and never a shared child.
    pub open spec fn well_formed(self) -> bool {
        &&& forall|i: int, j: int|
            0 <= i < self.nodes@.len() && 0 <= j < (#[trigger] self.nodes@[i]).children@.len()
                ==> i < #[trigger] self.nodes@[i].children@[j] < self.nodes@.len()
        &&& forall|k: int| 0 <= k < self.roots@.len()
                ==> 0 <= #[trigger] self.roots@[k] < self.nodes@.len()
        &&& forall|k1: int, k2: int| 0 <= k1 < k2 < self.roots@.len()
                ==> #[trigger] self.roots@[k1] != #[trigger] self.roots@[k2]
        &&& forall|i1: int, j1: int, i2: int, j2: int|
                #![trigger self.nodes@[i1].children@[j1], self.nodes@[i2].children@[j2]]
                0 <= i1 < self.nodes@.len() && 0 <= j1 < self.nodes@[i1].children@.len()
                && 0 <= i2 < self.nodes@.len() && 0 <= j2 < self.nodes@[i2].children@.len()
                && !(i1 == i2 && j1 == j2)
                ==> self.nodes@[i1].children@[j1] != self.nodes@[i2].children@[j2]
        &&& forall|k: int, i: int, j: int|
                #![trigger self.roots@[k], self.nodes@[i].children@[j]]
                0 <= k < self.roots@.len() && 0 <= i < self.nodes@.len()
                && 0 <= j < self.nodes@[i].children@.len()
                ==> self.roots@[k] != self.nodes@[i].children@[j]
    }

    /// An empty scene.
    pub fn new() -> (s: Scene)
        ensures
            s.well_formed(),
            s.nodes@.len() == 0,
            s.roots@.len() == 0,
    {
        Scene { nodes: Vec::new(), roots: Vec::new() }
    }

    /// Adds an entity with no components, as a child of `parent` (or as a
    /// root when `parent` is `None`), and returns its index.
    pub fn add_entity(&mut self, parent: Option<usize>) -> (idx: usize)
        requires
            old(self).well_formed(),
            match parent {
                Some(p) => p < old(self).nodes@.len(),
                None => true,
            },
        ensures
            final(self).well_formed(),
            idx == old(self).nodes@.len(),
            final(self).nodes@.len() == old(self).nodes@.len() + 1,
            final(self).nodes@[idx as int].transform is None,
            final(self).nodes@[idx as int].sprite is None,
            final(self).nodes@[idx as int].mask is None,
            final(self).nodes@[idx as int].camera is None,
            final(self).nodes@[idx as int].children@.len() == 0,
            forall|i: int| 0 <= i < old(self).nodes@.len() && (match parent {
                Some(p) => i != p as int,
                None => true,
            }) ==> final(self).nodes@[i] == old(self).nodes@[i],
            match parent {
                Some(p) => {
                    &&& final(self).nodes@[p as int].children@
                        == old(self).nodes@[p as int].children@.push(idx)
                    &&& final(self).nodes@[p as int].transform == old(self).nodes@[p as int].transform
                    &&& final(self).nodes@[p as int].sprite == old(self).nodes@[p as int].sprite
                    &&& final(self).nodes@[p as int].mask == old(self).nodes@[p as int].mask
                    &&& final(self).nodes@[p as int].camera == old(self).nodes@[p as int].camera
                    &&& final(self).roots@ == old(self).roots@
                },
                None => final(self).roots@ == old(self).roots@.push(idx),
            },
    {
        let idx = self.nodes.len();
        self.nodes.push(Node {
            transform: None,
            sprite: None,
            mask: None,
            camera: None,
            children: Vec::new(),
        });
        match parent {
            Some(p) => {
                let mut node = self.nodes.remove(p);
                node.children.push(idx);
                self.nodes.insert(p, node);
            }
            None => {
                self.roots.push(idx);
            }
        }
        idx
    }

    /// Puts (or replaces) a transform on the entity at `idx`.
    pub fn set_transform(&mut self, idx: usize, transform: Transform)
        requires
            idx < old(self).nodes@.len(),
        ensures
            final(self).nodes@.len() == old(self).nodes@.len(),
            final(self).roots@ == old(self).roots@,
            final(self).nodes@[idx as int]
                == (Node { transform: Some(transform), ..old(self).nodes@[idx as int] }),
            forall|i: int| 0 <= i < old(self).nodes@.len() && i != idx as int
                ==> final(self).nodes@[i] == old(self).nodes@[i],
            old(self).well_formed() ==> final(self).well_formed(),
    {
        self.nodes[idx].transform = Some(transform);
    }

    /// Puts (or replaces) a sprite on the entity at `idx`.
    pub fn set_sprite(&mut self, idx: usize, sprite: Sprite)
        requires
            idx < old(self).nodes@.len(),
        ensures
            final(self).nodes@.len() == old(self).nodes@.len(),
            final(self).roots@ == old(self).roots@,
            final(self).nodes@[idx as int]
                == (Node { sprite: Some(sprite), ..old(self).nodes@[idx as int] }),
            forall|i: int| 0 <= i < old(self).nodes@.len() && i != idx as int
                ==> final(self).nodes@[i] == old(self).nodes@[i],
            old(self).well_formed() ==> final(self).well_formed(),
    {
        self.nodes[idx].sprite = Some(sprite);
    }

    /// Puts (or replaces) a mask on the entity at `idx`.
    pub fn set_mask(&mut self, idx: usize, mask: Mask)
        requires
            idx < old(self).nodes@.len(),
        ensures
            final(self).nodes@.len() == old(self).nodes@.len(),
            final(self).roots@ == old(self).roots@,
            final(self).nodes@[idx as int]
                == (Node { mask: Some(mask), ..old(self).nodes@[idx as int] }),
            forall|i: int| 0 <= i < old(self).nodes@.len() && i != idx as int
                ==> final(self).nodes@[i] == old(self).nodes@[i],
            old(self).well_formed() ==> final(self).well_formed(),
    {
        self.nodes[idx].mask = Some(mask);
    }

    /// Puts (or replaces) a camera on the entity at `idx`.
    pub fn set_camera(&mut self, idx: usize, camera: Camera)
        requires
            idx < old(self).nodes@.len(),
        ensures
            final(self).nodes@.len() == old(self).nodes@.len(),
            final(self).roots@ == old(self).roots@,
            final(self).nodes@[idx as int]
                == (Node { camera: Some(camera), ..old(self).nodes@[idx as int] }),
            forall|i: int| 0 <= i < old(self).nodes@.len() && i != idx as int
                ==> final(self).nodes@[i] == old(self).nodes@[i],
            old(self).well_formed() ==> final(self).well_formed(),
    {
        self.nodes[idx].camera = Some(camera);
    }
}

} // verus!
