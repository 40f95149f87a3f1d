use vstd::prelude::*;

use crate::math::s_rect_union;
use crate::math::Rect;
use crate::math::Vec2;
use crate::path::events_eq;
use crate::path::FillOptions;
use crate::path::Path;
use crate::path::PathEvent;
use crate::path::StrokeOptions;

verus! {

/// A tessellated path: triangle vertices and indices into them, with the
/// bounding rectangle of the vertices.
#[derive(Debug)]
pub struct Mesh {
    pub bounding_rect: Option<Rect>,
    pub vertices: Vec<Vec2>,
    pub indices: Vec<usize>,
}

/// Turns path outlines into triangles; implemented by the embedding
/// application. Returns triangle vertices and indices into them.
pub trait Tessellator {
    fn fill(&mut self, events: &Vec<PathEvent>, options: &FillOptions) -> (Vec<Vec2>, Vec<usize>);

    fn stroke(&mut self, events: &Vec<PathEvent>, options: &StrokeOptions) -> (
        Vec<Vec2>,
        Vec<usize>,
    );
}

/// The bounding rectangle of a vertex list: `None` when it is empty.
pub open spec fn s_bounds(vs: Seq<Vec2>) -> Option<Rect>
    decreases vs.len(),
{
    if vs.len() == 0 {
        None
    } else if vs.len() == 1 {
        Some(Rect { min: vs[0], max: vs[0] })
    } else {
        match s_bounds(vs.drop_last()) {
            Some(r) => Some(s_rect_union(r, Rect { min: vs.last(), max: vs.last() })),
            None => None,
        }
    }
}

/// The smallest axis-aligned rectangle holding every vertex, or `None` for
/// an empty list.
pub fn compute_bounding_rect(vertices: &Vec<Vec2>) -> (r: Option<Rect>)
    ensures
        r == s_bounds(vertices@),
{
    if vertices.len() == 0 {
        return None;
    }
    let first: Vec2 = vertices[0];
    let mut rect: Rect = Rect { min: first, max: first };
    let mut i: usize = 1;
    proof {
        assert(s_bounds(vertices@.subrange(0, 1)) == Some(rect)) by {
            assert(vertices@.subrange(0, 1).len() == 1);
            assert(vertices@.subrange(0, 1)[0] == vertices@[0]);
        }
    }
    while i < vertices.len()
        invariant
            1 <= i <= vertices@.len(),
            s_bounds(vertices@.subrange(0, i as int)) == Some(rect),
        decreases vertices@.len() - i,
    {
        let v: Vec2 = vertices[i];
        let next: Rect = rect.union(Rect { min: v, max: v });
        proof {
            let pre = vertices@.subrange(0, i as int);
            let cur = vertices@.subrange(0, i + 1);
            assert(cur.drop_last() =~= pre);
            assert(cur.last() == vertices@[i as int]);
            assert(s_bounds(cur) == Some(s_rect_union(rect, Rect { min: v, max: v })));
        }
        rect = next;
        i = i + 1;
    }
    proof {
        assert(vertices@.subrange(0, vertices@.len() as int) =~= vertices@);
    }
    Some(rect)
}

/// What one cache entry answers to: fill or stroke of one path content.
#[derive(Debug, Clone, Copy, PartialEq, Eq, Structural)]
pub enum MeshKind {
    Fill(FillOptions),
    Stroke(StrokeOptions),
}

struct CacheEntry {
    events: Vec<PathEvent>,
    kind: MeshKind,
    mesh: Mesh,
}

/// A mesh's identity in the cache: the path's content and the options.
pub ghost struct MeshId {
    pub events: Seq<PathEvent>,
    pub kind: MeshKind,
}

/// Caches tessellated meshes, keyed by path content, bounded by entry
/// count with least-recently-used eviction.
pub struct PathCache {
    entries: Vec<CacheEntry>,
    capacity: usize,
}

impl PathCache {
    /// The cached identities, least recently used first.
    pub closed spec fn s_ids(&self) -> Seq<MeshId> {
        self.entries@.map_values(
            |e: CacheEntry| MeshId { events: e.events@, kind: e.kind },
        )
    }

    pub closed spec fn s_capacity(&self) -> int {
        self.capacity as int
    }

    /// The mesh cached under an identity.
    pub closed spec fn s_mesh_at(&self, i: int) -> Mesh {
        self.entries@[i].mesh
    }

    pub open spec fn wf(&self) -> bool {
        &&& self.s_ids().len() <= self.s_capacity()
        &&& 1 <= self.s_capacity()
        &&& forall|i: int, j: int|
            0 <= i < j < self.s_ids().len() ==> self.s_ids()[i] != self.s_ids()[j]
        &&& forall|i: int|
            0 <= i < self.s_ids().len() ==> #[trigger] self.s_mesh_at(i).bounding_rect
                == s_bounds(self.s_mesh_at(i).vertices@)
    }

    pub fn new(capacity: usize) -> (r: PathCache)
        requires
            capacity >= 1,
        ensures
            r.wf(),
            r.s_ids().len() == 0,
            r.s_capacity() == capacity,
    {
        let r = PathCache { entries: Vec::new(), capacity };
        proof {
            assert(r.s_ids().len() == 0);
        }
        r
    }

    fn find(&self, events: &Vec<PathEvent>, kind: &MeshKind) -> (r: Option<usize>)
        ensures
            r matches Some(i) ==> i < self.s_ids().len() && self.s_ids()[i as int] == (MeshId {
                events: events@,
                kind: *kind,
            }),
            r is None ==> !self.s_ids().contains(MeshId { events: events@, kind: *kind }),
    {
        let mut i: usize = 0;
        while i < self.entries.len()
            invariant
                i <= self.s_ids().len(),
                forall|j: int|
                    0 <= j < i ==> self.s_ids()[j] != (MeshId { events: events@, kind: *kind }),
            decreases self.s_ids().len() - i,
        {
            if self.entries[i].kind == *kind && events_eq(&self.entries[i].events, events) {
                proof {
                    assert(self.entries@[i as int].events@ =~= events@);
                    assert(self.s_ids()[i as int] == (MeshId { events: events@, kind: *kind }));
                }
                return Some(i);
            }
            proof {
                if self.s_ids()[i as int] == (MeshId { events: events@, kind: *kind }) {
                    assert(self.entries@[i as int].events@ == events@);
                    assert(false);
                }
            }
            i = i + 1;
        }
        proof {
            if self.s_ids().contains(MeshId { events: events@, kind: *kind }) {
                let j = choose|j: int|
                    0 <= j < self.s_ids().len() && self.s_ids()[j] == (MeshId {
                        events: events@,
                        kind: *kind,
                    });
                assert(false);
            }
        }
        None
    }

    /// The cached mesh for this path and kind, or `None` while it has not
    /// been loaded. Read-only: recency does not change.
    pub fn get(&self, path: &Path, kind: MeshKind) -> (r: Option<&Mesh>)
        ensures
            r is Some <==> self.s_ids().contains(MeshId { events: path.events@, kind }),
            r matches Some(m) ==> exists|i: int|
                0 <= i < self.s_ids().len() && self.s_ids()[i] == (MeshId {
                    events: path.events@,
                    kind,
                }) && *m == self.s_mesh_at(i),
    {
        match self.find(&path.events, &kind) {
            Some(i) => {
                proof {
                    assert(self.s_ids()[i as int] == (MeshId { events: path.events@, kind }));
                    assert(self.s_mesh_at(i as int) == self.entries@[i as int].mesh);
                }
                Some(&self.entries[i].mesh)
            },
            None => None,
        }
    }

    /// Ensures a mesh for this path and kind is cached, tessellating on a
    /// miss, and makes it the most recently used. When the cache is over
    /// capacity the least recently used entry leaves.
    pub fn load<T: Tessellator>(&mut self, tess: &mut T, path: &Path, kind: MeshKind)
        requires
            old(self).wf(),
        ensures
            final(self).wf(),
            final(self).s_ids().contains(MeshId { events: path.events@, kind }),
            final(self).s_capacity() == old(self).s_capacity(),
            forall|id: MeshId|
                final(self).s_ids().contains(id) ==> old(self).s_ids().contains(id) || id == (
                MeshId { events: path.events@, kind }),
    {
        let id: Ghost<MeshId> = Ghost(MeshId { events: path.events@, kind });
        match self.find(&path.events, &kind) {
            Some(i) => {
                let entry: CacheEntry = self.entries.remove(i);
                self.entries.push(entry);
                proof {
                    let olds = old(self).s_ids();
                    let news = self.s_ids();
                    let n = olds.len() as int;
                    assert(news.len() == n);
                    assert forall|j: int| 0 <= j < n implies news[j] == (if j < i {
                        olds[j]
                    } else if j < n - 1 {
                        olds[j + 1]
                    } else {
                        olds[i as int]
                    }) by {
                        assert(self.entries@[j] == (if j < i {
                            old(self).entries@[j]
                        } else if j < n - 1 {
                            old(self).entries@[j + 1]
                        } else {
                            old(self).entries@[i as int]
                        }));
                    }
                    assert(news.last() == id@);
                    assert(news.contains(id@));
                    assert forall|id2: MeshId| news.contains(id2) implies olds.contains(id2) by {
                        let j = choose|j: int| 0 <= j < news.len() && news[j] == id2;
                        if j < i {
                            assert(olds[j] == id2);
                        } else if j < n - 1 {
                            assert(olds[j + 1] == id2);
                        } else {
                            assert(olds[i as int] == id2);
                        }
                    }
                    assert forall|j: int, k: int| 0 <= j < k < news.len() implies news[j]
                        != news[k] by {
                        if k < n - 1 {
                            assert(news[j] != news[k]);
                        } else {
                            if j < i {
                                assert(news[j] == olds[j] && news[k] == olds[i as int]);
                            } else {
                                assert(news[j] == olds[j + 1] && news[k] == olds[i as int]);
                            }
                        }
                    }
                    assert forall|j: int| 0 <= j < news.len() implies #[trigger] self.s_mesh_at(
                        j,
                    ).bounding_rect == s_bounds(self.s_mesh_at(j).vertices@) by {
                        if j < i {
                            assert(self.entries@[j] == old(self).entries@[j]);
                            assert(old(self).s_mesh_at(j).bounding_rect == s_bounds(
                                old(self).s_mesh_at(j).vertices@,
                            ));
                        } else if j < n - 1 {
                            assert(self.entries@[j] == old(self).entries@[j + 1]);
                            assert(old(self).s_mesh_at(j + 1).bounding_rect == s_bounds(
                                old(self).s_mesh_at(j + 1).vertices@,
                            ));
                        } else {
                            assert(self.entries@[j] == old(self).entries@[i as int]);
                            assert(old(self).s_mesh_at(i as int).bounding_rect == s_bounds(
                                old(self).s_mesh_at(i as int).vertices@,
                            ));
                        }
                    }
                }
            },
            None => {
                let (vertices, indices) = match kind {
                    MeshKind::Fill(options) => tess.fill(&path.events, &options),
                    MeshKind::Stroke(options) => tess.stroke(&path.events, &options),
                };
                let bounding_rect: Option<Rect> = compute_bounding_rect(&vertices);
                let mesh = Mesh { bounding_rect, vertices, indices };
                let events: Vec<PathEvent> = path.events.clone();
                proof {
                    assert(events@ =~= path.events@);
                }
                let ghost mid = self.entries@;
                if self.entries.len() >= self.capacity {
                    let dropped: CacheEntry = self.entries.remove(0);
                }
                let ghost base = self.entries@;
                let ghost olds = old(self).s_ids();
                self.entries.push(CacheEntry { events, kind, mesh });
                proof {
                    let news = self.s_ids();
                    let m = news.len() as int;
                    assert(self.entries@[m - 1].events@ == events@);
                    assert(news[m - 1] == id@);
                    assert(news.contains(id@));
                    assert forall|j: int| 0 <= j < m - 1 implies olds.contains(news[j]) by {
                        assert(self.entries@[j] == base[j]);
                        if base.len() == mid.len() {
                            assert(base[j] == old(self).entries@[j]);
                            assert(olds[j] == news[j]);
                        } else {
                            assert(base[j] == old(self).entries@[j + 1]);
                            assert(olds[j + 1] == news[j]);
                        }
                    }
                    assert forall|id2: MeshId| news.contains(id2) implies olds.contains(id2) || id2
                        == id@ by {
                        let j = choose|j: int| 0 <= j < news.len() && news[j] == id2;
                        if j < m - 1 {
                            assert(olds.contains(news[j]));
                        }
                    }
                    assert forall|j: int, k: int| 0 <= j < k < m implies news[j] != news[k] by {
                        if k < m - 1 {
                            if base.len() == mid.len() {
                                assert(news[j] == olds[j] && news[k] == olds[k]);
                            } else {
                                assert(news[j] == olds[j + 1] && news[k] == olds[k + 1]);
                            }
                        } else {
                            assert(news[k] == id@);
                            assert(olds.contains(news[j]));
                            assert(!olds.contains(id@));
                        }
                    }
                    assert forall|j: int| 0 <= j < m implies #[trigger] self.s_mesh_at(
                        j,
                    ).bounding_rect == s_bounds(self.s_mesh_at(j).vertices@) by {
                        if j < m - 1 {
                            assert(self.entries@[j] == base[j]);
                            if base.len() == mid.len() {
                                assert(base[j] == old(self).entries@[j]);
                                assert(old(self).s_mesh_at(j).bounding_rect == s_bounds(
                                    old(self).s_mesh_at(j).vertices@,
                                ));
                            } else {
                                assert(base[j] == old(self).entries@[j + 1]);
                                assert(old(self).s_mesh_at(j + 1).bounding_rect == s_bounds(
                                    old(self).s_mesh_at(j + 1).vertices@,
                                ));
                            }
                        } else {
                            assert(self.entries@[j].mesh.bounding_rect == s_bounds(
                                self.entries@[j].mesh.vertices@,
                            ));
                        }
                    }
                }
            },
        }
    }
}


/// The mesh identities the command tree draws: each fill or stroke of a
/// path, nested layers included.
pub open spec fn s_tree_mesh_ids(cmds: Seq<crate::Command>, i: int) -> Set<MeshId>
    decreases cmds, 1nat, cmds.len() - i,
{
    if i < 0 || i >= cmds.len() {
        Set::empty()
    } else {
        let here = match cmds[i] {
            crate::Command::FillPath(p) => Set::empty().insert(
                MeshId { events: p.path.events@, kind: MeshKind::Fill(p.options) },
            ),
            crate::Command::StrokePath(p) => Set::empty().insert(
                MeshId { events: p.path.events@, kind: MeshKind::Stroke(p.options) },
            ),
            crate::Command::DrawLayer(l) => s_tree_mesh_ids(l.commands@, 0),
            _ => Set::empty(),
        };
        here.union(s_tree_mesh_ids(cmds, i + 1))
    }
}

impl PathCache {
    /// Loads a mesh for every path the command tree draws, tessellating
    /// the missing ones (spec 4.3's load step for meshes). The cache only
    /// ever holds content the trees asked for; with more distinct paths
    /// than capacity, the least recently used leave again.
    pub fn load_meshes_from_commands<T: Tessellator>(
        &mut self,
        tess: &mut T,
        commands: &Vec<crate::Command>,
    )
        requires
            old(self).wf(),
        ensures
            final(self).wf(),
            final(self).s_capacity() == old(self).s_capacity(),
            forall|id: MeshId|
                final(self).s_ids().contains(id) ==> old(self).s_ids().contains(id)
                    || s_tree_mesh_ids(commands@, 0).contains(id),
        decreases commands@, 9nat, 0nat,
    {
        let ghost tree0 = s_tree_mesh_ids(commands@, 0);
        let mut i: usize = 0;
        while i < commands.len()
            invariant
                self.wf(),
                old(self).wf(),
                tree0 == s_tree_mesh_ids(commands@, 0),
                i <= commands@.len(),
                self.s_capacity() == old(self).s_capacity(),
                s_tree_mesh_ids(commands@, i as int).subset_of(tree0),
                forall|id: MeshId|
                    self.s_ids().contains(id) ==> old(self).s_ids().contains(id)
                        || tree0.contains(id),
            decreases commands@.len() - i,
        {
            let ghost pre = *self;
            let ghost treei = s_tree_mesh_ids(commands@, i as int);
            let ghost treen = s_tree_mesh_ids(commands@, i + 1);
            match &commands[i] {
                crate::Command::FillPath(p) => {
                    self.load(tess, &p.path, MeshKind::Fill(p.options));
                    proof {
                        let target = MeshId {
                            events: p.path.events@,
                            kind: MeshKind::Fill(p.options),
                        };
                        assert(treei == Set::empty().insert(target).union(treen));
                        assert(treei.contains(target));
                        assert forall|id: MeshId|
                            self.s_ids().contains(id) implies old(self).s_ids().contains(id)
                            || tree0.contains(id) by {
                            if !pre.s_ids().contains(id) {
                                assert(id == target);
                            }
                        }
                    }
                },
                crate::Command::StrokePath(p) => {
                    self.load(tess, &p.path, MeshKind::Stroke(p.options));
                    proof {
                        let target = MeshId {
                            events: p.path.events@,
                            kind: MeshKind::Stroke(p.options),
                        };
                        assert(treei == Set::empty().insert(target).union(treen));
                        assert(treei.contains(target));
                        assert forall|id: MeshId|
                            self.s_ids().contains(id) implies old(self).s_ids().contains(id)
                            || tree0.contains(id) by {
                            if !pre.s_ids().contains(id) {
                                assert(id == target);
                            }
                        }
                    }
                },
                crate::Command::DrawLayer(l) => {
                    proof {
                        assert(treei == s_tree_mesh_ids(l.commands@, 0).union(treen));
                    }
                    self.load_meshes_from_commands(tess, &l.commands);
                    proof {
                        assert forall|id: MeshId|
                            self.s_ids().contains(id) implies old(self).s_ids().contains(id)
                            || tree0.contains(id) by {
                            if !pre.s_ids().contains(id) {
                                assert(s_tree_mesh_ids(l.commands@, 0).contains(id));
                            }
                        }
                    }
                },
                _ => {
                    proof {
                        assert(treei == Set::<MeshId>::empty().union(treen));
                    }
                },
            }
            i = i + 1;
        }
    }

    /// The mesh load step over every list of the frame.
    pub fn load_meshes_from_lists<T: Tessellator>(
        &mut self,
        tess: &mut T,
        lists: &Vec<crate::DrawList>,
    )
        requires
            old(self).wf(),
        ensures
            final(self).wf(),
            final(self).s_capacity() == old(self).s_capacity(),
    {
        let mut li: usize = 0;
        while li < lists.len()
            invariant
                self.wf(),
                li <= lists@.len(),
                self.s_capacity() == old(self).s_capacity(),
            decreases lists@.len() - li,
        {
            self.load_meshes_from_commands(tess, &lists[li].commands);
            li = li + 1;
        }
    }
}

} // verus!

