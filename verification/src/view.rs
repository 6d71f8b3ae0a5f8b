//! A minimal widget-tree host built on the arena: views hold parent/child
//! links as plain handles, a cached desired size and render bounds for the
//! two layout passes, and an optional attached-property block declared by a
//! container's layout schema. The tree interprets the view-level change
//! handlers: the one behaviour here invalidates the parent's arrange
//! result when a child's attached position changes.

use vstd::prelude::*;
use crate::arena::{Arena, Handle};
use crate::canvas::{layout_view, CanvasLayout, CanvasPanel, LayoutCellV, LayoutV};
use crate::geometry::{Point, Rect, Vector};
use crate::reactive::{dist_fires, eq_obeys};

verus! {

/// Executable equality on `Point` agrees with mathematical equality.
pub proof fn lemma_point_eq_obeys()
    ensures
        eq_obeys::<Point>(),
{
}

/// A view-level change handler, as plain data.
#[derive(Clone, Copy, Debug, PartialEq, Eq, Structural)]
pub enum ViewHandler {
    /// Look the changed view's parent up and mark it for re-arrange.
    InvalidateParentArrange,
}

/// A view's identity: a generation-checked handle into the view tree.
#[derive(Clone, Copy, Debug, PartialEq, Eq, Hash, Structural)]
pub struct ViewId(pub Handle);

/// The entity stored per view.
pub struct ViewNode {
    parent: Option<ViewId>,
    children: Vec<ViewId>,
    intrinsic: Vector,
    desired_size: Vector,
    render_bounds: Rect,
    arrange_valid: bool,
    layout: Option<CanvasLayout>,
    panel: Option<CanvasPanel>,
}

/// The mathematical image of one view.
#[verifier::ext_equal]
pub struct ViewNodeV {
    pub parent: Option<ViewId>,
    pub children: Seq<ViewId>,
    pub intrinsic: Vector,
    pub desired_size: Vector,
    pub render_bounds: Rect,
    pub arrange_valid: bool,
    pub layout: Option<LayoutV>,
    pub panel: Option<CanvasPanel>,
}

/// A measure pass result: each given constraint wins over the view's
/// intrinsic extent.
pub open spec fn measure_of(intrinsic: Vector, sz: (Option<i16>, Option<i16>)) -> Vector {
    Vector {
        x: match sz.0 {
            Some(w) => w,
            None => intrinsic.x,
        },
        y: match sz.1 {
            Some(h) => h,
            None => intrinsic.y,
        },
    }
}

/// The view tree: an arena of views plus a distinguished root.
pub struct ViewTree {
    arena: Arena<ViewNode>,
    root: ViewId,
}

impl ViewTree {
    /// The root view's identity.
    pub closed spec fn root_spec(self) -> ViewId {
        self.root
    }

    /// A view identity is valid iff it refers to a live view.
    pub closed spec fn valid(self, v: ViewId) -> bool {
        self.arena.valid(v.0)
    }

    /// The image of a (valid) view.
    pub closed spec fn node(self, v: ViewId) -> ViewNodeV {
        let n = self.arena.at(v.0);
        ViewNodeV {
            parent: n.parent,
            children: n.children@,
            intrinsic: n.intrinsic,
            desired_size: n.desired_size,
            render_bounds: n.render_bounds,
            arrange_valid: n.arrange_valid,
            layout: match n.layout {
                Some(l) => Some(layout_view(l)),
                None => None,
            },
            panel: n.panel,
        }
    }

    /// Every valid view's children are valid and pairwise distinct.
    pub closed spec fn children_ok(self, v: ViewId) -> bool {
        &&& forall|i: int|
            0 <= i < self.node(v).children.len() ==> self.valid(#[trigger] self.node(v).children[i])
        &&& forall|i: int, j: int|
            0 <= i < j < self.node(v).children.len() ==> self.node(v).children[i] != self.node(
                v,
            ).children[j]
    }

    pub closed spec fn wf(self) -> bool {
        &&& self.arena.wf()
        &&& self.valid(self.root_spec())
        &&& forall|v: ViewId| #[trigger] self.valid(v) ==> self.children_ok(v)
    }

    /// A fresh tree holding only the root view.
    pub fn new() -> (r: ViewTree)
        ensures
            r.wf(),
            r.node(r.root_spec()) == (ViewNodeV {
                parent: None,
                children: Seq::<ViewId>::empty(),
                intrinsic: (Vector { x: 0, y: 0 }),
                desired_size: (Vector { x: 0, y: 0 }),
                render_bounds: (Rect {
                    tl: (Point { x: 0, y: 0 }),
                    size: (Vector { x: 0, y: 0 }),
                }),
                arrange_valid: false,
                layout: None,
                panel: None,
            }),
            forall|u: ViewId| r.valid(u) ==> u == r.root_spec(),
    {
        let mut arena: Arena<ViewNode> = Arena::new();
        let build = move |hh: Handle| -> (res: (ViewNode, Handle))
            ensures
                res.0.parent is None,
                res.0.children@ == Seq::<ViewId>::empty(),
                res.0.intrinsic == (Vector { x: 0, y: 0 }),
                res.0.desired_size == (Vector { x: 0, y: 0 }),
                res.0.render_bounds == (Rect {
                    tl: (Point { x: 0, y: 0 }),
                    size: (Vector { x: 0, y: 0 }),
                }),
                !res.0.arrange_valid,
                res.0.layout is None,
                res.0.panel is None,
                res.1 == hh,
            {
                let node = ViewNode {
                    parent: None,
                    children: Vec::new(),
                    intrinsic: Vector { x: 0, y: 0 },
                    desired_size: Vector { x: 0, y: 0 },
                    render_bounds: Rect { tl: Point { x: 0, y: 0 }, size: Vector { x: 0, y: 0 } },
                    arrange_valid: false,
                    layout: None,
                    panel: None,
                };
                proof {
                    assert(node.children@ =~= Seq::<ViewId>::empty());
                }
                (node, hh)
            };
        let ghost pre_arena = arena;
        let h = arena.insert(build);
        let r = ViewTree { arena, root: ViewId(h) };
        proof {
            let nh = pre_arena.next_handle();
            let entity = choose|entity: ViewNode|
                call_ensures(build, (nh,), (entity, h)) && r.arena.contents()
                    == pre_arena.contents().insert(nh, entity);
            assert(call_ensures(build, (nh,), (entity, h)));
            assert(entity.children@ == Seq::<ViewId>::empty());
            assert(r.arena.contents()[nh] == entity);
            assert(r.arena.at(nh) == entity);
            assert(h == nh);
            assert(r.node(r.root_spec()).children =~= Seq::<ViewId>::empty());
            assert forall|u: ViewId| r.valid(u) implies u == r.root_spec() by {
                pre_arena.lemma_valid_iff_in_contents(u.0);
            }
            assert forall|v2: ViewId| #[trigger] r.valid(v2) implies r.children_ok(v2) by {
                assert(v2 == r.root_spec());
            }
            assert(r.node(r.root_spec()) =~~= (ViewNodeV {
                parent: None,
                children: Seq::<ViewId>::empty(),
                intrinsic: (Vector { x: 0, y: 0 }),
                desired_size: (Vector { x: 0, y: 0 }),
                render_bounds: (Rect {
                    tl: (Point { x: 0, y: 0 }),
                    size: (Vector { x: 0, y: 0 }),
                }),
                arrange_valid: false,
                layout: None,
                panel: None,
            }));
        }
        r
    }

    /// The root view's identity.
    pub fn root(&self) -> (v: ViewId)
        ensures
            v == self.root_spec(),
    {
        self.root
    }

    /// The explicit staleness test: true iff the identity is live.
    pub fn contains(&self, v: ViewId) -> (r: bool)
        requires
            self.wf(),
        ensures
            r == self.valid(v),
    {
        self.arena.contains(v.0)
    }
}

impl ViewId {
    /// Creates a view under `parent` with the given intrinsic extent.
    pub fn new(tree: &mut ViewTree, parent: ViewId, intrinsic: Vector) -> (v: ViewId)
        requires
            old(tree).wf(),
            old(tree).valid(parent),
        ensures
            final(tree).wf(),
            !old(tree).valid(v),
            final(tree).valid(v),
            v != parent,
            final(tree).root_spec() == old(tree).root_spec(),
            forall|u: ViewId| #[trigger] old(tree).valid(u) ==> final(tree).valid(u),
            forall|u: ViewId| final(tree).valid(u) ==> u == v || old(tree).valid(u),
            final(tree).node(v) == (ViewNodeV {
                parent: Some(parent),
                children: Seq::<ViewId>::empty(),
                intrinsic,
                desired_size: (Vector { x: 0, y: 0 }),
                render_bounds: (Rect {
                    tl: (Point { x: 0, y: 0 }),
                    size: (Vector { x: 0, y: 0 }),
                }),
                arrange_valid: false,
                layout: None,
                panel: None,
            }),
            final(tree).node(parent) == (ViewNodeV {
                parent: old(tree).node(parent).parent,
                children: old(tree).node(parent).children.push(v),
                intrinsic: old(tree).node(parent).intrinsic,
                desired_size: old(tree).node(parent).desired_size,
                render_bounds: old(tree).node(parent).render_bounds,
                arrange_valid: old(tree).node(parent).arrange_valid,
                layout: old(tree).node(parent).layout,
                panel: old(tree).node(parent).panel,
            }),
            forall|u: ViewId|
                #[trigger] old(tree).valid(u) && u != parent ==> final(tree).node(u) == old(
                    tree,
                ).node(u),
    {
        let ghost pre = *tree;
        let build = move |hh: Handle| -> (res: (ViewNode, Handle))
            ensures
                res.0.parent == Some(parent),
                res.0.children@ == Seq::<ViewId>::empty(),
                res.0.intrinsic == intrinsic,
                res.0.desired_size == (Vector { x: 0, y: 0 }),
                res.0.render_bounds == (Rect {
                    tl: (Point { x: 0, y: 0 }),
                    size: (Vector { x: 0, y: 0 }),
                }),
                !res.0.arrange_valid,
                res.0.layout is None,
                res.0.panel is None,
                res.1 == hh,
            {
                let node = ViewNode {
                    parent: Some(parent),
                    children: Vec::new(),
                    intrinsic,
                    desired_size: Vector { x: 0, y: 0 },
                    render_bounds: Rect { tl: Point { x: 0, y: 0 }, size: Vector { x: 0, y: 0 } },
                    arrange_valid: false,
                    layout: None,
                    panel: None,
                };
                proof {
                    assert(node.children@ =~= Seq::<ViewId>::empty());
                }
                (node, hh)
            };
        let ghost nh = pre.arena.next_handle();
        let h = tree.arena.insert(build);
        let v = ViewId(h);
        let ghost mid = *tree;
        proof {
            let entity = choose|entity: ViewNode|
                call_ensures(build, (nh,), (entity, h)) && mid.arena.contents()
                    == pre.arena.contents().insert(nh, entity);
            assert(call_ensures(build, (nh,), (entity, h)));
            assert(mid.arena.contents()[nh] == entity);
            assert(mid.arena.at(nh) == entity);
            assert(h == nh);
            assert(mid.node(v).children =~= Seq::<ViewId>::empty());
        }
        let mut pn = tree.arena.take(parent.0);
        pn.children.push(v);
        let ghost gpn = pn;
        tree.arena.put(parent.0, pn);
        proof {
            assert(mid.node(v).children =~= Seq::<ViewId>::empty());
            assert(tree.node(parent).children =~= pre.node(parent).children.push(v));
            assert(tree.node(parent) =~~= (ViewNodeV {
                parent: pre.node(parent).parent,
                children: pre.node(parent).children.push(v),
                intrinsic: pre.node(parent).intrinsic,
                desired_size: pre.node(parent).desired_size,
                render_bounds: pre.node(parent).render_bounds,
                arrange_valid: pre.node(parent).arrange_valid,
                layout: pre.node(parent).layout,
                panel: pre.node(parent).panel,
            }));
            assert(tree.node(v) =~~= (ViewNodeV {
                parent: Some(parent),
                children: Seq::<ViewId>::empty(),
                intrinsic,
                desired_size: (Vector { x: 0, y: 0 }),
                render_bounds: (Rect {
                    tl: (Point { x: 0, y: 0 }),
                    size: (Vector { x: 0, y: 0 }),
                }),
                arrange_valid: false,
                layout: None,
                panel: None,
            }));
            assert forall|u: ViewId| #[trigger] tree.valid(u) implies tree.children_ok(u) by {
                if u == parent {
                    assert forall|i: int, j: int|
                        0 <= i < j < tree.node(u).children.len() implies tree.node(u).children[i]
                        != tree.node(u).children[j] by {
                        if j == tree.node(u).children.len() - 1 {
                            assert(pre.valid(pre.node(parent).children[i]));
                        }
                    }
                } else if u == v {
                } else {
                    assert(pre.valid(u));
                    assert(pre.children_ok(u));
                }
            }
        }
        v
    }

    /// The view's parent, if any.
    pub fn parent(self, tree: &ViewTree) -> (p: Option<ViewId>)
        requires
            tree.wf(),
            tree.valid(self),
        ensures
            p == tree.node(self).parent,
    {
        tree.arena.get(self.0).parent
    }

    /// The number of children.
    pub fn child_count(self, tree: &ViewTree) -> (n: usize)
        requires
            tree.wf(),
            tree.valid(self),
        ensures
            n == tree.node(self).children.len(),
    {
        tree.arena.get(self.0).children.len()
    }

    /// The `i`-th child, in insertion order.
    pub fn child(self, tree: &ViewTree, i: usize) -> (c: ViewId)
        requires
            tree.wf(),
            tree.valid(self),
            i < tree.node(self).children.len(),
        ensures
            c == tree.node(self).children[i as int],
            tree.valid(c),
    {
        proof {
            assert(tree.children_ok(self));
        }
        tree.arena.get(self.0).children[i]
    }

    /// The view's cached desired extent.
    pub fn desired_size(self, tree: &ViewTree) -> (d: Vector)
        requires
            tree.wf(),
            tree.valid(self),
        ensures
            d == tree.node(self).desired_size,
    {
        tree.arena.get(self.0).desired_size
    }

    /// Whether the last arrange result is still valid.
    pub fn arrange_valid(self, tree: &ViewTree) -> (b: bool)
        requires
            tree.wf(),
            tree.valid(self),
        ensures
            b == tree.node(self).arrange_valid,
    {
        tree.arena.get(self.0).arrange_valid
    }

    /// The view's last render bounds.
    pub fn render_bounds(self, tree: &ViewTree) -> (r: Rect)
        requires
            tree.wf(),
            tree.valid(self),
        ensures
            r == tree.node(self).render_bounds,
    {
        tree.arena.get(self.0).render_bounds
    }

    /// The measure pass for one view: caches the desired extent, each given
    /// constraint winning over the intrinsic extent.
    pub fn measure(self, tree: &mut ViewTree, sz: (Option<i16>, Option<i16>))
        requires
            old(tree).wf(),
            old(tree).valid(self),
        ensures
            final(tree).wf(),
            forall|u: ViewId| final(tree).valid(u) == old(tree).valid(u),
            final(tree).root_spec() == old(tree).root_spec(),
            forall|u: ViewId|
                #[trigger] old(tree).valid(u) && u != self ==> final(tree).node(u) == old(
                    tree,
                ).node(u),
            final(tree).node(self) == (ViewNodeV {
                desired_size: measure_of(old(tree).node(self).intrinsic, sz),
                ..old(tree).node(self)
            }),
    {
        let ghost pre = *tree;
        let mut node = tree.arena.take(self.0);
        let w = match sz.0 {
            Some(w) => w,
            None => node.intrinsic.x,
        };
        let h = match sz.1 {
            Some(h) => h,
            None => node.intrinsic.y,
        };
        node.desired_size = Vector { x: w, y: h };
        tree.arena.put(self.0, node);
        proof {
            assert(tree.node(self) =~~= (ViewNodeV {
                desired_size: measure_of(pre.node(self).intrinsic, sz),
                ..pre.node(self)
            }));
            lemma_wf_preserved(pre, *tree);
        }
    }

    /// The arrange pass for one view: records the allotted bounds and marks
    /// the arrange result valid.
    pub fn arrange(self, tree: &mut ViewTree, rect: Rect)
        requires
            old(tree).wf(),
            old(tree).valid(self),
        ensures
            final(tree).wf(),
            forall|u: ViewId| final(tree).valid(u) == old(tree).valid(u),
            final(tree).root_spec() == old(tree).root_spec(),
            forall|u: ViewId|
                #[trigger] old(tree).valid(u) && u != self ==> final(tree).node(u) == old(
                    tree,
                ).node(u),
            final(tree).node(self) == (ViewNodeV {
                render_bounds: rect,
                arrange_valid: true,
                ..old(tree).node(self)
            }),
    {
        let ghost pre = *tree;
        let mut node = tree.arena.take(self.0);
        node.render_bounds = rect;
        node.arrange_valid = true;
        tree.arena.put(self.0, node);
        proof {
            assert(tree.node(self) =~~= (ViewNodeV {
                render_bounds: rect,
                arrange_valid: true,
                ..pre.node(self)
            }));
            lemma_wf_preserved(pre, *tree);
        }
    }

    /// Drops the cached arrange result, so the next layout pass revisits
    /// the view.
    pub fn invalidate_arrange(self, tree: &mut ViewTree)
        requires
            old(tree).wf(),
            old(tree).valid(self),
        ensures
            final(tree).wf(),
            forall|u: ViewId| final(tree).valid(u) == old(tree).valid(u),
            final(tree).root_spec() == old(tree).root_spec(),
            forall|u: ViewId|
                #[trigger] old(tree).valid(u) && u != self ==> final(tree).node(u) == old(
                    tree,
                ).node(u),
            final(tree).node(self) == (ViewNodeV {
                arrange_valid: false,
                ..old(tree).node(self)
            }),
    {
        let ghost pre = *tree;
        let mut node = tree.arena.take(self.0);
        node.arrange_valid = false;
        tree.arena.put(self.0, node);
        proof {
            assert(tree.node(self) =~~= (ViewNodeV {
                arrange_valid: false,
                ..pre.node(self)
            }));
            lemma_wf_preserved(pre, *tree);
        }
    }

    /// Attaches a layout property block to the view.
    pub fn set_layout(self, tree: &mut ViewTree, layout: CanvasLayout)
        requires
            old(tree).wf(),
            old(tree).valid(self),
        ensures
            final(tree).wf(),
            forall|u: ViewId| final(tree).valid(u) == old(tree).valid(u),
            final(tree).root_spec() == old(tree).root_spec(),
            forall|u: ViewId|
                #[trigger] old(tree).valid(u) && u != self ==> final(tree).node(u) == old(
                    tree,
                ).node(u),
            final(tree).node(self) == (ViewNodeV {
                layout: Some(layout_view(layout)),
                ..old(tree).node(self)
            }),
    {
        let ghost pre = *tree;
        let mut node = tree.arena.take(self.0);
        node.layout = Some(layout);
        tree.arena.put(self.0, node);
        proof {
            assert(tree.node(self) =~~= (ViewNodeV {
                layout: Some(layout_view(layout)),
                ..pre.node(self)
            }));
            lemma_wf_preserved(pre, *tree);
        }
    }

    /// Attaches a panel to the view.
    pub fn set_panel(self, tree: &mut ViewTree, panel: CanvasPanel)
        requires
            old(tree).wf(),
            old(tree).valid(self),
        ensures
            final(tree).wf(),
            forall|u: ViewId| final(tree).valid(u) == old(tree).valid(u),
            final(tree).root_spec() == old(tree).root_spec(),
            forall|u: ViewId|
                #[trigger] old(tree).valid(u) && u != self ==> final(tree).node(u) == old(
                    tree,
                ).node(u),
            final(tree).node(self) == (ViewNodeV {
                panel: Some(panel),
                ..old(tree).node(self)
            }),
    {
        let ghost pre = *tree;
        let mut node = tree.arena.take(self.0);
        node.panel = Some(panel);
        tree.arena.put(self.0, node);
        proof {
            assert(tree.node(self) =~~= (ViewNodeV {
                panel: Some(panel),
                ..pre.node(self)
            }));
            lemma_wf_preserved(pre, *tree);
        }
    }

    /// Reads one attached property of the view's layout block.
    pub fn layout_get(self, tree: &ViewTree, p: crate::schema::DepProp<
        crate::canvas::CanvasComp,
        Point,
    >) -> (r: Point)
        requires
            tree.wf(),
            tree.valid(self),
            tree.node(self).layout matches Some(l) && 0 <= p.index() < l.cells.len(),
        ensures
            r == tree.node(self).layout.unwrap().cells[p.index()].value,
    {
        match &tree.arena.get(self.0).layout {
            Some(l) => l.get_prop(p),
            None => vstd::pervasive::unreached(),
        }
    }

    /// Registers a view-level change handler on one attached property; it
    /// does not fire for the property's current value.
    pub fn layout_on_changed(
        self,
        tree: &mut ViewTree,
        p: crate::schema::DepProp<crate::canvas::CanvasComp, Point>,
        handler: ViewHandler,
    )
        requires
            old(tree).wf(),
            old(tree).valid(self),
            old(tree).node(self).layout matches Some(l) && 0 <= p.index() < l.cells.len(),
        ensures
            final(tree).wf(),
            forall|u: ViewId| final(tree).valid(u) == old(tree).valid(u),
            final(tree).root_spec() == old(tree).root_spec(),
            forall|u: ViewId|
                #[trigger] old(tree).valid(u) && u != self ==> final(tree).node(u) == old(
                    tree,
                ).node(u),
            final(tree).node(self) == (ViewNodeV {
                layout: Some(
                    LayoutV {
                        cells: old(tree).node(self).layout.unwrap().cells.update(
                            p.index(),
                            LayoutCellV {
                                value: old(tree).node(self).layout.unwrap().cells[p.index()].value,
                                handlers: old(tree).node(self).layout.unwrap().cells[
                                    p.index()
                                ].handlers.push(handler),
                            },
                        ),
                    },
                ),
                ..old(tree).node(self)
            }),
    {
        let ghost pre = *tree;
        let mut node = tree.arena.take(self.0);
        match &mut node.layout {
            Some(l) => l.add_handler(p, handler),
            None => vstd::pervasive::unreached(),
        }
        tree.arena.put(self.0, node);
        proof {
            assert(tree.node(self).layout.unwrap().cells =~= pre.node(
                self,
            ).layout.unwrap().cells.update(
                p.index(),
                LayoutCellV {
                    value: pre.node(self).layout.unwrap().cells[p.index()].value,
                    handlers: pre.node(self).layout.unwrap().cells[p.index()].handlers.push(
                        handler,
                    ),
                },
            ));
            assert(tree.node(self) =~~= (ViewNodeV {
                layout: Some(
                    LayoutV {
                        cells: pre.node(self).layout.unwrap().cells.update(
                            p.index(),
                            LayoutCellV {
                                value: pre.node(self).layout.unwrap().cells[p.index()].value,
                                handlers: pre.node(self).layout.unwrap().cells[
                                    p.index()
                                ].handlers.push(handler),
                            },
                        ),
                    },
                ),
                ..pre.node(self)
            }));
            lemma_wf_preserved(pre, *tree);
        }
    }
}

/// What one attached-property write leaves behind on the written view: the
/// addressed cell holds the new value, its handler list is untouched.
pub open spec fn layout_written(oldn: ViewNodeV, i: int, v: Point) -> ViewNodeV {
    ViewNodeV {
        layout: Some(
            LayoutV {
                cells: oldn.layout.unwrap().cells.update(
                    i,
                    LayoutCellV { value: v, handlers: oldn.layout.unwrap().cells[i].handlers },
                ),
            },
        ),
        ..oldn
    }
}

impl ViewId {
    /// Unconditional write to one attached property of this view, with the
    /// scheduled view handlers run before it returns: every registered
    /// handler fires, whether or not the position changed. Returns the
    /// previous value.
    pub fn layout_set(self, tree: &mut ViewTree, p: crate::schema::DepProp<
        crate::canvas::CanvasComp,
        Point,
    >, v: Point) -> (r: Point)
        requires
            old(tree).wf(),
            old(tree).valid(self),
            old(tree).node(self).layout matches Some(l) && 0 <= p.index() < l.cells.len(),
            old(tree).node(self).parent matches Some(pv) ==> pv != self,
        ensures
            final(tree).wf(),
            forall|u: ViewId| final(tree).valid(u) == old(tree).valid(u),
            final(tree).root_spec() == old(tree).root_spec(),
            r == old(tree).node(self).layout.unwrap().cells[p.index()].value,
            final(tree).node(self) == layout_written(old(tree).node(self), p.index(), v),
            ({
                let fired = old(tree).node(self).layout.unwrap().cells[p.index()].handlers;
                let par = old(tree).node(self).parent;
                &&& forall|u: ViewId|
                    #[trigger] old(tree).valid(u) && u != self && !(fired.len() > 0 && par
                        == Some(u)) ==> final(tree).node(u) == old(tree).node(u)
                &&& (fired.len() > 0 && par is Some && old(tree).valid(par.unwrap()) ==> final(tree).node(par.unwrap()) == (ViewNodeV {
                    arrange_valid: false,
                    ..old(tree).node(par.unwrap())
                }))
            }),
    {
        layout_write(tree, self, p, v, false)
    }

    /// Distinct-value write to one attached property of this view: as
    /// `layout_set`, but the handlers fire only when the new position
    /// differs from the old one.
    pub fn layout_set_dist(self, tree: &mut ViewTree, p: crate::schema::DepProp<
        crate::canvas::CanvasComp,
        Point,
    >, v: Point) -> (r: Point)
        requires
            old(tree).wf(),
            old(tree).valid(self),
            old(tree).node(self).layout matches Some(l) && 0 <= p.index() < l.cells.len(),
            old(tree).node(self).parent matches Some(pv) ==> pv != self,
        ensures
            final(tree).wf(),
            forall|u: ViewId| final(tree).valid(u) == old(tree).valid(u),
            final(tree).root_spec() == old(tree).root_spec(),
            r == old(tree).node(self).layout.unwrap().cells[p.index()].value,
            final(tree).node(self) == layout_written(old(tree).node(self), p.index(), v),
            ({
                let fired = dist_fires(
                    old(tree).node(self).layout.unwrap().cells[p.index()].value,
                    v,
                    old(tree).node(self).layout.unwrap().cells[p.index()].handlers,
                );
                let par = old(tree).node(self).parent;
                &&& forall|u: ViewId|
                    #[trigger] old(tree).valid(u) && u != self && !(fired.len() > 0 && par
                        == Some(u)) ==> final(tree).node(u) == old(tree).node(u)
                &&& (fired.len() > 0 && par is Some && old(tree).valid(par.unwrap()) ==> final(tree).node(par.unwrap()) == (ViewNodeV {
                    arrange_valid: false,
                    ..old(tree).node(par.unwrap())
                }))
            }),
    {
        layout_write(tree, self, p, v, true)
    }
}

/// The shared body of the two attached-property writes: performs the cell
/// write, then runs every scheduled handler in registration order. The
/// view-level invalidation is idempotent, so the batch settles however many
/// handlers were registered; a parent reference that has gone stale is
/// skipped.
fn layout_write(tree: &mut ViewTree, view: ViewId, p: crate::schema::DepProp<
    crate::canvas::CanvasComp,
    Point,
>, v: Point, dist: bool) -> (r: Point)
    requires
        old(tree).wf(),
        old(tree).valid(view),
        old(tree).node(view).layout matches Some(l) && 0 <= p.index() < l.cells.len(),
        old(tree).node(view).parent matches Some(pv) ==> pv != view,
    ensures
        final(tree).wf(),
        forall|u: ViewId| final(tree).valid(u) == old(tree).valid(u),
        final(tree).root_spec() == old(tree).root_spec(),
        r == old(tree).node(view).layout.unwrap().cells[p.index()].value,
        final(tree).node(view) == layout_written(old(tree).node(view), p.index(), v),
        ({
            let oldc = old(tree).node(view).layout.unwrap().cells[p.index()];
            let fired = if dist {
                dist_fires(oldc.value, v, oldc.handlers)
            } else {
                oldc.handlers
            };
            let par = old(tree).node(view).parent;
            &&& forall|u: ViewId|
                #[trigger] old(tree).valid(u) && u != view && !(fired.len() > 0 && par == Some(u))
                    ==> final(tree).node(u) == old(tree).node(u)
            &&& (fired.len() > 0 && par is Some && old(tree).valid(par.unwrap()) ==> final(tree).node(par.unwrap()) == (ViewNodeV {
                arrange_valid: false,
                ..old(tree).node(par.unwrap())
            }))
        }),
{
    let ghost pre = *tree;
    let node = tree.arena.take(view.0);
    let ViewNode { parent, children, intrinsic, desired_size, render_bounds, arrange_valid, layout, panel } = node;
    let pr: (Point, crate::reactive::OnChanged<ViewHandler>);
    let layout1: Option<CanvasLayout>;
    match layout {
        Some(mut l) => {
            pr = if dist {
                l.set_prop_dist(p, v)
            } else {
                l.set_prop(p, v)
            };
            layout1 = Some(l);
        },
        None => {
            pr = vstd::pervasive::unreached();
            layout1 = None;
        },
    }
    let par = parent;
    let node1 = ViewNode {
        parent,
        children,
        intrinsic,
        desired_size,
        render_bounds,
        arrange_valid,
        layout: layout1,
        panel,
    };
    tree.arena.put(view.0, node1);
    proof {
        assert(tree.node(view) =~~= layout_written(pre.node(view), p.index(), v));
        assert(tree.node(view) == layout_written(pre.node(view), p.index(), v));
        lemma_wf_preserved(pre, *tree);
    }
    let (oldv, oc) = pr;
    let ghost t1 = *tree;
    let n = oc.len();
    let mut i: usize = 0;
    while i < n
        invariant
            t1.wf(),
            tree.wf(),
            n == oc.fired().len(),
            i <= n,
            par matches Some(pv2) ==> pv2 != view,
            i == 0 ==> *tree == t1,
            i > 0 ==> invalidated(t1, par, *tree),
        decreases n - i,
    {
        match oc.get(i) {
            ViewHandler::InvalidateParentArrange => {
                match par {
                    Some(pv) => {
                        if tree.arena.contains(pv.0) {
                            pv.invalidate_arrange(tree);
                        }
                    },
                    None => {},
                }
            },
        }
        i += 1;
        proof {
            assert(invalidated(t1, par, *tree));
        }
    }
    proof {
        if n > 0 {
            assert(invalidated(t1, par, *tree));
            assert(t1.valid(view));
            assert(tree.node(view) == t1.node(view));
        }
    }
    proof {
        assert forall|u: ViewId| pre.valid(u) && u != view implies t1.node(u) == pre.node(u) by {}
        assert(tree.node(view) == t1.node(view));
        assert(tree.node(view) == layout_written(pre.node(view), p.index(), v));
        let oldc = pre.node(view).layout.unwrap().cells[p.index()];
        let firedn = if dist {
            dist_fires(oldc.value, v, oldc.handlers)
        } else {
            oldc.handlers
        };
        let parg = pre.node(view).parent;
        assert forall|u: ViewId|
            pre.valid(u) && u != view && !(firedn.len() > 0 && parg == Some(u)) implies tree.node(u)
            == pre.node(u) by {
            assert(t1.valid(u));
            assert(t1.node(u) == pre.node(u));
        }
        if firedn.len() > 0 && parg is Some && pre.valid(parg.unwrap()) {
            assert(tree.node(parg.unwrap()) =~~= (ViewNodeV {
                arrange_valid: false,
                ..pre.node(parg.unwrap())
            }));
            assert(tree.node(parg.unwrap()) == (ViewNodeV {
                arrange_valid: false,
                ..pre.node(parg.unwrap())
            }));
        }
    }
    oldv
}

/// The state the scheduled invalidation batch leaves behind, starting
/// from `t1`: the parent named by `par` — if any, and still live — is
/// marked for re-arrange; every other view keeps its value. Running the
/// behaviour once or many times lands in the same state.
pub open spec fn invalidated(t1: ViewTree, par: Option<ViewId>, t2: ViewTree) -> bool {
    &&& t2.wf()
    &&& forall|u: ViewId| t2.valid(u) == t1.valid(u)
    &&& t2.root_spec() == t1.root_spec()
    &&& match par {
        None => forall|u: ViewId| #[trigger] t1.valid(u) ==> t2.node(u) == t1.node(u),
        Some(pv) => {
            if t1.valid(pv) {
                &&& t2.node(pv) == (ViewNodeV { arrange_valid: false, ..t1.node(pv) })
                &&& forall|u: ViewId|
                    #[trigger] t1.valid(u) && u != pv ==> t2.node(u) == t1.node(u)
            } else {
                forall|u: ViewId| #[trigger] t1.valid(u) ==> t2.node(u) == t1.node(u)
            }
        },
    }
}

/// Well-formedness survives any change that keeps the valid set, the root
/// and every view's child list.
proof fn lemma_wf_preserved(pre: ViewTree, post: ViewTree)
    requires
        pre.wf(),
        post.arena.wf(),
        forall|u: ViewId| post.valid(u) == pre.valid(u),
        post.root_spec() == pre.root_spec(),
        forall|u: ViewId| #[trigger] post.valid(u) ==> post.node(u).children == pre.node(u).children,
    ensures
        post.wf(),
{
    assert forall|u: ViewId| #[trigger] post.valid(u) implies post.children_ok(u) by {
        assert(pre.children_ok(u));
        assert forall|i: int| 0 <= i < post.node(u).children.len() implies post.valid(
            #[trigger] post.node(u).children[i],
        ) by {
            assert(pre.valid(pre.node(u).children[i]));
        }
    }
}

/// The children of a valid view are valid and pairwise distinct.
pub proof fn lemma_children_wf(tree: ViewTree, v: ViewId)
    requires
        tree.wf(),
        tree.valid(v),
    ensures
        forall|i: int|
            0 <= i < tree.node(v).children.len() ==> tree.valid(#[trigger] tree.node(v).children[i]),
        forall|i: int, j: int|
            0 <= i < j < tree.node(v).children.len() ==> tree.node(v).children[i] != tree.node(
                v,
            ).children[j],
{
    assert(tree.children_ok(v));
}

} // verus!
