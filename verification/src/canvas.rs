//! The canvas panel: a container that lets each child pin itself at an
//! attached top-left position. The container's component type declares the
//! attached property (`tl`) through the schema builder; each child carries
//! its own storage block for it. Changing a child's position invalidates
//! the parent's cached arrange result, through a change handler registered
//! on the attached property. The two layout passes are: (1) bottom-up, the
//! panel measures every child unconstrained and reports the constraint (or
//! zero) as its own extent; (2) top-down, the panel arranges every child at
//! its attached position offset from the allotted bounds, at the child's
//! desired extent.

use vstd::prelude::*;
use crate::geometry::{spec_offset, spec_offset_from, Point, Rect, Vector};
use crate::reactive::{OnChanged, Reactive};
use crate::schema::{DepObjProps, DepProp, DepTypeBuilder, DepTypeLock, DepTypeToken};
use crate::view::{lemma_children_wf, lemma_point_eq_obeys, ViewHandler, ViewId, ViewNodeV,
    ViewTree};

verus! {

/// Component-type identity of the canvas layout.
pub struct CanvasComp;

/// The mathematical image of one attached-property cell.
#[verifier::ext_equal]
pub struct LayoutCellV {
    pub value: Point,
    pub handlers: Seq<ViewHandler>,
}

/// The mathematical image of a layout property block.
#[verifier::ext_equal]
pub struct LayoutV {
    pub cells: Seq<LayoutCellV>,
}

/// The canvas layout's schema: the sealed token plus the attached top-left
/// position property it issued.
pub struct CanvasLayoutType {
    token: DepTypeToken<CanvasComp, Point>,
    tl: DepProp<CanvasComp, Point>,
}

impl CanvasLayoutType {
    /// The canonical canvas layout: the attached position at offset 0,
    /// defaulting to the origin.
    pub closed spec fn wf(self) -> bool {
        &&& self.tl.index() == 0
        &&& self.token.defaults() == seq![Point { x: 0, y: 0 }]
    }

    /// The attached position's property identity.
    pub fn tl(&self) -> (p: DepProp<CanvasComp, Point>)
        requires
            self.wf(),
        ensures
            p.index() == 0,
    {
        self.tl
    }
}

/// Builds the canvas layout schema exactly once per lock: a second
/// invocation while the lock is not fresh fails to produce a token.
pub fn canvas_layout_type(lock: &mut DepTypeLock) -> (r: Option<CanvasLayoutType>)
    ensures
        old(lock).is_free() ==> final(lock).is_built() && (r matches Some(t) && t.wf()),
        !old(lock).is_free() ==> r is None && *final(lock) == *old(lock),
{
    match DepTypeBuilder::<CanvasComp, Point>::new(lock) {
        None => None,
        Some(mut builder) => {
            let tl = builder.prop(Point { x: 0, y: 0 });
            let token = builder.build(lock);
            proof {
                assert(token.defaults() =~= seq![Point { x: 0, y: 0 }]);
            }
            Some(CanvasLayoutType { token, tl })
        },
    }
}

/// A child's storage block for the canvas's attached properties.
pub struct CanvasLayout {
    props: DepObjProps<CanvasComp, Point, ViewHandler>,
}

/// The image of a layout block.
pub closed spec fn layout_view(l: CanvasLayout) -> LayoutV {
    LayoutV {
        cells: l.props.cells().map_values(
            |c: Reactive<Point, ViewHandler>| LayoutCellV { value: c.val(), handlers: c.watchers() },
        ),
    }
}

impl CanvasLayout {
    /// A fresh block: every attached property at its schema default, no
    /// handler.
    pub fn new_raw(ty: &CanvasLayoutType) -> (r: CanvasLayout)
        requires
            ty.wf(),
        ensures
            layout_view(r) == (LayoutV {
                cells: seq![
                    LayoutCellV {
                        value: (Point { x: 0, y: 0 }),
                        handlers: Seq::<ViewHandler>::empty(),
                    },
                ],
            }),
    {
        let r = CanvasLayout { props: DepObjProps::new(&ty.token) };
        proof {
            assert(layout_view(r).cells =~~= seq![
                LayoutCellV {
                    value: (Point { x: 0, y: 0 }),
                    handlers: Seq::<ViewHandler>::empty(),
                },
            ]);
        }
        r
    }

    /// Reads one attached property.
    pub fn get_prop(&self, p: DepProp<CanvasComp, Point>) -> (v: Point)
        requires
            0 <= p.index() < layout_view(*self).cells.len(),
        ensures
            v == layout_view(*self).cells[p.index()].value,
    {
        *self.props.cell(p).get()
    }

    /// Unconditional write to one attached property; returns the previous
    /// value and the scheduled view handlers.
    pub fn set_prop(&mut self, p: DepProp<CanvasComp, Point>, v: Point) -> (r: (
        Point,
        OnChanged<ViewHandler>,
    ))
        requires
            0 <= p.index() < layout_view(*old(self)).cells.len(),
        ensures
            r.0 == layout_view(*old(self)).cells[p.index()].value,
            r.1.fired() == layout_view(*old(self)).cells[p.index()].handlers,
            layout_view(*final(self)) == (LayoutV {
                cells: layout_view(*old(self)).cells.update(
                    p.index(),
                    LayoutCellV {
                        value: v,
                        handlers: layout_view(*old(self)).cells[p.index()].handlers,
                    },
                ),
            }),
    {
        let r = self.props.set(p, v);
        proof {
            assert(layout_view(*self).cells =~= layout_view(*old(self)).cells.update(
                p.index(),
                LayoutCellV {
                    value: v,
                    handlers: layout_view(*old(self)).cells[p.index()].handlers,
                },
            ));
        }
        r
    }

    /// Distinct-value write to one attached property: handlers are
    /// scheduled only when the new position differs from the old one.
    pub fn set_prop_dist(&mut self, p: DepProp<CanvasComp, Point>, v: Point) -> (r: (
        Point,
        OnChanged<ViewHandler>,
    ))
        requires
            0 <= p.index() < layout_view(*old(self)).cells.len(),
        ensures
            r.0 == layout_view(*old(self)).cells[p.index()].value,
            r.1.fired() == crate::reactive::dist_fires(
                layout_view(*old(self)).cells[p.index()].value,
                v,
                layout_view(*old(self)).cells[p.index()].handlers,
            ),
            layout_view(*final(self)) == (LayoutV {
                cells: layout_view(*old(self)).cells.update(
                    p.index(),
                    LayoutCellV {
                        value: v,
                        handlers: layout_view(*old(self)).cells[p.index()].handlers,
                    },
                ),
            }),
    {
        proof {
            lemma_point_eq_obeys();
        }
        let r = self.props.set_dist(p, v);
        proof {
            assert(layout_view(*self).cells =~= layout_view(*old(self)).cells.update(
                p.index(),
                LayoutCellV {
                    value: v,
                    handlers: layout_view(*old(self)).cells[p.index()].handlers,
                },
            ));
        }
        r
    }

    /// Registers one more view handler on one attached property.
    pub fn add_handler(&mut self, p: DepProp<CanvasComp, Point>, handler: ViewHandler)
        requires
            0 <= p.index() < layout_view(*old(self)).cells.len(),
        ensures
            layout_view(*final(self)) == (LayoutV {
                cells: layout_view(*old(self)).cells.update(
                    p.index(),
                    LayoutCellV {
                        value: layout_view(*old(self)).cells[p.index()].value,
                        handlers: layout_view(*old(self)).cells[p.index()].handlers.push(handler),
                    },
                ),
            }),
    {
        self.props.on_changed(p, handler);
        proof {
            assert(layout_view(*self).cells =~= layout_view(*old(self)).cells.update(
                p.index(),
                LayoutCellV {
                    value: layout_view(*old(self)).cells[p.index()].value,
                    handlers: layout_view(*old(self)).cells[p.index()].handlers.push(handler),
                },
            ));
        }
    }

    /// Gives `view` a fresh canvas layout block and registers the
    /// parent-arrange invalidation handler on the attached position.
    pub fn new(tree: &mut ViewTree, view: ViewId, ty: &CanvasLayoutType)
        requires
            old(tree).wf(),
            old(tree).valid(view),
            ty.wf(),
        ensures
            final(tree).wf(),
            forall|u: ViewId| final(tree).valid(u) == old(tree).valid(u),
            final(tree).root_spec() == old(tree).root_spec(),
            forall|u: ViewId|
                #[trigger] old(tree).valid(u) && u != view ==> final(tree).node(u) == old(
                    tree,
                ).node(u),
            final(tree).node(view) == (ViewNodeV {
                layout: Some(
                    LayoutV {
                        cells: seq![
                            LayoutCellV {
                                value: (Point { x: 0, y: 0 }),
                                handlers: seq![ViewHandler::InvalidateParentArrange],
                            },
                        ],
                    },
                ),
                ..old(tree).node(view)
            }),
    {
        let ghost pre = *tree;
        view.set_layout(tree, CanvasLayout::new_raw(ty));
        view.layout_on_changed(tree, ty.tl(), ViewHandler::InvalidateParentArrange);
        proof {
            assert(final(tree).node(view).layout.unwrap().cells =~~= seq![
                LayoutCellV {
                    value: (Point { x: 0, y: 0 }),
                    handlers: seq![ViewHandler::InvalidateParentArrange],
                },
            ]);
            assert(final(tree).node(view) =~~= (ViewNodeV {
                layout: Some(
                    LayoutV {
                        cells: seq![
                            LayoutCellV {
                                value: (Point { x: 0, y: 0 }),
                                handlers: seq![ViewHandler::InvalidateParentArrange],
                            },
                        ],
                    },
                ),
                ..pre.node(view)
            }));
        }
    }
}

/// A canvas panel: the container behaviour that lays children out at their
/// attached positions.
pub struct CanvasPanel(());

impl CanvasPanel {
    /// Attaches a canvas panel to `view`.
    pub fn new(tree: &mut ViewTree, view: ViewId)
        requires
            old(tree).wf(),
            old(tree).valid(view),
        ensures
            final(tree).wf(),
            forall|u: ViewId| final(tree).valid(u) == old(tree).valid(u),
            final(tree).root_spec() == old(tree).root_spec(),
            forall|u: ViewId|
                #[trigger] old(tree).valid(u) && u != view ==> final(tree).node(u) == old(
                    tree,
                ).node(u),
            final(tree).node(view).panel is Some,
            final(tree).node(view) == (ViewNodeV {
                panel: final(tree).node(view).panel,
                ..old(tree).node(view)
            }),
    {
        view.set_panel(tree, CanvasPanel(()));
    }

    /// The panel's layout behaviour.
    pub fn behavior(&self) -> (b: CanvasPanelBehavior) {
        CanvasPanelBehavior
    }
}

/// The canvas's own desired extent: each given constraint, or zero.
pub open spec fn canvas_desired(cms: (Option<i16>, Option<i16>)) -> Vector {
    Vector {
        x: match cms.0 {
            Some(w) => w,
            None => 0,
        },
        y: match cms.1 {
            Some(h) => h,
            None => 0,
        },
    }
}

/// The placement rectangle of one child: the allotted bounds' corner offset
/// by the child's attached position, at the child's desired extent.
pub open spec fn canvas_child_bounds(tlv: Point, desired: Vector, bounds: Rect) -> Rect {
    Rect {
        tl: spec_offset(bounds.tl, spec_offset_from(tlv, Point { x: 0, y: 0 })),
        size: desired,
    }
}

/// The canvas panel's two layout passes.
pub struct CanvasPanelBehavior;

impl CanvasPanelBehavior {
    /// The bottom-up pass: measures every child with no constraint (a
    /// canvas imposes none), then reports each given constraint — or zero —
    /// as the panel's own desired extent.
    pub fn children_desired_size(
        &self,
        view: ViewId,
        tree: &mut ViewTree,
        children_measure_size: (Option<i16>, Option<i16>),
    ) -> (r: Vector)
        requires
            old(tree).wf(),
            old(tree).valid(view),
        ensures
            final(tree).wf(),
            forall|u: ViewId| final(tree).valid(u) == old(tree).valid(u),
            final(tree).root_spec() == old(tree).root_spec(),
            r == canvas_desired(children_measure_size),
            forall|i: int|
                0 <= i < old(tree).node(view).children.len() ==> final(tree).node(
                    #[trigger] old(tree).node(view).children[i],
                ) == (ViewNodeV {
                    desired_size: old(tree).node(old(tree).node(view).children[i]).intrinsic,
                    ..old(tree).node(old(tree).node(view).children[i])
                }),
            forall|u: ViewId|
                #[trigger] old(tree).valid(u) && !old(tree).node(view).children.contains(u)
                    ==> final(tree).node(u) == old(tree).node(u),
    {
        let ghost pre = *tree;
        proof {
            lemma_children_wf(pre, view);
        }
        let cnt = view.child_count(tree);
        let mut i: usize = 0;
        while i < cnt
            invariant
                pre.wf(),
                tree.wf(),
                tree.valid(view),
                *old(tree) == pre,
                cnt == pre.node(view).children.len(),
                i <= cnt,
                forall|u: ViewId| tree.valid(u) == pre.valid(u),
                tree.root_spec() == pre.root_spec(),
                tree.node(view).children == pre.node(view).children,
                forall|k: int| 0 <= k < cnt ==> pre.valid(#[trigger] pre.node(view).children[k]),
                forall|k1: int, k2: int|
                    0 <= k1 < k2 < cnt ==> pre.node(view).children[k1] != pre.node(
                        view,
                    ).children[k2],
                forall|j: int|
                    0 <= j < i ==> tree.node(#[trigger] pre.node(view).children[j])
                        == (ViewNodeV {
                        desired_size: pre.node(pre.node(view).children[j]).intrinsic,
                        ..pre.node(pre.node(view).children[j])
                    }),
                forall|u: ViewId|
                    #[trigger] pre.valid(u) && !pre.node(view).children.subrange(
                        0,
                        i as int,
                    ).contains(u) ==> tree.node(u) == pre.node(u),
            decreases cnt - i,
        {
            let c = view.child(tree, i);
            proof {
                assert(c == pre.node(view).children[i as int]);
                assert(!pre.node(view).children.subrange(0, i as int).contains(c));
                assert(tree.node(c) == pre.node(c));
            }
            let ghost tb = *tree;
            c.measure(tree, (None, None));
            i += 1;
            proof {
                let sub0 = pre.node(view).children.subrange(0, i as int - 1);
                let sub1 = pre.node(view).children.subrange(0, i as int);
                assert(sub1 =~= sub0.push(c));
                assert(tree.node(c) =~~= (ViewNodeV {
                    desired_size: pre.node(c).intrinsic,
                    ..pre.node(c)
                }));
                assert(tree.node(c) == (ViewNodeV {
                    desired_size: pre.node(c).intrinsic,
                    ..pre.node(c)
                }));
                assert forall|u: ViewId|
                    pre.valid(u) && !sub1.contains(u) implies tree.node(u) == pre.node(u) by {
                    assert(!sub0.contains(u)) by {
                        if sub0.contains(u) {
                            let k = choose|k: int| 0 <= k < sub0.len() && sub0[k] == u;
                            assert(sub1[k] == u);
                        }
                    }
                    assert(u != c) by {
                        if u == c {
                            assert(sub1[i as int - 1] == u);
                        }
                    }
                    assert(tb.valid(u));
                    assert(tb.node(u) == pre.node(u));
                }
            }
        }
        proof {
            assert forall|u: ViewId|
                #[trigger] pre.valid(u) && !pre.node(view).children.contains(u) implies tree.node(
                u,
            ) == pre.node(u) by {
                assert(!pre.node(view).children.subrange(0, cnt as int).contains(u));
            }
        }
        let w = match children_measure_size.0 {
            Some(w) => w,
            None => 0,
        };
        let h = match children_measure_size.1 {
            Some(h) => h,
            None => 0,
        };
        Vector { x: w, y: h }
    }

    /// The top-down pass: arranges every child at its attached position
    /// offset from the allotted bounds, at the child's desired extent, and
    /// hands the bounds back unchanged.
    pub fn children_render_bounds(
        &self,
        view: ViewId,
        tree: &mut ViewTree,
        ty: &CanvasLayoutType,
        children_arrange_bounds: Rect,
    ) -> (r: Rect)
        requires
            old(tree).wf(),
            old(tree).valid(view),
            ty.wf(),
            forall|i: int|
                0 <= i < old(tree).node(view).children.len() ==> (old(tree).node(
                    #[trigger] old(tree).node(view).children[i],
                ).layout matches Some(l) && l.cells.len() >= 1),
        ensures
            final(tree).wf(),
            forall|u: ViewId| final(tree).valid(u) == old(tree).valid(u),
            final(tree).root_spec() == old(tree).root_spec(),
            r == children_arrange_bounds,
            forall|i: int|
                0 <= i < old(tree).node(view).children.len() ==> final(tree).node(
                    #[trigger] old(tree).node(view).children[i],
                ) == (ViewNodeV {
                    render_bounds: canvas_child_bounds(
                        old(tree).node(old(tree).node(view).children[i]).layout.unwrap().cells[
                            0
                        ].value,
                        old(tree).node(old(tree).node(view).children[i]).desired_size,
                        children_arrange_bounds,
                    ),
                    arrange_valid: true,
                    ..old(tree).node(old(tree).node(view).children[i])
                }),
            forall|u: ViewId|
                #[trigger] old(tree).valid(u) && !old(tree).node(view).children.contains(u)
                    ==> final(tree).node(u) == old(tree).node(u),
    {
        let ghost pre = *tree;
        proof {
            lemma_children_wf(pre, view);
        }
        let cnt = view.child_count(tree);
        let mut i: usize = 0;
        while i < cnt
            invariant
                pre.wf(),
                tree.wf(),
                tree.valid(view),
                *old(tree) == pre,
                ty.wf(),
                cnt == pre.node(view).children.len(),
                i <= cnt,
                forall|u: ViewId| tree.valid(u) == pre.valid(u),
                tree.root_spec() == pre.root_spec(),
                tree.node(view).children == pre.node(view).children,
                forall|k: int| 0 <= k < cnt ==> pre.valid(#[trigger] pre.node(view).children[k]),
                forall|k1: int, k2: int|
                    0 <= k1 < k2 < cnt ==> pre.node(view).children[k1] != pre.node(
                        view,
                    ).children[k2],
                forall|k: int|
                    0 <= k < cnt ==> (pre.node(
                        #[trigger] pre.node(view).children[k],
                    ).layout matches Some(l) && l.cells.len() >= 1),
                forall|j: int|
                    0 <= j < i ==> tree.node(#[trigger] pre.node(view).children[j])
                        == (ViewNodeV {
                        render_bounds: canvas_child_bounds(
                            pre.node(pre.node(view).children[j]).layout.unwrap().cells[0].value,
                            pre.node(pre.node(view).children[j]).desired_size,
                            children_arrange_bounds,
                        ),
                        arrange_valid: true,
                        ..pre.node(pre.node(view).children[j])
                    }),
                forall|u: ViewId|
                    #[trigger] pre.valid(u) && !pre.node(view).children.subrange(
                        0,
                        i as int,
                    ).contains(u) ==> tree.node(u) == pre.node(u),
            decreases cnt - i,
        {
            let c = view.child(tree, i);
            proof {
                assert(c == pre.node(view).children[i as int]);
                assert(!pre.node(view).children.subrange(0, i as int).contains(c));
                assert(tree.node(c) == pre.node(c));
            }
            let tlv = c.layout_get(tree, ty.tl());
            let child_offset = tlv.offset_from(Point { x: 0, y: 0 });
            let child_size = c.desired_size(tree);
            let ghost tb = *tree;
            c.arrange(
                tree,
                Rect { tl: children_arrange_bounds.tl.offset(child_offset), size: child_size },
            );
            i += 1;
            proof {
                let sub0 = pre.node(view).children.subrange(0, i as int - 1);
                let sub1 = pre.node(view).children.subrange(0, i as int);
                assert(sub1 =~= sub0.push(c));
                assert forall|u: ViewId|
                    pre.valid(u) && !sub1.contains(u) implies tree.node(u) == pre.node(u) by {
                    assert(!sub0.contains(u)) by {
                        if sub0.contains(u) {
                            let k = choose|k: int| 0 <= k < sub0.len() && sub0[k] == u;
                            assert(sub1[k] == u);
                        }
                    }
                    assert(u != c) by {
                        if u == c {
                            assert(sub1[i as int - 1] == u);
                        }
                    }
                    assert(tb.valid(u));
                    assert(tb.node(u) == pre.node(u));
                }
                assert(tree.node(c) =~~= (ViewNodeV {
                    render_bounds: canvas_child_bounds(
                        pre.node(c).layout.unwrap().cells[0].value,
                        pre.node(c).desired_size,
                        children_arrange_bounds,
                    ),
                    arrange_valid: true,
                    ..pre.node(c)
                }));
                assert(tree.node(c) == (ViewNodeV {
                    render_bounds: canvas_child_bounds(
                        pre.node(c).layout.unwrap().cells[0].value,
                        pre.node(c).desired_size,
                        children_arrange_bounds,
                    ),
                    arrange_valid: true,
                    ..pre.node(c)
                }));
            }
        }
        proof {
            assert forall|u: ViewId|
                #[trigger] pre.valid(u) && !pre.node(view).children.contains(u) implies tree.node(
                u,
            ) == pre.node(u) by {
                assert(!pre.node(view).children.subrange(0, cnt as int).contains(u));
            }
        }
        children_arrange_bounds
    }
}

} // verus!
