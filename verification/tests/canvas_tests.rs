use dep_obj::canvas::{canvas_layout_type, CanvasLayout, CanvasPanel, CanvasPanelBehavior};
use dep_obj::geometry::{Point, Rect, Vector};
use dep_obj::schema::DepTypeLock;
use dep_obj::view::{ViewId, ViewTree};

#[test]
fn canvas_schema_builds_exactly_once_per_lock() {
    let mut lock = DepTypeLock::new();
    assert!(canvas_layout_type(&mut lock).is_some());
    assert!(canvas_layout_type(&mut lock).is_none());
}

#[test]
fn attached_position_change_invalidates_parent_arrange() {
    let mut lock = DepTypeLock::new();
    let ty = canvas_layout_type(&mut lock).unwrap();
    let mut tree = ViewTree::new();
    let root = tree.root();
    CanvasPanel::new(&mut tree, root);
    let child = ViewId::new(&mut tree, root, Vector { x: 3, y: 4 });
    CanvasLayout::new(&mut tree, child, &ty);
    root.arrange(&mut tree, Rect { tl: Point { x: 0, y: 0 }, size: Vector { x: 10, y: 10 } });
    assert!(root.arrange_valid(&tree));
    // moving the child marks the parent for re-arrange
    let old = child.layout_set_dist(&mut tree, ty.tl(), Point { x: 5, y: 6 });
    assert_eq!(old, Point { x: 0, y: 0 });
    assert!(!root.arrange_valid(&tree));
    assert_eq!(child.layout_get(&tree, ty.tl()), Point { x: 5, y: 6 });
    // re-asserting the same position fires nothing
    root.arrange(&mut tree, Rect { tl: Point { x: 0, y: 0 }, size: Vector { x: 10, y: 10 } });
    assert!(root.arrange_valid(&tree));
    let old2 = child.layout_set_dist(&mut tree, ty.tl(), Point { x: 5, y: 6 });
    assert_eq!(old2, Point { x: 5, y: 6 });
    assert!(root.arrange_valid(&tree));
    // an unconditional write fires even for the same position
    let old3 = child.layout_set(&mut tree, ty.tl(), Point { x: 5, y: 6 });
    assert_eq!(old3, Point { x: 5, y: 6 });
    assert!(!root.arrange_valid(&tree));
}

#[test]
fn measure_pass_measures_every_child() {
    let mut tree = ViewTree::new();
    let root = tree.root();
    CanvasPanel::new(&mut tree, root);
    let a = ViewId::new(&mut tree, root, Vector { x: 3, y: 4 });
    let b = ViewId::new(&mut tree, root, Vector { x: 7, y: 1 });
    let behavior = CanvasPanelBehavior;
    let size = behavior.children_desired_size(root, &mut tree, (Some(9), None));
    // each given constraint (or zero) is the panel's extent
    assert_eq!(size, Vector { x: 9, y: 0 });
    // children were measured unconstrained: desired = intrinsic
    assert_eq!(a.desired_size(&tree), Vector { x: 3, y: 4 });
    assert_eq!(b.desired_size(&tree), Vector { x: 7, y: 1 });
}

#[test]
fn arrange_pass_places_children_at_their_attached_positions() {
    let mut lock = DepTypeLock::new();
    let ty = canvas_layout_type(&mut lock).unwrap();
    let mut tree = ViewTree::new();
    let root = tree.root();
    CanvasPanel::new(&mut tree, root);
    let a = ViewId::new(&mut tree, root, Vector { x: 3, y: 4 });
    let b = ViewId::new(&mut tree, root, Vector { x: 7, y: 1 });
    CanvasLayout::new(&mut tree, a, &ty);
    CanvasLayout::new(&mut tree, b, &ty);
    a.layout_set_dist(&mut tree, ty.tl(), Point { x: 2, y: 3 });
    let behavior = CanvasPanelBehavior;
    behavior.children_desired_size(root, &mut tree, (None, None));
    let bounds = Rect { tl: Point { x: 10, y: 20 }, size: Vector { x: 30, y: 40 } };
    let out = behavior.children_render_bounds(root, &mut tree, &ty, bounds);
    // the panel hands its own bounds back unchanged
    assert_eq!(out.tl, Point { x: 10, y: 20 });
    assert_eq!(out.size, Vector { x: 30, y: 40 });
    // each child sits at the bounds corner offset by its attached position
    let ra = a.render_bounds(&tree);
    assert_eq!(ra.tl, Point { x: 12, y: 23 });
    assert_eq!(ra.size, Vector { x: 3, y: 4 });
    let rb = b.render_bounds(&tree);
    assert_eq!(rb.tl, Point { x: 10, y: 20 });
    assert_eq!(rb.size, Vector { x: 7, y: 1 });
    assert!(a.arrange_valid(&tree));
    assert!(b.arrange_valid(&tree));
}

#[test]
fn views_are_generation_checked() {
    let mut tree = ViewTree::new();
    let root = tree.root();
    let child = ViewId::new(&mut tree, root, Vector { x: 1, y: 1 });
    assert!(tree.contains(child));
    assert!(tree.contains(root));
    let ghostless = ViewId(dep_obj::arena::Handle::from_raw_parts((child.0.index, child.0.generation + 1)));
    assert!(!tree.contains(ghostless));
}
