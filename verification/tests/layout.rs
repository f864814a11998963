use fehui::Build;
use fehui::FehUI;
use fehui::FlexEdge;
use fehui::Layout;
use fehui::LayoutNode;
use fehui::Size;
use fehui::Widget;
use fehui::WidgetId;
use fehui::WidgetView;
use fehui::widgets::Row;
use stretch::geometry;
use stretch::number::Number;
use stretch::style::Dimension;
use stretch::style::Style;

/// Widgets with configurable layout intent: chains of layout-transparent
/// nodes, flex leaves, and the library's `Row`.
#[derive(Debug)]
enum LW {
    Leaf(Layout),
    Chain { intent: Layout, children: Vec<LW> },
    RowW(Row<LW>),
}

impl Widget<u64, LW> for LW {
    fn build(&mut self, ctxt: &mut Build<u64, LW>) {
        match self {
            LW::Leaf(_) => {}
            LW::Chain { children, .. } => {
                for w in children.drain(..) {
                    ctxt.add(w, None);
                }
            }
            LW::RowW(r) => r.build(ctxt),
        }
    }

    fn layout_spec(&self) -> Layout {
        match self {
            LW::Leaf(l) => *l,
            LW::Chain { intent, .. } => *intent,
            LW::RowW(r) => r.layout(),
        }
    }

    fn layout(&self) -> Layout {
        match self {
            LW::Leaf(l) => *l,
            LW::Chain { intent, .. } => *intent,
            LW::RowW(r) => r.layout(),
        }
    }
}

/// Runs the real flexbox solver on one node sized as a percentage of the
/// available space, and returns its solved size in whole pixels.
fn solve_single_node(percent_w: f32, percent_h: f32, avail_w: f32, avail_h: f32) -> Size {
    let mut solver = stretch::Stretch::new();
    let node = solver
        .new_node(
            Style {
                size: geometry::Size {
                    width: Dimension::Percent(percent_w),
                    height: Dimension::Percent(percent_h),
                },
                ..Style::default()
            },
            vec![],
        )
        .unwrap();
    solver
        .compute_layout(
            node,
            geometry::Size { width: Number::Defined(avail_w), height: Number::Defined(avail_h) },
        )
        .unwrap();
    let solved = solver.layout(node).unwrap();
    Size { width: solved.size.width.round() as u32, height: solved.size.height.round() as u32 }
}

#[test]
fn layout_pass_through_chain() {
    // a chain of two Pass-intent widgets ending in one Flex-intent widget
    let mut ui: FehUI<u64, LW> = FehUI::new();
    ui.build(LW::Chain {
        intent: Layout::Pass,
        children: vec![LW::Chain { intent: Layout::Pass, children: vec![LW::Leaf(Layout::Flex)] }],
    });
    ui.generate_layout();
    assert_eq!(ui.pass().layout_of(WidgetId(0)), Some(LayoutNode::Transparent));
    assert_eq!(ui.pass().layout_of(WidgetId(1)), Some(LayoutNode::Transparent));
    assert_eq!(ui.pass().layout_of(WidgetId(2)), Some(LayoutNode::FlexRoot));
    assert_eq!(
        ui.flex_nodes().as_slice(),
        &[FlexEdge { node: WidgetId(2), parent: None }]
    );

    // solve the single flexbox node with the real solver at 50% x 50%
    let solver_size = solve_single_node(0.5, 0.5, 200.0, 100.0);
    assert_eq!(solver_size, Size { width: 100, height: 50 });

    let solved = vec![None, None, Some(solver_size)];
    let sizes = ui.compute_layout(200, 100, &solved);

    // every intermediate widget reports the root size unchanged; the flex
    // widget reports the solver's output for its own node
    assert_eq!(sizes[0], Size { width: 200, height: 100 });
    assert_eq!(sizes[1], Size { width: 200, height: 100 });
    assert_eq!(sizes[2], Size { width: 100, height: 50 });
}

#[test]
fn flex_under_flex_becomes_child_node() {
    let mut ui: FehUI<u64, LW> = FehUI::new();
    ui.build(LW::Chain {
        intent: Layout::Flex,
        children: vec![LW::Leaf(Layout::Flex), LW::Leaf(Layout::Pass)],
    });
    ui.generate_layout();
    assert_eq!(ui.pass().layout_of(WidgetId(0)), Some(LayoutNode::FlexRoot));
    assert_eq!(
        ui.pass().layout_of(WidgetId(1)),
        Some(LayoutNode::Flex { root: WidgetId(0) })
    );
    assert_eq!(ui.pass().layout_of(WidgetId(2)), Some(LayoutNode::Transparent));
    assert_eq!(
        ui.flex_nodes().as_slice(),
        &[
            FlexEdge { node: WidgetId(0), parent: None },
            FlexEdge { node: WidgetId(1), parent: Some(WidgetId(0)) },
        ]
    );
}

#[test]
fn transparent_node_forwards_context_to_children() {
    // Flex root, then a Pass node, then a Flex leaf: the leaf is parented
    // to the root's flexbox node, not to a new root
    let mut ui: FehUI<u64, LW> = FehUI::new();
    ui.build(LW::Chain {
        intent: Layout::Flex,
        children: vec![LW::Chain { intent: Layout::Pass, children: vec![LW::Leaf(Layout::Flex)] }],
    });
    ui.generate_layout();
    assert_eq!(
        ui.pass().layout_of(WidgetId(2)),
        Some(LayoutNode::Flex { root: WidgetId(0) })
    );
    assert_eq!(
        ui.flex_nodes().as_slice(),
        &[
            FlexEdge { node: WidgetId(0), parent: None },
            FlexEdge { node: WidgetId(2), parent: Some(WidgetId(0)) },
        ]
    );
}

#[test]
fn flex_edges_follow_depth_first_order() {
    // root Flex with children [Pass t, Flex g], t containing Flex x: the
    // solver tree attaches x (reached through t, the earlier sibling)
    // before g, as a depth-first attachment walk does
    let mut ui: FehUI<u64, LW> = FehUI::new();
    ui.build(LW::Chain {
        intent: Layout::Flex,
        children: vec![
            LW::Chain { intent: Layout::Pass, children: vec![LW::Leaf(Layout::Flex)] },
            LW::Leaf(Layout::Flex),
        ],
    });
    ui.generate_layout();
    // ids: 0 root, 1 = t, 2 = g, 3 = x (siblings allocated before
    // grandchildren), yet the edge order is depth-first
    assert_eq!(
        ui.flex_nodes().as_slice(),
        &[
            FlexEdge { node: WidgetId(0), parent: None },
            FlexEdge { node: WidgetId(3), parent: Some(WidgetId(0)) },
            FlexEdge { node: WidgetId(2), parent: Some(WidgetId(0)) },
        ]
    );
}

#[test]
fn all_transparent_tree_reports_root_size_everywhere() {
    let mut ui: FehUI<u64, LW> = FehUI::new();
    ui.build(LW::Chain {
        intent: Layout::Pass,
        children: vec![LW::Leaf(Layout::Pass), LW::Leaf(Layout::Pass)],
    });
    ui.generate_layout();
    assert!(ui.flex_nodes().is_empty());
    let solved = vec![None, None, None];
    let sizes = ui.compute_layout(64, 48, &solved);
    assert_eq!(sizes, vec![Size { width: 64, height: 48 }; 3]);
}

#[test]
fn row_widget_consumes_views_and_flexes() {
    let mut ui: FehUI<u64, LW> = FehUI::new();
    ui.build(LW::RowW(Row {
        children: vec![
            WidgetView::new(LW::Leaf(Layout::Pass)),
            WidgetView::new(LW::Leaf(Layout::Pass)),
        ],
    }));
    assert_eq!(ui.pass().len(), 3);
    ui.generate_layout();
    assert_eq!(ui.pass().layout_of(WidgetId(0)), Some(LayoutNode::FlexRoot));
    assert_eq!(ui.pass().layout_of(WidgetId(1)), Some(LayoutNode::Transparent));
    assert_eq!(ui.pass().layout_of(WidgetId(2)), Some(LayoutNode::Transparent));

    // the row's solved size propagates to its transparent children
    let solver_size = solve_single_node(1.0, 1.0, 320.0, 240.0);
    let solved = vec![Some(solver_size), None, None];
    let sizes = ui.layout(320, 240, &solved);
    assert_eq!(sizes[0], Size { width: 320, height: 240 });
    assert_eq!(sizes[1], Size { width: 320, height: 240 });
    assert_eq!(sizes[2], Size { width: 320, height: 240 });
}
