use fehui::Build;
use fehui::BuildError;
use fehui::FehUI;
use fehui::GlobalKeygen;
use fehui::Id;
use fehui::Key;
use fehui::Layout;
use fehui::NodeId;
use fehui::Widget;
use fehui::WidgetId;
use fehui::WidgetIdGen;
use fehui::WidgetView;

/// A small widget family for driving the engine from tests: leaves, parents
/// that add owned children (optionally under explicit keys), and widgets
/// that resolve persisted state, reporting the cell they received.
#[derive(Debug)]
enum TW {
    Leaf(Layout),
    Parent { intent: Layout, children: Vec<(TW, Option<Key>)> },
    Stateful { tag: u64, default: u64, cell: Option<usize> },
}

impl Widget<u64, TW> for TW {
    fn build(&mut self, ctxt: &mut Build<u64, TW>) {
        match self {
            TW::Leaf(_) => {}
            TW::Parent { children, .. } => {
                for (w, k) in children.drain(..) {
                    ctxt.add(w, k);
                }
            }
            TW::Stateful { tag, default, cell } => {
                *cell = ctxt.try_create_state(*tag, *default);
            }
        }
    }

    fn layout_spec(&self) -> Layout {
        match self {
            TW::Leaf(l) => *l,
            TW::Parent { intent, .. } => *intent,
            TW::Stateful { .. } => Layout::Pass,
        }
    }

    fn layout(&self) -> Layout {
        match self {
            TW::Leaf(l) => *l,
            TW::Parent { intent, .. } => *intent,
            TW::Stateful { .. } => Layout::Pass,
        }
    }
}

fn two_pass_children() -> TW {
    TW::Parent {
        intent: Layout::Pass,
        children: vec![
            (TW::Leaf(Layout::Pass), None),
            (TW::Leaf(Layout::Pass), None),
        ],
    }
}

#[test]
fn id_generator_is_monotonic_from_zero() {
    let mut g = WidgetIdGen::new();
    assert_eq!(g.generate(), WidgetId(0));
    assert_eq!(g.generate(), WidgetId(1));
    assert_eq!(g.generate(), WidgetId(2));
}

#[test]
fn global_keygen_reserves_zero_for_root() {
    let mut g = GlobalKeygen::new();
    assert_eq!(GlobalKeygen::root_key(), Key::Global(0));
    assert_eq!(g.generate(), Key::Global(1));
    assert_eq!(g.generate(), Key::Global(2));
}

#[test]
fn build_completeness() {
    let mut ui: FehUI<u64, TW> = FehUI::new();
    let root = TW::Parent {
        intent: Layout::Pass,
        children: vec![
            (TW::Leaf(Layout::Pass), None),
            (
                TW::Parent {
                    intent: Layout::Pass,
                    children: vec![(TW::Leaf(Layout::Pass), None)],
                },
                None,
            ),
        ],
    };
    ui.build(root);
    let pass = ui.pass();
    assert_eq!(pass.len(), 4);
    assert_eq!(pass.graph().len(), 4);
    for i in 0..4 {
        let id = WidgetId(i);
        assert!(pass.widget(id).is_some(), "widget {i} missing");
        assert!(pass.key_of(id).is_some(), "key {i} missing");
        assert!(pass.layout_of(id).is_some(), "layout {i} missing");
        assert_eq!(pass.graph().nodes[i].data, id);
    }
    assert!(pass.key_of(WidgetId(4)).is_none());
}

#[test]
fn local_keys_follow_parent_and_sibling_index() {
    let mut ui: FehUI<u64, TW> = FehUI::new();
    ui.build(TW::Parent {
        intent: Layout::Pass,
        children: vec![
            (TW::Leaf(Layout::Pass), None),
            (TW::Leaf(Layout::Pass), Some(Key::Global(9))),
            (TW::Leaf(Layout::Pass), None),
        ],
    });
    let pass = ui.pass();
    assert_eq!(pass.key_of(WidgetId(0)), Some(Key::Global(0)));
    assert_eq!(
        pass.key_of(WidgetId(1)),
        Some(Key::Local { parent: WidgetId(0), local: 0 })
    );
    assert_eq!(pass.key_of(WidgetId(2)), Some(Key::Global(9)));
    assert_eq!(
        pass.key_of(WidgetId(3)),
        Some(Key::Local { parent: WidgetId(0), local: 2 })
    );
    // graph structure: all three are children of the root, in order
    let children = pass.graph().children(NodeId(0));
    assert_eq!(children.as_slice(), &[NodeId(1), NodeId(2), NodeId(3)]);
}

#[test]
fn view_single_consumption() {
    let mut b: Build<u64, TW> = Build::new();
    b.start(TW::Leaf(Layout::Pass));
    let mut v = WidgetView::new(TW::Leaf(Layout::Pass));
    assert!(v.is_owned());
    let first = b.add_view(&mut v);
    let id = Id { widget: WidgetId(1), node: NodeId(1) };
    assert_eq!(first, Ok(id));
    assert!(!v.is_owned());
    assert_eq!(v.ref_id(), Some(id));
    // attaching the same view a second time is a programming-contract
    // violation that `add_view`'s requires excludes for verified callers;
    // an unverified caller that does it anyway has it reported, not
    // silently absorbed
    let second = b.add_view(&mut v);
    assert_eq!(second, Err(BuildError::ViewAlreadyAttached));
    // nothing was allocated by the failed attempt
    assert_eq!(b.len(), 2);
}

#[test]
fn exhausted_child_budget_is_reported() {
    let mut b: Build<u64, TW> = Build::new();
    b.start(TW::Leaf(Layout::Pass));
    b.set_fuel(1);
    assert!(b.add(TW::Leaf(Layout::Pass), None).is_some());
    assert!(b.add(TW::Leaf(Layout::Pass), None).is_none());
    let mut v = WidgetView::new(TW::Leaf(Layout::Pass));
    assert_eq!(b.add_view(&mut v), Err(BuildError::OutOfFuel));
    // the refused view still owns its widget
    assert!(v.is_owned());
}

#[test]
fn end_to_end_rebuild_keeps_key_structure_and_state() {
    let mut ui: FehUI<u64, TW> = FehUI::new();

    let make_root = || TW::Parent {
        intent: Layout::Pass,
        children: vec![
            (TW::Stateful { tag: 1, default: 7, cell: None }, None),
            (TW::Leaf(Layout::Pass), None),
        ],
    };

    ui.build(make_root());
    assert_eq!(ui.pass().len(), 3);
    assert_eq!(ui.root, Some(Id { widget: WidgetId(0), node: NodeId(0) }));
    let keys1: Vec<Key> = (0..3).map(|i| ui.pass().key_of(WidgetId(i)).unwrap()).collect();
    let cell1 = match ui.pass().widget(WidgetId(1)).unwrap() {
        TW::Stateful { cell, .. } => cell.unwrap(),
        other => panic!("unexpected widget {other:?}"),
    };
    assert_eq!(ui.state_value(cell1), Some(&7));

    ui.build(make_root());
    assert_eq!(ui.pass().len(), 3);
    let keys2: Vec<Key> = (0..3).map(|i| ui.pass().key_of(WidgetId(i)).unwrap()).collect();
    assert_eq!(keys1, keys2);
    let cell2 = match ui.pass().widget(WidgetId(1)).unwrap() {
        TW::Stateful { cell, .. } => cell.unwrap(),
        other => panic!("unexpected widget {other:?}"),
    };
    // the structurally corresponding child resolves to the identical cell
    assert_eq!(cell2, cell1);
}

#[test]
fn rebuild_discards_previous_graph() {
    let mut ui: FehUI<u64, TW> = FehUI::new();
    ui.build(two_pass_children());
    assert_eq!(ui.pass().len(), 3);
    // a later pass with a different shape starts from widget id 0 again
    ui.build(TW::Leaf(Layout::Pass));
    assert_eq!(ui.pass().len(), 1);
    assert_eq!(ui.pass().key_of(WidgetId(0)), Some(Key::Global(0)));
    assert!(ui.pass().key_of(WidgetId(1)).is_none());
}
