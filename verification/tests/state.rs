use fehui::Build;
use fehui::FehUI;
use fehui::Key;
use fehui::Layout;
use fehui::Widget;
use fehui::WidgetId;

/// A widget that resolves persisted state under a configurable type tag,
/// recording the cell identity it received.
#[derive(Debug)]
enum SW {
    Root { child_tag: u64, child_default: u64 },
    Keyed { key: Key, child_tag: u64, child_default: u64 },
    Stateful { tag: u64, default: u64, cell: Option<usize> },
}

impl Widget<u64, SW> for SW {
    fn build(&mut self, ctxt: &mut Build<u64, SW>) {
        match self {
            SW::Root { child_tag, child_default } => {
                ctxt.add(
                    SW::Stateful { tag: *child_tag, default: *child_default, cell: None },
                    None,
                );
            }
            SW::Keyed { key, child_tag, child_default } => {
                // the explicitly keyed node sits between the root and the
                // stateful leaf, so the leaf's local key resolves through
                // the keyed node's intern record
                ctxt.add(
                    SW::Root { child_tag: *child_tag, child_default: *child_default },
                    Some(*key),
                );
            }
            SW::Stateful { tag, default, cell } => {
                *cell = ctxt.try_create_state(*tag, *default);
            }
        }
    }

    fn layout_spec(&self) -> Layout {
        Layout::Pass
    }

    fn layout(&self) -> Layout {
        Layout::Pass
    }
}

fn child_cell(ui: &FehUI<u64, SW>) -> usize {
    match ui.pass().widget(WidgetId(1)).unwrap() {
        SW::Stateful { cell, .. } => cell.unwrap(),
        other => panic!("unexpected widget {other:?}"),
    }
}

#[test]
fn identity_stability_across_rebuilds() {
    let mut ui: FehUI<u64, SW> = FehUI::new();
    ui.build(SW::Root { child_tag: 1, child_default: 7 });
    let cell1 = child_cell(&ui);
    assert_eq!(ui.state_value(cell1), Some(&7));
    // mutate the persisted value between frames
    assert!(ui.set_state_value(cell1, 42));

    // all widget ids are regenerated, but the key structure is unchanged,
    // so the same cell — with the mutated value — is handed back
    ui.build(SW::Root { child_tag: 1, child_default: 7 });
    let cell2 = child_cell(&ui);
    assert_eq!(cell2, cell1);
    assert_eq!(ui.state_value(cell2), Some(&42));

    // and once more
    ui.build(SW::Root { child_tag: 1, child_default: 7 });
    assert_eq!(child_cell(&ui), cell1);
}

#[test]
fn state_type_swap_reinitializes() {
    let mut ui: FehUI<u64, SW> = FehUI::new();
    ui.build(SW::Root { child_tag: 1, child_default: 7 });
    let cell_a = child_cell(&ui);
    assert!(ui.set_state_value(cell_a, 100));

    // the same identity now asks for a different state type: the entry is
    // discarded and replaced by a freshly default-initialized cell, not a
    // reinterpretation of the old one
    ui.build(SW::Root { child_tag: 2, child_default: 9 });
    let cell_b = child_cell(&ui);
    assert_ne!(cell_b, cell_a);
    assert_eq!(ui.state_value(cell_b), Some(&9));
    // the old cell is gone from the cache
    assert_eq!(ui.state_value(cell_a), None);
}

#[test]
fn state_under_explicit_global_key() {
    let mut b: Build<u64, SW> = Build::new();
    b.start(SW::Stateful { tag: 3, default: 5, cell: None });
    // the current node is the root, whose key is the reserved global key
    let c1 = b.create_state(3, 5);
    let c2 = b.create_state(3, 11);
    // a second resolution under the same key and tag finds the same cell
    // and keeps the first value
    assert_eq!(c1, c2);
    assert_eq!(b.state_value(c1), Some(&5));
    assert_eq!(b.key_of(WidgetId(0)), Some(Key::Global(0)));
}

#[test]
fn state_survives_under_globally_keyed_parent() {
    // the parent carries an explicit global key, so its id is recorded in
    // the intern table; the child's local key resolves through it
    let mut ui: FehUI<u64, SW> = FehUI::new();
    ui.build(SW::Keyed { key: Key::Global(5), child_tag: 1, child_default: 3 });
    let cell1 = match ui.pass().widget(WidgetId(2)).unwrap() {
        SW::Stateful { cell, .. } => cell.unwrap(),
        other => panic!("unexpected widget {other:?}"),
    };
    assert!(ui.set_state_value(cell1, 30));
    ui.build(SW::Keyed { key: Key::Global(5), child_tag: 1, child_default: 3 });
    let cell2 = match ui.pass().widget(WidgetId(2)).unwrap() {
        SW::Stateful { cell, .. } => cell.unwrap(),
        other => panic!("unexpected widget {other:?}"),
    };
    assert_eq!(cell2, cell1);
    assert_eq!(ui.state_value(cell2), Some(&30));
}

#[test]
fn mismatched_tag_swaps_even_at_root() {
    let mut b: Build<u64, SW> = Build::new();
    b.start(SW::Stateful { tag: 0, default: 0, cell: None });
    let c1 = b.create_state(1, 10);
    let c2 = b.create_state(2, 20);
    assert_ne!(c1, c2);
    assert_eq!(b.state_value(c2), Some(&20));
    assert_eq!(b.state_value(c1), None);
}
