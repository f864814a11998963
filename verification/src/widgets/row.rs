use vstd::prelude::*;

use crate::Build;
use crate::Id;
use crate::Key;
use crate::Layout;
use crate::NodeId;
use crate::Widget;
use crate::WidgetId;
use crate::WidgetView;

verus! {

/// A flexbox row: its build consumes the child views left-to-right, and
/// its sizing intent is a flexbox node (whose style the host hands to the
/// external solver).
#[derive(Debug)]
pub struct Row<W> {
    pub children: Vec<WidgetView<W>>,
}

impl<S, W: Widget<S, W>> Widget<S, W> for Row<W> {
    open spec fn layout_spec(&self) -> Layout {
        Layout::Flex
    }

    /// Attaches every child view, in vector order. When all views still
    /// own their widget and the budget suffices — the only situation a
    /// correct host produces — exactly one child is staged per view, in
    /// order, under consecutive dense ids, each carrying its view's
    /// widget. A view already consumed is skipped: attaching it again
    /// would violate the attach contract.
    fn build(&mut self, ctxt: &mut Build<S, W>)
        ensures
            final(self).children@.len() == 0,
            (forall|j: int|
                0 <= j < old(self).children@.len() ==> (#[trigger] old(
                    self,
                ).children@[j]).0 is Owned) && old(ctxt).spec_fuel() >= old(
                self,
            ).children@.len() ==> ({
                let n0 = old(ctxt).spec_count() as int;
                let m = old(self).children@.len() as int;
                &&& final(ctxt).spec_count() == n0 + m
                &&& final(ctxt).spec_fuel() == old(ctxt).spec_fuel() - m
                &&& final(ctxt).spec_staged() =~= old(ctxt).spec_staged() + Seq::new(
                    m as nat,
                    |j: int|
                        Id {
                            widget: WidgetId((n0 + j) as usize),
                            node: NodeId((n0 + j) as usize),
                        },
                )
                &&& forall|j: int|
                    0 <= j < m ==> (#[trigger] final(ctxt).widget_at(n0 + j)) == Some(
                        old(self).children@[j].0->Owned_0,
                    )
            }),
    {
        let ghost n0 = old(ctxt).spec_count() as int;
        let ghost f0 = old(ctxt).spec_fuel();
        let ghost staged0 = old(ctxt).spec_staged();
        let ghost cs = old(self).children@;
        let ghost all_owned = forall|j: int|
            0 <= j < cs.len() ==> (#[trigger] cs[j]).0 is Owned;
        let ghost enough = f0 >= cs.len();
        let ghost mut k: int = 0;
        #[verifier::loop_isolation(false)]
        while self.children.len() > 0
            invariant
                ctxt.inv(),
                ctxt.spec_id() == old(ctxt).spec_id(),
                ctxt.spec_count() >= old(ctxt).spec_count(),
                ctxt.spec_fuel() <= old(ctxt).spec_fuel(),
                ctxt.spec_staged().len() <= old(ctxt).spec_staged().len() + (old(
                    ctxt,
                ).spec_fuel() - ctxt.spec_fuel()),
                forall|j: int|
                    0 <= j < old(ctxt).spec_count() ==> (#[trigger] ctxt.key_at(j)) == old(
                        ctxt,
                    ).key_at(j),
                forall|key: Key|
                    old(ctxt).spec_states().has_key(key) ==> (
                    #[trigger] ctxt.spec_states().has_key(key)),
                old(ctxt).spec_states().spec_next_interns().len() == old(ctxt).spec_count()
                    ==> ctxt.spec_states().spec_next_interns().len() == ctxt.spec_count(),
                0 <= k <= cs.len(),
                self.children@ =~= cs.skip(k),
                all_owned && enough ==> {
                    &&& ctxt.spec_count() == n0 + k
                    &&& ctxt.spec_fuel() == f0 - k
                    &&& ctxt.spec_staged() =~= staged0 + Seq::new(
                        k as nat,
                        |j: int|
                            Id {
                                widget: WidgetId((n0 + j) as usize),
                                node: NodeId((n0 + j) as usize),
                            },
                    )
                    &&& forall|j: int|
                        0 <= j < k ==> (#[trigger] ctxt.widget_at(n0 + j)) == Some(
                            cs[j].0->Owned_0,
                        )
                },
            decreases self.children@.len(),
        {
            let ghost pre = *ctxt;
            let mut v = self.children.remove(0);
            proof {
                assert(v == cs.skip(k)[0]);
                assert(cs.skip(k)[0] == cs[k]);
                assert(self.children@ =~= cs.skip(k + 1));
            }
            if v.is_owned() {
                let r = ctxt.add_view(&mut v);
                proof {
                    if all_owned && enough {
                        assert(pre.spec_fuel() == f0 - k && f0 - k > 0);
                        let id = Id {
                            widget: WidgetId((n0 + k) as usize),
                            node: NodeId((n0 + k) as usize),
                        };
                        assert(r == Ok::<Id, crate::BuildError>(id));
                        assert(ctxt.spec_staged() =~= staged0 + Seq::new(
                            (k + 1) as nat,
                            |j: int|
                                Id {
                                    widget: WidgetId((n0 + j) as usize),
                                    node: NodeId((n0 + j) as usize),
                                },
                        ));
                        assert forall|j: int| 0 <= j < k + 1 implies (
                        #[trigger] ctxt.widget_at(n0 + j)) == Some(cs[j].0->Owned_0) by {
                            if j < k {
                                assert(ctxt.widget_at(n0 + j) == pre.widget_at(n0 + j));
                            }
                        }
                    }
                }
            } else {
                proof {
                    if all_owned && enough {
                        assert(cs[k].0 is Owned);
                        assert(false);
                    }
                }
            }
            proof {
                k = k + 1;
            }
        }
        proof {
            assert(cs.skip(k).len() == cs.len() - k);
            assert(k == cs.len());
        }
    }

    fn layout(&self) -> (l: Layout) {
        Layout::Flex
    }
}

} // verus!
