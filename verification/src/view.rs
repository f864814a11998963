use vstd::prelude::*;

use crate::Id;

verus! {

/// A deferred widget specification, handed from a parent widget's build
/// output to the engine before it is attached to the graph.
///
/// A view starts *Owned*, holding the not-yet-materialized widget, and is
/// swapped to *Ref* — recording the graph identity it became — when the
/// engine consumes it. A view can be consumed at most once: attaching an
/// already-attached view is a contract violation the engine reports as an
/// error.
#[derive(Debug)]
pub struct WidgetView<W>(pub ViewInner<W>);

#[derive(Debug)]
pub enum ViewInner<W> {
    Owned(W),
    Ref(Id),
}

impl<W> WidgetView<W> {
    /// Wraps `widget` into a fresh, not-yet-attached view.
    pub fn new(widget: W) -> (v: Self)
        ensures
            v.0 is Owned,
            v.0->Owned_0 == widget,
    {
        WidgetView(ViewInner::Owned(widget))
    }

    /// Whether this view still owns its widget, i.e. has not been attached.
    pub fn is_owned(&self) -> (r: bool)
        ensures
            r == (self.0 is Owned),
    {
        match self.0 {
            ViewInner::Owned(_) => true,
            ViewInner::Ref(_) => false,
        }
    }

    /// The graph identity this view became, if it has been attached.
    pub fn ref_id(&self) -> (r: Option<Id>)
        ensures
            match r {
                Some(id) => self.0 == ViewInner::<W>::Ref(id),
                None => self.0 is Owned,
            },
    {
        match self.0 {
            ViewInner::Owned(_) => None,
            ViewInner::Ref(id) => Some(id),
        }
    }
}

} // verus!
