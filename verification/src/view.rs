//! Views: light descriptions of widgets that are built into widgets once and then
//! diffed against their previous version to update those widgets in place.
pub mod label;
pub mod tree_node;

use vstd::prelude::*;
use crate::widget::{NewWidget, WidgetId, WidgetIdSource, WidgetMut};

verus! {

/// Identifies a child view within its parent, for routing messages.
#[derive(Clone, Copy, PartialEq, Eq, Structural, Debug)]
pub struct ViewId(pub u64);

impl ViewId {
    pub fn new(raw: u64) -> (r: ViewId)
        ensures
            r == ViewId(raw),
    {
        ViewId(raw)
    }

    /// The integer the parent chose for this child.
    pub fn routing_id(self) -> (r: u64)
        ensures
            r == self.0,
    {
        self.0
    }
}

/// Which pass visited a view.
#[derive(Clone, Copy, PartialEq, Eq, Structural, Debug)]
pub enum Pass {
    Build,
    Rebuild,
    Teardown,
}

/// Context of a build, rebuild or teardown pass: where widget ids come from, the path
/// of view ids from the root down to the view being processed, and the record of the
/// content views visited so far, each with the view path it was visited under.
pub struct ViewCtx {
    pub ids: WidgetIdSource,
    pub path: Vec<ViewId>,
    pub visits: Ghost<Seq<(Seq<ViewId>, Pass)>>,
}

impl ViewCtx {
    /// A context at the root, taking widget ids from `ids`.
    pub fn new(ids: WidgetIdSource) -> (r: Self)
        ensures
            r.ids == ids,
            r.path@.len() == 0,
            r.visits@.len() == 0,
    {
        ViewCtx { ids, path: Vec::new(), visits: Ghost(Seq::empty()) }
    }

    /// Enters the child view tagged `id`.
    pub fn push_id(&mut self, id: ViewId)
        ensures
            final(self).path@ == old(self).path@.push(id),
            final(self).ids == old(self).ids,
            final(self).visits == old(self).visits,
    {
        self.path.push(id);
    }

    /// Leaves the innermost child view; at the root there is nothing to leave.
    pub fn pop_id(&mut self)
        ensures
            old(self).path@.len() > 0 ==> final(self).path@ == old(self).path@.drop_last(),
            old(self).path@.len() == 0 ==> final(self).path@ == old(self).path@,
            final(self).ids == old(self).ids,
            final(self).visits == old(self).visits,
    {
        self.path.pop();
    }

    /// Wraps a widget built by a view as a new widget with a fresh id.
    pub fn create_pod<W>(&mut self, widget: W) -> (r: NewWidget<W>)
        ensures
            r.widget == widget,
            r.id.0 == old(self).ids.next,
            final(self).ids.next == crate::widget::bumped(old(self).ids.next),
            final(self).path@ == old(self).path@,
            final(self).visits == old(self).visits,
    {
        NewWidget::new(widget, &mut self.ids)
    }
}

/// A message on its way to the view that should handle it, along a path of view ids.
pub struct MessageCtx {
    path: Vec<ViewId>,
    taken: usize,
}

impl MessageCtx {
    /// The ids not yet consumed on the way down.
    pub closed spec fn remaining(&self) -> Seq<ViewId> {
        self.path@.skip(self.taken as int)
    }

    pub closed spec fn wf(&self) -> bool {
        self.taken <= self.path@.len()
    }

    /// A message addressed along `path`.
    pub fn new(path: Vec<ViewId>) -> (r: Self)
        ensures
            r.remaining() == path@,
            r.wf(),
    {
        MessageCtx { path, taken: 0 }
    }

    /// Consumes the next id of the path, if any is left.
    pub fn take_first(&mut self) -> (r: Option<ViewId>)
        requires
            old(self).wf(),
        ensures
            final(self).wf(),
            old(self).remaining().len() == 0 ==> r is None && final(self).remaining() == old(self).remaining(),
            old(self).remaining().len() > 0 ==> {
                &&& r == Some(old(self).remaining()[0])
                &&& final(self).remaining() == old(self).remaining().drop_first()
            },
    {
        if self.taken < self.path.len() {
            let id = self.path[self.taken];
            proof {
                assert(self.path@.skip(self.taken as int + 1) =~= self.path@.skip(self.taken as int).drop_first());
            }
            self.taken = self.taken + 1;
            Some(id)
        } else {
            None
        }
    }
}

/// What handling a message produced.
#[derive(PartialEq, Eq, Debug)]
pub enum MessageResult<A> {
    /// An action for the parent.
    Action(A),
    /// The app state changed; the view tree should be rebuilt.
    RequestRebuild,
    /// Handled, nothing to report.
    Nop,
    /// The message was for a view that no longer exists.
    Stale,
}

/// A view whose element is a widget of type `Widget`, in an app whose state is `State`.
///
/// Implementations keep the context's view path as they found it, add to its record of
/// visits exactly what `visits` and `rebuild_visits` name, and give back the element handle
/// borrowing what it borrowed. Teardown removes no widget from the tree, and rebuild
/// appends to the list of removed widgets exactly the ids its `removals` names.
pub trait WidgetView<State> {
    type Widget;
    type ViewState;
    /// What the view reports to its parent when handling a message.
    type Action;

    /// `widget` and `state` have the shape this view builds: rebuild, teardown and
    /// message handling take them as built.
    spec fn fits(&self, widget: Self::Widget, state: Self::ViewState) -> bool;

    /// Every id along `path` leads to a view below this one.
    spec fn accepts_path(&self, path: Seq<ViewId>) -> bool;

    /// The visits that a build or teardown pass of this view, entered under `base`, records.
    spec fn visits(&self, base: Seq<ViewId>, pass: Pass) -> Seq<(Seq<ViewId>, Pass)>;

    /// The visits that a rebuild of this view from `prev`, entered under `base`, records.
    spec fn rebuild_visits(&self, prev: &Self, base: Seq<ViewId>) -> Seq<(Seq<ViewId>, Pass)>;

    /// `state` no longer holds what the view held: teardown has released it.
    spec fn torn_down(&self, state: Self::ViewState) -> bool;

    /// After updating from `prev`, `state` and `widget` (which was `old_widget`) are as
    /// this view's rebuild leaves them.
    spec fn rebuilt(&self, prev: &Self, old_widget: Self::Widget, state: Self::ViewState, widget: Self::Widget) -> bool;

    /// The ids of the widgets that updating `old_widget` from `prev` to this view removes,
    /// in the order of removal.
    spec fn removals(&self, prev: &Self, old_widget: Self::Widget) -> Seq<WidgetId>;

    /// `result` is what the view answers, from `state`, to a message whose remaining
    /// path below this view is `path`.
    spec fn answers(&self, state: Self::ViewState, path: Seq<ViewId>, result: MessageResult<Self::Action>) -> bool;

    /// Creates the widget for this view, and the view's retained state. Its id is taken
    /// from the context, which only counts up; unless the count reached its limit, the id
    /// is one not handed out before the call.
    fn build(&self, ctx: &mut ViewCtx, app_state: &mut State) -> (r: (NewWidget<Self::Widget>, Self::ViewState))
        ensures
            final(ctx).path@ == old(ctx).path@,
            final(ctx).visits@ == old(ctx).visits@ + self.visits(old(ctx).path@, Pass::Build),
            self.fits(r.0.widget, r.1),
            old(ctx).ids.next <= final(ctx).ids.next,
            final(ctx).ids.next < u64::MAX ==> old(ctx).ids.next <= r.0.id.0 < final(ctx).ids.next,
    ;

    /// Updates `element`, built from `prev`, to match this view.
    fn rebuild(
        &self,
        prev: &Self,
        state: &mut Self::ViewState,
        ctx: &mut ViewCtx,
        element: &mut WidgetMut<'_, Self::Widget>,
        app_state: &mut State,
    )
        requires
            prev.fits(*old(element).widget, *old(state)),
        ensures
            final(ctx).path@ == old(ctx).path@,
            final(ctx).visits@ == old(ctx).visits@ + self.rebuild_visits(prev, old(ctx).path@),
            *final(final(element).widget) == *final(old(element).widget),
            *final(final(element).ctx) == *final(old(element).ctx),
            self.fits(*final(element).widget, *final(state)),
            self.rebuilt(prev, *old(element).widget, *final(state), *final(element).widget),
            final(element).ctx.removed@ == old(element).ctx.removed@ + self.removals(prev, *old(element).widget),
    ;

    /// Releases what the view holds before its element is removed.
    fn teardown(&self, state: &mut Self::ViewState, ctx: &mut ViewCtx, element: &mut WidgetMut<'_, Self::Widget>)
        requires
            self.fits(*old(element).widget, *old(state)),
        ensures
            final(ctx).path@ == old(ctx).path@,
            final(ctx).visits@ == old(ctx).visits@ + self.visits(old(ctx).path@, Pass::Teardown),
            final(element).ctx.removed@ == old(element).ctx.removed@,
            self.fits(*final(element).widget, *final(state)),
            self.torn_down(*final(state)),
            *final(final(element).widget) == *final(old(element).widget),
            *final(final(element).ctx) == *final(old(element).ctx),
    ;

    /// Handles a message addressed to this view or below it.
    fn message(
        &self,
        state: &mut Self::ViewState,
        message: &mut MessageCtx,
        element: &mut WidgetMut<'_, Self::Widget>,
        app_state: &mut State,
    ) -> (r: MessageResult<Self::Action>)
        requires
            old(message).wf(),
            self.fits(*old(element).widget, *old(state)),
            self.accepts_path(old(message).remaining()),
        ensures
            final(message).wf(),
            self.fits(*final(element).widget, *final(state)),
            *final(final(element).widget) == *final(old(element).widget),
            *final(final(element).ctx) == *final(old(element).ctx),
            self.answers(*old(state), old(message).remaining(), r),
    ;
}

} // verus!
