//! A view that shows a line of text.
use vstd::prelude::*;
use crate::view::{MessageCtx, MessageResult, Pass, ViewCtx, ViewId, WidgetView};
use crate::widget::{NewWidget, WidgetId, WidgetMut};
use crate::widgets::label::Label;

verus! {

/// A view of a [`Label`] widget showing `text`.
pub struct LabelView {
    pub text: String,
}

/// A label view showing `text`.
pub fn label(text: &str) -> (r: LabelView)
    ensures
        r.text@ == text@,
{
    LabelView { text: text.to_owned() }
}

impl<State> WidgetView<State> for LabelView {
    type Widget = Label;
    type ViewState = ();
    type Action = ();

    /// The label shows this view's text.
    open spec fn fits(&self, widget: Label, state: ()) -> bool {
        widget.text_spec() == self.text@
    }

    /// A label has no views below it; a message for it is answered whatever its path.
    open spec fn accepts_path(&self, path: Seq<ViewId>) -> bool {
        true
    }

    /// A label records no visits of its own.
    open spec fn visits(&self, base: Seq<ViewId>, pass: Pass) -> Seq<(Seq<ViewId>, Pass)> {
        Seq::empty()
    }

    /// A label records no visits of its own.
    open spec fn rebuild_visits(&self, prev: &Self, base: Seq<ViewId>) -> Seq<(Seq<ViewId>, Pass)> {
        Seq::empty()
    }

    /// A label holds nothing to release.
    open spec fn torn_down(&self, state: ()) -> bool {
        true
    }

    /// The label shows the new text.
    open spec fn rebuilt(&self, prev: &Self, old_widget: Label, state: (), widget: Label) -> bool {
        widget.text_spec() == self.text@
    }

    /// Updating a label removes no widget.
    open spec fn removals(&self, prev: &Self, old_widget: Label) -> Seq<WidgetId> {
        Seq::empty()
    }

    /// A label emits nothing: every message for it is stale.
    open spec fn answers(&self, state: (), path: Seq<ViewId>, result: MessageResult<()>) -> bool {
        result == MessageResult::<()>::Stale
    }

    fn build(&self, ctx: &mut ViewCtx, app_state: &mut State) -> (r: (NewWidget<Label>, ()))
        ensures
            r.0.widget.text_spec() == self.text@,
            r.0.id.0 == old(ctx).ids.next,
            final(ctx).ids.next == crate::widget::bumped(old(ctx).ids.next),
    {
        let r = (ctx.create_pod(Label::new(self.text.as_str())), ());
        proof {
            assert(ctx.visits@ =~= old(ctx).visits@ + Seq::<(Seq<ViewId>, Pass)>::empty());
        }
        r
    }

    fn rebuild(
        &self,
        prev: &Self,
        state: &mut (),
        ctx: &mut ViewCtx,
        element: &mut WidgetMut<'_, Label>,
        app_state: &mut State,
    )
        ensures
            final(element).widget.text_spec() == self.text@,
    {
        if self.text != prev.text {
            Label::set_text(element, self.text.as_str());
        }
        proof {
            assert(element.ctx.removed@ =~= old(element).ctx.removed@ + Seq::<WidgetId>::empty());
            assert(ctx.visits@ =~= old(ctx).visits@ + Seq::<(Seq<ViewId>, Pass)>::empty());
        }
    }

    fn teardown(&self, state: &mut (), ctx: &mut ViewCtx, element: &mut WidgetMut<'_, Label>) {
        proof {
            assert(ctx.visits@ =~= old(ctx).visits@ + Seq::<(Seq<ViewId>, Pass)>::empty());
        }
    }

    fn message(
        &self,
        state: &mut (),
        message: &mut MessageCtx,
        element: &mut WidgetMut<'_, Label>,
        app_state: &mut State,
    ) -> (r: MessageResult<()>)
        ensures
            r == MessageResult::<()>::Stale,
    {
        MessageResult::Stale
    }
}

} // verus!
