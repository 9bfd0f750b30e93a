//! The triangle that expands or collapses a branch.
use vstd::prelude::*;
use crate::widget::{bumped, NewWidget, WidgetIdSource, WidgetMut};

verus! {

/// A disclosure triangle: pointing down while `disclosed`, right otherwise.
pub struct DisclosureButton {
    disclosed: bool,
}

impl DisclosureButton {
    /// Whether the triangle shows its content as disclosed.
    pub closed spec fn disclosed_spec(&self) -> bool {
        self.disclosed
    }

    /// A triangle in the given state.
    pub fn new(disclosed: bool) -> (r: Self)
        ensures
            r.disclosed_spec() == disclosed,
    {
        DisclosureButton { disclosed }
    }

    /// Wraps the triangle as a new widget with a fresh id.
    pub fn prepare(self, ids: &mut WidgetIdSource) -> (r: NewWidget<Self>)
        ensures
            r.widget == self,
            r.id.0 == old(ids).next,
            final(ids).next == bumped(old(ids).next),
    {
        NewWidget::new(self, ids)
    }

    /// Whether the triangle is disclosed.
    pub fn is_disclosed(&self) -> (r: bool)
        ensures
            r == self.disclosed_spec(),
    {
        self.disclosed
    }

    /// Sets the state and asks for a repaint.
    pub fn set_disclosed(this: &mut WidgetMut<'_, Self>, disclosed: bool)
        ensures
            *final(final(this).widget) == *final(old(this).widget),
            *final(final(this).ctx) == *final(old(this).ctx),
            final(this).widget.disclosed_spec() == disclosed,
            final(this).ctx.render_requested,
            final(this).ctx.layout_requested == old(this).ctx.layout_requested,
            final(this).ctx.children_changed == old(this).ctx.children_changed,
            final(this).ctx.removed@ == old(this).ctx.removed@,
            final(this).ctx.ids == old(this).ctx.ids,
    {
        this.widget.disclosed = disclosed;
        this.ctx.request_render();
    }

    /// A click flips the state; the parent's layout depends on it, so a new layout is requested.
    pub fn on_click(this: &mut WidgetMut<'_, Self>)
        ensures
            *final(final(this).widget) == *final(old(this).widget),
            *final(final(this).ctx) == *final(old(this).ctx),
            final(this).widget.disclosed_spec() == !old(this).widget.disclosed_spec(),
            final(this).ctx.render_requested,
            final(this).ctx.layout_requested,
            final(this).ctx.children_changed == old(this).ctx.children_changed,
            final(this).ctx.removed@ == old(this).ctx.removed@,
            final(this).ctx.ids == old(this).ctx.ids,
    {
        this.widget.disclosed = !this.widget.disclosed;
        this.ctx.request_render();
        this.ctx.request_layout();
    }
}

} // verus!
