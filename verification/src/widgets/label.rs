//! A line of text, the usual content of a tree node.
use vstd::prelude::*;
use crate::widget::WidgetMut;

verus! {

/// A widget showing a piece of text.
pub struct Label {
    text: String,
}

impl Label {
    /// The text shown.
    pub closed spec fn text_spec(&self) -> Seq<char> {
        self.text@
    }

    /// A label showing `text`.
    pub fn new(text: &str) -> (r: Self)
        ensures
            r.text_spec() == text@,
    {
        Label { text: text.to_owned() }
    }

    /// The text shown.
    pub fn text(&self) -> (r: &str)
        ensures
            r@ == self.text_spec(),
    {
        self.text.as_str()
    }

    /// Replaces the text and asks for a new layout.
    pub fn set_text(this: &mut WidgetMut<'_, Self>, text: &str)
        ensures
            *final(final(this).widget) == *final(old(this).widget),
            *final(final(this).ctx) == *final(old(this).ctx),
            final(this).widget.text_spec() == text@,
            final(this).ctx.layout_requested,
            final(this).ctx.render_requested == old(this).ctx.render_requested,
            final(this).ctx.children_changed == old(this).ctx.children_changed,
            final(this).ctx.removed@ == old(this).ctx.removed@,
            final(this).ctx.ids == old(this).ctx.ids,
    {
        this.widget.text = text.to_owned();
        this.ctx.request_layout();
    }
}

} // verus!
