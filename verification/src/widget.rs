//! Widget identity, ownership handles and the mutation context.
//!
//! Widgets live inside [`WidgetPod`]s, each tagged with a [`WidgetId`]. A freshly
//! created widget that has not been inserted anywhere yet is a [`NewWidget`].
//! Edits go through a [`WidgetMut`], which pairs a mutable borrow of the widget
//! with the [`MutateCtx`] that records what the edit asked of the framework.
use vstd::prelude::*;

verus! {

/// Identifier of a widget in the tree.
#[derive(Clone, Copy, PartialEq, Eq, Structural, Debug, Hash)]
pub struct WidgetId(pub u64);

impl WidgetId {
    /// The raw integer behind the id.
    pub fn to_raw(self) -> (r: u64)
        ensures
            r == self.0,
    {
        self.0
    }
}

/// Hands out widget ids: each call gives the next integer, so no id is handed out
/// twice until the counter reaches `u64::MAX`, where it stays.
pub struct WidgetIdSource {
    pub next: u64,
}

/// The counter after handing out one id.
pub open spec fn bumped(next: u64) -> u64 {
    if next < u64::MAX { (next + 1) as u64 } else { next }
}

impl WidgetIdSource {
    /// A source whose first id is `1`.
    pub fn new() -> (s: Self)
        ensures
            s.next == 1,
    {
        WidgetIdSource { next: 1 }
    }

    /// Takes the next id.
    pub fn next_id(&mut self) -> (id: WidgetId)
        ensures
            id == WidgetId(old(self).next),
            final(self).next == bumped(old(self).next),
    {
        let id = WidgetId(self.next);
        self.next = self.next.saturating_add(1);
        id
    }
}

/// A widget together with the id it will have once inserted in the tree.
pub struct NewWidget<W> {
    pub id: WidgetId,
    pub widget: W,
}

impl<W> NewWidget<W> {
    /// Wraps `widget` with a fresh id taken from `ids`.
    pub fn new(widget: W, ids: &mut WidgetIdSource) -> (r: Self)
        ensures
            r.id == WidgetId(old(ids).next),
            r.widget == widget,
            final(ids).next == bumped(old(ids).next),
    {
        let id = ids.next_id();
        NewWidget { id, widget }
    }

    /// Wraps `widget` with the given id.
    pub fn new_with_id(widget: W, id: WidgetId) -> (r: Self)
        ensures
            r.id == id,
            r.widget == widget,
    {
        NewWidget { id, widget }
    }

    /// The id the widget will have.
    pub fn id(&self) -> (r: WidgetId)
        ensures
            r == self.id,
    {
        self.id
    }

    /// Turns the new widget into a pod owned by its parent.
    pub fn to_pod(self) -> (r: WidgetPod<W>)
        ensures
            r.id == self.id,
            r.widget == self.widget,
    {
        WidgetPod { id: self.id, widget: self.widget }
    }
}

/// A widget owned by its parent, with its id.
pub struct WidgetPod<W> {
    pub id: WidgetId,
    pub widget: W,
}

impl<W> WidgetPod<W> {
    /// The id of the owned widget.
    pub fn id(&self) -> (r: WidgetId)
        ensures
            r == self.id,
    {
        self.id
    }
}

/// What a mutation pass asked of the framework.
pub struct MutateCtx {
    /// Source of ids for widgets created during the pass.
    pub ids: WidgetIdSource,
    /// Set once some widget asked for a new layout pass.
    pub layout_requested: bool,
    /// Set once some widget asked for a repaint.
    pub render_requested: bool,
    /// Set once some widget's list of children changed.
    pub children_changed: bool,
    /// Ids of the pods removed from the tree, in order of removal.
    pub removed: Vec<WidgetId>,
}

impl MutateCtx {
    /// A context that has recorded nothing yet and takes fresh ids from `ids`.
    pub fn new(ids: WidgetIdSource) -> (r: Self)
        ensures
            r.ids == ids,
            !r.layout_requested,
            !r.render_requested,
            !r.children_changed,
            r.removed@.len() == 0,
    {
        MutateCtx {
            ids,
            layout_requested: false,
            render_requested: false,
            children_changed: false,
            removed: Vec::new(),
        }
    }

    /// Asks for a new layout pass.
    pub fn request_layout(&mut self)
        ensures
            final(self).layout_requested,
            final(self).render_requested == old(self).render_requested,
            final(self).children_changed == old(self).children_changed,
            final(self).removed@ == old(self).removed@,
            final(self).ids == old(self).ids,
    {
        self.layout_requested = true;
    }

    /// Asks for a repaint.
    pub fn request_render(&mut self)
        ensures
            final(self).render_requested,
            final(self).layout_requested == old(self).layout_requested,
            final(self).children_changed == old(self).children_changed,
            final(self).removed@ == old(self).removed@,
            final(self).ids == old(self).ids,
    {
        self.render_requested = true;
    }

    /// Records that the current widget's children changed.
    pub fn children_changed(&mut self)
        ensures
            final(self).children_changed,
            final(self).layout_requested == old(self).layout_requested,
            final(self).render_requested == old(self).render_requested,
            final(self).removed@ == old(self).removed@,
            final(self).ids == old(self).ids,
    {
        self.children_changed = true;
    }

    /// Takes `pod` out of the tree.
    pub fn remove_child<W>(&mut self, pod: WidgetPod<W>)
        ensures
            final(self).removed@ == old(self).removed@.push(pod.id),
            final(self).layout_requested == old(self).layout_requested,
            final(self).render_requested == old(self).render_requested,
            final(self).children_changed == old(self).children_changed,
            final(self).ids == old(self).ids,
    {
        self.removed.push(pod.id);
    }

    /// Gives mutable access to the widget in `pod`, sharing this context.
    pub fn get_mut<'c, W>(&'c mut self, pod: &'c mut WidgetPod<W>) -> (r: WidgetMut<'c, W>)
        ensures
            *r.widget == old(pod).widget,
            *r.ctx == *old(self),
            *final(self) == *final(r.ctx),
            final(pod).widget == *final(r.widget),
            final(pod).id == old(pod).id,
    {
        WidgetMut { widget: &mut pod.widget, ctx: self }
    }
}

/// Mutable access to a widget during a mutation pass.
pub struct WidgetMut<'a, W> {
    pub widget: &'a mut W,
    pub ctx: &'a mut MutateCtx,
}

impl<'a, W> WidgetMut<'a, W> {
    /// Pairs a widget with the context of the pass that edits it.
    pub fn new(widget: &'a mut W, ctx: &'a mut MutateCtx) -> (r: Self)
        ensures
            *r.widget == *old(widget),
            *r.ctx == *old(ctx),
            *final(widget) == *final(r.widget),
            *final(ctx) == *final(r.ctx),
    {
        WidgetMut { widget, ctx }
    }
}

} // verus!

verus! {

/// Collects the children a widget registers with the framework, in order.
pub struct RegisterCtx {
    pub registered: Vec<WidgetId>,
}

impl RegisterCtx {
    /// A context that has registered nothing yet.
    pub fn new() -> (r: Self)
        ensures
            r.registered@.len() == 0,
    {
        RegisterCtx { registered: Vec::new() }
    }

    /// Registers the widget in `pod` as a child of the current widget.
    pub fn register_child<W>(&mut self, pod: &WidgetPod<W>)
        ensures
            final(self).registered@ == old(self).registered@.push(pod.id),
    {
        self.registered.push(pod.id);
    }
}

} // verus!

verus! {

/// What handling a pointer or keyboard event asked of the framework.
pub struct EventCtx {
    /// The text put on the clipboard, if any.
    pub clipboard: Option<String>,
    pub render_requested: bool,
    pub focus_requested: bool,
    pub pointer_captured: bool,
}

impl EventCtx {
    /// A context that has recorded nothing yet.
    pub fn new() -> (r: Self)
        ensures
            r.clipboard is None,
            !r.render_requested,
            !r.focus_requested,
            !r.pointer_captured,
    {
        EventCtx { clipboard: None, render_requested: false, focus_requested: false, pointer_captured: false }
    }

    /// Puts `text` on the clipboard.
    pub fn set_clipboard(&mut self, text: String)
        ensures
            final(self).clipboard == Some(text),
            final(self).render_requested == old(self).render_requested,
            final(self).focus_requested == old(self).focus_requested,
            final(self).pointer_captured == old(self).pointer_captured,
    {
        self.clipboard = Some(text);
    }

    /// Asks for a repaint.
    pub fn request_render(&mut self)
        ensures
            final(self).render_requested,
            final(self).clipboard == old(self).clipboard,
            final(self).focus_requested == old(self).focus_requested,
            final(self).pointer_captured == old(self).pointer_captured,
    {
        self.render_requested = true;
    }

    /// Asks for keyboard focus.
    pub fn request_focus(&mut self)
        ensures
            final(self).focus_requested,
            final(self).clipboard == old(self).clipboard,
            final(self).render_requested == old(self).render_requested,
            final(self).pointer_captured == old(self).pointer_captured,
    {
        self.focus_requested = true;
    }

    /// Routes further pointer events to the current widget.
    pub fn capture_pointer(&mut self)
        ensures
            final(self).pointer_captured,
            final(self).clipboard == old(self).clipboard,
            final(self).render_requested == old(self).render_requested,
            final(self).focus_requested == old(self).focus_requested,
    {
        self.pointer_captured = true;
    }
}

} // verus!
