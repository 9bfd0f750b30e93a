//! The view that builds and updates a [`widgets::tree_node::TreeNode`] widget tree.
use vstd::prelude::*;
use crate::view::{MessageCtx, MessageResult, Pass, ViewCtx, ViewId, WidgetView};
use crate::widget::WidgetId;
use crate::widget::{NewWidget, WidgetMut, WidgetPod};
use crate::widgets;

verus! {

/// The view id under which the content row is built, distinct from the small
/// integers that tag the children, so that a misrouted message is caught.
pub const TREE_NODE_CONTENT_VIEW_ID: u64 = 0x5A3F_1C02;

/// A node in a tree view: a content row plus indented child nodes.
pub struct TreeNode<V> {
    content: V,
    children: Vec<TreeNode<V>>,
}

/// Retained state for a `TreeNode` view: the content's state plus each child's state.
pub struct TreeNodeViewState<S> {
    content: S,
    children: Vec<TreeNodeViewState<S>>,
}

/// Create a tree node with the given content and child nodes.
/// Pass an empty `Vec` for a leaf.
pub fn tree_node<V>(content: V, children: Vec<TreeNode<V>>) -> (r: TreeNode<V>)
    ensures
        r.content_spec() == content,
        r.children_spec() == children@,
{
    TreeNode { content, children }
}

impl<V> TreeNode<V> {
    pub closed spec fn content_spec(self) -> V {
        self.content
    }

    pub closed spec fn children_spec(self) -> Seq<TreeNode<V>> {
        self.children@
    }

    /// `node` and `state` have the shape of this view at every level: a content row and
    /// content state that the content view fits, as many child widgets and child states as
    /// child views, a triangle exactly on nodes with children, and well-formed widgets.
    pub open spec fn mirrors<State>(
        self,
        node: widgets::tree_node::TreeNode<V::Widget>,
        state: TreeNodeViewState<V::ViewState>,
    ) -> bool
        where V: WidgetView<State>,
        decreases self,
    {
        &&& node.wf()
        &&& WidgetView::<State>::fits(&self.content_spec(), node.content().widget, state.content_spec())
        &&& node.children().len() == self.children_spec().len()
        &&& state.children_spec().len() == self.children_spec().len()
        &&& (node.button() is Some <==> self.children_spec().len() > 0)
        &&& mirrors_seq::<V, State>(self.children_spec(), node.children(), state.children_spec())
    }
}

impl<S> TreeNodeViewState<S> {
    pub closed spec fn children_spec(self) -> Seq<TreeNodeViewState<S>> {
        self.children@
    }

    pub closed spec fn content_spec(self) -> S {
        self.content
    }

    /// The number of child states.
    pub fn child_count(&self) -> (r: usize)
        ensures
            r == self.children_spec().len(),
    {
        self.children.len()
    }
}

impl<V> TreeNode<V> {
    /// Every content view of the tree has released what it held, as its own teardown
    /// leaves it.
    pub open spec fn tree_torn_down<State>(self, state: TreeNodeViewState<V::ViewState>) -> bool
        where V: WidgetView<State>,
        decreases self,
    {
        &&& WidgetView::<State>::torn_down(&self.content_spec(), state.content_spec())
        &&& torn_down_seq::<V, State>(self.children_spec(), state.children_spec())
    }

    /// `result` is the answer of the view the path leads to: stale when the path ends
    /// at this node, the content view's answer when it names the content row, and the
    /// named child's answer to the rest of the path otherwise. `state` is the state
    /// before the message.
    pub open spec fn tree_answers<State>(
        self,
        state: TreeNodeViewState<V::ViewState>,
        path: Seq<ViewId>,
        result: MessageResult<V::Action>,
    ) -> bool
        where V: WidgetView<State>,
        decreases path.len(),
    {
        if path.len() == 0 {
            result == MessageResult::<V::Action>::Stale
        } else {
            match route_spec(Some(path[0])) {
                Route::Content => WidgetView::<State>::answers(&self.content_spec(), state.content_spec(), path.drop_first(), result),
                Route::Child(index) => index < self.children_spec().len() && index < state.children_spec().len()
                    && self.children_spec()[index as int].tree_answers::<State>(state.children_spec()[index as int], path.drop_first(), result),
                Route::Here => false,
            }
        }
    }
}

/// Pairwise [`TreeNode::tree_torn_down`] over equally long sequences.
pub open spec fn torn_down_seq<V, State>(views: Seq<TreeNode<V>>, states: Seq<TreeNodeViewState<V::ViewState>>) -> bool
    where V: WidgetView<State>,
    decreases views,
{
    if views.len() == 0 {
        true
    } else if states.len() == 0 {
        false
    } else {
        &&& torn_down_seq::<V, State>(views.drop_last(), states.drop_last())
        &&& views.last().tree_torn_down::<State>(states.last())
    }
}

/// [`torn_down_seq`] holds exactly when each view's subtree is torn down.
pub proof fn lemma_torn_down_seq<V, State>(views: Seq<TreeNode<V>>, states: Seq<TreeNodeViewState<V::ViewState>>)
    where V: WidgetView<State>,
    requires
        states.len() == views.len(),
    ensures
        torn_down_seq::<V, State>(views, states) <==> forall|i: int|
            0 <= i < views.len() ==> (#[trigger] views[i]).tree_torn_down::<State>(states[i]),
    decreases views.len(),
{
    if views.len() > 0 {
        lemma_torn_down_seq::<V, State>(views.drop_last(), states.drop_last());
        if torn_down_seq::<V, State>(views, states) {
            assert forall|i: int| 0 <= i < views.len() implies (#[trigger] views[i]).tree_torn_down::<State>(states[i]) by {
                if i < views.len() - 1 {
                    assert(views[i] == views.drop_last()[i]);
                    assert(states[i] == states.drop_last()[i]);
                }
            }
        }
        if forall|i: int| 0 <= i < views.len() ==> (#[trigger] views[i]).tree_torn_down::<State>(states[i]) {
            assert forall|i: int| 0 <= i < views.drop_last().len() implies
                (#[trigger] views.drop_last()[i]).tree_torn_down::<State>(states.drop_last()[i]) by {
                assert(views[i] == views.drop_last()[i]);
                assert(states[i] == states.drop_last()[i]);
            }
        }
    }
}

/// Pairwise [`TreeNode::mirrors`] over equally long sequences.
pub open spec fn mirrors_seq<V, State>(
    views: Seq<TreeNode<V>>,
    nodes: Seq<WidgetPod<widgets::tree_node::TreeNode<V::Widget>>>,
    states: Seq<TreeNodeViewState<V::ViewState>>,
) -> bool
    where V: WidgetView<State>,
    decreases views,
{
    if views.len() == 0 {
        true
    } else if nodes.len() == 0 || states.len() == 0 {
        false
    } else {
        &&& mirrors_seq::<V, State>(views.drop_last(), nodes.drop_last(), states.drop_last())
        &&& views.last().mirrors::<State>(nodes.last().widget, states.last())
    }
}

/// [`mirrors_seq`] holds exactly when each view mirrors the node and state at its index.
pub proof fn lemma_mirrors_seq<V, State>(
    views: Seq<TreeNode<V>>,
    nodes: Seq<WidgetPod<widgets::tree_node::TreeNode<V::Widget>>>,
    states: Seq<TreeNodeViewState<V::ViewState>>,
)
    where V: WidgetView<State>,
    requires
        nodes.len() == views.len(),
        states.len() == views.len(),
    ensures
        mirrors_seq::<V, State>(views, nodes, states) <==> forall|i: int|
            0 <= i < views.len() ==> (#[trigger] views[i]).mirrors::<State>(nodes[i].widget, states[i]),
    decreases views.len(),
{
    if views.len() > 0 {
        lemma_mirrors_seq::<V, State>(views.drop_last(), nodes.drop_last(), states.drop_last());
        if mirrors_seq::<V, State>(views, nodes, states) {
            assert forall|i: int| 0 <= i < views.len() implies (#[trigger] views[i]).mirrors::<State>(nodes[i].widget, states[i]) by {
                if i < views.len() - 1 {
                    assert(views[i] == views.drop_last()[i]);
                    assert(nodes[i] == nodes.drop_last()[i]);
                    assert(states[i] == states.drop_last()[i]);
                }
            }
        }
        if forall|i: int| 0 <= i < views.len() ==> (#[trigger] views[i]).mirrors::<State>(nodes[i].widget, states[i]) {
            assert forall|i: int| 0 <= i < views.drop_last().len() implies
                (#[trigger] views.drop_last()[i]).mirrors::<State>(nodes.drop_last()[i].widget, states.drop_last()[i]) by {
                assert(views[i] == views.drop_last()[i]);
                assert(nodes[i] == nodes.drop_last()[i]);
                assert(states[i] == states.drop_last()[i]);
            }
        }
    }
}


/// The view path under which a node at `base` visits its content row.
pub open spec fn content_path(base: Seq<ViewId>) -> Seq<ViewId> {
    base.push(ViewId(TREE_NODE_CONTENT_VIEW_ID))
}

/// The view path of child `i` of a node at `base`.
pub open spec fn child_path(base: Seq<ViewId>, i: int) -> Seq<ViewId> {
    base.push(ViewId(i as u64))
}

impl<V> TreeNode<V> {
    /// The visits a build or teardown pass makes in the subtree at `base`: its content
    /// row first, then what the content view records, then each child's subtree in
    /// order, each under its own path.
    pub open spec fn walk<State>(self, base: Seq<ViewId>, pass: Pass) -> Seq<(Seq<ViewId>, Pass)>
        where V: WidgetView<State>,
        decreases self, 0nat,
    {
        seq![(content_path(base), pass)]
            + WidgetView::<State>::visits(&self.content_spec(), content_path(base), pass)
            + walk_children::<V, State>(self.children_spec(), base, pass, self.children_spec().len())
    }

    /// The visits a rebuild from `prev` makes in the subtree at `base`: its content row
    /// and what the content view records, then the rebuild of each child present in both versions, in order, then the
    /// teardown of each child that is gone, from the last one backwards, then the build
    /// of each new child, in order.
    pub open spec fn rebuild_walk<State>(self, prev: Self, base: Seq<ViewId>) -> Seq<(Seq<ViewId>, Pass)>
        where V: WidgetView<State>,
        decreases self, 0nat,
    {
        let p = prev.children_spec().len();
        let n = self.children_spec().len();
        let c = if p <= n { p } else { n };
        seq![(content_path(base), Pass::Rebuild)]
            + WidgetView::<State>::rebuild_visits(&self.content_spec(), &prev.content_spec(), content_path(base))
            + rebuild_children::<V, State>(self.children_spec(), prev.children_spec(), base, c)
            + teardown_tail::<V, State>(prev.children_spec(), base, n as int, p as int)
            + build_range::<V, State>(self.children_spec(), base, p as int, n as int)
    }

    /// After a rebuild from `prev`, the node `node` (which was `old_node`) and `state`
    /// are as that rebuild leaves them: the content view's own rebuild applied to the
    /// content row, the content row and the triangle kept, expansion kept on a node that
    /// keeps children, and the same, at every level, for each child present in both
    /// versions, which keeps its id.
    pub open spec fn tree_rebuilt<State>(
        self,
        prev: Self,
        old_node: widgets::tree_node::TreeNode<V::Widget>,
        state: TreeNodeViewState<V::ViewState>,
        node: widgets::tree_node::TreeNode<V::Widget>,
    ) -> bool
        where V: WidgetView<State>,
        decreases self, 0nat,
    {
        let p = prev.children_spec().len();
        let n = self.children_spec().len();
        let c = if p <= n { p } else { n };
        &&& WidgetView::<State>::rebuilt(&self.content_spec(), &prev.content_spec(), old_node.content().widget,
            state.content_spec(), node.content().widget)
        &&& node.content().id == old_node.content().id
        &&& node.expanded() == expanded_after_rebuild(old_node.expanded(), p, n)
        &&& (p > 0 && n > 0 ==> node.button() == old_node.button())
        &&& rebuilt_children::<V, State>(self.children_spec(), prev.children_spec(), old_node.children(),
            state.children_spec(), node.children(), c)
    }
}

impl<V> TreeNode<V> {
    /// The ids a rebuild from `prev` removes from the subtree `old_node`, in order: what
    /// the content view's rebuild removes, then what the rebuild of each child present in
    /// both versions removes, in order, then the children that are gone, from the last
    /// one backwards, and the triangle if the node becomes a leaf.
    pub open spec fn tree_removals<State>(self, prev: Self, old_node: widgets::tree_node::TreeNode<V::Widget>) -> Seq<WidgetId>
        where V: WidgetView<State>,
        decreases self, 0nat,
    {
        let p = prev.children_spec().len();
        let n = self.children_spec().len();
        let c = if p <= n { p } else { n };
        WidgetView::<State>::removals(&self.content_spec(), &prev.content_spec(), old_node.content().widget)
            + children_removals::<V, State>(self.children_spec(), prev.children_spec(), old_node.children(), c)
            + rebuild_removals(old_node.child_ids(), old_node.button(), p, n)
    }
}

/// The ids the rebuilds of the first `k` children present in both versions remove, in order.
pub open spec fn children_removals<V, State>(
    views: Seq<TreeNode<V>>,
    prevs: Seq<TreeNode<V>>,
    olds: Seq<WidgetPod<widgets::tree_node::TreeNode<V::Widget>>>,
    k: nat,
) -> Seq<WidgetId>
    where V: WidgetView<State>,
    decreases views, k,
{
    if k == 0 || k > views.len() || k > prevs.len() || k > olds.len() {
        Seq::empty()
    } else {
        children_removals::<V, State>(views, prevs, olds, (k - 1) as nat)
            + views[k - 1].tree_removals::<State>(prevs[k - 1], olds[k - 1].widget)
    }
}

/// The build or teardown visits of the first `n` of `views`, children of a node at `base`.
pub open spec fn walk_children<V, State>(views: Seq<TreeNode<V>>, base: Seq<ViewId>, pass: Pass, n: nat) -> Seq<(Seq<ViewId>, Pass)>
    where V: WidgetView<State>,
    decreases views, n,
{
    if n == 0 || n > views.len() {
        Seq::empty()
    } else {
        walk_children::<V, State>(views, base, pass, (n - 1) as nat) + views[n - 1].walk::<State>(child_path(base, n - 1), pass)
    }
}

/// The rebuild visits of the first `k` children present in both versions.
pub open spec fn rebuild_children<V, State>(views: Seq<TreeNode<V>>, prevs: Seq<TreeNode<V>>, base: Seq<ViewId>, k: nat) -> Seq<(Seq<ViewId>, Pass)>
    where V: WidgetView<State>,
    decreases views, k,
{
    if k == 0 || k > views.len() || k > prevs.len() {
        Seq::empty()
    } else {
        rebuild_children::<V, State>(views, prevs, base, (k - 1) as nat) + views[k - 1].rebuild_walk::<State>(prevs[k - 1], child_path(base, k - 1))
    }
}

/// The teardown visits of the children `lo..hi` of `prevs`, from the last one backwards.
pub open spec fn teardown_tail<V, State>(prevs: Seq<TreeNode<V>>, base: Seq<ViewId>, lo: int, hi: int) -> Seq<(Seq<ViewId>, Pass)>
    where V: WidgetView<State>,
    decreases hi - lo,
{
    if lo < 0 || lo >= hi || hi > prevs.len() {
        Seq::empty()
    } else {
        teardown_tail::<V, State>(prevs, base, lo + 1, hi) + prevs[lo].walk::<State>(child_path(base, lo), Pass::Teardown)
    }
}

/// The build visits of the children `lo..hi` of `views`, in order.
pub open spec fn build_range<V, State>(views: Seq<TreeNode<V>>, base: Seq<ViewId>, lo: int, hi: int) -> Seq<(Seq<ViewId>, Pass)>
    where V: WidgetView<State>,
    decreases hi - lo,
{
    if lo < 0 || lo >= hi || hi > views.len() {
        Seq::empty()
    } else {
        build_range::<V, State>(views, base, lo, hi - 1) + views[hi - 1].walk::<State>(child_path(base, hi - 1), Pass::Build)
    }
}

/// [`TreeNode::tree_rebuilt`] for each of the first `k` children present in both
/// versions, each of which keeps its id.
pub open spec fn rebuilt_children<V, State>(
    views: Seq<TreeNode<V>>,
    prevs: Seq<TreeNode<V>>,
    olds: Seq<WidgetPod<widgets::tree_node::TreeNode<V::Widget>>>,
    states: Seq<TreeNodeViewState<V::ViewState>>,
    nodes: Seq<WidgetPod<widgets::tree_node::TreeNode<V::Widget>>>,
    k: nat,
) -> bool
    where V: WidgetView<State>,
    decreases views, k,
{
    if k == 0 {
        true
    } else if k > views.len() || k > prevs.len() || k > olds.len() || k > states.len() || k > nodes.len() {
        false
    } else {
        &&& rebuilt_children::<V, State>(views, prevs, olds, states, nodes, (k - 1) as nat)
        &&& nodes[k - 1].id == olds[k - 1].id
        &&& views[k - 1].tree_rebuilt::<State>(prevs[k - 1], olds[k - 1].widget, states[k - 1], nodes[k - 1].widget)
    }
}

/// [`rebuilt_children`] holds exactly when each of the first `k` children keeps its id
/// and is rebuilt.
pub proof fn lemma_rebuilt_children<V, State>(
    views: Seq<TreeNode<V>>,
    prevs: Seq<TreeNode<V>>,
    olds: Seq<WidgetPod<widgets::tree_node::TreeNode<V::Widget>>>,
    states: Seq<TreeNodeViewState<V::ViewState>>,
    nodes: Seq<WidgetPod<widgets::tree_node::TreeNode<V::Widget>>>,
    k: nat,
)
    where V: WidgetView<State>,
    requires
        k <= views.len(),
        k <= prevs.len(),
        k <= olds.len(),
        k <= states.len(),
        k <= nodes.len(),
    ensures
        rebuilt_children::<V, State>(views, prevs, olds, states, nodes, k) <==> forall|j: int| 0 <= j < k ==> {
            &&& (#[trigger] nodes[j]).id == olds[j].id
            &&& views[j].tree_rebuilt::<State>(prevs[j], olds[j].widget, states[j], nodes[j].widget)
        },
    decreases k,
{
    if k > 0 {
        lemma_rebuilt_children::<V, State>(views, prevs, olds, states, nodes, (k - 1) as nat);
    }
}

/// The ids removed when children `lo..hi` are removed from the last one backwards.
pub open spec fn removed_ids(ids: Seq<WidgetId>, lo: int, hi: int) -> Seq<WidgetId>
    decreases hi - lo,
{
    if lo < 0 || lo >= hi || hi > ids.len() {
        Seq::empty()
    } else {
        removed_ids(ids, lo + 1, hi).push(ids[lo])
    }
}

/// What a rebuild from `prev_len` to `new_len` children removes from a node whose
/// children have the ids `ids` and whose triangle is `button`: the children that are
/// gone, from the last one backwards, then the triangle if the node becomes a leaf.
pub open spec fn rebuild_removals(ids: Seq<WidgetId>, button: Option<WidgetPod<widgets::disclosure_button::DisclosureButton>>, prev_len: nat, new_len: nat) -> Seq<WidgetId> {
    removed_ids(ids, new_len as int, prev_len as int) + if new_len == 0 && prev_len > 0 && button is Some {
        seq![button.unwrap().id]
    } else {
        Seq::<WidgetId>::empty()
    }
}

/// Removing children `lo..hi` from the last one backwards removes each once: as many
/// ids as children, the `k`th being that of child `hi - 1 - k`.
proof fn lemma_removed_ids(ids: Seq<WidgetId>, lo: int, hi: int)
    requires
        0 <= lo <= hi <= ids.len(),
    ensures
        removed_ids(ids, lo, hi).len() == hi - lo,
        forall|k: int| 0 <= k < hi - lo ==> #[trigger] removed_ids(ids, lo, hi)[k] == ids[hi - 1 - k],
    decreases hi - lo,
{
    if lo < hi {
        lemma_removed_ids(ids, lo + 1, hi);
    }
}

/// A rebuild from `prev_len` to `new_len` children removes the children that are gone,
/// from the last one backwards, each once, and then the triangle exactly when the node
/// loses all its children; it removes nothing when no child is gone.
pub proof fn law_rebuild_removal_order(
    ids: Seq<WidgetId>,
    button: Option<WidgetPod<widgets::disclosure_button::DisclosureButton>>,
    prev_len: nat,
    new_len: nat,
)
    requires
        prev_len == ids.len(),
    ensures
        new_len >= prev_len ==> rebuild_removals(ids, button, prev_len, new_len).len() == 0,
        new_len < prev_len ==> {
            let r = rebuild_removals(ids, button, prev_len, new_len);
            let gone = prev_len - new_len;
            &&& forall|k: int| 0 <= k < gone ==> #[trigger] r[k] == ids[prev_len - 1 - k]
            &&& (new_len == 0 && button is Some) ==> r.len() == gone + 1 && r[gone as int] == button.unwrap().id
            &&& !(new_len == 0 && button is Some) ==> r.len() == gone
        },
{
    if new_len < prev_len {
        lemma_removed_ids(ids, new_len as int, prev_len as int);
    }
}

impl<V> TreeNode<V> {
    /// Builds the widget tree: the content row under [`TREE_NODE_CONTENT_VIEW_ID`], each
    /// child under its index, then a leaf widget if there are no children and a branch
    /// (initially expanded) otherwise.
    pub fn build<State>(
        &self,
        ctx: &mut ViewCtx,
        app_state: &mut State,
    ) -> (r: (NewWidget<widgets::tree_node::TreeNode<V::Widget>>, TreeNodeViewState<V::ViewState>))
        where V: WidgetView<State>,
        ensures
            final(ctx).path@ == old(ctx).path@,
            final(ctx).visits@ == old(ctx).visits@ + self.walk::<State>(old(ctx).path@, Pass::Build),
            self.mirrors::<State>(r.0.widget, r.1),
            r.0.widget.expanded() == (self.children_spec().len() > 0),
            widgets::tree_node::fully_expanded(r.0.widget),
            old(ctx).ids.next <= final(ctx).ids.next,
            final(ctx).ids.next < u64::MAX ==> widgets::tree_node::fresh_ids(
                widgets::tree_node::subtree_ids(r.0.widget) + seq![r.0.id],
                old(ctx).ids.next,
                final(ctx).ids.next,
            ),
        decreases self,
    {
        let ghost base = ctx.path@;
        let ghost visits0 = ctx.visits@;
        let ghost lo = ctx.ids.next;
        ctx.push_id(ViewId::new(TREE_NODE_CONTENT_VIEW_ID));
        ctx.visits = Ghost(ctx.visits@.push((ctx.path@, Pass::Build)));
        let (content, content_state) = self.content.build(ctx, app_state);
        ctx.pop_id();
        let ghost content_id = content.id;
        proof {
            assert(ctx.visits@ =~= visits0 + (seq![(content_path(base), Pass::Build)] + WidgetView::<State>::visits(&self.content, content_path(base), Pass::Build)) + walk_children::<V, State>(self.children@, base, Pass::Build, 0));
            assert(seq![content_id] + widgets::tree_node::pods_ids(widgets::tree_node::pods_of(Seq::<NewWidget<widgets::tree_node::TreeNode<V::Widget>>>::empty()), 0)
                =~= seq![content_id]);
        }

        let n = self.children.len();
        let mut child_widgets: Vec<NewWidget<widgets::tree_node::TreeNode<V::Widget>>> = Vec::new();
        let mut child_states: Vec<TreeNodeViewState<V::ViewState>> = Vec::new();
        let mut i: usize = 0;
        while i < n
            invariant
                n == self.children@.len(),
                i <= n,
                ctx.path@ == old(ctx).path@,
                base == old(ctx).path@,
                ctx.visits@ == visits0 + (seq![(content_path(base), Pass::Build)] + WidgetView::<State>::visits(&self.content, content_path(base), Pass::Build)) + walk_children::<V, State>(self.children@, base, Pass::Build, i as nat),
                child_widgets@.len() == i,
                child_states@.len() == i,
                forall|j: int| 0 <= j < i ==>
                    (#[trigger] self.children@[j]).mirrors::<State>(child_widgets@[j].widget, child_states@[j]),
                forall|j: int| 0 <= j < i ==> widgets::tree_node::fully_expanded((#[trigger] child_widgets@[j]).widget),
                lo == old(ctx).ids.next,
                lo <= ctx.ids.next,
                content_id == content.id,
                ctx.ids.next < u64::MAX ==> widgets::tree_node::fresh_ids(
                    seq![content_id] + widgets::tree_node::pods_ids(widgets::tree_node::pods_of(child_widgets@), i as nat),
                    lo,
                    ctx.ids.next,
                ),
            decreases n - i,
        {
            proof {
                assert(decreases_to!(self => self.children));
            }
            let ghost v0 = ctx.visits@;
            let ghost n0 = ctx.ids.next;
            let ghost cw0 = child_widgets@;
            ctx.push_id(ViewId::new(i as u64));
            let (child_el, child_state) = self.children[i].build(ctx, app_state);
            ctx.pop_id();
            proof {
                assert(v0 + self.children@[i as int].walk::<State>(child_path(base, i as int), Pass::Build) =~= visits0
                    + (seq![(content_path(base), Pass::Build)] + WidgetView::<State>::visits(&self.content, content_path(base), Pass::Build)) + walk_children::<V, State>(self.children@, base, Pass::Build, (i + 1) as nat));
            }
            child_widgets.push(child_el);
            child_states.push(child_state);
            proof {
                let p0 = widgets::tree_node::pods_of(cw0);
                let p1 = widgets::tree_node::pods_of(child_widgets@);
                assert forall|j: int| 0 <= j < i implies p0[j] == p1[j] by {
                    assert(child_widgets@[j] == cw0[j]);
                }
                widgets::tree_node::lemma_pods_ids_prefix(p0, p1, i as nat);
                assert(p1[i as int] == (WidgetPod { id: child_el.id, widget: child_el.widget }));
                let acc0 = seq![content_id] + widgets::tree_node::pods_ids(p0, i as nat);
                let piece = widgets::tree_node::subtree_ids(child_el.widget) + seq![child_el.id];
                assert(seq![content_id] + widgets::tree_node::pods_ids(p1, (i + 1) as nat) =~= acc0 + piece);
                if ctx.ids.next < u64::MAX {
                    widgets::tree_node::lemma_fresh_ids_concat(acc0, piece, lo, n0, ctx.ids.next);
                }
                assert forall|j: int| 0 <= j < i + 1 implies widgets::tree_node::fully_expanded((#[trigger] child_widgets@[j]).widget) by {
                    if j < i {
                        assert(child_widgets@[j] == cw0[j]);
                    }
                }
            }
            i = i + 1;
        }
        proof {
            assert(ctx.visits@ =~= visits0 + self.walk::<State>(base, Pass::Build));
        }
        let ghost cw = child_widgets@;
        let ghost cs = child_states@;
        proof {
            assert forall|j: int| 0 <= j < cw.len() implies (#[trigger] cw[j]).widget.wf() by {
                assert(self.children@[j].mirrors::<State>(cw[j].widget, cs[j]));
            }
        }
        let ghost c_end = ctx.ids.next;
        let widget = if child_widgets.len() == 0 {
            widgets::tree_node::TreeNode::new(content)
        } else {
            widgets::tree_node::TreeNode::branch(content, child_widgets, &mut ctx.ids)
        };
        let ghost c_node = ctx.ids.next;
        let pod = ctx.create_pod(widget);
        let state = TreeNodeViewState { content: content_state, children: child_states };
        proof {
            let pods = widgets::tree_node::pods_of(cw);
            let acc = seq![content_id] + widgets::tree_node::pods_ids(pods, n as nat);
            assert(pod.widget.children() =~= pods);
            if ctx.ids.next < u64::MAX {
                if n == 0 {
                    assert(widgets::tree_node::subtree_ids(pod.widget) + seq![pod.id] =~= acc + seq![pod.id]);
                    widgets::tree_node::lemma_fresh_ids_concat(acc, seq![pod.id], lo, c_end, ctx.ids.next);
                } else {
                    let b = pod.widget.button().unwrap().id;
                    assert(widgets::tree_node::subtree_ids(pod.widget) + seq![pod.id] =~= acc + seq![b] + seq![pod.id]);
                    widgets::tree_node::lemma_fresh_ids_concat(acc, seq![b], lo, c_end, c_node);
                    widgets::tree_node::lemma_fresh_ids_concat(acc + seq![b], seq![pod.id], lo, c_node, ctx.ids.next);
                }
            }
            widgets::tree_node::lemma_pods_expanded(pods, n as nat);
            assert forall|j: int| 0 <= j < n implies widgets::tree_node::fully_expanded(#[trigger] pods[j].widget) by {
                assert(pods[j].widget == cw[j].widget);
            }
            if n > 0 {
                assert forall|j: int| 0 <= j < n implies
                    (#[trigger] self.children@[j]).mirrors::<State>(pods[j].widget, cs[j]) by {
                    assert(pods[j].widget == cw[j].widget);
                }
            }
            lemma_mirrors_seq::<V, State>(self.children@, pod.widget.children(), cs);
        }
        (pod, state)
    }
}



/// Whether a node built from a view with `prev_len` children and updated to one with
/// `new_len` children is expanded, given whether it was expanded before: a node that
/// keeps children keeps its state, one that gains its first children is expanded, and
/// a leaf never is.
pub open spec fn expanded_after_rebuild(was_expanded: bool, prev_len: nat, new_len: nat) -> bool {
    if new_len == 0 {
        false
    } else if prev_len == 0 {
        true
    } else {
        was_expanded
    }
}

impl<V> TreeNode<V> {
    /// Updates `element`, built from `prev`, to match this view: rebuilds the content row
    /// and the children present in both versions in place, tears down and removes the
    /// children that are gone (from the last one backwards), and builds and appends the
    /// new ones.
    pub fn rebuild<State>(
        &self,
        prev: &Self,
        state: &mut TreeNodeViewState<V::ViewState>,
        ctx: &mut ViewCtx,
        element: &mut WidgetMut<'_, widgets::tree_node::TreeNode<V::Widget>>,
        app_state: &mut State,
    )
        where V: WidgetView<State>,
        requires
            prev.mirrors::<State>(*old(element).widget, *old(state)),
        ensures
            final(ctx).path@ == old(ctx).path@,
            final(ctx).visits@ == old(ctx).visits@ + self.rebuild_walk::<State>(*prev, old(ctx).path@),
            *final(final(element).widget) == *final(old(element).widget),
            *final(final(element).ctx) == *final(old(element).ctx),
            self.mirrors::<State>(*final(element).widget, *final(state)),
            self.tree_rebuilt::<State>(*prev, *old(element).widget, *final(state), *final(element).widget),
            final(element).widget.content().id == old(element).widget.content().id,
            prev.children_spec().len() > 0 && self.children_spec().len() > 0 ==>
                final(element).widget.button() == old(element).widget.button(),
            final(element).widget.expanded() == expanded_after_rebuild(
                old(element).widget.expanded(),
                prev.children_spec().len(),
                self.children_spec().len(),
            ),
            forall|j: int| 0 <= j < self.children_spec().len() && j < prev.children_spec().len() ==>
                #[trigger] final(element).widget.child_ids()[j] == old(element).widget.child_ids()[j],
            self.children_spec().len() == prev.children_spec().len() ==>
                final(element).widget.child_ids() == old(element).widget.child_ids(),
            final(element).ctx.removed@ == old(element).ctx.removed@ + self.tree_removals::<State>(*prev, *old(element).widget),
        decreases self,
    {
        let ghost base = ctx.path@;
        let ghost visits0 = ctx.visits@;
        let ghost r0 = element.ctx.removed@;
        let ghost old_children = element.widget.children();
        ctx.push_id(ViewId::new(TREE_NODE_CONTENT_VIEW_ID));
        ctx.visits = Ghost(ctx.visits@.push((ctx.path@, Pass::Rebuild)));
        {
            let mut content_el = widgets::tree_node::TreeNode::content_mut(element);
            WidgetView::<State>::rebuild(&self.content, &prev.content, &mut state.content, ctx, &mut content_el, app_state);
        }
        ctx.pop_id();
        let ghost rc = element.ctx.removed@;
        let ghost content1 = element.widget.content();
        let ghost scontent1 = state.content;
        let ghost vc = ctx.visits@;

        let prev_len = prev.children.len();
        let new_len = self.children.len();
        let common = if prev_len <= new_len { prev_len } else { new_len };
        let ghost old_ids = old(element).widget.child_ids();
        let ghost old_button = old(element).widget.button();
        proof {
            lemma_mirrors_seq::<V, State>(prev.children@, element.widget.children(), state.children@);
            assert(vc =~= visits0 + (seq![(content_path(base), Pass::Rebuild)] + WidgetView::<State>::rebuild_visits(&self.content, &prev.content, content_path(base))) + rebuild_children::<V, State>(self.children@, prev.children@, base, 0));
            assert(rc =~= rc + children_removals::<V, State>(self.children@, prev.children@, old_children, 0));
        }

        // Children present in both versions: rebuild in place.
        let mut i: usize = 0;
        while i < common
            invariant
                prev_len == prev.children@.len(),
                new_len == self.children@.len(),
                common <= prev_len,
                common <= new_len,
                i <= common,
                ctx.path@ == old(ctx).path@,
                base == old(ctx).path@,
                vc == visits0 + (seq![(content_path(base), Pass::Rebuild)] + WidgetView::<State>::rebuild_visits(&self.content, &prev.content, content_path(base))),
                ctx.visits@ == vc + rebuild_children::<V, State>(self.children@, prev.children@, base, i as nat),
                element.ctx.removed@ == rc + children_removals::<V, State>(self.children@, prev.children@, old_children, i as nat),
                old_children.len() == prev_len,
                *final(element.widget) == *final(old(element).widget),
                *final(element.ctx) == *final(old(element).ctx),
                element.widget.wf(),
                element.widget.children().len() == prev_len,
                state.children@.len() == prev_len,
                element.widget.button() == old_button,
                element.widget.content() == content1,
                state.content == scontent1,
                element.widget.child_ids() == old_ids,
                old_children == old(element).widget.children(),
                forall|j: int| 0 <= j < i ==>
                    (#[trigger] self.children@[j]).mirrors::<State>(element.widget.children()[j].widget, state.children@[j]),
                forall|j: int| i <= j < prev_len ==>
                    (#[trigger] prev.children@[j]).mirrors::<State>(element.widget.children()[j].widget, state.children@[j]),
                forall|j: int| i <= j < prev_len ==> #[trigger] element.widget.children()[j] == old_children[j],
                forall|j: int| 0 <= j < i ==> {
                    &&& (#[trigger] element.widget.children()[j]).id == old_children[j].id
                    &&& self.children@[j].tree_rebuilt::<State>(prev.children@[j], old_children[j].widget,
                        state.children@[j], element.widget.children()[j].widget)
                },
            decreases common - i,
        {
            let ghost node0 = *element.widget;
            let ghost states0 = state.children@;
            let ghost v0 = ctx.visits@;
            let ghost rb = element.ctx.removed@;
            proof {
                assert(decreases_to!(self => self.children));
            }
            ctx.push_id(ViewId::new(i as u64));
            {
                let mut child_el = widgets::tree_node::TreeNode::child_mut(element, i);
                self.children[i].rebuild(&prev.children[i], &mut state.children[i], ctx, &mut child_el, app_state);
            }
            ctx.pop_id();
            proof {
                assert forall|j: int| 0 <= j < i + 1 implies
                    (#[trigger] self.children@[j]).mirrors::<State>(element.widget.children()[j].widget, state.children@[j]) by {
                    if j < i {
                        assert(element.widget.children()[j] == node0.children()[j]);
                        assert(state.children@[j] == states0[j]);
                    }
                }
                assert forall|j: int| i + 1 <= j < prev_len implies
                    (#[trigger] prev.children@[j]).mirrors::<State>(element.widget.children()[j].widget, state.children@[j]) by {
                    assert(element.widget.children()[j] == node0.children()[j]);
                    assert(state.children@[j] == states0[j]);
                }
                assert forall|j: int| i + 1 <= j < prev_len implies #[trigger] element.widget.children()[j] == old_children[j] by {
                    assert(element.widget.children()[j] == node0.children()[j]);
                }
                assert forall|j: int| 0 <= j < i + 1 implies {
                    &&& (#[trigger] element.widget.children()[j]).id == old_children[j].id
                    &&& self.children@[j].tree_rebuilt::<State>(prev.children@[j], old_children[j].widget,
                        state.children@[j], element.widget.children()[j].widget)
                } by {
                    if j < i {
                        assert(element.widget.children()[j] == node0.children()[j]);
                        assert(state.children@[j] == states0[j]);
                    } else {
                        assert(node0.children()[j] == old_children[j]);
                    }
                }
                assert(element.widget.child_ids() =~= old_ids);
                assert(v0 + self.children@[i as int].rebuild_walk::<State>(prev.children@[i as int], child_path(base, i as int))
                    =~= vc + rebuild_children::<V, State>(self.children@, prev.children@, base, (i + 1) as nat));
                assert(rb + self.children@[i as int].tree_removals::<State>(prev.children@[i as int], old_children[i as int].widget)
                    =~= rc + children_removals::<V, State>(self.children@, prev.children@, old_children, (i + 1) as nat));
            }
            i = i + 1;
        }
        let ghost v1 = ctx.visits@;
        let ghost r1 = element.ctx.removed@;
        proof {
            assert(v1 + teardown_tail::<V, State>(prev.children@, base, prev_len as int, prev_len as int) =~= v1);
            assert(r1 + removed_ids(old_ids, prev_len as int, prev_len as int) + Seq::<WidgetId>::empty() =~= r1);
        }

        // Children that are gone: tear down and remove, from the last one backwards.
        let mut k: usize = prev_len;
        while k > new_len
            invariant
                prev_len == prev.children@.len(),
                new_len == self.children@.len(),
                common == (if prev_len <= new_len { prev_len } else { new_len }),
                new_len <= k <= prev_len || k == prev_len,
                ctx.path@ == old(ctx).path@,
                base == old(ctx).path@,
                ctx.visits@ == v1 + teardown_tail::<V, State>(prev.children@, base, k as int, prev_len as int),
                element.ctx.removed@ == r1 + removed_ids(old_ids, k as int, prev_len as int) + (
                    if k == 0 && prev_len > 0 && old_button is Some { seq![old_button.unwrap().id] } else { Seq::<WidgetId>::empty() }),
                old_ids.len() == prev_len,
                *final(element.widget) == *final(old(element).widget),
                *final(element.ctx) == *final(old(element).ctx),
                element.widget.wf(),
                element.widget.children().len() == k,
                state.children@.len() == k,
                element.widget.button() == (if k > 0 { old_button } else { None }),
                element.widget.content() == content1,
                state.content == scontent1,
                old_children == old(element).widget.children(),
                forall|j: int| 0 <= j < k ==> #[trigger] element.widget.child_ids()[j] == old_ids[j],
                forall|j: int| 0 <= j < common ==>
                    (#[trigger] self.children@[j]).mirrors::<State>(element.widget.children()[j].widget, state.children@[j]),
                forall|j: int| common <= j < k ==>
                    (#[trigger] prev.children@[j]).mirrors::<State>(element.widget.children()[j].widget, state.children@[j]),
                forall|j: int| 0 <= j < common ==> {
                    &&& (#[trigger] element.widget.children()[j]).id == old_children[j].id
                    &&& self.children@[j].tree_rebuilt::<State>(prev.children@[j], old_children[j].widget,
                        state.children@[j], element.widget.children()[j].widget)
                },
            decreases k,
        {
            k = k - 1;
            let ghost node0 = *element.widget;
            let ghost states0 = state.children@;
            let ghost v0 = ctx.visits@;
            let ghost rb = element.ctx.removed@;
            ctx.push_id(ViewId::new(k as u64));
            {
                let mut child_el = widgets::tree_node::TreeNode::child_mut(element, k);
                prev.children[k].teardown(&mut state.children[k], ctx, &mut child_el);
            }
            ctx.pop_id();
            let ghost node1 = *element.widget;
            widgets::tree_node::TreeNode::remove_child(element, k);
            state.children.pop();
            proof {
                assert forall|j: int| 0 <= j < common implies
                    (#[trigger] self.children@[j]).mirrors::<State>(element.widget.children()[j].widget, state.children@[j]) by {
                    assert(element.widget.children()[j] == node0.children()[j]);
                    assert(state.children@[j] == states0[j]);
                }
                assert forall|j: int| common <= j < k implies
                    (#[trigger] prev.children@[j]).mirrors::<State>(element.widget.children()[j].widget, state.children@[j]) by {
                    assert(element.widget.children()[j] == node0.children()[j]);
                    assert(state.children@[j] == states0[j]);
                }
                assert forall|j: int| 0 <= j < k implies #[trigger] element.widget.child_ids()[j] == old_ids[j] by {
                    assert(element.widget.children()[j] == node0.children()[j]);
                    assert(node0.child_ids()[j] == old_ids[j]);
                }
                assert forall|j: int| 0 <= j < common implies {
                    &&& (#[trigger] element.widget.children()[j]).id == old_children[j].id
                    &&& self.children@[j].tree_rebuilt::<State>(prev.children@[j], old_children[j].widget,
                        state.children@[j], element.widget.children()[j].widget)
                } by {
                    assert(element.widget.children()[j] == node0.children()[j]);
                    assert(state.children@[j] == states0[j]);
                }
                assert(node1.children()[k as int].id == node0.child_ids()[k as int]);
                assert(v0 + prev.children@[k as int].walk::<State>(child_path(base, k as int), Pass::Teardown)
                    =~= v1 + teardown_tail::<V, State>(prev.children@, base, k as int, prev_len as int));
                assert(element.ctx.removed@ =~= r1 + removed_ids(old_ids, k as int, prev_len as int) + (
                    if k == 0 && prev_len > 0 && old_button is Some { seq![old_button.unwrap().id] } else { Seq::<WidgetId>::empty() }));
            }
        }
        let ghost v2 = ctx.visits@;
        let ghost r2 = element.ctx.removed@;
        proof {
            assert(v2 + build_range::<V, State>(self.children@, base, prev_len as int, prev_len as int) =~= v2);
        }

        // New children: build and append.
        let mut i: usize = prev_len;
        while i < new_len
            invariant
                prev_len == prev.children@.len(),
                new_len == self.children@.len(),
                common == (if prev_len <= new_len { prev_len } else { new_len }),
                prev_len <= i <= new_len || (i == prev_len && new_len < prev_len),
                ctx.path@ == old(ctx).path@,
                base == old(ctx).path@,
                ctx.visits@ == v2 + build_range::<V, State>(self.children@, base, prev_len as int, i as int),
                element.ctx.removed@ == r2,
                *final(element.widget) == *final(old(element).widget),
                *final(element.ctx) == *final(old(element).ctx),
                element.widget.wf(),
                element.widget.children().len() == (if new_len < prev_len { new_len as int } else { i as int }),
                state.children@.len() == element.widget.children().len(),
                element.widget.content() == content1,
                state.content == scontent1,
                old_children == old(element).widget.children(),
                element.widget.button() is Some <==> element.widget.children().len() > 0,
                prev_len > 0 && element.widget.children().len() > 0 ==> element.widget.button() == old_button,
                prev_len == 0 && element.widget.children().len() > 0 ==> element.widget.expanded(),
                forall|j: int| 0 <= j < common ==> #[trigger] element.widget.child_ids()[j] == old_ids[j],
                forall|j: int| 0 <= j < element.widget.children().len() ==>
                    (#[trigger] self.children@[j]).mirrors::<State>(element.widget.children()[j].widget, state.children@[j]),
                forall|j: int| 0 <= j < common ==> {
                    &&& (#[trigger] element.widget.children()[j]).id == old_children[j].id
                    &&& self.children@[j].tree_rebuilt::<State>(prev.children@[j], old_children[j].widget,
                        state.children@[j], element.widget.children()[j].widget)
                },
            decreases new_len - i,
        {
            let ghost node0 = *element.widget;
            let ghost states0 = state.children@;
            let ghost v0 = ctx.visits@;
            proof {
                assert(decreases_to!(self => self.children));
            }
            ctx.push_id(ViewId::new(i as u64));
            let (child_el, child_state) = self.children[i].build(ctx, app_state);
            ctx.pop_id();
            proof {
                assert(self.children@[i as int].mirrors::<State>(child_el.widget, child_state));
            }
            widgets::tree_node::TreeNode::add_child(element, child_el);
            state.children.push(child_state);
            proof {
                assert forall|j: int| 0 <= j < element.widget.children().len() implies
                    (#[trigger] self.children@[j]).mirrors::<State>(element.widget.children()[j].widget, state.children@[j]) by {
                    if j < i {
                        assert(element.widget.children()[j] == node0.children()[j]);
                        assert(state.children@[j] == states0[j]);
                    }
                }
                assert forall|j: int| 0 <= j < common implies #[trigger] element.widget.child_ids()[j] == old_ids[j] by {
                    assert(element.widget.children()[j] == node0.children()[j]);
                    assert(node0.child_ids()[j] == old_ids[j]);
                }
                assert forall|j: int| 0 <= j < common implies {
                    &&& (#[trigger] element.widget.children()[j]).id == old_children[j].id
                    &&& self.children@[j].tree_rebuilt::<State>(prev.children@[j], old_children[j].widget,
                        state.children@[j], element.widget.children()[j].widget)
                } by {
                    assert(element.widget.children()[j] == node0.children()[j]);
                    assert(state.children@[j] == states0[j]);
                }
                assert(v0 + self.children@[i as int].walk::<State>(child_path(base, i as int), Pass::Build)
                    =~= v2 + build_range::<V, State>(self.children@, base, prev_len as int, (i + 1) as int));
            }
            i = i + 1;
        }
        proof {
            lemma_mirrors_seq::<V, State>(self.children@, element.widget.children(), state.children@);
            if new_len == prev_len {
                assert(element.widget.child_ids() =~= old_ids);
            }
            lemma_rebuilt_children::<V, State>(self.children@, prev.children@, old_children, state.children@,
                element.widget.children(), common as nat);
            assert(ctx.visits@ =~= visits0 + self.rebuild_walk::<State>(*prev, base));
            let tail = rebuild_removals(old_ids, old_button, prev_len as nat, new_len as nat);
            assert(element.ctx.removed@ =~= r1 + tail);
            assert(element.ctx.removed@ =~= r0 + self.tree_removals::<State>(*prev, *old(element).widget));
        }
    }

    /// Tears down the content row and every child, each under its view id.
    pub fn teardown<State>(
        &self,
        state: &mut TreeNodeViewState<V::ViewState>,
        ctx: &mut ViewCtx,
        element: &mut WidgetMut<'_, widgets::tree_node::TreeNode<V::Widget>>,
    )
        where V: WidgetView<State>,
        requires
            self.mirrors::<State>(*old(element).widget, *old(state)),
        ensures
            final(ctx).path@ == old(ctx).path@,
            final(ctx).visits@ == old(ctx).visits@ + self.walk::<State>(old(ctx).path@, Pass::Teardown),
            final(element).ctx.removed@ == old(element).ctx.removed@,
            *final(final(element).widget) == *final(old(element).widget),
            *final(final(element).ctx) == *final(old(element).ctx),
            self.mirrors::<State>(*final(element).widget, *final(state)),
            self.tree_torn_down::<State>(*final(state)),
            final(element).widget.button() == old(element).widget.button(),
            final(element).widget.content().id == old(element).widget.content().id,
            final(element).widget.child_ids() == old(element).widget.child_ids(),
        decreases self,
    {
        let ghost base = ctx.path@;
        let ghost visits0 = ctx.visits@;
        ctx.push_id(ViewId::new(TREE_NODE_CONTENT_VIEW_ID));
        ctx.visits = Ghost(ctx.visits@.push((ctx.path@, Pass::Teardown)));
        {
            let mut content_el = widgets::tree_node::TreeNode::content_mut(element);
            WidgetView::<State>::teardown(&self.content, &mut state.content, ctx, &mut content_el);
        }
        ctx.pop_id();
        proof {
            assert(ctx.visits@ =~= visits0 + (seq![(content_path(base), Pass::Teardown)] + WidgetView::<State>::visits(&self.content, content_path(base), Pass::Teardown)) + walk_children::<V, State>(self.children@, base, Pass::Teardown, 0));
        }
        let ghost content_state = state.content;
        let n = self.children.len();
        let mut i: usize = 0;
        while i < n
            invariant
                n == self.children@.len(),
                i <= n,
                ctx.path@ == old(ctx).path@,
                base == old(ctx).path@,
                ctx.visits@ == visits0 + (seq![(content_path(base), Pass::Teardown)] + WidgetView::<State>::visits(&self.content, content_path(base), Pass::Teardown)) + walk_children::<V, State>(self.children@, base, Pass::Teardown, i as nat),
                element.ctx.removed@ == old(element).ctx.removed@,
                self.mirrors::<State>(*element.widget, *state),
                element.widget.button() == old(element).widget.button(),
                element.widget.content().id == old(element).widget.content().id,
                element.widget.child_ids() == old(element).widget.child_ids(),
                *final(element.widget) == *final(old(element).widget),
                *final(element.ctx) == *final(old(element).ctx),
                state.content == content_state,
                WidgetView::<State>::torn_down(&self.content, content_state),
                forall|j: int| 0 <= j < i ==> (#[trigger] self.children@[j]).tree_torn_down::<State>(state.children@[j]),
            decreases n - i,
        {
            let ghost node0 = *element.widget;
            let ghost state0 = *state;
            proof {
                assert(decreases_to!(self => self.children));
                lemma_mirrors_seq::<V, State>(self.children@, element.widget.children(), state.children@);
                assert(self.children@[i as int].mirrors::<State>(element.widget.children()[i as int].widget, state.children@[i as int]));
            }
            let ghost v0 = ctx.visits@;
            ctx.push_id(ViewId::new(i as u64));
            {
                let mut child_el = widgets::tree_node::TreeNode::child_mut(element, i);
                self.children[i].teardown(&mut state.children[i], ctx, &mut child_el);
            }
            ctx.pop_id();
            proof {
                assert(v0 + self.children@[i as int].walk::<State>(child_path(base, i as int), Pass::Teardown) =~= visits0
                    + (seq![(content_path(base), Pass::Teardown)] + WidgetView::<State>::visits(&self.content, content_path(base), Pass::Teardown)) + walk_children::<V, State>(self.children@, base, Pass::Teardown, (i + 1) as nat));
                self.lemma_mirrors_child_replaced::<State>(node0, state0, *element.widget, *state, i as int);
                assert forall|j: int| 0 <= j < i + 1 implies
                    (#[trigger] self.children@[j]).tree_torn_down::<State>(state.children@[j]) by {
                    if j < i {
                        assert(state.children@[j] == state0.children@[j]);
                    }
                }
            }
            i = i + 1;
        }
        proof {
            lemma_mirrors_seq::<V, State>(self.children@, element.widget.children(), state.children@);
            lemma_torn_down_seq::<V, State>(self.children@, state.children@);
            assert(ctx.visits@ =~= visits0 + self.walk::<State>(base, Pass::Teardown));
        }
    }
}


impl<V> TreeNode<V> {
    /// Replacing one child widget and its state by a pair that the child view mirrors
    /// keeps the whole node mirrored.
    proof fn lemma_mirrors_child_replaced<State>(
        self,
        node0: widgets::tree_node::TreeNode<V::Widget>,
        state0: TreeNodeViewState<V::ViewState>,
        node1: widgets::tree_node::TreeNode<V::Widget>,
        state1: TreeNodeViewState<V::ViewState>,
        i: int,
    )
        where V: WidgetView<State>,
        requires
            self.mirrors::<State>(node0, state0),
            0 <= i < self.children@.len(),
            node1.wf(),
            node1.button() == node0.button(),
            node1.content() == node0.content(),
            state1.content == state0.content,
            node1.children() == node0.children().update(i, WidgetPod { id: node0.children()[i].id, widget: node1.children()[i].widget }),
            state1.children@ == state0.children@.update(i, state1.children@[i]),
            self.children@[i].mirrors::<State>(node1.children()[i].widget, state1.children@[i]),
        ensures
            self.mirrors::<State>(node1, state1),
    {
        lemma_mirrors_seq::<V, State>(self.children@, node0.children(), state0.children@);
        lemma_mirrors_seq::<V, State>(self.children@, node1.children(), state1.children@);
        assert forall|j: int| 0 <= j < self.children@.len() implies
            (#[trigger] self.children@[j]).mirrors::<State>(node1.children()[j].widget, state1.children@[j]) by {
            if j != i {
                assert(node1.children()[j] == node0.children()[j]);
                assert(state1.children@[j] == state0.children@[j]);
            }
        }
    }
}


/// Where a message goes, given the first id left on its path.
#[derive(Clone, Copy, PartialEq, Eq, Structural, Debug)]
pub enum Route {
    /// To the content row.
    Content,
    /// To the child at this index.
    Child(usize),
    /// The path ends here: the message is for this view itself.
    Here,
}

/// The route for a path whose next id is `first`: the content id goes to the content
/// row, any other id names the index of a child.
pub open spec fn route_spec(first: Option<ViewId>) -> Route {
    match first {
        None => Route::Here,
        Some(id) => if id.0 == TREE_NODE_CONTENT_VIEW_ID {
            Route::Content
        } else {
            Route::Child(id.0 as usize)
        },
    }
}

/// Decides where a message goes from the first id left on its path.
pub fn route(first: Option<ViewId>) -> (r: Route)
    ensures
        r == route_spec(first),
{
    match first {
        None => Route::Here,
        Some(id) => if id.routing_id() == TREE_NODE_CONTENT_VIEW_ID {
            Route::Content
        } else {
            Route::Child(id.routing_id() as usize)
        },
    }
}

impl<V> TreeNode<V> {
    /// Every child id along `path` names an existing child, down to where the path ends
    /// or reaches a content row, whose view accepts the rest of the path.
    pub open spec fn routable<State>(self, path: Seq<ViewId>) -> bool
        where V: WidgetView<State>,
        decreases path.len(),
    {
        if path.len() == 0 {
            true
        } else {
            match route_spec(Some(path[0])) {
                Route::Child(index) => index < self.children_spec().len()
                    && self.children_spec()[index as int].routable::<State>(path.drop_first()),
                Route::Content => WidgetView::<State>::accepts_path(&self.content_spec(), path.drop_first()),
                Route::Here => true,
            }
        }
    }

    /// Hands the message to the content row or to the child its path names; a message
    /// whose path ends here is stale, since this view emits nothing itself.
    pub fn message<State>(
        &self,
        state: &mut TreeNodeViewState<V::ViewState>,
        message: &mut MessageCtx,
        element: &mut WidgetMut<'_, widgets::tree_node::TreeNode<V::Widget>>,
        app_state: &mut State,
    ) -> (r: MessageResult<V::Action>)
        where V: WidgetView<State>,
        requires
            old(message).wf(),
            self.mirrors::<State>(*old(element).widget, *old(state)),
            self.routable::<State>(old(message).remaining()),
        ensures
            final(message).wf(),
            *final(final(element).widget) == *final(old(element).widget),
            *final(final(element).ctx) == *final(old(element).ctx),
            self.mirrors::<State>(*final(element).widget, *final(state)),
            old(message).remaining().len() == 0 ==> r == MessageResult::<V::Action>::Stale,
            self.tree_answers::<State>(*old(state), old(message).remaining(), r),
            old(message).remaining().len() == 0 ==> {
                &&& *final(state) == *old(state)
                &&& *final(element).widget == *old(element).widget
                &&& *final(element).ctx == *old(element).ctx
            },
            old(message).remaining().len() > 0 ==> {
                &&& final(element).widget.button() == old(element).widget.button()
                &&& final(element).widget.content().id == old(element).widget.content().id
                &&& route_spec(Some(old(message).remaining()[0])) == Route::Content ==> {
                    &&& final(element).widget.children() == old(element).widget.children()
                    &&& final(state).children_spec() == old(state).children_spec()
                }
                &&& route_spec(Some(old(message).remaining()[0])) matches Route::Child(i) ==> {
                    &&& final(element).widget.content() == old(element).widget.content()
                    &&& final(state).content_spec() == old(state).content_spec()
                    &&& final(element).widget.children() == old(element).widget.children().update(
                        i as int,
                        WidgetPod { id: old(element).widget.children()[i as int].id, widget: final(element).widget.children()[i as int].widget },
                    )
                    &&& final(state).children_spec() == old(state).children_spec().update(i as int, final(state).children_spec()[i as int])
                }
            },
        decreases self,
    {
        let first = message.take_first();
        match route(first) {
            Route::Content => {
                let mut content_el = widgets::tree_node::TreeNode::content_mut(element);
                WidgetView::<State>::message(&self.content, &mut state.content, message, &mut content_el, app_state)
            },
            Route::Child(index) => {
                let ghost node0 = *element.widget;
                let ghost state0 = *state;
                proof {
                    assert(decreases_to!(self => self.children));
                    lemma_mirrors_seq::<V, State>(self.children@, element.widget.children(), state.children@);
                }
                let r = {
                    let mut child_el = widgets::tree_node::TreeNode::child_mut(element, index);
                    self.children[index].message(&mut state.children[index], message, &mut child_el, app_state)
                };
                proof {
                    self.lemma_mirrors_child_replaced::<State>(node0, state0, *element.widget, *state, index as int);
                }
                r
            },
            Route::Here => MessageResult::Stale,
        }
    }
}


/// A tree node is itself a view, so that a tree can stand wherever a view can.
impl<V, State> WidgetView<State> for TreeNode<V>
    where V: WidgetView<State>,
{
    type Widget = widgets::tree_node::TreeNode<V::Widget>;
    type ViewState = TreeNodeViewState<V::ViewState>;
    type Action = V::Action;

    open spec fn fits(&self, widget: Self::Widget, state: Self::ViewState) -> bool {
        self.mirrors::<State>(widget, state)
    }

    open spec fn accepts_path(&self, path: Seq<ViewId>) -> bool {
        self.routable::<State>(path)
    }

    open spec fn visits(&self, base: Seq<ViewId>, pass: Pass) -> Seq<(Seq<ViewId>, Pass)> {
        self.walk::<State>(base, pass)
    }

    open spec fn rebuild_visits(&self, prev: &Self, base: Seq<ViewId>) -> Seq<(Seq<ViewId>, Pass)> {
        self.rebuild_walk::<State>(*prev, base)
    }

    open spec fn torn_down(&self, state: Self::ViewState) -> bool {
        self.tree_torn_down::<State>(state)
    }

    open spec fn rebuilt(&self, prev: &Self, old_widget: Self::Widget, state: Self::ViewState, widget: Self::Widget) -> bool {
        self.tree_rebuilt::<State>(*prev, old_widget, state, widget)
    }

    open spec fn removals(&self, prev: &Self, old_widget: Self::Widget) -> Seq<WidgetId> {
        self.tree_removals::<State>(*prev, old_widget)
    }

    open spec fn answers(&self, state: Self::ViewState, path: Seq<ViewId>, result: MessageResult<Self::Action>) -> bool {
        self.tree_answers::<State>(state, path, result)
    }

    fn build(&self, ctx: &mut ViewCtx, app_state: &mut State) -> (r: (NewWidget<Self::Widget>, Self::ViewState)) {
        let r = TreeNode::<V>::build::<State>(self, ctx, app_state);
        proof {
            let ids = widgets::tree_node::subtree_ids(r.0.widget) + seq![r.0.id];
            assert(ids[ids.len() - 1] == r.0.id);
        }
        r
    }

    fn rebuild(
        &self,
        prev: &Self,
        state: &mut Self::ViewState,
        ctx: &mut ViewCtx,
        element: &mut WidgetMut<'_, Self::Widget>,
        app_state: &mut State,
    ) {
        TreeNode::<V>::rebuild::<State>(self, prev, state, ctx, element, app_state)
    }

    fn teardown(&self, state: &mut Self::ViewState, ctx: &mut ViewCtx, element: &mut WidgetMut<'_, Self::Widget>) {
        TreeNode::<V>::teardown::<State>(self, state, ctx, element)
    }

    fn message(
        &self,
        state: &mut Self::ViewState,
        message: &mut MessageCtx,
        element: &mut WidgetMut<'_, Self::Widget>,
        app_state: &mut State,
    ) -> (r: MessageResult<Self::Action>) {
        TreeNode::<V>::message::<State>(self, state, message, element, app_state)
    }
}

proof fn lemma_concat_contains<T>(a: Seq<T>, b: Seq<T>, x: T)
    requires
        a.contains(x) || b.contains(x),
    ensures
        (a + b).contains(x),
{
    if a.contains(x) {
        let k = choose|k: int| 0 <= k < a.len() && a[k] == x;
        assert((a + b)[k] == x);
    } else {
        let k = choose|k: int| 0 <= k < b.len() && b[k] == x;
        assert((a + b)[a.len() + k] == x);
    }
}

proof fn lemma_head_contains<T>(x: T, rest: Seq<T>)
    ensures
        (seq![x] + rest).contains(x),
{
    assert((seq![x] + rest)[0] == x);
}

impl<V> TreeNode<V> {
    proof fn lemma_walk_head<State>(self, base: Seq<ViewId>, pass: Pass)
        where V: WidgetView<State>,
        ensures
            self.walk::<State>(base, pass).contains((content_path(base), pass)),
    {
        let x = (content_path(base), pass);
        let cv = WidgetView::<State>::visits(&self.content_spec(), content_path(base), pass);
        lemma_head_contains(x, cv);
        lemma_concat_contains(seq![x] + cv,
            walk_children::<V, State>(self.children_spec(), base, pass, self.children_spec().len()), x);
    }

    proof fn lemma_rebuild_walk_head<State>(self, prev: Self, base: Seq<ViewId>)
        where V: WidgetView<State>,
        ensures
            self.rebuild_walk::<State>(prev, base).contains((content_path(base), Pass::Rebuild)),
    {
        let p = prev.children_spec().len();
        let n = self.children_spec().len();
        let c = if p <= n { p } else { n };
        let x = (content_path(base), Pass::Rebuild);
        let cv = WidgetView::<State>::rebuild_visits(&self.content_spec(), &prev.content_spec(), content_path(base));
        let rc = rebuild_children::<V, State>(self.children_spec(), prev.children_spec(), base, c);
        let tt = teardown_tail::<V, State>(prev.children_spec(), base, n as int, p as int);
        let br = build_range::<V, State>(self.children_spec(), base, p as int, n as int);
        lemma_head_contains(x, cv);
        lemma_concat_contains(seq![x] + cv, rc, x);
        lemma_concat_contains(seq![x] + cv + rc, tt, x);
        lemma_concat_contains(seq![x] + cv + rc + tt, br, x);
    }
}

proof fn lemma_walk_children_contains<V, State>(views: Seq<TreeNode<V>>, base: Seq<ViewId>, pass: Pass, n: nat, i: int)
    where V: WidgetView<State>,
    requires
        0 <= i < n <= views.len(),
    ensures
        walk_children::<V, State>(views, base, pass, n).contains((content_path(child_path(base, i)), pass)),
    decreases n,
{
    let x = (content_path(child_path(base, i)), pass);
    if i < n - 1 {
        lemma_walk_children_contains::<V, State>(views, base, pass, (n - 1) as nat, i);
    } else {
        views[n - 1].lemma_walk_head::<State>(child_path(base, n - 1), pass);
    }
    lemma_concat_contains(walk_children::<V, State>(views, base, pass, (n - 1) as nat),
        views[n - 1].walk::<State>(child_path(base, n - 1), pass), x);
}

proof fn lemma_rebuild_children_contains<V, State>(views: Seq<TreeNode<V>>, prevs: Seq<TreeNode<V>>, base: Seq<ViewId>, k: nat, i: int)
    where V: WidgetView<State>,
    requires
        0 <= i < k,
        k <= views.len(),
        k <= prevs.len(),
    ensures
        rebuild_children::<V, State>(views, prevs, base, k).contains((content_path(child_path(base, i)), Pass::Rebuild)),
    decreases k,
{
    let x = (content_path(child_path(base, i)), Pass::Rebuild);
    if i < k - 1 {
        lemma_rebuild_children_contains::<V, State>(views, prevs, base, (k - 1) as nat, i);
    } else {
        views[k - 1].lemma_rebuild_walk_head::<State>(prevs[k - 1], child_path(base, k - 1));
    }
    lemma_concat_contains(rebuild_children::<V, State>(views, prevs, base, (k - 1) as nat),
        views[k - 1].rebuild_walk::<State>(prevs[k - 1], child_path(base, k - 1)), x);
}

proof fn lemma_teardown_tail_contains<V, State>(prevs: Seq<TreeNode<V>>, base: Seq<ViewId>, lo: int, hi: int, i: int)
    where V: WidgetView<State>,
    requires
        0 <= lo <= i < hi <= prevs.len(),
    ensures
        teardown_tail::<V, State>(prevs, base, lo, hi).contains((content_path(child_path(base, i)), Pass::Teardown)),
    decreases hi - lo,
{
    let x = (content_path(child_path(base, i)), Pass::Teardown);
    if lo < i {
        lemma_teardown_tail_contains::<V, State>(prevs, base, lo + 1, hi, i);
    } else {
        prevs[lo].lemma_walk_head::<State>(child_path(base, lo), Pass::Teardown);
    }
    lemma_concat_contains(teardown_tail::<V, State>(prevs, base, lo + 1, hi),
        prevs[lo].walk::<State>(child_path(base, lo), Pass::Teardown), x);
}

proof fn lemma_build_range_contains<V, State>(views: Seq<TreeNode<V>>, base: Seq<ViewId>, lo: int, hi: int, i: int)
    where V: WidgetView<State>,
    requires
        0 <= lo <= i < hi <= views.len(),
    ensures
        build_range::<V, State>(views, base, lo, hi).contains((content_path(child_path(base, i)), Pass::Build)),
    decreases hi - lo,
{
    let x = (content_path(child_path(base, i)), Pass::Build);
    if i < hi - 1 {
        lemma_build_range_contains::<V, State>(views, base, lo, hi - 1, i);
    } else {
        views[hi - 1].lemma_walk_head::<State>(child_path(base, hi - 1), Pass::Build);
    }
    lemma_concat_contains(build_range::<V, State>(views, base, lo, hi - 1),
        views[hi - 1].walk::<State>(child_path(base, hi - 1), Pass::Build), x);
}

/// A build or teardown pass enters child `i` under the node's own path followed by
/// `ViewId(i)`: the content row of child `i` is visited under that path.
pub proof fn law_walk_enters_child_under_its_index<V, State>(node: TreeNode<V>, base: Seq<ViewId>, pass: Pass, i: int)
    where V: WidgetView<State>,
    requires
        0 <= i < node.children_spec().len(),
    ensures
        node.walk::<State>(base, pass).contains((content_path(child_path(base, i)), pass)),
{
    let x = (content_path(child_path(base, i)), pass);
    lemma_walk_children_contains::<V, State>(node.children_spec(), base, pass, node.children_spec().len(), i);
    lemma_concat_contains(
        seq![(content_path(base), pass)] + WidgetView::<State>::visits(&node.content_spec(), content_path(base), pass),
        walk_children::<V, State>(node.children_spec(), base, pass, node.children_spec().len()), x);
}

/// A rebuild from `prev` enters child `i` under the node's own path followed by
/// `ViewId(i)`: it rebuilds a child present in both versions there, tears down a child
/// that is gone there, and builds a new child there.
pub proof fn law_rebuild_enters_child_under_its_index<V, State>(node: TreeNode<V>, prev: TreeNode<V>, base: Seq<ViewId>, i: int)
    where V: WidgetView<State>,
    requires
        0 <= i,
    ensures
        i < node.children_spec().len() && i < prev.children_spec().len() ==>
            node.rebuild_walk::<State>(prev, base).contains((content_path(child_path(base, i)), Pass::Rebuild)),
        node.children_spec().len() <= i < prev.children_spec().len() ==>
            node.rebuild_walk::<State>(prev, base).contains((content_path(child_path(base, i)), Pass::Teardown)),
        prev.children_spec().len() <= i < node.children_spec().len() ==>
            node.rebuild_walk::<State>(prev, base).contains((content_path(child_path(base, i)), Pass::Build)),
{
    let p = prev.children_spec().len();
    let n = node.children_spec().len();
    let c = if p <= n { p } else { n };
    let head = seq![(content_path(base), Pass::Rebuild)]
        + WidgetView::<State>::rebuild_visits(&node.content_spec(), &prev.content_spec(), content_path(base));
    let rc = rebuild_children::<V, State>(node.children_spec(), prev.children_spec(), base, c);
    let tt = teardown_tail::<V, State>(prev.children_spec(), base, n as int, p as int);
    let br = build_range::<V, State>(node.children_spec(), base, p as int, n as int);
    if i < n && i < p {
        let x = (content_path(child_path(base, i)), Pass::Rebuild);
        lemma_rebuild_children_contains::<V, State>(node.children_spec(), prev.children_spec(), base, c, i);
        lemma_concat_contains(head, rc, x);
        lemma_concat_contains(head + rc, tt, x);
        lemma_concat_contains(head + rc + tt, br, x);
    }
    if n <= i < p {
        let x = (content_path(child_path(base, i)), Pass::Teardown);
        lemma_teardown_tail_contains::<V, State>(prev.children_spec(), base, n as int, p as int, i);
        lemma_concat_contains(head + rc, tt, x);
        lemma_concat_contains(head + rc + tt, br, x);
    }
    if p <= i < n {
        let x = (content_path(child_path(base, i)), Pass::Build);
        lemma_build_range_contains::<V, State>(node.children_spec(), base, p as int, n as int, i);
        lemma_concat_contains(head + rc + tt, br, x);
    }
}

/// The path under which a pass visits the content row of child `i` leads back there: it
/// extends the node's own path by two ids, the first routing to child `i` and the second
/// to that child's content row. (The one index left out is the one whose id collides with
/// the content's.)
pub proof fn law_child_content_path_routes_back(base: Seq<ViewId>, i: usize)
    requires
        i as u64 != TREE_NODE_CONTENT_VIEW_ID,
    ensures
        ({
            let p = content_path(child_path(base, i as int));
            &&& p.len() == base.len() + 2
            &&& p.take(base.len() as int) == base
            &&& route_spec(Some(p[base.len() as int])) == Route::Child(i)
            &&& route_spec(Some(p[(base.len() + 1) as int])) == Route::Content
        }),
{
    let p = content_path(child_path(base, i as int));
    assert(p.take(base.len() as int) =~= base);
}

/// The id under which build, rebuild and teardown enter child `i` routes messages back to
/// child `i`, for every index except the one whose id collides with the content's.
pub proof fn law_child_id_routes_to_child(i: usize)
    requires
        i as u64 != TREE_NODE_CONTENT_VIEW_ID,
    ensures
        route_spec(Some(ViewId(i as u64))) == Route::Child(i),
        route_spec(Some(ViewId(TREE_NODE_CONTENT_VIEW_ID))) == Route::Content,
        route_spec(None) == Route::Here,
{
}

} // verus!
