//! A node of a tree view: a content row, an optional disclosure triangle and
//! indented child nodes below the row.
use vstd::prelude::*;
use crate::layout::{Axis, LenDef, LenReq, LengthQuery, Point, Size, max_len, min_len, sat_add, sat_sub};
use crate::widget::{bumped, MutateCtx, NewWidget, RegisterCtx, WidgetId, WidgetIdSource, WidgetMut, WidgetPod};
use crate::access::AccessRole;
use crate::widgets::disclosure_button::DisclosureButton;

verus! {

/// How far each level is indented from its parent.
pub const INDENT: u64 = 16;
/// Size of the disclosure triangle (a square).
pub const BUTTON_LENGTH: u64 = 16;
/// Gap between the triangle and the content.
pub const GAP: u64 = 4;

/// A single node in a tree view.
///
/// A leaf node ([`TreeNode::new`]) shows only its content. A branch node
/// ([`TreeNode::branch`]) also shows a disclosure triangle and child nodes,
/// indented below it, which can be expanded or collapsed. `W` is the type of
/// the content widget.
pub struct TreeNode<W> {
    disclosure_button: Option<WidgetPod<DisclosureButton>>,
    content: WidgetPod<W>,
    children: Vec<WidgetPod<TreeNode<W>>>,
}

impl<W> TreeNode<W> {
    /// The disclosure triangle, if the node has one.
    pub closed spec fn button(self) -> Option<WidgetPod<DisclosureButton>> {
        self.disclosure_button
    }

    /// The content row's widget.
    pub closed spec fn content(self) -> WidgetPod<W> {
        self.content
    }

    /// The child nodes, in display order.
    pub closed spec fn children(self) -> Seq<WidgetPod<TreeNode<W>>> {
        self.children@
    }

    /// Whether the child nodes are shown: the triangle exists and is disclosed.
    pub open spec fn expanded(self) -> bool {
        &&& self.button() is Some
        &&& self.button().unwrap().widget.disclosed_spec()
    }

    /// A node without a triangle and without children.
    pub open spec fn is_leaf(self) -> bool {
        self.button() is None && self.children().len() == 0
    }

    /// Every node that has children shows a triangle, at every level of the tree.
    pub open spec fn wf(self) -> bool
        decreases self,
    {
        &&& (self.children().len() > 0 ==> self.button() is Some)
        &&& children_wf(self.children())
    }

    /// The ids of the children, in order.
    pub open spec fn child_ids(self) -> Seq<WidgetId> {
        self.children().map_values(|c: WidgetPod<TreeNode<W>>| c.id)
    }
}


/// Every node in `pods` is well formed (see [`TreeNode::wf`]).
pub open spec fn children_wf<W>(pods: Seq<WidgetPod<TreeNode<W>>>) -> bool
    decreases pods,
{
    if pods.len() == 0 {
        true
    } else {
        children_wf(pods.drop_last()) && pods.last().widget.wf()
    }
}

/// [`children_wf`] holds exactly when each node is well formed.
pub proof fn lemma_children_wf<W>(pods: Seq<WidgetPod<TreeNode<W>>>)
    ensures
        children_wf(pods) <==> forall|i: int| 0 <= i < pods.len() ==> (#[trigger] pods[i]).widget.wf(),
    decreases pods.len(),
{
    if pods.len() > 0 {
        lemma_children_wf(pods.drop_last());
        if children_wf(pods) {
            assert forall|i: int| 0 <= i < pods.len() implies (#[trigger] pods[i]).widget.wf() by {
                if i < pods.len() - 1 {
                    assert(pods[i] == pods.drop_last()[i]);
                }
            }
        }
        if forall|i: int| 0 <= i < pods.len() ==> (#[trigger] pods[i]).widget.wf() {
            assert forall|i: int| 0 <= i < pods.drop_last().len() implies (#[trigger] pods.drop_last()[i]).widget.wf() by {
                assert(pods[i] == pods.drop_last()[i]);
            }
        }
    }
}

/// Replacing one node of a well-formed sequence by a well-formed node keeps it well formed.
pub proof fn lemma_children_wf_update<W>(pods: Seq<WidgetPod<TreeNode<W>>>, index: int)
    requires
        0 <= index < pods.len(),
    ensures
        forall|w: TreeNode<W>| children_wf(pods) && #[trigger] w.wf() ==>
            children_wf(pods.update(index, WidgetPod { id: pods[index].id, widget: w })),
{
    assert forall|w: TreeNode<W>| children_wf(pods) && #[trigger] w.wf() implies
        children_wf(pods.update(index, WidgetPod { id: pods[index].id, widget: w })) by {
        let next = pods.update(index, WidgetPod { id: pods[index].id, widget: w });
        lemma_children_wf(pods);
        lemma_children_wf(next);
        assert forall|i: int| 0 <= i < next.len() implies (#[trigger] next[i]).widget.wf() by {
            if i != index {
                assert(next[i] == pods[i]);
            }
        }
    }
}

/// The pods made from `news`, in the same order, with the same ids and widgets.
pub open spec fn pods_of<T>(news: Seq<NewWidget<T>>) -> Seq<WidgetPod<T>> {
    news.map_values(|n: NewWidget<T>| WidgetPod { id: n.id, widget: n.widget })
}

/// The ids of the widgets below a node, in the order a build hands them out: the
/// content row, then each child's subtree followed by the child itself, then the
/// triangle.
pub open spec fn subtree_ids<W>(node: TreeNode<W>) -> Seq<WidgetId>
    decreases node, 1nat,
{
    seq![node.content().id] + pods_ids(node.children(), node.children().len()) + match node.button() {
        Some(b) => seq![b.id],
        None => Seq::<WidgetId>::empty(),
    }
}

/// The ids of the first `n` of `pods`, each subtree followed by its own pod's id.
pub open spec fn pods_ids<W>(pods: Seq<WidgetPod<TreeNode<W>>>, n: nat) -> Seq<WidgetId>
    decreases pods, n,
{
    if n == 0 || n > pods.len() {
        Seq::empty()
    } else {
        pods_ids(pods, (n - 1) as nat) + subtree_ids(pods[n - 1].widget) + seq![pods[n - 1].id]
    }
}

/// The ids of `ids` occur once each, all from `lo` up to, but not including, `hi`.
pub open spec fn fresh_ids(ids: Seq<WidgetId>, lo: u64, hi: u64) -> bool {
    &&& ids.no_duplicates()
    &&& forall|k: int| 0 <= k < ids.len() ==> lo <= (#[trigger] ids[k]).0 < hi
}

/// Ids handed out from two consecutive ranges, each without repeats, have no repeats
/// together.
pub proof fn lemma_fresh_ids_concat(a: Seq<WidgetId>, b: Seq<WidgetId>, lo: u64, mid: u64, hi: u64)
    requires
        lo <= mid <= hi,
        fresh_ids(a, lo, mid),
        fresh_ids(b, mid, hi),
    ensures
        fresh_ids(a + b, lo, hi),
{
    let s = a + b;
    assert forall|k: int| 0 <= k < s.len() implies lo <= (#[trigger] s[k]).0 < hi by {
        if k < a.len() {
            assert(s[k] == a[k]);
        } else {
            assert(s[k] == b[k - a.len()]);
        }
    }
    assert forall|i: int, j: int| 0 <= i < s.len() && 0 <= j < s.len() && i != j implies s[i] != s[j] by {
        if i < a.len() && j < a.len() {
            assert(s[i] == a[i] && s[j] == a[j]);
        } else if i >= a.len() && j >= a.len() {
            assert(s[i] == b[i - a.len()] && s[j] == b[j - a.len()]);
        } else if i < a.len() {
            assert(s[i] == a[i] && s[j] == b[j - a.len()]);
        } else {
            assert(s[j] == a[j] && s[i] == b[i - a.len()]);
        }
    }
}

/// [`pods_ids`] of the first `k` pods depends only on those pods.
pub proof fn lemma_pods_ids_prefix<W>(s: Seq<WidgetPod<TreeNode<W>>>, t: Seq<WidgetPod<TreeNode<W>>>, k: nat)
    requires
        k <= s.len(),
        k <= t.len(),
        forall|j: int| 0 <= j < k ==> s[j] == t[j],
    ensures
        pods_ids(s, k) == pods_ids(t, k),
    decreases k,
{
    if k > 0 {
        lemma_pods_ids_prefix(s, t, (k - 1) as nat);
    }
}

/// Every node with a triangle, at every level, shows its children.
pub open spec fn fully_expanded<W>(node: TreeNode<W>) -> bool
    decreases node, 1nat,
{
    &&& (node.button() is Some ==> node.expanded())
    &&& pods_expanded(node.children(), node.children().len())
}

/// [`fully_expanded`] for each of the first `n` of `pods`.
pub open spec fn pods_expanded<W>(pods: Seq<WidgetPod<TreeNode<W>>>, n: nat) -> bool
    decreases pods, n,
{
    if n == 0 || n > pods.len() {
        true
    } else {
        pods_expanded(pods, (n - 1) as nat) && fully_expanded(pods[n - 1].widget)
    }
}

/// [`pods_expanded`] holds of all the pods exactly when each is fully expanded.
pub proof fn lemma_pods_expanded<W>(pods: Seq<WidgetPod<TreeNode<W>>>, n: nat)
    requires
        n <= pods.len(),
    ensures
        pods_expanded(pods, n) <==> forall|j: int| 0 <= j < n ==> fully_expanded(#[trigger] pods[j].widget),
    decreases n,
{
    if n > 0 {
        lemma_pods_expanded(pods, (n - 1) as nat);
    }
}

impl<W> TreeNode<W> {
    /// Create a node that displays the given widget.
    pub fn new(content: NewWidget<W>) -> (r: Self)
        ensures
            r.button() is None,
            r.content() == (WidgetPod { id: content.id, widget: content.widget }),
            r.children().len() == 0,
            r.wf(),
    {
        let r = TreeNode { disclosure_button: None, content: content.to_pod(), children: Vec::new() };
        assert(r.children@.len() == 0);
        r
    }

    /// Create a branch node: a content row plus child nodes, with a disclosure
    /// triangle, initially disclosed, to expand or collapse them.
    pub fn branch(content: NewWidget<W>, children: Vec<NewWidget<Self>>, ids: &mut WidgetIdSource) -> (r: Self)
        requires
            forall|i: int| 0 <= i < children@.len() ==> (#[trigger] children@[i]).widget.wf(),
        ensures
            r.button() is Some,
            r.button().unwrap().id == WidgetId(old(ids).next),
            r.button().unwrap().widget.disclosed_spec(),
            r.expanded(),
            r.content() == (WidgetPod { id: content.id, widget: content.widget }),
            r.children() == pods_of(children@),
            final(ids).next == bumped(old(ids).next),
            r.wf(),
    {
        let button = DisclosureButton::new(true).prepare(ids).to_pod();
        let mut pods: Vec<WidgetPod<Self>> = Vec::new();
        let ghost news = children@;
        for c in it: children.into_iter()
            invariant
                it.seq() == news,
                pods@.len() == it.index(),
                forall|j: int| 0 <= j < news.len() ==> (#[trigger] news[j]).widget.wf(),
                forall|j: int| 0 <= j < it.index() ==> #[trigger] pods@[j] == (WidgetPod { id: news[j].id, widget: news[j].widget }),
        {
            pods.push(c.to_pod());
        }
        let r = TreeNode { disclosure_button: Some(button), content: content.to_pod(), children: pods };
        assert(r.children@ =~= pods_of(news));
        assert forall|i: int| 0 <= i < r.children@.len() implies #[trigger] r.children@[i].widget.wf() by {
            assert(r.children@[i] == pods_of(news)[i]);
        }
        proof {
            lemma_children_wf(r.children@);
        }
        r
    }
}


/// Length the triangle takes on the row along `axis`: on the horizontal axis the
/// triangle plus the gap after it, on the vertical axis the triangle alone.
pub open spec fn button_main(axis: Axis) -> u64 {
    match axis {
        Axis::Horizontal => (BUTTON_LENGTH + GAP) as u64,
        Axis::Vertical => BUTTON_LENGTH,
    }
}

/// Length of the row (triangle slot and content) along `axis`, given the content's length.
pub open spec fn row_length(axis: Axis, content: u64) -> u64 {
    match axis {
        Axis::Horizontal => sat_add(button_main(axis) as int, content as int),
        Axis::Vertical => max_len(button_main(axis), content),
    }
}

/// Length the children take along `axis`, given their measured lengths: horizontally the
/// widest indented child, vertically the children stacked.
pub open spec fn children_length(axis: Axis, lens: Seq<u64>) -> u64
    decreases lens.len(),
{
    if lens.len() == 0 {
        0
    } else {
        let acc = children_length(axis, lens.drop_last());
        match axis {
            Axis::Horizontal => max_len(acc, sat_add(INDENT as int, lens.last() as int)),
            Axis::Vertical => sat_add(acc as int, lens.last() as int),
        }
    }
}

/// The node's natural length along `axis`: the row, plus the children when expanded
/// (beside each other's widths horizontally, below the row vertically).
pub open spec fn natural_length(axis: Axis, expanded: bool, content: u64, lens: Seq<u64>) -> u64 {
    let row = row_length(axis, content);
    let ch: u64 = if expanded { children_length(axis, lens) } else { 0 };
    match axis {
        Axis::Horizontal => max_len(row, ch),
        Axis::Vertical => sat_add(row as int, ch as int),
    }
}

/// The length reported for a request: the natural length, clamped to the offered
/// space for `FitContent`.
pub open spec fn measured_length(axis: Axis, req: LenReq, expanded: bool, content: u64, lens: Seq<u64>) -> u64 {
    let total = natural_length(axis, expanded, content, lens);
    match req {
        LenReq::FitContent(space) => min_len(total, space),
        _ => total,
    }
}

/// The question asked of the content row and of the children: `FitContent` is
/// answered from their minimal length, the other requests are passed on.
pub open spec fn inner_space(req: LenReq) -> LenDef {
    match req {
        LenReq::FitContent(_) => LenDef::MinContent,
        LenReq::MinContent => LenDef::MinContent,
        LenReq::MaxContent => LenDef::MaxContent,
    }
}

/// `def` with `amount` taken away, as `LenDef::reduce` computes it.
pub open spec fn reduced(def: LenDef, amount: u64) -> LenDef {
    match def {
        LenDef::Fixed(l) => LenDef::Fixed(sat_sub(l as int, amount as int)),
        LenDef::FitContent(s) => LenDef::FitContent(sat_sub(s as int, amount as int)),
        other => other,
    }
}

/// How the content row is measured: horizontally in the space left after the triangle.
pub open spec fn content_request(axis: Axis, req: LenReq) -> LenDef {
    match axis {
        Axis::Horizontal => reduced(inner_space(req), button_main(axis)),
        Axis::Vertical => inner_space(req),
    }
}

/// How each child node is measured: horizontally in the space left after the indent.
pub open spec fn child_request(axis: Axis, req: LenReq) -> LenDef {
    match axis {
        Axis::Horizontal => reduced(inner_space(req), INDENT),
        Axis::Vertical => inner_space(req),
    }
}

/// The content row and the children are asked the same kind of question as the node:
/// a max-content request stays a max-content request, and a min-content or fit-content
/// request becomes a min-content request (a fit-content clamp is applied to the node's
/// own result, not passed on), along either axis.
pub proof fn law_requests_keep_their_kind(axis: Axis, req: LenReq)
    ensures
        content_request(axis, req) == child_request(axis, req),
        req is MaxContent ==> content_request(axis, req) == LenDef::MaxContent,
        !(req is MaxContent) ==> content_request(axis, req) == LenDef::MinContent,
{
}

/// Extending the measured lengths by one more child never shrinks the children's length.
pub proof fn lemma_children_length_grows(axis: Axis, lens: Seq<u64>, i: int)
    requires
        0 <= i <= lens.len(),
    ensures
        children_length(axis, lens.take(i)) <= children_length(axis, lens),
    decreases lens.len(),
{
    if i < lens.len() {
        assert(lens.take(i) =~= lens.drop_last().take(i));
        lemma_children_length_grows(axis, lens.drop_last(), i);
    } else {
        assert(lens.take(i) =~= lens);
    }
}

/// Horizontally, the children's length covers every indented child.
pub proof fn lemma_children_width_covers(lens: Seq<u64>, i: int)
    requires
        0 <= i < lens.len(),
    ensures
        sat_add(INDENT as int, lens[i] as int) <= children_length(Axis::Horizontal, lens),
{
    lemma_children_length_grows(Axis::Horizontal, lens, i + 1);
    assert(lens.take(i + 1).drop_last() =~= lens.take(i));
}

impl<W> TreeNode<W> {
    /// Whether the children are shown: asks the triangle; a leaf is never expanded.
    pub fn is_expanded(&self) -> (r: bool)
        ensures
            r == self.expanded(),
    {
        match &self.disclosure_button {
            Some(btn) => btn.widget.is_disclosed(),
            None => false,
        }
    }

    /// The questions under which the content row and the children are measured for a
    /// measurement of this node along `axis` under `len_req`, with `cross_length` its
    /// length along the other axis: `(content, child)`. Both are asked along the same
    /// axis and handed the same cross length.
    pub fn measure_requests(axis: Axis, len_req: LenReq, cross_length: Option<u64>) -> (r: (LengthQuery, LengthQuery))
        ensures
            r.0 == (LengthQuery { axis, request: content_request(axis, len_req), cross_length }),
            r.1 == (LengthQuery { axis, request: child_request(axis, len_req), cross_length }),
    {
        let space = match len_req {
            LenReq::FitContent(_) => LenDef::MinContent,
            other => LenDef::from_req(other),
        };
        let button_main = match axis {
            Axis::Horizontal => BUTTON_LENGTH + GAP,
            Axis::Vertical => BUTTON_LENGTH,
        };
        let content_auto = match axis {
            Axis::Horizontal => space.reduce(button_main),
            Axis::Vertical => space,
        };
        let child_auto = match axis {
            Axis::Horizontal => space.reduce(INDENT),
            Axis::Vertical => space,
        };
        (
            LengthQuery { axis, request: content_auto, cross_length },
            LengthQuery { axis, request: child_auto, cross_length },
        )
    }

    /// The node's length along `axis` for the request `len_req`, given the content
    /// row's measured length and, when expanded, each child's measured length (both
    /// measured as [`TreeNode::measure_requests`] says). The result takes what the node
    /// needs and, for `FitContent`, never more than offered.
    pub fn measure(&self, axis: Axis, len_req: LenReq, content_length: u64, child_lengths: &Vec<u64>) -> (r: u64)
        requires
            self.expanded() ==> child_lengths@.len() == self.children().len(),
        ensures
            r == measured_length(axis, len_req, self.expanded(), content_length, child_lengths@),
            len_req matches LenReq::FitContent(space) ==> r <= space,
            !self.expanded() ==> r == measured_length(axis, len_req, false, content_length, seq![]),
            !(len_req is FitContent) ==> r >= row_length(axis, content_length),
            !(len_req is FitContent) && self.expanded() && axis == Axis::Horizontal ==>
                forall|i: int| 0 <= i < child_lengths@.len() ==>
                    r >= sat_add(INDENT as int, #[trigger] child_lengths@[i] as int),
    {
        let fit_space = match len_req {
            LenReq::FitContent(space) => Some(space),
            _ => None,
        };
        let button_main = match axis {
            Axis::Horizontal => BUTTON_LENGTH + GAP,
            Axis::Vertical => BUTTON_LENGTH,
        };
        let row_length = match axis {
            Axis::Horizontal => button_main.saturating_add(content_length),
            Axis::Vertical => if button_main >= content_length { button_main } else { content_length },
        };
        let expanded = self.is_expanded();
        let mut children_len: u64 = 0;
        if expanded {
            let n = child_lengths.len();
            let mut i: usize = 0;
            while i < n
                invariant
                    n == child_lengths@.len(),
                    i <= n,
                    children_len == children_length(axis, child_lengths@.take(i as int)),
                decreases n - i,
            {
                let child_length = child_lengths[i];
                assert(child_lengths@.take(i + 1).drop_last() =~= child_lengths@.take(i as int));
                match axis {
                    Axis::Horizontal => {
                        let indented = INDENT.saturating_add(child_length);
                        if indented > children_len {
                            children_len = indented;
                        }
                    },
                    Axis::Vertical => {
                        children_len = children_len.saturating_add(child_length);
                    },
                }
                i = i + 1;
            }
            assert(child_lengths@.take(n as int) =~= child_lengths@);
        }
        let total = match axis {
            Axis::Horizontal => if row_length >= children_len { row_length } else { children_len },
            Axis::Vertical => row_length.saturating_add(children_len),
        };
        proof {
            if expanded && axis == Axis::Horizontal {
                assert forall|i: int| 0 <= i < child_lengths@.len() implies
                    total >= sat_add(INDENT as int, #[trigger] child_lengths@[i] as int) by {
                    lemma_children_width_covers(child_lengths@, i);
                }
            }
        }
        match fit_space {
            Some(space) => if total <= space { total } else { space },
            None => total,
        }
    }
}


/// Where a widget was placed and at which size.
#[derive(Clone, Copy, PartialEq, Eq, Structural, Debug)]
pub struct Placement {
    pub id: WidgetId,
    pub origin: Point,
    pub size: Size,
}

/// What layout decided for one child node.
#[derive(Clone, Copy, PartialEq, Eq, Structural, Debug)]
pub struct ChildLayout {
    pub id: WidgetId,
    /// Hidden from painting and events (the node is collapsed).
    pub stashed: bool,
    /// Where the child was placed; `None` when it was not laid out.
    pub placement: Option<Placement>,
}

/// The outcome of laying out one node.
pub struct NodeLayout {
    pub button: Option<Placement>,
    pub content: Placement,
    pub children: Vec<ChildLayout>,
    /// The child whose baselines become the node's baselines.
    pub baseline_source: WidgetId,
}

/// Height of the content row: the content or the triangle, whichever is taller.
pub open spec fn row_height(content_height: u64, has_button: bool) -> u64 {
    max_len(content_height, if has_button { BUTTON_LENGTH } else { 0 })
}

/// Offset that centres an item in a row `gap` pixels taller than it. Lengths are whole
/// logical pixels, so an odd gap cannot be split evenly: the offset rounds down, which
/// puts the item half a pixel above the exact centre.
pub open spec fn centre_offset(gap: u64) -> u64 {
    gap / 2
}

/// The centring offset is the exact centre when the gap is even, and half a pixel above
/// it when the gap is odd.
pub proof fn law_centre_offset_rounding(gap: u64)
    ensures
        gap % 2 == 0 ==> 2 * centre_offset(gap) == gap,
        gap % 2 == 1 ==> 2 * centre_offset(gap) + 1 == gap,
{
}

/// Top of the `i`th child: the children are stacked below the row, in order.
pub open spec fn child_top(row: u64, sizes: Seq<Size>, i: int) -> u64
    decreases i,
{
    if i <= 0 {
        row
    } else {
        sat_add(child_top(row, sizes, i - 1) as int, sizes[i - 1].height as int)
    }
}

/// The room offered to the content row inside a node of the given size.
pub open spec fn content_available_spec(size: Size) -> Size {
    Size { width: sat_sub(size.width as int, (BUTTON_LENGTH + GAP) as int), height: size.height }
}

/// The room offered to a child whose top is at `y` inside a node of the given size.
pub open spec fn child_available_spec(size: Size, y: u64) -> Size {
    Size { width: sat_sub(size.width as int, INDENT as int), height: sat_sub(size.height as int, y as int) }
}

impl<W> TreeNode<W> {
    /// The room in which the content row is sized during layout.
    pub fn content_available(size: Size) -> (r: Size)
        ensures
            r == content_available_spec(size),
    {
        Size::new(size.width.saturating_sub(BUTTON_LENGTH + GAP), size.height)
    }

    /// The room in which a child whose top is at `y` is sized during layout.
    pub fn child_available(size: Size, y: u64) -> (r: Size)
        ensures
            r == child_available_spec(size, y),
    {
        Size::new(size.width.saturating_sub(INDENT), size.height.saturating_sub(y))
    }

    /// Lays the node out in `size`, given the size chosen for the content row (in the
    /// room [`TreeNode::content_available`] gives) and, when expanded, the size chosen for
    /// each child (in the room [`TreeNode::child_available`] gives at its top).
    ///
    /// The triangle sits at the left of the row, the content after the triangle and
    /// its gap, both centred vertically in the row, in whole pixels: where the room left
    /// above and below is odd, the extra pixel goes below (see [`centre_offset`]). When expanded, each child is placed
    /// below the previous one, pushed right by [`INDENT`]; when collapsed, every child is
    /// stashed and not placed.
    pub fn layout(&self, size: Size, content_size: Size, child_sizes: &Vec<Size>) -> (r: NodeLayout)
        requires
            self.expanded() ==> child_sizes@.len() == self.children().len(),
        ensures
            ({
                let row = row_height(content_size.height, self.button() is Some);
                &&& r.button == (match self.button() {
                    Some(b) => Some(Placement {
                        id: b.id,
                        origin: Point { x: 0, y: centre_offset((row - BUTTON_LENGTH) as u64) },
                        size: Size { width: BUTTON_LENGTH, height: BUTTON_LENGTH },
                    }),
                    None => None,
                })
                &&& r.content == (Placement {
                    id: self.content().id,
                    origin: Point { x: (BUTTON_LENGTH + GAP) as u64, y: centre_offset((row - content_size.height) as u64) },
                    size: content_size,
                })
                &&& r.children@.len() == self.children().len()
                &&& forall|i: int| 0 <= i < r.children@.len() ==> {
                    &&& (#[trigger] r.children@[i]).id == self.children()[i].id
                    &&& r.children@[i].stashed == !self.expanded()
                    &&& r.children@[i].placement == if self.expanded() {
                        Some(Placement {
                            id: self.children()[i].id,
                            origin: Point { x: INDENT, y: child_top(row, child_sizes@, i) },
                            size: child_sizes@[i],
                        })
                    } else {
                        None::<Placement>
                    }
                }
            }),
            r.baseline_source == self.content().id,
    {
        let button_h: u64 = if self.disclosure_button.is_some() { BUTTON_LENGTH } else { 0 };
        let row_height = if content_size.height >= button_h { content_size.height } else { button_h };
        let button = match &self.disclosure_button {
            Some(btn) => Some(Placement {
                id: btn.id,
                origin: Point::new(0, (row_height - button_h) / 2),
                size: Size::new(BUTTON_LENGTH, BUTTON_LENGTH),
            }),
            None => None,
        };
        let content = Placement {
            id: self.content.id,
            origin: Point::new(BUTTON_LENGTH + GAP, (row_height - content_size.height) / 2),
            size: content_size,
        };
        let expanded = self.is_expanded();
        let ghost row = row_height;
        let mut y = row_height;
        let mut children: Vec<ChildLayout> = Vec::new();
        let n = self.children.len();
        let mut i: usize = 0;
        while i < n
            invariant
                n == self.children@.len(),
                expanded == self.expanded(),
                expanded ==> child_sizes@.len() == n,
                i <= n,
                children@.len() == i,
                expanded ==> y == child_top(row, child_sizes@, i as int),
                forall|j: int| 0 <= j < i ==> {
                    &&& (#[trigger] children@[j]).id == self.children@[j].id
                    &&& children@[j].stashed == !expanded
                    &&& children@[j].placement == if expanded {
                        Some(Placement {
                            id: self.children@[j].id,
                            origin: Point { x: INDENT, y: child_top(row, child_sizes@, j) },
                            size: child_sizes@[j],
                        })
                    } else {
                        None::<Placement>
                    }
                },
            decreases n - i,
        {
            let id = self.children[i].id;
            if expanded {
                let child_size = child_sizes[i];
                children.push(ChildLayout {
                    id,
                    stashed: false,
                    placement: Some(Placement { id, origin: Point::new(INDENT, y), size: child_size }),
                });
                y = y.saturating_add(child_size.height);
            } else {
                children.push(ChildLayout { id, stashed: true, placement: None });
            }
            i = i + 1;
        }
        NodeLayout { button, content, children, baseline_source: self.content.id }
    }
}


impl<W> TreeNode<W> {
    /// The ids of the node's own children: the triangle (if any), the content, then
    /// the child nodes in order.
    pub open spec fn children_ids_spec(self) -> Seq<WidgetId> {
        let button: Seq<WidgetId> = match self.button() {
            Some(b) => seq![b.id],
            None => Seq::empty(),
        };
        button + seq![self.content().id] + self.child_ids()
    }

    /// Expand or collapse this node (no effect on a leaf but a layout request).
    pub fn set_expanded(this: &mut WidgetMut<'_, Self>, expanded: bool)
        ensures
            *final(final(this).widget) == *final(old(this).widget),
            *final(final(this).ctx) == *final(old(this).ctx),
            final(this).widget.button() is Some == old(this).widget.button() is Some,
            old(this).widget.button() is Some ==> {
                &&& final(this).widget.button().unwrap().id == old(this).widget.button().unwrap().id
                &&& final(this).widget.button().unwrap().widget.disclosed_spec() == expanded
            },
            final(this).widget.expanded() == (expanded && old(this).widget.button() is Some),
            final(this).widget.content() == old(this).widget.content(),
            final(this).widget.children() == old(this).widget.children(),
            old(this).widget.wf() ==> final(this).widget.wf(),
            final(this).ctx.layout_requested,
            final(this).ctx.render_requested == (old(this).ctx.render_requested || old(this).widget.button() is Some),
            final(this).ctx.children_changed == old(this).ctx.children_changed,
            final(this).ctx.removed@ == old(this).ctx.removed@,
            final(this).ctx.ids == old(this).ctx.ids,
    {
        if let Some(btn) = this.widget.disclosure_button.as_mut() {
            let mut btn = this.ctx.get_mut(btn);
            DisclosureButton::set_disclosed(&mut btn, expanded);
        }
        this.ctx.request_layout();
    }

    /// Append a child node. If this was a leaf, it becomes a branch: it gains a
    /// disclosed triangle with a fresh id.
    pub fn add_child(this: &mut WidgetMut<'_, Self>, child: NewWidget<Self>)
        ensures
            *final(final(this).widget) == *final(old(this).widget),
            *final(final(this).ctx) == *final(old(this).ctx),
            final(this).widget.children() == old(this).widget.children().push(
                WidgetPod { id: child.id, widget: child.widget },
            ),
            final(this).widget.content() == old(this).widget.content(),
            final(this).widget.button() is Some,
            old(this).widget.button() is Some ==> {
                &&& final(this).widget.button() == old(this).widget.button()
                &&& final(this).ctx.ids == old(this).ctx.ids
            },
            old(this).widget.button() is None ==> {
                &&& final(this).widget.button().unwrap().id == WidgetId(old(this).ctx.ids.next)
                &&& final(this).widget.button().unwrap().widget.disclosed_spec()
                &&& final(this).ctx.ids.next == bumped(old(this).ctx.ids.next)
            },
            old(this).widget.wf() && child.widget.wf() ==> final(this).widget.wf(),
            final(this).ctx.children_changed,
            final(this).ctx.layout_requested == old(this).ctx.layout_requested,
            final(this).ctx.render_requested == old(this).ctx.render_requested,
            final(this).ctx.removed@ == old(this).ctx.removed@,
    {
        if this.widget.disclosure_button.is_none() {
            let button = DisclosureButton::new(true).prepare(&mut this.ctx.ids).to_pod();
            this.widget.disclosure_button = Some(button);
        }
        let ghost prev = this.widget.children@;
        this.widget.children.push(child.to_pod());
        proof {
            let n = *this.widget;
            lemma_children_wf(prev);
            lemma_children_wf(n.children@);
            assert forall|i: int| 0 <= i < n.children@.len() && old(this).widget.wf() && child.widget.wf()
                implies #[trigger] n.children@[i].widget.wf() by {
                if i < prev.len() {
                    assert(n.children@[i] == prev[i]);
                }
            }
        }
        this.ctx.children_changed();
    }

    /// Remove the `index`th child node. If this was the last child, it becomes a leaf
    /// (loses its triangle). The removed child, and the triangle if dropped, are
    /// recorded as removed, in that order.
    pub fn remove_child(this: &mut WidgetMut<'_, Self>, index: usize)
        requires
            index < old(this).widget.children().len(),
        ensures
            *final(final(this).widget) == *final(old(this).widget),
            *final(final(this).ctx) == *final(old(this).ctx),
            final(this).widget.children() == old(this).widget.children().remove(index as int),
            final(this).widget.content() == old(this).widget.content(),
            final(this).widget.button() == if final(this).widget.children().len() == 0 {
                None
            } else {
                old(this).widget.button()
            },
            final(this).ctx.removed@ == if final(this).widget.children().len() == 0
                && old(this).widget.button() is Some {
                old(this).ctx.removed@.push(old(this).widget.children()[index as int].id).push(
                    old(this).widget.button().unwrap().id,
                )
            } else {
                old(this).ctx.removed@.push(old(this).widget.children()[index as int].id)
            },
            old(this).widget.wf() ==> final(this).widget.wf(),
            final(this).ctx.children_changed,
            final(this).ctx.layout_requested == old(this).ctx.layout_requested,
            final(this).ctx.render_requested == old(this).ctx.render_requested,
            final(this).ctx.ids == old(this).ctx.ids,
    {
        let ghost prev = this.widget.children@;
        let pod = this.widget.children.remove(index);
        this.ctx.remove_child(pod);
        if this.widget.children.len() == 0 {
            match this.widget.disclosure_button.take() {
                Some(btn) => this.ctx.remove_child(btn),
                None => {},
            }
        }
        proof {
            let n = *this.widget;
            lemma_children_wf(prev);
            lemma_children_wf(n.children@);
            assert forall|i: int| 0 <= i < n.children@.len() && old(this).widget.wf()
                implies #[trigger] n.children@[i].widget.wf() by {
                if i < index {
                    assert(n.children@[i] == prev[i]);
                } else {
                    assert(n.children@[i] == prev[i + 1]);
                }
            }
        }
        this.ctx.children_changed();
    }

    /// Edit the content widget in place.
    pub fn content_mut<'t>(this: &'t mut WidgetMut<'_, Self>) -> (r: WidgetMut<'t, W>)
        ensures
            *final(final(this).widget) == *final(old(this).widget),
            *final(final(this).ctx) == *final(old(this).ctx),
            *r.widget == old(this).widget.content().widget,
            *r.ctx == *old(this).ctx,
            final(this).widget.content() == (WidgetPod { id: old(this).widget.content().id, widget: *final(r.widget) }),
            final(this).widget.button() == old(this).widget.button(),
            final(this).widget.children() == old(this).widget.children(),
            *final(this).ctx == *final(r.ctx),
            old(this).widget.wf() ==> final(this).widget.wf(),
    {
        this.ctx.get_mut(&mut this.widget.content)
    }

    /// Edit the `index`th child node in place.
    pub fn child_mut<'t>(this: &'t mut WidgetMut<'_, Self>, index: usize) -> (r: WidgetMut<'t, Self>)
        requires
            index < old(this).widget.children().len(),
        ensures
            *final(final(this).widget) == *final(old(this).widget),
            *final(final(this).ctx) == *final(old(this).ctx),
            *r.widget == old(this).widget.children()[index as int].widget,
            *r.ctx == *old(this).ctx,
            final(this).widget.children() == old(this).widget.children().update(
                index as int,
                WidgetPod { id: old(this).widget.children()[index as int].id, widget: *final(r.widget) },
            ),
            final(this).widget.button() == old(this).widget.button(),
            final(this).widget.content() == old(this).widget.content(),
            *final(this).ctx == *final(r.ctx),
            old(this).widget.wf() ==> r.widget.wf(),
            old(this).widget.wf() && final(r.widget).wf() ==> final(this).widget.wf(),
    {
        let ghost prev = this.widget.children@;
        let ghost id = prev[index as int].id;
        proof {
            lemma_children_wf(prev);
        }
        proof {
            lemma_children_wf_update(prev, index as int);
        }
        this.ctx.get_mut(&mut this.widget.children[index])
    }

    /// Registers the triangle (if any), the content and the child nodes, in that order.
    pub fn register_children(&self, ctx: &mut RegisterCtx)
        ensures
            final(ctx).registered@ == old(ctx).registered@ + self.children_ids_spec(),
    {
        match &self.disclosure_button {
            Some(btn) => ctx.register_child(btn),
            None => {},
        }
        ctx.register_child(&self.content);
        let n = self.children.len();
        let mut i: usize = 0;
        let ghost start = ctx.registered@;
        let ghost head: Seq<WidgetId> = match self.button() {
            Some(b) => seq![b.id],
            None => Seq::empty(),
        } + seq![self.content().id];
        assert(ctx.registered@ == start);
        while i < n
            invariant
                n == self.children@.len(),
                i <= n,
                ctx.registered@ == start + self.child_ids().take(i as int),
            decreases n - i,
        {
            ctx.register_child(&self.children[i]);
            assert(self.child_ids().take(i + 1) =~= self.child_ids().take(i as int).push(self.children@[i as int].id));
            i = i + 1;
        }
        assert(self.child_ids().take(n as int) =~= self.child_ids());
        assert(start == old(ctx).registered@ + head);
        assert(old(ctx).registered@ + head + self.child_ids() =~= old(ctx).registered@ + self.children_ids_spec());
    }

    /// Delivers a click on the widget `target` among this node's own children: a click on
    /// the triangle toggles it. Returns whether the click landed on the triangle.
    pub fn click_child(this: &mut WidgetMut<'_, Self>, target: WidgetId) -> (r: bool)
        ensures
            *final(final(this).widget) == *final(old(this).widget),
            *final(final(this).ctx) == *final(old(this).ctx),
            r == (old(this).widget.button() is Some && old(this).widget.button().unwrap().id == target),
            final(this).widget.button() is Some == old(this).widget.button() is Some,
            r ==> {
                &&& final(this).widget.button().unwrap().id == target
                &&& final(this).widget.expanded() == !old(this).widget.expanded()
                &&& final(this).ctx.layout_requested
                &&& final(this).ctx.render_requested
            },
            !r ==> {
                &&& final(this).widget.button() == old(this).widget.button()
                &&& final(this).ctx.layout_requested == old(this).ctx.layout_requested
                &&& final(this).ctx.render_requested == old(this).ctx.render_requested
            },
            final(this).widget.content() == old(this).widget.content(),
            final(this).widget.children() == old(this).widget.children(),
            old(this).widget.wf() ==> final(this).widget.wf(),
            final(this).ctx.children_changed == old(this).ctx.children_changed,
            final(this).ctx.removed@ == old(this).ctx.removed@,
            final(this).ctx.ids == old(this).ctx.ids,
    {
        if let Some(btn) = this.widget.disclosure_button.as_mut() {
            if btn.id == target {
                let mut btn = this.ctx.get_mut(btn);
                DisclosureButton::on_click(&mut btn);
                return true;
            }
        }
        false
    }

    /// The number of child nodes.
    pub fn child_count(&self) -> (r: usize)
        ensures
            r == self.children().len(),
    {
        self.children.len()
    }

    /// The `index`th child node.
    pub fn child(&self, index: usize) -> (r: &Self)
        requires
            index < self.children().len(),
        ensures
            *r == self.children()[index as int].widget,
    {
        &self.children[index].widget
    }

    /// The content row's widget.
    pub fn content_widget(&self) -> (r: &W)
        ensures
            *r == self.content().widget,
    {
        &self.content.widget
    }

    /// Its accessibility role is a generic container.
    pub fn accessibility_role(&self) -> (r: AccessRole)
        ensures
            r == AccessRole::GenericContainer,
    {
        AccessRole::GenericContainer
    }

    /// The ids of the triangle (if any), the content and the child nodes, in that order.
    pub fn children_ids(&self) -> (r: Vec<WidgetId>)
        ensures
            r@ == self.children_ids_spec(),
    {
        let mut ctx = RegisterCtx::new();
        self.register_children(&mut ctx);
        assert(ctx.registered@ =~= self.children_ids_spec());
        ctx.registered
    }
}



/// Appending a child and then removing the last child gives back the children the node
/// had, and its triangle, unless the node was a branch without children (which ends up
/// a leaf).
pub proof fn law_add_then_remove_child<W>(
    n0: TreeNode<W>,
    child: WidgetPod<TreeNode<W>>,
    n1: TreeNode<W>,
    n2: TreeNode<W>,
)
    requires
        n0.wf(),
        n1.children() == n0.children().push(child),
        n1.button() is Some,
        n0.button() is Some ==> n1.button() == n0.button(),
        n2.children() == n1.children().remove(n0.children().len() as int),
        n2.button() == if n2.children().len() == 0 { None } else { n1.button() },
    ensures
        n2.children() == n0.children(),
        n0.children().len() > 0 || n0.button() is None ==> n2.button() == n0.button(),
{
    assert(n1.children().remove(n0.children().len() as int) =~= n0.children());
}

/// Below the row, the children are stacked in order without overlapping: the first
/// starts at the bottom of the row and each one starts no higher than the bottom of
/// every child before it.
pub proof fn law_children_stacked(row: u64, sizes: Seq<Size>, i: int, j: int)
    requires
        0 <= i < j,
    ensures
        child_top(row, sizes, 0) == row,
        child_top(row, sizes, i) >= row,
        sat_add(child_top(row, sizes, i) as int, sizes[i].height as int) <= child_top(row, sizes, j),
    decreases j,
{
    if j > i + 1 {
        law_children_stacked(row, sizes, i, j - 1);
    }
    lemma_child_top_at_least_row(row, sizes, i);
}

proof fn lemma_child_top_at_least_row(row: u64, sizes: Seq<Size>, i: int)
    ensures
        child_top(row, sizes, i) >= row,
    decreases i,
{
    if i > 0 {
        lemma_child_top_at_least_row(row, sizes, i - 1);
    }
}

/// The heights of `sizes`, in order.
pub open spec fn heights(sizes: Seq<Size>) -> Seq<u64> {
    sizes.map_values(|s: Size| s.height)
}

/// The height that measure reports for a node is the height its layout fills when the
/// content row and the children are as tall as layout makes them: for an expanded branch
/// the bottom of the last child, for a collapsed branch its row. A leaf's measured height
/// counts the triangle's length while its layout row does not, so for a leaf the two agree
/// only when the content is at least as tall as the triangle.
pub proof fn law_measured_height_matches_layout(content_height: u64, has_button: bool, expanded: bool, sizes: Seq<Size>)
    requires
        expanded ==> has_button,
        !has_button ==> content_height >= BUTTON_LENGTH,
    ensures
        natural_length(Axis::Vertical, expanded, content_height, heights(sizes)) == if expanded {
            child_top(row_height(content_height, true), sizes, sizes.len() as int)
        } else {
            row_height(content_height, has_button)
        },
{
    let row = row_height(content_height, has_button);
    assert(row == row_length(Axis::Vertical, content_height));
    if expanded {
        lemma_stack_is_sum(row, sizes, sizes.len() as int);
        assert(heights(sizes).take(sizes.len() as int) =~= heights(sizes));
    }
}

proof fn lemma_stack_is_sum(row: u64, sizes: Seq<Size>, i: int)
    requires
        0 <= i <= sizes.len(),
    ensures
        child_top(row, sizes, i) == sat_add(row as int, children_length(Axis::Vertical, heights(sizes).take(i)) as int),
    decreases i,
{
    if i == 0 {
        assert(heights(sizes).take(0).len() == 0);
    } else {
        lemma_stack_is_sum(row, sizes, i - 1);
        let hs = heights(sizes).take(i);
        assert(hs.drop_last() =~= heights(sizes).take(i - 1));
        assert(hs.last() == sizes[i - 1].height);
    }
}

} // verus!
