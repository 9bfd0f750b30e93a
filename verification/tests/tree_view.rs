use tree_widgets::view::label::{label, LabelView};
use tree_widgets::view::tree_node::{route, tree_node, Route, TreeNode, TREE_NODE_CONTENT_VIEW_ID};
use tree_widgets::view::{MessageCtx, MessageResult, ViewCtx, ViewId, WidgetView};
use tree_widgets::widget::{MutateCtx, WidgetIdSource, WidgetMut};

fn leaf(text: &str) -> TreeNode<LabelView> {
    tree_node(label(text), vec![])
}

/// The tree of the tree-view example.
fn example_tree() -> TreeNode<LabelView> {
    tree_node(
        label("Root"),
        vec![
            leaf("Child A"),
            tree_node(
                label("Child B"),
                vec![tree_node(label("Grandchild"), vec![leaf("Great-grandchild-A"), leaf("Great-grandchild-B")])],
            ),
            leaf("Child C"),
        ],
    )
}

#[test]
fn build_mirrors_the_example_tree() {
    let view = example_tree();
    let mut ctx = ViewCtx::new(WidgetIdSource::new());
    let (element, state) = view.build(&mut ctx, &mut ());
    assert!(ctx.path.is_empty());
    let root = element.widget;
    assert!(root.is_expanded());
    assert_eq!(root.child_count(), 3);
    assert_eq!(state.child_count(), 3);
    assert_eq!(root.content_widget().text(), "Root");
    assert!(!root.child(0).is_expanded());
    assert_eq!(root.child(0).child_count(), 0);
    let b = root.child(1);
    assert_eq!(b.content_widget().text(), "Child B");
    assert_eq!(b.child(0).child_count(), 2);
    assert_eq!(b.child(0).child(1).content_widget().text(), "Great-grandchild-B");
    // A leaf has only its content; a branch has its triangle first.
    assert_eq!(root.child(2).children_ids().len(), 1);
    assert_eq!(root.children_ids().len(), 5);
}

#[test]
fn rebuild_grows_and_shrinks_children() {
    let v1 = tree_node(label("Root"), vec![leaf("A")]);
    let mut ctx = ViewCtx::new(WidgetIdSource::new());
    let (element, mut state) = v1.build(&mut ctx, &mut ());
    let mut node = element.widget;
    let first_child_ids = node.child(0).children_ids();

    // Collapse, then add two children: the node stays collapsed, the old child stays put.
    let mut mctx = MutateCtx::new(WidgetIdSource { next: 1000 });
    {
        let mut this = WidgetMut::new(&mut node, &mut mctx);
        tree_widgets::widgets::tree_node::TreeNode::set_expanded(&mut this, false);
    }
    let v2 = tree_node(label("Root 2"), vec![leaf("A"), leaf("B"), leaf("C")]);
    {
        let mut this = WidgetMut::new(&mut node, &mut mctx);
        v2.rebuild(&v1, &mut state, &mut ctx, &mut this, &mut ());
    }
    assert_eq!(node.child_count(), 3);
    assert_eq!(state.child_count(), 3);
    assert!(!node.is_expanded());
    assert_eq!(node.child(0).children_ids(), first_child_ids);
    assert_eq!(node.content_widget().text(), "Root 2");
    assert_eq!(node.child(2).content_widget().text(), "C");

    // Down to nothing: children removed from the last, then the triangle.
    let button = node.children_ids()[0];
    let c_ids = (node.children_ids()[2], node.children_ids()[3], node.children_ids()[4]);
    let v3 = tree_node(label("Root 2"), vec![]);
    {
        let mut this = WidgetMut::new(&mut node, &mut mctx);
        v3.rebuild(&v2, &mut state, &mut ctx, &mut this, &mut ());
    }
    assert_eq!(node.child_count(), 0);
    assert_eq!(state.child_count(), 0);
    assert_eq!(mctx.removed, vec![c_ids.2, c_ids.1, c_ids.0, button]);
    assert_eq!(node.children_ids().len(), 1);

    // From a leaf to a branch: a new, expanded triangle.
    {
        let mut this = WidgetMut::new(&mut node, &mut mctx);
        v1.rebuild(&v3, &mut state, &mut ctx, &mut this, &mut ());
    }
    assert!(node.is_expanded());
    assert_eq!(node.child_count(), 1);
    assert!(ctx.path.is_empty());
}

#[test]
fn rebuild_with_same_view_keeps_ids() {
    let view = example_tree();
    let mut ctx = ViewCtx::new(WidgetIdSource::new());
    let (element, mut state) = view.build(&mut ctx, &mut ());
    let mut node = element.widget;
    let before = node.children_ids();
    let mut mctx = MutateCtx::new(WidgetIdSource { next: 1000 });
    {
        let mut this = WidgetMut::new(&mut node, &mut mctx);
        view.rebuild(&view, &mut state, &mut ctx, &mut this, &mut ());
        view.teardown::<()>(&mut state, &mut ctx, &mut this);
    }
    assert_eq!(node.children_ids(), before);
    assert!(mctx.removed.is_empty());
    assert!(!mctx.layout_requested);
}

#[test]
fn messages_route_by_path() {
    let view = example_tree();
    let mut ctx = ViewCtx::new(WidgetIdSource::new());
    let (element, mut state) = view.build(&mut ctx, &mut ());
    let mut node = element.widget;
    let mut mctx = MutateCtx::new(WidgetIdSource { next: 1000 });
    let mut this = WidgetMut::new(&mut node, &mut mctx);

    // For this view itself: stale.
    let mut msg = MessageCtx::new(vec![]);
    assert_eq!(view.message(&mut state, &mut msg, &mut this, &mut ()), MessageResult::Stale);

    // Down to child 1, its child 0, then that one's content label.
    let mut msg = MessageCtx::new(vec![ViewId(1), ViewId(0), ViewId(TREE_NODE_CONTENT_VIEW_ID)]);
    assert_eq!(view.message(&mut state, &mut msg, &mut this, &mut ()), MessageResult::Stale);
    assert_eq!(msg.take_first(), None);
}

#[test]
fn route_decisions() {
    assert_eq!(route(None), Route::Here);
    assert_eq!(route(Some(ViewId::new(TREE_NODE_CONTENT_VIEW_ID))), Route::Content);
    assert_eq!(route(Some(ViewId::new(0))), Route::Child(0));
    assert_eq!(route(Some(ViewId::new(7))), Route::Child(7));
    assert_eq!(ViewId::new(7).routing_id(), 7);
}

#[test]
fn view_ctx_tracks_path() {
    let mut ctx = ViewCtx::new(WidgetIdSource::new());
    ctx.push_id(ViewId(3));
    ctx.push_id(ViewId(4));
    assert_eq!(ctx.path, vec![ViewId(3), ViewId(4)]);
    ctx.pop_id();
    assert_eq!(ctx.path, vec![ViewId(3)]);
    ctx.pop_id();
    ctx.pop_id();
    assert!(ctx.path.is_empty());
    let pod = ctx.create_pod(5u8);
    assert_eq!(pod.id.to_raw(), 1);
    assert_eq!(ctx.ids.next, 2);
}

#[test]
fn a_tree_can_be_the_content_of_a_tree() {
    let inner = tree_node(label("Inner"), vec![leaf("x"), leaf("y")]);
    let view = tree_node(inner, vec![tree_node(tree_node(label("Solo"), vec![]), vec![])]);
    let mut ctx = ViewCtx::new(WidgetIdSource::new());
    let (element, mut state) = WidgetView::<()>::build(&view, &mut ctx, &mut ());
    let mut node = element.widget;
    assert!(node.is_expanded());
    assert_eq!(node.child_count(), 1);
    assert_eq!(node.content_widget().child_count(), 2);
    assert_eq!(node.content_widget().content_widget().text(), "Inner");
    assert_eq!(node.child(0).content_widget().content_widget().text(), "Solo");

    // Rebuild with a shorter inner tree: the inner tree drops its last child.
    let inner2 = tree_node(label("Inner 2"), vec![leaf("x")]);
    let view2 = tree_node(inner2, vec![tree_node(tree_node(label("Solo"), vec![]), vec![])]);
    let dropped = node.content_widget().children_ids()[3];
    let mut mctx = MutateCtx::new(WidgetIdSource { next: 1000 });
    {
        let mut this = WidgetMut::new(&mut node, &mut mctx);
        WidgetView::<()>::rebuild(&view2, &view, &mut state, &mut ctx, &mut this, &mut ());
    }
    assert_eq!(node.content_widget().child_count(), 1);
    assert_eq!(node.content_widget().content_widget().text(), "Inner 2");
    assert_eq!(mctx.removed, vec![dropped]);
    assert!(ctx.path.is_empty());
}

#[test]
fn rebuild_removes_gone_children_from_the_last() {
    let prev = tree_node(label("Root"), vec![leaf("A"), leaf("B"), leaf("C")]);
    let mut ctx = ViewCtx::new(WidgetIdSource::new());
    let (element, mut state) = prev.build(&mut ctx, &mut ());
    let mut node = element.widget;
    let ids = node.children_ids();
    let next = tree_node(label("Root"), vec![leaf("A")]);
    let mut mctx = MutateCtx::new(WidgetIdSource { next: 1000 });
    {
        let mut this = WidgetMut::new(&mut node, &mut mctx);
        next.rebuild(&prev, &mut state, &mut ctx, &mut this, &mut ());
    }
    // The triangle comes first in the ids, then the content, then each child.
    assert_eq!(mctx.removed, vec![ids[4], ids[3]]);
    assert_eq!(node.child_count(), 1);
    assert_eq!(state.child_count(), 1);
    assert!(node.is_expanded());
    assert_eq!(node.children_ids()[0], ids[0]);
}

fn collect_ids(node: &tree_widgets::widgets::tree_node::TreeNode<tree_widgets::widgets::label::Label>, out: &mut Vec<u64>) {
    for id in node.children_ids() {
        out.push(id.to_raw());
    }
    for i in 0..node.child_count() {
        collect_ids(node.child(i), out);
    }
}

#[test]
fn build_hands_out_fresh_distinct_ids_and_expands_every_branch() {
    let view = example_tree();
    let mut ctx = ViewCtx::new(WidgetIdSource { next: 50 });
    let (element, _state) = view.build(&mut ctx, &mut ());
    let mut ids = vec![element.id.to_raw()];
    collect_ids(&element.widget, &mut ids);
    let end = ctx.ids.next;
    assert!(ids.iter().all(|&id| (50..end).contains(&id)));
    let mut sorted = ids.clone();
    sorted.sort();
    sorted.dedup();
    assert_eq!(sorted.len(), ids.len());
    // The root pod's id is the last one handed out.
    assert_eq!(element.id.to_raw(), end - 1);
    assert!(element.widget.is_expanded());
    assert!(element.widget.child(1).is_expanded());
    assert!(element.widget.child(1).child(0).is_expanded());
}
