use tree_widgets::layout::{Axis, LenReq, Point, Size};
use tree_widgets::widget::{MutateCtx, NewWidget, WidgetIdSource, WidgetMut};
use tree_widgets::widgets::label::Label;
use tree_widgets::widgets::tree_node::{TreeNode, BUTTON_LENGTH, GAP, INDENT};

const LABEL_HEIGHT: u64 = 20;

fn leaf(text: &str, ids: &mut WidgetIdSource) -> NewWidget<TreeNode<Label>> {
    let content = NewWidget::new(Label::new(text), ids);
    NewWidget::new(TreeNode::new(content), ids)
}

/// Height of a node whose rows are all `LABEL_HEIGHT` tall, as measure reports it.
fn measured_height(node: &TreeNode<Label>, child_heights: &Vec<u64>) -> u64 {
    node.measure(Axis::Vertical, LenReq::MaxContent, LABEL_HEIGHT, child_heights)
}

#[test]
fn single_leaf() {
    // content = a Label; node = TreeNode wrapping it; root = the node.
    let mut ids = WidgetIdSource::new();
    let content = NewWidget::new(Label::new("Leaf"), &mut ids);
    let content_id = content.id;
    let widget = NewWidget::new(TreeNode::new(content), &mut ids);
    let node = widget.widget;

    assert!(!node.is_expanded());
    assert_eq!(node.children_ids(), vec![content_id]);

    let size = Size::new(200, 100);
    let content_size = Size::new(28, LABEL_HEIGHT);
    assert_eq!(TreeNode::<Label>::content_available(size), Size::new(200 - BUTTON_LENGTH - GAP, 100));
    let layout = node.layout(size, content_size, &vec![]);
    assert!(layout.button.is_none());
    assert_eq!(layout.content.id, content_id);
    assert_eq!(layout.content.origin, Point::new(BUTTON_LENGTH + GAP, 0));
    assert_eq!(layout.content.size, content_size);
    assert!(layout.children.is_empty());
    assert_eq!(layout.baseline_source, content_id);
}

#[test]
fn with_children() {
    let mut ids = WidgetIdSource::new();
    let root_content = NewWidget::new(Label::new("Root"), &mut ids);
    let child_a = leaf("Child A", &mut ids);
    let grandchild = leaf("Grandchild", &mut ids);
    let b_content = NewWidget::new(Label::new("Child B"), &mut ids);
    let child_b = NewWidget::new(TreeNode::branch(b_content, vec![grandchild], &mut ids), &mut ids);
    let child_c = leaf("Child C", &mut ids);
    let (a_id, b_id, c_id) = (child_a.id, child_b.id, child_c.id);
    let b_height = measured_height(&child_b.widget, &vec![LABEL_HEIGHT]);
    let root_content_id = root_content.id;
    let root = TreeNode::branch(root_content, vec![child_a, child_b, child_c], &mut ids);

    assert!(root.is_expanded());
    let ids_in_order = root.children_ids();
    assert_eq!(ids_in_order.len(), 5);
    assert_eq!(ids_in_order[1..], [root_content_id, a_id, b_id, c_id]);

    // Child B shows its grandchild below its own row.
    assert_eq!(b_height, 2 * LABEL_HEIGHT);

    let size = Size::new(240, 160);
    let child_sizes = vec![
        Size::new(80, LABEL_HEIGHT),
        Size::new(120, b_height),
        Size::new(80, LABEL_HEIGHT),
    ];
    let layout = root.layout(size, Size::new(40, LABEL_HEIGHT), &child_sizes);
    let button = layout.button.unwrap();
    assert_eq!(button.id, ids_in_order[0]);
    assert_eq!(button.origin, Point::new(0, (LABEL_HEIGHT - BUTTON_LENGTH) / 2));
    let tops: Vec<u64> = layout.children.iter().map(|c| c.placement.unwrap().origin.y).collect();
    assert_eq!(tops, vec![LABEL_HEIGHT, 2 * LABEL_HEIGHT, 4 * LABEL_HEIGHT]);
    assert!(layout.children.iter().all(|c| !c.stashed && c.placement.unwrap().origin.x == INDENT));
    assert_eq!(TreeNode::<Label>::child_available(size, 4 * LABEL_HEIGHT), Size::new(240 - INDENT, 160 - 80));

    let total = root.measure(Axis::Vertical, LenReq::MaxContent, LABEL_HEIGHT, &vec![LABEL_HEIGHT, b_height, LABEL_HEIGHT]);
    assert_eq!(total, 5 * LABEL_HEIGHT);
    // The measured height ends where the last child ends in layout.
    let last = layout.children[2].placement.unwrap();
    assert_eq!(total, last.origin.y + last.size.height);
}

#[test]
fn collapse_via_click() {
    let mut ids = WidgetIdSource::new();
    let content = NewWidget::new(Label::new("Root"), &mut ids);
    let child_a = leaf("Child A", &mut ids);
    let child_b = leaf("Child B", &mut ids);
    let mut root = TreeNode::branch(content, vec![child_a, child_b], &mut ids);
    let size = Size::new(240, 160);
    let content_size = Size::new(40, LABEL_HEIGHT);
    let child_sizes = vec![Size::new(80, LABEL_HEIGHT), Size::new(80, LABEL_HEIGHT)];

    let expanded = root.layout(size, content_size, &child_sizes);
    assert!(expanded.children.iter().all(|c| !c.stashed && c.placement.is_some()));

    // The triangle is the first child of the root node.
    let triangle = root.children_ids()[0];
    let mut ctx = MutateCtx::new(ids);
    {
        let mut this = WidgetMut::new(&mut root, &mut ctx);
        assert!(TreeNode::click_child(&mut this, triangle));
    }
    assert!(ctx.layout_requested);
    assert!(!root.is_expanded());

    let collapsed = root.layout(size, content_size, &vec![]);
    assert!(collapsed.children.iter().all(|c| c.stashed && c.placement.is_none()));
    assert_eq!(root.measure(Axis::Vertical, LenReq::MaxContent, LABEL_HEIGHT, &vec![]), LABEL_HEIGHT);
}

#[test]
fn edit_collapses() {
    let mut ids = WidgetIdSource::new();
    let content = NewWidget::new(Label::new("Root"), &mut ids);
    let child = leaf("Child", &mut ids);
    let mut root = TreeNode::branch(content, vec![child], &mut ids);
    let size = Size::new(200, 120);
    let content_size = Size::new(40, LABEL_HEIGHT);
    let mut ctx = MutateCtx::new(ids);

    // Collapse it programmatically (not by clicking the triangle).
    {
        let mut this = WidgetMut::new(&mut root, &mut ctx);
        TreeNode::set_expanded(&mut this, false);
    }
    assert!(ctx.layout_requested);
    assert!(!root.is_expanded());
    let collapsed = root.layout(size, content_size, &vec![]);
    assert!(collapsed.children[0].stashed);
    assert!(collapsed.children[0].placement.is_none());

    {
        let mut this = WidgetMut::new(&mut root, &mut ctx);
        TreeNode::set_expanded(&mut this, true);
    }
    assert!(root.is_expanded());
    let expanded = root.layout(size, content_size, &vec![Size::new(60, LABEL_HEIGHT)]);
    assert!(!expanded.children[0].stashed);
    assert_eq!(expanded.children[0].placement.unwrap().origin, Point::new(INDENT, LABEL_HEIGHT));
}
