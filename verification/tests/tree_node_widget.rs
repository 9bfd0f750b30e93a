use tree_widgets::access::AccessRole;
use tree_widgets::layout::{Axis, LenDef, LenReq, LengthQuery, Size};
use tree_widgets::widget::{MutateCtx, NewWidget, RegisterCtx, WidgetId, WidgetIdSource, WidgetMut};
use tree_widgets::widgets::disclosure_button::DisclosureButton;
use tree_widgets::widgets::label::Label;
use tree_widgets::widgets::tree_node::TreeNode;

fn label(text: &str, id: u64) -> NewWidget<Label> {
    NewWidget::new_with_id(Label::new(text), WidgetId(id))
}

fn leaf(text: &str, content_id: u64, node_id: u64) -> NewWidget<TreeNode<Label>> {
    NewWidget::new_with_id(TreeNode::new(label(text, content_id)), WidgetId(node_id))
}

#[test]
fn new_leaf_has_only_content() {
    let node = TreeNode::new(label("x", 7));
    assert_eq!(node.children_ids(), vec![WidgetId(7)]);
    assert_eq!(node.child_count(), 0);
    assert!(!node.is_expanded());
    assert_eq!(node.content_widget().text(), "x");
    assert_eq!(node.accessibility_role(), AccessRole::GenericContainer);
    assert_eq!(node.accessibility_role().to_accesskit(), accesskit::Role::GenericContainer);
}

#[test]
fn branch_gets_fresh_disclosed_triangle_first() {
    let mut ids = WidgetIdSource { next: 100 };
    let node = TreeNode::branch(label("root", 1), vec![leaf("a", 2, 3), leaf("b", 4, 5)], &mut ids);
    assert_eq!(ids.next, 101);
    assert!(node.is_expanded());
    assert_eq!(node.children_ids(), vec![WidgetId(100), WidgetId(1), WidgetId(3), WidgetId(5)]);
    assert_eq!(node.child(1).content_widget().text(), "b");
    let mut reg = RegisterCtx::new();
    node.register_children(&mut reg);
    assert_eq!(reg.registered, node.children_ids());
}

#[test]
fn add_child_turns_leaf_into_expanded_branch() {
    let mut node = TreeNode::new(label("root", 1));
    let mut ctx = MutateCtx::new(WidgetIdSource { next: 50 });
    {
        let mut this = WidgetMut::new(&mut node, &mut ctx);
        TreeNode::add_child(&mut this, leaf("a", 2, 3));
    }
    assert!(ctx.children_changed);
    assert_eq!(ctx.ids.next, 51);
    assert!(node.is_expanded());
    assert_eq!(node.children_ids(), vec![WidgetId(50), WidgetId(1), WidgetId(3)]);

    // A second child keeps the existing triangle.
    {
        let mut this = WidgetMut::new(&mut node, &mut ctx);
        TreeNode::add_child(&mut this, leaf("b", 4, 5));
    }
    assert_eq!(ctx.ids.next, 51);
    assert_eq!(node.children_ids(), vec![WidgetId(50), WidgetId(1), WidgetId(3), WidgetId(5)]);
}

#[test]
fn remove_last_child_drops_triangle() {
    let mut ids = WidgetIdSource { next: 10 };
    let mut node = TreeNode::branch(label("root", 1), vec![leaf("a", 2, 3), leaf("b", 4, 5)], &mut ids);
    let mut ctx = MutateCtx::new(ids);
    {
        let mut this = WidgetMut::new(&mut node, &mut ctx);
        TreeNode::remove_child(&mut this, 0);
    }
    assert_eq!(ctx.removed, vec![WidgetId(3)]);
    assert_eq!(node.children_ids(), vec![WidgetId(10), WidgetId(1), WidgetId(5)]);
    {
        let mut this = WidgetMut::new(&mut node, &mut ctx);
        TreeNode::remove_child(&mut this, 0);
    }
    // The removed child first, then the triangle.
    assert_eq!(ctx.removed, vec![WidgetId(3), WidgetId(5), WidgetId(10)]);
    assert_eq!(node.children_ids(), vec![WidgetId(1)]);
    assert!(!node.is_expanded());
    assert!(ctx.children_changed);
}

#[test]
fn add_then_remove_restores_children() {
    let mut ids = WidgetIdSource { next: 10 };
    let mut node = TreeNode::branch(label("root", 1), vec![leaf("a", 2, 3)], &mut ids);
    let before = node.children_ids();
    let mut ctx = MutateCtx::new(ids);
    {
        let mut this = WidgetMut::new(&mut node, &mut ctx);
        TreeNode::add_child(&mut this, leaf("b", 4, 5));
        TreeNode::remove_child(&mut this, 1);
    }
    assert_eq!(node.children_ids(), before);

    // A leaf becomes a leaf again.
    let mut leaf_node = TreeNode::new(label("l", 20));
    {
        let mut this = WidgetMut::new(&mut leaf_node, &mut ctx);
        TreeNode::add_child(&mut this, leaf("c", 21, 22));
        TreeNode::remove_child(&mut this, 0);
    }
    assert_eq!(leaf_node.children_ids(), vec![WidgetId(20)]);

    // A branch without children does not get its triangle back.
    let mut empty_branch = TreeNode::<Label>::branch(label("e", 30), vec![], &mut ctx.ids);
    assert_eq!(empty_branch.children_ids().len(), 2);
    {
        let mut this = WidgetMut::new(&mut empty_branch, &mut ctx);
        TreeNode::add_child(&mut this, leaf("d", 31, 32));
        TreeNode::remove_child(&mut this, 0);
    }
    assert_eq!(empty_branch.children_ids(), vec![WidgetId(30)]);
}

#[test]
fn set_expanded_on_leaf_only_requests_layout() {
    let mut node = TreeNode::new(label("root", 1));
    let mut ctx = MutateCtx::new(WidgetIdSource::new());
    {
        let mut this = WidgetMut::new(&mut node, &mut ctx);
        TreeNode::set_expanded(&mut this, true);
    }
    assert!(!node.is_expanded());
    assert!(ctx.layout_requested);
    assert!(!ctx.render_requested);
}

#[test]
fn child_and_content_edits_land_in_place() {
    let mut ids = WidgetIdSource { next: 10 };
    let mut node = TreeNode::branch(label("root", 1), vec![leaf("a", 2, 3), leaf("b", 4, 5)], &mut ids);
    let mut ctx = MutateCtx::new(ids);
    {
        let mut this = WidgetMut::new(&mut node, &mut ctx);
        {
            let mut content = TreeNode::content_mut(&mut this);
            Label::set_text(&mut content, "ROOT");
        }
        {
            let mut child = TreeNode::child_mut(&mut this, 1);
            TreeNode::add_child(&mut child, leaf("b1", 6, 7));
        }
    }
    assert_eq!(node.content_widget().text(), "ROOT");
    assert_eq!(node.child(1).children_ids(), vec![WidgetId(11), WidgetId(4), WidgetId(7)]);
    assert_eq!(node.child(0).children_ids(), vec![WidgetId(2)]);
    assert!(ctx.layout_requested);
}

#[test]
fn click_elsewhere_is_not_handled() {
    let mut ids = WidgetIdSource { next: 10 };
    let mut node = TreeNode::branch(label("root", 1), vec![leaf("a", 2, 3)], &mut ids);
    let mut ctx = MutateCtx::new(ids);
    {
        let mut this = WidgetMut::new(&mut node, &mut ctx);
        assert!(!TreeNode::click_child(&mut this, WidgetId(1)));
    }
    assert!(node.is_expanded());
    assert!(!ctx.layout_requested);
    {
        let mut this = WidgetMut::new(&mut node, &mut ctx);
        assert!(TreeNode::click_child(&mut this, WidgetId(10)));
        assert!(TreeNode::click_child(&mut this, WidgetId(10)));
    }
    assert!(node.is_expanded());
}

#[test]
fn disclosure_button_toggles() {
    let mut pod = DisclosureButton::new(false);
    let mut ctx = MutateCtx::new(WidgetIdSource::new());
    {
        let mut this = WidgetMut::new(&mut pod, &mut ctx);
        DisclosureButton::on_click(&mut this);
    }
    assert!(pod.is_disclosed());
    {
        let mut this = WidgetMut::new(&mut pod, &mut ctx);
        DisclosureButton::set_disclosed(&mut this, false);
    }
    assert!(!pod.is_disclosed());
    assert!(ctx.render_requested);
}

#[test]
fn measure_horizontal() {
    let mut ids = WidgetIdSource { next: 10 };
    let node = TreeNode::branch(label("root", 1), vec![leaf("a", 2, 3), leaf("b", 4, 5)], &mut ids);
    // Row: triangle 16 + gap 4 + content 50; children indented by 16.
    assert_eq!(node.measure(Axis::Horizontal, LenReq::MaxContent, 50, &vec![30, 100]), 116);
    assert_eq!(node.measure(Axis::Horizontal, LenReq::MaxContent, 50, &vec![30, 40]), 70);
    // Never more than offered.
    assert_eq!(node.measure(Axis::Horizontal, LenReq::FitContent(100), 50, &vec![30, 100]), 100);
    assert_eq!(node.measure(Axis::Horizontal, LenReq::FitContent(500), 50, &vec![30, 100]), 116);
    // Saturates instead of overflowing.
    assert_eq!(node.measure(Axis::Horizontal, LenReq::MinContent, u64::MAX - 1, &vec![0, 0]), u64::MAX);
}

#[test]
fn measure_vertical() {
    let mut ids = WidgetIdSource { next: 10 };
    let node = TreeNode::branch(label("root", 1), vec![leaf("a", 2, 3), leaf("b", 4, 5)], &mut ids);
    // Row is at least as tall as the triangle.
    assert_eq!(node.measure(Axis::Vertical, LenReq::MaxContent, 10, &vec![20, 20]), 56);
    assert_eq!(node.measure(Axis::Vertical, LenReq::MinContent, 30, &vec![20, 25]), 75);
    assert_eq!(node.measure(Axis::Vertical, LenReq::FitContent(60), 30, &vec![20, 25]), 60);
    let leaf_node = TreeNode::new(label("x", 9));
    assert_eq!(leaf_node.measure(Axis::Vertical, LenReq::MaxContent, 10, &vec![]), 16);
}

#[test]
fn measure_requests_follow_axis() {
    assert_eq!(
        TreeNode::<Label>::measure_requests(Axis::Horizontal, LenReq::FitContent(300), Some(40)),
        (
            LengthQuery { axis: Axis::Horizontal, request: LenDef::MinContent, cross_length: Some(40) },
            LengthQuery { axis: Axis::Horizontal, request: LenDef::MinContent, cross_length: Some(40) },
        )
    );
    assert_eq!(
        TreeNode::<Label>::measure_requests(Axis::Vertical, LenReq::MaxContent, None),
        (
            LengthQuery { axis: Axis::Vertical, request: LenDef::MaxContent, cross_length: None },
            LengthQuery { axis: Axis::Vertical, request: LenDef::MaxContent, cross_length: None },
        )
    );

    assert_eq!(LenDef::FitContent(10).reduce(16), LenDef::FitContent(0));
    assert_eq!(LenDef::Fixed(30).reduce(16), LenDef::Fixed(14));
    assert_eq!(Axis::Horizontal.cross(), Axis::Vertical);
}

#[test]
fn layout_centres_row_and_stacks_children() {
    let mut ids = WidgetIdSource { next: 10 };
    let node = TreeNode::branch(label("root", 1), vec![leaf("a", 2, 3), leaf("b", 4, 5)], &mut ids);
    let layout = node.layout(Size::new(100, 200), Size::new(30, 10), &vec![Size::new(50, 7), Size::new(60, 9)]);
    let button = layout.button.unwrap();
    // Row is 16 tall (the triangle); the 10-tall content is centred in it.
    assert_eq!((button.origin.x, button.origin.y), (0, 0));
    assert_eq!((layout.content.origin.x, layout.content.origin.y), (20, 3));
    let tops: Vec<(u64, u64)> = layout
        .children
        .iter()
        .map(|c| (c.placement.unwrap().origin.x, c.placement.unwrap().origin.y))
        .collect();
    assert_eq!(tops, vec![(16, 16), (16, 23)]);
    assert_eq!(layout.children[1].id, WidgetId(5));
    assert_eq!(TreeNode::<Label>::child_available(Size::new(10, 20), 30), Size::new(0, 0));
}

#[test]
fn measured_height_matches_layout_row() {
    // A collapsed branch: measure and layout both give the 16-tall row.
    let mut ids = WidgetIdSource { next: 10 };
    let mut node = TreeNode::branch(label("root", 1), vec![leaf("a", 2, 3)], &mut ids);
    let mut ctx = MutateCtx::new(WidgetIdSource::new());
    {
        let mut this = WidgetMut::new(&mut node, &mut ctx);
        TreeNode::set_expanded(&mut this, false);
    }
    assert_eq!(node.measure(Axis::Vertical, LenReq::MaxContent, 10, &vec![]), 16);
    let layout = node.layout(Size::new(100, 16), Size::new(30, 10), &vec![]);
    assert_eq!(layout.content.origin.y, 3);
    assert_eq!(layout.button.unwrap().size.height, 16);
    // A leaf whose content is taller than the triangle: the row is the content.
    let leaf_node = TreeNode::new(label("x", 9));
    assert_eq!(leaf_node.measure(Axis::Vertical, LenReq::MaxContent, 20, &vec![]), 20);
    let layout = leaf_node.layout(Size::new(100, 20), Size::new(30, 20), &vec![]);
    assert_eq!(layout.content.origin.y, 0);
    assert!(layout.button.is_none());
}

#[test]
fn odd_centring_gap_rounds_down() {
    let mut ids = WidgetIdSource { next: 10 };
    let node = TreeNode::branch(label("root", 1), vec![leaf("a", 2, 3)], &mut ids);
    // A 16-tall row and 11-tall content leave 5 pixels: 2 above, 3 below.
    let layout = node.layout(Size::new(100, 100), Size::new(30, 11), &vec![Size::new(40, 11)]);
    assert_eq!(layout.content.origin.y, 2);
    assert_eq!(layout.button.unwrap().origin.y, 0);
}
