use tree_widgets::access::AccessRole;
use tree_widgets::event::{Key, KeyState, KeyboardEvent, Modifiers, PointerButton, PointerEvent, TextEvent, Update, UpdateCtx};
use tree_widgets::widget::{EventCtx, MutateCtx, WidgetIdSource, WidgetMut};
use tree_widgets::layout::Axis;
use tree_widgets::widgets::colored_text::{
    eq_ignore_ascii_case, Color, ColorSpan, ColoredText, Rect, SelectionGesture, StyledRun, TextSelection,
};

const RED: Color = Color { r: 255, g: 0, b: 0, a: 255 };
const BLUE: Color = Color { r: 0, g: 0, b: 255, a: 255 };
const GREY: Color = Color { r: 128, g: 128, b: 128, a: 255 };

fn span(start: usize, end: usize, color: Color) -> ColorSpan {
    ColorSpan { range: start..end, color }
}

fn whole(text: &str) -> TextSelection {
    TextSelection { anchor: 0, focus: text.len() }
}

fn key(c: &str, ctrl: bool, meta: bool) -> TextEvent {
    TextEvent::Keyboard(KeyboardEvent {
        state: KeyState::Down,
        key: Key::Character(c.to_string()),
        modifiers: Modifiers { ctrl, meta },
    })
}

#[test]
fn palette_dedups_and_skips_bad_spans() {
    let spans = vec![
        span(0, 3, RED),
        span(4, 4, BLUE),   // empty: skipped
        span(4, 7, GREY),
        span(5, 99, BLUE),  // past the end: skipped
        span(8, 10, RED),   // reuses RED
    ];
    let mut text = ColoredText::new("let x = 1;", spans.clone(), GREY);
    assert!(text.layout_runs().is_none());
    text.ensure_layout();
    assert_eq!(text.palette(), &vec![GREY, RED]);
    assert_eq!(
        text.layout_runs().unwrap(),
        &vec![
            StyledRun { start: 0, end: 3, brush: 1 },
            StyledRun { start: 4, end: 7, brush: 0 },
            StyledRun { start: 8, end: 10, brush: 1 },
        ]
    );
    // A second call changes nothing.
    text.ensure_layout();
    assert_eq!(text.palette(), &vec![GREY, RED]);
    assert_eq!(spans[0].clone(), span(0, 3, RED));
}

#[test]
fn set_text_invalidates_layout_and_selection() {
    let mut text = ColoredText::new("abc", vec![span(0, 1, RED)], GREY);
    text.ensure_layout();
    let mut ev = EventCtx::new();
    text.on_text_event(&mut ev, &key("a", true, false), false, whole("abc"));
    assert!(text.selection().is_some());
    let mut ctx = MutateCtx::new(WidgetIdSource::new());
    {
        let mut this = WidgetMut::new(&mut text, &mut ctx);
        ColoredText::set_text_mut(&mut this, "xyz", vec![span(0, 2, BLUE)]);
    }
    assert!(ctx.layout_requested);
    assert!(text.layout_runs().is_none());
    assert!(text.selection().is_none());
    text.ensure_layout();
    assert_eq!(text.palette(), &vec![GREY, BLUE]);
    assert_eq!(text.get_debug_text(), Some("xyz".to_string()));
}

#[test]
fn select_all_then_copy_copies_everything() {
    let mut text = ColoredText::new("héllo wörld", vec![], GREY);
    let mut ev = EventCtx::new();
    // No layout yet: select-all does nothing.
    text.on_text_event(&mut ev, &key("A", true, false), false, whole("héllo wörld"));
    assert!(text.selection().is_none());
    text.ensure_layout();
    text.on_text_event(&mut ev, &key("A", true, false), false, whole("héllo wörld"));
    assert_eq!(text.selection(), Some(TextSelection { anchor: 0, focus: "héllo wörld".len() }));
    assert!(ev.render_requested);
    text.on_text_event(&mut ev, &key("c", true, false), false, whole("héllo wörld"));
    assert_eq!(ev.clipboard, Some("héllo wörld".to_string()));
}

#[test]
fn copy_needs_char_boundaries_and_a_non_empty_selection() {
    let mut text = ColoredText::new("héllo", vec![], GREY);
    text.ensure_layout();
    let mut ev = EventCtx::new();
    // Byte 2 is inside 'é': nothing is copied.
    text.apply_pointer_selection(&mut ev, SelectionGesture::Point, TextSelection { anchor: 0, focus: 2 });
    text.copy_selection(&mut ev);
    assert_eq!(ev.clipboard, None);
    // An empty selection copies nothing either.
    text.apply_pointer_selection(&mut ev, SelectionGesture::Extend, TextSelection { anchor: 3, focus: 3 });
    text.copy_selection(&mut ev);
    assert_eq!(ev.clipboard, None);
    // A backwards selection copies the range between its ends.
    text.apply_pointer_selection(&mut ev, SelectionGesture::Extend, TextSelection { anchor: 6, focus: 1 });
    text.copy_selection(&mut ev);
    assert_eq!(ev.clipboard, Some("éllo".to_string()));
}

#[test]
fn shortcuts_need_the_platform_modifier_and_a_press() {
    let mut text = ColoredText::new("abc", vec![], GREY);
    text.ensure_layout();
    let mut ev = EventCtx::new();
    text.on_text_event(&mut ev, &key("a", false, true), false, whole("abc"));
    assert!(text.selection().is_none());
    text.on_text_event(&mut ev, &key("a", true, false), true, whole("abc"));
    assert!(text.selection().is_none());
    let release = TextEvent::Keyboard(KeyboardEvent {
        state: KeyState::Up,
        key: Key::Character("a".to_string()),
        modifiers: Modifiers { ctrl: true, meta: false },
    });
    text.on_text_event(&mut ev, &release, false, whole("abc"));
    assert!(text.selection().is_none());
    text.on_text_event(&mut ev, &TextEvent::Other, false, whole("abc"));
    text.on_text_event(&mut ev, &key("ab", true, false), false, whole("abc"));
    assert!(text.selection().is_none());
    text.on_text_event(&mut ev, &key("a", false, true), true, whole("abc"));
    assert_eq!(text.selection(), Some(TextSelection { anchor: 0, focus: 3 }));
}

#[test]
fn pointer_gestures() {
    let mut text = ColoredText::new("abc def", vec![], GREY);
    let down = |count: u8| PointerEvent::Down { button: Some(PointerButton::Primary), count };
    assert_eq!(text.pointer_gesture(&down(1), false), None);
    text.ensure_layout();
    assert_eq!(text.pointer_gesture(&down(1), false), Some(SelectionGesture::Point));
    assert_eq!(text.pointer_gesture(&down(2), false), Some(SelectionGesture::Word));
    assert_eq!(text.pointer_gesture(&down(3), false), Some(SelectionGesture::Line));
    assert_eq!(text.pointer_gesture(&down(4), false), Some(SelectionGesture::Point));
    assert_eq!(text.pointer_gesture(&PointerEvent::Down { button: None, count: 2 }, false), Some(SelectionGesture::Word));
    assert_eq!(
        text.pointer_gesture(&PointerEvent::Down { button: Some(PointerButton::Secondary), count: 1 }, false),
        None
    );
    assert_eq!(text.pointer_gesture(&PointerEvent::Move, true), None);
    let mut ev = EventCtx::new();
    text.apply_pointer_selection(&mut ev, SelectionGesture::Word, TextSelection { anchor: 0, focus: 3 });
    assert!(ev.focus_requested && ev.pointer_captured && ev.render_requested);
    assert_eq!(text.pointer_gesture(&PointerEvent::Move, true), Some(SelectionGesture::Extend));
    assert_eq!(text.pointer_gesture(&PointerEvent::Move, false), None);
}

#[test]
fn fonts_changed_drops_layout() {
    let mut text = ColoredText::new("abc", vec![], GREY);
    text.ensure_layout();
    let mut ctx = UpdateCtx::new();
    text.update(&mut ctx, &Update::Other);
    assert!(text.layout_runs().is_some());
    assert!(!ctx.layout_requested);
    text.update(&mut ctx, &Update::FontsChanged);
    assert!(text.layout_runs().is_none());
    assert!(ctx.layout_requested);
}

#[test]
fn widget_flags_and_accessibility() {
    let mut text = ColoredText::new("doc", vec![], GREY);
    assert!(text.accepts_pointer_interaction());
    assert!(text.accepts_focus());
    assert!(!text.accepts_text_input());
    assert!(text.children_ids().is_empty());
    assert_eq!(text.get_cursor(), tree_widgets::widgets::colored_text::CursorIcon::Text);
    assert_eq!(text.accessibility_role(), AccessRole::Document);
    assert_eq!(text.accessibility_role().to_accesskit(), accesskit::Role::Document);
    assert_eq!(format!("{:?}", AccessRole::Document.to_accesskit()), "Document");
    assert_eq!(format!("{:?}", AccessRole::GenericContainer.to_accesskit()), "GenericContainer");
    assert_eq!(text.accessibility_value(), "doc".to_string());
    let mut node = accesskit::Node::new(accesskit::Role::Unknown);
    text.accessibility(&mut node);
    assert_eq!(node.value(), Some("doc"));
}

#[test]
fn ascii_case_matching() {
    assert!(eq_ignore_ascii_case("C", "c"));
    assert!(eq_ignore_ascii_case("Ab1", "aB1"));
    assert!(!eq_ignore_ascii_case("é", "É"));
    assert!(!eq_ignore_ascii_case("ab", "a"));
    assert_eq!(Color::from_rgba8(1, 2, 3, 4), Color { r: 1, g: 2, b: 3, a: 4 });
}

#[test]
fn measure_layout_and_paint() {
    let mut text = ColoredText::new("ab\ncd", vec![span(0, 2, RED)], GREY);
    assert!(text.paint(true, &vec![]).is_none());
    assert_eq!(text.measure(Axis::Horizontal, 30, 40), 30);
    assert_eq!(text.measure(Axis::Vertical, 30, 40), 40);
    assert_eq!(text.layout(&vec![12, 30]), Some((12, 30)));
    assert_eq!(text.layout(&vec![]), None);
    let boxes = vec![Rect { x0: 0, y0: 0, x1: 10, y1: 16 }];
    let plan = text.paint(true, &boxes).unwrap();
    assert!(plan.highlights.is_empty());
    assert_eq!(plan.brushes, vec![GREY, RED]);
    assert!(plan.hint);
    let mut ev = EventCtx::new();
    text.apply_pointer_selection(&mut ev, SelectionGesture::Point, TextSelection { anchor: 0, focus: 1 });
    let plan = text.paint(true, &boxes).unwrap();
    assert_eq!(plan.highlights, boxes);
    assert_eq!(plan.highlight_color, Color::from_rgba8(0x4f, 0x46, 0xe5, 0x66));
    assert!(text.paint(false, &boxes).unwrap().highlights.is_empty());
}
