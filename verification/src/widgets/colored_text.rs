//! A read-only, selectable text block whose byte ranges can carry their own colors.
use std::ops::Range;
use vstd::prelude::*;
use vstd::string::{StrSliceExecFns, StringSliceAdditionalSpecFns};
use vstd::utf8::{encode_utf8, is_char_boundary};
use crate::access::{node_set_value, node_value, AccessRole};
use crate::event::{Key, KeyState, PointerButton, PointerEvent, TextEvent, Update, UpdateCtx, action_modifier};
use crate::layout::Axis;
use crate::widget::{EventCtx, WidgetId, WidgetMut};

verus! {

/// An sRGB color with 8-bit channels.
#[derive(Clone, Copy, PartialEq, Eq, Structural, Debug)]
pub struct Color {
    pub r: u8,
    pub g: u8,
    pub b: u8,
    pub a: u8,
}

impl Color {
    pub fn from_rgba8(r: u8, g: u8, b: u8, a: u8) -> (c: Color)
        ensures
            c == (Color { r, g, b, a }),
    {
        Color { r, g, b, a }
    }
}

/// One byte range of the text painted with a given color.
#[derive(Debug, PartialEq)]
pub struct ColorSpan {
    /// Byte range into the widget's text.
    pub range: Range<usize>,
    /// Color used for that range.
    pub color: Color,
}

impl Clone for ColorSpan {
    fn clone(&self) -> (r: Self)
        ensures
            r == *self,
    {
        ColorSpan { range: self.range.start..self.range.end, color: self.color }
    }
}

/// A styling instruction handed to the text layout: paint the bytes `start..end`
/// with the palette entry `brush`.
#[derive(Clone, Copy, PartialEq, Eq, Structural, Debug)]
pub struct StyledRun {
    pub start: usize,
    pub end: usize,
    pub brush: usize,
}

/// The styled layout of the text: the runs that color it, in the order they were pushed.
pub struct TextLayout {
    pub runs: Vec<StyledRun>,
}

/// A selection between an anchor and a focus byte offset.
#[derive(Clone, Copy, PartialEq, Eq, Structural, Debug)]
pub struct TextSelection {
    pub anchor: usize,
    pub focus: usize,
}

impl TextSelection {
    /// The selected byte range, start first.
    pub open spec fn range_spec(self) -> (usize, usize) {
        if self.anchor <= self.focus { (self.anchor, self.focus) } else { (self.focus, self.anchor) }
    }

    /// The selected byte range `(start, end)`, start first.
    pub fn text_range(&self) -> (r: (usize, usize))
        ensures
            r == self.range_spec(),
    {
        if self.anchor <= self.focus { (self.anchor, self.focus) } else { (self.focus, self.anchor) }
    }
}

/// Length in bytes of the UTF-8 encoding of `text`.
pub open spec fn byte_len(text: Seq<char>) -> nat {
    encode_utf8(text).len()
}

/// A span is drawn when its range is non-empty and lies within the text.
pub open spec fn span_is_drawn(span: ColorSpan, text_len: nat) -> bool {
    span.range.start < span.range.end && span.range.end <= text_len
}

/// Index of the first occurrence of `c` in `p`, or `p.len()` when absent.
pub open spec fn position_of(p: Seq<Color>, c: Color) -> int
    decreases p.len(),
{
    if p.len() == 0 {
        0
    } else if p[0] == c {
        0
    } else {
        1 + position_of(p.drop_first(), c)
    }
}

/// The palette built from `spans`: the default color first, then each color of a
/// drawn span the first time it appears.
pub open spec fn palette_for(default_color: Color, spans: Seq<ColorSpan>, text_len: nat) -> Seq<Color>
    decreases spans.len(),
{
    if spans.len() == 0 {
        seq![default_color]
    } else {
        let p = palette_for(default_color, spans.drop_last(), text_len);
        let s = spans.last();
        if span_is_drawn(s, text_len) && !p.contains(s.color) {
            p.push(s.color)
        } else {
            p
        }
    }
}

/// The runs pushed for `spans`: one per drawn span, in order, with the palette index of
/// its color.
pub open spec fn runs_for(default_color: Color, spans: Seq<ColorSpan>, text_len: nat) -> Seq<StyledRun>
    decreases spans.len(),
{
    if spans.len() == 0 {
        seq![]
    } else {
        let r = runs_for(default_color, spans.drop_last(), text_len);
        let s = spans.last();
        if span_is_drawn(s, text_len) {
            r.push(StyledRun {
                start: s.range.start,
                end: s.range.end,
                brush: position_of(palette_for(default_color, spans, text_len), s.color) as usize,
            })
        } else {
            r
        }
    }
}

/// Code point of the ASCII lower case of `c`.
pub open spec fn ascii_lower(c: char) -> u32 {
    let u = c as u32;
    // 65 to 90 are the code points of `A` to `Z`.
    if 65 <= u && u <= 90 { (u + 32) as u32 } else { u }
}

/// `a` and `b` match ignoring ASCII case.
pub open spec fn ascii_case_eq(a: Seq<char>, b: Seq<char>) -> bool {
    a.len() == b.len() && forall|i: int| 0 <= i < a.len() ==> ascii_lower(#[trigger] a[i]) == ascii_lower(b[i])
}

/// Checks that two strings are an ASCII case-insensitive match.
pub fn eq_ignore_ascii_case(a: &str, b: &str) -> (r: bool)
    ensures
        r == ascii_case_eq(a@, b@),
{
    let n = a.unicode_len();
    if n != b.unicode_len() {
        return false;
    }
    let mut i: usize = 0;
    while i < n
        invariant
            n == a@.len(),
            n == b@.len(),
            i <= n,
            forall|j: int| 0 <= j < i ==> ascii_lower(#[trigger] a@[j]) == ascii_lower(b@[j]),
        decreases n - i,
    {
        let x = a.get_char(i);
        let y = b.get_char(i);
        let ux: u32 = x as u32;
        let uy: u32 = y as u32;
        let lx: u32 = if 65 <= ux && ux <= 90 { ux + 32 } else { ux };
        let ly: u32 = if 65 <= uy && uy <= 90 { uy + 32 } else { uy };
        if lx != ly {
            return false;
        }
        i = i + 1;
    }
    true
}

/// Calls std's `str::get` with the byte range `start..end`. std documents that it
/// returns the substring exactly when indexing would not panic: `start <= end <= len`
/// with both ends on char boundaries.
#[verifier::external_body]
fn str_get(s: &str, start: usize, end: usize) -> (r: Option<&str>)
    ensures
        r is Some <==> (start <= end && end <= s.spec_bytes().len() && is_char_boundary(s.spec_bytes(), start as int)
            && is_char_boundary(s.spec_bytes(), end as int)),
        r matches Some(t) ==> t.spec_bytes() == s.spec_bytes().subrange(start as int, end as int),
{
    s.get(start..end)
}


/// `position_of` finds `c` when `p` holds it.
proof fn lemma_position_of(p: Seq<Color>, c: Color)
    ensures
        0 <= position_of(p, c) <= p.len(),
        p.contains(c) <==> position_of(p, c) < p.len(),
        position_of(p, c) < p.len() ==> p[position_of(p, c)] == c,
        forall|j: int| 0 <= j < position_of(p, c) ==> p[j] != c,
    decreases p.len(),
{
    if p.len() > 0 && p[0] != c {
        lemma_position_of(p.drop_first(), c);
        if p.contains(c) {
            let k = choose|k: int| 0 <= k < p.len() && p[k] == c;
            assert(p.drop_first()[k - 1] == c);
        }
        assert forall|j: int| 0 <= j < position_of(p, c) implies p[j] != c by {
            if j > 0 {
                assert(p[j] == p.drop_first()[j - 1]);
            }
        }
    } else if p.len() > 0 {
        assert(p.contains(c));
    }
}

/// The palette index for `color`: its existing entry, or a new entry at the end.
fn index_for(color: Color, palette: &mut Vec<Color>) -> (r: usize)
    ensures
        old(palette)@.contains(color) ==> final(palette)@ == old(palette)@,
        !old(palette)@.contains(color) ==> final(palette)@ == old(palette)@.push(color),
        r == position_of(final(palette)@, color),
        r < final(palette)@.len(),
{
    let n = palette.len();
    let mut i: usize = 0;
    proof {
        lemma_position_of(palette@, color);
    }
    while i < n
        invariant
            n == palette@.len(),
            palette@ == old(palette)@,
            i <= n,
            forall|j: int| 0 <= j < i ==> palette@[j] != color,
            0 <= position_of(palette@, color) <= n,
            palette@.contains(color) <==> position_of(palette@, color) < n,
            position_of(palette@, color) < n ==> palette@[position_of(palette@, color)] == color,
            forall|j: int| 0 <= j < position_of(palette@, color) ==> palette@[j] != color,
        decreases n - i,
    {
        if palette[i] == color {
            return i;
        }
        i = i + 1;
    }
    palette.push(color);
    proof {
        lemma_position_of(palette@, color);
        assert(palette@[n as int] == color);
        assert(palette@.contains(color));
        assert forall|j: int| 0 <= j < n implies palette@[j] != color by {
            assert(palette@[j] == old(palette)@[j]);
        }
    }
    n
}

/// A selectable, per-range-colored, read-only text view.
pub struct ColoredText {
    text: String,
    spans: Vec<ColorSpan>,
    default_color: Color,
    hint: bool,
    /// Built lazily from the inputs above; `None` means "rebuild needed".
    layout: Option<TextLayout>,
    /// Colors indexed by brush. Index 0 is the default color.
    palette: Vec<Color>,
    selection: Option<TextSelection>,
}

impl ColoredText {
    pub closed spec fn text_spec(&self) -> Seq<char> {
        self.text@
    }

    pub closed spec fn spans_spec(&self) -> Seq<ColorSpan> {
        self.spans@
    }

    pub closed spec fn default_color_spec(&self) -> Color {
        self.default_color
    }

    pub closed spec fn hint_spec(&self) -> bool {
        self.hint
    }

    /// The runs of the built layout, or `None` when a rebuild is needed.
    pub closed spec fn layout_spec(&self) -> Option<Seq<StyledRun>> {
        match self.layout {
            Some(l) => Some(l.runs@),
            None => None,
        }
    }

    pub closed spec fn palette_spec(&self) -> Seq<Color> {
        self.palette@
    }

    pub closed spec fn selection_spec(&self) -> Option<TextSelection> {
        self.selection
    }

    /// The runs of the built layout, or `None` when a rebuild is needed.
    pub fn layout_runs(&self) -> (r: Option<&Vec<StyledRun>>)
        ensures
            r is Some == self.layout_spec() is Some,
            r matches Some(v) ==> Some(v@) == self.layout_spec(),
    {
        match &self.layout {
            Some(l) => Some(&l.runs),
            None => None,
        }
    }

    /// The palette the runs' brushes index into.
    pub fn palette(&self) -> (r: &Vec<Color>)
        ensures
            r@ == self.palette_spec(),
    {
        &self.palette
    }

    /// The current selection.
    pub fn selection(&self) -> (r: Option<TextSelection>)
        ensures
            r == self.selection_spec(),
    {
        self.selection
    }

    /// Length of the text in bytes, as `str::len` reports it.
    pub open spec fn text_len(&self) -> nat {
        (byte_len(self.text_spec()) as usize) as nat
    }

    /// Creates a selectable, per-range-colored text widget. No layout is built yet and
    /// nothing is selected.
    pub fn new(text: &str, spans: Vec<ColorSpan>, default_color: Color) -> (r: Self)
        ensures
            r.text_spec() == text@,
            r.spans_spec() == spans@,
            r.default_color_spec() == default_color,
            r.hint_spec(),
            r.layout_spec() is None,
            r.palette_spec().len() == 0,
            r.selection_spec() is None,
    {
        ColoredText {
            text: text.to_owned(),
            spans,
            default_color,
            hint: true,
            layout: None,
            palette: Vec::new(),
            selection: None,
        }
    }

    /// Replaces the text and colored spans, forcing a layout rebuild and clearing the
    /// selection.
    pub fn set_text(&mut self, text: &str, spans: Vec<ColorSpan>)
        ensures
            final(self).text_spec() == text@,
            final(self).spans_spec() == spans@,
            final(self).layout_spec() is None,
            final(self).selection_spec() is None,
            final(self).default_color_spec() == old(self).default_color_spec(),
            final(self).hint_spec() == old(self).hint_spec(),
            final(self).palette_spec() == old(self).palette_spec(),
    {
        self.text = text.to_owned();
        self.spans = spans;
        self.layout = None;
        self.selection = None;
    }

    /// Updates the text and colored spans from a [`WidgetMut`] and requests layout.
    pub fn set_text_mut(this: &mut WidgetMut<'_, Self>, text: &str, spans: Vec<ColorSpan>)
        ensures
            *final(final(this).widget) == *final(old(this).widget),
            *final(final(this).ctx) == *final(old(this).ctx),
            final(this).widget.text_spec() == text@,
            final(this).widget.spans_spec() == spans@,
            final(this).widget.layout_spec() is None,
            final(this).widget.selection_spec() is None,
            final(this).widget.default_color_spec() == old(this).widget.default_color_spec(),
            final(this).widget.hint_spec() == old(this).widget.hint_spec(),
            final(this).widget.palette_spec() == old(this).widget.palette_spec(),
            final(this).ctx.layout_requested,
            final(this).ctx.render_requested == old(this).ctx.render_requested,
            final(this).ctx.children_changed == old(this).ctx.children_changed,
            final(this).ctx.removed@ == old(this).ctx.removed@,
            final(this).ctx.ids == old(this).ctx.ids,
    {
        this.widget.set_text(text, spans);
        this.ctx.request_layout();
    }

    /// Builds the styled layout and the palette if a rebuild is needed: the palette
    /// starts with the default color, then one entry per distinct color of a drawn span
    /// (non-empty and within the text), in order of first use; each drawn span becomes
    /// a run painted with its color's entry. Spans that are empty or reach past the end
    /// of the text are skipped.
    pub fn ensure_layout(&mut self)
        ensures
            old(self).layout_spec() is Some ==> *final(self) == *old(self),
            old(self).layout_spec() is None ==> {
                &&& final(self).layout_spec() == Some(runs_for(old(self).default_color_spec(), old(self).spans_spec(), old(self).text_len()))
                &&& final(self).palette_spec() == palette_for(old(self).default_color_spec(), old(self).spans_spec(), old(self).text_len())
                &&& final(self).text_spec() == old(self).text_spec()
                &&& final(self).spans_spec() == old(self).spans_spec()
                &&& final(self).default_color_spec() == old(self).default_color_spec()
                &&& final(self).hint_spec() == old(self).hint_spec()
                &&& final(self).selection_spec() == old(self).selection_spec()
            },
    {
        if self.layout.is_some() {
            return;
        }
        let text_len = self.text.as_str().len();
        let mut palette: Vec<Color> = Vec::new();
        palette.push(self.default_color);
        let mut runs: Vec<StyledRun> = Vec::new();
        let n = self.spans.len();
        let mut i: usize = 0;
        while i < n
            invariant
                n == self.spans@.len(),
                text_len == self.text_len(),
                i <= n,
                palette@ == palette_for(self.default_color, self.spans@.take(i as int), text_len as nat),
                runs@ == runs_for(self.default_color, self.spans@.take(i as int), text_len as nat),
            decreases n - i,
        {
            let start = self.spans[i].range.start;
            let end = self.spans[i].range.end;
            let color = self.spans[i].color;
            proof {
                assert(self.spans@.take(i + 1).drop_last() =~= self.spans@.take(i as int));
                assert(self.spans@.take(i + 1).last() == self.spans@[i as int]);
            }
            if start >= end || end > text_len {
                i = i + 1;
                continue;
            }
            let idx = index_for(color, &mut palette);
            runs.push(StyledRun { start, end, brush: idx });
            i = i + 1;
        }
        proof {
            assert(self.spans@.take(n as int) =~= self.spans@);
        }
        self.palette = palette;
        self.layout = Some(TextLayout { runs });
    }

    /// The selected text: present when something non-empty is selected and its range
    /// lies on char boundaries of the text.
    pub open spec fn selected_bytes(&self) -> Option<Seq<u8>> {
        match self.selection_spec() {
            Some(sel) => {
                let (start, end) = sel.range_spec();
                let bytes = encode_utf8(self.text_spec());
                if start < end && end <= bytes.len() && is_char_boundary(bytes, start as int)
                    && is_char_boundary(bytes, end as int) {
                    Some(bytes.subrange(start as int, end as int))
                } else {
                    None
                }
            },
            None => None,
        }
    }

    /// Puts the selected text on the clipboard, if anything is selected.
    pub fn copy_selection(&self, ctx: &mut EventCtx)
        ensures
            self.selected_bytes() is None ==> final(ctx).clipboard == old(ctx).clipboard,
            self.selected_bytes() matches Some(b) ==> {
                &&& final(ctx).clipboard is Some
                &&& encode_utf8(final(ctx).clipboard.unwrap()@) == b
            },
            final(ctx).render_requested == old(ctx).render_requested,
            final(ctx).focus_requested == old(ctx).focus_requested,
            final(ctx).pointer_captured == old(ctx).pointer_captured,
    {
        match &self.selection {
            Some(selection) => {
                let (start, end) = selection.text_range();
                if start < end {
                    match str_get(self.text.as_str(), start, end) {
                        Some(text) => ctx.set_clipboard(text.to_owned()),
                        None => {},
                    }
                }
            },
            None => {},
        }
    }
}


/// The shape of the pointer over a widget.
#[derive(Clone, Copy, PartialEq, Eq, Structural, Debug)]
pub enum CursorIcon {
    Default,
    Pointer,
    Text,
}

/// What a keyboard shortcut asks of a [`ColoredText`].
#[derive(Clone, Copy, PartialEq, Eq, Structural, Debug)]
pub enum KeyCommand {
    /// Copy the selection to the clipboard.
    Copy,
    /// Select the whole text.
    SelectAll,
    /// Nothing.
    Ignore,
}

/// The command of a text event: a key press with the action modifier held on `c`
/// copies and on `a` selects all, either letter in any ASCII case.
pub open spec fn key_command(event: TextEvent, is_macos: bool) -> KeyCommand {
    match event {
        TextEvent::Keyboard(k) => {
            if k.state == KeyState::Down && action_modifier(k.modifiers, is_macos) {
                match k.key {
                    Key::Character(c) => if ascii_case_eq(c@, seq!['c']) {
                        KeyCommand::Copy
                    } else if ascii_case_eq(c@, seq!['a']) {
                        KeyCommand::SelectAll
                    } else {
                        KeyCommand::Ignore
                    },
                    Key::Named => KeyCommand::Ignore,
                }
            } else {
                KeyCommand::Ignore
            }
        },
        TextEvent::Other => KeyCommand::Ignore,
    }
}

/// A key's text matches a lower-case letter ignoring ASCII case exactly when it is one
/// character, that letter or its upper-case form.
proof fn lemma_single_letter_case(c: Seq<char>, lower: char, upper: char)
    requires
        97 <= lower as u32 <= 122,
        upper as u32 + 32 == lower as u32,
    ensures
        ascii_case_eq(c, seq![lower]) <==> (c.len() == 1 && (c[0] as u32 == lower as u32 || c[0] as u32 == upper as u32)),
{
    if ascii_case_eq(c, seq![lower]) {
        assert(ascii_lower(c[0]) == ascii_lower(seq![lower][0]));
    }
    if c.len() == 1 && (c[0] as u32 == lower as u32 || c[0] as u32 == upper as u32) {
        assert(ascii_lower(c[0]) == ascii_lower(seq![lower][0]));
    }
}

/// The shortcuts, spelled out: a key press whose text is the single character `c` or
/// `C` copies and one whose text is `a` or `A` selects all, when Command (on macOS) or
/// Control (elsewhere) is held; a release, another key or a missing modifier does
/// nothing.
pub proof fn law_shortcuts(event: TextEvent, is_macos: bool)
    ensures
        key_command(event, is_macos) == KeyCommand::Copy <==> (event matches TextEvent::Keyboard(k) && {
            &&& k.state == KeyState::Down
            &&& (if is_macos { k.modifiers.meta } else { k.modifiers.ctrl })
            &&& k.key matches Key::Character(c) && c@.len() == 1
                && (c@[0] as u32 == 'c' as u32 || c@[0] as u32 == 'C' as u32)
        }),
        key_command(event, is_macos) == KeyCommand::SelectAll <==> (event matches TextEvent::Keyboard(k) && {
            &&& k.state == KeyState::Down
            &&& (if is_macos { k.modifiers.meta } else { k.modifiers.ctrl })
            &&& k.key matches Key::Character(c) && c@.len() == 1
                && (c@[0] as u32 == 'a' as u32 || c@[0] as u32 == 'A' as u32)
        }),
{
    if let TextEvent::Keyboard(k) = event {
        if let Key::Character(c) = k.key {
            lemma_single_letter_case(c@, 'c', 'C');
            lemma_single_letter_case(c@, 'a', 'A');
        }
    }
}

/// How a pointer event selects text; the text layout turns it, with the pointer's
/// position, into a selection.
#[derive(Clone, Copy, PartialEq, Eq, Structural, Debug)]
pub enum SelectionGesture {
    /// Start a selection at the pointer.
    Point,
    /// Select the word under the pointer.
    Word,
    /// Select the line under the pointer.
    Line,
    /// Move the focus of the current selection to the pointer.
    Extend,
}

/// The gesture of a pointer event, for a widget with or without a layout and with or
/// without the pointer captured: a primary (or touch) press selects a point, a word on
/// a double click, a line on a triple click; a move while captured extends the current
/// selection. Nothing happens before a layout exists.
pub open spec fn gesture_for(has_layout: bool, has_selection: bool, event: PointerEvent, is_active: bool) -> Option<SelectionGesture> {
    if !has_layout {
        None
    } else {
        match event {
            PointerEvent::Down { button, count } => {
                if button is None || button == Some(PointerButton::Primary) {
                    Some(if count == 2 {
                        SelectionGesture::Word
                    } else if count == 3 {
                        SelectionGesture::Line
                    } else {
                        SelectionGesture::Point
                    })
                } else {
                    None
                }
            },
            PointerEvent::Move => if is_active && has_selection { Some(SelectionGesture::Extend) } else { None },
            PointerEvent::Other => None,
        }
    }
}

/// Only a primary press, or a touch or pen contact (no button), starts a selection: a
/// secondary or middle click never does. Without a layout no event makes a gesture, and a
/// move only ever extends a selection the widget already has while it holds the pointer.
pub proof fn law_only_primary_press_selects(has_layout: bool, has_selection: bool, event: PointerEvent, is_active: bool)
    ensures
        !has_layout ==> gesture_for(has_layout, has_selection, event, is_active) is None,
        event matches PointerEvent::Down { button, count } ==> (
            gesture_for(has_layout, has_selection, event, is_active) is Some
                <==> has_layout && (button is None || button == Some(PointerButton::Primary))),
        event matches PointerEvent::Down { button: Some(b), count } ==> (
            gesture_for(has_layout, has_selection, event, is_active) is Some ==> b == PointerButton::Primary),
        event is Move ==> (gesture_for(has_layout, has_selection, event, is_active) is Some
            <==> has_layout && has_selection && is_active),
        gesture_for(has_layout, has_selection, event, is_active) == Some(SelectionGesture::Extend) ==> event is Move,
        event matches PointerEvent::Down { button, count } ==> (
            has_layout && (button is None || button == Some(PointerButton::Primary)) ==>
                gesture_for(has_layout, has_selection, event, is_active) == Some(
                    if count == 2 { SelectionGesture::Word } else if count == 3 { SelectionGesture::Line } else { SelectionGesture::Point })),
{
}

impl ColoredText {
    /// The selection gesture a pointer event makes, if any (see [`gesture_for`]);
    /// `is_active` tells whether this widget holds the pointer capture.
    pub fn pointer_gesture(&self, event: &PointerEvent, is_active: bool) -> (r: Option<SelectionGesture>)
        ensures
            r == gesture_for(self.layout_spec() is Some, self.selection_spec() is Some, *event, is_active),
    {
        if self.layout.is_none() {
            return None;
        }
        match event {
            PointerEvent::Down { button, count } => {
                let primary = match button {
                    None => true,
                    Some(PointerButton::Primary) => true,
                    Some(_) => false,
                };
                if primary {
                    Some(if *count == 2 {
                        SelectionGesture::Word
                    } else if *count == 3 {
                        SelectionGesture::Line
                    } else {
                        SelectionGesture::Point
                    })
                } else {
                    None
                }
            },
            PointerEvent::Move => if is_active && self.selection.is_some() {
                Some(SelectionGesture::Extend)
            } else {
                None
            },
            PointerEvent::Other => None,
        }
    }

    /// Applies `selection`, computed by the text layout for `gesture` at the pointer:
    /// a press takes focus, captures the pointer and asks for a repaint; an extension
    /// asks for a repaint.
    pub fn apply_pointer_selection(&mut self, ctx: &mut EventCtx, gesture: SelectionGesture, selection: TextSelection)
        ensures
            final(self).selection_spec() == Some(selection),
            final(self).text_spec() == old(self).text_spec(),
            final(self).spans_spec() == old(self).spans_spec(),
            final(self).default_color_spec() == old(self).default_color_spec(),
            final(self).hint_spec() == old(self).hint_spec(),
            final(self).layout_spec() == old(self).layout_spec(),
            final(self).palette_spec() == old(self).palette_spec(),
            final(ctx).render_requested,
            final(ctx).clipboard == old(ctx).clipboard,
            gesture != SelectionGesture::Extend ==> final(ctx).focus_requested && final(ctx).pointer_captured,
            gesture == SelectionGesture::Extend ==> final(ctx).focus_requested == old(ctx).focus_requested
                && final(ctx).pointer_captured == old(ctx).pointer_captured,
    {
        self.selection = Some(selection);
        if gesture != SelectionGesture::Extend {
            ctx.request_focus();
            ctx.capture_pointer();
        }
        ctx.request_render();
    }
}

impl ColoredText {
    /// Handles keyboard shortcuts: copy puts the selection on the clipboard; select-all,
    /// once a layout exists, takes `select_all` (the selection the text layout gives from
    /// its top-left corner extended to its far bottom-right corner) and asks for a repaint.
    /// `is_macos` picks the action modifier (Command on macOS, Control elsewhere).
    pub fn on_text_event(&mut self, ctx: &mut EventCtx, event: &TextEvent, is_macos: bool, select_all: TextSelection)
        ensures
            key_command(*event, is_macos) == KeyCommand::Copy ==> {
                &&& *final(self) == *old(self)
                &&& old(self).selected_bytes() is None ==> final(ctx).clipboard == old(ctx).clipboard
                &&& old(self).selected_bytes() matches Some(b) ==> {
                    &&& final(ctx).clipboard is Some
                    &&& encode_utf8(final(ctx).clipboard.unwrap()@) == b
                }
                &&& final(ctx).render_requested == old(ctx).render_requested
                &&& final(ctx).focus_requested == old(ctx).focus_requested
                &&& final(ctx).pointer_captured == old(ctx).pointer_captured
            },
            key_command(*event, is_macos) == KeyCommand::SelectAll ==> {
                &&& final(self).text_spec() == old(self).text_spec()
                &&& final(self).spans_spec() == old(self).spans_spec()
                &&& final(self).default_color_spec() == old(self).default_color_spec()
                &&& final(self).hint_spec() == old(self).hint_spec()
                &&& final(self).layout_spec() == old(self).layout_spec()
                &&& final(self).palette_spec() == old(self).palette_spec()
                &&& final(ctx).clipboard == old(ctx).clipboard
                &&& final(ctx).focus_requested == old(ctx).focus_requested
                &&& final(ctx).pointer_captured == old(ctx).pointer_captured
                &&& old(self).layout_spec() is Some ==> {
                    &&& final(self).selection_spec() == Some(select_all)
                    &&& final(ctx).render_requested
                }
                &&& old(self).layout_spec() is None ==> {
                    &&& final(self).selection_spec() == old(self).selection_spec()
                    &&& final(ctx).render_requested == old(ctx).render_requested
                }
            },
            key_command(*event, is_macos) == KeyCommand::Ignore ==> {
                &&& *final(self) == *old(self)
                &&& *final(ctx) == *old(ctx)
            },
    {
        match event {
            TextEvent::Keyboard(key_event) => {
                if key_event.state != KeyState::Down {
                    return;
                }
                let action_mod = if is_macos { key_event.modifiers.meta } else { key_event.modifiers.ctrl };
                match &key_event.key {
                    Key::Character(c) => {
                        proof {
                            reveal_strlit("c");
                            reveal_strlit("a");
                        }
                        if action_mod && eq_ignore_ascii_case(c.as_str(), "c") {
                            self.copy_selection(ctx);
                        } else if action_mod && eq_ignore_ascii_case(c.as_str(), "a") {
                            if self.layout.is_some() {
                                self.selection = Some(select_all);
                                ctx.request_render();
                            }
                        }
                    },
                    Key::Named => {},
                }
            },
            TextEvent::Other => {},
        }
    }

    /// A change of fonts invalidates the layout and asks for a new layout pass.
    pub fn update(&mut self, ctx: &mut UpdateCtx, event: &Update)
        ensures
            *event == Update::FontsChanged ==> {
                &&& final(self).layout_spec() is None
                &&& final(ctx).layout_requested
            },
            *event != Update::FontsChanged ==> final(self).layout_spec() == old(self).layout_spec()
                && final(ctx).layout_requested == old(ctx).layout_requested,
            final(self).text_spec() == old(self).text_spec(),
            final(self).spans_spec() == old(self).spans_spec(),
            final(self).default_color_spec() == old(self).default_color_spec(),
            final(self).hint_spec() == old(self).hint_spec(),
            final(self).palette_spec() == old(self).palette_spec(),
            final(self).selection_spec() == old(self).selection_spec(),
    {
        match event {
            Update::FontsChanged => {
                self.layout = None;
                ctx.request_layout();
            },
            Update::Other => {},
        }
    }

    /// The widget can be clicked and dragged over.
    pub fn accepts_pointer_interaction(&self) -> (r: bool)
        ensures
            r,
    {
        true
    }

    /// The widget can take keyboard focus (for the shortcuts).
    pub fn accepts_focus(&self) -> (r: bool)
        ensures
            r,
    {
        true
    }

    /// The widget is read-only: it takes no text input.
    pub fn accepts_text_input(&self) -> (r: bool)
        ensures
            !r,
    {
        false
    }

    /// The pointer shows a text cursor over the widget.
    pub fn get_cursor(&self) -> (r: CursorIcon)
        ensures
            r == CursorIcon::Text,
    {
        CursorIcon::Text
    }

    /// The widget has no child widgets.
    pub fn children_ids(&self) -> (r: Vec<WidgetId>)
        ensures
            r@.len() == 0,
    {
        Vec::new()
    }

    /// Its accessibility role is a document.
    pub fn accessibility_role(&self) -> (r: AccessRole)
        ensures
            r == AccessRole::Document,
    {
        AccessRole::Document
    }

    /// The value the accessibility node exposes: the whole text.
    pub fn accessibility_value(&self) -> (r: String)
        ensures
            r@ == self.text_spec(),
    {
        self.text.clone()
    }

    /// Exposes the whole text as the accessibility node's value.
    pub fn accessibility(&mut self, node: &mut accesskit::Node)
        ensures
            *final(self) == *old(self),
            node_value(*final(node)) == Some(old(self).text_spec()),
    {
        node_set_value(node, self.accessibility_value());
    }

    /// The text, for debugging output.
    pub fn get_debug_text(&self) -> (r: Option<String>)
        ensures
            r is Some,
            r.unwrap()@ == self.text_spec(),
    {
        Some(self.text.clone())
    }
}


/// A rectangle given by two corners.
#[derive(Clone, Copy, PartialEq, Eq, Structural, Debug)]
pub struct Rect {
    pub x0: u64,
    pub y0: u64,
    pub x1: u64,
    pub y1: u64,
}

/// What painting draws: the selection highlight boxes, then the text with its palette.
pub struct PaintPlan {
    pub highlights: Vec<Rect>,
    pub highlight_color: Color,
    pub brushes: Vec<Color>,
    pub hint: bool,
}

/// The color of the selection highlight.
pub open spec fn highlight_color() -> Color {
    Color { r: 0x4f, g: 0x46, b: 0xe5, a: 0x66 }
}

impl ColoredText {
    /// The text's length along `axis`, given the width and height of the laid-out text;
    /// the layout is built first if needed.
    pub fn measure(&mut self, axis: Axis, text_width: u64, text_height: u64) -> (r: u64)
        ensures
            r == if axis == Axis::Horizontal { text_width } else { text_height },
            final(self).layout_spec() is Some,
            old(self).layout_spec() is Some ==> *final(self) == *old(self),
            old(self).layout_spec() is None ==> {
                &&& final(self).layout_spec() == Some(runs_for(old(self).default_color_spec(), old(self).spans_spec(), old(self).text_len()))
                &&& final(self).palette_spec() == palette_for(old(self).default_color_spec(), old(self).spans_spec(), old(self).text_len())
            },
            final(self).text_spec() == old(self).text_spec(),
            final(self).spans_spec() == old(self).spans_spec(),
            final(self).selection_spec() == old(self).selection_spec(),
    {
        self.ensure_layout();
        if axis == Axis::Horizontal { text_width } else { text_height }
    }

    /// The baselines of the first and last lines, given the baseline of every laid-out
    /// line; `None` (baselines cleared) when the layout has no lines. The layout is built
    /// first if needed.
    pub fn layout(&mut self, line_baselines: &Vec<u64>) -> (r: Option<(u64, u64)>)
        ensures
            line_baselines@.len() == 0 ==> r is None,
            line_baselines@.len() > 0 ==> r == Some((line_baselines@[0], line_baselines@.last())),
            final(self).layout_spec() is Some,
            old(self).layout_spec() is Some ==> *final(self) == *old(self),
            final(self).text_spec() == old(self).text_spec(),
            final(self).spans_spec() == old(self).spans_spec(),
            final(self).selection_spec() == old(self).selection_spec(),
    {
        self.ensure_layout();
        let line_count = line_baselines.len();
        if line_count > 0 {
            Some((line_baselines[0], line_baselines[line_count - 1]))
        } else {
            None
        }
    }

    /// What to draw, given the boxes the text layout covers with the selection: nothing
    /// before a layout exists; otherwise the selection highlight (only while the widget
    /// has focus and something is selected), then the text with its palette.
    pub fn paint(&self, is_focus_target: bool, selection_boxes: &Vec<Rect>) -> (r: Option<PaintPlan>)
        ensures
            self.layout_spec() is None ==> r is None,
            self.layout_spec() is Some ==> r is Some && {
                let plan = r.unwrap();
                &&& plan.highlights@ == if is_focus_target && self.selection_spec() is Some {
                    selection_boxes@
                } else {
                    Seq::<Rect>::empty()
                }
                &&& plan.highlight_color == highlight_color()
                &&& plan.brushes@ == self.palette_spec()
                &&& plan.hint == self.hint_spec()
            },
    {
        if self.layout.is_none() {
            return None;
        }
        let mut highlights: Vec<Rect> = Vec::new();
        if is_focus_target && self.selection.is_some() {
            let n = selection_boxes.len();
            let mut i: usize = 0;
            while i < n
                invariant
                    n == selection_boxes@.len(),
                    i <= n,
                    highlights@ == selection_boxes@.take(i as int),
                decreases n - i,
            {
                highlights.push(selection_boxes[i]);
                proof {
                    assert(selection_boxes@.take(i + 1) =~= selection_boxes@.take(i as int).push(selection_boxes@[i as int]));
                }
                i = i + 1;
            }
            proof {
                assert(selection_boxes@.take(n as int) =~= selection_boxes@);
            }
        }
        let brushes = self.palette.clone();
        Some(PaintPlan {
            highlights,
            highlight_color: Color::from_rgba8(0x4f, 0x46, 0xe5, 0x66),
            brushes,
            hint: self.hint,
        })
    }
}

/// The palette has at most one entry more than there are spans.
proof fn lemma_palette_len(default_color: Color, spans: Seq<ColorSpan>, text_len: nat)
    ensures
        palette_for(default_color, spans, text_len).len() <= spans.len() + 1,
    decreases spans.len(),
{
    if spans.len() > 0 {
        lemma_palette_len(default_color, spans.drop_last(), text_len);
    }
}

/// The palette only grows as spans are added: the palette of a prefix of the spans is a
/// prefix of the palette of all of them.
proof fn lemma_palette_prefix(default_color: Color, spans: Seq<ColorSpan>, text_len: nat, k: int)
    requires
        0 <= k <= spans.len(),
    ensures
        palette_for(default_color, spans.take(k), text_len).len() <= palette_for(default_color, spans, text_len).len(),
        palette_for(default_color, spans.take(k), text_len)
            == palette_for(default_color, spans, text_len).take(palette_for(default_color, spans.take(k), text_len).len() as int),
    decreases spans.len(),
{
    if k == spans.len() {
        assert(spans.take(k) =~= spans);
        let p = palette_for(default_color, spans, text_len);
        assert(p.take(p.len() as int) =~= p);
    } else {
        lemma_palette_prefix(default_color, spans.drop_last(), text_len, k);
        assert(spans.drop_last().take(k) =~= spans.take(k));
        let p0 = palette_for(default_color, spans.drop_last(), text_len);
        let p = palette_for(default_color, spans, text_len);
        let q = palette_for(default_color, spans.take(k), text_len);
        assert(p0.take(q.len() as int) =~= p.take(q.len() as int));
    }
}

/// The palette starts with the default color and lists no color twice; it holds
/// exactly the default color and the colors of drawn spans.
pub proof fn law_palette_distinct(default_color: Color, spans: Seq<ColorSpan>, text_len: nat)
    ensures
        palette_for(default_color, spans, text_len).len() >= 1,
        palette_for(default_color, spans, text_len)[0] == default_color,
        forall|a: int, b: int| 0 <= a < b < palette_for(default_color, spans, text_len).len() ==>
            palette_for(default_color, spans, text_len)[a] != palette_for(default_color, spans, text_len)[b],
        forall|c: Color| palette_for(default_color, spans, text_len).contains(c) <==> (c == default_color
            || exists|j: int| 0 <= j < spans.len() && span_is_drawn(#[trigger] spans[j], text_len) && spans[j].color == c),
    decreases spans.len(),
{
    let p = palette_for(default_color, spans, text_len);
    if spans.len() == 0 {
        assert(p[0] == default_color);
        assert forall|c: Color| p.contains(c) <==> (c == default_color
            || exists|j: int| 0 <= j < spans.len() && span_is_drawn(#[trigger] spans[j], text_len) && spans[j].color == c) by {
            if c == default_color {
                assert(p[0] == c);
            }
        }
    } else {
        let rest = spans.drop_last();
        law_palette_distinct(default_color, rest, text_len);
        let p0 = palette_for(default_color, rest, text_len);
        let s = spans.last();
        if span_is_drawn(s, text_len) && !p0.contains(s.color) {
            assert(p[0] == p0[0]);
            assert forall|a: int, b: int| 0 <= a < b < p.len() implies p[a] != p[b] by {
                if b == p.len() - 1 {
                    assert(p[a] == p0[a]);
                    assert(p0.contains(p0[a]));
                }
            }
        }
        assert forall|c: Color| p.contains(c) <==> (c == default_color
            || exists|j: int| 0 <= j < spans.len() && span_is_drawn(#[trigger] spans[j], text_len) && spans[j].color == c) by {
            if p.contains(c) {
                let a = choose|a: int| 0 <= a < p.len() && p[a] == c;
                if a < p0.len() {
                    assert(p0[a] == c);
                    assert(p0.contains(c));
                    if c != default_color {
                        let j = choose|j: int| 0 <= j < rest.len() && span_is_drawn(#[trigger] rest[j], text_len) && rest[j].color == c;
                        assert(spans[j] == rest[j]);
                    }
                } else {
                    assert(spans[spans.len() - 1] == s);
                }
            }
            if c == default_color {
                assert(p0[0] == c);
                assert(p0.contains(c));
                if !(span_is_drawn(s, text_len) && !p0.contains(s.color)) {
                    assert(p.contains(c));
                } else {
                    assert(p[0] == c);
                }
            } else if exists|j: int| 0 <= j < spans.len() && span_is_drawn(#[trigger] spans[j], text_len) && spans[j].color == c {
                let j = choose|j: int| 0 <= j < spans.len() && span_is_drawn(#[trigger] spans[j], text_len) && spans[j].color == c;
                if j < rest.len() {
                    assert(rest[j] == spans[j]);
                    assert(p0.contains(c));
                    let a = choose|a: int| 0 <= a < p0.len() && p0[a] == c;
                    assert(p[a] == c);
                } else {
                    assert(spans[j] == s);
                    if p0.contains(c) {
                        let a = choose|a: int| 0 <= a < p0.len() && p0[a] == c;
                        assert(p[a] == c);
                    } else {
                        assert(p[p.len() - 1] == c);
                    }
                }
            }
        }
    }
}

/// Each run is painted with the color of the span it comes from: its brush indexes the
/// palette, at that span's color, and it covers that span's range.
pub proof fn law_runs_use_span_colors(default_color: Color, spans: Seq<ColorSpan>, text_len: nat)
    requires
        spans.len() < usize::MAX,
    ensures
        forall|k: int| 0 <= k < runs_for(default_color, spans, text_len).len() ==> {
            let run = #[trigger] runs_for(default_color, spans, text_len)[k];
            &&& run.brush < palette_for(default_color, spans, text_len).len()
            &&& exists|j: int| 0 <= j < spans.len() && span_is_drawn(#[trigger] spans[j], text_len)
                && spans[j].range.start == run.start && spans[j].range.end == run.end
                && palette_for(default_color, spans, text_len)[run.brush as int] == spans[j].color
        },
    decreases spans.len(),
{
    let p = palette_for(default_color, spans, text_len);
    let r = runs_for(default_color, spans, text_len);
    if spans.len() > 0 {
        let rest = spans.drop_last();
        law_runs_use_span_colors(default_color, rest, text_len);
        lemma_palette_prefix(default_color, spans, text_len, spans.len() - 1);
        assert(spans.take(spans.len() - 1) =~= rest);
        let p0 = palette_for(default_color, rest, text_len);
        let r0 = runs_for(default_color, rest, text_len);
        let s = spans.last();
        lemma_position_of(p, s.color);
        lemma_palette_len(default_color, spans, text_len);
        law_palette_distinct(default_color, spans, text_len);
        if span_is_drawn(s, text_len) {
            assert(p.contains(s.color)) by {
                assert(spans[spans.len() - 1] == s);
            }
        }
        assert forall|k: int| 0 <= k < r.len() implies {
            let run = #[trigger] r[k];
            &&& run.brush < p.len()
            &&& exists|j: int| 0 <= j < spans.len() && span_is_drawn(#[trigger] spans[j], text_len)
                && spans[j].range.start == run.start && spans[j].range.end == run.end
                && p[run.brush as int] == spans[j].color
        } by {
            if k < r0.len() {
                assert(r[k] == r0[k]);
                let run = r0[k];
                let j = choose|j: int| 0 <= j < rest.len() && span_is_drawn(#[trigger] rest[j], text_len)
                    && rest[j].range.start == run.start && rest[j].range.end == run.end
                    && p0[run.brush as int] == rest[j].color;
                assert(spans[j] == rest[j]);
                assert(p0 == p.take(p0.len() as int));
                assert(p0[run.brush as int] == p.take(p0.len() as int)[run.brush as int]);
                assert(p0[run.brush as int] == p[run.brush as int]);
                assert(span_is_drawn(spans[j], text_len) && spans[j].range.start == run.start
                    && spans[j].range.end == run.end && p[run.brush as int] == spans[j].color);
            } else {
                let j = spans.len() - 1;
                assert(spans[j] == s);
                assert(span_is_drawn(s, text_len));
                assert(r[k].brush == position_of(p, s.color) as usize);
                assert(p[r[k].brush as int] == s.color);
                assert(span_is_drawn(spans[j], text_len) && spans[j].range.start == r[k].start
                    && spans[j].range.end == r[k].end && p[r[k].brush as int] == spans[j].color);
            }
        }
    }
}

/// Whether a span is drawn in a text `text_len` bytes long, as a predicate.
pub open spec fn drawn_in(text_len: nat) -> spec_fn(ColorSpan) -> bool {
    |s: ColorSpan| span_is_drawn(s, text_len)
}

/// The spans that are drawn, in order.
pub open spec fn drawn_spans(spans: Seq<ColorSpan>, text_len: nat) -> Seq<ColorSpan> {
    spans.filter(drawn_in(text_len))
}

/// Every drawn span gets a run of its own, in span order: there are exactly as many runs
/// as drawn spans, and the `k`th run covers the `k`th drawn span's range and is painted
/// with that span's color.
pub proof fn law_run_per_drawn_span(default_color: Color, spans: Seq<ColorSpan>, text_len: nat)
    requires
        spans.len() < usize::MAX,
    ensures
        runs_for(default_color, spans, text_len).len() == drawn_spans(spans, text_len).len(),
        forall|k: int| 0 <= k < runs_for(default_color, spans, text_len).len() ==> {
            let run = #[trigger] runs_for(default_color, spans, text_len)[k];
            let span = drawn_spans(spans, text_len)[k];
            &&& run.start == span.range.start
            &&& run.end == span.range.end
            &&& run.brush < palette_for(default_color, spans, text_len).len()
            &&& palette_for(default_color, spans, text_len)[run.brush as int] == span.color
        },
    decreases spans.len(),
{
    let pred = drawn_in(text_len);
    let p = palette_for(default_color, spans, text_len);
    let r = runs_for(default_color, spans, text_len);
    if spans.len() == 0 {
        assert(spans.filter(pred).len() == 0) by {
            reveal(Seq::filter);
        }
    } else {
        let rest = spans.drop_last();
        let s = spans.last();
        law_run_per_drawn_span(default_color, rest, text_len);
        assert(rest.push(s) =~= spans);
        rest.lemma_filter_push(s, pred);
        lemma_palette_prefix(default_color, spans, text_len, spans.len() - 1);
        assert(spans.take(spans.len() - 1) =~= rest);
        let p0 = palette_for(default_color, rest, text_len);
        let r0 = runs_for(default_color, rest, text_len);
        let d0 = drawn_spans(rest, text_len);
        let d = drawn_spans(spans, text_len);
        lemma_position_of(p, s.color);
        lemma_palette_len(default_color, spans, text_len);
        law_palette_distinct(default_color, spans, text_len);
        if span_is_drawn(s, text_len) {
            assert(p.contains(s.color)) by {
                assert(spans[spans.len() - 1] == s);
            }
            assert(pred(s));
            assert(d == d0.push(s));
            assert(r == r0.push(StyledRun { start: s.range.start, end: s.range.end, brush: position_of(p, s.color) as usize }));
        } else {
            assert(!pred(s));
            assert(d == d0);
            assert(r == r0);
        }
        assert(r.len() == d.len());
        assert forall|k: int| 0 <= k < r.len() implies {
            let run = #[trigger] r[k];
            let span = d[k];
            &&& run.start == span.range.start
            &&& run.end == span.range.end
            &&& run.brush < p.len()
            &&& p[run.brush as int] == span.color
        } by {
            if k < r0.len() {
                assert(r[k] == r0[k]);
                assert(d[k] == d0[k]);
                let run0 = r0[k];
                assert(run0.start == d0[k].range.start && run0.end == d0[k].range.end);
                assert(run0.brush < p0.len() && p0[run0.brush as int] == d0[k].color);
                assert(p0[run0.brush as int] == p.take(p0.len() as int)[run0.brush as int]);
                assert(p[run0.brush as int] == d[k].color);
            } else {
                assert(span_is_drawn(s, text_len));
                assert(d[k] == s);
                assert(r[k].brush == position_of(p, s.color) as usize);
                assert(p[r[k].brush as int] == s.color);
            }
        }
    }
}

/// What a copy takes is exactly the selected bytes of the text: as many bytes as the
/// selection spans, each the text's byte at the same offset from the selection's start.
/// Something is taken exactly when the selection is non-empty, ends within the text and
/// both its ends fall on character boundaries.
pub proof fn law_copy_takes_the_selected_range(t: ColoredText)
    ensures
        t.selected_bytes() is Some <==> (t.selection_spec() matches Some(sel) && {
            let (start, end) = sel.range_spec();
            &&& start < end
            &&& end <= byte_len(t.text_spec())
            &&& is_char_boundary(encode_utf8(t.text_spec()), start as int)
            &&& is_char_boundary(encode_utf8(t.text_spec()), end as int)
        }),
        t.selected_bytes() matches Some(b) ==> {
            let (start, end) = t.selection_spec().unwrap().range_spec();
            &&& b.len() == end - start
            &&& forall|i: int| 0 <= i < b.len() ==> #[trigger] b[i] == encode_utf8(t.text_spec())[start + i]
        },
{
}

/// When the whole (non-empty) text is selected, the selection is the text itself, and
/// only the text encodes to those bytes: copying then puts exactly the text on the
/// clipboard.
pub proof fn law_select_all_selects_text(t: ColoredText)
    requires
        byte_len(t.text_spec()) <= usize::MAX,
        byte_len(t.text_spec()) > 0,
        t.selection_spec() == Some(TextSelection { anchor: 0, focus: t.text_len() as usize }),
    ensures
        t.selected_bytes() == Some(encode_utf8(t.text_spec())),
        forall|c: Seq<char>| #[trigger] encode_utf8(c) == encode_utf8(t.text_spec()) ==> c == t.text_spec(),
{
    let bytes = encode_utf8(t.text_spec());
    vstd::utf8::encode_utf8_valid_utf8(t.text_spec());
    vstd::utf8::is_char_boundary_start_end_of_seq(bytes);
    assert(bytes.subrange(0, bytes.len() as int) =~= bytes);
    assert forall|c: Seq<char>| #[trigger] encode_utf8(c) == bytes implies c == t.text_spec() by {
        vstd::utf8::encode_utf8_decode_utf8(c);
        vstd::utf8::encode_utf8_decode_utf8(t.text_spec());
    }
}

} // verus!
