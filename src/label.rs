use vstd::prelude::*;
use vstd::string::StrSliceExecFns;

use crate::geometry::Rect;

verus! {

/// A widget showing an optional single line of text.
#[derive(Debug)]
pub struct Label {
    pub text: Option<String>,
}

/// A string placed at a cell of a character-grid display.
#[derive(Debug)]
pub struct TextDraw {
    pub x: i32,
    pub y: i32,
    pub text: String,
}

/// The number of characters of `len` that fit in a widget `width` cells wide.
pub open spec fn clipped_len(len: int, width: int) -> int {
    if width < 0 {
        0
    } else if len < width {
        len
    } else {
        width
    }
}

/// Halves `v`, rounding toward zero as machine integer division does.
pub open spec fn half_toward_zero(v: int) -> int {
    if v >= 0 {
        v / 2
    } else {
        -((-v) / 2)
    }
}

impl Label {
    pub open spec fn text_view(&self) -> Option<Seq<char>> {
        match self.text {
            Some(t) => Some(t@),
            None => None,
        }
    }

    pub fn new(text: &str) -> (r: Label)
        ensures
            r.text_view() == Some(text@),
    {
        Label { text: Some(text.to_owned()) }
    }

    pub fn new_empty() -> (r: Label)
        ensures
            r.text_view() is None,
    {
        Label { text: None }
    }

    pub fn set_text(&mut self, text: &str)
        ensures
            final(self).text_view() == Some(text@),
    {
        self.text = Some(text.to_owned());
    }

    pub fn clear_text(&mut self)
        ensures
            final(self).text_view() is None,
    {
        self.text = None;
    }

    /// Places the label's text, centred horizontally in `owner` and cut to
    /// its width, on a character grid of `max_x` by `max_y` cells. Returns
    /// `None` when there is no text or the start cell falls off the grid.
    pub fn draw_text_mode(&self, owner: &Rect, max_x: i32, max_y: i32) -> (r: Option<TextDraw>)
        ensures
            match self.text_view() {
                None => r is None,
                Some(t) => {
                    let len = clipped_len(t.len() as int, owner.width as int);
                    let x = owner.x + half_toward_zero(owner.width - len);
                    if x < 0 || owner.y < 0 || x >= max_x || owner.y >= max_y {
                        r is None
                    } else {
                        &&& r is Some
                        &&& r->0.x == x
                        &&& r->0.y == owner.y
                        &&& r->0.text@ == t.subrange(0, len)
                    }
                },
            },
    {
        match &self.text {
            None => None,
            Some(t) => {
                let n = t.as_str().unicode_len();
                let len: usize = if owner.width < 0 {
                    0
                } else if n < owner.width as usize {
                    n
                } else {
                    owner.width as usize
                };
                let x: i64 = owner.x as i64 + (owner.width as i64 - len as i64) / 2;
                let y = owner.y;
                if x < 0 || y < 0 || x >= max_x as i64 || y >= max_y {
                    None
                } else {
                    let text = t.as_str().substring_char(0, len);
                    Some(TextDraw { x: x as i32, y, text: text.to_owned() })
                }
            },
        }
    }
}

} // verus!
