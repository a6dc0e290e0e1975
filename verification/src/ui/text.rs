//! A line of text in a window.

use vstd::prelude::*;

use crate::ui::{fits, Area, POS_CENTERED};

verus! {

/// A line of text: what it says, what it said when it was last drawn, and
/// where it lies.
pub struct Text {
    pub text: String,
    pub prev_text: String,
    pub text_rect: Area,
}

impl Text {
    /// The left edge of a text `text_width` pixels wide in a window `width`
    /// pixels wide: at `x`, or in the middle of the window for
    /// `POS_CENTERED`, and `offset_x` further to the right.
    pub open spec fn left(x: int, offset_x: int, text_width: int, width: int) -> int {
        (if x == POS_CENTERED {
            (width - text_width) / 2
        } else {
            x
        }) + offset_x
    }

    /// The top edge of a text in a window `height` pixels high: at `y`, or in
    /// the middle of the window for `POS_CENTERED`, then `offset_y` and four
    /// pixels further down.
    pub open spec fn top(y: int, offset_y: int, text_height: int, height: int) -> int {
        (if y == POS_CENTERED {
            (height - text_height) / 2
        } else {
            y
        }) + offset_y + 4
    }

    /// Whether a text of the given size can be placed: it is no larger than
    /// the window where it is to be centred, and both its edges are values of
    /// `i32`.
    pub open spec fn placeable(
        x: int,
        y: int,
        offset_x: int,
        offset_y: int,
        text_size: (u32, u32),
        width: u32,
        height: u32,
    ) -> bool {
        &&& x == POS_CENTERED ==> text_size.0 <= width && (width - text_size.0) / 2 <= i32::MAX
        &&& y == POS_CENTERED ==> text_size.1 <= height && (height - text_size.1) / 2 <= i32::MAX
        &&& fits(Text::left(x, offset_x, text_size.0 as int, width as int))
        &&& fits(Text::top(y, offset_y, text_size.1 as int, height as int) - 4)
        &&& fits(Text::top(y, offset_y, text_size.1 as int, height as int))
    }

    /// Places the text `text`, which takes `text_size` pixels, in a window of
    /// `width` by `height` pixels.
    pub fn new(
        x: i32,
        y: i32,
        offset_x: i32,
        offset_y: i32,
        text: &str,
        text_size: (u32, u32),
        width: u32,
        height: u32,
    ) -> (t: Text)
        requires
            Text::placeable(x as int, y as int, offset_x as int, offset_y as int, text_size, width, height),
        ensures
            t.text@ == text@,
            t.prev_text@ == text@,
            t.text_rect == (Area {
                x: Text::left(x as int, offset_x as int, text_size.0 as int, width as int) as i32,
                y: Text::top(y as int, offset_y as int, text_size.1 as int, height as int) as i32,
                w: text_size.0,
                h: text_size.1,
            }),
    {
        let x_: i32 = (if x == POS_CENTERED {
            ((width - text_size.0) / 2) as i32
        } else {
            x
        }) + offset_x;
        let y_: i32 = (if y == POS_CENTERED {
            ((height - text_size.1) / 2) as i32
        } else {
            y
        }) + offset_y;
        Text {
            text: text.to_owned(),
            prev_text: text.to_owned(),
            text_rect: Area { x: x_, y: y_ + 16 / 4, w: text_size.0, h: text_size.1 },
        }
    }

    /// Places a text as `new` does where it can be placed, and gives `None`
    /// where it cannot.
    pub fn checked_new(
        x: i32,
        y: i32,
        offset_x: i32,
        offset_y: i32,
        text: &str,
        text_size: (u32, u32),
        width: u32,
        height: u32,
    ) -> (t: Option<Text>)
        ensures
            Text::placeable(x as int, y as int, offset_x as int, offset_y as int, text_size, width, height)
                <==> t is Some,
            t matches Some(t) ==> {
                &&& t.text@ == text@
                &&& t.prev_text@ == text@
                &&& t.text_rect == (Area {
                    x: Text::left(x as int, offset_x as int, text_size.0 as int, width as int) as i32,
                    y: Text::top(y as int, offset_y as int, text_size.1 as int, height as int) as i32,
                    w: text_size.0,
                    h: text_size.1,
                })
            },
    {
        if x == POS_CENTERED && (text_size.0 > width || (width - text_size.0) / 2 > 0x7fff_ffff) {
            return None;
        }
        if y == POS_CENTERED && (text_size.1 > height || (height - text_size.1) / 2 > 0x7fff_ffff) {
            return None;
        }
        let left: i64 = (if x == POS_CENTERED {
            ((width - text_size.0) / 2) as i64
        } else {
            x as i64
        }) + offset_x as i64;
        let top: i64 = (if y == POS_CENTERED {
            ((height - text_size.1) / 2) as i64
        } else {
            y as i64
        }) + offset_y as i64;
        if left < -0x8000_0000 || left > 0x7fff_ffff || top < -0x8000_0000 || top + 4
            > 0x7fff_ffff {
            return None;
        }
        Some(Text::new(x, y, offset_x, offset_y, text, text_size, width, height))
    }

    /// Changes what the text says. What it said when it was last drawn, and
    /// where it lies, stay.
    pub fn set_text(&mut self, text: &str)
        ensures
            final(self).text@ == text@,
            final(self).prev_text == old(self).prev_text,
            final(self).text_rect == old(self).text_rect,
    {
        self.text = text.to_owned();
    }

    /// Whether the text has changed since it was last drawn.
    pub fn stale(&self) -> (changed: bool)
        ensures
            changed == (self.text@ != self.prev_text@),
    {
        self.prev_text != self.text
    }

    /// Records that the text has been drawn as it now reads. Its place stays.
    pub fn render(&mut self)
        ensures
            final(self).text == old(self).text,
            final(self).prev_text@ == old(self).text@,
            final(self).text_rect == old(self).text_rect,
    {
        if self.stale() {
            self.prev_text = self.text.clone();
        }
    }
}

} // verus!
