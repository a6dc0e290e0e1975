//! A button: a picture that stretches to its width, with a text on it.

use vstd::prelude::*;

use crate::ui::{fits, quotient, Area, POS_CENTERED};

verus! {

/// Where a button lies in its window. The picture of a button is 16 units
/// high and `w` units wide, and a unit is `scale` pixels.
#[derive(Clone, Copy, Debug, PartialEq, Eq, Structural)]
pub struct Button {
    pub x: i32,
    pub y: i32,
    pub w: i32,
    pub scale: i32,
    /// Where the text on the button lies.
    pub text_rect: Area,
}

/// Whether `a` is a value of `i32`.
fn in_i32(a: i64) -> (ok: bool)
    ensures
        ok == fits(a as int),
{
    -0x8000_0000 <= a && a <= 0x7fff_ffff
}

impl Button {
    /// The left edge of a button `w` units wide in a window `width` pixels
    /// wide: at `x`, or in the middle of the window for `POS_CENTERED`, and
    /// `offset_x` further to the right.
    pub open spec fn left(x: int, offset_x: int, w: int, scale: int, width: int) -> int {
        (if x == POS_CENTERED {
            quotient(width - w * scale, 2)
        } else {
            x
        }) + offset_x
    }

    /// The top edge of a button in a window `height` pixels high: at `y`, or
    /// in the middle of the window for `POS_CENTERED`, and `offset_y` further
    /// down.
    pub open spec fn top(y: int, offset_y: int, scale: int, height: int) -> int {
        (if y == POS_CENTERED {
            quotient(height - 16 * scale, 2)
        } else {
            y
        }) + offset_y
    }

    /// The button that `new` makes: placed by `left` and `top`, with its text
    /// in the middle of its width and a quarter of its height down.
    pub open spec fn placed(
        x: int,
        y: int,
        offset_x: int,
        offset_y: int,
        w: int,
        scale: int,
        text_size: (u32, u32),
        width: int,
        height: int,
    ) -> Button {
        let left = Button::left(x, offset_x, w, scale, width);
        let top = Button::top(y, offset_y, scale, height);
        Button {
            x: left as i32,
            y: top as i32,
            w: w as i32,
            scale: scale as i32,
            text_rect: Area {
                x: (left + quotient(w * scale - text_size.0, 2)) as i32,
                y: (top + quotient(16 * scale, 4)) as i32,
                w: text_size.0,
                h: text_size.1,
            },
        }
    }

    /// Whether every coordinate that placing the button takes is a value of
    /// `i32`.
    pub open spec fn placeable(
        x: int,
        y: int,
        offset_x: int,
        offset_y: int,
        w: int,
        scale: int,
        text_size: (u32, u32),
        width: int,
        height: int,
    ) -> bool {
        let left = Button::left(x, offset_x, w, scale, width);
        let top = Button::top(y, offset_y, scale, height);
        &&& fits(w * scale)
        &&& fits(16 * scale)
        &&& x == POS_CENTERED ==> fits(width - w * scale)
        &&& y == POS_CENTERED ==> fits(height - 16 * scale)
        &&& fits(left)
        &&& fits(top)
        &&& text_size.0 <= i32::MAX
        &&& fits(w * scale - text_size.0)
        &&& fits(left + quotient(w * scale - text_size.0, 2))
        &&& fits(top + quotient(16 * scale, 4))
    }

    /// Places a button `w` units wide in a window of `width` by `height`
    /// pixels, with a text on it that takes `text_size` pixels.
    pub fn new(
        x: i32,
        y: i32,
        offset_x: i32,
        offset_y: i32,
        w: i32,
        scale: i32,
        text_size: (u32, u32),
        width: i32,
        height: i32,
    ) -> (b: Button)
        requires
            Button::placeable(
                x as int,
                y as int,
                offset_x as int,
                offset_y as int,
                w as int,
                scale as int,
                text_size,
                width as int,
                height as int,
            ),
        ensures
            b == Button::placed(
                x as int,
                y as int,
                offset_x as int,
                offset_y as int,
                w as int,
                scale as int,
                text_size,
                width as int,
                height as int,
            ),
    {
        let x_: i32 = (if x == POS_CENTERED {
            (width - w * scale) / 2
        } else {
            x
        }) + offset_x;
        let y_: i32 = (if y == POS_CENTERED {
            (height - 16 * scale) / 2
        } else {
            y
        }) + offset_y;
        let text_width: i32 = text_size.0 as i32;
        Button {
            x: x_,
            y: y_,
            w,
            scale,
            text_rect: Area {
                x: x_ + (w * scale - text_width) / 2,
                y: y_ + (16 * scale) / 4,
                w: text_size.0,
                h: text_size.1,
            },
        }
    }

    /// Places a button as `new` does where every coordinate that this takes
    /// is a value of `i32`, and gives `None` where one is not.
    pub fn checked_new(
        x: i32,
        y: i32,
        offset_x: i32,
        offset_y: i32,
        w: i32,
        scale: i32,
        text_size: (u32, u32),
        width: i32,
        height: i32,
    ) -> (b: Option<Button>)
        ensures
            b == if Button::placeable(
                x as int,
                y as int,
                offset_x as int,
                offset_y as int,
                w as int,
                scale as int,
                text_size,
                width as int,
                height as int,
            ) {
                Some(
                    Button::placed(
                        x as int,
                        y as int,
                        offset_x as int,
                        offset_y as int,
                        w as int,
                        scale as int,
                        text_size,
                        width as int,
                        height as int,
                    ),
                )
            } else {
                None
            },
    {
        assert(-0x4000_0000_0000_0000 <= w * scale <= 0x4000_0000_0000_0000) by (nonlinear_arith)
            requires
                -0x8000_0000 <= w <= 0x7fff_ffff,
                -0x8000_0000 <= scale <= 0x7fff_ffff,
        ;
        let across: i64 = (w as i64) * (scale as i64);
        let down: i64 = 16 * (scale as i64);
        if !in_i32(across) || !in_i32(down) {
            return None;
        }
        if x == POS_CENTERED && !in_i32(width as i64 - across) {
            return None;
        }
        if y == POS_CENTERED && !in_i32(height as i64 - down) {
            return None;
        }
        let left: i64 = (if x == POS_CENTERED {
            (width as i64 - across) / 2
        } else {
            x as i64
        }) + offset_x as i64;
        let top: i64 = (if y == POS_CENTERED {
            (height as i64 - down) / 2
        } else {
            y as i64
        }) + offset_y as i64;
        if !in_i32(left) || !in_i32(top) || text_size.0 > 0x7fff_ffff {
            return None;
        }
        let slack: i64 = across - text_size.0 as i64;
        if !in_i32(slack) || !in_i32(left + slack / 2) || !in_i32(top + down / 4) {
            return None;
        }
        Some(Button::new(x, y, offset_x, offset_y, w, scale, text_size, width, height))
    }

    /// Whether the point `(x, y)` lies on the button, its edges left out.
    pub open spec fn covers(self, x: int, y: int) -> bool {
        &&& self.x < x < self.x + self.w * self.scale
        &&& self.y < y < self.y + 16 * self.scale
    }

    /// Whether the point `(x, y)` lies on the button, its edges left out.
    pub fn inside(&self, x: i32, y: i32) -> (hit: bool)
        ensures
            hit == self.covers(x as int, y as int),
    {
        let w: i64 = self.w as i64;
        let scale: i64 = self.scale as i64;
        assert(-0x4000_0000_0000_0000 <= w * scale <= 0x4000_0000_0000_0000
            && -0x10_0000_0000 <= 16 * scale <= 0x10_0000_0000) by (nonlinear_arith)
            requires
                -0x8000_0000 <= w <= 0x7fff_ffff,
                -0x8000_0000 <= scale <= 0x7fff_ffff,
        ;
        let right: i64 = self.x as i64 + w * scale;
        let bottom: i64 = self.y as i64 + 16 * scale;
        (x as i64) > (self.x as i64) && (x as i64) < right && (y as i64) > (self.y as i64) && (
        y as i64) < bottom
    }

    /// Whether the picture of the button can be drawn: its scale is not
    /// negative and every coordinate that drawing takes is a value of `i32`.
    pub open spec fn drawable(self) -> bool {
        let middle = self.w - 32;
        &&& 0 <= self.scale
        &&& fits(16 * self.scale)
        &&& fits(middle)
        &&& middle > 0 ==> fits(self.x + 16 * self.scale) && fits(middle * self.scale)
        &&& fits(16 + middle)
        &&& fits((16 + middle) * self.scale)
        &&& fits(self.x + (16 + middle) * self.scale)
    }

    /// The pieces that the picture of the button is drawn from, each with
    /// the part of the sheet that it is taken from and the place on screen
    /// where it goes: the left end, the middle if the button is more than 32
    /// units wide, stretched to fill it, and the right end.
    pub open spec fn pieces(self) -> Seq<(Area, Area)> {
        let middle = self.w - 32;
        let end: u32 = (16 * self.scale) as u32;
        let left = (
            Area { x: 0, y: 0, w: 16, h: 16 },
            Area { x: self.x, y: self.y, w: end, h: end },
        );
        let right = (
            Area { x: 32, y: 0, w: 16, h: 16 },
            Area { x: (self.x + (16 + middle) * self.scale) as i32, y: self.y, w: end, h: end },
        );
        if middle > 0 {
            seq![
                left,
                (
                    Area { x: 16, y: 0, w: 16, h: 16 },
                    Area {
                        x: (self.x + 16 * self.scale) as i32,
                        y: self.y,
                        w: (middle * self.scale) as u32,
                        h: end,
                    },
                ),
                right,
            ]
        } else {
            seq![left, right]
        }
    }

    /// The pieces that the picture of the button is drawn from, as `render`
    /// gives them, or `None` where the button cannot be drawn.
    pub fn checked_render(&self) -> (parts: Option<Vec<(Area, Area)>>)
        ensures
            self.drawable() <==> parts is Some,
            parts matches Some(p) ==> p@ == self.pieces(),
    {
        let scale: i64 = self.scale as i64;
        let middle: i64 = self.w as i64 - 32;
        let wider: i64 = 16 + middle;
        assert(-0x6000_0000_0000_0000 <= middle * scale <= 0x6000_0000_0000_0000)
            by (nonlinear_arith)
            requires
                -0x8000_0020 <= middle <= 0x8000_0020,
                -0x8000_0000 <= scale <= 0x8000_0000,
        ;
        assert(-0x6000_0000_0000_0000 <= wider * scale <= 0x6000_0000_0000_0000)
            by (nonlinear_arith)
            requires
                -0x8000_0020 <= wider <= 0x8000_0020,
                -0x8000_0000 <= scale <= 0x8000_0000,
        ;
        if scale < 0 || !in_i32(16 * scale) || !in_i32(middle) {
            return None;
        }
        if middle > 0 && (!in_i32(self.x as i64 + 16 * scale) || !in_i32(middle * scale)) {
            return None;
        }
        if !in_i32(wider) || !in_i32(wider * scale) || !in_i32(self.x as i64 + wider * scale) {
            return None;
        }
        Some(self.render())
    }

    /// The pieces that the picture of the button is drawn from, in the order
    /// in which they are drawn.
    pub fn render(&self) -> (parts: Vec<(Area, Area)>)
        requires
            self.drawable(),
        ensures
            parts@ == self.pieces(),
    {
        let end: u32 = (16 * self.scale) as u32;
        let middle_width: i32 = self.w - 32;
        let mut parts: Vec<(Area, Area)> = Vec::new();
        parts.push(
            (Area { x: 0, y: 0, w: 16, h: 16 }, Area { x: self.x, y: self.y, w: end, h: end }),
        );
        if middle_width > 0 {
            assert(0 <= middle_width * self.scale) by (nonlinear_arith)
                requires
                    0 < middle_width,
                    0 <= self.scale,
            ;
            parts.push(
                (
                    Area { x: 16, y: 0, w: 16, h: 16 },
                    Area {
                        x: self.x + 16 * self.scale,
                        y: self.y,
                        w: (middle_width * self.scale) as u32,
                        h: end,
                    },
                ),
            );
        }
        parts.push(
            (
                Area { x: 32, y: 0, w: 16, h: 16 },
                Area { x: self.x + (16 + middle_width) * self.scale, y: self.y, w: end, h: end },
            ),
        );
        assert(parts@ =~= self.pieces());
        parts
    }
}

} // verus!
