//! The draw-call list: what the core asks the external renderer to draw.
//!
//! The core never issues graphics calls; it only describes the scene as an
//! ordered list of primitives (filled circles, filled rectangles, a
//! text-at-rectangle request for the score), each with an RGBA colour and
//! a depth, plus the camera rectangle that frames the scene.  Depths are
//! in milli-units of the renderer's depth axis.

use vstd::prelude::*;
use crate::consts::{SCALE, PLAYER_R_BASE, PICKUP_RADIUS, CAM_X_OFFSET};
use crate::geom::{Vec2, Rect, RectM};
use crate::model::wf;
use crate::world::World;

verus! {

/// An RGBA colour with 8-bit channels.
#[derive(Clone, Copy, PartialEq, Eq, Structural, Debug)]
pub struct Color {
    pub r: u8,
    pub g: u8,
    pub b: u8,
    pub a: u8,
}

/// One draw request.
#[derive(Clone, PartialEq, Debug)]
pub enum DrawCmd {
    /// A filled circle.
    Circle { center: Vec2, radius: i64, color: Color, depth: i64 },
    /// A filled axis-aligned rectangle.
    Quad { rect: Rect, color: Color, depth: i64 },
    /// Text laid out into a rectangle, given as ASCII bytes.
    Text { text: Vec<u8>, rect: Rect, color: Color, depth: i64 },
}

/// The player's drawn radius: the collision radius plus a bump that decays
/// over the second after a gravity flip.
pub open spec fn player_draw_radius(t: int, t_press: int) -> int {
    if t - t_press < 1000 {
        PLAYER_R_BASE + (1000 - (t - t_press)) * 1000
    } else {
        PLAYER_R_BASE as int
    }
}

/// The decimal digits of a nonnegative number, as ASCII bytes, most
/// significant first.
pub open spec fn digits_of(n: int) -> Seq<u8>
    decreases n,
{
    if n < 10 {
        seq![(48 + n) as u8]
    } else {
        digits_of(n / 10).push((48 + n % 10) as u8)
    }
}

/// Ten to the power `k`.
pub open spec fn pow10(k: nat) -> int
    decreases k,
{
    if k == 0 {
        1
    } else {
        10 * pow10((k - 1) as nat)
    }
}

/// A number below `10^k` has at most `k` digits.
pub proof fn lemma_digits_len(n: int, k: nat)
    requires
        0 <= n,
        k >= 1,
        n < pow10(k),
    ensures
        digits_of(n).len() <= k,
    decreases k,
{
    if n < 10 {
    } else {
        assert(pow10(k) == 10 * pow10((k - 1) as nat));
        assert(n / 10 < pow10((k - 1) as nat)) by (nonlinear_arith)
            requires
                n < 10 * pow10((k - 1) as nat),
                n >= 10,
        ;
        assert((k - 1) as nat >= 1) by {
            if k == 1 {
                assert(pow10(1nat) == 10);
            }
        }
        lemma_digits_len(n / 10, (k - 1) as nat);
    }
}

/// The decimal digits of `n`, as ASCII bytes, most significant first.
pub fn digits_ascii(n: u64) -> (r: Vec<u8>)
    ensures
        r@ == digits_of(n as int),
        r@.len() >= 1,
    decreases n,
{
    if n < 10 {
        let mut v: Vec<u8> = Vec::new();
        v.push(48 + (n as u8));
        proof {
            assert(v@ =~= digits_of(n as int));
        }
        v
    } else {
        proof {
            assert((n as int) / 10 < n as int) by (nonlinear_arith)
                requires
                    n >= 10,
            ;
        }
        let mut v = digits_ascii(n / 10);
        v.push(48 + ((n % 10) as u8));
        v
    }
}

impl World {
    /// The scene as draw requests: the player circle first, then one
    /// rectangle per wall, then one circle per pickup.
    pub fn get_geometry(&self) -> (r: Vec<DrawCmd>)
        requires
            wf(self@),
        ensures
            r@.len() == 1 + self@.walls.len() + self@.pickups.len(),
            r@[0] == (DrawCmd::Circle {
                center: self.player_pos,
                radius: player_draw_radius(self@.t, self@.t_press) as i64,
                color: (Color { r: 255, g: 255, b: 0, a: 255 }),
                depth: 0,
            }),
            forall|i: int| 0 <= i < self@.walls.len() ==> r@[1 + i] == (DrawCmd::Quad {
                rect: self.walls@[i],
                color: (Color { r: 76, g: 0, b: 0, a: 255 }),
                depth: 100,
            }),
            forall|j: int| 0 <= j < self@.pickups.len() ==> r@[1 + self@.walls.len() + j] == (
            DrawCmd::Circle {
                center: self.pickups@[j],
                radius: PICKUP_RADIUS,
                color: (Color { r: 255, g: 0, b: 0, a: 255 }),
                depth: 100,
            }),
    {
        let mut buf: Vec<DrawCmd> = Vec::new();
        let dtp = self.t - self.t_press;
        let radius: i64 = if dtp < 1000 {
            PLAYER_R_BASE + (1000 - dtp) * 1000
        } else {
            PLAYER_R_BASE
        };
        buf.push(DrawCmd::Circle {
            center: self.player_pos,
            radius,
            color: Color { r: 255, g: 255, b: 0, a: 255 },
            depth: 0,
        });
        let mut i: usize = 0;
        while i < self.walls.len()
            invariant
                0 <= i <= self.walls.len(),
                buf@.len() == 1 + i,
                buf@[0] == (DrawCmd::Circle {
                    center: self.player_pos,
                    radius: player_draw_radius(self@.t, self@.t_press) as i64,
                    color: (Color { r: 255, g: 255, b: 0, a: 255 }),
                    depth: 0,
                }),
                forall|k: int| 0 <= k < i ==> buf@[1 + k] == (DrawCmd::Quad {
                    rect: self.walls@[k],
                    color: (Color { r: 76, g: 0, b: 0, a: 255 }),
                    depth: 100,
                }),
            decreases self.walls.len() - i,
        {
            buf.push(DrawCmd::Quad {
                rect: self.walls[i],
                color: Color { r: 76, g: 0, b: 0, a: 255 },
                depth: 100,
            });
            i = i + 1;
        }
        let mut j: usize = 0;
        while j < self.pickups.len()
            invariant
                0 <= j <= self.pickups.len(),
                buf@.len() == 1 + self@.walls.len() + j,
                buf@[0] == (DrawCmd::Circle {
                    center: self.player_pos,
                    radius: player_draw_radius(self@.t, self@.t_press) as i64,
                    color: (Color { r: 255, g: 255, b: 0, a: 255 }),
                    depth: 0,
                }),
                forall|k: int| 0 <= k < self@.walls.len() ==> buf@[1 + k] == (DrawCmd::Quad {
                    rect: self.walls@[k],
                    color: (Color { r: 76, g: 0, b: 0, a: 255 }),
                    depth: 100,
                }),
                forall|k: int| 0 <= k < j ==> buf@[1 + self@.walls.len() + k] == (DrawCmd::Circle {
                    center: self.pickups@[k],
                    radius: PICKUP_RADIUS,
                    color: (Color { r: 255, g: 0, b: 0, a: 255 }),
                    depth: 100,
                }),
            decreases self.pickups.len() - j,
        {
            buf.push(DrawCmd::Circle {
                center: self.pickups[j],
                radius: PICKUP_RADIUS,
                color: Color { r: 255, g: 0, b: 0, a: 255 },
                depth: 100,
            });
            j = j + 1;
        }
        buf
    }

    /// The score text request: the score in whole points, centred near the
    /// bottom of the view, in a rectangle that scales with the number of
    /// digits.
    pub fn get_text(&self) -> (r: Vec<DrawCmd>)
        requires
            wf(self@),
        ensures
            r@.len() == 1,
            (r@[0] matches DrawCmd::Text { text, rect, color, depth } ==> {
                let n = digits_of(self@.score / 1000).len() as int;
                let cw = n * 1_000_000;
                let ch = cw * 8 / 7;
                &&& text@ == digits_of(self@.score / 1000)
                &&& rect@ == (RectM { x: -((cw * n) / 2), y: -SCALE + ch, w: cw * n, h: ch })
                &&& color == (Color { r: 255, g: 255, b: 255, a: 255 })
                &&& depth == -900
            }),
            r@[0] is Text,
    {
        let points: u64 = (self.score / 1000) as u64;
        let text = digits_ascii(points);
        proof {
            reveal_with_fuel(pow10, 18);
            assert(pow10(16nat) == 10_000_000_000_000_000);
            lemma_digits_len(points as int, 16nat);
        }
        let n = text.len() as i64;
        let cw = n * 1_000_000;
        proof {
            assert(0 <= cw * n < 0x8000_0000_0000_0000) by (nonlinear_arith)
                requires
                    0 <= n <= 16,
                    cw == n * 1_000_000,
            ;
        }
        let ch = cw * 8 / 7;
        let half_w = (cw * n) / 2;
        let rect = Rect { x: -half_w, y: -SCALE + ch, w: cw * n, h: ch };
        let mut buf: Vec<DrawCmd> = Vec::new();
        buf.push(DrawCmd::Text {
            text,
            rect,
            color: Color { r: 255, g: 255, b: 255, a: 255 },
            depth: -900,
        });
        buf
    }

    /// The camera rectangle: one world unit of half-extent around a point
    /// slightly ahead of the player.
    pub fn get_camera(&self) -> (r: Rect)
        requires
            wf(self@),
        ensures
            r@ == (RectM {
                x: self@.pos_x + CAM_X_OFFSET - SCALE,
                y: self@.pos_y - SCALE,
                w: 2 * SCALE,
                h: 2 * SCALE,
            }),
    {
        Rect {
            x: self.player_pos.x + CAM_X_OFFSET - SCALE,
            y: self.player_pos.y - SCALE,
            w: 2 * SCALE,
            h: 2 * SCALE,
        }
    }
}

} // verus!
