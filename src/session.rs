use vstd::prelude::*;
use crate::cell::Point;
use crate::generation::{life, step, Generation};

verus! {

/// A pointer button.
#[derive(PartialEq, Eq, Structural, Debug, Clone, Copy)]
pub enum Button {
    Left,
    Right,
    Middle,
}

/// An input event: a key, or a pointer button going down, coming up, or
/// held while the pointer moves, at a screen position.
#[derive(PartialEq, Eq, Structural, Debug, Clone, Copy)]
pub enum Input {
    Key(char),
    Down(Button, u16, u16),
    Up(Button, u16, u16),
    Drag(Button, u16, u16),
    Other,
}

/// The state of the viewer between frames.
#[derive(PartialEq, Eq, Structural, Debug, Clone, Copy)]
pub struct Session {
    /// Added to each cell's position to find its screen position.
    pub offset: Point,
    /// Where the pointer was last seen while the primary button is held.
    pub drag_anchor: Option<Point>,
    /// The simulation advances on every frame.
    pub playing: bool,
    /// The histogram is drawn.
    pub show_histogram: bool,
    /// The viewer is to stop.
    pub quit: bool,
    /// The next frame advances the simulation.
    pub advance: bool,
}

/// `v + d`, held within the range of `i32`.
pub open spec fn clamp_add(v: int, d: int) -> i32 {
    if v + d < i32::MIN {
        i32::MIN
    } else if v + d > i32::MAX {
        i32::MAX
    } else {
        (v + d) as i32
    }
}

/// The state after one event.
pub open spec fn handled(s: Session, ev: Input) -> Session {
    match ev {
        Input::Key(c) => {
            if c == 's' {
                Session { advance: true, ..s }
            } else if c == ' ' {
                Session { playing: !s.playing, advance: !s.playing, ..s }
            } else if c == 'h' {
                Session { show_histogram: !s.show_histogram, ..s }
            } else if c == 'q' {
                Session { quit: true, ..s }
            } else {
                s
            }
        },
        Input::Down(b, x, y) => {
            if b == Button::Left {
                Session { drag_anchor: Some(Point { x: x as i32, y: y as i32 }), ..s }
            } else {
                s
            }
        },
        Input::Up(b, _, _) => {
            if b == Button::Left {
                Session { drag_anchor: None, ..s }
            } else {
                s
            }
        },
        Input::Drag(b, x, y) => {
            match s.drag_anchor {
                Some(a) if b == Button::Left => Session {
                    offset: Point {
                        x: clamp_add(s.offset.x as int, x - a.x),
                        y: clamp_add(s.offset.y as int, y - a.y),
                    },
                    drag_anchor: Some(Point { x: x as i32, y: y as i32 }),
                    ..s
                },
                _ => s,
            }
        },
        Input::Other => s,
    }
}

fn clamped_add(v: i32, d: i64) -> (r: i32)
    requires
        -0x1_0000_0000 <= d <= 0x1_0000_0000,
    ensures
        r == clamp_add(v as int, d as int),
{
    let t = v as i64 + d;
    if t < i32::MIN as i64 {
        i32::MIN
    } else if t > i32::MAX as i64 {
        i32::MAX
    } else {
        t as i32
    }
}

impl Session {
    /// A paused viewer with the histogram hidden and the view unmoved.
    pub fn new() -> (r: Session)
        ensures
            r.offset == (Point { x: 0, y: 0 }),
            r.drag_anchor.is_none(),
            !r.playing,
            !r.show_histogram,
            !r.quit,
            !r.advance,
    {
        Session {
            offset: Point::new(0, 0),
            drag_anchor: None,
            playing: false,
            show_histogram: false,
            quit: false,
            advance: false,
        }
    }

    /// The generation that this frame shows: one step further when the frame
    /// is to advance and the step fits the machine's integers, else unchanged.
    pub fn frame(&self, gen: Generation) -> (r: Generation)
        requires
            gen.wf(),
        ensures
            r.wf(),
            r@ == if self.advance && gen.can_step() { step(gen@) } else { gen@ },
    {
        if self.advance && gen.can_advance() {
            life(&gen)
        } else {
            gen
        }
    }

    /// Ends a frame: the next one advances when the viewer plays. Returns
    /// whether to wait for an event, which is when it does not play; a
    /// playing viewer only takes an event that is already there.
    pub fn end_frame(&mut self) -> (wait: bool)
        ensures
            *final(self) == (Session { advance: old(self).playing, ..*old(self) }),
            wait == !old(self).playing,
    {
        self.advance = self.playing;
        !self.playing
    }

    /// Applies one input event. A drag with no anchor is ignored.
    pub fn handle(&mut self, ev: Input)
        ensures
            *final(self) == handled(*old(self), ev),
    {
        match ev {
            Input::Key(c) => {
                if c == 's' {
                    self.advance = true;
                } else if c == ' ' {
                    self.playing = !self.playing;
                    self.advance = self.playing;
                } else if c == 'h' {
                    self.show_histogram = !self.show_histogram;
                } else if c == 'q' {
                    self.quit = true;
                }
            },
            Input::Down(b, x, y) => {
                if b == Button::Left {
                    self.drag_anchor = Some(Point::new(x as i32, y as i32));
                }
            },
            Input::Up(b, _, _) => {
                if b == Button::Left {
                    self.drag_anchor = None;
                }
            },
            Input::Drag(b, x, y) => {
                if b == Button::Left {
                    if let Some(a) = self.drag_anchor {
                        let nx = clamped_add(self.offset.x, x as i64 - a.x as i64);
                        let ny = clamped_add(self.offset.y, y as i64 - a.y as i64);
                        self.offset = Point::new(nx, ny);
                        self.drag_anchor = Some(Point::new(x as i32, y as i32));
                    }
                }
            },
            Input::Other => {},
        }
    }
}

} // verus!
