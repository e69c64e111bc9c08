//! One player's snake: its body, direction, per-tick direction lock,
//! and the cell its tail vacated on the last non-growing move.
use vstd::prelude::*;
use crate::cell::{Cell, Direction};
use crate::collidable::Collidable;
use vstd::arithmetic::div_mod::{lemma_small_mod, lemma_mod_self_0, lemma_mod_multiples_vanish};

verus! {

/// Wrap one step towards zero on an axis of length `bound`.
pub open spec fn wrap_dec(v: i8, bound: i8) -> i8 {
    if v == 0 {
        (bound - 1) as i8
    } else {
        (v - 1) as i8
    }
}

/// Wrap one step away from zero on an axis of length `bound`.
pub open spec fn wrap_inc(v: i8, bound: i8) -> i8 {
    if v + 1 == bound {
        0
    } else {
        (v + 1) as i8
    }
}

/// A snake on a `field_width x field_height` toroidal field. The body
/// keeps the head at index 0 and the tail at the end.
#[derive(Debug)]
pub struct Snake {
    pub body: Vec<Cell>,
    pub current_direction: Direction,
    pub prev_tail: Option<Cell>,
    pub direction_locked: bool,
    pub field_width: i8,
    pub field_height: i8,
}

impl Snake {
    /// Well-formedness: the field sizes lie in the range the command
    /// line accepts, the body is never empty, and every recorded cell
    /// lies on the field.
    pub open spec fn wf(self) -> bool {
        &&& 5 <= self.field_width <= 100
        &&& 5 <= self.field_height <= 100
        &&& self.body@.len() >= 1
        &&& forall|i: int|
            0 <= i < self.body@.len() ==> (#[trigger] self.body@[i]).in_bounds(
                self.field_width,
                self.field_height,
            )
        &&& (self.prev_tail matches Some(c) ==> c.in_bounds(self.field_width, self.field_height))
    }

    /// The head cell.
    pub open spec fn head_spec(self) -> Cell {
        self.body@[0]
    }

    /// The cell one step ahead of the head in the current direction,
    /// wrapped around the field edges.
    pub open spec fn peek_spec(self) -> Cell {
        let h = self.head_spec();
        match self.current_direction {
            Direction::Left => Cell { x: wrap_dec(h.x, self.field_width), y: h.y },
            Direction::Right => Cell { x: wrap_inc(h.x, self.field_width), y: h.y },
            Direction::Up => Cell { x: h.x, y: wrap_dec(h.y, self.field_height) },
            Direction::Down => Cell { x: h.x, y: wrap_inc(h.y, self.field_height) },
        }
    }

    /// What one direction-change request does: when the lock is not yet
    /// engaged and the request is not the exact reversal of the current
    /// direction, the direction changes; the lock engages on every
    /// handled request.
    pub open spec fn change_dir_spec(self, d: Direction) -> Snake {
        let nd = if self.direction_locked || d == self.current_direction.opposite() {
            self.current_direction
        } else {
            d
        };
        Snake { current_direction: nd, direction_locked: true, ..self }
    }

    /// True when the apple sits exactly on the cell the snake is about
    /// to enter.
    pub open spec fn apple_ahead(self, apple: Option<Cell>) -> bool {
        apple matches Some(a) && self.peek_spec() == a
    }

    /// The body after one move: the peeked cell becomes the new head;
    /// unless the snake grows, the old tail cell is dropped.
    pub open spec fn moved_body(self, ahead: bool) -> Seq<Cell> {
        if ahead {
            seq![self.peek_spec()] + self.body@
        } else {
            (seq![self.peek_spec()] + self.body@).drop_last()
        }
    }

    /// The `prev_tail` after one move: the vacated tail cell, or the
    /// previous record when the snake grew.
    pub open spec fn moved_prev_tail(self, ahead: bool) -> Option<Cell> {
        if ahead {
            self.prev_tail
        } else {
            Some(self.body@.last())
        }
    }

    /// Full relation between a snake and its state after one move.
    pub open spec fn moves_to(self, ahead: bool, post: Snake) -> bool {
        &&& post.body@ == self.moved_body(ahead)
        &&& post.prev_tail == self.moved_prev_tail(ahead)
        &&& post.current_direction == self.current_direction
        &&& !post.direction_locked
        &&& post.field_width == self.field_width
        &&& post.field_height == self.field_height
    }

    /// The head touches a non-head segment of the own body.
    pub open spec fn self_collision(self) -> bool {
        self.body@.skip(1).contains(self.head_spec())
    }

    fn new(body: Vec<Cell>, direction: Direction, field_height: i8, field_width: i8) -> (r: Snake)
        ensures
            r.body == body,
            r.current_direction == direction,
            r.prev_tail is None,
            !r.direction_locked,
            r.field_width == field_width,
            r.field_height == field_height,
    {
        Snake {
            body,
            current_direction: direction,
            field_width,
            field_height,
            prev_tail: None,
            direction_locked: false,
        }
    }

    /// The fixed starting body for player slot `index`, head first.
    pub open spec fn layout_body(index: int, w: i8, h: i8) -> Seq<Cell> {
        if index == 0 {
            seq![Cell { x: 3, y: 1 }, Cell { x: 2, y: 1 }, Cell { x: 1, y: 1 }]
        } else if index == 1 {
            seq![
                Cell { x: (w - 4) as i8, y: (h - 2) as i8 },
                Cell { x: (w - 3) as i8, y: (h - 2) as i8 },
                Cell { x: (w - 2) as i8, y: (h - 2) as i8 },
            ]
        } else if index == 2 {
            seq![
                Cell { x: (w - 2) as i8, y: 3 },
                Cell { x: (w - 2) as i8, y: 2 },
                Cell { x: (w - 2) as i8, y: 1 },
            ]
        } else {
            seq![
                Cell { x: 1, y: (h - 4) as i8 },
                Cell { x: 1, y: (h - 3) as i8 },
                Cell { x: 1, y: (h - 2) as i8 },
            ]
        }
    }

    /// The fixed starting direction for player slot `index`.
    pub open spec fn layout_direction(index: int) -> Direction {
        if index == 0 {
            Direction::Right
        } else if index == 1 {
            Direction::Left
        } else if index == 2 {
            Direction::Down
        } else {
            Direction::Up
        }
    }

    /// Builds the starting snake for one of the four player slots.
    pub fn default(index: usize, field_height: i8, field_width: i8) -> (r: Snake)
        requires
            index < 4,
            5 <= field_width <= 100,
            5 <= field_height <= 100,
        ensures
            r.wf(),
            r.body@ == Snake::layout_body(index as int, field_width, field_height),
            r.current_direction == Snake::layout_direction(index as int),
            r.prev_tail is None,
            !r.direction_locked,
            r.field_width == field_width,
            r.field_height == field_height,
    {
        let w = field_width;
        let h = field_height;
        let r = if index == 0 {
            let body = vec![Cell { x: 3, y: 1 }, Cell { x: 2, y: 1 }, Cell { x: 1, y: 1 }];
            Snake::new(body, Direction::Right, h, w)
        } else if index == 1 {
            let body = vec![
                Cell { x: w - 4, y: h - 2 },
                Cell { x: w - 3, y: h - 2 },
                Cell { x: w - 2, y: h - 2 },
            ];
            Snake::new(body, Direction::Left, h, w)
        } else if index == 2 {
            let body = vec![
                Cell { x: w - 2, y: 3 },
                Cell { x: w - 2, y: 2 },
                Cell { x: w - 2, y: 1 },
            ];
            Snake::new(body, Direction::Down, h, w)
        } else {
            let body = vec![
                Cell { x: 1, y: h - 4 },
                Cell { x: 1, y: h - 3 },
                Cell { x: 1, y: h - 2 },
            ];
            Snake::new(body, Direction::Up, h, w)
        };
        proof {
            assert(r.body@ =~= Snake::layout_body(index as int, field_width, field_height));
        }
        r
    }

    /// Handles one direction-change request, as `change_dir_spec` says.
    pub fn change_direction(&mut self, new_direction: Direction)
        ensures
            *final(self) == old(self).change_dir_spec(new_direction),
            final(self).direction_locked,
            new_direction == old(self).current_direction.opposite()
                ==> final(self).current_direction == old(self).current_direction,
            old(self).direction_locked
                ==> final(self).current_direction == old(self).current_direction,
    {
        let opp = match self.current_direction {
            Direction::Up => Direction::Down,
            Direction::Down => Direction::Up,
            Direction::Left => Direction::Right,
            Direction::Right => Direction::Left,
        };
        if !self.direction_locked && !(new_direction == opp) {
            self.current_direction = new_direction;
        }
        self.direction_locked = true;
    }

    /// The cell the snake would enter on its next move.
    pub fn peek(&self) -> (r: Cell)
        requires
            self.wf(),
        ensures
            r == self.peek_spec(),
            r.in_bounds(self.field_width, self.field_height),
    {
        let h = self.head();
        match self.current_direction {
            Direction::Left => Cell {
                x: if h.x == 0 { self.field_width - 1 } else { h.x - 1 },
                y: h.y,
            },
            Direction::Right => Cell {
                x: if h.x + 1 == self.field_width { 0 } else { h.x + 1 },
                y: h.y,
            },
            Direction::Up => Cell {
                x: h.x,
                y: if h.y == 0 { self.field_height - 1 } else { h.y - 1 },
            },
            Direction::Down => Cell {
                x: h.x,
                y: if h.y + 1 == self.field_height { 0 } else { h.y + 1 },
            },
        }
    }

    /// The head cell.
    pub fn head(&self) -> (r: Cell)
        requires
            self.body@.len() >= 1,
        ensures
            r == self.head_spec(),
    {
        self.body[0]
    }

    /// True when this snake's head touches any cell of `other`'s body.
    pub fn check_collisions(&self, other: &Snake) -> (r: bool)
        requires
            self.body@.len() >= 1,
        ensures
            r == other.body@.contains(self.head_spec()),
    {
        let h = self.head();
        h.collides_with(&other.body)
    }

    /// True when this snake's head touches a non-head segment of its
    /// own body.
    pub fn check_collisions_with_self(&self) -> (r: bool)
        requires
            self.body@.len() >= 1,
        ensures
            r == self.self_collision(),
    {
        let h = self.head();
        let mut i: usize = 1;
        let mut found = false;
        while i < self.body.len()
            invariant
                1 <= i <= self.body@.len(),
                found == exists|k: int| 1 <= k < i && self.body@[k] == self.head_spec(),
            decreases self.body@.len() - i,
        {
            if self.body[i] == h {
                found = true;
            }
            i = i + 1;
        }
        proof {
            if found {
                let k = choose|k: int| 1 <= k < self.body@.len() && self.body@[k]
                    == self.head_spec();
                assert(self.body@.skip(1)[k - 1] == self.head_spec());
            }
            if self.self_collision() {
                let k = choose|k: int| 0 <= k < self.body@.skip(1).len() && self.body@.skip(1)[k]
                    == self.head_spec();
                assert(self.body@[k + 1] == self.head_spec());
            }
        }
        found
    }

    /// Advances the snake one cell: the lock clears, the peeked cell
    /// becomes the head, and unless an apple lay ahead the tail cell is
    /// dropped and recorded in `prev_tail`.
    pub fn move_forward(&mut self, is_apple_ahead: bool)
        requires
            old(self).wf(),
        ensures
            old(self).moves_to(is_apple_ahead, *final(self)),
            final(self).wf(),
            is_apple_ahead ==> final(self).body@.len() == old(self).body@.len() + 1,
            !is_apple_ahead ==> final(self).body@.len() == old(self).body@.len()
                && final(self).prev_tail == Some(old(self).body@.last()),
    {
        self.direction_locked = false;
        let next = self.peek();
        self.body.insert(0, next);
        proof {
            assert(self.body@ =~= seq![old(self).peek_spec()] + old(self).body@);
        }
        if !is_apple_ahead {
            let t = self.body.pop();
            match t {
                Some(c) => {
                    self.prev_tail = Some(c);
                },
                None => {},
            }
            proof {
                assert(self.body@ =~= old(self).moved_body(false));
            }
        }
    }
}

/// The peeked cell always lies on the field, and on the moving axis it
/// is exactly the old coordinate shifted by one, modulo the field size.
pub proof fn lemma_peek_wraps(s: Snake)
    requires
        s.wf(),
    ensures
        s.peek_spec().in_bounds(s.field_width, s.field_height),
        s.current_direction == Direction::Left ==> s.peek_spec().x as int == (s.head_spec().x - 1
            + s.field_width) % (s.field_width as int) && s.peek_spec().y == s.head_spec().y,
        s.current_direction == Direction::Right ==> s.peek_spec().x as int == (s.head_spec().x + 1)
            % (s.field_width as int) && s.peek_spec().y == s.head_spec().y,
        s.current_direction == Direction::Up ==> s.peek_spec().y as int == (s.head_spec().y - 1
            + s.field_height) % (s.field_height as int) && s.peek_spec().x == s.head_spec().x,
        s.current_direction == Direction::Down ==> s.peek_spec().y as int == (s.head_spec().y + 1)
            % (s.field_height as int) && s.peek_spec().x == s.head_spec().x,
{
    let h = s.head_spec();
    let w = s.field_width as int;
    let hh = s.field_height as int;
    lemma_wrap_dec(h.x, s.field_width);
    lemma_wrap_inc(h.x, s.field_width);
    lemma_wrap_dec(h.y, s.field_height);
    lemma_wrap_inc(h.y, s.field_height);
}

/// `wrap_dec` computes subtraction by one modulo the axis length.
pub proof fn lemma_wrap_dec(v: i8, bound: i8)
    requires
        0 < bound,
        0 <= v < bound,
    ensures
        wrap_dec(v, bound) as int == (v - 1 + bound) % (bound as int),
        0 <= wrap_dec(v, bound) < bound,
{
    let b = bound as int;
    if v == 0 {
        lemma_small_mod((b - 1) as nat, b as nat);
    } else {
        lemma_mod_multiples_vanish(1, v - 1, b);
        lemma_small_mod((v - 1) as nat, b as nat);
    }
}

/// `wrap_inc` computes addition of one modulo the axis length.
pub proof fn lemma_wrap_inc(v: i8, bound: i8)
    requires
        0 < bound,
        0 <= v < bound,
    ensures
        wrap_inc(v, bound) as int == (v + 1) % (bound as int),
        0 <= wrap_inc(v, bound) < bound,
{
    let b = bound as int;
    if v + 1 == bound {
        lemma_mod_self_0(b);
    } else {
        lemma_small_mod((v + 1) as nat, b as nat);
    }
}

/// A request to reverse straight into the opposite of the current
/// direction never turns the snake, whatever the lock state.
pub proof fn lemma_reversal_ignored(s: Snake, d: Direction)
    requires
        d == s.current_direction.opposite(),
    ensures
        s.change_dir_spec(d).current_direction == s.current_direction,
{
}

/// Within one tick, at most one handled request can turn the snake:
/// the first handled request engages the lock, and every later request
/// in the same tick is a complete no-op.
pub proof fn lemma_direction_locked(s: Snake, d1: Direction, d2: Direction)
    ensures
        s.change_dir_spec(d1).change_dir_spec(d2) == s.change_dir_spec(d1),
{
}

} // verus!
