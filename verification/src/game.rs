//! The game state: all snakes and their players, the field bounds, the
//! run flag and the apple, together with the per-tick simulation step.
use vstd::prelude::*;
use crate::cell::Cell;
use crate::collidable::Collidable;
use crate::snake::Snake;
use rand::Rng;

verus! {

/// The whole simulation state. `players` and `snakes` are index-aligned:
/// entry `i` of one belongs to entry `i` of the other.
#[derive(Debug)]
pub struct Game {
    pub height: i8,
    pub width: i8,
    pub is_running: bool,
    pub snakes: Vec<Snake>,
    pub players: Vec<String>,
    pub apple_position: Option<Cell>,
}

impl Game {
    /// Well-formedness: field bounds in the accepted range, players and
    /// snakes aligned, at most four players, no duplicate identifiers,
    /// every snake well formed on this field, the apple on the field.
    pub open spec fn wf(self) -> bool {
        &&& 5 <= self.width <= 100
        &&& 5 <= self.height <= 100
        &&& self.players@.len() == self.snakes@.len()
        &&& self.snakes@.len() <= 4
        &&& forall|i: int, j: int|
            0 <= i < j < self.players@.len() ==> (#[trigger] self.players@[i])@ != (
            #[trigger] self.players@[j])@
        &&& forall|i: int|
            0 <= i < self.snakes@.len() ==> (#[trigger] self.snakes@[i]).wf()
                && self.snakes@[i].field_width == self.width && self.snakes@[i].field_height
                == self.height
        &&& (self.apple_position matches Some(a) ==> a.in_bounds(self.width, self.height))
    }

    /// Some player carries exactly this identifier.
    pub open spec fn has_player(self, id: Seq<char>) -> bool {
        exists|i: int| 0 <= i < self.players@.len() && (#[trigger] self.players@[i])@ == id
    }

    /// The slot of the player with this identifier.
    pub open spec fn player_index(self, id: Seq<char>) -> int {
        choose|i: int| 0 <= i < self.players@.len() && (#[trigger] self.players@[i])@ == id
    }

    /// Whether snake `i` dies this tick, judged on the positions after
    /// every snake has moved: its head on a non-head cell of its own
    /// body, or on any cell of another snake's body.
    pub open spec fn dead_at(self, i: int) -> bool {
        let s = self.snakes@[i];
        let h = s.peek_spec();
        ||| s.moved_body(s.apple_ahead(self.apple_position)).skip(1).contains(h)
        ||| exists|j: int|
            0 <= j < self.snakes@.len() && j != i && (#[trigger] self.snakes@[j]).moved_body(
                self.snakes@[j].apple_ahead(self.apple_position),
            ).contains(h)
    }

    /// The slots below `k` whose snakes survive this tick, in order.
    pub open spec fn alive_indices(self, k: int) -> Seq<int>
        decreases k,
    {
        if k <= 0 {
            Seq::empty()
        } else if self.dead_at(k - 1) {
            self.alive_indices(k - 1)
        } else {
            self.alive_indices(k - 1).push(k - 1)
        }
    }

    /// Some snake's next head cell lands on the apple this tick.
    pub open spec fn apple_eaten_spec(self) -> bool {
        self.apple_position matches Some(a) && exists|i: int|
            0 <= i < self.snakes@.len() && (#[trigger] self.snakes@[i]).peek_spec() == a
    }

    /// Some snake's head already rests on the apple.
    pub open spec fn apple_on_head(self) -> bool {
        self.apple_position matches Some(a) && exists|i: int|
            0 <= i < self.snakes@.len() && (#[trigger] self.snakes@[i]).head_spec() == a
    }

    /// A candidate apple cell the respawn policy accepts against these
    /// snakes: on no body, except exactly where a tail just vacated.
    pub open spec fn cell_free(snakes: Seq<Snake>, c: Cell) -> bool {
        forall|i: int|
            0 <= i < snakes.len() && (#[trigger] snakes[i]).body@.contains(c) ==> snakes[i].prev_tail
                == Some(c)
    }

    /// The same acceptance test, judged on the bodies every snake will
    /// have once it has moved this tick, before the dead are removed.
    pub open spec fn cell_free_after_move(self, c: Cell) -> bool {
        forall|i: int|
            0 <= i < self.snakes@.len() && (#[trigger] self.snakes@[i]).moved_body(
                self.snakes@[i].apple_ahead(self.apple_position),
            ).contains(c) ==> self.snakes@[i].moved_prev_tail(
                self.snakes@[i].apple_ahead(self.apple_position),
            ) == Some(c)
    }

    /// A fresh game in the lobby: no players, no apple, not running.
    pub fn new(height: i8, width: i8) -> (r: Game)
        requires
            5 <= height <= 100,
            5 <= width <= 100,
        ensures
            r.wf(),
            r.height == height,
            r.width == width,
            !r.is_running,
            r.snakes@.len() == 0,
            r.players@.len() == 0,
            r.apple_position is None,
    {
        Game {
            height,
            width,
            snakes: Vec::new(),
            players: Vec::new(),
            is_running: false,
            apple_position: None,
        }
    }

    /// Spawns the first apple and sets the game running.
    pub fn start(&mut self)
        requires
            old(self).wf(),
        ensures
            final(self).wf(),
            final(self).is_running,
            final(self).snakes == old(self).snakes,
            final(self).players == old(self).players,
            final(self).width == old(self).width,
            final(self).height == old(self).height,
            (exists|c: Cell|
                c.in_bounds(old(self).width, old(self).height) && Game::cell_free(
                    old(self).snakes@,
                    c,
                )) ==> (final(self).apple_position matches Some(c) && c.in_bounds(
                old(self).width,
                old(self).height,
            ) && Game::cell_free(old(self).snakes@, c)),
            !(exists|c: Cell|
                c.in_bounds(old(self).width, old(self).height) && Game::cell_free(
                    old(self).snakes@,
                    c,
                )) ==> final(self).apple_position is None,
    {
        self.respawn_apple();
        self.is_running = true;
    }

    /// Clears the run flag; players and snakes persist.
    pub fn stop(&mut self)
        ensures
            *final(self) == (Game { is_running: false, ..*old(self) }),
    {
        self.is_running = false;
    }

    /// Appends a new player and its snake, laid out for the next free
    /// slot. A duplicate identifier or a fifth player is the caller's
    /// misuse and is ruled out here.
    pub fn add_player(&mut self, id: String)
        requires
            old(self).wf(),
            !old(self).has_player(id@),
            old(self).players@.len() < 4,
        ensures
            final(self).wf(),
            final(self).players@ == old(self).players@.push(id),
            final(self).snakes@.len() == old(self).snakes@.len() + 1,
            forall|t: int|
                0 <= t < old(self).snakes@.len() ==> #[trigger] final(self).snakes@[t] == old(
                    self,
                ).snakes@[t],
            ({
                let k = old(self).snakes@.len() as int;
                let ns = final(self).snakes@[k];
                &&& ns.body@ == Snake::layout_body(k, old(self).width, old(self).height)
                &&& ns.current_direction == Snake::layout_direction(k)
                &&& ns.prev_tail is None
                &&& !ns.direction_locked
                &&& ns.field_width == old(self).width
                &&& ns.field_height == old(self).height
            }),
            final(self).width == old(self).width,
            final(self).height == old(self).height,
            final(self).is_running == old(self).is_running,
            final(self).apple_position == old(self).apple_position,
    {
        let new_snake = Snake::default(self.snakes.len(), self.height, self.width);
        proof {
            lemma_layout_wf(self.snakes@.len() as int, self.width, self.height);
        }
        self.snakes.push(new_snake);
        self.players.push(id);
    }

    /// One simulation step: every snake moves (growing when the apple
    /// lay ahead), an eaten apple respawns, every snake whose post-move
    /// head rests on another's body or a non-head cell of its own is
    /// removed together with its player, and the game stops once no
    /// snake remains.
    #[verifier::rlimit(100)]
    #[verifier::spinoff_prover]
    pub fn tick(&mut self)
        requires
            old(self).wf(),
        ensures
            final(self).wf(),
            final(self).width == old(self).width,
            final(self).height == old(self).height,
            ({
                let alive = old(self).alive_indices(old(self).snakes@.len() as int);
                &&& final(self).snakes@.len() == alive.len()
                &&& final(self).players@.len() == alive.len()
                &&& forall|t: int|
                    0 <= t < alive.len() ==> old(self).snakes@[alive[t]].moves_to(
                        old(self).snakes@[alive[t]].apple_ahead(old(self).apple_position),
                        #[trigger] final(self).snakes@[t],
                    ) && final(self).players@[t] == old(self).players@[alive[t]]
                &&& final(self).is_running == (old(self).is_running && alive.len() > 0)
            }),
            old(self).apple_eaten_spec() ==> {
                &&& (exists|c: Cell|
                    c.in_bounds(old(self).width, old(self).height) && old(
                        self,
                    ).cell_free_after_move(c)) ==> (final(self).apple_position matches Some(c)
                    && c.in_bounds(old(self).width, old(self).height) && old(
                    self,
                ).cell_free_after_move(c))
                &&& !(exists|c: Cell|
                    c.in_bounds(old(self).width, old(self).height) && old(
                        self,
                    ).cell_free_after_move(c)) ==> final(self).apple_position is None
            },
            !old(self).apple_eaten_spec() ==> final(self).apple_position == old(
                self,
            ).apple_position,
    {
        let ghost g0 = *self;
        let n = self.snakes.len();
        // move all snakes forward
        let mut i: usize = 0;
        while i < n
            invariant
                0 <= i <= n,
                n == g0.snakes@.len(),
                self.snakes@.len() == n,
                self.width == g0.width,
                self.height == g0.height,
                self.players == g0.players,
                self.is_running == g0.is_running,
                self.apple_position == g0.apple_position,
                forall|k: int|
                    0 <= k < i ==> g0.snakes@[k].moves_to(
                        g0.snakes@[k].apple_ahead(g0.apple_position),
                        #[trigger] self.snakes@[k],
                    ) && self.snakes@[k].wf() && self.snakes@[k].field_width == g0.width
                        && self.snakes@[k].field_height == g0.height,
                forall|k: int| i <= k < n ==> #[trigger] self.snakes@[k] == g0.snakes@[k],
            decreases n - i,
        {
            let ghost pre = self.snakes@;
            let mut s = self.snakes.remove(i);
            let is_apple_ahead = match self.apple_position {
                Some(a) => {
                    let p = s.peek();
                    p.collides_with(&a)
                },
                None => false,
            };
            s.move_forward(is_apple_ahead);
            self.snakes.insert(i, s);
            proof {
                assert forall|k: int| 0 <= k < n && k != i implies #[trigger] self.snakes@[k]
                    == pre[k] by {
                    if k < i {
                        assert(self.snakes@[k] == pre.remove(i as int)[k]);
                    } else {
                        assert(self.snakes@[k] == pre.remove(i as int)[k - 1]);
                    }
                }
                assert(self.snakes@[i as int] == s);
            }
            i = i + 1;
        }
        proof {
            assert forall|k: int| 0 <= k < n implies (#[trigger] self.snakes@[k]).body@
                == g0.snakes@[k].moved_body(g0.snakes@[k].apple_ahead(g0.apple_position))
                && self.snakes@[k].head_spec() == g0.snakes@[k].peek_spec() by {
                let sk = g0.snakes@[k];
                assert(g0.snakes@[k].moves_to(
                    sk.apple_ahead(g0.apple_position),
                    self.snakes@[k],
                ));
                assert(sk.moved_body(sk.apple_ahead(g0.apple_position))[0] == sk.peek_spec());
            }
            if g0.apple_eaten_spec() {
                let a = g0.apple_position.unwrap();
                let w = choose|w: int|
                    0 <= w < g0.snakes@.len() && (#[trigger] g0.snakes@[w]).peek_spec() == a;
                assert(self.snakes@[w].head_spec() == a);
                assert(self.apple_on_head());
            }
            if self.apple_on_head() {
                let a = self.apple_position.unwrap();
                let w = choose|w: int|
                    0 <= w < self.snakes@.len() && (#[trigger] self.snakes@[w]).head_spec() == a;
                assert(g0.snakes@[w].peek_spec() == a);
                assert(g0.apple_eaten_spec());
            }
            assert(self.apple_on_head() == g0.apple_eaten_spec());
        }
        // a bitten apple respawns before the dead are removed
        let ghost mid = *self;
        if self.check_apple_eaten() {
            self.respawn_apple();
            proof {
                lemma_free_cells_after_move(g0, mid);
            }
        }
        // judge every snake on the post-move positions
        let ghost mid2 = *self;
        let mut dead: Vec<bool> = Vec::new();
        let mut i: usize = 0;
        while i < n
            invariant
                0 <= i <= n,
                *self == mid2,
                n == self.snakes@.len(),
                dead@.len() == i,
                forall|k: int| 0 <= k < n ==> (#[trigger] self.snakes@[k]).body@.len() >= 1,
                forall|k: int| 0 <= k < i ==> #[trigger] dead@[k] == g0.dead_at(k),
                forall|k: int| 0 <= k < n ==> (#[trigger] self.snakes@[k]).body@
                    == g0.snakes@[k].moved_body(g0.snakes@[k].apple_ahead(g0.apple_position))
                    && self.snakes@[k].head_spec() == g0.snakes@[k].peek_spec(),
                forall|k: int|
                    0 <= k < n ==> g0.snakes@[k].moves_to(
                        g0.snakes@[k].apple_ahead(g0.apple_position),
                        #[trigger] self.snakes@[k],
                    ) && self.snakes@[k].wf() && self.snakes@[k].field_width == g0.width
                        && self.snakes@[k].field_height == g0.height,
            decreases n - i,
        {
            let self_coll = self.snakes[i].check_collisions_with_self();
            let mut any_other = false;
            let mut j: usize = 0;
            while j < n
                invariant
                    0 <= j <= n,
                    0 <= i < n,
                    *self == mid2,
                    n == self.snakes@.len(),
                    any_other == exists|k: int|
                        0 <= k < j && k != i && (#[trigger] self.snakes@[k]).body@.contains(
                            self.snakes@[i as int].head_spec(),
                        ),
                decreases n - j,
            {
                if j != i {
                    if self.snakes[i].check_collisions(&self.snakes[j]) {
                        any_other = true;
                    }
                }
                j = j + 1;
            }
            dead.push(self_coll || any_other);
            proof {
                let k = i as int;
                let sk = g0.snakes@[k];
                let ahead = sk.apple_ahead(g0.apple_position);
                assert(self.snakes@[k].self_collision() == sk.moved_body(ahead).skip(1).contains(
                    sk.peek_spec(),
                ));
                if any_other {
                    let k2 = choose|k2: int|
                        0 <= k2 < n && k2 != k && (#[trigger] self.snakes@[k2]).body@.contains(
                            self.snakes@[k].head_spec(),
                        );
                    assert(g0.snakes@[k2].moved_body(
                        g0.snakes@[k2].apple_ahead(g0.apple_position),
                    ).contains(sk.peek_spec()));
                    assert(g0.dead_at(k));
                }
                if g0.dead_at(k) && !self_coll {
                    let j2 = choose|j2: int|
                        0 <= j2 < g0.snakes@.len() && j2 != k && (
                        #[trigger] g0.snakes@[j2]).moved_body(
                            g0.snakes@[j2].apple_ahead(g0.apple_position),
                        ).contains(sk.peek_spec());
                    assert(self.snakes@[j2].body@.contains(self.snakes@[k].head_spec()));
                    assert(any_other);
                }
                assert((self_coll || any_other) == g0.dead_at(k));
            }
            i = i + 1;
        }
        // remove the dead, keeping players aligned
        let ghost moved = self.snakes@;
        let ghost pl = self.players@;
        proof {
            assert(pl == g0.players@);
            assert(forall|k: int|
                0 <= k < n ==> g0.snakes@[k].moves_to(
                    g0.snakes@[k].apple_ahead(g0.apple_position),
                    #[trigger] moved[k],
                ) && moved[k].wf() && moved[k].field_width == g0.width && moved[k].field_height
                    == g0.height);
        }
        let mut new_snakes: Vec<Snake> = Vec::new();
        let mut new_players: Vec<String> = Vec::new();
        let mut i: usize = 0;
        while i < n
            invariant
                0 <= i <= n,
                n == moved.len(),
                pl.len() == n,
                self.snakes@ == moved.skip(i as int),
                self.players@ == pl.skip(i as int),
                self.width == g0.width,
                self.height == g0.height,
                self.is_running == g0.is_running,
                self.apple_position == mid2.apple_position,
                dead@.len() == n,
                forall|k: int| 0 <= k < n ==> #[trigger] dead@[k] == g0.dead_at(k),
                ({
                    let alive = g0.alive_indices(i as int);
                    &&& new_snakes@.len() == alive.len()
                    &&& new_players@.len() == alive.len()
                    &&& forall|t: int|
                        0 <= t < alive.len() ==> #[trigger] new_snakes@[t] == moved[alive[t]]
                            && new_players@[t] == pl[alive[t]]
                }),
            decreases n - i,
        {
            proof {
                lemma_alive_indices(g0, i as int);
                assert(moved.skip(i as int)[0] == moved[i as int]);
                assert(pl.skip(i as int)[0] == pl[i as int]);
            }
            let ghost ns0 = new_snakes@;
            let ghost np0 = new_players@;
            let s = self.snakes.remove(0);
            let p = self.players.remove(0);
            if !dead[i] {
                new_snakes.push(s);
                new_players.push(p);
            }
            proof {
                assert(self.snakes@ =~= moved.skip(i + 1));
                assert(self.players@ =~= pl.skip(i + 1));
                let ia = i as int;
                let alive0 = g0.alive_indices(ia);
                let alive1 = g0.alive_indices(ia + 1);
                if g0.dead_at(ia) {
                    assert(alive1 == alive0);
                } else {
                    assert(alive1 == alive0.push(ia));
                    assert(new_snakes@ == ns0.push(moved[ia]));
                    assert(new_players@ == np0.push(pl[ia]));
                    assert forall|t: int|
                        0 <= t < alive1.len() implies #[trigger] new_snakes@[t] == moved[alive1[t]]
                        && new_players@[t] == pl[alive1[t]] by {
                        if t < alive0.len() {
                            assert(new_snakes@[t] == ns0[t]);
                            assert(new_players@[t] == np0[t]);
                            assert(alive1[t] == alive0[t]);
                        } else {
                            assert(t == alive0.len());
                            assert(alive1[t] == ia);
                        }
                    }
                }
            }
            i = i + 1;
        }
        self.snakes = new_snakes;
        self.players = new_players;
        if self.snakes.len() == 0 {
            self.stop();
        }
        proof {
            lemma_alive_indices(g0, n as int);
            let alive = g0.alive_indices(n as int);
            assert forall|t1: int, t2: int|
                0 <= t1 < t2 < alive.len() implies (#[trigger] self.players@[t1])@ != (
            #[trigger] self.players@[t2])@ by {
                assert(0 <= alive[t1] < alive[t2] < n);
                assert(new_snakes@[t1] == moved[alive[t1]]);
                assert(new_snakes@[t2] == moved[alive[t2]]);
                assert(self.players@[t1] == g0.players@[alive[t1]]);
                assert(self.players@[t2] == g0.players@[alive[t2]]);
            }
            assert forall|t: int| 0 <= t < alive.len() implies (#[trigger] self.snakes@[t]).wf()
                && self.snakes@[t].field_width == self.width && self.snakes@[t].field_height
                == self.height by {
                assert(new_snakes@[t] == moved[alive[t]]);
                assert(self.snakes@[t] == moved[alive[t]]);
            }
            if g0.apple_eaten_spec() {
                lemma_free_cells_after_move(g0, mid);
                if exists|c: Cell|
                    c.in_bounds(g0.width, g0.height) && g0.cell_free_after_move(c) {
                    let c0 = choose|c: Cell|
                        c.in_bounds(g0.width, g0.height) && g0.cell_free_after_move(c);
                    assert(Game::cell_free(mid.snakes@, c0));
                    assert(exists|c: Cell|
                        c.in_bounds(mid.width, mid.height) && Game::cell_free(mid.snakes@, c));
                    let c1 = self.apple_position.unwrap();
                    assert(Game::cell_free(mid.snakes@, c1));
                    assert(g0.cell_free_after_move(c1));
                } else {
                    assert forall|c: Cell|
                        !(c.in_bounds(mid.width, mid.height) && #[trigger] Game::cell_free(
                            mid.snakes@,
                            c,
                        )) by {
                        if c.in_bounds(mid.width, mid.height) && Game::cell_free(mid.snakes@, c) {
                            assert(g0.cell_free_after_move(c));
                        }
                    }
                    assert(self.apple_position is None);
                }
            }
        }
    }

    /// Picks the new apple cell: a uniform draw over every cell the
    /// acceptance test admits — on no snake's body, except exactly a
    /// cell a tail just vacated. When the field offers no such cell the
    /// apple is cleared.
    pub fn respawn_apple(&mut self)
        requires
            old(self).wf(),
        ensures
            final(self).wf(),
            final(self).snakes == old(self).snakes,
            final(self).players == old(self).players,
            final(self).width == old(self).width,
            final(self).height == old(self).height,
            final(self).is_running == old(self).is_running,
            (exists|c: Cell|
                c.in_bounds(old(self).width, old(self).height) && Game::cell_free(
                    old(self).snakes@,
                    c,
                )) ==> (final(self).apple_position matches Some(c) && c.in_bounds(
                old(self).width,
                old(self).height,
            ) && Game::cell_free(old(self).snakes@, c)),
            !(exists|c: Cell|
                c.in_bounds(old(self).width, old(self).height) && Game::cell_free(
                    old(self).snakes@,
                    c,
                )) ==> final(self).apple_position is None,
    {
        let mut free: Vec<Cell> = Vec::new();
        let mut x: i8 = 0;
        while x < self.width
            invariant
                0 <= x <= self.width,
                *self == *old(self),
                forall|c: Cell|
                    (#[trigger] c.in_bounds(self.width, self.height)) && Game::cell_free(
                        self.snakes@,
                        c,
                    ) && c.x < x ==> free@.contains(c),
                forall|t: int|
                    0 <= t < free@.len() ==> (#[trigger] free@[t]).in_bounds(
                        self.width,
                        self.height,
                    ) && Game::cell_free(self.snakes@, free@[t]),
            decreases self.width - x,
        {
            let mut y: i8 = 0;
            while y < self.height
                invariant
                    0 <= x < self.width,
                    0 <= y <= self.height,
                    *self == *old(self),
                    forall|c: Cell|
                        (#[trigger] c.in_bounds(self.width, self.height)) && Game::cell_free(
                            self.snakes@,
                            c,
                        ) && (c.x < x || (c.x == x && c.y < y)) ==> free@.contains(c),
                    forall|t: int|
                        0 <= t < free@.len() ==> (#[trigger] free@[t]).in_bounds(
                            self.width,
                            self.height,
                        ) && Game::cell_free(self.snakes@, free@[t]),
                decreases self.height - y,
            {
                let candidate = Cell { x, y };
                let ghost free0 = free@;
                if self.is_cell_free(candidate) {
                    free.push(candidate);
                }
                proof {
                    assert forall|c: Cell|
                        (#[trigger] c.in_bounds(self.width, self.height)) && Game::cell_free(
                            self.snakes@,
                            c,
                        ) && (c.x < x || (c.x == x && c.y < y + 1)) implies free@.contains(c) by {
                        if c.x == x && c.y == y {
                            assert(c == candidate);
                            assert(free@[free@.len() - 1] == c);
                        } else {
                            assert(free0.contains(c));
                            let t = choose|t: int| 0 <= t < free0.len() && free0[t] == c;
                            assert(free@[t] == c);
                        }
                    }
                }
                y = y + 1;
            }
            x = x + 1;
        }
        if free.len() > 0 {
            let k = random_index(free.len());
            self.apple_position = Some(free[k]);
        } else {
            self.apple_position = None;
            proof {
                assert forall|c: Cell|
                    !(c.in_bounds(self.width, self.height) && Game::cell_free(
                        self.snakes@,
                        c,
                    )) by {
                    if c.in_bounds(self.width, self.height) && Game::cell_free(self.snakes@, c) {
                        assert(free@.contains(c));
                    }
                }
            }
        }
    }

    /// Runs the apple acceptance test for one candidate cell.
    fn is_cell_free(&self, c: Cell) -> (r: bool)
        ensures
            r == Game::cell_free(self.snakes@, c),
    {
        let mut blocked = false;
        let mut i: usize = 0;
        while i < self.snakes.len()
            invariant
                0 <= i <= self.snakes@.len(),
                blocked == exists|k: int|
                    0 <= k < i && (#[trigger] self.snakes@[k]).body@.contains(c)
                        && self.snakes@[k].prev_tail != Some(c),
            decreases self.snakes@.len() - i,
        {
            if self.snakes[i].body.collides_with(&c) {
                let tail_vacated = match self.snakes[i].prev_tail {
                    Some(t) => t.collides_with(&c),
                    None => false,
                };
                if !tail_vacated {
                    blocked = true;
                }
            }
            i = i + 1;
        }
        !blocked
    }

    /// True when the apple is set and some snake's head rests on it.
    fn check_apple_eaten(&self) -> (r: bool)
        requires
            forall|i: int| 0 <= i < self.snakes@.len() ==> (#[trigger] self.snakes@[i]).body@.len()
                >= 1,
        ensures
            r == self.apple_on_head(),
    {
        let a = match self.apple_position {
            None => {
                return false;
            },
            Some(a) => a,
        };
        let mut i: usize = 0;
        let mut found = false;
        while i < self.snakes.len()
            invariant
                0 <= i <= self.snakes@.len(),
                found == exists|k: int|
                    0 <= k < i && (#[trigger] self.snakes@[k]).head_spec() == a,
            decreases self.snakes@.len() - i,
        {
            let h = self.snakes[i].head();
            if h.collides_with(&a) {
                found = true;
            }
            i = i + 1;
        }
        found
    }

}


/// The indices `alive_indices` keeps are strictly increasing slots
/// below `k`, and each names a snake the tick does not kill.
pub proof fn lemma_alive_indices(g: Game, k: int)
    requires
        0 <= k,
    ensures
        g.alive_indices(k).len() <= k,
        forall|t: int| 0 <= t < g.alive_indices(k).len() ==> 0 <= #[trigger] g.alive_indices(k)[t]
            < k,
        forall|t1: int, t2: int|
            0 <= t1 < t2 < g.alive_indices(k).len() ==> g.alive_indices(k)[t1] < g.alive_indices(
                k,
            )[t2],
        forall|t: int| 0 <= t < g.alive_indices(k).len() ==> !g.dead_at(
            #[trigger] g.alive_indices(k)[t],
        ),
    decreases k,
{
    if k > 0 {
        lemma_alive_indices(g, k - 1);
    }
}

/// After every snake has moved, the apple acceptance test on the new
/// state is the acceptance test `cell_free_after_move` states on the
/// old one.
proof fn lemma_free_cells_after_move(g0: Game, mid: Game)
    requires
        mid.snakes@.len() == g0.snakes@.len(),
        mid.width == g0.width,
        mid.height == g0.height,
        forall|k: int|
            0 <= k < g0.snakes@.len() ==> g0.snakes@[k].moves_to(
                g0.snakes@[k].apple_ahead(g0.apple_position),
                #[trigger] mid.snakes@[k],
            ),
    ensures
        forall|c: Cell| #[trigger]
            Game::cell_free(mid.snakes@, c) == g0.cell_free_after_move(c),
{
    assert forall|c: Cell| #[trigger]
        Game::cell_free(mid.snakes@, c) == g0.cell_free_after_move(c) by {
        if Game::cell_free(mid.snakes@, c) {
            assert forall|i: int|
                0 <= i < g0.snakes@.len() && (#[trigger] g0.snakes@[i]).moved_body(
                    g0.snakes@[i].apple_ahead(g0.apple_position),
                ).contains(c) implies g0.snakes@[i].moved_prev_tail(
                g0.snakes@[i].apple_ahead(g0.apple_position),
            ) == Some(c) by {
                assert(mid.snakes@[i].body@.contains(c));
            }
        }
        if g0.cell_free_after_move(c) {
            assert forall|i: int|
                0 <= i < mid.snakes@.len() && (#[trigger] mid.snakes@[i]).body@.contains(c)
                implies mid.snakes@[i].prev_tail == Some(c) by {
                assert(g0.snakes@[i].moved_body(
                    g0.snakes@[i].apple_ahead(g0.apple_position),
                ).contains(c));
            }
        }
    }
}

/// A snake judged dead this tick is gone: no surviving slot names it.
pub proof fn lemma_dead_removed(g: Game, i: int)
    requires
        0 <= i < g.snakes@.len(),
        g.dead_at(i),
    ensures
        forall|t: int|
            0 <= t < g.alive_indices(g.snakes@.len() as int).len() ==> #[trigger] g.alive_indices(
                g.snakes@.len() as int,
            )[t] != i,
{
    lemma_alive_indices(g, g.snakes@.len() as int);
}

/// Two snakes whose next head cells meet both die this tick, whatever
/// else stands on the field: the mutual head-on collision is symmetric.
pub proof fn lemma_mutual_head_on(g: Game, i: int, j: int)
    requires
        g.wf(),
        0 <= i < g.snakes@.len(),
        0 <= j < g.snakes@.len(),
        i != j,
        g.snakes@[i].peek_spec() == g.snakes@[j].peek_spec(),
    ensures
        g.dead_at(i),
        g.dead_at(j),
{
    let si = g.snakes@[i];
    let sj = g.snakes@[j];
    let ai = si.apple_ahead(g.apple_position);
    let aj = sj.apple_ahead(g.apple_position);
    assert(si.moved_body(ai)[0] == si.peek_spec());
    assert(sj.moved_body(aj)[0] == sj.peek_spec());
    assert(sj.moved_body(aj).contains(si.peek_spec()));
    assert(si.moved_body(ai).contains(sj.peek_spec()));
}

/// Relies on `rand::thread_rng` and `rand::Rng::gen_range`: a sample
/// from the half-open range `0..bound` lies in that range; the range is
/// nonempty, so the call does not panic. Nothing more is assumed of the
/// drawn value.
#[verifier::external_body]
fn random_index(bound: usize) -> (r: usize)
    requires
        0 < bound,
    ensures
        0 <= r < bound,
{
    rand::thread_rng().gen_range(0..bound)
}

/// Every cell of a starting layout lies on the field.
pub proof fn lemma_layout_wf(index: int, w: i8, h: i8)
    requires
        0 <= index < 4,
        5 <= w <= 100,
        5 <= h <= 100,
    ensures
        Snake::layout_body(index, w, h).len() == 3,
        forall|t: int|
            0 <= t < 3 ==> (#[trigger] Snake::layout_body(index, w, h)[t]).in_bounds(w, h),
{
}

} // verus!
