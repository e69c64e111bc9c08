//! The text command protocol and the snapshot a game emits after every
//! mutating event.
use vstd::prelude::*;
use vstd::string::*;
use crate::cell::{Cell, Direction};
use crate::game::Game;
use crate::snake::Snake;

verus! {

/// The comma-separated fields of a line, in order. A line without a
/// comma is one field; every comma ends a field, so a trailing comma
/// yields a final empty field.
pub open spec fn split_spec(s: Seq<char>) -> Seq<Seq<char>>
    decreases s.len(),
{
    if s.len() == 0 {
        seq![Seq::<char>::empty()]
    } else if s[0] == ',' {
        seq![Seq::<char>::empty()] + split_spec(s.skip(1))
    } else {
        let r = split_spec(s.skip(1));
        seq![seq![s[0]] + r[0]] + r.skip(1)
    }
}

/// A split always yields at least one field.
pub proof fn lemma_split_len(s: Seq<char>)
    ensures
        split_spec(s).len() >= 1,
    decreases s.len(),
{
    if s.len() > 0 && s[0] != ',' {
        lemma_split_len(s.skip(1));
    }
}

/// A comma-free line is one single field.
proof fn lemma_split_nocomma(s: Seq<char>)
    requires
        forall|k: int| 0 <= k < s.len() ==> s[k] != ',',
    ensures
        split_spec(s) == seq![s],
    decreases s.len(),
{
    if s.len() == 0 {
        assert(s =~= Seq::<char>::empty());
        assert(split_spec(s) =~= seq![s]);
    } else {
        lemma_split_nocomma(s.skip(1));
        lemma_split_len(s.skip(1));
        let r = split_spec(s.skip(1));
        assert(r[0] == s.skip(1));
        assert(seq![s[0]] + s.skip(1) =~= s);
        assert(r.skip(1) =~= Seq::<Seq<char>>::empty());
        assert(split_spec(s) =~= seq![s]);
    }
}

/// Splitting at the first comma: a comma-free prefix is the first
/// field, and the rest splits on its own.
proof fn lemma_split_prefix(a: Seq<char>, b: Seq<char>)
    requires
        forall|k: int| 0 <= k < a.len() ==> a[k] != ',',
    ensures
        split_spec(a + seq![','] + b) == seq![a] + split_spec(b),
    decreases a.len(),
{
    let s = a + seq![','] + b;
    if a.len() == 0 {
        assert(s[0] == ',');
        assert(s.skip(1) =~= b);
        assert(a =~= Seq::<char>::empty());
        assert(split_spec(s) =~= seq![a] + split_spec(b));
    } else {
        assert(s[0] == a[0]);
        assert(s[0] != ',');
        assert(s.skip(1) =~= a.skip(1) + seq![','] + b);
        lemma_split_prefix(a.skip(1), b);
        lemma_split_len(b);
        let r = split_spec(s.skip(1));
        assert(r == seq![a.skip(1)] + split_spec(b));
        assert(r[0] == a.skip(1));
        assert(seq![s[0]] + r[0] =~= a);
        assert(r.skip(1) =~= split_spec(b));
        assert(split_spec(s) =~= seq![a] + split_spec(b));
    }
}

/// Whether two pieces of text carry the same characters.
pub(crate) fn str_eq(a: &str, b: &str) -> (r: bool)
    ensures
        r == (a@ == b@),
{
    let x = String::from_str(a);
    let y = String::from_str(b);
    x == y
}

/// Cuts a line into its comma-separated fields.
pub fn split_commas(s: &str) -> (parts: Vec<String>)
    ensures
        parts@.map_values(|p: String| p@) == split_spec(s@),
        parts@.len() >= 1,
{
    let n = s.unicode_len();
    let mut parts: Vec<String> = Vec::new();
    let mut start: usize = 0;
    let mut i: usize = 0;
    proof {
        assert(parts@.map_values(|p: String| p@) =~= Seq::<Seq<char>>::empty());
        assert(s@.skip(0) =~= s@);
        assert(Seq::<Seq<char>>::empty() + split_spec(s@) =~= split_spec(s@));
    }
    while i < n
        invariant
            0 <= start <= i <= n,
            n == s@.len(),
            parts@.map_values(|p: String| p@) + split_spec(s@.skip(start as int)) == split_spec(
                s@,
            ),
            forall|k: int| start <= k < i ==> s@[k] != ',',
        decreases n - i,
    {
        let c = s.get_char(i);
        if c == ',' {
            let seg = s.substring_char(start, i);
            let ghost parts0 = parts@;
            parts.push(String::from_str(seg));
            proof {
                lemma_split_prefix(s@.subrange(start as int, i as int), s@.skip(i + 1));
                assert(s@.skip(start as int) =~= s@.subrange(start as int, i as int) + seq![',']
                    + s@.skip(i + 1));
                assert(parts@.map_values(|p: String| p@) =~= parts0.map_values(|p: String| p@)
                    + seq![seg@]);
                assert(parts@.map_values(|p: String| p@) + split_spec(s@.skip(i + 1))
                    =~= parts0.map_values(|p: String| p@) + split_spec(s@.skip(start as int)));
            }
            start = i + 1;
        }
        i = i + 1;
    }
    let seg = s.substring_char(start, n);
    let ghost parts0 = parts@;
    parts.push(String::from_str(seg));
    proof {
        lemma_split_nocomma(s@.skip(start as int));
        assert(s@.skip(start as int) =~= s@.subrange(start as int, n as int));
        assert(parts@.map_values(|p: String| p@) =~= parts0.map_values(|p: String| p@)
            + seq![seg@]);
        assert(parts@.map_values(|p: String| p@) =~= split_spec(s@));
        lemma_split_len(s@);
    }
    parts
}

/// One decoded line of the command protocol.
pub enum Command {
    /// `add,<id>`: add a player.
    AddPlayer(String),
    /// `start`: spawn the first apple and run.
    Start,
    /// `ch,<id>,<direction>`: request a turn; an unrecognized direction
    /// word is carried as `None` and ignored.
    ChangeDirection(String, Option<Direction>),
    /// `quit,<id>`: remove a player and its snake.
    Quit(String),
    /// An unknown verb, or `add` without an identifier: ignored.
    Noop,
    /// `ch` or `quit` without their required fields: client misuse.
    Malformed,
}

/// The direction a protocol word names, if any.
pub open spec fn direction_of_word(w: Seq<char>) -> Option<Direction> {
    if w == "up"@ {
        Some(Direction::Up)
    } else if w == "down"@ {
        Some(Direction::Down)
    } else if w == "left"@ {
        Some(Direction::Left)
    } else if w == "right"@ {
        Some(Direction::Right)
    } else {
        None
    }
}

/// How a line of text reads as a command.
pub open spec fn parses_to(input: Seq<char>, c: Command) -> bool {
    let parts = split_spec(input);
    if parts[0] == "add"@ {
        if parts.len() >= 2 {
            c matches Command::AddPlayer(id) && id@ == parts[1]
        } else {
            c is Noop
        }
    } else if parts[0] == "start"@ {
        c is Start
    } else if parts[0] == "ch"@ {
        if parts.len() >= 3 {
            c matches Command::ChangeDirection(id, d) && id@ == parts[1] && d
                == direction_of_word(parts[2])
        } else {
            c is Malformed
        }
    } else if parts[0] == "quit"@ {
        if parts.len() >= 2 {
            c matches Command::Quit(id) && id@ == parts[1]
        } else {
            c is Malformed
        }
    } else {
        c is Noop
    }
}

/// Decodes one line into a command.
pub fn parse_command(input: &str) -> (c: Command)
    ensures
        parses_to(input@, c),
{
    let parts = split_commas(input);
    proof {
        assert(parts@[0]@ == split_spec(input@)[0]);
    }
    if str_eq(parts[0].as_str(), "add") {
        if parts.len() >= 2 {
            proof {
                assert(parts@[1]@ == split_spec(input@)[1]);
            }
            Command::AddPlayer(parts[1].clone())
        } else {
            Command::Noop
        }
    } else if str_eq(parts[0].as_str(), "start") {
        Command::Start
    } else if str_eq(parts[0].as_str(), "ch") {
        if parts.len() >= 3 {
            proof {
                assert(parts@[1]@ == split_spec(input@)[1]);
                assert(parts@[2]@ == split_spec(input@)[2]);
            }
            let d = if str_eq(parts[2].as_str(), "up") {
                Some(Direction::Up)
            } else if str_eq(parts[2].as_str(), "down") {
                Some(Direction::Down)
            } else if str_eq(parts[2].as_str(), "left") {
                Some(Direction::Left)
            } else if str_eq(parts[2].as_str(), "right") {
                Some(Direction::Right)
            } else {
                None
            };
            Command::ChangeDirection(parts[1].clone(), d)
        } else {
            Command::Malformed
        }
    } else if str_eq(parts[0].as_str(), "quit") {
        if parts.len() >= 2 {
            proof {
                assert(parts@[1]@ == split_spec(input@)[1]);
            }
            Command::Quit(parts[1].clone())
        } else {
            Command::Malformed
        }
    } else {
        Command::Noop
    }
}

/// What one command does to a game.
pub open spec fn command_applied(pre: Game, c: Command, post: Game) -> bool {
    match c {
        Command::AddPlayer(id) => {
            &&& post.players@ == pre.players@.push(id)
            &&& post.snakes@.len() == pre.snakes@.len() + 1
            &&& forall|t: int|
                0 <= t < pre.snakes@.len() ==> #[trigger] post.snakes@[t] == pre.snakes@[t]
            &&& ({
                let k = pre.snakes@.len() as int;
                let ns = post.snakes@[k];
                &&& ns.body@ == Snake::layout_body(k, pre.width, pre.height)
                &&& ns.current_direction == Snake::layout_direction(k)
                &&& ns.prev_tail is None
                &&& !ns.direction_locked
            })
            &&& post.width == pre.width
            &&& post.height == pre.height
            &&& post.is_running == pre.is_running
            &&& post.apple_position == pre.apple_position
        },
        Command::Start => {
            &&& post.is_running
            &&& post.snakes == pre.snakes
            &&& post.players == pre.players
            &&& post.width == pre.width
            &&& post.height == pre.height
            &&& ((exists|c: Cell|
                c.in_bounds(pre.width, pre.height) && Game::cell_free(pre.snakes@, c)) ==> (
            post.apple_position matches Some(c) && c.in_bounds(pre.width, pre.height)
                && Game::cell_free(pre.snakes@, c)))
            &&& (!(exists|c: Cell|
                c.in_bounds(pre.width, pre.height) && Game::cell_free(pre.snakes@, c))
                ==> post.apple_position is None)
        },
        Command::ChangeDirection(id, d) => {
            let i = pre.player_index(id@);
            match d {
                Some(dir) => {
                    &&& post.snakes@ == pre.snakes@.update(i, pre.snakes@[i].change_dir_spec(dir))
                    &&& post.players == pre.players
                    &&& post.width == pre.width
                    &&& post.height == pre.height
                    &&& post.is_running == pre.is_running
                    &&& post.apple_position == pre.apple_position
                },
                None => post == pre,
            }
        },
        Command::Quit(id) => {
            let i = pre.player_index(id@);
            &&& post.players@ == pre.players@.remove(i)
            &&& post.snakes@ == pre.snakes@.remove(i)
            &&& post.width == pre.width
            &&& post.height == pre.height
            &&& post.is_running == pre.is_running
            &&& post.apple_position == pre.apple_position
        },
        Command::Noop => post == pre,
        Command::Malformed => false,
    }
}

impl Game {
    /// The slot that carries this player identifier.
    fn find_player(&self, id: &String) -> (idx: usize)
        requires
            self.wf(),
            self.has_player(id@),
        ensures
            idx < self.players@.len(),
            self.players@[idx as int]@ == id@,
            idx as int == self.player_index(id@),
    {
        let n = self.players.len();
        let mut i: usize = 0;
        while i < n
            invariant
                0 <= i <= n,
                n == self.players@.len(),
                forall|k: int| 0 <= k < i ==> (#[trigger] self.players@[k])@ != id@,
            decreases n - i,
        {
            if str_eq(self.players[i].as_str(), id.as_str()) {
                proof {
                    let w = self.player_index(id@);
                    assert(0 <= w < self.players@.len() && self.players@[w]@ == id@);
                    if w != i as int {
                        assert(self.players@[w]@ != self.players@[i as int]@);
                    }
                }
                return i;
            }
            i = i + 1;
        }
        proof {
            let w = choose|w: int| 0 <= w < self.players@.len() && (#[trigger] self.players@[w])@
                == id@;
            assert(false);
        }
        0
    }

    /// Applies one decoded command. Client misuse — a malformed line, a
    /// duplicate or unknown identifier, a fifth player — is ruled out
    /// here; the process boundary refuses it exactly as the protocol
    /// demands.
    pub fn apply_command(&mut self, c: Command)
        requires
            old(self).wf(),
            (c matches Command::AddPlayer(id) ==> !old(self).has_player(id@) && old(
                self,
            ).players@.len() < 4),
            (c matches Command::ChangeDirection(id, d) ==> old(self).has_player(id@)),
            (c matches Command::Quit(id) ==> old(self).has_player(id@)),
            !(c is Malformed),
        ensures
            final(self).wf(),
            command_applied(*old(self), c, *final(self)),
    {
        match c {
            Command::AddPlayer(id) => {
                self.add_player(id);
            },
            Command::Start => {
                self.start();
            },
            Command::ChangeDirection(id, d) => {
                match d {
                    Some(dir) => {
                        let idx = self.find_player(&id);
                        let ghost pre = *self;
                        let mut s = self.snakes.remove(idx);
                        s.change_direction(dir);
                        self.snakes.insert(idx, s);
                        proof {
                            assert(self.snakes@ =~= pre.snakes@.update(
                                idx as int,
                                pre.snakes@[idx as int].change_dir_spec(dir),
                            ));
                            assert forall|k: int|
                                0 <= k < self.snakes@.len() implies (
                            #[trigger] self.snakes@[k]).wf() && self.snakes@[k].field_width
                                == self.width && self.snakes@[k].field_height == self.height by {
                                assert(pre.snakes@[k].wf());
                            }
                        }
                    },
                    None => {},
                }
            },
            Command::Quit(id) => {
                let idx = self.find_player(&id);
                let ghost pre = *self;
                self.players.remove(idx);
                self.snakes.remove(idx);
                proof {
                    assert forall|i: int, j: int|
                        0 <= i < j < self.players@.len() implies (
                    #[trigger] self.players@[i])@ != (#[trigger] self.players@[j])@ by {
                        let pi = if i < idx as int { i } else { i + 1 };
                        let pj = if j < idx as int { j } else { j + 1 };
                        assert(self.players@[i] == pre.players@[pi]);
                        assert(self.players@[j] == pre.players@[pj]);
                    }
                    assert forall|k: int|
                        0 <= k < self.snakes@.len() implies (#[trigger] self.snakes@[k]).wf()
                        && self.snakes@[k].field_width == self.width
                        && self.snakes@[k].field_height == self.height by {
                        let pk = if k < idx as int { k } else { k + 1 };
                        assert(self.snakes@[k] == pre.snakes@[pk]);
                        assert(pre.snakes@[pk].wf());
                    }
                }
            },
            Command::Noop => {},
            Command::Malformed => {},
        }
    }
}

/// Takes one line of the command protocol and applies it to the state.
pub trait MessageReciever {
    /// The lines the receiver accepts in its current state.
    spec fn input_allowed(&self, input: Seq<char>) -> bool;

    /// How the state after the call reads against the line.
    spec fn input_applied(pre: &Self, input: Seq<char>, post: &Self) -> bool;

    /// Decodes one line and applies it.
    fn handle_input(&mut self, input: String)
        requires
            old(self).input_allowed(input@),
        ensures
            Self::input_applied(old(self), input@, final(self)),
    ;
}

impl MessageReciever for Game {
    /// The game is well formed; an added identifier is new and a slot
    /// is open; `ch` and `quit` name their fields and a known player.
    open spec fn input_allowed(&self, input: Seq<char>) -> bool {
        let parts = split_spec(input);
        &&& self.wf()
        &&& (parts[0] == "add"@ && parts.len() >= 2 ==> !self.has_player(parts[1])
            && self.players@.len() < 4)
        &&& (parts[0] == "ch"@ ==> parts.len() >= 3 && self.has_player(parts[1]))
        &&& (parts[0] == "quit"@ ==> parts.len() >= 2 && self.has_player(parts[1]))
    }

    /// Some command the line reads as was applied.
    open spec fn input_applied(pre: &Game, input: Seq<char>, post: &Game) -> bool {
        &&& post.wf()
        &&& exists|c: Command| parses_to(input, c) && command_applied(*pre, c, *post)
    }

    fn handle_input(&mut self, input: String) {
        let cmd = parse_command(input.as_str());
        proof {
            lemma_split_len(input@);
        }
        let ghost gcmd = cmd;
        self.apply_command(cmd);
        proof {
            assert(parses_to(input@, gcmd) && command_applied(*old(self), gcmd, *self));
        }
    }
}

/// The character for one decimal digit.
pub open spec fn digit_char(d: int) -> char {
    if d == 0 {
        '0'
    } else if d == 1 {
        '1'
    } else if d == 2 {
        '2'
    } else if d == 3 {
        '3'
    } else if d == 4 {
        '4'
    } else if d == 5 {
        '5'
    } else if d == 6 {
        '6'
    } else if d == 7 {
        '7'
    } else if d == 8 {
        '8'
    } else {
        '9'
    }
}

/// The decimal notation of a nonnegative number, no leading zeros.
pub open spec fn dec_spec(n: int) -> Seq<char>
    decreases n,
{
    if n < 10 {
        seq![digit_char(n)]
    } else {
        dec_spec(n / 10).push(digit_char(n % 10))
    }
}

/// One decimal digit as text.
fn digit_str(d: u8) -> (r: &'static str)
    requires
        d < 10,
    ensures
        r@ == seq![digit_char(d as int)],
{
    proof {
        reveal_strlit("0");
        reveal_strlit("1");
        reveal_strlit("2");
        reveal_strlit("3");
        reveal_strlit("4");
        reveal_strlit("5");
        reveal_strlit("6");
        reveal_strlit("7");
        reveal_strlit("8");
        reveal_strlit("9");
    }
    let r = match d {
        0 => "0",
        1 => "1",
        2 => "2",
        3 => "3",
        4 => "4",
        5 => "5",
        6 => "6",
        7 => "7",
        8 => "8",
        _ => "9",
    };
    proof {
        assert(r@ =~= seq![digit_char(d as int)]);
    }
    r
}

/// The decimal notation of one byte-sized number.
fn dec_u8(n: u8) -> (r: String)
    ensures
        r@ == dec_spec(n as int),
{
    if n < 10 {
        String::from_str(digit_str(n))
    } else if n < 100 {
        let mut s = String::from_str(digit_str(n / 10));
        s.append(digit_str(n % 10));
        proof {
            assert(dec_spec((n / 10) as int) == seq![digit_char((n / 10) as int)]);
            assert(dec_spec(n as int) == dec_spec(n as int / 10).push(digit_char(n as int % 10)));
            assert(s@ =~= dec_spec(n as int));
        }
        s
    } else {
        let q = n / 10;
        let mut s = String::from_str(digit_str(q / 10));
        s.append(digit_str(q % 10));
        s.append(digit_str(n % 10));
        proof {
            assert(dec_spec((q / 10) as int) == seq![digit_char((q / 10) as int)]);
            assert(dec_spec(q as int) == dec_spec(q as int / 10).push(digit_char(q as int % 10)));
            assert(dec_spec(n as int) == dec_spec(n as int / 10).push(digit_char(n as int % 10)));
            assert(n as int / 10 == q as int);
            assert(s@ =~= dec_spec(n as int));
        }
        s
    }
}

/// A cell in the snapshot notation: the two coordinates joined by `x`.
pub open spec fn cell_str(c: Cell) -> Seq<char> {
    dec_spec(c.x as int) + seq!['x'] + dec_spec(c.y as int)
}

/// Renders one cell.
fn render_cell(c: Cell) -> (r: String)
    requires
        c.x >= 0,
        c.y >= 0,
    ensures
        r@ == cell_str(c),
{
    let mut s = dec_u8(c.x as u8);
    s.append("x");
    let t = dec_u8(c.y as u8);
    s.append(t.as_str());
    proof {
        reveal_strlit("x");
        assert("x"@ =~= seq!['x']);
        assert(s@ =~= cell_str(c));
    }
    s
}

/// A body in the snapshot notation: its cells, head first, joined by
/// commas.
pub open spec fn body_str(b: Seq<Cell>) -> Seq<char>
    decreases b.len(),
{
    if b.len() == 0 {
        Seq::empty()
    } else if b.len() == 1 {
        cell_str(b[0])
    } else {
        body_str(b.drop_last()) + seq![','] + cell_str(b.last())
    }
}

/// A snake in the snapshot notation: its body, then `+` and the cell
/// its tail vacated, when one is recorded.
pub open spec fn snake_str(s: Snake) -> Seq<char> {
    body_str(s.body@) + (match s.prev_tail {
        Some(c) => seq!['+'] + cell_str(c),
        None => Seq::<char>::empty(),
    })
}

/// Renders one snake.
fn render_snake(s: &Snake) -> (r: String)
    requires
        s.wf(),
    ensures
        r@ == snake_str(*s),
{
    let n = s.body.len();
    let mut out = render_cell(s.body[0]);
    proof {
        assert(out@ =~= body_str(s.body@.take(1)));
    }
    let mut i: usize = 1;
    while i < n
        invariant
            1 <= i <= n,
            n == s.body@.len(),
            out@ == body_str(s.body@.take(i as int)),
        decreases n - i,
    {
        out.append(",");
        let cs = render_cell(s.body[i]);
        out.append(cs.as_str());
        proof {
            reveal_strlit(",");
            assert(","@ =~= seq![',']);
            assert(s.body@.take(i + 1).drop_last() =~= s.body@.take(i as int));
            assert(s.body@.take(i + 1).last() == s.body@[i as int]);
            assert(out@ =~= body_str(s.body@.take(i + 1)));
        }
        i = i + 1;
    }
    proof {
        assert(s.body@.take(n as int) =~= s.body@);
    }
    match s.prev_tail {
        Some(c) => {
            out.append("+");
            let cs = render_cell(c);
            out.append(cs.as_str());
            proof {
                reveal_strlit("+");
                assert("+"@ =~= seq!['+']);
                assert(out@ =~= snake_str(*s));
            }
        },
        None => {
            proof {
                assert(out@ =~= snake_str(*s));
            }
        },
    }
    out
}

/// The snapshot a game emits after a mutating event.
pub enum OutMessage {
    /// Before the game runs: the field size as `WxH` and the number of
    /// players in the lobby.
    Init { field: String, player_count: usize },
    /// While the game runs: each player's snake in body notation, and
    /// the apple cell, or empty text when no apple is set.
    GameState { players: Vec<(String, String)>, ap: String },
}

/// Renders the state a receiver observes.
pub trait MessageProducer {
    /// The states a snapshot can be taken of.
    spec fn message_ready(&self) -> bool;

    /// How a snapshot reads against the state.
    spec fn message_ok(&self, m: OutMessage) -> bool;

    /// Takes one snapshot.
    fn output_message(&self) -> (m: OutMessage)
        requires
            self.message_ready(),
        ensures
            self.message_ok(m),
    ;
}

impl MessageProducer for Game {
    /// Snapshots are taken of well-formed games.
    open spec fn message_ready(&self) -> bool {
        self.wf()
    }

    /// Not running: the field size and the player count. Running: every
    /// player's identifier with its rendered snake, in slot order, and
    /// the rendered apple cell or empty text.
    open spec fn message_ok(&self, m: OutMessage) -> bool {
        if !self.is_running {
            m matches OutMessage::Init { field, player_count } && field@ == cell_str(
                Cell { x: self.width, y: self.height },
            ) && player_count == self.players@.len()
        } else {
            m matches OutMessage::GameState { players, ap } && ap@ == (
            match self.apple_position {
                Some(c) => cell_str(c),
                None => Seq::<char>::empty(),
            }) && players@.len() == self.players@.len() && forall|i: int|
                0 <= i < players@.len() ==> (#[trigger] players@[i]).0@ == self.players@[i]@
                    && players@[i].1@ == snake_str(self.snakes@[i])
        }
    }

    fn output_message(&self) -> (m: OutMessage) {
        if !self.is_running {
            let field = render_cell(Cell { x: self.width, y: self.height });
            return OutMessage::Init { field, player_count: self.players.len() };
        }
        let ap = match self.apple_position {
            Some(c) => render_cell(c),
            None => String::new(),
        };
        let mut players: Vec<(String, String)> = Vec::new();
        let n = self.players.len();
        let mut i: usize = 0;
        while i < n
            invariant
                0 <= i <= n,
                n == self.players@.len(),
                players@.len() == i,
                forall|k: int|
                    0 <= k < i ==> (#[trigger] players@[k]).0@ == self.players@[k]@
                        && players@[k].1@ == snake_str(self.snakes@[k]),
            decreases n - i,
        {
            let id = self.players[i].clone();
            let body = render_snake(&self.snakes[i]);
            players.push((id, body));
            i = i + 1;
        }
        OutMessage::GameState { players, ap }
    }
}

} // verus!
