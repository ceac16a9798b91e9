use std::collections::HashSet;
use vstd::prelude::*;
use vstd::arithmetic::div_mod::lemma_mod_pos_bound;
use vstd::set_lib::{lemma_len_subset, lemma_set_disjoint_lens};

use crate::text::{decimal_u32, parse_u32, trim, trimmed};
use crate::board::{
    board_has_line, completes_line, line_completed_by, other, same3, same_cells, turn_from_draw, Cell,
    Turn,
};

verus! {

broadcast use vstd::std_specs::hash::group_hash_axioms;

/// The abstract state of a game: the nine cells (cell `m` at index `m - 1`),
/// the cells each side has claimed, and whose move it is.
pub struct GameView {
    pub cells: Seq<Cell>,
    pub player: Set<u32>,
    pub bot: Set<u32>,
    pub turn: Turn,
}

impl GameView {
    /// The cell with move number `m`.
    pub open spec fn cell(self, m: u32) -> Cell {
        self.cells[m as int - 1]
    }

    /// Neither side has claimed `m`.
    pub open spec fn is_free(self, m: u32) -> bool {
        !self.player.contains(m) && !self.bot.contains(m)
    }

    /// `m` is a move number on the board that neither side has claimed.
    pub open spec fn is_valid(self, m: u32) -> bool {
        1 <= m <= 9 && self.is_free(m)
    }

    /// The board and the move sets agree: move sets only hold move numbers,
    /// and a cell carries a side's mark exactly when that side has claimed it.
    pub open spec fn wf(self) -> bool {
        &&& self.cells.len() == 9
        &&& forall|m: u32| #[trigger] self.player.contains(m) ==> 1 <= m <= 9
        &&& forall|m: u32| #[trigger] self.bot.contains(m) ==> 1 <= m <= 9
        &&& forall|m: u32|
            1 <= m <= 9 ==> {
                &&& (#[trigger] self.cell(m) == Cell::Marked(Turn::Player) <==> self.player.contains(m))
                &&& (self.cell(m) == Cell::Marked(Turn::Bot) <==> self.bot.contains(m))
            }
    }

    /// The number of claimed cells, over both sides.
    pub open spec fn claimed(self) -> nat {
        self.player.len() + self.bot.len()
    }

    /// All nine cells are claimed.
    pub open spec fn is_full(self) -> bool {
        self.claimed() == 9
    }

    /// A line of the board carries three identical marks.
    pub open spec fn is_won(self) -> bool {
        board_has_line(self.cells)
    }

    /// The state after `side` claims cell `m`; the turn does not change.
    pub open spec fn with_move(self, m: u32, side: Turn) -> GameView {
        GameView {
            cells: self.cells.update(m as int - 1, Cell::Marked(side)),
            player: if side == Turn::Player { self.player.insert(m) } else { self.player },
            bot: if side == Turn::Bot { self.bot.insert(m) } else { self.bot },
            turn: self.turn,
        }
    }

    /// Scanning upward from cell `k`, the first free cell that completes a
    /// line for a side that owns the cells `s`.
    pub open spec fn first_completing(self, s: Set<u32>, k: u32) -> Option<u32>
        decreases 10 - k,
    {
        if k <= 9 {
            if self.is_free(k) && completes_line(s, k) {
                Some(k)
            } else {
                self.first_completing(s, (k + 1) as u32)
            }
        } else {
            None
        }
    }

    /// The free cells among 1 through `k`, in ascending order.
    pub open spec fn free_upto(self, k: u32) -> Seq<u32>
        decreases k,
    {
        if k == 0 {
            Seq::empty()
        } else if self.is_free(k) {
            self.free_upto((k - 1) as u32).push(k)
        } else {
            self.free_upto((k - 1) as u32)
        }
    }

    /// The bot's move: the first cell that wins for the bot; failing that,
    /// the first cell that blocks a line of the player; failing that, the
    /// free cell that the number `draw` selects.
    pub open spec fn bot_choice(self, draw: u32) -> u32 {
        match self.first_completing(self.bot, 1) {
            Some(m) => m,
            None => match self.first_completing(self.player, 1) {
                Some(m) => m,
                None => self.free_upto(9)[(draw as int) % (self.free_upto(9).len() as int)],
            },
        }
    }

    /// The move that the text `t` names: `NotANumber` where `t` is no
    /// unsigned decimal number, `Unavailable` where the number is off the
    /// board or its cell is claimed.
    pub open spec fn move_from_text(self, t: Seq<char>) -> Result<u32, MoveError> {
        match decimal_u32(t) {
            None => Err(MoveError::NotANumber),
            Some(n) => if self.is_valid(n) {
                Ok(n)
            } else {
                Err(MoveError::Unavailable)
            },
        }
    }

    /// The state at the start of a game: nine empty cells, no claimed cells.
    pub open spec fn is_fresh(self) -> bool {
        &&& self.cells == Seq::new(9, |k: int| Cell::Empty)
        &&& self.player == Set::<u32>::empty()
        &&& self.bot == Set::<u32>::empty()
    }
}

/// Every move number, 1 through 9.
pub open spec fn all_cells() -> Set<u32> {
    Set::new(|m: u32| 1 <= m <= 9)
}

proof fn lemma_all_cells_len()
    ensures
        all_cells().finite(),
        all_cells().len() == 9,
{
    assert(all_cells() =~= set![1u32, 2, 3, 4, 5, 6, 7, 8, 9]);
}

/// In every well-formed state the two sides have claimed disjoint sets of cells.
pub proof fn lemma_moves_disjoint(v: GameView)
    requires
        v.wf(),
    ensures
        v.player.disjoint(v.bot),
{
    assert forall|m: u32| v.player.contains(m) implies !v.bot.contains(m) by {
        assert(v.cell(m) == Cell::Marked(Turn::Player));
    }
}

/// In every well-formed state a cell holds a mark exactly when one side,
/// and only one, has claimed it.
pub proof fn lemma_marked_iff_claimed_once(v: GameView, m: u32)
    requires
        v.wf(),
        1 <= m <= 9,
    ensures
        (v.cell(m) != Cell::Empty) <==> (v.player.contains(m) != v.bot.contains(m)),
{
}

/// The claimed cells are finite, at most nine, and fewer than nine exactly
/// when some cell is still free.
pub proof fn lemma_claimed_count(v: GameView)
    requires
        v.wf(),
    ensures
        v.player.finite(),
        v.bot.finite(),
        v.claimed() <= 9,
        !v.is_full() <==> exists|m: u32| v.is_valid(m),
{
    lemma_all_cells_len();
    lemma_moves_disjoint(v);
    let both = v.player + v.bot;
    assert(both.subset_of(all_cells()));
    lemma_len_subset(both, all_cells());
    lemma_len_subset(v.player, both);
    lemma_len_subset(v.bot, both);
    lemma_set_disjoint_lens(v.player, v.bot);
    if exists|m: u32| v.is_valid(m) {
        let m = choose|m: u32| v.is_valid(m);
        assert(both.subset_of(all_cells().remove(m)));
        lemma_len_subset(both, all_cells().remove(m));
    } else {
        assert forall|m: u32| all_cells().contains(m) implies both.contains(m) by {
            assert(!v.is_valid(m));
        }
        lemma_len_subset(all_cells(), both);
    }
}

/// The scan for a line-completing cell goes in ascending order: what it
/// finds from `k` on is free, completes a line for `s`, and no free cell
/// between `k` and it does; when it finds nothing, no free cell from `k`
/// through 9 completes a line for `s`.
pub proof fn lemma_first_completing(v: GameView, s: Set<u32>, k: u32)
    requires
        1 <= k,
    ensures
        match v.first_completing(s, k) {
            Some(m) => {
                &&& k <= m <= 9
                &&& v.is_free(m)
                &&& completes_line(s, m)
                &&& forall|j: u32| k <= j < m && v.is_free(j) ==> !completes_line(s, j)
            },
            None => forall|j: u32| k <= j <= 9 && v.is_free(j) ==> !completes_line(s, j),
        },
    decreases 10 - k,
{
    if k <= 9 {
        lemma_first_completing(v, s, (k + 1) as u32);
    }
}

/// The list of free cells up to `k` holds exactly the free cells from 1 through `k`.
pub proof fn lemma_free_upto(v: GameView, k: u32)
    ensures
        forall|j: u32| #[trigger] v.free_upto(k).contains(j) <==> (1 <= j <= k && v.is_free(j)),
        v.free_upto(k).len() <= k,
    decreases k,
{
    if k > 0 {
        let km = (k - 1) as u32;
        lemma_free_upto(v, km);
        let p = v.free_upto(km);
        let q = v.free_upto(k);
        assert forall|j: u32| q.contains(j) implies 1 <= j <= k && v.is_free(j) by {
            let i = choose|i: int| 0 <= i < q.len() && q[i] == j;
            if v.is_free(k) && i == p.len() {
                assert(j == k);
            } else {
                assert(p[i] == j);
                assert(p.contains(j));
            }
        }
        assert forall|j: u32| 1 <= j <= k && v.is_free(j) implies q.contains(j) by {
            if j == k {
                assert(q[p.len() as int] == j);
            } else {
                assert(p.contains(j));
                let i = choose|i: int| 0 <= i < p.len() && p[i] == j;
                assert(q[i] == j);
            }
        }
    }
}

/// In every well-formed state that is not full, the bot's move is a valid move.
pub proof fn lemma_bot_choice_valid(v: GameView, draw: u32)
    requires
        v.wf(),
        !v.is_full(),
    ensures
        v.is_valid(v.bot_choice(draw)),
{
    lemma_first_completing(v, v.bot, 1);
    lemma_first_completing(v, v.player, 1);
    lemma_claimed_count(v);
    lemma_free_upto(v, 9);
    let f = v.free_upto(9);
    if v.first_completing(v.bot, 1) is None && v.first_completing(v.player, 1) is None {
        let m = choose|m: u32| v.is_valid(m);
        assert(f.contains(m));
        let i = (draw as int) % (f.len() as int);
        lemma_mod_pos_bound(draw as int, f.len() as int);
        assert(f.contains(f[i]));
    }
}

/// Where a winning or a blocking cell exists, the bot's move does not depend
/// on the random number: only the last tier draws.
pub proof fn lemma_forced_choice_ignores_draw(v: GameView, d1: u32, d2: u32)
    requires
        v.first_completing(v.bot, 1) is Some || v.first_completing(v.player, 1) is Some,
    ensures
        v.bot_choice(d1) == v.bot_choice(d2),
{
}

/// Any two states at the start of a game agree on the board and on both move
/// sets; only the side that moves first, picked at random, may differ. So a
/// game after `reset` starts exactly as a new one does.
pub proof fn lemma_fresh_states_agree(a: GameView, b: GameView)
    requires
        a.is_fresh(),
        b.is_fresh(),
    ensures
        a == (GameView { turn: a.turn, ..b }),
{
}

/// Well-formedness does not depend on whose turn it is.
proof fn lemma_wf_ignores_turn(v: GameView, t: Turn)
    requires
        v.wf(),
    ensures
        (GameView { turn: t, ..v }).wf(),
{
    let w = GameView { turn: t, ..v };
    assert forall|m: u32| 1 <= m <= 9 implies {
        &&& (#[trigger] w.cell(m) == Cell::Marked(Turn::Player) <==> w.player.contains(m))
        &&& (w.cell(m) == Cell::Marked(Turn::Bot) <==> w.bot.contains(m))
    } by {
        assert(w.cell(m) == v.cell(m));
    }
}

/// Why a proposed move was rejected.
#[derive(Clone, Copy, Debug, PartialEq, Eq, Structural)]
pub enum MoveError {
    /// The text is not an unsigned integer.
    NotANumber,
    /// The number is not between 1 and 9, or its cell is already claimed.
    Unavailable,
}

/// What a move has led to.
#[derive(Clone, Copy, Debug, PartialEq, Eq, Structural)]
pub enum Outcome {
    /// The game goes on; the turn has passed to the other side.
    Continue,
    /// The given side completed a line.
    Won(Turn),
    /// All cells are claimed and no line is complete.
    Draw,
}

/// A tic-tac-toe session between a human player and an automated bot.
pub struct Game {
    board: [[Cell; 3]; 3],
    current_turn: Turn,
    bot_moves: HashSet<u32>,
    player_moves: HashSet<u32>,
}

impl View for Game {
    type V = GameView;

    closed spec fn view(&self) -> GameView {
        GameView {
            cells: Seq::new(9, |k: int| self.board@[k / 3]@[k % 3]),
            player: self.player_moves@,
            bot: self.bot_moves@,
            turn: self.current_turn,
        }
    }
}

impl Game {
    /// A game with an empty board; the side that moves first is picked at random.
    pub fn new() -> (g: Game)
        ensures
            g@.wf(),
            g@.is_fresh(),
    {
        let g = Game {
            board: [[Cell::Empty; 3]; 3],
            current_turn: Self::pick_player(),
            bot_moves: HashSet::new(),
            player_moves: HashSet::new(),
        };
        assert(g@.cells =~= Seq::new(9, |k: int| Cell::Empty));
        g
    }

    /// Picks the side that moves first, at random.
    pub fn pick_player() -> (t: Turn) {
        turn_from_draw(random_u32())
    }

    /// Whether `unchecked_move` is a move number whose cell is still empty.
    pub fn is_valid_move(&self, unchecked_move: u32) -> (r: bool)
        requires
            self@.wf(),
        ensures
            r == self@.is_valid(unchecked_move),
    {
        if 1 <= unchecked_move && unchecked_move <= 9 {
            let (row, col) = Self::get_board_location(unchecked_move);
            assert(self@.cell(unchecked_move) == self.board@[row as int]@[col as int]);
            match self.board[row][col] {
                Cell::Marked(_) => false,
                Cell::Empty => true,
            }
        } else {
            false
        }
    }

    /// Writes the mark of `side` into cell `m` and records `m` among the moves of `side`.
    pub fn apply(&mut self, m: u32, side: Turn)
        requires
            old(self)@.wf(),
            old(self)@.is_valid(m),
        ensures
            final(self)@ == old(self)@.with_move(m, side),
            final(self)@.wf(),
    {
        let (row, col) = Self::get_board_location(m);
        self.board[row][col] = Cell::Marked(side);
        match side {
            Turn::Player => {
                self.player_moves.insert(m);
            },
            Turn::Bot => {
                self.bot_moves.insert(m);
            },
        }
        assert(self@.cells =~= old(self)@.cells.update(m as int - 1, Cell::Marked(side)));
        assert(self@ == old(self)@.with_move(m, side));
        proof {
            let v = self@;
            let o = old(self)@;
            assert forall|k: u32| 1 <= k <= 9 implies {
                &&& (#[trigger] v.cell(k) == Cell::Marked(Turn::Player) <==> v.player.contains(k))
                &&& (v.cell(k) == Cell::Marked(Turn::Bot) <==> v.bot.contains(k))
            } by {
                if k != m {
                    assert(v.cell(k) == o.cell(k));
                }
            }
        }
    }

    /// Whether one of the eight lines carries three identical marks.
    pub fn game_is_won(&self) -> (r: bool)
        ensures
            r == self@.is_won(),
    {
        let b = &self.board;
        let mut all_same_row = false;
        let mut all_same_col = false;
        for index in 0..3
            invariant
                all_same_row == exists|j: int|
                    0 <= j < index && #[trigger] same3(b@[j]@[0], b@[j]@[1], b@[j]@[2]),
                all_same_col == exists|j: int|
                    0 <= j < index && #[trigger] same3(b@[0]@[j], b@[1]@[j], b@[2]@[j]),
        {
            all_same_row = all_same_row || same_cells(b[index][0], b[index][1], b[index][2]);
            all_same_col = all_same_col || same_cells(b[0][index], b[1][index], b[2][index]);
        }
        let all_same_diag_1 = same_cells(b[0][0], b[1][1], b[2][2]);
        let all_same_diag_2 = same_cells(b[0][2], b[1][1], b[2][0]);
        proof {
            if all_same_row {
                let j = choose|j: int| 0 <= j < 3 && same3(b@[j]@[0], b@[j]@[1], b@[j]@[2]);
                assert(j == 0 || j == 1 || j == 2);
            }
            if all_same_col {
                let j = choose|j: int| 0 <= j < 3 && same3(b@[0]@[j], b@[1]@[j], b@[2]@[j]);
                assert(j == 0 || j == 1 || j == 2);
            }
            if !all_same_row {
                assert(!same3(b@[0]@[0], b@[0]@[1], b@[0]@[2]));
                assert(!same3(b@[1]@[0], b@[1]@[1], b@[1]@[2]));
                assert(!same3(b@[2]@[0], b@[2]@[1], b@[2]@[2]));
            }
            if !all_same_col {
                assert(!same3(b@[0]@[0], b@[1]@[0], b@[2]@[0]));
                assert(!same3(b@[0]@[1], b@[1]@[1], b@[2]@[1]));
                assert(!same3(b@[0]@[2], b@[1]@[2], b@[2]@[2]));
            }
        }
        all_same_row || all_same_col || all_same_diag_1 || all_same_diag_2
    }

    /// Whether all nine cells have been claimed.
    pub fn game_is_finished(&self) -> (r: bool)
        requires
            self@.wf(),
        ensures
            r == self@.is_full(),
    {
        proof {
            lemma_claimed_count(self@);
        }
        9 == self.player_moves.len() + self.bot_moves.len()
    }

    /// Reads the move that the text `text` names, with no white space around it.
    pub fn validate_trimmed(&self, text: &str) -> (r: Result<u32, MoveError>)
        requires
            self@.wf(),
        ensures
            r == self@.move_from_text(text@),
    {
        match parse_u32(text) {
            None => Err(MoveError::NotANumber),
            Some(number) => {
                if self.is_valid_move(number) {
                    Ok(number)
                } else {
                    Err(MoveError::Unavailable)
                }
            },
        }
    }

    /// Reads the move that a line of input names, ignoring white space around it.
    pub fn validate(&self, input: &str) -> (r: Result<u32, MoveError>)
        requires
            self@.wf(),
        ensures
            r == self@.move_from_text(trimmed(input@)),
    {
        self.validate_trimmed(trim(input))
    }

    /// Scanning cells 1 through 9 in ascending order, the first free cell
    /// that completes a line for the side that owns `moves`.
    fn first_completing_cell(&self, moves: &HashSet<u32>) -> (r: Option<u32>)
        ensures
            r == self@.first_completing(moves@, 1),
    {
        let mut i: u32 = 1;
        while i <= 9
            invariant
                1 <= i <= 10,
                self@.first_completing(moves@, 1) == self@.first_completing(moves@, i),
            decreases 10 - i,
        {
            if !self.bot_moves.contains(&i) && !self.player_moves.contains(&i) && line_completed_by(
                moves,
                i,
            ) {
                return Some(i);
            }
            i = i + 1;
        }
        None
    }

    /// The first free cell, in ascending order, that completes a line for the bot.
    pub fn find_bot_winning_move(&self) -> (r: Option<u32>)
        ensures
            r == self@.first_completing(self@.bot, 1),
    {
        self.first_completing_cell(&self.bot_moves)
    }

    /// The first free cell, in ascending order, that completes a line for the
    /// player: the bot claims it to block that line.
    pub fn find_bot_saving_move(&self) -> (r: Option<u32>)
        ensures
            r == self@.first_completing(self@.player, 1),
    {
        self.first_completing_cell(&self.player_moves)
    }

    /// The free cells in ascending order.
    fn free_cells(&self) -> (f: Vec<u32>)
        ensures
            f@ == self@.free_upto(9),
    {
        let mut f: Vec<u32> = Vec::new();
        let mut i: u32 = 1;
        while i <= 9
            invariant
                1 <= i <= 10,
                f@ == self@.free_upto((i - 1) as u32),
            decreases 10 - i,
        {
            if !self.bot_moves.contains(&i) && !self.player_moves.contains(&i) {
                f.push(i);
            }
            i = i + 1;
        }
        f
    }

    /// Plays the bot's move and returns it: a winning cell if there is one,
    /// else a cell that blocks the player, else the free cell that `draw`
    /// selects. The move is recorded for the bot and marked on the board.
    pub fn choose_bot_move(&mut self, draw: u32) -> (m: u32)
        requires
            old(self)@.wf(),
            !old(self)@.is_full(),
        ensures
            m == old(self)@.bot_choice(draw),
            old(self)@.is_valid(m),
            final(self)@ == old(self)@.with_move(m, Turn::Bot),
            final(self)@.wf(),
    {
        proof {
            lemma_bot_choice_valid(self@, draw);
            lemma_free_upto(self@, 9);
        }
        let bot_move: u32;
        if let Some(winning_move) = self.find_bot_winning_move() {
            bot_move = winning_move;
        } else if let Some(saving_move) = self.find_bot_saving_move() {
            bot_move = saving_move;
        } else {
            let free = self.free_cells();
            proof {
                lemma_claimed_count(self@);
                let m = choose|m: u32| self@.is_valid(m);
                assert(free@.contains(m));
            }
            bot_move = free[(draw as usize) % free.len()];
        }
        self.apply(bot_move, Turn::Bot);
        bot_move
    }

    /// Plays the bot's move as `choose_bot_move` does, with a number drawn at random.
    pub fn get_bot_move(&mut self) -> (m: u32)
        requires
            old(self)@.wf(),
            !old(self)@.is_full(),
        ensures
            exists|draw: u32| m == old(self)@.bot_choice(draw),
            old(self)@.is_valid(m),
            final(self)@ == old(self)@.with_move(m, Turn::Bot),
            final(self)@.wf(),
    {
        let draw = random_u32();
        self.choose_bot_move(draw)
    }

    /// Decides how the game stands after the side whose turn it is has moved.
    /// A completed line is a win for that side, even on the ninth cell; a full
    /// board without one is a draw; otherwise the turn passes to the other side.
    pub fn finish_turn(&mut self) -> (o: Outcome)
        requires
            old(self)@.wf(),
        ensures
            old(self)@.is_won() ==> o == Outcome::Won(old(self)@.turn) && final(self)@ == old(self)@,
            !old(self)@.is_won() && old(self)@.is_full() ==> o == Outcome::Draw && final(self)@
                == old(self)@,
            !old(self)@.is_won() && !old(self)@.is_full() ==> o == Outcome::Continue
                && final(self)@ == (GameView { turn: other(old(self)@.turn), ..old(self)@ }),
            final(self)@.wf(),
    {
        if self.game_is_won() {
            Outcome::Won(self.current_turn)
        } else if self.game_is_finished() {
            Outcome::Draw
        } else {
            self.current_turn = self.get_next_turn();
            assert(self@.cells =~= old(self)@.cells);
            assert(self@ == (GameView { turn: other(old(self)@.turn), ..old(self)@ }));
            proof {
                lemma_wf_ignores_turn(old(self)@, self@.turn);
            }
            Outcome::Continue
        }
    }

    /// Clears the board and both move sets, and picks the first side anew at random.
    pub fn reset(&mut self)
        ensures
            final(self)@.wf(),
            final(self)@.is_fresh(),
    {
        self.current_turn = Self::pick_player();
        self.board = [[Cell::Empty; 3]; 3];
        self.bot_moves.clear();
        self.player_moves.clear();
        assert(self@.cells =~= Seq::new(9, |k: int| Cell::Empty));
    }

    /// The side whose turn it is.
    pub fn current_turn(&self) -> (t: Turn)
        ensures
            t == self@.turn,
    {
        self.current_turn
    }

    /// What the cell with move number `m` holds.
    pub fn cell(&self, m: u32) -> (c: Cell)
        requires
            1 <= m <= 9,
        ensures
            c == self@.cell(m),
    {
        let (row, col) = Self::get_board_location(m);
        self.board[row][col]
    }

    /// The side that moves after the side whose turn it is.
    pub fn get_next_turn(&self) -> (t: Turn)
        ensures
            t == other(self@.turn),
    {
        match self.current_turn {
            Turn::Player => Turn::Bot,
            Turn::Bot => Turn::Player,
        }
    }

    /// The row and column of the cell with move number `game_move`.
    pub fn get_board_location(game_move: u32) -> (rc: (usize, usize))
        requires
            1 <= game_move <= 9,
        ensures
            rc.0 == (game_move - 1) / 3,
            rc.1 == (game_move - 1) % 3,
            rc.0 < 3 && rc.1 < 3,
    {
        let row = (game_move - 1) / 3;
        let col = (game_move - 1) % 3;
        (row as usize, col as usize)
    }
}

/// Relies on rand::random: a number drawn uniformly from the whole `u32`
/// range by the thread-local generator. Nothing is known of its value.
#[verifier::external_body]
fn random_u32() -> u32 {
    rand::random::<u32>()
}

} // verus!
