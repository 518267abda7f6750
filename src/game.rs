use vstd::prelude::*;

verus! {

/// Side length of the square board.
pub const PLAY_FIELD_SIZE: usize = 3;

/// Number of cells on the board, indexed row-major from 0.
pub const CELL_COUNT: usize = 9;

/// The two sides. `Player1` is the automated, maximizing side;
/// `Player2` the minimizing one.
#[derive(Copy, Clone, Debug, PartialEq, Eq, Structural)]
pub enum Player {
    Player1,
    Player2,
}

/// One square of the board.
#[derive(Copy, Clone, Debug, PartialEq, Eq, Structural)]
pub enum Cell {
    Empty,
    Player(Player),
}

/// What a board is, as specifications see it: won along a line, tied, or
/// still open.
pub enum Outcome {
    Won { player: Player, line: Seq<usize> },
    Tie,
    InProgress,
}

/// Classification of a board returned by `get_game_state`.
#[derive(Debug)]
pub enum GameState {
    GameWon { player: Player, cells: Vec<usize> },
    Tie,
    InProgress,
}

impl View for GameState {
    type V = Outcome;

    open spec fn view(&self) -> Outcome {
        match self {
            GameState::GameWon { player, cells } => Outcome::Won { player: *player, line: cells@ },
            GameState::Tie => Outcome::Tie,
            GameState::InProgress => Outcome::InProgress,
        }
    }
}

/// Cell indices of winning line `k` (0 to 7), in scan order: the three
/// rows, the three columns, the main diagonal, the anti-diagonal.
pub open spec fn line(k: int) -> (int, int, int) {
    if k < 3 {
        (3 * k, 3 * k + 1, 3 * k + 2)
    } else if k < 6 {
        (k - 3, k, k + 3)
    } else if k == 6 {
        (0, 4, 8)
    } else {
        (2, 4, 6)
    }
}

/// Line `k` as the ordered triple that a won state reports.
pub open spec fn line_seq(k: int) -> Seq<usize> {
    seq![line(k).0 as usize, line(k).1 as usize, line(k).2 as usize]
}

/// The player who holds all three cells of line `k`, if any.
pub open spec fn line_owner(b: Seq<Cell>, k: int) -> Option<Player> {
    match b[line(k).0] {
        Cell::Player(p) => if b[line(k).1] == b[line(k).0] && b[line(k).2] == b[line(k).0] {
            Some(p)
        } else {
            None
        },
        Cell::Empty => None,
    }
}

/// The first line at scan position `k` or later that one player holds
/// entirely, with that player.
pub open spec fn first_won_line(b: Seq<Cell>, k: int) -> Option<(int, Player)>
    decreases 8 - k,
{
    if k >= 8 {
        None
    } else {
        match line_owner(b, k) {
            Some(p) => Some((k, p)),
            None => first_won_line(b, k + 1),
        }
    }
}

pub open spec fn has_empty(b: Seq<Cell>) -> bool {
    exists|i: int| 0 <= i < b.len() && b[i] == Cell::Empty
}

/// The classification of a board: the first held line in scan order wins;
/// without one, the game goes on while a cell is empty and is tied after.
pub open spec fn outcome(b: Seq<Cell>) -> Outcome {
    match first_won_line(b, 0) {
        Some((k, p)) => Outcome::Won { player: p, line: line_seq(k) },
        None => if has_empty(b) {
            Outcome::InProgress
        } else {
            Outcome::Tie
        },
    }
}

fn line_cells(k: usize) -> (r: (usize, usize, usize))
    requires
        k < 8,
    ensures
        (r.0 as int, r.1 as int, r.2 as int) == line(k as int),
{
    if k < 3 {
        (3 * k, 3 * k + 1, 3 * k + 2)
    } else if k < 6 {
        (k - 3, k, k + 3)
    } else if k == 6 {
        (0, 4, 8)
    } else {
        (2, 4, 6)
    }
}

/// Classifies a board of nine cells.
pub fn get_game_state(elements: &[Cell]) -> (r: GameState)
    requires
        elements@.len() == CELL_COUNT,
    ensures
        r@ == outcome(elements@),
{
    let mut k: usize = 0;
    while k < 8
        invariant
            k <= 8,
            elements@.len() == CELL_COUNT,
            first_won_line(elements@, 0) == first_won_line(elements@, k as int),
        decreases 8 - k,
    {
        let (a, b, c) = line_cells(k);
        if let Cell::Player(player) = elements[a] {
            if elements[b] == elements[a] && elements[c] == elements[a] {
                return GameState::GameWon { player, cells: vec![a, b, c] };
            }
        }
        k += 1;
    }
    let mut i: usize = 0;
    while i < elements.len()
        invariant
            i <= elements@.len(),
            elements@.len() == CELL_COUNT,
            first_won_line(elements@, 0) is None,
            forall|j: int| 0 <= j < i ==> elements@[j] != Cell::Empty,
        decreases elements@.len() - i,
    {
        if elements[i] == Cell::Empty {
            return GameState::InProgress;
        }
        i += 1;
    }
    GameState::Tie
}

/// A line found by the scan lies at or after its start and is held by the
/// player reported; when none is found, no line from the start on is held.
proof fn lemma_first_won_line(b: Seq<Cell>, k: int)
    requires
        0 <= k <= 8,
    ensures
        match first_won_line(b, k) {
            Some((j, p)) => k <= j < 8 && line_owner(b, j) == Some(p),
            None => forall|j: int| k <= j < 8 ==> line_owner(b, j) is None,
        },
    decreases 8 - k,
{
    if k < 8 {
        lemma_first_won_line(b, k + 1);
    }
}

/// Every nine-cell board has exactly one classification, and it is the
/// right one: a reported winner holds all three cells of the reported
/// winning line; a tie has every cell filled and no held line; a game in
/// progress has an empty cell and no held line.
pub proof fn lemma_outcome_consistent(b: Seq<Cell>)
    requires
        b.len() == CELL_COUNT,
    ensures
        match outcome(b) {
            Outcome::Won { player, line } => {
                &&& line.len() == 3
                &&& exists|k: int| 0 <= k < 8 && line == line_seq(k)
                &&& forall|i: int|
                    0 <= i < 3 ==> line[i] < CELL_COUNT && b[line[i] as int] == Cell::Player(player)
            },
            Outcome::Tie => !has_empty(b) && forall|k: int| 0 <= k < 8 ==> line_owner(b, k) is None,
            Outcome::InProgress => has_empty(b) && forall|k: int|
                0 <= k < 8 ==> line_owner(b, k) is None,
        },
{
    lemma_first_won_line(b, 0);
    if let Some((k, p)) = first_won_line(b, 0) {
        let w = line_seq(k);
        assert(w[0] as int == line(k).0 && w[1] as int == line(k).1 && w[2] as int == line(k).2);
    }
}

/// A full board on which no line is held is a tie.
pub proof fn lemma_full_board_is_tie(b: Seq<Cell>)
    requires
        b.len() == CELL_COUNT,
        !has_empty(b),
        forall|k: int| 0 <= k < 8 ==> line_owner(b, k) is None,
    ensures
        outcome(b) is Tie,
{
    lemma_first_won_line(b, 0);
}

fn same_cells(a: &Vec<usize>, b: &Vec<usize>) -> (r: bool)
    ensures
        r == (a@ == b@),
{
    if a.len() != b.len() {
        return false;
    }
    let mut i: usize = 0;
    while i < a.len()
        invariant
            i <= a@.len(),
            a@.len() == b@.len(),
            forall|j: int| 0 <= j < i ==> a@[j] == b@[j],
        decreases a@.len() - i,
    {
        if a[i] != b[i] {
            return false;
        }
        i += 1;
    }
    proof {
        assert(a@ =~= b@);
    }
    true
}

impl PartialEq for GameState {
    fn eq(&self, other: &GameState) -> (r: bool)
        ensures
            r == (self@ == other@),
    {
        match (self, other) {
            (
                GameState::GameWon { player: p, cells: c },
                GameState::GameWon { player: q, cells: d },
            ) => *p == *q && same_cells(c, d),
            (GameState::Tie, GameState::Tie) => true,
            (GameState::InProgress, GameState::InProgress) => true,
            _ => false,
        }
    }
}

impl vstd::std_specs::cmp::PartialEqSpecImpl for GameState {
    open spec fn obeys_eq_spec() -> bool {
        true
    }

    open spec fn eq_spec(&self, other: &GameState) -> bool {
        self@ == other@
    }
}

/// The status line shown for a classification.
pub open spec fn state_text(o: Outcome) -> Seq<char> {
    match o {
        Outcome::Tie => "Tie"@,
        Outcome::InProgress => "In progress"@,
        Outcome::Won { player: Player::Player1, .. } => "Computer won"@,
        Outcome::Won { player: Player::Player2, .. } => "Player won"@,
    }
}

/// Text describing a classification, with `Player1` as the computer.
pub fn game_state_to_str(game_state: &GameState) -> (r: String)
    ensures
        r@ == state_text(game_state@),
{
    match game_state {
        GameState::Tie => String::from_str("Tie"),
        GameState::InProgress => String::from_str("In progress"),
        GameState::GameWon { player, .. } => match player {
            Player::Player1 => String::from_str("Computer won"),
            Player::Player2 => String::from_str("Player won"),
        },
    }
}

/// The cursor: the cell at column `x` and row `y`, or none.
#[derive(Copy, Clone, Debug, PartialEq, Eq, Structural)]
pub enum SelectedCell {
    NotSelected,
    Selected { x: usize, y: usize },
}

/// A direction in which to move the cursor.
#[derive(Copy, Clone, Debug, PartialEq, Eq, Structural)]
pub enum ChangeSelected {
    Left,
    Up,
    Right,
    Down,
}

pub open spec fn selection_on_board(s: SelectedCell) -> bool {
    match s {
        SelectedCell::Selected { x, y } => x < PLAY_FIELD_SIZE && y < PLAY_FIELD_SIZE,
        SelectedCell::NotSelected => true,
    }
}

/// Where the cursor goes on a move in `direction`: it appears in the
/// top-left corner when there was none, and otherwise steps one cell,
/// staying put at the edge.
pub open spec fn moved_selection(s: SelectedCell, direction: ChangeSelected) -> SelectedCell {
    match s {
        SelectedCell::NotSelected => SelectedCell::Selected { x: 0, y: 0 },
        SelectedCell::Selected { x, y } => match direction {
            ChangeSelected::Down => if y + 1 < PLAY_FIELD_SIZE {
                SelectedCell::Selected { x, y: (y + 1) as usize }
            } else {
                s
            },
            ChangeSelected::Up => if y > 0 {
                SelectedCell::Selected { x, y: (y - 1) as usize }
            } else {
                s
            },
            ChangeSelected::Right => if x + 1 < PLAY_FIELD_SIZE {
                SelectedCell::Selected { x: (x + 1) as usize, y }
            } else {
                s
            },
            ChangeSelected::Left => if x > 0 {
                SelectedCell::Selected { x: (x - 1) as usize, y }
            } else {
                s
            },
        },
    }
}

/// Index of the cell at column `x` and row `y`.
pub open spec fn cell_index(x: int, y: int) -> int {
    x + PLAY_FIELD_SIZE * y
}

/// A board with every cell empty.
pub open spec fn empty_board() -> Seq<Cell> {
    Seq::new(CELL_COUNT as nat, |i: int| Cell::Empty)
}

/// A game in play: the live board and the cursor.
pub struct Game {
    cell_states: Vec<Cell>,
    selected_cell: SelectedCell,
}

impl Game {
    /// Nine cells, and the cursor, if any, on the board.
    pub closed spec fn wf(&self) -> bool {
        &&& self.cell_states@.len() == CELL_COUNT
        &&& selection_on_board(self.selected_cell)
    }

    /// The cells of the board, row-major.
    pub closed spec fn board(&self) -> Seq<Cell> {
        self.cell_states@
    }

    pub closed spec fn selection(&self) -> SelectedCell {
        self.selected_cell
    }

    /// A new game: an empty board and no cursor.
    pub fn new() -> (r: Game)
        ensures
            r.wf(),
            r.board() == empty_board(),
            r.selection() == SelectedCell::NotSelected,
    {
        let r = Game {
            cell_states: vec![Cell::Empty; PLAY_FIELD_SIZE * PLAY_FIELD_SIZE],
            selected_cell: SelectedCell::NotSelected,
        };
        assert(r.cell_states@ =~= empty_board());
        r
    }

    /// Starts over with a new game.
    pub fn clear(&mut self)
        ensures
            final(self).wf(),
            final(self).board() == empty_board(),
            final(self).selection() == SelectedCell::NotSelected,
    {
        *self = Game::new();
    }

    pub fn get_selected_cell(&self) -> (r: SelectedCell)
        requires
            self.wf(),
        ensures
            r == self.selection(),
    {
        self.selected_cell
    }

    /// Classification of the live board.
    pub fn get_state(&self) -> (r: GameState)
        requires
            self.wf(),
        ensures
            r@ == outcome(self.board()),
    {
        Game::get_game_state(self.cell_states.as_slice())
    }

    /// Places the cursor on the cell at column `x` and row `y`.
    pub fn select_cell(&mut self, x: usize, y: usize)
        requires
            old(self).wf(),
            x < PLAY_FIELD_SIZE,
            y < PLAY_FIELD_SIZE,
        ensures
            final(self).wf(),
            final(self).board() == old(self).board(),
            final(self).selection() == (SelectedCell::Selected { x, y }),
    {
        self.selected_cell = SelectedCell::Selected { x, y };
    }

    /// The cell at column `row` and row `column`.
    pub fn get_cell_state(&self, row: usize, column: usize) -> (r: Cell)
        requires
            self.wf(),
            row < PLAY_FIELD_SIZE,
            column < PLAY_FIELD_SIZE,
        ensures
            r == self.board()[cell_index(row as int, column as int)],
    {
        self.cell_states[row + column * PLAY_FIELD_SIZE]
    }

    /// Writes `cell_state` into the cell at column `row` and row `column`
    /// if that cell is empty, and tells whether it did.
    pub fn set_cell_state(&mut self, row: usize, column: usize, cell_state: Cell) -> (r: bool)
        requires
            old(self).wf(),
            row < PLAY_FIELD_SIZE,
            column < PLAY_FIELD_SIZE,
        ensures
            final(self).wf(),
            r == (old(self).board()[cell_index(row as int, column as int)] == Cell::Empty),
            final(self).board() == if r {
                old(self).board().update(cell_index(row as int, column as int), cell_state)
            } else {
                old(self).board()
            },
            final(self).selection() == old(self).selection(),
    {
        let index = row + column * PLAY_FIELD_SIZE;
        if self.cell_states[index] == Cell::Empty {
            self.cell_states.set(index, cell_state);
            return true;
        }
        false
    }

    /// Moves the cursor in `direction`, unless the game has been won.
    pub fn move_selected_cell(&mut self, direction: ChangeSelected)
        requires
            old(self).wf(),
        ensures
            final(self).wf(),
            final(self).board() == old(self).board(),
            final(self).selection() == if outcome(old(self).board()) is Won {
                old(self).selection()
            } else {
                moved_selection(old(self).selection(), direction)
            },
    {
        if let GameState::GameWon { .. } = self.get_state() {
            return;
        }
        match self.selected_cell {
            SelectedCell::NotSelected => {
                self.selected_cell = SelectedCell::Selected { x: 0, y: 0 };
            },
            SelectedCell::Selected { x, y } => match direction {
                ChangeSelected::Down => {
                    if y < PLAY_FIELD_SIZE - 1 {
                        self.selected_cell = SelectedCell::Selected { x, y: y + 1 };
                    }
                },
                ChangeSelected::Up => {
                    if y > 0 {
                        self.selected_cell = SelectedCell::Selected { x, y: y - 1 };
                    }
                },
                ChangeSelected::Right => {
                    if x < PLAY_FIELD_SIZE - 1 {
                        self.selected_cell = SelectedCell::Selected { x: x + 1, y };
                    }
                },
                ChangeSelected::Left => {
                    if x > 0 {
                        self.selected_cell = SelectedCell::Selected { x: x - 1, y };
                    }
                },
            },
        }
    }

    /// Classifies a board of nine cells.
    pub fn get_game_state(cell_states: &[Cell]) -> (r: GameState)
        requires
            cell_states@.len() == CELL_COUNT,
        ensures
            r@ == outcome(cell_states@),
    {
        get_game_state(cell_states)
    }

    /// A copy of the board.
    pub fn get_cells(&self) -> (r: Vec<Cell>)
        requires
            self.wf(),
        ensures
            r@ == self.board(),
            r@.len() == CELL_COUNT,
    {
        self.cell_states.clone()
    }

    /// Puts `player`'s mark into cell `cell_id` while the game is in
    /// progress; once it is over the board stays as it is.
    pub fn make_move(&mut self, cell_id: usize, player: Player)
        requires
            old(self).wf(),
            outcome(old(self).board()) is InProgress ==> cell_id < CELL_COUNT,
        ensures
            final(self).wf(),
            final(self).board() == if outcome(old(self).board()) is InProgress {
                old(self).board().update(cell_id as int, Cell::Player(player))
            } else {
                old(self).board()
            },
            final(self).selection() == old(self).selection(),
    {
        let game_state = Game::get_game_state(self.cell_states.as_slice());
        if let GameState::InProgress = game_state {
            self.cell_states.set(cell_id, Cell::Player(player));
        }
    }

    /// Puts `player`'s mark into the cell under the cursor if there is a
    /// cursor and that cell is empty, and tells whether it did.
    pub fn make_move_on_selected_cell(&mut self, player: Player) -> (r: bool)
        requires
            old(self).wf(),
        ensures
            final(self).wf(),
            r == match old(self).selection() {
                SelectedCell::Selected { x, y } => old(self).board()[cell_index(x as int, y as int)]
                    == Cell::Empty,
                SelectedCell::NotSelected => false,
            },
            final(self).board() == match old(self).selection() {
                SelectedCell::Selected { x, y } => if r {
                    old(self).board().update(cell_index(x as int, y as int), Cell::Player(player))
                } else {
                    old(self).board()
                },
                SelectedCell::NotSelected => old(self).board(),
            },
            final(self).selection() == old(self).selection(),
    {
        match self.selected_cell {
            SelectedCell::NotSelected => false,
            SelectedCell::Selected { x, y } => {
                let index = x + PLAY_FIELD_SIZE * y;
                match self.cell_states[index] {
                    Cell::Empty => {
                        self.cell_states.set(index, Cell::Player(player));
                        true
                    },
                    _ => false,
                }
            },
        }
    }
}

} // verus!
