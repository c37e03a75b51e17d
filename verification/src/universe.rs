//! The universe of one game: the snake, the food, and the rules that join them.

use vstd::prelude::*;
use crate::direction::Direction;
use crate::grid::{
    lemma_distinct_cells_fill, lemma_distinct_cells_fit, lemma_some_cell_is_left, Block,
};
use crate::snake::{flattened, Snake, SnakeTickOutcomes, SnakeView};

verus! {

/// What one step of the game led to.
#[derive(Debug, Copy, Clone, PartialEq, Eq, Structural)]
pub enum UniverseTickOutcomes {
    /// The game goes on.
    Continue,
    /// The snake ran into itself: the game is lost.
    Loss,
    /// The snake fills the board: the game is won.
    Win,
}

/// The universe as a mathematical value.
#[verifier::ext_equal]
pub struct UniverseView {
    /// The snake.
    pub snake: SnakeView,
    /// The cell of the food.
    pub food: Block,
    /// The number of rows of the grid.
    pub rows: u8,
    /// The number of columns of the grid.
    pub cols: u8,
    /// Whether the game stands still.
    pub paused: bool,
}

impl UniverseView {
    /// The snake is well formed and lives on the grid of the universe, and so
    /// does the food.
    pub open spec fn wf(self) -> bool {
        &&& self.snake.wf()
        &&& self.snake.rows == self.rows
        &&& self.snake.cols == self.cols
        &&& self.food.within(self.rows, self.cols)
    }

    /// The number of cells of the grid.
    pub open spec fn cell_count(self) -> nat {
        (self.rows * self.cols) as nat
    }

    /// Whether `cell` lies on the grid and the snake does not lie on it.
    pub open spec fn is_free(self, cell: Block) -> bool {
        cell.within(self.rows, self.cols) && !self.snake.occupies(cell)
    }

    /// Whether the food lies under the snake, so that new food has to be placed:
    /// at the start of a game and after each meal.
    pub open spec fn food_due(self) -> bool {
        self.snake.occupies(self.food)
    }

    /// A game that is going on and ready for its next step: the snake is
    /// intact and the food lies on a cell of its own.
    pub open spec fn playing(self) -> bool {
        &&& self.wf()
        &&& self.snake.intact()
        &&& !self.food_due()
    }

    /// The universe at the start of a game on a grid of `rows` by `cols` cells:
    /// the snake at the centre, the food under it, the game not paused.
    pub open spec fn initial(rows: u8, cols: u8) -> UniverseView {
        UniverseView {
            snake: SnakeView::initial(rows, cols),
            food: Block(rows / 2, cols / 2),
            rows,
            cols,
            paused: false,
        }
    }

    /// The universe after a request to the snake to turn to `d`.
    pub open spec fn turned(self, d: Direction) -> UniverseView {
        UniverseView { snake: self.snake.turned(d), ..self }
    }

    /// The universe with a running game paused, or a paused game running again.
    pub open spec fn pause_toggled(self) -> UniverseView {
        UniverseView { paused: !self.paused, ..self }
    }

    /// What the next step leads to. A paused game goes on unchanged, a snake
    /// that collides loses, and a snake that eats wins if it then fills the
    /// board.
    pub open spec fn tick_outcome(self) -> UniverseTickOutcomes {
        if self.paused {
            UniverseTickOutcomes::Continue
        } else {
            match self.snake.tick_outcome(self.food) {
                SnakeTickOutcomes::Nothing => UniverseTickOutcomes::Continue,
                SnakeTickOutcomes::CollidedWithSelf => UniverseTickOutcomes::Loss,
                SnakeTickOutcomes::GenerateNewFood => if self.snake.ticked(self.food).length
                    == self.cell_count() {
                    UniverseTickOutcomes::Win
                } else {
                    UniverseTickOutcomes::Continue
                },
            }
        }
    }

    /// The universe after the next step: unchanged if the game is paused, else
    /// with the snake one step further.
    pub open spec fn ticked(self) -> UniverseView {
        if self.paused {
            self
        } else {
            UniverseView { snake: self.snake.ticked(self.food), ..self }
        }
    }

    /// The universe after `n` steps.
    pub open spec fn ticked_times(self, n: nat) -> UniverseView
        decreases n,
    {
        if n == 0 {
            self
        } else {
            self.ticked_times((n - 1) as nat).ticked()
        }
    }

    /// The first of `samples` that is a free cell, if there is one.
    pub open spec fn first_free(self, samples: Seq<Block>) -> Option<Block>
        decreases samples.len(),
    {
        if samples.len() == 0 {
            None
        } else if self.is_free(samples[0]) {
            Some(samples[0])
        } else {
            self.first_free(samples.drop_first())
        }
    }

    /// The universe with its food on the first of `samples` that is a free
    /// cell. Without such a sample the food stays where it is.
    pub open spec fn fed(self, samples: Seq<Block>) -> UniverseView {
        match self.first_free(samples) {
            Some(cell) => UniverseView { food: cell, ..self },
            None => self,
        }
    }
}

impl UniverseView {
    /// A new game: the snake is one cell long and rests at the centre of the
    /// grid, the game is not paused, and the first food is due.
    pub proof fn lemma_initial(rows: u8, cols: u8)
        requires
            rows > 0,
            cols > 0,
        ensures
            Self::initial(rows, cols).wf(),
            Self::initial(rows, cols).snake.intact(),
            Self::initial(rows, cols).snake.length == 1,
            Self::initial(rows, cols).snake.head == Block(rows / 2, cols / 2),
            Self::initial(rows, cols).snake.heading() is None,
            Self::initial(rows, cols).food_due(),
            !Self::initial(rows, cols).paused,
    {
        let u = Self::initial(rows, cols);
        assert(u.snake.body()[0] == u.food);
    }

    /// What `first_free` finds: a free cell among the samples, with no free
    /// cell before it; or nothing, and then none of the samples is a free cell.
    pub proof fn lemma_first_free(self, samples: Seq<Block>)
        ensures
            match self.first_free(samples) {
                Some(cell) => exists|i: int|
                    {
                        &&& 0 <= i < samples.len()
                        &&& #[trigger] samples[i] == cell
                        &&& self.is_free(cell)
                        &&& forall|j: int| 0 <= j < i ==> !self.is_free(#[trigger] samples[j])
                    },
                None => forall|i: int| 0 <= i < samples.len() ==> !self.is_free(#[trigger] samples[i]),
            },
        decreases samples.len(),
    {
        if samples.len() > 0 && !self.is_free(samples[0]) {
            let rest = samples.drop_first();
            self.lemma_first_free(rest);
            assert forall|i: int| 0 <= i < rest.len() implies #[trigger] rest[i] == samples[i + 1] by {}
            match self.first_free(rest) {
                Some(cell) => {
                    let i = choose|i: int|
                        {
                            &&& 0 <= i < rest.len()
                            &&& #[trigger] rest[i] == cell
                            &&& self.is_free(cell)
                            &&& forall|j: int| 0 <= j < i ==> !self.is_free(#[trigger] rest[j])
                        };
                    assert(samples[i + 1] == cell);
                    assert forall|j: int| 0 <= j < i + 1 implies !self.is_free(
                        #[trigger] samples[j],
                    ) by {
                        if j > 0 {
                            assert(rest[j - 1] == samples[j]);
                        }
                    }
                },
                None => {
                    assert forall|i: int| 0 <= i < samples.len() implies !self.is_free(
                        #[trigger] samples[i],
                    ) by {
                        if i > 0 {
                            assert(rest[i - 1] == samples[i]);
                        }
                    }
                },
            }
        } else if samples.len() > 0 {
            assert(samples[0] == samples[0]);
        }
    }

    /// Placing food changes nothing but the food. Food that was placed is one
    /// of the samples and lies on a cell of the grid that the snake leaves
    /// free, so it is no longer due; with an intact snake the game is ready
    /// for its next step.
    pub proof fn lemma_fed(self, samples: Seq<Block>)
        requires
            self.wf(),
        ensures
            self.fed(samples).wf(),
            self.fed(samples).snake == self.snake,
            self.fed(samples).rows == self.rows,
            self.fed(samples).cols == self.cols,
            self.fed(samples).paused == self.paused,
            self.first_free(samples) is None ==> self.fed(samples) == self,
            self.first_free(samples) is Some ==> {
                &&& samples.contains(self.fed(samples).food)
                &&& self.is_free(self.fed(samples).food)
                &&& !self.fed(samples).food_due()
                &&& self.fed(samples).food != self.snake.head
                &&& self.snake.intact() ==> self.fed(samples).playing()
            },
    {
        self.lemma_first_free(samples);
        if self.first_free(samples) is Some {
            assert(self.snake.body()[0] == self.snake.head);
        }
    }

    /// A meal and the placing of new food after it: the snake is one cell
    /// longer and has given up no cell, and the new food lies on a cell of the
    /// grid that the snake leaves free.
    pub proof fn lemma_meal(self, samples: Seq<Block>)
        requires
            self.wf(),
            !self.paused,
            self.snake.tick_outcome(self.food) == SnakeTickOutcomes::GenerateNewFood,
            self.ticked().first_free(samples) is Some,
        ensures
            self.ticked().fed(samples).snake.length == self.snake.length + 1,
            self.ticked().fed(samples).snake.head == self.food,
            self.ticked().fed(samples).snake.tail == self.snake.body(),
            self.ticked().fed(samples).food.within(self.rows, self.cols),
            !self.ticked().fed(samples).snake.occupies(self.ticked().fed(samples).food),
    {
        self.snake.lemma_ticked_wf(self.food);
        self.snake.lemma_meal_grows(self.food);
        self.ticked().lemma_fed(samples);
    }

    /// After the first food of a new game was placed, the snake is one cell
    /// long and rests at the centre of the grid, and the food lies elsewhere.
    pub proof fn lemma_first_food(rows: u8, cols: u8, samples: Seq<Block>)
        requires
            rows > 0,
            cols > 0,
            Self::initial(rows, cols).first_free(samples) is Some,
        ensures
            Self::initial(rows, cols).fed(samples).snake.length == 1,
            Self::initial(rows, cols).fed(samples).snake.head == Block(rows / 2, cols / 2),
            Self::initial(rows, cols).fed(samples).food != Block(rows / 2, cols / 2),
            Self::initial(rows, cols).fed(samples).playing(),
    {
        Self::lemma_initial(rows, cols);
        Self::initial(rows, cols).lemma_fed(samples);
    }

    /// While the game is paused, any number of steps leaves the universe as it
    /// is, and the next step gives `Continue`.
    pub proof fn lemma_paused_ticks(self, n: nat)
        requires
            self.paused,
        ensures
            self.ticked_times(n) == self,
            self.ticked_times(n).tick_outcome() == UniverseTickOutcomes::Continue,
        decreases n,
    {
        if n > 0 {
            self.lemma_paused_ticks((n - 1) as nat);
        }
    }

    /// The game is lost exactly when it is not paused and the snake collides
    /// with itself.
    pub proof fn lemma_loss(self)
        ensures
            self.tick_outcome() == UniverseTickOutcomes::Loss <==> !self.paused
                && self.snake.hits_itself(),
    {
    }

    /// The game is won exactly when it is not paused and the snake eats and
    /// with that meal is as long as the grid has cells. The food is then left
    /// where it was eaten.
    pub proof fn lemma_win(self)
        ensures
            self.tick_outcome() == UniverseTickOutcomes::Win <==> {
                &&& !self.paused
                &&& self.snake.tick_outcome(self.food) == SnakeTickOutcomes::GenerateNewFood
                &&& self.snake.length + 1 == self.cell_count()
            },
            self.ticked().food == self.food,
            self.tick_outcome() == UniverseTickOutcomes::Win ==> self.ticked().food
                == self.ticked().snake.head,
    {
    }

    /// A game that is ready for its next step has a cell left for the food, so
    /// the snake is shorter than the grid has cells.
    pub proof fn lemma_play_is_bounded(self)
        requires
            self.playing(),
        ensures
            self.snake.length < self.cell_count(),
            self.cell_count() <= 255 * 255,
    {
        let cells = self.snake.body().push(self.food);
        assert forall|i: int, j: int|
            0 <= i < cells.len() && 0 <= j < cells.len() && i != j implies cells[i] != cells[j] by {
            if i == cells.len() - 1 {
                assert(self.snake.body()[j] == cells[j]);
            } else if j == cells.len() - 1 {
                assert(self.snake.body()[i] == cells[i]);
            } else {
                assert(self.snake.body()[i] == cells[i]);
                assert(self.snake.body()[j] == cells[j]);
            }
        }
        assert forall|i: int| 0 <= i < cells.len() implies (#[trigger] cells[i]).within(
            self.rows,
            self.cols,
        ) by {
            if 0 < i < cells.len() - 1 {
                assert(cells[i] == self.snake.tail[i - 1]);
            }
        }
        lemma_distinct_cells_fit(cells, self.rows, self.cols);
        assert(self.rows * self.cols <= 255 * 255) by (nonlinear_arith)
            requires
                self.rows <= 255,
                self.cols <= 255,
        ;
    }

    /// One step of a game that is ready for it. If the game goes on, then
    /// either it is ready for the next step, or the snake has eaten: it is
    /// intact and one cell longer, new food is due, and a free cell is left for
    /// it. If the game is lost, the snake is no longer intact. If the game is
    /// won, the snake is intact and lies on every cell of the grid.
    pub proof fn lemma_tick_of_play(self)
        requires
            self.playing(),
        ensures
            self.ticked().wf(),
            match self.tick_outcome() {
                UniverseTickOutcomes::Continue => {
                    ||| self.ticked().playing()
                    ||| {
                        &&& self.ticked().snake.intact()
                        &&& self.ticked().snake.length == self.snake.length + 1
                        &&& self.ticked().food_due()
                        &&& exists|cell: Block| self.ticked().is_free(cell)
                    }
                },
                UniverseTickOutcomes::Loss => !self.ticked().snake.intact(),
                UniverseTickOutcomes::Win => {
                    &&& self.ticked().snake.intact()
                    &&& forall|cell: Block|
                        cell.within(self.rows, self.cols) ==> self.ticked().snake.occupies(cell)
                },
            },
    {
        if !self.paused {
            let next = self.ticked();
            self.snake.lemma_ticked_wf(self.food);
            assert(self.snake.body()[0] == self.snake.head);
            match self.snake.tick_outcome(self.food) {
                SnakeTickOutcomes::CollidedWithSelf => {
                    self.snake.lemma_collision(self.food);
                },
                SnakeTickOutcomes::GenerateNewFood => {
                    self.snake.lemma_ticked_intact(self.food);
                    self.lemma_play_is_bounded();
                    assert(next.snake.body()[0] == next.food);
                    if next.snake.length == self.cell_count() {
                        assert forall|i: int| 0 <= i < next.snake.body().len() implies (
                        #[trigger] next.snake.body()[i]).within(self.rows, self.cols) by {
                            if i > 0 {
                                assert(next.snake.body()[i] == next.snake.tail[i - 1]);
                            }
                        }
                        lemma_distinct_cells_fill(next.snake.body(), self.rows, self.cols);
                    } else {
                        lemma_some_cell_is_left(next.snake.body(), self.rows, self.cols);
                        let cell = choose|cell: Block|
                            cell.within(self.rows, self.cols) && !next.snake.body().contains(cell);
                        assert(next.is_free(cell));
                    }
                },
                SnakeTickOutcomes::Nothing => {
                    self.snake.lemma_ticked_intact(self.food);
                    self.snake.lemma_plain_step_shifts(self.food);
                    let body = next.snake.body();
                    if body.contains(self.food) {
                        let i = choose|i: int| 0 <= i < body.len() && body[i] == self.food;
                        if i > 0 {
                            assert(self.snake.body()[i - 1] == self.food);
                        }
                    }
                },
            }
        }
    }
}

/// A game of Snake on a grid whose edges are joined.
pub struct Universe {
    snake: Snake,
    food: Block,
    rows: u8,
    cols: u8,
    paused: bool,
}

impl View for Universe {
    type V = UniverseView;

    closed spec fn view(&self) -> UniverseView {
        UniverseView {
            snake: self.snake@,
            food: self.food,
            rows: self.rows,
            cols: self.cols,
            paused: self.paused,
        }
    }
}

impl Universe {
    /// A new game on a grid of `rows` by `cols` cells. The snake is one cell
    /// long and rests at the centre. The food lies under it, so the first food
    /// is due: `generate_new_food` places it.
    pub fn new(rows: u8, cols: u8) -> (universe: Universe)
        requires
            rows > 0,
            cols > 0,
        ensures
            universe@ =~= UniverseView::initial(rows, cols),
            universe@.wf(),
            universe@.snake.intact(),
            universe@.food_due(),
    {
        let snake = Snake::new(rows, cols);
        let food = Block(rows / 2, cols / 2);
        proof {
            assert(snake@.body()[0] == food);
        }
        Universe { snake, food, cols, rows, paused: false }
    }

    /// Moves the game one step on.
    ///
    /// A paused game stays as it is and the result is `Continue`. Otherwise the
    /// snake takes one step. If it collides with itself the result is `Loss`.
    /// If it eats and then fills the board, the result is `Win`. If it eats and
    /// cells are left, the result is `Continue` and new food is due: the food
    /// stays under the head until `generate_new_food` places it anew.
    pub fn tick(&mut self) -> (outcome: UniverseTickOutcomes)
        requires
            old(self)@.wf(),
            old(self)@.snake.length < usize::MAX,
        ensures
            outcome == old(self)@.tick_outcome(),
            final(self)@ =~= old(self)@.ticked(),
            final(self)@.wf(),
    {
        if self.paused {
            return UniverseTickOutcomes::Continue;
        }
        match self.snake.tick(&self.food) {
            SnakeTickOutcomes::Nothing => UniverseTickOutcomes::Continue,
            SnakeTickOutcomes::CollidedWithSelf => UniverseTickOutcomes::Loss,
            SnakeTickOutcomes::GenerateNewFood => {
                if self.is_full() {
                    UniverseTickOutcomes::Win
                } else {
                    UniverseTickOutcomes::Continue
                }
            },
        }
    }

    /// Whether the snake is as long as the grid has cells.
    pub fn is_full(&self) -> (full: bool)
        ensures
            full == (self@.snake.length == self@.cell_count()),
    {
        assert(self.rows * self.cols <= 255 * 255) by (nonlinear_arith)
            requires
                self.rows <= 255,
                self.cols <= 255,
        ;
        self.snake.length() == (self.rows as usize) * (self.cols as usize)
    }

    /// The number of rows of the grid.
    pub fn rows(&self) -> (rows: u8)
        ensures
            rows == self@.rows,
    {
        self.rows
    }

    /// The number of columns of the grid.
    pub fn cols(&self) -> (cols: u8)
        ensures
            cols == self@.cols,
    {
        self.cols
    }

    /// The coordinates of the cells of the snake, from the oldest cell of the
    /// tail to the head: for each cell its row, then its column.
    pub fn snake_to_coordinates(&self) -> (coordinates: Vec<u8>)
        ensures
            coordinates@ =~= flattened(self@.snake.blocks()),
    {
        self.snake.to_coordinates()
    }

    /// Asks the snake to turn to `d` with its next step.
    pub fn snake_buffer_direction(&mut self, d: Direction)
        ensures
            final(self)@ =~= old(self)@.turned(d),
            old(self)@.wf() ==> final(self)@.wf(),
    {
        self.snake.buffer_direction(d)
    }

    /// The row and the column of the food.
    pub fn food_to_coordinates(&self) -> (coordinates: Vec<u8>)
        ensures
            coordinates@ =~= seq![self@.food.0, self@.food.1],
    {
        vec![self.food.0, self.food.1]
    }

    /// Pauses a game that runs, and lets a paused game run again.
    pub fn toggle_pause(&mut self)
        ensures
            final(self)@ =~= old(self)@.pause_toggled(),
            old(self)@.wf() ==> final(self)@.wf(),
    {
        self.paused = !self.paused;
    }

    /// Whether the game is paused.
    pub fn is_paused(&self) -> (paused: bool)
        ensures
            paused == self@.paused,
    {
        self.paused
    }

    /// The number of cells that the snake counts as its own.
    pub fn snake_length(&self) -> (length: usize)
        ensures
            length == self@.snake.length,
    {
        self.snake.length()
    }

    /// Whether new food has to be placed: the food lies under the snake.
    pub fn food_due(&self) -> (due: bool)
        ensures
            due == self@.food_due(),
    {
        self.snake.occupies(&self.food)
    }

    /// Places the food on the first of `samples` that lies on the grid and not
    /// on the snake, and says whether there was such a sample. Without one the
    /// universe stays as it is, and the caller draws again.
    pub fn generate_new_food(&mut self, samples: &Vec<Block>) -> (placed: bool)
        requires
            old(self)@.wf(),
        ensures
            placed == old(self)@.first_free(samples@) is Some,
            final(self)@ =~= old(self)@.fed(samples@),
            final(self)@.wf(),
    {
        let mut i: usize = 0;
        assert(samples@.skip(0) =~= samples@);
        while i < samples.len()
            invariant
                i <= samples@.len(),
                self@ == old(self)@,
                self@.wf(),
                self@.first_free(samples@) == self@.first_free(samples@.skip(i as int)),
            decreases samples@.len() - i,
        {
            let food = samples[i];
            proof {
                assert(samples@.skip(i as int)[0] == food);
                assert(samples@.skip(i as int).drop_first() =~= samples@.skip(i as int + 1));
            }
            if food.0 < self.rows && food.1 < self.cols && !self.snake.occupies(&food) {
                self.food = food;
                return true;
            }
            i += 1;
        }
        false
    }
}

} // verus!
