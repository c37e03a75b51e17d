//! The snake: a head, the cells that follow it, and the direction it moves in.

use std::collections::VecDeque;
use vstd::prelude::*;
use crate::direction::Direction;
use crate::grid::{lemma_wrapped_neighbour, Block};

verus! {

/// What one step of the snake led to.
#[derive(Debug, Copy, Clone, PartialEq, Eq, Structural)]
pub enum SnakeTickOutcomes {
    /// Neither of the two below: the snake moved on, or it stood still.
    Nothing,
    /// The snake reached the food and grew; new food is due.
    GenerateNewFood,
    /// The head ran into the body.
    CollidedWithSelf,
}

/// The snake as a mathematical value.
#[verifier::ext_equal]
pub struct SnakeView {
    /// The front cell.
    pub head: Block,
    /// The cells behind the head, from the one just behind it to the oldest.
    pub tail: Seq<Block>,
    /// The direction of the last step, if there was one.
    pub direction: Option<Direction>,
    /// A requested direction that the next step will take up.
    pub buffered: Option<Direction>,
    /// The number of rows of the grid.
    pub rows: u8,
    /// The number of columns of the grid.
    pub cols: u8,
    /// The number of cells that the snake counts as its own.
    pub length: nat,
}

impl SnakeView {
    /// The grid is not empty and every cell of the snake lies on it.
    pub open spec fn wf(self) -> bool {
        &&& self.rows > 0
        &&& self.cols > 0
        &&& self.head.within(self.rows, self.cols)
        &&& forall|i: int| 0 <= i < self.tail.len() ==> (#[trigger] self.tail[i]).within(
            self.rows,
            self.cols,
        )
    }

    /// All cells of the snake, from the head to the oldest cell of the tail.
    pub open spec fn body(self) -> Seq<Block> {
        seq![self.head] + self.tail
    }

    /// All cells of the snake, from the oldest cell of the tail to the head.
    pub open spec fn blocks(self) -> Seq<Block> {
        self.body().reverse()
    }

    /// Whether the snake lies on `cell`.
    pub open spec fn occupies(self, cell: Block) -> bool {
        self.body().contains(cell)
    }

    /// The snake of a game that is still going on: its length counts its cells,
    /// no two of its cells are the same, and as long as it has no direction it
    /// is one cell long.
    pub open spec fn intact(self) -> bool {
        &&& self.wf()
        &&& self.length == self.tail.len() + 1
        &&& self.body().no_duplicates()
        &&& self.heading() is None ==> self.tail.len() == 0
    }

    /// The snake at the centre of a grid of `rows` by `cols` cells, one cell
    /// long and not yet moving.
    pub open spec fn initial(rows: u8, cols: u8) -> SnakeView {
        SnakeView {
            head: Block(rows / 2, cols / 2),
            tail: Seq::empty(),
            direction: None,
            buffered: None,
            rows,
            cols,
            length: 1,
        }
    }

    /// The snake after a request to turn to `d`. The request is kept for the
    /// next step, unless it would reverse the direction of the last step.
    pub open spec fn turned(self, d: Direction) -> SnakeView {
        match self.direction {
            Some(c) if c.opposite() == d => self,
            _ => SnakeView { buffered: Some(d), ..self },
        }
    }

    /// The direction of the next step: the requested one, if any, else that of
    /// the last step.
    pub open spec fn heading(self) -> Option<Direction> {
        if self.buffered is Some {
            self.buffered
        } else {
            self.direction
        }
    }

    /// The cell that the head moves to with the next step.
    pub open spec fn next_head(self) -> Block {
        self.head.stepped(self.heading(), self.rows, self.cols)
    }

    /// Whether the next step moves the head into the body. A snake that has no
    /// direction yet stands still and does not collide.
    pub open spec fn hits_itself(self) -> bool {
        self.heading() is Some && self.occupies(self.next_head())
    }

    /// What the next step leads to, with the food on `food`.
    pub open spec fn tick_outcome(self, food: Block) -> SnakeTickOutcomes {
        if self.hits_itself() {
            SnakeTickOutcomes::CollidedWithSelf
        } else if self.next_head() == food {
            SnakeTickOutcomes::GenerateNewFood
        } else {
            SnakeTickOutcomes::Nothing
        }
    }

    /// The snake after the next step, with the food on `food`. The head moves
    /// on and the cell it leaves joins the tail. A snake that neither collides
    /// nor eats gives up its oldest cell; one that eats counts one cell more.
    pub open spec fn ticked(self, food: Block) -> SnakeView {
        let moved = SnakeView {
            head: self.next_head(),
            tail: self.body(),
            direction: self.heading(),
            buffered: None,
            ..self
        };
        match self.tick_outcome(food) {
            SnakeTickOutcomes::CollidedWithSelf => moved,
            SnakeTickOutcomes::GenerateNewFood => SnakeView { length: self.length + 1, ..moved },
            SnakeTickOutcomes::Nothing => SnakeView { tail: self.body().drop_last(), ..moved },
        }
    }
}

impl SnakeView {
    /// A step keeps the snake on its grid.
    pub proof fn lemma_ticked_wf(self, food: Block)
        requires
            self.wf(),
        ensures
            self.ticked(food).wf(),
    {
        if self.heading() is Some {
            self.head.lemma_step_wraps(self.heading()->0, self.rows, self.cols);
        }
    }

    /// A step that does not collide keeps an intact snake intact, but for one
    /// case: a snake that has no direction yet and rests on the food eats where
    /// it stands, and then lies twice on its cell.
    pub proof fn lemma_ticked_intact(self, food: Block)
        requires
            self.intact(),
            self.tick_outcome(food) != SnakeTickOutcomes::CollidedWithSelf,
            self.heading() is Some || food != self.head,
        ensures
            self.ticked(food).intact(),
    {
        self.lemma_ticked_wf(food);
        let next = self.ticked(food);
        let body = self.body();
        if self.heading() is Some {
            assert(!body.contains(self.next_head()));
            assert forall|i: int, j: int|
                0 <= i < next.body().len() && 0 <= j < next.body().len() && i != j implies next.body()[i]
                != next.body()[j] by {
                if i == 0 {
                    assert(next.body()[j] == body[j - 1]);
                } else if j == 0 {
                    assert(next.body()[i] == body[i - 1]);
                } else {
                    assert(next.body()[i] == body[i - 1]);
                    assert(next.body()[j] == body[j - 1]);
                }
            }
        } else {
            assert(next.tail =~= self.tail);
            assert(next.body() =~= body);
        }
    }

    /// A request to turn leaves the cells and the length of the snake alone:
    /// a well-formed snake stays well formed and an intact one intact.
    pub proof fn lemma_turned_keeps_cells(self, d: Direction)
        ensures
            self.turned(d).body() == self.body(),
            self.turned(d).length == self.length,
            self.turned(d).direction == self.direction,
            self.wf() ==> self.turned(d).wf(),
            self.intact() ==> self.turned(d).intact(),
    {
    }

    /// A request for the opposite of the direction of the last step changes
    /// nothing: the snake is the same, and so is its next step. If no other
    /// request is pending, the snake keeps its direction with that step.
    pub proof fn lemma_reversal_is_ignored(self, food: Block)
        requires
            self.direction is Some,
        ensures
            self.turned(self.direction->0.opposite()) == self,
            self.turned(self.direction->0.opposite()).ticked(food) == self.ticked(food),
            self.turned(self.direction->0.opposite()).tick_outcome(food) == self.tick_outcome(
                food,
            ),
            self.buffered is None ==> self.turned(self.direction->0.opposite()).ticked(
                food,
            ).direction == self.direction,
    {
    }

    /// A request that does not reverse the direction of the last step decides
    /// the direction of the next step.
    pub proof fn lemma_turn_is_taken(self, d: Direction, food: Block)
        requires
            self.direction is Some ==> d != self.direction->0.opposite(),
        ensures
            self.turned(d).heading() == Some(d),
            self.turned(d).ticked(food).direction == Some(d),
            self.turned(d).ticked(food).buffered is None,
    {
    }

    /// The head of a moving snake goes one cell in the direction of the step,
    /// and from an edge of the grid to the opposite edge.
    pub proof fn lemma_head_wraps(self, food: Block)
        requires
            self.wf(),
            self.heading() is Some,
        ensures
            self.heading() == Some(Direction::Up) ==> self.ticked(food).head == Block(
                if self.head.0 == 0 { (self.rows - 1) as u8 } else { (self.head.0 - 1) as u8 },
                self.head.1,
            ),
            self.heading() == Some(Direction::Down) ==> self.ticked(food).head == Block(
                if self.head.0 == self.rows - 1 { 0 } else { (self.head.0 + 1) as u8 },
                self.head.1,
            ),
            self.heading() == Some(Direction::Left) ==> self.ticked(food).head == Block(
                self.head.0,
                if self.head.1 == 0 { (self.cols - 1) as u8 } else { (self.head.1 - 1) as u8 },
            ),
            self.heading() == Some(Direction::Right) ==> self.ticked(food).head == Block(
                self.head.0,
                if self.head.1 == self.cols - 1 { 0 } else { (self.head.1 + 1) as u8 },
            ),
    {
        self.head.lemma_step_wraps(self.heading()->0, self.rows, self.cols);
    }

    /// A snake that eats is one cell longer: its head is on the food, and
    /// behind the head lie all the cells it had before, none given up.
    pub proof fn lemma_meal_grows(self, food: Block)
        requires
            self.tick_outcome(food) == SnakeTickOutcomes::GenerateNewFood,
        ensures
            self.ticked(food).length == self.length + 1,
            self.ticked(food).head == food,
            self.ticked(food).tail == self.body(),
            self.ticked(food).tail.len() == self.tail.len() + 1,
            self.ticked(food).blocks() == self.blocks().push(food),
    {
        let next = self.ticked(food);
        assert(next.blocks() =~= self.blocks().push(food));
    }

    /// A snake that neither eats nor collides keeps its length and moves on by
    /// one cell: each cell of its body takes the place of the one before it.
    pub proof fn lemma_plain_step_shifts(self, food: Block)
        requires
            self.tick_outcome(food) == SnakeTickOutcomes::Nothing,
        ensures
            self.ticked(food).length == self.length,
            self.ticked(food).head == self.next_head(),
            self.ticked(food).tail.len() == self.tail.len(),
            self.ticked(food).body() == seq![self.next_head()] + self.body().drop_last(),
    {
        let next = self.ticked(food);
        assert(next.body() =~= seq![self.next_head()] + self.body().drop_last());
    }

    /// A moving snake collides exactly when its head steps onto a cell of the
    /// tail or back onto the cell it leaves, whatever the food. The snake is
    /// then left as it collided: its head lies on a cell of its tail.
    pub proof fn lemma_collision(self, food: Block)
        ensures
            self.tick_outcome(food) == SnakeTickOutcomes::CollidedWithSelf <==> self.heading()
                is Some && (self.tail.contains(self.next_head()) || self.next_head() == self.head),
            self.tick_outcome(food) == SnakeTickOutcomes::CollidedWithSelf ==> {
                &&& self.ticked(food).tail.contains(self.ticked(food).head)
                &&& self.ticked(food).length == self.length
                &&& !self.ticked(food).intact()
            },
    {
        let body = self.body();
        let cell = self.next_head();
        if body.contains(cell) {
            let i = choose|i: int| 0 <= i < body.len() && body[i] == cell;
            if i > 0 {
                assert(self.tail[i - 1] == cell);
            }
        }
        if self.tail.contains(cell) {
            let i = choose|i: int| 0 <= i < self.tail.len() && self.tail[i] == cell;
            assert(body[i + 1] == cell);
        }
        if cell == self.head {
            assert(body[0] == cell);
        }
        if self.tick_outcome(food) == SnakeTickOutcomes::CollidedWithSelf {
            let next = self.ticked(food);
            let i = choose|i: int| 0 <= i < body.len() && body[i] == cell;
            assert(next.tail[i] == next.head);
            assert(next.body()[0] == next.head);
            assert(next.body()[i + 1] == next.head);
        }
    }
}

/// The coordinates of `blocks` in one sequence: for each block its row, then
/// its column.
pub open spec fn flattened(blocks: Seq<Block>) -> Seq<u8> {
    Seq::new(
        2 * blocks.len(),
        |i: int| if i % 2 == 0 { blocks[i / 2].0 } else { blocks[i / 2].1 },
    )
}

/// The snake of one game.
pub struct Snake {
    head: Block,
    tail: VecDeque<Block>,
    curr_direction: Option<Direction>,
    buffered_direction: Option<Direction>,
    rows: u8,
    cols: u8,
    length: usize,
}

impl View for Snake {
    type V = SnakeView;

    closed spec fn view(&self) -> SnakeView {
        SnakeView {
            head: self.head,
            tail: self.tail@,
            direction: self.curr_direction,
            buffered: self.buffered_direction,
            rows: self.rows,
            cols: self.cols,
            length: self.length as nat,
        }
    }
}

/// Whether `cell` is among `cells`.
fn deque_contains(cells: &VecDeque<Block>, cell: &Block) -> (found: bool)
    ensures
        found == cells@.contains(*cell),
{
    let mut i: usize = 0;
    while i < cells.len()
        invariant
            i <= cells@.len(),
            forall|j: int| 0 <= j < i ==> cells@[j] != *cell,
        decreases cells@.len() - i,
    {
        if cells[i] == *cell {
            return true;
        }
        i += 1;
    }
    false
}

impl Snake {
    /// A snake of one cell at the centre of a grid of `rows` by `cols` cells.
    /// It has no direction yet.
    pub fn new(rows: u8, cols: u8) -> (snake: Snake)
        requires
            rows > 0,
            cols > 0,
        ensures
            snake@ =~= SnakeView::initial(rows, cols),
            snake@.intact(),
    {
        let snake = Snake {
            head: Block(rows / 2, cols / 2),
            tail: VecDeque::new(),
            curr_direction: None,
            buffered_direction: None,
            rows,
            cols,
            length: 1,
        };
        snake
    }

    /// Moves the snake by one step, with the food on `food`.
    ///
    /// A requested direction becomes the direction of this step. The head moves
    /// one cell in that direction, wrapping at the edges, and the cell it left
    /// becomes the front of the tail. If the head arrives on the body, the
    /// result is `CollidedWithSelf` and the snake is left as it collided. If it
    /// arrives on the food, the snake keeps its oldest cell and is one cell
    /// longer. Otherwise the oldest cell is given up.
    pub fn tick(&mut self, food: &Block) -> (outcome: SnakeTickOutcomes)
        requires
            old(self)@.wf(),
            old(self)@.length < usize::MAX,
        ensures
            outcome == old(self)@.tick_outcome(*food),
            final(self)@ =~= old(self)@.ticked(*food),
            final(self)@.wf(),
    {
        if self.buffered_direction.is_some() {
            self.curr_direction = self.buffered_direction;
            self.buffered_direction = None;
        }
        proof {
            lemma_wrapped_neighbour(self.head.0, self.rows);
            lemma_wrapped_neighbour(self.head.1, self.cols);
        }

        self.tail.push_front(self.head);

        // (row, col), each to be added modulo the size of its axis
        let delta_movement: (u8, u8) = match self.curr_direction {
            Some(Direction::Up) => (self.rows - 1, 0),
            Some(Direction::Down) => (1, 0),
            Some(Direction::Left) => (0, self.cols - 1),
            Some(Direction::Right) => (0, 1),
            None => (0, 0),
        };

        self.head = Block(
            ((self.head.0 as u16 + delta_movement.0 as u16) % (self.rows as u16)) as u8,
            ((self.head.1 as u16 + delta_movement.1 as u16) % (self.cols as u16)) as u8,
        );
        assert(self.head == old(self)@.next_head());
        assert(self.tail@ =~= old(self)@.body());

        if self.curr_direction.is_some() && deque_contains(&self.tail, &self.head) {
            return SnakeTickOutcomes::CollidedWithSelf;
        }

        if self.head == *food {
            self.length += 1;
            return SnakeTickOutcomes::GenerateNewFood;
        } else if self.tail.len() > 0 {
            self.tail.pop_back();
        }

        SnakeTickOutcomes::Nothing
    }

    /// Asks the snake to turn to `d` with its next step. A request for the
    /// opposite of the direction of the last step is ignored; before the first
    /// step every direction is accepted. A later request replaces an earlier one.
    pub fn buffer_direction(&mut self, d: Direction)
        ensures
            final(self)@ =~= old(self)@.turned(d),
            old(self)@.wf() ==> final(self)@.wf(),
    {
        let accepted = match self.curr_direction {
            Some(curr_d) => curr_d.get_opposite() != d,
            None => true,
        };
        if accepted {
            self.buffered_direction = Some(d);
        }
    }

    /// The cells of the snake: the tail from its oldest cell to the one just
    /// behind the head, then the head.
    pub fn to_blocks(&self) -> (blocks: Vec<Block>)
        ensures
            blocks@ =~= self@.blocks(),
    {
        let mut blocks: Vec<Block> = Vec::new();
        let mut i: usize = self.tail.len();
        while i > 0
            invariant
                i <= self.tail@.len(),
                blocks@.len() == self.tail@.len() - i,
                forall|k: int|
                    0 <= k < blocks@.len() ==> blocks@[k] == self.tail@[self.tail@.len() - 1 - k],
            decreases i,
        {
            i -= 1;
            blocks.push(self.tail[i]);
        }
        blocks.push(self.head);
        blocks
    }

    /// The coordinates of the cells of the snake, in the order of `to_blocks`:
    /// for each cell its row, then its column.
    pub fn to_coordinates(&self) -> (coordinates: Vec<u8>)
        ensures
            coordinates@ =~= flattened(self@.blocks()),
    {
        let blocks = self.to_blocks();
        let mut coordinates: Vec<u8> = Vec::new();
        let mut i: usize = 0;
        while i < blocks.len()
            invariant
                i <= blocks@.len(),
                coordinates@ =~= flattened(blocks@.take(i as int)),
            decreases blocks@.len() - i,
        {
            coordinates.push(blocks[i].0);
            coordinates.push(blocks[i].1);
            i += 1;
        }
        assert(blocks@.take(i as int) =~= blocks@);
        coordinates
    }

    /// The number of cells that the snake counts as its own.
    pub fn length(&self) -> (length: usize)
        ensures
            length == self@.length,
    {
        self.length
    }

    /// Whether the snake lies on `cell`.
    pub fn occupies(&self, cell: &Block) -> (occupied: bool)
        ensures
            occupied == self@.occupies(*cell),
    {
        let occupied = self.head == *cell || deque_contains(&self.tail, cell);
        proof {
            let body = self@.body();
            if occupied {
                if self.head == *cell {
                    assert(body[0] == *cell);
                } else {
                    let j = choose|j: int| 0 <= j < self.tail@.len() && self.tail@[j] == *cell;
                    assert(body[j + 1] == *cell);
                }
            } else if body.contains(*cell) {
                let j = choose|j: int| 0 <= j < body.len() && body[j] == *cell;
                assert(j > 0);
                assert(self.tail@[j - 1] == *cell);
            }
        }
        occupied
    }
}

} // verus!
