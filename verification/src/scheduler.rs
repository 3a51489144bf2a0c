//! Work distribution by rows: the counter from which workers claim rows,
//! and the canvas into which finished rows are placed by their index.
//!
//! The counter is meant to sit behind a lock: a worker holds the lock for
//! one `claim`. The claims of all workers then form one sequence, whatever
//! the number of workers and however they take turns.
use vstd::multiset::Multiset;
use vstd::prelude::*;
use crate::renderer::Rgb;

verus! {

/// The next row to hand out, and the number of rows there are.
#[derive(Clone, Copy, PartialEq, Eq, Structural, Debug)]
pub struct RowCounter {
    pub next_row: u32,
    pub height: u32,
}

impl RowCounter {
    /// What one claim hands out, and the counter it leaves: the next row
    /// and a counter moved on by one while rows are left, nothing and the
    /// same counter after that.
    pub open spec fn claim_spec(self) -> (Option<u32>, RowCounter) {
        if self.next_row < self.height {
            (Some(self.next_row), RowCounter { next_row: (self.next_row + 1) as u32, height: self.height })
        } else {
            (None, self)
        }
    }

    /// The counter after a number of claims.
    pub open spec fn after(self, claims: nat) -> RowCounter
        decreases claims,
    {
        if claims == 0 {
            self
        } else {
            self.after((claims - 1) as nat).claim_spec().1
        }
    }

    /// What the claim with the given index hands out, counting from zero.
    pub open spec fn row_at(self, index: nat) -> Option<u32> {
        self.after(index).claim_spec().0
    }

    /// A counter for an image of `height` rows, with every row unclaimed.
    pub fn new(height: u32) -> (counter: RowCounter)
        ensures
            counter == (RowCounter { next_row: 0, height }),
    {
        RowCounter { next_row: 0, height }
    }

    /// Claims the next row, if one is left.
    pub fn claim(&mut self) -> (row: Option<u32>)
        ensures
            row == old(self).claim_spec().0,
            *final(self) == old(self).claim_spec().1,
    {
        if self.next_row >= self.height {
            return None;
        }
        let y = self.next_row;
        self.next_row = self.next_row + 1;
        Some(y)
    }

    /// Whether every row has been claimed.
    pub fn is_exhausted(&self) -> (done: bool)
        ensures
            done == (self.claim_spec().0 is None),
    {
        self.next_row >= self.height
    }
}

/// A fresh counter hands out the rows in increasing order: the claim with
/// index `i` gets row `i` while `i` is below the height, and nothing
/// after that.
pub proof fn lemma_rows_in_order(height: u32, index: nat)
    ensures
        (RowCounter { next_row: 0, height }).after(index).height == height,
        (RowCounter { next_row: 0, height }).after(index).next_row == if index < height {
            index
        } else {
            height as nat
        },
        (RowCounter { next_row: 0, height }).row_at(index) == if index < height {
            Some(index as u32)
        } else {
            None
        },
    decreases index,
{
    if index > 0 {
        lemma_rows_in_order(height, (index - 1) as nat);
    }
}

/// The rows that one worker gets. `schedule[i]` is the worker that makes
/// the claim with index `i` on a fresh counter.
pub open spec fn claimed_by(height: u32, schedule: Seq<nat>, worker: nat) -> Multiset<u32>
    decreases schedule.len(),
{
    if schedule.len() == 0 {
        Multiset::empty()
    } else {
        let earlier = claimed_by(height, schedule.drop_last(), worker);
        let last = (schedule.len() - 1) as nat;
        match (RowCounter { next_row: 0, height }).row_at(last) {
            Some(row) => if schedule.last() == worker {
                earlier.insert(row)
            } else {
                earlier
            },
            None => earlier,
        }
    }
}

/// The rows that the workers `0` to `workers - 1` get, taken together.
pub open spec fn claimed_by_all(height: u32, schedule: Seq<nat>, workers: nat) -> Multiset<u32>
    decreases workers,
{
    if workers == 0 {
        Multiset::empty()
    } else {
        claimed_by_all(height, schedule, (workers - 1) as nat).add(
            claimed_by(height, schedule, (workers - 1) as nat),
        )
    }
}

/// How often one worker gets a given row: once if the row exists and the
/// claim with its index is made, by that worker; never otherwise.
pub proof fn lemma_claimed_by_count(height: u32, schedule: Seq<nat>, worker: nat, row: u32)
    ensures
        claimed_by(height, schedule, worker).count(row) == if row < height && row < schedule.len()
            && schedule[row as int] == worker {
            1nat
        } else {
            0nat
        },
    decreases schedule.len(),
{
    if schedule.len() > 0 {
        let front = schedule.drop_last();
        lemma_claimed_by_count(height, front, worker, row);
        lemma_rows_in_order(height, (schedule.len() - 1) as nat);
        if (row as int) < front.len() {
            assert(front[row as int] == schedule[row as int]);
        }
    }
}

/// How often the first `workers` workers get a given row, taken together.
pub proof fn lemma_claimed_by_all_count(height: u32, schedule: Seq<nat>, workers: nat, row: u32)
    ensures
        claimed_by_all(height, schedule, workers).count(row) == if row < height && row
            < schedule.len() && schedule[row as int] < workers {
            1nat
        } else {
            0nat
        },
    decreases workers,
{
    if workers > 0 {
        lemma_claimed_by_all_count(height, schedule, (workers - 1) as nat, row);
        lemma_claimed_by_count(height, schedule, (workers - 1) as nat, row);
    }
}

/// Every row is claimed exactly once. Let any number of workers make
/// claims on a fresh counter, in any order, until at least as many claims
/// are made as there are rows. Then the rows that the workers get, taken
/// together, are each row below the height once, and nothing else.
pub proof fn lemma_every_row_claimed_once(height: u32, schedule: Seq<nat>, workers: nat, row: u32)
    requires
        schedule.len() >= height,
        forall|i: int| 0 <= i < schedule.len() ==> #[trigger] schedule[i] < workers,
    ensures
        claimed_by_all(height, schedule, workers).count(row) == if row < height {
            1nat
        } else {
            0nat
        },
{
    lemma_claimed_by_all_count(height, schedule, workers, row);
}

/// The finished image, row by row.
pub struct Canvas {
    pub width: u32,
    pub height: u32,
    pub rows: Vec<Vec<Rgb>>,
    /// How many rows have been placed so far.
    pub rows_placed: u32,
}

impl Canvas {
    /// Whether the canvas holds `height` rows of `width` pixels each, and
    /// no more rows were placed than it holds.
    pub open spec fn well_formed(self) -> bool {
        &&& self.rows@.len() == self.height
        &&& forall|y: int| 0 <= y < self.height ==> (#[trigger] self.rows@[y])@.len() == self.width
        &&& self.rows_placed <= self.height
    }

    /// The pixels of row `y`.
    pub open spec fn row_spec(self, y: int) -> Seq<Rgb> {
        self.rows@[y]@
    }

    /// A black canvas on which no row has been placed.
    pub fn new(width: u32, height: u32) -> (canvas: Canvas)
        ensures
            canvas.well_formed(),
            canvas.width == width,
            canvas.height == height,
            canvas.rows_placed == 0,
            forall|x: int, y: int|
                0 <= x < width && 0 <= y < height ==> #[trigger] canvas.row_spec(y)[x] == (Rgb {
                    red: 0,
                    green: 0,
                    blue: 0,
                }),
    {
        let mut rows: Vec<Vec<Rgb>> = Vec::new();
        let mut y: u32 = 0;
        while y < height
            invariant
                y <= height,
                rows@.len() == y,
                forall|k: int| 0 <= k < y ==> (#[trigger] rows@[k])@.len() == width,
                forall|x: int, k: int|
                    0 <= x < width && 0 <= k < y ==> #[trigger] rows@[k]@[x] == (Rgb {
                        red: 0,
                        green: 0,
                        blue: 0,
                    }),
            decreases height - y,
        {
            let mut row: Vec<Rgb> = Vec::new();
            let mut x: u32 = 0;
            while x < width
                invariant
                    x <= width,
                    row@.len() == x,
                    forall|k: int|
                        0 <= k < x ==> #[trigger] row@[k] == (Rgb { red: 0, green: 0, blue: 0 }),
                decreases width - x,
            {
                row.push(Rgb { red: 0, green: 0, blue: 0 });
                x = x + 1;
            }
            rows.push(row);
            y = y + 1;
        }
        Canvas { width, height, rows, rows_placed: 0 }
    }

    /// Places a finished row at its index `y`, whatever was there, and says
    /// whether as many rows have now been placed as the canvas holds.
    pub fn place_row(&mut self, y: u32, row: Vec<Rgb>) -> (complete: bool)
        requires
            old(self).well_formed(),
            y < old(self).height,
            row@.len() == old(self).width,
            old(self).rows_placed < old(self).height,
        ensures
            final(self).well_formed(),
            final(self).width == old(self).width,
            final(self).height == old(self).height,
            final(self).rows_placed == old(self).rows_placed + 1,
            final(self).row_spec(y as int) == row@,
            forall|k: int|
                0 <= k < old(self).height && k != y ==> #[trigger] final(self).row_spec(k) == old(
                    self,
                ).row_spec(k),
            complete == (final(self).rows_placed == final(self).height),
    {
        self.rows.set(y as usize, row);
        self.rows_placed = self.rows_placed + 1;
        self.rows_placed >= self.height
    }

    /// Whether as many rows have been placed as the canvas holds.
    pub fn is_complete(&self) -> (complete: bool)
        ensures
            complete == (self.rows_placed >= self.height),
    {
        self.rows_placed >= self.height
    }

    /// The pixel in column `x` of row `y`.
    pub fn pixel(&self, x: u32, y: u32) -> (pixel: Rgb)
        requires
            self.well_formed(),
            x < self.width,
            y < self.height,
        ensures
            pixel == self.row_spec(y as int)[x as int],
    {
        self.rows[y as usize][x as usize]
    }
}

/// Rows arrive in any order and land in the same place: two rows with
/// different indices can be placed in either order.
pub proof fn lemma_placement_order_independent(
    rows: Seq<Seq<Rgb>>,
    first: int,
    first_row: Seq<Rgb>,
    second: int,
    second_row: Seq<Rgb>,
)
    requires
        0 <= first < rows.len(),
        0 <= second < rows.len(),
        first != second,
    ensures
        rows.update(first, first_row).update(second, second_row) == rows.update(
            second,
            second_row,
        ).update(first, first_row),
{
    assert(rows.update(first, first_row).update(second, second_row) =~= rows.update(
        second,
        second_row,
    ).update(first, first_row));
}

} // verus!
