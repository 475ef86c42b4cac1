use vstd::prelude::*;
use vstd::multiset::Multiset;
use vstd::seq_lib::group_to_multiset_ensures;
use rand::RngExt;

use crate::board::Board;
use crate::board::CellState;
use crate::board::CellState::E;
use crate::board::CellState::F;

verus! {

broadcast use group_to_multiset_ensures;

/// The seven block shapes. `LMir` and `SkewMir` are the mirrored variants of
/// `L` and `Skew`; no rotation or reflection is ever computed, each variant
/// has its own fixed pattern in the catalog.
#[derive(Debug, Clone, Copy, PartialEq, Eq, Structural)]
pub enum Shape {
    Straight,
    Square,
    T,
    L,
    Skew,
    LMir,
    SkewMir,
}

/// The shape catalog: the fixed 4x4 occupancy pattern of each shape, rows top
/// to bottom, columns left to right.
pub open spec fn shape_table(s: Shape) -> Seq<Seq<CellState>> {
    match s {
        Shape::Straight => seq![seq![E, E, E, E], seq![E, E, E, E], seq![E, E, E, E], seq![F, F, F, F]],
        Shape::Square => seq![seq![E, E, E, E], seq![E, E, E, E], seq![E, F, F, E], seq![E, F, F, E]],
        Shape::T => seq![seq![E, E, E, E], seq![E, E, E, E], seq![E, F, E, E], seq![F, F, F, E]],
        Shape::L => seq![seq![E, E, E, E], seq![E, F, F, E], seq![E, F, E, E], seq![E, F, E, E]],
        Shape::Skew => seq![seq![E, E, E, E], seq![E, E, E, E], seq![F, F, E, E], seq![E, F, F, E]],
        Shape::LMir => seq![seq![E, E, E, E], seq![E, F, F, E], seq![E, E, F, E], seq![E, E, F, E]],
        Shape::SkewMir => seq![seq![E, E, E, E], seq![E, E, E, E], seq![E, F, F, E], seq![F, F, E, E]],
    }
}

/// The pattern `st` is cell for cell the catalog entry of shape `s`.
pub open spec fn matches_shape(st: [[CellState; 4]; 4], s: Shape) -> bool {
    forall|i: int, j: int| 0 <= i < 4 && 0 <= j < 4 ==> #[trigger] st[i][j] == shape_table(s)[i][j]
}

impl Shape {
    /// Look a shape's fixed occupancy pattern up in the catalog.
    pub fn get_structure(&self) -> (r: [[CellState; 4]; 4])
        ensures
            matches_shape(r, *self),
    {
        match self {
            Shape::Straight => [[E; 4], [E; 4], [E; 4], [F; 4]],
            Shape::Square => [[E; 4], [E; 4], [E, F, F, E], [E, F, F, E]],
            Shape::T => [[E; 4], [E; 4], [E, F, E, E], [F, F, F, E]],
            Shape::L => [[E; 4], [E, F, F, E], [E, F, E, E], [E, F, E, E]],
            Shape::Skew => [[E; 4], [E; 4], [F, F, E, E], [E, F, F, E]],
            Shape::LMir => [[E; 4], [E, F, F, E], [E, E, F, E], [E, E, F, E]],
            Shape::SkewMir => [[E; 4], [E; 4], [E, F, F, E], [F, F, E, E]],
        }
    }
}

/// All seven shapes, in catalog order.
pub open spec fn all_shapes() -> Seq<Shape> {
    seq![
        Shape::Straight,
        Shape::Square,
        Shape::T,
        Shape::L,
        Shape::Skew,
        Shape::LMir,
        Shape::SkewMir,
    ]
}

/// Relies on rand::rng and rand::Rng::random_range: a random index drawn
/// from `0..n`, which always lies below `n` and panics only when the range
/// is empty.
#[verifier::external_body]
fn random_index(n: usize) -> (r: usize)
    requires
        n > 0,
    ensures
        r < n,
{
    rand::rng().random_range(0..n)
}

/// Shuffle all seven shapes into a fresh bag: a uniformly random permutation,
/// so the bag holds each shape exactly once.
fn shuffled_bag() -> (q: Vec<Shape>)
    ensures
        q@.to_multiset() == all_shapes().to_multiset(),
        q@.len() == 7,
{
    let mut buf: Vec<Shape> = vec![
        Shape::Straight,
        Shape::Square,
        Shape::T,
        Shape::L,
        Shape::Skew,
        Shape::LMir,
        Shape::SkewMir,
    ];
    let mut q: Vec<Shape> = Vec::new();
    proof {
        assert(buf@ =~= all_shapes());
        assert(q@.to_multiset().add(buf@.to_multiset()) =~= all_shapes().to_multiset());
    }
    let mut k: usize = 0;
    while k < 7
        invariant
            k <= 7,
            buf@.len() == 7 - k,
            q@.len() == k,
            q@.to_multiset().add(buf@.to_multiset()) == all_shapes().to_multiset(),
        decreases 7 - k,
    {
        let i = random_index(buf.len());
        let ghost q0 = q@;
        let ghost buf0 = buf@;
        let s = buf.remove(i);
        q.push(s);
        proof {
            assert(buf0.to_multiset().count(s) > 0);
            assert(q@.to_multiset().add(buf@.to_multiset()) =~= q0.to_multiset().add(
                buf0.to_multiset(),
            ));
        }
        k = k + 1;
    }
    proof {
        assert(buf@.to_multiset() =~= Multiset::<Shape>::empty());
        assert(q@.to_multiset() =~= all_shapes().to_multiset());
    }
    q
}

/// The falling piece: the 4x4 pattern copied from its shape at spawn time,
/// the bag of upcoming shapes, the count of ticks it has dropped
/// (`progress`), and the column offset of its pattern's left edge within the
/// 10-wide board (`shift`).
pub struct Tetromino {
    pub structure: [[CellState; 4]; 4],
    pub queue: Vec<Shape>,
    pub progress: usize,
    pub shift: usize,
}

/// Piece `t` just drew from the former bag `q0`: its pattern is the catalog
/// entry of the bag's last shape and the bag shrank by that shape. A draw
/// from an empty bag first refills it with a random permutation of all seven
/// shapes, so there the drawn shape together with the remaining bag holds
/// each shape exactly once.
pub open spec fn drew_from(t: Tetromino, q0: Seq<Shape>) -> bool {
    if q0.len() > 0 {
        t.queue@ == q0.drop_last() && matches_shape(t.structure, q0.last())
    } else {
        exists|s: Shape|
            matches_shape(t.structure, s) && (#[trigger] t.queue@.push(s)).to_multiset()
                == all_shapes().to_multiset()
    }
}

impl Tetromino {
    /// Draw the next shape: refill the bag with a shuffled set of all seven
    /// shapes when it is empty, then take the bag's last shape as the new
    /// pattern. `progress` and `shift` are left alone.
    pub fn next_tetro(&mut self)
        ensures
            final(self).progress == old(self).progress,
            final(self).shift == old(self).shift,
            drew_from(*final(self), old(self).queue@),
            old(self).queue@.len() == 0 ==> final(self).queue@.len() == 6,
            old(self).queue@.len() > 0 ==> final(self).queue@.len() == old(self).queue@.len() - 1,
    {
        if self.queue.len() == 0 {
            self.queue = shuffled_bag();
        }
        let ghost qpre = self.queue@;
        let s = self.queue.pop().unwrap();
        self.structure = s.get_structure();
        proof {
            assert(qpre.drop_last().push(qpre.last()) =~= qpre);
            if old(self).queue@.len() == 0 {
                assert(self.queue@.push(s).to_multiset() == all_shapes().to_multiset());
            }
        }
    }

    /// Spawn a piece: shuffle a fresh bag, draw its last shape, and start
    /// with no drop progress at the default column offset of 3.
    pub fn new() -> (t: Tetromino)
        ensures
            t.progress == 0,
            t.shift == 3,
            t.queue@.len() == 6,
            drew_from(t, Seq::<Shape>::empty()),
    {
        let mut q = shuffled_bag();
        let ghost qpre = q@;
        let s = q.pop().unwrap();
        let t = Tetromino { structure: s.get_structure(), queue: q, progress: 0, shift: 3 };
        proof {
            assert(qpre.drop_last().push(qpre.last()) =~= qpre);
            assert(t.queue@.push(s).to_multiset() == all_shapes().to_multiset());
        }
        t
    }
}

/// How a falling piece can conflict with the board. `Side` is part of the
/// taxonomy but is never produced by the detector: a pattern column that
/// leaves the board counts as a `Block` collision.
#[derive(Debug, Clone, Copy, PartialEq, Eq, Structural)]
pub enum Collision {
    Side,
    Bottom,
    Block,
}

/// The collision test of the single pattern cell `(i, j)` of piece `t`
/// against `placed`, in the detector's order of checks: an empty cell never
/// collides; a filled cell whose target row `16 + i - progress` falls below
/// the board collides with the bottom; one whose target column `j + shift`
/// leaves the 10-wide board, or lands on a filled placed cell, collides with
/// a block.
pub open spec fn cell_hit(
    placed: [[CellState; 10]; 20],
    t: Tetromino,
    i: int,
    j: int,
) -> Option<Collision> {
    if t.structure[i][j] != F {
        None
    } else if (16 + i - t.progress as int) < 0 {
        Some(Collision::Bottom)
    } else if (j + t.shift as int) >= 10 {
        Some(Collision::Block)
    } else if placed[16 + i - t.progress as int][j + t.shift as int] == F {
        Some(Collision::Block)
    } else {
        None
    }
}

/// The first cell hit at or after position `k` of the row-major scan of the
/// piece's 4x4 pattern (cell `k` is row `k / 4`, column `k % 4`).
pub open spec fn first_hit_from(
    placed: [[CellState; 10]; 20],
    t: Tetromino,
    k: int,
) -> Option<Collision>
    decreases 16 - k,
{
    if k < 0 || k >= 16 {
        None
    } else {
        match cell_hit(placed, t, k / 4, k % 4) {
            Some(c) => Some(c),
            None => first_hit_from(placed, t, k + 1),
        }
    }
}

/// What the collision detector returns: the first hit of the row-major scan
/// over the piece's pattern, or `None` when no cell collides.
pub open spec fn detect_collision_spec(
    placed: [[CellState; 10]; 20],
    t: Tetromino,
) -> Option<Collision> {
    first_hit_from(placed, t, 0)
}

/// Some pattern cell of `t` collides against `placed`.
pub open spec fn collides(placed: [[CellState; 10]; 20], t: Tetromino) -> bool {
    exists|i: int, j: int|
        0 <= i < 4 && 0 <= j < 4 && (#[trigger] cell_hit(placed, t, i, j)) is Some
}

/// The scan from position `k` comes up empty exactly when no cell at or
/// after `k` hits.
proof fn lemma_first_hit_none_iff(placed: [[CellState; 10]; 20], t: Tetromino, k: int)
    requires
        0 <= k <= 16,
    ensures
        first_hit_from(placed, t, k) is None <==> (forall|m: int|
            k <= m < 16 ==> (#[trigger] cell_hit(placed, t, m / 4, m % 4)) is None),
    decreases 16 - k,
{
    if k < 16 {
        lemma_first_hit_none_iff(placed, t, k + 1);
    }
}

/// The detector reports nothing exactly when no pattern cell collides.
pub proof fn lemma_detect_none_iff_no_collision(placed: [[CellState; 10]; 20], t: Tetromino)
    ensures
        detect_collision_spec(placed, t) is None <==> !collides(placed, t),
{
    lemma_first_hit_none_iff(placed, t, 0);
    if collides(placed, t) {
        let (i, j) = choose|i: int, j: int|
            0 <= i < 4 && 0 <= j < 4 && (#[trigger] cell_hit(placed, t, i, j)) is Some;
        let m = 4 * i + j;
        assert(m / 4 == i && m % 4 == j) by (nonlinear_arith)
            requires
                0 <= i < 4 && 0 <= j < 4 && m == 4 * i + j,
        ;
        assert(cell_hit(placed, t, m / 4, m % 4) is Some);
    }
    if detect_collision_spec(placed, t) is None {
        assert forall|i: int, j: int| 0 <= i < 4 && 0 <= j < 4 implies (#[trigger] cell_hit(
            placed,
            t,
            i,
            j,
        )) is None by {
            let m = 4 * i + j;
            assert(m / 4 == i && m % 4 == j) by (nonlinear_arith)
                requires
                    0 <= i < 4 && 0 <= j < 4 && m == 4 * i + j,
            ;
            assert(cell_hit(placed, t, m / 4, m % 4) is None);
        }
    }
}

/// Decide whether the piece's current position is illegal: scan its pattern
/// in row-major order and report the first cell that hits the bottom, leaves
/// the board sideways, or lands on a placed cell.
pub fn detect_collision(board: &Board, tetro: &Tetromino) -> (r: Option<Collision>)
    ensures
        r == detect_collision_spec(board.placed, *tetro),
        r is Some <==> collides(board.placed, *tetro),
{
    proof {
        lemma_detect_none_iff_no_collision(board.placed, *tetro);
    }
    let mut k: usize = 0;
    while k < 16
        invariant
            k <= 16,
            detect_collision_spec(board.placed, *tetro) == first_hit_from(
                board.placed,
                *tetro,
                k as int,
            ),
            detect_collision_spec(board.placed, *tetro) is None <==> !collides(
                board.placed,
                *tetro,
            ),
        decreases 16 - k,
    {
        let i = k / 4;
        let j = k % 4;
        if tetro.structure[i][j] == F {
            if 16 + i < tetro.progress {
                return Some(Collision::Bottom);
            }
            if tetro.shift >= 10 || j + tetro.shift >= 10 {
                return Some(Collision::Block);
            }
            let row = 16 + i - tetro.progress;
            let col = j + tetro.shift;
            if board.placed[row][col] == F {
                return Some(Collision::Block);
            }
        }
        k = k + 1;
    }
    None
}

/// Piece `t` covers board cell `(r, c)`: some filled cell of its 4x4 pattern
/// lands there under the piece's current shift and progress.
pub open spec fn occupies(t: Tetromino, r: int, c: int) -> bool {
    exists|i: int, j: int|
        0 <= i < 4 && 0 <= j < 4 && (#[trigger] t.structure[i][j]) == F && r == 16 + i
            - t.progress as int && c == j + t.shift as int
}

/// Pattern cell `m` of the row-major scan (row `m / 4`, column `m % 4`) of
/// piece `t` is filled and lands on board cell `(r, c)`.
spec fn cell_lands_at(t: Tetromino, m: int, r: int, c: int) -> bool {
    t.structure[m / 4][m % 4] == F && r == 16 + m / 4 - t.progress as int && c == m % 4
        + t.shift as int
}

/// Some scan cell before position `k` lands on `(r, c)`.
spec fn occupies_upto(t: Tetromino, k: int, r: int, c: int) -> bool {
    exists|m: int| 0 <= m < k && #[trigger] cell_lands_at(t, m, r, c)
}

/// Once the whole pattern is scanned, landing somewhere is the same as
/// occupying it.
proof fn lemma_occupies_upto_whole(t: Tetromino, r: int, c: int)
    ensures
        occupies_upto(t, 16, r, c) <==> occupies(t, r, c),
{
    if occupies_upto(t, 16, r, c) {
        let m = choose|m: int| 0 <= m < 16 && #[trigger] cell_lands_at(t, m, r, c);
        assert(0 <= m / 4 < 4 && 0 <= m % 4 < 4);
        assert(t.structure[m / 4][m % 4] == F);
    }
    if occupies(t, r, c) {
        let (i, j) = choose|i: int, j: int|
            0 <= i < 4 && 0 <= j < 4 && (#[trigger] t.structure[i][j]) == F && r == 16 + i
                - t.progress as int && c == j + t.shift as int;
        let m = 4 * i + j;
        assert(m / 4 == i && m % 4 == j) by (nonlinear_arith)
            requires
                0 <= i < 4 && 0 <= j < 4 && m == 4 * i + j,
        ;
        assert(cell_lands_at(t, m, r, c));
    }
}

/// Stamp the piece's filled pattern cells onto grid `g` as `F` at their
/// target positions, skipping cells that fall outside the board.
pub fn stamp_piece(g: &mut [[CellState; 10]; 20], t: &Tetromino)
    ensures
        forall|r: int, c: int|
            0 <= r < 20 && 0 <= c < 10 ==> final(g)[r][c] == (if occupies(*t, r, c) {
                F
            } else {
                old(g)[r][c]
            }),
{
    let ghost g0 = *g;
    let mut k: usize = 0;
    while k < 16
        invariant
            k <= 16,
            forall|r: int, c: int|
                0 <= r < 20 && 0 <= c < 10 ==> g[r][c] == (if occupies_upto(*t, k as int, r, c) {
                    F
                } else {
                    g0[r][c]
                }),
        decreases 16 - k,
    {
        let ghost gpre = *g;
        let i = k / 4;
        let j = k % 4;
        if t.structure[i][j] == F && 16 + i >= t.progress && t.shift < 10 && j + t.shift < 10 {
            let row = 16 + i - t.progress;
            let col = j + t.shift;
            if row < 20 {
                g[row][col] = F;
            }
        }
        proof {
            assert forall|r: int, c: int| 0 <= r < 20 && 0 <= c < 10 implies g[r][c] == (
            if occupies_upto(*t, k + 1, r, c) {
                F
            } else {
                g0[r][c]
            }) by {
                if cell_lands_at(*t, k as int, r, c) {
                    assert(g[r][c] == F);
                    assert(occupies_upto(*t, k + 1, r, c));
                } else {
                    if occupies_upto(*t, k + 1, r, c) {
                        let m = choose|m: int|
                            0 <= m < k + 1 && #[trigger] cell_lands_at(*t, m, r, c);
                        assert(0 <= m < k);
                        assert(occupies_upto(*t, k as int, r, c));
                    } else {
                        assert(!occupies_upto(*t, k as int, r, c));
                    }
                    assert(g[r][c] == gpre[r][c]);
                    assert(gpre[r][c] == (if occupies_upto(*t, k as int, r, c) {
                        F
                    } else {
                        g0[r][c]
                    }));
                }
            }
        }
        k = k + 1;
    }
    proof {
        assert forall|r: int, c: int| 0 <= r < 20 && 0 <= c < 10 implies g[r][c] == (if occupies(
            *t,
            r,
            c,
        ) {
            F
        } else {
            g0[r][c]
        }) by {
            lemma_occupies_upto_whole(*t, r, c);
        }
    }
}

/// The piece one tick further down: `progress` raised by one, all else the
/// same.
pub open spec fn advanced(t: Tetromino) -> Tetromino {
    Tetromino { progress: (t.progress + 1) as usize, ..t }
}

/// One gravity tick. Optimistically advance the piece one row, then ask the
/// detector: no collision keeps the advanced position; a `Bottom` or `Block`
/// collision rolls the advance back, commits the piece's cells into `placed`,
/// and draws the next shape from the bag with `progress` reset to 0. (A
/// `Side` collision would leave the advanced piece in place, but the detector
/// never produces one.)
pub fn drop_tetro(board: &mut Board, tetro: &mut Tetromino)
    requires
        old(tetro).progress < usize::MAX,
    ensures
        final(board).state == old(board).state,
        ({
            let t1 = advanced(*old(tetro));
            match detect_collision_spec(old(board).placed, t1) {
                None => final(board).placed == old(board).placed && *final(tetro) == t1,
                Some(k) => if k == Collision::Side {
                    final(board).placed == old(board).placed && *final(tetro) == t1
                } else {
                    &&& final(tetro).progress == 0
                    &&& final(tetro).shift == old(tetro).shift
                    &&& drew_from(*final(tetro), old(tetro).queue@)
                    &&& forall|r: int, c: int|
                        0 <= r < 20 && 0 <= c < 10 ==> final(board).placed[r][c] == (
                        if occupies(*old(tetro), r, c) {
                            F
                        } else {
                            old(board).placed[r][c]
                        })
                },
            }
        }),
{
    tetro.progress = tetro.progress + 1;
    proof {
        assert(*tetro == advanced(*old(tetro)));
    }
    match detect_collision(board, tetro) {
        None => {},
        Some(Collision::Side) => {},
        Some(Collision::Bottom) | Some(Collision::Block) => {
            tetro.progress = tetro.progress - 1;
            proof {
                assert(*tetro == *old(tetro));
            }
            stamp_piece(&mut board.placed, tetro);
            tetro.progress = 0;
            tetro.next_tetro();
        },
    }
}

/// No scan from any position ever reports `Side`.
proof fn lemma_first_hit_not_side(placed: [[CellState; 10]; 20], t: Tetromino, k: int)
    ensures
        first_hit_from(placed, t, k) != Some(Collision::Side),
    decreases 16 - k,
{
    if 0 <= k < 16 {
        lemma_first_hit_not_side(placed, t, k + 1);
    }
}

/// The detector never reports `Side`: a pattern cell past the board's right
/// edge counts as a `Block` collision, so the `Side` variant stays
/// unreachable.
pub proof fn lemma_detect_never_side(placed: [[CellState; 10]; 20], t: Tetromino)
    ensures
        detect_collision_spec(placed, t) != Some(Collision::Side),
{
    lemma_first_hit_not_side(placed, t, 0);
}

/// Robustness law: a piece whose filled pattern sticks out past the board's
/// right edge is always reported as colliding, never read out of bounds -
/// the detector has no precondition and all its grid accesses are checked.
pub proof fn lemma_out_of_range_shift_collides(placed: [[CellState; 10]; 20], t: Tetromino)
    requires
        exists|i: int, j: int|
            0 <= i < 4 && 0 <= j < 4 && (#[trigger] t.structure[i][j]) == F && (j + t.shift as int)
                >= 10,
    ensures
        detect_collision_spec(placed, t) is Some,
{
    let (i, j) = choose|i: int, j: int|
        0 <= i < 4 && 0 <= j < 4 && (#[trigger] t.structure[i][j]) == F && (j + t.shift as int)
            >= 10;
    assert(cell_hit(placed, t, i, j) is Some);
    assert(collides(placed, t));
    lemma_detect_none_iff_no_collision(placed, t);
}

/// Seven-bag law: a bag whose contents are one of each shape - what a refill
/// produces - is a 7-element permutation of all shapes with no duplicates,
/// and so is the order in which draws consume it (last element first). Seven
/// consecutive draws starting from an empty bag therefore repeat no shape.
pub proof fn lemma_bag_no_repeat(q: Seq<Shape>)
    requires
        q.to_multiset() == all_shapes().to_multiset(),
    ensures
        q.len() == 7,
        q.no_duplicates(),
        forall|s: Shape| q.contains(s),
        q.reverse().no_duplicates(),
        forall|s: Shape| q.reverse().contains(s),
{
    assert(all_shapes().no_duplicates());
    all_shapes().lemma_multiset_has_no_duplicates();
    q.lemma_multiset_has_no_duplicates_conv();
    assert(all_shapes().len() == 7);
    assert(all_shapes().to_multiset().len() == all_shapes().len()) by {
        all_shapes().to_multiset_ensures();
    }
    assert(q.to_multiset().len() == q.len()) by {
        q.to_multiset_ensures();
    }
    assert(q.len() == 7);
    assert forall|s: Shape| q.contains(s) by {
        if s == Shape::Straight {
            assert(all_shapes()[0] == s);
        } else if s == Shape::Square {
            assert(all_shapes()[1] == s);
        } else if s == Shape::T {
            assert(all_shapes()[2] == s);
        } else if s == Shape::L {
            assert(all_shapes()[3] == s);
        } else if s == Shape::Skew {
            assert(all_shapes()[4] == s);
        } else if s == Shape::LMir {
            assert(all_shapes()[5] == s);
        } else {
            assert(all_shapes()[6] == s);
        }
        assert(all_shapes().contains(s));
        assert(q.to_multiset().count(s) > 0);
    }
    q.lemma_reverse_to_multiset();
    q.reverse().lemma_multiset_has_no_duplicates_conv();
    assert forall|s: Shape| q.reverse().contains(s) by {
        assert(q.contains(s));
        assert(q.reverse().to_multiset().count(s) > 0);
    }
}

} // verus!
