use vstd::prelude::*;

use std::collections::{HashMap, HashSet};

use crate::blocks::{stack_blocks, Block, BlockType};
use crate::objects::Point;

verus! {

broadcast use vstd::std_specs::hash::group_hash_axioms;

/// Whether some piece in `rows` has a cell at `p`.
pub open spec fn occupied_in(rows: Map<i32, Seq<Block>>, p: Point) -> bool {
    exists|r: i32, i: int, j: int|
        #![trigger rows[r][i].cells()[j]]
        rows.contains_key(r) && 0 <= i < rows[r].len() && 0 <= j < rows[r][i].cells().len()
            && rows[r][i].cells()[j] == p
}

/// Every entry of a row of `rows` is a settled single cell in that row.
pub open spec fn rows_wf(rows: Map<i32, Seq<Block>>) -> bool {
    forall|r: i32, i: int|
        #![trigger rows[r][i]]
        rows.contains_key(r) && 0 <= i < rows[r].len() ==> {
            &&& rows[r][i].cells().len() == 1
            &&& rows[r][i].cells()[0].y == r
            &&& rows[r][i].shape() == BlockType::StackBlock
        }
}

/// No two entries of a row of `rows` share a column. With `rows_wf` (each
/// entry lies in its row) no two entries of the whole stack share a cell.
pub open spec fn rows_distinct(rows: Map<i32, Seq<Block>>) -> bool {
    forall|r: i32, i: int, j: int|
        #![trigger rows[r][i], rows[r][j]]
        rows.contains_key(r) && 0 <= i < j < rows[r].len() ==> rows[r][i].cells()[0].x
            != rows[r][j].cells()[0].x
}

/// Every row present in `rows` holds at least one entry.
pub open spec fn rows_nonempty(rows: Map<i32, Seq<Block>>) -> bool {
    forall|r: i32| #[trigger] rows.contains_key(r) ==> rows[r].len() > 0
}

/// Whether row `r` of `rows` has a cell in every column of `[0, w)`.
pub open spec fn row_full(rows: Map<i32, Seq<Block>>, r: i32, w: int) -> bool {
    forall|x: int| 0 <= x < w ==> #[trigger] occupied_in(rows, Point { x: x as i32, y: r })
}

/// How far row `r` moves down when the rows of `cleared` are removed: the
/// number of cleared rows below it (larger `y`).
pub open spec fn shift_of(cleared: Set<i32>, r: i32) -> nat {
    cleared.filter(|q: i32| q > r).len()
}

/// Whether `p` is occupied once the rows of `cleared` are removed from `rows`
/// and every other row moved down by `shift_of`.
pub open spec fn occupied_after_clear(
    rows: Map<i32, Seq<Block>>,
    cleared: Set<i32>,
    p: Point,
) -> bool {
    exists|q: Point|
        #[trigger] occupied_in(rows, q) && !cleared.contains(q.y) && p.x == q.x && p.y == q.y
            + shift_of(cleared, q.y)
}

/// The row `r` of `rows`, empty where it is absent.
pub open spec fn row_or_empty(rows: Map<i32, Seq<Block>>, r: i32) -> Seq<Block> {
    if rows.contains_key(r) {
        rows[r]
    } else {
        Seq::empty()
    }
}

proof fn lemma_occupied_after_push(rows: Map<i32, Seq<Block>>, key: i32, b: Block, p: Point)
    ensures
        occupied_in(rows.insert(key, row_or_empty(rows, key).push(b)), p) <==> (occupied_in(
            rows,
            p,
        ) || b.cells().contains(p)),
{
    let old_row = row_or_empty(rows, key);
    let new_rows = rows.insert(key, old_row.push(b));
    if occupied_in(rows, p) {
        let (r, i, j) = choose|r: i32, i: int, j: int|
            #![trigger rows[r][i].cells()[j]]
            rows.contains_key(r) && 0 <= i < rows[r].len() && 0 <= j < rows[r][i].cells().len()
                && rows[r][i].cells()[j] == p;
        assert(new_rows[r][i] == rows[r][i]);
        assert(new_rows[r][i].cells()[j] == p);
    }
    if b.cells().contains(p) {
        let j = choose|j: int| 0 <= j < b.cells().len() && b.cells()[j] == p;
        let i = old_row.len() as int;
        assert(new_rows[key][i] == b);
        assert(new_rows[key][i].cells()[j] == p);
    }
    if occupied_in(new_rows, p) {
        let (r, i, j) = choose|r: i32, i: int, j: int|
            #![trigger new_rows[r][i].cells()[j]]
            new_rows.contains_key(r) && 0 <= i < new_rows[r].len() && 0 <= j
                < new_rows[r][i].cells().len() && new_rows[r][i].cells()[j] == p;
        if r == key && i == old_row.len() {
            assert(b.cells()[j] == p);
        } else if r == key {
            assert(rows[r][i].cells()[j] == p);
        } else {
            assert(rows[r][i].cells()[j] == p);
        }
    }
}

proof fn lemma_push_keeps_distinct(rows: Map<i32, Seq<Block>>, key: i32, b: Block)
    requires
        rows_wf(rows),
        rows_distinct(rows),
        b.cells().len() == 1,
        b.cells()[0].y == key,
        !occupied_in(rows, b.cells()[0]),
    ensures
        rows_distinct(rows.insert(key, row_or_empty(rows, key).push(b))),
{
    let old_row = row_or_empty(rows, key);
    let new_rows = rows.insert(key, old_row.push(b));
    assert forall|r: i32, i: int, j: int|
        #![trigger new_rows[r][i], new_rows[r][j]]
        new_rows.contains_key(r) && 0 <= i < j < new_rows[r].len() implies new_rows[r][i].cells()[0].x
            != new_rows[r][j].cells()[0].x by {
        if r == key && j == old_row.len() {
            assert(rows.contains_key(key));
            assert(rows[key][i].cells()[0].y == key);
            if rows[key][i].cells()[0].x == b.cells()[0].x {
                assert(rows[key][i].cells()[0] == b.cells()[0]);
                assert(occupied_in(rows, b.cells()[0]));
            }
        } else if r == key {
            assert(rows[key][i] == new_rows[key][i]);
            assert(rows[key][j] == new_rows[key][j]);
        } else {
            assert(rows[r][i] == new_rows[r][i]);
            assert(rows[r][j] == new_rows[r][j]);
        }
    }
}

/// Distinct rows that stay move to distinct rows: a row moves down by no
/// more than the number of cleared rows between it and the next kept row.
proof fn lemma_shift_injective(cleared: Set<i32>, r1: i32, r2: i32)
    requires
        cleared.finite(),
        r1 < r2,
        !cleared.contains(r2),
    ensures
        r1 + shift_of(cleared, r1) < r2 + shift_of(cleared, r2),
{
    let all = cleared.filter(|q: i32| q > r1);
    let above = cleared.filter(|q: i32| q > r2);
    let between = cleared.filter(|q: i32| r1 < q && q <= r2);
    assert(all =~= above + between);
    assert(above.disjoint(between));
    vstd::set_lib::lemma_set_disjoint_lens(above, between);
    lemma_bounded_len(between, r1 as int, r2 - 1);
}

/// Whether some piece of `row` has its first cell in column `x`.
pub open spec fn has_column(row: Seq<Block>, x: int) -> bool {
    exists|j: int| 0 <= j < row.len() && #[trigger] row[j].cells()[0].x == x
}

proof fn lemma_column_occupied(rows: Map<i32, Seq<Block>>, r: i32, x: i32)
    requires
        rows_wf(rows),
        rows.contains_key(r),
    ensures
        occupied_in(rows, Point { x: x, y: r }) <==> has_column(rows[r], x as int),
{
    let p = Point { x: x, y: r };
    if occupied_in(rows, p) {
        let (r2, i, j) = choose|r2: i32, i: int, j: int|
            #![trigger rows[r2][i].cells()[j]]
            rows.contains_key(r2) && 0 <= i < rows[r2].len() && 0 <= j < rows[r2][i].cells().len()
                && rows[r2][i].cells()[j] == p;
        assert(rows[r2][i].cells().len() == 1);
        assert(r2 == r);
        assert(rows[r][i].cells()[0].x == x);
    }
    if has_column(rows[r], x as int) {
        let j = choose|j: int| 0 <= j < rows[r].len() && #[trigger] rows[r][j].cells()[0].x == x;
        assert(rows[r][j].cells()[0] == p);
    }
}

fn row_has_column(row: &Vec<Block>, x: i32) -> (r: bool)
    requires
        forall|j: int| 0 <= j < row.len() ==> (#[trigger] row@[j]).cells().len() == 1,
    ensures
        r == has_column(row@, x as int),
{
    let mut j: usize = 0;
    while j < row.len()
        invariant
            j <= row.len(),
            forall|jj: int| 0 <= jj < row.len() ==> (#[trigger] row@[jj]).cells().len() == 1,
            forall|jj: int| 0 <= jj < j ==> #[trigger] row@[jj].cells()[0].x != x,
        decreases row.len() - j,
    {
        if row[j].get_pieces()[0].x == x {
            return true;
        }
        j = j + 1;
    }
    false
}

proof fn lemma_bounded_len(a: Set<i32>, lo: int, hi: int)
    requires
        a.finite(),
        lo <= hi,
        forall|q: i32| #[trigger] a.contains(q) ==> lo < q <= hi,
    ensures
        a.len() <= hi - lo,
    decreases hi - lo,
{
    if lo == hi {
        assert(a =~= Set::empty());
    } else if a.contains(hi as i32) {
        lemma_bounded_len(a.remove(hi as i32), lo, hi - 1);
    } else {
        lemma_bounded_len(a, lo, hi - 1);
    }
}

/// The elements of `s`, each once.
fn set_elements(s: &HashSet<i32>) -> (r: Vec<i32>)
    ensures
        r@.to_set() == s@,
        r@.no_duplicates(),
{
    let mut r: Vec<i32> = Vec::new();
    for k in it: s.iter()
        invariant
            r@ == it.seq().take(it.index() as int).unref(),
            it.seq().unref().to_set() == s@,
            it.seq().unref().no_duplicates(),
            it.index() == it.seq().len() ==> r@ == it.seq().unref(),
    {
        r.push(*k);
        assert(r@ =~= it.seq().take(it.index() as int + 1).unref());
    }
    assert(r@.to_set() == s@);
    r
}

/// The index row `r` moves to when the rows of `cleared` are removed.
fn shifted_row(cleared: &Vec<i32>, r: i32) -> (n: i32)
    requires
        cleared@.no_duplicates(),
    ensures
        n == r + shift_of(cleared@.to_set(), r),
{
    let mut n: i32 = r;
    let mut k: usize = 0;
    proof {
        let e = cleared@.subrange(0, 0).to_set();
        assert(e =~= Set::empty());
        assert(e.filter(|q: i32| q > r) =~= Set::empty());
    }
    while k < cleared.len()
        invariant
            k <= cleared.len(),
            cleared@.no_duplicates(),
            n == r + shift_of(cleared@.subrange(0, k as int).to_set(), r),
        decreases cleared.len() - k,
    {
        let q = cleared[k];
        let ghost s0 = cleared@.subrange(0, k as int);
        let ghost s1 = cleared@.subrange(0, k + 1);
        proof {
            assert(s1 =~= s0.push(q));
            assert forall|a: i32| s1.contains(a) <==> s0.contains(a) || a == q by {
                if s1.contains(a) {
                    let j = choose|j: int| 0 <= j < s1.len() && s1[j] == a;
                    if j < k {
                        assert(s0[j] == a);
                    }
                }
                if s0.contains(a) {
                    let j = choose|j: int| 0 <= j < s0.len() && s0[j] == a;
                    assert(s1[j] == a);
                }
                assert(s1[k as int] == q);
            }
            assert(s1.to_set() =~= s0.to_set().insert(q));
            assert(!s0.to_set().contains(q)) by {
                if s0.contains(q) {
                    let j = choose|j: int| 0 <= j < s0.len() && s0[j] == q;
                    assert(cleared@[j] == cleared@[k as int]);
                }
            }
            let f0 = s0.to_set().filter(|x: i32| x > r);
            let f1 = s1.to_set().filter(|x: i32| x > r);
            if q > r {
                assert(f1 =~= f0.insert(q));
                lemma_bounded_len(f1, r as int, i32::MAX as int);
            } else {
                assert(f1 =~= f0);
            }
        }
        if q > r {
            n = n + 1;
        }
        k = k + 1;
    }
    assert(cleared@.subrange(0, cleared.len() as int) =~= cleared@);
    n
}

/// Whether `b` is the single-cell piece `src` moved to row `y`: same column,
/// shape and colours.
pub open spec fn is_moved_entry(b: Block, src: Block, y: i32) -> bool {
    &&& b.cells() == seq![Point { x: src.cells()[0].x, y: y }]
    &&& b.shape() == src.shape()
    &&& b.spec_colour_1() == src.spec_colour_1()
    &&& b.spec_colour_2() == src.spec_colour_2()
}

/// Whether `new` is `old` with the rows of `cleared` dropped and every other
/// row `r` moved, whole and in order, to `r + shift_of(cleared, r)`, each of
/// its entries keeping column, shape and colours with `y` rewritten.
pub open spec fn rows_after_clear(
    old: Map<i32, Seq<Block>>,
    cleared: Set<i32>,
    new: Map<i32, Seq<Block>>,
) -> bool {
    &&& forall|k: i32|
        #[trigger] new.contains_key(k) ==> exists|r: i32|
            #[trigger] old.contains_key(r) && !cleared.contains(r) && k == r + shift_of(
                cleared,
                r,
            )
    &&& forall|r: i32|
        #[trigger] old.contains_key(r) && !cleared.contains(r) ==> {
            let k = (r + shift_of(cleared, r)) as i32;
            &&& new.contains_key(k)
            &&& new[k].len() == old[r].len()
            &&& forall|j: int| 0 <= j < old[r].len() ==> is_moved_entry(#[trigger] new[k][j], old[r][j], k)
        }
}

/// Moves every single-cell piece of `row` to row `y`, keeping its column.
fn move_row(row: Vec<Block>, y: i32) -> (r: Vec<Block>)
    requires
        forall|j: int|
            0 <= j < row.len() ==> {
                &&& (#[trigger] row@[j]).cells().len() == 1
                &&& row@[j].shape() == BlockType::StackBlock
            },
    ensures
        r.len() == row.len(),
        forall|j: int| 0 <= j < r.len() ==> is_moved_entry(#[trigger] r@[j], row@[j], y),
{
    let ghost orig = row@;
    let mut row = row;
    let mut out: Vec<Block> = Vec::new();
    while row.len() > 0
        invariant
            out.len() + row.len() == orig.len(),
            row@ == orig.subrange(out.len() as int, orig.len() as int),
            forall|j: int|
                0 <= j < orig.len() ==> {
                    &&& (#[trigger] orig[j]).cells().len() == 1
                    &&& orig[j].shape() == BlockType::StackBlock
                },
            forall|j: int| 0 <= j < out.len() ==> is_moved_entry(#[trigger] out@[j], orig[j], y),
        decreases row.len(),
    {
        let mut b = row.remove(0);
        assert(b == orig[out.len() as int]);
        let pieces = b.get_pieces_mut();
        let x = pieces[0].x;
        pieces[0] = Point { x: x, y: y };
        assert(b.cells() =~= seq![Point { x: x, y: y }]);
        out.push(b);
    }
    out
}

/// Whether some piece of `row` has a cell at `p`.
pub open spec fn occupied_by(row: Seq<Block>, p: Point) -> bool {
    exists|i: int, j: int|
        #![trigger row[i].cells()[j]]
        0 <= i < row.len() && 0 <= j < row[i].cells().len() && row[i].cells()[j] == p
}

/// The rows of a map of row vectors.
pub open spec fn view_rows(m: Map<i32, Vec<Block>>) -> Map<i32, Seq<Block>> {
    m.map_values(|v: Vec<Block>| v@)
}

/// Whether `p` is the moved place of a cell of `rows` whose row is among
/// `done` and not among `cleared`.
spec fn moved_from(
    rows: Map<i32, Seq<Block>>,
    cleared: Set<i32>,
    done: Seq<i32>,
    p: Point,
) -> bool {
    exists|q: Point|
        #[trigger] occupied_in(rows, q) && done.contains(q.y) && !cleared.contains(q.y) && p.x
            == q.x && p.y == q.y + shift_of(cleared, q.y)
}

proof fn lemma_occupied_after_append(
    rows: Map<i32, Seq<Block>>,
    key: i32,
    extra: Seq<Block>,
    p: Point,
)
    ensures
        occupied_in(rows.insert(key, row_or_empty(rows, key) + extra), p) <==> (occupied_in(
            rows,
            p,
        ) || occupied_by(extra, p)),
{
    let old_row = row_or_empty(rows, key);
    let new_rows = rows.insert(key, old_row + extra);
    if occupied_in(rows, p) {
        let (r, i, j) = choose|r: i32, i: int, j: int|
            #![trigger rows[r][i].cells()[j]]
            rows.contains_key(r) && 0 <= i < rows[r].len() && 0 <= j < rows[r][i].cells().len()
                && rows[r][i].cells()[j] == p;
        assert(new_rows[r][i] == rows[r][i]);
        assert(new_rows[r][i].cells()[j] == p);
    }
    if occupied_by(extra, p) {
        let (i, j) = choose|i: int, j: int|
            #![trigger extra[i].cells()[j]]
            0 <= i < extra.len() && 0 <= j < extra[i].cells().len() && extra[i].cells()[j] == p;
        let n = old_row.len() + i;
        assert(new_rows[key][n] == extra[i]);
        assert(new_rows[key][n].cells()[j] == p);
    }
    if occupied_in(new_rows, p) {
        let (r, i, j) = choose|r: i32, i: int, j: int|
            #![trigger new_rows[r][i].cells()[j]]
            new_rows.contains_key(r) && 0 <= i < new_rows[r].len() && 0 <= j
                < new_rows[r][i].cells().len() && new_rows[r][i].cells()[j] == p;
        if r == key && i >= old_row.len() {
            assert(extra[i - old_row.len()].cells()[j] == p);
        } else {
            assert(rows[r][i].cells()[j] == p);
        }
    }
}

proof fn lemma_moved_row(
    rows: Map<i32, Seq<Block>>,
    key: i32,
    y: i32,
    moved: Seq<Block>,
    p: Point,
)
    requires
        rows_wf(rows),
        rows.contains_key(key),
        moved.len() == rows[key].len(),
        forall|j: int|
            0 <= j < moved.len() ==> (#[trigger] moved[j]).cells() == seq![
                Point { x: rows[key][j].cells()[0].x, y: y },
            ],
    ensures
        occupied_by(moved, p) <==> exists|q: Point|
            #[trigger] occupied_in(rows, q) && q.y == key && p.x == q.x && p.y == y,
{
    if occupied_by(moved, p) {
        let (i, j) = choose|i: int, j: int|
            #![trigger moved[i].cells()[j]]
            0 <= i < moved.len() && 0 <= j < moved[i].cells().len() && moved[i].cells()[j] == p;
        let q = rows[key][i].cells()[0];
        assert(rows[key][i].cells()[0] == q);
        assert(occupied_in(rows, q));
    }
    if exists|q: Point| #[trigger] occupied_in(rows, q) && q.y == key && p.x == q.x && p.y == y {
        let q = choose|q: Point| #[trigger] occupied_in(rows, q) && q.y == key && p.x == q.x && p.y == y;
        let (r, i, j) = choose|r: i32, i: int, j: int|
            #![trigger rows[r][i].cells()[j]]
            rows.contains_key(r) && 0 <= i < rows[r].len() && 0 <= j < rows[r][i].cells().len()
                && rows[r][i].cells()[j] == q;
        assert(rows[r][i].cells().len() == 1);
        assert(r == key);
        assert(moved[i].cells()[0] == p);
    }
}

/// The cells of `c` that lie in row `r`, in order.
pub open spec fn cells_in_row(c: Seq<Point>, r: i32) -> Seq<Point>
    decreases c.len(),
{
    if c.len() == 0 {
        c
    } else if c.last().y == r {
        cells_in_row(c.drop_last(), r).push(c.last())
    } else {
        cells_in_row(c.drop_last(), r)
    }
}

/// Whether `b` is the settled single cell `p` in the colours of `block`.
pub open spec fn is_settled_cell(b: Block, p: Point, block: Block) -> bool {
    &&& b.cells() == seq![p]
    &&& b.shape() == BlockType::StackBlock
    &&& b.spec_colour_1() == block.spec_colour_1()
    &&& b.spec_colour_2() == block.spec_colour_2()
}

/// Whether `new` is `old` with each of `cells` settled, in the colours of
/// `block`, at the end of its row, in order: every row keeps its entries and
/// gains those of its cells; a row appears once it gets a cell.
pub open spec fn rows_after_commit(
    old: Map<i32, Seq<Block>>,
    cells: Seq<Point>,
    block: Block,
    new: Map<i32, Seq<Block>>,
) -> bool {
    forall|r: i32|
        #![trigger row_or_empty(new, r)]
        #![trigger new.contains_key(r)]
        {
            let base = row_or_empty(old, r);
            let added = cells_in_row(cells, r);
            &&& new.contains_key(r) <==> (old.contains_key(r) || added.len() > 0)
            &&& row_or_empty(new, r).len() == base.len() + added.len()
            &&& forall|j: int| 0 <= j < base.len() ==> #[trigger] row_or_empty(new, r)[j] == base[j]
            &&& forall|j: int|
                0 <= j < added.len() ==> is_settled_cell(
                    #[trigger] row_or_empty(new, r)[base.len() + j],
                    added[j],
                    block,
                )
        }
}

/// Whether `after` holds exactly the cells of `before` and the cells `cells`.
pub open spec fn is_commit(before: BlockStack, cells: Seq<Point>, after: BlockStack) -> bool {
    forall|p: Point| #[trigger]
        after.is_occupied(p) <==> (before.is_occupied(p) || cells.contains(p))
}

/// Whether some entry of `commits` holds `p`.
pub open spec fn committed(commits: Seq<Seq<Point>>, p: Point) -> bool {
    exists|i: int| 0 <= i < commits.len() && #[trigger] commits[i].contains(p)
}

/// Starting from an empty stack and committing pieces one after another, a
/// cell is occupied (not free) exactly when one of the committed pieces has a
/// cell there: `stacks[i + 1]` is `stacks[i]` after committing `commits[i]`.
pub proof fn lemma_free_iff_not_committed(
    stacks: Seq<BlockStack>,
    commits: Seq<Seq<Point>>,
    p: Point,
)
    requires
        stacks.len() == commits.len() + 1,
        forall|q: Point| !stacks[0].is_occupied(q),
        forall|i: int|
            0 <= i < commits.len() ==> is_commit(stacks[i], #[trigger] commits[i], stacks[i + 1]),
    ensures
        stacks.last().is_occupied(p) <==> committed(commits, p),
    decreases commits.len(),
{
    let n = commits.len();
    if n == 0 {
        assert(!stacks[0].is_occupied(p));
    } else {
        let s0 = stacks.drop_last();
        let c0 = commits.drop_last();
        assert forall|i: int| 0 <= i < c0.len() implies is_commit(
            s0[i],
            #[trigger] c0[i],
            s0[i + 1],
        ) by {
            assert(is_commit(stacks[i], commits[i], stacks[i + 1]));
        }
        lemma_free_iff_not_committed(s0, c0, p);
        assert(is_commit(stacks[n - 1], commits[n - 1], stacks[n as int]));
        assert(stacks[n as int].is_occupied(p) <==> (stacks[n - 1].is_occupied(p)
            || commits[n - 1].contains(p)));
        if committed(commits, p) {
            let i = choose|i: int| 0 <= i < commits.len() && #[trigger] commits[i].contains(p);
            if i < n - 1 {
                assert(c0[i].contains(p));
            }
        }
        if committed(c0, p) {
            let i = choose|i: int| 0 <= i < c0.len() && #[trigger] c0[i].contains(p);
            assert(commits[i].contains(p));
        }
    }
}

/// The settled cells, as single-cell pieces grouped by row. Rows without
/// cells are absent.
pub struct BlockStack {
    block_stack: HashMap<i32, Vec<Block>>,
}

impl BlockStack {
    /// The rows of the stack, each with its settled pieces in insertion order.
    pub closed spec fn rows(&self) -> Map<i32, Seq<Block>> {
        self.block_stack@.map_values(|v: Vec<Block>| v@)
    }

    /// Every entry of a row is a settled single cell that lies in that row,
    /// no two entries share a cell, and no row is empty.
    pub open spec fn wf(&self) -> bool {
        rows_wf(self.rows()) && rows_distinct(self.rows()) && rows_nonempty(self.rows())
    }

    /// The rows that have a settled cell in every column of `[0, w)`.
    pub open spec fn complete_rows(&self, w: int) -> Set<i32> {
        self.rows().dom().filter(|r: i32| row_full(self.rows(), r, w))
    }

    /// Whether some settled piece has a cell at `p`.
    pub open spec fn is_occupied(&self, p: Point) -> bool {
        occupied_in(self.rows(), p)
    }

    /// The empty stack.
    pub fn new() -> (r: Self)
        ensures
            r.wf(),
            forall|p: Point| !r.is_occupied(p),
    {
        let r = Self { block_stack: HashMap::new() };
        assert(r.rows() =~= Map::empty());
        r
    }

    pub fn get_stack(&self) -> (r: &HashMap<i32, Vec<Block>>)
        ensures
            r@.map_values(|v: Vec<Block>| v@) == self.rows(),
    {
        &self.block_stack
    }

    /// Whether no settled piece has a cell at `piece`.
    pub fn check_collision(&self, piece: &Point) -> (r: bool)
        ensures
            r == !self.is_occupied(*piece),
    {
        let keys = self.row_indexes();
        let mut k: usize = 0;
        while k < keys.len()
            invariant
                k <= keys.len(),
                keys@.to_set() == self.block_stack@.dom(),
                forall|r: i32, i: int, j: int|
                    #![trigger self.rows()[r][i].cells()[j]]
                    keys@.subrange(0, k as int).contains(r) && self.rows().contains_key(r) && 0
                        <= i < self.rows()[r].len() && 0 <= j < self.rows()[r][i].cells().len()
                        ==> self.rows()[r][i].cells()[j] != *piece,
            decreases keys.len() - k,
        {
            let key = keys[k];
            assert(self.block_stack@.dom().contains(key)) by {
                assert(keys@.contains(key));
            }
            let row = self.block_stack.get(&key).unwrap();
            assert(self.rows().contains_key(key));
            assert(row@ == self.rows()[key]);
            let mut i: usize = 0;
            while i < row.len()
                invariant
                    i <= row.len(),
                    row@ == self.rows()[key],
                    self.rows().contains_key(key),
                    forall|ii: int, j: int|
                        #![trigger self.rows()[key][ii].cells()[j]]
                        0 <= ii < i && 0 <= j < self.rows()[key][ii].cells().len()
                            ==> self.rows()[key][ii].cells()[j] != *piece,
                decreases row.len() - i,
            {
                let pieces = row[i].get_pieces();
                let mut j: usize = 0;
                while j < pieces.len()
                    invariant
                        j <= pieces.len(),
                        pieces@ == self.rows()[key][i as int].cells(),
                        self.rows().contains_key(key),
                        i < self.rows()[key].len(),
                        forall|jj: int| 0 <= jj < j ==> pieces@[jj] != *piece,
                    decreases pieces.len() - j,
                {
                    if pieces[j].x == piece.x && pieces[j].y == piece.y {
                        assert(self.rows()[key][i as int].cells()[j as int] == *piece);
                        return false;
                    }
                    j = j + 1;
                }
                i = i + 1;
            }
            assert forall|r: i32, ii: int, j: int|
                #![trigger self.rows()[r][ii].cells()[j]]
                keys@.subrange(0, k + 1).contains(r) && self.rows().contains_key(r) && 0 <= ii
                    < self.rows()[r].len() && 0 <= j < self.rows()[r][ii].cells().len() implies
                    self.rows()[r][ii].cells()[j] != *piece by {
                assert(keys@.subrange(0, k + 1) =~= keys@.subrange(0, k as int).push(key));
                if r != key {
                    assert(keys@.subrange(0, k as int).contains(r));
                }
            }
            k = k + 1;
        }
        assert forall|r: i32, i: int, j: int|
            #![trigger self.rows()[r][i].cells()[j]]
            self.rows().contains_key(r) && 0 <= i < self.rows()[r].len() && 0 <= j
                < self.rows()[r][i].cells().len() implies self.rows()[r][i].cells()[j]
                != *piece by {
            assert(keys@.to_set().contains(r));
            assert(keys@.subrange(0, keys.len() as int) =~= keys@);
        }
        true
    }

    /// Settles `block`: each of its cells becomes a single-cell piece appended
    /// to the row of that cell.
    pub fn add_block_to_stack(&mut self, block: &Block)
        requires
            old(self).wf(),
            block.cells().no_duplicates(),
            forall|j: int|
                0 <= j < block.cells().len() ==> !old(self).is_occupied(#[trigger] block.cells()[j]),
        ensures
            final(self).wf(),
            is_commit(*old(self), block.cells(), *final(self)),
            rows_after_commit(old(self).rows(), block.cells(), *block, final(self).rows()),
    {
        let mut stack_blocks = stack_blocks(block);
        let ghost cells = block.cells();
        let ghost n = cells.len();
        let ghost mut i: int = 0;
        assert(cells.take(0) =~= Seq::<Point>::empty());
        while stack_blocks.len() > 0
            invariant
                self.wf(),
                cells == block.cells(),
                n == cells.len(),
                cells.no_duplicates(),
                forall|j: int| 0 <= j < n ==> !old(self).is_occupied(#[trigger] cells[j]),
                0 <= i,
                i + stack_blocks.len() == n,
                forall|k: int|
                    0 <= k < stack_blocks.len() ==> {
                        &&& (#[trigger] stack_blocks[k]).cells() == seq![cells[i + k]]
                        &&& stack_blocks[k].shape() == BlockType::StackBlock
                        &&& stack_blocks[k].spec_colour_1() == block.spec_colour_1()
                        &&& stack_blocks[k].spec_colour_2() == block.spec_colour_2()
                    },
                rows_after_commit(old(self).rows(), cells.take(i), *block, self.rows()),
                forall|p: Point| #[trigger]
                    self.is_occupied(p) <==> (old(self).is_occupied(p) || cells.subrange(
                        0,
                        i,
                    ).contains(p)),
            decreases stack_blocks.len(),
        {
            let b = stack_blocks.remove(0);
            let index = b.get_pieces()[0].y;
            let ghost before = self.rows();
            let ghost prev = *self;
            let row = match self.block_stack.remove(&index) {
                Some(mut row) => {
                    row.push(b);
                    row
                },
                None => {
                    let mut row: Vec<Block> = Vec::new();
                    row.push(b);
                    row
                },
            };
            assert(row@ == row_or_empty(before, index).push(b));
            proof {
                assert(b.cells()[0] == cells[i]);
                assert(!prev.is_occupied(cells[i])) by {
                    if cells.subrange(0, i).contains(cells[i]) {
                        let j = choose|j: int| 0 <= j < i && cells.subrange(0, i)[j] == cells[i];
                        assert(cells[j] == cells[i]);
                    }
                }
                lemma_push_keeps_distinct(before, index, b);
            }
            self.block_stack.insert(index, row);
            assert(self.rows() =~= before.insert(index, row_or_empty(before, index).push(b)));
            proof {
                let c0 = cells.take(i);
                let c1 = cells.take(i + 1);
                assert(c1.drop_last() =~= c0);
                assert(c1.last() == cells[i]);
                assert(is_settled_cell(b, cells[i], *block));
                let now = self.rows();
                assert forall|r: i32|
                    #![trigger row_or_empty(now, r)]
                    #![trigger now.contains_key(r)]
                    {
                        let base = row_or_empty(old(self).rows(), r);
                        let added = cells_in_row(c1, r);
                        &&& now.contains_key(r) <==> (old(self).rows().contains_key(r) || added.len() > 0)
                        &&& row_or_empty(now, r).len() == base.len() + added.len()
                        &&& forall|j: int| 0 <= j < base.len() ==> #[trigger] row_or_empty(now, r)[j] == base[j]
                        &&& forall|j: int|
                            0 <= j < added.len() ==> is_settled_cell(
                                #[trigger] row_or_empty(now, r)[base.len() + j],
                                added[j],
                                *block,
                            )
                    } by {
                    assert(row_or_empty(before, r) == row_or_empty(before, r));
                    assert(before.contains_key(r) == before.contains_key(r));
                    if r == index {
                        assert(cells_in_row(c1, r) == cells_in_row(c0, r).push(cells[i]));
                        assert(row_or_empty(now, r) == row_or_empty(before, r).push(b));
                    } else {
                        assert(cells_in_row(c1, r) == cells_in_row(c0, r));
                        assert(row_or_empty(now, r) == row_or_empty(before, r));
                    }
                }
            }
            assert forall|p: Point| #[trigger]
                self.is_occupied(p) <==> (old(self).is_occupied(p) || cells.subrange(
                    0,
                    i + 1,
                ).contains(p)) by {
                lemma_occupied_after_push(before, index, b, p);
                assert(prev.is_occupied(p) <==> (old(self).is_occupied(p) || cells.subrange(
                    0,
                    i,
                ).contains(p)));
                assert(b.cells() == seq![cells[i]]);
                let s0 = cells.subrange(0, i);
                let s1 = cells.subrange(0, i + 1);
                assert(s1 =~= s0.push(cells[i]));
                if s1.contains(p) {
                    let j = choose|j: int| 0 <= j < s1.len() && s1[j] == p;
                    if j < i {
                        assert(s0[j] == p);
                    }
                }
                if s0.contains(p) {
                    let j = choose|j: int| 0 <= j < s0.len() && s0[j] == p;
                    assert(s1[j] == p);
                }
                if p == cells[i] {
                    assert(s1[i] == p);
                }
                assert(b.cells().contains(p) <==> p == cells[i]) by {
                    if b.cells().contains(p) {
                        let j = choose|j: int| 0 <= j < b.cells().len() && b.cells()[j] == p;
                    }
                    if p == cells[i] {
                        assert(b.cells()[0] == p);
                    }
                }
            }
            proof {
                i = i + 1;
            }
        }
        assert(cells.subrange(0, n as int) =~= cells);
        assert(cells.take(n as int) =~= cells);
    }

    fn find_complete_row_indexes(&self, game_width: i32) -> (r: HashSet<i32>)
        requires
            self.wf(),
        ensures
            r@ == self.complete_rows(game_width as int),
    {
        let keys = self.row_indexes();
        let mut complete: HashSet<i32> = HashSet::new();
        let mut k: usize = 0;
        while k < keys.len()
            invariant
                self.wf(),
                k <= keys.len(),
                keys@.to_set() == self.block_stack@.dom(),
                keys@.no_duplicates(),
                forall|r: i32|
                    #![trigger complete@.contains(r)]
                    complete@.contains(r) <==> (keys@.subrange(0, k as int).contains(r) && row_full(
                        self.rows(),
                        r,
                        game_width as int,
                    )),
            decreases keys.len() - k,
        {
            let index = keys[k];
            assert(keys@.contains(index));
            assert(self.rows().contains_key(index));
            let row = self.block_stack.get(&index).unwrap();
            assert(row@ == self.rows()[index]);
            let mut row_complete = true;
            let mut x: i32 = 0;
            while x < game_width && row_complete
                invariant
                    self.wf(),
                    self.rows().contains_key(index),
                    row@ == self.rows()[index],
                    0 <= x,
                    game_width >= 0 ==> x <= game_width,
                    row_complete ==> forall|xx: int|
                        0 <= xx < x ==> #[trigger] occupied_in(
                            self.rows(),
                            Point { x: xx as i32, y: index },
                        ),
                    !row_complete ==> !row_full(self.rows(), index, game_width as int),
                decreases game_width - x + (if row_complete { 1int } else { 0int }),
            {
                proof {
                    lemma_column_occupied(self.rows(), index, x);
                }
                if !row_has_column(row, x) {
                    assert(!occupied_in(self.rows(), Point { x: (x as int) as i32, y: index }));
                    row_complete = false;
                } else {
                    x = x + 1;
                }
            }
            let ghost before = complete@;
            if row_complete {
                complete.insert(index);
            }
            assert(keys@.subrange(0, k + 1) =~= keys@.subrange(0, k as int).push(index));
            assert forall|r: i32|
                #![trigger complete@.contains(r)]
                complete@.contains(r) <==> (keys@.subrange(0, k + 1).contains(r) && row_full(
                    self.rows(),
                    r,
                    game_width as int,
                )) by {
                let s0 = keys@.subrange(0, k as int);
                let s1 = keys@.subrange(0, k + 1);
                if s1.contains(r) {
                    let j = choose|j: int| 0 <= j < s1.len() && s1[j] == r;
                    if j < k {
                        assert(s0[j] == r);
                    }
                }
                if s0.contains(r) {
                    let j = choose|j: int| 0 <= j < s0.len() && s0[j] == r;
                    assert(s1[j] == r);
                }
                assert(s1[k as int] == index);
            }
            k = k + 1;
        }
        assert(keys@.subrange(0, keys.len() as int) =~= keys@);
        assert(complete@ =~= self.complete_rows(game_width as int));
        complete
    }

    /// Removes every full row and moves each remaining row down, whole and in
    /// order, by the number of full rows below it. Returns how many rows were
    /// removed. Without a full row every row stays where it is with the same
    /// entries.
    pub fn reduce_stack(&mut self, game_width: i32) -> (r: usize)
        requires
            old(self).wf(),
        ensures
            final(self).wf(),
            r == old(self).complete_rows(game_width as int).len(),
            forall|p: Point| #[trigger]
                final(self).is_occupied(p) <==> occupied_after_clear(
                    old(self).rows(),
                    old(self).complete_rows(game_width as int),
                    p,
                ),
            rows_after_clear(
                old(self).rows(),
                old(self).complete_rows(game_width as int),
                final(self).rows(),
            ),
    {
        let complete_row_indexes = self.find_complete_row_indexes(game_width);
        self.remove_completed_rows(&complete_row_indexes);
        complete_row_indexes.len()
    }

    fn remove_completed_rows(&mut self, complete_row_indexes: &HashSet<i32>)
        requires
            old(self).wf(),
        ensures
            final(self).wf(),
            forall|p: Point| #[trigger]
                final(self).is_occupied(p) <==> occupied_after_clear(
                    old(self).rows(),
                    complete_row_indexes@,
                    p,
                ),
            rows_after_clear(old(self).rows(), complete_row_indexes@, final(self).rows()),
    {
        let ghost old_rows = self.rows();
        let ghost cleared = complete_row_indexes@;
        let keys = self.row_indexes();
        let mut old_map: HashMap<i32, Vec<Block>> = HashMap::new();
        std::mem::swap(&mut old_map, &mut self.block_stack);
        let mut reduced: HashMap<i32, Vec<Block>> = HashMap::new();
        proof {
            assert(view_rows(reduced@) =~= Map::empty());
        }
        let cleared_rows = set_elements(complete_row_indexes);
        proof {
            vstd::seq_lib::seq_to_set_is_finite(cleared_rows@);
        }
        let mut k: usize = 0;
        while k < keys.len()
            invariant
                k <= keys.len(),
                keys@.no_duplicates(),
                keys@.to_set() == old_rows.dom(),
                rows_wf(old_rows),
                cleared_rows@.no_duplicates(),
                cleared == cleared_rows@.to_set(),
                cleared == complete_row_indexes@,
                forall|kk: int|
                    k <= kk < keys.len() ==> old_map@.contains_key(#[trigger] keys@[kk])
                        && old_map@[keys@[kk]]@ == old_rows[keys@[kk]],
                rows_wf(view_rows(reduced@)),
                rows_distinct(old_rows),
                rows_distinct(view_rows(reduced@)),
                cleared.finite(),
                forall|r: i32|
                    #[trigger] keys@.subrange(0, k as int).contains(r) && !cleared.contains(r) ==> {
                        let kk = (r + shift_of(cleared, r)) as i32;
                        &&& reduced@.contains_key(kk)
                        &&& view_rows(reduced@)[kk].len() == old_rows[r].len()
                        &&& forall|j: int|
                            0 <= j < old_rows[r].len() ==> is_moved_entry(
                                #[trigger] view_rows(reduced@)[kk][j],
                                old_rows[r][j],
                                kk,
                            )
                    },
                forall|key: i32|
                    #[trigger] reduced@.contains_key(key) ==> exists|r: i32|
                        #[trigger] keys@.subrange(0, k as int).contains(r) && !cleared.contains(r)
                            && key == r + shift_of(cleared, r),
                forall|p: Point| #[trigger]
                    occupied_in(view_rows(reduced@), p) <==> moved_from(
                        old_rows,
                        cleared,
                        keys@.subrange(0, k as int),
                        p,
                    ),
            decreases keys.len() - k,
        {
            let old_index = keys[k];
            let ghost done0 = keys@.subrange(0, k as int);
            let ghost done1 = keys@.subrange(0, k + 1);
            proof {
                assert(done1 =~= done0.push(old_index));
                assert(keys@.contains(old_index));
                assert(old_rows.contains_key(old_index));
            }
            let ghost before = view_rows(reduced@);
            if !complete_row_indexes.contains(&old_index) {
                let new_index = shifted_row(&cleared_rows, old_index);
                proof {
                    assert(!reduced@.contains_key(new_index)) by {
                        if reduced@.contains_key(new_index) {
                            let r = choose|r: i32|
                                #[trigger] done0.contains(r) && !cleared.contains(r) && new_index == r
                                    + shift_of(cleared, r);
                            let j = choose|j: int| 0 <= j < done0.len() && done0[j] == r;
                            assert(keys@[j] == r);
                            assert(keys@[j] != keys@[k as int]);
                            if r < old_index {
                                lemma_shift_injective(cleared, r, old_index);
                            } else {
                                lemma_shift_injective(cleared, old_index, r);
                            }
                        }
                    }
                }
                let row = old_map.remove(&old_index).unwrap();
                let mut moved = move_row(row, new_index);
                let ghost moved_view = moved@;
                let merged = match reduced.remove(&new_index) {
                    Some(mut existing) => {
                        existing.append(&mut moved);
                        existing
                    },
                    None => moved,
                };
                proof {
                    assert(merged@ =~= row_or_empty(before, new_index) + moved_view);
                }
                reduced.insert(new_index, merged);
                proof {
                    assert(row_or_empty(before, new_index) =~= Seq::<Block>::empty());
                    assert(merged@ =~= moved_view);
                    assert forall|r: i32, i: int, j: int|
                        #![trigger view_rows(reduced@)[r][i], view_rows(reduced@)[r][j]]
                        view_rows(reduced@).contains_key(r) && 0 <= i < j < view_rows(
                            reduced@,
                        )[r].len() implies view_rows(reduced@)[r][i].cells()[0].x != view_rows(
                            reduced@,
                        )[r][j].cells()[0].x by {
                        if r == new_index {
                            assert(old_rows[old_index][i].cells()[0].x
                                != old_rows[old_index][j].cells()[0].x);
                        } else {
                            assert(before[r][i] == view_rows(reduced@)[r][i]);
                            assert(before[r][j] == view_rows(reduced@)[r][j]);
                        }
                    }
                    assert forall|key: i32| #[trigger]
                        reduced@.contains_key(key) implies exists|r: i32|
                        #[trigger] done1.contains(r) && !cleared.contains(r) && key == r + shift_of(
                            cleared,
                            r,
                        ) by {
                        if key == new_index {
                            assert(done1[k as int] == old_index);
                            assert(done1.contains(old_index));
                        } else {
                            let r = choose|r: i32|
                                #[trigger] done0.contains(r) && !cleared.contains(r) && key == r
                                    + shift_of(cleared, r);
                            let j = choose|j: int| 0 <= j < done0.len() && done0[j] == r;
                            assert(done1[j] == r);
                            assert(done1.contains(r));
                        }
                    }
                    assert forall|r: i32|
                        #[trigger] done1.contains(r) && !cleared.contains(r) implies {
                            let kk = (r + shift_of(cleared, r)) as i32;
                            &&& reduced@.contains_key(kk)
                            &&& view_rows(reduced@)[kk].len() == old_rows[r].len()
                            &&& forall|j: int|
                                0 <= j < old_rows[r].len() ==> is_moved_entry(
                                    #[trigger] view_rows(reduced@)[kk][j],
                                    old_rows[r][j],
                                    kk,
                                )
                        } by {
                        if r == old_index {
                            assert(row@ == old_rows[old_index]);
                        } else {
                            let j = choose|j: int| 0 <= j < done1.len() && done1[j] == r;
                            if j == k {
                                assert(false);
                            }
                            assert(done0[j] == r);
                            assert(done0.contains(r));
                            let kk = (r + shift_of(cleared, r)) as i32;
                            assert(before.contains_key(kk));
                            assert(kk != new_index);
                            assert(view_rows(reduced@)[kk] == before[kk]);
                        }
                    }
                    assert(view_rows(reduced@) =~= before.insert(
                        new_index,
                        row_or_empty(before, new_index) + moved_view,
                    ));
                    assert forall|p: Point| #[trigger]
                        occupied_in(view_rows(reduced@), p) <==> moved_from(
                            old_rows,
                            cleared,
                            done1,
                            p,
                        ) by {
                        lemma_occupied_after_append(before, new_index, moved_view, p);
                        lemma_moved_row(old_rows, old_index, new_index, moved_view, p);
                        assert(occupied_in(before, p) <==> moved_from(old_rows, cleared, done0, p));
                        if moved_from(old_rows, cleared, done1, p) {
                            let q = choose|q: Point|
                                #[trigger] occupied_in(old_rows, q) && done1.contains(q.y)
                                    && !cleared.contains(q.y) && p.x == q.x && p.y == q.y
                                    + shift_of(cleared, q.y);
                            if q.y != old_index {
                                let j = choose|j: int| 0 <= j < done1.len() && done1[j] == q.y;
                                assert(done0[j] == q.y);
                            }
                        }
                        if moved_from(old_rows, cleared, done0, p) {
                            let q = choose|q: Point|
                                #[trigger] occupied_in(old_rows, q) && done0.contains(q.y)
                                    && !cleared.contains(q.y) && p.x == q.x && p.y == q.y
                                    + shift_of(cleared, q.y);
                            let j = choose|j: int| 0 <= j < done0.len() && done0[j] == q.y;
                            assert(done1[j] == q.y);
                        }
                        if exists|q: Point|
                            #[trigger] occupied_in(old_rows, q) && q.y == old_index && p.x == q.x
                                && p.y == new_index {
                            let q = choose|q: Point|
                                #[trigger] occupied_in(old_rows, q) && q.y == old_index && p.x
                                    == q.x && p.y == new_index;
                            assert(done1[k as int] == q.y);
                        }
                    }
                    assert forall|kk: int|
                        k + 1 <= kk < keys.len() implies old_map@.contains_key(#[trigger] keys@[kk])
                            && old_map@[keys@[kk]]@ == old_rows[keys@[kk]] by {
                        assert(keys@[kk] != keys@[k as int]);
                    }
                }
            } else {
                proof {
                    assert forall|key: i32| #[trigger]
                        reduced@.contains_key(key) implies exists|r: i32|
                        #[trigger] done1.contains(r) && !cleared.contains(r) && key == r + shift_of(
                            cleared,
                            r,
                        ) by {
                        let r = choose|r: i32|
                            #[trigger] done0.contains(r) && !cleared.contains(r) && key == r
                                + shift_of(cleared, r);
                        let j = choose|j: int| 0 <= j < done0.len() && done0[j] == r;
                        assert(done1[j] == r);
                        assert(done1.contains(r));
                    }
                    assert forall|r: i32|
                        #[trigger] done1.contains(r) && !cleared.contains(r) implies {
                            let kk = (r + shift_of(cleared, r)) as i32;
                            &&& reduced@.contains_key(kk)
                            &&& view_rows(reduced@)[kk].len() == old_rows[r].len()
                            &&& forall|j: int|
                                0 <= j < old_rows[r].len() ==> is_moved_entry(
                                    #[trigger] view_rows(reduced@)[kk][j],
                                    old_rows[r][j],
                                    kk,
                                )
                        } by {
                        let j = choose|j: int| 0 <= j < done1.len() && done1[j] == r;
                        if j == k {
                            assert(cleared.contains(old_index));
                        }
                        assert(done0[j] == r);
                        assert(done0.contains(r));
                    }
                    assert forall|p: Point| #[trigger]
                        occupied_in(view_rows(reduced@), p) <==> moved_from(
                            old_rows,
                            cleared,
                            done1,
                            p,
                        ) by {
                        assert(occupied_in(before, p) <==> moved_from(old_rows, cleared, done0, p));
                        if moved_from(old_rows, cleared, done1, p) {
                            let q = choose|q: Point|
                                #[trigger] occupied_in(old_rows, q) && done1.contains(q.y)
                                    && !cleared.contains(q.y) && p.x == q.x && p.y == q.y
                                    + shift_of(cleared, q.y);
                            let j = choose|j: int| 0 <= j < done1.len() && done1[j] == q.y;
                            assert(done0[j] == q.y);
                        }
                        if moved_from(old_rows, cleared, done0, p) {
                            let q = choose|q: Point|
                                #[trigger] occupied_in(old_rows, q) && done0.contains(q.y)
                                    && !cleared.contains(q.y) && p.x == q.x && p.y == q.y
                                    + shift_of(cleared, q.y);
                            let j = choose|j: int| 0 <= j < done0.len() && done0[j] == q.y;
                            assert(done1[j] == q.y);
                        }
                    }
                }
            }
            k = k + 1;
        }
        self.block_stack = reduced;
        proof {
            assert(keys@.subrange(0, keys.len() as int) =~= keys@);
            assert forall|key: i32| #[trigger]
                self.rows().contains_key(key) implies exists|r: i32|
                #[trigger] old_rows.contains_key(r) && !cleared.contains(r) && key == r + shift_of(
                    cleared,
                    r,
                ) by {
                let r = choose|r: i32|
                    #[trigger] keys@.contains(r) && !cleared.contains(r) && key == r + shift_of(
                        cleared,
                        r,
                    );
                assert(keys@.to_set().contains(r));
                assert(old_rows.contains_key(r));
            }
            assert forall|r: i32| #[trigger]
                old_rows.contains_key(r) && !cleared.contains(r) implies {
                let kk = (r + shift_of(cleared, r)) as i32;
                &&& self.rows().contains_key(kk)
                &&& self.rows()[kk].len() == old_rows[r].len()
                &&& forall|j: int|
                    0 <= j < old_rows[r].len() ==> is_moved_entry(
                        #[trigger] self.rows()[kk][j],
                        old_rows[r][j],
                        kk,
                    )
            } by {
                assert(keys@.to_set().contains(r));
                assert(keys@.contains(r));
            }
            assert forall|p: Point| #[trigger]
                self.is_occupied(p) <==> occupied_after_clear(old_rows, cleared, p) by {
                assert(occupied_in(self.rows(), p) <==> moved_from(old_rows, cleared, keys@, p));
                if occupied_after_clear(old_rows, cleared, p) {
                    let q = choose|q: Point|
                        #[trigger] occupied_in(old_rows, q) && !cleared.contains(q.y) && p.x == q.x
                            && p.y == q.y + shift_of(cleared, q.y);
                    let (r, i, j) = choose|r: i32, i: int, j: int|
                        #![trigger old_rows[r][i].cells()[j]]
                        old_rows.contains_key(r) && 0 <= i < old_rows[r].len() && 0 <= j
                            < old_rows[r][i].cells().len() && old_rows[r][i].cells()[j] == q;
                    assert(old_rows[r][i].cells().len() == 1);
                    assert(keys@.to_set().contains(q.y));
                }
            }
        }
    }

    /// The row indexes present in the stack, each once.
    fn row_indexes(&self) -> (r: Vec<i32>)
        ensures
            r@.to_set() == self.block_stack@.dom(),
            r@.no_duplicates(),
    {
        let mut r: Vec<i32> = Vec::new();
        for k in it: self.block_stack.keys()
            invariant
                r@ == it.seq().take(it.index() as int).unref(),
                it.seq().unref().to_set() == self.block_stack@.dom(),
                it.seq().unref().no_duplicates(),
                it.index() == it.seq().len() ==> r@ == it.seq().unref(),
        {
            r.push(*k);
            assert(r@ =~= it.seq().take(it.index() as int + 1).unref());
        }
        assert(r@.to_set() == self.block_stack@.dom());
        r
    }
}

} // verus!
