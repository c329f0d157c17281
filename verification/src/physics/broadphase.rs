//! Uniform-grid broadphase: bodies are bucketed into the grid cells that
//! their bounding boxes touch, and every two bodies that share a cell form a
//! candidate pair, unless both are static.
//!
//! The grid coordinates of each body's bounding box are computed by the
//! caller; this module owns the bucketing and the pairing.

use vstd::prelude::*;
use std::collections::HashMap;

verus! {

/// The rectangle of grid cells that one body's bounding box touches
/// (bounds inclusive), and whether the body is static (infinite mass).
#[derive(Clone, Copy, Debug)]
pub struct GridFootprint {
    pub min_x: i32,
    pub min_y: i32,
    pub max_x: i32,
    pub max_y: i32,
    pub is_static: bool,
}

/// Cell `(x, y)` lies inside the footprint.
pub open spec fn covers(f: GridFootprint, x: int, y: int) -> bool {
    &&& f.min_x <= x <= f.max_x
    &&& f.min_y <= y <= f.max_y
}

/// Some grid cell lies inside both footprints.
pub open spec fn shares_cell(f: GridFootprint, g: GridFootprint) -> bool {
    exists|x: int, y: int| #![trigger covers(f, x, y), covers(g, x, y)] covers(f, x, y) && covers(g, x, y)
}

/// `(a, b)` is a pair that the broadphase must report: two different bodies,
/// listed smaller index first, that share a grid cell and are not both static.
pub open spec fn is_candidate(fs: Seq<GridFootprint>, a: int, b: int) -> bool {
    &&& 0 <= a < b < fs.len()
    &&& !(fs[a].is_static && fs[b].is_static)
    &&& shares_cell(fs[a], fs[b])
}

/// Number of distinct `y` values an `i32` can take; cell keys place `x` above it.
pub open spec fn key_base() -> int {
    4294967296
}

/// The hash key of grid cell `(x, y)`.
pub open spec fn cell_key_spec(x: int, y: int) -> int {
    x * key_base() + (y + 2147483648)
}

/// The `x` coordinate of the cell with key `k`.
pub open spec fn key_x(k: int) -> int {
    k / key_base()
}

/// The `y` coordinate of the cell with key `k`.
pub open spec fn key_y(k: int) -> int {
    k % key_base() - 2147483648
}

proof fn lemma_cell_key_decodes(x: int, y: int)
    requires
        -2147483648 <= y < 2147483648,
    ensures
        key_x(cell_key_spec(x, y)) == x,
        key_y(cell_key_spec(x, y)) == y,
{
    vstd::arithmetic::div_mod::lemma_fundamental_div_mod_converse(cell_key_spec(x, y), key_base(), x, y + 2147483648);
}

fn cell_key(x: i32, y: i32) -> (k: i128)
    ensures
        k == cell_key_spec(x as int, y as int),
        key_x(k as int) == x,
        key_y(k as int) == y,
{
    proof {
        lemma_cell_key_decodes(x as int, y as int);
    }
    (x as i128) * 4294967296 + ((y as i128) + 2147483648)
}

/// The ids in a cell's list are strictly increasing.
pub open spec fn strictly_increasing(s: Seq<usize>) -> bool {
    forall|i: int, j: int| 0 <= i < j < s.len() ==> s[i] < s[j]
}

/// Cell `(x, y)` is in table `m` and its list holds `id`.
pub open spec fn holds_in(m: Map<i128, Vec<usize>>, x: i32, y: i32, id: usize) -> bool {
    let k = cell_key_spec(x as int, y as int) as i128;
    &&& m.contains_key(k)
    &&& m[k]@.contains(id)
}

/// The grid's cell table, reused from one query to the next.
pub struct UniformGrid {
    cells: HashMap<i128, Vec<usize>>,
}

impl View for UniformGrid {
    type V = Map<i128, Vec<usize>>;

    /// The cell table: for each occupied cell key, the ids listed there.
    closed spec fn view(&self) -> Map<i128, Vec<usize>> {
        self.cells@
    }
}

impl UniformGrid {
    /// An empty grid.
    pub fn new() -> (grid: Self)
        ensures
            grid@ == Map::<i128, Vec<usize>>::empty(),
    {
        UniformGrid { cells: HashMap::new() }
    }

    /// Every listed id lies below `bound` and covers the cell of its key; lists
    /// are strictly increasing.
    spec fn cells_sound(self, fs: Seq<GridFootprint>, bound: int) -> bool {
        forall|k: i128|
            #[trigger] self.cells@.contains_key(k) ==> {
                &&& strictly_increasing(self.cells@[k]@)
                &&& forall|t: int|
                    0 <= t < self.cells@[k]@.len() ==> {
                        &&& #[trigger] self.cells@[k]@[t] < bound
                        &&& covers(fs[self.cells@[k]@[t] as int], key_x(k as int), key_y(k as int))
                    }
            }
    }

    /// Adds body `id` to the list of cell `(x, y)`.
    fn add_to_cell(&mut self, x: i32, y: i32, id: usize, Ghost(fs): Ghost<Seq<GridFootprint>>)
        requires
            old(self).cells_sound(fs, id + 1),
            !holds_in(old(self).cells@, x, y, id),
            id < fs.len(),
            covers(fs[id as int], x as int, y as int),
        ensures
            final(self).cells_sound(fs, id + 1),
            forall|x2: i32, y2: i32, j: usize|
                #[trigger] holds_in(final(self).cells@, x2, y2, j) <==> (holds_in(old(self).cells@, x2, y2, j)
                    || (x2 == x && y2 == y && j == id)),
    {
        broadcast use vstd::std_specs::hash::group_hash_axioms;
        let key = cell_key(x, y);
        let mut list = match self.cells.remove(&key) {
            Some(v) => v,
            None => Vec::new(),
        };
        let ghost old_list = list@;
        list.push(id);
        self.cells.insert(key, list);
        proof {
            assert(self.cells@[key]@ == old_list.push(id));
            assert(self.cells@[key]@[old_list.len() as int] == id);
            assert forall|x2: i32, y2: i32, j: usize|
                #[trigger] holds_in(self.cells@, x2, y2, j) <==> (holds_in(old(self).cells@, x2, y2, j)
                    || (x2 == x && y2 == y && j == id)) by {
                let k2 = cell_key_spec(x2 as int, y2 as int) as i128;
                lemma_cell_key_decodes(x2 as int, y2 as int);
                if k2 == key {
                    assert(x2 == x && y2 == y);
                    if holds_in(old(self).cells@, x2, y2, j) {
                        let t = old(self).cells@[k2]@.index_of(j);
                        assert(self.cells@[k2]@[t] == j);
                    }
                    if holds_in(self.cells@, x2, y2, j) && j != id {
                        let t = self.cells@[k2]@.index_of(j);
                        assert(self.cells@[k2]@[t] == j);
                        assert(old_list[t] == j);
                    }
                }
            }
        }
    }

    /// Rebuilds the cell table from the footprints: afterwards each cell
    /// lists, in increasing order, exactly the bodies whose footprint covers it.
    fn fill_cells(&mut self, footprints: &[GridFootprint])
        ensures
            final(self).cells_sound(footprints@, footprints@.len() as int),
            forall|j: usize, x: i32, y: i32|
                j < footprints@.len() && covers(footprints@[j as int], x as int, y as int)
                    ==> #[trigger] holds_in(final(self).cells@, x, y, j),
    {
        let ghost fs = footprints@;
        self.cells.clear();
        let n = footprints.len();
        let mut id: usize = 0;
        while id < n
            invariant
                n == fs.len(),
                fs == footprints@,
                id <= n,
                self.cells_sound(fs, id as int),
                forall|j: usize, x: i32, y: i32|
                    j < id && covers(fs[j as int], x as int, y as int) ==> #[trigger] holds_in(self.cells@, x, y, j),
            decreases n - id,
        {
            let f = footprints[id];
            let mut x: i64 = f.min_x as i64;
            while x <= f.max_x as i64
                invariant
                    n == fs.len(),
                    id < n,
                    f == fs[id as int],
                    f.min_x <= x,
                    x <= f.max_x + 1 || x == f.min_x,
                    self.cells_sound(fs, id + 1),
                    forall|j: usize, x2: i32, y2: i32|
                        j < id && covers(fs[j as int], x2 as int, y2 as int) ==> #[trigger] holds_in(self.cells@, x2, y2, j),
                    forall|x2: i32, y2: i32|
                        #[trigger] holds_in(self.cells@, x2, y2, id) <==> (covers(f, x2 as int, y2 as int) && x2 < x),
                decreases f.max_x + 1 - x,
            {
                let mut y: i64 = f.min_y as i64;
                while y <= f.max_y as i64
                    invariant
                        n == fs.len(),
                        id < n,
                        f == fs[id as int],
                        f.min_x <= x <= f.max_x,
                        f.min_y <= y,
                        y <= f.max_y + 1 || y == f.min_y,
                        self.cells_sound(fs, id + 1),
                        forall|j: usize, x2: i32, y2: i32|
                            j < id && covers(fs[j as int], x2 as int, y2 as int) ==> #[trigger] holds_in(self.cells@, x2, y2, j),
                        forall|x2: i32, y2: i32|
                            #[trigger] holds_in(self.cells@, x2, y2, id) <==> (covers(f, x2 as int, y2 as int)
                                && (x2 < x || (x2 == x && y2 < y))),
                    decreases f.max_y + 1 - y,
                {
                    self.add_to_cell(x as i32, y as i32, id, Ghost(fs));
                    y += 1;
                }
                x += 1;
            }
            id += 1;
        }
    }
}

/// Pair `(a, b)` of a cell list has been dealt with: it is either skipped
/// because both bodies are static, or present in `pairs`.
pub open spec fn pair_recorded(
    fs: Seq<GridFootprint>,
    pairs: Seq<(usize, usize)>,
    a: usize,
    b: usize,
) -> bool {
    (fs[a as int].is_static && fs[b as int].is_static) || pairs.contains((a, b))
}

/// Every pair of positions `s < t` of `list` has been dealt with.
pub open spec fn list_pairs_recorded(
    fs: Seq<GridFootprint>,
    pairs: Seq<(usize, usize)>,
    list: Seq<usize>,
) -> bool {
    forall|s: int, t: int|
        0 <= s < t < list.len() ==> #[trigger] pair_recorded(fs, pairs, list[s], list[t])
}

proof fn lemma_recorded_grows(
    fs: Seq<GridFootprint>,
    before: Seq<(usize, usize)>,
    after: Seq<(usize, usize)>,
    list: Seq<usize>,
)
    requires
        forall|p: (usize, usize)| before.contains(p) ==> after.contains(p),
        list_pairs_recorded(fs, before, list),
    ensures
        list_pairs_recorded(fs, after, list),
{
    assert forall|s: int, t: int| 0 <= s < t < list.len() implies #[trigger] pair_recorded(
        fs, after, list[s], list[t]) by {
        assert(pair_recorded(fs, before, list[s], list[t]));
    }
}

fn contains_pair(pairs: &Vec<(usize, usize)>, p: (usize, usize)) -> (r: bool)
    ensures
        r == pairs@.contains(p),
{
    let mut i: usize = 0;
    while i < pairs.len()
        invariant
            i <= pairs@.len(),
            forall|k: int| 0 <= k < i ==> pairs@[k] != p,
        decreases pairs@.len() - i,
    {
        if pairs[i].0 == p.0 && pairs[i].1 == p.1 {
            assert(pairs@[i as int] == p);
            return true;
        }
        i += 1;
    }
    false
}

impl UniformGrid {
    /// All pairs of bodies that share a grid cell, with the smaller index
    /// first, leaving out pairs of two static bodies. Each pair appears once;
    /// the order of the pairs is unspecified.
    pub fn candidate_pairs(&mut self, footprints: &[GridFootprint]) -> (pairs: Vec<(usize, usize)>)
        ensures
            reports_candidates(footprints@, pairs@),
    {
        broadcast use vstd::std_specs::hash::group_hash_axioms;
        let ghost fs = footprints@;
        self.fill_cells(footprints);
        let mut pairs: Vec<(usize, usize)> = Vec::new();
        let ghost cells = self.cells@;
        proof {
            vstd::std_specs::hash::axiom_spec_values_iter(&self.cells);
        }
        for ids in it: self.cells.values()
            invariant
                fs == footprints@,
                cells == self.cells@,
                self.cells_sound(fs, fs.len() as int),
                forall|j: usize, x: i32, y: i32|
                    j < fs.len() && covers(fs[j as int], x as int, y as int) ==> #[trigger] holds_in(cells, x, y, j),
                it.seq().unref().to_set() == cells.values(),
                pairs@.no_duplicates(),
                forall|i: int|
                    0 <= i < pairs@.len() ==> is_candidate(fs, #[trigger] pairs@[i].0 as int, pairs@[i].1 as int),
                forall|k: int| 0 <= k < it.index() ==> list_pairs_recorded(fs, pairs@, #[trigger] it.seq()[k]@),
            ensures
                pairs@.no_duplicates(),
                forall|i: int|
                    0 <= i < pairs@.len() ==> is_candidate(fs, #[trigger] pairs@[i].0 as int, pairs@[i].1 as int),
                forall|j: usize, x: i32, y: i32|
                    j < fs.len() && covers(fs[j as int], x as int, y as int) ==> #[trigger] holds_in(cells, x, y, j),
                forall|v: Vec<usize>| #[trigger] cells.values().contains(v) ==> list_pairs_recorded(fs, pairs@, v@),
        {
            let ghost list = ids@;
            assert(cells.values().contains(*ids)) by {
                assert(it.seq().unref()[it.index()] == *ids);
            }
            let ghost key = choose|k: i128| cells.contains_key(k) && cells[k] == *ids;
            let n = ids.len();
            let mut i: usize = 0;
            while i < n
                invariant
                    fs == footprints@,
                    n == list.len(),
                    list == ids@,
                    cells.contains_key(key),
                    cells[key]@ == list,
                    self.cells_sound(fs, fs.len() as int),
                    cells == self.cells@,
                    i <= n,
                    pairs@.no_duplicates(),
                    forall|i: int|
                        0 <= i < pairs@.len() ==> is_candidate(fs, #[trigger] pairs@[i].0 as int, pairs@[i].1 as int),
                    forall|k: int| 0 <= k < it.index() ==> list_pairs_recorded(fs, pairs@, #[trigger] it.seq()[k]@),
                    forall|s: int, t: int|
                        0 <= s < i && s < t < n ==> #[trigger] pair_recorded(fs, pairs@, list[s], list[t]),
                decreases n - i,
            {
                let mut j: usize = i + 1;
                while j < n
                    invariant
                        fs == footprints@,
                        n == list.len(),
                        list == ids@,
                        cells.contains_key(key),
                        cells[key]@ == list,
                        self.cells_sound(fs, fs.len() as int),
                        cells == self.cells@,
                        i < n,
                        i + 1 <= j <= n,
                        pairs@.no_duplicates(),
                        forall|i: int|
                            0 <= i < pairs@.len() ==> is_candidate(fs, #[trigger] pairs@[i].0 as int, pairs@[i].1 as int),
                        forall|k: int| 0 <= k < it.index() ==> list_pairs_recorded(fs, pairs@, #[trigger] it.seq()[k]@),
                        forall|s: int, t: int|
                            0 <= s < i && s < t < n ==> #[trigger] pair_recorded(fs, pairs@, list[s], list[t]),
                        forall|t: int| i < t < j ==> #[trigger] pair_recorded(fs, pairs@, list[i as int], list[t]),
                    decreases n - j,
                {
                    let id_a = ids[i];
                    let id_b = ids[j];
                    let a = if id_a < id_b { id_a } else { id_b };
                    let b = if id_a < id_b { id_b } else { id_a };
                    assert(list[i as int] < list[j as int]);
                    assert(a < fs.len() && b < fs.len()) by {
                        assert(cells[key]@[i as int] < fs.len());
                        assert(cells[key]@[j as int] < fs.len());
                    }
                    if !(footprints[a].is_static && footprints[b].is_static) {
                        let pair = (a, b);
                        if !contains_pair(&pairs, pair) {
                            let ghost before = pairs@;
                            pairs.push(pair);
                            proof {
                                let kx = key_x(key as int);
                                let ky = key_y(key as int);
                                assert(covers(fs[a as int], kx, ky));
                                assert(covers(fs[b as int], kx, ky));
                                assert(is_candidate(fs, a as int, b as int));
                                assert forall|i2: int| 0 <= i2 < pairs@.len() implies is_candidate(
                                    fs, #[trigger] pairs@[i2].0 as int, pairs@[i2].1 as int) by {
                                    if i2 < before.len() {
                                        assert(pairs@[i2] == before[i2]);
                                    }
                                }
                                assert forall|p: (usize, usize)| before.contains(p) implies pairs@.contains(p) by {
                                    let t = before.index_of(p);
                                    assert(pairs@[t] == p);
                                }
                                assert forall|k: int| 0 <= k < it.index() implies list_pairs_recorded(
                                    fs, pairs@, #[trigger] it.seq()[k]@) by {
                                    lemma_recorded_grows(fs, before, pairs@, it.seq()[k]@);
                                }
                                assert forall|s: int, t: int| 0 <= s < i && s < t < n implies #[trigger] pair_recorded(
                                    fs, pairs@, list[s], list[t]) by {
                                    assert(pair_recorded(fs, before, list[s], list[t]));
                                }
                                assert forall|t: int| i < t < j implies #[trigger] pair_recorded(
                                    fs, pairs@, list[i as int], list[t]) by {
                                    assert(pair_recorded(fs, before, list[i as int], list[t]));
                                }
                                assert(pairs@[before.len() as int] == pair);
                            }
                        }
                    }
                    j += 1;
                }
                i += 1;
            }
        }
        proof {
            assert(fs.len() == footprints.len());
            assert forall|a: int, b: int| is_candidate(fs, a, b) implies #[trigger] pairs@.contains(
                (a as usize, b as usize)) by {
                let (x, y) = choose|x: int, y: int| #![trigger covers(fs[a], x, y), covers(fs[b], x, y)]
                    covers(fs[a], x, y) && covers(fs[b], x, y);
                let xi = x as i32;
                let yi = y as i32;
                assert(xi == x && yi == y);
                assert(holds_in(cells, xi, yi, a as usize));
                assert(holds_in(cells, xi, yi, b as usize));
                let k = cell_key_spec(x, y) as i128;
                let list = cells[k]@;
                let s = list.index_of(a as usize);
                let t = list.index_of(b as usize);
                assert(cells.values().contains(cells[k]));
                assert(list_pairs_recorded(fs, pairs@, list));
                assert(s < t);
                assert(pair_recorded(fs, pairs@, list[s], list[t]));
            }
        }
        pairs
    }
}

/// `pairs` is an answer of the broadphase for `fs`: no pair twice, every
/// pair a candidate, every candidate present.
pub open spec fn reports_candidates(fs: Seq<GridFootprint>, pairs: Seq<(usize, usize)>) -> bool {
    &&& pairs.no_duplicates()
    &&& forall|i: int| 0 <= i < pairs.len() ==> is_candidate(fs, #[trigger] pairs[i].0 as int, pairs[i].1 as int)
    &&& forall|a: int, b: int| is_candidate(fs, a, b) ==> #[trigger] pairs.contains((a as usize, b as usize))
}

/// The pairs reported depend on the footprints alone: two answers for the
/// same footprints hold the same pairs, and as many of them, whatever order
/// the cell table was walked in.
pub proof fn lemma_pairs_determined(fs: Seq<GridFootprint>, p: Seq<(usize, usize)>, q: Seq<(usize, usize)>)
    requires
        reports_candidates(fs, p),
        reports_candidates(fs, q),
    ensures
        p.to_set() == q.to_set(),
        p.len() == q.len(),
{
    assert forall|x: (usize, usize)| p.contains(x) implies q.contains(x) by {
        let i = p.index_of(x);
        assert(p[i] == x);
        assert(is_candidate(fs, x.0 as int, x.1 as int));
        assert(q.contains(((x.0 as int) as usize, (x.1 as int) as usize)));
    }
    assert forall|x: (usize, usize)| q.contains(x) implies p.contains(x) by {
        let i = q.index_of(x);
        assert(q[i] == x);
        assert(is_candidate(fs, x.0 as int, x.1 as int));
        assert(p.contains(((x.0 as int) as usize, (x.1 as int) as usize)));
    }
    assert(p.to_set() =~= q.to_set());
    p.unique_seq_to_set();
    q.unique_seq_to_set();
}

/// In terms of the footprints' bounds: an answer of the broadphase holds a
/// pair `(a, b)` exactly when `a < b` are bodies, not both static, whose cell
/// ranges overlap on both axes.
pub proof fn lemma_pairs_by_bounds(fs: Seq<GridFootprint>, pairs: Seq<(usize, usize)>, a: int, b: int)
    requires
        reports_candidates(fs, pairs),
        0 <= a < b < fs.len(),
        b <= usize::MAX,
    ensures
        pairs.contains((a as usize, b as usize)) <==> {
            &&& !(fs[a].is_static && fs[b].is_static)
            &&& fs[a].min_x <= fs[a].max_x && fs[b].min_x <= fs[b].max_x
            &&& fs[a].min_y <= fs[a].max_y && fs[b].min_y <= fs[b].max_y
            &&& fs[a].min_x <= fs[b].max_x && fs[b].min_x <= fs[a].max_x
            &&& fs[a].min_y <= fs[b].max_y && fs[b].min_y <= fs[a].max_y
        },
{
    let f = fs[a];
    let g = fs[b];
    if pairs.contains((a as usize, b as usize)) {
        let i = pairs.index_of((a as usize, b as usize));
        assert(is_candidate(fs, pairs[i].0 as int, pairs[i].1 as int));
        let (x, y) = choose|x: int, y: int| #![trigger covers(f, x, y), covers(g, x, y)]
            covers(f, x, y) && covers(g, x, y);
    }
    if !(f.is_static && g.is_static) && f.min_x <= f.max_x && g.min_x <= g.max_x
        && f.min_y <= f.max_y && g.min_y <= g.max_y && f.min_x <= g.max_x && g.min_x <= f.max_x
        && f.min_y <= g.max_y && g.min_y <= f.max_y {
        let x: int = if f.min_x < g.min_x { g.min_x as int } else { f.min_x as int };
        let y: int = if f.min_y < g.min_y { g.min_y as int } else { f.min_y as int };
        assert(covers(f, x, y) && covers(g, x, y));
        assert(is_candidate(fs, a, b));
    }
}

} // verus!
