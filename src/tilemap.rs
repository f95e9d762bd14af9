//! The tile map: a rectangular grid of tiles, 0 for open floor and `v >= 1` for a
//! wall drawn with wall texture `v - 1`, enclosed by a solid border.
use vstd::prelude::*;

verus! {

/// Largest number of rows or columns a map may have.
pub const MAX_MAP_DIM: usize = 1024;

/// Why a map was rejected.
#[derive(Debug, Clone, Copy, PartialEq, Eq, Structural)]
pub enum MapError {
    /// A line holds a byte that is neither a decimal digit nor a newline.
    InvalidCharacter,
    /// The map has no rows, or its first row has no tiles.
    Empty,
    /// The map has more than `MAX_MAP_DIM` rows or columns.
    TooLarge,
    /// Rows differ in length.
    NotRectangular,
    /// A tile is negative.
    NegativeTile,
    /// A tile of the outer border is open floor.
    OpenBorder,
}

pub open spec fn is_digit(b: u8) -> bool {
    48 <= b <= 57
}

/// Completed non-empty lines, and the line being read, after the first `k` bytes
/// of `t`; each digit byte becomes its value.
pub open spec fn scan_lines(t: Seq<u8>, k: nat) -> (Seq<Seq<i32>>, Seq<i32>)
    decreases k,
{
    if k == 0 || k > t.len() {
        (Seq::empty(), Seq::empty())
    } else {
        let (done, cur) = scan_lines(t, (k - 1) as nat);
        let b = t[k - 1];
        if b == 10 {
            if cur.len() > 0 {
                (done.push(cur), Seq::empty())
            } else {
                (done, Seq::empty())
            }
        } else {
            (done, cur.push((b - 48) as i32))
        }
    }
}

/// The rows that the text `t` describes: one per non-empty line, in order.
pub open spec fn text_rows(t: Seq<u8>) -> Seq<Seq<i32>> {
    let (done, cur) = scan_lines(t, t.len());
    if cur.len() > 0 {
        done.push(cur)
    } else {
        done
    }
}

/// Every tile of the border of a `h` by `w` map is a wall.
pub open spec fn border_solid(m: Seq<Seq<i32>>) -> bool {
    let h = m.len() as int;
    let w = m[0].len() as int;
    &&& forall|r: int| 0 <= r < h ==> (#[trigger] m[r][0]) != 0 && m[r][w - 1] != 0
    &&& forall|c: int| 0 <= c < w ==> (#[trigger] m[0][c]) != 0 && m[h - 1][c] != 0
}

/// The first rule, in the order listed by `MapError`, that the grid `m` breaks.
pub open spec fn map_error(m: Seq<Seq<i32>>) -> Option<MapError> {
    if m.len() == 0 || m[0].len() == 0 {
        Some(MapError::Empty)
    } else if m.len() > MAX_MAP_DIM || m[0].len() > MAX_MAP_DIM {
        Some(MapError::TooLarge)
    } else if exists|r: int| 0 <= r < m.len() && #[trigger] m[r].len() != m[0].len() {
        Some(MapError::NotRectangular)
    } else if exists|r: int, c: int| 0 <= r < m.len() && 0 <= c < m[r].len() && #[trigger] m[r][c] < 0 {
        Some(MapError::NegativeTile)
    } else if !border_solid(m) {
        Some(MapError::OpenBorder)
    } else {
        None
    }
}

/// A map the renderer accepts.
pub open spec fn valid_map(m: Seq<Seq<i32>>) -> bool {
    map_error(m) is None
}

/// The rows of a grid of vectors.
pub open spec fn rows_view(m: Seq<Vec<i32>>) -> Seq<Seq<i32>> {
    m.map_values(|row: Vec<i32>| row@)
}

/// What a valid map guarantees: its size, rectangular shape, non-negative tiles
/// and solid border.
pub proof fn lemma_valid_map_facts(m: Seq<Seq<i32>>)
    requires
        valid_map(m),
    ensures
        1 <= m.len() <= MAX_MAP_DIM,
        1 <= m[0].len() <= MAX_MAP_DIM,
        forall|r: int| 0 <= r < m.len() ==> (#[trigger] m[r]).len() == m[0].len(),
        forall|r: int, c: int| 0 <= r < m.len() && 0 <= c < m[r].len() ==> #[trigger] m[r][c] >= 0,
        border_solid(m),
{
    assert forall|r: int| 0 <= r < m.len() implies (#[trigger] m[r]).len() == m[0].len() by {
        if m[r].len() != m[0].len() {
            assert(map_error(m) == Some(MapError::NotRectangular));
        }
    }
    assert forall|r: int, c: int| 0 <= r < m.len() && 0 <= c < m[r].len() implies #[trigger] m[r][c] >= 0 by {
        if m[r][c] < 0 {
            assert(map_error(m) == Some(MapError::NegativeTile));
        }
    }
}

/// Checks the grid against every rule of a valid map.
pub fn check_map(map: &Vec<Vec<i32>>) -> (res: Result<(), MapError>)
    ensures
        res == match map_error(rows_view(map@)) {
            None => Ok::<(), MapError>(()),
            Some(e) => Err(e),
        },
{
    let ghost m = rows_view(map@);
    if map.len() == 0 || map[0].len() == 0 {
        return Err(MapError::Empty);
    }
    let h: usize = map.len();
    let w: usize = map[0].len();
    if h > MAX_MAP_DIM || w > MAX_MAP_DIM {
        return Err(MapError::TooLarge);
    }
    assert forall|j: int| 0 <= j < h implies #[trigger] m[j] == map@[j]@ by {}
    let mut r: usize = 0;
    while r < h
        invariant
            h == map@.len(),
            w == map@[0]@.len(),
            m == rows_view(map@),
            m.len() == h,
            0 < h <= MAX_MAP_DIM,
            0 < w <= MAX_MAP_DIM,
            forall|j: int| 0 <= j < h ==> #[trigger] m[j] == map@[j]@,
            r <= h,
            forall|j: int| 0 <= j < r ==> (#[trigger] m[j]).len() == w,
        decreases h - r,
    {
        assert(m[r as int] == map@[r as int]@);
        assert(m[0] == map@[0]@);
        if map[r].len() != w {
            assert(m[r as int].len() != m[0].len());
            return Err(MapError::NotRectangular);
        }
        r = r + 1;
    }
    let mut r: usize = 0;
    while r < h
        invariant
            h == map@.len(),
            w == map@[0]@.len(),
            m == rows_view(map@),
            m.len() == h,
            0 < h <= MAX_MAP_DIM,
            0 < w <= MAX_MAP_DIM,
            forall|j: int| 0 <= j < h ==> #[trigger] m[j] == map@[j]@,
            r <= h,
            forall|j: int| 0 <= j < h ==> (#[trigger] m[j]).len() == w,
            forall|j: int, c: int| 0 <= j < r && 0 <= c < w ==> #[trigger] m[j][c] >= 0,
        decreases h - r,
    {
        let mut c: usize = 0;
        while c < w
            invariant
                h == map@.len(),
                w == map@[0]@.len(),
                m == rows_view(map@),
            m.len() == h,
            0 < h <= MAX_MAP_DIM,
            0 < w <= MAX_MAP_DIM,
            forall|j: int| 0 <= j < h ==> #[trigger] m[j] == map@[j]@,
                r < h,
                c <= w,
                forall|j: int| 0 <= j < h ==> (#[trigger] m[j]).len() == w,
                forall|j: int, c: int| 0 <= j < r && 0 <= c < w ==> #[trigger] m[j][c] >= 0,
                forall|k: int| 0 <= k < c ==> #[trigger] m[r as int][k] >= 0,
            decreases w - c,
        {
            assert(m[r as int] == map@[r as int]@);
            if map[r][c] < 0 {
                assert(m[r as int][c as int] < 0);
                return Err(MapError::NegativeTile);
            }
            c = c + 1;
        }
        r = r + 1;
    }
    let mut r: usize = 0;
    while r < h
        invariant
            h == map@.len(),
            w == map@[0]@.len(),
            m == rows_view(map@),
            m.len() == h,
            0 < h <= MAX_MAP_DIM,
            0 < w <= MAX_MAP_DIM,
            forall|j: int| 0 <= j < h ==> #[trigger] m[j] == map@[j]@,
            r <= h,
            forall|j: int| 0 <= j < h ==> (#[trigger] m[j]).len() == w,
            forall|j: int, c: int| 0 <= j < h && 0 <= c < w ==> #[trigger] m[j][c] >= 0,
            forall|j: int| 0 <= j < r ==> (#[trigger] m[j][0]) != 0 && m[j][w - 1] != 0,
        decreases h - r,
    {
        assert(m[r as int] == map@[r as int]@);
        assert(forall|j: int| 0 <= j < r ==> m[j][0] != 0);
        if map[r][0] == 0 || map[r][w - 1] == 0 {
            assert(!(m[r as int][0] != 0 && m[r as int][w - 1] != 0));
            return Err(MapError::OpenBorder);
        }
        assert(m[r as int][0] != 0 && m[r as int][w - 1] != 0);
        assert forall|j: int| 0 <= j < r + 1 implies (#[trigger] m[j][0]) != 0 && m[j][w - 1] != 0 by {
            if j < r {
                assert(m[j][0] != 0 && m[j][w - 1] != 0);
            }
        }
        r = r + 1;
    }
    let mut c: usize = 0;
    while c < w
        invariant
            h == map@.len(),
            w == map@[0]@.len(),
            m == rows_view(map@),
            m.len() == h,
            0 < h <= MAX_MAP_DIM,
            0 < w <= MAX_MAP_DIM,
            forall|j: int| 0 <= j < h ==> #[trigger] m[j] == map@[j]@,
            c <= w,
            forall|j: int| 0 <= j < h ==> (#[trigger] m[j]).len() == w,
            forall|j: int, c: int| 0 <= j < h && 0 <= c < w ==> #[trigger] m[j][c] >= 0,
            forall|j: int| 0 <= j < h ==> (#[trigger] m[j][0]) != 0 && m[j][w - 1] != 0,
            forall|k: int| 0 <= k < c ==> (#[trigger] m[0][k]) != 0 && m[h - 1][k] != 0,
        decreases w - c,
    {
        assert(m[0] == map@[0]@);
        assert(m[h - 1] == map@[h - 1]@);
        if map[0][c] == 0 || map[h - 1][c] == 0 {
            assert(!(m[0][c as int] != 0 && m[h - 1][c as int] != 0));
            return Err(MapError::OpenBorder);
        }
        assert(m[0][c as int] != 0 && m[h - 1][c as int] != 0);
        c = c + 1;
    }
    Ok(())
}

/// Reads a map from text: one row per non-empty line, each byte a decimal digit
/// that gives the tile's value. The map is then checked as `check_map` does.
pub fn parse_map(text: &Vec<u8>) -> (res: Result<Vec<Vec<i32>>, MapError>)
    ensures
        (exists|i: int| 0 <= i < text@.len() && #[trigger] text@[i] != 10 && !is_digit(text@[i]))
            ==> res == Err::<Vec<Vec<i32>>, MapError>(MapError::InvalidCharacter),
        !(exists|i: int| 0 <= i < text@.len() && #[trigger] text@[i] != 10 && !is_digit(text@[i]))
            ==> match map_error(text_rows(text@)) {
            None => res is Ok && rows_view(res->Ok_0@) == text_rows(text@),
            Some(e) => res == Err::<Vec<Vec<i32>>, MapError>(e),
        },
{
    let ghost t = text@;
    let mut done: Vec<Vec<i32>> = Vec::new();
    let mut cur: Vec<i32> = Vec::new();
    let mut i: usize = 0;
    while i < text.len()
        invariant
            t == text@,
            i <= t.len(),
            rows_view(done@) == scan_lines(t, i as nat).0,
            cur@ == scan_lines(t, i as nat).1,
            forall|j: int| 0 <= j < i ==> #[trigger] t[j] == 10 || is_digit(t[j]),
        decreases t.len() - i,
    {
        let b: u8 = text[i];
        if b == 10 {
            if cur.len() > 0 {
                let ghost before = done@;
                done.push(cur);
                assert(rows_view(done@) =~= rows_view(before).push(scan_lines(t, i as nat).1));
            }
            cur = Vec::new();
            assert(cur@ =~= scan_lines(t, (i + 1) as nat).1);
        } else if 48 <= b && b <= 57 {
            cur.push((b - 48) as i32);
        } else {
            return Err(MapError::InvalidCharacter);
        }
        i = i + 1;
    }
    if cur.len() > 0 {
        let ghost before = done@;
        done.push(cur);
        assert(rows_view(done@) =~= rows_view(before).push(scan_lines(t, t.len()).1));
    }
    assert(rows_view(done@) == text_rows(t));
    match check_map(&done) {
        Ok(()) => Ok(done),
        Err(e) => Err(e),
    }
}

} // verus!
