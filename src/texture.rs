//! Indexed textures: a grid of palette indices and a palette of distinct colours.
use vstd::arithmetic::div_mod::lemma_fundamental_div_mod_converse;
use vstd::prelude::*;

verus! {

/// An RGB colour.
#[derive(Debug, Clone, Copy, PartialEq, Eq, Hash, Structural)]
pub struct Color(pub u8, pub u8, pub u8);

/// The colour of pixel `i` in a packed RGB byte sequence.
pub open spec fn pixel_color(p: Seq<u8>, i: int) -> Color {
    Color(p[3 * i], p[3 * i + 1], p[3 * i + 2])
}

/// The distinct colours of the first `n` pixels of `p`, in order of first occurrence.
pub open spec fn palette_of(p: Seq<u8>, n: nat) -> Seq<Color>
    decreases n,
{
    if n == 0 {
        Seq::empty()
    } else {
        let prev = palette_of(p, (n - 1) as nat);
        let c = pixel_color(p, n - 1);
        if prev.contains(c) {
            prev
        } else {
            prev.push(c)
        }
    }
}

/// The set of colours that occur among the first `n` pixels of `p`.
pub open spec fn image_colors(p: Seq<u8>, n: nat) -> Set<Color> {
    Set::new(|c: Color| exists|i: int| 0 <= i < n && pixel_color(p, i) == c)
}

/// Number of rows that `n` pixels fill at `w` pixels per row; an empty image
/// still has one (empty) row.
pub open spec fn row_count(n: int, w: int) -> int {
    if n == 0 {
        1
    } else {
        (n - 1) / w + 1
    }
}

/// Length of row `r` when `n` pixels are laid out `w` to a row.
pub open spec fn row_len(n: int, w: int, r: int) -> int {
    if n - r * w < w {
        n - r * w
    } else {
        w
    }
}

/// Position of `c` in `palette`, if it is there.
fn find_color(palette: &Vec<Color>, c: Color) -> (r: Option<usize>)
    ensures
        match r {
            Some(k) => k < palette@.len() && palette@[k as int] == c,
            None => !palette@.contains(c),
        },
{
    let mut k: usize = 0;
    while k < palette.len()
        invariant
            k <= palette@.len(),
            forall|j: int| 0 <= j < k ==> palette@[j] != c,
        decreases palette@.len() - k,
    {
        if palette[k] == c {
            return Some(k);
        }
        k = k + 1;
    }
    None
}

/// The palette of an image holds every colour of the image exactly once, so it
/// has as many entries as the image has distinct colours.
pub proof fn lemma_palette_counts_colors(p: Seq<u8>, n: nat)
    ensures
        palette_of(p, n).no_duplicates(),
        palette_of(p, n).to_set() == image_colors(p, n),
        palette_of(p, n).len() == image_colors(p, n).len(),
    decreases n,
{
    if n > 0 {
        lemma_palette_counts_colors(p, (n - 1) as nat);
        let prev = palette_of(p, (n - 1) as nat);
        let c = pixel_color(p, n - 1);
        let cur = palette_of(p, n);
        assert forall|x: Color| cur.contains(x) <==> image_colors(p, n).contains(x) by {
            if image_colors(p, n).contains(x) {
                let i = choose|i: int| 0 <= i < n && pixel_color(p, i) == x;
                if i < n - 1 {
                    assert(image_colors(p, (n - 1) as nat).contains(x));
                    assert(prev.to_set().contains(x));
                    assert(prev.contains(x));
                    if !prev.contains(c) {
                        let j = choose|j: int| 0 <= j < prev.len() && prev[j] == x;
                        assert(cur[j] == x);
                    }
                } else if !prev.contains(c) {
                    assert(cur[prev.len() as int] == x);
                }
            }
            if cur.contains(x) && x != c {
                let j = choose|j: int| 0 <= j < cur.len() && cur[j] == x;
                assert(prev[j] == x);
                assert(prev.to_set().contains(x));
                assert(image_colors(p, (n - 1) as nat).contains(x));
                let i = choose|i: int| 0 <= i < n - 1 && pixel_color(p, i) == x;
                assert(0 <= i < n && pixel_color(p, i) == x);
            }
        }
        assert(cur.to_set() =~= image_colors(p, n));
    } else {
        assert(palette_of(p, n).to_set() =~= image_colors(p, n));
    }
    palette_of(p, n).unique_seq_to_set();
}

pub struct Texture {
    pub width: i32,
    pub height: i32,
    pub map: Vec<Vec<i32>>,
    pub colors: Vec<Color>,
}

impl Texture {
    /// The grid of palette indices, row by row.
    pub open spec fn grid(&self) -> Seq<Seq<i32>> {
        self.map@.map_values(|row: Vec<i32>| row@)
    }

    /// A texture that can be sampled: a non-empty rectangular grid of the stated
    /// size whose every index names a palette entry.
    pub open spec fn wf(&self) -> bool {
        &&& self.height >= 1
        &&& self.width >= 1
        &&& self.map@.len() == self.height
        &&& forall|r: int| 0 <= r < self.map@.len() ==> (#[trigger] self.map@[r])@.len() == self.width
        &&& forall|r: int, c: int|
            0 <= r < self.map@.len() && 0 <= c < self.width ==> 0 <= #[trigger] self.map@[r]@[c]
                < self.colors@.len()
    }

    /// A texture over the grid `map`: its height is the number of rows, its width
    /// the length of the first row.
    pub fn new(map: Vec<Vec<i32>>, colors: Vec<Color>) -> (r: Texture)
        requires
            map@.len() >= 1,
            map@.len() <= i32::MAX,
            map@[0]@.len() <= i32::MAX,
        ensures
            r.width == map@[0]@.len(),
            r.height == map@.len(),
            r.map@ == map@,
            r.colors@ == colors@,
    {
        Texture { width: map[0].len() as i32, height: map.len() as i32, map, colors }
    }


    /// An 8 by 8 two-colour brick pattern: white mortar lines every other row,
    /// black bricks with staggered joints between them.
    pub fn brick() -> (r: Texture)
        ensures
            r.wf(),
            r.width == 8,
            r.height == 8,
            r.colors@ == seq![Color(0, 0, 0), Color(255, 255, 255)],
            forall|row: int| 0 <= row < 8 && row % 2 == 0 ==> (#[trigger] r.map@[row])@ == seq![1i32, 1, 1, 1, 1, 1, 1, 1],
            r.map@[1]@ == seq![0i32, 0, 0, 1, 0, 0, 0, 1],
            r.map@[5]@ == seq![0i32, 0, 0, 1, 0, 0, 0, 1],
            r.map@[3]@ == seq![0i32, 1, 0, 0, 0, 1, 0, 0],
            r.map@[7]@ == seq![0i32, 1, 0, 0, 0, 1, 0, 0],
    {
        let map: Vec<Vec<i32>> = vec![
            vec![1, 1, 1, 1, 1, 1, 1, 1],
            vec![0, 0, 0, 1, 0, 0, 0, 1],
            vec![1, 1, 1, 1, 1, 1, 1, 1],
            vec![0, 1, 0, 0, 0, 1, 0, 0],
            vec![1, 1, 1, 1, 1, 1, 1, 1],
            vec![0, 0, 0, 1, 0, 0, 0, 1],
            vec![1, 1, 1, 1, 1, 1, 1, 1],
            vec![0, 1, 0, 0, 0, 1, 0, 0],
        ];
        let r = Texture { width: 8, height: 8, map, colors: vec![Color(0, 0, 0), Color(255, 255, 255)] };
        assert(r.map@[0]@ == seq![1i32, 1, 1, 1, 1, 1, 1, 1]);
        r
    }

    /// An 8 by 8 texture of a single red colour (palette entry 1 of
    /// `[dark grey, red]`).
    pub fn flat() -> (r: Texture)
        ensures
            r.wf(),
            r.width == 8,
            r.height == 8,
            r.colors@ == seq![Color(40, 40, 40), Color(255, 0, 0)],
            forall|row: int, col: int| 0 <= row < 8 && 0 <= col < 8 ==> #[trigger] r.map@[row]@[col] == 1,
    {
        let map: Vec<Vec<i32>> = vec![
            vec![1, 1, 1, 1, 1, 1, 1, 1],
            vec![1, 1, 1, 1, 1, 1, 1, 1],
            vec![1, 1, 1, 1, 1, 1, 1, 1],
            vec![1, 1, 1, 1, 1, 1, 1, 1],
            vec![1, 1, 1, 1, 1, 1, 1, 1],
            vec![1, 1, 1, 1, 1, 1, 1, 1],
            vec![1, 1, 1, 1, 1, 1, 1, 1],
            vec![1, 1, 1, 1, 1, 1, 1, 1],
        ];
        Texture { width: 8, height: 8, map, colors: vec![Color(40, 40, 40), Color(255, 0, 0)] }
    }

    /// Whether the texture can be sampled (see `wf`).
    pub fn is_valid(&self) -> (r: bool)
        ensures
            r == self.wf(),
    {
        if self.height < 1 || self.width < 1 || self.map.len() != self.height as usize {
            return false;
        }
        let w: usize = self.width as usize;
        let n: usize = self.colors.len();
        let mut r: usize = 0;
        while r < self.map.len()
            invariant
                1 <= self.height,
                1 <= self.width,
                self.map@.len() == self.height,
                w == self.width,
                n == self.colors@.len(),
                r <= self.map@.len(),
                forall|j: int| 0 <= j < r ==> (#[trigger] self.map@[j])@.len() == self.width,
                forall|j: int, c: int|
                    0 <= j < r && 0 <= c < self.width ==> 0 <= #[trigger] self.map@[j]@[c] < n,
            decreases self.map@.len() - r,
        {
            if self.map[r].len() != w {
                return false;
            }
            let mut c: usize = 0;
            while c < w
                invariant
                    1 <= self.height,
                    1 <= self.width,
                    self.map@.len() == self.height,
                    w == self.width,
                    n == self.colors@.len(),
                    r < self.map@.len(),
                    self.map@[r as int]@.len() == w,
                    c <= w,
                    forall|j: int| 0 <= j < r ==> (#[trigger] self.map@[j])@.len() == self.width,
                    forall|j: int, c: int|
                        0 <= j < r && 0 <= c < self.width ==> 0 <= #[trigger] self.map@[j]@[c] < n,
                    forall|k: int| 0 <= k < c ==> 0 <= #[trigger] self.map@[r as int]@[k] < n,
                decreases w - c,
            {
                let v: i32 = self.map[r][c];
                if v < 0 || v as usize >= n {
                    return false;
                }
                c = c + 1;
            }
            r = r + 1;
        }
        true
    }

    /// Builds an indexed texture from packed RGB pixels laid out row-major,
    /// `width` pixels to a row (the last row may be shorter). Colours receive
    /// palette indices in order of first occurrence.
    pub fn from_rgb(pixels: &Vec<u8>, width: u32) -> (r: Texture)
        requires
            width >= 1,
            pixels@.len() % 3 == 0,
            pixels@.len() / 3 <= i32::MAX,
        ensures
            r.colors@ == palette_of(pixels@, (pixels@.len() / 3) as nat),
            r.colors@.no_duplicates(),
            r.map@.len() == row_count((pixels@.len() / 3) as int, width as int),
            r.height == r.map@.len(),
            r.width == r.map@[0]@.len(),
            forall|row: int|
                0 <= row < r.map@.len() ==> (#[trigger] r.map@[row])@.len() == row_len(
                    (pixels@.len() / 3) as int,
                    width as int,
                    row,
                ),
            forall|row: int, col: int|
                0 <= row < r.map@.len() && 0 <= col < r.map@[row]@.len() ==> {
                    let k = #[trigger] r.map@[row]@[col];
                    &&& 0 <= k < r.colors@.len()
                    &&& r.colors@[k as int] == pixel_color(pixels@, row * width + col)
                },
    {
        let n: usize = pixels.len() / 3;
        let w: usize = width as usize;
        let ghost p = pixels@;
        let mut map: Vec<Vec<i32>> = Vec::new();
        let mut row: Vec<i32> = Vec::new();
        let mut palette: Vec<Color> = Vec::new();
        let mut i: usize = 0;
        proof {
            vstd::arithmetic::div_mod::lemma_fundamental_div_mod(p.len() as int, 3);
            assert(map@.len() * w == 0);
        }
        while i < n
            invariant
                n == p.len() / 3,
                3 * n == p.len(),
                p.len() <= usize::MAX,
                p == pixels@,
                p.len() % 3 == 0,
                n <= i32::MAX,
                w == width,
                w >= 1,
                i <= n,
                palette@ == palette_of(p, i as nat),
                palette@.no_duplicates(),
                palette@.len() <= i,
                map@.len() * w + row@.len() == i,
                row@.len() <= w,
                i > 0 ==> row@.len() >= 1,
                forall|r: int| 0 <= r < map@.len() ==> (#[trigger] map@[r])@.len() == w,
                forall|r: int, c: int|
                    0 <= r < map@.len() && 0 <= c < w ==> {
                        let k = #[trigger] map@[r]@[c];
                        &&& 0 <= k < palette@.len()
                        &&& palette@[k as int] == pixel_color(p, r * w + c)
                    },
                forall|c: int|
                    0 <= c < row@.len() ==> {
                        let k = #[trigger] row@[c];
                        &&& 0 <= k < palette@.len()
                        &&& palette@[k as int] == pixel_color(p, map@.len() * w + c)
                    },
            decreases n - i,
        {
            if i != 0 && i % w == 0 {
                proof {
                    if row@.len() < w {
                        lemma_fundamental_div_mod_converse(i as int, w as int, map@.len() as int, row@.len() as int);
                    }
                }
                map.push(row);
                row = Vec::new();
                proof {
                    assert(map@.len() * w == (map@.len() - 1) * w + w) by (nonlinear_arith);
                }
            } else {
                proof {
                    if i > 0 && row@.len() == w {
                        assert(i as int == (map@.len() + 1) * w + 0) by (nonlinear_arith)
                            requires
                                map@.len() * w + row@.len() == i,
                                row@.len() == w,
                        ;
                        lemma_fundamental_div_mod_converse(i as int, w as int, (map@.len() + 1) as int, 0);
                    }
                }
            }
            let c = Color(pixels[3 * i], pixels[3 * i + 1], pixels[3 * i + 2]);
            assert(c == pixel_color(p, i as int));
            match find_color(&palette, c) {
                Some(k) => {
                    row.push(k as i32);
                },
                None => {
                    row.push(palette.len() as i32);
                    palette.push(c);
                },
            }
            i = i + 1;
        }
        proof {
            if n > 0 {
                lemma_fundamental_div_mod_converse(n - 1, w as int, map@.len() as int, row@.len() - 1);
            }
            assert forall|r: int| 0 <= r < map@.len() implies row_len(n as int, w as int, r) == w by {
                assert(n - r * w >= w) by (nonlinear_arith)
                    requires
                        map@.len() * w + row@.len() == n,
                        0 <= r < map@.len(),
                        row@.len() >= 0,
                ;
            }
        }
        map.push(row);
        proof {
            if map@.len() > 1 {
                assert(w <= n) by (nonlinear_arith)
                    requires
                        (map@.len() - 1) * w + row@.len() == n,
                        map@.len() > 1,
                        row@.len() >= 0,
                        w >= 1,
                ;
            }
        }
        Texture::new(map, palette)
    }
}

} // verus!
