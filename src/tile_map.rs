use vstd::prelude::*;
use crate::codec::{decode_nums, encode_nums, json_of_nums, nums_of_json};
use crate::components::IsComponent;

verus! {

/// What a tile of the map is made of.
#[derive(Clone, Copy, Debug, PartialEq, Eq, Structural)]
pub enum TileType {
    FLOOR,
    WALL,
}

/// An axis-aligned rectangle of cells.
#[derive(Clone, Copy, PartialEq, Eq, Structural)]
pub struct Rect {
    pub x: u16,
    pub y: u16,
    pub width: u16,
    pub height: u16,
}

pub open spec fn max_u16(a: u16, b: u16) -> u16 {
    if a >= b { a } else { b }
}

pub open spec fn min_u16(a: u16, b: u16) -> u16 {
    if a <= b { a } else { b }
}

/// Relies on ratatui's Rect::intersection: the overlap of two rectangles,
/// from the larger of the left and top edges to the smaller of the right
/// and bottom edges. It overflows, and so panics, unless the edges fit in
/// `u16` and the rectangles overlap or touch.
#[verifier::external_body]
fn intersect(a: Rect, b: Rect) -> (r: Rect)
    requires
        a.x + a.width <= u16::MAX,
        a.y + a.height <= u16::MAX,
        b.x + b.width <= u16::MAX,
        b.y + b.height <= u16::MAX,
        max_u16(a.x, b.x) <= min_u16((a.x + a.width) as u16, (b.x + b.width) as u16),
        max_u16(a.y, b.y) <= min_u16((a.y + a.height) as u16, (b.y + b.height) as u16),
    ensures
        r.x == max_u16(a.x, b.x),
        r.y == max_u16(a.y, b.y),
        r.width == min_u16((a.x + a.width) as u16, (b.x + b.width) as u16) - r.x,
        r.height == min_u16((a.y + a.height) as u16, (b.y + b.height) as u16) - r.y,
{
    let ra = ratatui::layout::Rect { x: a.x, y: a.y, width: a.width, height: a.height };
    let rb = ratatui::layout::Rect { x: b.x, y: b.y, width: b.width, height: b.height };
    let i = ra.intersection(rb);
    Rect { x: i.x, y: i.y, width: i.width, height: i.height }
}

/// The code of a tile in a payload.
pub open spec fn tile_code(t: TileType) -> u32 {
    match t {
        TileType::FLOOR => 0,
        TileType::WALL => 1,
    }
}

/// The codes of a column of tiles.
pub open spec fn column_codes(col: Seq<TileType>) -> Seq<u32> {
    col.map_values(|t: TileType| tile_code(t))
}

/// The codes of all columns, one column after the other.
pub open spec fn grid_codes(tiles: Seq<Seq<TileType>>) -> Seq<u32>
    decreases tiles.len(),
{
    if tiles.len() == 0 {
        Seq::empty()
    } else {
        grid_codes(tiles.drop_last()) + column_codes(tiles.last())
    }
}

/// The tile with code `c`, where there is one.
pub open spec fn tile_of_code(c: u32) -> Option<TileType> {
    if c == 0 {
        Some(TileType::FLOOR)
    } else if c == 1 {
        Some(TileType::WALL)
    } else {
        None
    }
}

/// The column of tiles that `codes` stand for, where each is a tile's code.
pub open spec fn column_of_codes(codes: Seq<u32>) -> Option<Seq<TileType>> {
    if forall|i: int| 0 <= i < codes.len() ==> #[trigger] tile_of_code(codes[i]) is Some {
        Some(codes.map_values(|c: u32| tile_of_code(c)->Some_0))
    } else {
        None
    }
}

/// The `w` columns of height `h` that `codes` stand for, where it holds
/// exactly that many valid codes.
pub open spec fn grid_of_codes(codes: Seq<u32>, w: nat, h: nat) -> Option<Seq<Seq<TileType>>>
    decreases w,
{
    if w == 0 {
        if codes.len() == 0 {
            Some(Seq::empty())
        } else {
            None
        }
    } else if codes.len() < h {
        None
    } else {
        match (column_of_codes(codes.subrange(0, h as int)), grid_of_codes(codes.subrange(h as int, codes.len() as int), (w - 1) as nat, h)) {
            (Some(col), Some(rest)) => Some(seq![col] + rest),
            _ => None,
        }
    }
}

/// The tiles and size that a tile map's payload holds, where it holds them.
pub open spec fn tile_map_from(s: Seq<char>) -> Option<(Seq<Seq<TileType>>, (u16, u16))> {
    match nums_of_json(s) {
        Some(v) => if v.len() >= 2 && v[0] <= u16::MAX && v[1] <= u16::MAX {
            match grid_of_codes(v.subrange(2, v.len() as int), v[0] as nat, v[1] as nat) {
                Some(t) => Some((t, (v[0] as u16, v[1] as u16))),
                None => None,
            }
        } else {
            None
        },
        None => None,
    }
}

/// A grid of tiles, `size.0` columns of `size.1` tiles, indexed by (x, y).
pub struct TileMap {
    tiles: Vec<Vec<TileType>>,
    size: (u16, u16),
}

/// A grid of `size.0` columns of `size.1` tiles, each column a sequence.
pub open spec fn grid_wf(tiles: Seq<Seq<TileType>>, size: (u16, u16)) -> bool {
    &&& tiles.len() == size.0
    &&& forall|x: int| 0 <= x < tiles.len() ==> (#[trigger] tiles[x]).len() == size.1
}

/// Whether (x, y) lies in `r`.
pub open spec fn in_rect(r: Rect, x: int, y: int) -> bool {
    r.x <= x < r.x + r.width && r.y <= y < r.y + r.height
}

/// The tile at (x, y) after drawing `r` with `tile` over `tiles`.
pub open spec fn drawn(tiles: Seq<Seq<TileType>>, r: Rect, tile: TileType, filled: bool, x: int, y: int) -> TileType {
    if in_rect(r, x, y) && (filled || on_border(r, x, y)) {
        tile
    } else {
        tiles[x][y]
    }
}

/// Whether (x, y), inside `r`, lies on its outermost ring.
pub open spec fn on_border(r: Rect, x: int, y: int) -> bool {
    x + 1 == r.x + r.width || x == r.x || y + 1 == r.y + r.height || y == r.y
}

impl View for TileMap {
    type V = (Seq<Seq<TileType>>, (u16, u16));

    closed spec fn view(&self) -> (Seq<Seq<TileType>>, (u16, u16)) {
        (self.tiles@.map_values(|col: Vec<TileType>| col@), self.size)
    }
}

impl TileMap {
    /// The map's shape matches its size.
    pub open spec fn wf(&self) -> bool {
        grid_wf(self@.0, self@.1)
    }

    /// A map of the given size, all floor.
    pub fn new(size: (u16, u16)) -> (r: Self)
        ensures
            r.wf(),
            r@.1 == size,
            forall|x: int, y: int| 0 <= x < size.0 && 0 <= y < size.1 ==> #[trigger] r@.0[x][y] == TileType::FLOOR,
    {
        let tiles = TileMap::instantiate_map(size);
        let r = TileMap { tiles, size };
        assert(r@.0 =~= tiles@.map_values(|col: Vec<TileType>| col@));
        r
    }

    /// `size.0` columns of `size.1` floor tiles.
    pub fn instantiate_map(size: (u16, u16)) -> (r: Vec<Vec<TileType>>)
        ensures
            r@.len() == size.0,
            forall|x: int| 0 <= x < size.0 ==> (#[trigger] r@[x])@.len() == size.1,
            forall|x: int, y: int| 0 <= x < size.0 && 0 <= y < size.1 ==> #[trigger] r@[x]@[y] == TileType::FLOOR,
    {
        let mut tiles: Vec<Vec<TileType>> = Vec::new();
        let mut x: u16 = 0;
        while x < size.0
            invariant
                x <= size.0,
                tiles@.len() == x,
                forall|i: int| 0 <= i < x ==> (#[trigger] tiles@[i])@.len() == size.1,
                forall|i: int, j: int| 0 <= i < x && 0 <= j < size.1 ==> #[trigger] tiles@[i]@[j] == TileType::FLOOR,
            decreases size.0 - x,
        {
            let mut col: Vec<TileType> = Vec::new();
            let mut y: u16 = 0;
            while y < size.1
                invariant
                    y <= size.1,
                    col@.len() == y,
                    forall|j: int| 0 <= j < y ==> #[trigger] col@[j] == TileType::FLOOR,
                decreases size.1 - y,
            {
                col.push(TileType::FLOOR);
                y = y + 1;
            }
            tiles.push(col);
            x = x + 1;
        }
        tiles
    }

    /// The tile at `pos`.
    pub fn tile_at(&self, pos: (u16, u16)) -> (r: TileType)
        requires
            self.wf(),
            pos.0 < self@.1.0,
            pos.1 < self@.1.1,
        ensures
            r == self@.0[pos.0 as int][pos.1 as int],
    {
        self.tiles[pos.0 as usize][pos.1 as usize]
    }

    /// The number of columns and of rows.
    pub fn get_size(&self) -> (r: (u16, u16))
        ensures
            r == self@.1,
    {
        self.size
    }

    /// The rectangle that the map covers.
    pub fn to_rect(&self) -> (r: Rect)
        ensures
            r == (Rect { x: 0, y: 0, width: self@.1.0, height: self@.1.1 }),
    {
        Rect { x: 0, y: 0, width: self.size.0, height: self.size.1 }
    }

    /// Sets the tiles of `pos` to `tile`: all of them when `filled`, else
    /// only those of its outermost ring. `pos` lies within the map.
    pub fn draw_rect(&mut self, pos: &Rect, tile: TileType, filled: bool)
        requires
            old(self).wf(),
            pos.x + pos.width <= old(self)@.1.0,
            pos.y + pos.height <= old(self)@.1.1,
        ensures
            final(self).wf(),
            final(self)@.1 == old(self)@.1,
            forall|x: int, y: int| 0 <= x < old(self)@.1.0 && 0 <= y < old(self)@.1.1 ==> #[trigger] final(self)@.0[x][y]
                == if in_rect(*pos, x, y) && (filled || on_border(*pos, x, y)) {
                tile
            } else {
                old(self)@.0[x][y]
            },
    {
        let real_pos = intersect(self.to_rect(), *pos);
        assert(real_pos == *pos);
        let ghost w = self@.1.0 as int;
        let ghost h = self@.1.1 as int;
        let right = real_pos.x + real_pos.width;
        let bottom = real_pos.y + real_pos.height;
        let mut x: u16 = real_pos.x;
        while x < right
            invariant
                real_pos == *pos,
                right == pos.x + pos.width,
                bottom == pos.y + pos.height,
                right <= w,
                bottom <= h,
                pos.x <= x <= right,
                self.size == old(self).size,
                w == self.size.0,
                h == self.size.1,
                grid_wf(self@.0, self@.1),
                forall|i: int, j: int| 0 <= i < w && 0 <= j < h ==> #[trigger] self@.0[i][j] == if pos.x <= i < x {
                    drawn(old(self)@.0, *pos, tile, filled, i, j)
                } else {
                    old(self)@.0[i][j]
                },
            decreases right - x,
        {
            let mut y: u16 = real_pos.y;
            while y < bottom
                invariant
                    real_pos == *pos,
                    right == pos.x + pos.width,
                    bottom == pos.y + pos.height,
                    right <= w,
                    bottom <= h,
                    pos.x <= x < right,
                    pos.y <= y <= bottom,
                    self.size == old(self).size,
                    w == self.size.0,
                    h == self.size.1,
                    grid_wf(self@.0, self@.1),
                    forall|i: int, j: int| 0 <= i < w && 0 <= j < h ==> #[trigger] self@.0[i][j] == if pos.x <= i < x
                        || (i == x && pos.y <= j < y) {
                        drawn(old(self)@.0, *pos, tile, filled, i, j)
                    } else {
                        old(self)@.0[i][j]
                    },
                decreases bottom - y,
            {
                if filled || (x + 1 == right || x == real_pos.x || y + 1 == bottom || y == real_pos.y) {
                    let ghost before = self@.0;
                    assert(self.tiles@[x as int]@ == before[x as int]);
                    self.tiles[x as usize].set(y as usize, tile);
                    assert(self@.0 =~= before.update(x as int, before[x as int].update(y as int, tile)));
                    assert forall|i: int, j: int| 0 <= i < w && 0 <= j < h implies #[trigger] self@.0[i][j] == if pos.x
                        <= i < x || (i == x && pos.y <= j < y + 1) {
                        drawn(old(self)@.0, *pos, tile, filled, i, j)
                    } else {
                        old(self)@.0[i][j]
                    } by {
                        if i != x || j != y {
                            assert(self@.0[i][j] == before[i][j]);
                        }
                    }
                }
                y = y + 1;
            }
            assert forall|i: int, j: int| 0 <= i < w && 0 <= j < h implies #[trigger] self@.0[i][j] == if pos.x <= i < x + 1 {
                drawn(old(self)@.0, *pos, tile, filled, i, j)
            } else {
                old(self)@.0[i][j]
            } by {
                if i == x && !(pos.y <= j < y) {
                    assert(!in_rect(*pos, i, j));
                }
            }
            x = x + 1;
        }
    }

    /// The tiles and size that a payload holds, where it holds them.
    pub fn from_payload(s: &str) -> (r: Option<TileMap>)
        ensures
            match r {
                Some(m) => m.wf() && tile_map_from(s@) == Some(m@),
                None => tile_map_from(s@) is None,
            },
    {
        let v = match decode_nums(s) {
            Some(v) => v,
            None => {
                return None;
            },
        };
        if v.len() < 2 || v[0] > 65535 || v[1] > 65535 {
            return None;
        }
        let w = v[0] as u16;
        let h = v[1] as u16;
        let ghost codes = v@.subrange(2, v@.len() as int);
        let mut tiles: Vec<Vec<TileType>> = Vec::new();
        let mut k: usize = 2;
        let mut x: u16 = 0;
        while x < w
            invariant
                nums_of_json(s@) == Some(v@),
                v@.len() >= 2,
                w == v@[0],
                h == v@[1],
                codes == v@.subrange(2, v@.len() as int),
                2 <= k <= v@.len(),
                x <= w,
                tiles@.len() == x,
                forall|i: int| 0 <= i < x ==> (#[trigger] tiles@[i])@.len() == h,
                grid_of_codes(codes, w as nat, h as nat) == match grid_of_codes(v@.subrange(k as int, v@.len() as int), (w - x) as nat, h as nat) {
                    Some(rest) => Some(tiles@.map_values(|col: Vec<TileType>| col@) + rest),
                    None => None::<Seq<Seq<TileType>>>,
                },
            decreases w - x,
        {
            let ghost rem = v@.subrange(k as int, v@.len() as int);
            if v.len() - k < h as usize {
                return None;
            }
            let ghost head = rem.subrange(0, h as int);
            assert(forall|j: int| 0 <= j < h ==> #[trigger] head[j] == v@[k + j]);
            let mut col: Vec<TileType> = Vec::new();
            let mut y: usize = 0;
            while y < h as usize
                invariant
                    k + h <= v@.len(),
                    v@.len() <= usize::MAX,
                    head.len() == h,
                    forall|j: int| 0 <= j < h ==> #[trigger] head[j] == v@[k + j],
                    nums_of_json(s@) == Some(v@),
                    v@.len() >= 2,
                    w == v@[0],
                    h == v@[1],
                    codes == v@.subrange(2, v@.len() as int),
                    x < w,
                    rem == v@.subrange(k as int, v@.len() as int),
                    head == rem.subrange(0, h as int),
                    grid_of_codes(codes, w as nat, h as nat) == match grid_of_codes(rem, (w - x) as nat, h as nat) {
                        Some(rest) => Some(tiles@.map_values(|col: Vec<TileType>| col@) + rest),
                        None => None::<Seq<Seq<TileType>>>,
                    },
                    y <= h,
                    col@.len() == y,
                    forall|j: int| 0 <= j < y ==> tile_of_code(#[trigger] v@[k + j]) == Some(col@[j]),
                decreases h - y,
            {
                let c = v[k + y];
                if c == 0 {
                    col.push(TileType::FLOOR);
                } else if c == 1 {
                    col.push(TileType::WALL);
                } else {
                    assert(head[y as int] == c);
                    assert(tile_of_code(head[y as int]) is None);
                    assert(column_of_codes(head) is None);
                    assert(grid_of_codes(rem, (w - x) as nat, h as nat) is None);
                    return None;
                }
                y = y + 1;
            }
            assert(column_of_codes(head) == Some(col@)) by {
                assert(col@ =~= head.map_values(|c: u32| tile_of_code(c)->Some_0));
            }
            assert(rem.subrange(h as int, rem.len() as int) =~= v@.subrange(k + h, v@.len() as int));
            let ghost old_tiles = tiles@.map_values(|c: Vec<TileType>| c@);
            tiles.push(col);
            assert(tiles@.map_values(|c: Vec<TileType>| c@) =~= old_tiles.push(col@));
            k = k + h as usize;
            x = x + 1;
            proof {
                match grid_of_codes(v@.subrange(k as int, v@.len() as int), (w - x) as nat, h as nat) {
                    Some(rest) => {
                        assert(old_tiles + (seq![col@] + rest) =~= old_tiles.push(col@) + rest);
                    },
                    None => {},
                }
            }
        }
        if k != v.len() {
            assert(v@.subrange(k as int, v@.len() as int).len() != 0);
            assert(grid_of_codes(v@.subrange(k as int, v@.len() as int), 0, h as nat) is None);
            assert(grid_of_codes(codes, w as nat, h as nat) is None);
            return None;
        }
        assert(v@.subrange(k as int, v@.len() as int) =~= Seq::<u32>::empty());
        let m = TileMap { tiles, size: (w, h) };
        assert(tiles@.map_values(|col: Vec<TileType>| col@) + Seq::<Seq<TileType>>::empty() =~= m@.0);
        Some(m)
    }
}

impl IsComponent for TileMap {
    open spec fn tag_of(&self) -> Seq<char> {
        "TileMap"@
    }

    open spec fn payload_of(&self) -> Option<Seq<char>> {
        json_of_nums(seq![self@.1.0 as u32, self@.1.1 as u32] + grid_codes(self@.0))
    }

    fn get_type_name(&self) -> (r: String) {
        String::from_str("TileMap")
    }

    fn to_payload(&self) -> (r: Option<String>) {
        let mut v: Vec<u32> = Vec::new();
        v.push(self.size.0 as u32);
        v.push(self.size.1 as u32);
        let ghost g = self@.0;
        let ghost head = seq![self@.1.0 as u32, self@.1.1 as u32];
        let mut x: usize = 0;
        while x < self.tiles.len()
            invariant
                g == self@.0,
                g.len() == self.tiles@.len(),
                head == seq![self@.1.0 as u32, self@.1.1 as u32],
                x <= g.len(),
                v@ =~= head + grid_codes(g.subrange(0, x as int)),
            decreases g.len() - x,
        {
            let mut y: usize = 0;
            let ghost start = v@;
            while y < self.tiles[x].len()
                invariant
                    g == self@.0,
                    x < g.len(),
                    g[x as int] == self.tiles@[x as int]@,
                    y <= g[x as int].len(),
                    v@ =~= start + column_codes(g[x as int].subrange(0, y as int)),
                decreases g[x as int].len() - y,
            {
                let t = self.tiles[x][y];
                let c: u32 = match t {
                    TileType::FLOOR => 0,
                    TileType::WALL => 1,
                };
                v.push(c);
                y = y + 1;
                assert(column_codes(g[x as int].subrange(0, y as int)) =~= column_codes(g[x as int].subrange(0, y - 1)).push(c));
            }
            assert(g[x as int].subrange(0, y as int) =~= g[x as int]);
            assert(g.subrange(0, x + 1).drop_last() =~= g.subrange(0, x as int));
            x = x + 1;
        }
        assert(g.subrange(0, g.len() as int) =~= g);
        encode_nums(&v)
    }
}

} // verus!
