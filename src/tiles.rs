use vstd::prelude::*;

verus! {

/// A rectangle of tile ids stored in one array; the tile at `(a, b)` sits at
/// `a * size.0 + b`.
pub struct Tiles {
    size: (u32, u32),
    tiles: Vec<u32>,
}

impl View for Tiles {
    type V = Seq<u32>;

    closed spec fn view(&self) -> Seq<u32> {
        self.tiles@
    }
}

/// Position of tile `pos` in the array of a tile map `stride` wide.
pub open spec fn tile_index(pos: (u32, u32), stride: u32) -> int {
    pos.0 * stride + pos.1
}

impl Tiles {
    pub closed spec fn stride(&self) -> u32 {
        self.size.0
    }

    /// `size.0 * size.1` tiles, all `default`.
    pub fn new(size: (u32, u32), default: u32) -> (r: Tiles)
        requires
            size.0 * size.1 <= usize::MAX,
        ensures
            r@ == Seq::new((size.0 * size.1) as nat, |i: int| default),
            r.stride() == size.0,
    {
        let mut tiles: Vec<u32> = Vec::new();
        let mut x: u32 = 0;
        while x < size.0
            invariant
                x <= size.0,
                size.0 * size.1 <= usize::MAX,
                tiles@.len() == x * size.1,
                forall|i: int| 0 <= i < tiles@.len() ==> #[trigger] tiles@[i] == default,
            decreases size.0 - x,
        {
            assert((x + 1) * size.1 <= size.0 * size.1) by (nonlinear_arith)
                requires
                    x < size.0,
            ;
            let mut z: u32 = 0;
            while z < size.1
                invariant
                    z <= size.1,
                    x < size.0,
                    (x + 1) * size.1 <= usize::MAX,
                    tiles@.len() == x * size.1 + z,
                    forall|i: int| 0 <= i < tiles@.len() ==> #[trigger] tiles@[i] == default,
                decreases size.1 - z,
            {
                assert(x * size.1 + z < (x + 1) * size.1) by (nonlinear_arith)
                    requires
                        z < size.1,
                ;
                tiles.push(default);
                z += 1;
            }
            assert(x * size.1 + size.1 == (x + 1) * size.1) by (nonlinear_arith);
            x += 1;
        }
        let r = Tiles { size, tiles };
        assert(r@ =~= Seq::new((size.0 * size.1) as nat, |i: int| default));
        r
    }

    fn index(&self, pos: (u32, u32)) -> (r: u64)
        ensures
            r == tile_index(pos, self.stride()),
    {
        assert(pos.0 * self.size.0 <= 0xffff_fffe_0000_0001) by (nonlinear_arith)
            requires
                pos.0 <= 0xffff_ffff,
                self.size.0 <= 0xffff_ffff,
        ;
        pos.0 as u64 * self.size.0 as u64 + pos.1 as u64
    }

    /// The tile at `pos`, if it lies in the array.
    pub fn get(&self, pos: (u32, u32)) -> (r: Option<u32>)
        ensures
            0 <= tile_index(pos, self.stride()) < self@.len() ==> r == Some(
                self@[tile_index(pos, self.stride())],
            ),
            tile_index(pos, self.stride()) >= self@.len() ==> r is None,
    {
        let i = self.index(pos);
        if i < self.tiles.len() as u64 {
            Some(self.tiles[i as usize])
        } else {
            None
        }
    }

    /// Replaces the tile at `pos`; a position outside the array changes nothing.
    pub fn set(&mut self, pos: (u32, u32), val: u32)
        ensures
            final(self).stride() == old(self).stride(),
            0 <= tile_index(pos, old(self).stride()) < old(self)@.len() ==> final(self)@ == old(
                self,
            )@.update(tile_index(pos, old(self).stride()), val),
            tile_index(pos, old(self).stride()) >= old(self)@.len() ==> final(self)@ == old(self)@,
    {
        let i = self.index(pos);
        if i < self.tiles.len() as u64 {
            self.tiles.set(i as usize, val);
        }
    }

    pub fn len(&self) -> (r: usize)
        ensures
            r == self@.len(),
    {
        self.tiles.len()
    }
}

} // verus!
