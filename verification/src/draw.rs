//! Sprite drawing: which pixels an n-row sprite flips, and the executable
//! XOR blit behind `Dxyn`.
use vstd::prelude::*;
use crate::bits::wrap_address;
use crate::machine::Chip8;
use crate::model::{Machine, exec_draw};

verus! {

/// Whether bit `bit` of `byte`, counted from the most significant, is set.
pub open spec fn sprite_bit(byte: u8, bit: int) -> bool {
    byte & (0x80u8 >> (bit as u8)) != 0
}

/// Whether drawing the `n`-row sprite stored at `memory[i..]` with its
/// top-left corner at (`x0`, `y0`) flips pixel `p` of the 64×32 display.
/// Rows and columns that fall off the right or bottom edge are clipped.
pub open spec fn sprite_covers(memory: Seq<u8>, i: u16, x0: int, y0: int, n: int, p: int) -> bool {
    let px = p % 64;
    let py = p / 64;
    &&& 0 <= p < 2048
    &&& y0 <= py < y0 + n
    &&& x0 <= px < x0 + 8
    &&& sprite_bit(memory[(i + (py - y0)) % 4096], px - x0)
}

/// The display after XOR-ing the sprite onto it.
pub open spec fn draw_sprite(display: Seq<bool>, memory: Seq<u8>, i: u16, x0: int, y0: int, n: int) -> Seq<bool> {
    Seq::new(display.len(), |p: int| display[p] != sprite_covers(memory, i, x0, y0, n, p))
}

/// Whether the sprite covers a pixel that is lit before drawing.
pub open spec fn sprite_collides(display: Seq<bool>, memory: Seq<u8>, i: u16, x0: int, y0: int, n: int) -> bool {
    exists|p: int| #[trigger] sprite_covers(memory, i, x0, y0, n, p) && display[p]
}

/// Whether pixel `p` is flipped by the part of the sprite drawn before row
/// `row`, column `col` (rows top to bottom, each row left to right).
pub open spec fn covered_before(
    memory: Seq<u8>,
    i: u16,
    x0: int,
    y0: int,
    n: int,
    row: int,
    col: int,
    p: int,
) -> bool {
    &&& sprite_covers(memory, i, x0, y0, n, p)
    &&& (p / 64 - y0 < row || (p / 64 - y0 == row && p % 64 - x0 < col))
}

/// Whether the part of the sprite drawn before row `row`, column `col`
/// covers a pixel lit in `display`.
pub open spec fn collides_before(
    display: Seq<bool>,
    memory: Seq<u8>,
    i: u16,
    x0: int,
    y0: int,
    n: int,
    row: int,
    col: int,
) -> bool {
    exists|p: int| #[trigger] covered_before(memory, i, x0, y0, n, row, col, p) && display[p]
}

impl Chip8 {
    /// `Dxyn` — DRW Vx, Vy, n: XOR an n-byte sprite at (Vx, Vy); VF =
    /// collision. Start coordinates wrap; the sprite clips at the display
    /// edges.
    pub(crate) fn draw(&mut self, x: usize, y: usize, n: usize)
        requires
            x < 16,
            y < 16,
            n < 16,
        ensures
            final(self)@ == exec_draw(old(self)@, x as int, y as int, n as int),
    {
        let ghost m0 = self@;
        let x0 = (self.v[x] % 64) as usize;
        let y0 = (self.v[y] % 32) as usize;
        let ghost mem = m0.memory;
        let ghost d0 = m0.display;
        let ghost i0 = m0.i;
        self.v[15] = 0;
        let mut row: usize = 0;
        while row < n && y0 + row < 32
            invariant
                x0 < 64,
                y0 < 32,
                n < 16,
                row <= n,
                y0 + row <= 32,
                d0.len() == 2048,
                mem.len() == 4096,
                m0.v.len() == 16,
                self.memory@ == mem,
                self.i == i0,
                self@ == (Machine { display: self.display@, v: self.v@, ..m0 }),
                self.v@ == m0.v.update(
                    15,
                    if collides_before(d0, mem, i0, x0 as int, y0 as int, n as int, row as int, 0) {
                        1u8
                    } else {
                        0u8
                    },
                ),
                forall|p: int|
                    0 <= p < 2048 ==> #[trigger] self.display@[p] == (d0[p] != covered_before(
                        mem,
                        i0,
                        x0 as int,
                        y0 as int,
                        n as int,
                        row as int,
                        0,
                        p,
                    )),
            decreases n - row,
        {
            let py = y0 + row;
            let sprite = self.memory[wrap_address(self.i as usize + row)];
            let mut col: usize = 0;
            while col < 8 && x0 + col < 64
                invariant
                    x0 < 64,
                    y0 < 32,
                    n < 16,
                    row < n,
                    py == y0 + row,
                    py < 32,
                    col <= 8,
                    x0 + col <= 64,
                    d0.len() == 2048,
                    mem.len() == 4096,
                    m0.v.len() == 16,
                    self.memory@ == mem,
                    self.i == i0,
                    sprite == mem[(i0 + row) % 4096],
                    self@ == (Machine { display: self.display@, v: self.v@, ..m0 }),
                    self.v@ == m0.v.update(
                        15,
                        if collides_before(
                            d0,
                            mem,
                            i0,
                            x0 as int,
                            y0 as int,
                            n as int,
                            row as int,
                            col as int,
                        ) {
                            1u8
                        } else {
                            0u8
                        },
                    ),
                    forall|p: int|
                        0 <= p < 2048 ==> #[trigger] self.display@[p] == (d0[p] != covered_before(
                            mem,
                            i0,
                            x0 as int,
                            y0 as int,
                            n as int,
                            row as int,
                            col as int,
                            p,
                        )),
                decreases 8 - col,
            {
                let idx = py * 64 + x0 + col;
                let ghost next = (col + 1) as int;
                assert(idx / 64 == py && idx % 64 == x0 + col);
                if sprite & (0x80u8 >> (col as u8)) != 0 {
                    assert(sprite_covers(mem, i0, x0 as int, y0 as int, n as int, idx as int));
                    let lit = self.display[idx];
                    if lit {
                        self.v[15] = 1;
                    }
                    self.display[idx] = !lit;
                    proof {
                        assert forall|p: int| #[trigger]
                            covered_before(mem, i0, x0 as int, y0 as int, n as int, row as int, next, p)
                            == (covered_before(mem, i0, x0 as int, y0 as int, n as int, row as int, col as int, p)
                                || p == idx) by {}
                        if lit {
                            assert(covered_before(mem, i0, x0 as int, y0 as int, n as int, row as int, next, idx as int) && d0[idx as int]);
                        } else {
                            if collides_before(d0, mem, i0, x0 as int, y0 as int, n as int, row as int, next) {
                                let q = choose|q: int| #[trigger] covered_before(mem, i0, x0 as int, y0 as int, n as int, row as int, next, q) && d0[q];
                                assert(covered_before(mem, i0, x0 as int, y0 as int, n as int, row as int, col as int, q));
                            }
                            if collides_before(d0, mem, i0, x0 as int, y0 as int, n as int, row as int, col as int) {
                                let q = choose|q: int| #[trigger] covered_before(mem, i0, x0 as int, y0 as int, n as int, row as int, col as int, q) && d0[q];
                                assert(covered_before(mem, i0, x0 as int, y0 as int, n as int, row as int, next, q));
                            }
                        }
                    }
                } else {
                    proof {
                        assert forall|p: int| #[trigger]
                            covered_before(mem, i0, x0 as int, y0 as int, n as int, row as int, next, p)
                            == covered_before(mem, i0, x0 as int, y0 as int, n as int, row as int, col as int, p) by {}
                        if collides_before(d0, mem, i0, x0 as int, y0 as int, n as int, row as int, next) {
                            let q = choose|q: int| #[trigger] covered_before(mem, i0, x0 as int, y0 as int, n as int, row as int, next, q) && d0[q];
                            assert(covered_before(mem, i0, x0 as int, y0 as int, n as int, row as int, col as int, q));
                        }
                        if collides_before(d0, mem, i0, x0 as int, y0 as int, n as int, row as int, col as int) {
                            let q = choose|q: int| #[trigger] covered_before(mem, i0, x0 as int, y0 as int, n as int, row as int, col as int, q) && d0[q];
                            assert(covered_before(mem, i0, x0 as int, y0 as int, n as int, row as int, next, q));
                        }
                    }
                }
                col += 1;
            }
            proof {
                let r = row as int;
                assert forall|p: int| #[trigger]
                    covered_before(mem, i0, x0 as int, y0 as int, n as int, r + 1, 0, p)
                    == covered_before(mem, i0, x0 as int, y0 as int, n as int, r, col as int, p) by {}
                if collides_before(d0, mem, i0, x0 as int, y0 as int, n as int, r + 1, 0) {
                    let q = choose|q: int| #[trigger] covered_before(mem, i0, x0 as int, y0 as int, n as int, r + 1, 0, q) && d0[q];
                    assert(covered_before(mem, i0, x0 as int, y0 as int, n as int, r, col as int, q));
                }
                if collides_before(d0, mem, i0, x0 as int, y0 as int, n as int, r, col as int) {
                    let q = choose|q: int| #[trigger] covered_before(mem, i0, x0 as int, y0 as int, n as int, r, col as int, q) && d0[q];
                    assert(covered_before(mem, i0, x0 as int, y0 as int, n as int, r + 1, 0, q));
                }
            }
            row += 1;
        }
        proof {
            let r = row as int;
            assert forall|p: int| #[trigger] sprite_covers(mem, i0, x0 as int, y0 as int, n as int, p)
                == covered_before(mem, i0, x0 as int, y0 as int, n as int, r, 0, p) by {}
            if sprite_collides(d0, mem, i0, x0 as int, y0 as int, n as int) {
                let q = choose|q: int| #[trigger] sprite_covers(mem, i0, x0 as int, y0 as int, n as int, q) && d0[q];
                assert(covered_before(mem, i0, x0 as int, y0 as int, n as int, r, 0, q));
            }
            if collides_before(d0, mem, i0, x0 as int, y0 as int, n as int, r, 0) {
                let q = choose|q: int| #[trigger] covered_before(mem, i0, x0 as int, y0 as int, n as int, r, 0, q) && d0[q];
                assert(sprite_covers(mem, i0, x0 as int, y0 as int, n as int, q));
            }
            assert(self.display@ =~= draw_sprite(d0, mem, i0, x0 as int, y0 as int, n as int));
        }
    }
}

} // verus!
