use vstd::prelude::*;

verus! {

/// Linear cell index of the pixel at column `x`, row `y` on the 64x32 grid.
pub open spec fn pixel_index(x: int, y: int) -> int {
    y * 64 + x
}

/// Bit `c` (0 is leftmost, the most significant) of one sprite row byte.
pub open spec fn sprite_bit(b: u8, c: int) -> bool {
    (b >> ((7 - c) as u8)) & 1 == 1
}

/// The display and collision flag after toggling the first `c` columns of one
/// sprite row byte `b`. The row starts at column `x` and sits on absolute row
/// `yr`; both coordinates wrap around the grid. The flag records whether any
/// toggled pixel was already on.
pub open spec fn draw_row(disp: Seq<bool>, b: u8, x: int, yr: int, c: int) -> (Seq<bool>, bool)
    decreases c,
{
    if c <= 0 {
        (disp, false)
    } else {
        let prev = draw_row(disp, b, x, yr, c - 1);
        if sprite_bit(b, c - 1) {
            let px = pixel_index((x + c - 1) % 64, yr % 32);
            (prev.0.update(px, !prev.0[px]), prev.1 || prev.0[px])
        } else {
            prev
        }
    }
}

/// The display and collision flag after drawing the first `r` rows of the
/// sprite stored at `addr`: row `k` is the byte `mem[addr + k]`, toggled onto
/// absolute row `y + k` starting at column `x`.
pub open spec fn draw_rows(
    disp: Seq<bool>,
    mem: Seq<u8>,
    addr: int,
    x: int,
    y: int,
    r: int,
) -> (Seq<bool>, bool)
    decreases r,
{
    if r <= 0 {
        (disp, false)
    } else {
        let prev = draw_rows(disp, mem, addr, x, y, r - 1);
        let row = draw_row(prev.0, mem[addr + r - 1], x, y + r - 1, 8);
        (row.0, prev.1 || row.1)
    }
}

/// Some column below `c` of row byte `b` is visible and lands on pixel `p`,
/// when the row starts at column `x` and sits on absolute row `yr`.
pub open spec fn row_covers(b: u8, x: int, yr: int, c: int, p: int) -> bool {
    exists|cc: int|
        0 <= cc < c && #[trigger] sprite_bit(b, cc) && p == pixel_index(
            (x + cc) % 64,
            yr % 32,
        )
}

/// Some visible column below `c` of row byte `b` lands on a pixel of `disp`
/// that is already on.
pub open spec fn row_collides(disp: Seq<bool>, b: u8, x: int, yr: int, c: int) -> bool {
    exists|cc: int|
        0 <= cc < c && #[trigger] sprite_bit(b, cc) && disp[pixel_index((x + cc) % 64, yr % 32)]
}

/// Some visible pixel of the `n`-row sprite stored at `addr` lands on pixel
/// `p` when drawn from `(x, y)`.
pub open spec fn covers(mem: Seq<u8>, addr: int, x: int, y: int, n: int, p: int) -> bool {
    exists|r: int, c: int|
        0 <= r < n && 0 <= c < 8 && #[trigger] sprite_bit(mem[addr + r], c) && p == pixel_index(
            (x + c) % 64,
            (y + r) % 32,
        )
}

/// Some visible pixel of the sprite lands on a pixel of `disp` that is
/// already on.
pub open spec fn collides(disp: Seq<bool>, mem: Seq<u8>, addr: int, x: int, y: int, n: int) -> bool {
    exists|r: int, c: int|
        0 <= r < n && 0 <= c < 8 && #[trigger] sprite_bit(mem[addr + r], c) && disp[pixel_index(
            (x + c) % 64,
            (y + r) % 32,
        )]
}

/// Two naturals less than a modulus apart, with the smaller one non-negative,
/// fall in different residue classes.
proof fn lemma_mod_distinct(a: int, b: int, m: int)
    requires
        0 <= a < b,
        b - a < m,
        0 < m,
    ensures
        a % m != b % m,
{
    vstd::arithmetic::div_mod::lemma_fundamental_div_mod(a, m);
    vstd::arithmetic::div_mod::lemma_fundamental_div_mod(b, m);
    if a % m == b % m {
        let q = b / m - a / m;
        assert(b - a == m * q) by (nonlinear_arith)
            requires
                a == m * (a / m) + a % m,
                b == m * (b / m) + b % m,
                a % m == b % m,
                q == b / m - a / m,
        ;
        assert(m * q > 0);
        assert(q >= 1) by (nonlinear_arith)
            requires
                m * q > 0,
                m > 0,
        ;
        assert(m * q >= m) by (nonlinear_arith)
            requires
                q >= 1,
                m > 0,
        ;
    }
}

/// Within one sprite row every pixel is touched at most once, so pixel `p`
/// ends up toggled exactly when some visible column lands on it, and the
/// collision flag reports exactly whether a visible column hit a lit pixel.
proof fn lemma_draw_row_pixel(disp: Seq<bool>, b: u8, x: int, yr: int, c: int)
    requires
        disp.len() == 2048,
        0 <= x,
        0 <= yr,
        0 <= c <= 8,
    ensures
        ({
            let res = draw_row(disp, b, x, yr, c);
            &&& res.0.len() == 2048
            &&& forall|p: int|
                0 <= p < 2048 ==> res.0[p] == (if row_covers(b, x, yr, c, p) {
                    !disp[p]
                } else {
                    disp[p]
                })
            &&& res.1 == row_collides(disp, b, x, yr, c)
        }),
    decreases c,
{
    let res = draw_row(disp, b, x, yr, c);
    if c == 0 {
        assert(forall|p: int|
            0 <= p < 2048 ==> res.0[p] == (if row_covers(b, x, yr, c, p) {
                !disp[p]
            } else {
                disp[p]
            }));
        assert(!row_collides(disp, b, x, yr, 0));
    } else {
        lemma_draw_row_pixel(disp, b, x, yr, c - 1);
        let prev = draw_row(disp, b, x, yr, c - 1);
        if sprite_bit(b, c - 1) {
            let px = pixel_index((x + c - 1) % 64, yr % 32);
            assert(0 <= (x + c - 1) % 64 < 64);
            assert(0 <= yr % 32 < 32);
            assert(0 <= px < 2048);
            assert(!row_covers(b, x, yr, c - 1, px)) by {
                if row_covers(b, x, yr, c - 1, px) {
                    let cc = choose|cc: int|
                        0 <= cc < c - 1 && #[trigger] sprite_bit(b, cc) && px == pixel_index(
                            (x + cc) % 64,
                            yr % 32,
                        );
                    lemma_mod_distinct(x + cc, x + c - 1, 64);
                    assert(false);
                }
            }
            assert(prev.0[px] == disp[px]);
            assert(res.0 == prev.0.update(px, !prev.0[px]));
            assert(res.1 == (prev.1 || prev.0[px]));
            assert forall|p: int|
                0 <= p < 2048 implies res.0[p] == (if row_covers(b, x, yr, c, p) {
                !disp[p]
            } else {
                disp[p]
            }) by {
                if p == px {
                    assert(row_covers(b, x, yr, c, p)) by {
                        assert(0 <= c - 1 < c && sprite_bit(b, c - 1) && p == pixel_index(
                            (x + c - 1) % 64,
                            yr % 32,
                        ));
                    }
                    assert(res.0[p] == !prev.0[p]);
                } else {
                    assert(res.0[p] == prev.0[p]);
                    if row_covers(b, x, yr, c, p) {
                        let cc = choose|cc: int|
                            0 <= cc < c && #[trigger] sprite_bit(b, cc) && p == pixel_index(
                                (x + cc) % 64,
                                yr % 32,
                            );
                        assert(cc != c - 1);
                        assert(row_covers(b, x, yr, c - 1, p));
                    }
                    if row_covers(b, x, yr, c - 1, p) {
                        let cc = choose|cc: int|
                            0 <= cc < c - 1 && #[trigger] sprite_bit(b, cc) && p == pixel_index(
                                (x + cc) % 64,
                                yr % 32,
                            );
                        assert(row_covers(b, x, yr, c, p));
                    }
                }
            };
            if disp[px] {
                assert(row_collides(disp, b, x, yr, c)) by {
                    assert(0 <= c - 1 < c && sprite_bit(b, c - 1) && disp[pixel_index(
                        (x + c - 1) % 64,
                        yr % 32,
                    )]);
                }
            }
            if row_collides(disp, b, x, yr, c - 1) {
                let cc = choose|cc: int|
                    0 <= cc < c - 1 && #[trigger] sprite_bit(b, cc) && disp[pixel_index(
                        (x + cc) % 64,
                        yr % 32,
                    )];
                assert(row_collides(disp, b, x, yr, c));
            }
            if row_collides(disp, b, x, yr, c) && !row_collides(disp, b, x, yr, c - 1) && !disp[px] {
                let cc = choose|cc: int|
                    0 <= cc < c && #[trigger] sprite_bit(b, cc) && disp[pixel_index(
                        (x + cc) % 64,
                        yr % 32,
                    )];
                assert(cc != c - 1);
                assert(row_collides(disp, b, x, yr, c - 1));
            }
            assert(res.1 == row_collides(disp, b, x, yr, c));
        } else {
            assert(res == prev);
            assert forall|p: int|
                0 <= p < 2048 implies res.0[p] == (if row_covers(b, x, yr, c, p) {
                !disp[p]
            } else {
                disp[p]
            }) by {
                if row_covers(b, x, yr, c, p) {
                    let cc = choose|cc: int|
                        0 <= cc < c && #[trigger] sprite_bit(b, cc) && p == pixel_index(
                            (x + cc) % 64,
                            yr % 32,
                        );
                    assert(cc != c - 1);
                    assert(row_covers(b, x, yr, c - 1, p));
                }
                if row_covers(b, x, yr, c - 1, p) {
                    assert(row_covers(b, x, yr, c, p));
                }
            };
            if row_collides(disp, b, x, yr, c) {
                let cc = choose|cc: int|
                    0 <= cc < c && #[trigger] sprite_bit(b, cc) && disp[pixel_index(
                        (x + cc) % 64,
                        yr % 32,
                    )];
                assert(cc != c - 1);
                assert(row_collides(disp, b, x, yr, c - 1));
            }
            if row_collides(disp, b, x, yr, c - 1) {
                assert(row_collides(disp, b, x, yr, c));
            }
            assert(res.1 == row_collides(disp, b, x, yr, c));
        }
    }
}

/// Each pixel is touched by the sprite at most once, so a draw toggles pixel
/// `p` exactly when the sprite covers it, and the collision flag is 1 exactly
/// when some visible sprite pixel lands on a lit pixel.
pub proof fn lemma_draw_rows_pixel(disp: Seq<bool>, mem: Seq<u8>, addr: int, x: int, y: int, n: int)
    requires
        disp.len() == 2048,
        0 <= x,
        0 <= y,
        0 <= n <= 16,
    ensures
        ({
            let res = draw_rows(disp, mem, addr, x, y, n);
            &&& res.0.len() == 2048
            &&& forall|p: int|
                0 <= p < 2048 ==> res.0[p] == (if covers(mem, addr, x, y, n, p) {
                    !disp[p]
                } else {
                    disp[p]
                })
            &&& res.1 == collides(disp, mem, addr, x, y, n)
        }),
    decreases n,
{
    let res = draw_rows(disp, mem, addr, x, y, n);
    if n == 0 {
        assert(forall|p: int|
            0 <= p < 2048 ==> res.0[p] == (if covers(mem, addr, x, y, n, p) {
                !disp[p]
            } else {
                disp[p]
            }));
        assert(!collides(disp, mem, addr, x, y, 0));
    } else {
        lemma_draw_rows_pixel(disp, mem, addr, x, y, n - 1);
        let prev = draw_rows(disp, mem, addr, x, y, n - 1);
        let b = mem[addr + n - 1];
        let yr = y + n - 1;
        lemma_draw_row_pixel(prev.0, b, x, yr, 8);
        let rowres = draw_row(prev.0, b, x, yr, 8);
        assert(res.0 == rowres.0);
        assert(res.1 == (prev.1 || rowres.1));
        assert forall|p: int|
            0 <= p < 2048 implies res.0[p] == (if covers(mem, addr, x, y, n, p) {
            !disp[p]
        } else {
            disp[p]
        }) by {
            if row_covers(b, x, yr, 8, p) {
                let cc = choose|cc: int|
                    0 <= cc < 8 && #[trigger] sprite_bit(b, cc) && p == pixel_index(
                        (x + cc) % 64,
                        yr % 32,
                    );
                assert(!covers(mem, addr, x, y, n - 1, p)) by {
                    if covers(mem, addr, x, y, n - 1, p) {
                        let (r, c) = choose|r: int, c: int|
                            0 <= r < n - 1 && 0 <= c < 8 && #[trigger] sprite_bit(mem[addr + r], c)
                                && p == pixel_index((x + c) % 64, (y + r) % 32);
                        lemma_mod_distinct(y + r, yr, 32);
                        assert(0 <= (y + r) % 32 < 32);
                        assert(0 <= yr % 32 < 32);
                        assert(0 <= (x + c) % 64 < 64);
                        assert(0 <= (x + cc) % 64 < 64);
                        assert(false);
                    }
                }
                assert(prev.0[p] == disp[p]);
                assert(res.0[p] == !disp[p]);
                assert(covers(mem, addr, x, y, n, p)) by {
                    assert(0 <= n - 1 < n && 0 <= cc < 8 && sprite_bit(mem[addr + n - 1], cc) && p
                        == pixel_index((x + cc) % 64, (y + n - 1) % 32));
                }
            } else {
                assert(res.0[p] == prev.0[p]);
                if covers(mem, addr, x, y, n, p) {
                    let (r, c) = choose|r: int, c: int|
                        0 <= r < n && 0 <= c < 8 && #[trigger] sprite_bit(mem[addr + r], c) && p
                            == pixel_index((x + c) % 64, (y + r) % 32);
                    if r == n - 1 {
                        assert(row_covers(b, x, yr, 8, p)) by {
                            assert(0 <= c < 8 && sprite_bit(b, c) && p == pixel_index(
                                (x + c) % 64,
                                yr % 32,
                            ));
                        }
                        assert(false);
                    } else {
                        assert(covers(mem, addr, x, y, n - 1, p));
                    }
                }
                if covers(mem, addr, x, y, n - 1, p) {
                    let (r, c) = choose|r: int, c: int|
                        0 <= r < n - 1 && 0 <= c < 8 && #[trigger] sprite_bit(mem[addr + r], c) && p
                            == pixel_index((x + c) % 64, (y + r) % 32);
                    assert(covers(mem, addr, x, y, n, p));
                }
            }
        };
        // The collision flag of the last row reads the display as it was
        // before any row was drawn.
        if rowres.1 {
            let cc = choose|cc: int|
                0 <= cc < 8 && #[trigger] sprite_bit(b, cc) && prev.0[pixel_index(
                    (x + cc) % 64,
                    yr % 32,
                )];
            let p = pixel_index((x + cc) % 64, yr % 32);
            assert(0 <= (x + cc) % 64 < 64);
            assert(0 <= yr % 32 < 32);
            assert(0 <= p < 2048);
            assert(!covers(mem, addr, x, y, n - 1, p)) by {
                if covers(mem, addr, x, y, n - 1, p) {
                    let (r, c) = choose|r: int, c: int|
                        0 <= r < n - 1 && 0 <= c < 8 && #[trigger] sprite_bit(mem[addr + r], c) && p
                            == pixel_index((x + c) % 64, (y + r) % 32);
                    lemma_mod_distinct(y + r, yr, 32);
                    assert(0 <= (y + r) % 32 < 32);
                    assert(0 <= (x + c) % 64 < 64);
                    assert(false);
                }
            }
            assert(disp[pixel_index((x + cc) % 64, yr % 32)]);
            assert(collides(disp, mem, addr, x, y, n)) by {
                assert(0 <= n - 1 < n && 0 <= cc < 8 && sprite_bit(mem[addr + n - 1], cc)
                    && disp[pixel_index((x + cc) % 64, (y + n - 1) % 32)]);
            }
        }
        if prev.1 {
            let (r, c) = choose|r: int, c: int|
                0 <= r < n - 1 && 0 <= c < 8 && #[trigger] sprite_bit(mem[addr + r], c)
                    && disp[pixel_index((x + c) % 64, (y + r) % 32)];
            assert(collides(disp, mem, addr, x, y, n));
        }
        if collides(disp, mem, addr, x, y, n) && !prev.1 && !rowres.1 {
            let (r, c) = choose|r: int, c: int|
                0 <= r < n && 0 <= c < 8 && #[trigger] sprite_bit(mem[addr + r], c)
                    && disp[pixel_index((x + c) % 64, (y + r) % 32)];
            if r == n - 1 {
                let p = pixel_index((x + c) % 64, yr % 32);
                assert(0 <= (x + c) % 64 < 64);
                assert(0 <= yr % 32 < 32);
                assert(0 <= p < 2048);
                assert(!covers(mem, addr, x, y, n - 1, p)) by {
                    if covers(mem, addr, x, y, n - 1, p) {
                        let (rr, sc) = choose|rr: int, sc: int|
                            0 <= rr < n - 1 && 0 <= sc < 8 && #[trigger] sprite_bit(
                                mem[addr + rr],
                                sc,
                            ) && p == pixel_index((x + sc) % 64, (y + rr) % 32);
                        lemma_mod_distinct(y + rr, yr, 32);
                        assert(0 <= (y + rr) % 32 < 32);
                        assert(0 <= (x + sc) % 64 < 64);
                        assert(false);
                    }
                }
                assert(prev.0[p] == disp[p]);
                assert(row_collides(prev.0, b, x, yr, 8)) by {
                    assert(0 <= c < 8 && sprite_bit(b, c) && prev.0[pixel_index(
                        (x + c) % 64,
                        yr % 32,
                    )]);
                }
                assert(false);
            } else {
                assert(collides(disp, mem, addr, x, y, n - 1));
                assert(false);
            }
        }
        assert(res.1 == collides(disp, mem, addr, x, y, n));
    }
}

/// Drawing the same sprite twice at the same position restores every pixel:
/// the second draw toggles each touched pixel straight back.
pub proof fn lemma_draw_twice_restores(
    disp: Seq<bool>,
    mem: Seq<u8>,
    addr: int,
    x: int,
    y: int,
    n: int,
)
    requires
        disp.len() == 2048,
        0 <= x,
        0 <= y,
        0 <= n <= 16,
    ensures
        draw_rows(draw_rows(disp, mem, addr, x, y, n).0, mem, addr, x, y, n).0 == disp,
{
    lemma_draw_rows_pixel(disp, mem, addr, x, y, n);
    let once = draw_rows(disp, mem, addr, x, y, n).0;
    lemma_draw_rows_pixel(once, mem, addr, x, y, n);
    assert(draw_rows(once, mem, addr, x, y, n).0 =~= disp);
}

/// Over an area whose touched pixels are all off, the first draw reports no
/// collision, and an immediate second identical draw reports a collision
/// exactly when the sprite shows any pixel at all.
pub proof fn lemma_second_draw_collision(
    disp: Seq<bool>,
    mem: Seq<u8>,
    addr: int,
    x: int,
    y: int,
    n: int,
)
    requires
        disp.len() == 2048,
        0 <= x,
        0 <= y,
        0 <= n <= 16,
        forall|p: int| #[trigger] covers(mem, addr, x, y, n, p) ==> 0 <= p < 2048 && !disp[p],
    ensures
        ({
            let first = draw_rows(disp, mem, addr, x, y, n);
            let second = draw_rows(first.0, mem, addr, x, y, n);
            &&& !first.1
            &&& second.1 == exists|r: int, c: int|
                0 <= r < n && 0 <= c < 8 && #[trigger] sprite_bit(mem[addr + r], c)
        }),
{
    lemma_draw_rows_pixel(disp, mem, addr, x, y, n);
    let first = draw_rows(disp, mem, addr, x, y, n);
    lemma_draw_rows_pixel(first.0, mem, addr, x, y, n);
    let second = draw_rows(first.0, mem, addr, x, y, n);
    if collides(disp, mem, addr, x, y, n) {
        let (r, c) = choose|r: int, c: int|
            0 <= r < n && 0 <= c < 8 && #[trigger] sprite_bit(mem[addr + r], c)
                && disp[pixel_index((x + c) % 64, (y + r) % 32)];
        let p = pixel_index((x + c) % 64, (y + r) % 32);
        assert(covers(mem, addr, x, y, n, p));
        assert(false);
    }
    if second.1 {
        let (r, c) = choose|r: int, c: int|
            0 <= r < n && 0 <= c < 8 && #[trigger] sprite_bit(mem[addr + r], c)
                && first.0[pixel_index((x + c) % 64, (y + r) % 32)];
        assert(exists|r: int, c: int|
            0 <= r < n && 0 <= c < 8 && #[trigger] sprite_bit(mem[addr + r], c));
    }
    if exists|r: int, c: int| 0 <= r < n && 0 <= c < 8 && #[trigger] sprite_bit(mem[addr + r], c) {
        let (r, c) = choose|r: int, c: int|
            0 <= r < n && 0 <= c < 8 && #[trigger] sprite_bit(mem[addr + r], c);
        let p = pixel_index((x + c) % 64, (y + r) % 32);
        assert(covers(mem, addr, x, y, n, p)) by {
            assert(0 <= r < n && 0 <= c < 8 && sprite_bit(mem[addr + r], c) && p == pixel_index(
                (x + c) % 64,
                (y + r) % 32,
            ));
        }
        assert(first.0[p] == !disp[p]);
        assert(collides(first.0, mem, addr, x, y, n)) by {
            assert(0 <= r < n && 0 <= c < 8 && sprite_bit(mem[addr + r], c) && first.0[pixel_index(
                (x + c) % 64,
                (y + r) % 32,
            )]);
        }
    }
}

} // verus!
