use vstd::prelude::*;

verus! {

/// Index of pixel `(x, y)` in a row-major image `width` pixels wide.
pub open spec fn cell(width: int, x: int, y: int) -> int {
    y * width + x
}

/// `v` lowered by `r`, stopping at zero.
pub open spec fn lower(v: int, r: int) -> int {
    if v >= r {
        v - r
    } else {
        0
    }
}

/// `v` raised by `r`, stopping at `limit - 1`.
pub open spec fn upper(v: int, r: int, limit: int) -> int {
    if v + r <= limit - 1 {
        v + r
    } else {
        limit - 1
    }
}

/// `(nx, ny)` lies in the square of half-width `radius` around `(x, y)`,
/// clipped to the `width` by `height` image.
pub open spec fn in_window(
    width: int,
    height: int,
    radius: int,
    x: int,
    y: int,
    nx: int,
    ny: int,
) -> bool {
    &&& lower(y, radius) <= ny <= upper(y, radius, height)
    &&& lower(x, radius) <= nx <= upper(x, radius, width)
}

/// Some selected pixel lies in the window around `(x, y)`.
pub open spec fn near_selection(
    sel: Seq<bool>,
    width: int,
    height: int,
    radius: int,
    x: int,
    y: int,
) -> bool {
    exists|nx: int, ny: int|
        in_window(width, height, radius, x, y, nx, ny) && #[trigger] sel[cell(width, nx, ny)]
}

/// The outline mask at `(x, y)`: 255 for a pixel that is not selected but has
/// a selected pixel within `radius` rows and columns, else 0.
pub open spec fn outline_pixel(
    sel: Seq<bool>,
    width: int,
    height: int,
    radius: int,
    x: int,
    y: int,
) -> u8 {
    if !sel[cell(width, x, y)] && near_selection(sel, width, height, radius, x, y) {
        255
    } else {
        0
    }
}

/// Pixel `(x, y)` of a `width` by `height` image has an index inside it, and
/// distinct pixels have distinct indices.
pub proof fn lemma_cell_bounds(width: int, height: int, x: int, y: int, x2: int, y2: int)
    requires
        0 <= x < width,
        0 <= y < height,
        0 <= x2 < width,
        0 <= y2 < height,
    ensures
        0 <= cell(width, x, y) < width * height,
        (x != x2 || y != y2) ==> cell(width, x, y) != cell(width, x2, y2),
{
    assert(0 <= y * width <= (height - 1) * width) by (nonlinear_arith)
        requires
            0 <= y < height,
            0 < width,
    ;
    assert((height - 1) * width == width * height - width) by (nonlinear_arith);
    if x != x2 || y != y2 {
        assert(y2 * width + x2 != y * width + x) by (nonlinear_arith)
            requires
                0 <= x < width,
                0 <= x2 < width,
                x2 != x || y2 != y,
        {
            if y2 == y {
            } else if y2 < y {
                assert(y2 * width + width <= y * width);
            } else {
                assert(y * width + width <= y2 * width);
            }
        }
    }
}

/// Whether some pixel of the window around `(x, y)` is selected; the window is
/// scanned row by row, and the scan stops at the first selected pixel.
fn selected_near(sel: &Vec<bool>, width: usize, height: usize, radius: usize, x: usize, y: usize) -> (found: bool)
    requires
        sel.len() == width * height,
        x < width,
        y < height,
    ensures
        found == near_selection(sel@, width as int, height as int, radius as int, x as int, y as int),
{
    let y_hi = if radius < height - 1 - y { y + radius } else { height - 1 };
    let x_lo = x.saturating_sub(radius);
    let x_hi = if radius < width - 1 - x { x + radius } else { width - 1 };
    let mut ny = y.saturating_sub(radius);
    while ny <= y_hi
        invariant
            sel.len() == width * height,
            x < width,
            y < height,
            y_hi == upper(y as int, radius as int, height as int),
            x_lo == lower(x as int, radius as int),
            x_hi == upper(x as int, radius as int, width as int),
            lower(y as int, radius as int) <= ny <= y_hi + 1,
            y_hi < height,
            forall|mx: int, my: int|
                lower(y as int, radius as int) <= my < ny && x_lo <= mx <= x_hi ==> !#[trigger] sel@[cell(
                    width as int,
                    mx,
                    my,
                )],
        decreases y_hi + 1 - ny,
    {
        let mut nx = x_lo;
        while nx <= x_hi
            invariant
                sel.len() == width * height,
                x < width,
                y < height,
                y_hi == upper(y as int, radius as int, height as int),
                x_lo == lower(x as int, radius as int),
                x_hi == upper(x as int, radius as int, width as int),
                lower(y as int, radius as int) <= ny <= y_hi,
                y_hi < height,
                x_hi < width,
                x_lo <= nx <= x_hi + 1,
                forall|mx: int, my: int|
                    lower(y as int, radius as int) <= my < ny && x_lo <= mx <= x_hi ==> !#[trigger] sel@[cell(
                        width as int,
                        mx,
                        my,
                    )],
                forall|mx: int| x_lo <= mx < nx ==> !#[trigger] sel@[cell(width as int, mx, ny as int)],
            decreases x_hi + 1 - nx,
        {
            proof {
                lemma_cell_bounds(width as int, height as int, nx as int, ny as int, nx as int, ny as int);
            }
            if sel[ny * width + nx] {
                proof {
                    assert(in_window(width as int, height as int, radius as int, x as int, y as int, nx as int, ny as int));
                }
                return true;
            }
            nx = nx + 1;
        }
        ny = ny + 1;
    }
    proof {
        assert forall|mx: int, my: int|
            in_window(width as int, height as int, radius as int, x as int, y as int, mx, my) implies !#[trigger] sel@[cell(
                width as int,
                mx,
                my,
            )] by {}
    }
    false
}

/// The outline of a selection: `selected` marks, row by row, the pixels of a
/// `width` by `height` image that show the selected object; the result holds
/// 255 for each pixel that is not selected but lies within `radius` rows and
/// columns of a selected one, and 0 for every other pixel.
pub fn outline_mask(selected: &Vec<bool>, width: usize, height: usize, radius: usize) -> (out: Vec<u8>)
    requires
        selected.len() == width * height,
    ensures
        out.len() == width * height,
        forall|x: int, y: int|
            0 <= x < width && 0 <= y < height ==> #[trigger] out@[cell(width as int, x, y)]
                == outline_pixel(selected@, width as int, height as int, radius as int, x, y),
        forall|x: int, y: int|
            0 <= x < width && 0 <= y < height ==> (#[trigger] out@[cell(width as int, x, y)] == 255
                <==> (!selected@[cell(width as int, x, y)] && selected_within(
                selected@,
                width as int,
                height as int,
                radius as int,
                x,
                y,
            ))),
{
    let mut out: Vec<u8> = vec![0u8; width * height];
    proof {
        assert forall|x2: int, y2: int| 0 <= x2 < width && 0 <= y2 < height implies #[trigger] out@[cell(
            width as int,
            x2,
            y2,
        )] == 0u8 by {
            lemma_cell_bounds(width as int, height as int, x2, y2, x2, y2);
        }
    }
    let mut y: usize = 0;
    while y < height
        invariant
            selected.len() == width * height,
            out.len() == width * height,
            y <= height,
            forall|x2: int, y2: int|
                0 <= x2 < width && 0 <= y2 < y ==> #[trigger] out@[cell(width as int, x2, y2)]
                    == outline_pixel(selected@, width as int, height as int, radius as int, x2, y2),
            forall|x2: int, y2: int|
                0 <= x2 < width && y <= y2 < height ==> #[trigger] out@[cell(width as int, x2, y2)]
                    == 0u8,
        decreases height - y,
    {
        let mut x: usize = 0;
        while x < width
            invariant
                selected.len() == width * height,
                out.len() == width * height,
                y < height,
                x <= width,
                forall|x2: int, y2: int|
                    0 <= x2 < width && 0 <= y2 < y ==> #[trigger] out@[cell(width as int, x2, y2)]
                        == outline_pixel(selected@, width as int, height as int, radius as int, x2, y2),
                forall|x2: int|
                    0 <= x2 < x ==> #[trigger] out@[cell(width as int, x2, y as int)]
                        == outline_pixel(selected@, width as int, height as int, radius as int, x2, y as int),
                forall|x2: int, y2: int|
                    0 <= x2 < width && y <= y2 < height && (y2 > y || x2 >= x) ==> #[trigger] out@[cell(width as int, x2, y2)]
                        == 0u8,
            decreases width - x,
        {
            proof {
                lemma_cell_bounds(width as int, height as int, x as int, y as int, x as int, y as int);
            }
            let i = y * width + x;
            if !selected[i] {
                if selected_near(selected, width, height, radius, x, y) {
                    let ghost prev = out@;
                    out.set(i, 255u8);
                    proof {
                        assert(i == cell(width as int, x as int, y as int));
                        assert(out@ == prev.update(i as int, 255u8));
                        assert forall|x2: int, y2: int|
                            0 <= x2 < width && 0 <= y2 < height && (x2 != x || y2 != y) implies #[trigger] out@[cell(
                                width as int,
                                x2,
                                y2,
                            )] == prev[cell(width as int, x2, y2)] by {
                            lemma_cell_bounds(width as int, height as int, x2, y2, x as int, y as int);
                        }
                    }
                }
            }
            x = x + 1;
        }
        y = y + 1;
    }
    proof {
        assert forall|x: int, y: int| 0 <= x < width && 0 <= y < height implies (
        #[trigger] out@[cell(width as int, x, y)] == 255 <==> (!selected@[cell(width as int, x, y)]
            && selected_within(selected@, width as int, height as int, radius as int, x, y))) by {
            lemma_outline_is_square_neighbourhood(
                selected@,
                width as int,
                height as int,
                radius as int,
                x,
                y,
            );
        }
    }
    out
}

/// A selected pixel at most `radius` columns and at most `radius` rows from
/// `(x, y)`, inside the `width` by `height` image.
pub open spec fn selected_within(
    sel: Seq<bool>,
    width: int,
    height: int,
    radius: int,
    x: int,
    y: int,
) -> bool {
    exists|nx: int, ny: int|
        0 <= nx < width && 0 <= ny < height && nx - x <= radius && x - nx <= radius && ny - y
            <= radius && y - ny <= radius && #[trigger] sel[cell(width, nx, ny)]
}

/// The outline is the square neighbourhood of the selection: a pixel is 255
/// exactly when it is not selected and some selected pixel of the image lies
/// at most `radius` columns and at most `radius` rows away from it, corners
/// of the square included; every other pixel is 0.
pub proof fn lemma_outline_is_square_neighbourhood(
    sel: Seq<bool>,
    width: int,
    height: int,
    radius: int,
    x: int,
    y: int,
)
    requires
        0 <= x < width,
        0 <= y < height,
        0 <= radius,
    ensures
        outline_pixel(sel, width, height, radius, x, y) == 255 <==> (!sel[cell(width, x, y)]
            && selected_within(sel, width, height, radius, x, y)),
        outline_pixel(sel, width, height, radius, x, y) == 0 || outline_pixel(
            sel,
            width,
            height,
            radius,
            x,
            y,
        ) == 255,
{
    if near_selection(sel, width, height, radius, x, y) {
        let (nx, ny) = choose|nx: int, ny: int|
            in_window(width, height, radius, x, y, nx, ny) && #[trigger] sel[cell(width, nx, ny)];
        assert(0 <= nx < width && 0 <= ny < height);
        assert(sel[cell(width, nx, ny)]);
    }
    if selected_within(sel, width, height, radius, x, y) {
        let (nx, ny) = choose|nx: int, ny: int|
            0 <= nx < width && 0 <= ny < height && nx - x <= radius && x - nx <= radius && ny - y
                <= radius && y - ny <= radius && #[trigger] sel[cell(width, nx, ny)];
        assert(in_window(width, height, radius, x, y, nx, ny));
        assert(sel[cell(width, nx, ny)]);
    }
}

/// Outline pixels are never selected ones.
pub proof fn lemma_outline_avoids_selection(
    sel: Seq<bool>,
    width: int,
    height: int,
    radius: int,
    x: int,
    y: int,
)
    requires
        sel[cell(width, x, y)],
    ensures
        outline_pixel(sel, width, height, radius, x, y) == 0,
{
}

/// With radius 0 the outline is empty: the only pixel in the window of a
/// pixel is the pixel itself.
pub proof fn lemma_outline_radius_zero(sel: Seq<bool>, width: int, height: int, x: int, y: int)
    requires
        0 <= x < width,
        0 <= y < height,
    ensures
        outline_pixel(sel, width, height, 0, x, y) == 0,
{
    if !sel[cell(width, x, y)] {
        assert forall|nx: int, ny: int| in_window(width, height, 0, x, y, nx, ny) implies !#[trigger] sel[cell(
            width,
            nx,
            ny,
        )] by {
            assert(nx == x && ny == y);
        }
    }
}

} // verus!
