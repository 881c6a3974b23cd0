//! Procedural 64x64 RGBA material textures (brick, diamond plate, wood
//! planks, cobblestone, grass, concrete).

use vstd::prelude::*;

verus! {

/// A decoded image: `width * height` pixels, four RGBA bytes each, row by row.
pub struct DecodedImage {
    pub width: usize,
    pub height: usize,
    pub rgba: Vec<u8>,
}

/// Side length of every procedural texture.
pub const TEXTURE_SIZE: usize = 64;

/// The procedural materials.
#[derive(PartialEq, Eq, Debug, Clone, Copy)]
pub enum Material {
    Brick,
    DiamondPlate,
    WoodPlanks,
    Cobblestone,
    Grass,
    Concrete,
}

pub open spec fn clamp(v: int, lo: int, hi: int) -> int {
    if v < lo {
        lo
    } else if v > hi {
        hi
    } else {
        v
    }
}

pub open spec fn sat_sub(a: int, b: int) -> int {
    if a > b {
        a - b
    } else {
        0
    }
}

pub open spec fn abs(v: int) -> int {
    if v < 0 {
        -v
    } else {
        v
    }
}

/// The largest `r` with `r * r <= n`.
pub open spec fn is_isqrt(n: int, r: int) -> bool {
    r >= 0 && r * r <= n && (r + 1) * (r + 1) > n
}

/// Brick: 16-pixel courses offset by half a brick, 2-pixel mortar joints,
/// and a deterministic grain in the brick faces.
pub open spec fn brick_texel(x: int, y: int) -> (int, int, int) {
    let row = y / 16;
    let offset_x = if row % 2 == 1 {
        x + 16
    } else {
        x
    };
    if offset_x % 32 < 2 || y % 16 < 2 {
        (140, 135, 130)
    } else {
        let grain = (((x * 17 + y * 31) % 23) - 11) * 2;
        let base = 210 + grain;
        (clamp(base, 170, 240), clamp(base - 10, 160, 230), clamp(base - 20, 150, 220))
    }
}

/// Diamond plate: two crossed diamonds per 32-pixel tile, lit from the
/// top left.
pub open spec fn diamond_plate_texel(x: int, y: int) -> (int, int, int) {
    let lx = (x % 32) - 16;
    let ly = (y % 32) - 16;
    let d1 = abs(abs(lx) * 2 + abs(ly));
    let d2 = abs(abs(lx) + abs(ly) * 2);
    if d1 < 14 || d2 < 14 {
        let shine = if lx + ly < 0 {
            245
        } else {
            160
        };
        (shine, shine, shine)
    } else {
        (190, 190, 195)
    }
}

/// Wood planks: 16-pixel planks with 2-pixel dark seams and grain.
pub open spec fn wood_planks_texel(x: int, y: int) -> (int, int, int) {
    if x % 16 < 2 {
        (90, 60, 40)
    } else {
        let grain = (((y * 13 + x * 3) % 19) - 9) * 3;
        let val = clamp(190 + grain, 140, 230);
        (val, if val - 25 > 0 {
            val - 25
        } else {
            0
        }, if val - 55 > 0 {
            val - 55
        } else {
            0
        })
    }
}

/// Squared distance from a pixel to the centre of its 16-pixel cell.
pub open spec fn cobble_dist2(x: int, y: int) -> int {
    let dx = x % 16 - 8;
    let dy = y % 16 - 8;
    dx * dx + dy * dy
}

/// Cobblestone: a round stone of radius 6.5 in each 16-pixel cell, darker
/// by eight shades per pixel of distance from its centre, on dark mortar.
pub open spec fn cobblestone_texel_ok(x: int, y: int, c: (int, int, int)) -> bool {
    let d = cobble_dist2(x, y);
    if d <= 42 {
        exists|r: int|
            is_isqrt(64 * d, r) && c == (sat_sub(210, r), sat_sub(sat_sub(210, r), 5), sat_sub(
                sat_sub(210, r),
                10,
            ))
    } else {
        c == (110int, 105int, 100int)
    }
}

/// Grass: green noise, with red and blue fractions of the green.
pub open spec fn grass_texel(x: int, y: int) -> (int, int, int) {
    let n = (((x * 29 + y * 47) % 31) - 15) * 3;
    let g = clamp(180 + n, 130, 230);
    (sat_sub(g / 2, 10), g, sat_sub(g / 3, 15))
}

/// Concrete: grey noise.
pub open spec fn concrete_texel(x: int, y: int) -> (int, int, int) {
    let n = (((x * 37 + y * 73) % 29) - 14) * 2;
    let v = clamp(185 + n, 150, 220);
    (v, v, v)
}

/// The colour of pixel `(x, y)` of `m` is `c`.
pub open spec fn texel_ok(m: Material, x: int, y: int, c: (int, int, int)) -> bool {
    match m {
        Material::Brick => c == brick_texel(x, y),
        Material::DiamondPlate => c == diamond_plate_texel(x, y),
        Material::WoodPlanks => c == wood_planks_texel(x, y),
        Material::Cobblestone => cobblestone_texel_ok(x, y, c),
        Material::Grass => c == grass_texel(x, y),
        Material::Concrete => c == concrete_texel(x, y),
    }
}

/// Pixel `(x, y)` of the row-major RGBA bytes `px` has the colour of `m`
/// there and is opaque.
pub open spec fn pixel_ok(m: Material, px: Seq<u8>, x: int, y: int) -> bool {
    let i = (y * 64 + x) * 4;
    &&& texel_ok(m, x, y, (px[i] as int, px[i + 1] as int, px[i + 2] as int))
    &&& px[i + 3] == 255
}

/// `img` is the 64x64 texture of `m`: every pixel has the colour its
/// formula gives and is opaque.
pub open spec fn is_texture(m: Material, img: DecodedImage) -> bool {
    &&& img.width == TEXTURE_SIZE
    &&& img.height == TEXTURE_SIZE
    &&& img.rgba@.len() == 64 * 64 * 4
    &&& forall|x: int, y: int| 0 <= x < 64 && 0 <= y < 64 ==> #[trigger] pixel_ok(m, img.rgba@, x, y)
}

fn clamp_i32(v: i32, lo: i32, hi: i32) -> (r: i32)
    requires
        lo <= hi,
    ensures
        r == clamp(v as int, lo as int, hi as int),
{
    if v < lo {
        lo
    } else if v > hi {
        hi
    } else {
        v
    }
}

fn sat_sub_u8(a: u8, b: u8) -> (r: u8)
    ensures
        r == sat_sub(a as int, b as int),
{
    if a > b {
        a - b
    } else {
        0
    }
}

fn abs_i32(v: i32) -> (r: i32)
    requires
        v > i32::MIN,
    ensures
        r == abs(v as int),
{
    if v < 0 {
        -v
    } else {
        v
    }
}

/// Integer square root of a small number.
fn isqrt_u32(n: u32) -> (r: u32)
    requires
        n <= 4096,
    ensures
        is_isqrt(n as int, r as int),
        r <= 64,
{
    let mut r: u32 = 0;
    loop
        invariant
            r * r <= n,
            n <= 4096,
            r <= 64,
        decreases 64 - r,
    {
        if r == 64 {
            assert(is_isqrt(n as int, 64)) by (nonlinear_arith)
                requires
                    n <= 4096,
                    64 * 64 <= n,
            ;
            return r;
        }
        let r1 = r + 1;
        assert(r1 * r1 <= 4225) by (nonlinear_arith)
            requires
                r1 <= 65,
        ;
        if r1 * r1 > n {
            return r;
        }
        r = r1;
    }
}

/// The colour of pixel `(x, y)` of material `m`.
fn texel(m: Material, x: usize, y: usize) -> (c: (u8, u8, u8))
    requires
        x < 64,
        y < 64,
    ensures
        texel_ok(m, x as int, y as int, (c.0 as int, c.1 as int, c.2 as int)),
{
    match m {
        Material::Brick => {
            let row = y / 16;
            let offset_x = if row % 2 == 1 {
                x + 16
            } else {
                x
            };
            if offset_x % 32 < 2 || y % 16 < 2 {
                (140, 135, 130)
            } else {
                let grain: i32 = (((x * 17 + y * 31) % 23) as i32 - 11) * 2;
                let base: i32 = 210 + grain;
                (
                    clamp_i32(base, 170, 240) as u8,
                    clamp_i32(base - 10, 160, 230) as u8,
                    clamp_i32(base - 20, 150, 220) as u8,
                )
            }
        },
        Material::DiamondPlate => {
            let lx: i32 = (x % 32) as i32 - 16;
            let ly: i32 = (y % 32) as i32 - 16;
            let d1 = abs_i32(abs_i32(lx) * 2 + abs_i32(ly));
            let d2 = abs_i32(abs_i32(lx) + abs_i32(ly) * 2);
            if d1 < 14 || d2 < 14 {
                let shine: u8 = if lx + ly < 0 {
                    245
                } else {
                    160
                };
                (shine, shine, shine)
            } else {
                (190, 190, 195)
            }
        },
        Material::WoodPlanks => {
            if x % 16 < 2 {
                (90, 60, 40)
            } else {
                let grain: i32 = (((y * 13 + x * 3) % 19) as i32 - 9) * 3;
                let val = clamp_i32(190 + grain, 140, 230);
                let g: i32 = if val - 25 > 0 {
                    val - 25
                } else {
                    0
                };
                let b: i32 = if val - 55 > 0 {
                    val - 55
                } else {
                    0
                };
                (val as u8, g as u8, b as u8)
            }
        },
        Material::Cobblestone => {
            let dx: i32 = (x % 16) as i32 - 8;
            let dy: i32 = (y % 16) as i32 - 8;
            assert(0 <= dx * dx <= 64 && 0 <= dy * dy <= 64) by (nonlinear_arith)
                requires
                    -8 <= dx <= 7,
                    -8 <= dy <= 7,
            ;
            let d: i32 = dx * dx + dy * dy;
            assert(d == cobble_dist2(x as int, y as int));
            if d <= 42 {
                let r = isqrt_u32((64 * d) as u32);
                let rr: u8 = r as u8;
                let shade = sat_sub_u8(210, rr);
                let c = (shade, sat_sub_u8(shade, 5), sat_sub_u8(shade, 10));
                assert(is_isqrt(64 * cobble_dist2(x as int, y as int), r as int));
                c
            } else {
                (110, 105, 100)
            }
        },
        Material::Grass => {
            let n: i32 = (((x * 29 + y * 47) % 31) as i32 - 15) * 3;
            let g: u8 = clamp_i32(180 + n, 130, 230) as u8;
            (sat_sub_u8(g / 2, 10), g, sat_sub_u8(g / 3, 15))
        },
        Material::Concrete => {
            let n: i32 = (((x * 37 + y * 73) % 29) as i32 - 14) * 2;
            let v: u8 = clamp_i32(185 + n, 150, 220) as u8;
            (v, v, v)
        },
    }
}

/// Builds the 64x64 texture of `m`, row by row.
pub fn generate_texture(m: Material) -> (img: DecodedImage)
    ensures
        is_texture(m, img),
{
    let mut rgba: Vec<u8> = Vec::with_capacity(64 * 64 * 4);
    let mut y: usize = 0;
    while y < 64
        invariant
            y <= 64,
            rgba@.len() == y * 256,
            forall|xx: int, yy: int|
                0 <= xx < 64 && 0 <= yy < y ==> #[trigger] pixel_ok(m, rgba@, xx, yy),
        decreases 64 - y,
    {
        let mut x: usize = 0;
        while x < 64
            invariant
                x <= 64,
                y < 64,
                rgba@.len() == y * 256 + x * 4,
                forall|xx: int, yy: int|
                    0 <= xx < 64 && 0 <= yy <= y && (yy < y || xx < x) ==> #[trigger] pixel_ok(
                        m,
                        rgba@,
                        xx,
                        yy,
                    ),
            decreases 64 - x,
        {
            let ghost before = rgba@;
            let (r, g, b) = texel(m, x, y);
            rgba.push(r);
            rgba.push(g);
            rgba.push(b);
            rgba.push(255u8);
            assert forall|xx: int, yy: int|
                0 <= xx < 64 && 0 <= yy <= y && (yy < y || xx < x + 1) implies #[trigger] pixel_ok(
                m,
                rgba@,
                xx,
                yy,
            ) by {
                let i = (yy * 64 + xx) * 4;
                if yy < y || xx < x {
                    assert(i + 3 < before.len()) by (nonlinear_arith)
                        requires
                            0 <= xx < 64,
                            0 <= yy <= y,
                            yy < y || xx < x,
                            before.len() == y * 256 + x * 4,
                            i == (yy * 64 + xx) * 4,
                    ;
                    assert(pixel_ok(m, before, xx, yy));
                    assert(rgba@[i] == before[i] && rgba@[i + 1] == before[i + 1] && rgba@[i + 2]
                        == before[i + 2] && rgba@[i + 3] == before[i + 3]);
                } else {
                    assert(i == before.len());
                }
            }
            x = x + 1;
        }
        y = y + 1;
    }
    DecodedImage { width: 64, height: 64, rgba }
}

/// The brick material texture.
pub fn generate_brick_texture() -> (img: DecodedImage)
    ensures
        is_texture(Material::Brick, img),
{
    generate_texture(Material::Brick)
}

/// The diamond-plate material texture.
pub fn generate_diamond_plate_texture() -> (img: DecodedImage)
    ensures
        is_texture(Material::DiamondPlate, img),
{
    generate_texture(Material::DiamondPlate)
}

/// The wood-planks material texture.
pub fn generate_wood_planks_texture() -> (img: DecodedImage)
    ensures
        is_texture(Material::WoodPlanks, img),
{
    generate_texture(Material::WoodPlanks)
}

/// The cobblestone material texture.
pub fn generate_cobblestone_texture() -> (img: DecodedImage)
    ensures
        is_texture(Material::Cobblestone, img),
{
    generate_texture(Material::Cobblestone)
}

/// The grass material texture.
pub fn generate_grass_texture() -> (img: DecodedImage)
    ensures
        is_texture(Material::Grass, img),
{
    generate_texture(Material::Grass)
}

/// The concrete material texture.
pub fn generate_concrete_texture() -> (img: DecodedImage)
    ensures
        is_texture(Material::Concrete, img),
{
    generate_texture(Material::Concrete)
}

} // verus!
