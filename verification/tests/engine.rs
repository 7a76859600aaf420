use wordcloud::Canvas;
use wordcloud::GlyphBlock;
use wordcloud::GlyphPixel;
use wordcloud::Rgba;

/// A block of the given size whose every cell is fully opaque.
fn full_block(width: u32, height: u32) -> GlyphBlock {
    let mut pixels: Vec<GlyphPixel> = Vec::new();
    for dx in 0..width {
        for dy in 0..height {
            pixels.push(GlyphPixel { dx, dy, alpha: 255 });
        }
    }
    GlyphBlock::new(width, height, pixels).unwrap()
}

/// A sparse block shaped like two bars, loosely a pair of glyphs.
fn two_bar_block(width: u32, height: u32) -> GlyphBlock {
    let mut pixels: Vec<GlyphPixel> = Vec::new();
    let bar = width / 3;
    for dx in 0..width {
        for dy in 0..height {
            if dx < bar || (dx >= 2 * bar && dx < width) {
                pixels.push(GlyphPixel { dx, dy, alpha: 255 });
            }
        }
    }
    GlyphBlock::new(width, height, pixels).unwrap()
}

#[test]
fn new_canvas_is_transparent_with_default_color() {
    let c = Canvas::new(17, 9);
    assert_eq!(c.default_color, (160, 0, 0));
    for x in 0..17 {
        for y in 0..9 {
            let p = c.get_pixel(x, y);
            assert_eq!((p.r, p.g, p.b, p.a), (0, 0, 0, 0));
            assert!(!c.is_occupied(x, y));
        }
    }
    assert_eq!(c.count_occupied(), 0);
}

#[test]
fn draw_on_blank_canvas_paints_inside_bounds() {
    let mut c = Canvas::new(640, 480);
    let block = two_bar_block(45, 40);
    let placed = c.draw_text(&block);
    let (px, py) = placed.expect("a 640x480 blank canvas must fit a 45x40 block");
    assert!(px + 45 < 640);
    assert!(py + 40 < 480);
    let mut painted = 0u64;
    for x in 0..640 {
        for y in 0..480 {
            let p = c.get_pixel(x, y);
            if p.a > 0 {
                painted += 1;
                assert!(x >= px && x < px + 45);
                assert!(y >= py && y < py + 40);
                assert_eq!((p.r, p.g, p.b), (160, 0, 0));
            }
        }
    }
    assert!(painted > 0);
}

#[test]
fn draw_on_too_small_canvas_is_a_no_op() {
    let mut c = Canvas::new(10, 10);
    let block = full_block(50, 50);
    let placed = c.draw_text(&block);
    assert!(placed.is_none());
    for x in 0..10 {
        for y in 0..10 {
            let p = c.get_pixel(x, y);
            assert_eq!((p.r, p.g, p.b, p.a), (0, 0, 0, 0));
        }
    }
    assert_eq!(c.count_occupied(), 0);
}

#[test]
fn draw_block_of_exact_canvas_size_finds_no_anchor() {
    let mut c = Canvas::new(50, 50);
    let block = full_block(50, 50);
    assert!(c.draw_text(&block).is_none());
    assert_eq!(c.count_occupied(), 0);
}

#[test]
fn two_dense_draws_do_not_overlap() {
    let mut c = Canvas::new(300, 300);
    let block = full_block(40, 40);
    let first = c
        .draw_text_with_quality(&block, (10, 20, 30), 1)
        .expect("first block must fit");
    assert_eq!(c.count_occupied(), 40 * 40);
    let second = c
        .draw_text_with_quality(&block, (40, 50, 60), 1)
        .expect("second block must fit");
    assert_eq!(c.count_occupied(), 2 * 40 * 40);
    let x_apart = first.0 + 40 <= second.0 || second.0 + 40 <= first.0;
    let y_apart = first.1 + 40 <= second.1 || second.1 + 40 <= first.1;
    assert!(x_apart || y_apart, "the two placed rectangles must be disjoint");
}

#[test]
fn occupancy_never_decreases_over_dense_draws() {
    let mut c = Canvas::new(200, 200);
    let mut mixed: Vec<GlyphPixel> = Vec::new();
    for dx in 0..30 {
        for dy in 0..20 {
            let alpha = if (dx + dy) % 3 == 0 { 0 } else { 200 };
            mixed.push(GlyphPixel { dx, dy, alpha });
        }
    }
    let block = GlyphBlock::new(30, 20, mixed).unwrap();
    let mut last = c.count_occupied();
    for _ in 0..6 {
        let _ = c.draw_text_with_quality(&block, (160, 0, 0), 1);
        let now = c.count_occupied();
        assert!(now >= last);
        last = now;
    }
}

#[test]
fn exhausted_canvas_rejects_every_draw() {
    let mut c = Canvas::new(60, 60);
    for x in 0..60 {
        for y in 0..60 {
            c.put_pixel(x, y, Rgba { r: 1, g: 2, b: 3, a: 255 });
        }
    }
    assert_eq!(c.count_occupied(), 3600);
    assert_eq!(c.find_blank(3, 3, 1), (-1, -1));
    assert_eq!(c.find_blank(1, 1, 10), (-1, -1));
    let block = full_block(2, 2);
    assert!(c.draw_text(&block).is_none());
    assert_eq!(c.count_occupied(), 3600);
    for x in 0..60 {
        for y in 0..60 {
            let p = c.get_pixel(x, y);
            assert_eq!((p.r, p.g, p.b, p.a), (1, 2, 3, 255));
        }
    }
}

#[test]
fn later_glyph_cell_overwrites_earlier_one() {
    let mut c = Canvas::new(20, 20);
    let pixels = vec![
        GlyphPixel { dx: 0, dy: 0, alpha: 200 },
        GlyphPixel { dx: 1, dy: 0, alpha: 150 },
        GlyphPixel { dx: 0, dy: 0, alpha: 0 },
    ];
    let block = GlyphBlock::new(2, 1, pixels).unwrap();
    c.draw_block_at(&block, (5, 6, 7), 2, 3);
    let p00 = c.get_pixel(2, 3);
    assert_eq!((p00.r, p00.g, p00.b, p00.a), (5, 6, 7, 0));
    let p10 = c.get_pixel(3, 3);
    assert_eq!((p10.r, p10.g, p10.b, p10.a), (5, 6, 7, 150));
    let elsewhere = c.get_pixel(4, 3);
    assert_eq!(elsewhere.a, 0);
}

#[test]
fn glyph_block_rejects_cells_outside_bounds() {
    let good = vec![GlyphPixel { dx: 1, dy: 1, alpha: 9 }];
    assert!(GlyphBlock::new(2, 2, good).is_some());
    let wide = vec![GlyphPixel { dx: 2, dy: 0, alpha: 9 }];
    assert!(GlyphBlock::new(2, 2, wide).is_none());
    let tall = vec![GlyphPixel { dx: 0, dy: 2, alpha: 9 }];
    assert!(GlyphBlock::new(2, 2, tall).is_none());
}

#[test]
fn default_color_is_used_and_can_be_changed() {
    let mut c = Canvas::new(120, 120);
    c.default_color = (7, 8, 9);
    let block = full_block(10, 10);
    let (px, py) = c.draw_text(&block).expect("block must fit");
    let p = c.get_pixel(px, py);
    assert_eq!((p.r, p.g, p.b, p.a), (7, 8, 9, 255));
}
