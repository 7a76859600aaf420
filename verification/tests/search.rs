use wordcloud::Canvas;
use wordcloud::GlyphBlock;
use wordcloud::GlyphPixel;
use wordcloud::Rgba;

#[test]
fn scan_on_blank_canvas_lists_the_lattice() {
    let c = Canvas::new(100, 100);
    let pts = c.find_blank_with_skip(10, 10, 1, 0, 30);
    assert_eq!(
        pts,
        vec![
            (0, 0),
            (0, 30),
            (0, 60),
            (30, 0),
            (30, 30),
            (30, 60),
            (60, 0),
            (60, 30),
            (60, 60),
        ]
    );
    let offset = c.find_blank_with_skip(10, 10, 1, 5, 30);
    assert_eq!(offset, vec![(5, 5), (5, 35), (5, 65), (35, 5), (35, 35), (35, 65), (65, 5), (65, 35), (65, 65)]);
}

#[test]
fn scan_skips_anchors_whose_rectangle_is_painted() {
    let mut c = Canvas::new(100, 100);
    c.put_pixel(5, 5, Rgba { r: 9, g: 9, b: 9, a: 255 });
    let pts = c.find_blank_with_skip(10, 10, 1, 0, 30);
    assert!(!pts.contains(&(0, 0)));
    assert_eq!(pts.len(), 8);
}

#[test]
fn sparse_sampling_can_miss_a_painted_cell() {
    let mut c = Canvas::new(40, 40);
    c.put_pixel(1, 1, Rgba { r: 1, g: 1, b: 1, a: 255 });
    assert!(c.rect_is_blank(0, 0, 3, 3, 2));
    assert!(!c.rect_is_blank(0, 0, 3, 3, 1));
}

#[test]
fn occupancy_test_is_alpha_or_all_three_channels() {
    let mut c = Canvas::new(4, 4);
    c.put_pixel(0, 0, Rgba { r: 0, g: 0, b: 0, a: 1 });
    c.put_pixel(1, 0, Rgba { r: 3, g: 4, b: 5, a: 0 });
    c.put_pixel(2, 0, Rgba { r: 255, g: 0, b: 0, a: 0 });
    assert!(c.is_occupied(0, 0));
    assert!(c.is_occupied(1, 0));
    assert!(!c.is_occupied(2, 0));
    assert!(!c.is_occupied(3, 0));
}

#[test]
fn dense_search_returns_a_truly_blank_rectangle() {
    let mut c = Canvas::new(120, 120);
    c.put_pixel(31, 31, Rgba { r: 1, g: 1, b: 1, a: 255 });
    c.put_pixel(62, 5, Rgba { r: 1, g: 1, b: 1, a: 255 });
    let p = c.find_blank(20, 20, 1);
    assert!(p != (-1, -1));
    let (px, py) = (p.0 as u32, p.1 as u32);
    for x in px..px + 20 {
        for y in py..py + 20 {
            assert!(!c.is_occupied(x, y));
        }
    }
}

#[test]
fn search_with_injected_choice_is_deterministic() {
    let mut a = Canvas::new(100, 80);
    let mut b = Canvas::new(100, 80);
    a.put_pixel(10, 10, Rgba { r: 1, g: 1, b: 1, a: 200 });
    b.put_pixel(10, 10, Rgba { r: 1, g: 1, b: 1, a: 200 });
    b.default_color = (1, 2, 3);
    for choice in 0..25 {
        assert_eq!(
            a.find_blank_with_choice(12, 9, 1, choice),
            b.find_blank_with_choice(12, 9, 1, choice)
        );
    }
}

#[test]
fn draw_with_injected_choice_yields_identical_grids() {
    let mut a = Canvas::new(90, 90);
    let mut b = Canvas::new(90, 90);
    b.default_color = (200, 200, 200);
    let mut pixels: Vec<GlyphPixel> = Vec::new();
    for dx in 0..11 {
        for dy in 0..7 {
            pixels.push(GlyphPixel { dx, dy, alpha: (dx * 20) as u8 });
        }
    }
    let block = GlyphBlock::new(11, 7, pixels).unwrap();
    let pa = a.draw_text_with_choice(&block, (90, 10, 30), 10, 4);
    let pb = b.draw_text_with_choice(&block, (90, 10, 30), 10, 4);
    assert_eq!(pa, pb);
    assert!(pa.is_some());
    for x in 0..90 {
        for y in 0..90 {
            let qa = a.get_pixel(x, y);
            let qb = b.get_pixel(x, y);
            assert_eq!((qa.r, qa.g, qa.b, qa.a), (qb.r, qb.g, qb.b, qb.a));
        }
    }
}

#[test]
fn random_pick_comes_from_the_scanned_lattice() {
    let c = Canvas::new(100, 100);
    for _ in 0..20 {
        let p = c.find_blank(10, 10, 1);
        assert!(p != (-1, -1));
        let (px, py) = (p.0 as u32, p.1 as u32);
        assert!(px + 10 < 100 && py + 10 < 100);
        assert!(c.rect_is_blank(px, py, 10, 10, 1));
        assert_eq!(px % 30, py % 30);
    }
}

#[test]
fn candidate_list_is_the_first_offsets_scan() {
    let c = Canvas::new(100, 100);
    let direct = c.find_blank_with_skip(10, 10, 1, 0, 30);
    let listed = c.find_blank_candidates(10, 10, 1);
    assert_eq!(listed, direct);
    let mut full = Canvas::new(35, 35);
    for x in 0..35 {
        for y in 0..35 {
            full.put_pixel(x, y, Rgba { r: 1, g: 1, b: 1, a: 255 });
        }
    }
    assert!(full.find_blank_candidates(5, 5, 1).is_empty());
}
