use null_or_die::raster::{draw_hline, draw_line, draw_vline, put_px, set_pixel};

const INK: [u8; 4] = [1, 2, 3, 4];

fn blank(width: u32, height: u32) -> Vec<u8> {
    vec![0; (width * height * 4) as usize]
}

fn inked(image: &[u8], width: u32) -> Vec<(u32, u32)> {
    image
        .chunks(4)
        .enumerate()
        .filter(|(_, p)| *p == INK)
        .map(|(i, _)| (i as u32 % width, i as u32 / width))
        .collect()
}

/// The textbook form of the line.
fn expected_line(x0: i32, y0: i32, x1: i32, y1: i32) -> Vec<(i32, i32)> {
    let (mut x, mut y) = (x0, y0);
    let dx = (x1 - x0).abs();
    let sx = if x0 < x1 { 1 } else { -1 };
    let dy = -(y1 - y0).abs();
    let sy = if y0 < y1 { 1 } else { -1 };
    let mut err = dx + dy;
    let mut out = Vec::new();
    loop {
        out.push((x, y));
        if x == x1 && y == y1 {
            return out;
        }
        let e2 = err * 2;
        if e2 >= dy {
            err += dy;
            x += sx;
        }
        if e2 <= dx {
            err += dx;
            y += sy;
        }
    }
}

#[test]
fn single_pixels() {
    let mut image = blank(4, 3);
    set_pixel(&mut image, 4, 3, 3, 2, INK);
    put_px(&mut image, 4, 3, 0, 1, INK);
    for (x, y) in [(-1, 0), (0, -1), (4, 0), (0, 3), (i32::MIN, 0), (0, i32::MAX)] {
        put_px(&mut image, 4, 3, x, y, INK);
    }
    assert_eq!(inked(&image, 4), vec![(0, 1), (3, 2)]);
}

#[test]
fn straight_lines() {
    let mut image = blank(4, 3);
    draw_vline(&mut image, 4, 3, 2, INK);
    assert_eq!(inked(&image, 4), vec![(2, 0), (2, 1), (2, 2)]);
    let mut image = blank(4, 3);
    draw_hline(&mut image, 4, 3, 1, INK);
    draw_hline(&mut image, 4, 3, 3, INK);
    assert_eq!(inked(&image, 4), vec![(0, 1), (1, 1), (2, 1), (3, 1)]);
}

#[test]
fn slanted_lines() {
    for (x0, y0, x1, y1) in [
        (0, 0, 9, 4),
        (9, 4, 0, 0),
        (3, 9, 4, 0),
        (0, 9, 9, 0),
        (5, 5, 5, 5),
        (-3, 2, 12, 7),
        (2, 2, 2, 8),
    ] {
        let mut image = blank(10, 10);
        draw_line(&mut image, 10, 10, x0, y0, x1, y1, INK);
        let mut expected: Vec<(u32, u32)> = expected_line(x0, y0, x1, y1)
            .into_iter()
            .filter(|(x, y)| (0..10).contains(x) && (0..10).contains(y))
            .map(|(x, y)| (x as u32, y as u32))
            .collect();
        expected.sort_by_key(|(x, y)| (*y, *x));
        assert_eq!(inked(&image, 10), expected, "{x0} {y0} {x1} {y1}");
    }
}
