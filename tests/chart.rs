use gitfetch::bignat::{less_than, mul_small, power_of};
use gitfetch::chart::{cells_of, max_count, resolve_palette, sparkline_log, Cell};
use gitfetch::scale::{color_index_of, height_index_of};
use gitfetch::text::{push_decimal, push_styled};

fn heights(cells: &[Cell]) -> Vec<u8> {
    cells.iter().map(|c| c.height).collect()
}

fn levels(cells: &[Cell]) -> Vec<u8> {
    cells.iter().map(|c| c.level).collect()
}

#[test]
fn example_series_buckets() {
    let cells = cells_of(&[0, 0, 5, 10, 0]);
    assert_eq!(cells.len(), 5);
    assert_eq!(heights(&cells), vec![0, 0, 5, 7, 0]);
    assert_eq!(levels(&cells), vec![0, 0, 3, 4, 0]);
    // ln(6)/ln(11) is about 0.747: 7 * 0.747 rounds to 5 and 4 * 0.747 to 3.
    let frac = (6.0f64).ln() / (11.0f64).ln();
    assert_eq!((frac * 7.0).round() as u8, cells[2].height);
    assert_eq!((frac * 4.0).round() as u8, cells[2].level);
}

#[test]
fn glyph_count_matches_series_length() {
    let data = [3u32, 0, 17, 250, 1, 1, 9];
    assert_eq!(cells_of(&data).len(), data.len());
    let text = sparkline_log(&data, None);
    assert_eq!(text.matches("\x1b[0m").count(), data.len());
}

#[test]
fn all_zero_series_is_lowest() {
    for n in [0usize, 1, 7, 40] {
        let data = vec![0u32; n];
        let cells = cells_of(&data);
        assert_eq!(cells.len(), n);
        assert!(cells.iter().all(|c| c.height == 0 && c.level == 0));
    }
}

#[test]
fn empty_series_renders_empty() {
    assert_eq!(sparkline_log(&[], None), "");
    assert_eq!(max_count(&[]), 0);
}

#[test]
fn uniform_series_is_identical() {
    let cells = cells_of(&[3, 3, 3, 3]);
    assert!(cells.iter().all(|c| *c == cells[0]));
    assert_eq!(cells[0], Cell { height: 7, level: 4 });
}

#[test]
fn larger_count_never_lower() {
    let data = [0u32, 1, 2, 3, 5, 8, 13, 21, 34, 55, 89, 144, 1000, 4000];
    let cells = cells_of(&data);
    for i in 0..data.len() {
        for j in 0..data.len() {
            if data[i] < data[j] {
                assert!(cells[i].height <= cells[j].height);
                assert!(cells[i].level <= cells[j].level);
            }
        }
    }
}

#[test]
fn zero_maximum_is_guarded() {
    assert_eq!(height_index_of(0, 0), 0);
    assert_eq!(color_index_of(0, 0), 0);
    assert_eq!(height_index_of(9, 0), 0);
}

#[test]
fn extreme_counts() {
    assert_eq!(height_index_of(u32::MAX, u32::MAX), 7);
    assert_eq!(color_index_of(u32::MAX, u32::MAX), 4);
    assert_eq!(height_index_of(u32::MAX - 1, u32::MAX), 7);
    assert_eq!(height_index_of(0, u32::MAX), 0);
    assert_eq!(height_index_of(1, u32::MAX), 0);
    // ln(2^16)/ln(2^32) is exactly one half: 3.5 rounds away from zero to 4.
    assert_eq!(height_index_of(65535, u32::MAX), 4);
    assert_eq!(color_index_of(65535, u32::MAX), 2);
}

#[test]
fn half_way_rounds_up() {
    // ln(4)/ln(16) is exactly 1/2: 7/2 rounds to 4, 4/2 is 2.
    assert_eq!(height_index_of(3, 15), 4);
    assert_eq!(color_index_of(3, 15), 2);
    // ln(2)/ln(16) is exactly 1/4: 7/4 rounds to 2, 4/4 is 1.
    assert_eq!(height_index_of(1, 15), 2);
    assert_eq!(color_index_of(1, 15), 1);
}

#[test]
fn chart_text_is_exact() {
    let text = sparkline_log(&[0, 1], None);
    assert_eq!(
        text,
        "\x1b[38;2;33;110;57m\u{2581}\x1b[0m\x1b[38;2;235;237;240m\u{2588}\x1b[0m"
    );
}

#[test]
fn custom_palette_is_used() {
    let custom = vec![(1, 2, 3), (4, 5, 6), (7, 8, 9), (10, 11, 12), (13, 14, 15)];
    let text = sparkline_log(&[0, 1], Some(custom.clone()));
    assert_eq!(text, "\x1b[38;2;1;2;3m\u{2581}\x1b[0m\x1b[38;2;13;14;15m\u{2588}\x1b[0m");
    assert_eq!(resolve_palette(Some(custom.clone())), custom);
}

#[test]
fn short_palette_falls_back() {
    let short = vec![(1, 2, 3), (4, 5, 6), (7, 8, 9), (10, 11, 12)];
    assert_eq!(sparkline_log(&[0, 1], Some(short)), sparkline_log(&[0, 1], None));
    assert_eq!(resolve_palette(None)[4], (235, 237, 240));
}

#[test]
fn big_numbers_compare() {
    let a = power_of(2, 40);
    let b = power_of(4, 20);
    assert!(!less_than(&a, &b));
    assert!(!less_than(&b, &a));
    let c = mul_small(&a, 3);
    assert!(less_than(&a, &c));
    assert!(!less_than(&c, &a));
    assert_eq!(power_of(10, 2), vec![100, 0, 0]);
    assert!(less_than(&power_of(11, 13), &power_of(12, 13)));
    assert!(less_than(&power_of(0x1_0000_0000, 3), &power_of(0x1_0000_0000, 4)));
}

#[test]
fn decimals_and_styles() {
    let mut s = String::new();
    push_decimal(&mut s, 0);
    s.push(' ');
    push_decimal(&mut s, 1234567890123456789);
    assert_eq!(s, "0 1234567890123456789");
    let mut t = String::from("x");
    push_styled(&mut t, (255, 0, 7), "ab");
    assert_eq!(t, "x\x1b[38;2;255;0;7mab\x1b[0m");
}
