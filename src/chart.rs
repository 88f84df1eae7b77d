//! The activity chart: one colored block glyph per day.
use vstd::prelude::*;
use crate::scale::{
    color_index, color_index_of, height_index, height_index_of, lemma_bucket_monotone, lemma_largest_is_top, COLOR_STEPS, HEIGHT_STEPS,
};
use crate::text::{Rgb, styled, push_styled};

verus! {

/// Number of entries a color palette must have to be used.
pub const PALETTE_LEN: usize = 5;

/// The built-in color levels, lowest activity first.
pub open spec fn default_palette() -> Seq<Rgb> {
    seq![(33u8, 110u8, 57u8), (48u8, 161u8, 78u8), (64u8, 196u8, 99u8), (155u8, 233u8, 168u8), (235u8, 237u8, 240u8)]
}

/// The palette in force: the configured one if it has at least five entries,
/// else the built-in one.
pub open spec fn active_palette(levels: Option<Seq<Rgb>>) -> Seq<Rgb> {
    if levels.is_some() && levels.unwrap().len() >= PALETTE_LEN {
        levels.unwrap()
    } else {
        default_palette()
    }
}

/// The block glyph of height `h`, from the emptiest (0) to the fullest (7).
pub open spec fn block(h: nat) -> Seq<char> {
    if h == 0 {
        "\u{2581}"@
    } else if h == 1 {
        "\u{2582}"@
    } else if h == 2 {
        "\u{2583}"@
    } else if h == 3 {
        "\u{2584}"@
    } else if h == 4 {
        "\u{2585}"@
    } else if h == 5 {
        "\u{2586}"@
    } else if h == 6 {
        "\u{2587}"@
    } else {
        "\u{2588}"@
    }
}

/// The largest count of the series, 0 for an empty series.
pub open spec fn series_max(s: Seq<u32>) -> int
    decreases s.len(),
{
    if s.len() == 0 {
        0
    } else if series_max(s.drop_last()) < s.last() {
        s.last() as int
    } else {
        series_max(s.drop_last())
    }
}

/// The (height, color level) pair of each day of the series, in order.
pub open spec fn chart_cells(s: Seq<u32>) -> Seq<(nat, nat)> {
    s.map_values(|v: u32| (height_index(v as int, series_max(s)), color_index(v as int, series_max(s))))
}

/// The styled glyphs of `cells`, concatenated with no separator.
pub open spec fn glyph_run(cells: Seq<(nat, nat)>, palette: Seq<Rgb>) -> Seq<char>
    decreases cells.len(),
{
    if cells.len() == 0 {
        Seq::empty()
    } else {
        glyph_run(cells.drop_last(), palette) + styled(palette[cells.last().1 as int], block(cells.last().0))
    }
}

/// The chart line of series `s` drawn with `palette`.
pub open spec fn chart_text(s: Seq<u32>, palette: Seq<Rgb>) -> Seq<char> {
    glyph_run(chart_cells(s), palette)
}

/// The chart has exactly one glyph per day of the series.
pub proof fn lemma_one_glyph_per_day(s: Seq<u32>)
    ensures
        chart_cells(s).len() == s.len(),
{
}

proof fn lemma_max_of_uniform(s: Seq<u32>, v: u32)
    requires
        forall|i: int| 0 <= i < s.len() ==> s[i] == v,
    ensures
        series_max(s) == if s.len() == 0 { 0 } else { v as int },
    decreases s.len(),
{
    if s.len() > 0 {
        lemma_max_of_uniform(s.drop_last(), v);
    }
}

/// A series of zeros draws every day with the lowest height and color level.
pub proof fn lemma_all_zero_lowest(s: Seq<u32>)
    requires
        forall|i: int| 0 <= i < s.len() ==> s[i] == 0,
    ensures
        forall|i: int| 0 <= i < s.len() ==> #[trigger] chart_cells(s)[i] == (0nat, 0nat),
{
    lemma_max_of_uniform(s, 0);
}

/// A series of one repeated value draws every day with the same glyph; when the
/// value is positive, that glyph has the top height and color level.
pub proof fn lemma_uniform_identical(s: Seq<u32>, v: u32)
    requires
        forall|i: int| 0 <= i < s.len() ==> s[i] == v,
    ensures
        forall|i: int, j: int|
            0 <= i < s.len() && 0 <= j < s.len() ==> #[trigger] chart_cells(s)[i] == #[trigger] chart_cells(s)[j],
        v > 0 ==> forall|i: int|
            0 <= i < s.len() ==> #[trigger] chart_cells(s)[i] == (HEIGHT_STEPS as nat, COLOR_STEPS as nat),
{
    if v > 0 {
        lemma_max_of_uniform(s, v);
        lemma_largest_is_top(v as int, HEIGHT_STEPS as nat);
        lemma_largest_is_top(v as int, COLOR_STEPS as nat);
    }
}

/// Of two days of one series, the one with the smaller count is drawn no higher
/// and in no higher color level.
pub proof fn lemma_chart_monotone(s: Seq<u32>, i: int, j: int)
    requires
        0 <= i < s.len(),
        0 <= j < s.len(),
        s[i] < s[j],
    ensures
        chart_cells(s)[i].0 <= chart_cells(s)[j].0,
        chart_cells(s)[i].1 <= chart_cells(s)[j].1,
{
    lemma_bucket_monotone(s[i] as int, s[j] as int, series_max(s), HEIGHT_STEPS as nat);
    lemma_bucket_monotone(s[i] as int, s[j] as int, series_max(s), COLOR_STEPS as nat);
}

/// Height and color level of one day of the chart.
#[derive(Clone, Copy, Debug, PartialEq, Eq, Structural)]
pub struct Cell {
    pub height: u8,
    pub level: u8,
}

fn block_str(h: u8) -> (r: &'static str)
    ensures
        r@ == block(h as nat),
{
    if h == 0 {
        "\u{2581}"
    } else if h == 1 {
        "\u{2582}"
    } else if h == 2 {
        "\u{2583}"
    } else if h == 3 {
        "\u{2584}"
    } else if h == 4 {
        "\u{2585}"
    } else if h == 5 {
        "\u{2586}"
    } else if h == 6 {
        "\u{2587}"
    } else {
        "\u{2588}"
    }
}

/// The palette in force for the configured color levels.
pub fn resolve_palette(levels: Option<Vec<Rgb>>) -> (r: Vec<Rgb>)
    ensures
        r@ == active_palette(
            match levels {
                Some(v) => Some(v@),
                None => None,
            },
        ),
        r@.len() >= PALETTE_LEN,
{
    match levels {
        Some(custom) if custom.len() >= PALETTE_LEN => custom,
        _ => {
            let v: Vec<Rgb> = vec![(33, 110, 57), (48, 161, 78), (64, 196, 99), (155, 233, 168), (235, 237, 240)];
            assert(v@ =~= default_palette());
            v
        },
    }
}

/// The largest count of `data`, 0 when it is empty.
pub fn max_count(data: &[u32]) -> (r: u32)
    ensures
        r == series_max(data@),
{
    let mut m: u32 = 0;
    let mut i: usize = 0;
    while i < data.len()
        invariant
            i <= data@.len(),
            m == series_max(data@.take(i as int)),
        decreases data@.len() - i,
    {
        assert(data@.take(i + 1).drop_last() =~= data@.take(i as int));
        if m < data[i] {
            m = data[i];
        }
        i = i + 1;
    }
    assert(data@.take(data@.len() as int) =~= data@);
    m
}

/// Height and color level of each day of `data`, in order.
pub fn cells_of(data: &[u32]) -> (r: Vec<Cell>)
    ensures
        r@.len() == data@.len(),
        forall|i: int|
            0 <= i < data@.len() ==> (r@[i].height as nat, r@[i].level as nat) == #[trigger] chart_cells(data@)[i],
{
    let max = max_count(data);
    let mut out: Vec<Cell> = Vec::new();
    let mut i: usize = 0;
    while i < data.len()
        invariant
            i <= data@.len(),
            max == series_max(data@),
            out@.len() == i,
            forall|j: int| 0 <= j < i ==> (out@[j].height as nat, out@[j].level as nat) == #[trigger] chart_cells(data@)[j],
        decreases data@.len() - i,
    {
        let cell = Cell { height: height_index_of(data[i], max), level: color_index_of(data[i], max) };
        out.push(cell);
        i = i + 1;
    }
    out
}

/// The chart line of `data`: for each count, in order, its block glyph styled with
/// its color level from the palette in force.
pub fn sparkline_log(data: &[u32], color_levels: Option<Vec<Rgb>>) -> (r: String)
    ensures
        r@ == chart_text(
            data@,
            active_palette(
                match color_levels {
                    Some(v) => Some(v@),
                    None => None,
                },
            ),
        ),
{
    let palette = resolve_palette(color_levels);
    let cells = cells_of(data);
    let ghost all = chart_cells(data@);
    let mut out = String::new();
    let mut i: usize = 0;
    while i < cells.len()
        invariant
            i <= cells@.len(),
            cells@.len() == all.len(),
            all == chart_cells(data@),
            palette@.len() >= PALETTE_LEN,
            forall|j: int| 0 <= j < all.len() ==> (cells@[j].height as nat, cells@[j].level as nat) == #[trigger] all[j],
            out@ == glyph_run(all.take(i as int), palette@),
        decreases cells@.len() - i,
    {
        let cell = cells[i];
        assert(all[i as int] == (cell.height as nat, cell.level as nat));
        proof {
            crate::scale::lemma_bucket_bounded(data@[i as int] as int, series_max(data@), COLOR_STEPS as nat);
        }
        assert(all.take(i + 1).drop_last() =~= all.take(i as int));
        push_styled(&mut out, palette[cell.level as usize], block_str(cell.height));
        i = i + 1;
    }
    assert(all.take(all.len() as int) =~= all);
    out
}

} // verus!
