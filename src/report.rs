//! The fetched profile, the configuration, the module registry built from them,
//! and the report lines in their final order.
use vstd::prelude::*;
use crate::chart::{active_palette, chart_text, resolve_palette, sparkline_log, PALETTE_LEN};
use crate::compose::{compose, composed, module_views, name_views, ModuleView, StringModule};
use crate::text::{decimal, push_decimal, push_styled, styled, Rgb};

verus! {

/// One calendar day of activity.
pub struct Day {
    pub date: String,
    pub count: u32,
}

/// What the report is made from: the account's login, its optional display name,
/// and its daily activity in chronological order.
pub struct Profile {
    pub login: String,
    pub name: Option<String>,
    pub days: Vec<Day>,
}

/// User configuration; an absent field means the built-in default.
pub struct GitfetchConfig {
    pub color_levels: Option<Vec<Rgb>>,
    pub username_color: Option<Rgb>,
    pub string_modules: Option<Vec<String>>,
}

/// The daily counts, in order.
pub open spec fn day_counts(days: Seq<Day>) -> Seq<u32> {
    days.map_values(|d: Day| d.count)
}

/// The sum of the counts.
pub open spec fn series_total(s: Seq<u32>) -> int
    decreases s.len(),
{
    if s.len() == 0 {
        0
    } else {
        series_total(s.drop_last()) + s.last()
    }
}

/// The configured color levels, if any.
pub open spec fn config_levels(cfg: Option<GitfetchConfig>) -> Option<Seq<Rgb>> {
    match cfg {
        Some(c) => match c.color_levels {
            Some(v) => Some(v@),
            None => None,
        },
        None => None,
    }
}

/// The configured module order, if any.
pub open spec fn config_order(cfg: Option<GitfetchConfig>) -> Option<Seq<Seq<char>>> {
    match cfg {
        Some(c) => match c.string_modules {
            Some(o) => Some(name_views(o@)),
            None => None,
        },
        None => None,
    }
}

/// The color of the login line: the configured one, else the highest color level
/// of the palette in force.
pub open spec fn name_color(cfg: Option<GitfetchConfig>) -> Rgb {
    match cfg {
        Some(c) if c.username_color.is_some() => c.username_color.unwrap(),
        _ => active_palette(config_levels(cfg))[PALETTE_LEN - 1],
    }
}

/// The module names in their built-in order.
pub open spec fn default_order() -> Seq<Seq<char>> {
    seq!["identity"@, "display-name"@, "total"@, "chart"@]
}

/// The login line: the login after a label, in color `c`.
pub open spec fn identity_text(login: Seq<char>, c: Rgb) -> Seq<char> {
    styled(c, "Github:\t"@ + login)
}

/// The display-name line; empty when there is no display name.
pub open spec fn display_name_text(name: Option<String>) -> Seq<char> {
    match name {
        Some(n) => "Display name: "@ + n@,
        None => Seq::empty(),
    }
}

/// The line with the sum of the counts in decimal.
pub open spec fn total_text(s: Seq<u32>) -> Seq<char> {
    "Total Contributions over the last year: "@ + decimal(series_total(s) as nat)
}

/// The chart after a label.
pub open spec fn chart_line(s: Seq<u32>, palette: Seq<Rgb>) -> Seq<char> {
    "Contributions: "@ + chart_text(s, palette)
}

/// Every module of the report, in the built-in order.
pub open spec fn registry(p: Profile, cfg: Option<GitfetchConfig>) -> Seq<ModuleView> {
    let counts = day_counts(p.days@);
    seq![
        (default_order()[0], identity_text(p.login@, name_color(cfg))),
        (default_order()[1], display_name_text(p.name)),
        (default_order()[2], total_text(counts)),
        (default_order()[3], chart_line(counts, active_palette(config_levels(cfg)))),
    ]
}

/// The modules shown, in order.
pub open spec fn report_modules(p: Profile, cfg: Option<GitfetchConfig>) -> Seq<ModuleView> {
    composed(registry(p, cfg), config_order(cfg))
}

/// The report lines, one per module shown.
pub open spec fn report(p: Profile, cfg: Option<GitfetchConfig>) -> Seq<Seq<char>> {
    report_modules(p, cfg).map_values(|m: ModuleView| m.1)
}

/// Without a configured order the report shows the four modules of the built-in
/// order, in that order, each exactly once.
pub proof fn lemma_default_composition(p: Profile, cfg: Option<GitfetchConfig>)
    requires
        config_order(cfg) is None,
    ensures
        report_modules(p, cfg).map_values(|m: ModuleView| m.0) == default_order(),
        default_order().no_duplicates(),
        report_modules(p, cfg).len() == 4,
{
    assert(report_modules(p, cfg).map_values(|m: ModuleView| m.0) =~= default_order());
    reveal_strlit("identity");
    reveal_strlit("display-name");
    reveal_strlit("total");
    reveal_strlit("chart");
    assert("total"@[0] != "chart"@[0]);
    assert("identity"@.len() != "display-name"@.len());
}

/// The daily counts of `days`, in order.
pub fn daily_counts(days: &Vec<Day>) -> (r: Vec<u32>)
    ensures
        r@ == day_counts(days@),
{
    let mut out: Vec<u32> = Vec::new();
    let mut i: usize = 0;
    while i < days.len()
        invariant
            i <= days@.len(),
            out@ == day_counts(days@.take(i as int)),
        decreases days@.len() - i,
    {
        out.push(days[i].count);
        i = i + 1;
        assert(out@ =~= day_counts(days@.take(i as int)));
    }
    assert(days@.take(days@.len() as int) =~= days@);
    out
}

/// The sum of `counts`.
pub fn total_count(counts: &[u32]) -> (r: u128)
    ensures
        r == series_total(counts@),
{
    let mut total: u128 = 0;
    let mut i: usize = 0;
    while i < counts.len()
        invariant
            i <= counts@.len(),
            total == series_total(counts@.take(i as int)),
            total <= i * 0xffff_ffff,
        decreases counts@.len() - i,
    {
        assert(counts@.take(i + 1).drop_last() =~= counts@.take(i as int));
        assert(i < 0x1_0000_0000_0000_0000);
        total = total + counts[i] as u128;
        i = i + 1;
    }
    assert(counts@.take(counts@.len() as int) =~= counts@);
    total
}

fn copy_levels(levels: &Vec<Rgb>) -> (r: Vec<Rgb>)
    ensures
        r@ == levels@,
{
    let mut out: Vec<Rgb> = Vec::new();
    let mut i: usize = 0;
    while i < levels.len()
        invariant
            i <= levels@.len(),
            out@ == levels@.take(i as int),
        decreases levels@.len() - i,
    {
        out.push(levels[i]);
        i = i + 1;
        assert(out@ =~= levels@.take(i as int));
    }
    assert(levels@.take(levels@.len() as int) =~= levels@);
    out
}

/// The configured color levels, if any.
pub fn levels_of(config: &Option<GitfetchConfig>) -> (r: Option<Vec<Rgb>>)
    ensures
        match r {
            Some(v) => config_levels(*config) == Some(v@),
            None => config_levels(*config) is None,
        },
{
    match config {
        Some(c) => match &c.color_levels {
            Some(v) => Some(copy_levels(v)),
            None => None,
        },
        None => None,
    }
}

/// The color of the login line.
pub fn username_color(config: &Option<GitfetchConfig>) -> (r: Rgb)
    ensures
        r == name_color(*config),
{
    match config {
        Some(c) => match c.username_color {
            Some(rgb) => {
                return rgb;
            },
            None => {},
        },
        None => {},
    }
    let palette = resolve_palette(levels_of(config));
    palette[PALETTE_LEN - 1]
}

fn text_of(s: &str) -> (r: String)
    ensures
        r@ == s@,
{
    String::from_str(s)
}

/// The module that shows the login in the given color.
pub fn identity_module(login: &String, color: Rgb) -> (r: StringModule)
    ensures
        r@ == (default_order()[0], identity_text(login@, color)),
{
    let mut label = text_of("Github:\t");
    label.append(login.as_str());
    let mut contents = String::new();
    push_styled(&mut contents, color, label.as_str());
    assert(contents@ =~= identity_text(login@, color));
    StringModule { name: text_of("identity"), contents }
}

/// The module that shows the display name; its contents are empty without one.
pub fn display_name_module(name: &Option<String>) -> (r: StringModule)
    ensures
        r@ == (default_order()[1], display_name_text(*name)),
{
    let contents = match name {
        Some(n) => {
            let mut s = text_of("Display name: ");
            s.append(n.as_str());
            s
        },
        None => String::new(),
    };
    StringModule { name: text_of("display-name"), contents }
}

/// The module that shows the sum of the counts.
pub fn total_module(counts: &[u32]) -> (r: StringModule)
    ensures
        r@ == (default_order()[2], total_text(counts@)),
{
    let mut contents = text_of("Total Contributions over the last year: ");
    push_decimal(&mut contents, total_count(counts));
    StringModule { name: text_of("total"), contents }
}

/// The module that shows the activity chart.
pub fn chart_module(counts: &[u32], color_levels: Option<Vec<Rgb>>) -> (r: StringModule)
    ensures
        r@ == (default_order()[3], chart_line(
            counts@,
            active_palette(
                match color_levels {
                    Some(v) => Some(v@),
                    None => None,
                },
            ),
        )),
{
    let mut contents = text_of("Contributions: ");
    let chart = sparkline_log(counts, color_levels);
    contents.append(chart.as_str());
    StringModule { name: text_of("chart"), contents }
}

/// Every module of the report, in the built-in order.
pub fn build_modules(profile: &Profile, config: &Option<GitfetchConfig>) -> (r: Vec<StringModule>)
    ensures
        module_views(r@) == registry(*profile, *config),
{
    let counts = daily_counts(&profile.days);
    let mut out: Vec<StringModule> = Vec::new();
    out.push(identity_module(&profile.login, username_color(config)));
    out.push(display_name_module(&profile.name));
    out.push(total_module(counts.as_slice()));
    out.push(chart_module(counts.as_slice(), levels_of(config)));
    assert(module_views(out@) =~= registry(*profile, *config));
    out
}

/// The report lines, one per module shown, in the configured order if there is
/// one, else in the built-in order.
pub fn report_lines(profile: &Profile, config: &Option<GitfetchConfig>) -> (r: Vec<String>)
    ensures
        r@.map_values(|s: String| s@) == report(*profile, *config),
{
    let modules = build_modules(profile, config);
    let order: Option<&Vec<String>> = match config {
        Some(c) => match &c.string_modules {
            Some(o) => Some(o),
            None => None,
        },
        None => None,
    };
    let shown = compose(&modules, order);
    let ghost want = report(*profile, *config);
    let mut out: Vec<String> = Vec::new();
    let mut i: usize = 0;
    while i < shown.len()
        invariant
            i <= shown@.len(),
            want == module_views(shown@).map_values(|m: ModuleView| m.1),
            out@.map_values(|s: String| s@) == want.take(i as int),
        decreases shown@.len() - i,
    {
        let ghost prev = out@;
        out.push(shown[i].contents.clone());
        assert(out@.map_values(|s: String| s@) =~= prev.map_values(|s: String| s@).push(shown@[i as int].contents@));
        i = i + 1;
        assert(out@.map_values(|s: String| s@) =~= want.take(i as int));
    }
    assert(want.take(want.len() as int) =~= want);
    out
}

} // verus!
