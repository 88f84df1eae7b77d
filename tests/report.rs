use gitfetch::chart::sparkline_log;
use gitfetch::compose::{compose, position_of, StringModule};
use gitfetch::report::{
    build_modules, daily_counts, report_lines, total_count, username_color, Day, GitfetchConfig, Profile,
};

fn profile(name: Option<&str>, counts: &[u32]) -> Profile {
    Profile {
        login: "octocat".to_string(),
        name: name.map(|n| n.to_string()),
        days: counts
            .iter()
            .enumerate()
            .map(|(i, c)| Day { date: format!("2024-01-{:02}", i + 1), count: *c })
            .collect(),
    }
}

fn config(order: Option<&[&str]>) -> GitfetchConfig {
    GitfetchConfig {
        color_levels: None,
        username_color: None,
        string_modules: order.map(|o| o.iter().map(|s| s.to_string()).collect()),
    }
}

fn names(mods: &[StringModule]) -> Vec<String> {
    mods.iter().map(|m| m.name.clone()).collect()
}

#[test]
fn order_total_then_chart() {
    let p = profile(Some("The Octocat"), &[0, 0, 5, 10, 0]);
    let cfg = Some(config(Some(&["total", "chart"])));
    let lines = report_lines(&p, &cfg);
    assert_eq!(lines.len(), 2);
    assert_eq!(lines[0], "Total Contributions over the last year: 15");
    assert_eq!(lines[1], format!("Contributions: {}", sparkline_log(&[0, 0, 5, 10, 0], None)));
}

#[test]
fn no_config_uses_default_order() {
    let p = profile(Some("The Octocat"), &[1, 2]);
    let lines = report_lines(&p, &None);
    assert_eq!(lines.len(), 4);
    assert_eq!(lines[0], "\x1b[38;2;235;237;240mGithub:\toctocat\x1b[0m");
    assert_eq!(lines[1], "Display name: The Octocat");
    assert_eq!(lines[2], "Total Contributions over the last year: 3");
    assert!(lines[3].starts_with("Contributions: \x1b[38;2;"));
    let mods = build_modules(&p, &None);
    assert_eq!(names(&mods), vec!["identity", "display-name", "total", "chart"]);
}

#[test]
fn config_without_order_uses_default_order() {
    let p = profile(None, &[4]);
    let lines = report_lines(&p, &Some(config(None)));
    assert_eq!(lines, report_lines(&p, &None));
    assert_eq!(lines[1], "");
}

#[test]
fn unknown_names_are_skipped() {
    let p = profile(Some("n"), &[2, 0, 7]);
    let with_unknown = report_lines(&p, &Some(config(Some(&["bogus", "chart", "nope", "total"]))));
    let without = report_lines(&p, &Some(config(Some(&["chart", "total"]))));
    assert_eq!(with_unknown, without);
    assert_eq!(with_unknown.len(), 2);
}

#[test]
fn each_module_at_most_once() {
    let p = profile(Some("n"), &[1]);
    let lines = report_lines(&p, &Some(config(Some(&["total", "total", "display-name", "total"]))));
    assert_eq!(lines, vec!["Total Contributions over the last year: 1".to_string(), "Display name: n".to_string()]);
}

#[test]
fn empty_order_shows_nothing() {
    let p = profile(Some("n"), &[1]);
    assert!(report_lines(&p, &Some(config(Some(&[])))).is_empty());
}

#[test]
fn username_color_configured_or_default() {
    let mut cfg = config(None);
    assert_eq!(username_color(&None), (235, 237, 240));
    cfg.color_levels = Some(vec![(1, 1, 1), (2, 2, 2), (3, 3, 3), (4, 4, 4), (5, 5, 5)]);
    let some = Some(cfg);
    assert_eq!(username_color(&some), (5, 5, 5));
    let mut cfg = some.unwrap();
    cfg.username_color = Some((9, 8, 7));
    let some = Some(cfg);
    assert_eq!(username_color(&some), (9, 8, 7));
    let p = profile(None, &[]);
    assert_eq!(report_lines(&p, &some)[0], "\x1b[38;2;9;8;7mGithub:\toctocat\x1b[0m");
}

#[test]
fn empty_activity_report() {
    let p = profile(None, &[]);
    let lines = report_lines(&p, &None);
    assert_eq!(lines[2], "Total Contributions over the last year: 0");
    assert_eq!(lines[3], "Contributions: ");
}

#[test]
fn totals_do_not_overflow() {
    assert_eq!(total_count(&[u32::MAX, u32::MAX, 2]), 8589934592);
    let p = profile(None, &[5, 6]);
    assert_eq!(daily_counts(&p.days), vec![5, 6]);
}

#[test]
fn compose_looks_up_by_name() {
    let p = profile(Some("n"), &[1]);
    let mods = build_modules(&p, &None);
    assert_eq!(position_of(&mods, &"total".to_string()), Some(2));
    assert_eq!(position_of(&mods, &"missing".to_string()), None);
    let all = compose(&mods, None);
    assert_eq!(names(&all), names(&mods));
    let picked = compose(&mods, Some(&vec!["chart".to_string(), "identity".to_string()]));
    assert_eq!(names(&picked), vec!["chart", "identity"]);
}
