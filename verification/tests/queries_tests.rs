use cdno_domain::action_notes::{
    action_note_variables, active_action_path, archived_action_content,
    attach_action_note_to_section, done_action_path, format_action_note_log_entry,
};
use cdno_domain::config::{line_col, ConfigValidationError};
use cdno_domain::context::body_excerpt;
use cdno_domain::date::{Date, Time};
use cdno_domain::frontmatter::{ActionFrontmatter, ActionStatus, EnergyLevel, ProjectStatus, TrackingFrontmatter};
use cdno_domain::lint::LintSeverity;
use cdno_domain::note_lint::{attachment_folder_of, check_append_only, lint_note, NoteLintFacts};
use cdno_domain::queries::{
    completed_actions_between, daily_log_mentions, daily_note_date, list_tracking, stuck_project_days,
    week_days, ActionNote, DailyLogs, ProjectMapEntry, TrackingNote,
};
use cdno_domain::search::{note_logical_date, sanitise_fts_query, SearchFilters};
use cdno_domain::note_type::NoteType;
use cdno_domain::slug_hint::available_slugs_hint;
use cdno_domain::write_outcome::WriteOutcome;

fn d(y: i32, m: u32, day: u32) -> Date {
    Date { year: y, month: m, day }
}

#[test]
fn line_col_counts_chars() {
    assert_eq!(line_col("abc", 0), (1, 1));
    assert_eq!(line_col("ab\ncd", 4), (2, 2));
    // A two-byte character advances the column by one.
    assert_eq!(line_col("é=1", 2), (1, 2));
    assert_eq!(line_col("ab", 99), (1, 3));
    let e = ConfigValidationError::from_message("bad".to_owned());
    assert_eq!(e.line, None);
    assert_eq!(e.to_message(), "bad");
}

#[test]
fn fts_queries() {
    assert_eq!(sanitise_fts_query("wedding \"venue"), Some("\"wedding\" \"\"\"venue\"".to_owned()));
    assert_eq!(sanitise_fts_query("a AND b"), Some("\"a\" \"AND\" \"b\"".to_owned()));
    assert_eq!(sanitise_fts_query("  !!  --- "), None);
    assert_eq!(sanitise_fts_query(""), None);
}

#[test]
fn search_filters() {
    let none = SearchFilters::none();
    assert!(none.is_empty());
    assert_eq!(none.scan_limit(10), 10);
    assert!(none.admits_type("anything"));
    assert!(none.admits(None, None));
    let f = SearchFilters {
        note_types: vec![NoteType::Daily],
        date_from: Some(d(2026, 1, 1)),
        date_to: Some(d(2026, 1, 31)),
        portfolio: Some("p".to_owned()),
    };
    assert!(!f.is_empty());
    assert!(f.needs_frontmatter());
    assert_eq!(f.scan_limit(10), 500);
    assert!(f.admits_type("daily"));
    assert!(!f.admits_type("project"));
    assert!(f.admits(Some("p"), Some(d(2026, 1, 31))));
    assert!(!f.admits(Some("q"), Some(d(2026, 1, 15))));
    assert!(!f.admits(Some("p"), None));
    assert!(!f.admits(Some("p"), Some(d(2026, 2, 1))));
    assert_eq!(note_logical_date("journal/2026/daily/2026-01-05.md", None), Some(d(2026, 1, 5)));
    assert_eq!(note_logical_date("projects/x.md", Some(d(2025, 1, 1))), Some(d(2025, 1, 1)));
    assert_eq!(note_logical_date("projects/x.md", None), None);
}

#[test]
fn slug_hints() {
    let items = vec![
        ("gym".to_owned(), "gym".to_owned()),
        ("car".to_owned(), "car (parked)".to_owned()),
    ];
    assert_eq!(available_slugs_hint(&items, "stewardships"), " \u{2014} available stewardships: car (parked), gym");
    assert_eq!(available_slugs_hint(&Vec::new(), "x"), "");
}

#[test]
fn write_outcomes() {
    let w = WriteOutcome::written("a.md".to_owned(), vec!["a.md".to_owned(), "d.md".to_owned()]);
    assert!(w.touched());
    let n = WriteOutcome::noop("a.md".to_owned());
    assert!(!n.touched());
    assert_eq!(n.primary, "a.md");
}

#[test]
fn action_notes() {
    assert_eq!(active_action_path("run-ablation"), "actions/run-ablation.md");
    assert_eq!(done_action_path(2026, "run-ablation"), "actions/_done/2026/run-ablation.md");
    assert_eq!(
        attach_action_note_to_section("- [ ] Old (deep)\n", "run-ablation", EnergyLevel::Light),
        "- [ ] Old (deep)\n- [ ] [[actions/run-ablation]] (light)\n\n"
    );
    assert_eq!(
        format_action_note_log_entry("projects/x", "run-ablation", " Run ablation ", EnergyLevel::Deep),
        "action added to [[projects/x]] with note [[actions/run-ablation]] \u{2014} Run ablation (deep)"
    );
    let vars = action_note_variables("x", "Run", "run", EnergyLevel::Medium, Some("[[m]]"), None, &d(2026, 3, 7));
    assert_eq!(vars[0], ("status".to_owned(), "active".to_owned()));
    assert_eq!(vars[3], ("milestone".to_owned(), "\"[[m]]\"".to_owned()));
    assert_eq!(vars[4], ("due".to_owned(), "null".to_owned()));
    assert_eq!(vars[5], ("created".to_owned(), "2026-03-07".to_owned()));
    let raw = "---\nstatus: active\ncompleted: null\n---\nbody\n";
    assert_eq!(
        archived_action_content(raw, &d(2026, 3, 8)),
        Ok("---\nstatus: completed\ncompleted: 2026-03-08\n---\nbody\n".to_owned())
    );
}

fn facts(path: &str) -> NoteLintFacts {
    NoteLintFacts {
        path: path.to_owned(),
        note_type: "project".to_owned(),
        type_known: true,
        required: vec!["owner".to_owned(), "status".to_owned()],
        present: vec!["status".to_owned()],
        invalid_fields: vec![("phase".to_owned(), "is not one of a, b".to_owned())],
        append_only: None,
        empty_attachment_folder: None,
        content: Ok("---\nstatus: active\ntype: project\n---\n".to_owned()),
        frontmatter_error: None,
        canonical_order: Ok(vec!["type".to_owned(), "status".to_owned()]),
        broken_links: vec!["projects/gone".to_owned()],
    }
}

#[test]
fn note_lint_issues() {
    let issues = lint_note(&facts("projects/x.md"));
    let msgs: Vec<(LintSeverity, &str)> = issues.iter().map(|i| (i.severity, i.message.as_str())).collect();
    assert_eq!(
        msgs,
        vec![
            (LintSeverity::Error, "missing required field `owner` for note type `project`"),
            (LintSeverity::Warning, "field `phase` is not one of a, b for note type `project`"),
            (LintSeverity::Warning, "frontmatter keys are not in canonical order (run `cdno normalise` to fix)"),
            (LintSeverity::Warning, "broken wikilink `[[projects/gone]]` resolves to no note"),
        ]
    );
    let mut unknown = facts("x.md");
    unknown.type_known = false;
    unknown.note_type = "mystery".to_owned();
    let issues = lint_note(&unknown);
    assert_eq!(issues.len(), 1);
    assert_eq!(issues[0].message, "unknown note type: `mystery`");
    let mut unreadable = facts("x.md");
    unreadable.content = Err("denied".to_owned());
    let issues = lint_note(&unreadable);
    assert_eq!(issues.last().unwrap().message, "could not read note: denied");
    assert_eq!(issues.len(), 3);
    assert_eq!(attachment_folder_of("portfolios/p/2026-01-01-x.md"), "portfolios/p/2026-01-01-x");
    assert_eq!(
        check_append_only(100, 90, "h", "h"),
        Some("archived action note was truncated below its frozen prefix (was 100 bytes at archival, now 90)".to_owned())
    );
    assert_eq!(
        check_append_only(100, 120, "h1", "h2"),
        Some("archived action note modified an existing line (append-only after completion)".to_owned())
    );
    assert_eq!(check_append_only(100, 120, "h", "h"), None);
}

fn action(status: ActionStatus, completed: Option<Date>) -> ActionFrontmatter {
    ActionFrontmatter {
        status,
        project: "projects/x".to_owned(),
        energy: EnergyLevel::Deep,
        milestone: None,
        due: None,
        created: d(2026, 1, 1),
        completed,
        blocker: None,
        criteria: None,
        tags: Vec::new(),
    }
}

#[test]
fn completed_actions_window() {
    let notes = vec![
        ActionNote { path: "actions/_done/2026/b.md".to_owned(), frontmatter: action(ActionStatus::Completed, Some(d(2026, 3, 2))), body: "# Beta\n".to_owned() },
        ActionNote { path: "actions/_done/2026/a.md".to_owned(), frontmatter: action(ActionStatus::Completed, Some(d(2026, 3, 2))), body: "".to_owned() },
        ActionNote { path: "actions/_done/2026/c.md".to_owned(), frontmatter: action(ActionStatus::Completed, Some(d(2026, 3, 1))), body: "".to_owned() },
        ActionNote { path: "actions/old.md".to_owned(), frontmatter: action(ActionStatus::Completed, Some(d(2026, 1, 1))), body: "".to_owned() },
        ActionNote { path: "actions/open.md".to_owned(), frontmatter: action(ActionStatus::Active, None), body: "".to_owned() },
    ];
    let out = completed_actions_between(&notes, &d(2026, 3, 1), &d(2026, 3, 31));
    let slugs: Vec<&str> = out.iter().map(|e| e.slug.as_str()).collect();
    assert_eq!(slugs, vec!["c", "a", "b"]);
    assert_eq!(out[1].title, "a");
    assert_eq!(out[2].title, "Beta");
}

#[test]
fn mentions_and_days() {
    let days = vec![
        DailyLogs { date: d(2026, 3, 2), section: "- **10:00**: did [[projects/x]]\n- **09:00**: other\n".to_owned() },
        DailyLogs { date: d(2026, 3, 1), section: "- **18:30**: about [[x]]\n".to_owned() },
        DailyLogs { date: d(2026, 2, 1), section: "- **08:00**: [[x]] too early\n".to_owned() },
    ];
    let out = daily_log_mentions(&days, "x", &d(2026, 3, 1));
    assert_eq!(out.len(), 2);
    assert_eq!(out[0].date, d(2026, 3, 1));
    assert_eq!(out[0].time, Time { hour: 18, minute: 30 });
    assert_eq!(out[1].text, "did [[projects/x]]");
    assert_eq!(daily_note_date("journal/2026/daily/2026-04-06.md"), Some(d(2026, 4, 6)));
    assert_eq!(daily_note_date("journal/2026/weekly/2026-W14.md"), None);
    let week = week_days(&d(2026, 4, 9));
    assert_eq!(week.len(), 7);
    assert_eq!(week[0], d(2026, 4, 6));
    assert_eq!(week[6], d(2026, 4, 12));
}

#[test]
fn tracking_listing() {
    let tf = |activity: &str, date: Date| TrackingFrontmatter {
        stewardship: "gym".to_owned(),
        activity: activity.to_owned(),
        date,
        duration_min: Some(30),
        routine: None,
    };
    let notes = vec![
        TrackingNote { path: "stewardships/gym/tracking/2026-03-01-run.md".to_owned(), frontmatter: tf("run", d(2026, 3, 1)), body: "".to_owned() },
        TrackingNote { path: "stewardships/gym/tracking/2026-03-02-swim.md".to_owned(), frontmatter: tf("swim", d(2026, 3, 2)), body: "# Swim\n\nLaps.\n".to_owned() },
        TrackingNote { path: "stewardships/gym/tracking/2026-03-02-bike.md".to_owned(), frontmatter: tf("bike", d(2026, 3, 2)), body: "".to_owned() },
    ];
    let all = list_tracking(&notes, "gym", None, &d(2026, 1, 1), &d(2026, 12, 31));
    let acts: Vec<&str> = all.iter().map(|e| e.activity.as_str()).collect();
    assert_eq!(acts, vec!["bike", "swim", "run"]);
    assert_eq!(all[1].body_excerpt, body_excerpt("# Swim\n\nLaps.\n"));
    let runs = list_tracking(&notes, "gym", Some("run"), &d(2026, 1, 1), &d(2026, 12, 31));
    assert_eq!(runs.len(), 1);
    let none = list_tracking(&notes, "car", None, &d(2026, 1, 1), &d(2026, 12, 31));
    assert!(none.is_empty());
}

#[test]
fn stuck_projects_are_active_and_untouched_since_the_cutoff() {
    let entry = |path: &str, status: ProjectStatus, mtime_ns: u64, days_since: i64| ProjectMapEntry {
        path: path.to_owned(),
        status,
        mtime_ns,
        days_since,
    };
    let cutoff = 1_000;
    let entries = vec![
        entry("projects/zeta.md", ProjectStatus::Active, 900, 12),
        entry("projects/fresh.md", ProjectStatus::Active, 1_001, 0),
        entry("projects/parked/old.md", ProjectStatus::Parked, 10, 40),
        entry("projects/alpha.md", ProjectStatus::Active, 1_000, 7),
    ];
    assert_eq!(
        stuck_project_days(&entries, cutoff),
        vec![("alpha".to_owned(), 7), ("zeta".to_owned(), 12)]
    );
    assert_eq!(stuck_project_days(&Vec::new(), cutoff), Vec::<(String, i64)>::new());
}
