use cdno_domain::stewardships::periodic_commitment_line;
use cdno_domain::recurrence::Recurrence;
use cdno_domain::commitments::{format_commitment_created_log_entry, parse_periodic_line, slug_link, yaml_opt_slug};
use cdno_domain::date::Date;
use cdno_domain::error::DomainError;
use cdno_domain::lint::{is_dashboard_bullet, LintIssue, LintReport, LintSeverity};
use cdno_domain::normalise::{frontmatter_key_order, reorder_frontmatter, top_level_key_of};
use cdno_domain::note_type::NoteType;
use cdno_domain::orient::{parse_habit_line, parse_lapsed_habit_line};
use cdno_domain::projects::lifecycle::{check_activation_cap, core_question_yaml};
use cdno_domain::projects::core_question::validate_core_question;
use cdno_domain::stewardships::{extract_h1, stewardship_paths, stewardship_slug_from_path, stewardship_variant_from_path, StewardshipVariant};
use cdno_domain::type_registry::{CustomNoteType, NamedType, TypeRegistry};

fn d(y: i32, m: u32, day: u32) -> Date {
    Date { year: y, month: m, day }
}

#[test]
fn note_type_names_round_trip() {
    for nt in [NoteType::Daily, NoteType::Project, NoteType::Inbox, NoteType::Evidence] {
        assert_eq!(NoteType::from_name(nt.as_str()), Ok(nt));
    }
    assert!(NoteType::from_name("recipe").is_err());
}

#[test]
fn registry_resolution() {
    let reg = TypeRegistry::new(vec![NamedType {
        name: "recipe".to_owned(),
        def: CustomNoteType { folder: "recipes".to_owned(), required: vec![], optional: vec![], template: None, append_only: false },
    }]);
    assert!(reg.is_known("recipe"));
    assert!(reg.is_known("daily"));
    assert!(!reg.is_known("nope"));
    let names = reg.all_names();
    assert_eq!(names.last().unwrap(), "recipe");
    assert_eq!(names[0], "daily");
}

#[test]
fn periodic_lines() {
    assert_eq!(
        parse_periodic_line("- Renew passport \u{2014} every 3 months \u{2014} next: 2026-05-01"),
        Some(("Renew passport".to_owned(), d(2026, 5, 1)))
    );
    assert_eq!(parse_periodic_line("- Renew passport - monthly - next: 2026-05-01"), None);
    assert_eq!(slug_link(Some(" Tax Return ")), Some("tax-return".to_owned()));
    assert_eq!(slug_link(Some("!!!")), None);
    assert_eq!(slug_link(Some("  ")), None);
    assert_eq!(yaml_opt_slug(None), "null");
    assert_eq!(
        format_commitment_created_log_entry("tax", "File taxes", &d(2026, 4, 30)),
        "commitment created [[tax]] \u{2014} File taxes (due 2026-04-30)"
    );
}

#[test]
fn habits() {
    let h = parse_habit_line("- Meditate daily \u{2014} lapsed since May").unwrap();
    assert_eq!(h.status, "lapsed since May");
    assert!(parse_habit_line("- no status").is_none());
    assert_eq!(parse_lapsed_habit_line("- Stretch \u{2014} LAPSED"), Some("Stretch \u{2014} LAPSED".to_owned()));
    assert_eq!(parse_lapsed_habit_line("- Stretch \u{2014} active"), None);
}

#[test]
fn stewardship_paths_and_variants() {
    let p = stewardship_paths(" Gym ").unwrap();
    assert_eq!(p.slug, "gym");
    assert_eq!(p.flat, "stewardships/gym.md");
    assert_eq!(p.expanded, "stewardships/gym/_index.md");
    assert_eq!(stewardship_paths(" ").err(), Some(DomainError::EmptyField { field: "name" }));
    assert_eq!(stewardship_slug_from_path("stewardships/gym/_index.md"), "gym");
    assert_eq!(stewardship_slug_from_path("stewardships/car.md"), "car");
    assert_eq!(stewardship_variant_from_path("stewardships/gym/_index.md"), StewardshipVariant::Expanded);
    assert_eq!(stewardship_variant_from_path("stewardships/car.md"), StewardshipVariant::Flat);
    assert_eq!(extract_h1("intro\n  # Gym \nmore"), "Gym");
    assert_eq!(extract_h1("no heading"), "");
}

#[test]
fn normalise_orders_keys() {
    let raw = "---\nstatus: active\ntags:\n  - a\ntype: project\n---\nbody\n";
    let order = vec!["type".to_owned(), "status".to_owned(), "tags".to_owned()];
    assert_eq!(
        reorder_frontmatter(raw, &order),
        Some("---\ntype: project\nstatus: active\ntags:\n  - a\n---\nbody\n".to_owned())
    );
    let sorted = "---\ntype: project\nstatus: active\n---\n";
    assert_eq!(reorder_frontmatter(sorted, &order), None);
    assert_eq!(top_level_key_of("status: x"), Some("status".to_owned()));
    assert_eq!(top_level_key_of("  - a"), None);
    assert_eq!(frontmatter_key_order(raw), vec!["status".to_owned(), "tags".to_owned(), "type".to_owned()]);
}

#[test]
fn normalise_twice_changes_nothing() {
    let order = vec!["type".to_owned(), "status".to_owned()];
    let raw = "---\n# preamble\nextra: 1\nstatus: done\ntype: action\n---\nbody\n";
    let once = reorder_frontmatter(raw, &order).unwrap();
    assert_eq!(once, "---\n# preamble\ntype: action\nstatus: done\nextra: 1\n---\nbody\n");
    assert_eq!(reorder_frontmatter(&once, &order), None);
    let dashed = "---\n---a: 1\nb: 2\n---\nbody";
    let order_b = vec!["b".to_owned()];
    let once_dashed = reorder_frontmatter(dashed, &order_b).unwrap();
    assert_eq!(once_dashed, "---\nb: 2\n---a: 1\n---\nbody");
    assert_eq!(reorder_frontmatter(&once_dashed, &order_b), None);
}

#[test]
fn periodic_lines_read_back_as_written() {
    let next = Date { year: 2026, month: 5, day: 1 };
    let line = periodic_commitment_line("  Service the car ", Recurrence::EveryNMonths(6), next).unwrap();
    assert_eq!(line, "- Service the car \u{2014} every 6 months \u{2014} next: 2026-05-01\n");
    assert_eq!(parse_periodic_line(&line), Some(("Service the car".to_owned(), next)));
    let annotated = line.replace("\n", " (overdue)\n");
    assert_eq!(parse_periodic_line(&annotated), Some(("Service the car".to_owned(), next)));
}

#[test]
fn lifecycle_rules() {
    assert_eq!(check_activation_cap(&vec!["a".to_owned()], 3), Ok(()));
    assert!(matches!(
        check_activation_cap(&vec!["a".to_owned(), "b".to_owned()], 2),
        Err(DomainError::ProjectCapReached { current: 2, max: 2, .. })
    ));
    assert_eq!(core_question_yaml(Some("questions/research/q")), "\"[[questions/research/q]]\"");
    assert_eq!(core_question_yaml(None), "null");
    assert_eq!(validate_core_question(Some(" q ")), Ok(Some("q".to_owned())));
    assert_eq!(validate_core_question(None), Ok(None));
    assert_eq!(
        validate_core_question(Some("[[q]]")),
        Err(DomainError::MalformedWikilink { value: "[[q]]".to_owned() })
    );
}

#[test]
fn lint_basics() {
    assert!(is_dashboard_bullet("  - item"));
    assert!(!is_dashboard_bullet("prose"));
    let r = LintReport { issues: vec![LintIssue::warning("a.md".to_owned(), "m".to_owned())] };
    assert!(!r.is_clean());
    assert_eq!(r.issues[0].severity, LintSeverity::Warning);
    assert_eq!(LintSeverity::Error.as_str(), "error");
}
