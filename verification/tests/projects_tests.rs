use cdno_domain::error::DomainError;
use cdno_domain::frontmatter::EnergyLevel;
use cdno_domain::projects::actions::{
    add_action_to_section, complete_action_in_section, parse_bullet_energy,
    parse_open_action_text, resolve_open_action, strip_energy_suffix,
};
use cdno_domain::frontmatter::ProjectStatus;
use cdno_domain::projects::lifecycle::{creation_status, project_creation_path, project_paths};
use cdno_domain::projects::rewrite_field_in_frontmatter;

#[test]
fn rewrite_field_replaces_only_frontmatter_line() {
    let raw = "---\ntype: project\nstatus: active\n---\n\nstatus: body line\n";
    let out = rewrite_field_in_frontmatter(raw, "status", "parked").unwrap();
    assert_eq!(out, "---\ntype: project\nstatus: parked\n---\n\nstatus: body line\n");
}

#[test]
fn rewrite_field_missing_frontmatter() {
    let err = rewrite_field_in_frontmatter("no frontmatter", "status", "x").unwrap_err();
    assert_eq!(err, DomainError::MissingSection("frontmatter"));
}

#[test]
fn rewrite_field_missing_field() {
    let err = rewrite_field_in_frontmatter("---\ntype: project\n---\n", "status", "x").unwrap_err();
    assert_eq!(err, DomainError::MissingFrontmatterField("status".to_owned()));
}

#[test]
fn add_action_appends_bullet() {
    let s = add_action_to_section("- [ ] First (deep)\n\n", "  Second  ", EnergyLevel::Light);
    assert_eq!(s, "- [ ] First (deep)\n- [ ] Second (light)\n\n");
    let empty = add_action_to_section("\n", "Only", EnergyLevel::Medium);
    assert_eq!(empty, "- [ ] Only (medium)\n\n");
}

#[test]
fn open_action_text_and_energy() {
    assert_eq!(parse_open_action_text("  - [ ] Run ablation (deep) "), Some("Run ablation (deep)".to_owned()));
    assert_eq!(parse_open_action_text("- [x] done"), None);
    assert_eq!(parse_bullet_energy("Run ablation (deep)"), Some(EnergyLevel::Deep));
    assert_eq!(parse_bullet_energy("Run ablation"), None);
    assert_eq!(strip_energy_suffix("Write draft (medium)"), "Write draft");
}

#[test]
fn resolve_exact_match_wins() {
    let lines = vec![
        "- [ ] Write draft (deep)".to_owned(),
        "- [ ] Write draft (light)".to_owned(),
    ];
    assert_eq!(resolve_open_action(&lines, "p", "write draft (light)"), Ok(1));
    match resolve_open_action(&lines, "p", "write draft") {
        Err(DomainError::AmbiguousAction { candidates, .. }) => {
            assert_eq!(candidates, vec!["Write draft (deep)".to_owned(), "Write draft (light)".to_owned()]);
        }
        other => panic!("unexpected {other:?}"),
    }
    assert!(matches!(
        resolve_open_action(&lines, "p", "nothing"),
        Err(DomainError::ActionNotFound { .. })
    ));
}

#[test]
fn complete_action_removes_line() {
    let section = "- [ ] Alpha (deep)\n- [ ] Beta (light)\n";
    let done = complete_action_in_section(section, "p", "beta").unwrap();
    assert_eq!(done.section, "- [ ] Alpha (deep)\n");
    assert_eq!(done.removed, "Beta (light)");
}

#[test]
fn rewrite_field_last_write_wins() {
    let raw = "---\ntype: project\nstatus: active\ncontext: work\n---\nbody\n";
    let once = rewrite_field_in_frontmatter(raw, "status", "parked").unwrap();
    let twice = rewrite_field_in_frontmatter(&once, "status", "done").unwrap();
    assert_eq!(twice, rewrite_field_in_frontmatter(raw, "status", "done").unwrap());
    assert_eq!(twice, "---\ntype: project\nstatus: done\ncontext: work\n---\nbody\n");
    assert_eq!(rewrite_field_in_frontmatter(&once, "status", "parked").unwrap(), once);
    let dashed = "---\n-x: 1\ntype: note\n---\n";
    let once = rewrite_field_in_frontmatter(dashed, "-x", "2").unwrap();
    assert_eq!(once, "---\n-x: 2\ntype: note\n---\n");
    assert_eq!(
        rewrite_field_in_frontmatter(&once, "-x", "3").unwrap(),
        rewrite_field_in_frontmatter(dashed, "-x", "3").unwrap()
    );
}

#[test]
fn new_project_goes_where_its_status_says() {
    let (active, parked) = project_paths("Soil Carbon Study");
    assert_eq!(active, "projects/soil-carbon-study.md");
    assert_eq!(parked, "projects/_parked/soil-carbon-study.md");
    assert_eq!(creation_status(4, 5), ProjectStatus::Active);
    assert_eq!(creation_status(5, 5), ProjectStatus::Parked);
    assert_eq!(
        project_creation_path(ProjectStatus::Active, &active, &parked, false, false),
        Ok(active.clone())
    );
    assert_eq!(
        project_creation_path(ProjectStatus::Parked, &active, &parked, false, false),
        Ok(parked.clone())
    );
    assert_eq!(
        project_creation_path(ProjectStatus::Parked, &active, &parked, true, true),
        Err(DomainError::AlreadyExists(active.clone()))
    );
    assert_eq!(
        project_creation_path(ProjectStatus::Active, &active, &parked, false, true),
        Err(DomainError::AlreadyExists(parked.clone()))
    );
}
