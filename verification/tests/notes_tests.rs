use cdno_domain::capture::{
    format_discard_log_entry, inbox_item_path, inbox_slug_from_path, inbox_variables,
    list_inbox_items, next_inbox_path, InboxNote,
};
use cdno_domain::custom_notes::{
    synthesise_custom_note,
    check_custom_type, custom_note_path, custom_note_variables, plan_custom_note, sort_note_paths,
};
use cdno_domain::date::Date;
use cdno_domain::error::DomainError;
use cdno_domain::commitments::{
    collect_commitments, plan_commitment_completion, ActionNote, CommitmentNote, CommitmentSource,
    MilestoneRow, StewardshipSection,
};
use cdno_domain::frontmatter::{CommitmentStatus, QuestionDomain, QuestionFrontmatter, QuestionStatus};
use cdno_domain::questions::{
    active_questions, format_status_log_entry, locate_question, plan_question, plan_question_status,
    question_note_path, summarize_questions, QuestionNote, StatusChange,
};
use cdno_domain::stewardships::StewardshipVariant;
use cdno_domain::tracking::{
    check_plausible_date, check_tracking_draft, format_long_date, format_tracking_log_entry,
    title_case, tracking_entry_path, tracking_variables, TrackingEntryDraft,
};
use cdno_domain::type_registry::{CustomNoteType, NamedType, TypeRegistry};

fn d(y: i32, m: u32, day: u32) -> Date {
    Date { year: y, month: m, day }
}

fn registry() -> TypeRegistry {
    TypeRegistry::new(vec![NamedType {
        name: "recipe".to_owned(),
        def: CustomNoteType {
            folder: "recipes".to_owned(),
            required: vec!["cuisine".to_owned()],
            optional: vec!["serves".to_owned()],
            template: None,
            append_only: false,
        },
    }])
}

#[test]
fn plausible_window() {
    let today = d(2026, 6, 1);
    assert_eq!(check_plausible_date(&today, &today), Ok(()));
    assert_eq!(check_plausible_date(&d(1976, 6, 1), &today), Ok(()));
    assert_eq!(check_plausible_date(&d(2027, 6, 1), &today), Ok(()));
    assert_eq!(
        check_plausible_date(&d(2062, 1, 1), &today),
        Err(DomainError::ImplausibleDate { date: d(2062, 1, 1), earliest: d(1976, 6, 1), latest: d(2027, 6, 1) })
    );
    assert!(check_plausible_date(&d(1976, 5, 31), &today).is_err());
    // A leap day is measured from the 28th.
    assert_eq!(check_plausible_date(&d(2029, 2, 28), &d(2028, 2, 29)), Ok(()));
    assert_eq!(
        check_plausible_date(&d(2029, 3, 1), &d(2028, 2, 29)),
        Err(DomainError::ImplausibleDate { date: d(2029, 3, 1), earliest: d(1978, 2, 28), latest: d(2029, 2, 28) })
    );
}

#[test]
fn draft_checks() {
    let today = d(2026, 6, 1);
    let blank = TrackingEntryDraft::new("gym".to_owned(), "  ".to_owned());
    assert_eq!(check_tracking_draft(&today, &blank).err(), Some(DomainError::EmptyField { field: "activity" }));
    let bad = TrackingEntryDraft::new("gym".to_owned(), "Run".to_owned()).with_routine("[[r]]".to_owned());
    assert_eq!(
        check_tracking_draft(&today, &bad).err(),
        Some(DomainError::MalformedWikilink { value: "[[r]]".to_owned() })
    );
    let blank_routine = TrackingEntryDraft::new("gym".to_owned(), "Morning Run".to_owned()).with_routine(" ".to_owned());
    let c = check_tracking_draft(&today, &blank_routine).unwrap();
    assert_eq!(c.activity_slug, "morning-run");
    assert_eq!(c.routine, None);
    assert_eq!(c.date, today);
    let far = TrackingEntryDraft::new("gym".to_owned(), "Run".to_owned()).on(d(2062, 1, 1));
    assert!(matches!(check_tracking_draft(&today, &far), Err(DomainError::ImplausibleDate { .. })));
    let back = TrackingEntryDraft::new("gym".to_owned(), "Run".to_owned()).on(d(2026, 5, 20));
    assert_eq!(check_tracking_draft(&today, &back).unwrap().date, d(2026, 5, 20));
}

#[test]
fn tracking_paths_and_log() {
    assert_eq!(
        tracking_entry_path("gym", StewardshipVariant::Expanded, &d(2026, 6, 1), "run"),
        Ok("stewardships/gym/tracking/2026-06-01-run.md".to_owned())
    );
    assert_eq!(
        tracking_entry_path("gym", StewardshipVariant::Flat, &d(2026, 6, 1), "run"),
        Err(DomainError::TrackingOnFlatStewardship("gym".to_owned()))
    );
    let p = "stewardships/gym/tracking/2026-05-20-run.md";
    assert_eq!(
        format_tracking_log_entry(p, "run", &d(2026, 5, 20), &d(2026, 5, 20)),
        "Tracked run: [[stewardships/gym/tracking/2026-05-20-run]]"
    );
    assert_eq!(
        format_tracking_log_entry(p, "run", &d(2026, 5, 20), &d(2026, 6, 1)),
        "Tracked run for 2026-05-20: [[stewardships/gym/tracking/2026-05-20-run]]"
    );
}

#[test]
fn tracking_template_variables() {
    assert_eq!(title_case("morning-run"), "Morning Run");
    assert_eq!(title_case("yoga"), "Yoga");
    assert_eq!(format_long_date(&d(2026, 3, 7)), "7 March 2026");
    let vars = tracking_variables("gym", "upper-body", &d(2026, 3, 7), Some("a"), "notes  \n");
    let get = |k: &str| vars.iter().find(|(n, _)| n == k).map(|(_, v)| v.clone()).unwrap();
    assert_eq!(get("activity_title"), "Upper Body");
    assert_eq!(get("date"), "2026-03-07");
    assert_eq!(get("date_long"), "7 March 2026");
    assert_eq!(get("content"), "notes");
    assert_eq!(get("routine"), "\"[[stewardships/gym/routines/a]]\"");
    let none = tracking_variables("gym", "run", &d(2026, 3, 7), None, "");
    assert_eq!(none[6], ("routine".to_owned(), "null".to_owned()));
}

#[test]
fn custom_note_checks() {
    let reg = registry();
    let fields = vec![("cuisine".to_owned(), "thai".to_owned())];
    let plan = plan_custom_note(&reg, "recipe", " Green Curry ", &fields).unwrap();
    assert_eq!(plan.title, "Green Curry");
    assert_eq!(plan.slug, "green-curry");
    assert_eq!(plan.folder, "recipes");
    assert_eq!(plan.template_name, "recipe.md");
    assert_eq!(plan.field_order, vec!["type".to_owned(), "cuisine".to_owned(), "serves".to_owned()]);
    assert_eq!(plan_custom_note(&reg, "recipe", " ", &fields).err(), Some(DomainError::EmptyField { field: "title" }));
    assert_eq!(
        plan_custom_note(&reg, "project", "x", &fields).err(),
        Some(DomainError::BuiltinTypeNotCustom { note_type: "project".to_owned() })
    );
    assert_eq!(
        plan_custom_note(&reg, "nope", "x", &fields).err(),
        Some(DomainError::UnknownNoteType { note_type: "nope".to_owned() })
    );
    let extra = vec![("cuisine".to_owned(), "thai".to_owned()), ("colour".to_owned(), "red".to_owned())];
    assert_eq!(
        plan_custom_note(&reg, "recipe", "x", &extra).err(),
        Some(DomainError::UnknownField { note_type: "recipe".to_owned(), field: "colour".to_owned() })
    );
    let blank = vec![("cuisine".to_owned(), "  ".to_owned())];
    assert_eq!(
        plan_custom_note(&reg, "recipe", "x", &blank).err(),
        Some(DomainError::MissingRequiredField { note_type: "recipe".to_owned(), field: "cuisine".to_owned() })
    );
    assert_eq!(custom_note_path("recipes", "green-curry"), "recipes/green-curry.md");
    let vars = custom_note_variables("Green Curry", "green-curry", &d(2026, 3, 7), &fields);
    assert_eq!(vars[2], ("created".to_owned(), "2026-03-07".to_owned()));
    assert_eq!(vars[3], ("date".to_owned(), "2026-03-07".to_owned()));
    assert_eq!(vars[4], ("cuisine".to_owned(), "thai".to_owned()));
    assert_eq!(check_custom_type(&reg, "recipe"), Ok(()));
    assert!(check_custom_type(&reg, "daily").is_err());
    assert_eq!(
        sort_note_paths(&vec!["recipes/b.md".to_owned(), "recipes/a.md".to_owned()]),
        vec!["recipes/a.md".to_owned(), "recipes/b.md".to_owned()]
    );
}

fn qfm(domain: QuestionDomain, status: QuestionStatus) -> QuestionFrontmatter {
    QuestionFrontmatter { domain, status, created: d(2026, 1, 1), updated: d(2026, 1, 2) }
}

#[test]
fn questions_create_and_locate() {
    let q = plan_question("  Why is the sky blue?  ").unwrap();
    assert_eq!(q.text, "Why is the sky blue?");
    assert_eq!(q.slug, "why-is-the-sky-blue");
    assert_eq!(plan_question("").err(), Some(DomainError::EmptyField { field: "question" }));
    assert_eq!(question_note_path(QuestionDomain::Life, "x"), "questions/life/x.md");
    assert_eq!(locate_question("x", true, false), Ok(Some(QuestionDomain::Research)));
    assert_eq!(locate_question("x", false, false), Ok(None));
    assert_eq!(locate_question("x", true, true), Err(DomainError::AmbiguousSlug("x".to_owned())));
}

#[test]
fn question_status_change() {
    let raw = "---\ntype: question\ndomain: research\nstatus: active\ncreated: 2026-01-01\nupdated: 2026-01-02\n---\n# Why?\n";
    let fm = qfm(QuestionDomain::Research, QuestionStatus::Active);
    assert!(matches!(
        plan_question_status(raw, "why", &fm, QuestionStatus::Active, &d(2026, 2, 1)),
        Ok(StatusChange::Unchanged)
    ));
    match plan_question_status(raw, "why", &fm, QuestionStatus::Parked, &d(2026, 2, 1)) {
        Ok(StatusChange::Changed { content, log_entry }) => {
            assert_eq!(
                content,
                "---\ntype: question\ndomain: research\nstatus: parked\ncreated: 2026-01-01\nupdated: 2026-02-01\n---\n# Why?\n"
            );
            assert_eq!(log_entry, "status on [[questions/research/why]]\n  was: active\n  now: parked");
        }
        _ => panic!("expected a change"),
    }
    assert_eq!(
        format_status_log_entry(QuestionDomain::Life, "x", QuestionStatus::Parked, QuestionStatus::Retired),
        "status on [[questions/life/x]]\n  was: parked\n  now: retired"
    );
}

#[test]
fn question_listing_sorted_and_filtered() {
    let notes = vec![
        QuestionNote { path: "questions/research/b.md".to_owned(), frontmatter: qfm(QuestionDomain::Research, QuestionStatus::Active), body: "# B?\n".to_owned() },
        QuestionNote { path: "questions/life/z.md".to_owned(), frontmatter: qfm(QuestionDomain::Life, QuestionStatus::Parked), body: "# Z?\n".to_owned() },
        QuestionNote { path: "questions/research/a.md".to_owned(), frontmatter: qfm(QuestionDomain::Research, QuestionStatus::Active), body: "no heading".to_owned() },
    ];
    let all = summarize_questions(&notes);
    let slugs: Vec<&str> = all.iter().map(|q| q.slug.as_str()).collect();
    assert_eq!(slugs, vec!["z", "a", "b"]);
    assert_eq!(all[0].question_text, "Z?");
    assert_eq!(all[1].question_text, "");
    let active = active_questions(all);
    let slugs: Vec<&str> = active.iter().map(|q| q.slug.as_str()).collect();
    assert_eq!(slugs, vec!["a", "b"]);
}

#[test]
fn inbox_paths_number_collisions() {
    let day = d(2026, 4, 26);
    assert_eq!(next_inbox_path(&day, "Buy groceries!", &Vec::new()), Ok("inbox/2026-04-26-buy-groceries.md".to_owned()));
    let taken = vec![
        "inbox/2026-04-26-buy-groceries.md".to_owned(),
        "inbox/2026-04-26-buy-groceries-2.md".to_owned(),
    ];
    assert_eq!(next_inbox_path(&day, "buy groceries", &taken), Ok("inbox/2026-04-26-buy-groceries-3.md".to_owned()));
    assert_eq!(next_inbox_path(&day, "  ...  ", &Vec::new()), Ok("inbox/2026-04-26-untitled.md".to_owned()));
    let mut full = vec!["inbox/2026-04-26-x.md".to_owned()];
    for n in 2..100 {
        full.push(format!("inbox/2026-04-26-x-{n}.md"));
    }
    assert_eq!(next_inbox_path(&day, "x", &full), Err(DomainError::AlreadyExists("inbox/2026-04-26-x".to_owned())));
}

#[test]
fn inbox_listing_and_discard() {
    let notes = vec![
        InboxNote { path: "inbox/2026-04-27-b.md".to_owned(), body: "  second \n".to_owned() },
        InboxNote { path: "inbox/2026-04-26-a.md".to_owned(), body: "first".to_owned() },
    ];
    let items = list_inbox_items(&notes);
    assert_eq!(items[0].1.slug, "2026-04-26-a");
    assert_eq!(items[0].1.text, "first");
    assert_eq!(items[1].1.text, "second");
    assert_eq!(inbox_slug_from_path("inbox/2026-04-26-a.md"), "2026-04-26-a");
    assert_eq!(inbox_item_path("2026-04-26-a"), "inbox/2026-04-26-a.md");
    assert_eq!(
        format_discard_log_entry("2026-04-26-a", "buy\n  milk "),
        "triaged inbox item `2026-04-26-a` -- discarded: buy milk"
    );
    assert_eq!(format_discard_log_entry("s", " \n"), "triaged inbox item `s` -- discarded");
    let vars = inbox_variables(&d(2026, 4, 26), 9, 5, 7, "  hello  ");
    assert_eq!(vars[0], ("created".to_owned(), "2026-04-26T09:05:07".to_owned()));
    assert_eq!(vars[1], ("body".to_owned(), "hello".to_owned()));
}

#[test]
fn custom_note_without_template_is_synthesised() {
    let fields = vec![
        ("type".to_owned(), Some("ignored".to_owned())),
        ("cuisine".to_owned(), Some("thai".to_owned())),
        ("rating".to_owned(), None),
        ("served".to_owned(), Some("true".to_owned())),
    ];
    assert_eq!(
        synthesise_custom_note("recipe", &fields, Some("Pad Thai")),
        "---\ntype: recipe\ncuisine: thai\nserved: 'true'\n---\n\n# Pad Thai\n"
    );
    assert_eq!(synthesise_custom_note("recipe", &Vec::new(), None), "---\ntype: recipe\n---\n\n# recipe\n");
}

#[test]
fn completing_a_commitment_sets_its_lifecycle_fields() {
    let raw = "---\ntype: commitment\nstatus: active\ndue: 2026-06-01\ncompleted: null\n---\n# Renew passport\n";
    let done = plan_commitment_completion(raw, "renew-passport", CommitmentStatus::Active, d(2026, 5, 30)).unwrap();
    assert_eq!(
        done.content,
        "---\ntype: commitment\nstatus: completed\ndue: 2026-06-01\ncompleted: 2026-05-30\n---\n# Renew passport\n"
    );
    assert_eq!(done.log_entry, "commitment completed [[renew-passport]] \u{2014} Renew passport");
    assert_eq!(
        plan_commitment_completion(raw, "renew-passport", CommitmentStatus::Completed, d(2026, 5, 30)).err(),
        Some(DomainError::CommitmentNotActive("renew-passport".to_owned()))
    );
    let no_completed = "---\ntype: commitment\nstatus: active\n---\nbody\n";
    assert_eq!(
        plan_commitment_completion(no_completed, "x", CommitmentStatus::Active, d(2026, 5, 30)).err(),
        Some(DomainError::MissingFrontmatterField("completed".to_owned()))
    );
    assert_eq!(
        plan_commitment_completion("no block", "x", CommitmentStatus::Active, d(2026, 5, 30)).err(),
        Some(DomainError::MissingSection("frontmatter"))
    );
}

#[test]
fn commitments_stay_inside_the_window_sorted_by_date() {
    let row = |name: &str, date: &str| MilestoneRow {
        project_slug: "thesis".to_owned(),
        name: name.to_owned(),
        date: Some(date.to_owned()),
        is_hard: true,
        completed: false,
    };
    let milestones = vec![row("Late draft", "2026-09-01"), row("Chapter one", "2026-05-20"), row("Too old", "2026-01-01")];
    let stewardships = vec![StewardshipSection {
        slug: "home".to_owned(),
        section: "- Boiler service \u{2014} yearly \u{2014} next: 2026-05-25\n".to_owned(),
    }];
    let commitments: Vec<CommitmentNote> = Vec::new();
    let actions: Vec<ActionNote> = Vec::new();
    let out = collect_commitments(d(2026, 5, 22), d(2026, 4, 22), d(2026, 6, 5), &milestones, &stewardships, &commitments, &actions);
    assert_eq!(out.len(), 2);
    assert_eq!(out[0].title, "Chapter one");
    assert_eq!(out[0].date, d(2026, 5, 20));
    assert!(out[0].is_overdue);
    assert_eq!(out[0].source, CommitmentSource::ProjectMilestone("thesis".to_owned()));
    assert_eq!(out[1].title, "Boiler service");
    assert!(!out[1].is_overdue);
    assert_eq!(out[1].source, CommitmentSource::Stewardship("home".to_owned()));
}
