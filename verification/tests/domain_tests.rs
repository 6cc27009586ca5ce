use cdno_domain::context::{monday_of_iso_week, parse_state_changes};
use cdno_domain::date::{parse_hm, Date, Time};
use cdno_domain::note_ref::{NoteRef, PeriodRef, RelativeDay};
use cdno_domain::queries::{daily_note_date, week_days};
use cdno_domain::error::DomainError;
use cdno_domain::journal::{daily_scaffold, format_log_line, iso_week_label, mondays_in_month, monthly_scaffold};
use cdno_domain::projects::milestones::{add_milestone_to_section, parse_open_milestone_title};
use cdno_domain::projects::milestones::format_milestone_dropped_log_entry;
use cdno_domain::projects::state::{flatten_for_log, format_state_change_log_entry, plan_state_update, StateOverflow, StateUpdate};
use cdno_domain::projects::waiting::{add_waiting_on_to_section, resolve_waiting_on_in_section};
use cdno_domain::recurrence::{ParseRecurrenceError, Recurrence};
use cdno_domain::slug::{disambiguate_slug, slugify};
use cdno_domain::text::lowercase_vec;

fn d(y: i32, m: u32, day: u32) -> Date {
    Date { year: y, month: m, day }
}

#[test]
fn dates_through_chrono() {
    let day = daily_scaffold(&d(2026, 3, 7));
    assert_eq!(day.date, "2026-03-07");
    assert_eq!(day.weekday, "Saturday");
    assert_eq!(daily_scaffold(&d(12, 1, 2)).date, "0012-01-02");
    assert_eq!(daily_scaffold(&d(2026, 6, 28)).weekday, "Sunday");
    assert_eq!(monthly_scaffold(&d(2026, 6, 28)).month_name, "June");
    assert_eq!(daily_note_date("journal/2026/daily/2026-03-07.md"), Some(d(2026, 3, 7)));
    assert_eq!(daily_note_date("journal/2026/daily/2026-02-30.md"), None);
    assert_eq!(daily_note_date("journal/2026/daily/nope.md"), None);
    // Day arithmetic across a month end, a leap day and a year end.
    assert_eq!(week_days(&d(2026, 3, 1))[6], d(2026, 3, 1));
    assert_eq!(week_days(&d(2026, 3, 1))[5], d(2026, 2, 28));
    assert_eq!(week_days(&d(2028, 2, 28))[1], d(2028, 2, 29));
    assert_eq!(week_days(&d(2026, 1, 1))[2], d(2025, 12, 31));
    assert_eq!(RelativeDay::Yesterday.resolve(d(2026, 1, 1)), d(2025, 12, 31));
    assert_eq!(RelativeDay::Tomorrow.resolve(d(2026, 2, 28)), d(2026, 3, 1));
    // Weekdays: Monday of the week holding a Sunday.
    assert_eq!(monday_of_iso_week(&d(2026, 4, 12)), Some(d(2026, 4, 6)));
    assert_eq!(monday_of_iso_week(&d(2026, 4, 6)), Some(d(2026, 4, 6)));
    assert_eq!(iso_week_label(&d(2025, 12, 29)), "2026-W01");
    assert_eq!(parse_hm("09:05"), Some(Time { hour: 9, minute: 5 }));
    assert_eq!(parse_hm("25:00"), None);
    assert_eq!(format_log_line(9, 5, "hello"), "- **09:05**: hello\n");
    let mondays = mondays_in_month(&d(2026, 6, 15));
    assert_eq!(mondays, vec![d(2026, 6, 1), d(2026, 6, 8), d(2026, 6, 15), d(2026, 6, 22), d(2026, 6, 29)]);
}

#[test]
fn note_refs_by_shape() {
    let types = vec!["project".to_owned()];
    assert_eq!(
        NoteRef::parse("project:foo", &types),
        NoteRef::Typed { note_type: "project".to_owned(), slug: "foo".to_owned() }
    );
    assert_eq!(NoteRef::parse("other:foo", &types), NoteRef::Bare("other:foo".to_owned()));
    assert_eq!(NoteRef::parse(" today ", &types), NoteRef::Relative(RelativeDay::Today));
    assert_eq!(NoteRef::parse("project:today", &types), NoteRef::Typed {
        note_type: "project".to_owned(),
        slug: "today".to_owned(),
    });
    assert_eq!(NoteRef::parse("2026-03-07", &types), NoteRef::Date(d(2026, 3, 7)));
    assert_eq!(NoteRef::parse("2026-W01", &types), NoteRef::Period(PeriodRef::Week(d(2025, 12, 29))));
    assert_eq!(NoteRef::parse("2026-W1", &types), NoteRef::Bare("2026-W1".to_owned()));
    assert_eq!(NoteRef::parse("2026-W54", &types), NoteRef::Bare("2026-W54".to_owned()));
    assert_eq!(NoteRef::parse("-2147483648-W01", &types), NoteRef::Bare("-2147483648-W01".to_owned()));
    assert_eq!(NoteRef::parse("2026-06", &types), NoteRef::Period(PeriodRef::Month(d(2026, 6, 1))));
    assert_eq!(NoteRef::parse("projects/x.md", &types), NoteRef::Path("projects/x.md".to_owned()));
    assert_eq!(NoteRef::parse("x.md", &types), NoteRef::Path("x.md".to_owned()));
    assert_eq!(NoteRef::parse("groceries", &types), NoteRef::Bare("groceries".to_owned()));
}

#[test]
fn lowercase_wrapper_changes_text() {
    assert_eq!(lowercase_vec(&vec!['À', 'B']), vec!['à', 'b']);
}

#[test]
fn slugs() {
    assert_eq!(slugify("Buy groceries!"), "buy-groceries");
    assert_eq!(slugify("Crème brûlée"), "crème-brûlée");
    assert_eq!(slugify("ÉTÉ À PARIS"), "été-à-paris");
    let greek = slugify("ΟΔΥΣΣΕΥΣ");
    assert_eq!(greek, greek.to_lowercase());
    assert_eq!(
        slugify("Supercalifragilisticexpialidocious and other extraordinarily long words"),
        "supercalifragilisticexpialidocious-and-other"
    );
    let long_word = "x".repeat(60);
    assert_eq!(slugify(&long_word), "x".repeat(50));
    assert_eq!(slugify("--- a -- b ---"), "a-b");
    assert_eq!(slugify("  ...  "), "untitled");
    assert_eq!(slugify("one two three four five six seven"), "one-two-three-four-five-six");
    let taken = vec!["buy-groceries".to_owned(), "buy-groceries-2".to_owned()];
    assert_eq!(disambiguate_slug("buy-groceries", &taken), Some("buy-groceries-3".to_owned()));
    assert_eq!(disambiguate_slug("fresh", &taken), Some("fresh".to_owned()));
}

#[test]
fn recurrence_round_trip_and_next() {
    for r in [Recurrence::Daily, Recurrence::Weekly, Recurrence::Monthly, Recurrence::EveryNMonths(3), Recurrence::Yearly] {
        assert_eq!(Recurrence::parse(&r.to_text()), Ok(r));
    }
    assert_eq!(Recurrence::Monthly.next_after(d(2026, 1, 31)), d(2026, 2, 28));
    assert_eq!(Recurrence::Weekly.next_after(d(2026, 12, 29)), d(2027, 1, 5));
    assert_eq!(Recurrence::Yearly.next_after(d(2028, 2, 29)), d(2029, 2, 28));
}

#[test]
fn milestones() {
    let e = add_milestone_to_section(
        "- [ ] First milestone \u{2014} target: TBD\n\n",
        "p",
        " Ship v1 ",
        Some(d(2026, 9, 1)),
        true,
    )
    .unwrap();
    assert_eq!(e.section, "- [ ] Ship v1 \u{2014} hard: 2026-09-01\n\n");
    assert_eq!(e.log_entry, "milestone added to [[p]] \u{2014} Ship v1 (hard: 2026-09-01)");
    // What was added reads back as an open milestone under its title.
    let bullet = e.section.lines().next().unwrap();
    assert_eq!(parse_open_milestone_title(bullet), Some("Ship v1".to_owned()));
    let soft = add_milestone_to_section("", "p", "Draft - target: later", None, false).unwrap();
    assert_eq!(soft.section, "- [ ] Draft - target: later \u{2014} target: TBD\n\n");
    let soft_bullet = soft.section.lines().next().unwrap();
    assert_eq!(parse_open_milestone_title(soft_bullet), Some("Draft - target: later".to_owned()));
    assert_eq!(
        add_milestone_to_section("", "p", "X", None, true).err(),
        Some(DomainError::HardMilestoneRequiresDate { slug: "p".to_owned(), title: "X".to_owned() })
    );
    assert_eq!(
        format_milestone_dropped_log_entry("p", "X", Some("no\n longer needed")),
        "milestone dropped on [[p]] \u{2014} X\n  reason: no longer needed"
    );
}

#[test]
fn waiting_add_then_resolve_restores_placeholder() {
    let added = add_waiting_on_to_section("(nothing yet)\n\n", "p", " Alice's review ");
    assert_eq!(added.section, "- Alice's review\n\n");
    assert_eq!(added.log_entry, "waiting added on [[p]] \u{2014} Alice's review");
    let resolved = resolve_waiting_on_in_section(&added.section, "p", "alice").unwrap();
    assert_eq!(resolved.section, "(nothing yet)\n\n");
    assert_eq!(resolved.log_entry, "waiting resolved on [[p]] \u{2014} Alice's review");
    assert!(matches!(
        resolve_waiting_on_in_section("- a\n- ab\n", "p", "a"),
        Err(DomainError::AmbiguousWaitingOn { .. })
    ));
    assert!(matches!(
        resolve_waiting_on_in_section("- a\n", "p", "z"),
        Err(DomainError::WaitingOnNotFound { .. })
    ));
}

#[test]
fn state_updates() {
    assert_eq!(flatten_for_log("a\n  b\tc "), "a b c");
    assert_eq!(
        format_state_change_log_entry("p", "old\nline", "new"),
        "state on [[p]]\n  was: old line\n  now: new"
    );
    assert!(matches!(plan_state_update(" same \n", "p", "same", 0, StateOverflow::Off), Ok(StateUpdate::Unchanged)));
    assert!(matches!(
        plan_state_update("old", "p", "far too long", 3, StateOverflow::Reject),
        Err(DomainError::StateTooLong { chars: 12, max: 3, .. })
    ));
    match plan_state_update("old", "p", " new ", 0, StateOverflow::Off) {
        Ok(StateUpdate::Write { section, log_entry, warning }) => {
            assert_eq!(section, "new\n\n");
            assert_eq!(log_entry, "state on [[p]]\n  was: old\n  now: new");
            assert_eq!(warning, None);
        }
        _ => panic!("expected a write"),
    }
}

#[test]
fn slug_of_a_slug_is_the_same_slug() {
    for text in [
        "Buy groceries!",
        "ÉTÉ À PARIS",
        "one two three four five six seven",
        "Supercalifragilisticexpialidocious and other extraordinarily long words",
        "--- a -- b ---",
        "  ...  ",
    ] {
        let s = slugify(text);
        assert_eq!(slugify(&s), s);
    }
}

#[test]
fn logged_state_change_reads_back() {
    let entry = format_state_change_log_entry("alpha", "old\n  body", "new   state");
    let changes = parse_state_changes(&format!("- **09:30**: {}", entry));
    assert_eq!(changes.len(), 1);
    assert_eq!(changes[0].project, "alpha");
    assert_eq!(changes[0].old_state, flatten_for_log("old\n  body"));
    assert_eq!(changes[0].old_state, "old body");
    assert_eq!(changes[0].new_state, "new state");
    let empty = format_state_change_log_entry("beta", "", "x");
    let changes = parse_state_changes(&format!("- **10:05**: {}", empty));
    assert_eq!(changes.len(), 1);
    assert_eq!(changes[0].old_state, "");
}

#[test]
fn recurrence_phrases_parse_loosely_and_canonically() {
    assert_eq!(Recurrence::parse(" Every 1 Months "), Ok(Recurrence::Monthly));
    assert_eq!(Recurrence::parse("EVERY 4 MONTHS"), Ok(Recurrence::EveryNMonths(4)));
    assert!(Recurrence::parse("every 0 months").is_err());
    assert_eq!(
        Recurrence::parse("fortnightly"),
        Err(ParseRecurrenceError::Unknown("fortnightly".to_owned()))
    );
    let r = Recurrence::parse(" Every 1 Months ").unwrap();
    assert_eq!(Recurrence::parse(&r.to_text()), Ok(r));
}
