use cdno_domain::frontmatter::{
    ActionStatus, CommitmentStatus, Context, EnergyLevel, ParseActionStatusError,
    ParseCommitmentStatusError, ParseContextError, ParseEnergyLevelError, ParseQuestionDomainError,
    ParseQuestionStatusError, QuestionDomain, QuestionStatus,
};
use cdno_domain::journal::{DailySection, MonthlySection, WeeklySection};
use cdno_domain::note_type::{NoteType, ParseNoteTypeError};

#[test]
fn names_parse_through_from_str() {
    assert_eq!("blocked".parse::<ActionStatus>(), Ok(ActionStatus::Blocked));
    assert_eq!("Blocked".parse::<ActionStatus>(), Err(ParseActionStatusError("Blocked".to_owned())));
    assert_eq!("completed".parse::<CommitmentStatus>(), Ok(CommitmentStatus::Completed));
    assert_eq!("done".parse::<CommitmentStatus>(), Err(ParseCommitmentStatusError("done".to_owned())));
    assert_eq!("side-project".parse::<Context>(), Ok(Context::SideProject));
    assert_eq!("side_project".parse::<Context>(), Err(ParseContextError("side_project".to_owned())));
    assert_eq!("deep".parse::<EnergyLevel>(), Ok(EnergyLevel::Deep));
    assert_eq!("high".parse::<EnergyLevel>(), Err(ParseEnergyLevelError("high".to_owned())));
    assert_eq!("life".parse::<QuestionDomain>(), Ok(QuestionDomain::Life));
    assert_eq!("work".parse::<QuestionDomain>(), Err(ParseQuestionDomainError("work".to_owned())));
    assert_eq!("answered".parse::<QuestionStatus>(), Ok(QuestionStatus::Answered));
    assert_eq!("open".parse::<QuestionStatus>(), Err(ParseQuestionStatusError("open".to_owned())));
    assert_eq!("project".parse::<NoteType>(), Ok(NoteType::Project));
    assert_eq!("projects".parse::<NoteType>(), Err(ParseNoteTypeError("projects".to_owned())));
}

#[test]
fn section_names_parse_through_from_str() {
    assert_eq!(" Standup ".parse::<DailySection>(), Ok(DailySection::Standup));
    assert_eq!(
        "notes".parse::<DailySection>(),
        Err("unknown daily section 'notes' (expected one of: standup, intention, agenda, meeting)".to_owned())
    );
    assert_eq!("This-Week's_Goal".parse::<WeeklySection>(), Ok(WeeklySection::ThisWeeksGoal));
    assert_eq!(
        "Losses".parse::<WeeklySection>(),
        Err("unknown weekly section 'losses' (expected one of: wins, challenges, one improvement, this week's goal)".to_owned())
    );
    assert_eq!("next month's focus".parse::<MonthlySection>(), Ok(MonthlySection::NextMonthsFocus));
    assert_eq!(
        "Goals".parse::<MonthlySection>(),
        Err("unknown monthly section 'goals' (expected one of: wins, themes, next month's focus)".to_owned())
    );
}

#[test]
fn key_and_placeholder_lists_are_well_formed() {
    for t in NoteType::ALL {
        let keys = t.frontmatter_order();
        assert_eq!(keys[0], "type");
        for i in 0..keys.len() {
            for j in (i + 1)..keys.len() {
                assert_ne!(keys[i], keys[j]);
            }
        }
        let names = t.supplied_placeholders();
        assert!(!names.contains(&"type"));
        for i in 0..names.len() {
            for j in (i + 1)..names.len() {
                assert_ne!(names[i], names[j]);
            }
        }
    }
    assert_eq!(NoteType::Daily.frontmatter_order()[1], "date");
    assert_eq!(NoteType::Weekly.frontmatter_order()[1], "week");
    assert_eq!(NoteType::Monthly.frontmatter_order()[1], "month");
    assert!(NoteType::Daily.supplied_placeholders().contains(&"weekday"));
    assert!(NoteType::Tracking.supplied_placeholders().contains(&"routine"));
    assert!(!NoteType::Tracking.supplied_placeholders().contains(&"duration_min"));
}

#[test]
fn section_headings_parse_back_in_any_case() {
    for s in [DailySection::Standup, DailySection::Intention, DailySection::Agenda, DailySection::Meeting] {
        assert_eq!(DailySection::parse(s.heading()), Ok(s));
        assert_eq!(DailySection::parse(&s.heading().to_uppercase()), Ok(s));
        assert_ne!(s.heading(), "Logs");
        assert_ne!(s.heading(), "Notes");
    }
    for s in [WeeklySection::Wins, WeeklySection::Challenges, WeeklySection::OneImprovement, WeeklySection::ThisWeeksGoal] {
        assert_eq!(WeeklySection::parse(s.heading()), Ok(s));
        assert_eq!(WeeklySection::parse(&s.heading().to_uppercase()), Ok(s));
    }
    for s in [MonthlySection::Wins, MonthlySection::Themes, MonthlySection::NextMonthsFocus] {
        assert_eq!(MonthlySection::parse(s.heading()), Ok(s));
        assert_eq!(MonthlySection::parse(&s.heading().to_uppercase()), Ok(s));
    }
    assert_eq!(WeeklySection::ThisWeeksGoal.heading(), "This Week's Goal");
    assert_eq!(MonthlySection::NextMonthsFocus.heading(), "Next Month's Focus");
}
