use cdno_domain::date::Date;
use cdno_domain::error::DomainError;
use cdno_domain::frontmatter::{EvidenceFrontmatter, PortfolioFrontmatter};
use cdno_domain::portfolios::{
    append_wikilink_to_section, check_evidence_inputs, check_project_target, kind_from_extension,
    link_destination_escape, link_portfolio_in_section, note_wikilink_target, plan_attachment,
    plan_evidence, plan_portfolio, portfolio_contents, portfolio_index_path,
    portfolio_project_field, portfolio_slug_from_path, render_attachment_stub, summarize_portfolios,
    yaml_double_quoted_escape, EvidenceNote, PortfolioNote,
};

fn d(y: i32, m: u32, day: u32) -> Date {
    Date { year: y, month: m, day }
}

fn evidence(portfolio: &str, created: Date) -> EvidenceFrontmatter {
    EvidenceFrontmatter {
        created,
        source: "s".to_owned(),
        portfolio: portfolio.to_owned(),
        origin: "[[projects/x]]".to_owned(),
        kind: None,
    }
}

#[test]
fn wikilink_target_drops_md() {
    assert_eq!(note_wikilink_target("questions/research/foo.md"), "questions/research/foo");
    assert_eq!(note_wikilink_target("portfolios/a/_index.md"), "portfolios/a/_index");
    assert_eq!(note_wikilink_target("no-extension"), "no-extension");
}

#[test]
fn index_path_and_slug() {
    assert_eq!(portfolio_index_path("surrogates"), "portfolios/surrogates/_index.md");
    assert_eq!(portfolio_slug_from_path("portfolios/surrogates/_index.md"), "surrogates");
    assert_eq!(portfolio_slug_from_path("orphan.md"), "");
}

#[test]
fn append_wikilink_adds_then_is_idempotent() {
    let once = append_wikilink_to_section("", "questions/research/why").unwrap();
    assert_eq!(once, "- [[questions/research/why]]\n\n");
    assert_eq!(append_wikilink_to_section(&once, "questions/research/why"), None);
    let two = append_wikilink_to_section("- [[a]]\n\n", "b").unwrap();
    assert_eq!(two, "- [[a]]\n- [[b]]\n\n");
    // A slug that is a prefix of another is still added.
    assert!(append_wikilink_to_section("- [[foo-bar]]\n", "foo").is_some());
    // A hand-annotated bullet counts as present.
    assert_eq!(append_wikilink_to_section("- [[b]] (primary angle)\n", "b"), None);
}

#[test]
fn project_links_replace_placeholder() {
    let first = link_portfolio_in_section("- Portfolio: (none yet)\n\n", "portfolios/p/_index").unwrap();
    assert_eq!(first, "- Portfolio: [[portfolios/p/_index]]\n\n");
    assert_eq!(link_portfolio_in_section(&first, "portfolios/p/_index"), None);
    let second = link_portfolio_in_section(&first, "portfolios/q/_index").unwrap();
    assert_eq!(
        second,
        "- Portfolio: [[portfolios/p/_index]]\n- Portfolio: [[portfolios/q/_index]]\n\n"
    );
}

#[test]
fn kinds_by_extension() {
    assert_eq!(kind_from_extension("paper.PDF"), "pdf");
    assert_eq!(kind_from_extension("plot.png"), "image");
    assert_eq!(kind_from_extension("talk.mkv"), "video");
    assert_eq!(kind_from_extension("memo.m4a"), "audio");
    assert_eq!(kind_from_extension("thesis.typ"), "typst");
    assert_eq!(kind_from_extension("thesis.tex"), "latex");
    assert_eq!(kind_from_extension("data.csv"), "file");
    assert_eq!(kind_from_extension(".bashrc"), "file");
    assert_eq!(kind_from_extension("README"), "file");
}

#[test]
fn escapes() {
    assert_eq!(yaml_double_quoted_escape(r#"say "hi" \o/"#), r#"say \"hi\" \\o/"#);
    assert_eq!(link_destination_escape(r"a<b>\c"), r"a\<b\>\\c");
}

#[test]
fn attachment_stub_layout() {
    let stub = render_attachment_stub(
        &d(2026, 3, 7),
        "Smith \"2024\"",
        "surrogates",
        "projects/x",
        "pdf",
        "2026-03-07-smith-2024",
        "paper one.pdf",
        "  ",
    );
    let expected = "---\ntype: evidence\ncreated: 2026-03-07\nsource: \"Smith \\\"2024\\\"\"\nportfolio: surrogates\norigin: \"[[projects/x]]\"\nkind: pdf\n---\n\n# Smith \"2024\"\n\n## Attachment\n\n[paper one.pdf](<./2026-03-07-smith-2024/paper one.pdf>)\n\n## Abstract\n\n_Abstract pending \u{2014} describe the artefact so it's findable._\n";
    assert_eq!(stub, expected);
}

#[test]
fn evidence_input_errors() {
    assert_eq!(
        check_evidence_inputs("  ", "x").err(),
        Some(DomainError::EmptyField { field: "source" })
    );
    assert_eq!(
        check_evidence_inputs("s", " ").err(),
        Some(DomainError::EmptyField { field: "origin" })
    );
    assert_eq!(
        check_evidence_inputs("s", "[[projects/x]]").err(),
        Some(DomainError::MalformedWikilink { value: "[[projects/x]]".to_owned() })
    );
    let ok = check_evidence_inputs(" Smith 2024 ", " projects/x ").unwrap();
    assert_eq!(ok.source, "Smith 2024");
    assert_eq!(ok.origin, "projects/x");
}

#[test]
fn evidence_plan_paths() {
    let p = plan_evidence(&d(2026, 3, 7), "surrogates", "Smith et al. 2024", "projects/x").unwrap();
    assert_eq!(p.index_path, "portfolios/surrogates/_index.md");
    assert_eq!(p.path, "portfolios/surrogates/2026-03-07-smith-et-al-2024.md");
}

#[test]
fn attachment_plan() {
    let p = plan_attachment(&d(2026, 3, 7), "surrogates", Some("fig.PNG"), "Figure 1", "projects/x", "A plot.\n")
        .unwrap();
    assert_eq!(p.stub_path, "portfolios/surrogates/2026-03-07-figure-1.md");
    assert_eq!(p.artefact_dest, "portfolios/surrogates/2026-03-07-figure-1/fig.PNG");
    assert!(p.stub.contains("kind: image\n"));
    assert!(p.stub.ends_with("## Abstract\n\nA plot.\n"));
    assert_eq!(
        plan_attachment(&d(2026, 3, 7), "s", None, "a", "b", "").err(),
        Some(DomainError::EmptyField { field: "attach" })
    );
    assert_eq!(
        plan_attachment(&d(2026, 3, 7), "s", Some(""), "a", "b", "").err(),
        Some(DomainError::EmptyField { field: "attach" })
    );
    assert_eq!(
        plan_attachment(&d(2026, 3, 7), "s", Some("f.pdf"), "", "b", "").err(),
        Some(DomainError::EmptyField { field: "source" })
    );
}

#[test]
fn portfolio_plan_and_fields() {
    let p = plan_portfolio("  Can surrogates replace CFD?  ").unwrap();
    assert_eq!(p.question, "Can surrogates replace CFD?");
    assert_eq!(p.slug, "can-surrogates-replace-cfd");
    assert_eq!(p.path, "portfolios/can-surrogates-replace-cfd/_index.md");
    assert_eq!(plan_portfolio(" ").err(), Some(DomainError::EmptyField { field: "question" }));
    assert_eq!(portfolio_project_field(Some("projects/x")), "\"[[projects/x]]\"");
    assert_eq!(portfolio_project_field(None), "null");
    assert_eq!(check_project_target(" projects/x "), Ok("projects/x".to_owned()));
    assert_eq!(check_project_target(""), Err(DomainError::EmptyField { field: "project" }));
    assert_eq!(
        check_project_target("[[projects/x]]"),
        Err(DomainError::MalformedWikilink { value: "[[projects/x]]".to_owned() })
    );
}

#[test]
fn summaries_sorted_with_counts_and_staleness() {
    let notes = vec![
        PortfolioNote {
            path: "portfolios/zeta/_index.md".to_owned(),
            frontmatter: PortfolioFrontmatter { question: "Z?".to_owned(), created: d(2026, 1, 1), project: None },
        },
        PortfolioNote {
            path: "portfolios/alpha/_index.md".to_owned(),
            frontmatter: PortfolioFrontmatter { question: "A?".to_owned(), created: d(2026, 1, 1), project: None },
        },
    ];
    let ev = vec![
        evidence("alpha", d(2026, 3, 1)),
        evidence("alpha", d(2026, 3, 5)),
        evidence("other", d(2026, 3, 9)),
    ];
    let out = summarize_portfolios(d(2026, 3, 10), &notes, &ev);
    assert_eq!(out.len(), 2);
    assert_eq!(out[0].slug, "alpha");
    assert_eq!(out[0].question, "A?");
    assert_eq!(out[0].evidence_count, 2);
    assert_eq!(out[0].last_updated, Some(d(2026, 3, 5)));
    assert_eq!(out[0].staleness_days, Some(5));
    assert_eq!(out[1].slug, "zeta");
    assert_eq!(out[1].evidence_count, 0);
    assert_eq!(out[1].last_updated, None);
    assert_eq!(out[1].staleness_days, None);
}

#[test]
fn contents_most_recent_first_then_path() {
    let mk = |path: &str, p: &str, c: Date| EvidenceNote { path: path.to_owned(), frontmatter: evidence(p, c) };
    let ev = vec![
        mk("portfolios/a/2026-01-01-x.md", "a", d(2026, 1, 1)),
        mk("portfolios/b/2026-02-01-y.md", "b", d(2026, 2, 1)),
        mk("portfolios/a/2026-03-01-z.md", "a", d(2026, 3, 1)),
        mk("portfolios/a/2026-01-01-a.md", "a", d(2026, 1, 1)),
    ];
    assert_eq!(portfolio_contents("a", &ev), vec![2, 3, 0]);
    assert_eq!(portfolio_contents("missing", &ev), Vec::<usize>::new());
}
