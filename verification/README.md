# cdno_domain

The domain rules of the Cuaderno research logbook — a vault of Markdown
notes (projects, actions, questions, portfolios, stewardships, journals,
tracking entries and custom note types) — written in Verus, with each rule
stated as a contract and proved.

The library works on plain values: the text of a note, the lines of a
section, the frontmatter already read. Reading and writing the vault is
left to the caller, which hands the library what it read and writes what
the library returns.

## Layout

- `src/text.rs`, `src/date.rs`, `src/slug.rs`: the text, calendar and slug
  toolkit the rules are written in.
- `src/note_type.rs`, `src/frontmatter/`, `src/type_registry.rs`,
  `src/recurrence.rs`: the vocabulary of note types, their frontmatter and
  the configured types.
- `src/projects/`: project maps — actions, milestones, waiting-on items,
  the current state, the core question, the lifecycle and the summary.
- `src/commitments.rs`, `src/stewardships.rs`, `src/orient.rs`,
  `src/portfolios.rs`, `src/questions.rs`, `src/capture.rs`,
  `src/action_notes.rs`, `src/custom_notes.rs`, `src/tracking.rs`,
  `src/records.rs`, `src/journal.rs`, `src/context.rs`, `src/queries.rs`,
  `src/search.rs`, `src/note_ref.rs`: the rules of each kind of note and of
  the read-side queries.
- `src/frontmatter_edit.rs`, `src/set_frontmatter.rs`, `src/normalise.rs`,
  `src/templating.rs`: editing a frontmatter block line by line, setting a
  declared field, reordering keys, and template placeholders.
- `src/lint.rs`, `src/note_lint.rs`: the validation report.
- `src/*_law.rs`, `src/projects/*_law.rs`: laws that relate several
  operations (normalising twice changes nothing more than once, rewriting
  a field twice leaves the last value, a written periodic line, milestone
  or state change reads back, every journal section parses back from its
  heading, every slug is well shaped, of at most six words and slugifies
  to itself, day numbers order dates, collected commitments stay in their
  window, the lint agrees with the parsers).
- `tests/`: tests on concrete values, run against the compiled library.
- `app/`: the staleness helpers that resolve dates against a caller's
  `chrono` time zone, and the floating-point reduction of tracking
  series, which the library leaves to its caller.

Calls into outside code stand behind small trusted items, each documented
with what its contract claims of the outside function:

- `chrono` (`src/date.rs`): formatting and parsing dates and times, adding
  days, weekdays, day differences, ISO weeks, and month and weekday names.
- `serde_yaml` (`src/set_frontmatter.rs`, `src/custom_notes.rs`,
  `src/frontmatter_edit.rs`): emitting a string, a mapping of strings, or a
  JSON value as a YAML document.
- `serde_json` (`src/frontmatter_edit.rs`): the declared type
  `serde_json::Value` and the conversion `serde_value_of`, which spells the
  library's `JsonValue` out as one (a number's text through
  `serde_json::Number`'s parser) for the YAML emitter in `emit_yaml_json`.
- std (`src/text.rs`, `src/templating.rs`): `String::push`,
  `char::is_alphanumeric`, `str::to_lowercase` and `char::to_uppercase`.
