//! Portfolios and the evidence filed into them: where their notes live,
//! the two-way links between portfolios, questions and projects, the
//! markdown stub written beside an attached artefact, and the summary
//! and contents listings.

use vstd::prelude::*;

use crate::date::{days_between, format_ymd_chars, ymd_text, Date};
use crate::error::DomainError;
use crate::frontmatter::{EvidenceFrontmatter, PortfolioFrontmatter};
use crate::projects::actions::{append_bullet, append_bullet_exec};
use crate::slug::{slugify, slugify_spec};
use crate::stewardships::{file_name, file_name_of, parent, parent_of};
use crate::text::{
    find_char_from, has_char, lemma_find_char_from, occurs_at, split_char, ascii_lower_seq, ascii_lower_vec, chars_of, contains, contains_exec, eq_exec,
    lemma_rfind_upto, lines, lines_exec, push_all, rfind, rfind_exec, seq_lt, seq_lt_exec,
    slice_of, string_of, strip_suffix, strip_suffix_exec, trim, trim_end, trim_end_of, trim_of,
};

verus! {

/// Folder that holds one sub-folder per portfolio.
pub const PORTFOLIOS_DIR: &'static str = "portfolios";

/// Heading in a question note listing the portfolios that collect
/// evidence against it.
pub const RELATED_PORTFOLIOS_SECTION: &'static str = "Related Portfolios";

/// Heading in a portfolio index listing the questions it collects
/// evidence against.
pub const RELATED_QUESTIONS_SECTION: &'static str = "Related Questions";

/// Heading in a project map listing the portfolios filed under it.
pub const PROJECT_LINKS_SECTION: &'static str = "Links";

/// The bullet a fresh project map carries in its links section; the first
/// portfolio link replaces it.
pub const PROJECT_LINKS_PLACEHOLDER: &'static str = "- Portfolio: (none yet)";

/// The wikilink target of a note: its path without the `.md` extension.
pub open spec fn wikilink_target(path: Seq<char>) -> Seq<char> {
    match strip_suffix(path, ".md"@) {
        Some(t) => t,
        None => path,
    }
}

/// `[[target]]`.
pub open spec fn wikilink(target: Seq<char>) -> Seq<char> {
    "[["@ + target + "]]"@
}

pub fn wikilink_exec(target: &Vec<char>) -> (r: Vec<char>)
    ensures
        r@ == wikilink(target@),
{
    let mut r = chars_of("[[");
    push_all(&mut r, target);
    push_all(&mut r, &chars_of("]]"));
    r
}

/// The bare wikilink target for a note path: `questions/research/foo.md`
/// becomes `questions/research/foo`.
pub fn note_wikilink_target(path: &str) -> (r: String)
    ensures
        r@ == wikilink_target(path@),
{
    let p = chars_of(path);
    match strip_suffix_exec(&p, &chars_of(".md")) {
        Some(t) => string_of(&t),
        None => string_of(&p),
    }
}

/// `portfolios/<portfolio>/_index.md`.
pub open spec fn portfolio_index(portfolio: Seq<char>) -> Seq<char> {
    "portfolios/"@ + portfolio + "/_index.md"@
}

/// Path of the index note of the portfolio `portfolio`.
pub fn portfolio_index_path(portfolio: &str) -> (r: String)
    ensures
        r@ == portfolio_index(portfolio@),
{
    let mut v = chars_of("portfolios/");
    push_all(&mut v, &chars_of(portfolio));
    push_all(&mut v, &chars_of("/_index.md"));
    string_of(&v)
}

/// The slug of a portfolio: the name of the folder holding its
/// `_index.md`; empty for a path with no parent folder.
pub open spec fn portfolio_slug(path: Seq<char>) -> Seq<char> {
    file_name(parent(path))
}

pub fn portfolio_slug_from_path(path: &str) -> (r: String)
    ensures
        r@ == portfolio_slug(path@),
{
    string_of(&file_name_of(&parent_of(&chars_of(path))))
}

/// Whether some line of `text` contains `marker`.
pub open spec fn some_line_contains(text: Seq<char>, marker: Seq<char>) -> bool {
    exists|k: int| 0 <= k < lines(text).len() && contains(#[trigger] lines(text)[k], marker)
}

pub fn some_line_contains_exec(text: &Vec<char>, marker: &Vec<char>) -> (b: bool)
    ensures
        b == some_line_contains(text@, marker@),
{
    let ls = lines_exec(text);
    let ghost l = lines(text@);
    let mut i: usize = 0;
    while i < ls.len()
        invariant
            i <= ls@.len(),
            ls@.len() == l.len(),
            l == lines(text@),
            forall|k: int| 0 <= k < ls@.len() ==> #[trigger] ls@[k]@ == l[k],
            forall|k: int| 0 <= k < i ==> !contains(#[trigger] l[k], marker@),
        decreases ls@.len() - i,
    {
        assert(ls@[i as int]@ == l[i as int]);
        if contains_exec(&ls[i], marker) {
            return true;
        }
        i = i + 1;
    }
    false
}

/// A section after a `- [[target]]` bullet is added to it, or `None` when
/// a line already carries `[[target]]` (linking twice adds nothing).
pub open spec fn section_with_wikilink(section: Seq<char>, target: Seq<char>) -> Option<Seq<char>> {
    if some_line_contains(trim_end(section), wikilink(target)) {
        None
    } else {
        Some(append_bullet(section, "- "@ + wikilink(target)))
    }
}

/// Append a `- [[target]]` bullet to a section, unless a line of it
/// already contains `[[target]]`.
pub fn append_wikilink_to_section(section: &str, target: &str) -> (r: Option<String>)
    ensures
        match section_with_wikilink(section@, target@) {
            Some(t) => r matches Some(s) && s@ == t,
            None => r is None,
        },
{
    let s = chars_of(section);
    let marker = wikilink_exec(&chars_of(target));
    if some_line_contains_exec(&trim_end_of(&s), &marker) {
        return None;
    }
    let mut bullet = chars_of("- ");
    push_all(&mut bullet, &marker);
    Some(string_of(&append_bullet_exec(&s, &bullet)))
}

/// A project map's links section after the bullet
/// `- Portfolio: [[target]]` is added, or `None` when a line already
/// carries `[[target]]`. The bullet replaces the placeholder a fresh map
/// ships with.
pub open spec fn links_with_portfolio(section: Seq<char>, target: Seq<char>) -> Option<Seq<char>> {
    let existing = trim_end(section);
    let bullet = "- Portfolio: "@ + wikilink(target);
    if some_line_contains(existing, wikilink(target)) {
        None
    } else if existing.len() == 0 || existing == PROJECT_LINKS_PLACEHOLDER@ {
        Some(bullet + "\n\n"@)
    } else {
        Some(existing + "\n"@ + bullet + "\n\n"@)
    }
}

/// Add a link to a portfolio under a project map's links section.
pub fn link_portfolio_in_section(section: &str, target: &str) -> (r: Option<String>)
    ensures
        match links_with_portfolio(section@, target@) {
            Some(t) => r matches Some(s) && s@ == t,
            None => r is None,
        },
{
    let existing = trim_end_of(&chars_of(section));
    let marker = wikilink_exec(&chars_of(target));
    if some_line_contains_exec(&existing, &marker) {
        return None;
    }
    let mut bullet = chars_of("- Portfolio: ");
    push_all(&mut bullet, &marker);
    if existing.len() == 0 || eq_exec(&existing, &chars_of(PROJECT_LINKS_PLACEHOLDER)) {
        push_all(&mut bullet, &chars_of("\n\n"));
        Some(string_of(&bullet))
    } else {
        let mut r = existing;
        push_all(&mut r, &chars_of("\n"));
        push_all(&mut r, &bullet);
        push_all(&mut r, &chars_of("\n\n"));
        Some(string_of(&r))
    }
}

/// The extension of a file name, as `Path::extension` reads it: the text
/// after the last `.`, unless that dot opens the name (a dot-file) or the
/// name is `..`.
pub open spec fn extension(name: Seq<char>) -> Option<Seq<char>> {
    if name == ".."@ {
        None
    } else {
        match rfind(name, seq!['.']) {
            Some(i) => if i == 0 {
                None
            } else {
                Some(name.skip(i + 1))
            },
            None => None,
        }
    }
}

/// The `kind` of an attached artefact, from its lower-cased extension.
pub open spec fn attachment_kind(name: Seq<char>) -> Seq<char> {
    let e = match extension(name) {
        Some(x) => ascii_lower_seq(x),
        None => Seq::empty(),
    };
    if e == "pdf"@ {
        "pdf"@
    } else if e == "png"@ || e == "jpg"@ || e == "jpeg"@ || e == "gif"@ || e == "webp"@ || e
        == "svg"@ || e == "heic"@ || e == "tiff"@ || e == "bmp"@ {
        "image"@
    } else if e == "mp4"@ || e == "mov"@ || e == "webm"@ || e == "mkv"@ || e == "avi"@ {
        "video"@
    } else if e == "mp3"@ || e == "wav"@ || e == "m4a"@ || e == "flac"@ || e == "ogg"@ {
        "audio"@
    } else if e == "typ"@ {
        "typst"@
    } else if e == "tex"@ {
        "latex"@
    } else {
        "file"@
    }
}

fn extension_of(name: &Vec<char>) -> (r: Vec<char>)
    ensures
        r@ == match extension(name@) {
            Some(x) => x,
            None => Seq::empty(),
        },
{
    if eq_exec(name, &chars_of("..")) {
        return Vec::new();
    }
    let dot = vec!['.'];
    assert(dot@ =~= seq!['.']);
    let n = name.len();
    match rfind_exec(name, &dot) {
        Some(i) => {
            proof {
                lemma_rfind_upto(name@, dot@, name@.len() - 1);
            }
            if i == 0 {
                Vec::new()
            } else {
                slice_of(name, i + 1, n)
            }
        },
        None => Vec::new(),
    }
}

/// Classify an attachment by the extension of its file name (a single
/// path component) into the `kind` field of its evidence stub. Unknown
/// extensions give `file`.
pub fn kind_from_extension(filename: &str) -> (r: &'static str)
    ensures
        r@ == attachment_kind(filename@),
{
    let e = ascii_lower_vec(&extension_of(&chars_of(filename)));
    assert(e@ == match extension(filename@) {
        Some(x) => ascii_lower_seq(x),
        None => Seq::empty(),
    });
    if eq_exec(&e, &chars_of("pdf")) {
        "pdf"
    } else if eq_exec(&e, &chars_of("png")) || eq_exec(&e, &chars_of("jpg")) || eq_exec(
        &e,
        &chars_of("jpeg"),
    ) || eq_exec(&e, &chars_of("gif")) || eq_exec(&e, &chars_of("webp")) || eq_exec(
        &e,
        &chars_of("svg"),
    ) || eq_exec(&e, &chars_of("heic")) || eq_exec(&e, &chars_of("tiff")) || eq_exec(
        &e,
        &chars_of("bmp"),
    ) {
        "image"
    } else if eq_exec(&e, &chars_of("mp4")) || eq_exec(&e, &chars_of("mov")) || eq_exec(
        &e,
        &chars_of("webm"),
    ) || eq_exec(&e, &chars_of("mkv")) || eq_exec(&e, &chars_of("avi")) {
        "video"
    } else if eq_exec(&e, &chars_of("mp3")) || eq_exec(&e, &chars_of("wav")) || eq_exec(
        &e,
        &chars_of("m4a"),
    ) || eq_exec(&e, &chars_of("flac")) || eq_exec(&e, &chars_of("ogg")) {
        "audio"
    } else if eq_exec(&e, &chars_of("typ")) {
        "typst"
    } else if eq_exec(&e, &chars_of("tex")) {
        "latex"
    } else {
        "file"
    }
}

/// `\` and `"` escaped for a double-quoted YAML scalar.
pub open spec fn yaml_escape(s: Seq<char>) -> Seq<char>
    decreases s.len(),
{
    if s.len() == 0 {
        Seq::empty()
    } else {
        let c = s.last();
        yaml_escape(s.drop_last()) + if c == '\\' || c == '"' {
            seq!['\\', c]
        } else {
            seq![c]
        }
    }
}

/// `\`, `<` and `>` escaped for an angle-bracketed link destination.
pub open spec fn link_escape(s: Seq<char>) -> Seq<char>
    decreases s.len(),
{
    if s.len() == 0 {
        Seq::empty()
    } else {
        let c = s.last();
        link_escape(s.drop_last()) + if c == '\\' || c == '<' || c == '>' {
            seq!['\\', c]
        } else {
            seq![c]
        }
    }
}

/// Escape `\` and `"` so a value can sit inside a double-quoted YAML
/// scalar.
pub fn yaml_double_quoted_escape(s: &str) -> (r: String)
    ensures
        r@ == yaml_escape(s@),
{
    let v = chars_of(s);
    let mut out: Vec<char> = Vec::new();
    let mut i: usize = 0;
    while i < v.len()
        invariant
            i <= v@.len(),
            out@ == yaml_escape(v@.take(i as int)),
        decreases v@.len() - i,
    {
        assert(v@.take(i + 1).drop_last() =~= v@.take(i as int));
        let c = v[i];
        if c == '\\' || c == '"' {
            out.push('\\');
        }
        out.push(c);
        i = i + 1;
    }
    assert(v@.take(v@.len() as int) =~= v@);
    string_of(&out)
}

/// Escape `\`, `<` and `>` so a file name can sit inside `<…>` as a
/// CommonMark link destination.
pub fn link_destination_escape(s: &str) -> (r: String)
    ensures
        r@ == link_escape(s@),
{
    let v = chars_of(s);
    let mut out: Vec<char> = Vec::new();
    let mut i: usize = 0;
    while i < v.len()
        invariant
            i <= v@.len(),
            out@ == link_escape(v@.take(i as int)),
        decreases v@.len() - i,
    {
        assert(v@.take(i + 1).drop_last() =~= v@.take(i as int));
        let c = v[i];
        if c == '\\' || c == '<' || c == '>' {
            out.push('\\');
        }
        out.push(c);
        i = i + 1;
    }
    assert(v@.take(v@.len() as int) =~= v@);
    string_of(&out)
}

/// Prose of an attachment stub whose abstract is left blank.
pub const ABSTRACT_PENDING: &'static str = "_Abstract pending — describe the artefact so it's findable._";

/// The markdown stub filed beside an artefact: evidence frontmatter with
/// its `kind`, the source as H1, a relative link to the artefact in the
/// sibling folder, and the abstract.
pub open spec fn attachment_stub(
    created: Date,
    source: Seq<char>,
    portfolio: Seq<char>,
    origin: Seq<char>,
    kind: Seq<char>,
    evidence_slug: Seq<char>,
    filename: Seq<char>,
    abstract_body: Seq<char>,
) -> Seq<char> {
    let abstract_section = if trim(abstract_body).len() == 0 {
        ABSTRACT_PENDING@
    } else {
        trim_end(abstract_body)
    };
    "---\ntype: evidence\ncreated: "@ + ymd_text(created) + "\nsource: \""@ + yaml_escape(source)
        + "\"\nportfolio: "@ + portfolio + "\norigin: \"[["@ + yaml_escape(origin)
        + "]]\"\nkind: "@ + kind + "\n---\n\n# "@ + source + "\n\n## Attachment\n\n["@ + filename
        + "](<./"@ + evidence_slug + "/"@ + link_escape(filename) + ">)\n\n## Abstract\n\n"@
        + abstract_section + "\n"@
}

/// Render the markdown stub of an attached artefact.
pub fn render_attachment_stub(
    created: &Date,
    source: &str,
    portfolio: &str,
    origin: &str,
    kind: &str,
    evidence_slug: &str,
    filename: &str,
    abstract_body: &str,
) -> (r: String)
    requires
        created.wf(),
    ensures
        r@ == attachment_stub(
            *created,
            source@,
            portfolio@,
            origin@,
            kind@,
            evidence_slug@,
            filename@,
            abstract_body@,
        ),
{
    let body = chars_of(abstract_body);
    let abstract_section = if trim_of(&body).len() == 0 {
        chars_of(ABSTRACT_PENDING)
    } else {
        trim_end_of(&body)
    };
    let mut v = chars_of("---\ntype: evidence\ncreated: ");
    push_all(&mut v, &format_ymd_chars(created));
    push_all(&mut v, &chars_of("\nsource: \""));
    push_all(&mut v, &chars_of(yaml_double_quoted_escape(source).as_str()));
    push_all(&mut v, &chars_of("\"\nportfolio: "));
    push_all(&mut v, &chars_of(portfolio));
    push_all(&mut v, &chars_of("\norigin: \"[["));
    push_all(&mut v, &chars_of(yaml_double_quoted_escape(origin).as_str()));
    push_all(&mut v, &chars_of("]]\"\nkind: "));
    push_all(&mut v, &chars_of(kind));
    push_all(&mut v, &chars_of("\n---\n\n# "));
    push_all(&mut v, &chars_of(source));
    push_all(&mut v, &chars_of("\n\n## Attachment\n\n["));
    push_all(&mut v, &chars_of(filename));
    push_all(&mut v, &chars_of("](<./"));
    push_all(&mut v, &chars_of(evidence_slug));
    push_all(&mut v, &chars_of("/"));
    push_all(&mut v, &chars_of(link_destination_escape(filename).as_str()));
    push_all(&mut v, &chars_of(">)\n\n## Abstract\n\n"));
    push_all(&mut v, &abstract_section);
    push_all(&mut v, &chars_of("\n"));
    string_of(&v)
}

/// Whether a link target is already wrapped, or half-wrapped, in `[[…]]`.
pub open spec fn bracketed(t: Seq<char>) -> bool {
    contains(t, "[["@) || contains(t, "]]"@)
}

fn bracketed_exec(t: &Vec<char>) -> (b: bool)
    ensures
        b == bracketed(t@),
{
    contains_exec(t, &chars_of("[[")) || contains_exec(t, &chars_of("]]"))
}

/// The checked citation and provenance of a piece of evidence, trimmed.
pub struct EvidenceInputs {
    pub source: String,
    pub origin: String,
}

/// The outcome of checking the `source` and `origin` of new evidence:
/// both must be non-blank, and `origin` a bare wikilink target.
pub open spec fn evidence_inputs_ok(
    source: Seq<char>,
    origin: Seq<char>,
    r: Result<EvidenceInputs, DomainError>,
) -> bool {
    let s = trim(source);
    let o = trim(origin);
    if s.len() == 0 {
        r matches Err(DomainError::EmptyField { field: f }) && f@ == "source"@
    } else if o.len() == 0 {
        r matches Err(DomainError::EmptyField { field: f }) && f@ == "origin"@
    } else if bracketed(o) {
        r matches Err(DomainError::MalformedWikilink { value: v }) && v@ == o
    } else {
        r matches Ok(x) && x.source@ == s && x.origin@ == o
    }
}

/// Check the `source` and `origin` of new evidence.
pub fn check_evidence_inputs(source: &str, origin: &str) -> (r: Result<EvidenceInputs, DomainError>)
    ensures
        evidence_inputs_ok(source@, origin@, r),
{
    let s = trim_of(&chars_of(source));
    let o = trim_of(&chars_of(origin));
    if s.len() == 0 {
        return Err(DomainError::EmptyField { field: "source" });
    }
    if o.len() == 0 {
        return Err(DomainError::EmptyField { field: "origin" });
    }
    if bracketed_exec(&o) {
        return Err(DomainError::MalformedWikilink { value: string_of(&o) });
    }
    Ok(EvidenceInputs { source: string_of(&s), origin: string_of(&o) })
}

/// `<YYYY-MM-DD>-<slug of source>`: the stem of an evidence note.
pub open spec fn evidence_slug(created: Date, source: Seq<char>) -> Seq<char> {
    ymd_text(created) + "-"@ + slugify_spec(source)
}

pub fn evidence_slug_exec(created: &Date, source: &str) -> (r: String)
    requires
        created.wf(),
    ensures
        r@ == evidence_slug(*created, source@),
{
    let mut v = format_ymd_chars(created);
    push_all(&mut v, &chars_of("-"));
    push_all(&mut v, &chars_of(slugify(source).as_str()));
    string_of(&v)
}

/// `portfolios/<portfolio>/<stem>.md`.
pub open spec fn evidence_path(portfolio: Seq<char>, stem: Seq<char>) -> Seq<char> {
    "portfolios/"@ + portfolio + "/"@ + stem + ".md"@
}

/// `portfolios/<portfolio>/<stem>/<filename>`: where an artefact is kept,
/// in the folder named after its stub.
pub open spec fn artefact_path(portfolio: Seq<char>, stem: Seq<char>, filename: Seq<char>) -> Seq<
    char,
> {
    "portfolios/"@ + portfolio + "/"@ + stem + "/"@ + filename
}

fn evidence_path_exec(portfolio: &str, stem: &str) -> (r: String)
    ensures
        r@ == evidence_path(portfolio@, stem@),
{
    let mut v = chars_of("portfolios/");
    push_all(&mut v, &chars_of(portfolio));
    push_all(&mut v, &chars_of("/"));
    push_all(&mut v, &chars_of(stem));
    push_all(&mut v, &chars_of(".md"));
    string_of(&v)
}

/// Where a new evidence note goes, once its inputs are checked.
pub struct EvidencePlan {
    /// Index note of the portfolio, which must exist.
    pub index_path: String,
    /// The evidence note, which must not exist yet.
    pub path: String,
    pub source: String,
    pub origin: String,
}

/// Check the inputs of `file_evidence` and place the note at
/// `portfolios/<portfolio>/<YYYY-MM-DD>-<source slug>.md`.
pub fn plan_evidence(created: &Date, portfolio: &str, source: &str, origin: &str) -> (r: Result<
    EvidencePlan,
    DomainError,
>)
    requires
        created.wf(),
    ensures
        match r {
            Ok(p) => evidence_inputs_ok(
                source@,
                origin@,
                Ok(EvidenceInputs { source: p.source, origin: p.origin }),
            ) && p.index_path@ == portfolio_index(portfolio@) && p.path@ == evidence_path(
                portfolio@,
                evidence_slug(*created, p.source@),
            ),
            Err(e) => evidence_inputs_ok(source@, origin@, Err(e)),
        },
{
    match check_evidence_inputs(source, origin) {
        Err(e) => Err(e),
        Ok(inputs) => {
            let stem = evidence_slug_exec(created, inputs.source.as_str());
            Ok(EvidencePlan {
                index_path: portfolio_index_path(portfolio),
                path: evidence_path_exec(portfolio, stem.as_str()),
                source: inputs.source,
                origin: inputs.origin,
            })
        },
    }
}

/// Everything `file_attachment` writes, once its inputs are checked.
pub struct AttachmentPlan {
    /// Index note of the portfolio, which must exist.
    pub index_path: String,
    /// The markdown stub, which must not exist yet.
    pub stub_path: String,
    /// Where the artefact is copied, which must not exist yet.
    pub artefact_dest: String,
    /// Content of the stub.
    pub stub: String,
}

/// Check the inputs of `file_attachment` (the artefact's file name is
/// `None` when its path has none) and lay out the stub and the artefact's
/// destination.
pub fn plan_attachment(
    created: &Date,
    portfolio: &str,
    file_name: Option<&str>,
    source: &str,
    origin: &str,
    abstract_body: &str,
) -> (r: Result<AttachmentPlan, DomainError>)
    requires
        created.wf(),
    ensures
        ({
            let checked = trim(source@).len() > 0 && trim(origin@).len() > 0 && !bracketed(
                trim(origin@),
            );
            if !checked {
                r matches Err(e) && evidence_inputs_ok(source@, origin@, Err(e))
            } else {
                match file_name {
                    Some(n) if n@.len() > 0 => {
                        let stem = evidence_slug(*created, trim(source@));
                        r matches Ok(p) && p.index_path@ == portfolio_index(portfolio@)
                            && p.stub_path@ == evidence_path(portfolio@, stem) && p.artefact_dest@
                            == artefact_path(portfolio@, stem, n@) && p.stub@ == attachment_stub(
                            *created,
                            trim(source@),
                            portfolio@,
                            trim(origin@),
                            attachment_kind(n@),
                            stem,
                            n@,
                            abstract_body@,
                        )
                    },
                    _ => r matches Err(DomainError::EmptyField { field: f }) && f@ == "attach"@,
                }
            }
        }),
{
    let inputs = match check_evidence_inputs(source, origin) {
        Err(e) => {
            return Err(e);
        },
        Ok(i) => i,
    };
    let name = match file_name {
        Some(n) => if chars_of(n).len() > 0 {
            n
        } else {
            return Err(DomainError::EmptyField { field: "attach" });
        },
        None => {
            return Err(DomainError::EmptyField { field: "attach" });
        },
    };
    let stem = evidence_slug_exec(created, inputs.source.as_str());
    let mut dest = chars_of("portfolios/");
    push_all(&mut dest, &chars_of(portfolio));
    push_all(&mut dest, &chars_of("/"));
    push_all(&mut dest, &chars_of(stem.as_str()));
    push_all(&mut dest, &chars_of("/"));
    push_all(&mut dest, &chars_of(name));
    let kind = kind_from_extension(name);
    let stub = render_attachment_stub(
        created,
        inputs.source.as_str(),
        portfolio,
        inputs.origin.as_str(),
        kind,
        stem.as_str(),
        name,
        abstract_body,
    );
    Ok(AttachmentPlan {
        index_path: portfolio_index_path(portfolio),
        stub_path: evidence_path_exec(portfolio, stem.as_str()),
        artefact_dest: string_of(&dest),
        stub,
    })
}

/// The question and location of a new portfolio.
pub struct NewPortfolio {
    /// The question, trimmed.
    pub question: String,
    pub slug: String,
    /// `portfolios/<slug>/_index.md`.
    pub path: String,
}

/// Check the question of `create_portfolio` and place the portfolio by
/// the slug of its question.
pub fn plan_portfolio(question: &str) -> (r: Result<NewPortfolio, DomainError>)
    ensures
        ({
            let q = trim(question@);
            if q.len() == 0 {
                r matches Err(DomainError::EmptyField { field: f }) && f@ == "question"@
            } else {
                r matches Ok(p) && p.question@ == q && p.slug@ == slugify_spec(q) && p.path@
                    == portfolio_index(slugify_spec(q))
            }
        }),
{
    let q = trim_of(&chars_of(question));
    if q.len() == 0 {
        return Err(DomainError::EmptyField { field: "question" });
    }
    let question = string_of(&q);
    let slug = slugify(question.as_str());
    let path = portfolio_index_path(slug.as_str());
    Ok(NewPortfolio { question, slug, path })
}

/// The `project:` value of a portfolio: a quoted wikilink, or `null`.
pub open spec fn project_field(project: Option<Seq<char>>) -> Seq<char> {
    match project {
        Some(t) => "\""@ + wikilink(t) + "\""@,
        None => "null"@,
    }
}

/// Render the `project:` frontmatter value of a portfolio.
pub fn portfolio_project_field(project: Option<&str>) -> (r: String)
    ensures
        r@ == project_field(
            match project {
                Some(t) => Some(t@),
                None => None,
            },
        ),
{
    match project {
        Some(t) => {
            let mut v = chars_of("\"");
            push_all(&mut v, &wikilink_exec(&chars_of(t)));
            push_all(&mut v, &chars_of("\""));
            string_of(&v)
        },
        None => "null".to_owned(),
    }
}

/// Check the project target of `link_portfolio_to_project`: trimmed, not
/// blank, and bare. The project note is `<target>.md`.
pub fn check_project_target(project: &str) -> (r: Result<String, DomainError>)
    ensures
        ({
            let t = trim(project@);
            if t.len() == 0 {
                r matches Err(DomainError::EmptyField { field: f }) && f@ == "project"@
            } else if bracketed(t) {
                r matches Err(DomainError::MalformedWikilink { value: v }) && v@ == t
            } else {
                r matches Ok(s) && s@ == t
            }
        }),
{
    let t = trim_of(&chars_of(project));
    if t.len() == 0 {
        return Err(DomainError::EmptyField { field: "project" });
    }
    if bracketed_exec(&t) {
        return Err(DomainError::MalformedWikilink { value: string_of(&t) });
    }
    Ok(string_of(&t))
}

/// A portfolio index note as read from the store.
pub struct PortfolioNote {
    pub path: String,
    pub frontmatter: PortfolioFrontmatter,
}

/// One row of the portfolio listing: the evidence filed into a portfolio
/// (by the `portfolio` field of each evidence note), the most recent
/// `created` date among it, and the days from that date to today.
#[derive(Debug, Clone, PartialEq, Eq)]
pub struct PortfolioSummary {
    pub slug: String,
    pub question: String,
    pub evidence_count: usize,
    pub last_updated: Option<Date>,
    pub staleness_days: Option<i64>,
}

pub struct PortfolioSummaryView {
    pub slug: Seq<char>,
    pub question: Seq<char>,
    pub evidence_count: nat,
    pub last_updated: Option<Date>,
    pub staleness_days: Option<int>,
}

pub open spec fn portfolio_summary_view(s: PortfolioSummary) -> PortfolioSummaryView {
    PortfolioSummaryView {
        slug: s.slug@,
        question: s.question@,
        evidence_count: s.evidence_count as nat,
        last_updated: s.last_updated,
        staleness_days: match s.staleness_days {
            Some(d) => Some(d as int),
            None => None,
        },
    }
}

pub open spec fn portfolio_summary_views(v: Seq<PortfolioSummary>) -> Seq<PortfolioSummaryView> {
    v.map_values(|s: PortfolioSummary| portfolio_summary_view(s))
}

/// How many evidence notes name `slug` as their portfolio.
pub open spec fn evidence_count(ev: Seq<EvidenceFrontmatter>, slug: Seq<char>) -> nat
    decreases ev.len(),
{
    if ev.len() == 0 {
        0
    } else {
        evidence_count(ev.drop_last(), slug) + if ev.last().portfolio@ == slug {
            1nat
        } else {
            0nat
        }
    }
}

/// The latest `created` date among the evidence filed into `slug`.
pub open spec fn latest_evidence(ev: Seq<EvidenceFrontmatter>, slug: Seq<char>) -> Option<Date>
    decreases ev.len(),
{
    if ev.len() == 0 {
        None
    } else {
        let prev = latest_evidence(ev.drop_last(), slug);
        let e = ev.last();
        if e.portfolio@ == slug {
            match prev {
                Some(p) => if p.le(e.created) {
                    Some(e.created)
                } else {
                    Some(p)
                },
                None => Some(e.created),
            }
        } else {
            prev
        }
    }
}

pub open spec fn portfolio_summary_of(
    n: PortfolioNote,
    ev: Seq<EvidenceFrontmatter>,
    today: Date,
) -> PortfolioSummaryView {
    let slug = portfolio_slug(n.path@);
    let last = latest_evidence(ev, slug);
    PortfolioSummaryView {
        slug,
        question: n.frontmatter.question@,
        evidence_count: evidence_count(ev, slug),
        last_updated: last,
        staleness_days: match last {
            Some(d) => Some(today.num() - d.num()),
            None => None,
        },
    }
}

pub open spec fn insert_portfolio_by_slug(
    s: Seq<PortfolioSummaryView>,
    e: PortfolioSummaryView,
) -> Seq<PortfolioSummaryView>
    decreases s.len(),
{
    if s.len() == 0 {
        seq![e]
    } else if seq_lt(e.slug, s.last().slug) {
        insert_portfolio_by_slug(s.drop_last(), e).push(s.last())
    } else {
        s.push(e)
    }
}

/// The summaries of `notes`, stably sorted by slug.
pub open spec fn sorted_portfolio_summaries(
    notes: Seq<PortfolioNote>,
    ev: Seq<EvidenceFrontmatter>,
    today: Date,
) -> Seq<PortfolioSummaryView>
    decreases notes.len(),
{
    if notes.len() == 0 {
        Seq::empty()
    } else {
        insert_portfolio_by_slug(
            sorted_portfolio_summaries(notes.drop_last(), ev, today),
            portfolio_summary_of(notes.last(), ev, today),
        )
    }
}

fn count_and_latest_evidence(ev: &Vec<EvidenceFrontmatter>, slug: &Vec<char>) -> (r: (
    usize,
    Option<Date>,
))
    ensures
        r.0 == evidence_count(ev@, slug@),
        r.1 == latest_evidence(ev@, slug@),
        r.1 matches Some(d) ==> exists|k: int| 0 <= k < ev@.len() && ev@[k].created == d,
{
    let mut count: usize = 0;
    let mut last: Option<Date> = None;
    let mut i: usize = 0;
    while i < ev.len()
        invariant
            i <= ev@.len(),
            count <= i,
            count == evidence_count(ev@.take(i as int), slug@),
            last == latest_evidence(ev@.take(i as int), slug@),
            last matches Some(d) ==> exists|k: int| 0 <= k < i && ev@[k].created == d,
        decreases ev@.len() - i,
    {
        assert(ev@.take(i + 1).drop_last() =~= ev@.take(i as int));
        assert(ev@.take(i + 1).last() == ev@[i as int]);
        let e = &ev[i];
        if eq_exec(&chars_of(e.portfolio.as_str()), slug) {
            count = count + 1;
            last = match last {
                Some(p) => if p.is_on_or_before(&e.created) {
                    Some(e.created)
                } else {
                    Some(p)
                },
                None => Some(e.created),
            };
        }
        i = i + 1;
    }
    assert(ev@.take(ev@.len() as int) =~= ev@);
    (count, last)
}

fn insert_portfolio_summary(v: &mut Vec<PortfolioSummary>, e: PortfolioSummary)
    ensures
        portfolio_summary_views(final(v)@) == insert_portfolio_by_slug(
            portfolio_summary_views(old(v)@),
            portfolio_summary_view(e),
        ),
{
    let ghost s = portfolio_summary_views(v@);
    let ghost ev = portfolio_summary_view(e);
    let es = chars_of(e.slug.as_str());
    let mut p = v.len();
    assert(s.take(p as int) =~= s);
    assert(s.skip(p as int) =~= Seq::<PortfolioSummaryView>::empty());
    loop
        invariant
            p <= v@.len(),
            s == portfolio_summary_views(v@),
            es@ == ev.slug,
            insert_portfolio_by_slug(s, ev) == insert_portfolio_by_slug(s.take(p as int), ev)
                + s.skip(p as int),
        ensures
            p <= v@.len(),
            insert_portfolio_by_slug(s, ev) == insert_portfolio_by_slug(s.take(p as int), ev)
                + s.skip(p as int),
            p == 0 || !seq_lt(ev.slug, s[p - 1].slug),
        decreases p,
    {
        if p == 0 {
            break;
        }
        let q = p - 1;
        assert(s[q as int].slug == v@[q as int].slug@);
        if !seq_lt_exec(&es, &chars_of(v[q].slug.as_str())) {
            break;
        }
        let ghost t = s.take(p as int);
        assert(t.last() == s[q as int]);
        assert(t.drop_last() =~= s.take(q as int));
        assert(insert_portfolio_by_slug(s.take(q as int), ev).push(s[q as int]) + s.skip(p as int)
            =~= insert_portfolio_by_slug(s.take(q as int), ev) + s.skip(q as int));
        p = q;
    }
    proof {
        let t = s.take(p as int);
        if p > 0 {
            assert(t.last() == s[p - 1]);
        }
        assert(insert_portfolio_by_slug(t, ev) =~= t.push(ev));
    }
    v.insert(p, e);
    assert(portfolio_summary_views(v@) =~= s.take(p as int).push(ev) + s.skip(p as int));
}

/// One summary per portfolio index note, sorted by slug.
pub fn summarize_portfolios(
    today: Date,
    notes: &Vec<PortfolioNote>,
    evidence: &Vec<EvidenceFrontmatter>,
) -> (r: Vec<PortfolioSummary>)
    requires
        today.wf(),
        forall|k: int| 0 <= k < evidence@.len() ==> (#[trigger] evidence@[k]).created.wf(),
    ensures
        portfolio_summary_views(r@) == sorted_portfolio_summaries(notes@, evidence@, today),
{
    let mut out: Vec<PortfolioSummary> = Vec::new();
    let mut i: usize = 0;
    while i < notes.len()
        invariant
            i <= notes@.len(),
            today.wf(),
            forall|k: int| 0 <= k < evidence@.len() ==> (#[trigger] evidence@[k]).created.wf(),
            portfolio_summary_views(out@) == sorted_portfolio_summaries(
                notes@.take(i as int),
                evidence@,
                today,
            ),
        decreases notes@.len() - i,
    {
        let n = &notes[i];
        assert(notes@.take(i + 1).drop_last() =~= notes@.take(i as int));
        assert(notes@.take(i + 1).last() == *n);
        let slug = portfolio_slug_from_path(n.path.as_str());
        let (count, last) = count_and_latest_evidence(evidence, &chars_of(slug.as_str()));
        let staleness = match last {
            Some(d) => Some(days_between(&today, &d)),
            None => None,
        };
        let question = string_of(&chars_of(n.frontmatter.question.as_str()));
        let e = PortfolioSummary {
            slug,
            question,
            evidence_count: count,
            last_updated: last,
            staleness_days: staleness,
        };
        assert(portfolio_summary_view(e) == portfolio_summary_of(*n, evidence@, today));
        insert_portfolio_summary(&mut out, e);
        i = i + 1;
    }
    assert(notes@.take(notes@.len() as int) =~= notes@);
    out
}

/// An evidence note as read from the store.
pub struct EvidenceNote {
    pub path: String,
    pub frontmatter: EvidenceFrontmatter,
}

/// Whether path `a` sorts strictly before path `b`: by code point, with
/// `/` before every other character, which for normalised relative paths
/// is the order of `Path` comparison, component by component.
pub open spec fn path_lt(a: Seq<char>, b: Seq<char>) -> bool
    decreases a.len(),
{
    if a.len() == 0 {
        b.len() > 0
    } else if b.len() == 0 {
        false
    } else if a[0] != b[0] {
        a[0] == '/' || (b[0] != '/' && (a[0] as u32) < (b[0] as u32))
    } else {
        path_lt(a.drop_first(), b.drop_first())
    }
}

pub fn path_lt_exec(a: &Vec<char>, b: &Vec<char>) -> (r: bool)
    ensures
        r == path_lt(a@, b@),
{
    let mut i: usize = 0;
    assert(a@.skip(0) =~= a@);
    assert(b@.skip(0) =~= b@);
    while i < a.len() && i < b.len()
        invariant
            i <= a@.len(),
            i <= b@.len(),
            path_lt(a@, b@) == path_lt(a@.skip(i as int), b@.skip(i as int)),
        decreases a@.len() - i,
    {
        let ghost sa = a@.skip(i as int);
        let ghost sb = b@.skip(i as int);
        assert(sa[0] == a@[i as int]);
        assert(sb[0] == b@[i as int]);
        if a[i] != b[i] {
            return a[i] == '/' || (b[i] != '/' && (a[i] as u32) < (b[i] as u32));
        }
        assert(sa.drop_first() =~= a@.skip(i + 1));
        assert(sb.drop_first() =~= b@.skip(i + 1));
        i = i + 1;
    }
    i < b.len()
}

/// Whether evidence `a` is listed before evidence `b`: more recent first,
/// then by path.
pub open spec fn listed_before(a: EvidenceNote, b: EvidenceNote) -> bool {
    b.frontmatter.created.lt(a.frontmatter.created) || (a.frontmatter.created
        == b.frontmatter.created && path_lt(a.path@, b.path@))
}

/// Insert index `i` into the listing `s` of indices into `ev`, after every
/// entry it is not listed before.
pub open spec fn insert_listed(ev: Seq<EvidenceNote>, s: Seq<int>, i: int) -> Seq<int>
    decreases s.len(),
{
    if s.len() == 0 {
        seq![i]
    } else if listed_before(ev[i], ev[s.last()]) {
        insert_listed(ev, s.drop_last(), i).push(s.last())
    } else {
        s.push(i)
    }
}

/// Indices of the first `n` entries of `ev` filed into `portfolio`, in
/// listing order (a stable sort of them).
pub open spec fn contents_order(ev: Seq<EvidenceNote>, portfolio: Seq<char>, n: int) -> Seq<int>
    decreases n,
{
    if n <= 0 {
        Seq::empty()
    } else {
        let prev = contents_order(ev, portfolio, n - 1);
        if ev[n - 1].frontmatter.portfolio@ == portfolio {
            insert_listed(ev, prev, n - 1)
        } else {
            prev
        }
    }
}

pub open spec fn usize_ints(v: Seq<usize>) -> Seq<int> {
    v.map_values(|x: usize| x as int)
}

fn listed_before_exec(a: &EvidenceNote, b: &EvidenceNote) -> (r: bool)
    ensures
        r == listed_before(*a, *b),
{
    let (x, y) = (&a.frontmatter.created, &b.frontmatter.created);
    y.is_before(x) || (x.year == y.year && x.month == y.month && x.day == y.day && path_lt_exec(
        &chars_of(a.path.as_str()),
        &chars_of(b.path.as_str()),
    ))
}

fn insert_listed_exec(ev: &Vec<EvidenceNote>, v: &mut Vec<usize>, i: usize)
    requires
        i < ev@.len(),
        forall|k: int| 0 <= k < old(v)@.len() ==> (#[trigger] old(v)@[k]) < ev@.len(),
    ensures
        usize_ints(final(v)@) == insert_listed(ev@, usize_ints(old(v)@), i as int),
        forall|k: int| 0 <= k < final(v)@.len() ==> (#[trigger] final(v)@[k]) < ev@.len(),
{
    let ghost s = usize_ints(v@);
    let mut p = v.len();
    assert(s.take(p as int) =~= s);
    assert(s.skip(p as int) =~= Seq::<int>::empty());
    loop
        invariant
            p <= v@.len(),
            i < ev@.len(),
            s == usize_ints(v@),
            forall|k: int| 0 <= k < v@.len() ==> (#[trigger] v@[k]) < ev@.len(),
            insert_listed(ev@, s, i as int) == insert_listed(ev@, s.take(p as int), i as int)
                + s.skip(p as int),
        ensures
            p <= v@.len(),
            insert_listed(ev@, s, i as int) == insert_listed(ev@, s.take(p as int), i as int)
                + s.skip(p as int),
            p == 0 || !listed_before(ev@[i as int], ev@[s[p - 1]]),
        decreases p,
    {
        if p == 0 {
            break;
        }
        let q = p - 1;
        assert(s[q as int] == v@[q as int] as int);
        if !listed_before_exec(&ev[i], &ev[v[q]]) {
            break;
        }
        let ghost t = s.take(p as int);
        assert(t.last() == s[q as int]);
        assert(t.drop_last() =~= s.take(q as int));
        assert(insert_listed(ev@, s.take(q as int), i as int).push(s[q as int]) + s.skip(p as int)
            =~= insert_listed(ev@, s.take(q as int), i as int) + s.skip(q as int));
        p = q;
    }
    proof {
        let t = s.take(p as int);
        if p > 0 {
            assert(t.last() == s[p - 1]);
        }
        assert(insert_listed(ev@, t, i as int) =~= t.push(i as int));
    }
    v.insert(p, i);
    assert(usize_ints(v@) =~= s.take(p as int).push(i as int) + s.skip(p as int));
}

/// The evidence filed into `portfolio`, as indices into `evidence`: most
/// recent first, ties broken by path, entries of equal key kept in their
/// given order.
pub fn portfolio_contents(portfolio: &str, evidence: &Vec<EvidenceNote>) -> (r: Vec<usize>)
    ensures
        usize_ints(r@) == contents_order(evidence@, portfolio@, evidence@.len() as int),
        forall|k: int| 0 <= k < r@.len() ==> (#[trigger] r@[k]) < evidence@.len(),
{
    let p = chars_of(portfolio);
    let mut out: Vec<usize> = Vec::new();
    let mut i: usize = 0;
    while i < evidence.len()
        invariant
            i <= evidence@.len(),
            p@ == portfolio@,
            usize_ints(out@) == contents_order(evidence@, portfolio@, i as int),
            forall|k: int| 0 <= k < out@.len() ==> (#[trigger] out@[k]) < evidence@.len(),
        decreases evidence@.len() - i,
    {
        if eq_exec(&chars_of(evidence[i].frontmatter.portfolio.as_str()), &p) {
            insert_listed_exec(evidence, &mut out, i);
        }
        i = i + 1;
    }
    out
}

proof fn lemma_split_without_sep(s: Seq<char>, c: char)
    requires
        !has_char(s, c),
    ensures
        split_char(s, c) == seq![s],
{
    lemma_find_char_from(s, c, 0);
    if find_char_from(s, c, 0) is Some {
        let k = find_char_from(s, c, 0)->0;
        assert(s[k] == c);
    }
}

proof fn lemma_split_last_piece(y: Seq<char>, b: Seq<char>, c: char)
    requires
        !has_char(b, c),
    ensures
        split_char(y + seq![c] + b, c).len() >= 2,
        split_char(y + seq![c] + b, c).last() == b,
    decreases y.len(),
{
    let s = y + seq![c] + b;
    lemma_find_char_from(s, c, 0);
    assert(s[y.len() as int] == c);
    let i = find_char_from(s, c, 0)->0;
    assert(i <= y.len());
    if i == y.len() {
        assert(s.take(i) =~= y);
        assert(s.skip(i + 1) =~= b);
        lemma_split_without_sep(b, c);
    } else {
        let y2 = y.skip(i + 1);
        assert(s.skip(i + 1) =~= y2 + seq![c] + b);
        lemma_split_last_piece(y2, b, c);
    }
}

/// The lines of `pre + "\n" + b`, for a line `b` with no line break, end
/// with `b`; so do the lines of `b` alone.
proof fn lemma_last_line(pre: Option<Seq<char>>, b: Seq<char>)
    requires
        !has_char(b, '\n'),
        b.len() > 0,
    ensures
        ({
            let s = match pre {
                Some(x) => x + seq!['\n'] + b,
                None => b,
            };
            lines(s).len() > 0 && lines(s).last() == b
        }),
{
    match pre {
        Some(x) => {
            lemma_split_last_piece(x, b, '\n');
        },
        None => {
            lemma_split_without_sep(b, '\n');
        },
    }
}

/// A bullet appended after `pre` (and a blank line) sits, trimmed, on the
/// last line of the section, so a marker it carries is found on a line.
proof fn lemma_appended_bullet_found(pre: Option<Seq<char>>, bullet: Seq<char>, marker: Seq<char>, at: int)
    requires
        !has_char(bullet, '\n'),
        bullet.len() > 0,
        !crate::text::is_ws(bullet.last()),
        occurs_at(bullet, marker, at),
    ensures
        some_line_contains(
            trim_end(
                match pre {
                    Some(x) => x + "\n"@ + bullet + "\n\n"@,
                    None => bullet + "\n\n"@,
                },
            ),
            marker,
        ),
{
    reveal_strlit("\n");
    reveal_strlit("\n\n");
    let body = match pre {
        Some(x) => x + seq!['\n'] + bullet,
        None => bullet,
    };
    let s2 = match pre {
        Some(x) => x + "\n"@ + bullet + "\n\n"@,
        None => bullet + "\n\n"@,
    };
    assert(s2 =~= body + seq!['\n', '\n']);
    let n = s2.len() as int;
    assert(s2[n - 1] == '\n' && s2[n - 2] == '\n');
    assert(s2[n - 3] == bullet.last());
    assert(crate::text::end_non_ws(s2, n - 2) == n - 2);
    assert(crate::text::end_non_ws(s2, n - 1) == n - 2);
    assert(crate::text::end_non_ws(s2, n) == n - 2);
    assert(trim_end(s2) =~= body);
    lemma_last_line(pre, bullet);
    let ls = lines(body);
    assert(ls.last() == bullet);
    crate::text::lemma_find_from(bullet, marker, 0);
    assert(contains(ls[ls.len() - 1], marker));
}

/// Linking a portfolio, question or project twice adds one bullet: once
/// the link is in a section, adding it again finds it and changes nothing
/// (for a target without a line break).
pub proof fn lemma_wikilink_idempotent(section: Seq<char>, target: Seq<char>)
    requires
        !has_char(target, '\n'),
    ensures
        section_with_wikilink(section, target) matches Some(s2) ==> section_with_wikilink(
            s2,
            target,
        ) is None,
{
    reveal_strlit("- ");
    reveal_strlit("[[");
    reveal_strlit("]]");
    let existing = trim_end(section);
    let marker = wikilink(target);
    let bullet = "- "@ + marker;
    if section_with_wikilink(section, target) is Some {
        assert(occurs_at(bullet, marker, 2)) by {
            assert(bullet.subrange(2, 2 + marker.len() as int) =~= marker);
        }
        assert(!has_char(bullet, '\n')) by {
            assert forall|i: int| 0 <= i < bullet.len() implies bullet[i] != '\n' by {
                if 4 <= i < 4 + target.len() {
                    assert(bullet[i] == target[i - 4]);
                }
            }
        }
        assert(bullet.last() == ']');
        if existing.len() == 0 {
            lemma_appended_bullet_found(None, bullet, marker, 2);
        } else {
            lemma_appended_bullet_found(Some(existing), bullet, marker, 2);
        }
    }
}

/// Linking a portfolio under a project twice adds one bullet (for a
/// target without a line break).
pub proof fn lemma_project_link_idempotent(section: Seq<char>, target: Seq<char>)
    requires
        !has_char(target, '\n'),
    ensures
        links_with_portfolio(section, target) matches Some(s2) ==> links_with_portfolio(
            s2,
            target,
        ) is None,
{
    reveal_strlit("- Portfolio: ");
    reveal_strlit("[[");
    reveal_strlit("]]");
    let existing = trim_end(section);
    let marker = wikilink(target);
    let bullet = "- Portfolio: "@ + marker;
    if links_with_portfolio(section, target) is Some {
        assert(occurs_at(bullet, marker, 13)) by {
            assert(bullet.subrange(13, 13 + marker.len() as int) =~= marker);
        }
        assert(!has_char(bullet, '\n')) by {
            assert forall|i: int| 0 <= i < bullet.len() implies bullet[i] != '\n' by {
                if 15 <= i < 15 + target.len() {
                    assert(bullet[i] == target[i - 15]);
                }
            }
        }
        assert(bullet.last() == ']');
        if existing.len() == 0 || existing == PROJECT_LINKS_PLACEHOLDER@ {
            lemma_appended_bullet_found(None, bullet, marker, 13);
        } else {
            lemma_appended_bullet_found(Some(existing), bullet, marker, 13);
        }
    }
}

/// Whether the summaries are in non-decreasing slug order.
pub open spec fn sorted_by_slug(s: Seq<PortfolioSummaryView>) -> bool {
    forall|i: int, j: int| 0 <= i < j < s.len() ==> !seq_lt(#[trigger] s[j].slug, #[trigger] s[i].slug)
}

proof fn lemma_insert_portfolio_sorted(s: Seq<PortfolioSummaryView>, e: PortfolioSummaryView)
    requires
        sorted_by_slug(s),
    ensures
        sorted_by_slug(insert_portfolio_by_slug(s, e)),
        insert_portfolio_by_slug(s, e).to_multiset() == s.to_multiset().insert(e),
    decreases s.len(),
{
    broadcast use vstd::seq_lib::group_to_multiset_ensures;

    if s.len() == 0 {
        assert(seq![e] =~= Seq::<PortfolioSummaryView>::empty().push(e));
    } else if seq_lt(e.slug, s.last().slug) {
        let t = s.drop_last();
        lemma_insert_portfolio_sorted(t, e);
        let u = insert_portfolio_by_slug(t, e);
        let r = u.push(s.last());
        assert forall|i: int, j: int| 0 <= i < j < r.len() implies !seq_lt(
            #[trigger] r[j].slug,
            #[trigger] r[i].slug,
        ) by {
            if j == r.len() - 1 {
                if u[i] == e {
                    crate::text::lemma_seq_lt_asym(e.slug, s.last().slug);
                } else {
                    assert(u.to_multiset().count(u[i]) > 0);
                    assert(t.to_multiset().count(u[i]) > 0);
                    assert(t.contains(u[i]));
                    let k = choose|k: int| 0 <= k < t.len() && t[k] == u[i];
                    assert(s[k] == t[k]);
                }
            } else {
                assert(u[j] == r[j] && u[i] == r[i]);
            }
        }
        assert(s =~= t.push(s.last()));
    } else {
        let r = s.push(e);
        assert forall|i: int, j: int| 0 <= i < j < r.len() implies !seq_lt(
            #[trigger] r[j].slug,
            #[trigger] r[i].slug,
        ) by {
            if j == s.len() {
                crate::text::lemma_seq_lt_split(e.slug, s.last().slug, s[i].slug);
                if i < s.len() - 1 {
                    assert(!seq_lt(s[s.len() - 1].slug, s[i].slug));
                }
            } else {
                assert(s[j] == r[j] && s[i] == r[i]);
            }
        }
    }
}

/// The portfolio listing holds one summary per index note and is sorted by
/// slug.
pub proof fn lemma_portfolio_listing_sorted(
    notes: Seq<PortfolioNote>,
    ev: Seq<EvidenceFrontmatter>,
    today: Date,
)
    ensures
        sorted_by_slug(sorted_portfolio_summaries(notes, ev, today)),
        sorted_portfolio_summaries(notes, ev, today).to_multiset() == notes.map_values(
            |n: PortfolioNote| portfolio_summary_of(n, ev, today),
        ).to_multiset(),
    decreases notes.len(),
{
    broadcast use vstd::seq_lib::group_to_multiset_ensures;

    if notes.len() > 0 {
        let rest = notes.drop_last();
        lemma_portfolio_listing_sorted(rest, ev, today);
        lemma_insert_portfolio_sorted(
            sorted_portfolio_summaries(rest, ev, today),
            portfolio_summary_of(notes.last(), ev, today),
        );
        let f = |n: PortfolioNote| portfolio_summary_of(n, ev, today);
        assert(notes.map_values(f) =~= rest.map_values(f).push(f(notes.last())));
    }
}

} // verus!
