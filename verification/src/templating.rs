//! Templates: the placeholders a note type's template may use, the list
//! of templates and where each one's effective content comes from, and
//! the starter written for a custom type.

use vstd::prelude::*;

use crate::error::DomainError;
use crate::note_type::NoteType;
use crate::type_registry::{
    custom_builtin_placeholders, CustomNoteType, NamedType, NoteTypeDescriptor,
};
use crate::text::{
    chars_of, eq_exec, pair_views, push_all, sort_pairs_by_key, sort_strings, sorted_pairs,
    sorted_seqs, string_of, string_views,
};

verus! {

/// Where custom templates live in a vault.
pub const TEMPLATES_DIR: &'static str = ".cuaderno/templates";

/// Where a placeholder's value comes from.
#[derive(Debug, Clone, PartialEq, Eq)]
pub enum PlaceholderSource {
    /// Filled by the note type's create path.
    Supplied,
    /// A field the type's schema declares.
    Schema,
    /// A static configuration variable.
    Config,
    /// A prompted configuration variable, with its prompt.
    Prompt { message: String },
}

/// A placeholder a template may use, and where its value comes from.
#[derive(Debug, Clone, PartialEq, Eq)]
pub struct TemplatePlaceholder {
    pub name: String,
    pub source: PlaceholderSource,
}

/// Which rung a template's effective content came from.
#[derive(Debug, Clone, Copy, PartialEq, Eq)]
pub enum TemplateSourceKind {
    CustomVariant,
    CustomBase,
    BuiltinVariant,
    BuiltinDefault,
}

/// One row of the template list.
#[derive(Debug, Clone, PartialEq, Eq)]
pub struct TemplateSummary {
    pub note_type: String,
    pub display_name: String,
    pub is_custom_type: bool,
    pub source: Option<TemplateSourceKind>,
    pub has_custom_file: bool,
    pub path: String,
}

/// A template's effective content and its rung.
#[derive(Debug, Clone, PartialEq, Eq)]
pub struct TemplateContent {
    pub content: String,
    pub source: Option<TemplateSourceKind>,
}

/// A placeholder source as plain values.
pub enum SourceView {
    Supplied,
    Schema,
    Config,
    Prompt(Seq<char>),
}

pub open spec fn source_view(s: PlaceholderSource) -> SourceView {
    match s {
        PlaceholderSource::Supplied => SourceView::Supplied,
        PlaceholderSource::Schema => SourceView::Schema,
        PlaceholderSource::Config => SourceView::Config,
        PlaceholderSource::Prompt { message } => SourceView::Prompt(message@),
    }
}

pub open spec fn placeholder_views(v: Seq<TemplatePlaceholder>) -> Seq<(Seq<char>, SourceView)> {
    v.map_values(|p: TemplatePlaceholder| (p.name@, source_view(p.source)))
}

pub open spec fn has_name(out: Seq<(Seq<char>, SourceView)>, name: Seq<char>) -> bool {
    exists|k: int| 0 <= k < out.len() && (#[trigger] out[k]).0 == name
}

/// `out` with `name` added, unless a placeholder of that name is there.
pub open spec fn add_placeholder(
    out: Seq<(Seq<char>, SourceView)>,
    name: Seq<char>,
    src: SourceView,
) -> Seq<(Seq<char>, SourceView)> {
    if has_name(out, name) {
        out
    } else {
        out.push((name, src))
    }
}

pub open spec fn add_names(
    out: Seq<(Seq<char>, SourceView)>,
    names: Seq<Seq<char>>,
    src: SourceView,
) -> Seq<(Seq<char>, SourceView)>
    decreases names.len(),
{
    if names.len() == 0 {
        out
    } else {
        add_placeholder(add_names(out, names.drop_last(), src), names.last(), src)
    }
}

pub open spec fn add_prompts(
    out: Seq<(Seq<char>, SourceView)>,
    prompts: Seq<(Seq<char>, Seq<char>)>,
) -> Seq<(Seq<char>, SourceView)>
    decreases prompts.len(),
{
    if prompts.len() == 0 {
        out
    } else {
        let p = prompts.last();
        add_placeholder(add_prompts(out, prompts.drop_last()), p.0, SourceView::Prompt(p.1))
    }
}

/// The placeholders of a type: its supplied names, then its schema fields
/// (a built-in's sorted, a custom type's required then optional), then the
/// static configuration variables sorted, then the prompted ones that no
/// static variable answers, sorted by name; each name once, the first
/// source to claim it winning.
pub open spec fn placeholders_spec(
    desc: NoteTypeDescriptor,
    schema_fields: Seq<Seq<char>>,
    static_vars: Seq<Seq<char>>,
    prompts: Seq<(Seq<char>, Seq<char>)>,
) -> Seq<(Seq<char>, SourceView)> {
    let o1 = match desc {
        NoteTypeDescriptor::Builtin(nt) => add_names(
            add_names(Seq::empty(), nt.placeholder_names(), SourceView::Supplied),
            sorted_seqs(schema_fields),
            SourceView::Schema,
        ),
        NoteTypeDescriptor::Custom { name: _, def } => add_names(
            add_names(Seq::empty(), custom_builtin_placeholders(), SourceView::Supplied),
            string_views(def.required@) + string_views(def.optional@),
            SourceView::Schema,
        ),
    };
    let o2 = add_names(o1, sorted_seqs(static_vars), SourceView::Config);
    add_prompts(
        o2,
        sorted_pairs(prompts.filter(|p: (Seq<char>, Seq<char>)| !static_vars.contains(p.0))),
    )
}

fn add_exec(out: &mut Vec<TemplatePlaceholder>, name: &Vec<char>, source: PlaceholderSource)
    ensures
        placeholder_views(final(out)@) == add_placeholder(
            placeholder_views(old(out)@),
            name@,
            source_view(source),
        ),
{
    let ghost cur = placeholder_views(out@);
    let mut present = false;
    let mut k: usize = 0;
    while k < out.len()
        invariant
            k <= out@.len(),
            cur == placeholder_views(out@),
            present == (exists|j: int| 0 <= j < k && cur[j].0 == name@),
        decreases out@.len() - k,
    {
        assert(cur[k as int].0 == out@[k as int].name@);
        if eq_exec(&chars_of(out[k].name.as_str()), name) {
            present = true;
        }
        k = k + 1;
    }
    proof {
        if has_name(cur, name@) {
            let j = choose|j: int| 0 <= j < cur.len() && (#[trigger] cur[j]).0 == name@;
            assert(present);
        }
    }
    if !present {
        let ghost sv = source_view(source);
        out.push(TemplatePlaceholder { name: string_of(name), source });
        assert(placeholder_views(out@) =~= cur.push((name@, sv)));
    }
}

fn add_all_exec(out: &mut Vec<TemplatePlaceholder>, names: &Vec<String>, source: PlaceholderSource)
    requires
        !(source is Prompt),
    ensures
        placeholder_views(final(out)@) == add_names(
            placeholder_views(old(out)@),
            string_views(names@),
            source_view(source),
        ),
{
    let ghost base = placeholder_views(out@);
    let ghost nv = string_views(names@);
    let mut i: usize = 0;
    while i < names.len()
        invariant
            i <= names@.len(),
            nv == string_views(names@),
            !(source is Prompt),
            placeholder_views(out@) == add_names(base, nv.take(i as int), source_view(source)),
        decreases names@.len() - i,
    {
        assert(nv.take(i + 1).drop_last() =~= nv.take(i as int));
        assert(nv.take(i + 1).last() == names@[i as int]@);
        let s = match source {
            PlaceholderSource::Supplied => PlaceholderSource::Supplied,
            PlaceholderSource::Schema => PlaceholderSource::Schema,
            PlaceholderSource::Config => PlaceholderSource::Config,
            PlaceholderSource::Prompt { .. } => PlaceholderSource::Config,
        };
        add_exec(out, &chars_of(names[i].as_str()), s);
        i = i + 1;
    }
    assert(nv.take(nv.len() as int) =~= nv);
}

fn literal_names(lits: &[&str]) -> (r: Vec<String>)
    ensures
        string_views(r@) == lits@.map_values(|s: &str| s@),
{
    let mut r: Vec<String> = Vec::new();
    let mut i: usize = 0;
    while i < lits.len()
        invariant
            i <= lits@.len(),
            string_views(r@) == lits@.map_values(|s: &str| s@).take(i as int),
        decreases lits@.len() - i,
    {
        let ghost old_r = string_views(r@);
        r.push(lits[i].to_owned());
        assert(string_views(r@) =~= old_r.push(lits@[i as int]@));
        assert(string_views(r@) =~= lits@.map_values(|s: &str| s@).take(i + 1));
        i = i + 1;
    }
    assert(lits@.map_values(|s: &str| s@).take(lits@.len() as int) =~= lits@.map_values(
        |s: &str| s@,
    ));
    r
}

/// The `{{placeholders}}` a type's template supports and where each value
/// comes from. `schema_fields` are the declared schema fields of a
/// built-in (ignored for a custom type, whose own fields count);
/// `static_vars` and `prompts` are the configuration's variables.
pub fn template_placeholders(
    desc: NoteTypeDescriptor,
    schema_fields: &Vec<String>,
    static_vars: &Vec<String>,
    prompts: &Vec<(String, String)>,
) -> (r: Vec<TemplatePlaceholder>)
    ensures
        placeholder_views(r@) == placeholders_spec(
            desc,
            string_views(schema_fields@),
            string_views(static_vars@),
            pair_views(prompts@),
        ),
{
    let mut out: Vec<TemplatePlaceholder> = Vec::new();
    assert(placeholder_views(out@) =~= Seq::<(Seq<char>, SourceView)>::empty());
    match desc {
        NoteTypeDescriptor::Builtin(nt) => {
            let lits = nt.supplied_placeholders();
            let names = literal_names(lits);
            assert(lits@.map_values(|s: &str| s@) =~= nt.placeholder_names());
            add_all_exec(&mut out, &names, PlaceholderSource::Supplied);
            let sorted = sort_strings(schema_fields);
            add_all_exec(&mut out, &sorted, PlaceholderSource::Schema);
        },
        NoteTypeDescriptor::Custom { def, .. } => {
            let names = literal_names(&["title", "slug", "created", "date"]);
            assert(string_views(names@) =~= custom_builtin_placeholders());
            add_all_exec(&mut out, &names, PlaceholderSource::Supplied);
            add_all_exec(&mut out, &def.required, PlaceholderSource::Schema);
            let ghost mid = placeholder_views(out@);
            add_all_exec(&mut out, &def.optional, PlaceholderSource::Schema);
            proof {
                lemma_add_names_concat(
                    add_names(Seq::empty(), custom_builtin_placeholders(), SourceView::Supplied),
                    string_views(def.required@),
                    string_views(def.optional@),
                    SourceView::Schema,
                );
            }
        },
    }
    let sorted_static = sort_strings(static_vars);
    add_all_exec(&mut out, &sorted_static, PlaceholderSource::Config);
    let ghost sv = string_views(static_vars@);
    let ghost keep = |p: (Seq<char>, Seq<char>)| !sv.contains(p.0);
    let mut filtered: Vec<(String, String)> = Vec::new();
    let mut i: usize = 0;
    while i < prompts.len()
        invariant
            i <= prompts@.len(),
            sv == string_views(static_vars@),
            keep == (|p: (Seq<char>, Seq<char>)| !sv.contains(p.0)),
            pair_views(filtered@) == pair_views(prompts@).take(i as int).filter(keep),
        decreases prompts@.len() - i,
    {
        let ghost pv = pair_views(prompts@);
        proof {
            assert(pv.take(i + 1) =~= pv.take(i as int).push(pv[i as int]));
            pv.take(i as int).lemma_filter_push(pv[i as int], keep);
        }
        let name = chars_of(prompts[i].0.as_str());
        let mut is_static = false;
        let mut k: usize = 0;
        while k < static_vars.len()
            invariant
                k <= static_vars@.len(),
                sv == string_views(static_vars@),
                is_static == (exists|j: int| 0 <= j < k && sv[j] == name@),
            decreases static_vars@.len() - k,
        {
            assert(sv[k as int] == static_vars@[k as int]@);
            if eq_exec(&chars_of(static_vars[k].as_str()), &name) {
                is_static = true;
            }
            k = k + 1;
        }
        proof {
            if sv.contains(name@) {
                let j = choose|j: int| 0 <= j < sv.len() && sv[j] == name@;
                assert(is_static);
            }
            assert(pv[i as int] == (name@, prompts@[i as int].1@));
        }
        if !is_static {
            let ghost old_f = pair_views(filtered@);
            filtered.push((string_of(&name), string_of(&chars_of(prompts[i].1.as_str()))));
            assert(pair_views(filtered@) =~= old_f.push(pv[i as int]));
        }
        i = i + 1;
    }
    assert(pair_views(prompts@).take(prompts@.len() as int) =~= pair_views(prompts@));
    let sorted_prompts = sort_pairs_by_key(&filtered);
    let ghost base = placeholder_views(out@);
    let ghost spv = pair_views(sorted_prompts@);
    let mut j: usize = 0;
    while j < sorted_prompts.len()
        invariant
            j <= sorted_prompts@.len(),
            spv == pair_views(sorted_prompts@),
            placeholder_views(out@) == add_prompts(base, spv.take(j as int)),
        decreases sorted_prompts@.len() - j,
    {
        assert(spv.take(j + 1).drop_last() =~= spv.take(j as int));
        assert(spv.take(j + 1).last() == spv[j as int]);
        let message = string_of(&chars_of(sorted_prompts[j].1.as_str()));
        let ghost mv = message@;
        add_exec(&mut out, &chars_of(sorted_prompts[j].0.as_str()), PlaceholderSource::Prompt { message });
        j = j + 1;
    }
    assert(spv.take(spv.len() as int) =~= spv);
    out
}

proof fn lemma_add_names_concat(
    out: Seq<(Seq<char>, SourceView)>,
    a: Seq<Seq<char>>,
    b: Seq<Seq<char>>,
    src: SourceView,
)
    ensures
        add_names(add_names(out, a, src), b, src) == add_names(out, a + b, src),
    decreases b.len(),
{
    if b.len() == 0 {
        assert(a + b =~= a);
    } else {
        lemma_add_names_concat(out, a, b.drop_last(), src);
        assert((a + b).drop_last() =~= a + b.drop_last());
        assert((a + b).last() == b.last());
    }
}

/// What `char::to_uppercase` yields for `c`, collected into a string.
pub uninterp spec fn unicode_uppercase(c: char) -> Seq<char>;

/// `char::to_uppercase`, collected: the full Unicode upper-case mapping
/// of `c` (which may be several characters). For an ASCII letter it is
/// the ASCII upper-case letter; any other ASCII character maps to
/// itself.
#[verifier::external_body]
fn char_to_uppercase(c: char) -> (r: String)
    ensures
        r@ == unicode_uppercase(c),
        ('a' <= c && c <= 'z') ==> r@ == seq![((c as u32) - 32) as char],
        ((c as u32) < 128 && !('a' <= c && c <= 'z')) ==> r@ == seq![c],
{
    c.to_uppercase().collect::<String>()
}

/// `s` with its first character upper-cased.
pub open spec fn title_case_spec(s: Seq<char>) -> Seq<char> {
    if s.len() == 0 {
        Seq::empty()
    } else {
        unicode_uppercase(s[0]) + s.drop_first()
    }
}

/// Capitalise the first character of a type name for display.
pub fn title_case(s: &str) -> (r: String)
    ensures
        r@ == title_case_spec(s@),
{
    let v = chars_of(s);
    if v.len() == 0 {
        return string_of(&v);
    }
    let mut out = chars_of(char_to_uppercase(v[0]).as_str());
    push_all(&mut out, &crate::text::slice_of(&v, 1, v.len()));
    assert(v@.subrange(1, v@.len() as int) =~= v@.drop_first());
    string_of(&out)
}

/// The template file of a custom type: its configured file, else
/// `<name>.md`.
pub fn custom_template_filename(name: &str, def: &CustomNoteType) -> (r: String)
    ensures
        match def.template {
            Some(t) => r@ == t@,
            None => r@ == name@ + ".md"@,
        },
{
    match &def.template {
        Some(t) => string_of(&chars_of(t.as_str())),
        None => {
            let mut v = chars_of(name);
            push_all(&mut v, &chars_of(".md"));
            string_of(&v)
        },
    }
}

/// The lines `<field>: {{<field>}}` of the required fields.
pub open spec fn required_lines(fields: Seq<Seq<char>>) -> Seq<char>
    decreases fields.len(),
{
    if fields.len() == 0 {
        Seq::empty()
    } else {
        required_lines(fields.drop_last()) + fields.last() + ": {{"@ + fields.last() + "}}\n"@
    }
}

/// The starter template of a custom type: frontmatter with `type` and a
/// placeholder per required field, then a `# {{title}}` heading.
pub open spec fn starter_template(name: Seq<char>, required: Seq<Seq<char>>) -> Seq<char> {
    "---\n"@ + "type: "@ + name + "\n"@ + required_lines(required) + "---\n\n# {{title}}\n"@
}

pub fn custom_starter_template(name: &str, def: &CustomNoteType) -> (r: String)
    ensures
        r@ == starter_template(name@, string_views(def.required@)),
{
    let mut v = chars_of("---\n");
    push_all(&mut v, &chars_of("type: "));
    push_all(&mut v, &chars_of(name));
    push_all(&mut v, &chars_of("\n"));
    let ghost head = v@;
    let ghost rv = string_views(def.required@);
    let mut i: usize = 0;
    while i < def.required.len()
        invariant
            i <= def.required@.len(),
            rv == string_views(def.required@),
            v@ == head + required_lines(rv.take(i as int)),
        decreases def.required@.len() - i,
    {
        assert(rv.take(i + 1).drop_last() =~= rv.take(i as int));
        assert(rv.take(i + 1).last() == def.required@[i as int]@);
        let f = chars_of(def.required[i].as_str());
        push_all(&mut v, &f);
        push_all(&mut v, &chars_of(": {{"));
        push_all(&mut v, &f);
        push_all(&mut v, &chars_of("}}\n"));
        i = i + 1;
    }
    assert(rv.take(rv.len() as int) =~= rv);
    push_all(&mut v, &chars_of("---\n\n# {{title}}\n"));
    string_of(&v)
}

/// `<dir>/<file>` under the templates folder.
pub open spec fn template_path_spec(filename: Seq<char>) -> Seq<char> {
    TEMPLATES_DIR@ + "/"@ + filename
}

pub fn template_path(filename: &str) -> (r: String)
    ensures
        r@ == template_path_spec(filename@),
{
    let mut v = chars_of(TEMPLATES_DIR);
    push_all(&mut v, &chars_of("/"));
    push_all(&mut v, &chars_of(filename));
    string_of(&v)
}

/// The key of a built-in template: the type, or `<type>-<variant>`.
pub open spec fn template_key_spec(note_type: Seq<char>, variant: Option<Seq<char>>) -> Seq<char> {
    match variant {
        Some(v) => note_type + "-"@ + v,
        None => note_type,
    }
}

pub fn template_key(note_type: &str, variant: Option<&str>) -> (r: String)
    ensures
        r@ == template_key_spec(
            note_type@,
            match variant {
                Some(v) => Some(v@),
                None => None,
            },
        ),
{
    let mut v = chars_of(note_type);
    match variant {
        Some(x) => {
            push_all(&mut v, &chars_of("-"));
            push_all(&mut v, &chars_of(x));
        },
        None => {},
    }
    string_of(&v)
}

/// The keys of the built-in templates.
pub open spec fn builtin_template_keys() -> Seq<Seq<char>> {
    seq![
        "project"@,
        "action"@,
        "question"@,
        "stewardship"@,
        "portfolio"@,
        "evidence"@,
        "commitment"@,
        "tracking"@,
        "daily"@,
        "weekly"@,
        "monthly"@,
        "inbox"@,
    ]
}

/// Decide `eject_template`: the key must name a built-in template (else
/// the unknown variant, or the unknown type, is reported), and an
/// existing custom file is kept unless `force`. The path written is
/// returned.
pub fn plan_eject(note_type: &str, variant: Option<&str>, force: bool, custom_exists: bool) -> (r:
    Result<String, DomainError>)
    ensures
        ({
            let key = template_key_spec(
                note_type@,
                match variant {
                    Some(v) => Some(v@),
                    None => None,
                },
            );
            let path = template_path_spec(key + ".md"@);
            if !builtin_template_keys().contains(key) {
                match variant {
                    Some(v) => (r matches Err(
                        DomainError::UnknownTemplateVariant { note_type: t, variant: w },
                    ) && t@ == note_type@ && w@ == v@),
                    None => (r matches Err(DomainError::UnknownNoteType { note_type: t }) && t@
                        == note_type@),
                }
            } else if !force && custom_exists {
                r matches Err(DomainError::TemplateAlreadyExists { path: p }) && p@ == path
            } else {
                r matches Ok(p) && p@ == path
            }
        }),
{
    let key = template_key(note_type, variant);
    let kc = chars_of(key.as_str());
    let keys = literal_names(
        &[
            "project",
            "action",
            "question",
            "stewardship",
            "portfolio",
            "evidence",
            "commitment",
            "tracking",
            "daily",
            "weekly",
            "monthly",
            "inbox",
        ],
    );
    let ghost kv = string_views(keys@);
    assert(kv =~= builtin_template_keys());
    let mut known = false;
    let mut i: usize = 0;
    while i < keys.len()
        invariant
            i <= keys@.len(),
            kv == string_views(keys@),
            known == (exists|j: int| 0 <= j < i && kv[j] == kc@),
        decreases keys@.len() - i,
    {
        assert(kv[i as int] == keys@[i as int]@);
        if eq_exec(&chars_of(keys[i].as_str()), &kc) {
            known = true;
        }
        i = i + 1;
    }
    proof {
        if kv.contains(kc@) {
            let j = choose|j: int| 0 <= j < kv.len() && kv[j] == kc@;
            assert(known);
        }
    }
    if !known {
        return match variant {
            Some(v) => Err(
                DomainError::UnknownTemplateVariant {
                    note_type: note_type.to_owned(),
                    variant: v.to_owned(),
                },
            ),
            None => Err(DomainError::UnknownNoteType { note_type: note_type.to_owned() }),
        };
    }
    let mut file = kc.clone();
    push_all(&mut file, &chars_of(".md"));
    let path = template_path(string_of(&file).as_str());
    if !force && custom_exists {
        return Err(DomainError::TemplateAlreadyExists { path });
    }
    Ok(path)
}

/// The file a template is saved to: a custom type's template file, or
/// `<type>.md` / `<type>-<variant>.md` for a built-in.
pub fn template_save_filename(note_type: &str, variant: Option<&str>, custom: Option<&CustomNoteType>) -> (r:
    String)
    ensures
        match custom {
            Some(def) => match def.template {
                Some(t) => r@ == t@,
                None => r@ == note_type@ + ".md"@,
            },
            None => r@ == template_key_spec(
                note_type@,
                match variant {
                    Some(v) => Some(v@),
                    None => None,
                },
            ) + ".md"@,
        },
{
    match custom {
        Some(def) => custom_template_filename(note_type, def),
        None => {
            let mut v = chars_of(template_key(note_type, variant).as_str());
            push_all(&mut v, &chars_of(".md"));
            string_of(&v)
        },
    }
}

/// The row of a built-in type, as plain values.
pub open spec fn builtin_row(nt: NoteType, has_file: bool) -> (Seq<char>, Seq<char>, bool, Option<TemplateSourceKind>, bool, Seq<char>) {
    (
        nt.name(),
        title_case_spec(nt.name()),
        false,
        Some(
            if has_file {
                TemplateSourceKind::CustomBase
            } else {
                TemplateSourceKind::BuiltinDefault
            },
        ),
        has_file,
        template_path_spec(nt.name() + ".md"@),
    )
}

pub open spec fn summary_views(v: Seq<TemplateSummary>) -> Seq<
    (Seq<char>, Seq<char>, bool, Option<TemplateSourceKind>, bool, Seq<char>),
> {
    v.map_values(
        |t: TemplateSummary|
            (t.note_type@, t.display_name@, t.is_custom_type, t.source, t.has_custom_file, t.path@),
    )
}

/// The row of one built-in type.
pub fn builtin_template_summary(nt: NoteType, has_file: bool) -> (r: TemplateSummary)
    ensures
        summary_views(seq![r])[0] == builtin_row(nt, has_file),
{
    let key = nt.as_str();
    let mut file = chars_of(key);
    push_all(&mut file, &chars_of(".md"));
    TemplateSummary {
        note_type: key.to_owned(),
        display_name: title_case(key),
        is_custom_type: false,
        source: Some(
            if has_file {
                TemplateSourceKind::CustomBase
            } else {
                TemplateSourceKind::BuiltinDefault
            },
        ),
        has_custom_file: has_file,
        path: template_path(string_of(&file).as_str()),
    }
}

/// The row of one custom type.
pub fn custom_template_summary(t: &NamedType, has_file: bool) -> (r: TemplateSummary)
    ensures
        r.note_type@ == t.name@,
        r.display_name@ == title_case_spec(t.name@),
        r.is_custom_type,
        r.source == (if has_file {
            Some(TemplateSourceKind::CustomBase)
        } else {
            None
        }),
        r.has_custom_file == has_file,
        r.path@ == template_path_spec(
            match t.def.template {
                Some(f) => f@,
                None => t.name@ + ".md"@,
            },
        ),
{
    let file = custom_template_filename(t.name.as_str(), &t.def);
    TemplateSummary {
        note_type: string_of(&chars_of(t.name.as_str())),
        display_name: title_case(t.name.as_str()),
        is_custom_type: true,
        source: if has_file {
            Some(TemplateSourceKind::CustomBase)
        } else {
            None
        },
        has_custom_file: has_file,
        path: template_path(file.as_str()),
    }
}

} // verus!
