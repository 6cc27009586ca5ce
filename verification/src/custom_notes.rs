//! Notes of the types a vault configuration declares: checking a create
//! request against the type's schema, where the note goes, the variables
//! its template is rendered with, and the listing.

use vstd::prelude::*;

use crate::date::{format_ymd_chars, ymd_text, Date};
use crate::error::DomainError;
use crate::note_type::NoteType;
use crate::slug::{slugify, slugify_spec};
use crate::text::{
    chars_of, eq_exec, keys_distinct, push_all, sort_strings, sorted_seqs, string_of, string_views, trim, trim_of,
};
use crate::tracking::pair_seq_views;
use crate::type_registry::{first_named, push_new, NoteTypeDescriptor, TypeRegistry};

verus! {

/// Whether `name` is one of `names`.
pub open spec fn listed(names: Seq<String>, name: Seq<char>) -> bool {
    exists|i: int| 0 <= i < names.len() && (#[trigger] names[i])@ == name
}

fn listed_exec(names: &Vec<String>, name: &Vec<char>) -> (b: bool)
    ensures
        b == listed(names@, name@),
{
    let mut i: usize = 0;
    while i < names.len()
        invariant
            i <= names@.len(),
            forall|j: int| 0 <= j < i ==> (#[trigger] names@[j])@ != name@,
        decreases names@.len() - i,
    {
        if eq_exec(&chars_of(names[i].as_str()), name) {
            return true;
        }
        i = i + 1;
    }
    false
}

/// Index of the first supplied field, from `j` on, that the type does not
/// declare.
pub open spec fn first_unknown(fields: Seq<(String, String)>, required: Seq<String>, optional: Seq<
    String,
>, j: int) -> Option<int>
    decreases fields.len() - j,
{
    if j < 0 || j >= fields.len() {
        None
    } else if !listed(required, fields[j].0@) && !listed(optional, fields[j].0@) {
        Some(j)
    } else {
        first_unknown(fields, required, optional, j + 1)
    }
}

/// The value supplied for `key` (the first entry naming it).
pub open spec fn supplied(fields: Seq<(String, String)>, key: Seq<char>, j: int) -> Option<Seq<char>>
    decreases fields.len() - j,
{
    if j < 0 || j >= fields.len() {
        None
    } else if fields[j].0@ == key {
        Some(fields[j].1@)
    } else {
        supplied(fields, key, j + 1)
    }
}

/// Whether `key` is supplied with a non-blank value.
pub open spec fn filled(fields: Seq<(String, String)>, key: Seq<char>) -> bool {
    supplied(fields, key, 0) matches Some(v) && trim(v).len() > 0
}

/// Index of the first required field, from `i` on, left absent or blank.
pub open spec fn first_missing(fields: Seq<(String, String)>, required: Seq<String>, i: int) -> Option<
    int,
>
    decreases required.len() - i,
{
    if i < 0 || i >= required.len() {
        None
    } else if !filled(fields, required[i]@) {
        Some(i)
    } else {
        first_missing(fields, required, i + 1)
    }
}

fn filled_exec(fields: &Vec<(String, String)>, key: &Vec<char>) -> (b: bool)
    ensures
        b == filled(fields@, key@),
{
    let mut j: usize = 0;
    while j < fields.len()
        invariant
            j <= fields@.len(),
            supplied(fields@, key@, 0) == supplied(fields@, key@, j as int),
        decreases fields@.len() - j,
    {
        if eq_exec(&chars_of(fields[j].0.as_str()), key) {
            return trim_of(&chars_of(fields[j].1.as_str())).len() > 0;
        }
        j = j + 1;
    }
    false
}

/// A create request that passed the checks: the trimmed title, the slug
/// of the title (made unique against the vault before use), where notes of
/// the type live, the template file, and the type's frontmatter order.
pub struct CustomNotePlan {
    pub title: String,
    pub slug: String,
    pub folder: String,
    pub template_name: String,
    pub field_order: Vec<String>,
}

/// The template file of a custom type: the declared one, else
/// `<type>.md`.
pub open spec fn template_file(kind_name: Seq<char>, template: Option<String>) -> Seq<char> {
    match template {
        Some(t) => t@,
        None => kind_name + ".md"@,
    }
}

/// Check a request to create a note of the custom type `kind_name`. The
/// title must not be blank, the name must be a declared custom type (a
/// built-in is refused as such), every supplied field must be declared,
/// and every required field supplied and non-blank, checked in that order.
/// The fields are keyed by name, each key once.
pub fn plan_custom_note(
    registry: &TypeRegistry,
    kind_name: &str,
    title: &str,
    fields: &Vec<(String, String)>,
) -> (r: Result<CustomNotePlan, DomainError>)
    requires
        keys_distinct(fields@),
    ensures
        ({
            let t = trim(title@);
            if t.len() == 0 {
                r matches Err(DomainError::EmptyField { field: f }) && f@ == "title"@
            } else if NoteType::from_name_spec(kind_name@) is Some {
                r matches Err(DomainError::BuiltinTypeNotCustom { note_type: n }) && n@
                    == kind_name@
            } else {
                match first_named(registry.note_types@, kind_name@) {
                    None => r matches Err(DomainError::UnknownNoteType { note_type: n }) && n@
                        == kind_name@,
                    Some(k) => {
                        let def = registry.note_types@[k].def;
                        match first_unknown(fields@, def.required@, def.optional@, 0) {
                            Some(j) => r matches Err(
                                DomainError::UnknownField { note_type: n, field: f },
                            ) && n@ == kind_name@ && f@ == fields@[j].0@,
                            None => match first_missing(fields@, def.required@, 0) {
                                Some(i) => r matches Err(
                                    DomainError::MissingRequiredField { note_type: n, field: f },
                                ) && n@ == kind_name@ && f@ == def.required@[i]@,
                                None => r matches Ok(p) && p.title@ == t && p.slug@
                                    == slugify_spec(t) && p.folder@ == def.folder@
                                    && p.template_name@ == template_file(kind_name@, def.template)
                                    && string_views(p.field_order@) == push_new(
                                    seq!["type"@],
                                    string_views(def.required@) + string_views(def.optional@),
                                ),
                            },
                        }
                    },
                }
            }
        }),
{
    let t = trim_of(&chars_of(title));
    if t.len() == 0 {
        return Err(DomainError::EmptyField { field: "title" });
    }
    let descriptor = match registry.resolve(kind_name) {
        None => {
            return Err(DomainError::UnknownNoteType { note_type: kind_name.to_owned() });
        },
        Some(d) => d,
    };
    let def = match descriptor {
        NoteTypeDescriptor::Builtin(_) => {
            return Err(DomainError::BuiltinTypeNotCustom { note_type: kind_name.to_owned() });
        },
        NoteTypeDescriptor::Custom { def, .. } => def,
    };
    let ghost k = first_named(registry.note_types@, kind_name@)->0;
    assert(*def == registry.note_types@[k].def);
    assert(NoteType::from_name_spec(kind_name@) is None);
    let mut j: usize = 0;
    while j < fields.len()
        invariant
            j <= fields@.len(),
            t@ == trim(title@),
            t@.len() > 0,
            NoteType::from_name_spec(kind_name@) is None,
            first_named(registry.note_types@, kind_name@) == Some(k),
            *def == registry.note_types@[k].def,
            first_unknown(fields@, def.required@, def.optional@, 0) == first_unknown(
                fields@,
                def.required@,
                def.optional@,
                j as int,
            ),
        decreases fields@.len() - j,
    {
        let key = chars_of(fields[j].0.as_str());
        if !listed_exec(&def.required, &key) && !listed_exec(&def.optional, &key) {
            return Err(
                DomainError::UnknownField {
                    note_type: kind_name.to_owned(),
                    field: string_of(&key),
                },
            );
        }
        j = j + 1;
    }
    let mut i: usize = 0;
    while i < def.required.len()
        invariant
            i <= def.required@.len(),
            first_unknown(fields@, def.required@, def.optional@, 0) is None,
            t@ == trim(title@),
            t@.len() > 0,
            NoteType::from_name_spec(kind_name@) is None,
            first_named(registry.note_types@, kind_name@) == Some(k),
            *def == registry.note_types@[k].def,
            first_missing(fields@, def.required@, 0) == first_missing(
                fields@,
                def.required@,
                i as int,
            ),
        decreases def.required@.len() - i,
    {
        let req = chars_of(def.required[i].as_str());
        if !filled_exec(fields, &req) {
            return Err(
                DomainError::MissingRequiredField {
                    note_type: kind_name.to_owned(),
                    field: string_of(&req),
                },
            );
        }
        i = i + 1;
    }
    let title = string_of(&t);
    let slug = slugify(title.as_str());
    let template_name = match &def.template {
        Some(x) => string_of(&chars_of(x.as_str())),
        None => {
            let mut v = chars_of(kind_name);
            push_all(&mut v, &chars_of(".md"));
            string_of(&v)
        },
    };
    let field_order = match descriptor.custom_frontmatter_order() {
        Some(o) => o,
        None => Vec::new(),
    };
    Ok(
        CustomNotePlan {
            title,
            slug,
            folder: string_of(&chars_of(def.folder.as_str())),
            template_name,
            field_order,
        },
    )
}

/// `<folder>/<slug>.md`.
pub open spec fn custom_path(folder: Seq<char>, slug: Seq<char>) -> Seq<char> {
    folder + "/"@ + slug + ".md"@
}

pub fn custom_note_path(folder: &str, slug: &str) -> (r: String)
    ensures
        r@ == custom_path(folder@, slug@),
{
    let mut v = chars_of(folder);
    push_all(&mut v, &chars_of("/"));
    push_all(&mut v, &chars_of(slug));
    push_all(&mut v, &chars_of(".md"));
    string_of(&v)
}

/// The contextual variables of a custom note's template: its title, slug,
/// and creation date (as both `created` and `date`), then the supplied
/// fields.
pub open spec fn custom_vars(
    title: Seq<char>,
    slug: Seq<char>,
    created: Date,
    fields: Seq<(Seq<char>, Seq<char>)>,
) -> Seq<(Seq<char>, Seq<char>)> {
    seq![
        ("title"@, title),
        ("slug"@, slug),
        ("created"@, ymd_text(created)),
        ("date"@, ymd_text(created)),
    ] + fields
}

pub fn custom_note_variables(
    title: &str,
    slug: &str,
    created: &Date,
    fields: &Vec<(String, String)>,
) -> (r: Vec<(String, String)>)
    requires
        created.wf(),
    ensures
        pair_seq_views(r@) == custom_vars(title@, slug@, *created, pair_seq_views(fields@)),
{
    let date = string_of(&format_ymd_chars(created));
    let mut r: Vec<(String, String)> = Vec::new();
    r.push(("title".to_owned(), title.to_owned()));
    r.push(("slug".to_owned(), slug.to_owned()));
    r.push(("created".to_owned(), string_of(&chars_of(date.as_str()))));
    r.push(("date".to_owned(), date));
    let ghost head = pair_seq_views(r@);
    let mut i: usize = 0;
    while i < fields.len()
        invariant
            i <= fields@.len(),
            pair_seq_views(r@) == head + pair_seq_views(fields@).take(i as int),
        decreases fields@.len() - i,
    {
        let ghost prev = pair_seq_views(r@);
        let k = string_of(&chars_of(fields[i].0.as_str()));
        let v = string_of(&chars_of(fields[i].1.as_str()));
        r.push((k, v));
        assert(pair_seq_views(r@) =~= prev.push((fields@[i as int].0@, fields@[i as int].1@)));
        assert(pair_seq_views(fields@).take(i + 1) =~= pair_seq_views(fields@).take(i as int).push(
            (fields@[i as int].0@, fields@[i as int].1@),
        ));
        i = i + 1;
    }
    assert(pair_seq_views(fields@).take(fields@.len() as int) =~= pair_seq_views(fields@));
    r
}

/// Only a declared custom type can be listed through the generic path.
pub fn check_custom_type(registry: &TypeRegistry, kind_name: &str) -> (r: Result<(), DomainError>)
    ensures
        NoteType::from_name_spec(kind_name@) is Some ==> (r matches Err(
            DomainError::BuiltinTypeNotCustom { note_type: n },
        ) && n@ == kind_name@),
        NoteType::from_name_spec(kind_name@) is None ==> match first_named(
            registry.note_types@,
            kind_name@,
        ) {
            Some(_) => r is Ok,
            None => r matches Err(DomainError::UnknownNoteType { note_type: n }) && n@
                == kind_name@,
        },
{
    match registry.resolve(kind_name) {
        Some(d) => if d.is_custom() {
            Ok(())
        } else {
            Err(DomainError::BuiltinTypeNotCustom { note_type: kind_name.to_owned() })
        },
        None => Err(DomainError::UnknownNoteType { note_type: kind_name.to_owned() }),
    }
}

/// The paths of a custom type's notes, sorted.
pub fn sort_note_paths(paths: &Vec<String>) -> (r: Vec<String>)
    ensures
        string_views(r@) == sorted_seqs(string_views(paths@)),
{
    sort_strings(paths)
}


/// The YAML document `serde_yaml::to_string` emits for a mapping built by
/// inserting `pairs` in order (a repeated key keeps its first place and
/// takes the later value), or the text of the emitter's error.
pub uninterp spec fn yaml_emit_mapping(pairs: Seq<(Seq<char>, Seq<char>)>) -> Result<
    Seq<char>,
    Seq<char>,
>;

/// `serde_yaml::to_string` on a `serde_yaml::Mapping` of string keys and
/// string values filled from `pairs` by `Mapping::insert`: its contract
/// names the emitted document (or the error's message) and claims nothing
/// else of it.
#[verifier::external_body]
fn emit_yaml_mapping(pairs: &Vec<(String, String)>) -> (r: Result<String, String>)
    ensures
        match yaml_emit_mapping(pair_views(pairs@)) {
            Ok(t) => r matches Ok(x) && x@ == t,
            Err(m) => r matches Err(x) && x@ == m,
        },
{
    let mut map = serde_yaml::Mapping::new();
    for (k, v) in pairs {
        map.insert(k.as_str().into(), v.as_str().into());
    }
    serde_yaml::to_string(&map).map_err(|e| e.to_string())
}

pub open spec fn pair_views(v: Seq<(String, String)>) -> Seq<(Seq<char>, Seq<char>)> {
    v.map_values(|p: (String, String)| (p.0@, p.1@))
}

/// The fields a synthesised note's frontmatter carries after `type`: each
/// field other than `type` that has a value, in order.
pub open spec fn synth_fields(fields: Seq<(String, Option<String>)>) -> Seq<(Seq<char>, Seq<char>)>
    decreases fields.len(),
{
    if fields.len() == 0 {
        Seq::empty()
    } else {
        let prev = synth_fields(fields.drop_last());
        let f = fields.last();
        if f.0@ != "type"@ && f.1 is Some {
            prev.push((f.0@, f.1->Some_0@))
        } else {
            prev
        }
    }
}

/// The note a custom type without a template file gets: a frontmatter
/// block emitted by `serde_yaml` from `type` and the valued fields (empty
/// if the emitter fails), then a `# title` heading, the type's name when
/// there is no title.
pub open spec fn synthesised_note(
    kind_name: Seq<char>,
    fields: Seq<(String, Option<String>)>,
    title: Option<Seq<char>>,
) -> Seq<char> {
    let fm = match yaml_emit_mapping(seq![("type"@, kind_name)] + synth_fields(fields)) {
        Ok(t) => t,
        Err(_) => Seq::empty(),
    };
    "---\n"@ + fm + "---\n\n# "@ + match title {
        Some(t) => t,
        None => kind_name,
    } + "\n"@
}

/// Build the note for a custom type that ships no template file, from the
/// type's field order paired with each field's resolved value and the
/// resolved title. Every value goes through the YAML emitter, so it is
/// written as a properly quoted string.
pub fn synthesise_custom_note(
    kind_name: &str,
    fields: &Vec<(String, Option<String>)>,
    title: Option<&str>,
) -> (r: String)
    ensures
        r@ == synthesised_note(
            kind_name@,
            fields@,
            match title {
                Some(t) => Some(t@),
                None => None,
            },
        ),
{
    let type_key = chars_of("type");
    let mut pairs: Vec<(String, String)> = Vec::new();
    pairs.push((string_of(&type_key), string_of(&chars_of(kind_name))));
    let ghost head = seq![("type"@, kind_name@)];
    assert(pair_views(pairs@) =~= head);
    let mut i: usize = 0;
    while i < fields.len()
        invariant
            i <= fields@.len(),
            type_key@ == "type"@,
            head == seq![("type"@, kind_name@)],
            pair_views(pairs@) == head + synth_fields(fields@.take(i as int)),
        decreases fields@.len() - i,
    {
        let ghost before = pair_views(pairs@);
        assert(fields@.take(i + 1).drop_last() =~= fields@.take(i as int));
        assert(fields@.take(i + 1).last() == fields@[i as int]);
        let key = chars_of(fields[i].0.as_str());
        if !eq_exec(&key, &type_key) {
            if let Some(v) = &fields[i].1 {
                pairs.push((string_of(&key), string_of(&chars_of(v.as_str()))));
                assert(pair_views(pairs@) =~= before.push((fields@[i as int].0@, v@)));
            }
        }
        i = i + 1;
    }
    assert(fields@.take(fields@.len() as int) =~= fields@);
    let fm = match emit_yaml_mapping(&pairs) {
        Ok(t) => t,
        Err(_) => String::new(),
    };
    let mut out = chars_of("---\n");
    push_all(&mut out, &chars_of(fm.as_str()));
    push_all(&mut out, &chars_of("---\n\n# "));
    match title {
        Some(t) => push_all(&mut out, &chars_of(t)),
        None => push_all(&mut out, &chars_of(kind_name)),
    }
    push_all(&mut out, &chars_of("\n"));
    string_of(&out)
}

} // verus!
