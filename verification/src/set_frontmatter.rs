//! Setting one declared, settable frontmatter field of a note: the schema
//! checks, the coercion of the new value to the declared type, the text the
//! field line carries, the no-change rule and the daily-log line.

use vstd::prelude::*;

use crate::error::DomainError;
use crate::note_type::NoteType;
use crate::portfolios::wikilink_target;
use crate::projects::{has_field_from, frontmatter_close, rewrite_field_in_frontmatter, rewrite_lines_from};
use crate::text::{
    chars_of, decimal_i64, decimal_int, eq_exec, parse_i64, parse_i64_exec, push_all, string_of,
    string_views, strip_suffix, strip_suffix_exec,
};
use crate::type_registry::{hard_reserved, hard_reserved_fields};

verus! {

/// The declared type of a schema field.
#[derive(Debug, Clone, Copy, PartialEq, Eq)]
pub enum FieldType {
    Bool,
    Int,
    String,
    Date,
}

/// What a schema declares of one field, as far as setting it goes.
#[derive(Debug, Clone, Copy, PartialEq, Eq)]
pub struct FieldSpec {
    pub ty: FieldType,
    /// Only `Some(true)` lets the field be set.
    pub settable: Option<bool>,
    /// `Some(true)` logs every change of the field in the daily note.
    pub log_on_change: Option<bool>,
}

/// A frontmatter value as far as this operation reads it. `Other` holds the
/// JSON text of any other value (a float, a list, a mapping).
#[derive(Debug, Clone, PartialEq, Eq)]
pub enum FieldValue {
    Null,
    Bool(bool),
    Int(i64),
    Str(String),
    Other(String),
}

/// Equality of two values, as JSON compares them.
pub open spec fn same_value(a: FieldValue, b: FieldValue) -> bool {
    match (a, b) {
        (FieldValue::Null, FieldValue::Null) => true,
        (FieldValue::Bool(x), FieldValue::Bool(y)) => x == y,
        (FieldValue::Int(x), FieldValue::Int(y)) => x == y,
        (FieldValue::Str(x), FieldValue::Str(y)) => x@ == y@,
        (FieldValue::Other(x), FieldValue::Other(y)) => x@ == y@,
        _ => false,
    }
}

pub fn same_value_exec(a: &FieldValue, b: &FieldValue) -> (r: bool)
    ensures
        r == same_value(*a, *b),
{
    match (a, b) {
        (FieldValue::Null, FieldValue::Null) => true,
        (FieldValue::Bool(x), FieldValue::Bool(y)) => *x == *y,
        (FieldValue::Int(x), FieldValue::Int(y)) => *x == *y,
        (FieldValue::Str(x), FieldValue::Str(y)) => eq_exec(
            &chars_of(x.as_str()),
            &chars_of(y.as_str()),
        ),
        (FieldValue::Other(x), FieldValue::Other(y)) => eq_exec(
            &chars_of(x.as_str()),
            &chars_of(y.as_str()),
        ),
        _ => false,
    }
}

/// Keys the engine owns for a note type: `type` and `status` everywhere,
/// and the period key of a built-in calendar type.
pub open spec fn reserved_key(note_type: Seq<char>, key: Seq<char>) -> bool {
    key == "type"@ || key == "status"@ || match NoteType::from_name_spec(note_type) {
        Some(nt) => hard_reserved(nt).contains(key),
        None => false,
    }
}

/// Whether `key` can never be set through the generic setter on a note of
/// type `note_type`.
pub fn is_reserved_key(note_type: &str, key: &str) -> (b: bool)
    ensures
        b == reserved_key(note_type@, key@),
{
    let k = chars_of(key);
    if eq_exec(&k, &chars_of("type")) || eq_exec(&k, &chars_of("status")) {
        return true;
    }
    match NoteType::from_name(note_type) {
        Ok(nt) => {
            let reserved = hard_reserved_fields(nt);
            let ghost h = hard_reserved(nt);
            let mut i: usize = 0;
            while i < reserved.len()
                invariant
                    i <= reserved@.len(),
                    string_views(reserved@) == h,
                    h == hard_reserved(nt),
                    NoteType::from_name_spec(note_type@) == Some(nt),
                    k@ == key@,
                    forall|j: int| 0 <= j < i ==> h[j] != key@,
                decreases reserved@.len() - i,
            {
                assert(string_views(reserved@)[i as int] == reserved@[i as int]@);
                if eq_exec(&chars_of(reserved[i].as_str()), &k) {
                    assert(h[i as int] == key@);
                    assert(h.contains(key@));
                    return true;
                }
                i = i + 1;
            }
            assert(!h.contains(key@));
            false
        },
        Err(_) => false,
    }
}

/// The reason a raw value does not parse as the declared type.
pub open spec fn coerced(ty: FieldType, value: Seq<char>) -> Result<FieldValue, Seq<char>> {
    match ty {
        FieldType::Bool => if value == "true"@ {
            Ok(FieldValue::Bool(true))
        } else if value == "false"@ {
            Ok(FieldValue::Bool(false))
        } else {
            Err("is not a valid bool"@)
        },
        FieldType::Int => match parse_i64(value) {
            Some(n) => Ok(FieldValue::Int(n)),
            None => Err("is not a valid int"@),
        },
        FieldType::String | FieldType::Date => Err(Seq::empty()),
    }
}

/// Coerce the raw text of a new value to the declared type: `bool` and
/// `int` parse strictly, `string` and `date` keep the text.
pub fn coerce_value(field: &str, note_type: &str, ty: FieldType, value: &str) -> (r: Result<
    FieldValue,
    DomainError,
>)
    ensures
        match ty {
            FieldType::String | FieldType::Date => r matches Ok(FieldValue::Str(s)) && s@
                == value@,
            _ => match coerced(ty, value@) {
                Ok(v) => r == Ok::<FieldValue, DomainError>(v),
                Err(reason) => r matches Err(
                    DomainError::InvalidFieldValue { note_type: t, field: f, reason: m },
                ) && t@ == note_type@ && f@ == field@ && m@ == reason,
            },
        },
{
    let v = chars_of(value);
    match ty {
        FieldType::Bool => {
            if eq_exec(&v, &chars_of("true")) {
                Ok(FieldValue::Bool(true))
            } else if eq_exec(&v, &chars_of("false")) {
                Ok(FieldValue::Bool(false))
            } else {
                Err(
                    DomainError::InvalidFieldValue {
                        note_type: note_type.to_owned(),
                        field: field.to_owned(),
                        reason: "is not a valid bool".to_owned(),
                    },
                )
            }
        },
        FieldType::Int => match parse_i64_exec(&v) {
            Some(n) => Ok(FieldValue::Int(n)),
            None => Err(
                DomainError::InvalidFieldValue {
                    note_type: note_type.to_owned(),
                    field: field.to_owned(),
                    reason: "is not a valid int".to_owned(),
                },
            ),
        },
        FieldType::String | FieldType::Date => Ok(FieldValue::Str(string_of(&v))),
    }
}

/// The plain rendering of a value: `true`/`false`, digits, a string's own
/// text, `null`, or the JSON text of anything else.
pub open spec fn display(v: FieldValue) -> Seq<char> {
    match v {
        FieldValue::Null => "null"@,
        FieldValue::Bool(b) => if b {
            "true"@
        } else {
            "false"@
        },
        FieldValue::Int(n) => decimal_int(n as int),
        FieldValue::Str(s) => s@,
        FieldValue::Other(s) => s@,
    }
}

pub fn display_value(v: &FieldValue) -> (r: String)
    ensures
        r@ == display(*v),
{
    match v {
        FieldValue::Null => "null".to_owned(),
        FieldValue::Bool(b) => if *b {
            "true".to_owned()
        } else {
            "false".to_owned()
        },
        FieldValue::Int(n) => string_of(&decimal_i64(*n)),
        FieldValue::Str(s) => string_of(&chars_of(s.as_str())),
        FieldValue::Other(s) => string_of(&chars_of(s.as_str())),
    }
}

/// The YAML document `serde_yaml::to_string` emits for a string, or the
/// text of the emitter's error.
pub uninterp spec fn yaml_emit_str(s: Seq<char>) -> Result<Seq<char>, Seq<char>>;

/// `serde_yaml::to_string` on a string: its contract names the emitted
/// document (or the error's message) and claims nothing else of it.
#[verifier::external_body]
pub(crate) fn emit_yaml_str(s: &str) -> (r: Result<String, String>)
    ensures
        match yaml_emit_str(s@) {
            Ok(t) => r matches Ok(x) && x@ == t,
            Err(m) => r matches Err(x) && x@ == m,
        },
{
    serde_yaml::to_string(&s).map_err(|e| e.to_string())
}

/// `s` without its trailing `'\n'` characters.
pub open spec fn trim_newlines(s: Seq<char>) -> Seq<char>
    decreases s.len(),
{
    if s.len() > 0 && s.last() == '\n' {
        trim_newlines(s.drop_last())
    } else {
        s
    }
}

pub(crate) fn trim_newlines_exec(s: &Vec<char>) -> (r: Vec<char>)
    ensures
        r@ == trim_newlines(s@),
{
    let mut n = s.len();
    assert(s@.take(n as int) =~= s@);
    while n > 0 && s[n - 1] == '\n'
        invariant
            n <= s@.len(),
            trim_newlines(s@) == trim_newlines(s@.take(n as int)),
        decreases n,
    {
        assert(s@.take(n as int).drop_last() =~= s@.take(n - 1));
        n = n - 1;
    }
    let r = crate::text::slice_of(s, 0, n);
    assert(r@ =~= s@.take(n as int));
    r
}

/// A string value as one YAML scalar, quoted only where the emitter needs
/// it; the text itself when the emitter fails.
pub open spec fn yaml_scalar(s: Seq<char>) -> Seq<char> {
    match yaml_emit_str(s) {
        Ok(doc) => trim_newlines(doc),
        Err(_) => s,
    }
}

/// The text a field line carries for a coerced value: the plain form for
/// `bool`, `int` and `date`, a YAML-safe scalar for `string`.
pub open spec fn scalar_text(v: FieldValue, ty: FieldType) -> Seq<char> {
    match ty {
        FieldType::String => match v {
            FieldValue::Str(s) => yaml_scalar(s@),
            _ => display(v),
        },
        _ => display(v),
    }
}

pub fn write_scalar(v: &FieldValue, ty: FieldType) -> (r: String)
    ensures
        r@ == scalar_text(*v, ty),
{
    match ty {
        FieldType::String => match v {
            FieldValue::Str(s) => match emit_yaml_str(s.as_str()) {
                Ok(doc) => string_of(&trim_newlines_exec(&chars_of(doc.as_str()))),
                Err(_) => string_of(&chars_of(s.as_str())),
            },
            _ => display_value(v),
        },
        _ => display_value(v),
    }
}

/// `key: old → new on [[note]]`, an unset or `null` old value shown as
/// `(unset)`.
pub open spec fn field_change_entry(
    path: Seq<char>,
    key: Seq<char>,
    old: Option<FieldValue>,
    new: FieldValue,
) -> Seq<char> {
    let old_text = match old {
        None => "(unset)"@,
        Some(FieldValue::Null) => "(unset)"@,
        Some(v) => display(v),
    };
    key + ": "@ + old_text + " \u{2192} "@ + display(new) + " on [["@ + wikilink_target(path)
        + "]]"@
}

/// The daily-log line of a changed field.
pub fn format_field_change_log_entry(
    path: &str,
    key: &str,
    old: Option<&FieldValue>,
    new: &FieldValue,
) -> (r: String)
    ensures
        r@ == field_change_entry(
            path@,
            key@,
            match old {
                Some(v) => Some(*v),
                None => None,
            },
            *new,
        ),
{
    let old_text = match old {
        None => "(unset)".to_owned(),
        Some(FieldValue::Null) => "(unset)".to_owned(),
        Some(v) => display_value(v),
    };
    let p = chars_of(path);
    let link = match strip_suffix_exec(&p, &chars_of(".md")) {
        Some(t) => t,
        None => p,
    };
    let mut r = chars_of(key);
    push_all(&mut r, &chars_of(": "));
    push_all(&mut r, &chars_of(old_text.as_str()));
    push_all(&mut r, &chars_of(" \u{2192} "));
    push_all(&mut r, &chars_of(display_value(new).as_str()));
    push_all(&mut r, &chars_of(" on [["));
    push_all(&mut r, &link);
    push_all(&mut r, &chars_of("]]"));
    string_of(&r)
}

/// Check a request to set `key` on a note of type `note_type` against the
/// field's declaration (`None` when the schema does not declare it), then
/// coerce the raw value: undeclared, not settable, reserved and unparsable
/// are refused, in that order.
pub fn validate_field_set(note_type: &str, key: &str, spec: Option<FieldSpec>, value: &str) -> (r:
    Result<FieldValue, DomainError>)
    ensures
        match spec {
            None => r matches Err(DomainError::UndeclaredSchemaField { note_type: t, field: f })
                && t@ == note_type@ && f@ == key@,
            Some(s) => if s.settable != Some(true) {
                r matches Err(DomainError::FieldNotSettable { note_type: t, field: f }) && t@
                    == note_type@ && f@ == key@
            } else if reserved_key(note_type@, key@) {
                r matches Err(DomainError::ReservedSchemaField { note_type: t, field: f }) && t@
                    == note_type@ && f@ == key@
            } else {
                match s.ty {
                    FieldType::String | FieldType::Date => r matches Ok(FieldValue::Str(x))
                        && x@ == value@,
                    _ => match coerced(s.ty, value@) {
                        Ok(v) => r == Ok::<FieldValue, DomainError>(v),
                        Err(reason) => r matches Err(
                            DomainError::InvalidFieldValue { note_type: t, field: f, reason: m },
                        ) && t@ == note_type@ && f@ == key@ && m@ == reason,
                    },
                }
            },
        },
{
    let s = match spec {
        None => {
            return Err(
                DomainError::UndeclaredSchemaField {
                    note_type: note_type.to_owned(),
                    field: key.to_owned(),
                },
            );
        },
        Some(s) => s,
    };
    if s.settable != Some(true) {
        return Err(
            DomainError::FieldNotSettable { note_type: note_type.to_owned(), field: key.to_owned() },
        );
    }
    if is_reserved_key(note_type, key) {
        return Err(
            DomainError::ReservedSchemaField {
                note_type: note_type.to_owned(),
                field: key.to_owned(),
            },
        );
    }
    coerce_value(key, note_type, s.ty, value)
}

/// What setting a field does to a note.
pub enum FieldSetOutcome {
    /// The new value equals the current one: nothing is written or logged.
    Unchanged,
    /// The rewritten note, and the daily-log line when the field logs its
    /// changes.
    Changed { content: String, log_entry: Option<String> },
}

/// Apply a checked value to the raw note at `path`: no change when it
/// equals the current value `old`, else the field line rewritten in place
/// (the field must already be in the frontmatter), with a log line when
/// `log_on_change`.
pub fn apply_field_set(
    raw: &str,
    path: &str,
    key: &str,
    ty: FieldType,
    new: &FieldValue,
    old: Option<&FieldValue>,
    log_on_change: bool,
) -> (r: Result<FieldSetOutcome, DomainError>)
    ensures
        ({
            let o = match old {
                Some(v) => Some(*v),
                None => None,
            };
            if o matches Some(v) && same_value(v, *new) {
                r matches Ok(FieldSetOutcome::Unchanged)
            } else {
                match frontmatter_close(raw@) {
                    None => r matches Err(DomainError::MissingSection(s)) && s@ == "frontmatter"@,
                    Some(k) => {
                        let yaml = raw@.subrange(4, k + 1);
                        if has_field_from(yaml, 0, key@) {
                            r matches Ok(FieldSetOutcome::Changed { content, log_entry }) && content@
                                == raw@.take(4) + rewrite_lines_from(
                                yaml,
                                0,
                                key@,
                                scalar_text(*new, ty),
                            ) + raw@.skip(k + 1) && (if log_on_change {
                                log_entry matches Some(l) && l@ == field_change_entry(
                                    path@,
                                    key@,
                                    o,
                                    *new,
                                )
                            } else {
                                log_entry is None
                            })
                        } else {
                            r matches Err(DomainError::MissingFrontmatterField(f)) && f@ == key@
                        }
                    },
                }
            }
        }),
{
    if let Some(o) = old {
        if same_value_exec(o, new) {
            return Ok(FieldSetOutcome::Unchanged);
        }
    }
    let scalar = write_scalar(new, ty);
    let content = match rewrite_field_in_frontmatter(raw, key, scalar.as_str()) {
        Ok(c) => c,
        Err(e) => {
            return Err(e);
        },
    };
    let log_entry = if log_on_change {
        Some(format_field_change_log_entry(path, key, old, new))
    } else {
        None
    };
    Ok(FieldSetOutcome::Changed { content, log_entry })
}


/// Two values count as the same only when they are of one kind and read
/// as the same text, so an unchanged outcome never hides a write: the line
/// the new value would write is the line already there. Every value is the
/// same as itself, and two strings of equal text are the same value.
pub proof fn lemma_same_value_same_text(a: FieldValue, b: FieldValue, ty: FieldType)
    ensures
        same_value(a, b) ==> display(a) == display(b) && scalar_text(a, ty) == scalar_text(b, ty),
        same_value(a, b) ==> (a is Null <==> b is Null) && (a is Bool <==> b is Bool) && (a is Int
            <==> b is Int) && (a is Str <==> b is Str) && (a is Other <==> b is Other),
        same_value(a, a),
        (a is Str && b is Str && display(a) == display(b)) ==> same_value(a, b),
{
}

} // verus!
