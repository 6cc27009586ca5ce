//! The note-type registry: built-in types and the schema-only types a
//! vault declares under `[note_types.<name>]`, behind one lookup.

use vstd::prelude::*;

use crate::error::DomainError;
use crate::note_type::NoteType;
use crate::text::{
    ascii_lower_seq, ascii_lower_vec, chars_of, copy_strings, sort_strings, sorted_seqs, eq_exec, seq_lt, seq_lt_exec, string_of,
    string_views,
};

verus! {

/// A note type declared in the vault configuration.
#[derive(Debug, Clone, PartialEq, Eq)]
pub struct CustomNoteType {
    /// Folder its notes live in.
    pub folder: String,
    /// Fields every note of the type must carry.
    pub required: Vec<String>,
    /// Fields a note of the type may carry.
    pub optional: Vec<String>,
    /// Template file name, when not `<name>.md`.
    pub template: Option<String>,
    /// Whether notes of the type only ever grow.
    pub append_only: bool,
}

/// A declared custom type with its name.
#[derive(Debug, Clone, PartialEq, Eq)]
pub struct NamedType {
    pub name: String,
    pub def: CustomNoteType,
}

/// A resolved note type: a built-in, or a declared custom type.
#[derive(Debug, Clone, Copy)]
pub enum NoteTypeDescriptor<'a> {
    Builtin(NoteType),
    Custom { name: &'a str, def: &'a CustomNoteType },
}

/// `names` with each of `more` appended unless already present.
pub open spec fn push_new(names: Seq<Seq<char>>, more: Seq<Seq<char>>) -> Seq<Seq<char>>
    decreases more.len(),
{
    if more.len() == 0 {
        names
    } else {
        let rest = push_new(names, more.drop_last());
        if rest.contains(more.last()) {
            rest
        } else {
            rest.push(more.last())
        }
    }
}

/// The create-path placeholders every custom note gets.
pub open spec fn custom_builtin_placeholders() -> Seq<Seq<char>> {
    seq!["title"@, "slug"@, "created"@, "date"@]
}

fn push_new_exec(names: &mut Vec<String>, more: &Vec<String>)
    ensures
        string_views(final(names)@) == push_new(string_views(old(names)@), string_views(more@)),
{
    let ghost base = string_views(names@);
    let mut i: usize = 0;
    while i < more.len()
        invariant
            i <= more@.len(),
            string_views(names@) == push_new(base, string_views(more@).take(i as int)),
        decreases more@.len() - i,
    {
        let ghost mv = string_views(more@);
        assert(mv.take(i + 1).drop_last() =~= mv.take(i as int));
        assert(mv.take(i + 1).last() == more@[i as int]@);
        let f = chars_of(more[i].as_str());
        let ghost cur = string_views(names@);
        let mut present = false;
        let mut k: usize = 0;
        while k < names.len()
            invariant
                k <= names@.len(),
                cur == string_views(names@),
                present == (exists|j: int| 0 <= j < k && cur[j] == f@),
            decreases names@.len() - k,
        {
            assert(cur[k as int] == names@[k as int]@);
            if eq_exec(&chars_of(names[k].as_str()), &f) {
                present = true;
            }
            k = k + 1;
        }
        proof {
            if cur.contains(f@) {
                let j = choose|j: int| 0 <= j < cur.len() && cur[j] == f@;
                assert(present);
            }
        }
        if !present {
            names.push(string_of(&f));
            assert(string_views(names@) =~= cur.push(f@));
        }
        i = i + 1;
    }
    assert(string_views(more@).take(more@.len() as int) =~= string_views(more@));
}

fn literal_strings(lits: &[&str]) -> (r: Vec<String>)
    ensures
        string_views(r@) == lits@.map_values(|s: &str| s@),
{
    let mut r: Vec<String> = Vec::new();
    let mut i: usize = 0;
    while i < lits.len()
        invariant
            i <= lits@.len(),
            string_views(r@) == lits@.map_values(|s: &str| s@).take(i as int),
        decreases lits@.len() - i,
    {
        let ghost old_r = string_views(r@);
        r.push(lits[i].to_owned());
        assert(string_views(r@) =~= old_r.push(lits@[i as int]@));
        assert(string_views(r@) =~= lits@.map_values(|s: &str| s@).take(i + 1));
        i = i + 1;
    }
    assert(lits@.map_values(|s: &str| s@).take(lits@.len() as int) =~= lits@.map_values(
        |s: &str| s@,
    ));
    r
}

impl<'a> NoteTypeDescriptor<'a> {
    pub fn is_custom(&self) -> (b: bool)
        ensures
            b == (*self is Custom),
    {
        match self {
            NoteTypeDescriptor::Custom { .. } => true,
            NoteTypeDescriptor::Builtin(_) => false,
        }
    }

    pub fn as_custom(&self) -> (r: Option<&'a CustomNoteType>)
        ensures
            match *self {
                NoteTypeDescriptor::Custom { name: _, def } => r == Some(def),
                NoteTypeDescriptor::Builtin(_) => r is None,
            },
    {
        match self {
            NoteTypeDescriptor::Custom { def, .. } => Some(*def),
            NoteTypeDescriptor::Builtin(_) => None,
        }
    }

    /// The folder of a custom type's notes.
    pub fn folder(&self) -> (r: Option<&'a str>)
        ensures
            match *self {
                NoteTypeDescriptor::Custom { name: _, def } => r matches Some(f) && f@ == def.folder@,
                NoteTypeDescriptor::Builtin(_) => r is None,
            },
    {
        match self {
            NoteTypeDescriptor::Builtin(_) => None,
            NoteTypeDescriptor::Custom { def, .. } => Some(def.folder.as_str()),
        }
    }

    /// Whether notes of the type only ever grow.
    pub fn append_only(&self) -> (b: bool)
        ensures
            b == match *self {
                NoteTypeDescriptor::Custom { name: _, def } => def.append_only,
                NoteTypeDescriptor::Builtin(_) => false,
            },
    {
        match self {
            NoteTypeDescriptor::Builtin(_) => false,
            NoteTypeDescriptor::Custom { def, .. } => def.append_only,
        }
    }

    /// A custom type's canonical key order: `type`, then its required and
    /// optional fields, each once. Built-ins have their own.
    pub fn custom_frontmatter_order(&self) -> (r: Option<Vec<String>>)
        ensures
            match *self {
                NoteTypeDescriptor::Custom { name: _, def } => r matches Some(v) && string_views(v@)
                    == push_new(
                    seq!["type"@],
                    string_views(def.required@) + string_views(def.optional@),
                ),
                NoteTypeDescriptor::Builtin(_) => r is None,
            },
    {
        match self {
            NoteTypeDescriptor::Builtin(_) => None,
            NoteTypeDescriptor::Custom { def, .. } => {
                let mut order = literal_strings(&["type"]);
                assert(string_views(order@) =~= seq!["type"@]);
                let mut fields: Vec<String> = copy_strings(&def.required);
                let ghost req = string_views(def.required@);
                let mut k: usize = 0;
                while k < def.optional.len()
                    invariant
                        k <= def.optional@.len(),
                        string_views(fields@) == req + string_views(def.optional@).take(k as int),
                    decreases def.optional@.len() - k,
                {
                    let ghost old_f = string_views(fields@);
                    fields.push(string_of(&chars_of(def.optional[k].as_str())));
                    assert(string_views(fields@) =~= old_f.push(def.optional@[k as int]@));
                    assert(string_views(fields@) =~= req + string_views(def.optional@).take(
                        k + 1,
                    ));
                    k = k + 1;
                }
                assert(string_views(def.optional@).take(def.optional@.len() as int)
                    =~= string_views(def.optional@));
                push_new_exec(&mut order, &fields);
                Some(order)
            },
        }
    }

    /// The placeholders the type's create path fills: a built-in's
    /// supplied set, or for a custom type the common create-path names
    /// followed by its declared fields, each once.
    pub fn supplied_placeholders(&self) -> (r: Vec<String>)
        ensures
            string_views(r@) == match *self {
                NoteTypeDescriptor::Builtin(nt) => nt.placeholder_names(),
                NoteTypeDescriptor::Custom { name: _, def } => push_new(
                    custom_builtin_placeholders(),
                    string_views(def.required@) + string_views(def.optional@),
                ),
            },
    {
        match self {
            NoteTypeDescriptor::Builtin(nt) => {
                let lits = nt.supplied_placeholders();
                let r = literal_strings(lits);
                assert(lits@.map_values(|s: &str| s@) =~= nt.placeholder_names());
                r
            },
            NoteTypeDescriptor::Custom { def, .. } => {
                let mut names = literal_strings(&["title", "slug", "created", "date"]);
                assert(string_views(names@) =~= custom_builtin_placeholders());
                let mut fields: Vec<String> = copy_strings(&def.required);
                let ghost req = string_views(def.required@);
                let mut k: usize = 0;
                while k < def.optional.len()
                    invariant
                        k <= def.optional@.len(),
                        string_views(fields@) == req + string_views(def.optional@).take(k as int),
                    decreases def.optional@.len() - k,
                {
                    let ghost old_f = string_views(fields@);
                    fields.push(string_of(&chars_of(def.optional[k].as_str())));
                    assert(string_views(fields@) =~= old_f.push(def.optional@[k as int]@));
                    assert(string_views(fields@) =~= req + string_views(def.optional@).take(
                        k + 1,
                    ));
                    k = k + 1;
                }
                assert(string_views(def.optional@).take(def.optional@.len() as int)
                    =~= string_views(def.optional@));
                push_new_exec(&mut names, &fields);
                names
            },
        }
    }
}

/// The registry of note types: the built-ins and the custom types the
/// configuration declares.
pub struct TypeRegistry {
    pub note_types: Vec<NamedType>,
}

/// Index of the first declared type named `name`.
pub open spec fn first_named(ts: Seq<NamedType>, name: Seq<char>) -> Option<int>
    decreases ts.len(),
{
    if ts.len() == 0 {
        None
    } else {
        match first_named(ts.drop_last(), name) {
            Some(k) => Some(k),
            None => if ts.last().name@ == name {
                Some(ts.len() - 1)
            } else {
                None
            },
        }
    }
}

/// The names of all built-in types, in declaration order.
pub open spec fn builtin_names() -> Seq<Seq<char>> {
    seq![
        NoteType::Daily.name(),
        NoteType::Weekly.name(),
        NoteType::Monthly.name(),
        NoteType::Project.name(),
        NoteType::Action.name(),
        NoteType::Portfolio.name(),
        NoteType::Evidence.name(),
        NoteType::Stewardship.name(),
        NoteType::Tracking.name(),
        NoteType::Question.name(),
        NoteType::Commitment.name(),
        NoteType::Inbox.name(),
    ]
}

pub open spec fn type_names(ts: Seq<NamedType>) -> Seq<Seq<char>> {
    ts.map_values(|t: NamedType| t.name@)
}

fn builtin_name_strings() -> (r: Vec<String>)
    ensures
        string_views(r@) == builtin_names(),
{
    let mut r: Vec<String> = Vec::new();
    r.push(NoteType::Daily.as_str().to_owned());
    r.push(NoteType::Weekly.as_str().to_owned());
    r.push(NoteType::Monthly.as_str().to_owned());
    r.push(NoteType::Project.as_str().to_owned());
    r.push(NoteType::Action.as_str().to_owned());
    r.push(NoteType::Portfolio.as_str().to_owned());
    r.push(NoteType::Evidence.as_str().to_owned());
    r.push(NoteType::Stewardship.as_str().to_owned());
    r.push(NoteType::Tracking.as_str().to_owned());
    r.push(NoteType::Question.as_str().to_owned());
    r.push(NoteType::Commitment.as_str().to_owned());
    r.push(NoteType::Inbox.as_str().to_owned());
    assert(string_views(r@) =~= builtin_names());
    r
}

impl TypeRegistry {
    pub fn new(note_types: Vec<NamedType>) -> (r: Self)
        ensures
            r.note_types == note_types,
    {
        TypeRegistry { note_types }
    }

    /// Resolve a type name: a built-in name, else the first declared custom
    /// type of that name.
    pub fn resolve<'a>(&'a self, note_type: &str) -> (r: Option<NoteTypeDescriptor<'a>>)
        ensures
            match NoteType::from_name_spec(note_type@) {
                Some(nt) => (r matches Some(NoteTypeDescriptor::Builtin(b)) && b == nt),
                None => match first_named(self.note_types@, note_type@) {
                    Some(k) => (r matches Some(NoteTypeDescriptor::Custom { name: n, def: d }) && n@
                        == note_type@ && *d == self.note_types@[k].def),
                    None => r is None,
                },
            },
    {
        let parsed = NoteType::from_name(note_type);
        if let Ok(nt) = parsed {
            return Some(NoteTypeDescriptor::Builtin(nt));
        }
        assert(NoteType::from_name_spec(note_type@) is None);
        let q = chars_of(note_type);
        let mut k: usize = 0;
        while k < self.note_types.len()
            invariant
                k <= self.note_types@.len(),
                q@ == note_type@,
                NoteType::from_name_spec(note_type@) is None,
                first_named(self.note_types@.take(k as int), note_type@) is None,
            decreases self.note_types@.len() - k,
        {
            assert(self.note_types@.take(k + 1).drop_last() =~= self.note_types@.take(k as int));
            let t = &self.note_types[k];
            if eq_exec(&chars_of(t.name.as_str()), &q) {
                proof {
                    lemma_first_named_prefix(self.note_types@, note_type@, k as int);
                }
                let name = t.name.as_str();
                assert(name@ == note_type@);
                assert(t.def == self.note_types@[k as int].def);
                let r = Some(NoteTypeDescriptor::Custom { name, def: &t.def });
                return r;
            }
            k = k + 1;
        }
        assert(self.note_types@.take(self.note_types@.len() as int) =~= self.note_types@);
        None
    }

    /// Whether the name resolves.
    pub fn is_known(&self, note_type: &str) -> (b: bool)
        ensures
            b == (NoteType::from_name_spec(note_type@) is Some || first_named(
                self.note_types@,
                note_type@,
            ) is Some),
    {
        self.resolve(note_type).is_some()
    }

    /// Every type name: the built-ins in declaration order, then the
    /// custom types sorted.
    pub fn all_names(&self) -> (r: Vec<String>)
        ensures
            string_views(r@) == builtin_names() + sorted_seqs(type_names(self.note_types@)),
    {
        let mut names = builtin_name_strings();
        let mut custom: Vec<String> = Vec::new();
        let mut i: usize = 0;
        while i < self.note_types.len()
            invariant
                i <= self.note_types@.len(),
                string_views(custom@) == type_names(self.note_types@).take(i as int),
            decreases self.note_types@.len() - i,
        {
            let ghost old_c = string_views(custom@);
            custom.push(string_of(&chars_of(self.note_types[i].name.as_str())));
            assert(string_views(custom@) =~= old_c.push(self.note_types@[i as int].name@));
            assert(string_views(custom@) =~= type_names(self.note_types@).take(i + 1));
            i = i + 1;
        }
        assert(type_names(self.note_types@).take(self.note_types@.len() as int) =~= type_names(
            self.note_types@,
        ));
        let sorted = sort_strings(&custom);
        let ghost base = string_views(names@);
        let mut j: usize = 0;
        while j < sorted.len()
            invariant
                j <= sorted@.len(),
                string_views(names@) == base + string_views(sorted@).take(j as int),
            decreases sorted@.len() - j,
        {
            let ghost old_n = string_views(names@);
            names.push(string_of(&chars_of(sorted[j].as_str())));
            assert(string_views(names@) =~= old_n.push(sorted@[j as int]@));
            assert(string_views(names@) =~= base + string_views(sorted@).take(j + 1));
            j = j + 1;
        }
        assert(string_views(sorted@).take(sorted@.len() as int) =~= string_views(sorted@));
        names
    }
}

proof fn lemma_first_named_prefix(ts: Seq<NamedType>, name: Seq<char>, k: int)
    requires
        0 <= k < ts.len(),
        first_named(ts.take(k), name) is None,
        ts[k].name@ == name,
    ensures
        first_named(ts, name) == Some(k),
    decreases ts.len(),
{
    if k < ts.len() - 1 {
        assert(ts.drop_last().take(k) =~= ts.take(k));
        lemma_first_named_prefix(ts.drop_last(), name, k);
    } else {
        assert(ts.drop_last() =~= ts.take(k));
    }
}

/// The frontmatter keys the engine owns for a built-in type: `type`, and
/// the period key of the daily, weekly and monthly notes.
pub open spec fn hard_reserved(nt: NoteType) -> Seq<Seq<char>> {
    match nt {
        NoteType::Daily | NoteType::Weekly | NoteType::Monthly => seq![
            "type"@,
            nt.frontmatter_keys()[1],
        ],
        _ => seq!["type"@],
    }
}

pub fn hard_reserved_fields(nt: NoteType) -> (r: Vec<String>)
    ensures
        string_views(r@) == hard_reserved(nt),
{
    let mut r: Vec<String> = Vec::new();
    r.push("type".to_owned());
    match nt {
        NoteType::Daily | NoteType::Weekly | NoteType::Monthly => {
            let order = nt.frontmatter_order();
            r.push(order[1].to_owned());
        },
        _ => {},
    }
    assert(string_views(r@) =~= hard_reserved(nt));
    r
}

/// The declared schema fields of one type.
pub struct SchemaFields {
    pub note_type: String,
    pub fields: Vec<String>,
}

/// A custom type named like a built-in, ASCII case aside.
pub open spec fn shadows_builtin(name: Seq<char>) -> bool {
    exists|k: int| 0 <= k < 12 && ascii_lower_seq(builtin_names()[k]) == ascii_lower_seq(name)
}

/// The first configuration error: a custom type shadowing a built-in
/// name, then a built-in schema field redeclaring an engine-owned key,
/// each in the order given.
pub open spec fn first_reserved_type(ts: Seq<NamedType>) -> Option<int>
    decreases ts.len(),
{
    if ts.len() == 0 {
        None
    } else {
        match first_reserved_type(ts.drop_last()) {
            Some(k) => Some(k),
            None => if shadows_builtin(ts.last().name@) {
                Some(ts.len() - 1)
            } else {
                None
            },
        }
    }
}

/// The first field of `fields` the engine owns for `kind_name`, when
/// `kind_name` is a built-in.
pub open spec fn reserved_field(kind_name: Seq<char>, fields: Seq<Seq<char>>) -> Option<Seq<char>>
    decreases fields.len(),
{
    match NoteType::from_name_spec(kind_name) {
        Some(nt) => if fields.len() == 0 {
            None
        } else if hard_reserved(nt).contains(fields[0]) {
            Some(fields[0])
        } else {
            reserved_field(kind_name, fields.drop_first())
        },
        None => None,
    }
}

/// The first schema (type, field) pair redeclaring an engine-owned key.
pub open spec fn schema_error(schemas: Seq<SchemaFields>) -> Option<(Seq<char>, Seq<char>)>
    decreases schemas.len(),
{
    if schemas.len() == 0 {
        None
    } else {
        match reserved_field(schemas[0].note_type@, string_views(schemas[0].fields@)) {
            Some(f) => Some((schemas[0].note_type@, f)),
            None => schema_error(schemas.drop_first()),
        }
    }
}

fn shadows_builtin_exec(name: &Vec<char>) -> (b: bool)
    ensures
        b == shadows_builtin(name@),
{
    let builtins = builtin_name_strings();
    assert(string_views(builtins@).len() == builtins@.len());
    assert(builtins@.len() == 12);
    let lowered = ascii_lower_vec(name);
    let mut i: usize = 0;
    while i < builtins.len()
        invariant
            i <= builtins@.len(),
            string_views(builtins@) == builtin_names(),
            builtins@.len() == 12,
            lowered@ == ascii_lower_seq(name@),
            forall|k: int|
                0 <= k < i ==> ascii_lower_seq(builtin_names()[k]) != ascii_lower_seq(name@),
        decreases builtins@.len() - i,
    {
        assert(builtin_names()[i as int] == builtins@[i as int]@);
        if eq_exec(&ascii_lower_vec(&chars_of(builtins[i].as_str())), &lowered) {
            assert(ascii_lower_seq(builtin_names()[i as int]) == ascii_lower_seq(name@));
            return true;
        }
        i = i + 1;
    }
    false
}

fn reserved_field_exec(kind_name: &str, fields: &Vec<String>) -> (r: Option<String>)
    ensures
        match reserved_field(kind_name@, string_views(fields@)) {
            Some(f) => r matches Some(s) && s@ == f,
            None => r is None,
        },
{
    let nt = match NoteType::from_name(kind_name) {
        Ok(nt) => nt,
        Err(_) => {
            return None;
        },
    };
    let reserved = hard_reserved_fields(nt);
    let ghost fv = string_views(fields@);
    assert(fv.skip(0) =~= fv);
    let mut i: usize = 0;
    while i < fields.len()
        invariant
            i <= fields@.len(),
            fv == string_views(fields@),
            NoteType::from_name_spec(kind_name@) == Some(nt),
            string_views(reserved@) == hard_reserved(nt),
            reserved_field(kind_name@, fv) == reserved_field(kind_name@, fv.skip(i as int)),
        decreases fields@.len() - i,
    {
        let ghost rest = fv.skip(i as int);
        assert(rest[0] == fields@[i as int]@);
        assert(rest.drop_first() =~= fv.skip(i + 1));
        let f = chars_of(fields[i].as_str());
        let mut hit = false;
        let mut k: usize = 0;
        while k < reserved.len()
            invariant
                k <= reserved@.len(),
                string_views(reserved@) == hard_reserved(nt),
                hit == (exists|j: int| 0 <= j < k && hard_reserved(nt)[j] == f@),
            decreases reserved@.len() - k,
        {
            assert(hard_reserved(nt)[k as int] == reserved@[k as int]@);
            if eq_exec(&chars_of(reserved[k].as_str()), &f) {
                hit = true;
            }
            k = k + 1;
        }
        proof {
            if hard_reserved(nt).contains(f@) {
                let j = choose|j: int| 0 <= j < hard_reserved(nt).len() && hard_reserved(nt)[j]
                    == f@;
                assert(hit);
            }
        }
        if hit {
            return Some(string_of(&f));
        }
        i = i + 1;
    }
    None
}

/// Validate the declared types: a custom type may not be named like a
/// built-in (ASCII case aside), and a built-in's schema may not redeclare
/// a key the engine owns. The first offence, in the order given, is
/// reported.
pub fn validate_types(note_types: &Vec<NamedType>, schemas: &Vec<SchemaFields>) -> (r: Result<
    (),
    DomainError,
>)
    ensures
        match first_reserved_type(note_types@) {
            Some(k) => (r matches Err(DomainError::ReservedTypeName { name: n }) && n@
                == note_types@[k].name@),
            None => match schema_error(schemas@) {
                Some((t, f)) => (r matches Err(
                    DomainError::ReservedSchemaField { note_type: nt, field: fl },
                ) && nt@ == t && fl@ == f),
                None => r is Ok,
            },
        },
{
    let mut i: usize = 0;
    while i < note_types.len()
        invariant
            i <= note_types@.len(),
            first_reserved_type(note_types@.take(i as int)) is None,
        decreases note_types@.len() - i,
    {
        assert(note_types@.take(i + 1).drop_last() =~= note_types@.take(i as int));
        let name = chars_of(note_types[i].name.as_str());
        if shadows_builtin_exec(&name) {
            proof {
                lemma_first_reserved_prefix(note_types@, i as int);
            }
            return Err(DomainError::ReservedTypeName { name: string_of(&name) });
        }
        i = i + 1;
    }
    assert(note_types@.take(note_types@.len() as int) =~= note_types@);
    let ghost sv = schemas@;
    assert(sv.skip(0) =~= sv);
    let mut j: usize = 0;
    while j < schemas.len()
        invariant
            j <= schemas@.len(),
            sv == schemas@,
            first_reserved_type(note_types@) is None,
            schema_error(sv) == schema_error(sv.skip(j as int)),
        decreases schemas@.len() - j,
    {
        let ghost rest = sv.skip(j as int);
        assert(rest[0] == schemas@[j as int]);
        assert(rest.drop_first() =~= sv.skip(j + 1));
        let sc = &schemas[j];
        if let Some(f) = reserved_field_exec(sc.note_type.as_str(), &sc.fields) {
            return Err(
                DomainError::ReservedSchemaField {
                    note_type: string_of(&chars_of(sc.note_type.as_str())),
                    field: f,
                },
            );
        }
        j = j + 1;
    }
    Ok(())
}

proof fn lemma_first_reserved_prefix(ts: Seq<NamedType>, k: int)
    requires
        0 <= k < ts.len(),
        first_reserved_type(ts.take(k)) is None,
        shadows_builtin(ts[k].name@),
    ensures
        first_reserved_type(ts) == Some(k),
    decreases ts.len(),
{
    if k < ts.len() - 1 {
        assert(ts.drop_last().take(k) =~= ts.take(k));
        lemma_first_reserved_prefix(ts.drop_last(), k);
    } else {
        assert(ts.drop_last() =~= ts.take(k));
    }
}

} // verus!
