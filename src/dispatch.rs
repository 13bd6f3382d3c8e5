//! Compilation of a schema model into a dispatch table, and translation of
//! a variant's values into a classified message.
use vstd::prelude::*;
use crate::schema::{
    opt_view, qualified, qualified_name, clone_opt, CompileError, Failure, SchemaModel,
    VariantDescriptor,
};
use crate::template::{
    names_view, parse_template, render, render_pieces, resolve_template, ParsedTemplate, Piece,
    Unresolved,
};

verus! {

/// A variant ready for translation: its templates parsed and resolved.
#[derive(Debug, Clone, PartialEq, Eq)]
pub struct CompiledVariant {
    pub name: String,
    pub slots: Vec<String>,
    pub kind: Option<String>,
    pub en: Option<ParsedTemplate>,
    pub ja: Option<ParsedTemplate>,
}

/// The compiled schema: one entry per variant, in declaration order.
#[derive(Debug, Clone, PartialEq, Eq)]
pub struct DispatchTable {
    pub enum_name: String,
    pub variants: Vec<CompiledVariant>,
}

/// What translating a variant gives before its kind tag is classified.
#[derive(Debug, Clone, PartialEq, Eq)]
pub enum Translation {
    /// The variant has a template for the language: its kind tag and message.
    Rendered { kind: String, message: String },
    /// The variant has no template for the language.
    UnknownLanguage,
}

/// The classification of a translated message.
#[derive(Debug, Clone, PartialEq, Eq)]
pub enum LogKind<K> {
    /// The kind that the classification table gave for the tag.
    Known(K),
    /// The tag is not in the classification table.
    ErrorKind,
    /// The variant has no template for the language.
    UnknownKind,
}

/// The resolution of an optional template.
pub open spec fn template_outcome(t: Option<String>, slots: Seq<Seq<char>>) -> Result<
    Option<Seq<Piece>>,
    Unresolved,
> {
    match t {
        None => Ok(None),
        Some(s) => match resolve_template(s@, slots) {
            Ok(p) => Ok(Some(p)),
            Err(e) => Err(e),
        },
    }
}

/// The pieces of an optional parsed template.
pub open spec fn opt_pieces(p: Option<ParsedTemplate>) -> Option<Seq<Piece>> {
    match p {
        Some(t) => Some(t.pieces()),
        None => None,
    }
}

/// What compiling variant `v` of enum `e` gives: the resolved `en` and `ja`
/// templates, or the first failure, checking the `en` template and then
/// its kind tag, and then the same for `ja`.
pub open spec fn variant_outcome(e: Seq<char>, v: VariantDescriptor) -> Result<
    (Option<Seq<Piece>>, Option<Seq<Piece>>),
    Failure,
> {
    let q = qualified(e, v.name@);
    let f = names_view(v.slots@);
    match template_outcome(v.en, f) {
        Err(u) => Err(Failure::PlaceholderResolution { variant: q, at: u, fields: f }),
        Ok(en) => if v.en is Some && v.kind is None {
            Err(Failure::MissingKind(q))
        } else {
            match template_outcome(v.ja, f) {
                Err(u) => Err(Failure::PlaceholderResolution { variant: q, at: u, fields: f }),
                Ok(ja) => if v.ja is Some && v.kind is None {
                    Err(Failure::MissingKind(q))
                } else {
                    Ok((en, ja))
                },
            }
        },
    }
}

/// An optional parsed template is well formed and refers to slots below `n`.
pub open spec fn opt_template_wf(p: Option<ParsedTemplate>, n: nat) -> bool {
    match p {
        Some(t) => t.wf() && t.refs_below(n),
        None => true,
    }
}

impl CompiledVariant {
    /// Its templates are well formed, refer to its slots, and come with a
    /// kind tag.
    pub open spec fn wf(&self) -> bool {
        &&& opt_template_wf(self.en, self.slots@.len())
        &&& opt_template_wf(self.ja, self.slots@.len())
        &&& (self.en is Some || self.ja is Some) ==> self.kind is Some
    }

    /// This is what compiling `v` of enum `e` gives.
    pub open spec fn compiles(&self, e: Seq<char>, v: VariantDescriptor) -> bool {
        &&& self.wf()
        &&& self.name@ == v.name@
        &&& names_view(self.slots@) == names_view(v.slots@)
        &&& opt_view(self.kind) == opt_view(v.kind)
        &&& variant_outcome(e, v) == Ok::<_, Failure>((opt_pieces(self.en), opt_pieces(self.ja)))
    }
}

impl DispatchTable {
    pub open spec fn wf(&self) -> bool {
        forall|i: int| 0 <= i < self.variants@.len() ==> (#[trigger] self.variants@[i]).wf()
    }
}

/// Parses an optional template of a variant whose qualified name is `q`.
fn compile_template(t: &Option<String>, slots: &Vec<String>, q: &String) -> (r: Result<
    Option<ParsedTemplate>,
    CompileError,
>)
    ensures
        r is Ok <==> template_outcome(*t, names_view(slots@)) is Ok,
        r is Ok ==> template_outcome(*t, names_view(slots@))->Ok_0 == opt_pieces(r->Ok_0)
            && opt_template_wf(r->Ok_0, slots@.len()) && (r->Ok_0 is Some <==> t is Some),
        r is Err ==> r->Err_0.view() == (Failure::PlaceholderResolution {
            variant: q@,
            at: template_outcome(*t, names_view(slots@))->Err_0,
            fields: names_view(slots@),
        }),
{
    match t {
        None => Ok(None),
        Some(s) => match parse_template(s.as_str(), slots) {
            Ok(p) => Ok(Some(p)),
            Err(e) => Err(
                CompileError::PlaceholderResolution {
                    variant: q.clone(),
                    placeholder: e.placeholder,
                    slot: e.slot,
                    fields: clone_names(slots),
                },
            ),
        },
    }
}

/// A copy of a list of names.
fn clone_names(v: &Vec<String>) -> (r: Vec<String>)
    ensures
        names_view(r@) == names_view(v@),
{
    let mut r: Vec<String> = Vec::new();
    let mut i: usize = 0;
    while i < v.len()
        invariant
            i <= v@.len(),
            r@.len() == i,
            forall|j: int| 0 <= j < i ==> (#[trigger] r@[j])@ == v@[j]@,
        decreases v.len() - i,
    {
        r.push(v[i].clone());
        i = i + 1;
    }
    assert(names_view(r@) =~= names_view(v@));
    r
}

/// Compiles one variant of enum `enum_name`: resolves its `en` template and
/// checks its kind tag, then does the same for `ja`; stops at the first
/// failure.
pub fn compile_variant(enum_name: &str, v: &VariantDescriptor) -> (r: Result<
    CompiledVariant,
    CompileError,
>)
    ensures
        r is Ok <==> variant_outcome(enum_name@, *v) is Ok,
        r is Ok ==> r->Ok_0.compiles(enum_name@, *v),
        r is Err ==> variant_outcome(enum_name@, *v)->Err_0 == r->Err_0.view(),
{
    let q = qualified_name(enum_name, v.name.as_str());
    let en = match compile_template(&v.en, &v.slots, &q) {
        Ok(p) => p,
        Err(e) => {
            return Err(e);
        },
    };
    if v.en.is_some() && v.kind.is_none() {
        return Err(CompileError::MissingKind { variant: q });
    }
    let ja = match compile_template(&v.ja, &v.slots, &q) {
        Ok(p) => p,
        Err(e) => {
            return Err(e);
        },
    };
    if v.ja.is_some() && v.kind.is_none() {
        return Err(CompileError::MissingKind { variant: q });
    }
    Ok(
        CompiledVariant {
            name: v.name.clone(),
            slots: clone_names(&v.slots),
            kind: clone_opt(&v.kind),
            en,
            ja,
        },
    )
}

/// Compiles every variant of the model, in order; fails with the first
/// variant's failure.
pub fn compile_schema(m: &SchemaModel) -> (r: Result<DispatchTable, CompileError>)
    ensures
        r is Ok <==> forall|i: int|
            0 <= i < m.variants@.len() ==> (#[trigger] variant_outcome(
                m.enum_name@,
                m.variants@[i],
            )) is Ok,
        r is Ok ==> r->Ok_0.enum_name@ == m.enum_name@ && r->Ok_0.variants@.len()
            == m.variants@.len() && forall|i: int|
            0 <= i < m.variants@.len() ==> (#[trigger] r->Ok_0.variants@[i]).compiles(
                m.enum_name@,
                m.variants@[i],
            ),
        r is Ok ==> r->Ok_0.wf(),
        r is Err ==> exists|i: int|
            0 <= i < m.variants@.len() && (#[trigger] variant_outcome(
                m.enum_name@,
                m.variants@[i],
            )) == Err::<(Option<Seq<Piece>>, Option<Seq<Piece>>), Failure>(r->Err_0.view())
                && forall|j: int|
                0 <= j < i ==> (#[trigger] variant_outcome(m.enum_name@, m.variants@[j])) is Ok,
{
    let mut variants: Vec<CompiledVariant> = Vec::new();
    let mut i: usize = 0;
    while i < m.variants.len()
        invariant
            i <= m.variants@.len(),
            variants@.len() == i,
            forall|j: int|
                0 <= j < i ==> (#[trigger] variants@[j]).compiles(m.enum_name@, m.variants@[j]),
            forall|j: int|
                0 <= j < i ==> (#[trigger] variant_outcome(m.enum_name@, m.variants@[j])) is Ok,
        decreases m.variants.len() - i,
    {
        match compile_variant(m.enum_name.as_str(), &m.variants[i]) {
            Ok(cv) => {
                variants.push(cv);
            },
            Err(e) => {
                assert(variant_outcome(m.enum_name@, m.variants@[i as int]) is Err);
                return Err(e);
            },
        }
        i = i + 1;
    }
    let t = DispatchTable { enum_name: m.enum_name.clone(), variants };
    assert forall|j: int| 0 <= j < t.variants@.len() implies (#[trigger] t.variants@[j]).wf() by {
        assert(t.variants@[j].compiles(m.enum_name@, m.variants@[j]));
    }
    Ok(t)
}


/// The template of `v` for the language code `lang`, if it has one.
pub open spec fn selected(v: CompiledVariant, lang: Seq<char>) -> Option<ParsedTemplate> {
    if lang == "en"@ {
        v.en
    } else if lang == "ja"@ {
        v.ja
    } else {
        None
    }
}

/// `r` is the translation of variant `v` into `lang`, its slots holding
/// `values`.
pub open spec fn translates(
    r: Translation,
    v: CompiledVariant,
    lang: Seq<char>,
    values: Seq<Seq<char>>,
) -> bool {
    match selected(v, lang) {
        None => r is UnknownLanguage,
        Some(p) => match r {
            Translation::Rendered { kind, message } => v.kind is Some && kind@ == v.kind->0@
                && message@ == render_pieces(p.pieces(), values),
            Translation::UnknownLanguage => false,
        },
    }
}

/// The sentinel message of a language with no template.
pub open spec fn unknown_language_text() -> Seq<char> {
    "<UNKNOWN_LANGUAGE>"@
}

/// The sentinel message of a kind tag that the classification table lacks.
pub open spec fn unknown_kind_text() -> Seq<char> {
    "<UNKNOWN_LOG_KIND>"@
}

/// `r` is the classified message for translation `t`, where `lookup` is
/// what the classification table gave for its kind tag.
pub open spec fn classifies<K>(r: (LogKind<K>, String), t: Translation, lookup: Option<K>) -> bool {
    match t {
        Translation::UnknownLanguage => r.0 == LogKind::<K>::UnknownKind && r.1@
            == unknown_language_text(),
        Translation::Rendered { kind, message } => match lookup {
            Some(k) => r.0 == LogKind::Known(k) && r.1@ == message@,
            None => r.0 == LogKind::<K>::ErrorKind && r.1@ == unknown_kind_text(),
        },
    }
}

/// Whether `a` and `b` hold the same text.
fn same_text(a: &str, b: &str) -> (r: bool)
    ensures
        r == (a@ == b@),
{
    String::from_str(a) == String::from_str(b)
}

/// Translates variant `variant` of the table into language `lang`, its
/// slots holding `values` (already written out as text): its kind tag and
/// rendered message, or `UnknownLanguage` where it has no template for
/// `lang`.
pub fn translate(table: &DispatchTable, variant: usize, lang: &str, values: &Vec<String>) -> (r:
    Translation)
    requires
        table.wf(),
        variant < table.variants@.len(),
        values@.len() == table.variants@[variant as int].slots@.len(),
    ensures
        translates(r, table.variants@[variant as int], lang@, names_view(values@)),
{
    let v = &table.variants[variant];
    assert(v.wf());
    let t = if same_text(lang, "en") {
        &v.en
    } else if same_text(lang, "ja") {
        &v.ja
    } else {
        return Translation::UnknownLanguage;
    };
    match t {
        Some(p) => {
            let kind = match &v.kind {
                Some(k) => k.clone(),
                None => {
                    return Translation::UnknownLanguage;
                },
            };
            Translation::Rendered { kind, message: render(p, values) }
        },
        None => Translation::UnknownLanguage,
    }
}

/// Classifies a translation, where `lookup` is what the classification table
/// gave for its kind tag: the kind found and the message; `ErrorKind` and
/// `<UNKNOWN_LOG_KIND>` where the table lacks the tag; `UnknownKind` and
/// `<UNKNOWN_LANGUAGE>` where there was no template.
pub fn classify<K>(t: Translation, lookup: Option<K>) -> (r: (LogKind<K>, String))
    ensures
        classifies(r, t, lookup),
{
    match t {
        Translation::UnknownLanguage => (LogKind::UnknownKind, String::from_str("<UNKNOWN_LANGUAGE>")),
        Translation::Rendered { kind: _, message } => match lookup {
            Some(k) => (LogKind::Known(k), message),
            None => (LogKind::ErrorKind, String::from_str("<UNKNOWN_LOG_KIND>")),
        },
    }
}

} // verus!
