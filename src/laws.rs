//! Laws of placeholder resolution, rendering and dispatch.
use vstd::prelude::*;
use crate::dispatch::{
    classifies, selected, template_outcome, translates, unknown_language_text, variant_outcome,
    CompiledVariant, LogKind, Translation,
};
use crate::schema::{qualified, Failure, VariantDescriptor};
use crate::template::{
    all_digits, count_places, find_slot, find_slot_from, fixed_slot, names_view, piece_text,
    render_pieces, resolve, resolve_place, resolve_template, tokens, Piece, Token, Unresolved,
};
use crate::text::{digits_value, is_digit};

verus! {

/// Every placeholder among `toks` is positional.
pub open spec fn only_positional(toks: Seq<Token>) -> bool {
    forall|j: int| 0 <= j < toks.len() ==> (#[trigger] toks[j] matches Token::Place(b) ==> b.len() == 0)
}

/// The values bound by the slots of `pieces`, left to right.
pub open spec fn bound_values(pieces: Seq<Piece>, values: Seq<Seq<char>>) -> Seq<Seq<char>>
    decreases pieces.len(),
{
    if pieces.len() == 0 {
        Seq::empty()
    } else {
        match pieces[0] {
            Piece::Slot(k) => seq![values[k as int]] + bound_values(pieces.drop_first(), values),
            Piece::Text(_) => bound_values(pieces.drop_first(), values),
        }
    }
}

/// The tokens with their literal text kept and the placeholders replaced,
/// left to right, by `xs`.
pub open spec fn fill(toks: Seq<Token>, xs: Seq<Seq<char>>) -> Seq<char>
    decreases toks.len(),
{
    if toks.len() == 0 {
        Seq::empty()
    } else {
        match toks[0] {
            Token::Text(c) => c + fill(toks.drop_first(), xs),
            Token::Place(_) => xs[0] + fill(toks.drop_first(), xs.drop_first()),
        }
    }
}

proof fn lemma_positional(toks: Seq<Token>, fields: Seq<Seq<char>>, c: nat)
    requires
        only_positional(toks),
        c <= fields.len(),
    ensures
        resolve(toks, fields, c) is Ok <==> c + count_places(toks) <= fields.len(),
    decreases toks.len(),
{
    if toks.len() > 0 {
        let rest = toks.drop_first();
        assert(only_positional(rest)) by {
            assert forall|j: int| 0 <= j < rest.len() implies (#[trigger] rest[j] matches Token::Place(
                b,
            ) ==> b.len() == 0) by {
                assert(rest[j] == toks[j + 1]);
            }
        }
        match toks[0] {
            Token::Text(_) => {
                lemma_positional(rest, fields, c);
            },
            Token::Place(b) => {
                assert(b.len() == 0);
                if c < fields.len() {
                    lemma_positional(rest, fields, c + 1);
                }
            },
        }
    }
}

proof fn lemma_resolve_len(toks: Seq<Token>, fields: Seq<Seq<char>>, c: nat)
    requires
        resolve(toks, fields, c) is Ok,
    ensures
        resolve(toks, fields, c)->Ok_0.len() == toks.len(),
    decreases toks.len(),
{
    if toks.len() > 0 {
        match toks[0] {
            Token::Text(_) => lemma_resolve_len(toks.drop_first(), fields, c),
            Token::Place(b) => {
                let next = resolve_place(b, fields, c)->Ok_0.1;
                lemma_resolve_len(toks.drop_first(), fields, next);
            },
        }
    }
}

proof fn lemma_fixed(toks: Seq<Token>, fields: Seq<Seq<char>>, c: nat, j: int, b: Seq<char>)
    requires
        0 <= j < toks.len(),
        toks[j] == Token::Place(b),
        b.len() > 0,
    ensures
        fixed_slot(b, fields) is None ==> resolve(toks, fields, c) is Err,
        resolve(toks, fields, c) is Ok ==> resolve(toks, fields, c)->Ok_0[j] == Piece::Slot(
            fixed_slot(b, fields)->0,
        ),
    decreases j,
{
    if resolve(toks, fields, c) is Ok {
        lemma_resolve_len(toks, fields, c);
    }
    if j > 0 {
        let rest = toks.drop_first();
        assert(rest[j - 1] == toks[j]);
        match toks[0] {
            Token::Text(_) => {
                lemma_fixed(rest, fields, c, j - 1, b);
            },
            Token::Place(b0) => {
                match resolve_place(b0, fields, c) {
                    Ok((_, next)) => {
                        lemma_fixed(rest, fields, next, j - 1, b);
                    },
                    Err(_) => {},
                }
            },
        }
    }
}

proof fn lemma_find_slot(fields: Seq<Seq<char>>, name: Seq<char>, j: int)
    requires
        0 <= j <= fields.len(),
    ensures
        find_slot_from(fields, name, j) matches Some(i) ==> j <= i < fields.len() && fields[i as int]
            == name,
        find_slot_from(fields, name, j) is None ==> forall|k: int|
            j <= k < fields.len() ==> fields[k] != name,
    decreases fields.len() - j,
{
    if j < fields.len() {
        lemma_find_slot(fields, name, j + 1);
    }
}

/// A template whose placeholders are all positional resolves exactly when
/// it has no more placeholders than the variant has field slots.
pub proof fn law_positional_count(t: Seq<char>, fields: Seq<Seq<char>>)
    requires
        only_positional(tokens(t)),
    ensures
        resolve_template(t, fields) is Ok <==> count_places(tokens(t)) <= fields.len(),
{
    lemma_positional(tokens(t), fields, 0);
}

/// A variant whose `en` template has only positional placeholders, more of
/// them than it has field slots, fails to compile with a placeholder
/// resolution failure that names the variant.
pub proof fn law_positional_overflow_names_variant(e: Seq<char>, v: VariantDescriptor)
    requires
        v.en is Some,
        only_positional(tokens(v.en->0@)),
        count_places(tokens(v.en->0@)) > v.slots@.len(),
    ensures
        variant_outcome(e, v) matches Err(Failure::PlaceholderResolution { variant, .. }) && variant
            == qualified(e, v.name@),
{
    lemma_positional(tokens(v.en->0@), names_view(v.slots@), 0);
}

/// An indexed placeholder `{k}` binds to slot `k`; where `k` is not below the
/// number of slots, the template does not resolve.
pub proof fn law_indexed_binding(t: Seq<char>, fields: Seq<Seq<char>>, j: int, b: Seq<char>)
    requires
        0 <= j < tokens(t).len(),
        tokens(t)[j] == Token::Place(b),
        b.len() > 0,
        all_digits(b),
    ensures
        digits_value(b) >= fields.len() ==> resolve_template(t, fields) is Err,
        resolve_template(t, fields) is Ok ==> digits_value(b) < fields.len() && resolve_template(
            t,
            fields,
        )->Ok_0[j] == Piece::Slot(digits_value(b)),
{
    lemma_fixed(tokens(t), fields, 0, j, b);
}

/// A named placeholder `{name}` binds to the slot of that name; where no
/// slot has that name, the template does not resolve.
pub proof fn law_named_binding(t: Seq<char>, fields: Seq<Seq<char>>, j: int, b: Seq<char>)
    requires
        0 <= j < tokens(t).len(),
        tokens(t)[j] == Token::Place(b),
        b.len() > 0,
        !is_digit(b[0]),
    ensures
        (forall|i: int| 0 <= i < fields.len() ==> fields[i] != b) ==> resolve_template(t, fields) is Err,
        resolve_template(t, fields) is Ok ==> exists|i: int|
            0 <= i < fields.len() && fields[i] == b && resolve_template(t, fields)->Ok_0[j]
                == Piece::Slot(i as nat),
{
    assert(!all_digits(b));
    lemma_find_slot(fields, b, 0);
    lemma_fixed(tokens(t), fields, 0, j, b);
    if resolve_template(t, fields) is Ok {
        let i = find_slot(fields, b)->0;
        assert(fields[i as int] == b);
    }
}

proof fn lemma_round_trip(toks: Seq<Token>, fields: Seq<Seq<char>>, c: nat, values: Seq<Seq<char>>)
    requires
        resolve(toks, fields, c) is Ok,
    ensures
        render_pieces(resolve(toks, fields, c)->Ok_0, values) == fill(
            toks,
            bound_values(resolve(toks, fields, c)->Ok_0, values),
        ),
    decreases toks.len(),
{
    if toks.len() > 0 {
        let r = resolve(toks, fields, c)->Ok_0;
        let rest = toks.drop_first();
        match toks[0] {
            Token::Text(t) => {
                let r1 = resolve(rest, fields, c)->Ok_0;
                lemma_round_trip(rest, fields, c, values);
                assert(r == seq![Piece::Text(t)] + r1);
                assert(r.drop_first() =~= r1);
                assert(r[0] == Piece::Text(t));
            },
            Token::Place(b) => {
                let (k, next) = resolve_place(b, fields, c)->Ok_0;
                let r1 = resolve(rest, fields, next)->Ok_0;
                lemma_round_trip(rest, fields, next, values);
                assert(r == seq![Piece::Slot(k)] + r1);
                assert(r.drop_first() =~= r1);
                assert(r[0] == Piece::Slot(k));
                let xs = bound_values(r, values);
                assert(xs == seq![values[k as int]] + bound_values(r1, values));
                assert(xs.drop_first() =~= bound_values(r1, values));
            },
        }
    }
}

/// Rendering a resolved template keeps its literal text and puts in place
/// of its placeholders, left to right, the values of the slots they were
/// resolved to, whatever their form.
pub proof fn law_render_round_trip(t: Seq<char>, fields: Seq<Seq<char>>, values: Seq<Seq<char>>)
    requires
        resolve_template(t, fields) is Ok,
    ensures
        render_pieces(resolve_template(t, fields)->Ok_0, values) == fill(
            tokens(t),
            bound_values(resolve_template(t, fields)->Ok_0, values),
        ),
{
    lemma_round_trip(tokens(t), fields, 0, values);
}

/// Translating a variant into a language for which it has no template, then
/// classifying the result, gives `UnknownKind` and `<UNKNOWN_LANGUAGE>`,
/// whatever the classification table says.
pub proof fn law_no_template_sentinel<K>(
    v: CompiledVariant,
    lang: Seq<char>,
    values: Seq<Seq<char>>,
    t: Translation,
    lookup: Option<K>,
    r: (LogKind<K>, String),
)
    requires
        selected(v, lang) is None,
        translates(t, v, lang, values),
        classifies(r, t, lookup),
    ensures
        r.0 == LogKind::<K>::UnknownKind,
        r.1@ == unknown_language_text(),
{
}

/// A variant with a template but no kind tag does not compile; where its
/// templates resolve, the failure is the missing kind, naming the variant.
pub proof fn law_missing_kind(e: Seq<char>, v: VariantDescriptor)
    requires
        v.kind is None,
        v.en is Some || v.ja is Some,
    ensures
        variant_outcome(e, v) is Err,
        template_outcome(v.en, names_view(v.slots@)) is Ok && template_outcome(
            v.ja,
            names_view(v.slots@),
        ) is Ok ==> variant_outcome(e, v) == Err::<(Option<Seq<Piece>>, Option<Seq<Piece>>), Failure>(
            Failure::MissingKind(qualified(e, v.name@)),
        ),
{
}

} // verus!
