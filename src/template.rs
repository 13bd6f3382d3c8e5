//! The placeholder grammar of templates, the resolution of placeholders
//! against a variant's field slots, and the rendering of resolved templates.
//!
//! A placeholder is `{`, a body, `}`, where the body is empty (positional),
//! a run of ASCII digits (indexed) or an identifier (named). Any other `{`
//! is literal text.
use vstd::prelude::*;
use crate::text::{digits_value, is_digit, is_word_char};

verus! {

/// One token of a template: a literal character (held as a one-character
/// sequence) or a placeholder with its body.
pub enum Token {
    Text(Seq<char>),
    Place(Seq<char>),
}

/// One piece of a resolved template: a literal character (held as a
/// one-character sequence) or a field slot.
pub enum Piece {
    Text(Seq<char>),
    Slot(nat),
}

/// A placeholder that did not resolve: its text, and the slot position it
/// sought where that position is a machine-size number.
pub struct Unresolved {
    pub placeholder: Seq<char>,
    pub slot: Option<nat>,
}

/// Length of the run of word characters in `s` from `i`.
pub open spec fn word_run(s: Seq<char>, i: int) -> nat
    decreases s.len() - i,
{
    if 0 <= i < s.len() && is_word_char(s[i]) {
        1 + word_run(s, i + 1)
    } else {
        0
    }
}

/// Every character of `b` is an ASCII digit.
pub open spec fn all_digits(b: Seq<char>) -> bool {
    forall|k: int| 0 <= k < b.len() ==> is_digit(#[trigger] b[k])
}

/// A run of word characters that may stand between braces: empty, a numeral,
/// or an identifier (not starting with a digit).
pub open spec fn is_placeholder_body(b: Seq<char>) -> bool {
    b.len() == 0 || all_digits(b) || !is_digit(b[0])
}

/// The body length of the placeholder that starts at `i`, if one does.
pub open spec fn placeholder_at(s: Seq<char>, i: int) -> Option<nat> {
    let n = word_run(s, i + 1);
    if 0 <= i && i + n + 1 < s.len() && s[i] == '{' && s[i + n + 1] == '}'
        && is_placeholder_body(s.subrange(i + 1, i + 1 + n)) {
        Some(n)
    } else {
        None
    }
}

/// The tokens of `s` from position `i`, scanning left to right.
pub open spec fn tokens_from(s: Seq<char>, i: int) -> Seq<Token>
    decreases s.len() - i,
{
    if i < 0 || i >= s.len() {
        Seq::empty()
    } else {
        match placeholder_at(s, i) {
            Some(n) => seq![Token::Place(s.subrange(i + 1, i + 1 + n))] + tokens_from(
                s,
                i + n + 2,
            ),
            None => seq![Token::Text(seq![s[i]])] + tokens_from(s, i + 1),
        }
    }
}

/// The tokens of a whole template.
pub open spec fn tokens(s: Seq<char>) -> Seq<Token> {
    tokens_from(s, 0)
}

/// The number of placeholders among `toks`.
pub open spec fn count_places(toks: Seq<Token>) -> nat
    decreases toks.len(),
{
    if toks.len() == 0 {
        0
    } else {
        (if toks[0] is Place { 1nat } else { 0nat }) + count_places(toks.drop_first())
    }
}

/// The first slot named `name`, searching from position `j`.
pub open spec fn find_slot_from(fields: Seq<Seq<char>>, name: Seq<char>, j: int) -> Option<nat>
    decreases fields.len() - j,
{
    if j < 0 || j >= fields.len() {
        None
    } else if fields[j] == name {
        Some(j as nat)
    } else {
        find_slot_from(fields, name, j + 1)
    }
}

/// The first slot named `name`.
pub open spec fn find_slot(fields: Seq<Seq<char>>, name: Seq<char>) -> Option<nat> {
    find_slot_from(fields, name, 0)
}

/// The text of the placeholder with body `b`.
pub open spec fn braced(b: Seq<char>) -> Seq<char> {
    seq!['{'] + b + seq!['}']
}

/// The slot an indexed or named placeholder binds to, whatever the
/// positional cursor: the numeral's value if it is in range, else the first
/// slot of that name.
pub open spec fn fixed_slot(b: Seq<char>, fields: Seq<Seq<char>>) -> Option<nat> {
    if all_digits(b) {
        if digits_value(b) < fields.len() {
            Some(digits_value(b))
        } else {
            None
        }
    } else {
        find_slot(fields, b)
    }
}

/// Resolves one placeholder body at positional cursor `cursor`: the slot it
/// binds to and the cursor after it.
pub open spec fn resolve_place(b: Seq<char>, fields: Seq<Seq<char>>, cursor: nat) -> Result<
    (nat, nat),
    Unresolved,
> {
    if b.len() == 0 {
        if cursor < fields.len() {
            Ok((cursor, cursor + 1))
        } else {
            Err(Unresolved { placeholder: braced(b), slot: Some(cursor) })
        }
    } else {
        match fixed_slot(b, fields) {
            Some(k) => {
                Ok((k, cursor))
            },
            None => Err(
                Unresolved {
                    placeholder: braced(b),
                    slot: if all_digits(b) && digits_value(b) <= usize::MAX {
                        Some(digits_value(b))
                    } else {
                        None
                    },
                },
            ),
        }
    }
}

/// `p` in front of a resolution, or its failure unchanged.
pub open spec fn prepend(p: Piece, r: Result<Seq<Piece>, Unresolved>) -> Result<
    Seq<Piece>,
    Unresolved,
> {
    match r {
        Ok(rest) => Ok(seq![p] + rest),
        Err(e) => Err(e),
    }
}

/// Resolves every placeholder of `toks`, left to right, with the positional
/// cursor starting at `cursor`; fails at the first that does not resolve.
pub open spec fn resolve(toks: Seq<Token>, fields: Seq<Seq<char>>, cursor: nat) -> Result<
    Seq<Piece>,
    Unresolved,
>
    decreases toks.len(),
{
    if toks.len() == 0 {
        Ok(Seq::empty())
    } else {
        match toks[0] {
            Token::Text(c) => prepend(Piece::Text(c), resolve(toks.drop_first(), fields, cursor)),
            Token::Place(b) => match resolve_place(b, fields, cursor) {
                Ok((k, next)) => prepend(Piece::Slot(k), resolve(toks.drop_first(), fields, next)),
                Err(e) => Err(e),
            },
        }
    }
}

/// The resolution of template `t` against the field slots `fields`.
pub open spec fn resolve_template(t: Seq<char>, fields: Seq<Seq<char>>) -> Result<
    Seq<Piece>,
    Unresolved,
> {
    resolve(tokens(t), fields, 0)
}

/// Whether a placeholder starts at position `i` of `t`, and its body length.
fn scan_placeholder(t: &str, i: usize, n: usize) -> (r: Option<usize>)
    requires
        n == t@.len(),
        i < n,
    ensures
        r matches Some(k) ==> placeholder_at(t@, i as int) == Some(k as nat),
        r is None ==> placeholder_at(t@, i as int) is None,
{
    let ghost s = t@;
    if t.get_char(i) != '{' {
        return None;
    }
    let mut j: usize = i + 1;
    while j < n && is_word(t.get_char(j))
        invariant
            n == s.len(),
            s == t@,
            i + 1 <= j <= n,
            word_run(s, i + 1 as int) == (j - (i + 1)) + word_run(s, j as int),
        decreases n - j,
    {
        j = j + 1;
    }
    assert(word_run(s, j as int) == 0);
    if j >= n || t.get_char(j) != '}' {
        return None;
    }
    let len: usize = j - i - 1;
    let ghost body = s.subrange(i + 1, i + 1 + len);
    if len == 0 {
        return Some(0);
    }
    if !is_digit_char(t.get_char(i + 1)) {
        return Some(len);
    }
    let mut k: usize = i + 1;
    while k < j
        invariant
            s == t@,
            n == s.len(),
            len == j - i - 1,
            i + 1 <= k <= j < n,
            word_run(s, i + 1 as int) == len,
            is_digit(s[i + 1 as int]),
            body == s.subrange(i + 1, j as int),
            forall|m: int| 0 <= m < k - (i + 1) ==> is_digit(#[trigger] body[m]),
        decreases j - k,
    {
        if !is_digit_char(t.get_char(k)) {
            assert(body[k - (i + 1)] == s[k as int]);
            assert(!all_digits(body));
            assert(body[0] == s[i + 1]);
            assert(word_run(s, i + 1 as int) == len);
            assert(!is_placeholder_body(body));
            return None;
        }
        k = k + 1;
    }
    Some(len)
}

fn is_digit_char(c: char) -> (r: bool)
    ensures
        r == is_digit(c),
{
    '0' <= c && c <= '9'
}

fn is_word(c: char) -> (r: bool)
    ensures
        r == is_word_char(c),
{
    ('a' <= c && c <= 'z') || ('A' <= c && c <= 'Z') || is_digit_char(c) || c == '_'
}


/// A run of literal text, or a reference to the field slot at a position.
#[derive(Debug, Clone, PartialEq, Eq)]
pub enum Segment {
    Literal(String),
    Arg(usize),
}

/// A template split into literal runs and resolved field references, with
/// the same template rewritten so that every placeholder reads `{}`.
#[derive(Debug, Clone, PartialEq, Eq)]
pub struct ParsedTemplate {
    pub segments: Vec<Segment>,
    pub normalized: String,
}

/// A placeholder that did not resolve: its text as written, and the slot
/// position it sought (the cursor, or the index) where there is one.
#[derive(Debug, Clone, PartialEq, Eq)]
pub struct PlaceholderError {
    pub placeholder: String,
    pub slot: Option<usize>,
}

/// The pieces of one segment.
pub open spec fn segment_pieces(seg: Segment) -> Seq<Piece> {
    match seg {
        Segment::Literal(s) => char_pieces(s@),
        Segment::Arg(k) => seq![Piece::Slot(k as nat)],
    }
}

/// The pieces of a run of segments.
pub open spec fn flatten(segs: Seq<Segment>) -> Seq<Piece>
    decreases segs.len(),
{
    if segs.len() == 0 {
        Seq::empty()
    } else {
        flatten(segs.drop_last()) + segment_pieces(segs.last())
    }
}

/// The text of a run of segments with every reference written `{}`.
pub open spec fn normalize_segments(segs: Seq<Segment>) -> Seq<char>
    decreases segs.len(),
{
    if segs.len() == 0 {
        Seq::empty()
    } else {
        normalize_segments(segs.drop_last()) + match segs.last() {
            Segment::Literal(s) => s@,
            Segment::Arg(_) => seq!['{', '}'],
        }
    }
}

/// The views of a list of field slot names.
pub open spec fn names_view(fields: Seq<String>) -> Seq<Seq<char>> {
    fields.map_values(|f: String| f@)
}

/// The result of a resolution, the pieces `out` having come before it.
pub open spec fn extend(out: Seq<Piece>, r: Result<Seq<Piece>, Unresolved>) -> Result<
    Seq<Piece>,
    Unresolved,
> {
    match r {
        Ok(rest) => Ok(out + rest),
        Err(e) => Err(e),
    }
}

impl PlaceholderError {
    pub open spec fn view(&self) -> Unresolved {
        Unresolved {
            placeholder: self.placeholder@,
            slot: match self.slot {
                Some(k) => Some(k as nat),
                None => None,
            },
        }
    }
}

impl ParsedTemplate {
    /// The resolved pieces of this template.
    pub open spec fn pieces(&self) -> Seq<Piece> {
        flatten(self.segments@)
    }

    /// The rewritten template matches the segments.
    pub open spec fn wf(&self) -> bool {
        self.normalized@ == normalize_segments(self.segments@)
    }

    /// Every reference is to a slot below `n`.
    pub open spec fn refs_below(&self, n: nat) -> bool {
        forall|j: int|
            0 <= j < self.segments@.len() ==> (#[trigger] self.segments@[j] matches Segment::Arg(
                k,
            ) ==> k < n)
    }
}

/// The value of the numeral `b`, if it fits in a `usize`.
fn numeral_value(b: &str) -> (r: Option<usize>)
    requires
        all_digits(b@),
    ensures
        r matches Some(v) ==> v == digits_value(b@),
        r is None ==> digits_value(b@) > usize::MAX,
{
    let n = b.unicode_len();
    let mut acc: usize = 0;
    let mut i: usize = 0;
    while i < n
        invariant
            n == b@.len(),
            i <= n,
            all_digits(b@),
            acc == digits_value(b@.subrange(0, i as int)),
        decreases n - i,
    {
        let c = b.get_char(i);
        assert(b@.subrange(0, i + 1).drop_last() =~= b@.subrange(0, i as int));
        assert(is_digit(b@[i as int]));
        let d: usize = (c as u32 - '0' as u32) as usize;
        assert(digits_value(b@.subrange(0, i + 1)) == acc * 10 + d);
        match acc.checked_mul(10) {
            None => {
                proof {
                    lemma_digits_value_grows(b@, i as nat + 1, n as nat);
                    assert(b@.subrange(0, n as int) =~= b@);
                }
                return None;
            },
            Some(m) => match m.checked_add(d) {
                None => {
                    proof {
                        lemma_digits_value_grows(b@, i as nat + 1, n as nat);
                        assert(b@.subrange(0, n as int) =~= b@);
                    }
                    return None;
                },
                Some(v) => {
                    acc = v;
                },
            },
        }
        i = i + 1;
    }
    assert(b@.subrange(0, n as int) =~= b@);
    Some(acc)
}

/// A longer prefix of a numeral has no smaller value.
proof fn lemma_digits_value_grows(b: Seq<char>, i: nat, j: nat)
    requires
        i <= j <= b.len(),
        all_digits(b),
    ensures
        digits_value(b.subrange(0, i as int)) <= digits_value(b.subrange(0, j as int)),
    decreases j - i,
{
    if i < j {
        lemma_digits_value_grows(b, i, (j - 1) as nat);
        assert(b.subrange(0, j as int).drop_last() =~= b.subrange(0, j - 1));
        assert(is_digit(b[j - 1]));
    }
}

/// The first slot named `name`.
fn find_field(fields: &Vec<String>, name: &String) -> (r: Option<usize>)
    ensures
        r matches Some(k) ==> find_slot(names_view(fields@), name@) == Some(k as nat) && k
            < fields@.len(),
        r is None ==> find_slot(names_view(fields@), name@) is None,
{
    let ghost f = names_view(fields@);
    let mut j: usize = 0;
    while j < fields.len()
        invariant
            j <= fields@.len(),
            f == names_view(fields@),
            find_slot(f, name@) == find_slot_from(f, name@, j as int),
        decreases fields.len() - j,
    {
        if fields[j] == *name {
            return Some(j);
        }
        j = j + 1;
    }
    None
}

/// The placeholder text for body `b`.
fn braced_string(b: &str) -> (r: String)
    ensures
        r@ == braced(b@),
{
    let mut r = String::from_str("{");
    r.append(b);
    r.append("}");
    proof {
        reveal_strlit("{");
        reveal_strlit("}");
    }
    assert(r@ =~= braced(b@));
    r
}

/// Resolves one placeholder body at positional cursor `cursor`.
fn resolve_body(b: &str, fields: &Vec<String>, cursor: usize) -> (r: Result<
    (usize, usize),
    PlaceholderError,
>)
    requires
        is_placeholder_body(b@),
        cursor <= fields@.len(),
    ensures
        r is Ok <==> resolve_place(b@, names_view(fields@), cursor as nat) is Ok,
        r is Ok ==> r->Ok_0.0 < fields@.len() && r->Ok_0.1 <= fields@.len(),
        r is Ok ==> resolve_place(b@, names_view(fields@), cursor as nat)->Ok_0 == (
        r->Ok_0.0 as nat,
        r->Ok_0.1 as nat,
        ),
        r is Err ==> resolve_place(b@, names_view(fields@), cursor as nat)->Err_0 == r->Err_0.view(),
{
    let len = b.unicode_len();
    let flen = fields.len();
    assert(names_view(fields@).len() == flen);
    if len == 0 {
        if cursor < flen {
            Ok((cursor, cursor + 1))
        } else {
            Err(PlaceholderError { placeholder: braced_string(b), slot: Some(cursor) })
        }
    } else if is_numeral(b) {
        match numeral_value(b) {
            Some(k) => {
                if k < flen {
                    Ok((k, cursor))
                } else {
                    Err(PlaceholderError { placeholder: braced_string(b), slot: Some(k) })
                }
            },
            None => Err(PlaceholderError { placeholder: braced_string(b), slot: None }),
        }
    } else {
        let name = String::from_str(b);
        match find_field(fields, &name) {
            Some(k) => Ok((k, cursor)),
            None => Err(PlaceholderError { placeholder: braced_string(b), slot: None }),
        }
    }
}

/// Whether every character of `b` is an ASCII digit.
fn is_numeral(b: &str) -> (r: bool)
    ensures
        r == all_digits(b@),
{
    let n = b.unicode_len();
    let mut i: usize = 0;
    while i < n
        invariant
            n == b@.len(),
            i <= n,
            forall|m: int| 0 <= m < i ==> is_digit(#[trigger] b@[m]),
        decreases n - i,
    {
        if !is_digit_char(b.get_char(i)) {
            return false;
        }
        i = i + 1;
    }
    true
}


/// Where no placeholder starts at `i`, the tokens from `i` are the character
/// there and the tokens after it.
proof fn lemma_tokens_text(s: Seq<char>, i: int)
    requires
        0 <= i < s.len(),
        placeholder_at(s, i) is None,
    ensures
        tokens_from(s, i).len() > 0,
        tokens_from(s, i)[0] == Token::Text(seq![s[i]]),
        tokens_from(s, i).drop_first() == tokens_from(s, i + 1),
{
    let head = seq![Token::Text(seq![s[i]])];
    assert(tokens_from(s, i) == head + tokens_from(s, i + 1));
    assert((head + tokens_from(s, i + 1)).drop_first() =~= tokens_from(s, i + 1));
}

/// Where a placeholder starts at `i`, the tokens from `i` are that
/// placeholder and the tokens after it.
proof fn lemma_tokens_place(s: Seq<char>, i: int)
    requires
        0 <= i < s.len(),
        placeholder_at(s, i) is Some,
    ensures
        tokens_from(s, i).len() > 0,
        tokens_from(s, i)[0] == Token::Place(
            s.subrange(i + 1, i + 1 + placeholder_at(s, i)->Some_0),
        ),
        tokens_from(s, i).drop_first() == tokens_from(s, i + placeholder_at(s, i)->Some_0 + 2),
{
    let n = placeholder_at(s, i)->Some_0;
    let head = seq![Token::Place(s.subrange(i + 1, i + 1 + n))];
    assert(tokens_from(s, i) == head + tokens_from(s, i + n + 2));
    assert((head + tokens_from(s, i + n + 2)).drop_first() =~= tokens_from(s, i + n + 2));
}

/// The literal characters of `s` as pieces.
pub open spec fn char_pieces(s: Seq<char>) -> Seq<Piece>
    decreases s.len(),
{
    if s.len() == 0 {
        Seq::empty()
    } else {
        char_pieces(s.drop_last()).push(Piece::Text(seq![s.last()]))
    }
}

/// Adds the literal run `lit` to the segments and to the rewritten template.
fn flush_literal(segments: &mut Vec<Segment>, normalized: &mut String, lit: &str)
    ensures
        flatten(final(segments)@) == flatten(old(segments)@) + char_pieces(lit@),
        normalize_segments(final(segments)@) == normalize_segments(old(segments)@) + lit@,
        final(normalized)@ == old(normalized)@ + lit@,
        forall|j: int|
            0 <= j < old(segments)@.len() ==> final(segments)@[j] == old(segments)@[j],
        final(segments)@.len() >= old(segments)@.len(),
        forall|j: int|
            old(segments)@.len() <= j < final(segments)@.len() ==> final(segments)@[j] is Literal,
{
    if lit.unicode_len() > 0 {
        let ghost before = segments@;
        segments.push(Segment::Literal(lit.to_owned()));
        assert(segments@.drop_last() =~= before);
    } else {
        assert(lit@ =~= Seq::<char>::empty());
        assert(char_pieces(lit@) =~= Seq::<Piece>::empty());
    }
    normalized.append(lit);
    assert(flatten(segments@) =~= flatten(old(segments)@) + char_pieces(lit@));
    assert(normalize_segments(segments@) =~= normalize_segments(old(segments)@) + lit@);
}

/// Splits `template` into literal runs and placeholders, and resolves each
/// placeholder against the slot names `fields`, left to right; fails at the
/// first placeholder that does not resolve.
pub fn parse_template(template: &str, fields: &Vec<String>) -> (r: Result<
    ParsedTemplate,
    PlaceholderError,
>)
    ensures
        r is Ok <==> resolve_template(template@, names_view(fields@)) is Ok,
        r is Ok ==> resolve_template(template@, names_view(fields@))->Ok_0 == r->Ok_0.pieces(),
        r is Ok ==> r->Ok_0.wf() && r->Ok_0.refs_below(fields@.len()),
        r is Err ==> resolve_template(template@, names_view(fields@))->Err_0 == r->Err_0.view(),
{
    let ghost s = template@;
    let ghost f = names_view(fields@);
    let n = template.unicode_len();
    let mut segments: Vec<Segment> = Vec::new();
    let mut normalized = String::new();
    let mut i: usize = 0;
    let mut lit_start: usize = 0;
    let mut cursor: usize = 0;
    assert(extend(Seq::empty(), resolve(tokens_from(s, 0), f, 0)) == resolve(tokens(s), f, 0)) by {
        match resolve(tokens_from(s, 0), f, 0) {
            Ok(rest) => {
                assert(Seq::<Piece>::empty() + rest =~= rest);
            },
            Err(_) => {},
        }
    }
    assert(segments@ =~= Seq::<Segment>::empty());
    assert(char_pieces(s.subrange(0, 0)) =~= Seq::<Piece>::empty());
    assert(flatten(segments@) + char_pieces(s.subrange(0, 0)) =~= Seq::<Piece>::empty());
    while i < n
        invariant
            s == template@,
            f == names_view(fields@),
            f.len() == fields@.len(),
            n == s.len(),
            lit_start <= i <= n,
            cursor <= fields@.len(),
            extend(
                flatten(segments@) + char_pieces(s.subrange(lit_start as int, i as int)),
                resolve(tokens_from(s, i as int), f, cursor as nat),
            ) == resolve(tokens(s), f, 0),
            normalized@ == normalize_segments(segments@),
            forall|j: int|
                0 <= j < segments@.len() ==> (#[trigger] segments@[j] matches Segment::Arg(k)
                    ==> k < fields@.len()),
        decreases n - i,
    {
        let ghost out = flatten(segments@) + char_pieces(s.subrange(lit_start as int, i as int));
        match scan_placeholder(template, i, n) {
            None => {
                proof {
                    lemma_tokens_text(s, i as int);
                }
                assert(s.subrange(lit_start as int, i + 1).drop_last() =~= s.subrange(
                    lit_start as int,
                    i as int,
                ));
                assert(char_pieces(s.subrange(lit_start as int, i + 1)) =~= char_pieces(
                    s.subrange(lit_start as int, i as int),
                ).push(Piece::Text(seq![s[i as int]])));
                proof {
                    match resolve(tokens_from(s, i + 1), f, cursor as nat) {
                        Ok(rest) => {
                            assert(out + (seq![Piece::Text(seq![s[i as int]])] + rest) =~= out.push(
                                Piece::Text(seq![s[i as int]]),
                            ) + rest);
                        },
                        Err(_) => {},
                    }
                }
                i = i + 1;
            },
            Some(len) => {
                let ghost body = s.subrange(i + 1, i + 1 + len);
                let lit = template.substring_char(lit_start, i);
                let ghost before = segments@;
                flush_literal(&mut segments, &mut normalized, lit);
                let b = template.substring_char(i + 1, i + 1 + len);
                proof {
                    lemma_tokens_place(s, i as int);
                }
                match resolve_body(b, fields, cursor) {
                    Err(e) => {
                        return Err(e);
                    },
                    Ok((k, next)) => {
                        let ghost mid = segments@;
                        segments.push(Segment::Arg(k));
                        assert(segments@.drop_last() =~= mid);
                        normalized.append("{}");
                        proof {
                            reveal_strlit("{}");
                        }
                        assert(normalize_segments(segments@) =~= normalized@);
                        proof {
                            match resolve(tokens_from(s, i + len + 2), f, next as nat) {
                                Ok(rest) => {
                                    assert(out + (seq![Piece::Slot(k as nat)] + rest) =~= flatten(
                                        segments@,
                                    ) + char_pieces(s.subrange(i + len + 2, i + len + 2))
                                        + rest);
                                },
                                Err(_) => {},
                            }
                        }
                        cursor = next;
                    },
                }
                i = i + len + 2;
                lit_start = i;
            },
        }
    }
    let lit = template.substring_char(lit_start, n);
    flush_literal(&mut segments, &mut normalized, lit);
    assert(tokens_from(s, n as int) =~= Seq::<Token>::empty());
    assert(flatten(segments@) =~= flatten(segments@) + Seq::<Piece>::empty());
    Ok(ParsedTemplate { segments, normalized })
}


/// The text of one piece, given the values of the field slots.
pub open spec fn piece_text(p: Piece, values: Seq<Seq<char>>) -> Seq<char> {
    match p {
        Piece::Text(t) => t,
        Piece::Slot(k) => values[k as int],
    }
}

/// The text of resolved pieces, each slot replaced by its value.
pub open spec fn render_pieces(pieces: Seq<Piece>, values: Seq<Seq<char>>) -> Seq<char>
    decreases pieces.len(),
{
    if pieces.len() == 0 {
        Seq::empty()
    } else {
        piece_text(pieces[0], values) + render_pieces(pieces.drop_first(), values)
    }
}

/// Rendering distributes over concatenation.
pub proof fn lemma_render_concat(a: Seq<Piece>, b: Seq<Piece>, values: Seq<Seq<char>>)
    ensures
        render_pieces(a + b, values) == render_pieces(a, values) + render_pieces(b, values),
    decreases a.len(),
{
    if a.len() == 0 {
        assert(a + b =~= b);
        assert(render_pieces(a, values) + render_pieces(b, values) =~= render_pieces(b, values));
    } else {
        lemma_render_concat(a.drop_first(), b, values);
        assert((a + b).drop_first() =~= a.drop_first() + b);
        assert((a + b)[0] == a[0]);
        assert(render_pieces(a + b, values) =~= piece_text(a[0], values) + (render_pieces(
            a.drop_first(),
            values,
        ) + render_pieces(b, values)));
    }
}

/// Literal characters render as themselves.
proof fn lemma_render_chars(s: Seq<char>, values: Seq<Seq<char>>)
    ensures
        render_pieces(char_pieces(s), values) == s,
    decreases s.len(),
{
    if s.len() > 0 {
        lemma_render_chars(s.drop_last(), values);
        let last = seq![Piece::Text(seq![s.last()])];
        lemma_render_concat(char_pieces(s.drop_last()), last, values);
        assert(char_pieces(s.drop_last()).push(Piece::Text(seq![s.last()])) =~= char_pieces(
            s.drop_last(),
        ) + last);
        assert(last.drop_first() =~= Seq::<Piece>::empty());
        assert(render_pieces(last.drop_first(), values) =~= Seq::<char>::empty());
        assert(last[0] == Piece::Text(seq![s.last()]));
        assert(render_pieces(last, values) =~= seq![s.last()]);
        assert(s.drop_last() + seq![s.last()] =~= s);
    } else {
        assert(s =~= Seq::<char>::empty());
    }
}

/// Writes the template, each reference replaced by the value of its slot.
pub fn render(p: &ParsedTemplate, values: &Vec<String>) -> (r: String)
    requires
        p.refs_below(values@.len()),
    ensures
        r@ == render_pieces(p.pieces(), names_view(values@)),
{
    let ghost vals = names_view(values@);
    let mut out = String::new();
    let mut i: usize = 0;
    assert(p.segments@.subrange(0, 0) =~= Seq::<Segment>::empty());
    while i < p.segments.len()
        invariant
            i <= p.segments@.len(),
            vals == names_view(values@),
            p.refs_below(values@.len()),
            out@ == render_pieces(flatten(p.segments@.subrange(0, i as int)), vals),
        decreases p.segments.len() - i,
    {
        let ghost done = p.segments@.subrange(0, i as int);
        assert(p.segments@.subrange(0, i + 1).drop_last() =~= done);
        proof {
            lemma_render_concat(flatten(done), segment_pieces(p.segments@[i as int]), vals);
        }
        match &p.segments[i] {
            Segment::Literal(t) => {
                proof {
                    lemma_render_chars(t@, vals);
                }
                out.append(t.as_str());
            },
            Segment::Arg(k) => {
                let ghost one = seq![Piece::Slot(*k as nat)];
                assert(one.drop_first() =~= Seq::<Piece>::empty());
                assert(render_pieces(one.drop_first(), vals) =~= Seq::<char>::empty());
                assert(one[0] == Piece::Slot(*k as nat));
                assert(render_pieces(one, vals) =~= vals[*k as int]);
                out.append(values[*k].as_str());
            },
        }
        i = i + 1;
    }
    assert(p.segments@.subrange(0, i as int) =~= p.segments@);
    out
}

} // verus!
