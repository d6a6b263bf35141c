//! The struct grammar: documented fields with `nullable`/`optional`
//! modifiers, per-field `rename`/`implicit` representation refinements, and
//! the struct representation clause.

use vstd::prelude::*;

use crate::diagnostic::InStr;
use crate::diagnostic::ParseErr;
use crate::diagnostic::ParseResult;
use crate::error::IpldSchemaParseError;
use crate::model::FieldModel;
use crate::model::StructModel;
use crate::model::StructReprModel;
use crate::parse::begins_with;
use crate::parse::comment::parse_comment_block;
use crate::parse::comment::sp_comment_block;
use crate::parse::composite::parse_inline_type;
use crate::parse::composite::parse_nullable;
use crate::parse::composite::sp_inline_type;
use crate::parse::composite::sp_nullable;
use crate::parse::count_while;
use crate::parse::hard_fail;
use crate::parse::is_hspace;
use crate::parse::is_wspace;
use crate::parse::map_progress;
use crate::parse::obeys_progress;
use crate::parse::parse_name;
use crate::parse::parse_quoted;
use crate::parse::representation::parse_composite_representation;
use crate::parse::representation::sp_composite_repr;
use crate::parse::scan;
use crate::parse::soft_fail;
use crate::parse::sp_name;
use crate::parse::sp_quoted;
use crate::parse::strip_tag;
use crate::parse::CharClass;
use crate::parse::Progress;
use crate::structural::StructField;
use crate::structural::StructRepresentation;
use crate::structural::StructType;
use crate::IpldType;

verus! {

/// Spec of an optional `optional` modifier followed by at least one space:
/// whether it is present and how many characters it consumes.
pub open spec fn sp_optional(s: Seq<char>) -> (bool, nat) {
    let k = "optional"@.len();
    let h = count_while(s.skip(k as int), |c: char| is_hspace(c));
    if begins_with(s, "optional"@) && h >= 1 {
        (true, (k + h) as nat)
    } else {
        (false, 0)
    }
}

/// Consume an optional `optional` modifier and the space after it.
pub fn parse_optional<'a>(input: &InStr<'a>) -> (r: (bool, InStr<'a>))
    requires
        input.wf(),
    ensures
        ({
            let (op, c) = sp_optional(input.text());
            &&& r.0 == op
            &&& r.1.wf() && input.same_source(r.1) && r.1.file == input.file
            &&& r.1.span_end == input.span_end
            &&& r.1.span_start == input.span_start + c
        }),
{
    match strip_tag(input, "optional") {
        Some(after_kw) => {
            proof {
                assert(after_kw.text() =~= input.text().skip("optional"@.len() as int));
            }
            let h = scan(&after_kw, CharClass::Hspace);
            if h == 0 {
                (false, *input)
            } else {
                (true, after_kw.skip_chars(h))
            }
        },
        None => (false, *input),
    }
}

/// Spec of a per-field representation refinement: `( (rename "<name>")?
/// (implicit "<default>")? )`. Once the opening parenthesis has been read,
/// malformed contents are hard failures.
#[verifier::opaque]
pub open spec fn sp_field_repr(s: Seq<char>) -> Progress<(Option<Seq<char>>, Option<Seq<char>>)> {
    let h = count_while(s, |c: char| is_hspace(c));
    if h < s.len() && s[h as int] == '(' {
        let w1 = count_while(s.skip(h + 1 as int), |c: char| is_hspace(c));
        let q0 = h + 1 + w1;
        let rename_here = begins_with(s.skip(q0 as int), "rename"@);
        let rn_step: Progress<Option<Seq<char>>> = if rename_here {
            let h2 = count_while(s.skip((q0 + "rename"@.len()) as int), |c: char| is_hspace(c));
            if h2 == 0 {
                Progress::Reject { at: q0 as nat, err: IpldSchemaParseError::InvalidRepresentation }
            } else {
                let vp = q0 + "rename"@.len() + h2;
                match sp_quoted(s.skip(vp as int)) {
                    Progress::Match { len: m, value: v } => {
                        let w2 = count_while(s.skip((vp + m) as int), |c: char| is_hspace(c));
                        Progress::Match { len: (vp + m + w2) as nat, value: Some(v) }
                    },
                    _ => Progress::Reject {
                        at: vp as nat,
                        err: IpldSchemaParseError::InvalidRepresentation,
                    },
                }
            }
        } else {
            Progress::Match { len: q0 as nat, value: None }
        };
        match rn_step {
            Progress::Match { len: q1, value: rename } => {
                let implicit_here = begins_with(s.skip(q1 as int), "implicit"@);
                let im_step: Progress<Option<Seq<char>>> = if implicit_here {
                    let h3 = count_while(
                        s.skip((q1 + "implicit"@.len()) as int),
                        |c: char| is_hspace(c),
                    );
                    if h3 == 0 {
                        Progress::Reject {
                            at: q1 as nat,
                            err: IpldSchemaParseError::InvalidRepresentation,
                        }
                    } else {
                        let vp = q1 + "implicit"@.len() + h3;
                        match sp_quoted(s.skip(vp as int)) {
                            Progress::Match { len: m, value: v } => {
                                let w3 = count_while(
                                    s.skip((vp + m) as int),
                                    |c: char| is_hspace(c),
                                );
                                Progress::Match { len: (vp + m + w3) as nat, value: Some(v) }
                            },
                            _ => Progress::Reject {
                                at: vp as nat,
                                err: IpldSchemaParseError::InvalidRepresentation,
                            },
                        }
                    }
                } else {
                    Progress::Match { len: q1 as nat, value: None }
                };
                match im_step {
                    Progress::Match { len: q2, value: implicit } => {
                        if q2 < s.len() && s[q2 as int] == ')' {
                            Progress::Match { len: (q2 + 1) as nat, value: (rename, implicit) }
                        } else {
                            Progress::Reject {
                                at: q2 as nat,
                                err: IpldSchemaParseError::InvalidRepresentation,
                            }
                        }
                    },
                    Progress::Miss => Progress::Miss,
                    Progress::Reject { at, err } => Progress::Reject { at, err },
                }
            },
            Progress::Miss => Progress::Miss,
            Progress::Reject { at, err } => Progress::Reject { at, err },
        }
    } else {
        Progress::Miss
    }
}

/// Parse a per-field representation refinement.
#[verifier::rlimit(100)]
#[verifier::spinoff_prover]
pub fn parse_struct_field_representation<'a>(input: InStr<'a>) -> (r: ParseResult<
    'a,
    (Option<String>, Option<String>),
    IpldSchemaParseError,
>)
    requires
        input.wf(),
    ensures
        obeys_progress(
            input,
            r,
            sp_field_repr(input.text()),
            |p: (Option<String>, Option<String>)|
                (crate::parse::opt_str_view(p.0), crate::parse::opt_str_view(p.1)),
        ),
{
    proof {
        reveal(sp_field_repr);
    }
    let h = scan(&input, CharClass::Hspace);
    if h == input.len() || input.char_at(h) != '(' {
        return Err(soft_fail(input, IpldSchemaParseError::Unknown));
    }
    let inner = input.skip_chars(h + 1);
    proof {
        assert(inner.text() =~= input.text().skip((h + 1) as int));
    }
    let w1 = scan(&inner, CharClass::Hspace);
    let mut cur = inner.skip_chars(w1);
    proof {
        assert(cur.text() =~= input.text().skip((cur.span_start - input.span_start) as int));
    }
    let rename: Option<String> = match strip_tag(&cur, "rename") {
        Some(after_kw) => {
            proof {
                assert(after_kw.text() =~= input.text().skip(
                    (after_kw.span_start - input.span_start) as int,
                ));
            }
            let h2 = scan(&after_kw, CharClass::Hspace);
            if h2 == 0 {
                let at = cur.span_start - input.span_start;
                return Err(
                    hard_fail(
                        input,
                        at,
                        at,
                        IpldSchemaParseError::InvalidRepresentation,
                        Some("rename takes a quoted name"),
                    ),
                );
            }
            let vcur = after_kw.skip_chars(h2);
            let vp = vcur.span_start - input.span_start;
            proof {
                assert(vcur.text() =~= input.text().skip(vp as int));
            }
            match parse_quoted(vcur) {
                Ok((after_v, v)) => {
                    proof {
                        assert(after_v.text() =~= input.text().skip(
                            (after_v.span_start - input.span_start) as int,
                        ));
                    }
                    let w2 = scan(&after_v, CharClass::Hspace);
                    cur = after_v.skip_chars(w2);
                    Some(v)
                },
                Err(_) => {
                    return Err(
                        hard_fail(
                            input,
                            vp,
                            vp,
                            IpldSchemaParseError::InvalidRepresentation,
                            Some("rename takes a quoted name"),
                        ),
                    );
                },
            }
        },
        None => None,
    };
    proof {
        assert(cur.text() =~= input.text().skip((cur.span_start - input.span_start) as int));
    }
    let implicit: Option<String> = match strip_tag(&cur, "implicit") {
        Some(after_kw) => {
            proof {
                assert(after_kw.text() =~= input.text().skip(
                    (after_kw.span_start - input.span_start) as int,
                ));
            }
            let h3 = scan(&after_kw, CharClass::Hspace);
            if h3 == 0 {
                let at = cur.span_start - input.span_start;
                return Err(
                    hard_fail(
                        input,
                        at,
                        at,
                        IpldSchemaParseError::InvalidRepresentation,
                        Some("implicit takes a quoted default"),
                    ),
                );
            }
            let vcur = after_kw.skip_chars(h3);
            let vp = vcur.span_start - input.span_start;
            proof {
                assert(vcur.text() =~= input.text().skip(vp as int));
            }
            match parse_quoted(vcur) {
                Ok((after_v, v)) => {
                    proof {
                        assert(after_v.text() =~= input.text().skip(
                            (after_v.span_start - input.span_start) as int,
                        ));
                    }
                    let w3 = scan(&after_v, CharClass::Hspace);
                    cur = after_v.skip_chars(w3);
                    Some(v)
                },
                Err(_) => {
                    return Err(
                        hard_fail(
                            input,
                            vp,
                            vp,
                            IpldSchemaParseError::InvalidRepresentation,
                            Some("implicit takes a quoted default"),
                        ),
                    );
                },
            }
        },
        None => None,
    };
    proof {
        assert(cur.text() =~= input.text().skip((cur.span_start - input.span_start) as int));
    }
    let q2 = cur.span_start - input.span_start;
    if cur.is_empty() || cur.char_at(0) != ')' {
        return Err(
            hard_fail(
                input,
                q2,
                q2,
                IpldSchemaParseError::InvalidRepresentation,
                Some("a field representation ends with a closing parenthesis"),
            ),
        );
    }
    Ok((cur.skip_chars(1), (rename, implicit)))
}

/// Spec of the tail of a struct field, from offset `vp` (just past the
/// inline value type): an optional representation refinement and at least
/// one whitespace character. `base` carries the field parsed so far, without
/// refinements.
#[verifier::opaque]
pub open spec fn sp_field_tail(s: Seq<char>, vp: nat, base: FieldModel) -> Progress<FieldModel> {
    match sp_field_repr(s.skip(vp as int)) {
        Progress::Match { len: rl, value: ri } => {
            let ep = vp + rl;
            let m2 = count_while(s.skip(ep as int), |c: char| is_wspace(c));
            if m2 == 0 {
                Progress::Miss
            } else {
                Progress::Match {
                    len: (ep + m2) as nat,
                    value: FieldModel { rename: ri.0, implicit: ri.1, ..base },
                }
            }
        },
        Progress::Miss => {
            let m2 = count_while(s.skip(vp as int), |c: char| is_wspace(c));
            if m2 == 0 {
                Progress::Miss
            } else {
                Progress::Match { len: (vp + m2) as nat, value: base }
            }
        },
        Progress::Reject { at, err } => Progress::Reject { at: (vp + at) as nat, err },
    }
}

/// Parse the tail of a struct field: the optional representation refinement
/// and the trailing whitespace. `after_val` stands just past the field's
/// inline value type.
#[verifier::rlimit(100)]
#[verifier::spinoff_prover]
fn finish_struct_field<'a>(input: InStr<'a>, after_val: InStr<'a>, base: StructField) -> (r:
    ParseResult<'a, StructField, IpldSchemaParseError>)
    requires
        input.wf(),
        after_val.wf(),
        input.same_source(after_val),
        after_val.file == input.file,
        after_val.span_end == input.span_end,
        input.span_start <= after_val.span_start,
        base.rename is None,
        base.implicit is None,
    ensures
        obeys_progress(
            input,
            r,
            sp_field_tail(
                input.text(),
                (after_val.span_start - input.span_start) as nat,
                base.model(),
            ),
            |f: StructField| f.model(),
        ),
{
    proof {
        reveal(sp_field_tail);
        assert(after_val.text() =~= input.text().skip(
            (after_val.span_start - input.span_start) as int,
        ));
    }
    let (after_repr, rename, implicit) = match parse_struct_field_representation(after_val) {
        Ok((c, p)) => (c, p.0, p.1),
        Err(ParseErr::Soft(_)) => (after_val, None, None),
        Err(ParseErr::Hard(d)) => {
            return Err(ParseErr::Hard(d));
        },
    };
    proof {
        assert(after_repr.text() =~= input.text().skip(
            (after_repr.span_start - input.span_start) as int,
        ));
    }
    let m2 = scan(&after_repr, CharClass::Wspace);
    if m2 == 0 {
        return Err(soft_fail(input, IpldSchemaParseError::Unknown));
    }
    let rest = after_repr.skip_chars(m2);
    Ok((rest, StructField { rename, implicit, ..base }))
}

/// Spec of the opening of a struct field: an optional doc comment,
/// whitespace, the field key, at least one space, and the optional
/// `nullable` then `optional` modifiers. Yields the offset where the value
/// type starts, with the pieces seen.
#[verifier::opaque]
pub open spec fn sp_field_head(s: Seq<char>) -> Progress<(Option<Seq<char>>, Seq<char>, bool, bool)> {
    let w0 = count_while(s, |c: char| is_wspace(c));
    let cl: nat = match sp_comment_block(s.skip(w0 as int)) {
        Progress::Match { len: n, .. } => n,
        _ => 0,
    };
    let doc: Option<Seq<char>> = match sp_comment_block(s.skip(w0 as int)) {
        Progress::Match { value: v, .. } => Some(v),
        _ => None,
    };
    let w = count_while(s.skip((w0 + cl) as int), |c: char| is_wspace(c));
    let p = w0 + cl + w;
    match sp_name(s.skip(p as int), false) {
        Progress::Match { len: n, value: key } => {
            let h1 = count_while(s.skip((p + n) as int), |c: char| is_hspace(c));
            if h1 == 0 {
                Progress::Miss
            } else {
                let q0 = p + n + h1;
                let (nl, c1) = sp_nullable(s.skip(q0 as int));
                let q1 = q0 + c1;
                let (op, c2) = sp_optional(s.skip(q1 as int));
                Progress::Match { len: (q1 + c2) as nat, value: (doc, key, nl, op) }
            }
        },
        _ => Progress::Miss,
    }
}

/// Parse the opening of a struct field.
#[verifier::rlimit(100)]
#[verifier::spinoff_prover]
fn parse_field_head<'a>(input: InStr<'a>) -> (r: ParseResult<
    'a,
    (Option<String>, String, bool, bool),
    IpldSchemaParseError,
>)
    requires
        input.wf(),
    ensures
        obeys_progress(
            input,
            r,
            sp_field_head(input.text()),
            |p: (Option<String>, String, bool, bool)|
                (crate::parse::opt_str_view(p.0), p.1@, p.2, p.3),
        ),
{
    proof {
        reveal(sp_field_head);
    }
    let w0 = scan(&input, CharClass::Wspace);
    let doc_cur = input.skip_chars(w0);
    proof {
        assert(doc_cur.text() =~= input.text().skip(w0 as int));
    }
    let (after_doc, doc) = match parse_comment_block(doc_cur) {
        Ok((c, d)) => (c, Some(d)),
        Err(_) => (doc_cur, None),
    };
    proof {
        assert(after_doc.text() =~= input.text().skip(
            (after_doc.span_start - input.span_start) as int,
        ));
    }
    let w = scan(&after_doc, CharClass::Wspace);
    let key_cur = after_doc.skip_chars(w);
    proof {
        assert(key_cur.text() =~= input.text().skip(
            (key_cur.span_start - input.span_start) as int,
        ));
    }
    let (after_key, key) = match parse_name(key_cur, false) {
        Ok(ok) => ok,
        Err(_) => {
            return Err(soft_fail(input, IpldSchemaParseError::Unknown));
        },
    };
    proof {
        assert(after_key.text() =~= input.text().skip(
            (after_key.span_start - input.span_start) as int,
        ));
    }
    let h1 = scan(&after_key, CharClass::Hspace);
    if h1 == 0 {
        return Err(soft_fail(input, IpldSchemaParseError::Unknown));
    }
    let mods_cur = after_key.skip_chars(h1);
    proof {
        assert(mods_cur.text() =~= input.text().skip(
            (mods_cur.span_start - input.span_start) as int,
        ));
    }
    let (nl, after_nl) = parse_nullable(&mods_cur);
    proof {
        assert(after_nl.text() =~= input.text().skip(
            (after_nl.span_start - input.span_start) as int,
        ));
    }
    let (op, vcur) = parse_optional(&after_nl);
    Ok((vcur, (doc, key, nl, op)))
}

/// A matched field opening consumes at least one character.
pub proof fn lemma_field_head_len(s: Seq<char>)
    ensures
        sp_field_head(s) matches Progress::Match { len, .. } ==> len > 0,
{
    reveal(sp_field_head);
}

/// Spec of one struct field: the opening (doc comment, key, modifiers), the
/// inline value type, an optional parenthesized representation refinement,
/// and at least one whitespace character.
#[verifier::opaque]
pub open spec fn sp_struct_field(s: Seq<char>) -> Progress<FieldModel> {
    match sp_field_head(s) {
        Progress::Match { len: q2, value: head } => {
            if 0 < q2 <= s.len() {
                match sp_inline_type(s.skip(q2 as int)) {
                    Progress::Match { len: m, value: ty } => sp_field_tail(
                        s,
                        (q2 + m) as nat,
                        FieldModel {
                            doc: head.0,
                            key: head.1,
                            value: ty,
                            optional: head.3,
                            nullable: head.2,
                            rename: None,
                            implicit: None,
                        },
                    ),
                    Progress::Miss => Progress::Reject {
                        at: q2 as nat,
                        err: IpldSchemaParseError::InvalidTypeDefinition,
                    },
                    Progress::Reject { at, err } => Progress::Reject { at: (q2 + at) as nat, err },
                }
            } else {
                Progress::Miss
            }
        },
        Progress::Miss => Progress::Miss,
        Progress::Reject { at, err } => Progress::Reject { at, err },
    }
}

/// Parse one struct field.
#[verifier::rlimit(100)]
#[verifier::spinoff_prover]
pub fn parse_struct_field<'a>(input: InStr<'a>) -> (r: ParseResult<
    'a,
    StructField,
    IpldSchemaParseError,
>)
    requires
        input.wf(),
    ensures
        obeys_progress(input, r, sp_struct_field(input.text()), |f: StructField| f.model()),
{
    proof {
        reveal(sp_struct_field);
    }
    let (vcur, head) = match parse_field_head(input) {
        Ok(ok) => ok,
        Err(e) => {
            return Err(e);
        },
    };
    let (doc, key, nl, op) = head;
    let q2 = vcur.span_start - input.span_start;
    proof {
        lemma_field_head_len(input.text());
        assert(vcur.text() =~= input.text().skip(q2 as int));
    }
    let (after_val, ty) = match parse_inline_type(vcur) {
        Ok(ok) => ok,
        Err(ParseErr::Hard(d)) => {
            return Err(ParseErr::Hard(d));
        },
        Err(ParseErr::Soft(_)) => {
            let run = scan(&vcur, CharClass::NameChar);
            return Err(
                hard_fail(
                    input,
                    q2,
                    q2 + run,
                    IpldSchemaParseError::InvalidTypeDefinition,
                    Some("a struct field takes a value type"),
                ),
            );
        },
    };
    let base = StructField {
        doc,
        key,
        value: ty,
        optional: op,
        nullable: nl,
        rename: None,
        implicit: None,
    };
    finish_struct_field(input, after_val, base)
}

/// Spec of the field list: fields parsed one after another until no more
/// match; a hard failure inside a field aborts the list.
#[verifier::opaque]
pub open spec fn sp_struct_fields(s: Seq<char>) -> Progress<Seq<FieldModel>>
    decreases s.len(),
{
    match sp_struct_field(s) {
        Progress::Match { len: n, value: f } => {
            if 0 < n <= s.len() {
                match sp_struct_fields(s.skip(n as int)) {
                    Progress::Match { len: n2, value: rest } => Progress::Match {
                        len: (n + n2) as nat,
                        value: seq![f] + rest,
                    },
                    Progress::Miss => Progress::Miss,
                    Progress::Reject { at, err } => Progress::Reject { at: (n + at) as nat, err },
                }
            } else {
                Progress::Match { len: 0, value: Seq::empty() }
            }
        },
        Progress::Miss => Progress::Match { len: 0, value: Seq::empty() },
        Progress::Reject { at, err } => Progress::Reject { at, err },
    }
}

/// Parse the field list onto `acc`.
#[verifier::rlimit(100)]
#[verifier::spinoff_prover]
fn parse_struct_fields<'a>(input: InStr<'a>, acc: Vec<StructField>) -> (r: ParseResult<
    'a,
    Vec<StructField>,
    IpldSchemaParseError,
>)
    requires
        input.wf(),
    ensures
        obeys_progress(
            input,
            r,
            map_progress(
                sp_struct_fields(input.text()),
                |fs: Seq<FieldModel>| acc@.map_values(|f: StructField| f.model()) + fs,
            ),
            |v: Vec<StructField>| v@.map_values(|f: StructField| f.model()),
        ),
    decreases input.text().len(),
{
    proof {
        reveal_with_fuel(sp_struct_fields, 1);
    }
    match parse_struct_field(input) {
        Err(ParseErr::Hard(d)) => Err(ParseErr::Hard(d)),
        Err(ParseErr::Soft(_)) => {
            proof {
                assert(acc@.map_values(|f: StructField| f.model()) + Seq::<FieldModel>::empty()
                    =~= acc@.map_values(|f: StructField| f.model()));
            }
            Ok((input, acc))
        },
        Ok((cur, field)) => {
            let ghost n = (cur.span_start - input.span_start) as nat;
            proof {
                lemma_struct_field_le(input.text());
                assert(cur.text() =~= input.text().skip(n as int));
            }
            let mut acc2 = acc;
            acc2.push(field);
            proof {
                assert(acc2@.map_values(|f: StructField| f.model()) =~= acc@.map_values(
                    |f: StructField| f.model(),
                ).push(field.model()));
            }
            let r = parse_struct_fields(cur, acc2);
            proof {
                match sp_struct_fields(cur.text()) {
                    Progress::Match { len: n2, value: rest } => {
                        assert(acc2@.map_values(|f: StructField| f.model()) + rest =~= acc@
                            .map_values(|f: StructField| f.model()) + (seq![field.model()] + rest));
                    },
                    _ => {},
                }
            }
            r
        },
    }
}

/// Spec of a struct definition: `struct {`, one or more fields, `}`, and an
/// optional representation clause (defaulting to the map kind).
#[verifier::opaque]
pub open spec fn sp_struct(s: Seq<char>) -> Progress<StructModel> {
    if begins_with(s, "struct"@) {
        let k = "struct"@.len();
        let w0 = count_while(s.skip(k as int), |c: char| is_hspace(c));
        let p = k + w0;
        if p < s.len() && s[p as int] == '{' {
            match sp_struct_fields(s.skip(p + 1 as int)) {
                Progress::Match { len: ml, value: fs } => {
                    let q = p + 1 + ml;
                    let wq = count_while(s.skip(q as int), |c: char| is_wspace(c));
                    let bp = q + wq;
                    if bp < s.len() && s[bp as int] == '}' {
                        if fs.len() == 0 {
                            Progress::Miss
                        } else {
                            match sp_composite_repr(s.skip(bp + 1 as int), true) {
                                Progress::Match { len: rl, value: repr } => Progress::Match {
                                    len: (bp + 1 + rl) as nat,
                                    value: StructModel { fields: fs, repr },
                                },
                                Progress::Miss => Progress::Match {
                                    len: (bp + 1) as nat,
                                    value: StructModel {
                                        fields: fs,
                                        repr: StructReprModel::Mapping,
                                    },
                                },
                                Progress::Reject { at, err } => Progress::Reject {
                                    at: (bp + 1 + at) as nat,
                                    err,
                                },
                            }
                        }
                    } else {
                        Progress::Miss
                    }
                },
                Progress::Miss => Progress::Miss,
                Progress::Reject { at, err } => Progress::Reject { at: (p + 1 + at) as nat, err },
            }
        } else {
            Progress::Miss
        }
    } else {
        Progress::Miss
    }
}

/// Parse a struct definition.
#[verifier::rlimit(100)]
#[verifier::spinoff_prover]
pub fn parse_struct<'a>(input: InStr<'a>) -> (r: ParseResult<'a, IpldType, IpldSchemaParseError>)
    requires
        input.wf(),
    ensures
        obeys_progress(
            input,
            r,
            map_progress(
                sp_struct(input.text()),
                |m: StructModel| crate::model::TypeModel::Struct(m),
            ),
            |t: IpldType| t.model(),
        ),
{
    proof {
        reveal(sp_struct);
    }
    let cur = match strip_tag(&input, "struct") {
        Some(c) => c,
        None => {
            return Err(soft_fail(input, IpldSchemaParseError::Unknown));
        },
    };
    proof {
        assert(cur.text() =~= input.text().skip("struct"@.len() as int));
    }
    let w0 = scan(&cur, CharClass::Hspace);
    if w0 == cur.len() || cur.char_at(w0) != '{' {
        return Err(soft_fail(input, IpldSchemaParseError::Unknown));
    }
    let body = cur.skip_chars(w0 + 1);
    proof {
        assert(body.text() =~= input.text().skip((body.span_start - input.span_start) as int));
    }
    let (after_fields, fields) = match parse_struct_fields(body, Vec::new()) {
        Ok(ok) => ok,
        Err(ParseErr::Hard(d)) => {
            return Err(ParseErr::Hard(d));
        },
        Err(ParseErr::Soft(_)) => {
            return Err(soft_fail(input, IpldSchemaParseError::Unknown));
        },
    };
    proof {
        assert(Seq::<FieldModel>::empty() + sp_struct_fields(body.text())->Match_value
            =~= sp_struct_fields(body.text())->Match_value);
        assert(after_fields.text() =~= input.text().skip(
            (after_fields.span_start - input.span_start) as int,
        ));
    }
    let wq = scan(&after_fields, CharClass::Wspace);
    if wq == after_fields.len() || after_fields.char_at(wq) != '}' {
        return Err(soft_fail(input, IpldSchemaParseError::Unknown));
    }
    if fields.len() == 0 {
        return Err(soft_fail(input, IpldSchemaParseError::Unknown));
    }
    let after_close = after_fields.skip_chars(wq + 1);
    proof {
        assert(after_close.text() =~= input.text().skip(
            (after_close.span_start - input.span_start) as int,
        ));
    }
    match parse_composite_representation(after_close, true) {
        Ok((rest, repr)) => Ok((rest, IpldType::Struct(StructType { fields, repr }))),
        Err(ParseErr::Soft(_)) => Ok(
            (after_close, IpldType::Struct(StructType { fields, repr: StructRepresentation::Mapping })),
        ),
        Err(ParseErr::Hard(d)) => Err(ParseErr::Hard(d)),
    }
}

/// A matched field representation refinement stays inside its text.
pub proof fn lemma_field_repr_le(s: Seq<char>)
    ensures
        sp_field_repr(s) matches Progress::Match { len, .. } ==> 0 < len <= s.len(),
{
    reveal(sp_field_repr);
}

/// A matched struct field stays inside its text.
pub proof fn lemma_struct_field_le(s: Seq<char>)
    ensures
        sp_struct_field(s) matches Progress::Match { len, .. } ==> 0 < len <= s.len(),
{
    reveal(sp_struct_field);
    match sp_field_head(s) {
        Progress::Match { len: q2, .. } => {
            if 0 < q2 <= s.len() {
                crate::parse::composite::lemma_inline_le(s.skip(q2 as int));
                match sp_inline_type(s.skip(q2 as int)) {
                    Progress::Match { len: m, .. } => {
                        lemma_field_tail_le(s, (q2 + m) as nat);
                    },
                    _ => {},
                }
            }
        },
        _ => {},
    }
}

/// The tail of a struct field, from a position inside the text, stays
/// inside the text.
pub proof fn lemma_field_tail_le(s: Seq<char>, vp: nat)
    requires
        vp <= s.len(),
    ensures
        forall|base: FieldModel|
            (#[trigger] sp_field_tail(s, vp, base)) matches Progress::Match { len, .. } ==> 0 < len
                <= s.len(),
{
    reveal(sp_field_tail);
    lemma_field_repr_le(s.skip(vp as int));
    match sp_field_repr(s.skip(vp as int)) {
        Progress::Match { len: rl, .. } => {
            crate::parse::lemma_count_while(s.skip((vp + rl) as int), |c: char| is_wspace(c));
        },
        _ => {
            crate::parse::lemma_count_while(s.skip(vp as int), |c: char| is_wspace(c));
        },
    }
}

/// A matched field list stays inside its text.
pub proof fn lemma_struct_fields_le(s: Seq<char>)
    ensures
        sp_struct_fields(s) matches Progress::Match { len, .. } ==> len <= s.len(),
    decreases s.len(),
{
    reveal_with_fuel(sp_struct_fields, 1);
    match sp_struct_field(s) {
        Progress::Match { len: n, .. } => {
            if 0 < n && n <= s.len() {
                lemma_struct_fields_le(s.skip(n as int));
            }
        },
        _ => {},
    }
}

/// A matched struct definition stays inside its text.
pub proof fn lemma_struct_le(s: Seq<char>)
    ensures
        sp_struct(s) matches Progress::Match { len, .. } ==> 0 < len <= s.len(),
{
    reveal(sp_struct);
    if begins_with(s, "struct"@) {
        let k = "struct"@.len();
        crate::parse::lemma_count_while(s.skip(k as int), |c: char| is_hspace(c));
        let w0 = count_while(s.skip(k as int), |c: char| is_hspace(c));
        let p = k + w0;
        if p < s.len() && s[p as int] == '{' {
            lemma_struct_fields_le(s.skip(p + 1 as int));
            match sp_struct_fields(s.skip(p + 1 as int)) {
                Progress::Match { len: ml, .. } => {
                    let q = p + 1 + ml;
                    crate::parse::lemma_count_while(s.skip(q as int), |c: char| is_wspace(c));
                    let wq = count_while(s.skip(q as int), |c: char| is_wspace(c));
                    let bp = q + wq;
                    if bp < s.len() && s[bp as int] == '}' {
                        crate::parse::representation::lemma_composite_repr_le(
                            s.skip(bp + 1 as int),
                            true,
                        );
                    }
                },
                _ => {},
            }
        }
    }
}

} // verus!
