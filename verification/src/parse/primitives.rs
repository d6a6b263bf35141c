//! Primitive type definitions: the bare keywords `bool`, `string`, `int`,
//! `float`, `any`, plus `bytes` (with an optional representation), `unit`
//! (with a required representation), links (`&Name`), and copies (`= Name`).

use vstd::prelude::*;

use crate::diagnostic::InStr;
use crate::diagnostic::ParseResult;
use crate::error::IpldSchemaParseError;
use crate::model::TypeModel;
use crate::parse::begins_with;
use crate::parse::count_while;
use crate::parse::is_hspace;
use crate::parse::map_progress;
use crate::parse::obeys_progress;
use crate::parse::parse_type_name;
use crate::parse::representation::parse_bytes_representation;
use crate::parse::representation::parse_unit_representation;
use crate::parse::representation::sp_bytes_repr;
use crate::parse::representation::sp_unit_repr;
use crate::parse::scan;
use crate::parse::soft_fail;
use crate::parse::sp_name;
use crate::parse::strip_tag;
use crate::parse::CharClass;
use crate::parse::Progress;
use crate::representation::BytesRepresentation;
use crate::IpldType;

verus! {

/// Spec of the `bool` keyword.
pub open spec fn sp_bool(s: Seq<char>) -> Progress<TypeModel> {
    if begins_with(s, "bool"@) {
        Progress::Match { len: "bool"@.len(), value: TypeModel::Bool }
    } else {
        Progress::Miss
    }
}

/// Parse the `bool` keyword.
pub fn parse_bool<'a>(input: InStr<'a>) -> (r: ParseResult<'a, IpldType, IpldSchemaParseError>)
    requires
        input.wf(),
    ensures
        obeys_progress(input, r, sp_bool(input.text()), |t: IpldType| t.model()),
{
    match strip_tag(&input, "bool") {
        Some(rest) => Ok((rest, IpldType::Bool)),
        None => Err(soft_fail(input, IpldSchemaParseError::Unknown)),
    }
}

/// Spec of the `string` keyword.
pub open spec fn sp_string_type(s: Seq<char>) -> Progress<TypeModel> {
    if begins_with(s, "string"@) {
        Progress::Match { len: "string"@.len(), value: TypeModel::String }
    } else {
        Progress::Miss
    }
}

/// Parse the `string` keyword.
pub fn parse_string<'a>(input: InStr<'a>) -> (r: ParseResult<'a, IpldType, IpldSchemaParseError>)
    requires
        input.wf(),
    ensures
        obeys_progress(input, r, sp_string_type(input.text()), |t: IpldType| t.model()),
{
    match strip_tag(&input, "string") {
        Some(rest) => Ok((rest, IpldType::String)),
        None => Err(soft_fail(input, IpldSchemaParseError::Unknown)),
    }
}

/// Spec of the `int` keyword.
pub open spec fn sp_int_type(s: Seq<char>) -> Progress<TypeModel> {
    if begins_with(s, "int"@) {
        Progress::Match { len: "int"@.len(), value: TypeModel::Int }
    } else {
        Progress::Miss
    }
}

/// Parse the `int` keyword.
pub fn parse_int<'a>(input: InStr<'a>) -> (r: ParseResult<'a, IpldType, IpldSchemaParseError>)
    requires
        input.wf(),
    ensures
        obeys_progress(input, r, sp_int_type(input.text()), |t: IpldType| t.model()),
{
    match strip_tag(&input, "int") {
        Some(rest) => Ok((rest, IpldType::Int)),
        None => Err(soft_fail(input, IpldSchemaParseError::Unknown)),
    }
}

/// Spec of the `float` keyword.
pub open spec fn sp_float_type(s: Seq<char>) -> Progress<TypeModel> {
    if begins_with(s, "float"@) {
        Progress::Match { len: "float"@.len(), value: TypeModel::Float }
    } else {
        Progress::Miss
    }
}

/// Parse the `float` keyword.
pub fn parse_float<'a>(input: InStr<'a>) -> (r: ParseResult<'a, IpldType, IpldSchemaParseError>)
    requires
        input.wf(),
    ensures
        obeys_progress(input, r, sp_float_type(input.text()), |t: IpldType| t.model()),
{
    match strip_tag(&input, "float") {
        Some(rest) => Ok((rest, IpldType::Float)),
        None => Err(soft_fail(input, IpldSchemaParseError::Unknown)),
    }
}

/// Spec of the `any` keyword.
pub open spec fn sp_any(s: Seq<char>) -> Progress<TypeModel> {
    if begins_with(s, "any"@) {
        Progress::Match { len: "any"@.len(), value: TypeModel::Any }
    } else {
        Progress::Miss
    }
}

/// Parse the `any` keyword.
pub fn parse_any<'a>(input: InStr<'a>) -> (r: ParseResult<'a, IpldType, IpldSchemaParseError>)
    requires
        input.wf(),
    ensures
        obeys_progress(input, r, sp_any(input.text()), |t: IpldType| t.model()),
{
    match strip_tag(&input, "any") {
        Some(rest) => Ok((rest, IpldType::Any)),
        None => Err(soft_fail(input, IpldSchemaParseError::Unknown)),
    }
}

/// Spec of a `bytes` definition: the keyword and an optional representation
/// clause, defaulting to plain bytes.
pub open spec fn sp_bytes_type(s: Seq<char>) -> Progress<TypeModel> {
    if begins_with(s, "bytes"@) {
        let k = "bytes"@.len();
        match sp_bytes_repr(s.skip(k as int)) {
            Progress::Match { len: n, value: v } => Progress::Match {
                len: k + n,
                value: TypeModel::Bytes(v),
            },
            Progress::Miss => Progress::Match {
                len: k,
                value: TypeModel::Bytes(crate::model::BytesReprModel::Bytes),
            },
            Progress::Reject { at, err } => Progress::Reject { at: (k + at) as nat, err },
        }
    } else {
        Progress::Miss
    }
}

/// Parse a `bytes` definition with its optional representation clause.
pub fn parse_bytes<'a>(input: InStr<'a>) -> (r: ParseResult<'a, IpldType, IpldSchemaParseError>)
    requires
        input.wf(),
    ensures
        obeys_progress(input, r, sp_bytes_type(input.text()), |t: IpldType| t.model()),
{
    let cur = match strip_tag(&input, "bytes") {
        Some(c) => c,
        None => {
            return Err(soft_fail(input, IpldSchemaParseError::Unknown));
        },
    };
    proof {
        assert(cur.text() =~= input.text().skip((cur.span_start - input.span_start) as int));
    }
    match parse_bytes_representation(cur) {
        Ok((rest, repr)) => Ok((rest, IpldType::Bytes(repr))),
        Err(crate::diagnostic::ParseErr::Soft(_)) => Ok((cur, IpldType::Bytes(
            BytesRepresentation::Bytes,
        ))),
        Err(crate::diagnostic::ParseErr::Hard(d)) => Err(crate::diagnostic::ParseErr::Hard(d)),
    }
}

/// Spec of a `unit` definition: the keyword and a required representation
/// clause.
pub open spec fn sp_unit_type(s: Seq<char>) -> Progress<TypeModel> {
    if begins_with(s, "unit"@) {
        let k = "unit"@.len();
        match sp_unit_repr(s.skip(k as int)) {
            Progress::Match { len: n, value: v } => Progress::Match {
                len: k + n,
                value: TypeModel::Unit(v),
            },
            Progress::Miss => Progress::Miss,
            Progress::Reject { at, err } => Progress::Reject { at: (k + at) as nat, err },
        }
    } else {
        Progress::Miss
    }
}

/// Parse a `unit` definition with its required representation clause.
pub fn parse_unit<'a>(input: InStr<'a>) -> (r: ParseResult<'a, IpldType, IpldSchemaParseError>)
    requires
        input.wf(),
    ensures
        obeys_progress(input, r, sp_unit_type(input.text()), |t: IpldType| t.model()),
{
    let cur = match strip_tag(&input, "unit") {
        Some(c) => c,
        None => {
            return Err(soft_fail(input, IpldSchemaParseError::Unknown));
        },
    };
    proof {
        assert(cur.text() =~= input.text().skip((cur.span_start - input.span_start) as int));
    }
    match parse_unit_representation(cur) {
        Ok((rest, repr)) => Ok((rest, IpldType::Unit(repr))),
        Err(e) => Err(e),
    }
}

/// Spec of a link target: `&`, optional horizontal whitespace, a type name.
/// After the `&`, a missing name is a hard failure.
pub open spec fn sp_link_target(s: Seq<char>) -> Progress<Seq<char>> {
    if s.len() > 0 && s[0] == '&' {
        let w = count_while(s.skip(1), |c: char| is_hspace(c));
        match sp_name(s.skip(1 + w as int), true) {
            Progress::Match { len: n, value: v } => Progress::Match { len: 1 + w + n, value: v },
            _ => Progress::Reject { at: 1 + w, err: IpldSchemaParseError::InvalidTypeName },
        }
    } else {
        Progress::Miss
    }
}

/// Parse a link target: `&Name`.
pub fn parse_link_target<'a>(input: InStr<'a>) -> (r: ParseResult<
    'a,
    String,
    IpldSchemaParseError,
>)
    requires
        input.wf(),
    ensures
        obeys_progress(input, r, sp_link_target(input.text()), |s: String| s@),
{
    if input.is_empty() || input.char_at(0) != '&' {
        return Err(soft_fail(input, IpldSchemaParseError::Unknown));
    }
    let after_amp = input.skip_chars(1);
    proof {
        assert(after_amp.text() =~= input.text().skip(1));
    }
    let w = scan(&after_amp, CharClass::Hspace);
    let name_cur = after_amp.skip_chars(w);
    proof {
        assert(name_cur.text() =~= input.text().skip((1 + w) as int));
    }
    match parse_type_name(name_cur) {
        Ok((rest, name)) => Ok((rest, name)),
        Err(_) => {
            let at = 1 + w;
            let run = scan(&name_cur, CharClass::NameChar);
            Err(
                crate::parse::hard_fail(
                    input,
                    at,
                    at + run,
                    IpldSchemaParseError::InvalidTypeName,
                    Some("a link names its target type"),
                ),
            )
        },
    }
}

/// Parse a link definition: `&Name` as a type.
pub fn parse_link<'a>(input: InStr<'a>) -> (r: ParseResult<'a, IpldType, IpldSchemaParseError>)
    requires
        input.wf(),
    ensures
        obeys_progress(
            input,
            r,
            map_progress(sp_link_target(input.text()), |n: Seq<char>| TypeModel::Link(n)),
            |t: IpldType| t.model(),
        ),
{
    match parse_link_target(input) {
        Ok((rest, name)) => Ok((rest, IpldType::Link(name))),
        Err(e) => Err(e),
    }
}

/// Spec of a copy definition: `=`, optional horizontal whitespace, the name
/// of the copied type. After the `=`, a missing name is a hard failure.
pub open spec fn sp_copy_type(s: Seq<char>) -> Progress<TypeModel> {
    if s.len() > 0 && s[0] == '=' {
        let w = count_while(s.skip(1), |c: char| is_hspace(c));
        match sp_name(s.skip(1 + w as int), true) {
            Progress::Match { len: n, value: v } => Progress::Match {
                len: 1 + w + n,
                value: TypeModel::Copy(v),
            },
            _ => Progress::Reject { at: 1 + w, err: IpldSchemaParseError::InvalidTypeName },
        }
    } else {
        Progress::Miss
    }
}

/// Parse a copy definition: `= Name`.
pub fn parse_copy<'a>(input: InStr<'a>) -> (r: ParseResult<'a, IpldType, IpldSchemaParseError>)
    requires
        input.wf(),
    ensures
        obeys_progress(input, r, sp_copy_type(input.text()), |t: IpldType| t.model()),
{
    if input.is_empty() || input.char_at(0) != '=' {
        return Err(soft_fail(input, IpldSchemaParseError::Unknown));
    }
    let after_eq = input.skip_chars(1);
    proof {
        assert(after_eq.text() =~= input.text().skip(1));
    }
    let w = scan(&after_eq, CharClass::Hspace);
    let name_cur = after_eq.skip_chars(w);
    proof {
        assert(name_cur.text() =~= input.text().skip((1 + w) as int));
    }
    match parse_type_name(name_cur) {
        Ok((rest, name)) => Ok((rest, IpldType::Copy(name))),
        Err(_) => {
            let at = 1 + w;
            let run = scan(&name_cur, CharClass::NameChar);
            Err(
                crate::parse::hard_fail(
                    input,
                    at,
                    at + run,
                    IpldSchemaParseError::InvalidTypeName,
                    Some("a copy names the type it copies"),
                ),
            )
        },
    }
}

/// A matched link target stays inside its text.
pub proof fn lemma_link_target_le(s: Seq<char>)
    ensures
        sp_link_target(s) matches Progress::Match { len, .. } ==> 0 < len <= s.len(),
{
    if s.len() > 0 && s[0] == '&' {
        crate::parse::lemma_count_while(s.skip(1), |c: char| is_hspace(c));
        let w = count_while(s.skip(1), |c: char| is_hspace(c));
        crate::parse::lemma_name_len(s.skip(1 + w as int), true);
    }
}

/// A matched primitive or keyword definition stays inside its text.
pub proof fn lemma_prim_defs_le(s: Seq<char>)
    ensures
        sp_bool(s) matches Progress::Match { len, .. } ==> 0 < len <= s.len(),
        sp_string_type(s) matches Progress::Match { len, .. } ==> 0 < len <= s.len(),
        sp_int_type(s) matches Progress::Match { len, .. } ==> 0 < len <= s.len(),
        sp_float_type(s) matches Progress::Match { len, .. } ==> 0 < len <= s.len(),
        sp_any(s) matches Progress::Match { len, .. } ==> 0 < len <= s.len(),
        sp_bytes_type(s) matches Progress::Match { len, .. } ==> 0 < len <= s.len(),
        sp_unit_type(s) matches Progress::Match { len, .. } ==> 0 < len <= s.len(),
        sp_copy_type(s) matches Progress::Match { len, .. } ==> 0 < len <= s.len(),
{
    reveal_strlit("bool");
    reveal_strlit("string");
    reveal_strlit("int");
    reveal_strlit("float");
    reveal_strlit("any");
    reveal_strlit("bytes");
    reveal_strlit("unit");
    if begins_with(s, "bytes"@) {
        crate::parse::representation::lemma_bytes_repr_le(s.skip("bytes"@.len() as int));
    }
    if begins_with(s, "unit"@) {
        crate::parse::representation::lemma_unit_repr_le(s.skip("unit"@.len() as int));
    }
    if s.len() > 0 && s[0] == '=' {
        crate::parse::lemma_count_while(s.skip(1), |c: char| is_hspace(c));
        let w = count_while(s.skip(1), |c: char| is_hspace(c));
        crate::parse::lemma_name_len(s.skip(1 + w as int), true);
    }
}

} // verus!
