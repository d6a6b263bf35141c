//! Inline types and the list and map composites.
//!
//! An inline type is a type given anonymously inside a composite: a bare
//! capitalized name, a nested `list ...` or `map { ... }`, or a link
//! `&Name`. Lists and maps recurse back into inline types, so these three
//! parsers form one mutually recursive group.

use vstd::prelude::*;

use crate::diagnostic::InStr;
use crate::diagnostic::ParseErr;
use crate::diagnostic::ParseResult;
use crate::error::IpldSchemaParseError;
use crate::list::ListType;
use crate::map::MapRepresentation;
use crate::map::MapType;
use crate::model::to_map_repr;
use crate::model::InlineModel;
use crate::model::ListModel;
use crate::model::MapModel;
use crate::model::MapReprModel;
use crate::parse::begins_with;
use crate::parse::count_while;
use crate::parse::hard_fail;
use crate::parse::is_hspace;
use crate::parse::is_wspace;
use crate::parse::lemma_count_while;
use crate::parse::obeys_progress;
use crate::parse::parse_name;
use crate::parse::primitives::parse_link_target;
use crate::parse::primitives::sp_link_target;
use crate::parse::representation::parse_composite_representation;
use crate::parse::representation::sp_composite_repr;
use crate::parse::scan;
use crate::parse::soft_fail;
use crate::parse::sp_name;
use crate::parse::starts_with;
use crate::parse::strip_tag;
use crate::parse::CharClass;
use crate::parse::Progress;
use crate::representation::StringPairs;
use crate::structural::StructRepresentation;
use crate::InlineIpldType;

verus! {

/// Spec of an optional `nullable` modifier followed by at least one space:
/// whether it is present and how many characters it consumes.
pub open spec fn sp_nullable(s: Seq<char>) -> (bool, nat) {
    let k = "nullable"@.len();
    let h = count_while(s.skip(k as int), |c: char| is_hspace(c));
    if begins_with(s, "nullable"@) && h >= 1 {
        (true, (k + h) as nat)
    } else {
        (false, 0)
    }
}

/// Consume an optional `nullable` modifier and the space after it.
pub fn parse_nullable<'a>(input: &InStr<'a>) -> (r: (bool, InStr<'a>))
    requires
        input.wf(),
    ensures
        ({
            let (nl, c) = sp_nullable(input.text());
            &&& r.0 == nl
            &&& r.1.wf() && input.same_source(r.1) && r.1.file == input.file
            &&& r.1.span_end == input.span_end
            &&& r.1.span_start == input.span_start + c
        }),
{
    match strip_tag(input, "nullable") {
        Some(after_kw) => {
            proof {
                assert(after_kw.text() =~= input.text().skip("nullable"@.len() as int));
            }
            let h = scan(&after_kw, CharClass::Hspace);
            if h == 0 {
                (false, *input)
            } else {
                (true, after_kw.skip_chars(h))
            }
        },
        None => (false, *input),
    }
}

/// Spec of an inline type, dispatching on the next token's shape: `list`
/// starts a nested list, `map` a nested map, `&` a link, and anything else
/// must be a bare capitalized type name.
pub open spec fn sp_inline_type(s: Seq<char>) -> Progress<InlineModel>
    decreases s.len(), 2int,
{
    if begins_with(s, "list"@) {
        match sp_list(s) {
            Progress::Match { len, value } => Progress::Match {
                len,
                value: InlineModel::List(Box::new(value)),
            },
            Progress::Miss => Progress::Miss,
            Progress::Reject { at, err } => Progress::Reject { at, err },
        }
    } else if begins_with(s, "map"@) {
        match sp_map(s) {
            Progress::Match { len, value } => Progress::Match {
                len,
                value: InlineModel::Mapping(Box::new(value)),
            },
            Progress::Miss => Progress::Miss,
            Progress::Reject { at, err } => Progress::Reject { at, err },
        }
    } else if s.len() > 0 && s[0] == '&' {
        match sp_link_target(s) {
            Progress::Match { len, value } => Progress::Match {
                len,
                value: InlineModel::Link(value),
            },
            Progress::Miss => Progress::Miss,
            Progress::Reject { at, err } => Progress::Reject { at, err },
        }
    } else {
        match sp_name(s, true) {
            Progress::Match { len, value } => Progress::Match {
                len,
                value: InlineModel::Name(value),
            },
            Progress::Miss => Progress::Miss,
            Progress::Reject { at, err } => Progress::Reject { at, err },
        }
    }
}

/// Spec of a list definition: `list`, at least one space, an optional
/// `nullable` modifier, and the inline element type. After the spaced `list`
/// keyword, a bad element type is a hard failure.
pub open spec fn sp_list(s: Seq<char>) -> Progress<ListModel>
    decreases s.len(), 1int,
{
    if begins_with(s, "list"@) {
        let k = "list"@.len();
        let h = count_while(s.skip(k as int), |c: char| is_hspace(c));
        if h == 0 {
            Progress::Miss
        } else {
            let p = k + h;
            let (nl, c) = sp_nullable(s.skip(p as int));
            let q = p + c;
            if 0 < q <= s.len() {
                match sp_inline_type(s.skip(q as int)) {
                    Progress::Match { len: n, value: v } => Progress::Match {
                        len: (q + n) as nat,
                        value: ListModel { ty: v, nullable: nl },
                    },
                    Progress::Miss => Progress::Reject {
                        at: q as nat,
                        err: IpldSchemaParseError::InvalidTypeDefinition,
                    },
                    Progress::Reject { at, err } => Progress::Reject { at: (q + at) as nat, err },
                }
            } else {
                Progress::Miss
            }
        }
    } else {
        Progress::Miss
    }
}

/// Spec of the opening of a map definition: `map`, `{`, the key type
/// name, and the colon, with the whitespace between. Yields the offset just
/// past the colon's trailing spaces, and the key name.
pub open spec fn sp_map_head(s: Seq<char>) -> Progress<Seq<char>>
    decreases s.len(), 0int,
{
    if begins_with(s, "map"@) {
        let k = "map"@.len();
        let w0 = count_while(s.skip(k as int), |c: char| is_wspace(c));
        let p = k + w0;
        if p < s.len() && s[p as int] == '{' {
            let w1 = count_while(s.skip(p + 1 as int), |c: char| is_wspace(c));
            let np = p + 1 + w1;
            match sp_name(s.skip(np as int), true) {
                Progress::Match { len: n, value: key } => {
                    let h2 = count_while(s.skip((np + n) as int), |c: char| is_hspace(c));
                    let cp = np + n + h2;
                    if cp < s.len() && s[cp as int] == ':' {
                        let h3 = count_while(s.skip(cp + 1 as int), |c: char| is_hspace(c));
                        Progress::Match { len: (cp + 1 + h3) as nat, value: key }
                    } else {
                        Progress::Reject {
                            at: cp as nat,
                            err: IpldSchemaParseError::InvalidTypeDefinition,
                        }
                    }
                },
                _ => Progress::Reject { at: np as nat, err: IpldSchemaParseError::InvalidTypeName },
            }
        } else {
            Progress::Miss
        }
    } else {
        Progress::Miss
    }
}

/// Spec of a map definition: the head (`map { KeyName :`), an optional
/// `nullable` modifier, the inline value type, the closing brace, and an
/// optional representation clause. Once `map {` has been read, malformed
/// contents are hard failures at the offending position.
pub open spec fn sp_map(s: Seq<char>) -> Progress<MapModel>
    decreases s.len(), 1int,
{
    match sp_map_head(s) {
        Progress::Match { len: vp0, value: key } => {
            let (nl, c) = sp_nullable(s.skip(vp0 as int));
            let vp = vp0 + c;
            if 0 < vp <= s.len() {
                match sp_inline_type(s.skip(vp as int)) {
                    Progress::Match { len: m, value: val } => {
                        let w4 = count_while(s.skip((vp + m) as int), |ch: char| is_wspace(ch));
                        let bp = vp + m + w4;
                        if bp < s.len() && s[bp as int] == '}' {
                            match sp_composite_repr(s.skip(bp + 1 as int), false) {
                                Progress::Match { len: rl, value: repr } => Progress::Match {
                                    len: (bp + 1 + rl) as nat,
                                    value: MapModel {
                                        key,
                                        value: val,
                                        nullable: nl,
                                        repr: to_map_repr(repr),
                                    },
                                },
                                Progress::Miss => Progress::Match {
                                    len: (bp + 1) as nat,
                                    value: MapModel {
                                        key,
                                        value: val,
                                        nullable: nl,
                                        repr: MapReprModel::Mapping,
                                    },
                                },
                                Progress::Reject { at, err } => Progress::Reject {
                                    at: (bp + 1 + at) as nat,
                                    err,
                                },
                            }
                        } else {
                            Progress::Reject {
                                at: bp as nat,
                                err: IpldSchemaParseError::InvalidTypeDefinition,
                            }
                        }
                    },
                    Progress::Miss => Progress::Reject {
                        at: vp as nat,
                        err: IpldSchemaParseError::InvalidTypeDefinition,
                    },
                    Progress::Reject { at, err } => Progress::Reject { at: (vp + at) as nat, err },
                }
            } else {
                Progress::Miss
            }
        },
        Progress::Miss => Progress::Miss,
        Progress::Reject { at, err } => Progress::Reject { at, err },
    }
}

/// Parse an inline type.
pub fn parse_inline_type<'a>(input: InStr<'a>) -> (r: ParseResult<
    'a,
    InlineIpldType,
    IpldSchemaParseError,
>)
    requires
        input.wf(),
    ensures
        obeys_progress(input, r, sp_inline_type(input.text()), |t: InlineIpldType| t.model()),
    decreases input.text().len(), 2int,
{
    if starts_with(&input, "list") {
        match parse_list(input) {
            Ok((rest, l)) => {
                Ok((rest, InlineIpldType::List(Box::new(l))))
            },
            Err(e) => Err(e),
        }
    } else if starts_with(&input, "map") {
        match parse_map(input) {
            Ok((rest, m)) => Ok((rest, InlineIpldType::Mapping(Box::new(m)))),
            Err(e) => Err(e),
        }
    } else if !input.is_empty() && input.char_at(0) == '&' {
        match parse_link_target(input) {
            Ok((rest, n)) => Ok((rest, InlineIpldType::Link(n))),
            Err(e) => Err(e),
        }
    } else {
        match parse_name(input, true) {
            Ok((rest, n)) => Ok((rest, InlineIpldType::Name(n))),
            Err(e) => Err(e),
        }
    }
}

/// Parse a list definition.
#[verifier::rlimit(100)]
#[verifier::spinoff_prover]
pub fn parse_list<'a>(input: InStr<'a>) -> (r: ParseResult<'a, ListType, IpldSchemaParseError>)
    requires
        input.wf(),
    ensures
        obeys_progress(input, r, sp_list(input.text()), |l: ListType| l.model()),
    decreases input.text().len(), 1int,
{
    let cur = match strip_tag(&input, "list") {
        Some(c) => c,
        None => {
            return Err(soft_fail(input, IpldSchemaParseError::Unknown));
        },
    };
    proof {
        assert(cur.text() =~= input.text().skip("list"@.len() as int));
    }
    let h = scan(&cur, CharClass::Hspace);
    if h == 0 {
        return Err(soft_fail(input, IpldSchemaParseError::Unknown));
    }
    let after_space = cur.skip_chars(h);
    proof {
        assert(after_space.text() =~= input.text().skip(
            (after_space.span_start - input.span_start) as int,
        ));
    }
    let (nl, vcur) = parse_nullable(&after_space);
    let q = vcur.span_start - input.span_start;
    proof {
        assert(vcur.text() =~= input.text().skip(q as int));
    }
    match parse_inline_type(vcur) {
        Ok((rest, v)) => Ok((rest, ListType { ty: v, nullable: nl })),
        Err(ParseErr::Hard(d)) => Err(ParseErr::Hard(d)),
        Err(ParseErr::Soft(_)) => {
            let run = scan(&vcur, CharClass::NameChar);
            Err(
                hard_fail(
                    input,
                    q,
                    q + run,
                    IpldSchemaParseError::InvalidTypeDefinition,
                    Some("a list takes an element type"),
                ),
            )
        },
    }
}

/// Turn a struct representation into the corresponding map representation.
fn struct_repr_to_map_repr(r: StructRepresentation) -> (m: MapRepresentation)
    ensures
        m.model() == to_map_repr(r.model()),
{
    match r {
        StructRepresentation::Mapping => MapRepresentation::Mapping,
        StructRepresentation::Tuple => MapRepresentation::Mapping,
        StructRepresentation::ListPairs => MapRepresentation::ListPairs,
        StructRepresentation::StringPairs(sp) => MapRepresentation::StringPairs(sp),
        StructRepresentation::Advanced(n) => MapRepresentation::Advanced(n),
    }
}

/// Parse the opening of a map definition, through the colon.
#[verifier::spinoff_prover]
fn parse_map_head<'a>(input: InStr<'a>) -> (r: ParseResult<'a, String, IpldSchemaParseError>)
    requires
        input.wf(),
    ensures
        obeys_progress(input, r, sp_map_head(input.text()), |s: String| s@),
{
    let cur = match strip_tag(&input, "map") {
        Some(c) => c,
        None => {
            return Err(soft_fail(input, IpldSchemaParseError::Unknown));
        },
    };
    proof {
        assert(cur.text() =~= input.text().skip("map"@.len() as int));
    }
    let w0 = scan(&cur, CharClass::Wspace);
    if w0 == cur.len() || cur.char_at(w0) != '{' {
        return Err(soft_fail(input, IpldSchemaParseError::Unknown));
    }
    let after_brace = cur.skip_chars(w0 + 1);
    proof {
        assert(after_brace.text() =~= input.text().skip(
            (after_brace.span_start - input.span_start) as int,
        ));
    }
    let w1 = scan(&after_brace, CharClass::Wspace);
    let key_cur = after_brace.skip_chars(w1);
    let np = key_cur.span_start - input.span_start;
    proof {
        assert(key_cur.text() =~= input.text().skip(np as int));
    }
    let (after_key, key) = match parse_name(key_cur, true) {
        Ok(ok) => ok,
        Err(_) => {
            let run = scan(&key_cur, CharClass::NameChar);
            return Err(
                hard_fail(
                    input,
                    np,
                    np + run,
                    IpldSchemaParseError::InvalidTypeName,
                    Some("a map names its key type"),
                ),
            );
        },
    };
    proof {
        assert(after_key.text() =~= input.text().skip(
            (after_key.span_start - input.span_start) as int,
        ));
    }
    let h2 = scan(&after_key, CharClass::Hspace);
    let cp = after_key.span_start - input.span_start + h2;
    if h2 == after_key.len() || after_key.char_at(h2) != ':' {
        return Err(
            hard_fail(
                input,
                cp,
                cp,
                IpldSchemaParseError::InvalidTypeDefinition,
                Some("a map separates key and value types with a colon"),
            ),
        );
    }
    let after_colon = after_key.skip_chars(h2 + 1);
    proof {
        assert(after_colon.text() =~= input.text().skip(
            (after_colon.span_start - input.span_start) as int,
        ));
    }
    let h3 = scan(&after_colon, CharClass::Hspace);
    Ok((after_colon.skip_chars(h3), key))
}

/// Parse a map definition.
#[verifier::rlimit(100)]
#[verifier::spinoff_prover]
pub fn parse_map<'a>(input: InStr<'a>) -> (r: ParseResult<'a, MapType, IpldSchemaParseError>)
    requires
        input.wf(),
    ensures
        obeys_progress(input, r, sp_map(input.text()), |m: MapType| m.model()),
    decreases input.text().len(), 1int,
{
    let (val_start, key) = match parse_map_head(input) {
        Ok(ok) => ok,
        Err(e) => {
            return Err(e);
        },
    };
    proof {
        assert(val_start.text() =~= input.text().skip(
            (val_start.span_start - input.span_start) as int,
        ));
    }
    let (nl, vcur) = parse_nullable(&val_start);
    let vp = vcur.span_start - input.span_start;
    proof {
        assert(vcur.text() =~= input.text().skip(vp as int));
    }
    let (after_val, val) = match parse_inline_type(vcur) {
        Ok(ok) => ok,
        Err(ParseErr::Hard(d)) => {
            return Err(ParseErr::Hard(d));
        },
        Err(ParseErr::Soft(_)) => {
            let run = scan(&vcur, CharClass::NameChar);
            return Err(
                hard_fail(
                    input,
                    vp,
                    vp + run,
                    IpldSchemaParseError::InvalidTypeDefinition,
                    Some("a map takes a value type"),
                ),
            );
        },
    };
    proof {
        assert(after_val.text() =~= input.text().skip(
            (after_val.span_start - input.span_start) as int,
        ));
    }
    let w4 = scan(&after_val, CharClass::Wspace);
    let bp = after_val.span_start - input.span_start + w4;
    if w4 == after_val.len() || after_val.char_at(w4) != '}' {
        return Err(
            hard_fail(
                input,
                bp,
                bp,
                IpldSchemaParseError::InvalidTypeDefinition,
                Some("a map ends with a closing brace"),
            ),
        );
    }
    let after_close = after_val.skip_chars(w4 + 1);
    proof {
        assert(after_close.text() =~= input.text().skip(
            (after_close.span_start - input.span_start) as int,
        ));
    }
    match parse_composite_representation(after_close, false) {
        Ok((rest, repr)) => Ok(
            (
                rest,
                MapType { key, value: val, nullable: nl, repr: struct_repr_to_map_repr(repr) },
            ),
        ),
        Err(ParseErr::Soft(_)) => Ok(
            (
                after_close,
                MapType { key, value: val, nullable: nl, repr: MapRepresentation::Mapping },
            ),
        ),
        Err(ParseErr::Hard(d)) => Err(ParseErr::Hard(d)),
    }
}

/// A matched inline type stays inside its text.
pub proof fn lemma_inline_le(s: Seq<char>)
    ensures
        sp_inline_type(s) matches Progress::Match { len, .. } ==> 0 < len <= s.len(),
    decreases s.len(), 2int,
{
    if begins_with(s, "list"@) {
        lemma_list_le(s);
    } else if begins_with(s, "map"@) {
        lemma_map_le(s);
    } else if s.len() > 0 && s[0] == '&' {
        crate::parse::primitives::lemma_link_target_le(s);
    } else {
        crate::parse::lemma_name_len(s, true);
    }
}

/// A matched list definition stays inside its text.
pub proof fn lemma_list_le(s: Seq<char>)
    ensures
        sp_list(s) matches Progress::Match { len, .. } ==> 0 < len <= s.len(),
    decreases s.len(), 1int,
{
    if begins_with(s, "list"@) {
        let k = "list"@.len();
        let h = count_while(s.skip(k as int), |c: char| is_hspace(c));
        if h != 0 {
            let p = k + h;
            let (nl, c) = sp_nullable(s.skip(p as int));
            let q = p + c;
            if 0 < q <= s.len() {
                lemma_inline_le(s.skip(q as int));
            }
        }
    }
}

/// A matched map opening stays inside its text.
pub proof fn lemma_map_head_le(s: Seq<char>)
    ensures
        sp_map_head(s) matches Progress::Match { len, .. } ==> 0 < len <= s.len(),
    decreases s.len(), 0int,
{
    if begins_with(s, "map"@) {
        let k = "map"@.len();
        lemma_count_while(s.skip(k as int), |c: char| is_wspace(c));
        let w0 = count_while(s.skip(k as int), |c: char| is_wspace(c));
        let p = k + w0;
        if p < s.len() && s[p as int] == '{' {
            lemma_count_while(s.skip(p + 1 as int), |c: char| is_wspace(c));
            let w1 = count_while(s.skip(p + 1 as int), |c: char| is_wspace(c));
            let np = p + 1 + w1;
            crate::parse::lemma_name_len(s.skip(np as int), true);
            match sp_name(s.skip(np as int), true) {
                Progress::Match { len: n, .. } => {
                    lemma_count_while(s.skip((np + n) as int), |c: char| is_hspace(c));
                    let h2 = count_while(s.skip((np + n) as int), |c: char| is_hspace(c));
                    let cp = np + n + h2;
                    if cp < s.len() && s[cp as int] == ':' {
                        lemma_count_while(s.skip(cp + 1 as int), |c: char| is_hspace(c));
                    }
                },
                _ => {},
            }
        }
    }
}

/// A matched map definition stays inside its text.
pub proof fn lemma_map_le(s: Seq<char>)
    ensures
        sp_map(s) matches Progress::Match { len, .. } ==> 0 < len <= s.len(),
    decreases s.len(), 1int,
{
    lemma_map_head_le(s);
    match sp_map_head(s) {
        Progress::Match { len: vp0, .. } => {
            let (nl, c) = sp_nullable(s.skip(vp0 as int));
            let vp = vp0 + c;
            if 0 < vp <= s.len() {
                lemma_inline_le(s.skip(vp as int));
                match sp_inline_type(s.skip(vp as int)) {
                    Progress::Match { len: m, .. } => {
                        lemma_count_while(s.skip((vp + m) as int), |ch: char| is_wspace(ch));
                        let w4 = count_while(s.skip((vp + m) as int), |ch: char| is_wspace(ch));
                        let bp = vp + m + w4;
                        if bp < s.len() && s[bp as int] == '}' {
                            crate::parse::representation::lemma_composite_repr_le(
                                s.skip(bp + 1 as int),
                                false,
                            );
                        }
                    },
                    _ => {},
                }
            }
        },
        _ => {},
    }
}

} // verus!
