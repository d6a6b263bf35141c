//! Representation clauses: ` representation <value>`, with a closed
//! vocabulary per kind.
//!
//! Once the `representation` keyword has been read, a token outside the
//! clause's vocabulary is a hard failure spanning exactly the offending
//! identifier-like run, with a hint naming the valid set.

use vstd::prelude::*;

use crate::diagnostic::InStr;
use crate::diagnostic::ParseResult;
use crate::error::IpldSchemaParseError;
use crate::model::BytesReprModel;
use crate::model::UnitReprModel;
use crate::parse::begins_with;
use crate::parse::count_while;
use crate::parse::hard_fail;
use crate::parse::is_hspace;
use crate::parse::lemma_count_while;
use crate::parse::is_wspace;
use crate::parse::lemma_name_len;
use crate::parse::lemma_quoted_len;
use crate::parse::obeys_progress;
use crate::parse::opt_str_view;
use crate::parse::parse_name;
use crate::parse::parse_quoted;
use crate::parse::parse_type_name;
use crate::parse::scan;
use crate::parse::shift_progress;
use crate::parse::soft_fail;
use crate::parse::sp_name;
use crate::parse::sp_quoted;
use crate::parse::string_eq_lit;
use crate::parse::starts_with;
use crate::parse::strip_tag;
use crate::parse::CharClass;
use crate::parse::Progress;
use crate::diagnostic::ParseErr;
use crate::model::StructReprModel;
use crate::representation::BytesRepresentation;
use crate::representation::StringPairs;
use crate::structural::StructRepresentation;
use crate::representation::UnitRepresentation;

verus! {

/// Spec of the clause opening: at least one space, the word
/// `representation`, at least one space. Yields the characters consumed, or
/// nothing if the opening is absent.
pub open spec fn sp_repr_intro(s: Seq<char>) -> Option<nat> {
    let h1 = count_while(s, |c: char| is_hspace(c));
    if h1 >= 1 && begins_with(s.skip(h1 as int), "representation"@) {
        let p = h1 + "representation"@.len();
        let h2 = count_while(s.skip(p as int), |c: char| is_hspace(c));
        if h2 >= 1 {
            Some((p + h2) as nat)
        } else {
            None
        }
    } else {
        None
    }
}

/// The clause opening never consumes more than the text it was given.
pub proof fn lemma_repr_intro_len(s: Seq<char>)
    ensures
        sp_repr_intro(s) matches Some(q) ==> 0 < q <= s.len(),
{
    lemma_count_while(s, |c: char| is_hspace(c));
    let h1 = count_while(s, |c: char| is_hspace(c));
    if h1 >= 1 && begins_with(s.skip(h1 as int), "representation"@) {
        let p = h1 + "representation"@.len();
        lemma_count_while(s.skip(p as int), |c: char| is_hspace(c));
    }
}

/// Consume ` representation ` if present.
pub fn parse_repr_intro<'a>(input: &InStr<'a>) -> (r: Option<InStr<'a>>)
    requires
        input.wf(),
    ensures
        match r {
            Some(rest) => {
                &&& sp_repr_intro(input.text()) matches Some(q) && rest.span_start
                    == input.span_start + q
                &&& rest.wf() && input.same_source(rest) && rest.file == input.file
                &&& rest.span_end == input.span_end
            },
            None => sp_repr_intro(input.text()) is None,
        },
{
    let h1 = scan(input, CharClass::Hspace);
    if h1 == 0 {
        return None;
    }
    let after_space = input.skip_chars(h1);
    let after_kw = match strip_tag(&after_space, "representation") {
        Some(c) => c,
        None => {
            return None;
        },
    };
    proof {
        assert(after_kw.text() =~= input.text().skip(
            (h1 + "representation"@.len()) as int,
        ));
    }
    let h2 = scan(&after_kw, CharClass::Hspace);
    if h2 == 0 {
        return None;
    }
    Some(after_kw.skip_chars(h2))
}

/// Spec of a unit representation clause: `representation` followed by one of
/// `null`, `true`, `false`, `emptymap`. Any other token is a hard failure at
/// the token.
#[verifier::opaque]
pub open spec fn sp_unit_repr(s: Seq<char>) -> Progress<UnitReprModel> {
    match sp_repr_intro(s) {
        None => Progress::Miss,
        Some(q) => {
            let t = s.skip(q as int);
            if begins_with(t, "null"@) {
                Progress::Match { len: q + "null"@.len(), value: UnitReprModel::Null }
            } else if begins_with(t, "true"@) {
                Progress::Match { len: q + "true"@.len(), value: UnitReprModel::True }
            } else if begins_with(t, "false"@) {
                Progress::Match { len: q + "false"@.len(), value: UnitReprModel::False }
            } else if begins_with(t, "emptymap"@) {
                Progress::Match { len: q + "emptymap"@.len(), value: UnitReprModel::EmptyMap }
            } else {
                Progress::Reject { at: q, err: IpldSchemaParseError::InvalidRepresentation }
            }
        },
    }
}

/// Parse a unit representation clause.
pub fn parse_unit_representation<'a>(input: InStr<'a>) -> (r: ParseResult<
    'a,
    UnitRepresentation,
    IpldSchemaParseError,
>)
    requires
        input.wf(),
    ensures
        obeys_progress(
            input,
            r,
            sp_unit_repr(input.text()),
            |u: UnitRepresentation| u.model(),
        ),
{
    proof {
        reveal(sp_unit_repr);
    }
    let cur = match parse_repr_intro(&input) {
        Some(c) => c,
        None => {
            return Err(soft_fail(input, IpldSchemaParseError::InvalidRepresentation));
        },
    };
    proof {
        lemma_repr_intro_len(input.text());
        assert(cur.text() =~= input.text().skip((cur.span_start - input.span_start) as int));
    }
    if let Some(rest) = strip_tag(&cur, "null") {
        return Ok((rest, UnitRepresentation::Null));
    }
    if let Some(rest) = strip_tag(&cur, "true") {
        return Ok((rest, UnitRepresentation::True));
    }
    if let Some(rest) = strip_tag(&cur, "false") {
        return Ok((rest, UnitRepresentation::False));
    }
    if let Some(rest) = strip_tag(&cur, "emptymap") {
        return Ok((rest, UnitRepresentation::EmptyMap));
    }
    let at = cur.span_start - input.span_start;
    let run = scan(&cur, CharClass::NameChar);
    Err(
        hard_fail(
            input,
            at,
            at + run,
            IpldSchemaParseError::InvalidRepresentation,
            Some("valid unit representations are null, true, false, and emptymap"),
        ),
    )
}

/// Spec of a bytes representation clause: `representation` followed by
/// `advanced <Name>` or `bytes`. Any other token is a hard failure at the
/// token; `advanced` without a valid type name is a hard failure at the
/// missing name.
#[verifier::opaque]
pub open spec fn sp_bytes_repr(s: Seq<char>) -> Progress<BytesReprModel> {
    match sp_repr_intro(s) {
        None => Progress::Miss,
        Some(q) => {
            let t = s.skip(q as int);
            if begins_with(t, "advanced"@) {
                let p = q + "advanced"@.len();
                let h = count_while(s.skip(p as int), |c: char| is_hspace(c));
                if h == 0 {
                    Progress::Reject { at: q, err: IpldSchemaParseError::InvalidRepresentation }
                } else {
                    match sp_name(s.skip((p + h) as int), true) {
                        Progress::Match { len: n, value: v } => Progress::Match {
                            len: p + h + n,
                            value: BytesReprModel::Advanced(v),
                        },
                        _ => Progress::Reject {
                            at: p + h,
                            err: IpldSchemaParseError::InvalidTypeName,
                        },
                    }
                }
            } else if begins_with(t, "bytes"@) {
                Progress::Match { len: q + "bytes"@.len(), value: BytesReprModel::Bytes }
            } else {
                Progress::Reject { at: q, err: IpldSchemaParseError::InvalidRepresentation }
            }
        },
    }
}

/// Parse a bytes representation clause.
pub fn parse_bytes_representation<'a>(input: InStr<'a>) -> (r: ParseResult<
    'a,
    BytesRepresentation,
    IpldSchemaParseError,
>)
    requires
        input.wf(),
    ensures
        obeys_progress(
            input,
            r,
            sp_bytes_repr(input.text()),
            |b: BytesRepresentation| b.model(),
        ),
{
    proof {
        reveal(sp_bytes_repr);
    }
    let cur = match parse_repr_intro(&input) {
        Some(c) => c,
        None => {
            return Err(soft_fail(input, IpldSchemaParseError::InvalidRepresentation));
        },
    };
    proof {
        lemma_repr_intro_len(input.text());
        assert(cur.text() =~= input.text().skip((cur.span_start - input.span_start) as int));
    }
    let at = cur.span_start - input.span_start;
    if let Some(after_adv) = strip_tag(&cur, "advanced") {
        proof {
            assert(after_adv.text() =~= input.text().skip(
                (after_adv.span_start - input.span_start) as int,
            ));
        }
        let h = scan(&after_adv, CharClass::Hspace);
        if h == 0 {
            let run = scan(&cur, CharClass::NameChar);
            return Err(
                hard_fail(
                    input,
                    at,
                    at + run,
                    IpldSchemaParseError::InvalidRepresentation,
                    Some("valid bytes representations are bytes and advanced <Name>"),
                ),
            );
        }
        let name_cur = after_adv.skip_chars(h);
        proof {
            assert(name_cur.text() =~= input.text().skip(
                (name_cur.span_start - input.span_start) as int,
            ));
        }
        match parse_type_name(name_cur) {
            Ok((rest, name)) => {
                return Ok((rest, BytesRepresentation::Advanced(name)));
            },
            Err(_) => {
                let name_at = name_cur.span_start - input.span_start;
                let run = scan(&name_cur, CharClass::NameChar);
                return Err(
                    hard_fail(
                        input,
                        name_at,
                        name_at + run,
                        IpldSchemaParseError::InvalidTypeName,
                        Some("an advanced representation names a type"),
                    ),
                );
            },
        }
    }
    if let Some(rest) = strip_tag(&cur, "bytes") {
        return Ok((rest, BytesRepresentation::Bytes));
    }
    let run = scan(&cur, CharClass::NameChar);
    Err(
        hard_fail(
            input,
            at,
            at + run,
            IpldSchemaParseError::InvalidRepresentation,
            Some("valid bytes representations are bytes and advanced <Name>"),
        ),
    )
}

/// Spec of an enum representation clause: `representation` followed by `int`
/// or `string`. The value says whether the integer kind was chosen. Any
/// other token is a hard failure at the token.
#[verifier::opaque]
pub open spec fn sp_enum_repr(s: Seq<char>) -> Progress<bool> {
    match sp_repr_intro(s) {
        None => Progress::Miss,
        Some(q) => {
            let t = s.skip(q as int);
            if begins_with(t, "int"@) {
                Progress::Match { len: q + "int"@.len(), value: true }
            } else if begins_with(t, "string"@) {
                Progress::Match { len: q + "string"@.len(), value: false }
            } else {
                Progress::Reject { at: q, err: IpldSchemaParseError::InvalidRepresentation }
            }
        },
    }
}

/// Parse an enum representation clause; the result says whether the integer
/// kind was chosen.
pub fn parse_enum_representation<'a>(input: InStr<'a>) -> (r: ParseResult<
    'a,
    bool,
    IpldSchemaParseError,
>)
    requires
        input.wf(),
    ensures
        obeys_progress(input, r, sp_enum_repr(input.text()), |b: bool| b),
        r matches Err(ParseErr::Hard(d)) ==> d.errors@[0].inner
            == IpldSchemaParseError::InvalidRepresentation,
{
    proof {
        reveal(sp_enum_repr);
    }
    let cur = match parse_repr_intro(&input) {
        Some(c) => c,
        None => {
            return Err(soft_fail(input, IpldSchemaParseError::InvalidRepresentation));
        },
    };
    proof {
        lemma_repr_intro_len(input.text());
        assert(cur.text() =~= input.text().skip((cur.span_start - input.span_start) as int));
    }
    if let Some(rest) = strip_tag(&cur, "int") {
        return Ok((rest, true));
    }
    if let Some(rest) = strip_tag(&cur, "string") {
        return Ok((rest, false));
    }
    let at = cur.span_start - input.span_start;
    let run = scan(&cur, CharClass::NameChar);
    Err(
        hard_fail(
            input,
            at,
            at + run,
            IpldSchemaParseError::InvalidRepresentation,
            Some("valid enum representations are int and string"),
        ),
    )
}

/// Spec of the inside of a stringpairs block, up to and including the
/// closing `}`. The keys seen so far are threaded through; the block must
/// contain exactly the keys `innerDelim` and `entryDelim`, in either order.
/// A missing key is a hard failure at the closing brace; an unknown or
/// duplicate key is a hard failure at that key.
#[verifier::opaque]
pub open spec fn sp_sp_entries(
    s: Seq<char>,
    inner: Option<Seq<char>>,
    entry: Option<Seq<char>>,
) -> Progress<(Seq<char>, Seq<char>)>
    decreases s.len(),
{
    let w = count_while(s, |c: char| is_wspace(c));
    if w < s.len() && s[w as int] == '}' {
        match (inner, entry) {
            (Some(i), Some(e)) => Progress::Match { len: w + 1, value: (i, e) },
            _ => Progress::Reject { at: w, err: IpldSchemaParseError::InvalidStringPairs },
        }
    } else {
        match sp_name(s.skip(w as int), false) {
            Progress::Match { len: n, value: key } => {
                if n > 0 && w + n <= s.len() {
                    let h = count_while(s.skip((w + n) as int), |c: char| is_hspace(c));
                    match sp_quoted(s.skip((w + n + h) as int)) {
                        Progress::Match { len: m, value: val } => {
                            if m > 0 && w + n + h + m <= s.len() {
                                if key == "innerDelim"@ {
                                    if inner is Some {
                                        Progress::Reject {
                                            at: w,
                                            err: IpldSchemaParseError::InvalidStringPairs,
                                        }
                                    } else {
                                        shift_progress(
                                            sp_sp_entries(
                                                s.skip((w + n + h + m) as int),
                                                Some(val),
                                                entry,
                                            ),
                                            (w + n + h + m) as nat,
                                        )
                                    }
                                } else if key == "entryDelim"@ {
                                    if entry is Some {
                                        Progress::Reject {
                                            at: w,
                                            err: IpldSchemaParseError::InvalidStringPairs,
                                        }
                                    } else {
                                        shift_progress(
                                            sp_sp_entries(
                                                s.skip((w + n + h + m) as int),
                                                inner,
                                                Some(val),
                                            ),
                                            (w + n + h + m) as nat,
                                        )
                                    }
                                } else {
                                    Progress::Reject {
                                        at: w,
                                        err: IpldSchemaParseError::InvalidStringPairs,
                                    }
                                }
                            } else {
                                Progress::Reject {
                                    at: w + n + h,
                                    err: IpldSchemaParseError::InvalidStringPairs,
                                }
                            }
                        },
                        _ => Progress::Reject {
                            at: w + n + h,
                            err: IpldSchemaParseError::InvalidStringPairs,
                        },
                    }
                } else {
                    Progress::Reject { at: w, err: IpldSchemaParseError::InvalidStringPairs }
                }
            },
            _ => Progress::Reject { at: w, err: IpldSchemaParseError::InvalidStringPairs },
        }
    }
}

/// Parse the inside of a stringpairs block, with the delimiters seen so far.
#[verifier::rlimit(50)]
fn parse_sp_entries<'a>(
    input: InStr<'a>,
    inner: Option<String>,
    entry: Option<String>,
) -> (r: ParseResult<'a, (String, String), IpldSchemaParseError>)
    requires
        input.wf(),
    ensures
        obeys_progress(
            input,
            r,
            sp_sp_entries(input.text(), opt_str_view(inner), opt_str_view(entry)),
            |p: (String, String)| (p.0@, p.1@),
        ),
    decreases input.text().len(),
{
    proof {
        reveal_with_fuel(sp_sp_entries, 1);
    }
    let w = scan(&input, CharClass::Wspace);
    if w < input.len() && input.char_at(w) == '}' {
        let both = inner.is_some() && entry.is_some();
        if both {
            let i = match inner {
                Some(i) => i,
                None => {
                    return Err(soft_fail(input, IpldSchemaParseError::Unknown));
                },
            };
            let e = match entry {
                Some(e) => e,
                None => {
                    return Err(soft_fail(input, IpldSchemaParseError::Unknown));
                },
            };
            Ok((input.skip_chars(w + 1), (i, e)))
        } else {
            Err(
                hard_fail(
                    input,
                    w,
                    w + 1,
                    IpldSchemaParseError::InvalidStringPairs,
                    Some("a stringpairs block needs both innerDelim and entryDelim"),
                ),
            )
        }
    } else {
        let key_cur = input.skip_chars(w);
        proof {
            lemma_name_len(key_cur.text(), false);
        }
        let krun = scan(&key_cur, CharClass::NameChar);
        match parse_name(key_cur, false) {
            Err(_) => Err(
                hard_fail(
                    input,
                    w,
                    w + krun,
                    IpldSchemaParseError::InvalidStringPairs,
                    Some("expected a stringpairs key or the closing brace"),
                ),
            ),
            Ok((after_key, key)) => {
                proof {
                    assert(after_key.text() =~= input.text().skip(
                        (after_key.span_start - input.span_start) as int,
                    ));
                }
                let h = scan(&after_key, CharClass::Hspace);
                let val_cur = after_key.skip_chars(h);
                let at_v = val_cur.span_start - input.span_start;
                proof {
                    assert(val_cur.text() =~= input.text().skip(at_v as int));
                    lemma_quoted_len(val_cur.text());
                }
                match parse_quoted(val_cur) {
                    Err(_) => Err(
                        hard_fail(
                            input,
                            at_v,
                            at_v,
                            IpldSchemaParseError::InvalidStringPairs,
                            Some("a stringpairs key takes a quoted value"),
                        ),
                    ),
                    Ok((after_val, val)) => {
                        proof {
                            assert(after_val.text() =~= input.text().skip(
                                (after_val.span_start - input.span_start) as int,
                            ));
                        }
                        if string_eq_lit(&key, "innerDelim") {
                            if inner.is_some() {
                                Err(
                                    hard_fail(
                                        input,
                                        w,
                                        w + krun,
                                        IpldSchemaParseError::InvalidStringPairs,
                                        Some("innerDelim was already given"),
                                    ),
                                )
                            } else {
                                parse_sp_entries(after_val, Some(val), entry)
                            }
                        } else if string_eq_lit(&key, "entryDelim") {
                            if entry.is_some() {
                                Err(
                                    hard_fail(
                                        input,
                                        w,
                                        w + krun,
                                        IpldSchemaParseError::InvalidStringPairs,
                                        Some("entryDelim was already given"),
                                    ),
                                )
                            } else {
                                parse_sp_entries(after_val, inner, Some(val))
                            }
                        } else {
                            Err(
                                hard_fail(
                                    input,
                                    w,
                                    w + krun,
                                    IpldSchemaParseError::InvalidStringPairs,
                                    Some("the only stringpairs keys are innerDelim and entryDelim"),
                                ),
                            )
                        }
                    },
                }
            },
        }
    }
}

/// Law: stringpairs completeness, rejection half. Whenever the block's
/// contents reach the closing brace with one of the two delimiter keys
/// still missing, the block is a hard failure pinned at the brace; and the
/// block parse never ends in a soft failure, so a malformed block is always
/// reported rather than backtracked.
pub proof fn lemma_stringpairs_missing_key(
    s: Seq<char>,
    inner: Option<Seq<char>>,
    entry: Option<Seq<char>>,
)
    ensures
        ({
            let w = count_while(s, |c: char| is_wspace(c));
            (w < s.len() && s[w as int] == '}' && !(inner is Some && entry is Some)) ==> (
            sp_sp_entries(s, inner, entry) matches Progress::Reject { at, err } && at == w && err
                == IpldSchemaParseError::InvalidStringPairs)
        }),
        !(sp_sp_entries(s, inner, entry) is Miss),
    decreases s.len(),
{
    reveal_with_fuel(sp_sp_entries, 1);
    let w = count_while(s, |c: char| is_wspace(c));
    if !(w < s.len() && s[w as int] == '}') {
        match sp_name(s.skip(w as int), false) {
            Progress::Match { len: n, value: key } => {
                if n > 0 && w + n <= s.len() {
                    let h = count_while(s.skip((w + n) as int), |c: char| is_hspace(c));
                    match sp_quoted(s.skip((w + n + h) as int)) {
                        Progress::Match { len: m, value: val } => {
                            if m > 0 && w + n + h + m <= s.len() {
                                if key == "innerDelim"@ {
                                    if !(inner is Some) {
                                        lemma_stringpairs_missing_key(
                                            s.skip((w + n + h + m) as int),
                                            Some(val),
                                            entry,
                                        );
                                    }
                                } else if key == "entryDelim"@ {
                                    if !(entry is Some) {
                                        lemma_stringpairs_missing_key(
                                            s.skip((w + n + h + m) as int),
                                            inner,
                                            Some(val),
                                        );
                                    }
                                }
                            }
                        },
                        _ => {},
                    }
                }
            },
            _ => {},
        }
    }
}

/// Law: stringpairs completeness, assignment half. A delimiter already seen
/// is never overwritten by a later entry: if the block succeeds, each
/// delimiter carried in is the one handed out, so `innerDelim` and
/// `entryDelim` are assigned by key, in either order, and a duplicate key
/// can never change an assignment (it is rejected instead).
pub proof fn lemma_stringpairs_assignment(
    s: Seq<char>,
    inner: Option<Seq<char>>,
    entry: Option<Seq<char>>,
)
    ensures
        sp_sp_entries(s, inner, entry) matches Progress::Match { value: p, .. } ==> {
            &&& (inner matches Some(x) ==> p.0 == x)
            &&& (entry matches Some(y) ==> p.1 == y)
        },
    decreases s.len(),
{
    reveal_with_fuel(sp_sp_entries, 1);
    let w = count_while(s, |c: char| is_wspace(c));
    if !(w < s.len() && s[w as int] == '}') {
        match sp_name(s.skip(w as int), false) {
            Progress::Match { len: n, value: key } => {
                if n > 0 && w + n <= s.len() {
                    let h = count_while(s.skip((w + n) as int), |c: char| is_hspace(c));
                    match sp_quoted(s.skip((w + n + h) as int)) {
                        Progress::Match { len: m, value: val } => {
                            if m > 0 && w + n + h + m <= s.len() {
                                if key == "innerDelim"@ {
                                    if !(inner is Some) {
                                        lemma_stringpairs_assignment(
                                            s.skip((w + n + h + m) as int),
                                            Some(val),
                                            entry,
                                        );
                                    }
                                } else if key == "entryDelim"@ {
                                    if !(entry is Some) {
                                        lemma_stringpairs_assignment(
                                            s.skip((w + n + h + m) as int),
                                            inner,
                                            Some(val),
                                        );
                                    }
                                }
                            }
                        },
                        _ => {},
                    }
                }
            },
            _ => {},
        }
    }
}

/// Spec of a whole stringpairs block: the keyword, `{`, exactly the two
/// delimiter entries in either order, `}`. The value is
/// `(innerDelim, entryDelim)`.
#[verifier::opaque]
pub open spec fn sp_stringpairs(s: Seq<char>) -> Progress<(Seq<char>, Seq<char>)> {
    if begins_with(s, "stringpairs"@) {
        let k = "stringpairs"@.len();
        let w = count_while(s.skip(k as int), |c: char| is_wspace(c));
        if k + w < s.len() && s[(k + w) as int] == '{' {
            shift_progress(
                sp_sp_entries(s.skip((k + w + 1) as int), None, None),
                (k + w + 1) as nat,
            )
        } else {
            Progress::Reject { at: (k + w) as nat, err: IpldSchemaParseError::InvalidStringPairs }
        }
    } else {
        Progress::Miss
    }
}

/// Parse a stringpairs block and return `(innerDelim, entryDelim)`.
pub fn parse_string_pairs<'a>(input: InStr<'a>) -> (r: ParseResult<
    'a,
    (String, String),
    IpldSchemaParseError,
>)
    requires
        input.wf(),
    ensures
        obeys_progress(
            input,
            r,
            sp_stringpairs(input.text()),
            |p: (String, String)| (p.0@, p.1@),
        ),
{
    proof {
        reveal(sp_stringpairs);
    }
    let cur = match strip_tag(&input, "stringpairs") {
        Some(c) => c,
        None => {
            return Err(soft_fail(input, IpldSchemaParseError::InvalidStringPairs));
        },
    };
    proof {
        assert(cur.text() =~= input.text().skip((cur.span_start - input.span_start) as int));
    }
    let w = scan(&cur, CharClass::Wspace);
    let k_w = cur.span_start - input.span_start + w;
    if w < cur.len() && cur.char_at(w) == '{' {
        let body = cur.skip_chars(w + 1);
        proof {
            assert(body.text() =~= input.text().skip((body.span_start - input.span_start) as int));
        }
        parse_sp_entries(body, None, None)
    } else {
        Err(
            hard_fail(
                input,
                k_w,
                k_w,
                IpldSchemaParseError::InvalidStringPairs,
                Some("a stringpairs representation takes a block of delimiters"),
            ),
        )
    }
}

/// Spec of a map or struct representation clause: `representation` followed
/// by `map`, `listpairs`, `tuple` (structs only), a stringpairs block, or
/// `advanced <Name>`. Any other token is a hard failure at the token.
#[verifier::opaque]
pub open spec fn sp_composite_repr(s: Seq<char>, allow_tuple: bool) -> Progress<
    StructReprModel,
> {
    match sp_repr_intro(s) {
        None => Progress::Miss,
        Some(q) => {
            let t = s.skip(q as int);
            if begins_with(t, "map"@) {
                Progress::Match { len: q + "map"@.len(), value: StructReprModel::Mapping }
            } else if begins_with(t, "listpairs"@) {
                Progress::Match { len: q + "listpairs"@.len(), value: StructReprModel::ListPairs }
            } else if allow_tuple && begins_with(t, "tuple"@) {
                Progress::Match { len: q + "tuple"@.len(), value: StructReprModel::Tuple }
            } else if begins_with(t, "stringpairs"@) {
                match sp_stringpairs(t) {
                    Progress::Match { len: n, value: p } => Progress::Match {
                        len: q + n,
                        value: StructReprModel::StringPairs(p.0, p.1),
                    },
                    Progress::Reject { at, err } => Progress::Reject { at: (q + at) as nat, err },
                    Progress::Miss => Progress::Reject {
                        at: q,
                        err: IpldSchemaParseError::InvalidStringPairs,
                    },
                }
            } else if begins_with(t, "advanced"@) {
                let p = q + "advanced"@.len();
                let h = count_while(s.skip(p as int), |c: char| is_hspace(c));
                if h == 0 {
                    Progress::Reject { at: q, err: IpldSchemaParseError::InvalidRepresentation }
                } else {
                    match sp_name(s.skip((p + h) as int), true) {
                        Progress::Match { len: n, value: v } => Progress::Match {
                            len: p + h + n,
                            value: StructReprModel::Advanced(v),
                        },
                        _ => Progress::Reject {
                            at: p + h,
                            err: IpldSchemaParseError::InvalidTypeName,
                        },
                    }
                }
            } else {
                Progress::Reject { at: q, err: IpldSchemaParseError::InvalidRepresentation }
            }
        },
    }
}

/// Parse a map or struct representation clause; `allow_tuple` admits the
/// struct-only `tuple` kind.
pub fn parse_composite_representation<'a>(input: InStr<'a>, allow_tuple: bool) -> (r: ParseResult<
    'a,
    StructRepresentation,
    IpldSchemaParseError,
>)
    requires
        input.wf(),
    ensures
        obeys_progress(
            input,
            r,
            sp_composite_repr(input.text(), allow_tuple),
            |x: StructRepresentation| x.model(),
        ),
{
    proof {
        reveal(sp_composite_repr);
    }
    let cur = match parse_repr_intro(&input) {
        Some(c) => c,
        None => {
            return Err(soft_fail(input, IpldSchemaParseError::InvalidRepresentation));
        },
    };
    proof {
        lemma_repr_intro_len(input.text());
        assert(cur.text() =~= input.text().skip((cur.span_start - input.span_start) as int));
    }
    let at = cur.span_start - input.span_start;
    if let Some(rest) = strip_tag(&cur, "map") {
        return Ok((rest, StructRepresentation::Mapping));
    }
    if let Some(rest) = strip_tag(&cur, "listpairs") {
        return Ok((rest, StructRepresentation::ListPairs));
    }
    if allow_tuple {
        if let Some(rest) = strip_tag(&cur, "tuple") {
            return Ok((rest, StructRepresentation::Tuple));
        }
    }
    if starts_with(&cur, "stringpairs") {
        return match parse_string_pairs(cur) {
            Ok((rest, p)) => Ok(
                (
                    rest,
                    StructRepresentation::StringPairs(
                        StringPairs { inner_delim: p.0, entry_delim: p.1 },
                    ),
                ),
            ),
            Err(ParseErr::Hard(d)) => Err(ParseErr::Hard(d)),
            Err(ParseErr::Soft(_)) => Err(
                hard_fail(
                    input,
                    at,
                    at,
                    IpldSchemaParseError::InvalidStringPairs,
                    Some("a stringpairs representation takes a block of delimiters"),
                ),
            ),
        };
    }
    if let Some(after_adv) = strip_tag(&cur, "advanced") {
        proof {
            assert(after_adv.text() =~= input.text().skip(
                (after_adv.span_start - input.span_start) as int,
            ));
        }
        let h = scan(&after_adv, CharClass::Hspace);
        if h == 0 {
            let run = scan(&cur, CharClass::NameChar);
            return Err(
                hard_fail(
                    input,
                    at,
                    at + run,
                    IpldSchemaParseError::InvalidRepresentation,
                    Some("valid representations are map, listpairs, stringpairs, and advanced"),
                ),
            );
        }
        let name_cur = after_adv.skip_chars(h);
        proof {
            assert(name_cur.text() =~= input.text().skip(
                (name_cur.span_start - input.span_start) as int,
            ));
        }
        return match parse_type_name(name_cur) {
            Ok((rest, name)) => Ok((rest, StructRepresentation::Advanced(name))),
            Err(_) => {
                let name_at = name_cur.span_start - input.span_start;
                let run = scan(&name_cur, CharClass::NameChar);
                Err(
                    hard_fail(
                        input,
                        name_at,
                        name_at + run,
                        IpldSchemaParseError::InvalidTypeName,
                        Some("an advanced representation names a type"),
                    ),
                )
            },
        };
    }
    let run = scan(&cur, CharClass::NameChar);
    Err(
        hard_fail(
            input,
            at,
            at + run,
            IpldSchemaParseError::InvalidRepresentation,
            Some("valid representations are map, listpairs, stringpairs, and advanced"),
        ),
    )
}

/// A matched unit representation clause stays inside its text.
pub proof fn lemma_unit_repr_le(s: Seq<char>)
    ensures
        sp_unit_repr(s) matches Progress::Match { len, .. } ==> 0 < len <= s.len(),
{
    reveal(sp_unit_repr);
    lemma_repr_intro_len(s);
}

/// A matched bytes representation clause stays inside its text.
pub proof fn lemma_bytes_repr_le(s: Seq<char>)
    ensures
        sp_bytes_repr(s) matches Progress::Match { len, .. } ==> 0 < len <= s.len(),
{
    reveal(sp_bytes_repr);
    lemma_repr_intro_len(s);
    match sp_repr_intro(s) {
        Some(q) => {
            let t = s.skip(q as int);
            if begins_with(t, "advanced"@) {
                let p = q + "advanced"@.len();
                lemma_count_while(s.skip(p as int), |c: char| is_hspace(c));
                let h = count_while(s.skip(p as int), |c: char| is_hspace(c));
                if h != 0 {
                    lemma_name_len(s.skip((p + h) as int), true);
                }
            }
        },
        None => {},
    }
}

/// A matched enum representation clause stays inside its text.
pub proof fn lemma_enum_repr_le(s: Seq<char>)
    ensures
        sp_enum_repr(s) matches Progress::Match { len, .. } ==> 0 < len <= s.len(),
{
    reveal(sp_enum_repr);
    lemma_repr_intro_len(s);
}

/// A matched stringpairs interior stays inside its text.
pub proof fn lemma_sp_entries_le(
    s: Seq<char>,
    inner: Option<Seq<char>>,
    entry: Option<Seq<char>>,
)
    ensures
        sp_sp_entries(s, inner, entry) matches Progress::Match { len, .. } ==> 0 < len <= s.len(),
    decreases s.len(),
{
    reveal_with_fuel(sp_sp_entries, 1);
    let w = count_while(s, |c: char| is_wspace(c));
    lemma_count_while(s, |c: char| is_wspace(c));
    if !(w < s.len() && s[w as int] == '}') {
        match sp_name(s.skip(w as int), false) {
            Progress::Match { len: n, value: key } => {
                if n > 0 && w + n <= s.len() {
                    let h = count_while(s.skip((w + n) as int), |c: char| is_hspace(c));
                    match sp_quoted(s.skip((w + n + h) as int)) {
                        Progress::Match { len: m, value: val } => {
                            if m > 0 && w + n + h + m <= s.len() {
                                if key == "innerDelim"@ {
                                    if !(inner is Some) {
                                        lemma_sp_entries_le(
                                            s.skip((w + n + h + m) as int),
                                            Some(val),
                                            entry,
                                        );
                                    }
                                } else if key == "entryDelim"@ {
                                    if !(entry is Some) {
                                        lemma_sp_entries_le(
                                            s.skip((w + n + h + m) as int),
                                            inner,
                                            Some(val),
                                        );
                                    }
                                }
                            }
                        },
                        _ => {},
                    }
                }
            },
            _ => {},
        }
    }
}

/// A matched stringpairs block stays inside its text.
pub proof fn lemma_stringpairs_le(s: Seq<char>)
    ensures
        sp_stringpairs(s) matches Progress::Match { len, .. } ==> 0 < len <= s.len(),
{
    reveal(sp_stringpairs);
    if begins_with(s, "stringpairs"@) {
        let k = "stringpairs"@.len();
        lemma_count_while(s.skip(k as int), |c: char| is_wspace(c));
        let w = count_while(s.skip(k as int), |c: char| is_wspace(c));
        if k + w < s.len() && s[(k + w) as int] == '{' {
            lemma_sp_entries_le(s.skip((k + w + 1) as int), None, None);
        }
    }
}

/// A matched map or struct representation clause stays inside its text.
pub proof fn lemma_composite_repr_le(s: Seq<char>, allow_tuple: bool)
    ensures
        sp_composite_repr(s, allow_tuple) matches Progress::Match { len, .. } ==> 0 < len
            <= s.len(),
{
    reveal(sp_composite_repr);
    lemma_repr_intro_len(s);
    match sp_repr_intro(s) {
        Some(q) => {
            let t = s.skip(q as int);
            if begins_with(t, "map"@) || begins_with(t, "listpairs"@) || (allow_tuple
                && begins_with(t, "tuple"@)) {
            } else if begins_with(t, "stringpairs"@) {
                lemma_stringpairs_le(t);
            } else if begins_with(t, "advanced"@) {
                let p = q + "advanced"@.len();
                lemma_count_while(s.skip(p as int), |c: char| is_hspace(c));
                let h = count_while(s.skip(p as int), |c: char| is_hspace(c));
                if h != 0 {
                    lemma_name_len(s.skip((p + h) as int), true);
                }
            }
        },
        None => {},
    }
}

} // verus!
