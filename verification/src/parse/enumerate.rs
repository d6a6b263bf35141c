//! The enum grammar: members with optional doc comments and tags, an
//! optional representation clause, and the cross-field check that every
//! member's tag kind agrees with the declared representation kind.

use vstd::prelude::*;

use crate::diagnostic::InStr;
use crate::diagnostic::ParseErr;
use crate::diagnostic::ParseResult;
use crate::enumerate::EnumRepresentation;
use crate::enumerate::EnumType;
use crate::error::IpldSchemaParseError;
use crate::model::DocModel;
use crate::model::EnumModel;
use crate::model::EnumReprModel;
use crate::model::TagModel;
use crate::parse::begins_with;
use crate::parse::comment::parse_comment_block;
use crate::parse::comment::sp_comment_block;
use crate::parse::count_while;
use crate::parse::hard_fail;
use crate::parse::is_hspace;
use crate::parse::is_wspace;
use crate::parse::obeys_progress;
use crate::parse::opt_str_view;
use crate::parse::parse_int_lit;
use crate::parse::parse_name;
use crate::parse::representation::parse_enum_representation;
use crate::parse::representation::sp_enum_repr;
use crate::parse::scan;
use crate::parse::soft_fail;
use crate::parse::sp_int_lit;
use crate::parse::sp_name;
use crate::parse::strip_tag;
use crate::parse::CharClass;
use crate::parse::Progress;
use crate::Doc;
use crate::IpldType;

verus! {

/// An enum member tag as written in the source.
#[derive(Debug, Clone, PartialEq, Eq)]
pub enum EnumMemberTag {
    Int(i128),
    String(String),
}

impl EnumMemberTag {
    /// Mathematical model of this tag.
    pub open spec fn model(self) -> TagModel {
        match self {
            EnumMemberTag::Int(i) => TagModel::IntTag(i as int),
            EnumMemberTag::String(s) => TagModel::StrTag(s@),
        }
    }
}

/// One parsed enum member, before the representation cross-check.
#[derive(Debug, Clone, PartialEq, Eq)]
pub struct EnumMemberRaw {
    /// Doc comment attached to the member.
    pub doc: Option<String>,
    /// The member name.
    pub name: String,
    /// The member tag; defaults to the name as a string tag.
    pub tag: EnumMemberTag,
    /// Offset of the member name within the member-list region.
    pub at: usize,
}

/// Spec-level record of one parsed enum member.
pub struct MemberRec {
    pub doc: Option<Seq<char>>,
    pub name: Seq<char>,
    pub tag: TagModel,
    pub at: nat,
}

impl EnumMemberRaw {
    /// Mathematical model of this member.
    pub open spec fn model(self) -> MemberRec {
        MemberRec {
            doc: opt_str_view(self.doc),
            name: self.name@,
            tag: self.tag.model(),
            at: self.at as nat,
        }
    }
}

/// Spec of an enum member tag: at least one space, `(`, `"`, a member name
/// or an integer literal, `"`, `)`, with optional spaces between the
/// delimiters.
#[verifier::opaque]
pub open spec fn sp_member_tag(s: Seq<char>) -> Progress<TagModel> {
    let h = count_while(s, |c: char| is_hspace(c));
    if h >= 1 && h < s.len() && s[h as int] == '(' {
        let w1 = count_while(s.skip(h + 1 as int), |c: char| is_hspace(c));
        let qp = h + 1 + w1;
        if qp < s.len() && s[qp as int] == '"' {
            let w2 = count_while(s.skip(qp + 1 as int), |c: char| is_hspace(c));
            let ip = qp + 1 + w2;
            let inner: Progress<TagModel> = match sp_name(s.skip(ip as int), false) {
                Progress::Match { len: n, value: v } => Progress::Match {
                    len: n,
                    value: TagModel::StrTag(v),
                },
                _ => match sp_int_lit(s.skip(ip as int)) {
                    Progress::Match { len: n, value: v } => Progress::Match {
                        len: n,
                        value: TagModel::IntTag(v),
                    },
                    _ => Progress::Miss,
                },
            };
            match inner {
                Progress::Match { len: n, value: tag } => {
                    let ep = ip + n;
                    let w3 = count_while(s.skip(ep as int), |c: char| is_hspace(c));
                    let cp = ep + w3;
                    if cp < s.len() && s[cp as int] == '"' {
                        let w4 = count_while(s.skip(cp + 1 as int), |c: char| is_hspace(c));
                        let pp = cp + 1 + w4;
                        if pp < s.len() && s[pp as int] == ')' {
                            Progress::Match { len: (pp + 1) as nat, value: tag }
                        } else {
                            Progress::Miss
                        }
                    } else {
                        Progress::Miss
                    }
                },
                _ => Progress::Miss,
            }
        } else {
            Progress::Miss
        }
    } else {
        Progress::Miss
    }
}

/// Parse an enum member tag.
#[verifier::rlimit(100)]
#[verifier::spinoff_prover]
pub fn parse_enum_member_tag<'a>(input: InStr<'a>) -> (r: ParseResult<
    'a,
    EnumMemberTag,
    IpldSchemaParseError,
>)
    requires
        input.wf(),
    ensures
        obeys_progress(input, r, sp_member_tag(input.text()), |t: EnumMemberTag| t.model()),
{
    proof {
        reveal(sp_member_tag);
    }
    let h = scan(&input, CharClass::Hspace);
    if h == 0 || h == input.len() || input.char_at(h) != '(' {
        return Err(soft_fail(input, IpldSchemaParseError::Unknown));
    }
    let after_paren = input.skip_chars(h + 1);
    proof {
        assert(after_paren.text() =~= input.text().skip((h + 1) as int));
    }
    let w1 = scan(&after_paren, CharClass::Hspace);
    if w1 == after_paren.len() || after_paren.char_at(w1) != '"' {
        return Err(soft_fail(input, IpldSchemaParseError::Unknown));
    }
    let after_quote = after_paren.skip_chars(w1 + 1);
    proof {
        assert(after_quote.text() =~= input.text().skip(
            (after_quote.span_start - input.span_start) as int,
        ));
    }
    let w2 = scan(&after_quote, CharClass::Hspace);
    let inner_cur = after_quote.skip_chars(w2);
    proof {
        assert(inner_cur.text() =~= input.text().skip(
            (inner_cur.span_start - input.span_start) as int,
        ));
    }
    let (after_inner, tag) = match parse_name(inner_cur, false) {
        Ok((c, v)) => (c, EnumMemberTag::String(v)),
        Err(_) => match parse_int_lit(inner_cur) {
            Ok((c, v)) => (c, EnumMemberTag::Int(v)),
            Err(_) => {
                return Err(soft_fail(input, IpldSchemaParseError::Unknown));
            },
        },
    };
    proof {
        assert(after_inner.text() =~= input.text().skip(
            (after_inner.span_start - input.span_start) as int,
        ));
    }
    let w3 = scan(&after_inner, CharClass::Hspace);
    if w3 == after_inner.len() || after_inner.char_at(w3) != '"' {
        return Err(soft_fail(input, IpldSchemaParseError::Unknown));
    }
    let after_close = after_inner.skip_chars(w3 + 1);
    proof {
        assert(after_close.text() =~= input.text().skip(
            (after_close.span_start - input.span_start) as int,
        ));
    }
    let w4 = scan(&after_close, CharClass::Hspace);
    if w4 == after_close.len() || after_close.char_at(w4) != ')' {
        return Err(soft_fail(input, IpldSchemaParseError::Unknown));
    }
    Ok((after_close.skip_chars(w4 + 1), tag))
}

/// Spec of one enum member: an optional doc comment, whitespace, `|`, at
/// least one space, the member name, an optional tag (defaulting to the name
/// as a string tag), and at least one whitespace character.
#[verifier::opaque]
pub open spec fn sp_enum_member(s: Seq<char>) -> Progress<MemberRec> {
    let w0 = count_while(s, |c: char| is_wspace(c));
    let cl: nat = match sp_comment_block(s.skip(w0 as int)) {
        Progress::Match { len: n, .. } => n,
        _ => 0,
    };
    let doc: Option<Seq<char>> = match sp_comment_block(s.skip(w0 as int)) {
        Progress::Match { value: v, .. } => Some(v),
        _ => None,
    };
    let w = count_while(s.skip((w0 + cl) as int), |c: char| is_wspace(c));
    let p = w0 + cl + w;
    if p < s.len() && s[p as int] == '|' {
        let h = count_while(s.skip(p + 1 as int), |c: char| is_hspace(c));
        if h == 0 {
            Progress::Miss
        } else {
            let np = p + 1 + h;
            match sp_name(s.skip(np as int), false) {
                Progress::Match { len: n, value: name } => {
                    let tp = np + n;
                    let tl: nat = match sp_member_tag(s.skip(tp as int)) {
                        Progress::Match { len: t, .. } => t,
                        _ => 0,
                    };
                    let tag: TagModel = match sp_member_tag(s.skip(tp as int)) {
                        Progress::Match { value: t, .. } => t,
                        _ => TagModel::StrTag(name),
                    };
                    let ep = tp + tl;
                    let m = count_while(s.skip(ep as int), |c: char| is_wspace(c));
                    if m == 0 {
                        Progress::Miss
                    } else {
                        Progress::Match {
                            len: (ep + m) as nat,
                            value: MemberRec { doc, name, tag, at: np as nat },
                        }
                    }
                },
                _ => Progress::Miss,
            }
        }
    } else {
        Progress::Miss
    }
}

/// Parse one enum member; `offset` is where the given cursor stands within
/// the member-list region, so that the recorded member position is relative
/// to that region.
#[verifier::rlimit(100)]
#[verifier::spinoff_prover]
pub fn parse_enum_member<'a>(input: InStr<'a>, offset: usize) -> (r: ParseResult<
    'a,
    EnumMemberRaw,
    IpldSchemaParseError,
>)
    requires
        input.wf(),
        offset + input.text().len() <= usize::MAX,
    ensures
        obeys_progress(
            input,
            r,
            sp_enum_member(input.text()),
            |m: EnumMemberRaw| MemberRec { at: (m.at - offset) as nat, ..m.model() },
        ),
        r matches Ok((_, m)) ==> offset <= m.at,
{
    proof {
        reveal(sp_enum_member);
    }
    let w0 = scan(&input, CharClass::Wspace);
    let doc_cur = input.skip_chars(w0);
    proof {
        assert(doc_cur.text() =~= input.text().skip(w0 as int));
    }
    let (after_doc, doc) = match parse_comment_block(doc_cur) {
        Ok((c, d)) => (c, Some(d)),
        Err(_) => (doc_cur, None),
    };
    proof {
        assert(after_doc.text() =~= input.text().skip(
            (after_doc.span_start - input.span_start) as int,
        ));
    }
    let w = scan(&after_doc, CharClass::Wspace);
    let p_rel = after_doc.span_start - input.span_start + w;
    if p_rel == input.len() || input.char_at(p_rel) != '|' {
        return Err(soft_fail(input, IpldSchemaParseError::Unknown));
    }
    let after_bar = input.skip_chars(p_rel + 1);
    proof {
        assert(after_bar.text() =~= input.text().skip((p_rel + 1) as int));
    }
    let h = scan(&after_bar, CharClass::Hspace);
    if h == 0 {
        return Err(soft_fail(input, IpldSchemaParseError::Unknown));
    }
    let name_cur = after_bar.skip_chars(h);
    proof {
        assert(name_cur.text() =~= input.text().skip(
            (name_cur.span_start - input.span_start) as int,
        ));
    }
    let np = name_cur.span_start - input.span_start;
    let (after_name, name) = match parse_name(name_cur, false) {
        Ok(ok) => ok,
        Err(_) => {
            return Err(soft_fail(input, IpldSchemaParseError::Unknown));
        },
    };
    proof {
        assert(after_name.text() =~= input.text().skip(
            (after_name.span_start - input.span_start) as int,
        ));
    }
    let (after_tag, tag) = match parse_enum_member_tag(after_name) {
        Ok((c, t)) => (c, t),
        Err(_) => (after_name, EnumMemberTag::String(name.clone())),
    };
    proof {
        assert(after_tag.text() =~= input.text().skip(
            (after_tag.span_start - input.span_start) as int,
        ));
    }
    let m = scan(&after_tag, CharClass::Wspace);
    if m == 0 {
        return Err(soft_fail(input, IpldSchemaParseError::Unknown));
    }
    let rest = after_tag.skip_chars(m);
    Ok((rest, EnumMemberRaw { doc, name, tag, at: offset + np }))
}

/// Shift every member position by `k` characters of enclosing context.
pub open spec fn shift_members(ms: Seq<MemberRec>, k: nat) -> Seq<MemberRec> {
    ms.map_values(|m: MemberRec| MemberRec { at: (m.at + k) as nat, ..m })
}

/// Spec of the member list: members parsed one after another until no more
/// match. Returns the characters consumed and the member records, with
/// positions relative to the start of the given text.
pub open spec fn sp_enum_members(s: Seq<char>) -> (nat, Seq<MemberRec>)
    decreases s.len(),
{
    match sp_enum_member(s) {
        Progress::Match { len: n, value: m } => {
            if 0 < n <= s.len() {
                let (n2, rest) = sp_enum_members(s.skip(n as int));
                ((n + n2) as nat, seq![m] + shift_members(rest, n))
            } else {
                (0, Seq::empty())
            }
        },
        _ => (0, Seq::empty()),
    }
}

/// The models of the collected members.
pub open spec fn member_models(v: Seq<EnumMemberRaw>) -> Seq<MemberRec> {
    v.map_values(|m: EnumMemberRaw| m.model())
}

/// Parse the member list onto `acc`; `offset` is where the given cursor
/// stands within the member-list region.
#[verifier::rlimit(100)]
#[verifier::spinoff_prover]
fn parse_enum_members<'a>(input: InStr<'a>, offset: usize, acc: Vec<EnumMemberRaw>) -> (r: (
    InStr<'a>,
    Vec<EnumMemberRaw>,
))
    requires
        input.wf(),
        offset + input.text().len() <= usize::MAX,
    ensures
        ({
            let (n2, ms) = sp_enum_members(input.text());
            &&& r.0.wf() && input.same_source(r.0) && r.0.file == input.file
            &&& r.0.span_end == input.span_end
            &&& r.0.span_start == input.span_start + n2
            &&& member_models(r.1@) == member_models(acc@) + shift_members(ms, offset as nat)
        }),
    decreases input.text().len(),
{
    match parse_enum_member(input, offset) {
        Err(_) => {
            proof {
                assert(member_models(acc@) + shift_members(
                    sp_enum_members(input.text()).1,
                    offset as nat,
                ) =~= member_models(acc@));
            }
            (input, acc)
        },
        Ok((cur, member)) => {
            let ghost n = (cur.span_start - input.span_start) as nat;
            let ghost m0 = MemberRec { at: (member.at - offset) as nat, ..member.model() };
            proof {
                lemma_enum_member_le(input.text());
                assert(cur.text() =~= input.text().skip(n as int));
            }
            let delta = cur.span_start - input.span_start;
            let mut acc2 = acc;
            acc2.push(member);
            let r = parse_enum_members(cur, offset + delta, acc2);
            proof {
                let (n2r, restm) = sp_enum_members(cur.text());
                let (nt, ms) = sp_enum_members(input.text());
                assert(ms == seq![m0] + shift_members(restm, n));
                assert(member_models(acc2@) =~= member_models(acc@).push(member.model()));
                assert(shift_members(ms, offset as nat) =~= seq![member.model()]
                    + shift_members(restm, (offset + n) as nat));
                assert(member_models(acc2@) + shift_members(restm, (offset + n) as nat)
                    =~= member_models(acc@) + shift_members(ms, offset as nat));
            }
            r
        },
    }
}

/// A matched member's name lies inside the text it was parsed from.
pub proof fn lemma_member_at(s: Seq<char>)
    ensures
        sp_enum_member(s) matches Progress::Match { value: m, .. } ==> m.at + m.name.len()
            <= s.len(),
{
    reveal(sp_enum_member);
    if sp_enum_member(s) matches Progress::Match { value: m, .. } {
        let w0 = count_while(s, |c: char| is_wspace(c));
        let cl: nat = match sp_comment_block(s.skip(w0 as int)) {
            Progress::Match { len: n, .. } => n,
            _ => 0,
        };
        let w = count_while(s.skip((w0 + cl) as int), |c: char| is_wspace(c));
        let p = w0 + cl + w;
        let h = count_while(s.skip(p + 1 as int), |c: char| is_hspace(c));
        let np = p + 1 + h;
        crate::parse::lemma_name_len(s.skip(np as int), false);
        crate::parse::lemma_count_while(s.skip(p + 1 as int), |c: char| is_hspace(c));
    }
}

/// Every member of the member list, with its name, lies inside the text.
pub proof fn lemma_members_at(s: Seq<char>)
    ensures
        forall|i: int|
            0 <= i < sp_enum_members(s).1.len() ==> (#[trigger] sp_enum_members(s).1[i]).at
                + sp_enum_members(s).1[i].name.len() <= s.len(),
    decreases s.len(),
{
    let (nt, ms) = sp_enum_members(s);
    match sp_enum_member(s) {
        Progress::Match { len: n, value: m } => {
            if 0 < n <= s.len() {
                lemma_member_at(s);
                lemma_members_at(s.skip(n as int));
                let (n2, rest) = sp_enum_members(s.skip(n as int));
                assert forall|i: int| 0 <= i < ms.len() implies (#[trigger] ms[i]).at
                    + ms[i].name.len() <= s.len() by {
                    if i > 0 {
                        assert(ms[i] == shift_members(rest, n)[i - 1]);
                        assert(shift_members(rest, n)[i - 1] == MemberRec {
                            at: (rest[i - 1].at + n) as nat,
                            ..rest[i - 1]
                        });
                    }
                }
            }
        },
        _ => {},
    }
}

/// Whether a member's tag kind contradicts the declared representation kind.
pub open spec fn tag_mismatch(m: MemberRec, int_repr: bool) -> bool {
    if int_repr {
        m.tag is StrTag
    } else {
        m.tag is IntTag
    }
}

/// Index of the first member whose tag contradicts the declared
/// representation kind, or the length if none does.
pub open spec fn first_mismatch(ms: Seq<MemberRec>, int_repr: bool) -> int
    decreases ms.len(),
{
    if ms.len() == 0 {
        0
    } else if tag_mismatch(ms[0], int_repr) {
        0
    } else {
        1 + first_mismatch(ms.skip(1), int_repr)
    }
}

/// What `first_mismatch` finds: the first offending index, or the length.
pub proof fn lemma_first_mismatch(ms: Seq<MemberRec>, int_repr: bool)
    ensures
        0 <= first_mismatch(ms, int_repr) <= ms.len(),
        forall|i: int| 0 <= i < first_mismatch(ms, int_repr) ==> !tag_mismatch(ms[i], int_repr),
        first_mismatch(ms, int_repr) < ms.len() ==> tag_mismatch(
            ms[first_mismatch(ms, int_repr)],
            int_repr,
        ),
    decreases ms.len(),
{
    if ms.len() > 0 && !tag_mismatch(ms[0], int_repr) {
        lemma_first_mismatch(ms.skip(1), int_repr);
        let f = first_mismatch(ms, int_repr);
        assert forall|i: int| 0 <= i < f implies !tag_mismatch(ms[i], int_repr) by {
            if i > 0 {
                assert(ms.skip(1)[i - 1] == ms[i]);
            }
        }
        if f < ms.len() {
            assert(ms.skip(1)[f - 1] == ms[f]);
        }
    }
}

/// Find the first member whose tag contradicts the representation kind, from
/// index `i` on.
fn find_mismatch(v: &Vec<EnumMemberRaw>, int_repr: bool, i: usize) -> (j: usize)
    requires
        i <= v@.len(),
    ensures
        j == i + first_mismatch(member_models(v@).skip(i as int), int_repr),
        j <= v@.len(),
    decreases v@.len() - i,
{
    proof {
        assert(member_models(v@).len() == v@.len());
    }
    if i == v.len() {
        return i;
    }
    proof {
        assert(member_models(v@).skip(i as int)[0] == member_models(v@)[i as int]);
    }
    let bad = match &v[i].tag {
        EnumMemberTag::Int(_) => !int_repr,
        EnumMemberTag::String(_) => int_repr,
    };
    if bad {
        return i;
    }
    let j = find_mismatch(v, int_repr, i + 1);
    proof {
        assert(member_models(v@).skip(i as int).skip(1) =~= member_models(v@).skip(i + 1));
    }
    j
}

/// The string tag of a member: its own tag if that is a string, else its
/// name.
pub open spec fn str_tag_of(m: MemberRec) -> Seq<char> {
    match m.tag {
        TagModel::StrTag(s) => s,
        TagModel::IntTag(_) => m.name,
    }
}

/// The integer tag of a member, or zero if its tag is a string.
pub open spec fn int_tag_of(m: MemberRec) -> int {
    match m.tag {
        TagModel::IntTag(i) => i,
        TagModel::StrTag(_) => 0,
    }
}

/// The documented member names of a member list.
pub open spec fn members_of(ms: Seq<MemberRec>) -> Seq<DocModel<Seq<char>>> {
    ms.map_values(|m: MemberRec| DocModel { doc: m.doc, ty: m.name })
}

/// Collect the documented member names, from index `i` on, onto `acc`.
fn collect_members(v: &Vec<EnumMemberRaw>, i: usize, acc: Vec<Doc<String>>) -> (r: Vec<
    Doc<String>,
>)
    requires
        i <= v@.len(),
    ensures
        r@.map_values(|d: Doc<String>| DocModel { doc: d.doc_view(), ty: d.ty@ }) == acc@
            .map_values(|d: Doc<String>| DocModel { doc: d.doc_view(), ty: d.ty@ }) + members_of(
            member_models(v@).skip(i as int),
        ),
    decreases v@.len() - i,
{
    let ghost f = |d: Doc<String>| DocModel { doc: d.doc_view(), ty: d.ty@ };
    proof {
        assert(member_models(v@).len() == v@.len());
    }
    if i == v.len() {
        proof {
            assert(acc@.map_values(f) + members_of(member_models(v@).skip(i as int)) =~= acc@
                .map_values(f));
        }
        return acc;
    }
    let m = &v[i];
    let doc = match &m.doc {
        Some(d) => Some(d.clone()),
        None => None,
    };
    let mut acc2 = acc;
    acc2.push(Doc { doc, ty: m.name.clone() });
    proof {
        assert(member_models(v@).skip(i as int)[0] == member_models(v@)[i as int]);
        assert(acc2@.map_values(f) =~= acc@.map_values(f).push(f(acc2@.last())));
        assert(member_models(v@).skip(i as int).skip(1) =~= member_models(v@).skip(i + 1));
        assert(members_of(member_models(v@).skip(i as int)) =~= seq![
            DocModel { doc: member_models(v@)[i as int].doc, ty: member_models(v@)[i as int].name },
        ] + members_of(member_models(v@).skip(i + 1)));
    }
    let r = collect_members(v, i + 1, acc2);
    proof {
        assert(r@.map_values(f) =~= acc@.map_values(f) + members_of(
            member_models(v@).skip(i as int),
        ));
    }
    r
}

/// Collect the string tags, from index `i` on, onto `acc`.
fn collect_str_tags(v: &Vec<EnumMemberRaw>, i: usize, acc: Vec<String>) -> (r: Vec<String>)
    requires
        i <= v@.len(),
    ensures
        r@.map_values(|t: String| t@) == acc@.map_values(|t: String| t@) + member_models(v@).skip(
            i as int,
        ).map_values(|m: MemberRec| str_tag_of(m)),
    decreases v@.len() - i,
{
    let ghost f = |t: String| t@;
    let ghost g = |m: MemberRec| str_tag_of(m);
    proof {
        assert(member_models(v@).len() == v@.len());
    }
    if i == v.len() {
        proof {
            assert(acc@.map_values(f) + member_models(v@).skip(i as int).map_values(g) =~= acc@
                .map_values(f));
        }
        return acc;
    }
    let m = &v[i];
    let tag = match &m.tag {
        EnumMemberTag::String(s) => s.clone(),
        EnumMemberTag::Int(_) => m.name.clone(),
    };
    let mut acc2 = acc;
    acc2.push(tag);
    proof {
        assert(member_models(v@).skip(i as int)[0] == member_models(v@)[i as int]);
        assert(acc2@.map_values(f) =~= acc@.map_values(f).push(f(acc2@.last())));
        assert(member_models(v@).skip(i as int).skip(1) =~= member_models(v@).skip(i + 1));
        assert(member_models(v@).skip(i as int).map_values(g) =~= seq![
            g(member_models(v@)[i as int]),
        ] + member_models(v@).skip(i + 1).map_values(g));
    }
    let r = collect_str_tags(v, i + 1, acc2);
    proof {
        assert(r@.map_values(f) =~= acc@.map_values(f) + member_models(v@).skip(
            i as int,
        ).map_values(g));
    }
    r
}

/// Collect the integer tags, from index `i` on, onto `acc`.
fn collect_int_tags(v: &Vec<EnumMemberRaw>, i: usize, acc: Vec<i128>) -> (r: Vec<i128>)
    requires
        i <= v@.len(),
    ensures
        r@.map_values(|t: i128| t as int) == acc@.map_values(|t: i128| t as int) + member_models(
            v@,
        ).skip(i as int).map_values(|m: MemberRec| int_tag_of(m)),
    decreases v@.len() - i,
{
    let ghost f = |t: i128| t as int;
    let ghost g = |m: MemberRec| int_tag_of(m);
    proof {
        assert(member_models(v@).len() == v@.len());
    }
    if i == v.len() {
        proof {
            assert(acc@.map_values(f) + member_models(v@).skip(i as int).map_values(g) =~= acc@
                .map_values(f));
        }
        return acc;
    }
    let m = &v[i];
    let tag: i128 = match &m.tag {
        EnumMemberTag::Int(x) => *x,
        EnumMemberTag::String(_) => 0,
    };
    let mut acc2 = acc;
    acc2.push(tag);
    proof {
        assert(member_models(v@).skip(i as int)[0] == member_models(v@)[i as int]);
        assert(acc2@.map_values(f) =~= acc@.map_values(f).push(f(acc2@.last())));
        assert(member_models(v@).skip(i as int).skip(1) =~= member_models(v@).skip(i + 1));
        assert(member_models(v@).skip(i as int).map_values(g) =~= seq![
            g(member_models(v@)[i as int]),
        ] + member_models(v@).skip(i + 1).map_values(g));
    }
    let r = collect_int_tags(v, i + 1, acc2);
    proof {
        assert(r@.map_values(f) =~= acc@.map_values(f) + member_models(v@).skip(
            i as int,
        ).map_values(g));
    }
    r
}

/// Spec of the enum cross-check and assembly: with the member list and the
/// chosen representation kind, either the first member whose tag kind
/// disagrees (a hard failure pinned at that member), or the assembled model.
pub open spec fn sp_enum_checked(
    ms: Seq<MemberRec>,
    int_repr: bool,
    base: nat,
    end: nat,
) -> Progress<EnumModel> {
    let f = first_mismatch(ms, int_repr);
    if f < ms.len() {
        Progress::Reject {
            at: (base + ms[f].at) as nat,
            err: IpldSchemaParseError::InvalidEnumMemberTag,
        }
    } else {
        Progress::Match {
            len: end,
            value: EnumModel {
                members: members_of(ms),
                representation: if int_repr {
                    EnumReprModel::IntRepr(ms.map_values(|m: MemberRec| int_tag_of(m)))
                } else {
                    EnumReprModel::Str(ms.map_values(|m: MemberRec| str_tag_of(m)))
                },
            },
        }
    }
}

/// Law: enum representation consistency. An enum assembles successfully
/// exactly when every member's tag kind agrees with the declared
/// representation kind: with the integer kind every tag is an integer
/// literal, with the string kind every tag is a string, and the tag list is
/// index-aligned with the member list. A member list that mixes tag kinds
/// under one representation is a hard semantic failure pinned at the first
/// offending member.
pub proof fn lemma_enum_consistency(ms: Seq<MemberRec>, int_repr: bool, base: nat, end: nat)
    ensures
        sp_enum_checked(ms, int_repr, base, end) matches Progress::Match { value: em, .. } ==> {
            &&& (em.representation is IntRepr <==> int_repr)
            &&& (int_repr ==> forall|i: int| 0 <= i < ms.len() ==> (#[trigger] ms[i]).tag is IntTag)
            &&& (!int_repr ==> forall|i: int| 0 <= i < ms.len() ==> (#[trigger] ms[i]).tag is StrTag)
            &&& em.members.len() == ms.len()
            &&& (em.representation matches EnumReprModel::IntRepr(tags) ==> tags.len()
                == em.members.len())
            &&& (em.representation matches EnumReprModel::Str(tags) ==> tags.len()
                == em.members.len())
        },
        (exists|i: int| 0 <= i < ms.len() && tag_mismatch(#[trigger] ms[i], int_repr)) ==> {
            let f = first_mismatch(ms, int_repr);
            &&& sp_enum_checked(ms, int_repr, base, end) matches Progress::Reject { at, err }
                && at == base + ms[f].at && err == IpldSchemaParseError::InvalidEnumMemberTag
            &&& 0 <= f < ms.len() && tag_mismatch(ms[f], int_repr)
            &&& forall|k: int| 0 <= k < f ==> !tag_mismatch(#[trigger] ms[k], int_repr)
        },
{
    lemma_first_mismatch(ms, int_repr);
    let f = first_mismatch(ms, int_repr);
    if f >= ms.len() {
        assert forall|i: int| 0 <= i < ms.len() implies !tag_mismatch(#[trigger] ms[i], int_repr) by {}
    }
}

/// Spec of an enum definition: `enum {`, one or more members, `}`, an
/// optional representation clause (defaulting to string), then the
/// cross-check that every member's tag kind agrees with the declared kind.
#[verifier::opaque]
pub open spec fn sp_enum(s: Seq<char>) -> Progress<EnumModel> {
    if begins_with(s, "enum"@) {
        let k = "enum"@.len();
        let w0 = count_while(s.skip(k as int), |c: char| is_hspace(c));
        let p = k + w0;
        if p < s.len() && s[p as int] == '{' {
            let (ml, ms) = sp_enum_members(s.skip(p + 1 as int));
            let q = p + 1 + ml;
            if q < s.len() && s[q as int] == '}' {
                if ms.len() == 0 {
                    Progress::Miss
                } else {
                    match sp_enum_repr(s.skip(q + 1 as int)) {
                        Progress::Match { len: rl, value: int_repr } => sp_enum_checked(
                            ms,
                            int_repr,
                            (p + 1) as nat,
                            (q + 1 + rl) as nat,
                        ),
                        Progress::Miss => sp_enum_checked(ms, false, (p + 1) as nat, (q + 1) as nat),
                        Progress::Reject { at, err } => Progress::Reject {
                            at: (q + 1 + at) as nat,
                            err,
                        },
                    }
                }
            } else {
                Progress::Miss
            }
        } else {
            Progress::Miss
        }
    } else {
        Progress::Miss
    }
}

/// Run the representation cross-check over the parsed members and assemble
/// the enum type. `body` stands at the start of the member-list region and
/// `after_repr` just past the whole enum definition.
#[verifier::rlimit(100)]
#[verifier::spinoff_prover]
fn finish_enum<'a>(
    input: InStr<'a>,
    body: InStr<'a>,
    after_repr: InStr<'a>,
    members: Vec<EnumMemberRaw>,
    int_repr: bool,
) -> (r: ParseResult<'a, IpldType, IpldSchemaParseError>)
    requires
        input.wf(),
        body.wf(),
        after_repr.wf(),
        input.same_source(body),
        input.same_source(after_repr),
        body.file == input.file,
        after_repr.file == input.file,
        body.span_end == input.span_end,
        after_repr.span_end == input.span_end,
        input.span_start <= body.span_start,
        input.span_start <= after_repr.span_start,
        member_models(members@) == sp_enum_members(body.text()).1,
    ensures
        obeys_progress(
            input,
            r,
            crate::parse::map_progress(
                sp_enum_checked(
                    sp_enum_members(body.text()).1,
                    int_repr,
                    (body.span_start - input.span_start) as nat,
                    (after_repr.span_start - input.span_start) as nat,
                ),
                |e: EnumModel| crate::model::TypeModel::Enum(e),
            ),
            |t: IpldType| t.model(),
        ),
        r matches Ok((_, t)) ==> (t matches IpldType::Enum(e) && e.wf()),
        r matches Err(ParseErr::Hard(d)) ==> ((d.errors@[0].inner
            == IpldSchemaParseError::InvalidEnumMemberTag) ==> (d.errors@[0].hint matches Some(h)
            && h@ == "tag kind does not match declared representation"@)),
{
    let ghost ms = sp_enum_members(body.text()).1;
    let base = body.span_start - input.span_start;
    proof {
        lemma_first_mismatch(ms, int_repr);
        assert(member_models(members@).skip(0) =~= member_models(members@));
    }
    let f = find_mismatch(&members, int_repr, 0);
    if f < members.len() {
        proof {
            assert(ms[f as int] == member_models(members@)[f as int]);
            lemma_members_at(body.text());
            assert(ms[f as int].at + ms[f as int].name.len() <= body.text().len());
        }
        let at = base + members[f].at;
        let name_len = members[f].name.as_str().unicode_len();
        return Err(
            hard_fail(
                input,
                at,
                at + name_len,
                IpldSchemaParseError::InvalidEnumMemberTag,
                Some("tag kind does not match declared representation"),
            ),
        );
    }
    let out_members = collect_members(&members, 0, Vec::new());
    let representation = if int_repr {
        EnumRepresentation::Int(collect_int_tags(&members, 0, Vec::new()))
    } else {
        EnumRepresentation::String(collect_str_tags(&members, 0, Vec::new()))
    };
    proof {
        assert(member_models(members@).skip(0) =~= member_models(members@));
        assert(Seq::<DocModel<Seq<char>>>::empty() + members_of(member_models(members@))
            =~= members_of(member_models(members@)));
        assert(Seq::<Seq<char>>::empty() + member_models(members@).map_values(
            |m: MemberRec| str_tag_of(m),
        ) =~= member_models(members@).map_values(|m: MemberRec| str_tag_of(m)));
        assert(Seq::<int>::empty() + member_models(members@).map_values(
            |m: MemberRec| int_tag_of(m),
        ) =~= member_models(members@).map_values(|m: MemberRec| int_tag_of(m)));
    }
    Ok((after_repr, IpldType::Enum(EnumType { members: out_members, representation })))
}

/// Parse an enum definition, including the representation cross-check.
#[verifier::rlimit(100)]
#[verifier::spinoff_prover]
pub fn parse_enum<'a>(input: InStr<'a>) -> (r: ParseResult<'a, IpldType, IpldSchemaParseError>)
    requires
        input.wf(),
    ensures
        obeys_progress(
            input,
            r,
            crate::parse::map_progress(
                sp_enum(input.text()),
                |e: EnumModel| crate::model::TypeModel::Enum(e),
            ),
            |t: IpldType| t.model(),
        ),
        r matches Ok((_, t)) ==> (t matches IpldType::Enum(e) && e.wf()),
        r matches Err(ParseErr::Hard(d)) ==> ((d.errors@[0].inner
            == IpldSchemaParseError::InvalidEnumMemberTag) ==> (d.errors@[0].hint matches Some(h)
            && h@ == "tag kind does not match declared representation"@)),
{
    proof {
        reveal(sp_enum);
    }
    let cur = match strip_tag(&input, "enum") {
        Some(c) => c,
        None => {
            return Err(soft_fail(input, IpldSchemaParseError::Unknown));
        },
    };
    proof {
        assert(cur.text() =~= input.text().skip("enum"@.len() as int));
    }
    let w0 = scan(&cur, CharClass::Hspace);
    if w0 == cur.len() || cur.char_at(w0) != '{' {
        return Err(soft_fail(input, IpldSchemaParseError::Unknown));
    }
    let body = cur.skip_chars(w0 + 1);
    let base = body.span_start - input.span_start;
    proof {
        assert(body.text() =~= input.text().skip(base as int));
    }
    let (after_members, members) = parse_enum_members(body, 0, Vec::new());
    proof {
        assert(member_models(members@) =~= shift_members(sp_enum_members(body.text()).1, 0));
        assert(member_models(members@) =~= sp_enum_members(body.text()).1);
    }
    if after_members.is_empty() || after_members.char_at(0) != '}' {
        return Err(soft_fail(input, IpldSchemaParseError::Unknown));
    }
    proof {
        assert(after_members.text()[0] == input.text()[(after_members.span_start
            - input.span_start) as int]);
    }
    let after_close = after_members.skip_chars(1);
    proof {
        assert(after_close.text() =~= input.text().skip(
            (after_close.span_start - input.span_start) as int,
        ));
    }
    if members.len() == 0 {
        return Err(soft_fail(input, IpldSchemaParseError::Unknown));
    }
    let (after_repr, int_repr) = match parse_enum_representation(after_close) {
        Ok((c, b)) => (c, b),
        Err(ParseErr::Soft(_)) => (after_close, false),
        Err(ParseErr::Hard(d)) => {
            return Err(ParseErr::Hard(d));
        },
    };
    finish_enum(input, body, after_repr, members, int_repr)
}

/// A matched member tag stays inside its text.
pub proof fn lemma_member_tag_le(s: Seq<char>)
    ensures
        sp_member_tag(s) matches Progress::Match { len, .. } ==> 0 < len <= s.len(),
{
    reveal(sp_member_tag);
}

/// A matched enum member stays inside its text.
pub proof fn lemma_enum_member_le(s: Seq<char>)
    ensures
        sp_enum_member(s) matches Progress::Match { len, .. } ==> 0 < len <= s.len(),
{
    reveal(sp_enum_member);
    if sp_enum_member(s) matches Progress::Match { .. } {
        let w0 = count_while(s, |c: char| is_wspace(c));
        let cl: nat = match sp_comment_block(s.skip(w0 as int)) {
            Progress::Match { len: n, .. } => n,
            _ => 0,
        };
        crate::parse::lemma_count_while(s, |c: char| is_wspace(c));
        crate::parse::comment::lemma_comment_block_len(s.skip(w0 as int));
        let w = count_while(s.skip((w0 + cl) as int), |c: char| is_wspace(c));
        crate::parse::lemma_count_while(s.skip((w0 + cl) as int), |c: char| is_wspace(c));
        let p = w0 + cl + w;
        if p < s.len() && s[p as int] == '|' {
            let h = count_while(s.skip(p + 1 as int), |c: char| is_hspace(c));
            crate::parse::lemma_count_while(s.skip(p + 1 as int), |c: char| is_hspace(c));
            if h != 0 {
                let np = p + 1 + h;
                crate::parse::lemma_name_len(s.skip(np as int), false);
                match sp_name(s.skip(np as int), false) {
                    Progress::Match { len: n, .. } => {
                        let tp = np + n;
                        lemma_member_tag_le(s.skip(tp as int));
                        let tl: nat = match sp_member_tag(s.skip(tp as int)) {
                            Progress::Match { len: tn, .. } => tn,
                            _ => 0,
                        };
                        let ep = tp + tl;
                        crate::parse::lemma_count_while(s.skip(ep as int), |c: char| is_wspace(c));
                    },
                    _ => {},
                }
            }
        }
    }
}

/// The member list stays inside its text.
pub proof fn lemma_enum_members_le(s: Seq<char>)
    ensures
        sp_enum_members(s).0 <= s.len(),
    decreases s.len(),
{
    match sp_enum_member(s) {
        Progress::Match { len: n, .. } => {
            if 0 < n && n <= s.len() {
                lemma_enum_members_le(s.skip(n as int));
            }
        },
        _ => {},
    }
}

/// A matched enum definition stays inside its text.
pub proof fn lemma_enum_le(s: Seq<char>)
    ensures
        sp_enum(s) matches Progress::Match { len, .. } ==> 0 < len <= s.len(),
{
    reveal(sp_enum);
    if begins_with(s, "enum"@) {
        let k = "enum"@.len();
        crate::parse::lemma_count_while(s.skip(k as int), |c: char| is_hspace(c));
        let w0 = count_while(s.skip(k as int), |c: char| is_hspace(c));
        let p = k + w0;
        if p < s.len() && s[p as int] == '{' {
            lemma_enum_members_le(s.skip(p + 1 as int));
            let (ml, ms) = sp_enum_members(s.skip(p + 1 as int));
            let q = p + 1 + ml;
            if q < s.len() && s[q as int] == '}' && ms.len() != 0 {
                crate::parse::representation::lemma_enum_repr_le(s.skip(q + 1 as int));
            }
        }
    }
}

} // verus!
