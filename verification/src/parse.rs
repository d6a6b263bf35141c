//! Grammar infrastructure: spec-level parse outcomes, character classes,
//! scanning, and the shared token parsers.
//!
//! Every executable parser of the grammar has a spec-level counterpart, a
//! function from the viewed input text to a [`Progress`] value. The glue
//! predicate [`obeys_progress`] states that the executable parser returns
//! exactly what its spec counterpart says: success with the modeled value and
//! the advanced cursor, a soft (backtrackable) failure, or a hard failure
//! that aborts sibling alternatives.

use vstd::prelude::*;

pub mod comment;
pub mod composite;
pub mod enumerate;
pub mod primitives;
pub mod structural;
pub mod representation;

use crate::diagnostic::ErrorDiagnose;
use crate::diagnostic::InStr;
use crate::diagnostic::ParseErr;
use crate::diagnostic::ParseResult;
use crate::diagnostic::Span;
use crate::error::IpldSchemaParseError;

verus! {

/// Spec-level outcome of running one grammar rule on a text.
///
/// `Match` carries how many characters the rule consumed and the modeled
/// value. `Miss` is a soft failure: sibling alternatives may still match.
/// `Reject` is a hard failure at character offset `at` (relative to the start
/// of the given text) carrying the error kind; it aborts the alternatives.
pub enum Progress<T> {
    Match { len: nat, value: T },
    Miss,
    Reject { at: nat, err: IpldSchemaParseError },
}

/// All spans of the diagnostic point into the same source as `input`.
pub open spec fn diag_tied<'a>(
    d: ErrorDiagnose<'a, IpldSchemaParseError>,
    input: InStr<'a>,
) -> bool {
    forall|i: int|
        0 <= i < d.errors@.len() ==> (#[trigger] d.errors@[i]).src@ == input.src@
            && d.errors@[i].file == input.file
}

/// The executable result `r` is exactly what the spec outcome `p` says,
/// where `m` maps the executable value to its model.
pub open spec fn obeys_progress<'a, T, M>(
    input: InStr<'a>,
    r: ParseResult<'a, T, IpldSchemaParseError>,
    p: Progress<M>,
    m: spec_fn(T) -> M,
) -> bool {
    match r {
        Ok((rest, v)) => {
            &&& p matches Progress::Match { len, value } && m(v) == value && rest.span_start
                == input.span_start + len
            &&& rest.wf()
            &&& input.same_source(rest)
            &&& rest.file == input.file
            &&& rest.span_end == input.span_end
        },
        Err(ParseErr::Soft(d)) => {
            &&& p is Miss
            &&& d.wf()
            &&& diag_tied(d, input)
        },
        Err(ParseErr::Hard(d)) => {
            &&& p matches Progress::Reject { at, err } && d.errors@[0].inner == err
                && d.errors@[0].start == input.span_start + at
            &&& d.wf()
            &&& diag_tied(d, input)
        },
    }
}

/// Build a soft failure labeling the whole remaining view of `input`.
pub fn soft_fail<'a>(
    input: InStr<'a>,
    err: IpldSchemaParseError,
) -> (r: ParseErr<'a, IpldSchemaParseError>)
    requires
        input.wf(),
    ensures
        r matches ParseErr::Soft(d) && d.wf() && diag_tied(d, input),
{
    ParseErr::Soft(
        ErrorDiagnose::from_span(
            Span {
                src: input.src,
                file: input.file,
                start: input.span_start,
                end: input.span_end,
                inner: err,
                hint: None,
            },
        ),
    )
}

/// Build a hard failure labeling characters `at .. to` of the view of
/// `input`, with an optional hint.
pub fn hard_fail<'a>(
    input: InStr<'a>,
    at: usize,
    to: usize,
    err: IpldSchemaParseError,
    hint: Option<&'a str>,
) -> (r: ParseErr<'a, IpldSchemaParseError>)
    requires
        input.wf(),
        at <= to <= input.text().len(),
    ensures
        r matches ParseErr::Hard(d) && d.wf() && diag_tied(d, input) && d.errors@.len() == 1
            && d.errors@[0].inner == err && d.errors@[0].start == input.span_start + at
            && d.errors@[0].end == input.span_start + to && d.errors@[0].hint == hint,
{
    ParseErr::Hard(
        ErrorDiagnose::from_span(
            Span {
                src: input.src,
                file: input.file,
                start: input.span_start + at,
                end: input.span_start + to,
                inner: err,
                hint,
            },
        ),
    )
}

/// Horizontal whitespace: space or tab.
pub open spec fn is_hspace(c: char) -> bool {
    c == ' ' || c == '\t'
}

/// Any whitespace, including line breaks.
pub open spec fn is_wspace(c: char) -> bool {
    is_hspace(c) || c == '\n' || c == '\r'
}

/// ASCII uppercase letter.
pub open spec fn is_upper(c: char) -> bool {
    65 <= (c as u32) && (c as u32) <= 90
}

/// ASCII letter.
pub open spec fn is_alpha(c: char) -> bool {
    is_upper(c) || (97 <= (c as u32) && (c as u32) <= 122)
}

/// ASCII digit.
pub open spec fn is_digit(c: char) -> bool {
    48 <= (c as u32) && (c as u32) <= 57
}

/// The numeric value of an ASCII digit.
pub open spec fn digit_val(c: char) -> int {
    (c as u32) - 48
}

/// ASCII letter or digit.
pub open spec fn is_alnum(c: char) -> bool {
    is_alpha(c) || is_digit(c)
}

/// A character allowed in the body of a name: alphanumeric or underscore.
pub open spec fn is_name_char(c: char) -> bool {
    is_alnum(c) || c == '_'
}

/// A character that does not end a line.
pub open spec fn is_line_char(c: char) -> bool {
    c != '\n'
}

/// A character that does not end a quoted string.
pub open spec fn is_not_quote(c: char) -> bool {
    c != '"'
}

/// Names one of the character classes above, so one scanner serves them all.
#[derive(Debug, Clone, Copy, PartialEq, Eq, Structural)]
pub enum CharClass {
    Hspace,
    Wspace,
    NameChar,
    LineChar,
    Digit,
    NotQuote,
}

/// The predicate that a [`CharClass`] stands for.
pub open spec fn class_pred(class: CharClass) -> spec_fn(char) -> bool {
    match class {
        CharClass::Hspace => |c: char| is_hspace(c),
        CharClass::Wspace => |c: char| is_wspace(c),
        CharClass::NameChar => |c: char| is_name_char(c),
        CharClass::LineChar => |c: char| is_line_char(c),
        CharClass::Digit => |c: char| is_digit(c),
        CharClass::NotQuote => |c: char| is_not_quote(c),
    }
}

/// Whether `c` belongs to the class.
pub fn class_test(class: CharClass, c: char) -> (b: bool)
    ensures
        b == class_pred(class)(c),
{
    match class {
        CharClass::Hspace => c == ' ' || c == '\t',
        CharClass::Wspace => c == ' ' || c == '\t' || c == '\n' || c == '\r',
        CharClass::NameChar => {
            let u = c as u32;
            (65 <= u && u <= 90) || (97 <= u && u <= 122) || (48 <= u && u <= 57) || c == '_'
        },
        CharClass::LineChar => c != '\n',
        CharClass::Digit => {
            let u = c as u32;
            48 <= u && u <= 57
        },
        CharClass::NotQuote => c != '"',
    }
}

/// Length of the longest prefix of `s` whose characters all satisfy `p`.
pub open spec fn count_while(s: Seq<char>, p: spec_fn(char) -> bool) -> nat
    decreases s.len(),
{
    if s.len() == 0 {
        0
    } else if !p(s[0]) {
        0
    } else {
        1 + count_while(s.skip(1), p)
    }
}

/// Length of the longest suffix of `s` whose characters all satisfy `p`.
pub open spec fn rcount_while(s: Seq<char>, p: spec_fn(char) -> bool) -> nat
    decreases s.len(),
{
    if s.len() == 0 {
        0
    } else if !p(s.last()) {
        0
    } else {
        1 + rcount_while(s.drop_last(), p)
    }
}

/// What `count_while` counts: the first index whose character falls outside
/// the class, or the whole length.
pub proof fn lemma_count_while(s: Seq<char>, p: spec_fn(char) -> bool)
    ensures
        count_while(s, p) <= s.len(),
        forall|i: int| 0 <= i < count_while(s, p) ==> p(s[i]),
        count_while(s, p) < s.len() ==> !p(s[count_while(s, p) as int]),
    decreases s.len(),
{
    if s.len() > 0 && p(s[0]) {
        lemma_count_while(s.skip(1), p);
        assert forall|i: int| 0 <= i < count_while(s, p) implies p(s[i]) by {
            if i > 0 {
                assert(s.skip(1)[i - 1] == s[i]);
            }
        }
        if count_while(s, p) < s.len() {
            assert(s.skip(1)[count_while(s, p) - 1] == s[count_while(s, p) as int]);
        }
    }
}

/// Mirror of [`lemma_count_while`] for the suffix count.
pub proof fn lemma_rcount_while(s: Seq<char>, p: spec_fn(char) -> bool)
    ensures
        rcount_while(s, p) <= s.len(),
        forall|i: int| s.len() - rcount_while(s, p) <= i < s.len() ==> p(s[i]),
        rcount_while(s, p) < s.len() ==> !p(s[s.len() - rcount_while(s, p) - 1]),
    decreases s.len(),
{
    if s.len() > 0 && p(s.last()) {
        lemma_rcount_while(s.drop_last(), p);
        assert forall|i: int| s.len() - rcount_while(s, p) <= i < s.len() implies p(s[i]) by {
            if i < s.len() - 1 {
                assert(s.drop_last()[i] == s[i]);
            }
        }
        if rcount_while(s, p) < s.len() {
            assert(s.drop_last()[s.len() - rcount_while(s, p) - 1] == s[s.len() - rcount_while(
                s,
                p,
            ) - 1]);
        }
    }
}

/// Count the characters of `input`'s view from offset `i` on that belong to
/// `class`, stopping at the first that does not.
pub fn scan_from(input: &InStr<'_>, class: CharClass, i: usize) -> (n: usize)
    requires
        input.wf(),
        i <= input.text().len(),
    ensures
        n == count_while(input.text().skip(i as int), class_pred(class)),
        i + n <= input.text().len(),
    decreases input.text().len() - i,
{
    proof {
        lemma_count_while(input.text().skip(i as int), class_pred(class));
    }
    if i == input.len() {
        return 0;
    }
    let c = input.char_at(i);
    proof {
        assert(input.text().skip(i as int)[0] == input.text()[i as int]);
    }
    if !class_test(class, c) {
        return 0;
    }
    let rest = scan_from(input, class, i + 1);
    proof {
        assert(input.text().skip(i as int).skip(1) =~= input.text().skip(i + 1));
    }
    1 + rest
}

/// Count the leading characters of `input`'s view that belong to `class`.
pub fn scan(input: &InStr<'_>, class: CharClass) -> (n: usize)
    requires
        input.wf(),
    ensures
        n == count_while(input.text(), class_pred(class)),
        n <= input.text().len(),
{
    let n = scan_from(input, class, 0);
    proof {
        assert(input.text().skip(0) =~= input.text());
    }
    n
}

/// Count the trailing characters of `input`'s view that belong to `class`.
pub fn rscan(input: InStr<'_>, class: CharClass) -> (n: usize)
    requires
        input.wf(),
    ensures
        n == rcount_while(input.text(), class_pred(class)),
        n <= input.text().len(),
    decreases input.text().len(),
{
    proof {
        lemma_rcount_while(input.text(), class_pred(class));
    }
    let len = input.len();
    if len == 0 {
        return 0;
    }
    let c = input.char_at(len - 1);
    proof {
        assert(input.text().last() == input.text()[len - 1]);
    }
    if !class_test(class, c) {
        return 0;
    }
    let (_, shrunk) = input.take_split(len - 1);
    proof {
        assert(shrunk.text() =~= input.text().drop_last());
    }
    let rest = rscan(shrunk, class);
    1 + rest
}

/// `t` is a prefix of `s`.
pub open spec fn begins_with(s: Seq<char>, t: Seq<char>) -> bool {
    t.len() <= s.len() && forall|i: int| 0 <= i < t.len() ==> s[i] == t[i]
}

/// Whether the view of `input` starts with the literal `tag`.
pub fn starts_with(input: &InStr<'_>, tag: &str) -> (b: bool)
    requires
        input.wf(),
    ensures
        b == begins_with(input.text(), tag@),
{
    let n = tag.unicode_len();
    if n > input.len() {
        return false;
    }
    let mut i: usize = 0;
    while i < n
        invariant
            input.wf(),
            i <= n,
            n == tag@.len(),
            n <= input.text().len(),
            forall|j: int| 0 <= j < i ==> input.text()[j] == tag@[j],
        decreases n - i,
    {
        if input.char_at(i) != tag.get_char(i) {
            return false;
        }
        i += 1;
    }
    true
}

/// If the view of `input` starts with the literal `tag`, consume it.
pub fn strip_tag<'a>(input: &InStr<'a>, tag: &str) -> (r: Option<InStr<'a>>)
    requires
        input.wf(),
    ensures
        match r {
            Some(rest) => {
                &&& begins_with(input.text(), tag@)
                &&& rest.wf() && input.same_source(rest) && rest.file == input.file
                &&& rest.span_start == input.span_start + tag@.len()
                &&& rest.span_end == input.span_end
                &&& rest.text() == input.text().skip(tag@.len() as int)
            },
            None => !begins_with(input.text(), tag@),
        },
{
    if starts_with(input, tag) {
        let n = tag.unicode_len();
        Some(input.skip_chars(n))
    } else {
        None
    }
}

/// The narrowed view `input[from .. to]`.
pub fn window<'a>(input: &InStr<'a>, from: usize, to: usize) -> (r: InStr<'a>)
    requires
        input.wf(),
        from <= to <= input.text().len(),
    ensures
        r.wf(),
        input.same_source(r),
        r.file == input.file,
        r.span_start == input.span_start + from,
        r.span_end == input.span_start + to,
        r.text() == input.text().subrange(from as int, to as int),
{
    let r = InStr {
        src: input.src,
        file: input.file,
        span_start: input.span_start + from,
        span_end: input.span_start + to,
    };
    proof {
        assert(r.text() =~= input.text().subrange(from as int, to as int));
    }
    r
}

/// `s` with leading and trailing horizontal whitespace removed.
pub open spec fn trimmed(s: Seq<char>) -> Seq<char> {
    let lead = count_while(s, |c: char| is_hspace(c));
    let trail = rcount_while(s, |c: char| is_hspace(c));
    if lead == s.len() {
        Seq::empty()
    } else {
        s.subrange(lead as int, s.len() - trail)
    }
}

/// The leading and trailing whitespace runs of a not-all-whitespace text do
/// not overlap.
pub proof fn lemma_trim_bounds(s: Seq<char>)
    ensures
        count_while(s, |c: char| is_hspace(c)) < s.len() ==> count_while(
            s,
            |c: char| is_hspace(c),
        ) + rcount_while(s, |c: char| is_hspace(c)) < s.len(),
{
    let p = |c: char| is_hspace(c);
    lemma_count_while(s, p);
    lemma_rcount_while(s, p);
    let lead = count_while(s, p);
    let trail = rcount_while(s, p);
    if lead < s.len() && lead + trail >= s.len() {
        assert(s.len() - trail <= lead < s.len());
        assert(p(s[lead as int]));
        assert(false);
    }
}

/// The characters `from .. to` of `input`'s view, trimmed of horizontal
/// whitespace on both sides, as an owned string.
pub fn take_trimmed(input: &InStr<'_>, from: usize, to: usize) -> (s: String)
    requires
        input.wf(),
        from <= to <= input.text().len(),
    ensures
        s@ == trimmed(input.text().subrange(from as int, to as int)),
{
    let win = window(input, from, to);
    let lead = scan(&win, CharClass::Hspace);
    if lead == win.len() {
        String::new()
    } else {
        let trail = rscan(win, CharClass::Hspace);
        proof {
            lemma_trim_bounds(win.text());
        }
        let inner_win = window(&win, lead, win.len() - trail);
        inner_win.inner().to_owned()
    }
}

/// Spec of name parsing: the first character must be uppercase (for type
/// names) or any letter (for enum member names); the value is the maximal
/// run of alphanumeric-or-underscore characters. A bad leading character is
/// a soft failure that consumes nothing.
pub open spec fn sp_name(s: Seq<char>, upper_only: bool) -> Progress<Seq<char>> {
    if s.len() > 0 && (if upper_only {
        is_upper(s[0])
    } else {
        is_alpha(s[0])
    }) {
        let n = count_while(s, |c: char| is_name_char(c));
        Progress::Match { len: n, value: s.subrange(0, n as int) }
    } else {
        Progress::Miss
    }
}

/// Parse a name: `upper_only` asks for a type name (`[A-Z][A-Za-z0-9_]*`),
/// otherwise any letter may lead (enum member names).
pub fn parse_name<'a>(input: InStr<'a>, upper_only: bool) -> (r: ParseResult<
    'a,
    String,
    IpldSchemaParseError,
>)
    requires
        input.wf(),
    ensures
        obeys_progress(input, r, sp_name(input.text(), upper_only), |s: String| s@),
{
    if input.is_empty() {
        return Err(soft_fail(input, IpldSchemaParseError::InvalidTypeName));
    }
    let u = input.char_at(0) as u32;
    let lead_ok = if upper_only {
        65 <= u && u <= 90
    } else {
        (65 <= u && u <= 90) || (97 <= u && u <= 122)
    };
    if !lead_ok {
        return Err(soft_fail(input, IpldSchemaParseError::InvalidTypeName));
    }
    let n = scan(&input, CharClass::NameChar);
    let (rest, name_win) = input.take_split(n);
    Ok((rest, name_win.inner().to_owned()))
}

/// Parse a type name: `[A-Z][A-Za-z0-9_]*`.
pub fn parse_type_name<'a>(input: InStr<'a>) -> (r: ParseResult<
    'a,
    String,
    IpldSchemaParseError,
>)
    requires
        input.wf(),
    ensures
        obeys_progress(input, r, sp_name(input.text(), true), |s: String| s@),
{
    parse_name(input, true)
}

/// A matched name consumes at least one and at most all characters.
pub proof fn lemma_name_len(s: Seq<char>, upper_only: bool)
    ensures
        sp_name(s, upper_only) matches Progress::Match { len, .. } ==> 0 < len <= s.len(),
{
    if s.len() > 0 {
        lemma_count_while(s, |c: char| is_name_char(c));
    }
}

/// Whether the string equals the literal, character for character.
pub fn string_eq_lit(s: &String, lit: &str) -> (b: bool)
    ensures
        b == (s@ == lit@),
{
    let n = s.as_str().unicode_len();
    if n != lit.unicode_len() {
        return false;
    }
    let mut i: usize = 0;
    while i < n
        invariant
            n == s@.len(),
            n == lit@.len(),
            i <= n,
            forall|j: int| 0 <= j < i ==> s@[j] == lit@[j],
        decreases n - i,
    {
        if s.as_str().get_char(i) != lit.get_char(i) {
            return false;
        }
        i += 1;
    }
    proof {
        assert(s@ =~= lit@);
    }
    true
}

/// Whether two strings hold the same characters.
pub fn str_eq(a: &str, b: &str) -> (r: bool)
    ensures
        r == (a@ == b@),
{
    let n = a.unicode_len();
    if n != b.unicode_len() {
        return false;
    }
    let mut i: usize = 0;
    while i < n
        invariant
            n == a@.len(),
            n == b@.len(),
            i <= n,
            forall|j: int| 0 <= j < i ==> a@[j] == b@[j],
        decreases n - i,
    {
        if a.get_char(i) != b.get_char(i) {
            return false;
        }
        i += 1;
    }
    proof {
        assert(a@ =~= b@);
    }
    true
}

/// The view of an optional string.
pub open spec fn opt_str_view(o: Option<String>) -> Option<Seq<char>> {
    match o {
        Some(s) => Some(s@),
        None => None,
    }
}

/// Spec of a quoted string: `"` then any characters other than `"`, then the
/// closing `"`. The value is the content between the quotes.
pub open spec fn sp_quoted(s: Seq<char>) -> Progress<Seq<char>> {
    if s.len() > 0 && s[0] == '"' {
        let n = count_while(s.skip(1), |c: char| is_not_quote(c));
        if 1 + n < s.len() {
            Progress::Match { len: n + 2, value: s.subrange(1, 1 + n as int) }
        } else {
            Progress::Miss
        }
    } else {
        Progress::Miss
    }
}

/// Parse a quoted string and return its content.
pub fn parse_quoted<'a>(input: InStr<'a>) -> (r: ParseResult<'a, String, IpldSchemaParseError>)
    requires
        input.wf(),
    ensures
        obeys_progress(input, r, sp_quoted(input.text()), |s: String| s@),
{
    if input.is_empty() || input.char_at(0) != '"' {
        return Err(soft_fail(input, IpldSchemaParseError::Unknown));
    }
    let n = scan_from(&input, CharClass::NotQuote, 1);
    proof {
        assert(input.text().skip(1) =~= input.text().skip(1int));
    }
    if 1 + n == input.len() {
        return Err(soft_fail(input, IpldSchemaParseError::Unknown));
    }
    let content = window(&input, 1, 1 + n);
    let rest = input.skip_chars(n + 2);
    Ok((rest, content.inner().to_owned()))
}

/// A matched quoted string consumes at least two and at most all
/// characters.
pub proof fn lemma_quoted_len(s: Seq<char>)
    ensures
        sp_quoted(s) matches Progress::Match { len, .. } ==> 2 <= len <= s.len(),
{
    if s.len() > 0 && s[0] == '"' {
        lemma_count_while(s.skip(1), |c: char| is_not_quote(c));
    }
}

/// Apply `f` to the value of a successful spec outcome.
pub open spec fn map_progress<A, B>(p: Progress<A>, f: spec_fn(A) -> B) -> Progress<B> {
    match p {
        Progress::Match { len, value } => Progress::Match { len, value: f(value) },
        Progress::Miss => Progress::Miss,
        Progress::Reject { at, err } => Progress::Reject { at, err },
    }
}

/// Shift a spec outcome by `k` consumed characters of enclosing context.
pub open spec fn shift_progress<T>(p: Progress<T>, k: nat) -> Progress<T> {
    match p {
        Progress::Match { len, value } => Progress::Match { len: (len + k) as nat, value },
        Progress::Miss => Progress::Miss,
        Progress::Reject { at, err } => Progress::Reject { at: (at + k) as nat, err },
    }
}

/// Numeric value of a digit string, most significant digit first.
pub open spec fn digits_val(s: Seq<char>) -> int
    decreases s.len(),
{
    if s.len() == 0 {
        0
    } else {
        digits_val(s.drop_last()) * 10 + digit_val(s.last())
    }
}

/// A digit string's value is nonnegative.
pub proof fn lemma_digits_val_nonneg(s: Seq<char>)
    requires
        forall|i: int| 0 <= i < s.len() ==> is_digit(#[trigger] s[i]),
    ensures
        digits_val(s) >= 0,
    decreases s.len(),
{
    if s.len() > 0 {
        assert(forall|i: int|
            0 <= i < s.drop_last().len() ==> is_digit(#[trigger] s.drop_last()[i]));
        lemma_digits_val_nonneg(s.drop_last());
    }
}

/// Extending a digit string can only grow its value.
pub proof fn lemma_digits_prefix_le(s: Seq<char>, i: int)
    requires
        0 <= i <= s.len(),
        forall|j: int| 0 <= j < s.len() ==> is_digit(#[trigger] s[j]),
    ensures
        digits_val(s.subrange(0, i)) <= digits_val(s),
    decreases s.len() - i,
{
    if i < s.len() {
        let shorter = s.subrange(0, i);
        let longer = s.subrange(0, i + 1);
        assert(longer.drop_last() =~= shorter);
        assert(forall|j: int| 0 <= j < shorter.len() ==> is_digit(#[trigger] shorter[j]));
        lemma_digits_val_nonneg(shorter);
        assert(digits_val(longer) == digits_val(shorter) * 10 + digit_val(longer.last()));
        assert(digits_val(shorter) * 10 >= digits_val(shorter));
        lemma_digits_prefix_le(s, i + 1);
    } else {
        assert(s.subrange(0, i) =~= s);
    }
}

/// A matched integer literal consumes at most all characters.
pub proof fn lemma_int_lit_le(s: Seq<char>)
    ensures
        sp_int_lit(s) matches Progress::Match { len, .. } ==> 0 < len <= s.len(),
{
    let off: nat = if s.len() > 0 && (s[0] == '-' || s[0] == '+') {
        1
    } else {
        0
    };
    lemma_count_while(s.skip(off as int), |c: char| is_digit(c));
}

/// Spec of a signed integer literal: an optional sign, one or more digits,
/// and a value that fits a 128-bit signed integer; anything else is a soft
/// failure.
pub open spec fn sp_int_lit(s: Seq<char>) -> Progress<int> {
    let negative = s.len() > 0 && s[0] == '-';
    let off: nat = if s.len() > 0 && (s[0] == '-' || s[0] == '+') {
        1
    } else {
        0
    };
    let d = count_while(s.skip(off as int), |c: char| is_digit(c));
    if d == 0 {
        Progress::Miss
    } else {
        let magnitude = digits_val(s.subrange(off as int, (off + d) as int));
        let v = if negative {
            -magnitude
        } else {
            magnitude
        };
        if -0x8000_0000_0000_0000_0000_0000_0000_0000int <= v
            <= 0x7fff_ffff_ffff_ffff_ffff_ffff_ffff_ffffint {
            Progress::Match { len: off + d, value: v }
        } else {
            Progress::Miss
        }
    }
}

/// Parse a signed integer literal that fits a 128-bit signed integer.
pub fn parse_int_lit<'a>(input: InStr<'a>) -> (r: ParseResult<'a, i128, IpldSchemaParseError>)
    requires
        input.wf(),
    ensures
        obeys_progress(input, r, sp_int_lit(input.text()), |v: i128| v as int),
{
    let empty = input.is_empty();
    let negative = !empty && input.char_at(0) == '-';
    let off: usize = if !empty && (input.char_at(0) == '-' || input.char_at(0) == '+') {
        1
    } else {
        0
    };
    let d = scan_from(&input, CharClass::Digit, off);
    if d == 0 {
        return Err(soft_fail(input, IpldSchemaParseError::Unknown));
    }
    let win = window(&input, off, off + d);
    proof {
        lemma_count_while(input.text().skip(off as int), class_pred(CharClass::Digit));
        assert forall|j: int| 0 <= j < win.text().len() implies is_digit(#[trigger] win.text()[j]) by {
            assert(win.text()[j] == input.text().skip(off as int)[j]);
        }
    }
    let ghost full = win.text();
    let ghost magnitude = digits_val(full);
    let mut mag: u128 = 0;
    let mut i: usize = 0;
    proof {
        assert(full.subrange(0, 0) =~= Seq::<char>::empty());
    }
    while i < d
        invariant
            input.wf(),
            win.wf(),
            full == win.text(),
            magnitude == digits_val(full),
            d == full.len(),
            off + d <= input.text().len(),
            full == input.text().subrange(off as int, (off + d) as int),
            d == count_while(input.text().skip(off as int), class_pred(CharClass::Digit)),
            d >= 1,
            negative == (input.text().len() > 0 && input.text()[0] == '-'),
            off == (if input.text().len() > 0 && (input.text()[0] == '-' || input.text()[0]
                == '+') {
                1nat
            } else {
                0nat
            }),
            forall|j: int| 0 <= j < full.len() ==> is_digit(#[trigger] full[j]),
            i <= d,
            mag == digits_val(full.subrange(0, i as int)),
            mag <= 0x8000_0000_0000_0000_0000_0000_0000_0000u128,
        decreases d - i,
    {
        let c = win.char_at(i);
        let dv = ((c as u32) - 48) as u128;
        let ghost prefix = full.subrange(0, i as int);
        let ghost longer = full.subrange(0, i + 1);
        proof {
            assert(longer.drop_last() =~= prefix);
            assert(digits_val(longer) == digits_val(prefix) * 10 + digit_val(full[i as int]));
        }
        let over = if mag > 0x8000_0000_0000_0000_0000_0000_0000_0000u128 / 10 {
            true
        } else {
            let m10 = mag * 10;
            if dv > 0x8000_0000_0000_0000_0000_0000_0000_0000u128 - m10 {
                true
            } else {
                mag = m10 + dv;
                false
            }
        };
        if over {
            proof {
                assert(digits_val(longer) > 0x8000_0000_0000_0000_0000_0000_0000_0000int);
                lemma_digits_prefix_le(full, i + 1);
            }
            return Err(soft_fail(input, IpldSchemaParseError::Unknown));
        }
        i += 1;
    }
    proof {
        assert(full.subrange(0, d as int) =~= full);
    }
    if negative {
        let v: i128 = if mag == 0x8000_0000_0000_0000_0000_0000_0000_0000u128 {
            i128::MIN
        } else {
            -(mag as i128)
        };
        let rest = input.skip_chars(off + d);
        Ok((rest, v))
    } else {
        if mag == 0x8000_0000_0000_0000_0000_0000_0000_0000u128 {
            return Err(soft_fail(input, IpldSchemaParseError::Unknown));
        }
        let v: i128 = mag as i128;
        let rest = input.skip_chars(off + d);
        Ok((rest, v))
    }
}

/// The first outcome unless it is a miss; ordered backtracking over grammar
/// alternatives.
pub open spec fn orelse<T>(p: Progress<T>, q: Progress<T>) -> Progress<T> {
    if p is Miss {
        q
    } else {
        p
    }
}

/// Spec of a primitive type definition: one of the bare keywords, or
/// `bytes` with its optional representation clause.
#[verifier::opaque]
pub open spec fn sp_prim_def(s: Seq<char>) -> Progress<crate::model::TypeModel> {
    orelse(
        crate::parse::primitives::sp_bool(s),
        orelse(
            crate::parse::primitives::sp_string_type(s),
            orelse(
                crate::parse::primitives::sp_int_type(s),
                orelse(
                    crate::parse::primitives::sp_float_type(s),
                    orelse(
                        crate::parse::primitives::sp_any(s),
                        crate::parse::primitives::sp_bytes_type(s),
                    ),
                ),
            ),
        ),
    )
}

/// Parse a primitive type definition.
#[verifier::rlimit(100)]
#[verifier::spinoff_prover]
pub fn parse_primitive_def<'a>(input: InStr<'a>) -> (r: ParseResult<
    'a,
    crate::IpldType,
    IpldSchemaParseError,
>)
    requires
        input.wf(),
    ensures
        obeys_progress(
            input,
            r,
            sp_prim_def(input.text()),
            |t: crate::IpldType| t.model(),
        ),
{
    proof {
        reveal(sp_prim_def);
    }
    match crate::parse::primitives::parse_bool(input) {
        Ok(ok) => {
            return Ok(ok);
        },
        Err(ParseErr::Hard(d)) => {
            return Err(ParseErr::Hard(d));
        },
        Err(ParseErr::Soft(_)) => {},
    }
    match crate::parse::primitives::parse_string(input) {
        Ok(ok) => {
            return Ok(ok);
        },
        Err(ParseErr::Hard(d)) => {
            return Err(ParseErr::Hard(d));
        },
        Err(ParseErr::Soft(_)) => {},
    }
    match crate::parse::primitives::parse_int(input) {
        Ok(ok) => {
            return Ok(ok);
        },
        Err(ParseErr::Hard(d)) => {
            return Err(ParseErr::Hard(d));
        },
        Err(ParseErr::Soft(_)) => {},
    }
    match crate::parse::primitives::parse_float(input) {
        Ok(ok) => {
            return Ok(ok);
        },
        Err(ParseErr::Hard(d)) => {
            return Err(ParseErr::Hard(d));
        },
        Err(ParseErr::Soft(_)) => {},
    }
    match crate::parse::primitives::parse_any(input) {
        Ok(ok) => {
            return Ok(ok);
        },
        Err(ParseErr::Hard(d)) => {
            return Err(ParseErr::Hard(d));
        },
        Err(ParseErr::Soft(_)) => {},
    }
    crate::parse::primitives::parse_bytes(input)
}

/// Spec of a composite or reference type definition: a list, map, struct,
/// enum, link, unit, or copy.
#[verifier::opaque]
pub open spec fn sp_comp_def(s: Seq<char>) -> Progress<crate::model::TypeModel> {
    orelse(
        map_progress(
            crate::parse::composite::sp_list(s),
            |l: crate::model::ListModel| crate::model::TypeModel::List(l),
        ),
        orelse(
            map_progress(
                crate::parse::composite::sp_map(s),
                |m: crate::model::MapModel| crate::model::TypeModel::Mapping(m),
            ),
            orelse(
                map_progress(
                    crate::parse::structural::sp_struct(s),
                    |m: crate::model::StructModel| crate::model::TypeModel::Struct(m),
                ),
                orelse(
                    map_progress(
                        crate::parse::enumerate::sp_enum(s),
                        |e: crate::model::EnumModel| crate::model::TypeModel::Enum(e),
                    ),
                    orelse(
                        map_progress(
                            crate::parse::primitives::sp_link_target(s),
                            |n: Seq<char>| crate::model::TypeModel::Link(n),
                        ),
                        orelse(
                            crate::parse::primitives::sp_unit_type(s),
                            crate::parse::primitives::sp_copy_type(s),
                        ),
                    ),
                ),
            ),
        ),
    )
}

/// Parse a composite or reference type definition.
#[verifier::rlimit(100)]
#[verifier::spinoff_prover]
pub fn parse_composite_def<'a>(input: InStr<'a>) -> (r: ParseResult<
    'a,
    crate::IpldType,
    IpldSchemaParseError,
>)
    requires
        input.wf(),
    ensures
        obeys_progress(
            input,
            r,
            sp_comp_def(input.text()),
            |t: crate::IpldType| t.model(),
        ),
{
    proof {
        reveal(sp_comp_def);
    }
    match crate::parse::composite::parse_list(input) {
        Ok((rest, l)) => {
            return Ok((rest, crate::IpldType::List(l)));
        },
        Err(ParseErr::Hard(d)) => {
            return Err(ParseErr::Hard(d));
        },
        Err(ParseErr::Soft(_)) => {},
    }
    match crate::parse::composite::parse_map(input) {
        Ok((rest, m)) => {
            return Ok((rest, crate::IpldType::Mapping(m)));
        },
        Err(ParseErr::Hard(d)) => {
            return Err(ParseErr::Hard(d));
        },
        Err(ParseErr::Soft(_)) => {},
    }
    match crate::parse::structural::parse_struct(input) {
        Ok(ok) => {
            return Ok(ok);
        },
        Err(ParseErr::Hard(d)) => {
            return Err(ParseErr::Hard(d));
        },
        Err(ParseErr::Soft(_)) => {},
    }
    match crate::parse::enumerate::parse_enum(input) {
        Ok(ok) => {
            return Ok(ok);
        },
        Err(ParseErr::Hard(d)) => {
            return Err(ParseErr::Hard(d));
        },
        Err(ParseErr::Soft(_)) => {},
    }
    match crate::parse::primitives::parse_link(input) {
        Ok(ok) => {
            return Ok(ok);
        },
        Err(ParseErr::Hard(d)) => {
            return Err(ParseErr::Hard(d));
        },
        Err(ParseErr::Soft(_)) => {},
    }
    match crate::parse::primitives::parse_unit(input) {
        Ok(ok) => {
            return Ok(ok);
        },
        Err(ParseErr::Hard(d)) => {
            return Err(ParseErr::Hard(d));
        },
        Err(ParseErr::Soft(_)) => {},
    }
    crate::parse::primitives::parse_copy(input)
}

/// Spec of a type definition: the primitive alternatives, then the
/// composite ones, in order.
#[verifier::opaque]
pub open spec fn sp_type_def(s: Seq<char>) -> Progress<crate::model::TypeModel> {
    orelse(sp_prim_def(s), sp_comp_def(s))
}

/// Parse a type definition.
pub fn parse_type_def<'a>(input: InStr<'a>) -> (r: ParseResult<
    'a,
    crate::IpldType,
    IpldSchemaParseError,
>)
    requires
        input.wf(),
    ensures
        obeys_progress(
            input,
            r,
            sp_type_def(input.text()),
            |t: crate::IpldType| t.model(),
        ),
{
    proof {
        reveal(sp_type_def);
    }
    match parse_primitive_def(input) {
        Ok(ok) => Ok(ok),
        Err(ParseErr::Hard(d)) => Err(ParseErr::Hard(d)),
        Err(ParseErr::Soft(_)) => parse_composite_def(input),
    }
}

/// Spec of one type declaration: an optional doc comment (attached as the
/// declaration's documentation), whitespace, `type`, the declared name, and
/// the definition. After `type` has been read, a bad name or definition is
/// a hard failure.
#[verifier::opaque]
pub open spec fn sp_type_decl(s: Seq<char>) -> Progress<
    (Seq<char>, crate::model::DocModel<crate::model::TypeModel>),
> {
    let cl: nat = match crate::parse::comment::sp_comment_block(s) {
        Progress::Match { len: n, .. } => n,
        _ => 0,
    };
    let doc: Option<Seq<char>> = match crate::parse::comment::sp_comment_block(s) {
        Progress::Match { value: v, .. } => Some(v),
        _ => None,
    };
    let w = count_while(s.skip(cl as int), |c: char| is_wspace(c));
    let p = cl + w;
    if begins_with(s.skip(p as int), "type"@) {
        let k = p + "type"@.len();
        let h1 = count_while(s.skip(k as int), |c: char| is_hspace(c));
        if h1 == 0 {
            Progress::Miss
        } else {
            let np = k + h1;
            match sp_name(s.skip(np as int), true) {
                Progress::Match { len: n, value: name } => {
                    let h2 = count_while(s.skip((np + n) as int), |c: char| is_hspace(c));
                    if h2 == 0 {
                        Progress::Reject {
                            at: (np + n) as nat,
                            err: IpldSchemaParseError::InvalidTypeDefinition,
                        }
                    } else {
                        let dp = np + n + h2;
                        match sp_type_def(s.skip(dp as int)) {
                            Progress::Match { len: m, value: ty } => Progress::Match {
                                len: (dp + m) as nat,
                                value: (name, crate::model::DocModel { doc, ty }),
                            },
                            Progress::Miss => Progress::Reject {
                                at: dp as nat,
                                err: IpldSchemaParseError::InvalidTypeDefinition,
                            },
                            Progress::Reject { at, err } => Progress::Reject {
                                at: (dp + at) as nat,
                                err,
                            },
                        }
                    }
                },
                _ => Progress::Reject {
                    at: np as nat,
                    err: IpldSchemaParseError::InvalidTypeName,
                },
            }
        }
    } else {
        Progress::Miss
    }
}

/// Parse one type declaration: the optional doc comment, `type`, the name,
/// and the definition.
#[verifier::rlimit(100)]
#[verifier::spinoff_prover]
pub fn parse_type_declaration<'a>(input: InStr<'a>) -> (r: ParseResult<
    'a,
    (String, crate::Doc<crate::IpldType>),
    IpldSchemaParseError,
>)
    requires
        input.wf(),
    ensures
        obeys_progress(
            input,
            r,
            sp_type_decl(input.text()),
            |d: (String, crate::Doc<crate::IpldType>)|
                (d.0@, crate::model::DocModel { doc: d.1.doc_view(), ty: d.1.ty.model() }),
        ),
{
    proof {
        reveal(sp_type_decl);
    }
    let (after_doc, doc) = match crate::parse::comment::parse_comment_block(input) {
        Ok((c, d)) => (c, Some(d)),
        Err(_) => (input, None),
    };
    proof {
        assert(after_doc.text() =~= input.text().skip(
            (after_doc.span_start - input.span_start) as int,
        ));
    }
    let w = scan(&after_doc, CharClass::Wspace);
    let kw_cur = after_doc.skip_chars(w);
    proof {
        assert(kw_cur.text() =~= input.text().skip((kw_cur.span_start - input.span_start) as int));
    }
    let after_kw = match strip_tag(&kw_cur, "type") {
        Some(c) => c,
        None => {
            return Err(soft_fail(input, IpldSchemaParseError::Unknown));
        },
    };
    proof {
        assert(after_kw.text() =~= input.text().skip(
            (after_kw.span_start - input.span_start) as int,
        ));
    }
    let h1 = scan(&after_kw, CharClass::Hspace);
    if h1 == 0 {
        return Err(soft_fail(input, IpldSchemaParseError::Unknown));
    }
    let name_cur = after_kw.skip_chars(h1);
    let np = name_cur.span_start - input.span_start;
    proof {
        assert(name_cur.text() =~= input.text().skip(np as int));
    }
    let (after_name, name) = match parse_type_name(name_cur) {
        Ok(ok) => ok,
        Err(_) => {
            let run = scan(&name_cur, CharClass::NameChar);
            return Err(
                hard_fail(
                    input,
                    np,
                    np + run,
                    IpldSchemaParseError::InvalidTypeName,
                    Some(
                        "type names start with an uppercase ASCII letter followed by alphanumerics or underscores",
                    ),
                ),
            );
        },
    };
    proof {
        assert(after_name.text() =~= input.text().skip(
            (after_name.span_start - input.span_start) as int,
        ));
    }
    let h2 = scan(&after_name, CharClass::Hspace);
    let nn = after_name.span_start - input.span_start;
    if h2 == 0 {
        return Err(
            hard_fail(
                input,
                nn,
                nn,
                IpldSchemaParseError::InvalidTypeDefinition,
                Some("a declaration names its type after a space"),
            ),
        );
    }
    let def_cur = after_name.skip_chars(h2);
    let dp = def_cur.span_start - input.span_start;
    proof {
        assert(def_cur.text() =~= input.text().skip(dp as int));
    }
    match parse_type_def(def_cur) {
        Ok((rest, ty)) => Ok((rest, (name, crate::Doc { doc, ty }))),
        Err(ParseErr::Hard(d)) => Err(ParseErr::Hard(d)),
        Err(ParseErr::Soft(_)) => {
            let run = scan(&def_cur, CharClass::NameChar);
            Err(
                hard_fail(
                    input,
                    dp,
                    dp + run,
                    IpldSchemaParseError::InvalidTypeDefinition,
                    Some("expected a type definition"),
                ),
            )
        },
    }
}

/// One top-level schema item: the declared name, its documented type model,
/// and the character offset of the declaration.
pub struct ItemRec {
    pub name: Seq<char>,
    pub def: crate::model::DocModel<crate::model::TypeModel>,
    pub at: nat,
}

/// Shift every item position by `k` characters of enclosing context.
pub open spec fn shift_items(items: Seq<ItemRec>, k: nat) -> Seq<ItemRec> {
    items.map_values(|it: ItemRec| ItemRec { at: (it.at + k) as nat, ..it })
}

/// Spec of the top-level item list: skip whitespace; at the end of input the
/// list is done; a declaration is collected; a comment block not followed by
/// a declaration is dropped; anything else is a hard failure.
pub open spec fn sp_schema_items(s: Seq<char>) -> Progress<Seq<ItemRec>>
    decreases s.len(),
{
    let w = count_while(s, |c: char| is_wspace(c));
    if w == s.len() {
        Progress::Match { len: w, value: Seq::empty() }
    } else {
        match sp_type_decl(s.skip(w as int)) {
            Progress::Match { len: n, value: d } => {
                if 0 < n && w + n <= s.len() {
                    match sp_schema_items(s.skip((w + n) as int)) {
                        Progress::Match { len: n2, value: rest } => Progress::Match {
                            len: (w + n + n2) as nat,
                            value: seq![ItemRec { name: d.0, def: d.1, at: w as nat }]
                                + shift_items(rest, (w + n) as nat),
                        },
                        Progress::Miss => Progress::Miss,
                        Progress::Reject { at, err } => Progress::Reject {
                            at: (w + n + at) as nat,
                            err,
                        },
                    }
                } else {
                    Progress::Miss
                }
            },
            Progress::Miss => {
                match crate::parse::comment::sp_comment_block(s.skip(w as int)) {
                    Progress::Match { len: n, .. } => {
                        if 0 < n && w + n <= s.len() {
                            match sp_schema_items(s.skip((w + n) as int)) {
                                Progress::Match { len: n2, value: rest } => Progress::Match {
                                    len: (w + n + n2) as nat,
                                    value: shift_items(rest, (w + n) as nat),
                                },
                                Progress::Miss => Progress::Miss,
                                Progress::Reject { at, err } => Progress::Reject {
                                    at: (w + n + at) as nat,
                                    err,
                                },
                            }
                        } else {
                            Progress::Miss
                        }
                    },
                    _ => Progress::Reject {
                        at: w as nat,
                        err: IpldSchemaParseError::UnexpectedToken,
                    },
                }
            },
            Progress::Reject { at, err } => Progress::Reject { at: (w + at) as nat, err },
        }
    }
}

/// Every item of the list lies inside the text it was parsed from.
pub proof fn lemma_items_at(s: Seq<char>)
    ensures
        sp_schema_items(s) matches Progress::Match { value: items, .. } ==> forall|i: int|
            0 <= i < items.len() ==> (#[trigger] items[i]).at <= s.len(),
    decreases s.len(),
{
    let w = count_while(s, |c: char| is_wspace(c));
    lemma_count_while(s, |c: char| is_wspace(c));
    if w != s.len() {
        match sp_type_decl(s.skip(w as int)) {
            Progress::Match { len: n, value: d } => {
                if 0 < n && w + n <= s.len() {
                    lemma_items_at(s.skip((w + n) as int));
                    if sp_schema_items(s) is Match {
                        let items = sp_schema_items(s)->Match_value;
                        let rest = sp_schema_items(s.skip((w + n) as int))->Match_value;
                        assert forall|i: int| 0 <= i < items.len() implies (#[trigger] items[i]).at
                            <= s.len() by {
                            if i > 0 {
                                assert(items[i] == shift_items(rest, (w + n) as nat)[i - 1]);
                                assert(shift_items(rest, (w + n) as nat)[i - 1] == ItemRec {
                                    at: (rest[i - 1].at + (w + n)) as nat,
                                    ..rest[i - 1]
                                });
                            }
                        }
                    }
                }
            },
            Progress::Miss => {
                match crate::parse::comment::sp_comment_block(s.skip(w as int)) {
                    Progress::Match { len: n, .. } => {
                        if 0 < n && w + n <= s.len() {
                            lemma_items_at(s.skip((w + n) as int));
                            if sp_schema_items(s) is Match {
                                let items = sp_schema_items(s)->Match_value;
                                let rest = sp_schema_items(s.skip((w + n) as int))->Match_value;
                                assert forall|i: int| 0 <= i < items.len() implies (
                                #[trigger] items[i]).at <= s.len() by {
                                    assert(items[i] == shift_items(rest, (w + n) as nat)[i]);
                                    assert(shift_items(rest, (w + n) as nat)[i] == ItemRec {
                                        at: (rest[i].at + (w + n)) as nat,
                                        ..rest[i]
                                    });
                                }
                            }
                        }
                    },
                    _ => {},
                }
            },
            Progress::Reject { .. } => {},
        }
    }
}

/// The models of parallel definition and position vectors, zipped into item
/// records.
pub open spec fn zip_models(
    defs: Seq<(String, crate::Doc<crate::IpldType>)>,
    ats: Seq<usize>,
) -> Seq<ItemRec> {
    Seq::new(
        defs.len(),
        |i: int|
            ItemRec {
                name: defs[i].0@,
                def: crate::model::DocModel {
                    doc: defs[i].1.doc_view(),
                    ty: defs[i].1.ty.model(),
                },
                at: ats[i] as nat,
            },
    )
}

/// Parse the top-level item list onto the parallel vectors `defs` and
/// `ats`; `offset` is where the given cursor stands within the whole source.
#[verifier::rlimit(100)]
#[verifier::spinoff_prover]
fn parse_schema_items<'a>(
    input: InStr<'a>,
    offset: usize,
    defs: Vec<(String, crate::Doc<crate::IpldType>)>,
    ats: Vec<usize>,
) -> (r: ParseResult<
    'a,
    (Vec<(String, crate::Doc<crate::IpldType>)>, Vec<usize>),
    IpldSchemaParseError,
>)
    requires
        input.wf(),
        offset + input.text().len() <= usize::MAX,
        defs@.len() == ats@.len(),
    ensures
        obeys_progress(
            input,
            r,
            map_progress(
                sp_schema_items(input.text()),
                |items: Seq<ItemRec>|
                    zip_models(defs@, ats@) + shift_items(items, offset as nat),
            ),
            |p: (Vec<(String, crate::Doc<crate::IpldType>)>, Vec<usize>)|
                zip_models(p.0@, p.1@),
        ),
        r matches Ok((_, p)) ==> p.0@.len() == p.1@.len(),
    decreases input.text().len(),
{
    let w = scan(&input, CharClass::Wspace);
    if w == input.len() {
        proof {
            assert(zip_models(defs@, ats@) + shift_items(Seq::empty(), offset as nat)
                =~= zip_models(defs@, ats@));
        }
        return Ok((input.skip_chars(w), (defs, ats)));
    }
    let decl_cur = input.skip_chars(w);
    proof {
        assert(decl_cur.text() =~= input.text().skip(w as int));
    }
    match parse_type_declaration(decl_cur) {
        Ok((cur, decl)) => {
            let ghost n = (cur.span_start - decl_cur.span_start) as nat;
            proof {
                lemma_type_decl_le(decl_cur.text());
                assert(cur.text() =~= input.text().skip((w + n) as int));
            }
            let at = offset + w;
            let (name, doc) = decl;
            let mut defs2 = defs;
            let mut ats2 = ats;
            defs2.push((name, doc));
            ats2.push(at);
            proof {
                let item = ItemRec {
                    name: defs2@.last().0@,
                    def: crate::model::DocModel {
                        doc: defs2@.last().1.doc_view(),
                        ty: defs2@.last().1.ty.model(),
                    },
                    at: at as nat,
                };
                assert(zip_models(defs2@, ats2@) =~= zip_models(defs@, ats@).push(item));
                let rest = sp_schema_items(cur.text())->Match_value;
                let whole = sp_schema_items(input.text());
                assert(shift_items(shift_items(rest, (w + n) as nat), offset as nat)
                    =~= shift_items(rest, (offset + w + n) as nat));
            }
            let r = parse_schema_items(cur, offset + (w + (cur.span_start - decl_cur.span_start)), defs2, ats2);
            proof {
                match sp_schema_items(cur.text()) {
                    Progress::Match { value: rest, .. } => {
                        assert(zip_models(defs2@, ats2@) + shift_items(
                            rest,
                            (offset + w + n) as nat,
                        ) =~= zip_models(defs@, ats@) + shift_items(
                            sp_schema_items(input.text())->Match_value,
                            offset as nat,
                        ));
                    },
                    _ => {},
                }
            }
            r
        },
        Err(ParseErr::Hard(d)) => Err(ParseErr::Hard(d)),
        Err(ParseErr::Soft(_)) => {
            match crate::parse::comment::parse_comment_block(decl_cur) {
                Ok((cur, _)) => {
                    let ghost n = (cur.span_start - decl_cur.span_start) as nat;
                    proof {
                        crate::parse::comment::lemma_comment_block_len(decl_cur.text());
                        assert(cur.text() =~= input.text().skip((w + n) as int));
                        let rest = sp_schema_items(cur.text());
                        match rest {
                            Progress::Match { value: rv, .. } => {
                                assert(shift_items(shift_items(rv, (w + n) as nat), offset as nat)
                                    =~= shift_items(rv, (offset + w + n) as nat));
                            },
                            _ => {},
                        }
                    }
                    parse_schema_items(
                        input.skip_chars(w + (cur.span_start - decl_cur.span_start)),
                        offset + (w + (cur.span_start - decl_cur.span_start)),
                        defs,
                        ats,
                    )
                },
                Err(_) => {
                    let run = scan(&decl_cur, CharClass::NameChar);
                    Err(
                        hard_fail(
                            input,
                            w,
                            w + run,
                            IpldSchemaParseError::UnexpectedToken,
                            Some("expected a comment or a type declaration"),
                        ),
                    )
                },
            }
        },
    }
}

/// The declared names of the items.
pub open spec fn item_names(items: Seq<ItemRec>) -> Seq<Seq<char>> {
    items.map_values(|it: ItemRec| it.name)
}

/// Index of the first name that already appeared earlier, from `j` on, or
/// the length if every name is new.
pub open spec fn fd_from(names: Seq<Seq<char>>, j: int) -> int
    decreases names.len() - j,
{
    if j < 0 || j >= names.len() {
        names.len() as int
    } else if exists|i: int| 0 <= i < j && names[i] == names[j] {
        j
    } else {
        fd_from(names, j + 1)
    }
}

/// What `fd_from` finds: the first duplicated name at or after `j`, or the
/// length.
pub proof fn lemma_fd_from(names: Seq<Seq<char>>, j: int)
    requires
        0 <= j <= names.len(),
    ensures
        j <= fd_from(names, j) <= names.len(),
        forall|k: int|
            j <= k < fd_from(names, j) ==> !exists|i: int| 0 <= i < k && names[i] == #[trigger] names[k],
        fd_from(names, j) < names.len() ==> exists|i: int|
            0 <= i < fd_from(names, j) && #[trigger] names[i] == names[fd_from(names, j)],
    decreases names.len() - j,
{
    if j < names.len() && !(exists|i: int| 0 <= i < j && names[i] == names[j]) {
        lemma_fd_from(names, j + 1);
    }
}

/// Whether `name` appears among the first `upto` declared names.
fn name_among(
    defs: &Vec<(String, crate::Doc<crate::IpldType>)>,
    upto: usize,
    name: &str,
) -> (b: bool)
    requires
        upto <= defs@.len(),
    ensures
        b == exists|i: int| 0 <= i < upto && defs@[i].0@ == name@,
{
    let mut i: usize = 0;
    while i < upto
        invariant
            upto <= defs@.len(),
            i <= upto,
            forall|k: int| 0 <= k < i ==> defs@[k].0@ != name@,
        decreases upto - i,
    {
        if str_eq(defs[i].0.as_str(), name) {
            return true;
        }
        i += 1;
    }
    false
}

/// Find the first declaration whose name already appeared earlier, from
/// index `j` on.
fn find_dup(defs: &Vec<(String, crate::Doc<crate::IpldType>)>, j: usize) -> (r: usize)
    requires
        j <= defs@.len(),
    ensures
        r == fd_from(defs@.map_values(|d: (String, crate::Doc<crate::IpldType>)| d.0@), j as int),
        j <= r <= defs@.len(),
    decreases defs@.len() - j,
{
    let ghost names = defs@.map_values(|d: (String, crate::Doc<crate::IpldType>)| d.0@);
    proof {
        assert(names.len() == defs@.len());
    }
    if j == defs.len() {
        return j;
    }
    if name_among(defs, j, defs[j].0.as_str()) {
        proof {
            let i = choose|i: int| 0 <= i < j && defs@[i].0@ == defs@[j as int].0@;
            assert(names[i] == defs@[i].0@);
            assert(names[j as int] == defs@[j as int].0@);
            assert(names[i] == names[j as int]);
        }
        return j;
    }
    proof {
        assert forall|i: int| 0 <= i < j implies names[i] != names[j as int] by {
            assert(names[i] == defs@[i].0@);
        }
    }
    find_dup(defs, j + 1)
}

/// Spec of a whole schema text: the item list parsed to the end of input,
/// with no two declarations sharing one name; a duplicate is a hard failure
/// at the later declaration.
pub open spec fn sp_schema(s: Seq<char>) -> Progress<Seq<ItemRec>> {
    match sp_schema_items(s) {
        Progress::Match { len, value: items } => {
            let f = fd_from(item_names(items), 0);
            if f < items.len() {
                Progress::Reject {
                    at: items[f].at,
                    err: IpldSchemaParseError::DuplicateTypeName,
                }
            } else {
                Progress::Match { len, value: items }
            }
        },
        Progress::Miss => Progress::Miss,
        Progress::Reject { at, err } => Progress::Reject { at, err },
    }
}

/// The declarations of the items, in order, without positions.
pub open spec fn defs_of_items(items: Seq<ItemRec>) -> Seq<
    (Seq<char>, crate::model::DocModel<crate::model::TypeModel>),
> {
    items.map_values(|it: ItemRec| (it.name, it.def))
}

impl crate::IpldSchema {
    /// Parse a schema source text into the ordered type table.
    ///
    /// The result is a function of the text alone: it succeeds exactly when
    /// the whole text matches the schema grammar with no duplicate type
    /// names, and then yields the declarations in source order. On failure
    /// it yields labeled source ranges pointing into the given text.
    #[verifier::rlimit(100)]
    #[verifier::spinoff_prover]
    pub fn parse<'a>(input: &'a str) -> (r: Result<
        crate::IpldSchema,
        ErrorDiagnose<'a, IpldSchemaParseError>,
    >)
        ensures
            r is Ok <==> sp_schema(input@) is Match,
            r matches Ok(schema) ==> (sp_schema(input@) matches Progress::Match {
                value: items,
                ..
            } && schema.model().defs == defs_of_items(items) && schema.model().names_unique()),
            r matches Ok(schema) ==> forall|i: int|
                0 <= i < schema.model().defs.len() ==> valid_name(
                    (#[trigger] schema.model().defs[i]).0,
                ),
            r matches Err(d) ==> d.wf() && (forall|i: int|
                0 <= i < d.errors@.len() ==> (#[trigger] d.errors@[i]).src@ == input@),
            r matches Err(d) ==> (sp_schema(input@) matches Progress::Reject { at, err }
                && d.errors@[0].inner == err && d.errors@[0].start == at),
    {
        proof {
            lemma_schema_total(input@);
        }
        let cur = InStr::new(input);
        match parse_schema_items(cur, 0, Vec::new(), Vec::new()) {
            Err(ParseErr::Hard(d)) => Err(d),
            Err(ParseErr::Soft(d)) => Err(d),
            Ok((_, (defs, ats))) => {
                let ghost items = sp_schema_items(input@)->Match_value;
                proof {
                    assert(zip_models(Seq::empty(), Seq::empty()) + shift_items(items, 0)
                        =~= shift_items(items, 0));
                    assert(shift_items(items, 0) =~= items);
                    assert(zip_models(defs@, ats@) == items);
                    assert(defs@.map_values(
                        |d: (String, crate::Doc<crate::IpldType>)| d.0@,
                    ) =~= item_names(items));
                }
                let f = find_dup(&defs, 0);
                proof {
                    lemma_fd_from(item_names(items), 0);
                }
                if f < defs.len() {
                    proof {
                        lemma_items_at(input@);
                        assert(items[f as int].at == ats@[f as int] as nat);
                        assert(items[f as int].at <= input@.len());
                    }
                    let at = ats[f];
                    Err(
                        ErrorDiagnose::from_span(
                            Span {
                                src: input,
                                file: None,
                                start: at,
                                end: at,
                                inner: IpldSchemaParseError::DuplicateTypeName,
                                hint: Some("a type with this name was already declared"),
                            },
                        ),
                    )
                } else {
                    let schema = crate::IpldSchema(defs);
                    proof {
                        assert(schema.model().defs =~= defs_of_items(items));
                        assert forall|i: int, j: int|
                            0 <= i < j < schema.model().defs.len() implies schema.model().defs[i].0
                            != schema.model().defs[j].0 by {
                            assert(schema.model().defs[i].0 == item_names(items)[i]);
                            assert(schema.model().defs[j].0 == item_names(items)[j]);
                        }
                        lemma_declared_names_valid(input@);
                        assert forall|i: int| 0 <= i < schema.model().defs.len() implies valid_name(
                            (#[trigger] schema.model().defs[i]).0,
                        ) by {
                            assert(schema.model().defs[i].0 == items[i].name);
                        }
                    }
                    Ok(schema)
                }
            },
        }
    }
}

/// A well-formed declared name: nonempty, an uppercase ASCII letter first,
/// alphanumerics or underscores throughout.
pub open spec fn valid_name(n: Seq<char>) -> bool {
    &&& n.len() >= 1
    &&& is_upper(n[0])
    &&& forall|i: int| 0 <= i < n.len() ==> is_name_char(#[trigger] n[i])
}

/// Law: a name match yields exactly the maximal leading run of name
/// characters, which is a well-formed name; a text whose first character is
/// not an uppercase ASCII letter is turned away softly, consuming nothing.
pub proof fn lemma_name_validity(s: Seq<char>)
    ensures
        sp_name(s, true) matches Progress::Match { len, value } ==> (1 <= len <= s.len() && value
            == s.subrange(0, len as int) && valid_name(value)),
        s.len() == 0 || !is_upper(s[0]) ==> sp_name(s, true) is Miss,
{
    lemma_count_while(s, |c: char| is_name_char(c));
    if s.len() > 0 && is_upper(s[0]) {
        let n = count_while(s, |c: char| is_name_char(c));
        assert forall|i: int| 0 <= i < n implies is_name_char(#[trigger] s.subrange(0, n as int)[i]) by {
            assert(s.subrange(0, n as int)[i] == s[i]);
        }
    }
}

/// Law: a matched type declaration carries a well-formed declared name.
pub proof fn lemma_decl_name_valid(s: Seq<char>)
    ensures
        sp_type_decl(s) matches Progress::Match { value: d, .. } ==> valid_name(d.0),
{
    reveal(sp_type_decl);
    if sp_type_decl(s) matches Progress::Match { value: d, .. } {
        let cl: nat = match crate::parse::comment::sp_comment_block(s) {
            Progress::Match { len: n, .. } => n,
            _ => 0,
        };
        let w = count_while(s.skip(cl as int), |c: char| is_wspace(c));
        let p = cl + w;
        let k = p + "type"@.len();
        let h1 = count_while(s.skip(k as int), |c: char| is_hspace(c));
        let np = k + h1;
        lemma_name_validity(s.skip(np as int));
    }
}

/// Law: every name declared by a successfully parsed schema is well-formed:
/// it starts with an uppercase ASCII letter and continues with
/// alphanumerics or underscores.
pub proof fn lemma_declared_names_valid(s: Seq<char>)
    ensures
        sp_schema_items(s) matches Progress::Match { value: items, .. } ==> forall|i: int|
            0 <= i < items.len() ==> valid_name((#[trigger] items[i]).name),
    decreases s.len(),
{
    let w = count_while(s, |c: char| is_wspace(c));
    lemma_count_while(s, |c: char| is_wspace(c));
    if w != s.len() {
        match sp_type_decl(s.skip(w as int)) {
            Progress::Match { len: n, value: d } => {
                if 0 < n && w + n <= s.len() {
                    lemma_decl_name_valid(s.skip(w as int));
                    lemma_declared_names_valid(s.skip((w + n) as int));
                    if sp_schema_items(s) is Match {
                        let items = sp_schema_items(s)->Match_value;
                        let rest = sp_schema_items(s.skip((w + n) as int))->Match_value;
                        assert forall|i: int| 0 <= i < items.len() implies valid_name(
                            (#[trigger] items[i]).name,
                        ) by {
                            if i > 0 {
                                assert(items[i] == shift_items(rest, (w + n) as nat)[i - 1]);
                                assert(shift_items(rest, (w + n) as nat)[i - 1] == ItemRec {
                                    at: (rest[i - 1].at + (w + n)) as nat,
                                    ..rest[i - 1]
                                });
                            }
                        }
                    }
                }
            },
            Progress::Miss => {
                match crate::parse::comment::sp_comment_block(s.skip(w as int)) {
                    Progress::Match { len: n, .. } => {
                        if 0 < n && w + n <= s.len() {
                            lemma_declared_names_valid(s.skip((w + n) as int));
                            if sp_schema_items(s) is Match {
                                let items = sp_schema_items(s)->Match_value;
                                let rest = sp_schema_items(s.skip((w + n) as int))->Match_value;
                                assert forall|i: int| 0 <= i < items.len() implies valid_name(
                                    (#[trigger] items[i]).name,
                                ) by {
                                    assert(items[i] == shift_items(rest, (w + n) as nat)[i]);
                                    assert(shift_items(rest, (w + n) as nat)[i] == ItemRec {
                                        at: (rest[i].at + (w + n)) as nat,
                                        ..rest[i]
                                    });
                                }
                            }
                        }
                    },
                    _ => {},
                }
            },
            Progress::Reject { .. } => {},
        }
    }
}

/// Law: parsing is deterministic. The contract of [`crate::IpldSchema::parse`]
/// pins success and the result's model to `sp_schema` of the input text
/// alone, so two schemas parsed from one text have the same declarations.
pub proof fn lemma_parse_deterministic(text: Seq<char>, a: crate::model::SchemaModel, b: crate::model::SchemaModel)
    requires
        sp_schema(text) is Match,
        a.defs == defs_of_items(sp_schema(text)->Match_value),
        b.defs == defs_of_items(sp_schema(text)->Match_value),
    ensures
        a.defs == b.defs,
{
}

/// Law: the doc comment immediately preceding a type declaration, with only
/// whitespace between, is attached as that declaration's documentation; a
/// declaration without such a block has none.
pub proof fn lemma_doc_attachment(s: Seq<char>)
    ensures
        sp_type_decl(s) matches Progress::Match { value: d, .. } ==> d.1.doc == (
        match crate::parse::comment::sp_comment_block(s) {
            Progress::Match { value: v, .. } => Some(v),
            _ => None::<Seq<char>>,
        }),
{
    reveal(sp_type_decl);
}

/// A matched type definition stays inside its text.
pub proof fn lemma_type_def_le(s: Seq<char>)
    ensures
        sp_type_def(s) matches Progress::Match { len, .. } ==> 0 < len <= s.len(),
{
    reveal(sp_type_def);
    reveal(sp_prim_def);
    reveal(sp_comp_def);
    crate::parse::primitives::lemma_prim_defs_le(s);
    crate::parse::composite::lemma_list_le(s);
    crate::parse::composite::lemma_map_le(s);
    crate::parse::structural::lemma_struct_le(s);
    crate::parse::enumerate::lemma_enum_le(s);
    crate::parse::primitives::lemma_link_target_le(s);
}

/// A matched type declaration stays inside its text.
pub proof fn lemma_type_decl_le(s: Seq<char>)
    ensures
        sp_type_decl(s) matches Progress::Match { len, .. } ==> 0 < len <= s.len(),
{
    reveal(sp_type_decl);
    if sp_type_decl(s) matches Progress::Match { .. } {
        let cl: nat = match crate::parse::comment::sp_comment_block(s) {
            Progress::Match { len: n, .. } => n,
            _ => 0,
        };
        crate::parse::comment::lemma_comment_block_len(s);
        let w = count_while(s.skip(cl as int), |c: char| is_wspace(c));
        lemma_count_while(s.skip(cl as int), |c: char| is_wspace(c));
        let p = cl + w;
        if begins_with(s.skip(p as int), "type"@) {
            let k = p + "type"@.len();
            let h1 = count_while(s.skip(k as int), |c: char| is_hspace(c));
            lemma_count_while(s.skip(k as int), |c: char| is_hspace(c));
            if h1 != 0 {
                let np = k + h1;
                lemma_name_len(s.skip(np as int), true);
                match sp_name(s.skip(np as int), true) {
                    Progress::Match { len: n, .. } => {
                        let h2 = count_while(s.skip((np + n) as int), |c: char| is_hspace(c));
                        lemma_count_while(s.skip((np + n) as int), |c: char| is_hspace(c));
                        if h2 != 0 {
                            lemma_type_def_le(s.skip((np + n + h2) as int));
                        }
                    },
                    _ => {},
                }
            }
        }
    }
}

/// The top-level item list never ends in an unclassified soft failure: it
/// either parses the whole text or reports a hard failure.
pub proof fn lemma_schema_items_total(s: Seq<char>)
    ensures
        !(sp_schema_items(s) is Miss),
    decreases s.len(),
{
    let w = count_while(s, |c: char| is_wspace(c));
    lemma_count_while(s, |c: char| is_wspace(c));
    if w != s.len() {
        match sp_type_decl(s.skip(w as int)) {
            Progress::Match { len: n, .. } => {
                lemma_type_decl_le(s.skip(w as int));
                if 0 < n && w + n <= s.len() {
                    lemma_schema_items_total(s.skip((w + n) as int));
                }
            },
            Progress::Miss => {
                match crate::parse::comment::sp_comment_block(s.skip(w as int)) {
                    Progress::Match { len: n, .. } => {
                        crate::parse::comment::lemma_comment_block_len(s.skip(w as int));
                        if 0 < n && w + n <= s.len() {
                            lemma_schema_items_total(s.skip((w + n) as int));
                        }
                    },
                    _ => {},
                }
            },
            Progress::Reject { .. } => {},
        }
    }
}

/// Every outcome of the whole-schema grammar is a success or a hard
/// failure; with the contract of [`crate::IpldSchema::parse`], every
/// returned diagnostic therefore carries the spec-determined kind and
/// position.
pub proof fn lemma_schema_total(s: Seq<char>)
    ensures
        !(sp_schema(s) is Miss),
{
    lemma_schema_items_total(s);
}

} // verus!
