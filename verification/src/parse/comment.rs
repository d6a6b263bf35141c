//! Comment lines and comment blocks.
//!
//! A comment line is optional horizontal whitespace, `#`, then the rest of
//! the line; its content is the text after the marker, trimmed on both
//! sides. A comment block is one or more comment lines; blank lines between
//! comment lines do not terminate the block. The block's value is the
//! newline-joined line contents.

use vstd::prelude::*;

use crate::diagnostic::InStr;
use crate::diagnostic::ParseResult;
use crate::error::IpldSchemaParseError;
use crate::parse::count_while;
use crate::parse::is_hspace;
use crate::parse::is_line_char;
use crate::parse::is_wspace;
use crate::parse::lemma_count_while;
use crate::parse::obeys_progress;
use crate::parse::scan;
use crate::parse::scan_from;
use crate::parse::soft_fail;
use crate::parse::take_trimmed;
use crate::parse::trimmed;
use crate::parse::CharClass;
use crate::parse::Progress;

verus! {

/// Spec of one comment line: optional horizontal whitespace, `#`, the line's
/// content up to the line break (trimmed), and the line break itself if
/// present.
pub open spec fn sp_comment_line(s: Seq<char>) -> Progress<Seq<char>> {
    let h = count_while(s, |c: char| is_hspace(c));
    if h < s.len() && s[h as int] == '#' {
        let k = count_while(s.skip(h + 1 as int), |c: char| is_line_char(c));
        let content = trimmed(s.subrange(h + 1 as int, (h + 1 + k) as int));
        let consumed: nat = if h + 1 + k < s.len() {
            h + 2 + k
        } else {
            h + 1 + k
        };
        Progress::Match { len: consumed, value: content }
    } else {
        Progress::Miss
    }
}

/// A matched comment line consumes at least one and at most all characters.
pub proof fn lemma_comment_line_len(s: Seq<char>)
    ensures
        sp_comment_line(s) matches Progress::Match { len, .. } ==> 0 < len <= s.len(),
{
    lemma_count_while(s, |c: char| is_hspace(c));
    let h = count_while(s, |c: char| is_hspace(c));
    if h < s.len() && s[h as int] == '#' {
        lemma_count_while(s.skip(h + 1 as int), |c: char| is_line_char(c));
    }
}

/// Parse a single comment line and return its trimmed content.
pub fn parse_comment_line<'a>(input: InStr<'a>) -> (r: ParseResult<
    'a,
    String,
    IpldSchemaParseError,
>)
    requires
        input.wf(),
    ensures
        obeys_progress(input, r, sp_comment_line(input.text()), |s: String| s@),
{
    let h = scan(&input, CharClass::Hspace);
    if h == input.len() || input.char_at(h) != '#' {
        return Err(soft_fail(input, IpldSchemaParseError::InvalidComment));
    }
    let k = scan_from(&input, CharClass::LineChar, h + 1);
    let content = take_trimmed(&input, h + 1, h + 1 + k);
    let consumed: usize = if h + 1 + k < input.len() {
        h + 2 + k
    } else {
        h + 1 + k
    };
    let rest = input.skip_chars(consumed);
    Ok((rest, content))
}

/// Spec of the lines of a comment block after the first: any whitespace
/// (including blank lines), then another comment line, repeated. Returns the
/// characters consumed and the line contents collected.
pub open spec fn sp_block_rest(s: Seq<char>) -> (nat, Seq<Seq<char>>)
    decreases s.len(),
{
    let w = count_while(s, |c: char| is_wspace(c));
    match sp_comment_line(s.skip(w as int)) {
        Progress::Match { len: n, value: l } => {
            if n > 0 && w + n <= s.len() {
                let (n2, rest) = sp_block_rest(s.skip((w + n) as int));
                ((w + n + n2), seq![l] + rest)
            } else {
                (0, Seq::empty())
            }
        },
        _ => (0, Seq::empty()),
    }
}

/// The block rest never consumes more than the text it was given.
pub proof fn lemma_block_rest_len(s: Seq<char>)
    ensures
        sp_block_rest(s).0 <= s.len(),
    decreases s.len(),
{
    let w = count_while(s, |c: char| is_wspace(c));
    lemma_count_while(s, |c: char| is_wspace(c));
    match sp_comment_line(s.skip(w as int)) {
        Progress::Match { len: n, value: l } => {
            if n > 0 && w + n <= s.len() {
                lemma_block_rest_len(s.skip((w + n) as int));
            }
        },
        _ => {},
    }
}

/// A matched comment block consumes at least one and at most all
/// characters.
pub proof fn lemma_comment_block_len(s: Seq<char>)
    ensures
        sp_comment_block(s) matches Progress::Match { len, .. } ==> 0 < len <= s.len(),
{
    lemma_comment_line_len(s);
    match sp_comment_line(s) {
        Progress::Match { len: n1, .. } => {
            lemma_block_rest_len(s.skip(n1 as int));
        },
        _ => {},
    }
}

/// Join `lines` onto `acc`, separating with single newlines.
pub open spec fn fold_join(acc: Seq<char>, lines: Seq<Seq<char>>) -> Seq<char>
    decreases lines.len(),
{
    if lines.len() == 0 {
        acc
    } else {
        fold_join(acc + seq!['\n'] + lines[0], lines.skip(1))
    }
}

/// Spec of a whole comment block: at least one comment line; further lines
/// may follow after blank space. The value is the newline-joined contents.
pub open spec fn sp_comment_block(s: Seq<char>) -> Progress<Seq<char>> {
    match sp_comment_line(s) {
        Progress::Match { len: n1, value: l1 } => {
            if n1 <= s.len() {
                let (n2, rest) = sp_block_rest(s.skip(n1 as int));
                Progress::Match { len: n1 + n2, value: fold_join(l1, rest) }
            } else {
                Progress::Miss
            }
        },
        Progress::Miss => Progress::Miss,
        Progress::Reject { at, err } => Progress::Reject { at, err },
    }
}

/// Parse the remaining lines of a comment block, appending their contents
/// onto `acc`.
fn parse_block_rest<'a>(input: InStr<'a>, acc: String) -> (r: (InStr<'a>, String))
    requires
        input.wf(),
    ensures
        ({
            let (n2, lines) = sp_block_rest(input.text());
            &&& r.0.wf() && input.same_source(r.0) && r.0.file == input.file
            &&& r.0.span_end == input.span_end
            &&& r.0.span_start == input.span_start + n2
            &&& r.1@ == fold_join(acc@, lines)
        }),
    decreases input.text().len(),
{
    let w = scan(&input, CharClass::Wspace);
    let probe = input.skip_chars(w);
    match parse_comment_line(probe) {
        Err(_) => (input, acc),
        Ok((cur, line)) => {
            let ghost n = (cur.span_start - probe.span_start) as nat;
            proof {
                lemma_comment_line_len(probe.text());
                assert(sp_comment_line(probe.text()) matches Progress::Match { len, .. } && len
                    == n);
                assert(w + n <= input.text().len());
                assert(cur.text() =~= input.text().skip((w + n) as int));
                reveal_strlit("\n");
                assert("\n"@ =~= seq!['\n']);
            }
            let ghost rest_lines = sp_block_rest(cur.text()).1;
            let ghost lines = sp_block_rest(input.text()).1;
            proof {
                assert(lines == seq![line@] + rest_lines);
                assert(lines[0] == line@);
                assert(lines.skip(1) =~= rest_lines);
            }
            let mut acc2 = acc;
            acc2.append("\n");
            acc2.append(line.as_str());
            proof {
                assert(acc2@ =~= acc@ + seq!['\n'] + line@);
                assert(fold_join(acc@, lines) == fold_join(acc2@, rest_lines));
            }
            parse_block_rest(cur, acc2)
        },
    }
}

/// Parse a comment block: one or more comment lines, possibly separated by
/// blank lines, joined with newlines.
pub fn parse_comment_block<'a>(input: InStr<'a>) -> (r: ParseResult<
    'a,
    String,
    IpldSchemaParseError,
>)
    requires
        input.wf(),
    ensures
        obeys_progress(input, r, sp_comment_block(input.text()), |s: String| s@),
{
    match parse_comment_line(input) {
        Err(e) => Err(e),
        Ok((cur, first)) => {
            let ghost n1 = (cur.span_start - input.span_start) as nat;
            proof {
                lemma_comment_line_len(input.text());
                assert(cur.text() =~= input.text().skip(n1 as int));
            }
            let (rest, acc) = parse_block_rest(cur, first);
            Ok((rest, acc))
        },
    }
}

} // verus!
