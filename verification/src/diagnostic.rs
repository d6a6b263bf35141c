//! Span-tracked input cursor and the diagnostic error model.
//!
//! [`InStr`] is an immutable, cheaply copyable view over
//! `(source text, optional filename, start, end)`; every parser consumes a
//! cursor and returns a new cursor plus a value, or a typed failure. Offsets
//! count characters of the source text, and `start..end` always stays inside
//! it, so slicing never re-allocates and never loses the position that a
//! labeled diagnostic needs later.
//!
//! [`Span`] labels one character range of one source with a value (usually an
//! error kind) and an optional hint; [`ErrorDiagnose`] is an ordered,
//! non-empty collection of such spans describing one overall parse failure.

use vstd::prelude::*;

verus! {

/// A positioned view into a source text: the characters
/// `src[span_start..span_end]`, remembering the whole source and the
/// optional filename for diagnostics.
#[derive(Debug, Clone, Copy)]
pub struct InStr<'a> {
    /// The full backing source text.
    pub src: &'a str,
    /// Where the source came from, if known; used only for display.
    pub file: Option<&'a str>,
    /// First character of the view (character offset into `src`).
    pub span_start: usize,
    /// One past the last character of the view.
    pub span_end: usize,
}

impl<'a> InStr<'a> {
    /// The window lies inside the source.
    pub open spec fn wf(self) -> bool {
        self.span_start <= self.span_end <= self.src@.len()
    }

    /// The characters this cursor currently exposes.
    pub open spec fn text(self) -> Seq<char> {
        self.src@.subrange(self.span_start as int, self.span_end as int)
    }

    /// The filename as a character sequence, if one was given.
    pub open spec fn file_view(self) -> Option<Seq<char>> {
        match self.file {
            Some(f) => Some(f@),
            None => None,
        }
    }

    /// `other` views the same source and file as `self`.
    pub open spec fn same_source(self, other: InStr<'a>) -> bool {
        self.src@ == other.src@ && self.file_view() == other.file_view()
    }

    /// Create a cursor over a whole source text.
    pub fn new(input: &'a str) -> (r: Self)
        ensures
            r.wf(),
            r.src@ == input@,
            r.file is None,
            r.span_start == 0,
            r.span_end == input@.len(),
            r.text() == input@,
    {
        let end = input.unicode_len();
        let r = Self { src: input, file: None, span_start: 0, span_end: end };
        proof {
            assert(r.text() =~= input@);
        }
        r
    }

    /// Create a cursor over a whole source text, remembering a filename.
    pub fn new_with_filename(input: &'a str, filename: &'a str) -> (r: Self)
        ensures
            r.wf(),
            r.src@ == input@,
            r.file_view() == Some(filename@),
            r.span_start == 0,
            r.span_end == input@.len(),
            r.text() == input@,
    {
        let end = input.unicode_len();
        let r = Self { src: input, file: Some(filename), span_start: 0, span_end: end };
        proof {
            assert(r.text() =~= input@);
        }
        r
    }

    /// Access the text this cursor points to.
    pub fn inner(&self) -> (r: &'a str)
        requires
            self.wf(),
        ensures
            r@ == self.text(),
    {
        self.src.substring_char(self.span_start, self.span_end)
    }

    /// Number of characters in view.
    pub fn len(&self) -> (n: usize)
        requires
            self.wf(),
        ensures
            n == self.text().len(),
    {
        self.span_end - self.span_start
    }

    /// Whether the view is empty.
    pub fn is_empty(&self) -> (b: bool)
        requires
            self.wf(),
        ensures
            b == (self.text().len() == 0),
    {
        self.span_start == self.span_end
    }

    /// The `i`-th character in view.
    pub fn char_at(&self, i: usize) -> (c: char)
        requires
            self.wf(),
            i < self.text().len(),
        ensures
            c == self.text()[i as int],
    {
        self.src.get_char(self.span_start + i)
    }

    /// Split the view at character offset `count`: `(suffix, prefix)`, both
    /// windows into the same backing source.
    pub fn take_split(&self, count: usize) -> (r: (Self, Self))
        requires
            self.wf(),
            count <= self.text().len(),
        ensures
            r.0.wf() && r.1.wf(),
            self.same_source(r.0) && self.same_source(r.1),
            r.0.file == self.file && r.1.file == self.file,
            r.1.span_start == self.span_start,
            r.1.span_end == self.span_start + count,
            r.0.span_start == self.span_start + count,
            r.0.span_end == self.span_end,
            r.1.text() == self.text().subrange(0, count as int),
            r.0.text() == self.text().skip(count as int),
    {
        let prefix = Self {
            src: self.src,
            file: self.file,
            span_start: self.span_start,
            span_end: self.span_start + count,
        };
        let suffix = Self {
            src: self.src,
            file: self.file,
            span_start: self.span_start + count,
            span_end: self.span_end,
        };
        proof {
            assert(prefix.text() =~= self.text().subrange(0, count as int));
            assert(suffix.text() =~= self.text().skip(count as int));
        }
        (suffix, prefix)
    }

    /// Advance the view by `count` characters.
    pub fn skip_chars(&self, count: usize) -> (r: Self)
        requires
            self.wf(),
            count <= self.text().len(),
        ensures
            r.wf(),
            self.same_source(r),
            r.file == self.file,
            r.span_start == self.span_start + count,
            r.span_end == self.span_end,
            r.text() == self.text().skip(count as int),
    {
        let r = Self {
            src: self.src,
            file: self.file,
            span_start: self.span_start + count,
            span_end: self.span_end,
        };
        proof {
            assert(r.text() =~= self.text().skip(count as int));
        }
        r
    }
}

impl<'a> InStr<'a> {
    /// Build an error span over the view's prefix up to (not including) the
    /// first character the predicate accepts, or over the whole view if it
    /// accepts none; used to narrow a failing range to the offending run.
    pub fn error_span<P: Fn(char) -> bool, E>(&self, predicate: P, inner: E) -> (r: Span<'a, E>)
        requires
            self.wf(),
            forall|c: char| predicate.requires((c,)),
        ensures
            r.wf(),
            r.src@ == self.src@,
            r.file == self.file,
            r.inner == inner,
            r.hint is None,
            r.start == self.span_start,
            self.span_start <= r.end <= self.span_end,
            forall|i: int|
                r.start <= i < r.end ==> call_ensures(
                    predicate,
                    (self.src@[i],),
                    false,
                ),
            r.end < self.span_end ==> call_ensures(predicate, (self.src@[r.end as int],), true),
    {
        let len = self.len();
        let mut i: usize = 0;
        while i < len
            invariant
                self.wf(),
                len == self.text().len(),
                i <= len,
                forall|c: char| predicate.requires((c,)),
                forall|j: int|
                    self.span_start <= j < self.span_start + i ==> call_ensures(
                        predicate,
                        (self.src@[j],),
                        false,
                    ),
            decreases len - i,
        {
            let c = self.char_at(i);
            proof {
                assert(self.text()[i as int] == self.src@[self.span_start + i]);
            }
            if predicate(c) {
                return Span {
                    src: self.src,
                    file: self.file,
                    start: self.span_start,
                    end: self.span_start + i,
                    inner,
                    hint: None,
                };
            }
            i += 1;
        }
        Span {
            src: self.src,
            file: self.file,
            start: self.span_start,
            end: self.span_end,
            inner,
            hint: None,
        }
    }

    /// Wrap the result of applying `f` to the viewed text into a span over
    /// exactly this view.
    pub fn map<T, F: Fn(&'a str) -> T>(&self, f: F) -> (r: Span<'a, T>)
        requires
            self.wf(),
            forall|x: &'a str| x@ == self.text() ==> f.requires((x,)),
        ensures
            r.wf(),
            r.src@ == self.src@,
            r.file == self.file,
            r.start == self.span_start,
            r.end == self.span_end,
            r.hint is None,
            exists|x: &'a str| x@ == self.text() && call_ensures(f, (x,), r.inner),
    {
        let text = self.inner();
        let value = f(text);
        Span {
            src: self.src,
            file: self.file,
            start: self.span_start,
            end: self.span_end,
            inner: value,
            hint: None,
        }
    }

    /// Finalize the input processing: succeed only if nothing is left in
    /// view, and otherwise label the leftover text with the given error and
    /// hint.
    pub fn finalize<T>(self, error: T, hint: &'a str) -> (r: Result<(), ErrorDiagnose<'a, T>>)
        requires
            self.wf(),
        ensures
            r is Ok <==> self.text().len() == 0,
            r matches Err(d) ==> {
                &&& d.wf()
                &&& d.errors@.len() == 1
                &&& d.errors@[0].src@ == self.src@
                &&& d.errors@[0].file == self.file
                &&& d.errors@[0].start == self.span_start
                &&& d.errors@[0].end == self.span_end
                &&& d.errors@[0].inner == error
                &&& d.errors@[0].hint == Some(hint)
            },
    {
        if self.span_start == self.span_end {
            Ok(())
        } else {
            Err(
                ErrorDiagnose::from_span(
                    Span {
                        src: self.src,
                        file: self.file,
                        start: self.span_start,
                        end: self.span_end,
                        inner: error,
                        hint: Some(hint),
                    },
                ),
            )
        }
    }
}

/// A value (usually an error kind) labeled with the character range of one
/// source text it was cut from, plus an optional one-line hint.
#[derive(Debug, Clone)]
pub struct Span<'a, T> {
    /// The full source text the range refers to.
    pub src: &'a str,
    /// Where the source came from, if known.
    pub file: Option<&'a str>,
    /// First character of the labeled range.
    pub start: usize,
    /// One past the last character of the labeled range.
    pub end: usize,
    /// The labeled value.
    pub inner: T,
    /// Additional one-line context for error messages.
    pub hint: Option<&'a str>,
}

impl<'a, T> Span<'a, T> {
    /// The range lies inside its source.
    pub open spec fn wf(self) -> bool {
        self.start <= self.end <= self.src@.len()
    }

    /// Add a hint to the span, to give error messages additional context.
    pub fn with_hint(self, hint: &'a str) -> (r: Self)
        ensures
            r == (Span { hint: Some(hint), ..self }),
    {
        Span { hint: Some(hint), ..self }
    }

    /// Retrieve the wrapped value from the span.
    pub fn into_inner(self) -> (r: T)
        ensures
            r == self.inner,
    {
        self.inner
    }

    /// Transform the inner value of the span into a new type.
    pub fn map<K, F: FnOnce(T) -> K>(self, f: F) -> (r: Span<'a, K>)
        requires
            f.requires((self.inner,)),
        ensures
            f.ensures((self.inner,), r.inner),
            r.src@ == self.src@,
            r.file == self.file,
            r.start == self.start,
            r.end == self.end,
            r.hint == self.hint,
    {
        Span {
            src: self.src,
            file: self.file,
            start: self.start,
            end: self.end,
            inner: f(self.inner),
            hint: self.hint,
        }
    }
}

impl<'a, T, E> Span<'a, Result<T, E>> {
    /// Unwrap a spanned result: a success drops the span, a failure keeps it.
    pub fn transform(self) -> (r: Result<T, Span<'a, E>>)
        ensures
            match r {
                Ok(v) => self.inner matches Ok(iv) && v == iv,
                Err(sp) => {
                    &&& self.inner matches Err(ie) && sp.inner == ie
                    &&& sp.src@ == self.src@ && sp.file == self.file
                    &&& sp.start == self.start && sp.end == self.end
                    &&& sp.hint == self.hint
                },
            },
            r is Ok <==> self.inner is Ok,
    {
        match self.inner {
            Ok(val) => Ok(val),
            Err(err) => Err(
                Span {
                    src: self.src,
                    file: self.file,
                    start: self.start,
                    end: self.end,
                    inner: err,
                    hint: self.hint,
                },
            ),
        }
    }
}

/// One overall parse failure: an ordered, non-empty list of labeled spans,
/// each pinpointing one sub-cause.
#[derive(Debug, Clone)]
pub struct ErrorDiagnose<'a, E> {
    /// The labeled source ranges, in the order they were found.
    pub errors: Vec<Span<'a, E>>,
}

impl<'a, E> ErrorDiagnose<'a, E> {
    /// Non-empty, and every span lies inside its source.
    pub open spec fn wf(self) -> bool {
        &&& self.errors.len() >= 1
        &&& forall|i: int| 0 <= i < self.errors@.len() ==> (#[trigger] self.errors@[i]).wf()
    }

    /// Wrap a single labeled span as a whole diagnostic.
    pub fn from_span(span: Span<'a, E>) -> (r: Self)
        ensures
            r.errors@.len() == 1,
            r.errors@[0] == span,
            span.wf() ==> r.wf(),
    {
        let mut errors = Vec::new();
        errors.push(span);
        ErrorDiagnose { errors }
    }

    /// Wrap an ordered collection of labeled spans as a whole diagnostic.
    pub fn from_spans(spans: Vec<Span<'a, E>>) -> (r: Self)
        requires
            spans@.len() >= 1,
        ensures
            r.errors@ == spans@,
            (forall|i: int| 0 <= i < spans@.len() ==> (#[trigger] spans@[i]).wf()) ==> r.wf(),
    {
        ErrorDiagnose { errors: spans }
    }
}

/// Soft failures may be backtracked: a sibling grammar alternative can still
/// match. Hard failures abort the alternatives and propagate up unchanged.
#[derive(Debug, Clone)]
pub enum ParseErr<'a, E> {
    /// Backtrackable failure.
    Soft(ErrorDiagnose<'a, E>),
    /// Failure that stops all further alternatives.
    Hard(ErrorDiagnose<'a, E>),
}

/// What every parser of the grammar returns: a new cursor plus the parsed
/// value, or a typed failure.
pub type ParseResult<'a, T, E> = Result<(InStr<'a>, T), ParseErr<'a, E>>;

} // verus!
