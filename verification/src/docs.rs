//! Cutting one section out of a reference page: the decisions taken event by
//! event while the page's markup is streamed past, and the text helpers
//! around them.

use vstd::prelude::*;
use vstd::string::*;
use crate::text::same_text;

verus! {

/// What the filter needs to know of one markup event.
pub enum DocEvent {
    /// A heading of the given level opens.
    HeadingStart(u32),
    /// A heading closes.
    HeadingEnd,
    /// A link opens.
    LinkStart,
    /// A link closes.
    LinkEnd,
    /// Plain text or inline code.
    Text(String),
    /// Anything else.
    Other,
}

/// The mathematical content of a [`DocEvent`].
pub enum DocEventView {
    HeadingStart(u32),
    HeadingEnd,
    LinkStart,
    LinkEnd,
    Text(Seq<char>),
    Other,
}

impl View for DocEvent {
    type V = DocEventView;

    open spec fn view(&self) -> DocEventView {
        match self {
            DocEvent::HeadingStart(level) => DocEventView::HeadingStart(*level),
            DocEvent::HeadingEnd => DocEventView::HeadingEnd,
            DocEvent::LinkStart => DocEventView::LinkStart,
            DocEvent::LinkEnd => DocEventView::LinkEnd,
            DocEvent::Text(t) => DocEventView::Text(t@),
            DocEvent::Other => DocEventView::Other,
        }
    }
}

/// What to do with an event.
#[derive(Clone, Copy, Debug, PartialEq, Eq, Structural)]
pub enum Verdict {
    /// Leave the event out.
    Drop,
    /// Pass the event on as it is.
    Keep,
    /// Pass on the opening of a reference link without target or title.
    KeepAsReferenceStart,
    /// Pass on the closing of a reference link that keeps only the title.
    KeepAsReferenceEnd,
}

/// The filter's memory between events.
pub struct SectionFilter {
    /// Whether events are being passed on.
    pub recording: bool,
    /// The level of the heading that was opened last while not recording.
    pub match_level: u32,
    /// The text gathered since the last heading or link opened, if any.
    pub last: Option<String>,
}

/// The mathematical content of a [`SectionFilter`].
pub struct FilterState {
    pub recording: bool,
    pub match_level: u32,
    pub last: Option<Seq<char>>,
}

impl View for SectionFilter {
    type V = FilterState;

    open spec fn view(&self) -> FilterState {
        FilterState {
            recording: self.recording,
            match_level: self.match_level,
            last: match self.last {
                Some(t) => Some(t@),
                None => None,
            },
        }
    }
}

/// Whether the two characters at `i` open an explicit heading id.
pub open spec fn marker_at(t: Seq<char>, i: int) -> bool {
    0 <= i && i + 1 < t.len() && t[i] == '{' && t[i + 1] == '#'
}

/// Whether `i` is the first place where an explicit heading id opens.
pub open spec fn first_marker(t: Seq<char>, i: int) -> bool {
    marker_at(t, i) && forall|j: int| 0 <= j < i ==> !marker_at(t, j)
}

/// Whether the heading text carries an explicit id: it ends in a closing
/// brace and holds an opening marker.
pub open spec fn has_explicit_id(t: Seq<char>) -> bool {
    t.len() > 0 && t.last() == '}' && exists|i: int| marker_at(t, i)
}

/// The explicit id of a heading text that carries one: what stands between
/// the first opening marker and the closing brace at the end.
pub open spec fn explicit_id(t: Seq<char>) -> Seq<char> {
    let i = choose|i: int| first_marker(t, i);
    t.subrange(i + 2, t.len() - 1)
}

/// The slug that `slug::slugify` makes of a text.
pub uninterp spec fn slugified(t: Seq<char>) -> Seq<char>;

/// Trusted: `slug::slugify`. The result is a function of the text alone;
/// nothing else is claimed of it.
#[verifier::external_body]
pub(crate) fn slug_of(text: &str) -> (r: String)
    ensures
        r@ == slugified(text@),
{
    slug::slugify(text)
}

/// The id under which a heading is addressed: its explicit id if it carries
/// one, the slug of its text otherwise.
pub open spec fn heading_id(t: Seq<char>) -> Seq<char> {
    if has_explicit_id(t) {
        explicit_id(t)
    } else {
        slugified(t)
    }
}

/// Reads the explicit id off a heading text, if it carries one.
pub fn read_explicit_id(text: &str) -> (r: Option<String>)
    ensures
        r is Some == has_explicit_id(text@),
        r is Some ==> r->0@ == explicit_id(text@),
{
    let n = text.unicode_len();
    if n == 0 || text.get_char(n - 1) != '}' {
        return None;
    }
    let mut i: usize = 0;
    while i + 1 < n
        invariant
            n == text@.len(),
            0 < n,
            i < n,
            text@.last() == '}',
            forall|j: int| 0 <= j < i ==> !marker_at(text@, j),
        decreases n - i,
    {
        if text.get_char(i) == '{' && text.get_char(i + 1) == '#' {
            proof {
                assert(first_marker(text@, i as int));
                let picked = choose|k: int| first_marker(text@, k);
                assert(picked == i) by {
                    if picked < i {
                        assert(!marker_at(text@, picked));
                    }
                    if i < picked {
                        assert(marker_at(text@, i as int));
                    }
                }
            }
            let id = text.substring_char(i + 2, n - 1);
            return Some(id.to_owned());
        }
        i += 1;
    }
    None
}

/// The id under which the heading with the given text is addressed.
pub fn read_heading_id(text: &str) -> (r: String)
    ensures
        r@ == heading_id(text@),
{
    match read_explicit_id(text) {
        Some(id) => id,
        None => slug_of(text),
    }
}

/// The verdict on an event that is passed on only while recording.
pub open spec fn keep_while(recording: bool) -> Verdict {
    if recording {
        Verdict::Keep
    } else {
        Verdict::Drop
    }
}

/// One move of the filter. `matches` says whether the heading that is
/// closing is the one sought; it matters only when a heading closes while
/// text is being gathered.
///
/// Recording starts when the sought heading closes, and stops when a
/// heading of the same level as the last one opened outside recording
/// opens. While recording, everything but those headings is passed on, and
/// links are turned into bare reference links. Text is gathered from the
/// opening of a heading or link until the next heading closes.
pub open spec fn advanced(s: FilterState, e: DocEventView, matches: bool) -> (FilterState, Verdict) {
    match e {
        DocEventView::HeadingStart(level) => if s.recording {
            if s.match_level == level {
                (FilterState { recording: false, ..s }, Verdict::Drop)
            } else {
                (s, Verdict::Keep)
            }
        } else {
            (FilterState { match_level: level, last: Some(Seq::empty()), ..s }, Verdict::Drop)
        },
        DocEventView::HeadingEnd => if s.last is Some {
            (FilterState { recording: s.recording || matches, last: None, ..s }, Verdict::Drop)
        } else {
            (s, keep_while(s.recording))
        },
        DocEventView::LinkStart => (
            FilterState { last: Some(Seq::empty()), ..s },
            if s.recording {
                Verdict::KeepAsReferenceStart
            } else {
                Verdict::Drop
            },
        ),
        DocEventView::LinkEnd => (
            s,
            if s.recording {
                Verdict::KeepAsReferenceEnd
            } else {
                Verdict::Drop
            },
        ),
        DocEventView::Text(t) => (
            FilterState {
                last: match s.last {
                    Some(sofar) => Some(sofar + t),
                    None => None,
                },
                ..s
            },
            keep_while(s.recording),
        ),
        DocEventView::Other => (s, keep_while(s.recording)),
    }
}

/// Whether the text gathered so far names the section sought.
pub open spec fn names_section(s: FilterState, section: Seq<char>) -> bool {
    s.last is Some && heading_id(s.last->0) == section
}

impl SectionFilter {
    /// The filter before the first event: not recording, nothing gathered.
    pub fn new() -> (r: SectionFilter)
        ensures
            r@ == (FilterState { recording: false, match_level: 0, last: None }),
    {
        SectionFilter { recording: false, match_level: 0, last: None }
    }

    /// Makes one move, given whether the closing heading is the one sought.
    pub fn advance(&mut self, event: &DocEvent, matches: bool) -> (r: Verdict)
        ensures
            (final(self)@, r) == advanced(old(self)@, event@, matches),
    {
        let keep = if self.recording {
            Verdict::Keep
        } else {
            Verdict::Drop
        };
        match event {
            DocEvent::HeadingStart(level) => {
                if self.recording {
                    if self.match_level == *level {
                        self.recording = false;
                        Verdict::Drop
                    } else {
                        Verdict::Keep
                    }
                } else {
                    self.match_level = *level;
                    self.last = Some(String::new());
                    Verdict::Drop
                }
            },
            DocEvent::HeadingEnd => {
                if self.last.is_some() {
                    self.last = None;
                    if matches {
                        self.recording = true;
                    }
                    Verdict::Drop
                } else {
                    keep
                }
            },
            DocEvent::LinkStart => {
                self.last = Some(String::new());
                if self.recording {
                    Verdict::KeepAsReferenceStart
                } else {
                    Verdict::Drop
                }
            },
            DocEvent::LinkEnd => {
                if self.recording {
                    Verdict::KeepAsReferenceEnd
                } else {
                    Verdict::Drop
                }
            },
            DocEvent::Text(t) => {
                let gathered = self.last.take();
                match gathered {
                    Some(sofar) => {
                        self.last = Some(sofar.concat(t.as_str()));
                    },
                    None => {},
                }
                keep
            },
            DocEvent::Other => keep,
        }
    }

    /// Makes one move while looking for the section with the given id.
    pub fn step(&mut self, event: &DocEvent, section: &str) -> (r: Verdict)
        ensures
            (final(self)@, r) == advanced(old(self)@, event@, names_section(old(self)@, section@)),
    {
        let matches = match (event, &self.last) {
            (DocEvent::HeadingEnd, Some(text)) => {
                let id = read_heading_id(text.as_str());
                same_text(id.as_str(), section)
            },
            (DocEvent::HeadingEnd, None) => false,
            _ => false,
        };
        proof {
            let s = old(self)@;
            if event@ is HeadingEnd {
                assert(matches == names_section(s, section@));
            } else {
                assert(advanced(s, event@, matches) == advanced(s, event@, names_section(s, section@)));
            }
        }
        self.advance(event, matches)
    }
}

/// The text with every line after the first continued as a line of a block
/// comment: each line break is followed by a space, a star and a space.
pub open spec fn continued(t: Seq<char>) -> Seq<char>
    decreases t.len(),
{
    if t.len() == 0 {
        Seq::empty()
    } else if t.last() == '\n' {
        continued(t.drop_last()) + seq!['\n'] + " * "@
    } else {
        continued(t.drop_last()) + seq![t.last()]
    }
}

/// Continues every line after the first as a line of a block comment.
pub fn continue_lines(text: &str) -> (r: String)
    ensures
        r@ == continued(text@),
{
    let n = text.unicode_len();
    let mut out = String::new();
    let mut start: usize = 0;
    let mut i: usize = 0;
    assert(text@.take(0).len() == 0);
    assert(out@ + text@.subrange(0, 0) =~= continued(text@.take(0)));
    while i < n
        invariant
            n == text@.len(),
            start <= i <= n,
            out@ + text@.subrange(start as int, i as int) == continued(text@.take(i as int)),
        decreases n - i,
    {
        let c = text.get_char(i);
        proof {
            let longer = text@.take(i + 1);
            assert(longer.drop_last() =~= text@.take(i as int));
            assert(longer.last() == c);
            assert(text@.subrange(start as int, i + 1) =~= text@.subrange(start as int, i as int)
                + seq![c]);
        }
        if c == '\n' {
            let ghost before = out@;
            let ghost from = start as int;
            out.append(text.substring_char(start, i + 1));
            out.append(" * ");
            start = i + 1;
            proof {
                assert(text@.subrange(start as int, i + 1) =~= Seq::<char>::empty());
                assert(out@ + text@.subrange(start as int, i + 1) =~= (before + text@.subrange(
                    from,
                    i as int,
                )) + seq![c] + " * "@);
            }
        } else {
            assert(out@ + (text@.subrange(start as int, i as int) + seq![c]) =~= (out@
                + text@.subrange(start as int, i as int)) + seq![c]);
        }
        i += 1;
    }
    out.append(text.substring_char(start, n));
    assert(text@.take(n as int) =~= text@);
    out
}

/// Where the reference documentation is published.
pub open spec fn reference_root() -> Seq<char> {
    "\"https://www.boltzmann.dev/en/latest/docs/reference/"@
}

/// The quoted address of a section of a reference page: the page's name
/// without its last three characters (its extension), a hash sign and the
/// section's id.
pub open spec fn canonical(page: Seq<char>, section: Seq<char>) -> Seq<char> {
    reference_root() + page.subrange(0, page.len() - 3) + "#"@ + section + "\""@
}

/// Builds the quoted address of a section of a reference page.
pub fn canonical_link(page: &str, section: &str) -> (r: String)
    requires
        page@.len() >= 3,
    ensures
        r@ == canonical(page@, section@),
{
    let n = page.unicode_len();
    let stem = page.substring_char(0, n - 3);
    let root = "\"https://www.boltzmann.dev/en/latest/docs/reference/".to_owned();
    root.concat(stem).concat("#").concat(section).concat("\"")
}

} // verus!
