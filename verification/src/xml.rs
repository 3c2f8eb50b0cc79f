//! The XML cursor: a pull-style tokenizer over the capture tool's byte
//! stream.
//!
//! [`XmlCursor::next_event`] yields the document's flat event sequence —
//! element start, empty element, element end, text, end of input — one
//! event per call.  Declarations, processing instructions and comments are
//! consumed silently.  Attribute values are entity-unescaped.  Every event
//! and every error is pinned exactly by [`spec_next_event`]; errors carry
//! the byte offset at which the input went wrong.

use crate::text::utf8_is_valid;
use crate::text::utf8_to_string;
use vstd::prelude::*;
use vstd::slice::slice_subrange;
use vstd::slice::slice_to_vec;
use vstd::string::StringSliceAdditionalSpecFns;
use vstd::utf8::decode_utf8;
use vstd::utf8::valid_utf8;

verus! {

/// A typed parse failure, carrying the byte offset it arose at.
#[derive(Debug, Clone, Copy, PartialEq, Eq, Structural)]
pub enum ParseError {
    /// The input ended inside a construct that was still open.
    UnexpectedEof { offset: usize },
    /// A malformed construct.
    Malformed { offset: usize },
    /// A second `ip` block inside one packet.
    DuplicateIp { offset: usize },
    /// A `frame.time` value that does not follow the capture tool's
    /// timestamp format.
    BadTimestamp { offset: usize },
}

/// One attribute of an element, its value entity-unescaped.
#[derive(Debug, PartialEq, Eq)]
pub struct XmlAttr {
    pub name: Vec<u8>,
    pub value: Vec<u8>,
}

/// The mathematical shape of an attribute.
pub struct AttrModel {
    pub name: Seq<u8>,
    pub value: Seq<u8>,
}

impl View for XmlAttr {
    type V = AttrModel;

    open spec fn view(&self) -> AttrModel {
        AttrModel { name: self.name@, value: self.value@ }
    }
}

/// An element tag: its name and its attributes in document order.
#[derive(Debug, PartialEq, Eq)]
pub struct XmlTag {
    pub name: Vec<u8>,
    pub attrs: Vec<XmlAttr>,
}

/// The mathematical shape of a tag.
pub struct TagModel {
    pub name: Seq<u8>,
    pub attrs: Seq<AttrModel>,
}

impl View for XmlTag {
    type V = TagModel;

    open spec fn view(&self) -> TagModel {
        TagModel { name: self.name@, attrs: Seq::new(self.attrs@.len(), |i: int| self.attrs@[i]@) }
    }
}

/// One event of the flat document sequence.
#[derive(Debug, PartialEq, Eq)]
pub enum XmlEvent {
    /// `<name a="v" ...>`
    Start(XmlTag),
    /// `<name a="v" .../>`
    Empty(XmlTag),
    /// `</name>`
    End(Vec<u8>),
    /// A run of character data between tags, kept raw.
    Text(Vec<u8>),
    /// The end of the input, at the top level between tags.
    Eof,
}

/// The mathematical shape of an event.
pub enum EventModel {
    Start(TagModel),
    Empty(TagModel),
    End(Seq<u8>),
    Text(Seq<u8>),
    Eof,
}

impl View for XmlEvent {
    type V = EventModel;

    open spec fn view(&self) -> EventModel {
        match self {
            XmlEvent::Start(t) => EventModel::Start(t@),
            XmlEvent::Empty(t) => EventModel::Empty(t@),
            XmlEvent::End(n) => EventModel::End(n@),
            XmlEvent::Text(t) => EventModel::Text(t@),
            XmlEvent::Eof => EventModel::Eof,
        }
    }
}

/// XML whitespace: space, tab, line feed, carriage return.
pub open spec fn is_ws(b: u8) -> bool {
    b == 32 || b == 9 || b == 10 || b == 13
}

/// A byte that ends a name: whitespace, `>`, `/` or `=`.
pub open spec fn is_name_end(b: u8) -> bool {
    is_ws(b) || b == 62 || b == 47 || b == 61
}

/// The first position at or after `pos` holding `b`, if any.
pub open spec fn find_byte(data: Seq<u8>, pos: int, b: u8) -> Option<int>
    decreases data.len() - pos,
{
    if pos < 0 || pos >= data.len() {
        None
    } else if data[pos] == b {
        Some(pos)
    } else {
        find_byte(data, pos + 1, b)
    }
}

/// What [`find_byte`] returns: the first occurrence, within bounds.
pub proof fn lemma_find_byte(data: Seq<u8>, pos: int, b: u8)
    requires
        0 <= pos,
    ensures
        match find_byte(data, pos, b) {
            Some(i) => pos <= i < data.len() && data[i] == b && forall|j: int|
                pos <= j < i ==> data[j] != b,
            None => forall|j: int| pos <= j < data.len() ==> data[j] != b,
        },
    decreases data.len() - pos,
{
    if pos < data.len() && data[pos] != b {
        lemma_find_byte(data, pos + 1, b);
    }
}

/// The first position at or after `pos` that is not whitespace, or the
/// end of the input.
pub open spec fn skip_ws(data: Seq<u8>, pos: int) -> int
    decreases data.len() - pos,
{
    if pos < 0 || pos >= data.len() {
        pos
    } else if is_ws(data[pos]) {
        skip_ws(data, pos + 1)
    } else {
        pos
    }
}

/// What [`skip_ws`] returns: within bounds, everything skipped was
/// whitespace, and it stops on a non-whitespace byte.
pub proof fn lemma_skip_ws(data: Seq<u8>, pos: int)
    requires
        0 <= pos <= data.len(),
    ensures
        pos <= skip_ws(data, pos) <= data.len(),
        forall|j: int| pos <= j < skip_ws(data, pos) ==> is_ws(data[j]),
        skip_ws(data, pos) < data.len() ==> !is_ws(data[skip_ws(data, pos)]),
    decreases data.len() - pos,
{
    if pos < data.len() && is_ws(data[pos]) {
        lemma_skip_ws(data, pos + 1);
    }
}

/// The first position at or after `pos` that ends a name, or the end of
/// the input.
pub open spec fn scan_name_end(data: Seq<u8>, pos: int) -> int
    decreases data.len() - pos,
{
    if pos < 0 || pos >= data.len() {
        pos
    } else if is_name_end(data[pos]) {
        pos
    } else {
        scan_name_end(data, pos + 1)
    }
}

/// What [`scan_name_end`] returns: within bounds, everything before it is
/// a name byte, and it stops on a name-ending byte.
pub proof fn lemma_scan_name_end(data: Seq<u8>, pos: int)
    requires
        0 <= pos <= data.len(),
    ensures
        pos <= scan_name_end(data, pos) <= data.len(),
        forall|j: int| pos <= j < scan_name_end(data, pos) ==> !is_name_end(data[j]),
        scan_name_end(data, pos) < data.len() ==> is_name_end(data[scan_name_end(data, pos)]),
    decreases data.len() - pos,
{
    if pos < data.len() && !is_name_end(data[pos]) {
        lemma_scan_name_end(data, pos + 1);
    }
}

/// The bytes `data[pos..end]` with the five named XML entity references —
/// `&lt;` `&gt;` `&amp;` `&quot;` `&apos;` — replaced by the bytes they
/// stand for; an `&` that starts no such reference is kept as it stands.
pub open spec fn unescape(data: Seq<u8>, pos: int, end: int) -> Seq<u8>
    decreases end - pos,
{
    if pos < 0 || pos >= end {
        Seq::empty()
    } else if data[pos] == 38 && pos + 4 <= end && data[pos + 1] == 108 && data[pos + 2] == 116
        && data[pos + 3] == 59 {
        seq![60u8] + unescape(data, pos + 4, end)
    } else if data[pos] == 38 && pos + 4 <= end && data[pos + 1] == 103 && data[pos + 2] == 116
        && data[pos + 3] == 59 {
        seq![62u8] + unescape(data, pos + 4, end)
    } else if data[pos] == 38 && pos + 5 <= end && data[pos + 1] == 97 && data[pos + 2] == 109
        && data[pos + 3] == 112 && data[pos + 4] == 59 {
        seq![38u8] + unescape(data, pos + 5, end)
    } else if data[pos] == 38 && pos + 6 <= end && data[pos + 1] == 113 && data[pos + 2] == 117
        && data[pos + 3] == 111 && data[pos + 4] == 116 && data[pos + 5] == 59 {
        seq![34u8] + unescape(data, pos + 6, end)
    } else if data[pos] == 38 && pos + 6 <= end && data[pos + 1] == 97 && data[pos + 2] == 112
        && data[pos + 3] == 111 && data[pos + 4] == 115 && data[pos + 5] == 59 {
        seq![39u8] + unescape(data, pos + 6, end)
    } else {
        seq![data[pos]] + unescape(data, pos + 1, end)
    }
}

/// Parsing the attribute list of a start tag, from `pos` to the closing
/// `>` or `/>`: the attributes in document order, whether the element was
/// self-closing, and the position after the tag.
pub open spec fn spec_parse_attrs(data: Seq<u8>, pos: int) -> Result<
    (Seq<AttrModel>, bool, int),
    ParseError,
>
    recommends
        0 <= pos <= data.len(),
    decreases data.len() - pos,
{
    let p = skip_ws(data, pos);
    if pos < 0 || pos > data.len() {
        Err(ParseError::Malformed { offset: 0 })
    } else if p >= data.len() {
        Err(ParseError::UnexpectedEof { offset: data.len() as usize })
    } else if data[p] == 62 {
        Ok((Seq::empty(), false, p + 1))
    } else if data[p] == 47 {
        if p + 1 < data.len() && data[p + 1] == 62 {
            Ok((Seq::empty(), true, p + 2))
        } else {
            Err(ParseError::Malformed { offset: p as usize })
        }
    } else {
        let ne = scan_name_end(data, p);
        if ne == p {
            Err(ParseError::Malformed { offset: p as usize })
        } else {
            let q = skip_ws(data, ne);
            if q >= data.len() {
                Err(ParseError::UnexpectedEof { offset: data.len() as usize })
            } else if data[q] != 61 {
                Err(ParseError::Malformed { offset: q as usize })
            } else {
                let v = skip_ws(data, q + 1);
                if v >= data.len() {
                    Err(ParseError::UnexpectedEof { offset: data.len() as usize })
                } else if data[v] != 34 && data[v] != 39 {
                    Err(ParseError::Malformed { offset: v as usize })
                } else {
                    match find_byte(data, v + 1, data[v]) {
                        None => Err(ParseError::UnexpectedEof { offset: data.len() as usize }),
                        Some(e) => {
                            let attr = AttrModel {
                                name: data.subrange(p, ne),
                                value: unescape(data, v + 1, e),
                            };
                            proof {
                                lemma_skip_ws(data, pos);
                                lemma_scan_name_end(data, p);
                                lemma_skip_ws(data, ne);
                                lemma_skip_ws(data, q + 1);
                                lemma_find_byte(data, v + 1, data[v]);
                            }
                            match spec_parse_attrs(data, e + 1) {
                                Ok((rest, self_closing, p2)) => Ok(
                                    (seq![attr] + rest, self_closing, p2),
                                ),
                                Err(x) => Err(x),
                            }
                        },
                    }
                }
            }
        }
    }
}

/// The next event of the document at byte position `pos`, and the
/// position after it, or the error that stops tokenization there.
/// Declarations, processing instructions and comments (`<?...>`,
/// `<!...>`) are skipped.
pub open spec fn spec_next_event(data: Seq<u8>, pos: int) -> Result<
    (EventModel, int),
    ParseError,
>
    recommends
        0 <= pos <= data.len(),
    decreases data.len() - pos,
{
    if pos < 0 || pos > data.len() {
        Err(ParseError::Malformed { offset: 0 })
    } else if pos >= data.len() {
        Ok((EventModel::Eof, pos))
    } else if data[pos] != 60 {
        let end = match find_byte(data, pos, 60) {
            Some(i) => i,
            None => data.len() as int,
        };
        Ok((EventModel::Text(data.subrange(pos, end)), end))
    } else if pos + 1 >= data.len() {
        Err(ParseError::UnexpectedEof { offset: data.len() as usize })
    } else if data[pos + 1] == 47 {
        let ns = pos + 2;
        let ne = scan_name_end(data, ns);
        if ne == ns {
            Err(ParseError::Malformed { offset: pos as usize })
        } else {
            let p2 = skip_ws(data, ne);
            if p2 >= data.len() {
                Err(ParseError::UnexpectedEof { offset: data.len() as usize })
            } else if data[p2] == 62 {
                Ok((EventModel::End(data.subrange(ns, ne)), p2 + 1))
            } else {
                Err(ParseError::Malformed { offset: p2 as usize })
            }
        }
    } else if data[pos + 1] == 63 || data[pos + 1] == 33 {
        match find_byte(data, pos + 2, 62) {
            None => Err(ParseError::UnexpectedEof { offset: data.len() as usize }),
            Some(g) => {
                proof {
                    lemma_find_byte(data, pos + 2, 62);
                }
                spec_next_event(data, g + 1)
            },
        }
    } else {
        let ns = pos + 1;
        let ne = scan_name_end(data, ns);
        if ne == ns {
            Err(ParseError::Malformed { offset: pos as usize })
        } else {
            match spec_parse_attrs(data, ne) {
                Err(x) => Err(x),
                Ok((attrs, self_closing, p2)) => {
                    let tag = TagModel { name: data.subrange(ns, ne), attrs };
                    if self_closing {
                        Ok((EventModel::Empty(tag), p2))
                    } else {
                        Ok((EventModel::Start(tag), p2))
                    }
                },
            }
        }
    }
}

/// Tokenization makes progress: a successful event other than end of
/// input strictly advances the position, and never past the end.
pub proof fn lemma_next_event_progress(data: Seq<u8>, pos: int)
    requires
        0 <= pos <= data.len(),
    ensures
        match spec_next_event(data, pos) {
            Ok((ev, p2)) => pos <= p2 <= data.len() && (!(ev is Eof) ==> p2 > pos),
            Err(_) => true,
        },
    decreases data.len() - pos,
{
    lemma_parse_attrs_progress(data, pos);
    if pos < data.len() && data[pos] == 60 && pos + 1 < data.len() {
        if data[pos + 1] == 47 {
            lemma_scan_name_end(data, pos + 2);
            lemma_skip_ws(data, scan_name_end(data, pos + 2));
        } else if data[pos + 1] == 63 || data[pos + 1] == 33 {
            lemma_find_byte(data, pos + 2, 62);
            match find_byte(data, pos + 2, 62) {
                Some(g) => {
                    lemma_next_event_progress(data, g + 1);
                },
                None => {},
            }
        } else {
            lemma_scan_name_end(data, pos + 1);
            let ne = scan_name_end(data, pos + 1);
            lemma_parse_attrs_progress(data, ne);
        }
    } else if pos < data.len() && data[pos] != 60 {
        lemma_find_byte(data, pos, 60);
    }
}

/// Where a scan that found `b` at `i`, with nothing before it, must have
/// started returning from.
proof fn lemma_find_byte_at(data: Seq<u8>, pos: int, i: int, b: u8)
    requires
        0 <= pos <= i < data.len(),
        data[i] == b,
        forall|j: int| pos <= j < i ==> data[j] != b,
    ensures
        find_byte(data, pos, b) == Some(i),
    decreases i - pos,
{
    if pos < i {
        lemma_find_byte_at(data, pos + 1, i, b);
    }
}

/// A position preceded only by whitespace, and itself none (or the end),
/// is where whitespace skipping stops.
proof fn lemma_skip_ws_at(data: Seq<u8>, pos: int, i: int)
    requires
        0 <= pos <= i <= data.len(),
        forall|j: int| pos <= j < i ==> is_ws(data[j]),
        i < data.len() ==> !is_ws(data[i]),
    ensures
        skip_ws(data, pos) == i,
    decreases i - pos,
{
    if pos < i {
        lemma_skip_ws_at(data, pos + 1, i);
    }
}

/// A position preceded only by name bytes, and itself a name-ending byte
/// (or the end), is where a name scan stops.
proof fn lemma_scan_name_end_at(data: Seq<u8>, pos: int, i: int)
    requires
        0 <= pos <= i <= data.len(),
        forall|j: int| pos <= j < i ==> !is_name_end(data[j]),
        i < data.len() ==> is_name_end(data[i]),
    ensures
        scan_name_end(data, pos) == i,
    decreases i - pos,
{
    if pos < i {
        lemma_scan_name_end_at(data, pos + 1, i);
    }
}

/// Finds the first occurrence of `b` at or after `from`.
fn find_byte_exec(data: &Vec<u8>, from: usize, b: u8) -> (r: Option<usize>)
    requires
        from <= data@.len(),
    ensures
        (match r {
            Some(i) => Some(i as int),
            None => None,
        }) == find_byte(data@, from as int, b),
        match r {
            Some(i) => from <= i < data@.len(),
            None => true,
        },
{
    let mut i: usize = from;
    while i < data.len()
        invariant
            from <= i <= data@.len(),
            forall|j: int| from <= j < i ==> data@[j] != b,
        decreases data@.len() - i,
    {
        if data[i] == b {
            proof {
                lemma_find_byte_at(data@, from as int, i as int, b);
            }
            return Some(i);
        }
        i = i + 1;
    }
    proof {
        lemma_find_byte(data@, from as int, b);
        if find_byte(data@, from as int, b) is Some {
            let w = find_byte(data@, from as int, b)->0;
            assert(data@[w] == b);
        }
    }
    None
}

/// Skips XML whitespace from `from` on.
fn skip_ws_exec(data: &Vec<u8>, from: usize) -> (r: usize)
    requires
        from <= data@.len(),
    ensures
        r as int == skip_ws(data@, from as int),
        from <= r <= data@.len(),
{
    let mut i: usize = from;
    while i < data.len()
        invariant
            from <= i <= data@.len(),
            forall|j: int| from <= j < i ==> is_ws(data@[j]),
        decreases data@.len() - i,
    {
        let c = data[i];
        if !(c == 32 || c == 9 || c == 10 || c == 13) {
            proof {
                lemma_skip_ws_at(data@, from as int, i as int);
            }
            return i;
        }
        i = i + 1;
    }
    proof {
        lemma_skip_ws_at(data@, from as int, i as int);
    }
    i
}

/// Scans to the byte that ends a name started at `from`.
fn scan_name_end_exec(data: &Vec<u8>, from: usize) -> (r: usize)
    requires
        from <= data@.len(),
    ensures
        r as int == scan_name_end(data@, from as int),
        from <= r <= data@.len(),
{
    let mut i: usize = from;
    while i < data.len()
        invariant
            from <= i <= data@.len(),
            forall|j: int| from <= j < i ==> !is_name_end(data@[j]),
        decreases data@.len() - i,
    {
        let c = data[i];
        if c == 32 || c == 9 || c == 10 || c == 13 || c == 62 || c == 47 || c == 61 {
            proof {
                lemma_scan_name_end_at(data@, from as int, i as int);
            }
            return i;
        }
        i = i + 1;
    }
    proof {
        lemma_scan_name_end_at(data@, from as int, i as int);
    }
    i
}

/// Copies `data[from..to]` into an owned vector.
fn copy_range(data: &Vec<u8>, from: usize, to: usize) -> (out: Vec<u8>)
    requires
        from <= to <= data@.len(),
    ensures
        out@ == data@.subrange(from as int, to as int),
{
    slice_to_vec(slice_subrange(data.as_slice(), from, to))
}

/// Replaces the five named entity references in `data[from..end]`.
fn unescape_exec(data: &Vec<u8>, from: usize, end: usize) -> (out: Vec<u8>)
    requires
        from <= end <= data@.len(),
    ensures
        out@ == unescape(data@, from as int, end as int),
{
    let mut out: Vec<u8> = Vec::new();
    let mut i: usize = from;
    while i < end
        invariant
            from <= i <= end <= data@.len(),
            unescape(data@, from as int, end as int) == out@ + unescape(
                data@,
                i as int,
                end as int,
            ),
        decreases end - i,
    {
        let b = data[i];
        if b == 38 && end - i >= 4 && data[i + 1] == 108 && data[i + 2] == 116 && data[i + 3]
            == 59 {
            out.push(60);
            i = i + 4;
        } else if b == 38 && end - i >= 4 && data[i + 1] == 103 && data[i + 2] == 116 && data[i
            + 3] == 59 {
            out.push(62);
            i = i + 4;
        } else if b == 38 && end - i >= 5 && data[i + 1] == 97 && data[i + 2] == 109 && data[i + 3]
            == 112 && data[i + 4] == 59 {
            out.push(38);
            i = i + 5;
        } else if b == 38 && end - i >= 6 && data[i + 1] == 113 && data[i + 2] == 117 && data[i
            + 3] == 111 && data[i + 4] == 116 && data[i + 5] == 59 {
            out.push(34);
            i = i + 6;
        } else if b == 38 && end - i >= 6 && data[i + 1] == 97 && data[i + 2] == 112 && data[i + 3]
            == 111 && data[i + 4] == 115 && data[i + 5] == 59 {
            out.push(39);
            i = i + 6;
        } else {
            out.push(b);
            i = i + 1;
        }
        proof {
            assert(unescape(data@, from as int, end as int) =~= out@ + unescape(
                data@,
                i as int,
                end as int,
            ));
        }
    }
    out
}

/// The continuation of attribute parsing: attributes already taken,
/// prefixed to whatever the rest of the tag yields.
pub open spec fn attrs_cont(
    acc: Seq<AttrModel>,
    r: Result<(Seq<AttrModel>, bool, int), ParseError>,
) -> Result<(Seq<AttrModel>, bool, int), ParseError> {
    match r {
        Ok((rest, self_closing, p2)) => Ok((acc + rest, self_closing, p2)),
        Err(x) => Err(x),
    }
}

/// Parses a start tag's attribute list, as [`spec_parse_attrs`] describes.
#[verifier::loop_isolation(false)]
fn parse_attrs_exec(data: &Vec<u8>, from: usize) -> (r: Result<
    (Vec<XmlAttr>, bool, usize),
    ParseError,
>)
    requires
        from <= data@.len(),
    ensures
        match r {
            Ok((attrs, self_closing, p2)) => spec_parse_attrs(data@, from as int) == Ok::<
                (Seq<AttrModel>, bool, int),
                ParseError,
            >((Seq::new(attrs@.len(), |i: int| attrs@[i]@), self_closing, p2 as int)) && p2
                <= data@.len(),
            Err(e) => spec_parse_attrs(data@, from as int) == Err::<
                (Seq<AttrModel>, bool, int),
                ParseError,
            >(e),
        },
{
    let mut attrs: Vec<XmlAttr> = Vec::new();
    let mut cur = from;
    loop
        invariant
            from <= cur <= data@.len(),
            attrs_cont(
                Seq::new(attrs@.len(), |i: int| attrs@[i]@),
                spec_parse_attrs(data@, cur as int),
            ) == spec_parse_attrs(data@, from as int),
        decreases data@.len() - cur,
    {
        let ghost accv = Seq::new(attrs@.len(), |i: int| attrs@[i]@);
        let p = skip_ws_exec(data, cur);
        if p >= data.len() {
            return Err(ParseError::UnexpectedEof { offset: data.len() });
        }
        let b = data[p];
        if b == 62 {
            proof {
                assert(accv + Seq::<AttrModel>::empty() =~= accv);
            }
            return Ok((attrs, false, p + 1));
        }
        if b == 47 {
            if p + 1 < data.len() && data[p + 1] == 62 {
                proof {
                    assert(accv + Seq::<AttrModel>::empty() =~= accv);
                }
                return Ok((attrs, true, p + 2));
            }
            return Err(ParseError::Malformed { offset: p });
        }
        let ne = scan_name_end_exec(data, p);
        if ne == p {
            return Err(ParseError::Malformed { offset: p });
        }
        let q = skip_ws_exec(data, ne);
        if q >= data.len() {
            return Err(ParseError::UnexpectedEof { offset: data.len() });
        }
        if data[q] != 61 {
            return Err(ParseError::Malformed { offset: q });
        }
        let v = skip_ws_exec(data, q + 1);
        if v >= data.len() {
            return Err(ParseError::UnexpectedEof { offset: data.len() });
        }
        let quote = data[v];
        if quote != 34 && quote != 39 {
            return Err(ParseError::Malformed { offset: v });
        }
        match find_byte_exec(data, v + 1, quote) {
            None => {
                return Err(ParseError::UnexpectedEof { offset: data.len() });
            },
            Some(e) => {
                let name = copy_range(data, p, ne);
                let value = unescape_exec(data, v + 1, e);
                attrs.push(XmlAttr { name, value });
                proof {
                    let a = AttrModel {
                        name: data@.subrange(p as int, ne as int),
                        value: unescape(data@, v as int + 1, e as int),
                    };
                    assert(Seq::new(attrs@.len(), |i: int| attrs@[i]@) =~= accv.push(a));
                    match spec_parse_attrs(data@, e as int + 1) {
                        Ok((rest, self_closing, p2)) => {
                            assert(accv.push(a) + rest =~= accv + (seq![a] + rest));
                        },
                        Err(_) => {},
                    }
                }
                cur = e + 1;
            },
        }
    }
}

/// The cursor: one instance reads one capture document, strictly
/// sequentially, from its first byte to end of input.
#[derive(Debug)]
pub struct XmlCursor {
    pub data: Vec<u8>,
    pub pos: usize,
}

impl XmlCursor {
    /// The cursor never stands past the end of its document.
    pub open spec fn wf(&self) -> bool {
        self.pos <= self.data@.len()
    }

    /// A cursor at the start of a document.
    pub fn new(data: Vec<u8>) -> (c: XmlCursor)
        ensures
            c.data@ == data@,
            c.pos == 0,
            c.wf(),
    {
        XmlCursor { data, pos: 0 }
    }

    /// The current byte offset, for error reports.
    pub fn offset(&self) -> (r: usize)
        ensures
            r == self.pos,
    {
        self.pos
    }

    /// Yields the document's next event and advances past it, or reports
    /// where the input goes wrong, exactly as [`spec_next_event`]
    /// describes.
    #[verifier::loop_isolation(false)]
    pub fn next_event(&mut self) -> (r: Result<XmlEvent, ParseError>)
        requires
            old(self).wf(),
        ensures
            final(self).data == old(self).data,
            final(self).wf(),
            match r {
                Ok(ev) => spec_next_event(old(self).data@, old(self).pos as int) == Ok::<
                    (EventModel, int),
                    ParseError,
                >((ev@, final(self).pos as int)),
                Err(e) => spec_next_event(old(self).data@, old(self).pos as int) == Err::<
                    (EventModel, int),
                    ParseError,
                >(e),
            },
    {
        loop
            invariant
                self.data == old(self).data,
                self.wf(),
                spec_next_event(old(self).data@, old(self).pos as int) == spec_next_event(
                    self.data@,
                    self.pos as int,
                ),
            decreases self.data@.len() - self.pos,
        {
            let n = self.data.len();
            if self.pos >= n {
                return Ok(XmlEvent::Eof);
            }
            let b = self.data[self.pos];
            if b != 60 {
                let end = match find_byte_exec(&self.data, self.pos, 60) {
                    Some(i) => i,
                    None => n,
                };
                let text = copy_range(&self.data, self.pos, end);
                self.pos = end;
                return Ok(XmlEvent::Text(text));
            }
            if self.pos + 1 >= n {
                return Err(ParseError::UnexpectedEof { offset: n });
            }
            let b1 = self.data[self.pos + 1];
            if b1 == 47 {
                let ns = self.pos + 2;
                let ne = scan_name_end_exec(&self.data, ns);
                if ne == ns {
                    return Err(ParseError::Malformed { offset: self.pos });
                }
                let p2 = skip_ws_exec(&self.data, ne);
                if p2 >= n {
                    return Err(ParseError::UnexpectedEof { offset: n });
                }
                if self.data[p2] == 62 {
                    let name = copy_range(&self.data, ns, ne);
                    self.pos = p2 + 1;
                    return Ok(XmlEvent::End(name));
                }
                return Err(ParseError::Malformed { offset: p2 });
            }
            if b1 == 63 || b1 == 33 {
                match find_byte_exec(&self.data, self.pos + 2, 62) {
                    Some(g) => {
                        self.pos = g + 1;
                    },
                    None => {
                        return Err(ParseError::UnexpectedEof { offset: n });
                    },
                }
            } else {
                let ns = self.pos + 1;
                let ne = scan_name_end_exec(&self.data, ns);
                if ne == ns {
                    return Err(ParseError::Malformed { offset: self.pos });
                }
                let name = copy_range(&self.data, ns, ne);
                match parse_attrs_exec(&self.data, ne) {
                    Ok((attrs, self_closing, p2)) => {
                        self.pos = p2;
                        let tag = XmlTag { name, attrs };
                        if self_closing {
                            return Ok(XmlEvent::Empty(tag));
                        }
                        return Ok(XmlEvent::Start(tag));
                    },
                    Err(e) => {
                        return Err(e);
                    },
                }
            }
        }
    }
}

/// Attribute lookup from position `i` on: the value of the first
/// attribute named `name`.
pub open spec fn attrs_value_from(attrs: Seq<AttrModel>, name: Seq<u8>, i: int) -> Option<Seq<u8>>
    decreases attrs.len() - i,
{
    if i < 0 || i >= attrs.len() {
        None
    } else if attrs[i].name == name {
        Some(attrs[i].value)
    } else {
        attrs_value_from(attrs, name, i + 1)
    }
}

/// The value of the first attribute named `name`, if any.
pub open spec fn attr_value(t: TagModel, name: Seq<u8>) -> Option<Seq<u8>> {
    attrs_value_from(t.attrs, name, 0)
}

/// Whether two byte strings are equal.
fn bytes_eq(a: &[u8], b: &[u8]) -> (r: bool)
    ensures
        r == (a@ == b@),
{
    if a.len() != b.len() {
        return false;
    }
    let mut i: usize = 0;
    while i < a.len()
        invariant
            i <= a@.len(),
            a@.len() == b@.len(),
            forall|j: int| 0 <= j < i ==> a@[j] == b@[j],
        decreases a@.len() - i,
    {
        if a[i] != b[i] {
            return false;
        }
        i = i + 1;
    }
    proof {
        assert(a@ =~= b@);
    }
    true
}

/// A decimal digit run's value, accumulated left to right.
pub open spec fn dec_value(v: Seq<u8>, i: int, acc: nat) -> nat
    decreases v.len() - i,
{
    if i < 0 || i >= v.len() {
        acc
    } else {
        dec_value(v, i + 1, (acc * 10 + (v[i] - 48)) as nat)
    }
}

/// Every byte is a decimal digit.
pub open spec fn all_digits(v: Seq<u8>) -> bool {
    forall|i: int| 0 <= i < v.len() ==> 48 <= #[trigger] v[i] <= 57
}

/// The number a byte string denotes: defined exactly on non-empty,
/// all-digit strings.
pub open spec fn parse_decimal(v: Seq<u8>) -> Option<nat> {
    if v.len() > 0 && all_digits(v) {
        Some(dec_value(v, 0, 0))
    } else {
        None
    }
}

/// Accumulating digits never shrinks the value.
proof fn lemma_dec_value_grows(v: Seq<u8>, i: int, acc: nat)
    requires
        all_digits(v),
    ensures
        dec_value(v, i, acc) >= acc,
    decreases v.len() - i,
{
    if 0 <= i < v.len() {
        lemma_dec_value_grows(v, i + 1, (acc * 10 + (v[i] - 48)) as nat);
    }
}

/// Reads a decimal number capped at `max`; `None` when the text is empty,
/// holds a non-digit, or exceeds the cap.
fn parse_number_bytes(v: &[u8], max: u64) -> (r: Option<u64>)
    requires
        max <= 0xFFFF_FFFF,
    ensures
        match r {
            Some(x) => parse_decimal(v@) == Some(x as nat) && x <= max,
            None => parse_decimal(v@) is None || (parse_decimal(v@) matches Some(n) && n
                > max as nat),
        },
{
    if v.len() == 0 {
        return None;
    }
    let mut acc: u64 = 0;
    let mut i: usize = 0;
    while i < v.len()
        invariant
            i <= v@.len(),
            acc <= max,
            max <= 0xFFFF_FFFF,
            forall|j: int| 0 <= j < i ==> 48 <= #[trigger] v@[j] <= 57,
            all_digits(v@) ==> dec_value(v@, 0, 0) == dec_value(v@, i as int, acc as nat),
        decreases v@.len() - i,
    {
        let b = v[i];
        if !(48 <= b && b <= 57) {
            assert(!all_digits(v@));
            return None;
        }
        if acc > max / 10 {
            proof {
                if all_digits(v@) {
                    lemma_dec_value_grows(v@, i as int + 1, (acc * 10 + (b - 48)) as nat);
                }
            }
            return None;
        }
        let next = acc * 10 + (b - 48) as u64;
        if next > max {
            proof {
                if all_digits(v@) {
                    lemma_dec_value_grows(v@, i as int + 1, next as nat);
                }
            }
            return None;
        }
        acc = next;
        i = i + 1;
    }
    Some(acc)
}

/// Finds the first attribute named `name` on an element.
fn find_attr<'a>(e: &'a XmlTag, name: &[u8]) -> (r: Option<&'a XmlAttr>)
    ensures
        match r {
            Some(a) => attr_value(e@, name@) == Some(a@.value),
            None => attr_value(e@, name@) is None,
        },
{
    let mut i: usize = 0;
    while i < e.attrs.len()
        invariant
            i <= e.attrs@.len(),
            attrs_value_from(e@.attrs, name@, 0) == attrs_value_from(e@.attrs, name@, i as int),
        decreases e.attrs@.len() - i,
    {
        if bytes_eq(e.attrs[i].name.as_slice(), name) {
            return Some(&e.attrs[i]);
        }
        i = i + 1;
    }
    None
}

/// Attribute parsing makes progress and stays within bounds.
pub proof fn lemma_parse_attrs_progress(data: Seq<u8>, pos: int)
    requires
        0 <= pos <= data.len(),
    ensures
        match spec_parse_attrs(data, pos) {
            Ok((attrs, self_closing, p2)) => pos < p2 <= data.len(),
            Err(_) => true,
        },
    decreases data.len() - pos,
{
    lemma_skip_ws(data, pos);
    let p = skip_ws(data, pos);
    if p < data.len() && data[p] != 62 && data[p] != 47 {
        lemma_scan_name_end(data, p);
        let ne = scan_name_end(data, p);
        if ne != p {
            lemma_skip_ws(data, ne);
            let q = skip_ws(data, ne);
            if q < data.len() && data[q] == 61 {
                lemma_skip_ws(data, q + 1);
                let v = skip_ws(data, q + 1);
                if v < data.len() && (data[v] == 34 || data[v] == 39) {
                    lemma_find_byte(data, v + 1, data[v]);
                    match find_byte(data, v + 1, data[v]) {
                        Some(e) => {
                            lemma_parse_attrs_progress(data, e + 1);
                        },
                        None => {},
                    }
                }
            }
        }
    }
}

/// The text of the first attribute named `name`, decoded as UTF-8.  An
/// absent attribute and an undecodable value both yield `None`, never an
/// error: callers decide whether absence is fatal for their field.
pub open spec fn spec_attr_string(t: TagModel, name: Seq<u8>) -> Option<Seq<char>> {
    match attr_value(t, name) {
        Some(v) => if valid_utf8(v) {
            Some(decode_utf8(v))
        } else {
            None
        },
        None => None,
    }
}

/// Reads a named attribute of one element as text.
pub fn element_attr_val_string(e: &XmlTag, attr_name: &[u8]) -> (r: Option<String>)
    ensures
        match r {
            Some(s) => spec_attr_string(e@, attr_name@) == Some(s@),
            None => spec_attr_string(e@, attr_name@) is None,
        },
{
    match find_attr(e, attr_name) {
        Some(a) => {
            if utf8_is_valid(a.value.as_slice()) {
                Some(utf8_to_string(slice_to_vec(a.value.as_slice())))
            } else {
                None
            }
        },
        None => None,
    }
}

/// Reads a named attribute of one element as its raw (entity-unescaped)
/// bytes.
pub fn element_attr_val_bytes(e: &XmlTag, attr_name: &[u8]) -> (r: Option<Vec<u8>>)
    ensures
        match r {
            Some(v) => attr_value(e@, attr_name@) == Some(v@),
            None => attr_value(e@, attr_name@) is None,
        },
{
    match find_attr(e, attr_name) {
        Some(a) => Some(slice_to_vec(a.value.as_slice())),
        None => None,
    }
}

/// The number in the first attribute named `name`, when its text is a
/// decimal number no larger than `max`.  An absent attribute and an
/// unparseable or oversized value all yield `None`, never an error.
pub open spec fn spec_attr_number(t: TagModel, name: Seq<u8>, max: nat) -> Option<nat> {
    match attr_value(t, name) {
        Some(v) => match parse_decimal(v) {
            Some(x) => if x <= max {
                Some(x)
            } else {
                None
            },
            None => None,
        },
        None => None,
    }
}

/// Reads a named attribute of one element as a number.
pub fn element_attr_val_number(e: &XmlTag, attr_name: &[u8]) -> (r: Option<u32>)
    ensures
        match r {
            Some(x) => spec_attr_number(e@, attr_name@, 0xFFFF_FFFF) == Some(x as nat),
            None => spec_attr_number(e@, attr_name@, 0xFFFF_FFFF) is None,
        },
{
    match find_attr(e, attr_name) {
        Some(a) => match parse_number_bytes(a.value.as_slice(), 0xFFFF_FFFF) {
            Some(x) => Some(x as u32),
            None => None,
        },
        None => None,
    }
}

/// The bytes of a string literal, for naming elements and attributes in
/// contracts.
pub open spec fn lit_bytes(s: &str) -> Seq<u8> {
    s.spec_bytes()
}

/// Whether a name (for instance an end tag's) is exactly `s`.
pub fn name_is(n: &Vec<u8>, s: &str) -> (r: bool)
    ensures
        r == (n@ == lit_bytes(s)),
{
    bytes_eq(n.as_slice(), s.as_bytes())
}

/// Whether the element is named `name`.
pub fn tag_name_is(e: &XmlTag, name: &str) -> (r: bool)
    ensures
        r == (e@.name == lit_bytes(name)),
{
    bytes_eq(e.name.as_slice(), name.as_bytes())
}

/// Whether the element's `name` attribute is exactly `s` — how the
/// capture tool identifies a `proto` or `field` element's role.
pub fn field_name_is(e: &XmlTag, s: &str) -> (r: bool)
    ensures
        r == (attr_value(e@, lit_bytes("name")) == Some(lit_bytes(s))),
{
    match find_attr(e, "name".as_bytes()) {
        Some(a) => bytes_eq(a.value.as_slice(), s.as_bytes()),
        None => false,
    }
}

/// Reads a named attribute of one element as a port-sized number.
pub fn element_attr_val_number_u16(e: &XmlTag, attr_name: &[u8]) -> (r: Option<u16>)
    ensures
        match r {
            Some(x) => spec_attr_number(e@, attr_name@, 0xFFFF) == Some(x as nat),
            None => spec_attr_number(e@, attr_name@, 0xFFFF) is None,
        },
{
    match find_attr(e, attr_name) {
        Some(a) => match parse_number_bytes(a.value.as_slice(), 0xFFFF) {
            Some(x) => Some(x as u16),
            None => None,
        },
        None => None,
    }
}

} // verus!
