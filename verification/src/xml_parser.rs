//! Comments as an XML file of comments holds them: an element `d` whose
//! attribute `p` lists the comment's time and looks and whose text is the
//! comment.
use vstd::prelude::*;
use vstd::slice::slice_subrange;
use vstd::utf8::{decode_utf8, encode_utf8, valid_utf8};

use crate::danmu::{Danmu, DanmuType, DanmuView};
use crate::number::{bounded_of, find_byte, index_of, is_float, is_float_text, parse_u32};

verus! {

pub const COMMA: u8 = 0x2c;

/// Why the attribute `p` of a comment is refused.
#[derive(Debug, Clone, Copy, PartialEq, Eq, Structural)]
pub enum AttrError {
    /// The time is not the text of a floating-point number.
    BadTime,
    /// There is no type after the time.
    NoType,
    /// The type is no number.
    BadType,
    /// The type is a number that names no type.
    UnknownType(u32),
    /// There is no font size after the type.
    NoFontSize,
    /// The font size is no number.
    BadFontSize,
    /// There is no colour after the font size.
    NoColor,
    /// The colour is no number.
    BadColor,
    /// The colour is a number that names no colour.
    ColorOutOfRange(u32),
}

/// The type that a number names in the attribute `p`.
pub open spec fn type_of_num(num: u32) -> Option<DanmuType> {
    if num == 1 {
        Some(DanmuType::Float)
    } else if num == 4 {
        Some(DanmuType::Bottom)
    } else if num == 5 {
        Some(DanmuType::Top)
    } else if num == 6 {
        Some(DanmuType::Reverse)
    } else {
        None
    }
}

impl DanmuType {
    /// The type that `num` names: 1 scrolls, 4 is at the bottom, 5 at the
    /// top, 6 scrolls in reverse.
    pub fn from_xml_num(num: u32) -> (r: Result<DanmuType, AttrError>)
        ensures
            r == match type_of_num(num) {
                Some(t) => Ok::<DanmuType, AttrError>(t),
                None => Err(AttrError::UnknownType(num)),
            },
    {
        match num {
            1 => Ok(DanmuType::Float),
            4 => Ok(DanmuType::Bottom),
            5 => Ok(DanmuType::Top),
            6 => Ok(DanmuType::Reverse),
            _ => Err(AttrError::UnknownType(num)),
        }
    }
}

/// The colour that a number names. A number below 2^24 is `0xRRGGBB`. A
/// larger one up to 255255255 is read in base ten as `RRRGGGBBB`, each part
/// modulo 256.
pub open spec fn rgb_of(color: u32) -> Option<(u8, u8, u8)> {
    if color < 0x100_0000 {
        Some(((color / 0x1_0000) as u8, (color / 0x100 % 0x100) as u8, (color % 0x100) as u8))
    } else if color <= 255_255_255 {
        Some(
            (
                (color / 1_000_000 % 1000 % 0x100) as u8,
                (color / 1000 % 1000 % 0x100) as u8,
                (color % 1000 % 0x100) as u8,
            ),
        )
    } else {
        None
    }
}

/// The colour that `color` names, as `rgb_of` defines it.
pub fn decode_rgb(color: u32) -> (r: Option<(u8, u8, u8)>)
    ensures
        r == rgb_of(color),
{
    if color < 0x100_0000 {
        Some(((color / 0x1_0000) as u8, (color / 0x100 % 0x100) as u8, (color % 0x100) as u8))
    } else if color <= 255_255_255 {
        Some(
            (
                (color / 1_000_000 % 1000 % 0x100) as u8,
                (color / 1000 % 1000 % 0x100) as u8,
                (color % 1000 % 0x100) as u8,
            ),
        )
    } else {
        None
    }
}

/// What is left of a text, whose fields are separated by commas, after its
/// first `k` fields and the commas that end them. `None` where it has
/// fewer commas.
pub open spec fn rest_after(s: Seq<u8>, k: nat) -> Option<Seq<u8>>
    decreases k,
{
    if k == 0 {
        Some(s)
    } else {
        match rest_after(s, (k - 1) as nat) {
            Some(rest) => if index_of(rest, COMMA) < rest.len() {
                Some(rest.skip(index_of(rest, COMMA) + 1))
            } else {
                None
            },
            None => None,
        }
    }
}

/// The field of index `k` of a text whose fields are separated by commas.
pub open spec fn field(s: Seq<u8>, k: nat) -> Option<Seq<u8>> {
    match rest_after(s, k) {
        Some(rest) => Some(rest.take(index_of(rest, COMMA))),
        None => None,
    }
}

/// A field read as a `u32`.
pub open spec fn field_u32(s: Seq<u8>, k: nat) -> Option<u32> {
    match field(s, k) {
        Some(f) => match bounded_of(f, u32::MAX as nat) {
            Some(v) => Some(v as u32),
            None => None,
        },
        None => None,
    }
}

/// What the attribute `p` says of a comment. Its fields are the time in
/// seconds, the type, the font size and the colour; more may follow. The
/// time is the text of a floating-point number and is kept as it is
/// written. The fields are read in that order and the first fault is
/// reported. A type that no number names gives no comment and no error,
/// whatever follows it.
pub open spec fn attr_of(s: Seq<u8>) -> Result<Option<DanmuView>, AttrError> {
    if !is_float_text(field(s, 0)->0) {
        Err(AttrError::BadTime)
    } else if field(s, 1) is None {
        Err(AttrError::NoType)
    } else if field_u32(s, 1) is None {
        Err(AttrError::BadType)
    } else if type_of_num(field_u32(s, 1)->0) is None {
        Ok(None)
    } else if field(s, 2) is None {
        Err(AttrError::NoFontSize)
    } else if field_u32(s, 2) is None {
        Err(AttrError::BadFontSize)
    } else if field(s, 3) is None {
        Err(AttrError::NoColor)
    } else if field_u32(s, 3) is None {
        Err(AttrError::BadColor)
    } else if rgb_of(field_u32(s, 3)->0) is None {
        Err(AttrError::ColorOutOfRange(field_u32(s, 3)->0))
    } else {
        Ok(
            Some(
                DanmuView {
                    timeline_s: decode_utf8(field(s, 0)->0),
                    content: Seq::empty(),
                    kind: type_of_num(field_u32(s, 1)->0)->0,
                    fontsize: field_u32(s, 2)->0 as nat,
                    rgb: rgb_of(field_u32(s, 3)->0)->0,
                },
            ),
        )
    }
}

/// The view of what `from_xml_p_attr` returns.
pub open spec fn attr_view(r: Result<Option<Danmu>, AttrError>) -> Result<
    Option<DanmuView>,
    AttrError,
> {
    match r {
        Ok(Some(d)) => Ok(Some(d@)),
        Ok(None) => Ok(None),
        Err(e) => Err(e),
    }
}

/// Finds the end of the field of index `k`, which starts at `start`.
fn field_end(s: &[u8], start: usize, Ghost(k): Ghost<nat>) -> (end: usize)
    requires
        start <= s@.len(),
        rest_after(s@, k) == Some(s@.skip(start as int)),
    ensures
        start <= end <= s@.len(),
        end < s@.len() ==> s@[end as int] == COMMA,
        field(s@, k) == Some(s@.subrange(start as int, end as int)),
        end < s@.len() ==> rest_after(s@, k + 1) == Some(s@.skip(end + 1)),
        end == s@.len() ==> rest_after(s@, k + 1) is None && field(s@, k + 1) is None,
{
    let end: usize = find_byte(s, start, COMMA);
    proof {
        let rest = s@.skip(start as int);
        assert(rest.take(end - start) =~= s@.subrange(start as int, end as int));
        assert(rest_after(s@, (k + 1) as nat) == match rest_after(s@, k) {
            Some(rest) => if index_of(rest, COMMA) < rest.len() {
                Some(rest.skip(index_of(rest, COMMA) + 1))
            } else {
                None
            },
            None => None,
        });
        if end < s@.len() {
            assert(rest.skip(end - start + 1) =~= s@.skip(end + 1));
        }
    }
    end
}

/// Reads the field of index `k`, which starts at `start` and ends before
/// `end`, as a `u32`.
fn read_u32(s: &[u8], start: usize, end: usize, Ghost(k): Ghost<nat>) -> (r: Option<u32>)
    requires
        start <= end <= s@.len(),
        end < s@.len() ==> s@[end as int] == COMMA,
        field(s@, k) == Some(s@.subrange(start as int, end as int)),
    ensures
        r == field_u32(s@, k),
{
    parse_u32(slice_subrange(s, start, end))
}

impl Danmu {
    /// Reads the attribute `p` of a comment, such as
    /// `0.581,1,25,14893055,1647777083220,0,398452452,0`. The comment has
    /// no text yet. Its time is the first field as it is written, which is
    /// the text of a floating-point number.
    pub fn from_xml_p_attr(p_attr: &str) -> (r: Result<Option<Danmu>, AttrError>)
        ensures
            attr_view(r) == attr_of(encode_utf8(p_attr@)),
            r matches Ok(Some(d)) ==> is_float_text(encode_utf8(d.timeline_s@)),
    {
        let s = p_attr.as_bytes();
        let n: usize = s.len();
        proof {
            assert(s@.skip(0) =~= s@);
        }
        let end0: usize = field_end(s, 0, Ghost(0));
        if !is_float(slice_subrange(s, 0, end0)) {
            return Err(AttrError::BadTime);
        }
        proof {
            vstd::utf8::encode_utf8_valid_utf8(p_attr@);
            if end0 < n {
                assert(!vstd::utf8::is_continuation_byte(s@[end0 as int]));
                vstd::utf8::is_char_boundary_iff_not_is_continuation_byte(s@, end0 as int);
            } else {
                vstd::utf8::is_char_boundary_start_end_of_seq(s@);
            }
            assert(vstd::utf8::is_char_boundary(s@, end0 as int));
        }
        let timeline_s: String = p_attr.split_at(end0).0.to_owned();
        proof {
            vstd::utf8::encode_utf8_decode_utf8(timeline_s@);
        }
        if end0 == n {
            return Err(AttrError::NoType);
        }
        let end1: usize = field_end(s, end0 + 1, Ghost(1));
        let type_num: u32 = match read_u32(s, end0 + 1, end1, Ghost(1)) {
            Some(v) => v,
            None => {
                return Err(AttrError::BadType);
            },
        };
        let kind: DanmuType = match DanmuType::from_xml_num(type_num) {
            Ok(t) => t,
            Err(_) => {
                return Ok(None);
            },
        };
        if end1 == n {
            return Err(AttrError::NoFontSize);
        }
        let end2: usize = field_end(s, end1 + 1, Ghost(2));
        let fontsize: u32 = match read_u32(s, end1 + 1, end2, Ghost(2)) {
            Some(v) => v,
            None => {
                return Err(AttrError::BadFontSize);
            },
        };
        if end2 == n {
            return Err(AttrError::NoColor);
        }
        let end3: usize = field_end(s, end2 + 1, Ghost(3));
        let color: u32 = match read_u32(s, end2 + 1, end3, Ghost(3)) {
            Some(v) => v,
            None => {
                return Err(AttrError::BadColor);
            },
        };
        let rgb: (u8, u8, u8) = match decode_rgb(color) {
            Some(c) => c,
            None => {
                return Err(AttrError::ColorOutOfRange(color));
            },
        };
        Ok(Some(Danmu { timeline_s, content: String::new(), kind, fontsize, rgb }))
    }
}

/// Why the parser stops at an element.
#[derive(Debug, Clone, Copy, PartialEq, Eq, Structural)]
pub enum ParserError {
    /// An element `d` has no attribute `p`.
    MissingP,
    /// The attribute `p` or the text is not UTF-8.
    InvalidUtf8,
    /// The attribute `p` is refused.
    Attr(AttrError),
}

/// How far the parser is with the comment it reads.
#[derive(Debug)]
pub enum Status {
    /// It waits for an element `d`.
    Start,
    /// It has the attributes of the comment and waits for its text.
    AttrWaitForContent(Danmu),
    /// It has the whole comment and waits for the end of the element.
    WaitForEnd(Danmu),
}

/// The mathematical value of a `Status`.
pub enum StatusView {
    Start,
    AttrWaitForContent(DanmuView),
    WaitForEnd(DanmuView),
}

impl View for Status {
    type V = StatusView;

    open spec fn view(&self) -> StatusView {
        match *self {
            Status::Start => StatusView::Start,
            Status::AttrWaitForContent(d) => StatusView::AttrWaitForContent(d@),
            Status::WaitForEnd(d) => StatusView::WaitForEnd(d@),
        }
    }
}

/// What an event of the XML file brings.
#[derive(Debug)]
pub enum Step {
    /// Nothing yet: feed the next event.
    Pending,
    /// A comment.
    Item(Danmu),
    /// The file has ended.
    End,
    /// The file is faulty here.
    Failed(ParserError),
}

/// The mathematical value of a `Step`.
pub enum StepView {
    Pending,
    Item(DanmuView),
    End,
    Failed(ParserError),
}

impl View for Step {
    type V = StepView;

    open spec fn view(&self) -> StepView {
        match *self {
            Step::Pending => StepView::Pending,
            Step::Item(d) => StepView::Item(d@),
            Step::End => StepView::End,
            Step::Failed(e) => StepView::Failed(e),
        }
    }
}

/// Reads comments from the events of an XML file, which are fed to it one
/// by one.
#[derive(Debug)]
pub struct Parser {
    /// Comments given out so far; it stops counting at `u64::MAX`.
    pub count: u64,
    pub status: Status,
}

/// Whether `name` is the name `d` of the element of a comment.
pub open spec fn is_comment_name(name: Seq<u8>) -> bool {
    name == seq![0x64u8]
}

/// Whether `key` is the name `p` of the attribute of a comment.
pub open spec fn is_p_key(key: Seq<u8>) -> bool {
    key == seq![0x70u8]
}

/// `i` is the first attribute of `attributes` with the name `p`.
pub open spec fn is_first_p(attributes: Seq<(Vec<u8>, Vec<u8>)>, i: int) -> bool {
    &&& 0 <= i < attributes.len()
    &&& is_p_key(attributes[i].0@)
    &&& forall|j: int| 0 <= j < i ==> !is_p_key(#[trigger] attributes[j].0@)
}

/// The value of the first attribute with the name `p`, if there is one.
pub open spec fn p_value(attributes: Seq<(Vec<u8>, Vec<u8>)>) -> Option<Seq<u8>> {
    if exists|i: int| is_first_p(attributes, i) {
        Some(attributes[choose|i: int| is_first_p(attributes, i)].1@)
    } else {
        None
    }
}

/// What the start of an element brings, and the status it leaves. An
/// element other than `d` changes nothing. An element `d` starts a comment
/// from its attribute `p`; where the type of the comment is unknown, it is
/// passed over.
pub open spec fn after_start(status: StatusView, name: Seq<u8>, attributes: Seq<(Vec<u8>, Vec<u8>)>)
    -> (StatusView, StepView) {
    if !is_comment_name(name) {
        (status, StepView::Pending)
    } else {
        match p_value(attributes) {
            None => (StatusView::Start, StepView::Failed(ParserError::MissingP)),
            Some(value) => if !valid_utf8(value) {
                (StatusView::Start, StepView::Failed(ParserError::InvalidUtf8))
            } else {
                match attr_of(value) {
                    Ok(Some(d)) => (StatusView::AttrWaitForContent(d), StepView::Pending),
                    Ok(None) => (StatusView::Start, StepView::Pending),
                    Err(e) => (StatusView::Start, StepView::Failed(ParserError::Attr(e))),
                }
            },
        }
    }
}

/// What a text brings, and the status it leaves. A text that is not UTF-8
/// is a fault. The first text after the start of a comment is its content;
/// any other text changes nothing.
pub open spec fn after_text(status: StatusView, text: Seq<u8>) -> (StatusView, StepView) {
    if !valid_utf8(text) {
        (StatusView::Start, StepView::Failed(ParserError::InvalidUtf8))
    } else {
        match status {
            StatusView::AttrWaitForContent(d) => (
                StatusView::WaitForEnd(DanmuView { content: decode_utf8(text), ..d }),
                StepView::Pending,
            ),
            _ => (status, StepView::Pending),
        }
    }
}

/// What the end of an element brings, and the status it leaves. The end of
/// an element `d` gives out the comment, if it is whole; any other end
/// changes nothing.
pub open spec fn after_end(status: StatusView, name: Seq<u8>) -> (StatusView, StepView) {
    match status {
        StatusView::WaitForEnd(d) => if is_comment_name(name) {
            (StatusView::Start, StepView::Item(d))
        } else {
            (status, StepView::Pending)
        },
        _ => (status, StepView::Pending),
    }
}

/// Whether a file starts with a byte order mark, which is no part of its
/// text.
pub fn starts_with_bom(head: &[u8]) -> (r: bool)
    ensures
        r == (head@.len() >= 3 && head@[0] == 0xef && head@[1] == 0xbb && head@[2] == 0xbf),
{
    head.len() >= 3 && head[0] == 0xef && head[1] == 0xbb && head[2] == 0xbf
}

/// The text that `bytes` encode in UTF-8, if they do.
///
/// Calls `std::str::from_utf8`, which accepts exactly the byte sequences
/// that are valid UTF-8 and gives the text they encode.
#[verifier::external_body]
fn text_of(bytes: &[u8]) -> (r: Option<String>)
    ensures
        r is Some <==> valid_utf8(bytes@),
        r matches Some(s) ==> s@ == decode_utf8(bytes@),
{
    std::str::from_utf8(bytes).ok().map(|s| s.to_string())
}

/// The first attribute with the name `p`.
fn find_p(attributes: &Vec<(Vec<u8>, Vec<u8>)>) -> (r: Option<usize>)
    ensures
        r matches Some(i) ==> is_first_p(attributes@, i as int) && p_value(attributes@) == Some(
            attributes@[i as int].1@,
        ),
        r is None ==> p_value(attributes@) is None,
{
    let mut i: usize = 0;
    while i < attributes.len()
        invariant
            i <= attributes@.len(),
            forall|j: int| 0 <= j < i ==> !is_p_key(#[trigger] attributes@[j].0@),
        decreases attributes@.len() - i,
    {
        let key = &attributes[i].0;
        if key.len() == 1 && key[0] == 0x70 {
            proof {
                assert(key@ =~= seq![0x70u8]);
                let c = choose|c: int| is_first_p(attributes@, c);
                assert(is_first_p(attributes@, i as int));
                if c < i {
                    assert(!is_p_key(attributes@[c].0@));
                } else if i < c {
                    assert(!is_p_key(attributes@[i as int].0@));
                }
            }
            return Some(i);
        }
        proof {
            if is_p_key(key@) {
                assert(key@.len() == 1);
                assert(key@[0] == 0x70u8);
            }
        }
        i += 1;
    }
    None
}

/// Whether `name` is `d`.
fn is_d(name: &[u8]) -> (r: bool)
    ensures
        r == is_comment_name(name@),
{
    let r: bool = name.len() == 1 && name[0] == 0x64;
    proof {
        if r {
            assert(name@ =~= seq![0x64u8]);
        } else if is_comment_name(name@) {
            assert(name@.len() == 1);
            assert(name@[0] == 0x64u8);
        }
    }
    r
}

impl Parser {
    /// A parser that waits for the first comment.
    pub fn new() -> (r: Parser)
        ensures
            r.count == 0,
            r.status@ == StatusView::Start,
    {
        Parser { count: 0, status: Status::Start }
    }

    /// Feeds the start of an element, with its name and its attributes in
    /// the order of the file.
    pub fn on_start(&mut self, name: &[u8], attributes: &Vec<(Vec<u8>, Vec<u8>)>) -> (r: Step)
        ensures
            (final(self).status@, r@) == after_start(old(self).status@, name@, attributes@),
            final(self).count == old(self).count,
    {
        if !is_d(name) {
            return Step::Pending;
        }
        let at: usize = match find_p(attributes) {
            Some(i) => i,
            None => {
                self.status = Status::Start;
                return Step::Failed(ParserError::MissingP);
            },
        };
        let value: String = match text_of(attributes[at].1.as_slice()) {
            Some(v) => v,
            None => {
                self.status = Status::Start;
                return Step::Failed(ParserError::InvalidUtf8);
            },
        };
        proof {
            vstd::utf8::decode_utf8_encode_utf8(attributes@[at as int].1@);
        }
        match Danmu::from_xml_p_attr(value.as_str()) {
            Ok(Some(d)) => {
                self.status = Status::AttrWaitForContent(d);
                Step::Pending
            },
            Ok(None) => {
                self.status = Status::Start;
                Step::Pending
            },
            Err(e) => {
                self.status = Status::Start;
                Step::Failed(ParserError::Attr(e))
            },
        }
    }

    /// Feeds a text.
    pub fn on_text(&mut self, text: &[u8]) -> (r: Step)
        ensures
            (final(self).status@, r@) == after_text(old(self).status@, text@),
            final(self).count == old(self).count,
    {
        let content: String = match text_of(text) {
            Some(s) => s,
            None => {
                self.status = Status::Start;
                return Step::Failed(ParserError::InvalidUtf8);
            },
        };
        let mut status = Status::Start;
        std::mem::swap(&mut self.status, &mut status);
        match status {
            Status::AttrWaitForContent(d) => {
                let mut d = d;
                d.content = content;
                self.status = Status::WaitForEnd(d);
            },
            other => {
                self.status = other;
            },
        }
        Step::Pending
    }

    /// Feeds the end of an element, with its name.
    pub fn on_end(&mut self, name: &[u8]) -> (r: Step)
        ensures
            (final(self).status@, r@) == after_end(old(self).status@, name@),
            final(self).count == (if r is Item && old(self).count < u64::MAX {
                old(self).count + 1
            } else {
                old(self).count as int
            }),
    {
        if !is_d(name) {
            return Step::Pending;
        }
        let mut status = Status::Start;
        std::mem::swap(&mut self.status, &mut status);
        match status {
            Status::WaitForEnd(d) => {
                if self.count < u64::MAX {
                    self.count = self.count + 1;
                }
                Step::Item(d)
            },
            other => {
                self.status = other;
                Step::Pending
            },
        }
    }

    /// Gives up the comment that is being read, as after a fault of the
    /// file that the parser does not see.
    pub fn restart(&mut self)
        ensures
            final(self).status@ == StatusView::Start,
            final(self).count == old(self).count,
    {
        self.status = Status::Start;
    }

    /// Feeds the end of the file.
    pub fn on_eof(&mut self) -> (r: Step)
        ensures
            r is End,
            final(self).status@ == StatusView::Start,
            final(self).count == old(self).count,
    {
        self.status = Status::Start;
        Step::End
    }
}

} // verus!
