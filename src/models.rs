//! Rows of the three tables: jots, tags and the mappings between them.
use vstd::prelude::*;

use crate::ids::Uuid;
use crate::stardate::StarDate;
use crate::text::string_of;
use vstd::utf8::{decode_utf8, encode_utf8, valid_utf8};

verus! {

/// The content type of every jot written here.
pub open spec fn utf8_text_mime() -> Seq<char> {
    "text/plain; charset=utf-8"@
}

/// Relies on mime::TEXT_PLAIN_UTF_8, whose text form is `text/plain; charset=utf-8`.
#[verifier::external_body]
pub(crate) fn text_plain_utf_8() -> (r: String)
    ensures
        r@ == utf8_text_mime(),
{
    mime::TEXT_PLAIN_UTF_8.to_string()
}

/// The view of an optional identifier.
pub open spec fn opt_id(u: Option<Uuid>) -> Option<Seq<u8>> {
    match u {
        Some(v) => Some(v@),
        None => None,
    }
}

/// The views of a sequence of jot rows.
pub open spec fn jot_views(s: Seq<Jot>) -> Seq<JotView> {
    s.map_values(|j: Jot| j@)
}

/// The views of a sequence of tag rows.
pub open spec fn tag_views(s: Seq<Tag>) -> Seq<TagView> {
    s.map_values(|t: Tag| t@)
}

/// The views of a sequence of mapping rows.
pub open spec fn mapping_views(s: Seq<Mapping>) -> Seq<MappingView> {
    s.map_values(|m: Mapping| m@)
}

/// Relies on std::str::from_utf8: the text of the bytes where they are valid
/// UTF-8, else an error.
#[verifier::external_body]
fn decode_utf8_text(b: &[u8]) -> (r: Option<String>)
    ensures
        r is Some <==> valid_utf8(b@),
        r matches Some(s) ==> s@ == decode_utf8(b@),
{
    match std::str::from_utf8(b) {
        Ok(s) => Some(s.to_owned()),
        Err(_) => None,
    }
}

/// The lower-case hexadecimal digit of a value below 16.
pub open spec fn hex_digit(v: int) -> char {
    if v < 10 {
        (48 + v) as char
    } else {
        (87 + v) as char
    }
}

/// Two lower-case hexadecimal digits per byte, in order.
pub open spec fn hex_of(b: Seq<u8>) -> Seq<char>
    decreases b.len(),
{
    if b.len() == 0 {
        Seq::empty()
    } else {
        hex_of(b.drop_last()).push(hex_digit(b.last() as int / 16)).push(hex_digit(b.last() as int % 16))
    }
}

fn hex_digit_exec(v: u8) -> (r: char)
    requires
        v < 16,
    ensures
        r == hex_digit(v as int),
{
    if v < 10 {
        (48 + v) as char
    } else {
        (87 + v) as char
    }
}

/// The identifier in its simple form: 32 lower-case hexadecimal digits.
pub fn simple_text(u: &Uuid) -> (r: String)
    ensures
        r@ == hex_of(u@),
{
    let mut cs: Vec<char> = Vec::new();
    let mut i: usize = 0;
    assert(u@.subrange(0, 0) =~= Seq::<u8>::empty());
    while i < 16
        invariant
            0 <= i <= 16,
            u.bytes@.len() == 16,
            cs@ == hex_of(u@.subrange(0, i as int)),
        decreases 16 - i,
    {
        let b = u.bytes[i];
        assert(u@.subrange(0, i + 1).drop_last() =~= u@.subrange(0, i as int));
        cs.push(hex_digit_exec(b / 16));
        cs.push(hex_digit_exec(b % 16));
        i = i + 1;
    }
    assert(u@.subrange(0, 16) =~= u@);
    string_of(cs.as_slice())
}

/// The decimal digits of a natural number.
pub open spec fn digits_of(n: nat) -> Seq<char>
    decreases n,
{
    if n < 10 {
        seq![(48 + n) as char]
    } else {
        digits_of(n / 10).push((48 + n % 10) as char)
    }
}

/// An integer in decimal, with a minus sign where it is negative.
pub open spec fn decimal_of(n: int) -> Seq<char> {
    if n < 0 {
        seq!['-'] + digits_of((-n) as nat)
    } else {
        digits_of(n as nat)
    }
}

/// Relies on i32's Display (through to_string): the number in decimal, with
/// a minus sign where it is negative.
#[verifier::external_body]
fn int_text(n: i32) -> (r: String)
    ensures
        r@ == decimal_of(n as int),
{
    n.to_string()
}

/// The first `n` bytes of `b`, or all of them.
pub open spec fn byte_prefix(b: Seq<u8>, n: int) -> Seq<u8> {
    if b.len() <= n {
        b
    } else {
        b.subrange(0, n)
    }
}

/// Line feeds as spaces.
pub open spec fn flat_bytes(b: Seq<u8>) -> Seq<u8> {
    b.map_values(|x: u8| if x == 10 { 32u8 } else { x })
}

/// The first `n` bytes of `b`, with line feeds as spaces where `flat`.
fn head_bytes(b: &[u8], n: usize, flat: bool) -> (r: Vec<u8>)
    ensures
        r@ == byte_prefix(if flat { flat_bytes(b@) } else { b@ }, n as int),
{
    let ghost t = if flat { flat_bytes(b@) } else { b@ };
    let mut out: Vec<u8> = Vec::new();
    let mut i: usize = 0;
    while i < b.len() && i < n
        invariant
            0 <= i <= b@.len(),
            i <= n,
            t == if flat { flat_bytes(b@) } else { b@ },
            out@ == t.subrange(0, i as int),
        decreases b@.len() - i,
    {
        let x = b[i];
        out.push(if flat && x == 10 { 32u8 } else { x });
        assert(out@ =~= t.subrange(0, i + 1));
        i = i + 1;
    }
    assert(t.len() == b@.len());
    assert(out@ =~= byte_prefix(t, n as int));
    out
}

/// An entry as the log parser or the command line hands it over.
#[derive(Clone, Debug)]
pub struct RawJot {
    pub content: String,
    pub creation_date: StarDate,
    pub tags: Vec<String>,
}

impl RawJot {
    /// The entry's tag texts.
    pub open spec fn tag_texts(self) -> Seq<Seq<char>> {
        self.tags@.map_values(|t: String| t@)
    }
}

/// A borrowed view of a jot's content and its content type.
pub struct Content<'j> {
    pub bytes: &'j [u8],
    pub mime_type: &'j str,
}

/// A row of the jot table.
#[derive(Clone, Debug)]
pub struct Jot {
    pub jot_id: Uuid,
    pub jot_creation_date: Option<StarDate>,
    pub jot_content: Vec<u8>,
    pub jot_content_type: String,
    pub device_id: Uuid,
    pub dup_id: Option<Uuid>,
}

pub struct JotView {
    pub jot_id: Seq<u8>,
    pub creation_date: Option<StarDate>,
    pub content: Seq<u8>,
    pub content_type: Seq<char>,
    pub device_id: Seq<u8>,
    pub dup_id: Option<Seq<u8>>,
}

impl View for Jot {
    type V = JotView;

    open spec fn view(&self) -> JotView {
        JotView {
            jot_id: self.jot_id@,
            creation_date: self.jot_creation_date,
            content: self.jot_content@,
            content_type: self.jot_content_type@,
            device_id: self.device_id@,
            dup_id: opt_id(self.dup_id),
        }
    }
}

impl Jot {
    pub fn new(
        jot_id: Uuid,
        jot_creation_date: Option<StarDate>,
        jot_content: Vec<u8>,
        jot_content_type: String,
        device_id: Uuid,
        dup_id: Option<Uuid>,
    ) -> (r: Jot)
        ensures
            r.jot_id == jot_id,
            r.jot_creation_date == jot_creation_date,
            r.jot_content == jot_content,
            r.jot_content_type == jot_content_type,
            r.device_id == device_id,
            r.dup_id == dup_id,
    {
        Jot { jot_id, jot_creation_date, jot_content, jot_content_type, device_id, dup_id }
    }

    pub fn created(&self) -> (r: Option<StarDate>)
        ensures
            r == self.jot_creation_date,
    {
        self.jot_creation_date
    }

    pub fn id(&self) -> (r: Uuid)
        ensures
            r == self.jot_id,
    {
        self.jot_id
    }

    /// The date part of the label or text: its RFC 3339 form, or `none` where
    /// the jot has no date.
    pub open spec fn date_text(self, none: Seq<char>) -> Seq<char> {
        match self.jot_creation_date {
            Some(d) => d.text(),
            None => none,
        }
    }

    /// The jot as a block of text: id, date and content; `None` where the
    /// content is not UTF-8.
    pub fn to_text(&self) -> (r: Option<String>)
        ensures
            valid_utf8(self.jot_content@) ==> (r matches Some(s) && s@ == "Jot: "@ + hex_of(
                self.jot_id@,
            ) + "\nCreated: "@ + self.date_text("No date"@) + "\n\n"@ + decode_utf8(self.jot_content@)
                + "\n"@),
            !valid_utf8(self.jot_content@) ==> r is None,
    {
        let content = match decode_utf8_text(self.jot_content.as_slice()) {
            Some(c) => c,
            None => return None,
        };
        let date = match self.jot_creation_date {
            Some(d) => d.to_rfc3339(),
            None => String::from_str("No date"),
        };
        let id = simple_text(&self.jot_id);
        let s = String::from_str("Jot: ").concat(id.as_str()).concat("\nCreated: ").concat(
            date.as_str(),
        ).concat("\n\n").concat(content.as_str()).concat("\n");
        Some(s)
    }

    /// A short label: the first 10 bytes of the date's text (or of
    /// `<no date>`), then the first 30 bytes of the content with line feeds as
    /// spaces, then `...`. `None` where the content is not UTF-8, or where a
    /// cut falls inside a character.
    pub fn button_label(&self) -> (r: Option<String>)
        ensures
            ({
                let dp = byte_prefix(encode_utf8(self.date_text("<no date>"@)), 10);
                let cp = byte_prefix(flat_bytes(self.jot_content@), 30);
                if valid_utf8(self.jot_content@) && valid_utf8(dp) && valid_utf8(cp) {
                    r matches Some(s) && s@ == decode_utf8(dp) + ": "@ + decode_utf8(cp) + "..."@
                } else {
                    r is None
                }
            }),
    {
        if decode_utf8_text(self.jot_content.as_slice()).is_none() {
            return None;
        }
        let date = match self.jot_creation_date {
            Some(d) => d.to_rfc3339(),
            None => String::from_str("<no date>"),
        };
        let dp = head_bytes(date.as_str().as_bytes(), 10, false);
        let cp = head_bytes(self.jot_content.as_slice(), 30, true);
        let date_part = match decode_utf8_text(dp.as_slice()) {
            Some(t) => t,
            None => return None,
        };
        let text = match decode_utf8_text(cp.as_slice()) {
            Some(t) => t,
            None => return None,
        };
        Some(date_part.concat(": ").concat(text.as_str()).concat("..."))
    }

    pub fn content(&self) -> (r: Content<'_>)
        ensures
            r.bytes@ == self.jot_content@,
            r.mime_type@ == self.jot_content_type@,
    {
        Content { bytes: self.jot_content.as_slice(), mime_type: self.jot_content_type.as_str() }
    }
}

impl PartialEq for Jot {
    fn eq(&self, other: &Jot) -> (r: bool) {
        self.jot_id == other.jot_id
    }
}

impl vstd::std_specs::cmp::PartialEqSpecImpl for Jot {
    open spec fn obeys_eq_spec() -> bool {
        true
    }

    open spec fn eq_spec(&self, other: &Jot) -> bool {
        self.jot_id@ == other.jot_id@
    }
}

impl Eq for Jot {}

/// A row of the tag table.
#[derive(Clone, Debug)]
pub struct Tag {
    pub tag_id: Uuid,
    pub tag_creation_date: Option<StarDate>,
    pub tag_text: String,
    pub device_id: Uuid,
    pub score: i32,
}

pub struct TagView {
    pub tag_id: Seq<u8>,
    pub creation_date: Option<StarDate>,
    pub text: Seq<char>,
    pub device_id: Seq<u8>,
    pub score: int,
}

impl View for Tag {
    type V = TagView;

    open spec fn view(&self) -> TagView {
        TagView {
            tag_id: self.tag_id@,
            creation_date: self.tag_creation_date,
            text: self.tag_text@,
            device_id: self.device_id@,
            score: self.score as int,
        }
    }
}

impl Tag {
    pub fn new(
        tag_text: String,
        tag_id: Uuid,
        device_id: Uuid,
        tag_creation_date: Option<StarDate>,
        score: i32,
    ) -> (r: Tag)
        ensures
            r.tag_text == tag_text,
            r.tag_id == tag_id,
            r.device_id == device_id,
            r.tag_creation_date == tag_creation_date,
            r.score == score,
    {
        Tag { tag_id, tag_creation_date, tag_text, device_id, score }
    }

    pub fn get_score(&self) -> (r: i32)
        ensures
            r == self.score,
    {
        self.score
    }

    /// The tag as a line of text: its text, a colon, and its score.
    pub fn to_text(&self) -> (r: String)
        ensures
            r@ == self.tag_text@ + ": "@ + decimal_of(self.score as int),
    {
        let score = int_text(self.score);
        self.tag_text.clone().concat(": ").concat(score.as_str())
    }
}

/// A row of the jot-tag mapping table.
#[derive(Clone, Copy, Debug)]
pub struct Mapping {
    pub mapping_id: Uuid,
    pub tag_id: Uuid,
    pub jot_id: Uuid,
    pub mapping_date: Option<StarDate>,
}

pub struct MappingView {
    pub mapping_id: Seq<u8>,
    pub tag_id: Seq<u8>,
    pub jot_id: Seq<u8>,
    pub mapping_date: Option<StarDate>,
}

impl View for Mapping {
    type V = MappingView;

    open spec fn view(&self) -> MappingView {
        MappingView {
            mapping_id: self.mapping_id@,
            tag_id: self.tag_id@,
            jot_id: self.jot_id@,
            mapping_date: self.mapping_date,
        }
    }
}

impl Mapping {
    pub fn new(
        mapping_id: Uuid,
        tag_id: Uuid,
        jot_id: Uuid,
        mapping_date: Option<StarDate>,
    ) -> (r: Mapping)
        ensures
            r.mapping_id == mapping_id,
            r.tag_id == tag_id,
            r.jot_id == jot_id,
            r.mapping_date == mapping_date,
    {
        Mapping { mapping_id, tag_id, jot_id, mapping_date }
    }
}

} // verus!
