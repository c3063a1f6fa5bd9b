//! What is known of an image file besides its pixels.

use vstd::prelude::*;
use vstd::string::*;
use crate::decimal::{decimal, to_decimal};

verus! {

/// A point in time: seconds since the start of 1970 in UTC, and the
/// nanoseconds into that second.
#[derive(Clone, Copy, Debug, PartialEq, Eq)]
pub struct Timestamp {
    pub seconds: i64,
    pub nanoseconds: u32,
}

/// What is known of an image file.
#[derive(Debug)]
pub struct Metadata {
    /// Size of the file in bytes.
    pub size_bytes: u64,
    /// When the file was created, where the file system tells.
    pub created: Option<Timestamp>,
    /// Width in pixels.
    pub width: u32,
    /// Height in pixels.
    pub height: u32,
    /// Name of the colour type, such as `Rgb8`.
    pub color_type: String,
    /// The camera that took the picture, where the file names one.
    pub camera_model: Option<String>,
}

/// The text that the `chrono` crate writes for a point in time in UTC;
/// `None` where the point lies outside the years that it can hold or the
/// nanoseconds are no part of a second.
pub uninterp spec fn utc_text(seconds: i64, nanoseconds: u32) -> Option<Seq<char>>;

/// Makes the point in time with `chrono::DateTime::from_timestamp` and writes
/// it with its `to_string`. Trusted: the text depends on the two numbers
/// alone.
#[verifier::external_body]
pub(crate) fn format_utc(seconds: i64, nanoseconds: u32) -> (r: Option<String>)
    ensures
        r.deep_view() == utc_text(seconds, nanoseconds),
{
    chrono::DateTime::from_timestamp(seconds, nanoseconds).map(|t| t.to_string())
}

/// What stands for a value that is not known.
pub open spec fn or_unknown(text: Option<Seq<char>>) -> Seq<char> {
    match text {
        Some(t) => t,
        None => "Unknown"@,
    }
}

/// The text of the time of creation.
pub open spec fn created_text(created: Option<Timestamp>) -> Option<Seq<char>> {
    match created {
        Some(t) => utc_text(t.seconds, t.nanoseconds),
        None => None,
    }
}

/// The five lines that describe an image, given the text of its time of
/// creation.
pub open spec fn lines_with(m: Metadata, created: Option<Seq<char>>) -> Seq<Seq<char>> {
    seq![
        "Size: "@ + decimal(m.size_bytes as nat) + " bytes"@,
        "Created: "@ + or_unknown(created),
        "Dimensions: "@ + decimal(m.width as nat) + "x"@ + decimal(m.height as nat),
        "Color Type: "@ + m.color_type@,
        "Camera Model: "@ + or_unknown(m.camera_model.deep_view()),
    ]
}

/// The five lines that describe an image.
pub open spec fn metadata_lines(m: Metadata) -> Seq<Seq<char>> {
    lines_with(m, created_text(m.created))
}

/// `text` where there is one, `Unknown` where there is none.
pub fn text_or_unknown(text: &Option<String>) -> (r: String)
    ensures
        r@ == or_unknown(text.deep_view()),
{
    match text {
        Some(t) => t.clone(),
        None => String::from_str("Unknown"),
    }
}

impl Metadata {
    /// The five lines shown beside the image, given the text of its time of
    /// creation: size, creation, dimensions, colour type and camera.
    pub fn texts_with(&self, created: &Option<String>) -> (lines: Vec<String>)
        ensures
            lines.deep_view() == lines_with(*self, created.deep_view()),
    {
        let mut size = String::from_str("Size: ");
        size.append(to_decimal(self.size_bytes).as_str());
        size.append(" bytes");
        let mut made = String::from_str("Created: ");
        made.append(text_or_unknown(created).as_str());
        let mut dimensions = String::from_str("Dimensions: ");
        dimensions.append(to_decimal(self.width as u64).as_str());
        dimensions.append("x");
        dimensions.append(to_decimal(self.height as u64).as_str());
        let mut color = String::from_str("Color Type: ");
        color.append(self.color_type.as_str());
        let mut camera = String::from_str("Camera Model: ");
        camera.append(text_or_unknown(&self.camera_model).as_str());
        let mut lines: Vec<String> = Vec::new();
        lines.push(size);
        lines.push(made);
        lines.push(dimensions);
        lines.push(color);
        lines.push(camera);
        assert(lines.deep_view() =~= lines_with(*self, created.deep_view()));
        lines
    }

    /// The five lines shown beside the image.
    pub fn texts(&self) -> (lines: Vec<String>)
        ensures
            lines.deep_view() == metadata_lines(*self),
    {
        let created: Option<String> = match self.created {
            Some(t) => format_utc(t.seconds, t.nanoseconds),
            None => None,
        };
        self.texts_with(&created)
    }
}

} // verus!
