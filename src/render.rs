use vstd::prelude::*;

use crate::clock::{month_in_utc, text_in_utc, utc_month, utc_text};
use crate::model::Instant;
use ical::generator::{Emitter, IcalCalendarBuilder};

verus! {

/// The kinds of artifact rendered for every partition.
#[derive(Clone, Copy, Debug, PartialEq, Eq, Structural)]
pub enum Format {
    Calendar,
    Text,
    Html,
    Markdown,
}

pub open spec fn extension(f: Format) -> Seq<char> {
    match f {
        Format::Calendar => "ical"@,
        Format::Text => "txt"@,
        Format::Html => "html"@,
        Format::Markdown => "md"@,
    }
}

/// Where the artifact of a partition with the given file-name root is written.
pub open spec fn artifact_path(root: Seq<char>, f: Format) -> Seq<char> {
    "_site/"@ + root + "."@ + extension(f)
}

/// The formats of a partition's artifacts, in the order they are rendered.
pub open spec fn artifact_formats() -> Seq<Format> {
    seq![Format::Calendar, Format::Text, Format::Html, Format::Markdown]
}

/// One file to render for a partition.
#[derive(Clone, Debug)]
pub struct Artifact {
    pub format: Format,
    pub path: String,
}

impl Format {
    /// The file-name extension of the format.
    pub fn extension(&self) -> (r: &'static str)
        ensures
            r@ == extension(*self),
    {
        match self {
            Format::Calendar => "ical",
            Format::Text => "txt",
            Format::Html => "html",
            Format::Markdown => "md",
        }
    }
}

/// The path of one artifact of the partition whose file-name root is `root`.
pub fn path_of(root: &String, f: Format) -> (r: String)
    ensures
        r@ == artifact_path(root@, f),
{
    let mut p = "_site/".to_owned();
    p.append(root.as_str());
    p.append(".");
    p.append(f.extension());
    p
}

/// The four artifacts of a partition, whether it holds events or not.
pub fn artifacts_for(root: &String) -> (r: Vec<Artifact>)
    ensures
        r.len() == artifact_formats().len(),
        forall|i: int|
            0 <= i < r.len() ==> (#[trigger] r@[i]).format == artifact_formats()[i] && r@[i].path@
                == artifact_path(root@, artifact_formats()[i]),
{
    let mut out: Vec<Artifact> = Vec::new();
    out.push(Artifact { format: Format::Calendar, path: path_of(root, Format::Calendar) });
    out.push(Artifact { format: Format::Text, path: path_of(root, Format::Text) });
    out.push(Artifact { format: Format::Html, path: path_of(root, Format::Html) });
    out.push(Artifact { format: Format::Markdown, path: path_of(root, Format::Markdown) });
    out
}

/// The path of the index page.
pub fn index_path() -> (r: String)
    ensures
        r@ == "_site/index.html"@,
{
    "_site/index.html".to_owned()
}

/// The decimal numeral of a month number.
pub open spec fn month_numeral(m: u32) -> Seq<char> {
    match m {
        1 => "1"@,
        2 => "2"@,
        3 => "3"@,
        4 => "4"@,
        5 => "5"@,
        6 => "6"@,
        7 => "7"@,
        8 => "8"@,
        9 => "9"@,
        10 => "10"@,
        11 => "11"@,
        _ => "12"@,
    }
}

/// The title of the Markdown digest for a month.
pub open spec fn digest_title_text(m: u32) -> Seq<char> {
    "Online Rust events "@ + month_numeral(m)
}

/// The title of the Markdown digest for the month `month` (1 to 12).
pub fn digest_title(month: u32) -> (r: String)
    requires
        1 <= month <= 12,
    ensures
        r@ == digest_title_text(month),
{
    let numeral = match month {
        1 => "1",
        2 => "2",
        3 => "3",
        4 => "4",
        5 => "5",
        6 => "6",
        7 => "7",
        8 => "8",
        9 => "9",
        10 => "10",
        11 => "11",
        _ => "12",
    };
    let mut t = "Online Rust events ".to_owned();
    t.append(numeral);
    t
}

/// The fixed texts that the pages carry besides their events.
#[derive(Clone, Debug)]
pub struct PageText {
    /// The title of the HTML listings and of the index.
    pub title: String,
    /// When the pages were made, in UTC.
    pub now: String,
    /// The title of the Markdown digest, naming the month.
    pub digest_title: String,
    /// The sentence that opens the Markdown digest.
    pub digest_text: String,
}

/// The fixed texts for pages made at `now`; none when `now` lies outside
/// the calendar.
pub fn page_text(now: Instant) -> (r: Option<PageText>)
    ensures
        r is Some <==> (utc_text(now.secs, now.nanos) is Some && utc_month(now.secs, now.nanos) is Some),
        r matches Some(t) ==> {
            &&& t.title@ == "Virtual Events"@
            &&& utc_text(now.secs, now.nanos) == Some(t.now@)
            &&& t.digest_title@ == digest_title_text(utc_month(now.secs, now.nanos)->0)
            &&& t.digest_text@
                == "I found the following Rust-related online events for the next 10 days."@
        },
{
    let stamp = match text_in_utc(now) {
        Some(s) => s,
        None => {
            return None;
        },
    };
    let month = match month_in_utc(now) {
        Some(m) => m,
        None => {
            return None;
        },
    };
    Some(
        PageText {
            title: "Virtual Events".to_owned(),
            now: stamp,
            digest_title: digest_title(month),
            digest_text: "I found the following Rust-related online events for the next 10 days.".to_owned(),
        },
    )
}

/// The text of an iCalendar object with the given version and product id,
/// a Gregorian calendar scale and no components.
pub uninterp spec fn ical_text(version: Seq<char>, prodid: Seq<char>) -> Seq<char>;

/// Relies on ical's `IcalCalendarBuilder` (`version`, `gregorian`, `prodid`,
/// `build`) and on `Emitter::generate` for the calendar it builds.
#[verifier::external_body]
fn empty_calendar(version: &str, prodid: &str) -> (r: String)
    ensures
        r@ == ical_text(version@, prodid@),
{
    IcalCalendarBuilder::version(version).gregorian().prodid(prodid).build().generate()
}

/// The calendar feed written for every partition: an iCalendar 2.0 object
/// with its header alone. Events are not turned into calendar entries, so
/// the feed is the same for every partition, empty or not.
pub fn calendar_feed() -> (r: String)
    ensures
        r@ == ical_text("2.0"@, "-//ical-rs//github.com//"@),
{
    empty_calendar("2.0", "-//ical-rs//github.com//")
}

} // verus!
