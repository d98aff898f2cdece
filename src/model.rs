use vstd::prelude::*;

verus! {

/// The language an event is held in.
#[derive(Clone, Copy, Debug, PartialEq, Eq, Structural)]
pub enum Language {
    English,
    French,
    Hebrew,
}

/// The topic family an event belongs to.
#[derive(Clone, Copy, Debug, PartialEq, Eq, Structural)]
pub enum Category {
    Perl,
    Python,
    Rust,
}

/// An absolute point in time: whole seconds since 1970-01-01T00:00:00Z and
/// the nanoseconds within that second (a leap second runs them past one
/// billion).
#[derive(Clone, Copy, Debug, PartialEq, Eq, Structural)]
pub struct Instant {
    pub secs: i64,
    pub nanos: u32,
}

/// `a` is the same instant as `b` or a later one.
pub open spec fn at_or_after(a: Instant, b: Instant) -> bool {
    a.secs > b.secs || (a.secs == b.secs && a.nanos >= b.nanos)
}

impl Instant {
    /// Whether `self` is `other` or later.
    pub fn is_at_or_after(&self, other: &Instant) -> (r: bool)
        ensures
            r == at_or_after(*self, *other),
    {
        self.secs > other.secs || (self.secs == other.secs && self.nanos >= other.nanos)
    }
}

/// One listed event. The four display stamps are empty until the event is
/// localized, and are filled exactly once.
#[derive(Clone, Debug)]
pub struct Event {
    pub title: String,
    pub url: String,
    pub name: String,
    pub address: String,
    pub language: Language,
    pub start: Instant,
    pub category: Category,
    pub utc: String,
    pub est: String,
    pub pst: String,
    pub nzl: String,
}

impl Event {
    /// A field-by-field copy of the event.
    pub fn duplicate(&self) -> (r: Event)
        ensures
            r == *self,
    {
        Event {
            title: self.title.clone(),
            url: self.url.clone(),
            name: self.name.clone(),
            address: self.address.clone(),
            language: self.language,
            start: self.start,
            category: self.category,
            utc: self.utc.clone(),
            est: self.est.clone(),
            pst: self.pst.clone(),
            nzl: self.nzl.clone(),
        }
    }
}

/// The language named by `v`, matched case-sensitively.
pub open spec fn language_named(v: Seq<char>) -> Option<Language> {
    if v == "English"@ {
        Some(Language::English)
    } else if v == "French"@ {
        Some(Language::French)
    } else if v == "Hebrew"@ {
        Some(Language::Hebrew)
    } else {
        None
    }
}

/// The category named by `v`, matched case-sensitively.
pub open spec fn category_named(v: Seq<char>) -> Option<Category> {
    if v == "Perl"@ {
        Some(Category::Perl)
    } else if v == "Python"@ {
        Some(Category::Python)
    } else if v == "Rust"@ {
        Some(Category::Rust)
    } else {
        None
    }
}

/// The value that a display stamp holds before the event is localized.
pub fn get_empty_string() -> (r: String)
    ensures
        r@ == Seq::<char>::empty(),
{
    String::new()
}

/// Whether `a` holds exactly the characters of `b`.
pub fn same_text(a: &String, b: &str) -> (r: bool)
    ensures
        r == (a@ == b@),
{
    let t = b.to_owned();
    *a == t
}

impl Language {
    /// Every language, in declaration order.
    pub fn all() -> (r: Vec<Language>)
        ensures
            r@ == seq![Language::English, Language::French, Language::Hebrew],
    {
        vec![Language::English, Language::French, Language::Hebrew]
    }

    /// The language whose name is `v`, if there is one.
    pub fn from_name(v: &String) -> (r: Option<Language>)
        ensures
            r == language_named(v@),
    {
        if same_text(v, "English") {
            Some(Language::English)
        } else if same_text(v, "French") {
            Some(Language::French)
        } else if same_text(v, "Hebrew") {
            Some(Language::Hebrew)
        } else {
            None
        }
    }
}

impl Category {
    /// Every category, in declaration order.
    pub fn all() -> (r: Vec<Category>)
        ensures
            r@ == seq![Category::Perl, Category::Python, Category::Rust],
    {
        vec![Category::Perl, Category::Python, Category::Rust]
    }

    /// The category whose name is `v`, if there is one.
    pub fn from_name(v: &String) -> (r: Option<Category>)
        ensures
            r == category_named(v@),
    {
        if same_text(v, "Perl") {
            Some(Category::Perl)
        } else if same_text(v, "Python") {
            Some(Category::Python)
        } else if same_text(v, "Rust") {
            Some(Category::Rust)
        } else {
            None
        }
    }
}

} // verus!
