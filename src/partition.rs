use vstd::prelude::*;

use crate::model::{Category, Event, Language};

verus! {

/// Which events a partition holds.
#[derive(Clone, Copy, Debug, PartialEq, Eq, Structural)]
pub enum Scope {
    /// Every event.
    All,
    /// The events of one category.
    OfCategory(Category),
    /// The events of one category held in one language.
    OfPair(Category, Language),
}

/// The event lies in the scope.
pub open spec fn in_scope(s: Scope, e: Event) -> bool {
    match s {
        Scope::All => true,
        Scope::OfCategory(c) => e.category == c,
        Scope::OfPair(c, l) => e.category == c && e.language == l,
    }
}

pub open spec fn category_title(c: Category) -> Seq<char> {
    match c {
        Category::Perl => "Perl"@,
        Category::Python => "Python"@,
        Category::Rust => "Rust"@,
    }
}

pub open spec fn category_slug(c: Category) -> Seq<char> {
    match c {
        Category::Perl => "perl"@,
        Category::Python => "python"@,
        Category::Rust => "rust"@,
    }
}

pub open spec fn language_title(l: Language) -> Seq<char> {
    match l {
        Language::English => "English"@,
        Language::French => "French"@,
        Language::Hebrew => "Hebrew"@,
    }
}

pub open spec fn language_slug(l: Language) -> Seq<char> {
    match l {
        Language::English => "english"@,
        Language::French => "french"@,
        Language::Hebrew => "hebrew"@,
    }
}

/// The label under which a scope is counted: "All", "Perl", "Perl-English".
pub open spec fn scope_label(s: Scope) -> Seq<char> {
    match s {
        Scope::All => "All"@,
        Scope::OfCategory(c) => category_title(c),
        Scope::OfPair(c, l) => category_title(c) + "-"@ + language_title(l),
    }
}

/// The file-name root of a scope's artifacts: "all", "perl", "perl-english".
pub open spec fn scope_root(s: Scope) -> Seq<char> {
    match s {
        Scope::All => "all"@,
        Scope::OfCategory(c) => category_slug(c),
        Scope::OfPair(c, l) => category_slug(c) + "-"@ + language_slug(l),
    }
}

/// The events of `events` that lie in the scope, in the order they had.
pub open spec fn members(events: Seq<Event>, s: Scope) -> Seq<Event> {
    events.filter(|e: Event| in_scope(s, e))
}

/// A category's own scope followed by its pairs with each language.
pub open spec fn category_block(c: Category) -> Seq<Scope> {
    seq![
        Scope::OfCategory(c),
        Scope::OfPair(c, Language::English),
        Scope::OfPair(c, Language::French),
        Scope::OfPair(c, Language::Hebrew),
    ]
}

/// Every scope, in the order in which partitions are built and counted.
pub open spec fn partition_scopes() -> Seq<Scope> {
    seq![Scope::All] + category_block(Category::Perl) + category_block(Category::Python)
        + category_block(Category::Rust)
}

/// A named subset of the events, rendered on its own.
#[derive(Clone, Debug)]
pub struct Partition {
    pub scope: Scope,
    pub label: String,
    pub root: String,
    pub events: Vec<Event>,
}

/// `p` is the partition of `events` for the scope `s`.
pub open spec fn partition_of(events: Seq<Event>, s: Scope, p: Partition) -> bool {
    &&& p.scope == s
    &&& p.label@ == scope_label(s)
    &&& p.root@ == scope_root(s)
    &&& p.events@ == members(events, s)
}

impl Category {
    /// The category's name: "Perl", "Python" or "Rust".
    pub fn title(&self) -> (r: &'static str)
        ensures
            r@ == category_title(*self),
    {
        match self {
            Category::Perl => "Perl",
            Category::Python => "Python",
            Category::Rust => "Rust",
        }
    }

    /// The category's name in lower case.
    pub fn slug(&self) -> (r: &'static str)
        ensures
            r@ == category_slug(*self),
    {
        match self {
            Category::Perl => "perl",
            Category::Python => "python",
            Category::Rust => "rust",
        }
    }
}

impl Language {
    /// The language's name: "English", "French" or "Hebrew".
    pub fn title(&self) -> (r: &'static str)
        ensures
            r@ == language_title(*self),
    {
        match self {
            Language::English => "English",
            Language::French => "French",
            Language::Hebrew => "Hebrew",
        }
    }

    /// The language's name in lower case.
    pub fn slug(&self) -> (r: &'static str)
        ensures
            r@ == language_slug(*self),
    {
        match self {
            Language::English => "english",
            Language::French => "french",
            Language::Hebrew => "hebrew",
        }
    }
}

fn joined(a: &str, b: &str) -> (r: String)
    ensures
        r@ == a@ + "-"@ + b@,
{
    let mut s = a.to_owned();
    s.append("-");
    s.append(b);
    s
}

impl Scope {
    /// Whether the event lies in the scope.
    pub fn admits(&self, e: &Event) -> (r: bool)
        ensures
            r == in_scope(*self, *e),
    {
        match self {
            Scope::All => true,
            Scope::OfCategory(c) => e.category == *c,
            Scope::OfPair(c, l) => e.category == *c && e.language == *l,
        }
    }

    /// The label under which the scope is counted.
    pub fn label(&self) -> (r: String)
        ensures
            r@ == scope_label(*self),
    {
        match self {
            Scope::All => "All".to_owned(),
            Scope::OfCategory(c) => c.title().to_owned(),
            Scope::OfPair(c, l) => joined(c.title(), l.title()),
        }
    }

    /// The file-name root of the scope's artifacts.
    pub fn root(&self) -> (r: String)
        ensures
            r@ == scope_root(*self),
    {
        match self {
            Scope::All => "all".to_owned(),
            Scope::OfCategory(c) => c.slug().to_owned(),
            Scope::OfPair(c, l) => joined(c.slug(), l.slug()),
        }
    }
}

/// The partition of `events` for one scope, always drawn from the full
/// sequence.
pub fn partition_for(events: &Vec<Event>, scope: Scope) -> (r: Partition)
    ensures
        partition_of(events@, scope, r),
{
    let mut chosen: Vec<Event> = Vec::new();
    let mut i: usize = 0;
    while i < events.len()
        invariant
            0 <= i <= events.len(),
            chosen@ == members(events@.take(i as int), scope),
        decreases events.len() - i,
    {
        let ghost pre = events@.take(i + 1);
        assert(pre.drop_last() == events@.take(i as int));
        assert(pre.last() == events@[i as int]);
        reveal(Seq::filter);
        assert(members(pre, scope) == if in_scope(scope, pre.last()) {
            members(pre.drop_last(), scope).push(pre.last())
        } else {
            members(pre.drop_last(), scope)
        });
        if scope.admits(&events[i]) {
            chosen.push(events[i].duplicate());
        }
        i += 1;
    }
    assert(events@.take(i as int) == events@);
    Partition { scope, label: scope.label(), root: scope.root(), events: chosen }
}

fn push_category_block(parts: &mut Vec<Partition>, events: &Vec<Event>, c: Category)
    ensures
        final(parts)@.len() == old(parts)@.len() + 4,
        forall|i: int| 0 <= i < old(parts)@.len() ==> final(parts)@[i] == old(parts)@[i],
        forall|i: int|
            0 <= i < 4 ==> partition_of(
                events@,
                category_block(c)[i],
                #[trigger] final(parts)@[old(parts)@.len() + i],
            ),
{
    parts.push(partition_for(events, Scope::OfCategory(c)));
    parts.push(partition_for(events, Scope::OfPair(c, Language::English)));
    parts.push(partition_for(events, Scope::OfPair(c, Language::French)));
    parts.push(partition_for(events, Scope::OfPair(c, Language::Hebrew)));
}

/// Every partition of the events: all of them, then each category followed
/// by its pairs with each language. Empty partitions are kept.
pub fn build_partitions(events: &Vec<Event>) -> (r: Vec<Partition>)
    ensures
        r.len() == partition_scopes().len(),
        forall|i: int|
            0 <= i < r.len() ==> partition_of(events@, partition_scopes()[i], #[trigger] r@[i]),
{
    let mut parts: Vec<Partition> = Vec::new();
    parts.push(partition_for(events, Scope::All));
    push_category_block(&mut parts, events, Category::Perl);
    push_category_block(&mut parts, events, Category::Python);
    push_category_block(&mut parts, events, Category::Rust);
    let ghost sc = partition_scopes();
    assert forall|i: int| 0 <= i < parts.len() implies partition_of(
        events@,
        sc[i],
        #[trigger] parts@[i],
    ) by {
        if i == 0 {
        } else if i < 5 {
            assert(sc[i] == category_block(Category::Perl)[i - 1]);
            assert(parts@[1 + (i - 1)] == parts@[i]);
        } else if i < 9 {
            assert(sc[i] == category_block(Category::Python)[i - 5]);
            assert(parts@[5 + (i - 5)] == parts@[i]);
        } else {
            assert(sc[i] == category_block(Category::Rust)[i - 9]);
            assert(parts@[9 + (i - 9)] == parts@[i]);
        }
    }
    parts
}

proof fn lemma_member_counts(events: Seq<Event>)
    ensures
        members(events, Scope::All) == events,
        members(events, Scope::OfCategory(Category::Perl)).len() + members(
            events,
            Scope::OfCategory(Category::Python),
        ).len() + members(events, Scope::OfCategory(Category::Rust)).len() == events.len(),
        forall|c: Category|
            #[trigger] members(events, Scope::OfCategory(c)).len() == members(
                events,
                Scope::OfPair(c, Language::English),
            ).len() + members(events, Scope::OfPair(c, Language::French)).len() + members(
                events,
                Scope::OfPair(c, Language::Hebrew),
            ).len(),
    decreases events.len(),
{
    reveal(Seq::filter);
    if events.len() > 0 {
        lemma_member_counts(events.drop_last());
        let ghost p = events.drop_last();
        assert forall|c: Category|
            #[trigger] members(events, Scope::OfCategory(c)).len() == members(
                events,
                Scope::OfPair(c, Language::English),
            ).len() + members(events, Scope::OfPair(c, Language::French)).len() + members(
                events,
                Scope::OfPair(c, Language::Hebrew),
            ).len() by {
            assert(members(p, Scope::OfCategory(c)).len() == members(
                p,
                Scope::OfPair(c, Language::English),
            ).len() + members(p, Scope::OfPair(c, Language::French)).len() + members(
                p,
                Scope::OfPair(c, Language::Hebrew),
            ).len());
        }
    }
}

/// Partitioning refines the events completely: the partition of all events
/// is the whole sequence; an event lies in the partition of a category
/// exactly when that is its category, and in the partition of a pair exactly
/// when that is its category and its language; the category partitions
/// together hold as many events as there are, and so do the pair partitions
/// of each category against that category's partition.
pub proof fn lemma_partitions_refine(events: Seq<Event>)
    ensures
        members(events, Scope::All) == events,
        forall|i: int, c: Category|
            0 <= i < events.len() ==> (#[trigger] members(
                events,
                Scope::OfCategory(c),
            ).contains(events[i]) <==> c == events[i].category),
        forall|i: int, c: Category, l: Language|
            0 <= i < events.len() ==> (#[trigger] members(events, Scope::OfPair(c, l)).contains(
                events[i],
            ) <==> (c == events[i].category && l == events[i].language)),
        members(events, Scope::OfCategory(Category::Perl)).len() + members(
            events,
            Scope::OfCategory(Category::Python),
        ).len() + members(events, Scope::OfCategory(Category::Rust)).len() == events.len(),
        forall|c: Category|
            #[trigger] members(events, Scope::OfCategory(c)).len() == members(
                events,
                Scope::OfPair(c, Language::English),
            ).len() + members(events, Scope::OfPair(c, Language::French)).len() + members(
                events,
                Scope::OfPair(c, Language::Hebrew),
            ).len(),
{
    lemma_member_counts(events);
    assert forall|i: int, c: Category|
        0 <= i < events.len() implies (#[trigger] members(
        events,
        Scope::OfCategory(c),
    ).contains(events[i]) <==> c == events[i].category) by {
        let f = |e: Event| in_scope(Scope::OfCategory(c), e);
        if c == events[i].category {
            events.lemma_filter_contains(f, i);
        }
        if members(events, Scope::OfCategory(c)).contains(events[i]) {
            events.lemma_filter_contains_rev(f, events[i]);
        }
    }
    assert forall|i: int, c: Category, l: Language|
        0 <= i < events.len() implies (#[trigger] members(events, Scope::OfPair(c, l)).contains(
        events[i],
    ) <==> (c == events[i].category && l == events[i].language)) by {
        let f = |e: Event| in_scope(Scope::OfPair(c, l), e);
        if c == events[i].category && l == events[i].language {
            events.lemma_filter_contains(f, i);
        }
        if members(events, Scope::OfPair(c, l)).contains(events[i]) {
            events.lemma_filter_contains_rev(f, events[i]);
        }
    }
}

/// Every (category, language) pair has a partition of its own, whatever the
/// events, so none is skipped for being empty.
pub proof fn lemma_every_pair_listed(c: Category, l: Language)
    ensures
        partition_scopes().contains(Scope::OfPair(c, l)),
{
    let sc = partition_scopes();
    let i: int = match c {
        Category::Perl => 1int,
        Category::Python => 5int,
        Category::Rust => 9int,
    } + match l {
        Language::English => 1int,
        Language::French => 2int,
        Language::Hebrew => 3int,
    };
    assert(sc[i] == Scope::OfPair(c, l));
}

} // verus!
