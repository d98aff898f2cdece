use vstd::prelude::*;

use crate::clock::{parse_instant, rfc3339_instant};
use crate::model::{
    category_named, get_empty_string, language_named, same_text, Category, Event, Instant, Language,
};

verus! {

/// A record's fields as (key, value) texts, in document order.
pub type FieldsView = Seq<(Seq<char>, Seq<char>)>;

/// The fields of a record, viewed as texts.
pub open spec fn fields_view(f: Seq<(String, String)>) -> FieldsView {
    f.map_values(|p: (String, String)| (p.0@, p.1@))
}

/// The records of a source document, viewed as texts.
pub open spec fn records_view(r: Seq<Vec<(String, String)>>) -> Seq<FieldsView> {
    r.map_values(|f: Vec<(String, String)>| fields_view(f@))
}

/// The records of a YAML document that is a sequence of mappings from
/// strings to strings, each mapping's entries in key order; none when the
/// text is not such a document.
pub uninterp spec fn yaml_string_maps(text: Seq<char>) -> Option<Seq<FieldsView>>;

/// Relies on serde_yaml's `from_str` into a `Vec` of `BTreeMap<String, String>`;
/// an error keeps the parser's message.
#[verifier::external_body]
fn parse_yaml_maps(text: &str) -> (r: Result<Vec<Vec<(String, String)>>, String>)
    ensures
        r is Ok <==> yaml_string_maps(text@) is Some,
        r matches Ok(v) ==> yaml_string_maps(text@) == Some(records_view(v@)),
{
    match serde_yaml::from_str::<Vec<std::collections::BTreeMap<String, String>>>(text) {
        Ok(v) => Ok(v.into_iter().map(|m| m.into_iter().collect()).collect()),
        Err(e) => Err(e.to_string()),
    }
}

/// The fields that every event record carries, no more and no fewer.
#[derive(Clone, Copy, Debug, PartialEq, Eq, Structural)]
pub enum Field {
    Title,
    Url,
    Name,
    Address,
    Language,
    Start,
    Category,
}

/// The field that a record key names, if any.
pub open spec fn field_named(k: Seq<char>) -> Option<Field> {
    if k == "title"@ {
        Some(Field::Title)
    } else if k == "url"@ {
        Some(Field::Url)
    } else if k == "name"@ {
        Some(Field::Name)
    } else if k == "address"@ {
        Some(Field::Address)
    } else if k == "language"@ {
        Some(Field::Language)
    } else if k == "start"@ {
        Some(Field::Start)
    } else if k == "category"@ {
        Some(Field::Category)
    } else {
        None
    }
}

/// Where a field is kept while a record is read.
pub open spec fn slot(k: Field) -> int {
    match k {
        Field::Title => 0,
        Field::Url => 1,
        Field::Name => 2,
        Field::Address => 3,
        Field::Language => 4,
        Field::Start => 5,
        Field::Category => 6,
    }
}

impl Field {
    /// The field that the key names, if any.
    pub fn from_key(k: &String) -> (r: Option<Field>)
        ensures
            r == field_named(k@),
    {
        if same_text(k, "title") {
            Some(Field::Title)
        } else if same_text(k, "url") {
            Some(Field::Url)
        } else if same_text(k, "name") {
            Some(Field::Name)
        } else if same_text(k, "address") {
            Some(Field::Address)
        } else if same_text(k, "language") {
            Some(Field::Language)
        } else if same_text(k, "start") {
            Some(Field::Start)
        } else if same_text(k, "category") {
            Some(Field::Category)
        } else {
            None
        }
    }

    fn slot_index(self) -> (r: usize)
        ensures
            r == slot(self),
    {
        match self {
            Field::Title => 0,
            Field::Url => 1,
            Field::Name => 2,
            Field::Address => 3,
            Field::Language => 4,
            Field::Start => 5,
            Field::Category => 6,
        }
    }
}

/// Why a record does not fit the schema.
#[derive(Clone, Copy, Debug, PartialEq, Eq, Structural)]
pub enum SchemaError {
    /// The key at this position names no field.
    UnknownField { position: usize },
    /// The key at this position repeats an earlier one.
    DuplicateField { position: usize },
    /// The record lacks this field.
    MissingField { field: Field },
    /// The language is none of the known ones.
    BadLanguage,
    /// The category is none of the known ones.
    BadCategory,
    /// The start is not a timestamp with an explicit offset.
    BadTimestamp,
}

/// The key at `i` names no field, or repeats an earlier key.
pub open spec fn misplaced(f: FieldsView, i: int) -> bool {
    field_named(f[i].0) is None || exists|j: int| 0 <= j < i && f[j].0 == f[i].0
}

/// `i` is the first position whose key is misplaced.
pub open spec fn first_misplaced(f: FieldsView, i: int) -> bool {
    &&& 0 <= i < f.len()
    &&& misplaced(f, i)
    &&& forall|j: int| 0 <= j < i ==> !#[trigger] misplaced(f, j)
}

/// Some key names the field `k`.
pub open spec fn has_field(f: FieldsView, k: Field) -> bool {
    exists|i: int| 0 <= i < f.len() && field_named(f[i].0) == Some(k)
}

/// The value given for the field `k` (meaningful when exactly one key names it).
pub open spec fn value_of(f: FieldsView, k: Field) -> Seq<char> {
    f[choose|i: int| 0 <= i < f.len() && field_named(f[i].0) == Some(k)].1
}

/// The first field, in schema order, that the record lacks.
pub open spec fn missing_field(f: FieldsView) -> Option<Field> {
    if !has_field(f, Field::Title) {
        Some(Field::Title)
    } else if !has_field(f, Field::Url) {
        Some(Field::Url)
    } else if !has_field(f, Field::Name) {
        Some(Field::Name)
    } else if !has_field(f, Field::Address) {
        Some(Field::Address)
    } else if !has_field(f, Field::Language) {
        Some(Field::Language)
    } else if !has_field(f, Field::Start) {
        Some(Field::Start)
    } else if !has_field(f, Field::Category) {
        Some(Field::Category)
    } else {
        None
    }
}

/// What is wrong with a record, checked in this order: a misplaced key, a
/// missing field, then the language, the category and the start values.
pub open spec fn record_problem(f: FieldsView) -> Option<SchemaError> {
    if exists|i: int| first_misplaced(f, i) {
        let i = choose|i: int| first_misplaced(f, i);
        if field_named(f[i].0) is None {
            Some(SchemaError::UnknownField { position: i as usize })
        } else {
            Some(SchemaError::DuplicateField { position: i as usize })
        }
    } else if missing_field(f) is Some {
        Some(SchemaError::MissingField { field: missing_field(f)->0 })
    } else if language_named(value_of(f, Field::Language)) is None {
        Some(SchemaError::BadLanguage)
    } else if category_named(value_of(f, Field::Category)) is None {
        Some(SchemaError::BadCategory)
    } else if rfc3339_instant(value_of(f, Field::Start)) is None {
        Some(SchemaError::BadTimestamp)
    } else {
        None
    }
}

/// `e` is the event that the well-formed record `f` describes, not yet localized.
pub open spec fn event_of_record(f: FieldsView, e: Event) -> bool {
    &&& e.title@ == value_of(f, Field::Title)
    &&& e.url@ == value_of(f, Field::Url)
    &&& e.name@ == value_of(f, Field::Name)
    &&& e.address@ == value_of(f, Field::Address)
    &&& language_named(value_of(f, Field::Language)) == Some(e.language)
    &&& category_named(value_of(f, Field::Category)) == Some(e.category)
    &&& rfc3339_instant(value_of(f, Field::Start)) == Some((e.start.secs, e.start.nanos))
    &&& e.utc@ == Seq::<char>::empty()
    &&& e.est@ == Seq::<char>::empty()
    &&& e.pst@ == Seq::<char>::empty()
    &&& e.nzl@ == Seq::<char>::empty()
}

proof fn lemma_first_misplaced_unique(f: FieldsView, a: int, b: int)
    requires
        first_misplaced(f, a),
        first_misplaced(f, b),
    ensures
        a == b,
{
    if a < b {
        assert(!misplaced(f, a));
    } else if b < a {
        assert(!misplaced(f, b));
    }
}

proof fn lemma_some_first_misplaced(f: FieldsView, i: int)
    requires
        0 <= i < f.len(),
        misplaced(f, i),
    ensures
        exists|c: int| first_misplaced(f, c),
    decreases i,
{
    if exists|j: int| 0 <= j < i && misplaced(f, j) {
        let j = choose|j: int| 0 <= j < i && misplaced(f, j);
        lemma_some_first_misplaced(f, j);
    } else {
        assert(first_misplaced(f, i));
    }
}

/// A record with a key outside the schema, or whose language or category is
/// outside its enumeration, is refused.
pub proof fn lemma_schema_rejection(f: FieldsView)
    requires
        (exists|i: int| 0 <= i < f.len() && field_named(#[trigger] f[i].0) is None)
            || language_named(value_of(f, Field::Language)) is None
            || category_named(value_of(f, Field::Category)) is None,
    ensures
        record_problem(f) is Some,
{
    if exists|i: int| 0 <= i < f.len() && field_named(#[trigger] f[i].0) is None {
        let i = choose|i: int| 0 <= i < f.len() && field_named(#[trigger] f[i].0) is None;
        lemma_some_first_misplaced(f, i);
    }
}

/// Reads one record into an event, or says what is wrong with it.
pub fn parse_record(fields: &Vec<(String, String)>) -> (r: Result<Event, SchemaError>)
    ensures
        match r {
            Ok(e) => record_problem(fields_view(fields@)) is None && event_of_record(
                fields_view(fields@),
                e,
            ),
            Err(err) => record_problem(fields_view(fields@)) == Some(err),
        },
{
    let ghost f = fields_view(fields@);
    let mut slots: Vec<Option<usize>> = vec![None, None, None, None, None, None, None];
    let mut i: usize = 0;
    while i < fields.len()
        invariant
            f == fields_view(fields@),
            0 <= i <= fields.len(),
            slots.len() == 7,
            forall|j: int| 0 <= j < i ==> !#[trigger] misplaced(f, j),
            forall|k: Field|
                #[trigger] slots@[slot(k)] matches Some(p) ==> p < i && field_named(f[p as int].0)
                    == Some(k),
            forall|j: int|
                0 <= j < i ==> #[trigger] slots@[slot(field_named(f[j].0)->0)] == Some(j as usize),
        decreases fields.len() - i,
    {
        assert(f[i as int].0 == fields@[i as int].0@);
        match Field::from_key(&fields[i].0) {
            None => {
                proof {
                    assert(first_misplaced(f, i as int));
                    let c = choose|c: int| first_misplaced(f, c);
                    lemma_first_misplaced_unique(f, c, i as int);
                }
                return Err(SchemaError::UnknownField { position: i });
            },
            Some(k) => {
                let s = k.slot_index();
                match slots[s] {
                    Some(p) => {
                        proof {
                            assert(slots@[slot(k)] == Some(p));
                            assert(field_named(f[p as int].0) == Some(k));
                            assert(f[p as int].0 == f[i as int].0);
                            assert(misplaced(f, i as int));
                            assert(first_misplaced(f, i as int));
                            let c = choose|c: int| first_misplaced(f, c);
                            lemma_first_misplaced_unique(f, c, i as int);
                        }
                        return Err(SchemaError::DuplicateField { position: i });
                    },
                    None => {
                        proof {
                            assert forall|j: int| 0 <= j < i implies f[j].0 != f[i as int].0 by {
                                if f[j].0 == f[i as int].0 {
                                    assert(slots@[slot(field_named(f[j].0)->0)] == Some(
                                        j as usize,
                                    ));
                                }
                            }
                            assert(!misplaced(f, i as int));
                        }
                        slots.set(s, Some(i));
                    },
                }
            },
        }
        i += 1;
    }
    proof {
        assert forall|c: int| !first_misplaced(f, c) by {
            if 0 <= c < f.len() {
                assert(!misplaced(f, c));
            }
        }
        assert forall|k: Field|
            (#[trigger] slots@[slot(k)] is None <==> !has_field(f, k)) && (slots@[slot(k)] matches Some(
                p,
            ) ==> value_of(f, k) == f[p as int].1) by {
            if has_field(f, k) {
                let c = choose|c: int| 0 <= c < f.len() && field_named(f[c].0) == Some(k);
                assert(slots@[slot(field_named(f[c].0)->0)] == Some(c as usize));
            }
        }
    }
    if slots[0].is_none() {
        assert(slots@[slot(Field::Title)] is None);
        return Err(SchemaError::MissingField { field: Field::Title });
    }
    if slots[1].is_none() {
        assert(slots@[slot(Field::Url)] is None);
        return Err(SchemaError::MissingField { field: Field::Url });
    }
    if slots[2].is_none() {
        assert(slots@[slot(Field::Name)] is None);
        return Err(SchemaError::MissingField { field: Field::Name });
    }
    if slots[3].is_none() {
        assert(slots@[slot(Field::Address)] is None);
        return Err(SchemaError::MissingField { field: Field::Address });
    }
    if slots[4].is_none() {
        assert(slots@[slot(Field::Language)] is None);
        return Err(SchemaError::MissingField { field: Field::Language });
    }
    if slots[5].is_none() {
        assert(slots@[slot(Field::Start)] is None);
        return Err(SchemaError::MissingField { field: Field::Start });
    }
    if slots[6].is_none() {
        assert(slots@[slot(Field::Category)] is None);
        return Err(SchemaError::MissingField { field: Field::Category });
    }
    assert(slots@[slot(Field::Title)] is Some);
    assert(slots@[slot(Field::Url)] is Some);
    assert(slots@[slot(Field::Name)] is Some);
    assert(slots@[slot(Field::Address)] is Some);
    assert(slots@[slot(Field::Language)] is Some);
    assert(slots@[slot(Field::Start)] is Some);
    assert(slots@[slot(Field::Category)] is Some);
    let p_language = slots[4].unwrap();
    let p_category = slots[6].unwrap();
    let p_start = slots[5].unwrap();
    let language = match Language::from_name(&fields[p_language].1) {
        Some(l) => l,
        None => {
            return Err(SchemaError::BadLanguage);
        },
    };
    let category = match Category::from_name(&fields[p_category].1) {
        Some(c) => c,
        None => {
            return Err(SchemaError::BadCategory);
        },
    };
    let start = match parse_instant(fields[p_start].1.as_str()) {
        Some(t) => t,
        None => {
            return Err(SchemaError::BadTimestamp);
        },
    };
    Ok(
        Event {
            title: fields[slots[0].unwrap()].1.clone(),
            url: fields[slots[1].unwrap()].1.clone(),
            name: fields[slots[2].unwrap()].1.clone(),
            address: fields[slots[3].unwrap()].1.clone(),
            language,
            start,
            category,
            utc: get_empty_string(),
            est: get_empty_string(),
            pst: get_empty_string(),
            nzl: get_empty_string(),
        },
    )
}

/// Why a source document was refused.
#[derive(Clone, Debug)]
pub enum SourceError {
    /// The text is not a sequence of string-to-string mappings.
    Syntax { message: String },
    /// The record at this position does not fit the schema.
    Schema { record: usize, problem: SchemaError },
}

/// `i` is the first record that does not fit the schema.
pub open spec fn first_bad_record(recs: Seq<FieldsView>, i: int) -> bool {
    &&& 0 <= i < recs.len()
    &&& record_problem(recs[i]) is Some
    &&& forall|j: int| 0 <= j < i ==> #[trigger] record_problem(recs[j]) is None
}

/// `r` is what reading the records `recs` gives: every event in record order
/// when all fit the schema, else the first misfit and its problem.
pub open spec fn records_outcome(recs: Seq<FieldsView>, r: Result<Vec<Event>, SourceError>) -> bool {
    match r {
        Ok(v) => {
            &&& v.len() == recs.len()
            &&& forall|i: int|
                0 <= i < recs.len() ==> record_problem(#[trigger] recs[i]) is None
                    && event_of_record(recs[i], v@[i])
        },
        Err(SourceError::Schema { record, problem }) => {
            &&& first_bad_record(recs, record as int)
            &&& record_problem(recs[record as int]) == Some(problem)
        },
        Err(SourceError::Syntax { .. }) => false,
    }
}

/// One refused record refuses the whole document: no events come of it.
pub proof fn lemma_document_rejection(
    recs: Seq<FieldsView>,
    i: int,
    r: Result<Vec<Event>, SourceError>,
)
    requires
        0 <= i < recs.len(),
        record_problem(recs[i]) is Some,
        records_outcome(recs, r),
    ensures
        r matches Err(SourceError::Schema { .. }),
{
}

/// Reads every record of a parsed document, failing on the first misfit.
pub fn check_records(records: &Vec<Vec<(String, String)>>) -> (r: Result<Vec<Event>, SourceError>)
    ensures
        records_outcome(records_view(records@), r),
{
    let ghost recs = records_view(records@);
    let mut out: Vec<Event> = Vec::new();
    let mut i: usize = 0;
    while i < records.len()
        invariant
            recs == records_view(records@),
            0 <= i <= records.len(),
            out.len() == i,
            forall|j: int|
                0 <= j < i ==> record_problem(#[trigger] recs[j]) is None && event_of_record(
                    recs[j],
                    out@[j],
                ),
        decreases records.len() - i,
    {
        assert(recs[i as int] == fields_view(records@[i as int]@));
        match parse_record(&records[i]) {
            Ok(e) => {
                out.push(e);
            },
            Err(problem) => {
                return Err(SourceError::Schema { record: i, problem });
            },
        }
        i += 1;
    }
    Ok(out)
}

/// Reads a source document: a YAML sequence of event records.
pub fn read_source(text: &str) -> (r: Result<Vec<Event>, SourceError>)
    ensures
        match yaml_string_maps(text@) {
            None => r matches Err(SourceError::Syntax { .. }),
            Some(recs) => records_outcome(recs, r),
        },
{
    match parse_yaml_maps(text) {
        Ok(records) => check_records(&records),
        Err(message) => Err(SourceError::Syntax { message }),
    }
}

/// The events of several sources, source after source, each in its own order.
pub open spec fn joined_sources(batches: Seq<Vec<Event>>) -> Seq<Event> {
    batches.map_values(|b: Vec<Event>| b@).flatten()
}

/// Joins the events of several sources, source after source.
pub fn merge_sources(batches: &Vec<Vec<Event>>) -> (r: Vec<Event>)
    ensures
        r@ == joined_sources(batches@),
{
    let ghost views = batches@.map_values(|b: Vec<Event>| b@);
    let mut out: Vec<Event> = Vec::new();
    let mut i: usize = 0;
    while i < batches.len()
        invariant
            views == batches@.map_values(|b: Vec<Event>| b@),
            0 <= i <= batches.len(),
            out@ == views.take(i as int).flatten_alt(),
        decreases batches.len() - i,
    {
        let batch = &batches[i];
        assert(views[i as int] == batch@);
        let ghost before = out@;
        let mut j: usize = 0;
        while j < batch.len()
            invariant
                0 <= j <= batch.len(),
                out@ == before + batch@.take(j as int),
            decreases batch.len() - j,
        {
            out.push(batch[j].duplicate());
            assert(batch@.take(j + 1) == batch@.take(j as int).push(batch@[j as int]));
            j += 1;
        }
        assert(batch@.take(j as int) == batch@);
        assert(views.take(i + 1).drop_last() == views.take(i as int));
        i += 1;
    }
    assert(views.take(i as int) == views);
    proof {
        views.lemma_flatten_and_flatten_alt_are_equivalent();
    }
    out
}

} // verus!
