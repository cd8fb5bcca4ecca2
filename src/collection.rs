use vstd::prelude::*;
use vstd::string::StrSliceExecFns;
use vstd::string::StringExecFns;

use xml::reader::XmlEvent;

use crate::error::SokobanError;
use crate::game::{parse_level, InvalidChar, Level, LevelView};

verus! {

/// One event of a level collection document, as far as the loader reads it.
pub enum ContainerEvent {
    /// An element opens, with its local name and its attributes as pairs of
    /// local name and value.
    Start { name: String, attributes: Vec<(String, String)> },
    /// An element closes.
    End { name: String },
    /// Character data.
    Text(String),
    /// Anything else: declarations, comments, whitespace between elements.
    Other,
}

/// The mathematical form of a `ContainerEvent`.
pub enum EventView {
    Start { name: Seq<char>, attributes: Seq<(Seq<char>, Seq<char>)> },
    End { name: Seq<char> },
    Text(Seq<char>),
    Other,
}

impl View for ContainerEvent {
    type V = EventView;

    open spec fn view(&self) -> EventView {
        match self {
            ContainerEvent::Start { name, attributes } => EventView::Start {
                name: name@,
                attributes: attributes_view(attributes@),
            },
            ContainerEvent::End { name } => EventView::End { name: name@ },
            ContainerEvent::Text(text) => EventView::Text(text@),
            ContainerEvent::Other => EventView::Other,
        }
    }
}

/// The mathematical form of a list of attributes.
pub open spec fn attributes_view(attributes: Seq<(String, String)>) -> Seq<(Seq<char>, Seq<char>)> {
    attributes.map_values(|a: (String, String)| (a.0@, a.1@))
}

/// The mathematical form of a sequence of events.
pub open spec fn events_view(events: Seq<ContainerEvent>) -> Seq<EventView> {
    events.map_values(|e: ContainerEvent| e@)
}

/// The events that the XML reader finds in the document `bytes`, or `None`
/// when the document is malformed.
pub uninterp spec fn xml_events_of(bytes: Seq<u8>) -> Option<Seq<EventView>>;

/// Relies on xml-rs's `EventReader`, iterated to its end: the events of the
/// document in order, from its bytes alone, or its error on the first
/// malformed part.
#[verifier::external_body]
fn read_events(bytes: &[u8]) -> (r: Result<Vec<ContainerEvent>, xml::reader::Error>)
    ensures
        match r {
            Ok(events) => xml_events_of(bytes@) == Some(events_view(events@)),
            Err(_) => xml_events_of(bytes@) is None,
        },
{
    let mut events = Vec::new();
    for event in xml::reader::EventReader::new(bytes) {
        events.push(match event? {
            XmlEvent::StartElement { name, attributes, .. } => ContainerEvent::Start {
                name: name.local_name,
                attributes: attributes.into_iter().map(|a| (a.name.local_name, a.value)).collect(),
            },
            XmlEvent::EndElement { name } => ContainerEvent::End { name: name.local_name },
            XmlEvent::Characters(text) => ContainerEvent::Text(text),
            _ => ContainerEvent::Other,
        });
    }
    Ok(events)
}


/// Why the events of a collection did not give its levels.
pub enum LoadFailure {
    /// A level's text holds an invalid character.
    Parse(InvalidChar),
    /// A level's text is longer than `i32::MAX` characters.
    TooLarge,
}

/// The state of the loader between two events.
pub struct LoaderView {
    /// Inside an `L` element: character data is collected.
    pub reading: bool,
    /// The title for the next level, from the last `Id` attribute seen.
    pub title: Seq<char>,
    /// The text collected for the current level.
    pub text: Seq<char>,
    /// The levels loaded so far, in order.
    pub levels: Seq<LevelView>,
}

/// The value of the first attribute named `Id`, if any.
pub open spec fn id_of(attributes: Seq<(Seq<char>, Seq<char>)>) -> Option<Seq<char>>
    decreases attributes.len(),
{
    if attributes.len() == 0 {
        None
    } else if attributes[0].0 == "Id"@ {
        Some(attributes[0].1)
    } else {
        id_of(attributes.drop_first())
    }
}

impl LoaderView {
    /// The state before the first event.
    pub open spec fn start() -> LoaderView {
        LoaderView { reading: false, title: Seq::empty(), text: Seq::empty(), levels: Seq::empty() }
    }

    /// The state after one more event, or the failure it raises.
    ///
    /// An `L` element starts the collection of its character data, each
    /// piece followed by a line break; its end stops it. A `Level` element
    /// takes its `Id` attribute as the next title; at its end the collected
    /// text is parsed as a level, titled and appended, and the text is
    /// cleared.
    pub open spec fn advance(self, event: EventView) -> Result<LoaderView, LoadFailure> {
        match event {
            EventView::Start { name, attributes } => {
                if name == "L"@ {
                    Ok(LoaderView { reading: true, ..self })
                } else if name == "Level"@ {
                    match id_of(attributes) {
                        Some(title) => Ok(LoaderView { title, ..self }),
                        None => Ok(self),
                    }
                } else {
                    Ok(self)
                }
            },
            EventView::End { name } => {
                if name == "L"@ {
                    Ok(LoaderView { reading: false, ..self })
                } else if name == "Level"@ {
                    if self.text.len() > i32::MAX {
                        Err(LoadFailure::TooLarge)
                    } else {
                        match parse_level(self.text) {
                            Ok(level) => Ok(
                                LoaderView {
                                    text: Seq::empty(),
                                    levels: self.levels.push(LevelView { title: self.title, ..level }),
                                    ..self
                                },
                            ),
                            Err(e) => Err(LoadFailure::Parse(e)),
                        }
                    }
                } else {
                    Ok(self)
                }
            },
            EventView::Text(text) => {
                if self.reading {
                    Ok(LoaderView { text: self.text + text + seq!['\n'], ..self })
                } else {
                    Ok(self)
                }
            },
            EventView::Other => Ok(self),
        }
    }
}

/// The loader's state after all of `events`, or the first failure.
pub open spec fn load_events(events: Seq<EventView>) -> Result<LoaderView, LoadFailure>
    decreases events.len(),
{
    if events.len() == 0 {
        Ok(LoaderView::start())
    } else {
        match load_events(events.drop_last()) {
            Ok(st) => st.advance(events.last()),
            Err(e) => Err(e),
        }
    }
}

/// The mathematical form of a sequence of levels.
pub open spec fn levels_view(levels: Seq<Level>) -> Seq<LevelView> {
    levels.map_values(|l: Level| l@)
}

/// `r` is what the library returns for the loading outcome `outcome`.
pub open spec fn reports(
    r: Result<Vec<Level>, SokobanError>,
    outcome: Result<LoaderView, LoadFailure>,
) -> bool {
    match outcome {
        Ok(st) => r matches Ok(levels) && levels_view(levels@) == st.levels && forall|i: int|
            0 <= i < levels@.len() ==> #[trigger] levels@[i].wf(),
        Err(LoadFailure::Parse(e)) => r matches Err(SokobanError::ParseError(e2)) && e2 == e,
        Err(LoadFailure::TooLarge) => r matches Err(SokobanError::LevelTooLarge),
    }
}

/// Once loading fails on some events, it fails the same way on any events
/// that follow them.
proof fn lemma_load_error_sticks(events: Seq<EventView>, n: int)
    requires
        0 <= n <= events.len(),
        load_events(events.take(n)) is Err,
    ensures
        load_events(events) == load_events(events.take(n)),
    decreases events.len(),
{
    if n == events.len() {
        assert(events.take(n) =~= events);
    } else {
        assert(events.drop_last().take(n) =~= events.take(n));
        lemma_load_error_sticks(events.drop_last(), n);
    }
}

/// Returns true if `a` and `b` hold the same characters.
fn same_text(a: &str, b: &str) -> (r: bool)
    ensures
        r == (a@ == b@),
{
    let n = a.unicode_len();
    if n != b.unicode_len() {
        return false;
    }
    let mut i: usize = 0;
    while i < n
        invariant
            n == a@.len(),
            n == b@.len(),
            i <= n,
            forall|j: int| 0 <= j < i ==> a@[j] == b@[j],
        decreases n - i,
    {
        if a.get_char(i) != b.get_char(i) {
            return false;
        }
        i = i + 1;
    }
    assert(a@ =~= b@);
    true
}

/// Returns the value of the first attribute named `Id`, if any.
fn find_id(attributes: &Vec<(String, String)>) -> (r: Option<String>)
    ensures
        match id_of(attributes_view(attributes@)) {
            Some(t) => r matches Some(s) && s@ == t,
            None => r is None,
        },
{
    let ghost all = attributes_view(attributes@);
    let mut i: usize = 0;
    assert(all.skip(0) =~= all);
    while i < attributes.len()
        invariant
            i <= attributes.len(),
            all == attributes_view(attributes@),
            id_of(all) == id_of(all.skip(i as int)),
        decreases attributes.len() - i,
    {
        assert(all.skip(i as int).drop_first() =~= all.skip(i + 1));
        if same_text(attributes[i].0.as_str(), "Id") {
            return Some(attributes[i].1.clone());
        }
        i = i + 1;
    }
    None
}

/// Builds the levels of a collection from its events, in the order in which
/// their `Level` elements close.
pub fn load_levels(events: &Vec<ContainerEvent>) -> (r: Result<Vec<Level>, SokobanError>)
    ensures
        reports(r, load_events(events_view(events@))),
{
    let ghost all = events_view(events@);
    let mut levels: Vec<Level> = Vec::new();
    let mut reading = false;
    let mut title = String::new();
    let mut text = String::new();
    proof {
        assert(all.take(0) =~= Seq::<EventView>::empty());
        assert(levels_view(levels@) =~= Seq::<LevelView>::empty());
    }
    let mut i: usize = 0;
    while i < events.len()
        invariant
            i <= events.len(),
            all == events_view(events@),
            forall|j: int| 0 <= j < levels@.len() ==> #[trigger] levels@[j].wf(),
            load_events(all.take(i as int)) == Ok::<LoaderView, LoadFailure>(
                LoaderView {
                    reading,
                    title: title@,
                    text: text@,
                    levels: levels_view(levels@),
                },
            ),
        decreases events.len() - i,
    {
        proof {
            assert(all.take(i + 1).drop_last() =~= all.take(i as int));
            assert(all.take(i + 1).last() == events@[i as int]@);
        }
        let ghost st = LoaderView { reading, title: title@, text: text@, levels: levels_view(levels@) };
        match &events[i] {
            ContainerEvent::Start { name, attributes } => {
                if same_text(name.as_str(), "L") {
                    reading = true;
                } else if same_text(name.as_str(), "Level") {
                    if let Some(id) = find_id(attributes) {
                        title = id;
                    }
                }
            },
            ContainerEvent::End { name } => {
                if same_text(name.as_str(), "L") {
                    reading = false;
                } else if same_text(name.as_str(), "Level") {
                    if text.as_str().unicode_len() > i32::MAX as usize {
                        proof {
                            lemma_load_error_sticks(all, i + 1);
                        }
                        return Err(SokobanError::LevelTooLarge);
                    }
                    match Level::from_str(text.as_str()) {
                        Ok(level) => {
                            let mut level = level;
                            level.set_title(title.clone());
                            let ghost before = levels@;
                            levels.push(level);
                            proof {
                                assert(levels_view(levels@) =~= levels_view(before).push(level@));
                            }
                            text = String::new();
                                },
                        Err(e) => {
                            proof {
                                lemma_load_error_sticks(all, i + 1);
                            }
                            return Err(SokobanError::ParseError(e));
                        },
                    }
                }
            },
            ContainerEvent::Text(data) => {
                if reading {
                    text.append(data.as_str());
                    text.append("\n");
                    proof {
                        reveal_strlit("\n");
                        assert(text@ =~= st.text + data@ + seq!['\n']);
                    }
                }
            },
            ContainerEvent::Other => {},
        }
        i = i + 1;
    }
    proof {
        assert(all.take(all.len() as int) =~= all);
    }
    Ok(levels)
}

/// Builds the levels of a collection from its XML document, in document
/// order. A malformed document gives `XmlError`; otherwise the outcome is
/// that of `load_levels` on the document's events.
pub fn load_slc(bytes: &[u8]) -> (r: Result<Vec<Level>, SokobanError>)
    ensures
        match xml_events_of(bytes@) {
            None => r matches Err(SokobanError::XmlError(_)),
            Some(events) => reports(r, load_events(events)),
        },
{
    match read_events(bytes) {
        Ok(events) => load_levels(&events),
        Err(e) => Err(SokobanError::XmlError(e)),
    }
}

} // verus!
