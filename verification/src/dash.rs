//! Choosing a stream from an adaptive-streaming manifest.
//!
//! A manifest is an XML document that lists representations of one video,
//! each with a bandwidth and, nested in it, the address of its media. The
//! document is read as a stream of events, in one pass, and the address of
//! the representation with the highest bandwidth is kept.

use quick_xml::events::Event;
use quick_xml::Reader;
use vstd::prelude::*;
use crate::numbers::{parse_u64, parsed_u64};
use crate::text::ascii_bytes;

verus! {

/// One attribute of a start tag, as it stands in the document.
pub struct XmlAttribute {
    pub key: Vec<u8>,
    pub value: Vec<u8>,
}

/// One event of the document.
pub enum XmlEvent {
    /// A start tag. An attribute that could not be read is `None`.
    Start { name: Vec<u8>, attributes: Vec<Option<XmlAttribute>> },
    /// An end tag.
    End { name: Vec<u8> },
    /// Character data between tags; `None` where it is not valid text.
    Text { content: Option<String> },
    /// The end of the document.
    Eof,
    /// The document is ill-formed at this point.
    Malformed,
    /// Anything else: a comment, a declaration, an empty element and the like.
    Other,
}

/// One attribute, as contracts speak of it.
pub struct AttributeModel {
    pub key: Seq<u8>,
    pub value: Seq<u8>,
}

/// One event, as contracts speak of it.
pub enum EventModel {
    Start { name: Seq<u8>, attributes: Seq<Option<AttributeModel>> },
    End { name: Seq<u8> },
    Text { content: Option<Seq<char>> },
    Eof,
    Malformed,
    Other,
}

impl View for XmlAttribute {
    type V = AttributeModel;

    open spec fn view(&self) -> AttributeModel {
        AttributeModel { key: self.key@, value: self.value@ }
    }
}

/// The model of an attribute that may be unreadable.
pub open spec fn attribute_model(a: Option<XmlAttribute>) -> Option<AttributeModel> {
    match a {
        Some(a) => Some(a@),
        None => None,
    }
}

impl View for XmlEvent {
    type V = EventModel;

    open spec fn view(&self) -> EventModel {
        match *self {
            XmlEvent::Start { name, attributes } => EventModel::Start {
                name: name@,
                attributes: attributes@.map_values(|a: Option<XmlAttribute>| attribute_model(a)),
            },
            XmlEvent::End { name } => EventModel::End { name: name@ },
            XmlEvent::Text { content } => EventModel::Text {
                content: match content {
                    Some(t) => Some(t@),
                    None => None,
                },
            },
            XmlEvent::Eof => EventModel::Eof,
            XmlEvent::Malformed => EventModel::Malformed,
            XmlEvent::Other => EventModel::Other,
        }
    }
}

/// The models of a list of events.
pub open spec fn event_models(events: Seq<XmlEvent>) -> Seq<EventModel> {
    events.map_values(|e: XmlEvent| e@)
}

/// Why no stream was chosen.
#[derive(Clone, Copy, Debug, PartialEq, Eq, Structural)]
pub enum ManifestError {
    /// The document ended and no representation had been kept.
    NoRepresentation,
    /// The document is not well-formed XML.
    Malformed,
    /// The address of a representation is not valid text.
    Undecodable,
}

/// The name of the element that describes one representation.
pub open spec fn representation_tag() -> Seq<u8> {
    ascii_bytes("Representation"@)
}

/// The name of the element that holds the address of a representation.
pub open spec fn base_url_tag() -> Seq<u8> {
    ascii_bytes("BaseURL"@)
}

/// The name of the attribute that holds the bandwidth of a representation.
pub open spec fn bandwidth_key() -> Seq<u8> {
    ascii_bytes("bandwidth"@)
}

/// The bandwidth that one attribute declares, if it declares one: its key is
/// `bandwidth` and its value is a numeral.
pub open spec fn attribute_bandwidth(a: Option<AttributeModel>) -> Option<u64> {
    match a {
        Some(a) => if a.key == bandwidth_key() {
            parsed_u64(a.value)
        } else {
            None
        },
        None => None,
    }
}

/// The bandwidth that a start tag declares: that of the first attribute
/// that declares one.
pub open spec fn declared_bandwidth(attributes: Seq<Option<AttributeModel>>) -> Option<u64>
    decreases attributes.len(),
{
    if attributes.len() == 0 {
        None
    } else {
        match attribute_bandwidth(attributes[0]) {
            Some(b) => Some(b),
            None => declared_bandwidth(attributes.drop_first()),
        }
    }
}

/// Whether `name` spells `tag`, byte for byte.
pub(crate) fn name_is(name: &[u8], tag: &str) -> (b: bool)
    requires
        tag.is_ascii(),
    ensures
        b == (name@ == ascii_bytes(tag@)),
{
    broadcast use vstd::string::is_ascii_spec_bytes;

    let wanted = tag.as_bytes();
    assert(wanted@ =~= ascii_bytes(tag@));
    if name.len() != wanted.len() {
        return false;
    }
    let mut i: usize = 0;
    while i < name.len()
        invariant
            i <= name.len(),
            name.len() == wanted.len(),
            wanted@ == ascii_bytes(tag@),
            name@.take(i as int) == wanted@.take(i as int),
        decreases name.len() - i,
    {
        if name[i] != wanted[i] {
            return false;
        }
        assert(name@.take(i + 1) =~= name@.take(i as int).push(name@[i as int]));
        assert(wanted@.take(i + 1) =~= wanted@.take(i as int).push(wanted@[i as int]));
        i += 1;
    }
    assert(name@.take(i as int) =~= name@);
    assert(wanted@.take(i as int) =~= wanted@);
    true
}

/// The bandwidth that the attributes of a start tag declare.
pub fn find_bandwidth(attributes: &Vec<Option<XmlAttribute>>) -> (r: Option<u64>)
    ensures
        r == declared_bandwidth(attributes@.map_values(|a: Option<XmlAttribute>| attribute_model(a))),
{
    let ghost models = attributes@.map_values(|a: Option<XmlAttribute>| attribute_model(a));
    let mut i: usize = 0;
    assert(models.skip(0) =~= models);
    while i < attributes.len()
        invariant
            i <= attributes.len(),
            models == attributes@.map_values(|a: Option<XmlAttribute>| attribute_model(a)),
            declared_bandwidth(models.skip(i as int)) == declared_bandwidth(models),
        decreases attributes.len() - i,
    {
        proof {
            reveal_strlit("bandwidth");
            assert(models.skip(i as int)[0] == models[i as int]);
            assert(models.skip(i as int).drop_first() =~= models.skip(i + 1));
        }
        match &attributes[i] {
            Some(a) => {
                if name_is(a.key.as_slice(), "bandwidth") {
                    match parse_u64(a.value.as_slice()) {
                        Some(b) => {
                            return Some(b);
                        },
                        None => {},
                    }
                }
            },
            None => {},
        }
        i += 1;
    }
    None
}

/// One representation of the video: its bandwidth and the address of its
/// media.
pub struct Representation {
    pub bandwidth: u64,
    pub base_url: String,
}

/// One representation, as contracts speak of it.
pub struct RepresentationModel {
    pub bandwidth: u64,
    pub base_url: Seq<char>,
}

impl View for Representation {
    type V = RepresentationModel;

    open spec fn view(&self) -> RepresentationModel {
        RepresentationModel { bandwidth: self.bandwidth, base_url: self.base_url@ }
    }
}

/// What the selector remembers between two events.
pub struct Selector {
    /// The bandwidth of the representation that is open, if it declared one.
    pub current: Option<u64>,
    /// The best representation seen so far.
    pub best: Option<Representation>,
    /// The address that is being gathered.
    pub text: String,
    /// Whether character data is being gathered.
    pub collecting: bool,
}

/// What the selector remembers, as contracts speak of it.
pub struct SelectorModel {
    pub current: Option<u64>,
    pub best: Option<RepresentationModel>,
    pub text: Seq<char>,
    pub collecting: bool,
}

impl View for Selector {
    type V = SelectorModel;

    open spec fn view(&self) -> SelectorModel {
        SelectorModel {
            current: self.current,
            best: match self.best {
                Some(r) => Some(r@),
                None => None,
            },
            text: self.text@,
            collecting: self.collecting,
        }
    }
}

/// Whether a representation of the bandwidth `bandwidth` is better than
/// `best`: there is no best one yet, or its bandwidth is lower.
pub open spec fn better_than(best: Option<RepresentationModel>, bandwidth: u64) -> bool {
    match best {
        Some(r) => r.bandwidth < bandwidth,
        None => true,
    }
}

impl SelectorModel {
    /// The selector before the first event.
    pub open spec fn start() -> SelectorModel {
        SelectorModel { current: None, best: None, text: Seq::empty(), collecting: false }
    }

    /// Whether a representation of the bandwidth `bandwidth` takes the
    /// place of the best one so far: there is none yet, or its bandwidth is
    /// lower.
    pub open spec fn beaten_by(self, bandwidth: u64) -> bool {
        better_than(self.best, bandwidth)
    }

    /// The selector after a start tag.
    pub open spec fn after_start(
        self,
        name: Seq<u8>,
        attributes: Seq<Option<AttributeModel>>,
    ) -> SelectorModel {
        if name == representation_tag() {
            SelectorModel {
                current: declared_bandwidth(attributes),
                best: self.best,
                text: self.text,
                collecting: self.collecting,
            }
        } else if name == base_url_tag() && self.current is Some && self.beaten_by(
            self.current->0,
        ) {
            SelectorModel {
                current: self.current,
                best: self.best,
                text: self.text,
                collecting: true,
            }
        } else {
            self
        }
    }

    /// The selector after an end tag.
    pub open spec fn after_end(self, name: Seq<u8>) -> SelectorModel {
        if name == representation_tag() {
            SelectorModel {
                current: None,
                best: self.best,
                text: self.text,
                collecting: self.collecting,
            }
        } else if name == base_url_tag() && self.collecting {
            match self.current {
                Some(bandwidth) => SelectorModel {
                    current: self.current,
                    best: Some(RepresentationModel { bandwidth, base_url: self.text }),
                    text: Seq::empty(),
                    collecting: false,
                },
                None => SelectorModel {
                    current: self.current,
                    best: self.best,
                    text: self.text,
                    collecting: false,
                },
            }
        } else {
            self
        }
    }

    /// The selector after one event, or the reason to give up at it.
    pub open spec fn observe(self, event: EventModel) -> Result<SelectorModel, ManifestError> {
        match event {
            EventModel::Start { name, attributes } => Ok(self.after_start(name, attributes)),
            EventModel::End { name } => Ok(self.after_end(name)),
            EventModel::Text { content } => if self.collecting {
                match content {
                    Some(t) => Ok(
                        SelectorModel {
                            current: self.current,
                            best: self.best,
                            text: self.text + t,
                            collecting: self.collecting,
                        },
                    ),
                    None => Err(ManifestError::Undecodable),
                }
            } else {
                Ok(self)
            },
            EventModel::Malformed => Err(ManifestError::Malformed),
            EventModel::Eof => Ok(self),
            EventModel::Other => Ok(self),
        }
    }

    /// What is chosen when the document ends.
    pub open spec fn finish(self) -> Result<Seq<char>, ManifestError> {
        match self.best {
            Some(r) => Ok(r.base_url),
            None => Err(ManifestError::NoRepresentation),
        }
    }
}

/// What the selector chooses when it is in state `state` and `events` are
/// still to come. The document ends at the first `Eof`, or with the events.
pub open spec fn selection(state: SelectorModel, events: Seq<EventModel>) -> Result<
    Seq<char>,
    ManifestError,
>
    decreases events.len(),
{
    if events.len() == 0 || events[0] is Eof {
        state.finish()
    } else {
        match state.observe(events[0]) {
            Ok(next) => selection(next, events.drop_first()),
            Err(e) => Err(e),
        }
    }
}

/// Whether `r` is the result that the model `m` asks for.
pub open spec fn matches_selection(r: Result<String, ManifestError>, m: Result<
    Seq<char>,
    ManifestError,
>) -> bool {
    match r {
        Ok(url) => m == Ok::<Seq<char>, ManifestError>(url@),
        Err(e) => m == Err::<Seq<char>, ManifestError>(e),
    }
}

impl Selector {
    /// The selector before the first event.
    pub fn new() -> (s: Selector)
        ensures
            s@ == SelectorModel::start(),
    {
        Selector { current: None, best: None, text: String::new(), collecting: false }
    }

    /// Takes one event into account.
    pub fn observe(self, event: &XmlEvent) -> (r: Result<Selector, ManifestError>)
        ensures
            match r {
                Ok(next) => self@.observe(event@) == Ok::<SelectorModel, ManifestError>(next@),
                Err(e) => self@.observe(event@) == Err::<SelectorModel, ManifestError>(e),
            },
    {
        proof {
            reveal_strlit("Representation");
            reveal_strlit("BaseURL");
        }
        match event {
            XmlEvent::Start { name, attributes } => {
                if name_is(name.as_slice(), "Representation") {
                    let current = find_bandwidth(attributes);
                    Ok(
                        Selector {
                            current,
                            best: self.best,
                            text: self.text,
                            collecting: self.collecting,
                        },
                    )
                } else if name_is(name.as_slice(), "BaseURL") {
                    let exceeds = match self.current {
                        Some(c) => match &self.best {
                            Some(r) => r.bandwidth < c,
                            None => true,
                        },
                        None => false,
                    };
                    if exceeds {
                        Ok(
                            Selector {
                                current: self.current,
                                best: self.best,
                                text: self.text,
                                collecting: true,
                            },
                        )
                    } else {
                        Ok(self)
                    }
                } else {
                    Ok(self)
                }
            },
            XmlEvent::End { name } => {
                if name_is(name.as_slice(), "Representation") {
                    Ok(
                        Selector {
                            current: None,
                            best: self.best,
                            text: self.text,
                            collecting: self.collecting,
                        },
                    )
                } else if name_is(name.as_slice(), "BaseURL") && self.collecting {
                    match self.current {
                        Some(bandwidth) => Ok(
                            Selector {
                                current: self.current,
                                best: Some(Representation { bandwidth, base_url: self.text }),
                                text: String::new(),
                                collecting: false,
                            },
                        ),
                        None => Ok(
                            Selector {
                                current: self.current,
                                best: self.best,
                                text: self.text,
                                collecting: false,
                            },
                        ),
                    }
                } else {
                    Ok(self)
                }
            },
            XmlEvent::Text { content } => {
                if self.collecting {
                    match content {
                        Some(t) => {
                            let mut text = self.text;
                            text.append(t.as_str());
                            Ok(
                                Selector {
                                    current: self.current,
                                    best: self.best,
                                    text,
                                    collecting: self.collecting,
                                },
                            )
                        },
                        None => Err(ManifestError::Undecodable),
                    }
                } else {
                    Ok(self)
                }
            },
            XmlEvent::Malformed => Err(ManifestError::Malformed),
            XmlEvent::Eof => Ok(self),
            XmlEvent::Other => Ok(self),
        }
    }

    /// The address that was chosen, once the document has ended.
    pub fn finish(self) -> (r: Result<String, ManifestError>)
        ensures
            matches_selection(r, self@.finish()),
    {
        match self.best {
            Some(r) => Ok(r.base_url),
            None => Err(ManifestError::NoRepresentation),
        }
    }
}

/// Chooses a stream from the events of a manifest that was read beforehand.
pub fn select_stream(events: &Vec<XmlEvent>) -> (r: Result<String, ManifestError>)
    ensures
        matches_selection(r, selection(SelectorModel::start(), event_models(events@))),
{
    let ghost models = event_models(events@);
    let mut state = Selector::new();
    let mut i: usize = 0;
    assert(models.skip(0) =~= models);
    while i < events.len()
        invariant
            i <= events.len(),
            models == event_models(events@),
            selection(state@, models.skip(i as int)) == selection(SelectorModel::start(), models),
        decreases events.len() - i,
    {
        proof {
            assert(models.skip(i as int)[0] == events@[i as int]@);
            assert(models.skip(i as int).drop_first() =~= models.skip(i + 1));
        }
        match &events[i] {
            XmlEvent::Eof => {
                return state.finish();
            },
            event => {
                match state.observe(event) {
                    Ok(next) => {
                        state = next;
                    },
                    Err(e) => {
                        return Err(e);
                    },
                }
            },
        }
        i += 1;
    }
    state.finish()
}

/// The streaming XML reader of `quick_xml`. Nothing of its inside is known
/// here; it is only carried from one call to the next.
#[verifier::external_type_specification]
#[verifier::external_body]
#[verifier::reject_recursive_types(R)]
pub struct ExReader<R>(Reader<R>);

/// The events that a reader still holds: those that it will hand out from
/// now on, one for each call, up to and including the first `Eof` or
/// `Malformed`.
pub uninterp spec fn upcoming(reader: Reader<&[u8]>) -> Seq<EventModel>;

/// The events of an XML document: what a reader made for `text` holds.
pub uninterp spec fn document_events(text: Seq<char>) -> Seq<EventModel>;

/// `quick_xml::Reader::from_str` makes a reader that stands before the first
/// event of the document. What it will hand out depends on the text alone.
#[verifier::external_body]
fn open_reader<'a>(text: &'a str) -> (reader: Reader<&'a [u8]>)
    ensures
        upcoming(reader) == document_events(text@),
{
    Reader::from_str(text)
}

/// `quick_xml::Reader::read_event` hands out the next event and moves past
/// it. The event is copied out field by field: the name of a tag
/// (`BytesStart::name`, `BytesEnd::name`), the attributes of a start tag
/// (`BytesStart::attributes`, an unreadable one as `None`), the character
/// data as text (`BytesText::decode`, `None` where that fails). An error of
/// the reader becomes `Malformed`. The reader always holds one event at
/// least, hands out the first of them, and holds the rest afterwards unless
/// that event ended the document.
#[verifier::external_body]
fn next_event(reader: &mut Reader<&[u8]>) -> (event: XmlEvent)
    ensures
        upcoming(*old(reader)).len() > 0,
        event@ == upcoming(*old(reader))[0],
        !(event is Eof || event is Malformed) ==> upcoming(*final(reader)) == upcoming(
            *old(reader),
        ).drop_first(),
{
    match reader.read_event() {
        Ok(Event::Start(e)) => XmlEvent::Start {
            name: e.name().0.to_vec(),
            attributes: e.attributes().map(
                |a| a.ok().map(|a| XmlAttribute { key: a.key.0.to_vec(), value: a.value.to_vec() }),
            ).collect(),
        },
        Ok(Event::End(e)) => XmlEvent::End { name: e.name().0.to_vec() },
        Ok(Event::Text(e)) => XmlEvent::Text {
            content: e.decode().ok().map(|t| t.into_owned()),
        },
        Ok(Event::Eof) => XmlEvent::Eof,
        Ok(_) => XmlEvent::Other,
        Err(_) => XmlEvent::Malformed,
    }
}

/// Chooses a stream from a manifest: the address of the representation
/// with the highest bandwidth, the first of them where several share it.
///
/// The document is read event by event; what is chosen is what
/// [`selection`] gives for its events.
pub fn highest_stream(playlist: &str) -> (r: Result<String, ManifestError>)
    ensures
        matches_selection(r, selection(SelectorModel::start(), document_events(playlist@))),
{
    let mut reader = open_reader(playlist);
    let mut state = Selector::new();
    loop
        invariant
            selection(state@, upcoming(reader)) == selection(
                SelectorModel::start(),
                document_events(playlist@),
            ),
        decreases upcoming(reader).len(),
    {
        let event = next_event(&mut reader);
        match event {
            XmlEvent::Eof => {
                return state.finish();
            },
            event => {
                match state.observe(&event) {
                    Ok(next) => {
                        state = next;
                    },
                    Err(e) => {
                        return Err(e);
                    },
                }
            },
        }
    }
}

/// Whether the selector takes no notice of an event: character data,
/// anything that is no tag, and the tags of elements other than the two
/// that it knows.
pub open spec fn is_quiet(e: EventModel) -> bool {
    match e {
        EventModel::Start { name, attributes } => name != representation_tag() && name
            != base_url_tag(),
        EventModel::End { name } => name != representation_tag() && name != base_url_tag(),
        EventModel::Text { content } => true,
        EventModel::Other => true,
        EventModel::Eof => false,
        EventModel::Malformed => false,
    }
}

/// Whether the selector takes no notice of any of `events`.
pub open spec fn all_quiet(events: Seq<EventModel>) -> bool {
    forall|i: int| 0 <= i < events.len() ==> is_quiet(#[trigger] events[i])
}

/// Whether an event can stand within an address: character data that is
/// valid text, or anything that is no tag.
pub open spec fn is_content(e: EventModel) -> bool {
    match e {
        EventModel::Text { content } => content is Some,
        EventModel::Other => true,
        _ => false,
    }
}

/// Whether each of `events` can stand within an address.
pub open spec fn all_content(events: Seq<EventModel>) -> bool {
    forall|i: int| 0 <= i < events.len() ==> is_content(#[trigger] events[i])
}

/// The text that one event adds to an address.
pub open spec fn text_of(e: EventModel) -> Seq<char> {
    match e {
        EventModel::Text { content: Some(t) } => t,
        _ => Seq::empty(),
    }
}

/// The address that `events` add up to.
pub open spec fn gathered(events: Seq<EventModel>) -> Seq<char>
    decreases events.len(),
{
    if events.len() == 0 {
        Seq::empty()
    } else {
        text_of(events[0]) + gathered(events.drop_first())
    }
}

/// One representation as a manifest lists it, with whatever else stands in
/// it and behind it.
pub struct ListedModel {
    /// The attributes of its start tag.
    pub attributes: Seq<Option<AttributeModel>>,
    /// What stands in it before its address.
    pub lead: Seq<EventModel>,
    /// The attributes of the start tag of its address.
    pub address_attributes: Seq<Option<AttributeModel>>,
    /// What stands in the element of its address.
    pub address: Seq<EventModel>,
    /// What stands in it behind its address.
    pub trail: Seq<EventModel>,
    /// What stands behind it, before the next representation.
    pub after: Seq<EventModel>,
}

impl ListedModel {
    /// Whether the representation declares a bandwidth and holds one
    /// address, and nothing else in it or behind it is a tag that the
    /// selector knows.
    pub open spec fn wf(self) -> bool {
        &&& declared_bandwidth(self.attributes) is Some
        &&& all_quiet(self.lead)
        &&& all_content(self.address)
        &&& all_quiet(self.trail)
        &&& all_quiet(self.after)
    }

    /// The bandwidth that the representation declares.
    pub open spec fn bandwidth(self) -> u64 {
        declared_bandwidth(self.attributes)->Some_0
    }

    /// The address of the representation.
    pub open spec fn base_url(self) -> Seq<char> {
        gathered(self.address)
    }

    /// The representation as the selector keeps it.
    pub open spec fn kept(self) -> RepresentationModel {
        RepresentationModel { bandwidth: self.bandwidth(), base_url: self.base_url() }
    }

    /// The events of the representation, and `rest` behind them.
    pub open spec fn events_then(self, rest: Seq<EventModel>) -> Seq<EventModel> {
        seq![EventModel::Start { name: representation_tag(), attributes: self.attributes }] + (
        self.lead + (seq![
            EventModel::Start { name: base_url_tag(), attributes: self.address_attributes },
        ] + (self.address + (seq![EventModel::End { name: base_url_tag() }] + (self.trail + (seq![
            EventModel::End { name: representation_tag() },
        ] + (self.after + rest)))))))
    }
}

/// The events of a manifest that lists the representations `listed` one
/// after the other, and `rest` behind them.
pub open spec fn listing_then(listed: Seq<ListedModel>, rest: Seq<EventModel>) -> Seq<EventModel>
    decreases listed.len(),
{
    if listed.len() == 0 {
        rest
    } else {
        listed[0].events_then(listing_then(listed.drop_first(), rest))
    }
}

/// The best representation once `listed` have been seen after `best`: each
/// one takes the place of the best so far where it is better.
pub open spec fn best_after(best: Option<RepresentationModel>, listed: Seq<ListedModel>) -> Option<
    RepresentationModel,
>
    decreases listed.len(),
{
    if listed.len() == 0 {
        best
    } else {
        best_after(
            if better_than(best, listed[0].bandwidth()) {
                Some(listed[0].kept())
            } else {
                best
            },
            listed.drop_first(),
        )
    }
}

/// The selector between two representations: it holds nothing but the best
/// one so far.
pub open spec fn idle(best: Option<RepresentationModel>) -> SelectorModel {
    SelectorModel { current: None, best, text: Seq::empty(), collecting: false }
}

/// The two element names that the selector knows are different names.
pub proof fn lemma_tags_differ()
    ensures
        representation_tag() != base_url_tag(),
{
    reveal_strlit("Representation");
    reveal_strlit("BaseURL");
    assert(representation_tag().len() == 14);
    assert(base_url_tag().len() == 7);
}

/// One event that does not end the document takes the selector one step
/// on.
proof fn lemma_one_event(state: SelectorModel, e: EventModel, rest: Seq<EventModel>)
    requires
        !(e is Eof),
        state.observe(e) is Ok,
    ensures
        selection(state, seq![e] + rest) == selection(state.observe(e)->Ok_0, rest),
{
    let events = seq![e] + rest;
    assert(events[0] == e);
    assert(events.drop_first() =~= rest);
}

/// While nothing is gathered, quiet events leave the selector as it is.
proof fn lemma_quiet_events(state: SelectorModel, quiet: Seq<EventModel>, rest: Seq<EventModel>)
    requires
        !state.collecting,
        all_quiet(quiet),
    ensures
        selection(state, quiet + rest) == selection(state, rest),
    decreases quiet.len(),
{
    if quiet.len() == 0 {
        assert(quiet + rest =~= rest);
    } else {
        let e = quiet[0];
        assert(is_quiet(e));
        assert(state.observe(e) == Ok::<SelectorModel, ManifestError>(state));
        assert(quiet + rest =~= seq![e] + (quiet.drop_first() + rest));
        lemma_one_event(state, e, quiet.drop_first() + rest);
        assert forall|i: int| 0 <= i < quiet.drop_first().len() implies is_quiet(
            #[trigger] quiet.drop_first()[i],
        ) by {
            assert(quiet.drop_first()[i] == quiet[i + 1]);
        }
        lemma_quiet_events(state, quiet.drop_first(), rest);
    }
}

/// While an address is gathered, its events add their text to it.
proof fn lemma_address_events(
    state: SelectorModel,
    address: Seq<EventModel>,
    rest: Seq<EventModel>,
)
    requires
        state.collecting,
        all_content(address),
    ensures
        selection(state, address + rest) == selection(
            SelectorModel {
                current: state.current,
                best: state.best,
                text: state.text + gathered(address),
                collecting: true,
            },
            rest,
        ),
    decreases address.len(),
{
    if address.len() == 0 {
        assert(address + rest =~= rest);
        assert(state.text + gathered(address) =~= state.text);
    } else {
        let e = address[0];
        assert(is_content(e));
        let next = SelectorModel {
            current: state.current,
            best: state.best,
            text: state.text + text_of(e),
            collecting: true,
        };
        assert(state.text + Seq::<char>::empty() =~= state.text);
        assert(state.observe(e) == Ok::<SelectorModel, ManifestError>(next));
        assert(address + rest =~= seq![e] + (address.drop_first() + rest));
        lemma_one_event(state, e, address.drop_first() + rest);
        assert forall|i: int| 0 <= i < address.drop_first().len() implies is_content(
            #[trigger] address.drop_first()[i],
        ) by {
            assert(address.drop_first()[i] == address[i + 1]);
        }
        lemma_address_events(next, address.drop_first(), rest);
        assert((state.text + text_of(e)) + gathered(address.drop_first()) =~= state.text
            + gathered(address));
    }
}

/// What can stand within an address is quiet.
proof fn lemma_content_is_quiet(address: Seq<EventModel>)
    requires
        all_content(address),
    ensures
        all_quiet(address),
{
    assert forall|i: int| 0 <= i < address.len() implies is_quiet(#[trigger] address[i]) by {
        assert(is_content(address[i]));
    }
}

/// One listed representation takes the selector from between two
/// representations to there again, and is the best one then if it is
/// better than the best before it.
proof fn lemma_listed(best: Option<RepresentationModel>, listed: ListedModel, rest: Seq<EventModel>)
    requires
        listed.wf(),
    ensures
        selection(idle(best), listed.events_then(rest)) == selection(
            idle(
                if better_than(best, listed.bandwidth()) {
                    Some(listed.kept())
                } else {
                    best
                },
            ),
            rest,
        ),
{
    lemma_tags_differ();
    let b = listed.bandwidth();
    let r7 = listed.after + rest;
    let e6 = EventModel::End { name: representation_tag() };
    let r6 = seq![e6] + r7;
    let r5 = listed.trail + r6;
    let e4 = EventModel::End { name: base_url_tag() };
    let r4 = seq![e4] + r5;
    let r3 = listed.address + r4;
    let e2 = EventModel::Start { name: base_url_tag(), attributes: listed.address_attributes };
    let r2 = seq![e2] + r3;
    let r1 = listed.lead + r2;
    let e0 = EventModel::Start { name: representation_tag(), attributes: listed.attributes };
    assert(listed.events_then(rest) == seq![e0] + r1);
    let s0 = idle(best);
    let s1 = SelectorModel { current: Some(b), best, text: Seq::empty(), collecting: false };
    assert(s0.observe(e0) == Ok::<SelectorModel, ManifestError>(s1));
    lemma_one_event(s0, e0, r1);
    lemma_quiet_events(s1, listed.lead, r2);
    if better_than(best, b) {
        let s2 = SelectorModel { current: Some(b), best, text: Seq::empty(), collecting: true };
        assert(s1.observe(e2) == Ok::<SelectorModel, ManifestError>(s2));
        lemma_one_event(s1, e2, r3);
        lemma_address_events(s2, listed.address, r4);
        let s3 = SelectorModel {
            current: Some(b),
            best,
            text: Seq::<char>::empty() + gathered(listed.address),
            collecting: true,
        };
        assert(Seq::<char>::empty() + gathered(listed.address) =~= gathered(listed.address));
        let s4 = SelectorModel {
            current: Some(b),
            best: Some(listed.kept()),
            text: Seq::empty(),
            collecting: false,
        };
        assert(s3.observe(e4) == Ok::<SelectorModel, ManifestError>(s4));
        lemma_one_event(s3, e4, r5);
        lemma_quiet_events(s4, listed.trail, r6);
        assert(s4.observe(e6) == Ok::<SelectorModel, ManifestError>(idle(Some(listed.kept()))));
        lemma_one_event(s4, e6, r7);
        lemma_quiet_events(idle(Some(listed.kept())), listed.after, rest);
    } else {
        assert(s1.observe(e2) == Ok::<SelectorModel, ManifestError>(s1));
        lemma_one_event(s1, e2, r3);
        lemma_content_is_quiet(listed.address);
        lemma_quiet_events(s1, listed.address, r4);
        assert(s1.observe(e4) == Ok::<SelectorModel, ManifestError>(s1));
        lemma_one_event(s1, e4, r5);
        lemma_quiet_events(s1, listed.trail, r6);
        assert(s1.observe(e6) == Ok::<SelectorModel, ManifestError>(idle(best)));
        lemma_one_event(s1, e6, r7);
        lemma_quiet_events(idle(best), listed.after, rest);
    }
}

/// A listing leaves the selector with the best of all that it lists.
proof fn lemma_selection_of_listing(
    best: Option<RepresentationModel>,
    listed: Seq<ListedModel>,
    rest: Seq<EventModel>,
)
    requires
        forall|i: int| 0 <= i < listed.len() ==> (#[trigger] listed[i]).wf(),
    ensures
        selection(idle(best), listing_then(listed, rest)) == selection(
            idle(best_after(best, listed)),
            rest,
        ),
    decreases listed.len(),
{
    if listed.len() > 0 {
        let tail = listed.drop_first();
        assert(listed[0].wf());
        assert forall|i: int| 0 <= i < tail.len() implies (#[trigger] tail[i]).wf() by {
            assert(tail[i] == listed[i + 1]);
        }
        lemma_listed(best, listed[0], listing_then(tail, rest));
        lemma_selection_of_listing(
            if better_than(best, listed[0].bandwidth()) {
                Some(listed[0].kept())
            } else {
                best
            },
            tail,
            rest,
        );
    }
}

/// A best representation stays the best while none with a higher bandwidth
/// follows.
proof fn lemma_best_stays(best: RepresentationModel, listed: Seq<ListedModel>)
    requires
        forall|i: int| 0 <= i < listed.len() ==> (#[trigger] listed[i]).bandwidth() <= best.bandwidth,
    ensures
        best_after(Some(best), listed) == Some(best),
    decreases listed.len(),
{
    if listed.len() > 0 {
        assert(listed[0].bandwidth() <= best.bandwidth);
        assert forall|i: int| 0 <= i < listed.drop_first().len() implies (
        #[trigger] listed.drop_first()[i]).bandwidth() <= best.bandwidth by {
            assert(listed.drop_first()[i] == listed[i + 1]);
        }
        lemma_best_stays(best, listed.drop_first());
    }
}

/// The representation at `k` ends up as the best one where it is better
/// than the best before the listing and than all before it, and none is
/// better than it.
proof fn lemma_best_is_first_maximum(
    best: Option<RepresentationModel>,
    listed: Seq<ListedModel>,
    k: int,
)
    requires
        0 <= k < listed.len(),
        better_than(best, listed[k].bandwidth()),
        forall|i: int| 0 <= i < k ==> (#[trigger] listed[i]).bandwidth() < listed[k].bandwidth(),
        forall|i: int|
            0 <= i < listed.len() ==> (#[trigger] listed[i]).bandwidth() <= listed[k].bandwidth(),
    ensures
        best_after(best, listed) == Some(listed[k].kept()),
    decreases listed.len(),
{
    let rest = listed.drop_first();
    if k == 0 {
        assert forall|i: int| 0 <= i < rest.len() implies (#[trigger] rest[i]).bandwidth()
            <= listed[0].kept().bandwidth by {
            assert(rest[i] == listed[i + 1]);
        }
        lemma_best_stays(listed[0].kept(), rest);
    } else {
        let next = if better_than(best, listed[0].bandwidth()) {
            Some(listed[0].kept())
        } else {
            best
        };
        assert(listed[0].bandwidth() < listed[k].bandwidth());
        assert(rest[k - 1] == listed[k]);
        assert forall|i: int| 0 <= i < k - 1 implies (#[trigger] rest[i]).bandwidth() < rest[k
            - 1].bandwidth() by {
            assert(rest[i] == listed[i + 1]);
        }
        assert forall|i: int| 0 <= i < rest.len() implies (#[trigger] rest[i]).bandwidth()
            <= rest[k - 1].bandwidth() by {
            assert(rest[i] == listed[i + 1]);
        }
        lemma_best_is_first_maximum(next, rest, k - 1);
    }
}

/// Of the representations that a manifest lists, the one with the highest
/// bandwidth is chosen, and the first of them where several share it: the
/// one at `k`, where none has a higher bandwidth and all before it have a
/// lower one.
///
/// The manifest may hold anything before, between, within and behind its
/// representations, as long as that is no tag of a representation or of an
/// address: `before` stands before the first representation, and the
/// document ends behind the last one, or with an `Eof` there and whatever
/// follows it in `rest`.
pub proof fn law_highest_bandwidth_is_selected(
    before: Seq<EventModel>,
    listed: Seq<ListedModel>,
    rest: Seq<EventModel>,
    k: int,
)
    requires
        all_quiet(before),
        forall|i: int| 0 <= i < listed.len() ==> (#[trigger] listed[i]).wf(),
        rest.len() == 0 || rest[0] is Eof,
        0 <= k < listed.len(),
        forall|i: int| 0 <= i < k ==> (#[trigger] listed[i]).bandwidth() < listed[k].bandwidth(),
        forall|i: int|
            0 <= i < listed.len() ==> (#[trigger] listed[i]).bandwidth() <= listed[k].bandwidth(),
    ensures
        selection(SelectorModel::start(), before + listing_then(listed, rest)) == Ok::<
            Seq<char>,
            ManifestError,
        >(listed[k].base_url()),
{
    lemma_quiet_events(idle(None), before, listing_then(listed, rest));
    lemma_selection_of_listing(None, listed, rest);
    lemma_best_is_first_maximum(None, listed, k);
}

/// Where a manifest lists no representation, none is chosen.
pub proof fn law_nothing_selected_without_representation(
    before: Seq<EventModel>,
    rest: Seq<EventModel>,
)
    requires
        all_quiet(before),
        rest.len() == 0 || rest[0] is Eof,
    ensures
        selection(SelectorModel::start(), before + rest) == Err::<Seq<char>, ManifestError>(
            ManifestError::NoRepresentation,
        ),
{
    lemma_quiet_events(idle(None), before, rest);
}

} // verus!
