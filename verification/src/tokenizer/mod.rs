//! The tokenizer: walks a template given as token trees, reports what is
//! wrong with it to a sink, and collects the elements it names.
//!
//! A template is a list of elements (`html`), each followed by at most two
//! bracketed lists, or a single bracketed root list of elements.

use vstd::prelude::*;

pub mod laws;
pub mod messages;
mod stream;

use self::messages::{Error, Info, MessageTypes, MessageView, Warning};

pub use self::messages::Message;
pub use self::stream::{read_tokens, stream_tokens};

verus! {

pub const EMPTY_TEMPLATE: &'static str = "Template is empty";

pub const AMBIGUOUS_EMPTY_LIST: &'static str =
    "Ambiguous empty list. This can be ommitted, or you can try adding attributes or children";

pub const EMPTY_ROOT_LIST_OPTIONAL: &'static str = "Template is empty, root list is optional";

pub const EMPTY_LISTS_OPTIONAL: &'static str = "Empty trailing lists are optional following an element";

pub const URECOGNIZED_NODE_TYPE: &'static str = "Unrecognized node type";

pub const UNEXPECTED_LITERAL: &'static str = "Unexpected literal";

pub const ELEMENT_FOLLOWING_ROOT_GROUP: &'static str = "Unexpected element following root group";

pub const INVALID_NESTED_GROUPS: &'static str = "Invalid group nesting";

pub const UNEXPECTED_DELIMITER: &'static str = "Unexpected delimiter";

pub const UNEXPECTED_PUNCTUATION: &'static str = "Unexpected punctuation";

/// The delimiter around a group of tokens.
#[derive(Clone, Copy, Debug, PartialEq, Eq, Structural)]
pub enum Delimiter {
    /// `( ... )`
    Parenthesis,
    /// `{ ... }`
    Brace,
    /// `[ ... ]`
    Bracket,
    /// A group without visible delimiters.
    Invisible,
}

/// One token tree of a template: a delimited group of token trees, an
/// identifier, a punctuation character or a literal.
#[derive(Debug, PartialEq, Eq)]
pub enum Token {
    Group(Delimiter, Vec<Token>),
    Ident(String),
    Punct(char),
    Literal(String),
}

#[derive(Clone, Copy, Debug, PartialEq, Eq, Structural)]
pub struct Container {}

#[derive(Clone, Copy, Debug, PartialEq, Eq, Structural)]
pub struct Attribute {}

/// An element of a template: its kind (the identifier that names it) and
/// its attributes.
#[derive(Clone, Debug, PartialEq, Eq)]
pub struct Element {
    kind: String,
    attributes: Vec<Attribute>,
}

/// Abstract form of an element: the text of its kind and how many
/// attributes it has.
pub ghost struct ElementView {
    pub kind: Seq<char>,
    pub attributes: nat,
}

impl View for Element {
    type V = ElementView;

    closed spec fn view(&self) -> ElementView {
        ElementView { kind: self.kind@, attributes: self.attributes@.len() }
    }
}

/// The abstract form of an element of the given kind without attributes.
pub open spec fn bare_element(kind: Seq<char>) -> ElementView {
    ElementView { kind, attributes: 0 }
}

impl Element {
    /// An element of the given kind, without attributes.
    pub fn new(kind: &str) -> (r: Element)
        ensures
            r@ == bare_element(kind@),
    {
        Element { kind: kind.to_owned(), attributes: Vec::new() }
    }

    fn of_kind(kind: String) -> (r: Element)
        ensures
            r@ == bare_element(kind@),
    {
        Element { kind, attributes: Vec::new() }
    }
}

#[derive(Clone, Debug, PartialEq, Eq)]
pub enum ParseEvents {
    ParsedContainer(Container),
    ParsedElement(Element),
    ParsedAttribute(Attribute),
}

/// What a tokenizer hands to a sink: something it parsed, or a message.
#[derive(Clone, Debug, PartialEq, Eq)]
pub enum TreeEvents {
    Parse(ParseEvents),
    Message(Message),
}

pub ghost enum ParseEventView {
    ParsedContainer,
    ParsedElement(ElementView),
    ParsedAttribute,
}

/// Abstract form of an event handed to a sink.
pub ghost enum TreeEventView {
    Parse(ParseEventView),
    Message(MessageView),
}

impl View for ParseEvents {
    type V = ParseEventView;

    open spec fn view(&self) -> ParseEventView {
        match self {
            ParseEvents::ParsedContainer(_) => ParseEventView::ParsedContainer,
            ParseEvents::ParsedElement(e) => ParseEventView::ParsedElement(e@),
            ParseEvents::ParsedAttribute(_) => ParseEventView::ParsedAttribute,
        }
    }
}

impl View for TreeEvents {
    type V = TreeEventView;

    open spec fn view(&self) -> TreeEventView {
        match self {
            TreeEvents::Parse(p) => TreeEventView::Parse(p@),
            TreeEvents::Message(m) => TreeEventView::Message(m@),
        }
    }
}

/// The events that hand the given messages to a sink, in order.
pub open spec fn message_events(messages: Seq<MessageView>) -> Seq<TreeEventView> {
    messages.map_values(|m: MessageView| TreeEventView::Message(m))
}

/// The abstract forms of the given elements, in order.
pub open spec fn element_views(elements: Seq<Element>) -> Seq<ElementView> {
    elements.map_values(|e: Element| e@)
}

/// The abstract forms of the given events, in order.
pub open spec fn event_views(events: Seq<TreeEvents>) -> Seq<TreeEventView> {
    events.map_values(|e: TreeEvents| e@)
}

pub proof fn lemma_event_views_push(a: Seq<TreeEvents>, e: TreeEvents)
    ensures
        event_views(a.push(e)) == event_views(a).push(e@),
{
    assert(event_views(a.push(e)) =~= event_views(a).push(e@));
}

pub proof fn lemma_message_events_concat(a: Seq<MessageView>, b: Seq<MessageView>)
    ensures
        message_events(a + b) == message_events(a) + message_events(b),
{
    assert(message_events(a + b) =~= message_events(a) + message_events(b));
}

pub proof fn lemma_message_events_single(m: MessageView)
    ensures
        message_events(seq![m]) == seq![TreeEventView::Message(m)],
{
    assert(message_events(seq![m]) =~= seq![TreeEventView::Message(m)]);
}

pub proof fn lemma_message_events_empty()
    ensures
        message_events(Seq::<MessageView>::empty()) == Seq::<TreeEventView>::empty(),
{
    assert(message_events(Seq::<MessageView>::empty()) =~= Seq::<TreeEventView>::empty());
}

pub proof fn lemma_element_views_concat(a: Seq<Element>, b: Seq<Element>)
    ensures
        element_views(a + b) == element_views(a) + element_views(b),
{
    assert(element_views(a + b) =~= element_views(a) + element_views(b));
}

pub proof fn lemma_element_views_push(a: Seq<Element>, e: Element)
    ensures
        element_views(a.push(e)) == element_views(a) + seq![e@],
{
    assert(element_views(a.push(e)) =~= element_views(a) + seq![e@]);
}

/// How a condition found in a template is reported.
#[derive(Clone, Copy, Debug, PartialEq, Eq, Structural)]
pub enum NotifyStrategies {
    Ignore,
    Warning,
    Error,
}

/// Settings of the tokenizer: how to report an empty template, and how to
/// report an element of a kind it does not know.
#[derive(Clone, Copy, Debug, PartialEq, Eq, Structural)]
pub struct Options {
    pub empty_template: NotifyStrategies,
    pub unrecognized_node_type: NotifyStrategies,
}

impl Options {
    /// The default settings: both conditions are reported as warnings.
    pub open spec fn defaults() -> Options {
        Options {
            empty_template: NotifyStrategies::Warning,
            unrecognized_node_type: NotifyStrategies::Warning,
        }
    }
}

impl Default for Options {
    fn default() -> (r: Self)
        ensures
            r == Options::defaults(),
    {
        Options {
            empty_template: NotifyStrategies::Warning,
            unrecognized_node_type: NotifyStrategies::Warning,
        }
    }
}

/// The settings in force when the caller gives `options`.
pub open spec fn effective_options(options: Option<Options>) -> Options {
    match options {
        Some(o) => o,
        None => Options::defaults(),
    }
}

pub open spec fn warning_of(text: Seq<char>) -> MessageView {
    MessageView { message_type: MessageTypes::Warning, message: text, at_call_site: true }
}

pub open spec fn error_of(text: Seq<char>) -> MessageView {
    MessageView { message_type: MessageTypes::Error, message: text, at_call_site: true }
}

pub open spec fn info_of(text: Seq<char>) -> MessageView {
    MessageView { message_type: MessageTypes::Info, message: text, at_call_site: true }
}

/// The messages that report `text` under `strategy`: none when it is
/// ignored, else one message of the strategy's severity.
pub open spec fn notified(strategy: NotifyStrategies, text: Seq<char>) -> Seq<MessageView> {
    match strategy {
        NotifyStrategies::Ignore => seq![],
        NotifyStrategies::Warning => seq![warning_of(text)],
        NotifyStrategies::Error => seq![error_of(text)],
    }
}

/// Receives what a tokenizer finds.
pub trait ITreeSink {
    type TResult;
    type TError;

    /// The events the sink has accepted, oldest first.
    spec fn received(&self) -> Seq<TreeEventView>;

    /// How many more events the sink is sure to accept.
    spec fn room(&self) -> nat;

    /// Hands one event to the sink. A sink with room accepts it; an accepted
    /// event is recorded after those received before, and takes up at most
    /// one place of the room.
    fn handle(&mut self, input: TreeEvents) -> (r: Result<Self::TResult, Self::TError>)
        ensures
            old(self).room() > 0 ==> r is Ok,
            r is Ok ==> final(self).received() == old(self).received().push(input@),
            r is Ok ==> final(self).room() + 1 >= old(self).room(),
    ;

    /// Hands the sink an informational message at the call site.
    ///
    /// Where the sink refuses the event, its error is handed back: the
    /// tokenizer never panics on a refused event.
    fn info(&mut self, message: &str) -> (r: Result<(), Self::TError>)
        ensures
            old(self).room() > 0 ==> r is Ok,
            r is Ok ==> final(self).received() == old(self).received().push(
                TreeEventView::Message(info_of(message@)),
            ),
            r is Ok ==> final(self).room() + 1 >= old(self).room(),
    {
        match self.handle(TreeEvents::Message(Info::call_site(message))) {
            Ok(_) => Ok(()),
            Err(e) => Err(e),
        }
    }

    /// Hands the sink a warning at the call site.
    ///
    /// Where the sink refuses the event, its error is handed back: the
    /// tokenizer never panics on a refused event.
    fn warning(&mut self, message: &str) -> (r: Result<(), Self::TError>)
        ensures
            old(self).room() > 0 ==> r is Ok,
            r is Ok ==> final(self).received() == old(self).received().push(
                TreeEventView::Message(warning_of(message@)),
            ),
            r is Ok ==> final(self).room() + 1 >= old(self).room(),
    {
        match self.handle(TreeEvents::Message(Warning::call_site(message))) {
            Ok(_) => Ok(()),
            Err(e) => Err(e),
        }
    }

    /// Hands the sink an error at the call site.
    ///
    /// Where the sink refuses the event, its error is handed back: the
    /// tokenizer never panics on a refused event.
    fn error(&mut self, message: &str) -> (r: Result<(), Self::TError>)
        ensures
            old(self).room() > 0 ==> r is Ok,
            r is Ok ==> final(self).received() == old(self).received().push(
                TreeEventView::Message(error_of(message@)),
            ),
            r is Ok ==> final(self).room() + 1 >= old(self).room(),
    {
        match self.handle(TreeEvents::Message(Error::call_site(message))) {
            Ok(_) => Ok(()),
            Err(e) => Err(e),
        }
    }

    /// Reports `message` as `strategy` asks: not at all, as a warning or
    /// as an error.
    ///
    /// Where the sink refuses the event, its error is handed back: the
    /// tokenizer never panics on a refused event.
    fn notify(&mut self, strategy: &NotifyStrategies, message: &str) -> (r: Result<
        (),
        Self::TError,
    >)
        ensures
            old(self).room() >= notified(*strategy, message@).len() ==> r is Ok,
            r is Ok ==> final(self).received() == old(self).received() + message_events(
                notified(*strategy, message@),
            ),
            r is Ok ==> final(self).room() + notified(*strategy, message@).len() >= old(
                self,
            ).room(),
    {
        proof {
            lemma_message_events_single(warning_of(message@));
            lemma_message_events_single(error_of(message@));
            lemma_message_events_empty();
        }
        match strategy {
            NotifyStrategies::Ignore => {
                assert(self.received() + Seq::<TreeEventView>::empty() =~= self.received());
                Ok(())
            },
            NotifyStrategies::Warning => self.warning(message),
            NotifyStrategies::Error => self.error(message),
        }
    }

    /// Hands the sink a parsed element.
    ///
    /// Where the sink refuses the event, its error is handed back: the
    /// tokenizer never panics on a refused event.
    fn element(&mut self, element: Element) -> (r: Result<Self::TResult, Self::TError>)
        ensures
            old(self).room() > 0 ==> r is Ok,
            r is Ok ==> final(self).received() == old(self).received().push(
                TreeEventView::Parse(ParseEventView::ParsedElement(element@)),
            ),
            r is Ok ==> final(self).room() + 1 >= old(self).room(),
    {
        self.handle(TreeEvents::Parse(ParseEvents::ParsedElement(element)))
    }
}


/// Where the tokenizer stands after the tokens read so far of one list.
pub ghost enum Mode {
    /// A malformed nesting was found; the rest of the list is skipped.
    Error,
    /// Nothing read yet.
    Empty,
    /// A root list was read; whether it was empty.
    RootGroup(bool),
    /// An element of the given kind was read.
    Element(Seq<char>),
    /// An element followed by one list; whether the list was empty.
    ElementGroup(Seq<char>, bool),
    /// An element followed by two lists; whether each was empty.
    ElementGroups(Seq<char>, bool, bool),
}

/// The exec form of `Mode`.
pub enum ParseModes {
    Error,
    Empty,
    RootGroup(bool),
    Element(String),
    ElementGroup(String, bool),
    ElementGroups(String, bool, bool),
}

impl View for ParseModes {
    type V = Mode;

    open spec fn view(&self) -> Mode {
        match self {
            ParseModes::Error => Mode::Error,
            ParseModes::Empty => Mode::Empty,
            ParseModes::RootGroup(e) => Mode::RootGroup(*e),
            ParseModes::Element(k) => Mode::Element(k@),
            ParseModes::ElementGroup(k, e) => Mode::ElementGroup(k@, *e),
            ParseModes::ElementGroups(k, e1, e2) => Mode::ElementGroups(k@, *e1, *e2),
        }
    }
}

/// What reading part of a template gives: the mode reached, the messages
/// raised and the elements completed, in order.
pub ghost struct Outcome {
    pub mode: Mode,
    pub messages: Seq<MessageView>,
    pub elements: Seq<ElementView>,
}

/// The messages raised for an element of kind `kind`: none for `html`, else
/// the unrecognised-kind report that `options` asks for.
pub open spec fn kind_messages(options: Options, kind: Seq<char>) -> Seq<MessageView> {
    if kind == "html"@ {
        seq![]
    } else {
        notified(options.unrecognized_node_type, URECOGNIZED_NODE_TYPE@)
    }
}

/// What closing the construct in progress gives (its mode is kept): an
/// element is completed, with a warning when the lists after it are empty;
/// an empty root list is reported as optional.
pub open spec fn closing(mode: Mode) -> Outcome {
    match mode {
        Mode::RootGroup(empty) => Outcome {
            mode,
            messages: if empty { seq![warning_of(EMPTY_ROOT_LIST_OPTIONAL@)] } else { seq![] },
            elements: seq![],
        },
        Mode::Element(k) => Outcome { mode, messages: seq![], elements: seq![bare_element(k)] },
        Mode::ElementGroup(k, empty) => Outcome {
            mode,
            messages: if empty { seq![warning_of(AMBIGUOUS_EMPTY_LIST@)] } else { seq![] },
            elements: seq![bare_element(k)],
        },
        Mode::ElementGroups(k, e1, e2) => Outcome {
            mode,
            messages: if e1 && e2 { seq![warning_of(EMPTY_LISTS_OPTIONAL@)] } else { seq![] },
            elements: seq![bare_element(k)],
        },
        _ => Outcome { mode, messages: seq![], elements: seq![] },
    }
}

/// One token read in `mode`: the mode reached, and the messages and
/// elements it gives. Inside a list (`nested`) a list may only follow an
/// element; at the root, a list that comes first is the root list, read as
/// a whole.
pub open spec fn step(options: Options, mode: Mode, token: Token, nested: bool) -> Outcome
    decreases (if nested { 0int } else { 1int }), 0int,
{
    match token {
        Token::Ident(name) => match mode {
            Mode::Empty => Outcome {
                mode: Mode::Element(name@),
                messages: kind_messages(options, name@),
                elements: seq![],
            },
            Mode::RootGroup(_) => Outcome {
                mode: Mode::Element(name@),
                messages: seq![error_of(ELEMENT_FOLLOWING_ROOT_GROUP@)],
                elements: seq![],
            },
            Mode::Error => Outcome { mode, messages: seq![], elements: seq![] },
            _ => Outcome {
                mode: Mode::Element(name@),
                messages: closing(mode).messages + kind_messages(options, name@),
                elements: closing(mode).elements,
            },
        },
        Token::Group(delimiter, inner) => if delimiter != Delimiter::Bracket {
            Outcome { mode, messages: seq![error_of(UNEXPECTED_DELIMITER@)], elements: seq![] }
        } else {
            match mode {
                Mode::Empty => if nested {
                    Outcome {
                        mode: Mode::Error,
                        messages: seq![error_of(INVALID_NESTED_GROUPS@)],
                        elements: seq![],
                    }
                } else {
                    let list = tokenize(options, inner@, true);
                    Outcome {
                        mode: Mode::RootGroup(inner@.len() == 0),
                        messages: list.messages,
                        elements: list.elements,
                    }
                },
                Mode::RootGroup(_) => Outcome {
                    mode: Mode::Error,
                    messages: seq![error_of(INVALID_NESTED_GROUPS@)],
                    elements: seq![],
                },
                Mode::Element(k) => Outcome {
                    mode: Mode::ElementGroup(k, inner@.len() == 0),
                    messages: seq![],
                    elements: seq![],
                },
                Mode::ElementGroup(k, e) => Outcome {
                    mode: Mode::ElementGroups(k, e, inner@.len() == 0),
                    messages: seq![],
                    elements: seq![],
                },
                _ => Outcome { mode, messages: seq![], elements: seq![] },
            }
        },
        Token::Punct(_) => Outcome {
            mode,
            messages: seq![error_of(UNEXPECTED_PUNCTUATION@)],
            elements: seq![],
        },
        Token::Literal(_) => Outcome {
            mode,
            messages: seq![error_of(UNEXPECTED_LITERAL@)],
            elements: seq![],
        },
    }
}

/// Reading the tokens of one list, from the start, one by one.
pub open spec fn run(options: Options, tokens: Seq<Token>, nested: bool) -> Outcome
    decreases (if nested { 0int } else { 1int }), tokens.len(),
{
    if tokens.len() == 0 {
        Outcome { mode: Mode::Empty, messages: seq![], elements: seq![] }
    } else {
        let before = run(options, tokens.drop_last(), nested);
        let last = step(options, before.mode, tokens.last(), nested);
        Outcome {
            mode: last.mode,
            messages: before.messages + last.messages,
            elements: before.elements + last.elements,
        }
    }
}

/// Reading a whole list: its tokens, then the closing of what is in
/// progress at its end.
pub open spec fn tokenize(options: Options, tokens: Seq<Token>, nested: bool) -> Outcome
    decreases (if nested { 0int } else { 1int }), tokens.len() + 1,
{
    let read = run(options, tokens, nested);
    let end = closing(read.mode);
    Outcome {
        mode: read.mode,
        messages: read.messages + end.messages,
        elements: read.elements + end.elements,
    }
}

/// The messages raised by a template: the empty-template report when it has
/// no tokens, else those of reading its tokens at the top level.
pub open spec fn template_messages(options: Options, tokens: Seq<Token>) -> Seq<MessageView> {
    if tokens.len() == 0 {
        notified(options.empty_template, EMPTY_TEMPLATE@)
    } else {
        tokenize(options, tokens, false).messages
    }
}

/// The elements of a template, in the order they are completed.
pub open spec fn template_elements(options: Options, tokens: Seq<Token>) -> Seq<ElementView> {
    if tokens.len() == 0 {
        seq![]
    } else {
        tokenize(options, tokens, false).elements
    }
}


/// What a template was read into.
#[derive(Clone, Debug, PartialEq, Eq)]
pub enum DomTokenStream {
    Empty,
    Element(Element),
    Elements(Vec<Element>),
    Attribute(Attribute),
    Attributes(Vec<Attribute>),
}

impl DomTokenStream {
    /// The elements held, in order.
    pub open spec fn elements(&self) -> Seq<ElementView> {
        match self {
            DomTokenStream::Element(e) => seq![e@],
            DomTokenStream::Elements(v) => element_views(v@),
            _ => seq![],
        }
    }

    /// The stream that holds `elements`: nothing, a single element, or a
    /// list of two or more.
    pub fn from_elements(elements: Vec<Element>) -> (r: DomTokenStream)
        ensures
            r.elements() == element_views(elements@),
            elements@.len() == 0 ==> r is Empty,
            elements@.len() == 1 ==> r is Element,
            elements@.len() > 1 ==> r is Elements,
    {
        let mut elements = elements;
        if elements.len() == 0 {
            proof {
                assert(element_views(elements@) =~= Seq::<ElementView>::empty());
            }
            DomTokenStream::Empty
        } else if elements.len() == 1 {
            let ghost all = elements@;
            let e = elements.pop().unwrap();
            proof {
                assert(element_views(all) =~= seq![e@]);
            }
            DomTokenStream::Element(e)
        } else {
            DomTokenStream::Elements(elements)
        }
    }
}

/// Reports an element of an unknown kind as `options` asks.
fn check_kind<TSink: ITreeSink>(options: &Options, sink: &mut TSink, kind: &String) -> (r: Result<
    (),
    TSink::TError,
>)
    ensures
        old(sink).room() >= kind_messages(*options, kind@).len() ==> r is Ok,
        r is Ok ==> final(sink).received() == old(sink).received() + message_events(
            kind_messages(*options, kind@),
        ),
        r is Ok ==> final(sink).room() + kind_messages(*options, kind@).len() >= old(sink).room(),
{
    let html = "html".to_owned();
    if *kind == html {
        proof {
            lemma_message_events_empty();
            assert(sink.received() + Seq::<TreeEventView>::empty() =~= sink.received());
        }
        Ok(())
    } else {
        sink.notify(&options.unrecognized_node_type, URECOGNIZED_NODE_TYPE)
    }
}

/// Closes the construct in progress in `mode`: reports what `closing` says
/// and appends the completed element, if any, to `elements`.
fn close_construct<TSink: ITreeSink>(
    sink: &mut TSink,
    mode: &ParseModes,
    elements: &mut Vec<Element>,
) -> (r: Result<(), TSink::TError>)
    ensures
        old(sink).room() >= closing(mode@).messages.len() ==> r is Ok,
        r is Ok ==> {
            &&& final(sink).received() == old(sink).received() + message_events(
                closing(mode@).messages,
            )
            &&& element_views(final(elements)@) == element_views(old(elements)@) + closing(
                mode@,
            ).elements
            &&& final(sink).room() + closing(mode@).messages.len() >= old(sink).room()
        },
{
    proof {
        lemma_message_events_empty();
        assert(sink.received() + Seq::<TreeEventView>::empty() =~= sink.received());
        assert(element_views(elements@) + Seq::<ElementView>::empty() =~= element_views(
            elements@,
        ));
    }
    match mode {
        ParseModes::RootGroup(empty) => {
            if *empty {
                proof {
                    lemma_message_events_single(warning_of(EMPTY_ROOT_LIST_OPTIONAL@));
                }
                sink.warning(EMPTY_ROOT_LIST_OPTIONAL)
            } else {
                Ok(())
            }
        },
        ParseModes::Element(k) => {
            let e = Element::of_kind(k.clone());
            proof {
                lemma_element_views_push(elements@, e);
            }
            elements.push(e);
            Ok(())
        },
        ParseModes::ElementGroup(k, empty) => {
            if *empty {
                proof {
                    lemma_message_events_single(warning_of(AMBIGUOUS_EMPTY_LIST@));
                }
                match sink.warning(AMBIGUOUS_EMPTY_LIST) {
                    Ok(_) => {},
                    Err(e) => {
                        return Err(e);
                    },
                }
            }
            let e = Element::of_kind(k.clone());
            proof {
                lemma_element_views_push(elements@, e);
            }
            elements.push(e);
            Ok(())
        },
        ParseModes::ElementGroups(k, e1, e2) => {
            if *e1 && *e2 {
                proof {
                    lemma_message_events_single(warning_of(EMPTY_LISTS_OPTIONAL@));
                }
                match sink.warning(EMPTY_LISTS_OPTIONAL) {
                    Ok(_) => {},
                    Err(e) => {
                        return Err(e);
                    },
                }
            }
            let e = Element::of_kind(k.clone());
            proof {
                lemma_element_views_push(elements@, e);
            }
            elements.push(e);
            Ok(())
        },
        _ => Ok(()),
    }
}


/// Reads one token in `mode`: reports to the sink and appends to `elements`
/// what `step` gives, and returns the mode reached.
fn read_token<TSink: ITreeSink>(
    options: &Options,
    sink: &mut TSink,
    mode: ParseModes,
    elements: &mut Vec<Element>,
    token: &Token,
    nested: bool,
) -> (r: Result<ParseModes, TSink::TError>)
    ensures
        old(sink).room() >= step(*options, mode@, *token, nested).messages.len() ==> r is Ok,
        r matches Ok(m) ==> {
            let d = step(*options, mode@, *token, nested);
            &&& m@ == d.mode
            &&& final(sink).received() == old(sink).received() + message_events(d.messages)
            &&& element_views(final(elements)@) == element_views(old(elements)@) + d.elements
            &&& final(sink).room() + d.messages.len() >= old(sink).room()
        },
    decreases (if nested { 0int } else { 1int }), 0int,
{
    let ghost sink0 = sink.received();
    let ghost els0 = element_views(elements@);
    proof {
        lemma_message_events_empty();
        assert(sink0 + Seq::<TreeEventView>::empty() =~= sink0);
        assert(els0 + Seq::<ElementView>::empty() =~= els0);
    }
    match token {
        Token::Ident(name) => match mode {
            ParseModes::Empty => {
                match check_kind(options, sink, name) {
                    Ok(_) => {},
                    Err(e) => {
                        return Err(e);
                    },
                }
                Ok(ParseModes::Element(name.clone()))
            },
            ParseModes::RootGroup(_) => {
                proof {
                    lemma_message_events_single(error_of(ELEMENT_FOLLOWING_ROOT_GROUP@));
                }
                match sink.error(ELEMENT_FOLLOWING_ROOT_GROUP) {
                    Ok(_) => {},
                    Err(e) => {
                        return Err(e);
                    },
                }
                Ok(ParseModes::Element(name.clone()))
            },
            ParseModes::Error => Ok(ParseModes::Error),
            other => {
                let ghost close = closing(other@);
                match close_construct(sink, &other, elements) {
                    Ok(_) => {},
                    Err(e) => {
                        return Err(e);
                    },
                }
                let ghost sink1 = sink.received();
                match check_kind(options, sink, name) {
                    Ok(_) => {},
                    Err(e) => {
                        return Err(e);
                    },
                }
                proof {
                    lemma_message_events_concat(close.messages, kind_messages(*options, name@));
                    assert(sink.received() =~= sink0 + message_events(close.messages)
                        + message_events(kind_messages(*options, name@)));
                }
                Ok(ParseModes::Element(name.clone()))
            },
        },
        Token::Group(delimiter, inner) => {
            if *delimiter != Delimiter::Bracket {
                proof {
                    lemma_message_events_single(error_of(UNEXPECTED_DELIMITER@));
                }
                match sink.error(UNEXPECTED_DELIMITER) {
                    Ok(_) => {},
                    Err(e) => {
                        return Err(e);
                    },
                }
                return Ok(mode);
            }
            match mode {
                ParseModes::Empty => {
                    if nested {
                        proof {
                            lemma_message_events_single(error_of(INVALID_NESTED_GROUPS@));
                        }
                        match sink.error(INVALID_NESTED_GROUPS) {
                            Ok(_) => {},
                            Err(e) => {
                                return Err(e);
                            },
                        }
                        Ok(ParseModes::Error)
                    } else {
                        let mut list = match tokenize_list(options, sink, inner, true) {
                            Ok(v) => v,
                            Err(e) => {
                                return Err(e);
                            },
                        };
                        proof {
                            lemma_element_views_concat(elements@, list@);
                        }
                        elements.append(&mut list);
                        Ok(ParseModes::RootGroup(inner.len() == 0))
                    }
                },
                ParseModes::RootGroup(_) => {
                    proof {
                        lemma_message_events_single(error_of(INVALID_NESTED_GROUPS@));
                    }
                    match sink.error(INVALID_NESTED_GROUPS) {
                        Ok(_) => {},
                        Err(e) => {
                            return Err(e);
                        },
                    }
                    Ok(ParseModes::Error)
                },
                ParseModes::Element(k) => Ok(ParseModes::ElementGroup(k, inner.len() == 0)),
                ParseModes::ElementGroup(k, e) => Ok(
                    ParseModes::ElementGroups(k, e, inner.len() == 0),
                ),
                other => Ok(other),
            }
        },
        Token::Punct(_) => {
            proof {
                lemma_message_events_single(error_of(UNEXPECTED_PUNCTUATION@));
            }
            match sink.error(UNEXPECTED_PUNCTUATION) {
                Ok(_) => {},
                Err(e) => {
                    return Err(e);
                },
            }
            Ok(mode)
        },
        Token::Literal(_) => {
            proof {
                lemma_message_events_single(error_of(UNEXPECTED_LITERAL@));
            }
            match sink.error(UNEXPECTED_LITERAL) {
                Ok(_) => {},
                Err(e) => {
                    return Err(e);
                },
            }
            Ok(mode)
        },
    }
}

/// Reading a prefix of a list raises no more messages than reading all of it.
proof fn lemma_run_prefix_len(options: Options, tokens: Seq<Token>, i: int, nested: bool)
    requires
        0 <= i <= tokens.len(),
    ensures
        run(options, tokens.take(i), nested).messages.len() <= run(
            options,
            tokens,
            nested,
        ).messages.len(),
    decreases tokens.len() - i,
{
    if i < tokens.len() {
        lemma_run_prefix_len(options, tokens, i + 1, nested);
        assert(tokens.take(i + 1).drop_last() =~= tokens.take(i));
    } else {
        assert(tokens.take(i) =~= tokens);
    }
}

/// Reads a whole list of tokens: reports to the sink what `tokenize` gives
/// and returns the elements completed, in order.
fn tokenize_list<TSink: ITreeSink>(
    options: &Options,
    sink: &mut TSink,
    tokens: &Vec<Token>,
    nested: bool,
) -> (r: Result<Vec<Element>, TSink::TError>)
    ensures
        old(sink).room() >= tokenize(*options, tokens@, nested).messages.len() ==> r is Ok,
        r matches Ok(els) ==> {
            let o = tokenize(*options, tokens@, nested);
            &&& final(sink).received() == old(sink).received() + message_events(o.messages)
            &&& element_views(els@) == o.elements
            &&& final(sink).room() + o.messages.len() >= old(sink).room()
        },
    decreases (if nested { 0int } else { 1int }), 1int,
{
    let ghost sink0 = sink.received();
    let ghost room0 = sink.room();
    let ghost total = tokenize(*options, tokens@, nested).messages.len();
    let mut mode = ParseModes::Empty;
    let mut elements: Vec<Element> = Vec::new();
    let mut i: usize = 0;
    proof {
        lemma_message_events_empty();
        assert(sink0 + Seq::<TreeEventView>::empty() =~= sink0);
        assert(tokens@.take(0) =~= Seq::<Token>::empty());
        assert(element_views(elements@) =~= Seq::<ElementView>::empty());
    }
    while i < tokens.len()
        invariant
            0 <= i <= tokens@.len(),
            ({
                let o = run(*options, tokens@.take(i as int), nested);
                &&& o.mode == mode@
                &&& o.elements == element_views(elements@)
                &&& sink.received() == sink0 + message_events(o.messages)
                &&& sink.room() + o.messages.len() >= room0
            }),
            total == tokenize(*options, tokens@, nested).messages.len(),
            room0 == old(sink).room(),
        decreases tokens@.len() - i,
    {
        let ghost before = run(*options, tokens@.take(i as int), nested);
        proof {
            lemma_run_prefix_len(*options, tokens@, i + 1, nested);
            assert(tokens@.take(i + 1).drop_last() =~= tokens@.take(i as int));
            assert(tokens@.take(i + 1).last() == tokens@[i as int]);
            assert(total >= run(*options, tokens@, nested).messages.len());
            assert(run(*options, tokens@.take(i + 1), nested).messages.len() == before.messages.len()
                + step(*options, before.mode, tokens@[i as int], nested).messages.len());
        }
        mode = match read_token(options, sink, mode, &mut elements, &tokens[i], nested) {
            Ok(m) => m,
            Err(e) => {
                return Err(e);
            },
        };
        proof {
            let d = step(*options, before.mode, tokens@[i as int], nested);
            assert(tokens@.take(i + 1).drop_last() =~= tokens@.take(i as int));
            assert(tokens@.take(i + 1).last() == tokens@[i as int]);
            lemma_message_events_concat(before.messages, d.messages);
            assert(sink.received() =~= sink0 + message_events(before.messages + d.messages));
        }
        i = i + 1;
    }
    let ghost read = run(*options, tokens@, nested);
    proof {
        assert(tokens@.take(i as int) =~= tokens@);
    }
    assert(room0 >= total ==> sink.room() >= closing(read.mode).messages.len());
    match close_construct(sink, &mode, &mut elements) {
        Ok(_) => {},
        Err(e) => {
            return Err(e);
        },
    }
    proof {
        lemma_message_events_concat(read.messages, closing(read.mode).messages);
        assert(sink.received() =~= sink0 + message_events(
            read.messages + closing(read.mode).messages,
        ));
    }
    Ok(elements)
}

/// Reads a template given as a proc_macro2 token stream: its token trees
/// are read into `Token`s (see `read_tokens`) and handled as `parse_tokens`
/// handles them.
pub fn parse<TSink: ITreeSink>(
    options: Option<Options>,
    sink: &mut TSink,
    input: proc_macro2::TokenStream,
) -> (r: Result<DomTokenStream, TSink::TError>)
    ensures
        old(sink).room() >= template_messages(
            effective_options(options),
            stream_tokens(input),
        ).len() ==> r is Ok,
        r matches Ok(d) ==> {
            let opts = effective_options(options);
            let t = stream_tokens(input);
            &&& final(sink).received() == old(sink).received() + message_events(
                template_messages(opts, t),
            )
            &&& d.elements() == template_elements(opts, t)
            &&& template_elements(opts, t).len() == 0 ==> d is Empty
            &&& template_elements(opts, t).len() == 1 ==> d is Element
            &&& template_elements(opts, t).len() > 1 ==> d is Elements
            &&& final(sink).room() + template_messages(opts, t).len() >= old(sink).room()
        },
{
    let tokens = read_tokens(&input);
    parse_tokens(options, sink, &tokens)
}

/// Reads a template given as token trees: reports its problems to `sink`,
/// with `options` (or the defaults) deciding how, and returns the elements
/// it names.
///
/// A template without tokens is reported as empty; any other is read as a
/// root list (see `tokenize`). The result holds nothing, one element, or
/// the list of them.
pub fn parse_tokens<TSink: ITreeSink>(
    options: Option<Options>,
    sink: &mut TSink,
    input: &Vec<Token>,
) -> (r: Result<DomTokenStream, TSink::TError>)
    ensures
        old(sink).room() >= template_messages(effective_options(options), input@).len() ==> r is Ok,
        r matches Ok(d) ==> {
            let opts = effective_options(options);
            &&& final(sink).received() == old(sink).received() + message_events(
                template_messages(opts, input@),
            )
            &&& d.elements() == template_elements(opts, input@)
            &&& template_elements(opts, input@).len() == 0 ==> d is Empty
            &&& template_elements(opts, input@).len() == 1 ==> d is Element
            &&& template_elements(opts, input@).len() > 1 ==> d is Elements
            &&& final(sink).room() + template_messages(opts, input@).len() >= old(sink).room()
        },
{
    let options = match options {
        Some(o) => o,
        None => Options::default(),
    };
    if input.len() == 0 {
        return match sink.notify(&options.empty_template, EMPTY_TEMPLATE) {
            Ok(_) => Ok(DomTokenStream::Empty),
            Err(e) => Err(e),
        };
    }
    let elements = match tokenize_list(&options, sink, input, false) {
        Ok(v) => v,
        Err(e) => {
            return Err(e);
        },
    };
    Ok(DomTokenStream::from_elements(elements))
}


/// A key read while parsing.
#[derive(Clone, Debug, PartialEq, Eq)]
pub enum ParseState<'a> {
    Key(&'a str),
}

/// Something that feeds templates to a tree sink.
pub trait ITreeSource<TSink> where TSink: ITreeSink {
    type THandle;
    type TResult;
    type TError;

    /// Hands what the source holds to `sink`, read with `options`.
    fn bind(self, options: Option<Options>, sink: &mut TSink) -> Self::THandle;
}

/// Templates to read: one token stream, or a group of sources read in turn.
#[derive(Debug)]
pub enum TokenTreeSources {
    Group(Vec<TokenTreeSources>),
    TokenStream(Vec<Token>),
}

/// The messages raised by reading every template of `source`, in order.
pub open spec fn source_messages(options: Option<Options>, source: TokenTreeSources) -> Seq<
    MessageView,
>
    decreases source,
{
    match source {
        TokenTreeSources::Group(children) => {
            proof {
                assert(decreases_to!(source => children));
                assert(decreases_to!(children => children@));
            }
            sources_messages(options, children@)
        },
        TokenTreeSources::TokenStream(tokens) => template_messages(
            effective_options(options),
            tokens@,
        ),
    }
}

/// The messages raised by reading the given sources one after another.
pub open spec fn sources_messages(options: Option<Options>, sources: Seq<TokenTreeSources>) -> Seq<
    MessageView,
>
    decreases sources,
{
    if sources.len() == 0 {
        seq![]
    } else {
        proof {
            assert(decreases_to!(sources => sources[sources.len() - 1]));
        }
        sources_messages(options, sources.drop_last()) + source_messages(options, sources.last())
    }
}

/// Reading a list of sources made of two parts reads the first part, then
/// the second.
pub proof fn law_sources_concat(
    options: Option<Options>,
    first: Seq<TokenTreeSources>,
    second: Seq<TokenTreeSources>,
)
    ensures
        sources_messages(options, first + second) == sources_messages(options, first)
            + sources_messages(options, second),
    decreases second.len(),
{
    if second.len() == 0 {
        assert(first + second =~= first);
        assert(sources_messages(options, first) + Seq::<MessageView>::empty() =~= sources_messages(
            options,
            first,
        ));
    } else {
        law_sources_concat(options, first, second.drop_last());
        assert((first + second).drop_last() =~= first + second.drop_last());
        assert((first + second).last() == second.last());
        assert(sources_messages(options, first + second) =~= sources_messages(options, first)
            + sources_messages(options, second));
    }
}

/// A group of sources is read child by child, in order, each child with the
/// group's options: the group's messages are those of its first `k`
/// children followed by those of the rest, for every `k`, and a single
/// child gives that child's messages.
pub proof fn law_group_reads_children_in_turn(
    options: Option<Options>,
    children: Vec<TokenTreeSources>,
    k: int,
)
    requires
        0 <= k <= children@.len(),
    ensures
        source_messages(options, TokenTreeSources::Group(children)) == sources_messages(
            options,
            children@.take(k),
        ) + sources_messages(options, children@.skip(k)),
        children@.len() == 1 ==> source_messages(options, TokenTreeSources::Group(children))
            == source_messages(options, children@[0]),
{
    assert(children@.take(k) + children@.skip(k) =~= children@);
    law_sources_concat(options, children@.take(k), children@.skip(k));
    if children@.len() == 1 {
        assert(children@.drop_last() =~= Seq::<TokenTreeSources>::empty());
        assert(sources_messages(options, children@.drop_last()) == Seq::<MessageView>::empty());
        assert(children@.last() == children@[0]);
        assert(source_messages(options, TokenTreeSources::Group(children)) == sources_messages(
            options,
            children@,
        ));
        assert(Seq::<MessageView>::empty() + source_messages(options, children@[0]) =~= source_messages(
            options,
            children@[0],
        ));
    }
}

/// Binding a source of one token stream with `options` raises exactly the
/// messages that parsing its tokens with `options` raises: the caller's
/// options, not the defaults, decide each report. In particular an empty
/// stream is reported as the given options ask, and not at all when they
/// ignore empty templates.
pub proof fn law_stream_source_reads_with_given_options(
    options: Option<Options>,
    tokens: Vec<Token>,
)
    ensures
        source_messages(options, TokenTreeSources::TokenStream(tokens)) == template_messages(
            effective_options(options),
            tokens@,
        ),
        tokens@.len() == 0 ==> source_messages(options, TokenTreeSources::TokenStream(tokens))
            == notified(effective_options(options).empty_template, EMPTY_TEMPLATE@),
        (options matches Some(o) && o.empty_template == NotifyStrategies::Ignore && tokens@.len()
            == 0) ==> source_messages(options, TokenTreeSources::TokenStream(tokens)) == Seq::<
            MessageView,
        >::empty(),
{
}

/// Reading some of the sources, from the first, raises no more messages than
/// reading all of them.
proof fn lemma_sources_prefix_len(options: Option<Options>, sources: Seq<TokenTreeSources>, i: int)
    requires
        0 <= i <= sources.len(),
    ensures
        sources_messages(options, sources.take(i)).len() <= sources_messages(
            options,
            sources,
        ).len(),
    decreases sources.len() - i,
{
    if i < sources.len() {
        lemma_sources_prefix_len(options, sources, i + 1);
        assert(sources.take(i + 1).drop_last() =~= sources.take(i));
    } else {
        assert(sources.take(i) =~= sources);
    }
}

impl TokenTreeSources {
    /// A source holding the token trees of `input` (see `read_tokens`).
    pub fn from_token_stream(input: proc_macro2::TokenStream) -> (r: Self)
        ensures
            r matches TokenTreeSources::TokenStream(t) && t@ == stream_tokens(input),
    {
        TokenTreeSources::TokenStream(read_tokens(&input))
    }

    /// Reads every template of the source, in order, into `sink`.
    fn bind_all<TSink: ITreeSink>(&self, options: Option<Options>, sink: &mut TSink) -> (r: Result<
        (),
        TSink::TError,
    >)
        ensures
            old(sink).room() >= source_messages(options, *self).len() ==> r is Ok,
            r is Ok ==> final(sink).received() == old(sink).received() + message_events(
                source_messages(options, *self),
            ),
            r is Ok ==> final(sink).room() + source_messages(options, *self).len() >= old(
                sink,
            ).room(),
            *self matches TokenTreeSources::TokenStream(t) ==> (r is Ok ==> final(sink).received()
                == old(sink).received() + message_events(
                template_messages(effective_options(options), t@),
            )),
        decreases self,
    {
        match self {
            TokenTreeSources::Group(children) => {
                let ghost sink0 = sink.received();
                let ghost room0 = sink.room();
                let ghost total = sources_messages(options, children@).len();
                let mut i: usize = 0;
                proof {
                    lemma_message_events_empty();
                    assert(children@.take(0) =~= Seq::<TokenTreeSources>::empty());
                    assert(sink0 + Seq::<TreeEventView>::empty() =~= sink0);
                }
                while i < children.len()
                    invariant
                        0 <= i <= children@.len(),
                        *self == TokenTreeSources::Group(*children),
                        sink.received() == sink0 + message_events(
                            sources_messages(options, children@.take(i as int)),
                        ),
                        sink.room() + sources_messages(options, children@.take(i as int)).len()
                            >= room0,
                        total == sources_messages(options, children@).len(),
                        room0 == old(sink).room(),
                    decreases children@.len() - i,
                {
                    let ghost before = sources_messages(options, children@.take(i as int));
                    proof {
                        lemma_sources_prefix_len(options, children@, i + 1);
                        assert(children@.take(i + 1).drop_last() =~= children@.take(i as int));
                        assert(children@.take(i + 1).last() == children@[i as int]);
                        assert(decreases_to!(*self => (*self)->Group_0));
                        assert((*self)->Group_0 == *children);
                        assert(decreases_to!(*children => children@));
                        assert(decreases_to!(children@ => children@[i as int]));
                        assert(decreases_to!(*self => children@[i as int]));
                    }
                    match children[i].bind_all(options, sink) {
                        Ok(_) => {},
                        Err(e) => {
                            return Err(e);
                        },
                    }
                    proof {
                        let t = children@.take(i + 1);
                        assert(t.drop_last() =~= children@.take(i as int));
                        assert(t.last() == children@[i as int]);
                        lemma_message_events_concat(
                            before,
                            source_messages(options, children@[i as int]),
                        );
                        assert(sink.received() =~= sink0 + message_events(
                            sources_messages(options, t),
                        ));
                    }
                    i = i + 1;
                }
                proof {
                    assert(children@.take(i as int) =~= children@);
                }
                Ok(())
            },
            TokenTreeSources::TokenStream(tokens) => match parse_tokens(options, sink, tokens) {
                Ok(_) => Ok(()),
                Err(e) => Err(e),
            },
        }
    }
}

impl<TSink: ITreeSink> ITreeSource<TSink> for TokenTreeSources {
    type THandle = Result<(), TSink::TError>;
    type TResult = ();
    type TError = ();

    /// Reads every template of the source, in order, into `sink`; stops at
    /// the first event the sink refuses.
    fn bind(self, options: Option<Options>, sink: &mut TSink) -> (r: Result<(), TSink::TError>)
        ensures
            old(sink).room() >= source_messages(options, self).len() ==> r is Ok,
            r is Ok ==> final(sink).received() == old(sink).received() + message_events(
                source_messages(options, self),
            ),
            r is Ok ==> final(sink).room() + source_messages(options, self).len() >= old(
                sink,
            ).room(),
            self matches TokenTreeSources::TokenStream(t) ==> (r is Ok ==> final(sink).received()
                == old(sink).received() + message_events(
                template_messages(effective_options(options), t@),
            )),
    {
        self.bind_all(options, sink)
    }
}

} // verus!
