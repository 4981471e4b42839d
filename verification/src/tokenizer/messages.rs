use vstd::prelude::*;

verus! {

/// Where a message points in the template: the call site of the macro, or
/// an explicit span. The span is kept as the text of its `Debug` rendering,
/// which is what two contexts are compared by.
#[derive(Clone, Debug)]
pub enum MessageContexts {
    CallSite(String),
    Span(String),
}

/// Abstract form of a message context.
pub ghost enum ContextView {
    CallSite(Seq<char>),
    Span(Seq<char>),
}

impl View for MessageContexts {
    type V = ContextView;

    open spec fn view(&self) -> ContextView {
        match self {
            MessageContexts::CallSite(s) => ContextView::CallSite(s@),
            MessageContexts::Span(s) => ContextView::Span(s@),
        }
    }
}

impl Eq for MessageContexts {}

/// Two contexts are equal when they are of the same kind and their spans
/// render to the same text.
impl PartialEq for MessageContexts {
    fn eq(&self, other: &MessageContexts) -> (r: bool) {
        match self {
            MessageContexts::CallSite(l) => match other {
                MessageContexts::CallSite(r) => *l == *r,
                _ => false,
            },
            MessageContexts::Span(l) => match other {
                MessageContexts::Span(r) => *l == *r,
                _ => false,
            },
        }
    }
}

impl vstd::std_specs::cmp::PartialEqSpecImpl for MessageContexts {
    open spec fn obeys_eq_spec() -> bool {
        true
    }

    open spec fn eq_spec(&self, other: &MessageContexts) -> bool {
        self@ == other@
    }
}

/// Severity of a message.
#[derive(Clone, Copy, Debug, PartialEq, Eq, Structural)]
pub enum MessageTypes {
    Info,
    Warning,
    Error,
}

/// A diagnostic raised while reading a template: where it points, how severe
/// it is, and its text.
#[derive(Clone, Debug, PartialEq, Eq)]
pub struct Message {
    context: MessageContexts,
    message_type: MessageTypes,
    message: String,
}

/// Abstract form of a message: its severity, its text, and whether it
/// points at the call site. The text of the span it points at is left out:
/// it is the rendering of a span, which depends on the process the
/// tokenizer runs in.
pub ghost struct MessageView {
    pub message_type: MessageTypes,
    pub message: Seq<char>,
    pub at_call_site: bool,
}

impl View for Message {
    type V = MessageView;

    closed spec fn view(&self) -> MessageView {
        MessageView {
            message_type: self.message_type,
            message: self.message@,
            at_call_site: self.context is CallSite,
        }
    }
}

/// The text of `Span::call_site()` rendered with its `Debug` formatting.
///
/// Calls `proc_macro2::Span::call_site` and formats the span with `{:?}`.
/// Nothing is stated of the text: it depends on whether the code runs inside
/// a procedural macro and on how proc_macro2 was configured when it was built.
#[verifier::external_body]
fn call_site_text() -> (r: String) {
    format!("{:?}", proc_macro2::Span::call_site())
}

impl Message {
    /// A message of the given severity and text, pointing at the macro's
    /// call site.
    pub fn call_site(message_type: MessageTypes, message: &str) -> (r: Message)
        ensures
            r@ == (MessageView { message_type, message: message@, at_call_site: true }),
            r.context_view() is CallSite,
    {
        Message {
            context: MessageContexts::CallSite(call_site_text()),
            message_type,
            message: message.to_owned(),
        }
    }

    /// Where the message points.
    pub closed spec fn context_view(&self) -> ContextView {
        self.context@
    }

    /// The severity of the message.
    pub fn message_type(&self) -> (r: MessageTypes)
        ensures
            r == self@.message_type,
    {
        self.message_type
    }

    /// The text of the message.
    pub fn text(&self) -> (r: &String)
        ensures
            r@ == self@.message,
    {
        &self.message
    }

    /// Where the message points.
    pub fn context(&self) -> (r: &MessageContexts)
        ensures
            r@ == self.context_view(),
            (r@ is CallSite) == self@.at_call_site,
    {
        &self.context
    }

    /// The text that starts the rendering of a message of this severity.
    pub open spec fn label(message_type: MessageTypes) -> Seq<char> {
        match message_type {
            MessageTypes::Error => "Error:  "@,
            MessageTypes::Info => "Info:   "@,
            MessageTypes::Warning => "Warning:"@,
        }
    }

    /// The message rendered for people: its severity label, `": "`, and
    /// its text.
    pub fn describe(&self) -> (r: String)
        ensures
            r@ == Message::label(self@.message_type) + ": "@ + self@.message,
    {
        let label: &str = match self.message_type {
            MessageTypes::Error => "Error:  ",
            MessageTypes::Info => "Info:   ",
            MessageTypes::Warning => "Warning:",
        };
        let mut r = label.to_owned();
        r.append(": ");
        r.append(self.message.as_str());
        r
    }
}

/// Builds informational messages.
pub struct Info {}

impl Info {
    /// An informational message pointing at the macro's call site.
    pub fn call_site(message: &str) -> (r: Message)
        ensures
            r@ == (MessageView {
                message_type: MessageTypes::Info,
                message: message@,
                at_call_site: true,
            }),
            r.context_view() is CallSite,
    {
        Message::call_site(MessageTypes::Info, message)
    }
}

/// Builds warnings.
pub struct Warning {}

impl Warning {
    /// A warning pointing at the macro's call site.
    pub fn call_site(message: &str) -> (r: Message)
        ensures
            r@ == (MessageView {
                message_type: MessageTypes::Warning,
                message: message@,
                at_call_site: true,
            }),
            r.context_view() is CallSite,
    {
        Message::call_site(MessageTypes::Warning, message)
    }
}

/// Builds errors.
pub struct Error {}

impl Error {
    /// An error pointing at the macro's call site.
    pub fn call_site(message: &str) -> (r: Message)
        ensures
            r@ == (MessageView {
                message_type: MessageTypes::Error,
                message: message@,
                at_call_site: true,
            }),
            r.context_view() is CallSite,
    {
        Message::call_site(MessageTypes::Error, message)
    }
}

/// Something that carries the messages raised while it was built.
pub trait IValidated {
    fn get_messages(&self) -> Vec<Message>;
}

/// A batch of messages; an empty batch holds nothing at all.
#[derive(Clone, Debug, PartialEq, Eq)]
pub struct Messages(Option<Vec<Message>>);

impl Messages {
    /// The messages of the batch, oldest first.
    pub closed spec fn items(&self) -> Seq<Message> {
        match self.0 {
            Some(v) => v@,
            None => Seq::empty(),
        }
    }

    /// Whether the batch keeps no vector at all.
    pub closed spec fn is_none(&self) -> bool {
        self.0 is None
    }

    /// A batch keeps a vector only when it holds some messages, as every
    /// batch built by `empty` or `from` does.
    pub closed spec fn well_formed(&self) -> bool {
        self.0 matches Some(v) ==> v@.len() > 0
    }

    /// The batch that `from` builds of `src`.
    pub closed spec fn batch_of(src: Vec<Message>) -> Messages {
        if src@.len() == 0 {
            Messages(None)
        } else {
            Messages(Some(src))
        }
    }

    /// Building a batch of some messages and taking them back out gives
    /// the same messages, in the same order; a batch built of no messages
    /// holds no vector.
    pub proof fn law_batch_round_trip(src: Vec<Message>)
        ensures
            Messages::batch_of(src).items() == src@,
            Messages::batch_of(src).is_none() == (src@.len() == 0),
    {
    }

    /// Taking the messages out of a batch and building a batch of them
    /// again gives a batch with the same messages, in the same order, and
    /// of the same shape (with or without a vector).
    pub proof fn law_batch_rebuilt(batch: Messages, taken: Vec<Message>)
        requires
            batch.well_formed(),
            taken@ == batch.items(),
        ensures
            Messages::batch_of(taken).items() == batch.items(),
            Messages::batch_of(taken).is_none() == batch.is_none(),
            Messages::batch_of(taken).well_formed(),
    {
    }

    /// The empty batch.
    pub fn empty() -> (r: Self)
        ensures
            r.is_none(),
            r.well_formed(),
            r.items() == Seq::<Message>::empty(),
    {
        Messages(None)
    }

    /// The messages of the batch, oldest first; the empty batch gives none.
    pub fn into_vec(self) -> (r: Vec<Message>)
        ensures
            r@ == self.items(),
    {
        if let Some(messages) = self.0 {
            return messages;
        }
        Vec::new()
    }
}

impl From<Vec<Message>> for Messages {
    /// A batch of the given messages; no messages give the empty batch.
    fn from(src: Vec<Message>) -> (r: Messages)
        ensures
            r == Messages::batch_of(src),
            r.items() == src@,
            r.is_none() == (src@.len() == 0),
            r.well_formed(),
    {
        if src.len() == 0 {
            return Messages(None);
        }
        Messages(Some(src))
    }
}

impl vstd::std_specs::convert::FromSpecImpl<Vec<Message>> for Messages {
    open spec fn obeys_from_spec() -> bool {
        true
    }

    open spec fn from_spec(src: Vec<Message>) -> Messages {
        Messages::batch_of(src)
    }
}

impl From<Messages> for Vec<Message> {
    /// The messages of a batch, oldest first; the empty batch gives none.
    fn from(src: Messages) -> (r: Vec<Message>)
        ensures
            r@ == src.items(),
    {
        src.into_vec()
    }
}

/// The messages taken out of a batch are described by the `ensures` of
/// `from` above, over their view: no single `Vec` value stands for the
/// messages of the empty batch, so no `from_spec` is claimed.
impl vstd::std_specs::convert::FromSpecImpl<Messages> for Vec<Message> {
    open spec fn obeys_from_spec() -> bool {
        false
    }

    open spec fn from_spec(src: Messages) -> Vec<Message> {
        arbitrary()
    }
}

} // verus!
