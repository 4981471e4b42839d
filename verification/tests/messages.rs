use nicco::tokenizer::messages::{
    Error, Info, Message, MessageContexts, MessageTypes, Messages, Warning,
};

#[test]
fn contexts_compare_by_kind_and_text() {
    let a = MessageContexts::CallSite("Span".to_string());
    assert_eq!(a, MessageContexts::CallSite("Span".to_string()));
    assert_ne!(a, MessageContexts::CallSite("bytes(1..2)".to_string()));
    assert_ne!(a, MessageContexts::Span("Span".to_string()));
    assert_eq!(MessageContexts::Span("x".to_string()), MessageContexts::Span("x".to_string()));
}

#[test]
fn call_site_builders_set_severity() {
    assert_eq!(Info::call_site("m"), Message::call_site(MessageTypes::Info, "m"));
    assert_eq!(Warning::call_site("m"), Message::call_site(MessageTypes::Warning, "m"));
    assert_eq!(Error::call_site("m"), Message::call_site(MessageTypes::Error, "m"));
    assert_ne!(Error::call_site("m"), Warning::call_site("m"));
    assert_ne!(Error::call_site("m"), Error::call_site("n"));
}

#[test]
fn describe_labels_each_severity() {
    assert_eq!(Error::call_site("bad").describe(), "Error:  : bad");
    assert_eq!(Info::call_site("fyi").describe(), "Info:   : fyi");
    assert_eq!(Warning::call_site("hm").describe(), "Warning:: hm");
}

#[test]
fn batch_round_trip() {
    let messages = vec![Info::call_site("a"), Error::call_site("b")];
    let batch = Messages::from(messages.clone());
    assert_ne!(batch, Messages::empty());
    assert_eq!(batch.into_vec(), messages);
}

#[test]
fn empty_batch_holds_nothing() {
    assert_eq!(Messages::from(Vec::new()), Messages::empty());
    assert!(Messages::empty().into_vec().is_empty());
}

#[test]
fn accessors_give_severity_text_and_context() {
    let m = Warning::call_site("look");
    assert_eq!(m.message_type(), MessageTypes::Warning);
    assert_eq!(m.text(), "look");
    assert!(matches!(m.context(), MessageContexts::CallSite(_)));
    assert_eq!(Error::call_site("x").message_type(), MessageTypes::Error);
    assert_eq!(Info::call_site("y").message_type(), MessageTypes::Info);
}

#[test]
fn batch_rebuilt_from_its_messages() {
    let batch = Messages::from(vec![Warning::call_site("a"), Info::call_site("b")]);
    let rebuilt = Messages::from(batch.clone().into_vec());
    assert_eq!(rebuilt, batch);
    let empty = Messages::empty();
    assert_eq!(Messages::from(empty.clone().into_vec()), empty);
}

#[test]
fn batch_into_vec_through_from() {
    let messages = vec![Error::call_site("a")];
    let out: Vec<Message> = Messages::from(messages.clone()).into();
    assert_eq!(out, messages);
    let none: Vec<Message> = Messages::empty().into();
    assert!(none.is_empty());
}
