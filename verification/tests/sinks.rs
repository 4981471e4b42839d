use nicco::sinks::vectreesink::{VecSink, VecTreeSink};
use nicco::tokenizer::messages::{Info, Warning};
use nicco::tokenizer::{Element, ITreeSink, NotifyStrategies, TreeEvents, ParseEvents};

#[test]
fn new_sink_is_empty() {
    let sink: VecSink<u32> = VecSink::new();
    assert!(sink.data().is_empty());
}

#[test]
fn push_counts_and_keeps_order() {
    let mut sink: VecSink<u32> = VecSink::new();
    assert_eq!(sink.push(7).unwrap(), 1);
    assert_eq!(sink.push(3).unwrap(), 2);
    assert_eq!(sink.push(7).unwrap(), 3);
    assert_eq!(sink.data(), vec![7, 3, 7]);
    // Reading does not consume.
    assert_eq!(sink.data(), vec![7, 3, 7]);
}

#[test]
fn tree_sink_records_events() {
    let mut sink = VecTreeSink::new();
    assert_eq!(sink.handle(TreeEvents::Message(Info::call_site("a"))).unwrap(), 1);
    sink.info("b").unwrap();
    sink.warning("c").unwrap();
    sink.error("d").unwrap();
    assert_eq!(sink.element(Element::new("html")).unwrap(), 5);
    sink.notify(&NotifyStrategies::Ignore, "e").unwrap();
    sink.notify(&NotifyStrategies::Warning, "f").unwrap();
    let data = sink.data();
    assert_eq!(data.len(), 6);
    assert_eq!(data[0], TreeEvents::Message(Info::call_site("a")));
    assert_eq!(data[1], TreeEvents::Message(Info::call_site("b")));
    assert_eq!(data[2], TreeEvents::Message(Warning::call_site("c")));
    assert_eq!(data[3], TreeEvents::Message(nicco::tokenizer::messages::Error::call_site("d")));
    assert_eq!(data[4], TreeEvents::Parse(ParseEvents::ParsedElement(Element::new("html"))));
    assert_eq!(data[5], TreeEvents::Message(Warning::call_site("f")));
}
