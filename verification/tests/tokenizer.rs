use nicco::sinks::vectreesink::VecTreeSink;
use nicco::tokenizer::messages::{Error, Warning};
use nicco::tokenizer::{
    parse, parse_tokens, Delimiter, DomTokenStream, Element, ITreeSource, NotifyStrategies,
    Options, Token, TokenTreeSources, TreeEvents, AMBIGUOUS_EMPTY_LIST,
    ELEMENT_FOLLOWING_ROOT_GROUP, EMPTY_LISTS_OPTIONAL, EMPTY_ROOT_LIST_OPTIONAL, EMPTY_TEMPLATE,
    INVALID_NESTED_GROUPS, UNEXPECTED_DELIMITER, UNEXPECTED_LITERAL, UNEXPECTED_PUNCTUATION,
    URECOGNIZED_NODE_TYPE,
};

fn stream(text: &str) -> proc_macro2::TokenStream {
    text.parse::<proc_macro2::TokenStream>().unwrap()
}

fn events_of(options: Option<Options>, text: &str) -> (Vec<TreeEvents>, DomTokenStream) {
    let mut sink = VecTreeSink::new();
    let dom = parse(options, &mut sink, stream(text)).unwrap();
    (sink.data(), dom)
}

fn ident(name: &str) -> Token {
    Token::Ident(name.to_string())
}

#[test]
fn should_provide_warning_for_empty_template() {
    let mut sink = VecTreeSink::new();
    let expected_events = vec![TreeEvents::Message(Warning::call_site(EMPTY_TEMPLATE))];
    let input = stream("");

    parse(None, &mut sink, input).unwrap();
    assert_eq!(expected_events, sink.data());
}

#[test]
fn should_provide_error_for_unexpected_literal_at_root() {
    let mut sink = VecTreeSink::new();
    let expected_events = vec![TreeEvents::Message(Error::call_site(UNEXPECTED_LITERAL))];
    let input = stream("10");
    parse(None, &mut sink, input).unwrap();
    assert_eq!(expected_events, sink.data());
}

#[test]
fn should_provide_error_for_element_following_list() {
    let mut sink = VecTreeSink::new();
    let expected_events =
        vec![TreeEvents::Message(Error::call_site(ELEMENT_FOLLOWING_ROOT_GROUP))];
    let input = stream("[] html");
    parse(None, &mut sink, input).unwrap();
    assert_eq!(expected_events, sink.data());
}

#[test]
fn should_parse_empty_list_of_elements() {
    let mut sink = VecTreeSink::new();
    let expected_events = vec![TreeEvents::Message(Warning::call_site(EMPTY_ROOT_LIST_OPTIONAL))];
    let input = stream("[]");
    parse(None, &mut sink, input).unwrap();
    assert_eq!(expected_events, sink.data());
}

#[test]
fn should_parse_root_list_of_elements() {
    let mut sink = VecTreeSink::new();
    let expected_events: Vec<TreeEvents> = vec![];
    let input = stream("[ html html ]");

    parse(None, &mut sink, input).unwrap();
    assert_eq!(expected_events, sink.data());
}

#[test]
fn root_list_gives_its_elements() {
    let (events, dom) = events_of(None, "[ html html ]");
    assert!(events.is_empty());
    assert_eq!(
        dom,
        DomTokenStream::Elements(vec![Element::new("html"), Element::new("html")])
    );
}

#[test]
fn stand_alone_element_is_silent() {
    let (events, dom) = events_of(None, "html");
    assert!(events.is_empty());
    assert_eq!(dom, DomTokenStream::Element(Element::new("html")));
}

#[test]
fn adjacent_elements_are_silent() {
    let (events, dom) = events_of(None, "html html html");
    assert!(events.is_empty());
    assert_eq!(
        dom,
        DomTokenStream::Elements(vec![
            Element::new("html"),
            Element::new("html"),
            Element::new("html")
        ])
    );
}

#[test]
fn empty_list_after_element_is_ambiguous() {
    let (events, dom) = events_of(None, "html []");
    assert_eq!(events, vec![TreeEvents::Message(Warning::call_site(AMBIGUOUS_EMPTY_LIST))]);
    assert_eq!(dom, DomTokenStream::Element(Element::new("html")));
}

#[test]
fn two_empty_lists_after_element_are_optional() {
    let (events, _) = events_of(None, "html [][]");
    assert_eq!(events, vec![TreeEvents::Message(Warning::call_site(EMPTY_LISTS_OPTIONAL))]);
}

#[test]
fn filled_lists_after_element_are_silent() {
    let (events, dom) = events_of(None, "html [ a ] [ b ]");
    assert!(events.is_empty());
    assert_eq!(dom, DomTokenStream::Element(Element::new("html")));
}

#[test]
fn next_element_closes_ambiguous_list() {
    let (events, dom) = events_of(None, "html [] html");
    assert_eq!(events, vec![TreeEvents::Message(Warning::call_site(AMBIGUOUS_EMPTY_LIST))]);
    assert_eq!(
        dom,
        DomTokenStream::Elements(vec![Element::new("html"), Element::new("html")])
    );
}

#[test]
fn unknown_kind_is_warned_by_default() {
    let (events, dom) = events_of(None, "div");
    assert_eq!(events, vec![TreeEvents::Message(Warning::call_site(URECOGNIZED_NODE_TYPE))]);
    assert_eq!(dom, DomTokenStream::Element(Element::new("div")));
}

#[test]
fn unknown_kind_follows_the_strategy() {
    let errors = Options {
        empty_template: NotifyStrategies::Ignore,
        unrecognized_node_type: NotifyStrategies::Error,
    };
    let (events, _) = events_of(Some(errors), "[ div span ]");
    assert_eq!(
        events,
        vec![
            TreeEvents::Message(Error::call_site(URECOGNIZED_NODE_TYPE)),
            TreeEvents::Message(Error::call_site(URECOGNIZED_NODE_TYPE)),
        ]
    );
    let ignore = Options {
        empty_template: NotifyStrategies::Ignore,
        unrecognized_node_type: NotifyStrategies::Ignore,
    };
    let (events, _) = events_of(Some(ignore), "div");
    assert!(events.is_empty());
}

#[test]
fn empty_template_follows_the_strategy() {
    let ignore = Options {
        empty_template: NotifyStrategies::Ignore,
        unrecognized_node_type: NotifyStrategies::Warning,
    };
    let (events, dom) = events_of(Some(ignore), "");
    assert!(events.is_empty());
    assert_eq!(dom, DomTokenStream::Empty);
    let error = Options {
        empty_template: NotifyStrategies::Error,
        unrecognized_node_type: NotifyStrategies::Warning,
    };
    let (events, _) = events_of(Some(error), "");
    assert_eq!(events, vec![TreeEvents::Message(Error::call_site(EMPTY_TEMPLATE))]);
}

#[test]
fn default_options_match_no_options() {
    assert_eq!(
        Options::default(),
        Options {
            empty_template: NotifyStrategies::Warning,
            unrecognized_node_type: NotifyStrategies::Warning,
        }
    );
    for text in ["", "div", "[]", "[ html ] html", "html []"] {
        assert_eq!(events_of(None, text), events_of(Some(Options::default()), text));
    }
}

#[test]
fn nested_list_in_root_list_is_invalid() {
    let (events, dom) = events_of(None, "[ [] html ]");
    assert_eq!(events, vec![TreeEvents::Message(Error::call_site(INVALID_NESTED_GROUPS))]);
    assert_eq!(dom, DomTokenStream::Empty);
}

#[test]
fn second_root_list_is_invalid() {
    let (events, _) = events_of(None, "[ html ] [ html ]");
    assert_eq!(events, vec![TreeEvents::Message(Error::call_site(INVALID_NESTED_GROUPS))]);
}

#[test]
fn other_delimiters_are_unexpected() {
    let (events, _) = events_of(None, "( html ) { }");
    assert_eq!(
        events,
        vec![
            TreeEvents::Message(Error::call_site(UNEXPECTED_DELIMITER)),
            TreeEvents::Message(Error::call_site(UNEXPECTED_DELIMITER)),
        ]
    );
}

#[test]
fn punctuation_is_unexpected() {
    let (events, dom) = events_of(None, "html , html");
    assert_eq!(events, vec![TreeEvents::Message(Error::call_site(UNEXPECTED_PUNCTUATION))]);
    assert_eq!(
        dom,
        DomTokenStream::Elements(vec![Element::new("html"), Element::new("html")])
    );
}

#[test]
fn literal_inside_root_list_is_unexpected() {
    let (events, _) = events_of(None, "[ html \"text\" ]");
    assert_eq!(events, vec![TreeEvents::Message(Error::call_site(UNEXPECTED_LITERAL))]);
}

#[test]
fn no_message_is_informational() {
    for text in ["", "10", "[] html", "[]", "div [] []", "( ) , [ [] ]", "html [] div"] {
        let (events, _) = events_of(None, text);
        for event in events {
            match event {
                TreeEvents::Message(m) => {
                    assert!(!m.describe().starts_with("Info"));
                },
                TreeEvents::Parse(_) => panic!("the tokenizer only reports messages"),
            }
        }
    }
}

#[test]
fn tokens_built_by_hand_read_like_streams() {
    let tokens = vec![Token::Group(Delimiter::Bracket, vec![ident("html"), ident("html")])];
    let mut sink = VecTreeSink::new();
    let dom = parse_tokens(None, &mut sink, &tokens).unwrap();
    assert!(sink.data().is_empty());
    assert_eq!(
        dom,
        DomTokenStream::Elements(vec![Element::new("html"), Element::new("html")])
    );

    let tokens = vec![Token::Literal("10".to_string())];
    let mut sink = VecTreeSink::new();
    parse_tokens(None, &mut sink, &tokens).unwrap();
    assert_eq!(sink.data(), vec![TreeEvents::Message(Error::call_site(UNEXPECTED_LITERAL))]);

    let tokens = vec![Token::Punct('#'), Token::Group(Delimiter::Invisible, vec![])];
    let mut sink = VecTreeSink::new();
    parse_tokens(None, &mut sink, &tokens).unwrap();
    assert_eq!(
        sink.data(),
        vec![
            TreeEvents::Message(Error::call_site(UNEXPECTED_PUNCTUATION)),
            TreeEvents::Message(Error::call_site(UNEXPECTED_DELIMITER)),
        ]
    );
}

#[test]
fn read_tokens_keeps_the_tree_shape() {
    let tokens = nicco::tokenizer::read_tokens(&stream("html [ div ] , 10"));
    assert_eq!(
        tokens,
        vec![
            ident("html"),
            Token::Group(Delimiter::Bracket, vec![ident("div")]),
            Token::Punct(','),
            Token::Literal("10".to_string()),
        ]
    );
    let tokens = nicco::tokenizer::read_tokens(&stream("( ) { a }"));
    assert_eq!(
        tokens,
        vec![
            Token::Group(Delimiter::Parenthesis, vec![]),
            Token::Group(Delimiter::Brace, vec![ident("a")]),
        ]
    );
}

#[test]
fn sources_are_read_in_turn() {
    let source = TokenTreeSources::Group(vec![
        TokenTreeSources::from_token_stream(stream("10")),
        TokenTreeSources::Group(vec![TokenTreeSources::from_token_stream(stream(""))]),
        TokenTreeSources::from_token_stream(stream("[ html ]")),
        TokenTreeSources::from_token_stream(stream("[]")),
    ]);
    let mut sink = VecTreeSink::new();
    source.bind(None, &mut sink).unwrap();
    assert_eq!(
        sink.data(),
        vec![
            TreeEvents::Message(Error::call_site(UNEXPECTED_LITERAL)),
            TreeEvents::Message(Warning::call_site(EMPTY_TEMPLATE)),
            TreeEvents::Message(Warning::call_site(EMPTY_ROOT_LIST_OPTIONAL)),
        ]
    );
}

#[test]
fn messages_keep_their_severity() {
    let (events, _) = events_of(None, "html []");
    match &events[0] {
        TreeEvents::Message(m) => {
            assert_eq!(m.describe(), format!("Warning:: {}", AMBIGUOUS_EMPTY_LIST));
        },
        _ => panic!("expected a message"),
    }
}

#[test]
fn empty_template_setting_only_affects_empty_templates() {
    let quiet = Options {
        empty_template: NotifyStrategies::Ignore,
        unrecognized_node_type: NotifyStrategies::Error,
    };
    let loud = Options {
        empty_template: NotifyStrategies::Error,
        unrecognized_node_type: NotifyStrategies::Error,
    };
    for text in ["div", "[ span ]", "10 html", "[] []"] {
        assert_eq!(events_of(Some(quiet), text), events_of(Some(loud), text));
    }
    assert_ne!(events_of(Some(quiet), ""), events_of(Some(loud), ""));
}

#[test]
fn source_from_stream_holds_its_tokens() {
    match TokenTreeSources::from_token_stream(stream("[ html ] 10")) {
        TokenTreeSources::TokenStream(tokens) => assert_eq!(
            tokens,
            vec![
                Token::Group(Delimiter::Bracket, vec![ident("html")]),
                Token::Literal("10".to_string()),
            ]
        ),
        TokenTreeSources::Group(_) => panic!("expected a token stream"),
    }
}

#[test]
fn result_variant_follows_element_count() {
    assert_eq!(events_of(None, "10").1, DomTokenStream::Empty);
    assert!(matches!(events_of(None, "div").1, DomTokenStream::Element(_)));
    assert!(matches!(events_of(None, "[ div div ]").1, DomTokenStream::Elements(_)));
}
