//! Properties of the tokenizer that hold for every template.

use vstd::prelude::*;

use super::messages::{MessageTypes, MessageView};
use super::{
    bare_element, closing, effective_options, error_of, kind_messages, notified, run, step,
    template_elements, template_messages, tokenize, warning_of, Delimiter, ElementView, Mode,
    Options, Token, AMBIGUOUS_EMPTY_LIST, EMPTY_LISTS_OPTIONAL, UNEXPECTED_LITERAL,
    URECOGNIZED_NODE_TYPE,
};

verus! {

/// None of the given messages is merely informational.
pub open spec fn no_info(messages: Seq<MessageView>) -> bool {
    forall|i: int| 0 <= i < messages.len() ==> #[trigger] messages[i].message_type
        != MessageTypes::Info
}

/// The token is the identifier `html`.
pub open spec fn is_html(token: Token) -> bool {
    match token {
        Token::Ident(name) => name@ == "html"@,
        _ => false,
    }
}

/// Every token is the identifier `html`.
pub open spec fn all_html(tokens: Seq<Token>) -> bool {
    forall|i: int| 0 <= i < tokens.len() ==> is_html(#[trigger] tokens[i])
}

/// `n` elements of kind `html`.
pub open spec fn html_elements(n: nat) -> Seq<super::ElementView> {
    Seq::new(n, |i: int| bare_element("html"@))
}

proof fn lemma_no_info_concat(a: Seq<MessageView>, b: Seq<MessageView>)
    requires
        no_info(a),
        no_info(b),
    ensures
        no_info(a + b),
{
    assert forall|i: int| 0 <= i < (a + b).len() implies #[trigger] (a + b)[i].message_type
        != MessageTypes::Info by {
        if i < a.len() {
            assert((a + b)[i] == a[i]);
        } else {
            assert((a + b)[i] == b[i - a.len()]);
        }
    }
}

proof fn lemma_notified_no_info(strategy: super::NotifyStrategies, text: Seq<char>)
    ensures
        no_info(notified(strategy, text)),
{
}

proof fn lemma_closing_no_info(mode: Mode)
    ensures
        no_info(closing(mode).messages),
{
}

proof fn lemma_step_no_info(options: Options, mode: Mode, token: Token, nested: bool)
    ensures
        no_info(step(options, mode, token, nested).messages),
    decreases (if nested { 0int } else { 1int }), 0int,
{
    match token {
        Token::Ident(name) => {
            lemma_notified_no_info(options.unrecognized_node_type, super::URECOGNIZED_NODE_TYPE@);
            lemma_closing_no_info(mode);
            lemma_no_info_concat(closing(mode).messages, kind_messages(options, name@));
        },
        Token::Group(delimiter, inner) => {
            if delimiter == Delimiter::Bracket && mode == Mode::Empty && !nested {
                lemma_tokenize_no_info(options, inner@, true);
            }
        },
        _ => {},
    }
}

proof fn lemma_run_no_info(options: Options, tokens: Seq<Token>, nested: bool)
    ensures
        no_info(run(options, tokens, nested).messages),
    decreases (if nested { 0int } else { 1int }), tokens.len(),
{
    if tokens.len() > 0 {
        let before = run(options, tokens.drop_last(), nested);
        lemma_run_no_info(options, tokens.drop_last(), nested);
        lemma_step_no_info(options, before.mode, tokens.last(), nested);
        lemma_no_info_concat(
            before.messages,
            step(options, before.mode, tokens.last(), nested).messages,
        );
    }
}

proof fn lemma_tokenize_no_info(options: Options, tokens: Seq<Token>, nested: bool)
    ensures
        no_info(tokenize(options, tokens, nested).messages),
    decreases (if nested { 0int } else { 1int }), tokens.len() + 1,
{
    let read = run(options, tokens, nested);
    lemma_run_no_info(options, tokens, nested);
    lemma_closing_no_info(read.mode);
    lemma_no_info_concat(read.messages, closing(read.mode).messages);
}

/// Reading a template never raises a merely informational message: every
/// message it hands the sink is a warning or an error.
pub proof fn law_no_info_messages(options: Option<Options>, tokens: Seq<Token>)
    ensures
        no_info(template_messages(effective_options(options), tokens)),
{
    let opts = effective_options(options);
    if tokens.len() == 0 {
        lemma_notified_no_info(opts.empty_template, super::EMPTY_TEMPLATE@);
    } else {
        lemma_tokenize_no_info(opts, tokens, false);
    }
}

proof fn lemma_run_html(options: Options, tokens: Seq<Token>, nested: bool)
    requires
        all_html(tokens),
    ensures
        run(options, tokens, nested).messages == Seq::<MessageView>::empty(),
        tokens.len() == 0 ==> run(options, tokens, nested).mode == Mode::Empty,
        tokens.len() > 0 ==> run(options, tokens, nested).mode == Mode::Element("html"@),
        tokens.len() > 0 ==> run(options, tokens, nested).elements == html_elements(
            (tokens.len() - 1) as nat,
        ),
        tokens.len() == 0 ==> run(options, tokens, nested).elements == Seq::<
            super::ElementView,
        >::empty(),
    decreases tokens.len(),
{
    if tokens.len() > 0 {
        let rest = tokens.drop_last();
        assert(all_html(rest)) by {
            assert forall|i: int| 0 <= i < rest.len() implies is_html(#[trigger] rest[i]) by {
                assert(rest[i] == tokens[i]);
            }
        }
        lemma_run_html(options, rest, nested);
        let last = tokens[tokens.len() - 1];
        assert(is_html(last));
        let before = run(options, rest, nested);
        let d = step(options, before.mode, tokens.last(), nested);
        assert(d.messages =~= Seq::<MessageView>::empty());
        assert(before.messages + d.messages =~= Seq::<MessageView>::empty());
        if rest.len() == 0 {
            assert(before.elements + d.elements =~= html_elements(0));
        } else {
            assert(before.elements + d.elements =~= html_elements((tokens.len() - 1) as nat));
        }
    }
}

proof fn lemma_tokenize_html(options: Options, tokens: Seq<Token>, nested: bool)
    requires
        all_html(tokens),
        tokens.len() > 0,
    ensures
        tokenize(options, tokens, nested).messages == Seq::<MessageView>::empty(),
        tokenize(options, tokens, nested).elements == html_elements(tokens.len()),
{
    lemma_run_html(options, tokens, nested);
    let read = run(options, tokens, nested);
    assert(read.messages + closing(read.mode).messages =~= Seq::<MessageView>::empty());
    assert(read.elements + closing(read.mode).elements =~= html_elements(tokens.len()));
}

/// A template made only of `html` elements is read without any message,
/// and gives one `html` element for each.
pub proof fn law_html_elements_are_silent(options: Option<Options>, tokens: Seq<Token>)
    requires
        all_html(tokens),
        tokens.len() > 0,
    ensures
        template_messages(effective_options(options), tokens) == Seq::<MessageView>::empty(),
        template_elements(effective_options(options), tokens) == html_elements(tokens.len()),
{
    lemma_tokenize_html(effective_options(options), tokens, false);
}

/// A root list of `html` elements, with at least one, is read without any
/// message, and gives one `html` element for each.
pub proof fn law_html_root_list_is_silent(options: Option<Options>, list: Vec<Token>)
    requires
        all_html(list@),
        list@.len() > 0,
    ensures
        template_messages(
            effective_options(options),
            seq![Token::Group(Delimiter::Bracket, list)],
        ) == Seq::<MessageView>::empty(),
        template_elements(effective_options(options), seq![Token::Group(Delimiter::Bracket, list)])
            == html_elements(list@.len()),
{
    let opts = effective_options(options);
    let tokens = seq![Token::Group(Delimiter::Bracket, list)];
    lemma_tokenize_html(opts, list@, true);
    let before = run(opts, tokens.drop_last(), false);
    assert(tokens.drop_last() =~= Seq::<Token>::empty());
    let d = step(opts, Mode::Empty, tokens.last(), false);
    assert(d.mode == Mode::RootGroup(false));
    let read = run(opts, tokens, false);
    assert(read.messages =~= Seq::<MessageView>::empty());
    assert(read.elements =~= html_elements(list@.len()));
    assert(read.mode == Mode::RootGroup(false));
    let t = tokenize(opts, tokens, false);
    assert(t.messages =~= Seq::<MessageView>::empty());
    assert(t.elements =~= html_elements(list@.len()));
}

proof fn lemma_step_same_kind_report(
    a: Options,
    b: Options,
    mode: Mode,
    token: Token,
    nested: bool,
)
    requires
        a.unrecognized_node_type == b.unrecognized_node_type,
    ensures
        step(a, mode, token, nested) == step(b, mode, token, nested),
    decreases (if nested { 0int } else { 1int }), 0int,
{
    match token {
        Token::Group(delimiter, inner) => {
            if delimiter == Delimiter::Bracket && mode == Mode::Empty && !nested {
                lemma_tokenize_same_kind_report(a, b, inner@, true);
            }
        },
        _ => {},
    }
}

proof fn lemma_run_same_kind_report(a: Options, b: Options, tokens: Seq<Token>, nested: bool)
    requires
        a.unrecognized_node_type == b.unrecognized_node_type,
    ensures
        run(a, tokens, nested) == run(b, tokens, nested),
    decreases (if nested { 0int } else { 1int }), tokens.len(),
{
    if tokens.len() > 0 {
        lemma_run_same_kind_report(a, b, tokens.drop_last(), nested);
        lemma_step_same_kind_report(
            a,
            b,
            run(a, tokens.drop_last(), nested).mode,
            tokens.last(),
            nested,
        );
    }
}

proof fn lemma_tokenize_same_kind_report(
    a: Options,
    b: Options,
    tokens: Seq<Token>,
    nested: bool,
)
    requires
        a.unrecognized_node_type == b.unrecognized_node_type,
    ensures
        tokenize(a, tokens, nested) == tokenize(b, tokens, nested),
    decreases (if nested { 0int } else { 1int }), tokens.len() + 1,
{
    lemma_run_same_kind_report(a, b, tokens, nested);
}

/// How an empty template is reported matters only for the empty template:
/// two settings that report unknown kinds alike read every other template
/// alike.
pub proof fn law_empty_template_setting_is_local(a: Options, b: Options, tokens: Seq<Token>)
    requires
        a.unrecognized_node_type == b.unrecognized_node_type,
        tokens.len() > 0,
    ensures
        template_messages(a, tokens) == template_messages(b, tokens),
        template_elements(a, tokens) == template_elements(b, tokens),
{
    lemma_tokenize_same_kind_report(a, b, tokens, false);
}

/// Leaving the options out is the same as giving the defaults.
pub proof fn law_default_options(tokens: Seq<Token>)
    ensures
        template_messages(effective_options(None), tokens) == template_messages(
            effective_options(Some(Options::defaults())),
            tokens,
        ),
        template_elements(effective_options(None), tokens) == template_elements(
            effective_options(Some(Options::defaults())),
            tokens,
        ),
{
}


/// The token is a bracketed list.
pub open spec fn is_list(token: Token) -> bool {
    match token {
        Token::Group(d, _) => d == Delimiter::Bracket,
        _ => false,
    }
}

/// The text of an identifier token (empty for other tokens).
pub open spec fn ident_text(token: Token) -> Seq<char> {
    match token {
        Token::Ident(name) => name@,
        _ => seq![],
    }
}

/// A sequence of elements, each named by an identifier and followed by any
/// number of bracketed lists: it starts with an identifier and holds only
/// identifiers and bracketed lists.
pub open spec fn elements_with_lists(tokens: Seq<Token>) -> bool {
    &&& tokens.len() > 0
    &&& tokens[0] is Ident
    &&& forall|i: int| 0 <= i < tokens.len() ==> (#[trigger] tokens[i] is Ident || is_list(tokens[i]))
}

/// One element without attributes for each identifier of `tokens`, in
/// order, of the kind the identifier names.
pub open spec fn named_elements(tokens: Seq<Token>) -> Seq<ElementView>
    decreases tokens.len(),
{
    if tokens.len() == 0 {
        seq![]
    } else {
        named_elements(tokens.drop_last()) + if tokens.last() is Ident {
            seq![bare_element(ident_text(tokens.last()))]
        } else {
            seq![]
        }
    }
}

/// Whether `mode` is reading an element (with none, one or more lists after it).
pub open spec fn in_element(mode: Mode) -> bool {
    mode is Element || mode is ElementGroup || mode is ElementGroups
}

/// The kind of the element being read in `mode`.
pub open spec fn mode_kind(mode: Mode) -> Seq<char> {
    match mode {
        Mode::Element(k) => k,
        Mode::ElementGroup(k, _) => k,
        Mode::ElementGroups(k, _, _) => k,
        _ => seq![],
    }
}

proof fn lemma_elements_with_lists_prefix(tokens: Seq<Token>)
    requires
        elements_with_lists(tokens),
        tokens.len() > 1,
    ensures
        elements_with_lists(tokens.drop_last()),
{
    let p = tokens.drop_last();
    assert forall|i: int| 0 <= i < p.len() implies (#[trigger] p[i] is Ident || is_list(p[i])) by {
        assert(p[i] == tokens[i]);
    }
}

proof fn lemma_run_named(options: Options, tokens: Seq<Token>, nested: bool)
    requires
        elements_with_lists(tokens),
    ensures
        in_element(run(options, tokens, nested).mode),
        run(options, tokens, nested).elements + seq![
            bare_element(mode_kind(run(options, tokens, nested).mode)),
        ] == named_elements(tokens),
    decreases tokens.len(),
{
    let prefix = tokens.drop_last();
    let last = tokens.last();
    assert(last is Ident || is_list(last)) by {
        assert(tokens[tokens.len() - 1] == last);
    }
    if tokens.len() == 1 {
        assert(prefix =~= Seq::<Token>::empty());
        assert(last == tokens[0]);
        assert(named_elements(prefix) == Seq::<ElementView>::empty());
        assert(run(options, prefix, nested).elements + step(options, Mode::Empty, last, nested).elements
            =~= Seq::<ElementView>::empty());
    } else {
        lemma_elements_with_lists_prefix(tokens);
        lemma_run_named(options, prefix, nested);
        let before = run(options, prefix, nested);
        let d = step(options, before.mode, last, nested);
        if last is Ident {
            assert(d.elements == seq![bare_element(mode_kind(before.mode))]);
            assert(before.elements + d.elements + seq![bare_element(ident_text(last))]
                =~= named_elements(prefix) + seq![bare_element(ident_text(last))]);
        } else {
            assert(d.elements =~= Seq::<ElementView>::empty());
            assert(mode_kind(d.mode) == mode_kind(before.mode));
            assert(before.elements + d.elements =~= before.elements);
            assert(named_elements(tokens) =~= named_elements(prefix));
        }
    }
}

/// A template of elements, each named by an identifier and followed by any
/// number of lists, gives exactly one element per identifier, in order,
/// each of the kind its own identifier names.
pub proof fn law_elements_keep_their_names(options: Option<Options>, tokens: Seq<Token>)
    requires
        elements_with_lists(tokens),
    ensures
        template_elements(effective_options(options), tokens) == named_elements(tokens),
{
    let o = effective_options(options);
    lemma_run_named(o, tokens, false);
    let read = run(o, tokens, false);
    assert(closing(read.mode).elements == seq![bare_element(mode_kind(read.mode))]);
}


/// The messages of `messages` whose text is `text`, in order.
pub open spec fn reports_of(messages: Seq<MessageView>, text: Seq<char>) -> Seq<MessageView>
    decreases messages.len(),
{
    if messages.len() == 0 {
        seq![]
    } else {
        reports_of(messages.drop_last(), text) + if messages.last().message == text {
            seq![messages.last()]
        } else {
            seq![]
        }
    }
}

proof fn lemma_reports_of_concat(a: Seq<MessageView>, b: Seq<MessageView>, text: Seq<char>)
    ensures
        reports_of(a + b, text) == reports_of(a, text) + reports_of(b, text),
    decreases b.len(),
{
    if b.len() == 0 {
        assert(a + b =~= a);
        assert(reports_of(a, text) + reports_of(b, text) =~= reports_of(a, text));
    } else {
        lemma_reports_of_concat(a, b.drop_last(), text);
        assert((a + b).drop_last() =~= a + b.drop_last());
        assert((a + b).last() == b.last());
        assert(reports_of(a + b, text) =~= reports_of(a, text) + reports_of(b, text));
    }
}

proof fn lemma_texts_differ()
    ensures
        URECOGNIZED_NODE_TYPE@ != AMBIGUOUS_EMPTY_LIST@,
        URECOGNIZED_NODE_TYPE@ != EMPTY_LISTS_OPTIONAL@,
{
    reveal_strlit("Unrecognized node type");
    reveal_strlit("Ambiguous empty list. This can be ommitted, or you can try adding attributes or children");
    reveal_strlit("Empty trailing lists are optional following an element");
    assert(URECOGNIZED_NODE_TYPE@[0] == 'U');
    assert(AMBIGUOUS_EMPTY_LIST@[0] == 'A');
    assert(EMPTY_LISTS_OPTIONAL@[0] == 'E');
}


/// The unknown-kind reports owed for the identifiers of `tokens`: for each
/// identifier, in order, what `options` asks for a kind other than `html`.
pub open spec fn kind_reports(options: Options, tokens: Seq<Token>) -> Seq<MessageView>
    decreases tokens.len(),
{
    if tokens.len() == 0 {
        seq![]
    } else {
        kind_reports(options, tokens.drop_last()) + if tokens.last() is Ident {
            kind_messages(options, ident_text(tokens.last()))
        } else {
            seq![]
        }
    }
}

proof fn lemma_kind_messages_are_reports(options: Options, kind: Seq<char>)
    ensures
        reports_of(kind_messages(options, kind), URECOGNIZED_NODE_TYPE@) == kind_messages(
            options,
            kind,
        ),
{
    let m = kind_messages(options, kind);
    if m.len() == 1 {
        assert(m.drop_last() =~= Seq::<MessageView>::empty());
        assert(reports_of(m.drop_last(), URECOGNIZED_NODE_TYPE@) == Seq::<MessageView>::empty());
        assert(m.last().message == URECOGNIZED_NODE_TYPE@);
        assert(reports_of(m, URECOGNIZED_NODE_TYPE@) =~= m);
    } else {
        assert(m =~= Seq::<MessageView>::empty());
    }
}

proof fn lemma_closing_has_no_reports(mode: Mode)
    requires
        in_element(mode),
    ensures
        reports_of(closing(mode).messages, URECOGNIZED_NODE_TYPE@) == Seq::<MessageView>::empty(),
{
    lemma_texts_differ();
    let m = closing(mode).messages;
    if m.len() == 1 {
        assert(m.drop_last() =~= Seq::<MessageView>::empty());
        assert(reports_of(m.drop_last(), URECOGNIZED_NODE_TYPE@) == Seq::<MessageView>::empty());
        assert(m.last().message == AMBIGUOUS_EMPTY_LIST@ || m.last().message
            == EMPTY_LISTS_OPTIONAL@);
        assert(reports_of(m, URECOGNIZED_NODE_TYPE@) =~= Seq::<MessageView>::empty());
    } else {
        assert(m =~= Seq::<MessageView>::empty());
    }
}

proof fn lemma_run_kind_reports(options: Options, tokens: Seq<Token>, nested: bool)
    requires
        elements_with_lists(tokens),
    ensures
        reports_of(run(options, tokens, nested).messages, URECOGNIZED_NODE_TYPE@) == kind_reports(
            options,
            tokens,
        ),
    decreases tokens.len(),
{
    let u = URECOGNIZED_NODE_TYPE@;
    let prefix = tokens.drop_last();
    let last = tokens.last();
    assert(last is Ident || is_list(last)) by {
        assert(tokens[tokens.len() - 1] == last);
    }
    if tokens.len() == 1 {
        assert(prefix =~= Seq::<Token>::empty());
        assert(last == tokens[0]);
        let d = step(options, Mode::Empty, last, nested);
        lemma_kind_messages_are_reports(options, ident_text(last));
        assert(run(options, tokens, nested).messages =~= d.messages);
        assert(kind_reports(options, prefix) == Seq::<MessageView>::empty());
        assert(kind_reports(options, tokens) =~= kind_messages(options, ident_text(last)));
    } else {
        lemma_elements_with_lists_prefix(tokens);
        lemma_run_kind_reports(options, prefix, nested);
        lemma_run_named(options, prefix, nested);
        let before = run(options, prefix, nested);
        let d = step(options, before.mode, last, nested);
        lemma_reports_of_concat(before.messages, d.messages, u);
        if last is Ident {
            lemma_closing_has_no_reports(before.mode);
            lemma_kind_messages_are_reports(options, ident_text(last));
            lemma_reports_of_concat(
                closing(before.mode).messages,
                kind_messages(options, ident_text(last)),
                u,
            );
            assert(reports_of(d.messages, u) =~= kind_messages(options, ident_text(last)));
        } else {
            assert(d.messages =~= Seq::<MessageView>::empty());
            assert(reports_of(d.messages, u) =~= Seq::<MessageView>::empty());
            assert(kind_reports(options, tokens) =~= kind_reports(options, prefix));
        }
        assert(reports_of(before.messages + d.messages, u) =~= kind_reports(options, tokens));
    }
}

/// In a template of elements, each named by an identifier and followed by
/// any number of lists, the unknown-kind reports are exactly one report per
/// identifier whose kind is not `html`, in order, as the options ask,
/// whatever comes before each identifier.
pub proof fn law_every_unknown_kind_is_reported(options: Option<Options>, tokens: Seq<Token>)
    requires
        elements_with_lists(tokens),
    ensures
        reports_of(template_messages(effective_options(options), tokens), URECOGNIZED_NODE_TYPE@)
            == kind_reports(effective_options(options), tokens),
{
    let o = effective_options(options);
    let u = URECOGNIZED_NODE_TYPE@;
    lemma_run_kind_reports(o, tokens, false);
    lemma_run_named(o, tokens, false);
    let read = run(o, tokens, false);
    lemma_closing_has_no_reports(read.mode);
    lemma_reports_of_concat(read.messages, closing(read.mode).messages, u);
    assert(reports_of(read.messages + closing(read.mode).messages, u) =~= kind_reports(o, tokens));
}


/// An element followed by one list: it is the only element, the unknown
/// kind is reported as the options ask, and the list is reported as
/// ambiguous exactly when it is empty.
pub proof fn law_element_with_one_list(options: Option<Options>, kind: String, list: Vec<Token>)
    ensures
        ({
            let o = effective_options(options);
            let t = seq![Token::Ident(kind), Token::Group(Delimiter::Bracket, list)];
            &&& template_messages(o, t) == kind_messages(o, kind@) + if list@.len() == 0 {
                seq![warning_of(AMBIGUOUS_EMPTY_LIST@)]
            } else {
                seq![]
            }
            &&& template_elements(o, t) == seq![bare_element(kind@)]
        }),
{
    let o = effective_options(options);
    let t = seq![Token::Ident(kind), Token::Group(Delimiter::Bracket, list)];
    let one = seq![Token::Ident(kind)];
    assert(one.drop_last() =~= Seq::<Token>::empty());
    assert(run(o, one.drop_last(), false).mode == Mode::Empty);
    assert(one.last() == Token::Ident(kind));
    assert(t.drop_last() =~= one);
    let s1 = step(o, Mode::Empty, Token::Ident(kind), false);
    assert(s1.mode == Mode::Element(kind@));
    assert(run(o, one.drop_last(), false).messages == Seq::<MessageView>::empty());
    let r1 = run(o, one, false);
    assert(r1.mode == s1.mode);
    assert(r1.mode == Mode::Element(kind@));
    assert(r1.messages =~= kind_messages(o, kind@));
    assert(r1.elements =~= Seq::<ElementView>::empty());
    let r2 = run(o, t, false);
    assert(r2.mode == Mode::ElementGroup(kind@, list@.len() == 0));
    assert(r2.messages =~= kind_messages(o, kind@));
    assert(r2.elements =~= Seq::<ElementView>::empty());
    let m = tokenize(o, t, false).messages;
    assert(m =~= kind_messages(o, kind@) + if list@.len() == 0 {
        seq![warning_of(AMBIGUOUS_EMPTY_LIST@)]
    } else {
        seq![]
    });
    assert(tokenize(o, t, false).elements =~= seq![bare_element(kind@)]);
}

/// An element followed by two lists: it is the only element, the unknown
/// kind is reported as the options ask, and the lists are reported as
/// optional exactly when both are empty.
pub proof fn law_element_with_two_lists(
    options: Option<Options>,
    kind: String,
    first: Vec<Token>,
    second: Vec<Token>,
)
    ensures
        ({
            let o = effective_options(options);
            let t = seq![
                Token::Ident(kind),
                Token::Group(Delimiter::Bracket, first),
                Token::Group(Delimiter::Bracket, second),
            ];
            &&& template_messages(o, t) == kind_messages(o, kind@) + if first@.len() == 0
                && second@.len() == 0 {
                seq![warning_of(EMPTY_LISTS_OPTIONAL@)]
            } else {
                seq![]
            }
            &&& template_elements(o, t) == seq![bare_element(kind@)]
        }),
{
    let o = effective_options(options);
    let t = seq![
        Token::Ident(kind),
        Token::Group(Delimiter::Bracket, first),
        Token::Group(Delimiter::Bracket, second),
    ];
    let one = seq![Token::Ident(kind)];
    let two = seq![Token::Ident(kind), Token::Group(Delimiter::Bracket, first)];
    assert(one.drop_last() =~= Seq::<Token>::empty());
    assert(run(o, one.drop_last(), false).mode == Mode::Empty);
    assert(one.last() == Token::Ident(kind));
    assert(two.drop_last() =~= one);
    assert(t.drop_last() =~= two);
    let s1 = step(o, Mode::Empty, Token::Ident(kind), false);
    assert(s1.mode == Mode::Element(kind@));
    assert(run(o, one.drop_last(), false).messages == Seq::<MessageView>::empty());
    let r1 = run(o, one, false);
    assert(r1.mode == s1.mode);
    assert(r1.mode == Mode::Element(kind@));
    assert(r1.messages =~= kind_messages(o, kind@));
    assert(r1.elements =~= Seq::<ElementView>::empty());
    assert(two.last() == Token::Group(Delimiter::Bracket, first));
    let s2 = step(o, Mode::Element(kind@), Token::Group(Delimiter::Bracket, first), false);
    assert(s2.mode == Mode::ElementGroup(kind@, first@.len() == 0));
    assert(s2.messages == Seq::<MessageView>::empty());
    let r2 = run(o, two, false);
    assert(r2.mode == s2.mode);
    assert(r2.mode == Mode::ElementGroup(kind@, first@.len() == 0));
    assert(r2.messages =~= kind_messages(o, kind@));
    assert(r2.elements =~= Seq::<ElementView>::empty());
    let r3 = run(o, t, false);
    assert(r3.mode == Mode::ElementGroups(kind@, first@.len() == 0, second@.len() == 0));
    assert(r3.messages =~= kind_messages(o, kind@));
    assert(r3.elements =~= Seq::<ElementView>::empty());
    assert(tokenize(o, t, false).messages =~= kind_messages(o, kind@) + if first@.len() == 0
        && second@.len() == 0 {
        seq![warning_of(EMPTY_LISTS_OPTIONAL@)]
    } else {
        seq![]
    });
    assert(tokenize(o, t, false).elements =~= seq![bare_element(kind@)]);
}


proof fn lemma_run_with_literal(
    options: Options,
    tokens: Seq<Token>,
    i: int,
    k: int,
    text: String,
    nested: bool,
)
    requires
        0 <= i <= k <= tokens.len(),
    ensures
        ({
            let with = tokens.insert(i, Token::Literal(text));
            let a = run(options, tokens.take(k), nested);
            let b = run(options, with.take(k + 1), nested);
            let j = run(options, tokens.take(i), nested).messages.len();
            &&& b.mode == a.mode
            &&& b.elements == a.elements
            &&& j <= a.messages.len()
            &&& b.messages == a.messages.insert(j as int, error_of(UNEXPECTED_LITERAL@))
        }),
    decreases k - i,
{
    let with = tokens.insert(i, Token::Literal(text));
    let e = error_of(UNEXPECTED_LITERAL@);
    if k == i {
        assert(with.take(k + 1).drop_last() =~= tokens.take(i));
        assert(with.take(k + 1).last() == Token::Literal(text));
        let a = run(options, tokens.take(k), nested);
        let b = run(options, with.take(k + 1), nested);
        let d = step(options, a.mode, Token::Literal(text), nested);
        assert(d.mode == a.mode);
        assert(d.messages == seq![e]);
        assert(b.mode == d.mode);
        assert(b.messages == a.messages + d.messages);
        assert(a.messages.insert(a.messages.len() as int, e) =~= a.messages + seq![e]);
        assert(b.elements == a.elements + d.elements);
        assert(a.elements + Seq::<ElementView>::empty() =~= a.elements);
    } else {
        lemma_run_with_literal(options, tokens, i, k - 1, text, nested);
        let a0 = run(options, tokens.take(k - 1), nested);
        assert(tokens.take(k).drop_last() =~= tokens.take(k - 1));
        assert(tokens.take(k).last() == tokens[k - 1]);
        assert(with.take(k + 1).drop_last() =~= with.take(k));
        assert(with[k] == tokens[k - 1]);
        assert(with.take(k + 1).last() == tokens[k - 1]);
        let d = step(options, a0.mode, tokens[k - 1], nested);
        let j = run(options, tokens.take(i), nested).messages.len();
        let a = run(options, tokens.take(k), nested);
        let b = run(options, with.take(k + 1), nested);
        assert(a.mode == d.mode);
        assert(a.messages == a0.messages + d.messages);
        assert(a.elements == a0.elements + d.elements);
        assert(b.mode == d.mode);
        assert(b.messages == run(options, with.take(k), nested).messages + d.messages);
        assert(b.elements == run(options, with.take(k), nested).elements + d.elements);
        assert(a0.messages.insert(j as int, e) + d.messages =~= (a0.messages + d.messages).insert(
            j as int,
            e,
        ));
    }
}

/// A literal raises one error and leaves the reading as it was: inserting a
/// literal anywhere in a list adds exactly one unexpected-literal error, at
/// the place where the literal is read, and changes neither the state
/// reached, nor the elements, nor the other messages.
pub proof fn law_literal_is_skipped(
    options: Options,
    tokens: Seq<Token>,
    i: int,
    text: String,
    nested: bool,
)
    requires
        0 <= i <= tokens.len(),
    ensures
        ({
            let with = tokens.insert(i, Token::Literal(text));
            let plain = tokenize(options, tokens, nested);
            let j = run(options, tokens.take(i), nested).messages.len();
            &&& j <= plain.messages.len()
            &&& tokenize(options, with, nested).mode == plain.mode
            &&& tokenize(options, with, nested).elements == plain.elements
            &&& tokenize(options, with, nested).messages == plain.messages.take(j as int) + seq![
                error_of(UNEXPECTED_LITERAL@),
            ] + plain.messages.skip(j as int)
        }),
{
    let with = tokens.insert(i, Token::Literal(text));
    let e = error_of(UNEXPECTED_LITERAL@);
    lemma_run_with_literal(options, tokens, i, tokens.len() as int, text, nested);
    assert(tokens.take(tokens.len() as int) =~= tokens);
    assert(with.take(tokens.len() + 1int) =~= with);
    let a = run(options, tokens, nested);
    let c = closing(a.mode);
    let j = run(options, tokens.take(i), nested).messages.len();
    assert(a.messages.insert(j as int, e) + c.messages =~= (a.messages + c.messages).take(j as int)
        + seq![e] + (a.messages + c.messages).skip(j as int));
}

/// In a template that has tokens, a literal anywhere at the top level adds
/// exactly one unexpected-literal error and changes neither the elements
/// returned nor the other messages.
pub proof fn law_literal_in_template(
    options: Option<Options>,
    tokens: Seq<Token>,
    i: int,
    text: String,
)
    requires
        0 <= i <= tokens.len(),
        tokens.len() > 0,
    ensures
        ({
            let o = effective_options(options);
            let with = tokens.insert(i, Token::Literal(text));
            let m = template_messages(o, tokens);
            exists|j: int|
                0 <= j <= m.len() && #[trigger] template_messages(o, with) == m.take(j) + seq![
                    error_of(UNEXPECTED_LITERAL@),
                ] + m.skip(j)
        }),
        template_elements(
            effective_options(options),
            tokens.insert(i, Token::Literal(text)),
        ) == template_elements(effective_options(options), tokens),
{
    let o = effective_options(options);
    let with = tokens.insert(i, Token::Literal(text));
    law_literal_is_skipped(o, tokens, i, text, false);
    assert(with.len() > 0);
    let j = run(o, tokens.take(i), false).messages.len() as int;
    let m = template_messages(o, tokens);
    assert(template_messages(o, with) == m.take(j) + seq![error_of(UNEXPECTED_LITERAL@)] + m.skip(j));
}

} // verus!
