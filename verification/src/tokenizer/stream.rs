//! Reading proc_macro2 token streams into the tokenizer's own `Token` trees.

use vstd::prelude::*;

use super::{Delimiter, Token};

verus! {

#[verifier::external_type_specification]
#[verifier::external_body]
pub struct ExTokenStream(proc_macro2::TokenStream);

#[verifier::external_type_specification]
#[verifier::external_body]
pub struct ExTokenTree(proc_macro2::TokenTree);

#[verifier::external_type_specification]
#[verifier::external_body]
pub struct ExGroup(proc_macro2::Group);

#[verifier::external_type_specification]
#[verifier::external_body]
pub struct ExIdent(proc_macro2::Ident);

#[verifier::external_type_specification]
#[verifier::external_body]
pub struct ExPunct(proc_macro2::Punct);

#[verifier::external_type_specification]
#[verifier::external_body]
pub struct ExLiteral(proc_macro2::Literal);

/// The variant of a token tree, with its payload.
enum TreeParts {
    Group(proc_macro2::Group),
    Ident(proc_macro2::Ident),
    Punct(proc_macro2::Punct),
    Literal(proc_macro2::Literal),
}

/// Tells the variants of `proc_macro2::TokenTree` apart, moving the payload
/// of each into the matching variant of `TreeParts`. The payload types are
/// opaque here, so nothing more is stated.
#[verifier::external_body]
fn split_tree(tree: proc_macro2::TokenTree) -> (r: TreeParts) {
    match tree {
        proc_macro2::TokenTree::Group(g) => TreeParts::Group(g),
        proc_macro2::TokenTree::Ident(i) => TreeParts::Ident(i),
        proc_macro2::TokenTree::Punct(p) => TreeParts::Punct(p),
        proc_macro2::TokenTree::Literal(l) => TreeParts::Literal(l),
    }
}

/// Calls `proc_macro2::Group::delimiter` and maps each variant of
/// `proc_macro2::Delimiter` to the variant of the same name (`None` to
/// `Invisible`). The group is opaque here, so nothing is stated.
#[verifier::external_body]
fn group_delimiter(group: &proc_macro2::Group) -> (r: Delimiter) {
    match group.delimiter() {
        proc_macro2::Delimiter::Parenthesis => Delimiter::Parenthesis,
        proc_macro2::Delimiter::Brace => Delimiter::Brace,
        proc_macro2::Delimiter::Bracket => Delimiter::Bracket,
        proc_macro2::Delimiter::None => Delimiter::Invisible,
    }
}

/// Calls `proc_macro2::Group::stream`: the tokens inside the group, without
/// its delimiters. Nothing is stated: the group is opaque here.
#[verifier::external_body]
fn group_stream(group: &proc_macro2::Group) -> (r: proc_macro2::TokenStream) {
    group.stream()
}

/// The text of an identifier, through its `Display` implementation
/// (`to_string`). Nothing is stated: the identifier is opaque here.
#[verifier::external_body]
fn ident_text(ident: &proc_macro2::Ident) -> (r: String) {
    ident.to_string()
}

/// Calls `proc_macro2::Punct::as_char`. Nothing is stated: the punctuation
/// is opaque here.
#[verifier::external_body]
fn punct_char(punct: &proc_macro2::Punct) -> (r: char) {
    punct.as_char()
}

/// The source text of a literal, through its `Display` implementation
/// (`to_string`). Nothing is stated: the literal is opaque here.
#[verifier::external_body]
fn literal_text(literal: &proc_macro2::Literal) -> (r: String) {
    literal.to_string()
}

/// The token trees a token stream holds, in order, as `Token`s.
pub uninterp spec fn stream_tokens(stream: proc_macro2::TokenStream) -> Seq<Token>;

/// Reads a token stream into `Token` trees: the stream is cloned and walked
/// with its `IntoIterator` implementation, and each tree is turned into a
/// `Token` by `token_of_tree`. The result is named `stream_tokens` of the
/// stream: it depends on the stream alone.
#[verifier::external_body]
pub fn read_tokens(stream: &proc_macro2::TokenStream) -> (r: Vec<Token>)
    ensures
        r@ == stream_tokens(*stream),
{
    stream.clone().into_iter().map(|tree| token_of_tree(tree)).collect()
}

/// One token tree as a `Token` of the same variant; a group's contents are
/// read with `read_tokens`.
fn token_of_tree(tree: proc_macro2::TokenTree) -> (r: Token) {
    match split_tree(tree) {
        TreeParts::Group(g) => Token::Group(group_delimiter(&g), read_tokens(&group_stream(&g))),
        TreeParts::Ident(i) => Token::Ident(ident_text(&i)),
        TreeParts::Punct(p) => Token::Punct(punct_char(&p)),
        TreeParts::Literal(l) => Token::Literal(literal_text(&l)),
    }
}

} // verus!
