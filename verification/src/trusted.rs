//! What is taken on trust: the functions of the standard library, of `zspell` and of
//! `serde_json` that the library calls, with what it relies on of each. Nothing here is
//! proved.

use vstd::prelude::*;
use crate::text::{char_width, texts_of};
use lsp_types::{DidChangeTextDocumentParams, DidOpenTextDocumentParams};
use serde_json::Value;
use zspell::Dictionary;

verus! {

/// `char::len_utf8` gives the number of bytes that the character takes up when it is
/// encoded as UTF-8.
pub assume_specification[ char::len_utf8 ](c: char) -> (n: usize)
    ensures
        n == char_width(c),
;

/// Whether `c.is_alphabetic()` holds: the character has the Unicode property Alphabetic.
pub uninterp spec fn alphabetic(c: char) -> bool;

/// `char::is_alphabetic` looks the character up in the Unicode tables of the standard
/// library, so its result is fixed by the character. Which characters are alphabetic is
/// left open.
pub assume_specification[ char::is_alphabetic ](c: char) -> (r: bool)
    ensures
        r == alphabetic(c),
;

/// `zspell::Dictionary`, a set of word lists. What it holds is not looked into.
#[verifier::external_type_specification]
#[verifier::external_body]
pub struct ExDictionary(Dictionary);

/// Whether `dict.check(text)` holds: the dictionary takes every word of `text` for
/// correctly spelled.
pub uninterp spec fn accepts(dict: Dictionary, text: Seq<char>) -> bool;

/// `zspell::Dictionary::check` splits `input` into words and looks each of them up in
/// the word lists of the dictionary, so its result is fixed by the dictionary and the
/// text. Which texts a dictionary accepts is left open.
pub assume_specification[ Dictionary::check ](dict: &Dictionary, input: &str) -> (ok: bool)
    ensures
        ok == accepts(*dict, input@),
;

/// `serde_json::Value`, a JSON value. What it holds is not looked into.
#[verifier::external_type_specification]
#[verifier::external_body]
pub struct ExValue(Value);

/// `serde_json::Error`, the reason why a JSON value could not be read.
#[verifier::external_type_specification]
#[verifier::external_body]
pub struct ExJsonError(serde_json::Error);

/// What `serde_json::from_value` reads out of `params` as the parameters of a
/// notification that a document was opened: the URI of the document and its text, or
/// `None` where `params` are no such parameters.
pub uninterp spec fn opened_params(params: Value) -> Option<(Seq<char>, Seq<char>)>;

/// Reads the parameters of a notification that a document was opened, with
/// `serde_json::from_value`, and gives the URI of the document and its text. What comes
/// out is fixed by `params`; what it is for given parameters is left open.
#[verifier::external_body]
pub(crate) fn opened_document(params: Value) -> (r: Result<(String, String), serde_json::Error>)
    ensures
        match r {
            Ok((uri, text)) => opened_params(params) == Some((uri@, text@)),
            Err(_) => opened_params(params) is None,
        },
{
    serde_json::from_value::<DidOpenTextDocumentParams>(params)
        .map(|p| (p.text_document.uri.into(), p.text_document.text))
}

/// What `serde_json::from_value` reads out of `params` as the parameters of a
/// notification that a document was changed: the URI of the document and the text of
/// each change, in order, or `None` where `params` are no such parameters.
pub uninterp spec fn changed_params(params: Value) -> Option<(Seq<char>, Seq<Seq<char>>)>;

/// Reads the parameters of a notification that a document was changed, with
/// `serde_json::from_value`, and gives the URI of the document and the text of each
/// change, in order. What comes out is fixed by `params`; what it is for given
/// parameters is left open.
#[verifier::external_body]
pub(crate) fn changed_document(params: Value) -> (r: Result<
    (String, Vec<String>),
    serde_json::Error,
>)
    ensures
        match r {
            Ok((uri, changes)) => changed_params(params) == Some((uri@, texts_of(changes@))),
            Err(_) => changed_params(params) is None,
        },
{
    serde_json::from_value::<DidChangeTextDocumentParams>(params).map(
        |p| (p.text_document.uri.into(), p.content_changes.into_iter().map(|c| c.text).collect()),
    )
}

} // verus!
