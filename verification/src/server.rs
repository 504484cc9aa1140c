//! The spelling server: what it answers to the events of a text editor.

use vstd::prelude::*;
use crate::lexer::{Lexer, Word};
use crate::model::{tokens_of, WordView};
use crate::position::{Range, RangeView};
use crate::text::{same_text, texts_of};
use crate::trusted::{accepts, changed_document, changed_params, opened_document, opened_params};
use serde_json::Value;
use zspell::Dictionary;

verus! {

/// How grave a diagnostic is.
#[derive(Clone, Copy, Debug, PartialEq, Eq, Structural)]
pub enum Severity {
    Error,
    Warning,
    Information,
    Hint,
}

/// A remark on a stretch of a text.
#[derive(Debug, PartialEq, Eq)]
pub struct Diagnostic {
    pub range: Range,
    pub severity: Severity,
    pub message: String,
}

/// A diagnostic as a mathematical value.
pub struct DiagnosticView {
    pub range: RangeView,
    pub severity: Severity,
    pub message: Seq<char>,
}

impl View for Diagnostic {
    type V = DiagnosticView;

    open spec fn view(&self) -> DiagnosticView {
        DiagnosticView { range: self.range@, severity: self.severity, message: self.message@ }
    }
}

/// The diagnostic for a misspelled word that takes up `range`.
pub open spec fn misspelling(range: RangeView) -> DiagnosticView {
    DiagnosticView { range, severity: Severity::Error, message: "Incorrect spelling"@ }
}

/// The diagnostics for `words`: one for each word that the dictionary does not accept,
/// in the order of the words.
pub open spec fn misspellings(dict: Dictionary, words: Seq<WordView>) -> Seq<DiagnosticView> {
    words.filter(|w: WordView| !accepts(dict, w.text)).map_values(
        |w: WordView| misspelling(w.range),
    )
}

/// The diagnostics for a list of words and one word more.
pub proof fn lemma_misspellings_push(dict: Dictionary, words: Seq<WordView>, word: WordView)
    ensures
        misspellings(dict, words.push(word)) == if accepts(dict, word.text) {
            misspellings(dict, words)
        } else {
            misspellings(dict, words).push(misspelling(word.range))
        },
{
    reveal(Seq::filter);
    let rejected = |w: WordView| !accepts(dict, w.text);
    let longer = words.push(word);
    assert(longer.drop_last() =~= words);
    assert(longer.last() == word);
    if accepts(dict, word.text) {
        assert(longer.filter(rejected) == words.filter(rejected));
    } else {
        assert(longer.filter(rejected) == words.filter(rejected).push(word));
        assert(misspellings(dict, longer) =~= misspellings(dict, words).push(
            misspelling(word.range),
        ));
    }
}

/// The views of a list of diagnostics.
pub open spec fn views(diagnostics: Seq<Diagnostic>) -> Seq<DiagnosticView> {
    diagnostics.map_values(|d: Diagnostic| d@)
}

/// Adds the diagnostic for `word` to `diagnostics`, unless the word was accepted.
pub fn report(diagnostics: &mut Vec<Diagnostic>, word: &Word, accepted: bool)
    ensures
        views(final(diagnostics)@) == if accepted {
            views(old(diagnostics)@)
        } else {
            views(old(diagnostics)@).push(misspelling(word@.range))
        },
{
    if !accepted {
        let ghost before = diagnostics@;
        diagnostics.push(
            Diagnostic {
                range: word.range,
                severity: Severity::Error,
                message: "Incorrect spelling".to_owned(),
            },
        );
        proof {
            assert(views(diagnostics@) =~= views(before).push(misspelling(word@.range)));
        }
    }
}

/// What the editor is told about a document: its diagnostics, all of them.
#[derive(Debug, PartialEq, Eq)]
pub struct PublishDiagnostics {
    pub uri: String,
    pub diagnostics: Vec<Diagnostic>,
    pub version: Option<i32>,
}

/// Diagnostics for a document as a mathematical value.
pub struct PublishDiagnosticsView {
    pub uri: Seq<char>,
    pub diagnostics: Seq<DiagnosticView>,
    pub version: Option<i32>,
}

impl View for PublishDiagnostics {
    type V = PublishDiagnosticsView;

    open spec fn view(&self) -> PublishDiagnosticsView {
        PublishDiagnosticsView {
            uri: self.uri@,
            diagnostics: views(self.diagnostics@),
            version: self.version,
        }
    }
}

impl PublishDiagnostics {
    /// The method name of the notification that carries diagnostics to the editor.
    pub fn method() -> (name: &'static str)
        ensures
            name@ == "textDocument/publishDiagnostics"@,
    {
        "textDocument/publishDiagnostics"
    }
}

/// What is published for the document `uri` when it holds `text`: nothing for an empty
/// text, else a diagnostic for each misspelled word.
pub open spec fn publication(dict: Dictionary, uri: Seq<char>, text: Seq<char>) -> Option<
    PublishDiagnosticsView,
> {
    if text.len() == 0 {
        None
    } else {
        Some(
            PublishDiagnosticsView {
                uri,
                diagnostics: misspellings(dict, tokens_of(text)),
                version: None,
            },
        )
    }
}

/// The view of what a call may publish.
pub open spec fn publish_view(p: Option<PublishDiagnostics>) -> Option<PublishDiagnosticsView> {
    match p {
        Some(p) => Some(p@),
        None => None,
    }
}

/// The kinds of notification that the server tells apart.
#[derive(Clone, Copy, Debug, PartialEq, Eq, Structural)]
pub enum Method {
    DidOpen,
    DidChange,
    Shutdown,
    Exit,
    Other,
}

impl Method {
    /// The kind of the notification with the method name `name`.
    pub open spec fn of_name(name: Seq<char>) -> Method {
        if name == "textDocument/didOpen"@ {
            Method::DidOpen
        } else if name == "textDocument/didChange"@ {
            Method::DidChange
        } else if name == "shutdown"@ {
            Method::Shutdown
        } else if name == "exit"@ {
            Method::Exit
        } else {
            Method::Other
        }
    }

    /// Tells the kind of a notification by its method name.
    pub fn of(name: &str) -> (method: Method)
        ensures
            method == Method::of_name(name@),
    {
        if same_text(name, "textDocument/didOpen") {
            Method::DidOpen
        } else if same_text(name, "textDocument/didChange") {
            Method::DidChange
        } else if same_text(name, "shutdown") {
            Method::Shutdown
        } else if same_text(name, "exit") {
            Method::Exit
        } else {
            Method::Other
        }
    }
}

/// A notification from the editor, with what the server reads of it.
#[derive(Debug, PartialEq, Eq)]
pub enum Event {
    /// A document was opened with this text.
    DidOpen { uri: String, text: String },
    /// A document was changed. Each change carries the whole new text.
    DidChange { uri: String, changes: Vec<String> },
    Shutdown,
    Exit,
    Other,
}

impl Event {
    /// Whether the event, if it is a change, holds a change.
    pub open spec fn holds_change(self) -> bool {
        self matches Event::DidChange { changes, .. } ==> changes.len() > 0
    }
}

/// Why a notification could not be taken in.
#[derive(Debug)]
pub enum ServerError {
    /// The parameters of the notification are not what its method asks for.
    Params(serde_json::Error),
    /// The notification tells of a change, and holds none.
    NoChange,
}

/// Reads a notification: tells its kind by `method`, and takes from `params` what the
/// server reads of a notification of that kind.
///
/// Only the parameters of an opened or a changed document are read, so no other
/// notification can fail. An opened or changed document is refused where its
/// parameters cannot be read, and a changed one where it holds no change.
pub fn decode(method: &str, params: Value) -> (r: Result<Event, ServerError>)
    ensures
        match Method::of_name(method@) {
            Method::DidOpen => match opened_params(params) {
                Some((uri, text)) => {
                    &&& r matches Ok(Event::DidOpen { uri: read_uri, text: read_text })
                    &&& read_uri@ == uri
                    &&& read_text@ == text
                },
                None => r matches Err(ServerError::Params(_)),
            },
            Method::DidChange => match changed_params(params) {
                Some((uri, changes)) => if changes.len() == 0 {
                    r matches Err(ServerError::NoChange)
                } else {
                    &&& r matches Ok(Event::DidChange { uri: read_uri, changes: read_changes })
                    &&& read_uri@ == uri
                    &&& texts_of(read_changes@) == changes
                },
                None => r matches Err(ServerError::Params(_)),
            },
            Method::Shutdown => r matches Ok(Event::Shutdown),
            Method::Exit => r matches Ok(Event::Exit),
            Method::Other => r matches Ok(Event::Other),
        },
{
    match Method::of(method) {
        Method::DidOpen => match opened_document(params) {
            Ok((uri, text)) => Ok(Event::DidOpen { uri, text }),
            Err(e) => Err(ServerError::Params(e)),
        },
        Method::DidChange => match changed_document(params) {
            Ok((uri, changes)) => {
                if changes.len() == 0 {
                    Err(ServerError::NoChange)
                } else {
                    Ok(Event::DidChange { uri, changes })
                }
            },
            Err(e) => Err(ServerError::Params(e)),
        },
        Method::Shutdown => Ok(Event::Shutdown),
        Method::Exit => Ok(Event::Exit),
        Method::Other => Ok(Event::Other),
    }
}

/// Checks the spelling of documents as the editor reports them.
pub struct Server {
    pub dict: Dictionary,
    pub did_shutdown: bool,
    pub did_exit: bool,
}

impl Server {
    /// Whether `after` and `published` are what the server makes of `event`.
    ///
    /// An opened document is checked as it is, a changed one in the text of its first
    /// change. On a shutdown the server is done. Nothing else has an effect.
    pub open spec fn answers(
        self,
        event: Event,
        after: Server,
        published: Option<PublishDiagnostics>,
    ) -> bool {
        &&& after.dict == self.dict
        &&& match event {
            Event::DidOpen { uri, text } => {
                &&& publish_view(published) == publication(self.dict, uri@, text@)
                &&& after.did_shutdown == self.did_shutdown
                &&& after.did_exit == self.did_exit
            },
            Event::DidChange { uri, changes } => {
                &&& publish_view(published) == publication(self.dict, uri@, changes[0]@)
                &&& after.did_shutdown == self.did_shutdown
                &&& after.did_exit == self.did_exit
            },
            Event::Shutdown => {
                &&& published is None
                &&& after.did_shutdown
                &&& after.did_exit
            },
            Event::Exit | Event::Other => {
                &&& published is None
                &&& after.did_shutdown == self.did_shutdown
                &&& after.did_exit == self.did_exit
            },
        }
    }

    /// A server that checks against `dict` and is running.
    pub fn new(dict: Dictionary) -> (server: Self)
        ensures
            server.dict == dict,
            !server.did_shutdown,
            !server.did_exit,
    {
        Self { dict, did_shutdown: false, did_exit: false }
    }

    /// Takes in a notification, and gives what is to be published in answer to it.
    ///
    /// An opened document is checked as it is, a changed one in the text of its first
    /// change. On a shutdown the server is done. Nothing else has an effect, and a
    /// notification that is refused has none.
    pub fn handle_notification(&mut self, method: &str, params: Value) -> (r: Result<
        Option<PublishDiagnostics>,
        ServerError,
    >)
        ensures
            match Method::of_name(method@) {
                Method::DidOpen => {
                    &&& *final(self) == *old(self)
                    &&& match opened_params(params) {
                        Some((uri, text)) => {
                            &&& r matches Ok(published)
                            &&& publish_view(published) == publication(old(self).dict, uri, text)
                        },
                        None => r matches Err(ServerError::Params(_)),
                    }
                },
                Method::DidChange => {
                    &&& *final(self) == *old(self)
                    &&& match changed_params(params) {
                        Some((uri, changes)) => if changes.len() == 0 {
                            r matches Err(ServerError::NoChange)
                        } else {
                            &&& r matches Ok(published)
                            &&& publish_view(published) == publication(
                                old(self).dict,
                                uri,
                                changes[0],
                            )
                        },
                        None => r matches Err(ServerError::Params(_)),
                    }
                },
                Method::Shutdown => {
                    &&& r matches Ok(None)
                    &&& final(self).did_shutdown
                    &&& final(self).did_exit
                    &&& final(self).dict == old(self).dict
                },
                Method::Exit | Method::Other => {
                    &&& r matches Ok(None)
                    &&& *final(self) == *old(self)
                },
            },
    {
        match decode(method, params) {
            Ok(event) => Ok(self.handle_event(event)),
            Err(e) => Err(e),
        }
    }

    /// Answers an event: gives what is to be published, and ends the server on a
    /// shutdown.
    pub fn handle_event(&mut self, event: Event) -> (published: Option<PublishDiagnostics>)
        requires
            event.holds_change(),
        ensures
            old(self).answers(event, *final(self), published),
    {
        match event {
            Event::DidOpen { uri, text } => self.make_diagnostics(uri, text.as_str()),
            Event::DidChange { uri, changes } => {
                let text = changes[0].as_str();
                self.make_diagnostics(uri, text)
            },
            Event::Shutdown => {
                self.did_shutdown = true;
                self.did_exit = true;
                None
            },
            Event::Exit => None,
            Event::Other => None,
        }
    }

    /// Checks the words of `text`, and gives the diagnostics for the document `uri`: one
    /// for each word that the dictionary does not accept. An empty text gives nothing.
    pub fn make_diagnostics(&self, uri: String, text: &str) -> (r: Option<PublishDiagnostics>)
        ensures
            publish_view(r) == publication(self.dict, uri@, text@),
    {
        let mut lexer = match Lexer::new(text) {
            None => return None,
            Some(lexer) => lexer,
        };
        let mut diagnostics: Vec<Diagnostic> = Vec::new();
        let ghost all = tokens_of(text@);
        let ghost mut done: int = 0;
        proof {
            assert(all.skip(0) =~= all);
            assert(misspellings(self.dict, all.take(0)) =~= Seq::<DiagnosticView>::empty()) by {
                reveal(Seq::filter);
                assert(all.take(0) =~= Seq::<WordView>::empty());
            }
            assert(views(diagnostics@) =~= Seq::<DiagnosticView>::empty());
        }
        loop
            invariant_except_break
                lexer.upcoming() == all.skip(done),
            invariant
                lexer.wf(),
                0 <= done <= all.len(),
                views(diagnostics@) == misspellings(self.dict, all.take(done)),
            ensures
                done == all.len(),
            decreases all.len() - done,
        {
            match lexer.next() {
                None => {
                    break ;
                },
                Some(word) => {
                    let accepted = self.dict.check(word.text);
                    report(&mut diagnostics, word, accepted);
                    proof {
                        lemma_misspellings_push(self.dict, all.take(done), all[done]);
                        assert(all.take(done).push(all[done]) =~= all.take(done + 1));
                        assert(all.skip(done).drop_first() =~= all.skip(done + 1));
                        done = done + 1;
                    }
                },
            }
        }
        proof {
            assert(all.take(done) =~= all);
        }
        Some(PublishDiagnostics { uri, diagnostics, version: None })
    }
}

} // verus!
