use spell_lexer::lexer::Word;
use spell_lexer::options::Options;
use spell_lexer::position::{Position, Range};
use lsp_types::{
    DidChangeTextDocumentParams, DidOpenTextDocumentParams, TextDocumentContentChangeEvent,
    TextDocumentItem, Url, VersionedTextDocumentIdentifier,
};
use serde_json::Value;
use spell_lexer::server::{
    decode, report, Diagnostic, Event, Method, PublishDiagnostics, Server, ServerError, Severity,
};

fn dictionary() -> zspell::Dictionary {
    let affix = "\nSFX X Y 1\nSFX X 0 able . ds:able\n";
    let words = "\ndrink/X po:verb\nwater\n";
    zspell::builder().config_str(affix).dict_str(words).build().unwrap()
}

fn span(line: usize, start: usize, end: usize) -> Range {
    Range {
        start: Position { line, character: start },
        end: Position { line, character: end },
    }
}

fn opened(uri: &str, text: &str) -> Value {
    let document =
        TextDocumentItem::new(Url::parse(uri).unwrap(), "text".to_string(), 1, text.to_string());
    serde_json::to_value(DidOpenTextDocumentParams { text_document: document }).unwrap()
}

fn changed(uri: &str, texts: Vec<&str>) -> Value {
    let changes = texts
        .into_iter()
        .map(|text| TextDocumentContentChangeEvent {
            range: None,
            range_length: None,
            text: text.to_string(),
        })
        .collect();
    serde_json::to_value(DidChangeTextDocumentParams {
        text_document: VersionedTextDocumentIdentifier::new(Url::parse(uri).unwrap(), 2),
        content_changes: changes,
    })
    .unwrap()
}

fn misspelled(line: usize, start: usize, end: usize) -> Diagnostic {
    Diagnostic {
        range: span(line, start, end),
        severity: Severity::Error,
        message: "Incorrect spelling".to_string(),
    }
}

#[test]
fn misspelled_words_are_reported() {
    let server = Server::new(dictionary());
    let text = "drink watr\ndrinkable drnk water\n";
    let published = server.make_diagnostics("file:///a.txt".to_string(), text);
    assert_eq!(
        published,
        Some(PublishDiagnostics {
            uri: "file:///a.txt".to_string(),
            diagnostics: vec![misspelled(0, 6, 10), misspelled(1, 10, 14)],
            version: None,
        }),
    );
}

fn marked(text: &str) -> Vec<Range> {
    let server = Server::new(dictionary());
    let published = server.make_diagnostics("file:///m.txt".to_string(), text).unwrap();
    assert_eq!(published.uri, "file:///m.txt");
    assert_eq!(published.version, None);
    published.diagnostics.into_iter().map(|diagnostic| diagnostic.range).collect()
}

#[test]
fn each_unknown_word_is_marked_where_it_stands() {
    assert_eq!(marked("Hello world.\n"), vec![span(0, 0, 5), span(0, 6, 11)]);
}

#[test]
fn unknown_words_on_both_sides_of_a_hyphen_are_marked() {
    assert_eq!(marked("foo-bar\n"), vec![span(0, 0, 3), span(0, 4, 7)]);
}

#[test]
fn unknown_words_on_both_sides_of_a_line_end_are_marked() {
    assert_eq!(marked("abc\ndef\n"), vec![span(0, 0, 3), span(1, 0, 3)]);
}

#[test]
fn unknown_word_after_empty_lines_is_marked_on_its_line() {
    assert_eq!(marked("\n\nfoo\n"), vec![span(2, 0, 3)]);
}

#[test]
fn correct_text_has_no_diagnostics() {
    let server = Server::new(dictionary());
    let published = server.make_diagnostics("u".to_string(), "Water, drink!\n");
    assert_eq!(
        published,
        Some(PublishDiagnostics { uri: "u".to_string(), diagnostics: vec![], version: None }),
    );
}

#[test]
fn empty_text_publishes_nothing() {
    let server = Server::new(dictionary());
    assert_eq!(server.make_diagnostics("u".to_string(), ""), None);
}

#[test]
fn new_server_is_running() {
    let server = Server::new(dictionary());
    assert!(!server.did_shutdown);
    assert!(!server.did_exit);
}

#[test]
fn opened_document_is_checked() {
    let mut server = Server::new(dictionary());
    let published = server.handle_event(Event::DidOpen {
        uri: "file:///b.txt".to_string(),
        text: "wter".to_string(),
    });
    assert_eq!(
        published,
        Some(PublishDiagnostics {
            uri: "file:///b.txt".to_string(),
            diagnostics: vec![misspelled(0, 0, 4)],
            version: None,
        }),
    );
    assert!(!server.did_exit);
}

#[test]
fn changed_document_is_checked_in_its_first_change() {
    let mut server = Server::new(dictionary());
    let published = server.handle_event(Event::DidChange {
        uri: "file:///c.txt".to_string(),
        changes: vec!["\nwater drik".to_string(), "xx yy zz".to_string()],
    });
    assert_eq!(
        published,
        Some(PublishDiagnostics {
            uri: "file:///c.txt".to_string(),
            diagnostics: vec![misspelled(1, 6, 10)],
            version: None,
        }),
    );
    assert!(!server.did_exit);
}

#[test]
fn shutdown_ends_the_server() {
    let mut server = Server::new(dictionary());
    assert_eq!(server.handle_event(Event::Shutdown), None);
    assert!(server.did_shutdown);
    assert!(server.did_exit);
}

#[test]
fn exit_and_others_change_nothing() {
    let mut server = Server::new(dictionary());
    assert_eq!(server.handle_event(Event::Exit), None);
    assert_eq!(server.handle_event(Event::Other), None);
    assert!(!server.did_shutdown);
    assert!(!server.did_exit);
}

#[test]
fn open_notification_is_read() {
    let event = decode("textDocument/didOpen", opened("file:///d.txt", "some text\n")).unwrap();
    assert_eq!(
        event,
        Event::DidOpen { uri: "file:///d.txt".to_string(), text: "some text\n".to_string() },
    );
}

#[test]
fn change_notification_is_read() {
    let event =
        decode("textDocument/didChange", changed("file:///e.txt", vec!["one", "two"])).unwrap();
    assert_eq!(
        event,
        Event::DidChange {
            uri: "file:///e.txt".to_string(),
            changes: vec!["one".to_string(), "two".to_string()],
        },
    );
}

#[test]
fn change_notification_without_a_change_is_refused() {
    let refused = decode("textDocument/didChange", changed("file:///e.txt", vec![]));
    assert!(matches!(refused, Err(ServerError::NoChange)));
}

#[test]
fn parameters_of_another_method_are_refused() {
    let refused = decode("textDocument/didOpen", changed("file:///e.txt", vec!["one"]));
    assert!(matches!(refused, Err(ServerError::Params(_))));
    let refused = decode("textDocument/didChange", Value::Null);
    assert!(matches!(refused, Err(ServerError::Params(_))));
}

#[test]
fn parameters_of_other_notifications_are_not_read() {
    assert_eq!(decode("shutdown", Value::Null).unwrap(), Event::Shutdown);
    assert_eq!(decode("exit", Value::Bool(true)).unwrap(), Event::Exit);
    assert_eq!(decode("initialized", opened("file:///d.txt", "x")).unwrap(), Event::Other);
}

#[test]
fn open_notification_is_answered() {
    let mut server = Server::new(dictionary());
    let published =
        server.handle_notification("textDocument/didOpen", opened("file:///f.txt", "drink wine"));
    assert_eq!(
        published.unwrap(),
        Some(PublishDiagnostics {
            uri: "file:///f.txt".to_string(),
            diagnostics: vec![misspelled(0, 6, 10)],
            version: None,
        }),
    );
}

#[test]
fn change_notification_is_answered_for_its_first_change() {
    let mut server = Server::new(dictionary());
    let published = server.handle_notification(
        "textDocument/didChange",
        changed("file:///g.txt", vec!["water", "wine"]),
    );
    assert_eq!(
        published.unwrap(),
        Some(PublishDiagnostics {
            uri: "file:///g.txt".to_string(),
            diagnostics: vec![],
            version: None,
        }),
    );
}

#[test]
fn shutdown_notification_ends_the_server() {
    let mut server = Server::new(dictionary());
    assert_eq!(server.handle_notification("exit", Value::Null).unwrap(), None);
    assert!(!server.did_exit);
    assert_eq!(server.handle_notification("shutdown", Value::Null).unwrap(), None);
    assert!(server.did_shutdown);
    assert!(server.did_exit);
}

#[test]
fn refused_notification_changes_nothing() {
    let mut server = Server::new(dictionary());
    let refused = server.handle_notification("textDocument/didOpen", Value::Null);
    assert!(matches!(refused, Err(ServerError::Params(_))));
    let refused =
        server.handle_notification("textDocument/didChange", changed("file:///h.txt", vec![]));
    assert!(matches!(refused, Err(ServerError::NoChange)));
    assert!(!server.did_shutdown);
    assert!(!server.did_exit);
}

#[test]
fn methods_are_told_by_name() {
    assert_eq!(Method::of("textDocument/didOpen"), Method::DidOpen);
    assert_eq!(Method::of("textDocument/didChange"), Method::DidChange);
    assert_eq!(Method::of("shutdown"), Method::Shutdown);
    assert_eq!(Method::of("exit"), Method::Exit);
    assert_eq!(Method::of("initialized"), Method::Other);
    assert_eq!(Method::of("textDocument/didopen"), Method::Other);
    assert_eq!(Method::of(""), Method::Other);
}

#[test]
fn diagnostics_go_out_under_their_method_name() {
    assert_eq!(PublishDiagnostics::method(), "textDocument/publishDiagnostics");
}

#[test]
fn rejected_word_is_added() {
    let word = Word { text: "wrd", range: span(3, 1, 4) };
    let mut diagnostics = vec![misspelled(0, 0, 2)];
    report(&mut diagnostics, &word, true);
    assert_eq!(diagnostics, vec![misspelled(0, 0, 2)]);
    report(&mut diagnostics, &word, false);
    assert_eq!(diagnostics, vec![misspelled(0, 0, 2), misspelled(3, 1, 4)]);
}

#[test]
fn default_options_name_the_index_files() {
    let options = Options::default();
    assert_eq!(options.affix, "./index.aff");
    assert_eq!(options.dictionary, "./index.dic");
}
