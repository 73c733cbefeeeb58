use lm_service::channels::chat;
use lm_service::channels::piece_text;
use lm_service::channels::dialog;
use lm_service::channels::generate;
use lm_service::channels::set_dialog;
use lm_service::channels::take_dialog;
use lm_service::channels::ChatRequest;
use lm_service::channels::Channels;

/// A chat submission lands at the back of the outbox with its prompt and
/// conduit handle intact.
#[test]
fn chat_appends_request() {
    let mut c = Channels::new();
    chat(&mut c, String::from("hello"), 5);
    assert_eq!(c.pending.len(), 1);
    match &c.pending[0] {
        ChatRequest::Chat(prompt, sender) => {
            assert_eq!(prompt, "hello");
            assert_eq!(*sender, 5);
        }
        other => panic!("expected Chat, got {:?}", other),
    }
}

/// A bounded generation carries its step cap along.
#[test]
fn generate_appends_request() {
    let mut c = Channels::new();
    chat(&mut c, String::from("first"), 4);
    generate(&mut c, String::from("second"), 6, 32);
    assert_eq!(c.pending.len(), 2);
    match &c.pending[1] {
        ChatRequest::Generate(prompt, sender, max_steps) => {
            assert_eq!(prompt, "second");
            assert_eq!(*sender, 6);
            assert_eq!(*max_steps, 32);
        }
        other => panic!("expected Generate, got {:?}", other),
    }
}

/// The newline escape becomes a real newline; other pieces pass unchanged.
#[test]
fn piece_text_unescapes_newline() {
    assert_eq!(piece_text(String::from("\\n")), "\n");
    assert_eq!(piece_text(String::from("hello")), "hello");
    assert_eq!(piece_text(String::from("")), "");
    assert_eq!(piece_text(String::from("\\t")), "\\t");
}

/// Starting a turn installs its conduit as the dialog; abort removes it.
#[test]
fn dialog_install_and_abort() {
    let mut c = Channels::new();
    assert_eq!(dialog(&c), None);
    assert_eq!(set_dialog(&mut c, 9), None);
    assert_eq!(dialog(&c), Some(9));
    assert_eq!(set_dialog(&mut c, 11), Some(9));
    assert_eq!(take_dialog(&mut c), Some(11));
    assert_eq!(dialog(&c), None);
}
