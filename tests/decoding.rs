use shardkv::{Command, Frame};

fn words(ws: &[&str]) -> Vec<Vec<u8>> {
    ws.iter().map(|w| w.as_bytes().to_vec()).collect()
}

#[test]
fn command_names_ignore_case() {
    let cmd = Command::from_words(&words(&["gEt", "Key"]), Frame::Null);
    assert_eq!(cmd, Command::Get { key: b"Key".to_vec() });
    let cmd = Command::from_words(&words(&["set", "k", "v"]), Frame::Null);
    assert_eq!(cmd, Command::SetValue { key: b"k".to_vec(), value: b"v".to_vec() });
}

#[test]
fn pubsub_commands_decode() {
    let cmd = Command::from_words(&words(&["Publish", "ch", "hi"]), Frame::Null);
    assert_eq!(cmd, Command::Publish { channel: b"ch".to_vec(), message: b"hi".to_vec() });
    let cmd = Command::from_words(&words(&["SUBSCRIBE", "a", "b"]), Frame::Null);
    assert_eq!(cmd, Command::Subscribe { channels: words(&["a", "b"]) });
    let cmd = Command::from_words(&words(&["UNSUBSCRIBE"]), Frame::Null);
    assert_eq!(cmd, Command::Unsubscribe { channels: Vec::new() });
}

#[test]
fn wrong_argument_counts_are_unknown() {
    let raw = Frame::Simple("raw".to_string());
    let cmd = Command::from_words(&words(&["SUBSCRIBE"]), Frame::Simple("raw".to_string()));
    assert_eq!(cmd, Command::Unknown { raw });
    let cmd = Command::from_words(&words(&["PUBLISH", "ch"]), Frame::Null);
    assert_eq!(cmd, Command::Unknown { raw: Frame::Null });
    let cmd = Command::from_words(&words(&["GETX", "k"]), Frame::Null);
    assert_eq!(cmd, Command::Unknown { raw: Frame::Null });
}

#[test]
fn simple_strings_count_as_words() {
    let frame = Frame::Array(vec![
        Frame::Simple("GET".to_string()),
        Frame::Bulk(b"key".to_vec()),
    ]);
    assert_eq!(Command::from_frame(frame), Command::Get { key: b"key".to_vec() });
}

#[test]
fn non_word_items_make_the_frame_unknown() {
    let frame = || Frame::Array(vec![Frame::Bulk(b"GET".to_vec()), Frame::Integer(5)]);
    assert_eq!(Command::from_frame(frame()), Command::Unknown { raw: frame() });
    assert_eq!(
        Command::from_frame(Frame::Bulk(b"GET".to_vec())),
        Command::Unknown { raw: Frame::Bulk(b"GET".to_vec()) }
    );
}
