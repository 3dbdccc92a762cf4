use vstd::prelude::*;
use vstd::string::StringSliceAdditionalSpecFns;
use vstd::utf8::encode_utf8;

use crate::shard::copy_bytes;

verus! {

/// One message of the wire protocol, already delimited by the transport.
#[derive(Debug, PartialEq, Eq)]
pub enum Frame {
    Simple(String),
    Error(String),
    Integer(u64),
    Bulk(Vec<u8>),
    Null,
    Array(Vec<Frame>),
}

/// A decoded request.
#[derive(Debug, PartialEq, Eq)]
pub enum Command {
    Get { key: Vec<u8> },
    SetValue { key: Vec<u8>, value: Vec<u8> },
    Publish { channel: Vec<u8>, message: Vec<u8> },
    Subscribe { channels: Vec<Vec<u8>> },
    Unsubscribe { channels: Vec<Vec<u8>> },
    Unknown { raw: Frame },
}

/// What a request asks for, over plain sequences.
pub enum Request {
    Get { key: Seq<u8> },
    SetValue { key: Seq<u8>, value: Seq<u8> },
    Publish { channel: Seq<u8>, message: Seq<u8> },
    Subscribe { channels: Seq<Seq<u8>> },
    Unsubscribe { channels: Seq<Seq<u8>> },
    Unknown,
}

pub open spec fn views_of(v: Seq<Vec<u8>>) -> Seq<Seq<u8>> {
    v.map_values(|b: Vec<u8>| b@)
}

impl View for Command {
    type V = Request;

    open spec fn view(&self) -> Request {
        match self {
            Command::Get { key } => Request::Get { key: key@ },
            Command::SetValue { key, value } => Request::SetValue { key: key@, value: value@ },
            Command::Publish { channel, message } => Request::Publish {
                channel: channel@,
                message: message@,
            },
            Command::Subscribe { channels } => Request::Subscribe { channels: views_of(channels@) },
            Command::Unsubscribe { channels } => Request::Unsubscribe {
                channels: views_of(channels@),
            },
            Command::Unknown { .. } => Request::Unknown,
        }
    }
}

pub open spec fn lower_byte(b: u8) -> u8 {
    if 65 <= b && b <= 90 {
        (b + 32) as u8
    } else {
        b
    }
}

/// A word's ASCII letters in lower case; other bytes are kept.
pub open spec fn lower_word(w: Seq<u8>) -> Seq<u8> {
    w.map_values(|b: u8| lower_byte(b))
}

/// The word names the command `name` (given in lower case), in any case.
pub open spec fn names(w: Seq<u8>, name: Seq<u8>) -> bool {
    lower_word(w) == name
}

pub open spec fn get_name() -> Seq<u8> {
    seq![103u8, 101, 116]
}

pub open spec fn set_name() -> Seq<u8> {
    seq![115u8, 101, 116]
}

pub open spec fn publish_name() -> Seq<u8> {
    seq![112u8, 117, 98, 108, 105, 115, 104]
}

pub open spec fn subscribe_name() -> Seq<u8> {
    seq![115u8, 117, 98, 115, 99, 114, 105, 98, 101]
}

pub open spec fn unsubscribe_name() -> Seq<u8> {
    seq![117u8, 110, 115, 117, 98, 115, 99, 114, 105, 98, 101]
}

/// The request that a sequence of words spells: a command name, then its
/// arguments. GET takes one argument, SET and PUBLISH two, SUBSCRIBE one or
/// more, UNSUBSCRIBE any number. Anything else is unknown.
pub open spec fn parse_words(w: Seq<Seq<u8>>) -> Request {
    if w.len() == 0 {
        Request::Unknown
    } else if names(w[0], get_name()) && w.len() == 2 {
        Request::Get { key: w[1] }
    } else if names(w[0], set_name()) && w.len() == 3 {
        Request::SetValue { key: w[1], value: w[2] }
    } else if names(w[0], publish_name()) && w.len() == 3 {
        Request::Publish { channel: w[1], message: w[2] }
    } else if names(w[0], subscribe_name()) && w.len() >= 2 {
        Request::Subscribe { channels: w.subrange(1, w.len() as int) }
    } else if names(w[0], unsubscribe_name()) {
        Request::Unsubscribe { channels: w.subrange(1, w.len() as int) }
    } else {
        Request::Unknown
    }
}

/// The bytes that a frame carries as one word of a request.
pub open spec fn word_of(f: Frame) -> Option<Seq<u8>> {
    match f {
        Frame::Bulk(b) => Some(b@),
        Frame::Simple(s) => Some(encode_utf8(s@)),
        _ => None,
    }
}

/// The words of a request frame: an array whose items are all bulk or simple.
pub open spec fn frame_words(f: Frame) -> Option<Seq<Seq<u8>>> {
    match f {
        Frame::Array(v) => if forall|i: int| 0 <= i < v@.len() ==> (#[trigger] word_of(v@[i])).is_some() {
            Some(Seq::new(v@.len(), |i: int| word_of(v@[i]).unwrap()))
        } else {
            None
        },
        _ => None,
    }
}

/// The request that a frame holds.
pub open spec fn parse_frame(f: Frame) -> Request {
    match frame_words(f) {
        Some(w) => parse_words(w),
        None => Request::Unknown,
    }
}

pub open spec fn is_simple(f: Frame, s: Seq<char>) -> bool {
    match f {
        Frame::Simple(t) => t@ == s,
        _ => false,
    }
}

pub open spec fn is_error(f: Frame, s: Seq<char>) -> bool {
    match f {
        Frame::Error(t) => t@ == s,
        _ => false,
    }
}

pub open spec fn is_bulk(f: Frame, b: Seq<u8>) -> bool {
    match f {
        Frame::Bulk(c) => c@ == b,
        _ => false,
    }
}

/// Compares a word with a lower-case command name, ignoring ASCII case.
pub fn names_command(word: &[u8], name: &[u8]) -> (r: bool)
    ensures
        r == names(word@, name@),
{
    if word.len() != name.len() {
        assert(lower_word(word@).len() == word@.len());
        return false;
    }
    let mut i: usize = 0;
    while i < word.len()
        invariant
            word@.len() == name@.len(),
            i <= word@.len(),
            forall|j: int| 0 <= j < i ==> lower_byte(word@[j]) == name@[j],
        decreases word@.len() - i,
    {
        let b = word[i];
        let lower: u8 = if 65 <= b && b <= 90 {
            b + 32
        } else {
            b
        };
        if lower != name[i] {
            assert(lower_word(word@)[i as int] != name@[i as int]);
            return false;
        }
        i = i + 1;
    }
    assert(lower_word(word@) =~= name@);
    true
}

/// Copies the words from position `start` on.
fn copy_words(words: &Vec<Vec<u8>>, start: usize) -> (r: Vec<Vec<u8>>)
    requires
        start <= words@.len(),
    ensures
        views_of(r@) == views_of(words@).subrange(start as int, words@.len() as int),
{
    let mut r: Vec<Vec<u8>> = Vec::new();
    let mut i: usize = start;
    while i < words.len()
        invariant
            start <= i <= words@.len(),
            views_of(r@) =~= views_of(words@).subrange(start as int, i as int),
        decreases words@.len() - i,
    {
        let ghost prev = r@;
        let b = copy_bytes(words[i].as_slice());
        r.push(b);
        assert(views_of(r@) =~= views_of(prev).push(b@));
        i = i + 1;
    }
    r
}

/// Collects the words of a request frame.
fn words_of(frame: &Frame) -> (r: Option<Vec<Vec<u8>>>)
    ensures
        r.is_some() == frame_words(*frame).is_some(),
        r.is_some() ==> views_of(r.unwrap()@) == frame_words(*frame).unwrap(),
{
    match frame {
        Frame::Array(items) => {
            let mut r: Vec<Vec<u8>> = Vec::new();
            let mut i: usize = 0;
            while i < items.len()
                invariant
                    *frame == Frame::Array(*items),
                    i <= items@.len(),
                    r@.len() == i,
                    forall|j: int| 0 <= j < i ==> (#[trigger] word_of(items@[j])).is_some(),
                    forall|j: int| 0 <= j < i ==> word_of(items@[j]).unwrap() == (#[trigger] r@[j])@,
                decreases items@.len() - i,
            {
                let word = match &items[i] {
                    Frame::Bulk(b) => copy_bytes(b.as_slice()),
                    Frame::Simple(s) => copy_bytes(s.as_str().as_bytes()),
                    _ => {
                        assert(word_of(items@[i as int]).is_none());
                        assert(frame_words(*frame).is_none());
                        return None;
                    },
                };
                r.push(word);
                i = i + 1;
            }
            assert(views_of(r@) =~= frame_words(*frame).unwrap());
            Some(r)
        },
        _ => None,
    }
}

impl Command {
    /// The key that a GET or SET reads or writes; other commands have none.
    pub fn key(&self) -> (r: Option<&Vec<u8>>)
        ensures
            match self@ {
                Request::Get { key } => r is Some && r->0@ == key,
                Request::SetValue { key, .. } => r is Some && r->0@ == key,
                _ => r is None,
            },
    {
        match self {
            Command::Get { key } => Some(key),
            Command::SetValue { key, .. } => Some(key),
            _ => None,
        }
    }

    /// Decodes a request frame. A frame that is not a well-formed request
    /// decodes to `Unknown`, which carries it.
    pub fn from_frame(frame: Frame) -> (r: Command)
        ensures
            r@ == parse_frame(frame),
            r@ == Request::Unknown ==> r == (Command::Unknown { raw: frame }),
    {
        match words_of(&frame) {
            Some(words) => Command::from_words(&words, frame),
            None => Command::Unknown { raw: frame },
        }
    }

    /// Decodes a request given as words: a command name and its arguments.
    pub fn from_words(words: &Vec<Vec<u8>>, raw: Frame) -> (r: Command)
        ensures
            r@ == parse_words(views_of(words@)),
            r@ == Request::Unknown ==> r == (Command::Unknown { raw }),
    {
        let ghost w = views_of(words@);
        let n = words.len();
        if n == 0 {
            return Command::Unknown { raw };
        }
        let get: [u8; 3] = [103, 101, 116];
        let set: [u8; 3] = [115, 101, 116];
        let publish: [u8; 7] = [112, 117, 98, 108, 105, 115, 104];
        let subscribe: [u8; 9] = [115, 117, 98, 115, 99, 114, 105, 98, 101];
        let unsubscribe: [u8; 11] = [117, 110, 115, 117, 98, 115, 99, 114, 105, 98, 101];
        assert(get@ =~= get_name());
        assert(set@ =~= set_name());
        assert(publish@ =~= publish_name());
        assert(subscribe@ =~= subscribe_name());
        assert(unsubscribe@ =~= unsubscribe_name());
        let name = words[0].as_slice();
        assert(name@ == w[0]);
        if names_command(name, get.as_slice()) && n == 2 {
            Command::Get { key: copy_bytes(words[1].as_slice()) }
        } else if names_command(name, set.as_slice()) && n == 3 {
            Command::SetValue {
                key: copy_bytes(words[1].as_slice()),
                value: copy_bytes(words[2].as_slice()),
            }
        } else if names_command(name, publish.as_slice()) && n == 3 {
            Command::Publish {
                channel: copy_bytes(words[1].as_slice()),
                message: copy_bytes(words[2].as_slice()),
            }
        } else if names_command(name, subscribe.as_slice()) && n >= 2 {
            Command::Subscribe { channels: copy_words(words, 1) }
        } else if names_command(name, unsubscribe.as_slice()) {
            Command::Unsubscribe { channels: copy_words(words, 1) }
        } else {
            Command::Unknown { raw }
        }
    }
}

} // verus!
