//! The stream decoder: one network chunk holds newline-delimited JSON
//! records; each record carries a content fragment and an optional
//! completion flag. Fragments are collected in arrival order, malformed
//! records are skipped silently, and a completion flag ends the chunk.

use vstd::prelude::*;
use vstd::string::StringExecFns;
use crate::text::{
    all_blank, all_blank_chars, chars_of, find_nl, msgs_view, split_sep_from,
    string_from_chars, sub_vec,
};

verus! {

/// One decoded stream record: the content fragment and whether the
/// stream declared itself done.
pub struct StreamRecord {
    pub content: String,
    pub done: bool,
}

/// What JSON decoding yields on one frame: the content string under
/// `message.content` and the completion flag under `done` (absent means
/// false), or nothing when the frame is not such a record. A function of
/// the frame text alone.
pub uninterp spec fn record_of(frame: Seq<char>) -> Option<(Seq<char>, bool)>;

/// Relies on serde_json: parsing is a pure function of the input text.
/// A frame decodes to a record only when it is a JSON object holding a
/// string under `message.content` whose `done`, if present, is a boolean
/// or null (absent and null mean false); anything else is no record.
#[verifier::external_body]
fn parse_record(frame: &str) -> (r: Option<StreamRecord>)
    ensures
        match r {
            Some(rec) => record_of(frame@) == Some((rec.content@, rec.done)),
            None => record_of(frame@) is None,
        },
{
    let v: serde_json::Value = match serde_json::from_str(frame) {
        Ok(v) => v,
        Err(_) => return None,
    };
    let content = v.get("message")?.get("content")?.as_str()?.to_string();
    let done = match v.get("done") {
        None => false,
        Some(serde_json::Value::Null) => false,
        Some(d) => d.as_bool()?,
    };
    Some(StreamRecord { content, done })
}

/// The decode of a list of frames: blank and malformed frames are
/// skipped, content fragments are kept in order, and a record carrying
/// the completion flag ends the decode then and there.
pub open spec fn decode_frames(frames: Seq<Seq<char>>) -> (Seq<Seq<char>>, bool)
    decreases frames.len(),
{
    if frames.len() == 0 {
        (Seq::empty(), false)
    } else {
        let f = frames[0];
        let rest = decode_frames(frames.drop_first());
        if all_blank(f) {
            rest
        } else {
            match record_of(f) {
                None => rest,
                Some((content, done)) => if done {
                    (seq![content], true)
                } else {
                    (seq![content] + rest.0, rest.1)
                },
            }
        }
    }
}

/// What decoding a whole chunk yields.
pub open spec fn decode_spec(s: Seq<char>) -> (Seq<Seq<char>>, bool) {
    decode_frames(split_sep_from(s, 0))
}

/// Decodes one inbound chunk into its content fragments, in arrival
/// order, and whether the stream completed within it.
pub fn decode_chunk(text: &String) -> (r: (Vec<String>, bool))
    ensures
        msgs_view(r.0@) == decode_spec(text@).0,
        r.1 == decode_spec(text@).1,
{
    let v = chars_of(text.as_str());
    let ghost full = decode_spec(text@);
    let mut out: Vec<String> = Vec::new();
    let mut done: bool = false;
    let mut finished: bool = false;
    let mut pos: usize = 0;
    proof {
        assert(msgs_view(out@) =~= Seq::<Seq<char>>::empty());
        assert(msgs_view(out@) + full.0 =~= full.0);
    }
    while !finished
        invariant
            v@ == text@,
            pos <= v.len(),
            !finished ==> !done && full.0 == msgs_view(out@) + decode_frames(
                split_sep_from(text@, pos as int),
            ).0 && full.1 == decode_frames(split_sep_from(text@, pos as int)).1,
            finished ==> full.0 == msgs_view(out@) && full.1 == done,
        decreases (if finished {
            0int
        } else {
            v@.len() - pos + 1
        }),
    {
        let j = find_nl(&v, pos);
        let frame = sub_vec(&v, pos, j);
        let ghost frames = split_sep_from(text@, pos as int);
        let ghost rest_frames = if (j as int) < v@.len() {
            split_sep_from(text@, j + 1)
        } else {
            Seq::<Seq<char>>::empty()
        };
        proof {
            if (j as int) < v@.len() {
                assert(frames == seq![frame@] + rest_frames);
            } else {
                assert(frames == seq![frame@]);
                assert(frames =~= seq![frame@] + rest_frames);
            }
            assert((seq![frame@] + rest_frames)[0] == frame@);
            assert((seq![frame@] + rest_frames).drop_first() =~= rest_frames);
        }
        let ghost pre = msgs_view(out@);
        let blank = all_blank_chars(&frame);
        if !blank {
            let fs = string_from_chars(&frame);
            match parse_record(fs.as_str()) {
                Some(rec) => {
                    let rec_done = rec.done;
                    out.push(rec.content);
                    proof {
                        assert(msgs_view(out@) =~= pre + seq![frame_content(frames)]);
                    }
                    if rec_done {
                        done = true;
                        finished = true;
                        proof {
                            assert(decode_frames(frames).0 =~= seq![frame_content(frames)]);
                            assert(full.0 =~= msgs_view(out@));
                        }
                    } else {
                        proof {
                            assert(decode_frames(frames).0 == seq![frame_content(frames)]
                                + decode_frames(rest_frames).0);
                            assert(pre + (seq![frame_content(frames)] + decode_frames(
                                rest_frames,
                            ).0) =~= (pre + seq![frame_content(frames)]) + decode_frames(
                                rest_frames,
                            ).0);
                        }
                    }
                },
                None => {
                },
            }
        }
        if !finished {
            if j < v.len() {
                pos = j + 1;
            } else {
                finished = true;
                proof {
                    assert(decode_frames(rest_frames).0 =~= Seq::<Seq<char>>::empty());
                    assert(msgs_view(out@) + Seq::<Seq<char>>::empty() =~= msgs_view(out@));
                }
            }
        }
    }
    (out, done)
}

/// The content the head frame of `frames` decodes to; meaningful only
/// when it decodes to a record.
pub open spec fn frame_content(frames: Seq<Seq<char>>) -> Seq<char> {
    match record_of(frames[0]) {
        Some(cd) => cd.0,
        None => Seq::empty(),
    }
}

/// One entry of the outbound request: a role and its content.
pub struct ChatMessage {
    pub role: String,
    pub content: String,
}

/// Builds the message list of one request: the system prompt first when
/// the settings hold one, then the user's prompt.
pub fn chat_messages(system: &Option<String>, prompt: String) -> (msgs: Vec<ChatMessage>)
    ensures
        match system {
            Some(sys) => msgs@.len() == 2 && msgs@[0].role@ == "system"@ && msgs@[0].content@
                == sys@ && msgs@[1].role@ == "user"@ && msgs@[1].content@ == prompt@,
            None => msgs@.len() == 1 && msgs@[0].role@ == "user"@ && msgs@[0].content@ == prompt@,
        },
{
    let mut msgs: Vec<ChatMessage> = Vec::new();
    match system {
        Some(sys) => {
            msgs.push(ChatMessage { role: String::from_str("system"), content: sys.clone() });
        },
        None => {
        },
    }
    msgs.push(ChatMessage { role: String::from_str("user"), content: prompt });
    msgs
}

/// The chat endpoint under a configured base address.
pub fn endpoint_of(uri: &String) -> (e: String)
    ensures
        e@ == uri@ + "/api/chat"@,
{
    let mut e = uri.clone();
    e.append("/api/chat");
    e
}

} // verus!
