//! The chat-completion interface of the image recognizer.
//!
//! The network client is an external collaborator implementing the `LLM`
//! trait; this module owns the request shapes, the prompt construction,
//! the best-effort extraction of the assistant's text from a response
//! tree, and the recognition flow from image payloads to a parsed record.
use vstd::prelude::*;

use crate::common::ServiceError;
use crate::json::{obj_get, members_view, JsonV, JsonValue};
use crate::model::Sport;

verus! {

/// A chat failure, by cause.
#[derive(Debug, Clone)]
pub enum LLMError {
    ConfigurationError(String),
    APIFailure(String),
    LLMAuthenticationError(String),
    InternalError(String),
    ValidationError(String),
    TimeoutError(String),
}

/// A text part of a message.
#[derive(Debug, Clone)]
pub struct TextContent {
    pub kind: String,
    pub text: String,
}

/// An image reference or payload of a message.
#[derive(Debug, Clone)]
pub struct ImageUrl {
    pub url: String,
}

/// An image part of a message.
#[derive(Debug, Clone)]
pub struct ImageContent {
    pub kind: String,
    pub image_url: ImageUrl,
}

/// One part of a message.
#[derive(Debug, Clone)]
pub enum ContentPart {
    Text(TextContent),
    Image(ImageContent),
}

/// One chat message.
#[derive(Debug, Clone)]
pub struct Message {
    pub role: String,
    pub content: Vec<ContentPart>,
}

/// A whole chat request.
#[derive(Debug, Clone)]
pub struct ChatCompletionRequest {
    pub messages: Vec<Message>,
}

/// The chat collaborator: given a request, the assistant's text or a
/// failure. Implemented elsewhere; nothing is assumed of the text.
pub trait LLM: Sized {
    fn chat(&mut self, request: ChatCompletionRequest) -> Result<String, LLMError>;
}

/// Whether a string plausibly holds base64 data: long enough and made of
/// the base64 alphabets' characters only.
pub open spec fn probable_base64_spec(s: Seq<char>) -> bool {
    s.len() >= 64 && forall|i: int| 0 <= i < s.len() ==> is_base64_char(#[trigger] s[i])
}

pub open spec fn is_base64_char(c: char) -> bool {
    ('a' <= c && c <= 'z') || ('A' <= c && c <= 'Z') || ('0' <= c && c <= '9') || c == '+' || c
        == '/' || c == '=' || c == '-' || c == '_'
}

/// Decides `probable_base64_spec`.
pub fn probable_base64(s: &str) -> (r: bool)
    ensures
        r == probable_base64_spec(s@),
{
    let len = s.unicode_len();
    if len < 64 {
        return false;
    }
    let mut i: usize = 0;
    while i < len
        invariant
            i <= len,
            len == s@.len(),
            forall|k: int| 0 <= k < i ==> is_base64_char(#[trigger] s@[k]),
        decreases len - i,
    {
        let c = s.get_char(i);
        let ok = ('a' <= c && c <= 'z') || ('A' <= c && c <= 'Z') || ('0' <= c && c <= '9') || c
            == '+' || c == '/' || c == '=' || c == '-' || c == '_';
        if !ok {
            return false;
        }
        i += 1;
    }
    true
}

/// The `choices[0].message` member of a response tree, if the path
/// exists: `choices` a nonempty array whose first item is an object
/// holding a `message` member of any type.
pub open spec fn first_choice_message(v: JsonV) -> Option<JsonV> {
    match v {
        JsonV::Obj(fs) => match obj_get(fs, "choices"@) {
            Some(JsonV::Arr(cs)) => if cs.len() > 0 {
                match cs[0] {
                    JsonV::Obj(ms) => obj_get(ms, "message"@),
                    _ => None,
                }
            } else {
                None
            },
            _ => None,
        },
        _ => None,
    }
}

/// The `choices[0].message.content` member of a response tree, if the
/// path exists.
pub open spec fn first_choice_content(v: JsonV) -> Option<JsonV> {
    match first_choice_message(v) {
        Some(JsonV::Obj(mm)) => obj_get(mm, "content"@),
        _ => None,
    }
}

/// The `text` members of the string-bearing items, in order.
pub open spec fn texts_of(items: Seq<JsonV>) -> Seq<Seq<char>>
    decreases items.len(),
{
    if items.len() == 0 {
        Seq::empty()
    } else {
        texts_of(items.drop_last()) + (match items.last() {
            JsonV::Obj(fs) => match obj_get(fs, "text"@) {
                Some(JsonV::Str(t)) => seq![t],
                _ => Seq::empty(),
            },
            _ => Seq::empty(),
        })
    }
}

/// Parts joined with a newline.
pub open spec fn join_nl(parts: Seq<Seq<char>>) -> Seq<char>
    decreases parts.len(),
{
    if parts.len() == 0 {
        Seq::empty()
    } else if parts.len() == 1 {
        parts[0]
    } else {
        join_nl(parts.drop_last()) + seq!['\n'] + parts.last()
    }
}

/// The top-level `content` member, as the last resort.
pub open spec fn content_fallback(v: JsonV) -> Option<Seq<char>> {
    match v {
        JsonV::Obj(fs) => match obj_get(fs, "content"@) {
            Some(JsonV::Str(s)) => Some(s),
            _ => None,
        },
        _ => None,
    }
}

/// The assistant's text of a response tree, best-effort across the
/// common shapes: a string content, an array of text parts joined with
/// newlines, or a top-level `content` string. A tree without a
/// `choices[0].message` member yields nothing: the fallback applies
/// only to a response that at least carries a first-choice message.
pub open spec fn extract_text_spec(v: JsonV) -> Option<Seq<char>> {
    if first_choice_message(v) is None {
        None
    } else {
        match first_choice_content(v) {
            Some(JsonV::Str(s)) => Some(s),
            Some(JsonV::Arr(items)) => {
                let ps = texts_of(items);
                if ps.len() > 0 {
                    Some(join_nl(ps))
                } else {
                    content_fallback(v)
                }
            },
            _ => content_fallback(v),
        }
    }
}

fn content_fallback_exec(v: &JsonValue) -> (r: Option<String>)
    ensures
        match r {
            Some(t) => content_fallback(v@) == Some(t@),
            None => content_fallback(v@) is None,
        },
{
    match v {
        JsonValue::Obj(fs) => {
            proof {
                assert(v@ == JsonV::Obj(members_view(fs@)));
            }
            match crate::json::lookup(fs, "content") {
                Some(JsonValue::Str(s)) => Some(s.clone()),
                _ => None,
            }
        },
        _ => None,
    }
}

/// Extracts the assistant's text from a parsed response tree.
pub fn extract_text_from_response(v: &JsonValue) -> (r: Option<String>)
    ensures
        match r {
            Some(t) => extract_text_spec(v@) == Some(t@),
            None => extract_text_spec(v@) is None,
        },
{
    let msg: Option<&JsonValue> = match v {
        JsonValue::Obj(fs) => {
            proof {
                assert(v@ == JsonV::Obj(members_view(fs@)));
            }
            match crate::json::lookup(fs, "choices") {
                Some(JsonValue::Arr(cs)) => {
                    proof {
                        assert(crate::json::elems_view(cs@).len() == cs@.len());
                    }
                    if cs.len() > 0 {
                        proof {
                            assert(crate::json::elems_view(cs@)[0] == cs@[0]@);
                        }
                        match &cs[0] {
                            JsonValue::Obj(ms) => {
                                proof {
                                    assert(cs@[0]@ == JsonV::Obj(members_view(ms@)));
                                }
                                crate::json::lookup(ms, "message")
                            },
                            _ => None,
                        }
                    } else {
                        None
                    }
                },
                _ => None,
            }
        },
        _ => None,
    };
    let ghost fcm = first_choice_message(v@);
    let m: &JsonValue = match msg {
        Some(mv) => mv,
        None => {
            proof {
                assert(fcm is None);
            }
            return None;
        },
    };
    proof {
        assert(fcm == Some(m@));
    }
    let content: Option<&JsonValue> = match m {
        JsonValue::Obj(mm) => {
            proof {
                assert(m@ == JsonV::Obj(members_view(mm@)));
            }
            crate::json::lookup(mm, "content")
        },
        _ => None,
    };
    let ghost fcc = first_choice_content(v@);
    proof {
        match content {
            Some(c) => {
                assert(fcc == Some(c@));
            },
            None => {
                assert(fcc is None);
            },
        }
    }
    match content {
        Some(JsonValue::Str(s)) => Some(s.clone()),
        Some(JsonValue::Arr(items)) => {
            let ghost iv = crate::json::elems_view(items@);
            let mut parts: Vec<String> = Vec::new();
            let mut i: usize = 0;
            proof {
                assert(iv.take(0).len() == 0);
                assert(texts_of(iv.take(0)) =~= crate::csvio::fields_view(parts@));
            }
            while i < items.len()
                invariant
                    i <= items@.len(),
                    iv == crate::json::elems_view(items@),
                    iv.len() == items@.len(),
                    texts_of(iv.take(i as int)) == crate::csvio::fields_view(parts@),
                decreases items@.len() - i,
            {
                let ghost before = parts@;
                proof {
                    assert(iv.take(i + 1).drop_last() =~= iv.take(i as int));
                    assert(iv.take(i + 1).last() == iv[i as int]);
                    assert(iv[i as int] == items@[i as int]@);
                }
                match &items[i] {
                    JsonValue::Obj(fs2) => {
                        proof {
                            assert(items@[i as int]@ == JsonV::Obj(members_view(fs2@)));
                        }
                        match crate::json::lookup(fs2, "text") {
                            Some(JsonValue::Str(t)) => {
                                parts.push(t.clone());
                                proof {
                                    assert(crate::csvio::fields_view(parts@)
                                        =~= crate::csvio::fields_view(before).push(t@));
                                    assert(texts_of(iv.take(i + 1)) =~= texts_of(iv.take(i as int))
                                        + seq![t@]);
                                }
                            },
                            _ => {
                                proof {
                                    assert(texts_of(iv.take(i + 1)) =~= texts_of(
                                        iv.take(i as int),
                                    ));
                                }
                            },
                        }
                    },
                    _ => {
                        proof {
                            assert(texts_of(iv.take(i + 1)) =~= texts_of(iv.take(i as int)));
                        }
                    },
                }
                i += 1;
            }
            proof {
                assert(iv.take(items@.len() as int) =~= iv);
            }
            if parts.len() == 0 {
                content_fallback_exec(v)
            } else {
                let mut out: String = parts[0].clone();
                let mut k: usize = 1;
                proof {
                    assert(crate::csvio::fields_view(parts@).take(1) =~= seq![parts@[0]@]);
                    assert(join_nl(crate::csvio::fields_view(parts@).take(1)) == out@);
                }
                while k < parts.len()
                    invariant
                        1 <= k <= parts@.len(),
                        texts_of(iv) == crate::csvio::fields_view(parts@),
                        out@ == join_nl(crate::csvio::fields_view(parts@).take(k as int)),
                    decreases parts@.len() - k,
                {
                    let ghost pv = crate::csvio::fields_view(parts@);
                    proof {
                        assert(pv.take(k + 1).drop_last() =~= pv.take(k as int));
                        assert(pv.take(k + 1).last() == pv[k as int]);
                        assert(pv[k as int] == parts@[k as int]@);
                    }
                    crate::text::push_char(&mut out, '\n');
                    out.append(parts[k].as_str());
                    proof {
                        assert(out@ =~= join_nl(pv.take(k as int)) + seq!['\n'] + pv[k as int]);
                        assert(pv.take(k + 1).len() >= 2);
                        assert(out@ == join_nl(pv.take(k + 1)));
                    }
                    k += 1;
                }
                proof {
                    let pv = crate::csvio::fields_view(parts@);
                    assert(pv.take(parts@.len() as int) =~= pv);
                }
                Some(out)
            }
        },
        _ => content_fallback_exec(v),
    }
}

} // verus!
