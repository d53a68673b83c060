//! Message content: which kinds of message carry a renderable payload, what
//! media they ask to have downloaded, and the text a message contributes to
//! its record.

use vstd::prelude::*;

use crate::render::render;
use crate::render::render_spec;
use crate::render::TextSpan;

verus! {

/// A message body's rich text: the flat text and its style spans.
#[derive(Debug, Clone)]
pub struct FormattedMessage {
    pub text: String,
    pub spans: Vec<TextSpan>,
}

/// A video's downloadable file: present only for a video that comes with a
/// thumbnail.
#[derive(Debug, Clone)]
pub struct MediaFile {
    pub file_id: i32,
    pub file_name: String,
}

/// The renderable payload of one message.  Every content kind without a
/// renderable mapping falls under `Unsupported` and is skipped, not an error.
#[derive(Debug, Clone)]
pub enum MessageBody {
    Text { body: FormattedMessage },
    Animation { caption: FormattedMessage },
    Audio { caption: FormattedMessage },
    Document { caption: FormattedMessage, file_name: String, file_id: i32 },
    Photo { caption: FormattedMessage, file_id: i32 },
    Video { caption: FormattedMessage, media: Option<MediaFile> },
    Unsupported,
}

/// The file a message asks to have downloaded, if any: documents, photos and
/// videos that come with a thumbnail carry media, nothing else does.
pub fn media_request(body: &MessageBody) -> (r: Option<i32>)
    ensures
        *body matches MessageBody::Document { file_id, .. } ==> r == Some(file_id),
        *body matches MessageBody::Photo { file_id, .. } ==> r == Some(file_id),
        *body matches MessageBody::Video { media, .. } ==> (media matches Some(m) ==> r == Some(
            m.file_id,
        )),
        *body matches MessageBody::Video { media, .. } ==> (media is None ==> r is None),
        !(*body is Document) && !(*body is Photo) && !(*body is Video) ==> r is None,
{
    match body {
        MessageBody::Document { file_id, .. } => Some(*file_id),
        MessageBody::Photo { file_id, .. } => Some(*file_id),
        MessageBody::Video { media: Some(m), .. } => Some(m.file_id),
        _ => None,
    }
}

/// The markup that embeds a downloaded document after its caption.
pub open spec fn document_text(caption: Seq<char>, media_name: Seq<char>) -> Seq<char> {
    caption + "\n\n![]("@ + media_name + ")"@
}

/// The markup that embeds a downloaded photo before its caption.
pub open spec fn photo_text(media_name: Seq<char>, caption: Seq<char>) -> Seq<char> {
    "\n\n![]("@ + media_name + ")\n\n"@ + caption
}

/// The text one message contributes to its record, or `None` when the
/// message is skipped.
///
/// `media_name` is the name the downloaded file was placed under, `None`
/// when the message has no media or its download failed.  Plain kinds render
/// their text or caption.  A document, photo, or video-with-thumbnail whose
/// download succeeded embeds the file beside the rendered caption; one whose
/// download failed keeps its rendered caption alone, or is dropped when the
/// caption is empty.  A video without a thumbnail has nothing to download
/// and keeps its rendered caption.  Unsupported kinds are dropped.
pub fn body_text(body: &MessageBody, media_name: &Option<String>) -> (r: Option<String>)
    ensures
        *body matches MessageBody::Text { body: fm } ==> (r matches Some(t) && t@ == render_spec(
            fm.text@,
            fm.spans@,
        )),
        *body matches MessageBody::Animation { caption } ==> (r matches Some(t) && t@
            == render_spec(caption.text@, caption.spans@)),
        *body matches MessageBody::Audio { caption } ==> (r matches Some(t) && t@ == render_spec(
            caption.text@,
            caption.spans@,
        )),
        *body matches MessageBody::Video { caption, media } ==> (media is None ==> (r matches Some(
            t,
        ) && t@ == render_spec(caption.text@, caption.spans@))),
        *body matches MessageBody::Video { caption, media } ==> (media is Some ==> (
        *media_name matches Some(n) ==> (r matches Some(t) && t@ == document_text(
            render_spec(caption.text@, caption.spans@),
            n@,
        )))),
        *body matches MessageBody::Video { caption, media } ==> ((media is Some && *media_name
            is None && caption.text@.len() == 0) ==> r is None),
        *body matches MessageBody::Video { caption, media } ==> ((media is Some && *media_name
            is None && caption.text@.len() > 0) ==> (r matches Some(t) && t@ == render_spec(
            caption.text@,
            caption.spans@,
        ))),
        *body matches MessageBody::Document { caption, .. } ==> (*media_name matches Some(n)
            ==> (r matches Some(t) && t@ == document_text(
            render_spec(caption.text@, caption.spans@),
            n@,
        ))),
        *body matches MessageBody::Document { caption, .. } ==> ((*media_name is None
            && caption.text@.len() == 0) ==> r is None),
        *body matches MessageBody::Document { caption, .. } ==> ((*media_name is None
            && caption.text@.len() > 0) ==> (r matches Some(t) && t@ == render_spec(
            caption.text@,
            caption.spans@,
        ))),
        *body matches MessageBody::Photo { caption, .. } ==> (*media_name matches Some(n) ==> (
        r matches Some(t) && t@ == photo_text(n@, render_spec(caption.text@, caption.spans@)))),
        *body matches MessageBody::Photo { caption, .. } ==> ((*media_name is None
            && caption.text@.len() == 0) ==> r is None),
        *body matches MessageBody::Photo { caption, .. } ==> ((*media_name is None
            && caption.text@.len() > 0) ==> (r matches Some(t) && t@ == render_spec(
            caption.text@,
            caption.spans@,
        ))),
        *body is Unsupported ==> r is None,
{
    match body {
        MessageBody::Text { body: fm } => Some(render(fm.text.as_str(), &fm.spans)),
        MessageBody::Animation { caption } => Some(render(caption.text.as_str(), &caption.spans)),
        MessageBody::Audio { caption } => Some(render(caption.text.as_str(), &caption.spans)),
        MessageBody::Video { caption, media } => {
            match (media, media_name) {
                (Some(_), Some(n)) => {
                    let mut t = render(caption.text.as_str(), &caption.spans);
                    t.append("\n\n![](");
                    t.append(n.as_str());
                    t.append(")");
                    proof {
                        assert(t@ =~= document_text(
                            render_spec(caption.text@, caption.spans@),
                            n@,
                        ));
                    }
                    Some(t)
                },
                (Some(_), None) => {
                    if caption.text.as_str().is_empty() {
                        None
                    } else {
                        Some(render(caption.text.as_str(), &caption.spans))
                    }
                },
                (None, _) => Some(render(caption.text.as_str(), &caption.spans)),
            }
        },
        MessageBody::Document { caption, .. } => {
            match media_name {
                Some(n) => {
                    let mut t = render(caption.text.as_str(), &caption.spans);
                    t.append("\n\n![](");
                    t.append(n.as_str());
                    t.append(")");
                    proof {
                        assert(t@ =~= document_text(
                            render_spec(caption.text@, caption.spans@),
                            n@,
                        ));
                    }
                    Some(t)
                },
                None => {
                    if caption.text.as_str().is_empty() {
                        None
                    } else {
                        Some(render(caption.text.as_str(), &caption.spans))
                    }
                },
            }
        },
        MessageBody::Photo { caption, .. } => {
            match media_name {
                Some(n) => {
                    let mut t = String::new();
                    t.append("\n\n![](");
                    t.append(n.as_str());
                    t.append(")\n\n");
                    let rendered = render(caption.text.as_str(), &caption.spans);
                    t.append(rendered.as_str());
                    proof {
                        assert(t@ =~= photo_text(n@, render_spec(caption.text@, caption.spans@)));
                    }
                    Some(t)
                },
                None => {
                    if caption.text.as_str().is_empty() {
                        None
                    } else {
                        Some(render(caption.text.as_str(), &caption.spans))
                    }
                },
            }
        },
        MessageBody::Unsupported => None,
    }
}

} // verus!
