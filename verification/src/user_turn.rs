//! The user's turn as it is stored: the blocks of the message built from
//! its text, the camera frames taken and the files attached, and what the
//! turn leaves to do with those files.
use vstd::prelude::*;
use crate::chat_storage::{ContentBlock, StoredBlockView, stored_blocks_view};
use crate::number_text::{decimal_text, i64_to_string};
use crate::tool_calls::usize_to_string;
use crate::text::{chars_of, copy_string, str_concat, str_eq, starts_with, starts_with_chars, strings_view, to_owned_string};

verus! {

/// A camera frame saved for the turn: where it was saved and the tokens it
/// is estimated to take.
#[derive(Debug)]
pub struct CameraFrame {
    pub file_path: String,
    pub token_estimate: usize,
}

/// A file attached to the turn, as the upload left it: the file entity, its
/// name and type, its content (base64), its token estimate, and whether
/// the file already has a summary.
#[derive(Debug)]
pub struct PendingAttachment {
    pub file_iri: String,
    pub file_name: String,
    pub mime_type: String,
    pub data: String,
    pub token_estimate: usize,
    pub has_summary: bool,
}

/// The user's turn: the blocks of the message (none for a text-only
/// message), the files sent whole to the model for this turn only (type and
/// content), the files to summarize (entity and name), the camera files to
/// create (entity, name, path) and the attached file entities.
#[derive(Debug)]
pub struct UserTurn {
    pub blocks: Option<Vec<ContentBlock>>,
    pub binaries: Vec<(String, String)>,
    pub files_needing_summary: Vec<(String, String)>,
    pub camera_files: Vec<(String, String, String)>,
    pub existing_file_iris: Vec<String>,
}

/// The entity of the `i`-th frame captured at `ts`.
pub open spec fn frame_iri(ts: i64, i: int) -> Seq<char> {
    "foundation:File_"@ + decimal_text(ts + i)
}

/// The name of the `i`-th frame (counted from one).
pub open spec fn frame_name(i: int) -> Seq<char> {
    "camera_frame_"@ + decimal_text(i + 1) + ".jpg"@
}

/// The model reads an attached file whole when it is an image, a PDF or
/// text.
pub open spec fn sent_whole(mime: Seq<char>) -> bool {
    starts_with(mime, "image/"@) || mime == "application/pdf"@ || starts_with(mime, "text/"@)
}

pub open spec fn frame_blocks(frames: Seq<CameraFrame>) -> Seq<StoredBlockView> {
    frames.map_values(|f: CameraFrame| StoredBlockView::CameraRef(f.file_path@, f.token_estimate))
}

pub open spec fn frame_files(frames: Seq<CameraFrame>, ts: i64) -> Seq<(Seq<char>, Seq<char>, Seq<char>)> {
    Seq::new(frames.len(), |i: int| (frame_iri(ts, i), frame_name(i), frames[i].file_path@))
}

pub open spec fn attachment_blocks(atts: Seq<PendingAttachment>) -> Seq<StoredBlockView> {
    atts.map_values(
        |a: PendingAttachment| StoredBlockView::FileRef(a.file_iri@, a.file_name@, a.token_estimate, None),
    )
}

/// The attached files sent whole: type and content, in order.
pub open spec fn whole_files(atts: Seq<PendingAttachment>) -> Seq<(Seq<char>, Seq<char>)>
    decreases atts.len(),
{
    if atts.len() == 0 {
        Seq::empty()
    } else if sent_whole(atts.last().mime_type@) {
        whole_files(atts.drop_last()).push((atts.last().mime_type@, atts.last().data@))
    } else {
        whole_files(atts.drop_last())
    }
}

/// The attached files without a summary: entity and name, in order.
pub open spec fn unsummarized(atts: Seq<PendingAttachment>) -> Seq<(Seq<char>, Seq<char>)>
    decreases atts.len(),
{
    if atts.len() == 0 {
        Seq::empty()
    } else if !atts.last().has_summary {
        unsummarized(atts.drop_last()).push((atts.last().file_iri@, atts.last().file_name@))
    } else {
        unsummarized(atts.drop_last())
    }
}

pub open spec fn pairs_view(v: Seq<(String, String)>) -> Seq<(Seq<char>, Seq<char>)> {
    v.map_values(|p: (String, String)| (p.0@, p.1@))
}

pub open spec fn triples_view(v: Seq<(String, String, String)>) -> Seq<(Seq<char>, Seq<char>, Seq<char>)> {
    v.map_values(|p: (String, String, String)| (p.0@, p.1@, p.2@))
}

fn frame_iri_of(ts: i64, i: usize) -> (r: String)
    requires
        ts + i <= i64::MAX,
        i <= i64::MAX,
    ensures
        r@ == frame_iri(ts, i as int),
{
    let n: i64 = ts + (i as i64);
    str_concat("foundation:File_", i64_to_string(n).as_str())
}

fn frame_name_of(i: usize) -> (r: String)
    requires
        i < usize::MAX,
    ensures
        r@ == frame_name(i as int),
{
    let a = str_concat("camera_frame_", usize_to_string(i + 1).as_str());
    str_concat(a.as_str(), ".jpg")
}

fn is_sent_whole(mime: &str) -> (r: bool)
    ensures
        r == sent_whole(mime@),
{
    let m = chars_of(mime);
    starts_with_chars(&m, &chars_of("image/")) || str_eq(mime, "application/pdf") || starts_with_chars(
        &m,
        &chars_of("text/"),
    )
}

/// The user's turn built from its text, the frames captured at
/// `capture_ts` and the files attached: frames first, then files, then the
/// text when it is not empty. With neither frames nor files given, the
/// message is text only.
pub fn user_turn(
    content: &str,
    camera_frames: Option<Vec<CameraFrame>>,
    capture_ts: i64,
    attachments: Option<Vec<PendingAttachment>>,
) -> (r: UserTurn)
    requires
        camera_frames matches Some(fs) ==> capture_ts + fs.len() <= i64::MAX && fs.len() <= i64::MAX,
    ensures
        ({
            let fs = match camera_frames {
                Some(v) => v@,
                None => Seq::empty(),
            };
            let atts = match attachments {
                Some(v) => v@,
                None => Seq::empty(),
            };
            &&& match r.blocks {
                Some(bs) => (camera_frames is Some || attachments is Some) && stored_blocks_view(bs@) == frame_blocks(
                    fs,
                ) + attachment_blocks(atts) + (if content@.len() > 0 {
                    seq![StoredBlockView::Text(content@)]
                } else {
                    Seq::empty()
                }),
                None => camera_frames is None && attachments is None,
            }
            &&& pairs_view(r.binaries@) == whole_files(atts)
            &&& pairs_view(r.files_needing_summary@) == frame_files(fs, capture_ts).map_values(
                |f: (Seq<char>, Seq<char>, Seq<char>)| (f.0, f.1),
            ) + unsummarized(atts)
            &&& triples_view(r.camera_files@) == frame_files(fs, capture_ts)
            &&& strings_view(r.existing_file_iris@) == atts.map_values(|a: PendingAttachment| a.file_iri@)
        }),
{
    let structured = camera_frames.is_some() || attachments.is_some();
    let fs = match camera_frames {
        Some(v) => v,
        None => Vec::new(),
    };
    let atts = match attachments {
        Some(v) => v,
        None => Vec::new(),
    };
    let ghost fsv = fs@;
    let ghost av = atts@;
    let mut blocks: Vec<ContentBlock> = Vec::new();
    let mut summary: Vec<(String, String)> = Vec::new();
    let mut camera: Vec<(String, String, String)> = Vec::new();
    let mut i: usize = 0;
    while i < fs.len()
        invariant
            i <= fsv.len(),
            fsv == fs@,
            capture_ts + fsv.len() <= i64::MAX,
            fsv.len() <= i64::MAX,
            stored_blocks_view(blocks@) == frame_blocks(fsv.take(i as int)),
            triples_view(camera@) == frame_files(fsv, capture_ts).take(i as int),
            pairs_view(summary@) == frame_files(fsv, capture_ts).take(i as int).map_values(
                |f: (Seq<char>, Seq<char>, Seq<char>)| (f.0, f.1),
            ),
        decreases fs.len() - i,
    {
        let f = &fs[i];
        let iri = frame_iri_of(capture_ts, i);
        let name = frame_name_of(i);
        let ghost bprev = stored_blocks_view(blocks@);
        let ghost cprev = triples_view(camera@);
        let ghost sprev = pairs_view(summary@);
        summary.push((copy_string(&iri), copy_string(&name)));
        camera.push((iri, name, copy_string(&f.file_path)));
        blocks.push(ContentBlock::CameraRef { file_path: copy_string(&f.file_path), token_estimate: f.token_estimate });
        assert(stored_blocks_view(blocks@) =~= bprev.push(StoredBlockView::CameraRef(f.file_path@, f.token_estimate)));
        assert(fsv.take(i + 1) =~= fsv.take(i as int).push(fsv[i as int]));
        assert(frame_blocks(fsv.take(i + 1)) =~= frame_blocks(fsv.take(i as int)).push(
            StoredBlockView::CameraRef(f.file_path@, f.token_estimate),
        ));
        assert(triples_view(camera@) =~= cprev.push(frame_files(fsv, capture_ts)[i as int]));
        assert(frame_files(fsv, capture_ts).take(i + 1) =~= frame_files(fsv, capture_ts).take(i as int).push(
            frame_files(fsv, capture_ts)[i as int],
        ));
        assert(pairs_view(summary@) =~= sprev.push((frame_iri(capture_ts, i as int), frame_name(i as int))));
        assert(frame_files(fsv, capture_ts).take(i + 1).map_values(|f: (Seq<char>, Seq<char>, Seq<char>)| (f.0, f.1))
            =~= frame_files(fsv, capture_ts).take(i as int).map_values(
            |f: (Seq<char>, Seq<char>, Seq<char>)| (f.0, f.1),
        ).push((frame_iri(capture_ts, i as int), frame_name(i as int))));
        i = i + 1;
    }
    assert(fsv.take(i as int) =~= fsv);
    assert(frame_files(fsv, capture_ts).take(i as int) =~= frame_files(fsv, capture_ts));
    let ghost head_blocks = stored_blocks_view(blocks@);
    let ghost head_summary = pairs_view(summary@);
    let mut binaries: Vec<(String, String)> = Vec::new();
    let mut existing: Vec<String> = Vec::new();
    let mut j: usize = 0;
    assert(pairs_view(binaries@) =~= whole_files(av.take(0)));
    assert(unsummarized(av.take(0)) =~= Seq::<(Seq<char>, Seq<char>)>::empty());
    assert(head_summary + unsummarized(av.take(0)) =~= head_summary);
    assert(attachment_blocks(av.take(0)) =~= Seq::<StoredBlockView>::empty());
    assert(head_blocks + attachment_blocks(av.take(0)) =~= head_blocks);
    while j < atts.len()
        invariant
            j <= av.len(),
            av == atts@,
            stored_blocks_view(blocks@) == head_blocks + attachment_blocks(av.take(j as int)),
            pairs_view(binaries@) == whole_files(av.take(j as int)),
            pairs_view(summary@) == head_summary + unsummarized(av.take(j as int)),
            strings_view(existing@) == av.take(j as int).map_values(|a: PendingAttachment| a.file_iri@),
        decreases atts.len() - j,
    {
        let a = &atts[j];
        assert(av.take(j + 1).drop_last() =~= av.take(j as int));
        assert(av.take(j + 1).last() == av[j as int]);
        let ghost eprev = strings_view(existing@);
        existing.push(copy_string(&a.file_iri));
        assert(strings_view(existing@) =~= eprev.push(a.file_iri@));
        assert(av.take(j + 1).map_values(|a: PendingAttachment| a.file_iri@) =~= av.take(j as int).map_values(
            |a: PendingAttachment| a.file_iri@,
        ).push(a.file_iri@));
        if is_sent_whole(a.mime_type.as_str()) {
            let ghost bprev = pairs_view(binaries@);
            binaries.push((copy_string(&a.mime_type), copy_string(&a.data)));
            assert(pairs_view(binaries@) =~= bprev.push((a.mime_type@, a.data@)));
        }
        let ghost blprev = stored_blocks_view(blocks@);
        blocks.push(
            ContentBlock::FileRef {
                file_iri: copy_string(&a.file_iri),
                file_name: copy_string(&a.file_name),
                token_estimate: a.token_estimate,
                ai_summary: None,
            },
        );
        assert(stored_blocks_view(blocks@) =~= blprev.push(
            StoredBlockView::FileRef(a.file_iri@, a.file_name@, a.token_estimate, None),
        ));
        assert(attachment_blocks(av.take(j + 1)) =~= attachment_blocks(av.take(j as int)).push(
            StoredBlockView::FileRef(a.file_iri@, a.file_name@, a.token_estimate, None),
        ));
        if !a.has_summary {
            let ghost sprev = pairs_view(summary@);
            summary.push((copy_string(&a.file_iri), copy_string(&a.file_name)));
            assert(pairs_view(summary@) =~= sprev.push((a.file_iri@, a.file_name@)));
        }
        j = j + 1;
    }
    assert(av.take(j as int) =~= av);
    if !structured {
        return UserTurn {
            blocks: None,
            binaries,
            files_needing_summary: summary,
            camera_files: camera,
            existing_file_iris: existing,
        };
    }
    let ghost mid = stored_blocks_view(blocks@);
    if chars_of(content).len() > 0 {
        blocks.push(ContentBlock::Text { text: to_owned_string(content) });
        assert(stored_blocks_view(blocks@) =~= mid.push(StoredBlockView::Text(content@)));
    } else {
        assert(stored_blocks_view(blocks@) =~= mid + Seq::<StoredBlockView>::empty());
    }
    UserTurn {
        blocks: Some(blocks),
        binaries,
        files_needing_summary: summary,
        camera_files: camera,
        existing_file_iris: existing,
    }
}

} // verus!
