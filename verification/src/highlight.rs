use vstd::prelude::*;

use crate::ids::UserId;
use crate::message::{MentionTarget, MessageReference};
use crate::spans::MessageSpan;
use crate::text::{parse_i64, parse_i64_spec, str_eq};

verus! {

/// The ids of `here` as character sequences.
pub open spec fn id_views(here: Seq<String>) -> Seq<Seq<char>> {
    here.map_values(|s: String| s@)
}

/// A mentioned user id points at the viewer: it is neither empty nor `0`, and it is one of
/// the ids that stand for everyone present (`here`) or the viewer's own id.
pub open spec fn targets_viewer(uid: Seq<char>, viewer: UserId, here: Seq<Seq<char>>) -> bool {
    &&& uid.len() > 0
    &&& uid != seq!['0']
    &&& (here.contains(uid) || parse_i64_spec(uid) == Some(viewer.0))
}

pub open spec fn target_hits_viewer(t: MentionTarget, viewer: UserId, here: Seq<Seq<char>>) -> bool {
    match t.user_id {
        Some(u) => targets_viewer(u@, viewer, here),
        None => false,
    }
}

pub open spec fn span_hits_viewer(s: MessageSpan, viewer: UserId, here: Seq<Seq<char>>) -> bool {
    match s {
        MessageSpan::Mention { user_id: Some(u), .. } => targets_viewer(u@, viewer, here),
        _ => false,
    }
}

/// A message speaks to the viewer directly: it replies to one of the viewer's messages, or
/// one of its mention targets or mention spans points at the viewer.
pub open spec fn highlights_viewer(
    refs: Seq<MessageReference>,
    targets: Seq<MentionTarget>,
    spans: Seq<MessageSpan>,
    viewer: Option<UserId>,
    here: Seq<Seq<char>>,
) -> bool {
    match viewer {
        None => false,
        Some(v) => {
            ||| exists|i: int| 0 <= i < refs.len() && (#[trigger] refs[i]).sender_id == v
            ||| exists|i: int| 0 <= i < targets.len() && target_hits_viewer(#[trigger] targets[i], v, here)
            ||| exists|i: int| 0 <= i < spans.len() && span_hits_viewer(#[trigger] spans[i], v, here)
        },
    }
}

fn contains_id(here: &Vec<String>, uid: &str) -> (r: bool)
    ensures
        r == id_views(here@).contains(uid@),
{
    let mut i: usize = 0;
    while i < here.len()
        invariant
            i <= here@.len(),
            forall|j: int| 0 <= j < i ==> (#[trigger] here@[j])@ != uid@,
        decreases here@.len() - i,
    {
        if str_eq(here[i].as_str(), uid) {
            proof {
                assert(id_views(here@)[i as int] == uid@);
            }
            return true;
        }
        i += 1;
    }
    proof {
        if id_views(here@).contains(uid@) {
            let j = choose|j: int| 0 <= j < id_views(here@).len() && id_views(here@)[j] == uid@;
            assert(here@[j]@ == uid@);
        }
    }
    false
}

/// Whether the mentioned user id `uid` points at the viewer (see `targets_viewer`); `here_ids`
/// are the ids that stand for everyone present.
pub fn mention_user_id_targets_viewer(uid: &str, viewer_id: UserId, here_ids: &Vec<String>) -> (r: bool)
    ensures
        r == targets_viewer(uid@, viewer_id, id_views(here_ids@)),
{
    proof {
        reveal_strlit("0");
        assert("0"@ =~= seq!['0']);
    }
    if uid.unicode_len() == 0 {
        return false;
    }
    if str_eq(uid, "0") {
        return false;
    }
    if contains_id(here_ids, uid) {
        return true;
    }
    match parse_i64(uid) {
        Some(n) => n == viewer_id.0,
        None => false,
    }
}

/// Whether a message with these references, mention targets and spans speaks to the viewer
/// directly (see `highlights_viewer`).
pub fn viewer_highlight_direct(
    references: &Vec<MessageReference>,
    mention_targets: &Vec<MentionTarget>,
    spans: &Vec<MessageSpan>,
    viewer_id: Option<UserId>,
    here_ids: &Vec<String>,
) -> (r: bool)
    ensures
        r == highlights_viewer(references@, mention_targets@, spans@, viewer_id, id_views(here_ids@)),
{
    let v = match viewer_id {
        Some(v) => v,
        None => {
            return false;
        },
    };
    let ghost here = id_views(here_ids@);
    let mut i: usize = 0;
    while i < references.len()
        invariant
            viewer_id == Some(v),
            i <= references@.len(),
            forall|j: int| 0 <= j < i ==> (#[trigger] references@[j]).sender_id != v,
        decreases references@.len() - i,
    {
        if references[i].sender_id.0 == v.0 {
            assert(references@[i as int].sender_id == v);
            return true;
        }
        i += 1;
    }
    let mut i: usize = 0;
    while i < mention_targets.len()
        invariant
            viewer_id == Some(v),
            here == id_views(here_ids@),
            forall|j: int| 0 <= j < references@.len() ==> (#[trigger] references@[j]).sender_id != v,
            i <= mention_targets@.len(),
            forall|j: int| 0 <= j < i ==> !target_hits_viewer(#[trigger] mention_targets@[j], v, here),
        decreases mention_targets@.len() - i,
    {
        let hit = match &mention_targets[i].user_id {
            Some(u) => mention_user_id_targets_viewer(u.as_str(), v, here_ids),
            None => false,
        };
        assert(hit == target_hits_viewer(mention_targets@[i as int], v, here));
        if hit {
            return true;
        }
        i += 1;
    }
    let mut i: usize = 0;
    while i < spans.len()
        invariant
            viewer_id == Some(v),
            here == id_views(here_ids@),
            forall|j: int| 0 <= j < references@.len() ==> (#[trigger] references@[j]).sender_id != v,
            forall|j: int| 0 <= j < mention_targets@.len() ==> !target_hits_viewer(#[trigger] mention_targets@[j], v, here),
            i <= spans@.len(),
            forall|j: int| 0 <= j < i ==> !span_hits_viewer(#[trigger] spans@[j], v, here),
        decreases spans@.len() - i,
    {
        let hit = match &spans[i] {
            MessageSpan::Mention { user_id: Some(u), .. } => mention_user_id_targets_viewer(u.as_str(), v, here_ids),
            _ => false,
        };
        assert(hit == span_hits_viewer(spans@[i as int], v, here));
        if hit {
            return true;
        }
        i += 1;
    }
    false
}

/// A role id in a mention names one of `role_ids`.
pub open spec fn names_role(rid: Seq<char>, role_ids: Seq<i64>) -> bool {
    match parse_i64_spec(rid) {
        Some(id) => role_ids.contains(id),
        None => false,
    }
}

pub open spec fn target_hits_roles(t: MentionTarget, role_ids: Seq<i64>) -> bool {
    match t.role_id {
        Some(r) => names_role(r@, role_ids),
        None => false,
    }
}

pub open spec fn span_hits_roles(s: MessageSpan, role_ids: Seq<i64>) -> bool {
    match s {
        MessageSpan::Mention { role_id: Some(r), .. } => r@.len() > 0 && names_role(r@, role_ids),
        _ => false,
    }
}

/// A message mentions one of the viewer's roles (`role_ids`, none when empty) through a
/// mention target or a mention span.
pub open spec fn highlights_roles(targets: Seq<MentionTarget>, spans: Seq<MessageSpan>, role_ids: Seq<i64>) -> bool {
    &&& role_ids.len() > 0
    &&& {
        ||| exists|i: int| 0 <= i < targets.len() && target_hits_roles(#[trigger] targets[i], role_ids)
        ||| exists|i: int| 0 <= i < spans.len() && span_hits_roles(#[trigger] spans[i], role_ids)
    }
}

fn names_role_exec(rid: &str, role_ids: &Vec<i64>) -> (r: bool)
    ensures
        r == names_role(rid@, role_ids@),
{
    match parse_i64(rid) {
        Some(id) => {
            let mut k: usize = 0;
            while k < role_ids.len()
                invariant
                    parse_i64_spec(rid@) == Some(id),
                    k <= role_ids@.len(),
                    forall|j: int| 0 <= j < k ==> role_ids@[j] != id,
                decreases role_ids@.len() - k,
            {
                if role_ids[k] == id {
                    assert(role_ids@[k as int] == id);
                    return true;
                }
                k += 1;
            }
            false
        },
        None => false,
    }
}

/// Whether a message with these mention targets and spans mentions one of the viewer's roles
/// (see `highlights_roles`).
pub fn message_row_highlight_roles(
    mention_targets: &Vec<MentionTarget>,
    spans: &Vec<MessageSpan>,
    role_ids: &Vec<i64>,
) -> (r: bool)
    ensures
        r == highlights_roles(mention_targets@, spans@, role_ids@),
{
    if role_ids.len() == 0 {
        return false;
    }
    let mut i: usize = 0;
    while i < mention_targets.len()
        invariant
            role_ids@.len() > 0,
            i <= mention_targets@.len(),
            forall|j: int| 0 <= j < i ==> !target_hits_roles(#[trigger] mention_targets@[j], role_ids@),
        decreases mention_targets@.len() - i,
    {
        let hit = match &mention_targets[i].role_id {
            Some(r) => names_role_exec(r.as_str(), role_ids),
            None => false,
        };
        assert(hit == target_hits_roles(mention_targets@[i as int], role_ids@));
        if hit {
            return true;
        }
        i += 1;
    }
    let mut i: usize = 0;
    while i < spans.len()
        invariant
            role_ids@.len() > 0,
            forall|j: int| 0 <= j < mention_targets@.len() ==> !target_hits_roles(#[trigger] mention_targets@[j], role_ids@),
            i <= spans@.len(),
            forall|j: int| 0 <= j < i ==> !span_hits_roles(#[trigger] spans@[j], role_ids@),
        decreases spans@.len() - i,
    {
        let hit = match &spans[i] {
            MessageSpan::Mention { role_id: Some(r), .. } => r.unicode_len() > 0 && names_role_exec(
                r.as_str(),
                role_ids,
            ),
            _ => false,
        };
        assert(hit == span_hits_roles(spans@[i as int], role_ids@));
        if hit {
            return true;
        }
        i += 1;
    }
    false
}

/// The row of a message is highlighted when it speaks to the viewer directly or mentions one
/// of the viewer's roles.
pub fn message_row_highlight(
    references: &Vec<MessageReference>,
    mention_targets: &Vec<MentionTarget>,
    spans: &Vec<MessageSpan>,
    viewer_id: Option<UserId>,
    role_ids: &Vec<i64>,
    here_ids: &Vec<String>,
) -> (r: bool)
    ensures
        r == (highlights_viewer(references@, mention_targets@, spans@, viewer_id, id_views(here_ids@))
            || highlights_roles(mention_targets@, spans@, role_ids@)),
{
    viewer_highlight_direct(references, mention_targets, spans, viewer_id, here_ids)
        || message_row_highlight_roles(mention_targets, spans, role_ids)
}

/// The head (avatar and name) of a message is shown unless it is combined with the previous
/// one; a reply always shows it.
pub fn should_show_message_head(references: &Vec<MessageReference>, is_combine: bool) -> (r: bool)
    ensures
        r == (references@.len() > 0 || !is_combine),
{
    references.len() > 0 || !is_combine
}

} // verus!
