//! The gateway's session management: how many sessions a listing asks
//! for, which sessions it shows and how each is described, how the ids and
//! nicknames clients send are read, and what a catalog update is answered
//! with. The session catalog and the conversation manager stay with the
//! caller.
use vstd::prelude::*;

use crate::review_detail::{run_id_text, uuid_text};
use crate::review_store::{join_path, path_join};
use crate::rollout_history::{summarize_text, summary_words};
use crate::session_lease::{parse_uuid, uuid_parse};
use crate::text::{clone_opt_string, clone_string, opt_view, starts_with, to_owned_string, trim_string, trimmed};

verus! {

/// How many sessions a listing shows when the client names no number.
pub const DEFAULT_SESSION_LIST_LIMIT: usize = 200;

/// How many words of a session's last user message describe it.
pub const SESSION_SUMMARY_WORDS: usize = 10;

/// How many sessions a listing shows: the client's number, at least one,
/// or the default.
pub fn session_list_limit(limit: Option<usize>) -> (n: usize)
    ensures
        n == match limit {
            Some(0) => 1,
            Some(v) => v,
            None => DEFAULT_SESSION_LIST_LIMIT,
        },
{
    match limit {
        Some(0) => 1,
        Some(v) => v,
        None => DEFAULT_SESSION_LIST_LIMIT,
    }
}

/// Whether `base` begins `path` in whole components, as
/// `std::path::Path::starts_with` tells.
pub uninterp spec fn path_starts_with(path: Seq<char>, base: Seq<char>) -> bool;

/// `std::path::Path::starts_with` on two paths: whether the components of
/// `base` begin those of `path`. How a path splits into components is the
/// standard library's; the result is named.
#[verifier::external_body]
fn path_has_prefix(path: &str, base: &str) -> (r: bool)
    ensures
        r == path_starts_with(path@, base@),
{
    std::path::Path::new(path).starts_with(base)
}

/// A session as the catalog lists it, holding what the listing reads.
#[derive(Debug, Clone)]
pub struct SessionEntry {
    pub session_id: u128,
    pub created_at: String,
    pub last_event_at: String,
    /// The rollout file, relative to the code home unless absolute.
    pub rollout_path: String,
    pub nickname: Option<String>,
    pub last_user_snippet: Option<String>,
    /// The working directory, resolved.
    pub cwd_real: String,
    /// The working directory as it is shown.
    pub cwd_display: String,
    pub git_branch: Option<String>,
    pub session_source: String,
    pub message_count: usize,
}

/// A session as a listing shows it.
#[derive(Debug, Clone)]
pub struct ListConversationItem {
    pub conversation_id: String,
    pub created_at: Option<String>,
    pub updated_at: Option<String>,
    pub path: String,
    pub nickname: Option<String>,
    pub summary: Option<String>,
    pub last_user_snippet: Option<String>,
    pub cwd: Option<String>,
    pub git_branch: Option<String>,
    pub source: Option<String>,
    pub message_count: usize,
}

/// A path under the code home: an absolute path stands as it is, a
/// relative one is joined onto the code home.
pub open spec fn under_home(code_home: Seq<char>, p: Seq<char>) -> Seq<char> {
    if p.len() > 0 && p[0] == '/' {
        p
    } else {
        path_join(code_home, p)
    }
}

/// The summary of a session: the first words of its last user message,
/// if it has any.
pub open spec fn session_summary(snippet: Option<Seq<char>>) -> Option<Seq<char>> {
    match snippet {
        Some(s) => match summary_words(s, SESSION_SUMMARY_WORDS as nat) {
            Some(t) => if t.len() == 0 {
                None
            } else {
                Some(t)
            },
            None => None,
        },
        None => None,
    }
}

/// How a listing shows a session.
pub open spec fn item_of(item: ListConversationItem, e: SessionEntry, code_home: Seq<char>) -> bool {
    &&& item.conversation_id@ == uuid_text(e.session_id)
    &&& opt_view(item.created_at) == Some(e.created_at@)
    &&& opt_view(item.updated_at) == Some(e.last_event_at@)
    &&& item.path@ == under_home(code_home, e.rollout_path@)
    &&& opt_view(item.nickname) == opt_view(e.nickname)
    &&& opt_view(item.summary) == session_summary(opt_view(e.last_user_snippet))
    &&& opt_view(item.last_user_snippet) == opt_view(e.last_user_snippet)
    &&& opt_view(item.cwd) == Some(e.cwd_display@)
    &&& opt_view(item.git_branch) == opt_view(e.git_branch)
    &&& opt_view(item.source) == Some(e.session_source@)
    &&& item.message_count == e.message_count
}

/// The sessions a listing shows: those whose working directory is not
/// under the code home's `working` directory, in order.
pub open spec fn shown_entries(es: Seq<SessionEntry>, code_home: Seq<char>) -> Seq<SessionEntry>
    decreases es.len(),
{
    if es.len() == 0 {
        Seq::empty()
    } else {
        let rest = shown_entries(es.drop_last(), code_home);
        if path_starts_with(es.last().cwd_real@, path_join(code_home, "working"@)) {
            rest
        } else {
            rest.push(es.last())
        }
    }
}

fn list_item(e: &SessionEntry, code_home: &str) -> (item: ListConversationItem)
    ensures
        item_of(item, *e, code_home@),
{
    let absolute = starts_with(e.rollout_path.as_str(), "/");
    proof {
        let p = e.rollout_path@;
        reveal_strlit("/");
        if p.len() > 0 && p[0] == '/' {
            assert(p.take(1) =~= "/"@);
        }
        if absolute {
            assert(p.take(1)[0] == p[0]);
        }
        assert(absolute == (p.len() > 0 && p[0] == '/'));
    }
    let path = if absolute {
        clone_string(&e.rollout_path)
    } else {
        join_path(code_home, e.rollout_path.as_str())
    };
    let summary = match &e.last_user_snippet {
        Some(s) => match summarize_text(s.as_str(), SESSION_SUMMARY_WORDS) {
            Some(t) => if t.as_str().is_empty() {
                None
            } else {
                Some(t)
            },
            None => None,
        },
        None => None,
    };
    ListConversationItem {
        conversation_id: run_id_text(e.session_id),
        created_at: Some(clone_string(&e.created_at)),
        updated_at: Some(clone_string(&e.last_event_at)),
        path,
        nickname: clone_opt_string(&e.nickname),
        summary,
        last_user_snippet: clone_opt_string(&e.last_user_snippet),
        cwd: Some(clone_string(&e.cwd_display)),
        git_branch: clone_opt_string(&e.git_branch),
        source: Some(clone_string(&e.session_source)),
        message_count: e.message_count,
    }
}

/// The listing of the sessions the catalog gave: each shown session, in
/// order, described as `item_of` says; sessions that ran under the code
/// home's `working` directory are left out.
pub fn list_conversation_items(entries: &Vec<SessionEntry>, code_home: &str) -> (r: Vec<ListConversationItem>)
    ensures
        r@.len() == shown_entries(entries@, code_home@).len(),
        forall|i: int| 0 <= i < r@.len() ==> item_of(#[trigger] r@[i], shown_entries(entries@, code_home@)[i], code_home@),
{
    let working_root = join_path(code_home, "working");
    proof {
        reveal_strlit("working");
    }
    let mut out: Vec<ListConversationItem> = Vec::new();
    let mut i: usize = 0;
    while i < entries.len()
        invariant
            i <= entries@.len(),
            working_root@ == path_join(code_home@, "working"@),
            out@.len() == shown_entries(entries@.take(i as int), code_home@).len(),
            forall|k: int| 0 <= k < out@.len() ==> item_of(#[trigger] out@[k], shown_entries(entries@.take(i as int), code_home@)[k], code_home@),
        decreases entries@.len() - i,
    {
        let ghost before = shown_entries(entries@.take(i as int), code_home@);
        proof {
            assert(entries@.take(i + 1).drop_last() =~= entries@.take(i as int));
            assert(entries@.take(i + 1).last() == entries@[i as int]);
        }
        if !path_has_prefix(entries[i].cwd_real.as_str(), working_root.as_str()) {
            let item = list_item(&entries[i], code_home);
            out.push(item);
            proof {
                assert(shown_entries(entries@.take(i + 1), code_home@) == before.push(entries@[i as int]));
            }
        }
        i = i + 1;
    }
    proof {
        assert(entries@.take(entries@.len() as int) =~= entries@);
    }
    out
}

/// Reads a conversation id a client sent: the UUID it holds, or the
/// error the client is answered with.
pub fn parse_conversation_id(conversation_id: &str) -> (r: Result<u128, String>)
    ensures
        match uuid_parse(conversation_id@) {
            Some(id) => r == Ok::<u128, String>(id),
            None => r matches Err(e) && e@ == "invalid conversation id"@,
        },
{
    match parse_uuid(conversation_id) {
        Some(id) => Ok(id),
        None => Err(to_owned_string("invalid conversation id")),
    }
}

/// The nickname a rename sets: the text sent without surrounding white
/// space; a blank or missing one clears the nickname.
pub open spec fn nickname_spec(nickname: Option<Seq<char>>) -> Option<Seq<char>> {
    match nickname {
        Some(n) => if trimmed(n).len() == 0 {
            None
        } else {
            Some(trimmed(n))
        },
        None => None,
    }
}

/// The nickname a rename sets.
pub fn normalize_nickname(nickname: Option<String>) -> (r: Option<String>)
    ensures
        opt_view(r) == nickname_spec(opt_view(nickname)),
{
    match nickname {
        Some(n) => {
            let t = trim_string(n.as_str());
            if t.as_str().is_empty() {
                None
            } else {
                Some(t)
            }
        },
        None => None,
    }
}

/// What a rename or delete is answered with, from what the catalog said:
/// done when it changed the session, "session not found" when it had no
/// such session, and the catalog's error otherwise.
pub fn catalog_update_outcome(updated: Result<bool, String>) -> (r: Result<(), String>)
    ensures
        match updated {
            Ok(true) => r is Ok,
            Ok(false) => r matches Err(e) && e@ == "session not found"@,
            Err(err) => r matches Err(e) && e@ == err@,
        },
{
    match updated {
        Ok(true) => Ok(()),
        Ok(false) => Err(to_owned_string("session not found")),
        Err(err) => Err(err),
    }
}

} // verus!
