//! What the views of the library's types show: every field, and nothing in another's place.
use crate::counts::counted;
use crate::digest::{models, ImproveDigest};
use crate::order::positions;
use crate::prompt::{outcome, recordings, RecordedSession};
use crate::recent::{path_model, threads, RolloutPath, ThreadItem};
use crate::session::SessionAnalysis;
use crate::text::{opt_text, texts};
use vstd::prelude::*;

verus! {

/// Lists are viewed element by element.
pub proof fn law_list_views(
    strings: Seq<String>,
    entries: Seq<(String, usize)>,
    items: Seq<ThreadItem>,
    analyses: Seq<SessionAnalysis>,
    recorded: Seq<RecordedSession>,
    places: Seq<usize>,
)
    ensures
        texts(strings).len() == strings.len(),
        forall|i: int| 0 <= i < strings.len() ==> #[trigger] texts(strings)[i] == strings[i]@,
        counted(entries).len() == entries.len(),
        forall|i: int|
            0 <= i < entries.len() ==> #[trigger] counted(entries)[i] == (
                entries[i].0@,
                entries[i].1 as nat,
            ),
        threads(items).len() == items.len(),
        forall|i: int| 0 <= i < items.len() ==> #[trigger] threads(items)[i] == items[i]@,
        models(analyses).len() == analyses.len(),
        forall|i: int| 0 <= i < analyses.len() ==> #[trigger] models(analyses)[i] == analyses[i]@,
        recordings(recorded).len() == recorded.len(),
        forall|i: int|
            0 <= i < recorded.len() ==> #[trigger] recordings(recorded)[i] == recorded[i]@,
        positions(places).len() == places.len(),
        forall|i: int| 0 <= i < places.len() ==> #[trigger] positions(places)[i] == places[i],
{
}

/// Optional values and results are viewed by what they hold.
pub proof fn law_option_views(text: String, path: RolloutPath)
    ensures
        opt_text(Some(text)) == Some(text@),
        opt_text(None) is None,
        path_model(Some(&path)) == Some(path@),
        path_model(None) is None,
        outcome(Ok(text)) == Ok::<Seq<char>, Seq<char>>(text@),
        outcome(Err(text)) == Err::<Seq<char>, Seq<char>>(text@),
{
}

/// A path is viewed by the kind and the name of each of its components.
pub proof fn law_path_view(path: RolloutPath)
    ensures
        path@.len() == path.components@.len(),
        forall|i: int|
            0 <= i < path@.len() ==> {
                &&& (#[trigger] path@[i]).0 == path.components@[i].rank
                &&& path@[i].1 == path.components@[i].name@
            },
{
}

/// A listed session is viewed by its fields.
pub proof fn law_thread_view(item: ThreadItem)
    ensures
        item@.path == item.path@,
        item@.created_at == opt_text(item.created_at),
        item@.first_user_message == opt_text(item.first_user_message),
        item.cwd is Some ==> item@.cwd == Some(item.cwd->0@),
        item.cwd is None ==> item@.cwd is None,
{
}

/// A recorded session is viewed by its listing and its entries.
pub proof fn law_recorded_view(r: RecordedSession)
    ensures
        r@.thread == r.thread@,
        r.items is Some ==> r@.items == Some(r.items->0@),
        r.items is None ==> r@.items is None,
{
}

/// The analysis of a session is viewed by its fields.
pub proof fn law_session_view(a: SessionAnalysis)
    ensures
        a@.created_at == a.created_at@,
        a@.preview == a.preview@,
        a@.cwd == opt_text(a.cwd),
        a@.user_messages == a.user_messages,
        a@.assistant_messages == a.assistant_messages,
        a@.final_answers == a.final_answers,
        a@.commentary_messages == a.commentary_messages,
        a@.tool_calls == a.tool_calls,
        a@.exec_commands == a.exec_commands,
        a@.failed_exec_commands == a.failed_exec_commands,
        a@.declined_exec_commands == a.declined_exec_commands,
        a@.stream_errors == a.stream_errors,
        a@.turn_aborts == a.turn_aborts,
        a@.approvals == a.approvals,
        a@.compactions == a.compactions,
        a@.tool_counts == a.tool_counts@,
        a@.command_counts == a.command_counts@,
        a@.failed_command_counts == a.failed_command_counts@,
        a@.assistant_phrase_samples == texts(a.assistant_phrase_samples@),
{
}

/// A digest is viewed by its fields.
pub proof fn law_digest_view(d: ImproveDigest)
    ensures
        d@.sessions == models(d.sessions@),
        d@.total_user_messages == d.total_user_messages,
        d@.total_assistant_messages == d.total_assistant_messages,
        d@.total_commentary_messages == d.total_commentary_messages,
        d@.total_final_answers == d.total_final_answers,
        d@.total_tool_calls == d.total_tool_calls,
        d@.total_exec_commands == d.total_exec_commands,
        d@.total_failed_exec_commands == d.total_failed_exec_commands,
        d@.total_stream_errors == d.total_stream_errors,
        d@.total_turn_aborts == d.total_turn_aborts,
        d@.total_approvals == d.total_approvals,
        d@.total_compactions == d.total_compactions,
        d@.top_tools == counted(d.top_tools@),
        d@.top_commands == counted(d.top_commands@),
        d@.top_failed_commands == counted(d.top_failed_commands@),
        d@.top_cwds == counted(d.top_cwds@),
        d@.repeated_phrases == counted(d.repeated_phrases@),
{
}

} // verus!
