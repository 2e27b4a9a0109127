//! Which messages of a recorded session count, and what is taken from them.
use crate::phrase::sample_of;
use crate::recent::ThreadModel;
use crate::rollout::{
    content_text, message_text, ContentItem, EventMsg, MessagePhase, ResponseItem, RolloutItem,
};
use crate::session::{analysis_of, opened, SessionModel};
use crate::text::{collapsed, lossy_text, shortened, words};
use vstd::prelude::*;

verus! {

// ---------------------------------------------------------------------------------------------
// Content
// ---------------------------------------------------------------------------------------------
/// The text of a message is that of its pieces, one directly after the other: texts of either kind count
/// in full, and images not at all.
pub proof fn law_content(a: Seq<ContentItem>, b: Seq<ContentItem>, text: String)
    ensures
        content_text(Seq::empty()) == Seq::<char>::empty(),
        content_text(seq![ContentItem::InputText { text }]) == text@,
        content_text(seq![ContentItem::OutputText { text }]) == text@,
        content_text(seq![ContentItem::InputImage]) == Seq::<char>::empty(),
        content_text(a + b) == content_text(a) + content_text(b),
    decreases b.len(),
{
    let none = Seq::<ContentItem>::empty();
    let pieces = seq![
        ContentItem::InputText { text },
        ContentItem::OutputText { text },
        ContentItem::InputImage,
    ];
    assert(content_text(none) == Seq::<char>::empty());
    assert forall|i: int| 0 <= i < 3 implies content_text(seq![#[trigger] pieces[i]])
        =~= crate::rollout::item_text(pieces[i]) by {
        assert(seq![pieces[i]].drop_last() =~= none);
    }
    assert(content_text(seq![pieces[0]]) == text@);
    assert(content_text(seq![pieces[1]]) == text@);
    assert(content_text(seq![pieces[2]]) == Seq::<char>::empty());
    if b.len() == 0 {
        assert(a + b =~= a);
        assert(content_text(a) + content_text(b) =~= content_text(a));
    } else {
        assert((a + b).drop_last() =~= a + b.drop_last());
        assert((a + b).last() == b.last());
        law_content(a, b.drop_last(), text);
        assert(content_text(a + b) =~= content_text(a) + content_text(b));
    }
}

/// A message has a text exactly where it holds a word, and then it is the collapsed text of its content.
pub proof fn law_message_text(content: Seq<ContentItem>)
    ensures
        words(content_text(content)).len() == 0 ==> message_text(content) is None,
        words(content_text(content)).len() > 0 ==> message_text(content) == Some(
            collapsed(content_text(content)),
        ),
{
    crate::laws::text::law_collapsed_tidy(content_text(content));
}

// ---------------------------------------------------------------------------------------------
// Turns
// ---------------------------------------------------------------------------------------------
/// The positions before `n` that `p` holds of, in order.
pub open spec fn places(n: nat, p: spec_fn(int) -> bool) -> Seq<int> {
    Seq::new(n, |i: int| i).filter(p)
}

pub open spec fn is_message_of(item: RolloutItem, role: Seq<char>) -> bool {
    item matches RolloutItem::ResponseItem(ResponseItem::Message { role: r, .. }) && r@ == role
}

pub open spec fn is_user_event(item: RolloutItem) -> bool {
    item matches RolloutItem::EventMsg(EventMsg::UserMessage { .. })
}

pub open spec fn is_agent_event(item: RolloutItem) -> bool {
    item matches RolloutItem::EventMsg(EventMsg::AgentMessage { .. })
}

/// Whether the entry at `i` counts as a message of the user: it is one, or it announces one and no
/// earlier entry is or announces one.
pub open spec fn user_turn(items: Seq<RolloutItem>, i: int) -> bool {
    ||| is_message_of(items[i], "user"@)
    ||| is_user_event(items[i]) && forall|j: int|
        0 <= j < i ==> !is_message_of(#[trigger] items[j], "user"@) && !is_user_event(items[j])
}

/// Whether the entry at `i` counts as a message of the assistant: it is one, or it announces one and no
/// earlier entry is or announces one.
pub open spec fn assistant_turn(items: Seq<RolloutItem>, i: int) -> bool {
    ||| is_message_of(items[i], "assistant"@)
    ||| is_agent_event(items[i]) && forall|j: int|
        0 <= j < i ==> !is_message_of(#[trigger] items[j], "assistant"@) && !is_agent_event(items[j])
}

/// The phase of a message, or of the message that an entry announces.
pub open spec fn phase_at(item: RolloutItem) -> Option<MessagePhase> {
    match item {
        RolloutItem::ResponseItem(ResponseItem::Message { phase, .. }) => phase,
        RolloutItem::EventMsg(EventMsg::AgentMessage { phase, .. }) => phase,
        _ => None,
    }
}

/// The phrase sample of a message, or of the message that an entry announces.
pub open spec fn sample_at(item: RolloutItem) -> Option<Seq<char>> {
    match item {
        RolloutItem::ResponseItem(ResponseItem::Message { content, .. }) => match message_text(
            content@,
        ) {
            Some(text) => sample_of(text),
            None => None,
        },
        RolloutItem::EventMsg(EventMsg::AgentMessage { message, .. }) => sample_of(message@),
        _ => None,
    }
}

/// What the user said in a message, or in the message that an entry announces, if anything.
pub open spec fn words_at(item: RolloutItem) -> Option<Seq<char>> {
    match item {
        RolloutItem::ResponseItem(ResponseItem::Message { content, .. }) => message_text(content@),
        RolloutItem::EventMsg(EventMsg::UserMessage { message }) => if message@.len() > 0 {
            Some(message@)
        } else {
            None
        },
        _ => None,
    }
}

proof fn lemma_places_same(n: nat, p: spec_fn(int) -> bool, q: spec_fn(int) -> bool)
    requires
        forall|i: int| 0 <= i < n ==> #[trigger] p(i) == q(i),
    ensures
        places(n, p) == places(n, q),
    decreases n,
{
    reveal(Seq::filter);
    if n > 0 {
        let m = (n - 1) as nat;
        lemma_places_same(m, p, q);
        assert(Seq::new(n, |i: int| i).drop_last() =~= Seq::new(m, |i: int| i));
        assert(p(m as int) == q(m as int));
    } else {
        assert(places(n, p) =~= places(n, q));
    }
}

proof fn lemma_places_next(n: nat, p: spec_fn(int) -> bool)
    ensures
        places(n + 1, p) == if p(n as int) {
            places(n, p).push(n as int)
        } else {
            places(n, p)
        },
        places(0, p) == Seq::<int>::empty(),
{
    reveal(Seq::filter);
    assert(Seq::new(n + 1, |i: int| i).drop_last() =~= Seq::new(n, |i: int| i));
    assert(places(0, p) =~= Seq::<int>::empty());
}

proof fn lemma_places_within(n: nat, p: spec_fn(int) -> bool)
    ensures
        forall|k: int| 0 <= k < places(n, p).len() ==> 0 <= #[trigger] places(n, p)[k] < n,
    decreases n,
{
    lemma_places_next(0, p);
    if n > 0 {
        let m = (n - 1) as nat;
        lemma_places_within(m, p);
        lemma_places_next(m, p);
    }
}

spec fn heard(items: Seq<RolloutItem>) -> spec_fn(int) -> bool {
    |i: int| assistant_turn(items, i)
}

spec fn commented(items: Seq<RolloutItem>) -> spec_fn(int) -> bool {
    |i: int| assistant_turn(items, i) && phase_at(items[i]) == Some(MessagePhase::Commentary)
}

spec fn answered(items: Seq<RolloutItem>) -> spec_fn(int) -> bool {
    |i: int| assistant_turn(items, i) && phase_at(items[i]) != Some(MessagePhase::Commentary)
}

spec fn sampled(items: Seq<RolloutItem>) -> spec_fn(int) -> bool {
    |i: int| assistant_turn(items, i) && sample_at(items[i]) is Some
}

spec fn asked(items: Seq<RolloutItem>) -> spec_fn(int) -> bool {
    |i: int| user_turn(items, i)
}

spec fn said(items: Seq<RolloutItem>) -> spec_fn(int) -> bool {
    |i: int|
        user_turn(items, i) && words_at(items[i]) is Some && shortened(words_at(items[i])->0, 110)
            != "(no user preview recorded)"@
}

proof fn lemma_turns_kept(items: Seq<RolloutItem>, i: int)
    requires
        0 <= i < items.len() - 1,
    ensures
        assistant_turn(items, i) == assistant_turn(items.drop_last(), i),
        user_turn(items, i) == user_turn(items.drop_last(), i),
{
    let rest = items.drop_last();
    assert(rest[i] == items[i]);
    assert forall|j: int| 0 <= j < i implies #[trigger] rest[j] == items[j] by {}
    if is_agent_event(items[i]) {
        if assistant_turn(rest, i) && !is_message_of(items[i], "assistant"@) {
            assert forall|j: int| 0 <= j < i implies !is_message_of(
                #[trigger] items[j],
                "assistant"@,
            ) && !is_agent_event(items[j]) by {
                assert(rest[j] == items[j]);
            }
        }
    }
    if is_user_event(items[i]) {
        if user_turn(rest, i) && !is_message_of(items[i], "user"@) {
            assert forall|j: int| 0 <= j < i implies !is_message_of(#[trigger] items[j], "user"@)
                && !is_user_event(items[j]) by {
                assert(rest[j] == items[j]);
            }
        }
    }
}

proof fn lemma_assistant(session: ThreadModel, items: Seq<RolloutItem>)
    ensures
        ({
            let m = opened(session).after_items(items);
            let n = items.len();
            &&& m.assistant_messages == places(n, heard(items)).len()
            &&& m.commentary_messages == places(n, commented(items)).len()
            &&& m.final_answers == places(n, answered(items)).len()
            &&& m.assistant_phrase_samples == places(n, sampled(items)).map_values(
                |i: int| sample_at(items[i])->0,
            )
            &&& m.assistant_messages == 0 <==> forall|j: int|
                0 <= j < n ==> !is_message_of(#[trigger] items[j], "assistant"@) && !is_agent_event(
                    items[j],
                )
        }),
    decreases items.len(),
{
    reveal_strlit("user");
    reveal_strlit("assistant");
    assert("user"@.len() != "assistant"@.len());
    let n = items.len();
    let m = opened(session).after_items(items);
    if n == 0 {
        lemma_places_next(0, heard(items));
        lemma_places_next(0, commented(items));
        lemma_places_next(0, answered(items));
        lemma_places_next(0, sampled(items));
        assert(m.assistant_phrase_samples =~= places(n, sampled(items)).map_values(
            |i: int| sample_at(items[i])->0,
        ));
    } else {
        let rest = items.drop_last();
        let k = (n - 1) as nat;
        let last = items[k as int];
        let before = opened(session).after_items(rest);
        lemma_assistant(session, rest);
        assert forall|i: int| 0 <= i < k implies assistant_turn(items, i) == assistant_turn(rest, i)
            && rest[i] == items[i] by {
            lemma_turns_kept(items, i);
        }
        assert forall|i: int| 0 <= i < k implies #[trigger] heard(items)(i) == heard(rest)(i) by {}
        assert forall|i: int| 0 <= i < k implies #[trigger] commented(items)(i) == commented(rest)(
            i,
        ) by {}
        assert forall|i: int| 0 <= i < k implies #[trigger] answered(items)(i) == answered(rest)(
            i,
        ) by {}
        assert forall|i: int| 0 <= i < k implies #[trigger] sampled(items)(i) == sampled(rest)(
            i,
        ) by {}
        lemma_places_same(k, heard(items), heard(rest));
        lemma_places_same(k, commented(items), commented(rest));
        lemma_places_same(k, answered(items), answered(rest));
        lemma_places_same(k, sampled(items), sampled(rest));
        lemma_places_next(k, heard(items));
        lemma_places_next(k, commented(items));
        lemma_places_next(k, answered(items));
        lemma_places_next(k, sampled(items));
        lemma_places_within(k, sampled(items));
        let old_samples = places(k, sampled(rest)).map_values(|i: int| sample_at(rest[i])->0);
        assert(old_samples =~= places(k, sampled(items)).map_values(
            |i: int| sample_at(items[i])->0,
        ));
        let none_before = forall|j: int|
            0 <= j < k ==> !is_message_of(#[trigger] rest[j], "assistant"@) && !is_agent_event(
                rest[j],
            );
        assert(assistant_turn(items, k as int) <==> is_message_of(last, "assistant"@) || (
        is_agent_event(last) && none_before)) by {
            assert forall|j: int| 0 <= j < k implies #[trigger] rest[j] == items[j] by {}
            if is_agent_event(last) && none_before {
                assert forall|j: int| 0 <= j < k implies !is_message_of(
                    #[trigger] items[j],
                    "assistant"@,
                ) && !is_agent_event(items[j]) by {
                    assert(rest[j] == items[j]);
                }
            }
        }
        lemma_assistant_step(before, last, none_before);
        if m.assistant_messages == 0 {
            assert forall|j: int| 0 <= j < n implies !is_message_of(
                #[trigger] items[j],
                "assistant"@,
            ) && !is_agent_event(items[j]) by {
                if j < k {
                    assert(rest[j] == items[j]);
                }
            }
        }
        if (forall|j: int|
            0 <= j < n ==> !is_message_of(#[trigger] items[j], "assistant"@) && !is_agent_event(
                items[j],
            )) {
            assert forall|j: int| 0 <= j < k implies !is_message_of(
                #[trigger] rest[j],
                "assistant"@,
            ) && !is_agent_event(rest[j]) by {
                assert(rest[j] == items[j]);
            }
            assert(!is_message_of(items[k as int], "assistant"@));
        }
        assert(m.assistant_phrase_samples =~= places(n, sampled(items)).map_values(
            |i: int| sample_at(items[i])->0,
        ));
    }
}

/// What one entry does to what is known of the assistant.
proof fn lemma_assistant_step(before: SessionModel, last: RolloutItem, none_before: bool)
    requires
        before.assistant_messages == 0 <==> none_before,
    ensures
        ({
            let after = before.after_item(last);
            let turn = is_message_of(last, "assistant"@) || (is_agent_event(last) && none_before);
            let comment = phase_at(last) == Some(MessagePhase::Commentary);
            &&& !turn ==> after.assistant_messages == before.assistant_messages
                && after.commentary_messages == before.commentary_messages && after.final_answers
                == before.final_answers && after.assistant_phrase_samples
                == before.assistant_phrase_samples
            &&& turn ==> after.assistant_messages == before.assistant_messages + 1
            &&& turn && comment ==> after.commentary_messages == before.commentary_messages + 1
                && after.final_answers == before.final_answers
            &&& turn && !comment ==> after.commentary_messages == before.commentary_messages
                && after.final_answers == before.final_answers + 1
            &&& turn && sample_at(last) is Some ==> after.assistant_phrase_samples
                == before.assistant_phrase_samples.push(sample_at(last)->0)
            &&& turn && sample_at(last) is None ==> after.assistant_phrase_samples
                == before.assistant_phrase_samples
        }),
{
    reveal_strlit("user");
    reveal_strlit("assistant");
    assert("user"@.len() != "assistant"@.len());
}

/// The messages of the assistant are the entries that count as such: each is commentary where its phase
/// says so, and else an answer. The phrase samples are those of these messages, in order.
pub proof fn law_assistant_messages(session: ThreadModel, items: Seq<RolloutItem>)
    ensures
        ({
            let m = analysis_of(session, items);
            let n = items.len();
            &&& m.assistant_messages == places(n, |i: int| assistant_turn(items, i)).len()
            &&& m.commentary_messages == places(
                n,
                |i: int|
                    assistant_turn(items, i) && phase_at(items[i]) == Some(
                        MessagePhase::Commentary,
                    ),
            ).len()
            &&& m.final_answers == places(
                n,
                |i: int|
                    assistant_turn(items, i) && phase_at(items[i]) != Some(
                        MessagePhase::Commentary,
                    ),
            ).len()
            &&& m.assistant_phrase_samples == places(
                n,
                |i: int| assistant_turn(items, i) && sample_at(items[i]) is Some,
            ).map_values(|i: int| sample_at(items[i])->0)
        }),
{
    lemma_assistant(session, items);
    let n = items.len();
    let a = |i: int| assistant_turn(items, i);
    let b = |i: int|
        assistant_turn(items, i) && phase_at(items[i]) == Some(MessagePhase::Commentary);
    let c = |i: int|
        assistant_turn(items, i) && phase_at(items[i]) != Some(MessagePhase::Commentary);
    let d = |i: int| assistant_turn(items, i) && sample_at(items[i]) is Some;
    lemma_places_same(n, a, heard(items));
    lemma_places_same(n, b, commented(items));
    lemma_places_same(n, c, answered(items));
    lemma_places_same(n, d, sampled(items));
}

/// What one entry does to what is known of the user.
proof fn lemma_user_step(before: SessionModel, last: RolloutItem, none_before: bool)
    requires
        before.user_messages == 0 <==> none_before,
    ensures
        ({
            let after = before.after_item(last);
            let turn = is_message_of(last, "user"@) || (is_user_event(last) && none_before);
            let unknown = "(no user preview recorded)"@;
            &&& turn ==> after.user_messages == before.user_messages + 1
            &&& !turn ==> after.user_messages == before.user_messages
            &&& turn && before.preview == unknown && words_at(last) is Some ==> after.preview
                == shortened(words_at(last)->0, 110)
            &&& !turn || before.preview != unknown || words_at(last) is None ==> after.preview
                == before.preview
            &&& after.created_at == before.created_at
            &&& after.cwd == before.cwd
        }),
{
}

proof fn lemma_user(session: ThreadModel, items: Seq<RolloutItem>)
    ensures
        ({
            let m = opened(session).after_items(items);
            let n = items.len();
            let unknown = "(no user preview recorded)"@;
            let first = places(n, said(items));
            &&& m.created_at == opened(session).created_at
            &&& m.cwd == opened(session).cwd
            &&& m.user_messages == places(n, asked(items)).len()
            &&& m.user_messages == 0 <==> forall|j: int|
                0 <= j < n ==> !is_message_of(#[trigger] items[j], "user"@) && !is_user_event(
                    items[j],
                )
            &&& opened(session).preview != unknown ==> m.preview == opened(session).preview
            &&& opened(session).preview == unknown && first.len() == 0 ==> m.preview == unknown
            &&& opened(session).preview == unknown && first.len() > 0 ==> m.preview == shortened(
                words_at(items[first[0]])->0,
                110,
            ) && m.preview != unknown
        }),
    decreases items.len(),
{
    let n = items.len();
    let m = opened(session).after_items(items);
    if n == 0 {
        lemma_places_next(0, asked(items));
        lemma_places_next(0, said(items));
    } else {
        let rest = items.drop_last();
        let k = (n - 1) as nat;
        let last = items[k as int];
        let before = opened(session).after_items(rest);
        lemma_user(session, rest);
        assert forall|i: int| 0 <= i < k implies user_turn(items, i) == user_turn(rest, i)
            && rest[i] == items[i] by {
            lemma_turns_kept(items, i);
        }
        assert forall|i: int| 0 <= i < k implies #[trigger] asked(items)(i) == asked(rest)(i) by {}
        assert forall|i: int| 0 <= i < k implies #[trigger] said(items)(i) == said(rest)(i) by {}
        lemma_places_same(k, asked(items), asked(rest));
        lemma_places_same(k, said(items), said(rest));
        lemma_places_next(k, asked(items));
        lemma_places_next(k, said(items));
        lemma_places_within(k, said(items));
        let none_before = forall|j: int|
            0 <= j < k ==> !is_message_of(#[trigger] rest[j], "user"@) && !is_user_event(rest[j]);
        assert(user_turn(items, k as int) <==> is_message_of(last, "user"@) || (is_user_event(last)
            && none_before)) by {
            assert forall|j: int| 0 <= j < k implies #[trigger] rest[j] == items[j] by {}
            if is_user_event(last) && none_before {
                assert forall|j: int| 0 <= j < k implies !is_message_of(
                    #[trigger] items[j],
                    "user"@,
                ) && !is_user_event(items[j]) by {
                    assert(rest[j] == items[j]);
                }
            }
        }
        lemma_user_step(before, last, none_before);
        if m.user_messages == 0 {
            assert forall|j: int| 0 <= j < n implies !is_message_of(#[trigger] items[j], "user"@)
                && !is_user_event(items[j]) by {
                if j < k {
                    assert(rest[j] == items[j]);
                }
            }
        }
        if (forall|j: int|
            0 <= j < n ==> !is_message_of(#[trigger] items[j], "user"@) && !is_user_event(
                items[j],
            )) {
            assert forall|j: int| 0 <= j < k implies !is_message_of(#[trigger] rest[j], "user"@)
                && !is_user_event(rest[j]) by {
                assert(rest[j] == items[j]);
            }
            assert(!is_message_of(items[k as int], "user"@));
        }
    }
}

/// The messages of the user are the entries that count as such.
pub proof fn law_user_messages(session: ThreadModel, items: Seq<RolloutItem>)
    ensures
        analysis_of(session, items).user_messages == places(
            items.len(),
            |i: int| user_turn(items, i),
        ).len(),
{
    lemma_user(session, items);
    lemma_places_same(items.len(), |i: int| user_turn(items, i), asked(items));
}

/// The preview is what the listing says the user asked first, shortened to 110 characters; where it says
/// nothing, it is what the user first said in the recording, shortened likewise; and where that is
/// nothing, it says so. (A text that reads like that last note counts as nothing.)
pub proof fn law_preview(session: ThreadModel, items: Seq<RolloutItem>)
    ensures
        ({
            let preview = analysis_of(session, items).preview;
            let unknown = "(no user preview recorded)"@;
            let listed = match session.first_user_message {
                Some(text) => shortened(text, 110),
                None => unknown,
            };
            let told = places(
                items.len(),
                |i: int|
                    user_turn(items, i) && words_at(items[i]) is Some && shortened(
                        words_at(items[i])->0,
                        110,
                    ) != unknown,
            );
            &&& listed != unknown ==> preview == listed
            &&& listed == unknown && told.len() == 0 ==> preview == unknown
            &&& listed == unknown && told.len() > 0 ==> preview == shortened(
                words_at(items[told[0]])->0,
                110,
            )
        }),
{
    lemma_user(session, items);
    lemma_places_same(
        items.len(),
        |i: int|
            user_turn(items, i) && words_at(items[i]) is Some && shortened(
                words_at(items[i])->0,
                110,
            ) != "(no user preview recorded)"@,
        said(items),
    );
}

/// The time and the working directory are those of the listing: no entry changes them. A directory is
/// shortened to 72 characters.
pub proof fn law_listed_fields(session: ThreadModel, items: Seq<RolloutItem>)
    ensures
        ({
            let m = analysis_of(session, items);
            &&& session.created_at is Some ==> m.created_at == session.created_at->0
            &&& session.created_at is None ==> m.created_at == "unknown time"@
            &&& session.cwd is Some ==> m.cwd == Some(shortened(lossy_text(session.cwd->0), 72))
            &&& session.cwd is None ==> m.cwd is None
        }),
{
    lemma_user(session, items);
}

} // verus!
