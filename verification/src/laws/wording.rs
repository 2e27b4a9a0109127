//! What the lines of the prompt say, and in what order they stand.
use crate::counts::{entries_text, section_lines, top, Counted};
use crate::digest::{digest_of, DigestModel};
use crate::laws::order::{law_stable_sort, picks};
use crate::prompt::{
    analyses, has_friction, instructions, lemma_rougher_compares, prompt_of, rougher, roughest,
    RecordedModel,
};
use crate::session::SessionModel;
use crate::text::{decimal, join, text_lt};
use vstd::prelude::*;

verus! {

// ---------------------------------------------------------------------------------------------
// The roughest sessions
// ---------------------------------------------------------------------------------------------
/// Where those that `keep` holds of stand first, filtering leaves a beginning.
proof fn lemma_filter_prefix<T>(s: Seq<T>, keep: spec_fn(T) -> bool)
    requires
        forall|i: int, j: int|
            0 <= i < j < s.len() && keep(#[trigger] s[j]) ==> keep(#[trigger] s[i]),
    ensures
        s.filter(keep).len() <= s.len(),
        s.filter(keep) == s.take(s.filter(keep).len() as int),
        forall|i: int| 0 <= i < s.len() ==> (keep(#[trigger] s[i]) <==> i < s.filter(keep).len()),
    decreases s.len(),
{
    reveal(Seq::filter);
    if s.len() == 0 {
        assert(s.filter(keep) =~= s.take(0));
    } else {
        let rest = s.drop_last();
        assert forall|i: int, j: int|
            0 <= i < j < rest.len() && keep(#[trigger] rest[j]) implies keep(#[trigger] rest[i]) by {
            assert(rest[i] == s[i] && rest[j] == s[j]);
        }
        lemma_filter_prefix(rest, keep);
        let n = rest.filter(keep).len();
        if keep(s.last()) {
            if n < rest.len() {
                assert(keep(s[n as int]));
                assert(rest[n as int] == s[n as int]);
            }
            assert(rest.take(n as int) =~= rest);
            assert(s.filter(keep) =~= s);
            assert(s.take(s.len() as int) =~= s);
            assert forall|i: int| 0 <= i < s.len() implies keep(#[trigger] s[i]) by {
                if i < rest.len() {
                    assert(rest[i] == s[i]);
                }
            }
        } else {
            assert(s.take(n as int) =~= rest.take(n as int));
            assert forall|i: int| 0 <= i < s.len() implies (keep(#[trigger] s[i]) <==> i < n) by {
                if i < rest.len() {
                    assert(rest[i] == s[i]);
                }
            }
        }
    }
}

/// Whether session `a`, at position `i`, is listed before session `b`, at position `j`: it has more
/// friction, or as much and more failed commands, or as many and an earlier time, or the same time and
/// stands first.
pub open spec fn listed_before(a: SessionModel, i: int, b: SessionModel, j: int) -> bool {
    ||| a.friction() > b.friction()
    ||| a.friction() == b.friction() && a.failed_exec_commands > b.failed_exec_commands
    ||| a.friction() == b.friction() && a.failed_exec_commands == b.failed_exec_commands && text_lt(
        a.created_at,
        b.created_at,
    )
    ||| a.friction() == b.friction() && a.failed_exec_commands == b.failed_exec_commands
        && a.created_at == b.created_at && i < j
}

/// The sessions that are listed for their friction: at most eight of those that had any, the highest
/// friction first; equal friction goes by failed commands, and then by time. One that had friction is left
/// out only where eight others come before it. The positions of the listed sessions are returned.
pub proof fn law_roughest_by_score(sessions: Seq<SessionModel>) -> (at: Seq<int>)
    ensures
        ({
            let r = roughest(sessions);
            &&& r.len() <= 8
            &&& at.len() == r.len()
            &&& picks(sessions, at)
            &&& forall|i: int|
                0 <= i < r.len() ==> #[trigger] r[i] == sessions[at[i]] && r[i].friction() > 0
            &&& forall|i: int, j: int|
                0 <= i < j < r.len() ==> {
                    &&& listed_before(#[trigger] r[i], at[i], #[trigger] r[j], at[j])
                    &&& r[i].friction() >= r[j].friction()
                }
            &&& forall|k: int|
                0 <= k < sessions.len() && (#[trigger] sessions[k]).friction() > 0 && !at.contains(k)
                    ==> {
                    &&& r.len() == 8
                    &&& forall|i: int|
                        0 <= i < r.len() ==> {
                            &&& listed_before(#[trigger] r[i], at[i], sessions[k], k)
                            &&& r[i].friction() >= sessions[k].friction()
                        }
                }
        }),
{
    let keep = has_friction();
    let r = roughest(sessions);
    lemma_rougher_compares();
    let all = law_stable_sort(sessions, rougher());
    let sorted = crate::order::stable_sort(sessions, rougher());
    assert forall|i: int, j: int|
        0 <= i < j < sorted.len() && keep(#[trigger] sorted[j]) implies keep(
        #[trigger] sorted[i],
    ) by {
        assert((rougher())(sessions[all[i]], sessions[all[j]]) || !(rougher())(
            sessions[all[j]],
            sessions[all[i]],
        ));
        assert(sorted[i] == sessions[all[i]] && sorted[j] == sessions[all[j]]);
    }
    lemma_filter_prefix(sorted, keep);
    let found = sorted.filter(keep);
    let n = r.len() as int;
    assert(r =~= sorted.take(n));
    let at = all.take(n);
    assert(picks(sessions, at)) by {
        assert forall|i: int| 0 <= i < at.len() implies 0 <= #[trigger] at[i] < sessions.len() by {
            assert(0 <= all[i] < sessions.len());
        }
        assert forall|i: int, j: int| 0 <= i < j < at.len() implies #[trigger] at[i]
            != #[trigger] at[j] by {
            assert(all[i] != all[j]);
        }
    }
    assert forall|i: int| 0 <= i < r.len() implies #[trigger] r[i] == sessions[at[i]]
        && r[i].friction() > 0 by {
        assert(r[i] == sorted[i]);
        assert(keep(sorted[i]));
    }
    assert forall|i: int, j: int| 0 <= i < j < sessions.len() implies listed_before(
        #[trigger] sorted[i],
        all[i],
        #[trigger] sorted[j],
        all[j],
    ) by {
        lemma_listed_before(sessions, all[i], all[j]);
        assert((rougher())(sessions[all[i]], sessions[all[j]]) || (!(rougher())(
            sessions[all[j]],
            sessions[all[i]],
        ) && all[i] < all[j]));
    }
    assert forall|i: int, j: int| 0 <= i < j < r.len() implies {
        &&& listed_before(#[trigger] r[i], at[i], #[trigger] r[j], at[j])
        &&& r[i].friction() >= r[j].friction()
    } by {
        assert(listed_before(sorted[i], all[i], sorted[j], all[j]));
    }
    assert forall|k: int|
        0 <= k < sessions.len() && (#[trigger] sessions[k]).friction() > 0 && !at.contains(
            k,
        ) implies {
        &&& r.len() == 8
        &&& forall|i: int|
            0 <= i < r.len() ==> {
                &&& listed_before(#[trigger] r[i], at[i], sessions[k], k)
                &&& r[i].friction() >= sessions[k].friction()
            }
    } by {
        assert(all.contains(k));
        let l = choose|l: int| 0 <= l < all.len() && all[l] == k;
        if l < n {
            assert(at[l] == k);
        }
        assert(sorted[l] == sessions[k]);
        assert(keep(sorted[l]));
        assert(l < found.len());
        assert forall|i: int| 0 <= i < r.len() implies {
            &&& listed_before(#[trigger] r[i], at[i], sessions[k], k)
            &&& r[i].friction() >= sessions[k].friction()
        } by {
            assert(r[i] == sorted[i]);
            assert(listed_before(sorted[i], all[i], sorted[l], all[l]));
        }
    }
    at
}

proof fn lemma_listed_before(sessions: Seq<SessionModel>, i: int, j: int)
    ensures
        (rougher())(sessions[i], sessions[j]) ==> listed_before(sessions[i], i, sessions[j], j),
        !(rougher())(sessions[j], sessions[i]) && i < j ==> listed_before(
            sessions[i],
            i,
            sessions[j],
            j,
        ),
{
    crate::text::lemma_text_lt_total(sessions[i].created_at, sessions[j].created_at);
}

// ---------------------------------------------------------------------------------------------
// Lines on sessions
// ---------------------------------------------------------------------------------------------
/// A text in a list of its own, or nothing where it is empty.
pub open spec fn unless_empty(label: Seq<char>, text: Seq<char>) -> Seq<Seq<char>> {
    if text.len() == 0 {
        Seq::empty()
    } else {
        seq![label + text]
    }
}

/// The summary of a session gives its time, its preview, its counts by name, and its working directory if
/// that is known, with bars between them.
pub proof fn law_summary_text(m: SessionModel)
    ensures
        ({
            let counts = join(
                seq![
                    "users "@ + decimal(m.user_messages),
                    "assistant "@ + decimal(m.assistant_messages),
                    "commentary "@ + decimal(m.commentary_messages),
                    "tools "@ + decimal(m.tool_calls),
                    "exec "@ + decimal(m.exec_commands),
                    "failed exec "@ + decimal(m.failed_exec_commands),
                    "approvals "@ + decimal(m.approvals),
                    "compactions "@ + decimal(m.compactions),
                ],
                ", "@,
            );
            &&& m.cwd is None ==> m.summary() == join(
                seq!["- "@ + m.created_at, m.preview, counts],
                " | "@,
            )
            &&& m.cwd is Some ==> m.summary() == join(
                seq!["- "@ + m.created_at, m.preview, counts, "cwd "@ + m.cwd->0],
                " | "@,
            )
        }),
{
    lemma_count_labels();
    let (bar, sep) = (" | "@, ", "@);
    let base = "- "@ + m.created_at + bar + m.preview;
    let head = base + bar;
    let first = "users "@ + decimal(m.user_messages);
    lemma_relabel(base, " | users "@, bar, "users "@, decimal(m.user_messages));
    lemma_one_joined(first, sep);
    let p0 = seq![first];
    let l0 = base + " | users "@ + decimal(m.user_messages);
    let p1 = p0.push("assistant "@ + decimal(m.assistant_messages));
    let l1 = l0 + ", assistant "@ + decimal(m.assistant_messages);
    lemma_line_more(
        l0,
        head,
        p0,
        ", assistant "@,
        sep,
        "assistant "@,
        decimal(m.assistant_messages),
    );
    let p2 = p1.push("commentary "@ + decimal(m.commentary_messages));
    let l2 = l1 + ", commentary "@ + decimal(m.commentary_messages);
    lemma_line_more(
        l1,
        head,
        p1,
        ", commentary "@,
        sep,
        "commentary "@,
        decimal(m.commentary_messages),
    );
    let p3 = p2.push("tools "@ + decimal(m.tool_calls));
    let l3 = l2 + ", tools "@ + decimal(m.tool_calls);
    lemma_line_more(
        l2,
        head,
        p2,
        ", tools "@,
        sep,
        "tools "@,
        decimal(m.tool_calls),
    );
    let p4 = p3.push("exec "@ + decimal(m.exec_commands));
    let l4 = l3 + ", exec "@ + decimal(m.exec_commands);
    lemma_line_more(
        l3,
        head,
        p3,
        ", exec "@,
        sep,
        "exec "@,
        decimal(m.exec_commands),
    );
    let p5 = p4.push("failed exec "@ + decimal(m.failed_exec_commands));
    let l5 = l4 + ", failed exec "@ + decimal(m.failed_exec_commands);
    lemma_line_more(
        l4,
        head,
        p4,
        ", failed exec "@,
        sep,
        "failed exec "@,
        decimal(m.failed_exec_commands),
    );
    let p6 = p5.push("approvals "@ + decimal(m.approvals));
    let l6 = l5 + ", approvals "@ + decimal(m.approvals);
    lemma_line_more(
        l5,
        head,
        p5,
        ", approvals "@,
        sep,
        "approvals "@,
        decimal(m.approvals),
    );
    let p7 = p6.push("compactions "@ + decimal(m.compactions));
    let l7 = l6 + ", compactions "@ + decimal(m.compactions);
    lemma_line_more(
        l6,
        head,
        p6,
        ", compactions "@,
        sep,
        "compactions "@,
        decimal(m.compactions),
    );
    let names = seq![
        "users "@ + decimal(m.user_messages),
        "assistant "@ + decimal(m.assistant_messages),
        "commentary "@ + decimal(m.commentary_messages),
        "tools "@ + decimal(m.tool_calls),
        "exec "@ + decimal(m.exec_commands),
        "failed exec "@ + decimal(m.failed_exec_commands),
        "approvals "@ + decimal(m.approvals),
        "compactions "@ + decimal(m.compactions),
    ];
    assert(p7 =~= names);
    lemma_summary_parts(m, names, l7);
}

/// The summary from its parts.
proof fn lemma_summary_parts(m: SessionModel, names: Seq<Seq<char>>, line: Seq<char>)
    requires
        line == "- "@ + m.created_at + " | "@ + m.preview + " | "@ + join(names, ", "@),
        m.cwd is None ==> m.summary() == line,
        m.cwd is Some ==> m.summary() == line + " | cwd "@ + m.cwd->0,
    ensures
        m.cwd is None ==> m.summary() == join(
            seq!["- "@ + m.created_at, m.preview, join(names, ", "@)],
            " | "@,
        ),
        m.cwd is Some ==> m.summary() == join(
            seq!["- "@ + m.created_at, m.preview, join(names, ", "@), "cwd "@ + m.cwd->0],
            " | "@,
        ),
{
    let bar = " | "@;
    let none = Seq::<char>::empty();
    let (a, b, c) = ("- "@ + m.created_at, m.preview, join(names, ", "@));
    lemma_count_labels();
    lemma_three_joined(a, b, c, bar);
    if let Some(cwd) = m.cwd {
        assert(none + line =~= line);
        lemma_line_more(line, none, seq![a, b, c], " | cwd "@, bar, "cwd "@, cwd);
        assert(seq![a, b, c].push("cwd "@ + cwd) =~= seq![a, b, c, "cwd "@ + cwd]);
        let all = join(seq![a, b, c, "cwd "@ + cwd], bar);
        assert(none + all =~= all);
    }
}

proof fn lemma_three_joined(a: Seq<char>, b: Seq<char>, c: Seq<char>, sep: Seq<char>)
    ensures
        join(seq![a, b, c], sep) == a + sep + b + sep + c,
{
    let p = seq![a, b, c];
    let q = p.drop_last();
    assert(q =~= seq![a, b]);
    let r = q.drop_last();
    assert(r =~= seq![a]);
    assert(join(r, sep) == a);
    assert(join(q, sep) == a + sep + b);
}

/// A label that begins with a separator, and then a text, is the separator and then a named text.
proof fn lemma_relabel(
    line: Seq<char>,
    label: Seq<char>,
    sep: Seq<char>,
    name: Seq<char>,
    text: Seq<char>,
)
    requires
        label == sep + name,
    ensures
        line + label + text == line + sep + (name + text),
{
    assert(line + label + text =~= line + sep + (name + text));
}

/// Behind the same beginning, one more part is joined.
proof fn lemma_join_more(head: Seq<char>, parts: Seq<Seq<char>>, sep: Seq<char>, part: Seq<char>)
    requires
        parts.len() > 0,
    ensures
        head + join(parts.push(part), sep) == head + join(parts, sep) + sep + part,
{
    let all = parts.push(part);
    assert(all.drop_last() =~= parts);
    assert(join(all, sep) == join(parts, sep) + sep + part);
    assert(head + (join(parts, sep) + sep + part) =~= head + join(parts, sep) + sep + part);
}

/// A line that goes on with a label and a text goes on with one more joined part.
proof fn lemma_line_more(
    line: Seq<char>,
    head: Seq<char>,
    parts: Seq<Seq<char>>,
    label: Seq<char>,
    sep: Seq<char>,
    name: Seq<char>,
    text: Seq<char>,
)
    requires
        parts.len() > 0,
        line == head + join(parts, sep),
        label == sep + name,
    ensures
        line + label + text == head + join(parts.push(name + text), sep),
{
    lemma_relabel(line, label, sep, name, text);
    lemma_join_more(head, parts, sep, name + text);
}

proof fn lemma_one_joined(part: Seq<char>, sep: Seq<char>)
    ensures
        join(seq![part], sep) == part,
{
}

proof fn lemma_count_labels()
    ensures
        " | users "@ == " | "@ + "users "@,
        ", assistant "@ == ", "@ + "assistant "@,
        ", commentary "@ == ", "@ + "commentary "@,
        ", tools "@ == ", "@ + "tools "@,
        ", exec "@ == ", "@ + "exec "@,
        ", failed exec "@ == ", "@ + "failed exec "@,
        ", approvals "@ == ", "@ + "approvals "@,
        ", compactions "@ == ", "@ + "compactions "@,
        " | cwd "@ == " | "@ + "cwd "@,
        " | top tools: "@ == " | "@ + "top tools: "@,
        " | failed commands: "@ == " | "@ + "failed commands: "@,
{
    reveal_strlit(" | ");
    reveal_strlit(", ");
    assert(" | users "@ =~= " | "@ + "users "@) by {
        reveal_strlit(" | users ");
        reveal_strlit("users ");
    }
    assert(", assistant "@ =~= ", "@ + "assistant "@) by {
        reveal_strlit(", assistant ");
        reveal_strlit("assistant ");
    }
    assert(", commentary "@ =~= ", "@ + "commentary "@) by {
        reveal_strlit(", commentary ");
        reveal_strlit("commentary ");
    }
    assert(", tools "@ =~= ", "@ + "tools "@) by {
        reveal_strlit(", tools ");
        reveal_strlit("tools ");
    }
    assert(", exec "@ =~= ", "@ + "exec "@) by {
        reveal_strlit(", exec ");
        reveal_strlit("exec ");
    }
    assert(", failed exec "@ =~= ", "@ + "failed exec "@) by {
        reveal_strlit(", failed exec ");
        reveal_strlit("failed exec ");
    }
    assert(", approvals "@ =~= ", "@ + "approvals "@) by {
        reveal_strlit(", approvals ");
        reveal_strlit("approvals ");
    }
    assert(", compactions "@ =~= ", "@ + "compactions "@) by {
        reveal_strlit(", compactions ");
        reveal_strlit("compactions ");
    }
    assert(" | cwd "@ =~= " | "@ + "cwd "@) by {
        reveal_strlit(" | cwd ");
        reveal_strlit("cwd ");
    }
    assert(" | top tools: "@ =~= " | "@ + "top tools: "@) by {
        reveal_strlit(" | top tools: ");
        reveal_strlit("top tools: ");
    }
    assert(" | failed commands: "@ =~= " | "@ + "failed commands: "@) by {
        reveal_strlit(" | failed commands: ");
        reveal_strlit("failed commands: ");
    }
}

/// The reasons for the friction of a session are the signs of trouble that it had, each with its number;
/// where it had none of these, it is the number of its commands, if there is any.
pub proof fn law_reasons(m: SessionModel)
    ensures
        ({
            let signs = seq![
                ("failed exec "@, m.failed_exec_commands),
                ("stream errors "@, m.stream_errors),
                ("turn aborts "@, m.turn_aborts),
                ("approvals "@, m.approvals),
            ];
            let seen = signs.filter(|p: Counted| p.1 > 0);
            &&& seen.len() > 0 ==> m.reasons() == seen.map_values(|p: Counted| p.0 + decimal(p.1))
            &&& seen.len() == 0 && m.exec_commands > 0 ==> m.reasons() == seq![
                "exec commands "@ + decimal(m.exec_commands),
            ]
            &&& seen.len() == 0 && m.exec_commands == 0 ==> m.reasons() == Seq::<Seq<char>>::empty()
        }),
{
    let signs = seq![
        ("failed exec "@, m.failed_exec_commands),
        ("stream errors "@, m.stream_errors),
        ("turn aborts "@, m.turn_aborts),
        ("approvals "@, m.approvals),
    ];
    let keep = |p: Counted| p.1 > 0;
    let text = |p: Counted| p.0 + decimal(p.1);
    reveal(Seq::filter);
    let a = signs.drop_last();
    let b = a.drop_last();
    let c = b.drop_last();
    let d = c.drop_last();
    assert(d.filter(keep) =~= Seq::<Counted>::empty());
    let (w, x, y, z) = (
        crate::session::signal(signs[0].0, signs[0].1),
        crate::session::signal(signs[1].0, signs[1].1),
        crate::session::signal(signs[2].0, signs[2].1),
        crate::session::signal(signs[3].0, signs[3].1),
    );
    assert(c.last() == signs[0] && b.last() == signs[1] && a.last() == signs[2]);
    assert(c.filter(keep).map_values(text) =~= w);
    assert(b.filter(keep).map_values(text) =~= w + x);
    assert(a.filter(keep).map_values(text) =~= w + x + y);
    assert(signs.filter(keep).map_values(text) =~= w + x + y + z);
}

/// The line on the friction of a session gives its score, its time, its preview and its reasons, and, as
/// far as there are any, the three tools that it called most and the two commands that failed most, with
/// bars between them.
pub proof fn law_friction_text(m: SessionModel)
    ensures
        m.friction_text() == join(
            seq![
                "- score "@ + decimal(m.friction()),
                m.created_at,
                m.preview,
                join(m.reasons(), ", "@),
            ] + unless_empty("top tools: "@, entries_text(top(m.tool_counts, 3))) + unless_empty(
                "failed commands: "@,
                entries_text(top(m.failed_command_counts, 2)),
            ),
            " | "@,
        ),
{
    let sep = " | "@;
    let tools = unless_empty("top tools: "@, entries_text(top(m.tool_counts, 3)));
    let failed = unless_empty(
        "failed commands: "@,
        entries_text(top(m.failed_command_counts, 2)),
    );
    let parts = seq![
        "- score "@ + decimal(m.friction()),
        m.created_at,
        m.preview,
        join(m.reasons(), ", "@),
    ];
    lemma_count_labels();
    assert(parts.drop_last() =~= seq![parts[0], parts[1], parts[2]]);
    lemma_three_joined(parts[0], parts[1], parts[2], sep);
    let head = "- score "@ + decimal(m.friction()) + sep + m.created_at + sep + m.preview + sep
        + join(m.reasons(), ", "@);
    assert(join(parts, sep) == head);
    let some = parts + tools;
    let more = head + crate::session::labelled(
        " | top tools: "@,
        entries_text(top(m.tool_counts, 3)),
    );
    if tools.len() == 0 {
        assert(some =~= parts);
        assert(more =~= head);
    } else {
        assert(some.drop_last() =~= parts);
        assert(join(some, sep) =~= more);
    }
    assert(join(some, sep) == more);
    let full = some + failed;
    if failed.len() == 0 {
        assert(full =~= some);
        assert(m.friction_text() =~= more);
    } else {
        assert(full.drop_last() =~= some);
        assert(join(full, sep) =~= m.friction_text());
    }
}

// ---------------------------------------------------------------------------------------------
// Sections
// ---------------------------------------------------------------------------------------------
/// The opening line gives the number of sessions; all other instructions are always the same.
pub proof fn law_instructions(n: nat, m: nat)
    ensures
        instructions(n).len() == 17,
        instructions(n)[0] == "Analyze this digest of my last "@ + decimal(n)
            + " interactive Codex sessions and tell me how Codex should improve."@,
        forall|i: int| 0 < i < 17 ==> #[trigger] instructions(n)[i] == instructions(m)[i],
{
}

/// The statistics give the totals of the digest under their names, and a note where fewer sessions were
/// found than asked for.
pub proof fn law_statistics(d: DigestModel, requested_limit: nat)
    ensures
        ({
            let lines = d.statistics(requested_limit);
            let n = d.sessions.len();
            &&& lines.len() == if n < requested_limit {
                5nat
            } else {
                4
            }
            &&& lines[0] == "- Sessions analyzed: "@ + decimal(n)
            &&& lines[1] == "- Messages: "@ + join(
                seq![
                    "user "@ + decimal(d.total_user_messages),
                    "assistant "@ + decimal(d.total_assistant_messages),
                    "commentary "@ + decimal(d.total_commentary_messages),
                    "final answers "@ + decimal(d.total_final_answers),
                ],
                ", "@,
            )
            &&& lines[2] == "- Workload: "@ + join(
                seq![
                    "tool calls "@ + decimal(d.total_tool_calls),
                    "exec commands "@ + decimal(d.total_exec_commands),
                    "failed exec commands "@ + decimal(d.total_failed_exec_commands),
                ],
                ", "@,
            )
            &&& lines[3] == "- Friction signals: "@ + join(
                seq![
                    "stream errors "@ + decimal(d.total_stream_errors),
                    "turn aborts "@ + decimal(d.total_turn_aborts),
                    "approvals "@ + decimal(d.total_approvals),
                    "compactions "@ + decimal(d.total_compactions),
                ],
                ", "@,
            )
            &&& n < requested_limit ==> lines[4] == "- Sample size note: only "@ + decimal(n)
                + " earlier sessions were available."@
        }),
{
    let lines = d.statistics(requested_limit);
    let sep = ", "@;
    let messages = seq![
        "user "@ + decimal(d.total_user_messages),
        "assistant "@ + decimal(d.total_assistant_messages),
        "commentary "@ + decimal(d.total_commentary_messages),
        "final answers "@ + decimal(d.total_final_answers),
    ];
    let work = seq![
        "tool calls "@ + decimal(d.total_tool_calls),
        "exec commands "@ + decimal(d.total_exec_commands),
        "failed exec commands "@ + decimal(d.total_failed_exec_commands),
    ];
    let signals = seq![
        "stream errors "@ + decimal(d.total_stream_errors),
        "turn aborts "@ + decimal(d.total_turn_aborts),
        "approvals "@ + decimal(d.total_approvals),
        "compactions "@ + decimal(d.total_compactions),
    ];
    lemma_count_labels();
    lemma_total_labels();
    assert(lines[1] == "- Messages: "@ + join(messages, sep)) by {
        let head = "- Messages: "@;
        let p0 = seq!["user "@ + decimal(d.total_user_messages)];
        let l0 = "- Messages: user "@ + decimal(d.total_user_messages);
        lemma_one_joined(p0[0], sep);
        assert(l0 =~= head + p0[0]);
        let p1 = p0.push("assistant "@ + decimal(d.total_assistant_messages));
        let l1 = l0 + ", assistant "@ + decimal(d.total_assistant_messages);
        lemma_line_more(l0, head, p0, ", assistant "@, sep, "assistant "@, decimal(d.total_assistant_messages));
        let p2 = p1.push("commentary "@ + decimal(d.total_commentary_messages));
        let l2 = l1 + ", commentary "@ + decimal(d.total_commentary_messages);
        lemma_line_more(l1, head, p1, ", commentary "@, sep, "commentary "@, decimal(d.total_commentary_messages));
        let p3 = p2.push("final answers "@ + decimal(d.total_final_answers));
        let l3 = l2 + ", final answers "@ + decimal(d.total_final_answers);
        lemma_line_more(l2, head, p2, ", final answers "@, sep, "final answers "@, decimal(d.total_final_answers));
        assert(p3 =~= messages);
        assert(lines[1] == l3);
    }
    assert(lines[2] == "- Workload: "@ + join(work, sep)) by {
        let head = "- Workload: "@;
        let p0 = seq!["tool calls "@ + decimal(d.total_tool_calls)];
        let l0 = "- Workload: tool calls "@ + decimal(d.total_tool_calls);
        lemma_one_joined(p0[0], sep);
        assert(l0 =~= head + p0[0]);
        let p1 = p0.push("exec commands "@ + decimal(d.total_exec_commands));
        let l1 = l0 + ", exec commands "@ + decimal(d.total_exec_commands);
        lemma_line_more(l0, head, p0, ", exec commands "@, sep, "exec commands "@, decimal(d.total_exec_commands));
        let p2 = p1.push("failed exec commands "@ + decimal(d.total_failed_exec_commands));
        let l2 = l1 + ", failed exec commands "@ + decimal(d.total_failed_exec_commands);
        lemma_line_more(l1, head, p1, ", failed exec commands "@, sep, "failed exec commands "@, decimal(d.total_failed_exec_commands));
        assert(p2 =~= work);
        assert(lines[2] == l2);
    }
    assert(lines[3] == "- Friction signals: "@ + join(signals, sep)) by {
        let head = "- Friction signals: "@;
        let p0 = seq!["stream errors "@ + decimal(d.total_stream_errors)];
        let l0 = "- Friction signals: stream errors "@ + decimal(d.total_stream_errors);
        lemma_one_joined(p0[0], sep);
        assert(l0 =~= head + p0[0]);
        let p1 = p0.push("turn aborts "@ + decimal(d.total_turn_aborts));
        let l1 = l0 + ", turn aborts "@ + decimal(d.total_turn_aborts);
        lemma_line_more(l0, head, p0, ", turn aborts "@, sep, "turn aborts "@, decimal(d.total_turn_aborts));
        let p2 = p1.push("approvals "@ + decimal(d.total_approvals));
        let l2 = l1 + ", approvals "@ + decimal(d.total_approvals);
        lemma_line_more(l1, head, p1, ", approvals "@, sep, "approvals "@, decimal(d.total_approvals));
        let p3 = p2.push("compactions "@ + decimal(d.total_compactions));
        let l3 = l2 + ", compactions "@ + decimal(d.total_compactions);
        lemma_line_more(l2, head, p2, ", compactions "@, sep, "compactions "@, decimal(d.total_compactions));
        assert(p3 =~= signals);
        assert(lines[3] == l3);
    }
}

proof fn lemma_total_labels()
    ensures
        "- Messages: user "@ == "- Messages: "@ + "user "@,
        ", final answers "@ == ", "@ + "final answers "@,
        "- Workload: tool calls "@ == "- Workload: "@ + "tool calls "@,
        ", exec commands "@ == ", "@ + "exec commands "@,
        ", failed exec commands "@ == ", "@ + "failed exec commands "@,
        "- Friction signals: stream errors "@ == "- Friction signals: "@ + "stream errors "@,
        ", turn aborts "@ == ", "@ + "turn aborts "@,
{
    reveal_strlit(", ");
    assert("- Messages: user "@ =~= "- Messages: "@ + "user "@) by {
        reveal_strlit("- Messages: user ");
        reveal_strlit("- Messages: ");
        reveal_strlit("user ");
    }
    assert(", final answers "@ =~= ", "@ + "final answers "@) by {
        reveal_strlit(", final answers ");
        reveal_strlit("final answers ");
    }
    assert("- Workload: tool calls "@ =~= "- Workload: "@ + "tool calls "@) by {
        reveal_strlit("- Workload: tool calls ");
        reveal_strlit("- Workload: ");
        reveal_strlit("tool calls ");
    }
    assert(", exec commands "@ =~= ", "@ + "exec commands "@) by {
        reveal_strlit(", exec commands ");
        reveal_strlit("exec commands ");
    }
    assert(", failed exec commands "@ =~= ", "@ + "failed exec commands "@) by {
        reveal_strlit(", failed exec commands ");
        reveal_strlit("failed exec commands ");
    }
    assert("- Friction signals: stream errors "@ =~= "- Friction signals: "@ + "stream errors "@) by {
        reveal_strlit("- Friction signals: stream errors ");
        reveal_strlit("- Friction signals: ");
        reveal_strlit("stream errors ");
    }
    assert(", turn aborts "@ =~= ", "@ + "turn aborts "@) by {
        reveal_strlit(", turn aborts ");
        reveal_strlit("turn aborts ");
    }
}

/// Each repeated phrase, each of the roughest sessions and each session has its own line, in order; where
/// there is no repeated phrase, or no session had friction, one line says so.
pub proof fn law_listed_lines(d: DigestModel)
    ensures
        d.repeated_phrases.len() == 0 ==> d.phrase_lines() == seq![
            "- No strongly repeated assistant phrasing was detected in the local digest."@,
        ],
        d.repeated_phrases.len() > 0 ==> d.phrase_lines().len() == d.repeated_phrases.len(),
        forall|i: int|
            0 <= i < d.repeated_phrases.len() ==> #[trigger] d.phrase_lines()[i] == "- "@
                + d.repeated_phrases[i].0 + " (seen "@ + decimal(d.repeated_phrases[i].1)
                + " times)"@,
        roughest(d.sessions).len() == 0 ==> d.friction_lines() == seq![
            "- No strong friction signal stood out in the sampled sessions."@,
        ],
        roughest(d.sessions).len() > 0 ==> d.friction_lines().len() == roughest(d.sessions).len(),
        forall|i: int|
            0 <= i < roughest(d.sessions).len() ==> #[trigger] d.friction_lines()[i] == roughest(
                d.sessions,
            )[i].friction_text(),
        d.summary_lines().len() == d.sessions.len(),
        forall|i: int|
            0 <= i < d.sessions.len() ==> #[trigger] d.summary_lines()[i]
                == d.sessions[i].summary(),
{
}

/// Lines with a blank line and a title before them.
pub open spec fn titled(title: Seq<char>, lines: Seq<Seq<char>>) -> Seq<Seq<char>> {
    seq![Seq::empty(), title] + lines
}

/// The prompt is the instructions and then eight sections, in this order, each with a blank line and its
/// title before it; its lines are joined by line breaks.
pub proof fn law_layout(d: DigestModel, requested_limit: nat)
    ensures
        d.prompt(requested_limit) == join(d.prompt_lines(requested_limit), "\n"@),
        d.prompt_lines(requested_limit) == instructions(d.sessions.len()) + titled(
            "## Aggregate stats"@,
            d.statistics(requested_limit),
        ) + titled("## Most used tools"@, section_lines(d.top_tools)) + titled(
            "## Most used shell commands"@,
            section_lines(d.top_commands),
        ) + titled("## Most failed shell commands"@, section_lines(d.top_failed_commands)) + titled(
            "## Common working directories"@,
            section_lines(d.top_cwds),
        ) + titled("## Repeated assistant phrases"@, d.phrase_lines()) + titled(
            "## Highest-friction sessions"@,
            d.friction_lines(),
        ) + titled("## Session summaries"@, d.summary_lines()),
{
}

/// Without a session there is no prompt, nor where no recording could be read, and the errors say which;
/// in every other case the prompt is that of the digest of the sessions that could be read.
pub proof fn law_outcome(recorded: Seq<RecordedModel>, limit: nat)
    ensures
        recorded.len() == 0 ==> prompt_of(recorded, limit) == Err::<Seq<char>, Seq<char>>(
            "No previous interactive sessions were found to analyze."@,
        ),
        recorded.len() > 0 && (forall|i: int|
            0 <= i < recorded.len() ==> (#[trigger] recorded[i]).items is None) ==> prompt_of(
            recorded,
            limit,
        ) == Err::<Seq<char>, Seq<char>>("Unable to read any previous interactive sessions."@),
        (exists|i: int| 0 <= i < recorded.len() && (#[trigger] recorded[i]).items is Some)
            ==> prompt_of(recorded, limit) == Ok::<Seq<char>, Seq<char>>(
            digest_of(analyses(recorded)).prompt(limit),
        ),
{
    crate::laws::prompt::law_prompt_exists(recorded, limit);
    if recorded.len() > 0 && (forall|i: int|
        0 <= i < recorded.len() ==> (#[trigger] recorded[i]).items is None) {
        assert(!(prompt_of(recorded, limit) is Ok));
    }
}

} // verus!
