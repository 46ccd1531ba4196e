//! Whole sessions: the actions that a sequence of events draws from a
//! session, and what holds of every such run.
use vstd::prelude::*;
use crate::codec::base64_decoded;
use crate::frame::{branch_code_of, payload_text_of, TILDE};
use crate::session::{
    ack_bytes, initial, received, step_spec, ActionView, EventView, Failure, SessionView, Stage,
};

verus! {

/// The state reached and the actions answered when `events` are fed to a
/// session in state `s`, one step each.
pub open spec fn run(s: SessionView, events: Seq<EventView>) -> (SessionView, Seq<ActionView>)
    decreases events.len(),
{
    if events.len() == 0 {
        (s, Seq::empty())
    } else {
        let first = step_spec(s, events[0]);
        let rest = run(first.0, events.drop_first());
        (rest.0, seq![first.1] + rest.1)
    }
}

/// The bytes that `actions` write to the connection, in order.
pub open spec fn sent_bytes(actions: Seq<ActionView>) -> Seq<u8>
    decreases actions.len(),
{
    if actions.len() == 0 {
        Seq::empty()
    } else {
        let head = if actions[0] is SendOk {
            ack_bytes()
        } else {
            Seq::empty()
        };
        head + sent_bytes(actions.drop_first())
    }
}

/// The state that a new session reaches on `events`.
pub open spec fn outcome(events: Seq<EventView>) -> SessionView {
    run(initial(), events).0
}

/// The actions that a new session answers to `events`.
pub open spec fn actions_of(events: Seq<EventView>) -> Seq<ActionView> {
    run(initial(), events).1
}

proof fn lemma_sent_bytes_cons(a: ActionView, rest: Seq<ActionView>)
    ensures
        sent_bytes(seq![a] + rest) == (if a is SendOk {
            ack_bytes()
        } else {
            Seq::empty()
        }) + sent_bytes(rest),
{
    assert((seq![a] + rest).drop_first() =~= rest);
}

proof fn lemma_run_cons(s: SessionView, e: EventView, rest: Seq<EventView>)
    ensures
        run(s, seq![e] + rest) == (
            run(step_spec(s, e).0, rest).0,
            seq![step_spec(s, e).1] + run(step_spec(s, e).0, rest).1,
        ),
{
    assert((seq![e] + rest).drop_first() =~= rest);
}

/// A stopped session stays stopped, answers only `Abort` and sends nothing.
pub proof fn lemma_aborted_stays(s: SessionView, events: Seq<EventView>)
    requires
        s.stage is Aborted,
    ensures
        run(s, events).0 == s,
        forall|i: int|
            0 <= i < run(s, events).1.len() ==> #[trigger] run(s, events).1[i] == ActionView::Abort(
                s.stage->Aborted_0,
            ),
        sent_bytes(run(s, events).1) == Seq::<u8>::empty(),
    decreases events.len(),
{
    if events.len() > 0 {
        lemma_aborted_stays(s, events.drop_first());
        lemma_sent_bytes_cons(ActionView::Abort(s.stage->Aborted_0), run(s, events.drop_first()).1);
        assert(Seq::<u8>::empty() + Seq::<u8>::empty() =~= Seq::<u8>::empty());
    }
}

/// A completed session stays completed, answers only `Finish` and sends nothing.
pub proof fn lemma_done_stays(s: SessionView, events: Seq<EventView>)
    requires
        s.stage is Done,
    ensures
        run(s, events).0 == s,
        forall|i: int|
            0 <= i < run(s, events).1.len() ==> #[trigger] run(s, events).1[i] == ActionView::Finish,
        sent_bytes(run(s, events).1) == Seq::<u8>::empty(),
    decreases events.len(),
{
    if events.len() > 0 {
        lemma_done_stays(s, events.drop_first());
        lemma_sent_bytes_cons(ActionView::Finish, run(s, events.drop_first()).1);
        assert(Seq::<u8>::empty() + Seq::<u8>::empty() =~= Seq::<u8>::empty());
    }
}

/// The runs that complete: every session that reaches `Done` received an
/// identification frame that names a branch, had that branch's directory
/// ensured, acknowledged, received a valid Base64 payload, had the decoded
/// report written for that branch, and acknowledged again; every later event
/// is answered with `Finish`. All it wrote to the connection is `OK` twice.
pub proof fn lemma_completed_run(events: Seq<EventView>)
    requires
        outcome(events).stage is Done,
    ensures
        events.len() >= 6,
        events[0] is Received,
        events[0]->Received_0.len() > 0,
        branch_code_of(received(events[0]->Received_0)) == Some(outcome(events).branch),
        events[1] == EventView::BranchReady,
        events[2] == EventView::OkSent,
        events[3] is Received,
        events[3]->Received_0.len() > 0,
        base64_decoded(payload_text_of(received(events[3]->Received_0))) is Some,
        events[4] == EventView::ReportWritten,
        events[5] == EventView::OkSent,
        actions_of(events).len() == events.len(),
        actions_of(events)[0] == ActionView::EnsureBranch(outcome(events).branch),
        actions_of(events)[1] == ActionView::SendOk,
        actions_of(events)[2] == ActionView::Receive,
        actions_of(events)[3] == (ActionView::WriteReport {
            branch: outcome(events).branch,
            report: base64_decoded(payload_text_of(received(events[3]->Received_0)))->Some_0,
        }),
        actions_of(events)[4] == ActionView::SendOk,
        actions_of(events)[5] == ActionView::Finish,
        sent_bytes(actions_of(events)) == ack_bytes() + ack_bytes(),
{
    let s0 = initial();
    let es = events;
    // Each stage either moves on, on the one event it waits for, or stops for
    // good; a run that ends in `Done` therefore took every move in turn.
    assert(es.len() > 0);
    let e0 = es[0];
    let (s1, a0) = step_spec(s0, e0);
    if s1.stage is Aborted {
        lemma_aborted_stays(s1, es.drop_first());
    }
    assert(s1.stage == Stage::EnsureBranch);
    let es1 = es.drop_first();
    assert(run(s1, es1).0 == run(s0, es).0);
    assert(es1.len() > 0);
    let (s2, a1) = step_spec(s1, es1[0]);
    if s2.stage is Aborted {
        lemma_aborted_stays(s2, es1.drop_first());
    }
    assert(s2.stage == Stage::AckIdent);
    let es2 = es1.drop_first();
    assert(run(s2, es2).0 == run(s1, es1).0);
    assert(es2.len() > 0);
    let (s3, a2) = step_spec(s2, es2[0]);
    if s3.stage is Aborted {
        lemma_aborted_stays(s3, es2.drop_first());
    }
    assert(s3.stage == Stage::AwaitPayload);
    let es3 = es2.drop_first();
    assert(run(s3, es3).0 == run(s2, es2).0);
    assert(es3.len() > 0);
    let (s4, a3) = step_spec(s3, es3[0]);
    if s4.stage is Aborted {
        lemma_aborted_stays(s4, es3.drop_first());
    }
    assert(s4.stage == Stage::WriteReport);
    let es4 = es3.drop_first();
    assert(run(s4, es4).0 == run(s3, es3).0);
    assert(es4.len() > 0);
    let (s5, a4) = step_spec(s4, es4[0]);
    if s5.stage is Aborted {
        lemma_aborted_stays(s5, es4.drop_first());
    }
    assert(s5.stage == Stage::AckDone);
    let es5 = es4.drop_first();
    assert(run(s5, es5).0 == run(s4, es4).0);
    assert(es5.len() > 0);
    let (s6, a5) = step_spec(s5, es5[0]);
    if s6.stage is Aborted {
        lemma_aborted_stays(s6, es5.drop_first());
    }
    assert(s6.stage == Stage::Done);
    let es6 = es5.drop_first();
    assert(run(s6, es6).0 == run(s5, es5).0);
    lemma_done_stays(s6, es6);
    let tail = run(s6, es6).1;
    assert(tail.len() == es6.len()) by {
        lemma_run_len(s6, es6);
    }
    lemma_run_len(s0, events);
    lemma_sent_bytes_cons(a5, tail);
    lemma_sent_bytes_cons(a4, seq![a5] + tail);
    lemma_sent_bytes_cons(a3, seq![a4, a5] + tail);
    lemma_sent_bytes_cons(a2, seq![a3, a4, a5] + tail);
    lemma_sent_bytes_cons(a1, seq![a2, a3, a4, a5] + tail);
    lemma_sent_bytes_cons(a0, seq![a1, a2, a3, a4, a5] + tail);
    assert(seq![a4] + (seq![a5] + tail) =~= seq![a4, a5] + tail);
    assert(seq![a3] + (seq![a4, a5] + tail) =~= seq![a3, a4, a5] + tail);
    assert(seq![a2] + (seq![a3, a4, a5] + tail) =~= seq![a2, a3, a4, a5] + tail);
    assert(seq![a1] + (seq![a2, a3, a4, a5] + tail) =~= seq![a1, a2, a3, a4, a5] + tail);
    assert(seq![a0] + (seq![a1, a2, a3, a4, a5] + tail) =~= seq![a0, a1, a2, a3, a4, a5] + tail);
    assert(actions_of(events) == seq![a0, a1, a2, a3, a4, a5] + tail);
    assert(Seq::<u8>::empty() + (ack_bytes() + Seq::<u8>::empty()) =~= ack_bytes());
    assert(ack_bytes() + Seq::<u8>::empty() =~= ack_bytes());
    assert(Seq::<u8>::empty() + ack_bytes() =~= ack_bytes());
}

/// A run answers one action to each event.
pub proof fn lemma_run_len(s: SessionView, events: Seq<EventView>)
    ensures
        run(s, events).1.len() == events.len(),
    decreases events.len(),
{
    if events.len() > 0 {
        lemma_run_len(step_spec(s, events[0]).0, events.drop_first());
    }
}

/// An identification frame without `~` names no branch: the session creates
/// no directory, writes no report, sends nothing and stops, whatever follows.
pub proof fn lemma_ident_without_tilde(frame: Seq<u8>, rest: Seq<EventView>)
    requires
        forall|i: int| 0 <= i < frame.len() ==> frame[i] != TILDE,
    ensures
        outcome(seq![EventView::Received(frame)] + rest).stage is Aborted,
        actions_of(seq![EventView::Received(frame)] + rest)[0] is Abort,
        forall|i: int|
            0 <= i < actions_of(seq![EventView::Received(frame)] + rest).len() ==> {
                let a = #[trigger] actions_of(seq![EventView::Received(frame)] + rest)[i];
                &&& a !is EnsureBranch
                &&& a !is WriteReport
                &&& a !is SendOk
            },
        sent_bytes(actions_of(seq![EventView::Received(frame)] + rest)) == Seq::<u8>::empty(),
{
    let e = EventView::Received(frame);
    let r = received(frame);
    assert forall|i: int| 0 <= i < r.len() implies r[i] != TILDE by {
        assert(r[i] == frame[i]);
    }
    crate::frame::lemma_split_without_tilde(r);
    let (s1, a0) = step_spec(initial(), e);
    assert(s1.stage is Aborted);
    lemma_run_cons(initial(), e, rest);
    lemma_aborted_stays(s1, rest);
    lemma_sent_bytes_cons(a0, run(s1, rest).1);
    assert(Seq::<u8>::empty() + Seq::<u8>::empty() =~= Seq::<u8>::empty());
    let acts = actions_of(seq![e] + rest);
    assert forall|i: int| 0 <= i < acts.len() implies #[trigger] acts[i] is Abort by {
        if i > 0 {
            assert(acts[i] == run(s1, rest).1[i - 1]);
        }
    }
}

/// A payload that is not valid Base64, after an identification frame that
/// names a branch: the branch directory is ensured and acknowledged once, no
/// report is written, and no second `OK` follows, whatever follows.
pub proof fn lemma_invalid_payload(ident: Seq<u8>, payload: Seq<u8>, rest: Seq<EventView>)
    requires
        ident.len() > 0,
        branch_code_of(received(ident)) is Some,
        base64_decoded(payload_text_of(received(payload))) is None,
    ensures
        ({
            let events = seq![
                EventView::Received(ident),
                EventView::BranchReady,
                EventView::OkSent,
                EventView::Received(payload),
            ] + rest;
            &&& actions_of(events)[0] == ActionView::EnsureBranch(
                branch_code_of(received(ident))->Some_0,
            )
            &&& actions_of(events)[1] == ActionView::SendOk
            &&& forall|i: int|
                0 <= i < actions_of(events).len() ==> #[trigger] actions_of(events)[i] !is WriteReport
            &&& sent_bytes(actions_of(events)) == ack_bytes()
            &&& payload.len() > 0 ==> outcome(events).stage == Stage::Aborted(
                Failure::InvalidPayload,
            )
        }),
{
    let e0 = EventView::Received(ident);
    let e1 = EventView::BranchReady;
    let e2 = EventView::OkSent;
    let e3 = EventView::Received(payload);
    let events = seq![e0, e1, e2, e3] + rest;
    assert(events =~= seq![e0] + (seq![e1] + (seq![e2] + (seq![e3] + rest))));
    let s0 = initial();
    let (s1, a0) = step_spec(s0, e0);
    let (s2, a1) = step_spec(s1, e1);
    let (s3, a2) = step_spec(s2, e2);
    let (s4, a3) = step_spec(s3, e3);
    assert(s4.stage is Aborted);
    lemma_run_cons(s0, e0, seq![e1] + (seq![e2] + (seq![e3] + rest)));
    lemma_run_cons(s1, e1, seq![e2] + (seq![e3] + rest));
    lemma_run_cons(s2, e2, seq![e3] + rest);
    lemma_run_cons(s3, e3, rest);
    lemma_aborted_stays(s4, rest);
    let tail = run(s4, rest).1;
    let acts = actions_of(events);
    assert(acts =~= seq![a0, a1, a2, a3] + tail);
    assert forall|i: int| 0 <= i < acts.len() implies #[trigger] acts[i] !is WriteReport by {
        if i >= 4 {
            assert(acts[i] == tail[i - 4]);
        }
    }
    lemma_sent_bytes_cons(a3, tail);
    lemma_sent_bytes_cons(a2, seq![a3] + tail);
    lemma_sent_bytes_cons(a1, seq![a2] + (seq![a3] + tail));
    lemma_sent_bytes_cons(a0, seq![a1] + (seq![a2] + (seq![a3] + tail)));
    assert(acts =~= seq![a0] + (seq![a1] + (seq![a2] + (seq![a3] + tail))));
    assert(Seq::<u8>::empty() + Seq::<u8>::empty() =~= Seq::<u8>::empty());
    assert(ack_bytes() + Seq::<u8>::empty() =~= ack_bytes());
    assert(Seq::<u8>::empty() + ack_bytes() =~= ack_bytes());
}

/// Only the first `RECEIVE_LIMIT` bytes of a frame are read: a frame and its
/// first `RECEIVE_LIMIT` bytes move a session alike.
pub proof fn lemma_frame_beyond_buffer(s: SessionView, frame: Seq<u8>)
    ensures
        step_spec(s, EventView::Received(frame)) == step_spec(
            s,
            EventView::Received(received(frame)),
        ),
{
    assert(received(received(frame)) =~= received(frame));
}

} // verus!
