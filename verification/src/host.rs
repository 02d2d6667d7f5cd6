//! Downloads in parts as their host sees them: asked for, perhaps canceled, asked for
//! again, and in the end a file under its name.
use vstd::prelude::*;

use crate::assemble::{pieces, sorted_stably};
use crate::client::ProbeInfo;
use crate::content::assembled;
use crate::engine::{concluded, told, RunEvent, Stage};
use crate::errors::ErrorKind;
use crate::history::{
    law_every_event_keeps_faith, law_fresh_start_keeps_faith, lens_of, starts_session, Event, World,
};
use crate::session::{law_finished_session_gives_the_source, SessionView};
use crate::store::{
    all_recorded, goes_on, law_own_files_are_usable, law_record_restores_progress, prepared_parts,
    record_matches, ResumeState,
};
use crate::tiling::covered;
use crate::types::Status;

verus! {

/// A download that a host has asked for, from when its parts are prepared.
pub struct Call {
    pub w: World,
    pub stage: Stage,
    /// the host has canceled
    pub canceled: bool,
    /// the file under its final name; `None` if there is none
    pub target: Option<Seq<u8>>,
}

/// What can happen to it.
pub enum CallEvent {
    /// something happens in the session
    Work { e: Event },
    /// the host cancels
    Cancel,
    /// there is nothing more to wait for
    Over,
    /// the pieces are put together, and the file gets its name
    Assemble { v: Seq<(i64, i64)> },
    /// that does not succeed
    AssemblyFails,
}

/// The stage of a download whose parts are prepared.
pub open spec fn underway() -> Stage {
    Stage { status: Status::Downloading, single: false }
}

/// That stage is reached from the start, by asking the server and preparing the parts.
pub proof fn law_download_gets_underway()
    ensures
        told(seq![RunEvent::Started, RunEvent::Ready { single: false }]) == Some(
            (underway(), seq![Status::Probing, Status::Downloading]),
        ),
{
    let one = seq![RunEvent::Started];
    let two = seq![RunEvent::Started, RunEvent::Ready { single: false }];
    assert(one.drop_last() =~= Seq::empty());
    assert(two.drop_last() =~= one);
    assert(told(one.drop_last()) == Some((Stage::first(), Seq::<Status>::empty())));
    assert(told(one) == Some(
        (
            Stage { status: Status::Probing, single: false },
            Seq::<Status>::empty().push(Status::Probing),
        ),
    ));
    assert(Seq::<Status>::empty().push(Status::Probing).push(Status::Downloading) =~= seq![
        Status::Probing,
        Status::Downloading,
    ]);
}

impl Call {
    /// A download that starts afresh.
    pub open spec fn afresh(
        total: int,
        min_part_size: i64,
        count: usize,
        target: Option<Seq<u8>>,
    ) -> Call {
        Call {
            w: World::begin(total, min_part_size, count),
            stage: underway(),
            canceled: false,
            target,
        }
    }

    /// A download that goes on from what an earlier one left.
    pub open spec fn again(self) -> Call {
        Call {
            w: self.w.after(Event::Resume),
            stage: underway(),
            canceled: false,
            target: self.target,
        }
    }

    /// The host has got its answer.
    pub open spec fn is_over(self) -> bool {
        self.stage.status != Status::Downloading && self.stage.status != Status::Assembling
    }

    /// What the end of the session is for the download.
    pub open spec fn end(self) -> RunEvent {
        concluded(self.w.s.verdict_for(self.canceled))
    }

    /// The event can happen. A worker gives up as canceled only when it was told to.
    pub open spec fn allows(self, e: CallEvent, data: Seq<u8>) -> bool {
        match e {
            CallEvent::Work { e } => {
                &&& self.stage == underway()
                &&& self.w.allows(e, data)
                &&& !starts_session(e)
                &&& is_canceled_end(e) ==> self.canceled || self.w.s.stopped
            },
            CallEvent::Cancel => true,
            CallEvent::Over => self.stage == underway() && self.w.s.stops(self.canceled),
            CallEvent::Assemble { v } => self.stage.status == Status::Assembling && sorted_stably(
                pieces(self.w.s.parts),
                v,
            ),
            CallEvent::AssemblyFails => self.stage.status == Status::Assembling,
        }
    }

    /// The download after an event. The end of a session that is to be gone on from later
    /// saves the record.
    pub open spec fn after(self, e: CallEvent) -> Call {
        match e {
            CallEvent::Work { e } => Call { w: self.w.after(e), ..self },
            CallEvent::Cancel => Call { canceled: true, ..self },
            CallEvent::Over => Call {
                w: if self.end().keeps_record() {
                    self.w.after(Event::Save)
                } else {
                    self.w
                },
                stage: self.stage.after(self.end())->0,
                ..self
            },
            CallEvent::Assemble { v } => Call {
                stage: self.stage.after(RunEvent::Assembled)->0,
                target: Some(assembled(v, self.w.files)),
                ..self
            },
            CallEvent::AssemblyFails => Call {
                stage: self.stage.after(RunEvent::AssemblyFailed)->0,
                ..self
            },
        }
    }

    /// The session keeps faith; it was stopped only for an error, and a worker was
    /// canceled only for that or for the host; parts are put together only when the
    /// session is finished; and only a complete download has touched the target.
    pub open spec fn in_order(self, data: Seq<u8>, before: Option<Seq<u8>>) -> bool {
        &&& self.w.keeps_faith(data)
        &&& !self.stage.single
        &&& self.w.s.stopped ==> self.w.s.first_err is Some
        &&& self.w.canceled ==> self.canceled || self.w.s.stopped
        &&& match self.stage.status {
            Status::Downloading => self.target == before,
            Status::Assembling => self.target == before && self.w.is_finished(),
            Status::Completed => self.target == Some(data),
            Status::Failed => self.target == before,
            Status::Canceled => self.target == before && self.canceled && self.w.record
                == all_recorded(self.w.s.parts),
            Status::Pending | Status::Probing => false,
        }
    }
}

/// A worker gives up because it was canceled.
pub open spec fn is_canceled_end(e: Event) -> bool {
    e matches Event::End { result: Err(err), .. } && err.kind == ErrorKind::Canceled
}

/// A worker fails, or gives up.
pub open spec fn is_bad_end(e: Event) -> bool {
    e matches Event::End { result: Err(_), .. }
}

/// Where events lead, one after the other; `None` if one of them cannot happen.
pub open spec fn calling(c: Call, events: Seq<CallEvent>, data: Seq<u8>) -> Option<Call>
    decreases events.len(),
{
    if events.len() == 0 {
        Some(c)
    } else {
        match calling(c, events.drop_last(), data) {
            None => None,
            Some(d) => if d.allows(events.last(), data) {
                Some(d.after(events.last()))
            } else {
                None
            },
        }
    }
}

proof fn lemma_event_keeps_order(c: Call, e: CallEvent, data: Seq<u8>, before: Option<Seq<u8>>)
    requires
        c.in_order(data, before),
        c.allows(e, data),
        0 < data.len() <= i64::MAX,
    ensures
        c.after(e).in_order(data, before),
{
    match e {
        CallEvent::Work { e } => {
            law_every_event_keeps_faith(c.w, e, data);
        },
        CallEvent::Over => {
            if c.end().keeps_record() {
                law_every_event_keeps_faith(c.w, Event::Save, data);
            }
        },
        CallEvent::Assemble { v } => {
            law_finished_session_gives_the_source(c.w.s, c.w.files, data, v);
        },
        _ => {},
    }
}

/// A download in parts stays in order whatever happens to it. In particular, the target
/// is untouched until the download is complete, and then it is the source, byte for byte.
pub proof fn law_every_call_stays_in_order(
    c: Call,
    events: Seq<CallEvent>,
    data: Seq<u8>,
    before: Option<Seq<u8>>,
)
    requires
        c.in_order(data, before),
        0 < data.len() <= i64::MAX,
    ensures
        calling(c, events, data) matches Some(d) ==> {
            &&& d.in_order(data, before)
            &&& d.target == (if d.stage.status == Status::Completed {
                Some(data)
            } else {
                before
            })
        },
    decreases events.len(),
{
    if events.len() > 0 {
        law_every_call_stays_in_order(c, events.drop_last(), data, before);
        if let Some(d) = calling(c, events.drop_last(), data) {
            if d.allows(events.last(), data) {
                lemma_event_keeps_order(d, events.last(), data, before);
            }
        }
    }
}

/// A fresh start is in order.
pub proof fn law_fresh_call_is_in_order(
    data: Seq<u8>,
    min_part_size: i64,
    count: usize,
    target: Option<Seq<u8>>,
)
    requires
        0 < data.len() <= i64::MAX,
    ensures
        Call::afresh(data.len() as int, min_part_size, count, target).in_order(data, target),
{
    law_fresh_start_keeps_faith(data, min_part_size, count);
}

/// Neither the host nor the server nor the disk gets in the way: nothing is canceled, no
/// worker fails, and the pieces can be put together.
pub open spec fn untroubled(events: Seq<CallEvent>) -> bool {
    forall|k: int|
        0 <= k < events.len() ==> match #[trigger] events[k] {
            CallEvent::Work { e } => !is_bad_end(e),
            CallEvent::Cancel | CallEvent::AssemblyFails => false,
            CallEvent::Over | CallEvent::Assemble { .. } => true,
        }
}

/// Nothing has gone wrong so far.
pub open spec fn goes_well(c: Call) -> bool {
    &&& !c.canceled
    &&& !c.w.s.stopped
    &&& c.w.s.first_err is None
    &&& c.stage.status != Status::Failed
    &&& c.stage.status != Status::Canceled
}

/// A download that nothing gets in the way of ends well: when the host gets its answer,
/// the download is complete, and the target is the source.
pub proof fn law_untroubled_call_ends_well(
    c: Call,
    events: Seq<CallEvent>,
    data: Seq<u8>,
    before: Option<Seq<u8>>,
)
    requires
        c.in_order(data, before),
        goes_well(c),
        untroubled(events),
        0 < data.len() <= i64::MAX,
    ensures
        calling(c, events, data) matches Some(d) ==> {
            &&& goes_well(d)
            &&& d.is_over() ==> d.stage.status == Status::Completed && d.target == Some(data)
        },
    decreases events.len(),
{
    law_every_call_stays_in_order(c, events, data, before);
    if events.len() > 0 {
        let front = events.drop_last();
        assert(untroubled(front)) by {
            assert forall|k: int| 0 <= k < front.len() implies match #[trigger] front[k] {
                CallEvent::Work { e } => !is_bad_end(e),
                CallEvent::Cancel | CallEvent::AssemblyFails => false,
                CallEvent::Over | CallEvent::Assemble { .. } => true,
            } by {
                assert(front[k] == events[k]);
            }
        }
        law_untroubled_call_ends_well(c, front, data, before);
        law_every_call_stays_in_order(c, front, data, before);
        let last = events[events.len() - 1];
        if let Some(d) = calling(c, front, data) {
            if d.allows(last, data) {
                assert(goes_well(d.after(last)));
            }
        }
    }
}

/// A download in parts is canceled by its host and asked for again. The first call
/// leaves no file under the final name, and its answer is that it was canceled. If the
/// server still has the same file, the second call goes on from the parts that the first
/// one saved. If nothing gets in its way, its answer is that it is complete, and the file
/// is the source, byte for byte.
pub proof fn law_canceled_call_is_completed_by_the_next(
    data: Seq<u8>,
    min_part_size: i64,
    count: usize,
    first: Seq<CallEvent>,
    st: ResumeState,
    lens: Seq<Option<i64>>,
    url: Seq<char>,
    info: ProbeInfo,
    second: Seq<CallEvent>,
)
    requires
        0 < data.len() <= i64::MAX,
        untroubled(second),
    ensures
        calling(Call::afresh(data.len() as int, min_part_size, count, None), first, data) matches
            Some(c1) ==> c1.stage.status == Status::Canceled ==> {
            let c2 = c1.again();
            &&& c1.target is None
            &&& c1.canceled
            // the record that was saved, and the files as they lie there
            &&& (record_matches(st, url, info) && info.size == data.len() && st.parts@
                == c1.w.record && lens_of(lens, c1.w.s.parts, c1.w.files)) ==> {
                &&& goes_on(Some(st), lens, url, info)
                &&& c2.w.s == SessionView::start(
                    info.size as int,
                    prepared_parts(
                        Some(st),
                        lens,
                        url,
                        info,
                        min_part_size as int,
                        count as int,
                    ),
                )
            }
            &&& calling(c2, second, data) matches Some(c3) ==> c3.is_over() ==> c3.stage.status
                == Status::Completed && c3.target == Some(data)
        },
{
    let c0 = Call::afresh(data.len() as int, min_part_size, count, None);
    law_fresh_call_is_in_order(data, min_part_size, count, None);
    law_every_call_stays_in_order(c0, first, data, None);
    if let Some(c1) = calling(c0, first, data) {
        if c1.stage.status == Status::Canceled {
            let c2 = c1.again();
            law_record_restores_progress(c1.w.s.parts, c1.w.s.total);
            assert(c1.w.s.parts.len() > 0) by {
                assert(covered(c1.w.s.parts, 0));
            }
            law_every_event_keeps_faith(c1.w, Event::Resume, data);
            if st.parts@ == c1.w.record && lens_of(lens, c1.w.s.parts, c1.w.files) {
                law_own_files_are_usable(c1.w.s.parts, c1.w.files, data, lens);
            }
            assert(c2.in_order(data, None));
            law_untroubled_call_ends_well(c2, second, data, None);
        }
    }
}

} // verus!
