//! The updates that one frame takes over.
//!
//! A frame drains the queue of updates, at most `FRAME_LIMIT` that count; then it
//! attaches windows again, selects the row that was asked for, decides whether the
//! window is drawn again, and shows the messages.
use crate::columns::column_views;
use crate::gui::logs::{Color, LogStyler};
use crate::gui::model::{
    App, DetachedDetailsWindow, Toast, ToastKind, UiDebounce, UiUpdate, WindowId,
};
use crate::gui::results::{
    distinct_keys, indexed, law_applied_indexed, law_deleted_indexed, law_snapshot_indexed, row_of, table,
    ResultsState,
};
use crate::gui::select::{row_selected, selection_of, stays_ms, Selected};
use crate::gui::updates::{step, Step, StepView};
use crate::text::copy_text;
use crate::types::{be_value, lite_views, uid_key, LiteEvent, LiteObj, LiteView, Uid};
use std::collections::VecDeque;
use vstd::prelude::*;
use vstd::string::*;

verus! {

/// How many updates one frame takes over, and how many that wait make it draw.
pub const FRAME_LIMIT: usize = 256;

/// What the updates of one frame left to do.
pub struct Frame {
    pub processed: usize,
    pub batch: bool,
    pub repaint: bool,
    pub toasts: Vec<(String, ToastKind)>,
    pub select: Option<LiteObj>,
    pub reattach: Vec<(WindowId, Uid)>,
    pub feeds: Vec<(Option<WindowId>, String)>,
}

/// The model of a `Frame`.
pub struct FrameView {
    pub processed: nat,
    pub batch: bool,
    pub repaint: bool,
    pub toasts: Seq<(Seq<char>, ToastKind)>,
    pub select: Option<LiteView>,
    pub reattach: Seq<(WindowId, Seq<u8>)>,
    pub feeds: Seq<(Option<WindowId>, Seq<char>)>,
}

/// The texts and weights of a list of messages.
pub open spec fn toast_views(v: Seq<(String, ToastKind)>) -> Seq<(Seq<char>, ToastKind)> {
    v.map_values(|t: (String, ToastKind)| (t.0@, t.1))
}

/// The windows and identities of a list of requests.
pub open spec fn reattach_views(v: Seq<(WindowId, Uid)>) -> Seq<(WindowId, Seq<u8>)> {
    v.map_values(|t: (WindowId, Uid)| (t.0, t.1@))
}

/// The windows and texts of a list of outputs.
pub open spec fn feed_views(v: Seq<(Option<WindowId>, String)>) -> Seq<(Option<WindowId>, Seq<char>)> {
    v.map_values(|t: (Option<WindowId>, String)| (t.0, t.1@))
}

impl View for Frame {
    type V = FrameView;

    open spec fn view(&self) -> FrameView {
        FrameView {
            processed: self.processed as nat,
            batch: self.batch,
            repaint: self.repaint,
            toasts: toast_views(self.toasts@),
            select: match self.select {
                Some(o) => Some(o@),
                None => None,
            },
            reattach: reattach_views(self.reattach@),
            feeds: feed_views(self.feeds@),
        }
    }
}

/// A list with what an update may add to it.
pub open spec fn with_item<A>(s: Seq<A>, item: Option<A>) -> Seq<A> {
    match item {
        Some(a) => s.push(a),
        None => s,
    }
}

/// What is left to do after one more update.
pub open spec fn frame_after(f: FrameView, e: StepView) -> FrameView {
    FrameView {
        processed: if e.processed {
            f.processed + 1
        } else {
            f.processed
        },
        batch: f.batch || e.batch,
        repaint: f.repaint || e.repaint,
        toasts: with_item(f.toasts, e.toast),
        select: if e.select is Some {
            e.select
        } else {
            f.select
        },
        reattach: with_item(f.reattach, e.reattach),
        feeds: with_item(f.feeds, e.feed),
    }
}

/// What a run of updates leaves to do.
pub open spec fn frame_of(es: Seq<StepView>) -> FrameView
    decreases es.len(),
{
    if es.len() == 0 {
        FrameView {
            processed: 0,
            batch: false,
            repaint: false,
            toasts: Seq::empty(),
            select: None,
            reattach: Seq::empty(),
            feeds: Seq::empty(),
        }
    } else {
        frame_after(frame_of(es.drop_last()), es.last())
    }
}

/// Whether a run of states is what the first updates of a queue lead through, each with
/// what it left to do.
pub open spec fn runs(states: Seq<App>, queue: Seq<UiUpdate>, es: Seq<StepView>, color: Color, now: u64) -> bool {
    &&& es.len() <= queue.len()
    &&& states.len() == es.len() + 1
    &&& forall|k: int|
        0 <= k < es.len() ==> step(states[k], queue[k], color, now, states[k + 1], #[trigger] es[k])
}

/// Whether updates were taken until the queue was empty or enough of them counted.
pub open spec fn enough(queue: Seq<UiUpdate>, es: Seq<StepView>) -> bool {
    &&& es.len() == queue.len() || frame_of(es).processed >= FRAME_LIMIT
    &&& forall|k: int|
        0 <= k < es.len() ==> frame_of(#[trigger] es.take(k)).processed < FRAME_LIMIT
}

/// Whether a frame took over the first updates of a queue.
pub open spec fn drained(
    pre: App,
    queue: Seq<UiUpdate>,
    states: Seq<App>,
    es: Seq<StepView>,
    color: Color,
    now: u64,
    post: App,
    left: Seq<UiUpdate>,
    f: FrameView,
) -> bool {
    &&& runs(states, queue, es, color, now)
    &&& enough(queue, es)
    &&& states[0] == pre
    &&& states.last() == post
    &&& left == queue.skip(es.len() as int)
    &&& f == frame_of(es)
}

impl Frame {
    fn new() -> (r: Self)
        ensures
            r@ == frame_of(Seq::empty()),
    {
        let r = Frame {
            processed: 0,
            batch: false,
            repaint: false,
            toasts: Vec::new(),
            select: None,
            reattach: Vec::new(),
            feeds: Vec::new(),
        };
        assert(r@.toasts =~= Seq::empty());
        assert(r@.reattach =~= Seq::empty());
        assert(r@.feeds =~= Seq::empty());
        r
    }

    fn gather(&mut self, e: Step)
        requires
            old(self).processed < usize::MAX,
        ensures
            final(self)@ == frame_after(old(self)@, e@),
    {
        let ghost before = *self;
        if e.processed {
            self.processed += 1;
        }
        self.batch = self.batch || e.batch;
        self.repaint = self.repaint || e.repaint;
        if let Some(t) = e.toast {
            self.toasts.push(t);
        }
        if e.select.is_some() {
            self.select = e.select;
        }
        if let Some(t) = e.reattach {
            self.reattach.push(t);
        }
        if let Some(t) = e.feed {
            self.feeds.push(t);
        }
        proof {
            assert(self@.toasts =~= with_item(before@.toasts, e@.toast));
            assert(self@.reattach =~= with_item(before@.reattach, e@.reattach));
            assert(self@.feeds =~= with_item(before@.feeds, e@.feed));
        }
    }
}

/// The windows without those of an identity.
pub open spec fn without_window(ws: Seq<DetachedDetailsWindow>, id: WindowId) -> Seq<DetachedDetailsWindow>
    decreases ws.len(),
{
    if ws.len() == 0 {
        Seq::empty()
    } else if ws.last().meta.id != id {
        without_window(ws.drop_last(), id).push(ws.last())
    } else {
        without_window(ws.drop_last(), id)
    }
}

/// The text of the message where a window cannot be attached again.
pub open spec fn lost_text() -> Seq<char> {
    "reattach: item not in current results"@
}

/// Whether a window was attached again: a tab is asked for, its row is selected, and the
/// window is closed. Where the index does not know the object, the user is told.
pub open spec fn reattached(
    pre: App,
    id: WindowId,
    uid: Seq<u8>,
    now: u64,
    post: App,
    s: Option<Selected>,
) -> bool {
    let key = be_value(uid) as u128;
    exists|a: App, b: App|
        {
            &&& #[trigger] tab_asked(pre, uid, a)
            &&& match row_of(table(pre.results), key) {
                Some(row) => {
                    &&& s matches Some(sel) && selection_of(a, row, now, sel)
                    &&& row_selected(a, row, now, b)
                },
                None => s is None && if pre.results.index@.contains_key(key) {
                    b == a
                } else {
                    told(a, lost_text(), ToastKind::Warn, now, b)
                },
            }
            &&& #[trigger] closed_window(b, id, post)
        }
}

/// Whether a tab for an object was asked for.
pub open spec fn tab_asked(pre: App, uid: Seq<u8>, post: App) -> bool {
    &&& post == (App { dock_pending: post.dock_pending, ..pre })
    &&& post.dock_pending@.len() == pre.dock_pending@.len() + 1
    &&& post.dock_pending@.drop_last() =~= pre.dock_pending@
    &&& post.dock_pending@.last()@ == uid
}

/// Whether a message was added.
pub open spec fn told(pre: App, text: Seq<char>, kind: ToastKind, now: u64, post: App) -> bool {
    &&& post == (App { toasts: post.toasts, ..pre })
    &&& post.toasts@.len() == pre.toasts@.len() + 1
    &&& post.toasts@.drop_last() =~= pre.toasts@
    &&& toast_is(post.toasts@.last(), text, kind, now)
}

/// Whether a message has a text, a weight and a time.
pub open spec fn toast_is(t: Toast, text: Seq<char>, kind: ToastKind, now: u64) -> bool {
    &&& t.text@ == text
    &&& t.kind == kind
    &&& t.created == now
    &&& t.duration_ms == stays_ms(kind)
}

/// Whether the windows of an identity were closed.
pub open spec fn closed_window(pre: App, id: WindowId, post: App) -> bool {
    &&& post == (App { detached: post.detached, ..pre })
    &&& post.detached@ == without_window(pre.detached@, id)
}

/// How updates wait after some more of them, and whether the window is drawn.
pub open spec fn debounced(d: UiDebounce, processed: nat, batch: bool, now: u64) -> (UiDebounce, bool) {
    if processed == 0 {
        (d, false)
    } else {
        let since = match d.pending_since {
            Some(t) => t,
            None => now,
        };
        let waited: int = if now >= since {
            now - since
        } else {
            0
        };
        let count = d.pending_count + processed;
        if batch || count >= FRAME_LIMIT || waited >= d.ms {
            (UiDebounce { pending_count: 0, pending_since: None, ..d }, true)
        } else {
            (UiDebounce { pending_count: count as usize, pending_since: Some(since), ..d }, false)
        }
    }
}

/// Whether a list of messages was added in order.
pub open spec fn all_told(pre: Seq<Toast>, list: Seq<(Seq<char>, ToastKind)>, now: u64, post: Seq<Toast>) -> bool {
    &&& post.len() == pre.len() + list.len()
    &&& post.take(pre.len() as int) =~= pre
    &&& forall|k: int|
        0 <= k < list.len() ==> toast_is(
            #[trigger] post[pre.len() + k],
            list[k].0,
            list[k].1,
            now,
        )
}

/// What a frame asks of the window: terminals to feed, rows whose details are to be
/// shown, and whether to draw again.
pub struct Outcome {
    pub repaint: bool,
    pub feeds: Vec<(Option<WindowId>, String)>,
    pub selected: Vec<Selected>,
}

/// The selections that were made by the first `n` requests to attach a window.
pub open spec fn made<A>(s: Seq<Option<A>>) -> Seq<A>
    decreases s.len(),
{
    if s.len() == 0 {
        Seq::empty()
    } else {
        with_item(made(s.drop_last()), s.last())
    }
}

/// Whether a run of states is what requests to attach windows lead through.
pub open spec fn reattach_runs(
    states: Seq<App>,
    list: Seq<(WindowId, Seq<u8>)>,
    sels: Seq<Option<Selected>>,
    now: u64,
) -> bool {
    &&& sels.len() == list.len()
    &&& states.len() == list.len() + 1
    &&& forall|k: int|
        0 <= k < list.len() ==> reattached(
            states[k],
            list[k].0,
            list[k].1,
            now,
            states[k + 1],
            #[trigger] sels[k],
        )
}

/// Whether what updates left to do was done.
pub open spec fn settled(
    pre: App,
    f: FrameView,
    now: u64,
    states: Seq<App>,
    sels: Seq<Option<Selected>>,
    post: App,
    o: Outcome,
) -> bool {
    let mid = states.last();
    let (debounce, flush) = debounced(pre.ui_debounce, f.processed, f.batch, now);
    exists|chosen: App, last: Seq<Selected>|
        {
            &&& states.len() > 0
            &&& states[0] == pre
            &&& reattach_runs(states, f.reattach, sels, now)
            &&& #[trigger] chose(mid, f.select, now, chosen, last)
            &&& post == (App {
                ui_debounce: debounce,
                last_activity: if f.processed > 0 {
                    Some(now)
                } else {
                    chosen.last_activity
                },
                toasts: post.toasts,
                ..chosen
            })
            &&& all_told(chosen.toasts@, f.toasts, now, post.toasts@)
            &&& o.repaint == (f.repaint || f.reattach.len() > 0 || f.select is Some || flush)
            &&& feed_views(o.feeds@) == f.feeds
            &&& o.selected@ == made(sels) + last
        }
}

/// Whether the row that was asked for was selected.
pub open spec fn chose(pre: App, row: Option<LiteView>, now: u64, post: App, made: Seq<Selected>) -> bool {
    match row {
        Some(it) => {
            &&& made.len() == 1
            &&& selection_of(pre, it, now, made[0])
            &&& row_selected(pre, it, now, post)
        },
        None => made.len() == 0 && post == pre,
    }
}

proof fn lemma_frame_push(es: Seq<StepView>, e: StepView)
    ensures
        frame_of(es.push(e)) == frame_after(frame_of(es), e),
{
    assert(es.push(e).drop_last() =~= es);
}

impl App {
    /// Take over the updates of a queue until it is empty or enough of them counted.
    pub fn drain_updates(
        &mut self,
        queue: &mut VecDeque<UiUpdate>,
        styler: &LogStyler,
        color: Color,
        now: u64,
    ) -> (r: Frame)
        ensures
            exists|states: Seq<App>, es: Seq<StepView>| #[trigger]
                drained(
                    *old(self),
                    old(queue)@,
                    states,
                    es,
                    color,
                    now,
                    *final(self),
                    final(queue)@,
                    r@,
                ),
            r.processed <= FRAME_LIMIT,
    {
        let mut frame = Frame::new();
        let ghost all = queue@;
        let ghost mut states: Seq<App> = seq![*self];
        let ghost mut es: Seq<StepView> = Seq::empty();
        assert(all.skip(0) =~= all);
        while frame.processed < FRAME_LIMIT && queue.len() > 0
            invariant
                runs(states, all, es, color, now),
                states[0] == *old(self),
                states.last() == *self,
                queue@ == all.skip(es.len() as int),
                frame@ == frame_of(es),
                frame.processed <= FRAME_LIMIT,
                forall|k: int|
                    0 <= k < es.len() ==> frame_of(#[trigger] es.take(k)).processed < FRAME_LIMIT,
            decreases queue@.len(),
        {
            let ghost n = es.len() as int;
            assert(queue@[0] == all[n]);
            assert(queue@.drop_first() =~= all.skip(n + 1));
            let ghost before = *self;
            match queue.pop_front() {
                None => {},
                Some(u) => {
                    let e = self.apply_update(u, styler, color, now);
                    let ghost ev = e@;
                    frame.gather(e);
                    proof {
                        lemma_frame_push(es, ev);
                        let next = es.push(ev);
                        assert(next.take(n) =~= es);
                        assert forall|k: int| 0 <= k < next.len() implies frame_of(
                            #[trigger] next.take(k),
                        ).processed < FRAME_LIMIT by {
                            if k < n {
                                assert(next.take(k) =~= es.take(k));
                            }
                        }
                        let grown = states.push(*self);
                        assert forall|k: int| 0 <= k < next.len() implies step(
                            grown[k],
                            all[k],
                            color,
                            now,
                            grown[k + 1],
                            #[trigger] next[k],
                        ) by {
                            if k < n {
                                assert(next[k] == es[k]);
                            }
                        }
                        states = grown;
                        es = next;
                    }
                },
            }
        }
        proof {
            assert(drained(*old(self), all, states, es, color, now, *self, queue@, frame@));
        }
        frame
    }

    /// Close the windows of an identity.
    pub fn close_window(&mut self, id: WindowId)
        ensures
            closed_window(*old(self), id, *final(self)),
    {
        let ghost all = self.detached@;
        let mut rest: Vec<DetachedDetailsWindow> = Vec::new();
        std::mem::swap(&mut rest, &mut self.detached);
        let mut kept: Vec<DetachedDetailsWindow> = Vec::new();
        for w in it: rest
            invariant
                it.seq() == all,
                kept@ == without_window(all.take(it.index() as int), id),
        {
            let ghost i = it.index() as int;
            assert(all.take(i + 1).drop_last() =~= all.take(i));
            if w.meta.id != id {
                kept.push(w);
            }
        }
        assert(all.take(all.len() as int) =~= all);
        self.detached = kept;
    }

    /// Attach a window again.
    pub fn reattach(&mut self, id: WindowId, uid: Uid, now: u64) -> (r: Option<Selected>)
        ensures
            reattached(*old(self), id, uid@, now, *final(self), r),
    {
        self.open_details_tab_for(uid);
        let ghost a = *self;
        proof {
            assert(tab_asked(*old(self), uid@, a));
        }
        let row: Option<LiteObj> = match self.results.find(&uid) {
            Some(o) => Some(o.clone()),
            None => None,
        };
        let r = match row {
            Some(o) => Some(self.select_row(&o, now)),
            None => {
                if !self.results.knows(&uid) {
                    self.toast(
                        copy_text("reattach: item not in current results"),
                        ToastKind::Warn,
                        now,
                    );
                }
                None
            },
        };
        let ghost b = *self;
        self.close_window(id);
        proof {
            assert(closed_window(b, id, *self));
        }
        r
    }

    fn debounce(&mut self, processed: usize, batch: bool, now: u64) -> (flush: bool)
        requires
            old(self).ui_debounce.pending_count + processed <= usize::MAX,
        ensures
            ({
                let (d, drawn) = debounced(old(self).ui_debounce, processed as nat, batch, now);
                &&& *final(self) == (App {
                    ui_debounce: d,
                    last_activity: if processed > 0 {
                        Some(now)
                    } else {
                        old(self).last_activity
                    },
                    ..*old(self)
                })
                &&& flush == drawn
            }),
    {
        if processed == 0 {
            return false;
        }
        self.last_activity = Some(now);
        self.ui_debounce.pending_count += processed;
        let since: u64 = match self.ui_debounce.pending_since {
            Some(t) => t,
            None => now,
        };
        self.ui_debounce.pending_since = Some(since);
        let waited: u64 = if now >= since {
            now - since
        } else {
            0
        };
        if batch || self.ui_debounce.pending_count >= FRAME_LIMIT || waited >= self.ui_debounce.ms {
            self.ui_debounce.pending_count = 0;
            self.ui_debounce.pending_since = None;
            true
        } else {
            false
        }
    }

    fn tell_all(&mut self, list: Vec<(String, ToastKind)>, now: u64)
        ensures
            *final(self) == (App { toasts: final(self).toasts, ..*old(self) }),
            all_told(old(self).toasts@, toast_views(list@), now, final(self).toasts@),
    {
        let ghost all = list@;
        let ghost pre = self.toasts@;
        for t in it: list
            invariant
                it.seq() == all,
                *self == (App { toasts: self.toasts, ..*old(self) }),
                pre == old(self).toasts@,
                self.toasts@.len() == pre.len() + it.index(),
                self.toasts@.take(pre.len() as int) =~= pre,
                forall|k: int|
                    0 <= k < it.index() ==> toast_is(
                        #[trigger] self.toasts@[pre.len() + k],
                        toast_views(all)[k].0,
                        toast_views(all)[k].1,
                        now,
                    ),
        {
            let ghost before = self.toasts@;
            let ghost i = it.index() as int;
            let (text, kind) = t;
            assert(toast_views(all)[i] == (text@, kind));
            self.toast(text, kind, now);
            assert(self.toasts@.take(pre.len() as int) =~= before.take(pre.len() as int));
            assert forall|k: int| 0 <= k < i + 1 implies toast_is(
                #[trigger] self.toasts@[pre.len() + k],
                toast_views(all)[k].0,
                toast_views(all)[k].1,
                now,
            ) by {
                if k < i {
                    assert(self.toasts@[pre.len() + k] == before[pre.len() + k]);
                }
            }
        }
    }

    /// Do what the updates of a frame left to do.
    pub fn settle(&mut self, frame: Frame, now: u64) -> (r: Outcome)
        requires
            old(self).ui_debounce.pending_count + frame.processed <= usize::MAX,
        ensures
            exists|states: Seq<App>, sels: Seq<Option<Selected>>| #[trigger]
                settled(*old(self), frame@, now, states, sels, *final(self), r),
    {
        let mut selected: Vec<Selected> = Vec::new();
        let ghost list = frame@.reattach;
        let ghost mut states: Seq<App> = seq![*self];
        let ghost mut sels: Seq<Option<Selected>> = Seq::empty();
        let n: usize = frame.reattach.len();
        let mut i: usize = 0;
        while i < n
            invariant
                i <= n,
                n == list.len(),
                n == frame.reattach@.len(),
                list == reattach_views(frame.reattach@),
                states.len() == i + 1,
                sels.len() == i,
                states[0] == *old(self),
                states.last() == *self,
                self.ui_debounce == old(self).ui_debounce,
                self.last_activity == old(self).last_activity,
                selected@ == made(sels),
                forall|k: int|
                    0 <= k < i ==> reattached(
                        states[k],
                        list[k].0,
                        list[k].1,
                        now,
                        states[k + 1],
                        #[trigger] sels[k],
                    ),
            decreases n - i,
        {
            let (id, uid) = frame.reattach[i];
            assert(list[i as int] == (id, uid@));
            let ghost before = *self;
            let s = self.reattach(id, uid, now);
            let ghost sv = s;
            proof {
                let next = sels.push(sv);
                let grown = states.push(*self);
                assert(next.drop_last() =~= sels);
                assert forall|k: int| 0 <= k < i + 1 implies reattached(
                    grown[k],
                    list[k].0,
                    list[k].1,
                    now,
                    grown[k + 1],
                    #[trigger] next[k],
                ) by {
                    if k < i {
                        assert(next[k] == sels[k]);
                    }
                }
                states = grown;
                sels = next;
            }
            if let Some(sel) = s {
                selected.push(sel);
            }
            i += 1;
        }
        let ghost mid = *self;
        let ghost done = selected@;
        let asked = frame.select.is_some();
        if let Some(row) = &frame.select {
            let sel = self.select_row(row, now);
            selected.push(sel);
        }
        let ghost chosen = *self;
        let ghost last = selected@.skip(done.len() as int);
        proof {
            assert(chose(mid, frame@.select, now, chosen, last));
            assert(selected@ =~= done + last);
        }
        let flush = self.debounce(frame.processed, frame.batch, now);
        self.tell_all(frame.toasts, now);
        let r = Outcome {
            repaint: frame.repaint || n > 0 || asked || flush,
            feeds: frame.feeds,
            selected,
        };
        proof {
            assert(reattach_runs(states, list, sels, now));
            assert(settled(*old(self), frame@, now, states, sels, *self, r));
        }
        r
    }

    /// Take over the updates that wait, and do what they left to do.
    pub fn process_updates(
        &mut self,
        queue: &mut VecDeque<UiUpdate>,
        styler: &LogStyler,
        color: Color,
        now: u64,
    ) -> (r: Outcome)
        requires
            old(self).ui_debounce.pending_count < FRAME_LIMIT,
        ensures
            exists|mid: App, f: FrameView| #[trigger]
                processed(*old(self), old(queue)@, color, now, mid, final(queue)@, f, *final(self), r),
            final(self).ui_debounce.pending_count < FRAME_LIMIT,
    {
        let frame = self.drain_updates(queue, styler, color, now);
        let ghost mid = *self;
        let ghost f = frame@;
        proof {
            let (states, es) = choose|states: Seq<App>, es: Seq<StepView>| #[trigger]
                drained(*old(self), old(queue)@, states, es, color, now, mid, queue@, f);
            lemma_debounce_kept(states, old(queue)@, es, color, now, es.len() as int);
        }
        let r = self.settle(frame, now);
        proof {
            assert(processed(*old(self), old(queue)@, color, now, mid, queue@, f, *self, r));
        }
        r
    }
}

/// Whether a frame was processed: updates were taken over, and what they left to do was
/// done.
pub open spec fn processed(
    pre: App,
    queue: Seq<UiUpdate>,
    color: Color,
    now: u64,
    mid: App,
    left: Seq<UiUpdate>,
    f: FrameView,
    post: App,
    o: Outcome,
) -> bool {
    &&& exists|states: Seq<App>, es: Seq<StepView>| #[trigger]
        drained(pre, queue, states, es, color, now, mid, left, f)
    &&& exists|states: Seq<App>, sels: Seq<Option<Selected>>| #[trigger]
        settled(mid, f, now, states, sels, post, o)
}

/// An update leaves alone how updates wait.
pub proof fn lemma_step_keeps(pre: App, u: UiUpdate, color: Color, now: u64, post: App, e: StepView)
    requires
        step(pre, u, color, now, post, e),
    ensures
        post.ui_debounce == pre.ui_debounce,
{
}

proof fn lemma_debounce_kept(states: Seq<App>, queue: Seq<UiUpdate>, es: Seq<StepView>, color: Color, now: u64, n: int)
    requires
        runs(states, queue, es, color, now),
        0 <= n <= es.len(),
    ensures
        states[n].ui_debounce == states[0].ui_debounce,
    decreases n,
{
    if n > 0 {
        lemma_debounce_kept(states, queue, es, color, now, n - 1);
        let e = es[n - 1];
        lemma_step_keeps(states[n - 1], queue[n - 1], color, now, states[n - 1 + 1], e);
    }
}

// ---------------------------------------------------------------------------
// The rows over a whole frame

/// Whether an update is one of the rows.
pub open spec fn of_rows(u: UiUpdate) -> bool {
    u is Snapshot || u is Event
}

/// Whether every snapshot among some updates holds no object twice.
pub open spec fn fair(queue: Seq<UiUpdate>) -> bool {
    forall|k: int|
        0 <= k < queue.len() ==> (#[trigger] queue[k] matches UiUpdate::Snapshot(items) ==> distinct_keys(
            lite_views(items@),
        ))
}

proof fn lemma_rows_fit(r: ResultsState)
    ensures
        table(r).rows.len() == r.rows@.len(),
        table(r).rows.len() <= usize::MAX,
{
    assert(r.rows.len() <= usize::MAX);
}

#[verifier::spinoff_prover]
proof fn lemma_step_rows(pre: App, u: UiUpdate, color: Color, now: u64, post: App, e: StepView)
    requires
        step(pre, u, color, now, post, e),
        !of_rows(u),
    ensures
        table(post.results) == table(pre.results),
{
}

proof fn lemma_step_indexed(pre: App, u: UiUpdate, color: Color, now: u64, post: App, e: StepView)
    requires
        step(pre, u, color, now, post, e),
        indexed(table(pre.results)),
        u matches UiUpdate::Snapshot(items) ==> distinct_keys(lite_views(items@)),
    ensures
        indexed(table(post.results)),
        of_rows(u) ==> e.processed,
{
    let t = table(pre.results);
    let cols = column_views(pre.results.active_cols@);
    lemma_rows_fit(post.results);
    match u {
        UiUpdate::Snapshot(items) => {
            law_snapshot_indexed(t, lite_views(items@), cols);
        },
        UiUpdate::Event(LiteEvent::Applied(lo)) => {
            law_applied_indexed(t, lo@, cols);
        },
        UiUpdate::Event(LiteEvent::Deleted(lo)) => {
            law_deleted_indexed(t, uid_key(lo.uid));
        },
        _ => {
            lemma_step_rows(pre, u, color, now, post, e);
        },
    }
}

proof fn lemma_run_indexed(
    states: Seq<App>,
    queue: Seq<UiUpdate>,
    es: Seq<StepView>,
    color: Color,
    now: u64,
    n: int,
)
    requires
        runs(states, queue, es, color, now),
        fair(queue),
        indexed(table(states[0].results)),
        0 <= n <= es.len(),
    ensures
        indexed(table(states[n].results)),
        (forall|k: int| 0 <= k < queue.len() ==> of_rows(#[trigger] queue[k])) ==> frame_of(es.take(n)).processed == n,
    decreases n,
{
    if n > 0 {
        lemma_run_indexed(states, queue, es, color, now, n - 1);
        let e = es[n - 1];
        let u = queue[n - 1];
        assert(step(states[n - 1], u, color, now, states[n - 1 + 1], e));
        lemma_step_indexed(states[n - 1], u, color, now, states[n], e);
        assert(es.take(n).drop_last() =~= es.take(n - 1));
        assert(es.take(n).last() == e);
    } else {
        assert(es.take(0) =~= Seq::empty());
    }
}

proof fn lemma_reattach_rows(states: Seq<App>, list: Seq<(WindowId, Seq<u8>)>, sels: Seq<Option<Selected>>, now: u64, n: int)
    requires
        reattach_runs(states, list, sels, now),
        0 <= n <= list.len(),
    ensures
        states[n].results == states[0].results,
    decreases n,
{
    if n > 0 {
        lemma_reattach_rows(states, list, sels, now, n - 1);
        let s = sels[n - 1];
        assert(reattached(states[n - 1], list[n - 1].0, list[n - 1].1, now, states[n - 1 + 1], s));
    }
}

/// After a whole frame, with its updates of the rows and all others, the index is in step
/// with the rows: it names every row, and nothing else.
pub proof fn law_frame_indexed(
    pre: App,
    queue: Seq<UiUpdate>,
    color: Color,
    now: u64,
    mid: App,
    left: Seq<UiUpdate>,
    f: FrameView,
    post: App,
    o: Outcome,
)
    requires
        processed(pre, queue, color, now, mid, left, f, post, o),
        indexed(table(pre.results)),
        fair(queue),
    ensures
        indexed(table(post.results)),
        fair(left),
{
    let (states, es) = choose|states: Seq<App>, es: Seq<StepView>| #[trigger]
        drained(pre, queue, states, es, color, now, mid, left, f);
    lemma_run_indexed(states, queue, es, color, now, es.len() as int);
    assert forall|k: int| 0 <= k < left.len() implies (#[trigger] left[k] matches UiUpdate::Snapshot(items)
        ==> distinct_keys(lite_views(items@))) by {
        assert(left[k] == queue[k + es.len()]);
    }
    let (between, sels) = choose|between: Seq<App>, sels: Seq<Option<Selected>>| #[trigger]
        settled(mid, f, now, between, sels, post, o);
    lemma_reattach_rows(between, f.reattach, sels, now, f.reattach.len() as int);
    assert(post.results == mid.results);
}

/// A frame takes the updates of the rows in order, two hundred and fifty-six at most, and as
/// many as that where so many wait.
pub proof fn law_frame_takes(
    pre: App,
    queue: Seq<UiUpdate>,
    color: Color,
    now: u64,
    mid: App,
    left: Seq<UiUpdate>,
    f: FrameView,
    post: App,
    o: Outcome,
)
    requires
        processed(pre, queue, color, now, mid, left, f, post, o),
        indexed(table(pre.results)),
        fair(queue),
        forall|k: int| 0 <= k < queue.len() ==> of_rows(#[trigger] queue[k]),
    ensures
        left == queue.skip(if queue.len() < FRAME_LIMIT {
            queue.len() as int
        } else {
            FRAME_LIMIT as int
        }),
{
    let (states, es) = choose|states: Seq<App>, es: Seq<StepView>| #[trigger]
        drained(pre, queue, states, es, color, now, mid, left, f);
    let n = es.len() as int;
    lemma_run_indexed(states, queue, es, color, now, n);
    assert(es.take(n) =~= es);
    if n > FRAME_LIMIT {
        lemma_run_indexed(states, queue, es, color, now, n - 1);
        assert(frame_of(es.take(n - 1)).processed < FRAME_LIMIT);
    }
}

/// A window that is closed is gone, and every other one stays.
pub proof fn law_closed_window(ws: Seq<DetachedDetailsWindow>, id: WindowId, w: DetachedDetailsWindow)
    ensures
        without_window(ws, id).contains(w) <==> ws.contains(w) && w.meta.id != id,
    decreases ws.len(),
{
    if ws.len() > 0 {
        let d = ws.drop_last();
        law_closed_window(d, id, w);
        assert(ws =~= d.push(ws.last()));
        let rest = without_window(d, id);
        let all = without_window(ws, id);
        if d.contains(w) {
            let k = choose|k: int| 0 <= k < d.len() && d[k] == w;
            assert(ws[k] == w);
        }
        if ws.contains(w) {
            let k = choose|k: int| 0 <= k < ws.len() && ws[k] == w;
            if k < d.len() {
                assert(d[k] == w);
            } else if w.meta.id != id {
                assert(all[all.len() - 1] == w);
            }
        }
        if rest.contains(w) {
            let k = choose|k: int| 0 <= k < rest.len() && rest[k] == w;
            assert(all[k] == w);
        }
        if all.contains(w) {
            let k = choose|k: int| 0 <= k < all.len() && all[k] == w;
            if k < rest.len() {
                assert(rest[k] == w);
            } else {
                assert(ws[ws.len() - 1] == w);
            }
        }
    }
}

/// Changes are drawn together: at once at the end of a batch, and else when enough of them have
/// come or enough time has passed since the first. Until then they are counted.
pub proof fn law_debounced(d: UiDebounce, n: nat, batch: bool, since: u64, now: u64)
    requires
        d.pending_since == Some(since),
        since <= now,
        d.pending_count + n <= usize::MAX,
    ensures
        n == 0 ==> debounced(d, n, batch, now) == (d, false),
        n > 0 ==> (debounced(d, n, batch, now).1 <==> batch || d.pending_count + n >= FRAME_LIMIT || now - since >= d.ms),
        n > 0 && debounced(d, n, batch, now).1 ==> debounced(d, n, batch, now).0.pending_count == 0 && debounced(
            d,
            n,
            batch,
            now,
        ).0.pending_since is None,
        n > 0 && !debounced(d, n, batch, now).1 ==> debounced(d, n, batch, now).0.pending_count == d.pending_count + n
            && debounced(d, n, batch, now).0.pending_since == Some(since),
{
}

/// A message carries its text and its kind, and says when it came.
pub proof fn law_told(pre: App, text: Seq<char>, kind: ToastKind, now: u64, post: App)
    requires
        told(pre, text, kind, now, post),
    ensures
        post.toasts@.len() == pre.toasts@.len() + 1,
        post.toasts@.last().text@ == text,
        post.toasts@.last().kind == kind,
        post.toasts@.last().created == now,
        forall|i: int| 0 <= i < pre.toasts@.len() ==> #[trigger] post.toasts@[i] == pre.toasts@[i],
{
    assert forall|i: int| 0 <= i < pre.toasts@.len() implies #[trigger] post.toasts@[i] == pre.toasts@[i] by {
        assert(post.toasts@.drop_last()[i] == pre.toasts@[i]);
    }
}

} // verus!
