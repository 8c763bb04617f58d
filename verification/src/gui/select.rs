//! The selection of a row, and the messages to the user.
use crate::gui::model::{App, DescribeState, DetailsState, EditState, Handle, LogsState, Toast, ToastKind};
use crate::gui::nav::selected_kind;
use crate::text::opt_text;
use crate::types::{be_value, clone_option, key_of, uid_key, KindView, LiteObj, LiteView, ResourceRef, Uid};
use vstd::prelude::*;
use vstd::string::*;

verus! {

broadcast use {vstd::std_specs::hash::group_hash_axioms};

/// What is to be shown of a row that was selected.
pub enum SelectNext {
    /// A description that is still fresh.
    Show { text: String, containers: Option<Vec<String>> },
    /// Nothing: no kind is chosen.
    Nothing,
    /// What a read of the object brings.
    Fetch(ResourceRef),
}

/// What is to be done after a row was selected: the tasks to stop, and what to show.
pub struct Selected {
    pub uid: Uid,
    pub stop_details: Option<Handle>,
    pub abort_describe: Option<Handle>,
    pub stop_describe: Option<Handle>,
    pub next: SelectNext,
}

/// Whole seconds between two times in milliseconds; none where the second is earlier.
pub open spec fn seconds_between(from: u64, to: u64) -> int {
    if to >= from {
        (to - from) / 1000
    } else {
        0
    }
}

/// Whether the description that is kept of an object is fresh enough.
pub open spec fn is_fresh(a: App, key: u128, now: u64) -> bool {
    a.details_cache@.contains_key(key) && seconds_between(a.details_cache@[key].at, now)
        <= a.details_ttl_secs
}

/// The state after a row was selected.
pub open spec fn row_selected(pre: App, it: LiteView, now: u64, post: App) -> bool {
    let key = be_value(it.uid) as u128;
    &&& post == (App {
        details: DetailsState {
            selected: post.details.selected,
            selected_at: Some(now),
            buffer: post.details.buffer,
            secret_entries: post.details.secret_entries,
            secret_revealed: post.details.secret_revealed,
            stop: None,
            ..pre.details
        },
        edit: EditState {
            buffer: post.edit.buffer,
            original: post.edit.original,
            status: post.edit.status,
            dirty: false,
            ..pre.edit
        },
        logs: LogsState { containers: post.logs.containers, container: None, ..pre.logs },
        describe: DescribeState {
            task: None,
            stop: None,
            running: false,
            text: post.describe.text,
            error: None,
            uid: None,
        },
        dock_pending: post.dock_pending,
        details_cache: post.details_cache,
        ..pre
    })
    &&& post.details.selected matches Some(u) && u@ == it.uid
    &&& post.details.buffer@ =~= Seq::<char>::empty()
    &&& post.details.secret_entries@.len() == 0
    &&& post.details.secret_revealed@.len() == 0
    &&& post.edit.buffer@ =~= Seq::<char>::empty()
    &&& post.edit.original@ =~= Seq::<char>::empty()
    &&& post.edit.status@ =~= Seq::<char>::empty()
    &&& post.logs.containers@.len() == 0
    &&& post.describe.text@ =~= Seq::<char>::empty()
    &&& post.dock_pending@.len() == pre.dock_pending@.len() + 1
    &&& post.dock_pending@.drop_last() =~= pre.dock_pending@
    &&& post.dock_pending@.last()@ == it.uid
    &&& post.details_cache@ == if is_fresh(pre, key, now) {
        pre.details_cache@
    } else {
        pre.details_cache@.remove(key)
    }
}

/// What is to be shown of a row that was selected.
pub open spec fn next_of(pre: App, it: LiteView, now: u64, next: SelectNext) -> bool {
    let key = be_value(it.uid) as u128;
    if is_fresh(pre, key, now) {
        next matches SelectNext::Show { text, containers } && text@ == pre.details_cache@[key].text@
            && same_lists(containers, pre.details_cache@[key].containers)
    } else {
        match selected_kind(pre) {
            None => next is Nothing,
            Some(k) => next matches SelectNext::Fetch(r) && refers(r, k, it),
        }
    }
}

/// Whether two optional lists hold the same texts.
pub open spec fn same_lists(a: Option<Vec<String>>, b: Option<Vec<String>>) -> bool {
    match (a, b) {
        (Some(x), Some(y)) => crate::text::texts(x@) == crate::text::texts(y@),
        (None, None) => true,
        _ => false,
    }
}

/// Whether a reference names an object of a kind, on no particular cluster.
pub open spec fn refers(r: ResourceRef, k: KindView, it: LiteView) -> bool {
    &&& r.cluster is None
    &&& r.gvk@ == k
    &&& opt_text(r.namespace) == it.namespace
    &&& r.name@ == it.name
}

/// Whether the selection of a row asks for the right things.
pub open spec fn selection_of(pre: App, it: LiteView, now: u64, r: Selected) -> bool {
    &&& r.uid@ == it.uid
    &&& r.stop_details == pre.details.stop
    &&& r.abort_describe == pre.describe.task
    &&& r.stop_describe == pre.describe.stop
    &&& next_of(pre, it, now, r.next)
}

fn copy_list(v: &Option<Vec<String>>) -> (r: Option<Vec<String>>)
    ensures
        same_lists(r, *v),
{
    match v {
        None => None,
        Some(list) => {
            let mut out: Vec<String> = Vec::new();
            let mut i: usize = 0;
            while i < list.len()
                invariant
                    i <= list.len(),
                    out@ == list@.take(i as int),
                decreases list.len() - i,
            {
                out.push(list[i].clone());
                assert(list@.take(i as int).push(list@[i as int]) =~= list@.take(i + 1));
                i += 1;
            }
            assert(list@.take(list@.len() as int) =~= list@);
            Some(out)
        },
    }
}

impl App {
    /// The description that is kept of an object, where it is fresh; one that is not is
    /// forgotten.
    fn recall(&mut self, uid: &Uid, now: u64) -> (r: Option<(String, Option<Vec<String>>)>)
        ensures
            *final(self) == (App { details_cache: final(self).details_cache, ..*old(self) }),
            final(self).details_cache@ == (if is_fresh(*old(self), uid_key(*uid), now) {
                old(self).details_cache@
            } else {
                old(self).details_cache@.remove(uid_key(*uid))
            }),
            r is Some <==> is_fresh(*old(self), uid_key(*uid), now),
            r matches Some((text, containers)) ==> text@ == old(
                self,
            ).details_cache@[uid_key(*uid)].text@ && same_lists(
                containers,
                old(self).details_cache@[uid_key(*uid)].containers,
            ),
    {
        let key = key_of(uid);
        let kept: Option<(String, Option<Vec<String>>)> = match self.details_cache.get(&key) {
            Some(c) => {
                let age: u64 = if now >= c.at {
                    (now - c.at) / 1000
                } else {
                    0
                };
                if age <= self.details_ttl_secs {
                    Some((c.text.clone(), copy_list(&c.containers)))
                } else {
                    None
                }
            },
            None => None,
        };
        if kept.is_none() {
            let _ = self.details_cache.remove(&key);
        }
        kept
    }

    /// Select a row: what was shown of another one is cleared, and its tasks are to stop.
    pub fn select_row(&mut self, it: &LiteObj, now: u64) -> (r: Selected)
        ensures
            row_selected(*old(self), it@, now, *final(self)),
            selection_of(*old(self), it@, now, r),
    {
        self.details.selected = Some(it.uid);
        self.details.selected_at = Some(now);
        self.details.buffer = String::new();
        self.edit.buffer = String::new();
        self.edit.original = String::new();
        self.edit.dirty = false;
        self.edit.status = String::new();
        self.details.secret_entries = Vec::new();
        self.details.secret_revealed = Vec::new();
        self.open_details_tab_for(it.uid);
        self.logs.containers = Vec::new();
        self.logs.container = None;
        let stop_details = self.details.stop;
        self.details.stop = None;
        let abort_describe = self.describe.task;
        let stop_describe = self.describe.stop;
        self.describe = DescribeState {
            task: None,
            stop: None,
            running: false,
            text: String::new(),
            error: None,
            uid: None,
        };
        let next = match self.recall(&it.uid, now) {
            Some((text, containers)) => SelectNext::Show { text, containers },
            None => match self.current_selected_kind() {
                None => SelectNext::Nothing,
                Some(kind) => SelectNext::Fetch(
                    ResourceRef {
                        cluster: None,
                        gvk: kind.clone(),
                        namespace: clone_option(&it.namespace),
                        name: it.name.clone(),
                    },
                ),
            },
        };
        Selected { uid: it.uid, stop_details, abort_describe, stop_describe, next }
    }

    /// Ask for a tab with the details of an object.
    pub fn open_details_tab_for(&mut self, uid: Uid)
        ensures
            *final(self) == (App { dock_pending: final(self).dock_pending, ..*old(self) }),
            final(self).dock_pending@ == old(self).dock_pending@.push(uid),
    {
        self.dock_pending.push(uid);
    }

    /// Show a message to the user.
    pub fn toast(&mut self, text: String, kind: ToastKind, now: u64)
        ensures
            *final(self) == (App { toasts: final(self).toasts, ..*old(self) }),
            final(self).toasts@ == old(self).toasts@.push(
                (Toast { text, kind, created: now, duration_ms: stays_ms(kind) }),
            ),
    {
        let duration_ms = match kind {
            ToastKind::Error => 5000,
            ToastKind::Warn => 4000,
            ToastKind::Info | ToastKind::Success => 3000,
        };
        self.toasts.push(Toast { text, kind, created: now, duration_ms });
    }

    /// Take away the messages whose time is over.
    pub fn retire_toasts(&mut self, now: u64)
        ensures
            *final(self) == (App { toasts: final(self).toasts, ..*old(self) }),
            final(self).toasts@ == live_toasts(old(self).toasts@, now),
    {
        let mut kept: Vec<Toast> = Vec::new();
        let ghost all = self.toasts@;
        let mut rest: Vec<Toast> = Vec::new();
        std::mem::swap(&mut rest, &mut self.toasts);
        for t in it: rest
            invariant
                it.seq() == all,
                kept@ == live_toasts(all.take(it.index() as int), now),
        {
            let ghost i = it.index() as int;
            assert(all.take(i + 1).drop_last() =~= all.take(i));
            let age: u64 = if now >= t.created {
                now - t.created
            } else {
                0
            };
            if age < t.duration_ms {
                kept.push(t);
            }
        }
        assert(all.take(all.len() as int) =~= all);
        self.toasts = kept;
    }
}

/// How long a message stays, in milliseconds.
pub open spec fn stays_ms(kind: ToastKind) -> u64 {
    match kind {
        ToastKind::Error => 5000,
        ToastKind::Warn => 4000,
        ToastKind::Info => 3000,
        ToastKind::Success => 3000,
    }
}

/// Whether a message is still to be shown.
pub open spec fn is_live(t: Toast, now: u64) -> bool {
    (if now >= t.created {
        now - t.created
    } else {
        0
    }) < t.duration_ms
}

/// The messages that are still to be shown.
pub open spec fn live_toasts(ts: Seq<Toast>, now: u64) -> Seq<Toast>
    decreases ts.len(),
{
    if ts.len() == 0 {
        Seq::empty()
    } else if is_live(ts.last(), now) {
        live_toasts(ts.drop_last(), now).push(ts.last())
    } else {
        live_toasts(ts.drop_last(), now)
    }
}

// ---------------------------------------------------------------------------
// What a selection brings

/// What was read of an object is shown again for as many seconds as it is kept, and read anew
/// after that.
pub proof fn law_fresh(a: App, key: u128, now: u64)
    requires
        a.details_cache@.contains_key(key),
        now >= a.details_cache@[key].at,
    ensures
        now - a.details_cache@[key].at < (a.details_ttl_secs + 1) * 1000 <==> is_fresh(a, key, now),
{
    let d: int = now - a.details_cache@[key].at;
    let t: int = a.details_ttl_secs as int;
    assert(d / 1000 <= t <==> d < (t + 1) * 1000) by (nonlinear_arith)
        requires
            d >= 0,
            t >= 0,
    ;
}

/// A row that is selected is read by the chosen kind, its namespace and its name, unless what
/// was read of it is still fresh.
pub proof fn law_selection(pre: App, it: LiteView, now: u64, r: Selected, k: KindView)
    requires
        selection_of(pre, it, now, r),
        selected_kind(pre) == Some(k),
    ensures
        r.uid@ == it.uid,
        is_fresh(pre, be_value(it.uid) as u128, now) <==> r.next is Show,
        !is_fresh(pre, be_value(it.uid) as u128, now) <==> r.next is Fetch,
        r.next matches SelectNext::Fetch(x) ==> x.name@ == it.name && opt_text(x.namespace) == it.namespace && x.gvk@ == k,
{
}

/// A row that is selected leaves nothing of the one before: no text, no secrets, no edits.
pub proof fn law_selection_clears(pre: App, it: LiteView, now: u64, post: App)
    requires
        row_selected(pre, it, now, post),
    ensures
        post.details.selected is Some && post.details.selected->0@ == it.uid,
        post.details.buffer@.len() == 0,
        post.details.secret_entries@.len() == 0 && post.details.secret_revealed@.len() == 0,
        post.edit.buffer@.len() == 0 && !post.edit.dirty,
        post.logs.container is None && post.logs.containers@.len() == 0,
        post.describe.text@.len() == 0 && post.describe.uid is None,
        post.results == pre.results,
{
}

/// Messages stay for their time and go when it is over; those that warn stay longer than the
/// others, and errors the longest.
pub proof fn law_toasts(ts: Seq<Toast>, now: u64, t: Toast)
    ensures
        live_toasts(ts, now).contains(t) <==> ts.contains(t) && (now < t.created || now - t.created < t.duration_ms)
            && t.duration_ms > 0,
        stays_ms(ToastKind::Error) > stays_ms(ToastKind::Warn),
        stays_ms(ToastKind::Warn) > stays_ms(ToastKind::Info),
        stays_ms(ToastKind::Info) == stays_ms(ToastKind::Success),
        stays_ms(ToastKind::Info) > 0,
    decreases ts.len(),
{
    if ts.len() > 0 {
        let d = ts.drop_last();
        law_toasts(d, now, t);
        assert(ts =~= d.push(ts.last()));
        let rest = live_toasts(d, now);
        let all = live_toasts(ts, now);
        if d.contains(t) {
            let k = choose|k: int| 0 <= k < d.len() && d[k] == t;
            assert(ts[k] == t);
        }
        if ts.contains(t) {
            let k = choose|k: int| 0 <= k < ts.len() && ts[k] == t;
            if k < d.len() {
                assert(d[k] == t);
            } else if is_live(t, now) {
                assert(all[all.len() - 1] == t);
            }
        }
        if rest.contains(t) {
            let k = choose|k: int| 0 <= k < rest.len() && rest[k] == t;
            assert(all[k] == t);
        }
        if all.contains(t) {
            let k = choose|k: int| 0 <= k < all.len() && all[k] == t;
            if k < rest.len() {
                assert(rest[k] == t);
            } else {
                assert(ts[ts.len() - 1] == t);
            }
        }
    }
}

} // verus!
