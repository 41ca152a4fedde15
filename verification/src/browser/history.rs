//! Navigation history: past, present and future.

use crate::content::{Page, PageView};
use vstd::prelude::*;

verus! {

/// Where a visit went, and the page that was seen.
#[derive(Debug, Clone, PartialEq, Eq)]
pub struct Visit {
    pub site: String,
    pub path: String,
    pub page: Page,
}

/// The mathematical value of a [`Visit`].
pub struct VisitView {
    pub site: Seq<char>,
    pub path: Seq<char>,
    pub page: PageView,
}

impl View for Visit {
    type V = VisitView;

    open spec fn view(&self) -> VisitView {
        VisitView { site: self.site@, path: self.path@, page: self.page@ }
    }
}

/// The values of visits.
pub open spec fn visits_view(s: Seq<Visit>) -> Seq<VisitView> {
    Seq::new(s.len(), |i: int| s[i]@)
}

/// The visits, as stacks before and behind the present one.
#[derive(Debug)]
pub struct History {
    past: Vec<Visit>,
    present: Option<Visit>,
    future: Vec<Visit>,
}

/// The mathematical value of a [`History`].
pub struct HistoryView {
    /// Earlier visits, oldest first.
    pub past: Seq<VisitView>,
    pub present: Option<VisitView>,
    /// Later visits, latest first.
    pub future: Seq<VisitView>,
}

impl View for History {
    type V = HistoryView;

    closed spec fn view(&self) -> HistoryView {
        HistoryView {
            past: visits_view(self.past@),
            present: match self.present {
                Some(v) => Some(v@),
                None => None,
            },
            future: visits_view(self.future@),
        }
    }
}

/// A history without a visit.
pub open spec fn no_visits() -> HistoryView {
    HistoryView { past: Seq::empty(), present: None, future: Seq::empty() }
}

/// The past with the present one.
pub open spec fn past_and_present(h: HistoryView) -> Seq<VisitView> {
    match h.present {
        Some(v) => h.past.push(v),
        None => h.past,
    }
}

/// The history after a visit: the present one is past, the future is gone.
pub open spec fn visited(h: HistoryView, v: VisitView) -> HistoryView {
    HistoryView { past: past_and_present(h), present: Some(v), future: Seq::empty() }
}

/// A step back is possible.
pub open spec fn can_go_back(h: HistoryView) -> bool {
    h.present is Some && h.past.len() > 0
}

/// The history after a step back.
pub open spec fn gone_back(h: HistoryView) -> HistoryView {
    HistoryView {
        past: h.past.drop_last(),
        present: Some(h.past.last()),
        future: h.future.push(h.present->0),
    }
}

/// A step forward is possible.
pub open spec fn can_go_forward(h: HistoryView) -> bool {
    h.future.len() > 0
}

/// The history after a step forward.
pub open spec fn gone_forward(h: HistoryView) -> HistoryView {
    HistoryView {
        past: past_and_present(h),
        present: Some(h.future.last()),
        future: h.future.drop_last(),
    }
}

/// All visits, oldest first.
pub open spec fn all_visits(h: HistoryView) -> Seq<VisitView> {
    past_and_present(h) + h.future.reverse()
}

/// The history with another page in the present visit.
pub open spec fn with_page(h: HistoryView, page: PageView) -> HistoryView {
    HistoryView {
        present: match h.present {
            Some(v) => Some(VisitView { page, ..v }),
            None => None,
        },
        ..h
    }
}

impl Default for History {
    fn default() -> (h: Self)
        ensures
            h@ == no_visits(),
    {
        Self::new()
    }
}

impl History {
    /// A history without a visit.
    pub fn new() -> (h: Self)
        ensures
            h@ == no_visits(),
    {
        let h = History { past: Vec::new(), present: None, future: Vec::new() };
        assert(h@.past =~= no_visits().past);
        assert(h@.future =~= no_visits().future);
        h
    }

    /// Puts the present visit onto the past, and another in its place.
    fn advance(&mut self, visit: Visit)
        ensures
            final(self)@ == (HistoryView {
                past: past_and_present(old(self)@),
                present: Some(visit@),
                future: old(self)@.future,
            }),
            final(self).future@ == old(self).future@,
    {
        let mut present: Option<Visit> = Some(visit);
        std::mem::swap(&mut self.present, &mut present);
        if let Some(cur) = present {
            self.past.push(cur);
        }
        assert(self@.past =~= past_and_present(old(self)@));
    }

    /// Visits a page: the present one becomes past, the future is dropped.
    pub fn push(&mut self, visit: Visit)
        ensures
            final(self)@ == visited(old(self)@, visit@),
    {
        self.advance(visit);
        self.future = Vec::new();
        assert(self@.future =~= Seq::empty());
    }

    /// Steps back; returns the visit that is present then. Nothing at the
    /// oldest visit, which then stays.
    pub fn back(&mut self) -> (out: Option<&Visit>)
        ensures
            match out {
                Some(v) => can_go_back(old(self)@) && final(self)@ == gone_back(old(self)@)
                    && final(self)@.present == Some(v@),
                None => !can_go_back(old(self)@) && final(self)@ == old(self)@,
            },
    {
        if self.present.is_none() {
            return None;
        }
        match self.past.pop() {
            None => None,
            Some(prev) => {
                let mut present: Option<Visit> = Some(prev);
                std::mem::swap(&mut self.present, &mut present);
                if let Some(cur) = present {
                    self.future.push(cur);
                }
                assert(self@.past =~= gone_back(old(self)@).past);
                assert(self@.future =~= gone_back(old(self)@).future);
                self.present.as_ref()
            },
        }
    }

    /// Steps forward; returns the visit that is present then. Nothing without
    /// a future.
    pub fn forward(&mut self) -> (out: Option<&Visit>)
        ensures
            match out {
                Some(v) => can_go_forward(old(self)@) && final(self)@ == gone_forward(old(self)@)
                    && final(self)@.present == Some(v@),
                None => !can_go_forward(old(self)@) && final(self)@ == old(self)@,
            },
    {
        match self.future.pop() {
            None => None,
            Some(next) => {
                assert(self@.past =~= old(self)@.past);
                self.advance(next);
                assert(self@.future =~= gone_forward(old(self)@).future);
                self.present.as_ref()
            },
        }
    }

    /// The present visit.
    pub fn current(&self) -> (out: Option<&Visit>)
        ensures
            match out {
                Some(v) => self@.present == Some(v@),
                None => self@.present is None,
            },
    {
        self.present.as_ref()
    }

    /// Number of visits: past, present and future.
    pub fn len(&self) -> (n: usize)
        requires
            all_visits(self@).len() <= usize::MAX,
        ensures
            n == all_visits(self@).len(),
    {
        let present: usize = if self.present.is_some() {
            1
        } else {
            0
        };
        self.past.len() + present + self.future.len()
    }

    /// Whether there is no visit.
    pub fn is_empty(&self) -> (empty: bool)
        ensures
            empty == (all_visits(self@).len() == 0),
    {
        self.past.len() == 0 && self.present.is_none() && self.future.len() == 0
    }

    /// Position of the present visit among all.
    pub fn position(&self) -> (n: usize)
        ensures
            n == self@.past.len(),
    {
        self.past.len()
    }

    /// All visits, oldest first.
    pub fn entries(&self) -> (out: Vec<&Visit>)
        ensures
            out@.len() == all_visits(self@).len(),
            forall|i: int| 0 <= i < out@.len() ==> (#[trigger] out@[i])@ == all_visits(self@)[i],
    {
        let ghost all = all_visits(self@);
        let mut out: Vec<&Visit> = Vec::new();
        let mut i: usize = 0;
        while i < self.past.len()
            invariant
                i <= self.past@.len(),
                all == all_visits(self@),
                out@.len() == i,
                forall|j: int| 0 <= j < out@.len() ==> (#[trigger] out@[j])@ == all[j],
            decreases self.past@.len() - i,
        {
            assert(self.past@[i as int]@ == all[i as int]);
            out.push(&self.past[i]);
            i = i + 1;
        }
        if let Some(v) = &self.present {
            out.push(v);
        }
        let ghost n = past_and_present(self@).len();
        let mut k: usize = self.future.len();
        while k > 0
            invariant
                k <= self.future@.len(),
                all == all_visits(self@),
                n == past_and_present(self@).len(),
                out@.len() == n + (self.future@.len() - k),
                forall|j: int| 0 <= j < out@.len() ==> (#[trigger] out@[j])@ == all[j],
            decreases k,
        {
            k = k - 1;
            assert(self.future@[k as int]@ == all[out@.len() as int]);
            out.push(&self.future[k]);
        }
        out
    }

    /// Puts another page into the present visit; the future stays.
    pub fn replace_current(&mut self, page: Page)
        ensures
            final(self)@ == with_page(old(self)@, page@),
    {
        let mut present: Option<Visit> = None;
        std::mem::swap(&mut self.present, &mut present);
        if let Some(cur) = present {
            self.present = Some(Visit { site: cur.site, path: cur.path, page });
        }
    }
}

/// Back and forward undo each other, and neither adds or loses a visit.
pub proof fn law_back_and_forward_undo_each_other(h: HistoryView)
    ensures
        can_go_back(h) ==> can_go_forward(gone_back(h)) && gone_forward(gone_back(h)) == h,
        can_go_forward(h) && h.present is Some ==> can_go_back(gone_forward(h)) && gone_back(
            gone_forward(h),
        ) == h,
        can_go_back(h) ==> all_visits(gone_back(h)) == all_visits(h),
        can_go_forward(h) ==> all_visits(gone_forward(h)) == all_visits(h),
{
    if can_go_back(h) {
        let b = gone_back(h);
        assert(gone_forward(b).past =~= h.past);
        assert(gone_forward(b).future =~= h.future);
        assert(past_and_present(b) =~= h.past);
        assert(all_visits(b) =~= all_visits(h));
    }
    if can_go_forward(h) {
        let f = gone_forward(h);
        assert(all_visits(f) =~= all_visits(h));
        if h.present is Some {
            assert(gone_back(f).past =~= h.past);
            assert(gone_back(f).future =~= h.future);
        }
    }
}

/// A new visit is the last one, and nothing lies ahead of it; a reload
/// changes no other visit.
pub proof fn law_a_visit_drops_the_future(h: HistoryView, v: VisitView, page: PageView)
    ensures
        all_visits(visited(h, v)) == past_and_present(h).push(v),
        !can_go_forward(visited(h, v)),
        with_page(h, page).past == h.past && with_page(h, page).future == h.future,
        all_visits(with_page(h, page)).len() == all_visits(h).len(),
{
    assert(all_visits(visited(h, v)) =~= past_and_present(h).push(v));
}

/// A step back makes the visit right before the present one the present one,
/// a step forward the one right behind it; a visit is kept behind all that
/// came up to the present one. All visits are the past, the present one and
/// the future, in the order in which they were made.
pub proof fn law_steps_go_to_the_next_visit(h: HistoryView, v: VisitView)
    requires
        h.present is Some,
    ensures
        ({
            let n = h.past.len() as int;
            let all = all_visits(h);
            &&& all == h.past.push(h.present->0) + h.future.reverse()
            &&& all[n] == h.present->0
            &&& can_go_back(h) <==> n > 0
            &&& can_go_forward(h) <==> n + 1 < all.len()
            &&& n > 0 ==> gone_back(h).present == Some(all[n - 1]) && gone_back(h).past.len() == n
                - 1 && all_visits(gone_back(h)) == all
            &&& n + 1 < all.len() ==> gone_forward(h).present == Some(all[n + 1]) && gone_forward(
                h,
            ).past.len() == n + 1 && all_visits(gone_forward(h)) == all
            &&& all_visits(visited(h, v)) == all.take(n + 1).push(v)
            &&& visited(h, v).present == Some(v)
            &&& visited(h, v).past.len() == n + 1
        }),
{
    law_back_and_forward_undo_each_other(h);
    let n = h.past.len() as int;
    let all = all_visits(h);
    let f = h.future.len() as int;
    if f > 0 {
        assert(all[n + 1] == h.future.reverse()[0]);
        assert(h.future.reverse()[0] == h.future[f - 1]);
    }
    if n > 0 {
        assert(all[n - 1] == h.past[n - 1]);
    }
    assert(all.take(n + 1) =~= h.past.push(h.present->0));
    assert(all_visits(visited(h, v)) =~= all.take(n + 1).push(v));
}

/// The first visit is the only one; a reload puts the new page into the
/// present visit, whose site and path stay.
pub proof fn law_reloads_change_the_page_only(h: HistoryView, v: VisitView, page: PageView)
    ensures
        all_visits(visited(no_visits(), v)) == seq![v],
        !can_go_back(no_visits()) && !can_go_forward(no_visits()),
        h.present matches Some(old_visit) ==> with_page(h, page).present == Some(
            VisitView { site: old_visit.site, path: old_visit.path, page },
        ),
        h.present is None ==> with_page(h, page) == h,
        with_page(h, page).past == h.past,
        with_page(h, page).future == h.future,
{
    assert(all_visits(visited(no_visits(), v)) =~= seq![v]);
}

} // verus!
