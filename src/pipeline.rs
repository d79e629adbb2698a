//! A batch ingestion run: which dates to fetch, in what order, with a pause
//! after each fetch, then one trailing save of everything found. The caller
//! performs each fetch and pause and reports back.
use vstd::prelude::*;
use crate::decode::{decode_response, present, response_ok, result_from, json_i32};
use crate::json::{Json, json_bool, json_get, parse_json, parsed_json};
use crate::store::{has_draw, lemma_save_all_stores, request_key, save_all, to_fetch, ResultStore, StoreModel};
use crate::types::{LotteryRequest, LotteryResponse, LotteryResult, StorageError};

verus! {

/// What one fetch of a draw date came to.
pub enum FetchOutcome {
    /// The service reported this result.
    Found(LotteryResult),
    /// The service answered without a result for the date.
    NoResult,
    /// The reply could not be decoded.
    DecodeError,
    /// The request did not get a reply.
    TransportError,
}

/// The result object of a reply that reports one: `status` true,
/// `statusCode` 200, and a present `response.result`.
pub open spec fn reported_result(doc: Json) -> Option<Json> {
    if json_bool(json_get(doc, "status"@)) == Some(true) && json_i32(json_get(doc, "statusCode"@)) == Some(200i32) {
        match present(json_get(doc, "response"@)) {
            Some(p) => present(json_get(p, "result"@)),
            None => None,
        }
    } else {
        None
    }
}

/// Whether `resp` reports a result, and which.
pub open spec fn reply_result(resp: LotteryResponse) -> Option<LotteryResult> {
    if resp.status && resp.status_code == 200 {
        match resp.response {
            Some(p) => p.result,
            None => None,
        }
    } else {
        None
    }
}

/// Classifies a decoded reply: the result it reports, or no result.
pub fn classify_response(resp: LotteryResponse) -> (r: FetchOutcome)
    ensures
        match r {
            FetchOutcome::Found(x) => reply_result(resp) == Some(x),
            FetchOutcome::NoResult => reply_result(resp) is None,
            _ => false,
        },
{
    if resp.status && resp.status_code == 200 {
        match resp.response {
            Some(p) => match p.result {
                Some(x) => FetchOutcome::Found(x),
                None => FetchOutcome::NoResult,
            },
            None => FetchOutcome::NoResult,
        }
    } else {
        FetchOutcome::NoResult
    }
}

/// What a reply body comes to: a decode error where it is not JSON or not a
/// reply object; else the result it reports, or no result.
pub fn decode_lottery_response(body: &str) -> (r: FetchOutcome)
    ensures
        match parsed_json(body@) {
            None => r is DecodeError,
            Some(doc) => if !response_ok(doc) {
                r is DecodeError
            } else {
                match r {
                    FetchOutcome::Found(x) => reported_result(doc) is Some && result_from(
                        reported_result(doc)->Some_0,
                        x,
                    ),
                    FetchOutcome::NoResult => reported_result(doc) is None,
                    _ => false,
                }
            },
        },
{
    let doc = match parse_json(body) {
        Some(d) => d,
        None => {
            return FetchOutcome::DecodeError;
        },
    };
    match decode_response(&doc) {
        Some(resp) => classify_response(resp),
        None => FetchOutcome::DecodeError,
    }
}

/// The results found among fetch outcomes, in order.
pub open spec fn found_results(os: Seq<FetchOutcome>) -> Seq<LotteryResult>
    decreases os.len(),
{
    if os.len() == 0 {
        Seq::empty()
    } else {
        match os.last() {
            FetchOutcome::Found(x) => found_results(os.drop_last()).push(x),
            _ => found_results(os.drop_last()),
        }
    }
}

/// The next thing a run asks its caller to do.
pub enum RunAction {
    /// Fetch the result of this date.
    Fetch(LotteryRequest),
    /// Wait the pacing interval.
    Pause,
    /// Every date has been fetched; finish the run.
    Complete,
}

/// One step a run has taken.
pub enum RunStep {
    /// The date at this position of the dates to fetch was fetched.
    Fetched(usize),
    /// The pacing interval passed.
    Paused,
}

/// The steps of a run that fetches in order and pauses after each fetch,
/// after `n` steps: fetch 0, pause, fetch 1, pause, and so on.
pub open spec fn paced_steps(n: nat) -> Seq<RunStep>
    decreases n,
{
    if n == 0 {
        Seq::empty()
    } else {
        let k = (n - 1) as nat;
        paced_steps(k).push(if k % 2 == 0 { RunStep::Fetched((k / 2) as usize) } else { RunStep::Paused })
    }
}

/// A batch ingestion run.
pub struct IngestionRun {
    pending: Vec<(String, String, String)>,
    next: usize,
    pause_due: bool,
    pauses: usize,
    results: Vec<LotteryResult>,
    outcomes: Ghost<Seq<FetchOutcome>>,
    steps: Ghost<Seq<RunStep>>,
}

/// The model of an [`IngestionRun`]: the dates to fetch, how many were
/// fetched, whether a pause is due, how many pauses were taken, the results
/// found, every outcome so far (outcome `i` is that of date `i`), and the
/// steps taken.
pub struct RunView {
    pub pending: Seq<(String, String, String)>,
    pub next: int,
    pub pause_due: bool,
    pub pauses: int,
    pub results: Seq<LotteryResult>,
    pub outcomes: Seq<FetchOutcome>,
    pub steps: Seq<RunStep>,
}

impl View for IngestionRun {
    type V = RunView;

    closed spec fn view(&self) -> RunView {
        RunView {
            pending: self.pending@,
            next: self.next as int,
            pause_due: self.pause_due,
            pauses: self.pauses as int,
            results: self.results@,
            outcomes: self.outcomes@,
            steps: self.steps@,
        }
    }
}

/// The run's invariant: one outcome per date fetched, the results are those
/// found in order, every fetch is followed by a pause, and the steps taken
/// alternate fetch and pause in date order.
pub open spec fn run_wf(r: RunView) -> bool {
    &&& 0 <= r.next <= r.pending.len()
    &&& r.outcomes.len() == r.next
    &&& r.results == found_results(r.outcomes)
    &&& r.pauses + (if r.pause_due { 1int } else { 0int }) == r.next
    &&& r.steps == paced_steps((r.next + r.pauses) as nat)
}

/// Whether every date has been fetched and paced.
pub open spec fn run_complete(r: RunView) -> bool {
    r.next == r.pending.len() && !r.pause_due
}

/// When every requested date is already stored, there is nothing to fetch.
pub proof fn lemma_full_overlap_fetches_nothing(ds: Seq<crate::types::DrawRowView>, reqs: Seq<(String, String, String)>)
    requires
        forall|j: int| 0 <= j < reqs.len() ==> has_draw(ds, request_key(#[trigger] reqs[j])),
    ensures
        to_fetch(ds, reqs).len() == 0,
    decreases reqs.len(),
{
    if reqs.len() > 0 {
        assert forall|j: int| 0 <= j < reqs.drop_last().len() implies has_draw(
            ds,
            request_key(#[trigger] reqs.drop_last()[j]),
        ) by {
            assert(reqs.drop_last()[j] == reqs[j]);
        }
        lemma_full_overlap_fetches_nothing(ds, reqs.drop_last());
        assert(has_draw(ds, request_key(reqs[reqs.len() - 1])));
    }
}

/// Step `k` of a paced run: even steps fetch date `k / 2`, odd steps pause.
pub proof fn lemma_paced_step(n: nat, k: int)
    requires
        0 <= k < n,
    ensures
        paced_steps(n).len() == n,
        paced_steps(n)[k] == (if k % 2 == 0 { RunStep::Fetched((k / 2) as usize) } else { RunStep::Paused }),
    decreases n,
{
    lemma_paced_len((n - 1) as nat);
    if k < n - 1 {
        lemma_paced_step((n - 1) as nat, k);
    }
}

/// A paced run of `n` steps has taken `n` steps.
pub proof fn lemma_paced_len(n: nat)
    ensures
        paced_steps(n).len() == n,
    decreases n,
{
    if n > 0 {
        lemma_paced_len((n - 1) as nat);
    }
}

/// A complete run over N dates took 2N steps: fetch of date `i` at step
/// `2i`, a pause right after it at step `2i + 1`. So the dates are fetched
/// one at a time in order, never two without a pause between them, and at
/// least N - 1 pauses (in fact N) pass before the run completes.
pub proof fn lemma_pacing(r: RunView)
    requires
        run_wf(r),
        run_complete(r),
    ensures
        r.outcomes.len() == r.pending.len(),
        r.pauses == r.pending.len(),
        r.pauses >= r.pending.len() - 1,
        r.steps.len() == 2 * r.pending.len(),
        forall|i: int| 0 <= i < r.pending.len() ==> #[trigger] r.steps[2 * i] == RunStep::Fetched(i as usize)
            && r.steps[2 * i + 1] == RunStep::Paused,
{
    let n = (r.next + r.pauses) as nat;
    lemma_paced_len(n);
    assert forall|i: int| 0 <= i < r.pending.len() implies #[trigger] r.steps[2 * i] == RunStep::Fetched(i as usize)
        && r.steps[2 * i + 1] == RunStep::Paused by {
        lemma_paced_step(n, 2 * i);
        lemma_paced_step(n, 2 * i + 1);
        assert((2 * i) % 2 == 0 && (2 * i) / 2 == i) by (nonlinear_arith);
        assert((2 * i + 1) % 2 == 1) by (nonlinear_arith);
    }
}

/// Where every fetch found a result, the run's results are those results in
/// the order of the dates fetched.
pub proof fn lemma_all_found_in_order(os: Seq<FetchOutcome>)
    requires
        forall|i: int| 0 <= i < os.len() ==> #[trigger] os[i] is Found,
    ensures
        found_results(os) == os.map_values(|o: FetchOutcome| o->Found_0),
    decreases os.len(),
{
    if os.len() > 0 {
        assert forall|i: int| 0 <= i < os.drop_last().len() implies #[trigger] os.drop_last()[i] is Found by {
            assert(os.drop_last()[i] == os[i]);
        }
        lemma_all_found_in_order(os.drop_last());
        assert(os[os.len() - 1] is Found);
        assert(os.map_values(|o: FetchOutcome| o->Found_0) =~= os.drop_last().map_values(
            |o: FetchOutcome| o->Found_0,
        ).push(os.last()->Found_0));
    }
}

/// Where the fetch of date `d` failed in transport and every other fetch
/// found a result, the run's results are the other dates' results, in order:
/// the failure stops nothing.
pub proof fn lemma_one_failure_batch(os: Seq<FetchOutcome>, d: int)
    requires
        0 <= d < os.len(),
        os[d] is TransportError,
        forall|i: int| 0 <= i < os.len() && i != d ==> #[trigger] os[i] is Found,
    ensures
        found_results(os) == os.remove(d).map_values(|o: FetchOutcome| o->Found_0),
        found_results(os).len() == os.len() - 1,
    decreases os.len(),
{
    let pre = os.drop_last();
    if d == os.len() - 1 {
        assert(os.remove(d) =~= pre);
        assert forall|i: int| 0 <= i < pre.len() implies #[trigger] pre[i] is Found by {
            assert(pre[i] == os[i]);
        }
        lemma_all_found_in_order(pre);
    } else {
        assert forall|i: int| 0 <= i < pre.len() && i != d implies #[trigger] pre[i] is Found by {
            assert(pre[i] == os[i]);
        }
        assert(pre[d] == os[d]);
        lemma_one_failure_batch(pre, d);
        assert(os[os.len() - 1] is Found);
        assert(os.remove(d) =~= pre.remove(d).push(os.last()));
        assert(os.remove(d).map_values(|o: FetchOutcome| o->Found_0) =~= pre.remove(d).map_values(
            |o: FetchOutcome| o->Found_0,
        ).push(os.last()->Found_0));
    }
}

/// In a complete run over more than one date where the fetch of date `d`
/// failed in transport and every other fetch found a result, the run returns
/// the other dates' results in date order, and where the trailing save
/// succeeds each of their draws is stored.
pub proof fn lemma_transport_failure_batch(r: RunView, d: int, s: StoreModel, created: Seq<char>)
    requires
        run_wf(r),
        run_complete(r),
        r.pending.len() > 1,
        0 <= d < r.pending.len(),
        r.outcomes[d] is TransportError,
        forall|i: int| 0 <= i < r.outcomes.len() && i != d ==> #[trigger] r.outcomes[i] is Found,
        save_all(s, r.results, created).1,
    ensures
        r.results == r.outcomes.remove(d).map_values(|o: FetchOutcome| o->Found_0),
        forall|i: int| 0 <= i < r.outcomes.len() && i != d ==> has_draw(
            save_all(s, r.results, created).0.draws,
            (#[trigger] r.outcomes[i])->Found_0.date@,
        ),
{
    lemma_one_failure_batch(r.outcomes, d);
    lemma_save_all_stores(s, r.results, created);
    assert forall|i: int| 0 <= i < r.outcomes.len() && i != d implies has_draw(
        save_all(s, r.results, created).0.draws,
        (#[trigger] r.outcomes[i])->Found_0.date@,
    ) by {
        let j = if i < d { i } else { i - 1 };
        assert(r.outcomes.remove(d)[j] == r.outcomes[i]);
        assert(r.results[j] == r.outcomes[i]->Found_0);
    }
}

/// A failed fetch loses nothing else: every result found, whatever failed
/// around it, is among the run's results, and in fetch order.
pub proof fn lemma_failures_tolerated(os: Seq<FetchOutcome>, j: int)
    requires
        0 <= j < os.len(),
        os[j] is Found,
    ensures
        found_results(os).contains(os[j]->Found_0),
        found_results(os.subrange(0, j + 1)).last() == os[j]->Found_0,
        found_results(os.subrange(0, j + 1)).is_prefix_of(found_results(os)),
    decreases os.len(),
{
    let pre = os.subrange(0, j + 1);
    assert(pre.drop_last() =~= os.subrange(0, j));
    assert(pre.last() == os[j]);
    lemma_found_prefix(os, j + 1);
    let f = found_results(os);
    let fp = found_results(pre);
    assert(f[fp.len() - 1] == fp[fp.len() - 1]);
}

/// The results found in a prefix of the outcomes start the results found in all.
pub proof fn lemma_found_prefix(os: Seq<FetchOutcome>, n: int)
    requires
        0 <= n <= os.len(),
    ensures
        found_results(os.subrange(0, n)).is_prefix_of(found_results(os)),
    decreases os.len(),
{
    if n == os.len() {
        assert(os.subrange(0, n) =~= os);
        assert(found_results(os).subrange(0, found_results(os).len() as int) =~= found_results(os));
    } else {
        lemma_found_prefix(os.drop_last(), n);
        assert(os.drop_last().subrange(0, n) =~= os.subrange(0, n));
        let a = found_results(os.subrange(0, n));
        let b = found_results(os.drop_last());
        assert(found_results(os).subrange(0, a.len() as int) =~= b.subrange(0, a.len() as int));
    }
}

impl IngestionRun {
    /// Starts a run over the requested `(day, month, year)` dates: the dates
    /// already stored are skipped, the others are fetched in request order.
    pub fn start(store: &ResultStore, dates: &Vec<(String, String, String)>) -> (r: IngestionRun)
        requires
            store.wf(),
        ensures
            run_wf(r@),
            r@.pending == to_fetch(store@.draws, dates@),
            r@.next == 0,
            r@.pauses == 0,
            !r@.pause_due,
            r@.results.len() == 0,
    {
        let (pending, _stored) = store.check_existing_dates(dates);
        let r = IngestionRun {
            pending,
            next: 0,
            pause_due: false,
            pauses: 0,
            results: Vec::new(),
            outcomes: Ghost(Seq::empty()),
            steps: Ghost(Seq::empty()),
        };
        assert(r@.results =~= found_results(Seq::empty()));
        r
    }

    /// The run's invariant.
    pub open spec fn wf(&self) -> bool {
        run_wf(self@)
    }

    /// What the caller is to do next: pause after a fetch, else fetch the
    /// next date, else complete.
    pub fn next_action(&self) -> (r: RunAction)
        requires
            self.wf(),
        ensures
            match r {
                RunAction::Pause => self@.pause_due,
                RunAction::Fetch(req) => !self@.pause_due && self@.next < self@.pending.len()
                    && req.date@ == self@.pending[self@.next].0@
                    && req.month@ == self@.pending[self@.next].1@
                    && req.year@ == self@.pending[self@.next].2@,
                RunAction::Complete => run_complete(self@),
            },
    {
        if self.pause_due {
            RunAction::Pause
        } else if self.next < self.pending.len() {
            let t = &self.pending[self.next];
            RunAction::Fetch(LotteryRequest { date: t.0.clone(), month: t.1.clone(), year: t.2.clone() })
        } else {
            RunAction::Complete
        }
    }

    /// Records what the fetch of the next date came to. Whatever it was, the
    /// run goes on with the date after it; a found result is kept.
    pub fn record_fetch(&mut self, outcome: FetchOutcome)
        requires
            old(self).wf(),
            !old(self)@.pause_due,
            old(self)@.next < old(self)@.pending.len(),
        ensures
            final(self).wf(),
            final(self)@.pending == old(self)@.pending,
            final(self)@.next == old(self)@.next + 1,
            final(self)@.pause_due,
            final(self)@.pauses == old(self)@.pauses,
            final(self)@.outcomes == old(self)@.outcomes.push(outcome),
            final(self)@.steps == old(self)@.steps.push(RunStep::Fetched(old(self)@.next as usize)),
            final(self)@.results == match outcome {
                FetchOutcome::Found(x) => old(self)@.results.push(x),
                _ => old(self)@.results,
            },
    {
        let ghost o = outcome;
        let ghost prev = self.outcomes@;
        let len = self.pending.len();
        assert(self.next < len);
        match outcome {
            FetchOutcome::Found(x) => {
                self.results.push(x);
            },
            _ => {},
        }
        self.outcomes = Ghost(prev.push(o));
        let ghost n = (self.next + self.pauses) as nat;
        self.steps = Ghost(self.steps@.push(RunStep::Fetched(self.next)));
        proof {
            assert(n % 2 == 0 && n / 2 == self.next);
        }
        self.next = self.next + 1;
        self.pause_due = true;
        assert(self.outcomes@.drop_last() =~= prev);
    }

    /// Records that the pacing interval has passed.
    pub fn record_pause(&mut self)
        requires
            old(self).wf(),
            old(self)@.pause_due,
        ensures
            final(self).wf(),
            final(self)@ == (RunView {
                pause_due: false,
                pauses: old(self)@.pauses + 1,
                steps: old(self)@.steps.push(RunStep::Paused),
                ..old(self)@
            }),
    {
        let len = self.pending.len();
        assert(self.pauses < len);
        let ghost n = (self.next + self.pauses) as nat;
        self.steps = Ghost(self.steps@.push(RunStep::Paused));
        proof {
            assert(n % 2 == 1);
        }
        self.pause_due = false;
        self.pauses = self.pauses + 1;
    }

    /// The results found so far, in fetch order.
    pub fn results(&self) -> (r: &Vec<LotteryResult>)
        ensures
            r@ == self@.results,
    {
        &self.results
    }

    /// Ends a complete run: saves everything found, in order, in one batch
    /// (nothing when nothing was found), and hands back the results whether
    /// or not the save succeeded, with the save's outcome.
    pub fn finish(self, store: &mut ResultStore, created_at: &str) -> (r: (Vec<LotteryResult>, Result<(), StorageError>))
        requires
            self.wf(),
            run_complete(self@),
            old(store).wf(),
        ensures
            final(store).wf(),
            r.0@ == self@.results,
            r.0@ == found_results(self@.outcomes),
            self@.results.len() == 0 ==> final(store)@ == old(store)@ && r.1 is Ok,
            self@.results.len() > 0 ==> final(store)@ == save_all(old(store)@, self@.results, created_at@).0
                && (r.1 is Ok <==> save_all(old(store)@, self@.results, created_at@).1),
    {
        if self.results.len() == 0 {
            return (self.results, Ok(()));
        }
        let saved = store.save_multiple_lottery_results(&self.results, created_at);
        (self.results, saved)
    }
}

} // verus!
