use crate::clock::{days_later, plus_days};
use crate::epoch::{EpochState, EpochView};
use crate::types::{
    report_views, EpochReport, EpochReportView, PolError, PolReport, PolReportView, Timestamp,
};
use vstd::prelude::*;

verus! {

/// The views of a run of epoch states.
pub open spec fn epoch_views(epochs: Seq<EpochState>) -> Seq<EpochView> {
    epochs.map_values(|e: EpochState| e@)
}

/// Whether the epochs stand in ascending order of their ids.
pub open spec fn ascending(epochs: Seq<EpochView>) -> bool {
    forall|i: int, j: int| 0 <= i < j < epochs.len() ==> epochs[i].epoch_id <= epochs[j].epoch_id
}

/// `sorted` with `epoch` put behind the last epoch whose id is not greater.
pub open spec fn insert_by_id(sorted: Seq<EpochView>, epoch: EpochView) -> Seq<EpochView>
    decreases sorted.len(),
{
    if sorted.len() == 0 || epoch.epoch_id < sorted[0].epoch_id {
        seq![epoch] + sorted
    } else {
        seq![sorted[0]] + insert_by_id(sorted.drop_first(), epoch)
    }
}

/// The epochs in ascending order of their ids. Epochs of one id keep the
/// order in which they came.
pub open spec fn in_id_order(epochs: Seq<EpochView>) -> Seq<EpochView>
    decreases epochs.len(),
{
    if epochs.len() == 0 {
        epochs
    } else {
        insert_by_id(in_id_order(epochs.drop_last()), epochs.last())
    }
}

/// Inserting keeps the order and adds exactly the one epoch.
pub proof fn lemma_insert_by_id(sorted: Seq<EpochView>, epoch: EpochView)
    requires
        ascending(sorted),
    ensures
        ascending(insert_by_id(sorted, epoch)),
        insert_by_id(sorted, epoch).len() == sorted.len() + 1,
        insert_by_id(sorted, epoch).to_multiset() == sorted.to_multiset().insert(epoch),
    decreases sorted.len(),
{
    broadcast use vstd::seq_lib::group_to_multiset_ensures;

    let out = insert_by_id(sorted, epoch);
    if sorted.len() == 0 || epoch.epoch_id < sorted[0].epoch_id {
        assert(out =~= sorted.insert(0, epoch));
    } else {
        let rest = sorted.drop_first();
        assert(ascending(rest)) by {
            assert forall|i: int, j: int| 0 <= i < j < rest.len() implies rest[i].epoch_id
                <= rest[j].epoch_id by {
                assert(rest[i] == sorted[i + 1] && rest[j] == sorted[j + 1]);
            }
        }
        lemma_insert_by_id(rest, epoch);
        let tail = insert_by_id(rest, epoch);
        assert(out =~= tail.insert(0, sorted[0]));
        assert(sorted =~= rest.insert(0, sorted[0]));
        assert forall|i: int, j: int| 0 <= i < j < out.len() implies out[i].epoch_id
            <= out[j].epoch_id by {
            if i == 0 {
                // Whatever stands in `tail` is `epoch` or stood in `rest`.
                let late = tail[j - 1];
                assert(tail.to_multiset().count(late) > 0);
                if late != epoch {
                    assert(rest.to_multiset().count(late) > 0);
                    let k = choose|k: int| 0 <= k < rest.len() && rest[k] == late;
                    assert(sorted[k + 1] == late);
                }
            } else {
                assert(out[i] == tail[i - 1] && out[j] == tail[j - 1]);
            }
        }
    }
}

/// Ordering by id gives the same epochs, each as often as before, in
/// ascending order of their ids.
pub proof fn lemma_in_id_order(epochs: Seq<EpochView>)
    ensures
        ascending(in_id_order(epochs)),
        in_id_order(epochs).len() == epochs.len(),
        in_id_order(epochs).to_multiset() == epochs.to_multiset(),
    decreases epochs.len(),
{
    broadcast use vstd::seq_lib::group_to_multiset_ensures;

    if epochs.len() > 0 {
        lemma_in_id_order(epochs.drop_last());
        lemma_insert_by_id(in_id_order(epochs.drop_last()), epochs.last());
        assert(epochs =~= epochs.drop_last().push(epochs.last()));
    }
}

/// Where `epoch` goes: behind `at` epochs whose ids are not greater, before
/// one whose id is.
proof fn lemma_insert_at(sorted: Seq<EpochView>, epoch: EpochView, at: int)
    requires
        0 <= at <= sorted.len(),
        forall|j: int| 0 <= j < at ==> sorted[j].epoch_id <= epoch.epoch_id,
        at < sorted.len() ==> epoch.epoch_id < sorted[at].epoch_id,
    ensures
        insert_by_id(sorted, epoch) == sorted.insert(at, epoch),
    decreases at,
{
    if at == 0 {
        assert(insert_by_id(sorted, epoch) =~= sorted.insert(0, epoch));
    } else {
        let rest = sorted.drop_first();
        assert(sorted[0].epoch_id <= epoch.epoch_id);
        assert forall|j: int| 0 <= j < at - 1 implies rest[j].epoch_id <= epoch.epoch_id by {
            assert(rest[j] == sorted[j + 1]);
        }
        lemma_insert_at(rest, epoch, at - 1);
        assert(seq![sorted[0]] + rest.insert(at - 1, epoch) =~= sorted.insert(at, epoch));
    }
}

/// Puts the epochs in ascending order of their ids.
pub fn sort_by_id(epochs: Vec<EpochState>) -> (sorted: Vec<EpochState>)
    ensures
        epoch_views(sorted@) == in_id_order(epoch_views(epochs@)),
{
    let ghost all = epoch_views(epochs@);
    let mut sorted: Vec<EpochState> = Vec::new();
    assert(all.subrange(0, 0) =~= Seq::empty());
    assert(epoch_views(sorted@) =~= Seq::empty());
    for epoch in it: epochs
        invariant
            it.seq() == epochs@,
            all == epoch_views(epochs@),
            epoch_views(sorted@) == in_id_order(all.subrange(0, it.index() as int)),
    {
        let ghost before = epoch_views(sorted@);
        let id = epoch.epoch_id();
        let mut at: usize = 0;
        while at < sorted.len() && sorted[at].epoch_id() <= id
            invariant
                at <= sorted.len(),
                before == epoch_views(sorted@),
                forall|j: int| 0 <= j < at ==> before[j].epoch_id <= id,
            decreases sorted.len() - at,
        {
            at += 1;
        }
        proof {
            let seen = all.subrange(0, it.index() as int);
            let next = all.subrange(0, it.index() + 1);
            assert(next.drop_last() =~= seen);
            assert(next.last() == epoch@);
            lemma_insert_at(before, epoch@, at as int);
            assert(epoch_views(sorted@.insert(at as int, epoch)) =~= before.insert(
                at as int,
                epoch@,
            ));
        }
        sorted.insert(at, epoch);
    }
    assert(all.subrange(0, epochs@.len() as int) =~= all);
    sorted
}

impl EpochView {
    /// When the epoch ended: a configured number of days after it started.
    /// The current epoch, and any after it, has not ended.
    pub open spec fn end_time(self, current_epoch: u64, epoch_days: i64) -> Option<Timestamp> {
        if self.epoch_id < current_epoch {
            days_later(self.start_time.secs, self.start_time.nanos, epoch_days)
        } else {
            None
        }
    }

    /// Whether the end of the epoch can be told: it is open, or its end is a
    /// time that exists.
    pub open spec fn closes(self, current_epoch: u64, epoch_days: i64) -> bool {
        self.epoch_id < current_epoch ==> self.end_time(current_epoch, epoch_days) is Some
    }

    /// The report of the epoch.
    pub open spec fn report(self, current_epoch: u64, epoch_days: i64) -> EpochReportView {
        EpochReportView {
            epoch_id: self.epoch_id,
            start_time: self.start_time,
            end_time: self.end_time(current_epoch, epoch_days),
            mint_proofs: self.mint_proofs,
            burn_proofs: self.burn_proofs,
            outstanding_balance: self.balance() as u64,
        }
    }
}

/// The sum of what the epochs still owe.
pub open spec fn total_balance(epochs: Seq<EpochView>) -> nat
    decreases epochs.len(),
{
    if epochs.len() == 0 {
        0
    } else {
        total_balance(epochs.drop_last()) + epochs.last().balance()
    }
}

/// Whether the epochs can be reported: their sum fits the width of an
/// amount and the end of each closed epoch is a time that exists.
pub open spec fn reportable(epochs: Seq<EpochView>, current_epoch: u64, epoch_days: i64) -> bool {
    &&& total_balance(epochs) <= u64::MAX
    &&& forall|i: int| 0 <= i < epochs.len() ==> (#[trigger] epochs[i]).closes(
        current_epoch,
        epoch_days,
    )
}

/// The report on the epochs, made at the time `now`: one entry for each, in
/// ascending order of the ids.
pub open spec fn ledger_report(
    epochs: Seq<EpochView>,
    current_epoch: u64,
    epoch_days: i64,
    now: Timestamp,
) -> PolReportView {
    PolReportView {
        epoch_reports: in_id_order(epochs).map_values(
            |e: EpochView| e.report(current_epoch, epoch_days),
        ),
        total_outstanding_balance: total_balance(in_id_order(epochs)) as u64,
        timestamp: now,
    }
}

/// What a failed report says.
pub open spec fn out_of_range_text() -> Seq<char> {
    "a value of the report is out of range"@
}

/// The sum of the balances is at least each of them.
pub proof fn lemma_total_balance_bounds(epochs: Seq<EpochView>, i: int)
    requires
        0 <= i < epochs.len(),
    ensures
        epochs[i].balance() <= total_balance(epochs),
        total_balance(epochs.subrange(0, i + 1)) <= total_balance(epochs),
    decreases epochs.len(),
{
    if i == epochs.len() - 1 {
        assert(epochs.subrange(0, i + 1) =~= epochs);
    } else {
        lemma_total_balance_bounds(epochs.drop_last(), i);
        assert(epochs.drop_last().subrange(0, i + 1) =~= epochs.subrange(0, i + 1));
    }
}

fn out_of_range() -> (error: PolError)
    ensures
        error matches PolError::ReportGenerationFailed(why) && why@ == out_of_range_text(),
{
    PolError::ReportGenerationFailed("a value of the report is out of range".to_owned())
}

impl EpochView {
    /// The report of the epoch where `end` is what adding the days of an
    /// epoch to its start gave: the end is told for an epoch before the
    /// current one only.
    pub open spec fn report_ending(self, current_epoch: u64, end: Option<Timestamp>)
        -> EpochReportView {
        EpochReportView {
            epoch_id: self.epoch_id,
            start_time: self.start_time,
            end_time: if self.epoch_id < current_epoch {
                end
            } else {
                None
            },
            mint_proofs: self.mint_proofs,
            burn_proofs: self.burn_proofs,
            outstanding_balance: self.balance() as u64,
        }
    }
}

/// The report of one epoch, given its end: `end` is the time a configured
/// number of days after the start of the epoch, or `None` where no such
/// time exists. There is a report where the balance of the epoch fits the
/// width of an amount and, for an epoch before the current one, the end
/// exists.
pub fn epoch_report_ending(epoch: EpochState, current_epoch: u64, end: Option<Timestamp>) -> (report:
    Option<EpochReport>)
    ensures
        match report {
            Some(report) => {
                &&& epoch@.balance() <= u64::MAX
                &&& epoch@.epoch_id < current_epoch ==> end is Some
                &&& report@ == epoch@.report_ending(current_epoch, end)
            },
            None => !(epoch@.balance() <= u64::MAX && (epoch@.epoch_id < current_epoch ==> end
                is Some)),
        },
{
    let epoch_id = epoch.epoch_id();
    let start_time = epoch.start_time();
    let outstanding_balance = match epoch.outstanding_balance() {
        Some(balance) => balance,
        None => {
            return None;
        },
    };
    let end_time = if epoch_id < current_epoch {
        match end {
            Some(end) => Some(end),
            None => {
                return None;
            },
        }
    } else {
        None
    };
    let (mint_proofs, burn_proofs) = epoch.into_events();
    Some(EpochReport { epoch_id, start_time, end_time, mint_proofs, burn_proofs, outstanding_balance })
}

/// The report of one epoch, where its balance fits the width of an amount
/// and its end can be told. The end of an epoch before the current one is
/// computed from its start; [`epoch_report_ending`] does the rest.
pub fn epoch_report(epoch: EpochState, current_epoch: u64, epoch_days: i64) -> (report: Option<
    EpochReport,
>)
    ensures
        match report {
            Some(report) => {
                &&& epoch@.balance() <= u64::MAX
                &&& epoch@.closes(current_epoch, epoch_days)
                &&& report@ == epoch@.report(current_epoch, epoch_days)
            },
            None => !(epoch@.balance() <= u64::MAX && epoch@.closes(current_epoch, epoch_days)),
        },
{
    let end = if epoch.epoch_id() < current_epoch {
        plus_days(epoch.start_time(), epoch_days)
    } else {
        None
    };
    epoch_report_ending(epoch, current_epoch, end)
}

/// The views of a run of epochs, each with the end that was computed for
/// it.
pub open spec fn dated_views(dated: Seq<(EpochState, Option<Timestamp>)>) -> Seq<
    (EpochView, Option<Timestamp>),
> {
    dated.map_values(|d: (EpochState, Option<Timestamp>)| (d.0@, d.1))
}

/// The epochs of a run of epochs with their ends.
pub open spec fn epochs_of(dated: Seq<(EpochView, Option<Timestamp>)>) -> Seq<EpochView> {
    dated.map_values(|d: (EpochView, Option<Timestamp>)| d.0)
}

/// Whether epochs with their ends can be reported: the sum of the balances
/// fits the width of an amount and each epoch before the current one has an
/// end.
pub open spec fn dated_reportable(
    dated: Seq<(EpochView, Option<Timestamp>)>,
    current_epoch: u64,
) -> bool {
    &&& total_balance(epochs_of(dated)) <= u64::MAX
    &&& forall|i: int|
        0 <= i < dated.len() && (#[trigger] dated[i]).0.epoch_id < current_epoch
            ==> dated[i].1 is Some
}

/// The report on epochs with their ends, made at the time `now`: one entry
/// for each, in the order in which they stand, and the sum of the
/// balances.
pub open spec fn dated_report(
    dated: Seq<(EpochView, Option<Timestamp>)>,
    current_epoch: u64,
    now: Timestamp,
) -> PolReportView {
    PolReportView {
        epoch_reports: dated.map_values(
            |d: (EpochView, Option<Timestamp>)| d.0.report_ending(current_epoch, d.1),
        ),
        total_outstanding_balance: total_balance(epochs_of(dated)) as u64,
        timestamp: now,
    }
}

/// Reports on epochs whose ends are given, in the order in which they
/// stand: each epoch with its events, its balance and, where it lies before
/// `current_epoch`, its end; and the sum of the balances. `now` is the time
/// of the report.
///
/// The report fails where the sum does not fit the width of an amount or an
/// epoch before the current one has no end.
pub fn report_of_dated(
    dated: Vec<(EpochState, Option<Timestamp>)>,
    current_epoch: u64,
    now: Timestamp,
) -> (result: Result<PolReport, PolError>)
    ensures
        match result {
            Ok(report) => {
                &&& dated_reportable(dated_views(dated@), current_epoch)
                &&& report@ == dated_report(dated_views(dated@), current_epoch, now)
            },
            Err(error) => {
                &&& !dated_reportable(dated_views(dated@), current_epoch)
                &&& error matches PolError::ReportGenerationFailed(why) && why@
                    == out_of_range_text()
            },
        },
{
    let ghost all = dated_views(dated@);
    let ghost epochs = epochs_of(all);
    let mut epoch_reports: Vec<EpochReport> = Vec::new();
    let mut total: u64 = 0;
    assert(report_views(epoch_reports@) =~= all.subrange(0, 0).map_values(
        |d: (EpochView, Option<Timestamp>)| d.0.report_ending(current_epoch, d.1),
    ));
    assert(epochs.subrange(0, 0) =~= Seq::empty());
    for entry in it: dated
        invariant
            it.seq() == dated@,
            all == dated_views(dated@),
            epochs == epochs_of(all),
            report_views(epoch_reports@) == all.subrange(0, it.index() as int).map_values(
                |d: (EpochView, Option<Timestamp>)| d.0.report_ending(current_epoch, d.1),
            ),
            total == total_balance(epochs.subrange(0, it.index() as int)),
            forall|i: int|
                0 <= i < it.index() && (#[trigger] all[i]).0.epoch_id < current_epoch
                    ==> all[i].1 is Some,
    {
        let ghost done = all.subrange(0, it.index() as int);
        let ghost next = all.subrange(0, it.index() + 1);
        let (epoch, end) = entry;
        let ghost view = (epoch@, end);
        proof {
            assert(all[it.index() as int] == view);
            assert(epochs[it.index() as int] == view.0);
            assert(next =~= done.push(view));
            assert(epochs.subrange(0, it.index() + 1).drop_last() =~= epochs.subrange(
                0,
                it.index() as int,
            ));
            lemma_total_balance_bounds(epochs, it.index() as int);
        }
        let report = match epoch_report_ending(epoch, current_epoch, end) {
            Some(report) => report,
            None => {
                return Err(out_of_range());
            },
        };
        total = match total.checked_add(report.outstanding_balance) {
            Some(sum) => sum,
            None => {
                return Err(out_of_range());
            },
        };
        proof {
            let reported = done.map_values(
                |d: (EpochView, Option<Timestamp>)| d.0.report_ending(current_epoch, d.1),
            );
            assert(report_views(epoch_reports@.push(report)) =~= reported.push(report@));
            assert(next.map_values(
                |d: (EpochView, Option<Timestamp>)| d.0.report_ending(current_epoch, d.1),
            ) =~= reported.push(view.0.report_ending(current_epoch, view.1)));
        }
        epoch_reports.push(report);
    }
    assert(all.subrange(0, dated@.len() as int) =~= all);
    assert(epochs.subrange(0, dated@.len() as int) =~= epochs);
    Ok(PolReport { epoch_reports, total_outstanding_balance: total, timestamp: now })
}

/// Reports on `epochs`, in whatever order they come: each epoch with its
/// events and its balance, in ascending order of the ids, and the sum of
/// the balances. `current_epoch` is the epoch that is still open, an epoch
/// lasts `epoch_days` days, and `now` is the time of the report. The epochs
/// are put in order and the end of each closed one is computed;
/// [`report_of_dated`] does the rest.
///
/// The report fails where the sum does not fit the width of an amount or
/// the end of a closed epoch is no time that exists.
pub fn build_report(
    epochs: Vec<EpochState>,
    current_epoch: u64,
    epoch_days: i64,
    now: Timestamp,
) -> (result: Result<PolReport, PolError>)
    ensures
        match result {
            Ok(report) => {
                &&& reportable(in_id_order(epoch_views(epochs@)), current_epoch, epoch_days)
                &&& report@ == ledger_report(epoch_views(epochs@), current_epoch, epoch_days, now)
                &&& forall|i: int, j: int|
                    0 <= i < j < report.epoch_reports.len() ==> report.epoch_reports[i].epoch_id
                        <= report.epoch_reports[j].epoch_id
            },
            Err(error) => {
                &&& !reportable(in_id_order(epoch_views(epochs@)), current_epoch, epoch_days)
                &&& error matches PolError::ReportGenerationFailed(why) && why@
                    == out_of_range_text()
            },
        },
{
    let ghost listed = epoch_views(epochs@);
    let sorted = sort_by_id(epochs);
    let ghost ordered = epoch_views(sorted@);
    proof {
        lemma_in_id_order(listed);
    }
    let mut dated: Vec<(EpochState, Option<Timestamp>)> = Vec::new();
    assert(dated_views(dated@) =~= ordered.subrange(0, 0).map_values(
        |e: EpochView| (e, e.end_time(current_epoch, epoch_days)),
    ));
    for epoch in it: sorted
        invariant
            it.seq() == sorted@,
            ordered == epoch_views(sorted@),
            dated_views(dated@) == ordered.subrange(0, it.index() as int).map_values(
                |e: EpochView| (e, e.end_time(current_epoch, epoch_days)),
            ),
    {
        let ghost view = epoch@;
        let end = if epoch.epoch_id() < current_epoch {
            plus_days(epoch.start_time(), epoch_days)
        } else {
            None
        };
        proof {
            let done = ordered.subrange(0, it.index() as int).map_values(
                |e: EpochView| (e, e.end_time(current_epoch, epoch_days)),
            );
            assert(ordered[it.index() as int] == view);
            assert(dated_views(dated@.push((epoch, end))) =~= done.push((view, end)));
            assert(ordered.subrange(0, it.index() + 1).map_values(
                |e: EpochView| (e, e.end_time(current_epoch, epoch_days)),
            ) =~= done.push((view, view.end_time(current_epoch, epoch_days))));
        }
        dated.push((epoch, end));
    }
    assert(ordered.subrange(0, sorted@.len() as int) =~= ordered);
    let ghost all = dated_views(dated@);
    proof {
        assert(epochs_of(all) =~= ordered);
        assert(dated_reportable(all, current_epoch) <==> reportable(
            ordered,
            current_epoch,
            epoch_days,
        )) by {
            if dated_reportable(all, current_epoch) {
                assert forall|i: int| 0 <= i < ordered.len() implies (#[trigger] ordered[i]).closes(
                    current_epoch,
                    epoch_days,
                ) by {
                    assert(all[i].0 == ordered[i]);
                }
            }
            if reportable(ordered, current_epoch, epoch_days) {
                assert forall|i: int|
                    0 <= i < all.len() && (#[trigger] all[i]).0.epoch_id < current_epoch implies all[i].1 is Some by {
                    assert(ordered[i].closes(current_epoch, epoch_days));
                }
            }
        }
        assert(dated_report(all, current_epoch, now).epoch_reports =~= ordered.map_values(
            |e: EpochView| e.report(current_epoch, epoch_days),
        ));
    }
    let result = report_of_dated(dated, current_epoch, now);
    proof {
        if result is Ok {
            let reports = result->Ok_0.epoch_reports;
            assert forall|i: int, j: int| 0 <= i < j < reports.len() implies reports[i].epoch_id
                <= reports[j].epoch_id by {
                assert(report_views(reports@)[i].epoch_id == ordered[i].epoch_id);
                assert(report_views(reports@)[j].epoch_id == ordered[j].epoch_id);
            }
        }
    }
    result
}

} // verus!
