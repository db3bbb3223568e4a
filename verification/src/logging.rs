//! What is told of lines that the log lost, and which lines it takes.

use crate::bounded::{padded_hex, write_hex};
use crate::random::random_number;
use vstd::prelude::*;

verus! {

/// How many lines wait at most.
pub const QUEUE_CAPACITY: usize = 4096;

/// The filter where none is set.
pub const DEFAULT_FILTER: &'static str = "warn,bt_sniffer=info";

/// How a run is named in the log: by thirty-two hexadecimal digits.
pub fn run_name(number: u128) -> (name: String)
    ensures
        name@ == padded_hex(number as int, 32),
{
    write_hex(number, 32)
}

/// The name of a new run, which is left to chance.
pub fn new_run_name() -> (name: String)
    ensures
        exists|number: u128| name@ == #[trigger] padded_hex(number as int, 32),
{
    let number: u128 = random_number();
    run_name(number)
}

/// What the environment says of the filter.
#[derive(Debug)]
pub enum FilterSetting {
    Missing,
    Text(String),
    NotUnicode,
}

/// The filter: a text that is not empty replaces the default. There is none where the setting is no
/// text.
pub fn read_filter(setting: FilterSetting) -> (filter: Option<String>)
    ensures
        match setting {
            FilterSetting::Missing => filter is Some && filter->0@ == DEFAULT_FILTER@,
            FilterSetting::Text(text) => filter is Some && filter->0@ == if text@.len() > 0 {
                text@
            } else {
                DEFAULT_FILTER@
            },
            FilterSetting::NotUnicode => filter is None,
        },
{
    match setting {
        FilterSetting::Missing => Some(DEFAULT_FILTER.to_owned()),
        FilterSetting::Text(text) => {
            let empty = crate::metainfo::identity::text_equal(text.as_str(), "");
            proof {
                reveal_strlit("");
                if text@.len() == 0 {
                    assert(text@ =~= ""@);
                }
            }
            if empty {
                Some(DEFAULT_FILTER.to_owned())
            } else {
                Some(text)
            }
        },
        FilterSetting::NotUnicode => None,
    }
}

/// What is told of one of the two outputs.
#[derive(Clone, Copy, Debug, PartialEq, Eq, Structural)]
pub struct QueueReport {
    pub dropped_total: usize,
    pub dropped_since_last_report: usize,
    /// Whether it is told as a warning.
    pub warning: bool,
}

/// The lines that were lost until the last report: in the file and on the terminal.
#[derive(Clone, Copy, Debug, PartialEq, Eq, Structural)]
pub struct QueueDiagnostics {
    pub file: usize,
    pub stderr: usize,
}

/// What is told of an output.
pub open spec fn report_of(previous: usize, total: usize) -> QueueReport {
    let since = if total < previous {
        0
    } else {
        (total - previous) as usize
    };
    QueueReport { dropped_total: total, dropped_since_last_report: since, warning: since > 0 }
}

fn report_one(previous: usize, total: usize) -> (report: QueueReport)
    ensures
        report == report_of(previous, total),
{
    let since: usize = total.saturating_sub(previous);
    QueueReport { dropped_total: total, dropped_since_last_report: since, warning: since > 0 }
}

impl QueueDiagnostics {
    /// Nothing lost.
    pub fn new() -> (diagnostics: QueueDiagnostics)
        ensures
            diagnostics == (QueueDiagnostics { file: 0, stderr: 0 }),
    {
        QueueDiagnostics { file: 0, stderr: 0 }
    }

    /// What is told of the two outputs, which have lost so many lines.
    pub fn report(&mut self, file: usize, stderr: usize) -> (reports: (QueueReport, QueueReport))
        ensures
            reports.0 == report_of(old(self).file, file),
            reports.1 == report_of(old(self).stderr, stderr),
            *final(self) == (QueueDiagnostics { file, stderr }),
    {
        let reports = (report_one(self.file, file), report_one(self.stderr, stderr));
        self.file = file;
        self.stderr = stderr;
        reports
    }
}

/// As the counters only grow, the reports together tell of every line that was lost.
pub proof fn lemma_reports_add_up(previous: usize, now: usize, later: usize)
    requires
        previous <= now <= later,
    ensures
        report_of(previous, now).dropped_since_last_report + report_of(
            now,
            later,
        ).dropped_since_last_report == report_of(previous, later).dropped_since_last_report,
{
}

/// A report tells all lines that were lost and those since the last one; it is a warning where there
/// are any since. A count that fell tells none.
pub proof fn lemma_report(previous: usize, total: usize)
    ensures
        ({
            let report = report_of(previous, total);
            &&& report.dropped_total == total
            &&& previous <= total ==> previous + report.dropped_since_last_report == total
            &&& total < previous ==> report.dropped_since_last_report == 0
            &&& report.warning <==> total > previous
        }),
        QUEUE_CAPACITY == 4096,
        DEFAULT_FILTER@ == "warn,bt_sniffer=info"@,
{
}

} // verus!
