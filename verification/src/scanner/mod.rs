//! The scanner: from a configuration to the engine that runs the scan, and
//! from an outcome to the line that reports it.

pub mod engine;
pub mod gate;
pub mod http;
pub mod targets;
pub mod util;
pub mod wordlist;

use vstd::prelude::*;
use vstd::string::*;
use crate::args::{parsed_exts, Args};
use crate::error::DirustError;
use crate::scanner::engine::{EngineView, ScanEngine};
use crate::scanner::http::{HttpSummary, SummaryView};
use crate::scanner::targets::{build_targets, targets};
use crate::scanner::util::{interesting_status, is_interesting_status};
use crate::text::{decimal, pad_left, push_decimal};

verus! {

/// The status of a report line: in decimal, right-aligned in three columns.
pub open spec fn status_field(status: u16) -> Seq<char> {
    pad_left(decimal(status as nat), 3)
}

/// The length of a report line: the header's text, or `-` where there is
/// none.
pub open spec fn length_field(length: Option<Seq<char>>) -> Seq<char> {
    match length {
        Some(text) => text,
        None => "-"@,
    }
}

/// The redirect target of a report line: an arrow and the header's text, or
/// nothing where there is none.
pub open spec fn location_field(location: Option<Seq<char>>) -> Seq<char> {
    match location {
        Some(text) => " -> "@ + text,
        None => Seq::empty(),
    }
}

/// The line that reports one probe:
/// `[<stamp>] <status> len=<length>  <url>`, then ` -> <location>` where the
/// response named one.
pub open spec fn result_line(stamp: Seq<char>, url: Seq<char>, summary: SummaryView) -> Seq<char> {
    "["@ + stamp + "] "@ + status_field(summary.status) + " len="@ + length_field(
        summary.content_length,
    ) + "  "@ + url + location_field(summary.location)
}

/// A number below ten has one digit, one below a hundred has two, and every
/// other has at least three.
pub proof fn lemma_decimal_len(n: nat)
    ensures
        n < 10 ==> decimal(n).len() == 1,
        10 <= n < 100 ==> decimal(n).len() == 2,
        100 <= n ==> decimal(n).len() >= 3,
    decreases n,
{
    if n >= 10 {
        lemma_decimal_len(n / 10);
    }
}

/// Formats the line that reports one probe of `url`, stamped with `stamp`.
pub fn format_line(stamp: &str, url: &str, summary: &HttpSummary) -> (line: String)
    ensures
        line@ == result_line(stamp@, url@, summary@),
{
    let mut line = String::from_str("[");
    line.append(stamp);
    line.append("] ");
    let ghost before = line@;
    if summary.status < 100 {
        line.push(' ');
    }
    if summary.status < 10 {
        line.push(' ');
    }
    push_decimal(&mut line, summary.status as u64);
    proof {
        lemma_decimal_len(summary.status as nat);
        assert(line@ =~= before + status_field(summary.status));
    }
    line.append(" len=");
    match &summary.content_length {
        Some(text) => line.append(text.as_str()),
        None => line.append("-"),
    }
    line.append("  ");
    line.append(url);
    let ghost head = line@;
    match &summary.location {
        Some(text) => {
            line.append(" -> ");
            line.append(text.as_str());
            assert(line@ =~= head + (" -> "@ + text@));
        },
        None => {
            assert(line@ =~= head + Seq::<char>::empty());
        },
    }
    line
}

/// How a unit of work ends, given the outcome of its probe. The first part
/// is what it reports to the operator: the summary, where the probe got an
/// answer with an interesting status, and nothing otherwise. The second is
/// what it reports to the engine: success where the probe got any answer, and
/// the probe's error where it failed.
pub fn conclude(outcome: Result<HttpSummary, DirustError>) -> (end: (
    Option<HttpSummary>,
    Result<(), DirustError>,
))
    ensures
        outcome matches Ok(summary) ==> end.1 is Ok && end.0 == (if interesting_status(
            summary.status,
        ) {
            Some(summary)
        } else {
            None
        }),
        outcome matches Err(e) ==> end.0 is None && end.1 == Err::<(), DirustError>(e),
{
    match outcome {
        Ok(summary) => {
            if is_interesting_status(summary.status) {
                (Some(summary), Ok(()))
            } else {
                (None, Ok(()))
            }
        },
        Err(e) => (None, Err(e)),
    }
}

/// Sets a scan up: derives the targets from the base address, the words and
/// the extensions of `args`, and makes the engine that dispatches them with
/// at most `args.concurrency` probes in flight. A concurrency of zero is
/// refused before anything is probed.
pub fn scan(base: &str, words: &[String], args: &Args) -> (made: Result<ScanEngine, DirustError>)
    ensures
        args.concurrency == 0 <==> made is Err,
        made matches Err(e) ==> e is InvalidConcurrency,
        made matches Ok(engine) ==> engine.wf() && engine@ == EngineView::initial(
            targets(base@, words.deep_view(), parsed_exts(args.exts@)),
            args.concurrency as nat,
        ),
{
    if args.concurrency == 0 {
        return Err(DirustError::InvalidConcurrency);
    }
    let extensions = args.parse_exts();
    let listed = extensions.as_slice();
    assert(listed.deep_view() =~= extensions.deep_view());
    let all_targets = build_targets(base, words, listed);
    ScanEngine::new(all_targets, args.concurrency)
}

} // verus!
