//! The outcome of a run: the line to print and the exit status it carries.
//!
//! Every failure — the external command failing, undecodable output, a
//! failed space query, insufficient space — ends with one line on standard
//! error and exit code 1; sufficient space ends with one line on standard
//! output and exit code 0.

use vstd::prelude::*;
use crate::compare::{meets_threshold, passes};
use crate::decode::{decode_cache_dir, json_str_field};
use crate::display::{
    avail_hundredths, gb_display, gb_hundredths, render_hundredths, render_threshold,
    threshold_display, threshold_display_defined,
};
use crate::space::query_available_bytes;

verus! {

/// The report of a finished run. On success the message goes to standard
/// output and the process exits 0; otherwise it goes to standard error and
/// the process exits 1. The message is absent in exactly one corner: a
/// failed check against a finite threshold so large that its display
/// overflows the machine words used here (see `threshold_display_defined`);
/// the caller then renders the failure line itself.
pub struct Report {
    pub success: bool,
    pub message: Option<String>,
    /// The decoded cache directory and the queried bytes, handed along when
    /// the message is absent, so the caller can render the line itself.
    pub cache_dir: Option<String>,
    pub avail_bytes: Option<u64>,
}

/// The line printed when the space suffices.
pub open spec fn success_message(cache_dir: Seq<char>, avail_bytes: u64) -> Seq<char> {
    "✓ Cache directory "@ + cache_dir + " has sufficient space available ("@ + gb_display(
        avail_hundredths(avail_bytes),
    ) + " GB)"@
}

/// The line printed when the space does not suffice.
pub open spec fn failure_message(cache_dir: Seq<char>, avail_bytes: u64, gb_bits: u64) -> Seq<
    char,
> {
    "✗ Cache directory "@ + cache_dir + " has insufficient space ("@ + gb_display(
        avail_hundredths(avail_bytes),
    ) + " GB), please set PIXI_CACHE_DIR to a location with at least "@ + threshold_display(
        gb_bits,
    ) + " GB free."@
}

/// The line printed when the external command ran but failed.
pub open spec fn command_failure_message() -> Seq<char> {
    "Error: Failed to run 'pixi info --json'"@
}

/// The line printed when the captured output is not a JSON object with a
/// string field `cache_dir`.
pub open spec fn decode_failure_message() -> Seq<char> {
    "Error: Failed to parse pixi info JSON"@
}

/// The line printed when the operating system cannot report the available
/// space for the decoded path.
pub open spec fn space_failure_message(cache_dir: Seq<char>, os_error: Seq<char>) -> Seq<char> {
    "Error: Failed to get available space for "@ + cache_dir + ": "@ + os_error
}

fn build_success_message(cache_dir: &str, avail_bytes: u64) -> (r: String)
    ensures
        r@ == success_message(cache_dir@, avail_bytes),
{
    let mut out = String::from_str("✓ Cache directory ");
    out.append(cache_dir);
    out.append(" has sufficient space available (");
    let h = gb_hundredths(avail_bytes);
    let digits = render_hundredths(h as u128);
    out.append(digits.as_str());
    out.append(" GB)");
    proof {
        assert(out@ =~= success_message(cache_dir@, avail_bytes));
    }
    out
}

fn build_failure_message(cache_dir: &str, avail_bytes: u64, th_display: &str) -> (r: String)
    ensures
        r@ == "✗ Cache directory "@ + cache_dir@ + " has insufficient space ("@ + gb_display(
            avail_hundredths(avail_bytes),
        ) + " GB), please set PIXI_CACHE_DIR to a location with at least "@ + th_display@
            + " GB free."@,
{
    let mut out = String::from_str("✗ Cache directory ");
    out.append(cache_dir);
    out.append(" has insufficient space (");
    let h = gb_hundredths(avail_bytes);
    let digits = render_hundredths(h as u128);
    out.append(digits.as_str());
    out.append(" GB), please set PIXI_CACHE_DIR to a location with at least ");
    out.append(th_display);
    out.append(" GB free.");
    proof {
        assert(out@ =~= "✗ Cache directory "@ + cache_dir@ + " has insufficient space ("@
            + gb_display(avail_hundredths(avail_bytes))
            + " GB), please set PIXI_CACHE_DIR to a location with at least "@ + th_display@
            + " GB free."@);
    }
    out
}

fn build_space_failure_message(cache_dir: &str, os_error: &str) -> (r: String)
    ensures
        r@ == space_failure_message(cache_dir@, os_error@),
{
    let mut out = String::from_str("Error: Failed to get available space for ");
    out.append(cache_dir);
    out.append(": ");
    out.append(os_error);
    proof {
        assert(out@ =~= space_failure_message(cache_dir@, os_error@));
    }
    out
}

/// The space-failure line names the path whose space could not be
/// resolved: the path stands in it, right after the fixed prefix.
pub proof fn lemma_space_failure_names_path(cache_dir: Seq<char>, os_error: Seq<char>)
    ensures
        ({
            let msg = space_failure_message(cache_dir, os_error);
            let start = "Error: Failed to get available space for "@.len() as int;
            msg.subrange(start, start + cache_dir.len()) == cache_dir
        }),
{
    let pre = "Error: Failed to get available space for "@;
    let msg = space_failure_message(cache_dir, os_error);
    assert(msg.subrange(pre.len() as int, pre.len() + cache_dir.len() as int) =~= cache_dir);
}

/// The success line names the path and the available space's two-decimal
/// display: both stand in it, at fixed offsets.
pub proof fn lemma_success_names_parts(cache_dir: Seq<char>, avail_bytes: u64)
    ensures
        ({
            let msg = success_message(cache_dir, avail_bytes);
            let avail_disp = gb_display(avail_hundredths(avail_bytes));
            let p1 = "✓ Cache directory "@.len() as int;
            let p2 = p1 + cache_dir.len() + " has sufficient space available ("@.len();
            &&& msg.subrange(p1, p1 + cache_dir.len()) == cache_dir
            &&& msg.subrange(p2, p2 + avail_disp.len()) == avail_disp
        }),
{
    let msg = success_message(cache_dir, avail_bytes);
    let avail_disp = gb_display(avail_hundredths(avail_bytes));
    let p1 = "✓ Cache directory "@.len() as int;
    let p2 = p1 + cache_dir.len() + " has sufficient space available ("@.len();
    assert(msg.subrange(p1, p1 + cache_dir.len()) =~= cache_dir);
    assert(msg.subrange(p2, p2 + avail_disp.len()) =~= avail_disp);
}

/// The failure line names the path, the available space's two-decimal
/// display and the requested threshold's display: all three stand in it,
/// at fixed offsets.
pub proof fn lemma_failure_names_parts(cache_dir: Seq<char>, avail_bytes: u64, gb_bits: u64)
    ensures
        ({
            let msg = failure_message(cache_dir, avail_bytes, gb_bits);
            let avail_disp = gb_display(avail_hundredths(avail_bytes));
            let th_disp = threshold_display(gb_bits);
            let p1 = "✗ Cache directory "@.len() as int;
            let p2 = p1 + cache_dir.len() + " has insufficient space ("@.len();
            let p3 = p2 + avail_disp.len()
                + " GB), please set PIXI_CACHE_DIR to a location with at least "@.len();
            &&& msg.subrange(p1, p1 + cache_dir.len()) == cache_dir
            &&& msg.subrange(p2, p2 + avail_disp.len()) == avail_disp
            &&& msg.subrange(p3, p3 + th_disp.len()) == th_disp
        }),
{
    let msg = failure_message(cache_dir, avail_bytes, gb_bits);
    let avail_disp = gb_display(avail_hundredths(avail_bytes));
    let th_disp = threshold_display(gb_bits);
    let p1 = "✗ Cache directory "@.len() as int;
    let p2 = p1 + cache_dir.len() + " has insufficient space ("@.len();
    let p3 = p2 + avail_disp.len()
        + " GB), please set PIXI_CACHE_DIR to a location with at least "@.len();
    assert(msg.subrange(p1, p1 + cache_dir.len()) =~= cache_dir);
    assert(msg.subrange(p2, p2 + avail_disp.len()) =~= avail_disp);
    assert(msg.subrange(p3, p3 + th_disp.len()) =~= th_disp);
}

/// The decision once the available bytes are known: success exactly when
/// they reach the threshold, with the line that reports it.
pub fn evaluate(cache_dir: &str, avail_bytes: u64, gb_bits: u64) -> (r: Report)
    ensures
        r.success == passes(avail_bytes, gb_bits),
        r.success ==> (r.message matches Some(msg) && msg@ == success_message(
            cache_dir@,
            avail_bytes,
        )),
        !r.success && threshold_display_defined(gb_bits) ==> (r.message matches Some(msg)
            && msg@ == failure_message(cache_dir@, avail_bytes, gb_bits)),
        r.message is None <==> !r.success && !threshold_display_defined(gb_bits),
        r.message is None ==> (r.cache_dir matches Some(d) && d@ == cache_dir@)
            && r.avail_bytes == Some(avail_bytes),
        r.message is Some ==> r.cache_dir is None && r.avail_bytes is None,
{
    if meets_threshold(avail_bytes, gb_bits) {
        let msg = build_success_message(cache_dir, avail_bytes);
        Report { success: true, message: Some(msg), cache_dir: None, avail_bytes: None }
    } else {
        match render_threshold(gb_bits) {
            Some(th) => {
                let msg = build_failure_message(cache_dir, avail_bytes, th.as_str());
                proof {
                    assert(msg@ =~= failure_message(cache_dir@, avail_bytes, gb_bits));
                }
                Report { success: false, message: Some(msg), cache_dir: None, avail_bytes: None }
            },
            None => Report {
                success: false,
                message: None,
                cache_dir: Some(String::from_str(cache_dir)),
                avail_bytes: Some(avail_bytes),
            },
        }
    }
}

/// A report that states the outcome of an evaluation against the given
/// available bytes.
pub open spec fn evaluation_report(
    r: Report,
    cache_dir: Seq<char>,
    avail_bytes: u64,
    gb_bits: u64,
) -> bool {
    &&& r.success == passes(avail_bytes, gb_bits)
    &&& (r.success ==> (r.message matches Some(msg) && msg@ == success_message(
        cache_dir,
        avail_bytes,
    )))
    &&& (!r.success && threshold_display_defined(gb_bits) ==> (r.message matches Some(msg)
        && msg@ == failure_message(cache_dir, avail_bytes, gb_bits)))
    &&& (r.message is None <==> !r.success && !threshold_display_defined(gb_bits))
    &&& (r.message is None ==> (r.cache_dir matches Some(d) && d@ == cache_dir)
        && r.avail_bytes == Some(avail_bytes))
    &&& (r.message is Some ==> r.cache_dir is None && r.avail_bytes is None)
}

/// A report that states a failed space query for the given path.
pub open spec fn space_failure_report(r: Report, cache_dir: Seq<char>) -> bool {
    &&& !r.success
    &&& r.message matches Some(msg) && (exists|os_error: Seq<char>|
        msg@ == space_failure_message(cache_dir, os_error))
}

/// The whole check, from what the caller captured of `pixi info --json`:
/// whether that command succeeded, the bytes it printed, and the requested
/// threshold as the bits of a double. Decodes the cache directory, queries
/// the filesystem for the available bytes, and decides.
///
/// The space query's answer depends on the machine, so the outcome in the
/// decoded case is stated for every answer: either the query failed and the
/// report names the path, or some byte count came back and the report is
/// its evaluation.
pub fn run_check(command_ok: bool, stdout_json: &[u8], gb_bits: u64) -> (r: Report)
    ensures
        !command_ok ==> (!r.success && (r.message matches Some(msg) && msg@
            == command_failure_message())),
        command_ok && json_str_field(stdout_json@, "cache_dir"@) is None ==> (!r.success && (
        r.message matches Some(msg) && msg@ == decode_failure_message())),
        command_ok ==> (json_str_field(stdout_json@, "cache_dir"@) matches Some(dir) ==> (
        space_failure_report(r, dir) || exists|avail_bytes: u64|
            #[trigger] evaluation_report(r, dir, avail_bytes, gb_bits))),
{
    if !command_ok {
        let msg = String::from_str("Error: Failed to run 'pixi info --json'");
        return Report { success: false, message: Some(msg), cache_dir: None, avail_bytes: None };
    }
    match decode_cache_dir(stdout_json) {
        None => {
            let msg = String::from_str("Error: Failed to parse pixi info JSON");
            Report { success: false, message: Some(msg), cache_dir: None, avail_bytes: None }
        },
        Some(cache_dir) => {
            match query_available_bytes(cache_dir.as_str()) {
                Err(os_error) => {
                    let msg = build_space_failure_message(cache_dir.as_str(), os_error.as_str());
                    Report { success: false, message: Some(msg), cache_dir: None, avail_bytes: None }
                },
                Ok(avail_bytes) => {
                    let r = evaluate(cache_dir.as_str(), avail_bytes, gb_bits);
                    proof {
                        assert(evaluation_report(
                            r,
                            cache_dir@,
                            avail_bytes,
                            gb_bits,
                        ));
                    }
                    r
                },
            }
        },
    }
}

} // verus!
