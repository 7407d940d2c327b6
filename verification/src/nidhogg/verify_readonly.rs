//! Verification that a server works on files that it cannot write.

use crate::error::{DevError, ErrorView};
use crate::json::{array_len, json_array_len};
use crate::numeral::{nat_text, usize_text};
use crate::output::{message_views, push_message, Message, MessageView};
use crate::text::views;
use vstd::prelude::*;

verus! {

/// What became of a check.
pub enum Check {
    Passed,
    Failed,
    /// It could not be made, for the reason.
    Broken(String),
}

/// A check with its name.
pub struct NamedCheck {
    pub name: String,
    pub check: Check,
}

/// Whether a lookup found something: the request succeeded and its reply is a
/// list that is not empty.
pub fn run_geocode_check(success: bool, reply: &str) -> (r: bool)
    ensures
        r == (success && (json_array_len(reply@, ""@) matches Some(n) && n > 0)),
{
    if !success {
        return false;
    }
    match array_len(reply, "") {
        Some(n) => n > 0,
        None => false,
    }
}

/// Whether a query found something: the request succeeded and its reply holds
/// elements.
pub fn run_query_check(success: bool, reply: &str) -> (r: bool)
    ensures
        r == (success && (json_array_len(reply@, "/elements"@) matches Some(n) && n > 0)),
{
    if !success {
        return false;
    }
    match array_len(reply, "/elements") {
        Some(n) => n > 0,
        None => false,
    }
}

/// The line on a check.
pub open spec fn check_line(c: NamedCheck) -> Seq<char> {
    match c.check {
        Check::Passed => "PASS  "@ + c.name@,
        Check::Failed => "FAIL  "@ + c.name@,
        Check::Broken(why) => "FAIL  "@ + c.name@ + ": "@ + why@,
    }
}

/// How many checks passed.
pub open spec fn passed_count(v: Seq<NamedCheck>) -> nat
    decreases v.len(),
{
    if v.len() == 0 {
        0
    } else {
        passed_count(v.drop_last()) + if v.last().check is Passed {
            1nat
        } else {
            0nat
        }
    }
}

/// The lines on all checks, and how many passed and failed.
pub open spec fn check_lines(v: Seq<NamedCheck>) -> Seq<MessageView> {
    v.map_values(|c: NamedCheck| MessageView::Verify(check_line(c))) + seq![
        MessageView::Verify(
            "readonly: "@ + nat_text(passed_count(v)) + " passed, "@ + nat_text(
                (v.len() - passed_count(v)) as nat,
            ) + " failed"@,
        ),
    ] + (if passed_count(v) == v.len() {
        seq![MessageView::Verify("read-only verification passed"@)]
    } else {
        Seq::empty()
    })
}

fn write_check_line(c: &NamedCheck) -> (r: String)
    ensures
        r@ == check_line(*c),
{
    match &c.check {
        Check::Passed => {
            let mut out = "PASS  ".to_owned();
            out.append(c.name.as_str());
            out
        },
        Check::Failed => {
            let mut out = "FAIL  ".to_owned();
            out.append(c.name.as_str());
            out
        },
        Check::Broken(why) => {
            let mut out = "FAIL  ".to_owned();
            out.append(c.name.as_str());
            out.append(": ");
            out.append(why.as_str());
            out
        },
    }
}

/// Judges the checks that were made on read-only files: each must have passed.
pub fn run(checks: &[NamedCheck], out: &mut Vec<Message>) -> (r: Result<(), DevError>)
    ensures
        passed_count(checks@) == checks@.len() <==> r is Ok,
        r matches Err(e) ==> e@ == ErrorView::Config(
            "read-only verification failed: "@ + nat_text(
                (checks@.len() - passed_count(checks@)) as nat,
            ) + " test(s) failed"@,
        ),
        message_views(final(out)@) == message_views(old(out)@) + check_lines(checks@),
{
    let ghost start = message_views(out@);
    let ghost lines = checks@.map_values(|c: NamedCheck| MessageView::Verify(check_line(c)));
    let mut passed: usize = 0;
    let mut i: usize = 0;
    assert(message_views(out@) =~= start + lines.take(0));
    while i < checks.len()
        invariant
            i <= checks@.len(),
            passed <= i,
            lines == checks@.map_values(|c: NamedCheck| MessageView::Verify(check_line(c))),
            passed == passed_count(checks@.take(i as int)),
            message_views(out@) == start + lines.take(i as int),
        decreases checks@.len() - i,
    {
        assert(checks@.take(i + 1).drop_last() =~= checks@.take(i as int));
        let line = write_check_line(&checks[i]);
        let ghost text = line@;
        push_message(out, Message::Verify(line));
        assert(lines[i as int] == MessageView::Verify(text));
        if matches!(checks[i].check, Check::Passed) {
            passed += 1;
        }
        i += 1;
        assert(message_views(out@) =~= start + lines.take(i as int));
    }
    assert(checks@.take(i as int) =~= checks@);
    assert(lines.take(i as int) =~= lines);
    let failed: usize = checks.len() - passed;
    let mut m = "readonly: ".to_owned();
    m.append(usize_text(passed).as_str());
    m.append(" passed, ");
    m.append(usize_text(failed).as_str());
    m.append(" failed");
    push_message(out, Message::Verify(m));
    if failed > 0 {
        let mut e = "read-only verification failed: ".to_owned();
        e.append(usize_text(failed).as_str());
        e.append(" test(s) failed");
        assert(message_views(out@) =~= start + check_lines(checks@));
        return Err(DevError::Config(e));
    }
    push_message(out, Message::Verify("read-only verification passed".to_owned()));
    assert(message_views(out@) =~= start + check_lines(checks@));
    Ok(())
}

/// The arguments that make a directory writable or read-only.
pub fn permission_args(dir: &str, writable: bool) -> (r: Vec<String>)
    ensures
        views(r@) == seq![
            "-R"@,
            if writable {
                "u+w"@
            } else {
                "a-w"@
            },
            dir@,
        ],
{
    let mode = if writable {
        "u+w"
    } else {
        "a-w"
    };
    let r = vec!["-R".to_owned(), mode.to_owned(), dir.to_owned()];
    assert(views(r@) =~= seq!["-R"@, mode@, dir@]);
    r
}

} // verus!
