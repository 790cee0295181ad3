//! The three operations of the bridge, as far as they decide: where each
//! starts, and what the platform's answers mean to the caller.
use vstd::prelude::*;

use crate::path::{association_key, association_key_of};
use crate::types::{is_platform_error, OpenResult, OpenWithApp};

verus! {

/// How an operation goes on once the path has been looked at.
pub enum Plan<T> {
    /// The operation is over without asking the shell: this is its result.
    Answer(T),
    /// Enumerate the handlers registered under this association key.
    Enumerate(String),
}

/// The message for a file whose handlers cannot be looked up.
pub open spec fn no_extension_message() -> Seq<char> {
    "File has no extension"@
}

/// Start of listing the handlers for `path`: a path without an extension
/// has none, and no lookup is made for it.
pub fn plan_listing(path: &str) -> (r: Plan<Vec<OpenWithApp>>)
    ensures
        match association_key_of(path@) {
            None => match r {
                Plan::Answer(apps) => apps@.len() == 0,
                Plan::Enumerate(_) => false,
            },
            Some(key) => match r {
                Plan::Enumerate(k) => k@ == key,
                Plan::Answer(_) => false,
            },
        },
{
    match association_key(path) {
        None => Plan::Answer(Vec::new()),
        Some(key) => Plan::Enumerate(key),
    }
}

/// Start of opening `path` with a named handler: a path without an
/// extension is a platform error, not a missing handler.
pub fn plan_search(path: &str) -> (r: Plan<OpenResult>)
    ensures
        match association_key_of(path@) {
            None => match r {
                Plan::Answer(result) => is_platform_error(result, no_extension_message()),
                Plan::Enumerate(_) => false,
            },
            Some(key) => match r {
                Plan::Enumerate(k) => k@ == key,
                Plan::Answer(_) => false,
            },
        },
{
    match association_key(path) {
        None => Plan::Answer(
            OpenResult::PlatformError { message: String::from_str("File has no extension") },
        ),
        Some(key) => Plan::Enumerate(key),
    }
}

/// The step of handing a file to a handler that failed.
pub enum LaunchStep {
    /// Making a shell item of the path.
    CreateItem,
    /// Binding that item to a data object.
    BindDataObject,
    /// Invoking the handler on the data object.
    Invoke,
}

/// What came of handing a file to the handler that was found.
pub enum LaunchOutcome {
    Launched,
    Failed(LaunchStep, String),
}

/// The prefix that names a failed launch step in a message.
pub open spec fn launch_step_prefix(step: LaunchStep) -> Seq<char> {
    match step {
        LaunchStep::CreateItem => "Failed to create shell item: "@,
        LaunchStep::BindDataObject => "Failed to bind to data object: "@,
        LaunchStep::Invoke => "Failed to invoke handler: "@,
    }
}

/// The result of opening a file with the handler that was found.
pub fn launch_result(outcome: LaunchOutcome) -> (r: OpenResult)
    ensures
        match outcome {
            LaunchOutcome::Launched => r is Success,
            LaunchOutcome::Failed(step, detail) => is_platform_error(
                r,
                launch_step_prefix(step) + detail@,
            ),
        },
{
    match outcome {
        LaunchOutcome::Launched => OpenResult::Success,
        LaunchOutcome::Failed(step, detail) => {
            let prefix = match step {
                LaunchStep::CreateItem => String::from_str("Failed to create shell item: "),
                LaunchStep::BindDataObject => String::from_str("Failed to bind to data object: "),
                LaunchStep::Invoke => String::from_str("Failed to invoke handler: "),
            };
            OpenResult::PlatformError { message: prefix.concat(detail.as_str()) }
        },
    }
}

/// The decimal digit `d`.
pub open spec fn digit(d: nat) -> char {
    if d == 0 {
        '0'
    } else if d == 1 {
        '1'
    } else if d == 2 {
        '2'
    } else if d == 3 {
        '3'
    } else if d == 4 {
        '4'
    } else if d == 5 {
        '5'
    } else if d == 6 {
        '6'
    } else if d == 7 {
        '7'
    } else if d == 8 {
        '8'
    } else {
        '9'
    }
}

/// The decimal digits of `n`, most significant first, without leading zeros.
pub open spec fn digits_of(n: nat) -> Seq<char>
    decreases n,
{
    if n < 10 {
        seq![digit(n)]
    } else {
        digits_of(n / 10).push(digit(n % 10))
    }
}

/// `n` written in decimal, with a leading `-` when negative.
pub open spec fn decimal(n: int) -> Seq<char> {
    if n < 0 {
        seq!['-'] + digits_of((-n) as nat)
    } else {
        digits_of(n as nat)
    }
}

/// Relies on String::push: appends one character to the string.
#[verifier::external_body]
fn push_char(s: &mut String, c: char)
    ensures
        final(s)@ == old(s)@.push(c),
{
    s.push(c)
}

fn digit_char(d: u64) -> (r: char)
    requires
        d < 10,
    ensures
        r == digit(d as nat),
{
    if d == 0 {
        '0'
    } else if d == 1 {
        '1'
    } else if d == 2 {
        '2'
    } else if d == 3 {
        '3'
    } else if d == 4 {
        '4'
    } else if d == 5 {
        '5'
    } else if d == 6 {
        '6'
    } else if d == 7 {
        '7'
    } else if d == 8 {
        '8'
    } else {
        '9'
    }
}

fn push_digits(s: &mut String, n: u64)
    ensures
        final(s)@ == old(s)@ + digits_of(n as nat),
    decreases n,
{
    if n >= 10 {
        push_digits(s, n / 10);
    }
    push_char(s, digit_char(n % 10));
    assert(final(s)@ =~= old(s)@ + digits_of(n as nat));
}

/// Appends `n`, written in decimal, to `s`.
pub fn push_decimal(s: &mut String, n: i64)
    ensures
        final(s)@ == old(s)@ + decimal(n as int),
{
    if n < 0 {
        push_char(s, '-');
        let magnitude: u64 = (-(n + 1)) as u64 + 1;
        push_digits(s, magnitude);
        assert(final(s)@ =~= old(s)@ + decimal(n as int));
    } else {
        push_digits(s, n as u64);
    }
}

/// Status codes up to this value report a failed launch.
pub const SHELL_EXECUTE_FAILURE_LIMIT: i64 = 32;

/// The message for a launch that the platform refused with `code`.
pub open spec fn shell_execute_message(code: int) -> Seq<char> {
    "ShellExecute failed with code "@ + decimal(code)
}

/// The result of opening a file with its default handler, from the status
/// code that the platform's execute service returned.
pub fn shell_execute_outcome(code: i64) -> (r: OpenResult)
    ensures
        code > SHELL_EXECUTE_FAILURE_LIMIT ==> r is Success,
        code <= SHELL_EXECUTE_FAILURE_LIMIT ==> is_platform_error(
            r,
            shell_execute_message(code as int),
        ),
{
    if code > SHELL_EXECUTE_FAILURE_LIMIT {
        OpenResult::Success
    } else {
        let mut message = String::from_str("ShellExecute failed with code ");
        push_decimal(&mut message, code);
        OpenResult::PlatformError { message }
    }
}

} // verus!
