//! What the GPU diagnostics command's outcome turns into in the report.

use vstd::prelude::*;
use vstd::utf8::{decode_utf8, valid_utf8};

verus! {

/// The diagnostics tool and its arguments: utilization and temperature,
/// comma separated, with no header and no units.
pub const GPU_TOOL: &'static str = "nvidia-smi";

pub const GPU_QUERY_ARG: &'static str = "--query-gpu=utilization.gpu,temperature.gpu";

pub const GPU_FORMAT_ARG: &'static str = "--format=csv,noheader,nounits";

/// What a finished run of the diagnostics tool hands back.
pub struct CommandOutput {
    /// Whether the tool exited with a zero status.
    pub success: bool,
    /// Everything the tool wrote to standard output.
    pub stdout: Vec<u8>,
}

/// The status reported when the tool is missing, could not run, or failed.
pub open spec fn offline_sentinel() -> Seq<char> {
    "OFFLINE_OR_NO_DRIVER"@
}

/// The Unicode `White_Space` property.
pub open spec fn is_white_space(c: char) -> bool {
    let v = c as u32;
    (0x9 <= v && v <= 0xd) || v == 0x20 || v == 0x85 || v == 0xa0 || v == 0x1680 || (0x2000 <= v
        && v <= 0x200a) || v == 0x2028 || v == 0x2029 || v == 0x202f || v == 0x205f || v == 0x3000
}

/// `s` without its leading white space.
pub open spec fn trim_start_of(s: Seq<char>) -> Seq<char>
    decreases s.len(),
{
    if s.len() > 0 && is_white_space(s[0]) {
        trim_start_of(s.drop_first())
    } else {
        s
    }
}

/// `s` without its trailing white space.
pub open spec fn trim_end_of(s: Seq<char>) -> Seq<char>
    decreases s.len(),
{
    if s.len() > 0 && is_white_space(s.last()) {
        trim_end_of(s.drop_last())
    } else {
        s
    }
}

/// `s` without leading and trailing white space; nothing inside is changed.
pub open spec fn trimmed(s: Seq<char>) -> Seq<char> {
    trim_end_of(trim_start_of(s))
}

/// The text that lossy UTF-8 decoding makes of `b`.
pub uninterp spec fn lossy_text_of(b: Seq<u8>) -> Seq<char>;

/// Relies on `String::from_utf8_lossy`: the text depends on the bytes alone,
/// and valid UTF-8 is decoded as it stands.
#[verifier::external_body]
fn decode_lossy(b: &Vec<u8>) -> (r: String)
    ensures
        r@ == lossy_text_of(b@),
        valid_utf8(b@) ==> r@ == decode_utf8(b@),
{
    String::from_utf8_lossy(b).into_owned()
}

/// Relies on `str::trim`: leading and trailing `White_Space` characters are
/// removed, and nothing else.
#[verifier::external_body]
fn trim_text(s: &str) -> (r: String)
    ensures
        r@ == trimmed(s@),
{
    s.trim().to_string()
}

/// The status for the tool's decoded output, or `None` when it did not run
/// to a successful exit.
pub open spec fn status_of_text(text: Option<Seq<char>>) -> Seq<char> {
    match text {
        Some(t) => trimmed(t),
        None => offline_sentinel(),
    }
}

/// The status for an outcome of the tool: `None` when it could not be run.
pub open spec fn status_of_output(output: Option<CommandOutput>) -> Seq<char> {
    match output {
        Some(o) => if o.success {
            trimmed(lossy_text_of(o.stdout@))
        } else {
            offline_sentinel()
        },
        None => offline_sentinel(),
    }
}

/// The status string for the tool's decoded standard output, given only when
/// the tool ran and exited successfully.
pub fn status_from_text(text: Option<&str>) -> (status: String)
    ensures
        status@ == status_of_text(match text {
            Some(t) => Some(t@),
            None => None,
        }),
{
    match text {
        Some(t) => trim_text(t),
        None => String::from_str("OFFLINE_OR_NO_DRIVER"),
    }
}

/// The status string for an outcome of the diagnostics tool: its output,
/// decoded and trimmed, after a successful exit; otherwise the sentinel.
pub fn gpu_status(output: &Option<CommandOutput>) -> (status: String)
    ensures
        status@ == status_of_output(*output),
{
    match output {
        Some(o) => {
            if o.success {
                let text = decode_lossy(&o.stdout);
                status_from_text(Some(text.as_str()))
            } else {
                status_from_text(None)
            }
        },
        None => status_from_text(None),
    }
}

} // verus!
