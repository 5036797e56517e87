use host_audit::gpu_probe::{gpu_status, status_from_text, CommandOutput};

fn ran(success: bool, stdout: &[u8]) -> Option<CommandOutput> {
    Some(CommandOutput { success, stdout: stdout.to_vec() })
}

#[test]
fn missing_tool_gives_sentinel() {
    assert_eq!(gpu_status(&None), "OFFLINE_OR_NO_DRIVER");
}

#[test]
fn failed_tool_gives_sentinel() {
    assert_eq!(gpu_status(&ran(false, b"45, 60\n")), "OFFLINE_OR_NO_DRIVER");
    assert_eq!(gpu_status(&ran(false, b"")), "OFFLINE_OR_NO_DRIVER");
}

#[test]
fn successful_output_is_trimmed() {
    assert_eq!(gpu_status(&ran(true, b"45, 60\n")), "45, 60");
}

#[test]
fn surrounding_white_space_goes_inner_stays() {
    assert_eq!(gpu_status(&ran(true, b" \t 12,  34 \r\n\n")), "12,  34");
    assert_eq!(gpu_status(&ran(true, b"0, 41\n1, 57\n")), "0, 41\n1, 57");
}

#[test]
fn empty_output_gives_empty_status() {
    assert_eq!(gpu_status(&ran(true, b"")), "");
    assert_eq!(gpu_status(&ran(true, b" \n")), "");
}

#[test]
fn invalid_utf8_is_decoded_lossily() {
    assert_eq!(gpu_status(&ran(true, &[0x34, 0xff, 0x35, 0x0a])), "4\u{fffd}5");
}

#[test]
fn status_from_text_trims_or_gives_sentinel() {
    assert_eq!(status_from_text(Some("  45, 60\n")), "45, 60");
    assert_eq!(status_from_text(Some("\u{3000}7, 8\u{a0}")), "7, 8");
    assert_eq!(status_from_text(None), "OFFLINE_OR_NO_DRIVER");
}
