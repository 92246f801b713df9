use claude_manager::prompt::{is_waiting_prompt, strip_ansi_escapes};

#[test]
fn is_waiting_prompt_detects_patterns() {
    assert!(is_waiting_prompt("Continue? [Y/n]"));
    assert!(is_waiting_prompt("Allow read access?"));
    assert!(is_waiting_prompt("Do you want to proceed?"));
    assert!(is_waiting_prompt("Approve this action"));
    assert!(is_waiting_prompt("Continue? (yes/no)"));
    assert!(!is_waiting_prompt("Processing..."));
    assert!(!is_waiting_prompt(""));
}

#[test]
fn prompt_detection_scenario() {
    for text in [
        "Continue? [Y/n]",
        "Allow read access?",
        "Do you want to proceed?",
        "Approve this action",
        "Continue? (yes/no)",
    ] {
        assert!(is_waiting_prompt(text), "{text}");
    }
    for text in ["Processing...", ""] {
        assert!(!is_waiting_prompt(text), "{text}");
    }
}

#[test]
fn prompt_other_markers() {
    assert!(is_waiting_prompt("Overwrite [y/N]"));
    assert!(is_waiting_prompt("Delete (y/n)"));
    assert!(!is_waiting_prompt("Allowed"));
}

#[test]
fn question_on_last_visible_line() {
    assert!(is_waiting_prompt("Working\nWhich file?\n\n  \n"));
    assert!(is_waiting_prompt("Which file?  \r\n"));
    assert!(!is_waiting_prompt("Which file?\nDone."));
    assert!(!is_waiting_prompt("   \n\t"));
}

#[test]
fn strip_removes_control_sequences() {
    assert_eq!(strip_ansi_escapes("\x1b[31mred\x1b[0m"), "red");
    assert_eq!(strip_ansi_escapes("a\x1b[1;32;40mb"), "ab");
    assert_eq!(strip_ansi_escapes("x\x1bMy"), "xy");
    assert_eq!(strip_ansi_escapes("x\x1b]0;window title\x07y"), "xy");
    assert_eq!(strip_ansi_escapes("x\x1b]8;;http://e.x\x1b\\link\x1b]8;;\x1b\\y"), "xlinky");
    assert_eq!(strip_ansi_escapes("cut\x1b]2;never ended"), "cut");
    assert_eq!(strip_ansi_escapes("end\x1b"), "end");
    assert_eq!(strip_ansi_escapes("open\x1b[12"), "open");
    assert_eq!(strip_ansi_escapes("plain text"), "plain text");
    assert_eq!(strip_ansi_escapes(""), "");
}

#[test]
fn stripping_is_idempotent_and_heuristic_ignores_it() {
    let inputs = [
        "\x1b[1mContinue?\x1b[0m",
        "\x1b[32mDone\x1b[0m\n",
        "Allow\x1b[0m access",
        "\x1b[?25l[Y/n]\x1b[?25h",
        "\x1b\x1b[31mx",
        "tail \x1b[",
        "\x1b]0;Allow it?\x07done",
    ];
    for x in inputs {
        let once = strip_ansi_escapes(x);
        assert_eq!(strip_ansi_escapes(&once), once);
        assert_eq!(is_waiting_prompt(&once), is_waiting_prompt(x), "{x:?}");
    }
}

#[test]
fn escapes_inside_markers_are_seen_through() {
    assert!(is_waiting_prompt("\x1b[1m[Y/n]\x1b[0m"));
    assert!(is_waiting_prompt("Proceed\x1b[0m?\x1b[K\n"));
    assert!(!is_waiting_prompt("\x1b[33mWorking...\x1b[0m"));
    assert!(!is_waiting_prompt("\x1b]0;Allow it?\x07done"));
}
