use dagon_lib::logger::{color, ldebug, lerr, linfo, locates, log, log_line, lsuc, lwarn};

#[test]
fn colours_by_kind() {
    assert_eq!(color("inf"), "34");
    assert_eq!(color("suc"), "32");
    assert_eq!(color("war"), "33");
    assert_eq!(color("err"), "31");
    assert_eq!(color("debug"), "5;31;43");
    assert_eq!(color("other"), "35");
    assert!(locates("err") && locates("debug") && !locates("inf"));
}

#[test]
fn formats_lines() {
    assert_eq!(linfo("info"), "[\x1b[34mINF\x1b[0m]: info");
    assert_eq!(lsuc("suc"), "[\x1b[32mSUC\x1b[0m]: suc");
    assert_eq!(lwarn("warn"), "[\x1b[33mWAR\x1b[0m]: warn");
    assert_eq!(lerr("err", Some("main.rs:12")), "[\x1b[31mERR\x1b[0m]: err (main.rs:12)");
    assert_eq!(ldebug("debug", None), "[\x1b[5;31;43mDEBUG\x1b[0m]: debug (ukwn)");
    assert_eq!(log("xyz", "m", Some("f")), "[\x1b[35mXYZ\x1b[0m]: m");
    assert_eq!(log_line("err", "E", "m", None), "[\x1b[31mE\x1b[0m]: m (ukwn)");
}

#[test]
fn locations_are_file_and_line() {
    assert_eq!(dagon_lib::logger::file_location("main.rs", 42), "main.rs:42");
    assert_eq!(dagon_lib::logger::file_location("", 0), ":0");
}
