use module_manager::devices::{
    check_if_devices_are_connected, has_adb_device, has_fastboot_device, ready_line, search_step,
    Search,
};

#[test]
fn adb_listing_with_a_ready_device() {
    assert!(has_adb_device("List of devices attached\nemulator-5554\tdevice\n\n"));
    assert!(has_adb_device("List of devices attached\r\n0123456789ABCDEF    device\r\n"));
    assert!(has_adb_device("header\nabc\toffline\nxyz\tdevice\n"));
}

#[test]
fn adb_listing_without_a_ready_device() {
    assert!(!has_adb_device(""));
    assert!(!has_adb_device("List of devices attached\n"));
    assert!(!has_adb_device("List of devices attached\n\n"));
    assert!(!has_adb_device("List of devices attached\nemulator-5554\toffline\n"));
    assert!(!has_adb_device("List of devices attached\nemulator-5554\tunauthorized\n"));
}

#[test]
fn adb_header_line_is_not_a_device() {
    assert!(!has_adb_device("serial device\n"));
    assert!(!has_adb_device("serial device"));
    assert!(has_adb_device("serial device\nserial device"));
    assert!(has_adb_device("\nserial device"));
}

#[test]
fn adb_line_must_have_two_words_and_the_ready_status() {
    assert!(ready_line("emulator-5554\tdevice"));
    assert!(ready_line("  emulator-5554   device  "));
    assert!(!ready_line("device"));
    assert!(!ready_line("emulator-5554 device extra"));
    assert!(!ready_line("emulator-5554 Device"));
    assert!(!ready_line("emulator-5554 devices"));
    assert!(!ready_line("device emulator-5554"));
    assert!(!ready_line(""));
    assert!(!has_adb_device("header\nserial device product:x\n"));
}

#[test]
fn fastboot_listing_counts_any_line_that_is_not_blank() {
    assert!(has_fastboot_device("0123456789ABCDEF\tfastboot\n"));
    assert!(has_fastboot_device("\n  \nx\n"));
    assert!(has_fastboot_device("x"));
}

#[test]
fn fastboot_listing_of_blank_lines_has_no_device() {
    assert!(!has_fastboot_device(""));
    assert!(!has_fastboot_device("\n"));
    assert!(!has_fastboot_device("  \n\t\r\n \n"));
}

#[test]
fn either_listing_is_enough() {
    let adb_yes = "List of devices attached\nabc\tdevice\n";
    let adb_no = "List of devices attached\n\n";
    let fastboot_yes = "abc\tfastboot\n";
    let fastboot_no = "";
    assert!(check_if_devices_are_connected(adb_yes, fastboot_no));
    assert!(check_if_devices_are_connected(adb_no, fastboot_yes));
    assert!(check_if_devices_are_connected(adb_yes, fastboot_yes));
    assert!(!check_if_devices_are_connected(adb_no, fastboot_no));
}

#[test]
fn search_asks_the_bootloader_listing_only_without_a_ready_device() {
    let adb_yes = "List of devices attached\nabc\tdevice\n";
    let adb_no = "List of devices attached\n\n";
    assert_eq!(search_step(Search::General, adb_yes), Search::Over(true));
    assert_eq!(search_step(Search::General, adb_no), Search::Bootloader);
    assert_eq!(search_step(Search::Bootloader, "abc\tfastboot\n"), Search::Over(true));
    assert_eq!(search_step(Search::Bootloader, ""), Search::Over(false));
}

#[test]
fn search_that_is_over_stays_over() {
    assert_eq!(search_step(Search::Over(true), ""), Search::Over(true));
    assert_eq!(search_step(Search::Over(false), "abc\tfastboot\n"), Search::Over(false));
}
