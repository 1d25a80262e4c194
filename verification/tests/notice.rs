use lamefiles::notice::{
    deletion_prompt, exhausted_line, filter_notice, page_prompt, reply_is_complaint, reply_line,
    searching_line, total_size_line,
};
use lamefiles::session::Reply;
use lamefiles::text::{push_decimal, push_digit};

#[test]
fn the_startup_lines() {
    assert_eq!(searching_line("/tmp/x"), "\nSearching for files in /tmp/x ...\n");
    assert_eq!(total_size_line(135), "\nTotal size: 135.00 Byte\n");
    assert_eq!(total_size_line(3 * 1024 * 1024), "\nTotal size: 3.00 MiB\n");
}

#[test]
fn a_threshold_is_told_only_where_it_is_set() {
    assert_eq!(filter_notice("created", 0), None);
    assert_eq!(
        filter_notice("created", 30),
        Some("Only showing files that were created at least 30 days ago.".to_string())
    );
    assert_eq!(
        filter_notice("accessed", 1),
        Some("Only showing files that were accessed at least 1 days ago.".to_string())
    );
}

#[test]
fn the_prompts() {
    assert_eq!(deletion_prompt("a/b.txt"), "Delete file a/b.txt? y/N: ");
    assert_eq!(
        page_prompt(),
        "\nTop 5 filesizes are shown above. Enter a number to delete, \
         type n to show the next 5 files or q to quit.\nInput: "
    );
}

#[test]
fn the_lines_for_the_replies() {
    assert_eq!(exhausted_line(), "No files left, quitting.\n");
    assert_eq!(reply_line(Reply::NoFilesLeft), Some("\nNo files left, quitting.\n"));
    assert_eq!(reply_line(Reply::InvalidChoice), Some("Invalid choice\n"));
    assert_eq!(reply_line(Reply::NotANumber), Some("Not a valid number\n"));
    assert_eq!(reply_line(Reply::DeletionFailed), Some("Couldn't delete file\n"));
    assert_eq!(reply_line(Reply::Deleted), Some("File deleted\n"));
    assert_eq!(reply_line(Reply::Declined), Some(""));
    for quiet in [Reply::Advanced, Reply::Quit, Reply::Confirm(2), Reply::Over] {
        assert_eq!(reply_line(quiet), None);
    }
}

#[test]
fn complaints_are_the_replies_to_what_went_wrong() {
    for reply in [Reply::InvalidChoice, Reply::NotANumber, Reply::DeletionFailed] {
        assert!(reply_is_complaint(reply));
    }
    for reply in [
        Reply::Advanced,
        Reply::Quit,
        Reply::NoFilesLeft,
        Reply::Confirm(1),
        Reply::Deleted,
        Reply::Declined,
        Reply::Over,
    ] {
        assert!(!reply_is_complaint(reply));
    }
}

#[test]
fn numbers_are_written_in_decimal() {
    for number in [0u64, 1, 9, 10, 11, 99, 100, 12345, 1_000_000, u64::MAX] {
        let mut text = String::from("n=");
        push_decimal(&mut text, number);
        assert_eq!(text, format!("n={}", number));
    }
    let mut text = String::new();
    for digit in 0..10u8 {
        push_digit(&mut text, digit);
    }
    assert_eq!(text, "0123456789");
}
