use flipup_vmix::channels::HoleFinishedAlert;
use flipup_vmix::error::Error;
use flipup_vmix::handler::{convert_division_name, rank_of_division, retain_alphabetic};
use flipup_vmix::text::{fix_score, isize_to_string, str_le, usize_to_string};

#[test]
fn fix_score_marks_even_and_over_par() {
    assert_eq!(fix_score(0), "E");
    assert_eq!(fix_score(-3), "-3");
    assert_eq!(fix_score(2), "%2B2");
}

#[test]
fn numbers_are_written_in_decimal() {
    assert_eq!(usize_to_string(0), "0");
    assert_eq!(usize_to_string(1207), "1207");
    assert_eq!(isize_to_string(-45), "-45");
}

#[test]
fn text_is_ordered_by_characters() {
    assert!(str_le("abc", "abd"));
    assert!(str_le("ab", "abc"));
    assert!(!str_le("b", "abc"));
}

#[test]
fn names_keep_only_letters() {
    assert_eq!(retain_alphabetic("Anna-Lena 2"), "AnnaLena");
    assert_eq!(retain_alphabetic("Åsa"), "Åsa");
}

#[test]
fn amateur_divisions_get_short_names() {
    assert_eq!(convert_division_name("Women's Amateur 2"), "FA2");
    assert_eq!(convert_division_name("Mixed Amateur 40+"), "MA40");
    assert_eq!(convert_division_name("Open"), "Open");
    assert_eq!(rank_of_division("MA1"), 4);
    assert_eq!(rank_of_division("MPO"), 0);
}

#[test]
fn errors_answer_with_their_status() {
    assert_eq!(Error::UnloadedDependency.status_code(), 424);
    assert_eq!(Error::CardIndexNotFound(3).status_code(), 400);
    assert_eq!(Error::UnableToParse.status_code(), 500);
}

#[test]
fn hole_finished_alert_messages() {
    assert_eq!(HoleFinishedAlert::JustFinished.try_into_message(), Some("NU".to_string()));
    assert_eq!(HoleFinishedAlert::SecondSend.try_into_message(), Some("SEN".to_string()));
}
