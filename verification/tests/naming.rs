use cstimer_analyzer::naming::{directory_name, image_directory, report_directory};

#[test]
fn directory_is_named_by_its_stamp() {
    assert_eq!(directory_name("240229_235959"), "csTimer-Analysis_240229_235959");
    assert_eq!(directory_name(""), "csTimer-Analysis_");
}

#[test]
fn report_directory_is_stamped_with_the_date_and_time() {
    assert_eq!(report_directory(0, 0), Some(String::from("csTimer-Analysis_700101_000000")));
    assert_eq!(
        report_directory(1_700_000_000, 0),
        Some(String::from("csTimer-Analysis_231114_221320"))
    );
}

#[test]
fn report_directory_is_stamped_in_local_time() {
    assert_eq!(
        report_directory(1_700_000_000, 3600),
        Some(String::from("csTimer-Analysis_231114_231320"))
    );
    assert_eq!(
        report_directory(1_700_000_000, -8 * 3600),
        Some(String::from("csTimer-Analysis_231114_141320"))
    );
    assert_eq!(
        report_directory(1_709_251_199, 1),
        Some(String::from("csTimer-Analysis_240301_000000"))
    );
}

#[test]
fn report_directory_refuses_what_is_no_date() {
    assert_eq!(report_directory(0, 86_400), None);
    assert_eq!(report_directory(0, -86_400), None);
    assert_eq!(report_directory(i64::MAX, 0), None);
    assert_eq!(report_directory(i64::MIN, 0), None);
}

#[test]
fn images_lie_in_the_report_directory() {
    assert_eq!(image_directory("csTimer-Analysis_240229_235959"), "csTimer-Analysis_240229_235959/images");
    assert_eq!(image_directory(""), "/images");
}
