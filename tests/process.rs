use superviseur::process::{display_option, display_up_time, format_duration, Process, State};
use superviseur::util::{convert_dir_path_to_absolute_path, join_path, PathError};

#[test]
fn state_names() {
    assert_eq!(State::Running.to_string(), "Running");
    assert_eq!(State::WaitingForCpu.to_string(), "WaitingForCpu");
    assert_eq!(State::default(), State::Unknown);
    assert_eq!(Process::new().state, State::Unknown);
}

#[test]
fn durations_in_largest_unit() {
    assert_eq!(format_duration(5), "5 seconds ago");
    assert_eq!(format_duration(0), "0 seconds ago");
    assert_eq!(format_duration(-3), "-3 seconds ago");
    assert_eq!(format_duration(60), "1 minute ago");
    assert_eq!(format_duration(150), "2 minutes ago");
    assert_eq!(format_duration(3600), "1 hour ago");
    assert_eq!(format_duration(7300), "2 hours ago");
    assert_eq!(format_duration(86400), "1 day ago");
    assert_eq!(format_duration(10 * 86400 + 5), "10 days ago");
}

#[test]
fn missing_values_show_as_question_mark() {
    assert_eq!(display_option(&Some(1234)), "1234");
    assert_eq!(display_option(&None), "?");
}

#[test]
fn up_time_display() {
    assert_eq!(display_up_time(&Some(1000), 1090), "Up 1 minute ago");
    assert_eq!(display_up_time(&None, 1090), "Stopped");
}

#[test]
fn directory_resolution() {
    assert_eq!(convert_dir_path_to_absolute_path(".", "/home/u", false), Ok("/home/u".to_string()));
    assert_eq!(convert_dir_path_to_absolute_path("", "/home/u", false), Ok("/home/u".to_string()));
    assert_eq!(convert_dir_path_to_absolute_path("./", "/home/u", false), Ok("/home/u".to_string()));
    assert_eq!(
        convert_dir_path_to_absolute_path("./app", "/home/u", false),
        Ok("/home/u/app".to_string())
    );
    assert_eq!(
        convert_dir_path_to_absolute_path("app", "/home/u/", true),
        Ok("/home/u/app".to_string())
    );
    assert_eq!(
        convert_dir_path_to_absolute_path("missing", "/home/u", false),
        Err(PathError::InvalidDirectory)
    );
    assert_eq!(join_path("/a", "/b"), "/b");
}
