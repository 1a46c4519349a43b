use rating_log::csv_append::{
    append_records, ratings_records, transitions_records, RATINGS_HEADER, TRANSITIONS_HEADER,
};
use rating_log::folder::rating_folder_path;
use rating_log::greeting::greet;

fn rows(v: &[&str]) -> Vec<String> {
    v.iter().map(|s| s.to_string()).collect()
}

fn joined(records: &[String]) -> String {
    records.concat()
}

#[test]
fn greet_formats_name() {
    assert_eq!(greet("Ann"), "Hello, Ann! You've been greeted from Rust!");
    assert_eq!(greet(""), "Hello, ! You've been greeted from Rust!");
}

#[test]
fn folder_path_from_components() {
    let p = rating_folder_path("/tmp/base", "D1", "P1", "Pa1", "AB");
    assert_eq!(p, "/tmp/base/D1_P1_Pa1_AB/");
    let again = rating_folder_path("/tmp/base", "D1", "P1", "Pa1", "AB");
    assert_eq!(p, again);
}

#[test]
fn folder_path_with_empty_components() {
    assert_eq!(rating_folder_path("", "", "", "", ""), "/___/");
}

#[test]
fn fresh_file_empty_batch_is_header_only() {
    let r = append_records(false, "H1,H2", &Vec::new());
    assert_eq!(r, rows(&["H1,H2\n"]));
    assert_eq!(joined(&r), "H1,H2\n");
}

#[test]
fn existing_file_empty_batch_writes_nothing() {
    let r = append_records(true, "H1,H2", &Vec::new());
    assert!(r.is_empty());
}

#[test]
fn existing_file_gets_lines_without_header() {
    let before = "H\nold,1\n".to_string();
    let r = append_records(true, "H", &rows(&["x,1", "y,2"]));
    let after = before.clone() + &joined(&r);
    assert_eq!(after, "H\nold,1\nx,1\ny,2\n");
    assert!(after.starts_with(&before));
}

#[test]
fn two_appends_write_header_once() {
    let first = append_records(false, "H", &rows(&["a"]));
    let second = append_records(true, "H", &rows(&["b", "c"]));
    let content = joined(&first) + &joined(&second);
    assert_eq!(content, "H\na\nb\nc\n");
    assert_eq!(content.matches("H\n").count(), 1);
}

#[test]
fn lines_keep_their_order() {
    let r = append_records(true, "H", &rows(&["l1", "l2", "l3"]));
    assert_eq!(joined(&r), "l1\nl2\nl3\n");
}

#[test]
fn ratings_scenario_two_line_file() {
    let row = "A1,B1,dyad1,mac,JS,F,RA1,10:00,2024-01-01,169900000,order1,5,3,Self,00:10,00:20,clip1,shiftA,desc,1,1.0.0";
    let r = ratings_records(false, &rows(&[row]));
    let content = joined(&r);
    let lines: Vec<&str> = content.lines().collect();
    assert_eq!(lines.len(), 2);
    assert_eq!(lines[0], "SubID,PartnerID,dyad,computer,subjectInitials,saveFolder,raName,sessionTime,sessionDate,timestamp,taskOrder,Rating,EmoRating,EmoRating_Person,Time,stopTime,Movietime,Shift,Description,trialNumber,softwareVersion");
    assert_eq!(lines[0], RATINGS_HEADER);
    assert_eq!(lines[1], row);
    assert!(content.ends_with('\n'));
}

#[test]
fn transitions_header_on_fresh_file() {
    let r = transitions_records(false, &rows(&["d,p"]));
    assert_eq!(r.len(), 2);
    assert_eq!(r[0], "dyadId,participantId,partnerId,computer,subjectInitials,saveFolder,raName,sessionTime,sessionDate,sessionTimestamp,ratingTask,subTask,emotion1,emotion2,ratingPerson,response,trialNumber,softwareVersion\n");
    assert_eq!(r[0], format!("{}\n", TRANSITIONS_HEADER));
    assert_eq!(r[1], "d,p\n");
}

#[test]
fn transitions_existing_file_no_header() {
    let r = transitions_records(true, &rows(&["d,p"]));
    assert_eq!(r, rows(&["d,p\n"]));
}
