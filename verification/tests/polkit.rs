use vasak_permissions::polkit::parse_start_time;

#[test]
fn the_start_time_is_read_from_the_right_field() {
    let mut stat = String::from("1234 (bash) S");
    for field in 4..=21 {
        stat.push_str(&format!(" {field}"));
    }
    stat.push_str(" 4242 rest of the line");

    assert_eq!(parse_start_time(&stat), Some(4242));
}

#[test]
fn a_program_name_with_spaces_and_brackets_does_not_shift_the_fields() {
    let mut stat = String::from("1234 (weird ) name) S");
    for field in 4..=21 {
        stat.push_str(&format!(" {field}"));
    }
    stat.push_str(" 99 more");

    assert_eq!(parse_start_time(&stat), Some(99));
}

#[test]
fn a_truncated_stat_line_is_rejected_rather_than_guessed() {
    assert_eq!(parse_start_time("1234 (bash) S 3 4"), None);
    assert_eq!(parse_start_time("nonsense"), None);
    assert_eq!(parse_start_time(""), None);
}

#[test]
fn a_start_time_that_is_not_a_number_is_no_start_time() {
    let mut stat = String::from("1 (x) S");
    for field in 4..=21 {
        stat.push_str(&format!(" {field}"));
    }
    stat.push_str(" 12a");
    assert_eq!(parse_start_time(&stat), None);
    let grande = stat.replace(" 12a", " 18446744073709551615");
    assert_eq!(parse_start_time(&grande), Some(u64::MAX));
    let demasiado = stat.replace(" 12a", " 18446744073709551616");
    assert_eq!(parse_start_time(&demasiado), None);
}
