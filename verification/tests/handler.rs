use pdu_exporter::pdu::client::{split_question_marks, status_answer, status_fields, status_url};
use pdu_exporter::pdu::handler::{
    pdu_name_list, rack_groups, rack_name, rack_name_list, strip_suffix_ab,
};
use pdu_exporter::pdu::{METRIC_STEP, RAW_DATA_LENGTH};

fn data_with_names(names: &[(usize, &str)]) -> Vec<String> {
    let mut data = vec![String::new(); RAW_DATA_LENGTH];
    for &(a, name) in names {
        let i = a * METRIC_STEP;
        data[i + 1] = name.to_string();
        data[i + 10] = format!("{}.1", a);
        data[i + 11] = format!("23{}", a);
        data[i + 12] = format!("{}00", a);
    }
    data
}

#[test]
fn strip_suffix_ab_takes_off_one_suffix() {
    assert_eq!(strip_suffix_ab("Rack 1A"), "Rack 1");
    assert_eq!(strip_suffix_ab("Rack 1B"), "Rack 1");
    assert_eq!(strip_suffix_ab("Rack 1AB"), "Rack 1A");
    assert_eq!(strip_suffix_ab("Rack 1C"), "Rack 1C");
    assert_eq!(strip_suffix_ab(""), "");
    assert_eq!(rack_name(" Rack 2 A"), "Rack 2");
}

#[test]
fn status_url_and_fields() {
    assert_eq!(status_url("10.0.0.7"), "http://10.0.0.7/status.cgi");
    assert_eq!(status_fields(" a ?b? \tc\n"), vec!["a", "b", "c"]);
    assert_eq!(status_fields(""), vec![""]);
    assert_eq!(status_fields("??"), vec!["", "", ""]);
    assert_eq!(split_question_marks("x ? y"), vec!["x ", " y"]);
}

#[test]
fn pdu_names_cover_every_address() {
    let data = data_with_names(&[(0, "Rack A"), (4, "Rack B")]);
    let names = pdu_name_list(&data);
    assert_eq!(names.len(), 32);
    assert_eq!(names[0], ("pdu_1".to_string(), "# 1 Rack A".to_string()));
    assert_eq!(names[1], ("pdu_2".to_string(), "# 2 ".to_string()));
    assert_eq!(names[4], ("pdu_5".to_string(), "# 5 Rack B".to_string()));
    assert_eq!(names[31].0, "pdu_32");
}

#[test]
fn rack_names_give_each_address_its_name() {
    let data = data_with_names(&[(0, "Rack A"), (1, "Rack B"), (31, "Rack AF")]);
    let racks = rack_name_list(&data);
    assert_eq!(racks.len(), 32);
    assert_eq!(racks[0], ("rack_1".to_string(), "# 1 Rack A".to_string()));
    assert_eq!(racks[1], ("rack_2".to_string(), "# 2 Rack B".to_string()));
    assert_eq!(racks[2], ("rack_3".to_string(), "# 3 ".to_string()));
    assert_eq!(racks[31], ("rack_32".to_string(), "# 32 Rack AF".to_string()));
}

#[test]
fn rack_names_with_no_names_keep_the_numbers() {
    let racks = rack_name_list(&data_with_names(&[]));
    assert_eq!(racks[0], ("rack_1".to_string(), "# 1 ".to_string()));
}

#[test]
fn short_answers_are_not_status_answers() {
    assert_eq!(status_answer("a?b"), None);
    let body = vec!["x"; RAW_DATA_LENGTH].join("?");
    let fields = status_answer(&body).unwrap();
    assert_eq!(fields.len(), RAW_DATA_LENGTH);
    assert_eq!(fields[0], "x");
}

#[test]
fn rack_groups_sort_units_and_racks() {
    let data = data_with_names(&[(0, "Rack 2B"), (1, "Rack 2A"), (2, "Rack 1A"), (4, "-"), (6, "Rack 0")]);
    let groups = rack_groups(&data);
    let racks: Vec<&str> = groups.iter().map(|g| g.rack.as_str()).collect();
    assert_eq!(racks, vec!["Rack 0", "Rack 1", "Rack 2"]);
    let rack2: Vec<(&str, &str)> =
        groups[2].pdus.iter().map(|p| (p.name.as_str(), p.address.as_str())).collect();
    assert_eq!(rack2, vec![("Rack 2A", "2"), ("Rack 2B", "1")]);
    assert_eq!(groups[2].pdus[0].current, "1.1");
    assert_eq!(groups[2].pdus[0].voltage, "231");
    assert_eq!(groups[2].pdus[0].power, "100");
    assert_eq!(groups[0].pdus[0].address, "5");
    assert_eq!(groups[1].pdus[0].address, "3");
}
