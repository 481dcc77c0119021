use battle_watch::record::{seat_for_index, Character, UNASSIGNED};
use battle_watch::roster::{parse_roster, parse_roster_report, Roster};
use battle_watch::text::{parse_digits, parse_signed, split_fields};

fn seat_name(r: &Roster, seat: usize) -> Option<String> {
    r.get(seat).map(|c| c.name.clone())
}

#[test]
fn empty_text_gives_empty_roster() {
    let r = parse_roster("");
    assert_eq!(r.len(), 0);
    assert!(r.is_empty());
    for seat in 0..20 {
        assert!(!r.contains_key(seat));
    }
}

#[test]
fn single_record_end_to_end() {
    let r = parse_roster("14|Alice|1|0|05|64|64|32|32|0|0|0");
    assert_eq!(r.len(), 1);
    let c = r.get(0).unwrap();
    assert_eq!(c.pos_in_grid, 0);
    assert_eq!(c.name, "Alice");
    assert_eq!(c.lv, 5);
    assert_eq!(c.hp, 100);
    assert_eq!(c.hp_max, 100);
    assert_eq!(c.mp, 50);
    assert_eq!(c.mp_max, 50);
}

#[test]
fn seat_table_is_a_bijection() {
    assert_eq!(seat_for_index(0x14), 0);
    assert_eq!(seat_for_index(3), 19);
    let table = [
        (0x14, 0), (0x12, 1), (0x10, 2), (0x11, 3), (0x13, 4),
        (0x19, 5), (0x17, 6), (0x15, 7), (0x16, 8), (0x18, 9),
        (9, 10), (7, 11), (5, 12), (6, 13), (8, 14),
        (4, 15), (2, 16), (0, 17), (1, 18), (3, 19),
    ];
    let mut seen = [false; 20];
    for (index, seat) in table {
        assert_eq!(seat_for_index(index), seat);
        assert!(!seen[seat as usize]);
        seen[seat as usize] = true;
    }
    assert!(seen.iter().all(|s| *s));
    for index in [0xa, 0xb, 0xc, 0xd, 0xe, 0xf, 0x1a, 0x20, -1] {
        assert_eq!(seat_for_index(index), UNASSIGNED);
    }
    assert_eq!(seat_for_index(0x1a), UNASSIGNED);
    assert_eq!(seat_for_index(-1), UNASSIGNED);
    assert_eq!(seat_for_index(0x7fffffff), UNASSIGNED);
}

#[test]
fn one_record_per_group_at_its_seat() {
    let text = "14|A|0|0|1|2|3|4|5|0|0|0|3|B|0|0|6|7|8|9|a|0|0|0|0|C|0|0|b|c|d|e|f|0|0|0";
    let r = parse_roster(text);
    assert_eq!(r.len(), 3);
    assert_eq!(seat_name(&r, 0).as_deref(), Some("A"));
    assert_eq!(seat_name(&r, 19).as_deref(), Some("B"));
    assert_eq!(seat_name(&r, 17).as_deref(), Some("C"));
    assert_eq!(r.get(19).unwrap().mp_max, 10);
    assert_eq!(r.get(17).unwrap().lv, 11);
}

#[test]
fn later_group_wins_a_shared_seat() {
    let text = "14|First|0|0|1|1|1|1|1|0|0|0|14|Second|0|0|2|2|2|2|2|0|0|0";
    let r = parse_roster(text);
    assert_eq!(r.len(), 1);
    let c = r.get(0).unwrap();
    assert_eq!(c.name, "Second");
    assert_eq!(c.lv, 2);
}

#[test]
fn trailing_partial_group_is_discarded() {
    let text = "14|A|0|0|1|2|3|4|5|0|0|0|3|B|0|0|6|7|8|9|a|0|0";
    let r = parse_roster(text);
    assert_eq!(r.len(), 1);
    assert!(r.contains_key(0));
    assert!(!r.contains_key(19));
    let short = parse_roster("3|B|0|0|6|7|8|9|a|0|0");
    assert!(short.is_empty());
}

#[test]
fn trailing_separator_leaves_partial_token() {
    // the buffer often ends in '|': the empty token after it is a partial group
    let r = parse_roster("14|A|0|0|1|2|3|4|5|0|0|0|");
    assert_eq!(r.len(), 1);
}

#[test]
fn unreadable_field_drops_only_its_record() {
    for field in [0usize, 4, 5, 6, 7, 8] {
        let mut bad = vec!["3", "Bad", "0", "0", "1", "2", "3", "4", "5", "0", "0", "0"];
        bad[field] = "zz";
        let text = format!(
            "14|A|0|0|1|2|3|4|5|0|0|0|{}|0|C|0|0|b|c|d|e|f|0|0|0",
            bad.join("|")
        );
        let r = parse_roster(&text);
        assert_eq!(r.len(), 2, "field {}", field);
        assert!(r.contains_key(0));
        assert!(r.contains_key(17));
        assert!(!r.contains_key(19));
    }
}

#[test]
fn non_numeric_unused_fields_are_kept() {
    let r = parse_roster("14|A|x|y|1|2|3|4|5|p|q|r");
    assert_eq!(r.len(), 1);
}

#[test]
fn unmapped_index_is_dropped() {
    let r = parse_roster("1a|A|0|0|1|2|3|4|5|0|0|0|14|B|0|0|1|2|3|4|5|0|0|0");
    assert_eq!(r.len(), 1);
    assert_eq!(seat_name(&r, 0).as_deref(), Some("B"));
}

#[test]
fn overflowing_hex_field_is_unreadable() {
    let r = parse_roster("14|A|0|0|80000000|2|3|4|5|0|0|0");
    assert!(r.is_empty());
    let r = parse_roster("14|A|0|0|7fffffff|2|3|4|5|0|0|0");
    assert_eq!(r.get(0).unwrap().lv, i32::MAX);
}

#[test]
fn signed_or_spaced_hex_is_unreadable() {
    assert!(parse_roster("14|A|0|0|-1|2|3|4|5|0|0|0").is_empty());
    assert!(parse_roster("14|A|0|0| 1|2|3|4|5|0|0|0").is_empty());
    assert!(parse_roster("14|A|0|0||2|3|4|5|0|0|0").is_empty());
}

#[test]
fn upper_case_hex_reads() {
    let r = parse_roster("14|A|0|0|FF|Ab|3|4|5|0|0|0");
    let c = r.get(0).unwrap();
    assert_eq!(c.lv, 255);
    assert_eq!(c.hp, 0xab);
}

#[test]
fn records_come_in_seat_order() {
    let r = parse_roster("3|B|0|0|6|7|8|9|a|0|0|0|14|A|0|0|1|2|3|4|5|0|0|0");
    let all = r.records();
    assert_eq!(all.len(), 2);
    assert_eq!(all[0].pos_in_grid, 0);
    assert_eq!(all[1].pos_in_grid, 19);
    let copy = r.copy();
    assert_eq!(copy.len(), 2);
    assert_eq!(copy.get(19).unwrap().name, "B");
}

#[test]
fn character_from_full_record() {
    let c = Character::from("13|Bob|1|0|a|b|c|d|e|0|0|0");
    assert_eq!(c.pos_in_grid, 4);
    assert_eq!(c.name, "Bob");
    assert_eq!((c.lv, c.hp, c.hp_max, c.mp, c.mp_max), (10, 11, 12, 13, 14));
}

#[test]
fn character_from_short_record_is_unassigned() {
    let c = Character::from("13|Bob|1|0|a|b|c|d|e|0|0");
    assert_eq!(c.pos_in_grid, -1);
    assert_eq!(c.name, "");
    assert_eq!((c.lv, c.hp, c.hp_max, c.mp, c.mp_max), (0, 0, 0, 0, 0));
}

#[test]
fn character_from_bad_record_is_unassigned() {
    let c = Character::from("13|Bob|1|0|a|b|c|q|e|0|0|0");
    assert_eq!(c.pos_in_grid, -1);
    assert_eq!(c.name, "");
}

#[test]
fn character_from_unmapped_index_keeps_fields() {
    let c = Character::from("1a|Eve|1|0|a|b|c|d|e|0|0|0");
    assert_eq!(c.pos_in_grid, -1);
    assert_eq!(c.name, "Eve");
    assert_eq!(c.mp_max, 14);
}

#[test]
fn character_default_is_unassigned() {
    let c = Character::default();
    assert_eq!(c.pos_in_grid, -1);
    assert_eq!(c.name, "");
}

#[test]
fn split_keeps_empty_tokens() {
    assert_eq!(split_fields(""), vec![String::new()]);
    assert_eq!(split_fields("a||b|"), vec!["a", "", "b", ""]);
    assert_eq!(split_fields("名字|x"), vec!["名字", "x"]);
}

#[test]
fn digits_in_bases() {
    assert_eq!(parse_digits("ff", 16, 1000), Some(255));
    assert_eq!(parse_digits("ff", 10, 1000), None);
    assert_eq!(parse_digits("1001", 16, 1000), None);
    assert_eq!(parse_digits("1000", 10, 1000), Some(1000));
    assert_eq!(parse_digits("", 10, 1000), None);
    assert_eq!(parse_digits("5", 10, 3), None);
    assert_eq!(parse_digits("3", 10, 3), Some(3));
    assert_eq!(parse_digits("0", 16, 0), Some(0));
    assert_eq!(parse_digits("00a", 16, 9), None);
    assert_eq!(parse_digits("18446744073709551615", 10, u64::MAX), Some(u64::MAX));
    assert_eq!(parse_digits("18446744073709551616", 10, u64::MAX), None);
}

fn record_text(index: &str, name: &str, lv: &str) -> String {
    format!("{}|{}|0|0|{}|1|2|3|4|0|0|0", index, name, lv)
}

#[test]
fn full_layout_takes_every_seat() {
    let indices = [
        "0", "1", "2", "3", "4", "5", "6", "7", "8", "9", "10", "11", "12", "13", "14", "15", "16",
        "17", "18", "19",
    ];
    let groups: Vec<String> = indices
        .iter()
        .map(|i| record_text(i, &format!("n{}", i), "1"))
        .collect();
    let r = parse_roster(&groups.join("|"));
    assert_eq!(r.len(), 20);
    for seat in 0..20 {
        assert!(r.contains_key(seat));
    }
    assert!(!r.contains_key(20));
    assert!(r.get(20).is_none());
    assert_eq!(r.get(0).unwrap().name, "n14");
    assert_eq!(r.get(19).unwrap().name, "n3");
    assert_eq!(r.records().len(), 20);
}

#[test]
fn more_groups_than_seats_keeps_last_per_seat() {
    let mut groups: Vec<String> = Vec::new();
    for i in 0..10 {
        groups.push(record_text(&format!("{:x}", i), "early", "1"));
    }
    for i in 0x10..0x1a {
        groups.push(record_text(&format!("{:x}", i), "mid", "2"));
    }
    groups.push(record_text("0", "late", "3"));
    let r = parse_roster(&groups.join("|"));
    assert_eq!(r.len(), 20);
    assert_eq!(r.get(17).unwrap().name, "late");
    assert_eq!(r.get(17).unwrap().lv, 3);
    assert_eq!(r.get(18).unwrap().name, "early");
    assert_eq!(r.get(0).unwrap().name, "mid");
}

#[test]
fn empty_name_is_kept() {
    let r = parse_roster("14||0|0|1|2|3|4|5|0|0|0");
    assert_eq!(r.get(0).unwrap().name, "");
}

#[test]
fn report_counts_dropped_groups() {
    let text = "14|A|0|0|1|2|3|4|5|0|0|0|zz|B|0|0|1|2|3|4|5|0|0|0|1a|C|0|0|1|2|3|4|5|0|0|0|3|D|0|0|1|q|3|4|5|0|0|0|3|E";
    let report = parse_roster_report(text);
    assert_eq!(report.dropped, 3);
    assert_eq!(report.roster.len(), 1);
    assert!(report.roster.contains_key(0));
    let clean = parse_roster_report("14|A|0|0|1|2|3|4|5|0|0|0|14|B|0|0|1|2|3|4|5|0|0|0");
    assert_eq!(clean.dropped, 0);
    assert_eq!(clean.roster.len(), 1);
    assert_eq!(parse_roster_report("").dropped, 0);
}

#[test]
fn signed_values_in_bases() {
    assert_eq!(parse_signed("+ff", 16), Some(255));
    assert_eq!(parse_signed("-ff", 16), Some(-255));
    assert_eq!(parse_signed("-ff", 10), None);
    assert_eq!(parse_signed("", 16), None);
}
