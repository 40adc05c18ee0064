use easyjump::model::{auto_tab_key, make_labels, short_path, status_rank, strip_hint, Tab, ALPHABET};

fn tab(number: i64, label: &str) -> Tab {
    Tab {
        tab_id: "t".to_string(),
        workspace_id: "w".to_string(),
        label: label.to_string(),
        number,
        pane_count: 1,
        agent_status: None,
    }
}

#[test]
fn make_labels_single_letters_up_to_the_alphabet() {
    assert_eq!(make_labels(0), Vec::<String>::new());
    assert_eq!(make_labels(3), vec!["a", "s", "d"]);
    let all = make_labels(21);
    assert_eq!(all.len(), 21);
    assert_eq!(all.concat(), ALPHABET);
    assert_eq!(all[20], "m");
}

#[test]
fn make_labels_two_letters_beyond_the_alphabet() {
    let l = make_labels(22);
    assert_eq!(l.len(), 22);
    assert_eq!(l[0], "aa");
    assert_eq!(l[1], "as");
    assert_eq!(l[20], "am");
    assert_eq!(l[21], "sa");
    assert!(l.iter().all(|x| x.chars().count() == 2));
}

#[test]
fn make_labels_stops_at_all_pairs() {
    assert_eq!(make_labels(441).len(), 441);
    assert_eq!(make_labels(441)[440], "mm");
    assert_eq!(make_labels(500).len(), 441);
}

#[test]
fn labels_are_distinct_and_prefix_free() {
    for n in [5usize, 21, 22, 60, 441] {
        let l = make_labels(n);
        for i in 0..l.len() {
            assert!(l[i].chars().all(|c| ALPHABET.contains(c)));
            assert!(!l[i].contains('h') && !l[i].contains('j') && !l[i].contains('q'));
            for j in 0..l.len() {
                if i != j {
                    assert!(!l[j].starts_with(l[i].as_str()), "{} is a prefix of {}", l[i], l[j]);
                }
            }
        }
    }
}

#[test]
fn strip_hint_removes_our_prefix() {
    assert_eq!(strip_hint("[a] build"), "build");
    assert_eq!(strip_hint("[as] build"), "build");
    assert_eq!(strip_hint("[1] 1"), "1");
    assert_eq!(strip_hint("[a9] x"), "x");
    assert_eq!(strip_hint("[a] [s] twice"), "[s] twice");
    assert_eq!(strip_hint("[a] "), "");
}

#[test]
fn strip_hint_leaves_other_labels() {
    assert_eq!(strip_hint("build"), "build");
    assert_eq!(strip_hint(""), "");
    assert_eq!(strip_hint("[] x"), "[] x");
    assert_eq!(strip_hint("[abc] x"), "[abc] x");
    assert_eq!(strip_hint("[h] x"), "[h] x");
    assert_eq!(strip_hint("[q] x"), "[q] x");
    assert_eq!(strip_hint("[a]x"), "[a]x");
    assert_eq!(strip_hint("[A] x"), "[A] x");
    assert_eq!(strip_hint("x [a] y"), "x [a] y");
}

#[test]
fn strip_hint_undoes_every_label_hint() {
    for l in make_labels(60).iter().chain(make_labels(5).iter()) {
        let hinted = format!("[{l}] my tab");
        assert_eq!(strip_hint(&hinted), "my tab");
    }
    for d in 1..=9 {
        let hinted = format!("[{d}] {d}");
        assert_eq!(strip_hint(&hinted), d.to_string());
    }
}

#[test]
fn auto_tab_key_is_the_number_of_an_auto_named_tab() {
    assert_eq!(auto_tab_key(&tab(3, "3")), Some("3".to_string()));
    assert_eq!(auto_tab_key(&tab(1, "1")), Some("1".to_string()));
    assert_eq!(auto_tab_key(&tab(9, "9")), Some("9".to_string()));
}

#[test]
fn auto_tab_key_none_for_named_or_large_tabs() {
    assert_eq!(auto_tab_key(&tab(3, "build")), None);
    assert_eq!(auto_tab_key(&tab(3, "4")), None);
    assert_eq!(auto_tab_key(&tab(10, "10")), None);
    assert_eq!(auto_tab_key(&tab(0, "0")), None);
    assert_eq!(auto_tab_key(&tab(-1, "-1")), None);
    assert_eq!(auto_tab_key(&tab(3, "03")), None);
}

#[test]
fn short_path_writes_home_as_tilde() {
    assert_eq!(short_path("/home/u/src/herdr", "/home/u"), "~/src/herdr");
    assert_eq!(short_path("/home/u", "/home/u"), "~");
    assert_eq!(short_path("/home/user2/x", "/home/u"), "/home/user2/x");
    assert_eq!(short_path("/tmp", "/home/u"), "/tmp");
    assert_eq!(short_path("/home/u/x", ""), "/home/u/x");
    assert_eq!(short_path("", "/home/u"), "");
}

#[test]
fn status_rank_orders_statuses() {
    assert_eq!(status_rank(Some("blocked")), 0);
    assert_eq!(status_rank(Some("waiting")), 1);
    assert_eq!(status_rank(Some("error")), 2);
    assert_eq!(status_rank(Some("done")), 3);
    assert_eq!(status_rank(Some("working")), 4);
    assert_eq!(status_rank(Some("idle")), 5);
    assert_eq!(status_rank(Some("running")), 9);
    assert_eq!(status_rank(None), 9);
}
