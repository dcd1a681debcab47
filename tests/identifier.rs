use contest_samples::contest::ContestKind;

fn labels(k: ContestKind) -> Vec<String> {
    k.problem_list()
}

#[test]
fn parse_plain_names() {
    assert_eq!(ContestKind::parse("abc390"), Some(ContestKind::ABC(390)));
    assert_eq!(ContestKind::parse("arc195"), Some(ContestKind::ARC(195)));
    assert_eq!(ContestKind::parse("agc001"), Some(ContestKind::AGC(1)));
}

#[test]
fn parse_ignores_case_and_surrounding_whitespace() {
    assert_eq!(ContestKind::parse("  ABC126\n"), Some(ContestKind::ABC(126)));
    assert_eq!(ContestKind::parse("\tArC58 "), Some(ContestKind::ARC(58)));
    assert_eq!(ContestKind::parse("\u{3000}aGc0\u{a0}"), Some(ContestKind::AGC(0)));
}

#[test]
fn parse_round_trips_number() {
    for n in [0usize, 7, 42, 125, 126, 999, 1000, 123456] {
        let text = format!("abc{}", n);
        assert_eq!(ContestKind::parse(&text), Some(ContestKind::ABC(n)));
        let text = format!(" ARC{} ", n);
        assert_eq!(ContestKind::parse(&text), Some(ContestKind::ARC(n)));
    }
    let max = format!("agc{}", usize::MAX);
    assert_eq!(ContestKind::parse(&max), Some(ContestKind::AGC(usize::MAX)));
}

#[test]
fn parse_rejects_malformed_names() {
    assert_eq!(ContestKind::parse(""), None);
    assert_eq!(ContestKind::parse("   "), None);
    assert_eq!(ContestKind::parse("ab"), None);
    assert_eq!(ContestKind::parse("abc"), None);
    assert_eq!(ContestKind::parse("xyz12"), None);
    assert_eq!(ContestKind::parse("abd12"), None);
    assert_eq!(ContestKind::parse("abc12a"), None);
    assert_eq!(ContestKind::parse("abc 12"), None);
    assert_eq!(ContestKind::parse("abc-1"), None);
    assert_eq!(ContestKind::parse("abc+"), None);
    assert_eq!(ContestKind::parse("abc18446744073709551616"), None);
    assert_eq!(ContestKind::parse("日本語1"), None);
}

#[test]
fn parse_accepts_explicit_plus_sign() {
    assert_eq!(ContestKind::parse("abc+12"), Some(ContestKind::ABC(12)));
}

#[test]
fn letters_are_the_same_on_every_call() {
    for k in [ContestKind::ABC(100), ContestKind::ARC(80), ContestKind::AGC(5)] {
        assert_eq!(labels(k), labels(k));
    }
}

#[test]
fn abc_letter_boundary() {
    assert_eq!(labels(ContestKind::ABC(125)), vec!["a", "b", "c", "d"]);
    assert_eq!(labels(ContestKind::ABC(126)), vec!["a", "b", "c", "d", "e", "f"]);
    assert_eq!(labels(ContestKind::ABC(0)).len(), 4);
}

#[test]
fn arc_letter_boundaries() {
    assert_eq!(labels(ContestKind::ARC(57)), vec!["a", "b", "c", "d"]);
    assert_eq!(labels(ContestKind::ARC(58)), vec!["c", "d", "e", "f"]);
    assert_eq!(labels(ContestKind::ARC(103)), vec!["c", "d", "e", "f"]);
    assert_eq!(labels(ContestKind::ARC(104)), vec!["a", "b", "c", "d"]);
}

#[test]
fn agc_labels_are_numbered_codes() {
    assert_eq!(labels(ContestKind::AGC(3)), vec!["AGC0", "AGC1", "AGC2"]);
    assert_eq!(labels(ContestKind::AGC(0)).len(), 0);
    let twelve = labels(ContestKind::AGC(12));
    assert_eq!(twelve.len(), 12);
    assert_eq!(twelve[10], "AGC10");
    assert_eq!(twelve[11], "AGC11");
}

#[test]
fn abc126_end_to_end_letters() {
    let k = ContestKind::parse("abc126").unwrap();
    assert_eq!(labels(k), vec!["a", "b", "c", "d", "e", "f"]);
}

#[test]
fn urls_are_zero_padded() {
    assert_eq!(
        ContestKind::ABC(5).problem_url("a"),
        "https://atcoder.jp/contests/abc005/tasks/abc005_a"
    );
    assert_eq!(
        ContestKind::ARC(58).problem_url("c"),
        "https://atcoder.jp/contests/arc058/tasks/arc058_c"
    );
    assert_eq!(
        ContestKind::AGC(1234).problem_url("AGC7"),
        "https://atcoder.jp/contests/agc1234/tasks/agc1234_AGC7"
    );
}

#[test]
fn problem_urls_follow_letters() {
    let urls = ContestKind::ABC(390).problem_urls();
    assert_eq!(urls.len(), 6);
    assert_eq!(urls[0], "https://atcoder.jp/contests/abc390/tasks/abc390_a");
    assert_eq!(urls[5], "https://atcoder.jp/contests/abc390/tasks/abc390_f");
    let urls = ContestKind::ARC(60).problem_urls();
    assert_eq!(urls[0], "https://atcoder.jp/contests/arc060/tasks/arc060_c");
}
