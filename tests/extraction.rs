use contest_samples::contest::ContestKind;
use contest_samples::page::{extract_from_markup, extract_input_output, page_parts, Page};
use contest_samples::samples::{get_input_number, get_output_number, pair_samples, PagePart};

fn part(heading: &str, block: &str) -> String {
    format!(
        "<div class=\"part\"><section><h3>{}</h3><pre>{}</pre></section></div>",
        heading, block
    )
}

fn page(parts: &[String]) -> String {
    format!("<html><body>{}</body></html>", parts.concat())
}

fn pairs(v: &[(&str, &str)]) -> Vec<(String, String)> {
    v.iter().map(|(a, b)| (a.to_string(), b.to_string())).collect()
}

fn pp(heading: Option<&str>, block: Option<&str>) -> PagePart {
    PagePart { heading: heading.map(|s| s.to_string()), block: block.map(|s| s.to_string()) }
}

#[test]
fn single_sample_is_extracted() {
    let html = page(&[part("Sample Input 1", "3\n5\n"), part("Sample Output 1", "8\n")]);
    assert_eq!(extract_from_markup(&html), pairs(&[("3\n5\n", "8\n")]));
}

#[test]
fn orphan_input_is_dropped() {
    let html = page(&[
        part("Sample Input 1", "3\n5\n"),
        part("Sample Output 1", "8\n"),
        part("Sample Input 2", "1\n1\n"),
    ]);
    let r = extract_from_markup(&html);
    assert_eq!(r.len(), 1);
    assert_eq!(r, pairs(&[("3\n5\n", "8\n")]));
}

#[test]
fn orphan_output_is_dropped() {
    let html = page(&[part("Sample Output 4", "9\n"), part("Sample Input 1", "1\n"), part("Sample Output 1", "2\n")]);
    assert_eq!(extract_from_markup(&html), pairs(&[("1\n", "2\n")]));
}

#[test]
fn unrelated_heading_is_ignored() {
    let html = page(&[
        part("Sample Input 1", "3\n5\n"),
        part("Notes", "nothing here\n"),
        part("Sample Output 1", "8\n"),
    ]);
    assert_eq!(extract_from_markup(&html), pairs(&[("3\n5\n", "8\n")]));
}

#[test]
fn japanese_headings_are_recognised() {
    let html = page(&[
        part("入力例 1", "1 2\n"),
        part("出力例 1", "3\n"),
        part("入力例 2", "4 5\n"),
        part("出力例 2", "9\n"),
    ]);
    assert_eq!(extract_from_markup(&html), pairs(&[("1 2\n", "3\n"), ("4 5\n", "9\n")]));
}

#[test]
fn pairs_come_in_ascending_number_order() {
    let html = page(&[
        part("Sample Input 12", "c\n"),
        part("Sample Output 3", "B\n"),
        part("Sample Input 3", "b\n"),
        part("Sample Output 12", "C\n"),
        part("Sample Input 0", "a\n"),
        part("Sample Output 0", "A\n"),
    ]);
    assert_eq!(
        extract_from_markup(&html),
        pairs(&[("a\n", "A\n"), ("b\n", "B\n"), ("c\n", "C\n")])
    );
}

#[test]
fn bad_sample_number_skips_part() {
    let html = page(&[
        part("Sample Input one", "x\n"),
        part("Sample Input 1", "1\n"),
        part("Sample Output 1", "2\n"),
        part("Sample Output one", "y\n"),
    ]);
    assert_eq!(extract_from_markup(&html), pairs(&[("1\n", "2\n")]));
}

#[test]
fn part_without_pre_is_skipped() {
    let html = "<html><body><div class=\"part\"><section><h3>Sample Input 1</h3></section></div>\
                <div class=\"part\"><section><h3>Sample Output 1</h3><pre>2</pre></section></div></body></html>";
    assert_eq!(extract_from_markup(html), Vec::<(String, String)>::new());
}

#[test]
fn other_classes_are_not_parts() {
    let html = "<html><body><div class=\"io-style\"><section><h3>Sample Input 1</h3><pre>1</pre></section></div>\
                <div class=\"part\"><section><h3>Sample Output 1</h3><pre>2</pre></section></div></body></html>";
    assert_eq!(extract_from_markup(html), Vec::<(String, String)>::new());
}

#[test]
fn empty_page_has_no_samples() {
    assert_eq!(extract_from_markup(""), Vec::<(String, String)>::new());
}

#[test]
fn later_part_replaces_earlier_with_same_number() {
    let parts = vec![
        pp(Some("Sample Input 1"), Some("old")),
        pp(Some("Sample Output 1"), Some("out")),
        pp(Some("Sample Input 1"), Some("new")),
    ];
    assert_eq!(pair_samples(&parts), pairs(&[("new", "out")]));
}

#[test]
fn parts_missing_heading_or_block_are_skipped() {
    let parts = vec![
        pp(None, Some("1")),
        pp(Some("Sample Input 1"), None),
        pp(Some("Sample Input 2"), Some("in")),
        pp(Some("Sample Output 2"), Some("out")),
        pp(Some("Sample Output 1"), Some("x")),
    ];
    assert_eq!(pair_samples(&parts), pairs(&[("in", "out")]));
}

#[test]
fn heading_numbers() {
    assert_eq!(get_input_number("Sample Input 1"), Some(1));
    assert_eq!(get_input_number("入力例 2"), Some(2));
    assert_eq!(get_input_number("Sample Input 3  \n"), Some(3));
    assert_eq!(get_input_number("Sample Input x"), None);
    assert_eq!(get_input_number("Sample Output 1"), None);
    assert_eq!(get_input_number("Notes"), None);
    assert_eq!(get_output_number("Sample Output 10"), Some(10));
    assert_eq!(get_output_number("出力例\u{3000}4"), Some(4));
    assert_eq!(get_output_number("Sample Input 1"), None);
    assert_eq!(get_output_number("Output"), None);
}

#[test]
fn contest_is_assembled_in_problem_order() {
    let k = ContestKind::ARC(60);
    let pages = vec![
        page(&[part("Sample Input 1", "c-in"), part("Sample Output 1", "c-out")]),
        page(&[]),
        page(&[part("入力例 1", "e-in"), part("出力例 1", "e-out")]),
        page(&[part("Sample Input 1", "f-in")]),
    ];
    let c = k.get_contest_info(&pages);
    assert_eq!(c.kind, k);
    let diffs: Vec<&str> = c.problem.iter().map(|p| p.diff.as_str()).collect();
    assert_eq!(diffs, vec!["c", "d", "e", "f"]);
    assert_eq!(c.problem[0].expected_in_out, pairs(&[("c-in", "c-out")]));
    assert!(c.problem[1].expected_in_out.is_empty());
    assert_eq!(c.problem[2].expected_in_out, pairs(&[("e-in", "e-out")]));
    assert!(c.problem[3].expected_in_out.is_empty());
}

#[test]
fn page_parts_read_heading_and_block_texts() {
    let html = "<html><body>\
        <div class=\"part\"><section><h3>Problem <b>Statement</b></h3><p>no block</p></section></div>\
        <div class=\"part\"><p>no section</p></div>\
        <div class=\"part\"><section><h3>Sample Input 1</h3><pre>1 2</pre><pre>ignored</pre></section>\
        <section><h3>second section</h3></section></div>\
        </body></html>";
    let page = Page::parse(html);
    let parts = page_parts(&page);
    assert_eq!(parts.len(), 3);
    assert_eq!(parts[0].heading.as_deref(), Some("Problem Statement"));
    assert_eq!(parts[0].block, None);
    assert_eq!(parts[1].heading, None);
    assert_eq!(parts[1].block, None);
    assert_eq!(parts[2].heading.as_deref(), Some("Sample Input 1"));
    assert_eq!(parts[2].block.as_deref(), Some("1 2"));
    assert!(extract_input_output(&page).is_empty());
}
