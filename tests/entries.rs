use dictionary_crawler::collection::{collect_batches, EntryCollection};
use dictionary_crawler::extract::{extract_entries, page_entries, ExtractError};
use dictionary_crawler::finalize::{
    all_entries_sortable, build_dictionary, dedup_adjacent, dictionary_text, finalize,
    short_digit_runs,
};

fn strings(items: &[&str]) -> Vec<String> {
    items.iter().map(|s| s.to_string()).collect()
}

fn page_with_column(anchors: &[&str]) -> String {
    let mut column = String::new();
    for a in anchors {
        column.push_str(&format!("<a href=\"#\">{}</a><br>", a));
    }
    format!(
        "<html><body><table><tr><td id=\"maintext\"><table><tr>\
         <td>1</td><td>2</td><td>3</td><td>{}</td><td>5</td>\
         </tr></table></td></tr></table></body></html>",
        column
    )
}

#[test]
fn append_keeps_every_entry() {
    let mut c = EntryCollection::new();
    c.append(&strings(&["apple", "ant"]));
    c.append(&strings(&[]));
    c.append(&strings(&["bee", "apple"]));
    assert_eq!(c.len(), 4);
    assert_eq!(c.snapshot(), strings(&["apple", "ant", "bee", "apple"]));
}

#[test]
fn count_does_not_depend_on_arrival_order() {
    let a = strings(&["apple", "ant"]);
    let b = strings(&[]);
    let c = strings(&["bee"]);
    let d = strings(&["apple"]);
    let one = collect_batches(&vec![a.clone(), b.clone(), c.clone(), d.clone()]);
    let two = collect_batches(&vec![d, c, a, b]);
    assert_eq!(one.len(), 4);
    assert_eq!(two.len(), 4);
    assert_eq!(two.snapshot(), strings(&["apple", "bee", "apple", "ant"]));
}

#[test]
fn extracts_anchors_of_fourth_column() {
    let page = page_with_column(&["apple", "ant"]);
    assert_eq!(extract_entries(&page), Ok(strings(&["apple", "ant"])));
}

#[test]
fn column_without_anchors_gives_no_entries() {
    let page = page_with_column(&[]);
    assert_eq!(extract_entries(&page), Ok(vec![]));
}

#[test]
fn missing_fourth_column_is_refused() {
    let page = "<html><body><table><tr><td id=\"maintext\"><table><tr>\
                <td>1</td><td><a>x</a></td><td>3</td>\
                </tr></table></td></tr></table></body></html>";
    assert_eq!(extract_entries(page), Err(ExtractError::MissingFourthColumn));
}

#[test]
fn missing_main_text_is_refused() {
    let page = "<html><body><table><tr><td>1</td><td>2</td><td>3</td>\
                <td><a>x</a></td></tr></table></body></html>";
    assert_eq!(extract_entries(page), Err(ExtractError::MissingMainText));
}

#[test]
fn dedup_drops_adjacent_repeats_only() {
    let input = strings(&["abacate", "abacate", "banana", "abacate"]);
    assert_eq!(dedup_adjacent(&input), strings(&["abacate", "banana", "abacate"]));
    assert_eq!(build_dictionary(&input), strings(&["abacate", "abacate", "banana"]));
}

#[test]
fn dedup_of_empty_and_single() {
    assert!(dedup_adjacent(&vec![]).is_empty());
    assert_eq!(dedup_adjacent(&strings(&["a"])), strings(&["a"]));
    assert_eq!(dedup_adjacent(&strings(&["a", "a", "a"])), strings(&["a"]));
}

#[test]
fn natural_order_compares_digit_runs() {
    let d = build_dictionary(&strings(&["word10", "word2"]));
    assert_eq!(d, strings(&["word2", "word10"]));
}

#[test]
fn natural_order_places_accents_beside_letters() {
    let d = build_dictionary(&strings(&["ß", "é", "100", "hello", "world", "50", ".", "B!"]));
    assert_eq!(d, strings(&[".", "50", "100", "B!", "é", "hello", "ß", "world"]));
}

#[test]
fn text_has_one_line_per_entry() {
    assert_eq!(dictionary_text(&strings(&["ant", "bee"])), "ant\nbee\n");
    assert_eq!(dictionary_text(&vec![]), "");
}

#[test]
fn finalizing_twice_gives_the_same_text() {
    let snapshot = strings(&["zebra", "word10", "word2", "abacate", "abacate", "é"]);
    let first = finalize(&snapshot);
    let second = finalize(&snapshot);
    assert_eq!(first.as_bytes(), second.as_bytes());
    assert_eq!(first, "abacate\né\nword2\nword10\nzebra\n");
}

#[test]
fn crawl_of_two_letter_alphabet() {
    let pages = [
        page_with_column(&["apple", "ant"]),
        page_with_column(&[]),
        page_with_column(&["bee"]),
        page_with_column(&["apple"]),
    ];
    let mut collection = EntryCollection::new();
    for page in pages.iter() {
        let entries = extract_entries(page).unwrap();
        collection.append(&entries);
    }
    assert_eq!(collection.len(), 4);
    let text = finalize(&collection.snapshot());
    assert_eq!(text, "ant\napple\napple\nbee\n");
}

#[test]
fn page_shape_decides_outcome() {
    assert_eq!(page_entries(false, None), Err(ExtractError::MissingMainText));
    assert_eq!(page_entries(false, Some(strings(&["x"]))), Err(ExtractError::MissingMainText));
    assert_eq!(page_entries(true, None), Err(ExtractError::MissingFourthColumn));
    assert_eq!(page_entries(true, Some(vec![])), Ok(vec![]));
    assert_eq!(page_entries(true, Some(strings(&["bee"]))), Ok(strings(&["bee"])));
}

#[test]
fn anchor_text_not_markup() {
    let page = "<html><body><table><tr><td id=\"maintext\"><table><tr>\
                <td></td><td></td><td></td><td><a><b>casa</b></a><a>p&amp;b</a></td>\
                </tr></table></td></tr></table></body></html>";
    assert_eq!(extract_entries(page), Ok(strings(&["casa", "p&b"])));
}

#[test]
fn digit_runs_within_reach() {
    assert!(short_digit_runs("word10"));
    assert!(short_digit_runs("ação"));
    assert!(short_digit_runs("1234567890123456789"));
    assert!(!short_digit_runs("12345678901234567890"));
    assert!(short_digit_runs("123456789a1234567890123456789"));
    assert!(short_digit_runs("1234567890\u{2460}"));
    assert!(!short_digit_runs("123456789012345678\u{2473}"));
    assert!(short_digit_runs("ΣΣ"));
    assert!(short_digit_runs("слово"));
    assert!(short_digit_runs("北亰"));
    assert!(short_digit_runs("’’"));
    assert!(short_digit_runs("e\u{301}\u{300}"));
    assert!(!short_digit_runs("1234567890\u{301}1234567890"));
    assert!(short_digit_runs(""));
}

#[test]
fn long_digit_runs_are_reported() {
    assert!(all_entries_sortable(&strings(&["abacate", "word2"])));
    assert!(!all_entries_sortable(&strings(&["abacate", "100000000000000000001"])));
    assert!(all_entries_sortable(&vec![]));
    assert!(all_entries_sortable(&strings(&["ΣΣ", "слово", "北亰", "’’"])));
}

#[test]
fn non_latin_entries_are_sorted() {
    let d = build_dictionary(&strings(&["слово", "ΣΣ", "abacate"]));
    assert_eq!(d.len(), 3);
    assert_eq!(d[0], "abacate");
}
