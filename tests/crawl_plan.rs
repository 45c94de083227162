use dictionary_crawler::crawl::{alphabet, page_url, prefix_pairs};

#[test]
fn alphabet_is_lowercase_latin() {
    let a = alphabet();
    assert_eq!(a.len(), 26);
    assert_eq!(a[0], 'a');
    assert_eq!(a[25], 'z');
}

#[test]
fn every_pair_once() {
    let a = alphabet();
    let pairs = prefix_pairs(&a);
    assert_eq!(pairs.len(), 676);
    assert_eq!(pairs[0], ('a', 'a'));
    assert_eq!(pairs[1], ('a', 'b'));
    assert_eq!(pairs[26], ('b', 'a'));
    assert_eq!(pairs[675], ('z', 'z'));
    let mut seen = pairs.clone();
    seen.sort();
    seen.dedup();
    assert_eq!(seen.len(), 676);
}

#[test]
fn pairs_of_reduced_alphabet() {
    let pairs = prefix_pairs(&vec!['a', 'b']);
    assert_eq!(pairs, vec![('a', 'a'), ('a', 'b'), ('b', 'a'), ('b', 'b')]);
}

#[test]
fn pairs_of_empty_alphabet() {
    assert!(prefix_pairs(&vec![]).is_empty());
}

#[test]
fn page_url_embeds_pair() {
    assert_eq!(
        page_url('x', 'q'),
        "http://www.portaldalinguaportuguesa.org/advanced.php?action=browse&l1=x&l2=q"
    );
}
