//! Turning the gathered entries into the dictionary: adjacent duplicates
//! are dropped, the rest is put in natural lexical order, and each entry
//! becomes one line of text.
use vstd::prelude::*;
use vstd::string::*;
use lexical_sort::StringSort;
use crate::crawl::push_char;

verus! {

/// What `natural_lexical_cmp` of lexical-sort answers for two strings.
pub uninterp spec fn natural_order(a: Seq<char>, b: Seq<char>) -> core::cmp::Ordering;

/// The order in which lexical-sort's unstable string sort, with
/// `natural_lexical_cmp`, leaves the entries.
pub uninterp spec fn naturally_sorted(entries: Seq<Seq<char>>) -> Seq<Seq<char>>;

/// `entries` with each entry dropped that equals the entry right before it.
pub open spec fn dedup_adjacent_spec(entries: Seq<Seq<char>>) -> Seq<Seq<char>>
    decreases entries.len(),
{
    if entries.len() <= 1 {
        entries
    } else if entries.last() == entries[entries.len() - 2] {
        dedup_adjacent_spec(entries.drop_last())
    } else {
        dedup_adjacent_spec(entries.drop_last()).push(entries.last())
    }
}

/// No entry is ordered after any later one.
pub open spec fn is_naturally_ordered(entries: Seq<Seq<char>>) -> bool {
    forall|i: int, j: int|
        0 <= i < j < entries.len() ==> natural_order(#[trigger] entries[i], #[trigger] entries[j])
            != core::cmp::Ordering::Greater
}

/// Each entry followed by a line break.
pub open spec fn dictionary_text_spec(entries: Seq<Seq<char>>) -> Seq<char>
    decreases entries.len(),
{
    if entries.len() == 0 {
        Seq::empty()
    } else {
        dictionary_text_spec(entries.drop_last()) + entries.last() + seq!['\n']
    }
}

/// The dictionary made from a snapshot of the entry collection.
pub open spec fn dictionary_spec(snapshot: Seq<Seq<char>>) -> Seq<Seq<char>> {
    naturally_sorted(dedup_adjacent_spec(snapshot))
}

/// The text of the dictionary file made from a snapshot.
pub open spec fn finalized_spec(snapshot: Seq<Seq<char>>) -> Seq<char> {
    dictionary_text_spec(dictionary_spec(snapshot))
}

/// What `iterate_lexical_char` of lexical-sort makes of one character: the
/// characters that the natural comparison reads in its place.
pub uninterp spec fn lexical_chars(c: char) -> Seq<char>;

/// The longest run of digits whose value the natural comparison can hold.
pub const MAX_DIGIT_RUN: u64 = 19;

/// The characters that the natural comparison reads for `s`: the
/// transliteration of each of its characters, in order.
pub open spec fn lexical_stream(s: Seq<char>) -> Seq<char>
    decreases s.len(),
{
    if s.len() == 0 {
        Seq::empty()
    } else {
        lexical_stream(s.drop_last()) + lexical_chars(s.last())
    }
}

/// Whether `c` is an ASCII digit.
pub open spec fn is_ascii_digit(c: char) -> bool {
    '0' <= c && c <= '9'
}

/// The length of the run of ASCII digits that ends `t`.
pub open spec fn trailing_digits(t: Seq<char>) -> nat
    decreases t.len(),
{
    if t.len() == 0 {
        0
    } else if is_ascii_digit(t.last()) {
        trailing_digits(t.drop_last()) + 1
    } else {
        0
    }
}

/// No run of ASCII digits in `t` is longer than the natural comparison can
/// take in.
pub open spec fn digit_runs_fit(t: Seq<char>) -> bool {
    forall|k: int| 0 <= k <= t.len() ==> #[trigger] trailing_digits(t.take(k)) <= MAX_DIGIT_RUN
}

/// No run of digits that the natural comparison reads for `s` is longer
/// than it can take in.
pub open spec fn has_short_digit_runs(s: Seq<char>) -> bool {
    digit_runs_fit(lexical_stream(s))
}

/// Every entry has short digit runs.
pub open spec fn all_short_digit_runs(entries: Seq<Seq<char>>) -> bool {
    forall|i: int| 0 <= i < entries.len() ==> has_short_digit_runs(#[trigger] entries[i])
}

/// Relies on `StringSort::string_sort_unstable` of lexical-sort, called with
/// `natural_lexical_cmp`: it sorts the strings in place by that comparison
/// (a slice `sort_unstable_by`), so the result holds the same strings, each
/// no greater than any later one (the comparison is a total order that
/// falls back to `str::cmp`), in an order fixed by the input. The
/// comparison reads each string through `iterate_lexical_char` and folds a
/// run of ASCII digits there into a `u64`, which overflows past 19 digits.
#[verifier::external_body]
fn sort_naturally(entries: &mut Vec<String>)
    requires
        all_short_digit_runs(old(entries).deep_view()),
    ensures
        final(entries).deep_view() == naturally_sorted(old(entries).deep_view()),
        final(entries).deep_view().to_multiset() == old(entries).deep_view().to_multiset(),
        forall|i: int, j: int|
            0 <= i < j < final(entries)@.len() ==> natural_order(
                #[trigger] final(entries).deep_view()[i],
                #[trigger] final(entries).deep_view()[j],
            ) != core::cmp::Ordering::Greater,
{
    entries.string_sort_unstable(lexical_sort::natural_lexical_cmp);
}

/// A non-empty sequence keeps its last entry through adjacent dedup.
proof fn lemma_dedup_keeps_last(entries: Seq<Seq<char>>)
    requires
        entries.len() > 0,
    ensures
        dedup_adjacent_spec(entries).len() > 0,
        dedup_adjacent_spec(entries).last() == entries.last(),
    decreases entries.len(),
{
    if entries.len() > 1 && entries.last() == entries[entries.len() - 2] {
        lemma_dedup_keeps_last(entries.drop_last());
    }
}

/// Drops each entry that equals the entry right before it; entries equal to
/// an earlier but not adjacent one stay.
pub fn dedup_adjacent(entries: &Vec<String>) -> (r: Vec<String>)
    ensures
        r.deep_view() == dedup_adjacent_spec(entries.deep_view()),
{
    let ghost all = entries.deep_view();
    let mut r: Vec<String> = Vec::new();
    let mut i: usize = 0;
    assert(r.deep_view() =~= dedup_adjacent_spec(all.take(0)));
    while i < entries.len()
        invariant
            all == entries.deep_view(),
            i <= entries@.len(),
            r.deep_view() == dedup_adjacent_spec(all.take(i as int)),
        decreases entries@.len() - i,
    {
        let ghost prev = r.deep_view();
        let ghost next = all.take(i as int + 1);
        assert(next.drop_last() =~= all.take(i as int));
        if i > 0 {
            proof {
                lemma_dedup_keeps_last(all.take(i as int));
            }
        }
        let keep = if i == 0 {
            true
        } else {
            let last = r.len() - 1;
            r[last] != entries[i]
        };
        if keep {
            let entry = entries[i].clone();
            let ghost before = r@;
            r.push(entry);
            proof {
                assert(r@ == before.push(entry));
                assert(r.deep_view() =~= prev.push(all[i as int]));
            }
        }
        i = i + 1;
    }
    assert(all.take(entries@.len() as int) =~= all);
    r
}

/// Each entry of `dictionary` on its own line, in order, each line ended by
/// a line break.
pub fn dictionary_text(dictionary: &Vec<String>) -> (r: String)
    ensures
        r@ == dictionary_text_spec(dictionary.deep_view()),
{
    let ghost all = dictionary.deep_view();
    let mut r = String::new();
    let mut i: usize = 0;
    assert(all.take(0) =~= Seq::<Seq<char>>::empty());
    while i < dictionary.len()
        invariant
            all == dictionary.deep_view(),
            i <= dictionary@.len(),
            r@ == dictionary_text_spec(all.take(i as int)),
        decreases dictionary@.len() - i,
    {
        assert(all.take(i as int + 1).drop_last() =~= all.take(i as int));
        r.append(dictionary[i].as_str());
        push_char(&mut r, '\n');
        i = i + 1;
    }
    assert(all.take(dictionary@.len() as int) =~= all);
    r
}

/// The dictionary made from a snapshot of the entry collection: adjacent
/// duplicates dropped, then put in natural lexical order.
pub fn build_dictionary(snapshot: &Vec<String>) -> (r: Vec<String>)
    requires
        all_short_digit_runs(snapshot.deep_view()),
    ensures
        r.deep_view() == dictionary_spec(snapshot.deep_view()),
        r.deep_view().to_multiset() == dedup_adjacent_spec(snapshot.deep_view()).to_multiset(),
        is_naturally_ordered(r.deep_view()),
{
    let mut r = dedup_adjacent(snapshot);
    proof {
        lemma_dedup_short_digit_runs(snapshot.deep_view());
    }
    sort_naturally(&mut r);
    r
}

/// The text of the dictionary file made from a snapshot of the entry
/// collection.
pub fn finalize(snapshot: &Vec<String>) -> (r: String)
    requires
        all_short_digit_runs(snapshot.deep_view()),
    ensures
        r@ == finalized_spec(snapshot.deep_view()),
{
    let dictionary = build_dictionary(snapshot);
    dictionary_text(&dictionary)
}

/// Adjacent dedup keeps only entries of its input, so it keeps their
/// short digit runs.
proof fn lemma_dedup_short_digit_runs(entries: Seq<Seq<char>>)
    requires
        all_short_digit_runs(entries),
    ensures
        all_short_digit_runs(dedup_adjacent_spec(entries)),
    decreases entries.len(),
{
    if entries.len() > 1 {
        let init = entries.drop_last();
        assert(all_short_digit_runs(init)) by {
            assert forall|i: int| 0 <= i < init.len() implies has_short_digit_runs(#[trigger] init[i]) by {
                assert(init[i] == entries[i]);
            }
        }
        lemma_dedup_short_digit_runs(init);
        assert(has_short_digit_runs(entries[entries.len() - 1]));
    }
}

/// Relies on `iter::iterate_lexical_char` of lexical-sort: the characters
/// that the natural comparison reads for `c`.
#[verifier::external_body]
fn transliterate_char(c: char) -> (r: Vec<char>)
    ensures
        r@ == lexical_chars(c),
{
    lexical_sort::iter::iterate_lexical_char(c).collect()
}

/// Transliterating a concatenation gives the transliterations concatenated.
proof fn lemma_lexical_stream_append(a: Seq<char>, b: Seq<char>)
    ensures
        lexical_stream(a + b) == lexical_stream(a) + lexical_stream(b),
    decreases b.len(),
{
    if b.len() == 0 {
        assert(a + b =~= a);
        assert(lexical_stream(a) + lexical_stream(b) =~= lexical_stream(a));
    } else {
        lemma_lexical_stream_append(a, b.drop_last());
        assert((a + b).drop_last() =~= a + b.drop_last());
        assert((a + b).last() == b.last());
        assert(lexical_stream(a + b) =~= lexical_stream(a) + lexical_stream(b));
    }
}

/// Whether the natural comparison can take in every run of digits that it
/// reads for `s`.
pub fn short_digit_runs(s: &str) -> (r: bool)
    ensures
        r == has_short_digit_runs(s@),
{
    let n = s.unicode_len();
    let mut run: u64 = 0;
    let mut i: usize = 0;
    let ghost mut cur: Seq<char> = Seq::empty();
    assert(s@.take(0) =~= Seq::<char>::empty());
    assert(cur.take(0) =~= cur);
    while i < n
        invariant
            n == s@.len(),
            i <= n,
            cur == lexical_stream(s@.take(i as int)),
            run == trailing_digits(cur),
            digit_runs_fit(cur),
        decreases n - i,
    {
        let c = s.get_char(i);
        let chars = transliterate_char(c);
        let ghost done = cur;
        proof {
            assert(s@.take(i as int + 1).drop_last() =~= s@.take(i as int));
            assert(s@.take(i as int + 1).last() == c);
            assert(s@ =~= s@.take(i as int + 1) + s@.skip(i as int + 1));
            lemma_lexical_stream_append(s@.take(i as int + 1), s@.skip(i as int + 1));
            assert(done + chars@ == lexical_stream(s@.take(i as int + 1)));
        }
        let mut j: usize = 0;
        assert(chars@.take(0) =~= Seq::<char>::empty());
        assert(done + chars@.take(0) =~= done);
        while j < chars.len()
            invariant
                j <= chars@.len(),
                cur == done + chars@.take(j as int),
                done + chars@ == lexical_stream(s@.take(i as int + 1)),
                lexical_stream(s@) == lexical_stream(s@.take(i as int + 1)) + lexical_stream(
                    s@.skip(i as int + 1),
                ),
                run == trailing_digits(cur),
                digit_runs_fit(cur),
            decreases chars@.len() - j,
        {
            let x = chars[j];
            let ghost prev = cur;
            proof {
                assert(prev.take(prev.len() as int) =~= prev);
                assert(trailing_digits(prev.take(prev.len() as int)) <= MAX_DIGIT_RUN);
                cur = prev.push(x);
                assert(cur =~= done + chars@.take(j as int + 1));
                assert(cur.drop_last() =~= prev);
            }
            if '0' <= x && x <= '9' {
                run = run + 1;
            } else {
                run = 0;
            }
            proof {
                assert(cur.take(cur.len() as int) =~= cur);
                assert forall|k: int| 0 <= k <= prev.len() implies #[trigger] cur.take(k) == prev.take(k) by {
                    assert(cur.take(k) =~= prev.take(k));
                }
            }
            if run > MAX_DIGIT_RUN {
                proof {
                    assert(lexical_stream(s@).take(cur.len() as int) =~= cur);
                    assert(trailing_digits(lexical_stream(s@).take(cur.len() as int)) > MAX_DIGIT_RUN);
                }
                return false;
            }
            proof {
                assert forall|k: int| 0 <= k <= cur.len() implies #[trigger] trailing_digits(cur.take(k))
                    <= MAX_DIGIT_RUN by {
                    if k <= prev.len() {
                        assert(cur.take(k) == prev.take(k));
                    }
                }
            }
            j = j + 1;
        }
        proof {
            assert(chars@.take(chars@.len() as int) =~= chars@);
        }
        i = i + 1;
    }
    assert(s@.take(n as int) =~= s@);
    true
}

/// Whether every entry can be put in natural order.
pub fn all_entries_sortable(entries: &Vec<String>) -> (r: bool)
    ensures
        r == all_short_digit_runs(entries.deep_view()),
{
    let mut i: usize = 0;
    while i < entries.len()
        invariant
            i <= entries@.len(),
            forall|k: int| 0 <= k < i ==> has_short_digit_runs(#[trigger] entries.deep_view()[k]),
        decreases entries@.len() - i,
    {
        if !short_digit_runs(entries[i].as_str()) {
            assert(entries.deep_view()[i as int] == entries@[i as int]@);
            return false;
        }
        i = i + 1;
    }
    true
}

} // verus!
