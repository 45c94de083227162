//! The crawl plan: the alphabet, the prefix pairs drawn from it, and the
//! address of the index page of each pair.
use vstd::prelude::*;
use vstd::string::*;

verus! {

/// The browse index of the dictionary site; a prefix pair is added as the
/// query parameters `l1` and `l2`.
pub const BASE_URL: &'static str = "http://www.portaldalinguaportuguesa.org/advanced.php?action=browse";

/// The name of the file that the dictionary is written to.
pub const FILE_NAME: &'static str = "dictionary.txt";

/// The symbols that each half of a prefix pair ranges over.
pub open spec fn alphabet_spec() -> Seq<char> {
    seq![
        'a', 'b', 'c', 'd', 'e', 'f', 'g', 'h', 'i', 'j', 'k', 'l', 'm',
        'n', 'o', 'p', 'q', 'r', 's', 't', 'u', 'v', 'w', 'x', 'y', 'z',
    ]
}

/// Every ordered pair over `alphabet`, first symbol major: the pair
/// `(alphabet[i], alphabet[j])` stands at `i * |alphabet| + j`.
pub open spec fn prefix_pairs_spec(alphabet: Seq<char>) -> Seq<(char, char)> {
    Seq::new(
        alphabet.len() * alphabet.len(),
        |k: int| (alphabet[k / alphabet.len() as int], alphabet[k % alphabet.len() as int]),
    )
}

/// The address of the index page for the prefix pair `(first, second)`.
pub open spec fn page_url_spec(first: char, second: char) -> Seq<char> {
    BASE_URL@ + "&l1="@ + seq![first] + "&l2="@ + seq![second]
}

/// Relies on `String::push`: the character is added at the end.
#[verifier::external_body]
pub(crate) fn push_char(s: &mut String, c: char)
    ensures
        final(s)@ == old(s)@.push(c),
{
    s.push(c);
}

/// The lowercase Latin alphabet, in order.
pub fn alphabet() -> (r: Vec<char>)
    ensures
        r@ == alphabet_spec(),
{
    let r = vec![
        'a', 'b', 'c', 'd', 'e', 'f', 'g', 'h', 'i', 'j', 'k', 'l', 'm',
        'n', 'o', 'p', 'q', 'r', 's', 't', 'u', 'v', 'w', 'x', 'y', 'z',
    ];
    assert(r@ =~= alphabet_spec());
    r
}

/// Every ordered pair over `alphabet`, each exactly once.
pub fn prefix_pairs(alphabet: &Vec<char>) -> (r: Vec<(char, char)>)
    requires
        alphabet@.len() * alphabet@.len() <= usize::MAX,
    ensures
        r@ == prefix_pairs_spec(alphabet@),
{
    let n = alphabet.len();
    let mut r: Vec<(char, char)> = Vec::new();
    let mut i: usize = 0;
    while i < n
        invariant
            n == alphabet@.len(),
            n * n <= usize::MAX,
            i <= n,
            r@.len() == i * n,
            forall|k: int|
                0 <= k < i * n ==> #[trigger] r@[k] == (alphabet@[k / n as int], alphabet@[k % n as int]),
        decreases n - i,
    {
        let mut j: usize = 0;
        while j < n
            invariant
                n == alphabet@.len(),
                n * n <= usize::MAX,
                i < n,
                j <= n,
                r@.len() == i * n + j,
                forall|k: int|
                    0 <= k < i * n + j ==> #[trigger] r@[k] == (alphabet@[k / n as int], alphabet@[k % n as int]),
            decreases n - j,
        {
            proof {
                assert((i + 1) * n <= n * n) by (nonlinear_arith)
                    requires i < n;
                assert(i * n + j < (i + 1) * n) by (nonlinear_arith)
                    requires j < n;
                let k = i * n + j;
                assert(k / n as int == i && k % n as int == j) by (nonlinear_arith)
                    requires k == i * n + j, j < n, 0 <= i;
            }
            r.push((alphabet[i], alphabet[j]));
            j = j + 1;
        }
        proof {
            assert(i * n + n == (i + 1) * n) by (nonlinear_arith);
        }
        i = i + 1;
    }
    assert(r@ =~= prefix_pairs_spec(alphabet@));
    r
}

/// The address of the index page for the prefix pair `(first, second)`.
pub fn page_url(first: char, second: char) -> (r: String)
    ensures
        r@ == page_url_spec(first, second),
{
    let mut r = String::from_str(BASE_URL);
    r.append("&l1=");
    push_char(&mut r, first);
    r.append("&l2=");
    push_char(&mut r, second);
    r
}

} // verus!
