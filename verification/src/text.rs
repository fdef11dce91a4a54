//! Strings as sequences of characters: equality, and the helpers that the
//! other modules share.

use vstd::prelude::*;
use itertools::Itertools;
use vstd::string::StringSliceAdditionalSpecFns;
use vstd::utf8::encode_utf8_decode_utf8;
use vstd::utf8::is_ascii_chars;
use vstd::utf8::is_ascii_chars_encode_utf8;

verus! {

/// The texts of a list of strings, in order.
pub open spec fn texts(items: Seq<String>) -> Seq<Seq<char>> {
    items.map_values(|s: String| s@)
}

/// The text of a string that may be absent.
pub open spec fn opt_text(s: Option<String>) -> Option<Seq<char>> {
    match s {
        Some(t) => Some(t@),
        None => None,
    }
}

/// A text in lower case, as `str::to_lowercase` gives it.
pub uninterp spec fn lowercase_of(s: Seq<char>) -> Seq<char>;

/// `str::to_lowercase`: the text in lower case, by the Unicode rules that
/// std follows. Nothing is proved of it: the result is only given a name.
#[verifier::external_body]
pub(crate) fn lowercase(s: &str) -> (lower: String)
    ensures
        lower@ == lowercase_of(s@),
{
    s.to_lowercase()
}

/// Whether two strings hold the same characters.
pub fn same_text(a: &str, b: &str) -> (same: bool)
    ensures
        same == (a@ == b@),
{
    let x = a.as_bytes();
    let y = b.as_bytes();
    proof {
        encode_utf8_decode_utf8(a@);
        encode_utf8_decode_utf8(b@);
    }
    if x.len() != y.len() {
        return false;
    }
    let mut i: usize = 0;
    while i < x.len()
        invariant
            x@.len() == y@.len(),
            i <= x@.len(),
            forall|j: int| 0 <= j < i ==> x@[j] == y@[j],
            x@ == a.spec_bytes(),
            y@ == b.spec_bytes(),
            a@ == b@ ==> x@ == y@,
        decreases x@.len() - i,
    {
        if x[i] != y[i] {
            return false;
        }
        i += 1;
    }
    assert(x@ =~= y@);
    true
}

/// Whether a character is one of the ten decimal digits.
pub open spec fn is_digit(c: char) -> bool {
    '0' <= c <= '9'
}

/// The value of a decimal digit.
pub open spec fn digit_of(c: char) -> nat {
    if is_digit(c) {
        (c as u32 - 48) as nat
    } else {
        0
    }
}

/// Whether a sequence holds decimal digits only.
pub open spec fn all_digits(s: Seq<char>) -> bool {
    forall|i: int| 0 <= i < s.len() ==> is_digit(#[trigger] s[i])
}

/// The value of a sequence of decimal digits, the first digit weighing most.
pub open spec fn decimal(digits: Seq<char>) -> nat
    decreases digits.len(),
{
    if digits.len() == 0 {
        0
    } else {
        10 * decimal(digits.drop_last()) + digit_of(digits.last())
    }
}

/// A text without the one plus sign that may lead it.
pub open spec fn unsigned(s: Seq<char>) -> Seq<char> {
    if s.len() > 0 && s[0] == '+' {
        s.skip(1)
    } else {
        s
    }
}

/// The number that a text writes: one or more decimal digits, after an
/// optional plus sign and with nothing else around them, whose value fits
/// the machine word. Any other text writes no number.
pub open spec fn number_of(s: Seq<char>) -> Option<usize> {
    let digits = unsigned(s);
    if digits.len() > 0 && all_digits(digits) && decimal(digits) <= usize::MAX {
        Some(decimal(digits) as usize)
    } else {
        None
    }
}

/// The digits read so far never weigh more than all of them.
proof fn lemma_decimal_prefix(digits: Seq<char>, k: int)
    requires
        0 <= k <= digits.len(),
    ensures
        decimal(digits.take(k)) <= decimal(digits),
    decreases digits.len(),
{
    if k == digits.len() {
        assert(digits.take(k) =~= digits);
    } else {
        lemma_decimal_prefix(digits.drop_last(), k);
        assert(digits.drop_last().take(k) =~= digits.take(k));
    }
}

/// Reads a text as a number.
pub fn parse_number(s: &str) -> (n: Option<usize>)
    ensures
        n == number_of(s@),
{
    if !s.is_ascii() {
        proof {
            let i = choose|i: int| 0 <= i < s@.len() && !('\0' <= #[trigger] s@[i] <= '\u{7f}');
            if unsigned(s@) == s@ {
            } else {
                assert(unsigned(s@)[i - 1] == s@[i]);
            }
        }
        return None;
    }
    let bytes = s.as_bytes();
    proof {
        is_ascii_chars_encode_utf8(s@);
    }
    let n = bytes.len();
    let start: usize = if n > 0 && bytes[0] == 43u8 {
        1
    } else {
        0
    };
    if start == n {
        return None;
    }
    let ghost digits = s@.subrange(start as int, n as int);
    let mut acc: usize = 0;
    let mut i: usize = start;
    while i < n
        invariant
            start <= i <= n,
            n == s@.len(),
            n == bytes@.len(),
            forall|j: int| 0 <= j < n ==> s@[j] as u8 == #[trigger] bytes@[j],
            is_ascii_chars(s@),
            digits == s@.subrange(start as int, n as int),
            digits == unsigned(s@),
            all_digits(digits.take(i - start)),
            acc == decimal(digits.take(i - start)),
        decreases n - i,
    {
        let b = bytes[i];
        let ghost c = s@[i as int];
        assert(c == digits[i - start]);
        if b < 48 || b > 57 {
            return None;
        }
        let d: usize = (b - 48) as usize;
        proof {
            assert(digits.take(i + 1 - start).drop_last() =~= digits.take(i - start));
            lemma_decimal_prefix(digits, i + 1 - start);
        }
        if acc > (usize::MAX - d) / 10 {
            return None;
        }
        acc = acc * 10 + d;
        i += 1;
    }
    assert(digits.take(n - start) =~= digits);
    Some(acc)
}

/// Whether one text comes before another in the order of strings: character
/// by character, a smaller code point first, a proper prefix before the
/// longer text.
pub open spec fn precedes(a: Seq<char>, b: Seq<char>) -> bool
    decreases a.len(),
{
    if b.len() == 0 {
        false
    } else if a.len() == 0 {
        true
    } else if a[0] == b[0] {
        precedes(a.drop_first(), b.drop_first())
    } else {
        a[0] < b[0]
    }
}

/// Whether no text of a list comes before an earlier one.
pub open spec fn ascending(s: Seq<Seq<char>>) -> bool {
    forall|i: int, j: int| 0 <= i < j < s.len() ==> !precedes(#[trigger] s[j], #[trigger] s[i])
}

/// Whether each text of a list comes before all later ones: the list is in
/// order and holds nothing twice.
pub open spec fn strictly_ascending(s: Seq<Seq<char>>) -> bool {
    forall|i: int, j: int| 0 <= i < j < s.len() ==> precedes(#[trigger] s[i], #[trigger] s[j])
}

/// No text comes before itself.
pub proof fn lemma_precedes_irreflexive(a: Seq<char>)
    ensures
        !precedes(a, a),
    decreases a.len(),
{
    if a.len() > 0 {
        lemma_precedes_irreflexive(a.drop_first());
    }
}

/// Of two different texts exactly one comes before the other.
pub proof fn lemma_precedes_total(a: Seq<char>, b: Seq<char>)
    ensures
        a != b ==> (precedes(a, b) <==> !precedes(b, a)),
        a == b ==> !precedes(a, b) && !precedes(b, a),
    decreases a.len(),
{
    lemma_precedes_irreflexive(a);
    if a.len() > 0 && b.len() > 0 && a[0] == b[0] {
        lemma_precedes_total(a.drop_first(), b.drop_first());
        if a.drop_first() == b.drop_first() {
            assert(a =~= seq![a[0]] + a.drop_first());
            assert(b =~= seq![b[0]] + b.drop_first());
        }
    } else if a.len() == 0 && b.len() == 0 {
        assert(a =~= b);
    }
}

/// What comes before a text comes before all that the text comes before.
pub proof fn lemma_precedes_transitive(a: Seq<char>, b: Seq<char>, c: Seq<char>)
    requires
        precedes(a, b),
        precedes(b, c),
    ensures
        precedes(a, c),
    decreases a.len(),
{
    if a.len() > 0 && a[0] == b[0] && b[0] == c[0] {
        lemma_precedes_transitive(a.drop_first(), b.drop_first(), c.drop_first());
    }
}

/// A list in order that holds nothing twice is fixed by what it holds: two
/// such lists with the same members are one list.
pub proof fn lemma_strictly_ascending_unique(a: Seq<Seq<char>>, b: Seq<Seq<char>>)
    requires
        strictly_ascending(a),
        strictly_ascending(b),
        forall|x: Seq<char>| a.contains(x) <==> b.contains(x),
    ensures
        a == b,
    decreases a.len(),
{
    if a.len() == 0 {
        if b.len() > 0 {
            assert(b.contains(b[0]));
        }
    } else {
        assert(a.contains(a[0]));
        assert(b.contains(b[0]));
        lemma_precedes_total(a[0], b[0]);
        let ta = a.drop_first();
        let tb = b.drop_first();
        assert forall|x: Seq<char>| ta.contains(x) <==> tb.contains(x) by {
            if ta.contains(x) {
                lemma_precedes_irreflexive(x);
                assert(a.contains(x));
                let j = choose|j: int| 0 <= j < b.len() && b[j] == x;
                assert(tb[j - 1] == x);
            }
            if tb.contains(x) {
                lemma_precedes_irreflexive(x);
                assert(b.contains(x));
                let j = choose|j: int| 0 <= j < a.len() && a[j] == x;
                assert(ta[j - 1] == x);
            }
        }
        assert(strictly_ascending(ta));
        assert(strictly_ascending(tb));
        lemma_strictly_ascending_unique(ta, tb);
        assert(a =~= seq![a[0]] + ta);
    }
}

/// A list in order that holds nothing twice is strictly in order.
pub proof fn lemma_ascending_distinct(s: Seq<Seq<char>>)
    requires
        ascending(s),
        s.no_duplicates(),
    ensures
        strictly_ascending(s),
{
    assert forall|i: int, j: int| 0 <= i < j < s.len() implies precedes(
        #[trigger] s[i],
        #[trigger] s[j],
    ) by {
        lemma_precedes_total(s[i], s[j]);
    }
}

/// `itertools::Itertools::sorted` on strings: the same strings, each as
/// often as before, in the order of `String`, which is `precedes`.
/// Nothing is proved of it: the contract restates what `itertools` and
/// std document.
#[verifier::external_body]
pub(crate) fn sorted(items: Vec<String>) -> (sorted: Vec<String>)
    ensures
        texts(sorted@).to_multiset() == texts(items@).to_multiset(),
        ascending(texts(sorted@)),
{
    items.into_iter().sorted().collect()
}

/// The texts of a list of borrowed strings, in order.
pub open spec fn strs(items: Seq<&str>) -> Seq<Seq<char>> {
    items.map_values(|s: &str| s@)
}

/// `slice::sort` on borrowed strings: the same strings, each as often as
/// before, in the order of `str`, which is `precedes`. Nothing is proved of
/// it: the contract restates what std documents.
#[verifier::external_body]
pub(crate) fn sort_names(names: &mut Vec<&str>)
    ensures
        strs(final(names)@).to_multiset() == strs(old(names)@).to_multiset(),
        ascending(strs(final(names)@)),
{
    names.sort();
}

/// `str::strip_prefix`: what follows the prefix in a text that starts with
/// it, and `None` for a text that does not. Nothing is proved of it: the
/// contract restates what std documents.
#[verifier::external_body]
pub(crate) fn strip_prefix<'a>(s: &'a str, prefix: &str) -> (rest: Option<&'a str>)
    ensures
        match rest {
            Some(r) => s@ == prefix@ + r@,
            None => !prefix@.is_prefix_of(s@),
        },
{
    s.strip_prefix(prefix)
}

/// Putting a list without repeats in order keeps its members and leaves it
/// strictly in order.
pub proof fn lemma_sorted_distinct(before: Seq<Seq<char>>, after: Seq<Seq<char>>)
    requires
        before.no_duplicates(),
        after.to_multiset() == before.to_multiset(),
        ascending(after),
    ensures
        strictly_ascending(after),
        forall|x: Seq<char>| after.contains(x) <==> before.contains(x),
{
    before.to_multiset_ensures();
    after.to_multiset_ensures();
    before.lemma_multiset_has_no_duplicates();
    after.lemma_multiset_has_no_duplicates_conv();
    lemma_ascending_distinct(after);
    assert forall|x: Seq<char>| after.contains(x) <==> before.contains(x) by {
        assert(after.contains(x) <==> after.to_multiset().count(x) > 0);
    }
}

} // verus!
