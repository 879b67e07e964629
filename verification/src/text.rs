//! Searching and cutting text, counted in characters.

use vstd::prelude::*;
use vstd::std_specs::iter::IteratorSpec;
use vstd::string::StrSliceExecFns;

verus! {

/// Whether `c` is white space: a character with the Unicode property `White_Space`.
pub open spec fn is_space(c: char) -> bool {
    let code = c as u32;
    ||| 0x09 <= code <= 0x0D
    ||| code == 0x20
    ||| code == 0x85
    ||| code == 0xA0
    ||| code == 0x1680
    ||| 0x2000 <= code <= 0x200A
    ||| code == 0x2028
    ||| code == 0x2029
    ||| code == 0x202F
    ||| code == 0x205F
    ||| code == 0x3000
}

/// Whether `s` holds white space only.
pub open spec fn all_spaces(s: Seq<char>) -> bool {
    forall|i: int| 0 <= i < s.len() ==> is_space(#[trigger] s[i])
}

/// How many characters of white space `s` begins with.
pub open spec fn leading_spaces(s: Seq<char>) -> nat
    decreases s.len(),
{
    if s.len() > 0 && is_space(s[0]) {
        1 + leading_spaces(s.skip(1))
    } else {
        0
    }
}

/// How many characters of white space `s` ends with.
pub open spec fn trailing_spaces(s: Seq<char>) -> nat
    decreases s.len(),
{
    if s.len() > 0 && is_space(s.last()) {
        1 + trailing_spaces(s.drop_last())
    } else {
        0
    }
}

/// `s` without the white space it begins with.
pub open spec fn trim_start(s: Seq<char>) -> Seq<char> {
    s.skip(leading_spaces(s) as int)
}

/// `s` without the white space it ends with.
pub open spec fn trim_end(s: Seq<char>) -> Seq<char> {
    s.take(s.len() - trailing_spaces(s))
}

/// `s` without the white space at either end.
pub open spec fn trim(s: Seq<char>) -> Seq<char> {
    trim_end(trim_start(s))
}

/// Whether `rest` is what is left of `s` after some of its characters, or none.
pub open spec fn is_suffix(rest: Seq<char>, s: Seq<char>) -> bool {
    rest.len() <= s.len() && rest == s.skip(s.len() - rest.len())
}

/// Whether `rest` is what is left of `s` after one character or more.
pub open spec fn is_proper_suffix(rest: Seq<char>, s: Seq<char>) -> bool {
    rest.len() < s.len() && rest == s.skip(s.len() - rest.len())
}

/// The place of the first `needle` in `s`, if there is one.
pub open spec fn first_index(s: Seq<char>, needle: char) -> Option<int>
    decreases s.len(),
{
    if s.len() == 0 {
        None
    } else if s[0] == needle {
        Some(0int)
    } else {
        match first_index(s.skip(1), needle) {
            Some(i) => Some(i + 1),
            None => None,
        }
    }
}

/// `first_index` finds the earliest occurrence, and finds one whenever there is any.
pub proof fn lemma_first_index(s: Seq<char>, needle: char)
    ensures
        match first_index(s, needle) {
            Some(i) => 0 <= i < s.len() && s[i] == needle && forall|j: int|
                0 <= j < i ==> s[j] != needle,
            None => forall|j: int| 0 <= j < s.len() ==> s[j] != needle,
        },
    decreases s.len(),
{
    if s.len() > 0 && s[0] != needle {
        let t = s.skip(1);
        lemma_first_index(t, needle);
        match first_index(t, needle) {
            Some(i) => {
                assert forall|j: int| 0 <= j < i + 1 implies s[j] != needle by {
                    if j > 0 {
                        assert(s[j] == t[j - 1]);
                    }
                }
            },
            None => {
                assert forall|j: int| 0 <= j < s.len() implies s[j] != needle by {
                    if j > 0 {
                        assert(s[j] == t[j - 1]);
                    }
                }
            },
        }
    }
}

/// An index that holds `needle`, with none before it that does, is the first index.
pub proof fn lemma_first_index_is(s: Seq<char>, needle: char, i: int)
    requires
        0 <= i < s.len(),
        s[i] == needle,
        forall|j: int| 0 <= j < i ==> s[j] != needle,
    ensures
        first_index(s, needle) == Some(i),
{
    lemma_first_index(s, needle);
}

/// A text without `needle` has no first index of it.
pub proof fn lemma_first_index_none(s: Seq<char>, needle: char)
    requires
        forall|j: int| 0 <= j < s.len() ==> s[j] != needle,
    ensures
        first_index(s, needle) is None,
{
    lemma_first_index(s, needle);
}

/// Text put after `s` leaves its first `needle` where it was; where `s` has
/// none, the first is the first of what was put after.
pub proof fn lemma_first_index_extends(s: Seq<char>, more: Seq<char>, needle: char)
    ensures
        first_index(s + more, needle) == match first_index(s, needle) {
            Some(i) => Some(i),
            None => match first_index(more, needle) {
                Some(j) => Some(s.len() + j),
                None => None,
            },
        },
{
    let whole = s + more;
    lemma_first_index(s, needle);
    lemma_first_index(more, needle);
    match first_index(s, needle) {
        Some(i) => {
            assert(whole[i] == s[i]);
            assert forall|j: int| 0 <= j < i implies whole[j] != needle by {
                assert(whole[j] == s[j]);
            }
            lemma_first_index_is(whole, needle, i);
        },
        None => {
            match first_index(more, needle) {
                Some(j) => {
                    assert(whole[s.len() + j] == more[j]);
                    assert forall|k: int| 0 <= k < s.len() + j implies whole[k] != needle by {
                        if k < s.len() {
                            assert(whole[k] == s[k]);
                        } else {
                            assert(whole[k] == more[k - s.len()]);
                        }
                    }
                    lemma_first_index_is(whole, needle, s.len() + j);
                },
                None => {
                    assert forall|k: int| 0 <= k < whole.len() implies whole[k] != needle by {
                        if k < s.len() {
                            assert(whole[k] == s[k]);
                        } else {
                            assert(whole[k] == more[k - s.len()]);
                        }
                    }
                    lemma_first_index_none(whole, needle);
                },
            }
        },
    }
}

/// White space put before a text adds to the white space it begins with; text
/// put after a character that is no white space adds nothing to it.
pub proof fn lemma_leading_spaces_extends(s: Seq<char>, more: Seq<char>)
    ensures
        leading_spaces(s + more) == if leading_spaces(s) == s.len() {
            s.len() + leading_spaces(more)
        } else {
            leading_spaces(s)
        },
{
    let whole = s + more;
    lemma_leading_spaces(s);
    lemma_leading_spaces(more);
    let n = if leading_spaces(s) == s.len() {
        s.len() + leading_spaces(more)
    } else {
        leading_spaces(s)
    };
    assert forall|j: int| 0 <= j < n implies is_space(whole[j]) by {
        if j < s.len() {
            assert(whole[j] == s[j]);
        } else {
            assert(whole[j] == more[j - s.len()]);
        }
    }
    if n < whole.len() {
        if n < s.len() {
            assert(whole[n as int] == s[n as int]);
        } else {
            assert(whole[n as int] == more[n - s.len()]);
        }
    }
    lemma_leading_spaces_is(whole, n as int);
}

/// A text of white space only begins with as much white space as it is long.
pub proof fn lemma_all_spaces(s: Seq<char>)
    ensures
        all_spaces(s) <==> leading_spaces(s) == s.len(),
{
    lemma_leading_spaces(s);
    if all_spaces(s) {
        lemma_leading_spaces_is(s, s.len() as int);
    }
}

/// The white space at the start of a text ends at its first other character.
pub proof fn lemma_leading_spaces(s: Seq<char>)
    ensures
        leading_spaces(s) <= s.len(),
        forall|j: int| 0 <= j < leading_spaces(s) ==> is_space(s[j]),
        leading_spaces(s) < s.len() ==> !is_space(s[leading_spaces(s) as int]),
    decreases s.len(),
{
    if s.len() > 0 && is_space(s[0]) {
        let t = s.skip(1);
        lemma_leading_spaces(t);
        assert forall|j: int| 0 <= j < leading_spaces(s) implies is_space(s[j]) by {
            if j > 0 {
                assert(s[j] == t[j - 1]);
            }
        }
        if leading_spaces(s) < s.len() {
            assert(s[leading_spaces(s) as int] == t[leading_spaces(t) as int]);
        }
    }
}

/// A run of white space followed by another character is all the white space in front.
pub proof fn lemma_leading_spaces_is(s: Seq<char>, n: int)
    requires
        0 <= n <= s.len(),
        forall|j: int| 0 <= j < n ==> is_space(s[j]),
        n < s.len() ==> !is_space(s[n]),
    ensures
        leading_spaces(s) == n,
{
    lemma_leading_spaces(s);
}

/// The white space at the end of a text begins after its last other character.
pub proof fn lemma_trailing_spaces(s: Seq<char>)
    ensures
        trailing_spaces(s) <= s.len(),
        forall|j: int| s.len() - trailing_spaces(s) <= j < s.len() ==> is_space(s[j]),
        trailing_spaces(s) < s.len() ==> !is_space(s[s.len() - trailing_spaces(s) - 1]),
    decreases s.len(),
{
    if s.len() > 0 && is_space(s.last()) {
        let t = s.drop_last();
        lemma_trailing_spaces(t);
        assert forall|j: int| s.len() - trailing_spaces(s) <= j < s.len() implies is_space(
            s[j],
        ) by {
            if j < s.len() - 1 {
                assert(s[j] == t[j]);
            }
        }
        if trailing_spaces(s) < s.len() {
            assert(s[s.len() - trailing_spaces(s) - 1] == t[t.len() - trailing_spaces(t) - 1]);
        }
    }
}

/// Whether `c` is white space.
pub fn is_whitespace(c: char) -> (yes: bool)
    ensures
        yes == is_space(c),
{
    let code: u32 = c as u32;
    (0x09 <= code && code <= 0x0D) || code == 0x20 || code == 0x85 || code == 0xA0 || code
        == 0x1680 || (0x2000 <= code && code <= 0x200A) || code == 0x2028 || code == 0x2029
        || code == 0x202F || code == 0x205F || code == 0x3000
}

/// The first character of `s`, if it has one.
pub fn first_char(s: &str) -> (first: Option<char>)
    ensures
        first == if s@.len() > 0 {
            Some(s@[0])
        } else {
            None
        },
{
    let mut chars = s.chars();
    chars.next()
}

/// Finds the first `needle` in `s`.
pub fn find_char(s: &str, needle: char) -> (found: Option<usize>)
    ensures
        found matches Some(i) ==> first_index(s@, needle) == Some(i as int) && i < s@.len(),
        found is None ==> first_index(s@, needle) is None,
        s@.len() <= usize::MAX,
{
    let n: usize = s.unicode_len();
    let mut rest = s.chars();
    let mut i: usize = 0;
    loop
        invariant
            n == s@.len(),
            i <= n,
            rest.remaining() == s@.skip(i as int),
            forall|j: int| 0 <= j < i ==> s@[j] != needle,
        decreases n - i,
    {
        match rest.next() {
            Some(c) => {
                if c == needle {
                    proof {
                        lemma_first_index_is(s@, needle, i as int);
                    }
                    return Some(i);
                }
                i = i + 1;
            },
            None => {
                proof {
                    lemma_first_index_none(s@, needle);
                }
                return None;
            },
        }
    }
}

/// Whether `s` begins with `prefix`.
pub fn starts_with(s: &str, prefix: &str) -> (yes: bool)
    ensures
        yes == prefix@.is_prefix_of(s@),
{
    let n: usize = prefix.unicode_len();
    let mut left = s.chars();
    let mut right = prefix.chars();
    let mut i: usize = 0;
    loop
        invariant
            n == prefix@.len(),
            i <= n,
            i <= s@.len(),
            left.remaining() == s@.skip(i as int),
            right.remaining() == prefix@.skip(i as int),
            forall|j: int| 0 <= j < i ==> s@[j] == prefix@[j],
        decreases n - i,
    {
        match right.next() {
            None => {
                assert(prefix@ =~= s@.subrange(0, prefix@.len() as int));
                return true;
            },
            Some(wanted) => {
                match left.next() {
                    None => {
                        return false;
                    },
                    Some(c) => {
                        if c != wanted {
                            proof {
                                if prefix@.len() <= s@.len() {
                                    let front = s@.subrange(0, prefix@.len() as int);
                                    assert(front[i as int] == s@[i as int]);
                                }
                            }
                            return false;
                        }
                        i = i + 1;
                    },
                }
            },
        }
    }
}

/// The characters of `s` from the `n`-th on.
pub fn skip_chars(s: &str, n: usize) -> (rest: &str)
    requires
        n <= s@.len(),
    ensures
        rest@ == s@.skip(n as int),
        s@.len() <= usize::MAX,
{
    let len: usize = s.unicode_len();
    s.substring_char(n, len)
}

/// The first `n` characters of `s`.
pub fn take_chars(s: &str, n: usize) -> (front: &str)
    requires
        n <= s@.len(),
    ensures
        front@ == s@.take(n as int),
{
    s.substring_char(0, n)
}

/// How many characters `s` has.
pub fn char_count(s: &str) -> (n: usize)
    ensures
        n == s@.len(),
{
    s.unicode_len()
}

/// How many characters of white space `s` begins with.
pub fn leading_space_count(s: &str) -> (n: usize)
    ensures
        n == leading_spaces(s@),
        n <= s@.len(),
{
    let len: usize = s.unicode_len();
    let mut chars = s.chars();
    let mut i: usize = 0;
    loop
        invariant
            len == s@.len(),
            i <= len,
            chars.remaining() == s@.skip(i as int),
            forall|j: int| 0 <= j < i ==> is_space(s@[j]),
        decreases len - i,
    {
        match chars.next() {
            Some(c) => {
                if !is_whitespace(c) {
                    proof {
                        lemma_leading_spaces_is(s@, i as int);
                    }
                    return i;
                }
                i = i + 1;
            },
            None => {
                proof {
                    lemma_leading_spaces_is(s@, i as int);
                }
                return i;
            },
        }
    }
}

/// `s` without the white space it begins with.
pub fn trim_start_of(s: &str) -> (rest: &str)
    ensures
        rest@ == trim_start(s@),
{
    let n: usize = leading_space_count(s);
    skip_chars(s, n)
}

/// `s` without the white space it ends with.
pub fn trim_end_of(s: &str) -> (front: &str)
    ensures
        front@ == trim_end(s@),
{
    let n: usize = s.unicode_len();
    let mut chars = s.chars();
    let mut i: usize = 0;
    let mut keep: usize = 0;
    loop
        invariant
            n == s@.len(),
            i <= n,
            keep <= i,
            chars.remaining() == s@.skip(i as int),
            keep == i - trailing_spaces(s@.take(i as int)),
        decreases n - i,
    {
        match chars.next() {
            Some(c) => {
                proof {
                    let before = s@.take(i as int);
                    let after = s@.take(i + 1);
                    assert(after.drop_last() =~= before);
                    assert(after.last() == c);
                }
                i = i + 1;
                if !is_whitespace(c) {
                    keep = i;
                }
            },
            None => {
                assert(s@.take(i as int) =~= s@);
                return s.substring_char(0, keep);
            },
        }
    }
}

/// `s` without the white space at either end.
pub fn trim_of(s: &str) -> (middle: &str)
    ensures
        middle@ == trim(s@),
{
    trim_end_of(trim_start_of(s))
}

} // verus!
